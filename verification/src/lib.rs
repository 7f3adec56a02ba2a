//! Analysis of sports-betting markets against independent model
//! predictions: which wagers have positive expected value, and which
//! combinations of quotes across bookmakers lock in a riskless profit.
//!
//! All quantities are exact: prices are integers, probabilities and
//! point spreads are fixed-point values in millionths, and every derived
//! quantity is an integer ratio, so each comparison the detectors make
//! is decided without rounding. The one floating-point piece of the
//! system, the normal-distribution approximation behind spread cover
//! probabilities, stays outside the library and hands its result in as a
//! fixed-point probability.

use vstd::prelude::*;

pub mod arbitrage;
pub mod display;
pub mod espn_fpi;
pub mod ev;
pub mod kalshi;
pub mod matching;
pub mod models;
pub mod numbers;
pub mod odds;
pub mod prediction_tracker;
pub mod rank;
pub mod ratio;
pub mod results;
pub mod sagarin;
pub mod spread;
pub mod team_key;
pub mod text;

verus! {

/// Scale used for fixed-point probabilities and point spreads: one unit is
/// one millionth. A probability of 0.5 is `500_000`; a spread of -7.5 points
/// is `-7_500_000`.
pub const MICRO: i64 = 1_000_000;

/// American odds quote a price as a signed integer whose magnitude is at
/// least 100 by market convention; this bound keeps all derived exact
/// rational arithmetic inside `i64`.
pub const PRICE_LIMIT: i64 = 1_000_000;

pub open spec fn valid_price(price: int) -> bool {
    100 <= price <= PRICE_LIMIT || -PRICE_LIMIT <= price <= -100
}

} // verus!
