use vstd::prelude::*;
use crate::MICRO;

verus! {

/// The sports the system covers.
#[derive(Debug, Clone, Copy, PartialEq, Eq, Structural)]
pub enum Sport {
    CollegeFootball,
    CollegeBasketball,
}

/// A scheduled contest. `commence_time` is seconds since the Unix epoch;
/// the team fields are free-text display names.
#[derive(Debug)]
pub struct Game {
    pub id: String,
    pub home_team: String,
    pub away_team: String,
    pub commence_time: i64,
    pub sport_title: String,
}

/// A moneyline quote: an American price on one team. The price is a
/// signed nonzero integer of magnitude at least 100 by convention.
#[derive(Debug)]
pub struct MoneylineOdds {
    pub team: String,
    pub price: i32,
}

/// A point-spread quote. `point` is the posted line in millionths of a
/// point (`-7_500_000` is a line of -7.5).
#[derive(Debug)]
pub struct SpreadOdds {
    pub team: String,
    pub point: i64,
    pub price: i32,
}

/// One bookmaker's quotes for one game. `last_update` is seconds since
/// the Unix epoch.
#[derive(Debug)]
pub struct BettingOdds {
    pub game_id: String,
    pub bookmaker: String,
    pub last_update: i64,
    pub moneyline: Vec<MoneylineOdds>,
    pub spreads: Vec<SpreadOdds>,
}

/// A model's output for one matchup. `spread` is the predicted margin
/// from the home team's perspective in millionths of a point (positive
/// means home favored); the win probabilities are in millionths.
#[derive(Debug)]
pub struct GamePrediction {
    pub home_team: String,
    pub away_team: String,
    pub spread: i64,
    pub home_win_prob: i64,
    pub away_win_prob: i64,
    pub _prediction_avg: i64,
}

pub open spec fn wf_prediction(p: GamePrediction) -> bool {
    0 <= p.home_win_prob <= MICRO && 0 <= p.away_win_prob <= MICRO && -POINT_LIMIT <= p.spread
        <= POINT_LIMIT
}

pub open spec fn wf_predictions(ps: Seq<GamePrediction>) -> bool {
    forall|i: int| 0 <= i < ps.len() ==> wf_prediction(#[trigger] ps[i])
}

/// Every moneyline price in the collection is nonzero. A zero price is a
/// caller contract violation: it encodes no probability.
pub open spec fn nonzero_ml_prices(s: Seq<(Game, Vec<BettingOdds>)>) -> bool {
    forall|i: int, j: int, k: int|
        0 <= i < s.len() && 0 <= j < s[i].1@.len() && 0 <= k < s[i].1@[j].moneyline@.len()
            ==> (#[trigger] s[i].1@[j].moneyline@[k]).price != 0
}

/// Every moneyline price in the collection is a conventional American
/// price: nonzero magnitude between 100 and the arithmetic limit.
pub open spec fn valid_ml_prices(s: Seq<(Game, Vec<BettingOdds>)>) -> bool {
    forall|i: int, j: int, k: int|
        0 <= i < s.len() && 0 <= j < s[i].1@.len() && 0 <= k < s[i].1@[j].moneyline@.len()
            ==> crate::valid_price((#[trigger] s[i].1@[j].moneyline@[k]).price as int)
}

/// No posted line strays beyond a thousand points in magnitude; this
/// keeps the tolerance test's additions inside `i64`.
pub const POINT_LIMIT: i64 = 1_000_000_000;

/// Every spread line in the collection is within the point limit.
pub open spec fn valid_spread_points(s: Seq<(Game, Vec<BettingOdds>)>) -> bool {
    forall|i: int, j: int, k: int|
        0 <= i < s.len() && 0 <= j < s[i].1@.len() && 0 <= k < s[i].1@[j].spreads@.len()
            ==> -POINT_LIMIT <= (#[trigger] s[i].1@[j].spreads@[k]).point <= POINT_LIMIT
}

/// Every spread price in the collection is a conventional American price.
pub open spec fn valid_spread_prices(s: Seq<(Game, Vec<BettingOdds>)>) -> bool {
    forall|i: int, j: int, k: int|
        0 <= i < s.len() && 0 <= j < s[i].1@.len() && 0 <= k < s[i].1@[j].spreads@.len()
            ==> crate::valid_price((#[trigger] s[i].1@[j].spreads@[k]).price as int)
}

} // verus!
