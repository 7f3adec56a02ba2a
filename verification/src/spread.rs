use vstd::prelude::*;
use crate::models::POINT_LIMIT;

verus! {

// The cover-probability model takes the actual margin, from the quoted
// side's perspective, to be normally distributed around the oriented
// model spread. Which deviate it feeds to the normal CDF is exact
// integer arithmetic and is verified here; the CDF itself is the
// error-function approximation, floating point, outside the library.
// The cover probability is `1 - Phi(z)` with
// `z = cover_z_num / (1_000_000 * sd)`.

/// Numerator, in millionths of a point, of the normal deviate of a
/// spread bet: the margin threshold minus the oriented predicted margin.
/// A favorite's line `-t` demands a win by more than `t`, an underdog's
/// line `+t` demands a margin above `-t`; in both cases the threshold is
/// the negated line.
pub open spec fn cover_z_num(oriented_model: int, bet_spread: int) -> int {
    -bet_spread - oriented_model
}

/// The deviate's numerator for a bet with the given oriented model
/// spread and posted line, both in millionths of a point.
pub fn spread_cover_deviation(oriented_model: i64, bet_spread: i64) -> (r: i64)
    requires
        -POINT_LIMIT <= oriented_model <= POINT_LIMIT,
        -POINT_LIMIT <= bet_spread <= POINT_LIMIT,
    ensures
        r as int == cover_z_num(oriented_model as int, bet_spread as int),
{
    -bet_spread - oriented_model
}

/// When the posted line is exactly the negated model spread, the deviate
/// is zero, so the normal model puts the cover probability at one half:
/// `1 - Phi(0) == 1/2`.
pub proof fn lemma_matched_line_centers_cover(oriented_model: int, bet_spread: int)
    requires
        bet_spread == -oriented_model,
    ensures
        cover_z_num(oriented_model, bet_spread) == 0,
{
}

} // verus!
