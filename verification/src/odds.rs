use vstd::prelude::*;
use crate::ratio::Ratio;
use crate::MICRO;

verus! {

/// Numerator of the implied probability encoded by an American price.
/// A positive price `+o` wins `o` on a 100 stake, so it implies
/// probability `100 / (o + 100)`; a negative price `-o` stakes `o` to win
/// 100, so it implies `o / (o + 100)`.
pub open spec fn implied_num(price: int) -> int {
    if price > 0 {
        100
    } else {
        -price
    }
}

/// Denominator of the implied probability encoded by an American price.
pub open spec fn implied_den(price: int) -> int {
    if price > 0 {
        price + 100
    } else {
        -price + 100
    }
}

/// Convert American odds to the implied probability, exactly, as a ratio.
pub fn american_odds_to_probability(odds: i32) -> (r: Ratio)
    requires
        odds != 0,
    ensures
        r.wf(),
        r.num == implied_num(odds as int),
        r.den == implied_den(odds as int),
        0 < r.num < r.den + 100,
        100 <= odds || odds <= -100 ==> 0 < r.num < r.den,
{
    let p = odds as i64;
    if p > 0 {
        Ratio::new(100, p + 100)
    } else {
        Ratio::new(-p, -p + 100)
    }
}

/// For every price of magnitude at least 100 the implied probability lies
/// strictly between 0 and 1, and a price of exactly +100 implies one half.
pub proof fn lemma_implied_probability_in_unit_interval(price: int)
    requires
        100 <= price || price <= -100,
    ensures
        0 < implied_num(price) < implied_den(price),
        price == 100 ==> 2 * implied_num(price) == implied_den(price),
{
}

/// Convert a probability, in millionths, to American odds. Favorites
/// (probability at least one half) get a negative price, underdogs a
/// positive one; the magnitude is truncated toward zero, mirroring the
/// truncating cast this conversion is conventionally written with.
pub fn probability_to_american_odds(prob: i64) -> (r: i32)
    requires
        0 < prob < MICRO,
    ensures
        2 * prob >= MICRO ==> r as int == -(100 * prob / (MICRO - prob as int)),
        2 * prob < MICRO ==> r as int == 100 * (MICRO - prob) / (prob as int),
{
    if 2 * prob >= MICRO {
        let mag: i64 = 100 * prob / (MICRO - prob);
        -(mag as i32)
    } else {
        let mag: i64 = 100 * (MICRO - prob) / prob;
        mag as i32
    }
}

/// Numerator of the expected value, per unit stake, of a bet with model win
/// probability `p` (in millionths) at American price `price`: the win
/// amount is `price/100` for positive prices and `100/|price|` for
/// negative ones, and losing costs the unit stake.
pub open spec fn ev_num(p: int, price: int) -> int {
    if price > 0 {
        p * (price + 100) - 100 * MICRO
    } else {
        p * (100 - price) - MICRO * (-price)
    }
}

/// Denominator of the expected value of a bet at American price `price`.
pub open spec fn ev_den(price: int) -> int {
    if price > 0 {
        100 * MICRO
    } else {
        MICRO * (-price)
    }
}

/// Expected profit per unit stake, exactly, as a ratio:
/// `p * win_amount - (1 - p) * 1`.
pub fn calculate_expected_value(model_prob: i64, odds: i32) -> (r: Ratio)
    requires
        0 <= model_prob <= MICRO,
        odds != 0,
    ensures
        r.wf(),
        r.num == ev_num(model_prob as int, odds as int),
        r.den == ev_den(odds as int),
{
    let p = model_prob;
    let o = odds as i64;
    if o > 0 {
        proof {
            crate::ratio::lemma_i64_mul_fits_i128(p as int, (o + 100) as int);
            assert(p * (o + 100) <= MICRO * (o + 100)) by (nonlinear_arith)
                requires
                    0 <= p <= MICRO,
                    0 < o + 100,
            ;
            assert(0 <= p * (o + 100)) by (nonlinear_arith)
                requires
                    0 <= p,
                    0 < o + 100,
            ;
        }
        Ratio::new(p * (o + 100) - 100 * MICRO, 100 * MICRO)
    } else {
        proof {
            assert(0 <= p * (100 - o) <= MICRO * (100 - o)) by (nonlinear_arith)
                requires
                    0 <= p <= MICRO,
                    0 < 100 - o,
            ;
            assert(MICRO * (100 - o) == MICRO * 100 + MICRO * (-o)) by (nonlinear_arith);
            assert(0 < MICRO * (-o) <= MICRO * 0x8000_0000_0000_0000) by (nonlinear_arith)
                requires
                    o < 0,
                    -0x8000_0000_0000_0000 <= o,
            ;
        }
        Ratio::new(p * (100 - o) - MICRO * (-o), MICRO * (-o))
    }
}

/// A bet has strictly positive expected value exactly when the model's win
/// probability strictly exceeds the price's implied probability, and
/// strictly negative expected value exactly when it falls strictly below
/// it. Edge and expected value always agree in sign.
pub proof fn lemma_positive_ev_iff_model_exceeds_implied(p: int, price: int)
    requires
        0 <= p <= MICRO,
        price != 0,
    ensures
        ev_num(p, price) > 0 <==> p * implied_den(price) > MICRO * implied_num(price),
        ev_num(p, price) < 0 <==> p * implied_den(price) < MICRO * implied_num(price),
{
    if price > 0 {
        assert(ev_num(p, price) == p * implied_den(price) - MICRO * implied_num(price))
            by (nonlinear_arith)
            requires
                price > 0,
        ;
    } else {
        assert(ev_num(p, price) == p * implied_den(price) - MICRO * implied_num(price))
            by (nonlinear_arith)
            requires
                price < 0,
        ;
    }
}

} // verus!
