use vstd::prelude::*;
use crate::models::{BettingOdds, Game, MoneylineOdds, SpreadOdds};
use crate::odds::{american_odds_to_probability, implied_den, implied_num};
use crate::ratio::{ratio64, Ratio};
use crate::rank::{sort_desc, sort_desc_exec, RankKey};
use crate::valid_price;

verus! {

/// A riskless cross-bookmaker combination of opposing moneyline quotes:
/// the two implied probabilities sum below one, and the stake split locks
/// in the same profit whichever team wins.
#[derive(Debug, PartialEq)]
pub struct MoneylineArbitrage {
    pub home_team: String,
    pub away_team: String,
    pub home_bookmaker: String,
    pub away_bookmaker: String,
    pub home_odds: i32,
    pub away_odds: i32,
    pub profit_percentage: Ratio,
    pub home_stake_percentage: Ratio,
    pub away_stake_percentage: Ratio,
}

impl RankKey for MoneylineArbitrage {
    open spec fn key(&self) -> Ratio {
        self.profit_percentage
    }

    fn key_exec(&self) -> (r: Ratio)
        ensures
            r == self.key(),
    {
        self.profit_percentage
    }
}

impl Clone for MoneylineArbitrage {
    fn clone(&self) -> (r: Self)
        ensures
            r == *self,
    {
        MoneylineArbitrage {
            home_team: self.home_team.clone(),
            away_team: self.away_team.clone(),
            home_bookmaker: self.home_bookmaker.clone(),
            away_bookmaker: self.away_bookmaker.clone(),
            home_odds: self.home_odds,
            away_odds: self.away_odds,
            profit_percentage: self.profit_percentage,
            home_stake_percentage: self.home_stake_percentage,
            away_stake_percentage: self.away_stake_percentage,
        }
    }
}

/// A riskless combination of opposing spread quotes on the same game:
/// different teams, lines equal and opposite within a tenth of a point,
/// implied probabilities summing below one.
#[derive(Debug, PartialEq)]
pub struct SpreadArbitrage {
    pub home_team: String,
    pub away_team: String,
    pub side1_team: String,
    pub side1_spread: i64,
    pub side1_odds: i32,
    pub side1_bookmaker: String,
    pub side2_team: String,
    pub side2_spread: i64,
    pub side2_odds: i32,
    pub side2_bookmaker: String,
    pub profit_percentage: Ratio,
    pub side1_stake_percentage: Ratio,
    pub side2_stake_percentage: Ratio,
}

impl RankKey for SpreadArbitrage {
    open spec fn key(&self) -> Ratio {
        self.profit_percentage
    }

    fn key_exec(&self) -> (r: Ratio)
        ensures
            r == self.key(),
    {
        self.profit_percentage
    }
}

impl Clone for SpreadArbitrage {
    fn clone(&self) -> (r: Self)
        ensures
            r == *self,
    {
        SpreadArbitrage {
            home_team: self.home_team.clone(),
            away_team: self.away_team.clone(),
            side1_team: self.side1_team.clone(),
            side1_spread: self.side1_spread,
            side1_odds: self.side1_odds,
            side1_bookmaker: self.side1_bookmaker.clone(),
            side2_team: self.side2_team.clone(),
            side2_spread: self.side2_spread,
            side2_odds: self.side2_odds,
            side2_bookmaker: self.side2_bookmaker.clone(),
            profit_percentage: self.profit_percentage,
            side1_stake_percentage: self.side1_stake_percentage,
            side2_stake_percentage: self.side2_stake_percentage,
        }
    }
}

/// Combined implied probability of two prices, as numerator over
/// denominator: `n1/d1 + n2/d2 == (n1 d2 + n2 d1) / (d1 d2)`.
pub open spec fn combined_num(p1: int, p2: int) -> int {
    implied_num(p1) * implied_den(p2) + implied_num(p2) * implied_den(p1)
}

pub open spec fn combined_den(p1: int, p2: int) -> int {
    implied_den(p1) * implied_den(p2)
}

/// The arbitrage arithmetic on a pair of prices. When the combined
/// implied probability `T` is strictly below one, the profit per unit of
/// total stake is `(1/T - 1) * 100` percent, and splitting stakes
/// proportionally to each side's implied probability equalizes the
/// payout across outcomes; otherwise there is no arbitrage.
pub open spec fn spec_combine(p1: int, p2: int) -> Option<(Ratio, Ratio, Ratio)> {
    let tn = combined_num(p1, p2);
    let td = combined_den(p1, p2);
    if tn < td {
        Some(
            (
                ratio64(100 * (td - tn), tn),
                ratio64(100 * (implied_num(p1) * implied_den(p2)), tn),
                ratio64(100 * (implied_num(p2) * implied_den(p1)), tn),
            ),
        )
    } else {
        None
    }
}

/// All the quantities `spec_combine` builds fit comfortably in `i64` for
/// conventional prices.
proof fn lemma_combine_bounds(p1: int, p2: int)
    requires
        valid_price(p1),
        valid_price(p2),
    ensures
        100 <= implied_num(p1) <= 1_000_000,
        200 <= implied_den(p1) <= 1_000_100,
        100 <= implied_num(p2) <= 1_000_000,
        200 <= implied_den(p2) <= 1_000_100,
        40_000 <= combined_num(p1, p2) <= 0x1_0000_0000_0000,
        40_000 <= combined_den(p1, p2) <= 0x1_0000_0000_0000,
        0 <= 100 * (implied_num(p1) * implied_den(p2)) <= 0x8_0000_0000_0000,
        0 <= 100 * (implied_num(p2) * implied_den(p1)) <= 0x8_0000_0000_0000,
{
    assert(100 * 1_000_100 + 100 * 1_000_100 >= 40_000);
    assert(implied_num(p1) * implied_den(p2) + implied_num(p2) * implied_den(p1)
        <= 0x1_0000_0000_0000 && implied_num(p1) * implied_den(p2) + implied_num(p2) * implied_den(
        p1,
    ) >= 40_000 && implied_den(p1) * implied_den(p2) <= 0x1_0000_0000_0000 && implied_den(p1)
        * implied_den(p2) >= 40_000 && 0 <= 100 * (implied_num(p1) * implied_den(p2))
        <= 0x8_0000_0000_0000 && 0 <= 100 * (implied_num(p2) * implied_den(p1))
        <= 0x8_0000_0000_0000) by (nonlinear_arith)
        requires
            100 <= implied_num(p1) <= 1_000_000,
            200 <= implied_den(p1) <= 1_000_100,
            100 <= implied_num(p2) <= 1_000_000,
            200 <= implied_den(p2) <= 1_000_100,
    ;
}

/// Compute the profit percentage and the two stake percentages for a
/// pair of prices, exactly; `None` when their combined implied
/// probability is not below one.
fn combine_prices(p1: i32, p2: i32) -> (r: Option<(Ratio, Ratio, Ratio)>)
    requires
        valid_price(p1 as int),
        valid_price(p2 as int),
    ensures
        r == spec_combine(p1 as int, p2 as int),
{
    proof {
        lemma_combine_bounds(p1 as int, p2 as int);
    }
    let q1 = american_odds_to_probability(p1);
    let q2 = american_odds_to_probability(p2);
    let tn: i64 = q1.num * q2.den + q2.num * q1.den;
    let td: i64 = q1.den * q2.den;
    if tn < td {
        let profit = ratio64_exec(100 * (td - tn), tn);
        let stake1 = ratio64_exec(100 * (q1.num * q2.den), tn);
        let stake2 = ratio64_exec(100 * (q2.num * q1.den), tn);
        Some((profit, stake1, stake2))
    } else {
        None
    }
}

/// Exact counterpart of the spec-level `ratio64` on in-range values.
fn ratio64_exec(num: i64, den: i64) -> (r: Ratio)
    ensures
        r == ratio64(num as int, den as int),
{
    Ratio { num, den }
}

/// The arbitrage's stake split locks in its profit. A stake at American
/// price `p` returns `implied_den(p) / implied_num(p)` per unit when it
/// wins (the reciprocal of the implied probability), so of each side's
/// gross return percentage — stake percentage times that factor — both
/// equal `100 + profit_percentage` exactly, whichever team wins; and the
/// two stake percentages sum to exactly one hundred.
pub proof fn lemma_stake_split_locks_profit(p1: int, p2: int)
    requires
        crate::valid_price(p1),
        crate::valid_price(p2),
        spec_combine(p1, p2) is Some,
    ensures
        ({
            let c = spec_combine(p1, p2)->0;
            let tn = combined_num(p1, p2);
            let td = combined_den(p1, p2);
            // gross return of side one: stake1 * den1/num1 == 100 * td / tn
            &&& c.1.num * implied_den(p1) == 100 * td * implied_num(p1)
            // gross return of side two is the same quantity
            &&& c.2.num * implied_den(p2) == 100 * td * implied_num(p2)
            // and it exceeds the total outlay by exactly the profit:
            // 100 * td / tn == 100 + profit
            &&& c.0.num + 100 * c.0.den == 100 * td
            // the stakes sum to exactly one hundred percent
            &&& c.1.num + c.2.num == 100 * c.0.den
            &&& c.1.den == c.0.den && c.2.den == c.0.den
        }),
{
    lemma_combine_bounds(p1, p2);
    let n1 = implied_num(p1);
    let d1 = implied_den(p1);
    let n2 = implied_num(p2);
    let d2 = implied_den(p2);
    let tn = combined_num(p1, p2);
    let td = combined_den(p1, p2);
    assert((100 * (n1 * d2)) * d1 == 100 * (d1 * d2) * n1 && (100 * (n2 * d1)) * d2 == 100 * (d1
        * d2) * n2) by (nonlinear_arith);
    assert(100 * (td - tn) + 100 * tn == 100 * td);
}

/// One step of the best-price scan: a quote replaces the current best
/// exactly when there is none yet or its price is strictly higher.
pub open spec fn better(best: Option<(i32, String)>, price: i32, bookmaker: String) -> Option<
    (i32, String),
> {
    if best is None || price > (best->0).0 {
        Some((price, bookmaker))
    } else {
        best
    }
}

/// The best home and away quotes after scanning `quotes` of one
/// bookmaker, left to right, starting from `bh`/`ba`. A quote naming the
/// home team only ever updates the home side, even when the two display
/// names coincide.
pub open spec fn scan_ml_quotes(
    bh: Option<(i32, String)>,
    ba: Option<(i32, String)>,
    bookmaker: String,
    quotes: Seq<MoneylineOdds>,
    home: Seq<char>,
    away: Seq<char>,
) -> (Option<(i32, String)>, Option<(i32, String)>)
    decreases quotes.len(),
{
    if quotes.len() == 0 {
        (bh, ba)
    } else {
        let prev = scan_ml_quotes(bh, ba, bookmaker, quotes.drop_last(), home, away);
        let q = quotes.last();
        if q.team@ == home {
            (better(prev.0, q.price, bookmaker), prev.1)
        } else if q.team@ == away {
            (prev.0, better(prev.1, q.price, bookmaker))
        } else {
            prev
        }
    }
}

/// The best home and away quotes across all bookmakers, in order.
pub open spec fn scan_ml_books(
    bh: Option<(i32, String)>,
    ba: Option<(i32, String)>,
    books: Seq<BettingOdds>,
    home: Seq<char>,
    away: Seq<char>,
) -> (Option<(i32, String)>, Option<(i32, String)>)
    decreases books.len(),
{
    if books.len() == 0 {
        (bh, ba)
    } else {
        let prev = scan_ml_books(bh, ba, books.drop_last(), home, away);
        scan_ml_quotes(
            prev.0,
            prev.1,
            books.last().bookmaker,
            books.last().moneyline@,
            home,
            away,
        )
    }
}

/// What the best-price scan of one bookmaker's quotes guarantees for the
/// home side: the result exists exactly when it started as something or
/// some quote names the home team; it is at least every home quote's
/// price and at least the starting price; and it is the start or an
/// actual quote of this bookmaker.
pub proof fn lemma_scan_quotes_best(
    bh: Option<(i32, String)>,
    ba: Option<(i32, String)>,
    bookmaker: String,
    quotes: Seq<MoneylineOdds>,
    home: Seq<char>,
    away: Seq<char>,
)
    ensures
        ({
            let st = scan_ml_quotes(bh, ba, bookmaker, quotes, home, away);
            &&& (st.0 is Some <==> bh is Some || exists|i: int|
                0 <= i < quotes.len() && (#[trigger] quotes[i]).team@ == home)
            &&& (bh is Some ==> st.0 is Some && (st.0->0).0 >= (bh->0).0)
            &&& forall|i: int|
                0 <= i < quotes.len() && (#[trigger] quotes[i]).team@ == home ==> st.0 is Some
                    && (st.0->0).0 >= quotes[i].price
            &&& (st.0 == bh || exists|i: int|
                0 <= i < quotes.len() && (#[trigger] quotes[i]).team@ == home && st.0 == Some(
                    (quotes[i].price, bookmaker),
                ))
            &&& (st.1 is Some <==> ba is Some || exists|i: int|
                0 <= i < quotes.len() && (#[trigger] quotes[i]).team@ != home && quotes[i].team@
                    == away)
            &&& (ba is Some ==> st.1 is Some && (st.1->0).0 >= (ba->0).0)
            &&& forall|i: int|
                0 <= i < quotes.len() && (#[trigger] quotes[i]).team@ != home && quotes[i].team@
                    == away ==> st.1 is Some && (st.1->0).0 >= quotes[i].price
            &&& (st.1 == ba || exists|i: int|
                0 <= i < quotes.len() && (#[trigger] quotes[i]).team@ != home && quotes[i].team@
                    == away && st.1 == Some((quotes[i].price, bookmaker)))
        }),
    decreases quotes.len(),
{
    if quotes.len() > 0 {
        lemma_scan_quotes_best(bh, ba, bookmaker, quotes.drop_last(), home, away);
        assert forall|i: int| 0 <= i < quotes.drop_last().len() implies quotes.drop_last()[i]
            == quotes[i] by {}
        let prev = scan_ml_quotes(bh, ba, bookmaker, quotes.drop_last(), home, away);
        let st = scan_ml_quotes(bh, ba, bookmaker, quotes, home, away);
        let q = quotes.last();
        assert(q == quotes[quotes.len() - 1]);
    }
}

/// What the scan across all bookmakers guarantees, side by side with
/// `lemma_scan_quotes_best`: the best price exists exactly when some
/// bookmaker quotes the side, dominates every quote of the side, and is
/// an actual quote together with its bookmaker's name.
pub proof fn lemma_scan_books_best(
    bh: Option<(i32, String)>,
    ba: Option<(i32, String)>,
    books: Seq<BettingOdds>,
    home: Seq<char>,
    away: Seq<char>,
)
    ensures
        ({
            let st = scan_ml_books(bh, ba, books, home, away);
            &&& (st.0 is Some <==> bh is Some || exists|j: int, k: int|
                0 <= j < books.len() && 0 <= k < books[j].moneyline@.len() && (
                #[trigger] books[j].moneyline@[k]).team@ == home)
            &&& (bh is Some ==> st.0 is Some && (st.0->0).0 >= (bh->0).0)
            &&& forall|j: int, k: int|
                0 <= j < books.len() && 0 <= k < books[j].moneyline@.len() && (
                #[trigger] books[j].moneyline@[k]).team@ == home ==> st.0 is Some && (st.0->0).0
                    >= books[j].moneyline@[k].price
            &&& (st.0 == bh || exists|j: int, k: int|
                0 <= j < books.len() && 0 <= k < books[j].moneyline@.len() && (
                #[trigger] books[j].moneyline@[k]).team@ == home && st.0 == Some(
                    (books[j].moneyline@[k].price, books[j].bookmaker),
                ))
            &&& (st.1 is Some <==> ba is Some || exists|j: int, k: int|
                0 <= j < books.len() && 0 <= k < books[j].moneyline@.len() && (
                #[trigger] books[j].moneyline@[k]).team@ != home && books[j].moneyline@[k].team@
                    == away)
            &&& (ba is Some ==> st.1 is Some && (st.1->0).0 >= (ba->0).0)
            &&& forall|j: int, k: int|
                0 <= j < books.len() && 0 <= k < books[j].moneyline@.len() && (
                #[trigger] books[j].moneyline@[k]).team@ != home && books[j].moneyline@[k].team@
                    == away ==> st.1 is Some && (st.1->0).0 >= books[j].moneyline@[k].price
            &&& (st.1 == ba || exists|j: int, k: int|
                0 <= j < books.len() && 0 <= k < books[j].moneyline@.len() && (
                #[trigger] books[j].moneyline@[k]).team@ != home && books[j].moneyline@[k].team@
                    == away && st.1 == Some(
                    (books[j].moneyline@[k].price, books[j].bookmaker),
                ))
        }),
    decreases books.len(),
{
    if books.len() > 0 {
        lemma_scan_books_best(bh, ba, books.drop_last(), home, away);
        assert forall|j: int| 0 <= j < books.drop_last().len() implies books.drop_last()[j]
            == books[j] by {}
        let prev = scan_ml_books(bh, ba, books.drop_last(), home, away);
        let b = books.last();
        assert(b == books[books.len() - 1]);
        lemma_scan_quotes_best(prev.0, prev.1, b.bookmaker, b.moneyline@, home, away);
        let st = scan_ml_books(bh, ba, books, home, away);
        assert(st == scan_ml_quotes(prev.0, prev.1, b.bookmaker, b.moneyline@, home, away));
    }
}

/// The detector's selection is the single best price of each side: for
/// every game, the reported home and away prices each dominate every
/// quote naming that side across all bookmakers and are themselves such
/// quotes, and no arbitrage is reported when either side has no quote.
pub proof fn lemma_best_price_selection(g: Game, books: Seq<BettingOdds>)
    ensures
        ({
            let st = scan_ml_books(None, None, books, g.home_team@, g.away_team@);
            &&& (ml_arb_for_game(g, books) is Some ==> st.0 is Some && st.1 is Some)
            &&& ((st.0 is None || st.1 is None) ==> ml_arb_for_game(g, books) is None)
            &&& forall|j: int, k: int|
                0 <= j < books.len() && 0 <= k < books[j].moneyline@.len() && (
                #[trigger] books[j].moneyline@[k]).team@ == g.home_team@ ==> st.0 is Some && (
                st.0->0).0 >= books[j].moneyline@[k].price
            &&& (st.0 is Some ==> exists|j: int, k: int|
                0 <= j < books.len() && 0 <= k < books[j].moneyline@.len() && (
                #[trigger] books[j].moneyline@[k]).team@ == g.home_team@ && st.0 == Some(
                    (books[j].moneyline@[k].price, books[j].bookmaker),
                ))
        }),
{
    lemma_scan_books_best(None, None, books, g.home_team@, g.away_team@);
}

/// The moneyline arbitrage of one game, if any: the best quote of each
/// side, combined when both exist and their implied probabilities sum
/// below one.
pub open spec fn ml_arb_for_game(g: Game, books: Seq<BettingOdds>) -> Option<MoneylineArbitrage> {
    let st = scan_ml_books(None, None, books, g.home_team@, g.away_team@);
    if st.0 is Some && st.1 is Some {
        match spec_combine((st.0->0).0 as int, (st.1->0).0 as int) {
            Some(c) => Some(
                MoneylineArbitrage {
                    home_team: g.home_team,
                    away_team: g.away_team,
                    home_bookmaker: (st.0->0).1,
                    away_bookmaker: (st.1->0).1,
                    home_odds: (st.0->0).0,
                    away_odds: (st.1->0).0,
                    profit_percentage: c.0,
                    home_stake_percentage: c.1,
                    away_stake_percentage: c.2,
                },
            ),
            None => None,
        }
    } else {
        None
    }
}

/// The unsorted moneyline arbitrages of a collection of games, one per
/// game at most, in game order.
pub open spec fn ml_arbs(s: Seq<(Game, Vec<BettingOdds>)>) -> Seq<MoneylineArbitrage>
    decreases s.len(),
{
    if s.len() == 0 {
        Seq::empty()
    } else {
        ml_arbs(s.drop_last()) + match ml_arb_for_game(s.last().0, s.last().1@) {
            Some(a) => seq![a],
            None => Seq::<MoneylineArbitrage>::empty(),
        }
    }
}

/// Find every moneyline arbitrage: for each game the single best home
/// price and best away price across all bookmakers, reported exactly
/// when the combined implied probability is below one, sorted by profit
/// percentage descending. Empty input yields empty output, and the
/// result is a function of the input alone: re-running on an unchanged
/// collection returns a value-identical result.
pub fn find_moneyline_arbitrage(games_with_odds: &Vec<(Game, Vec<BettingOdds>)>) -> (r: Vec<
    MoneylineArbitrage,
>)
    requires
        crate::models::valid_ml_prices(games_with_odds@),
    ensures
        r@ == sort_desc(ml_arbs(games_with_odds@)),
        crate::rank::sorted_desc(r@),
        games_with_odds@.len() == 0 ==> r@.len() == 0,
{
    let ghost s = games_with_odds@;
    let mut cands: Vec<MoneylineArbitrage> = Vec::new();
    let mut gi: usize = 0;
    proof {
        assert(cands@ =~= ml_arbs(s.take(0)));
    }
    while gi < games_with_odds.len()
        invariant
            gi <= s.len(),
            s == games_with_odds@,
            crate::models::valid_ml_prices(s),
            cands@ == ml_arbs(s.take(gi as int)),
            crate::rank::wf_keys(cands@),
        decreases s.len() - gi,
    {
        let game = &games_with_odds[gi].0;
        let books = &games_with_odds[gi].1;
        let mut best_home: Option<(i32, String)> = None;
        let mut best_away: Option<(i32, String)> = None;
        let mut j: usize = 0;
        proof {
            assert(books@.take(0) =~= Seq::<BettingOdds>::empty());
        }
        while j < books.len()
            invariant
                j <= books@.len(),
                s == games_with_odds@,
                gi < s.len(),
                books == &s[gi as int].1,
                crate::models::valid_ml_prices(s),
                (best_home, best_away) == scan_ml_books(
                    None,
                    None,
                    books@.take(j as int),
                    game.home_team@,
                    game.away_team@,
                ),
                best_home is Some ==> valid_price((best_home->0).0 as int),
                best_away is Some ==> valid_price((best_away->0).0 as int),
            decreases books@.len() - j,
        {
            let book = &books[j];
            let quotes = &book.moneyline;
            let ghost bh0 = best_home;
            let ghost ba0 = best_away;
            let mut k: usize = 0;
            proof {
                assert(quotes@.take(0) =~= Seq::<MoneylineOdds>::empty());
            }
            while k < quotes.len()
                invariant
                    k <= quotes@.len(),
                    s == games_with_odds@,
                    gi < s.len(),
                    books == &s[gi as int].1,
                    j < books@.len(),
                    book == &books@[j as int],
                    quotes == &book.moneyline,
                    crate::models::valid_ml_prices(s),
                    (best_home, best_away) == scan_ml_quotes(
                        bh0,
                        ba0,
                        book.bookmaker,
                        quotes@.take(k as int),
                        game.home_team@,
                        game.away_team@,
                    ),
                    best_home is Some ==> valid_price((best_home->0).0 as int),
                    best_away is Some ==> valid_price((best_away->0).0 as int),
                decreases quotes@.len() - k,
            {
                let q = &quotes[k];
                proof {
                    assert(valid_price(
                        (s[gi as int].1@[j as int].moneyline@[k as int]).price as int,
                    ));
                }
                if q.team == game.home_team {
                    let replace = match &best_home {
                        Option::None => true,
                        Option::Some(t) => q.price > t.0,
                    };
                    if replace {
                        best_home = Some((q.price, book.bookmaker.clone()));
                    }
                } else if q.team == game.away_team {
                    let replace = match &best_away {
                        Option::None => true,
                        Option::Some(t) => q.price > t.0,
                    };
                    if replace {
                        best_away = Some((q.price, book.bookmaker.clone()));
                    }
                }
                k += 1;
                proof {
                    assert(quotes@.take(k as int).drop_last() =~= quotes@.take(k - 1));
                    assert(quotes@.take(k as int).last() == quotes@[k - 1]);
                }
            }
            j += 1;
            proof {
                assert(quotes@.take(quotes@.len() as int) =~= quotes@);
                assert(books@.take(j as int).drop_last() =~= books@.take(j - 1));
                assert(books@.take(j as int).last() == books@[j - 1]);
            }
        }
        proof {
            assert(books@.take(books@.len() as int) =~= books@);
        }
        if let (Some(bh), Some(ba)) = (best_home, best_away) {
            if let Some(c) = combine_prices(bh.0, ba.0) {
                let ghost oldcands = cands@;
                proof {
                    lemma_combine_bounds(bh.0 as int, ba.0 as int);
                    assert(c.0.wf());
                }
                cands.push(
                    MoneylineArbitrage {
                        home_team: game.home_team.clone(),
                        away_team: game.away_team.clone(),
                        home_bookmaker: bh.1,
                        away_bookmaker: ba.1,
                        home_odds: bh.0,
                        away_odds: ba.0,
                        profit_percentage: c.0,
                        home_stake_percentage: c.1,
                        away_stake_percentage: c.2,
                    },
                );
                proof {
                    assert forall|t: int| 0 <= t < cands@.len() implies (#[trigger] cands@[
                        t
                    ]).key().wf() by {
                        if t < oldcands.len() {
                            assert(cands@[t] == oldcands[t]);
                        }
                    }
                }
            }
        }
        gi += 1;
        proof {
            assert(s.take(gi as int).drop_last() =~= s.take(gi - 1));
            assert(s.take(gi as int).last() == s[gi - 1]);
            assert(cands@ == ml_arbs(s.take(gi as int)));
        }
    }
    proof {
        assert(s.take(s.len() as int) =~= s);
        crate::rank::lemma_sort_desc_sorted(cands@);
    }
    sort_desc_exec(cands)
}

/// One bookmaker's spread quotes as rows of (team, line, price,
/// bookmaker).
pub open spec fn book_spread_rows(b: BettingOdds) -> Seq<(String, i64, i32, String)> {
    b.spreads@.map_values(|q: SpreadOdds| (q.team, q.point, q.price, b.bookmaker))
}

/// Every spread quote of every bookmaker for one game, in order.
pub open spec fn all_spread_rows(books: Seq<BettingOdds>) -> Seq<(String, i64, i32, String)>
    decreases books.len(),
{
    if books.len() == 0 {
        Seq::empty()
    } else {
        all_spread_rows(books.drop_last()) + book_spread_rows(books.last())
    }
}

/// The candidate a pair of spread rows qualifies for: the teams must
/// differ, the lines must be equal and opposite within a tenth of a
/// point, and the combined implied probability must fall below one.
pub open spec fn spread_pair(
    g: Game,
    a: (String, i64, i32, String),
    b: (String, i64, i32, String),
) -> Option<SpreadArbitrage> {
    if a.0@ != b.0@ && -100_000 < a.1 + b.1 < 100_000 {
        match spec_combine(a.2 as int, b.2 as int) {
            Some(c) => Some(
                SpreadArbitrage {
                    home_team: g.home_team,
                    away_team: g.away_team,
                    side1_team: a.0,
                    side1_spread: a.1,
                    side1_odds: a.2,
                    side1_bookmaker: a.3,
                    side2_team: b.0,
                    side2_spread: b.1,
                    side2_odds: b.2,
                    side2_bookmaker: b.3,
                    profit_percentage: c.0,
                    side1_stake_percentage: c.1,
                    side2_stake_percentage: c.2,
                },
            ),
            None => None,
        }
    } else {
        None
    }
}

/// Candidates of row `i` paired with every later row from `j` on.
pub open spec fn spread_cands_row(
    g: Game,
    sp: Seq<(String, i64, i32, String)>,
    i: int,
    j: int,
) -> Seq<SpreadArbitrage>
    decreases sp.len() - j,
{
    if j < 0 || j >= sp.len() || !(0 <= i < sp.len()) {
        Seq::empty()
    } else {
        (match spread_pair(g, sp[i], sp[j]) {
            Some(a) => seq![a],
            None => Seq::<SpreadArbitrage>::empty(),
        }) + spread_cands_row(g, sp, i, j + 1)
    }
}

/// Candidates of every unordered pair of rows, first index from `i` on.
pub open spec fn spread_cands_from(
    g: Game,
    sp: Seq<(String, i64, i32, String)>,
    i: int,
) -> Seq<SpreadArbitrage>
    decreases sp.len() - i,
{
    if i < 0 || i >= sp.len() {
        Seq::empty()
    } else {
        spread_cands_row(g, sp, i, i + 1) + spread_cands_from(g, sp, i + 1)
    }
}

/// The unsorted spread arbitrage candidates of a collection of games.
pub open spec fn spread_arbs(s: Seq<(Game, Vec<BettingOdds>)>) -> Seq<SpreadArbitrage>
    decreases s.len(),
{
    if s.len() == 0 {
        Seq::empty()
    } else {
        spread_arbs(s.drop_last()) + spread_cands_from(
            s.last().0,
            all_spread_rows(s.last().1@),
            0,
        )
    }
}

/// The deduplication key two spread records are compared by: home and
/// away teams, the two bookmakers, and the exact profit ratio.
pub open spec fn same_arb_key(a: SpreadArbitrage, b: SpreadArbitrage) -> bool {
    a.home_team@ == b.home_team@ && a.away_team@ == b.away_team@ && a.side1_bookmaker@
        == b.side1_bookmaker@ && a.side2_bookmaker@ == b.side2_bookmaker@ && a.profit_percentage
        == b.profit_percentage
}

/// A record is a duplicate when an earlier record carries the same key.
pub open spec fn has_earlier_key(s: Seq<SpreadArbitrage>, i: int) -> bool {
    exists|j: int| 0 <= j < i && same_arb_key(#[trigger] s[j], s[i])
}

/// The subsequence of records whose key did not occur earlier, from
/// index `i` on.
pub open spec fn dedup_from(s: Seq<SpreadArbitrage>, i: int) -> Seq<SpreadArbitrage>
    decreases s.len() - i,
{
    if i < 0 || i >= s.len() {
        Seq::empty()
    } else {
        (if has_earlier_key(s, i) {
            Seq::<SpreadArbitrage>::empty()
        } else {
            seq![s[i]]
        }) + dedup_from(s, i + 1)
    }
}

/// Every record the deduplication keeps comes from the given range of
/// the input.
pub proof fn lemma_dedup_member(s: Seq<SpreadArbitrage>, j: int, t: int)
    requires
        0 <= j,
        0 <= t < dedup_from(s, j).len(),
    ensures
        exists|k: int| j <= k < s.len() && dedup_from(s, j)[t] == s[k],
    decreases s.len() - j,
{
    if j < s.len() {
        if has_earlier_key(s, j) {
            lemma_dedup_member(s, j + 1, t);
            let k = choose|k: int| j + 1 <= k < s.len() && dedup_from(s, j + 1)[t] == s[k];
            assert(dedup_from(s, j)[t] == s[k]);
        } else {
            if t == 0 {
                assert(dedup_from(s, j)[0] == s[j]);
            } else {
                lemma_dedup_member(s, j + 1, t - 1);
                let k = choose|k: int| j + 1 <= k < s.len() && dedup_from(s, j + 1)[t - 1] == s[k];
                assert(dedup_from(s, j)[t] == s[k]);
            }
        }
    }
}

/// Deduplication keeps the input's descending order: it removes records,
/// it never reorders them.
pub proof fn lemma_dedup_sorted(s: Seq<SpreadArbitrage>, j: int)
    requires
        0 <= j,
        crate::rank::sorted_desc(s),
    ensures
        crate::rank::sorted_desc(dedup_from(s, j)),
    decreases s.len() - j,
{
    if j < s.len() {
        lemma_dedup_sorted(s, j + 1);
        let d = dedup_from(s, j);
        let rest = dedup_from(s, j + 1);
        if !has_earlier_key(s, j) {
            assert(d == seq![s[j]] + rest);
            assert forall|t1: int, t2: int| 0 <= t1 <= t2 < d.len() implies (#[trigger] d[
                t1
            ]).key().spec_ge((#[trigger] d[t2]).key()) by {
                if t1 == 0 {
                    if t2 > 0 {
                        lemma_dedup_member(s, j + 1, t2 - 1);
                        let k = choose|k: int|
                            j + 1 <= k < s.len() && dedup_from(s, j + 1)[t2 - 1] == s[k];
                        assert(s[j].key().spec_ge(s[k].key()));
                        assert(d[t2] == rest[t2 - 1]);
                    }
                } else {
                    assert(d[t1] == rest[t1 - 1]);
                    assert(d[t2] == rest[t2 - 1]);
                }
            }
        }
    }
}

fn arb_key_eq(a: &SpreadArbitrage, b: &SpreadArbitrage) -> (r: bool)
    ensures
        r == same_arb_key(*a, *b),
{
    a.home_team == b.home_team && a.away_team == b.away_team && a.side1_bookmaker
        == b.side1_bookmaker && a.side2_bookmaker == b.side2_bookmaker
        && a.profit_percentage.same_parts(&b.profit_percentage)
}

/// Keep the first record of every key, in order.
fn dedup_arbs(v: &Vec<SpreadArbitrage>) -> (r: Vec<SpreadArbitrage>)
    ensures
        r@ == dedup_from(v@, 0),
{
    let mut out: Vec<SpreadArbitrage> = Vec::new();
    let mut i: usize = 0;
    proof {
        assert(out@ + dedup_from(v@, 0) =~= dedup_from(v@, 0));
    }
    while i < v.len()
        invariant
            i <= v@.len(),
            dedup_from(v@, 0) == out@ + dedup_from(v@, i as int),
        decreases v@.len() - i,
    {
        let mut dup = false;
        let mut j: usize = 0;
        while j < i
            invariant
                j <= i < v@.len(),
                dup == exists|k: int| 0 <= k < j && same_arb_key(#[trigger] v@[k], v@[i as int]),
            decreases i - j,
        {
            if arb_key_eq(&v[j], &v[i]) {
                dup = true;
            }
            j += 1;
        }
        proof {
            assert(dup == has_earlier_key(v@, i as int));
        }
        if !dup {
            out.push(v[i].clone());
        }
        i += 1;
        proof {
            assert(dedup_from(v@, 0) =~= out@ + dedup_from(v@, i as int));
        }
    }
    proof {
        assert(dedup_from(v@, i as int) =~= Seq::<SpreadArbitrage>::empty());
        assert(out@ =~= dedup_from(v@, 0));
    }
    out
}

/// Find every spread arbitrage: for each game, every pair of quotes on
/// different teams whose lines are equal and opposite within a tenth of
/// a point and whose combined implied probability falls below one. The
/// result is sorted by profit percentage descending and symmetric
/// duplicates are collapsed, keeping the first of each key. Empty input
/// yields empty output, and the result is a function of the input alone:
/// re-running on an unchanged collection returns a value-identical
/// result.
pub fn find_spread_arbitrage(games_with_odds: &Vec<(Game, Vec<BettingOdds>)>) -> (r: Vec<
    SpreadArbitrage,
>)
    requires
        crate::models::valid_spread_prices(games_with_odds@),
        crate::models::valid_spread_points(games_with_odds@),
    ensures
        r@ == dedup_from(sort_desc(spread_arbs(games_with_odds@)), 0),
        crate::rank::sorted_desc(r@),
        games_with_odds@.len() == 0 ==> r@.len() == 0,
{
    let ghost s = games_with_odds@;
    let mut cands: Vec<SpreadArbitrage> = Vec::new();
    let mut gi: usize = 0;
    proof {
        assert(cands@ =~= spread_arbs(s.take(0)));
    }
    while gi < games_with_odds.len()
        invariant
            gi <= s.len(),
            s == games_with_odds@,
            crate::models::valid_spread_prices(s),
            crate::models::valid_spread_points(s),
            cands@ == spread_arbs(s.take(gi as int)),
            crate::rank::wf_keys(cands@),
        decreases s.len() - gi,
    {
        let game = &games_with_odds[gi].0;
        let books = &games_with_odds[gi].1;

        // Gather every spread quote of every bookmaker for this game.
        let mut rows: Vec<(String, i64, i32, String)> = Vec::new();
        let mut j: usize = 0;
        proof {
            assert(rows@ =~= all_spread_rows(books@.take(0)));
        }
        while j < books.len()
            invariant
                j <= books@.len(),
                s == games_with_odds@,
                gi < s.len(),
                books == &s[gi as int].1,
                crate::models::valid_spread_prices(s),
                crate::models::valid_spread_points(s),
                rows@ == all_spread_rows(books@.take(j as int)),
                forall|t: int| 0 <= t < rows@.len() ==> valid_price((#[trigger] rows@[t]).2 as int)
                    && -crate::models::POINT_LIMIT <= rows@[t].1 <= crate::models::POINT_LIMIT,
            decreases books@.len() - j,
        {
            let book = &books[j];
            let quotes = &book.spreads;
            let ghost rows0 = rows@;
            let mut k: usize = 0;
            proof {
                assert(rows@ =~= rows0 + book.spreads@.take(0).map_values(
                    |q: SpreadOdds| (q.team, q.point, q.price, book.bookmaker),
                ));
            }
            while k < quotes.len()
                invariant
                    k <= quotes@.len(),
                    s == games_with_odds@,
                    gi < s.len(),
                    books == &s[gi as int].1,
                    j < books@.len(),
                    book == &books@[j as int],
                    quotes == &book.spreads,
                    crate::models::valid_spread_prices(s),
                    crate::models::valid_spread_points(s),
                    rows@ == rows0 + quotes@.take(k as int).map_values(
                        |q: SpreadOdds| (q.team, q.point, q.price, book.bookmaker),
                    ),
                    forall|t: int| 0 <= t < rows@.len() ==> valid_price(
                        (#[trigger] rows@[t]).2 as int,
                    ) && -crate::models::POINT_LIMIT <= rows@[t].1 <= crate::models::POINT_LIMIT,
                decreases quotes@.len() - k,
            {
                let q = &quotes[k];
                proof {
                    assert(valid_price((s[gi as int].1@[j as int].spreads@[k as int]).price as int));
                    assert(-crate::models::POINT_LIMIT <= (s[gi as int].1@[j as int].spreads@[
                        k as int
                    ]).point <= crate::models::POINT_LIMIT);
                }
                rows.push((q.team.clone(), q.point, q.price, book.bookmaker.clone()));
                k += 1;
                proof {
                    assert(rows@ =~= rows0 + quotes@.take(k as int).map_values(
                        |q: SpreadOdds| (q.team, q.point, q.price, book.bookmaker),
                    ));
                }
            }
            j += 1;
            proof {
                assert(quotes@.take(quotes@.len() as int) =~= quotes@);
                assert(books@.take(j as int).drop_last() =~= books@.take(j - 1));
                assert(books@.take(j as int).last() == books@[j - 1]);
                assert(rows@ =~= all_spread_rows(books@.take(j as int)));
            }
        }
        proof {
            assert(books@.take(books@.len() as int) =~= books@);
        }

        // Pair every row with every later row.
        let ghost rs = rows@;
        let mut gc: Vec<SpreadArbitrage> = Vec::new();
        let mut a: usize = 0;
        proof {
            assert(gc@ + spread_cands_from(*game, rs, 0) =~= spread_cands_from(*game, rs, 0));
        }
        while a < rows.len()
            invariant
                a <= rs.len(),
                rs == rows@,
                forall|t: int| 0 <= t < rs.len() ==> valid_price((#[trigger] rs[t]).2 as int)
                    && -crate::models::POINT_LIMIT <= rs[t].1 <= crate::models::POINT_LIMIT,
                spread_cands_from(*game, rs, 0) == gc@ + spread_cands_from(*game, rs, a as int),
                crate::rank::wf_keys(gc@),
            decreases rs.len() - a,
        {
            let mut b: usize = a + 1;
            proof {
                assert(spread_cands_from(*game, rs, a as int) == spread_cands_row(
                    *game,
                    rs,
                    a as int,
                    a + 1,
                ) + spread_cands_from(*game, rs, a as int + 1));
            }
            while b < rows.len()
                invariant
                    a < b <= rs.len() || (a < rs.len() && b == a + 1),
                    a < rs.len(),
                    rs == rows@,
                    forall|t: int| 0 <= t < rs.len() ==> valid_price((#[trigger] rs[t]).2 as int)
                        && -crate::models::POINT_LIMIT <= rs[t].1
                        <= crate::models::POINT_LIMIT,
                    spread_cands_from(*game, rs, 0) == gc@ + spread_cands_row(
                        *game,
                        rs,
                        a as int,
                        b as int,
                    ) + spread_cands_from(*game, rs, a as int + 1),
                    crate::rank::wf_keys(gc@),
                decreases rs.len() - b,
            {
                let r1 = &rows[a];
                let r2 = &rows[b];
                let diff_teams = r1.0 != r2.0;
                let sum = r1.1 + r2.1;
                if diff_teams && -100_000 < sum && sum < 100_000 {
                    if let Some(c) = combine_prices(r1.2, r2.2) {
                        let ghost oldgc = gc@;
                        proof {
                            lemma_combine_bounds(r1.2 as int, r2.2 as int);
                            assert(c.0.wf());
                        }
                        gc.push(
                            SpreadArbitrage {
                                home_team: game.home_team.clone(),
                                away_team: game.away_team.clone(),
                                side1_team: r1.0.clone(),
                                side1_spread: r1.1,
                                side1_odds: r1.2,
                                side1_bookmaker: r1.3.clone(),
                                side2_team: r2.0.clone(),
                                side2_spread: r2.1,
                                side2_odds: r2.2,
                                side2_bookmaker: r2.3.clone(),
                                profit_percentage: c.0,
                                side1_stake_percentage: c.1,
                                side2_stake_percentage: c.2,
                            },
                        );
                    }
                }
                b += 1;
                proof {
                    assert(spread_cands_from(*game, rs, 0) =~= gc@ + spread_cands_row(
                        *game,
                        rs,
                        a as int,
                        b as int,
                    ) + spread_cands_from(*game, rs, a as int + 1));
                    assert forall|t: int| 0 <= t < gc@.len() implies (#[trigger] gc@[
                        t
                    ]).key().wf() by {}
                }
            }
            a += 1;
            proof {
                assert(spread_cands_row(*game, rs, a - 1, rs.len() as int)
                    =~= Seq::<SpreadArbitrage>::empty());
                assert(spread_cands_from(*game, rs, 0) =~= gc@ + spread_cands_from(
                    *game,
                    rs,
                    a as int,
                ));
            }
        }
        proof {
            assert(spread_cands_from(*game, rs, rs.len() as int)
                =~= Seq::<SpreadArbitrage>::empty());
            assert(gc@ =~= spread_cands_from(*game, rs, 0));
        }
        let ghost oldcands = cands@;
        let ghost gcv = gc@;
        let mut gc = gc;
        cands.append(&mut gc);
        gi += 1;
        proof {
            assert(s.take(gi as int).drop_last() =~= s.take(gi - 1));
            assert(s.take(gi as int).last() == s[gi - 1]);
            assert(cands@ == spread_arbs(s.take(gi as int)));
            assert forall|t: int| 0 <= t < cands@.len() implies (#[trigger] cands@[
                t
            ]).key().wf() by {
                if t < oldcands.len() {
                    assert(cands@[t] == oldcands[t]);
                } else {
                    assert(cands@[t] == gcv[t - oldcands.len()]);
                }
            }
        }
    }
    proof {
        assert(s.take(s.len() as int) =~= s);
        crate::rank::lemma_sort_desc_sorted(cands@);
    }
    let sorted = sort_desc_exec(cands);
    proof {
        lemma_dedup_sorted(sorted@, 0);
    }
    dedup_arbs(&sorted)
}

} // verus!
