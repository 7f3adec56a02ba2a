use vstd::prelude::*;
use crate::matching::{find_prediction, game_pair_key, lookup_pred, pair_key, team_prob};
use crate::models::{BettingOdds, Game, GamePrediction, MoneylineOdds, SpreadOdds};
use crate::odds::{
    american_odds_to_probability, calculate_expected_value, ev_den, ev_num, implied_den,
    implied_num,
};
use crate::rank::{filter_pos, keep_pos, sort_desc, sort_desc_exec, take_top, top_slice, RankKey};
use crate::ratio::{ratio64, Ratio};
use crate::team_key::school_key;
use crate::MICRO;

verus! {

/// A moneyline wager scored against the model: the quoted price, the
/// model's win probability (millionths), the price's implied
/// probability, the expected value per unit stake and the edge, the
/// last three as exact ratios.
#[derive(Debug, PartialEq)]
pub struct EvBetRecommendation {
    pub home_team: String,
    pub away_team: String,
    pub team: String,
    pub bookmaker: String,
    pub odds: i32,
    pub model_prob: i64,
    pub implied_prob: Ratio,
    pub expected_value: Ratio,
    pub edge: Ratio,
}

impl RankKey for EvBetRecommendation {
    open spec fn key(&self) -> Ratio {
        self.expected_value
    }

    fn key_exec(&self) -> (r: Ratio)
        ensures
            r == self.key(),
    {
        self.expected_value
    }
}

impl Clone for EvBetRecommendation {
    fn clone(&self) -> (r: Self)
        ensures
            r == *self,
    {
        EvBetRecommendation {
            home_team: self.home_team.clone(),
            away_team: self.away_team.clone(),
            team: self.team.clone(),
            bookmaker: self.bookmaker.clone(),
            odds: self.odds,
            model_prob: self.model_prob,
            implied_prob: self.implied_prob,
            expected_value: self.expected_value,
            edge: self.edge,
        }
    }
}

/// A spread wager scored against the model. `spread_line` and
/// `model_spread` are in millionths of a point; `model_prob` is the
/// cover probability in millionths.
#[derive(Debug, PartialEq)]
pub struct SpreadEvBetRecommendation {
    pub home_team: String,
    pub away_team: String,
    pub team: String,
    pub spread_line: i64,
    pub bookmaker: String,
    pub odds: i32,
    pub model_spread: i64,
    pub model_prob: i64,
    pub implied_prob: Ratio,
    pub expected_value: Ratio,
    pub edge: Ratio,
}

impl RankKey for SpreadEvBetRecommendation {
    open spec fn key(&self) -> Ratio {
        self.expected_value
    }

    fn key_exec(&self) -> (r: Ratio)
        ensures
            r == self.key(),
    {
        self.expected_value
    }
}

impl Clone for SpreadEvBetRecommendation {
    fn clone(&self) -> (r: Self)
        ensures
            r == *self,
    {
        SpreadEvBetRecommendation {
            home_team: self.home_team.clone(),
            away_team: self.away_team.clone(),
            team: self.team.clone(),
            spread_line: self.spread_line,
            bookmaker: self.bookmaker.clone(),
            odds: self.odds,
            model_spread: self.model_spread,
            model_prob: self.model_prob,
            implied_prob: self.implied_prob,
            expected_value: self.expected_value,
            edge: self.edge,
        }
    }
}

/// Numerator of the edge, the model probability minus the implied
/// probability: `p/S - n/d == (p d - S n) / (S d)`.
pub open spec fn edge_num(p: int, price: int) -> int {
    p * implied_den(price) - MICRO * implied_num(price)
}

pub open spec fn edge_den(price: int) -> int {
    MICRO * implied_den(price)
}

/// The implied probability's parts are bounded by the price's magnitude.
proof fn lemma_implied_bounds(price: int)
    requires
        price != 0,
        -0x8000_0000 <= price <= 0x7fff_ffff,
    ensures
        0 < implied_num(price) <= 0x8000_0000,
        100 < implied_den(price) <= 0x8000_0064,
{
}

/// The edge parts fit in `i64` for any `i32` price and probability in
/// millionths.
proof fn lemma_edge_bounds(p: int, price: int)
    requires
        price != 0,
        -0x8000_0000 <= price <= 0x7fff_ffff,
        0 <= p <= MICRO,
    ensures
        -0x7fff_ffff_ffff_ffff <= edge_num(p, price) <= 0x7fff_ffff_ffff_ffff,
        0 < edge_den(price) <= 0x7fff_ffff_ffff_ffff,
        -0x7fff_ffff_ffff_ffff <= p * implied_den(price) <= 0x7fff_ffff_ffff_ffff,
        -0x7fff_ffff_ffff_ffff <= MICRO * implied_num(price) <= 0x7fff_ffff_ffff_ffff,
{
    lemma_implied_bounds(price);
    assert(0 <= p * implied_den(price) <= 1_000_000 * 0x8000_0064 && 0 <= MICRO * implied_num(
        price,
    ) <= 1_000_000 * 0x8000_0000 && 0 < MICRO * implied_den(price) <= 1_000_000 * 0x8000_0064)
        by (nonlinear_arith)
        requires
            0 < implied_num(price) <= 0x8000_0000,
            100 < implied_den(price) <= 0x8000_0064,
            0 <= p <= MICRO,
    ;
}

/// The scored record for one moneyline quote with model probability `p`.
pub open spec fn ml_rec(g: Game, bookmaker: String, q: MoneylineOdds, p: i64)
    -> EvBetRecommendation {
    EvBetRecommendation {
        home_team: g.home_team,
        away_team: g.away_team,
        team: q.team,
        bookmaker: bookmaker,
        odds: q.price,
        model_prob: p,
        implied_prob: ratio64(implied_num(q.price as int), implied_den(q.price as int)),
        expected_value: ratio64(ev_num(p as int, q.price as int), ev_den(q.price as int)),
        edge: ratio64(edge_num(p as int, q.price as int), edge_den(q.price as int)),
    }
}

/// The records one bookmaker's moneyline quotes generate: one per quote
/// whose team the matched prediction knows, in order.
pub open spec fn ml_quote_recs(
    g: Game,
    bookmaker: String,
    quotes: Seq<MoneylineOdds>,
    pred: GamePrediction,
) -> Seq<EvBetRecommendation>
    decreases quotes.len(),
{
    if quotes.len() == 0 {
        Seq::empty()
    } else {
        ml_quote_recs(g, bookmaker, quotes.drop_last(), pred) + (match team_prob(
            pred,
            school_key(quotes.last().team@),
        ) {
            Some(p) => seq![ml_rec(g, bookmaker, quotes.last(), p)],
            None => Seq::<EvBetRecommendation>::empty(),
        })
    }
}

pub open spec fn ml_book_recs(g: Game, books: Seq<BettingOdds>, pred: GamePrediction) -> Seq<
    EvBetRecommendation,
>
    decreases books.len(),
{
    if books.len() == 0 {
        Seq::empty()
    } else {
        ml_book_recs(g, books.drop_last(), pred) + ml_quote_recs(
            g,
            books.last().bookmaker,
            books.last().moneyline@,
            pred,
        )
    }
}

/// The records of one game: none when the game has begun or no
/// prediction matches its key.
pub open spec fn ml_game_recs(
    g: Game,
    books: Seq<BettingOdds>,
    preds: Seq<GamePrediction>,
    now: i64,
) -> Seq<EvBetRecommendation> {
    if g.commence_time > now {
        match lookup_pred(preds, pair_key(school_key(g.home_team@), school_key(g.away_team@))) {
            Some(pred) => ml_book_recs(g, books, pred),
            None => Seq::empty(),
        }
    } else {
        Seq::empty()
    }
}

/// Every record of every game, in input order, unfiltered and unsorted.
pub open spec fn ml_recs(
    s: Seq<(Game, Vec<BettingOdds>)>,
    preds: Seq<GamePrediction>,
    now: i64,
) -> Seq<EvBetRecommendation>
    decreases s.len(),
{
    if s.len() == 0 {
        Seq::empty()
    } else {
        ml_recs(s.drop_last(), preds, now) + ml_game_recs(s.last().0, s.last().1@, preds, now)
    }
}

/// Score every (game, bookmaker, team) moneyline combination against the
/// matched model probability, for games that have not begun by `now`;
/// keep the positive-expected-value wagers, sorted descending by
/// expected value, capped at `top_n` when requested. Empty input yields
/// empty output, and the result is a function of the inputs alone:
/// re-running on unchanged inputs returns a value-identical result.
pub fn find_top_ev_bets(
    games_with_odds: &Vec<(Game, Vec<BettingOdds>)>,
    predictions: &Vec<GamePrediction>,
    top_n: Option<usize>,
    now: i64,
) -> (r: Vec<EvBetRecommendation>)
    requires
        crate::models::nonzero_ml_prices(games_with_odds@),
        crate::models::wf_predictions(predictions@),
    ensures
        r@ == top_slice(
            sort_desc(keep_pos(ml_recs(games_with_odds@, predictions@, now))),
            top_n,
        ),
        crate::rank::sorted_desc(r@),
        forall|i: int| 0 <= i < r@.len() ==> (#[trigger] r@[i]).expected_value.num > 0,
        games_with_odds@.len() == 0 ==> r@.len() == 0,
{
    let ghost s = games_with_odds@;
    let mut cands: Vec<EvBetRecommendation> = Vec::new();
    let mut gi: usize = 0;
    proof {
        assert(cands@ =~= ml_recs(s.take(0), predictions@, now));
    }
    while gi < games_with_odds.len()
        invariant
            gi <= s.len(),
            s == games_with_odds@,
            crate::models::nonzero_ml_prices(s),
            crate::models::wf_predictions(predictions@),
            cands@ == ml_recs(s.take(gi as int), predictions@, now),
            crate::rank::wf_keys(cands@),
        decreases s.len() - gi,
    {
        let game = &games_with_odds[gi].0;
        let books = &games_with_odds[gi].1;
        if game.commence_time > now {
            let gk = game_pair_key(game.home_team.as_str(), game.away_team.as_str());
            if let Some(pred) = find_prediction(predictions, &gk) {
                proof {
                    crate::matching::lemma_lookup_pred_wf(predictions@, gk@);
                }
                let pred_home_key = crate::team_key::extract_school_name(pred.home_team.as_str());
                let pred_away_key = crate::team_key::extract_school_name(pred.away_team.as_str());
                let mut j: usize = 0;
                proof {
                    assert(books@.take(0) =~= Seq::<BettingOdds>::empty());
                    assert(cands@ + ml_book_recs(*game, books@.take(0), *pred) =~= cands@);
                }
                let ghost base = cands@;
                while j < books.len()
                    invariant
                        j <= books@.len(),
                        s == games_with_odds@,
                        gi < s.len(),
                        books == &s[gi as int].1,
                        crate::models::nonzero_ml_prices(s),
                        crate::models::wf_prediction(*pred),
                        pred_home_key@ == school_key(pred.home_team@),
                        pred_away_key@ == school_key(pred.away_team@),
                        cands@ == base + ml_book_recs(*game, books@.take(j as int), *pred),
                        crate::rank::wf_keys(cands@),
                    decreases books@.len() - j,
                {
                    let book = &books[j];
                    let quotes = &book.moneyline;
                    let ghost inner_base = cands@;
                    let mut k: usize = 0;
                    proof {
                        assert(quotes@.take(0) =~= Seq::<MoneylineOdds>::empty());
                        assert(cands@ + ml_quote_recs(*game, book.bookmaker, quotes@.take(0), *pred)
                            =~= cands@);
                    }
                    while k < quotes.len()
                        invariant
                            k <= quotes@.len(),
                            s == games_with_odds@,
                            gi < s.len(),
                            books == &s[gi as int].1,
                            j < books@.len(),
                            book == &books@[j as int],
                            quotes == &book.moneyline,
                            crate::models::nonzero_ml_prices(s),
                            crate::models::wf_prediction(*pred),
                            pred_home_key@ == school_key(pred.home_team@),
                            pred_away_key@ == school_key(pred.away_team@),
                            cands@ == inner_base + ml_quote_recs(
                                *game,
                                book.bookmaker,
                                quotes@.take(k as int),
                                *pred,
                            ),
                            crate::rank::wf_keys(cands@),
                        decreases quotes@.len() - k,
                    {
                        let q = &quotes[k];
                        proof {
                            assert((s[gi as int].1@[j as int].moneyline@[k as int]).price != 0);
                        }
                        let tk = crate::team_key::extract_school_name(q.team.as_str());
                        let p_opt: Option<i64> = if tk == pred_away_key {
                            Some(pred.away_win_prob)
                        } else if tk == pred_home_key {
                            Some(pred.home_win_prob)
                        } else {
                            None
                        };
                        proof {
                            assert(p_opt == team_prob(*pred, school_key(q.team@)));
                        }
                        if let Some(p) = p_opt {
                            let ghost oldcands = cands@;
                            proof {
                                lemma_edge_bounds(p as int, q.price as int);
                            }
                            let imp = american_odds_to_probability(q.price);
                            let ev = calculate_expected_value(p, q.price);
                            let edge = Ratio {
                                num: p * imp.den - MICRO * imp.num,
                                den: MICRO * imp.den,
                            };
                            cands.push(
                                EvBetRecommendation {
                                    home_team: game.home_team.clone(),
                                    away_team: game.away_team.clone(),
                                    team: q.team.clone(),
                                    bookmaker: book.bookmaker.clone(),
                                    odds: q.price,
                                    model_prob: p,
                                    implied_prob: imp,
                                    expected_value: ev,
                                    edge: edge,
                                },
                            );
                            proof {
                                assert forall|t: int| 0 <= t < cands@.len() implies (
                                #[trigger] cands@[t]).key().wf() by {
                                    if t < oldcands.len() {
                                        assert(cands@[t] == oldcands[t]);
                                    }
                                }
                            }
                        }
                        k += 1;
                        proof {
                            assert(quotes@.take(k as int).drop_last() =~= quotes@.take(k - 1));
                            assert(quotes@.take(k as int).last() == quotes@[k - 1]);
                            assert(cands@ =~= inner_base + ml_quote_recs(
                                *game,
                                book.bookmaker,
                                quotes@.take(k as int),
                                *pred,
                            ));
                        }
                    }
                    j += 1;
                    proof {
                        assert(quotes@.take(quotes@.len() as int) =~= quotes@);
                        assert(books@.take(j as int).drop_last() =~= books@.take(j - 1));
                        assert(books@.take(j as int).last() == books@[j - 1]);
                        assert(cands@ == base + ml_book_recs(*game, books@.take(j as int), *pred));
                    }
                }
                proof {
                    assert(books@.take(books@.len() as int) =~= books@);
                }
            }
        }
        gi += 1;
        proof {
            assert(s.take(gi as int).drop_last() =~= s.take(gi - 1));
            assert(s.take(gi as int).last() == s[gi - 1]);
            assert(cands@ == ml_recs(s.take(gi as int), predictions@, now));
        }
    }
    proof {
        assert(s.take(s.len() as int) =~= s);
        crate::rank::lemma_keep_pos_wf(cands@);
        crate::rank::lemma_ranking_keeps_positives(cands@, top_n);
    }
    let kept = filter_pos(cands);
    proof {
        crate::rank::lemma_sort_desc_sorted(kept@);
    }
    let sorted = sort_desc_exec(kept);
    proof {
        crate::rank::lemma_top_slice_sorted(sorted@, top_n);
    }
    take_top(sorted, top_n)
}

/// A spread wager matched to a prediction but not yet scored: everything
/// the cover-probability model needs, with the model's home-perspective
/// spread already oriented to the quoted side (negated when the quote is
/// on the away team).
#[derive(Debug, PartialEq)]
pub struct SpreadBetCandidate {
    pub home_team: String,
    pub away_team: String,
    pub team: String,
    pub spread_line: i64,
    pub bookmaker: String,
    pub odds: i32,
    pub model_spread: i64,
    pub oriented_spread: i64,
}

impl Clone for SpreadBetCandidate {
    fn clone(&self) -> (r: Self)
        ensures
            r == *self,
    {
        SpreadBetCandidate {
            home_team: self.home_team.clone(),
            away_team: self.away_team.clone(),
            team: self.team.clone(),
            spread_line: self.spread_line,
            bookmaker: self.bookmaker.clone(),
            odds: self.odds,
            model_spread: self.model_spread,
            oriented_spread: self.oriented_spread,
        }
    }
}

/// The candidate one spread quote generates: the model spread is kept as
/// predicted when the quoted team's key is the game's home key, and
/// negated otherwise, mirroring the home-perspective convention.
pub open spec fn spread_cand(g: Game, bookmaker: String, q: SpreadOdds, pred: GamePrediction)
    -> SpreadBetCandidate {
    SpreadBetCandidate {
        home_team: g.home_team,
        away_team: g.away_team,
        team: q.team,
        spread_line: q.point,
        bookmaker: bookmaker,
        odds: q.price,
        model_spread: pred.spread,
        oriented_spread: if school_key(q.team@) == school_key(g.home_team@) {
            pred.spread
        } else {
            (-pred.spread) as i64
        },
    }
}

pub open spec fn spread_cand_quotes(
    g: Game,
    bookmaker: String,
    quotes: Seq<SpreadOdds>,
    pred: GamePrediction,
) -> Seq<SpreadBetCandidate>
    decreases quotes.len(),
{
    if quotes.len() == 0 {
        Seq::empty()
    } else {
        spread_cand_quotes(g, bookmaker, quotes.drop_last(), pred) + seq![
            spread_cand(g, bookmaker, quotes.last(), pred),
        ]
    }
}

pub open spec fn spread_cand_books(g: Game, books: Seq<BettingOdds>, pred: GamePrediction) -> Seq<
    SpreadBetCandidate,
>
    decreases books.len(),
{
    if books.len() == 0 {
        Seq::empty()
    } else {
        spread_cand_books(g, books.drop_last(), pred) + spread_cand_quotes(
            g,
            books.last().bookmaker,
            books.last().spreads@,
            pred,
        )
    }
}

pub open spec fn spread_cand_game(
    g: Game,
    books: Seq<BettingOdds>,
    preds: Seq<GamePrediction>,
    now: i64,
) -> Seq<SpreadBetCandidate> {
    if g.commence_time > now {
        match lookup_pred(preds, pair_key(school_key(g.home_team@), school_key(g.away_team@))) {
            Some(pred) => spread_cand_books(g, books, pred),
            None => Seq::empty(),
        }
    } else {
        Seq::empty()
    }
}

pub open spec fn spread_cands(
    s: Seq<(Game, Vec<BettingOdds>)>,
    preds: Seq<GamePrediction>,
    now: i64,
) -> Seq<SpreadBetCandidate>
    decreases s.len(),
{
    if s.len() == 0 {
        Seq::empty()
    } else {
        spread_cands(s.drop_last(), preds, now) + spread_cand_game(
            s.last().0,
            s.last().1@,
            preds,
            now,
        )
    }
}

/// Match every spread quote of every future game to its model
/// prediction, orienting the predicted margin to the quoted side. The
/// cover probability itself comes from the normal model outside this
/// function; `rank_spread_bets` scores the candidates once it is known.
/// Empty input yields empty output.
pub fn spread_bet_candidates(
    games_with_odds: &Vec<(Game, Vec<BettingOdds>)>,
    predictions: &Vec<GamePrediction>,
    now: i64,
) -> (r: Vec<SpreadBetCandidate>)
    requires
        crate::models::wf_predictions(predictions@),
    ensures
        r@ == spread_cands(games_with_odds@, predictions@, now),
        games_with_odds@.len() == 0 ==> r@.len() == 0,
{
    let ghost s = games_with_odds@;
    let mut cands: Vec<SpreadBetCandidate> = Vec::new();
    let mut gi: usize = 0;
    proof {
        assert(cands@ =~= spread_cands(s.take(0), predictions@, now));
    }
    while gi < games_with_odds.len()
        invariant
            gi <= s.len(),
            s == games_with_odds@,
            crate::models::wf_predictions(predictions@),
            cands@ == spread_cands(s.take(gi as int), predictions@, now),
        decreases s.len() - gi,
    {
        let game = &games_with_odds[gi].0;
        let books = &games_with_odds[gi].1;
        if game.commence_time > now {
            let gk = game_pair_key(game.home_team.as_str(), game.away_team.as_str());
            if let Some(pred) = find_prediction(predictions, &gk) {
                proof {
                    crate::matching::lemma_lookup_pred_wf(predictions@, gk@);
                }
                let home_key = crate::team_key::extract_school_name(game.home_team.as_str());
                let ghost base = cands@;
                let mut j: usize = 0;
                proof {
                    assert(books@.take(0) =~= Seq::<BettingOdds>::empty());
                    assert(cands@ + spread_cand_books(*game, books@.take(0), *pred) =~= cands@);
                }
                while j < books.len()
                    invariant
                        j <= books@.len(),
                        s == games_with_odds@,
                        gi < s.len(),
                        books == &s[gi as int].1,
                        crate::models::wf_prediction(*pred),
                        home_key@ == school_key(game.home_team@),
                        cands@ == base + spread_cand_books(*game, books@.take(j as int), *pred),
                    decreases books@.len() - j,
                {
                    let book = &books[j];
                    let quotes = &book.spreads;
                    let ghost inner_base = cands@;
                    let mut k: usize = 0;
                    proof {
                        assert(quotes@.take(0) =~= Seq::<SpreadOdds>::empty());
                        assert(cands@ + spread_cand_quotes(
                            *game,
                            book.bookmaker,
                            quotes@.take(0),
                            *pred,
                        ) =~= cands@);
                    }
                    while k < quotes.len()
                        invariant
                            k <= quotes@.len(),
                            s == games_with_odds@,
                            gi < s.len(),
                            books == &s[gi as int].1,
                            j < books@.len(),
                            book == &books@[j as int],
                            quotes == &book.spreads,
                            crate::models::wf_prediction(*pred),
                            home_key@ == school_key(game.home_team@),
                            cands@ == inner_base + spread_cand_quotes(
                                *game,
                                book.bookmaker,
                                quotes@.take(k as int),
                                *pred,
                            ),
                        decreases quotes@.len() - k,
                    {
                        let q = &quotes[k];
                        let tk = crate::team_key::extract_school_name(q.team.as_str());
                        let oriented: i64 = if tk == home_key {
                            pred.spread
                        } else {
                            -pred.spread
                        };
                        cands.push(
                            SpreadBetCandidate {
                                home_team: game.home_team.clone(),
                                away_team: game.away_team.clone(),
                                team: q.team.clone(),
                                spread_line: q.point,
                                bookmaker: book.bookmaker.clone(),
                                odds: q.price,
                                model_spread: pred.spread,
                                oriented_spread: oriented,
                            },
                        );
                        k += 1;
                        proof {
                            assert(quotes@.take(k as int).drop_last() =~= quotes@.take(k - 1));
                            assert(quotes@.take(k as int).last() == quotes@[k - 1]);
                            assert(cands@ =~= inner_base + spread_cand_quotes(
                                *game,
                                book.bookmaker,
                                quotes@.take(k as int),
                                *pred,
                            ));
                        }
                    }
                    j += 1;
                    proof {
                        assert(quotes@.take(quotes@.len() as int) =~= quotes@);
                        assert(books@.take(j as int).drop_last() =~= books@.take(j - 1));
                        assert(books@.take(j as int).last() == books@[j - 1]);
                        assert(cands@ == base + spread_cand_books(
                            *game,
                            books@.take(j as int),
                            *pred,
                        ));
                    }
                }
                proof {
                    assert(books@.take(books@.len() as int) =~= books@);
                }
            }
        }
        gi += 1;
        proof {
            assert(s.take(gi as int).drop_last() =~= s.take(gi - 1));
            assert(s.take(gi as int).last() == s[gi - 1]);
            assert(cands@ == spread_cands(s.take(gi as int), predictions@, now));
        }
    }
    proof {
        assert(s.take(s.len() as int) =~= s);
    }
    cands
}

/// The scored record for one candidate, with cover probability `p` in
/// millionths.
pub open spec fn spread_rec(c: SpreadBetCandidate, p: i64) -> SpreadEvBetRecommendation {
    SpreadEvBetRecommendation {
        home_team: c.home_team,
        away_team: c.away_team,
        team: c.team,
        spread_line: c.spread_line,
        bookmaker: c.bookmaker,
        odds: c.odds,
        model_spread: c.model_spread,
        model_prob: p,
        implied_prob: ratio64(implied_num(c.odds as int), implied_den(c.odds as int)),
        expected_value: ratio64(ev_num(p as int, c.odds as int), ev_den(c.odds as int)),
        edge: ratio64(edge_num(p as int, c.odds as int), edge_den(c.odds as int)),
    }
}

/// The scored records of the first `n` candidates, in order.
pub open spec fn spread_recs_upto(
    cs: Seq<SpreadBetCandidate>,
    ps: Seq<i64>,
    n: int,
) -> Seq<SpreadEvBetRecommendation>
    decreases n,
{
    if n <= 0 {
        Seq::empty()
    } else {
        spread_recs_upto(cs, ps, n - 1) + seq![spread_rec(cs[n - 1], ps[n - 1])]
    }
}

/// Score each candidate with its cover probability, keep the wagers with
/// strictly positive expected value, sort them descending by expected
/// value and cap at `top_n` when requested. `cover_probs[i]` belongs to
/// `candidates[i]`. Empty input yields empty output, and the result is a
/// function of the inputs alone: re-running on unchanged inputs returns
/// a value-identical result.
pub fn rank_spread_bets(
    candidates: &Vec<SpreadBetCandidate>,
    cover_probs: &Vec<i64>,
    top_n: Option<usize>,
) -> (r: Vec<SpreadEvBetRecommendation>)
    requires
        candidates@.len() == cover_probs@.len(),
        forall|i: int| 0 <= i < cover_probs@.len() ==> 0 <= #[trigger] cover_probs@[i] <= MICRO,
        forall|i: int| 0 <= i < candidates@.len() ==> (#[trigger] candidates@[i]).odds != 0,
    ensures
        r@ == top_slice(
            sort_desc(keep_pos(spread_recs_upto(candidates@, cover_probs@, candidates@.len() as int))),
            top_n,
        ),
        crate::rank::sorted_desc(r@),
        forall|i: int| 0 <= i < r@.len() ==> (#[trigger] r@[i]).expected_value.num > 0,
        candidates@.len() == 0 ==> r@.len() == 0,
{
    let mut recs: Vec<SpreadEvBetRecommendation> = Vec::new();
    let mut i: usize = 0;
    proof {
        assert(recs@ =~= spread_recs_upto(candidates@, cover_probs@, 0));
    }
    while i < candidates.len()
        invariant
            i <= candidates@.len(),
            candidates@.len() == cover_probs@.len(),
            forall|t: int| 0 <= t < cover_probs@.len() ==> 0 <= #[trigger] cover_probs@[t]
                <= MICRO,
            forall|t: int| 0 <= t < candidates@.len() ==> (#[trigger] candidates@[t]).odds != 0,
            recs@ == spread_recs_upto(candidates@, cover_probs@, i as int),
            crate::rank::wf_keys(recs@),
        decreases candidates@.len() - i,
    {
        let c = &candidates[i];
        let p = cover_probs[i];
        let ghost oldrecs = recs@;
        proof {
            lemma_edge_bounds(p as int, c.odds as int);
        }
        let imp = american_odds_to_probability(c.odds);
        let ev = calculate_expected_value(p, c.odds);
        let edge = Ratio { num: p * imp.den - MICRO * imp.num, den: MICRO * imp.den };
        recs.push(
            SpreadEvBetRecommendation {
                home_team: c.home_team.clone(),
                away_team: c.away_team.clone(),
                team: c.team.clone(),
                spread_line: c.spread_line,
                bookmaker: c.bookmaker.clone(),
                odds: c.odds,
                model_spread: c.model_spread,
                model_prob: p,
                implied_prob: imp,
                expected_value: ev,
                edge: edge,
            },
        );
        i += 1;
        proof {
            assert(recs@ =~= spread_recs_upto(candidates@, cover_probs@, i as int));
            assert forall|t: int| 0 <= t < recs@.len() implies (#[trigger] recs@[
                t
            ]).key().wf() by {
                if t < oldrecs.len() {
                    assert(recs@[t] == oldrecs[t]);
                }
            }
        }
    }
    proof {
        crate::rank::lemma_keep_pos_wf(recs@);
        crate::rank::lemma_ranking_keeps_positives(recs@, top_n);
    }
    let kept = filter_pos(recs);
    proof {
        crate::rank::lemma_sort_desc_sorted(kept@);
    }
    let sorted = sort_desc_exec(kept);
    proof {
        crate::rank::lemma_top_slice_sorted(sorted@, top_n);
    }
    take_top(sorted, top_n)
}

} // verus!
