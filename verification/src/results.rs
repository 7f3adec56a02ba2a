use vstd::prelude::*;
use crate::ev::{EvBetRecommendation, SpreadEvBetRecommendation};
use crate::matching::pair_key;
use crate::ratio::{ratio64, Ratio};
use crate::team_key::school_key;
use crate::MICRO;

verus! {

/// Which part of a season a result belongs to.
#[derive(Debug, Clone, Copy, PartialEq, Eq, Structural)]
pub enum SeasonType {
    Regular,
    Postseason,
    Both,
    Allstar,
    SpringRegular,
    SpringPostseason,
}

/// The division a team plays in.
#[derive(Debug, Clone, Copy, PartialEq, Eq, Structural)]
pub enum Classification {
    Fbs,
    Fcs,
    Ii,
    Iii,
}

/// A completed or pending basketball result as the results source
/// reports it.
#[derive(Debug, PartialEq)]
pub struct CbbGameResult {
    pub game_id: u32,
    pub day: String,
    pub home: String,
    pub away: String,
    pub home_score: Option<u32>,
    pub away_score: Option<u32>,
    pub status: String,
}

/// The results source's account of its rate limit.
#[derive(Debug, Clone, Copy, PartialEq, Eq, Structural)]
pub struct InfoResult {
    pub patron_level: u32,
    pub remaining_calls: u32,
}

/// What settlement reads of a finished game: the two display names and
/// the final points, absent while the game is not final.
#[derive(Debug, PartialEq)]
pub struct GameScore {
    pub home_team: String,
    pub away_team: String,
    pub home_points: Option<i64>,
    pub away_points: Option<i64>,
}

impl Clone for GameScore {
    fn clone(&self) -> (r: Self)
        ensures
            r == *self,
    {
        GameScore {
            home_team: self.home_team.clone(),
            away_team: self.away_team.clone(),
            home_points: self.home_points,
            away_points: self.away_points,
        }
    }
}

/// Scores stay within a million points; this keeps margins in millionths
/// of a point inside `i64`.
pub const SCORE_LIMIT: i64 = 1_000_000;

pub open spec fn wf_score(r: GameScore) -> bool {
    (r.home_points is Some ==> -SCORE_LIMIT <= r.home_points->0 <= SCORE_LIMIT)
        && (r.away_points is Some ==> -SCORE_LIMIT <= r.away_points->0 <= SCORE_LIMIT)
}

pub open spec fn wf_scores(rs: Seq<GameScore>) -> bool {
    forall|i: int| 0 <= i < rs.len() ==> wf_score(#[trigger] rs[i])
}

/// A moneyline recommendation settled against an actual outcome. All
/// three optional fields are absent when no result matches the matchup's
/// key, and the last two also while the score is incomplete.
/// `actual_payout` is the profit per unit stake, zero for a lost bet.
#[derive(Debug, PartialEq)]
pub struct BetResult {
    pub bet: EvBetRecommendation,
    pub game_result: Option<GameScore>,
    pub bet_won: Option<bool>,
    pub actual_payout: Option<Ratio>,
}

/// A spread recommendation settled against an actual outcome.
#[derive(Debug, PartialEq)]
pub struct SpreadBetResult {
    pub bet: SpreadEvBetRecommendation,
    pub game_result: Option<GameScore>,
    pub bet_won: Option<bool>,
    pub actual_payout: Option<Ratio>,
}

/// Whether result `r` addresses the matchup with game key `gk`, in
/// either orientation.
pub open spec fn score_matches(r: GameScore, gk: Seq<char>) -> bool {
    pair_key(school_key(r.home_team@), school_key(r.away_team@)) == gk || pair_key(
        school_key(r.away_team@),
        school_key(r.home_team@),
    ) == gk
}

/// The result a matchup key is settled against: the last matching result
/// in input order, or nothing.
pub open spec fn lookup_score(rs: Seq<GameScore>, gk: Seq<char>) -> Option<GameScore>
    decreases rs.len(),
{
    if rs.len() == 0 {
        None
    } else if score_matches(rs.last(), gk) {
        Some(rs.last())
    } else {
        lookup_score(rs.drop_last(), gk)
    }
}

/// Profit per unit stake of a winning bet at American price `odds`.
pub open spec fn win_ratio(odds: int) -> Ratio {
    if odds > 0 {
        ratio64(odds, 100)
    } else {
        ratio64(100, -odds)
    }
}

/// The settlement of one moneyline recommendation: matched by the game
/// key of its two teams; won exactly when the backed team scored more
/// points; paid `odds/100` (positive price) or `100/|odds|` per unit
/// stake when won and zero when lost.
pub open spec fn settle_ml(bet: EvBetRecommendation, rs: Seq<GameScore>) -> BetResult {
    let gk = pair_key(school_key(bet.home_team@), school_key(bet.away_team@));
    match lookup_score(rs, gk) {
        Some(res) => {
            if res.home_points is Some && res.away_points is Some {
                let won = if school_key(bet.team@) == school_key(res.home_team@) {
                    res.home_points->0 > res.away_points->0
                } else {
                    res.away_points->0 > res.home_points->0
                };
                BetResult {
                    bet: bet,
                    game_result: Some(res),
                    bet_won: Some(won),
                    actual_payout: Some(
                        if won {
                            win_ratio(bet.odds as int)
                        } else {
                            ratio64(0, 1)
                        },
                    ),
                }
            } else {
                BetResult { bet: bet, game_result: Some(res), bet_won: None, actual_payout: None }
            }
        },
        None => BetResult { bet: bet, game_result: None, bet_won: None, actual_payout: None },
    }
}

/// The settlement of one spread recommendation: the backed side covers
/// exactly when the actual margin, from the home side's perspective,
/// exceeds the line for a home bet and falls below it for an away bet.
pub open spec fn settle_spread(bet: SpreadEvBetRecommendation, rs: Seq<GameScore>)
    -> SpreadBetResult {
    let gk = pair_key(school_key(bet.home_team@), school_key(bet.away_team@));
    match lookup_score(rs, gk) {
        Some(res) => {
            if res.home_points is Some && res.away_points is Some {
                let margin = res.home_points->0 - res.away_points->0;
                let won = if school_key(bet.team@) == school_key(res.home_team@) {
                    margin * MICRO > bet.spread_line
                } else {
                    margin * MICRO < bet.spread_line
                };
                SpreadBetResult {
                    bet: bet,
                    game_result: Some(res),
                    bet_won: Some(won),
                    actual_payout: Some(
                        if won {
                            win_ratio(bet.odds as int)
                        } else {
                            ratio64(0, 1)
                        },
                    ),
                }
            } else {
                SpreadBetResult {
                    bet: bet,
                    game_result: Some(res),
                    bet_won: None,
                    actual_payout: None,
                }
            }
        },
        None => SpreadBetResult { bet: bet, game_result: None, bet_won: None, actual_payout: None },
    }
}

fn score_matches_exec(r: &GameScore, gk: &Vec<char>) -> (b: bool)
    ensures
        b == score_matches(*r, gk@),
{
    let hk = crate::team_key::extract_school_name(r.home_team.as_str());
    let ak = crate::team_key::extract_school_name(r.away_team.as_str());
    let hv = crate::text::to_chars(hk.as_str());
    let av = crate::text::to_chars(ak.as_str());
    let fwd = crate::team_key::join_two(&hv, &av);
    if crate::text::chars_eq(&fwd, gk) {
        return true;
    }
    let rev = crate::team_key::join_two(&av, &hv);
    crate::text::chars_eq(&rev, gk)
}

fn find_score<'a>(rs: &'a Vec<GameScore>, gk: &Vec<char>) -> (r: Option<&'a GameScore>)
    ensures
        match r {
            Some(x) => lookup_score(rs@, gk@) == Some(*x),
            None => lookup_score(rs@, gk@) is None,
        },
{
    let mut j: usize = rs.len();
    proof {
        assert(rs@.take(rs@.len() as int) =~= rs@);
    }
    while j > 0
        invariant
            j <= rs@.len(),
            lookup_score(rs@, gk@) == lookup_score(rs@.take(j as int), gk@),
        decreases j,
    {
        j -= 1;
        proof {
            assert(rs@.take(j as int + 1).last() == rs@[j as int]);
            assert(rs@.take(j as int + 1).drop_last() =~= rs@.take(j as int));
        }
        if score_matches_exec(&rs[j], gk) {
            return Some(&rs[j]);
        }
    }
    None
}

fn won_payout(odds: i32, won: bool) -> (r: Ratio)
    requires
        odds != 0,
    ensures
        r == (if won {
            win_ratio(odds as int)
        } else {
            ratio64(0, 1)
        }),
{
    if won {
        if odds > 0 {
            Ratio { num: odds as i64, den: 100 }
        } else {
            Ratio { num: 100, den: -(odds as i64) }
        }
    } else {
        Ratio { num: 0, den: 1 }
    }
}

/// Settle every moneyline recommendation against the results, in order:
/// one `BetResult` per bet, matched by the game key of its teams, with
/// the outcome and payout filled in exactly when the matched score is
/// complete.
pub fn compare_ev_bets_to_results(
    bets: &Vec<EvBetRecommendation>,
    game_results: &Vec<GameScore>,
) -> (r: Vec<BetResult>)
    requires
        forall|i: int| 0 <= i < bets@.len() ==> (#[trigger] bets@[i]).odds != 0,
    ensures
        r@.len() == bets@.len(),
        forall|i: int| 0 <= i < bets@.len() ==> r@[i] == settle_ml(
            #[trigger] bets@[i],
            game_results@,
        ),
{
    let mut out: Vec<BetResult> = Vec::new();
    let mut i: usize = 0;
    while i < bets.len()
        invariant
            i <= bets@.len(),
            out@.len() == i,
            forall|t: int| 0 <= t < bets@.len() ==> (#[trigger] bets@[t]).odds != 0,
            forall|t: int| 0 <= t < i ==> out@[t] == settle_ml(
                #[trigger] bets@[t],
                game_results@,
            ),
        decreases bets@.len() - i,
    {
        let bet = &bets[i];
        let gk = crate::matching::game_pair_key(bet.home_team.as_str(), bet.away_team.as_str());
        let found = find_score(game_results, &gk);
        let item: BetResult = match found {
            Some(res) => {
                if let (Some(hp), Some(ap)) = (res.home_points, res.away_points) {
                    let bet_key = crate::team_key::extract_school_name(bet.team.as_str());
                    let home_key = crate::team_key::extract_school_name(res.home_team.as_str());
                    let won = if bet_key == home_key {
                        hp > ap
                    } else {
                        ap > hp
                    };
                    BetResult {
                        bet: bet.clone(),
                        game_result: Some(res.clone()),
                        bet_won: Some(won),
                        actual_payout: Some(won_payout(bet.odds, won)),
                    }
                } else {
                    BetResult {
                        bet: bet.clone(),
                        game_result: Some(res.clone()),
                        bet_won: None,
                        actual_payout: None,
                    }
                }
            },
            None => BetResult {
                bet: bet.clone(),
                game_result: None,
                bet_won: None,
                actual_payout: None,
            },
        };
        out.push(item);
        i += 1;
    }
    out
}

/// Settle every spread recommendation against the results, in order.
/// The margin comparison is exact: an integer margin, in millionths,
/// against the posted line in millionths.
pub fn compare_spread_ev_bets_to_results(
    bets: &Vec<SpreadEvBetRecommendation>,
    game_results: &Vec<GameScore>,
) -> (r: Vec<SpreadBetResult>)
    requires
        forall|i: int| 0 <= i < bets@.len() ==> (#[trigger] bets@[i]).odds != 0,
        wf_scores(game_results@),
    ensures
        r@.len() == bets@.len(),
        forall|i: int| 0 <= i < bets@.len() ==> r@[i] == settle_spread(
            #[trigger] bets@[i],
            game_results@,
        ),
{
    let mut out: Vec<SpreadBetResult> = Vec::new();
    let mut i: usize = 0;
    while i < bets.len()
        invariant
            i <= bets@.len(),
            out@.len() == i,
            forall|t: int| 0 <= t < bets@.len() ==> (#[trigger] bets@[t]).odds != 0,
            wf_scores(game_results@),
            forall|t: int| 0 <= t < i ==> out@[t] == settle_spread(
                #[trigger] bets@[t],
                game_results@,
            ),
        decreases bets@.len() - i,
    {
        let bet = &bets[i];
        let gk = crate::matching::game_pair_key(bet.home_team.as_str(), bet.away_team.as_str());
        let found = find_score(game_results, &gk);
        let item: SpreadBetResult = match found {
            Some(res) => {
                if let (Some(hp), Some(ap)) = (res.home_points, res.away_points) {
                    proof {
                        let gkv = pair_key(
                            school_key(bet.home_team@),
                            school_key(bet.away_team@),
                        );
                        lemma_lookup_score_wf(game_results@, gkv);
                    }
                    let bet_key = crate::team_key::extract_school_name(bet.team.as_str());
                    let home_key = crate::team_key::extract_school_name(res.home_team.as_str());
                    let margin = hp - ap;
                    let won = if bet_key == home_key {
                        margin * MICRO > bet.spread_line
                    } else {
                        margin * MICRO < bet.spread_line
                    };
                    SpreadBetResult {
                        bet: bet.clone(),
                        game_result: Some(res.clone()),
                        bet_won: Some(won),
                        actual_payout: Some(won_payout(bet.odds, won)),
                    }
                } else {
                    SpreadBetResult {
                        bet: bet.clone(),
                        game_result: Some(res.clone()),
                        bet_won: None,
                        actual_payout: None,
                    }
                }
            },
            None => SpreadBetResult {
                bet: bet.clone(),
                game_result: None,
                bet_won: None,
                actual_payout: None,
            },
        };
        out.push(item);
        i += 1;
    }
    out
}

/// A successful score lookup returns one of the given results, so the
/// score bounds carry over to the match.
proof fn lemma_lookup_score_wf(rs: Seq<GameScore>, gk: Seq<char>)
    requires
        wf_scores(rs),
        lookup_score(rs, gk) is Some,
    ensures
        wf_score(lookup_score(rs, gk)->0),
    decreases rs.len(),
{
    if rs.len() > 0 {
        if score_matches(rs.last(), gk) {
            assert(wf_score(rs[rs.len() - 1]));
        } else {
            assert(wf_scores(rs.drop_last())) by {
                assert forall|i: int| 0 <= i < rs.drop_last().len() implies wf_score(
                    #[trigger] rs.drop_last()[i],
                ) by {
                    assert(rs.drop_last()[i] == rs[i]);
                }
            }
            lemma_lookup_score_wf(rs.drop_last(), gk);
        }
    }
}

} // verus!
