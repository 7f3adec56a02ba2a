use vstd::prelude::*;
use crate::models::GamePrediction;
use crate::team_key::{extract_school_name, join_two, school_key};
use crate::text::{chars_eq, to_chars};

verus! {

// The prediction matcher joins games to model predictions. A matchup is
// addressed by the concatenation of its two school keys, and a
// prediction matches a game when either orientation of its key pair
// produces the game's key, to tolerate the sources disagreeing about
// which team is home.

/// The join key of a pair of school keys.
pub open spec fn pair_key(h: Seq<char>, a: Seq<char>) -> Seq<char> {
    h + "_"@ + a
}

/// Whether prediction `p` addresses the matchup with game key `gk`, in
/// either orientation.
pub open spec fn pred_matches(p: GamePrediction, gk: Seq<char>) -> bool {
    pair_key(school_key(p.home_team@), school_key(p.away_team@)) == gk || pair_key(
        school_key(p.away_team@),
        school_key(p.home_team@),
    ) == gk
}

/// The prediction a game with key `gk` is matched to: the last matching
/// prediction in input order, or nothing. A game with no matching
/// prediction is skipped by every consumer; that is not an error.
pub open spec fn lookup_pred(preds: Seq<GamePrediction>, gk: Seq<char>) -> Option<GamePrediction>
    decreases preds.len(),
{
    if preds.len() == 0 {
        None
    } else if pred_matches(preds.last(), gk) {
        Some(preds.last())
    } else {
        lookup_pred(preds.drop_last(), gk)
    }
}

/// The win probability, in millionths, that prediction `p` assigns to
/// the team with key `tk`; the away side shadows the home side when the
/// two keys collide.
pub open spec fn team_prob(p: GamePrediction, tk: Seq<char>) -> Option<i64> {
    if school_key(p.away_team@) == tk {
        Some(p.away_win_prob)
    } else if school_key(p.home_team@) == tk {
        Some(p.home_win_prob)
    } else {
        None
    }
}

/// A successful lookup returns one of the given predictions, so any
/// property all of them enjoy carries over to the match.
pub proof fn lemma_lookup_pred_wf(preds: Seq<GamePrediction>, gk: Seq<char>)
    requires
        crate::models::wf_predictions(preds),
        lookup_pred(preds, gk) is Some,
    ensures
        crate::models::wf_prediction(lookup_pred(preds, gk)->0),
    decreases preds.len(),
{
    if preds.len() > 0 {
        if pred_matches(preds.last(), gk) {
            assert(crate::models::wf_prediction(preds[preds.len() - 1]));
        } else {
            assert(crate::models::wf_predictions(preds.drop_last())) by {
                assert forall|i: int| 0 <= i < preds.drop_last().len() implies
                    crate::models::wf_prediction(#[trigger] preds.drop_last()[i]) by {
                    assert(preds.drop_last()[i] == preds[i]);
                }
            }
            lemma_lookup_pred_wf(preds.drop_last(), gk);
        }
    }
}

/// The game key of a matchup given the two display names.
pub fn game_pair_key(home: &str, away: &str) -> (r: Vec<char>)
    ensures
        r@ == pair_key(school_key(home@), school_key(away@)),
{
    let hk = extract_school_name(home);
    let ak = extract_school_name(away);
    join_two(&to_chars(hk.as_str()), &to_chars(ak.as_str()))
}

fn pred_matches_exec(p: &GamePrediction, gk: &Vec<char>) -> (r: bool)
    ensures
        r == pred_matches(*p, gk@),
{
    let hk = extract_school_name(p.home_team.as_str());
    let ak = extract_school_name(p.away_team.as_str());
    let hv = to_chars(hk.as_str());
    let av = to_chars(ak.as_str());
    let fwd = join_two(&hv, &av);
    if chars_eq(&fwd, gk) {
        return true;
    }
    let rev = join_two(&av, &hv);
    chars_eq(&rev, gk)
}

/// Find the prediction for the matchup with key `gk`: the last matching
/// one in input order, as the lookup map the sources are folded into
/// retains.
pub fn find_prediction<'a>(preds: &'a Vec<GamePrediction>, gk: &Vec<char>) -> (r: Option<
    &'a GamePrediction,
>)
    ensures
        match r {
            Some(p) => lookup_pred(preds@, gk@) == Some(*p),
            None => lookup_pred(preds@, gk@) is None,
        },
{
    let mut j: usize = preds.len();
    proof {
        assert(preds@.take(preds@.len() as int) =~= preds@);
    }
    while j > 0
        invariant
            j <= preds@.len(),
            lookup_pred(preds@, gk@) == lookup_pred(preds@.take(j as int), gk@),
        decreases j,
    {
        j -= 1;
        proof {
            assert(preds@.take(j as int + 1).last() == preds@[j as int]);
            assert(preds@.take(j as int + 1).drop_last() =~= preds@.take(j as int));
        }
        if pred_matches_exec(&preds[j], gk) {
            return Some(&preds[j]);
        }
    }
    None
}

} // verus!
