use vstd::prelude::*;
use crate::models::GamePrediction;
use crate::numbers::parse_decimal_spec;
use crate::text::{
    chars_to_string, filter_nonblank, find_digit, find_digit_exec, has_sub, has_substring,
    keep_nonblank, replace_chars, replace_seq, split_at_pat, split_pat, split_ws_chars,
    split_ws_seq, subrange_chars, to_chars, trim_back, trim_chars, trim_end_chars, trim_seq,
    views_of,
};
use crate::MICRO;

verus! {

// The prediction site publishes its table as fixed-width text: two team
// names separated by runs of spaces, then the numeric columns. One line
// parses to one prediction; header lines and lines without numbers parse
// to nothing.

/// What one line of the prediction table parses to: the home and away
/// names (periods stripped), the updated line (column one), the home win
/// probability (next-to-last column) and the prediction average (column
/// three, zero when malformed), all numerics in millionths. `None` for
/// blank lines, header lines, lines without a digit, fewer than two team
/// names, fewer than six numeric columns, a malformed line or
/// probability, or a probability outside zero to one.
pub open spec fn tracker_line(line: Seq<char>) -> Option<(Seq<char>, Seq<char>, i64, i64, i64)> {
    if trim_seq(line).len() == 0 || has_sub(line, "Home"@) || has_sub(line, "Visitor"@) {
        None
    } else {
        let ds = find_digit(line);
        if ds < 0 {
            None
        } else {
            let teams_str = trim_back(line.take(ds));
            let team_parts = keep_nonblank(split_pat(teams_str, "  "@));
            if team_parts.len() < 2 {
                None
            } else {
                let home = replace_seq(trim_seq(team_parts[0]), "."@, Seq::empty());
                let away = replace_seq(trim_seq(team_parts[1]), "."@, Seq::empty());
                let cols = split_ws_seq(trim_seq(line.skip(ds)));
                if cols.len() < 6 {
                    None
                } else {
                    match parse_decimal_spec(cols[1]) {
                        None => None,
                        Some(spread) => {
                            let avg = match parse_decimal_spec(cols[3]) {
                                Some(x) => x,
                                None => 0,
                            };
                            match parse_decimal_spec(cols[cols.len() - 2]) {
                                None => None,
                                Some(p) => if 0 <= p <= MICRO {
                                    Some((home, away, spread, p, avg))
                                } else {
                                    None
                                },
                            }
                        },
                    }
                }
            }
        }
    }
}

/// Parse one line of the prediction table. The away win probability is
/// the complement of the home one.
pub fn parse_text_line(line: &str) -> (r: Option<GamePrediction>)
    ensures
        match r {
            Some(p) => tracker_line(line@) == Some(
                (p.home_team@, p.away_team@, p.spread, p.home_win_prob, p._prediction_avg),
            ) && p.away_win_prob == MICRO - p.home_win_prob,
            None => tracker_line(line@) is None,
        },
{
    proof {
        reveal_strlit("Home");
        reveal_strlit("Visitor");
        reveal_strlit("  ");
        reveal_strlit(".");
    }
    let v = to_chars(line);
    let t = trim_chars(&v);
    if t.len() == 0 || has_substring(&v, &to_chars("Home")) || has_substring(
        &v,
        &to_chars("Visitor"),
    ) {
        return None;
    }
    let ds = match find_digit_exec(&v) {
        Some(d) => d,
        None => {
            return None;
        },
    };
    let head = subrange_chars(&v, 0, ds);
    proof {
        assert(head@ =~= v@.take(ds as int));
    }
    let teams_str = trim_end_chars(&head);
    let raw_parts = split_at_pat(&teams_str, &to_chars("  "));
    let team_parts = filter_nonblank(raw_parts);
    if team_parts.len() < 2 {
        return None;
    }
    let empty: Vec<char> = Vec::new();
    let home = replace_chars(&trim_chars(&team_parts[0]), &to_chars("."), &empty);
    let away = replace_chars(&trim_chars(&team_parts[1]), &to_chars("."), &empty);
    proof {
        assert(team_parts@[0]@ == views_of(team_parts@)[0]);
        assert(team_parts@[1]@ == views_of(team_parts@)[1]);
    }
    let n = v.len();
    let tail = subrange_chars(&v, ds, n);
    proof {
        assert(tail@ =~= v@.skip(ds as int));
    }
    let tail_trim = trim_chars(&tail);
    let cols = split_ws_chars(&tail_trim);
    if cols.len() < 6 {
        return None;
    }
    proof {
        assert(cols@[1]@ == views_of(cols@)[1]);
        assert(cols@[3]@ == views_of(cols@)[3]);
        assert(cols@[cols@.len() - 2]@ == views_of(cols@)[cols@.len() - 2]);
    }
    let spread = match crate::numbers::parse_decimal_micro(&cols[1]) {
        Some(x) => x,
        None => {
            return None;
        },
    };
    let avg = match crate::numbers::parse_decimal_micro(&cols[3]) {
        Some(x) => x,
        None => 0,
    };
    let p = match crate::numbers::parse_decimal_micro(&cols[cols.len() - 2]) {
        Some(x) => x,
        None => {
            return None;
        },
    };
    if !(0 <= p && p <= MICRO) {
        return None;
    }
    Some(
        GamePrediction {
            home_team: chars_to_string(&home),
            away_team: chars_to_string(&away),
            spread,
            home_win_prob: p,
            away_win_prob: MICRO - p,
            _prediction_avg: avg,
        },
    )
}

} // verus!
