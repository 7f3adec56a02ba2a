use vstd::prelude::*;
use crate::numbers::{parse_decimal_spec, parse_digits_spec};
use crate::text::{
    chars_to_string, join_seq, join_with, split_ws_chars, split_ws_seq, to_chars, views_of,
};

verus! {

// The ratings site publishes plain text lines of the form
// "   1 Georgia              95.50": a rank, a team name of one or more
// words, and a rating.

/// A team's rating line: the rank, the team's name, and the rating in
/// millionths.
#[derive(Debug, PartialEq)]
pub struct SagarinRating {
    pub team: String,
    pub rating: i64,
    pub rank: usize,
}

impl Clone for SagarinRating {
    fn clone(&self) -> (r: Self)
        ensures
            r == *self,
    {
        SagarinRating { team: self.team.clone(), rating: self.rating, rank: self.rank }
    }
}

/// What one rating line parses to: the rank (first column, a plain digit
/// numeral), the team name (everything between, joined by single
/// spaces), and the rating (last column) in millionths. `None` with
/// fewer than three columns or malformed numerals.
pub open spec fn rating_line(line: Seq<char>) -> Option<(int, Seq<char>, i64)> {
    let parts = split_ws_seq(line);
    if parts.len() < 3 {
        None
    } else {
        match parse_digits_spec(parts[0]) {
            None => None,
            Some(rank) => if rank > 0xffff_ffff {
                None
            } else {
                match parse_decimal_spec(parts[parts.len() - 1]) {
                    None => None,
                    Some(rating) => Some(
                        (rank as int, join_seq(parts.subrange(1, parts.len() - 1), ' '), rating),
                    ),
                }
            },
        }
    }
}

/// Parse one rating line.
pub fn parse_rating_line(line: &str) -> (r: Option<SagarinRating>)
    ensures
        match r {
            Some(sr) => rating_line(line@) == Some((sr.rank as int, sr.team@, sr.rating)),
            None => rating_line(line@) is None,
        },
{
    let v = to_chars(line);
    let parts = split_ws_chars(&v);
    if parts.len() < 3 {
        return None;
    }
    proof {
        assert(parts@[0]@ == views_of(parts@)[0]);
        assert(parts@[parts@.len() - 1]@ == views_of(parts@)[parts@.len() - 1]);
    }
    let rank = match crate::numbers::parse_digits_value(&parts[0]) {
        Some(x) => x,
        None => {
            return None;
        },
    };
    if rank > 0xffff_ffff {
        return None;
    }
    let rating = match crate::numbers::parse_decimal_micro(&parts[parts.len() - 1]) {
        Some(x) => x,
        None => {
            return None;
        },
    };
    let mut middle: Vec<Vec<char>> = Vec::new();
    let mut i: usize = 1;
    let end = parts.len() - 1;
    let ghost pviews = views_of(parts@);
    proof {
        assert(views_of(middle@) =~= pviews.subrange(1, 1));
    }
    while i < end
        invariant
            1 <= i <= end,
            end == parts@.len() - 1,
            parts@.len() >= 3,
            pviews == views_of(parts@),
            views_of(middle@) == pviews.subrange(1, i as int),
        decreases end - i,
    {
        let piece = crate::text::subrange_chars(&parts[i], 0, parts[i].len());
        proof {
            assert(piece@ =~= parts@[i as int]@);
        }
        let ghost oldm = middle@;
        middle.push(piece);
        i += 1;
        proof {
            crate::text::lemma_views_push(oldm, middle@.last());
            assert(views_of(middle@) =~= pviews.subrange(1, i as int));
        }
    }
    let team = join_with(&middle, ' ');
    let rank_usize = rank as usize;
    Some(SagarinRating { team: chars_to_string(&team), rating, rank: rank_usize })
}

} // verus!
