use vstd::prelude::*;
use crate::text::{
    chars_to_string, lower_chars, lower_seq, replace_chars, replace_seq, to_chars, trim_chars,
    trim_seq,
};

verus! {

/// Normalization for the ratings site's team naming: trim,
/// ASCII-lowercase, then rewrite "state" to "st" and "&" to "and",
/// keeping the spaces that source uses.
pub open spec fn espn_normalize_spec(s: Seq<char>) -> Seq<char> {
    replace_seq(replace_seq(lower_seq(trim_seq(s)), "state"@, "st"@), "&"@, "and"@)
}

/// Normalize a team name as the ratings site spells it.
pub fn normalize_team_name(name: &str) -> (r: String)
    ensures
        r@ == espn_normalize_spec(name@),
{
    proof {
        reveal_strlit("state");
        reveal_strlit("&");
    }
    let v = to_chars(name);
    let t = trim_chars(&v);
    let l = lower_chars(&t);
    let s1 = replace_chars(&l, &to_chars("state"), &to_chars("st"));
    let s2 = replace_chars(&s1, &to_chars("&"), &to_chars("and"));
    chars_to_string(&s2)
}

} // verus!
