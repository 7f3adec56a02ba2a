use vstd::prelude::*;
use crate::text::{
    chars_eq, chars_to_string, has_sub, has_substring, join_seq, join_with, lower_chars,
    lower_seq, replace_chars, replace_seq, to_chars, trim_chars, trim_seq, views_of,
};

verus! {

// A TeamKey is a canonical join key derived from a team's display name.
// Two display names are meant to refer to the same school exactly when
// their keys are equal; the derivation is the best-effort heuristic the
// data sources require, stated here as spec functions so that the
// matching layers can speak about it precisely.

/// The normalization applied to prediction-source team names: trim,
/// ASCII-lowercase, then rewrite "state" to "st", "&" to "and" and
/// spaces to underscores.
pub open spec fn normalize_spec(s: Seq<char>) -> Seq<char> {
    replace_seq(
        replace_seq(
            replace_seq(lower_seq(trim_seq(s)), "state"@, "st"@),
            "&"@,
            "and"@,
        ),
        " "@,
        "_"@,
    )
}

/// Normalize a team name for consistent matching across data sources.
pub fn normalize_team_name(name: &str) -> (r: String)
    ensures
        r@ == normalize_spec(name@),
{
    proof {
        reveal_strlit("state");
        reveal_strlit("&");
        reveal_strlit(" ");
    }
    let v = to_chars(name);
    let t = trim_chars(&v);
    let l = lower_chars(&t);
    let s1 = replace_chars(&l, &to_chars("state"), &to_chars("st"));
    let s2 = replace_chars(&s1, &to_chars("&"), &to_chars("and"));
    let s3 = replace_chars(&s2, &to_chars(" "), &to_chars("_"));
    chars_to_string(&s3)
}

/// First index of `w` among `parts`, or -1 when absent.
pub open spec fn find_piece(parts: Seq<Seq<char>>, w: Seq<char>) -> int
    decreases parts.len(),
{
    if parts.len() == 0 {
        -1
    } else if parts[0] == w {
        0
    } else {
        let r = find_piece(parts.drop_first(), w);
        if r < 0 {
            -1
        } else {
            r + 1
        }
    }
}

pub proof fn lemma_find_piece_bounds(parts: Seq<Seq<char>>, w: Seq<char>)
    ensures
        find_piece(parts, w) == -1 || 0 <= find_piece(parts, w) < parts.len(),
    decreases parts.len(),
{
    if parts.len() > 0 && parts[0] != w {
        lemma_find_piece_bounds(parts.drop_first(), w);
    }
}

fn find_piece_exec(parts: &Vec<Vec<char>>, w: &Vec<char>) -> (r: Option<usize>)
    ensures
        match r {
            Some(ix) => find_piece(views_of(parts@), w@) == ix,
            None => find_piece(views_of(parts@), w@) == -1,
        },
{
    let mut i: usize = 0;
    proof {
        assert(parts@.skip(0) =~= parts@);
        assert(views_of(parts@.skip(0)) =~= views_of(parts@));
    }
    while i < parts.len()
        invariant
            i <= parts@.len(),
            find_piece(views_of(parts@), w@) == (if find_piece(
                views_of(parts@.skip(i as int)),
                w@,
            ) < 0 {
                -1int
            } else {
                find_piece(views_of(parts@.skip(i as int)), w@) + i
            }),
        decreases parts@.len() - i,
    {
        let ghost tail = views_of(parts@.skip(i as int));
        if chars_eq(&parts[i], w) {
            proof {
                assert(tail[0] == parts@[i as int]@);
                assert(find_piece(tail, w@) == 0);
            }
            return Some(i);
        }
        i += 1;
        proof {
            assert(tail[0] == parts@[i - 1]@);
            assert(views_of(parts@.skip(i as int)) =~= tail.drop_first());
        }
    }
    proof {
        assert(views_of(parts@.skip(i as int)) =~= Seq::<Seq<char>>::empty());
    }
    None
}

/// The word heuristic applied to an already normalized name: keep
/// everything up to a "st" token; expand a few known second tokens;
/// keep a recognized two-word school whole; otherwise keep only the
/// first token. A single-token name passes through, except the bare
/// "mississippi", which has its own key.
pub open spec fn school_key_tokens(n: Seq<char>) -> Seq<char> {
    let parts = crate::text::split_seq(n, '_');
    if parts.len() >= 2 {
        let st = find_piece(parts, "st"@);
        if st >= 0 {
            join_seq(parts.take(st + 1), '_')
        } else if parts[1] == "dame"@ {
            parts[0] + "_"@ + parts[1]
        } else if parts[1] == "ill"@ {
            parts[0] + "_"@ + "illinois"@
        } else if parts[1] == "mich"@ {
            parts[0] + "_"@ + "michigan"@
        } else if parts[1] == "va"@ {
            parts[0] + "_"@ + "virginia"@
        } else if parts[1] == "aandm"@ {
            parts[0] + "_"@ + parts[1]
        } else if parts[1] == "forest"@ || parts[1] == "texas"@ || parts[1] == "force"@
            || parts[1] == "mexico"@ || parts[1] == "kentucky"@ || parts[1] == "virginia"@
            || parts[1] == "michigan"@ || parts[1] == "illinois"@ || parts[1] == "tech"@
            || parts[1] == "carolina"@ || parts[1] == "mississippi"@ || parts[1] == "monroe"@
            || parts[1] == "miss"@ {
            parts[0] + "_"@ + parts[1]
        } else {
            parts[0]
        }
    } else {
        if n == "mississippi"@ {
            "ole_miss"@
        } else {
            n
        }
    }
}

/// The full school key of a raw display name: a handful of literal
/// overrides for schools whose names differ structurally across sources,
/// then normalization and the token heuristic.
pub open spec fn school_key(name: Seq<char>) -> Seq<char> {
    if has_sub(name, "Central Florida"@) || has_sub(name, "UCF"@) {
        "ucf"@
    } else if has_sub(name, "Texas-San Antonio"@) || has_sub(name, "UTSA"@) {
        "utsa"@
    } else if has_sub(name, "Troy"@) {
        "troy"@
    } else if has_sub(name, "Connecticut"@) {
        "uconn"@
    } else if name == "Kent"@ {
        "kent_st"@
    } else if name == "Southern Miss"@ {
        "southern_mississippi"@
    } else {
        school_key_tokens(normalize_spec(name))
    }
}

fn copy_chars(v: &Vec<char>) -> (r: Vec<char>)
    ensures
        r@ == v@,
{
    let mut out: Vec<char> = Vec::new();
    crate::text::push_all(&mut out, v);
    proof {
        assert(out@ =~= v@);
    }
    out
}

/// The concatenation `first`, underscore, `second`.
pub(crate) fn join_two(first: &Vec<char>, second: &Vec<char>) -> (r: Vec<char>)
    ensures
        r@ == first@ + "_"@ + second@,
{
    proof {
        reveal_strlit("_");
    }
    let mut out = copy_chars(first);
    out.push('_');
    crate::text::push_all(&mut out, second);
    proof {
        assert(out@ =~= first@ + "_"@ + second@);
    }
    out
}

/// Extract the primary school identifier from a full display name, the
/// join key used to match odds, predictions and results records.
pub fn extract_school_name(team_name: &str) -> (r: String)
    ensures
        r@ == school_key(team_name@),
{
    let v = to_chars(team_name);
    if has_substring(&v, &to_chars("Central Florida")) || has_substring(&v, &to_chars("UCF")) {
        return String::from_str("ucf");
    }
    if has_substring(&v, &to_chars("Texas-San Antonio")) || has_substring(&v, &to_chars("UTSA")) {
        return String::from_str("utsa");
    }
    if has_substring(&v, &to_chars("Troy")) {
        return String::from_str("troy");
    }
    if has_substring(&v, &to_chars("Connecticut")) {
        return String::from_str("uconn");
    }
    if chars_eq(&v, &to_chars("Kent")) {
        return String::from_str("kent_st");
    }
    if chars_eq(&v, &to_chars("Southern Miss")) {
        return String::from_str("southern_mississippi");
    }
    let normalized = normalize_team_name(team_name);
    let n = to_chars(normalized.as_str());
    let parts = crate::text::split_at_char(&n, '_');
    let ghost pviews = views_of(parts@);
    if parts.len() >= 2 {
        let st = find_piece_exec(&parts, &to_chars("st"));
        if let Some(ix) = st {
            proof {
                lemma_find_piece_bounds(pviews, "st"@);
            }
            let mut prefix: Vec<Vec<char>> = Vec::new();
            let mut i: usize = 0;
            let take: usize = ix + 1;
            proof {
                assert(views_of(prefix@) =~= pviews.take(0));
            }
            while i < take
                invariant
                    i <= take,
                    take <= parts@.len(),
                    pviews == views_of(parts@),
                    views_of(prefix@) == pviews.take(i as int),
                decreases take - i,
            {
                let piece = copy_chars(&parts[i]);
                let ghost oldp = prefix@;
                prefix.push(piece);
                i += 1;
                proof {
                    crate::text::lemma_views_push(oldp, prefix@.last());
                    assert(oldp.push(prefix@.last()) =~= prefix@);
                    assert(prefix@.last()@ == pviews[i - 1]);
                    assert(pviews.take(i as int) =~= pviews.take(i - 1).push(pviews[i - 1]));
                    assert(views_of(prefix@) =~= pviews.take(i as int));
                }
            }
            let joined = join_with(&prefix, '_');
            return chars_to_string(&joined);
        }
        let second = &parts[1];
        let first = &parts[0];
        proof {
            assert(second@ == pviews[1]);
            assert(first@ == pviews[0]);
        }
        if chars_eq(second, &to_chars("dame")) {
            return chars_to_string(&join_two(first, second));
        }
        if chars_eq(second, &to_chars("ill")) {
            return chars_to_string(&join_two(first, &to_chars("illinois")));
        }
        if chars_eq(second, &to_chars("mich")) {
            return chars_to_string(&join_two(first, &to_chars("michigan")));
        }
        if chars_eq(second, &to_chars("va")) {
            return chars_to_string(&join_two(first, &to_chars("virginia")));
        }
        if chars_eq(second, &to_chars("aandm")) {
            return chars_to_string(&join_two(first, second));
        }
        if chars_eq(second, &to_chars("forest")) || chars_eq(second, &to_chars("texas"))
            || chars_eq(second, &to_chars("force")) || chars_eq(second, &to_chars("mexico"))
            || chars_eq(second, &to_chars("kentucky")) || chars_eq(second, &to_chars("virginia"))
            || chars_eq(second, &to_chars("michigan")) || chars_eq(second, &to_chars("illinois"))
            || chars_eq(second, &to_chars("tech")) || chars_eq(second, &to_chars("carolina"))
            || chars_eq(second, &to_chars("mississippi")) || chars_eq(second, &to_chars("monroe"))
            || chars_eq(second, &to_chars("miss")) {
            return chars_to_string(&join_two(first, second));
        }
        return chars_to_string(first);
    }
    if chars_eq(&n, &to_chars("mississippi")) {
        return String::from_str("ole_miss");
    }
    chars_to_string(&n)
}

} // verus!
