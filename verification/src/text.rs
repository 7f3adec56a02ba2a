use vstd::prelude::*;

verus! {

// Team names arrive as `&str` and leave as `String`, but all of the
// normalization logic works on vectors of characters, whose view is the
// same `Seq<char>` as the view of the strings they came from.

/// Collect the characters of a string slice into a vector.
pub fn to_chars(s: &str) -> (r: Vec<char>)
    ensures
        r@ == s@,
{
    let len = s.unicode_len();
    let mut r: Vec<char> = Vec::new();
    let mut i: usize = 0;
    while i < len
        invariant
            i <= len,
            len == s@.len(),
            r@ == s@.subrange(0, i as int),
        decreases len - i,
    {
        r.push(s.get_char(i));
        i += 1;
        proof {
            assert(r@ =~= s@.subrange(0, i as int));
        }
    }
    proof {
        assert(r@ =~= s@);
    }
    r
}

/// Relies on `String::from_iter` over `char`: the resulting string holds
/// exactly the characters of the iterator, in order.
#[verifier::external_body]
pub fn chars_to_string(v: &Vec<char>) -> (r: String)
    ensures
        r@ == v@,
{
    v.iter().collect()
}

/// ASCII lowercasing of a single character; everything outside `A..Z` is
/// left unchanged.
pub open spec fn lower_char(c: char) -> char {
    match c {
        'A' => 'a',
        'B' => 'b',
        'C' => 'c',
        'D' => 'd',
        'E' => 'e',
        'F' => 'f',
        'G' => 'g',
        'H' => 'h',
        'I' => 'i',
        'J' => 'j',
        'K' => 'k',
        'L' => 'l',
        'M' => 'm',
        'N' => 'n',
        'O' => 'o',
        'P' => 'p',
        'Q' => 'q',
        'R' => 'r',
        'S' => 's',
        'T' => 't',
        'U' => 'u',
        'V' => 'v',
        'W' => 'w',
        'X' => 'x',
        'Y' => 'y',
        'Z' => 'z',
        _ => c,
    }
}

pub fn lower_char_exec(c: char) -> (r: char)
    ensures
        r == lower_char(c),
{
    match c {
        'A' => 'a',
        'B' => 'b',
        'C' => 'c',
        'D' => 'd',
        'E' => 'e',
        'F' => 'f',
        'G' => 'g',
        'H' => 'h',
        'I' => 'i',
        'J' => 'j',
        'K' => 'k',
        'L' => 'l',
        'M' => 'm',
        'N' => 'n',
        'O' => 'o',
        'P' => 'p',
        'Q' => 'q',
        'R' => 'r',
        'S' => 's',
        'T' => 't',
        'U' => 'u',
        'V' => 'v',
        'W' => 'w',
        'X' => 'x',
        'Y' => 'y',
        'Z' => 'z',
        _ => c,
    }
}

pub open spec fn lower_seq(s: Seq<char>) -> Seq<char> {
    s.map_values(|c: char| lower_char(c))
}

/// ASCII-lowercase every character of the vector.
pub fn lower_chars(v: &Vec<char>) -> (r: Vec<char>)
    ensures
        r@ == lower_seq(v@),
{
    let mut r: Vec<char> = Vec::new();
    let mut i: usize = 0;
    while i < v.len()
        invariant
            i <= v@.len(),
            r@ == lower_seq(v@.subrange(0, i as int)),
        decreases v@.len() - i,
    {
        r.push(lower_char_exec(v[i]));
        i += 1;
        proof {
            assert(r@ =~= lower_seq(v@.subrange(0, i as int)));
        }
    }
    proof {
        assert(v@.subrange(0, v@.len() as int) =~= v@);
    }
    r
}

/// ASCII whitespace, the only whitespace these data sources produce.
pub open spec fn is_ws(c: char) -> bool {
    c == ' ' || c == '\t' || c == '\n' || c == '\r'
}

pub fn is_ws_exec(c: char) -> (r: bool)
    ensures
        r == is_ws(c),
{
    c == ' ' || c == '\t' || c == '\n' || c == '\r'
}

pub open spec fn is_digit(c: char) -> bool {
    c == '0' || c == '1' || c == '2' || c == '3' || c == '4' || c == '5' || c == '6' || c == '7'
        || c == '8' || c == '9'
}

pub fn is_digit_exec(c: char) -> (r: bool)
    ensures
        r == is_digit(c),
{
    c == '0' || c == '1' || c == '2' || c == '3' || c == '4' || c == '5' || c == '6' || c == '7'
        || c == '8' || c == '9'
}

pub open spec fn all_digits_seq(s: Seq<char>) -> bool {
    forall|k: int| 0 <= k < s.len() ==> is_digit(#[trigger] s[k])
}

/// `pat` occurs in `s` starting at index `i`.
pub open spec fn matches_at(s: Seq<char>, pat: Seq<char>, i: int) -> bool {
    0 <= i && i + pat.len() <= s.len() && s.subrange(i, i + pat.len()) == pat
}

/// `pat` occurs somewhere in `s`.
pub open spec fn has_sub(s: Seq<char>, pat: Seq<char>) -> bool {
    exists|i: int| matches_at(s, pat, i)
}

/// Whether the characters of `v` starting at `i` begin with `pat`.
pub fn starts_with_at(v: &Vec<char>, pat: &Vec<char>, i: usize) -> (r: bool)
    requires
        i <= v@.len(),
    ensures
        r == matches_at(v@, pat@, i as int),
{
    if v.len() - i < pat.len() {
        return false;
    }
    let mut j: usize = 0;
    while j < pat.len()
        invariant
            j <= pat@.len(),
            i + pat@.len() <= v@.len(),
            v@.len() <= usize::MAX,
            forall|k: int| 0 <= k < j ==> v@[i + k] == pat@[k],
        decreases pat@.len() - j,
    {
        if v[i + j] != pat[j] {
            proof {
                assert(v@.subrange(i as int, i + pat@.len())[j as int] == v@[i + j]);
            }
            return false;
        }
        j += 1;
    }
    proof {
        assert(v@.subrange(i as int, i + pat@.len()) =~= pat@);
    }
    true
}

/// Whether `pat` occurs anywhere in `v`.
pub fn has_substring(v: &Vec<char>, pat: &Vec<char>) -> (r: bool)
    ensures
        r == has_sub(v@, pat@),
{
    let mut i: usize = 0;
    while i < v.len()
        invariant
            i <= v@.len(),
            forall|k: int| 0 <= k < i ==> !matches_at(v@, pat@, k),
        decreases v@.len() - i,
    {
        if starts_with_at(v, pat, i) {
            return true;
        }
        i += 1;
    }
    if starts_with_at(v, pat, v.len()) {
        return true;
    }
    proof {
        assert forall|k: int| !matches_at(v@, pat@, k) by {
            if 0 <= k < v@.len() {
            } else if k == v@.len() {
            }
        }
    }
    false
}

/// Append all characters of `src` to `out`.
pub fn push_all(out: &mut Vec<char>, src: &Vec<char>)
    ensures
        final(out)@ == old(out)@ + src@,
{
    let mut j: usize = 0;
    while j < src.len()
        invariant
            j <= src@.len(),
            out@ == old(out)@ + src@.subrange(0, j as int),
        decreases src@.len() - j,
    {
        out.push(src[j]);
        j += 1;
        proof {
            assert(out@ =~= old(out)@ + src@.subrange(0, j as int));
        }
    }
    proof {
        assert(old(out)@ + src@.subrange(0, src@.len() as int) =~= old(out)@ + src@);
    }
}

/// Replacement of every non-overlapping, leftmost-first occurrence of
/// `pat` by `sub`, as `str::replace` does it.
pub open spec fn replace_seq(s: Seq<char>, pat: Seq<char>, sub: Seq<char>) -> Seq<char>
    decreases s.len(),
{
    if pat.len() == 0 || s.len() < pat.len() {
        s
    } else if s.subrange(0, pat.len() as int) == pat {
        sub + replace_seq(s.skip(pat.len() as int), pat, sub)
    } else {
        seq![s[0]] + replace_seq(s.skip(1), pat, sub)
    }
}

pub fn replace_chars(v: &Vec<char>, pat: &Vec<char>, sub: &Vec<char>) -> (r: Vec<char>)
    requires
        pat@.len() > 0,
    ensures
        r@ == replace_seq(v@, pat@, sub@),
{
    let mut out: Vec<char> = Vec::new();
    let mut i: usize = 0;
    proof {
        assert(v@.skip(0) =~= v@);
        assert(out@ + replace_seq(v@, pat@, sub@) =~= replace_seq(v@, pat@, sub@));
    }
    while i < v.len()
        invariant
            i <= v@.len(),
            pat@.len() > 0,
            replace_seq(v@, pat@, sub@) == out@ + replace_seq(v@.skip(i as int), pat@, sub@),
        decreases v@.len() - i,
    {
        let ghost tail = v@.skip(i as int);
        if starts_with_at(v, pat, i) {
            proof {
                assert(tail.subrange(0, pat@.len() as int) =~= v@.subrange(
                    i as int,
                    i + pat@.len(),
                ));
                assert(tail.skip(pat@.len() as int) =~= v@.skip(i + pat@.len()));
            }
            push_all(&mut out, sub);
            i += pat.len();
        } else {
            proof {
                if tail.len() >= pat@.len() {
                    assert(tail.subrange(0, pat@.len() as int) =~= v@.subrange(
                        i as int,
                        i + pat@.len(),
                    ));
                }
                assert(tail.skip(1) =~= v@.skip(i + 1));
                assert(seq![tail[0]] + tail.skip(1) =~= tail);
            }
            out.push(v[i]);
            i += 1;
        }
        proof {
            assert(out@ + replace_seq(v@.skip(i as int), pat@, sub@) =~= replace_seq(
                v@,
                pat@,
                sub@,
            ));
        }
    }
    proof {
        assert(v@.skip(i as int) =~= Seq::<char>::empty());
        assert(out@ =~= replace_seq(v@, pat@, sub@));
    }
    out
}

/// The sequence with leading whitespace removed.
pub open spec fn trim_front(s: Seq<char>) -> Seq<char>
    decreases s.len(),
{
    if s.len() > 0 && is_ws(s[0]) {
        trim_front(s.drop_first())
    } else {
        s
    }
}

/// The sequence with trailing whitespace removed.
pub open spec fn trim_back(s: Seq<char>) -> Seq<char>
    decreases s.len(),
{
    if s.len() > 0 && is_ws(s[s.len() - 1]) {
        trim_back(s.drop_last())
    } else {
        s
    }
}

/// The sequence with both leading and trailing whitespace removed.
pub open spec fn trim_seq(s: Seq<char>) -> Seq<char> {
    trim_back(trim_front(s))
}

pub fn trim_chars(v: &Vec<char>) -> (r: Vec<char>)
    ensures
        r@ == trim_seq(v@),
{
    let mut a: usize = 0;
    proof {
        assert(v@.skip(0) =~= v@);
    }
    while a < v.len() && is_ws_exec(v[a])
        invariant
            a <= v@.len(),
            trim_front(v@) == trim_front(v@.skip(a as int)),
        decreases v@.len() - a,
    {
        proof {
            assert(v@.skip(a as int).drop_first() =~= v@.skip(a + 1));
        }
        a += 1;
    }
    proof {
        assert(trim_front(v@) == v@.skip(a as int));
    }
    let mut b: usize = v.len();
    proof {
        assert(v@.skip(a as int) =~= v@.subrange(a as int, v@.len() as int));
    }
    while b > a && is_ws_exec(v[b - 1])
        invariant
            a <= b <= v@.len(),
            trim_front(v@) == v@.skip(a as int),
            trim_back(v@.skip(a as int)) == trim_back(v@.subrange(a as int, b as int)),
        decreases b,
    {
        proof {
            assert(v@.subrange(a as int, b as int).drop_last() =~= v@.subrange(
                a as int,
                b - 1,
            ));
        }
        b -= 1;
    }
    proof {
        assert(trim_back(v@.subrange(a as int, b as int)) == v@.subrange(a as int, b as int));
    }
    let mut out: Vec<char> = Vec::new();
    let mut i: usize = a;
    while i < b
        invariant
            a <= i <= b <= v@.len(),
            out@ == v@.subrange(a as int, i as int),
        decreases b - i,
    {
        out.push(v[i]);
        i += 1;
        proof {
            assert(out@ =~= v@.subrange(a as int, i as int));
        }
    }
    out
}

/// The characters of `v` from `a` (inclusive) to `b` (exclusive).
pub fn subrange_chars(v: &Vec<char>, a: usize, b: usize) -> (r: Vec<char>)
    requires
        a <= b <= v@.len(),
    ensures
        r@ == v@.subrange(a as int, b as int),
{
    let mut out: Vec<char> = Vec::new();
    let mut i: usize = a;
    while i < b
        invariant
            a <= i <= b <= v@.len(),
            out@ == v@.subrange(a as int, i as int),
        decreases b - i,
    {
        out.push(v[i]);
        i += 1;
        proof {
            assert(out@ =~= v@.subrange(a as int, i as int));
        }
    }
    out
}

/// The vector with trailing whitespace removed.
pub fn trim_end_chars(v: &Vec<char>) -> (r: Vec<char>)
    ensures
        r@ == trim_back(v@),
{
    let mut b: usize = v.len();
    proof {
        assert(v@.subrange(0, v@.len() as int) =~= v@);
    }
    while b > 0 && is_ws_exec(v[b - 1])
        invariant
            b <= v@.len(),
            trim_back(v@) == trim_back(v@.subrange(0, b as int)),
        decreases b,
    {
        proof {
            assert(v@.subrange(0, b as int).drop_last() =~= v@.subrange(0, b - 1));
        }
        b -= 1;
    }
    proof {
        assert(trim_back(v@.subrange(0, b as int)) == v@.subrange(0, b as int));
    }
    subrange_chars(v, 0, b)
}

/// Index of the first occurrence of `c` in `s`, or -1 when absent.
pub open spec fn find_char(s: Seq<char>, c: char) -> int
    decreases s.len(),
{
    if s.len() == 0 {
        -1
    } else if s[0] == c {
        0
    } else {
        let r = find_char(s.drop_first(), c);
        if r < 0 {
            -1
        } else {
            r + 1
        }
    }
}

/// No occurrence of `c` anywhere in `s` means `find_char` fails.
pub proof fn lemma_find_char_none(s: Seq<char>, c: char)
    requires
        forall|k: int| 0 <= k < s.len() ==> s[k] != c,
    ensures
        find_char(s, c) == -1,
    decreases s.len(),
{
    if s.len() > 0 {
        lemma_find_char_none(s.drop_first(), c);
    }
}

/// With a `c`-free prefix and a `c` right after it, the first occurrence
/// in the concatenation is exactly at the end of the prefix.
pub proof fn lemma_find_char_prefix(s1: Seq<char>, s2: Seq<char>, c: char)
    requires
        forall|k: int| 0 <= k < s1.len() ==> s1[k] != c,
        s2.len() > 0,
        s2[0] == c,
    ensures
        find_char(s1 + s2, c) == s1.len(),
    decreases s1.len(),
{
    if s1.len() == 0 {
        assert(s1 + s2 =~= s2);
    } else {
        lemma_find_char_prefix(s1.drop_first(), s2, c);
        assert((s1 + s2).drop_first() =~= s1.drop_first() + s2);
    }
}

/// The pieces of `s` cut at every occurrence of `c`, empty pieces kept,
/// as `str::split` produces them. The bounds guard on the found index is
/// never taken; it makes termination evident.
pub open spec fn split_seq(s: Seq<char>, c: char) -> Seq<Seq<char>>
    decreases s.len(),
{
    let f = find_char(s, c);
    if f < 0 || f >= s.len() {
        seq![s]
    } else {
        seq![s.take(f)] + split_seq(s.skip(f + 1), c)
    }
}

pub open spec fn views_of(r: Seq<Vec<char>>) -> Seq<Seq<char>> {
    r.map_values(|x: Vec<char>| x@)
}

/// `views_of` distributes over `push`.
pub proof fn lemma_views_push(p: Seq<Vec<char>>, x: Vec<char>)
    ensures
        views_of(p.push(x)) == views_of(p) + seq![x@],
{
    assert(views_of(p.push(x)) =~= views_of(p) + seq![x@]);
}

pub fn split_at_char(v: &Vec<char>, c: char) -> (r: Vec<Vec<char>>)
    ensures
        views_of(r@) == split_seq(v@, c),
{
    let mut pieces: Vec<Vec<char>> = Vec::new();
    let mut cur: Vec<char> = Vec::new();
    let mut i: usize = 0;
    proof {
        assert(v@.skip(0) =~= v@);
        assert(cur@ + v@ =~= v@);
        assert(views_of(pieces@) + split_seq(v@, c) =~= split_seq(v@, c));
    }
    while i < v.len()
        invariant
            i <= v@.len(),
            forall|k: int| 0 <= k < cur@.len() ==> cur@[k] != c,
            split_seq(v@, c) == views_of(pieces@) + split_seq(cur@ + v@.skip(i as int), c),
        decreases v@.len() - i,
    {
        let ghost mid = cur@ + v@.skip(i as int);
        let ghost oldcur = cur@;
        let ghost oldi = i as int;
        if v[i] == c {
            proof {
                lemma_find_char_prefix(cur@, v@.skip(i as int), c);
                assert(find_char(mid, c) == oldcur.len());
                assert(mid.take(oldcur.len() as int) =~= oldcur);
                assert(mid.skip(oldcur.len() as int + 1) =~= v@.skip(oldi + 1));
                assert(split_seq(mid, c) == seq![oldcur] + split_seq(v@.skip(oldi + 1), c));
            }
            pieces.push(cur);
            cur = Vec::new();
            i += 1;
            proof {
                lemma_views_push(pieces@.drop_last(), pieces@.last());
                assert(pieces@.drop_last().push(pieces@.last()) =~= pieces@);
                assert(views_of(pieces@) == views_of(pieces@.drop_last()) + seq![oldcur]);
                assert(cur@ + v@.skip(i as int) =~= v@.skip(i as int));
                assert(views_of(pieces@.drop_last()) + (seq![oldcur] + split_seq(
                    v@.skip(i as int),
                    c,
                )) =~= views_of(pieces@) + split_seq(v@.skip(i as int), c));
            }
        } else {
            let x = v[i];
            cur.push(x);
            i += 1;
            proof {
                assert(cur@ + v@.skip(i as int) =~= mid);
            }
        }
    }
    proof {
        assert(cur@ + v@.skip(i as int) =~= cur@);
        lemma_find_char_none(cur@, c);
        assert(split_seq(cur@, c) == seq![cur@]);
    }
    let ghost oldpieces = pieces@;
    let ghost oldcur = cur@;
    pieces.push(cur);
    proof {
        lemma_views_push(oldpieces, pieces@.last());
        assert(views_of(pieces@) == views_of(oldpieces) + seq![oldcur]);
        assert(views_of(oldpieces) + seq![oldcur] =~= views_of(oldpieces) + split_seq(oldcur, c));
        assert(views_of(pieces@) == split_seq(v@, c));
    }
    pieces
}

/// The pieces joined back together with `c` between consecutive pieces.
pub open spec fn join_seq(parts: Seq<Seq<char>>, c: char) -> Seq<char>
    decreases parts.len(),
{
    if parts.len() == 0 {
        Seq::empty()
    } else if parts.len() == 1 {
        parts[0]
    } else {
        parts[0] + seq![c] + join_seq(parts.drop_first(), c)
    }
}

pub proof fn lemma_join_push(parts: Seq<Seq<char>>, x: Seq<char>, c: char)
    ensures
        parts.len() == 0 ==> join_seq(parts.push(x), c) == x,
        parts.len() > 0 ==> join_seq(parts.push(x), c) == join_seq(parts, c) + seq![c] + x,
    decreases parts.len(),
{
    if parts.len() == 0 {
        assert(join_seq(parts.push(x), c) == parts.push(x)[0]);
        assert(parts.push(x)[0] == x);
    } else {
        lemma_join_push(parts.drop_first(), x, c);
        assert(parts.push(x).drop_first() =~= parts.drop_first().push(x));
        if parts.len() == 1 {
            assert(join_seq(parts.push(x), c) == parts[0] + seq![c] + x);
            assert(join_seq(parts, c) == parts[0]);
        } else {
            assert(join_seq(parts.push(x), c) == parts[0] + seq![c] + join_seq(
                parts.drop_first().push(x),
                c,
            ));
            assert(parts[0] + seq![c] + (join_seq(parts.drop_first(), c) + seq![c] + x) =~= (
            parts[0] + seq![c] + join_seq(parts.drop_first(), c)) + seq![c] + x);
        }
    }
}

pub fn join_with(parts: &Vec<Vec<char>>, c: char) -> (r: Vec<char>)
    ensures
        r@ == join_seq(views_of(parts@), c),
{
    let mut out: Vec<char> = Vec::new();
    let mut i: usize = 0;
    while i < parts.len()
        invariant
            i <= parts@.len(),
            out@ == join_seq(views_of(parts@.take(i as int)), c),
        decreases parts@.len() - i,
    {
        let ghost prefix = views_of(parts@.take(i as int));
        if i > 0 {
            out.push(c);
        }
        push_all(&mut out, &parts[i]);
        i += 1;
        proof {
            assert(views_of(parts@.take(i as int)) =~= prefix.push(parts@[i - 1]@));
            lemma_join_push(prefix, parts@[i - 1]@, c);
            if prefix.len() == 0 {
                assert(out@ =~= join_seq(views_of(parts@.take(i as int)), c));
            } else {
                assert(out@ =~= join_seq(views_of(parts@.take(i as int)), c));
            }
        }
    }
    proof {
        assert(parts@.take(parts@.len() as int) =~= parts@);
    }
    out
}

/// Length of the maximal whitespace-free prefix of `s`.
pub open spec fn run_len(s: Seq<char>) -> int
    decreases s.len(),
{
    if s.len() == 0 || is_ws(s[0]) {
        0
    } else {
        1 + run_len(s.drop_first())
    }
}

pub proof fn lemma_run_len_bounds(s: Seq<char>)
    ensures
        0 <= run_len(s) <= s.len(),
    decreases s.len(),
{
    if s.len() > 0 && !is_ws(s[0]) {
        lemma_run_len_bounds(s.drop_first());
    }
}

/// With a whitespace-free, non-empty prefix followed by nothing or by a
/// whitespace character, the maximal run is exactly the prefix.
pub proof fn lemma_run_len_prefix(s1: Seq<char>, s2: Seq<char>)
    requires
        forall|k: int| 0 <= k < s1.len() ==> !is_ws(s1[k]),
        s2.len() == 0 || is_ws(s2[0]),
    ensures
        run_len(s1 + s2) == s1.len(),
    decreases s1.len(),
{
    if s1.len() == 0 {
        assert(s1 + s2 =~= s2);
    } else {
        lemma_run_len_prefix(s1.drop_first(), s2);
        assert((s1 + s2).drop_first() =~= s1.drop_first() + s2);
    }
}

/// The whitespace-separated words of `s`, in order, with no empty words,
/// as `str::split_whitespace` produces them. The bounds guard on the run
/// length is never taken; it makes termination evident.
pub open spec fn split_ws_seq(s: Seq<char>) -> Seq<Seq<char>>
    decreases s.len(),
{
    if s.len() == 0 {
        Seq::empty()
    } else if is_ws(s[0]) {
        split_ws_seq(s.drop_first())
    } else {
        let rl = run_len(s);
        if rl < 1 || rl > s.len() {
            Seq::empty()
        } else {
            seq![s.take(rl)] + split_ws_seq(s.skip(rl))
        }
    }
}

pub fn split_ws_chars(v: &Vec<char>) -> (r: Vec<Vec<char>>)
    ensures
        views_of(r@) == split_ws_seq(v@),
{
    let mut pieces: Vec<Vec<char>> = Vec::new();
    let mut cur: Vec<char> = Vec::new();
    let mut i: usize = 0;
    proof {
        assert(v@.skip(0) =~= v@);
        assert(cur@ + v@ =~= v@);
        assert(views_of(pieces@) + split_ws_seq(v@) =~= split_ws_seq(v@));
    }
    while i < v.len()
        invariant
            i <= v@.len(),
            forall|k: int| 0 <= k < cur@.len() ==> !is_ws(cur@[k]),
            split_ws_seq(v@) == views_of(pieces@) + split_ws_seq(cur@ + v@.skip(i as int)),
        decreases v@.len() - i,
    {
        let ghost mid = cur@ + v@.skip(i as int);
        let ghost oldcur = cur@;
        let ghost oldi = i as int;
        if is_ws_exec(v[i]) {
            proof {
                assert(v@.skip(oldi).len() > 0);
                assert(v@.skip(oldi)[0] == v@[oldi]);
                assert(v@.skip(oldi).drop_first() =~= v@.skip(oldi + 1));
                assert(split_ws_seq(v@.skip(oldi)) == split_ws_seq(v@.skip(oldi + 1)));
            }
            if cur.len() > 0 {
                proof {
                    lemma_run_len_prefix(oldcur, v@.skip(oldi));
                    lemma_run_len_bounds(mid);
                    assert(mid[0] == oldcur[0]);
                    assert(run_len(mid) == oldcur.len());
                    assert(mid.take(oldcur.len() as int) =~= oldcur);
                    assert(mid.skip(oldcur.len() as int) =~= v@.skip(oldi));
                    assert(split_ws_seq(mid) == seq![oldcur] + split_ws_seq(v@.skip(oldi)));
                }
                pieces.push(cur);
                cur = Vec::new();
                i += 1;
                proof {
                    lemma_views_push(pieces@.drop_last(), pieces@.last());
                    assert(pieces@.drop_last().push(pieces@.last()) =~= pieces@);
                    assert(views_of(pieces@) == views_of(pieces@.drop_last()) + seq![oldcur]);
                    assert(cur@ + v@.skip(i as int) =~= v@.skip(i as int));
                    assert(views_of(pieces@.drop_last()) + (seq![oldcur] + split_ws_seq(
                        v@.skip(i as int),
                    )) =~= views_of(pieces@) + split_ws_seq(v@.skip(i as int)));
                }
            } else {
                proof {
                    assert(mid =~= v@.skip(oldi));
                }
                i += 1;
                proof {
                    assert(cur@ + v@.skip(i as int) =~= v@.skip(i as int));
                }
            }
        } else {
            let x = v[i];
            cur.push(x);
            i += 1;
            proof {
                assert(cur@ + v@.skip(i as int) =~= mid);
            }
        }
    }
    proof {
        assert(cur@ + v@.skip(i as int) =~= cur@);
    }
    if cur.len() > 0 {
        proof {
            lemma_run_len_prefix(cur@, Seq::<char>::empty());
            assert(cur@ + Seq::<char>::empty() =~= cur@);
            assert(run_len(cur@) == cur@.len());
            assert(cur@.take(cur@.len() as int) =~= cur@);
            assert(cur@.skip(cur@.len() as int) =~= Seq::<char>::empty());
            assert(split_ws_seq(Seq::<char>::empty()) == Seq::<Seq<char>>::empty());
            assert(split_ws_seq(cur@) =~= seq![cur@]);
        }
        let ghost oldpieces = pieces@;
        let ghost oldcur = cur@;
        pieces.push(cur);
        proof {
            lemma_views_push(oldpieces, pieces@.last());
            assert(views_of(pieces@) == views_of(oldpieces) + seq![oldcur]);
            assert(views_of(oldpieces) + seq![oldcur] =~= views_of(oldpieces) + split_ws_seq(
                oldcur,
            ));
            assert(views_of(pieces@) == split_ws_seq(v@));
        }
    } else {
        proof {
            assert(split_ws_seq(cur@) == Seq::<Seq<char>>::empty());
            assert(views_of(pieces@) =~= views_of(pieces@) + Seq::<Seq<char>>::empty());
            assert(views_of(pieces@) == split_ws_seq(v@));
        }
    }
    pieces
}

/// Whitespace normalization: the whitespace-separated words of `s`,
/// joined by single spaces. Leading and trailing whitespace disappears
/// and every internal run collapses to one space.
pub open spec fn collapse_ws_seq(s: Seq<char>) -> Seq<char> {
    join_seq(split_ws_seq(s), ' ')
}

pub fn collapse_ws_chars(v: &Vec<char>) -> (r: Vec<char>)
    ensures
        r@ == collapse_ws_seq(v@),
{
    let words = split_ws_chars(v);
    join_with(&words, ' ')
}

/// Index of the first decimal digit in `s`, or -1 when there is none.
pub open spec fn find_digit(s: Seq<char>) -> int
    decreases s.len(),
{
    if s.len() == 0 {
        -1
    } else if is_digit(s[0]) {
        0
    } else {
        let r = find_digit(s.drop_first());
        if r < 0 {
            -1
        } else {
            r + 1
        }
    }
}

pub fn find_digit_exec(v: &Vec<char>) -> (r: Option<usize>)
    ensures
        match r {
            Some(ix) => find_digit(v@) == ix && ix < v@.len(),
            None => find_digit(v@) == -1,
        },
{
    let mut i: usize = 0;
    proof {
        assert(v@.skip(0) =~= v@);
    }
    while i < v.len()
        invariant
            i <= v@.len(),
            find_digit(v@) == (if find_digit(v@.skip(i as int)) < 0 {
                -1int
            } else {
                find_digit(v@.skip(i as int)) + i
            }),
        decreases v@.len() - i,
    {
        let ghost tail = v@.skip(i as int);
        if is_digit_exec(v[i]) {
            proof {
                assert(tail[0] == v@[i as int]);
                assert(find_digit(tail) == 0);
            }
            return Some(i);
        }
        i += 1;
        proof {
            assert(tail[0] == v@[i - 1]);
            assert(v@.skip(i as int) =~= tail.drop_first());
        }
    }
    proof {
        assert(v@.skip(i as int) =~= Seq::<char>::empty());
    }
    None
}

/// Index of the first occurrence of `pat` in `s`, or -1 when absent.
pub open spec fn find_sub(s: Seq<char>, pat: Seq<char>) -> int
    decreases s.len(),
{
    if pat.len() == 0 || s.len() < pat.len() {
        -1
    } else if s.take(pat.len() as int) == pat {
        0
    } else {
        let r = find_sub(s.drop_first(), pat);
        if r < 0 {
            -1
        } else {
            r + 1
        }
    }
}

pub proof fn lemma_find_sub_at(s: Seq<char>, pat: Seq<char>, k: int)
    requires
        pat.len() > 0,
        matches_at(s, pat, k),
        forall|q: int| 0 <= q < k ==> !matches_at(s, pat, q),
    ensures
        find_sub(s, pat) == k,
    decreases k,
{
    assert(s.len() >= pat.len());
    if k == 0 {
        assert(s.take(pat.len() as int) =~= s.subrange(0, pat.len() as int));
    } else {
        assert(!matches_at(s, pat, 0));
        assert(s.take(pat.len() as int) =~= s.subrange(0, pat.len() as int));
        assert(s.take(pat.len() as int) != pat);
        assert(matches_at(s.drop_first(), pat, k - 1)) by {
            assert(s.drop_first().subrange(k - 1, k - 1 + pat.len()) =~= s.subrange(
                k,
                k + pat.len(),
            ));
        }
        assert forall|q: int| 0 <= q < k - 1 implies !matches_at(s.drop_first(), pat, q) by {
            if matches_at(s.drop_first(), pat, q) {
                assert(s.subrange(q + 1, q + 1 + pat.len()) =~= s.drop_first().subrange(
                    q,
                    q + pat.len(),
                ));
                assert(matches_at(s, pat, q + 1));
            }
        }
        lemma_find_sub_at(s.drop_first(), pat, k - 1);
    }
}

pub proof fn lemma_find_sub_none(s: Seq<char>, pat: Seq<char>)
    requires
        forall|q: int| !matches_at(s, pat, q),
    ensures
        find_sub(s, pat) == -1,
    decreases s.len(),
{
    if pat.len() > 0 && s.len() >= pat.len() {
        assert(!matches_at(s, pat, 0));
        assert(s.take(pat.len() as int) =~= s.subrange(0, pat.len() as int));
        assert forall|q: int| !matches_at(s.drop_first(), pat, q) by {
            if 0 <= q && q + pat.len() <= s.drop_first().len() {
                if matches_at(s.drop_first(), pat, q) {
                    assert(s.subrange(q + 1, q + 1 + pat.len()) =~= s.drop_first().subrange(
                        q,
                        q + pat.len(),
                    ));
                    assert(matches_at(s, pat, q + 1));
                }
            }
        }
        lemma_find_sub_none(s.drop_first(), pat);
    }
}

/// First index where `pat` occurs in `v`, or nothing.
pub fn find_sub_exec(v: &Vec<char>, pat: &Vec<char>) -> (r: Option<usize>)
    requires
        pat@.len() > 0,
    ensures
        match r {
            Some(ix) => find_sub(v@, pat@) == ix && ix + pat@.len() <= v@.len(),
            None => find_sub(v@, pat@) == -1,
        },
{
    let mut i: usize = 0;
    while i < v.len()
        invariant
            i <= v@.len(),
            pat@.len() > 0,
            forall|q: int| 0 <= q < i ==> !matches_at(v@, pat@, q),
        decreases v@.len() - i,
    {
        if starts_with_at(v, pat, i) {
            proof {
                lemma_find_sub_at(v@, pat@, i as int);
            }
            return Some(i);
        }
        i += 1;
    }
    proof {
        assert forall|q: int| !matches_at(v@, pat@, q) by {
            if 0 <= q && q + pat@.len() <= v@.len() {
                assert(q < v@.len());
            }
        }
        lemma_find_sub_none(v@, pat@);
    }
    None
}

/// First index of `c` in `v`, or nothing.
pub fn find_char_exec(v: &Vec<char>, c: char) -> (r: Option<usize>)
    ensures
        match r {
            Some(ix) => find_char(v@, c) == ix && ix < v@.len(),
            None => find_char(v@, c) == -1,
        },
{
    let mut i: usize = 0;
    proof {
        assert(v@.skip(0) =~= v@);
    }
    while i < v.len()
        invariant
            i <= v@.len(),
            find_char(v@, c) == (if find_char(v@.skip(i as int), c) < 0 {
                -1int
            } else {
                find_char(v@.skip(i as int), c) + i
            }),
        decreases v@.len() - i,
    {
        let ghost tail = v@.skip(i as int);
        if v[i] == c {
            proof {
                assert(tail[0] == v@[i as int]);
                assert(find_char(tail, c) == 0);
            }
            return Some(i);
        }
        i += 1;
        proof {
            assert(tail[0] == v@[i - 1]);
            assert(v@.skip(i as int) =~= tail.drop_first());
        }
    }
    proof {
        assert(v@.skip(i as int) =~= Seq::<char>::empty());
    }
    None
}

/// The pieces of `s` cut at every non-overlapping, leftmost-first
/// occurrence of `pat`, empty pieces kept, as `str::split` with a string
/// pattern produces them. The bounds guard on the found index is never
/// taken; it makes termination evident.
pub open spec fn split_pat(s: Seq<char>, pat: Seq<char>) -> Seq<Seq<char>>
    decreases s.len(),
{
    let f = find_sub(s, pat);
    if pat.len() == 0 || f < 0 || f + pat.len() > s.len() {
        seq![s]
    } else {
        seq![s.take(f)] + split_pat(s.skip(f + pat.len()), pat)
    }
}

pub fn split_at_pat(v: &Vec<char>, pat: &Vec<char>) -> (r: Vec<Vec<char>>)
    requires
        pat@.len() > 0,
    ensures
        views_of(r@) == split_pat(v@, pat@),
{
    let mut pieces: Vec<Vec<char>> = Vec::new();
    let mut cur: Vec<char> = Vec::new();
    let mut i: usize = 0;
    let ghost s = v@;
    proof {
        assert(s.skip(0) =~= s);
        assert(views_of(pieces@) + split_pat(s, pat@) =~= split_pat(s, pat@));
    }
    while i < v.len()
        invariant
            i <= s.len(),
            s == v@,
            pat@.len() > 0,
            i >= cur@.len(),
            cur@ == s.subrange(i - cur@.len(), i as int),
            forall|q: int| i - cur@.len() <= q < i ==> !matches_at(s, pat@, q),
            split_pat(s, pat@) == views_of(pieces@) + split_pat(s.skip(i - cur@.len()), pat@),
        decreases s.len() - i,
    {
        let ghost cut = i - cur@.len();
        if starts_with_at(v, pat, i) {
            proof {
                assert forall|q: int| 0 <= q < i - cut implies !matches_at(
                    s.skip(cut),
                    pat@,
                    q,
                ) by {
                    if matches_at(s.skip(cut), pat@, q) {
                        assert(s.subrange(cut + q, cut + q + pat@.len()) =~= s.skip(cut).subrange(
                            q,
                            q + pat@.len(),
                        ));
                        assert(matches_at(s, pat@, cut + q));
                    }
                }
                assert(matches_at(s.skip(cut), pat@, i - cut)) by {
                    assert(s.skip(cut).subrange(i - cut, i - cut + pat@.len()) =~= s.subrange(
                        i as int,
                        i + pat@.len(),
                    ));
                }
                lemma_find_sub_at(s.skip(cut), pat@, i - cut);
                assert(s.skip(cut).take(i - cut) =~= cur@);
                assert(s.skip(cut).skip(i - cut + pat@.len()) =~= s.skip(i + pat@.len()));
                assert(split_pat(s.skip(cut), pat@) == seq![cur@] + split_pat(
                    s.skip(i + pat@.len()),
                    pat@,
                ));
            }
            let ghost oldcur = cur@;
            pieces.push(cur);
            cur = Vec::new();
            i += pat.len();
            proof {
                lemma_views_push(pieces@.drop_last(), pieces@.last());
                assert(pieces@.drop_last().push(pieces@.last()) =~= pieces@);
                assert(views_of(pieces@) == views_of(pieces@.drop_last()) + seq![oldcur]);
                assert(cur@ =~= s.subrange(i as int, i as int));
                assert(views_of(pieces@.drop_last()) + (seq![oldcur] + split_pat(
                    s.skip(i as int),
                    pat@,
                )) =~= views_of(pieces@) + split_pat(s.skip(i as int), pat@));
            }
        } else {
            let x = v[i];
            cur.push(x);
            i += 1;
            proof {
                assert(cur@ =~= s.subrange(i - cur@.len(), i as int));
            }
        }
    }
    proof {
        let cut = i - cur@.len();
        assert forall|q: int| !matches_at(s.skip(cut), pat@, q) by {
            if 0 <= q && q + pat@.len() <= s.skip(cut).len() {
                if matches_at(s.skip(cut), pat@, q) {
                    assert(s.subrange(cut + q, cut + q + pat@.len()) =~= s.skip(cut).subrange(
                        q,
                        q + pat@.len(),
                    ));
                    assert(matches_at(s, pat@, cut + q));
                    assert(cut + q + pat@.len() <= s.len());
                    assert(cut + q < i);
                }
            }
        }
        lemma_find_sub_none(s.skip(i - cur@.len()), pat@);
        assert(split_pat(s.skip(i - cur@.len()), pat@) == seq![s.skip(i - cur@.len())]);
        assert(cur@ =~= s.skip(i - cur@.len()));
    }
    let ghost oldpieces = pieces@;
    let ghost oldcur = cur@;
    pieces.push(cur);
    proof {
        lemma_views_push(oldpieces, pieces@.last());
        assert(views_of(pieces@) == views_of(oldpieces) + seq![oldcur]);
        assert(views_of(pieces@) == split_pat(s, pat@));
    }
    pieces
}

/// The pieces whose trimmed content is non-empty, in order.
pub open spec fn keep_nonblank(parts: Seq<Seq<char>>) -> Seq<Seq<char>>
    decreases parts.len(),
{
    if parts.len() == 0 {
        Seq::empty()
    } else {
        keep_nonblank(parts.drop_last()) + (if trim_seq(parts.last()).len() > 0 {
            seq![parts.last()]
        } else {
            Seq::<Seq<char>>::empty()
        })
    }
}

pub fn filter_nonblank(parts: Vec<Vec<char>>) -> (r: Vec<Vec<char>>)
    ensures
        views_of(r@) == keep_nonblank(views_of(parts@)),
{
    let ghost orig = views_of(parts@);
    let mut parts = parts;
    let mut out: Vec<Vec<char>> = Vec::new();
    let mut i: usize = 0;
    let n = parts.len();
    proof {
        assert(views_of(parts@.skip(0)) =~= orig.skip(0));
        assert(orig.skip(0) =~= orig);
        assert(views_of(out@) =~= keep_nonblank(orig.take(0)));
    }
    while parts.len() > 0
        invariant
            i + parts@.len() == n,
            orig.len() == n,
            views_of(parts@) == orig.skip(i as int),
            views_of(out@) == keep_nonblank(orig.take(i as int)),
        decreases parts@.len(),
    {
        let ghost before = parts@;
        let x = parts.remove(0);
        proof {
            assert(x@ == views_of(before)[0]);
            assert(x@ == orig[i as int]);
            assert(views_of(parts@) =~= views_of(before).drop_first());
            assert(views_of(before).drop_first() =~= orig.skip(i as int + 1));
        }
        let t = trim_chars(&x);
        let keep = t.len() > 0;
        if keep {
            let ghost oldout = out@;
            out.push(x);
            proof {
                lemma_views_push(oldout, out@.last());
            }
        }
        i += 1;
        proof {
            assert(orig.take(i as int).drop_last() =~= orig.take(i as int - 1));
            assert(orig.take(i as int).last() == orig[i as int - 1]);
            assert(views_of(out@) =~= keep_nonblank(orig.take(i as int)));
        }
    }
    proof {
        assert(orig.take(orig.len() as int) =~= orig);
    }
    out
}

/// The two vectors hold the same characters.
pub fn chars_eq(a: &Vec<char>, b: &Vec<char>) -> (r: bool)
    ensures
        r == (a@ == b@),
{
    if a.len() != b.len() {
        return false;
    }
    let mut i: usize = 0;
    while i < a.len()
        invariant
            i <= a@.len(),
            a@.len() == b@.len(),
            forall|k: int| 0 <= k < i ==> a@[k] == b@[k],
        decreases a@.len() - i,
    {
        if a[i] != b[i] {
            return false;
        }
        i += 1;
    }
    proof {
        assert(a@ =~= b@);
    }
    true
}

} // verus!
