use vstd::prelude::*;
use crate::text::{all_digits_seq, find_char, is_digit, is_digit_exec, subrange_chars};
use crate::MICRO;

verus! {

pub open spec fn digit_val(c: char) -> int {
    if c == '0' {
        0
    } else if c == '1' {
        1
    } else if c == '2' {
        2
    } else if c == '3' {
        3
    } else if c == '4' {
        4
    } else if c == '5' {
        5
    } else if c == '6' {
        6
    } else if c == '7' {
        7
    } else if c == '8' {
        8
    } else {
        9
    }
}

fn digit_val_exec(c: char) -> (r: i64)
    requires
        is_digit(c),
    ensures
        r == digit_val(c),
        0 <= r <= 9,
{
    match c {
        '0' => 0,
        '1' => 1,
        '2' => 2,
        '3' => 3,
        '4' => 4,
        '5' => 5,
        '6' => 6,
        '7' => 7,
        '8' => 8,
        _ => 9,
    }
}

/// The value of a string of decimal digits, most significant first.
pub open spec fn digits_val(s: Seq<char>) -> int
    decreases s.len(),
{
    if s.len() == 0 {
        0
    } else {
        digits_val(s.drop_last()) * 10 + digit_val(s.last())
    }
}

pub open spec fn pow10(n: nat) -> int
    decreases n,
{
    if n == 0 {
        1
    } else {
        10 * pow10((n - 1) as nat)
    }
}

pub proof fn lemma_digits_val_bound(s: Seq<char>)
    ensures
        0 <= digits_val(s) < pow10(s.len()),
    decreases s.len(),
{
    if s.len() > 0 {
        lemma_digits_val_bound(s.drop_last());
        assert(digits_val(s.drop_last()) * 10 <= (pow10((s.len() - 1) as nat) - 1) * 10)
            by (nonlinear_arith)
            requires
                digits_val(s.drop_last()) <= pow10((s.len() - 1) as nat) - 1,
        ;
        assert(0 <= digits_val(s.drop_last()) * 10) by (nonlinear_arith)
            requires
                0 <= digits_val(s.drop_last()),
        ;
    }
}

proof fn lemma_pow10_12()
    ensures
        pow10(12) == 1_000_000_000_000,
        pow10(6) == 1_000_000,
        pow10(5) == 100_000,
        pow10(4) == 10_000,
        pow10(3) == 1_000,
        pow10(2) == 100,
        pow10(1) == 10,
        pow10(0) == 1,
{
    reveal_with_fuel(pow10, 14);
}

proof fn lemma_pow10_mono(a: nat, b: nat)
    requires
        a <= b,
    ensures
        pow10(a) <= pow10(b),
        1 <= pow10(a),
    decreases b,
{
    if b > 0 && a < b {
        lemma_pow10_mono(a, (b - 1) as nat);
        assert(pow10(b) == 10 * pow10((b - 1) as nat));
    } else if b > 0 {
        lemma_pow10_mono((a - 1) as nat, (b - 1) as nat);
        assert(pow10(b) == 10 * pow10((b - 1) as nat));
        assert(pow10(a) == 10 * pow10((a - 1) as nat));
    }
}

/// The value of a digit string of at most twelve digits, or nothing when
/// the string is empty, too long, or not all digits.
pub open spec fn parse_digits_spec(s: Seq<char>) -> Option<i64> {
    if s.len() == 0 || s.len() > 12 || !all_digits_seq(s) {
        None
    } else {
        Some(digits_val(s) as i64)
    }
}

pub fn parse_digits_value(v: &Vec<char>) -> (r: Option<i64>)
    ensures
        r == parse_digits_spec(v@),
        r is Some ==> 0 <= r->0 < 1_000_000_000_000 && r->0 == digits_val(v@),
{
    if v.len() == 0 || v.len() > 12 {
        return None;
    }
    let mut acc: i64 = 0;
    let mut i: usize = 0;
    proof {
        assert(v@.take(0) =~= Seq::<char>::empty());
    }
    while i < v.len()
        invariant
            i <= v@.len(),
            v@.len() <= 12,
            acc == digits_val(v@.take(i as int)),
            0 <= acc < pow10(i as nat),
            forall|k: int| 0 <= k < i ==> is_digit(#[trigger] v@[k]),
        decreases v@.len() - i,
    {
        if !is_digit_exec(v[i]) {
            proof {
                assert(!all_digits_seq(v@));
            }
            return None;
        }
        let d = digit_val_exec(v[i]);
        let ghost oldacc = acc as int;
        let ghost oldi = i as nat;
        proof {
            lemma_pow10_mono(oldi, 11);
            lemma_pow10_12();
            assert(oldacc * 10 + 9 < 10 * pow10(oldi)) by (nonlinear_arith)
                requires
                    0 <= oldacc,
                    oldacc < pow10(oldi),
            ;
            assert(0 <= oldacc * 10) by (nonlinear_arith)
                requires
                    0 <= oldacc,
            ;
            assert(10 * pow10(oldi) <= 10 * pow10(11)) by (nonlinear_arith)
                requires
                    pow10(oldi) <= pow10(11),
            ;
            assert(v@.take(oldi as int + 1).drop_last() =~= v@.take(oldi as int));
            assert(v@.take(oldi as int + 1).last() == v@[oldi as int]);
        }
        acc = acc * 10 + d;
        i += 1;
        proof {
            assert(pow10(i as nat) == 10 * pow10(oldi));
        }
    }
    proof {
        assert(v@.take(v@.len() as int) =~= v@);
        assert(all_digits_seq(v@));
        lemma_pow10_mono(v@.len(), 12);
        lemma_pow10_12();
    }
    Some(acc)
}

/// The fractional digits' value in millionths: the first six digits,
/// padded with zeros on the right when fewer are given; digits beyond
/// the sixth are truncated.
pub open spec fn frac_micro(f: Seq<char>) -> int {
    if f.len() >= 6 {
        digits_val(f.take(6))
    } else {
        digits_val(f) * pow10((6 - f.len()) as nat)
    }
}

fn parse_frac(v: &Vec<char>) -> (r: Option<i64>)
    ensures
        (r is Some) == (v@.len() <= 12 && all_digits_seq(v@)),
        r is Some ==> r->0 == frac_micro(v@) && 0 <= r->0 < 1_000_000,
{
    if v.len() > 12 {
        return None;
    }
    let mut i: usize = 0;
    while i < v.len()
        invariant
            i <= v@.len(),
            forall|k: int| 0 <= k < i ==> is_digit(v@[k]),
        decreases v@.len() - i,
    {
        if !is_digit_exec(v[i]) {
            proof {
                assert(!all_digits_seq(v@));
            }
            return None;
        }
        i += 1;
    }
    proof {
        assert(all_digits_seq(v@));
    }
    let mut head: Vec<char> = Vec::new();
    let take: usize = if v.len() < 6 {
        v.len()
    } else {
        6
    };
    let mut j: usize = 0;
    while j < take
        invariant
            j <= take,
            take <= v@.len(),
            take <= 6,
            head@ == v@.take(take as int).take(j as int),
            forall|k: int| 0 <= k < v@.len() ==> is_digit(v@[k]),
        decreases take - j,
    {
        head.push(v[j]);
        j += 1;
        proof {
            assert(head@ =~= v@.take(take as int).take(j as int));
        }
    }
    proof {
        assert(head@ =~= v@.take(take as int));
        assert forall|k: int| 0 <= k < head@.len() implies is_digit(#[trigger] head@[k]) by {
            assert(head@[k] == v@[k]);
        }
        lemma_digits_val_bound(head@);
        lemma_pow10_mono(head@.len(), 6);
        lemma_pow10_12();
    }
    let base = match parse_digits_head(&head) {
        Some(b) => b,
        None => {
            return None;
        },
    };
    if v.len() >= 6 {
        proof {
            lemma_digits_val_bound(v@.take(6));
        }
        Some(base)
    } else {
        let factor: i64 = pow10_exec(6 - v.len());
        proof {
            assert(v@.take(take as int) =~= v@);
            lemma_digits_val_bound(v@);
            lemma_pow10_mono((6 - v@.len()) as nat, 6);
            assert(digits_val(v@) * pow10((6 - v@.len()) as nat) < pow10(v@.len()) * pow10(
                (6 - v@.len()) as nat,
            )) by (nonlinear_arith)
                requires
                    digits_val(v@) < pow10(v@.len()),
                    pow10((6 - v@.len()) as nat) >= 1,
            ;
            assert(0 <= digits_val(v@) * pow10((6 - v@.len()) as nat)) by (nonlinear_arith)
                requires
                    0 <= digits_val(v@),
                    pow10((6 - v@.len()) as nat) >= 1,
            ;
            lemma_pow10_product(v@.len(), (6 - v@.len()) as nat);
            lemma_pow10_12();
        }
        Some(base * factor)
    }
}

/// `pow10` distributes over addition of exponents.
proof fn lemma_pow10_product(a: nat, b: nat)
    ensures
        pow10(a) * pow10(b) == pow10((a + b) as nat),
    decreases a,
{
    if a == 0 {
    } else {
        lemma_pow10_product((a - 1) as nat, b);
        assert(pow10(a) * pow10(b) == 10 * (pow10((a - 1) as nat) * pow10(b))) by (nonlinear_arith)
            requires
                pow10(a) == 10 * pow10((a - 1) as nat),
        ;
    }
}

/// `parse_digits` specialized to a head already known to be digits.
fn parse_digits_head(v: &Vec<char>) -> (r: Option<i64>)
    requires
        all_digits_seq(v@),
        v@.len() <= 6,
    ensures
        v@.len() > 0 ==> r == Some(digits_val(v@) as i64) && r->0 == digits_val(v@),
        v@.len() == 0 ==> r == Some(0i64),
{
    if v.len() == 0 {
        return Some(0);
    }
    let r = parse_digits_value(v);
    proof {
        lemma_digits_val_bound(v@);
    }
    r
}

fn pow10_exec(n: usize) -> (r: i64)
    requires
        n <= 6,
    ensures
        r == pow10(n as nat),
        1 <= r <= 1_000_000,
{
    proof {
        lemma_pow10_12();
    }
    match n {
        0 => 1,
        1 => 10,
        2 => 100,
        3 => 1_000,
        4 => 10_000,
        5 => 100_000,
        _ => 1_000_000,
    }
}

/// The value, in millionths, of an unsigned plain decimal numeral: an
/// integer part of at most twelve digits, optionally followed by a point
/// and fractional digits, at least one digit in all. Fractional digits
/// beyond the sixth are truncated.
pub open spec fn parse_unsigned_spec(s: Seq<char>) -> Option<i64> {
    let f = find_char(s, '.');
    if f < 0 {
        if s.len() == 0 || s.len() > 12 || !all_digits_seq(s) {
            None
        } else {
            Some((digits_val(s) * MICRO) as i64)
        }
    } else {
        let ip = s.take(f);
        let fp = s.skip(f + 1);
        if ip.len() + fp.len() == 0 || ip.len() > 12 || fp.len() > 12 || !all_digits_seq(ip)
            || !all_digits_seq(fp) {
            None
        } else {
            Some((digits_val(ip) * MICRO + frac_micro(fp)) as i64)
        }
    }
}

/// The value, in millionths, of a plain decimal numeral with an optional
/// leading sign.
pub open spec fn parse_decimal_spec(s: Seq<char>) -> Option<i64> {
    if s.len() > 0 && s[0] == '-' {
        match parse_unsigned_spec(s.drop_first()) {
            Some(x) => Some((-x) as i64),
            None => None,
        }
    } else if s.len() > 0 && s[0] == '+' {
        parse_unsigned_spec(s.drop_first())
    } else {
        parse_unsigned_spec(s)
    }
}

fn find_dot(v: &Vec<char>) -> (r: Option<usize>)
    ensures
        match r {
            Some(ix) => find_char(v@, '.') == ix && ix < v@.len(),
            None => find_char(v@, '.') == -1,
        },
{
    let mut i: usize = 0;
    proof {
        assert(v@.skip(0) =~= v@);
    }
    while i < v.len()
        invariant
            i <= v@.len(),
            find_char(v@, '.') == (if find_char(v@.skip(i as int), '.') < 0 {
                -1int
            } else {
                find_char(v@.skip(i as int), '.') + i
            }),
        decreases v@.len() - i,
    {
        let ghost tail = v@.skip(i as int);
        if v[i] == '.' {
            proof {
                assert(tail[0] == v@[i as int]);
                assert(find_char(tail, '.') == 0);
            }
            return Some(i);
        }
        i += 1;
        proof {
            assert(tail[0] == v@[i - 1]);
            assert(v@.skip(i as int) =~= tail.drop_first());
        }
    }
    proof {
        assert(v@.skip(i as int) =~= Seq::<char>::empty());
    }
    None
}

fn parse_unsigned(v: &Vec<char>) -> (r: Option<i64>)
    ensures
        r == parse_unsigned_spec(v@),
        r is Some ==> 0 <= r->0 < 1_000_000_000_000_000_000,
{
    proof {
        lemma_pow10_12();
    }
    match find_dot(v) {
        None => {
            match parse_digits_value(v) {
                Some(x) => {
                    proof {
                        assert(x * MICRO < 1_000_000_000_000 * 1_000_000) by (nonlinear_arith)
                            requires
                                0 <= x < 1_000_000_000_000,
                        ;
                        assert(0 <= x * MICRO) by (nonlinear_arith)
                            requires
                                0 <= x,
                        ;
                    }
                    Some(x * MICRO)
                },
                None => None,
            }
        },
        Some(f) => {
            let n = v.len();
            let ip = subrange_chars(v, 0, f);
            let fp = subrange_chars(v, f + 1, n);
            proof {
                assert(ip@ =~= v@.take(f as int));
                assert(fp@ =~= v@.skip(f as int + 1));
            }
            if ip.len() == 0 && fp.len() == 0 {
                return None;
            }
            let ival = match parse_digits_opt_empty(&ip) {
                Some(x) => x,
                None => {
                    return None;
                },
            };
            let fval = match parse_frac(&fp) {
                Some(x) => x,
                None => {
                    return None;
                },
            };
            proof {
                assert(ival * MICRO < 1_000_000_000_000 * 1_000_000) by (nonlinear_arith)
                    requires
                        0 <= ival < 1_000_000_000_000,
                ;
                assert(0 <= ival * MICRO) by (nonlinear_arith)
                    requires
                        0 <= ival,
                ;
            }
            Some(ival * MICRO + fval)
        },
    }
}

/// Digits of the integer part, which may be empty before a point.
fn parse_digits_opt_empty(v: &Vec<char>) -> (r: Option<i64>)
    ensures
        (r is Some) == (v@.len() <= 12 && all_digits_seq(v@)),
        r is Some ==> 0 <= r->0 < 1_000_000_000_000 && r->0 == digits_val(v@),
{
    if v.len() == 0 {
        return Some(0);
    }
    parse_digits_value(v)
}

/// Parse a plain decimal numeral with optional sign into millionths.
pub fn parse_decimal_micro(v: &Vec<char>) -> (r: Option<i64>)
    ensures
        r == parse_decimal_spec(v@),
{
    if v.len() > 0 && (v[0] == '-' || v[0] == '+') {
        let neg = v[0] == '-';
        let body = subrange_chars(v, 1, v.len());
        proof {
            assert(body@ =~= v@.drop_first());
        }
        match parse_unsigned(&body) {
            Some(x) => {
                if neg {
                    Some(-x)
                } else {
                    Some(x)
                }
            },
            None => None,
        }
    } else {
        parse_unsigned(v)
    }
}

} // verus!
