use vstd::prelude::*;
use crate::text::{chars_to_string, push_all};

verus! {

pub open spec fn digit_char(d: int) -> char {
    if d == 0 {
        '0'
    } else if d == 1 {
        '1'
    } else if d == 2 {
        '2'
    } else if d == 3 {
        '3'
    } else if d == 4 {
        '4'
    } else if d == 5 {
        '5'
    } else if d == 6 {
        '6'
    } else if d == 7 {
        '7'
    } else if d == 8 {
        '8'
    } else {
        '9'
    }
}

/// The decimal digits of a non-negative number, most significant first.
pub open spec fn dec_str(n: int) -> Seq<char>
    decreases n,
{
    if n < 0 {
        Seq::empty()
    } else if n < 10 {
        seq![digit_char(n)]
    } else {
        dec_str(n / 10).push(digit_char(n % 10))
    }
}

/// An American price rendered with its explicit sign, `+` for zero and
/// positive prices.
pub open spec fn odds_str(o: int) -> Seq<char> {
    if o >= 0 {
        seq!['+'] + dec_str(o)
    } else {
        seq!['-'] + dec_str(-o)
    }
}

fn digit_char_exec(d: i64) -> (r: char)
    requires
        0 <= d <= 9,
    ensures
        r == digit_char(d as int),
{
    match d {
        0 => '0',
        1 => '1',
        2 => '2',
        3 => '3',
        4 => '4',
        5 => '5',
        6 => '6',
        7 => '7',
        8 => '8',
        _ => '9',
    }
}

fn dec_chars(n: i64) -> (r: Vec<char>)
    requires
        0 <= n,
    ensures
        r@ == dec_str(n as int),
    decreases n,
{
    if n < 10 {
        let mut v: Vec<char> = Vec::new();
        v.push(digit_char_exec(n));
        proof {
            assert(v@ =~= seq![digit_char(n as int)]);
        }
        v
    } else {
        let mut v = dec_chars(n / 10);
        v.push(digit_char_exec(n % 10));
        v
    }
}

/// Render an American price with its explicit sign.
pub fn format_odds(odds: &i32) -> (r: String)
    ensures
        r@ == odds_str(*odds as int),
{
    let o = *odds as i64;
    let mut v: Vec<char> = Vec::new();
    if o >= 0 {
        v.push('+');
        let d = dec_chars(o);
        push_all(&mut v, &d);
        proof {
            assert(v@ =~= seq!['+'] + dec_str(o as int));
        }
    } else {
        v.push('-');
        let d = dec_chars(-o);
        push_all(&mut v, &d);
        proof {
            assert(v@ =~= seq!['-'] + dec_str(-o as int));
        }
    }
    chars_to_string(&v)
}

} // verus!
