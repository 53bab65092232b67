//! Small text helpers: string equality with a stated meaning, and decimal
//! rendering of integers, used by the formatting functions.
use vstd::prelude::*;
use vstd::string::StringExecFns;

verus! {

/// Relies on `String::push` from std, which vstd leaves unspecified: it
/// appends the given character to the end of the string.
pub assume_specification[ String::push ](s: &mut String, ch: char)
    ensures
        final(s)@ == old(s)@.push(ch),
;

/// String-slice equality, decided by comparing owned copies.
pub fn str_eq(a: &str, b: &str) -> (r: bool)
    ensures
        r == (a@ == b@),
{
    let ao: String = a.to_owned();
    let bo: String = b.to_owned();
    ao == bo
}

/// The decimal digits of `n`, most significant first.
pub open spec fn spec_decimal(n: int) -> Seq<char>
    decreases n,
{
    if n <= 0 {
        seq!['0']
    } else if n < 10 {
        seq![spec_digit_char(n)]
    } else {
        spec_decimal(n / 10).push(spec_digit_char(n % 10))
    }
}

/// The character for one decimal digit.
pub open spec fn spec_digit_char(d: int) -> char {
    if d == 0 {
        '0'
    } else if d == 1 {
        '1'
    } else if d == 2 {
        '2'
    } else if d == 3 {
        '3'
    } else if d == 4 {
        '4'
    } else if d == 5 {
        '5'
    } else if d == 6 {
        '6'
    } else if d == 7 {
        '7'
    } else if d == 8 {
        '8'
    } else {
        '9'
    }
}

fn digit_char(d: u64) -> (r: char)
    requires
        d < 10,
    ensures
        r == spec_digit_char(d as int),
{
    match d {
        0 => '0',
        1 => '1',
        2 => '2',
        3 => '3',
        4 => '4',
        5 => '5',
        6 => '6',
        7 => '7',
        8 => '8',
        _ => '9',
    }
}

/// Render `n` in decimal.
pub fn u64_to_decimal(n: u64) -> (r: String)
    ensures
        r@ == spec_decimal(n as int),
    decreases n,
{
    if n < 10 {
        let mut s = String::new();
        s.push(digit_char(n));
        proof {
            assert(s@ =~= spec_decimal(n as int));
        }
        s
    } else {
        let mut s = u64_to_decimal(n / 10);
        s.push(digit_char(n % 10));
        proof {
            assert(s@ =~= spec_decimal(n as int));
        }
        s
    }
}

/// Render `n` in decimal, left-padded with zeros to at least two digits.
pub fn u64_to_decimal_pad2(n: u64) -> (r: String)
    ensures
        r@ == if n < 10 {
            seq!['0'].push(spec_digit_char(n as int))
        } else {
            spec_decimal(n as int)
        },
{
    if n < 10 {
        let mut s = String::new();
        s.push('0');
        s.push(digit_char(n));
        proof {
            assert(s@ =~= seq!['0'].push(spec_digit_char(n as int)));
        }
        s
    } else {
        u64_to_decimal(n)
    }
}

} // verus!
