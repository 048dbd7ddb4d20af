//! Decimal rendering of batch identifiers.

use vstd::prelude::*;
use crate::text::string_of_chars;

verus! {

/// The character for one decimal digit.
pub open spec fn decimal_digit(d: int) -> char {
    if d == 0 {
        '0'
    } else if d == 1 {
        '1'
    } else if d == 2 {
        '2'
    } else if d == 3 {
        '3'
    } else if d == 4 {
        '4'
    } else if d == 5 {
        '5'
    } else if d == 6 {
        '6'
    } else if d == 7 {
        '7'
    } else if d == 8 {
        '8'
    } else {
        '9'
    }
}

/// The usual decimal spelling of a non-negative integer, without leading
/// zeros (except for zero itself).
pub open spec fn decimal_of(n: int) -> Seq<char>
    decreases n,
{
    if n < 0 {
        Seq::empty()
    } else if n < 10 {
        seq![decimal_digit(n)]
    } else {
        decimal_of(n / 10).push(decimal_digit(n % 10))
    }
}

fn digit_char(d: u128) -> (c: char)
    requires
        d < 10,
    ensures
        c == decimal_digit(d as int),
{
    if d == 0 {
        '0'
    } else if d == 1 {
        '1'
    } else if d == 2 {
        '2'
    } else if d == 3 {
        '3'
    } else if d == 4 {
        '4'
    } else if d == 5 {
        '5'
    } else if d == 6 {
        '6'
    } else if d == 7 {
        '7'
    } else if d == 8 {
        '8'
    } else {
        '9'
    }
}

fn decimal_into(n: u128, out: &mut Vec<char>)
    ensures
        final(out)@ == old(out)@ + decimal_of(n as int),
    decreases n,
{
    if n < 10 {
        let c = digit_char(n);
        out.push(c);
        proof {
            assert(out@ =~= old(out)@ + decimal_of(n as int));
        }
    } else {
        decimal_into(n / 10, out);
        let c = digit_char(n % 10);
        out.push(c);
        proof {
            assert(out@ =~= old(out)@ + decimal_of(n as int));
        }
    }
}

/// The decimal spelling of a number, as a string.
pub fn decimal_string(n: u128) -> (r: String)
    ensures
        r@ == decimal_of(n as int),
{
    let mut digits: Vec<char> = Vec::new();
    decimal_into(n, &mut digits);
    proof {
        assert(digits@ =~= decimal_of(n as int));
    }
    string_of_chars(&digits)
}

} // verus!
