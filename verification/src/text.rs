//! Fixed-precision decimal rendering of scaled amounts.
//!
//! A balance is an `i64` scaled by 10_000. Its report form is the integer
//! part, a decimal point, and the fractional part zero-padded to exactly
//! four digits.

use vstd::prelude::*;

verus! {

/// The character for one decimal digit.
pub open spec fn digit_char(d: nat) -> char {
    ((48 + d % 10) as u8) as char
}

/// The decimal digits of `n`, most significant first, with no leading zeros
/// except for `n == 0` itself.
pub open spec fn dec_digits(n: nat) -> Seq<char>
    decreases n,
{
    if n < 10 {
        seq![digit_char(n)]
    } else {
        dec_digits(n / 10).push(digit_char(n % 10))
    }
}

/// The four fractional digits, zero-padded, most significant first.
pub open spec fn frac_digits(f: nat) -> Seq<char> {
    seq![digit_char(f / 1000), digit_char(f / 100), digit_char(f / 10), digit_char(f)]
}

/// A non-negative scaled amount in report form: integer part, point, four
/// fractional digits.
pub open spec fn amount_text(v: int) -> Seq<char>
    recommends
        v >= 0,
{
    dec_digits((v / 10000) as nat) + seq!['.'] + frac_digits((v % 10000) as nat)
}

/// Relies on String::push: appends the given character to the end of the string.
#[verifier::external_body]
fn push_char(s: &mut String, c: char)
    ensures
        final(s)@ == old(s)@.push(c),
{
    s.push(c)
}

/// Append the decimal digits of `n`, most significant first.
fn push_digits(s: &mut String, n: u64)
    ensures
        final(s)@ == old(s)@ + dec_digits(n as nat),
    decreases n,
{
    if n >= 10 {
        push_digits(s, n / 10);
    }
    let d: u8 = (n % 10) as u8;
    push_char(s, (48 + d) as char);
    proof {
        if n < 10 {
            assert(old(s)@ + dec_digits(n as nat) =~= old(s)@.push(digit_char(n as nat)));
        } else {
            assert(old(s)@ + dec_digits(n as nat) =~= (old(s)@ + dec_digits((n / 10) as nat)).push(
                digit_char((n % 10) as nat),
            ));
        }
    }
}

/// Render a non-negative scaled amount with four fractional digits.
pub fn format_amount(v: i64) -> (r: String)
    requires
        v >= 0,
    ensures
        r@ == amount_text(v as int),
{
    let mut s = String::new();
    push_digits(&mut s, (v / 10000) as u64);
    push_char(&mut s, '.');
    let f: u64 = (v % 10000) as u64;
    push_char(&mut s, ((48 + f / 1000) as u8) as char);
    push_char(&mut s, ((48 + f / 100 % 10) as u8) as char);
    push_char(&mut s, ((48 + f / 10 % 10) as u8) as char);
    push_char(&mut s, ((48 + f % 10) as u8) as char);
    proof {
        assert(s@ =~= amount_text(v as int));
    }
    s
}

} // verus!
