//! Textual form of values, built character by character.

use crate::num::{abs_int, canon, canonize, dec_wf, pow10, pow10_u64, Dec};
use vstd::prelude::*;

verus! {

/// Decimal digit character for `d` (meaningful for `0 <= d <= 9`).
pub open spec fn digit_char(d: nat) -> char {
    ((d + 0x30) as u8) as char
}

/// The decimal digits of `n`, most significant first.
pub open spec fn spec_nat_string(n: nat) -> Seq<char>
    decreases n,
{
    if n < 10 {
        seq![digit_char(n)]
    } else {
        spec_nat_string(n / 10).push(digit_char(n % 10))
    }
}

/// Textual form of a signed integer.
pub open spec fn spec_int_string(m: int) -> Seq<char> {
    if m < 0 {
        seq!['-'] + spec_nat_string((-m) as nat)
    } else {
        spec_nat_string(m as nat)
    }
}

/// Exactly `width` decimal digits of `n`, with leading zeros.
pub open spec fn spec_frac_digits(n: nat, width: nat) -> Seq<char>
    decreases width,
{
    if width == 0 {
        Seq::empty()
    } else {
        spec_frac_digits(n / 10, (width - 1) as nat).push(digit_char(n % 10))
    }
}

/// Textual form of a decimal number, in canonical form: the integer
/// part, then — when fractional digits exist — a point and exactly
/// `scale` digits.
pub open spec fn spec_dec_string(d0: Dec) -> Seq<char> {
    let d = canon(d0);
    if d.scale == 0 {
        spec_int_string(d.mant as int)
    } else {
        let mag = abs_int(d.mant as int) as nat;
        let ip = mag / pow10(d.scale as nat);
        let fp = mag % pow10(d.scale as nat);
        let body = spec_nat_string(ip) + seq!['.'] + spec_frac_digits(fp, d.scale as nat);
        if d.mant < 0 {
            seq!['-'] + body
        } else {
            body
        }
    }
}

/// Relies on `String::push` of std: it appends the given character to
/// the end of the string.
#[verifier::external_body]
pub fn push_char(s: &mut String, c: char)
    ensures
        final(s)@ == old(s)@.push(c),
{
    s.push(c);
}

/// Append the decimal digits of `v`.
pub fn push_u64(s: &mut String, v: u64)
    ensures
        final(s)@ == old(s)@ + spec_nat_string(v as nat),
    decreases v,
{
    if v < 10 {
        push_char(s, ((0x30 + v as u8)) as char);
        proof {
            assert(s@ =~= old(s)@ + spec_nat_string(v as nat));
        }
    } else {
        push_u64(s, v / 10);
        push_char(s, (0x30 + (v % 10) as u8) as char);
        proof {
            assert(s@ =~= old(s)@ + spec_nat_string(v as nat));
        }
    }
}

/// Append the textual form of a signed integer.
pub fn push_i64(s: &mut String, v: i64)
    ensures
        final(s)@ == old(s)@ + spec_int_string(v as int),
{
    if v < 0 {
        push_char(s, '-');
        let mag: u64 = (-(v as i128)) as u64;
        push_u64(s, mag);
        proof {
            assert(s@ =~= old(s)@ + spec_int_string(v as int));
        }
    } else {
        push_u64(s, v as u64);
    }
}

/// Append exactly `width` digits of `n`, with leading zeros.
fn push_frac(s: &mut String, n: u64, width: u32)
    ensures
        final(s)@ == old(s)@ + spec_frac_digits(n as nat, width as nat),
    decreases width,
{
    if width == 0 {
        proof {
            assert(s@ =~= old(s)@ + spec_frac_digits(n as nat, 0));
        }
    } else {
        push_frac(s, n / 10, width - 1);
        push_char(s, (0x30 + (n % 10) as u8) as char);
        proof {
            assert(s@ =~= old(s)@ + spec_frac_digits(n as nat, width as nat));
        }
    }
}

/// Append the textual form of a decimal number.
pub fn push_dec(s: &mut String, d0: Dec)
    ensures
        final(s)@ == old(s)@ + spec_dec_string(d0),
{
    let d = canonize(d0);
    if d.scale == 0 {
        push_i64(s, d.mant);
    } else {
        if d.mant < 0 {
            push_char(s, '-');
        }
        let mag: u64 = if d.mant < 0 {
            (-(d.mant as i128)) as u64
        } else {
            d.mant as u64
        };
        let p = pow10_u64(d.scale);
        proof {
            crate::num::lemma_pow10_pos(d.scale as nat);
        }
        let ip = mag / p;
        let fp = mag % p;
        push_u64(s, ip);
        push_char(s, '.');
        push_frac(s, fp, d.scale);
        proof {
            assert(s@ =~= old(s)@ + spec_dec_string(d0));
        }
    }
}

} // verus!
