//! Numeric values of the language.
//!
//! Integers are `i64`.  Fractional literals and fractional results are held
//! as [`Dec`], a fixed-point decimal `mant / 10^scale` with at most nine
//! fractional digits.  A canonical `Dec` carries no trailing zero digit in
//! its fraction, so equal numbers have equal representations.  Arithmetic is
//! exact where the result fits; a result whose mantissa would not fit in an
//! `i64` is reported as an overflow, and quotients are truncated toward zero
//! at nine fractional digits.

use vstd::arithmetic::div_mod::lemma_div_is_ordered_by_denominator;
use vstd::prelude::*;

verus! {

/// A fixed-point decimal number `mant / 10^scale`.
#[derive(Clone, Copy, Debug, PartialEq, Eq, Structural)]
pub struct Dec {
    pub mant: i64,
    pub scale: u32,
}

/// Greatest number of fractional digits a `Dec` may carry.
pub const MAX_SCALE: u32 = 9;

pub open spec fn pow10(n: nat) -> nat
    decreases n,
{
    if n == 0 {
        1
    } else {
        10 * pow10((n - 1) as nat)
    }
}

pub open spec fn abs_int(m: int) -> int {
    if m < 0 {
        -m
    } else {
        m
    }
}

/// A canonical decimal: at most nine fractional digits, and no trailing
/// zero digit in the fraction (so zero is always `0 / 10^0`).
pub open spec fn dec_wf(d: Dec) -> bool {
    &&& d.scale <= MAX_SCALE
    &&& (d.scale > 0 ==> abs_int(d.mant as int) % 10 != 0)
}

/// Mantissa after removing trailing zero digits (while the scale lasts).
pub open spec fn strip_mag(mag: nat, s: nat) -> nat
    decreases s,
{
    if s > 0 && mag % 10 == 0 {
        strip_mag(mag / 10, (s - 1) as nat)
    } else {
        mag
    }
}

/// Scale left after removing trailing zero digits.
pub open spec fn strip_sc(mag: nat, s: nat) -> nat
    decreases s,
{
    if s > 0 && mag % 10 == 0 {
        strip_sc(mag / 10, (s - 1) as nat)
    } else {
        s
    }
}

/// Normalize a signed mantissa and scale into a canonical `Dec`:
/// trailing zeros are stripped, digits beyond the ninth fractional place
/// are truncated (toward zero), and a mantissa that does not fit in `i64`
/// yields `None`.
pub open spec fn mk_dec(m: int, s: nat) -> Option<Dec> {
    let mag0 = abs_int(m) as nat;
    let mag1 = strip_mag(mag0, s);
    let s1 = strip_sc(mag0, s);
    let mag2 = if s1 <= MAX_SCALE {
        mag1
    } else {
        strip_mag(mag1 / pow10((s1 - MAX_SCALE) as nat), MAX_SCALE as nat)
    };
    let s2 = if s1 <= MAX_SCALE {
        s1
    } else {
        strip_sc(mag1 / pow10((s1 - MAX_SCALE) as nat), MAX_SCALE as nat)
    };
    let mv = if m < 0 {
        -(mag2 as int)
    } else {
        mag2 as int
    };
    if i64::MIN <= mv <= i64::MAX {
        Some(Dec { mant: mv as i64, scale: s2 as u32 })
    } else {
        None
    }
}

/// The canonical form of an arbitrary `Dec` value.  Stripping and
/// truncating only shrink the mantissa, so the result always fits.
pub open spec fn canon(d: Dec) -> Dec {
    match mk_dec(d.mant as int, d.scale as nat) {
        Some(c) => c,
        None => d,
    }
}

/// Exact sum of two canonical decimals, normalized; `None` on overflow.
pub open spec fn spec_dec_add(a: Dec, b: Dec) -> Option<Dec> {
    let s = if a.scale >= b.scale {
        a.scale as nat
    } else {
        b.scale as nat
    };
    mk_dec(a.mant * pow10((s - a.scale) as nat) + b.mant * pow10((s - b.scale) as nat), s)
}

/// Exact difference of two canonical decimals, normalized.
pub open spec fn spec_dec_sub(a: Dec, b: Dec) -> Option<Dec> {
    let s = if a.scale >= b.scale {
        a.scale as nat
    } else {
        b.scale as nat
    };
    mk_dec(a.mant * pow10((s - a.scale) as nat) - b.mant * pow10((s - b.scale) as nat), s)
}

/// Exact product of two canonical decimals, normalized (and truncated to
/// nine fractional digits where the exact product has more).
pub open spec fn spec_dec_mul(a: Dec, b: Dec) -> Option<Dec> {
    mk_dec(a.mant * b.mant, (a.scale + b.scale) as nat)
}

/// Quotient of two canonical decimals, truncated toward zero at nine
/// fractional digits and normalized.  The divisor must not be zero.
pub open spec fn spec_dec_div(a: Dec, b: Dec) -> Option<Dec>
    recommends
        b.mant != 0,
{
    let num = abs_int(a.mant as int) as nat * pow10((MAX_SCALE + b.scale) as nat);
    let den = abs_int(b.mant as int) as nat * pow10(a.scale as nat);
    let q = num / den;
    let m = if (a.mant < 0) != (b.mant < 0) {
        -(q as int)
    } else {
        q as int
    };
    mk_dec(m, MAX_SCALE as nat)
}

/// An integer seen as a decimal with no fractional digits.
pub open spec fn spec_to_dec(i: i64) -> Dec {
    Dec { mant: i, scale: 0 }
}

pub proof fn lemma_pow10_pos(n: nat)
    ensures
        pow10(n) >= 1,
    decreases n,
{
    if n > 0 {
        lemma_pow10_pos((n - 1) as nat);
    }
}

pub proof fn lemma_pow10_mono(a: nat, b: nat)
    requires
        a <= b,
    ensures
        pow10(a) <= pow10(b),
    decreases b,
{
    if a < b {
        lemma_pow10_mono(a, (b - 1) as nat);
        lemma_pow10_pos((b - 1) as nat);
    }
}

pub proof fn lemma_pow10_38_bound()
    ensures
        pow10(38) == 100000000000000000000000000000000000000,
        pow10(39) == 1000000000000000000000000000000000000000,
        pow10(19) == 10000000000000000000,
        pow10(9) == 1000000000,
{
    reveal_with_fuel(pow10, 41);
}

/// Exact power of ten, for exponents up to 38.
pub fn pow10_u128(n: u32) -> (r: u128)
    requires
        n <= 38,
    ensures
        r == pow10(n as nat),
{
    let mut r: u128 = 1;
    let mut k: u32 = 0;
    while k < n
        invariant
            k <= n <= 38,
            r == pow10(k as nat),
        decreases n - k,
    {
        proof {
            lemma_pow10_mono((k + 1) as nat, 38);
            lemma_pow10_38_bound();
        }
        r = r * 10;
        k = k + 1;
    }
    r
}

/// Exact power of ten, for exponents up to 19.
pub fn pow10_u64(n: u32) -> (r: u64)
    requires
        n <= 19,
    ensures
        r == pow10(n as nat),
{
    let mut r: u64 = 1;
    let mut k: u32 = 0;
    while k < n
        invariant
            k <= n <= 19,
            r == pow10(k as nat),
        decreases n - k,
    {
        proof {
            lemma_pow10_mono((k + 1) as nat, 19);
            lemma_pow10_38_bound();
        }
        r = r * 10;
        k = k + 1;
    }
    r
}

proof fn lemma_strip_zeros_shrinks(mag: nat, s: nat)
    ensures
        strip_mag(mag, s) <= mag,
        strip_sc(mag, s) <= s,
    decreases s,
{
    if s > 0 && mag % 10 == 0 {
        lemma_strip_zeros_shrinks(mag / 10, (s - 1) as nat);
    }
}

proof fn lemma_strip_zeros_wf(mag: nat, s: nat)
    ensures
        strip_sc(mag, s) > 0 ==> strip_mag(mag, s) % 10 != 0,
    decreases s,
{
    if s > 0 && mag % 10 == 0 {
        lemma_strip_zeros_wf(mag / 10, (s - 1) as nat);
    }
}

proof fn lemma_strip_zeros_of_zero(s: nat)
    ensures
        strip_mag(0, s) == 0,
        strip_sc(0, s) == 0,
    decreases s,
{
    if s > 0 {
        lemma_strip_zeros_of_zero((s - 1) as nat);
    }
}

pub proof fn lemma_mk_dec_wf(m: int, s: nat)
    ensures
        mk_dec(m, s) matches Some(d) ==> dec_wf(d),
{
    let mag0 = abs_int(m) as nat;
    lemma_strip_zeros_wf(mag0, s);
    lemma_strip_zeros_shrinks(mag0, s);
    let mag1 = strip_mag(mag0, s);
    let s1 = strip_sc(mag0, s);
    if s1 > MAX_SCALE {
        lemma_pow10_pos((s1 - MAX_SCALE) as nat);
        vstd::arithmetic::div_mod::lemma_div_pos_is_pos(
            mag1 as int,
            pow10((s1 - MAX_SCALE) as nat) as int,
        );
        lemma_strip_zeros_wf(mag1 / pow10((s1 - MAX_SCALE) as nat), MAX_SCALE as nat);
        lemma_strip_zeros_shrinks(mag1 / pow10((s1 - MAX_SCALE) as nat), MAX_SCALE as nat);
    }
    let mag2 = if s1 <= MAX_SCALE {
        mag1
    } else {
        strip_mag(mag1 / pow10((s1 - MAX_SCALE) as nat), MAX_SCALE as nat)
    };
    let s2 = if s1 <= MAX_SCALE {
        s1
    } else {
        strip_sc(mag1 / pow10((s1 - MAX_SCALE) as nat), MAX_SCALE as nat)
    };
    let mv = if m < 0 {
        -(mag2 as int)
    } else {
        mag2 as int
    };
    assert(abs_int(mv) == mag2);
    assert(s2 <= MAX_SCALE);
}

/// A mantissa already in `i64` range always normalizes successfully.
pub proof fn lemma_mk_dec_fits(m: int, s: nat)
    requires
        i64::MIN <= m <= i64::MAX,
    ensures
        mk_dec(m, s).is_some(),
{
    let mag0 = abs_int(m) as nat;
    lemma_strip_zeros_shrinks(mag0, s);
    let mag1 = strip_mag(mag0, s);
    let s1 = strip_sc(mag0, s);
    if s1 > MAX_SCALE {
        let p = pow10((s1 - MAX_SCALE) as nat);
        lemma_pow10_pos((s1 - MAX_SCALE) as nat);
        vstd::arithmetic::div_mod::lemma_div_pos_is_pos(mag1 as int, p as int);
        lemma_div_is_ordered_by_denominator(mag1 as int, 1, p as int);
        assert(mag1 as int / 1 == mag1 as int);
        lemma_strip_zeros_shrinks(mag1 / p, MAX_SCALE as nat);
    }
}

/// Normalize a signed mantissa and scale into a canonical `Dec`,
/// reporting a mantissa that does not fit in `i64` as `None`.
pub fn make_dec(m: i128, s: u32) -> (r: Option<Dec>)
    requires
        m != i128::MIN,
    ensures
        r == mk_dec(m as int, s as nat),
        r matches Some(d) ==> dec_wf(d),
{
    proof {
        lemma_mk_dec_wf(m as int, s as nat);
    }
    let neg = m < 0;
    let mut mag: u128 = if neg {
        (-m) as u128
    } else {
        m as u128
    };
    if mag == 0 {
        proof {
            lemma_strip_zeros_of_zero(s as nat);
        }
        return Some(Dec { mant: 0, scale: 0 });
    }
    let mut sc: u32 = s;
    let ghost mag0 = mag as nat;
    let ghost s0 = sc as nat;
    while sc > 0 && mag % 10 == 0
        invariant
            strip_mag(mag0, s0) == strip_mag(mag as nat, sc as nat),
            strip_sc(mag0, s0) == strip_sc(mag as nat, sc as nat),
            mag >= 1,
        decreases mag,
    {
        mag = mag / 10;
        sc = sc - 1;
    }
    if sc > MAX_SCALE {
        let t = sc - MAX_SCALE;
        let ghost mag1 = mag as nat;
        proof {
            lemma_pow10_38_bound();
        }
        if t > 38 {
            proof {
                lemma_pow10_mono(39, t as nat);
                vstd::arithmetic::div_mod::lemma_basic_div(
                    mag1 as int,
                    pow10(t as nat) as int,
                );
                lemma_strip_zeros_of_zero(MAX_SCALE as nat);
            }
            return Some(Dec { mant: 0, scale: 0 });
        }
        let p = pow10_u128(t);
        proof {
            lemma_pow10_pos(t as nat);
        }
        mag = mag / p;
        sc = MAX_SCALE;
        let ghost mag2 = mag as nat;
        let ghost s2 = sc as nat;
        if mag == 0 {
            proof {
                lemma_strip_zeros_of_zero(s2);
            }
            return Some(Dec { mant: 0, scale: 0 });
        }
        while sc > 0 && mag % 10 == 0
            invariant
                strip_mag(mag2, s2) == strip_mag(mag as nat, sc as nat),
                strip_sc(mag2, s2) == strip_sc(mag as nat, sc as nat),
                mag >= 1,
            decreases mag,
        {
            mag = mag / 10;
            sc = sc - 1;
        }
    }
    if mag <= 0x7FFF_FFFF_FFFF_FFFF {
        let mant = if neg {
            -(mag as i64)
        } else {
            mag as i64
        };
        Some(Dec { mant, scale: sc })
    } else if neg && mag == 0x8000_0000_0000_0000 {
        Some(Dec { mant: i64::MIN, scale: sc })
    } else {
        None
    }
}

/// The canonical form of a `Dec`; the identity on canonical values.
pub fn canonize(d: Dec) -> (r: Dec)
    ensures
        r == canon(d),
        dec_wf(r),
{
    proof {
        lemma_mk_dec_fits(d.mant as int, d.scale as nat);
    }
    match make_dec(d.mant as i128, d.scale) {
        Some(c) => c,
        None => d,
    }
}


/// Multiplying a bounded value by a bounded nonnegative factor stays bounded.
proof fn lemma_mul_range(x: int, p: int, xb: int, pb: int)
    requires
        -xb <= x <= xb,
        0 <= p <= pb,
        0 <= xb,
    ensures
        -(xb * pb) <= x * p <= xb * pb,
{
    assert(-(xb * pb) <= x * p <= xb * pb) by (nonlinear_arith)
        requires
            -xb <= x <= xb,
            0 <= p <= pb,
            0 <= xb,
    ;
}

/// Bounds used by the arithmetic below: a mantissa scaled by at most
/// `10^9` (for sums) or `10^18` (for quotients) stays far inside `i128`.
proof fn lemma_scale_bounds(sa: u32, sb: u32)
    requires
        sa <= MAX_SCALE,
        sb <= MAX_SCALE,
    ensures
        pow10(((if sa >= sb { sa } else { sb }) - sa) as nat) <= pow10(9),
        pow10(((if sa >= sb { sa } else { sb }) - sb) as nat) <= pow10(9),
        pow10((MAX_SCALE + sb) as nat) <= pow10(18),
        pow10(sa as nat) <= pow10(9),
        pow10(9) == 1000000000,
        pow10(18) == 1000000000000000000,
{
    let s: u32 = if sa >= sb { sa } else { sb };
    lemma_pow10_mono(((s - sa) as nat), 9);
    lemma_pow10_mono(((s - sb) as nat), 9);
    lemma_pow10_mono((MAX_SCALE + sb) as nat, 18);
    lemma_pow10_mono(sa as nat, 9);
    reveal_with_fuel(pow10, 20);
}

/// Exact sum of two canonical decimals; `None` reports a mantissa that
/// does not fit.
pub fn dec_add(a: Dec, b: Dec) -> (r: Option<Dec>)
    requires
        dec_wf(a),
        dec_wf(b),
    ensures
        r == spec_dec_add(a, b),
        r matches Some(d) ==> dec_wf(d),
{
    let s: u32 = if a.scale >= b.scale {
        a.scale
    } else {
        b.scale
    };
    proof {
        lemma_scale_bounds(a.scale, b.scale);
        lemma_mul_range(a.mant as int, pow10((s - a.scale) as nat) as int, 0x8000_0000_0000_0000, 1000000000);
        lemma_mul_range(b.mant as int, pow10((s - b.scale) as nat) as int, 0x8000_0000_0000_0000, 1000000000);
    }
    let pa = pow10_u64(s - a.scale);
    let pb = pow10_u64(s - b.scale);
    let m: i128 = (a.mant as i128) * (pa as i128) + (b.mant as i128) * (pb as i128);
    make_dec(m, s)
}

/// Exact difference of two canonical decimals; `None` reports overflow.
pub fn dec_sub(a: Dec, b: Dec) -> (r: Option<Dec>)
    requires
        dec_wf(a),
        dec_wf(b),
    ensures
        r == spec_dec_sub(a, b),
        r matches Some(d) ==> dec_wf(d),
{
    let s: u32 = if a.scale >= b.scale {
        a.scale
    } else {
        b.scale
    };
    proof {
        lemma_scale_bounds(a.scale, b.scale);
        lemma_mul_range(a.mant as int, pow10((s - a.scale) as nat) as int, 0x8000_0000_0000_0000, 1000000000);
        lemma_mul_range(b.mant as int, pow10((s - b.scale) as nat) as int, 0x8000_0000_0000_0000, 1000000000);
    }
    let pa = pow10_u64(s - a.scale);
    let pb = pow10_u64(s - b.scale);
    let m: i128 = (a.mant as i128) * (pa as i128) - (b.mant as i128) * (pb as i128);
    make_dec(m, s)
}

/// Exact product of two canonical decimals, truncated to nine fractional
/// digits; `None` reports overflow.
pub fn dec_mul(a: Dec, b: Dec) -> (r: Option<Dec>)
    requires
        dec_wf(a),
        dec_wf(b),
    ensures
        r == spec_dec_mul(a, b),
        r matches Some(d) ==> dec_wf(d),
{
    proof {
        let aa = a.mant as int;
        let bb = b.mant as int;
        assert(-(0x8000_0000_0000_0000 * 0x8000_0000_0000_0000) <= aa * bb
            <= 0x8000_0000_0000_0000 * 0x8000_0000_0000_0000) by (nonlinear_arith)
            requires
                -0x8000_0000_0000_0000 <= aa <= 0x7FFF_FFFF_FFFF_FFFF,
                -0x8000_0000_0000_0000 <= bb <= 0x7FFF_FFFF_FFFF_FFFF,
        ;
    }
    let m: i128 = (a.mant as i128) * (b.mant as i128);
    make_dec(m, a.scale + b.scale)
}

/// Quotient of two canonical decimals, truncated toward zero at nine
/// fractional digits; the divisor must not be zero.
pub fn dec_div(a: Dec, b: Dec) -> (r: Option<Dec>)
    requires
        dec_wf(a),
        dec_wf(b),
        b.mant != 0,
    ensures
        r == spec_dec_div(a, b),
        r matches Some(d) ==> dec_wf(d),
{
    let neg = (a.mant < 0) != (b.mant < 0);
    let amag: u64 = if a.mant < 0 {
        (-(a.mant as i128)) as u64
    } else {
        a.mant as u64
    };
    let bmag: u64 = if b.mant < 0 {
        (-(b.mant as i128)) as u64
    } else {
        b.mant as u64
    };
    proof {
        lemma_scale_bounds(a.scale, b.scale);
        lemma_mul_range(
            amag as int,
            pow10((MAX_SCALE + b.scale) as nat) as int,
            0x8000_0000_0000_0000,
            1000000000000000000,
        );
        lemma_mul_range(
            bmag as int,
            pow10(a.scale as nat) as int,
            0x8000_0000_0000_0000,
            1000000000,
        );
        vstd::arithmetic::mul::lemma_mul_strictly_positive(
            bmag as int,
            pow10(a.scale as nat) as int,
        );
        lemma_pow10_pos(a.scale as nat);
        lemma_pow10_pos((MAX_SCALE + b.scale) as nat);
    }
    let num: u128 = (amag as u128) * pow10_u128(MAX_SCALE + b.scale);
    let den: u128 = (bmag as u128) * pow10_u128(a.scale);
    let q: u128 = num / den;
    proof {
        lemma_div_is_ordered_by_denominator(num as int, 1, den as int);
    }
    let m: i128 = if neg {
        -(q as i128)
    } else {
        q as i128
    };
    make_dec(m, MAX_SCALE)
}

/// Sum of two machine integers; `None` reports overflow.
pub open spec fn spec_int_add(a: i64, b: i64) -> Option<i64> {
    if i64::MIN <= a + b <= i64::MAX {
        Some((a + b) as i64)
    } else {
        None
    }
}

/// Difference of two machine integers; `None` reports overflow.
pub open spec fn spec_int_sub(a: i64, b: i64) -> Option<i64> {
    if i64::MIN <= a - b <= i64::MAX {
        Some((a - b) as i64)
    } else {
        None
    }
}

/// Product of two machine integers; `None` reports overflow.
pub open spec fn spec_int_mul(a: i64, b: i64) -> Option<i64> {
    if i64::MIN <= a * b <= i64::MAX {
        Some((a * b) as i64)
    } else {
        None
    }
}

pub fn int_add(a: i64, b: i64) -> (r: Option<i64>)
    ensures
        r == spec_int_add(a, b),
{
    let m: i128 = a as i128 + b as i128;
    if -0x8000_0000_0000_0000i128 <= m && m <= 0x7FFF_FFFF_FFFF_FFFFi128 {
        Some(m as i64)
    } else {
        None
    }
}

pub fn int_sub(a: i64, b: i64) -> (r: Option<i64>)
    ensures
        r == spec_int_sub(a, b),
{
    let m: i128 = a as i128 - b as i128;
    if -0x8000_0000_0000_0000i128 <= m && m <= 0x7FFF_FFFF_FFFF_FFFFi128 {
        Some(m as i64)
    } else {
        None
    }
}

pub fn int_mul(a: i64, b: i64) -> (r: Option<i64>)
    ensures
        r == spec_int_mul(a, b),
{
    proof {
        let aa = a as int;
        let bb = b as int;
        assert(-(0x8000_0000_0000_0000 * 0x8000_0000_0000_0000) <= aa * bb
            <= 0x8000_0000_0000_0000 * 0x8000_0000_0000_0000) by (nonlinear_arith)
            requires
                -0x8000_0000_0000_0000 <= aa <= 0x7FFF_FFFF_FFFF_FFFF,
                -0x8000_0000_0000_0000 <= bb <= 0x7FFF_FFFF_FFFF_FFFF,
        ;
    }
    let m: i128 = (a as i128) * (b as i128);
    if -0x8000_0000_0000_0000i128 <= m && m <= 0x7FFF_FFFF_FFFF_FFFFi128 {
        Some(m as i64)
    } else {
        None
    }
}

/// An integer seen as a decimal with no fractional digits.
pub fn to_dec(i: i64) -> (r: Dec)
    ensures
        r == spec_to_dec(i),
        dec_wf(r),
{
    Dec { mant: i, scale: 0 }
}

} // verus!
