//! Fixed-point arithmetic on unsigned 48-fractional-bit values held in `u128`.
//!
//! A value `v` stands for the real number `v / 2^48`, so there are 80 integer
//! bits and 48 fractional bits.  Every operation either returns the exact
//! truncated result or reports a typed failure; nothing wraps silently.

use vstd::prelude::*;

use crate::errors::OrbitalError;

verus! {

/// The scale factor: `2^48`.  A raw integer `n` is represented as `n * SCALE`.
pub const SCALE: u128 = 0x1_0000_0000_0000;

/// The largest raw integer whose scaled form fits the width: `2^80 - 1`.
pub const MAX_RAW: u128 = 0xFFFF_FFFF_FFFF_FFFF_FFFF;

/// What `convert_to_fixed` returns.
pub open spec fn to_fixed_spec(value: u128) -> Result<u128, OrbitalError> {
    if value <= MAX_RAW {
        Ok((value * SCALE) as u128)
    } else {
        Err(OrbitalError::Overflow)
    }
}

/// Scales a raw integer up into fixed-point form; `Overflow` when the scaled
/// value would not fit the 80 integer bits.
pub fn convert_to_fixed(value: u128) -> (res: Result<u128, OrbitalError>)
    ensures
        res == to_fixed_spec(value),
{
    if value <= MAX_RAW {
        Ok(value * SCALE)
    } else {
        Err(OrbitalError::Overflow)
    }
}

/// What `convert_from_fixed` returns: the integer part of the value.
pub open spec fn from_fixed_spec(value: u128) -> int {
    value as int / SCALE as int
}

/// Scales a fixed-point value down to its raw integer part (truncating).
pub fn convert_from_fixed(value: u128) -> (res: u128)
    ensures
        res == from_fixed_spec(value),
{
    value / SCALE
}

/// What `add_fixed` returns.
pub open spec fn add_fixed_spec(a: u128, b: u128) -> Result<u128, OrbitalError> {
    if a + b <= u128::MAX {
        Ok((a + b) as u128)
    } else {
        Err(OrbitalError::Overflow)
    }
}

/// Adds two fixed-point values; `Overflow` exactly when the true sum exceeds
/// the representable width.
pub fn add_fixed(a: u128, b: u128) -> (res: Result<u128, OrbitalError>)
    ensures
        res == add_fixed_spec(a, b),
{
    match a.checked_add(b) {
        Some(v) => Ok(v),
        None => Err(OrbitalError::Overflow),
    }
}

/// What `sub_fixed` returns.
pub open spec fn sub_fixed_spec(a: u128, b: u128) -> Result<u128, OrbitalError> {
    if a >= b {
        Ok((a - b) as u128)
    } else {
        Err(OrbitalError::Underflow)
    }
}

/// Subtracts `b` from `a`; `Underflow` exactly when `b > a`.
pub fn sub_fixed(a: u128, b: u128) -> (res: Result<u128, OrbitalError>)
    ensures
        res == sub_fixed_spec(a, b),
{
    if a >= b {
        Ok(a - b)
    } else {
        Err(OrbitalError::Underflow)
    }
}

/// What `mul_fixed` returns: the truncation of `a * b / 2^48`, or `Overflow`
/// when that value does not fit the width.
pub open spec fn mul_fixed_spec(a: u128, b: u128) -> Result<u128, OrbitalError> {
    if (a * b) / (SCALE as int) <= u128::MAX {
        Ok(((a * b) / (SCALE as int)) as u128)
    } else {
        Err(OrbitalError::Overflow)
    }
}

/// Reassociation: a constant factor moves to the outside of a product.
proof fn lemma_pull_factor(s: int, x: int, y: int)
    ensures
        (s * x) * y == (x * y) * s,
        x * (s * y) == (x * y) * s,
{
    vstd::arithmetic::mul::lemma_mul_is_associative(s, x, y);
    vstd::arithmetic::mul::lemma_mul_is_commutative(s, x * y);
    vstd::arithmetic::mul::lemma_mul_is_associative(x, s, y);
    vstd::arithmetic::mul::lemma_mul_is_commutative(x, s);
}

/// One digit-split step: with `n == s * nh + nl`,
/// `n * m == (nh * m) * s + nl * m`.
proof fn lemma_digit_split(s: int, n: int, nh: int, nl: int, m: int)
    requires
        n == s * nh + nl,
    ensures
        n * m == (nh * m) * s + nl * m,
{
    vstd::arithmetic::mul::lemma_mul_is_distributive_add_other_way(m, s * nh, nl);
    lemma_pull_factor(s, nh, m);
}

/// The product of two scaled values, split at the 48-bit boundary, equals the
/// four partial products reassembled; this is what lets `mul_fixed` use only
/// single-width arithmetic.
proof fn lemma_mul_split(a: u128, b: u128)
    ensures
        (a * b) / (SCALE as int) == (a as int / SCALE as int) * (b as int / SCALE as int) * SCALE
            + (a as int / SCALE as int) * (b as int % SCALE as int) + (a as int % SCALE as int) * (
        b as int / SCALE as int) + ((a as int % SCALE as int) * (b as int % SCALE as int)) / (
        SCALE as int),
        (a as int / SCALE as int) * (b as int % SCALE as int) < u128::MAX,
        (a as int % SCALE as int) * (b as int / SCALE as int) < u128::MAX,
        (a as int % SCALE as int) * (b as int % SCALE as int) < u128::MAX,
{
    let s = SCALE as int;
    let ah = a as int / s;
    let al = a as int % s;
    let bh = b as int / s;
    let bl = b as int % s;
    vstd::arithmetic::div_mod::lemma_fundamental_div_mod(a as int, s);
    vstd::arithmetic::div_mod::lemma_fundamental_div_mod(b as int, s);
    assert(ah <= MAX_RAW && bh <= MAX_RAW) by {
        vstd::arithmetic::div_mod::lemma_multiply_divide_lt(a as int, s, MAX_RAW as int + 1);
        vstd::arithmetic::div_mod::lemma_multiply_divide_lt(b as int, s, MAX_RAW as int + 1);
    }
    // a * b == (ah * b) * s + al * b
    lemma_digit_split(s, a as int, ah, al, b as int);
    // ah * b == (ah * bh) * s + ah * bl and al * b == (al * bh) * s + al * bl
    assert(ah * (s * bh + bl) == ah * (s * bh) + ah * bl) by {
        vstd::arithmetic::mul::lemma_mul_is_distributive_add(ah, s * bh, bl);
    }
    lemma_pull_factor(s, ah, bh);
    assert(al * (s * bh + bl) == al * (s * bh) + al * bl) by {
        vstd::arithmetic::mul::lemma_mul_is_distributive_add(al, s * bh, bl);
    }
    lemma_pull_factor(s, al, bh);
    // fold the fractional part through the division
    assert((al * b) / s == al * bh + (al * bl) / s) by {
        vstd::arithmetic::div_mod::lemma_hoist_over_denominator(al * bl, al * bh, SCALE as nat);
    }
    let j = ah * b + al * bh;
    assert(a * b == j * s + al * bl) by {
        assert((ah * b) * s + ((al * bh) * s + al * bl) == (ah * b + al * bh) * s + al * bl) by {
            vstd::arithmetic::mul::lemma_mul_is_distributive_add_other_way(s, ah * b, al * bh);
        }
    }
    assert((a * b) / s == (al * bl) / s + j) by {
        vstd::arithmetic::div_mod::lemma_hoist_over_denominator(al * bl, j, SCALE as nat);
    }
    assert(ah * bl < u128::MAX && al * bh < u128::MAX && al * bl < u128::MAX) by (nonlinear_arith)
        requires
            0 <= ah <= MAX_RAW,
            0 <= bh <= MAX_RAW,
            0 <= al < SCALE,
            0 <= bl < SCALE,
    ;
    assert(ah * bh * s + ah * bl + al * bh == j) by {
        vstd::arithmetic::mul::lemma_mul_is_distributive_add(ah, bh * s, bl);
        lemma_pull_factor(s, ah, bh);
        vstd::arithmetic::mul::lemma_mul_is_commutative(bh, s);
        assert(ah * b == ah * (s * bh) + ah * bl);
    }
}

/// Multiplies two fixed-point values as `(a * b) / 2^48`, using four partial
/// products in place of a double-width intermediate; `Overflow` exactly when
/// the true result exceeds the representable width.
pub fn mul_fixed(a: u128, b: u128) -> (res: Result<u128, OrbitalError>)
    ensures
        res == mul_fixed_spec(a, b),
{
    proof {
        lemma_mul_split(a, b);
    }
    let ah = a / SCALE;
    let al = a % SCALE;
    let bh = b / SCALE;
    let bl = b % SCALE;
    let ghost total: int = (a * b) / (SCALE as int);
    let hh = match ah.checked_mul(bh) {
        Some(v) => v,
        None => {
            proof {
                assert(ah * bh * SCALE >= ah * bh) by (nonlinear_arith)
                    requires
                        ah * bh >= 0,
                ;
            }
            return Err(OrbitalError::Overflow);
        },
    };
    let hh_scaled = match hh.checked_mul(SCALE) {
        Some(v) => v,
        None => {
            return Err(OrbitalError::Overflow);
        },
    };
    let mid1 = ah * bl;
    let mid2 = al * bh;
    let low = (al * bl) / SCALE;
    let s1 = match hh_scaled.checked_add(mid1) {
        Some(v) => v,
        None => {
            return Err(OrbitalError::Overflow);
        },
    };
    let s2 = match s1.checked_add(mid2) {
        Some(v) => v,
        None => {
            return Err(OrbitalError::Overflow);
        },
    };
    let s3 = match s2.checked_add(low) {
        Some(v) => v,
        None => {
            return Err(OrbitalError::Overflow);
        },
    };
    Ok(s3)
}

/// What `div_fixed` returns: the truncation of `a * 2^48 / b`,
/// `DivisionByZero` when `b` is zero, `Overflow` when the true quotient does
/// not fit the width.
pub open spec fn div_fixed_spec(a: u128, b: u128) -> Result<u128, OrbitalError> {
    if b == 0 {
        Err(OrbitalError::DivisionByZero)
    } else if (a * SCALE) / (b as int) <= u128::MAX {
        Ok(((a * SCALE) / (b as int)) as u128)
    } else {
        Err(OrbitalError::Overflow)
    }
}

/// The scaled quotient splits into a whole part and a fractional part:
/// `a * 2^48 / b == (a / b) * 2^48 + (a % b) * 2^48 / b`, and the fractional
/// part is below `2^48`.
proof fn lemma_div_split(a: u128, b: u128)
    requires
        b > 0,
    ensures
        (a * SCALE) / (b as int) == (a as int / b as int) * SCALE + ((a as int % b as int) * SCALE)
            / (b as int),
        ((a as int % b as int) * SCALE) / (b as int) < SCALE,
{
    let q0 = a as int / b as int;
    let r0 = a as int % b as int;
    vstd::arithmetic::div_mod::lemma_fundamental_div_mod(a as int, b as int);
    assert(a * SCALE == r0 * SCALE + (q0 * SCALE) * b) by (nonlinear_arith)
        requires
            a == b * q0 + r0,
    ;
    assert((r0 * SCALE + (q0 * SCALE) * b) / (b as int) == (r0 * SCALE) / (b as int) + q0 * SCALE)
        by {
        vstd::arithmetic::div_mod::lemma_hoist_over_denominator(r0 * SCALE, q0 * SCALE, b as nat);
    }
    assert(r0 * SCALE < b * SCALE) by (nonlinear_arith)
        requires
            0 <= r0 < b,
    ;
    vstd::arithmetic::div_mod::lemma_multiply_divide_lt(r0 * SCALE, b as int, SCALE as int);
}

/// Divides two fixed-point values as `a * 2^48 / b`, computing the
/// fractional part by 48 shift-and-subtract steps in place of a double-width
/// intermediate.  `DivisionByZero` when `b == 0`; `Overflow` exactly when the
/// true quotient exceeds the representable width.
pub fn div_fixed(a: u128, b: u128) -> (res: Result<u128, OrbitalError>)
    ensures
        res == div_fixed_spec(a, b),
{
    if b == 0 {
        return Err(OrbitalError::DivisionByZero);
    }
    proof {
        lemma_div_split(a, b);
    }
    let q0 = a / b;
    if q0 > u128::MAX / SCALE {
        proof {
            assert(q0 * SCALE >= (MAX_RAW + 1) * SCALE) by (nonlinear_arith)
                requires
                    q0 >= MAX_RAW + 1,
            ;
        }
        return Err(OrbitalError::Overflow);
    }
    let mut rem = a % b;
    let mut frac: u128 = 0;
    let mut i: u8 = 0;
    proof {
        vstd::arithmetic::power2::lemma2_to64();
        vstd::arithmetic::power2::lemma2_to64_rest();
    }
    while i < 48
        invariant
            0 < b,
            i <= 48,
            rem < b,
            frac < vstd::arithmetic::power2::pow2(i as nat),
            vstd::arithmetic::power2::pow2(48) == SCALE,
            (a as int % b as int) * vstd::arithmetic::power2::pow2(i as nat) == frac * b + rem,
        decreases 48 - i,
    {
        proof {
            vstd::arithmetic::power2::lemma_pow2_strictly_increases(i as nat, 48);
            vstd::arithmetic::power2::lemma_pow2_adds(i as nat, 1);
            vstd::arithmetic::power2::lemma2_to64();
            let p = vstd::arithmetic::power2::pow2(i as nat) as int;
            let r0 = a as int % b as int;
            assert(r0 * (p * 2) == 2 * (frac * b) + 2 * rem) by (nonlinear_arith)
                requires
                    r0 * p == frac * b + rem,
            ;
            assert((2 * frac + 1) * b == 2 * (frac * b) + b) by (nonlinear_arith);
            assert((2 * frac) * b == 2 * (frac * b)) by (nonlinear_arith);
        }
        let away = b - rem;
        if rem >= away {
            rem = rem - away;
            frac = 2 * frac + 1;
        } else {
            rem = rem + rem;
            frac = 2 * frac;
        }
        i = i + 1;
    }
    proof {
        vstd::arithmetic::div_mod::lemma_fundamental_div_mod_converse(
            (a as int % b as int) * SCALE,
            b as int,
            frac as int,
            rem as int,
        );
    }
    Ok(q0 * SCALE + frac)
}

/// `2^64`, the digit boundary used when squaring a candidate root.
pub const TWO64: u128 = 0x1_0000_0000_0000_0000;

/// `2^80`, the digit boundary used when scaling a radicand.
pub const TWO80: u128 = 0x1_0000_0000_0000_0000_0000;

/// `2^88`, an exclusive upper bound on every fixed-point square root.
pub const TWO88: u128 = 0x100_0000_0000_0000_0000_0000;

/// The integer square root: the unique `s` with `s^2 <= n < (s+1)^2`.
pub open spec fn isqrt(n: nat) -> nat
    decreases n,
{
    if n == 0 {
        0
    } else {
        let p = isqrt((n - 1) as nat);
        if (p + 1) * (p + 1) <= n {
            (p + 1) as nat
        } else {
            p
        }
    }
}

/// `isqrt(n)` is bracketed by the two consecutive squares around `n`.
pub proof fn lemma_isqrt_bracket(n: nat)
    ensures
        isqrt(n) * isqrt(n) <= n,
        n < (isqrt(n) + 1) * (isqrt(n) + 1),
    decreases n,
{
    if n == 0 {
        let s1 = isqrt(n) + 1;
        assert(s1 * s1 == 1) by (nonlinear_arith)
            requires
                s1 == 1,
        ;
    } else {
        lemma_isqrt_bracket((n - 1) as nat);
        let p = isqrt((n - 1) as nat);
        if (p + 1) * (p + 1) <= n {
            assert(n == (p + 1) * (p + 1));
            assert((p + 1) * (p + 1) < (p + 2) * (p + 2)) by (nonlinear_arith)
                requires
                    p >= 0,
            ;
        }
    }
}

/// Any value bracketed by consecutive squares is the integer square root.
pub proof fn lemma_isqrt_unique(n: nat, s: nat)
    requires
        s * s <= n,
        n < (s + 1) * (s + 1),
    ensures
        s == isqrt(n),
{
    lemma_isqrt_bracket(n);
    let t = isqrt(n);
    if s < t {
        assert((s + 1) * (s + 1) <= t * t) by (nonlinear_arith)
            requires
                0 <= s,
                s + 1 <= t,
        ;
    }
    if t < s {
        assert((t + 1) * (t + 1) <= s * s) by (nonlinear_arith)
            requires
                0 <= t,
                t + 1 <= s,
        ;
    }
}

/// The integer square root is monotonic.
pub proof fn lemma_isqrt_monotonic(n1: nat, n2: nat)
    requires
        n1 <= n2,
    ensures
        isqrt(n1) <= isqrt(n2),
{
    lemma_isqrt_bracket(n1);
    lemma_isqrt_bracket(n2);
    let a = isqrt(n1);
    let b = isqrt(n2);
    if b < a {
        assert((b + 1) * (b + 1) <= a * a) by (nonlinear_arith)
            requires
                0 <= b,
                b + 1 <= a,
        ;
    }
}

/// Comparing two double-width values digit by digit.
proof fn lemma_pair_le(ah: int, al: int, bh: int, bl: int, w: int)
    requires
        0 <= al < w,
        0 <= bl < w,
        0 <= ah,
        0 <= bh,
    ensures
        (ah * w + al <= bh * w + bl) <==> (ah < bh || (ah == bh && al <= bl)),
{
    if ah < bh {
        assert((ah + 1) * w <= bh * w) by {
            vstd::arithmetic::mul::lemma_mul_inequality(ah + 1, bh, w);
        }
        assert((ah + 1) * w == ah * w + w) by {
            vstd::arithmetic::mul::lemma_mul_is_distributive_add_other_way(w, ah, 1);
        }
    }
    if bh < ah {
        assert((bh + 1) * w <= ah * w) by {
            vstd::arithmetic::mul::lemma_mul_inequality(bh + 1, ah, w);
        }
        assert((bh + 1) * w == bh * w + w) by {
            vstd::arithmetic::mul::lemma_mul_is_distributive_add_other_way(w, bh, 1);
        }
    }
}

/// Decides `m * m <= y * 2^48` without a double-width integer, by assembling
/// both sides from 128-bit digits.
fn square_le_scaled(m: u128, y: u128) -> (le: bool)
    requires
        m <= TWO88,
    ensures
        le <==> m * m <= y * SCALE,
{
    let w: Ghost<int> = Ghost(TWO64 as int * TWO64 as int);
    let mh = m / TWO64;
    let ml = m % TWO64;
    proof {
        vstd::arithmetic::div_mod::lemma_fundamental_div_mod(m as int, TWO64 as int);
        vstd::arithmetic::div_mod::lemma_multiply_divide_le(m as int, TWO64 as int, 0x1000000int);
        vstd::arithmetic::mul::lemma_mul_upper_bound(
            mh as int,
            0x1000000int,
            ml as int,
            TWO64 as int - 1,
        );
        vstd::arithmetic::mul::lemma_mul_upper_bound(mh as int, 0x1000000int, mh as int, 0x1000000int);
        vstd::arithmetic::mul::lemma_mul_upper_bound(
            ml as int,
            TWO64 as int - 1,
            ml as int,
            TWO64 as int - 1,
        );
    }
    let cross2 = 2 * (mh * ml);
    let ch = cross2 / TWO64;
    let cl = (cross2 % TWO64) * TWO64;
    let sq = ml * ml;
    let mut hi = mh * mh + ch;
    let lo: u128;
    if cl > u128::MAX - sq {
        hi = hi + 1;
        lo = cl - (u128::MAX - sq) - 1;
    } else {
        lo = cl + sq;
    }
    proof {
        let t = TWO64 as int;
        // m * m == (mh*m)*t + ml*m, then split each factor again
        lemma_digit_split(t, m as int, mh as int, ml as int, m as int);
        lemma_digit_split(t, m as int, mh as int, ml as int, mh as int);
        lemma_digit_split(t, m as int, mh as int, ml as int, ml as int);
        vstd::arithmetic::mul::lemma_mul_is_commutative(mh as int, m as int);
        vstd::arithmetic::mul::lemma_mul_is_commutative(ml as int, m as int);
        // m*m == ((mh*mh)*t + ml*mh)*t + (mh*ml)*t + ml*ml
        assert(((mh * mh) * t + ml * mh) * t == ((mh * mh) * t) * t + (ml * mh) * t) by {
            vstd::arithmetic::mul::lemma_mul_is_distributive_add_other_way(
                t,
                (mh * mh) * t,
                ml * mh,
            );
        }
        assert(((mh * mh) * t) * t == (mh * mh) * w@) by {
            vstd::arithmetic::mul::lemma_mul_is_associative(mh as int * mh as int, t, t);
        }
        vstd::arithmetic::mul::lemma_mul_is_commutative(ml as int, mh as int);
        // cross2 == 2*mh*ml splits at t
        vstd::arithmetic::div_mod::lemma_fundamental_div_mod(cross2 as int, t);
        lemma_digit_split(t, cross2 as int, ch as int, (cross2 % TWO64) as int, t);
        assert((ch * t) * t == ch * w@) by {
            vstd::arithmetic::mul::lemma_mul_is_associative(ch as int, t, t);
        }
        assert(m * m == (mh * mh + ch) * w@ + (cl + sq)) by {
            assert((ml * mh) * t + (mh * ml) * t == cross2 * t) by {
                vstd::arithmetic::mul::lemma_mul_is_distributive_add_other_way(
                    t,
                    ml as int * mh as int,
                    mh as int * ml as int,
                );
            }
            assert(cross2 * t == (ch * t) * t + cl) by {
                vstd::arithmetic::mul::lemma_mul_is_distributive_add_other_way(
                    t,
                    ch * t,
                    (cross2 % TWO64) as int,
                );
            }
            assert((mh * mh + ch) * w@ == (mh * mh) * w@ + ch * w@) by {
                vstd::arithmetic::mul::lemma_mul_is_distributive_add_other_way(
                    w@,
                    mh as int * mh as int,
                    ch as int,
                );
            }
        }
        assert(m * m == hi * w@ + lo) by {
            if cl > u128::MAX - sq {
                assert((mh * mh + ch + 1) * w@ == (mh * mh + ch) * w@ + w@) by {
                    vstd::arithmetic::mul::lemma_mul_is_distributive_add_other_way(
                        w@,
                        mh as int * mh as int + ch as int,
                        1,
                    );
                }
            }
        }
    }
    let yh = y / TWO80;
    let yl = (y % TWO80) * SCALE;
    proof {
        vstd::arithmetic::div_mod::lemma_fundamental_div_mod(y as int, TWO80 as int);
        lemma_digit_split(TWO80 as int, y as int, yh as int, (y % TWO80) as int, SCALE as int);
        assert((yh * SCALE) * TWO80 == yh * w@) by {
            vstd::arithmetic::mul::lemma_mul_is_associative(yh as int, SCALE as int, TWO80 as int);
        }
        assert(y * SCALE == yh * w@ + yl);
        lemma_pair_le(hi as int, lo as int, yh as int, yl as int, w@);
    }
    if hi < yh {
        true
    } else if hi > yh {
        false
    } else {
        lo <= yl
    }
}

/// What `sqrt_fixed` returns: the integer square root of the radicand lifted
/// by one scale factor, which preserves the fixed-point scale.
pub open spec fn sqrt_fixed_spec(y: u128) -> u128 {
    isqrt((y * SCALE) as nat) as u128
}

/// Square root of a fixed-point value, by bisection on the scaled radicand.
/// The result is exact (`r^2 <= y * 2^48 < (r+1)^2`), always fits the width,
/// and the iteration count is a fixed constant of the width.
pub fn sqrt_fixed(y: u128) -> (r: u128)
    ensures
        r == sqrt_fixed_spec(y),
        r * r <= y * SCALE,
        y * SCALE < (r + 1) * (r + 1),
        r < TWO88,
{
    let mut lo: u128 = 0;
    let mut hi: u128 = TWO88;
    proof {
        assert(TWO88 as int * TWO88 as int > u128::MAX as int * SCALE as int);
    }
    while hi - lo > 1
        invariant
            lo < hi <= TWO88,
            lo * lo <= y * SCALE,
            y * SCALE < hi * hi,
        decreases hi - lo,
    {
        let mid = lo + (hi - lo) / 2;
        if square_le_scaled(mid, y) {
            lo = mid;
        } else {
            hi = mid;
        }
    }
    proof {
        assert(y * SCALE < (lo + 1) * (lo + 1));
        lemma_isqrt_unique((y * SCALE) as nat, lo as nat);
    }
    lo
}

/// A signed fixed-point value in sign-and-magnitude form; zero is always
/// carried as non-negative.
#[derive(Clone, Copy, Debug, PartialEq, Eq, Structural)]
pub struct SignedFixed {
    pub is_negative: bool,
    pub magnitude: u128,
}

/// The mathematical value a `SignedFixed` stands for (still scaled by `2^48`).
pub open spec fn signed_val(s: SignedFixed) -> int {
    if s.is_negative {
        -(s.magnitude as int)
    } else {
        s.magnitude as int
    }
}

/// The exact signed difference of two fixed-point values.
pub fn signed_sub_fixed(a: u128, b: u128) -> (r: SignedFixed)
    ensures
        signed_val(r) == a - b,
        r.magnitude == (if a >= b {
            a - b
        } else {
            b - a
        }),
        r.is_negative ==> r.magnitude > 0,
{
    if a >= b {
        SignedFixed { is_negative: false, magnitude: a - b }
    } else {
        SignedFixed { is_negative: true, magnitude: b - a }
    }
}

/// The exact difference of two signed fixed-point values.
pub fn signed_diff(a: SignedFixed, b: SignedFixed) -> (r: SignedFixed)
    requires
        a.magnitude + b.magnitude <= u128::MAX,
    ensures
        signed_val(r) == signed_val(a) - signed_val(b),
        r.magnitude <= a.magnitude + b.magnitude,
        r.is_negative ==> r.magnitude > 0,
{
    if a.is_negative == b.is_negative {
        if a.is_negative {
            signed_sub_fixed(b.magnitude, a.magnitude)
        } else {
            signed_sub_fixed(a.magnitude, b.magnitude)
        }
    } else {
        let m = a.magnitude + b.magnitude;
        if a.is_negative {
            if m == 0 {
                SignedFixed { is_negative: false, magnitude: 0 }
            } else {
                SignedFixed { is_negative: true, magnitude: m }
            }
        } else {
            SignedFixed { is_negative: false, magnitude: m }
        }
    }
}

/// Clamp of an integer into the non-negative range.
pub open spec fn clamp0(v: int) -> int {
    if v >= 0 {
        v
    } else {
        0
    }
}

/// Subtraction clamped at zero: `max(0, a - b)`.
pub fn clamped_sub_fixed(a: u128, b: u128) -> (r: u128)
    ensures
        r == clamp0(a - b),
{
    if a >= b {
        a - b
    } else {
        0
    }
}

/// The smaller of two fixed-point values.
pub fn min_fixed(a: u128, b: u128) -> (r: u128)
    ensures
        r == (if a <= b {
            a
        } else {
            b
        }),
{
    if a <= b {
        a
    } else {
        b
    }
}

/// The larger of two fixed-point values.
pub fn max_fixed(a: u128, b: u128) -> (r: u128)
    ensures
        r == (if a >= b {
            a
        } else {
            b
        }),
{
    if a >= b {
        a
    } else {
        b
    }
}

/// The absolute difference `|a - b|` of two fixed-point values.
pub fn abs_diff_fixed(a: u128, b: u128) -> (r: u128)
    ensures
        r == (if a >= b {
            a - b
        } else {
            b - a
        }),
{
    if a >= b {
        a - b
    } else {
        b - a
    }
}

/// Fixed-point multiplication whose result is known by the caller to fit.
pub fn mul_fixed_in_range(a: u128, b: u128) -> (r: u128)
    requires
        (a * b) / (SCALE as int) <= u128::MAX,
    ensures
        r == (a * b) / (SCALE as int),
{
    match mul_fixed(a, b) {
        Ok(v) => v,
        Err(_) => {
            proof {
                assert(false);
            }
            0
        },
    }
}

/// Fixed-point division whose divisor is nonzero and whose result is known
/// by the caller to fit.
pub fn div_fixed_in_range(a: u128, b: u128) -> (r: u128)
    requires
        b > 0,
        (a * SCALE) / (b as int) <= u128::MAX,
    ensures
        r == (a * SCALE) / (b as int),
{
    match div_fixed(a, b) {
        Ok(v) => v,
        Err(_) => {
            proof {
                assert(false);
            }
            0
        },
    }
}

/// Dividing by a value of at least one cannot grow a fixed-point number:
/// the quotient is defined and bounded by the dividend.
pub proof fn lemma_div_by_at_least_one(a: u128, b: u128)
    requires
        b >= SCALE,
    ensures
        div_fixed_spec(a, b) matches Ok(q) && q <= a,
        (a * SCALE) / (b as int) <= a,
{
    vstd::arithmetic::div_mod::lemma_div_is_ordered_by_denominator(
        a as int * SCALE as int,
        SCALE as int,
        b as int,
    );
    vstd::arithmetic::div_mod::lemma_div_multiples_vanish(a as int, SCALE as int);
    vstd::arithmetic::mul::lemma_mul_is_commutative(a as int, SCALE as int);
}

/// A product of bounded fixed-point values is bounded by the product of the
/// bounds.
pub proof fn lemma_mul_fixed_bound(a: u128, b: u128, ca: u128, cb: u128)
    requires
        a <= ca,
        b <= cb,
    ensures
        (a * b) / (SCALE as int) <= (ca * cb) / (SCALE as int),
{
    vstd::arithmetic::mul::lemma_mul_upper_bound(a as int, ca as int, b as int, cb as int);
    vstd::arithmetic::div_mod::lemma_div_is_ordered(
        a as int * b as int,
        ca as int * cb as int,
        SCALE as int,
    );
}

/// Floor division distributes over a sum up to one unit.
proof fn lemma_div_sum_upper(a: int, b: int, d: int)
    requires
        d >= 1,
        a >= 0,
        b >= 0,
    ensures
        (a + b) / d <= a / d + b / d + 1,
{
    let qa = a / d;
    let ra = a % d;
    let qb = b / d;
    let rb = b % d;
    vstd::arithmetic::div_mod::lemma_fundamental_div_mod(a, d);
    vstd::arithmetic::div_mod::lemma_fundamental_div_mod(b, d);
    assert(d * (qa + qb) == d * qa + d * qb) by {
        vstd::arithmetic::mul::lemma_mul_is_distributive_add(d, qa, qb);
    }
    if ra + rb < d {
        vstd::arithmetic::div_mod::lemma_fundamental_div_mod_converse(a + b, d, qa + qb, ra + rb);
    } else {
        assert(d * (qa + qb + 1) == d * (qa + qb) + d) by {
            vstd::arithmetic::mul::lemma_mul_is_distributive_add(d, qa + qb, 1);
        }
        vstd::arithmetic::div_mod::lemma_fundamental_div_mod_converse(
            a + b,
            d,
            qa + qb + 1,
            ra + rb - d,
        );
    }
}

/// Dividing a nonpositive offset cannot fall below the offset itself, and an
/// offset strictly inside one divisor's width divides to `-1` or `0`.
proof fn lemma_div_small_neg(r: int, b: int)
    requires
        b >= 1,
        r >= 0,
    ensures
        (-r) / b >= -r,
        (-r) / b <= 0,
        r < b ==> (-r) / b >= -1,
{
    let q = (-r) / b;
    let rr = (-r) % b;
    vstd::arithmetic::div_mod::lemma_fundamental_div_mod(-r, b);
    assert(q >= -r && q <= 0) by (nonlinear_arith)
        requires
            b >= 1,
            r >= 0,
            -r == b * q + rr,
            0 <= rr < b,
    ;
    if 0 < r < b {
        vstd::arithmetic::div_mod::lemma_fundamental_div_mod_converse(-r, b, -1, b - r);
    }
}

/// Multiplying by a nonzero value and dividing by it again returns the first
/// factor up to the truncation of the intermediate product: at most one unit
/// in the last place once `b` is at least one, and never more than one whole
/// scale step below `a` for any nonzero `b`.
pub proof fn lemma_mul_div_round_trip(a: u128, b: u128)
    requires
        b >= 1,
        mul_fixed_spec(a, b) is Ok,
    ensures
        mul_fixed_spec(a, b) matches Ok(m) && div_fixed_spec(m, b) matches Ok(d) && a - SCALE < d
            <= a && (b >= SCALE ==> a - 1 <= d),
{
    let s = SCALE as int;
    let ab = a as int * b as int;
    let m = ab / s;
    let r = ab % s;
    vstd::arithmetic::div_mod::lemma_fundamental_div_mod(ab, s);
    assert(m * s == ab - r) by {
        vstd::arithmetic::mul::lemma_mul_is_commutative(s, m);
    }
    let q = (-r) / b as int;
    assert((m * s) / b as int == a + q) by {
        vstd::arithmetic::div_mod::lemma_hoist_over_denominator(-r, a as int, b as nat);
        vstd::arithmetic::mul::lemma_mul_is_commutative(a as int, b as int);
    }
    lemma_div_small_neg(r, b as int);
    if b >= SCALE {
        assert(q >= -1);
    }
}

/// The scaled square root fits far inside the width, so the cast in
/// `sqrt_fixed_spec` is exact.
pub proof fn lemma_sqrt_spec_fits(x: u128)
    ensures
        sqrt_fixed_spec(x) == isqrt((x * SCALE) as nat),
        isqrt((x * SCALE) as nat) < TWO88,
{
    let n = (x * SCALE) as nat;
    lemma_isqrt_bracket(n);
    assert(isqrt(n) < TWO88) by {
        if isqrt(n) >= TWO88 {
            assert(isqrt(n) * isqrt(n) >= TWO88 * TWO88) by (nonlinear_arith)
                requires
                    isqrt(n) >= TWO88,
            ;
        }
    }
}

/// Monotonicity of the fixed-point square root.
pub proof fn lemma_sqrt_monotonic(x1: u128, x2: u128)
    requires
        x1 <= x2,
    ensures
        sqrt_fixed_spec(x1) <= sqrt_fixed_spec(x2),
{
    lemma_sqrt_spec_fits(x1);
    lemma_sqrt_spec_fits(x2);
    lemma_isqrt_monotonic((x1 * SCALE) as nat, (x2 * SCALE) as nat);
}

/// Squaring the fixed-point square root recovers the argument up to the
/// truncation window of the square: the square never exceeds the argument,
/// and falls short by at most two units beyond twice the root's integer part.
pub proof fn lemma_sqrt_square_close(x: u128)
    ensures
        mul_fixed_spec(sqrt_fixed_spec(x), sqrt_fixed_spec(x)) matches Ok(q) && q <= x && x - q
            <= 2 * (sqrt_fixed_spec(x) as int / SCALE as int) + 2,
{
    let s = SCALE as int;
    let n = (x * SCALE) as nat;
    lemma_sqrt_spec_fits(x);
    lemma_isqrt_bracket(n);
    let r = isqrt(n) as int;
    assert(r * r <= x * s);
    assert(x * s < (r + 1) * (r + 1));
    assert((r + 1) * (r + 1) == r * r + 2 * r + 1) by (nonlinear_arith);
    // the square fits and stays below the argument
    assert((r * r) / s <= x) by {
        vstd::arithmetic::div_mod::lemma_div_is_ordered(r * r, x as int * s, s);
        vstd::arithmetic::div_mod::lemma_div_multiples_vanish(x as int, s);
        vstd::arithmetic::mul::lemma_mul_is_commutative(x as int, s);
    }
    let q = (r * r) / s;
    // and falls short by at most 2*(r/s) + 2
    assert(x <= (r * r + 2 * r) / s) by {
        vstd::arithmetic::div_mod::lemma_div_is_ordered(x as int * s, r * r + 2 * r, s);
        vstd::arithmetic::div_mod::lemma_div_multiples_vanish(x as int, s);
        vstd::arithmetic::mul::lemma_mul_is_commutative(x as int, s);
    }
    assert((r * r + 2 * r) / s <= q + (2 * r) / s + 1) by {
        lemma_div_sum_upper(r * r, 2 * r, s);
    }
    assert((2 * r) / s <= 2 * (r / s) + 1) by {
        vstd::arithmetic::div_mod::lemma_fundamental_div_mod(r, s);
        assert(2 * r == s * (2 * (r / s)) + 2 * (r % s)) by (nonlinear_arith)
            requires
                r == s * (r / s) + r % s,
        ;
        if 2 * (r % s) < s {
            vstd::arithmetic::div_mod::lemma_fundamental_div_mod_converse(
                2 * r,
                s,
                2 * (r / s),
                2 * (r % s),
            );
        } else {
            assert(s * (2 * (r / s) + 1) == s * (2 * (r / s)) + s) by {
                vstd::arithmetic::mul::lemma_mul_is_distributive_add(s, 2 * (r / s), 1);
            }
            vstd::arithmetic::div_mod::lemma_fundamental_div_mod_converse(
                2 * r,
                s,
                2 * (r / s) + 1,
                2 * (r % s) - s,
            );
        }
    }
}

/// Round trip: scaling a representable raw integer up and back down returns
/// it unchanged.
pub proof fn lemma_convert_round_trip(value: u128)
    requires
        value <= MAX_RAW,
    ensures
        to_fixed_spec(value) matches Ok(f) && from_fixed_spec(f) == value,
{
    vstd::arithmetic::div_mod::lemma_div_multiples_vanish(value as int, SCALE as int);
}

} // verus!
