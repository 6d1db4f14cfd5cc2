//! Single-precision arithmetic on bit patterns, rounding toward zero.
//!
//! - Every operation truncates: bits below the 24-bit significand are dropped.
//! - A subnormal operand counts as a zero of its sign, and no result is subnormal: what would
//!   be too small is a zero, what would be too large is an infinity.
//! - Every NaN result is the one quiet NaN `0x7fc00000`.
//! - Conversions to integers saturate, and turn a NaN into 0.
//!
//! A pattern that is no NaN stands for the integer `signed_units`, in units of 2^-150. Sums and
//! comparisons are stated over those integers, and `round` says how an exact value
//! `m * 2^e` becomes a pattern.

use vstd::arithmetic::div_mod::{
    lemma_div_basics, lemma_div_denominator, lemma_fundamental_div_mod,
    lemma_fundamental_div_mod_converse,
};
use vstd::arithmetic::mul::{
    lemma_mul_inequality, lemma_mul_is_associative, lemma_mul_is_commutative,
    lemma_mul_strict_inequality,
};
use vstd::arithmetic::power2::{
    lemma2_to64, lemma_pow2_adds, lemma_pow2_pos, lemma_pow2_strictly_increases, pow2,
};
use vstd::bits::{lemma_u32_shr_is_div, lemma_u64_shl_is_mul};
use vstd::prelude::*;

verus! {

/// The quiet NaN that every NaN result is.
pub const CANONICAL_NAN32: u32 = 0x7fc0_0000;

// ---- what a bit pattern stands for ---------------------------------------------------------

pub open spec fn sign_of(bits: u32) -> u32 {
    bits >> 31
}

pub open spec fn exp_of(bits: u32) -> u32 {
    (bits >> 23) & 0xFF
}

pub open spec fn frac_of(bits: u32) -> u32 {
    bits & 0x7FFFFF
}

pub open spec fn is_nan(bits: u32) -> bool {
    exp_of(bits) == 0xFF && frac_of(bits) != 0
}

pub open spec fn is_inf(bits: u32) -> bool {
    exp_of(bits) == 0xFF && frac_of(bits) == 0
}

/// Zero or subnormal: the patterns that count as zero.
pub open spec fn is_zero(bits: u32) -> bool {
    exp_of(bits) == 0
}

/// The 24-bit significand, 0 where the pattern counts as zero.
pub open spec fn mant_of(bits: u32) -> nat {
    if is_zero(bits) {
        0
    } else {
        frac_of(bits) as nat + 0x800000
    }
}

/// The magnitude in units of 2^-150. That of an infinity is larger than that of every finite
/// pattern.
pub open spec fn units(bits: u32) -> nat {
    mant_of(bits) * pow2(exp_of(bits) as nat)
}

pub open spec fn signed_units(bits: u32) -> int {
    if sign_of(bits) == 1 {
        -(units(bits) as int)
    } else {
        units(bits) as int
    }
}

pub open spec fn signed_zero(sign: u32) -> u32 {
    sign << 31
}

pub open spec fn infinity(sign: u32) -> u32 {
    (sign << 31) | (0xFFu32 << 23)
}

// ---- rounding ------------------------------------------------------------------------------

/// The position of the leading bit of a positive number.
pub open spec fn floor_log2(m: nat) -> nat
    decreases m,
{
    if m < 2 {
        0
    } else {
        1 + floor_log2(m / 2)
    }
}

/// The leading 24 bits of `m`, shifted so that the first of them stands at position 23; the
/// bits below are dropped.
pub open spec fn leading24(m: nat) -> nat {
    let l = floor_log2(m);
    if l <= 23 {
        m * pow2((23 - l) as nat)
    } else {
        m / pow2((l - 23) as nat)
    }
}

/// The pattern for the positive value `m * 2^e` with the given sign, rounded toward zero.
pub open spec fn round(sign: u32, m: nat, e: int) -> u32 {
    let field = e + floor_log2(m) + 127;
    if field <= 0 {
        signed_zero(sign)
    } else if field >= 0xFF {
        infinity(sign)
    } else {
        (sign << 31) | ((field as u32) << 23) | ((leading24(m) as u32) & 0x7FFFFF)
    }
}

proof fn lemma_log_bounds(m: nat)
    requires
        m > 0,
    ensures
        pow2(floor_log2(m)) <= m < pow2(floor_log2(m) + 1),
    decreases m,
{
    lemma2_to64();
    if m >= 2 {
        lemma_log_bounds(m / 2);
        let l = floor_log2(m / 2);
        lemma_pow2_adds(1, l);
        lemma_pow2_adds(1, l + 1);
    }
}

pub proof fn lemma_pow2_le(i: nat, j: nat)
    requires
        i <= j,
    ensures
        pow2(i) <= pow2(j),
{
    if i < j {
        lemma_pow2_strictly_increases(i, j);
    }
}

proof fn lemma_log_unique(m: nat, l: nat)
    requires
        pow2(l) <= m < pow2(l + 1),
    ensures
        floor_log2(m) == l,
{
    lemma_pow2_pos(l);
    lemma_log_bounds(m);
    let k = floor_log2(m);
    if k < l {
        lemma_pow2_le(k + 1, l);
    } else if k > l {
        lemma_pow2_le(l + 1, k);
    }
}

/// Rounding keeps 24 bits and loses less than one unit of the last of them.
pub proof fn law_leading24_truncates(m: nat)
    requires
        m > 0,
    ensures
        0x80_0000 <= leading24(m) < 0x100_0000,
        floor_log2(m) <= 23 ==> leading24(m) == m * pow2((23 - floor_log2(m)) as nat),
        floor_log2(m) > 23 ==> leading24(m) * pow2((floor_log2(m) - 23) as nat) <= m < (leading24(m)
            + 1) * pow2((floor_log2(m) - 23) as nat),
{
    lemma2_to64();
    lemma_log_bounds(m);
    let l = floor_log2(m);
    if l <= 23 {
        let d = (23 - l) as nat;
        lemma_pow2_adds(l, d);
        lemma_pow2_adds(l + 1, d);
        lemma_pow2_pos(d);
        lemma_mul_inequality(pow2(l) as int, m as int, pow2(d) as int);
        lemma_mul_strict_inequality(m as int, pow2(l + 1) as int, pow2(d) as int);
    } else {
        let d = (l - 23) as nat;
        let p = pow2(d) as int;
        lemma_pow2_pos(d);
        lemma_pow2_adds(23, d);
        lemma_pow2_adds(24, d);
        let q = m as int / p;
        lemma_fundamental_div_mod(m as int, p);
        assert(q * p <= m < (q + 1) * p) by (nonlinear_arith)
            requires
                m == p * q + m as int % p,
                0 <= m as int % p < p,
        ;
        assert(q >= 0x80_0000) by (nonlinear_arith)
            requires
                m < (q + 1) * p,
                0x80_0000 * p <= m,
                p > 0,
        ;
        assert(q < 0x100_0000) by (nonlinear_arith)
            requires
                q * p <= m,
                m < 0x100_0000 * p,
                p > 0,
        ;
    }
}

/// A number whose leading 24 bits are `q` and whose leading bit stands at `l`.
proof fn lemma_bracket(m: nat, l: nat, q: nat)
    requires
        l >= 23,
        0x80_0000 <= q < 0x100_0000,
        q * pow2((l - 23) as nat) <= m < (q + 1) * pow2((l - 23) as nat),
    ensures
        m > 0,
        floor_log2(m) == l,
        leading24(m) == q,
{
    lemma2_to64();
    let d = (l - 23) as nat;
    let p = pow2(d) as int;
    lemma_pow2_pos(d);
    lemma_pow2_adds(23, d);
    lemma_pow2_adds(24, d);
    assert(0x80_0000 * p <= q * p) by (nonlinear_arith)
        requires
            0x80_0000 <= q,
            p > 0,
    ;
    assert((q + 1) * p <= 0x100_0000 * p) by (nonlinear_arith)
        requires
            q < 0x100_0000,
            p > 0,
    ;
    lemma_log_unique(m, l);
    let r = m as int - q * p;
    assert(0 <= r < p) by (nonlinear_arith)
        requires
            r == m as int - q * p,
            q * p <= m < (q + 1) * p,
    ;
    assert(m as int == q as int * p + r);
    lemma_fundamental_div_mod_converse(m as int, p, q as int, r);
    if l == 23 {
        assert(m * pow2(0) == m);
    }
}

/// `m * 2^j` at exponent `e` is `m` at exponent `e + j`.
proof fn lemma_round_scale(sign: u32, m: nat, j: nat, e: int)
    requires
        m > 0,
    ensures
        m * pow2(j) > 0,
        round(sign, m * pow2(j), e) == round(sign, m, e + j),
{
    lemma_log_bounds(m);
    let l = floor_log2(m);
    let n = m * pow2(j);
    lemma_pow2_pos(j);
    lemma_pow2_adds(l, j);
    lemma_pow2_adds(l + 1, j);
    lemma_mul_inequality(pow2(l) as int, m as int, pow2(j) as int);
    lemma_mul_strict_inequality(m as int, pow2(l + 1) as int, pow2(j) as int);
    lemma_pow2_pos(l + j);
    lemma_log_unique(n, l + j);
    if l + j <= 23 {
        lemma_pow2_adds(j, (23 - l - j) as nat);
        lemma_mul_is_associative(m as int, pow2(j) as int, pow2((23 - l - j) as nat) as int);
    } else if l <= 23 {
        let a = (23 - l) as nat;
        let b = (l + j - 23) as nat;
        lemma_pow2_adds(a, b);
        lemma_pow2_pos(b);
        lemma_mul_is_associative(m as int, pow2(a) as int, pow2(b) as int);
        lemma_fundamental_div_mod_converse(n as int, pow2(b) as int, m as int * pow2(a) as int, 0);
    } else {
        let a = (l - 23) as nat;
        let p = pow2(j) as int;
        let q = pow2(a) as int;
        lemma_pow2_adds(a, j);
        lemma_pow2_pos(a);
        lemma_mul_is_commutative(p, q);
        lemma_div_denominator(n as int, p, q);
        lemma_fundamental_div_mod_converse(n as int, p, m as int, 0);
    }
}

/// Doubling a number at one exponent less changes nothing.
pub proof fn lemma_round_double(sign: u32, m: nat, e: int)
    requires
        m > 0,
    ensures
        floor_log2(2 * m) == floor_log2(m) + 1,
        round(sign, 2 * m, e - 1) == round(sign, m, e),
{
    lemma2_to64();
    assert(m * pow2(1) == 2 * m);
    assert((2 * m) / 2 == m);
    lemma_round_scale(sign, m, 1, e - 1);
}

/// Dropping a bit below the leading 24 changes nothing.
pub proof fn lemma_round_halve(sign: u32, m: nat, e: int)
    requires
        m >= 0x100_0000,
    ensures
        floor_log2(m / 2) == floor_log2(m) - 1,
        floor_log2(m) > 23,
        round(sign, m / 2, e + 1) == round(sign, m, e),
{
    lemma2_to64();
    lemma_log_bounds(m);
    let l = floor_log2(m);
    if l < 24 {
        lemma_pow2_le(l + 1, 24);
    }
    let d = (l - 24) as nat;
    lemma_pow2_adds(1, d);
    lemma_pow2_pos(d);
    lemma_div_denominator(m as int, 2, pow2(d) as int);
    if l == 24 {
        assert(m / 2 * pow2(0) == m / 2);
        assert((m / 2) / pow2(0) == m / 2);
    }
}

/// A number of 24 bits is its own leading 24 bits.
pub proof fn lemma_log_of_24_bits(m: nat)
    requires
        0x80_0000 <= m < 0x100_0000,
    ensures
        floor_log2(m) == 23,
        leading24(m) == m,
{
    lemma2_to64();
    lemma_log_unique(m, 23);
    assert(m * pow2(0) == m);
}

pub proof fn lemma_log_of_64_bits(m: nat)
    requires
        0 < m < 0x1_0000_0000_0000_0000,
    ensures
        floor_log2(m) < 64,
{
    lemma2_to64();
    lemma_log_bounds(m);
    if floor_log2(m) >= 64 {
        lemma_pow2_le(64, floor_log2(m));
    }
}

/// A significand shifted far up, with something smaller than one of its units added.
proof fn lemma_far_sum(big: nat, d: nat, x: nat)
    requires
        0x80_0000 <= big < 0x100_0000,
        x < pow2(d),
    ensures
        big * pow2(d) + x > 0,
        floor_log2(big * pow2(d) + x) == d + 23,
        leading24(big * pow2(d) + x) == big,
{
    assert((big + 1) * pow2(d) == big * pow2(d) + pow2(d)) by (nonlinear_arith);
    lemma_bracket(big * pow2(d) + x, d + 23, big);
}

/// A significand shifted far up, with something positive and at most half a unit taken away.
proof fn lemma_far_difference(big: nat, d: nat, x: nat)
    requires
        0x80_0000 <= big < 0x100_0000,
        d >= 1,
        0 < x <= pow2((d - 1) as nat),
    ensures
        big * pow2(d) > x,
        big == 0x80_0000 ==> floor_log2((big * pow2(d) - x) as nat) == d + 22 && leading24(
            (big * pow2(d) - x) as nat,
        ) == 0xFF_FFFF,
        big > 0x80_0000 ==> floor_log2((big * pow2(d) - x) as nat) == d + 23 && leading24(
            (big * pow2(d) - x) as nat,
        ) == big - 1,
{
    lemma2_to64();
    let h = pow2((d - 1) as nat) as int;
    lemma_pow2_adds(1, (d - 1) as nat);
    lemma_pow2_pos((d - 1) as nat);
    let m = big as int * pow2(d) as int - x;
    assert(pow2(d) == 2 * h);
    assert(m > 0) by (nonlinear_arith)
        requires
            m == big * (2 * h) - x,
            x <= h,
            h > 0,
            big >= 1,
    ;
    assert(big * pow2(d) == big as int * pow2(d) as int);
    if big == 0x80_0000 {
        assert(0xFF_FFFF * h <= m < (0xFF_FFFF + 1) * h) by (nonlinear_arith)
            requires
                m == 0x80_0000 * (2 * h) - x,
                0 < x <= h,
        ;
        lemma_bracket(m as nat, d + 22, 0xFF_FFFF);
    } else {
        let q = (big - 1) as nat;
        assert(q * pow2(d) <= m < (q + 1) * pow2(d)) by (nonlinear_arith)
            requires
                m == big * pow2(d) - x,
                q == big - 1,
                0 < x <= h,
                pow2(d) == 2 * h,
        ;
        lemma_bracket(m as nat, d + 23, q);
    }
}

// ---- the fields of a pattern ---------------------------------------------------------------

pub fn is_nan32(bits: u32) -> (r: bool)
    ensures
        r == is_nan(bits),
{
    let exp: u32 = (bits >> 23) & 0xFF;
    let frac: u32 = bits & 0x7FFFFF;
    exp == 0xFF && frac != 0
}

pub fn is_inf32(bits: u32) -> (r: bool)
    ensures
        r == is_inf(bits),
{
    let exp: u32 = (bits >> 23) & 0xFF;
    let frac: u32 = bits & 0x7FFFFF;
    exp == 0xFF && frac == 0
}

proof fn lemma_fields(bits: u32)
    ensures
        sign_of(bits) <= 1,
        exp_of(bits) <= 0xFF,
        frac_of(bits) <= 0x7FFFFF,
        mant_of(bits) < 0x100_0000,
        !is_zero(bits) ==> mant_of(bits) >= 0x80_0000,
{
    assert(bits >> 31 <= 1 && ((bits >> 23) & 0xFF) <= 0xFF && (bits & 0x7FFFFF) <= 0x7FFFFF)
        by (bit_vector);
}

/// `(sign, exponent field, significand)`; the exponent and the significand of a pattern that
/// counts as zero are 0.
pub fn decompose32(bits: u32) -> (r: (u32, i32, u32))
    ensures
        r.0 == sign_of(bits),
        r.1 == exp_of(bits),
        r.2 == mant_of(bits),
        r.0 <= 1,
        r.1 <= 0xFF,
        r.2 < 0x100_0000,
        r.1 > 0 ==> r.2 >= 0x80_0000,
{
    proof {
        lemma_fields(bits);
        assert((bits & 0x7FFFFF) | 0x800000 == (bits & 0x7FFFFF) + 0x800000) by (bit_vector);
    }
    let sign: u32 = bits >> 31;
    let exp_field: u32 = (bits >> 23) & 0xFF;
    let frac: u32 = bits & 0x7FFFFF;
    if exp_field == 0 {
        (sign, 0, 0)
    } else {
        (sign, exp_field as i32, frac | 0x800000)
    }
}

/// Rounds the positive value `mant * 2^(exp2 - 23)` toward zero.
pub fn normalize_and_pack32(sign: u32, mant: u64, exp2: i32) -> (r: u32)
    requires
        mant != 0,
        -0x4000_0000 <= exp2 <= 0x4000_0000,
    ensures
        r == round(sign, mant as nat, exp2 - 23),
{
    let ghost e0 = exp2 - 23;
    let ghost m0 = mant as nat;
    let ghost l0 = floor_log2(m0);
    let mut mant: u64 = mant;
    let mut exp2: i32 = exp2;
    proof {
        lemma2_to64();
        lemma_log_bounds(m0);
        if l0 >= 64 {
            lemma_pow2_le(64, l0);
        }
    }
    let ghost mut up: nat = 0;
    assert(m0 * pow2(0) == m0);
    // Brings the leading bit up to position 23.
    while mant < 0x0080_0000
        invariant
            m0 > 0,
            l0 == floor_log2(m0),
            pow2(l0) <= m0 < pow2(l0 + 1),
            mant == m0 * pow2(up),
            exp2 == e0 + 23 - up,
            -0x4000_0000 <= e0 + 23 <= 0x4000_0000,
            up > 0 ==> mant < 0x0100_0000,
            up <= 23,
        decreases 24 - up,
    {
        proof {
            lemma2_to64();
            lemma_pow2_adds(up, 1);
            lemma_mul_is_associative(m0 as int, pow2(up) as int, 2);
            lemma_pow2_pos(up);
            assert(mant >= 1) by (nonlinear_arith)
                requires
                    mant == m0 * pow2(up),
                    m0 >= 1,
                    pow2(up) >= 1,
            ;
            assert(up < 23) by {
                if up >= 23 {
                    lemma_pow2_le(23, up);
                    assert(m0 * pow2(up) >= 0x80_0000) by (nonlinear_arith)
                        requires
                            m0 >= 1,
                            pow2(up) >= 0x80_0000,
                    ;
                }
            }
            assert(mant < 0x0080_0000 ==> mant << 1 == mant * 2) by (bit_vector);
        }
        mant = mant << 1;
        exp2 = exp2 - 1;
        proof {
            up = up + 1;
        }
    }
    let ghost m1 = mant as nat;
    proof {
        lemma_log_bounds(m1);
        lemma_round_scale(sign, m0, up, e0 - up);
    }
    let ghost l1 = floor_log2(m1);
    let ghost mut down: nat = 0;
    proof {
        if l1 >= 64 {
            lemma_pow2_le(64, l1);
        }
        if l1 < 23 {
            lemma_pow2_le(l1 + 1, 23);
        }
        assert(m1 as int / pow2(0) as int == m1);
    }
    // Drops bits until the leading one stands at position 23.
    while mant >= 0x0100_0000
        invariant
            m1 >= 0x80_0000,
            l1 == floor_log2(m1),
            23 <= l1 < 64,
            pow2(l1) <= m1 < pow2(l1 + 1),
            mant == m1 / pow2(down),
            mant >= 0x80_0000,
            exp2 == e0 + 23 - up + down,
            up <= 23,
            down <= l1 - 23,
            -0x4000_0000 <= e0 + 23 <= 0x4000_0000,
        decreases mant,
    {
        proof {
            lemma2_to64();
            lemma_pow2_pos(down);
            lemma_pow2_adds(down, 1);
            lemma_div_denominator(m1 as int, pow2(down) as int, 2);
            assert(mant >> 1 == mant / 2) by (bit_vector);
            assert(down < l1 - 23) by {
                if down == l1 - 23 {
                    lemma_pow2_adds(24, down);
                    assert((m1 as int / pow2(down) as int) < 0x100_0000) by (nonlinear_arith)
                        requires
                            m1 < 0x100_0000 * pow2(down),
                            pow2(down) > 0,
                    ;
                }
            }
        }
        mant = mant >> 1;
        exp2 = exp2 + 1;
        proof {
            down = down + 1;
        }
    }
    proof {
        lemma2_to64();
        assert(down == l1 - 23) by {
            if down < l1 - 23 {
                lemma_pow2_pos(down);
                lemma_pow2_adds(24, down);
                lemma_pow2_le(24 + down, l1);
                assert(m1 as int / pow2(down) as int >= 0x100_0000) by (nonlinear_arith)
                    requires
                        m1 >= 0x100_0000 * pow2(down),
                        pow2(down) > 0,
                ;
            }
        }
        assert(mant == leading24(m1)) by {
            if l1 == 23 {
                assert(m1 * pow2(0) == m1);
            }
        }
    }
    let exp_field: i32 = exp2 + 127;
    if exp_field <= 0 {
        return sign << 31;
    }
    if exp_field >= 0xFF {
        return (sign << 31) | (0xFFu32 << 23);
    }
    (sign << 31) | ((exp_field as u32) << 23) | ((mant as u32) & 0x7FFFFF)
}

// ---- addition ------------------------------------------------------------------------------

/// The sum of two patterns.
pub open spec fn add_value(a: u32, b: u32) -> u32 {
    if is_nan(a) || is_nan(b) {
        CANONICAL_NAN32
    } else if is_inf(a) && is_inf(b) {
        if sign_of(a) != sign_of(b) {
            CANONICAL_NAN32
        } else {
            a
        }
    } else if is_inf(a) {
        a
    } else if is_inf(b) {
        b
    } else if is_zero(a) && is_zero(b) {
        if sign_of(a) == sign_of(b) {
            signed_zero(sign_of(a))
        } else {
            0
        }
    } else if is_zero(a) {
        b
    } else if is_zero(b) {
        a
    } else {
        let sum = signed_units(a) + signed_units(b);
        if sum == 0 {
            0
        } else if sum > 0 {
            round(0, sum as nat, -150)
        } else {
            round(1, (-sum) as nat, -150)
        }
    }
}

/// The sum of two magnitudes `big` and `small` at exponents that differ by `diff`, computed in
/// a window of 24 extra bits with a sticky bit `sw` for what lies below it.
proof fn lemma_window(sign: u32, big: nat, small: nat, sw: nat, diff: nat, same: bool, e: int)
    requires
        0x80_0000 <= big < 0x100_0000,
        0x80_0000 <= small < 0x100_0000,
        diff > 24,
        0 < sw <= 0x7F_FFFF,
    ensures
        same ==> round(sign, big * pow2(24) + sw, e + diff - 24) == round(
            sign,
            big * pow2(diff) + small,
            e,
        ),
        !same ==> big * pow2(24) > sw && big * pow2(diff) > small && round(
            sign,
            (big * pow2(24) - sw) as nat,
            e + diff - 24,
        ) == round(sign, (big * pow2(diff) - small) as nat, e),
{
    lemma2_to64();
    lemma_pow2_le(24, (diff - 1) as nat);
    lemma_pow2_le(24, diff);
    if same {
        lemma_far_sum(big, 24, sw);
        lemma_far_sum(big, diff, small);
    } else {
        lemma_far_difference(big, 24, sw);
        lemma_far_difference(big, diff, small);
    }
}

/// `(x * 2^diff + y) * 2^e` and its parts.
proof fn lemma_align(x: nat, y: nat, diff: nat, e: nat)
    ensures
        x * pow2(diff + e) + y * pow2(e) == (x * pow2(diff) + y) * pow2(e),
        x * pow2(diff + e) - y * pow2(e) == (x * pow2(diff) - y) * pow2(e),
{
    lemma_pow2_adds(diff, e);
    let p = pow2(diff) as int;
    let q = pow2(e) as int;
    assert(x * (p * q) + y * q == (x * p + y) * q && x * (p * q) - y * q == (x * p - y) * q)
        by (nonlinear_arith);
}

/// The larger of two nonzero patterns, by exponent and then significand, has at least the
/// magnitude of the other.
proof fn lemma_order(xm: nat, xe: nat, ym: nat, ye: nat)
    requires
        0x80_0000 <= xm < 0x100_0000,
        0x80_0000 <= ym < 0x100_0000,
    ensures
        xe > ye ==> xm * pow2(xe) > ym * pow2(ye),
        xe == ye ==> (xm > ym ==> xm * pow2(xe) > ym * pow2(ye)),
        xe == ye ==> (xm == ym ==> xm * pow2(xe) == ym * pow2(ye)),
{
    lemma_pow2_pos(ye);
    lemma_pow2_pos(xe);
    if xe > ye {
        lemma2_to64();
        lemma_pow2_adds(1, ye);
        lemma_pow2_le(ye + 1, xe);
        let p = pow2(ye) as int;
        let q = pow2(xe) as int;
        assert(xm * q > ym * p) by (nonlinear_arith)
            requires
                q >= 2 * p,
                p > 0,
                xm >= 0x80_0000,
                ym < 0x100_0000,
        ;
    } else if xe == ye && xm > ym {
        lemma_mul_strict_inequality(ym as int, xm as int, pow2(xe) as int);
    }
}

/// Whether the first of two patterns has at least the magnitude of the second, by exponent and
/// then significand.
pub open spec fn is_bigger(x: u32, y: u32) -> bool {
    exp_of(x) > exp_of(y) || (exp_of(x) == exp_of(y) && mant_of(x) >= mant_of(y))
}

/// How many low bits the larger significand is widened by: the distance of the exponents, up to
/// 24.
pub open spec fn window(x: u32, y: u32) -> nat {
    if exp_of(x) - exp_of(y) < 24 {
        (exp_of(x) - exp_of(y)) as nat
    } else {
        24
    }
}

/// The sum of two nonzero finite patterns, `x` the bigger, from the significand of `x` widened by
/// the window and the significand of `y` aligned to it. Beyond 24 bits, something positive and
/// small stands for `y`.
pub proof fn lemma_sum_in_window(x: u32, y: u32, sw: nat)
    requires
        !is_nan(x) && !is_nan(y) && !is_inf(x) && !is_inf(y) && !is_zero(x) && !is_zero(y),
        is_bigger(x, y),
        exp_of(x) - exp_of(y) <= 24 ==> sw == mant_of(y),
        exp_of(x) - exp_of(y) > 24 ==> 0 < sw <= 0x7F_FFFF,
    ensures
        ({
            let bw = mant_of(x) * pow2(window(x, y));
            let e = exp_of(x) - 150 - window(x, y);
            if sign_of(x) == sign_of(y) {
                add_value(x, y) == round(sign_of(x), bw + sw, e) && add_value(y, x) == round(
                    sign_of(x),
                    bw + sw,
                    e,
                )
            } else {
                &&& bw >= sw
                &&& bw == sw ==> add_value(x, y) == 0 && add_value(y, x) == 0
                &&& bw > sw ==> add_value(x, y) == round(sign_of(x), (bw - sw) as nat, e)
                    && add_value(y, x) == round(sign_of(x), (bw - sw) as nat, e)
            }
        }),
        mant_of(x) * pow2(window(x, y)) <= 0x100_0000 * 0x100_0000,
{
    let (xs, xe, xm) = (sign_of(x), exp_of(x) as nat, mant_of(x));
    let (ye, ym) = (exp_of(y) as nat, mant_of(y));
    let diff = (xe - ye) as nat;
    let k = window(x, y);
    lemma_fields(x);
    lemma_fields(y);
    lemma_order(xm, xe, ym, ye);
    lemma2_to64();
    lemma_pow2_le(k, 24);
    lemma_pow2_pos(k);
    assert(xm * pow2(k) <= 0x100_0000 * 0x100_0000) by (nonlinear_arith)
        requires
            xm < 0x100_0000,
            pow2(k) <= 0x100_0000,
    ;
    lemma_align(xm, ym, diff, ye);
    lemma_pow2_pos(ye);
    let wide = xm as int * pow2(diff) as int;
    if diff > 24 {
        lemma_window(xs, xm, ym, sw, diff, xs == sign_of(y), ye as int - 150);
    }
    assert(units(x) == xm * pow2(xe) && units(y) == ym * pow2(ye));
    if xs == sign_of(y) {
        let exact = xm * pow2(diff) + ym;
        lemma_round_scale(xs, exact, ye, -150);
        assert(units(x) + units(y) == exact * pow2(ye));
    } else {
        assert(wide >= ym) by (nonlinear_arith)
            requires
                (wide - ym) * pow2(ye) >= 0,
                pow2(ye) > 0,
        ;
        assert(units(x) - units(y) == (wide - ym) * pow2(ye));
        if wide > ym {
            lemma_round_scale(xs, (wide - ym) as nat, ye, -150);
        } else {
            assert((wide - ym) * pow2(ye) == 0) by (nonlinear_arith)
                requires
                    wide == ym,
            ;
        }
    }
}

/// The sum of two bit patterns, rounded toward zero.
pub fn rtz_add32(a: u32, b: u32) -> (r: u32)
    ensures
        r == add_value(a, b),
{
    if is_nan32(a) || is_nan32(b) {
        return CANONICAL_NAN32;
    }
    let (sa, ea, ma): (u32, i32, u32) = decompose32(a);
    let (sb, eb, mb): (u32, i32, u32) = decompose32(b);
    let ia = is_inf32(a);
    let ib = is_inf32(b);
    if ia && ib {
        return if sa != sb {
            CANONICAL_NAN32
        } else {
            a
        };
    }
    if ia {
        return a;
    }
    if ib {
        return b;
    }
    let za = ea == 0 && ma == 0;
    let zb = eb == 0 && mb == 0;
    if za && zb {
        return if sa == sb {
            sa << 31
        } else {
            0
        };
    }
    if za {
        return b;
    }
    if zb {
        return a;
    }
    let (big_sign, big_exp, big_mant, small_sign, small_exp, small_mant): (
        u32,
        i32,
        u32,
        u32,
        i32,
        u32,
    ) = if ea > eb || (ea == eb && ma >= mb) {
        (sa, ea, ma, sb, eb, mb)
    } else {
        (sb, eb, mb, sa, ea, ma)
    };
    let ghost (big, small) = if is_bigger(a, b) {
        (a, b)
    } else {
        (b, a)
    };
    // The larger significand is widened by `k` low bits, so that what a cancelling subtraction
    // shifts up again has not been dropped; beyond 24 bits one sticky bit stands for the rest.
    let diff: i32 = big_exp - small_exp;
    let k: i32 = if diff < 24 {
        diff
    } else {
        24
    };
    let small_wide: u64 = if diff <= 24 {
        small_mant as u64
    } else {
        let shift: i32 = diff - 24;
        if shift >= 24 {
            1
        } else {
            let sm: u64 = small_mant as u64;
            let sh: u64 = shift as u64;
            let shifted: u64 = sm >> sh;
            assert(sh < 24 ==> 1u64 << sh >= 1) by (bit_vector);
            let sticky: u64 = if sm & (((1u64 << sh) - 1) as u64) != 0 {
                1
            } else {
                0
            };
            proof {
                assert(1 <= sh < 24 && sm < 0x100_0000 ==> (sm >> sh) <= 0x7F_FFFF) by (bit_vector);
                assert(sticky <= 1 && shifted <= 0x7F_FFFF ==> (shifted | sticky) <= 0x7F_FFFF)
                    by (bit_vector);
                assert(1 <= sh < 24 && sm != 0 && sm >> sh == 0 ==> sm & (((1u64 << sh) - 1) as u64)
                    != 0) by (bit_vector);
                assert((shifted | sticky) == 0 ==> shifted == 0 && sticky == 0) by (bit_vector);
            }
            shifted | sticky
        }
    };
    let big_wide: u64 = (big_mant as u64) << (k as u64);
    proof {
        lemma_sum_in_window(big, small, small_wide as nat);
        lemma_u64_shl_is_mul(big_mant as u64, k as u64);
    }
    let exp2: i32 = big_exp - 127 - k;
    if big_sign == small_sign {
        let sum: u64 = big_wide + small_wide;
        normalize_and_pack32(big_sign, sum, exp2)
    } else {
        let diff_mant: u64 = big_wide - small_wide;
        if diff_mant == 0 {
            return 0;
        }
        normalize_and_pack32(big_sign, diff_mant, exp2)
    }
}

/// `a - b`: the sum of `a` and `b` with its sign flipped.
pub fn rtz_sub32(a: u32, b: u32) -> (r: u32)
    ensures
        r == add_value(a, b ^ 0x8000_0000),
{
    rtz_add32(a, b ^ 0x8000_0000)
}

// ---- multiplication and division -----------------------------------------------------------

/// The sign of a product or quotient.
pub open spec fn product_sign(a: u32, b: u32) -> u32 {
    (a >> 31) ^ (b >> 31)
}

/// The product of two patterns. That of two nonzero finite ones is the exact product of the
/// significands at the sum of the exponents, rounded.
pub open spec fn mul_value(a: u32, b: u32) -> u32 {
    let sign = product_sign(a, b);
    if is_nan(a) || is_nan(b) {
        CANONICAL_NAN32
    } else if (is_inf(a) && is_zero(b)) || (is_inf(b) && is_zero(a)) {
        CANONICAL_NAN32
    } else if is_inf(a) || is_inf(b) {
        infinity(sign)
    } else if is_zero(a) || is_zero(b) {
        signed_zero(sign)
    } else {
        round(sign, mant_of(a) * mant_of(b), exp_of(a) + exp_of(b) - 300)
    }
}

/// The quotient of two patterns. That of two nonzero finite ones is the quotient of the
/// significands to 24 fractional bits at the difference of the exponents, rounded.
pub open spec fn div_value(a: u32, b: u32) -> u32 {
    let sign = product_sign(a, b);
    if is_nan(a) || is_nan(b) {
        CANONICAL_NAN32
    } else if (is_inf(a) && is_inf(b)) || (is_zero(a) && is_zero(b)) {
        CANONICAL_NAN32
    } else if is_inf(a) || is_zero(b) {
        infinity(sign)
    } else if is_zero(a) || is_inf(b) {
        signed_zero(sign)
    } else {
        round(sign, mant_of(a) * 0x100_0000 / mant_of(b), exp_of(a) - exp_of(b) - 24)
    }
}

pub proof fn lemma_round_zero(sign: u32, m: nat, e: int)
    requires
        sign <= 1,
    ensures
        round(sign, m, e) & 0x7FFFFFFF == 0 ==> round(sign, m, e) == sign << 31,
{
    let r = round(sign, m, e);
    let field = e + floor_log2(m) + 127;
    assert(((sign << 31) | (0xFFu32 << 23)) & 0x7FFFFFFF != 0) by (bit_vector);
    if 0 < field < 0xFF {
        let f = field as u32;
        let x = leading24(m) as u32;
        assert(0 < f < 0xFF ==> ((sign << 31) | (f << 23) | (x & 0x7FFFFF)) & 0x7FFFFFFF != 0)
            by (bit_vector);
    }
}

/// The product of two bit patterns, rounded toward zero.
pub fn rtz_mul32(a: u32, b: u32) -> (r: u32)
    ensures
        r == mul_value(a, b),
{
    let rsign: u32 = (a >> 31) ^ (b >> 31);
    assert((a >> 31) ^ (b >> 31) <= 1) by (bit_vector);
    if is_nan32(a) || is_nan32(b) {
        return CANONICAL_NAN32;
    }
    let (_, ea, ma): (u32, i32, u32) = decompose32(a);
    let (_, eb, mb): (u32, i32, u32) = decompose32(b);
    let ia = is_inf32(a);
    let ib = is_inf32(b);
    let za = ea == 0 && ma == 0;
    let zb = eb == 0 && mb == 0;
    if (ia && zb) || (ib && za) {
        return CANONICAL_NAN32;
    }
    if ia || ib {
        return (rsign << 31) | (0xFFu32 << 23);
    }
    if za || zb {
        return rsign << 31;
    }
    assert(0 < ma * mb < 0x1_0000_0000_0000) by (nonlinear_arith)
        requires
            0 < ma < 0x100_0000,
            0 < mb < 0x100_0000,
    ;
    let product: u64 = ma as u64 * mb as u64;
    let result_bits: u32 = normalize_and_pack32(rsign, product, ea + eb - 277);
    proof {
        lemma_round_zero(rsign, product as nat, ea + eb - 300);
    }
    if result_bits & 0x7FFFFFFF == 0 {
        rsign << 31
    } else {
        result_bits
    }
}

/// `num * 2^24 / den`, in base-256 digits: one quotient and three steps of its remainder.
pub fn div_mant_q24(num: u32, den: u32) -> (q: u64)
    requires
        num < 0x100_0000,
        0 < den < 0x100_0000,
    ensures
        q == num * 0x100_0000 / den as int,
{
    let q0: u32 = num / den;
    let mut rem: u32 = num % den;
    let mut q: u64 = q0 as u64;
    let mut i: u32 = 0;
    let ghost mut scale: int = 1;
    proof {
        lemma_fundamental_div_mod(num as int, den as int);
        assert(q as int * den + rem == num) by (nonlinear_arith)
            requires
                num == den as int * (num as int / den as int) + num as int % den as int,
                q == num as int / den as int,
                rem == num as int % den as int,
        ;
    }
    while i < 3
        invariant
            i <= 3,
            num < 0x100_0000,
            0 < den < 0x100_0000,
            rem < den,
            q as int * den + rem == num * scale,
            i == 0 ==> scale == 1 && q < 0x100_0000,
            i == 1 ==> scale == 0x100 && q < 0x1_0000_0000,
            i == 2 ==> scale == 0x1_0000 && q < 0x100_0000_0000,
            i == 3 ==> scale == 0x100_0000,
        decreases 3 - i,
    {
        assert(rem < 0x100_0000 ==> rem << 8 == rem * 256) by (bit_vector);
        let scaled: u32 = rem << 8;
        let chunk: u32 = scaled / den;
        let ghost rem0 = rem;
        let ghost q_old = q;
        rem = scaled % den;
        proof {
            lemma_fundamental_div_mod(scaled as int, den as int);
            let c = scaled as int / den as int;
            let r = scaled as int % den as int;
            assert(0 <= c < 256) by (nonlinear_arith)
                requires
                    rem0 as int * 256 == den as int * c + r,
                    0 <= r < den,
                    rem0 < den,
            ;
            assert(chunk < 256 && q < 0x100_0000_0000 ==> (q << 8) | (chunk as u64) == q * 256
                + chunk) by (bit_vector);
            assert((q_old * 256 + c) * den + r == num * (scale * 256)) by (nonlinear_arith)
                requires
                    rem0 as int * 256 == den as int * c + r,
                    q_old as int * den + rem0 == num * scale,
            ;
        }
        q = (q << 8) | (chunk as u64);
        proof {
            scale = scale * 256;
        }
        i = i + 1;
    }
    proof {
        lemma_fundamental_div_mod_converse(
            num * 0x100_0000,
            den as int,
            q as int,
            rem as int,
        );
    }
    q
}

/// The quotient of two significands has at least 24 bits.
proof fn lemma_quotient(ma: nat, mb: nat)
    requires
        0x80_0000 <= ma < 0x100_0000,
        0x80_0000 <= mb < 0x100_0000,
    ensures
        0x80_0000 <= ma * 0x100_0000 / mb < 0x200_0000,
        (ma * 0x100_0000 / mb) * mb <= ma * 0x100_0000 < (ma * 0x100_0000 / mb + 1) * mb,
{
    let n = ma as int * 0x100_0000;
    let q = n / mb as int;
    lemma_fundamental_div_mod(n, mb as int);
    assert(0x80_0000 <= q < 0x200_0000 && q * mb <= n < (q + 1) * mb) by (nonlinear_arith)
        requires
            n == mb * q + n % (mb as int),
            0 <= n % (mb as int) < mb,
            n >= 0x80_0000 * 0x100_0000,
            n < 0x100_0000 * 0x100_0000,
            0x80_0000 <= mb < 0x100_0000,
    ;
}

/// The quotient of two bit patterns, rounded toward zero.
pub fn rtz_div32(a: u32, b: u32) -> (r: u32)
    ensures
        r == div_value(a, b),
{
    let rsign: u32 = (a >> 31) ^ (b >> 31);
    assert((a >> 31) ^ (b >> 31) <= 1) by (bit_vector);
    if is_nan32(a) || is_nan32(b) {
        return CANONICAL_NAN32;
    }
    let (_, ea, ma): (u32, i32, u32) = decompose32(a);
    let (_, eb, mb): (u32, i32, u32) = decompose32(b);
    let ia = is_inf32(a);
    let ib = is_inf32(b);
    let za = ea == 0 && ma == 0;
    let zb = eb == 0 && mb == 0;
    if ia && ib {
        return CANONICAL_NAN32;
    }
    if za && zb {
        return CANONICAL_NAN32;
    }
    if ia {
        return (rsign << 31) | (0xFFu32 << 23);
    }
    if za {
        return rsign << 31;
    }
    if ib {
        return rsign << 31;
    }
    if zb {
        return (rsign << 31) | (0xFFu32 << 23);
    }
    let q24: u64 = div_mant_q24(ma, mb);
    proof {
        lemma_quotient(ma as nat, mb as nat);
        lemma_round_zero(rsign, q24 as nat, ea - eb - 24);
    }
    let result_bits: u32 = normalize_and_pack32(rsign, q24, ea - eb - 1);
    if result_bits & 0x7FFFFFFF == 0 {
        rsign << 31
    } else {
        result_bits
    }
}

// ---- comparison ----------------------------------------------------------------------------

/// -2 where either pattern is a NaN, else -1, 0 or 1 as the first is less than, equal to or
/// greater than the second.
pub open spec fn order_code(a: u32, b: u32) -> int {
    if is_nan(a) || is_nan(b) {
        -2
    } else if signed_units(a) < signed_units(b) {
        -1
    } else if signed_units(a) == signed_units(b) {
        0
    } else {
        1
    }
}

/// How the units of two patterns compare, from their fields.
pub proof fn lemma_units_order(a: u32, b: u32)
    ensures
        is_zero(a) <==> units(a) == 0,
        is_zero(b) <==> units(b) == 0,
        !is_zero(a) && !is_zero(b) ==> {
            &&& exp_of(a) < exp_of(b) ==> units(a) < units(b)
            &&& exp_of(a) > exp_of(b) ==> units(a) > units(b)
            &&& exp_of(a) == exp_of(b) ==> {
                &&& mant_of(a) < mant_of(b) ==> units(a) < units(b)
                &&& mant_of(a) > mant_of(b) ==> units(a) > units(b)
                &&& mant_of(a) == mant_of(b) ==> units(a) == units(b)
            }
        },
{
    lemma_fields(a);
    lemma_fields(b);
    let (ma, ea, mb, eb) = (mant_of(a), exp_of(a) as nat, mant_of(b), exp_of(b) as nat);
    lemma_pow2_pos(ea);
    lemma_pow2_pos(eb);
    assert(0 * pow2(ea) == 0 && 0 * pow2(eb) == 0);
    if !is_zero(a) {
        assert(ma * pow2(ea) > 0) by (nonlinear_arith)
            requires
                ma > 0,
                pow2(ea) > 0,
        ;
    }
    if !is_zero(b) {
        assert(mb * pow2(eb) > 0) by (nonlinear_arith)
            requires
                mb > 0,
                pow2(eb) > 0,
        ;
    }
    if !is_zero(a) && !is_zero(b) {
        lemma_order(ma, ea, mb, eb);
        lemma_order(mb, eb, ma, ea);
    }
}

/// Compares two bit patterns by value; both zeros are equal.
pub fn rtz_cmp32(a: u32, b: u32) -> (r: i32)
    ensures
        r == order_code(a, b),
{
    if is_nan32(a) || is_nan32(b) {
        return -2;
    }
    let (sa, ea, ma): (u32, i32, u32) = decompose32(a);
    let (sb, eb, mb): (u32, i32, u32) = decompose32(b);
    let za = ea == 0 && ma == 0;
    let zb = eb == 0 && mb == 0;
    proof {
        lemma_units_order(a, b);
    }
    if za && zb {
        return 0;
    }
    if za {
        return if sb == 0 {
            -1
        } else {
            1
        };
    }
    if zb {
        return if sa == 0 {
            1
        } else {
            -1
        };
    }
    if sa != sb {
        return if sa == 1 {
            -1
        } else {
            1
        };
    }
    let ord: i32 = if ea != eb {
        if ea < eb {
            -1
        } else {
            1
        }
    } else if ma < mb {
        -1
    } else if ma == mb {
        0
    } else {
        1
    };
    if sa == 1 {
        -ord
    } else {
        ord
    }
}

// ---- conversions ---------------------------------------------------------------------------

/// The pattern of an integer.
pub open spec fn int_value(i: int) -> u32 {
    if i == 0 {
        0
    } else if i < 0 {
        round(1, (-i) as nat, 0)
    } else {
        round(0, i as nat, 0)
    }
}

pub fn rtz_i32_to_f32(i: i32) -> (r: u32)
    ensures
        r == int_value(i as int),
{
    if i == 0 {
        return 0;
    }
    let sign: u32 = if i < 0 {
        1
    } else {
        0
    };
    let mag: u64 = if i < 0 {
        (-(i as i64)) as u64
    } else {
        i as u64
    };
    normalize_and_pack32(sign, mag, 23)
}

pub fn rtz_u32_to_f32(u: u32) -> (r: u32)
    ensures
        r == int_value(u as int),
{
    if u == 0 {
        return 0;
    }
    normalize_and_pack32(0, u as u64, 23)
}

/// The integer part of the magnitude of a pattern that is no NaN.
pub open spec fn int_part(bits: u32) -> nat {
    let e = exp_of(bits) as int - 150;
    if e >= 0 {
        mant_of(bits) * pow2(e as nat)
    } else {
        mant_of(bits) / pow2((-e) as nat)
    }
}

pub open spec fn signed_int_part(bits: u32) -> int {
    if sign_of(bits) == 1 {
        -(int_part(bits) as int)
    } else {
        int_part(bits) as int
    }
}

/// 0 for a NaN, else the integer part, taken to the nearer end of `lo..=hi` when outside it.
pub open spec fn saturated(bits: u32, lo: int, hi: int) -> int {
    if is_nan(bits) {
        0
    } else if signed_int_part(bits) < lo {
        lo
    } else if signed_int_part(bits) > hi {
        hi
    } else {
        signed_int_part(bits)
    }
}

/// `mant * 2^e` for exponents that leave 32 bits, and what holds beyond them.
pub proof fn lemma_shift_up(mant: nat, e: nat)
    requires
        0x80_0000 <= mant < 0x100_0000,
    ensures
        e <= 8 ==> mant * pow2(e) < 0x1_0000_0000,
        e <= 7 ==> mant * pow2(e) < 0x8000_0000,
        e >= 8 ==> mant * pow2(e) >= 0x8000_0000,
        e >= 9 ==> mant * pow2(e) >= 0x1_0000_0000,
{
    lemma2_to64();
    let p = pow2(e) as int;
    if e <= 7 {
        lemma_pow2_le(e, 7);
        assert(mant * p < 0x8000_0000) by (nonlinear_arith)
            requires
                p <= 128,
                mant < 0x100_0000,
        ;
    }
    if e >= 9 {
        lemma_pow2_le(9, e);
        assert(mant * p >= 0x1_0000_0000) by (nonlinear_arith)
            requires
                p >= 512,
                mant >= 0x80_0000,
        ;
    }
}

pub proof fn lemma_shift_down(mant: nat, s: nat)
    requires
        mant < 0x100_0000,
        s >= 24,
    ensures
        mant / pow2(s) == 0,
{
    lemma2_to64();
    lemma_pow2_le(24, s);
    lemma_fundamental_div_mod_converse(mant as int, pow2(s) as int, 0, mant as int);
}

/// The integer part, saturating; 0 for a NaN.
pub fn rtz_f32_to_i32(bits: u32) -> (r: i32)
    ensures
        r == saturated(bits, i32::MIN as int, i32::MAX as int),
{
    if is_nan32(bits) {
        return 0;
    }
    let (sign, exp, mant): (u32, i32, u32) = decompose32(bits);
    let e: i32 = exp - 127 - 23;
    proof {
        if e >= 0 {
            lemma_shift_up(mant as nat, e as nat);
        } else {
            lemma_pow2_pos((-e) as nat);
            if exp == 0 {
                lemma_shift_down(0, 150);
            }
        }
    }
    if is_inf32(bits) {
        return if sign == 1 {
            i32::MIN
        } else {
            i32::MAX
        };
    }
    if exp == 0 {
        return 0;
    }
    let mag: i64 = if e >= 0 {
        if e >= 8 {
            return if sign == 1 {
                i32::MIN
            } else {
                i32::MAX
            };
        }
        proof {
            lemma_u64_shl_is_mul(mant as u64, e as u64);
        }
        ((mant as u64) << (e as u64)) as i64
    } else {
        let shift: i32 = -e;
        if shift >= 32 {
            proof {
                lemma_shift_down(mant as nat, shift as nat);
            }
            0
        } else {
            proof {
                lemma_u32_shr_is_div(mant, shift as u32);
                let p = pow2(shift as nat) as int;
                assert(0 <= mant as int / p <= mant) by (nonlinear_arith)
                    requires
                        p > 0,
                        mant >= 0,
                ;
            }
            (mant >> (shift as u32)) as i64
        }
    };
    let signed: i64 = if sign == 1 {
        -mag
    } else {
        mag
    };
    signed as i32
}

/// The integer part, saturating; 0 for a NaN and for what is negative.
pub fn rtz_f32_to_u32(bits: u32) -> (r: u32)
    ensures
        r == saturated(bits, 0, u32::MAX as int),
{
    if is_nan32(bits) {
        return 0;
    }
    let (sign, exp, mant): (u32, i32, u32) = decompose32(bits);
    let e: i32 = exp - 127 - 23;
    proof {
        if e >= 0 {
            lemma_shift_up(mant as nat, e as nat);
        } else {
            lemma_pow2_pos((-e) as nat);
            if exp == 0 {
                lemma_shift_down(0, 150);
            }
        }
    }
    if sign == 1 && !(exp == 0 && mant == 0) {
        return 0;
    }
    if is_inf32(bits) {
        return u32::MAX;
    }
    if exp == 0 {
        return 0;
    }
    if e >= 0 {
        if e >= 9 {
            return u32::MAX;
        }
        proof {
            lemma_u64_shl_is_mul(mant as u64, e as u64);
        }
        ((mant as u64) << (e as u64)) as u32
    } else {
        let shift: i32 = -e;
        if shift >= 32 {
            proof {
                lemma_shift_down(mant as nat, shift as nat);
            }
            0
        } else {
            proof {
                lemma_u32_shr_is_div(mant, shift as u32);
                let p = pow2(shift as nat) as int;
                assert(0 <= mant as int / p <= mant) by (nonlinear_arith)
                    requires
                        p > 0,
                        mant >= 0,
                ;
            }
            mant >> (shift as u32)
        }
    }
}

// ---- laws ----------------------------------------------------------------------------------

/// A pattern is made up of its sign, exponent and fraction, and changing the sign bit changes only
/// the sign.
proof fn lemma_pattern(a: u32, b: u32)
    ensures
        sign_of(a) == sign_of(b) && exp_of(a) == exp_of(b) && frac_of(a) == frac_of(b) ==> a == b,
        sign_of(a ^ 0x8000_0000) == 1 - sign_of(a),
        exp_of(a ^ 0x8000_0000) == exp_of(a),
        frac_of(a ^ 0x8000_0000) == frac_of(a),
        product_sign(a, b) == product_sign(b, a),
        product_sign(a, b) <= 1,
{
    assert((a >> 31 == b >> 31 && (a >> 23) & 0xFF == (b >> 23) & 0xFF && a & 0x7FFFFF == b
        & 0x7FFFFF ==> a == b) && (a ^ 0x8000_0000) >> 31 == 1 - (a >> 31) && ((a ^ 0x8000_0000)
        >> 23) & 0xFF == (a >> 23) & 0xFF && (a ^ 0x8000_0000) & 0x7FFFFF == a & 0x7FFFFF && (a
        >> 31) ^ (b >> 31) == (b >> 31) ^ (a >> 31) && (a >> 31) ^ (b >> 31) <= 1) by (bit_vector);
}

/// The fields of a packed pattern.
proof fn lemma_packed(sign: u32, f: u32, x: u32)
    requires
        sign <= 1,
        0 < f < 0xFF,
    ensures
        ({
            let p = (sign << 31) | (f << 23) | (x & 0x7FFFFF);
            &&& sign_of(p) == sign
            &&& exp_of(p) == f
            &&& 0x80_0000 <= x < 0x100_0000 ==> frac_of(p) == x - 0x80_0000
        }),
{
    assert(sign <= 1 && 0 < f < 0xFF ==> ((sign << 31) | (f << 23) | (x & 0x7FFFFF)) >> 31 == sign
        && (((sign << 31) | (f << 23) | (x & 0x7FFFFF)) >> 23) & 0xFF == f && (0x80_0000 <= x
        < 0x100_0000 ==> ((sign << 31) | (f << 23) | (x & 0x7FFFFF)) & 0x7FFFFF == x - 0x80_0000))
        by (bit_vector);
}

/// Addition commutes.
pub proof fn law_addition_commutes(a: u32, b: u32)
    ensures
        add_value(a, b) == add_value(b, a),
{
    lemma_pattern(a, b);
}

/// Multiplication commutes.
pub proof fn law_multiplication_commutes(a: u32, b: u32)
    ensures
        mul_value(a, b) == mul_value(b, a),
{
    lemma_pattern(a, b);
    lemma_mul_is_commutative(mant_of(a) as int, mant_of(b) as int);
}

/// A finite value less itself is zero.
pub proof fn law_difference_with_itself(a: u32)
    requires
        !is_nan(a) && !is_inf(a),
    ensures
        add_value(a, a ^ 0x8000_0000) == 0,
{
    lemma_pattern(a, a);
    lemma_fields(a);
}

/// Of two values that compare one is less exactly where the other is greater, and a value is
/// equal to itself.
pub proof fn law_order_is_one(a: u32, b: u32)
    ensures
        order_code(a, b) == -1 <==> order_code(b, a) == 1,
        order_code(a, b) == 0 <==> order_code(b, a) == 0,
        order_code(a, b) == -2 <==> order_code(b, a) == -2,
        !is_nan(a) ==> order_code(a, a) == 0,
{
}

/// No sum, product or quotient is a subnormal pattern, whatever the operands are.
pub proof fn law_results_are_normal(a: u32, b: u32)
    ensures
        is_zero(add_value(a, b)) ==> frac_of(add_value(a, b)) == 0,
        is_zero(mul_value(a, b)) ==> frac_of(mul_value(a, b)) == 0,
        is_zero(div_value(a, b)) ==> frac_of(div_value(a, b)) == 0,
{
    lemma_fields(a);
    lemma_fields(b);
    lemma_pattern(a, b);
    let sum = signed_units(a) + signed_units(b);
    lemma_round_is_normal(0, sum as nat, -150);
    lemma_round_is_normal(1, (-sum) as nat, -150);
    let sign = product_sign(a, b);
    lemma_round_is_normal(sign, mant_of(a) * mant_of(b), exp_of(a) + exp_of(b) - 300);
    lemma_round_is_normal(
        sign,
        mant_of(a) * 0x100_0000 / mant_of(b),
        exp_of(a) - exp_of(b) - 24,
    );
    lemma_specials(sign);
    lemma_specials(sign_of(a));
}

/// The value of an integer is no subnormal pattern.
pub proof fn law_integers_are_normal(i: int)
    ensures
        is_zero(int_value(i)) ==> frac_of(int_value(i)) == 0,
{
    lemma_specials(0);
    lemma_round_is_normal(0, i as nat, 0);
    lemma_round_is_normal(1, (-i) as nat, 0);
}

proof fn lemma_specials(sign: u32)
    requires
        sign <= 1,
    ensures
        frac_of(signed_zero(sign)) == 0,
        frac_of(infinity(sign)) == 0,
        frac_of(0) == 0,
        exp_of(0) == 0,
        sign_of(0) == 0,
        exp_of(CANONICAL_NAN32) == 0xFF,
        exp_of(infinity(sign)) == 0xFF,
{
    assert(sign <= 1 ==> (sign << 31) & 0x7FFFFF == 0 && ((sign << 31) | (0xFFu32 << 23)) & 0x7FFFFF
        == 0 && 0u32 & 0x7FFFFF == 0 && (0u32 >> 23) & 0xFF == 0 && 0u32 >> 31 == 0 && (
    0x7fc0_0000u32 >> 23) & 0xFF == 0xFF && (((sign << 31) | (0xFFu32 << 23)) >> 23) & 0xFF
        == 0xFF) by (bit_vector);
}

proof fn lemma_round_is_normal(sign: u32, m: nat, e: int)
    requires
        sign <= 1,
    ensures
        is_zero(round(sign, m, e)) ==> frac_of(round(sign, m, e)) == 0,
{
    lemma_specials(sign);
    let field = e + floor_log2(m) + 127;
    if 0 < field < 0xFF {
        lemma_packed(sign, field as u32, leading24(m) as u32);
    }
}

/// An integer of 24 bits becomes a value whose integer part it is.
pub proof fn law_small_integers_are_kept(i: int)
    requires
        -0x100_0000 < i < 0x100_0000,
    ensures
        signed_int_part(int_value(i)) == i,
        !is_nan(int_value(i)),
{
    lemma2_to64();
    lemma_specials(0);
    if i == 0 {
        lemma_pow2_pos(150);
        lemma_div_basics(pow2(150) as int);
        assert(int_part(0) == 0);
    } else {
        let sign = if i < 0 {
            1u32
        } else {
            0
        };
        let m = if i < 0 {
            (-i) as nat
        } else {
            i as nat
        };
        let l = floor_log2(m);
        lemma_log_bounds(m);
        if l > 23 {
            lemma_pow2_le(24, l);
        }
        law_leading24_truncates(m);
        let d = (23 - l) as nat;
        lemma_packed(sign, (l + 127) as u32, leading24(m) as u32);
        lemma_pow2_pos(d);
        lemma_fundamental_div_mod_converse(
            leading24(m) as int,
            pow2(d) as int,
            m as int,
            0,
        );
        let p = round(sign, m, 0);
        assert(sign_of(p) == sign && exp_of(p) == l + 127 && mant_of(p) == leading24(m));
        if l == 23 {
            assert(mant_of(p) * pow2(0) == mant_of(p)) by {
                assert(pow2(0) == 1);
            }
            assert(m * pow2(0) == m);
        } else {
            assert(leading24(m) as int == m as int * pow2(d) as int);
            assert(leading24(m) as int / pow2(d) as int == m as int);
        }
        assert(int_part(p) == m);
    }
}

} // verus!
