//! What the routines of the single-precision runtime compute.
//!
//! Each runs as a leaf and returns the value that the arithmetic on bit patterns defines.

use vstd::arithmetic::div_mod::{
    lemma_div_denominator, lemma_fundamental_div_mod, lemma_fundamental_div_mod_converse,
};
use vstd::arithmetic::power2::{lemma2_to64, lemma_pow2_adds, lemma_pow2_pos, pow2};
use vstd::prelude::*;

use crate::rv::enc::{
    addi_asm, signed, unique_labels, Asm, BCond, ShiftOp, A0, A1, A2, A3, A4, A5, A6, A7, RA, S2,
    S3, S4, S5, S6, S7, S8, S9, SP, T0, T1, T2, T3, T4, T5, T6, ZERO,
};
use crate::rv::machine::{
    exec_range, flag, get, gives, lemma_block, lemma_branch, lemma_here, lemma_jump, lemma_line_of,
    lemma_ret, lemma_stands_parts, line_of, range_computes, reaches, stands, taken, word, Regs,
};
use crate::rv::softfloat::{
    add_align_asm, add_diff_asm, add_diff_ret_asm, add_entry_asm, add_nan_a_asm, add_nan_b_asm,
    add_opposite_sign_asm, add_pick_asm, add_returns_asm, add_same_sign_asm, add_shift_end_asm,
    add_shift_loop_asm, add_special_asm, add_start_asm, add_sum_asm, add_sum_ret_asm, add_widen_asm,
    cmp_entry_asm, cmp_magnitudes_asm, cmp_nan_a_asm, cmp_nan_b_asm, cmp_returns_asm, cmp_signs_asm,
    cmp_start_asm, cmp_which_zeros_asm, cmp_zeros_asm, decompose_asm, div_end_asm, div_entry_asm,
    div_exponent_asm, div_nan_a_asm, div_nan_b_asm, div_quotient_asm, div_returns_asm,
    div_round_asm, div_special_asm, div_start_asm, div_zeros_asm, f2i_entry_asm, f2i_inf_asm,
    f2i_large_asm, f2i_nan_asm, f2i_returns_asm, f2i_small_asm, f2i_start_asm, f2u_entry_asm,
    f2u_inf_asm, f2u_large_asm, f2u_nan_asm, f2u_sign_asm, f2u_small_asm, f2u_start_asm,
    f32_add_asm, f32_cmp_asm, f32_div_asm, f32_mul_asm, f32_to_i32_asm, f32_to_u32_asm,
    i2f_entry_asm, i2f_pair_asm, i2f_ret_asm, i2f_round_asm, i32_to_f32_asm, is_inf_asm, is_nan_asm,
    mul_end_asm, mul_entry_asm, mul_nan_a_asm, mul_nan_b_asm, mul_product_asm, mul_returns_asm,
    mul_special_asm, mul_start_asm, mul_wide_asm, mul_zeros_asm, norm_asm, norm_left_asm,
    norm_pack_asm, norm_right_asm, runtime_asm, shl64_asm, u2f_entry_asm, u2f_pair_asm, u2f_ret_asm,
    u2f_round_asm, u32_to_f32_asm,
};
use crate::rv::softfloat_ref::{
    add_value, div_value, exp_of, floor_log2, frac_of, int_part, int_value, is_bigger, is_inf,
    is_nan, is_zero, lemma_log_of_24_bits, lemma_log_of_64_bits, lemma_pow2_le, lemma_round_double,
    lemma_round_halve, lemma_round_zero, lemma_shift_down, lemma_shift_up, lemma_sum_in_window,
    lemma_units_order, mant_of, mul_value, order_code, product_sign, round, saturated, sign_of,
    signed_units, window,
};

verus! {

broadcast use crate::rv::machine::group_machine;

// ---- registers -----------------------------------------------------------------------------

/// Whether a register is one that a routine may write.
spec fn free(r: u8) -> bool {
    r != ZERO && r != RA && r != SP
}

/// Whether two states agree outside of some registers.
spec fn same_but(s: Regs, t: Regs, regs: Set<u8>) -> bool {
    forall|r: u8| !regs.contains(r) ==> #[trigger] get(t, r) == get(s, r)
}

proof fn lemma_flags(a: bool, b: bool)
    ensures
        flag(a) & flag(b) == flag(a && b),
        flag(a) | flag(b) == flag(a || b),
{
    assert(1u32 & 1 == 1 && 1u32 & 0 == 0 && 0u32 & 1 == 0 && 0u32 & 0 == 0 && 1u32 | 1 == 1
        && 1u32 | 0 == 1 && 0u32 | 1 == 1 && 0u32 | 0 == 0) by (bit_vector);
}

proof fn lemma_fields_by_shifts(x: u32)
    ensures
        (x << 9) >> 9 == x & 0x7FFFFF,
        ((x >> 23) & 0xFF) ^ 0xFF < 1 <==> (x >> 23) & 0xFF == 0xFF,
        (x & 0x7FFFFF) | 0x80_0000 == (x & 0x7FFFFF) + 0x80_0000,
        (x & 0x7FFFFF) <= 0x7FFFFF,
        (x >> 31) <= 1,
        ((x >> 23) & 0xFF) <= 0xFF,
{
    assert((x << 9) >> 9 == x & 0x7FFFFF && (((x >> 23) & 0xFF) ^ 0xFF < 1 <==> (x >> 23) & 0xFF
        == 0xFF) && (x & 0x7FFFFF) | 0x80_0000 == (x & 0x7FFFFF) + 0x80_0000 && (x & 0x7FFFFF)
        <= 0x7FFFFF && (x >> 31) <= 1 && ((x >> 23) & 0xFF) <= 0xFF) by (bit_vector);
}

// ---- fragments -----------------------------------------------------------------------------

proof fn run_is_nan(text: Seq<Asm>, i0: int, s0: Regs, i: int, s: Regs, bits: u8, out: u8, t0: u8,
    t1: u8) -> (t: Regs)
    requires
        reaches(text, i0, s0, i, s),
        stands(text, i, is_nan_asm(bits, out, t0, t1)),
        free(out) && free(t0) && free(t1),
        bits != t0 && bits != t1 && t0 != t1,
    ensures
        reaches(text, i0, s0, i + 8, t),
        get(t, out) == flag(is_nan(get(s, bits))),
        same_but(s, t, set![out, t0, t1]),
{
    let x = get(s, bits);
    lemma_fields_by_shifts(x);
    lemma_flags(exp_of(x) == 0xFF, frac_of(x) != 0);
    let lines = is_nan_asm(bits, out, t0, t1);
    reveal_with_fuel(exec_range, 9);
    reveal_with_fuel(range_computes, 9);
    lemma_block(text, i0, s0, i, lines, 0, 8, s);
    exec_range(lines, 0, 8, s)
}

proof fn run_is_inf(text: Seq<Asm>, i0: int, s0: Regs, i: int, s: Regs, bits: u8, out: u8, t0: u8,
    t1: u8) -> (t: Regs)
    requires
        reaches(text, i0, s0, i, s),
        stands(text, i, is_inf_asm(bits, out, t0, t1)),
        free(out) && free(t0) && free(t1),
        bits != t0 && bits != t1 && t0 != t1,
    ensures
        reaches(text, i0, s0, i + 8, t),
        get(t, out) == flag(is_inf(get(s, bits))),
        same_but(s, t, set![out, t0, t1]),
{
    let x = get(s, bits);
    lemma_fields_by_shifts(x);
    lemma_flags(exp_of(x) == 0xFF, frac_of(x) == 0);
    let lines = is_inf_asm(bits, out, t0, t1);
    reveal_with_fuel(exec_range, 9);
    reveal_with_fuel(range_computes, 9);
    lemma_block(text, i0, s0, i, lines, 0, 8, s);
    exec_range(lines, 0, 8, s)
}

proof fn run_decompose(
    text: Seq<Asm>,
    i0: int,
    s0: Regs,
    i: int,
    s: Regs,
    tag: Seq<char>,
    bits: u8,
    sign: u8,
    exp: u8,
    mant: u8,
    t0: u8,
) -> (t: Regs)
    requires
        unique_labels(text),
        reaches(text, i0, s0, i, s),
        stands(text, i, decompose_asm(tag, bits, sign, exp, mant, t0)),
        free(sign) && free(exp) && free(mant) && free(t0),
        bits != exp && bits != mant && sign != exp && sign != mant && exp != mant,
        t0 != sign && t0 != exp && t0 != mant,
    ensures
        reaches(text, i0, s0, i + 12, t),
        get(t, sign) == sign_of(get(s, bits)),
        get(t, exp) == exp_of(get(s, bits)),
        get(t, mant) == mant_of(get(s, bits)),
        same_but(s, t, set![sign, exp, mant, t0]),
{
    let x = get(s, bits);
    lemma_fields_by_shifts(x);
    let lines = decompose_asm(tag, bits, sign, exp, mant, t0);
    reveal_with_fuel(exec_range, 6);
    reveal_with_fuel(range_computes, 6);
    lemma_block(text, i0, s0, i, lines, 0, 5, s);
    let u = exec_range(lines, 0, 5, s);
    assert(text[i + 5] == lines[5] && text[i + 9] == lines[9]) by {
        reveal(stands);
    }
    lemma_branch(text, i0, s0, i + 5, u, i + 9);
    if taken(lines[5], u) {
        lemma_block(text, i0, s0, i, lines, 9, 12, u);
        exec_range(lines, 9, 12, u)
    } else {
        lemma_block(text, i0, s0, i, lines, 6, 8, u);
        let v = exec_range(lines, 6, 8, u);
        assert(text[i + 8] == lines[8] && text[i + 11] == lines[11]) by {
        reveal(stands);
    }
        lemma_jump(text, i0, s0, i + 8, v, i + 11);
        lemma_block(text, i0, s0, i, lines, 11, 12, v);
        v
    }
}

/// The number that a pair of words holds.
spec fn pair(lo: u32, hi: u32) -> nat {
    (hi * 0x1_0000_0000 + lo) as nat
}

proof fn lemma_shl64(lo: u32, hi: u32)
    requires
        hi < 0x8000_0000,
    ensures
        pair(lo << 1, (hi << 1) | (lo >> 31)) == 2 * pair(lo, hi),
{
    assert((hi < 0x8000_0000 ==> (hi << 1) | (lo >> 31) == 2 * hi + (lo >> 31)) && (lo < 0x8000_0000
        ==> lo << 1 == 2 * lo && lo >> 31 == 0) && (lo >= 0x8000_0000 ==> lo << 1 == 2 * (lo
        - 0x8000_0000) && lo >> 31 == 1)) by (bit_vector);
}

proof fn lemma_shr64(lo: u32, hi: u32)
    ensures
        pair((lo >> 1) | ((hi & 1) << 31), hi >> 1) == pair(lo, hi) / 2,
{
    assert((lo >> 1) | ((hi & 1) << 31) == (lo / 2) + (hi % 2) * 0x8000_0000 && hi >> 1 == hi / 2)
        by (bit_vector);
}

proof fn run_norm_left(
    text: Seq<Asm>,
    i0: int,
    s0: Regs,
    i: int,
    s: Regs,
    tag: Seq<char>,
    mlo: u8,
    mhi: u8,
    exp2: u8,
    ta: u8,
    tc: u8,
    sign: u32,
) -> (t: Regs)
    requires
        unique_labels(text),
        reaches(text, i0, s0, i + 1, s),
        stands(text, i, norm_left_asm(tag, mlo, mhi, exp2, ta, tc)),
        free(mlo) && free(mhi) && free(exp2) && free(ta),
        mlo != mhi && mlo != exp2 && mlo != ta && mhi != exp2 && mhi != ta && exp2 != ta,
        tc != mlo && tc != mhi && tc != exp2 && tc != ta,
        get(s, tc) == 0x80_0000,
        pair(get(s, mlo), get(s, mhi)) > 0,
        -0x1000_0000 <= signed(get(s, exp2)) + floor_log2(pair(get(s, mlo), get(s, mhi)))
            <= 0x1000_0000,
    ensures
        reaches(text, i0, s0, i + 11, t),
        pair(get(t, mlo), get(t, mhi)) >= 0x80_0000,
        signed(get(t, exp2)) + floor_log2(pair(get(t, mlo), get(t, mhi))) == signed(get(s, exp2))
            + floor_log2(pair(get(s, mlo), get(s, mhi))),
        round(sign, pair(get(t, mlo), get(t, mhi)), signed(get(t, exp2)) - 23) == round(
            sign,
            pair(get(s, mlo), get(s, mhi)),
            signed(get(s, exp2)) - 23,
        ),
        same_but(s, t, set![mlo, mhi, exp2, ta]),
    decreases 0x100_0000 - pair(get(s, mlo), get(s, mhi)),
{
    let lo = get(s, mlo);
    let hi = get(s, mhi);
    let m = pair(lo, hi);
    let e = signed(get(s, exp2));
    let lines = norm_left_asm(tag, mlo, mhi, exp2, ta, tc);
    reveal_with_fuel(exec_range, 6);
    reveal_with_fuel(range_computes, 6);
    lemma_block(text, i0, s0, i, lines, 1, 2, s);
    assert(text[i + 2] == lines[2] && text[i + 3] == lines[3] && text[i + 10] == lines[10]) by {
        reveal(stands);
    }
    lemma_branch(text, i0, s0, i + 2, s, i + 10);
    if hi != 0 {
        lemma_block(text, i0, s0, i, lines, 10, 11, s);
        return s;
    }
    lemma_branch(text, i0, s0, i + 3, s, i + 10);
    if lo >= 0x80_0000 {
        lemma_block(text, i0, s0, i, lines, 10, 11, s);
        return s;
    }
    lemma_log_of_64_bits(m);
    lemma_shl64(lo, hi);
    lemma_round_double(sign, m, e - 23);
    lemma_block(text, i0, s0, i, lines, 4, 9, s);
    let u = exec_range(lines, 4, 9, s);
    assert(text[i + 9] == lines[9] && text[i + 1] == lines[1]) by {
        reveal(stands);
    }
    lemma_jump(text, i0, s0, i + 9, u, i + 1);
    run_norm_left(text, i0, s0, i, u, tag, mlo, mhi, exp2, ta, tc, sign)
}

proof fn run_norm_right(
    text: Seq<Asm>,
    i0: int,
    s0: Regs,
    i: int,
    s: Regs,
    tag: Seq<char>,
    mlo: u8,
    mhi: u8,
    exp2: u8,
    ta: u8,
    tb: u8,
    tc: u8,
    sign: u32,
) -> (t: Regs)
    requires
        unique_labels(text),
        reaches(text, i0, s0, i + 1, s),
        stands(text, i, norm_right_asm(tag, mlo, mhi, exp2, ta, tb, tc)),
        free(mlo) && free(mhi) && free(exp2) && free(ta) && free(tb),
        mlo != mhi && mlo != exp2 && mlo != ta && mhi != exp2 && mhi != ta && exp2 != ta,
        tb != mlo && tb != mhi && tb != exp2 && tb != ta,
        tc != mlo && tc != mhi && tc != exp2 && tc != ta && tc != tb,
        get(s, tc) == 0x100_0000,
        pair(get(s, mlo), get(s, mhi)) >= 0x80_0000,
        -0x1000_0000 <= signed(get(s, exp2)) + floor_log2(pair(get(s, mlo), get(s, mhi)))
            <= 0x1000_0000,
    ensures
        reaches(text, i0, s0, i + 14, t),
        0x80_0000 <= get(t, mlo) < 0x100_0000,
        get(t, mhi) == 0,
        signed(get(t, exp2)) + 23 == signed(get(s, exp2)) + floor_log2(
            pair(get(s, mlo), get(s, mhi)),
        ),
        round(sign, get(t, mlo) as nat, signed(get(t, exp2)) - 23) == round(
            sign,
            pair(get(s, mlo), get(s, mhi)),
            signed(get(s, exp2)) - 23,
        ),
        same_but(s, t, set![mlo, mhi, exp2, ta, tb]),
    decreases pair(get(s, mlo), get(s, mhi)),
{
    let lo = get(s, mlo);
    let hi = get(s, mhi);
    let m = pair(lo, hi);
    let e = signed(get(s, exp2));
    let lines = norm_right_asm(tag, mlo, mhi, exp2, ta, tb, tc);
    reveal_with_fuel(exec_range, 8);
    reveal_with_fuel(range_computes, 8);
    lemma_block(text, i0, s0, i, lines, 1, 2, s);
    assert(text[i + 2] == lines[2] && text[i + 3] == lines[3] && text[i + 5] == lines[5]) by {
        reveal(stands);
    }
    lemma_branch(text, i0, s0, i + 2, s, i + 5);
    if hi == 0 {
        lemma_branch(text, i0, s0, i + 3, s, i + 5);
        if lo < 0x100_0000 {
            assert(text[i + 4] == lines[4] && text[i + 13] == lines[13]) by {
        reveal(stands);
    }
            lemma_jump(text, i0, s0, i + 4, s, i + 13);
            lemma_block(text, i0, s0, i, lines, 13, 14, s);
            lemma_log_of_24_bits(m);
            return s;
        }
    }
    lemma_log_of_64_bits(m);
    lemma_shr64(lo, hi);
    lemma_round_halve(sign, m, e - 23);
    lemma_block(text, i0, s0, i, lines, 5, 12, s);
    let u = exec_range(lines, 5, 12, s);
    assert(text[i + 12] == lines[12] && text[i + 1] == lines[1]) by {
        reveal(stands);
    }
    lemma_jump(text, i0, s0, i + 12, u, i + 1);
    run_norm_right(text, i0, s0, i, u, tag, mlo, mhi, exp2, ta, tb, tc, sign)
}

proof fn lemma_pack(sign: u32, field: u32, m: u32)
    requires
        sign <= 1,
        0x80_0000 <= m < 0x100_0000,
    ensures
        ((sign << 31) | (field << 23)) | (m ^ 0x80_0000) == (sign << 31) | (field << 23) | (m
            & 0x7FFFFF),
        0x7F80_0000u32 == 0xFFu32 << 23,
{
    assert((0x80_0000 <= m < 0x100_0000 ==> m ^ 0x80_0000 == m & 0x7FFFFF) && 0x7F80_0000u32
        == 0xFFu32 << 23) by (bit_vector);
}

proof fn run_norm_pack(
    text: Seq<Asm>,
    i0: int,
    s0: Regs,
    i: int,
    s: Regs,
    tag: Seq<char>,
    sign: u8,
    mlo: u8,
    exp2: u8,
    out: u8,
    ta: u8,
    tb: u8,
    tc: u8,
    td: u8,
) -> (t: Regs)
    requires
        unique_labels(text),
        reaches(text, i0, s0, i, s),
        stands(text, i, norm_pack_asm(tag, sign, mlo, exp2, out, ta, tb, tc, td)),
        free(exp2) && free(out) && free(ta) && free(tb) && free(tc) && free(td),
        sign != exp2 && sign != ta && sign != tb && sign != tc && mlo != exp2 && mlo != ta && mlo
            != tb && mlo != tc,
        exp2 != ta && exp2 != tc && ta != tb && ta != tc && ta != td,
        get(s, sign) <= 1,
        0x80_0000 <= get(s, mlo) < 0x100_0000,
        -0x1000_0000 <= signed(get(s, exp2)) <= 0x1000_0000,
    ensures
        reaches(text, i0, s0, i + 20, t),
        get(t, out) == round(get(s, sign), get(s, mlo) as nat, signed(get(s, exp2)) - 23),
        same_but(s, t, set![exp2, out, ta, tb, tc, td]),
{
    let lines = norm_pack_asm(tag, sign, mlo, exp2, out, ta, tb, tc, td);
    let m = get(s, mlo);
    let field = signed(get(s, exp2)) + 127;
    lemma_log_of_24_bits(m as nat);
    lemma_pack(get(s, sign), field as u32, m);
    reveal_with_fuel(exec_range, 7);
    reveal_with_fuel(range_computes, 7);
    assert(text[i + 2] == lines[2] && text[i + 4] == lines[4] && text[i + 11] == lines[11] && text[i
        + 12] == lines[12] && text[i + 14] == lines[14] && text[i + 15] == lines[15] && text[i + 19]
        == lines[19]) by {
        reveal(stands);
    }
    lemma_block(text, i0, s0, i, lines, 0, 2, s);
    let u = exec_range(lines, 0, 2, s);
    assert(signed(get(u, exp2)) == field);
    lemma_branch(text, i0, s0, i + 2, u, i + 12);
    if field < 1 {
        lemma_block(text, i0, s0, i, lines, 12, 14, u);
        let v = exec_range(lines, 12, 14, u);
        lemma_jump(text, i0, s0, i + 14, v, i + 19);
        lemma_block(text, i0, s0, i, lines, 19, 20, v);
        v
    } else {
        lemma_block(text, i0, s0, i, lines, 3, 4, u);
        let v = exec_range(lines, 3, 4, u);
        lemma_branch(text, i0, s0, i + 4, v, i + 15);
        if field >= 0xFF {
            lemma_block(text, i0, s0, i, lines, 15, 20, v);
            exec_range(lines, 15, 20, v)
        } else {
            lemma_block(text, i0, s0, i, lines, 5, 11, v);
            let w = exec_range(lines, 5, 11, v);
            assert(get(w, out) == ((get(s, sign) << 31) | ((field as u32) << 23)) | (m ^ 0x80_0000));
            lemma_jump(text, i0, s0, i + 11, w, i + 19);
            lemma_block(text, i0, s0, i, lines, 19, 20, w);
            w
        }
    }
}

/// Rounding: `out` becomes the pattern of the pair at its exponent.
proof fn run_norm(
    text: Seq<Asm>,
    i0: int,
    s0: Regs,
    i: int,
    s: Regs,
    tag: Seq<char>,
    sign: u8,
    mlo: u8,
    mhi: u8,
    exp2: u8,
    out: u8,
    ta: u8,
    tb: u8,
    tc: u8,
    td: u8,
) -> (t: Regs)
    requires
        unique_labels(text),
        reaches(text, i0, s0, i, s),
        stands(text, i, norm_asm(tag, sign, mlo, mhi, exp2, out, ta, tb, tc, td)),
        free(mlo) && free(mhi) && free(exp2) && free(out) && free(ta) && free(tb) && free(tc)
            && free(td),
        mlo != mhi && mlo != exp2 && mlo != ta && mhi != exp2 && mhi != ta && exp2 != ta,
        tb != mlo && tb != mhi && tb != exp2 && tb != ta,
        tc != mlo && tc != mhi && tc != exp2 && tc != ta && tc != tb,
        sign != mlo && sign != mhi && sign != exp2 && sign != ta && sign != tb && sign != tc,
        td != ta,
        get(s, sign) <= 1,
        pair(get(s, mlo), get(s, mhi)) > 0,
        -0x100_0000 <= signed(get(s, exp2)) <= 0x100_0000,
    ensures
        reaches(text, i0, s0, i + 45, t),
        get(t, out) == round(
            get(s, sign),
            pair(get(s, mlo), get(s, mhi)),
            signed(get(s, exp2)) - 23,
        ),
        same_but(s, t, set![mlo, mhi, exp2, out, ta, tb, tc, td]),
{
    let left = norm_left_asm(tag, mlo, mhi, exp2, ta, tc);
    let right = norm_right_asm(tag, mlo, mhi, exp2, ta, tb, tc);
    let pack = norm_pack_asm(tag, sign, mlo, exp2, out, ta, tb, tc, td);
    lemma_stands_parts(text, i, left + right, pack);
    lemma_stands_parts(text, i, left, right);
    reveal_with_fuel(exec_range, 2);
    reveal_with_fuel(range_computes, 2);
    let g = get(s, sign);
    lemma_log_of_64_bits(pair(get(s, mlo), get(s, mhi)));
    lemma_block(text, i0, s0, i, left, 0, 1, s);
    let u = exec_range(left, 0, 1, s);
    let v = run_norm_left(text, i0, s0, i, u, tag, mlo, mhi, exp2, ta, tc, g);
    assert(left.len() == 11 && right.len() == 14 && pack.len() == 20);
    lemma_block(text, i0, s0, i + 11, right, 0, 1, v);
    let w = exec_range(right, 0, 1, v);
    let x = run_norm_right(text, i0, s0, i + 11, w, tag, mlo, mhi, exp2, ta, tb, tc, g);
    run_norm_pack(text, i0, s0, i + 25, x, tag, sign, mlo, exp2, out, ta, tb, tc, td)
}

// ---- where the routines stand --------------------------------------------------------------

/// Whether `__sf_f32_add` stands at line `b`, each piece of it at its own line.
spec fn add_at(text: Seq<Asm>, b: int) -> bool {
    &&& unique_labels(text)
    &&& stands(text, b + 0, add_start_asm())
    &&& stands(text, b + 3, is_nan_asm(T0, S2, A2, A3))
    &&& stands(text, b + 11, add_nan_a_asm())
    &&& stands(text, b + 12, is_nan_asm(T1, S3, A2, A3))
    &&& stands(text, b + 20, add_nan_b_asm())
    &&& stands(text, b + 21, decompose_asm("add_da"@, T0, S4, S5, S6, A2))
    &&& stands(text, b + 33, decompose_asm("add_db"@, T1, S7, S8, S9, A2))
    &&& stands(text, b + 45, is_inf_asm(T0, A4, A2, A3))
    &&& stands(text, b + 53, is_inf_asm(T1, A5, A2, A3))
    &&& stands(text, b + 61, add_special_asm())
    &&& stands(text, b + 82, add_pick_asm())
    &&& stands(text, b + 104, add_align_asm())
    &&& stands(text, b + 135, add_shift_loop_asm())
    &&& stands(text, b + 139, shl64_asm(A4, S9, T2))
    &&& stands(text, b + 143, add_shift_end_asm())
    &&& stands(text, b + 149, add_sum_asm())
    &&& stands(text, b + 153, norm_asm("add_sum"@, S2, T4, T6, T3, A0, A2, A3, T2, T5))
    &&& stands(text, b + 198, add_sum_ret_asm())
    &&& stands(text, b + 199, add_diff_asm())
    &&& stands(text, b + 208, norm_asm("add_diff"@, S2, T4, T6, T3, A0, A2, A3, T2, T5))
    &&& stands(text, b + 253, add_diff_ret_asm())
    &&& stands(text, b + 254, add_returns_asm())
}

proof fn lemma_add_at(text: Seq<Asm>, b: int)
    requires
        unique_labels(text),
        stands(text, b, f32_add_asm()),
    ensures
        add_at(text, b),
{
    assert(add_start_asm().len() == 3);
    assert(is_nan_asm(T0, S2, A2, A3).len() == 8);
    assert(add_nan_a_asm().len() == 1);
    assert(is_nan_asm(T1, S3, A2, A3).len() == 8);
    assert(add_nan_b_asm().len() == 1);
    assert(decompose_asm("add_da"@, T0, S4, S5, S6, A2).len() == 12);
    assert(decompose_asm("add_db"@, T1, S7, S8, S9, A2).len() == 12);
    assert(is_inf_asm(T0, A4, A2, A3).len() == 8);
    assert(is_inf_asm(T1, A5, A2, A3).len() == 8);
    assert(add_special_asm().len() == 21);
    assert(add_pick_asm().len() == 22);
    assert(add_align_asm().len() == 31);
    assert(add_shift_loop_asm().len() == 4);
    assert(shl64_asm(A4, S9, T2).len() == 4);
    assert(add_shift_end_asm().len() == 6);
    assert(add_sum_asm().len() == 4);
    assert(norm_asm("add_sum"@, S2, T4, T6, T3, A0, A2, A3, T2, T5).len() == 45);
    assert(add_sum_ret_asm().len() == 1);
    assert(add_diff_asm().len() == 9);
    assert(norm_asm("add_diff"@, S2, T4, T6, T3, A0, A2, A3, T2, T5).len() == 45);
    assert(add_diff_ret_asm().len() == 1);
    assert(add_returns_asm().len() == 12);
    lemma_stands_parts(
        text,
        b,
        add_entry_asm() + add_special_asm() + add_pick_asm() + add_align_asm() + add_widen_asm()
            + add_same_sign_asm() + add_opposite_sign_asm(),
        add_returns_asm(),
    );
    lemma_stands_parts(
        text,
        b,
        add_entry_asm() + add_special_asm() + add_pick_asm() + add_align_asm() + add_widen_asm()
            + add_same_sign_asm(),
        add_opposite_sign_asm(),
    );
    lemma_stands_parts(
        text,
        b,
        add_entry_asm() + add_special_asm() + add_pick_asm() + add_align_asm() + add_widen_asm(),
        add_same_sign_asm(),
    );
    lemma_stands_parts(
        text,
        b,
        add_entry_asm() + add_special_asm() + add_pick_asm() + add_align_asm(),
        add_widen_asm(),
    );
    lemma_stands_parts(
        text,
        b,
        add_entry_asm() + add_special_asm() + add_pick_asm(),
        add_align_asm(),
    );
    lemma_stands_parts(text, b, add_entry_asm() + add_special_asm(), add_pick_asm());
    lemma_stands_parts(text, b, add_entry_asm(), add_special_asm());
    lemma_stands_parts(
        text,
        b + 0,
        add_start_asm() + is_nan_asm(T0, S2, A2, A3) + add_nan_a_asm() + is_nan_asm(T1, S3, A2, A3)
            + add_nan_b_asm() + decompose_asm(
            "add_da"@,
            T0,
            S4,
            S5,
            S6,
            A2,
        ) + decompose_asm("add_db"@, T1, S7, S8, S9, A2) + is_inf_asm(T0, A4, A2, A3),
        is_inf_asm(T1, A5, A2, A3),
    );
    lemma_stands_parts(
        text,
        b + 0,
        add_start_asm() + is_nan_asm(T0, S2, A2, A3) + add_nan_a_asm() + is_nan_asm(T1, S3, A2, A3)
            + add_nan_b_asm() + decompose_asm("add_da"@, T0, S4, S5, S6, A2) + decompose_asm(
            "add_db"@,
            T1,
            S7,
            S8,
            S9,
            A2,
        ),
        is_inf_asm(T0, A4, A2, A3),
    );
    lemma_stands_parts(
        text,
        b + 0,
        add_start_asm() + is_nan_asm(T0, S2, A2, A3) + add_nan_a_asm() + is_nan_asm(T1, S3, A2, A3)
            + add_nan_b_asm() + decompose_asm(
            "add_da"@,
            T0,
            S4,
            S5,
            S6,
            A2,
        ),
        decompose_asm("add_db"@, T1, S7, S8, S9, A2),
    );
    lemma_stands_parts(
        text,
        b + 0,
        add_start_asm() + is_nan_asm(
            T0,
            S2,
            A2,
            A3,
        ) + add_nan_a_asm() + is_nan_asm(T1, S3, A2, A3) + add_nan_b_asm(),
        decompose_asm("add_da"@, T0, S4, S5, S6, A2),
    );
    lemma_stands_parts(
        text,
        b + 0,
        add_start_asm() + is_nan_asm(T0, S2, A2, A3) + add_nan_a_asm() + is_nan_asm(T1, S3, A2, A3),
        add_nan_b_asm(),
    );
    lemma_stands_parts(
        text,
        b + 0,
        add_start_asm() + is_nan_asm(T0, S2, A2, A3) + add_nan_a_asm(),
        is_nan_asm(T1, S3, A2, A3),
    );
    lemma_stands_parts(text, b + 0, add_start_asm() + is_nan_asm(T0, S2, A2, A3), add_nan_a_asm());
    lemma_stands_parts(text, b + 0, add_start_asm(), is_nan_asm(T0, S2, A2, A3));
    lemma_stands_parts(
        text,
        b + 135,
        add_shift_loop_asm() + shl64_asm(A4, S9, T2),
        add_shift_end_asm(),
    );
    lemma_stands_parts(text, b + 135, add_shift_loop_asm(), shl64_asm(A4, S9, T2));
    lemma_stands_parts(
        text,
        b + 149,
        add_sum_asm() + norm_asm("add_sum"@, S2, T4, T6, T3, A0, A2, A3, T2, T5),
        add_sum_ret_asm(),
    );
    lemma_stands_parts(
        text,
        b + 149,
        add_sum_asm(),
        norm_asm("add_sum"@, S2, T4, T6, T3, A0, A2, A3, T2, T5),
    );
    lemma_stands_parts(
        text,
        b + 199,
        add_diff_asm() + norm_asm("add_diff"@, S2, T4, T6, T3, A0, A2, A3, T2, T5),
        add_diff_ret_asm(),
    );
    lemma_stands_parts(
        text,
        b + 199,
        add_diff_asm(),
        norm_asm("add_diff"@, S2, T4, T6, T3, A0, A2, A3, T2, T5),
    );
}

/// Whether `__sf_f32_mul` stands at line `b`, each piece of it at its own line.
spec fn mul_at(text: Seq<Asm>, b: int) -> bool {
    &&& unique_labels(text)
    &&& stands(text, b + 0, mul_start_asm())
    &&& stands(text, b + 6, is_nan_asm(T0, S4, A2, A3))
    &&& stands(text, b + 14, mul_nan_a_asm())
    &&& stands(text, b + 15, is_nan_asm(T1, S4, A2, A3))
    &&& stands(text, b + 23, mul_nan_b_asm())
    &&& stands(text, b + 24, decompose_asm("mul_da"@, T0, T2, S5, S6, A2))
    &&& stands(text, b + 36, decompose_asm("mul_db"@, T1, T3, S7, S8, A2))
    &&& stands(text, b + 48, is_inf_asm(T0, S9, A2, A3))
    &&& stands(text, b + 56, is_inf_asm(T1, A4, A2, A3))
    &&& stands(text, b + 64, mul_zeros_asm())
    &&& stands(text, b + 70, mul_special_asm())
    &&& stands(text, b + 78, mul_wide_asm())
    &&& stands(text, b + 82, norm_asm("mul_np"@, S2, T4, T5, T6, A0, A2, A3, A7, T2))
    &&& stands(text, b + 127, mul_end_asm())
    &&& stands(text, b + 133, mul_returns_asm())
}

proof fn lemma_mul_at(text: Seq<Asm>, b: int)
    requires
        unique_labels(text),
        stands(text, b, f32_mul_asm()),
    ensures
        mul_at(text, b),
{
    assert(mul_start_asm().len() == 6);
    assert(is_nan_asm(T0, S4, A2, A3).len() == 8);
    assert(mul_nan_a_asm().len() == 1);
    assert(is_nan_asm(T1, S4, A2, A3).len() == 8);
    assert(mul_nan_b_asm().len() == 1);
    assert(decompose_asm("mul_da"@, T0, T2, S5, S6, A2).len() == 12);
    assert(decompose_asm("mul_db"@, T1, T3, S7, S8, A2).len() == 12);
    assert(is_inf_asm(T0, S9, A2, A3).len() == 8);
    assert(is_inf_asm(T1, A4, A2, A3).len() == 8);
    assert(mul_zeros_asm().len() == 6);
    assert(mul_special_asm().len() == 8);
    assert(mul_wide_asm().len() == 4);
    assert(norm_asm("mul_np"@, S2, T4, T5, T6, A0, A2, A3, A7, T2).len() == 45);
    assert(mul_end_asm().len() == 6);
    assert(mul_returns_asm().len() == 11);
    lemma_stands_parts(
        text,
        b,
        mul_entry_asm() + mul_special_asm() + mul_product_asm(),
        mul_returns_asm(),
    );
    lemma_stands_parts(text, b, mul_entry_asm() + mul_special_asm(), mul_product_asm());
    lemma_stands_parts(text, b, mul_entry_asm(), mul_special_asm());
    lemma_stands_parts(
        text,
        b + 0,
        mul_start_asm() + is_nan_asm(T0, S4, A2, A3) + mul_nan_a_asm() + is_nan_asm(T1, S4, A2, A3)
            + mul_nan_b_asm() + decompose_asm(
            "mul_da"@,
            T0,
            T2,
            S5,
            S6,
            A2,
        ) + decompose_asm("mul_db"@, T1, T3, S7, S8, A2) + is_inf_asm(T0, S9, A2, A3)
            + is_inf_asm(T1, A4, A2, A3),
        mul_zeros_asm(),
    );
    lemma_stands_parts(
        text,
        b + 0,
        mul_start_asm() + is_nan_asm(T0, S4, A2, A3) + mul_nan_a_asm() + is_nan_asm(T1, S4, A2, A3)
            + mul_nan_b_asm() + decompose_asm(
            "mul_da"@,
            T0,
            T2,
            S5,
            S6,
            A2,
        ) + decompose_asm("mul_db"@, T1, T3, S7, S8, A2) + is_inf_asm(T0, S9, A2, A3),
        is_inf_asm(T1, A4, A2, A3),
    );
    lemma_stands_parts(
        text,
        b + 0,
        mul_start_asm() + is_nan_asm(T0, S4, A2, A3) + mul_nan_a_asm() + is_nan_asm(T1, S4, A2, A3)
            + mul_nan_b_asm() + decompose_asm("mul_da"@, T0, T2, S5, S6, A2) + decompose_asm(
            "mul_db"@,
            T1,
            T3,
            S7,
            S8,
            A2,
        ),
        is_inf_asm(T0, S9, A2, A3),
    );
    lemma_stands_parts(
        text,
        b + 0,
        mul_start_asm() + is_nan_asm(T0, S4, A2, A3) + mul_nan_a_asm() + is_nan_asm(T1, S4, A2, A3)
            + mul_nan_b_asm() + decompose_asm(
            "mul_da"@,
            T0,
            T2,
            S5,
            S6,
            A2,
        ),
        decompose_asm("mul_db"@, T1, T3, S7, S8, A2),
    );
    lemma_stands_parts(
        text,
        b + 0,
        mul_start_asm() + is_nan_asm(
            T0,
            S4,
            A2,
            A3,
        ) + mul_nan_a_asm() + is_nan_asm(T1, S4, A2, A3) + mul_nan_b_asm(),
        decompose_asm("mul_da"@, T0, T2, S5, S6, A2),
    );
    lemma_stands_parts(
        text,
        b + 0,
        mul_start_asm() + is_nan_asm(T0, S4, A2, A3) + mul_nan_a_asm() + is_nan_asm(T1, S4, A2, A3),
        mul_nan_b_asm(),
    );
    lemma_stands_parts(
        text,
        b + 0,
        mul_start_asm() + is_nan_asm(T0, S4, A2, A3) + mul_nan_a_asm(),
        is_nan_asm(T1, S4, A2, A3),
    );
    lemma_stands_parts(text, b + 0, mul_start_asm() + is_nan_asm(T0, S4, A2, A3), mul_nan_a_asm());
    lemma_stands_parts(text, b + 0, mul_start_asm(), is_nan_asm(T0, S4, A2, A3));
    lemma_stands_parts(
        text,
        b + 78,
        mul_wide_asm() + norm_asm("mul_np"@, S2, T4, T5, T6, A0, A2, A3, A7, T2),
        mul_end_asm(),
    );
    lemma_stands_parts(
        text,
        b + 78,
        mul_wide_asm(),
        norm_asm("mul_np"@, S2, T4, T5, T6, A0, A2, A3, A7, T2),
    );
}

/// Whether `__sf_f32_div` stands at line `b`, each piece of it at its own line.
spec fn div_at(text: Seq<Asm>, b: int) -> bool {
    &&& unique_labels(text)
    &&& stands(text, b + 0, div_start_asm())
    &&& stands(text, b + 6, is_nan_asm(T0, S4, A2, A3))
    &&& stands(text, b + 14, div_nan_a_asm())
    &&& stands(text, b + 15, is_nan_asm(T1, S4, A2, A3))
    &&& stands(text, b + 23, div_nan_b_asm())
    &&& stands(text, b + 24, decompose_asm("div_da"@, T0, T2, S5, S6, A2))
    &&& stands(text, b + 36, decompose_asm("div_db"@, T1, T3, S7, S8, A2))
    &&& stands(text, b + 48, is_inf_asm(T0, S9, A2, A3))
    &&& stands(text, b + 56, is_inf_asm(T1, A4, A2, A3))
    &&& stands(text, b + 64, div_zeros_asm())
    &&& stands(text, b + 70, div_special_asm())
    &&& stands(text, b + 78, div_quotient_asm())
    &&& stands(text, b + 96, div_exponent_asm())
    &&& stands(text, b + 99, norm_asm("div_np"@, S2, T6, T2, A7, A0, A2, A3, S5, S6))
    &&& stands(text, b + 144, div_end_asm())
    &&& stands(text, b + 150, div_returns_asm())
}

proof fn lemma_div_at(text: Seq<Asm>, b: int)
    requires
        unique_labels(text),
        stands(text, b, f32_div_asm()),
    ensures
        div_at(text, b),
{
    assert(div_start_asm().len() == 6);
    assert(is_nan_asm(T0, S4, A2, A3).len() == 8);
    assert(div_nan_a_asm().len() == 1);
    assert(is_nan_asm(T1, S4, A2, A3).len() == 8);
    assert(div_nan_b_asm().len() == 1);
    assert(decompose_asm("div_da"@, T0, T2, S5, S6, A2).len() == 12);
    assert(decompose_asm("div_db"@, T1, T3, S7, S8, A2).len() == 12);
    assert(is_inf_asm(T0, S9, A2, A3).len() == 8);
    assert(is_inf_asm(T1, A4, A2, A3).len() == 8);
    assert(div_zeros_asm().len() == 6);
    assert(div_special_asm().len() == 8);
    assert(div_quotient_asm().len() == 18);
    assert(div_exponent_asm().len() == 3);
    assert(norm_asm("div_np"@, S2, T6, T2, A7, A0, A2, A3, S5, S6).len() == 45);
    assert(div_end_asm().len() == 6);
    assert(div_returns_asm().len() == 11);
    lemma_stands_parts(
        text,
        b,
        div_entry_asm() + div_special_asm() + div_quotient_asm() + div_round_asm(),
        div_returns_asm(),
    );
    lemma_stands_parts(
        text,
        b,
        div_entry_asm() + div_special_asm() + div_quotient_asm(),
        div_round_asm(),
    );
    lemma_stands_parts(text, b, div_entry_asm() + div_special_asm(), div_quotient_asm());
    lemma_stands_parts(text, b, div_entry_asm(), div_special_asm());
    lemma_stands_parts(
        text,
        b + 0,
        div_start_asm() + is_nan_asm(T0, S4, A2, A3) + div_nan_a_asm() + is_nan_asm(T1, S4, A2, A3)
            + div_nan_b_asm() + decompose_asm(
            "div_da"@,
            T0,
            T2,
            S5,
            S6,
            A2,
        ) + decompose_asm("div_db"@, T1, T3, S7, S8, A2) + is_inf_asm(T0, S9, A2, A3)
            + is_inf_asm(T1, A4, A2, A3),
        div_zeros_asm(),
    );
    lemma_stands_parts(
        text,
        b + 0,
        div_start_asm() + is_nan_asm(T0, S4, A2, A3) + div_nan_a_asm() + is_nan_asm(T1, S4, A2, A3)
            + div_nan_b_asm() + decompose_asm(
            "div_da"@,
            T0,
            T2,
            S5,
            S6,
            A2,
        ) + decompose_asm("div_db"@, T1, T3, S7, S8, A2) + is_inf_asm(T0, S9, A2, A3),
        is_inf_asm(T1, A4, A2, A3),
    );
    lemma_stands_parts(
        text,
        b + 0,
        div_start_asm() + is_nan_asm(T0, S4, A2, A3) + div_nan_a_asm() + is_nan_asm(T1, S4, A2, A3)
            + div_nan_b_asm() + decompose_asm("div_da"@, T0, T2, S5, S6, A2) + decompose_asm(
            "div_db"@,
            T1,
            T3,
            S7,
            S8,
            A2,
        ),
        is_inf_asm(T0, S9, A2, A3),
    );
    lemma_stands_parts(
        text,
        b + 0,
        div_start_asm() + is_nan_asm(T0, S4, A2, A3) + div_nan_a_asm() + is_nan_asm(T1, S4, A2, A3)
            + div_nan_b_asm() + decompose_asm(
            "div_da"@,
            T0,
            T2,
            S5,
            S6,
            A2,
        ),
        decompose_asm("div_db"@, T1, T3, S7, S8, A2),
    );
    lemma_stands_parts(
        text,
        b + 0,
        div_start_asm() + is_nan_asm(
            T0,
            S4,
            A2,
            A3,
        ) + div_nan_a_asm() + is_nan_asm(T1, S4, A2, A3) + div_nan_b_asm(),
        decompose_asm("div_da"@, T0, T2, S5, S6, A2),
    );
    lemma_stands_parts(
        text,
        b + 0,
        div_start_asm() + is_nan_asm(T0, S4, A2, A3) + div_nan_a_asm() + is_nan_asm(T1, S4, A2, A3),
        div_nan_b_asm(),
    );
    lemma_stands_parts(
        text,
        b + 0,
        div_start_asm() + is_nan_asm(T0, S4, A2, A3) + div_nan_a_asm(),
        is_nan_asm(T1, S4, A2, A3),
    );
    lemma_stands_parts(text, b + 0, div_start_asm() + is_nan_asm(T0, S4, A2, A3), div_nan_a_asm());
    lemma_stands_parts(text, b + 0, div_start_asm(), is_nan_asm(T0, S4, A2, A3));
    lemma_stands_parts(
        text,
        b + 96,
        div_exponent_asm() + norm_asm("div_np"@, S2, T6, T2, A7, A0, A2, A3, S5, S6),
        div_end_asm(),
    );
    lemma_stands_parts(
        text,
        b + 96,
        div_exponent_asm(),
        norm_asm("div_np"@, S2, T6, T2, A7, A0, A2, A3, S5, S6),
    );
}

/// Whether `__sf_f32_cmp` stands at line `b`, each piece of it at its own line.
spec fn cmp_at(text: Seq<Asm>, b: int) -> bool {
    &&& unique_labels(text)
    &&& stands(text, b + 0, cmp_start_asm())
    &&& stands(text, b + 3, is_nan_asm(T0, S2, A2, A3))
    &&& stands(text, b + 11, cmp_nan_a_asm())
    &&& stands(text, b + 12, is_nan_asm(T1, S2, A2, A3))
    &&& stands(text, b + 20, cmp_nan_b_asm())
    &&& stands(text, b + 21, decompose_asm("cmp_da"@, T0, S4, S5, S6, A2))
    &&& stands(text, b + 33, decompose_asm("cmp_db"@, T1, S7, S8, S9, A2))
    &&& stands(text, b + 45, cmp_which_zeros_asm())
    &&& stands(text, b + 51, cmp_zeros_asm())
    &&& stands(text, b + 71, cmp_signs_asm())
    &&& stands(text, b + 79, cmp_magnitudes_asm())
    &&& stands(text, b + 99, cmp_returns_asm())
}

proof fn lemma_cmp_at(text: Seq<Asm>, b: int)
    requires
        unique_labels(text),
        stands(text, b, f32_cmp_asm()),
    ensures
        cmp_at(text, b),
{
    assert(cmp_start_asm().len() == 3);
    assert(is_nan_asm(T0, S2, A2, A3).len() == 8);
    assert(cmp_nan_a_asm().len() == 1);
    assert(is_nan_asm(T1, S2, A2, A3).len() == 8);
    assert(cmp_nan_b_asm().len() == 1);
    assert(decompose_asm("cmp_da"@, T0, S4, S5, S6, A2).len() == 12);
    assert(decompose_asm("cmp_db"@, T1, S7, S8, S9, A2).len() == 12);
    assert(cmp_which_zeros_asm().len() == 6);
    assert(cmp_zeros_asm().len() == 20);
    assert(cmp_signs_asm().len() == 8);
    assert(cmp_magnitudes_asm().len() == 20);
    assert(cmp_returns_asm().len() == 11);
    lemma_stands_parts(
        text,
        b,
        cmp_entry_asm() + cmp_zeros_asm() + cmp_signs_asm() + cmp_magnitudes_asm(),
        cmp_returns_asm(),
    );
    lemma_stands_parts(
        text,
        b,
        cmp_entry_asm() + cmp_zeros_asm() + cmp_signs_asm(),
        cmp_magnitudes_asm(),
    );
    lemma_stands_parts(text, b, cmp_entry_asm() + cmp_zeros_asm(), cmp_signs_asm());
    lemma_stands_parts(text, b, cmp_entry_asm(), cmp_zeros_asm());
    lemma_stands_parts(
        text,
        b + 0,
        cmp_start_asm() + is_nan_asm(T0, S2, A2, A3) + cmp_nan_a_asm() + is_nan_asm(T1, S2, A2, A3)
            + cmp_nan_b_asm() + decompose_asm("cmp_da"@, T0, S4, S5, S6, A2) + decompose_asm(
            "cmp_db"@,
            T1,
            S7,
            S8,
            S9,
            A2,
        ),
        cmp_which_zeros_asm(),
    );
    lemma_stands_parts(
        text,
        b + 0,
        cmp_start_asm() + is_nan_asm(T0, S2, A2, A3) + cmp_nan_a_asm() + is_nan_asm(T1, S2, A2, A3)
            + cmp_nan_b_asm() + decompose_asm(
            "cmp_da"@,
            T0,
            S4,
            S5,
            S6,
            A2,
        ),
        decompose_asm("cmp_db"@, T1, S7, S8, S9, A2),
    );
    lemma_stands_parts(
        text,
        b + 0,
        cmp_start_asm() + is_nan_asm(
            T0,
            S2,
            A2,
            A3,
        ) + cmp_nan_a_asm() + is_nan_asm(T1, S2, A2, A3) + cmp_nan_b_asm(),
        decompose_asm("cmp_da"@, T0, S4, S5, S6, A2),
    );
    lemma_stands_parts(
        text,
        b + 0,
        cmp_start_asm() + is_nan_asm(T0, S2, A2, A3) + cmp_nan_a_asm() + is_nan_asm(T1, S2, A2, A3),
        cmp_nan_b_asm(),
    );
    lemma_stands_parts(
        text,
        b + 0,
        cmp_start_asm() + is_nan_asm(T0, S2, A2, A3) + cmp_nan_a_asm(),
        is_nan_asm(T1, S2, A2, A3),
    );
    lemma_stands_parts(text, b + 0, cmp_start_asm() + is_nan_asm(T0, S2, A2, A3), cmp_nan_a_asm());
    lemma_stands_parts(text, b + 0, cmp_start_asm(), is_nan_asm(T0, S2, A2, A3));
}

/// Whether `__sf_i32_to_f32` stands at line `b`, each piece of it at its own line.
spec fn i2f_at(text: Seq<Asm>, b: int) -> bool {
    &&& unique_labels(text)
    &&& stands(text, b + 0, i2f_entry_asm())
    &&& stands(text, b + 13, i2f_pair_asm())
    &&& stands(text, b + 15, norm_asm("i2f_np"@, S2, S3, S4, S5, A0, A2, A3, A6, A7))
    &&& stands(text, b + 60, i2f_ret_asm())
}

proof fn lemma_i2f_at(text: Seq<Asm>, b: int)
    requires
        unique_labels(text),
        stands(text, b, i32_to_f32_asm()),
    ensures
        i2f_at(text, b),
{
    assert(i2f_entry_asm().len() == 13);
    assert(i2f_pair_asm().len() == 2);
    assert(norm_asm("i2f_np"@, S2, S3, S4, S5, A0, A2, A3, A6, A7).len() == 45);
    assert(i2f_ret_asm().len() == 1);
    lemma_stands_parts(text, b, i2f_entry_asm(), i2f_round_asm());
    lemma_stands_parts(
        text,
        b + 13,
        i2f_pair_asm() + norm_asm("i2f_np"@, S2, S3, S4, S5, A0, A2, A3, A6, A7),
        i2f_ret_asm(),
    );
    lemma_stands_parts(
        text,
        b + 13,
        i2f_pair_asm(),
        norm_asm("i2f_np"@, S2, S3, S4, S5, A0, A2, A3, A6, A7),
    );
}

/// Whether `__sf_u32_to_f32` stands at line `b`, each piece of it at its own line.
spec fn u2f_at(text: Seq<Asm>, b: int) -> bool {
    &&& unique_labels(text)
    &&& stands(text, b + 0, u2f_entry_asm())
    &&& stands(text, b + 6, u2f_pair_asm())
    &&& stands(text, b + 10, norm_asm("u2f_np"@, S2, S3, S4, S5, A0, A2, A3, A6, A7))
    &&& stands(text, b + 55, u2f_ret_asm())
}

proof fn lemma_u2f_at(text: Seq<Asm>, b: int)
    requires
        unique_labels(text),
        stands(text, b, u32_to_f32_asm()),
    ensures
        u2f_at(text, b),
{
    assert(u2f_entry_asm().len() == 6);
    assert(u2f_pair_asm().len() == 4);
    assert(norm_asm("u2f_np"@, S2, S3, S4, S5, A0, A2, A3, A6, A7).len() == 45);
    assert(u2f_ret_asm().len() == 1);
    lemma_stands_parts(text, b, u2f_entry_asm(), u2f_round_asm());
    lemma_stands_parts(
        text,
        b + 6,
        u2f_pair_asm() + norm_asm("u2f_np"@, S2, S3, S4, S5, A0, A2, A3, A6, A7),
        u2f_ret_asm(),
    );
    lemma_stands_parts(
        text,
        b + 6,
        u2f_pair_asm(),
        norm_asm("u2f_np"@, S2, S3, S4, S5, A0, A2, A3, A6, A7),
    );
}

/// Whether `__sf_f32_to_i32` stands at line `b`, each piece of it at its own line.
spec fn f2i_at(text: Seq<Asm>, b: int) -> bool {
    &&& unique_labels(text)
    &&& stands(text, b + 0, f2i_start_asm())
    &&& stands(text, b + 2, is_nan_asm(T0, S2, A2, A3))
    &&& stands(text, b + 10, f2i_nan_asm())
    &&& stands(text, b + 11, decompose_asm("f2i_d"@, T0, S3, S4, S5, A2))
    &&& stands(text, b + 23, is_inf_asm(T0, S6, A2, A3))
    &&& stands(text, b + 31, f2i_inf_asm())
    &&& stands(text, b + 43, f2i_large_asm())
    &&& stands(text, b + 62, f2i_small_asm())
    &&& stands(text, b + 77, f2i_returns_asm())
}

proof fn lemma_f2i_at(text: Seq<Asm>, b: int)
    requires
        unique_labels(text),
        stands(text, b, f32_to_i32_asm()),
    ensures
        f2i_at(text, b),
{
    assert(f2i_start_asm().len() == 2);
    assert(is_nan_asm(T0, S2, A2, A3).len() == 8);
    assert(f2i_nan_asm().len() == 1);
    assert(decompose_asm("f2i_d"@, T0, S3, S4, S5, A2).len() == 12);
    assert(is_inf_asm(T0, S6, A2, A3).len() == 8);
    assert(f2i_inf_asm().len() == 12);
    assert(f2i_large_asm().len() == 19);
    assert(f2i_small_asm().len() == 15);
    assert(f2i_returns_asm().len() == 8);
    lemma_stands_parts(
        text,
        b,
        f2i_entry_asm() + f2i_large_asm() + f2i_small_asm(),
        f2i_returns_asm(),
    );
    lemma_stands_parts(text, b, f2i_entry_asm() + f2i_large_asm(), f2i_small_asm());
    lemma_stands_parts(text, b, f2i_entry_asm(), f2i_large_asm());
    lemma_stands_parts(
        text,
        b + 0,
        f2i_start_asm() + is_nan_asm(T0, S2, A2, A3) + f2i_nan_asm() + decompose_asm(
            "f2i_d"@,
            T0,
            S3,
            S4,
            S5,
            A2,
        ) + is_inf_asm(T0, S6, A2, A3),
        f2i_inf_asm(),
    );
    lemma_stands_parts(
        text,
        b + 0,
        f2i_start_asm() + is_nan_asm(T0, S2, A2, A3) + f2i_nan_asm() + decompose_asm(
            "f2i_d"@,
            T0,
            S3,
            S4,
            S5,
            A2,
        ),
        is_inf_asm(T0, S6, A2, A3),
    );
    lemma_stands_parts(
        text,
        b + 0,
        f2i_start_asm() + is_nan_asm(T0, S2, A2, A3) + f2i_nan_asm(),
        decompose_asm("f2i_d"@, T0, S3, S4, S5, A2),
    );
    lemma_stands_parts(text, b + 0, f2i_start_asm() + is_nan_asm(T0, S2, A2, A3), f2i_nan_asm());
    lemma_stands_parts(text, b + 0, f2i_start_asm(), is_nan_asm(T0, S2, A2, A3));
}

/// Whether `__sf_f32_to_u32` stands at line `b`, each piece of it at its own line.
spec fn f2u_at(text: Seq<Asm>, b: int) -> bool {
    &&& unique_labels(text)
    &&& stands(text, b + 0, f2u_start_asm())
    &&& stands(text, b + 2, is_nan_asm(T0, S2, A2, A3))
    &&& stands(text, b + 10, f2u_nan_asm())
    &&& stands(text, b + 11, decompose_asm("f2u_d"@, T0, S3, S4, S5, A2))
    &&& stands(text, b + 23, f2u_sign_asm())
    &&& stands(text, b + 31, is_inf_asm(T0, S6, A2, A3))
    &&& stands(text, b + 39, f2u_inf_asm())
    &&& stands(text, b + 47, f2u_large_asm())
    &&& stands(text, b + 63, f2u_small_asm())
}

proof fn lemma_f2u_at(text: Seq<Asm>, b: int)
    requires
        unique_labels(text),
        stands(text, b, f32_to_u32_asm()),
    ensures
        f2u_at(text, b),
{
    assert(f2u_start_asm().len() == 2);
    assert(is_nan_asm(T0, S2, A2, A3).len() == 8);
    assert(f2u_nan_asm().len() == 1);
    assert(decompose_asm("f2u_d"@, T0, S3, S4, S5, A2).len() == 12);
    assert(f2u_sign_asm().len() == 8);
    assert(is_inf_asm(T0, S6, A2, A3).len() == 8);
    assert(f2u_inf_asm().len() == 8);
    assert(f2u_large_asm().len() == 16);
    assert(f2u_small_asm().len() == 19);
    lemma_stands_parts(text, b, f2u_entry_asm() + f2u_large_asm(), f2u_small_asm());
    lemma_stands_parts(text, b, f2u_entry_asm(), f2u_large_asm());
    lemma_stands_parts(
        text,
        b + 0,
        f2u_start_asm() + is_nan_asm(T0, S2, A2, A3) + f2u_nan_asm() + decompose_asm(
            "f2u_d"@,
            T0,
            S3,
            S4,
            S5,
            A2,
        ) + f2u_sign_asm() + is_inf_asm(T0, S6, A2, A3),
        f2u_inf_asm(),
    );
    lemma_stands_parts(
        text,
        b + 0,
        f2u_start_asm() + is_nan_asm(T0, S2, A2, A3) + f2u_nan_asm() + decompose_asm(
            "f2u_d"@,
            T0,
            S3,
            S4,
            S5,
            A2,
        ) + f2u_sign_asm(),
        is_inf_asm(T0, S6, A2, A3),
    );
    lemma_stands_parts(
        text,
        b + 0,
        f2u_start_asm() + is_nan_asm(T0, S2, A2, A3) + f2u_nan_asm() + decompose_asm(
            "f2u_d"@,
            T0,
            S3,
            S4,
            S5,
            A2,
        ),
        f2u_sign_asm(),
    );
    lemma_stands_parts(
        text,
        b + 0,
        f2u_start_asm() + is_nan_asm(T0, S2, A2, A3) + f2u_nan_asm(),
        decompose_asm("f2u_d"@, T0, S3, S4, S5, A2),
    );
    lemma_stands_parts(text, b + 0, f2u_start_asm() + is_nan_asm(T0, S2, A2, A3), f2u_nan_asm());
    lemma_stands_parts(text, b + 0, f2u_start_asm(), is_nan_asm(T0, S2, A2, A3));
}

// ---- conversions from integers -------------------------------------------------------------

/// `__sf_u32_to_f32` returns the rounded pattern of the unsigned integer in `a0`.
pub proof fn law_u32_to_f32(text: Seq<Asm>, i: int, s: Regs)
    requires
        unique_labels(text),
        stands(text, i, u32_to_f32_asm()),
    ensures
        gives(text, i, s, int_value(get(s, A0) as int)),
{
    let entry = u2f_entry_asm();
    lemma_u2f_at(text, i);
    reveal_with_fuel(exec_range, 6);
    reveal_with_fuel(range_computes, 6);
    assert(text[i + 2] == entry[2] && text[i + 4] == entry[4] && text[i + 5] == entry[5]) by {
        reveal(stands);
    }
    lemma_here(text, i, s);
    lemma_block(text, i, s, i, entry, 0, 2, s);
    let u = exec_range(entry, 0, 2, s);
    lemma_branch(text, i, s, i + 2, u, i + 5);
    if get(s, A0) == 0 {
        lemma_block(text, i, s, i, entry, 3, 4, u);
        lemma_ret(text, i, s, i + 4, exec_range(entry, 3, 4, u));
    } else {
        lemma_block(text, i, s, i, entry, 5, 6, u);
        lemma_block(text, i, s, i + 6, u2f_pair_asm(), 0, 4, u);
        let v = exec_range(u2f_pair_asm(), 0, 4, u);
        let w = run_norm(text, i, s, i + 10, v, "u2f_np"@, S2, S3, S4, S5, A0, A2, A3, A6, A7);
        assert(text[i + 55 + 0] == u2f_ret_asm()[0]) by {
        reveal(stands);
    }
        lemma_ret(text, i, s, i + 55, w);
    }
}

/// `__sf_i32_to_f32` returns the rounded pattern of the signed integer in `a0`.
pub proof fn law_i32_to_f32(text: Seq<Asm>, i: int, s: Regs)
    requires
        unique_labels(text),
        stands(text, i, i32_to_f32_asm()),
    ensures
        gives(text, i, s, int_value(signed(get(s, A0)))),
{
    let entry = i2f_entry_asm();
    lemma_i2f_at(text, i);
    reveal_with_fuel(exec_range, 6);
    reveal_with_fuel(range_computes, 6);
    assert(text[i + 2] == entry[2] && text[i + 4] == entry[4] && text[i + 5] == entry[5] && text[i
        + 7] == entry[7] && text[i + 9] == entry[9] && text[i + 10] == entry[10] && text[i + 12]
        == entry[12]) by {
        reveal(stands);
    }
    let x = get(s, A0);
    assert(x >> 31 == if x < 0x8000_0000 {
        0u32
    } else {
        1
    }) by (bit_vector);
    lemma_here(text, i, s);
    lemma_block(text, i, s, i, entry, 0, 2, s);
    let u = exec_range(entry, 0, 2, s);
    lemma_branch(text, i, s, i + 2, u, i + 5);
    if x == 0 {
        lemma_block(text, i, s, i, entry, 3, 4, u);
        lemma_ret(text, i, s, i + 4, exec_range(entry, 3, 4, u));
    } else {
        lemma_block(text, i, s, i, entry, 5, 7, u);
        let v = exec_range(entry, 5, 7, u);
        lemma_branch(text, i, s, i + 7, v, i + 10);
        let w = if x < 0x8000_0000 {
            lemma_block(text, i, s, i, entry, 10, 13, v);
            exec_range(entry, 10, 13, v)
        } else {
            lemma_block(text, i, s, i, entry, 8, 9, v);
            let w = exec_range(entry, 8, 9, v);
            lemma_jump(text, i, s, i + 9, w, i + 12);
            lemma_block(text, i, s, i, entry, 12, 13, w);
            w
        };
        lemma_block(text, i, s, i + 13, i2f_pair_asm(), 0, 2, w);
        let y = exec_range(i2f_pair_asm(), 0, 2, w);
        let z = run_norm(text, i, s, i + 15, y, "i2f_np"@, S2, S3, S4, S5, A0, A2, A3, A6, A7);
        assert(text[i + 60 + 0] == i2f_ret_asm()[0]) by {
        reveal(stands);
    }
        lemma_ret(text, i, s, i + 60, z);
    }
}

// ---- conversions to integers ---------------------------------------------------------------

/// `x` shifted by `n` bits.
spec fn shifted(op: ShiftOp, x: u32, n: u32) -> int {
    if op == ShiftOp::Slli {
        x * pow2(n as nat)
    } else {
        x as int / pow2(n as nat) as int
    }
}

/// A loop that shifts `s8` by one bit, `s9` times.
proof fn run_shift_loop(
    text: Seq<Asm>,
    i0: int,
    s0: Regs,
    i: int,
    lines: Seq<Asm>,
    s: Regs,
    op: ShiftOp,
    again: Seq<char>,
    done: Seq<char>,
) -> (t: Regs)
    requires
        unique_labels(text),
        reaches(text, i0, s0, i + 5, s),
        stands(text, i, lines),
        lines.len() >= 11,
        lines[5] == Asm::Label(again),
        lines[6] == Asm::Branch(BCond::Eq, S9, ZERO, done),
        lines[7] == Asm::Shift(op, S8, S8, 1),
        lines[8] == addi_asm(S9, S9, -1),
        lines[9] == Asm::Jal(ZERO, again),
        lines[10] == Asm::Label(done),
        op == ShiftOp::Slli || op == ShiftOp::Srli,
        shifted(op, get(s, S8), get(s, S9)) < 0x1_0000_0000,
    ensures
        reaches(text, i0, s0, i + 11, t),
        get(t, S8) == shifted(op, get(s, S8), get(s, S9)),
        same_but(s, t, set![S8, S9]),
    decreases get(s, S9),
{
    let x = get(s, S8);
    let n = get(s, S9);
    lemma2_to64();
    reveal_with_fuel(exec_range, 3);
    reveal_with_fuel(range_computes, 3);
    lemma_block(text, i0, s0, i, lines, 5, 6, s);
    assert(text[i + 5] == lines[5] && text[i + 6] == lines[6] && text[i + 9] == lines[9] && text[i
        + 10] == lines[10]) by {
        reveal(stands);
    }
    lemma_branch(text, i0, s0, i + 6, s, i + 10);
    if n == 0 {
        lemma_block(text, i0, s0, i, lines, 10, 11, s);
        assert(x * pow2(0) == x && x as int / pow2(0) as int == x);
        s
    } else {
        let k = (n - 1) as nat;
        let p = pow2(k) as int;
        lemma_pow2_adds(1, k);
        lemma_pow2_pos(k);
        if op == ShiftOp::Slli {
            assert(x * (2 * p) == (2 * x) * p) by (nonlinear_arith);
            assert(2 * x <= (2 * x) * p) by (nonlinear_arith)
                requires
                    p >= 1,
                    x >= 0,
            ;
            assert(x < 0x8000_0000 ==> x << 1 == 2 * x) by (bit_vector);
        } else {
            assert(x >> 1 == x / 2) by (bit_vector);
            lemma_div_denominator(x as int, 2, p);
        }
        lemma_block(text, i0, s0, i, lines, 7, 9, s);
        let u = exec_range(lines, 7, 9, s);
        assert(shifted(op, get(u, S8), get(u, S9)) == shifted(op, x, n));
        lemma_jump(text, i0, s0, i + 9, u, i + 5);
        run_shift_loop(text, i0, s0, i, lines, u, op, again, done)
    }
}

proof fn lemma_zero_has_no_integer(x: u32)
    requires
        is_zero(x),
    ensures
        !is_nan(x),
        int_part(x) == 0,
{
    lemma_shift_down(0, 150);
}

proof fn lemma_inf_is_large(x: u32)
    requires
        is_inf(x),
    ensures
        int_part(x) > u32::MAX,
        sign_of(x) <= 1,
{
    lemma_fields_by_shifts(x);
    lemma_shift_up(mant_of(x), 105);
}

proof fn lemma_shifted_down_is_less(m: nat, n: nat)
    ensures
        0 <= m as int / pow2(n) as int <= m,
{
    lemma_pow2_pos(n);
    assert(0 <= m as int / pow2(n) as int <= m) by (nonlinear_arith)
        requires
            pow2(n) > 0,
            m >= 0,
    ;
}

/// From the point where the value is known to be finite, positive and no zero.
proof fn run_f2u_finite(text: Seq<Asm>, b: int, i0: int, s0: Regs, s: Regs, x: u32)
    requires
        f2u_at(text, b),
        reaches(text, i0, s0, b + 47, s),
        !is_nan(x) && !is_inf(x) && !is_zero(x) && sign_of(x) == 0,
        get(s, S5) == mant_of(x),
        signed(get(s, S7)) == exp_of(x) - 150,
    ensures
        gives(text, i0, s0, word(saturated(x, 0, u32::MAX as int))),
{
    let large = f2u_large_asm();
    let small = f2u_small_asm();
    let c = b + 47;
    let d = b + 63;
    let e = exp_of(x) as int - 150;
    let m = mant_of(x);
    lemma_fields_by_shifts(x);
    reveal_with_fuel(exec_range, 4);
    reveal_with_fuel(range_computes, 4);
    assert(text[c + 0] == large[0] && text[c + 2] == large[2] && text[c + 12] == large[12] && text[c
        + 13] == large[13] && text[c + 15] == large[15] && text[d + 0] == small[0] && text[d + 3]
        == small[3] && text[d + 12] == small[12] && text[d + 13] == small[13] && text[d + 15]
        == small[15]) by {
        reveal(stands);
    }
    lemma_branch(text, i0, s0, c, s, d);
    if e >= 0 {
        lemma_shift_up(m, e as nat);
        lemma_block(text, i0, s0, c, large, 1, 2, s);
        let u = exec_range(large, 1, 2, s);
        lemma_branch(text, i0, s0, c + 2, u, c + 13);
        if e >= 9 {
            lemma_block(text, i0, s0, c, large, 13, 15, u);
            lemma_ret(text, i0, s0, c + 15, exec_range(large, 13, 15, u));
        } else {
            lemma_block(text, i0, s0, c, large, 3, 5, u);
            let v = exec_range(large, 3, 5, u);
            let w = run_shift_loop(
                text,
                i0,
                s0,
                c,
                large,
                v,
                ShiftOp::Slli,
                "f2u_shl_loop"@,
                "f2u_shl_done"@,
            );
            lemma_block(text, i0, s0, c, large, 11, 12, w);
            lemma_ret(text, i0, s0, c + 12, exec_range(large, 11, 12, w));
        }
    } else {
        let n = (-e) as nat;
        lemma_shifted_down_is_less(m, n);
        lemma_block(text, i0, s0, d, small, 0, 3, s);
        let u = exec_range(small, 0, 3, s);
        assert(get(u, S9) == n);
        lemma_branch(text, i0, s0, d + 3, u, d + 13);
        if n >= 32 {
            lemma_shift_down(m, n);
            lemma_block(text, i0, s0, d, small, 13, 15, u);
            lemma_ret(text, i0, s0, d + 15, exec_range(small, 13, 15, u));
        } else {
            lemma_block(text, i0, s0, d, small, 4, 5, u);
            let v = exec_range(small, 4, 5, u);
            let w = run_shift_loop(
                text,
                i0,
                s0,
                d,
                small,
                v,
                ShiftOp::Srli,
                "f2u_shr_loop"@,
                "f2u_shr_done"@,
            );
            lemma_block(text, i0, s0, d, small, 11, 12, w);
            lemma_ret(text, i0, s0, d + 12, exec_range(small, 11, 12, w));
        }
    }
}

/// From the point where the value is known to be no NaN and not negative.
proof fn run_f2u_unsigned(text: Seq<Asm>, b: int, i0: int, s0: Regs, s: Regs, x: u32)
    requires
        f2u_at(text, b),
        reaches(text, i0, s0, b + 31, s),
        !is_nan(x),
        sign_of(x) == 0 || is_zero(x),
        get(s, T0) == x,
        get(s, S4) == exp_of(x),
        get(s, S5) == mant_of(x),
    ensures
        gives(text, i0, s0, word(saturated(x, 0, u32::MAX as int))),
{
    let lines = f2u_inf_asm();
    let small = f2u_small_asm();
    let c = b + 39;
    let d = b + 63;
    lemma_fields_by_shifts(x);
    reveal_with_fuel(exec_range, 4);
    reveal_with_fuel(range_computes, 4);
    assert(text[c + 0] == lines[0] && text[c + 2] == lines[2] && text[c + 3] == lines[3] && text[c
        + 4] == lines[4] && text[d + 16] == small[16] && text[d + 18] == small[18]) by {
        reveal(stands);
    }
    let u = run_is_inf(text, i0, s0, b + 31, s, T0, S6, A2, A3);
    lemma_branch(text, i0, s0, c, u, c + 3);
    if is_inf(x) {
        lemma_inf_is_large(x);
        lemma_block(text, i0, s0, c, lines, 1, 2, u);
        lemma_ret(text, i0, s0, c + 2, exec_range(lines, 1, 2, u));
    } else {
        lemma_block(text, i0, s0, c, lines, 3, 4, u);
        lemma_branch(text, i0, s0, c + 4, u, d + 16);
        if is_zero(x) {
            lemma_zero_has_no_integer(x);
            lemma_block(text, i0, s0, d, small, 16, 18, u);
            lemma_ret(text, i0, s0, d + 18, exec_range(small, 16, 18, u));
        } else {
            lemma_block(text, i0, s0, c, lines, 5, 8, u);
            run_f2u_finite(text, b, i0, s0, exec_range(lines, 5, 8, u), x);
        }
    }
}

/// `__sf_f32_to_u32` returns the integer part of the pattern in `a0`, saturating.
pub proof fn law_f32_to_u32(text: Seq<Asm>, i: int, s: Regs)
    requires
        unique_labels(text),
        stands(text, i, f32_to_u32_asm()),
    ensures
        gives(text, i, s, word(saturated(get(s, A0), 0, u32::MAX as int))),
{
    lemma_f2u_at(text, i);
    let x = get(s, A0);
    let start = f2u_start_asm();
    let lines = f2u_sign_asm();
    let small = f2u_small_asm();
    let c = i + 23;
    let d = i + 63;
    lemma_fields_by_shifts(x);
    reveal_with_fuel(exec_range, 4);
    reveal_with_fuel(range_computes, 4);
    assert(text[i + 10 + 0] == f2u_nan_asm()[0] && text[c + 0] == lines[0] && text[c + 4]
        == lines[4] && text[c + 6] == lines[6] && text[c + 7] == lines[7] && text[d + 16]
        == small[16] && text[d + 18] == small[18]) by {
        reveal(stands);
    }
    lemma_here(text, i, s);
    lemma_block(text, i, s, i, start, 0, 2, s);
    let u = run_is_nan(text, i, s, i + 2, exec_range(start, 0, 2, s), T0, S2, A2, A3);
    lemma_branch(text, i, s, i + 10, u, d + 16);
    if is_nan(x) {
        lemma_block(text, i, s, d, small, 16, 18, u);
        lemma_ret(text, i, s, d + 18, exec_range(small, 16, 18, u));
    } else {
        let v = run_decompose(text, i, s, i + 11, u, "f2u_d"@, T0, S3, S4, S5, A2);
        lemma_branch(text, i, s, c, v, c + 7);
        if sign_of(x) == 1 {
            lemma_flags(exp_of(x) == 0, mant_of(x) == 0);
            lemma_block(text, i, s, c, lines, 1, 4, v);
            let w = exec_range(lines, 1, 4, v);
            lemma_branch(text, i, s, c + 4, w, c + 7);
            if is_zero(x) {
                lemma_block(text, i, s, c, lines, 7, 8, w);
                run_f2u_unsigned(text, i, i, s, w, x);
            } else {
                lemma_block(text, i, s, c, lines, 5, 6, w);
                lemma_ret(text, i, s, c + 6, exec_range(lines, 5, 6, w));
            }
        } else {
            lemma_block(text, i, s, c, lines, 7, 8, v);
            run_f2u_unsigned(text, i, i, s, v, x);
        }
    }
}

/// From the point where the magnitude is known.
proof fn run_f2i_magnitude(text: Seq<Asm>, b: int, i0: int, s0: Regs, s: Regs, x: u32)
    requires
        f2i_at(text, b),
        reaches(text, i0, s0, b + 76, s),
        !is_nan(x),
        int_part(x) < 0x8000_0000,
        get(s, S3) == sign_of(x),
        get(s, S8) == int_part(x),
    ensures
        gives(text, i0, s0, word(saturated(x, i32::MIN as int, i32::MAX as int))),
{
    let small = f2i_small_asm();
    let last = f2i_returns_asm();
    let c = b + 62;
    let d = b + 77;
    lemma_fields_by_shifts(x);
    reveal_with_fuel(exec_range, 4);
    reveal_with_fuel(range_computes, 4);
    assert(text[d + 0] == last[0] && text[d + 2] == last[2] && text[d + 4] == last[4]) by {
        reveal(stands);
    }
    lemma_block(text, i0, s0, c, small, 14, 15, s);
    lemma_branch(text, i0, s0, d, s, d + 2);
    if sign_of(x) == 0 {
        lemma_block(text, i0, s0, d, last, 2, 4, s);
        lemma_ret(text, i0, s0, d + 4, exec_range(last, 2, 4, s));
    } else {
        lemma_block(text, i0, s0, d, last, 1, 4, s);
        lemma_ret(text, i0, s0, d + 4, exec_range(last, 1, 4, s));
    }
}

/// From the point where the value is known to be finite and no zero.
proof fn run_f2i_finite(text: Seq<Asm>, b: int, i0: int, s0: Regs, s: Regs, x: u32)
    requires
        f2i_at(text, b),
        reaches(text, i0, s0, b + 43, s),
        !is_nan(x) && !is_inf(x) && !is_zero(x),
        get(s, S3) == sign_of(x),
        get(s, S5) == mant_of(x),
        signed(get(s, S7)) == exp_of(x) - 150,
    ensures
        gives(text, i0, s0, word(saturated(x, i32::MIN as int, i32::MAX as int))),
{
    let large = f2i_large_asm();
    let small = f2i_small_asm();
    let c = b + 43;
    let d = b + 62;
    let e = exp_of(x) as int - 150;
    let m = mant_of(x);
    lemma_fields_by_shifts(x);
    reveal_with_fuel(exec_range, 4);
    reveal_with_fuel(range_computes, 4);
    assert(text[c + 0] == large[0] && text[c + 2] == large[2] && text[c + 11] == large[11]
        && text[c + 12] == large[12] && text[c + 13] == large[13] && text[c + 15] == large[15]
        && text[c + 16] == large[16] && text[c + 18] == large[18] && text[d + 0] == small[0]
        && text[d + 3] == small[3] && text[d + 11] == small[11] && text[d + 12] == small[12]
        && text[d + 14] == small[14]) by {
        reveal(stands);
    }
    lemma_branch(text, i0, s0, c, s, d);
    if e >= 0 {
        lemma_shift_up(m, e as nat);
        lemma_block(text, i0, s0, c, large, 1, 2, s);
        let u = exec_range(large, 1, 2, s);
        lemma_branch(text, i0, s0, c + 2, u, c + 12);
        if e >= 8 {
            lemma_block(text, i0, s0, c, large, 12, 13, u);
            lemma_branch(text, i0, s0, c + 13, u, c + 16);
            if sign_of(x) == 0 {
                lemma_block(text, i0, s0, c, large, 16, 18, u);
                lemma_ret(text, i0, s0, c + 18, exec_range(large, 16, 18, u));
            } else {
                lemma_block(text, i0, s0, c, large, 14, 15, u);
                lemma_ret(text, i0, s0, c + 15, exec_range(large, 14, 15, u));
            }
        } else {
            lemma_block(text, i0, s0, c, large, 3, 5, u);
            let v = exec_range(large, 3, 5, u);
            let w = run_shift_loop(
                text,
                i0,
                s0,
                c,
                large,
                v,
                ShiftOp::Slli,
                "f2i_shl_loop"@,
                "f2i_shl_done"@,
            );
            lemma_jump(text, i0, s0, c + 11, w, d + 14);
            run_f2i_magnitude(text, b, i0, s0, w, x);
        }
    } else {
        let n = (-e) as nat;
        lemma_shifted_down_is_less(m, n);
        lemma_block(text, i0, s0, d, small, 0, 3, s);
        let u = exec_range(small, 0, 3, s);
        assert(get(u, S9) == n);
        lemma_branch(text, i0, s0, d + 3, u, d + 12);
        if n >= 32 {
            lemma_shift_down(m, n);
            lemma_block(text, i0, s0, d, small, 12, 14, u);
            let v = exec_range(small, 12, 14, u);
            run_f2i_magnitude(text, b, i0, s0, v, x);
        } else {
            lemma_block(text, i0, s0, d, small, 4, 5, u);
            let v = exec_range(small, 4, 5, u);
            let w = run_shift_loop(
                text,
                i0,
                s0,
                d,
                small,
                v,
                ShiftOp::Srli,
                "f2i_shr_loop"@,
                "f2i_shr_done"@,
            );
            lemma_jump(text, i0, s0, d + 11, w, d + 14);
            run_f2i_magnitude(text, b, i0, s0, w, x);
        }
    }
}

/// `__sf_f32_to_i32` returns the integer part of the pattern in `a0`, saturating.
pub proof fn law_f32_to_i32(text: Seq<Asm>, i0: int, s0: Regs)
    requires
        unique_labels(text),
        stands(text, i0, f32_to_i32_asm()),
    ensures
        gives(text, i0, s0, word(saturated(get(s0, A0), i32::MIN as int, i32::MAX as int))),
{
    lemma_f2i_at(text, i0);
    let x = get(s0, A0);
    let start = f2i_start_asm();
    let nan = f2i_nan_asm();
    let inf = f2i_inf_asm();
    let last = f2i_returns_asm();
    let b = i0 + 10;
    let c = i0 + 31;
    let d = i0 + 77;
    lemma_fields_by_shifts(x);
    reveal_with_fuel(exec_range, 4);
    reveal_with_fuel(range_computes, 4);
    assert(text[b + 0] == nan[0] && text[c + 0] == inf[0] && text[c + 1] == inf[1]
        && text[c + 3] == inf[3] && text[c + 4] == inf[4] && text[c + 6] == inf[6]
        && text[c + 7] == inf[7] && text[c + 8] == inf[8] && text[d + 5] == last[5]
        && text[d + 7] == last[7]) by {
        reveal(stands);
    }
    lemma_here(text, i0, s0);
    lemma_block(text, i0, s0, i0, start, 0, 2, s0);
    let r = exec_range(start, 0, 2, s0);
    let u = run_is_nan(text, i0, s0, i0 + 2, r, T0, S2, A2, A3);
    lemma_branch(text, i0, s0, b, u, d + 5);
    if is_nan(x) {
        lemma_block(text, i0, s0, d, last, 5, 7, u);
        lemma_ret(text, i0, s0, d + 7, exec_range(last, 5, 7, u));
    } else {
        let v = run_decompose(text, i0, s0, i0 + 11, u, "f2i_d"@, T0, S3, S4, S5, A2);
        let w = run_is_inf(text, i0, s0, i0 + 23, v, T0, S6, A2, A3);
        lemma_branch(text, i0, s0, c, w, c + 7);
        if is_inf(x) {
            lemma_inf_is_large(x);
            lemma_branch(text, i0, s0, c + 1, w, c + 4);
            if sign_of(x) == 0 {
                lemma_block(text, i0, s0, c, inf, 4, 6, w);
                lemma_ret(text, i0, s0, c + 6, exec_range(inf, 4, 6, w));
            } else {
                lemma_block(text, i0, s0, c, inf, 2, 3, w);
                lemma_ret(text, i0, s0, c + 3, exec_range(inf, 2, 3, w));
            }
        } else {
            lemma_block(text, i0, s0, c, inf, 7, 8, w);
            lemma_branch(text, i0, s0, c + 8, w, d + 5);
            if is_zero(x) {
                lemma_zero_has_no_integer(x);
                lemma_block(text, i0, s0, d, last, 5, 7, w);
                lemma_ret(text, i0, s0, d + 7, exec_range(last, 5, 7, w));
            } else {
                lemma_block(text, i0, s0, c, inf, 9, 12, w);
                let y = exec_range(inf, 9, 12, w);
                run_f2i_finite(text, i0, i0, s0, y, x);
            }
        }
    }
}

// ---- comparison ----------------------------------------------------------------------------

/// From the point where both values are known to be no NaN and no zero, of one sign.
proof fn run_cmp_magnitudes(text: Seq<Asm>, b: int, i0: int, s0: Regs, s: Regs, x: u32, y: u32)
    requires
        cmp_at(text, b),
        reaches(text, i0, s0, b + 79, s),
        !is_nan(x) && !is_nan(y) && !is_zero(x) && !is_zero(y),
        sign_of(x) == sign_of(y),
        get(s, S4) == sign_of(x),
        get(s, S5) == exp_of(x) && get(s, S6) == mant_of(x),
        get(s, S8) == exp_of(y) && get(s, S9) == mant_of(y),
    ensures
        gives(text, i0, s0, word(order_code(x, y))),
{
    let lines = cmp_magnitudes_asm();
    let last = cmp_returns_asm();
    let c = b + 79;
    let d = b + 99;
    lemma_fields_by_shifts(x);
    lemma_units_order(x, y);
    reveal_with_fuel(exec_range, 4);
    reveal_with_fuel(range_computes, 4);
    assert(text[c + 0] == lines[0] && text[c + 2] == lines[2] && text[c + 4] == lines[4]
        && text[c + 5] == lines[5] && text[c + 7] == lines[7] && text[c + 8] == lines[8]
        && text[c + 9] == lines[9] && text[c + 11] == lines[11] && text[c + 13] == lines[13]
        && text[c + 14] == lines[14] && text[c + 16] == lines[16] && text[c + 17] == lines[17]
        && text[c + 19] == lines[19] && text[d + 0] == last[0] && text[d + 2] == last[2]
        && text[d + 4] == last[4]) by {
        reveal(stands);
    }
    lemma_branch(text, i0, s0, c, s, c + 8);
    let t = if exp_of(x) != exp_of(y) {
        lemma_block(text, i0, s0, c, lines, 1, 2, s);
        let u = exec_range(lines, 1, 2, s);
        lemma_branch(text, i0, s0, c + 2, u, c + 5);
        if exp_of(x) < exp_of(y) {
            lemma_block(text, i0, s0, c, lines, 5, 7, u);
            let v = exec_range(lines, 5, 7, u);
            lemma_jump(text, i0, s0, c + 7, v, c + 19);
            v
        } else {
            lemma_block(text, i0, s0, c, lines, 3, 4, u);
            let v = exec_range(lines, 3, 4, u);
            lemma_jump(text, i0, s0, c + 4, v, c + 19);
            v
        }
    } else {
        lemma_block(text, i0, s0, c, lines, 8, 9, s);
        lemma_branch(text, i0, s0, c + 9, s, c + 17);
        if mant_of(x) == mant_of(y) {
            lemma_block(text, i0, s0, c, lines, 17, 19, s);
            let v = exec_range(lines, 17, 19, s);
            v
        } else {
            lemma_block(text, i0, s0, c, lines, 10, 11, s);
            let u = exec_range(lines, 10, 11, s);
            lemma_branch(text, i0, s0, c + 11, u, c + 14);
            if mant_of(x) < mant_of(y) {
                lemma_block(text, i0, s0, c, lines, 14, 16, u);
                let v = exec_range(lines, 14, 16, u);
                lemma_jump(text, i0, s0, c + 16, v, c + 19);
                v
            } else {
                lemma_block(text, i0, s0, c, lines, 12, 13, u);
                let v = exec_range(lines, 12, 13, u);
                lemma_jump(text, i0, s0, c + 13, v, c + 19);
                v
            }
        }
    };
    lemma_block(text, i0, s0, c, lines, 19, 20, t);
    lemma_branch(text, i0, s0, d, t, d + 2);
    if sign_of(x) == 0 {
        lemma_block(text, i0, s0, d, last, 2, 4, t);
        lemma_ret(text, i0, s0, d + 4, exec_range(last, 2, 4, t));
    } else {
        lemma_block(text, i0, s0, d, last, 1, 4, t);
        lemma_ret(text, i0, s0, d + 4, exec_range(last, 1, 4, t));
    }
}

/// From the point where both values are known to be no NaN, with their fields apart.
proof fn run_cmp_split(text: Seq<Asm>, b: int, i0: int, s0: Regs, s: Regs, x: u32, y: u32)
    requires
        cmp_at(text, b),
        reaches(text, i0, s0, b + 51, s),
        !is_nan(x) && !is_nan(y),
        get(s, S4) == sign_of(x),
        get(s, S5) == exp_of(x) && get(s, S6) == mant_of(x),
        get(s, S7) == sign_of(y),
        get(s, S8) == exp_of(y) && get(s, S9) == mant_of(y),
        get(s, A4) == flag(is_zero(x)) && get(s, A5) == flag(is_zero(y)),
    ensures
        gives(text, i0, s0, word(order_code(x, y))),
{
    let zeros = cmp_zeros_asm();
    let signs = cmp_signs_asm();
    let last = cmp_returns_asm();
    let c = b + 51;
    let d = b + 71;
    let e = b + 99;
    lemma_fields_by_shifts(x);
    lemma_fields_by_shifts(y);
    lemma_units_order(x, y);
    reveal_with_fuel(exec_range, 3);
    reveal_with_fuel(range_computes, 3);
    assert(text[c + 0] == zeros[0] && text[c + 1] == zeros[1] && text[c + 2] == zeros[2]
        && text[c + 3] == zeros[3] && text[c + 4] == zeros[4] && text[c + 5] == zeros[5]
        && text[c + 7] == zeros[7] && text[c + 8] == zeros[8] && text[c + 10] == zeros[10]
        && text[c + 11] == zeros[11] && text[c + 12] == zeros[12] && text[c + 13] == zeros[13]
        && text[c + 15] == zeros[15] && text[c + 16] == zeros[16] && text[c + 18] == zeros[18]
        && text[c + 19] == zeros[19] && text[d + 0] == signs[0] && text[d + 1] == signs[1]
        && text[d + 3] == signs[3] && text[d + 4] == signs[4] && text[d + 6] == signs[6]
        && text[d + 7] == signs[7] && text[e + 8] == last[8] && text[e + 10] == last[10]) by {
        reveal(stands);
    }
    lemma_branch(text, i0, s0, c, s, c + 3);
    if is_zero(x) && is_zero(y) {
        lemma_branch(text, i0, s0, c + 1, s, c + 3);
        lemma_jump(text, i0, s0, c + 2, s, e + 8);
        lemma_block(text, i0, s0, e, last, 8, 10, s);
        lemma_ret(text, i0, s0, e + 10, exec_range(last, 8, 10, s));
    } else {
        if is_zero(x) {
            lemma_branch(text, i0, s0, c + 1, s, c + 3);
        }
        lemma_block(text, i0, s0, c, zeros, 3, 4, s);
        lemma_branch(text, i0, s0, c + 4, s, c + 11);
        if is_zero(x) {
            lemma_branch(text, i0, s0, c + 5, s, c + 8);
            if sign_of(y) == 0 {
                lemma_block(text, i0, s0, c, zeros, 8, 10, s);
                lemma_ret(text, i0, s0, c + 10, exec_range(zeros, 8, 10, s));
            } else {
                lemma_block(text, i0, s0, c, zeros, 6, 7, s);
                lemma_ret(text, i0, s0, c + 7, exec_range(zeros, 6, 7, s));
            }
        } else {
            lemma_block(text, i0, s0, c, zeros, 11, 12, s);
            lemma_branch(text, i0, s0, c + 12, s, c + 19);
            if is_zero(y) {
                lemma_branch(text, i0, s0, c + 13, s, c + 16);
                if sign_of(x) == 0 {
                    lemma_block(text, i0, s0, c, zeros, 16, 18, s);
                    lemma_ret(text, i0, s0, c + 18, exec_range(zeros, 16, 18, s));
                } else {
                    lemma_block(text, i0, s0, c, zeros, 14, 15, s);
                    lemma_ret(text, i0, s0, c + 15, exec_range(zeros, 14, 15, s));
                }
            } else {
                lemma_block(text, i0, s0, c, zeros, 19, 20, s);
                lemma_branch(text, i0, s0, d, s, d + 7);
                if sign_of(x) == sign_of(y) {
                    lemma_block(text, i0, s0, d, signs, 7, 8, s);
                    run_cmp_magnitudes(text, b, i0, s0, s, x, y);
                } else {
                    lemma_branch(text, i0, s0, d + 1, s, d + 4);
                    if sign_of(x) == 0 {
                        lemma_block(text, i0, s0, d, signs, 4, 6, s);
                        lemma_ret(text, i0, s0, d + 6, exec_range(signs, 4, 6, s));
                    } else {
                        lemma_block(text, i0, s0, d, signs, 2, 3, s);
                        lemma_ret(text, i0, s0, d + 3, exec_range(signs, 2, 3, s));
                    }
                }
            }
        }
    }
}

/// `__sf_f32_cmp` returns how the patterns in `a0` and `a1` compare.
pub proof fn law_f32_cmp(text: Seq<Asm>, i0: int, s0: Regs)
    requires
        unique_labels(text),
        stands(text, i0, f32_cmp_asm()),
    ensures
        gives(text, i0, s0, word(order_code(get(s0, A0), get(s0, A1)))),
{
    lemma_cmp_at(text, i0);
    let x = get(s0, A0);
    let y = get(s0, A1);
    let start = cmp_start_asm();
    let nan_a = cmp_nan_a_asm();
    let nan_b = cmp_nan_b_asm();
    let zeros = cmp_which_zeros_asm();
    let last = cmp_returns_asm();
    let b = i0 + 11;
    let c = i0 + 20;
    let d = i0 + 45;
    let e = i0 + 99;
    lemma_fields_by_shifts(x);
    lemma_fields_by_shifts(y);
    reveal_with_fuel(exec_range, 7);
    reveal_with_fuel(range_computes, 7);
    assert(text[b + 0] == nan_a[0] && text[c + 0] == nan_b[0] && text[e + 5] == last[5]
        && text[e + 7] == last[7]) by {
        reveal(stands);
    }
    lemma_here(text, i0, s0);
    lemma_block(text, i0, s0, i0, start, 0, 3, s0);
    let r = exec_range(start, 0, 3, s0);
    let u = run_is_nan(text, i0, s0, i0 + 3, r, T0, S2, A2, A3);
    lemma_branch(text, i0, s0, b, u, e + 5);
    if is_nan(x) {
        lemma_block(text, i0, s0, e, last, 5, 7, u);
        lemma_ret(text, i0, s0, e + 7, exec_range(last, 5, 7, u));
    } else {
        let v = run_is_nan(text, i0, s0, i0 + 12, u, T1, S2, A2, A3);
        lemma_branch(text, i0, s0, c, v, e + 5);
        if is_nan(y) {
            lemma_block(text, i0, s0, e, last, 5, 7, v);
            lemma_ret(text, i0, s0, e + 7, exec_range(last, 5, 7, v));
        } else {
            let w = run_decompose(text, i0, s0, i0 + 21, v, "cmp_da"@, T0, S4, S5, S6, A2);
            let z = run_decompose(text, i0, s0, i0 + 33, w, "cmp_db"@, T1, S7, S8, S9, A2);
            lemma_flags(exp_of(x) == 0, mant_of(x) == 0);
            lemma_flags(exp_of(y) == 0, mant_of(y) == 0);
            lemma_block(text, i0, s0, d, zeros, 0, 6, z);
            let t = exec_range(zeros, 0, 6, z);
            run_cmp_split(text, i0, i0, s0, t, x, y);
        }
    }
}

// ---- multiplication and division -----------------------------------------------------------

/// The state of `__sf_f32_mul` and of `__sf_f32_div` once the operands are apart.
spec fn operands(s: Regs, x: u32, y: u32) -> bool {
    &&& get(s, S2) == product_sign(x, y)
    &&& get(s, S5) == exp_of(x)
    &&& get(s, S6) == mant_of(x)
    &&& get(s, S7) == exp_of(y)
    &&& get(s, S8) == mant_of(y)
    &&& get(s, S9) == flag(is_inf(x))
    &&& get(s, A4) == flag(is_inf(y))
    &&& get(s, A5) == flag(is_zero(x))
    &&& get(s, A6) == flag(is_zero(y))
}

proof fn lemma_product_sign(x: u32, y: u32)
    ensures
        product_sign(x, y) <= 1,
{
    assert((x >> 31) ^ (y >> 31) <= 1) by (bit_vector);
}

/// From the point where both values are known to be finite and no zero.
proof fn run_mul_product(text: Seq<Asm>, b: int, i0: int, s0: Regs, s: Regs, x: u32, y: u32)
    requires
        mul_at(text, b),
        reaches(text, i0, s0, b + 78, s),
        operands(s, x, y),
        !is_nan(x) && !is_nan(y) && !is_inf(x) && !is_inf(y) && !is_zero(x) && !is_zero(y),
    ensures
        gives(text, i0, s0, mul_value(x, y)),
{
    let wide = mul_wide_asm();
    let last = mul_end_asm();
    let c = b + 78;
    let d = b + 127;
    let g = product_sign(x, y);
    let m = mant_of(x) * mant_of(y);
    lemma_fields_by_shifts(x);
    lemma_fields_by_shifts(y);
    lemma_product_sign(x, y);
    assert(0 < m < 0x1_0000_0000_0000) by (nonlinear_arith)
        requires
            m == mant_of(x) * mant_of(y),
            0 < mant_of(x) < 0x100_0000,
            0 < mant_of(y) < 0x100_0000,
    ;
    reveal_with_fuel(exec_range, 5);
    reveal_with_fuel(range_computes, 5);
    assert(text[d + 2] == last[2] && text[d + 4] == last[4] && text[d + 5] == last[5]) by {
        reveal(stands);
    }
    lemma_block(text, i0, s0, c, wide, 0, 4, s);
    let u = exec_range(wide, 0, 4, s);
    assert(pair(get(u, T4), get(u, T5)) == m);
    let v = run_norm(text, i0, s0, b + 82, u, "mul_np"@, S2, T4, T5, T6, A0, A2, A3, A7, T2);
    lemma_round_zero(g, m, exp_of(x) + exp_of(y) - 300);
    lemma_block(text, i0, s0, d, last, 0, 2, v);
    let w = exec_range(last, 0, 2, v);
    lemma_branch(text, i0, s0, d + 2, w, d + 4);
    if get(w, T3) != 0 {
        lemma_block(text, i0, s0, d, last, 4, 5, w);
        lemma_ret(text, i0, s0, d + 5, exec_range(last, 4, 5, w));
    } else {
        lemma_block(text, i0, s0, d, last, 3, 5, w);
        lemma_ret(text, i0, s0, d + 5, exec_range(last, 3, 5, w));
    }
}

/// `__sf_f32_mul` returns the product of the patterns in `a0` and `a1`.
#[verifier::rlimit(30)]
pub proof fn law_f32_mul(text: Seq<Asm>, i0: int, s0: Regs)
    requires
        unique_labels(text),
        stands(text, i0, f32_mul_asm()),
    ensures
        gives(text, i0, s0, mul_value(get(s0, A0), get(s0, A1))),
{
    lemma_mul_at(text, i0);
    let x = get(s0, A0);
    let y = get(s0, A1);
    let start = mul_start_asm();
    let nan_a = mul_nan_a_asm();
    let nan_b = mul_nan_b_asm();
    let zeros = mul_zeros_asm();
    let last = mul_returns_asm();
    let b = i0 + 14;
    let c = i0 + 23;
    let d = i0 + 64;
    let e = i0 + 133;
    lemma_fields_by_shifts(x);
    lemma_fields_by_shifts(y);
    reveal_with_fuel(exec_range, 7);
    reveal_with_fuel(range_computes, 7);
    assert(text[b + 0] == nan_a[0] && text[c + 0] == nan_b[0] && text[e + 0] == last[0]
        && text[e + 2] == last[2]) by {
        reveal(stands);
    }
    lemma_here(text, i0, s0);
    lemma_block(text, i0, s0, i0, start, 0, 6, s0);
    let r = exec_range(start, 0, 6, s0);
    let u = run_is_nan(text, i0, s0, i0 + 6, r, T0, S4, A2, A3);
    lemma_branch(text, i0, s0, b, u, e);
    if is_nan(x) {
        lemma_block(text, i0, s0, e, last, 0, 2, u);
        lemma_ret(text, i0, s0, e + 2, exec_range(last, 0, 2, u));
    } else {
        let v = run_is_nan(text, i0, s0, i0 + 15, u, T1, S4, A2, A3);
        lemma_branch(text, i0, s0, c, v, e);
        if is_nan(y) {
            lemma_block(text, i0, s0, e, last, 0, 2, v);
            lemma_ret(text, i0, s0, e + 2, exec_range(last, 0, 2, v));
        } else {
            let w = run_decompose(text, i0, s0, i0 + 24, v, "mul_da"@, T0, T2, S5, S6, A2);
            let z = run_decompose(text, i0, s0, i0 + 36, w, "mul_db"@, T1, T3, S7, S8, A2);
            let p = run_is_inf(text, i0, s0, i0 + 48, z, T0, S9, A2, A3);
            let q = run_is_inf(text, i0, s0, i0 + 56, p, T1, A4, A2, A3);
            lemma_flags(exp_of(x) == 0, mant_of(x) == 0);
            lemma_flags(exp_of(y) == 0, mant_of(y) == 0);
            lemma_block(text, i0, s0, d, zeros, 0, 6, q);
            let t = exec_range(zeros, 0, 6, q);
            run_mul_special(text, i0, i0, s0, t, x, y);
        }
    }
}

/// From the point where both values are known to be no NaN.
proof fn run_mul_special(text: Seq<Asm>, b: int, i0: int, s0: Regs, s: Regs, x: u32, y: u32)
    requires
        mul_at(text, b),
        reaches(text, i0, s0, b + 70, s),
        operands(s, x, y),
        !is_nan(x) && !is_nan(y),
    ensures
        gives(text, i0, s0, mul_value(x, y)),
{
    let lines = mul_special_asm();
    let last = mul_returns_asm();
    let c = b + 70;
    let e = b + 133;
    lemma_flags(is_inf(x), is_zero(y));
    lemma_flags(is_inf(y), is_zero(x));
    lemma_flags(is_inf(x), is_inf(y));
    lemma_flags(is_zero(x), is_zero(y));
    lemma_pack(0, 0, 0x80_0000);
    reveal_with_fuel(exec_range, 5);
    reveal_with_fuel(range_computes, 5);
    assert(text[c + 1] == lines[1] && text[c + 3] == lines[3] && text[c + 5] == lines[5]
        && text[c + 7] == lines[7] && text[e + 0] == last[0] && text[e + 2] == last[2]
        && text[e + 3] == last[3] && text[e + 7] == last[7] && text[e + 8] == last[8]
        && text[e + 10] == last[10]) by {
        reveal(stands);
    }
    lemma_block(text, i0, s0, c, lines, 0, 1, s);
    let u = exec_range(lines, 0, 1, s);
    lemma_branch(text, i0, s0, c + 1, u, e);
    if is_inf(x) && is_zero(y) {
        lemma_block(text, i0, s0, e, last, 0, 2, u);
        lemma_ret(text, i0, s0, e + 2, exec_range(last, 0, 2, u));
    } else {
        lemma_block(text, i0, s0, c, lines, 2, 3, u);
        let v = exec_range(lines, 2, 3, u);
        lemma_branch(text, i0, s0, c + 3, v, e);
        if is_inf(y) && is_zero(x) {
            lemma_block(text, i0, s0, e, last, 0, 2, v);
            lemma_ret(text, i0, s0, e + 2, exec_range(last, 0, 2, v));
        } else {
            lemma_block(text, i0, s0, c, lines, 4, 5, v);
            let w = exec_range(lines, 4, 5, v);
            lemma_branch(text, i0, s0, c + 5, w, e + 3);
            if is_inf(x) || is_inf(y) {
                lemma_block(text, i0, s0, e, last, 3, 7, w);
                lemma_ret(text, i0, s0, e + 7, exec_range(last, 3, 7, w));
            } else {
                lemma_block(text, i0, s0, c, lines, 6, 7, w);
                let z = exec_range(lines, 6, 7, w);
                lemma_branch(text, i0, s0, c + 7, z, e + 8);
                if is_zero(x) || is_zero(y) {
                    lemma_block(text, i0, s0, e, last, 8, 10, z);
                    lemma_ret(text, i0, s0, e + 10, exec_range(last, 8, 10, z));
                } else {
                    run_mul_product(text, b, i0, s0, z, x, y);
                }
            }
        }
    }
}

/// One more digit of a quotient in base 256.
proof fn lemma_digit(n: nat, q: u32, r: u32, den: u32)
    requires
        n == q * den + r,
        r < den < 0x100_0000,
        n < 0x1_0000_0000_0000,
        den >= 0x80_0000,
        q < 0x20_0000,
    ensures
        r << 8 == r * 256,
        (r << 8) / den < 256,
        (q << 8) | ((r << 8) / den) == q * 256 + (r << 8) / den,
        n * 256 == ((q << 8) | ((r << 8) / den)) * den + (r << 8) % den,
        (r << 8) % den < den,
{
    assert(r < 0x100_0000 ==> r << 8 == r * 256) by (bit_vector);
    let x = r * 256;
    let d = x / den as int;
    lemma_fundamental_div_mod(x, den as int);
    assert(d < 256) by (nonlinear_arith)
        requires
            x == den * d + x % (den as int),
            0 <= x % (den as int),
            x < 256 * den,
    ;
    let e = d as u32;
    assert(q < 0x20_0000 && e < 256 ==> (q << 8) | e == q * 256 + e) by (bit_vector);
    assert((q * den + r) * 256 == (q * 256 + d) * den + (x - den * d)) by (nonlinear_arith)
        requires
            x == r * 256,
    ;
}

/// How large a quotient can be.
proof fn lemma_quotient_bound(n: nat, q: u32, r: u32, den: u32, bound: nat)
    requires
        n == q * den + r,
        n < 0x80_0000 * bound,
        den >= 0x80_0000,
    ensures
        q < bound,
{
    assert(q < bound) by (nonlinear_arith)
        requires
            q * den + r < 0x80_0000 * bound,
            den >= 0x80_0000,
            r >= 0,
            q >= 0,
    ;
}

/// The quotient of the significands: `t6` becomes it, to 24 fractional bits.
proof fn run_div_quotient(text: Seq<Asm>, b: int, i0: int, s0: Regs, s: Regs) -> (t: Regs)
    requires
        div_at(text, b),
        reaches(text, i0, s0, b + 78, s),
        0x80_0000 <= get(s, S6) < 0x100_0000,
        0x80_0000 <= get(s, S8) < 0x100_0000,
    ensures
        reaches(text, i0, s0, b + 96, t),
        get(t, T6) == get(s, S6) * 0x100_0000 / get(s, S8) as int,
        get(t, T6) > 0,
        same_but(s, t, set![T4, T5, T6, A2]),
{
    let lines = div_quotient_asm();
    let c = b + 78;
    let n = get(s, S6) as nat;
    let den = get(s, S8);
    reveal_with_fuel(exec_range, 6);
    reveal_with_fuel(range_computes, 6);
    lemma_block(text, i0, s0, c, lines, 0, 3, s);
    let u = exec_range(lines, 0, 3, s);
    lemma_fundamental_div_mod(n as int, den as int);
    assert(n == get(u, T6) * den + get(u, T5)) by (nonlinear_arith)
        requires
            n == den * (n as int / den as int) + n as int % den as int,
            get(u, T6) == n as int / den as int,
            get(u, T5) == n as int % den as int,
    ;
    lemma_quotient_bound(n, get(u, T6), get(u, T5), den, 2);
    lemma_digit(n, get(u, T6), get(u, T5), den);
    lemma_block(text, i0, s0, c, lines, 3, 8, u);
    let v = exec_range(lines, 3, 8, u);
    lemma_quotient_bound(n * 256, get(v, T6), get(v, T5), den, 512);
    lemma_digit(n * 256, get(v, T6), get(v, T5), den);
    lemma_block(text, i0, s0, c, lines, 8, 13, v);
    let w = exec_range(lines, 8, 13, v);
    lemma_quotient_bound(n * 256 * 256, get(w, T6), get(w, T5), den, 0x2_0000);
    lemma_digit(n * 256 * 256, get(w, T6), get(w, T5), den);
    lemma_block(text, i0, s0, c, lines, 13, 18, w);
    let t = exec_range(lines, 13, 18, w);
    let q = get(t, T6) as int;
    let r = get(t, T5) as int;
    let m = n as int * 0x100_0000;
    assert(m == q * den + r);
    lemma_fundamental_div_mod_converse(m, den as int, q, r);
    assert(q > 0) by (nonlinear_arith)
        requires
            m == q * den + r,
            m >= 0x80_0000 * 0x100_0000,
            r < den,
            den < 0x100_0000,
    ;
    t
}

/// From the point where both values are known to be finite and no zero.
proof fn run_div_finite(text: Seq<Asm>, b: int, i0: int, s0: Regs, s: Regs, x: u32, y: u32)
    requires
        div_at(text, b),
        reaches(text, i0, s0, b + 78, s),
        operands(s, x, y),
        !is_nan(x) && !is_nan(y) && !is_inf(x) && !is_inf(y) && !is_zero(x) && !is_zero(y),
    ensures
        gives(text, i0, s0, div_value(x, y)),
{
    let lines = div_exponent_asm();
    let last = div_end_asm();
    let c = b + 96;
    let d = b + 144;
    let g = product_sign(x, y);
    lemma_fields_by_shifts(x);
    lemma_fields_by_shifts(y);
    lemma_product_sign(x, y);
    reveal_with_fuel(exec_range, 4);
    reveal_with_fuel(range_computes, 4);
    assert(text[d + 2] == last[2] && text[d + 4] == last[4] && text[d + 5] == last[5]) by {
        reveal(stands);
    }
    let t = run_div_quotient(text, b, i0, s0, s);
    let m = get(t, T6) as nat;
    let e = exp_of(x) - exp_of(y) - 24;
    assert(div_value(x, y) == round(g, m, e));
    lemma_block(text, i0, s0, c, lines, 0, 3, t);
    let u = exec_range(lines, 0, 3, t);
    assert(signed(get(u, A7)) - 23 == e && pair(get(u, T6), get(u, T2)) == m);
    let v = run_norm(text, i0, s0, b + 99, u, "div_np"@, S2, T6, T2, A7, A0, A2, A3, S5, S6);
    assert(get(v, A0) == round(g, m, e));
    lemma_round_zero(g, m, e);
    lemma_block(text, i0, s0, d, last, 0, 2, v);
    let w = exec_range(last, 0, 2, v);
    lemma_branch(text, i0, s0, d + 2, w, d + 4);
    if get(w, S7) != 0 {
        lemma_block(text, i0, s0, d, last, 4, 5, w);
        lemma_ret(text, i0, s0, d + 5, exec_range(last, 4, 5, w));
    } else {
        lemma_block(text, i0, s0, d, last, 3, 5, w);
        lemma_ret(text, i0, s0, d + 5, exec_range(last, 3, 5, w));
    }
}

/// From the point where both values are known to be no NaN.
proof fn run_div_special(text: Seq<Asm>, b: int, i0: int, s0: Regs, s: Regs, x: u32, y: u32)
    requires
        div_at(text, b),
        reaches(text, i0, s0, b + 70, s),
        operands(s, x, y),
        !is_nan(x) && !is_nan(y),
    ensures
        gives(text, i0, s0, div_value(x, y)),
{
    let lines = div_special_asm();
    let last = div_returns_asm();
    let c = b + 70;
    let e = b + 150;
    lemma_flags(is_inf(x), is_inf(y));
    lemma_flags(is_zero(x), is_zero(y));
    lemma_pack(0, 0, 0x80_0000);
    reveal_with_fuel(exec_range, 5);
    reveal_with_fuel(range_computes, 5);
    assert(text[c + 1] == lines[1] && text[c + 3] == lines[3] && text[c + 4] == lines[4]
        && text[c + 5] == lines[5] && text[c + 6] == lines[6] && text[c + 7] == lines[7]
        && text[e + 0] == last[0] && text[e + 2] == last[2] && text[e + 3] == last[3]
        && text[e + 5] == last[5] && text[e + 6] == last[6] && text[e + 10] == last[10]) by {
        reveal(stands);
    }
    lemma_block(text, i0, s0, c, lines, 0, 1, s);
    let u = exec_range(lines, 0, 1, s);
    lemma_branch(text, i0, s0, c + 1, u, e);
    if is_inf(x) && is_inf(y) {
        lemma_block(text, i0, s0, e, last, 0, 2, u);
        lemma_ret(text, i0, s0, e + 2, exec_range(last, 0, 2, u));
    } else {
        lemma_block(text, i0, s0, c, lines, 2, 3, u);
        let v = exec_range(lines, 2, 3, u);
        lemma_branch(text, i0, s0, c + 3, v, e);
        if is_zero(x) && is_zero(y) {
            lemma_block(text, i0, s0, e, last, 0, 2, v);
            lemma_ret(text, i0, s0, e + 2, exec_range(last, 0, 2, v));
        } else {
            lemma_branch(text, i0, s0, c + 4, v, e + 6);
            if is_inf(x) {
                lemma_block(text, i0, s0, e, last, 6, 10, v);
                lemma_ret(text, i0, s0, e + 10, exec_range(last, 6, 10, v));
            } else {
                lemma_branch(text, i0, s0, c + 5, v, e + 3);
                if is_zero(x) {
                    lemma_block(text, i0, s0, e, last, 3, 5, v);
                    lemma_ret(text, i0, s0, e + 5, exec_range(last, 3, 5, v));
                } else {
                    lemma_branch(text, i0, s0, c + 6, v, e + 3);
                    if is_inf(y) {
                        lemma_block(text, i0, s0, e, last, 3, 5, v);
                        lemma_ret(text, i0, s0, e + 5, exec_range(last, 3, 5, v));
                    } else {
                        lemma_branch(text, i0, s0, c + 7, v, e + 6);
                        if is_zero(y) {
                            lemma_block(text, i0, s0, e, last, 6, 10, v);
                            lemma_ret(text, i0, s0, e + 10, exec_range(last, 6, 10, v));
                        } else {
                            run_div_finite(text, b, i0, s0, v, x, y);
                        }
                    }
                }
            }
        }
    }
}

/// `__sf_f32_div` returns the quotient of the patterns in `a0` and `a1`.
#[verifier::rlimit(30)]
pub proof fn law_f32_div(text: Seq<Asm>, i0: int, s0: Regs)
    requires
        unique_labels(text),
        stands(text, i0, f32_div_asm()),
    ensures
        gives(text, i0, s0, div_value(get(s0, A0), get(s0, A1))),
{
    lemma_div_at(text, i0);
    let x = get(s0, A0);
    let y = get(s0, A1);
    let start = div_start_asm();
    let nan_a = div_nan_a_asm();
    let nan_b = div_nan_b_asm();
    let zeros = div_zeros_asm();
    let last = div_returns_asm();
    let b = i0 + 14;
    let c = i0 + 23;
    let d = i0 + 64;
    let e = i0 + 150;
    lemma_fields_by_shifts(x);
    lemma_fields_by_shifts(y);
    reveal_with_fuel(exec_range, 7);
    reveal_with_fuel(range_computes, 7);
    assert(text[b + 0] == nan_a[0] && text[c + 0] == nan_b[0] && text[e + 0] == last[0]
        && text[e + 2] == last[2]) by {
        reveal(stands);
    }
    lemma_here(text, i0, s0);
    lemma_block(text, i0, s0, i0, start, 0, 6, s0);
    let r = exec_range(start, 0, 6, s0);
    let u = run_is_nan(text, i0, s0, i0 + 6, r, T0, S4, A2, A3);
    lemma_branch(text, i0, s0, b, u, e);
    if is_nan(x) {
        lemma_block(text, i0, s0, e, last, 0, 2, u);
        lemma_ret(text, i0, s0, e + 2, exec_range(last, 0, 2, u));
    } else {
        let v = run_is_nan(text, i0, s0, i0 + 15, u, T1, S4, A2, A3);
        lemma_branch(text, i0, s0, c, v, e);
        if is_nan(y) {
            lemma_block(text, i0, s0, e, last, 0, 2, v);
            lemma_ret(text, i0, s0, e + 2, exec_range(last, 0, 2, v));
        } else {
            let w = run_decompose(text, i0, s0, i0 + 24, v, "div_da"@, T0, T2, S5, S6, A2);
            let z = run_decompose(text, i0, s0, i0 + 36, w, "div_db"@, T1, T3, S7, S8, A2);
            let p = run_is_inf(text, i0, s0, i0 + 48, z, T0, S9, A2, A3);
            let q = run_is_inf(text, i0, s0, i0 + 56, p, T1, A4, A2, A3);
            lemma_flags(exp_of(x) == 0, mant_of(x) == 0);
            lemma_flags(exp_of(y) == 0, mant_of(y) == 0);
            lemma_block(text, i0, s0, d, zeros, 0, 6, q);
            let t = exec_range(zeros, 0, 6, q);
            run_div_special(text, i0, i0, s0, t, x, y);
        }
    }
}

// ---- addition ------------------------------------------------------------------------------

/// The state of `__sf_f32_add` once the operands are apart.
spec fn summands(s: Regs, x: u32, y: u32) -> bool {
    &&& get(s, T0) == x
    &&& get(s, T1) == y
    &&& get(s, S4) == sign_of(x)
    &&& get(s, S5) == exp_of(x)
    &&& get(s, S6) == mant_of(x)
    &&& get(s, S7) == sign_of(y)
    &&& get(s, S8) == exp_of(y)
    &&& get(s, S9) == mant_of(y)
}

/// The state of `__sf_f32_add` once the bigger operand `x` is told from the other.
spec fn picked(s: Regs, x: u32, y: u32) -> bool {
    &&& get(s, S2) == sign_of(x)
    &&& get(s, S3) == exp_of(x)
    &&& get(s, A4) == mant_of(x)
    &&& get(s, A5) == sign_of(y)
    &&& get(s, A6) == exp_of(y)
    &&& get(s, A7) == mant_of(y)
}

/// Whether both patterns are finite and no zero.
spec fn both_finite(x: u32, y: u32) -> bool {
    !is_nan(x) && !is_nan(y) && !is_inf(x) && !is_inf(y) && !is_zero(x) && !is_zero(y)
}

/// Whether `sw` may stand for the significand of `y` in the window below that of `x`.
spec fn aligned(x: u32, y: u32, sw: u32) -> bool {
    &&& exp_of(x) - exp_of(y) <= 24 ==> sw == mant_of(y)
    &&& exp_of(x) - exp_of(y) > 24 ==> 0 < sw <= 0x7F_FFFF
}

proof fn lemma_drop_bit(x: u32, y: u32)
    ensures
        x >> 1 == x / 2,
        x & 1 <= 1,
        y <= 1 ==> (y | (x & 1)) <= 1,
        x > 0 || y > 0 ==> x >> 1 > 0 || (y | (x & 1)) > 0,
        x <= 0x7F_FFFF && y <= 1 ==> (x | y) <= 0x7F_FFFF,
        (x | y) == 0 <==> x == 0 && y == 0,
{
    assert(x >> 1 == x / 2 && x & 1 <= 1 && (y <= 1 ==> (y | (x & 1)) <= 1) && (x > 0 || y > 0 ==> x
        >> 1 > 0 || (y | (x & 1)) > 0) && (x <= 0x7F_FFFF && y <= 1 ==> (x | y) <= 0x7F_FFFF) && ((x
        | y) == 0 <==> x == 0 && y == 0)) by (bit_vector);
}

/// The loop that drops bits of the small significand into the sticky bit.
proof fn run_add_sticky(text: Seq<Asm>, b: int, i0: int, s0: Regs, s: Regs) -> (t: Regs)
    requires
        add_at(text, b),
        reaches(text, i0, s0, b + 122, s),
        get(s, S6) > 0 || get(s, S7) > 0,
        get(s, S7) <= 1,
        get(s, S6) < 0x100_0000,
        get(s, S8) == 0 ==> get(s, S6) <= 0x7F_FFFF,
    ensures
        reaches(text, i0, s0, b + 134, t),
        0 < get(t, S6) <= 0x7F_FFFF,
        same_but(s, t, set![S6, S7, S8, T2]),
    decreases get(s, S8),
{
    let lines = add_align_asm();
    let c = b + 104;
    lemma_drop_bit(get(s, S6), get(s, S7));
    reveal_with_fuel(exec_range, 5);
    reveal_with_fuel(range_computes, 5);
    assert(text[c + 18] == lines[18] && text[c + 19] == lines[19] && text[c + 24] == lines[24]
        && text[c + 25] == lines[25] && text[c + 27] == lines[27] && text[c + 30] == lines[30]) by {
        reveal(stands);
    }
    lemma_block(text, i0, s0, c, lines, 18, 19, s);
    lemma_branch(text, i0, s0, c + 19, s, c + 25);
    if get(s, S8) == 0 {
        lemma_block(text, i0, s0, c, lines, 25, 27, s);
        let u = exec_range(lines, 25, 27, s);
        lemma_jump(text, i0, s0, c + 27, u, c + 30);
        u
    } else {
        lemma_block(text, i0, s0, c, lines, 20, 24, s);
        let u = exec_range(lines, 20, 24, s);
        lemma_jump(text, i0, s0, c + 24, u, c + 18);
        run_add_sticky(text, b, i0, s0, u)
    }
}

/// The alignment of the small significand: `s6` becomes what stands for it in the window, whose
/// width is in `s5`.
proof fn run_add_align(text: Seq<Asm>, b: int, i0: int, s0: Regs, s: Regs, x: u32, y: u32) -> (t:
    Regs)
    requires
        add_at(text, b),
        reaches(text, i0, s0, b + 104, s),
        picked(s, x, y),
        both_finite(x, y),
        is_bigger(x, y),
    ensures
        reaches(text, i0, s0, b + 135, t),
        picked(t, x, y),
        get(t, S5) == window(x, y),
        aligned(x, y, get(t, S6)),
{
    let lines = add_align_asm();
    let c = b + 104;
    let diff = exp_of(x) - exp_of(y);
    lemma_fields_by_shifts(x);
    lemma_fields_by_shifts(y);
    reveal_with_fuel(exec_range, 4);
    reveal_with_fuel(range_computes, 4);
    assert(text[c + 2] == lines[2] && text[c + 4] == lines[4] && text[c + 5] == lines[5]
        && text[c + 7] == lines[7] && text[c + 9] == lines[9] && text[c + 11] == lines[11]
        && text[c + 12] == lines[12] && text[c + 15] == lines[15] && text[c + 18] == lines[18]
        && text[c + 28] == lines[28] && text[c + 30] == lines[30]) by {
        reveal(stands);
    }
    lemma_block(text, i0, s0, c, lines, 0, 2, s);
    let u = exec_range(lines, 0, 2, s);
    assert(get(u, S4) == diff);
    lemma_branch(text, i0, s0, c + 2, u, c + 5);
    let v = if diff < 24 {
        lemma_block(text, i0, s0, c, lines, 5, 7, u);
        let v = exec_range(lines, 5, 7, u);
        v
    } else {
        lemma_block(text, i0, s0, c, lines, 3, 4, u);
        let v = exec_range(lines, 3, 4, u);
        lemma_jump(text, i0, s0, c + 4, v, c + 7);
        v
    };
    lemma_block(text, i0, s0, c, lines, 7, 9, v);
    let w = exec_range(lines, 7, 9, v);
    lemma_branch(text, i0, s0, c + 9, w, c + 12);
    let t = if diff <= 24 {
        lemma_block(text, i0, s0, c, lines, 10, 11, w);
        let p = exec_range(lines, 10, 11, w);
        lemma_jump(text, i0, s0, c + 11, p, c + 30);
        p
    } else {
        lemma_block(text, i0, s0, c, lines, 12, 15, w);
        let p = exec_range(lines, 12, 15, w);
        assert(get(p, S8) == diff - 24);
        lemma_branch(text, i0, s0, c + 15, p, c + 28);
        if diff - 24 >= 24 {
            lemma_block(text, i0, s0, c, lines, 28, 30, p);
            let q = exec_range(lines, 28, 30, p);
            q
        } else {
            lemma_block(text, i0, s0, c, lines, 16, 18, p);
            let q = exec_range(lines, 16, 18, p);
            run_add_sticky(text, b, i0, s0, q)
        }
    };
    lemma_block(text, i0, s0, c, lines, 30, 31, t);
    t
}

/// The loop that widens the big significand by the window.
proof fn run_add_widen(
    text: Seq<Asm>,
    b: int,
    i0: int,
    s0: Regs,
    s: Regs,
    m: nat,
    k: nat,
    n: nat,
) -> (t: Regs)
    requires
        add_at(text, b),
        reaches(text, i0, s0, b + 137, s),
        m < 0x100_0000,
        n <= k <= 24,
        get(s, S8) == n,
        pair(get(s, A4), get(s, S9)) == m * pow2((k - n) as nat),
    ensures
        reaches(text, i0, s0, b + 146, t),
        pair(get(t, A4), get(t, S9)) == m * pow2(k),
        same_but(s, t, set![A4, S8, S9, T2]),
    decreases n,
{
    let head = add_shift_loop_asm();
    let shl = shl64_asm(A4, S9, T2);
    let tail = add_shift_end_asm();
    let c = b + 135;
    let d = b + 139;
    let e = b + 143;
    let lo = get(s, A4);
    let hi = get(s, S9);
    reveal_with_fuel(exec_range, 5);
    reveal_with_fuel(range_computes, 5);
    assert(text[c + 2] == head[2] && text[c + 3] == head[3] && text[e + 1] == tail[1]
        && text[e + 2] == tail[2]) by {
        reveal(stands);
    }
    lemma_block(text, i0, s0, c, head, 2, 3, s);
    lemma_branch(text, i0, s0, c + 3, s, e + 2);
    if n == 0 {
        lemma_block(text, i0, s0, e, tail, 2, 3, s);
        s
    } else {
        let j = (k - n) as nat;
        let p = pow2(j) as int;
        lemma2_to64();
        lemma_pow2_adds(j, 1);
        lemma_pow2_le(j, 24);
        assert(m * p < 0x100_0000 * 0x100_0000) by (nonlinear_arith)
            requires
                m < 0x100_0000,
                0 < p <= 0x100_0000,
        ;
        assert(m * (p * 2) == 2 * (m * p)) by (nonlinear_arith);
        lemma_shl64(lo, hi);
        lemma_block(text, i0, s0, d, shl, 0, 4, s);
        let u = exec_range(shl, 0, 4, s);
        lemma_block(text, i0, s0, e, tail, 0, 1, u);
        let v = exec_range(tail, 0, 1, u);
        lemma_jump(text, i0, s0, e + 1, v, c + 2);
        run_add_widen(text, b, i0, s0, v, m, k, (n - 1) as nat)
    }
}

/// From the point where the bigger operand `x` is told from the other.
proof fn run_add_picked(text: Seq<Asm>, b: int, i0: int, s0: Regs, s: Regs, x: u32, y: u32, v: u32)
    requires
        add_at(text, b),
        reaches(text, i0, s0, b + 104, s),
        picked(s, x, y),
        both_finite(x, y),
        is_bigger(x, y),
        v == add_value(x, y) || v == add_value(y, x),
    ensures
        gives(text, i0, s0, v),
{
    let head = add_shift_loop_asm();
    let tail = add_shift_end_asm();
    let c = b + 135;
    let e = b + 143;
    let k = window(x, y);
    let m = mant_of(x);
    lemma_fields_by_shifts(x);
    lemma_fields_by_shifts(y);
    lemma2_to64();
    reveal_with_fuel(exec_range, 4);
    reveal_with_fuel(range_computes, 4);
    let p = run_add_align(text, b, i0, s0, s, x, y);
    lemma_block(text, i0, s0, c, head, 0, 2, p);
    let q = exec_range(head, 0, 2, p);
    assert(m * pow2(0) == m);
    let r = run_add_widen(text, b, i0, s0, q, m, k, k);
    lemma_block(text, i0, s0, e, tail, 3, 6, r);
    let t = exec_range(tail, 3, 6, r);
    assert(signed(get(t, T3)) == exp_of(x) - 127 - k);
    lemma_sum_in_window(x, y, get(t, S6) as nat);
    if sign_of(x) == sign_of(y) {
        run_add_sum(text, b, i0, s0, t, x, y, v);
    } else {
        run_add_difference(text, b, i0, s0, t, x, y, v);
    }
}

/// What is computed when both significands are in the window.
spec fn in_window(s: Regs, x: u32, y: u32) -> bool {
    &&& get(s, S2) == sign_of(x)
    &&& get(s, A5) == sign_of(y)
    &&& signed(get(s, T3)) == exp_of(x) - 127 - window(x, y)
    &&& pair(get(s, A4), get(s, S9)) == mant_of(x) * pow2(window(x, y))
    &&& aligned(x, y, get(s, S6))
}

proof fn run_add_sum(text: Seq<Asm>, b: int, i0: int, s0: Regs, s: Regs, x: u32, y: u32, v: u32)
    requires
        add_at(text, b),
        reaches(text, i0, s0, b + 149, s),
        both_finite(x, y),
        is_bigger(x, y),
        in_window(s, x, y),
        sign_of(x) == sign_of(y),
        v == add_value(x, y) || v == add_value(y, x),
    ensures
        gives(text, i0, s0, v),
{
    let lines = add_sum_asm();
    let last = add_sum_ret_asm();
    let diff = add_diff_asm();
    let c = b + 149;
    let d = b + 198;
    let e = b + 199;
    lemma_fields_by_shifts(x);
    lemma_fields_by_shifts(y);
    lemma_sum_in_window(x, y, get(s, S6) as nat);
    let m = pair(get(s, A4), get(s, S9)) + get(s, S6);
    reveal_with_fuel(exec_range, 4);
    reveal_with_fuel(range_computes, 4);
    assert(text[c + 0] == lines[0] && text[d + 0] == last[0] && text[e + 0] == diff[0]) by {
        reveal(stands);
    }
    lemma_branch(text, i0, s0, c, s, e);
    lemma_block(text, i0, s0, c, lines, 1, 4, s);
    let u = exec_range(lines, 1, 4, s);
    assert(pair(get(u, T4), get(u, T6)) == m);
    let w = run_norm(text, i0, s0, b + 153, u, "add_sum"@, S2, T4, T6, T3, A0, A2, A3, T2, T5);
    lemma_ret(text, i0, s0, d, w);
}

proof fn run_add_difference(
    text: Seq<Asm>,
    b: int,
    i0: int,
    s0: Regs,
    s: Regs,
    x: u32,
    y: u32,
    v: u32,
)
    requires
        add_at(text, b),
        reaches(text, i0, s0, b + 149, s),
        both_finite(x, y),
        is_bigger(x, y),
        in_window(s, x, y),
        sign_of(x) != sign_of(y),
        v == add_value(x, y) || v == add_value(y, x),
    ensures
        gives(text, i0, s0, v),
{
    let lines = add_sum_asm();
    let diff = add_diff_asm();
    let last = add_diff_ret_asm();
    let c = b + 149;
    let d = b + 199;
    let e = b + 253;
    lemma_fields_by_shifts(x);
    lemma_fields_by_shifts(y);
    lemma_sum_in_window(x, y, get(s, S6) as nat);
    let m = pair(get(s, A4), get(s, S9)) - get(s, S6);
    reveal_with_fuel(exec_range, 6);
    reveal_with_fuel(range_computes, 6);
    assert(text[c + 0] == lines[0] && text[d + 0] == diff[0] && text[d + 5] == diff[5]
        && text[d + 7] == diff[7] && text[d + 8] == diff[8] && text[e + 0] == last[0]) by {
        reveal(stands);
    }
    lemma_branch(text, i0, s0, c, s, d);
    lemma_block(text, i0, s0, d, diff, 0, 5, s);
    let u = exec_range(diff, 0, 5, s);
    assert(pair(get(u, T4), get(u, T6)) == m);
    lemma_drop_bit(get(u, T4), get(u, T6));
    lemma_branch(text, i0, s0, d + 5, u, d + 8);
    if m == 0 {
        lemma_block(text, i0, s0, d, diff, 6, 7, u);
        lemma_ret(text, i0, s0, d + 7, exec_range(diff, 6, 7, u));
    } else {
        lemma_block(text, i0, s0, d, diff, 8, 9, u);
        let w = run_norm(text, i0, s0, b + 208, u, "add_diff"@, S2, T4, T6, T3, A0, A2, A3, T2, T5);
        lemma_ret(text, i0, s0, e, w);
    }
}

/// From the point where both values are known to be finite and no zero.
proof fn run_add_pick(text: Seq<Asm>, b: int, i0: int, s0: Regs, s: Regs, x: u32, y: u32)
    requires
        add_at(text, b),
        reaches(text, i0, s0, b + 82, s),
        summands(s, x, y),
        both_finite(x, y),
    ensures
        gives(text, i0, s0, add_value(x, y)),
{
    let lines = add_pick_asm();
    let c = b + 82;
    reveal_with_fuel(exec_range, 9);
    reveal_with_fuel(range_computes, 9);
    assert(text[c + 1] == lines[1] && text[c + 2] == lines[2] && text[c + 4] == lines[4]
        && text[c + 5] == lines[5] && text[c + 6] == lines[6] && text[c + 13] == lines[13]
        && text[c + 14] == lines[14] && text[c + 21] == lines[21]) by {
        reveal(stands);
    }
    lemma_block(text, i0, s0, c, lines, 0, 1, s);
    let u = exec_range(lines, 0, 1, s);
    lemma_branch(text, i0, s0, c + 1, u, c + 14);
    if exp_of(y) < exp_of(x) {
        lemma_block(text, i0, s0, c, lines, 14, 22, u);
        let v = exec_range(lines, 14, 22, u);
        run_add_picked(text, b, i0, s0, v, x, y, add_value(x, y));
    } else {
        lemma_branch(text, i0, s0, c + 2, u, c + 6);
        if exp_of(x) != exp_of(y) {
            lemma_block(text, i0, s0, c, lines, 6, 13, u);
            let v = exec_range(lines, 6, 13, u);
            lemma_jump(text, i0, s0, c + 13, v, c + 21);
            lemma_block(text, i0, s0, c, lines, 21, 22, v);
            run_add_picked(text, b, i0, s0, v, y, x, add_value(x, y));
        } else {
            lemma_block(text, i0, s0, c, lines, 3, 4, u);
            let w = exec_range(lines, 3, 4, u);
            lemma_branch(text, i0, s0, c + 4, w, c + 6);
            if mant_of(x) < mant_of(y) {
                lemma_block(text, i0, s0, c, lines, 6, 13, w);
                let v = exec_range(lines, 6, 13, w);
                lemma_jump(text, i0, s0, c + 13, v, c + 21);
                lemma_block(text, i0, s0, c, lines, 21, 22, v);
                run_add_picked(text, b, i0, s0, v, y, x, add_value(x, y));
            } else {
                lemma_jump(text, i0, s0, c + 5, w, c + 14);
                lemma_block(text, i0, s0, c, lines, 14, 22, w);
                let v = exec_range(lines, 14, 22, w);
                run_add_picked(text, b, i0, s0, v, x, y, add_value(x, y));
            }
        }
    }
}

/// From the point where both values are known to be no NaN.
proof fn run_add_special(text: Seq<Asm>, b: int, i0: int, s0: Regs, s: Regs, x: u32, y: u32)
    requires
        add_at(text, b),
        reaches(text, i0, s0, b + 61, s),
        summands(s, x, y),
        !is_nan(x) && !is_nan(y),
        get(s, A4) == flag(is_inf(x)) && get(s, A5) == flag(is_inf(y)),
    ensures
        gives(text, i0, s0, add_value(x, y)),
{
    let lines = add_special_asm();
    let last = add_returns_asm();
    let c = b + 61;
    let d = b + 254;
    reveal_with_fuel(exec_range, 3);
    reveal_with_fuel(range_computes, 3);
    assert(text[c + 0] == lines[0] && text[c + 1] == lines[1] && text[c + 2] == lines[2]
        && text[c + 3] == lines[3] && text[c + 4] == lines[4] && text[c + 5] == lines[5]
        && text[c + 6] == lines[6] && text[d + 0] == last[0] && text[d + 2] == last[2]
        && text[d + 3] == last[3] && text[d + 5] == last[5] && text[d + 6] == last[6]
        && text[d + 8] == last[8]) by {
        reveal(stands);
    }
    lemma_branch(text, i0, s0, c, s, c + 4);
    if is_inf(x) && is_inf(y) {
        lemma_branch(text, i0, s0, c + 1, s, c + 4);
        lemma_branch(text, i0, s0, c + 2, s, d);
        if sign_of(x) != sign_of(y) {
            lemma_block(text, i0, s0, d, last, 0, 2, s);
            lemma_ret(text, i0, s0, d + 2, exec_range(last, 0, 2, s));
        } else {
            lemma_jump(text, i0, s0, c + 3, s, d + 3);
            lemma_block(text, i0, s0, d, last, 3, 5, s);
            lemma_ret(text, i0, s0, d + 5, exec_range(last, 3, 5, s));
        }
    } else {
        if is_inf(x) {
            lemma_branch(text, i0, s0, c + 1, s, c + 4);
        }
        lemma_block(text, i0, s0, c, lines, 4, 5, s);
        lemma_branch(text, i0, s0, c + 5, s, d + 3);
        if is_inf(x) {
            lemma_block(text, i0, s0, d, last, 3, 5, s);
            lemma_ret(text, i0, s0, d + 5, exec_range(last, 3, 5, s));
        } else {
            lemma_branch(text, i0, s0, c + 6, s, d + 6);
            if is_inf(y) {
                lemma_block(text, i0, s0, d, last, 6, 8, s);
                lemma_ret(text, i0, s0, d + 8, exec_range(last, 6, 8, s));
            } else {
                run_add_zeros(text, b, i0, s0, s, x, y);
            }
        }
    }
}

/// From the point where both values are known to be finite.
proof fn run_add_zeros(text: Seq<Asm>, b: int, i0: int, s0: Regs, s: Regs, x: u32, y: u32)
    requires
        add_at(text, b),
        reaches(text, i0, s0, b + 68, s),
        summands(s, x, y),
        !is_nan(x) && !is_nan(y) && !is_inf(x) && !is_inf(y),
    ensures
        gives(text, i0, s0, add_value(x, y)),
{
    let lines = add_special_asm();
    let last = add_returns_asm();
    let c = b + 61;
    let d = b + 254;
    lemma_flags(exp_of(x) == 0, mant_of(x) == 0);
    lemma_flags(exp_of(y) == 0, mant_of(y) == 0);
    reveal_with_fuel(exec_range, 7);
    reveal_with_fuel(range_computes, 7);
    assert(text[c + 13] == lines[13] && text[c + 14] == lines[14] && text[c + 15] == lines[15]
        && text[c + 17] == lines[17] && text[c + 18] == lines[18] && text[c + 19] == lines[19]
        && text[c + 20] == lines[20] && text[d + 3] == last[3] && text[d + 5] == last[5]
        && text[d + 6] == last[6] && text[d + 8] == last[8] && text[d + 9] == last[9]
        && text[d + 11] == last[11]) by {
        reveal(stands);
    }
    lemma_block(text, i0, s0, c, lines, 7, 13, s);
    let u = exec_range(lines, 7, 13, s);
    assert(get(u, A6) == flag(is_zero(x)) && get(u, A7) == flag(is_zero(y)));
    lemma_branch(text, i0, s0, c + 13, u, c + 18);
    if is_zero(x) && is_zero(y) {
        lemma_branch(text, i0, s0, c + 14, u, c + 18);
        lemma_branch(text, i0, s0, c + 15, u, d + 9);
        if sign_of(x) != sign_of(y) {
            lemma_block(text, i0, s0, d, last, 9, 11, u);
            lemma_ret(text, i0, s0, d + 11, exec_range(last, 9, 11, u));
        } else {
            lemma_block(text, i0, s0, c, lines, 16, 17, u);
            lemma_ret(text, i0, s0, c + 17, exec_range(lines, 16, 17, u));
        }
    } else {
        if is_zero(x) {
            lemma_branch(text, i0, s0, c + 14, u, c + 18);
        }
        lemma_block(text, i0, s0, c, lines, 18, 19, u);
        lemma_branch(text, i0, s0, c + 19, u, d + 6);
        if is_zero(x) {
            lemma_block(text, i0, s0, d, last, 6, 8, u);
            lemma_ret(text, i0, s0, d + 8, exec_range(last, 6, 8, u));
        } else {
            lemma_branch(text, i0, s0, c + 20, u, d + 3);
            if is_zero(y) {
                lemma_block(text, i0, s0, d, last, 3, 5, u);
                lemma_ret(text, i0, s0, d + 5, exec_range(last, 3, 5, u));
            } else {
                run_add_pick(text, b, i0, s0, u, x, y);
            }
        }
    }
}

/// `__sf_f32_add` returns the sum of the patterns in `a0` and `a1`.
pub proof fn law_f32_add(text: Seq<Asm>, i0: int, s0: Regs)
    requires
        unique_labels(text),
        stands(text, i0, f32_add_asm()),
    ensures
        gives(text, i0, s0, add_value(get(s0, A0), get(s0, A1))),
{
    lemma_add_at(text, i0);
    let x = get(s0, A0);
    let y = get(s0, A1);
    let start = add_start_asm();
    let nan_a = add_nan_a_asm();
    let nan_b = add_nan_b_asm();
    let last = add_returns_asm();
    let b = i0 + 11;
    let c = i0 + 20;
    let e = i0 + 254;
    reveal_with_fuel(exec_range, 4);
    reveal_with_fuel(range_computes, 4);
    assert(text[b + 0] == nan_a[0] && text[c + 0] == nan_b[0] && text[e + 0] == last[0]
        && text[e + 2] == last[2]) by {
        reveal(stands);
    }
    lemma_here(text, i0, s0);
    lemma_block(text, i0, s0, i0, start, 0, 3, s0);
    let r = exec_range(start, 0, 3, s0);
    let u = run_is_nan(text, i0, s0, i0 + 3, r, T0, S2, A2, A3);
    lemma_branch(text, i0, s0, b, u, e);
    if is_nan(x) {
        lemma_block(text, i0, s0, e, last, 0, 2, u);
        lemma_ret(text, i0, s0, e + 2, exec_range(last, 0, 2, u));
    } else {
        let v = run_is_nan(text, i0, s0, i0 + 12, u, T1, S3, A2, A3);
        lemma_branch(text, i0, s0, c, v, e);
        if is_nan(y) {
            lemma_block(text, i0, s0, e, last, 0, 2, v);
            lemma_ret(text, i0, s0, e + 2, exec_range(last, 0, 2, v));
        } else {
            let w = run_decompose(text, i0, s0, i0 + 21, v, "add_da"@, T0, S4, S5, S6, A2);
            let z = run_decompose(text, i0, s0, i0 + 33, w, "add_db"@, T1, S7, S8, S9, A2);
            let p = run_is_inf(text, i0, s0, i0 + 45, z, T0, A4, A2, A3);
            let q = run_is_inf(text, i0, s0, i0 + 53, p, T1, A5, A2, A3);
            run_add_special(text, i0, i0, s0, q, x, y);
        }
    }
}

/// `__sf_f32_cmp` returns -2 exactly where one of the patterns is a NaN. Elsewhere it returns -1, 0
/// or 1 as the first is less, equal or greater, and with the operands turned round the opposite.
pub proof fn law_f32_cmp_is_an_order(text: Seq<Asm>, i0: int, s: Regs, t: Regs)
    requires
        unique_labels(text),
        stands(text, i0, f32_cmp_asm()),
        get(t, A0) == get(s, A1),
        get(t, A1) == get(s, A0),
    ensures
        ({
            let (x, y) = (get(s, A0), get(s, A1));
            let there = if is_nan(x) || is_nan(y) {
                -2int
            } else if signed_units(x) < signed_units(y) {
                -1
            } else if signed_units(x) == signed_units(y) {
                0
            } else {
                1
            };
            let back = if there == -2 {
                -2
            } else {
                -there
            };
            gives(text, i0, s, word(there)) && gives(text, i0, t, word(back))
        }),
{
    law_f32_cmp(text, i0, s);
    law_f32_cmp(text, i0, t);
}

// ---- the whole runtime ---------------------------------------------------------------------

/// Whether the routine behind a label computes a function of the registers, from every state.
pub open spec fn computes_at(text: Seq<Asm>, name: Seq<char>, value: spec_fn(Regs) -> u32) -> bool {
    &&& line_of(text, name) is Some
    &&& forall|s: Regs| #[trigger] gives(text, line_of(text, name)->0, s, value(s))
}

/// Whether every routine of the runtime is there, and computes what it is for.
pub open spec fn has_runtime(text: Seq<Asm>) -> bool {
    &&& computes_at(text, "__sf_f32_add"@, |s: Regs| add_value(get(s, A0), get(s, A1)))
    &&& computes_at(text, "__sf_f32_mul"@, |s: Regs| mul_value(get(s, A0), get(s, A1)))
    &&& computes_at(text, "__sf_f32_div"@, |s: Regs| div_value(get(s, A0), get(s, A1)))
    &&& computes_at(text, "__sf_f32_cmp"@, |s: Regs| word(order_code(get(s, A0), get(s, A1))))
    &&& computes_at(text, "__sf_i32_to_f32"@, |s: Regs| int_value(signed(get(s, A0))))
    &&& computes_at(text, "__sf_u32_to_f32"@, |s: Regs| unsigned_value(get(s, A0)))
    &&& computes_at(text, "__sf_f32_to_i32"@, |s: Regs| signed_part(get(s, A0)))
    &&& computes_at(text, "__sf_f32_to_u32"@, |s: Regs| unsigned_part(get(s, A0)))
}

/// The pattern of an unsigned integer.
pub open spec fn unsigned_value(x: u32) -> u32 {
    int_value(x as int)
}

/// The word of the signed integer part of a pattern.
pub open spec fn signed_part(x: u32) -> u32 {
    word(saturated(x, i32::MIN as int, i32::MAX as int))
}

/// The unsigned integer part of a pattern.
pub open spec fn unsigned_part(x: u32) -> u32 {
    word(saturated(x, 0, u32::MAX as int))
}

proof fn lemma_add_computes(text: Seq<Asm>, i: int)
    requires
        unique_labels(text),
        stands(text, i, f32_add_asm()),
    ensures
        computes_at(text, "__sf_f32_add"@, |s: Regs| add_value(get(s, A0), get(s, A1))),
{
    lemma_add_at(text, i);
    lemma_entry(text, i, add_start_asm(), "__sf_f32_add"@);
    assert forall|s: Regs| #[trigger] gives(text, i, s, add_value(get(s, A0), get(s, A1))) by {
        law_f32_add(text, i, s);
    }
}

proof fn lemma_mul_computes(text: Seq<Asm>, i: int)
    requires
        unique_labels(text),
        stands(text, i, f32_mul_asm()),
    ensures
        computes_at(text, "__sf_f32_mul"@, |s: Regs| mul_value(get(s, A0), get(s, A1))),
{
    lemma_mul_at(text, i);
    lemma_entry(text, i, mul_start_asm(), "__sf_f32_mul"@);
    assert forall|s: Regs| #[trigger] gives(text, i, s, mul_value(get(s, A0), get(s, A1))) by {
        law_f32_mul(text, i, s);
    }
}

proof fn lemma_div_computes(text: Seq<Asm>, i: int)
    requires
        unique_labels(text),
        stands(text, i, f32_div_asm()),
    ensures
        computes_at(text, "__sf_f32_div"@, |s: Regs| div_value(get(s, A0), get(s, A1))),
{
    lemma_div_at(text, i);
    lemma_entry(text, i, div_start_asm(), "__sf_f32_div"@);
    assert forall|s: Regs| #[trigger] gives(text, i, s, div_value(get(s, A0), get(s, A1))) by {
        law_f32_div(text, i, s);
    }
}

proof fn lemma_cmp_computes(text: Seq<Asm>, i: int)
    requires
        unique_labels(text),
        stands(text, i, f32_cmp_asm()),
    ensures
        computes_at(text, "__sf_f32_cmp"@, |s: Regs| word(order_code(get(s, A0), get(s, A1)))),
{
    lemma_cmp_at(text, i);
    lemma_entry(text, i, cmp_start_asm(), "__sf_f32_cmp"@);
    assert forall|s: Regs| #[trigger] gives(text, i, s, word(order_code(get(s, A0), get(s, A1)))) by {
        law_f32_cmp(text, i, s);
    }
}

proof fn lemma_i2f_computes(text: Seq<Asm>, i: int)
    requires
        unique_labels(text),
        stands(text, i, i32_to_f32_asm()),
    ensures
        computes_at(text, "__sf_i32_to_f32"@, |s: Regs| int_value(signed(get(s, A0)))),
{
    lemma_i2f_at(text, i);
    lemma_entry(text, i, i2f_entry_asm(), "__sf_i32_to_f32"@);
    assert forall|s: Regs| #[trigger] gives(text, i, s, int_value(signed(get(s, A0)))) by {
        law_i32_to_f32(text, i, s);
    }
}

proof fn lemma_u2f_computes(text: Seq<Asm>, i: int)
    requires
        unique_labels(text),
        stands(text, i, u32_to_f32_asm()),
    ensures
        computes_at(text, "__sf_u32_to_f32"@, |s: Regs| unsigned_value(get(s, A0))),
{
    lemma_u2f_at(text, i);
    lemma_entry(text, i, u2f_entry_asm(), "__sf_u32_to_f32"@);
    assert forall|s: Regs| #[trigger] gives(text, i, s, unsigned_value(get(s, A0))) by {
        law_u32_to_f32(text, i, s);
    }
}

proof fn lemma_f2i_computes(text: Seq<Asm>, i: int)
    requires
        unique_labels(text),
        stands(text, i, f32_to_i32_asm()),
    ensures
        computes_at(text, "__sf_f32_to_i32"@, |s: Regs| signed_part(get(s, A0))),
{
    lemma_f2i_at(text, i);
    lemma_entry(text, i, f2i_start_asm(), "__sf_f32_to_i32"@);
    assert forall|s: Regs| #[trigger] gives(text, i, s, signed_part(get(s, A0))) by {
        law_f32_to_i32(text, i, s);
    }
}

proof fn lemma_f2u_computes(text: Seq<Asm>, i: int)
    requires
        unique_labels(text),
        stands(text, i, f32_to_u32_asm()),
    ensures
        computes_at(text, "__sf_f32_to_u32"@, |s: Regs| unsigned_part(get(s, A0))),
{
    lemma_f2u_at(text, i);
    lemma_entry(text, i, f2u_start_asm(), "__sf_f32_to_u32"@);
    assert forall|s: Regs| #[trigger] gives(text, i, s, unsigned_part(get(s, A0))) by {
        law_f32_to_u32(text, i, s);
    }
}

/// Each of eight parts of what stands in a text stands in it.
proof fn lemma_stands_eight(
    text: Seq<Asm>,
    n: int,
    a: Seq<Asm>,
    b: Seq<Asm>,
    c: Seq<Asm>,
    d: Seq<Asm>,
    e: Seq<Asm>,
    f: Seq<Asm>,
    g: Seq<Asm>,
    h: Seq<Asm>,
)
    requires
        stands(text, n, a + b + c + d + e + f + g + h),
    ensures
        stands(text, n, a),
        stands(text, n + a.len(), b),
        stands(text, n + (a + b).len(), c),
        stands(text, n + (a + b + c).len(), d),
        stands(text, n + (a + b + c + d).len(), e),
        stands(text, n + (a + b + c + d + e).len(), f),
        stands(text, n + (a + b + c + d + e + f).len(), g),
        stands(text, n + (a + b + c + d + e + f + g).len(), h),
{
    lemma_stands_parts(text, n, a + b + c + d + e + f + g, h);
    lemma_stands_parts(text, n, a + b + c + d + e + f, g);
    lemma_stands_parts(text, n, a + b + c + d + e, f);
    lemma_stands_parts(text, n, a + b + c + d, e);
    lemma_stands_parts(text, n, a + b + c, d);
    lemma_stands_parts(text, n, a + b, c);
    lemma_stands_parts(text, n, a, b);
}

/// A text without a label twice that ends with the runtime has it.
pub proof fn law_runtime(text: Seq<Asm>, front: Seq<Asm>)
    requires
        unique_labels(text),
        text == front + runtime_asm(),
    ensures
        has_runtime(text),
{
    reveal(runtime_asm);
    let n = front.len() + 0int;
    lemma_stands_tail(text, front, runtime_asm());
    let a = f32_add_asm();
    let b = f32_mul_asm();
    let c = f32_div_asm();
    let d = f32_cmp_asm();
    let e = i32_to_f32_asm();
    let f = u32_to_f32_asm();
    let g = f32_to_i32_asm();
    let h = f32_to_u32_asm();
    lemma_stands_eight(text, n, a, b, c, d, e, f, g, h);
    lemma_add_computes(text, n);
    lemma_mul_computes(text, n + a.len());
    lemma_div_computes(text, n + (a + b).len());
    lemma_cmp_computes(text, n + (a + b + c).len());
    lemma_i2f_computes(text, n + (a + b + c + d).len());
    lemma_u2f_computes(text, n + (a + b + c + d + e).len());
    lemma_f2i_computes(text, n + (a + b + c + d + e + f).len());
    lemma_f2u_computes(text, n + (a + b + c + d + e + f + g).len());
}

proof fn lemma_stands_tail(text: Seq<Asm>, front: Seq<Asm>, lines: Seq<Asm>)
    requires
        text == front + lines,
    ensures
        stands(text, front.len() as int, lines),
{
    reveal(stands);
}

/// A routine's first line is its label.
proof fn lemma_entry(text: Seq<Asm>, i: int, lines: Seq<Asm>, name: Seq<char>)
    requires
        unique_labels(text),
        stands(text, i, lines),
        lines.len() > 0,
        lines[0] == Asm::Label(name),
    ensures
        line_of(text, name) == Some(i),
{
    assert(text[i + 0] == lines[0]) by {
        reveal(stands);
    }
    lemma_line_of(text, name, i);
}

} // verus!
