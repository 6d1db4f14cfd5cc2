//! What the code of an instruction does: it computes its operation on the operands' cells of the
//! frame, and stores the result in its own cell.
//!
//! The laws here are about the lines that an instruction adds to the text of a function. Each
//! says what memory is after those lines have run, from every state.

use vstd::arithmetic::div_mod::lemma_fundamental_div_mod_converse;
use vstd::arithmetic::power2::lemma2_to64;
use vstd::prelude::*;

use crate::bir::{BinOp, CastOp, FCmpPred, FloatConst, Function, ICmpPred, InstId, Ty, ValRef};
use crate::bits::low_i32;
use crate::rv::check::{f64_ty, float_ty, wide_ty};
use crate::rv::enc::{
    ret_asm, signed, AluOp, Asm, ImmOp, LoadOp, MulOp, ShiftOp, StoreOp, A0, A1, RA, SP, T0, T1, T2,
    T3, T4, T5, T6, ZERO,
};
use crate::rv::lower::{
    const_home, home_of, inst_home, put, put_eq_const, put_frame_addr, put_load_from, put_lower_bin,
    put_lower_bin_f32, put_lower_bin_i64, put_lower_cast, put_lower_const_float,
    put_lower_const_int, put_lower_fcmp, put_lower_icmp, put_lower_load, put_lower_reload_dyn,
    put_lower_store, put_reload, put_reload_wide, put_stash, put_store_result,
    put_store_result_wide, put_unstash, scratch, spec_alu_of, spec_as_word, spec_high_half,
    spec_high_word, spec_less_op, spec_local_like, spec_low_half, spec_low_word, spec_space_tag,
    width, St, W,
};
use crate::rv::machine::{
    alu, difference, exec_line, flag, get, gives, law_leaf_keeps_ra_and_sp, law_result_is_unique,
    line_of, muldiv, reaches, shift, sum, word, wrote, Regs,
};
use crate::rv::softfloat_ref::{add_value, div_value, int_value, mul_value, order_code};
use crate::rv::softfloat_run::{
    computes_at, has_runtime, signed_part, unsigned_part, unsigned_value,
};

verus! {

broadcast use crate::rv::machine::group_machine;

// ---- memory --------------------------------------------------------------------------------

/// Memory, byte by byte.
pub type Mem = Map<u32, u8>;

/// The number that a value of a width holds in memory, little-endian.
#[verifier::opaque]
pub open spec fn read(m: Mem, a: u32, w: W) -> u32 {
    match w {
        W::B1 => m[a] as u32,
        W::B2 => (m[a] + 0x100 * m[sum(a, 1)]) as u32,
        W::B4 => (m[a] + 0x100 * m[sum(a, 1)] + 0x1_0000 * m[sum(a, 2)] + 0x100_0000 * m[sum(
            a,
            3,
        )]) as u32,
    }
}

/// Memory with the low bytes of a number written to it.
#[verifier::opaque]
pub open spec fn written(m: Mem, a: u32, w: W, v: u32) -> Mem {
    match w {
        W::B1 => m.insert(a, (v % 0x100) as u8),
        W::B2 => m.insert(a, (v % 0x100) as u8).insert(sum(a, 1), (v / 0x100 % 0x100) as u8),
        W::B4 => m.insert(a, (v % 0x100) as u8).insert(
            sum(a, 1),
            (v / 0x100 % 0x100) as u8,
        ).insert(sum(a, 2), (v / 0x1_0000 % 0x100) as u8).insert(
            sum(a, 3),
            (v / 0x100_0000) as u8,
        ),
    }
}

/// A number of a width, extended to a word.
pub open spec fn extended(w: W, sign: bool, x: u32) -> u32 {
    match w {
        W::B1 => if sign && x >= 0x80 {
            sum(x, 0xFFFF_FF00)
        } else {
            x
        },
        W::B2 => if sign && x >= 0x8000 {
            sum(x, 0xFFFF_0000)
        } else {
            x
        },
        W::B4 => x,
    }
}

/// The registers and memory.
pub struct State {
    pub r: Regs,
    pub m: Mem,
}

/// Whether control that enters at line `i` with registers `r` returns with registers `t`.
pub open spec fn returned(text: Seq<Asm>, i: int, r: Regs, t: Regs) -> bool {
    exists|j: int|
        0 <= j < text.len() && text[j] == ret_asm() && #[trigger] reaches(text, i, r, j, t)
}

/// The registers when a routine of the text that is called with `r` returns.
pub open spec fn called(text: Seq<Asm>, name: Seq<char>, r: Regs) -> Regs {
    choose|t: Regs| returned(text, line_of(text, name)->0, r, t)
}

/// What a line does that goes on to the next: it computes, touches memory, or calls a routine of
/// the text, which returns to `ra`.
pub open spec fn exec(text: Seq<Asm>, ra: u32, a: Asm, c: State) -> State {
    match a {
        Asm::Load(op, rd, offset, base) => {
            let at = sum(get(c.r, base), word(offset));
            let v = match op {
                LoadOp::Lb => extended(W::B1, true, read(c.m, at, W::B1)),
                LoadOp::Lbu => read(c.m, at, W::B1),
                LoadOp::Lh => extended(W::B2, true, read(c.m, at, W::B2)),
                LoadOp::Lhu => read(c.m, at, W::B2),
                LoadOp::Lw => read(c.m, at, W::B4),
            };
            State { r: wrote(c.r, rd, v), ..c }
        },
        Asm::Store(op, rs, offset, base) => {
            let at = sum(get(c.r, base), word(offset));
            let w = match op {
                StoreOp::Sb => W::B1,
                StoreOp::Sh => W::B2,
                StoreOp::Sw => W::B4,
            };
            State { m: written(c.m, at, w, get(c.r, rs)), ..c }
        },
        Asm::Jal(rd, name) => State { r: called(text, name, wrote(c.r, rd, ra)), ..c },
        _ => State { r: exec_line(a, c.r), ..c },
    }
}

/// What the lines from index `from` on do, one after the other.
pub open spec fn after(text: Seq<Asm>, ra: u32, lines: Seq<Asm>, from: nat, c: State) -> State
    decreases lines.len(),
{
    if lines.len() <= from {
        c
    } else {
        exec(text, ra, lines.last(), after(text, ra, lines.drop_last(), from, c))
    }
}

pub broadcast proof fn lemma_after_push(
    text: Seq<Asm>,
    ra: u32,
    lines: Seq<Asm>,
    a: Asm,
    from: nat,
    c: State,
)
    requires
        from <= lines.len(),
    ensures
        #[trigger] after(text, ra, lines.push(a), from, c) == exec(
            text,
            ra,
            a,
            after(text, ra, lines, from, c),
        ),
{
    assert(lines.push(a).drop_last() =~= lines);
}

// ---- the frame -----------------------------------------------------------------------------

/// The address of a cell of the frame.
pub open spec fn cell(c: State, disp: int) -> u32 {
    sum(word(disp), get(c.r, SP))
}

/// Whether two states agree but for some registers.
pub open spec fn keeps(c: State, d: State, regs: Set<u8>) -> bool {
    &&& c.m == d.m
    &&& forall|r: u8| !regs.contains(r) ==> #[trigger] get(d.r, r) == get(c.r, r)
}

pub proof fn lemma_reload(
    text: Seq<Asm>,
    ra: u32,
    from: nat,
    c: State,
    st: St,
    f: Function,
    v: ValRef,
    dst: u8,
    w: W,
    sign: bool,
)
    requires
        from <= st.text.len(),
        dst != ZERO && dst != SP,
    ensures
        ({
            let b = after(text, ra, st.text, from, c);
            let d = after(text, ra, put_reload(st, f, v, dst, w, sign).text, from, c);
            &&& keeps(b, d, set![T4, dst])
            &&& get(d.r, dst) == extended(w, sign, read(b.m, cell(b, home_of(f, v)), w))
        }),
        put_reload(st, f, v, dst, w, sign).text.len() >= from,
{
    broadcast use lemma_after_push;

}

pub proof fn lemma_store_result(
    text: Seq<Asm>,
    ra: u32,
    from: nat,
    c: State,
    st: St,
    f: Function,
    id: InstId,
    src: u8,
    w: W,
)
    requires
        from <= st.text.len(),
        src != T4,
    ensures
        ({
            let b = after(text, ra, st.text, from, c);
            let d = after(text, ra, put_store_result(st, f, id, src, w).text, from, c);
            &&& d.m == written(b.m, cell(b, inst_home(f, id)), w, get(b.r, src))
            &&& get(d.r, SP) == get(b.r, SP)
        }),
{
    broadcast use lemma_after_push;

}

pub proof fn lemma_reload_wide(
    text: Seq<Asm>,
    ra: u32,
    from: nat,
    c: State,
    st: St,
    f: Function,
    v: ValRef,
    lo: u8,
    hi: u8,
)
    requires
        from <= st.text.len(),
        lo != ZERO && lo != SP && lo != T4 && hi != ZERO && hi != SP && hi != T4 && lo != hi,
    ensures
        ({
            let b = after(text, ra, st.text, from, c);
            let d = after(text, ra, put_reload_wide(st, f, v, lo, hi).text, from, c);
            &&& keeps(b, d, set![T4, lo, hi])
            &&& get(d.r, lo) == read(b.m, cell(b, home_of(f, v)), W::B4)
            &&& get(d.r, hi) == read(b.m, sum(cell(b, home_of(f, v)), 4), W::B4)
        }),
        put_reload_wide(st, f, v, lo, hi).text.len() >= from,
{
    broadcast use lemma_after_push;

}

/// Memory with the two words of a number written to it.
pub open spec fn written_wide(m: Mem, a: u32, lo: u32, hi: u32) -> Mem {
    written(written(m, a, W::B4, lo), sum(a, 4), W::B4, hi)
}

pub proof fn lemma_store_result_wide(
    text: Seq<Asm>,
    ra: u32,
    from: nat,
    c: State,
    st: St,
    f: Function,
    id: InstId,
    lo: u8,
    hi: u8,
)
    requires
        from <= st.text.len(),
        lo != T4 && hi != T4,
    ensures
        ({
            let b = after(text, ra, st.text, from, c);
            let d = after(text, ra, put_store_result_wide(st, f, id, lo, hi).text, from, c);
            &&& d.m == written_wide(
                b.m,
                cell(b, inst_home(f, id)),
                get(b.r, lo),
                get(b.r, hi),
            )
            &&& get(d.r, SP) == get(b.r, SP)
        }),
{
    broadcast use lemma_after_push;

}

/// What a call of a routine of the runtime leaves: its value in `a0`, and the stack pointer.
pub proof fn lemma_called(text: Seq<Asm>, name: Seq<char>, value: spec_fn(Regs) -> u32, r: Regs)
    requires
        computes_at(text, name, value),
    ensures
        get(called(text, name, r), A0) == value(r),
        get(called(text, name, r), SP) == get(r, SP),
{
    reveal(gives);
    let i = line_of(text, name)->0;
    assert(gives(text, i, r, value(r)));
    let (j, t) = choose|j: int, t: Regs|
        #![trigger reaches(text, i, r, j, t)]
        0 <= j < text.len() && text[j] == ret_asm() && get(t, A0) == value(r) && reaches(
            text,
            i,
            r,
            j,
            t,
        );
    assert(returned(text, i, r, t));
    let u = called(text, name, r);
    let k = choose|k: int|
        0 <= k < text.len() && text[k] == ret_asm() && #[trigger] reaches(text, i, r, k, u);
    assert(gives(text, i, r, get(u, A0)));
    law_result_is_unique(text, i, r, value(r), get(u, A0));
    law_leaf_keeps_ra_and_sp(text, i, r, k, u);
}

// ---- laws ----------------------------------------------------------------------------------

/// The result of a binary operation on integers of a word or less, from the words that hold them.
pub open spec fn narrow_value(op: BinOp, w: W, x: u32, y: u32) -> u32 {
    match op {
        BinOp::Mul => muldiv(MulOp::Mul, x, y),
        BinOp::Div => muldiv(MulOp::Div, extended(w, true, x), extended(w, true, y)),
        BinOp::Rem => muldiv(MulOp::Rem, extended(w, true, x), extended(w, true, y)),
        BinOp::Ashr => alu(AluOp::Sra, extended(w, true, x), y),
        _ => alu(spec_alu_of(op), x, y),
    }
}

/// The code of a binary operation on integers of a word or less stores its result in the cell of
/// the instruction, and writes nothing else.
pub proof fn law_narrow_operation(
    text: Seq<Asm>,
    ra: u32,
    c: State,
    st: St,
    f: Function,
    id: InstId,
    op: BinOp,
    a: ValRef,
    b: ValRef,
    ty: Ty,
)
    requires
        !float_ty(ty) && !wide_ty(ty),
    ensures
        ({
            let w = width(ty);
            let d = after(
                text,
                ra,
                put_lower_bin(st, f, id, op, a, b, ty).text,
                st.text.len(),
                c,
            );
            let x = read(c.m, cell(c, home_of(f, a)), w);
            let y = read(c.m, cell(c, home_of(f, b)), w);
            &&& d.m == written(c.m, cell(c, inst_home(f, id)), w, narrow_value(op, w, x, y))
            &&& get(d.r, SP) == get(c.r, SP)
        }),
{
    broadcast use lemma_after_push;

    let n = st.text.len();
    let w = width(ty);
    let s1 = op == BinOp::Div || op == BinOp::Rem || op == BinOp::Ashr;
    let s2 = op == BinOp::Div || op == BinOp::Rem;
    let p = put_reload(st, f, a, T0, w, s1);
    let q = put_reload(p, f, b, T1, w, s2);
    lemma_reload(text, ra, n, c, st, f, a, T0, w, s1);
    lemma_reload(text, ra, n, c, p, f, b, T1, w, s2);
    let line = match op {
        BinOp::Mul => Asm::Mul(MulOp::Mul, T0, T0, T1),
        BinOp::Div => Asm::Mul(MulOp::Div, T0, T0, T1),
        BinOp::Rem => Asm::Mul(MulOp::Rem, T0, T0, T1),
        _ => Asm::Alu(spec_alu_of(op), T0, T0, T1),
    };
    let t = put(q, line);
    lemma_store_result(text, ra, n, c, t, f, id, T0, w);
    assert(put_lower_bin(st, f, id, op, a, b, ty) == put_store_result(t, f, id, T0, w));
}

/// The number that two words hold.
pub open spec fn two_words(lo: u32, hi: u32) -> nat {
    (hi * 0x1_0000_0000 + lo) as nat
}

/// The two words of the result of a binary operation on two-word integers: the sum, difference or
/// product modulo 2^64, or the bitwise operation on each word.
pub open spec fn wide_value(op: BinOp, xl: u32, xh: u32, yl: u32, yh: u32, lo: u32, hi: u32) -> bool {
    let x = two_words(xl, xh) + 0int;
    let y = two_words(yl, yh) + 0int;
    let r = two_words(lo, hi) + 0int;
    match op {
        BinOp::Add => r == (x + y) % 0x1_0000_0000_0000_0000,
        BinOp::Sub => r == (x - y) % 0x1_0000_0000_0000_0000,
        BinOp::Mul => r == (x * y) % 0x1_0000_0000_0000_0000,
        _ => lo == alu(spec_alu_of(op), xl, yl) && hi == alu(spec_alu_of(op), xh, yh),
    }
}

pub proof fn lemma_wide_sum(xl: u32, xh: u32, yl: u32, yh: u32)
    ensures
        ({
            let lo = sum(xl, yl);
            let hi = sum(sum(xh, yh), flag(lo < xl));
            wide_value(BinOp::Add, xl, xh, yl, yh, lo, hi)
        }),
        ({
            let lo = difference(xl, yl);
            let hi = difference(
                difference(xh, yh),
                flag(xl < yl),
            );
            wide_value(BinOp::Sub, xl, xh, yl, yh, lo, hi)
        }),
{
    let x = two_words(xl, xh) + 0int;
    let y = two_words(yl, yh) + 0int;
    let big = 0x1_0000_0000_0000_0000int;
    let lo = sum(xl, yl);
    let hi = sum(sum(xh, yh), flag(lo < xl));
    let r = two_words(lo, hi) + 0int;
    assert(x + y == r || x + y == r + big);
    lemma_fundamental_div_mod_converse(x + y, big, if x + y == r {
        0
    } else {
        1
    }, r);
    let dlo = difference(xl, yl);
    let dhi = difference(
        difference(xh, yh),
        flag(xl < yl),
    );
    let d = two_words(dlo, dhi) + 0int;
    assert(x - y == d || x - y == d - big);
    lemma_fundamental_div_mod_converse(x - y, big, if x - y == d {
        0
    } else {
        -1
    }, d);
}

proof fn lemma_wide_product(xl: u32, xh: u32, yl: u32, yh: u32)
    ensures
        ({
            let lo = muldiv(MulOp::Mul, xl, yl);
            let hi = sum(
                sum(muldiv(MulOp::Mulhu, xl, yl), muldiv(MulOp::Mul, xl, yh)),
                muldiv(MulOp::Mul, xh, yl),
            );
            wide_value(BinOp::Mul, xl, xh, yl, yh, lo, hi)
        }),
{
    let half = 0x1_0000_0000int;
    let big = 0x1_0000_0000_0000_0000int;
    let x = two_words(xl, xh) + 0int;
    let y = two_words(yl, yh) + 0int;
    let (p, q, r, t) = (xl * yl, xl * yh, xh * yl, xh * yh);
    assert(x * y == t * big + (q + r) * half + p) by (nonlinear_arith)
        requires
            x == xh * half + xl,
            y == yh * half + yl,
            p == xl * yl,
            q == xl * yh,
            r == xh * yl,
            t == xh * yh,
            half == 0x1_0000_0000,
            big == 0x1_0000_0000_0000_0000,
    ;
    assert(0 <= p < big) by (nonlinear_arith)
        requires
            p == xl * yl,
            0 <= xl < 0x1_0000_0000,
            0 <= yl < 0x1_0000_0000,
            big == 0x1_0000_0000_0000_0000,
    ;
    assert(q >= 0 && r >= 0) by (nonlinear_arith)
        requires
            q == xl * yh,
            r == xh * yl,
            xl >= 0 && xh >= 0 && yl >= 0 && yh >= 0,
    ;
    let lo = muldiv(MulOp::Mul, xl, yl);
    let high = muldiv(MulOp::Mulhu, xl, yl);
    let first = sum(high, muldiv(MulOp::Mul, xl, yh));
    let hi = sum(first, muldiv(MulOp::Mul, xh, yl));
    let k = (high - hi) + q % half + r % half;
    assert(k == 0 || k == half || k == 2 * half);
    let carry = if k == 0 {
        0int
    } else if k == half {
        1
    } else {
        2
    };
    let whole = t + q / half + r / half + carry;
    assert(x * y == big * whole + two_words(lo, hi));
    lemma_fundamental_div_mod_converse(x * y, big, whole, two_words(lo, hi) + 0int);
}

/// Whether the code of a binary operation on two-word integers stores the two words in the cell of
/// the instruction, writes nothing else, and the words are its result.
pub open spec fn stores_wide(
    text: Seq<Asm>,
    ra: u32,
    c: State,
    st: St,
    f: Function,
    id: InstId,
    op: BinOp,
    a: ValRef,
    b: ValRef,
    words: (u32, u32),
) -> bool {
    let d = after(text, ra, put_lower_bin_i64(st, f, id, op, a, b).text, st.text.len(), c);
    let x = cell(c, home_of(f, a));
    let y = cell(c, home_of(f, b));
    &&& d.m == written_wide(c.m, cell(c, inst_home(f, id)), words.0, words.1)
    &&& wide_value(
        op,
        read(c.m, x, W::B4),
        read(c.m, sum(x, 4), W::B4),
        read(c.m, y, W::B4),
        read(c.m, sum(y, 4), W::B4),
        words.0,
        words.1,
    )
    &&& get(d.r, SP) == get(c.r, SP)
}

/// Both operands in registers.
pub proof fn lemma_both_loaded(
    text: Seq<Asm>,
    ra: u32,
    c: State,
    st: St,
    f: Function,
    a: ValRef,
    b: ValRef,
) -> (q: St)
    ensures
        q == put_reload_wide(put_reload_wide(st, f, a, T0, T1), f, b, T2, T3),
        q.text.len() >= st.text.len(),
        ({
            let e = after(text, ra, q.text, st.text.len(), c);
            let x = cell(c, home_of(f, a));
            let y = cell(c, home_of(f, b));
            &&& e.m == c.m
            &&& get(e.r, SP) == get(c.r, SP)
            &&& get(e.r, T0) == read(c.m, x, W::B4)
            &&& get(e.r, T1) == read(c.m, sum(x, 4), W::B4)
            &&& get(e.r, T2) == read(c.m, y, W::B4)
            &&& get(e.r, T3) == read(c.m, sum(y, 4), W::B4)
        }),
{
    let n = st.text.len();
    let p = put_reload_wide(st, f, a, T0, T1);
    lemma_reload_wide(text, ra, n, c, st, f, a, T0, T1);
    lemma_reload_wide(text, ra, n, c, p, f, b, T2, T3);
    put_reload_wide(p, f, b, T2, T3)
}

proof fn lemma_wide_add(
    text: Seq<Asm>,
    ra: u32,
    c: State,
    st: St,
    f: Function,
    id: InstId,
    op: BinOp,
    a: ValRef,
    b: ValRef,
) -> (words: (u32, u32))
    requires
        op == BinOp::Add,
    ensures
        stores_wide(text, ra, c, st, f, id, op, a, b, words),
{
    broadcast use lemma_after_push;

    let n = st.text.len();
    let q = lemma_both_loaded(text, ra, c, st, f, a, b);
    let e = after(text, ra, q.text, n, c);
    lemma_wide_sum(get(e.r, T0), get(e.r, T1), get(e.r, T2), get(e.r, T3));
    let p0 = put(q, Asm::Alu(AluOp::Add, T6, T0, T2));
    let p1 = put(p0, Asm::Alu(AluOp::Sltu, T5, T6, T0));
    let p2 = put(p1, Asm::Alu(AluOp::Add, T1, T1, T3));
    let p3 = put(p2, Asm::Alu(AluOp::Add, T1, T1, T5));
    let g = after(text, ra, p3.text, n, c);
    assert(p3.text.len() == q.text.len() + 4);
    lemma_store_result_wide(text, ra, n, c, p3, f, id, T6, T1);
    assert(put_lower_bin_i64(st, f, id, op, a, b) == put_store_result_wide(p3, f, id, T6, T1));
    (get(g.r, T6), get(g.r, T1))
}

proof fn lemma_wide_sub(
    text: Seq<Asm>,
    ra: u32,
    c: State,
    st: St,
    f: Function,
    id: InstId,
    op: BinOp,
    a: ValRef,
    b: ValRef,
) -> (words: (u32, u32))
    requires
        op == BinOp::Sub,
    ensures
        stores_wide(text, ra, c, st, f, id, op, a, b, words),
{
    broadcast use lemma_after_push;

    let n = st.text.len();
    let q = lemma_both_loaded(text, ra, c, st, f, a, b);
    let e = after(text, ra, q.text, n, c);
    lemma_wide_sum(get(e.r, T0), get(e.r, T1), get(e.r, T2), get(e.r, T3));
    let p0 = put(q, Asm::Alu(AluOp::Sltu, T5, T0, T2));
    let p1 = put(p0, Asm::Alu(AluOp::Sub, T6, T0, T2));
    let p2 = put(p1, Asm::Alu(AluOp::Sub, T1, T1, T3));
    let p3 = put(p2, Asm::Alu(AluOp::Sub, T1, T1, T5));
    let g = after(text, ra, p3.text, n, c);
    assert(p3.text.len() == q.text.len() + 4);
    lemma_store_result_wide(text, ra, n, c, p3, f, id, T6, T1);
    assert(put_lower_bin_i64(st, f, id, op, a, b) == put_store_result_wide(p3, f, id, T6, T1));
    (get(g.r, T6), get(g.r, T1))
}

proof fn lemma_wide_mul(
    text: Seq<Asm>,
    ra: u32,
    c: State,
    st: St,
    f: Function,
    id: InstId,
    op: BinOp,
    a: ValRef,
    b: ValRef,
) -> (words: (u32, u32))
    requires
        op == BinOp::Mul,
    ensures
        stores_wide(text, ra, c, st, f, id, op, a, b, words),
{
    broadcast use lemma_after_push;

    let n = st.text.len();
    let q = lemma_both_loaded(text, ra, c, st, f, a, b);
    let e = after(text, ra, q.text, n, c);
    lemma_wide_product(get(e.r, T0), get(e.r, T1), get(e.r, T2), get(e.r, T3));
    let p0 = put(q, Asm::Mul(MulOp::Mulhu, T6, T0, T2));
    let p1 = put(p0, Asm::Mul(MulOp::Mul, T5, T0, T3));
    let p2 = put(p1, Asm::Alu(AluOp::Add, T6, T6, T5));
    let p3 = put(p2, Asm::Mul(MulOp::Mul, T5, T1, T2));
    let p4 = put(p3, Asm::Alu(AluOp::Add, T6, T6, T5));
    let p5 = put(p4, Asm::Mul(MulOp::Mul, T5, T0, T2));
    let g = after(text, ra, p5.text, n, c);
    assert(p5.text.len() == q.text.len() + 6);
    lemma_store_result_wide(text, ra, n, c, p5, f, id, T5, T6);
    assert(put_lower_bin_i64(st, f, id, op, a, b) == put_store_result_wide(p5, f, id, T5, T6));
    (get(g.r, T5), get(g.r, T6))
}

proof fn lemma_wide_bits(
    text: Seq<Asm>,
    ra: u32,
    c: State,
    st: St,
    f: Function,
    id: InstId,
    op: BinOp,
    a: ValRef,
    b: ValRef,
) -> (words: (u32, u32))
    requires
        op != BinOp::Add && op != BinOp::Sub && op != BinOp::Mul,
    ensures
        stores_wide(text, ra, c, st, f, id, op, a, b, words),
{
    broadcast use lemma_after_push;

    let n = st.text.len();
    let q = lemma_both_loaded(text, ra, c, st, f, a, b);
    let e = after(text, ra, q.text, n, c);
    let p0 = put(q, Asm::Alu(spec_alu_of(op), T6, T0, T2));
    let p1 = put(p0, Asm::Alu(spec_alu_of(op), T5, T1, T3));
    let g = after(text, ra, p1.text, n, c);
    assert(p1.text.len() == q.text.len() + 2);
    lemma_store_result_wide(text, ra, n, c, p1, f, id, T6, T5);
    assert(put_lower_bin_i64(st, f, id, op, a, b) == put_store_result_wide(p1, f, id, T6, T5));
    (get(g.r, T6), get(g.r, T5))
}

/// The code of a binary operation on two-word integers stores its result in the cell of the
/// instruction, and writes nothing else.
pub proof fn law_wide_operation(
    text: Seq<Asm>,
    ra: u32,
    c: State,
    st: St,
    f: Function,
    id: InstId,
    op: BinOp,
    a: ValRef,
    b: ValRef,
) -> (words: (u32, u32))
    ensures
        stores_wide(text, ra, c, st, f, id, op, a, b, words),
{
    match op {
        BinOp::Add => lemma_wide_add(text, ra, c, st, f, id, op, a, b),
        BinOp::Sub => lemma_wide_sub(text, ra, c, st, f, id, op, a, b),
        BinOp::Mul => lemma_wide_mul(text, ra, c, st, f, id, op, a, b),
        _ => lemma_wide_bits(text, ra, c, st, f, id, op, a, b),
    }
}

/// The result of an operation on single-precision values.
pub open spec fn float_value(op: BinOp, x: u32, y: u32) -> u32 {
    match op {
        BinOp::FAdd => add_value(x, y),
        BinOp::FSub => add_value(x, y ^ 0x8000_0000),
        BinOp::FMul => mul_value(x, y),
        BinOp::FDiv => div_value(x, y),
        _ => add_value(
            x,
            mul_value(int_value(signed(signed_part(div_value(x, y)))), y) ^ 0x8000_0000,
        ),
    }
}

/// What is called for an operation on single-precision values.
pub open spec fn routine_of(op: BinOp) -> Seq<char> {
    match op {
        BinOp::FMul => "__sf_f32_mul"@,
        BinOp::FDiv => "__sf_f32_div"@,
        _ => "__sf_f32_add"@,
    }
}

pub proof fn lemma_routine(text: Seq<Asm>, op: BinOp, r: Regs)
    requires
        has_runtime(text),
        op == BinOp::FAdd || op == BinOp::FSub || op == BinOp::FMul || op == BinOp::FDiv,
    ensures
        ({
            let x = get(r, A0);
            let y = get(r, A1);
            let t = called(text, routine_of(op), r);
            &&& get(t, A0) == match op {
                BinOp::FMul => mul_value(x, y),
                BinOp::FDiv => div_value(x, y),
                _ => add_value(x, y),
            }
            &&& get(t, SP) == get(r, SP)
        }),
{
    match op {
        BinOp::FMul => {
            lemma_called(
                text,
                "__sf_f32_mul"@,
                |s: Regs| mul_value(get(s, A0), get(s, A1)),
                r,
            );
        },
        BinOp::FDiv => {
            lemma_called(
                text,
                "__sf_f32_div"@,
                |s: Regs| div_value(get(s, A0), get(s, A1)),
                r,
            );
        },
        _ => {
            lemma_called(
                text,
                "__sf_f32_add"@,
                |s: Regs| add_value(get(s, A0), get(s, A1)),
                r,
            );
        },
    }
}

/// Both single-precision operands in `a0` and `a1`.
pub proof fn lemma_floats_loaded(
    text: Seq<Asm>,
    ra: u32,
    c: State,
    st: St,
    f: Function,
    a: ValRef,
    b: ValRef,
) -> (q: St)
    ensures
        q == put_reload(put_reload(st, f, a, A0, W::B4, false), f, b, A1, W::B4, false),
        q.text.len() >= st.text.len(),
        ({
            let e = after(text, ra, q.text, st.text.len(), c);
            &&& e.m == c.m
            &&& get(e.r, SP) == get(c.r, SP)
            &&& get(e.r, A0) == read(c.m, cell(c, home_of(f, a)), W::B4)
            &&& get(e.r, A1) == read(c.m, cell(c, home_of(f, b)), W::B4)
        }),
{
    let n = st.text.len();
    let p = put_reload(st, f, a, A0, W::B4, false);
    lemma_reload(text, ra, n, c, st, f, a, A0, W::B4, false);
    lemma_reload(text, ra, n, c, p, f, b, A1, W::B4, false);
    put_reload(p, f, b, A1, W::B4, false)
}

/// The code of an addition, subtraction, multiplication or division of single-precision values
/// stores its result in the cell of the instruction, and writes nothing else.
pub proof fn law_float_operation(
    text: Seq<Asm>,
    ra: u32,
    c: State,
    st: St,
    f: Function,
    id: InstId,
    op: BinOp,
    a: ValRef,
    b: ValRef,
)
    requires
        has_runtime(text),
        op == BinOp::FAdd || op == BinOp::FSub || op == BinOp::FMul || op == BinOp::FDiv,
    ensures
        ({
            let d = after(
                text,
                ra,
                put_lower_bin_f32(st, f, id, op, a, b).text,
                st.text.len(),
                c,
            );
            let x = read(c.m, cell(c, home_of(f, a)), W::B4);
            let y = read(c.m, cell(c, home_of(f, b)), W::B4);
            &&& d.m == written(c.m, cell(c, inst_home(f, id)), W::B4, float_value(op, x, y))
            &&& get(d.r, SP) == get(c.r, SP)
        }),
{
    broadcast use lemma_after_push;

    let n = st.text.len();
    let q = lemma_floats_loaded(text, ra, c, st, f, a, b);
    let t = if op == BinOp::FSub {
        let p = put(q, Asm::Li(T0, i32::MIN + 0int));
        put(p, Asm::Alu(AluOp::Xor, A1, A1, T0))
    } else {
        q
    };
    let g = after(text, ra, t.text, n, c);
    lemma_routine(text, op, wrote(g.r, RA, ra));
    let u = put(t, Asm::Jal(RA, routine_of(op)));
    lemma_store_result(text, ra, n, c, u, f, id, A0, W::B4);
    assert(put_lower_bin_f32(st, f, id, op, a, b) == put_store_result(u, f, id, A0, W::B4));
}

// ---- the remainder -------------------------------------------------------------------------

/// A word that was written is read back.
pub proof fn law_word_is_read_back(m: Mem, a: u32, v: u32)
    ensures
        read(written(m, a, W::B4, v), a, W::B4) == v,
{
    reveal(read);
    reveal(written);
}

/// Whether two words share no byte.
pub open spec fn apart(a: u32, b: u32) -> bool {
    difference(a, b) >= 4 && difference(b, a) >= 4
}

/// Writing a word leaves a word that shares no byte with it as it was.
pub proof fn law_words_are_apart(m: Mem, a: u32, b: u32, v: u32)
    requires
        apart(a, b),
    ensures
        read(written(m, a, W::B4, v), b, W::B4) == read(m, b, W::B4),
{
    reveal(read);
    reveal(written);
}

pub proof fn lemma_stash(
    text: Seq<Asm>,
    ra: u32,
    from: nat,
    c: State,
    st: St,
    f: Function,
    disp: int,
    reg: u8,
)
    requires
        from <= st.text.len(),
        reg != T6,
    ensures
        ({
            let b = after(text, ra, st.text, from, c);
            let d = after(text, ra, put_stash(st, f, disp, reg).text, from, c);
            &&& d.m == written(b.m, cell(b, disp), W::B4, get(b.r, reg))
            &&& forall|r: u8| r != T6 ==> #[trigger] get(d.r, r) == get(b.r, r)
        }),
        put_stash(st, f, disp, reg).text.len() >= from,
{
    broadcast use lemma_after_push;

}

pub proof fn lemma_unstash(
    text: Seq<Asm>,
    ra: u32,
    from: nat,
    c: State,
    st: St,
    f: Function,
    disp: int,
    reg: u8,
)
    requires
        from <= st.text.len(),
        reg != ZERO && reg != SP && reg != T6,
    ensures
        ({
            let b = after(text, ra, st.text, from, c);
            let d = after(text, ra, put_unstash(st, f, disp, reg).text, from, c);
            &&& d.m == b.m
            &&& get(d.r, reg) == read(b.m, cell(b, disp), W::B4)
            &&& forall|r: u8| r != T6 && r != reg ==> #[trigger] get(d.r, r) == get(b.r, r)
        }),
        put_unstash(st, f, disp, reg).text.len() >= from,
{
    broadcast use lemma_after_push;

}

/// The quotient of two single-precision values, its integer part, and that as a value again.
proof fn lemma_whole_quotient(text: Seq<Asm>, r: Regs, ra: u32)
    requires
        has_runtime(text),
    ensures
        ({
            let q = called(text, "__sf_f32_div"@, wrote(r, RA, ra));
            let i = called(text, "__sf_f32_to_i32"@, wrote(q, RA, ra));
            let t = called(text, "__sf_i32_to_f32"@, wrote(i, RA, ra));
            &&& get(t, A0) == int_value(signed(signed_part(div_value(get(r, A0), get(r, A1)))))
            &&& get(t, SP) == get(r, SP)
        }),
{
    let q = called(text, "__sf_f32_div"@, wrote(r, RA, ra));
    lemma_called(
        text,
        "__sf_f32_div"@,
        |s: Regs| div_value(get(s, A0), get(s, A1)),
        wrote(r, RA, ra),
    );
    let i = called(text, "__sf_f32_to_i32"@, wrote(q, RA, ra));
    lemma_called(text, "__sf_f32_to_i32"@, |s: Regs| signed_part(get(s, A0)), wrote(q, RA, ra));
    lemma_called(
        text,
        "__sf_i32_to_f32"@,
        |s: Regs| int_value(signed(get(s, A0))),
        wrote(i, RA, ra),
    );
}

/// The code of a remainder of single-precision values stores its result in the cell of the
/// instruction; besides, it writes two cells that are for passing use.
pub proof fn law_float_remainder(
    text: Seq<Asm>,
    ra: u32,
    c: State,
    st: St,
    f: Function,
    id: InstId,
    a: ValRef,
    b: ValRef,
) -> (kept: (u32, u32, u32))
    requires
        has_runtime(text),
    ensures
        ({
            let d = after(
                text,
                ra,
                put_lower_bin_f32(st, f, id, BinOp::FRem, a, b).text,
                st.text.len(),
                c,
            );
            let x = read(c.m, cell(c, home_of(f, a)), W::B4);
            let y = read(c.m, cell(c, home_of(f, b)), W::B4);
            let m1 = written(c.m, cell(c, scratch(0)), W::B4, kept.0);
            let m2 = written(m1, cell(c, scratch(1)), W::B4, kept.1);
            let m3 = written(m2, cell(c, scratch(1)), W::B4, kept.2);
            &&& d.m == written(
                m3,
                cell(c, inst_home(f, id)),
                W::B4,
                float_value(BinOp::FRem, x, y),
            )
            &&& get(d.r, SP) == get(c.r, SP)
        }),
{
    broadcast use lemma_after_push;

    let n = st.text.len();
    let x = read(c.m, cell(c, home_of(f, a)), W::B4);
    let y = read(c.m, cell(c, home_of(f, b)), W::B4);
    let c0 = cell(c, scratch(0));
    let c1 = cell(c, scratch(1));
    let q = lemma_floats_loaded(text, ra, c, st, f, a, b);
    let p0 = put_stash(q, f, scratch(0), A0);
    lemma_stash(text, ra, n, c, q, f, scratch(0), A0);
    let p1 = put_stash(p0, f, scratch(1), A1);
    lemma_stash(text, ra, n, c, p0, f, scratch(1), A1);
    let e1 = after(text, ra, p1.text, n, c);
    let m1 = written(c.m, c0, W::B4, x);
    let m2 = written(m1, c1, W::B4, y);
    assert(e1.m == m2);
    let p2 = put(p1, Asm::Jal(RA, "__sf_f32_div"@));
    let p3 = put(p2, Asm::Jal(RA, "__sf_f32_to_i32"@));
    let p4 = put(p3, Asm::Jal(RA, "__sf_i32_to_f32"@));
    lemma_whole_quotient(text, e1.r, ra);
    let whole = int_value(signed(signed_part(div_value(x, y))));
    let e4 = after(text, ra, p4.text, n, c);
    assert(e4.m == m2 && get(e4.r, A0) == whole && get(e4.r, SP) == get(c.r, SP));
    let p5 = put_unstash(p4, f, scratch(1), A1);
    lemma_unstash(text, ra, n, c, p4, f, scratch(1), A1);
    law_word_is_read_back(m1, c1, y);
    let e5 = after(text, ra, p5.text, n, c);
    let p6 = put(p5, Asm::Jal(RA, "__sf_f32_mul"@));
    lemma_routine(text, BinOp::FMul, wrote(e5.r, RA, ra));
    let product = mul_value(whole, y);
    let p7 = put_stash(p6, f, scratch(1), A0);
    lemma_stash(text, ra, n, c, p6, f, scratch(1), A0);
    let m3 = written(m2, c1, W::B4, product);
    let p8 = put_unstash(p7, f, scratch(0), A0);
    lemma_unstash(text, ra, n, c, p7, f, scratch(0), A0);
    law_words_are_apart(m2, c1, c0, product);
    law_words_are_apart(m1, c1, c0, y);
    law_word_is_read_back(c.m, c0, x);
    let p9 = put_unstash(p8, f, scratch(1), A1);
    lemma_unstash(text, ra, n, c, p8, f, scratch(1), A1);
    law_word_is_read_back(m2, c1, product);
    let e9 = after(text, ra, p9.text, n, c);
    assert(e9.m == m3 && get(e9.r, A0) == x && get(e9.r, A1) == product && get(e9.r, SP) == get(
        c.r,
        SP,
    ));
    let p10 = put(p9, Asm::Li(T0, i32::MIN + 0int));
    let p11 = put(p10, Asm::Alu(AluOp::Xor, A1, A1, T0));
    let e11 = after(text, ra, p11.text, n, c);
    let p12 = put(p11, Asm::Jal(RA, "__sf_f32_add"@));
    lemma_routine(text, BinOp::FAdd, wrote(e11.r, RA, ra));
    lemma_store_result(text, ra, n, c, p12, f, id, A0, W::B4);
    assert(put_lower_bin_f32(st, f, id, BinOp::FRem, a, b) == put_store_result(
        p12,
        f,
        id,
        A0,
        W::B4,
    ));
    (x, y, product)
}

// ---- comparisons ---------------------------------------------------------------------------

/// Whether a comparison of integers holds, from the words that hold them.
pub open spec fn int_holds(pred: ICmpPred, w: W, x: u32, y: u32) -> bool {
    let sx = signed(extended(w, true, x));
    let sy = signed(extended(w, true, y));
    match pred {
        ICmpPred::Eq => x == y,
        ICmpPred::Ne => x != y,
        ICmpPred::Slt => sx < sy,
        ICmpPred::Sle => sx <= sy,
        ICmpPred::Sgt => sx > sy,
        ICmpPred::Sge => sx >= sy,
        ICmpPred::Ult => x < y,
        ICmpPred::Ule => x <= y,
        ICmpPred::Ugt => x > y,
        ICmpPred::Uge => x >= y,
    }
}

pub proof fn lemma_flag_bits(x: u32, y: u32)
    ensures
        x ^ y < 1 <==> x == y,
        0 < x ^ y <==> x != y,
        1u32 ^ 1 == 0,
        0u32 ^ 1 == 1,
        1u32 | 0 == 1,
        0u32 | 1 == 1,
        1u32 | 1 == 1,
        0u32 | 0 == 0,
{
    assert((x ^ y < 1 <==> x == y) && (0 < x ^ y <==> x != y) && 1u32 ^ 1 == 0 && 0u32 ^ 1 == 1
        && 1u32 | 0 == 1 && 0u32 | 1 == 1 && 1u32 | 1 == 1 && 0u32 | 0 == 0) by (bit_vector);
}

/// The code of a comparison of integers of a word or less stores 1 in the cell of the instruction
/// where it holds, and 0 where it does not, and writes nothing else.
pub proof fn law_narrow_comparison(
    text: Seq<Asm>,
    ra: u32,
    c: State,
    st: St,
    f: Function,
    id: InstId,
    pred: ICmpPred,
    ty: Ty,
    a: ValRef,
    b: ValRef,
)
    requires
        !wide_ty(ty),
    ensures
        ({
            let w = width(ty);
            let d = after(
                text,
                ra,
                put_lower_icmp(st, f, id, pred, ty, a, b).text,
                st.text.len(),
                c,
            );
            let x = read(c.m, cell(c, home_of(f, a)), w);
            let y = read(c.m, cell(c, home_of(f, b)), w);
            &&& d.m == written(
                c.m,
                cell(c, inst_home(f, id)),
                W::B1,
                flag(int_holds(pred, w, x, y)),
            )
            &&& get(d.r, SP) == get(c.r, SP)
        }),
{
    broadcast use lemma_after_push;

    let n = st.text.len();
    let w = width(ty);
    let sign = pred == ICmpPred::Slt || pred == ICmpPred::Sle || pred == ICmpPred::Sgt || pred
        == ICmpPred::Sge;
    let p = put_reload(st, f, a, T0, w, sign);
    let q = put_reload(p, f, b, T1, w, sign);
    lemma_reload(text, ra, n, c, st, f, a, T0, w, sign);
    lemma_reload(text, ra, n, c, p, f, b, T1, w, sign);
    let e = after(text, ra, q.text, n, c);
    lemma_flag_bits(get(e.r, T0), get(e.r, T1));
    let less = spec_less_op(sign);
    let t = match pred {
        ICmpPred::Eq => put(
            put(q, Asm::Alu(AluOp::Xor, T0, T0, T1)),
            Asm::Imm(ImmOp::Sltiu, T0, T0, 1),
        ),
        ICmpPred::Ne => put(
            put(q, Asm::Alu(AluOp::Xor, T0, T0, T1)),
            Asm::Alu(AluOp::Sltu, T0, ZERO, T0),
        ),
        ICmpPred::Slt | ICmpPred::Ult => put(q, Asm::Alu(less, T0, T0, T1)),
        ICmpPred::Sgt | ICmpPred::Ugt => put(q, Asm::Alu(less, T0, T1, T0)),
        ICmpPred::Sle | ICmpPred::Ule => put(
            put(q, Asm::Alu(less, T0, T1, T0)),
            Asm::Imm(ImmOp::Xori, T0, T0, 1),
        ),
        ICmpPred::Sge | ICmpPred::Uge => put(
            put(q, Asm::Alu(less, T0, T0, T1)),
            Asm::Imm(ImmOp::Xori, T0, T0, 1),
        ),
    };
    let g = after(text, ra, t.text, n, c);
    let x = read(c.m, cell(c, home_of(f, a)), w);
    let y = read(c.m, cell(c, home_of(f, b)), w);
    assert(get(g.r, T0) == flag(int_holds(pred, w, x, y)));
    lemma_store_result(text, ra, n, c, t, f, id, T0, W::B1);
    assert(put_lower_icmp(st, f, id, pred, ty, a, b) == put_store_result(t, f, id, T0, W::B1));
}

/// Whether a comparison of single-precision values holds, by how they compare.
pub open spec fn float_holds(pred: FCmpPred, order: int) -> bool {
    match pred {
        FCmpPred::Oeq => order == 0,
        FCmpPred::One => order == -1 || order == 1,
        FCmpPred::Olt => order == -1,
        FCmpPred::Ole => order == -1 || order == 0,
        FCmpPred::Ogt => order == 1,
        FCmpPred::Oge => order == 0 || order == 1,
        FCmpPred::Ord => order != -2,
        FCmpPred::Uno => order == -2,
    }
}

/// A test for a small constant.
proof fn lemma_eq_const(
    text: Seq<Asm>,
    ra: u32,
    from: nat,
    c: State,
    st: St,
    f: Function,
    dst: u8,
    src: u8,
    target: int,
)
    requires
        from <= st.text.len(),
        dst != ZERO && dst != SP && dst != src,
        -2 <= target <= 1,
    ensures
        ({
            let b = after(text, ra, st.text, from, c);
            let d = after(text, ra, put_eq_const(st, f, dst, src, target).text, from, c);
            &&& keeps(b, d, set![dst])
            &&& get(d.r, dst) == flag(get(b.r, src) == word(target))
        }),
        put_eq_const(st, f, dst, src, target).text.len() >= from,
{
    broadcast use lemma_after_push;

}

/// The code of a comparison of single-precision values stores 1 in the cell of the instruction
/// where it holds, and 0 where it does not, and writes nothing else.
#[verifier::rlimit(40)]
pub proof fn law_float_comparison(
    text: Seq<Asm>,
    ra: u32,
    c: State,
    st: St,
    f: Function,
    id: InstId,
    pred: FCmpPred,
    a: ValRef,
    b: ValRef,
)
    requires
        has_runtime(text),
    ensures
        ({
            let d = after(
                text,
                ra,
                put_lower_fcmp(st, f, id, pred, a, b).text,
                st.text.len(),
                c,
            );
            let x = read(c.m, cell(c, home_of(f, a)), W::B4);
            let y = read(c.m, cell(c, home_of(f, b)), W::B4);
            &&& d.m == written(
                c.m,
                cell(c, inst_home(f, id)),
                W::B1,
                flag(float_holds(pred, order_code(x, y))),
            )
            &&& get(d.r, SP) == get(c.r, SP)
        }),
{
    broadcast use lemma_after_push;

    let n = st.text.len();
    let q = lemma_floats_loaded(text, ra, c, st, f, a, b);
    let e = after(text, ra, q.text, n, c);
    let p = put(q, Asm::Jal(RA, "__sf_f32_cmp"@));
    lemma_called(
        text,
        "__sf_f32_cmp"@,
        |s: Regs| word(order_code(get(s, A0), get(s, A1))),
        wrote(e.r, RA, ra),
    );
    let g = after(text, ra, p.text, n, c);
    let order = order_code(
        read(c.m, cell(c, home_of(f, a)), W::B4),
        read(c.m, cell(c, home_of(f, b)), W::B4),
    );
    assert(get(g.r, A0) == word(order) && g.m == c.m && get(g.r, SP) == get(c.r, SP));
    lemma_flag_bits(0, 0);
    let one = match pred {
        FCmpPred::Oeq | FCmpPred::One => 0int,
        FCmpPred::Olt | FCmpPred::Ole => -1,
        FCmpPred::Ogt | FCmpPred::Oge => 1,
        FCmpPred::Ord | FCmpPred::Uno => -2,
    };
    let u = put_eq_const(p, f, T0, A0, one);
    lemma_eq_const(text, ra, n, c, p, f, T0, A0, one);
    let two = if pred == FCmpPred::One {
        -2int
    } else {
        0
    };
    let v = put_eq_const(u, f, T1, A0, two);
    lemma_eq_const(text, ra, n, c, u, f, T1, A0, two);
    let t = match pred {
        FCmpPred::Oeq | FCmpPred::Olt | FCmpPred::Ogt | FCmpPred::Uno => u,
        FCmpPred::Ord => put(u, Asm::Imm(ImmOp::Xori, T0, T0, 1)),
        FCmpPred::One => put(
            put(v, Asm::Alu(AluOp::Or, T0, T0, T1)),
            Asm::Imm(ImmOp::Xori, T0, T0, 1),
        ),
        FCmpPred::Ole | FCmpPred::Oge => put(v, Asm::Alu(AluOp::Or, T0, T0, T1)),
    };
    let h = after(text, ra, t.text, n, c);
    assert(get(h.r, T0) == flag(float_holds(pred, order)));
    lemma_store_result(text, ra, n, c, t, f, id, T0, W::B1);
    assert(put_lower_fcmp(st, f, id, pred, a, b) == put_store_result(t, f, id, T0, W::B1));
}

// ---- conversions, copies and memory --------------------------------------------------------

/// The word that a conversion to a word or less stores, from the word that holds its operand.
pub open spec fn converted(cop: CastOp, from: Ty, to: Ty, x: u32) -> u32 {
    match cop {
        CastOp::Sext => extended(width(from), true, x),
        CastOp::FpToSi => signed_part(x),
        CastOp::FpToUi => unsigned_part(x),
        CastOp::SiToFp => int_value(signed(extended(width(from), true, x))),
        CastOp::UiToFp => unsigned_value(x),
        _ => x,
    }
}

/// The width that a conversion reads its operand at.
pub open spec fn read_width(cop: CastOp, from: Ty, to: Ty) -> W {
    match cop {
        CastOp::Zext | CastOp::Sext | CastOp::SiToFp | CastOp::UiToFp => width(from),
        CastOp::FpToSi | CastOp::FpToUi => W::B4,
        _ => width(to),
    }
}

/// The width that a conversion stores its result at.
pub open spec fn result_width(cop: CastOp, to: Ty) -> W {
    match cop {
        CastOp::SiToFp | CastOp::UiToFp => W::B4,
        _ => width(to),
    }
}

/// The code of a conversion to a word or less stores its result in the cell of the instruction,
/// and writes nothing else.
pub proof fn law_narrow_conversion(
    text: Seq<Asm>,
    ra: u32,
    c: State,
    st: St,
    f: Function,
    id: InstId,
    cop: CastOp,
    from: Ty,
    v: ValRef,
    to: Ty,
)
    requires
        has_runtime(text),
        cop == CastOp::Zext || cop == CastOp::Sext || cop == CastOp::Bitcast ==> !wide_ty(to),
        cop == CastOp::Bitcast ==> !wide_ty(from),
    ensures
        ({
            let d = after(
                text,
                ra,
                put_lower_cast(st, f, id, cop, from, v, to).text,
                st.text.len(),
                c,
            );
            let x = read(c.m, cell(c, home_of(f, v)), read_width(cop, from, to));
            &&& d.m == written(
                c.m,
                cell(c, inst_home(f, id)),
                result_width(cop, to),
                converted(cop, from, to, x),
            )
            &&& get(d.r, SP) == get(c.r, SP)
        }),
{
    broadcast use lemma_after_push;

    let n = st.text.len();
    let w = read_width(cop, from, to);
    let sign = cop == CastOp::Sext || cop == CastOp::SiToFp;
    let by_call = cop == CastOp::FpToSi || cop == CastOp::FpToUi || cop == CastOp::SiToFp || cop
        == CastOp::UiToFp;
    let reg = if by_call {
        A0
    } else {
        T0
    };
    let p = put_reload(st, f, v, reg, w, sign);
    lemma_reload(text, ra, n, c, st, f, v, reg, w, sign);
    let e = after(text, ra, p.text, n, c);
    let name = match cop {
        CastOp::FpToSi => "__sf_f32_to_i32"@,
        CastOp::FpToUi => "__sf_f32_to_u32"@,
        CastOp::SiToFp => "__sf_i32_to_f32"@,
        _ => "__sf_u32_to_f32"@,
    };
    let r = wrote(e.r, RA, ra);
    if cop == CastOp::FpToSi {
        lemma_called(text, name, |s: Regs| signed_part(get(s, A0)), r);
    } else if cop == CastOp::FpToUi {
        lemma_called(text, name, |s: Regs| unsigned_part(get(s, A0)), r);
    } else if cop == CastOp::SiToFp {
        lemma_called(text, name, |s: Regs| int_value(signed(get(s, A0))), r);
    } else if cop == CastOp::UiToFp {
        lemma_called(text, name, |s: Regs| unsigned_value(get(s, A0)), r);
    }
    let t = if by_call {
        put(p, Asm::Jal(RA, name))
    } else {
        p
    };
    lemma_store_result(text, ra, n, c, t, f, id, reg, result_width(cop, to));
    assert(put_lower_cast(st, f, id, cop, from, v, to) == put_store_result(
        t,
        f,
        id,
        reg,
        result_width(cop, to),
    ));
}

/// The code of an extension to two words stores both in the cell of the instruction, and writes
/// nothing else. The high word is zero, or the sign.
pub proof fn law_wide_extension(
    text: Seq<Asm>,
    ra: u32,
    c: State,
    st: St,
    f: Function,
    id: InstId,
    cop: CastOp,
    from: Ty,
    v: ValRef,
    to: Ty,
)
    requires
        wide_ty(to),
        cop == CastOp::Zext || cop == CastOp::Sext,
    ensures
        ({
            let d = after(
                text,
                ra,
                put_lower_cast(st, f, id, cop, from, v, to).text,
                st.text.len(),
                c,
            );
            let x = read(c.m, cell(c, home_of(f, v)), width(from));
            let lo = extended(width(from), cop == CastOp::Sext, x);
            let hi = if cop == CastOp::Sext && signed(lo) < 0 {
                0xFFFF_FFFFu32
            } else {
                0
            };
            &&& d.m == written_wide(c.m, cell(c, inst_home(f, id)), lo, hi)
            &&& get(d.r, SP) == get(c.r, SP)
        }),
{
    broadcast use lemma_after_push;

    let n = st.text.len();
    let sign = cop == CastOp::Sext;
    let p = put_reload(st, f, v, T0, width(from), sign);
    lemma_reload(text, ra, n, c, st, f, v, T0, width(from), sign);
    let e = after(text, ra, p.text, n, c);
    lemma2_to64();
    if sign {
        let t = put(p, Asm::Shift(ShiftOp::Srai, T1, T0, 31));
        let g = after(text, ra, t.text, n, c);
        lemma_sign_word(get(e.r, T0));
        lemma_store_result_wide(text, ra, n, c, t, f, id, T0, T1);
    } else {
        lemma_store_result_wide(text, ra, n, c, p, f, id, T0, ZERO);
    }
}

proof fn lemma_sign_word(x: u32)
    ensures
        shift(ShiftOp::Srai, x, 31) == if signed(x) < 0 {
            0xFFFF_FFFFu32
        } else {
            0
        },
{
    lemma2_to64();
    let s = signed(x);
    if s < 0 {
        lemma_fundamental_div_mod_converse(s, 0x8000_0000, -1, s + 0x8000_0000);
    } else {
        lemma_fundamental_div_mod_converse(s, 0x8000_0000, 0, s);
    }
}

/// The code of a load copies what the pointer points to into the cell of the instruction, and
/// writes nothing else.
pub proof fn law_load(
    text: Seq<Asm>,
    ra: u32,
    c: State,
    st: St,
    f: Function,
    id: InstId,
    ptr: ValRef,
    ty: Ty,
)
    ensures
        ({
            let d = after(text, ra, put_lower_load(st, f, id, ptr, ty).text, st.text.len(), c);
            let at = read(c.m, cell(c, home_of(f, ptr)), W::B4);
            let home = cell(c, inst_home(f, id));
            &&& d.m == if wide_ty(ty) {
                written_wide(c.m, home, read(c.m, at, W::B4), read(c.m, sum(at, 4), W::B4))
            } else {
                written(c.m, home, width(ty), read(c.m, at, width(ty)))
            }
            &&& get(d.r, SP) == get(c.r, SP)
        }),
{
    broadcast use lemma_after_push;

    let n = st.text.len();
    let p = put_reload(st, f, ptr, T4, W::B4, false);
    lemma_reload(text, ra, n, c, st, f, ptr, T4, W::B4, false);
    let e = after(text, ra, p.text, n, c);
    if wide_ty(ty) {
        let q = put(p, Asm::Load(LoadOp::Lw, T0, 0, T4));
        let t = put(q, Asm::Load(LoadOp::Lw, T1, 4, T4));
        lemma_store_result_wide(text, ra, n, c, t, f, id, T0, T1);
    } else {
        let t = put_load_from(p, f, T0, T4, width(ty), false);
        let g = after(text, ra, t.text, n, c);
        assert(get(g.r, T0) == read(c.m, get(e.r, T4), width(ty)));
        lemma_store_result(text, ra, n, c, t, f, id, T0, width(ty));
    }
}

/// The code of a store copies the cell of the value to where the pointer points, and writes
/// nothing else.
pub proof fn law_store(
    text: Seq<Asm>,
    ra: u32,
    c: State,
    st: St,
    f: Function,
    ptr: ValRef,
    val: ValRef,
    ty: Ty,
)
    ensures
        ({
            let d = after(text, ra, put_lower_store(st, f, ptr, val, ty).text, st.text.len(), c);
            let at = read(c.m, cell(c, home_of(f, ptr)), W::B4);
            let from = cell(c, home_of(f, val));
            &&& d.m == if wide_ty(ty) {
                written_wide(c.m, at, read(c.m, from, W::B4), read(c.m, sum(from, 4), W::B4))
            } else {
                written(c.m, at, width(ty), read(c.m, from, width(ty)))
            }
            &&& get(d.r, SP) == get(c.r, SP)
        }),
{
    broadcast use lemma_after_push;

    let n = st.text.len();
    if wide_ty(ty) {
        let p = put_reload_wide(st, f, val, T0, T1);
        lemma_reload_wide(text, ra, n, c, st, f, val, T0, T1);
        lemma_reload(text, ra, n, c, p, f, ptr, T4, W::B4, false);
        let q = put_reload(p, f, ptr, T4, W::B4, false);
        let e = after(text, ra, q.text, n, c);
        assert(q.text.len() >= n);
    } else {
        let w = width(ty);
        let p = put_reload(st, f, val, T0, w, false);
        lemma_reload(text, ra, n, c, st, f, val, T0, w, false);
        lemma_reload(text, ra, n, c, p, f, ptr, T4, W::B4, false);
        let q = put_reload(p, f, ptr, T4, W::B4, false);
        let e = after(text, ra, q.text, n, c);
        assert(q.text.len() >= n);
    }
}

/// The code of an integer constant stores its low word, or its two words, in the cell of the
/// instruction, and writes nothing else. A pointer to local memory is the address of its cell.
pub proof fn law_constant(
    text: Seq<Asm>,
    ra: u32,
    c: State,
    st: St,
    f: Function,
    id: InstId,
    v: i64,
    ty: Ty,
)
    ensures
        ({
            let d = after(
                text,
                ra,
                put_lower_const_int(st, f, id, v, ty).text,
                st.text.len(),
                c,
            );
            let home = cell(c, inst_home(f, id));
            let lo = word(spec_low_word(v));
            &&& d.m == match ty {
                Ty::Ptr(space) if spec_local_like(space) => written(
                    c.m,
                    home,
                    W::B4,
                    cell(c, const_home(f, (spec_space_tag(space), v))),
                ),
                _ => if wide_ty(ty) {
                    written_wide(c.m, home, lo, word(spec_high_word(v)))
                } else {
                    written(c.m, home, width(ty), lo)
                },
            }
            &&& get(d.r, SP) == get(c.r, SP)
        }),
{
    broadcast use lemma_after_push;

    let n = st.text.len();
    let local = match ty {
        Ty::Ptr(space) => spec_local_like(space),
        _ => false,
    };
    if local {
        let space = ty->Ptr_0;
        let t = put_frame_addr(st, f, T0, const_home(f, (spec_space_tag(space), v)));
        let g = after(text, ra, t.text, n, c);
        lemma_store_result(text, ra, n, c, t, f, id, T0, W::B4);
    } else if wide_ty(ty) {
        let t = put(put(st, Asm::Li(T0, spec_low_word(v))), Asm::Li(T1, spec_high_word(v)));
        lemma_store_result_wide(text, ra, n, c, t, f, id, T0, T1);
    } else {
        let t = put(st, Asm::Li(T0, spec_low_word(v)));
        lemma_store_result(text, ra, n, c, t, f, id, T0, width(ty));
    }
}

/// The code of a floating-point constant stores its bit pattern in the cell of the instruction,
/// and writes nothing else.
pub proof fn law_float_constant(
    text: Seq<Asm>,
    ra: u32,
    c: State,
    st: St,
    f: Function,
    id: InstId,
    v: FloatConst,
    ty: Ty,
)
    ensures
        ({
            let d = after(
                text,
                ra,
                put_lower_const_float(st, f, id, v, ty).text,
                st.text.len(),
                c,
            );
            let home = cell(c, inst_home(f, id));
            &&& d.m == if f64_ty(ty) {
                written_wide(
                    c.m,
                    home,
                    (v.double % 0x1_0000_0000) as u32,
                    (v.double / 0x1_0000_0000) as u32,
                )
            } else {
                written(c.m, home, W::B4, v.single)
            }
            &&& get(d.r, SP) == get(c.r, SP)
        }),
{
    broadcast use lemma_after_push;

    reveal(low_i32);
    let n = st.text.len();
    if f64_ty(ty) {
        let p = put(st, Asm::Li(T0, spec_low_half(v.double)));
        let t = put(p, Asm::Li(T1, spec_high_half(v.double)));
        lemma_store_result_wide(text, ra, n, c, t, f, id, T0, T1);
    } else {
        let t = put(st, Asm::Li(T0, spec_as_word(v.single)));
        lemma_store_result(text, ra, n, c, t, f, id, T0, W::B4);
    }
}

/// The code of a thread number or count stores what its home in the frame holds in the cell of the
/// instruction, and writes nothing else.
pub proof fn law_index(
    text: Seq<Asm>,
    ra: u32,
    c: State,
    st: St,
    f: Function,
    id: InstId,
    home: int,
    ty: Ty,
)
    ensures
        ({
            let d = after(
                text,
                ra,
                put_lower_reload_dyn(st, f, id, home, ty).text,
                st.text.len(),
                c,
            );
            &&& d.m == written(
                c.m,
                cell(c, inst_home(f, id)),
                width(ty),
                read(c.m, cell(c, home), W::B4),
            )
            &&& get(d.r, SP) == get(c.r, SP)
        }),
{
    broadcast use lemma_after_push;

    let p = put_frame_addr(st, f, T0, home);
    let t = put(p, Asm::Load(LoadOp::Lw, T0, 0, T0));
    lemma_store_result(text, ra, st.text.len(), c, t, f, id, T0, width(ty));
}

/// The code of a bit cast of two words copies them to the cell of the instruction, and writes
/// nothing else.
pub proof fn law_wide_bitcast(
    text: Seq<Asm>,
    ra: u32,
    c: State,
    st: St,
    f: Function,
    id: InstId,
    from: Ty,
    v: ValRef,
    to: Ty,
)
    requires
        wide_ty(from) || wide_ty(to),
    ensures
        ({
            let d = after(
                text,
                ra,
                put_lower_cast(st, f, id, CastOp::Bitcast, from, v, to).text,
                st.text.len(),
                c,
            );
            let x = cell(c, home_of(f, v));
            &&& d.m == written_wide(
                c.m,
                cell(c, inst_home(f, id)),
                read(c.m, x, W::B4),
                read(c.m, sum(x, 4), W::B4),
            )
            &&& get(d.r, SP) == get(c.r, SP)
        }),
{
    let n = st.text.len();
    lemma_reload_wide(text, ra, n, c, st, f, v, T0, T1);
    lemma_store_result_wide(text, ra, n, c, put_reload_wide(st, f, v, T0, T1), f, id, T0, T1);
}

} // verus!
