//! What the code of an atomic instruction does: it reads a value, replaces it by another, and
//! stores the old one in its own cell of the frame. One thread runs at a time, so nothing happens
//! between the two.

use vstd::prelude::*;

use crate::bir::{AtomicOp, BinOp, Function, InstId, Ty, ValRef};
use crate::rv::check::{float_ty, wide_ty};
use crate::rv::enc::{
    mv_asm, signed, unique_labels, AluOp, Asm, BCond, LoadOp, StoreOp, A0, A1, A2, A3, RA, SP, T0,
    T1, T2, T3, T4, T5, T6, ZERO,
};
use crate::rv::exec::{
    after, apart, cell, exec, extended, float_value, law_word_is_read_back, law_words_are_apart,
    lemma_after_push, lemma_called, lemma_flag_bits, lemma_reload, lemma_reload_wide, lemma_routine,
    lemma_stash, lemma_store_result, lemma_store_result_wide, lemma_unstash, lemma_wide_sum, read,
    wide_value, written, written_wide, Mem, State,
};
use crate::rv::flow::{
    goes, lemma_branches, lemma_jumps, lemma_label_only, lemma_next, lemma_or_is_zero,
    lemma_starts_front, lemma_starts_prefix, lemma_straight, lemma_straight_push, lemma_through,
    lemma_words_less, signed_words, starts, straight,
};
use crate::rv::lower::{
    fresh_name, home_of, inst_home, put, put_load_from, put_lower_atomic, put_lower_atomic_cas,
    put_lower_atomic_f32, put_lower_atomic_i64, put_reload, put_reload_wide, put_stash,
    put_store_result, put_store_result_wide, put_store_to, put_unstash, scratch, width, St, W,
};
use crate::rv::machine::{alu, flag, get, sum, word, wrote, Regs};
use crate::rv::softfloat_ref::order_code;
use crate::rv::softfloat_run::has_runtime;

verus! {

broadcast use crate::rv::machine::group_machine;

/// What an atomic operation on integers of a word or less replaces a value by, from the words
/// that hold the old value and the operand.
pub open spec fn atomic_value(op: AtomicOp, x: u32, y: u32) -> u32 {
    match op {
        AtomicOp::Add => alu(AluOp::Add, x, y),
        AtomicOp::Sub => alu(AluOp::Sub, x, y),
        AtomicOp::And => alu(AluOp::And, x, y),
        AtomicOp::Or => alu(AluOp::Or, x, y),
        AtomicOp::Xor => alu(AluOp::Xor, x, y),
        AtomicOp::Exch => y,
        AtomicOp::Min => if signed(y) < signed(x) {
            y
        } else {
            x
        },
        AtomicOp::Max => if signed(x) < signed(y) {
            y
        } else {
            x
        },
    }
}

/// Whether an atomic operation on integers of a word or less took one state to another: it
/// replaced what the pointer points to, stored the old value in the cell of the instruction, and
/// wrote nothing else.
pub open spec fn narrow_replaced(
    f: Function,
    id: InstId,
    op: AtomicOp,
    ptr: ValRef,
    val: ValRef,
    ty: Ty,
    c: State,
    d: State,
) -> bool {
    let w = width(ty);
    let at = read(c.m, cell(c, home_of(f, ptr)), W::B4);
    let x = extended(w, true, read(c.m, at, w));
    let y = extended(
        w,
        op == AtomicOp::Min || op == AtomicOp::Max,
        read(c.m, cell(c, home_of(f, val)), w),
    );
    &&& d.m == written(
        written(c.m, at, w, atomic_value(op, x, y)),
        cell(c, inst_home(f, id)),
        w,
        x,
    )
    &&& get(d.r, SP) == get(c.r, SP)
}

/// The operand and the old value in registers, with the address.
proof fn lemma_narrow_loaded(
    text: Seq<Asm>,
    ra: u32,
    c: State,
    st: St,
    f: Function,
    ptr: ValRef,
    val: ValRef,
    w: W,
    sign: bool,
) -> (q: St)
    ensures
        q == put(
            put_load_from(
                put_reload(put_reload(st, f, val, T0, w, sign), f, ptr, T4, W::B4, false),
                f,
                T1,
                T4,
                w,
                true,
            ),
            mv_asm(T5, T1),
        ),
        q.text.len() >= st.text.len(),
        straight(q.text, st.text.len()),
        ({
            let e = after(text, ra, q.text, st.text.len(), c);
            let at = read(c.m, cell(c, home_of(f, ptr)), W::B4);
            &&& e.m == c.m
            &&& get(e.r, SP) == get(c.r, SP)
            &&& get(e.r, T0) == extended(w, sign, read(c.m, cell(c, home_of(f, val)), w))
            &&& get(e.r, T4) == at
            &&& get(e.r, T1) == extended(w, true, read(c.m, at, w))
            &&& get(e.r, T5) == extended(w, true, read(c.m, at, w))
        }),
{
    broadcast use {lemma_after_push, lemma_straight_push};

    let n = st.text.len();
    assert(straight(st.text, n));
    let p = put_reload(st, f, val, T0, w, sign);
    lemma_reload(text, ra, n, c, st, f, val, T0, w, sign);
    let p2 = put_reload(p, f, ptr, T4, W::B4, false);
    lemma_reload(text, ra, n, c, p, f, ptr, T4, W::B4, false);
    let e2 = after(text, ra, p2.text, n, c);
    let p3 = put_load_from(p2, f, T1, T4, w, true);
    let e3 = after(text, ra, p3.text, n, c);
    assert(get(e3.r, T1) == extended(w, true, read(c.m, get(e2.r, T4), w)));
    put(p3, mv_asm(T5, T1))
}

/// The new value to memory, and the old one to the cell of the instruction.
proof fn lemma_narrow_stored(
    text: Seq<Asm>,
    ra: u32,
    from: nat,
    c: State,
    st: St,
    f: Function,
    id: InstId,
    src: u8,
    old_reg: u8,
    w: W,
)
    requires
        from <= st.text.len(),
        straight(st.text, from),
        src != T4 && old_reg != T4,
    ensures
        ({
            let b = after(text, ra, st.text, from, c);
            let t = put_store_result(put_store_to(st, f, src, T4, w), f, id, old_reg, w);
            let d = after(text, ra, t.text, from, c);
            &&& straight(t.text, from)
            &&& t.text.len() >= st.text.len()
            &&& t.text.take(st.text.len() as int) == st.text
            &&& d.m == written(
                written(b.m, get(b.r, T4), w, get(b.r, src)),
                cell(b, inst_home(f, id)),
                w,
                get(b.r, old_reg),
            )
            &&& get(d.r, SP) == get(b.r, SP)
        }),
{
    broadcast use {lemma_after_push, lemma_straight_push};

    let p = put_store_to(st, f, src, T4, w);
    lemma_store_result(text, ra, from, c, p, f, id, old_reg, w);
    let t = put_store_result(p, f, id, old_reg, w);
    assert(t.text.take(st.text.len() as int) =~= st.text);
}

/// The one line of an operation that does not choose.
spec fn plain_line(op: AtomicOp) -> Asm {
    match op {
        AtomicOp::Add => Asm::Alu(AluOp::Add, T1, T1, T0),
        AtomicOp::Sub => Asm::Alu(AluOp::Sub, T1, T1, T0),
        AtomicOp::And => Asm::Alu(AluOp::And, T1, T1, T0),
        AtomicOp::Or => Asm::Alu(AluOp::Or, T1, T1, T0),
        AtomicOp::Xor => Asm::Alu(AluOp::Xor, T1, T1, T0),
        _ => mv_asm(T1, T0),
    }
}

proof fn lemma_narrow_plain(
    text: Seq<Asm>,
    ra: u32,
    c: State,
    st: St,
    f: Function,
    id: InstId,
    op: AtomicOp,
    ptr: ValRef,
    val: ValRef,
    ty: Ty,
) -> (d: State)
    requires
        unique_labels(text),
        starts(text, put_lower_atomic(st, f, id, op, ptr, val, ty).text),
        !float_ty(ty) && !wide_ty(ty),
        op != AtomicOp::Min && op != AtomicOp::Max,
    ensures
        goes(
            text,
            ra,
            st.text.len() as int,
            c,
            put_lower_atomic(st, f, id, op, ptr, val, ty).text.len() as int,
            d,
        ),
        narrow_replaced(f, id, op, ptr, val, ty, c, d),
{
    let n = st.text.len();
    let w = width(ty);
    let v = put_lower_atomic(st, f, id, op, ptr, val, ty);
    let q = lemma_narrow_loaded(text, ra, c, st, f, ptr, val, w, false);
    let q1 = put(q, plain_line(op));
    lemma_after_push(text, ra, q.text, plain_line(op), n, c);
    lemma_straight_push(q.text, plain_line(op), n);
    assert(v == put_store_result(put_store_to(q1, f, T1, T4, w), f, id, T5, w));
    lemma_narrow_stored(text, ra, n, c, q1, f, id, T1, T5, w);
    lemma_through(text, ra, c, st.text, v.text);
    after(text, ra, v.text, n, c)
}

/// Whether the operand is chosen.
spec fn choice_line(op: AtomicOp) -> Asm {
    if op == AtomicOp::Min {
        Asm::Alu(AluOp::Slt, T2, T0, T1)
    } else {
        Asm::Alu(AluOp::Slt, T2, T1, T0)
    }
}

proof fn lemma_narrow_choice(
    text: Seq<Asm>,
    ra: u32,
    c: State,
    st: St,
    f: Function,
    id: InstId,
    op: AtomicOp,
    ptr: ValRef,
    val: ValRef,
    ty: Ty,
) -> (d: State)
    requires
        unique_labels(text),
        starts(text, put_lower_atomic(st, f, id, op, ptr, val, ty).text),
        !float_ty(ty) && !wide_ty(ty),
        op == AtomicOp::Min || op == AtomicOp::Max,
    ensures
        goes(
            text,
            ra,
            st.text.len() as int,
            c,
            put_lower_atomic(st, f, id, op, ptr, val, ty).text.len() as int,
            d,
        ),
        narrow_replaced(f, id, op, ptr, val, ty, c, d),
{
    let n = st.text.len();
    let w = width(ty);
    let v = put_lower_atomic(st, f, id, op, ptr, val, ty);
    let q = lemma_narrow_loaded(text, ra, c, st, f, ptr, val, w, true);
    let skip = fresh_name("atomic_minmax_skip"@, q.labels + 1);
    let q1 = put(St { labels: q.labels + 1, ..q }, choice_line(op));
    let q2 = put(q1, Asm::Branch(BCond::Eq, T2, ZERO, skip));
    let q3 = put(q2, mv_asm(T1, T0));
    let q4 = put(q3, Asm::Label(skip));
    let from = q3.text.len();
    lemma_after_push(text, ra, q.text, choice_line(op), n, c);
    lemma_straight_push(q.text, choice_line(op), n);
    let e1 = after(text, ra, q1.text, n, c);
    assert(v == put_store_result(put_store_to(q4, f, T1, T4, w), f, id, T5, w));
    assert(v.text.take(q4.text.len() as int) =~= q4.text);
    lemma_starts_prefix(text, v.text, q4.text);
    lemma_starts_front(text, q3.text, Asm::Label(skip));
    lemma_starts_front(text, q2.text, mv_asm(T1, T0));
    lemma_starts_front(text, q1.text, Asm::Branch(BCond::Eq, T2, ZERO, skip));
    lemma_through(text, ra, c, st.text, q1.text);
    lemma_branches(text, ra, n as int, c, q1.text.len() as int, e1, from as int);
    let e2 = if get(e1.r, T2) != 0 {
        let e2 = exec(text, ra, mv_asm(T1, T0), e1);
        lemma_next(text, ra, n as int, c, q2.text.len() as int, e1, from as int, e2);
        e2
    } else {
        e1
    };
    lemma_label_only(text, ra, e2, q3, skip);
    lemma_narrow_stored(text, ra, from, e2, q4, f, id, T1, T5, w);
    lemma_straight(text, ra, n as int, c, from, e2, v.text);
    after(text, ra, v.text, from, e2)
}

/// The code of an atomic operation on integers of a word or less does it, and control is then
/// behind it.
pub proof fn law_narrow_atomic(
    text: Seq<Asm>,
    ra: u32,
    c: State,
    st: St,
    f: Function,
    id: InstId,
    op: AtomicOp,
    ptr: ValRef,
    val: ValRef,
    ty: Ty,
) -> (d: State)
    requires
        unique_labels(text),
        starts(text, put_lower_atomic(st, f, id, op, ptr, val, ty).text),
        !float_ty(ty) && !wide_ty(ty),
    ensures
        goes(
            text,
            ra,
            st.text.len() as int,
            c,
            put_lower_atomic(st, f, id, op, ptr, val, ty).text.len() as int,
            d,
        ),
        narrow_replaced(f, id, op, ptr, val, ty, c, d),
{
    if op == AtomicOp::Min || op == AtomicOp::Max {
        lemma_narrow_choice(text, ra, c, st, f, id, op, ptr, val, ty)
    } else {
        lemma_narrow_plain(text, ra, c, st, f, id, op, ptr, val, ty)
    }
}

/// Whether a compare and swap on a word or less took one state to another: it stored the new value
/// where the pointer points if the expected one was there, stored the old value in the cell of the
/// instruction, and wrote nothing else.
pub open spec fn narrow_swapped(
    f: Function,
    id: InstId,
    ptr: ValRef,
    expect: ValRef,
    newv: ValRef,
    ty: Ty,
    c: State,
    d: State,
) -> bool {
    let w = width(ty);
    let at = read(c.m, cell(c, home_of(f, ptr)), W::B4);
    let x = read(c.m, at, w);
    let m = if x == read(c.m, cell(c, home_of(f, expect)), w) {
        written(c.m, at, w, read(c.m, cell(c, home_of(f, newv)), w))
    } else {
        c.m
    };
    &&& d.m == written(m, cell(c, inst_home(f, id)), w, x)
    &&& get(d.r, SP) == get(c.r, SP)
}

/// The code of a compare and swap on a word or less does it, and control is then behind it.
pub proof fn law_narrow_swap(
    text: Seq<Asm>,
    ra: u32,
    c: State,
    st: St,
    f: Function,
    id: InstId,
    ptr: ValRef,
    expect: ValRef,
    newv: ValRef,
    ty: Ty,
) -> (d: State)
    requires
        unique_labels(text),
        starts(text, put_lower_atomic_cas(st, f, id, ptr, expect, newv, ty).text),
        !wide_ty(ty),
    ensures
        goes(
            text,
            ra,
            st.text.len() as int,
            c,
            put_lower_atomic_cas(st, f, id, ptr, expect, newv, ty).text.len() as int,
            d,
        ),
        narrow_swapped(f, id, ptr, expect, newv, ty, c, d),
{
    broadcast use {lemma_after_push, lemma_straight_push};

    let n = st.text.len();
    let w = width(ty);
    let v = put_lower_atomic_cas(st, f, id, ptr, expect, newv, ty);
    assert(straight(st.text, n));
    let p1 = put_reload(st, f, expect, T0, w, false);
    lemma_reload(text, ra, n, c, st, f, expect, T0, w, false);
    let p2 = put_reload(p1, f, newv, T1, w, false);
    lemma_reload(text, ra, n, c, p1, f, newv, T1, w, false);
    let p3 = put_reload(p2, f, ptr, T4, W::B4, false);
    lemma_reload(text, ra, n, c, p2, f, ptr, T4, W::B4, false);
    let e3 = after(text, ra, p3.text, n, c);
    let p4 = put_load_from(p3, f, T2, T4, w, false);
    let e4 = after(text, ra, p4.text, n, c);
    assert(get(e4.r, T2) == read(c.m, get(e3.r, T4), w));
    assert(straight(p4.text, n));
    let mismatch = fresh_name("cas_mismatch"@, p4.labels + 1);
    let p5 = put(
        St { labels: p4.labels + 1, ..p4 },
        Asm::Branch(BCond::Ne, T2, T0, mismatch),
    );
    let p6 = put_store_to(p5, f, T1, T4, w);
    let p7 = put(p6, Asm::Label(mismatch));
    assert(v == put_store_result(p7, f, id, T2, w));
    assert(v.text.take(p7.text.len() as int) =~= p7.text);
    lemma_starts_prefix(text, v.text, p7.text);
    lemma_starts_front(text, p6.text, Asm::Label(mismatch));
    assert(p6.text.drop_last() =~= p5.text);
    assert(p6.text =~= p5.text.push(p6.text.last()));
    lemma_starts_front(text, p5.text, p6.text.last());
    lemma_starts_front(text, p4.text, Asm::Branch(BCond::Ne, T2, T0, mismatch));
    lemma_through(text, ra, c, st.text, p4.text);
    let from = p6.text.len();
    lemma_branches(text, ra, n as int, c, p4.text.len() as int, e4, from as int);
    let e6 = if get(e4.r, T2) == get(e4.r, T0) {
        let e6 = exec(text, ra, p6.text.last(), e4);
        lemma_next(text, ra, n as int, c, p5.text.len() as int, e4, from as int, e6);
        e6
    } else {
        e4
    };
    lemma_label_only(text, ra, e6, p6, mismatch);
    lemma_store_result(text, ra, from, e6, p7, f, id, T2, w);
    assert(straight(v.text, from));
    lemma_straight(text, ra, n as int, c, from, e6, v.text);
    after(text, ra, v.text, from, e6)
}

// ---- two words -----------------------------------------------------------------------------

/// Whether a compare and swap on two words took one state to another.
pub open spec fn wide_swapped(
    f: Function,
    id: InstId,
    ptr: ValRef,
    expect: ValRef,
    newv: ValRef,
    c: State,
    d: State,
) -> bool {
    let at = read(c.m, cell(c, home_of(f, ptr)), W::B4);
    let (xl, xh) = (read(c.m, at, W::B4), read(c.m, sum(at, 4), W::B4));
    let e = cell(c, home_of(f, expect));
    let v = cell(c, home_of(f, newv));
    let m = if xl == read(c.m, e, W::B4) && xh == read(c.m, sum(e, 4), W::B4) {
        written_wide(c.m, at, read(c.m, v, W::B4), read(c.m, sum(v, 4), W::B4))
    } else {
        c.m
    };
    &&& d.m == written_wide(m, cell(c, inst_home(f, id)), xl, xh)
    &&& get(d.r, SP) == get(c.r, SP)
}

/// Both operands and the old value in registers, and whether the swap is off in `a2`.
proof fn lemma_wide_swap_opened(
    text: Seq<Asm>,
    ra: u32,
    c: State,
    st: St,
    f: Function,
    ptr: ValRef,
    expect: ValRef,
    newv: ValRef,
) -> (q: St)
    ensures
        ({
            let p = put_reload_wide(st, f, expect, T0, T1);
            let p = put_reload_wide(p, f, newv, T2, T3);
            let p = put_reload(p, f, ptr, T4, W::B4, false);
            let p = put(p, Asm::Load(LoadOp::Lw, T5, 0, T4));
            let p = put(p, Asm::Load(LoadOp::Lw, T6, 4, T4));
            let p = put(p, Asm::Alu(AluOp::Xor, A2, T5, T0));
            let p = put(p, Asm::Alu(AluOp::Xor, A3, T6, T1));
            q == put(p, Asm::Alu(AluOp::Or, A2, A2, A3))
        }),
        q.text.len() >= st.text.len(),
        straight(q.text, st.text.len()),
        ({
            let e = after(text, ra, q.text, st.text.len(), c);
            let at = read(c.m, cell(c, home_of(f, ptr)), W::B4);
            let x = cell(c, home_of(f, expect));
            let v = cell(c, home_of(f, newv));
            &&& e.m == c.m
            &&& get(e.r, SP) == get(c.r, SP)
            &&& get(e.r, T2) == read(c.m, v, W::B4)
            &&& get(e.r, T3) == read(c.m, sum(v, 4), W::B4)
            &&& get(e.r, T4) == at
            &&& get(e.r, T5) == read(c.m, at, W::B4)
            &&& get(e.r, T6) == read(c.m, sum(at, 4), W::B4)
            &&& get(e.r, A2) == 0 <==> get(e.r, T5) == read(c.m, x, W::B4) && get(e.r, T6)
                == read(c.m, sum(x, 4), W::B4)
        }),
{
    broadcast use {lemma_after_push, lemma_straight_push};

    let n = st.text.len();
    assert(straight(st.text, n));
    let p1 = put_reload_wide(st, f, expect, T0, T1);
    lemma_reload_wide(text, ra, n, c, st, f, expect, T0, T1);
    let p2 = put_reload_wide(p1, f, newv, T2, T3);
    lemma_reload_wide(text, ra, n, c, p1, f, newv, T2, T3);
    let p3 = put_reload(p2, f, ptr, T4, W::B4, false);
    lemma_reload(text, ra, n, c, p2, f, ptr, T4, W::B4, false);
    assert(straight(p3.text, n));
    let p4 = put(p3, Asm::Load(LoadOp::Lw, T5, 0, T4));
    let p5 = put(p4, Asm::Load(LoadOp::Lw, T6, 4, T4));
    let e = after(text, ra, p5.text, n, c);
    lemma_flag_bits(get(e.r, T5), get(e.r, T0));
    lemma_flag_bits(get(e.r, T6), get(e.r, T1));
    lemma_or_is_zero(get(e.r, T5) ^ get(e.r, T0), get(e.r, T6) ^ get(e.r, T1));
    let p6 = put(p5, Asm::Alu(AluOp::Xor, A2, T5, T0));
    let p7 = put(p6, Asm::Alu(AluOp::Xor, A3, T6, T1));
    put(p7, Asm::Alu(AluOp::Or, A2, A2, A3))
}

/// The code of a compare and swap on two words does it, and control is then behind it.
pub proof fn law_wide_swap(
    text: Seq<Asm>,
    ra: u32,
    c: State,
    st: St,
    f: Function,
    id: InstId,
    ptr: ValRef,
    expect: ValRef,
    newv: ValRef,
    ty: Ty,
) -> (d: State)
    requires
        unique_labels(text),
        starts(text, put_lower_atomic_cas(st, f, id, ptr, expect, newv, ty).text),
        wide_ty(ty),
    ensures
        goes(
            text,
            ra,
            st.text.len() as int,
            c,
            put_lower_atomic_cas(st, f, id, ptr, expect, newv, ty).text.len() as int,
            d,
        ),
        wide_swapped(f, id, ptr, expect, newv, c, d),
{
    let n = st.text.len();
    let v = put_lower_atomic_cas(st, f, id, ptr, expect, newv, ty);
    let q = lemma_wide_swap_opened(text, ra, c, st, f, ptr, expect, newv);
    let e = after(text, ra, q.text, n, c);
    let mismatch = fresh_name("cas64_mismatch"@, q.labels + 1);
    let b1 = put(St { labels: q.labels + 1, ..q }, Asm::Branch(BCond::Ne, A2, ZERO, mismatch));
    let b2 = put(b1, Asm::Store(StoreOp::Sw, T2, 0, T4));
    let b3 = put(b2, Asm::Store(StoreOp::Sw, T3, 4, T4));
    let b4 = put(b3, Asm::Label(mismatch));
    assert(v == put_store_result_wide(b4, f, id, T5, T6));
    assert(v.text.take(b4.text.len() as int) =~= b4.text);
    lemma_starts_prefix(text, v.text, b4.text);
    lemma_starts_front(text, b3.text, Asm::Label(mismatch));
    lemma_starts_front(text, b2.text, Asm::Store(StoreOp::Sw, T3, 4, T4));
    lemma_starts_front(text, b1.text, Asm::Store(StoreOp::Sw, T2, 0, T4));
    lemma_starts_front(text, q.text, Asm::Branch(BCond::Ne, A2, ZERO, mismatch));
    lemma_through(text, ra, c, st.text, q.text);
    let from = b3.text.len();
    let at = q.text.len() as int;
    lemma_branches(text, ra, n as int, c, at, e, from as int);
    let g = if get(e.r, A2) == 0 {
        let e1 = exec(text, ra, Asm::Store(StoreOp::Sw, T2, 0, T4), e);
        lemma_next(text, ra, n as int, c, at + 1, e, at + 2, e1);
        let e2 = exec(text, ra, Asm::Store(StoreOp::Sw, T3, 4, T4), e1);
        lemma_next(text, ra, n as int, c, at + 2, e1, from as int, e2);
        e2
    } else {
        e
    };
    lemma_label_only(text, ra, g, b3, mismatch);
    lemma_store_result_wide(text, ra, from, g, b4, f, id, T5, T6);
    lemma_wide_result_is_straight(b4, f, id, T5, T6, from);
    lemma_straight(text, ra, n as int, c, from, g, v.text);
    after(text, ra, v.text, from, g)
}

proof fn lemma_wide_result_is_straight(st: St, f: Function, id: InstId, lo: u8, hi: u8, from: nat)
    requires
        from <= st.text.len(),
        straight(st.text, from),
    ensures
        straight(put_store_result_wide(st, f, id, lo, hi).text, from),
        put_store_result_wide(st, f, id, lo, hi).text.len() >= st.text.len(),
        put_store_result_wide(st, f, id, lo, hi).text.take(st.text.len() as int) == st.text,
{
    broadcast use lemma_straight_push;

    assert(put_store_result_wide(st, f, id, lo, hi).text.take(st.text.len() as int) =~= st.text);
}

/// The words that an atomic operation on two-word integers replaces the old ones by.
pub open spec fn wide_atomic_value(
    op: AtomicOp,
    xl: u32,
    xh: u32,
    yl: u32,
    yh: u32,
    lo: u32,
    hi: u32,
) -> bool {
    match op {
        AtomicOp::Add => wide_value(BinOp::Add, xl, xh, yl, yh, lo, hi),
        AtomicOp::Sub => wide_value(BinOp::Sub, xl, xh, yl, yh, lo, hi),
        AtomicOp::And => wide_value(BinOp::And, xl, xh, yl, yh, lo, hi),
        AtomicOp::Or => wide_value(BinOp::Or, xl, xh, yl, yh, lo, hi),
        AtomicOp::Xor => wide_value(BinOp::Xor, xl, xh, yl, yh, lo, hi),
        AtomicOp::Exch => lo == yl && hi == yh,
        AtomicOp::Min => if signed_words(xl, xh) < signed_words(yl, yh) {
            lo == xl && hi == xh
        } else {
            lo == yl && hi == yh
        },
        AtomicOp::Max => if signed_words(xl, xh) < signed_words(yl, yh) {
            lo == yl && hi == yh
        } else {
            lo == xl && hi == xh
        },
    }
}

/// Whether a word shares no byte with the cells that the code of an atomic operation uses in
/// passing.
pub open spec fn clear(c: State, at: u32) -> bool {
    &&& apart(at, cell(c, scratch(0)))
    &&& apart(at, cell(c, scratch(1)))
}

/// Whether an atomic operation on two-word integers took one state to another: it replaced what
/// the pointer points to by the words, stored the old value in the cell of the instruction, and
/// wrote nothing else but two cells that are for passing use.
pub open spec fn wide_replaced(
    f: Function,
    id: InstId,
    op: AtomicOp,
    ptr: ValRef,
    val: ValRef,
    c: State,
    d: State,
    words: (u32, u32),
) -> bool {
    let at = read(c.m, cell(c, home_of(f, ptr)), W::B4);
    let y = cell(c, home_of(f, val));
    let (xl, xh) = (read(c.m, at, W::B4), read(c.m, sum(at, 4), W::B4));
    let m1 = written(c.m, cell(c, scratch(0)), W::B4, xl);
    let m2 = written(m1, cell(c, scratch(1)), W::B4, xh);
    let m3 = written_wide(m2, at, words.0, words.1);
    &&& wide_atomic_value(
        op,
        xl,
        xh,
        read(c.m, y, W::B4),
        read(c.m, sum(y, 4), W::B4),
        words.0,
        words.1,
    )
    &&& d.m == written_wide(m3, cell(c, inst_home(f, id)), xl, xh)
    &&& get(d.r, SP) == get(c.r, SP)
}

/// The text up to the operation: the operand is in `t0` and `t1`, the old value in `t2` and `t3`
/// and in the frame, and the address in `t4`.
spec fn wide_opened(st: St, f: Function, ptr: ValRef, val: ValRef) -> St {
    let p = put_reload_wide(st, f, val, T0, T1);
    let p = put_reload(p, f, ptr, T4, W::B4, false);
    let p = put(p, Asm::Load(LoadOp::Lw, T2, 0, T4));
    let p = put(p, Asm::Load(LoadOp::Lw, T3, 4, T4));
    put_stash(put_stash(p, f, scratch(0), T2), f, scratch(1), T3)
}

proof fn lemma_wide_opened(
    text: Seq<Asm>,
    ra: u32,
    c: State,
    st: St,
    f: Function,
    ptr: ValRef,
    val: ValRef,
)
    ensures
        ({
            let q = wide_opened(st, f, ptr, val);
            let e = after(text, ra, q.text, st.text.len(), c);
            let at = read(c.m, cell(c, home_of(f, ptr)), W::B4);
            let y = cell(c, home_of(f, val));
            let (xl, xh) = (read(c.m, at, W::B4), read(c.m, sum(at, 4), W::B4));
            let m1 = written(c.m, cell(c, scratch(0)), W::B4, xl);
            &&& q.text.len() >= st.text.len()
            &&& straight(q.text, st.text.len())
            &&& e.m == written(m1, cell(c, scratch(1)), W::B4, xh)
            &&& get(e.r, SP) == get(c.r, SP)
            &&& get(e.r, T0) == read(c.m, y, W::B4)
            &&& get(e.r, T1) == read(c.m, sum(y, 4), W::B4)
            &&& get(e.r, T2) == xl
            &&& get(e.r, T3) == xh
            &&& get(e.r, T4) == at
        }),
{
    broadcast use {lemma_after_push, lemma_straight_push};

    let n = st.text.len();
    assert(straight(st.text, n));
    let p1 = put_reload_wide(st, f, val, T0, T1);
    lemma_reload_wide(text, ra, n, c, st, f, val, T0, T1);
    let p2 = put_reload(p1, f, ptr, T4, W::B4, false);
    lemma_reload(text, ra, n, c, p1, f, ptr, T4, W::B4, false);
    assert(straight(p2.text, n));
    let p3 = put(p2, Asm::Load(LoadOp::Lw, T2, 0, T4));
    let p4 = put(p3, Asm::Load(LoadOp::Lw, T3, 4, T4));
    let p5 = put_stash(p4, f, scratch(0), T2);
    lemma_stash(text, ra, n, c, p4, f, scratch(0), T2);
    lemma_stash(text, ra, n, c, p5, f, scratch(1), T3);
}

/// The text behind the operation.
spec fn wide_closed(st: St, f: Function, id: InstId) -> St {
    let p = put(st, Asm::Store(StoreOp::Sw, T2, 0, T4));
    let p = put(p, Asm::Store(StoreOp::Sw, T3, 4, T4));
    let p = put_unstash(put_unstash(p, f, scratch(0), T0), f, scratch(1), T1);
    put_store_result_wide(p, f, id, T0, T1)
}

proof fn lemma_wide_closed(
    text: Seq<Asm>,
    ra: u32,
    from: nat,
    c: State,
    st: St,
    f: Function,
    id: InstId,
)
    requires
        from <= st.text.len(),
        straight(st.text, from),
    ensures
        ({
            let b = after(text, ra, st.text, from, c);
            let t = wide_closed(st, f, id);
            let d = after(text, ra, t.text, from, c);
            let m = written_wide(b.m, get(b.r, T4), get(b.r, T2), get(b.r, T3));
            &&& straight(t.text, from)
            &&& t.text.len() >= st.text.len()
            &&& t.text.take(st.text.len() as int) == st.text
            &&& d.m == written_wide(
                m,
                cell(b, inst_home(f, id)),
                read(m, cell(b, scratch(0)), W::B4),
                read(m, cell(b, scratch(1)), W::B4),
            )
            &&& get(d.r, SP) == get(b.r, SP)
        }),
{
    broadcast use {lemma_after_push, lemma_straight_push};

    let p1 = put(st, Asm::Store(StoreOp::Sw, T2, 0, T4));
    let p2 = put(p1, Asm::Store(StoreOp::Sw, T3, 4, T4));
    let p3 = put_unstash(p2, f, scratch(0), T0);
    lemma_unstash(text, ra, from, c, p2, f, scratch(0), T0);
    let p4 = put_unstash(p3, f, scratch(1), T1);
    lemma_unstash(text, ra, from, c, p3, f, scratch(1), T1);
    lemma_store_result_wide(text, ra, from, c, p4, f, id, T0, T1);
    let t = wide_closed(st, f, id);
    assert(t.text.take(st.text.len() as int) =~= st.text);
}

/// The lines of an operation that does not choose.
spec fn wide_plain(st: St, op: AtomicOp) -> St {
    match op {
        AtomicOp::Add => {
            let p = put(st, Asm::Alu(AluOp::Add, T5, T2, T0));
            let p = put(p, Asm::Alu(AluOp::Sltu, T6, T5, T2));
            let p = put(p, Asm::Alu(AluOp::Add, T3, T3, T1));
            let p = put(p, Asm::Alu(AluOp::Add, T3, T3, T6));
            put(p, mv_asm(T2, T5))
        },
        AtomicOp::Sub => {
            let p = put(st, Asm::Alu(AluOp::Sltu, T6, T2, T0));
            let p = put(p, Asm::Alu(AluOp::Sub, T5, T2, T0));
            let p = put(p, Asm::Alu(AluOp::Sub, T3, T3, T1));
            let p = put(p, Asm::Alu(AluOp::Sub, T3, T3, T6));
            put(p, mv_asm(T2, T5))
        },
        AtomicOp::And => put(
            put(st, Asm::Alu(AluOp::And, T2, T2, T0)),
            Asm::Alu(AluOp::And, T3, T3, T1),
        ),
        AtomicOp::Or => put(
            put(st, Asm::Alu(AluOp::Or, T2, T2, T0)),
            Asm::Alu(AluOp::Or, T3, T3, T1),
        ),
        AtomicOp::Xor => put(
            put(st, Asm::Alu(AluOp::Xor, T2, T2, T0)),
            Asm::Alu(AluOp::Xor, T3, T3, T1),
        ),
        _ => put(put(st, mv_asm(T2, T0)), mv_asm(T3, T1)),
    }
}

proof fn lemma_wide_plain(text: Seq<Asm>, ra: u32, from: nat, c: State, st: St, op: AtomicOp)
    requires
        from <= st.text.len(),
        straight(st.text, from),
        op != AtomicOp::Min && op != AtomicOp::Max,
    ensures
        ({
            let b = after(text, ra, st.text, from, c);
            let t = wide_plain(st, op);
            let d = after(text, ra, t.text, from, c);
            &&& straight(t.text, from)
            &&& t.text.len() >= st.text.len()
            &&& d.m == b.m
            &&& get(d.r, SP) == get(b.r, SP)
            &&& get(d.r, T4) == get(b.r, T4)
            &&& wide_atomic_value(
                op,
                get(b.r, T2),
                get(b.r, T3),
                get(b.r, T0),
                get(b.r, T1),
                get(d.r, T2),
                get(d.r, T3),
            )
        }),
{
    broadcast use {lemma_after_push, lemma_straight_push};

    let b = after(text, ra, st.text, from, c);
    lemma_wide_sum(get(b.r, T2), get(b.r, T3), get(b.r, T0), get(b.r, T1));
}

/// What was stashed outlives the store.
proof fn lemma_stashed(c: State, m: Mem, at: u32, xl: u32, xh: u32, lo: u32, hi: u32)
    requires
        clear(c, at),
        clear(c, sum(at, 4)),
        m == written(
            written(c.m, cell(c, scratch(0)), W::B4, xl),
            cell(c, scratch(1)),
            W::B4,
            xh,
        ),
    ensures
        read(written_wide(m, at, lo, hi), cell(c, scratch(0)), W::B4) == xl,
        read(written_wide(m, at, lo, hi), cell(c, scratch(1)), W::B4) == xh,
{
    let s0 = cell(c, scratch(0));
    let s1 = cell(c, scratch(1));
    let m1 = written(c.m, s0, W::B4, xl);
    law_word_is_read_back(c.m, s0, xl);
    law_words_are_apart(m1, s1, s0, xh);
    law_word_is_read_back(m1, s1, xh);
    let m2 = written(m, at, W::B4, lo);
    law_words_are_apart(m, at, s0, lo);
    law_words_are_apart(m, at, s1, lo);
    law_words_are_apart(m2, sum(at, 4), s0, hi);
    law_words_are_apart(m2, sum(at, 4), s1, hi);
}

/// The label behind the lines that compare, and that behind the lines that choose.
spec fn differ_label(q: St) -> Seq<char> {
    fresh_name("atomic64_minmax"@, q.labels + 1)
}

spec fn chosen_label(q: St) -> Seq<char> {
    fresh_name("atomic64_minmax_done"@, q.labels + 2)
}

spec fn keep_branch(op: AtomicOp, q: St) -> Asm {
    if op == AtomicOp::Min {
        Asm::Branch(BCond::Ne, T5, ZERO, chosen_label(q))
    } else {
        Asm::Branch(BCond::Eq, T5, ZERO, chosen_label(q))
    }
}

/// The nine lines of an operation that chooses.
proof fn lemma_wide_choice(
    text: Seq<Asm>,
    ra: u32,
    i: int,
    c: State,
    q: St,
    b: State,
    op: AtomicOp,
    v: Seq<Asm>,
) -> (e: State)
    requires
        unique_labels(text),
        op == AtomicOp::Min || op == AtomicOp::Max,
        starts(text, v),
        q.text.len() + 9 <= v.len(),
        goes(text, ra, i, c, q.text.len() as int, b),
        v[q.text.len() as int] == Asm::Alu(AluOp::Slt, T5, T3, T1),
        v[q.text.len() as int + 1] == Asm::Alu(AluOp::Xor, T6, T3, T1),
        v[q.text.len() as int + 2] == Asm::Branch(BCond::Ne, T6, ZERO, differ_label(q)),
        v[q.text.len() as int + 3] == Asm::Alu(AluOp::Sltu, T5, T2, T0),
        v[q.text.len() as int + 4] == Asm::Label(differ_label(q)),
        v[q.text.len() as int + 5] == keep_branch(op, q),
        v[q.text.len() as int + 6] == mv_asm(T2, T0),
        v[q.text.len() as int + 7] == mv_asm(T3, T1),
        v[q.text.len() as int + 8] == Asm::Label(chosen_label(q)),
    ensures
        goes(text, ra, i, c, q.text.len() as int + 9, e),
        e.m == b.m,
        get(e.r, SP) == get(b.r, SP),
        get(e.r, T4) == get(b.r, T4),
        wide_atomic_value(
            op,
            get(b.r, T2),
            get(b.r, T3),
            get(b.r, T0),
            get(b.r, T1),
            get(e.r, T2),
            get(e.r, T3),
        ),
{
    let n = q.text.len() as int;
    assert forall|k: int| 0 <= k < v.len() implies text[k] == v[k] by {
        assert(text.take(v.len() as int)[k] == text[k]);
    }
    lemma_flag_bits(get(b.r, T3), get(b.r, T1));
    lemma_words_less(true, get(b.r, T2), get(b.r, T3), get(b.r, T0), get(b.r, T1));
    let b1 = exec(text, ra, text[n], b);
    lemma_next(text, ra, i, c, n, b, n + 1, b1);
    let b2 = exec(text, ra, text[n + 1], b1);
    lemma_next(text, ra, i, c, n + 1, b1, n + 2, b2);
    lemma_branches(text, ra, i, c, n + 2, b2, n + 4);
    let b3 = if get(b.r, T3) == get(b.r, T1) {
        let b3 = exec(text, ra, text[n + 3], b2);
        lemma_next(text, ra, i, c, n + 3, b2, n + 4, b3);
        b3
    } else {
        b2
    };
    let less = signed_words(get(b.r, T2), get(b.r, T3)) < signed_words(
        get(b.r, T0),
        get(b.r, T1),
    );
    assert(get(b3.r, T5) == flag(less));
    let b4 = exec(text, ra, text[n + 4], b3);
    lemma_next(text, ra, i, c, n + 4, b3, n + 5, b4);
    lemma_branches(text, ra, i, c, n + 5, b4, n + 8);
    let b7 = if less == (op == AtomicOp::Min) {
        b4
    } else {
        let b5 = exec(text, ra, text[n + 6], b4);
        lemma_next(text, ra, i, c, n + 6, b4, n + 7, b5);
        let b6 = exec(text, ra, text[n + 7], b5);
        lemma_next(text, ra, i, c, n + 7, b5, n + 8, b6);
        b6
    };
    let e = exec(text, ra, text[n + 8], b7);
    lemma_next(text, ra, i, c, n + 8, b7, n + 9, e);
    e
}

/// The lines of an operation that chooses.
spec fn wide_choice(q: St, op: AtomicOp) -> St {
    let p = put(St { labels: q.labels + 2, ..q }, Asm::Alu(AluOp::Slt, T5, T3, T1));
    let p = put(p, Asm::Alu(AluOp::Xor, T6, T3, T1));
    let p = put(p, Asm::Branch(BCond::Ne, T6, ZERO, differ_label(q)));
    let p = put(p, Asm::Alu(AluOp::Sltu, T5, T2, T0));
    let p = put(p, Asm::Label(differ_label(q)));
    let p = put(p, keep_branch(op, q));
    let p = put(p, mv_asm(T2, T0));
    let p = put(p, mv_asm(T3, T1));
    put(p, Asm::Label(chosen_label(q)))
}

/// The code of an atomic operation on two-word integers does it, where the pointer points clear of
/// the cells for passing use. Control is then behind it.
pub proof fn law_wide_atomic(
    text: Seq<Asm>,
    ra: u32,
    c: State,
    st: St,
    f: Function,
    id: InstId,
    op: AtomicOp,
    ptr: ValRef,
    val: ValRef,
) -> (r: (State, (u32, u32)))
    requires
        unique_labels(text),
        starts(text, put_lower_atomic_i64(st, f, id, op, ptr, val).text),
    ensures
        goes(
            text,
            ra,
            st.text.len() as int,
            c,
            put_lower_atomic_i64(st, f, id, op, ptr, val).text.len() as int,
            r.0,
        ),
        get(r.0.r, SP) == get(c.r, SP),
        ({
            let at = read(c.m, cell(c, home_of(f, ptr)), W::B4);
            clear(c, at) && clear(c, sum(at, 4)) ==> wide_replaced(
                f,
                id,
                op,
                ptr,
                val,
                c,
                r.0,
                r.1,
            )
        }),
{
    let n = st.text.len();
    let v = put_lower_atomic_i64(st, f, id, op, ptr, val);
    let q = wide_opened(st, f, ptr, val);
    lemma_wide_opened(text, ra, c, st, f, ptr, val);
    let b = after(text, ra, q.text, n, c);
    let at = get(b.r, T4);
    if op == AtomicOp::Min || op == AtomicOp::Max {
        let p = wide_choice(q, op);
        assert(v == wide_closed(p, f, id));
        assert(straight(p.text, p.text.len()));
        lemma_wide_closed(text, ra, p.text.len(), c, p, f, id);
        lemma_starts_prefix(text, v.text, p.text);
        assert(p.text.take(q.text.len() as int) =~= q.text);
        lemma_starts_prefix(text, p.text, q.text);
        lemma_through(text, ra, c, st.text, q.text);
        let e = lemma_wide_choice(text, ra, n as int, c, q, b, op, p.text);
        lemma_wide_closed(text, ra, p.text.len(), e, p, f, id);
        lemma_straight(text, ra, n as int, c, p.text.len(), e, v.text);
        if clear(c, at) && clear(c, sum(at, 4)) {
            lemma_stashed(c, b.m, at, get(b.r, T2), get(b.r, T3), get(e.r, T2), get(e.r, T3));
        }
        (after(text, ra, v.text, p.text.len(), e), (get(e.r, T2), get(e.r, T3)))
    } else {
        let p = wide_plain(q, op);
        assert(v == wide_closed(p, f, id));
        lemma_wide_plain(text, ra, n, c, q, op);
        lemma_wide_closed(text, ra, n, c, p, f, id);
        lemma_through(text, ra, c, st.text, v.text);
        let e = after(text, ra, p.text, n, c);
        if clear(c, at) && clear(c, sum(at, 4)) {
            lemma_stashed(c, b.m, at, get(b.r, T2), get(b.r, T3), get(e.r, T2), get(e.r, T3));
        }
        (after(text, ra, v.text, n, c), (get(e.r, T2), get(e.r, T3)))
    }
}

// ---- single precision ----------------------------------------------------------------------

/// What an atomic operation on single-precision values replaces a value by. The bitwise ones act
/// on the bit patterns; a value is kept where it compares equal to the operand, and by `Min` where
/// they do not compare.
pub open spec fn float_atomic_value(op: AtomicOp, x: u32, y: u32) -> u32 {
    match op {
        AtomicOp::Add => float_value(BinOp::FAdd, x, y),
        AtomicOp::Sub => float_value(BinOp::FSub, x, y),
        AtomicOp::And => alu(AluOp::And, x, y),
        AtomicOp::Or => alu(AluOp::Or, x, y),
        AtomicOp::Xor => alu(AluOp::Xor, x, y),
        AtomicOp::Exch => y,
        AtomicOp::Min => if order_code(x, y) <= 0 {
            x
        } else {
            y
        },
        AtomicOp::Max => if order_code(x, y) >= 0 {
            x
        } else {
            y
        },
    }
}

/// Memory with the address, the old value and the operand in the cells for passing use.
pub open spec fn float_stashed(c: State, at: u32, x: u32, y: u32) -> Mem {
    let m1 = written(c.m, cell(c, scratch(0)), W::B4, at);
    let m2 = written(m1, cell(c, scratch(1)), W::B4, x);
    written(m2, cell(c, scratch(2)), W::B4, y)
}

/// Whether an atomic operation on single-precision values took one state to another: it replaced
/// what the pointer points to, stored the old value in the cell of the instruction, and wrote
/// nothing else but three cells that are for passing use.
pub open spec fn float_replaced(
    f: Function,
    id: InstId,
    op: AtomicOp,
    ptr: ValRef,
    val: ValRef,
    c: State,
    d: State,
) -> bool {
    let at = read(c.m, cell(c, home_of(f, ptr)), W::B4);
    let x = read(c.m, at, W::B4);
    let y = read(c.m, cell(c, home_of(f, val)), W::B4);
    let m = written(float_stashed(c, at, x, y), at, W::B4, float_atomic_value(op, x, y));
    &&& d.m == written(m, cell(c, inst_home(f, id)), W::B4, x)
    &&& get(d.r, SP) == get(c.r, SP)
}

/// What was stashed is read back.
proof fn lemma_float_stashed(c: State, at: u32, x: u32, y: u32)
    ensures
        ({
            let m = float_stashed(c, at, x, y);
            &&& read(m, cell(c, scratch(0)), W::B4) == at
            &&& read(m, cell(c, scratch(1)), W::B4) == x
            &&& read(m, cell(c, scratch(2)), W::B4) == y
        }),
{
    let s0 = cell(c, scratch(0));
    let s1 = cell(c, scratch(1));
    let s2 = cell(c, scratch(2));
    let m1 = written(c.m, s0, W::B4, at);
    let m2 = written(m1, s1, W::B4, x);
    law_word_is_read_back(c.m, s0, at);
    law_words_are_apart(m1, s1, s0, x);
    law_words_are_apart(m2, s2, s0, y);
    law_word_is_read_back(m1, s1, x);
    law_words_are_apart(m2, s2, s1, y);
    law_word_is_read_back(m2, s2, y);
}

/// The text up to the operation: the old value is in `t5`, and the operand in `t0`.
spec fn float_opened(st: St, f: Function, ptr: ValRef, val: ValRef) -> St {
    let p = put_reload(st, f, val, T0, W::B4, false);
    let p = put_reload(p, f, ptr, T4, W::B4, false);
    let p = put(p, Asm::Load(LoadOp::Lw, T5, 0, T4));
    let p = put_stash(p, f, scratch(0), T4);
    let p = put_stash(p, f, scratch(1), T5);
    put_stash(p, f, scratch(2), T0)
}

proof fn lemma_float_opened(
    text: Seq<Asm>,
    ra: u32,
    c: State,
    st: St,
    f: Function,
    ptr: ValRef,
    val: ValRef,
)
    ensures
        ({
            let q = float_opened(st, f, ptr, val);
            let e = after(text, ra, q.text, st.text.len(), c);
            let at = read(c.m, cell(c, home_of(f, ptr)), W::B4);
            let x = read(c.m, at, W::B4);
            let y = read(c.m, cell(c, home_of(f, val)), W::B4);
            &&& q.text.len() >= st.text.len()
            &&& straight(q.text, st.text.len())
            &&& e.m == float_stashed(c, at, x, y)
            &&& get(e.r, SP) == get(c.r, SP)
            &&& get(e.r, T5) == x
            &&& get(e.r, T0) == y
        }),
{
    broadcast use {lemma_after_push, lemma_straight_push};

    let n = st.text.len();
    assert(straight(st.text, n));
    let p1 = put_reload(st, f, val, T0, W::B4, false);
    lemma_reload(text, ra, n, c, st, f, val, T0, W::B4, false);
    let p2 = put_reload(p1, f, ptr, T4, W::B4, false);
    lemma_reload(text, ra, n, c, p1, f, ptr, T4, W::B4, false);
    assert(straight(p2.text, n));
    let p3 = put(p2, Asm::Load(LoadOp::Lw, T5, 0, T4));
    let p4 = put_stash(p3, f, scratch(0), T4);
    lemma_stash(text, ra, n, c, p3, f, scratch(0), T4);
    let p5 = put_stash(p4, f, scratch(1), T5);
    lemma_stash(text, ra, n, c, p4, f, scratch(1), T5);
    assert(straight(p5.text, n));
    lemma_stash(text, ra, n, c, p5, f, scratch(2), T0);
}

/// The text behind the operation.
spec fn float_closed(st: St, f: Function, id: InstId) -> St {
    let p = put_unstash(st, f, scratch(0), T4);
    let p = put(p, Asm::Store(StoreOp::Sw, A0, 0, T4));
    let p = put_unstash(p, f, scratch(1), T5);
    put_store_result(p, f, id, T5, W::B4)
}

proof fn lemma_float_closed(
    text: Seq<Asm>,
    ra: u32,
    from: nat,
    c: State,
    st: St,
    f: Function,
    id: InstId,
)
    requires
        from <= st.text.len(),
        straight(st.text, from),
    ensures
        ({
            let b = after(text, ra, st.text, from, c);
            let t = float_closed(st, f, id);
            let d = after(text, ra, t.text, from, c);
            let m = written(
                b.m,
                read(b.m, cell(b, scratch(0)), W::B4),
                W::B4,
                get(b.r, A0),
            );
            &&& straight(t.text, from)
            &&& t.text.len() >= st.text.len()
            &&& t.text.take(st.text.len() as int) == st.text
            &&& d.m == written(
                m,
                cell(b, inst_home(f, id)),
                W::B4,
                read(m, cell(b, scratch(1)), W::B4),
            )
            &&& get(d.r, SP) == get(b.r, SP)
        }),
{
    broadcast use {lemma_after_push, lemma_straight_push};

    let p1 = put_unstash(st, f, scratch(0), T4);
    lemma_unstash(text, ra, from, c, st, f, scratch(0), T4);
    let p2 = put(p1, Asm::Store(StoreOp::Sw, A0, 0, T4));
    let p3 = put_unstash(p2, f, scratch(1), T5);
    lemma_unstash(text, ra, from, c, p2, f, scratch(1), T5);
    lemma_store_result(text, ra, from, c, p3, f, id, T5, W::B4);
    let t = float_closed(st, f, id);
    assert(t.text.take(st.text.len() as int) =~= st.text);
}

/// The lines of an operation that does not choose.
spec fn float_plain(st: St, op: AtomicOp) -> St {
    match op {
        AtomicOp::Add => put(
            put(put(st, mv_asm(A0, T5)), mv_asm(A1, T0)),
            Asm::Jal(RA, "__sf_f32_add"@),
        ),
        AtomicOp::Sub => {
            let p = put(put(st, mv_asm(A0, T5)), mv_asm(A1, T0));
            let p = put(p, Asm::Li(T1, i32::MIN as int));
            let p = put(p, Asm::Alu(AluOp::Xor, A1, A1, T1));
            put(p, Asm::Jal(RA, "__sf_f32_add"@))
        },
        AtomicOp::And => put(st, Asm::Alu(AluOp::And, A0, T5, T0)),
        AtomicOp::Or => put(st, Asm::Alu(AluOp::Or, A0, T5, T0)),
        AtomicOp::Xor => put(st, Asm::Alu(AluOp::Xor, A0, T5, T0)),
        _ => put(st, mv_asm(A0, T0)),
    }
}

proof fn lemma_float_plain(text: Seq<Asm>, ra: u32, from: nat, c: State, st: St, op: AtomicOp)
    requires
        has_runtime(text),
        from <= st.text.len(),
        straight(st.text, from),
        op != AtomicOp::Min && op != AtomicOp::Max,
    ensures
        ({
            let b = after(text, ra, st.text, from, c);
            let t = float_plain(st, op);
            let d = after(text, ra, t.text, from, c);
            &&& straight(t.text, from)
            &&& t.text.len() >= st.text.len()
            &&& d.m == b.m
            &&& get(d.r, SP) == get(b.r, SP)
            &&& get(d.r, A0) == float_atomic_value(op, get(b.r, T5), get(b.r, T0))
        }),
{
    broadcast use {lemma_after_push, lemma_straight_push};

    let p1 = put(put(st, mv_asm(A0, T5)), mv_asm(A1, T0));
    let e1 = after(text, ra, p1.text, from, c);
    let p2 = put(put(p1, Asm::Li(T1, i32::MIN as int)), Asm::Alu(AluOp::Xor, A1, A1, T1));
    let e2 = after(text, ra, p2.text, from, c);
    lemma_routine(text, BinOp::FAdd, wrote(e1.r, RA, ra));
    lemma_routine(text, BinOp::FAdd, wrote(e2.r, RA, ra));
}

/// The label of the lines that keep the old value, and that behind the lines that choose.
spec fn keep_label(q: St) -> Seq<char> {
    fresh_name("atomic_f32_minmax_keep_old"@, q.labels + 1)
}

spec fn settled_label(q: St) -> Seq<char> {
    fresh_name("atomic_f32_minmax_done"@, q.labels + 2)
}

spec fn order_branch(op: AtomicOp, q: St) -> Asm {
    if op == AtomicOp::Min {
        Asm::Branch(BCond::Ge, ZERO, A0, keep_label(q))
    } else {
        Asm::Branch(BCond::Ge, A0, ZERO, keep_label(q))
    }
}

/// The call that compares the old value, in `t5`, with the operand, in `t0`.
spec fn float_compared(st: St) -> St {
    put(put(put(st, mv_asm(A0, T5)), mv_asm(A1, T0)), Asm::Jal(RA, "__sf_f32_cmp"@))
}

proof fn lemma_float_compared(text: Seq<Asm>, ra: u32, from: nat, c: State, st: St)
    requires
        has_runtime(text),
        from <= st.text.len(),
        straight(st.text, from),
    ensures
        ({
            let b = after(text, ra, st.text, from, c);
            let t = float_compared(st);
            let d = after(text, ra, t.text, from, c);
            &&& straight(t.text, from)
            &&& t.text.len() >= st.text.len()
            &&& d.m == b.m
            &&& get(d.r, SP) == get(b.r, SP)
            &&& get(d.r, A0) == word(order_code(get(b.r, T5), get(b.r, T0)))
        }),
{
    broadcast use {lemma_after_push, lemma_straight_push};

    let p1 = put(put(st, mv_asm(A0, T5)), mv_asm(A1, T0));
    let e1 = after(text, ra, p1.text, from, c);
    lemma_called(
        text,
        "__sf_f32_cmp"@,
        |s: Regs| word(order_code(get(s, A0), get(s, A1))),
        wrote(e1.r, RA, ra),
    );
}

/// The lines that choose.
spec fn float_choice(q: St, f: Function, op: AtomicOp) -> St {
    let p = put(St { labels: q.labels + 2, ..q }, order_branch(op, q));
    let p = put(put_unstash(p, f, scratch(2), A0), Asm::Jal(ZERO, settled_label(q)));
    let p = put_unstash(put(p, Asm::Label(keep_label(q))), f, scratch(1), A0);
    put(p, Asm::Label(settled_label(q)))
}

proof fn lemma_float_choice(
    text: Seq<Asm>,
    ra: u32,
    i: int,
    c: State,
    q: St,
    f: Function,
    b: State,
    op: AtomicOp,
    order: int,
) -> (e: State)
    requires
        unique_labels(text),
        op == AtomicOp::Min || op == AtomicOp::Max,
        starts(text, float_choice(q, f, op).text),
        goes(text, ra, i, c, q.text.len() as int, b),
        -2 <= order <= 1,
        get(b.r, A0) == word(order),
    ensures
        goes(text, ra, i, c, float_choice(q, f, op).text.len() as int, e),
        e.m == b.m,
        get(e.r, SP) == get(b.r, SP),
        get(e.r, A0) == read(
            b.m,
            cell(
                b,
                if op == AtomicOp::Min && order <= 0 || op == AtomicOp::Max && order >= 0 {
                    scratch(1)
                } else {
                    scratch(2)
                },
            ),
            W::B4,
        ),
{
    broadcast use {lemma_after_push, lemma_straight_push};

    let p1 = put(St { labels: q.labels + 2, ..q }, order_branch(op, q));
    let p2 = put_unstash(p1, f, scratch(2), A0);
    let p3 = put(p2, Asm::Jal(ZERO, settled_label(q)));
    let p4 = put(p3, Asm::Label(keep_label(q)));
    let p5 = put_unstash(p4, f, scratch(1), A0);
    let p6 = put(p5, Asm::Label(settled_label(q)));
    assert(p6 == float_choice(q, f, op));
    lemma_starts_front(text, p5.text, Asm::Label(settled_label(q)));
    assert(p5.text.take(p4.text.len() as int) =~= p4.text);
    lemma_starts_prefix(text, p5.text, p4.text);
    lemma_starts_front(text, p3.text, Asm::Label(keep_label(q)));
    lemma_starts_front(text, p2.text, Asm::Jal(ZERO, settled_label(q)));
    assert(p2.text.take(p1.text.len() as int) =~= p1.text);
    lemma_starts_prefix(text, p2.text, p1.text);
    lemma_starts_front(text, q.text, order_branch(op, q));
    assert(straight(p1.text, p1.text.len()) && straight(p3.text, p3.text.len()));
    let at_keep = p3.text.len() as int;
    let at_end = p5.text.len() as int;
    lemma_branches(text, ra, i, c, q.text.len() as int, b, at_keep);
    let keeps_old = op == AtomicOp::Min && order <= 0 || op == AtomicOp::Max && order >= 0;
    let g = if keeps_old {
        lemma_label_only(text, ra, b, p3, keep_label(q));
        lemma_unstash(text, ra, p3.text.len(), b, p4, f, scratch(1), A0);
        lemma_straight(text, ra, i, c, p3.text.len(), b, p5.text);
        after(text, ra, p5.text, p3.text.len(), b)
    } else {
        lemma_unstash(text, ra, p1.text.len(), b, p1, f, scratch(2), A0);
        lemma_straight(text, ra, i, c, p1.text.len(), b, p2.text);
        let g = after(text, ra, p2.text, p1.text.len(), b);
        lemma_jumps(text, ra, i, c, p2.text.len() as int, g, at_end);
        g
    };
    let e = exec(text, ra, text[at_end], g);
    lemma_next(text, ra, i, c, at_end, g, at_end + 1, e);
    e
}

/// The code of an atomic operation on single-precision values does it, where the pointer points
/// clear of the cells for passing use. Control is then behind it.
pub proof fn law_float_atomic(
    text: Seq<Asm>,
    ra: u32,
    c: State,
    st: St,
    f: Function,
    id: InstId,
    op: AtomicOp,
    ptr: ValRef,
    val: ValRef,
) -> (d: State)
    requires
        unique_labels(text),
        has_runtime(text),
        starts(text, put_lower_atomic_f32(st, f, id, op, ptr, val).text),
    ensures
        goes(
            text,
            ra,
            st.text.len() as int,
            c,
            put_lower_atomic_f32(st, f, id, op, ptr, val).text.len() as int,
            d,
        ),
        get(d.r, SP) == get(c.r, SP),
        clear(c, read(c.m, cell(c, home_of(f, ptr)), W::B4)) ==> float_replaced(
            f,
            id,
            op,
            ptr,
            val,
            c,
            d,
        ),
{
    let n = st.text.len();
    let v = put_lower_atomic_f32(st, f, id, op, ptr, val);
    let q = float_opened(st, f, ptr, val);
    lemma_float_opened(text, ra, c, st, f, ptr, val);
    let b = after(text, ra, q.text, n, c);
    let at = read(c.m, cell(c, home_of(f, ptr)), W::B4);
    let (x, y) = (get(b.r, T5), get(b.r, T0));
    lemma_float_stashed(c, at, x, y);
    if clear(c, at) {
        law_words_are_apart(b.m, at, cell(c, scratch(1)), float_atomic_value(op, x, y));
    }
    if op == AtomicOp::Min || op == AtomicOp::Max {
        let p = float_compared(q);
        let u = float_choice(p, f, op);
        assert(v == float_closed(u, f, id));
        assert(straight(u.text, u.text.len()));
        lemma_float_compared(text, ra, n, c, q);
        let b1 = after(text, ra, p.text, n, c);
        lemma_float_closed(text, ra, u.text.len(), c, u, f, id);
        lemma_starts_prefix(text, v.text, u.text);
        assert(u.text.take(p.text.len() as int) =~= p.text);
        lemma_starts_prefix(text, u.text, p.text);
        lemma_through(text, ra, c, st.text, p.text);
        let e = lemma_float_choice(text, ra, n as int, c, p, f, b1, op, order_code(x, y));
        lemma_float_closed(text, ra, u.text.len(), e, u, f, id);
        lemma_straight(text, ra, n as int, c, u.text.len(), e, v.text);
        after(text, ra, v.text, u.text.len(), e)
    } else {
        let u = float_plain(q, op);
        assert(v == float_closed(u, f, id));
        lemma_float_plain(text, ra, n, c, q, op);
        lemma_float_closed(text, ra, n, c, u, f, id);
        lemma_through(text, ra, c, st.text, v.text);
        after(text, ra, v.text, n, c)
    }
}

} // verus!
