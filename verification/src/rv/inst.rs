//! What the instructions of a function do to the memory of a thread, and that their code does it.

use vstd::prelude::*;

use crate::bir::{
    AtomicOp, BinOp, CastOp, FCmpPred, FloatConst, Function, ICmpPred, InstId, Op, Ty, ValRef,
};
use crate::rv::atomic::{
    clear, float_replaced, law_float_atomic, law_narrow_atomic, law_narrow_swap, law_wide_atomic,
    law_wide_swap, narrow_replaced, narrow_swapped, wide_replaced, wide_swapped,
};
use crate::rv::check::{f64_ty, float_bin, float_ty, wide_ty};
use crate::rv::enc::{addi_asm, signed, unique_labels, Asm, SP, T0, ZERO};
use crate::rv::exec::{
    after, cell, converted, extended, float_holds, float_value, int_holds, law_constant,
    law_float_comparison, law_float_constant, law_float_operation, law_float_remainder, law_index,
    law_load, law_narrow_comparison, law_narrow_conversion, law_narrow_operation, law_store,
    law_wide_bitcast, law_wide_extension, law_wide_operation, lemma_after_push, lemma_store_result,
    narrow_value, read, read_width, result_width, wide_value, written, written_wide, Mem, State,
};
use crate::rv::flow::{
    copied, goes, goes_on, law_selection, law_wide_comparison, lemma_stay, lemma_straight_push,
    lemma_through, starts, straight, wide_holds,
};
use crate::rv::lower::{
    const_home, home_of, inst_home, inst_of, inst_ok, loopctr_home, nthreads_home, put,
    put_lower_atomic, put_lower_atomic_cas, put_lower_bin, put_lower_cast, put_lower_const_float,
    put_lower_const_int, put_lower_fcmp, put_lower_icmp, put_lower_icmp_i64, put_lower_inst,
    put_lower_load, put_lower_reload_dyn, put_lower_select, put_lower_store, put_store_result,
    scratch, spec_high_word, spec_local_like, spec_low_word, spec_space_tag, width, St, W,
};
use crate::rv::machine::{flag, get, sum, word};
use crate::rv::softfloat_ref::order_code;
use crate::rv::softfloat_run::has_runtime;

verus! {

broadcast use crate::rv::machine::group_machine;

// ---- what an instruction does --------------------------------------------------------------

/// Memory with two words written to it.
pub open spec fn stored(m: Mem, at: u32, words: (u32, u32)) -> Mem {
    written_wide(m, at, words.0, words.1)
}

/// Memory with three words written, one after the other, to the first two cells for passing use.
pub open spec fn passing(c: State, kept: (u32, u32, u32)) -> Mem {
    let m1 = written(c.m, cell(c, scratch(0)), W::B4, kept.0);
    let m2 = written(m1, cell(c, scratch(1)), W::B4, kept.1);
    written(m2, cell(c, scratch(1)), W::B4, kept.2)
}

/// The two words of a cell.
pub open spec fn words_at(m: Mem, at: u32) -> (u32, u32) {
    (read(m, at, W::B4), read(m, sum(at, 4), W::B4))
}

/// Memory after an integer constant.
pub open spec fn constant_in(f: Function, id: InstId, n: i64, ty: Ty, c: State) -> Mem {
    let home = cell(c, inst_home(f, id));
    let lo = word(spec_low_word(n));
    match ty {
        Ty::Ptr(space) if spec_local_like(space) => written(
            c.m,
            home,
            W::B4,
            cell(c, const_home(f, (spec_space_tag(space), n))),
        ),
        _ => if wide_ty(ty) {
            written_wide(c.m, home, lo, word(spec_high_word(n)))
        } else {
            written(c.m, home, width(ty), lo)
        },
    }
}

/// Whether a binary operation took one memory to another.
pub open spec fn operated(
    f: Function,
    id: InstId,
    op: BinOp,
    a: ValRef,
    b: ValRef,
    ty: Ty,
    c: State,
    m: Mem,
) -> bool {
    let home = cell(c, inst_home(f, id));
    let x = cell(c, home_of(f, a));
    let y = cell(c, home_of(f, b));
    if float_ty(ty) {
        let v = float_value(op, read(c.m, x, W::B4), read(c.m, y, W::B4));
        if op == BinOp::FRem {
            exists|kept: (u32, u32, u32)| m == written(#[trigger] passing(c, kept), home, W::B4, v)
        } else {
            m == written(c.m, home, W::B4, v)
        }
    } else if wide_ty(ty) {
        let xs = words_at(c.m, x);
        let ys = words_at(c.m, y);
        exists|words: (u32, u32)|
            m == #[trigger] stored(c.m, home, words) && wide_value(
                op,
                xs.0,
                xs.1,
                ys.0,
                ys.1,
                words.0,
                words.1,
            )
    } else {
        let w = width(ty);
        m == written(c.m, home, w, narrow_value(op, w, read(c.m, x, w), read(c.m, y, w)))
    }
}

/// Memory after a conversion.
pub open spec fn conversion_in(
    f: Function,
    id: InstId,
    cop: CastOp,
    from: Ty,
    v: ValRef,
    to: Ty,
    c: State,
) -> Mem {
    let home = cell(c, inst_home(f, id));
    let x = cell(c, home_of(f, v));
    if (cop == CastOp::Zext || cop == CastOp::Sext) && wide_ty(to) {
        let lo = extended(width(from), cop == CastOp::Sext, read(c.m, x, width(from)));
        let hi = if cop == CastOp::Sext && signed(lo) < 0 {
            0xFFFF_FFFFu32
        } else {
            0
        };
        written_wide(c.m, home, lo, hi)
    } else if cop == CastOp::Bitcast && (wide_ty(from) || wide_ty(to)) {
        stored(c.m, home, words_at(c.m, x))
    } else {
        written(
            c.m,
            home,
            result_width(cop, to),
            converted(cop, from, to, read(c.m, x, read_width(cop, from, to))),
        )
    }
}

/// Whether an atomic operation took one state to another. Where the pointer points into the cells
/// for passing use, nothing is said.
pub open spec fn replaced(
    f: Function,
    id: InstId,
    op: AtomicOp,
    ptr: ValRef,
    val: ValRef,
    ty: Ty,
    c: State,
    d: State,
) -> bool {
    let at = read(c.m, cell(c, home_of(f, ptr)), W::B4);
    if float_ty(ty) {
        clear(c, at) ==> float_replaced(f, id, op, ptr, val, c, d)
    } else if wide_ty(ty) {
        clear(c, at) && clear(c, sum(at, 4)) ==> exists|words: (u32, u32)|
            #[trigger] wide_replaced(f, id, op, ptr, val, c, d, words)
    } else {
        narrow_replaced(f, id, op, ptr, val, ty, c, d)
    }
}

/// Whether an instruction took one state to another: what it made of memory, by its operation.
/// The stack pointer stays; the other registers hold nothing that outlives an instruction.
pub open spec fn did(f: Function, id: InstId, c: State, d: State) -> bool {
    let ty = inst_of(f, id).ty;
    let home = cell(c, inst_home(f, id));
    &&& get(d.r, SP) == get(c.r, SP)
    &&& match inst_of(f, id).op {
        Op::ConstInt(n) => d.m == constant_in(f, id, n, ty, c),
        Op::ConstFloat(v) => d.m == if f64_ty(ty) {
            written_wide(
                c.m,
                home,
                low_half(v.double),
                high_half(v.double),
            )
        } else {
            written(c.m, home, W::B4, v.single)
        },
        Op::Bin(op, a, b) => operated(f, id, op, a, b, ty, c, d.m),
        Op::ICmp(pred, cty, a, b) => {
            let x = cell(c, home_of(f, a));
            let y = cell(c, home_of(f, b));
            let xs = words_at(c.m, x);
            let ys = words_at(c.m, y);
            let w = width(cty);
            let holds = if wide_ty(cty) {
                wide_holds(pred, xs.0, xs.1, ys.0, ys.1)
            } else {
                int_holds(pred, w, read(c.m, x, w), read(c.m, y, w))
            };
            d.m == written(c.m, home, W::B1, flag(holds))
        },
        Op::FCmp(pred, _, a, b) => {
            let x = read(c.m, cell(c, home_of(f, a)), W::B4);
            let y = read(c.m, cell(c, home_of(f, b)), W::B4);
            d.m == written(c.m, home, W::B1, flag(float_holds(pred, order_code(x, y))))
        },
        Op::Select(cond, a, b) => {
            let v = if read(c.m, cell(c, home_of(f, cond)), W::B1) != 0 {
                a
            } else {
                b
            };
            d.m == copied(c, f, v, ty, home).m
        },
        Op::Cast(cop, from, v) => d.m == conversion_in(f, id, cop, from, v, ty, c),
        Op::Load { ptr, .. } => {
            let at = read(c.m, cell(c, home_of(f, ptr)), W::B4);
            d.m == if wide_ty(ty) {
                stored(c.m, home, words_at(c.m, at))
            } else {
                written(c.m, home, width(ty), read(c.m, at, width(ty)))
            }
        },
        Op::Store { ptr, val, ty: sty, .. } => {
            let at = read(c.m, cell(c, home_of(f, ptr)), W::B4);
            d.m == copied(c, f, val, sty, at).m
        },
        Op::TidX => d.m == written(
            c.m,
            home,
            width(ty),
            read(c.m, cell(c, loopctr_home(f)), W::B4),
        ),
        Op::BdimX => d.m == written(
            c.m,
            home,
            width(ty),
            read(c.m, cell(c, nthreads_home(f)), W::B4),
        ),
        Op::TidY | Op::TidZ | Op::BidX | Op::BidY | Op::BidZ => d.m == written(
            c.m,
            home,
            width(ty),
            0,
        ),
        Op::BdimY | Op::BdimZ | Op::GdimX | Op::GdimY | Op::GdimZ => d.m == written(
            c.m,
            home,
            width(ty),
            1,
        ),
        Op::Atomic(op, ptr, val, _) => replaced(f, id, op, ptr, val, ty, c, d),
        Op::AtomicCas(ptr, expect, newv, _) => if wide_ty(ty) {
            wide_swapped(f, id, ptr, expect, newv, c, d)
        } else {
            narrow_swapped(f, id, ptr, expect, newv, ty, c, d)
        },
        _ => d.m == c.m,
    }
}

pub open spec fn low_half(n: u64) -> u32 {
    (n % 0x1_0000_0000) as u32
}

pub open spec fn high_half(n: u64) -> u32 {
    (n / 0x1_0000_0000) as u32
}

// ---- lines that control goes straight through ----------------------------------------------

pub broadcast proof fn lemma_starts_push(lines: Seq<Asm>, front: Seq<Asm>, a: Asm)
    ensures
        starts(lines, front) ==> #[trigger] starts(lines.push(a), front),
{
    if starts(lines, front) {
        assert(lines.push(a).take(0int + front.len()) =~= lines.take(0int + front.len()));
    }
}

pub proof fn lemma_starts_itself(lines: Seq<Asm>)
    ensures
        starts(lines, lines),
{
    assert(lines.take(0int + lines.len()) =~= lines);
}

/// Whether some lines go on with others that control goes straight through.
pub open spec fn runs_on(from: Seq<Asm>, to: Seq<Asm>) -> bool {
    starts(to, from) && straight(to, from.len())
}

pub broadcast proof fn lemma_runs_on_push(from: Seq<Asm>, to: Seq<Asm>, a: Asm)
    ensures
        runs_on(from, to) && goes_on(a) ==> #[trigger] runs_on(from, to.push(a)),
{
    lemma_starts_push(to, from, a);
    lemma_straight_push(to, a, from.len());
}

pub proof fn lemma_runs_on_itself(from: Seq<Asm>)
    ensures
        runs_on(from, from),
{
    lemma_starts_itself(from);
}

proof fn lemma_constant_runs_on(st: St, f: Function, id: InstId, n: i64, ty: Ty)
    ensures
        runs_on(st.text, put_lower_const_int(st, f, id, n, ty).text),
{
    broadcast use lemma_runs_on_push;

    lemma_runs_on_itself(st.text);
}

proof fn lemma_operation_runs_on(
    st: St,
    f: Function,
    id: InstId,
    op: BinOp,
    a: ValRef,
    b: ValRef,
    ty: Ty,
)
    ensures
        runs_on(st.text, put_lower_bin(st, f, id, op, a, b, ty).text),
{
    broadcast use lemma_runs_on_push;

    lemma_runs_on_itself(st.text);
}

proof fn lemma_comparison_runs_on(
    st: St,
    f: Function,
    id: InstId,
    pred: ICmpPred,
    cty: Ty,
    a: ValRef,
    b: ValRef,
)
    requires
        !wide_ty(cty),
    ensures
        runs_on(st.text, put_lower_icmp(st, f, id, pred, cty, a, b).text),
{
    broadcast use lemma_runs_on_push;

    lemma_runs_on_itself(st.text);
}

proof fn lemma_float_comparison_runs_on(
    st: St,
    f: Function,
    id: InstId,
    pred: FCmpPred,
    a: ValRef,
    b: ValRef,
)
    ensures
        runs_on(st.text, put_lower_fcmp(st, f, id, pred, a, b).text),
{
    broadcast use lemma_runs_on_push;

    lemma_runs_on_itself(st.text);
}

proof fn lemma_conversion_runs_on(
    st: St,
    f: Function,
    id: InstId,
    cop: CastOp,
    from: Ty,
    v: ValRef,
    to: Ty,
)
    ensures
        runs_on(st.text, put_lower_cast(st, f, id, cop, from, v, to).text),
{
    broadcast use lemma_runs_on_push;

    lemma_runs_on_itself(st.text);
}

proof fn lemma_access_runs_on(st: St, f: Function, id: InstId, ptr: ValRef, val: ValRef, ty: Ty)
    ensures
        runs_on(st.text, put_lower_load(st, f, id, ptr, ty).text),
        runs_on(st.text, put_lower_store(st, f, ptr, val, ty).text),
{
    broadcast use lemma_runs_on_push;

    lemma_runs_on_itself(st.text);
}

proof fn lemma_number_runs_on(
    st: St,
    f: Function,
    id: InstId,
    v: FloatConst,
    n: int,
    home: int,
    ty: Ty,
)
    ensures
        runs_on(st.text, put_lower_const_float(st, f, id, v, ty).text),
        runs_on(st.text, put_lower_reload_dyn(st, f, id, home, ty).text),
        runs_on(st.text, put_store_result(put(st, Asm::Li(T0, n)), f, id, T0, width(ty)).text),
        runs_on(st.text, put(st, addi_asm(ZERO, ZERO, 0)).text),
{
    broadcast use lemma_runs_on_push;

    lemma_runs_on_itself(st.text);
}

/// Lines that control goes straight through, from where they follow others in the text.
pub proof fn lemma_on(text: Seq<Asm>, ra: u32, c: State, from: Seq<Asm>, to: Seq<Asm>) -> (d: State)
    requires
        starts(text, to),
        runs_on(from, to),
    ensures
        goes(text, ra, 0int + from.len(), c, 0int + to.len(), d),
        d == after(text, ra, to, from.len(), c),
{
    lemma_through(text, ra, c, from, to);
    after(text, ra, to, from.len(), c)
}

// ---- instructions --------------------------------------------------------------------------

proof fn lemma_operation(
    text: Seq<Asm>,
    ra: u32,
    c: State,
    st: St,
    f: Function,
    id: InstId,
    op: BinOp,
    a: ValRef,
    b: ValRef,
    ty: Ty,
)
    requires
        has_runtime(text),
        float_ty(ty) ==> float_bin(op),
    ensures
        ({
            let d = after(text, ra, put_lower_bin(st, f, id, op, a, b, ty).text, st.text.len(), c);
            &&& operated(f, id, op, a, b, ty, c, d.m)
            &&& get(d.r, SP) == get(c.r, SP)
        }),
{
    let home = cell(c, inst_home(f, id));
    if float_ty(ty) {
        if op == BinOp::FRem {
            let kept = law_float_remainder(text, ra, c, st, f, id, a, b);
            let v = float_value(
                op,
                read(c.m, cell(c, home_of(f, a)), W::B4),
                read(c.m, cell(c, home_of(f, b)), W::B4),
            );
            let d = after(text, ra, put_lower_bin(st, f, id, op, a, b, ty).text, st.text.len(), c);
            assert(d.m == written(passing(c, kept), home, W::B4, v));
        } else {
            law_float_operation(text, ra, c, st, f, id, op, a, b);
        }
    } else if wide_ty(ty) {
        let words = law_wide_operation(text, ra, c, st, f, id, op, a, b);
        let d = after(text, ra, put_lower_bin(st, f, id, op, a, b, ty).text, st.text.len(), c);
        assert(d.m == stored(c.m, home, words));
    } else {
        law_narrow_operation(text, ra, c, st, f, id, op, a, b, ty);
    }
}

proof fn lemma_comparison(
    text: Seq<Asm>,
    ra: u32,
    c: State,
    st: St,
    f: Function,
    id: InstId,
) -> (d: State)
    requires
        unique_labels(text),
        has_runtime(text),
        starts(text, put_lower_inst(st, f, id).text),
        inst_of(f, id).op is ICmp || inst_of(f, id).op is FCmp,
    ensures
        goes(text, ra, 0int + st.text.len(), c, 0int + put_lower_inst(st, f, id).text.len(), d),
        did(f, id, c, d),
{
    let t = put_lower_inst(st, f, id);
    match inst_of(f, id).op {
        Op::ICmp(pred, cty, a, b) => {
            if wide_ty(cty) {
                law_wide_comparison(text, ra, c, st, f, id, pred, a, b)
            } else {
                lemma_comparison_runs_on(st, f, id, pred, cty, a, b);
                law_narrow_comparison(text, ra, c, st, f, id, pred, cty, a, b);
                lemma_on(text, ra, c, st.text, t.text)
            }
        },
        Op::FCmp(pred, _, a, b) => {
            lemma_float_comparison_runs_on(st, f, id, pred, a, b);
            law_float_comparison(text, ra, c, st, f, id, pred, a, b);
            lemma_on(text, ra, c, st.text, t.text)
        },
        _ => c,
    }
}

proof fn lemma_conversion(
    text: Seq<Asm>,
    ra: u32,
    c: State,
    st: St,
    f: Function,
    id: InstId,
) -> (d: State)
    requires
        has_runtime(text),
        starts(text, put_lower_inst(st, f, id).text),
        inst_of(f, id).op is Cast,
    ensures
        goes(text, ra, 0int + st.text.len(), c, 0int + put_lower_inst(st, f, id).text.len(), d),
        did(f, id, c, d),
{
    let to = inst_of(f, id).ty;
    let t = put_lower_inst(st, f, id);
    match inst_of(f, id).op {
        Op::Cast(cop, from, v) => {
            lemma_conversion_runs_on(st, f, id, cop, from, v, to);
            if (cop == CastOp::Zext || cop == CastOp::Sext) && wide_ty(to) {
                law_wide_extension(text, ra, c, st, f, id, cop, from, v, to);
            } else if cop == CastOp::Bitcast && (wide_ty(from) || wide_ty(to)) {
                law_wide_bitcast(text, ra, c, st, f, id, from, v, to);
            } else {
                law_narrow_conversion(text, ra, c, st, f, id, cop, from, v, to);
            }
            lemma_on(text, ra, c, st.text, t.text)
        },
        _ => c,
    }
}

proof fn lemma_atomic(
    text: Seq<Asm>,
    ra: u32,
    c: State,
    st: St,
    f: Function,
    id: InstId,
) -> (d: State)
    requires
        unique_labels(text),
        has_runtime(text),
        starts(text, put_lower_inst(st, f, id).text),
        inst_of(f, id).op is Atomic || inst_of(f, id).op is AtomicCas,
    ensures
        goes(text, ra, 0int + st.text.len(), c, 0int + put_lower_inst(st, f, id).text.len(), d),
        did(f, id, c, d),
{
    let ty = inst_of(f, id).ty;
    match inst_of(f, id).op {
        Op::Atomic(op, ptr, val, _) => {
            if float_ty(ty) {
                law_float_atomic(text, ra, c, st, f, id, op, ptr, val)
            } else if wide_ty(ty) {
                let r = law_wide_atomic(text, ra, c, st, f, id, op, ptr, val);
                r.0
            } else {
                law_narrow_atomic(text, ra, c, st, f, id, op, ptr, val, ty)
            }
        },
        Op::AtomicCas(ptr, expect, newv, _) => {
            if wide_ty(ty) {
                law_wide_swap(text, ra, c, st, f, id, ptr, expect, newv, ty)
            } else {
                law_narrow_swap(text, ra, c, st, f, id, ptr, expect, newv, ty)
            }
        },
        _ => c,
    }
}

/// A constant number in the cell of an instruction.
proof fn lemma_fixed(
    text: Seq<Asm>,
    ra: u32,
    c: State,
    st: St,
    f: Function,
    id: InstId,
    n: int,
    ty: Ty,
)
    ensures
        ({
            let t = put_store_result(put(st, Asm::Li(T0, n)), f, id, T0, width(ty));
            let d = after(text, ra, t.text, st.text.len(), c);
            &&& d.m == written(c.m, cell(c, inst_home(f, id)), width(ty), word(n))
            &&& get(d.r, SP) == get(c.r, SP)
        }),
{
    broadcast use lemma_after_push;

    let p = put(st, Asm::Li(T0, n));
    lemma_store_result(text, ra, st.text.len(), c, p, f, id, T0, width(ty));
}

/// A landmark does nothing.
proof fn lemma_landmark(text: Seq<Asm>, ra: u32, c: State, st: St)
    ensures
        ({
            let d = after(
                text,
                ra,
                put(st, addi_asm(ZERO, ZERO, 0)).text,
                st.text.len(),
                c,
            );
            &&& d.m == c.m
            &&& get(d.r, SP) == get(c.r, SP)
        }),
{
    broadcast use lemma_after_push;

}

/// The code of every instruction does its operation, and control is then behind it.
pub proof fn law_instruction(
    text: Seq<Asm>,
    ra: u32,
    c: State,
    st: St,
    f: Function,
    id: InstId,
) -> (d: State)
    requires
        unique_labels(text),
        has_runtime(text),
        inst_ok(f, inst_of(f, id)),
        starts(text, put_lower_inst(st, f, id).text),
    ensures
        goes(text, ra, 0int + st.text.len(), c, 0int + put_lower_inst(st, f, id).text.len(), d),
        did(f, id, c, d),
{
    let ty = inst_of(f, id).ty;
    let t = put_lower_inst(st, f, id);
    let none = FloatConst { double: 0, single: 0 };
    match inst_of(f, id).op {
        Op::ICmp(_, _, _, _) | Op::FCmp(_, _, _, _) => lemma_comparison(text, ra, c, st, f, id),
        Op::Cast(_, _, _) => lemma_conversion(text, ra, c, st, f, id),
        Op::Atomic(_, _, _, _) | Op::AtomicCas(_, _, _, _) => lemma_atomic(
            text,
            ra,
            c,
            st,
            f,
            id,
        ),
        Op::ConstInt(n) => {
            lemma_constant_runs_on(st, f, id, n, ty);
            law_constant(text, ra, c, st, f, id, n, ty);
            lemma_on(text, ra, c, st.text, t.text)
        },
        Op::ConstFloat(v) => {
            lemma_number_runs_on(st, f, id, v, 0, 0, ty);
            law_float_constant(text, ra, c, st, f, id, v, ty);
            lemma_on(text, ra, c, st.text, t.text)
        },
        Op::Bin(op, a, b) => {
            lemma_operation_runs_on(st, f, id, op, a, b, ty);
            lemma_operation(text, ra, c, st, f, id, op, a, b, ty);
            lemma_on(text, ra, c, st.text, t.text)
        },
        Op::Select(cond, a, b) => law_selection(text, ra, c, st, f, id, cond, a, b, ty),
        Op::Load { ptr, .. } => {
            lemma_access_runs_on(st, f, id, ptr, ptr, ty);
            law_load(text, ra, c, st, f, id, ptr, ty);
            lemma_on(text, ra, c, st.text, t.text)
        },
        Op::Store { ptr, val, ty: sty, .. } => {
            lemma_access_runs_on(st, f, id, ptr, val, sty);
            law_store(text, ra, c, st, f, ptr, val, sty);
            lemma_on(text, ra, c, st.text, t.text)
        },
        Op::TidX => {
            lemma_number_runs_on(st, f, id, none, 0, loopctr_home(f), ty);
            law_index(text, ra, c, st, f, id, loopctr_home(f), ty);
            lemma_on(text, ra, c, st.text, t.text)
        },
        Op::BdimX => {
            lemma_number_runs_on(st, f, id, none, 0, nthreads_home(f), ty);
            law_index(text, ra, c, st, f, id, nthreads_home(f), ty);
            lemma_on(text, ra, c, st.text, t.text)
        },
        Op::TidY | Op::TidZ | Op::BidX | Op::BidY | Op::BidZ => {
            lemma_number_runs_on(st, f, id, none, 0, 0, ty);
            lemma_fixed(text, ra, c, st, f, id, 0, ty);
            lemma_on(text, ra, c, st.text, t.text)
        },
        Op::BdimY | Op::BdimZ | Op::GdimX | Op::GdimY | Op::GdimZ => {
            lemma_number_runs_on(st, f, id, none, 1, 0, ty);
            lemma_fixed(text, ra, c, st, f, id, 1, ty);
            lemma_on(text, ra, c, st.text, t.text)
        },
        Op::Barrier => {
            lemma_number_runs_on(st, f, id, none, 0, 0, ty);
            lemma_landmark(text, ra, c, st);
            lemma_on(text, ra, c, st.text, t.text)
        },
        _ => {
            lemma_stay(text, ra, 0int + st.text.len(), c);
            c
        },
    }
}

proof fn lemma_choice_extends(
    st: St,
    f: Function,
    id: InstId,
    pred: ICmpPred,
    cond: ValRef,
    a: ValRef,
    b: ValRef,
    ty: Ty,
)
    ensures
        starts(put_lower_icmp_i64(st, f, id, pred, a, b).text, st.text),
        starts(put_lower_select(st, f, id, cond, a, b, ty).text, st.text),
{
    broadcast use lemma_starts_push;

    lemma_starts_itself(st.text);
}

proof fn lemma_atomic_extends(
    st: St,
    f: Function,
    id: InstId,
    op: AtomicOp,
    ptr: ValRef,
    val: ValRef,
    ty: Ty,
)
    ensures
        starts(put_lower_atomic(st, f, id, op, ptr, val, ty).text, st.text),
{
    broadcast use lemma_starts_push;

    lemma_starts_itself(st.text);
}

proof fn lemma_swap_extends(
    st: St,
    f: Function,
    id: InstId,
    ptr: ValRef,
    expect: ValRef,
    newv: ValRef,
    ty: Ty,
)
    ensures
        starts(put_lower_atomic_cas(st, f, id, ptr, expect, newv, ty).text, st.text),
{
    broadcast use lemma_starts_push;

    lemma_starts_itself(st.text);
}

/// The code of an instruction follows what was there.
pub proof fn lemma_inst_extends(st: St, f: Function, id: InstId)
    ensures
        starts(put_lower_inst(st, f, id).text, st.text),
{
    let ty = inst_of(f, id).ty;
    let none = FloatConst { double: 0, single: 0 };
    lemma_starts_itself(st.text);
    match inst_of(f, id).op {
        Op::ICmp(pred, cty, a, b) => {
            lemma_choice_extends(st, f, id, pred, a, a, b, ty);
            if !wide_ty(cty) {
                lemma_comparison_runs_on(st, f, id, pred, cty, a, b);
            }
        },
        Op::FCmp(pred, _, a, b) => lemma_float_comparison_runs_on(st, f, id, pred, a, b),
        Op::Cast(cop, from, v) => lemma_conversion_runs_on(st, f, id, cop, from, v, ty),
        Op::Atomic(op, ptr, val, _) => lemma_atomic_extends(st, f, id, op, ptr, val, ty),
        Op::AtomicCas(ptr, expect, newv, _) => lemma_swap_extends(
            st,
            f,
            id,
            ptr,
            expect,
            newv,
            ty,
        ),
        Op::ConstInt(n) => lemma_constant_runs_on(st, f, id, n, ty),
        Op::ConstFloat(v) => lemma_number_runs_on(st, f, id, v, 0, 0, ty),
        Op::Bin(op, a, b) => lemma_operation_runs_on(st, f, id, op, a, b, ty),
        Op::Select(cond, a, b) => lemma_choice_extends(st, f, id, ICmpPred::Eq, cond, a, b, ty),
        Op::Load { ptr, .. } => lemma_access_runs_on(st, f, id, ptr, ptr, ty),
        Op::Store { ptr, val, ty: sty, .. } => lemma_access_runs_on(st, f, id, ptr, val, sty),
        Op::TidX => lemma_number_runs_on(st, f, id, none, 0, loopctr_home(f), ty),
        Op::BdimX => lemma_number_runs_on(st, f, id, none, 0, nthreads_home(f), ty),
        Op::TidY | Op::TidZ | Op::BidX | Op::BidY | Op::BidZ => lemma_number_runs_on(
            st,
            f,
            id,
            none,
            0,
            0,
            ty,
        ),
        Op::BdimY | Op::BdimZ | Op::GdimX | Op::GdimY | Op::GdimZ => lemma_number_runs_on(
            st,
            f,
            id,
            none,
            1,
            0,
            ty,
        ),
        Op::Barrier => lemma_number_runs_on(st, f, id, none, 0, 0, ty),
        _ => {},
    }
}

} // verus!
