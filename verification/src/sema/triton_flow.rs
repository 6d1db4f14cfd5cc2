//! How control flows through the code of Triton statements: a loop counts from its start by its
//! step while it is below its end, a matrix product adds up products, and a condition chooses
//! between two branches.

use vstd::prelude::*;

use crate::bir::{
    AddrSpace, BinOp as BBin, BlockId, ICmpPred, InstId, InstV, OpV, Scalar, TermV, Ty as BTy,
    ValRef,
};
use crate::bits::low_u32;
use crate::diag::Span;
use crate::sema::builder::BuildV;
use crate::sema::triton_ast::Expr;
use crate::sema::triton_lower::{
    close_range_s, close_tile_loop_s, const_i64_s, eval_expr_s, load_scalar_s, lower_jump_s,
    open_range_s, open_tile_loop_s, range_bounds_s, resolve_dim_s, scalar_var, store_scalar_s,
    synthetic_addr_s, LoopLevel, TlState, VarV,
};
use crate::sema::triton_ty::{DimV, Elem};

verus! {

/// Whether an instruction gives the address of a cell.
pub open spec fn cell_of(i: InstV, slot: u32, space: AddrSpace) -> bool {
    i == (InstV { ty: BTy::Ptr(space), op: OpV::ConstInt((slot * 65536) as i64) })
}

/// Whether an instruction reads a scalar through the value of another.
pub open spec fn reads(i: InstV, from: ValRef, v: VarV, space: AddrSpace) -> bool {
    &&& i.ty == v.elem_bty
    &&& i.op matches OpV::Load { ptr, space: s, .. } && ptr == from && s == space
}

/// Whether an instruction writes a value to a scalar through the value of another.
pub open spec fn writes(i: InstV, to: ValRef, v: VarV, space: AddrSpace, x: ValRef) -> bool {
    i.op matches OpV::Store { ptr, val, ty, space: s, .. } && ptr == to && val == x && ty
        == v.elem_bty && s == space
}

/// The value of instruction number `n`.
pub open spec fn value_at(n: int) -> ValRef {
    ValRef::Val(InstId(n as u32))
}

/// The block that is being built, and whether there is room for more blocks and instructions.
pub open spec fn in_bounds(st: TlState, blocks: int, insts: int) -> bool {
    &&& st.b.cur.0 < st.b.blocks.len()
    &&& st.b.blocks.len() + blocks <= 0xffff_ffff
    &&& st.b.insts.len() + insts <= 0xffff_ffff
}

/// How a block was left.
pub open spec fn left_by(b: BuildV, block: BlockId, term: TermV) -> bool {
    &&& block.0 < b.blocks.len()
    &&& b.blocks[block.0 as int].done is Some
    &&& b.blocks[block.0 as int].done->0.term == term
}

/// Reading and writing a scalar goes through the address of its cell.
pub proof fn law_scalar_cell(st: TlState, v: VarV, x: ValRef)
    requires
        v.storage is Synthetic,
        in_bounds(st, 0, 2),
    ensures
        ({
            let n = st.b.insts.len() as int;
            let (end, r) = load_scalar_s(st, v);
            let slot = v.storage->slot;
            let space = v.storage->space;
            &&& end.b.insts.len() == n + 2
            &&& end.b.insts.take(n) == st.b.insts
            &&& cell_of(end.b.insts[n], slot, space)
            &&& reads(end.b.insts[n + 1], value_at(n), v, space)
            &&& r == value_at(n + 1)
        }),
        ({
            let n = st.b.insts.len() as int;
            let end = store_scalar_s(st, v, x);
            let slot = v.storage->slot;
            let space = v.storage->space;
            &&& end.b.insts.len() == n + 2
            &&& end.b.insts.take(n) == st.b.insts
            &&& cell_of(end.b.insts[n], slot, space)
            &&& writes(end.b.insts[n + 1], value_at(n), v, space, x)
        }),
{
    reveal(load_scalar_s);
    reveal(store_scalar_s);
    reveal(synthetic_addr_s);
    reveal(low_u32);
    let n = st.b.insts.len() as int;
    assert(load_scalar_s(st, v).0.b.insts.take(n) =~= st.b.insts);
    assert(store_scalar_s(st, v, x).b.insts.take(n) =~= st.b.insts);
}

/// `range(stop)` starts at zero and counts by one, `range(start, stop)` counts by one, and
/// `range(start, stop, step)` has all three.
pub proof fn law_range_bounds(st: TlState, args: Seq<Expr>)
    requires
        1 <= args.len() <= 3,
    ensures
        ({
            let none = Seq::<ValRef>::empty();
            let (end, (start, stop, step)) = range_bounds_s(st, args);
            &&& args.len() == 1 ==> ({
                let (s1, zero) = const_i64_s(st, 0);
                let (s2, v) = eval_expr_s(s1, args[0], none);
                let (s3, one) = const_i64_s(s2, 1);
                end == s3 && (start, stop, step) == (zero, v, one)
            })
            &&& args.len() == 2 ==> ({
                let (s1, lo) = eval_expr_s(st, args[0], none);
                let (s2, hi) = eval_expr_s(s1, args[1], none);
                let (s3, one) = const_i64_s(s2, 1);
                end == s3 && (start, stop, step) == (lo, hi, one)
            })
            &&& args.len() == 3 ==> ({
                let (s1, lo) = eval_expr_s(st, args[0], none);
                let (s2, hi) = eval_expr_s(s1, args[1], none);
                let (s3, by) = eval_expr_s(s2, args[2], none);
                end == s3 && (start, stop, step) == (lo, hi, by)
            })
        }),
{
    reveal(range_bounds_s);
}

/// A loop over a range writes its start to the counter and goes to its test. The test reads the
/// counter and goes on to the body where it is less than the end, and else out of the loop. What
/// is built next is the body.
pub proof fn law_range_opens(st: TlState, ctr: VarV, start: ValRef, stop: ValRef)
    requires
        ctr.storage is Synthetic,
        in_bounds(st, 4, 8),
    ensures
        ({
            let n = st.b.insts.len() as int;
            let k = st.b.blocks.len() as int;
            let (end, (test, step, out)) = open_range_s(st, ctr, start, stop);
            let slot = ctr.storage->slot;
            let space = ctr.storage->space;
            let body = BlockId((k + 1) as u32);
            &&& test == BlockId(k as u32)
            &&& step == BlockId((k + 2) as u32)
            &&& out == BlockId((k + 3) as u32)
            &&& end.b.insts.len() == n + 5
            &&& cell_of(end.b.insts[n], slot, space)
            &&& writes(end.b.insts[n + 1], value_at(n), ctr, space, start)
            &&& left_by(end.b, st.b.cur, TermV::Br(test))
            &&& cell_of(end.b.insts[n + 2], slot, space)
            &&& reads(end.b.insts[n + 3], value_at(n + 2), ctr, space)
            &&& end.b.insts[n + 4].op == OpV::ICmp(
                ICmpPred::Slt,
                BTy::Scalar(Scalar::I64),
                value_at(n + 3),
                stop,
            )
            &&& left_by(end.b, test, TermV::CondBr(value_at(n + 4), body, out))
            &&& end.b.cur == body
        }),
{
    reveal(open_range_s);
    reveal(load_scalar_s);
    reveal(store_scalar_s);
    reveal(synthetic_addr_s);
    reveal(low_u32);
}

/// The end of the body of a loop over a range goes to its step, which adds the step to the counter
/// and goes back to the test. What is built next is what follows the loop.
pub proof fn law_range_closes(
    st: TlState,
    ctr: VarV,
    by: ValRef,
    test: BlockId,
    step: BlockId,
    out: BlockId,
)
    requires
        ctr.storage is Synthetic,
        in_bounds(st, 0, 8),
        test.0 < st.b.blocks.len(),
        step.0 < st.b.blocks.len(),
        step != st.b.cur,
    ensures
        ({
            let n = st.b.insts.len() as int;
            let end = close_range_s(st, ctr, by, (test, step, out));
            let slot = ctr.storage->slot;
            let space = ctr.storage->space;
            &&& left_by(end.b, st.b.cur, TermV::Br(step))
            &&& cell_of(end.b.insts[n], slot, space)
            &&& reads(end.b.insts[n + 1], value_at(n), ctr, space)
            &&& end.b.insts[n + 2].ty == BTy::Scalar(Scalar::I64)
            &&& end.b.insts[n + 2].op == OpV::Bin(BBin::Add, value_at(n + 1), by)
            &&& cell_of(end.b.insts[n + 3], slot, space)
            &&& writes(end.b.insts[n + 4], value_at(n + 3), ctr, space, value_at(n + 2))
            &&& left_by(end.b, step, TermV::Br(test))
            &&& end.b.cur == out
        }),
{
    reveal(close_range_s);
    reveal(load_scalar_s);
    reveal(store_scalar_s);
    reveal(synthetic_addr_s);
    reveal(low_u32);
}

/// The loop over a dimension of a tile counts from zero, and its body runs while the counter is
/// less than the extent; the position along the axis is what the test read.
pub proof fn law_tile_loop_opens(st: TlState, dims: Seq<DimV>, n: nat, span: Span)
    requires
        0 < n <= dims.len(),
        ({
            let s0 = open_tile_loop_s(st, dims, (n - 1) as nat, span).0;
            in_bounds(resolve_dim_s(s0, dims[n - 1], span).0, 4, 8)
        }),
    ensures
        ({
            let (s0, outer) = open_tile_loop_s(st, dims, (n - 1) as nat, span);
            let (s1, extent) = resolve_dim_s(s0, dims[n - 1], span);
            let (end, all) = open_tile_loop_s(st, dims, n, span);
            let i = s1.b.insts.len() as int;
            let k = s1.b.blocks.len() as int;
            let ctr = scalar_var(
                s1.next_slot,
                AddrSpace::Local,
                Elem::Int,
                BTy::Scalar(Scalar::I64),
            );
            let (test, body) = (BlockId(k as u32), BlockId((k + 1) as u32));
            let level = LoopLevel {
                cond_bb: test,
                step_bb: BlockId((k + 2) as u32),
                exit_bb: BlockId((k + 3) as u32),
                ctr_slot: s1.next_slot,
            };
            &&& end.b.insts[i].op == OpV::ConstInt(0)
            &&& cell_of(end.b.insts[i + 1], s1.next_slot, AddrSpace::Local)
            &&& writes(end.b.insts[i + 2], value_at(i + 1), ctr, AddrSpace::Local, value_at(i))
            &&& left_by(end.b, s1.b.cur, TermV::Br(test))
            &&& cell_of(end.b.insts[i + 3], s1.next_slot, AddrSpace::Local)
            &&& reads(end.b.insts[i + 4], value_at(i + 3), ctr, AddrSpace::Local)
            &&& end.b.insts[i + 5].op == OpV::ICmp(
                ICmpPred::Slt,
                BTy::Scalar(Scalar::I64),
                value_at(i + 4),
                extent,
            )
            &&& left_by(end.b, test, TermV::CondBr(value_at(i + 5), body, level.exit_bb))
            &&& end.b.cur == body
            &&& all.idx == outer.idx.push(value_at(i + 4))
            &&& all.bounds == outer.bounds.push(extent)
            &&& all.levels == outer.levels.push(level)
            &&& end.next_slot == s1.next_slot.wrapping_add(1)
        }),
{
    reveal(const_i64_s);
    reveal(load_scalar_s);
    reveal(store_scalar_s);
    reveal(synthetic_addr_s);
    reveal(low_u32);
}

/// The innermost of the loops over a tile is closed first: its body goes to its step, which adds
/// one to its counter and goes back to its test; then the others are closed behind it.
pub proof fn law_tile_loop_closes(st: TlState, levels: Seq<LoopLevel>)
    requires
        levels.len() == 1,
        in_bounds(st, 0, 8),
        levels[0].step_bb.0 < st.b.blocks.len(),
        levels[0].step_bb != st.b.cur,
    ensures
        ({
            let n = st.b.insts.len() as int;
            let l = levels[0];
            let end = close_tile_loop_s(st, levels, 1);
            let ctr = scalar_var(
                l.ctr_slot,
                AddrSpace::Local,
                Elem::Int,
                BTy::Scalar(Scalar::I64),
            );
            &&& left_by(end.b, st.b.cur, TermV::Br(l.step_bb))
            &&& cell_of(end.b.insts[n], l.ctr_slot, AddrSpace::Local)
            &&& reads(end.b.insts[n + 1], value_at(n), ctr, AddrSpace::Local)
            &&& end.b.insts[n + 2].op == OpV::ConstInt(1)
            &&& end.b.insts[n + 3].op == OpV::Bin(BBin::Add, value_at(n + 1), value_at(n + 2))
            &&& cell_of(end.b.insts[n + 4], l.ctr_slot, AddrSpace::Local)
            &&& writes(
                end.b.insts[n + 5],
                value_at(n + 4),
                ctr,
                AddrSpace::Local,
                value_at(n + 3),
            )
            &&& left_by(end.b, l.step_bb, TermV::Br(l.cond_bb))
            &&& end.b.cur == l.exit_bb
        }),
{
    reveal(const_i64_s);
    reveal(load_scalar_s);
    reveal(store_scalar_s);
    reveal(synthetic_addr_s);
    reveal(low_u32);
    reveal_with_fuel(close_tile_loop_s, 2);
}

/// `break` leaves the innermost loop and `continue` goes to its step; outside of a loop both are
/// reported.
pub proof fn law_jumps(st: TlState, is_break: bool, span: Span)
    requires
        in_bounds(st, 1, 0),
    ensures
        st.ctrl.len() > 0 ==> left_by(
            lower_jump_s(st, is_break, span).b,
            st.b.cur,
            TermV::Br(
                if is_break {
                    st.ctrl.last().0
                } else {
                    st.ctrl.last().1
                },
            ),
        ) && lower_jump_s(st, is_break, span).diags == st.diags,
        st.ctrl.len() == 0 ==> lower_jump_s(st, is_break, span).diags.len() == st.diags.len() + 1,
        lower_jump_s(st, is_break, span).b.cur == BlockId(st.b.blocks.len() as u32),
{
    reveal(lower_jump_s);
    reveal(low_u32);
}

} // verus!
