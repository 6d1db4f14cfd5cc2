//! That what a lowered kernel uses has been made: its operands are parameters and instructions
//! made before, and its branches go to blocks that there are.

use vstd::prelude::*;

use crate::bir::{
    float_zero, AddrSpace, BinOp as BBin, BlockId, OpV, Scalar, TermV, Ty as BTy, ValRef,
};
use crate::bits::low_u32;
use crate::diag::Span;
use crate::sema::builder::built;
use crate::sema::grow::{extends, group_grow};
use crate::sema::sound::{
    all_made, from_sound, group_sound, joined_up, law_sound_is_joined_up, lemma_sound_start, made,
    sound,
};
use crate::sema::triton_ast::{
    attr_of, expr_span, spec_is_name, BinOp, CmpOp, Expr, KernelFn, Param, Stmt, UnaryOp,
};
use crate::sema::triton_check::{index_steps, KernelShapesV};
use crate::sema::triton_lower::{
    alignment, alloc_block_s, apply_binop_s, apply_relation_s, close_range_s, close_tile_loop_s,
    const_i64_s, diag_s, dot_loops_s, dot_sum_s, elem_in, enter_s, eval_call_s, eval_chain_s,
    eval_expr_s, eval_masked_load_s, float_bty, fresh_state, get_or_new_scalar_var_s,
    get_or_new_tile_var_s, kept, kernel_lowered, kernels_lowered, keyword_at, leading, least,
    leave_s, linear_index_s, literal_of, load_scalar_s, lower_ann_assign_s, lower_assign_s,
    lower_augassign_s, lower_dot_stmt_s, lower_expr_stmt_s, lower_for_s, lower_if_s, lower_jump_s,
    lower_kernel_body_s, lower_range_s, lower_stmt_s, lower_stmts_s, lower_store_call_s,
    lower_tile_materialize_s, materialize_names_s, new_slot_id_s, open_range_s, open_tile_loop_s,
    program_id_s, push_s, push_void_s, range_bounds_s, resolve_dim_s, scalar_var,
    scale_by_elem_bytes_s, scratch_base_ptr_s, seed_params_s, set_cur_s, shape_in, store_element_s,
    store_inits_s, store_names_s, store_params_s, store_scalar_s, synthetic_addr_s, target_names,
    terminate_s, tile_dims_of, tile_elem_addr_s, tile_offset, var_of, width_of, zero_of_s, zeros_ty,
    LoopLevel, LoopsV, PendingV, Storage, TlState, VarV, DATA_ELEM_BYTES, MINUS_ONE,
};
use crate::sema::triton_ty::{broadcast, DimV, Elem, ReshapeStep, TileTyV};

verus! {

/// Whether the dimensions of every variable have been made.
#[verifier::opaque]
pub open spec fn vars_made(np: nat, n: nat, vars: Map<Seq<char>, VarV>) -> bool {
    forall|s: Seq<char>| vars.contains_key(s) ==> all_made(np, n, (#[trigger] vars[s]).dims)
}

broadcast proof fn lemma_vars_later(np: nat, n: nat, k: nat, vars: Map<Seq<char>, VarV>)
    requires
        #[trigger] vars_made(np, n, vars),
        n <= k,
    ensures
        #[trigger] vars_made(np, k, vars),
{
    reveal(vars_made);
    assert forall|s: Seq<char>| vars.contains_key(s) implies all_made(
        np,
        k,
        (#[trigger] vars[s]).dims,
    ) by {
        assert(all_made(np, n, vars[s].dims));
    }
}

broadcast proof fn lemma_vars_bound(
    np: nat,
    n: nat,
    vars: Map<Seq<char>, VarV>,
    name: Seq<char>,
    v: VarV,
)
    requires
        vars_made(np, n, vars),
        all_made(np, n, v.dims),
    ensures
        #[trigger] vars_made(np, n, vars.insert(name, v)),
{
    reveal(vars_made);
    let after = vars.insert(name, v);
    assert forall|s: Seq<char>| after.contains_key(s) implies all_made(
        np,
        n,
        (#[trigger] after[s]).dims,
    ) by {
        if s != name {
            assert(after[s] == vars[s]);
        }
    }
}

broadcast proof fn lemma_vars_found(np: nat, n: nat, vars: Map<Seq<char>, VarV>, s: Seq<char>)
    requires
        #[trigger] vars_made(np, n, vars),
        vars.contains_key(s),
    ensures
        all_made(np, n, (#[trigger] vars[s]).dims),
{
    reveal(vars_made);
}

broadcast group group_vars {
    lemma_vars_later,
    lemma_vars_bound,
    lemma_vars_found,
}

pub open spec fn levels_in(nb: nat, levels: Seq<LoopLevel>) -> bool {
    forall|i: int|
        0 <= i < levels.len() ==> {
            &&& (#[trigger] levels[i]).cond_bb.0 < nb
            &&& levels[i].step_bb.0 < nb
            &&& levels[i].exit_bb.0 < nb
        }
}

pub open spec fn loops_made(np: nat, n: nat, nb: nat, l: LoopsV) -> bool {
    all_made(np, n, l.idx) && all_made(np, n, l.bounds) && levels_in(nb, l.levels)
}

pub open spec fn pending_made(np: nat, n: nat, p: PendingV) -> bool {
    &&& forall|i: int| 0 <= i < p.inits.len() ==> all_made(np, n, (#[trigger] p.inits[i]).0.dims)
    &&& forall|i: int|
        0 <= i < p.stores.len() ==> all_made(np, n, (#[trigger] p.stores[i]).0.dims)
            && p.stores[i].1 < np
}

pub open spec fn ctrl_in(nb: nat, ctrl: Seq<(BlockId, BlockId)>) -> bool {
    forall|i: int| 0 <= i < ctrl.len() ==> (#[trigger] ctrl[i]).0.0 < nb && ctrl[i].1.0 < nb
}

/// Whether the kernel that is being lowered is sound, its loops are blocks of it, and what its
/// variables are made of has been made.
pub open spec fn fit(np: nat, st: TlState) -> bool {
    &&& sound(np, st.b)
    &&& vars_made(np, st.b.insts.len(), st.vars)
    &&& ctrl_in(st.b.blocks.len(), st.ctrl)
    &&& st.scratch matches Some(i) ==> i < np
}

/// Whether what was made is still there, in a sound kernel.
pub open spec fn going(np: nat, a: TlState, b: TlState) -> bool {
    &&& sound(np, b.b)
    &&& vars_made(np, b.b.insts.len(), b.vars)
    &&& a.b.insts.len() <= b.b.insts.len()
    &&& a.b.blocks.len() <= b.b.blocks.len()
    &&& extends(a.diags, b.diags)
    &&& b.scratch == a.scratch
}

/// Whether lowering went on: what was made and reported is still there, and the loops that are
/// open are the same.
pub open spec fn used(np: nat, a: TlState, b: TlState) -> bool {
    &&& going(np, a, b)
    &&& fit(np, b)
    &&& b.ctrl == a.ctrl
}

proof fn lemma_kept_made(np: nat, n: nat, steps: Seq<ReshapeStep>, idx: Seq<ValRef>, k: nat)
    requires
        all_made(np, n, idx),
        k <= idx.len(),
    ensures
        all_made(np, n, kept(steps, idx, k)),
    decreases k,
{
    if k > 0 {
        lemma_kept_made(np, n, steps, idx, (k - 1) as nat);
    }
}

// ---- every step ----------------------------------------------------------------------------

proof fn lemma_const_i64(np: nat, st: TlState, v: i64)
    requires
        fit(np, st),
    ensures
        ({
            let r = const_i64_s(st, v);
            &&& used(np, st, r.0)
            &&& made(np, r.0.b.insts.len(), r.1)
        }),
{
    broadcast use {group_grow, group_sound, group_vars};

    reveal(const_i64_s);
}

proof fn lemma_zero_of(np: nat, st: TlState, ty: BTy)
    requires
        fit(np, st),
    ensures
        ({
            let r = zero_of_s(st, ty);
            &&& used(np, st, r.0)
            &&& made(np, r.0.b.insts.len(), r.1)
        }),
{
    broadcast use {group_grow, group_sound, group_vars};

    reveal(zero_of_s);
}

proof fn lemma_scratch_base_ptr(np: nat, st: TlState, span: Span)
    requires
        fit(np, st),
    ensures
        ({
            let r = scratch_base_ptr_s(st, span);
            &&& used(np, st, r.0)
            &&& made(np, r.0.b.insts.len(), r.1)
        }),
{
    broadcast use {group_grow, group_sound, group_vars};

    reveal(scratch_base_ptr_s);
    let begin = st;
    match st.scratch {
        Some(idx) => {},
        None => {
            let st = diag_s(
                st,
                span,
                "tile materialization with no pointer parameter to carve scratch space from"@,
                "this kernel has no pointer-typed parameter at all"@,
            );
            assert(going(np, begin, st));
            lemma_const_i64(np, st, 0);
        },
    }
}

proof fn lemma_synthetic_addr(np: nat, st: TlState, slot: u32, space: AddrSpace)
    requires
        fit(np, st),
    ensures
        ({
            let r = synthetic_addr_s(st, slot, space);
            &&& used(np, st, r.0)
            &&& made(np, r.0.b.insts.len(), r.1)
        }),
{
    broadcast use {group_grow, group_sound, group_vars};

    reveal(synthetic_addr_s);
}

proof fn lemma_load_scalar(np: nat, st: TlState, v: VarV)
    requires
        fit(np, st),
        all_made(np, st.b.insts.len(), v.dims),
    ensures
        ({
            let r = load_scalar_s(st, v);
            &&& used(np, st, r.0)
            &&& made(np, r.0.b.insts.len(), r.1)
        }),
{
    broadcast use {group_grow, group_sound, group_vars};

    reveal(load_scalar_s);
    match v.storage {
        Storage::Synthetic { slot, space } => {
            lemma_synthetic_addr(np, st, slot, space);
        },
        Storage::Scratch { .. } => {
            lemma_const_i64(np, st, 0);
        },
    }
}

proof fn lemma_store_scalar(np: nat, st: TlState, v: VarV, val: ValRef)
    requires
        fit(np, st),
        all_made(np, st.b.insts.len(), v.dims),
        made(np, st.b.insts.len(), val),
    ensures
        used(np, st, store_scalar_s(st, v, val)),
{
    broadcast use {group_grow, group_sound, group_vars};

    reveal(store_scalar_s);
    match v.storage {
        Storage::Synthetic { slot, space } => {
            lemma_synthetic_addr(np, st, slot, space);
        },
        Storage::Scratch { .. } => {},
    }
}

proof fn lemma_linear_index(np: nat, st: TlState, v: VarV, idx: Seq<ValRef>, span: Span)
    requires
        fit(np, st),
        all_made(np, st.b.insts.len(), v.dims),
        all_made(np, st.b.insts.len(), idx),
    ensures
        ({
            let r = linear_index_s(st, v, idx, span);
            &&& used(np, st, r.0)
            &&& made(np, r.0.b.insts.len(), r.1)
        }),
{
    broadcast use {group_grow, group_sound, group_vars};

    reveal(linear_index_s);
    let begin = st;
    if !(idx.len() == 1) {
        if !(idx.len() == 2 && v.dims.len() == 2) {
            let st = diag_s(st, span, "tile used where a scalar is required"@, "not supported"@);
            assert(going(np, begin, st));
            lemma_const_i64(np, st, 0);
        }
    }
}

proof fn lemma_tile_elem_addr(np: nat, st: TlState, v: VarV, idx: Seq<ValRef>, span: Span)
    requires
        fit(np, st),
        all_made(np, st.b.insts.len(), v.dims),
        all_made(np, st.b.insts.len(), idx),
    ensures
        ({
            let r = tile_elem_addr_s(st, v, idx, span);
            &&& used(np, st, r.0)
            &&& made(np, r.0.b.insts.len(), r.1)
        }),
{
    broadcast use {group_grow, group_sound, group_vars};

    reveal(tile_elem_addr_s);
    let begin = st;
    match v.storage {
        Storage::Scratch { ordinal } => {
            lemma_scratch_base_ptr(np, st, span);
            let (st, scratch) = scratch_base_ptr_s(st, span);
            assert(going(np, begin, st));
            lemma_const_i64(np, st, tile_offset(ordinal));
            let (st, tile_off) = const_i64_s(st, tile_offset(ordinal));
            assert(going(np, begin, st));
            let (st, base) = push_s(
                st,
                BTy::Ptr(AddrSpace::Global),
                OpV::Bin(BBin::Add, scratch, tile_off),
            );
            assert(going(np, begin, st));
            lemma_linear_index(np, st, v, idx, span);
            let (st, lin) = linear_index_s(st, v, idx, span);
            assert(going(np, begin, st));
            lemma_const_i64(np, st, width_of(v.elem_bty));
        },
        Storage::Synthetic { slot, space } => {
            lemma_synthetic_addr(np, st, slot, space);
        },
    }
}

proof fn lemma_resolve_dim(np: nat, st: TlState, d: DimV, span: Span)
    requires
        fit(np, st),
    ensures
        ({
            let r = resolve_dim_s(st, d, span);
            &&& used(np, st, r.0)
            &&& made(np, r.0.b.insts.len(), r.1)
        }),
{
    broadcast use {group_grow, group_sound, group_vars};

    reveal(resolve_dim_s);
    let begin = st;
    match d {
        DimV::Const(n) => {
            lemma_const_i64(np, st, n);
        },
        DimV::Symbolic(name) => {
            let found = match var_of(st, name) {
                Some(v) => if v.shape is Scalar { Some(v) } else { None },
                None => None,
            };
            match found {
                Some(v) => {
                    lemma_load_scalar(np, st, v);
                },
                None => {
                    let st = diag_s(
                        st,
                        span,
                        "symbolic tile dimension '"@ + name + "'"@,
                        "not a bare constexpr parameter name this pass can resolve to a runtime value (a compound dimension expression is not re-evaluated)"@,
                    );
                    assert(going(np, begin, st));
                    lemma_const_i64(np, st, 1);
                },
            }
        },
    }
}

proof fn lemma_open_tile_loop(np: nat, st: TlState, dims: Seq<DimV>, n: nat, span: Span)
    requires
        fit(np, st),
    ensures
        ({
            let r = open_tile_loop_s(st, dims, n, span);
            &&& used(np, st, r.0)
            &&& loops_made(np, r.0.b.insts.len(), r.0.b.blocks.len(), r.1)
            &&& n <= dims.len() ==> r.1.idx.len() == n
        }),
    decreases n,
{
    broadcast use {group_grow, group_sound, group_vars};

    let begin = st;
    if !(n == 0 || n > dims.len()) {
        lemma_open_tile_loop(np, st, dims, (n - 1) as nat, span);
        let (st, l) = open_tile_loop_s(st, dims, (n - 1) as nat, span);
        assert(going(np, begin, st));
        lemma_resolve_dim(np, st, dims[n - 1], span);
        let (st, bound) = resolve_dim_s(st, dims[n - 1], span);
        assert(going(np, begin, st));
        let (st, ctr_slot) = new_slot_id_s(st);
        assert(going(np, begin, st));
        let ctr_vs = scalar_var(ctr_slot, AddrSpace::Local, Elem::Int, BTy::Scalar(Scalar::I64));
        lemma_const_i64(np, st, 0);
        let (st, zero) = const_i64_s(st, 0);
        assert(going(np, begin, st));
        lemma_store_scalar(np, st, ctr_vs, zero);
        let st = store_scalar_s(st, ctr_vs, zero);
        assert(going(np, begin, st));
        let (st, cond_bb) = alloc_block_s(st);
        assert(going(np, begin, st));
        let (st, body_bb) = alloc_block_s(st);
        assert(going(np, begin, st));
        let (st, step_bb) = alloc_block_s(st);
        assert(going(np, begin, st));
        let (st, exit_bb) = alloc_block_s(st);
        assert(going(np, begin, st));
        let st = terminate_s(st, TermV::Br(cond_bb));
        assert(going(np, begin, st));
        let st = set_cur_s(st, cond_bb);
        assert(going(np, begin, st));
        lemma_load_scalar(np, st, ctr_vs);
    }
}

proof fn lemma_close_tile_loop(np: nat, st: TlState, levels: Seq<LoopLevel>, n: nat)
    requires
        fit(np, st),
        levels_in(st.b.blocks.len(), levels),
    ensures
        used(np, st, close_tile_loop_s(st, levels, n)),
    decreases n,
{
    broadcast use {group_grow, group_sound, group_vars};

    let begin = st;
    if n > 0 && n <= levels.len() {
        let lvl = levels[n - 1];
        let st = terminate_s(st, TermV::Br(lvl.step_bb));
        assert(going(np, begin, st));
        let st = set_cur_s(st, lvl.step_bb);
        assert(going(np, begin, st));
        let ctr_vs = scalar_var(
            lvl.ctr_slot,
            AddrSpace::Local,
            Elem::Int,
            BTy::Scalar(Scalar::I64),
        );
        lemma_load_scalar(np, st, ctr_vs);
        let (st, iv) = load_scalar_s(st, ctr_vs);
        assert(going(np, begin, st));
        lemma_const_i64(np, st, 1);
        let (st, one) = const_i64_s(st, 1);
        assert(going(np, begin, st));
        let (st, next) = push_s(st, BTy::Scalar(Scalar::I64), OpV::Bin(BBin::Add, iv, one));
        assert(going(np, begin, st));
        lemma_store_scalar(np, st, ctr_vs, next);
        let st = store_scalar_s(st, ctr_vs, next);
        assert(going(np, begin, st));
        let st = terminate_s(st, TermV::Br(lvl.cond_bb));
        assert(going(np, begin, st));
        let st = set_cur_s(st, lvl.exit_bb);
        assert(going(np, begin, st));
        lemma_close_tile_loop(np, st, levels, (n - 1) as nat);
    }
}

proof fn lemma_get_or_new_scalar_var(np: nat, st: TlState, name: Seq<char>, elem_bty: BTy)
    requires
        fit(np, st),
    ensures
        ({
            let r = get_or_new_scalar_var_s(st, name, elem_bty);
            &&& used(np, st, r.0)
            &&& all_made(np, r.0.b.insts.len(), r.1.dims)
        }),
{
    broadcast use {group_grow, group_sound, group_vars};

    reveal(get_or_new_scalar_var_s);
}

proof fn lemma_get_or_new_tile_var(
    np: nat,
    st: TlState,
    name: Seq<char>,
    shape: TileTyV,
    elem_bty: BTy,
    dims: Seq<ValRef>,
)
    requires
        fit(np, st),
        all_made(np, st.b.insts.len(), dims),
    ensures
        ({
            let r = get_or_new_tile_var_s(st, name, shape, elem_bty, dims);
            &&& used(np, st, r.0)
            &&& all_made(np, r.0.b.insts.len(), r.1.dims)
        }),
{
    broadcast use {group_grow, group_sound, group_vars};

    reveal(get_or_new_tile_var_s);
}

proof fn lemma_apply_binop(
    np: nat,
    st: TlState,
    op: BinOp,
    l: ValRef,
    r2: ValRef,
    bty: BTy,
    span: Span,
)
    requires
        fit(np, st),
        made(np, st.b.insts.len(), l),
        made(np, st.b.insts.len(), r2),
    ensures
        ({
            let r = apply_binop_s(st, op, l, r2, bty, span);
            &&& used(np, st, r.0)
            &&& made(np, r.0.b.insts.len(), r.1)
        }),
{
    broadcast use {group_grow, group_sound, group_vars};

    reveal(apply_binop_s);
}

proof fn lemma_apply_relation(
    np: nat,
    st: TlState,
    op: CmpOp,
    l: ValRef,
    r2: ValRef,
    is_float: bool,
    span: Span,
)
    requires
        fit(np, st),
        made(np, st.b.insts.len(), l),
        made(np, st.b.insts.len(), r2),
    ensures
        ({
            let r = apply_relation_s(st, op, l, r2, is_float, span);
            &&& used(np, st, r.0)
            &&& made(np, r.0.b.insts.len(), r.1)
        }),
{
    broadcast use {group_grow, group_sound, group_vars};

    reveal(apply_relation_s);
}

proof fn lemma_scale_by_elem_bytes(np: nat, st: TlState, v: ValRef)
    requires
        fit(np, st),
        made(np, st.b.insts.len(), v),
    ensures
        ({
            let r = scale_by_elem_bytes_s(st, v);
            &&& used(np, st, r.0)
            &&& made(np, r.0.b.insts.len(), r.1)
        }),
{
    broadcast use {group_grow, group_sound, group_vars};

    reveal(scale_by_elem_bytes_s);
    lemma_const_i64(np, st, DATA_ELEM_BYTES);
}

proof fn lemma_eval_chain(
    np: nat,
    st: TlState,
    ops: Seq<CmpOp>,
    es: Seq<Expr>,
    i: nat,
    prev: ValRef,
    acc: Option<ValRef>,
    is_float: bool,
    idx: Seq<ValRef>,
    span: Span,
)
    requires
        fit(np, st),
        made(np, st.b.insts.len(), prev),
        acc matches Some(x) ==> made(np, st.b.insts.len(), x),
        all_made(np, st.b.insts.len(), idx),
    ensures
        ({
            let r = eval_chain_s(st, ops, es, i, prev, acc, is_float, idx, span);
            &&& used(np, st, r.0)
            &&& r.1 matches Some(x) ==> made(np, r.0.b.insts.len(), x)
        }),
    decreases es, es.len() - i,
{
    broadcast use {group_grow, group_sound, group_vars};

    let begin = st;
    if i < ops.len() && i < es.len() {
        lemma_eval_expr(np, st, es[i as int], idx);
        let (st, rv) = eval_expr_s(st, es[i as int], idx);
        assert(going(np, begin, st));
        lemma_apply_relation(np, st, ops[i as int], prev, rv, is_float, span);
        let (st, c) = apply_relation_s(st, ops[i as int], prev, rv, is_float, span);
        assert(going(np, begin, st));
        let (st, next) = match acc {
            None => {
                (st, c)
            },
            Some(a) => {
                push_s(st, BTy::Scalar(Scalar::I1), OpV::Bin(BBin::And, a, c))
            },
        };
        assert(going(np, begin, st));
        lemma_eval_chain(np, st, ops, es, i + 1, rv, Some(next), is_float, idx, span);
    }
}

#[verifier::rlimit(80)]
proof fn lemma_eval_expr(np: nat, st: TlState, e: Expr, outer: Seq<ValRef>)
    requires
        fit(np, st),
        all_made(np, st.b.insts.len(), outer),
    ensures
        ({
            let r = eval_expr_s(st, e, outer);
            &&& used(np, st, r.0)
            &&& made(np, r.0.b.insts.len(), r.1)
        }),
    decreases e, 9nat,
{
    broadcast use {group_grow, group_sound, group_vars};

    let begin = st;
    let idx = leading(outer, shape_in(st, e));
    match e {
        Expr::Name { name, span } => {
            match var_of(st, name@) {
                Some(v) => {
                    if (v.shape is Scalar) {
                        lemma_load_scalar(np, st, v);
                    } else {
                        lemma_tile_elem_addr(np, st, v, idx, span);
                    }
                },
                None => {
                    let st = diag_s(
                        st,
                        span,
                        "reference to undefined name '"@ + name@ + "'"@,
                        "cannot lower"@,
                    );
                    assert(going(np, begin, st));
                    lemma_const_i64(np, st, 0);
                },
            }
        },
        Expr::IntLit { span, .. } => {
            match literal_of(e) {
                Some(v) => {
                    lemma_const_i64(np, st, v);
                },
                None => {
                    let st = diag_s(st, span, "integer literal"@, "could not be parsed"@);
                    assert(going(np, begin, st));
                    lemma_const_i64(np, st, 0);
                },
            }
        },
        Expr::FloatLit { value, span } => {},
        Expr::BoolLit { value, .. } => {},
        Expr::UnaryOp { op, operand, span } => {
            let is_float = float_bty(elem_in(st, *operand));
            lemma_eval_expr(np, st, *operand, idx);
            let (st, v) = eval_expr_s(st, *operand, idx);
            assert(going(np, begin, st));
            match op {
                UnaryOp::UAdd => {},
                UnaryOp::USub => {
                    if is_float {
                        let (st, zero) = push_s(
                            st,
                            BTy::Scalar(Scalar::F32),
                            OpV::ConstFloat(float_zero()),
                        );
                        assert(going(np, begin, st));
                        lemma_apply_binop(
                            np,
                            st,
                            BinOp::Sub,
                            zero,
                            v,
                            BTy::Scalar(Scalar::F32),
                            span,
                        );
                    } else {
                        lemma_const_i64(np, st, 0);
                        let (st, zero) = const_i64_s(st, 0);
                        assert(going(np, begin, st));
                        lemma_apply_binop(
                            np,
                            st,
                            BinOp::Sub,
                            zero,
                            v,
                            BTy::Scalar(Scalar::I64),
                            span,
                        );
                    }
                },
                UnaryOp::Not => {},
                UnaryOp::Invert => {
                    lemma_const_i64(np, st, MINUS_ONE);
                },
            }
        },
        Expr::BinOp { op, lhs, rhs, span } => {
            let bty = elem_in(st, e);
            let lbty = elem_in(st, *lhs);
            let rbty = elem_in(st, *rhs);
            lemma_eval_expr(np, st, *lhs, idx);
            let (st, l0) = eval_expr_s(st, *lhs, idx);
            assert(going(np, begin, st));
            lemma_eval_expr(np, st, *rhs, idx);
            let (st, r0) = eval_expr_s(st, *rhs, idx);
            assert(going(np, begin, st));
            if (bty is Ptr) && !(lbty is Ptr) {
                lemma_scale_by_elem_bytes(np, st, l0);
            }
            let (st, l) = if (bty is Ptr) && !(lbty is Ptr) {
                scale_by_elem_bytes_s(st, l0)
            } else {
                (st, l0)
            };
            assert(going(np, begin, st));
            if (bty is Ptr) && !(rbty is Ptr) {
                lemma_scale_by_elem_bytes(np, st, r0);
            }
            let (st, r2) = if (bty is Ptr) && !(rbty is Ptr) {
                scale_by_elem_bytes_s(st, r0)
            } else {
                (st, r0)
            };
            assert(going(np, begin, st));
            lemma_apply_binop(np, st, op, l, r2, bty, span);
        },
        Expr::Compare { left, ops, comparators, span } => {
            let is_float = float_bty(elem_in(st, *left));
            lemma_eval_expr(np, st, *left, idx);
            let (st, first) = eval_expr_s(st, *left, idx);
            assert(going(np, begin, st));
            lemma_eval_chain(np, st, ops@, comparators@, 0, first, None, is_float, idx, span);
        },
        Expr::Subscript { value, index, span } => {
            match index_steps(*index) {
                Some(steps) => {
                    let inner = kept(steps, idx, least(steps.len(), idx.len()));
                    lemma_kept_made(
                        np,
                        st.b.insts.len(),
                        steps,
                        idx,
                        least(steps.len(), idx.len()),
                    );
                    lemma_eval_expr(np, st, *value, inner);
                },
                None => {
                    let st = diag_s(
                        st,
                        span,
                        "tile subscript other than a '[:, None]'/'[None, :]' reshape"@,
                        "not supported"@,
                    );
                    assert(going(np, begin, st));
                    lemma_const_i64(np, st, 0);
                },
            }
        },
        Expr::Call { .. } => {
            lemma_eval_call(np, st, e, idx);
        },
        _ => {
            let st = diag_s(
                st,
                expr_span(e),
                "expression form"@,
                "not supported by tile lowering"@,
            );
            assert(going(np, begin, st));
            lemma_const_i64(np, st, 0);
        },
    }
}

proof fn lemma_program_id(np: nat, st: TlState, args: Seq<Expr>, span: Span)
    requires
        fit(np, st),
    ensures
        ({
            let r = program_id_s(st, args, span);
            &&& used(np, st, r.0)
            &&& made(np, r.0.b.insts.len(), r.1)
        }),
{
    broadcast use {group_grow, group_sound, group_vars};

    reveal(program_id_s);
    let begin = st;
    let axis: i64 = if args.len() > 0 {
        match literal_of(args[0]) { Some(n) => n, None => 0 }
    } else {
        0
    };
    if !(axis == 0) {
        if !(axis == 1) {
            if !(axis == 2) {
                let st = diag_s(st, span, "'tl.program_id' axis"@, "must be 0, 1, or 2"@);
                assert(going(np, begin, st));
                lemma_const_i64(np, st, 0);
            }
        }
    }
}

proof fn lemma_eval_call(np: nat, st: TlState, e: Expr, idx: Seq<ValRef>)
    requires
        fit(np, st),
        all_made(np, st.b.insts.len(), idx),
    ensures
        ({
            let r = eval_call_s(st, e, idx);
            &&& used(np, st, r.0)
            &&& made(np, r.0.b.insts.len(), r.1)
        }),
    decreases e, 8nat,
{
    broadcast use {group_grow, group_sound, group_vars};

    let begin = st;
    match e {
        Expr::Call { func, args, keywords, span } => {
            if (attr_of(*func) == Some("arange"@)) {
                if args@.len() != 2 || idx.len() != 1 {
                    let st = diag_s(
                        st,
                        span,
                        "'tl.arange' in an unexpected context"@,
                        "expected exactly two arguments in a rank-1 context"@,
                    );
                    assert(going(np, begin, st));
                    lemma_const_i64(np, st, 0);
                } else {
                    lemma_eval_expr(np, st, args@[0], Seq::<ValRef>::empty());
                }
            } else {
                if (attr_of(*func) == Some("load"@)) {
                    lemma_eval_masked_load(np, st, e, idx);
                } else {
                    if (attr_of(*func) == Some("program_id"@)) {
                        lemma_program_id(np, st, args@, span);
                    } else {
                        if (attr_of(*func) == Some("zeros"@)) {
                            lemma_zero_of(np, st, zeros_ty(keywords@));
                        } else {
                            if (attr_of(*func) == Some("dot"@)) {
                                let st = diag_s(
                                    st,
                                    span,
                                    "'tl.dot' used somewhere other than directly as an assignment's right-hand side"@,
                                    "not supported"@,
                                );
                                assert(going(np, begin, st));
                                lemma_const_i64(np, st, 0);
                            } else {
                                let st = diag_s(
                                    st,
                                    span,
                                    "call"@,
                                    "unrecognized or unsupported callee in tile lowering"@,
                                );
                                assert(going(np, begin, st));
                                lemma_const_i64(np, st, 0);
                            }
                        }
                    }
                }
            }
        },
        _ => {
            lemma_const_i64(np, st, 0);
        },
    }
}

#[verifier::rlimit(40)]
proof fn lemma_eval_masked_load(np: nat, st: TlState, e: Expr, idx: Seq<ValRef>)
    requires
        fit(np, st),
        all_made(np, st.b.insts.len(), idx),
    ensures
        ({
            let r = eval_masked_load_s(st, e, idx);
            &&& used(np, st, r.0)
            &&& made(np, r.0.b.insts.len(), r.1)
        }),
    decreases e, 7nat,
{
    broadcast use {group_grow, group_sound, group_vars};

    let begin = st;
    match e {
        Expr::Call { args, keywords, span, .. } => {
            if args@.len() == 0 {
                let st = diag_s(st, span, "'tl.load' with no pointer argument"@, "cannot lower"@);
                assert(going(np, begin, st));
                lemma_const_i64(np, st, 0);
            } else {
                lemma_eval_expr(np, st, args@[0], idx);
                let (st, ptr_val) = eval_expr_s(st, args@[0], idx);
                assert(going(np, begin, st));
                let (st, tmp_slot) = new_slot_id_s(st);
                assert(going(np, begin, st));
                let tmp_vs = scalar_var(
                    tmp_slot,
                    AddrSpace::Local,
                    Elem::Float,
                    BTy::Scalar(Scalar::F32),
                );
                let mask = keyword_at(keywords@, "mask"@);
                match mask {
                    None => {
                        let (st, v) = push_s(
                            st,
                            BTy::Scalar(Scalar::F32),
                            OpV::Load {
                                ptr: ptr_val,
                                space: AddrSpace::Global,
                                align: alignment(BTy::Scalar(Scalar::F32)),
                                volatile: false,
                            },
                        );
                        assert(going(np, begin, st));
                        lemma_store_scalar(np, st, tmp_vs, v);
                    },
                    Some(k) => {
                        if k < keywords@.len() {
                            lemma_eval_expr(np, st, keywords@[k as int].value, idx);
                        } else {
                            lemma_const_i64(np, st, 0);
                        }
                        let (st, mask_val) = if k < keywords@.len() {
                            eval_expr_s(st, keywords@[k as int].value, idx)
                        } else {
                            const_i64_s(st, 0)
                        };
                        assert(going(np, begin, st));
                        let (st, load_bb) = alloc_block_s(st);
                        assert(going(np, begin, st));
                        let (st, other_bb) = alloc_block_s(st);
                        assert(going(np, begin, st));
                        let (st, merge_bb) = alloc_block_s(st);
                        assert(going(np, begin, st));
                        let st = terminate_s(st, TermV::CondBr(mask_val, load_bb, other_bb));
                        assert(going(np, begin, st));
                        let st = set_cur_s(st, load_bb);
                        assert(going(np, begin, st));
                        let (st, v) = push_s(
                            st,
                            BTy::Scalar(Scalar::F32),
                            OpV::Load {
                                ptr: ptr_val,
                                space: AddrSpace::Global,
                                align: alignment(BTy::Scalar(Scalar::F32)),
                                volatile: false,
                            },
                        );
                        assert(going(np, begin, st));
                        lemma_store_scalar(np, st, tmp_vs, v);
                        let st = store_scalar_s(st, tmp_vs, v);
                        assert(going(np, begin, st));
                        let st = terminate_s(st, TermV::Br(merge_bb));
                        assert(going(np, begin, st));
                        let st = set_cur_s(st, other_bb);
                        assert(going(np, begin, st));
                        let other = keyword_at(keywords@, "other"@);
                        match other {
                            Some(j) => {
                                if j < keywords@.len() {
                                    lemma_eval_expr(np, st, keywords@[j as int].value, idx);
                                } else {
                                    lemma_const_i64(np, st, 0);
                                }
                            },
                            None => {
                                lemma_zero_of(np, st, BTy::Scalar(Scalar::F32));
                            },
                        }
                        let (st, ov) = match other {
                            Some(j) => {
                                if j < keywords@.len() {
                                    eval_expr_s(st, keywords@[j as int].value, idx)
                                } else {
                                    const_i64_s(st, 0)
                                }
                            },
                            None => {
                                zero_of_s(st, BTy::Scalar(Scalar::F32))
                            },
                        };
                        assert(going(np, begin, st));
                        lemma_store_scalar(np, st, tmp_vs, ov);
                    },
                }
                let st = match mask {
                    None => {
                        let (st, v) = push_s(
                            st,
                            BTy::Scalar(Scalar::F32),
                            OpV::Load {
                                ptr: ptr_val,
                                space: AddrSpace::Global,
                                align: alignment(BTy::Scalar(Scalar::F32)),
                                volatile: false,
                            },
                        );
                        store_scalar_s(st, tmp_vs, v)
                    },
                    Some(k) => {
                        let (st, mask_val) = if k < keywords@.len() {
                            eval_expr_s(st, keywords@[k as int].value, idx)
                        } else {
                            const_i64_s(st, 0)
                        };
                        let (st, load_bb) = alloc_block_s(st);
                        let (st, other_bb) = alloc_block_s(st);
                        let (st, merge_bb) = alloc_block_s(st);
                        let st = terminate_s(st, TermV::CondBr(mask_val, load_bb, other_bb));
                        let st = set_cur_s(st, load_bb);
                        let (st, v) = push_s(
                            st,
                            BTy::Scalar(Scalar::F32),
                            OpV::Load {
                                ptr: ptr_val,
                                space: AddrSpace::Global,
                                align: alignment(BTy::Scalar(Scalar::F32)),
                                volatile: false,
                            },
                        );
                        let st = store_scalar_s(st, tmp_vs, v);
                        let st = terminate_s(st, TermV::Br(merge_bb));
                        let st = set_cur_s(st, other_bb);
                        let other = keyword_at(keywords@, "other"@);
                        let (st, ov) = match other {
                            Some(j) => {
                                if j < keywords@.len() {
                                    eval_expr_s(st, keywords@[j as int].value, idx)
                                } else {
                                    const_i64_s(st, 0)
                                }
                            },
                            None => {
                                zero_of_s(st, BTy::Scalar(Scalar::F32))
                            },
                        };
                        let st = store_scalar_s(st, tmp_vs, ov);
                        let st = terminate_s(st, TermV::Br(merge_bb));
                        set_cur_s(st, merge_bb)
                    },
                };
                assert(going(np, begin, st));
                lemma_load_scalar(np, st, tmp_vs);
            }
        },
        _ => {
            lemma_const_i64(np, st, 0);
        },
    }
}

proof fn lemma_store_names(np: nat, st: TlState, names: Seq<Seq<char>>, n: nat, bty: BTy, v: ValRef)
    requires
        fit(np, st),
        made(np, st.b.insts.len(), v),
    ensures
        used(np, st, store_names_s(st, names, n, bty, v)),
    decreases n,
{
    broadcast use {group_grow, group_sound, group_vars};

    let begin = st;
    if n > 0 && n <= names.len() {
        lemma_store_names(np, st, names, (n - 1) as nat, bty, v);
        let st = store_names_s(st, names, (n - 1) as nat, bty, v);
        assert(going(np, begin, st));
        lemma_get_or_new_scalar_var(np, st, names[n - 1], bty);
        let (st, vs) = get_or_new_scalar_var_s(st, names[n - 1], bty);
        assert(going(np, begin, st));
        lemma_store_scalar(np, st, vs, v);
    }
}

proof fn lemma_lower_tile_materialize(
    np: nat,
    st: TlState,
    name: Seq<char>,
    value: Expr,
    shape: TileTyV,
    span: Span,
)
    requires
        fit(np, st),
    ensures
        used(np, st, lower_tile_materialize_s(st, name, value, shape, span)),
{
    broadcast use {group_grow, group_sound, group_vars};

    reveal(lower_tile_materialize_s);
    let begin = st;
    let elem_bty = elem_in(st, value);
    lemma_open_tile_loop(np, st, tile_dims_of(shape), tile_dims_of(shape).len(), span);
    let (st, l) = open_tile_loop_s(st, tile_dims_of(shape), tile_dims_of(shape).len(), span);
    assert(going(np, begin, st));
    lemma_get_or_new_tile_var(np, st, name, shape, elem_bty, l.bounds);
    let (st, vs) = get_or_new_tile_var_s(st, name, shape, elem_bty, l.bounds);
    assert(going(np, begin, st));
    lemma_eval_expr(np, st, value, l.idx);
    let (st, val) = eval_expr_s(st, value, l.idx);
    assert(going(np, begin, st));
    lemma_tile_elem_addr(np, st, vs, l.idx, span);
    let (st, addr) = tile_elem_addr_s(st, vs, l.idx, span);
    assert(going(np, begin, st));
    let st = push_void_s(
        st,
        OpV::Store {
            ptr: addr,
            val,
            ty: elem_bty,
            space: AddrSpace::Global,
            align: alignment(elem_bty),
            volatile: false,
        },
    );
    assert(going(np, begin, st));
    lemma_close_tile_loop(np, st, l.levels, l.levels.len());
}

proof fn lemma_materialize_names(
    np: nat,
    st: TlState,
    names: Seq<Seq<char>>,
    n: nat,
    value: Expr,
    shape: TileTyV,
    span: Span,
)
    requires
        fit(np, st),
    ensures
        used(np, st, materialize_names_s(st, names, n, value, shape, span)),
    decreases n,
{
    broadcast use {group_grow, group_sound, group_vars};

    let begin = st;
    if n > 0 && n <= names.len() {
        lemma_materialize_names(np, st, names, (n - 1) as nat, value, shape, span);
        let st = materialize_names_s(st, names, (n - 1) as nat, value, shape, span);
        assert(going(np, begin, st));
        lemma_lower_tile_materialize(np, st, names[n - 1], value, shape, span);
    }
}

proof fn lemma_lower_dot_stmt(np: nat, st: TlState, name: Seq<char>, args: Seq<Expr>, span: Span)
    requires
        fit(np, st),
    ensures
        used(np, st, lower_dot_stmt_s(st, name, args, span)),
{
    broadcast use {group_grow, group_sound, group_vars};

    reveal(lower_dot_stmt_s);
    if !(args.len() < 2) {
        let a_shape = shape_in(st, args[0]);
        let b_shape = shape_in(st, args[1]);
        match a_shape {
            TileTyV::Rank2(m, k1) => {
                match b_shape {
                    TileTyV::Rank2(k2, n) => {
                        if !(k1 != k2) {
                            lemma_dot_loops(np, st, name, args, m, k1, n, span);
                        }
                    },
                    _ => {},
                }
            },
            _ => {},
        }
    }
}

proof fn lemma_dot_sum(
    np: nat,
    st: TlState,
    a: Expr,
    b: Expr,
    k: DimV,
    row: ValRef,
    column: ValRef,
    init: ValRef,
    span: Span,
)
    requires
        fit(np, st),
        made(np, st.b.insts.len(), row),
        made(np, st.b.insts.len(), column),
        made(np, st.b.insts.len(), init),
    ensures
        ({
            let r = dot_sum_s(st, a, b, k, row, column, init, span);
            &&& used(np, st, r.0)
            &&& made(np, r.0.b.insts.len(), r.1)
        }),
{
    broadcast use {group_grow, group_sound, group_vars};

    reveal(dot_sum_s);
    let begin = st;
    let (st, sum_slot) = new_slot_id_s(st);
    assert(going(np, begin, st));
    let sum_vs = scalar_var(sum_slot, AddrSpace::Local, Elem::Float, BTy::Scalar(Scalar::F32));
    lemma_store_scalar(np, st, sum_vs, init);
    let st = store_scalar_s(st, sum_vs, init);
    assert(going(np, begin, st));
    lemma_open_tile_loop(np, st, seq![k], 1, span);
    let (st, lk) = open_tile_loop_s(st, seq![k], 1, span);
    assert(going(np, begin, st));
    let at = lk.idx[0];
    lemma_eval_expr(np, st, a, seq![row, at]);
    let (st, a_val) = eval_expr_s(st, a, seq![row, at]);
    assert(going(np, begin, st));
    lemma_eval_expr(np, st, b, seq![at, column]);
    let (st, b_val) = eval_expr_s(st, b, seq![at, column]);
    assert(going(np, begin, st));
    let (st, prod) = push_s(st, BTy::Scalar(Scalar::F32), OpV::Bin(BBin::FMul, a_val, b_val));
    assert(going(np, begin, st));
    lemma_load_scalar(np, st, sum_vs);
    let (st, cur_sum) = load_scalar_s(st, sum_vs);
    assert(going(np, begin, st));
    let (st, new_sum) = push_s(st, BTy::Scalar(Scalar::F32), OpV::Bin(BBin::FAdd, cur_sum, prod));
    assert(going(np, begin, st));
    lemma_store_scalar(np, st, sum_vs, new_sum);
    let st = store_scalar_s(st, sum_vs, new_sum);
    assert(going(np, begin, st));
    lemma_close_tile_loop(np, st, lk.levels, lk.levels.len());
    let st = close_tile_loop_s(st, lk.levels, lk.levels.len());
    assert(going(np, begin, st));
    lemma_load_scalar(np, st, sum_vs);
}

proof fn lemma_dot_loops(
    np: nat,
    st: TlState,
    name: Seq<char>,
    args: Seq<Expr>,
    m: DimV,
    k: DimV,
    n: DimV,
    span: Span,
)
    requires
        fit(np, st),
    ensures
        used(np, st, dot_loops_s(st, name, args, m, k, n, span)),
{
    broadcast use {group_grow, group_sound, group_vars};

    reveal(dot_loops_s);
    assert(tile_dims_of(TileTyV::Rank2(m, n)) =~= seq![m, n]);
    let begin = st;
    let out_shape = TileTyV::Rank2(m, n);
    lemma_open_tile_loop(np, st, tile_dims_of(out_shape), 2, span);
    let (st, l) = open_tile_loop_s(st, tile_dims_of(out_shape), 2, span);
    assert(going(np, begin, st));
    lemma_get_or_new_tile_var(np, st, name, out_shape, BTy::Scalar(Scalar::F32), l.bounds);
    let (st, dest) = get_or_new_tile_var_s(st, name, out_shape, BTy::Scalar(Scalar::F32), l.bounds);
    assert(going(np, begin, st));
    if args.len() > 2 {
        lemma_eval_expr(np, st, args[2], l.idx);
    } else {
        lemma_zero_of(np, st, BTy::Scalar(Scalar::F32));
    }
    let (st, init) = if args.len() > 2 {
        eval_expr_s(st, args[2], l.idx)
    } else {
        zero_of_s(st, BTy::Scalar(Scalar::F32))
    };
    assert(going(np, begin, st));
    lemma_dot_sum(np, st, args[0], args[1], k, l.idx[0], l.idx[1], init, span);
    let (st, sum) = dot_sum_s(st, args[0], args[1], k, l.idx[0], l.idx[1], init, span);
    assert(going(np, begin, st));
    lemma_tile_elem_addr(np, st, dest, l.idx, span);
    let (st, addr) = tile_elem_addr_s(st, dest, l.idx, span);
    assert(going(np, begin, st));
    let st = push_void_s(
        st,
        OpV::Store {
            ptr: addr,
            val: sum,
            ty: BTy::Scalar(Scalar::F32),
            space: AddrSpace::Global,
            align: alignment(BTy::Scalar(Scalar::F32)),
            volatile: false,
        },
    );
    assert(going(np, begin, st));
    lemma_close_tile_loop(np, st, l.levels, l.levels.len());
}

proof fn lemma_store_element(
    np: nat,
    st: TlState,
    addr: ValRef,
    val: ValRef,
    bty: BTy,
    mask: Option<ValRef>,
)
    requires
        fit(np, st),
        made(np, st.b.insts.len(), addr),
        made(np, st.b.insts.len(), val),
        mask matches Some(x) ==> made(np, st.b.insts.len(), x),
    ensures
        used(np, st, store_element_s(st, addr, val, bty, mask)),
{
    broadcast use {group_grow, group_sound, group_vars};

    reveal(store_element_s);
}

proof fn lemma_lower_store_call(np: nat, st: TlState, e: Expr)
    requires
        fit(np, st),
    ensures
        used(np, st, lower_store_call_s(st, e)),
{
    broadcast use {group_grow, group_sound, group_vars};

    reveal(lower_store_call_s);
    let begin = st;
    match e {
        Expr::Call { args, keywords, span, .. } => {
            if !(args@.len() < 2) {
                let shape = shape_in(st, args@[1]);
                if !(shape is Unknown) {
                    let elem_bty = elem_in(st, args@[1]);
                    lemma_open_tile_loop(
                        np,
                        st,
                        tile_dims_of(shape),
                        tile_dims_of(shape).len(),
                        span,
                    );
                    let (st, l) = open_tile_loop_s(
                        st,
                        tile_dims_of(shape),
                        tile_dims_of(shape).len(),
                        span,
                    );
                    assert(going(np, begin, st));
                    lemma_eval_expr(np, st, args@[0], l.idx);
                    let (st, addr) = eval_expr_s(st, args@[0], l.idx);
                    assert(going(np, begin, st));
                    lemma_eval_expr(np, st, args@[1], l.idx);
                    let (st, val) = eval_expr_s(st, args@[1], l.idx);
                    assert(going(np, begin, st));
                    let found = keyword_at(keywords@, "mask"@);
                    match found {
                        Some(k) => {
                            if k < keywords@.len() {
                                lemma_eval_expr(np, st, keywords@[k as int].value, l.idx);
                            } else {
                                lemma_const_i64(np, st, 0);
                            }
                        },
                        None => {},
                    }
                    let (st, mask) = match found {
                        Some(k) => {
                            let (st, m) = if k < keywords@.len() {
                                eval_expr_s(st, keywords@[k as int].value, l.idx)
                            } else {
                                const_i64_s(st, 0)
                            };
                            (st, Some(m))
                        },
                        None => {
                            (st, None)
                        },
                    };
                    assert(going(np, begin, st));
                    lemma_store_element(np, st, addr, val, elem_bty, mask);
                    let st = store_element_s(st, addr, val, elem_bty, mask);
                    assert(going(np, begin, st));
                    lemma_close_tile_loop(np, st, l.levels, l.levels.len());
                }
            }
        },
        _ => {},
    }
}

proof fn lemma_lower_expr_stmt(np: nat, st: TlState, value: Expr, span: Span)
    requires
        fit(np, st),
    ensures
        used(np, st, lower_expr_stmt_s(st, value, span)),
{
    broadcast use {group_grow, group_sound, group_vars};

    reveal(lower_expr_stmt_s);
    let is_store = match value {
        Expr::Call { func, args, keywords, span: sp } => attr_of(*func) == Some("store"@),
        _ => false,
    };
    if is_store {
        lemma_lower_store_call(np, st, value);
    } else {
        let shape = shape_in(st, value);
        if (shape is Scalar) {
            lemma_eval_expr(np, st, value, Seq::<ValRef>::empty());
        }
    }
}

#[verifier::rlimit(40)]
proof fn lemma_lower_assign(np: nat, st: TlState, targets: Seq<Expr>, value: Expr, span: Span)
    requires
        fit(np, st),
    ensures
        used(np, st, lower_assign_s(st, targets, value, span)),
{
    broadcast use {group_grow, group_sound, group_vars};

    reveal(lower_assign_s);
    let begin = st;
    let found = target_names(targets, targets.len());
    match found {
        None => {},
        Some(names) => {
            if names.len() > 0 {
                let is_dot = match value {
                    Expr::Call { func, args, keywords, span: sp } => attr_of(*func) == Some("dot"@),
                    _ => false,
                };
                if is_dot {
                    if !(names.len() != 1) {
                        match value {
                            Expr::Call { args, span: call_span, .. } => {
                                lemma_lower_dot_stmt(np, st, names[0], args@, call_span);
                            },
                            _ => {},
                        }
                    }
                } else {
                    let shape = shape_in(st, value);
                    if (shape is Scalar) {
                        let elem_bty = elem_in(st, value);
                        lemma_eval_expr(np, st, value, Seq::<ValRef>::empty());
                        let (st, v) = eval_expr_s(st, value, Seq::<ValRef>::empty());
                        assert(going(np, begin, st));
                        lemma_store_names(np, st, names, names.len(), elem_bty, v);
                    } else {
                        if !(shape is Unknown) {
                            lemma_materialize_names(np, st, names, names.len(), value, shape, span);
                        }
                    }
                }
            }
        },
    }
}

proof fn lemma_lower_ann_assign(np: nat, st: TlState, target: Expr, value: Option<Expr>, span: Span)
    requires
        fit(np, st),
    ensures
        used(np, st, lower_ann_assign_s(st, target, value, span)),
{
    broadcast use {group_grow, group_sound, group_vars};

    reveal(lower_ann_assign_s);
    let begin = st;
    match target {
        Expr::Name { name, .. } => {
            match value {
                Some(v) => {
                    let elem_bty = elem_in(st, v);
                    lemma_eval_expr(np, st, v, Seq::<ValRef>::empty());
                    let (st, val) = eval_expr_s(st, v, Seq::<ValRef>::empty());
                    assert(going(np, begin, st));
                    lemma_get_or_new_scalar_var(np, st, name@, elem_bty);
                    let (st, vs) = get_or_new_scalar_var_s(st, name@, elem_bty);
                    assert(going(np, begin, st));
                    lemma_store_scalar(np, st, vs, val);
                },
                None => {},
            }
        },
        _ => {},
    }
}

proof fn lemma_lower_augassign(
    np: nat,
    st: TlState,
    target: Expr,
    op: BinOp,
    value: Expr,
    span: Span,
)
    requires
        fit(np, st),
    ensures
        used(np, st, lower_augassign_s(st, target, op, value, span)),
{
    broadcast use {group_grow, group_sound, group_vars};

    reveal(lower_augassign_s);
    let begin = st;
    match target {
        Expr::Name { name, .. } => {
            match var_of(st, name@) {
                None => {},
                Some(vs) => {
                    if !(!(vs.shape is Scalar)) {
                        lemma_load_scalar(np, st, vs);
                        let (st, cur) = load_scalar_s(st, vs);
                        assert(going(np, begin, st));
                        lemma_eval_expr(np, st, value, Seq::<ValRef>::empty());
                        let (st, rhs) = eval_expr_s(st, value, Seq::<ValRef>::empty());
                        assert(going(np, begin, st));
                        lemma_apply_binop(np, st, op, cur, rhs, vs.elem_bty, span);
                        let (st, result) = apply_binop_s(st, op, cur, rhs, vs.elem_bty, span);
                        assert(going(np, begin, st));
                        lemma_store_scalar(np, st, vs, result);
                    }
                },
            }
        },
        _ => {},
    }
}

proof fn lemma_lower_stmts(np: nat, st: TlState, ss: Seq<Stmt>, n: nat)
    requires
        fit(np, st),
    ensures
        used(np, st, lower_stmts_s(st, ss, n)),
    decreases ss, n,
{
    broadcast use {group_grow, group_sound, group_vars};

    if n > 0 && n <= ss.len() {
        lemma_lower_stmts(np, st, ss, (n - 1) as nat);
        lemma_lower_stmt(np, lower_stmts_s(st, ss, (n - 1) as nat), ss[n - 1]);
    }
}

proof fn lemma_lower_if(np: nat, st: TlState, s: Stmt)
    requires
        fit(np, st),
    ensures
        used(np, st, lower_if_s(st, s)),
    decreases s, 8nat,
{
    broadcast use {group_grow, group_sound, group_vars};

    let begin = st;
    match s {
        Stmt::If { test, body, orelse, span } => {
            let shape = shape_in(st, test);
            if !(!(shape is Scalar)) {
                lemma_eval_expr(np, st, test, Seq::<ValRef>::empty());
                let (st, cond) = eval_expr_s(st, test, Seq::<ValRef>::empty());
                assert(going(np, begin, st));
                let (st, then_bb) = alloc_block_s(st);
                assert(going(np, begin, st));
                let (st, else_bb) = alloc_block_s(st);
                assert(going(np, begin, st));
                let (st, merge_bb) = alloc_block_s(st);
                assert(going(np, begin, st));
                let st = terminate_s(st, TermV::CondBr(cond, then_bb, else_bb));
                assert(going(np, begin, st));
                let st = set_cur_s(st, then_bb);
                assert(going(np, begin, st));
                lemma_lower_stmts(np, st, body@, body@.len());
                let st = lower_stmts_s(st, body@, body@.len());
                assert(going(np, begin, st));
                let st = terminate_s(st, TermV::Br(merge_bb));
                assert(going(np, begin, st));
                let st = set_cur_s(st, else_bb);
                assert(going(np, begin, st));
                lemma_lower_stmts(np, st, orelse@, orelse@.len());
            }
        },
        _ => {},
    }
}

proof fn lemma_range_bounds(np: nat, st: TlState, args: Seq<Expr>)
    requires
        fit(np, st),
    ensures
        ({
            let r = range_bounds_s(st, args);
            &&& used(np, st, r.0)
            &&& made(np, r.0.b.insts.len(), r.1.0)
            &&& made(np, r.0.b.insts.len(), r.1.1)
            &&& made(np, r.0.b.insts.len(), r.1.2)
        }),
{
    broadcast use {group_grow, group_sound, group_vars};

    reveal(range_bounds_s);
    let begin = st;
    if args.len() == 1 {
        lemma_const_i64(np, st, 0);
        let (st, start) = const_i64_s(st, 0);
        assert(going(np, begin, st));
        lemma_eval_expr(np, st, args[0], Seq::<ValRef>::empty());
        let (st, stop) = eval_expr_s(st, args[0], Seq::<ValRef>::empty());
        assert(going(np, begin, st));
        lemma_const_i64(np, st, 1);
    } else {
        if args.len() == 2 {
            lemma_eval_expr(np, st, args[0], Seq::<ValRef>::empty());
            let (st, start) = eval_expr_s(st, args[0], Seq::<ValRef>::empty());
            assert(going(np, begin, st));
            lemma_eval_expr(np, st, args[1], Seq::<ValRef>::empty());
            let (st, stop) = eval_expr_s(st, args[1], Seq::<ValRef>::empty());
            assert(going(np, begin, st));
            lemma_const_i64(np, st, 1);
        } else {
            lemma_eval_expr(np, st, args[0], Seq::<ValRef>::empty());
            let (st, start) = eval_expr_s(st, args[0], Seq::<ValRef>::empty());
            assert(going(np, begin, st));
            lemma_eval_expr(np, st, args[1], Seq::<ValRef>::empty());
            let (st, stop) = eval_expr_s(st, args[1], Seq::<ValRef>::empty());
            assert(going(np, begin, st));
            lemma_eval_expr(np, st, args[2], Seq::<ValRef>::empty());
        }
    }
}

proof fn lemma_open_range(np: nat, st: TlState, ctr: VarV, start: ValRef, stop: ValRef)
    requires
        fit(np, st),
        all_made(np, st.b.insts.len(), ctr.dims),
        made(np, st.b.insts.len(), start),
        made(np, st.b.insts.len(), stop),
    ensures
        ({
            let r = open_range_s(st, ctr, start, stop);
            &&& used(np, st, r.0)
            &&& r.1.0.0 < r.0.b.blocks.len()
            &&& r.1.1.0 < r.0.b.blocks.len()
            &&& r.1.2.0 < r.0.b.blocks.len()
        }),
{
    broadcast use {group_grow, group_sound, group_vars};

    reveal(open_range_s);
    let begin = st;
    lemma_store_scalar(np, st, ctr, start);
    let st = store_scalar_s(st, ctr, start);
    assert(going(np, begin, st));
    let (st, cond_bb) = alloc_block_s(st);
    assert(going(np, begin, st));
    let (st, body_bb) = alloc_block_s(st);
    assert(going(np, begin, st));
    let (st, step_bb) = alloc_block_s(st);
    assert(going(np, begin, st));
    let (st, exit_bb) = alloc_block_s(st);
    assert(going(np, begin, st));
    let st = terminate_s(st, TermV::Br(cond_bb));
    assert(going(np, begin, st));
    let st = set_cur_s(st, cond_bb);
    assert(going(np, begin, st));
    lemma_load_scalar(np, st, ctr);
}

proof fn lemma_close_range(
    np: nat,
    st: TlState,
    ctr: VarV,
    step: ValRef,
    at: (BlockId, BlockId, BlockId),
)
    requires
        fit(np, st),
        all_made(np, st.b.insts.len(), ctr.dims),
        made(np, st.b.insts.len(), step),
        at.0.0 < st.b.blocks.len(),
        at.1.0 < st.b.blocks.len(),
        at.2.0 < st.b.blocks.len(),
    ensures
        used(np, st, close_range_s(st, ctr, step, at)),
{
    broadcast use {group_grow, group_sound, group_vars};

    reveal(close_range_s);
    let begin = st;
    let (cond_bb, step_bb, exit_bb) = at;
    let st = terminate_s(st, TermV::Br(step_bb));
    assert(going(np, begin, st));
    let st = set_cur_s(st, step_bb);
    assert(going(np, begin, st));
    lemma_load_scalar(np, st, ctr);
    let (st, iv2) = load_scalar_s(st, ctr);
    assert(going(np, begin, st));
    let (st, next) = push_s(st, BTy::Scalar(Scalar::I64), OpV::Bin(BBin::Add, iv2, step));
    assert(going(np, begin, st));
    lemma_store_scalar(np, st, ctr, next);
}

proof fn lemma_lower_range(
    np: nat,
    st: TlState,
    s: Stmt,
    name: Seq<char>,
    start: ValRef,
    stop: ValRef,
    step: ValRef,
)
    requires
        fit(np, st),
        made(np, st.b.insts.len(), start),
        made(np, st.b.insts.len(), stop),
        made(np, st.b.insts.len(), step),
    ensures
        used(np, st, lower_range_s(st, s, name, start, stop, step)),
    decreases s, 7nat,
{
    broadcast use {group_grow, group_sound, group_vars};

    let begin = st;
    match s {
        Stmt::For { body, .. } => {
            lemma_get_or_new_scalar_var(np, st, name, BTy::Scalar(Scalar::I64));
            let (st, ctr) = get_or_new_scalar_var_s(st, name, BTy::Scalar(Scalar::I64));
            assert(going(np, begin, st));
            lemma_open_range(np, st, ctr, start, stop);
            let (st, at) = open_range_s(st, ctr, start, stop);
            assert(going(np, begin, st));
            let st = enter_s(st, at.2, at.1);
            assert(going(np, begin, st));
            lemma_lower_stmts(np, st, body@, body@.len());
            let st = lower_stmts_s(st, body@, body@.len());
            assert(going(np, begin, st));
            let st = leave_s(st);
            assert(going(np, begin, st));
            lemma_close_range(np, st, ctr, step, at);
        },
        _ => {},
    }
}

proof fn lemma_lower_for(np: nat, st: TlState, s: Stmt)
    requires
        fit(np, st),
    ensures
        used(np, st, lower_for_s(st, s)),
    decreases s, 8nat,
{
    broadcast use {group_grow, group_sound, group_vars};

    let begin = st;
    match s {
        Stmt::For { target, iter, orelse, span, .. } => {
            let st = if orelse@.len() > 0 {
                diag_s(st, span, "'for ... else'"@, "not supported"@)
            } else {
                st
            };
            assert(going(np, begin, st));
            match target {
                Expr::Name { name, .. } => {
                    match iter {
                        Expr::Call { func, args, .. } => {
                            if !(!spec_is_name(*func, "range"@)) {
                                if !(args@.len() == 0 || args@.len() > 3) {
                                    lemma_range_bounds(np, st, args@);
                                    let (st, bounds) = range_bounds_s(st, args@);
                                    assert(going(np, begin, st));
                                    lemma_lower_range(
                                        np,
                                        st,
                                        s,
                                        name@,
                                        bounds.0,
                                        bounds.1,
                                        bounds.2,
                                    );
                                }
                            }
                        },
                        _ => {},
                    }
                },
                _ => {},
            }
        },
        _ => {},
    }
}

proof fn lemma_lower_jump(np: nat, st: TlState, is_break: bool, span: Span)
    requires
        fit(np, st),
    ensures
        used(np, st, lower_jump_s(st, is_break, span)),
{
    broadcast use {group_grow, group_sound, group_vars};

    reveal(lower_jump_s);
}

#[verifier::rlimit(60)]
proof fn lemma_lower_stmt(np: nat, st: TlState, s: Stmt)
    requires
        fit(np, st),
    ensures
        used(np, st, lower_stmt_s(st, s)),
    decreases s, 9nat,
{
    broadcast use {group_grow, group_sound, group_vars};

    match s {
        Stmt::Expr { value, span } => {
            lemma_lower_expr_stmt(np, st, value, span);
        },
        Stmt::Assign { targets, value, span } => {
            lemma_lower_assign(np, st, targets@, value, span);
        },
        Stmt::AugAssign { target, op, value, span } => {
            lemma_lower_augassign(np, st, target, op, value, span);
        },
        Stmt::AnnAssign { target, value, span, .. } => {
            lemma_lower_ann_assign(np, st, target, value, span);
        },
        Stmt::If { .. } => {
            lemma_lower_if(np, st, s);
        },
        Stmt::For { .. } => {
            lemma_lower_for(np, st, s);
        },
        Stmt::While { span, .. } => {},
        Stmt::Return { .. } => {},
        Stmt::Break { span } => {
            lemma_lower_jump(np, st, true, span);
        },
        Stmt::Continue { span } => {
            lemma_lower_jump(np, st, false, span);
        },
        Stmt::Assert { .. } | Stmt::Pass { .. } | Stmt::Error { .. } => {},
    }
}

proof fn lemma_store_inits(np: nat, st: TlState, p: PendingV, n: nat)
    requires
        fit(np, st),
        pending_made(np, st.b.insts.len(), p),
    ensures
        used(np, st, store_inits_s(st, p, n)),
    decreases n,
{
    broadcast use {group_grow, group_sound, group_vars};

    let begin = st;
    if n > 0 && n <= p.inits.len() {
        lemma_store_inits(np, st, p, (n - 1) as nat);
        let st = store_inits_s(st, p, (n - 1) as nat);
        assert(going(np, begin, st));
        lemma_const_i64(np, st, p.inits[n - 1].1);
        let (st, v) = const_i64_s(st, p.inits[n - 1].1);
        assert(going(np, begin, st));
        lemma_store_scalar(np, st, p.inits[n - 1].0, v);
    }
}

proof fn lemma_store_params(np: nat, st: TlState, p: PendingV, n: nat)
    requires
        fit(np, st),
        pending_made(np, st.b.insts.len(), p),
    ensures
        used(np, st, store_params_s(st, p, n)),
    decreases n,
{
    broadcast use {group_grow, group_sound, group_vars};

    let begin = st;
    if n > 0 && n <= p.stores.len() {
        lemma_store_params(np, st, p, (n - 1) as nat);
        let st = store_params_s(st, p, (n - 1) as nat);
        assert(going(np, begin, st));
        lemma_store_scalar(np, st, p.stores[n - 1].0, ValRef::Param(p.stores[n - 1].1));
    }
}

// ---- kernels -------------------------------------------------------------------------------

/// What is known of the parameters before there is a block.
proof fn lemma_seeded(st: TlState, k: KernelFn, n: nat)
    requires
        st.vars == Map::<Seq<char>, VarV>::empty(),
        st.scratch is None,
    ensures
        ({
            let (s, p) = seed_params_s(st, k, n);
            let np = p.params.len();
            &&& s.b == st.b
            &&& s.ctrl == st.ctrl
            &&& s.diags == st.diags
            &&& vars_made(np, 0, s.vars)
            &&& pending_made(np, 0, p)
            &&& s.scratch matches Some(i) ==> i < np
        }),
    decreases n,
{
    broadcast use group_vars;

    reveal(vars_made);
    reveal(low_u32);
    if n > 0 && n <= k.params@.len() {
        lemma_seeded(st, k, (n - 1) as nat);
        let (s, acc) = seed_params_s(st, k, (n - 1) as nat);
        let (t, p) = seed_params_s(st, k, n);
        assert(acc.params.len() <= p.params.len());
        assert forall|x: Seq<char>| t.vars.contains_key(x) implies all_made(
            p.params.len(),
            0,
            (#[trigger] t.vars[x]).dims,
        ) by {
            if s.vars.contains_key(x) && t.vars[x] == s.vars[x] {
                assert(all_made(acc.params.len(), 0, s.vars[x].dims));
            }
        }
        assert forall|i: int| 0 <= i < p.stores.len() implies all_made(
            p.params.len(),
            0,
            (#[trigger] p.stores[i]).0.dims,
        ) && p.stores[i].1 < p.params.len() by {
            if i < acc.stores.len() {
                assert(p.stores[i] == acc.stores[i]);
            }
        }
        assert forall|i: int| 0 <= i < p.inits.len() implies all_made(
            p.params.len(),
            0,
            (#[trigger] p.inits[i]).0.dims,
        ) by {
            if i < acc.inits.len() {
                assert(p.inits[i] == acc.inits[i]);
            }
        }
    }
}

/// A kernel is made of a sound function.
proof fn lemma_kernel(k: KernelFn, types: Map<Span, TileTyV>)
    ensures
        from_sound(kernel_lowered(k, types).0),
{
    broadcast use {group_grow, group_sound, group_vars};

    reveal(lower_kernel_body_s);
    let st = fresh_state(types);
    lemma_seeded(st, k, k.params@.len());
    let (st, p) = seed_params_s(st, k, k.params@.len());
    let np = p.params.len();
    let (st, entry) = alloc_block_s(st);
    let st = set_cur_s(st, entry);
    lemma_sound_start(np);
    assert(fit(np, st));
    lemma_store_inits(np, st, p, p.inits.len());
    let st = store_inits_s(st, p, p.inits.len());
    lemma_store_params(np, st, p, p.stores.len());
    let st = store_params_s(st, p, p.stores.len());
    lemma_lower_stmts(np, st, k.body@, k.body@.len());
    let st = lower_stmts_s(st, k.body@, k.body@.len());
    let st = terminate_s(st, TermV::Ret(None));
    assert(sound(np, st.b));
    let f = kernel_lowered(k, types).0;
    assert(built(st.b) == (f.blocks, f.insts));
}

// ---- laws ----------------------------------------------------------------------------------

/// Every kernel that lowering gives is made of a function whose instructions use parameters and
/// instructions made before them, and whose blocks go to blocks that there are.
pub proof fn law_lowered_kernels_are_sound(
    ks: Seq<KernelFn>,
    shapes: Seq<KernelShapesV>,
    n: nat,
    i: int,
)
    requires
        0 <= i < n,
    ensures
        from_sound(kernels_lowered(ks, shapes, n)[i]),
{
    lemma_kernel(ks[i], shapes[i].expr_types);
}

/// In every kernel that lowering gives, operands and branches stay inside the kernel.
pub proof fn law_lowered_kernels_are_joined_up(
    ks: Seq<KernelFn>,
    shapes: Seq<KernelShapesV>,
    n: nat,
    i: int,
)
    requires
        0 <= i < n,
    ensures
        joined_up(kernels_lowered(ks, shapes, n)[i]),
{
    law_lowered_kernels_are_sound(ks, shapes, n, i);
    law_sound_is_joined_up(kernels_lowered(ks, shapes, n)[i]);
}

} // verus!
