//! Where the code of a Triton expression stands, and that a mask keeps its address from being
//! touched.

use vstd::prelude::*;

use crate::bir::{
    float_zero, AddrSpace, BinOp as BBin, BlockId, BlockV, InstId, InstV, OpV, Scalar, TermV,
    Ty as BTy, ValRef,
};
use crate::bits::low_u32;
use crate::diag::Span;
use crate::sema::blocks::{group_local, local};
use crate::sema::builder::{at_block, BuildV};
use crate::sema::grow::{extends, group_grow};
use crate::sema::triton_ast::{attr_of, expr_span, BinOp, CmpOp, Expr, Keyword, UnaryOp};
use crate::sema::triton_check::index_steps;
use crate::sema::triton_lower::{
    alignment, alloc_block_s, apply_binop_s, apply_relation_s, const_i64_s, diag_s, elem_in,
    eval_call_s, eval_chain_s, eval_expr_s, eval_masked_load_s, float_bty, kept, keyword_at,
    leading, least, linear_index_s, literal_of, load_scalar_s, new_slot_id_s, program_id_s, push_s,
    scalar_var, scale_by_elem_bytes_s, scratch_base_ptr_s, set_cur_s, shape_in, store_element_s,
    store_scalar_s, synthetic_addr_s, terminate_s, tile_elem_addr_s, tile_offset, var_of, width_of,
    zero_of_s, zeros_ty, Storage, TlState, VarV, DATA_ELEM_BYTES, MINUS_ONE,
};
use crate::sema::triton_ty::{broadcast, Elem};

verus! {

/// Whether what is lowered went on inside an expression: nothing changed but the current block and
/// new ones, the numbers of cells and tiles, and what is reported.
pub open spec fn spoke(a: TlState, b: TlState) -> bool {
    &&& local(a.b, b.b)
    &&& extends(a.diags, b.diags)
    &&& b == TlState {
        diags: b.diags,
        b: b.b,
        next_slot: b.next_slot,
        next_tile: b.next_tile,
        ..a
    }
}

// ---- every step ----------------------------------------------------------------------------

proof fn lemma_const_i64(st: TlState, v: i64)
    ensures
        spoke(st, const_i64_s(st, v).0),
{
    broadcast use {group_grow, group_local};

    reveal(const_i64_s);
}

proof fn lemma_zero_of(st: TlState, ty: BTy)
    ensures
        spoke(st, zero_of_s(st, ty).0),
{
    broadcast use {group_grow, group_local};

    reveal(zero_of_s);
}

proof fn lemma_scratch_base_ptr(st: TlState, span: Span)
    ensures
        spoke(st, scratch_base_ptr_s(st, span).0),
{
    broadcast use {group_grow, group_local};

    reveal(scratch_base_ptr_s);
    let begin = st;
    match st.scratch {
        Some(idx) => {},
        None => {
            let st = diag_s(
                st,
                span,
                "tile materialization with no pointer parameter to carve scratch space from"@,
                "this kernel has no pointer-typed parameter at all"@,
            );
            assert(spoke(begin, st));
            lemma_const_i64(st, 0);
        },
    }
}

proof fn lemma_synthetic_addr(st: TlState, slot: u32, space: AddrSpace)
    ensures
        spoke(st, synthetic_addr_s(st, slot, space).0),
{
    broadcast use {group_grow, group_local};

    reveal(synthetic_addr_s);
}

proof fn lemma_load_scalar(st: TlState, v: VarV)
    ensures
        spoke(st, load_scalar_s(st, v).0),
{
    broadcast use {group_grow, group_local};

    reveal(load_scalar_s);
    match v.storage {
        Storage::Synthetic { slot, space } => {
            lemma_synthetic_addr(st, slot, space);
        },
        Storage::Scratch { .. } => {
            lemma_const_i64(st, 0);
        },
    }
}

proof fn lemma_store_scalar(st: TlState, v: VarV, val: ValRef)
    ensures
        spoke(st, store_scalar_s(st, v, val)),
{
    broadcast use {group_grow, group_local};

    reveal(store_scalar_s);
    match v.storage {
        Storage::Synthetic { slot, space } => {
            lemma_synthetic_addr(st, slot, space);
        },
        Storage::Scratch { .. } => {},
    }
}

proof fn lemma_linear_index(st: TlState, v: VarV, idx: Seq<ValRef>, span: Span)
    ensures
        spoke(st, linear_index_s(st, v, idx, span).0),
{
    broadcast use {group_grow, group_local};

    reveal(linear_index_s);
    let begin = st;
    if !(idx.len() == 1) {
        if !(idx.len() == 2 && v.dims.len() == 2) {
            let st = diag_s(st, span, "tile used where a scalar is required"@, "not supported"@);
            assert(spoke(begin, st));
            lemma_const_i64(st, 0);
        }
    }
}

proof fn lemma_tile_elem_addr(st: TlState, v: VarV, idx: Seq<ValRef>, span: Span)
    ensures
        spoke(st, tile_elem_addr_s(st, v, idx, span).0),
{
    broadcast use {group_grow, group_local};

    reveal(tile_elem_addr_s);
    let begin = st;
    match v.storage {
        Storage::Scratch { ordinal } => {
            lemma_scratch_base_ptr(st, span);
            let (st, scratch) = scratch_base_ptr_s(st, span);
            assert(spoke(begin, st));
            lemma_const_i64(st, tile_offset(ordinal));
            let (st, tile_off) = const_i64_s(st, tile_offset(ordinal));
            assert(spoke(begin, st));
            let (st, base) = push_s(
                st,
                BTy::Ptr(AddrSpace::Global),
                OpV::Bin(BBin::Add, scratch, tile_off),
            );
            assert(spoke(begin, st));
            lemma_linear_index(st, v, idx, span);
            let (st, lin) = linear_index_s(st, v, idx, span);
            assert(spoke(begin, st));
            lemma_const_i64(st, width_of(v.elem_bty));
        },
        Storage::Synthetic { slot, space } => {
            lemma_synthetic_addr(st, slot, space);
        },
    }
}

proof fn lemma_apply_binop(st: TlState, op: BinOp, l: ValRef, r2: ValRef, bty: BTy, span: Span)
    ensures
        spoke(st, apply_binop_s(st, op, l, r2, bty, span).0),
{
    broadcast use {group_grow, group_local};

    reveal(apply_binop_s);
}

proof fn lemma_apply_relation(
    st: TlState,
    op: CmpOp,
    l: ValRef,
    r2: ValRef,
    is_float: bool,
    span: Span,
)
    ensures
        spoke(st, apply_relation_s(st, op, l, r2, is_float, span).0),
{
    broadcast use {group_grow, group_local};

    reveal(apply_relation_s);
}

proof fn lemma_scale_by_elem_bytes(st: TlState, v: ValRef)
    ensures
        spoke(st, scale_by_elem_bytes_s(st, v).0),
{
    broadcast use {group_grow, group_local};

    reveal(scale_by_elem_bytes_s);
    lemma_const_i64(st, DATA_ELEM_BYTES);
}

proof fn lemma_eval_chain(
    st: TlState,
    ops: Seq<CmpOp>,
    es: Seq<Expr>,
    i: nat,
    prev: ValRef,
    acc: Option<ValRef>,
    is_float: bool,
    idx: Seq<ValRef>,
    span: Span,
)
    ensures
        spoke(st, eval_chain_s(st, ops, es, i, prev, acc, is_float, idx, span).0),
    decreases es, es.len() - i,
{
    broadcast use {group_grow, group_local};

    let begin = st;
    if i < ops.len() && i < es.len() {
        lemma_eval_expr(st, es[i as int], idx);
        let (st, rv) = eval_expr_s(st, es[i as int], idx);
        assert(spoke(begin, st));
        lemma_apply_relation(st, ops[i as int], prev, rv, is_float, span);
        let (st, c) = apply_relation_s(st, ops[i as int], prev, rv, is_float, span);
        assert(spoke(begin, st));
        let (st, next) = match acc {
            None => {
                (st, c)
            },
            Some(a) => {
                push_s(st, BTy::Scalar(Scalar::I1), OpV::Bin(BBin::And, a, c))
            },
        };
        assert(spoke(begin, st));
        lemma_eval_chain(st, ops, es, i + 1, rv, Some(next), is_float, idx, span);
    }
}

#[verifier::rlimit(80)]
proof fn lemma_eval_expr(st: TlState, e: Expr, outer: Seq<ValRef>)
    ensures
        spoke(st, eval_expr_s(st, e, outer).0),
    decreases e, 9nat,
{
    broadcast use {group_grow, group_local};

    let begin = st;
    let idx = leading(outer, shape_in(st, e));
    match e {
        Expr::Name { name, span } => {
            match var_of(st, name@) {
                Some(v) => {
                    if (v.shape is Scalar) {
                        lemma_load_scalar(st, v);
                    } else {
                        lemma_tile_elem_addr(st, v, idx, span);
                    }
                },
                None => {
                    let st = diag_s(
                        st,
                        span,
                        "reference to undefined name '"@ + name@ + "'"@,
                        "cannot lower"@,
                    );
                    assert(spoke(begin, st));
                    lemma_const_i64(st, 0);
                },
            }
        },
        Expr::IntLit { span, .. } => {
            match literal_of(e) {
                Some(v) => {
                    lemma_const_i64(st, v);
                },
                None => {
                    let st = diag_s(st, span, "integer literal"@, "could not be parsed"@);
                    assert(spoke(begin, st));
                    lemma_const_i64(st, 0);
                },
            }
        },
        Expr::FloatLit { value, span } => {},
        Expr::BoolLit { value, .. } => {},
        Expr::UnaryOp { op, operand, span } => {
            let is_float = float_bty(elem_in(st, *operand));
            lemma_eval_expr(st, *operand, idx);
            let (st, v) = eval_expr_s(st, *operand, idx);
            assert(spoke(begin, st));
            match op {
                UnaryOp::UAdd => {},
                UnaryOp::USub => {
                    if is_float {
                        let (st, zero) = push_s(
                            st,
                            BTy::Scalar(Scalar::F32),
                            OpV::ConstFloat(float_zero()),
                        );
                        assert(spoke(begin, st));
                        lemma_apply_binop(st, BinOp::Sub, zero, v, BTy::Scalar(Scalar::F32), span);
                    } else {
                        lemma_const_i64(st, 0);
                        let (st, zero) = const_i64_s(st, 0);
                        assert(spoke(begin, st));
                        lemma_apply_binop(st, BinOp::Sub, zero, v, BTy::Scalar(Scalar::I64), span);
                    }
                },
                UnaryOp::Not => {},
                UnaryOp::Invert => {
                    lemma_const_i64(st, MINUS_ONE);
                },
            }
        },
        Expr::BinOp { op, lhs, rhs, span } => {
            let bty = elem_in(st, e);
            let lbty = elem_in(st, *lhs);
            let rbty = elem_in(st, *rhs);
            lemma_eval_expr(st, *lhs, idx);
            let (st, l0) = eval_expr_s(st, *lhs, idx);
            assert(spoke(begin, st));
            lemma_eval_expr(st, *rhs, idx);
            let (st, r0) = eval_expr_s(st, *rhs, idx);
            assert(spoke(begin, st));
            if (bty is Ptr) && !(lbty is Ptr) {
                lemma_scale_by_elem_bytes(st, l0);
            }
            let (st, l) = if (bty is Ptr) && !(lbty is Ptr) {
                scale_by_elem_bytes_s(st, l0)
            } else {
                (st, l0)
            };
            assert(spoke(begin, st));
            if (bty is Ptr) && !(rbty is Ptr) {
                lemma_scale_by_elem_bytes(st, r0);
            }
            let (st, r2) = if (bty is Ptr) && !(rbty is Ptr) {
                scale_by_elem_bytes_s(st, r0)
            } else {
                (st, r0)
            };
            assert(spoke(begin, st));
            lemma_apply_binop(st, op, l, r2, bty, span);
        },
        Expr::Compare { left, ops, comparators, span } => {
            let is_float = float_bty(elem_in(st, *left));
            lemma_eval_expr(st, *left, idx);
            let (st, first) = eval_expr_s(st, *left, idx);
            assert(spoke(begin, st));
            lemma_eval_chain(st, ops@, comparators@, 0, first, None, is_float, idx, span);
        },
        Expr::Subscript { value, index, span } => {
            match index_steps(*index) {
                Some(steps) => {
                    let inner = kept(steps, idx, least(steps.len(), idx.len()));
                    lemma_eval_expr(st, *value, inner);
                },
                None => {
                    let st = diag_s(
                        st,
                        span,
                        "tile subscript other than a '[:, None]'/'[None, :]' reshape"@,
                        "not supported"@,
                    );
                    assert(spoke(begin, st));
                    lemma_const_i64(st, 0);
                },
            }
        },
        Expr::Call { .. } => {
            lemma_eval_call(st, e, idx);
        },
        _ => {
            let st = diag_s(
                st,
                expr_span(e),
                "expression form"@,
                "not supported by tile lowering"@,
            );
            assert(spoke(begin, st));
            lemma_const_i64(st, 0);
        },
    }
}

proof fn lemma_program_id(st: TlState, args: Seq<Expr>, span: Span)
    ensures
        spoke(st, program_id_s(st, args, span).0),
{
    broadcast use {group_grow, group_local};

    reveal(program_id_s);
    let begin = st;
    let axis: i64 = if args.len() > 0 {
        match literal_of(args[0]) { Some(n) => n, None => 0 }
    } else {
        0
    };
    if !(axis == 0) {
        if !(axis == 1) {
            if !(axis == 2) {
                let st = diag_s(st, span, "'tl.program_id' axis"@, "must be 0, 1, or 2"@);
                assert(spoke(begin, st));
                lemma_const_i64(st, 0);
            }
        }
    }
}

proof fn lemma_eval_call(st: TlState, e: Expr, idx: Seq<ValRef>)
    ensures
        spoke(st, eval_call_s(st, e, idx).0),
    decreases e, 8nat,
{
    broadcast use {group_grow, group_local};

    let begin = st;
    match e {
        Expr::Call { func, args, keywords, span } => {
            if (attr_of(*func) == Some("arange"@)) {
                if args@.len() != 2 || idx.len() != 1 {
                    let st = diag_s(
                        st,
                        span,
                        "'tl.arange' in an unexpected context"@,
                        "expected exactly two arguments in a rank-1 context"@,
                    );
                    assert(spoke(begin, st));
                    lemma_const_i64(st, 0);
                } else {
                    lemma_eval_expr(st, args@[0], Seq::<ValRef>::empty());
                }
            } else {
                if (attr_of(*func) == Some("load"@)) {
                    lemma_eval_masked_load(st, e, idx);
                } else {
                    if (attr_of(*func) == Some("program_id"@)) {
                        lemma_program_id(st, args@, span);
                    } else {
                        if (attr_of(*func) == Some("zeros"@)) {
                            lemma_zero_of(st, zeros_ty(keywords@));
                        } else {
                            if (attr_of(*func) == Some("dot"@)) {
                                let st = diag_s(
                                    st,
                                    span,
                                    "'tl.dot' used somewhere other than directly as an assignment's right-hand side"@,
                                    "not supported"@,
                                );
                                assert(spoke(begin, st));
                                lemma_const_i64(st, 0);
                            } else {
                                let st = diag_s(
                                    st,
                                    span,
                                    "call"@,
                                    "unrecognized or unsupported callee in tile lowering"@,
                                );
                                assert(spoke(begin, st));
                                lemma_const_i64(st, 0);
                            }
                        }
                    }
                }
            }
        },
        _ => {
            lemma_const_i64(st, 0);
        },
    }
}

#[verifier::rlimit(40)]
proof fn lemma_eval_masked_load(st: TlState, e: Expr, idx: Seq<ValRef>)
    ensures
        spoke(st, eval_masked_load_s(st, e, idx).0),
    decreases e, 7nat,
{
    broadcast use {group_grow, group_local};

    let begin = st;
    match e {
        Expr::Call { args, keywords, span, .. } => {
            if args@.len() == 0 {
                let st = diag_s(st, span, "'tl.load' with no pointer argument"@, "cannot lower"@);
                assert(spoke(begin, st));
                lemma_const_i64(st, 0);
            } else {
                lemma_eval_expr(st, args@[0], idx);
                let (st, ptr_val) = eval_expr_s(st, args@[0], idx);
                assert(spoke(begin, st));
                let (st, tmp_slot) = new_slot_id_s(st);
                assert(spoke(begin, st));
                let tmp_vs = scalar_var(
                    tmp_slot,
                    AddrSpace::Local,
                    Elem::Float,
                    BTy::Scalar(Scalar::F32),
                );
                let mask = keyword_at(keywords@, "mask"@);
                match mask {
                    None => {
                        let (st, v) = push_s(
                            st,
                            BTy::Scalar(Scalar::F32),
                            OpV::Load {
                                ptr: ptr_val,
                                space: AddrSpace::Global,
                                align: alignment(BTy::Scalar(Scalar::F32)),
                                volatile: false,
                            },
                        );
                        assert(spoke(begin, st));
                        lemma_store_scalar(st, tmp_vs, v);
                    },
                    Some(k) => {
                        if k < keywords@.len() {
                            lemma_eval_expr(st, keywords@[k as int].value, idx);
                        } else {
                            lemma_const_i64(st, 0);
                        }
                        let (st, mask_val) = if k < keywords@.len() {
                            eval_expr_s(st, keywords@[k as int].value, idx)
                        } else {
                            const_i64_s(st, 0)
                        };
                        assert(spoke(begin, st));
                        let (st, load_bb) = alloc_block_s(st);
                        assert(spoke(begin, st));
                        let (st, other_bb) = alloc_block_s(st);
                        assert(spoke(begin, st));
                        let (st, merge_bb) = alloc_block_s(st);
                        assert(spoke(begin, st));
                        let st = terminate_s(st, TermV::CondBr(mask_val, load_bb, other_bb));
                        assert(spoke(begin, st));
                        let st = set_cur_s(st, load_bb);
                        assert(spoke(begin, st));
                        let (st, v) = push_s(
                            st,
                            BTy::Scalar(Scalar::F32),
                            OpV::Load {
                                ptr: ptr_val,
                                space: AddrSpace::Global,
                                align: alignment(BTy::Scalar(Scalar::F32)),
                                volatile: false,
                            },
                        );
                        assert(spoke(begin, st));
                        lemma_store_scalar(st, tmp_vs, v);
                        let st = store_scalar_s(st, tmp_vs, v);
                        assert(spoke(begin, st));
                        let st = terminate_s(st, TermV::Br(merge_bb));
                        assert(spoke(begin, st));
                        let st = set_cur_s(st, other_bb);
                        assert(spoke(begin, st));
                        let other = keyword_at(keywords@, "other"@);
                        match other {
                            Some(j) => {
                                if j < keywords@.len() {
                                    lemma_eval_expr(st, keywords@[j as int].value, idx);
                                } else {
                                    lemma_const_i64(st, 0);
                                }
                            },
                            None => {
                                lemma_zero_of(st, BTy::Scalar(Scalar::F32));
                            },
                        }
                        let (st, ov) = match other {
                            Some(j) => {
                                if j < keywords@.len() {
                                    eval_expr_s(st, keywords@[j as int].value, idx)
                                } else {
                                    const_i64_s(st, 0)
                                }
                            },
                            None => {
                                zero_of_s(st, BTy::Scalar(Scalar::F32))
                            },
                        };
                        assert(spoke(begin, st));
                        lemma_store_scalar(st, tmp_vs, ov);
                    },
                }
                let st = match mask {
                    None => {
                        let (st, v) = push_s(
                            st,
                            BTy::Scalar(Scalar::F32),
                            OpV::Load {
                                ptr: ptr_val,
                                space: AddrSpace::Global,
                                align: alignment(BTy::Scalar(Scalar::F32)),
                                volatile: false,
                            },
                        );
                        store_scalar_s(st, tmp_vs, v)
                    },
                    Some(k) => {
                        let (st, mask_val) = if k < keywords@.len() {
                            eval_expr_s(st, keywords@[k as int].value, idx)
                        } else {
                            const_i64_s(st, 0)
                        };
                        let (st, load_bb) = alloc_block_s(st);
                        let (st, other_bb) = alloc_block_s(st);
                        let (st, merge_bb) = alloc_block_s(st);
                        let st = terminate_s(st, TermV::CondBr(mask_val, load_bb, other_bb));
                        let st = set_cur_s(st, load_bb);
                        let (st, v) = push_s(
                            st,
                            BTy::Scalar(Scalar::F32),
                            OpV::Load {
                                ptr: ptr_val,
                                space: AddrSpace::Global,
                                align: alignment(BTy::Scalar(Scalar::F32)),
                                volatile: false,
                            },
                        );
                        let st = store_scalar_s(st, tmp_vs, v);
                        let st = terminate_s(st, TermV::Br(merge_bb));
                        let st = set_cur_s(st, other_bb);
                        let other = keyword_at(keywords@, "other"@);
                        let (st, ov) = match other {
                            Some(j) => {
                                if j < keywords@.len() {
                                    eval_expr_s(st, keywords@[j as int].value, idx)
                                } else {
                                    const_i64_s(st, 0)
                                }
                            },
                            None => {
                                zero_of_s(st, BTy::Scalar(Scalar::F32))
                            },
                        };
                        let st = store_scalar_s(st, tmp_vs, ov);
                        let st = terminate_s(st, TermV::Br(merge_bb));
                        set_cur_s(st, merge_bb)
                    },
                };
                assert(spoke(begin, st));
                lemma_load_scalar(st, tmp_vs);
            }
        },
        _ => {
            lemma_const_i64(st, 0);
        },
    }
}

proof fn lemma_store_element(st: TlState, addr: ValRef, val: ValRef, bty: BTy, mask: Option<ValRef>)
    ensures
        spoke(st, store_element_s(st, addr, val, bty, mask)),
{
    broadcast use {group_grow, group_local};

    reveal(store_element_s);
}

// ---- laws ----------------------------------------------------------------------------------

/// An expression binds no name and leaves no loop; its code is in the current block and in new
/// ones.
pub proof fn law_expression_stays_inside(st: TlState, e: Expr, idx: Seq<ValRef>)
    ensures
        spoke(st, eval_expr_s(st, e, idx).0),
{
    lemma_eval_expr(st, e, idx);
}

/// A store touches only the current block and new ones.
pub proof fn law_store_stays_inside(
    st: TlState,
    addr: ValRef,
    val: ValRef,
    bty: BTy,
    mask: Option<ValRef>,
)
    ensures
        spoke(st, store_element_s(st, addr, val, bty, mask)),
{
    lemma_store_element(st, addr, val, bty, mask);
}

/// A masked store is alone in a block that is only entered where the mask holds; where it does
/// not, nothing is done. Both ways meet in the block where the code goes on.
pub proof fn law_masked_store(st: TlState, addr: ValRef, val: ValRef, bty: BTy, mask: ValRef)
    requires
        st.b.cur.0 < st.b.blocks.len(),
        st.b.blocks.len() + 3 <= 0xFFFF_FFFF,
    ensures
        ({
            let r = store_element_s(st, addr, val, bty, Some(mask)).b;
            let n = st.b.blocks.len();
            let (yes, no, on) = (BlockId(n as u32), BlockId((n + 1) as u32), BlockId((n + 2) as u32));
            let store = OpV::Store {
                ptr: addr,
                val,
                ty: bty,
                space: AddrSpace::Global,
                align: alignment(bty),
                volatile: false,
            };
            &&& r.insts == st.b.insts.push(InstV { ty: BTy::Void, op: store })
            &&& r.blocks.len() == n + 3
            &&& r.blocks[st.b.cur.0 as int].done == Some(
                BlockV {
                    insts: st.b.blocks[st.b.cur.0 as int].pending,
                    term: TermV::CondBr(mask, yes, no),
                },
            )
            &&& r.blocks[n as int].done == Some(
                BlockV {
                    insts: seq![InstId(low_u32(st.b.insts.len() as int))],
                    term: TermV::Br(on),
                },
            )
            &&& r.blocks[n as int + 1].done == Some(
                BlockV { insts: Seq::empty(), term: TermV::Br(on) },
            )
            &&& r.cur == on
        }),
{
    reveal(store_element_s);
    reveal(low_u32);
    let r = store_element_s(st, addr, val, bty, Some(mask)).b;
    let n = st.b.blocks.len() as int;
    assert(r.blocks[n].done->0.insts =~= seq![InstId(low_u32(st.b.insts.len() as int))]);
}

/// The state after the pointer and the mask of a load.
pub open spec fn mask_evaluated(st: TlState, ptr: Expr, mask: Expr, idx: Seq<ValRef>) -> (
    TlState,
    (ValRef, ValRef),
) {
    let (st, p) = eval_expr_s(st, ptr, idx);
    let (st, _) = new_slot_id_s(st);
    let (st, m) = eval_expr_s(st, mask, idx);
    (st, (p, m))
}

/// The state with the load of a masked load in its block.
spec fn load_placed(s: TlState, ptr: ValRef, mask: ValRef, cell: VarV) -> TlState {
    let (s, yes) = alloc_block_s(s);
    let (s, no) = alloc_block_s(s);
    let (s, on) = alloc_block_s(s);
    let s = terminate_s(s, TermV::CondBr(mask, yes, no));
    let s = set_cur_s(s, yes);
    let (s, v) = push_s(
        s,
        BTy::Scalar(Scalar::F32),
        OpV::Load {
            ptr,
            space: AddrSpace::Global,
            align: alignment(BTy::Scalar(Scalar::F32)),
            volatile: false,
        },
    );
    let s = store_scalar_s(s, cell, v);
    terminate_s(s, TermV::Br(on))
}

proof fn lemma_load_placed(s: TlState, ptr: ValRef, mask: ValRef, cell: VarV)
    requires
        s.b.cur.0 < s.b.blocks.len(),
        s.b.blocks.len() + 3 <= 0xFFFF_FFFF,
        cell.storage is Synthetic,
    ensures
        ({
            let r = load_placed(s, ptr, mask, cell).b;
            let n = s.b.blocks.len();
            let at = s.b.insts.len();
            let load = OpV::Load {
                ptr,
                space: AddrSpace::Global,
                align: alignment(BTy::Scalar(Scalar::F32)),
                volatile: false,
            };
            &&& r.blocks.len() == n + 3
            &&& r.blocks[s.b.cur.0 as int].done == Some(
                BlockV {
                    insts: s.b.blocks[s.b.cur.0 as int].pending,
                    term: TermV::CondBr(mask, BlockId(n as u32), BlockId((n + 1) as u32)),
                },
            )
            &&& r.blocks[n as int].done matches Some(b) && b.insts.len() > 0 && b.insts[0] == InstId(
                low_u32(at as int),
            ) && b.term == TermV::Br(BlockId((n + 2) as u32))
            &&& r.insts.len() > at
            &&& r.insts[at as int] == (InstV { ty: BTy::Scalar(Scalar::F32), op: load })
        }),
{
    reveal(low_u32);
    reveal(store_scalar_s);
    reveal(synthetic_addr_s);
}

/// Code that stays inside a block leaves the others.
proof fn lemma_left_alone(a: BuildV, b: BuildV, i: int)
    requires
        local(a, b),
        b.blocks.len() <= 0xFFFF_FFFF,
        0 <= i < a.blocks.len(),
        i != a.cur.0,
    ensures
        b.blocks[i] == a.blocks[i],
{
    reveal(local);
}

/// Instructions stay.
proof fn lemma_still_there(a: BuildV, b: BuildV, i: int)
    requires
        local(a, b),
        0 <= i < a.insts.len(),
    ensures
        b.insts.len() >= a.insts.len(),
        b.insts[i] == a.insts[i],
{
    reveal(local);
    reveal(extends);
    assert(b.insts.take(a.insts.len() as int)[i] == b.insts[i]);
}

/// The other way of a masked load, up to where both meet.
spec fn other_placed(
    s: TlState,
    keywords: Seq<Keyword>,
    idx: Seq<ValRef>,
    cell: VarV,
    no: BlockId,
    on: BlockId,
) -> TlState {
    let s = set_cur_s(s, no);
    let other = keyword_at(keywords, "other"@);
    let (s, ov) = match other {
        Some(j) => {
            if j < keywords.len() {
                eval_expr_s(s, keywords[j as int].value, idx)
            } else {
                const_i64_s(s, 0)
            }
        },
        None => {
            zero_of_s(s, BTy::Scalar(Scalar::F32))
        },
    };
    let s = store_scalar_s(s, cell, ov);
    terminate_s(s, TermV::Br(on))
}

proof fn lemma_other_placed(
    s: TlState,
    keywords: Seq<Keyword>,
    idx: Seq<ValRef>,
    cell: VarV,
    no: BlockId,
    on: BlockId,
)
    ensures
        local(at_block(s.b, no), other_placed(s, keywords, idx, cell, no, on).b),
{
    broadcast use {group_grow, group_local};

    let s = set_cur_s(s, no);
    let begin = s;
    let other = keyword_at(keywords, "other"@);
    match other {
        Some(j) => {
            if j < keywords.len() {
                lemma_eval_expr(s, keywords[j as int].value, idx);
            } else {
                lemma_const_i64(s, 0);
            }
        },
        None => lemma_zero_of(s, BTy::Scalar(Scalar::F32)),
    }
    let (s, ov) = match other {
        Some(j) => {
            if j < keywords.len() {
                eval_expr_s(s, keywords[j as int].value, idx)
            } else {
                const_i64_s(s, 0)
            }
        },
        None => {
            zero_of_s(s, BTy::Scalar(Scalar::F32))
        },
    };
    assert(local(begin.b, s.b));
    lemma_store_scalar(s, cell, ov);
}

/// A masked load is in a block that is only entered where the mask holds: the code goes by the
/// mask to that block, which loads and leaves what it loaded in a cell, or to another, and both
/// ways meet in the block where the code goes on.
pub proof fn law_masked_load(st: TlState, e: Expr, idx: Seq<ValRef>, k: int)
    requires
        e is Call,
        e->Call_args@.len() > 0,
        keyword_at(e->Call_keywords@, "mask"@) == Some(k as nat),
        0 <= k < e->Call_keywords@.len(),
        st.b.cur.0 < st.b.blocks.len(),
        eval_masked_load_s(st, e, idx).0.b.blocks.len() <= 0xFFFF_FFFF,
    ensures
        ({
            let (s, (ptr, mask)) = mask_evaluated(
                st,
                e->Call_args@[0],
                e->Call_keywords@[k].value,
                idx,
            );
            let r = eval_masked_load_s(st, e, idx).0.b;
            let n = s.b.blocks.len();
            let (yes, no, on) = (BlockId(n as u32), BlockId((n + 1) as u32), BlockId((n + 2) as u32));
            let load = OpV::Load {
                ptr,
                space: AddrSpace::Global,
                align: alignment(BTy::Scalar(Scalar::F32)),
                volatile: false,
            };
            let at = s.b.insts.len();
            &&& r.blocks[s.b.cur.0 as int].done == Some(
                BlockV {
                    insts: s.b.blocks[s.b.cur.0 as int].pending,
                    term: TermV::CondBr(mask, yes, no),
                },
            )
            &&& r.blocks[n as int].done matches Some(b) && b.insts.len() > 0 && b.insts[0] == InstId(
                low_u32(at as int),
            ) && b.term == TermV::Br(on)
            &&& r.insts[at as int] == (InstV { ty: BTy::Scalar(Scalar::F32), op: load })
            &&& r.cur == on
        }),
{
    let args = e->Call_args@;
    let keywords = e->Call_keywords@;
    let cell_at = new_slot_id_s(eval_expr_s(st, args[0], idx).0).1;
    let cell = scalar_var(cell_at, AddrSpace::Local, Elem::Float, BTy::Scalar(Scalar::F32));
    let (s, (ptr, mask)) = mask_evaluated(st, args[0], keywords[k].value, idx);
    let n = s.b.blocks.len();
    let (no, on) = (BlockId(low_u32(n as int + 1)), BlockId(low_u32(n as int + 2)));
    let p = load_placed(s, ptr, mask, cell);
    let q = other_placed(p, keywords, idx, cell, no, on);
    let t = set_cur_s(q, on);
    let r = eval_masked_load_s(st, e, idx).0;
    assert(r == load_scalar_s(t, cell).0);
    lemma_mask_evaluated(st, args[0], keywords[k].value, idx);
    lemma_other_placed(p, keywords, idx, cell, no, on);
    lemma_load_scalar(t, cell);
    assert(p.b.blocks.len() == n + 3) by {
        reveal(store_scalar_s);
        reveal(synthetic_addr_s);
    }
    assert(q.b.blocks.len() >= n + 3 && r.b.blocks.len() >= q.b.blocks.len()) by {
        broadcast use group_local;

    }
    reveal(low_u32);
    lemma_load_placed(s, ptr, mask, cell);
    let home = s.b.cur.0 as int;
    let a = at_block(p.b, no);
    lemma_left_alone(a, q.b, home);
    lemma_left_alone(a, q.b, n as int);
    lemma_left_alone(t.b, r.b, home);
    lemma_left_alone(t.b, r.b, n as int);
    lemma_still_there(a, q.b, s.b.insts.len() as int);
    lemma_still_there(t.b, r.b, s.b.insts.len() as int);
    assert(r.b.cur == on) by {
        reveal(load_scalar_s);
        reveal(synthetic_addr_s);
    }
}

proof fn lemma_mask_evaluated(st: TlState, ptr: Expr, mask: Expr, idx: Seq<ValRef>)
    ensures
        local(st.b, mask_evaluated(st, ptr, mask, idx).0.b),
        st.b.cur.0 < st.b.blocks.len() ==> ({
            let s = mask_evaluated(st, ptr, mask, idx).0;
            s.b.blocks.len() <= 0xFFFF_FFFF ==> s.b.cur.0 < s.b.blocks.len()
        }),
{
    broadcast use {group_grow, group_local};

    lemma_eval_expr(st, ptr, idx);
    let (s, p) = eval_expr_s(st, ptr, idx);
    let (s, _) = new_slot_id_s(s);
    assert(local(st.b, s.b));
    lemma_eval_expr(s, mask, idx);
}

} // verus!
