//! What lowering keeps, whatever it finds: every function that has been lowered and every problem
//! that has been reported stays, and what a statement opens it closes again.

use vstd::prelude::*;

use crate::bir::{
    float_one, AddrSpace, AtomicOp, BinOp as BBin, Block, BlockId, Function, OpV, Scalar,
    ShuffleKind, TermV, Ty as BTy, ValRef,
};
use crate::bits::{low_i64, low_u32};
use crate::diag::{ECode, Span};
use crate::sema::blocks::{group_local, local};
use crate::sema::builder::empty_build;
use crate::sema::c_ast::{
    expr_span, AssignOp, BinOp, EnumDecl, EnumVariant, Expr, FieldDecl, FunctionDecl, IncDecOp,
    Item, ParamDecl, ScalarKind, Stmt, TagKind, TranslationUnit, Type, UnaryOp, VarDecl,
};
use crate::sema::checker::{binop_of, dim3_name, lvalue};
use crate::sema::grow::{extends, group_grow, nested};
use crate::sema::labels::labels_of;
use crate::sema::lower::{
    aggregate, alloc_block_s, alloc_blocks_s, alloc_labels_s, any_aggregate, any_unknown,
    atomic_kind, bind_local_s, bir_ty, break_target, callee_of, close_fallthrough_s, coerce_to_s,
    collect_cases_s, condition_s, const_value, continue_target, devptr_value_s,
    diag_for_unresolved_name_s, diag_unsupported_s, dim3_extent, enter_s, err_s, field_offset_s,
    field_place_s, finish_call_s, fresh_cur_s, index_base_s, index_op, join_branches_s, leave_s,
    load_addr_s, load_dim3_field_s, local_in, lower_add_s, lower_arith_s, lower_arms_s,
    lower_assign_s, lower_atomic_cas_call_s, lower_atomic_rmw_call_s, lower_binary_s, lower_break_s,
    lower_builtin_call_s, lower_call_args_s, lower_call_s, lower_cast_s, lower_comma_s,
    lower_compare_s, lower_continue_s, lower_cuda_device_synchronize_call_s, lower_cuda_free_call_s,
    lower_cuda_malloc_call_s, lower_cuda_malloc_devptr_s, lower_cuda_memcpy_call_s, lower_decls_s,
    lower_do_while_s, lower_enum_decl_s, lower_expr_s, lower_for_s, lower_function_body_s,
    lower_function_item_s, lower_global_var_s, lower_goto_s, lower_ident_value_s, lower_if_s,
    lower_incdec_s, lower_index_lvalue_s, lower_inner_s, lower_item_s, lower_items_s,
    lower_kernel_launch_s, lower_label_s, lower_launch_config_dim_s, lower_logical_s,
    lower_lvalue_s, lower_member_lvalue_s, lower_params_s, lower_ptr_offset_s, lower_return_s,
    lower_shared_s, lower_shuffle_call_s, lower_stmt_s, lower_stmts_s, lower_stream_s, lower_sub_s,
    lower_switch_s, lower_syncthreads_call_s, lower_ternary_s, lower_unary_s, lower_var_decl_s,
    lower_variants_s, lower_vote_call_s, lower_while_s, lowered, lvalue_unknown_s, member_base_s,
    names_place, new_slot_s, no_cases, not_addressable, open_block_s, operand_type_s,
    peel_case_labels_s, peels_to_address, placeholder_s, push_s, push_void_s, refs_of,
    resolve_fields_s, resolve_named_s, resolve_params_s, resolve_tag_s, resolve_type_s,
    return_zero_s, set_cur_s, shuffle_kind, size_constant_s, size_s, slot_addr_s, slot_address,
    slot_lvalue_s, start_state, store_addr_s, terminate_s, truthy_s, value_of_lvalue_s, vote_kind,
    widen_index_i64_s, zero_of_s, CasesV, CtrlCtx, LValueV, LwState, SlotV, Vote, MINUS_ONE,
    SLOT_STRIDE,
};
use crate::sema::scope::{empty_scope, with_enum, with_value, FuncSigV, ValueSymV};
use crate::sema::ty::{fits, promoted, TyV};

verus! {

/// Whether what is lowered went on inside an expression: nothing changed but the current block and
/// new ones, labels, the number of cells and what is reported.
pub open spec fn spoke(a: LwState, b: LwState) -> bool {
    &&& moved(a, b)
    &&& local(a.b, b.b)
}

/// Whether nothing changed but the code of the function, its labels, the number of cells and what
/// is reported.
pub open spec fn moved(a: LwState, b: LwState) -> bool {
    &&& extends(a.diags, b.diags)
    &&& b == LwState {
        diags: b.diags,
        b: b.b,
        next_slot: b.next_slot,
        labels: b.labels,
        ..a
    }
}

/// Whether what is lowered went on by statements: outer blocks have the cells that they had, and
/// the loops and switches that are open are the same.
pub open spec fn stepped(a: LwState, b: LwState) -> bool {
    &&& extends(a.diags, b.diags)
    &&& nested(a.locals, b.locals)
    &&& b == LwState {
        diags: b.diags,
        b: b.b,
        next_slot: b.next_slot,
        labels: b.labels,
        locals: b.locals,
        ..a
    }
}

/// Whether what is lowered went on by items: the functions that there were are still the first,
/// and the outer scopes are as they were.
pub open spec fn grew(a: LwState, b: LwState) -> bool {
    &&& extends(a.diags, b.diags)
    &&& extends(a.funcs, b.funcs)
    &&& nested(a.scopes, b.scopes)
}

// ---- every step ----------------------------------------------------------------------------

proof fn lemma_zero_of(st: LwState, ty: TyV)
    ensures
        spoke(st, zero_of_s(st, ty).0),
{
    broadcast use {group_grow, group_local};

    reveal(zero_of_s);
}

proof fn lemma_placeholder(st: LwState)
    ensures
        spoke(st, placeholder_s(st).0),
{
    broadcast use {group_grow, group_local};

    reveal(placeholder_s);
}

proof fn lemma_slot_addr(st: LwState, s: SlotV)
    ensures
        spoke(st, slot_addr_s(st, s).0),
{
    broadcast use {group_grow, group_local};

    reveal(slot_addr_s);
}

proof fn lemma_slot_lvalue(st: LwState, s: SlotV)
    ensures
        spoke(st, slot_lvalue_s(st, s).0),
{
    broadcast use {group_grow, group_local};

    reveal(slot_lvalue_s);
    lemma_slot_addr(st, s);
}

proof fn lemma_lvalue_unknown(st: LwState)
    ensures
        spoke(st, lvalue_unknown_s(st).0),
{
    broadcast use {group_grow, group_local};

    reveal(lvalue_unknown_s);
}

proof fn lemma_load_addr(st: LwState, lv: LValueV)
    ensures
        spoke(st, load_addr_s(st, lv).0),
{
    broadcast use {group_grow, group_local};

    reveal(load_addr_s);
}

proof fn lemma_store_addr(st: LwState, lv: LValueV, val: ValRef)
    ensures
        spoke(st, store_addr_s(st, lv, val)),
{
    broadcast use {group_grow, group_local};

    reveal(store_addr_s);
}

proof fn lemma_coerce_to(st: LwState, v: ValRef, from: TyV, to: TyV)
    ensures
        spoke(st, coerce_to_s(st, v, from, to).0),
{
    broadcast use {group_grow, group_local};

    reveal(coerce_to_s);
}

proof fn lemma_widen_index_i64(st: LwState, v: ValRef, ty: TyV)
    ensures
        spoke(st, widen_index_i64_s(st, v, ty).0),
{
    broadcast use {group_grow, group_local};

    reveal(widen_index_i64_s);
    match bir_ty(ty) {
        BTy::Scalar(Scalar::I64) => {},
        BTy::Scalar(_) => {
            lemma_coerce_to(st, v, ty, TyV::Scalar(ScalarKind::Long));
        },
        _ => {},
    }
}

proof fn lemma_truthy(st: LwState, v: ValRef, ty: TyV)
    ensures
        spoke(st, truthy_s(st, v, ty).0),
{
    broadcast use {group_grow, group_local};

    reveal(truthy_s);
}

proof fn lemma_condition(st: LwState, e: Expr)
    ensures
        spoke(st, condition_s(st, e).0),
    decreases e, 10nat,
{
    broadcast use {group_grow, group_local};

    lemma_lower_expr(st, e);
    let (st, (cv, cty)) = lower_expr_s(st, e);
    if !((cty is Unknown)) {
        lemma_truthy(st, cv, cty);
    }
}

proof fn lemma_resolve_tag(st: LwState, kind: TagKind, name: Seq<char>, span: Span)
    ensures
        spoke(st, resolve_tag_s(st, kind, name, span).0),
{
    broadcast use {group_grow, group_local};

    reveal(resolve_tag_s);
}

proof fn lemma_resolve_named(st: LwState, name: Seq<char>, span: Span)
    ensures
        spoke(st, resolve_named_s(st, name, span).0),
{
    broadcast use {group_grow, group_local};

    reveal(resolve_named_s);
}

proof fn lemma_resolve_type(st: LwState, ty: Type)
    ensures
        spoke(st, resolve_type_s(st, ty).0),
    decreases ty,
{
    broadcast use {group_grow, group_local};

    match ty {
        Type::Scalar { kind, .. } => {},
        Type::Tag { kind, name, span, .. } => {
            lemma_resolve_tag(st, kind, name@, span);
        },
        Type::Named { name, span, .. } => {
            lemma_resolve_named(st, name@, span);
        },
        Type::Pointer { pointee, .. } => {
            lemma_resolve_type(st, *pointee);
        },
        Type::Array { elem, .. } => {
            lemma_resolve_type(st, *elem);
        },
        Type::Instantiated { .. } => {},
    }
}

proof fn lemma_diag_for_unresolved_name(st: LwState, name: Seq<char>, span: Span)
    ensures
        spoke(st, diag_for_unresolved_name_s(st, name, span)),
{
    broadcast use {group_grow, group_local};

    reveal(diag_for_unresolved_name_s);
}

proof fn lemma_value_of_lvalue(st: LwState, lv: LValueV, span: Span)
    ensures
        spoke(st, value_of_lvalue_s(st, lv, span).0),
{
    broadcast use {group_grow, group_local};

    reveal(value_of_lvalue_s);
    let first = st;
    if (lv.ty is Unknown) {
        lemma_placeholder(st);
    } else {
        if aggregate(lv.ty) {
            match lv.ty {
                TyV::Array(elem) => {},
                _ => {
                    let st = diag_unsupported_s(
                        st,
                        span,
                        "whole-aggregate value"@,
                        "struct/union used by value (no BIR aggregate type)"@,
                    );
                    assert(extends(first.diags, st.diags) && local(first.b, st.b));
                    lemma_placeholder(st);
                },
            }
        } else {
            lemma_load_addr(st, lv);
        }
    }
}

proof fn lemma_lower_ident_value(st: LwState, name: Seq<char>, span: Span)
    ensures
        spoke(st, lower_ident_value_s(st, name, span).0),
{
    broadcast use {group_grow, group_local};

    reveal(lower_ident_value_s);
    let first = st;
    match local_in(st.locals, name) {
        Some(slot) => {
            if (slot.ty is Unknown) {
                lemma_placeholder(st);
            } else {
                lemma_slot_lvalue(st, slot);
                let (st, lv) = slot_lvalue_s(st, slot);
                lemma_value_of_lvalue(st, lv, span);
            }
        },
        None => {
            if dim3_name(name) {
                let st = diag_unsupported_s(st, span, "GPU intrinsic"@, name);
                assert(extends(first.diags, st.diags) && local(first.b, st.b));
                lemma_placeholder(st);
            } else {
                let found = if st.enums.contains_key(name) { Some(st.enums[name]) } else { None };
                match found {
                    Some(n) => {},
                    None => {
                        lemma_diag_for_unresolved_name(st, name, span);
                        let st = diag_for_unresolved_name_s(st, name, span);
                        lemma_placeholder(st);
                    },
                }
            }
        },
    }
}

proof fn lemma_lower_lvalue(st: LwState, e: Expr)
    ensures
        spoke(st, lower_lvalue_s(st, e).0),
    decreases e, 8nat,
{
    broadcast use {group_grow, group_local};

    let first = st;
    match e {
        Expr::Ident { name, span } => {
            match local_in(st.locals, name@) {
                Some(slot) => {
                    lemma_slot_lvalue(st, slot);
                },
                None => {
                    if !(dim3_name(name@)) {
                        if !(st.enums.contains_key(name@)) {
                            lemma_diag_for_unresolved_name(st, name@, span);
                        }
                    }
                    let st = if dim3_name(name@) {
                        diag_unsupported_s(st, span, "GPU intrinsic"@, name@)
                    } else if st.enums.contains_key(name@) {
                        err_s(st, ECode::TypeError, span, not_addressable(name@))
                    } else {
                        diag_for_unresolved_name_s(st, name@, span)
                    };
                    assert(extends(first.diags, st.diags) && local(first.b, st.b));
                    lemma_lvalue_unknown(st);
                },
            }
        },
        Expr::Unary { op, expr, span } => {
            if op == UnaryOp::Deref {
                lemma_lower_expr(st, *expr);
                let (st, (v, ty)) = lower_expr_s(st, *expr);
                if (ty is Unknown) {
                    lemma_lvalue_unknown(st);
                } else {
                    match ty.target() {
                        Some(target) => {},
                        None => {
                            let st = diag_unsupported_s(
                                st,
                                span,
                                "dereference"@,
                                "operand is not a pointer"@,
                            );
                            assert(extends(first.diags, st.diags) && local(first.b, st.b));
                            lemma_lvalue_unknown(st);
                        },
                    }
                }
            } else {
                let st = err_s(st, ECode::TypeError, span, "expression is not addressable"@);
                assert(extends(first.diags, st.diags) && local(first.b, st.b));
                lemma_lvalue_unknown(st);
            }
        },
        Expr::Index { .. } => {
            lemma_lower_index_lvalue(st, e);
        },
        Expr::Member { .. } => {
            lemma_lower_member_lvalue(st, e);
        },
        _ => {
            let st = err_s(st, ECode::TypeError, expr_span(e), "expression is not addressable"@);
            assert(extends(first.diags, st.diags) && local(first.b, st.b));
            lemma_lvalue_unknown(st);
        },
    }
}

proof fn lemma_index_base(st: LwState, base: Expr, span: Span)
    ensures
        spoke(st, index_base_s(st, base, span).0),
    decreases base, 10nat,
{
    broadcast use {group_grow, group_local};

    if lvalue(base) {
        lemma_lower_lvalue(st, base);
        let (st, lv) = lower_lvalue_s(st, base);
        if !((lv.ty is Unknown)) {
            match lv.ty.target() {
                Some(elem) => {
                    if (lv.ty is Pointer) {
                        lemma_load_addr(st, lv);
                    }
                },
                None => {},
            }
        }
    } else {
        lemma_lower_expr(st, base);
    }
}

proof fn lemma_lower_index_lvalue(st: LwState, e: Expr)
    ensures
        spoke(st, lower_index_lvalue_s(st, e).0),
    decreases e, 7nat,
{
    broadcast use {group_grow, group_local};

    match e {
        Expr::Index { base, index, span } => {
            lemma_lower_expr(st, *index);
            let (st, (idx_val, idx_ty)) = lower_expr_s(st, *index);
            if (idx_ty is Unknown) {
                lemma_lvalue_unknown(st);
            } else {
                lemma_index_base(st, *base, span);
                let (st, found) = index_base_s(st, *base, span);
                match found {
                    None => {
                        lemma_lvalue_unknown(st);
                    },
                    Some(b) => {
                        let esz = low_i64(size_s(st, b.ty) as int);
                        lemma_widen_index_i64(st, idx_val, idx_ty);
                    },
                }
            }
        },
        _ => {
            lemma_lvalue_unknown(st);
        },
    }
}

proof fn lemma_member_base(st: LwState, base: Expr, arrow: bool, span: Span)
    ensures
        spoke(st, member_base_s(st, base, arrow, span).0),
    decreases base, 10nat,
{
    broadcast use {group_grow, group_local};

    if arrow {
        lemma_lower_expr(st, base);
    } else {
        lemma_lower_lvalue(st, base);
    }
}

proof fn lemma_field_place(st: LwState, base: LValueV, off: u64, fty: TyV)
    ensures
        spoke(st, field_place_s(st, base, off, fty).0),
{
    broadcast use {group_grow, group_local};

    reveal(field_place_s);
}

proof fn lemma_lower_member_lvalue(st: LwState, e: Expr)
    ensures
        spoke(st, lower_member_lvalue_s(st, e).0),
    decreases e, 7nat,
{
    broadcast use {group_grow, group_local};

    let first = st;
    match e {
        Expr::Member { base, name, arrow, span } => {
            lemma_member_base(st, *base, arrow, span);
            let (st, found) = member_base_s(st, *base, arrow, span);
            match found {
                None => {
                    lemma_lvalue_unknown(st);
                },
                Some(b) => {
                    if !(b.ty is Struct || b.ty is Union) {
                        let st = diag_unsupported_s(
                            st,
                            span,
                            "member access"@,
                            "base is not a struct/union"@,
                        );
                        assert(extends(first.diags, st.diags) && local(first.b, st.b));
                        lemma_lvalue_unknown(st);
                    } else {
                        match field_offset_s(st, b.ty, name@) {
                            Some((off, fty)) => {
                                lemma_field_place(st, b, off, fty);
                            },
                            None => {
                                let st = diag_unsupported_s(
                                    st,
                                    span,
                                    "member access"@,
                                    "unknown field '"@ + name@ + "'"@,
                                );
                                assert(extends(first.diags, st.diags) && local(first.b, st.b));
                                lemma_lvalue_unknown(st);
                            },
                        }
                    }
                },
            }
        },
        _ => {
            lemma_lvalue_unknown(st);
        },
    }
}

proof fn lemma_lower_cast(st: LwState, e: Expr)
    ensures
        spoke(st, lower_cast_s(st, e).0),
    decreases e, 8nat,
{
    broadcast use {group_grow, group_local};

    let first = st;
    match e {
        Expr::Cast { ty, expr, span } => {
            lemma_resolve_type(st, ty);
            let (st, target) = resolve_type_s(st, ty);
            lemma_lower_expr(st, *expr);
            let (st, (v, src)) = lower_expr_s(st, *expr);
            if (src is Unknown) || (target is Unknown) {
                lemma_placeholder(st);
            } else {
                if aggregate(target) || aggregate(src) {
                    let st = diag_unsupported_s(
                        st,
                        span,
                        "cast involving a struct/union/array"@,
                        "no BIR aggregate type"@,
                    );
                    assert(extends(first.diags, st.diags) && local(first.b, st.b));
                    lemma_placeholder(st);
                } else {
                    lemma_coerce_to(st, v, src, target);
                }
            }
        },
        _ => {
            lemma_placeholder(st);
        },
    }
}

proof fn lemma_lower_unary(st: LwState, op: UnaryOp, expr: Expr)
    ensures
        spoke(st, lower_unary_s(st, op, expr).0),
    decreases expr, 10nat,
{
    broadcast use {group_grow, group_local};

    lemma_lower_expr(st, expr);
    let (st, (v, ty)) = lower_expr_s(st, expr);
    if (ty is Unknown) {
        lemma_placeholder(st);
    } else {
        let bty = bir_ty(ty);
        match op {
            UnaryOp::Plus => {},
            UnaryOp::Neg => {},
            UnaryOp::BitNot => {},
            UnaryOp::Not => {},
            _ => {
                lemma_placeholder(st);
            },
        }
    }
}

proof fn lemma_lower_logical(st: LwState, e: Expr)
    ensures
        spoke(st, lower_logical_s(st, e).0),
    decreases e, 7nat,
{
    broadcast use {group_grow, group_local};

    let first = st;
    match e {
        Expr::Binary { op, lhs, rhs, .. } => {
            lemma_lower_expr(st, *lhs);
            let (st, (lv, lty)) = lower_expr_s(st, *lhs);
            if (lty is Unknown) {
                lemma_placeholder(st);
            } else {
                lemma_truthy(st, lv, lty);
                let (st, lb) = truthy_s(st, lv, lty);
                let is_and = op == BinOp::LogAnd;
                let short_const = if is_and { 0i64 } else { 1i64 };
                let (st, short_val) = push_s(
                    st,
                    BTy::Scalar(Scalar::I32),
                    OpV::ConstInt(short_const),
                );
                assert(extends(first.diags, st.diags) && local(first.b, st.b));
                let short_bb = st.b.cur;
                let (st, rhs_bb) = alloc_block_s(st);
                let (st, merge_bb) = alloc_block_s(st);
                let st = if is_and {
                    terminate_s(st, TermV::CondBr(lb, rhs_bb, merge_bb))
                } else {
                    terminate_s(st, TermV::CondBr(lb, merge_bb, rhs_bb))
                };
                assert(extends(first.diags, st.diags) && local(first.b, st.b));
                let st = set_cur_s(st, rhs_bb);
                assert(extends(first.diags, st.diags) && local(first.b, st.b));
                lemma_lower_expr(st, *rhs);
                let (st, (rv, rty)) = lower_expr_s(st, *rhs);
                if !((rty is Unknown)) {
                    lemma_truthy(st, rv, rty);
                }
            }
        },
        _ => {
            lemma_placeholder(st);
        },
    }
}

proof fn lemma_lower_compare(st: LwState, op: BinOp, lv: ValRef, lty: TyV, rv: ValRef, rty: TyV)
    ensures
        spoke(st, lower_compare_s(st, op, lv, lty, rv, rty).0),
{
    broadcast use {group_grow, group_local};

    reveal(lower_compare_s);
    if !(lty.pointer_like() || rty.pointer_like()) {
        let ct = promoted(lty, rty);
        let bty = bir_ty(ct);
        lemma_coerce_to(st, lv, lty, ct);
        let (st, l2) = coerce_to_s(st, lv, lty, ct);
        lemma_coerce_to(st, rv, rty, ct);
    }
}

proof fn lemma_lower_arith(st: LwState, op: BinOp, lv: ValRef, lty: TyV, rv: ValRef, rty: TyV)
    ensures
        spoke(st, lower_arith_s(st, op, lv, lty, rv, rty).0),
{
    broadcast use {group_grow, group_local};

    reveal(lower_arith_s);
    let result_ty = promoted(lty, rty);
    lemma_coerce_to(st, lv, lty, result_ty);
    let (st, l2) = coerce_to_s(st, lv, lty, result_ty);
    lemma_coerce_to(st, rv, rty, result_ty);
}

proof fn lemma_lower_ptr_offset(st: LwState, pv: ValRef, pty: TyV, iv: ValRef, ity: TyV)
    ensures
        spoke(st, lower_ptr_offset_s(st, pv, pty, iv, ity).0),
{
    broadcast use {group_grow, group_local};

    reveal(lower_ptr_offset_s);
    match pty.target() {
        None => {
            lemma_placeholder(st);
        },
        Some(elem) => {
            if (elem is Unknown) {
                lemma_placeholder(st);
            } else {
                let esz = low_i64(size_s(st, elem) as int);
                lemma_widen_index_i64(st, iv, ity);
            }
        },
    }
}

proof fn lemma_lower_add(st: LwState, lv: ValRef, lty: TyV, rv: ValRef, rty: TyV, span: Span)
    ensures
        spoke(st, lower_add_s(st, lv, lty, rv, rty, span).0),
{
    broadcast use {group_grow, group_local};

    reveal(lower_add_s);
    let first = st;
    if lty.pointer_like() && rty.integer() {
        lemma_lower_ptr_offset(st, lv, lty, rv, rty);
    } else {
        if rty.pointer_like() && lty.integer() {
            lemma_lower_ptr_offset(st, rv, rty, lv, lty);
        } else {
            if lty.arithmetic() && rty.arithmetic() {
                lemma_lower_arith(st, BinOp::Add, lv, lty, rv, rty);
            } else {
                let st = diag_unsupported_s(
                    st,
                    span,
                    "'+' operand combination"@,
                    "not arithmetic or pointer+integer"@,
                );
                assert(extends(first.diags, st.diags) && local(first.b, st.b));
                lemma_placeholder(st);
            }
        }
    }
}

proof fn lemma_lower_sub(st: LwState, lv: ValRef, lty: TyV, rv: ValRef, rty: TyV, span: Span)
    ensures
        spoke(st, lower_sub_s(st, lv, lty, rv, rty, span).0),
{
    broadcast use {group_grow, group_local};

    reveal(lower_sub_s);
    let first = st;
    if lty.pointer_like() && rty.pointer_like() {
        let st = diag_unsupported_s(
            st,
            span,
            "pointer difference"@,
            "BIR pointers are opaque; no integer representation to subtract"@,
        );
        assert(extends(first.diags, st.diags) && local(first.b, st.b));
        lemma_placeholder(st);
    } else {
        if lty.pointer_like() && rty.integer() {
            lemma_widen_index_i64(st, rv, rty);
            let (st, r64) = widen_index_i64_s(st, rv, rty);
            let (st, zero) = push_s(st, BTy::Scalar(Scalar::I64), OpV::ConstInt(0));
            assert(extends(first.diags, st.diags) && local(first.b, st.b));
            let (st, neg) = push_s(st, BTy::Scalar(Scalar::I64), OpV::Bin(BBin::Sub, zero, r64));
            assert(extends(first.diags, st.diags) && local(first.b, st.b));
            lemma_lower_ptr_offset(st, lv, lty, neg, TyV::Scalar(ScalarKind::Long));
        } else {
            if lty.arithmetic() && rty.arithmetic() {
                lemma_lower_arith(st, BinOp::Sub, lv, lty, rv, rty);
            } else {
                let st = diag_unsupported_s(
                    st,
                    span,
                    "'-' operand combination"@,
                    "not arithmetic or pointer-integer"@,
                );
                assert(extends(first.diags, st.diags) && local(first.b, st.b));
                lemma_placeholder(st);
            }
        }
    }
}

proof fn lemma_lower_binary(st: LwState, e: Expr)
    ensures
        spoke(st, lower_binary_s(st, e).0),
    decreases e, 8nat,
{
    broadcast use {group_grow, group_local};

    match e {
        Expr::Binary { op, lhs, rhs, span } => {
            if op == BinOp::LogOr || op == BinOp::LogAnd {
                lemma_lower_logical(st, e);
            } else {
                lemma_lower_expr(st, *lhs);
                let (st, (lv, lty)) = lower_expr_s(st, *lhs);
                lemma_lower_expr(st, *rhs);
                let (st, (rv, rty)) = lower_expr_s(st, *rhs);
                if (lty is Unknown) || (rty is Unknown) {
                    lemma_placeholder(st);
                } else {
                    match op {
                        BinOp::Eq | BinOp::Ne | BinOp::Lt | BinOp::Gt | BinOp::Le | BinOp::Ge => {
                            lemma_lower_compare(st, op, lv, lty, rv, rty);
                        },
                        BinOp::Add => {
                            lemma_lower_add(st, lv, lty, rv, rty, span);
                        },
                        BinOp::Sub => {
                            lemma_lower_sub(st, lv, lty, rv, rty, span);
                        },
                        _ => {
                            lemma_lower_arith(st, op, lv, lty, rv, rty);
                        },
                    }
                }
            }
        },
        _ => {
            lemma_placeholder(st);
        },
    }
}

proof fn lemma_lower_assign(st: LwState, e: Expr)
    ensures
        spoke(st, lower_assign_s(st, e).0),
    decreases e, 8nat,
{
    broadcast use {group_grow, group_local};

    let first = st;
    match e {
        Expr::Assign { op, lhs, rhs, span } => {
            lemma_lower_lvalue(st, *lhs);
            let (st, lv) = lower_lvalue_s(st, *lhs);
            if (lv.ty is Unknown) {
                lemma_lower_expr(st, *rhs);
                let (st, _) = lower_expr_s(st, *rhs);
                lemma_placeholder(st);
            } else {
                if aggregate(lv.ty) {
                    let st = diag_unsupported_s(
                        st,
                        span,
                        "whole-aggregate assignment"@,
                        "struct/union/array copy has no BIR representation"@,
                    );
                    assert(extends(first.diags, st.diags) && local(first.b, st.b));
                    lemma_lower_expr(st, *rhs);
                    let (st, _) = lower_expr_s(st, *rhs);
                    lemma_placeholder(st);
                } else {
                    lemma_lower_expr(st, *rhs);
                    let (st, (rv, rty)) = lower_expr_s(st, *rhs);
                    if (rty is Unknown) {
                        lemma_placeholder(st);
                    } else {
                        if op == AssignOp::Assign {
                            lemma_coerce_to(st, rv, rty, lv.ty);
                            let (st, coerced) = coerce_to_s(st, rv, rty, lv.ty);
                            lemma_store_addr(st, lv, coerced);
                        } else {
                            let bin = binop_of(op);
                            lemma_load_addr(st, lv);
                            let (st, (cur_v, cur_ty)) = load_addr_s(st, lv);
                            match bin {
                                BinOp::Add => {
                                    lemma_lower_add(st, cur_v, cur_ty, rv, rty, span);
                                },
                                BinOp::Sub => {
                                    lemma_lower_sub(st, cur_v, cur_ty, rv, rty, span);
                                },
                                _ => {
                                    lemma_lower_arith(st, bin, cur_v, cur_ty, rv, rty);
                                },
                            }
                            let (st, (result_v, result_ty)) = match bin {
                                BinOp::Add => {
                                    lower_add_s(st, cur_v, cur_ty, rv, rty, span)
                                },
                                BinOp::Sub => {
                                    lower_sub_s(st, cur_v, cur_ty, rv, rty, span)
                                },
                                _ => {
                                    lower_arith_s(st, bin, cur_v, cur_ty, rv, rty)
                                },
                            };
                            assert(extends(first.diags, st.diags) && local(first.b, st.b));
                            if (result_ty is Unknown) {
                                lemma_placeholder(st);
                            } else {
                                lemma_coerce_to(st, result_v, result_ty, lv.ty);
                                let (st, coerced) = coerce_to_s(st, result_v, result_ty, lv.ty);
                                lemma_store_addr(st, lv, coerced);
                            }
                        }
                    }
                }
            }
        },
        _ => {
            lemma_placeholder(st);
        },
    }
}

proof fn lemma_lower_incdec(st: LwState, op: IncDecOp, expr: Expr, is_pre: bool)
    ensures
        spoke(st, lower_incdec_s(st, op, expr, is_pre).0),
    decreases expr, 10nat,
{
    broadcast use {group_grow, group_local};

    let first = st;
    lemma_lower_lvalue(st, expr);
    let (st, lv) = lower_lvalue_s(st, expr);
    if (lv.ty is Unknown) {
        lemma_placeholder(st);
    } else {
        lemma_load_addr(st, lv);
        let (st, (cur_v, cur_ty)) = load_addr_s(st, lv);
        let inc = op == IncDecOp::Inc;
        let bty = bir_ty(cur_ty);
        if (cur_ty is Pointer) {
            let delta = if inc { 1i64 } else { MINUS_ONE };
            let (st, deltav) = push_s(st, BTy::Scalar(Scalar::I64), OpV::ConstInt(delta));
            assert(extends(first.diags, st.diags) && local(first.b, st.b));
            lemma_lower_ptr_offset(st, cur_v, cur_ty, deltav, TyV::Scalar(ScalarKind::Long));
        }
        let (st, (new_v, new_ty)) = if (cur_ty is Pointer) {
            let delta = if inc { 1i64 } else { MINUS_ONE };
            let (st, deltav) = push_s(st, BTy::Scalar(Scalar::I64), OpV::ConstInt(delta));
            lower_ptr_offset_s(st, cur_v, cur_ty, deltav, TyV::Scalar(ScalarKind::Long))
        } else if cur_ty.float() {
            let (st, one) = push_s(st, bty, OpV::ConstFloat(float_one()));
            let bop = if inc { BBin::FAdd } else { BBin::FSub };
            let (st, r2) = push_s(st, bty, OpV::Bin(bop, cur_v, one));
            (st, (r2, cur_ty))
        } else {
            let (st, one) = push_s(st, bty, OpV::ConstInt(1));
            let bop = if inc { BBin::Add } else { BBin::Sub };
            let (st, r2) = push_s(st, bty, OpV::Bin(bop, cur_v, one));
            (st, (r2, cur_ty))
        };
        assert(extends(first.diags, st.diags) && local(first.b, st.b));
        lemma_coerce_to(st, new_v, new_ty, cur_ty);
        let (st, coerced) = coerce_to_s(st, new_v, new_ty, cur_ty);
        lemma_store_addr(st, lv, coerced);
    }
}

proof fn lemma_lower_ternary(st: LwState, e: Expr)
    ensures
        spoke(st, lower_ternary_s(st, e).0),
    decreases e, 8nat,
{
    broadcast use {group_grow, group_local};

    reveal(join_branches_s);
    let first = st;
    match e {
        Expr::Ternary { cond, then_branch, else_branch, span } => {
            lemma_lower_expr(st, *cond);
            let (st, (cv, cty)) = lower_expr_s(st, *cond);
            if (cty is Unknown) {
                lemma_lower_expr(st, *then_branch);
                let (st, _) = lower_expr_s(st, *then_branch);
                lemma_lower_expr(st, *else_branch);
                let (st, _) = lower_expr_s(st, *else_branch);
                lemma_placeholder(st);
            } else {
                lemma_truthy(st, cv, cty);
                let (st, cb) = truthy_s(st, cv, cty);
                let (st, then_bb) = alloc_block_s(st);
                let (st, else_bb) = alloc_block_s(st);
                let (st, merge_bb) = alloc_block_s(st);
                let st = terminate_s(st, TermV::CondBr(cb, then_bb, else_bb));
                assert(extends(first.diags, st.diags) && local(first.b, st.b));
                let st = set_cur_s(st, then_bb);
                assert(extends(first.diags, st.diags) && local(first.b, st.b));
                lemma_lower_expr(st, *then_branch);
                let (st, (tv, tty)) = lower_expr_s(st, *then_branch);
                let then_end = st.b.cur;
                let st = set_cur_s(st, else_bb);
                assert(extends(first.diags, st.diags) && local(first.b, st.b));
                lemma_lower_expr(st, *else_branch);
                let (st, (ev, ety)) = lower_expr_s(st, *else_branch);
                let else_end = st.b.cur;
                if (tty is Unknown) || (ety is Unknown) {
                    let st = join_branches_s(st, then_end, else_end, merge_bb);
                    assert(extends(first.diags, st.diags) && local(first.b, st.b));
                    lemma_placeholder(st);
                } else {
                    if !fits(tty, ety) && !fits(ety, tty) {
                        let st = diag_unsupported_s(
                            st,
                            span,
                            "ternary branch types"@,
                            "incompatible types in the two branches"@,
                        );
                        assert(extends(first.diags, st.diags) && local(first.b, st.b));
                        let st = join_branches_s(st, then_end, else_end, merge_bb);
                        assert(extends(first.diags, st.diags) && local(first.b, st.b));
                        lemma_placeholder(st);
                    } else {
                        let result_ty = if fits(tty, ety) { tty } else { ety };
                        if aggregate(result_ty) {
                            let st = diag_unsupported_s(
                                st,
                                span,
                                "whole-aggregate value"@,
                                "ternary over a struct/union/array"@,
                            );
                            assert(extends(first.diags, st.diags) && local(first.b, st.b));
                            let st = join_branches_s(st, then_end, else_end, merge_bb);
                            assert(extends(first.diags, st.diags) && local(first.b, st.b));
                            lemma_placeholder(st);
                        } else {
                            let st = set_cur_s(st, then_end);
                            assert(extends(first.diags, st.diags) && local(first.b, st.b));
                            lemma_coerce_to(st, tv, tty, result_ty);
                            let (st, tv2) = coerce_to_s(st, tv, tty, result_ty);
                            let st = terminate_s(st, TermV::Br(merge_bb));
                            assert(extends(first.diags, st.diags) && local(first.b, st.b));
                            let st = set_cur_s(st, else_end);
                            assert(extends(first.diags, st.diags) && local(first.b, st.b));
                            lemma_coerce_to(st, ev, ety, result_ty);
                        }
                    }
                }
            }
        },
        _ => {
            lemma_placeholder(st);
        },
    }
}

proof fn lemma_lower_call_args(st: LwState, args: Seq<Expr>, n: nat)
    ensures
        spoke(st, lower_call_args_s(st, args, n).0),
    decreases args, n,
{
    broadcast use {group_grow, group_local};

    if !(n == 0 || n > args.len()) {
        lemma_lower_call_args(st, args, (n - 1) as nat);
        let (st, v) = lower_call_args_s(st, args, (n - 1) as nat);
        lemma_lower_expr(st, args[n - 1]);
    }
}

proof fn lemma_lower_syncthreads_call(st: LwState, args: Seq<Expr>)
    ensures
        spoke(st, lower_syncthreads_call_s(st, args).0),
    decreases args, args.len() + 1,
{
    broadcast use {group_grow, group_local};

    let first = st;
    lemma_lower_call_args(st, args, args.len());
    let (st, _) = lower_call_args_s(st, args, args.len());
    let st = push_void_s(st, OpV::Barrier);
    assert(extends(first.diags, st.diags) && local(first.b, st.b));
    lemma_zero_of(st, TyV::Scalar(ScalarKind::Void));
}

proof fn lemma_lower_shuffle_call(st: LwState, kind: ShuffleKind, args: Seq<Expr>)
    ensures
        spoke(st, lower_shuffle_call_s(st, kind, args).0),
    decreases args, args.len() + 1,
{
    broadcast use {group_grow, group_local};

    lemma_lower_call_args(st, args, args.len());
    let (st, vals) = lower_call_args_s(st, args, args.len());
    if vals.len() != 2 || any_unknown(vals) {
        lemma_placeholder(st);
    } else {
        lemma_coerce_to(st, vals[0].0, vals[0].1, TyV::Scalar(ScalarKind::Int));
        let (st, v) = coerce_to_s(st, vals[0].0, vals[0].1, TyV::Scalar(ScalarKind::Int));
        lemma_coerce_to(st, vals[1].0, vals[1].1, TyV::Scalar(ScalarKind::Int));
    }
}

proof fn lemma_lower_vote_call(st: LwState, kind: Vote, args: Seq<Expr>)
    ensures
        spoke(st, lower_vote_call_s(st, kind, args).0),
    decreases args, args.len() + 1,
{
    broadcast use {group_grow, group_local};

    lemma_lower_call_args(st, args, args.len());
    let (st, vals) = lower_call_args_s(st, args, args.len());
    if vals.len() != 1 || vals[0].1 is Unknown {
        lemma_placeholder(st);
    } else {
        lemma_coerce_to(st, vals[0].0, vals[0].1, TyV::Scalar(ScalarKind::Int));
    }
}

proof fn lemma_lower_atomic_rmw_call(st: LwState, aop: AtomicOp, args: Seq<Expr>, span: Span)
    ensures
        spoke(st, lower_atomic_rmw_call_s(st, aop, args, span).0),
    decreases args, args.len() + 1,
{
    broadcast use {group_grow, group_local};

    let first = st;
    lemma_lower_call_args(st, args, args.len());
    let (st, vals) = lower_call_args_s(st, args, args.len());
    if vals.len() != 2 || any_unknown(vals) {
        lemma_placeholder(st);
    } else {
        if !vals[0].1.pointer_like() {
            let st = diag_unsupported_s(
                st,
                span,
                "atomic builtin"@,
                "first argument is not a pointer"@,
            );
            assert(extends(first.diags, st.diags) && local(first.b, st.b));
            lemma_placeholder(st);
        } else {
            lemma_coerce_to(st, vals[1].0, vals[1].1, TyV::Scalar(ScalarKind::Int));
        }
    }
}

proof fn lemma_lower_atomic_cas_call(st: LwState, args: Seq<Expr>, span: Span)
    ensures
        spoke(st, lower_atomic_cas_call_s(st, args, span).0),
    decreases args, args.len() + 1,
{
    broadcast use {group_grow, group_local};

    let first = st;
    lemma_lower_call_args(st, args, args.len());
    let (st, vals) = lower_call_args_s(st, args, args.len());
    if vals.len() != 3 || any_unknown(vals) {
        lemma_placeholder(st);
    } else {
        if !vals[0].1.pointer_like() {
            let st = diag_unsupported_s(
                st,
                span,
                "atomic builtin"@,
                "first argument is not a pointer"@,
            );
            assert(extends(first.diags, st.diags) && local(first.b, st.b));
            lemma_placeholder(st);
        } else {
            lemma_coerce_to(st, vals[1].0, vals[1].1, TyV::Scalar(ScalarKind::Int));
            let (st, expect) = coerce_to_s(st, vals[1].0, vals[1].1, TyV::Scalar(ScalarKind::Int));
            lemma_coerce_to(st, vals[2].0, vals[2].1, TyV::Scalar(ScalarKind::Int));
        }
    }
}

proof fn lemma_lower_cuda_malloc_devptr(st: LwState, e: Expr, span: Span)
    ensures
        spoke(st, lower_cuda_malloc_devptr_s(st, e, span).0),
    decreases e, 11nat,
{
    broadcast use {group_grow, group_local};

    match e {
        Expr::Unary { op: UnaryOp::Addr, expr, .. } => {
            lemma_lower_lvalue(st, *expr);
        },
        _ => {
            if let Expr::Cast { ty, expr, span: sp } = e {
                if peels_to_address(*expr) {
                    lemma_lower_cuda_malloc_devptr(st, *expr, span);
                } else {
                    lemma_devptr_value(st, e, span);
                }
            } else {
                lemma_devptr_value(st, e, span);
            }
        },
    }
}

proof fn lemma_devptr_value(st: LwState, e: Expr, span: Span)
    ensures
        spoke(st, devptr_value_s(st, e, span).0),
    decreases e, 10nat,
{
    broadcast use {group_grow, group_local};

    let first = st;
    lemma_lower_expr(st, e);
    let (st, (v, ty)) = lower_expr_s(st, e);
    if !ty.pointer_like() {
        let st = if !(ty is Unknown) {
            diag_unsupported_s(
                st,
                span,
                "cudaMalloc"@,
                "first argument is not a pointer"@,
            )
        } else {
            st
        };
        assert(extends(first.diags, st.diags) && local(first.b, st.b));
        lemma_lvalue_unknown(st);
    }
}

proof fn lemma_lower_cuda_malloc_call(st: LwState, args: Seq<Expr>, span: Span)
    ensures
        spoke(st, lower_cuda_malloc_call_s(st, args, span).0),
    decreases args, args.len() + 1,
{
    broadcast use {group_grow, group_local};

    let first = st;
    if args.len() != 2 {
        lemma_lower_call_args(st, args, args.len());
        let (st, _) = lower_call_args_s(st, args, args.len());
        let st = diag_unsupported_s(st, span, "cudaMalloc"@, "expects exactly 2 arguments"@);
        assert(extends(first.diags, st.diags) && local(first.b, st.b));
        lemma_placeholder(st);
    } else {
        lemma_lower_expr(st, args[1]);
        let (st, (size_v, size_t)) = lower_expr_s(st, args[1]);
        lemma_lower_cuda_malloc_devptr(st, args[0], span);
        let (st, devptr_lv) = lower_cuda_malloc_devptr_s(st, args[0], span);
        if (size_t is Unknown) || (devptr_lv.ty is Unknown) {
            lemma_placeholder(st);
        } else {
            lemma_coerce_to(st, size_v, size_t, TyV::Scalar(ScalarKind::ULong));
            let (st, size) = coerce_to_s(st, size_v, size_t, TyV::Scalar(ScalarKind::ULong));
            let (st, allocated) = push_s(st, BTy::Ptr(AddrSpace::Global), OpV::CudaMalloc { size });
            assert(extends(first.diags, st.diags) && local(first.b, st.b));
            lemma_store_addr(st, devptr_lv, allocated);
            let st = store_addr_s(st, devptr_lv, allocated);
            lemma_zero_of(st, TyV::Scalar(ScalarKind::Int));
        }
    }
}

proof fn lemma_lower_cuda_memcpy_call(st: LwState, args: Seq<Expr>)
    ensures
        spoke(st, lower_cuda_memcpy_call_s(st, args).0),
    decreases args, args.len() + 1,
{
    broadcast use {group_grow, group_local};

    let first = st;
    lemma_lower_call_args(st, args, args.len());
    let (st, vals) = lower_call_args_s(st, args, args.len());
    if vals.len() != 4 || any_unknown(vals) {
        lemma_placeholder(st);
    } else {
        lemma_coerce_to(st, vals[2].0, vals[2].1, TyV::Scalar(ScalarKind::ULong));
        let (st, count) = coerce_to_s(st, vals[2].0, vals[2].1, TyV::Scalar(ScalarKind::ULong));
        lemma_coerce_to(st, vals[3].0, vals[3].1, TyV::Scalar(ScalarKind::Int));
        let (st, kind) = coerce_to_s(st, vals[3].0, vals[3].1, TyV::Scalar(ScalarKind::Int));
        let st = push_void_s(st, OpV::CudaMemcpy { dst: vals[0].0, src: vals[1].0, count, kind });
        assert(extends(first.diags, st.diags) && local(first.b, st.b));
        lemma_zero_of(st, TyV::Scalar(ScalarKind::Int));
    }
}

proof fn lemma_lower_cuda_free_call(st: LwState, args: Seq<Expr>)
    ensures
        spoke(st, lower_cuda_free_call_s(st, args).0),
    decreases args, args.len() + 1,
{
    broadcast use {group_grow, group_local};

    let first = st;
    lemma_lower_call_args(st, args, args.len());
    let (st, vals) = lower_call_args_s(st, args, args.len());
    if vals.len() != 1 || vals[0].1 is Unknown {
        lemma_placeholder(st);
    } else {
        let st = push_void_s(st, OpV::CudaFree { ptr: vals[0].0 });
        assert(extends(first.diags, st.diags) && local(first.b, st.b));
        lemma_zero_of(st, TyV::Scalar(ScalarKind::Int));
    }
}

proof fn lemma_lower_cuda_device_synchronize_call(st: LwState, args: Seq<Expr>)
    ensures
        spoke(st, lower_cuda_device_synchronize_call_s(st, args).0),
    decreases args, args.len() + 1,
{
    broadcast use {group_grow, group_local};

    let first = st;
    lemma_lower_call_args(st, args, args.len());
    let (st, _) = lower_call_args_s(st, args, args.len());
    let st = push_void_s(st, OpV::CudaDeviceSynchronize);
    assert(extends(first.diags, st.diags) && local(first.b, st.b));
    lemma_zero_of(st, TyV::Scalar(ScalarKind::Int));
}

proof fn lemma_lower_builtin_call(st: LwState, name: Seq<char>, args: Seq<Expr>, span: Span)
    ensures
        spoke(st, lower_builtin_call_s(st, name, args, span).0),
    decreases args, args.len() + 2,
{
    broadcast use {group_grow, group_local};

    if (name == "__syncthreads"@) {
        lemma_lower_syncthreads_call(st, args);
    } else {
        if let Some(kind) = shuffle_kind(name) {
            lemma_lower_shuffle_call(st, kind, args);
        } else {
            if let Some(kind) = vote_kind(name) {
                lemma_lower_vote_call(st, kind, args);
            } else {
                if let Some(aop) = atomic_kind(name) {
                    lemma_lower_atomic_rmw_call(st, aop, args, span);
                } else {
                    if (name == "atomicCAS"@) {
                        lemma_lower_atomic_cas_call(st, args, span);
                    } else {
                        if (name == "cudaMalloc"@) {
                            lemma_lower_cuda_malloc_call(st, args, span);
                        } else {
                            if (name == "cudaMemcpy"@) {
                                lemma_lower_cuda_memcpy_call(st, args);
                            } else {
                                if (name == "cudaFree"@) {
                                    lemma_lower_cuda_free_call(st, args);
                                } else {
                                    if (name == "cudaDeviceSynchronize"@) {
                                        lemma_lower_cuda_device_synchronize_call(st, args);
                                    }
                                }
                            }
                        }
                    }
                }
            }
        }
    }
}

proof fn lemma_finish_call(
    st: LwState,
    callee: Option<(Seq<char>, TyV)>,
    vals: Seq<(ValRef, TyV)>,
    span: Span,
)
    ensures
        spoke(st, finish_call_s(st, callee, vals, span).0),
{
    broadcast use {group_grow, group_local};

    reveal(finish_call_s);
    let first = st;
    match callee {
        None => {
            lemma_placeholder(st);
        },
        Some((name, ret_ty)) => {
            if aggregate(ret_ty) || any_aggregate(vals) {
                let st = diag_unsupported_s(
                    st,
                    span,
                    "function call"@,
                    "a whole struct/union/array argument or return value has no BIR value to lower to"@,
                );
                assert(extends(first.diags, st.diags) && local(first.b, st.b));
                if (ret_ty is Unknown) || aggregate(ret_ty) {
                    lemma_placeholder(st);
                } else {
                    lemma_zero_of(st, ret_ty);
                }
            } else {
                if (ret_ty is Unknown) {
                    lemma_placeholder(st);
                } else {
                    if ret_ty.void() {
                        let st = push_void_s(st, OpV::Call { func: name, args: refs_of(vals) });
                        assert(extends(first.diags, st.diags) && local(first.b, st.b));
                        lemma_zero_of(st, ret_ty);
                    }
                }
            }
        },
    }
}

proof fn lemma_lower_call(st: LwState, e: Expr)
    ensures
        spoke(st, lower_call_s(st, e).0),
    decreases e, 8nat,
{
    broadcast use {group_grow, group_local};

    match e {
        Expr::Call { callee, args, span } => {
            match *callee {
                Expr::Ident { name, .. } => {
                    lemma_lower_builtin_call(st, name@, args@, span);
                    let (st, builtin) = lower_builtin_call_s(st, name@, args@, span);
                    match builtin {
                        Some(v) => {},
                        None => {
                            let found = callee_of(st.scopes, *callee);
                            lemma_lower_call_args(st, args@, args@.len());
                            let (st, vals) = lower_call_args_s(st, args@, args@.len());
                            lemma_finish_call(st, found, vals, span);
                        },
                    }
                },
                other => {
                    lemma_lower_expr(st, *callee);
                    let (st, _) = lower_expr_s(st, *callee);
                    lemma_lower_call_args(st, args@, args@.len());
                    let (st, _) = lower_call_args_s(st, args@, args@.len());
                    lemma_placeholder(st);
                },
            }
        },
        _ => {
            lemma_placeholder(st);
        },
    }
}

proof fn lemma_load_dim3_field(st: LwState, base: LValueV, field: Seq<char>)
    ensures
        spoke(st, load_dim3_field_s(st, base, field).0),
{
    broadcast use {group_grow, group_local};

    reveal(load_dim3_field_s);
    match field_offset_s(st, base.ty, field) {
        Some((off, fty)) => {
            lemma_field_place(st, base, off, fty);
            let (st, lv) = field_place_s(st, base, off, fty);
            lemma_load_addr(st, lv);
        },
        None => {},
    }
}

proof fn lemma_lower_launch_config_dim(st: LwState, e: Expr)
    ensures
        spoke(st, lower_launch_config_dim_s(st, e).0),
    decreases e, 10nat,
{
    broadcast use {group_grow, group_local};

    if dim3_extent(st.locals, e) {
        lemma_lower_lvalue(st, e);
        let (st, lv) = lower_lvalue_s(st, e);
        if !((lv.ty is Unknown)) {
            lemma_load_dim3_field(st, lv, "x"@);
            let (st, x) = load_dim3_field_s(st, lv, "x"@);
            lemma_load_dim3_field(st, lv, "y"@);
            let (st, y) = load_dim3_field_s(st, lv, "y"@);
            lemma_load_dim3_field(st, lv, "z"@);
        }
    } else {
        lemma_lower_expr(st, e);
        let (st, (v, t)) = lower_expr_s(st, e);
        if !((t is Unknown)) {
            lemma_coerce_to(st, v, t, TyV::Scalar(ScalarKind::UInt));
        }
    }
}

proof fn lemma_lower_shared(st: LwState, shared: Option<Box<Expr>>)
    ensures
        spoke(st, lower_shared_s(st, shared).0),
    decreases shared, 10nat,
{
    broadcast use {group_grow, group_local};

    match shared {
        Some(x) => {
            lemma_lower_expr(st, *x);
            let (st, (v, t)) = lower_expr_s(st, *x);
            lemma_coerce_to(st, v, t, TyV::Scalar(ScalarKind::ULong));
        },
        None => {},
    }
}

proof fn lemma_lower_stream(st: LwState, stream: Option<Box<Expr>>)
    ensures
        spoke(st, lower_stream_s(st, stream).0),
    decreases stream, 10nat,
{
    broadcast use {group_grow, group_local};

    match stream {
        Some(x) => {
            lemma_lower_expr(st, *x);
        },
        None => {},
    }
}

proof fn lemma_lower_kernel_launch(st: LwState, e: Expr)
    ensures
        spoke(st, lower_kernel_launch_s(st, e).0),
    decreases e, 8nat,
{
    broadcast use {group_grow, group_local};

    let first = st;
    match e {
        Expr::KernelLaunch { kernel, grid, block, shared, stream, args, span } => {
            match *kernel {
                Expr::Ident { name, .. } => {
                    lemma_lower_launch_config_dim(st, *grid);
                    let (st, grid_vals) = lower_launch_config_dim_s(st, *grid);
                    lemma_lower_launch_config_dim(st, *block);
                    let (st, block_vals) = lower_launch_config_dim_s(st, *block);
                    lemma_lower_shared(st, shared);
                    let (st, shared_val) = lower_shared_s(st, shared);
                    lemma_lower_stream(st, stream);
                    let (st, stream_val) = lower_stream_s(st, stream);
                    lemma_lower_call_args(st, args@, args@.len());
                },
                other => {
                    lemma_lower_expr(st, *kernel);
                    let (st, _) = lower_expr_s(st, *kernel);
                    lemma_lower_call_args(st, args@, args@.len());
                },
            }
            let st = match *kernel {
                Expr::Ident { name, .. } => {
                    let (st, grid_vals) = lower_launch_config_dim_s(st, *grid);
                    let (st, block_vals) = lower_launch_config_dim_s(st, *block);
                    let (st, shared_val) = lower_shared_s(st, shared);
                    let (st, stream_val) = lower_stream_s(st, stream);
                    let (st, vals) = lower_call_args_s(st, args@, args@.len());
                    push_void_s(
                        st,
                        OpV::KernelLaunch {
                            kernel: name@,
                            grid: grid_vals,
                            block: block_vals,
                            shared: shared_val,
                            stream: stream_val,
                            args: refs_of(vals),
                        },
                    )
                },
                other => {
                    let (st, _) = lower_expr_s(st, *kernel);
                    let (st, _) = lower_call_args_s(st, args@, args@.len());
                    diag_unsupported_s(
                        st,
                        span,
                        "kernel launch"@,
                        "launch target is not a named function"@,
                    )
                },
            };
            assert(extends(first.diags, st.diags) && local(first.b, st.b));
            lemma_zero_of(st, TyV::Scalar(ScalarKind::Void));
        },
        _ => {
            lemma_placeholder(st);
        },
    }
}

proof fn lemma_lower_comma(st: LwState, es: Seq<Expr>, n: nat)
    ensures
        spoke(st, lower_comma_s(st, es, n).0),
    decreases es, n,
{
    broadcast use {group_grow, group_local};

    if n == 0 || n > es.len() {
        lemma_placeholder(st);
    } else {
        lemma_lower_comma(st, es, (n - 1) as nat);
        let (st, _) = lower_comma_s(st, es, (n - 1) as nat);
        lemma_lower_expr(st, es[n - 1]);
    }
}

proof fn lemma_operand_type(st: LwState, e: Expr)
    ensures
        spoke(st, operand_type_s(st, e).0),
    decreases e, 10nat,
{
    broadcast use {group_grow, group_local};

    if names_place(st.locals, e) {
        lemma_lower_lvalue(st, e);
        let (st, lv) = lower_lvalue_s(st, e);
        if !((lv.ty is Array)) {
            lemma_value_of_lvalue(st, lv, expr_span(e));
        }
    } else {
        lemma_lower_expr(st, e);
    }
}

proof fn lemma_size_constant(st: LwState, t: TyV, span: Span)
    ensures
        spoke(st, size_constant_s(st, t, span).0),
{
    broadcast use {group_grow, group_local};

    reveal(size_constant_s);
}

#[verifier::rlimit(60)]
proof fn lemma_lower_expr(st: LwState, e: Expr)
    ensures
        spoke(st, lower_expr_s(st, e).0),
    decreases e, 9nat,
{
    broadcast use {group_grow, group_local};

    match e {
        Expr::IntLit { value, .. } => {},
        Expr::FloatLit { value, .. } => {},
        Expr::CharLit { value, .. } => {},
        Expr::StrLit { span } => {},
        Expr::Ident { name, span } => {
            lemma_lower_ident_value(st, name@, span);
        },
        Expr::Index { .. } => {
            lemma_lower_lvalue(st, e);
            let (st, lv) = lower_lvalue_s(st, e);
            lemma_value_of_lvalue(st, lv, expr_span(e));
        },
        Expr::Member { base, name, arrow, .. } => {
            let found = if arrow {
                None
            } else {
                match *base {
                    Expr::Ident { name: base_name, span: sp } => index_op(base_name@, name@),
                    _ => None,
                }
            };
            match found {
                Some(op) => {},
                None => {
                    lemma_lower_lvalue(st, e);
                    let (st, lv) = lower_lvalue_s(st, e);
                    lemma_value_of_lvalue(st, lv, expr_span(e));
                },
            }
        },
        Expr::Unary { op, expr, .. } => {
            if op == UnaryOp::Deref {
                lemma_lower_lvalue(st, e);
                let (st, lv) = lower_lvalue_s(st, e);
                lemma_value_of_lvalue(st, lv, expr_span(e));
            } else {
                if op == UnaryOp::Addr {
                    lemma_lower_lvalue(st, *expr);
                    let (st, lv) = lower_lvalue_s(st, *expr);
                    if (lv.ty is Unknown) {
                        lemma_placeholder(st);
                    }
                } else {
                    lemma_lower_unary(st, op, *expr);
                }
            }
        },
        Expr::Binary { .. } => {
            lemma_lower_binary(st, e);
        },
        Expr::Assign { .. } => {
            lemma_lower_assign(st, e);
        },
        Expr::Ternary { .. } => {
            lemma_lower_ternary(st, e);
        },
        Expr::Cast { .. } => {
            lemma_lower_cast(st, e);
        },
        Expr::PreIncDec { op, expr, .. } => {
            lemma_lower_incdec(st, op, *expr, true);
        },
        Expr::PostIncDec { op, expr, .. } => {
            lemma_lower_incdec(st, op, *expr, false);
        },
        Expr::SizeofExpr { expr, span } => {
            lemma_operand_type(st, *expr);
            let (st, ty) = operand_type_s(st, *expr);
            lemma_size_constant(st, ty, span);
        },
        Expr::SizeofType { ty, span } => {
            lemma_resolve_type(st, ty);
            let (st, t) = resolve_type_s(st, ty);
            lemma_size_constant(st, t, span);
        },
        Expr::Call { .. } => {
            lemma_lower_call(st, e);
        },
        Expr::KernelLaunch { .. } => {
            lemma_lower_kernel_launch(st, e);
        },
        Expr::Comma { exprs, .. } => {
            lemma_lower_comma(st, exprs@, exprs@.len());
        },
        Expr::Error { .. } => {
            lemma_placeholder(st);
        },
    }
}

proof fn lemma_lower_var_decl(st: LwState, v: VarDecl)
    requires
        st.locals.len() > 0,
    ensures
        stepped(st, lower_var_decl_s(st, v)),
{
    broadcast use group_grow;

    reveal(lower_var_decl_s);
    let first = st;
    lemma_resolve_type(st, v.ty);
    let (st, ty) = resolve_type_s(st, v.ty);
    if (ty is Unknown) {
        match v.init {
            Some(init) => {
                lemma_lower_expr(st, init);
            },
            None => {},
        }
    } else {
        let space = if v.cuda_quals.is_shared {
            AddrSpace::Shared
        } else if v.cuda_quals.is_constant {
            AddrSpace::Constant
        } else {
            AddrSpace::Local
        };
        let (st, slot) = new_slot_s(st, ty, space);
        let st = bind_local_s(st, v.name@, slot);
        match v.init {
            Some(init) => {
                if aggregate(ty) {
                    let st = diag_unsupported_s(
                        st,
                        v.span,
                        "aggregate initializer"@,
                        "struct/union/array initializers are not lowered"@,
                    );
                    assert(extends(first.diags, st.diags));
                    lemma_lower_expr(st, init);
                } else {
                    lemma_lower_expr(st, init);
                    let (st, (iv, ity)) = lower_expr_s(st, init);
                    if !(ity is Unknown) {
                        lemma_coerce_to(st, iv, ity, ty);
                        let (st, coerced) = coerce_to_s(st, iv, ity, ty);
                        lemma_slot_lvalue(st, slot);
                        let (st, lv) = slot_lvalue_s(st, slot);
                        lemma_store_addr(st, lv, coerced);
                    }
                }
            },
            None => {},
        }
    }
}

proof fn lemma_lower_decls(st: LwState, ds: Seq<VarDecl>, n: nat)
    requires
        st.locals.len() > 0,
    ensures
        stepped(st, lower_decls_s(st, ds, n)),
    decreases n,
{
    broadcast use group_grow;

    if n > 0 && n <= ds.len() {
        lemma_lower_decls(st, ds, (n - 1) as nat);
        lemma_lower_var_decl(lower_decls_s(st, ds, (n - 1) as nat), ds[n - 1]);
    }
}

proof fn lemma_lower_stmts(st: LwState, ss: Seq<Stmt>, n: nat)
    requires
        st.locals.len() > 0,
    ensures
        stepped(st, lower_stmts_s(st, ss, n)),
    decreases ss, n,
{
    broadcast use group_grow;

    if n > 0 && n <= ss.len() {
        lemma_lower_stmts(st, ss, (n - 1) as nat);
        lemma_lower_stmt(lower_stmts_s(st, ss, (n - 1) as nat), ss[n - 1]);
    }
}

proof fn lemma_lower_if(st: LwState, s: Stmt)
    requires
        st.locals.len() > 0,
    ensures
        stepped(st, lower_if_s(st, s)),
    decreases s, 8nat,
{
    broadcast use group_grow;

    match s {
        Stmt::If { cond, then_branch, else_branch, .. } => {
            lemma_condition(st, cond);
            let (st, branch_val) = condition_s(st, cond);
            let (st, then_bb) = alloc_block_s(st);
            let (st, else_bb) = alloc_block_s(st);
            let (st, merge_bb) = alloc_block_s(st);
            let st = terminate_s(st, TermV::CondBr(branch_val, then_bb, else_bb));
            let st = set_cur_s(st, then_bb);
            lemma_lower_stmt(st, *then_branch);
            let st = lower_stmt_s(st, *then_branch);
            let st = terminate_s(st, TermV::Br(merge_bb));
            let st = set_cur_s(st, else_bb);
            match else_branch {
                Some(x) => {
                    lemma_lower_stmt(st, *x);
                },
                None => {},
            }
        },
        _ => {},
    }
}

proof fn lemma_lower_while(st: LwState, s: Stmt)
    requires
        st.locals.len() > 0,
    ensures
        stepped(st, lower_while_s(st, s)),
    decreases s, 8nat,
{
    broadcast use group_grow;

    match s {
        Stmt::While { cond, body, .. } => {
            let (st, cond_bb) = alloc_block_s(st);
            let (st, body_bb) = alloc_block_s(st);
            let (st, exit_bb) = alloc_block_s(st);
            let st = terminate_s(st, TermV::Br(cond_bb));
            let st = set_cur_s(st, cond_bb);
            lemma_condition(st, cond);
            let (st, branch_val) = condition_s(st, cond);
            let st = terminate_s(st, TermV::CondBr(branch_val, body_bb, exit_bb));
            let st = set_cur_s(st, body_bb);
            let st = enter_s(st, CtrlCtx::Loop { break_bb: exit_bb, continue_bb: cond_bb });
            lemma_lower_stmt(st, *body);
        },
        _ => {},
    }
}

proof fn lemma_lower_do_while(st: LwState, s: Stmt)
    requires
        st.locals.len() > 0,
    ensures
        stepped(st, lower_do_while_s(st, s)),
    decreases s, 8nat,
{
    broadcast use group_grow;

    match s {
        Stmt::DoWhile { body, cond, .. } => {
            let (st, body_bb) = alloc_block_s(st);
            let (st, cond_bb) = alloc_block_s(st);
            let (st, exit_bb) = alloc_block_s(st);
            let st = terminate_s(st, TermV::Br(body_bb));
            let st = set_cur_s(st, body_bb);
            let st = enter_s(st, CtrlCtx::Loop { break_bb: exit_bb, continue_bb: cond_bb });
            lemma_lower_stmt(st, *body);
            let st = lower_stmt_s(st, *body);
            let st = leave_s(st);
            let st = terminate_s(st, TermV::Br(cond_bb));
            let st = set_cur_s(st, cond_bb);
            lemma_condition(st, cond);
        },
        _ => {},
    }
}

proof fn lemma_lower_for(st: LwState, s: Stmt)
    requires
        st.locals.len() > 0,
    ensures
        stepped(st, lower_for_s(st, s)),
    decreases s, 8nat,
{
    broadcast use group_grow;

    let first = st;
    match s {
        Stmt::For { init, cond, step, body, .. } => {
            let st = open_block_s(st);
            match init {
                Some(i) => {
                    lemma_lower_stmt(st, *i);
                },
                None => {},
            }
            let st = match init {
                Some(i) => {
                    lower_stmt_s(st, *i)
                },
                None => {
                    st
                },
            };
            assert(extends(first.diags, st.diags));
            let (st, cond_bb) = alloc_block_s(st);
            let (st, body_bb) = alloc_block_s(st);
            let (st, step_bb) = alloc_block_s(st);
            let (st, exit_bb) = alloc_block_s(st);
            let st = terminate_s(st, TermV::Br(cond_bb));
            let st = set_cur_s(st, cond_bb);
            match cond {
                Some(c) => {
                    lemma_condition(st, c);
                },
                None => {},
            }
            let st = match cond {
                Some(c) => {
                    let (st, branch_val) = condition_s(st, c);
                    terminate_s(st, TermV::CondBr(branch_val, body_bb, exit_bb))
                },
                None => {
                    terminate_s(st, TermV::Br(body_bb))
                },
            };
            assert(extends(first.diags, st.diags));
            let st = set_cur_s(st, body_bb);
            let st = enter_s(st, CtrlCtx::Loop { break_bb: exit_bb, continue_bb: step_bb });
            lemma_lower_stmt(st, *body);
            let st = lower_stmt_s(st, *body);
            let st = leave_s(st);
            let st = terminate_s(st, TermV::Br(step_bb));
            let st = set_cur_s(st, step_bb);
            match step {
                Some(x) => {
                    lemma_lower_expr(st, x);
                },
                None => {},
            }
        },
        _ => {},
    }
}

proof fn lemma_alloc_blocks(st: LwState, n: nat)
    ensures
        spoke(st, alloc_blocks_s(st, n).0),
    decreases n,
{
    broadcast use {group_grow, group_local};

    if !(n == 0) {
        lemma_alloc_blocks(st, (n - 1) as nat);
    }
}

proof fn lemma_peel_case_labels(st: LwState, s: Stmt, bb: BlockId, seed: i64, k: i64, acc: CasesV)
    ensures
        spoke(st, peel_case_labels_s(st, s, bb, seed, k, acc).0),
    decreases s,
{
    broadcast use {group_grow, group_local};

    let first = st;
    match s {
        Stmt::Case { value, stmt, span } => {
            let found = const_value(st.enums, value);
            let (st, v) = match found {
                Some(n) => {
                    (st, n)
                },
                None => {
                    let st = diag_unsupported_s(
                        st,
                        span,
                        "non-constant case label"@,
                        "value must be a compile-time integer constant"@,
                    );
                    (st, i64::MIN.wrapping_add(seed.wrapping_mul(1000)).wrapping_add(k))
                },
            };
            assert(extends(first.diags, st.diags) && local(first.b, st.b));
            lemma_peel_case_labels(
                st,
                *stmt,
                bb,
                seed,
                k.wrapping_add(1),
                CasesV { cases: acc.cases.push((v, bb)), default: acc.default },
            );
        },
        Stmt::Default { stmt, .. } => {
            lemma_peel_case_labels(
                st,
                *stmt,
                bb,
                seed,
                k,
                CasesV { cases: acc.cases, default: Some(bb) },
            );
        },
        _ => {},
    }
}

proof fn lemma_collect_cases(st: LwState, ss: Seq<Stmt>, bbs: Seq<BlockId>, n: nat)
    ensures
        spoke(st, collect_cases_s(st, ss, bbs, n).0),
    decreases ss, n,
{
    broadcast use {group_grow, group_local};

    if !(n == 0 || n > ss.len()) {
        lemma_collect_cases(st, ss, bbs, (n - 1) as nat);
        let (st, acc) = collect_cases_s(st, ss, bbs, (n - 1) as nat);
        lemma_peel_case_labels(st, ss[n - 1], bbs[n - 1], low_i64(n - 1), 0, acc);
    }
}

proof fn lemma_lower_inner(st: LwState, s: Stmt)
    requires
        st.locals.len() > 0,
    ensures
        stepped(st, lower_inner_s(st, s)),
    decreases s, 10nat,
{
    broadcast use group_grow;

    let first = st;
    match s {
        Stmt::Case { value, stmt, span } => {
            let found = const_value(st.enums, value);
            let st = match found {
                Some(_) => {
                    st
                },
                None => {
                    diag_unsupported_s(
                        st,
                        span,
                        "non-constant case label"@,
                        "value must be a compile-time integer constant"@,
                    )
                },
            };
            assert(extends(first.diags, st.diags));
            lemma_lower_inner(st, *stmt);
        },
        Stmt::Default { stmt, .. } => {
            lemma_lower_inner(st, *stmt);
        },
        _ => {
            lemma_lower_stmt(st, s);
        },
    }
}

proof fn lemma_lower_arms(st: LwState, ss: Seq<Stmt>, bbs: Seq<BlockId>, exit_bb: BlockId, n: nat)
    requires
        st.locals.len() > 0,
    ensures
        stepped(st, lower_arms_s(st, ss, bbs, exit_bb, n)),
    decreases ss, n,
{
    broadcast use group_grow;

    if n > 0 && n <= ss.len() {
        lemma_lower_arms(st, ss, bbs, exit_bb, (n - 1) as nat);
        let st = lower_arms_s(st, ss, bbs, exit_bb, (n - 1) as nat);
        let st = set_cur_s(st, bbs[n - 1]);
        lemma_lower_inner(st, ss[n - 1]);
    }
}

proof fn lemma_lower_switch(st: LwState, s: Stmt)
    requires
        st.locals.len() > 0,
    ensures
        stepped(st, lower_switch_s(st, s)),
    decreases s, 8nat,
{
    broadcast use group_grow;

    match s {
        Stmt::Switch { expr, body, .. } => {
            lemma_lower_expr(st, expr);
            let (st, (sv, _)) = lower_expr_s(st, expr);
            let (st, exit_bb) = alloc_block_s(st);
            match *body {
                Stmt::Block { stmts, .. } => {
                    lemma_alloc_blocks(st, stmts@.len());
                    let (st, bbs) = alloc_blocks_s(st, stmts@.len());
                    lemma_collect_cases(st, stmts@, bbs, stmts@.len());
                    let (st, acc) = collect_cases_s(st, stmts@, bbs, stmts@.len());
                    let default_target = match acc.default { Some(d) => d, None => exit_bb };
                    let st = terminate_s(st, TermV::Switch(sv, default_target, acc.cases));
                    let st = enter_s(st, CtrlCtx::Switch { break_bb: exit_bb });
                    lemma_lower_arms(st, stmts@, bbs, exit_bb, stmts@.len());
                },
                other => {
                    let (st, bb) = alloc_block_s(st);
                    lemma_peel_case_labels(st, *body, bb, 0, 0, no_cases());
                    let (st, acc) = peel_case_labels_s(st, *body, bb, 0, 0, no_cases());
                    let default_target = match acc.default { Some(d) => d, None => exit_bb };
                    let st = terminate_s(st, TermV::Switch(sv, default_target, acc.cases));
                    let st = enter_s(st, CtrlCtx::Switch { break_bb: exit_bb });
                    let st = set_cur_s(st, bb);
                    lemma_lower_inner(st, *body);
                },
            }
        },
        _ => {},
    }
}

proof fn lemma_fresh_cur(st: LwState)
    ensures
        spoke(st, fresh_cur_s(st)),
{
    broadcast use {group_grow, group_local};

    reveal(fresh_cur_s);
}

proof fn lemma_lower_break(st: LwState, span: Span)
    ensures
        spoke(st, lower_break_s(st, span)),
{
    broadcast use {group_grow, group_local};

    reveal(lower_break_s);
    let first = st;
    let st = match break_target(st.ctrl) {
        Some(bb) => {
            terminate_s(st, TermV::Br(bb))
        },
        None => {
            let st = err_s(st, ECode::TypeError, span, "'break' used outside of a loop or switch"@);
            terminate_s(st, TermV::Ret(None))
        },
    };
    assert(extends(first.diags, st.diags) && local(first.b, st.b));
    lemma_fresh_cur(st);
}

proof fn lemma_lower_continue(st: LwState, span: Span)
    ensures
        spoke(st, lower_continue_s(st, span)),
{
    broadcast use {group_grow, group_local};

    reveal(lower_continue_s);
    let first = st;
    let st = match continue_target(st.ctrl) {
        Some(bb) => {
            terminate_s(st, TermV::Br(bb))
        },
        None => {
            let st = err_s(st, ECode::TypeError, span, "'continue' used outside of a loop"@);
            terminate_s(st, TermV::Ret(None))
        },
    };
    assert(extends(first.diags, st.diags) && local(first.b, st.b));
    lemma_fresh_cur(st);
}

proof fn lemma_return_zero(st: LwState)
    ensures
        spoke(st, return_zero_s(st)),
{
    broadcast use {group_grow, group_local};

    reveal(return_zero_s);
    let fr = st.fn_ret;
    if !(fr.void()) {
        lemma_zero_of(st, fr);
    }
}

proof fn lemma_lower_return(st: LwState, expr: Option<Expr>, span: Span)
    ensures
        spoke(st, lower_return_s(st, expr, span)),
{
    broadcast use {group_grow, group_local};

    reveal(lower_return_s);
    let first = st;
    match expr {
        None => {},
        Some(x) => {
            lemma_lower_expr(st, x);
            let (st, (v, ty)) = lower_expr_s(st, x);
            if (ty is Unknown) {
                lemma_return_zero(st);
            } else {
                if aggregate(ty) {
                    let st = diag_unsupported_s(
                        st,
                        span,
                        "whole-aggregate return"@,
                        "returning a struct/union/array by value has no BIR representation"@,
                    );
                    assert(extends(first.diags, st.diags) && local(first.b, st.b));
                    lemma_return_zero(st);
                } else {
                    let fr = st.fn_ret;
                    lemma_coerce_to(st, v, ty, fr);
                }
            }
        },
    }
    let st = match expr {
        None => {
            terminate_s(st, TermV::Ret(None))
        },
        Some(x) => {
            let (st, (v, ty)) = lower_expr_s(st, x);
            if (ty is Unknown) {
                return_zero_s(st)
            } else if aggregate(ty) {
                let st = diag_unsupported_s(
                    st,
                    span,
                    "whole-aggregate return"@,
                    "returning a struct/union/array by value has no BIR representation"@,
                );
                return_zero_s(st)
            } else {
                let fr = st.fn_ret;
                let (st, coerced) = coerce_to_s(st, v, ty, fr);
                terminate_s(st, TermV::Ret(Some(coerced)))
            }
        },
    };
    assert(extends(first.diags, st.diags) && local(first.b, st.b));
    lemma_fresh_cur(st);
}

proof fn lemma_lower_label(st: LwState, name: Seq<char>)
    ensures
        moved(st, lower_label_s(st, name)),
{
    broadcast use group_grow;

    reveal(lower_label_s);
}

proof fn lemma_lower_goto(st: LwState, label: Seq<char>, span: Span)
    ensures
        moved(st, lower_goto_s(st, label, span)),
{
    broadcast use group_grow;

    reveal(lower_goto_s);
    let first = st;
    let found = if st.labels.contains_key(label) { Some(st.labels[label]) } else { None };
    let st = match found {
        Some(bb) => {
            terminate_s(st, TermV::Br(bb))
        },
        None => {
            let st = err_s(st, ECode::UndefinedSymbol, span, label);
            terminate_s(st, TermV::Ret(None))
        },
    };
    assert(extends(first.diags, st.diags));
    lemma_fresh_cur(st);
}

#[verifier::rlimit(60)]
proof fn lemma_lower_stmt(st: LwState, s: Stmt)
    requires
        st.locals.len() > 0,
    ensures
        stepped(st, lower_stmt_s(st, s)),
    decreases s, 9nat,
{
    broadcast use group_grow;

    match s {
        Stmt::Expr { expr, .. } => {
            lemma_lower_expr(st, expr);
        },
        Stmt::Empty { .. } => {},
        Stmt::Block { stmts, .. } => {
            let st = open_block_s(st);
            lemma_lower_stmts(st, stmts@, stmts@.len());
        },
        Stmt::Decl { decls, .. } => {
            lemma_lower_decls(st, decls@, decls@.len());
        },
        Stmt::If { .. } => {
            lemma_lower_if(st, s);
        },
        Stmt::While { .. } => {
            lemma_lower_while(st, s);
        },
        Stmt::DoWhile { .. } => {
            lemma_lower_do_while(st, s);
        },
        Stmt::For { .. } => {
            lemma_lower_for(st, s);
        },
        Stmt::Switch { .. } => {
            lemma_lower_switch(st, s);
        },
        Stmt::Case { stmt, .. } => {
            lemma_lower_stmt(st, *stmt);
        },
        Stmt::Default { stmt, .. } => {
            lemma_lower_stmt(st, *stmt);
        },
        Stmt::Break { span } => {
            lemma_lower_break(st, span);
        },
        Stmt::Continue { span } => {
            lemma_lower_continue(st, span);
        },
        Stmt::Return { expr, span } => {
            lemma_lower_return(st, expr, span);
        },
        Stmt::Label { name, stmt, .. } => {
            lemma_lower_label(st, name@);
            let st = lower_label_s(st, name@);
            lemma_lower_stmt(st, *stmt);
        },
        Stmt::Goto { label, span } => {
            lemma_lower_goto(st, label@, span);
        },
    }
}

proof fn lemma_resolve_fields(st: LwState, fs: Seq<FieldDecl>, n: nat)
    ensures
        spoke(st, resolve_fields_s(st, fs, n).0),
    decreases n,
{
    broadcast use {group_grow, group_local};

    if !(n == 0 || n > fs.len()) {
        lemma_resolve_fields(st, fs, (n - 1) as nat);
        let (st, v) = resolve_fields_s(st, fs, (n - 1) as nat);
        lemma_resolve_type(st, fs[n - 1].ty);
    }
}

proof fn lemma_lower_variants(st: LwState, vs: Seq<EnumVariant>, n: nat, ty: TyV)
    requires
        st.scopes.len() > 0,
    ensures
        grew(st, lower_variants_s(st, vs, n, ty).0),
    decreases n,
{
    broadcast use group_grow;

    if !(n == 0 || n > vs.len()) {
        lemma_lower_variants(st, vs, (n - 1) as nat, ty);
    }
}

proof fn lemma_lower_enum_decl(st: LwState, d: EnumDecl)
    requires
        st.scopes.len() > 0,
    ensures
        grew(st, lower_enum_decl_s(st, d)),
{
    broadcast use group_grow;

    reveal(lower_enum_decl_s);
    let first = st;
    let (st, enum_ty) = match d.name {
        Some(name) => {
            let st = LwState { scopes: with_enum(st.scopes, name@), ..st };
            (st, TyV::Enum(name@))
        },
        None => {
            (st, TyV::Scalar(ScalarKind::Int))
        },
    };
    assert(extends(first.diags, st.diags));
    lemma_lower_variants(st, d.variants@, d.variants@.len(), enum_ty);
}

proof fn lemma_lower_global_var(st: LwState, v: VarDecl)
    requires
        st.scopes.len() > 0,
    ensures
        grew(st, lower_global_var_s(st, v)),
{
    broadcast use group_grow;

    reveal(lower_global_var_s);
    lemma_resolve_type(st, v.ty);
}

proof fn lemma_resolve_params(st: LwState, ps: Seq<ParamDecl>, n: nat)
    ensures
        spoke(st, resolve_params_s(st, ps, n).0),
    decreases n,
{
    broadcast use {group_grow, group_local};

    if !(n == 0 || n > ps.len()) {
        lemma_resolve_params(st, ps, (n - 1) as nat);
        let (st, v) = resolve_params_s(st, ps, (n - 1) as nat);
        lemma_resolve_type(st, ps[n - 1].ty);
    }
}

proof fn lemma_alloc_labels(st: LwState, n: nat, names: Seq<Seq<char>>)
    ensures
        spoke(st, alloc_labels_s(st, n, names)),
    decreases n,
{
    broadcast use {group_grow, group_local};

    if n > 0 && n <= names.len() {
        lemma_alloc_labels(st, (n - 1) as nat, names);
    }
}

proof fn lemma_lower_params(st: LwState, ps: Seq<ParamDecl>, tys: Seq<TyV>, n: nat)
    requires
        st.locals.len() > 0,
    ensures
        stepped(st, lower_params_s(st, ps, tys, n)),
    decreases n,
{
    broadcast use group_grow;

    if n > 0 && n <= ps.len() {
        lemma_lower_params(st, ps, tys, (n - 1) as nat);
        let st = lower_params_s(st, ps, tys, (n - 1) as nat);
        if n <= tys.len() {
            match ps[n - 1].name {
                Some(name) => {
                    let pty = tys[n - 1];
                    let (st, slot) = new_slot_s(st, pty, AddrSpace::Param);
                    let st = bind_local_s(st, name@, slot);
                    if !aggregate(pty) && !(pty is Unknown) {
                        lemma_slot_lvalue(st, slot);
                        let (st, lv) = slot_lvalue_s(st, slot);
                        lemma_store_addr(st, lv, ValRef::Param(low_u32(n - 1)));
                    }
                },
                None => {},
            }
        }
    }
}

proof fn lemma_close_fallthrough(st: LwState)
    ensures
        spoke(st, close_fallthrough_s(st)),
{
    broadcast use {group_grow, group_local};

    reveal(close_fallthrough_s);
    let fr = st.fn_ret;
    if !(fr.void()) {
        if !(aggregate(fr)) {
            lemma_zero_of(st, fr);
        }
    }
}

proof fn lemma_lower_function_body(
    st: LwState,
    f: FunctionDecl,
    ret: TyV,
    param_tys: Seq<TyV>,
    body: Seq<Stmt>,
)
    requires
        st.scopes.len() > 0,
    ensures
        grew(st, lower_function_body_s(st, f, ret, param_tys, body)),
{
    broadcast use group_grow;

    reveal(lower_function_body_s);
    let st = LwState {
        b: empty_build(),
        locals: Seq::empty(),
        next_slot: 0,
        ctrl: Seq::empty(),
        labels: Map::empty(),
        fn_ret: ret,
        ..st
    };
    let st = open_block_s(st);
    let (st, entry) = alloc_block_s(st);
    let st = set_cur_s(st, entry);
    lemma_alloc_labels(st, labels_of(body).len(), labels_of(body));
    let st = alloc_labels_s(st, labels_of(body).len(), labels_of(body));
    lemma_lower_params(st, f.params@, param_tys, f.params@.len());
    let st = lower_params_s(st, f.params@, param_tys, f.params@.len());
    lemma_lower_stmts(st, body, body.len());
    let st = lower_stmts_s(st, body, body.len());
    lemma_close_fallthrough(st);
}

proof fn lemma_lower_function_item(st: LwState, f: FunctionDecl)
    requires
        st.scopes.len() > 0,
    ensures
        grew(st, lower_function_item_s(st, f)),
{
    broadcast use group_grow;

    reveal(lower_function_item_s);
    lemma_resolve_type(st, f.ret);
    let (st, ret) = resolve_type_s(st, f.ret);
    lemma_resolve_params(st, f.params@, f.params@.len());
    let (st, param_tys) = resolve_params_s(st, f.params@, f.params@.len());
    let st = LwState {
        scopes: with_value(
            st.scopes,
            f.name@,
            ValueSymV::Func(FuncSigV {
                ret,
                params: param_tys,
                variadic: f.variadic,
                is_kernel: f.cuda_quals.is_global,
            }),
        ),
        ..st
    };
    match f.body {
        Some(body) => {
            lemma_lower_function_body(st, f, ret, param_tys, body@);
        },
        None => {},
    }
}

proof fn lemma_lower_items(st: LwState, items: Seq<Item>, n: nat)
    requires
        st.scopes.len() > 0,
    ensures
        grew(st, lower_items_s(st, items, n)),
    decreases items, n,
{
    broadcast use group_grow;

    if n > 0 && n <= items.len() {
        lemma_lower_items(st, items, (n - 1) as nat);
        lemma_lower_item(lower_items_s(st, items, (n - 1) as nat), items[n - 1]);
    }
}

proof fn lemma_lower_item(st: LwState, item: Item)
    requires
        st.scopes.len() > 0,
    ensures
        grew(st, lower_item_s(st, item)),
    decreases item, 9nat,
{
    broadcast use group_grow;

    match item {
        Item::Struct(d) => {
            lemma_resolve_fields(st, d.fields@, d.fields@.len());
        },
        Item::Union(d) => {
            lemma_resolve_fields(st, d.fields@, d.fields@.len());
        },
        Item::Enum(d) => {
            lemma_lower_enum_decl(st, d);
        },
        Item::Typedef(d) => {
            lemma_resolve_type(st, d.ty);
        },
        Item::Namespace(ns) => {
            let st = LwState { scopes: st.scopes.push(empty_scope()), ..st };
            lemma_lower_items(st, ns.items@, ns.items@.len());
        },
        Item::Function(f) => {
            lemma_lower_function_item(st, f);
        },
        Item::Var(v) => {
            lemma_lower_global_var(st, v);
        },
        Item::Template(_) => {},
    }
}

/// The steps of a function body add no function.
pub proof fn lemma_labels_keep(st: LwState, n: nat, names: Seq<Seq<char>>)
    ensures
        alloc_labels_s(st, n, names).funcs == st.funcs,
        alloc_labels_s(st, n, names).locals == st.locals,
{
    lemma_alloc_labels(st, n, names);
}

pub proof fn lemma_params_keep(st: LwState, ps: Seq<ParamDecl>, tys: Seq<TyV>, n: nat)
    requires
        st.locals.len() > 0,
    ensures
        stepped(st, lower_params_s(st, ps, tys, n)),
        lower_params_s(st, ps, tys, n).locals.len() == st.locals.len(),
{
    broadcast use group_grow;

    lemma_lower_params(st, ps, tys, n);
}

pub proof fn lemma_stmts_keep(st: LwState, ss: Seq<Stmt>, n: nat)
    requires
        st.locals.len() > 0,
    ensures
        stepped(st, lower_stmts_s(st, ss, n)),
{
    lemma_lower_stmts(st, ss, n);
}

pub proof fn lemma_fallthrough_keeps(st: LwState)
    ensures
        close_fallthrough_s(st).funcs == st.funcs,
{
    lemma_close_fallthrough(st);
}

// ---- laws ----------------------------------------------------------------------------------

/// An expression declares nothing, opens and closes nothing, and adds no function; what was
/// reported before stays. Its code is in the current block and in new ones.
pub proof fn law_expression_stays_inside(st: LwState, e: Expr)
    ensures
        spoke(st, lower_expr_s(st, e).0),
{
    lemma_lower_expr(st, e);
}

/// A statement leaves the cells of the outer blocks as they were, and the loops and switches that
/// are open.
pub proof fn law_statement_closes_what_it_opens(st: LwState, s: Stmt)
    requires
        st.locals.len() > 0,
    ensures
        stepped(st, lower_stmt_s(st, s)),
{
    lemma_lower_stmt(st, s);
}

/// The cells of two locals lie apart by at least the spacing between cells.
pub proof fn law_cells_are_apart(i: u32, j: u32)
    requires
        i < j,
    ensures
        slot_address(i) + SLOT_STRIDE <= slot_address(j),
{
}

/// A new cell is none of those before it.
pub proof fn law_new_cell_is_new(st: LwState, ty: TyV, space: AddrSpace)
    requires
        st.next_slot < u32::MAX,
    ensures
        new_slot_s(st, ty, space).1.slot == st.next_slot,
        new_slot_s(st, ty, space).0.next_slot == st.next_slot + 1,
{
}

proof fn lemma_first_items(st: LwState, a: Seq<Item>, b: Seq<Item>, n: nat)
    requires
        n <= a.len() <= b.len(),
        b.take(a.len() as int) == a,
    ensures
        lower_items_s(st, a, n) == lower_items_s(st, b, n),
    decreases n,
{
    if n > 0 {
        lemma_first_items(st, a, b, (n - 1) as nat);
        assert(b.take(a.len() as int)[n - 1] == b[n - 1]);
    }
}

proof fn lemma_items_go_on(st: LwState, items: Seq<Item>, k: nat, n: nat)
    requires
        st.scopes.len() > 0,
        k <= n <= items.len(),
    ensures
        grew(lower_items_s(st, items, k), lower_items_s(st, items, n)),
    decreases n,
{
    broadcast use group_grow;

    lemma_lower_items(st, items, n);
    if k < n {
        lemma_items_go_on(st, items, k, (n - 1) as nat);
        lemma_lower_items(st, items, (n - 1) as nat);
        lemma_lower_item(lower_items_s(st, items, (n - 1) as nat), items[n - 1]);
    }
}

/// What comes later in a unit changes no function that comes before it: where a unit goes on from
/// another, so do its functions and its diagnostics.
pub proof fn law_functions_go_on(a: TranslationUnit, b: TranslationUnit)
    requires
        a.items@.len() <= b.items@.len(),
        b.items@.take(a.items@.len() as int) == a.items@,
    ensures
        extends(lowered(a).0.funcs, lowered(b).0.funcs),
        extends(lowered(a).1, lowered(b).1),
{
    broadcast use group_grow;

    lemma_first_items(start_state(), a.items@, b.items@, a.items@.len());
    lemma_items_go_on(start_state(), b.items@, a.items@.len(), b.items@.len());
}

} // verus!
