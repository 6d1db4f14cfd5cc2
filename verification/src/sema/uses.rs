//! That what a lowered function uses has been made: its operands are parameters and instructions
//! made before, and its branches go to blocks that there are.

use vstd::prelude::*;

use crate::bir::{
    float_one, AddrSpace, AtomicOp, BinOp as BBin, Block, BlockId, Function, FunctionV, OpV, Scalar,
    ShuffleKind, TermV, Ty as BTy, ValRef,
};
use crate::bits::{low_i64, low_u32};
use crate::diag::{ECode, Span};
use crate::sema::builder::{built, empty_build};
use crate::sema::c_ast::{
    expr_span, AssignOp, BinOp, EnumDecl, EnumVariant, Expr, FieldDecl, FunctionDecl, IncDecOp,
    Item, ParamDecl, ScalarKind, Stmt, TagKind, TranslationUnit, Type, UnaryOp, VarDecl,
};
use crate::sema::checker::{binop_of, dim3_name, lvalue};
use crate::sema::grow::group_grow;
use crate::sema::labels::labels_of;
use crate::sema::lower::{
    aggregate, alloc_block_s, alloc_blocks_s, alloc_labels_s, any_aggregate, any_unknown,
    atomic_kind, bind_local_s, bir_ty, break_target, callee_of, close_fallthrough_s, coerce_to_s,
    collect_cases_s, condition_s, const_value, continue_target, devptr_value_s,
    diag_for_unresolved_name_s, diag_unsupported_s, dim3_extent, enter_s, err_s, field_offset_s,
    field_place_s, finish_call_s, fresh_cur_s, index_base_s, index_op, join_branches_s, leave_s,
    load_addr_s, load_dim3_field_s, local_in, lower_add_s, lower_arith_s, lower_arms_s,
    lower_assign_s, lower_atomic_cas_call_s, lower_atomic_rmw_call_s, lower_binary_s, lower_break_s,
    lower_builtin_call_s, lower_call_args_s, lower_call_s, lower_cast_s, lower_comma_s,
    lower_compare_s, lower_continue_s, lower_cuda_device_synchronize_call_s, lower_cuda_free_call_s,
    lower_cuda_malloc_call_s, lower_cuda_malloc_devptr_s, lower_cuda_memcpy_call_s, lower_decls_s,
    lower_do_while_s, lower_enum_decl_s, lower_expr_s, lower_for_s, lower_function_body_s,
    lower_function_item_s, lower_global_var_s, lower_goto_s, lower_ident_value_s, lower_if_s,
    lower_incdec_s, lower_index_lvalue_s, lower_inner_s, lower_item_s, lower_items_s,
    lower_kernel_launch_s, lower_label_s, lower_launch_config_dim_s, lower_logical_s,
    lower_lvalue_s, lower_member_lvalue_s, lower_params_s, lower_ptr_offset_s, lower_return_s,
    lower_shared_s, lower_shuffle_call_s, lower_stmt_s, lower_stmts_s, lower_stream_s, lower_sub_s,
    lower_switch_s, lower_syncthreads_call_s, lower_ternary_s, lower_unary_s, lower_var_decl_s,
    lower_variants_s, lower_vote_call_s, lower_while_s, lowered, lvalue_unknown_s, member_base_s,
    names_place, new_slot_s, no_cases, not_addressable, open_block_s, operand_type_s,
    peel_case_labels_s, peels_to_address, placeholder_s, push_s, push_void_s, refs_of,
    resolve_fields_s, resolve_named_s, resolve_params_s, resolve_tag_s, resolve_type_s,
    return_zero_s, set_cur_s, shuffle_kind, size_constant_s, size_s, slot_addr_s, slot_lvalue_s,
    start_state, store_addr_s, terminate_s, truthy_s, value_of_lvalue_s, vote_kind,
    widen_index_i64_s, zero_of_s, CasesV, CtrlCtx, LValueV, LwState, SlotV, Vote, MINUS_ONE,
};
use crate::sema::lowered::{
    lemma_fallthrough_keeps, lemma_labels_keep, lemma_params_keep, lemma_stmts_keep,
};
use crate::sema::scope::{empty_scope, with_enum, with_value, FuncSigV, ValueSymV};
use crate::sema::sound::{
    all_made, blocks_in, cases_in, from_sound, group_sound, joined_up, law_sound_is_joined_up,
    lemma_sound_start, made, sound,
};
use crate::sema::ty::{fits, promoted, TyV};

verus! {

pub open spec fn pairs_made(np: nat, n: nat, vals: Seq<(ValRef, TyV)>) -> bool {
    forall|i: int| 0 <= i < vals.len() ==> made(np, n, (#[trigger] vals[i]).0)
}

pub open spec fn cases_within(nb: nat, c: CasesV) -> bool {
    cases_in(nb, c.cases) && (c.default matches Some(d) ==> d.0 < nb)
}

pub open spec fn ctrl_in(nb: nat, ctrl: Seq<CtrlCtx>) -> bool {
    forall|i: int|
        0 <= i < ctrl.len() ==> match #[trigger] ctrl[i] {
            CtrlCtx::Loop { break_bb, continue_bb } => break_bb.0 < nb && continue_bb.0 < nb,
            CtrlCtx::Switch { break_bb } => break_bb.0 < nb,
        }
}

pub open spec fn labels_in(nb: nat, labels: Map<Seq<char>, BlockId>) -> bool {
    forall|s: Seq<char>| labels.contains_key(s) ==> (#[trigger] labels[s]).0 < nb
}

/// Whether the function that is being lowered is sound, and its loops, switches and labels are
/// blocks of it.
pub open spec fn fit(np: nat, st: LwState) -> bool {
    &&& sound(np, st.b)
    &&& ctrl_in(st.b.blocks.len(), st.ctrl)
    &&& labels_in(st.b.blocks.len(), st.labels)
}

/// Whether what was made is still there, in a sound function.
pub open spec fn going(np: nat, a: LwState, b: LwState) -> bool {
    &&& sound(np, b.b)
    &&& a.b.insts.len() <= b.b.insts.len()
    &&& a.b.blocks.len() <= b.b.blocks.len()
}

pub open spec fn used(np: nat, a: LwState, b: LwState) -> bool {
    &&& going(np, a, b)
    &&& b.ctrl == a.ctrl
    &&& b.labels == a.labels
}

pub open spec fn walked_on(np: nat, a: LwState, b: LwState) -> bool {
    &&& used(np, a, b)
    &&& fit(np, b)
}

/// Whether no code was made.
pub open spec fn still(a: LwState, b: LwState) -> bool {
    &&& b.b == a.b
    &&& b.ctrl == a.ctrl
    &&& b.labels == a.labels
    &&& b.funcs == a.funcs
}

proof fn lemma_continue_target(nb: nat, ctrl: Seq<CtrlCtx>)
    requires
        ctrl_in(nb, ctrl),
    ensures
        continue_target(ctrl) matches Some(b) ==> b.0 < nb,
    decreases ctrl.len(),
{
    if ctrl.len() > 0 {
        lemma_continue_target(nb, ctrl.drop_last());
    }
}

// ---- every step ----------------------------------------------------------------------------

proof fn lemma_zero_of(np: nat, st: LwState, ty: TyV)
    requires
        sound(np, st.b),
    ensures
        ({
            let r = zero_of_s(st, ty);
            &&& used(np, st, r.0)
            &&& made(np, r.0.b.insts.len(), r.1)
        }),
{
    broadcast use {group_grow, group_sound};

    reveal(zero_of_s);
}

proof fn lemma_placeholder(np: nat, st: LwState)
    requires
        sound(np, st.b),
    ensures
        ({
            let r = placeholder_s(st);
            &&& used(np, st, r.0)
            &&& made(np, r.0.b.insts.len(), r.1.0)
        }),
{
    broadcast use {group_grow, group_sound};

    reveal(placeholder_s);
}

proof fn lemma_slot_addr(np: nat, st: LwState, s: SlotV)
    requires
        sound(np, st.b),
    ensures
        ({
            let r = slot_addr_s(st, s);
            &&& used(np, st, r.0)
            &&& made(np, r.0.b.insts.len(), r.1)
        }),
{
    broadcast use {group_grow, group_sound};

    reveal(slot_addr_s);
}

proof fn lemma_slot_lvalue(np: nat, st: LwState, s: SlotV)
    requires
        sound(np, st.b),
    ensures
        ({
            let r = slot_lvalue_s(st, s);
            &&& used(np, st, r.0)
            &&& made(np, r.0.b.insts.len(), r.1.addr)
        }),
{
    broadcast use {group_grow, group_sound};

    reveal(slot_lvalue_s);
    lemma_slot_addr(np, st, s);
}

proof fn lemma_lvalue_unknown(np: nat, st: LwState)
    requires
        sound(np, st.b),
    ensures
        ({
            let r = lvalue_unknown_s(st);
            &&& used(np, st, r.0)
            &&& made(np, r.0.b.insts.len(), r.1.addr)
        }),
{
    broadcast use {group_grow, group_sound};

    reveal(lvalue_unknown_s);
}

proof fn lemma_load_addr(np: nat, st: LwState, lv: LValueV)
    requires
        sound(np, st.b),
        made(np, st.b.insts.len(), lv.addr),
    ensures
        ({
            let r = load_addr_s(st, lv);
            &&& used(np, st, r.0)
            &&& made(np, r.0.b.insts.len(), r.1.0)
        }),
{
    broadcast use {group_grow, group_sound};

    reveal(load_addr_s);
}

proof fn lemma_store_addr(np: nat, st: LwState, lv: LValueV, val: ValRef)
    requires
        sound(np, st.b),
        made(np, st.b.insts.len(), lv.addr),
        made(np, st.b.insts.len(), val),
    ensures
        used(np, st, store_addr_s(st, lv, val)),
{
    broadcast use {group_grow, group_sound};

    reveal(store_addr_s);
}

proof fn lemma_coerce_to(np: nat, st: LwState, v: ValRef, from: TyV, to: TyV)
    requires
        sound(np, st.b),
        made(np, st.b.insts.len(), v),
    ensures
        ({
            let r = coerce_to_s(st, v, from, to);
            &&& used(np, st, r.0)
            &&& made(np, r.0.b.insts.len(), r.1)
        }),
{
    broadcast use {group_grow, group_sound};

    reveal(coerce_to_s);
}

proof fn lemma_widen_index_i64(np: nat, st: LwState, v: ValRef, ty: TyV)
    requires
        sound(np, st.b),
        made(np, st.b.insts.len(), v),
    ensures
        ({
            let r = widen_index_i64_s(st, v, ty);
            &&& used(np, st, r.0)
            &&& made(np, r.0.b.insts.len(), r.1)
        }),
{
    broadcast use {group_grow, group_sound};

    reveal(widen_index_i64_s);
    match bir_ty(ty) {
        BTy::Scalar(Scalar::I64) => {},
        BTy::Scalar(_) => {
            lemma_coerce_to(np, st, v, ty, TyV::Scalar(ScalarKind::Long));
        },
        _ => {},
    }
}

proof fn lemma_truthy(np: nat, st: LwState, v: ValRef, ty: TyV)
    requires
        sound(np, st.b),
        made(np, st.b.insts.len(), v),
    ensures
        ({
            let r = truthy_s(st, v, ty);
            &&& used(np, st, r.0)
            &&& made(np, r.0.b.insts.len(), r.1)
        }),
{
    broadcast use {group_grow, group_sound};

    reveal(truthy_s);
}

proof fn lemma_condition(np: nat, st: LwState, e: Expr)
    requires
        sound(np, st.b),
    ensures
        ({
            let r = condition_s(st, e);
            &&& used(np, st, r.0)
            &&& made(np, r.0.b.insts.len(), r.1)
        }),
    decreases e, 10nat,
{
    broadcast use {group_grow, group_sound};

    let first = st;
    lemma_lower_expr(np, st, e);
    let (st, (cv, cty)) = lower_expr_s(st, e);
    assert(going(np, first, st));
    if !((cty is Unknown)) {
        lemma_truthy(np, st, cv, cty);
    }
}

proof fn lemma_resolve_tag(st: LwState, kind: TagKind, name: Seq<char>, span: Span)
    ensures
        still(st, resolve_tag_s(st, kind, name, span).0),
{
    reveal(resolve_tag_s);
}

proof fn lemma_resolve_named(st: LwState, name: Seq<char>, span: Span)
    ensures
        still(st, resolve_named_s(st, name, span).0),
{
    reveal(resolve_named_s);
}

proof fn lemma_resolve_type(st: LwState, ty: Type)
    ensures
        still(st, resolve_type_s(st, ty).0),
    decreases ty,
{
    match ty {
        Type::Scalar { kind, .. } => {},
        Type::Tag { kind, name, span, .. } => {
            lemma_resolve_tag(st, kind, name@, span);
        },
        Type::Named { name, span, .. } => {
            lemma_resolve_named(st, name@, span);
        },
        Type::Pointer { pointee, .. } => {
            lemma_resolve_type(st, *pointee);
        },
        Type::Array { elem, .. } => {
            lemma_resolve_type(st, *elem);
        },
        Type::Instantiated { .. } => {},
    }
}

proof fn lemma_diag_for_unresolved_name(st: LwState, name: Seq<char>, span: Span)
    ensures
        still(st, diag_for_unresolved_name_s(st, name, span)),
{
    reveal(diag_for_unresolved_name_s);
}

proof fn lemma_value_of_lvalue(np: nat, st: LwState, lv: LValueV, span: Span)
    requires
        sound(np, st.b),
        made(np, st.b.insts.len(), lv.addr),
    ensures
        ({
            let r = value_of_lvalue_s(st, lv, span);
            &&& used(np, st, r.0)
            &&& made(np, r.0.b.insts.len(), r.1.0)
        }),
{
    broadcast use {group_grow, group_sound};

    reveal(value_of_lvalue_s);
    let first = st;
    if (lv.ty is Unknown) {
        lemma_placeholder(np, st);
    } else {
        if aggregate(lv.ty) {
            match lv.ty {
                TyV::Array(elem) => {},
                _ => {
                    let st = diag_unsupported_s(
                        st,
                        span,
                        "whole-aggregate value"@,
                        "struct/union used by value (no BIR aggregate type)"@,
                    );
                    assert(going(np, first, st));
                    lemma_placeholder(np, st);
                },
            }
        } else {
            lemma_load_addr(np, st, lv);
        }
    }
}

proof fn lemma_lower_ident_value(np: nat, st: LwState, name: Seq<char>, span: Span)
    requires
        sound(np, st.b),
    ensures
        ({
            let r = lower_ident_value_s(st, name, span);
            &&& used(np, st, r.0)
            &&& made(np, r.0.b.insts.len(), r.1.0)
        }),
{
    broadcast use {group_grow, group_sound};

    reveal(lower_ident_value_s);
    let first = st;
    match local_in(st.locals, name) {
        Some(slot) => {
            if (slot.ty is Unknown) {
                lemma_placeholder(np, st);
            } else {
                lemma_slot_lvalue(np, st, slot);
                let (st, lv) = slot_lvalue_s(st, slot);
                assert(going(np, first, st));
                lemma_value_of_lvalue(np, st, lv, span);
            }
        },
        None => {
            if dim3_name(name) {
                let st = diag_unsupported_s(st, span, "GPU intrinsic"@, name);
                assert(going(np, first, st));
                lemma_placeholder(np, st);
            } else {
                let found = if st.enums.contains_key(name) { Some(st.enums[name]) } else { None };
                match found {
                    Some(n) => {},
                    None => {
                        lemma_diag_for_unresolved_name(st, name, span);
                        let st = diag_for_unresolved_name_s(st, name, span);
                        assert(going(np, first, st));
                        lemma_placeholder(np, st);
                    },
                }
            }
        },
    }
}

proof fn lemma_lower_lvalue(np: nat, st: LwState, e: Expr)
    requires
        sound(np, st.b),
    ensures
        ({
            let r = lower_lvalue_s(st, e);
            &&& used(np, st, r.0)
            &&& made(np, r.0.b.insts.len(), r.1.addr)
        }),
    decreases e, 8nat,
{
    broadcast use {group_grow, group_sound};

    let first = st;
    match e {
        Expr::Ident { name, span } => {
            match local_in(st.locals, name@) {
                Some(slot) => {
                    lemma_slot_lvalue(np, st, slot);
                },
                None => {
                    if !(dim3_name(name@)) {
                        if !(st.enums.contains_key(name@)) {
                            lemma_diag_for_unresolved_name(st, name@, span);
                        }
                    }
                    let st = if dim3_name(name@) {
                        diag_unsupported_s(st, span, "GPU intrinsic"@, name@)
                    } else if st.enums.contains_key(name@) {
                        err_s(st, ECode::TypeError, span, not_addressable(name@))
                    } else {
                        diag_for_unresolved_name_s(st, name@, span)
                    };
                    assert(going(np, first, st));
                    lemma_lvalue_unknown(np, st);
                },
            }
        },
        Expr::Unary { op, expr, span } => {
            if op == UnaryOp::Deref {
                lemma_lower_expr(np, st, *expr);
                let (st, (v, ty)) = lower_expr_s(st, *expr);
                assert(going(np, first, st));
                if (ty is Unknown) {
                    lemma_lvalue_unknown(np, st);
                } else {
                    match ty.target() {
                        Some(target) => {},
                        None => {
                            let st = diag_unsupported_s(
                                st,
                                span,
                                "dereference"@,
                                "operand is not a pointer"@,
                            );
                            assert(going(np, first, st));
                            lemma_lvalue_unknown(np, st);
                        },
                    }
                }
            } else {
                let st = err_s(st, ECode::TypeError, span, "expression is not addressable"@);
                assert(going(np, first, st));
                lemma_lvalue_unknown(np, st);
            }
        },
        Expr::Index { .. } => {
            lemma_lower_index_lvalue(np, st, e);
        },
        Expr::Member { .. } => {
            lemma_lower_member_lvalue(np, st, e);
        },
        _ => {
            let st = err_s(st, ECode::TypeError, expr_span(e), "expression is not addressable"@);
            assert(going(np, first, st));
            lemma_lvalue_unknown(np, st);
        },
    }
}

proof fn lemma_index_base(np: nat, st: LwState, base: Expr, span: Span)
    requires
        sound(np, st.b),
    ensures
        ({
            let r = index_base_s(st, base, span);
            &&& used(np, st, r.0)
            &&& r.1 matches Some(x) ==> made(np, r.0.b.insts.len(), x.addr)
        }),
    decreases base, 10nat,
{
    broadcast use {group_grow, group_sound};

    let first = st;
    if lvalue(base) {
        lemma_lower_lvalue(np, st, base);
        let (st, lv) = lower_lvalue_s(st, base);
        assert(going(np, first, st));
        if !((lv.ty is Unknown)) {
            match lv.ty.target() {
                Some(elem) => {
                    if (lv.ty is Pointer) {
                        lemma_load_addr(np, st, lv);
                    }
                },
                None => {},
            }
        }
    } else {
        lemma_lower_expr(np, st, base);
    }
}

proof fn lemma_lower_index_lvalue(np: nat, st: LwState, e: Expr)
    requires
        sound(np, st.b),
    ensures
        ({
            let r = lower_index_lvalue_s(st, e);
            &&& used(np, st, r.0)
            &&& made(np, r.0.b.insts.len(), r.1.addr)
        }),
    decreases e, 7nat,
{
    broadcast use {group_grow, group_sound};

    let first = st;
    match e {
        Expr::Index { base, index, span } => {
            lemma_lower_expr(np, st, *index);
            let (st, (idx_val, idx_ty)) = lower_expr_s(st, *index);
            assert(going(np, first, st));
            if (idx_ty is Unknown) {
                lemma_lvalue_unknown(np, st);
            } else {
                lemma_index_base(np, st, *base, span);
                let (st, found) = index_base_s(st, *base, span);
                assert(going(np, first, st));
                match found {
                    None => {
                        lemma_lvalue_unknown(np, st);
                    },
                    Some(b) => {
                        let esz = low_i64(size_s(st, b.ty) as int);
                        lemma_widen_index_i64(np, st, idx_val, idx_ty);
                    },
                }
            }
        },
        _ => {
            lemma_lvalue_unknown(np, st);
        },
    }
}

proof fn lemma_member_base(np: nat, st: LwState, base: Expr, arrow: bool, span: Span)
    requires
        sound(np, st.b),
    ensures
        ({
            let r = member_base_s(st, base, arrow, span);
            &&& used(np, st, r.0)
            &&& r.1 matches Some(x) ==> made(np, r.0.b.insts.len(), x.addr)
        }),
    decreases base, 10nat,
{
    broadcast use {group_grow, group_sound};

    if arrow {
        lemma_lower_expr(np, st, base);
    } else {
        lemma_lower_lvalue(np, st, base);
    }
}

proof fn lemma_field_place(np: nat, st: LwState, base: LValueV, off: u64, fty: TyV)
    requires
        sound(np, st.b),
        made(np, st.b.insts.len(), base.addr),
    ensures
        ({
            let r = field_place_s(st, base, off, fty);
            &&& used(np, st, r.0)
            &&& made(np, r.0.b.insts.len(), r.1.addr)
        }),
{
    broadcast use {group_grow, group_sound};

    reveal(field_place_s);
}

proof fn lemma_lower_member_lvalue(np: nat, st: LwState, e: Expr)
    requires
        sound(np, st.b),
    ensures
        ({
            let r = lower_member_lvalue_s(st, e);
            &&& used(np, st, r.0)
            &&& made(np, r.0.b.insts.len(), r.1.addr)
        }),
    decreases e, 7nat,
{
    broadcast use {group_grow, group_sound};

    let first = st;
    match e {
        Expr::Member { base, name, arrow, span } => {
            lemma_member_base(np, st, *base, arrow, span);
            let (st, found) = member_base_s(st, *base, arrow, span);
            assert(going(np, first, st));
            match found {
                None => {
                    lemma_lvalue_unknown(np, st);
                },
                Some(b) => {
                    if !(b.ty is Struct || b.ty is Union) {
                        let st = diag_unsupported_s(
                            st,
                            span,
                            "member access"@,
                            "base is not a struct/union"@,
                        );
                        assert(going(np, first, st));
                        lemma_lvalue_unknown(np, st);
                    } else {
                        match field_offset_s(st, b.ty, name@) {
                            Some((off, fty)) => {
                                lemma_field_place(np, st, b, off, fty);
                            },
                            None => {
                                let st = diag_unsupported_s(
                                    st,
                                    span,
                                    "member access"@,
                                    "unknown field '"@ + name@ + "'"@,
                                );
                                assert(going(np, first, st));
                                lemma_lvalue_unknown(np, st);
                            },
                        }
                    }
                },
            }
        },
        _ => {
            lemma_lvalue_unknown(np, st);
        },
    }
}

proof fn lemma_lower_cast(np: nat, st: LwState, e: Expr)
    requires
        sound(np, st.b),
    ensures
        ({
            let r = lower_cast_s(st, e);
            &&& used(np, st, r.0)
            &&& made(np, r.0.b.insts.len(), r.1.0)
        }),
    decreases e, 8nat,
{
    broadcast use {group_grow, group_sound};

    let first = st;
    match e {
        Expr::Cast { ty, expr, span } => {
            lemma_resolve_type(st, ty);
            let (st, target) = resolve_type_s(st, ty);
            assert(going(np, first, st));
            lemma_lower_expr(np, st, *expr);
            let (st, (v, src)) = lower_expr_s(st, *expr);
            assert(going(np, first, st));
            if (src is Unknown) || (target is Unknown) {
                lemma_placeholder(np, st);
            } else {
                if aggregate(target) || aggregate(src) {
                    let st = diag_unsupported_s(
                        st,
                        span,
                        "cast involving a struct/union/array"@,
                        "no BIR aggregate type"@,
                    );
                    assert(going(np, first, st));
                    lemma_placeholder(np, st);
                } else {
                    lemma_coerce_to(np, st, v, src, target);
                }
            }
        },
        _ => {
            lemma_placeholder(np, st);
        },
    }
}

proof fn lemma_lower_unary(np: nat, st: LwState, op: UnaryOp, expr: Expr)
    requires
        sound(np, st.b),
    ensures
        ({
            let r = lower_unary_s(st, op, expr);
            &&& used(np, st, r.0)
            &&& made(np, r.0.b.insts.len(), r.1.0)
        }),
    decreases expr, 10nat,
{
    broadcast use {group_grow, group_sound};

    let first = st;
    lemma_lower_expr(np, st, expr);
    let (st, (v, ty)) = lower_expr_s(st, expr);
    assert(going(np, first, st));
    if (ty is Unknown) {
        lemma_placeholder(np, st);
    } else {
        let bty = bir_ty(ty);
        match op {
            UnaryOp::Plus => {},
            UnaryOp::Neg => {},
            UnaryOp::BitNot => {},
            UnaryOp::Not => {},
            _ => {
                lemma_placeholder(np, st);
            },
        }
    }
}

proof fn lemma_lower_logical(np: nat, st: LwState, e: Expr)
    requires
        sound(np, st.b),
    ensures
        ({
            let r = lower_logical_s(st, e);
            &&& used(np, st, r.0)
            &&& made(np, r.0.b.insts.len(), r.1.0)
        }),
    decreases e, 7nat,
{
    broadcast use {group_grow, group_sound};

    let first = st;
    match e {
        Expr::Binary { op, lhs, rhs, .. } => {
            lemma_lower_expr(np, st, *lhs);
            let (st, (lv, lty)) = lower_expr_s(st, *lhs);
            assert(going(np, first, st));
            if (lty is Unknown) {
                lemma_placeholder(np, st);
            } else {
                lemma_truthy(np, st, lv, lty);
                let (st, lb) = truthy_s(st, lv, lty);
                assert(going(np, first, st));
                let is_and = op == BinOp::LogAnd;
                let short_const = if is_and { 0i64 } else { 1i64 };
                let (st, short_val) = push_s(
                    st,
                    BTy::Scalar(Scalar::I32),
                    OpV::ConstInt(short_const),
                );
                assert(going(np, first, st));
                let short_bb = st.b.cur;
                let (st, rhs_bb) = alloc_block_s(st);
                assert(going(np, first, st));
                let (st, merge_bb) = alloc_block_s(st);
                assert(going(np, first, st));
                let st = if is_and {
                    terminate_s(st, TermV::CondBr(lb, rhs_bb, merge_bb))
                } else {
                    terminate_s(st, TermV::CondBr(lb, merge_bb, rhs_bb))
                };
                assert(going(np, first, st));
                let st = set_cur_s(st, rhs_bb);
                assert(going(np, first, st));
                lemma_lower_expr(np, st, *rhs);
                let (st, (rv, rty)) = lower_expr_s(st, *rhs);
                assert(going(np, first, st));
                if !((rty is Unknown)) {
                    lemma_truthy(np, st, rv, rty);
                }
            }
        },
        _ => {
            lemma_placeholder(np, st);
        },
    }
}

proof fn lemma_lower_compare(
    np: nat,
    st: LwState,
    op: BinOp,
    lv: ValRef,
    lty: TyV,
    rv: ValRef,
    rty: TyV,
)
    requires
        sound(np, st.b),
        made(np, st.b.insts.len(), lv),
        made(np, st.b.insts.len(), rv),
    ensures
        ({
            let r = lower_compare_s(st, op, lv, lty, rv, rty);
            &&& used(np, st, r.0)
            &&& made(np, r.0.b.insts.len(), r.1.0)
        }),
{
    broadcast use {group_grow, group_sound};

    reveal(lower_compare_s);
    let first = st;
    if !(lty.pointer_like() || rty.pointer_like()) {
        let ct = promoted(lty, rty);
        let bty = bir_ty(ct);
        lemma_coerce_to(np, st, lv, lty, ct);
        let (st, l2) = coerce_to_s(st, lv, lty, ct);
        assert(going(np, first, st));
        lemma_coerce_to(np, st, rv, rty, ct);
    }
}

proof fn lemma_lower_arith(
    np: nat,
    st: LwState,
    op: BinOp,
    lv: ValRef,
    lty: TyV,
    rv: ValRef,
    rty: TyV,
)
    requires
        sound(np, st.b),
        made(np, st.b.insts.len(), lv),
        made(np, st.b.insts.len(), rv),
    ensures
        ({
            let r = lower_arith_s(st, op, lv, lty, rv, rty);
            &&& used(np, st, r.0)
            &&& made(np, r.0.b.insts.len(), r.1.0)
        }),
{
    broadcast use {group_grow, group_sound};

    reveal(lower_arith_s);
    let first = st;
    let result_ty = promoted(lty, rty);
    lemma_coerce_to(np, st, lv, lty, result_ty);
    let (st, l2) = coerce_to_s(st, lv, lty, result_ty);
    assert(going(np, first, st));
    lemma_coerce_to(np, st, rv, rty, result_ty);
}

proof fn lemma_lower_ptr_offset(np: nat, st: LwState, pv: ValRef, pty: TyV, iv: ValRef, ity: TyV)
    requires
        sound(np, st.b),
        made(np, st.b.insts.len(), pv),
        made(np, st.b.insts.len(), iv),
    ensures
        ({
            let r = lower_ptr_offset_s(st, pv, pty, iv, ity);
            &&& used(np, st, r.0)
            &&& made(np, r.0.b.insts.len(), r.1.0)
        }),
{
    broadcast use {group_grow, group_sound};

    reveal(lower_ptr_offset_s);
    match pty.target() {
        None => {
            lemma_placeholder(np, st);
        },
        Some(elem) => {
            if (elem is Unknown) {
                lemma_placeholder(np, st);
            } else {
                let esz = low_i64(size_s(st, elem) as int);
                lemma_widen_index_i64(np, st, iv, ity);
            }
        },
    }
}

proof fn lemma_lower_add(
    np: nat,
    st: LwState,
    lv: ValRef,
    lty: TyV,
    rv: ValRef,
    rty: TyV,
    span: Span,
)
    requires
        sound(np, st.b),
        made(np, st.b.insts.len(), lv),
        made(np, st.b.insts.len(), rv),
    ensures
        ({
            let r = lower_add_s(st, lv, lty, rv, rty, span);
            &&& used(np, st, r.0)
            &&& made(np, r.0.b.insts.len(), r.1.0)
        }),
{
    broadcast use {group_grow, group_sound};

    reveal(lower_add_s);
    let first = st;
    if lty.pointer_like() && rty.integer() {
        lemma_lower_ptr_offset(np, st, lv, lty, rv, rty);
    } else {
        if rty.pointer_like() && lty.integer() {
            lemma_lower_ptr_offset(np, st, rv, rty, lv, lty);
        } else {
            if lty.arithmetic() && rty.arithmetic() {
                lemma_lower_arith(np, st, BinOp::Add, lv, lty, rv, rty);
            } else {
                let st = diag_unsupported_s(
                    st,
                    span,
                    "'+' operand combination"@,
                    "not arithmetic or pointer+integer"@,
                );
                assert(going(np, first, st));
                lemma_placeholder(np, st);
            }
        }
    }
}

proof fn lemma_lower_sub(
    np: nat,
    st: LwState,
    lv: ValRef,
    lty: TyV,
    rv: ValRef,
    rty: TyV,
    span: Span,
)
    requires
        sound(np, st.b),
        made(np, st.b.insts.len(), lv),
        made(np, st.b.insts.len(), rv),
    ensures
        ({
            let r = lower_sub_s(st, lv, lty, rv, rty, span);
            &&& used(np, st, r.0)
            &&& made(np, r.0.b.insts.len(), r.1.0)
        }),
{
    broadcast use {group_grow, group_sound};

    reveal(lower_sub_s);
    let first = st;
    if lty.pointer_like() && rty.pointer_like() {
        let st = diag_unsupported_s(
            st,
            span,
            "pointer difference"@,
            "BIR pointers are opaque; no integer representation to subtract"@,
        );
        assert(going(np, first, st));
        lemma_placeholder(np, st);
    } else {
        if lty.pointer_like() && rty.integer() {
            lemma_widen_index_i64(np, st, rv, rty);
            let (st, r64) = widen_index_i64_s(st, rv, rty);
            assert(going(np, first, st));
            let (st, zero) = push_s(st, BTy::Scalar(Scalar::I64), OpV::ConstInt(0));
            assert(going(np, first, st));
            let (st, neg) = push_s(st, BTy::Scalar(Scalar::I64), OpV::Bin(BBin::Sub, zero, r64));
            assert(going(np, first, st));
            lemma_lower_ptr_offset(np, st, lv, lty, neg, TyV::Scalar(ScalarKind::Long));
        } else {
            if lty.arithmetic() && rty.arithmetic() {
                lemma_lower_arith(np, st, BinOp::Sub, lv, lty, rv, rty);
            } else {
                let st = diag_unsupported_s(
                    st,
                    span,
                    "'-' operand combination"@,
                    "not arithmetic or pointer-integer"@,
                );
                assert(going(np, first, st));
                lemma_placeholder(np, st);
            }
        }
    }
}

proof fn lemma_lower_binary(np: nat, st: LwState, e: Expr)
    requires
        sound(np, st.b),
    ensures
        ({
            let r = lower_binary_s(st, e);
            &&& used(np, st, r.0)
            &&& made(np, r.0.b.insts.len(), r.1.0)
        }),
    decreases e, 8nat,
{
    broadcast use {group_grow, group_sound};

    let first = st;
    match e {
        Expr::Binary { op, lhs, rhs, span } => {
            if op == BinOp::LogOr || op == BinOp::LogAnd {
                lemma_lower_logical(np, st, e);
            } else {
                lemma_lower_expr(np, st, *lhs);
                let (st, (lv, lty)) = lower_expr_s(st, *lhs);
                assert(going(np, first, st));
                lemma_lower_expr(np, st, *rhs);
                let (st, (rv, rty)) = lower_expr_s(st, *rhs);
                assert(going(np, first, st));
                if (lty is Unknown) || (rty is Unknown) {
                    lemma_placeholder(np, st);
                } else {
                    match op {
                        BinOp::Eq | BinOp::Ne | BinOp::Lt | BinOp::Gt | BinOp::Le | BinOp::Ge => {
                            lemma_lower_compare(np, st, op, lv, lty, rv, rty);
                        },
                        BinOp::Add => {
                            lemma_lower_add(np, st, lv, lty, rv, rty, span);
                        },
                        BinOp::Sub => {
                            lemma_lower_sub(np, st, lv, lty, rv, rty, span);
                        },
                        _ => {
                            lemma_lower_arith(np, st, op, lv, lty, rv, rty);
                        },
                    }
                }
            }
        },
        _ => {
            lemma_placeholder(np, st);
        },
    }
}

proof fn lemma_lower_assign(np: nat, st: LwState, e: Expr)
    requires
        sound(np, st.b),
    ensures
        ({
            let r = lower_assign_s(st, e);
            &&& used(np, st, r.0)
            &&& made(np, r.0.b.insts.len(), r.1.0)
        }),
    decreases e, 8nat,
{
    broadcast use {group_grow, group_sound};

    let first = st;
    match e {
        Expr::Assign { op, lhs, rhs, span } => {
            lemma_lower_lvalue(np, st, *lhs);
            let (st, lv) = lower_lvalue_s(st, *lhs);
            assert(going(np, first, st));
            if (lv.ty is Unknown) {
                lemma_lower_expr(np, st, *rhs);
                let (st, _) = lower_expr_s(st, *rhs);
                assert(going(np, first, st));
                lemma_placeholder(np, st);
            } else {
                if aggregate(lv.ty) {
                    let st = diag_unsupported_s(
                        st,
                        span,
                        "whole-aggregate assignment"@,
                        "struct/union/array copy has no BIR representation"@,
                    );
                    assert(going(np, first, st));
                    lemma_lower_expr(np, st, *rhs);
                    let (st, _) = lower_expr_s(st, *rhs);
                    assert(going(np, first, st));
                    lemma_placeholder(np, st);
                } else {
                    lemma_lower_expr(np, st, *rhs);
                    let (st, (rv, rty)) = lower_expr_s(st, *rhs);
                    assert(going(np, first, st));
                    if (rty is Unknown) {
                        lemma_placeholder(np, st);
                    } else {
                        if op == AssignOp::Assign {
                            lemma_coerce_to(np, st, rv, rty, lv.ty);
                            let (st, coerced) = coerce_to_s(st, rv, rty, lv.ty);
                            assert(going(np, first, st));
                            lemma_store_addr(np, st, lv, coerced);
                        } else {
                            let bin = binop_of(op);
                            lemma_load_addr(np, st, lv);
                            let (st, (cur_v, cur_ty)) = load_addr_s(st, lv);
                            assert(going(np, first, st));
                            match bin {
                                BinOp::Add => {
                                    lemma_lower_add(np, st, cur_v, cur_ty, rv, rty, span);
                                },
                                BinOp::Sub => {
                                    lemma_lower_sub(np, st, cur_v, cur_ty, rv, rty, span);
                                },
                                _ => {
                                    lemma_lower_arith(np, st, bin, cur_v, cur_ty, rv, rty);
                                },
                            }
                            let (st, (result_v, result_ty)) = match bin {
                                BinOp::Add => {
                                    lower_add_s(st, cur_v, cur_ty, rv, rty, span)
                                },
                                BinOp::Sub => {
                                    lower_sub_s(st, cur_v, cur_ty, rv, rty, span)
                                },
                                _ => {
                                    lower_arith_s(st, bin, cur_v, cur_ty, rv, rty)
                                },
                            };
                            assert(going(np, first, st));
                            if (result_ty is Unknown) {
                                lemma_placeholder(np, st);
                            } else {
                                lemma_coerce_to(np, st, result_v, result_ty, lv.ty);
                                let (st, coerced) = coerce_to_s(st, result_v, result_ty, lv.ty);
                                assert(going(np, first, st));
                                lemma_store_addr(np, st, lv, coerced);
                            }
                        }
                    }
                }
            }
        },
        _ => {
            lemma_placeholder(np, st);
        },
    }
}

proof fn lemma_lower_incdec(np: nat, st: LwState, op: IncDecOp, expr: Expr, is_pre: bool)
    requires
        sound(np, st.b),
    ensures
        ({
            let r = lower_incdec_s(st, op, expr, is_pre);
            &&& used(np, st, r.0)
            &&& made(np, r.0.b.insts.len(), r.1.0)
        }),
    decreases expr, 10nat,
{
    broadcast use {group_grow, group_sound};

    let first = st;
    lemma_lower_lvalue(np, st, expr);
    let (st, lv) = lower_lvalue_s(st, expr);
    assert(going(np, first, st));
    if (lv.ty is Unknown) {
        lemma_placeholder(np, st);
    } else {
        lemma_load_addr(np, st, lv);
        let (st, (cur_v, cur_ty)) = load_addr_s(st, lv);
        assert(going(np, first, st));
        let inc = op == IncDecOp::Inc;
        let bty = bir_ty(cur_ty);
        if (cur_ty is Pointer) {
            let delta = if inc { 1i64 } else { MINUS_ONE };
            let (st, deltav) = push_s(st, BTy::Scalar(Scalar::I64), OpV::ConstInt(delta));
            assert(going(np, first, st));
            lemma_lower_ptr_offset(np, st, cur_v, cur_ty, deltav, TyV::Scalar(ScalarKind::Long));
        }
        let (st, (new_v, new_ty)) = if (cur_ty is Pointer) {
            let delta = if inc { 1i64 } else { MINUS_ONE };
            let (st, deltav) = push_s(st, BTy::Scalar(Scalar::I64), OpV::ConstInt(delta));
            lower_ptr_offset_s(st, cur_v, cur_ty, deltav, TyV::Scalar(ScalarKind::Long))
        } else if cur_ty.float() {
            let (st, one) = push_s(st, bty, OpV::ConstFloat(float_one()));
            let bop = if inc { BBin::FAdd } else { BBin::FSub };
            let (st, r2) = push_s(st, bty, OpV::Bin(bop, cur_v, one));
            (st, (r2, cur_ty))
        } else {
            let (st, one) = push_s(st, bty, OpV::ConstInt(1));
            let bop = if inc { BBin::Add } else { BBin::Sub };
            let (st, r2) = push_s(st, bty, OpV::Bin(bop, cur_v, one));
            (st, (r2, cur_ty))
        };
        assert(going(np, first, st));
        lemma_coerce_to(np, st, new_v, new_ty, cur_ty);
        let (st, coerced) = coerce_to_s(st, new_v, new_ty, cur_ty);
        assert(going(np, first, st));
        lemma_store_addr(np, st, lv, coerced);
    }
}

proof fn lemma_lower_ternary(np: nat, st: LwState, e: Expr)
    requires
        sound(np, st.b),
    ensures
        ({
            let r = lower_ternary_s(st, e);
            &&& used(np, st, r.0)
            &&& made(np, r.0.b.insts.len(), r.1.0)
        }),
    decreases e, 8nat,
{
    broadcast use {group_grow, group_sound};

    reveal(join_branches_s);
    let first = st;
    match e {
        Expr::Ternary { cond, then_branch, else_branch, span } => {
            lemma_lower_expr(np, st, *cond);
            let (st, (cv, cty)) = lower_expr_s(st, *cond);
            assert(going(np, first, st));
            if (cty is Unknown) {
                lemma_lower_expr(np, st, *then_branch);
                let (st, _) = lower_expr_s(st, *then_branch);
                assert(going(np, first, st));
                lemma_lower_expr(np, st, *else_branch);
                let (st, _) = lower_expr_s(st, *else_branch);
                assert(going(np, first, st));
                lemma_placeholder(np, st);
            } else {
                lemma_truthy(np, st, cv, cty);
                let (st, cb) = truthy_s(st, cv, cty);
                assert(going(np, first, st));
                let (st, then_bb) = alloc_block_s(st);
                assert(going(np, first, st));
                let (st, else_bb) = alloc_block_s(st);
                assert(going(np, first, st));
                let (st, merge_bb) = alloc_block_s(st);
                assert(going(np, first, st));
                let st = terminate_s(st, TermV::CondBr(cb, then_bb, else_bb));
                assert(going(np, first, st));
                let st = set_cur_s(st, then_bb);
                assert(going(np, first, st));
                lemma_lower_expr(np, st, *then_branch);
                let (st, (tv, tty)) = lower_expr_s(st, *then_branch);
                assert(going(np, first, st));
                let then_end = st.b.cur;
                let st = set_cur_s(st, else_bb);
                assert(going(np, first, st));
                lemma_lower_expr(np, st, *else_branch);
                let (st, (ev, ety)) = lower_expr_s(st, *else_branch);
                assert(going(np, first, st));
                let else_end = st.b.cur;
                if (tty is Unknown) || (ety is Unknown) {
                    let st = join_branches_s(st, then_end, else_end, merge_bb);
                    assert(going(np, first, st));
                    lemma_placeholder(np, st);
                } else {
                    if !fits(tty, ety) && !fits(ety, tty) {
                        let st = diag_unsupported_s(
                            st,
                            span,
                            "ternary branch types"@,
                            "incompatible types in the two branches"@,
                        );
                        assert(going(np, first, st));
                        let st = join_branches_s(st, then_end, else_end, merge_bb);
                        assert(going(np, first, st));
                        lemma_placeholder(np, st);
                    } else {
                        let result_ty = if fits(tty, ety) { tty } else { ety };
                        if aggregate(result_ty) {
                            let st = diag_unsupported_s(
                                st,
                                span,
                                "whole-aggregate value"@,
                                "ternary over a struct/union/array"@,
                            );
                            assert(going(np, first, st));
                            let st = join_branches_s(st, then_end, else_end, merge_bb);
                            assert(going(np, first, st));
                            lemma_placeholder(np, st);
                        } else {
                            let st = set_cur_s(st, then_end);
                            assert(going(np, first, st));
                            lemma_coerce_to(np, st, tv, tty, result_ty);
                            let (st, tv2) = coerce_to_s(st, tv, tty, result_ty);
                            assert(going(np, first, st));
                            let st = terminate_s(st, TermV::Br(merge_bb));
                            assert(going(np, first, st));
                            let st = set_cur_s(st, else_end);
                            assert(going(np, first, st));
                            lemma_coerce_to(np, st, ev, ety, result_ty);
                        }
                    }
                }
            }
        },
        _ => {
            lemma_placeholder(np, st);
        },
    }
}

proof fn lemma_lower_call_args(np: nat, st: LwState, args: Seq<Expr>, n: nat)
    requires
        sound(np, st.b),
    ensures
        ({
            let r = lower_call_args_s(st, args, n);
            &&& used(np, st, r.0)
            &&& pairs_made(np, r.0.b.insts.len(), r.1)
        }),
    decreases args, n,
{
    broadcast use {group_grow, group_sound};

    let first = st;
    if !(n == 0 || n > args.len()) {
        lemma_lower_call_args(np, st, args, (n - 1) as nat);
        let (st, v) = lower_call_args_s(st, args, (n - 1) as nat);
        assert(going(np, first, st));
        lemma_lower_expr(np, st, args[n - 1]);
    }
}

proof fn lemma_lower_syncthreads_call(np: nat, st: LwState, args: Seq<Expr>)
    requires
        sound(np, st.b),
    ensures
        ({
            let r = lower_syncthreads_call_s(st, args);
            &&& used(np, st, r.0)
            &&& made(np, r.0.b.insts.len(), r.1.0)
        }),
    decreases args, args.len() + 1,
{
    broadcast use {group_grow, group_sound};

    let first = st;
    lemma_lower_call_args(np, st, args, args.len());
    let (st, _) = lower_call_args_s(st, args, args.len());
    assert(going(np, first, st));
    let st = push_void_s(st, OpV::Barrier);
    assert(going(np, first, st));
    lemma_zero_of(np, st, TyV::Scalar(ScalarKind::Void));
}

proof fn lemma_lower_shuffle_call(np: nat, st: LwState, kind: ShuffleKind, args: Seq<Expr>)
    requires
        sound(np, st.b),
    ensures
        ({
            let r = lower_shuffle_call_s(st, kind, args);
            &&& used(np, st, r.0)
            &&& made(np, r.0.b.insts.len(), r.1.0)
        }),
    decreases args, args.len() + 1,
{
    broadcast use {group_grow, group_sound};

    let first = st;
    lemma_lower_call_args(np, st, args, args.len());
    let (st, vals) = lower_call_args_s(st, args, args.len());
    assert(going(np, first, st));
    if vals.len() != 2 || any_unknown(vals) {
        lemma_placeholder(np, st);
    } else {
        lemma_coerce_to(np, st, vals[0].0, vals[0].1, TyV::Scalar(ScalarKind::Int));
        let (st, v) = coerce_to_s(st, vals[0].0, vals[0].1, TyV::Scalar(ScalarKind::Int));
        assert(going(np, first, st));
        lemma_coerce_to(np, st, vals[1].0, vals[1].1, TyV::Scalar(ScalarKind::Int));
    }
}

proof fn lemma_lower_vote_call(np: nat, st: LwState, kind: Vote, args: Seq<Expr>)
    requires
        sound(np, st.b),
    ensures
        ({
            let r = lower_vote_call_s(st, kind, args);
            &&& used(np, st, r.0)
            &&& made(np, r.0.b.insts.len(), r.1.0)
        }),
    decreases args, args.len() + 1,
{
    broadcast use {group_grow, group_sound};

    let first = st;
    lemma_lower_call_args(np, st, args, args.len());
    let (st, vals) = lower_call_args_s(st, args, args.len());
    assert(going(np, first, st));
    if vals.len() != 1 || vals[0].1 is Unknown {
        lemma_placeholder(np, st);
    } else {
        lemma_coerce_to(np, st, vals[0].0, vals[0].1, TyV::Scalar(ScalarKind::Int));
    }
}

proof fn lemma_lower_atomic_rmw_call(
    np: nat,
    st: LwState,
    aop: AtomicOp,
    args: Seq<Expr>,
    span: Span,
)
    requires
        sound(np, st.b),
    ensures
        ({
            let r = lower_atomic_rmw_call_s(st, aop, args, span);
            &&& used(np, st, r.0)
            &&& made(np, r.0.b.insts.len(), r.1.0)
        }),
    decreases args, args.len() + 1,
{
    broadcast use {group_grow, group_sound};

    let first = st;
    lemma_lower_call_args(np, st, args, args.len());
    let (st, vals) = lower_call_args_s(st, args, args.len());
    assert(going(np, first, st));
    if vals.len() != 2 || any_unknown(vals) {
        lemma_placeholder(np, st);
    } else {
        if !vals[0].1.pointer_like() {
            let st = diag_unsupported_s(
                st,
                span,
                "atomic builtin"@,
                "first argument is not a pointer"@,
            );
            assert(going(np, first, st));
            lemma_placeholder(np, st);
        } else {
            lemma_coerce_to(np, st, vals[1].0, vals[1].1, TyV::Scalar(ScalarKind::Int));
        }
    }
}

proof fn lemma_lower_atomic_cas_call(np: nat, st: LwState, args: Seq<Expr>, span: Span)
    requires
        sound(np, st.b),
    ensures
        ({
            let r = lower_atomic_cas_call_s(st, args, span);
            &&& used(np, st, r.0)
            &&& made(np, r.0.b.insts.len(), r.1.0)
        }),
    decreases args, args.len() + 1,
{
    broadcast use {group_grow, group_sound};

    let first = st;
    lemma_lower_call_args(np, st, args, args.len());
    let (st, vals) = lower_call_args_s(st, args, args.len());
    assert(going(np, first, st));
    if vals.len() != 3 || any_unknown(vals) {
        lemma_placeholder(np, st);
    } else {
        if !vals[0].1.pointer_like() {
            let st = diag_unsupported_s(
                st,
                span,
                "atomic builtin"@,
                "first argument is not a pointer"@,
            );
            assert(going(np, first, st));
            lemma_placeholder(np, st);
        } else {
            lemma_coerce_to(np, st, vals[1].0, vals[1].1, TyV::Scalar(ScalarKind::Int));
            let (st, expect) = coerce_to_s(st, vals[1].0, vals[1].1, TyV::Scalar(ScalarKind::Int));
            assert(going(np, first, st));
            lemma_coerce_to(np, st, vals[2].0, vals[2].1, TyV::Scalar(ScalarKind::Int));
        }
    }
}

proof fn lemma_lower_cuda_malloc_devptr(np: nat, st: LwState, e: Expr, span: Span)
    requires
        sound(np, st.b),
    ensures
        ({
            let r = lower_cuda_malloc_devptr_s(st, e, span);
            &&& used(np, st, r.0)
            &&& made(np, r.0.b.insts.len(), r.1.addr)
        }),
    decreases e, 11nat,
{
    broadcast use {group_grow, group_sound};

    match e {
        Expr::Unary { op: UnaryOp::Addr, expr, .. } => {
            lemma_lower_lvalue(np, st, *expr);
        },
        _ => {
            if let Expr::Cast { ty, expr, span: sp } = e {
                if peels_to_address(*expr) {
                    lemma_lower_cuda_malloc_devptr(np, st, *expr, span);
                } else {
                    lemma_devptr_value(np, st, e, span);
                }
            } else {
                lemma_devptr_value(np, st, e, span);
            }
        },
    }
}

proof fn lemma_devptr_value(np: nat, st: LwState, e: Expr, span: Span)
    requires
        sound(np, st.b),
    ensures
        ({
            let r = devptr_value_s(st, e, span);
            &&& used(np, st, r.0)
            &&& made(np, r.0.b.insts.len(), r.1.addr)
        }),
    decreases e, 10nat,
{
    broadcast use {group_grow, group_sound};

    let first = st;
    lemma_lower_expr(np, st, e);
    let (st, (v, ty)) = lower_expr_s(st, e);
    assert(going(np, first, st));
    if !ty.pointer_like() {
        let st = if !(ty is Unknown) {
            diag_unsupported_s(
                st,
                span,
                "cudaMalloc"@,
                "first argument is not a pointer"@,
            )
        } else {
            st
        };
        assert(going(np, first, st));
        lemma_lvalue_unknown(np, st);
    }
}

proof fn lemma_lower_cuda_malloc_call(np: nat, st: LwState, args: Seq<Expr>, span: Span)
    requires
        sound(np, st.b),
    ensures
        ({
            let r = lower_cuda_malloc_call_s(st, args, span);
            &&& used(np, st, r.0)
            &&& made(np, r.0.b.insts.len(), r.1.0)
        }),
    decreases args, args.len() + 1,
{
    broadcast use {group_grow, group_sound};

    let first = st;
    if args.len() != 2 {
        lemma_lower_call_args(np, st, args, args.len());
        let (st, _) = lower_call_args_s(st, args, args.len());
        assert(going(np, first, st));
        let st = diag_unsupported_s(st, span, "cudaMalloc"@, "expects exactly 2 arguments"@);
        assert(going(np, first, st));
        lemma_placeholder(np, st);
    } else {
        lemma_lower_expr(np, st, args[1]);
        let (st, (size_v, size_t)) = lower_expr_s(st, args[1]);
        assert(going(np, first, st));
        lemma_lower_cuda_malloc_devptr(np, st, args[0], span);
        let (st, devptr_lv) = lower_cuda_malloc_devptr_s(st, args[0], span);
        assert(going(np, first, st));
        if (size_t is Unknown) || (devptr_lv.ty is Unknown) {
            lemma_placeholder(np, st);
        } else {
            lemma_coerce_to(np, st, size_v, size_t, TyV::Scalar(ScalarKind::ULong));
            let (st, size) = coerce_to_s(st, size_v, size_t, TyV::Scalar(ScalarKind::ULong));
            assert(going(np, first, st));
            let (st, allocated) = push_s(st, BTy::Ptr(AddrSpace::Global), OpV::CudaMalloc { size });
            assert(going(np, first, st));
            lemma_store_addr(np, st, devptr_lv, allocated);
            let st = store_addr_s(st, devptr_lv, allocated);
            assert(going(np, first, st));
            lemma_zero_of(np, st, TyV::Scalar(ScalarKind::Int));
        }
    }
}

proof fn lemma_lower_cuda_memcpy_call(np: nat, st: LwState, args: Seq<Expr>)
    requires
        sound(np, st.b),
    ensures
        ({
            let r = lower_cuda_memcpy_call_s(st, args);
            &&& used(np, st, r.0)
            &&& made(np, r.0.b.insts.len(), r.1.0)
        }),
    decreases args, args.len() + 1,
{
    broadcast use {group_grow, group_sound};

    let first = st;
    lemma_lower_call_args(np, st, args, args.len());
    let (st, vals) = lower_call_args_s(st, args, args.len());
    assert(going(np, first, st));
    if vals.len() != 4 || any_unknown(vals) {
        lemma_placeholder(np, st);
    } else {
        lemma_coerce_to(np, st, vals[2].0, vals[2].1, TyV::Scalar(ScalarKind::ULong));
        let (st, count) = coerce_to_s(st, vals[2].0, vals[2].1, TyV::Scalar(ScalarKind::ULong));
        assert(going(np, first, st));
        lemma_coerce_to(np, st, vals[3].0, vals[3].1, TyV::Scalar(ScalarKind::Int));
        let (st, kind) = coerce_to_s(st, vals[3].0, vals[3].1, TyV::Scalar(ScalarKind::Int));
        assert(going(np, first, st));
        let st = push_void_s(st, OpV::CudaMemcpy { dst: vals[0].0, src: vals[1].0, count, kind });
        assert(going(np, first, st));
        lemma_zero_of(np, st, TyV::Scalar(ScalarKind::Int));
    }
}

proof fn lemma_lower_cuda_free_call(np: nat, st: LwState, args: Seq<Expr>)
    requires
        sound(np, st.b),
    ensures
        ({
            let r = lower_cuda_free_call_s(st, args);
            &&& used(np, st, r.0)
            &&& made(np, r.0.b.insts.len(), r.1.0)
        }),
    decreases args, args.len() + 1,
{
    broadcast use {group_grow, group_sound};

    let first = st;
    lemma_lower_call_args(np, st, args, args.len());
    let (st, vals) = lower_call_args_s(st, args, args.len());
    assert(going(np, first, st));
    if vals.len() != 1 || vals[0].1 is Unknown {
        lemma_placeholder(np, st);
    } else {
        let st = push_void_s(st, OpV::CudaFree { ptr: vals[0].0 });
        assert(going(np, first, st));
        lemma_zero_of(np, st, TyV::Scalar(ScalarKind::Int));
    }
}

proof fn lemma_lower_cuda_device_synchronize_call(np: nat, st: LwState, args: Seq<Expr>)
    requires
        sound(np, st.b),
    ensures
        ({
            let r = lower_cuda_device_synchronize_call_s(st, args);
            &&& used(np, st, r.0)
            &&& made(np, r.0.b.insts.len(), r.1.0)
        }),
    decreases args, args.len() + 1,
{
    broadcast use {group_grow, group_sound};

    let first = st;
    lemma_lower_call_args(np, st, args, args.len());
    let (st, _) = lower_call_args_s(st, args, args.len());
    assert(going(np, first, st));
    let st = push_void_s(st, OpV::CudaDeviceSynchronize);
    assert(going(np, first, st));
    lemma_zero_of(np, st, TyV::Scalar(ScalarKind::Int));
}

proof fn lemma_lower_builtin_call(
    np: nat,
    st: LwState,
    name: Seq<char>,
    args: Seq<Expr>,
    span: Span,
)
    requires
        sound(np, st.b),
    ensures
        ({
            let r = lower_builtin_call_s(st, name, args, span);
            &&& used(np, st, r.0)
            &&& r.1 matches Some(x) ==> made(np, r.0.b.insts.len(), x.0)
        }),
    decreases args, args.len() + 2,
{
    broadcast use {group_grow, group_sound};

    if (name == "__syncthreads"@) {
        lemma_lower_syncthreads_call(np, st, args);
    } else {
        if let Some(kind) = shuffle_kind(name) {
            lemma_lower_shuffle_call(np, st, kind, args);
        } else {
            if let Some(kind) = vote_kind(name) {
                lemma_lower_vote_call(np, st, kind, args);
            } else {
                if let Some(aop) = atomic_kind(name) {
                    lemma_lower_atomic_rmw_call(np, st, aop, args, span);
                } else {
                    if (name == "atomicCAS"@) {
                        lemma_lower_atomic_cas_call(np, st, args, span);
                    } else {
                        if (name == "cudaMalloc"@) {
                            lemma_lower_cuda_malloc_call(np, st, args, span);
                        } else {
                            if (name == "cudaMemcpy"@) {
                                lemma_lower_cuda_memcpy_call(np, st, args);
                            } else {
                                if (name == "cudaFree"@) {
                                    lemma_lower_cuda_free_call(np, st, args);
                                } else {
                                    if (name == "cudaDeviceSynchronize"@) {
                                        lemma_lower_cuda_device_synchronize_call(np, st, args);
                                    }
                                }
                            }
                        }
                    }
                }
            }
        }
    }
}

proof fn lemma_finish_call(
    np: nat,
    st: LwState,
    callee: Option<(Seq<char>, TyV)>,
    vals: Seq<(ValRef, TyV)>,
    span: Span,
)
    requires
        sound(np, st.b),
        pairs_made(np, st.b.insts.len(), vals),
    ensures
        ({
            let r = finish_call_s(st, callee, vals, span);
            &&& used(np, st, r.0)
            &&& made(np, r.0.b.insts.len(), r.1.0)
        }),
{
    broadcast use {group_grow, group_sound};

    reveal(finish_call_s);
    let first = st;
    match callee {
        None => {
            lemma_placeholder(np, st);
        },
        Some((name, ret_ty)) => {
            if aggregate(ret_ty) || any_aggregate(vals) {
                let st = diag_unsupported_s(
                    st,
                    span,
                    "function call"@,
                    "a whole struct/union/array argument or return value has no BIR value to lower to"@,
                );
                assert(going(np, first, st));
                if (ret_ty is Unknown) || aggregate(ret_ty) {
                    lemma_placeholder(np, st);
                } else {
                    lemma_zero_of(np, st, ret_ty);
                }
            } else {
                if (ret_ty is Unknown) {
                    lemma_placeholder(np, st);
                } else {
                    if ret_ty.void() {
                        let st = push_void_s(st, OpV::Call { func: name, args: refs_of(vals) });
                        assert(going(np, first, st));
                        lemma_zero_of(np, st, ret_ty);
                    }
                }
            }
        },
    }
}

proof fn lemma_lower_call(np: nat, st: LwState, e: Expr)
    requires
        sound(np, st.b),
    ensures
        ({
            let r = lower_call_s(st, e);
            &&& used(np, st, r.0)
            &&& made(np, r.0.b.insts.len(), r.1.0)
        }),
    decreases e, 8nat,
{
    broadcast use {group_grow, group_sound};

    let first = st;
    match e {
        Expr::Call { callee, args, span } => {
            match *callee {
                Expr::Ident { name, .. } => {
                    lemma_lower_builtin_call(np, st, name@, args@, span);
                    let (st, builtin) = lower_builtin_call_s(st, name@, args@, span);
                    assert(going(np, first, st));
                    match builtin {
                        Some(v) => {},
                        None => {
                            let found = callee_of(st.scopes, *callee);
                            lemma_lower_call_args(np, st, args@, args@.len());
                            let (st, vals) = lower_call_args_s(st, args@, args@.len());
                            assert(going(np, first, st));
                            lemma_finish_call(np, st, found, vals, span);
                        },
                    }
                },
                other => {
                    lemma_lower_expr(np, st, *callee);
                    let (st, _) = lower_expr_s(st, *callee);
                    assert(going(np, first, st));
                    lemma_lower_call_args(np, st, args@, args@.len());
                    let (st, _) = lower_call_args_s(st, args@, args@.len());
                    assert(going(np, first, st));
                    lemma_placeholder(np, st);
                },
            }
        },
        _ => {
            lemma_placeholder(np, st);
        },
    }
}

proof fn lemma_load_dim3_field(np: nat, st: LwState, base: LValueV, field: Seq<char>)
    requires
        sound(np, st.b),
        made(np, st.b.insts.len(), base.addr),
    ensures
        ({
            let r = load_dim3_field_s(st, base, field);
            &&& used(np, st, r.0)
            &&& made(np, r.0.b.insts.len(), r.1)
        }),
{
    broadcast use {group_grow, group_sound};

    reveal(load_dim3_field_s);
    let first = st;
    match field_offset_s(st, base.ty, field) {
        Some((off, fty)) => {
            lemma_field_place(np, st, base, off, fty);
            let (st, lv) = field_place_s(st, base, off, fty);
            assert(going(np, first, st));
            lemma_load_addr(np, st, lv);
        },
        None => {},
    }
}

proof fn lemma_lower_launch_config_dim(np: nat, st: LwState, e: Expr)
    requires
        sound(np, st.b),
    ensures
        ({
            let r = lower_launch_config_dim_s(st, e);
            &&& used(np, st, r.0)
            &&& all_made(np, r.0.b.insts.len(), r.1)
        }),
    decreases e, 10nat,
{
    broadcast use {group_grow, group_sound};

    let first = st;
    if dim3_extent(st.locals, e) {
        lemma_lower_lvalue(np, st, e);
        let (st, lv) = lower_lvalue_s(st, e);
        assert(going(np, first, st));
        if !((lv.ty is Unknown)) {
            lemma_load_dim3_field(np, st, lv, "x"@);
            let (st, x) = load_dim3_field_s(st, lv, "x"@);
            assert(going(np, first, st));
            lemma_load_dim3_field(np, st, lv, "y"@);
            let (st, y) = load_dim3_field_s(st, lv, "y"@);
            assert(going(np, first, st));
            lemma_load_dim3_field(np, st, lv, "z"@);
        }
    } else {
        lemma_lower_expr(np, st, e);
        let (st, (v, t)) = lower_expr_s(st, e);
        assert(going(np, first, st));
        if !((t is Unknown)) {
            lemma_coerce_to(np, st, v, t, TyV::Scalar(ScalarKind::UInt));
        }
    }
}

proof fn lemma_lower_shared(np: nat, st: LwState, shared: Option<Box<Expr>>)
    requires
        sound(np, st.b),
    ensures
        ({
            let r = lower_shared_s(st, shared);
            &&& used(np, st, r.0)
            &&& made(np, r.0.b.insts.len(), r.1)
        }),
    decreases shared, 10nat,
{
    broadcast use {group_grow, group_sound};

    let first = st;
    match shared {
        Some(x) => {
            lemma_lower_expr(np, st, *x);
            let (st, (v, t)) = lower_expr_s(st, *x);
            assert(going(np, first, st));
            lemma_coerce_to(np, st, v, t, TyV::Scalar(ScalarKind::ULong));
        },
        None => {},
    }
}

proof fn lemma_lower_stream(np: nat, st: LwState, stream: Option<Box<Expr>>)
    requires
        sound(np, st.b),
    ensures
        ({
            let r = lower_stream_s(st, stream);
            &&& used(np, st, r.0)
            &&& made(np, r.0.b.insts.len(), r.1)
        }),
    decreases stream, 10nat,
{
    broadcast use {group_grow, group_sound};

    match stream {
        Some(x) => {
            lemma_lower_expr(np, st, *x);
        },
        None => {},
    }
}

proof fn lemma_lower_kernel_launch(np: nat, st: LwState, e: Expr)
    requires
        sound(np, st.b),
    ensures
        ({
            let r = lower_kernel_launch_s(st, e);
            &&& used(np, st, r.0)
            &&& made(np, r.0.b.insts.len(), r.1.0)
        }),
    decreases e, 8nat,
{
    broadcast use {group_grow, group_sound};

    let first = st;
    match e {
        Expr::KernelLaunch { kernel, grid, block, shared, stream, args, span } => {
            match *kernel {
                Expr::Ident { name, .. } => {
                    lemma_lower_launch_config_dim(np, st, *grid);
                    let (st, grid_vals) = lower_launch_config_dim_s(st, *grid);
                    assert(going(np, first, st));
                    lemma_lower_launch_config_dim(np, st, *block);
                    let (st, block_vals) = lower_launch_config_dim_s(st, *block);
                    assert(going(np, first, st));
                    lemma_lower_shared(np, st, shared);
                    let (st, shared_val) = lower_shared_s(st, shared);
                    assert(going(np, first, st));
                    lemma_lower_stream(np, st, stream);
                    let (st, stream_val) = lower_stream_s(st, stream);
                    assert(going(np, first, st));
                    lemma_lower_call_args(np, st, args@, args@.len());
                },
                other => {
                    lemma_lower_expr(np, st, *kernel);
                    let (st, _) = lower_expr_s(st, *kernel);
                    assert(going(np, first, st));
                    lemma_lower_call_args(np, st, args@, args@.len());
                },
            }
            let st = match *kernel {
                Expr::Ident { name, .. } => {
                    let (st, grid_vals) = lower_launch_config_dim_s(st, *grid);
                    let (st, block_vals) = lower_launch_config_dim_s(st, *block);
                    let (st, shared_val) = lower_shared_s(st, shared);
                    let (st, stream_val) = lower_stream_s(st, stream);
                    let (st, vals) = lower_call_args_s(st, args@, args@.len());
                    push_void_s(
                        st,
                        OpV::KernelLaunch {
                            kernel: name@,
                            grid: grid_vals,
                            block: block_vals,
                            shared: shared_val,
                            stream: stream_val,
                            args: refs_of(vals),
                        },
                    )
                },
                other => {
                    let (st, _) = lower_expr_s(st, *kernel);
                    let (st, _) = lower_call_args_s(st, args@, args@.len());
                    diag_unsupported_s(
                        st,
                        span,
                        "kernel launch"@,
                        "launch target is not a named function"@,
                    )
                },
            };
            assert(going(np, first, st));
            lemma_zero_of(np, st, TyV::Scalar(ScalarKind::Void));
        },
        _ => {
            lemma_placeholder(np, st);
        },
    }
}

proof fn lemma_lower_comma(np: nat, st: LwState, es: Seq<Expr>, n: nat)
    requires
        sound(np, st.b),
    ensures
        ({
            let r = lower_comma_s(st, es, n);
            &&& used(np, st, r.0)
            &&& made(np, r.0.b.insts.len(), r.1.0)
        }),
    decreases es, n,
{
    broadcast use {group_grow, group_sound};

    let first = st;
    if n == 0 || n > es.len() {
        lemma_placeholder(np, st);
    } else {
        lemma_lower_comma(np, st, es, (n - 1) as nat);
        let (st, _) = lower_comma_s(st, es, (n - 1) as nat);
        assert(going(np, first, st));
        lemma_lower_expr(np, st, es[n - 1]);
    }
}

proof fn lemma_operand_type(np: nat, st: LwState, e: Expr)
    requires
        sound(np, st.b),
    ensures
        used(np, st, operand_type_s(st, e).0),
    decreases e, 10nat,
{
    broadcast use {group_grow, group_sound};

    let first = st;
    if names_place(st.locals, e) {
        lemma_lower_lvalue(np, st, e);
        let (st, lv) = lower_lvalue_s(st, e);
        assert(going(np, first, st));
        if !((lv.ty is Array)) {
            lemma_value_of_lvalue(np, st, lv, expr_span(e));
        }
    } else {
        lemma_lower_expr(np, st, e);
    }
}

proof fn lemma_size_constant(np: nat, st: LwState, t: TyV, span: Span)
    requires
        sound(np, st.b),
    ensures
        ({
            let r = size_constant_s(st, t, span);
            &&& used(np, st, r.0)
            &&& made(np, r.0.b.insts.len(), r.1.0)
        }),
{
    broadcast use {group_grow, group_sound};

    reveal(size_constant_s);
}

#[verifier::rlimit(60)]
proof fn lemma_lower_expr(np: nat, st: LwState, e: Expr)
    requires
        sound(np, st.b),
    ensures
        ({
            let r = lower_expr_s(st, e);
            &&& used(np, st, r.0)
            &&& made(np, r.0.b.insts.len(), r.1.0)
        }),
    decreases e, 9nat,
{
    broadcast use {group_grow, group_sound};

    let first = st;
    match e {
        Expr::IntLit { value, .. } => {},
        Expr::FloatLit { value, .. } => {},
        Expr::CharLit { value, .. } => {},
        Expr::StrLit { span } => {},
        Expr::Ident { name, span } => {
            lemma_lower_ident_value(np, st, name@, span);
        },
        Expr::Index { .. } => {
            lemma_lower_lvalue(np, st, e);
            let (st, lv) = lower_lvalue_s(st, e);
            assert(going(np, first, st));
            lemma_value_of_lvalue(np, st, lv, expr_span(e));
        },
        Expr::Member { base, name, arrow, .. } => {
            let found = if arrow {
                None
            } else {
                match *base {
                    Expr::Ident { name: base_name, span: sp } => index_op(base_name@, name@),
                    _ => None,
                }
            };
            match found {
                Some(op) => {},
                None => {
                    lemma_lower_lvalue(np, st, e);
                    let (st, lv) = lower_lvalue_s(st, e);
                    assert(going(np, first, st));
                    lemma_value_of_lvalue(np, st, lv, expr_span(e));
                },
            }
        },
        Expr::Unary { op, expr, .. } => {
            if op == UnaryOp::Deref {
                lemma_lower_lvalue(np, st, e);
                let (st, lv) = lower_lvalue_s(st, e);
                assert(going(np, first, st));
                lemma_value_of_lvalue(np, st, lv, expr_span(e));
            } else {
                if op == UnaryOp::Addr {
                    lemma_lower_lvalue(np, st, *expr);
                    let (st, lv) = lower_lvalue_s(st, *expr);
                    assert(going(np, first, st));
                    if (lv.ty is Unknown) {
                        lemma_placeholder(np, st);
                    }
                } else {
                    lemma_lower_unary(np, st, op, *expr);
                }
            }
        },
        Expr::Binary { .. } => {
            lemma_lower_binary(np, st, e);
        },
        Expr::Assign { .. } => {
            lemma_lower_assign(np, st, e);
        },
        Expr::Ternary { .. } => {
            lemma_lower_ternary(np, st, e);
        },
        Expr::Cast { .. } => {
            lemma_lower_cast(np, st, e);
        },
        Expr::PreIncDec { op, expr, .. } => {
            lemma_lower_incdec(np, st, op, *expr, true);
        },
        Expr::PostIncDec { op, expr, .. } => {
            lemma_lower_incdec(np, st, op, *expr, false);
        },
        Expr::SizeofExpr { expr, span } => {
            lemma_operand_type(np, st, *expr);
            let (st, ty) = operand_type_s(st, *expr);
            assert(going(np, first, st));
            lemma_size_constant(np, st, ty, span);
        },
        Expr::SizeofType { ty, span } => {
            lemma_resolve_type(st, ty);
            let (st, t) = resolve_type_s(st, ty);
            assert(going(np, first, st));
            lemma_size_constant(np, st, t, span);
        },
        Expr::Call { .. } => {
            lemma_lower_call(np, st, e);
        },
        Expr::KernelLaunch { .. } => {
            lemma_lower_kernel_launch(np, st, e);
        },
        Expr::Comma { exprs, .. } => {
            lemma_lower_comma(np, st, exprs@, exprs@.len());
        },
        Expr::Error { .. } => {
            lemma_placeholder(np, st);
        },
    }
}

proof fn lemma_lower_var_decl(np: nat, st: LwState, v: VarDecl)
    requires
        fit(np, st),
    ensures
        walked_on(np, st, lower_var_decl_s(st, v)),
{
    broadcast use {group_grow, group_sound};

    reveal(lower_var_decl_s);
    let first = st;
    lemma_resolve_type(st, v.ty);
    let (st, ty) = resolve_type_s(st, v.ty);
    assert(going(np, first, st));
    if (ty is Unknown) {
        match v.init {
            Some(init) => {
                lemma_lower_expr(np, st, init);
            },
            None => {},
        }
    } else {
        let space = if v.cuda_quals.is_shared {
            AddrSpace::Shared
        } else if v.cuda_quals.is_constant {
            AddrSpace::Constant
        } else {
            AddrSpace::Local
        };
        let (st, slot) = new_slot_s(st, ty, space);
        assert(going(np, first, st));
        let st = bind_local_s(st, v.name@, slot);
        assert(going(np, first, st));
        match v.init {
            Some(init) => {
                if aggregate(ty) {
                    let st = diag_unsupported_s(
                        st,
                        v.span,
                        "aggregate initializer"@,
                        "struct/union/array initializers are not lowered"@,
                    );
                    assert(going(np, first, st));
                    lemma_lower_expr(np, st, init);
                } else {
                    lemma_lower_expr(np, st, init);
                    let (st, (iv, ity)) = lower_expr_s(st, init);
                    assert(going(np, first, st));
                    if !(ity is Unknown) {
                        lemma_coerce_to(np, st, iv, ity, ty);
                        let (st, coerced) = coerce_to_s(st, iv, ity, ty);
                        assert(going(np, first, st));
                        lemma_slot_lvalue(np, st, slot);
                        let (st, lv) = slot_lvalue_s(st, slot);
                        assert(going(np, first, st));
                        lemma_store_addr(np, st, lv, coerced);
                    }
                }
            },
            None => {},
        }
    }
}

proof fn lemma_lower_decls(np: nat, st: LwState, ds: Seq<VarDecl>, n: nat)
    requires
        fit(np, st),
    ensures
        walked_on(np, st, lower_decls_s(st, ds, n)),
    decreases n,
{
    broadcast use {group_grow, group_sound};

    if n > 0 && n <= ds.len() {
        lemma_lower_decls(np, st, ds, (n - 1) as nat);
        lemma_lower_var_decl(np, lower_decls_s(st, ds, (n - 1) as nat), ds[n - 1]);
    }
}

proof fn lemma_lower_stmts(np: nat, st: LwState, ss: Seq<Stmt>, n: nat)
    requires
        fit(np, st),
    ensures
        walked_on(np, st, lower_stmts_s(st, ss, n)),
    decreases ss, n,
{
    broadcast use {group_grow, group_sound};

    if n > 0 && n <= ss.len() {
        lemma_lower_stmts(np, st, ss, (n - 1) as nat);
        lemma_lower_stmt(np, lower_stmts_s(st, ss, (n - 1) as nat), ss[n - 1]);
    }
}

proof fn lemma_lower_if(np: nat, st: LwState, s: Stmt)
    requires
        fit(np, st),
    ensures
        walked_on(np, st, lower_if_s(st, s)),
    decreases s, 8nat,
{
    broadcast use {group_grow, group_sound};

    let first = st;
    match s {
        Stmt::If { cond, then_branch, else_branch, .. } => {
            lemma_condition(np, st, cond);
            let (st, branch_val) = condition_s(st, cond);
            assert(going(np, first, st));
            let (st, then_bb) = alloc_block_s(st);
            assert(going(np, first, st));
            let (st, else_bb) = alloc_block_s(st);
            assert(going(np, first, st));
            let (st, merge_bb) = alloc_block_s(st);
            assert(going(np, first, st));
            let st = terminate_s(st, TermV::CondBr(branch_val, then_bb, else_bb));
            assert(going(np, first, st));
            let st = set_cur_s(st, then_bb);
            assert(going(np, first, st));
            lemma_lower_stmt(np, st, *then_branch);
            let st = lower_stmt_s(st, *then_branch);
            assert(going(np, first, st));
            let st = terminate_s(st, TermV::Br(merge_bb));
            assert(going(np, first, st));
            let st = set_cur_s(st, else_bb);
            assert(going(np, first, st));
            match else_branch {
                Some(x) => {
                    lemma_lower_stmt(np, st, *x);
                },
                None => {},
            }
        },
        _ => {},
    }
}

proof fn lemma_lower_while(np: nat, st: LwState, s: Stmt)
    requires
        fit(np, st),
    ensures
        walked_on(np, st, lower_while_s(st, s)),
    decreases s, 8nat,
{
    broadcast use {group_grow, group_sound};

    let first = st;
    match s {
        Stmt::While { cond, body, .. } => {
            let (st, cond_bb) = alloc_block_s(st);
            assert(going(np, first, st));
            let (st, body_bb) = alloc_block_s(st);
            assert(going(np, first, st));
            let (st, exit_bb) = alloc_block_s(st);
            assert(going(np, first, st));
            let st = terminate_s(st, TermV::Br(cond_bb));
            assert(going(np, first, st));
            let st = set_cur_s(st, cond_bb);
            assert(going(np, first, st));
            lemma_condition(np, st, cond);
            let (st, branch_val) = condition_s(st, cond);
            assert(going(np, first, st));
            let st = terminate_s(st, TermV::CondBr(branch_val, body_bb, exit_bb));
            assert(going(np, first, st));
            let st = set_cur_s(st, body_bb);
            assert(going(np, first, st));
            let st = enter_s(st, CtrlCtx::Loop { break_bb: exit_bb, continue_bb: cond_bb });
            assert(going(np, first, st));
            lemma_lower_stmt(np, st, *body);
        },
        _ => {},
    }
}

proof fn lemma_lower_do_while(np: nat, st: LwState, s: Stmt)
    requires
        fit(np, st),
    ensures
        walked_on(np, st, lower_do_while_s(st, s)),
    decreases s, 8nat,
{
    broadcast use {group_grow, group_sound};

    let first = st;
    match s {
        Stmt::DoWhile { body, cond, .. } => {
            let (st, body_bb) = alloc_block_s(st);
            assert(going(np, first, st));
            let (st, cond_bb) = alloc_block_s(st);
            assert(going(np, first, st));
            let (st, exit_bb) = alloc_block_s(st);
            assert(going(np, first, st));
            let st = terminate_s(st, TermV::Br(body_bb));
            assert(going(np, first, st));
            let st = set_cur_s(st, body_bb);
            assert(going(np, first, st));
            let st = enter_s(st, CtrlCtx::Loop { break_bb: exit_bb, continue_bb: cond_bb });
            assert(going(np, first, st));
            lemma_lower_stmt(np, st, *body);
            let st = lower_stmt_s(st, *body);
            assert(going(np, first, st));
            let st = leave_s(st);
            assert(going(np, first, st));
            let st = terminate_s(st, TermV::Br(cond_bb));
            assert(going(np, first, st));
            let st = set_cur_s(st, cond_bb);
            assert(going(np, first, st));
            lemma_condition(np, st, cond);
        },
        _ => {},
    }
}

proof fn lemma_lower_for(np: nat, st: LwState, s: Stmt)
    requires
        fit(np, st),
    ensures
        walked_on(np, st, lower_for_s(st, s)),
    decreases s, 8nat,
{
    broadcast use {group_grow, group_sound};

    let first = st;
    match s {
        Stmt::For { init, cond, step, body, .. } => {
            let st = open_block_s(st);
            assert(going(np, first, st));
            match init {
                Some(i) => {
                    lemma_lower_stmt(np, st, *i);
                },
                None => {},
            }
            let st = match init {
                Some(i) => {
                    lower_stmt_s(st, *i)
                },
                None => {
                    st
                },
            };
            assert(going(np, first, st));
            let (st, cond_bb) = alloc_block_s(st);
            assert(going(np, first, st));
            let (st, body_bb) = alloc_block_s(st);
            assert(going(np, first, st));
            let (st, step_bb) = alloc_block_s(st);
            assert(going(np, first, st));
            let (st, exit_bb) = alloc_block_s(st);
            assert(going(np, first, st));
            let st = terminate_s(st, TermV::Br(cond_bb));
            assert(going(np, first, st));
            let st = set_cur_s(st, cond_bb);
            assert(going(np, first, st));
            match cond {
                Some(c) => {
                    lemma_condition(np, st, c);
                },
                None => {},
            }
            let st = match cond {
                Some(c) => {
                    let (st, branch_val) = condition_s(st, c);
                    terminate_s(st, TermV::CondBr(branch_val, body_bb, exit_bb))
                },
                None => {
                    terminate_s(st, TermV::Br(body_bb))
                },
            };
            assert(going(np, first, st));
            let st = set_cur_s(st, body_bb);
            assert(going(np, first, st));
            let st = enter_s(st, CtrlCtx::Loop { break_bb: exit_bb, continue_bb: step_bb });
            assert(going(np, first, st));
            lemma_lower_stmt(np, st, *body);
            let st = lower_stmt_s(st, *body);
            assert(going(np, first, st));
            let st = leave_s(st);
            assert(going(np, first, st));
            let st = terminate_s(st, TermV::Br(step_bb));
            assert(going(np, first, st));
            let st = set_cur_s(st, step_bb);
            assert(going(np, first, st));
            match step {
                Some(x) => {
                    lemma_lower_expr(np, st, x);
                },
                None => {},
            }
        },
        _ => {},
    }
}

proof fn lemma_alloc_blocks(np: nat, st: LwState, n: nat)
    requires
        sound(np, st.b),
    ensures
        ({
            let r = alloc_blocks_s(st, n);
            &&& used(np, st, r.0)
            &&& blocks_in(r.0.b.blocks.len(), r.1)
            &&& r.1.len() == n
        }),
    decreases n,
{
    broadcast use {group_grow, group_sound};

    if !(n == 0) {
        lemma_alloc_blocks(np, st, (n - 1) as nat);
    }
}

proof fn lemma_peel_case_labels(st: LwState, s: Stmt, bb: BlockId, seed: i64, k: i64, acc: CasesV)
    requires
        bb.0 < st.b.blocks.len(),
        cases_within(st.b.blocks.len(), acc),
    ensures
        ({
            let r = peel_case_labels_s(st, s, bb, seed, k, acc);
            &&& still(st, r.0)
            &&& cases_within(r.0.b.blocks.len(), r.1)
        }),
    decreases s,
{
    match s {
        Stmt::Case { value, stmt, span } => {
            let found = const_value(st.enums, value);
            let (st, v) = match found {
                Some(n) => {
                    (st, n)
                },
                None => {
                    let st = diag_unsupported_s(
                        st,
                        span,
                        "non-constant case label"@,
                        "value must be a compile-time integer constant"@,
                    );
                    (st, i64::MIN.wrapping_add(seed.wrapping_mul(1000)).wrapping_add(k))
                },
            };
            lemma_peel_case_labels(
                st,
                *stmt,
                bb,
                seed,
                k.wrapping_add(1),
                CasesV { cases: acc.cases.push((v, bb)), default: acc.default },
            );
        },
        Stmt::Default { stmt, .. } => {
            lemma_peel_case_labels(
                st,
                *stmt,
                bb,
                seed,
                k,
                CasesV { cases: acc.cases, default: Some(bb) },
            );
        },
        _ => {},
    }
}

proof fn lemma_collect_cases(st: LwState, ss: Seq<Stmt>, bbs: Seq<BlockId>, n: nat)
    requires
        blocks_in(st.b.blocks.len(), bbs),
        n <= bbs.len(),
    ensures
        ({
            let r = collect_cases_s(st, ss, bbs, n);
            &&& still(st, r.0)
            &&& cases_within(r.0.b.blocks.len(), r.1)
        }),
    decreases ss, n,
{
    if !(n == 0 || n > ss.len()) {
        lemma_collect_cases(st, ss, bbs, (n - 1) as nat);
        let (st, acc) = collect_cases_s(st, ss, bbs, (n - 1) as nat);
        lemma_peel_case_labels(st, ss[n - 1], bbs[n - 1], low_i64(n - 1), 0, acc);
    }
}

proof fn lemma_lower_inner(np: nat, st: LwState, s: Stmt)
    requires
        fit(np, st),
    ensures
        walked_on(np, st, lower_inner_s(st, s)),
    decreases s, 10nat,
{
    broadcast use {group_grow, group_sound};

    let first = st;
    match s {
        Stmt::Case { value, stmt, span } => {
            let found = const_value(st.enums, value);
            let st = match found {
                Some(_) => {
                    st
                },
                None => {
                    diag_unsupported_s(
                        st,
                        span,
                        "non-constant case label"@,
                        "value must be a compile-time integer constant"@,
                    )
                },
            };
            assert(going(np, first, st));
            lemma_lower_inner(np, st, *stmt);
        },
        Stmt::Default { stmt, .. } => {
            lemma_lower_inner(np, st, *stmt);
        },
        _ => {
            lemma_lower_stmt(np, st, s);
        },
    }
}

proof fn lemma_lower_arms(
    np: nat,
    st: LwState,
    ss: Seq<Stmt>,
    bbs: Seq<BlockId>,
    exit_bb: BlockId,
    n: nat,
)
    requires
        fit(np, st),
        blocks_in(st.b.blocks.len(), bbs),
        exit_bb.0 < st.b.blocks.len(),
        n <= bbs.len(),
    ensures
        walked_on(np, st, lower_arms_s(st, ss, bbs, exit_bb, n)),
    decreases ss, n,
{
    broadcast use {group_grow, group_sound};

    let first = st;
    if n > 0 && n <= ss.len() {
        lemma_lower_arms(np, st, ss, bbs, exit_bb, (n - 1) as nat);
        let st = lower_arms_s(st, ss, bbs, exit_bb, (n - 1) as nat);
        assert(going(np, first, st));
        let st = set_cur_s(st, bbs[n - 1]);
        assert(going(np, first, st));
        lemma_lower_inner(np, st, ss[n - 1]);
    }
}

proof fn lemma_lower_switch(np: nat, st: LwState, s: Stmt)
    requires
        fit(np, st),
    ensures
        walked_on(np, st, lower_switch_s(st, s)),
    decreases s, 8nat,
{
    broadcast use {group_grow, group_sound};

    let first = st;
    match s {
        Stmt::Switch { expr, body, .. } => {
            lemma_lower_expr(np, st, expr);
            let (st, (sv, _)) = lower_expr_s(st, expr);
            assert(going(np, first, st));
            let (st, exit_bb) = alloc_block_s(st);
            assert(going(np, first, st));
            match *body {
                Stmt::Block { stmts, .. } => {
                    lemma_alloc_blocks(np, st, stmts@.len());
                    let (st, bbs) = alloc_blocks_s(st, stmts@.len());
                    assert(going(np, first, st));
                    lemma_collect_cases(st, stmts@, bbs, stmts@.len());
                    let (st, acc) = collect_cases_s(st, stmts@, bbs, stmts@.len());
                    assert(going(np, first, st));
                    let default_target = match acc.default { Some(d) => d, None => exit_bb };
                    let st = terminate_s(st, TermV::Switch(sv, default_target, acc.cases));
                    assert(going(np, first, st));
                    let st = enter_s(st, CtrlCtx::Switch { break_bb: exit_bb });
                    assert(going(np, first, st));
                    lemma_lower_arms(np, st, stmts@, bbs, exit_bb, stmts@.len());
                },
                other => {
                    let (st, bb) = alloc_block_s(st);
                    assert(going(np, first, st));
                    lemma_peel_case_labels(st, *body, bb, 0, 0, no_cases());
                    let (st, acc) = peel_case_labels_s(st, *body, bb, 0, 0, no_cases());
                    assert(going(np, first, st));
                    let default_target = match acc.default { Some(d) => d, None => exit_bb };
                    let st = terminate_s(st, TermV::Switch(sv, default_target, acc.cases));
                    assert(going(np, first, st));
                    let st = enter_s(st, CtrlCtx::Switch { break_bb: exit_bb });
                    assert(going(np, first, st));
                    let st = set_cur_s(st, bb);
                    assert(going(np, first, st));
                    lemma_lower_inner(np, st, *body);
                },
            }
        },
        _ => {},
    }
}

proof fn lemma_fresh_cur(np: nat, st: LwState)
    requires
        sound(np, st.b),
    ensures
        used(np, st, fresh_cur_s(st)),
{
    broadcast use {group_grow, group_sound};

    reveal(fresh_cur_s);
}

proof fn lemma_lower_break(np: nat, st: LwState, span: Span)
    requires
        fit(np, st),
    ensures
        walked_on(np, st, lower_break_s(st, span)),
{
    broadcast use {group_grow, group_sound};

    reveal(lower_break_s);
    let first = st;
    let st = match break_target(st.ctrl) {
        Some(bb) => {
            terminate_s(st, TermV::Br(bb))
        },
        None => {
            let st = err_s(st, ECode::TypeError, span, "'break' used outside of a loop or switch"@);
            terminate_s(st, TermV::Ret(None))
        },
    };
    assert(going(np, first, st));
    lemma_fresh_cur(np, st);
}

proof fn lemma_lower_continue(np: nat, st: LwState, span: Span)
    requires
        fit(np, st),
    ensures
        walked_on(np, st, lower_continue_s(st, span)),
{
    broadcast use {group_grow, group_sound};

    reveal(lower_continue_s);
    lemma_continue_target(st.b.blocks.len(), st.ctrl);
    let first = st;
    let st = match continue_target(st.ctrl) {
        Some(bb) => {
            terminate_s(st, TermV::Br(bb))
        },
        None => {
            let st = err_s(st, ECode::TypeError, span, "'continue' used outside of a loop"@);
            terminate_s(st, TermV::Ret(None))
        },
    };
    assert(going(np, first, st));
    lemma_fresh_cur(np, st);
}

proof fn lemma_return_zero(np: nat, st: LwState)
    requires
        sound(np, st.b),
    ensures
        used(np, st, return_zero_s(st)),
{
    broadcast use {group_grow, group_sound};

    reveal(return_zero_s);
    let fr = st.fn_ret;
    if !(fr.void()) {
        lemma_zero_of(np, st, fr);
    }
}

proof fn lemma_lower_return(np: nat, st: LwState, expr: Option<Expr>, span: Span)
    requires
        sound(np, st.b),
    ensures
        used(np, st, lower_return_s(st, expr, span)),
{
    broadcast use {group_grow, group_sound};

    reveal(lower_return_s);
    let first = st;
    match expr {
        None => {},
        Some(x) => {
            lemma_lower_expr(np, st, x);
            let (st, (v, ty)) = lower_expr_s(st, x);
            assert(going(np, first, st));
            if (ty is Unknown) {
                lemma_return_zero(np, st);
            } else {
                if aggregate(ty) {
                    let st = diag_unsupported_s(
                        st,
                        span,
                        "whole-aggregate return"@,
                        "returning a struct/union/array by value has no BIR representation"@,
                    );
                    assert(going(np, first, st));
                    lemma_return_zero(np, st);
                } else {
                    let fr = st.fn_ret;
                    lemma_coerce_to(np, st, v, ty, fr);
                }
            }
        },
    }
    let st = match expr {
        None => {
            terminate_s(st, TermV::Ret(None))
        },
        Some(x) => {
            let (st, (v, ty)) = lower_expr_s(st, x);
            if (ty is Unknown) {
                return_zero_s(st)
            } else if aggregate(ty) {
                let st = diag_unsupported_s(
                    st,
                    span,
                    "whole-aggregate return"@,
                    "returning a struct/union/array by value has no BIR representation"@,
                );
                return_zero_s(st)
            } else {
                let fr = st.fn_ret;
                let (st, coerced) = coerce_to_s(st, v, ty, fr);
                terminate_s(st, TermV::Ret(Some(coerced)))
            }
        },
    };
    assert(going(np, first, st));
    lemma_fresh_cur(np, st);
}

proof fn lemma_lower_label(np: nat, st: LwState, name: Seq<char>)
    requires
        fit(np, st),
    ensures
        walked_on(np, st, lower_label_s(st, name)),
{
    broadcast use {group_grow, group_sound};

    reveal(lower_label_s);
}

proof fn lemma_lower_goto(np: nat, st: LwState, label: Seq<char>, span: Span)
    requires
        fit(np, st),
    ensures
        walked_on(np, st, lower_goto_s(st, label, span)),
{
    broadcast use {group_grow, group_sound};

    reveal(lower_goto_s);
    let first = st;
    let found = if st.labels.contains_key(label) { Some(st.labels[label]) } else { None };
    let st = match found {
        Some(bb) => {
            terminate_s(st, TermV::Br(bb))
        },
        None => {
            let st = err_s(st, ECode::UndefinedSymbol, span, label);
            terminate_s(st, TermV::Ret(None))
        },
    };
    assert(going(np, first, st));
    lemma_fresh_cur(np, st);
}

#[verifier::rlimit(60)]
proof fn lemma_lower_stmt(np: nat, st: LwState, s: Stmt)
    requires
        fit(np, st),
    ensures
        walked_on(np, st, lower_stmt_s(st, s)),
    decreases s, 9nat,
{
    broadcast use {group_grow, group_sound};

    let first = st;
    match s {
        Stmt::Expr { expr, .. } => {
            lemma_lower_expr(np, st, expr);
        },
        Stmt::Empty { .. } => {},
        Stmt::Block { stmts, .. } => {
            let st = open_block_s(st);
            assert(going(np, first, st));
            lemma_lower_stmts(np, st, stmts@, stmts@.len());
        },
        Stmt::Decl { decls, .. } => {
            lemma_lower_decls(np, st, decls@, decls@.len());
        },
        Stmt::If { .. } => {
            lemma_lower_if(np, st, s);
        },
        Stmt::While { .. } => {
            lemma_lower_while(np, st, s);
        },
        Stmt::DoWhile { .. } => {
            lemma_lower_do_while(np, st, s);
        },
        Stmt::For { .. } => {
            lemma_lower_for(np, st, s);
        },
        Stmt::Switch { .. } => {
            lemma_lower_switch(np, st, s);
        },
        Stmt::Case { stmt, .. } => {
            lemma_lower_stmt(np, st, *stmt);
        },
        Stmt::Default { stmt, .. } => {
            lemma_lower_stmt(np, st, *stmt);
        },
        Stmt::Break { span } => {
            lemma_lower_break(np, st, span);
        },
        Stmt::Continue { span } => {
            lemma_lower_continue(np, st, span);
        },
        Stmt::Return { expr, span } => {
            lemma_lower_return(np, st, expr, span);
        },
        Stmt::Label { name, stmt, .. } => {
            lemma_lower_label(np, st, name@);
            let st = lower_label_s(st, name@);
            assert(going(np, first, st));
            lemma_lower_stmt(np, st, *stmt);
        },
        Stmt::Goto { label, span } => {
            lemma_lower_goto(np, st, label@, span);
        },
    }
}

proof fn lemma_resolve_fields(st: LwState, fs: Seq<FieldDecl>, n: nat)
    ensures
        still(st, resolve_fields_s(st, fs, n).0),
    decreases n,
{
    if !(n == 0 || n > fs.len()) {
        lemma_resolve_fields(st, fs, (n - 1) as nat);
        let (st, v) = resolve_fields_s(st, fs, (n - 1) as nat);
        lemma_resolve_type(st, fs[n - 1].ty);
    }
}

proof fn lemma_lower_variants(st: LwState, vs: Seq<EnumVariant>, n: nat, ty: TyV)
    ensures
        still(st, lower_variants_s(st, vs, n, ty).0),
    decreases n,
{
    if !(n == 0 || n > vs.len()) {
        lemma_lower_variants(st, vs, (n - 1) as nat, ty);
    }
}

proof fn lemma_lower_enum_decl(st: LwState, d: EnumDecl)
    ensures
        still(st, lower_enum_decl_s(st, d)),
{
    reveal(lower_enum_decl_s);
    let (st, enum_ty) = match d.name {
        Some(name) => {
            let st = LwState { scopes: with_enum(st.scopes, name@), ..st };
            (st, TyV::Enum(name@))
        },
        None => {
            (st, TyV::Scalar(ScalarKind::Int))
        },
    };
    lemma_lower_variants(st, d.variants@, d.variants@.len(), enum_ty);
}

proof fn lemma_lower_global_var(st: LwState, v: VarDecl)
    ensures
        still(st, lower_global_var_s(st, v)),
{
    reveal(lower_global_var_s);
    lemma_resolve_type(st, v.ty);
}

proof fn lemma_resolve_params(st: LwState, ps: Seq<ParamDecl>, n: nat)
    ensures
        still(st, resolve_params_s(st, ps, n).0),
    decreases n,
{
    if !(n == 0 || n > ps.len()) {
        lemma_resolve_params(st, ps, (n - 1) as nat);
        let (st, v) = resolve_params_s(st, ps, (n - 1) as nat);
        lemma_resolve_type(st, ps[n - 1].ty);
    }
}

proof fn lemma_lower_params(np: nat, st: LwState, ps: Seq<ParamDecl>, tys: Seq<TyV>, n: nat)
    requires
        fit(np, st),
        np == tys.len(),
    ensures
        walked_on(np, st, lower_params_s(st, ps, tys, n)),
    decreases n,
{
    broadcast use {group_grow, group_sound};

    reveal(low_u32);
    let first = st;
    if n > 0 && n <= ps.len() {
        lemma_lower_params(np, st, ps, tys, (n - 1) as nat);
        let st = lower_params_s(st, ps, tys, (n - 1) as nat);
        assert(going(np, first, st));
        if n <= tys.len() {
            match ps[n - 1].name {
                Some(name) => {
                    let pty = tys[n - 1];
                    let (st, slot) = new_slot_s(st, pty, AddrSpace::Param);
                    assert(going(np, first, st));
                    let st = bind_local_s(st, name@, slot);
                    assert(going(np, first, st));
                    if !aggregate(pty) && !(pty is Unknown) {
                        lemma_slot_lvalue(np, st, slot);
                        let (st, lv) = slot_lvalue_s(st, slot);
                        assert(going(np, first, st));
                        lemma_store_addr(np, st, lv, ValRef::Param(low_u32(n - 1)));
                    }
                },
                None => {},
            }
        }
    }
}

proof fn lemma_close_fallthrough(np: nat, st: LwState)
    requires
        sound(np, st.b),
    ensures
        used(np, st, close_fallthrough_s(st)),
{
    broadcast use {group_grow, group_sound};

    reveal(close_fallthrough_s);
    let fr = st.fn_ret;
    if !(fr.void()) {
        if !(aggregate(fr)) {
            lemma_zero_of(np, st, fr);
        }
    }
}

proof fn lemma_alloc_labels(np: nat, st: LwState, n: nat, names: Seq<Seq<char>>)
    requires
        fit(np, st),
    ensures
        fit(np, alloc_labels_s(st, n, names)),
        going(np, st, alloc_labels_s(st, n, names)),
        alloc_labels_s(st, n, names).ctrl == st.ctrl,
        alloc_labels_s(st, n, names).funcs == st.funcs,
    decreases n,
{
    broadcast use group_sound;

    if n > 0 && n <= names.len() {
        lemma_alloc_labels(np, st, (n - 1) as nat, names);
        let st = alloc_labels_s(st, (n - 1) as nat, names);
        let (st, _) = alloc_block_s(st);
        assert(sound(np, st.b));
    }
}

// ---- functions -----------------------------------------------------------------------------

/// Whether every function of a list is made of a sound one.
#[verifier::opaque]
pub open spec fn all_sound(funcs: Seq<FunctionV>) -> bool {
    forall|k: int| 0 <= k < funcs.len() ==> from_sound(#[trigger] funcs[k])
}

proof fn lemma_function_body(
    st: LwState,
    f: FunctionDecl,
    ret: TyV,
    param_tys: Seq<TyV>,
    body: Seq<Stmt>,
)
    requires
        all_sound(st.funcs),
    ensures
        all_sound(lower_function_body_s(st, f, ret, param_tys, body).funcs),
{
    broadcast use group_sound;

    reveal(lower_function_body_s);
    reveal(all_sound);
    let np = param_tys.len();
    let old_funcs = st.funcs;
    let result = lower_function_body_s(st, f, ret, param_tys, body);
    let st = LwState {
        b: empty_build(),
        locals: Seq::empty(),
        next_slot: 0,
        ctrl: Seq::empty(),
        labels: Map::empty(),
        fn_ret: ret,
        ..st
    };
    let st = open_block_s(st);
    let (st, entry) = alloc_block_s(st);
    let st = set_cur_s(st, entry);
    lemma_sound_start(np);
    assert(fit(np, st));
    lemma_alloc_labels(np, st, labels_of(body).len(), labels_of(body));
    lemma_labels_keep(st, labels_of(body).len(), labels_of(body));
    let st = alloc_labels_s(st, labels_of(body).len(), labels_of(body));
    lemma_lower_params(np, st, f.params@, param_tys, f.params@.len());
    lemma_params_keep(st, f.params@, param_tys, f.params@.len());
    let st = lower_params_s(st, f.params@, param_tys, f.params@.len());
    lemma_lower_stmts(np, st, body, body.len());
    lemma_stmts_keep(st, body, body.len());
    let st = lower_stmts_s(st, body, body.len());
    lemma_close_fallthrough(np, st);
    lemma_fallthrough_keeps(st);
    let st = close_fallthrough_s(st);
    let g = result.funcs.last();
    assert(result.funcs == old_funcs.push(g));
    assert(built(st.b) == (g.blocks, g.insts));
    assert(from_sound(g));
}

proof fn lemma_lower_items(st: LwState, items: Seq<Item>, n: nat)
    requires
        all_sound(st.funcs),
    ensures
        all_sound(lower_items_s(st, items, n).funcs),
    decreases items, n,
{
    if n > 0 && n <= items.len() {
        lemma_lower_items(st, items, (n - 1) as nat);
        lemma_lower_item(lower_items_s(st, items, (n - 1) as nat), items[n - 1]);
    }
}

proof fn lemma_lower_item(st: LwState, item: Item)
    requires
        all_sound(st.funcs),
    ensures
        all_sound(lower_item_s(st, item).funcs),
    decreases item, 9nat,
{
    match item {
        Item::Struct(d) => lemma_resolve_fields(st, d.fields@, d.fields@.len()),
        Item::Union(d) => lemma_resolve_fields(st, d.fields@, d.fields@.len()),
        Item::Enum(d) => lemma_lower_enum_decl(st, d),
        Item::Typedef(d) => lemma_resolve_type(st, d.ty),
        Item::Namespace(ns) => {
            let st = LwState { scopes: st.scopes.push(empty_scope()), ..st };
            lemma_lower_items(st, ns.items@, ns.items@.len());
        },
        Item::Function(f) => {
            reveal(lower_function_item_s);
            lemma_resolve_type(st, f.ret);
            let (st, ret) = resolve_type_s(st, f.ret);
            lemma_resolve_params(st, f.params@, f.params@.len());
            let (st, tys) = resolve_params_s(st, f.params@, f.params@.len());
            let sig = ValueSymV::Func(
                FuncSigV {
                    ret,
                    params: tys,
                    variadic: f.variadic,
                    is_kernel: f.cuda_quals.is_global,
                },
            );
            let st = LwState { scopes: with_value(st.scopes, f.name@, sig), ..st };
            if let Some(body) = f.body {
                lemma_function_body(st, f, ret, tys, body@);
            }
        },
        Item::Var(v) => lemma_lower_global_var(st, v),
        Item::Template(_) => {},
    }
}

// ---- laws ----------------------------------------------------------------------------------

/// Every function that lowering gives is made of one whose instructions use parameters and
/// instructions made before them, and whose blocks go to blocks that there are.
pub proof fn law_lowered_functions_are_sound(tu: TranslationUnit)
    ensures
        all_sound(lowered(tu).0.funcs),
{
    reveal(all_sound);
    lemma_lower_items(start_state(), tu.items@, tu.items@.len());
}

/// In every function that lowering gives, operands and branches stay inside the function.
pub proof fn law_lowered_functions_are_joined_up(tu: TranslationUnit, k: int)
    requires
        0 <= k < lowered(tu).0.funcs.len(),
    ensures
        joined_up(lowered(tu).0.funcs[k]),
{
    law_lowered_functions_are_sound(tu);
    reveal(all_sound);
    law_sound_is_joined_up(lowered(tu).0.funcs[k]);
}

} // verus!
