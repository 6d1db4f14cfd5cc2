//! What the declarations of CUDA C become: types, variables, parameters and functions.

use vstd::prelude::*;

use crate::bir::{AddrSpace, InstV, OpV, Scalar, Ty as BTy, ValRef};
use crate::bits::{low_i64, low_u32};
use crate::diag::Span;
use crate::sema::c_ast::{Expr, FunctionDecl, ParamDecl, ScalarKind, Type, VarDecl};
use crate::sema::c_exprs::{law_reading_and_writing, reads, writes};
use crate::sema::c_meaning::{converted, in_range, law_conversion, law_machine_types, machine};
use crate::sema::lower::{
    array_in, bind_local_s, bir_tys, coerce_to_s, load_addr_s, local_in, lower_cast_s,
    lower_comma_s, lower_expr_s, lower_function_body_s, lower_ident_value_s, lower_params_s,
    lower_var_decl_s, new_slot_s, placeholder_s, resolve_named_s, resolve_tag_s, resolve_type_s,
    size_constant_s, size_s, slot_lvalue_s, start_state, store_addr_s, value_of_lvalue_s, LwState,
    SlotV,
};
use crate::sema::meaning::{agrees, World};
use crate::sema::ty::TyV;
use crate::sema::typing::{law_const_of_a_type, lemma_known_type, number, stands_for};

verus! {

// ---- types ---------------------------------------------------------------------------------

/// A declared type stands for the same type here as where it was checked.
pub proof fn law_types_as_checked(st: LwState, ty: Type)
    requires
        stands_for(st.scopes, ty) is Some,
    ensures
        resolve_type_s(st, ty) == (st, stands_for(st.scopes, ty)->0),
    decreases ty,
{
    reveal(resolve_tag_s);
    reveal(resolve_named_s);
    match ty {
        Type::Pointer { pointee, .. } => {
            law_types_as_checked(st, *pointee);
            law_const_of_a_type(*pointee);
        },
        Type::Array { elem, .. } => {
            law_types_as_checked(st, *elem);
        },
        _ => {},
    }
}

// ---- variables -----------------------------------------------------------------------------

/// A variable has a new cell of its own, in shared memory, constant memory or that of the thread as
/// it is declared. A value that it starts with is converted to its type and written to the cell.
pub proof fn law_variable_cell(st: LwState, v: VarDecl)
    requires
        st.locals.len() > 0,
        stands_for(st.scopes, v.ty) is Some,
        ({
            let t = stands_for(st.scopes, v.ty)->0;
            number(t) || t is Pointer
        }),
    ensures
        ({
            let t = stands_for(st.scopes, v.ty)->0;
            let cell = SlotV {
                slot: st.next_slot,
                ty: t,
                space: if v.cuda_quals.is_shared {
                    AddrSpace::Shared
                } else if v.cuda_quals.is_constant {
                    AddrSpace::Constant
                } else {
                    AddrSpace::Local
                },
            };
            let bound = bind_local_s(new_slot_s(st, t, cell.space).0, v.name@, cell);
            let end = lower_var_decl_s(st, v);
            &&& local_in(bound.locals, v.name@) == Some(cell)
            &&& bound.b == st.b
            &&& v.init is None ==> end == bound
            &&& v.init matches Some(x) ==> ({
                let (s1, (iv, ity)) = lower_expr_s(bound, x);
                !(ity is Unknown) ==> ({
                    let (s2, c) = coerce_to_s(s1, iv, ity, t);
                    let (s3, lv) = slot_lvalue_s(s2, cell);
                    &&& end.b.insts.drop_last() == s3.b.insts
                    &&& writes(end.b.insts.last(), lv, c)
                    &&& end.locals == s1.locals
                })
            })
        }),
{
    reveal(lower_var_decl_s);
    law_types_as_checked(st, v.ty);
    lemma_known_type(st.scopes, v.ty);
    let t = stands_for(st.scopes, v.ty)->0;
    let space = if v.cuda_quals.is_shared {
        AddrSpace::Shared
    } else if v.cuda_quals.is_constant {
        AddrSpace::Constant
    } else {
        AddrSpace::Local
    };
    let cell = SlotV { slot: st.next_slot, ty: t, space };
    let bound = bind_local_s(new_slot_s(st, t, space).0, v.name@, cell);
    match v.init {
        Some(x) => {
            let (s1, (iv, ity)) = lower_expr_s(bound, x);
            if !(ity is Unknown) {
                let (s2, c) = coerce_to_s(s1, iv, ity, t);
                assert(s2.locals == s1.locals) by {
                    reveal(coerce_to_s);
                }
                let (s3, lv) = slot_lvalue_s(s2, cell);
                assert(lv.ty == t && s3.locals == s2.locals) by {
                    reveal(slot_lvalue_s);
                    reveal(crate::sema::lower::slot_addr_s);
                }
                law_reading_and_writing(s3, lv, c);
                assert(lower_var_decl_s(st, v) == store_addr_s(s3, lv, c));
                reveal(store_addr_s);
            }
        },
        None => {},
    }
}

/// A parameter with a name has a new cell of its own, and what was passed in its place is written
/// there.
pub proof fn law_parameter_cell(st: LwState, ps: Seq<ParamDecl>, tys: Seq<TyV>, n: nat)
    requires
        0 < n <= ps.len(),
        n <= 0xffff_ffff,
        tys.len() == ps.len(),
        ps[n - 1].name is Some,
        number(tys[n - 1]) || tys[n - 1] is Pointer,
        lower_params_s(st, ps, tys, (n - 1) as nat).locals.len() > 0,
    ensures
        ({
            let before = lower_params_s(st, ps, tys, (n - 1) as nat);
            let end = lower_params_s(st, ps, tys, n);
            let cell = SlotV {
                slot: before.next_slot,
                ty: tys[n - 1],
                space: AddrSpace::Param,
            };
            let (s1, lv) = slot_lvalue_s(before, cell);
            &&& local_in(end.locals, ps[n - 1].name->0@) == Some(cell)
            &&& end.b.insts.drop_last() == s1.b.insts
            &&& writes(end.b.insts.last(), lv, ValRef::Param((n - 1) as u32))
        }),
{
    reveal(low_u32);
    reveal(slot_lvalue_s);
    reveal(crate::sema::lower::slot_addr_s);
    let before = lower_params_s(st, ps, tys, (n - 1) as nat);
    let end = lower_params_s(st, ps, tys, n);
    let cell = SlotV { slot: before.next_slot, ty: tys[n - 1], space: AddrSpace::Param };
    let bound = bind_local_s(
        new_slot_s(before, tys[n - 1], AddrSpace::Param).0,
        ps[n - 1].name->0@,
        cell,
    );
    let (s1, lv) = slot_lvalue_s(bound, cell);
    assert(slot_lvalue_s(before, cell).1 == lv);
    assert(slot_lvalue_s(before, cell).0.b == s1.b);
    law_reading_and_writing(s1, lv, ValRef::Param((n - 1) as u32));
    assert(end == store_addr_s(s1, lv, ValRef::Param((n - 1) as u32)));
    assert(end.locals == bound.locals) by {
        reveal(store_addr_s);
    }
}

/// The name of a variable is what stands in its cell, and that of an enumerator its number.
pub proof fn law_name(st: LwState, e: Expr)
    requires
        e is Ident,
    ensures
        ({
            let name = e->Ident_name@;
            let (end, (v, t)) = lower_expr_s(st, e);
            match local_in(st.locals, name) {
                Some(cell) => number(cell.ty) || cell.ty is Pointer ==> ({
                    let (s1, lv) = slot_lvalue_s(st, cell);
                    &&& t == cell.ty
                    &&& end.b.insts.drop_last() == s1.b.insts
                    &&& reads(end.b.insts.last(), lv)
                }),
                None => st.enums.contains_key(name) && !crate::sema::checker::dim3_name(name) ==> ({
                    &&& t == TyV::Scalar(ScalarKind::Int)
                    &&& end.b.insts.drop_last() == st.b.insts
                    &&& end.b.insts.last() == (InstV {
                        ty: BTy::Scalar(Scalar::I32),
                        op: OpV::ConstInt(st.enums[name]),
                    })
                }),
            }
        }),
{
    reveal(lower_ident_value_s);
    reveal(value_of_lvalue_s);
    let name = e->Ident_name@;
    let end = lower_expr_s(st, e).0;
    match local_in(st.locals, name) {
        Some(cell) => {
            let (s1, lv) = slot_lvalue_s(st, cell);
            assert(lv.ty == cell.ty) by {
                reveal(slot_lvalue_s);
            }
            if number(cell.ty) || cell.ty is Pointer {
                law_reading_and_writing(s1, lv, ValRef::Param(0));
                assert(lower_expr_s(st, e) == load_addr_s(s1, lv));
            }
        },
        None => {
            if st.enums.contains_key(name) && !crate::sema::checker::dim3_name(name) {
                assert(end.b.insts.drop_last() =~= st.b.insts);
            }
        },
    }
}

// ---- expressions on types ------------------------------------------------------------------

/// A cast evaluates its operand and converts the value to the type.
pub proof fn law_cast(w: World, st: LwState, e: Expr, vals: spec_fn(ValRef) -> int)
    requires
        e matches Expr::Cast { ty, expr, .. } && stands_for(st.scopes, ty) is Some && number(
            stands_for(st.scopes, ty)->0,
        ) && ({
            let (s1, (v, t)) = lower_expr_s(st, *expr);
            &&& number(t)
            &&& in_range(t, vals(v))
            &&& agrees(w, lower_expr_s(st, e).0.b.insts, s1.b.insts.len(), vals)
        }),
    ensures
        e matches Expr::Cast { ty, expr, .. } && ({
            let (s1, (v, t)) = lower_expr_s(st, *expr);
            let (end, (r, u)) = lower_expr_s(st, e);
            &&& Some(u) == stands_for(st.scopes, ty)
            &&& vals(r) == converted(w.floats, t, u, vals(v))
        }),
{
    match e {
        Expr::Cast { ty, expr, .. } => {
            law_types_as_checked(st, ty);
            let (s1, (v, t)) = lower_expr_s(st, *expr);
            assert(lower_expr_s(st, e) == lower_cast_s(st, e));
            law_conversion(w, s1, v, t, stands_for(st.scopes, ty)->0, vals);
        },
        _ => {},
    }
}

/// `sizeof` is the number of bytes of the type, an unsigned `long`; one with an array in it, whose
/// length is not known, is reported.
pub proof fn law_sizeof(st: LwState, t: TyV, span: Span)
    requires
        !(t is Unknown),
        size_s(st, t) < 0x8000_0000_0000_0000,
    ensures
        ({
            let (end, (v, u)) = size_constant_s(st, t, span);
            &&& u == TyV::Scalar(ScalarKind::ULong)
            &&& end.b.insts.drop_last() == st.b.insts
            &&& end.b.insts.last().ty == BTy::Scalar(Scalar::I64)
            &&& end.b.insts.last().op matches OpV::ConstInt(n) && n == size_s(st, t)
            &&& end.diags.len() == st.diags.len() + if array_in(st.scopes, st.tags as nat, t) {
                1int
            } else {
                0int
            }
        }),
{
    reveal(size_constant_s);
    reveal(low_i64);
    assert(size_constant_s(st, t, span).0.b.insts.drop_last() =~= st.b.insts);
}

/// `sizeof(type)` is that of the type.
pub proof fn law_sizeof_type(st: LwState, e: Expr)
    requires
        e matches Expr::SizeofType { ty, .. } && stands_for(st.scopes, ty) is Some,
    ensures
        e matches Expr::SizeofType { ty, span } && lower_expr_s(st, e) == size_constant_s(
            st,
            stands_for(st.scopes, ty)->0,
            span,
        ),
{
    law_types_as_checked(st, e->SizeofType_ty);
}

/// Two expressions with a comma between are evaluated one after the other, behind a zero that
/// nothing reads, and the value is that of the second.
pub proof fn law_comma(st: LwState, e: Expr)
    requires
        e matches Expr::Comma { exprs, .. } && exprs@.len() == 2,
    ensures
        e matches Expr::Comma { exprs, .. } && lower_expr_s(st, e) == lower_expr_s(
            lower_expr_s(placeholder_s(st).0, exprs@[0]).0,
            exprs@[1],
        ),
{
    match e {
        Expr::Comma { exprs, .. } => {
            let es = exprs@;
            assert(lower_comma_s(st, es, 0) == placeholder_s(st));
            assert(lower_comma_s(st, es, 1) == lower_expr_s(placeholder_s(st).0, es[0]));
            assert(lower_comma_s(st, es, 2) == lower_expr_s(lower_comma_s(st, es, 1).0, es[1]));
            assert(lower_expr_s(st, e) == lower_comma_s(st, es, es.len()));
        },
        _ => {},
    }
}

// ---- functions -----------------------------------------------------------------------------

/// A function with a body adds one function to the module: under its name, a kernel exactly where
/// it is `__global__`, with the machine types of its parameters and of its result.
pub proof fn law_function(
    st: LwState,
    f: FunctionDecl,
    ret: TyV,
    tys: Seq<TyV>,
    body: Seq<crate::sema::c_ast::Stmt>,
)
    ensures
        ({
            let end = lower_function_body_s(st, f, ret, tys, body);
            let g = end.funcs.last();
            &&& end.funcs.len() > 0
            &&& g.name == f.name@
            &&& g.is_kernel == f.cuda_quals.is_global
            &&& g.params.len() == tys.len()
            &&& forall|i: int|
                0 <= i < tys.len() && (number(#[trigger] tys[i]) || tys[i] is Pointer)
                    ==> g.params[i] == machine(tys[i])
            &&& number(ret) || ret is Pointer || ret == TyV::Scalar(ScalarKind::Void) ==> g.ret
                == machine(ret)
        }),
{
    reveal(lower_function_body_s);
    if number(ret) || ret is Pointer || ret == TyV::Scalar(ScalarKind::Void) {
        law_machine_types(ret);
    }
    assert forall|i: int|
        0 <= i < tys.len() && (number(#[trigger] tys[i]) || tys[i] is Pointer) implies bir_tys(
        tys,
    )[i] == machine(tys[i]) by {
        law_machine_types(tys[i]);
    }
}

/// The directions of a copy by the runtime are numbered from zero: host to host, host to device,
/// device to host, device to device, and by default.
pub proof fn law_copy_directions()
    ensures
        start_state().enums["cudaMemcpyHostToHost"@] == 0,
        start_state().enums["cudaMemcpyHostToDevice"@] == 1,
        start_state().enums["cudaMemcpyDeviceToHost"@] == 2,
        start_state().enums["cudaMemcpyDeviceToDevice"@] == 3,
        start_state().enums["cudaMemcpyDefault"@] == 4,
{
    reveal_strlit("cudaMemcpyHostToHost");
    reveal_strlit("cudaMemcpyHostToDevice");
    reveal_strlit("cudaMemcpyDeviceToHost");
    reveal_strlit("cudaMemcpyDeviceToDevice");
    reveal_strlit("cudaMemcpyDefault");
    assert("cudaMemcpyHostToHost"@.len() == 20);
    assert("cudaMemcpyHostToDevice"@.len() == 22);
    assert("cudaMemcpyDeviceToHost"@.len() == 22);
    assert("cudaMemcpyHostToDevice"@[10] != "cudaMemcpyDeviceToHost"@[10]);
    assert("cudaMemcpyDeviceToDevice"@.len() == 24);
    assert("cudaMemcpyDefault"@.len() == 17);
}

} // verus!
