//! The rules of CUDA C for statements and declarations, and that checking keeps to them.

use vstd::prelude::*;

use crate::diag::{ECode, Span};
use crate::sema::c_ast::{
    CudaQualifiers, EnumVariant, Expr, FunctionDecl, ScalarKind, Stmt, VarDecl,
};
use crate::sema::checker::{
    check_condition_s, check_function_cuda_quals_s, check_loop_body_s, check_stmt_s, check_stmts_s,
    check_var_cuda_quals_s, check_var_decl_s, check_variants_s, close_scope_s, declare_s,
    open_scope_s, CkState,
};
use crate::sema::scope::{find_value, ValueSymV};
use crate::sema::ty::TyV;
use crate::sema::typing::{
    address, law_const_of_a_type, law_declared_types, law_takes, lemma_type_of, number, reported,
    says_const, stands_for, takes, typing, whole_number,
};

verus! {

/// Nothing changes where all is fine, and else a report of a code is added.
pub open spec fn reports_unless(fine: bool, a: CkState, b: CkState, code: ECode) -> bool {
    if fine {
        b == a
    } else {
        reported(a, b, code)
    }
}

proof fn lemma_drop(a: CkState, b: CkState)
    requires
        b.diags.len() == a.diags.len() + 1,
        forall|i: int| 0 <= i < a.diags.len() ==> b.diags[i] == a.diags[i],
    ensures
        b.diags.drop_last() == a.diags,
{
    assert(b.diags.drop_last() =~= a.diags);
}

/// A condition is a number or a pointer.
pub proof fn law_condition(st: CkState, e: Expr)
    requires
        typing(st.scopes, e) is Some,
    ensures
        ({
            let t = typing(st.scopes, e)->Some_0.0;
            reports_unless(
                number(t) || address(t),
                st,
                check_condition_s(st, e),
                ECode::TypeError,
            )
        }),
{
    lemma_type_of(st, e);
    let t = typing(st.scopes, e)->Some_0.0;
    if !number(t) && !address(t) {
        lemma_drop(st, check_condition_s(st, e));
    }
}

/// `break` stands in a loop or a switch, and `continue` in a loop.
pub proof fn law_jumps_stand_inside(st: CkState, s: Stmt)
    ensures
        s is Break ==> reports_unless(
            st.in_loop || st.in_switch,
            st,
            check_stmt_s(st, s),
            ECode::TypeError,
        ),
        s is Continue ==> reports_unless(st.in_loop, st, check_stmt_s(st, s), ECode::TypeError),
{
    if check_stmt_s(st, s).diags.len() == st.diags.len() + 1 && (s is Break || s is Continue) {
        lemma_drop(st, check_stmt_s(st, s));
    }
}

/// The body of a loop is checked as inside a loop, and of a switch as inside a switch; behind it
/// that is as before.
pub proof fn law_bodies_are_inside(st: CkState, body: Stmt)
    ensures
        ({
            let inside = check_stmt_s(CkState { in_loop: true, ..st }, body);
            check_loop_body_s(st, body) == (CkState { in_loop: st.in_loop, ..inside })
        }),
{
}

/// A loop checks its condition and its body, in the order they run.
pub proof fn law_loops(st: CkState, s: Stmt)
    ensures
        s matches Stmt::While { cond, body, .. } ==> check_stmt_s(st, s) == check_loop_body_s(
            check_condition_s(st, cond),
            *body,
        ),
        s matches Stmt::DoWhile { body, cond, .. } ==> check_stmt_s(st, s) == check_condition_s(
            check_loop_body_s(st, *body),
            cond,
        ),
{
}

/// The value that a switch chooses by, and that of a label, is an integer.
pub proof fn law_switch_values(st: CkState, s: Stmt)
    ensures
        match s {
            Stmt::Switch { expr, body, .. } => typing(st.scopes, expr) matches Some(p) ==> exists|
                m: CkState,
            |
                #[trigger] reports_unless(whole_number(p.0), st, m, ECode::TypeError) && ({
                    let inside = check_stmt_s(CkState { in_switch: true, ..m }, *body);
                    check_stmt_s(st, s) == (CkState { in_switch: st.in_switch, ..inside })
                }),
            Stmt::Case { value, stmt, .. } => typing(st.scopes, value) matches Some(p) ==> exists|
                m: CkState,
            |
                #[trigger] reports_unless(whole_number(p.0), st, m, ECode::TypeError) && check_stmt_s(
                    st,
                    s,
                ) == check_stmt_s(m, *stmt),
            _ => true,
        },
{
    match s {
        Stmt::Switch { expr, body, .. } => {
            if typing(st.scopes, expr) is Some {
                lemma_type_of(st, expr);
                let t = typing(st.scopes, expr)->Some_0.0;
                let m = if !whole_number(t) {
                    crate::sema::checker::err_type_s(
                        st,
                        crate::sema::c_ast::expr_span(expr),
                        "switch expression must have an integer type"@,
                    )
                } else {
                    st
                };
                if !whole_number(t) {
                    lemma_drop(st, m);
                }
                assert(reports_unless(whole_number(t), st, m, ECode::TypeError));
            }
        },
        Stmt::Case { value, stmt, .. } => {
            if typing(st.scopes, value) is Some {
                lemma_type_of(st, value);
                let t = typing(st.scopes, value)->Some_0.0;
                let m = if !whole_number(t) {
                    crate::sema::checker::err_type_s(
                        st,
                        crate::sema::c_ast::expr_span(value),
                        "case label must be an integer constant"@,
                    )
                } else {
                    st
                };
                if !whole_number(t) {
                    lemma_drop(st, m);
                }
                assert(reports_unless(whole_number(t), st, m, ECode::TypeError));
            }
        },
        _ => {},
    }
}

/// What is returned may take the place of the type of the function; nothing counts as `void`.
pub proof fn law_return_type(st: CkState, s: Stmt, ret: TyV)
    requires
        s is Return,
        st.fn_ret == Some(ret),
        !(ret is Unknown),
    ensures
        match s {
            Stmt::Return { expr: Some(e), .. } => typing(st.scopes, e) matches Some(p)
                ==> reports_unless(takes(ret, p.0), st, check_stmt_s(st, s), ECode::TypeError),
            Stmt::Return { expr: None, .. } => reports_unless(
                takes(ret, TyV::Scalar(ScalarKind::Void)),
                st,
                check_stmt_s(st, s),
                ECode::TypeError,
            ),
            _ => true,
        },
{
    match s {
        Stmt::Return { expr: Some(e), .. } => {
            if typing(st.scopes, e) is Some {
                lemma_type_of(st, e);
                law_takes(ret, typing(st.scopes, e)->Some_0.0);
            }
        },
        _ => {
            law_takes(ret, TyV::Scalar(ScalarKind::Void));
        },
    }
    if check_stmt_s(st, s).diags.len() == st.diags.len() + 1 {
        assert(check_stmt_s(st, s).diags.drop_last() =~= st.diags || (s matches Stmt::Return {
            expr: Some(e),
            ..
        } && typing(st.scopes, e) is None));
    }
}

/// A `goto` leads to a label of the function.
pub proof fn law_goto_label(st: CkState, s: Stmt)
    requires
        s is Goto,
    ensures
        reports_unless(
            st.labels.contains(s->Goto_label@),
            st,
            check_stmt_s(st, s),
            ECode::UndefinedSymbol,
        ),
{
    if !st.labels.contains(s->Goto_label@) {
        lemma_drop(st, check_stmt_s(st, s));
    }
}

/// A second value of one name in one scope is reported; the new one stands either way.
pub proof fn law_declaration(st: CkState, span: Span, name: Seq<char>, sym: ValueSymV)
    requires
        st.scopes.len() > 0,
    ensures
        ({
            let end = declare_s(st, span, name, sym);
            &&& find_value(end.scopes, name) == Some(sym)
            &&& st.scopes.last().values.contains_key(name) <==> end.diags.len() == st.diags.len()
                + 1
            &&& !st.scopes.last().values.contains_key(name) ==> end.diags == st.diags
            &&& st.scopes.last().values.contains_key(name) ==> end.diags.last().code
                == ECode::Redefinition
        }),
{
}

/// A variable has the type that its declaration stands for and is `const` where that says so; a
/// value that it starts with may take the place of the type, or is reported.
pub proof fn law_variable(st: CkState, v: VarDecl)
    requires
        st.scopes.len() > 0,
        no_clash(v.cuda_quals),
        stands_for(st.scopes, v.ty) is Some,
        v.init matches Some(e) ==> typing(st.scopes, e) is Some,
        !st.scopes.last().values.contains_key(v.name@),
    ensures
        ({
            let t = stands_for(st.scopes, v.ty)->0;
            let end = check_var_decl_s(st, v);
            let fine = v.init matches Some(e) ==> takes(t, typing(st.scopes, e)->Some_0.0);
            &&& find_value(end.scopes, v.name@) == Some(ValueSymV::Var(t, says_const(v.ty)))
            &&& fine ==> end.diags == st.diags
            &&& !fine ==> end.diags.len() == st.diags.len() + 1 && end.diags.last().code
                == ECode::TypeError
        }),
{
    law_declared_types(st, v.ty);
    law_const_of_a_type(v.ty);
    let t = stands_for(st.scopes, v.ty)->0;
    crate::sema::typing::lemma_known_type(st.scopes, v.ty);
    match v.init {
        Some(e) => {
            lemma_type_of(st, e);
            law_takes(t, typing(st.scopes, e)->Some_0.0);
        },
        None => {},
    }
}

/// Whether the qualifiers of a variable go together: at most one memory, and none of a function.
pub open spec fn no_clash(q: CudaQualifiers) -> bool {
    &&& !q.is_global
    &&& !q.is_host
    &&& !(q.is_shared && q.is_constant)
    &&& !(q.is_shared && q.is_device)
    &&& !(q.is_constant && q.is_device)
}

/// Qualifiers of a variable that do not go together are reported, and others are not.
pub proof fn law_variable_qualifiers(st: CkState, v: VarDecl)
    ensures
        no_clash(v.cuda_quals) <==> check_var_cuda_quals_s(st, v) == st,
        ({
            let end = check_var_cuda_quals_s(st, v);
            !no_clash(v.cuda_quals) ==> st.diags.len() < end.diags.len() && end.diags.last().code
                == ECode::InvalidCudaQualifier
        }),
{
}

/// Whether the qualifiers of a function go together: no memory, a kernel neither for the host nor
/// for the device and without a result.
pub open spec fn fine_function(q: CudaQualifiers, ret: TyV) -> bool {
    &&& !q.is_shared
    &&& !q.is_constant
    &&& q.is_global ==> !q.is_device && !q.is_host && (ret == TyV::Scalar(ScalarKind::Void) || ret
        is Unknown)
}

/// Qualifiers of a function that do not go together are reported, and others are not.
pub proof fn law_function_qualifiers(st: CkState, f: FunctionDecl, ret: TyV)
    ensures
        fine_function(f.cuda_quals, ret) <==> check_function_cuda_quals_s(st, f, ret) == st,
        ({
            let end = check_function_cuda_quals_s(st, f, ret);
            !fine_function(f.cuda_quals, ret) ==> st.diags.len() < end.diags.len()
                && end.diags.last().code == ECode::InvalidCudaQualifier
        }),
{
}

/// An enumerator is known by its name as a constant of the enumeration; a value that it is given is
/// an integer, or is reported.
pub proof fn law_enumerator(st: CkState, vs: Seq<EnumVariant>, n: nat, ty: TyV)
    requires
        0 < n <= vs.len(),
        ({
            let before = check_variants_s(st, vs, (n - 1) as nat, ty);
            &&& before.scopes.len() > 0
            &&& !before.scopes.last().values.contains_key(vs[n - 1].name@)
            &&& vs[n - 1].init matches Some(e) ==> typing(before.scopes, e) is Some
        }),
    ensures
        ({
            let before = check_variants_s(st, vs, (n - 1) as nat, ty);
            let end = check_variants_s(st, vs, n, ty);
            let fine = vs[n - 1].init matches Some(e) ==> whole_number(
                typing(before.scopes, e)->Some_0.0,
            );
            &&& find_value(end.scopes, vs[n - 1].name@) == Some(ValueSymV::EnumConst(ty))
            &&& fine ==> end.diags == before.diags
            &&& !fine ==> end.diags.len() == before.diags.len() + 1 && end.diags.last().code
                == ECode::TypeError
        }),
{
    let before = check_variants_s(st, vs, (n - 1) as nat, ty);
    match vs[n - 1].init {
        Some(e) => {
            lemma_type_of(before, e);
        },
        None => {},
    }
}

/// The branches of an `if` are checked behind its condition, one after the other; a block is a
/// scope of its own.
pub proof fn law_branches_and_blocks(st: CkState, s: Stmt)
    ensures
        s matches Stmt::If { cond, then_branch, else_branch, .. } ==> ({
            let m = check_stmt_s(check_condition_s(st, cond), *then_branch);
            check_stmt_s(st, s) == match else_branch {
                Some(e) => check_stmt_s(m, *e),
                None => m,
            }
        }),
        s matches Stmt::Block { stmts, .. } ==> check_stmt_s(st, s) == close_scope_s(
            check_stmts_s(open_scope_s(st), stmts@, stmts@.len()),
        ),
{
}

} // verus!
