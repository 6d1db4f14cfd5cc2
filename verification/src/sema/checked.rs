//! What checking keeps, whatever it finds: every problem that has been reported stays reported,
//! an expression declares nothing, and a scope that was opened is closed again.

use vstd::prelude::*;

use crate::diag::Span;
use crate::sema::c_ast::{
    expr_span, AssignOp, BinOp, EnumDecl, EnumVariant, Expr, FieldDecl, FloatLit, FunctionDecl,
    IntLit, Item, ParamDecl, ScalarKind, Stmt, StructDecl, TagKind, TranslationUnit, Type,
    TypedefDecl, UnaryOp, UnionDecl, VarDecl,
};
use crate::sema::checker::{
    binop_of, callable, check_args_s, check_assign_s, check_binary_s, check_call_s, check_comma_s,
    check_condition_s, check_decls_s, check_enum_decl_s, check_function_body_s,
    check_function_cuda_quals_s, check_function_item_s, check_ident_s, check_incdec_s,
    check_index_s, check_item_s, check_items_s, check_launch_config_dim_s, check_launch_s,
    check_list_s, check_loop_body_s, check_member_s, check_signature_s, check_stmt_s, check_stmts_s,
    check_struct_decl_s, check_ternary_s, check_typedef_decl_s, check_unary_s, check_union_decl_s,
    check_var_cuda_quals_s, check_var_decl_s, check_variants_s, const_at_top, const_reached,
    declare_params_s, declare_s, diagnostics, err_const_s, err_redef_s, err_type_s, err_undef_s,
    lvalue, member_of_s, open_scope_s, resolve_fields_s, resolve_named_s, resolve_params_s,
    resolve_tag_s, resolve_type_s, type_of_s, typed_s, with_device_builtins, with_runtime_api,
    CkState,
};
use crate::sema::grow::{extends, group_grow, nested};
use crate::sema::labels::labels_of;
use crate::sema::scope::{
    empty_scope, find_struct, find_typedef, with_enum, FuncSigV, ScopeV, ValueSymV,
};
use crate::sema::ty::{fits, TyV};
use crate::text::decimal;

verus! {

/// Whether checking went on from a state in another: what was reported stays, the outer scopes are
/// as they were, and the function, loop and switch are the same.
pub open spec fn followed(a: CkState, b: CkState) -> bool {
    &&& extends(a.diags, b.diags)
    &&& nested(a.scopes, b.scopes)
    &&& b.fn_ret == a.fn_ret
    &&& b.labels == a.labels
    &&& b.in_loop == a.in_loop
    &&& b.in_switch == a.in_switch
}

/// Whether nothing happened but that something may have been reported.
pub open spec fn said(a: CkState, b: CkState) -> bool {
    &&& extends(a.diags, b.diags)
    &&& b == CkState { diags: b.diags, ..a }
}

proof fn lemma_device_builtins(s: Seq<ScopeV>)
    requires
        s.len() > 0,
    ensures
        nested(s, with_device_builtins(s)),
{
    broadcast use group_grow;

}

// ---- every step ----------------------------------------------------------------------------

proof fn lemma_declare(st: CkState, span: Span, name: Seq<char>, sym: ValueSymV)
    requires
        st.scopes.len() > 0,
    ensures
        followed(st, declare_s(st, span, name, sym)),
{
    broadcast use group_grow;

}

proof fn lemma_type_of(st: CkState, e: Expr)
    ensures
        said(st, type_of_s(st, e).0),
    decreases e, 9nat,
{
    broadcast use group_grow;

    lemma_typed(st, e);
}

proof fn lemma_check_condition(st: CkState, cond: Expr)
    ensures
        said(st, check_condition_s(st, cond)),
    decreases cond, 10nat,
{
    broadcast use group_grow;

    lemma_type_of(st, cond);
}

proof fn lemma_resolve_tag(st: CkState, kind: TagKind, name: Seq<char>, span: Span)
    ensures
        said(st, resolve_tag_s(st, kind, name, span).0),
{
    broadcast use group_grow;

}

proof fn lemma_resolve_named(st: CkState, name: Seq<char>, span: Span)
    ensures
        said(st, resolve_named_s(st, name, span).0),
{
    broadcast use group_grow;

}

proof fn lemma_resolve_type(st: CkState, ty: Type)
    ensures
        said(st, resolve_type_s(st, ty).0),
    decreases ty, 9nat,
{
    broadcast use group_grow;

    let first = st;
    match ty {
        Type::Scalar { kind, .. } => {},
        Type::Tag { kind, name, span, .. } => {
            lemma_resolve_tag(st, kind, name@, span);
        },
        Type::Named { name, span, .. } => {
            lemma_resolve_named(st, name@, span);
        },
        Type::Pointer { pointee, .. } => {
            lemma_resolve_type(st, *pointee);
        },
        Type::Array { elem, size, .. } => {
            match size {
                Some(sz) => {
                    lemma_type_of(st, *sz);
                },
                None => {},
            }
            let st = match size {
                Some(sz) => {
                    let (st, _) = type_of_s(st, *sz);
                    st
                },
                None => {
                    st
                },
            };
            assert(extends(first.diags, st.diags));
            lemma_resolve_type(st, *elem);
        },
        Type::Instantiated { .. } => {},
    }
}

proof fn lemma_check_binary(st: CkState, op: BinOp, l: TyV, r2: TyV, span: Span)
    ensures
        said(st, check_binary_s(st, op, l, r2, span).0),
{
    broadcast use group_grow;

}

proof fn lemma_check_unary(st: CkState, op: UnaryOp, expr: Expr, span: Span)
    ensures
        said(st, check_unary_s(st, op, expr, span).0),
    decreases expr, 9nat,
{
    broadcast use group_grow;

    lemma_typed(st, expr);
}

proof fn lemma_check_incdec(st: CkState, inner: Expr, span: Span)
    ensures
        said(st, check_incdec_s(st, inner, span).0),
    decreases inner, 9nat,
{
    broadcast use group_grow;

    lemma_typed(st, inner);
}

proof fn lemma_check_assign(st: CkState, e: Expr)
    ensures
        said(st, check_assign_s(st, e).0),
    decreases e, 7nat,
{
    broadcast use group_grow;

    let first = st;
    match e {
        Expr::Assign { op, lhs, rhs, span } => {
            lemma_typed(st, *lhs);
            let (st, (lhs_ty, c)) = typed_s(st, *lhs);
            lemma_type_of(st, *rhs);
            let (st, rhs_ty) = type_of_s(st, *rhs);
            let st = if !(lvalue(*lhs) && !(lhs_ty is Array || lhs_ty is Function)) {
                err_type_s(
                    st,
                    expr_span(*lhs),
                    "assignment target is not a modifiable lvalue"@,
                )
            } else {
                st
            };
            assert(extends(first.diags, st.diags));
            let st = if c {
                err_const_s(st, expr_span(*lhs))
            } else {
                st
            };
            assert(extends(first.diags, st.diags));
            if !(op == AssignOp::Assign) {
                let bin = binop_of(op);
                lemma_check_binary(st, bin, lhs_ty, rhs_ty, span);
            }
        },
        _ => {},
    }
}

proof fn lemma_check_ternary(st: CkState, e: Expr)
    ensures
        said(st, check_ternary_s(st, e).0),
    decreases e, 7nat,
{
    broadcast use group_grow;

    match e {
        Expr::Ternary { cond, then_branch, else_branch, span } => {
            lemma_check_condition(st, *cond);
            let st = check_condition_s(st, *cond);
            lemma_type_of(st, *then_branch);
            let (st, tt) = type_of_s(st, *then_branch);
            lemma_type_of(st, *else_branch);
        },
        _ => {},
    }
}

proof fn lemma_check_args(st: CkState, name: Seq<char>, sig: FuncSigV, args: Seq<Expr>, i: nat)
    ensures
        said(st, check_args_s(st, name, sig, args, i)),
    decreases args, args.len() - i,
{
    broadcast use group_grow;

    let first = st;
    if i < args.len() {
        lemma_type_of(st, args[i as int]);
        let (st, at) = type_of_s(st, args[i as int]);
        let st = if i < sig.params.len() {
            let pt = sig.params[i as int];
            if !(at is Unknown) && !(pt is Unknown) && !fits(pt, at) {
                err_type_s(
                    st,
                    expr_span(args[i as int]),
                    "argument "@ + decimal(i + 1) + " to '"@ + name + "' has an incompatible type"@,
                )
            } else { st }
        } else { st };
        assert(extends(first.diags, st.diags));
        lemma_check_args(st, name, sig, args, i + 1);
    }
}

proof fn lemma_check_signature(
    st: CkState,
    name: Seq<char>,
    sig: FuncSigV,
    args: Seq<Expr>,
    span: Span,
)
    ensures
        said(st, check_signature_s(st, name, sig, args, span)),
    decreases args, args.len() + 1,
{
    broadcast use group_grow;

    let first = st;
    let st = if args.len() < sig.params.len() || (!sig.variadic && args.len() > sig.params.len()) {
        err_type_s(
            st,
            span,
            "call to '"@ + name + "' expects "@ + decimal(sig.params.len()) + " argument(s), got "@
                + decimal(args.len()),
        )
    } else {
        st
    };
    assert(extends(first.diags, st.diags));
    lemma_check_args(st, name, sig, args, 0);
}

proof fn lemma_check_list(st: CkState, es: Seq<Expr>, i: nat)
    ensures
        said(st, check_list_s(st, es, i)),
    decreases es, es.len() - i,
{
    broadcast use group_grow;

    if i < es.len() {
        lemma_type_of(st, es[i as int]);
        let (st, _) = type_of_s(st, es[i as int]);
        lemma_check_list(st, es, i + 1);
    }
}

proof fn lemma_check_comma(st: CkState, es: Seq<Expr>, n: nat)
    ensures
        said(st, check_comma_s(st, es, n).0),
    decreases es, n,
{
    broadcast use group_grow;

    if !(n == 0 || n > es.len()) {
        lemma_check_comma(st, es, (n - 1) as nat);
        let (st, _) = check_comma_s(st, es, (n - 1) as nat);
        lemma_type_of(st, es[n - 1]);
    }
}

proof fn lemma_check_call(st: CkState, e: Expr)
    ensures
        said(st, check_call_s(st, e).0),
    decreases e, 7nat,
{
    broadcast use group_grow;

    let first = st;
    match e {
        Expr::Call { callee, args, span } => {
            match *callee {
                Expr::Ident { name, span: ident_span } => {
                    let found = callable(st.scopes, name@);
                    match found {
                        Some(Some(sig)) => {
                            lemma_check_signature(st, name@, sig, args@, span);
                        },
                        Some(None) => {
                            let st = err_type_s(
                                st,
                                ident_span,
                                "'"@ + name@ + "' is not a function"@,
                            );
                            assert(extends(first.diags, st.diags));
                            lemma_check_list(st, args@, 0);
                        },
                        None => {
                            let st = err_undef_s(st, ident_span, name@);
                            assert(extends(first.diags, st.diags));
                            lemma_check_list(st, args@, 0);
                        },
                    }
                },
                other => {
                    lemma_type_of(st, *callee);
                    let (st, _) = type_of_s(st, *callee);
                    lemma_check_list(st, args@, 0);
                },
            }
        },
        _ => {},
    }
}

proof fn lemma_check_launch_config_dim(st: CkState, e: Expr)
    ensures
        said(st, check_launch_config_dim_s(st, e)),
    decreases e, 10nat,
{
    broadcast use group_grow;

    lemma_type_of(st, e);
}

proof fn lemma_check_launch(st: CkState, e: Expr)
    ensures
        said(st, check_launch_s(st, e).0),
    decreases e, 7nat,
{
    broadcast use group_grow;

    let first = st;
    match e {
        Expr::KernelLaunch { kernel, grid, block, shared, stream, args, span } => {
            lemma_check_launch_config_dim(st, *grid);
            let st = check_launch_config_dim_s(st, *grid);
            lemma_check_launch_config_dim(st, *block);
            let st = check_launch_config_dim_s(st, *block);
            match shared {
                Some(x) => {
                    lemma_type_of(st, *x);
                },
                None => {},
            }
            let st = match shared {
                Some(x) => {
                    let (st, t) = type_of_s(st, *x);
                    if !(t is Unknown) && !t.integer() {
                        err_type_s(
                            st,
                            expr_span(*x),
                            "shared memory size must be an integer"@,
                        )
                    } else {
                        st
                    }
                },
                None => {
                    st
                },
            };
            assert(extends(first.diags, st.diags));
            match stream {
                Some(x) => {
                    lemma_type_of(st, *x);
                },
                None => {},
            }
            let st = match stream {
                Some(x) => {
                    let (st, t) = type_of_s(st, *x);
                    if !(t is Unknown) && !t.pointer_like() && !t.integer() {
                        err_type_s(st, expr_span(*x), "stream must be a pointer"@)
                    } else {
                        st
                    }
                },
                None => {
                    st
                },
            };
            assert(extends(first.diags, st.diags));
            match *kernel {
                Expr::Ident { name, span: ident_span } => {
                    let found = callable(st.scopes, name@);
                    match found {
                        Some(Some(sig)) => {
                            let st = if !sig.is_kernel {
                                err_type_s(
                                    st,
                                    ident_span,
                                    "launch target must be a '__global__' function"@,
                                )
                            } else {
                                st
                            };
                            assert(extends(first.diags, st.diags));
                            lemma_check_signature(st, name@, sig, args@, span);
                        },
                        Some(None) => {
                            let st = err_type_s(
                                st,
                                ident_span,
                                "launch target must be a '__global__' function"@,
                            );
                            assert(extends(first.diags, st.diags));
                            lemma_check_list(st, args@, 0);
                        },
                        None => {
                            let st = err_undef_s(st, ident_span, name@);
                            assert(extends(first.diags, st.diags));
                            lemma_check_list(st, args@, 0);
                        },
                    }
                },
                other => {
                    lemma_type_of(st, *kernel);
                    let (st, _) = type_of_s(st, *kernel);
                    let st = err_type_s(st, span, "launch target must be a '__global__' function"@);
                    assert(extends(first.diags, st.diags));
                    lemma_check_list(st, args@, 0);
                },
            }
        },
        _ => {},
    }
}

proof fn lemma_check_index(st: CkState, e: Expr)
    ensures
        said(st, check_index_s(st, e).0),
    decreases e, 7nat,
{
    broadcast use group_grow;

    match e {
        Expr::Index { base, index, span } => {
            lemma_typed(st, *base);
            let (st, (bt, c)) = typed_s(st, *base);
            lemma_type_of(st, *index);
        },
        _ => {},
    }
}

proof fn lemma_member_of(st: CkState, target: TyV, name: Seq<char>, whole_const: bool, span: Span)
    ensures
        said(st, member_of_s(st, target, name, whole_const, span).0),
{
    broadcast use group_grow;

}

proof fn lemma_check_member(st: CkState, e: Expr)
    ensures
        said(st, check_member_s(st, e).0),
    decreases e, 7nat,
{
    broadcast use group_grow;

    match e {
        Expr::Member { base, name, arrow, span } => {
            lemma_typed(st, *base);
            let (st, (bt, c)) = typed_s(st, *base);
            if !((bt is Unknown)) {
                if arrow {
                    match bt.target() {
                        Some(inner) => {
                            lemma_member_of(st, inner, name@, const_reached(bt, c), span);
                        },
                        None => {},
                    }
                } else {
                    if !((bt is Pointer)) {
                        lemma_member_of(st, bt, name@, c, span);
                    }
                }
            }
        },
        _ => {},
    }
}

proof fn lemma_check_ident(st: CkState, name: Seq<char>, span: Span)
    ensures
        said(st, check_ident_s(st, name, span).0),
{
    broadcast use group_grow;

}

proof fn lemma_typed(st: CkState, e: Expr)
    ensures
        said(st, typed_s(st, e).0),
    decreases e, 8nat,
{
    broadcast use group_grow;

    match e {
        Expr::IntLit { value, .. } => {},
        Expr::FloatLit { value, .. } => {},
        Expr::CharLit { .. } => {},
        Expr::StrLit { .. } => {},
        Expr::Ident { name, span } => {
            lemma_check_ident(st, name@, span);
        },
        Expr::Comma { exprs, .. } => {
            lemma_check_comma(st, exprs@, exprs@.len());
        },
        Expr::Assign { .. } => {
            lemma_check_assign(st, e);
        },
        Expr::Ternary { .. } => {
            lemma_check_ternary(st, e);
        },
        Expr::Binary { op, lhs, rhs, span } => {
            lemma_type_of(st, *lhs);
            let (st, l) = type_of_s(st, *lhs);
            lemma_type_of(st, *rhs);
            let (st, r2) = type_of_s(st, *rhs);
            lemma_check_binary(st, op, l, r2, span);
        },
        Expr::Cast { ty, expr, .. } => {
            lemma_type_of(st, *expr);
            let (st, _) = type_of_s(st, *expr);
            lemma_resolve_type(st, ty);
        },
        Expr::Unary { op, expr, span } => {
            lemma_check_unary(st, op, *expr, span);
        },
        Expr::PreIncDec { expr, span, .. } | Expr::PostIncDec { expr, span, .. } => {
            lemma_check_incdec(st, *expr, span);
        },
        Expr::SizeofExpr { expr, .. } => {
            lemma_type_of(st, *expr);
        },
        Expr::SizeofType { ty, .. } => {
            lemma_resolve_type(st, ty);
        },
        Expr::Call { .. } => {
            lemma_check_call(st, e);
        },
        Expr::KernelLaunch { .. } => {
            lemma_check_launch(st, e);
        },
        Expr::Index { .. } => {
            lemma_check_index(st, e);
        },
        Expr::Member { .. } => {
            lemma_check_member(st, e);
        },
        Expr::Error { .. } => {},
    }
}

proof fn lemma_check_var_cuda_quals(st: CkState, v: VarDecl)
    ensures
        said(st, check_var_cuda_quals_s(st, v)),
{
    broadcast use group_grow;

}

proof fn lemma_check_var_decl(st: CkState, v: VarDecl)
    requires
        st.scopes.len() > 0,
    ensures
        followed(st, check_var_decl_s(st, v)),
{
    broadcast use group_grow;

    let first = st;
    lemma_check_var_cuda_quals(st, v);
    let st = check_var_cuda_quals_s(st, v);
    lemma_resolve_type(st, v.ty);
    let (st, ty) = resolve_type_s(st, v.ty);
    match v.init {
        Some(init) => {
            lemma_type_of(st, init);
        },
        None => {},
    }
    let st = match v.init {
        Some(init) => {
            let (st, it) = type_of_s(st, init);
            if !(ty is Unknown) && !(it is Unknown) && !fits(ty, it) {
                err_type_s(
                    st,
                    v.span,
                    "cannot initialize '"@ + v.name@ + "' with this expression's type"@,
                )
            } else {
                st
            }
        },
        None => {
            st
        },
    };
    assert(extends(first.diags, st.diags));
    lemma_declare(st, v.span, v.name@, ValueSymV::Var(ty, const_at_top(v.ty)));
}

proof fn lemma_check_decls(st: CkState, ds: Seq<VarDecl>, n: nat)
    requires
        st.scopes.len() > 0,
    ensures
        followed(st, check_decls_s(st, ds, n)),
    decreases n,
{
    broadcast use group_grow;

    if n > 0 && n <= ds.len() {
        lemma_check_decls(st, ds, (n - 1) as nat);
        lemma_check_var_decl(check_decls_s(st, ds, (n - 1) as nat), ds[n - 1]);
    }
}

proof fn lemma_check_stmts(st: CkState, ss: Seq<Stmt>, n: nat)
    requires
        st.scopes.len() > 0,
    ensures
        followed(st, check_stmts_s(st, ss, n)),
    decreases ss, n,
{
    broadcast use group_grow;

    if n > 0 && n <= ss.len() {
        lemma_check_stmts(st, ss, (n - 1) as nat);
        lemma_check_stmt(check_stmts_s(st, ss, (n - 1) as nat), ss[n - 1]);
    }
}

proof fn lemma_check_loop_body(st: CkState, body: Stmt)
    requires
        st.scopes.len() > 0,
    ensures
        followed(st, check_loop_body_s(st, body)),
    decreases body, 10nat,
{
    broadcast use group_grow;

    let saved = st.in_loop;
    let st = CkState { in_loop: true, ..st };
    lemma_check_stmt(st, body);
}

#[verifier::rlimit(60)]
proof fn lemma_check_stmt(st: CkState, stmt: Stmt)
    requires
        st.scopes.len() > 0,
    ensures
        followed(st, check_stmt_s(st, stmt)),
    decreases stmt, 9nat,
{
    broadcast use group_grow;

    let first = st;
    match stmt {
        Stmt::Expr { expr, .. } => {
            lemma_type_of(st, expr);
        },
        Stmt::Empty { .. } => {},
        Stmt::Block { stmts, .. } => {
            let st = open_scope_s(st);
            lemma_check_stmts(st, stmts@, stmts@.len());
        },
        Stmt::Decl { decls, .. } => {
            lemma_check_decls(st, decls@, decls@.len());
        },
        Stmt::If { cond, then_branch, else_branch, .. } => {
            lemma_check_condition(st, cond);
            let st = check_condition_s(st, cond);
            lemma_check_stmt(st, *then_branch);
            let st = check_stmt_s(st, *then_branch);
            match else_branch {
                Some(e) => {
                    lemma_check_stmt(st, *e);
                },
                None => {},
            }
        },
        Stmt::While { cond, body, .. } => {
            lemma_check_condition(st, cond);
            let st = check_condition_s(st, cond);
            lemma_check_loop_body(st, *body);
        },
        Stmt::DoWhile { body, cond, .. } => {
            lemma_check_loop_body(st, *body);
            let st = check_loop_body_s(st, *body);
            lemma_check_condition(st, cond);
        },
        Stmt::For { init, cond, step, body, .. } => {
            let st = open_scope_s(st);
            match init {
                Some(i) => {
                    lemma_check_stmt(st, *i);
                },
                None => {},
            }
            let st = match init {
                Some(i) => {
                    check_stmt_s(st, *i)
                },
                None => {
                    st
                },
            };
            assert(extends(first.diags, st.diags));
            match cond {
                Some(c) => {
                    lemma_check_condition(st, c);
                },
                None => {},
            }
            let st = match cond {
                Some(c) => {
                    check_condition_s(st, c)
                },
                None => {
                    st
                },
            };
            assert(extends(first.diags, st.diags));
            match step {
                Some(s) => {
                    lemma_type_of(st, s);
                },
                None => {},
            }
            let st = match step {
                Some(s) => {
                    let (st, _) = type_of_s(st, s);
                    st
                },
                None => {
                    st
                },
            };
            assert(extends(first.diags, st.diags));
            lemma_check_loop_body(st, *body);
        },
        Stmt::Switch { expr, body, .. } => {
            lemma_type_of(st, expr);
            let (st, t) = type_of_s(st, expr);
            let st = if !(t is Unknown) && !t.integer() {
                err_type_s(
                    st,
                    expr_span(expr),
                    "switch expression must have an integer type"@,
                )
            } else {
                st
            };
            assert(extends(first.diags, st.diags));
            let saved = st.in_switch;
            let st = CkState { in_switch: true, ..st };
            lemma_check_stmt(st, *body);
        },
        Stmt::Case { value, stmt, .. } => {
            lemma_type_of(st, value);
            let (st, t) = type_of_s(st, value);
            let st = if !(t is Unknown) && !t.integer() {
                err_type_s(
                    st,
                    expr_span(value),
                    "case label must be an integer constant"@,
                )
            } else {
                st
            };
            assert(extends(first.diags, st.diags));
            lemma_check_stmt(st, *stmt);
        },
        Stmt::Default { stmt, .. } => {
            lemma_check_stmt(st, *stmt);
        },
        Stmt::Break { span } => {},
        Stmt::Continue { span } => {},
        Stmt::Return { expr, span } => {
            match expr {
                Some(e) => {
                    lemma_type_of(st, e);
                },
                None => {},
            }
        },
        Stmt::Label { stmt, .. } => {
            lemma_check_stmt(st, *stmt);
        },
        Stmt::Goto { label, span } => {},
    }
}

proof fn lemma_resolve_fields(st: CkState, fs: Seq<FieldDecl>, n: nat)
    ensures
        said(st, resolve_fields_s(st, fs, n).0),
    decreases n,
{
    broadcast use group_grow;

    if !(n == 0 || n > fs.len()) {
        lemma_resolve_fields(st, fs, (n - 1) as nat);
        let (st, v) = resolve_fields_s(st, fs, (n - 1) as nat);
        lemma_resolve_type(st, fs[n - 1].ty);
    }
}

proof fn lemma_check_struct_decl(st: CkState, d: StructDecl)
    requires
        st.scopes.len() > 0,
    ensures
        followed(st, check_struct_decl_s(st, d)),
{
    broadcast use group_grow;

    lemma_resolve_fields(st, d.fields@, d.fields@.len());
}

proof fn lemma_check_union_decl(st: CkState, d: UnionDecl)
    requires
        st.scopes.len() > 0,
    ensures
        followed(st, check_union_decl_s(st, d)),
{
    broadcast use group_grow;

    lemma_resolve_fields(st, d.fields@, d.fields@.len());
}

proof fn lemma_check_variants(st: CkState, vs: Seq<EnumVariant>, n: nat, ty: TyV)
    requires
        st.scopes.len() > 0,
    ensures
        followed(st, check_variants_s(st, vs, n, ty)),
    decreases n,
{
    broadcast use group_grow;

    let first = st;
    if n > 0 && n <= vs.len() {
        lemma_check_variants(st, vs, (n - 1) as nat, ty);
        let st = check_variants_s(st, vs, (n - 1) as nat, ty);
        let v = vs[n - 1];
        match v.init {
            Some(init) => {
                lemma_type_of(st, init);
            },
            None => {},
        }
        let st = match v.init {
            Some(init) => {
                let (st, it) = type_of_s(st, init);
                if !(it is Unknown) && !it.integer() {
                    err_type_s(st, v.span, "enum initializer must be an integer constant"@)
                } else {
                    st
                }
            },
            None => st,
        };
        assert(extends(first.diags, st.diags));
        lemma_declare(st, v.span, v.name@, ValueSymV::EnumConst(ty));
    }
}

proof fn lemma_check_enum_decl(st: CkState, d: EnumDecl)
    requires
        st.scopes.len() > 0,
    ensures
        followed(st, check_enum_decl_s(st, d)),
{
    broadcast use group_grow;

    let first = st;
    let (st, enum_ty) = match d.name {
        Some(name) => {
            let existed = st.scopes.last().enums.contains_key(name@);
            let st = CkState { scopes: with_enum(st.scopes, name@), ..st };
            let st = if existed { err_redef_s(st, d.span, name@) } else { st };
            (st, TyV::Enum(name@))
        },
        None => {
            (st, TyV::Scalar(ScalarKind::Int))
        },
    };
    assert(extends(first.diags, st.diags));
    lemma_check_variants(st, d.variants@, d.variants@.len(), enum_ty);
}

proof fn lemma_check_typedef_decl(st: CkState, d: TypedefDecl)
    requires
        st.scopes.len() > 0,
    ensures
        followed(st, check_typedef_decl_s(st, d)),
{
    broadcast use group_grow;

    lemma_resolve_type(st, d.ty);
}

proof fn lemma_check_function_cuda_quals(st: CkState, f: FunctionDecl, ret: TyV)
    ensures
        said(st, check_function_cuda_quals_s(st, f, ret)),
{
    broadcast use group_grow;

}

proof fn lemma_resolve_params(st: CkState, ps: Seq<ParamDecl>, n: nat)
    ensures
        said(st, resolve_params_s(st, ps, n).0),
    decreases n,
{
    broadcast use group_grow;

    if !(n == 0 || n > ps.len()) {
        lemma_resolve_params(st, ps, (n - 1) as nat);
        let (st, v) = resolve_params_s(st, ps, (n - 1) as nat);
        lemma_resolve_type(st, ps[n - 1].ty);
    }
}

proof fn lemma_declare_params(st: CkState, ps: Seq<ParamDecl>, tys: Seq<TyV>, n: nat)
    requires
        st.scopes.len() > 0,
    ensures
        followed(st, declare_params_s(st, ps, tys, n)),
    decreases n,
{
    broadcast use group_grow;

    if n > 0 && n <= ps.len() {
        lemma_declare_params(st, ps, tys, (n - 1) as nat);
        let st = declare_params_s(st, ps, tys, (n - 1) as nat);
        if n <= tys.len() {
            match ps[n - 1].name {
                Some(name) => {
                    lemma_declare(
                        st,
                        ps[n - 1].span,
                        name@,
                        ValueSymV::Var(tys[n - 1], const_at_top(ps[n - 1].ty)),
                    );
                },
                None => {},
            }
        }
    }
}

proof fn lemma_check_function_body(
    st: CkState,
    f: FunctionDecl,
    ret: TyV,
    param_tys: Seq<TyV>,
    body: Seq<Stmt>,
)
    requires
        st.scopes.len() > 0,
    ensures
        followed(st, check_function_body_s(st, f, ret, param_tys, body)),
{
    broadcast use group_grow;

    let first = st;
    let saved = st;
    let st = CkState {
        fn_ret: Some(ret),
        labels: labels_of(body),
        in_loop: false,
        in_switch: false,
        ..st
    };
    let st = open_scope_s(st);
    lemma_device_builtins(st.scopes);
    let st = if f.cuda_quals.is_global || f.cuda_quals.is_device {
        CkState { scopes: with_device_builtins(st.scopes), ..st }
    } else {
        st
    };
    assert(extends(first.diags, st.diags));
    lemma_declare_params(st, f.params@, param_tys, f.params@.len());
    let st = declare_params_s(st, f.params@, param_tys, f.params@.len());
    lemma_check_stmts(st, body, body.len());
}

proof fn lemma_check_function_item(st: CkState, f: FunctionDecl)
    requires
        st.scopes.len() > 0,
    ensures
        followed(st, check_function_item_s(st, f)),
{
    broadcast use group_grow;

    lemma_resolve_type(st, f.ret);
    let (st, ret) = resolve_type_s(st, f.ret);
    lemma_check_function_cuda_quals(st, f, ret);
    let st = check_function_cuda_quals_s(st, f, ret);
    lemma_resolve_params(st, f.params@, f.params@.len());
    let (st, param_tys) = resolve_params_s(st, f.params@, f.params@.len());
    lemma_declare(
        st,
        f.span,
        f.name@,
        ValueSymV::Func(
            FuncSigV {
                ret,
                params: param_tys,
                variadic: f.variadic,
                is_kernel: f.cuda_quals.is_global,
            },
        ),
    );
    let st = declare_s(
        st,
        f.span,
        f.name@,
        ValueSymV::Func(FuncSigV {
            ret,
            params: param_tys,
            variadic: f.variadic,
            is_kernel: f.cuda_quals.is_global,
        }),
    );
    match f.body {
        Some(body) => {
            lemma_check_function_body(st, f, ret, param_tys, body@);
        },
        None => {},
    }
}

proof fn lemma_check_items(st: CkState, items: Seq<Item>, n: nat)
    requires
        st.scopes.len() > 0,
    ensures
        followed(st, check_items_s(st, items, n)),
    decreases items, n,
{
    broadcast use group_grow;

    if n > 0 && n <= items.len() {
        lemma_check_items(st, items, (n - 1) as nat);
        lemma_check_item(check_items_s(st, items, (n - 1) as nat), items[n - 1]);
    }
}

proof fn lemma_check_item(st: CkState, item: Item)
    requires
        st.scopes.len() > 0,
    ensures
        followed(st, check_item_s(st, item)),
    decreases item, 9nat,
{
    broadcast use group_grow;

    match item {
        Item::Struct(d) => {
            lemma_check_struct_decl(st, d);
        },
        Item::Union(d) => {
            lemma_check_union_decl(st, d);
        },
        Item::Enum(d) => {
            lemma_check_enum_decl(st, d);
        },
        Item::Typedef(d) => {
            lemma_check_typedef_decl(st, d);
        },
        Item::Namespace(ns) => {
            let st = open_scope_s(st);
            lemma_check_items(st, ns.items@, ns.items@.len());
        },
        Item::Function(f) => {
            lemma_check_function_item(st, f);
        },
        Item::Var(v) => {
            lemma_check_var_decl(st, v);
        },
        Item::Template(_) => {},
    }
}

// ---- laws ----------------------------------------------------------------------------------

/// An expression declares nothing: to check one changes nothing but what is reported, and what was
/// reported before stays.
pub proof fn law_expression_declares_nothing(st: CkState, e: Expr)
    ensures
        said(st, typed_s(st, e).0),
{
    lemma_typed(st, e);
}

/// A statement leaves every outer scope as it was, and the function, loop and switch that it
/// stands in; what was reported before stays.
pub proof fn law_statement_stays_in_its_scope(st: CkState, s: Stmt)
    requires
        st.scopes.len() > 0,
    ensures
        followed(st, check_stmt_s(st, s)),
{
    lemma_check_stmt(st, s);
}

/// A block declares nothing outside itself.
pub proof fn law_block_declares_nothing(st: CkState, s: Stmt)
    requires
        st.scopes.len() > 0,
        s is Block,
    ensures
        check_stmt_s(st, s).scopes == st.scopes,
{
    broadcast use group_grow;

    let stmts = s->Block_stmts@;
    lemma_check_stmts(open_scope_s(st), stmts, stmts.len());
}

proof fn lemma_first_items(st: CkState, a: Seq<Item>, b: Seq<Item>, n: nat)
    requires
        n <= a.len() <= b.len(),
        b.take(a.len() as int) == a,
    ensures
        check_items_s(st, a, n) == check_items_s(st, b, n),
    decreases n,
{
    if n > 0 {
        lemma_first_items(st, a, b, (n - 1) as nat);
        assert(b.take(a.len() as int)[n - 1] == b[n - 1]);
    }
}

proof fn lemma_items_go_on(st: CkState, items: Seq<Item>, k: nat, n: nat)
    requires
        st.scopes.len() > 0,
        k <= n <= items.len(),
    ensures
        followed(check_items_s(st, items, k), check_items_s(st, items, n)),
    decreases n,
{
    broadcast use group_grow;

    lemma_check_items(st, items, n);
    if k < n {
        lemma_items_go_on(st, items, k, (n - 1) as nat);
        lemma_check_items(st, items, (n - 1) as nat);
        lemma_check_item(check_items_s(st, items, (n - 1) as nat), items[n - 1]);
    }
}

/// Checking never stops at a problem: where a unit goes on from another, so do its diagnostics.
pub proof fn law_reports_go_on(a: TranslationUnit, b: TranslationUnit)
    requires
        a.items@.len() <= b.items@.len(),
        b.items@.take(a.items@.len() as int) == a.items@,
    ensures
        extends(diagnostics(a), diagnostics(b)),
{
    let st = CkState {
        scopes: with_runtime_api(Seq::empty().push(empty_scope())),
        diags: Seq::empty(),
        fn_ret: None,
        labels: Seq::empty(),
        in_loop: false,
        in_switch: false,
    };
    lemma_first_items(st, a.items@, b.items@, a.items@.len());
    lemma_items_go_on(st, b.items@, a.items@.len(), b.items@.len());
}

/// The body of a template is not looked at.
pub proof fn law_templates_are_skipped(st: CkState, item: Item)
    requires
        item is Template,
    ensures
        check_item_s(st, item) == st,
{
}

/// A type has one meaning however it is written: a name that is no typedef is the struct of that
/// tag, and a typedef is the type that it stands for.
pub proof fn law_spellings_agree(st: CkState, name: Seq<char>, span: Span, t: TyV)
    requires
        name.len() > 0,
    ensures
        find_typedef(st.scopes, name) == Some(t) ==> resolve_named_s(st, name, span) == (st, t),
        find_typedef(st.scopes, name) is None && find_struct(st.scopes, name) is Some
            ==> resolve_named_s(st, name, span) == resolve_tag_s(
            st,
            TagKind::Struct,
            name,
            span,
        ),
{
}

} // verus!
