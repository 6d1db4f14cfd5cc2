//! How control flows through the code of CUDA C: which condition leads to which branch, where a
//! loop goes back to, and where `break`, `continue`, `return` and `goto` lead.

use vstd::prelude::*;

use crate::bir::{BlockId, InstV, OpV, Scalar, TermV, Ty as BTy, ValRef};
use crate::bits::low_u32;
use crate::diag::Span;
use crate::sema::c_ast::{BinOp, Expr, ScalarKind, Stmt};
use crate::sema::lower::{
    aggregate, alloc_block_s, alloc_blocks_s, bir_ty, coerce_to_s, collect_cases_s, condition_s,
    const_value, enter_s, fresh_cur_s, leave_s, lower_arms_s, lower_break_s, lower_continue_s,
    lower_do_while_s, lower_expr_s, lower_for_s, lower_goto_s, lower_if_s, lower_inner_s,
    lower_label_s, lower_logical_s, lower_return_s, lower_stmt_s, lower_switch_s, lower_ternary_s,
    lower_while_s, open_block_s, peel_case_labels_s, push_s, set_cur_s, terminate_s, truthy_s,
    CasesV, CtrlCtx, LwState,
};
use crate::sema::ty::TyV;
use crate::sema::typing::{law_takes, takes};

verus! {

/// Control is handed on from what was built last: the current block is left by `term` with what it
/// holds, `new` empty blocks are added, nothing else is touched, and what is built next goes to
/// `to`.
pub open spec fn handed(a: LwState, b: LwState, term: TermV, to: BlockId, new: nat) -> bool {
    let c = a.b.cur.0 as int;
    &&& b.b.insts == a.b.insts
    &&& b.b.blocks.len() == a.b.blocks.len() + new
    &&& forall|i: int| 0 <= i < a.b.blocks.len() && i != c ==> b.b.blocks[i] == #[trigger] a.b.blocks[i]
    &&& c < a.b.blocks.len() ==> b.b.blocks[c].done is Some && b.b.blocks[c].done->0.term == term
        && b.b.blocks[c].done->0.insts == a.b.blocks[c].pending && b.b.blocks[c].pending.len() == 0
    &&& b.b.cur == to
    &&& b.diags == a.diags
}

/// The number of a block that is `k` behind those there are.
pub open spec fn new_block(st: LwState, k: int) -> BlockId {
    BlockId((st.b.blocks.len() + k) as u32)
}

/// Whether there is room for as many blocks.
pub open spec fn room(st: LwState, k: int) -> bool {
    st.b.blocks.len() + k <= 0xffff_ffff
}

/// A name for the state between two parts of a statement.
pub open spec fn between(a: LwState) -> bool {
    true
}

/// `if`: where the condition holds control goes to the code of the first branch, and else to that
/// of the second, or past an empty one. Both go on to one block, where what follows is built.
pub proof fn law_if(st: LwState, s: Stmt)
    requires
        s matches Stmt::If { cond, .. } && room(condition_s(st, cond).0, 4),
    ensures
        s matches Stmt::If { cond, then_branch, else_branch, .. } && ({
            let (s1, c) = condition_s(st, cond);
            let (yes, no, out) = (new_block(s1, 0), new_block(s1, 1), new_block(s1, 2));
            exists|t: LwState, e: LwState| #[trigger]
                between(t) && #[trigger] between(e) && handed(
                    s1,
                    t,
                    TermV::CondBr(c, yes, no),
                    yes,
                    3,
                ) && handed(lower_stmt_s(t, *then_branch), e, TermV::Br(out), no, 0) && handed(
                    match else_branch {
                        Some(x) => lower_stmt_s(e, *x),
                        None => e,
                    },
                    lower_stmt_s(st, s),
                    TermV::Br(out),
                    out,
                    0,
                )
        }),
{
    match s {
        Stmt::If { cond, then_branch, else_branch, .. } => {
            reveal(low_u32);
            let (s1, c) = condition_s(st, cond);
            let (yes, no, out) = (new_block(s1, 0), new_block(s1, 1), new_block(s1, 2));
            let s2 = alloc_block_s(alloc_block_s(alloc_block_s(s1).0).0).0;
            let t = set_cur_s(terminate_s(s2, TermV::CondBr(c, yes, no)), yes);
            let e = set_cur_s(terminate_s(lower_stmt_s(t, *then_branch), TermV::Br(out)), no);
            let last = match else_branch {
                Some(x) => lower_stmt_s(e, *x),
                None => e,
            };
            assert(lower_stmt_s(st, s) == lower_if_s(st, s));
            assert(lower_if_s(st, s) == set_cur_s(terminate_s(last, TermV::Br(out)), out));
            assert(handed(s1, t, TermV::CondBr(c, yes, no), yes, 3));
            assert(between(t) && between(e));
        },
        _ => {},
    }
}

/// `while`: the test comes first. Where it holds, control goes to the body, and from its end back
/// to the test; where it does not, out of the loop. In the body `break` leads out and `continue` to
/// the test.
pub proof fn law_while(st: LwState, s: Stmt)
    requires
        s is While,
        room(st, 4),
    ensures
        s matches Stmt::While { cond, body, .. } && ({
            let (test, first, out) = (new_block(st, 0), new_block(st, 1), new_block(st, 2));
            exists|t: LwState, b: LwState| #[trigger]
                between(t) && #[trigger] between(b) && handed(st, t, TermV::Br(test), test, 3) && ({
                    let (t1, c) = condition_s(t, cond);
                    &&& handed(t1, b, TermV::CondBr(c, first, out), first, 0)
                    &&& b.ctrl == t1.ctrl.push(
                        CtrlCtx::Loop { break_bb: out, continue_bb: test },
                    )
                }) && handed(
                    lower_stmt_s(b, *body),
                    lower_stmt_s(st, s),
                    TermV::Br(test),
                    out,
                    0,
                )
        }),
{
    match s {
        Stmt::While { cond, body, .. } => {
            reveal(low_u32);
            let (test, first, out) = (new_block(st, 0), new_block(st, 1), new_block(st, 2));
            let s2 = alloc_block_s(alloc_block_s(alloc_block_s(st).0).0).0;
            let t = set_cur_s(terminate_s(s2, TermV::Br(test)), test);
            let (t1, c) = condition_s(t, cond);
            let b = enter_s(
                set_cur_s(terminate_s(t1, TermV::CondBr(c, first, out)), first),
                CtrlCtx::Loop { break_bb: out, continue_bb: test },
            );
            assert(lower_stmt_s(st, s) == lower_while_s(st, s));
            assert(lower_while_s(st, s) == set_cur_s(
                terminate_s(leave_s(lower_stmt_s(b, *body)), TermV::Br(test)),
                out,
            ));
            assert(handed(st, t, TermV::Br(test), test, 3));
            assert(between(t) && between(b));
        },
        _ => {},
    }
}

/// `do`: the body comes first, and from its end control goes to the test. Where that holds, control
/// goes back to the body, and else out of the loop. In the body `break` leads out and `continue` to
/// the test.
pub proof fn law_do_while(st: LwState, s: Stmt)
    requires
        s is DoWhile,
        room(st, 4),
    ensures
        s matches Stmt::DoWhile { body, cond, .. } && ({
            let (first, test, out) = (new_block(st, 0), new_block(st, 1), new_block(st, 2));
            exists|b: LwState, t: LwState| #[trigger]
                between(b) && #[trigger] between(t) && handed(st, b, TermV::Br(first), first, 3)
                    && b.ctrl == st.ctrl.push(CtrlCtx::Loop { break_bb: out, continue_bb: test })
                    && handed(lower_stmt_s(b, *body), t, TermV::Br(test), test, 0) && ({
                    let (t1, c) = condition_s(t, cond);
                    handed(t1, lower_stmt_s(st, s), TermV::CondBr(c, first, out), out, 0)
                })
        }),
{
    match s {
        Stmt::DoWhile { body, cond, .. } => {
            reveal(low_u32);
            let (first, test, out) = (new_block(st, 0), new_block(st, 1), new_block(st, 2));
            let s2 = alloc_block_s(alloc_block_s(alloc_block_s(st).0).0).0;
            let b = enter_s(
                set_cur_s(terminate_s(s2, TermV::Br(first)), first),
                CtrlCtx::Loop { break_bb: out, continue_bb: test },
            );
            let t = set_cur_s(
                terminate_s(leave_s(lower_stmt_s(b, *body)), TermV::Br(test)),
                test,
            );
            let (t1, c) = condition_s(t, cond);
            assert(lower_stmt_s(st, s) == lower_do_while_s(st, s));
            assert(lower_do_while_s(st, s) == set_cur_s(
                terminate_s(t1, TermV::CondBr(c, first, out)),
                out,
            ));
            assert(handed(st, b, TermV::Br(first), first, 3));
            assert(between(t) && between(b));
        },
        _ => {},
    }
}

/// `for`: after the start the test comes first, or the body where there is no test. From the end of
/// the body control goes to the step, and from there back to the test. In the body `break` leads
/// out and `continue` to the step.
pub proof fn law_for(st: LwState, s: Stmt)
    requires
        s matches Stmt::For { init, .. } && room(
            match init {
                Some(i) => lower_stmt_s(open_block_s(st), *i),
                None => open_block_s(st),
            },
            5,
        ),
    ensures
        s matches Stmt::For { init, cond, step, body, .. } && ({
            let s1 = match init {
                Some(i) => lower_stmt_s(open_block_s(st), *i),
                None => open_block_s(st),
            };
            let (test, first) = (new_block(s1, 0), new_block(s1, 1));
            let (next, out) = (new_block(s1, 2), new_block(s1, 3));
            exists|t: LwState, b: LwState, n: LwState| #[trigger]
                between(t) && #[trigger] between(b) && #[trigger] between(n) && handed(
                    s1,
                    t,
                    TermV::Br(test),
                    test,
                    4,
                ) && match cond {
                    Some(c) => ({
                        let (t1, v) = condition_s(t, c);
                        handed(t1, b, TermV::CondBr(v, first, out), first, 0) && b.ctrl
                            == t1.ctrl.push(CtrlCtx::Loop { break_bb: out, continue_bb: next })
                    }),
                    None => handed(t, b, TermV::Br(first), first, 0) && b.ctrl == t.ctrl.push(
                        CtrlCtx::Loop { break_bb: out, continue_bb: next },
                    ),
                } && handed(lower_stmt_s(b, *body), n, TermV::Br(next), next, 0) && handed(
                    match step {
                        Some(x) => lower_expr_s(n, x).0,
                        None => n,
                    },
                    lower_stmt_s(st, s),
                    TermV::Br(test),
                    out,
                    0,
                )
        }),
{
    match s {
        Stmt::For { init, cond, step, body, .. } => {
            reveal(low_u32);
            let s1 = match init {
                Some(i) => lower_stmt_s(open_block_s(st), *i),
                None => open_block_s(st),
            };
            let (test, first) = (new_block(s1, 0), new_block(s1, 1));
            let (next, out) = (new_block(s1, 2), new_block(s1, 3));
            let s2 = alloc_block_s(alloc_block_s(alloc_block_s(alloc_block_s(s1).0).0).0).0;
            let t = set_cur_s(terminate_s(s2, TermV::Br(test)), test);
            let b0 = match cond {
                Some(c) => {
                    let (t1, v) = condition_s(t, c);
                    terminate_s(t1, TermV::CondBr(v, first, out))
                },
                None => terminate_s(t, TermV::Br(first)),
            };
            let b = enter_s(
                set_cur_s(b0, first),
                CtrlCtx::Loop { break_bb: out, continue_bb: next },
            );
            let n = set_cur_s(
                terminate_s(leave_s(lower_stmt_s(b, *body)), TermV::Br(next)),
                next,
            );
            assert(lower_stmt_s(st, s) == lower_for_s(st, s));
            assert(handed(s1, t, TermV::Br(test), test, 4));
            assert(between(t) && between(b) && between(n));
        },
        _ => {},
    }
}

/// `break` leads out of the innermost loop or switch, and `continue` on in the innermost loop,
/// past any switch; what follows is built in a block that nothing leads to.
pub proof fn law_break_and_continue(st: LwState, span: Span)
    requires
        room(st, 2),
        st.ctrl.len() > 0,
    ensures
        handed(
            st,
            lower_break_s(st, span),
            TermV::Br(
                match st.ctrl.last() {
                    CtrlCtx::Loop { break_bb, .. } => break_bb,
                    CtrlCtx::Switch { break_bb } => break_bb,
                },
            ),
            new_block(st, 0),
            1,
        ),
        st.ctrl.last() matches CtrlCtx::Loop { continue_bb, .. } ==> handed(
            st,
            lower_continue_s(st, span),
            TermV::Br(continue_bb),
            new_block(st, 0),
            1,
        ),
        st.ctrl.len() > 1 && st.ctrl.last() is Switch ==> (st.ctrl[st.ctrl.len()
            - 2] matches CtrlCtx::Loop { continue_bb, .. } ==> handed(
            st,
            lower_continue_s(st, span),
            TermV::Br(continue_bb),
            new_block(st, 0),
            1,
        )),
{
    reveal(lower_break_s);
    reveal(lower_continue_s);
    reveal(fresh_cur_s);
    reveal(low_u32);
    reveal_with_fuel(crate::sema::lower::continue_target, 3);
}

/// `continue` looks through as many switches as there are, to the innermost loop.
pub proof fn law_continue_passes_switches(ctrl: Seq<CtrlCtx>, i: int)
    requires
        0 <= i < ctrl.len(),
        ctrl[i] is Loop,
        forall|j: int| i < j < ctrl.len() ==> (#[trigger] ctrl[j]) is Switch,
    ensures
        crate::sema::lower::continue_target(ctrl) == Some(ctrl[i]->continue_bb),
    decreases ctrl.len(),
{
    if i < ctrl.len() - 1 {
        assert(ctrl[ctrl.len() - 1] is Switch);
        law_continue_passes_switches(ctrl.drop_last(), i);
    }
}

/// A `return` without a value leaves the function with none, and one with a value with that value
/// as one of the type of the function.
pub proof fn law_return(st: LwState, s: Stmt)
    requires
        s matches Stmt::Return { expr, .. } && match expr {
            None => room(st, 2),
            Some(x) => room(lower_expr_s(st, x).0, 2) && !(lower_expr_s(st, x).1.1 is Unknown)
                && !aggregate(lower_expr_s(st, x).1.1),
        },
    ensures
        s matches Stmt::Return { expr, .. } && match expr {
            None => handed(st, lower_stmt_s(st, s), TermV::Ret(None), new_block(st, 0), 1),
            Some(x) => ({
                let (s1, (v, t)) = lower_expr_s(st, x);
                let (s2, c) = coerce_to_s(s1, v, t, s1.fn_ret);
                handed(s2, lower_stmt_s(st, s), TermV::Ret(Some(c)), new_block(s2, 0), 1)
            }),
        },
{
    reveal(lower_return_s);
    reveal(fresh_cur_s);
    reveal(low_u32);
    match s {
        Stmt::Return { expr, span } => {
            match expr {
                Some(x) => {
                    let (s1, (v, t)) = lower_expr_s(st, x);
                    let (s2, c) = coerce_to_s(s1, v, t, s1.fn_ret);
                    assert(s2.b.blocks.len() == s1.b.blocks.len()) by {
                        reveal(coerce_to_s);
                    }
                },
                None => {},
            }
        },
        _ => {},
    }
}

/// A `goto` leads to the block of its label, and so does what stands before the label.
pub proof fn law_goto_and_label(st: LwState, name: Seq<char>, span: Span)
    requires
        st.labels.contains_key(name),
        room(st, 2),
    ensures
        handed(st, lower_goto_s(st, name, span), TermV::Br(st.labels[name]), new_block(st, 0), 1),
        handed(st, lower_label_s(st, name), TermV::Br(st.labels[name]), st.labels[name], 0),
{
    reveal(lower_goto_s);
    reveal(lower_label_s);
    reveal(fresh_cur_s);
    reveal(low_u32);
}

/// The value of a phi by the way that was taken to it.
pub open spec fn chosen(i: InstV, from: BlockId, v: ValRef) -> bool {
    i.op matches OpV::Phi(edges) && edges.contains((from, v))
}

/// `l && r` and `l || r`: the left operand is evaluated, and where it decides, control goes past
/// the right one with the value that it decides for, 0 for `&&` and 1 for `||`. Else the right
/// operand is evaluated and its truth value, 0 or 1, is the result.
pub proof fn law_logical(st: LwState, e: Expr)
    requires
        e matches Expr::Binary { op, lhs, .. } && (op == BinOp::LogAnd || op == BinOp::LogOr)
            && !(lower_expr_s(st, *lhs).1.1 is Unknown) && room(lower_expr_s(st, *lhs).0, 3)
            && lower_expr_s(st, *lhs).0.b.insts.len() + 4 < 0xffff_ffff,
    ensures
        e matches Expr::Binary { op, lhs, rhs, .. } && ({
            let (s1, (lv, lty)) = lower_expr_s(st, *lhs);
            let (s2, lb) = truthy_s(s1, lv, lty);
            let decided = if op == BinOp::LogAnd {
                0i64
            } else {
                1
            };
            let (s3, short) = push_s(s2, BTy::Scalar(Scalar::I32), OpV::ConstInt(decided));
            let (right, join) = (new_block(s1, 0), new_block(s1, 1));
            let (end, (v, t)) = lower_expr_s(st, e);
            &&& t == TyV::Scalar(ScalarKind::Int)
            &&& exists|r: LwState, j: LwState| #[trigger]
                between(r) && #[trigger] between(j) && handed(
                    s3,
                    r,
                    if op == BinOp::LogAnd {
                        TermV::CondBr(lb, right, join)
                    } else {
                        TermV::CondBr(lb, join, right)
                    },
                    right,
                    2,
                ) && ({
                    let (r1, (rv, rty)) = lower_expr_s(r, *rhs);
                    !(rty is Unknown) ==> ({
                        let (r2, rb) = truthy_s(r1, rv, rty);
                        let (r3, value) = push_s(
                            r2,
                            BTy::Scalar(Scalar::I32),
                            OpV::Cast(
                                crate::bir::CastOp::Zext,
                                BTy::Scalar(Scalar::I1),
                                rb,
                            ),
                        );
                        &&& handed(r3, j, TermV::Br(join), join, 0)
                        &&& (end, v) == push_s(
                            j,
                            BTy::Scalar(Scalar::I32),
                            end.b.insts.last().op,
                        )
                        &&& chosen(end.b.insts.last(), s3.b.cur, short)
                        &&& chosen(end.b.insts.last(), r3.b.cur, value)
                        &&& end.b.insts.last().op->Phi_0.len() == 2
                    })
                })
        }),
{
    match e {
        Expr::Binary { op, lhs, rhs, .. } => {
            reveal(low_u32);
            let (s1, (lv, lty)) = lower_expr_s(st, *lhs);
            let (s2, lb) = truthy_s(s1, lv, lty);
            assert(s2.b.blocks.len() == s1.b.blocks.len()) by {
                reveal(truthy_s);
            }
            let is_and = op == BinOp::LogAnd;
            let decided = if is_and {
                0i64
            } else {
                1
            };
            let (s3, short) = push_s(s2, BTy::Scalar(Scalar::I32), OpV::ConstInt(decided));
            let (right, join) = (new_block(s1, 0), new_block(s1, 1));
            let s4 = alloc_block_s(alloc_block_s(s3).0).0;
            let r = set_cur_s(
                terminate_s(
                    s4,
                    if is_and {
                        TermV::CondBr(lb, right, join)
                    } else {
                        TermV::CondBr(lb, join, right)
                    },
                ),
                right,
            );
            let (r1, (rv, rty)) = lower_expr_s(r, *rhs);
            let (r3, value) = if rty is Unknown {
                push_s(r1, BTy::Scalar(Scalar::I32), OpV::ConstInt(0))
            } else {
                let (r2, rb) = truthy_s(r1, rv, rty);
                push_s(
                    r2,
                    BTy::Scalar(Scalar::I32),
                    OpV::Cast(crate::bir::CastOp::Zext, BTy::Scalar(Scalar::I1), rb),
                )
            };
            let j = set_cur_s(terminate_s(r3, TermV::Br(join)), join);
            let edges = seq![(s3.b.cur, short), (r3.b.cur, value)];
            let (end, (v, t)) = lower_expr_s(st, e);
            assert(lower_expr_s(st, e) == crate::sema::lower::lower_binary_s(st, e));
            assert(crate::sema::lower::lower_binary_s(st, e) == lower_logical_s(st, e));
            assert((end, v) == push_s(j, BTy::Scalar(Scalar::I32), OpV::Phi(edges)));
            assert(edges[0] == (s3.b.cur, short));
            assert(edges[1] == (r3.b.cur, value));
            assert(edges.contains((s3.b.cur, short)));
            assert(edges.contains((r3.b.cur, value)));
            assert(between(r) && between(j));
        },
        _ => {},
    }
}

/// `c ? a : b`: where the condition holds `a` is evaluated, and else `b`; both as values of the
/// type that takes the other, and the result is the one that was evaluated.
pub proof fn law_ternary(st: LwState, e: Expr)
    requires
        e matches Expr::Ternary { cond, .. } && !(lower_expr_s(st, *cond).1.1 is Unknown) && room(
            lower_expr_s(st, *cond).0,
            4,
        ),
    ensures
        e matches Expr::Ternary { cond, then_branch, else_branch, .. } && ({
            let (s1, (cv, cty)) = lower_expr_s(st, *cond);
            let (s2, cb) = truthy_s(s1, cv, cty);
            let (yes, no, join) = (new_block(s1, 0), new_block(s1, 1), new_block(s1, 2));
            let (end, (v, t)) = lower_expr_s(st, e);
            exists|a: LwState| #[trigger]
                between(a) && handed(s2, a, TermV::CondBr(cb, yes, no), yes, 3) && ({
                    let (a1, (av, aty)) = lower_expr_s(a, *then_branch);
                    let b = set_cur_s(a1, no);
                    let (b1, (bv, bty)) = lower_expr_s(b, *else_branch);
                    let ty = if takes(aty, bty) {
                        aty
                    } else {
                        bty
                    };
                    !(aty is Unknown) && !(bty is Unknown) && (takes(aty, bty) || takes(bty, aty))
                        && !aggregate(ty) ==> ({
                        let (a2, av2) = coerce_to_s(set_cur_s(b1, a1.b.cur), av, aty, ty);
                        &&& t == ty
                        &&& exists|m: LwState, j: LwState| #[trigger]
                            between(m) && #[trigger] between(j) && handed(
                                a2,
                                m,
                                TermV::Br(join),
                                b1.b.cur,
                                0,
                            ) && ({
                                let (b2, bv2) = coerce_to_s(m, bv, bty, ty);
                                &&& handed(b2, j, TermV::Br(join), join, 0)
                                &&& (end, v) == push_s(j, bir_ty(ty), end.b.insts.last().op)
                                &&& chosen(end.b.insts.last(), a1.b.cur, av2)
                                &&& chosen(end.b.insts.last(), b1.b.cur, bv2)
                                &&& end.b.insts.last().op->Phi_0.len() == 2
                            })
                    })
                })
        }),
{
    match e {
        Expr::Ternary { cond, then_branch, else_branch, .. } => {
            reveal(low_u32);
            let (s1, (cv, cty)) = lower_expr_s(st, *cond);
            let (s2, cb) = truthy_s(s1, cv, cty);
            assert(s2.b.blocks.len() == s1.b.blocks.len()) by {
                reveal(truthy_s);
            }
            let (yes, no, join) = (new_block(s1, 0), new_block(s1, 1), new_block(s1, 2));
            let s3 = alloc_block_s(alloc_block_s(alloc_block_s(s2).0).0).0;
            let a = set_cur_s(terminate_s(s3, TermV::CondBr(cb, yes, no)), yes);
            let (a1, (av, aty)) = lower_expr_s(a, *then_branch);
            let b = set_cur_s(a1, no);
            let (b1, (bv, bty)) = lower_expr_s(b, *else_branch);
            let (end, (v, t)) = lower_expr_s(st, e);
            assert(lower_expr_s(st, e) == lower_ternary_s(st, e));
            let ty = if takes(aty, bty) {
                aty
            } else {
                bty
            };
            assert(handed(s2, a, TermV::CondBr(cb, yes, no), yes, 3));
            assert(between(a));
            if !(aty is Unknown) && !(bty is Unknown) && (takes(aty, bty) || takes(bty, aty))
                && !aggregate(ty) {
                law_takes(aty, bty);
                law_takes(bty, aty);
                let (a2, av2) = coerce_to_s(set_cur_s(b1, a1.b.cur), av, aty, ty);
                let m = set_cur_s(terminate_s(a2, TermV::Br(join)), b1.b.cur);
                let (b2, bv2) = coerce_to_s(m, bv, bty, ty);
                let j = set_cur_s(terminate_s(b2, TermV::Br(join)), join);
                let edges = seq![(a1.b.cur, av2), (b1.b.cur, bv2)];
                assert((end, v) == push_s(j, bir_ty(ty), OpV::Phi(edges)));
                assert(edges[0] == (a1.b.cur, av2));
                assert(edges[1] == (b1.b.cur, bv2));
                assert(edges.contains((a1.b.cur, av2)));
                assert(edges.contains((b1.b.cur, bv2)));
                assert(between(m) && between(j));
            }
        },
        _ => {},
    }
}

// ---- switch --------------------------------------------------------------------------------

/// `switch`: the value chooses among the cases that the body holds, or goes to its `default`, or
/// else past the whole; `break` in it leads past it.
pub proof fn law_switch(st: LwState, s: Stmt)
    requires
        s matches Stmt::Switch { expr, body, .. } && *body is Block,
    ensures
        s matches Stmt::Switch { expr, body, .. } && ({
            let (s1, (v, _)) = lower_expr_s(st, expr);
            let (s2, out) = alloc_block_s(s1);
            let stmts = body->Block_stmts@;
            let (s3, places) = alloc_blocks_s(s2, stmts.len());
            let (s4, acc) = collect_cases_s(s3, stmts, places, stmts.len());
            let missing = match acc.default {
                Some(d) => d,
                None => out,
            };
            exists|a: LwState| #[trigger]
                between(a) && handed(
                    s4,
                    a,
                    TermV::Switch(v, missing, acc.cases),
                    s4.b.cur,
                    0,
                ) && a.ctrl == s4.ctrl.push(CtrlCtx::Switch { break_bb: out }) && ({
                    let last = lower_arms_s(a, stmts, places, out, stmts.len());
                    let end = lower_stmt_s(st, s);
                    end.b.blocks == last.b.blocks && end.b.insts == last.b.insts && end.b.cur == out
                })
        }),
{
    match s {
        Stmt::Switch { expr, body, .. } => {
            let (s1, (v, _)) = lower_expr_s(st, expr);
            let (s2, out) = alloc_block_s(s1);
            let stmts = body->Block_stmts@;
            let (s3, places) = alloc_blocks_s(s2, stmts.len());
            let (s4, acc) = collect_cases_s(s3, stmts, places, stmts.len());
            let missing = match acc.default {
                Some(d) => d,
                None => out,
            };
            let a = enter_s(
                terminate_s(s4, TermV::Switch(v, missing, acc.cases)),
                CtrlCtx::Switch { break_bb: out },
            );
            assert(lower_stmt_s(st, s) == lower_switch_s(st, s));
            assert(between(a));
        },
        _ => {},
    }
}

/// An arm of a switch is built in its own block, and falls through to the block of the next one,
/// the last one out of the switch.
pub proof fn law_arm_falls_through(
    st: LwState,
    ss: Seq<Stmt>,
    places: Seq<BlockId>,
    out: BlockId,
    n: nat,
)
    requires
        0 < n <= ss.len(),
        places.len() == ss.len(),
    ensures
        ({
            let before = lower_arms_s(st, ss, places, out, (n - 1) as nat);
            let arm = lower_inner_s(set_cur_s(before, places[n - 1]), ss[n - 1]);
            let end = lower_arms_s(st, ss, places, out, n);
            handed(
                arm,
                end,
                TermV::Br(
                    if n == ss.len() {
                        out
                    } else {
                        places[n as int]
                    },
                ),
                arm.b.cur,
                0,
            )
        }),
{
}

/// Every constant label before a statement adds its value with the block of the statement to the
/// cases, and `default` makes that block the one for every other value.
pub proof fn law_case_labels(
    st: LwState,
    s: Stmt,
    place: BlockId,
    seed: i64,
    k: i64,
    acc: CasesV,
)
    ensures
        match s {
            Stmt::Case { value, stmt, .. } => const_value(st.enums, value) matches Some(n)
                ==> peel_case_labels_s(st, s, place, seed, k, acc) == peel_case_labels_s(
                st,
                *stmt,
                place,
                seed,
                k.wrapping_add(1),
                CasesV { cases: acc.cases.push((n, place)), default: acc.default },
            ),
            Stmt::Default { stmt, .. } => peel_case_labels_s(st, s, place, seed, k, acc)
                == peel_case_labels_s(
                st,
                *stmt,
                place,
                seed,
                k,
                CasesV { cases: acc.cases, default: Some(place) },
            ),
            _ => peel_case_labels_s(st, s, place, seed, k, acc) == (st, acc),
        },
{
}

} // verus!
