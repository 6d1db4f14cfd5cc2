//! What the expressions of Triton mean: the code that is made of them computes, in every thread,
//! the element that the position of the loops asks for.

use vstd::prelude::*;

use crate::bir::{
    float_zero, AddrSpace, BinOp as BBin, InstId, InstV, OpV, Scalar, Ty as BTy, ValRef,
};
use crate::bits::low_u32;
use crate::diag::Span;
use crate::numeral::python_int;

use crate::sema::meaning::{
    agrees, is_pattern, law_signed_is_congruent, op_value, quotient, remainder, signed, truth,
    two_to, wrap, Floats, World,
};
use crate::sema::triton_ast::{attr_of, BinOp, CmpOp, Expr, UnaryOp};
use crate::sema::triton_check::index_steps;
use crate::sema::triton_lower::{
    apply_binop_s, apply_relation_s, arith_of, combined_bty, const_i64_s, elem_in, eval_call_s,
    eval_expr_s, float_bty, kept, leading, linear_index_s, literal_of, program_id_s, push_s,
    scale_by_elem_bytes_s, scratch_base_ptr_s, shape_in, tile_elem_addr_s, tile_offset, zero_of_s,
    zeros_ty, TlState, VarV, MINUS_ONE,
};
use crate::sema::triton_ty::{ReshapeStep, TileTyV};

verus! {

/// The instructions of one state go on those of another.
pub open spec fn goes_on(a: TlState, b: TlState) -> bool {
    &&& a.b.insts.len() <= b.b.insts.len()
    &&& forall|i: int| 0 <= i < a.b.insts.len() ==> b.b.insts[i] == #[trigger] a.b.insts[i]
}

/// The value of an instruction that was just put in, seen from a later state.
proof fn lemma_put(
    w: World,
    st: TlState,
    ty: BTy,
    op: OpV,
    end: TlState,
    from: nat,
    vals: spec_fn(ValRef) -> int,
)
    requires
        from <= st.b.insts.len(),
        goes_on(push_s(st, ty, op).0, end),
        agrees(w, end.b.insts, from, vals),
    ensures
        op_value(w, ty, op, vals) matches Some(v) ==> vals(push_s(st, ty, op).1) == v,
{
    reveal(low_u32);
    let i = st.b.insts.len() as int;
    let after = push_s(st, ty, op).0;
    assert(after.b.insts[i] == (InstV { ty, op }));
    assert(end.b.insts[i] == after.b.insts[i]);
}

proof fn lemma_agrees_before(
    w: World,
    a: TlState,
    b: TlState,
    from: nat,
    vals: spec_fn(ValRef) -> int,
)
    requires
        goes_on(a, b),
        agrees(w, b.b.insts, from, vals),
    ensures
        agrees(w, a.b.insts, from, vals),
{
    assert forall|i: int| from <= i < a.b.insts.len() implies (op_value(
        w,
        (#[trigger] a.b.insts[i]).ty,
        a.b.insts[i].op,
        vals,
    ) matches Some(v) ==> vals(ValRef::Val(InstId(i as u32))) == v) by {
        assert(b.b.insts[i] == a.b.insts[i]);
    }
}

// ---- blocks of threads ---------------------------------------------------------------------

/// The coordinate of a triple along an axis.
pub open spec fn along(t: (int, int, int), axis: int) -> int {
    if axis == 0 {
        t.0
    } else if axis == 1 {
        t.1
    } else {
        t.2
    }
}

/// `tl.program_id(a)` is one instruction, whose value is coordinate `a` of the block.
pub proof fn law_program_id(
    w: World,
    st: TlState,
    args: Seq<Expr>,
    axis: int,
    span: Span,
    vals: spec_fn(ValRef) -> int,
)
    requires
        args.len() > 0,
        args[0] matches Expr::IntLit { text, .. } && python_int(text@) == Some(axis),
        0 <= axis <= 2,
        agrees(w, program_id_s(st, args, span).0.b.insts, st.b.insts.len(), vals),
    ensures
        ({
            let (end, v) = program_id_s(st, args, span);
            &&& end.b.insts.len() == st.b.insts.len() + 1
            &&& end.b.insts.drop_last() == st.b.insts
            &&& end.b.insts.last().ty == BTy::Scalar(Scalar::I64)
            &&& end.diags == st.diags
            &&& vals(v) == along(w.block, axis)
        }),
{
    reveal(program_id_s);
    let end = program_id_s(st, args, span).0;
    let op = end.b.insts.last().op;
    lemma_put(w, st, BTy::Scalar(Scalar::I64), op, end, st.b.insts.len(), vals);
    assert(end.b.insts.drop_last() =~= st.b.insts);
}

/// Two axes give two different operations.
pub proof fn law_axes_are_apart(
    st: TlState,
    a: Seq<Expr>,
    b: Seq<Expr>,
    i: int,
    j: int,
    span: Span,
)
    requires
        a.len() > 0,
        b.len() > 0,
        a[0] matches Expr::IntLit { text, .. } && python_int(text@) == Some(i),
        b[0] matches Expr::IntLit { text, .. } && python_int(text@) == Some(j),
        0 <= i <= 2,
        0 <= j <= 2,
        i != j,
    ensures
        program_id_s(st, a, span).0.b.insts.last().op != program_id_s(
            st,
            b,
            span,
        ).0.b.insts.last().op,
{
    reveal(program_id_s);
}

/// An axis beyond the third is reported; without an axis the first is meant.
pub proof fn law_other_axes(st: TlState, args: Seq<Expr>, span: Span)
    ensures
        args.len() > 0 && (literal_of(args[0]) matches Some(n) && (n < 0 || n > 2)) ==> program_id_s(
            st,
            args,
            span,
        ).0.diags.len() == st.diags.len() + 1,
        args.len() == 0 ==> program_id_s(st, args, span).0.b.insts.last().op == OpV::BidX,
{
    reveal(program_id_s);
    reveal(const_i64_s);
}

proof fn lemma_callees()
    ensures
        "arange"@ != "load"@,
        "arange"@ != "program_id"@,
        "arange"@ != "zeros"@,
        "load"@ != "program_id"@,
        "load"@ != "zeros"@,
        "program_id"@ != "zeros"@,
        "dot"@ != "arange"@,
        "dot"@ != "load"@,
        "dot"@ != "zeros"@,
        "dot"@ != "program_id"@,
{
    reveal_strlit("program_id");
    reveal_strlit("arange");
    reveal_strlit("load");
    reveal_strlit("zeros");
    reveal_strlit("dot");
    assert("program_id"@.len() == 10);
    assert("arange"@.len() == 6);
    assert("load"@.len() == 4);
    assert("zeros"@.len() == 5);
    assert("dot"@.len() == 3);
}

/// A call of `program_id` anywhere in an expression is that of the rules.
pub proof fn law_program_id_call(st: TlState, e: Expr, outer: Seq<ValRef>)
    requires
        e matches Expr::Call { func, .. } && attr_of(*func) == Some("program_id"@),
    ensures
        e matches Expr::Call { args, span, .. } && eval_expr_s(st, e, outer) == program_id_s(
            st,
            args@,
            span,
        ),
{
    lemma_callees();
    let idx = leading(outer, shape_in(st, e));
    assert(eval_expr_s(st, e, outer) == eval_call_s(st, e, idx));
}

// ---- operators -----------------------------------------------------------------------------

/// The value of `x op y` on elements: floats have the operations of their arithmetic, integers are
/// those of 64 bits and wrap. Quotients go toward zero, and a shift to the right brings in zeros.
pub open spec fn element(f: Floats, op: BinOp, float: bool, x: int, y: int) -> Option<int> {
    let i = BTy::Scalar(Scalar::I64);
    let (a, b) = (signed(i, x), signed(i, y));
    if float {
        if op == BinOp::Add {
            Some((f.sum)(Scalar::F32, x, y))
        } else if op == BinOp::Sub {
            Some((f.difference)(Scalar::F32, x, y))
        } else if op == BinOp::Mul {
            Some((f.product)(Scalar::F32, x, y))
        } else if op == BinOp::Div || op == BinOp::FloorDiv {
            Some((f.quotient)(Scalar::F32, x, y))
        } else if op == BinOp::Mod {
            Some((f.remainder)(Scalar::F32, x, y))
        } else {
            None
        }
    } else if op == BinOp::Add {
        Some(wrap(i, a + b))
    } else if op == BinOp::Sub {
        Some(wrap(i, a - b))
    } else if op == BinOp::Mul {
        Some(wrap(i, a * b))
    } else if (op == BinOp::Div || op == BinOp::FloorDiv) && b != 0 {
        Some(wrap(i, quotient(a, b)))
    } else if op == BinOp::Mod && b != 0 {
        Some(wrap(i, remainder(a, b)))
    } else if op == BinOp::BitAnd {
        Some(((x as u64) & (y as u64)) as int)
    } else if op == BinOp::BitOr {
        Some(((x as u64) | (y as u64)) as int)
    } else if op == BinOp::BitXor {
        Some(((x as u64) ^ (y as u64)) as int)
    } else if op == BinOp::LShift && 0 <= b < 64 {
        Some(wrap(i, x * two_to(b)))
    } else if op == BinOp::RShift && 0 <= b < 64 {
        Some(wrap(i, x / two_to(b)))
    } else {
        None
    }
}

/// Running the code of an operator on two elements gives its value on theirs.
pub proof fn law_element_operator(
    w: World,
    st: TlState,
    op: BinOp,
    l: ValRef,
    r: ValRef,
    ty: BTy,
    span: Span,
    vals: spec_fn(ValRef) -> int,
)
    requires
        ty is Scalar,
        !float_bty(ty) ==> is_pattern(BTy::Scalar(Scalar::I64), vals(l)) && is_pattern(
            BTy::Scalar(Scalar::I64),
            vals(r),
        ),
        agrees(w, apply_binop_s(st, op, l, r, ty, span).0.b.insts, st.b.insts.len(), vals),
    ensures
        ({
            let float = ty == BTy::Scalar(Scalar::F32) || ty == BTy::Scalar(Scalar::F64);
            element(w.floats, op, float, vals(l), vals(r)) matches Some(n) ==> vals(
                apply_binop_s(st, op, l, r, ty, span).1,
            ) == n
        }),
        apply_binop_s(st, op, l, r, ty, span).0.b.insts.last().ty == (if float_bty(ty) {
            BTy::Scalar(Scalar::F32)
        } else {
            BTy::Scalar(Scalar::I64)
        }),
{
    reveal(apply_binop_s);
    let end = apply_binop_s(st, op, l, r, ty, span).0;
    let (x, y) = (vals(l), vals(r));
    let out = if float_bty(ty) {
        BTy::Scalar(Scalar::F32)
    } else {
        BTy::Scalar(Scalar::I64)
    };
    match arith_of(op, float_bty(ty)) {
        Some(b) => {
            lemma_put(w, st, out, OpV::Bin(b, l, r), end, st.b.insts.len(), vals);
            if !float_bty(ty) {
                law_signed_is_congruent(out, x);
                law_signed_is_congruent(out, y);
                crate::sema::meaning::lemma_wrapped_arithmetic(
                    out,
                    x,
                    y,
                    signed(out, x),
                    signed(out, y),
                );
            }
        },
        None => {},
    }
}

/// The operators that have no meaning on elements of a kind are reported.
pub proof fn law_other_operators_are_reported(
    st: TlState,
    op: BinOp,
    l: ValRef,
    r: ValRef,
    ty: BTy,
    span: Span,
)
    ensures
        op == BinOp::MatMul || op == BinOp::Pow || (float_bty(ty) && (op == BinOp::BitAnd || op
            == BinOp::BitOr || op == BinOp::BitXor || op == BinOp::LShift || op == BinOp::RShift))
            || (ty is Ptr && op != BinOp::Add && op != BinOp::Sub) <==> apply_binop_s(
            st,
            op,
            l,
            r,
            ty,
            span,
        ).0.diags.len() == st.diags.len() + 1,
        apply_binop_s(st, op, l, r, ty, span).0.diags.len() <= st.diags.len() + 1,
{
    reveal(apply_binop_s);
}

/// A pointer plus or minus a number of bytes is the address that many bytes on or back.
pub proof fn law_address_operator(
    w: World,
    st: TlState,
    op: BinOp,
    l: ValRef,
    r: ValRef,
    ty: BTy,
    span: Span,
    vals: spec_fn(ValRef) -> int,
)
    requires
        ty is Ptr,
        op == BinOp::Add || op == BinOp::Sub,
        agrees(w, apply_binop_s(st, op, l, r, ty, span).0.b.insts, st.b.insts.len(), vals),
    ensures
        goes_on(st, apply_binop_s(st, op, l, r, ty, span).0),
        op == BinOp::Add ==> vals(apply_binop_s(st, op, l, r, ty, span).1) == wrap(
            ty,
            vals(l) + vals(r),
        ),
        op == BinOp::Sub ==> vals(apply_binop_s(st, op, l, r, ty, span).1) == wrap(
            ty,
            vals(l) - vals(r),
        ),
{
    reveal(apply_binop_s);
    let end = apply_binop_s(st, op, l, r, ty, span).0;
    lemma_put(
        w,
        st,
        ty,
        OpV::Bin(
            if op == BinOp::Add {
                BBin::Add
            } else {
                BBin::Sub
            },
            l,
            r,
        ),
        end,
        st.b.insts.len(),
        vals,
    );
}

/// A number of elements is scaled to bytes: four for each element.
pub proof fn law_scaled_to_bytes(w: World, st: TlState, v: ValRef, vals: spec_fn(ValRef) -> int)
    requires
        agrees(w, scale_by_elem_bytes_s(st, v).0.b.insts, st.b.insts.len(), vals),
    ensures
        goes_on(st, scale_by_elem_bytes_s(st, v).0),
        vals(scale_by_elem_bytes_s(st, v).1) == wrap(BTy::Scalar(Scalar::I64), vals(v) * 4),
{
    reveal(scale_by_elem_bytes_s);
    reveal(const_i64_s);
    let end = scale_by_elem_bytes_s(st, v).0;
    let i = BTy::Scalar(Scalar::I64);
    let n = st.b.insts.len();
    let (st1, four) = push_s(st, i, OpV::ConstInt(4));
    lemma_put(w, st, i, OpV::ConstInt(4), end, n, vals);
    lemma_put(w, st1, i, OpV::Bin(BBin::Mul, v, four), end, n, vals);
}

/// The code of `l op r` evaluates `l` and then `r` at the same position, scales what is added to
/// or taken from a pointer to bytes, and applies the operator to what they gave, in that order.
pub proof fn law_binary_expression(
    w: World,
    st: TlState,
    e: Expr,
    outer: Seq<ValRef>,
    vals: spec_fn(ValRef) -> int,
)
    requires
        e matches Expr::BinOp { op, lhs, rhs, .. } && ({
            let idx = leading(outer, shape_in(st, e));
            let (st1, l) = eval_expr_s(st, *lhs, idx);
            let (st2, r) = eval_expr_s(st1, *rhs, idx);
            let ty = elem_in(st, e);
            &&& ty is Scalar && !float_bty(ty) ==> is_pattern(BTy::Scalar(Scalar::I64), vals(l))
                && is_pattern(BTy::Scalar(Scalar::I64), vals(r))
            &&& agrees(w, eval_expr_s(st, e, outer).0.b.insts, st2.b.insts.len(), vals)
        }),
    ensures
        e matches Expr::BinOp { op, lhs, rhs, .. } && ({
            let idx = leading(outer, shape_in(st, e));
            let (st1, l) = eval_expr_s(st, *lhs, idx);
            let (st2, r) = eval_expr_s(st1, *rhs, idx);
            let ty = elem_in(st, e);
            let v = eval_expr_s(st, e, outer).1;
            &&& ty is Scalar ==> (element(w.floats, op, float_bty(ty), vals(l), vals(r)) matches Some(
                n,
            ) ==> vals(v) == n)
            &&& elem_in(st, *lhs) is Ptr && !(elem_in(st, *rhs) is Ptr) && op == BinOp::Add
                ==> vals(v) == wrap(ty, vals(l) + vals(r) * 4)
            &&& elem_in(st, *lhs) is Ptr && !(elem_in(st, *rhs) is Ptr) && op == BinOp::Sub
                ==> vals(v) == wrap(ty, vals(l) - vals(r) * 4)
            &&& elem_in(st, *rhs) is Ptr && !(elem_in(st, *lhs) is Ptr) && op == BinOp::Add
                ==> vals(v) == wrap(ty, vals(l) * 4 + vals(r))
        }),
{
    match e {
        Expr::BinOp { op, lhs, rhs, span } => {
            let idx = leading(outer, shape_in(st, e));
            let (st1, l) = eval_expr_s(st, *lhs, idx);
            let (st2, r) = eval_expr_s(st1, *rhs, idx);
            let ty = elem_in(st, e);
            let (lt, rt) = (elem_in(st, *lhs), elem_in(st, *rhs));
            assert(ty == combined_bty(lt, rt));
            let end = eval_expr_s(st, e, outer).0;
            let m = 0x1_0000_0000_0000_0000int;
            let n = st2.b.insts.len();
            if !(ty is Ptr) {
                assert(eval_expr_s(st, e, outer) == apply_binop_s(st2, op, l, r, ty, span));
                if ty is Scalar {
                    law_element_operator(w, st2, op, l, r, ty, span, vals);
                }
            } else if op == BinOp::Add || op == BinOp::Sub {
                let (st3, l2) = if lt is Ptr {
                    (st2, l)
                } else {
                    scale_by_elem_bytes_s(st2, l)
                };
                let (st4, r2) = if rt is Ptr {
                    (st3, r)
                } else {
                    scale_by_elem_bytes_s(st3, r)
                };
                assert(eval_expr_s(st, e, outer) == apply_binop_s(st4, op, l2, r2, ty, span));
                assert(goes_on(st4, end)) by {
                    reveal(apply_binop_s);
                }
                assert(goes_on(st2, st3) && goes_on(st3, st4)) by {
                    reveal(scale_by_elem_bytes_s);
                    reveal(const_i64_s);
                }
                lemma_agrees_before(w, st4, end, n, vals);
                lemma_agrees_before(w, st3, st4, n, vals);
                assert(agrees(w, end.b.insts, st4.b.insts.len(), vals));
                assert(agrees(w, st4.b.insts, st3.b.insts.len(), vals));
                law_address_operator(w, st4, op, l2, r2, ty, span, vals);
                if !(lt is Ptr) {
                    law_scaled_to_bytes(w, st2, l, vals);
                    vstd::arithmetic::div_mod::lemma_add_mod_noop_right(vals(r), vals(l) * 4, m);
                }
                if !(rt is Ptr) {
                    law_scaled_to_bytes(w, st3, r, vals);
                    vstd::arithmetic::div_mod::lemma_add_mod_noop_right(vals(l), vals(r) * 4, m);
                    vstd::arithmetic::div_mod::lemma_sub_mod_noop_right(vals(l), vals(r) * 4, m);
                }
            }
        },
        _ => {},
    }
}

/// Whether `x op y` holds of two elements, for the operators that compare.
pub open spec fn element_relation(f: Floats, op: CmpOp, float: bool, x: int, y: int) -> Option<
    bool,
> {
    let i = BTy::Scalar(Scalar::I64);
    let s = Scalar::F32;
    let (less, equal, more) = if float {
        ((f.less)(s, x, y), (f.equal)(s, x, y), (f.less)(s, y, x))
    } else {
        (signed(i, x) < signed(i, y), signed(i, x) == signed(i, y), signed(i, x) > signed(i, y))
    };
    if op == CmpOp::Lt {
        Some(less)
    } else if op == CmpOp::LtE {
        Some(less || equal)
    } else if op == CmpOp::Gt {
        Some(more)
    } else if op == CmpOp::GtE {
        Some(more || equal)
    } else if op == CmpOp::Eq {
        Some(equal)
    } else if op == CmpOp::NotEq {
        Some(!equal)
    } else {
        None
    }
}

/// A comparison of two elements is 1 where it holds and else 0; the operators that do not compare
/// are reported. Two floats without an order are left out.
pub proof fn law_element_comparison(
    w: World,
    st: TlState,
    op: CmpOp,
    l: ValRef,
    r: ValRef,
    float: bool,
    span: Span,
    vals: spec_fn(ValRef) -> int,
)
    requires
        float ==> !(w.floats.unordered)(Scalar::F32, vals(l), vals(r)),
        !float ==> is_pattern(BTy::Scalar(Scalar::I64), vals(l)) && is_pattern(
            BTy::Scalar(Scalar::I64),
            vals(r),
        ),
        agrees(w, apply_relation_s(st, op, l, r, float, span).0.b.insts, st.b.insts.len(), vals),
    ensures
        match element_relation(w.floats, op, float, vals(l), vals(r)) {
            Some(b) => vals(apply_relation_s(st, op, l, r, float, span).1) == truth(b)
                && apply_relation_s(st, op, l, r, float, span).0.diags == st.diags,
            None => apply_relation_s(st, op, l, r, float, span).0.diags.len() == st.diags.len() + 1,
        },
        goes_on(st, apply_relation_s(st, op, l, r, float, span).0),
{
    reveal(apply_relation_s);
    let end = apply_relation_s(st, op, l, r, float, span).0;
    if element_relation(w.floats, op, float, vals(l), vals(r)) is Some {
        lemma_put(
            w,
            st,
            BTy::Scalar(Scalar::I1),
            end.b.insts.last().op,
            end,
            st.b.insts.len(),
            vals,
        );
        if !float {
            law_signed_is_congruent(BTy::Scalar(Scalar::I64), vals(l));
            law_signed_is_congruent(BTy::Scalar(Scalar::I64), vals(r));
        }
    }
}

/// `-x` is zero less `x`, `+x` is `x`, `not x` is the other truth value and `~x` has every bit the
/// other way.
pub proof fn law_unary_expression(
    w: World,
    st: TlState,
    e: Expr,
    outer: Seq<ValRef>,
    vals: spec_fn(ValRef) -> int,
)
    requires
        e matches Expr::UnaryOp { op, operand, .. } && ({
            let idx = leading(outer, shape_in(st, e));
            let (st1, v) = eval_expr_s(st, *operand, idx);
            &&& is_pattern(BTy::Scalar(Scalar::I64), vals(v))
            &&& agrees(w, eval_expr_s(st, e, outer).0.b.insts, st1.b.insts.len(), vals)
        }),
    ensures
        e matches Expr::UnaryOp { op, operand, .. } && ({
            let idx = leading(outer, shape_in(st, e));
            let (st1, v) = eval_expr_s(st, *operand, idx);
            let x = vals(v);
            let y = vals(eval_expr_s(st, e, outer).1);
            match op {
                UnaryOp::UAdd => y == x,
                UnaryOp::USub => if float_bty(elem_in(st, *operand)) {
                    y == (w.floats.difference)(Scalar::F32, 0, x)
                } else {
                    y == wrap(BTy::Scalar(Scalar::I64), 0 - x)
                },
                UnaryOp::Not => y == (x as u64 ^ 1u64) as int,
                UnaryOp::Invert => y == (x as u64 ^ 0xffff_ffff_ffff_ffffu64) as int,
            }
        }),
{
    match e {
        Expr::UnaryOp { op, operand, span } => {
            reveal(const_i64_s);
            let idx = leading(outer, shape_in(st, e));
            let (st1, v) = eval_expr_s(st, *operand, idx);
            let end = eval_expr_s(st, e, outer).0;
            let n = st1.b.insts.len();
            let i = BTy::Scalar(Scalar::I64);
            let f = BTy::Scalar(Scalar::F32);
            let i1 = BTy::Scalar(Scalar::I1);
            match op {
                UnaryOp::UAdd => {},
                UnaryOp::USub => {
                    let float = float_bty(elem_in(st, *operand));
                    let (ty, zero_op) = if float {
                        (f, OpV::ConstFloat(float_zero()))
                    } else {
                        (i, OpV::ConstInt(0))
                    };
                    let (st2, zero) = push_s(st1, ty, zero_op);
                    assert(eval_expr_s(st, e, outer) == apply_binop_s(
                        st2,
                        BinOp::Sub,
                        zero,
                        v,
                        ty,
                        span,
                    ));
                    assert(goes_on(st2, end)) by {
                        reveal(apply_binop_s);
                    }
                    lemma_put(w, st1, ty, zero_op, end, n, vals);
                    law_element_operator(w, st2, BinOp::Sub, zero, v, ty, span, vals);
                    law_signed_is_congruent(i, vals(v));
                    crate::sema::meaning::lemma_wrapped_arithmetic(
                        i,
                        0,
                        vals(v),
                        0,
                        signed(i, vals(v)),
                    );
                },
                UnaryOp::Not => {
                    let (st2, one) = push_s(st1, i1, OpV::ConstInt(1));
                    lemma_put(w, st1, i1, OpV::ConstInt(1), end, n, vals);
                    lemma_put(w, st2, i1, OpV::Bin(BBin::Xor, v, one), end, n, vals);
                },
                UnaryOp::Invert => {
                    let (st2, ones) = push_s(st1, i, OpV::ConstInt(MINUS_ONE));
                    lemma_put(w, st1, i, OpV::ConstInt(MINUS_ONE), end, n, vals);
                    lemma_put(w, st2, i, OpV::Bin(BBin::Xor, v, ones), end, n, vals);
                },
            }
        },
        _ => {},
    }
}

/// The type of the elements of `l op r`: that of a pointer operand, that of both where they agree,
/// and else a float where one of them is a float, and an integer where none is.
pub proof fn law_element_types(a: BTy, b: BTy)
    ensures
        a is Ptr ==> combined_bty(a, b) == a,
        !(a is Ptr) && b is Ptr ==> combined_bty(a, b) == b,
        combined_bty(a, a) == a,
        !(a is Ptr) && !(b is Ptr) ==> combined_bty(a, b) == combined_bty(b, a),
        a is Scalar && b is Scalar && a != b ==> combined_bty(a, b) == (if a == BTy::Scalar(
            Scalar::F32,
        ) || a == BTy::Scalar(Scalar::F64) || b == BTy::Scalar(Scalar::F32) || b == BTy::Scalar(
            Scalar::F64,
        ) {
            BTy::Scalar(Scalar::F32)
        } else {
            BTy::Scalar(Scalar::I64)
        }),
{
}

// ---- literals ------------------------------------------------------------------------------

/// An integer literal is its number, a float literal its pattern, and a truth value 1 or 0.
pub proof fn law_literals(
    w: World,
    st: TlState,
    e: Expr,
    outer: Seq<ValRef>,
    vals: spec_fn(ValRef) -> int,
)
    requires
        agrees(w, eval_expr_s(st, e, outer).0.b.insts, st.b.insts.len(), vals),
    ensures
        match e {
            Expr::IntLit { text, .. } => python_int(text@) matches Some(n) ==> vals(
                eval_expr_s(st, e, outer).1,
            ) == wrap(BTy::Scalar(Scalar::I64), n),
            Expr::FloatLit { value, .. } => value matches Some(c) ==> vals(
                eval_expr_s(st, e, outer).1,
            ) == c.single,
            Expr::BoolLit { value, .. } => vals(eval_expr_s(st, e, outer).1) == truth(value),
            _ => true,
        },
{
    reveal(const_i64_s);
    let end = eval_expr_s(st, e, outer).0;
    let n = st.b.insts.len();
    match e {
        Expr::IntLit { text, .. } => {
            if python_int(text@) is Some {
                let v = python_int(text@)->0 as i64;
                lemma_put(w, st, BTy::Scalar(Scalar::I64), OpV::ConstInt(v), end, n, vals);
            }
        },
        Expr::FloatLit { value, .. } => {
            if value is Some {
                lemma_put(
                    w,
                    st,
                    BTy::Scalar(Scalar::F32),
                    OpV::ConstFloat(value->0),
                    end,
                    n,
                    vals,
                );
            }
        },
        Expr::BoolLit { value, .. } => {
            lemma_put(
                w,
                st,
                BTy::Scalar(Scalar::I1),
                OpV::ConstInt(
                    if value {
                        1
                    } else {
                        0
                    },
                ),
                end,
                n,
                vals,
            );
        },
        _ => {},
    }
}

/// Element `i` of `arange(lo, hi)` is `lo + i`.
pub proof fn law_arange(
    w: World,
    st: TlState,
    e: Expr,
    outer: Seq<ValRef>,
    vals: spec_fn(ValRef) -> int,
)
    requires
        e matches Expr::Call { func, args, .. } && attr_of(*func) == Some("arange"@) && args@.len()
            == 2 && leading(outer, shape_in(st, e)).len() == 1 && agrees(
            w,
            eval_expr_s(st, e, outer).0.b.insts,
            eval_expr_s(st, args@[0], Seq::<ValRef>::empty()).0.b.insts.len(),
            vals,
        ),
    ensures
        e matches Expr::Call { args, .. } && vals(eval_expr_s(st, e, outer).1) == wrap(
            BTy::Scalar(Scalar::I64),
            vals(eval_expr_s(st, args@[0], Seq::<ValRef>::empty()).1) + vals(
                leading(outer, shape_in(st, e))[0],
            ),
        ),
{
    match e {
        Expr::Call { args, .. } => {
            let idx = leading(outer, shape_in(st, e));
            assert(eval_expr_s(st, e, outer) == eval_call_s(st, e, idx));
            let (st1, lo) = eval_expr_s(st, args@[0], Seq::<ValRef>::empty());
            lemma_put(
                w,
                st1,
                BTy::Scalar(Scalar::I64),
                OpV::Bin(BBin::Add, lo, idx[0]),
                eval_expr_s(st, e, outer).0,
                st1.b.insts.len(),
                vals,
            );
        },
        _ => {},
    }
}

/// Every element of `zeros` is the zero of its type: an integer where an integer type is asked
/// for, and else a float.
pub proof fn law_zeros(
    w: World,
    st: TlState,
    e: Expr,
    outer: Seq<ValRef>,
    vals: spec_fn(ValRef) -> int,
)
    requires
        e matches Expr::Call { func, .. } && attr_of(*func) == Some("zeros"@),
        agrees(w, eval_expr_s(st, e, outer).0.b.insts, st.b.insts.len(), vals),
    ensures
        vals(eval_expr_s(st, e, outer).1) == 0,
        eval_expr_s(st, e, outer).0.b.insts.last().ty == elem_in(st, e),
{
    lemma_callees();
    reveal(zero_of_s);
    match e {
        Expr::Call { keywords, .. } => {
            let idx = leading(outer, shape_in(st, e));
            let end = eval_expr_s(st, e, outer).0;
            assert(eval_expr_s(st, e, outer) == eval_call_s(st, e, idx));
            let ty = zeros_ty(keywords@);
            lemma_put(w, st, ty, end.b.insts.last().op, end, st.b.insts.len(), vals);
            lemma_zeros_ty(keywords@, 0);
        },
        _ => {},
    }
}

proof fn lemma_zeros_ty(kws: Seq<crate::sema::triton_ast::Keyword>, i: nat)
    ensures
        crate::sema::triton_lower::dtype_from(kws, i) == BTy::Scalar(Scalar::I64)
            || crate::sema::triton_lower::dtype_from(kws, i) == BTy::Scalar(Scalar::F32),
    decreases kws.len() - i,
{
    if i < kws.len() {
        lemma_zeros_ty(kws, i + 1);
    }
}

// ---- positions -----------------------------------------------------------------------------

/// The elements of a tile lie row by row: the one at row `i` and column `j` is number
/// `i * columns + j`.
pub proof fn law_row_by_row(
    w: World,
    st: TlState,
    v: VarV,
    idx: Seq<ValRef>,
    span: Span,
    vals: spec_fn(ValRef) -> int,
)
    requires
        idx.len() == 1 || (idx.len() == 2 && v.dims.len() == 2),
        idx.len() == 1 ==> is_pattern(BTy::Scalar(Scalar::I64), vals(idx[0])),
        agrees(w, linear_index_s(st, v, idx, span).0.b.insts, st.b.insts.len(), vals),
    ensures
        goes_on(st, linear_index_s(st, v, idx, span).0),
        linear_index_s(st, v, idx, span).0.diags == st.diags,
        linear_index_s(st, v, idx, span).0.scratch == st.scratch,
        vals(linear_index_s(st, v, idx, span).1) == wrap(
            BTy::Scalar(Scalar::I64),
            if idx.len() == 1 {
                vals(idx[0])
            } else {
                vals(idx[0]) * vals(v.dims[1]) + vals(idx[1])
            },
        ),
{
    reveal(linear_index_s);
    let i = BTy::Scalar(Scalar::I64);
    let end = linear_index_s(st, v, idx, span).0;
    let n = st.b.insts.len();
    if idx.len() == 2 {
        let (st1, scaled) = push_s(st, i, OpV::Bin(BBin::Mul, idx[0], v.dims[1]));
        lemma_put(w, st, i, OpV::Bin(BBin::Mul, idx[0], v.dims[1]), end, n, vals);
        lemma_put(w, st1, i, OpV::Bin(BBin::Add, scaled, idx[1]), end, n, vals);
        vstd::arithmetic::div_mod::lemma_add_mod_noop_right(
            vals(idx[1]),
            vals(idx[0]) * vals(v.dims[1]),
            0x1_0000_0000_0000_0000,
        );
    } else {
        law_signed_is_congruent(i, vals(idx[0]));
    }
}

/// How many bytes an element takes.
pub open spec fn element_bytes(ty: BTy) -> int {
    if ty == BTy::Scalar(Scalar::I1) || ty == BTy::Scalar(Scalar::I8) {
        1
    } else if ty == BTy::Scalar(Scalar::I16) || ty == BTy::Scalar(Scalar::F16) {
        2
    } else if ty == BTy::Scalar(Scalar::I32) || ty == BTy::Scalar(Scalar::F32) {
        4
    } else {
        8
    }
}

/// An element of a tile lies behind the start of the tile, as many elements on as its number says.
pub proof fn law_tile_element(
    w: World,
    st: TlState,
    v: VarV,
    idx: Seq<ValRef>,
    span: Span,
    vals: spec_fn(ValRef) -> int,
)
    requires
        v.storage is Scratch,
        st.scratch is Some,
        idx.len() == 1 || (idx.len() == 2 && v.dims.len() == 2),
        idx.len() == 1 ==> is_pattern(BTy::Scalar(Scalar::I64), vals(idx[0])),
        agrees(w, tile_elem_addr_s(st, v, idx, span).0.b.insts, st.b.insts.len(), vals),
    ensures
        ({
            let number = if idx.len() == 1 {
                vals(idx[0])
            } else {
                vals(idx[0]) * vals(v.dims[1]) + vals(idx[1])
            };
            vals(tile_elem_addr_s(st, v, idx, span).1) == wrap(
                BTy::Ptr(AddrSpace::Global),
                vals(ValRef::Param(st.scratch->0)) + tile_offset(v.storage->ordinal) + number
                    * element_bytes(v.elem_bty),
            )
        }),
{
    reveal(tile_elem_addr_s);
    reveal(scratch_base_ptr_s);
    reveal(const_i64_s);
    let i = BTy::Scalar(Scalar::I64);
    let p = BTy::Ptr(AddrSpace::Global);
    let end = tile_elem_addr_s(st, v, idx, span).0;
    let n = st.b.insts.len();
    let off = tile_offset(v.storage->ordinal);
    let base_ref = ValRef::Param(st.scratch->0);
    let (st1, ov) = push_s(st, i, OpV::ConstInt(off));
    let (st2, base) = push_s(st1, p, OpV::Bin(BBin::Add, base_ref, ov));
    let (st3, lin) = linear_index_s(st2, v, idx, span);
    let size = crate::sema::triton_lower::width_of(v.elem_bty);
    let (st4, sv) = push_s(st3, i, OpV::ConstInt(size));
    let (st5, bytes) = push_s(st4, i, OpV::Bin(BBin::Mul, lin, sv));
    let last = OpV::Bin(BBin::Add, base, bytes);
    assert(end == push_s(st5, p, last).0);
    assert(goes_on(st2, st3)) by {
        reveal(linear_index_s);
    }
    assert(goes_on(st3, end));
    assert(goes_on(st2, end));
    assert(goes_on(st1, st2));
    assert(goes_on(st1, end));
    lemma_agrees_before(w, st3, end, n, vals);
    assert(agrees(w, st3.b.insts, st2.b.insts.len(), vals));
    law_row_by_row(w, st2, v, idx, span, vals);
    lemma_put(w, st, i, OpV::ConstInt(off), end, n, vals);
    lemma_put(w, st1, p, OpV::Bin(BBin::Add, base_ref, ov), end, n, vals);
    lemma_put(w, st3, i, OpV::ConstInt(size), end, n, vals);
    lemma_put(w, st4, i, OpV::Bin(BBin::Mul, lin, sv), end, n, vals);
    lemma_put(w, st5, p, last, end, n, vals);
    let m = 0x1_0000_0000_0000_0000int;
    let number = if idx.len() == 1 {
        vals(idx[0])
    } else {
        vals(idx[0]) * vals(v.dims[1]) + vals(idx[1])
    };
    let s = size as int;
    let b = vals(base_ref);
    assert(s % m == s);
    assert(off as int % m == off);
    vstd::arithmetic::div_mod::lemma_mul_mod_noop_left(number, s, m);
    assert(vals(bytes) == (number * s) % m);
    assert(vals(base) == (b + off) % m);
    vstd::arithmetic::div_mod::lemma_add_mod_noop(b + off, number * s, m);
}

/// Two tiles are apart by at least their spacing, and lie behind the start of the scratch space.
pub proof fn law_tiles_are_apart(i: u32, j: u32)
    requires
        i < j,
    ensures
        tile_offset(i) + 16384 <= tile_offset(j),
        tile_offset(i) >= crate::sema::triton_lower::SCRATCH_BASE_BYTES,
{
}

/// An expression of rank `r` looks at the first `r` positions alone, one of unknown rank at all.
pub proof fn law_leading_positions(idx: Seq<ValRef>, shape: TileTyV)
    ensures
        match shape {
            TileTyV::Scalar(_) => leading(idx, shape).len() == 0,
            TileTyV::Rank1(_) => idx.len() >= 1 ==> leading(idx, shape) == idx.take(1),
            TileTyV::Rank2(_, _) => idx.len() >= 2 ==> leading(idx, shape) == idx.take(2),
            TileTyV::Unknown => true,
        },
{
}

/// A subscript looks at the positions of the axes that it keeps: `t[:, None]` at `(i, j)` is `t` at
/// `i`, and `t[None, :]` is `t` at `j`.
pub proof fn law_kept_positions(i: ValRef, j: ValRef)
    ensures
        kept(seq![ReshapeStep::Keep, ReshapeStep::Insert], seq![i, j], 2) == seq![i],
        kept(seq![ReshapeStep::Insert, ReshapeStep::Keep], seq![i, j], 2) == seq![j],
        kept(seq![ReshapeStep::Keep, ReshapeStep::Keep], seq![i, j], 2) == seq![i, j],
        kept(seq![ReshapeStep::Keep], seq![i], 1) == seq![i],
{
    reveal_with_fuel(kept, 3);
    assert(kept(seq![ReshapeStep::Keep, ReshapeStep::Insert], seq![i, j], 2) =~= seq![i]);
    assert(kept(seq![ReshapeStep::Insert, ReshapeStep::Keep], seq![i, j], 2) =~= seq![j]);
    assert(kept(seq![ReshapeStep::Keep, ReshapeStep::Keep], seq![i, j], 2) =~= seq![i, j]);
    assert(kept(seq![ReshapeStep::Keep], seq![i], 1) =~= seq![i]);
}

/// The value of a subscript is that of the whole at the positions that are kept.
pub proof fn law_subscript(st: TlState, e: Expr, outer: Seq<ValRef>)
    requires
        e matches Expr::Subscript { index, .. } && index_steps(*index) is Some,
    ensures
        e matches Expr::Subscript { value, index, .. } && ({
            let idx = leading(outer, shape_in(st, e));
            let steps = index_steps(*index)->0;
            let n = if steps.len() < idx.len() {
                steps.len()
            } else {
                idx.len()
            };
            eval_expr_s(st, e, outer) == eval_expr_s(st, *value, kept(steps, idx, n))
        }),
{
}

} // verus!
