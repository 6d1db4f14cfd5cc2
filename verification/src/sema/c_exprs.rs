//! What the expressions of CUDA C mean: the code of an expression computes its value from the
//! values of its parts, and the places that it names are where C has them.

use vstd::prelude::*;

use crate::bir::{
    float_one, float_zero, AddrSpace, BinOp as BBin, CastOp, FCmpPred, ICmpPred, InstV, OpV, Scalar,
    Ty as BTy, ValRef,
};
use crate::bits::{low_i64, low_u32};
use crate::numeral::c_int;
use crate::sema::c_ast::{AssignOp, BinOp, Expr, IncDecOp, ScalarKind, UnaryOp};
use crate::sema::c_meaning::{
    arithmetic, converted, goes_on, in_range, int_of, is_arithmetic, is_relation, large_quotient,
    law_arithmetic, law_comparison, law_conversion, law_machine_types, lemma_agrees_before,
    lemma_pushed, machine, relation,
};
use crate::sema::lower::{
    bir_ty, coerce_to_s, field_offset_s, field_place_s, index_base_s, index_op, load_addr_s,
    lower_add_s, lower_arith_s, lower_assign_s, lower_binary_s, lower_compare_s, lower_expr_s,
    lower_incdec_s, lower_index_lvalue_s, lower_lvalue_s, lower_member_lvalue_s, lower_ptr_offset_s,
    lower_sub_s, lower_unary_s, member_base_s, push_s, size_s, slot_addr_s, slot_lvalue_s,
    store_addr_s, widen_index_i64_s, LValueV, LwState, SlotV, MINUS_ONE,
};
use crate::sema::meaning::{
    agrees, law_signed_is_congruent, patterns, scalar_of, signed, truth, width, wrap, World,
};
use crate::sema::ty::TyV;
use crate::sema::typing::{
    address, common, compound_operator, literal_type, number, reached, real_number, whole_number,
};

verus! {

proof fn lemma_agrees_later(
    w: World,
    a: LwState,
    from: nat,
    later: nat,
    vals: spec_fn(ValRef) -> int,
)
    requires
        from <= later,
        agrees(w, a.b.insts, from, vals),
    ensures
        agrees(w, a.b.insts, later, vals),
{
}

// ---- literals ------------------------------------------------------------------------------

/// An integer literal has the type of its suffix and the value of its digits.
pub proof fn law_integer_literal(w: World, st: LwState, e: Expr, vals: spec_fn(ValRef) -> int)
    requires
        e is IntLit,
        agrees(w, lower_expr_s(st, e).0.b.insts, st.b.insts.len(), vals),
    ensures
        ({
            let (end, (v, t)) = lower_expr_s(st, e);
            let lit = e->IntLit_value;
            &&& t == literal_type(lit)
            &&& -0x8000_0000_0000_0000 <= c_int(lit.text@, lit.base) <= 0x7fff_ffff_ffff_ffff
                ==> vals(v) == wrap(machine(t), c_int(lit.text@, lit.base))
        }),
{
    match e {
        Expr::IntLit { value, .. } => {
            let t = literal_type(value);
            law_machine_types(t);
            let n = c_int(value.text@, value.base) as i64;
            lemma_pushed(
                w,
                st,
                bir_ty(t),
                OpV::ConstInt(n),
                lower_expr_s(st, e).0,
                st.b.insts.len(),
                vals,
            );
        },
        _ => {},
    }
}

/// A floating-point literal is its number in the precision of its type, a character its code.
pub proof fn law_other_literals(w: World, st: LwState, e: Expr, vals: spec_fn(ValRef) -> int)
    requires
        e is FloatLit || e is CharLit,
        agrees(w, lower_expr_s(st, e).0.b.insts, st.b.insts.len(), vals),
    ensures
        ({
            let (end, (v, t)) = lower_expr_s(st, e);
            match e {
                Expr::FloatLit { value, .. } => real_number(t) && vals(v) == (if t == TyV::Scalar(
                    ScalarKind::Float,
                ) {
                    value.value.single as int
                } else {
                    value.value.double as int
                }),
                Expr::CharLit { value, .. } => t == TyV::Scalar(ScalarKind::Char) && vals(v)
                    == value as int % 256,
                _ => true,
            }
        }),
{
    let (end, (v, t)) = lower_expr_s(st, e);
    law_machine_types(t);
    match e {
        Expr::FloatLit { value, .. } => {
            lemma_pushed(
                w,
                st,
                bir_ty(t),
                OpV::ConstFloat(value.value),
                end,
                st.b.insts.len(),
                vals,
            );
        },
        Expr::CharLit { value, .. } => {
            lemma_pushed(
                w,
                st,
                BTy::Scalar(Scalar::I8),
                OpV::ConstInt(value as i64),
                end,
                st.b.insts.len(),
                vals,
            );
        },
        _ => {},
    }
}

// ---- binary operators ----------------------------------------------------------------------

/// The code of `l op r` first evaluates `l`, then `r`, and then computes the C value of the
/// operator on what they gave, in their common type.
pub proof fn law_arithmetic_expression(
    w: World,
    st: LwState,
    e: Expr,
    vals: spec_fn(ValRef) -> int,
)
    requires
        e matches Expr::Binary { op, lhs, rhs, .. } && is_arithmetic(op) && ({
            let (st1, (lv, lty)) = lower_expr_s(st, *lhs);
            let (st2, (rv, rty)) = lower_expr_s(st1, *rhs);
            &&& number(lty)
            &&& number(rty)
            &&& in_range(lty, vals(lv))
            &&& in_range(rty, vals(rv))
            &&& agrees(w, lower_expr_s(st, e).0.b.insts, st2.b.insts.len(), vals)
        }),
    ensures
        e matches Expr::Binary { op, lhs, rhs, .. } && ({
            let (st1, (lv, lty)) = lower_expr_s(st, *lhs);
            let (st2, (rv, rty)) = lower_expr_s(st1, *rhs);
            let (end, (v, t)) = lower_expr_s(st, e);
            let x = converted(w.floats, lty, t, vals(lv));
            let y = converted(w.floats, rty, t, vals(rv));
            &&& t == common(lty, rty)
            &&& goes_on(st2, end)
            &&& !large_quotient(op, t, x, y) ==> (arithmetic(w.floats, op, t, x, y) matches Some(n)
                ==> vals(v) == n)
        }),
{
    match e {
        Expr::Binary { op, lhs, rhs, span } => {
            reveal(lower_add_s);
            reveal(lower_sub_s);
            let (st1, (lv, lty)) = lower_expr_s(st, *lhs);
            let (st2, (rv, rty)) = lower_expr_s(st1, *rhs);
            assert(lower_expr_s(st, e) == lower_binary_s(st, e));
            assert(lower_binary_s(st, e) == lower_arith_s(st2, op, lv, lty, rv, rty));
            law_arithmetic(w, st2, op, lv, lty, rv, rty, vals);
        },
        _ => {},
    }
}

/// The code of a comparison evaluates both operands and is 1 where the relation holds of what they
/// gave, and else 0.
pub proof fn law_comparison_expression(
    w: World,
    st: LwState,
    e: Expr,
    vals: spec_fn(ValRef) -> int,
)
    requires
        e matches Expr::Binary { op, lhs, rhs, .. } && is_relation(op) && ({
            let (st1, (lv, lty)) = lower_expr_s(st, *lhs);
            let (st2, (rv, rty)) = lower_expr_s(st1, *rhs);
            let c = common(lty, rty);
            &&& number(lty)
            &&& number(rty)
            &&& in_range(lty, vals(lv))
            &&& in_range(rty, vals(rv))
            &&& agrees(w, lower_expr_s(st, e).0.b.insts, st2.b.insts.len(), vals)
            &&& real_number(c) ==> !(w.floats.unordered)(
                scalar_of(machine(c)),
                converted(w.floats, lty, c, vals(lv)),
                converted(w.floats, rty, c, vals(rv)),
            )
        }),
    ensures
        e matches Expr::Binary { op, lhs, rhs, .. } && ({
            let (st1, (lv, lty)) = lower_expr_s(st, *lhs);
            let (st2, (rv, rty)) = lower_expr_s(st1, *rhs);
            let (end, (v, t)) = lower_expr_s(st, e);
            let c = common(lty, rty);
            let x = converted(w.floats, lty, c, vals(lv));
            let y = converted(w.floats, rty, c, vals(rv));
            &&& t == TyV::Scalar(ScalarKind::Int)
            &&& vals(v) == truth(relation(w.floats, op, c, x, y))
        }),
{
    match e {
        Expr::Binary { op, lhs, rhs, span } => {
            let (st1, (lv, lty)) = lower_expr_s(st, *lhs);
            let (st2, (rv, rty)) = lower_expr_s(st1, *rhs);
            assert(lower_expr_s(st, e) == lower_binary_s(st, e));
            assert(lower_binary_s(st, e) == lower_compare_s(st2, op, lv, lty, rv, rty));
            law_comparison(w, st2, op, lv, lty, rv, rty, vals);
        },
        _ => {},
    }
}

/// The sum and the difference of two numbers are different operations on the same operands: their
/// codes differ in the last instruction alone.
pub proof fn law_sum_is_no_difference(
    st: LwState,
    lv: ValRef,
    lty: TyV,
    rv: ValRef,
    rty: TyV,
)
    requires
        number(lty),
        number(rty),
    ensures
        ({
            let a = lower_arith_s(st, BinOp::Add, lv, lty, rv, rty).0.b.insts;
            let b = lower_arith_s(st, BinOp::Sub, lv, lty, rv, rty).0.b.insts;
            &&& a.drop_last() == b.drop_last()
            &&& a.last().ty == b.last().ty
            &&& a.last().op != b.last().op
        }),
{
    reveal(lower_arith_s);
    reveal(coerce_to_s);
    let a = lower_arith_s(st, BinOp::Add, lv, lty, rv, rty).0.b.insts;
    let b = lower_arith_s(st, BinOp::Sub, lv, lty, rv, rty).0.b.insts;
    assert(a.drop_last() =~= b.drop_last());
}

// ---- pointers ------------------------------------------------------------------------------

proof fn lemma_offset(m: int, p: int, c: int, i: int, s: int)
    requires
        m > 0,
        i % m == c % m,
    ensures
        (p + (i * s) % m) % m == (p + c * s) % m,
{
    vstd::arithmetic::div_mod::lemma_mul_mod_noop_left(i, s, m);
    vstd::arithmetic::div_mod::lemma_mul_mod_noop_left(c, s, m);
    vstd::arithmetic::div_mod::lemma_add_mod_noop_right(p, i * s, m);
    vstd::arithmetic::div_mod::lemma_add_mod_noop_right(p, c * s, m);
}

/// An index is widened to 64 bits as the number it is.
pub proof fn law_widened_index(
    w: World,
    st: LwState,
    v: ValRef,
    t: TyV,
    vals: spec_fn(ValRef) -> int,
)
    requires
        whole_number(t),
        in_range(t, vals(v)),
        agrees(w, widen_index_i64_s(st, v, t).0.b.insts, st.b.insts.len(), vals),
    ensures
        goes_on(st, widen_index_i64_s(st, v, t).0),
        vals(widen_index_i64_s(st, v, t).1) == wrap(
            BTy::Scalar(Scalar::I64),
            int_of(t, vals(v)),
        ),
        widen_index_i64_s(st, v, t).0.scopes == st.scopes,
        widen_index_i64_s(st, v, t).0.tags == st.tags,
{
    reveal(widen_index_i64_s);
    reveal(coerce_to_s);
    law_machine_types(t);
    law_signed_is_congruent(machine(t), vals(v));
    if bir_ty(t) != BTy::Scalar(Scalar::I64) {
        law_conversion(w, st, v, t, TyV::Scalar(ScalarKind::Long), vals);
    }
}

/// A pointer moved by a number is the address that lies as many elements on.
pub proof fn law_pointer_offset(
    w: World,
    st: LwState,
    pv: ValRef,
    pty: TyV,
    iv: ValRef,
    ity: TyV,
    vals: spec_fn(ValRef) -> int,
)
    requires
        address(pty),
        !(reached(pty) is Unknown),
        whole_number(ity),
        in_range(ity, vals(iv)),
        size_s(st, reached(pty)) < 0x8000_0000_0000_0000,
        agrees(w, lower_ptr_offset_s(st, pv, pty, iv, ity).0.b.insts, st.b.insts.len(), vals),
    ensures
        ({
            let (end, (v, t)) = lower_ptr_offset_s(st, pv, pty, iv, ity);
            &&& t == TyV::Pointer(Box::new(reached(pty)), false)
            &&& goes_on(st, end)
            &&& vals(v) == wrap(
                machine(t),
                vals(pv) + int_of(ity, vals(iv)) * size_s(st, reached(pty)),
            )
        }),
{
    reveal(lower_ptr_offset_s);
    reveal(widen_index_i64_s);
    reveal(coerce_to_s);
    reveal(low_i64);
    let i64t = BTy::Scalar(Scalar::I64);
    let n = st.b.insts.len();
    let end = lower_ptr_offset_s(st, pv, pty, iv, ity).0;
    let size = size_s(st, reached(pty));
    let esz = low_i64(size as int);
    let (st1, idx) = widen_index_i64_s(st, iv, ity);
    let (st2, ev) = push_s(st1, i64t, OpV::ConstInt(esz));
    let (st3, off) = push_s(st2, i64t, OpV::Bin(BBin::Mul, idx, ev));
    let (st4, addr) = push_s(st3, BTy::Ptr(AddrSpace::Global), OpV::Bin(BBin::Add, pv, off));
    assert(end == st4);
    assert(esz == size);
    lemma_agrees_before(w, st1, end, n, vals);
    law_widened_index(w, st, iv, ity, vals);
    lemma_pushed(w, st1, i64t, OpV::ConstInt(esz), end, n, vals);
    lemma_pushed(w, st2, i64t, OpV::Bin(BBin::Mul, idx, ev), end, n, vals);
    lemma_pushed(
        w,
        st3,
        BTy::Ptr(AddrSpace::Global),
        OpV::Bin(BBin::Add, pv, off),
        end,
        n,
        vals,
    );
    let m = 0x1_0000_0000_0000_0000int;
    vstd::arithmetic::div_mod::lemma_small_mod(size as nat, m as nat);
    vstd::arithmetic::div_mod::lemma_mod_twice(int_of(ity, vals(iv)), m);
    lemma_offset(m, vals(pv), int_of(ity, vals(iv)), vals(idx), size as int);
}

/// `p + i`, `i + p` and `p - i` are the addresses `i` elements on and `i` elements back.
pub proof fn law_pointer_arithmetic(
    w: World,
    st: LwState,
    e: Expr,
    vals: spec_fn(ValRef) -> int,
)
    requires
        e matches Expr::Binary { op, lhs, rhs, .. } && ({
            let (st1, (lv, lty)) = lower_expr_s(st, *lhs);
            let (st2, (rv, rty)) = lower_expr_s(st1, *rhs);
            &&& op == BinOp::Add || op == BinOp::Sub
            &&& address(lty)
            &&& whole_number(rty)
            &&& !(reached(lty) is Unknown)
            &&& in_range(rty, vals(rv))
            &&& size_s(st2, reached(lty)) < 0x8000_0000_0000_0000
            &&& agrees(w, lower_expr_s(st, e).0.b.insts, st2.b.insts.len(), vals)
        }),
    ensures
        e matches Expr::Binary { op, lhs, rhs, .. } && ({
            let (st1, (lv, lty)) = lower_expr_s(st, *lhs);
            let (st2, (rv, rty)) = lower_expr_s(st1, *rhs);
            let (end, (v, t)) = lower_expr_s(st, e);
            let bytes = int_of(rty, vals(rv)) * size_s(st2, reached(lty));
            &&& t == TyV::Pointer(Box::new(reached(lty)), false)
            &&& op == BinOp::Add ==> vals(v) == wrap(machine(t), vals(lv) + bytes)
            &&& op == BinOp::Sub ==> vals(v) == wrap(machine(t), vals(lv) - bytes)
        }),
{
    match e {
        Expr::Binary { op, lhs, rhs, span } => {
            let (st1, (lv, lty)) = lower_expr_s(st, *lhs);
            let (st2, (rv, rty)) = lower_expr_s(st1, *rhs);
            assert(lower_expr_s(st, e) == lower_binary_s(st, e));
            if op == BinOp::Add {
                reveal(lower_add_s);
                law_pointer_offset(w, st2, lv, lty, rv, rty, vals);
            } else {
                lemma_pointer_back(w, st2, lv, lty, rv, rty, span, vals);
            }
        },
        _ => {},
    }
}

proof fn lemma_pointer_back(
    w: World,
    st: LwState,
    lv: ValRef,
    lty: TyV,
    rv: ValRef,
    rty: TyV,
    span: crate::diag::Span,
    vals: spec_fn(ValRef) -> int,
)
    requires
        address(lty),
        whole_number(rty),
        !(reached(lty) is Unknown),
        in_range(rty, vals(rv)),
        size_s(st, reached(lty)) < 0x8000_0000_0000_0000,
        agrees(w, lower_sub_s(st, lv, lty, rv, rty, span).0.b.insts, st.b.insts.len(), vals),
    ensures
        ({
            let (end, (v, t)) = lower_sub_s(st, lv, lty, rv, rty, span);
            &&& t == TyV::Pointer(Box::new(reached(lty)), false)
            &&& vals(v) == wrap(
                machine(t),
                vals(lv) - int_of(rty, vals(rv)) * size_s(st, reached(lty)),
            )
        }),
{
    reveal(lower_sub_s);
    reveal(lower_ptr_offset_s);
    reveal(widen_index_i64_s);
    reveal(coerce_to_s);
    let i64t = BTy::Scalar(Scalar::I64);
    let long = TyV::Scalar(ScalarKind::Long);
    let n = st.b.insts.len();
    let end = lower_sub_s(st, lv, lty, rv, rty, span).0;
    let (st1, r64) = widen_index_i64_s(st, rv, rty);
    let (st2, zero) = push_s(st1, i64t, OpV::ConstInt(0));
    let (st3, neg) = push_s(st2, i64t, OpV::Bin(BBin::Sub, zero, r64));
    assert(lower_sub_s(st, lv, lty, rv, rty, span) == lower_ptr_offset_s(st3, lv, lty, neg, long));
    assert(goes_on(st3, end));
    lemma_agrees_before(w, st1, end, n, vals);
    lemma_agrees_before(w, st3, end, n, vals);
    law_widened_index(w, st, rv, rty, vals);
    lemma_pushed(w, st1, i64t, OpV::ConstInt(0), end, n, vals);
    lemma_pushed(w, st2, i64t, OpV::Bin(BBin::Sub, zero, r64), end, n, vals);
    let m = 0x1_0000_0000_0000_0000int;
    let c = int_of(rty, vals(rv));
    vstd::arithmetic::div_mod::lemma_mod_bound(0 - vals(r64), m);
    lemma_agrees_later(w, end, n, st3.b.insts.len(), vals);
    law_pointer_offset(w, st3, lv, lty, neg, long, vals);
    law_signed_is_congruent(i64t, vals(neg));
    // The number that `neg` stands for is the opposite of the index, modulo the addresses.
    let d = signed(i64t, vals(neg));
    vstd::arithmetic::div_mod::lemma_sub_mod_noop_right(0, c, m);
    assert(vals(neg) == (0 - c) % m);
    assert(d % m == (0 - c) % m);
    let s = size_s(st, reached(lty)) as int;
    vstd::arithmetic::div_mod::lemma_mul_mod_noop_left(d, s, m);
    vstd::arithmetic::div_mod::lemma_mul_mod_noop_left(0 - c, s, m);
    vstd::arithmetic::div_mod::lemma_add_mod_noop_right(vals(lv), d * s, m);
    vstd::arithmetic::div_mod::lemma_add_mod_noop_right(vals(lv), (0 - c) * s, m);
    assert((0 - c) * s == -(c * s)) by (nonlinear_arith);
}

// ---- unary operators -----------------------------------------------------------------------

/// `-x` is zero less `x`, `+x` is `x`, `~x` has every bit the other way, and `!x` is 1 where `x` is
/// zero and else 0.
pub proof fn law_unary_expression(
    w: World,
    st: LwState,
    op: UnaryOp,
    operand: Expr,
    vals: spec_fn(ValRef) -> int,
)
    requires
        op != UnaryOp::Deref,
        op != UnaryOp::Addr,
        ({
            let (st1, (v, t)) = lower_expr_s(st, operand);
            &&& number(t)
            &&& in_range(t, vals(v))
            &&& real_number(t) ==> !(w.floats.unordered)(scalar_of(machine(t)), vals(v), 0)
            &&& agrees(w, lower_unary_s(st, op, operand).0.b.insts, st1.b.insts.len(), vals)
        }),
    ensures
        ({
            let (st1, (v, t)) = lower_expr_s(st, operand);
            let (end, (r, u)) = lower_unary_s(st, op, operand);
            let x = vals(v);
            let s = scalar_of(machine(t));
            match op {
                UnaryOp::Plus => u == t && vals(r) == x,
                UnaryOp::Neg => u == t && vals(r) == (if real_number(t) {
                    (w.floats.difference)(s, 0, x)
                } else {
                    wrap(machine(t), 0 - int_of(t, x))
                }),
                UnaryOp::BitNot => u == t && (whole_number(t) ==> vals(r) == (x as u64 ^ (patterns(
                    machine(t),
                ) - 1) as u64) as int),
                UnaryOp::Not => u == TyV::Scalar(ScalarKind::Int) && vals(r) == truth(
                    if real_number(t) {
                        (w.floats.equal)(s, x, 0)
                    } else {
                        int_of(t, x) == 0
                    },
                ),
                _ => true,
            }
        }),
{
    let (st1, (v, t)) = lower_expr_s(st, operand);
    let (end, (r, u)) = lower_unary_s(st, op, operand);
    let n = st1.b.insts.len();
    let bty = bir_ty(t);
    law_machine_types(t);
    let x = vals(v);
    if whole_number(t) {
        law_signed_is_congruent(bty, x);
        vstd::arithmetic::div_mod::lemma_sub_mod_noop_right(0, int_of(t, x), patterns(bty));
        vstd::arithmetic::div_mod::lemma_small_mod(0, patterns(bty) as nat);
    }
    match op {
        UnaryOp::Neg => {
            let zero_op = if t.float() {
                OpV::ConstFloat(float_zero())
            } else {
                OpV::ConstInt(0)
            };
            let (st2, zero) = push_s(st1, bty, zero_op);
            let diff = OpV::Bin(
                if t.float() {
                    BBin::FSub
                } else {
                    BBin::Sub
                },
                zero,
                v,
            );
            assert(end == push_s(st2, bty, diff).0);
            lemma_pushed(w, st1, bty, zero_op, end, n, vals);
            lemma_pushed(w, st2, bty, diff, end, n, vals);
        },
        UnaryOp::BitNot => {
            let (st2, ones) = push_s(st1, bty, OpV::ConstInt(MINUS_ONE));
            lemma_pushed(w, st1, bty, OpV::ConstInt(MINUS_ONE), end, n, vals);
            lemma_pushed(w, st2, bty, OpV::Bin(BBin::Xor, v, ones), end, n, vals);
            if whole_number(t) {
                let m = patterns(bty);
                vstd::arithmetic::div_mod::lemma_mod_multiples_vanish(-1, m - 1, m);
                vstd::arithmetic::div_mod::lemma_small_mod((m - 1) as nat, m as nat);
            }
        },
        UnaryOp::Not => {
            let i1 = BTy::Scalar(Scalar::I1);
            let zero_op = if t.float() {
                OpV::ConstFloat(float_zero())
            } else {
                OpV::ConstInt(0)
            };
            let (st2, zero) = push_s(st1, bty, zero_op);
            let question = if t.float() {
                OpV::FCmp(FCmpPred::Oeq, bty, v, zero)
            } else {
                OpV::ICmp(ICmpPred::Eq, bty, v, zero)
            };
            let (st3, c) = push_s(st2, i1, question);
            let widened = OpV::Cast(CastOp::Zext, i1, c);
            assert(end == push_s(st3, BTy::Scalar(Scalar::I32), widened).0);
            lemma_pushed(w, st1, bty, zero_op, end, n, vals);
            lemma_pushed(w, st2, i1, question, end, n, vals);
            lemma_pushed(w, st3, BTy::Scalar(Scalar::I32), widened, end, n, vals);
        },
        _ => {},
    }
}

/// A unary operator other than `*` and `&` is evaluated as such.
pub proof fn law_unary_dispatch(st: LwState, e: Expr)
    requires
        e matches Expr::Unary { op, .. } && op != UnaryOp::Deref && op != UnaryOp::Addr,
    ensures
        lower_expr_s(st, e) == lower_unary_s(st, e->Unary_op, *e->Unary_expr),
{
}

// ---- places --------------------------------------------------------------------------------

/// How many bytes a value of a machine type takes, and is aligned to.
pub open spec fn bytes(ty: BTy) -> int {
    if width(ty) < 8 {
        1
    } else {
        width(ty) / 8
    }
}

/// The instruction that reads a place.
pub open spec fn reads(i: InstV, lv: LValueV) -> bool {
    &&& i.ty == machine(lv.ty)
    &&& i.op matches OpV::Load { ptr, space, align, volatile } && ptr == lv.addr && space
        == lv.space && align == bytes(machine(lv.ty)) && !volatile
}

/// The instruction that writes a value to a place.
pub open spec fn writes(i: InstV, lv: LValueV, v: ValRef) -> bool {
    &&& i.ty == BTy::Void
    &&& i.op matches OpV::Store { ptr, val, ty, space, align, volatile } && ptr == lv.addr && val
        == v && ty == machine(lv.ty) && space == lv.space && align == bytes(machine(lv.ty))
        && !volatile
}

/// Reading a place is one instruction, and so is writing it.
pub proof fn law_reading_and_writing(st: LwState, lv: LValueV, v: ValRef)
    requires
        number(lv.ty) || lv.ty is Pointer,
    ensures
        load_addr_s(st, lv).0.b.insts.len() == st.b.insts.len() + 1,
        store_addr_s(st, lv, v).b.insts.len() == st.b.insts.len() + 1,
        load_addr_s(st, lv).0.b.insts.drop_last() == st.b.insts,
        reads(load_addr_s(st, lv).0.b.insts.last(), lv),
        load_addr_s(st, lv).1.1 == lv.ty,
        st.b.insts.len() < 0x1_0000_0000 ==> load_addr_s(st, lv).1.0 == ValRef::Val(
            crate::bir::InstId(st.b.insts.len() as u32),
        ),
        store_addr_s(st, lv, v).b.insts.drop_last() == st.b.insts,
        writes(store_addr_s(st, lv, v).b.insts.last(), lv, v),
{
    reveal(load_addr_s);
    reveal(store_addr_s);
    reveal(low_u32);
    law_machine_types(lv.ty);
    assert(load_addr_s(st, lv).0.b.insts.drop_last() =~= st.b.insts);
    assert(store_addr_s(st, lv, v).b.insts.drop_last() =~= st.b.insts);
}

/// `*p` is the place at the value of `p`, and the address of a place is where it is.
pub proof fn law_dereference_and_address(st: LwState, e: Expr)
    requires
        e is Unary,
    ensures
        e->Unary_op == UnaryOp::Deref && address(lower_expr_s(st, *e->Unary_expr).1.1) ==> ({
            let (st1, (v, t)) = lower_expr_s(st, *e->Unary_expr);
            lower_lvalue_s(st, e) == (
                st1,
                LValueV { addr: v, ty: reached(t), space: AddrSpace::Global },
            )
        }),
        e->Unary_op == UnaryOp::Addr && !(lower_lvalue_s(st, *e->Unary_expr).1.ty is Unknown) ==> ({
            let (st1, lv) = lower_lvalue_s(st, *e->Unary_expr);
            lower_expr_s(st, e) == (st1, (lv.addr, TyV::Pointer(Box::new(lv.ty), false)))
        }),
{
}

/// The element at an index lies as many elements behind the base.
pub proof fn law_element_place(w: World, st: LwState, e: Expr, vals: spec_fn(ValRef) -> int)
    requires
        e matches Expr::Index { base, index, span } && ({
            let (st1, (iv, ity)) = lower_expr_s(st, *index);
            let (st2, b) = index_base_s(st1, *base, span);
            &&& whole_number(ity)
            &&& b is Some
            &&& in_range(ity, vals(iv))
            &&& size_s(st2, b->0.ty) < 0x8000_0000_0000_0000
            &&& agrees(w, lower_lvalue_s(st, e).0.b.insts, st2.b.insts.len(), vals)
        }),
    ensures
        e matches Expr::Index { base, index, span } && ({
            let (st1, (iv, ity)) = lower_expr_s(st, *index);
            let (st2, b) = index_base_s(st1, *base, span);
            let (end, lv) = lower_lvalue_s(st, e);
            &&& lv.ty == b->0.ty
            &&& lv.space == b->0.space
            &&& vals(lv.addr) == wrap(
                BTy::Ptr(lv.space),
                vals(b->0.addr) + int_of(ity, vals(iv)) * size_s(st2, lv.ty),
            )
        }),
{
    match e {
        Expr::Index { base, index, span } => {
            reveal(widen_index_i64_s);
            reveal(coerce_to_s);
            reveal(low_i64);
            let (st1, (iv, ity)) = lower_expr_s(st, *index);
            let (st2, b0) = index_base_s(st1, *base, span);
            let b = b0->0;
            let end = lower_lvalue_s(st, e).0;
            assert(lower_lvalue_s(st, e) == lower_index_lvalue_s(st, e));
            let n = st2.b.insts.len();
            let i64t = BTy::Scalar(Scalar::I64);
            let size = size_s(st2, b.ty);
            let esz = low_i64(size as int);
            let (st3, idx) = widen_index_i64_s(st2, iv, ity);
            let (st4, ev) = push_s(st3, i64t, OpV::ConstInt(esz));
            let (st5, off) = push_s(st4, i64t, OpV::Bin(BBin::Mul, idx, ev));
            let add = OpV::Bin(BBin::Add, b.addr, off);
            assert(end == push_s(st5, BTy::Ptr(b.space), add).0);
            lemma_agrees_before(w, st3, end, n, vals);
            law_widened_index(w, st2, iv, ity, vals);
            lemma_pushed(w, st3, i64t, OpV::ConstInt(esz), end, n, vals);
            lemma_pushed(w, st4, i64t, OpV::Bin(BBin::Mul, idx, ev), end, n, vals);
            lemma_pushed(w, st5, BTy::Ptr(b.space), add, end, n, vals);
            let m = 0x1_0000_0000_0000_0000int;
            vstd::arithmetic::div_mod::lemma_small_mod(size as nat, m as nat);
            vstd::arithmetic::div_mod::lemma_mod_twice(int_of(ity, vals(iv)), m);
            lemma_offset(m, vals(b.addr), int_of(ity, vals(iv)), vals(idx), size as int);
        },
        _ => {},
    }
}

/// A field lies at its offset behind the start of the whole.
pub proof fn law_field_place(
    w: World,
    st: LwState,
    base: LValueV,
    off: u64,
    fty: TyV,
    vals: spec_fn(ValRef) -> int,
)
    requires
        off < 0x8000_0000_0000_0000,
        agrees(w, field_place_s(st, base, off, fty).0.b.insts, st.b.insts.len(), vals),
    ensures
        ({
            let (end, lv) = field_place_s(st, base, off, fty);
            &&& lv.ty == fty
            &&& lv.space == base.space
            &&& vals(lv.addr) == wrap(BTy::Ptr(base.space), vals(base.addr) + off)
        }),
{
    reveal(field_place_s);
    reveal(low_i64);
    let i64t = BTy::Scalar(Scalar::I64);
    let n = st.b.insts.len();
    let end = field_place_s(st, base, off, fty).0;
    let (st1, ov) = push_s(st, i64t, OpV::ConstInt(low_i64(off as int)));
    lemma_pushed(w, st, i64t, OpV::ConstInt(low_i64(off as int)), end, n, vals);
    lemma_pushed(
        w,
        st1,
        BTy::Ptr(base.space),
        OpV::Bin(BBin::Add, base.addr, ov),
        end,
        n,
        vals,
    );
    vstd::arithmetic::div_mod::lemma_small_mod(off as nat, 0x1_0000_0000_0000_0000);
}

/// `s.f` and `p->f` are the field at its offset in what `s` names and `p` points to.
pub proof fn law_member_place(st: LwState, e: Expr)
    requires
        e matches Expr::Member { base, name, arrow, span } && ({
            let (st1, b) = member_base_s(st, *base, arrow, span);
            &&& b is Some
            &&& b->0.ty is Struct || b->0.ty is Union
            &&& field_offset_s(st1, b->0.ty, name@) is Some
        }),
    ensures
        e matches Expr::Member { base, name, arrow, span } && ({
            let (st1, b) = member_base_s(st, *base, arrow, span);
            let (off, fty) = field_offset_s(st1, b->0.ty, name@)->0;
            lower_lvalue_s(st, e) == field_place_s(st1, b->0, off, fty)
        }),
{
    match e {
        Expr::Member { base, name, arrow, span } => {
            assert(lower_lvalue_s(st, e) == lower_member_lvalue_s(st, e));
        },
        _ => {},
    }
}

/// The cell of a local is at its number times the spacing of cells.
pub proof fn law_cell_place(w: World, st: LwState, s: SlotV, vals: spec_fn(ValRef) -> int)
    requires
        agrees(w, slot_lvalue_s(st, s).0.b.insts, st.b.insts.len(), vals),
    ensures
        slot_lvalue_s(st, s).1.ty == s.ty,
        slot_lvalue_s(st, s).1.space == s.space,
        vals(slot_lvalue_s(st, s).1.addr) == s.slot * 65536,
{
    reveal(slot_lvalue_s);
    reveal(slot_addr_s);
    lemma_pushed(
        w,
        st,
        BTy::Ptr(s.space),
        OpV::ConstInt(crate::sema::lower::slot_address(s.slot)),
        slot_lvalue_s(st, s).0,
        st.b.insts.len(),
        vals,
    );
}

// ---- threads -------------------------------------------------------------------------------

/// `threadIdx`, `blockIdx`, `blockDim` and `gridDim` read the thread's and the block's place and
/// the extents, each member its own coordinate, as unsigned integers.
pub proof fn law_coordinates(
    w: World,
    st: LwState,
    e: Expr,
    what: Seq<char>,
    vals: spec_fn(ValRef) -> int,
)
    requires
        e matches Expr::Member { base, name, arrow, .. } && !arrow && (*base matches Expr::Ident {
            name: b,
            ..
        } && b@ == what && (what == "threadIdx"@ || what == "blockIdx"@ || what == "blockDim"@
            || what == "gridDim"@) && (name@ == "x"@ || name@ == "y"@ || name@ == "z"@)),
        agrees(w, lower_expr_s(st, e).0.b.insts, st.b.insts.len(), vals),
    ensures
        ({
            let (end, (v, t)) = lower_expr_s(st, e);
            let of = if what == "threadIdx"@ {
                w.thread
            } else if what == "blockIdx"@ {
                w.block
            } else if what == "blockDim"@ {
                w.block_size
            } else {
                w.grid_size
            };
            let field = e->Member_name@;
            &&& t == TyV::Scalar(ScalarKind::UInt)
            &&& end.b.insts.drop_last() == st.b.insts
            &&& end.b.insts.last().ty == BTy::Scalar(Scalar::I32)
            &&& field == "x"@ ==> vals(v) == of.0
            &&& field == "y"@ ==> vals(v) == of.1
            &&& field == "z"@ ==> vals(v) == of.2
        }),
{
    reveal_strlit("threadIdx");
    reveal_strlit("blockIdx");
    reveal_strlit("blockDim");
    reveal_strlit("gridDim");
    reveal_strlit("x");
    reveal_strlit("y");
    reveal_strlit("z");
    assert("threadIdx"@.len() == 9 && "blockIdx"@.len() == 8 && "blockDim"@.len() == 8
        && "gridDim"@.len() == 7);
    assert("blockIdx"@[5] != "blockDim"@[5]);
    assert("x"@[0] != "y"@[0] && "x"@[0] != "z"@[0] && "y"@[0] != "z"@[0]);
    let field = e->Member_name@;
    let op = index_op(what, field)->0;
    let end = lower_expr_s(st, e).0;
    lemma_pushed(w, st, BTy::Scalar(Scalar::I32), op, end, st.b.insts.len(), vals);
    assert(end.b.insts.drop_last() =~= st.b.insts);
}

// ---- assignments ---------------------------------------------------------------------------

/// An assignment writes the value of the right side, converted to the type of the place, to the
/// place, and that is its value.
pub proof fn law_assignment(w: World, st: LwState, e: Expr, vals: spec_fn(ValRef) -> int)
    requires
        e matches Expr::Assign { op, lhs, rhs, .. } && op == AssignOp::Assign && ({
            let (st1, lv) = lower_lvalue_s(st, *lhs);
            let (st2, (rv, rty)) = lower_expr_s(st1, *rhs);
            &&& number(lv.ty)
            &&& number(rty)
            &&& in_range(rty, vals(rv))
            &&& agrees(w, lower_expr_s(st, e).0.b.insts, st2.b.insts.len(), vals)
        }),
    ensures
        e matches Expr::Assign { op, lhs, rhs, .. } && ({
            let (st1, lv) = lower_lvalue_s(st, *lhs);
            let (st2, (rv, rty)) = lower_expr_s(st1, *rhs);
            let (end, (v, t)) = lower_expr_s(st, e);
            &&& t == lv.ty
            &&& vals(v) == converted(w.floats, rty, t, vals(rv))
            &&& writes(end.b.insts.last(), lv, v)
            &&& goes_on(st2, end)
        }),
{
    match e {
        Expr::Assign { op, lhs, rhs, .. } => {
            let (st1, lv) = lower_lvalue_s(st, *lhs);
            let (st2, (rv, rty)) = lower_expr_s(st1, *rhs);
            let (end, (v, t)) = lower_expr_s(st, e);
            assert(lower_expr_s(st, e) == lower_assign_s(st, e));
            let (st3, c) = coerce_to_s(st2, rv, rty, lv.ty);
            assert(end == store_addr_s(st3, lv, c));
            law_reading_and_writing(st3, lv, c);
            assert(goes_on(st3, end)) by {
                reveal(store_addr_s);
            }
            lemma_agrees_before(w, st3, end, st2.b.insts.len(), vals);
            law_conversion(w, st2, rv, rty, lv.ty, vals);
        },
        _ => {},
    }
}

/// A compound assignment reads the place once, computes the operator on what stood there and the
/// value of the right side, and writes the result back, converted to the type of the place.
pub proof fn law_compound_assignment(w: World, st: LwState, e: Expr, vals: spec_fn(ValRef) -> int)
    requires
        e matches Expr::Assign { op, lhs, rhs, .. } && compound_operator(op) is Some && ({
            let (st1, lv) = lower_lvalue_s(st, *lhs);
            let (st2, (rv, rty)) = lower_expr_s(st1, *rhs);
            let (st3, (cur, _)) = load_addr_s(st2, lv);
            &&& number(lv.ty)
            &&& number(rty)
            &&& in_range(rty, vals(rv))
            &&& in_range(lv.ty, vals(cur))
            &&& in_range(
                common(lv.ty, rty),
                vals(
                    lower_arith_s(st3, compound_operator(op)->0, cur, lv.ty, rv, rty).1.0,
                ),
            )
            &&& agrees(w, lower_expr_s(st, e).0.b.insts, st2.b.insts.len(), vals)
        }),
    ensures
        e matches Expr::Assign { op, lhs, rhs, .. } && ({
            let (st1, lv) = lower_lvalue_s(st, *lhs);
            let (st2, (rv, rty)) = lower_expr_s(st1, *rhs);
            let (st3, (cur, _)) = load_addr_s(st2, lv);
            let (end, (v, t)) = lower_expr_s(st, e);
            let c = common(lv.ty, rty);
            let b = compound_operator(op)->0;
            let x = converted(w.floats, lv.ty, c, vals(cur));
            let y = converted(w.floats, rty, c, vals(rv));
            &&& t == lv.ty
            &&& reads(end.b.insts[st2.b.insts.len() as int], lv)
            &&& writes(end.b.insts.last(), lv, v)
            &&& !large_quotient(b, c, x, y) ==> (arithmetic(w.floats, b, c, x, y) matches Some(n)
                ==> vals(v) == converted(w.floats, c, t, n))
        }),
{
    match e {
        Expr::Assign { op, lhs, rhs, span } => {
            reveal(lower_add_s);
            reveal(lower_sub_s);
            let (st1, lv) = lower_lvalue_s(st, *lhs);
            let (st2, (rv, rty)) = lower_expr_s(st1, *rhs);
            let (end, (v, t)) = lower_expr_s(st, e);
            assert(lower_expr_s(st, e) == lower_assign_s(st, e));
            let b = compound_operator(op)->0;
            let (st3, (cur, _)) = load_addr_s(st2, lv);
            law_reading_and_writing(st2, lv, cur);
            let (st4, (r, c)) = lower_arith_s(st3, b, cur, lv.ty, rv, rty);
            assert(c == common(lv.ty, rty)) by {
                reveal(lower_arith_s);
                crate::sema::typing::law_common_type(lv.ty, rty);
            }
            let (st5, out) = coerce_to_s(st4, r, c, lv.ty);
            assert(end == store_addr_s(st5, lv, out));
            law_reading_and_writing(st5, lv, out);
            assert(goes_on(st5, end)) by {
                reveal(store_addr_s);
            }
            assert(goes_on(st4, st5)) by {
                reveal(coerce_to_s);
            }
            assert(goes_on(st3, st4)) by {
                reveal(lower_arith_s);
                reveal(coerce_to_s);
            }
            assert(goes_on(st2, st3)) by {
                reveal(load_addr_s);
            }
            let n = st2.b.insts.len();
            lemma_agrees_before(w, st4, end, n, vals);
            lemma_agrees_later(w, st4, n, st3.b.insts.len(), vals);
            lemma_agrees_before(w, st5, end, n, vals);
            lemma_agrees_later(w, st5, n, st4.b.insts.len(), vals);
            law_arithmetic(w, st3, b, cur, lv.ty, rv, rty, vals);
            law_conversion(w, st4, r, c, lv.ty, vals);
            assert(st3.b.insts[n as int] == st3.b.insts.last());
            assert(st4.b.insts[n as int] == st3.b.insts[n as int]);
            assert(st5.b.insts[n as int] == st4.b.insts[n as int]);
        },
        _ => {},
    }
}

/// An increment or decrement reads the place, writes one more or one less back, and has the new
/// value where the operator stands before the place, and the old one where it stands behind.
pub proof fn law_increment(
    w: World,
    st: LwState,
    op: IncDecOp,
    operand: Expr,
    before: bool,
    vals: spec_fn(ValRef) -> int,
)
    requires
        ({
            let (st1, lv) = lower_lvalue_s(st, operand);
            let (st2, (cur, _)) = load_addr_s(st1, lv);
            &&& number(lv.ty)
            &&& in_range(lv.ty, vals(cur))
            &&& agrees(
                w,
                lower_incdec_s(st, op, operand, before).0.b.insts,
                st1.b.insts.len(),
                vals,
            )
        }),
    ensures
        ({
            let (st1, lv) = lower_lvalue_s(st, operand);
            let (st2, (cur, _)) = load_addr_s(st1, lv);
            let (end, (v, t)) = lower_incdec_s(st, op, operand, before);
            let x = vals(cur);
            let s = scalar_of(machine(t));
            let one = if s == Scalar::F64 {
                0x3ff0_0000_0000_0000int
            } else {
                0x3f80_0000
            };
            &&& t == lv.ty
            &&& reads(end.b.insts[st1.b.insts.len() as int], lv)
            &&& exists|new: ValRef| #[trigger]
                writes(end.b.insts.last(), lv, new) && vals(new) == (if real_number(t) {
                    if op == IncDecOp::Inc {
                        (w.floats.sum)(s, x, one)
                    } else {
                        (w.floats.difference)(s, x, one)
                    }
                } else if op == IncDecOp::Inc {
                    wrap(machine(t), int_of(t, x) + 1)
                } else {
                    wrap(machine(t), int_of(t, x) - 1)
                }) && v == (if before {
                    new
                } else {
                    cur
                })
        }),
{
    let (st1, lv) = lower_lvalue_s(st, operand);
    let (st2, (cur, _)) = load_addr_s(st1, lv);
    let (end, (v, t)) = lower_incdec_s(st, op, operand, before);
    let bty = bir_ty(lv.ty);
    let n = st1.b.insts.len();
    law_machine_types(lv.ty);
    law_reading_and_writing(st1, lv, cur);
    let one_op = if lv.ty.float() {
        OpV::ConstFloat(float_one())
    } else {
        OpV::ConstInt(1)
    };
    let (st3, one) = push_s(st2, bty, one_op);
    let step = OpV::Bin(
        if lv.ty.float() {
            if op == IncDecOp::Inc {
                BBin::FAdd
            } else {
                BBin::FSub
            }
        } else if op == IncDecOp::Inc {
            BBin::Add
        } else {
            BBin::Sub
        },
        cur,
        one,
    );
    let (st4, new) = push_s(st3, bty, step);
    assert(coerce_to_s(st4, new, lv.ty, lv.ty) == (st4, new)) by {
        reveal(coerce_to_s);
    }
    assert(end == store_addr_s(st4, lv, new));
    law_reading_and_writing(st4, lv, new);
    assert(goes_on(st4, end)) by {
        reveal(store_addr_s);
    }
    assert(goes_on(st2, st3) && goes_on(st3, st4));
    assert(goes_on(st3, end));
    lemma_pushed(w, st2, bty, one_op, end, n, vals);
    lemma_pushed(w, st3, bty, step, end, n, vals);
    assert(st2.b.insts[n as int] == st2.b.insts.last());
    assert(st3.b.insts[n as int] == st2.b.insts[n as int]);
    assert(st4.b.insts[n as int] == st3.b.insts[n as int]);
    assert(end.b.insts[n as int] == st4.b.insts[n as int]);
    if whole_number(lv.ty) {
        let x = vals(cur);
        let m = patterns(bty);
        law_signed_is_congruent(bty, x);
        vstd::arithmetic::div_mod::lemma_small_mod(1, m as nat);
        vstd::arithmetic::div_mod::lemma_mod_multiples_vanish(-1, x + 1, m);
        vstd::arithmetic::div_mod::lemma_mod_multiples_vanish(-1, x - 1, m);
    }
    assert(writes(end.b.insts.last(), lv, new));
}

/// An increment or decrement before or behind a place is evaluated as such.
pub proof fn law_increment_dispatch(st: LwState, e: Expr)
    ensures
        e matches Expr::PreIncDec { op, expr, .. } ==> lower_expr_s(st, e) == lower_incdec_s(
            st,
            op,
            *expr,
            true,
        ),
        e matches Expr::PostIncDec { op, expr, .. } ==> lower_expr_s(st, e) == lower_incdec_s(
            st,
            op,
            *expr,
            false,
        ),
{
}

} // verus!
