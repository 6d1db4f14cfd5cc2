//! What the operators of CUDA C mean, and that the instructions that are made of them compute it.

use vstd::prelude::*;

use crate::bir::{
    float_zero, AddrSpace, CastOp, FCmpPred, ICmpPred, InstId, InstV, OpV, Scalar, Ty as BTy,
    ValRef,
};
use crate::bits::low_u32;

use crate::sema::c_ast::{BinOp, ScalarKind};
use crate::sema::lower::{
    arith_op, bir_ty, cast_of, coerce_to_s, float_pred, int_pred, lower_arith_s, lower_compare_s,
    pointer_pred, push_s, signed_ty, truthy_s, LwState,
};
use crate::sema::meaning::{
    agrees, bin_value, is_pattern, law_signed_is_congruent, lemma_wrapped_arithmetic, op_value,
    patterns, quotient, remainder, scalar_of, signed, truth, two_to, width, wrap, Floats, World,
};
use crate::sema::ty::TyV;
use crate::sema::typing::{address, common, law_common_type, number, real_number, whole_number};

verus! {

// ---- values of C ---------------------------------------------------------------------------

/// The machine type of a C type: a truth value has one bit, a character eight, `short` sixteen,
/// `int` and an enumeration thirty-two, `long` and a pointer sixty-four.
pub open spec fn machine(t: TyV) -> BTy {
    match t {
        TyV::Enum(_) => BTy::Scalar(Scalar::I32),
        TyV::Pointer(_, _) | TyV::Array(_) => BTy::Ptr(AddrSpace::Global),
        TyV::Scalar(k) => if k == ScalarKind::Bool {
            BTy::Scalar(Scalar::I1)
        } else if k == ScalarKind::Char || k == ScalarKind::SChar || k == ScalarKind::UChar {
            BTy::Scalar(Scalar::I8)
        } else if k == ScalarKind::Short || k == ScalarKind::UShort {
            BTy::Scalar(Scalar::I16)
        } else if k == ScalarKind::Int || k == ScalarKind::UInt || k == ScalarKind::WcharT {
            BTy::Scalar(Scalar::I32)
        } else if k == ScalarKind::Float {
            BTy::Scalar(Scalar::F32)
        } else if k == ScalarKind::Double || k == ScalarKind::LongDouble {
            BTy::Scalar(Scalar::F64)
        } else if k == ScalarKind::Void {
            BTy::Void
        } else {
            BTy::Scalar(Scalar::I64)
        },
        _ => BTy::Void,
    }
}

/// Numbers and pointers are lowered to their machine types.
pub proof fn law_machine_types(t: TyV)
    requires
        number(t) || address(t) || t == TyV::Scalar(ScalarKind::Void),
    ensures
        bir_ty(t) == machine(t),
{
}

/// Whether an integer type has negative numbers.
pub open spec fn has_sign(t: TyV) -> bool {
    ||| t is Enum
    ||| t == TyV::Scalar(ScalarKind::Char)
    ||| t == TyV::Scalar(ScalarKind::SChar)
    ||| t == TyV::Scalar(ScalarKind::Short)
    ||| t == TyV::Scalar(ScalarKind::Int)
    ||| t == TyV::Scalar(ScalarKind::Long)
    ||| t == TyV::Scalar(ScalarKind::LongLong)
}

/// The number that a pattern of an integer type stands for.
pub open spec fn int_of(t: TyV, x: int) -> int {
    if has_sign(t) {
        signed(machine(t), x)
    } else {
        x
    }
}

/// The pattern of a value after conversion to another arithmetic type. An integer keeps its number
/// where the type has it, and is reduced to the width of the type where it has not.
pub open spec fn converted(f: Floats, from: TyV, to: TyV, x: int) -> int {
    let (s, t) = (scalar_of(machine(from)), scalar_of(machine(to)));
    if whole_number(from) && whole_number(to) {
        wrap(machine(to), int_of(from, x))
    } else if whole_number(from) {
        (f.of_int)(t, int_of(from, x))
    } else if whole_number(to) {
        if has_sign(to) {
            wrap(machine(to), (f.to_signed)(s, width(machine(to)), x))
        } else {
            wrap(machine(to), (f.to_unsigned)(s, width(machine(to)), x))
        }
    } else if s == t {
        x
    } else {
        (f.resized)(s, t, x)
    }
}

/// Whether a value is a pattern of its type, where that is an integer or pointer type.
pub open spec fn in_range(t: TyV, x: int) -> bool {
    real_number(t) || is_pattern(machine(t), x)
}

/// The value of `x op y` in an arithmetic type, for patterns of that type: sums, differences and
/// products of integers wrap, quotients go toward zero, and floats have the operations of their
/// arithmetic. By zero there is none, nor of a shift by the width or more.
pub open spec fn arithmetic(f: Floats, op: BinOp, t: TyV, x: int, y: int) -> Option<int> {
    let ty = machine(t);
    let s = scalar_of(ty);
    let (a, b) = (int_of(t, x), int_of(t, y));
    if real_number(t) {
        if op == BinOp::Add {
            Some((f.sum)(s, x, y))
        } else if op == BinOp::Sub {
            Some((f.difference)(s, x, y))
        } else if op == BinOp::Mul {
            Some((f.product)(s, x, y))
        } else if op == BinOp::Div {
            Some((f.quotient)(s, x, y))
        } else {
            None
        }
    } else if op == BinOp::Add {
        Some(wrap(ty, a + b))
    } else if op == BinOp::Sub {
        Some(wrap(ty, a - b))
    } else if op == BinOp::Mul {
        Some(wrap(ty, a * b))
    } else if op == BinOp::Div && b != 0 {
        Some(wrap(ty, quotient(a, b)))
    } else if op == BinOp::Rem && b != 0 {
        Some(wrap(ty, remainder(a, b)))
    } else if op == BinOp::BitAnd {
        Some(((x as u64) & (y as u64)) as int)
    } else if op == BinOp::BitOr {
        Some(((x as u64) | (y as u64)) as int)
    } else if op == BinOp::BitXor {
        Some(((x as u64) ^ (y as u64)) as int)
    } else if op == BinOp::Shl && 0 <= b < width(ty) {
        Some(wrap(ty, a * two_to(b)))
    } else if op == BinOp::Shr && 0 <= b < width(ty) {
        Some(wrap(ty, a / two_to(b)))
    } else {
        None
    }
}

/// Whether `x op y` is a quotient or remainder of unsigned numbers of which one has the top bit:
/// the machine divides it as a negative one.
pub open spec fn large_quotient(op: BinOp, t: TyV, x: int, y: int) -> bool {
    &&& op == BinOp::Div || op == BinOp::Rem
    &&& whole_number(t)
    &&& !has_sign(t)
    &&& 2 * x >= patterns(machine(t)) || 2 * y >= patterns(machine(t))
}

/// Whether `x op y` holds in a type, for patterns of that type.
pub open spec fn relation(f: Floats, op: BinOp, t: TyV, x: int, y: int) -> bool {
    let s = scalar_of(machine(t));
    if real_number(t) {
        let (less, equal, more) = ((f.less)(s, x, y), (f.equal)(s, x, y), (f.less)(s, y, x));
        if op == BinOp::Lt {
            less
        } else if op == BinOp::Gt {
            more
        } else if op == BinOp::Le {
            less || equal
        } else if op == BinOp::Ge {
            more || equal
        } else if op == BinOp::Eq {
            equal
        } else {
            !equal
        }
    } else {
        let (a, b) = (int_of(t, x), int_of(t, y));
        if op == BinOp::Lt {
            a < b
        } else if op == BinOp::Gt {
            a > b
        } else if op == BinOp::Le {
            a <= b
        } else if op == BinOp::Ge {
            a >= b
        } else if op == BinOp::Eq {
            a == b
        } else {
            a != b
        }
    }
}

pub open spec fn is_relation(op: BinOp) -> bool {
    op == BinOp::Eq || op == BinOp::Ne || op == BinOp::Lt || op == BinOp::Gt || op == BinOp::Le
        || op == BinOp::Ge
}

pub open spec fn is_arithmetic(op: BinOp) -> bool {
    !is_relation(op) && op != BinOp::LogOr && op != BinOp::LogAnd
}

// ---- conversions ---------------------------------------------------------------------------

/// The instructions of one state go on those of another.
pub open spec fn goes_on(a: LwState, b: LwState) -> bool {
    &&& a.b.insts.len() <= b.b.insts.len()
    &&& forall|i: int| 0 <= i < a.b.insts.len() ==> b.b.insts[i] == #[trigger] a.b.insts[i]
}

/// The value of an instruction that was just put in, seen from a later state.
pub proof fn lemma_pushed(
    w: World,
    st: LwState,
    ty: BTy,
    op: OpV,
    end: LwState,
    from: nat,
    vals: spec_fn(ValRef) -> int,
)
    requires
        from <= st.b.insts.len(),
        goes_on(push_s(st, ty, op).0, end),
        agrees(w, end.b.insts, from, vals),
    ensures
        op_value(w, ty, op, vals) matches Some(v) ==> vals(push_s(st, ty, op).1) == v,
{
    reveal(low_u32);
    let i = st.b.insts.len() as int;
    let after = push_s(st, ty, op).0;
    assert(after.b.insts[i] == (InstV { ty, op }));
    assert(end.b.insts[i] == after.b.insts[i]);
}

pub proof fn lemma_agrees_before(
    w: World,
    a: LwState,
    b: LwState,
    from: nat,
    vals: spec_fn(ValRef) -> int,
)
    requires
        goes_on(a, b),
        agrees(w, b.b.insts, from, vals),
    ensures
        agrees(w, a.b.insts, from, vals),
{
    assert forall|i: int| from <= i < a.b.insts.len() implies (op_value(
        w,
        (#[trigger] a.b.insts[i]).ty,
        a.b.insts[i].op,
        vals,
    ) matches Some(v) ==> vals(ValRef::Val(InstId(i as u32))) == v) by {
        assert(b.b.insts[i] == a.b.insts[i]);
    }
}

proof fn lemma_narrowing(ty: BTy, to: BTy, x: int)
    requires
        is_pattern(ty, x),
        patterns(to) <= patterns(ty),
        ty is Scalar || ty is Ptr,
        to is Scalar || to is Ptr,
    ensures
        wrap(to, signed(ty, x)) == wrap(to, x),
{
    let (m, n) = (patterns(ty), patterns(to));
    let k = m / n;
    assert(n == 2 || n == 0x100 || n == 0x1_0000 || n == 0x1_0000_0000 || n
        == 0x1_0000_0000_0000_0000);
    assert(m == 2 || m == 0x100 || m == 0x1_0000 || m == 0x1_0000_0000 || m
        == 0x1_0000_0000_0000_0000);
    assert(m % n == 0);
    vstd::arithmetic::div_mod::lemma_fundamental_div_mod(m, n);
    assert(n * (-k) == -(n * k)) by (nonlinear_arith);
    vstd::arithmetic::div_mod::lemma_mod_multiples_vanish(-k, x, n);
}

/// The value of a conversion between arithmetic types is the C conversion of the value.
pub proof fn law_conversion(
    w: World,
    st: LwState,
    v: ValRef,
    from: TyV,
    to: TyV,
    vals: spec_fn(ValRef) -> int,
)
    requires
        number(from),
        number(to),
        in_range(from, vals(v)),
        agrees(w, coerce_to_s(st, v, from, to).0.b.insts, st.b.insts.len(), vals),
    ensures
        vals(coerce_to_s(st, v, from, to).1) == converted(w.floats, from, to, vals(v)),
        goes_on(st, coerce_to_s(st, v, from, to).0),
        in_range(to, vals(coerce_to_s(st, v, from, to).1)),
{
    reveal(coerce_to_s);
    law_machine_types(from);
    law_machine_types(to);
    let x = vals(v);
    let end = coerce_to_s(st, v, from, to).0;
    if whole_number(from) {
        law_signed_is_congruent(machine(from), x);
    }
    match cast_of(from, to) {
        None => {},
        Some(op) => {
            lemma_pushed(
                w,
                st,
                bir_ty(to),
                OpV::Cast(op, bir_ty(from), v),
                end,
                st.b.insts.len(),
                vals,
            );
            if whole_number(from) && whole_number(to) && patterns(machine(to)) <= patterns(
                machine(from),
            ) {
                lemma_narrowing(machine(from), machine(to), x);
            }
        },
    }
    if whole_number(to) {
        let m = patterns(machine(to));
        assert forall|n: int| 0 <= #[trigger] wrap(machine(to), n) < m by {
            vstd::arithmetic::div_mod::lemma_mod_bound(n, m);
        }
        if whole_number(from) {
            vstd::arithmetic::div_mod::lemma_mod_bound(int_of(from, x), m);
        }
    }
}

// ---- arithmetic ----------------------------------------------------------------------------

proof fn lemma_scaled(ty: BTy, x: int, a: int, k: int)
    requires
        a == x || a == x - patterns(ty),
        patterns(ty) > 0,
    ensures
        wrap(ty, a * k) == wrap(ty, x * k),
{
    let m = patterns(ty);
    if a != x {
        assert(a * k == (-k) * m + x * k) by (nonlinear_arith)
            requires
                a == x - m,
        ;
        assert(m * (-k) == (-k) * m) by (nonlinear_arith);
        vstd::arithmetic::div_mod::lemma_mod_multiples_vanish(-k, x * k, m);
    }
}

/// The operation of an operator between two patterns of a type is what the operator means.
pub proof fn law_operator(f: Floats, op: BinOp, t: TyV, x: int, y: int)
    requires
        number(t),
        patterns(machine(t)) >= 0x1_0000_0000,
        in_range(t, x),
        in_range(t, y),
        is_arithmetic(op),
        arithmetic(f, op, t, x, y) is Some,
        !large_quotient(op, t, x, y),
    ensures
        bin_value(f, arith_op(op, t.float(), signed_ty(t)), machine(t), x, y) == arithmetic(
            f,
            op,
            t,
            x,
            y,
        ),
{
    if whole_number(t) {
        let ty = machine(t);
        let (a, b) = (int_of(t, x), int_of(t, y));
        lemma_wrapped_arithmetic(ty, x, y, a, b);
        if op == BinOp::Shl {
            lemma_scaled(ty, x, a, two_to(b));
        }
    }
}

/// Running the code of `l op r` on two arithmetic operands gives the C value of the operator on
/// their values, converted to their common type.
pub proof fn law_arithmetic(
    w: World,
    st: LwState,
    op: BinOp,
    lv: ValRef,
    lty: TyV,
    rv: ValRef,
    rty: TyV,
    vals: spec_fn(ValRef) -> int,
)
    requires
        number(lty),
        number(rty),
        is_arithmetic(op),
        in_range(lty, vals(lv)),
        in_range(rty, vals(rv)),
        agrees(w, lower_arith_s(st, op, lv, lty, rv, rty).0.b.insts, st.b.insts.len(), vals),
    ensures
        ({
            let (end, (v, t)) = lower_arith_s(st, op, lv, lty, rv, rty);
            let x = converted(w.floats, lty, common(lty, rty), vals(lv));
            let y = converted(w.floats, rty, common(lty, rty), vals(rv));
            &&& t == common(lty, rty)
            &&& goes_on(st, end)
            &&& !large_quotient(op, t, x, y) ==> (arithmetic(w.floats, op, t, x, y) matches Some(n)
                ==> vals(v) == n)
        }),
{
    reveal(lower_arith_s);
    reveal(coerce_to_s);
    law_common_type(lty, rty);
    let t = common(lty, rty);
    law_machine_types(t);
    let (st1, l2) = coerce_to_s(st, lv, lty, t);
    let (st2, r2) = coerce_to_s(st1, rv, rty, t);
    let (end, (v, _)) = lower_arith_s(st, op, lv, lty, rv, rty);
    let bop = arith_op(op, t.float(), signed_ty(t));
    assert(goes_on(st2, end));
    assert(goes_on(st1, st2));
    assert(goes_on(st, st1));
    lemma_agrees_before(w, st1, end, st.b.insts.len(), vals);
    lemma_agrees_before(w, st2, end, st.b.insts.len(), vals);
    assert(agrees(w, st2.b.insts, st1.b.insts.len(), vals));
    law_conversion(w, st, lv, lty, t, vals);
    law_conversion(w, st1, rv, rty, t, vals);
    lemma_pushed(w, st2, machine(t), OpV::Bin(bop, l2, r2), end, st.b.insts.len(), vals);
    let (x, y) = (vals(l2), vals(r2));
    if arithmetic(w.floats, op, t, x, y) is Some && !large_quotient(op, t, x, y) {
        law_operator(w.floats, op, t, x, y);
    }
}

// ---- comparisons ---------------------------------------------------------------------------

/// A comparison is 1 where the C relation holds of the values in their common type, and else 0.
/// Two floats without an order are left out where the question is whether they differ.
pub proof fn law_comparison(
    w: World,
    st: LwState,
    op: BinOp,
    lv: ValRef,
    lty: TyV,
    rv: ValRef,
    rty: TyV,
    vals: spec_fn(ValRef) -> int,
)
    requires
        number(lty),
        number(rty),
        is_relation(op),
        in_range(lty, vals(lv)),
        in_range(rty, vals(rv)),
        agrees(w, lower_compare_s(st, op, lv, lty, rv, rty).0.b.insts, st.b.insts.len(), vals),
        ({
            let t = common(lty, rty);
            let x = converted(w.floats, lty, t, vals(lv));
            let y = converted(w.floats, rty, t, vals(rv));
            real_number(t) ==> !(w.floats.unordered)(scalar_of(machine(t)), x, y)
        }),
    ensures
        ({
            let (end, (v, t)) = lower_compare_s(st, op, lv, lty, rv, rty);
            let c = common(lty, rty);
            let x = converted(w.floats, lty, c, vals(lv));
            let y = converted(w.floats, rty, c, vals(rv));
            &&& t == TyV::Scalar(ScalarKind::Int)
            &&& goes_on(st, end)
            &&& vals(v) == truth(relation(w.floats, op, c, x, y))
        }),
{
    reveal(lower_compare_s);
    reveal(coerce_to_s);
    law_common_type(lty, rty);
    let t = common(lty, rty);
    law_machine_types(t);
    let (st1, l2) = coerce_to_s(st, lv, lty, t);
    let (st2, r2) = coerce_to_s(st1, rv, rty, t);
    let (end, (v, _)) = lower_compare_s(st, op, lv, lty, rv, rty);
    let i1 = BTy::Scalar(Scalar::I1);
    let question = if lty.float() || rty.float() {
        OpV::FCmp(float_pred(op), machine(t), l2, r2)
    } else {
        OpV::ICmp(int_pred(op, signed_ty(t)), machine(t), l2, r2)
    };
    let (st3, c) = push_s(st2, i1, question);
    let widened = OpV::Cast(CastOp::Zext, i1, c);
    assert((end, v) == push_s(st3, BTy::Scalar(Scalar::I32), widened));
    assert(goes_on(st3, end));
    assert(goes_on(st2, end));
    assert(goes_on(st1, st2));
    assert(goes_on(st, st1));
    lemma_agrees_before(w, st1, end, st.b.insts.len(), vals);
    lemma_agrees_before(w, st2, end, st.b.insts.len(), vals);
    law_conversion(w, st, lv, lty, t, vals);
    law_conversion(w, st1, rv, rty, t, vals);
    lemma_pushed(w, st2, i1, question, end, st.b.insts.len(), vals);
    lemma_pushed(w, st3, BTy::Scalar(Scalar::I32), widened, end, st.b.insts.len(), vals);
    if whole_number(t) {
        law_signed_is_congruent(machine(t), vals(l2));
        law_signed_is_congruent(machine(t), vals(r2));
    }
}

/// A comparison with a pointer is one of the addresses, which have no sign.
pub proof fn law_pointer_comparison(
    w: World,
    st: LwState,
    op: BinOp,
    lv: ValRef,
    lty: TyV,
    rv: ValRef,
    rty: TyV,
    vals: spec_fn(ValRef) -> int,
)
    requires
        address(lty) || address(rty),
        is_relation(op),
        agrees(w, lower_compare_s(st, op, lv, lty, rv, rty).0.b.insts, st.b.insts.len(), vals),
    ensures
        ({
            let (end, (v, t)) = lower_compare_s(st, op, lv, lty, rv, rty);
            let (x, y) = (vals(lv), vals(rv));
            &&& t == TyV::Scalar(ScalarKind::Int)
            &&& goes_on(st, end)
            &&& op == BinOp::Eq ==> vals(v) == truth(x == y)
            &&& op == BinOp::Ne ==> vals(v) == truth(x != y)
            &&& op == BinOp::Lt ==> vals(v) == truth(x < y)
            &&& op == BinOp::Gt ==> vals(v) == truth(x > y)
            &&& op == BinOp::Le ==> vals(v) == truth(x <= y)
            &&& op == BinOp::Ge ==> vals(v) == truth(x >= y)
        }),
{
    reveal(lower_compare_s);
    let (end, (v, _)) = lower_compare_s(st, op, lv, lty, rv, rty);
    let i1 = BTy::Scalar(Scalar::I1);
    let question = OpV::ICmp(pointer_pred(op), BTy::Ptr(AddrSpace::Global), lv, rv);
    let (st3, c) = push_s(st, i1, question);
    let widened = OpV::Cast(CastOp::Zext, i1, c);
    assert((end, v) == push_s(st3, BTy::Scalar(Scalar::I32), widened));
    lemma_pushed(w, st, i1, question, end, st.b.insts.len(), vals);
    lemma_pushed(w, st3, BTy::Scalar(Scalar::I32), widened, end, st.b.insts.len(), vals);
}

/// The truth value of a number is whether it is not zero. A float without an order to zero is left
/// out.
pub proof fn law_truth(w: World, st: LwState, v: ValRef, t: TyV, vals: spec_fn(ValRef) -> int)
    requires
        number(t) || t is Pointer,
        in_range(t, vals(v)),
        real_number(t) ==> !(w.floats.unordered)(scalar_of(machine(t)), vals(v), 0),
        agrees(w, truthy_s(st, v, t).0.b.insts, st.b.insts.len(), vals),
    ensures
        goes_on(st, truthy_s(st, v, t).0),
        vals(truthy_s(st, v, t).1) == truth(
            if real_number(t) {
                !(w.floats.equal)(scalar_of(machine(t)), vals(v), 0)
            } else {
                vals(v) != 0
            },
        ),
{
    reveal(truthy_s);
    law_machine_types(t);
    let bty = bir_ty(t);
    let end = truthy_s(st, v, t).0;
    let n = st.b.insts.len();
    let zero_op = if real_number(t) {
        OpV::ConstFloat(float_zero())
    } else {
        OpV::ConstInt(0)
    };
    let (st1, zero) = push_s(st, bty, zero_op);
    let question = if real_number(t) {
        OpV::FCmp(FCmpPred::One, bty, v, zero)
    } else {
        OpV::ICmp(ICmpPred::Ne, bty, v, zero)
    };
    assert(truthy_s(st, v, t) == push_s(st1, BTy::Scalar(Scalar::I1), question));
    lemma_pushed(w, st, bty, zero_op, end, n, vals);
    lemma_pushed(w, st1, BTy::Scalar(Scalar::I1), question, end, n, vals);
    assert(0int % patterns(bty) == 0);
}

} // verus!
