//! What instructions compute: the value of an operation from the values of its operands.
//!
//! A value is a bit pattern, a number from zero up to the size of its type. What the arithmetic of
//! floating-point patterns is, is left open: a statement here holds for every such arithmetic, so
//! that a sum can stand for nothing but a sum.

use vstd::prelude::*;

use crate::bir::{BinOp, CastOp, FCmpPred, ICmpPred, InstId, InstV, OpV, Scalar, Ty, ValRef};

verus! {

// ---- numbers -------------------------------------------------------------------------------

/// The number of patterns of a type.
pub open spec fn patterns(ty: Ty) -> int {
    match ty {
        Ty::Scalar(Scalar::I1) => 2,
        Ty::Scalar(Scalar::I8) => 0x100,
        Ty::Scalar(Scalar::I16) | Ty::Scalar(Scalar::F16) => 0x1_0000,
        Ty::Scalar(Scalar::I32) | Ty::Scalar(Scalar::F32) => 0x1_0000_0000,
        Ty::Scalar(Scalar::I64) | Ty::Scalar(Scalar::F64) | Ty::Ptr(_) => 0x1_0000_0000_0000_0000,
        _ => 1,
    }
}

/// The number of bits of a type.
pub open spec fn width(ty: Ty) -> int {
    match ty {
        Ty::Scalar(Scalar::I1) => 1,
        Ty::Scalar(Scalar::I8) => 8,
        Ty::Scalar(Scalar::I16) | Ty::Scalar(Scalar::F16) => 16,
        Ty::Scalar(Scalar::I32) | Ty::Scalar(Scalar::F32) => 32,
        Ty::Scalar(Scalar::I64) | Ty::Scalar(Scalar::F64) | Ty::Ptr(_) => 64,
        _ => 0,
    }
}

pub open spec fn is_pattern(ty: Ty, x: int) -> bool {
    0 <= x < patterns(ty)
}

/// The pattern of a number: the number modulo the size of the type.
pub open spec fn wrap(ty: Ty, n: int) -> int {
    n % patterns(ty)
}

/// The number that a pattern stands for in two's complement.
pub open spec fn signed(ty: Ty, x: int) -> int {
    if 2 * x < patterns(ty) {
        x
    } else {
        x - patterns(ty)
    }
}

pub open spec fn size_of_int(n: int) -> int {
    if n < 0 {
        -n
    } else {
        n
    }
}

/// The quotient toward zero.
pub open spec fn quotient(a: int, b: int) -> int {
    if (a < 0) == (b < 0) {
        size_of_int(a) / size_of_int(b)
    } else {
        -(size_of_int(a) / size_of_int(b))
    }
}

/// What remains, with the sign of the dividend.
pub open spec fn remainder(a: int, b: int) -> int {
    a - quotient(a, b) * b
}

/// Two to a power.
pub open spec fn two_to(n: int) -> int
    decreases n,
{
    if n <= 0 {
        1
    } else {
        2 * two_to(n - 1)
    }
}

// ---- floating point ------------------------------------------------------------------------

/// An arithmetic of floating-point patterns.
pub struct Floats {
    pub sum: spec_fn(Scalar, int, int) -> int,
    pub difference: spec_fn(Scalar, int, int) -> int,
    pub product: spec_fn(Scalar, int, int) -> int,
    pub quotient: spec_fn(Scalar, int, int) -> int,
    pub remainder: spec_fn(Scalar, int, int) -> int,
    pub less: spec_fn(Scalar, int, int) -> bool,
    pub equal: spec_fn(Scalar, int, int) -> bool,
    pub unordered: spec_fn(Scalar, int, int) -> bool,
    /// The pattern of an integer.
    pub of_int: spec_fn(Scalar, int) -> int,
    /// The signed integer of a pattern, and the unsigned one, for a number of bits.
    pub to_signed: spec_fn(Scalar, int, int) -> int,
    pub to_unsigned: spec_fn(Scalar, int, int) -> int,
    /// The pattern of another precision: from, to, pattern.
    pub resized: spec_fn(Scalar, Scalar, int) -> int,
}

/// Where a thread stands, and the arithmetic it computes with.
pub struct World {
    pub thread: (int, int, int),
    pub block: (int, int, int),
    pub block_size: (int, int, int),
    pub grid_size: (int, int, int),
    pub floats: Floats,
}

pub open spec fn scalar_of(ty: Ty) -> Scalar {
    match ty {
        Ty::Scalar(s) => s,
        _ => Scalar::I64,
    }
}

pub open spec fn truth(b: bool) -> int {
    if b {
        1
    } else {
        0
    }
}

// ---- operations ----------------------------------------------------------------------------

/// The value of an operation between two values. Quotients and remainders are of signed numbers;
/// by zero there is none, and none of a shift by the width or more.
pub open spec fn bin_value(f: Floats, op: BinOp, ty: Ty, x: int, y: int) -> Option<int> {
    let s = scalar_of(ty);
    match op {
        BinOp::Add => Some(wrap(ty, x + y)),
        BinOp::Sub => Some(wrap(ty, x - y)),
        BinOp::Mul => Some(wrap(ty, x * y)),
        BinOp::Div => if y == 0 {
            None
        } else {
            Some(wrap(ty, quotient(signed(ty, x), signed(ty, y))))
        },
        BinOp::Rem => if y == 0 {
            None
        } else {
            Some(wrap(ty, remainder(signed(ty, x), signed(ty, y))))
        },
        BinOp::And => Some(((x as u64) & (y as u64)) as int),
        BinOp::Or => Some(((x as u64) | (y as u64)) as int),
        BinOp::Xor => Some(((x as u64) ^ (y as u64)) as int),
        BinOp::Shl => if y < width(ty) {
            Some(wrap(ty, x * two_to(y)))
        } else {
            None
        },
        BinOp::Lshr => if y < width(ty) {
            Some(wrap(ty, x / two_to(y)))
        } else {
            None
        },
        BinOp::Ashr => if y < width(ty) {
            Some(wrap(ty, signed(ty, x) / two_to(y)))
        } else {
            None
        },
        BinOp::FAdd => Some((f.sum)(s, x, y)),
        BinOp::FSub => Some((f.difference)(s, x, y)),
        BinOp::FMul => Some((f.product)(s, x, y)),
        BinOp::FDiv => Some((f.quotient)(s, x, y)),
        BinOp::FRem => Some((f.remainder)(s, x, y)),
    }
}

/// Whether a predicate holds of two integers.
pub open spec fn int_relation(pred: ICmpPred, ty: Ty, x: int, y: int) -> bool {
    match pred {
        ICmpPred::Eq => x == y,
        ICmpPred::Ne => x != y,
        ICmpPred::Slt => signed(ty, x) < signed(ty, y),
        ICmpPred::Sle => signed(ty, x) <= signed(ty, y),
        ICmpPred::Sgt => signed(ty, x) > signed(ty, y),
        ICmpPred::Sge => signed(ty, x) >= signed(ty, y),
        ICmpPred::Ult => x < y,
        ICmpPred::Ule => x <= y,
        ICmpPred::Ugt => x > y,
        ICmpPred::Uge => x >= y,
    }
}

/// Whether a predicate holds of two floats: all but the last are false of what has no order.
pub open spec fn float_relation(f: Floats, pred: FCmpPred, ty: Ty, x: int, y: int) -> bool {
    let s = scalar_of(ty);
    let ordered = !(f.unordered)(s, x, y);
    match pred {
        FCmpPred::Oeq => ordered && (f.equal)(s, x, y),
        FCmpPred::One => ordered && !(f.equal)(s, x, y),
        FCmpPred::Olt => ordered && (f.less)(s, x, y),
        FCmpPred::Ole => ordered && ((f.less)(s, x, y) || (f.equal)(s, x, y)),
        FCmpPred::Ogt => ordered && (f.less)(s, y, x),
        FCmpPred::Oge => ordered && ((f.less)(s, y, x) || (f.equal)(s, x, y)),
        FCmpPred::Ord => ordered,
        FCmpPred::Uno => !ordered,
    }
}

/// The value of a conversion.
pub open spec fn cast_value(f: Floats, op: CastOp, from: Ty, to: Ty, x: int) -> int {
    match op {
        CastOp::Trunc => wrap(to, x),
        CastOp::Zext => x,
        CastOp::Sext => wrap(to, signed(from, x)),
        CastOp::FpTrunc | CastOp::FpExt => (f.resized)(scalar_of(from), scalar_of(to), x),
        CastOp::FpToSi => wrap(to, (f.to_signed)(scalar_of(from), width(to), x)),
        CastOp::FpToUi => wrap(to, (f.to_unsigned)(scalar_of(from), width(to), x)),
        CastOp::SiToFp => (f.of_int)(scalar_of(to), signed(from, x)),
        CastOp::UiToFp => (f.of_int)(scalar_of(to), x),
        CastOp::Bitcast => wrap(to, x),
    }
}

/// The value of an operation in a world, given the values of its operands; none for what reads
/// memory, depends on the way that was taken, or has no value.
pub open spec fn op_value(w: World, ty: Ty, op: OpV, vals: spec_fn(ValRef) -> int) -> Option<int> {
    match op {
        OpV::ConstInt(n) => Some(wrap(ty, n as int)),
        OpV::ConstFloat(c) => Some(
            if ty == Ty::Scalar(Scalar::F64) {
                c.double as int
            } else {
                c.single as int
            },
        ),
        OpV::Bin(o, a, b) => bin_value(w.floats, o, ty, vals(a), vals(b)),
        OpV::ICmp(p, t, a, b) => Some(truth(int_relation(p, t, vals(a), vals(b)))),
        OpV::FCmp(p, t, a, b) => Some(truth(float_relation(w.floats, p, t, vals(a), vals(b)))),
        OpV::Select(c, a, b) => Some(
            if vals(c) != 0 {
                vals(a)
            } else {
                vals(b)
            },
        ),
        OpV::Cast(o, from, a) => Some(cast_value(w.floats, o, from, ty, vals(a))),
        OpV::TidX => Some(w.thread.0),
        OpV::TidY => Some(w.thread.1),
        OpV::TidZ => Some(w.thread.2),
        OpV::BidX => Some(w.block.0),
        OpV::BidY => Some(w.block.1),
        OpV::BidZ => Some(w.block.2),
        OpV::BdimX => Some(w.block_size.0),
        OpV::BdimY => Some(w.block_size.1),
        OpV::BdimZ => Some(w.block_size.2),
        OpV::GdimX => Some(w.grid_size.0),
        OpV::GdimY => Some(w.grid_size.1),
        OpV::GdimZ => Some(w.grid_size.2),
        _ => None,
    }
}

/// Whether values agree with the instructions from index `from` on: where an instruction has a
/// value of its own, it is that.
pub open spec fn agrees(
    w: World,
    insts: Seq<InstV>,
    from: nat,
    vals: spec_fn(ValRef) -> int,
) -> bool {
    &&& insts.len() <= 0x1_0000_0000
    &&& forall|i: int|
        from <= i < insts.len() ==> (op_value(w, (#[trigger] insts[i]).ty, insts[i].op, vals)
            matches Some(v) ==> vals(ValRef::Val(InstId(i as u32))) == v)
}

// ---- laws of the model ---------------------------------------------------------------------

/// Wrapping does not see what a pattern stands for: a pattern and its signed number differ by
/// the number of patterns or not at all.
pub proof fn law_signed_is_congruent(ty: Ty, x: int)
    requires
        is_pattern(ty, x),
    ensures
        signed(ty, x) == x || signed(ty, x) == x - patterns(ty),
        wrap(ty, signed(ty, x)) == x,
        wrap(ty, x) == x,
{
    let m = patterns(ty);
    vstd::arithmetic::div_mod::lemma_small_mod(x as nat, m as nat);
    if signed(ty, x) != x {
        vstd::arithmetic::div_mod::lemma_mod_multiples_vanish(-1, x, m);
    }
}

/// What a quotient toward zero and its remainder are: they give back the dividend, and the
/// remainder is smaller than the divisor and has the sign of the dividend.
pub proof fn law_quotient_and_remainder(a: int, b: int)
    requires
        b != 0,
    ensures
        quotient(a, b) * b + remainder(a, b) == a,
        size_of_int(remainder(a, b)) < size_of_int(b),
        remainder(a, b) == 0 || (remainder(a, b) < 0) == (a < 0),
{
    let (x, y) = (size_of_int(a), size_of_int(b));
    let q = x / y;
    vstd::arithmetic::div_mod::lemma_fundamental_div_mod(x, y);
    vstd::arithmetic::div_mod::lemma_mod_bound(x, y);
    assert(x == y * q + x % y);
    assert((-q) * b == -(q * b)) by (nonlinear_arith);
    assert(q * (-b) == -(q * b)) by (nonlinear_arith);
    assert(y * q == q * y) by (nonlinear_arith);
}

/// Sums, differences and products of patterns are those of the numbers they stand for.
pub proof fn lemma_wrapped_arithmetic(ty: Ty, x: int, y: int, a: int, b: int)
    requires
        is_pattern(ty, x),
        is_pattern(ty, y),
        a == x || a == x - patterns(ty),
        b == y || b == y - patterns(ty),
    ensures
        wrap(ty, a + b) == wrap(ty, x + y),
        wrap(ty, a - b) == wrap(ty, x - y),
        wrap(ty, a * b) == wrap(ty, x * y),
{
    let m = patterns(ty);
    let (j, k) = (
        if a == x {
            0int
        } else {
            -1
        },
        if b == y {
            0int
        } else {
            -1
        },
    );
    assert(a == x + j * m) by (nonlinear_arith)
        requires
            (j == 0 && a == x) || (j == -1 && a == x - m),
    ;
    assert(b == y + k * m) by (nonlinear_arith)
        requires
            (k == 0 && b == y) || (k == -1 && b == y - m),
    ;
    assert(a + b == (j + k) * m + (x + y)) by (nonlinear_arith)
        requires
            a == x + j * m,
            b == y + k * m,
    ;
    vstd::arithmetic::div_mod::lemma_mod_multiples_vanish(j + k, x + y, m);
    assert(m * (j + k) == (j + k) * m) by (nonlinear_arith);
    assert(a - b == (j - k) * m + (x - y)) by (nonlinear_arith)
        requires
            a == x + j * m,
            b == y + k * m,
    ;
    vstd::arithmetic::div_mod::lemma_mod_multiples_vanish(j - k, x - y, m);
    assert(m * (j - k) == (j - k) * m) by (nonlinear_arith);
    let t = j * y + k * x + j * k * m;
    assert(a * b == t * m + x * y) by (nonlinear_arith)
        requires
            a == x + j * m,
            b == y + k * m,
            t == j * y + k * x + j * k * m,
    ;
    vstd::arithmetic::div_mod::lemma_mod_multiples_vanish(t, x * y, m);
    assert(m * t == t * m) by (nonlinear_arith);
}

} // verus!
