//! The arithmetic of CUDA C on single-precision floats, as the machine has it.

use vstd::prelude::*;

use crate::bir::{BinOp as BBin, Scalar, ValRef};
use crate::rv::exec::float_value;
use crate::rv::softfloat_ref::{add_value, is_inf, is_nan, law_difference_with_itself, mul_value};
use crate::sema::c_ast::{BinOp, ScalarKind};
use crate::sema::c_meaning::{converted, law_arithmetic};
use crate::sema::lower::{lower_arith_s, LwState};
use crate::sema::meaning::{agrees, Floats, World};
use crate::sema::ty::TyV;
use crate::sema::typing::common;

verus! {

/// Whether an arithmetic is that of the machine on single-precision patterns.
pub open spec fn machine_floats(f: Floats) -> bool {
    &&& forall|x: u32, y: u32|
        (#[trigger] (f.sum)(Scalar::F32, x as int, y as int)) == add_value(x, y)
    &&& forall|x: u32, y: u32|
        (#[trigger] (f.difference)(Scalar::F32, x as int, y as int)) == add_value(
            x,
            y ^ 0x8000_0000,
        )
    &&& forall|x: u32, y: u32|
        (#[trigger] (f.product)(Scalar::F32, x as int, y as int)) == mul_value(x, y)
}

/// The code of `x - x` on a finite float computes zero.
pub proof fn law_lowered_difference_with_itself(
    w: World,
    st: LwState,
    v: ValRef,
    x: u32,
    vals: spec_fn(ValRef) -> int,
)
    requires
        machine_floats(w.floats),
        !is_nan(x),
        !is_inf(x),
        vals(v) == x,
        ({
            let float = TyV::Scalar(ScalarKind::Float);
            agrees(
                w,
                lower_arith_s(st, BinOp::Sub, v, float, v, float).0.b.insts,
                st.b.insts.len(),
                vals,
            )
        }),
    ensures
        ({
            let float = TyV::Scalar(ScalarKind::Float);
            vals(lower_arith_s(st, BinOp::Sub, v, float, v, float).1.0) == 0
        }),
{
    let float = TyV::Scalar(ScalarKind::Float);
    law_arithmetic(w, st, BinOp::Sub, v, float, v, float, vals);
    law_difference_with_itself(x);
    assert(common(float, float) == float);
    assert(converted(w.floats, float, float, vals(v)) == x as int);
    assert((w.floats.difference)(Scalar::F32, x as int, x as int) == add_value(
        x,
        x ^ 0x8000_0000,
    ));
}

/// The operations that the machine runs for sums, differences and products are those.
pub proof fn law_machine_operations(x: u32, y: u32)
    ensures
        float_value(BBin::FAdd, x, y) == add_value(x, y),
        float_value(BBin::FSub, x, y) == add_value(x, y ^ 0x8000_0000),
        float_value(BBin::FMul, x, y) == mul_value(x, y),
{
}

} // verus!
