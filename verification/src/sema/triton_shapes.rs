//! The shape rules of Triton expressions, stated by themselves, and that inference keeps to them.
//!
//! A dimension over numbers has the value of its Python arithmetic. An expression that the rules
//! give a shape is inferred to have it, and nothing is reported.

use vstd::prelude::*;

use crate::diag::ECode;
use crate::numeral::python_int;
use crate::sema::triton_ast::{
    attr_of, expr_span, spec_is_keyword, BinOp, Expr, Keyword, Param, Stmt, UnaryOp,
};
use crate::sema::triton_check::{
    bind_targets_s, check_stmt_s, combined_dim, dim_value, index_step, index_steps, index_steps_of,
    infer_all_s, infer_arange_s, infer_call_s, infer_dims_s, infer_expr_inner_s, infer_expr_s,
    infer_from_s, infer_join_s, infer_joined_s, infer_keywords_s, infer_load_s, infer_mask_s,
    infer_store_s, infer_subscript_s, infer_zeros_s, note_s, seed_param_s, TkState,
};
use crate::sema::triton_ty::{int_text, joined, keeps, reshaped, DimV, Elem, TileTyV};

verus! {

// ---- arithmetic of dimensions --------------------------------------------------------------

/// A number of 64 bits.
pub open spec fn is_64(n: int) -> bool {
    -0x8000_0000_0000_0000 <= n <= 0x7fff_ffff_ffff_ffff
}

/// The sum of two numbers is the one that the second taken away from gives the first; there is one
/// wherever it is a number of 64 bits.
pub proof fn law_sum_of_dimensions(a: i64, b: i64)
    ensures
        combined_dim(BinOp::Add, DimV::Const(a), DimV::Const(b)) is Some <==> is_64(a + b),
        combined_dim(BinOp::Add, DimV::Const(a), DimV::Const(b)) matches Some(d) ==> (
        d matches DimV::Const(s) && s - b == a),
{
}

/// The difference of two numbers is the one that gives the first when the second is added.
pub proof fn law_difference_of_dimensions(a: i64, b: i64)
    ensures
        combined_dim(BinOp::Sub, DimV::Const(a), DimV::Const(b)) is Some <==> is_64(a - b),
        combined_dim(BinOp::Sub, DimV::Const(a), DimV::Const(b)) matches Some(d) ==> (
        d matches DimV::Const(s) && s + b == a),
{
}

/// The product of two numbers is their product wherever that is a number of 64 bits: nothing for a
/// factor of zero, and `a` more for every step of the other factor.
pub proof fn law_product_of_dimensions(a: i64, b: i64)
    ensures
        combined_dim(BinOp::Mul, DimV::Const(a), DimV::Const(0)) == Some(DimV::Const(0)),
        combined_dim(BinOp::Mul, DimV::Const(a), DimV::Const(b)) is Some <==> is_64(a * b),
        combined_dim(BinOp::Mul, DimV::Const(a), DimV::Const(b)) matches Some(d) ==> d is Const,
        b < i64::MAX ==> match (
            combined_dim(BinOp::Mul, DimV::Const(a), DimV::Const(b)),
            combined_dim(BinOp::Mul, DimV::Const(a), DimV::Const((b + 1) as i64)),
        ) {
            (Some(DimV::Const(p)), Some(DimV::Const(q))) => q - p == a,
            _ => true,
        },
{
    assert(a * 0 == 0);
    assert(a * 1 == a);
    assert(1 * b == b);
    assert(a * (b + 1) == a * b + a) by (nonlinear_arith);
    assert(1 * (b + 1) == b + 1);
}

/// The floor quotient is the number of whole times that the divisor goes into the dividend: what
/// remains is not negative and less than the divisor in size. There is none for a divisor of zero,
/// and for the one quotient that is no number of 64 bits.
pub proof fn law_quotient_of_dimensions(a: i64, b: i64)
    ensures
        combined_dim(BinOp::FloorDiv, DimV::Const(a), DimV::Const(b)) is None <==> b == 0 || (a
            == i64::MIN && b == -1),
        combined_dim(BinOp::FloorDiv, DimV::Const(a), DimV::Const(b)) matches Some(d) ==> (
        d matches DimV::Const(q) && 0 <= a - q * b < (if b < 0 {
            -b
        } else {
            b as int
        })),
{
    if b != 0 && b != 1 {
        let (x, y) = (a as int, b as int);
        let q = x / y;
        assert(0 <= x - q * y && x - q * y < (if y < 0 {
            -y
        } else {
            y
        })) by (nonlinear_arith)
            requires
                y != 0,
                q == x / y,
        ;
        assert(is_64(q) <==> !(x == i64::MIN && y == -1)) by (nonlinear_arith)
            requires
                y != 0,
                0 <= x - q * y,
                x - q * y < (if y < 0 {
                    -y
                } else {
                    y
                }),
                is_64(x),
                is_64(y),
        ;
    }
}

/// Neither a zero that is added or taken away nor a factor or divisor of one changes a dimension.
pub proof fn law_neutral_dimensions(d: DimV)
    ensures
        combined_dim(BinOp::Add, d, DimV::Const(0)) == Some(d),
        combined_dim(BinOp::Add, DimV::Const(0), d) == Some(d),
        combined_dim(BinOp::Sub, d, DimV::Const(0)) == Some(d),
        combined_dim(BinOp::Mul, d, DimV::Const(1)) == Some(d),
        combined_dim(BinOp::Mul, DimV::Const(1), d) == Some(d),
        combined_dim(BinOp::FloorDiv, d, DimV::Const(1)) == Some(d),
{
}

/// A dimension with a name in it is kept as it is written: the left text, the sign, the right
/// text.
pub proof fn law_named_dimensions(s: Seq<char>, t: Seq<char>, n: i64)
    requires
        n != 0,
        n != 1,
    ensures
        combined_dim(BinOp::Add, DimV::Symbolic(s), DimV::Symbolic(t)) == Some(
            DimV::Symbolic(s + " + "@ + t),
        ),
        combined_dim(BinOp::Sub, DimV::Symbolic(s), DimV::Symbolic(t)) == Some(
            DimV::Symbolic(s + " - "@ + t),
        ),
        combined_dim(BinOp::Mul, DimV::Symbolic(s), DimV::Symbolic(t)) == Some(
            DimV::Symbolic(s + " * "@ + t),
        ),
        combined_dim(BinOp::FloorDiv, DimV::Symbolic(s), DimV::Symbolic(t)) == Some(
            DimV::Symbolic(s + " // "@ + t),
        ),
        combined_dim(BinOp::Mul, DimV::Symbolic(s), DimV::Const(n)) == Some(
            DimV::Symbolic(s + " * "@ + int_text(n as int)),
        ),
        combined_dim(BinOp::Sub, DimV::Const(n), DimV::Symbolic(t)) == Some(
            DimV::Symbolic(int_text(n as int) + " - "@ + t),
        ),
{
}

/// Only sums, differences, products and floor quotients are dimensions.
pub proof fn law_other_operators_are_no_dimension(op: BinOp, l: DimV, r: DimV)
    requires
        op != BinOp::Add,
        op != BinOp::Sub,
        op != BinOp::Mul,
        op != BinOp::FloorDiv,
    ensures
        combined_dim(op, l, r) is None,
{
}

/// The number that an expression over numbers stands for in Python, where every number on the way
/// is one of 64 bits and no divisor is less than one.
pub open spec fn python_value(sizes: Map<Seq<char>, int>, e: Expr) -> Option<int>
    decreases e,
{
    match e {
        Expr::IntLit { text, span } => python_int(text@),
        Expr::Name { name, span } => if sizes.contains_key(name@) && is_64(sizes[name@]) {
            Some(sizes[name@])
        } else {
            None
        },
        Expr::UnaryOp { op, operand, span } => match (op, python_value(sizes, *operand)) {
            (UnaryOp::UAdd, Some(x)) => Some(x),
            (UnaryOp::USub, Some(x)) => if is_64(0 - x) {
                Some(0 - x)
            } else {
                None
            },
            _ => None,
        },
        Expr::BinOp { op, lhs, rhs, span } => match (
            python_value(sizes, *lhs),
            python_value(sizes, *rhs),
        ) {
            (Some(x), Some(y)) => {
                if op == BinOp::Add && is_64(x + y) {
                    Some(x + y)
                } else if op == BinOp::Sub && is_64(x - y) {
                    Some(x - y)
                } else if op == BinOp::Mul && is_64(x * y) {
                    Some(x * y)
                } else if op == BinOp::FloorDiv && y > 0 {
                    Some(x / y)
                } else {
                    None
                }
            },
            _ => None,
        },
        _ => None,
    }
}

/// A literal of Python is a number of 64 bits.
proof fn lemma_python_int_is_64(text: Seq<char>)
    ensures
        python_int(text) matches Some(n) ==> is_64(n),
{
}

/// A dimension over numbers has the value of its Python arithmetic.
pub proof fn law_dimension_is_python_arithmetic(
    consts: Map<Seq<char>, DimV>,
    sizes: Map<Seq<char>, int>,
    e: Expr,
)
    requires
        forall|x: Seq<char>|
            #[trigger] sizes.contains_key(x) && is_64(sizes[x]) ==> consts.contains_key(x)
                && consts[x] == DimV::Const(sizes[x] as i64),
        python_value(sizes, e) is Some,
    ensures
        is_64(python_value(sizes, e)->0),
        dim_value(consts, e) == Some(DimV::Const(python_value(sizes, e)->0 as i64)),
    decreases e,
{
    match e {
        Expr::IntLit { text, span } => {
            lemma_python_int_is_64(text@);
        },
        Expr::UnaryOp { op, operand, span } => {
            law_dimension_is_python_arithmetic(consts, sizes, *operand);
        },
        Expr::BinOp { op, lhs, rhs, span } => {
            law_dimension_is_python_arithmetic(consts, sizes, *lhs);
            law_dimension_is_python_arithmetic(consts, sizes, *rhs);
            let x = python_value(sizes, *lhs)->0;
            let y = python_value(sizes, *rhs)->0;
            assert(x * 1 == x && 1 * y == y);
            if op == BinOp::FloorDiv {
                law_quotient_of_dimensions(x as i64, y as i64);
                assert(is_64(x / y)) by (nonlinear_arith)
                    requires
                        is_64(x),
                        y > 0,
                ;
            }
        },
        _ => {},
    }
}

/// A name that stands for a dimension is that dimension, one with a minus before it is the
/// opposite of a number.
pub proof fn law_signed_dimension(consts: Map<Seq<char>, DimV>, e: Expr, n: i64)
    requires
        e matches Expr::UnaryOp { op, operand, .. } && op == UnaryOp::USub && dim_value(
            consts,
            *operand,
        ) == Some(DimV::Const(n)),
        n != i64::MIN,
    ensures
        dim_value(consts, e) matches Some(DimV::Const(m)) && m + n == 0,
{
}

// ---- shapes --------------------------------------------------------------------------------

/// The extent of an axis of an elementwise operation: equal extents are kept, and an extent of one
/// is stretched to the other.
pub open spec fn axis(x: DimV, y: DimV) -> Option<DimV> {
    if x == y {
        Some(x)
    } else if x == DimV::Const(1) {
        Some(y)
    } else if y == DimV::Const(1) {
        Some(x)
    } else {
        None
    }
}

/// The shape of an elementwise operation on two known shapes.
pub open spec fn elementwise(a: TileTyV, b: TileTyV) -> Option<TileTyV> {
    match (a, b) {
        (TileTyV::Scalar(x), TileTyV::Scalar(y)) => Some(
            TileTyV::Scalar(
                if x == y {
                    x
                } else {
                    Elem::Unknown
                },
            ),
        ),
        (TileTyV::Scalar(_), TileTyV::Rank1(d)) => Some(TileTyV::Rank1(d)),
        (TileTyV::Scalar(_), TileTyV::Rank2(d, e)) => Some(TileTyV::Rank2(d, e)),
        (TileTyV::Rank1(d), TileTyV::Scalar(_)) => Some(TileTyV::Rank1(d)),
        (TileTyV::Rank2(d, e), TileTyV::Scalar(_)) => Some(TileTyV::Rank2(d, e)),
        (TileTyV::Rank1(d), TileTyV::Rank1(e)) => match axis(d, e) {
            Some(x) => Some(TileTyV::Rank1(x)),
            None => None,
        },
        (TileTyV::Rank2(d0, d1), TileTyV::Rank2(e0, e1)) => match (axis(d0, e0), axis(d1, e1)) {
            (Some(x), Some(y)) => Some(TileTyV::Rank2(x, y)),
            _ => None,
        },
        _ => None,
    }
}

/// The shape of a truth value for every element.
pub open spec fn truth(t: TileTyV) -> TileTyV {
    if t is Scalar {
        TileTyV::Scalar(Elem::Bool)
    } else {
        t
    }
}

/// Whether an index is a bare colon.
pub open spec fn bare_colon(e: Expr) -> bool {
    e matches Expr::Slice { lower, upper, step, .. } && lower is None && upper is None && step
        is None
}

/// The shape of `t[index]` for the subscripts that only add axes of one.
pub open spec fn reindexed(t: TileTyV, index: Expr) -> Option<TileTyV> {
    match (t, index) {
        (TileTyV::Rank1(d), Expr::Tuple { elts, .. }) => if elts@.len() == 2 && bare_colon(elts@[0])
            && elts@[1] is NoneLit {
            Some(TileTyV::Rank2(d, DimV::Const(1)))
        } else if elts@.len() == 2 && elts@[0] is NoneLit && bare_colon(elts@[1]) {
            Some(TileTyV::Rank2(DimV::Const(1), d))
        } else if elts@.len() == 1 && bare_colon(elts@[0]) {
            Some(TileTyV::Rank1(d))
        } else {
            None
        },
        (TileTyV::Rank1(d), _) => if bare_colon(index) {
            Some(TileTyV::Rank1(d))
        } else {
            None
        },
        (TileTyV::Rank2(d, e), Expr::Tuple { elts, .. }) => if elts@.len() == 2 && bare_colon(
            elts@[0],
        ) && bare_colon(elts@[1]) {
            Some(TileTyV::Rank2(d, e))
        } else {
            None
        },
        _ => None,
    }
}

/// What names stand for.
pub struct ShapeEnv {
    pub vars: Map<Seq<char>, TileTyV>,
    pub consts: Map<Seq<char>, DimV>,
}

/// Whether the first `n` of a list have shapes.
pub open spec fn all_shaped(env: ShapeEnv, es: Seq<Expr>, n: nat) -> bool
    decreases es, n,
{
    if n == 0 || n > es.len() {
        true
    } else {
        all_shaped(env, es, (n - 1) as nat) && shape(env, es[n - 1]) is Some
    }
}

/// Whether the first `n` keyword arguments have shapes, and those named `mask` fit a shape.
pub open spec fn masks_fit(env: ShapeEnv, kws: Seq<Keyword>, n: nat, t: TileTyV) -> bool
    decreases kws, n,
{
    if n == 0 || n > kws.len() {
        true
    } else {
        &&& masks_fit(env, kws, (n - 1) as nat, t)
        &&& match shape(env, kws[n - 1].value) {
            Some(m) => spec_is_keyword(kws[n - 1], "mask"@) ==> elementwise(t, m) is Some,
            None => false,
        }
    }
}

/// The elementwise shape of `acc` and the first `n` of a list.
pub open spec fn shape_with(env: ShapeEnv, acc: TileTyV, es: Seq<Expr>, n: nat) -> Option<TileTyV>
    decreases es, n,
{
    if n == 0 || n > es.len() {
        Some(acc)
    } else {
        match (shape_with(env, acc, es, (n - 1) as nat), shape(env, es[n - 1])) {
            (Some(a), Some(b)) => elementwise(a, b),
            _ => None,
        }
    }
}

/// The elementwise shape of the first `n` of a list, of which there is at least one.
pub open spec fn shape_of_all(env: ShapeEnv, es: Seq<Expr>, n: nat) -> Option<TileTyV>
    decreases es, n,
{
    if n == 0 || n > es.len() {
        None
    } else if n == 1 {
        shape(env, es[0])
    } else {
        match (shape_of_all(env, es, (n - 1) as nat), shape(env, es[n - 1])) {
            (Some(a), Some(b)) => elementwise(a, b),
            _ => None,
        }
    }
}

/// `arange(lo, hi)`: one axis of `hi - lo`.
pub open spec fn arange_shape(env: ShapeEnv, e: Expr) -> Option<TileTyV>
    decreases e, 7nat,
{
    match e {
        Expr::Call { func, args, keywords, span } => if args@.len() == 2 && shape(env, args@[0])
            is Some && shape(env, args@[1]) is Some {
            match (dim_value(env.consts, args@[0]), dim_value(env.consts, args@[1])) {
                (Some(lo), Some(hi)) => match combined_dim(BinOp::Sub, hi, lo) {
                    Some(d) => Some(TileTyV::Rank1(d)),
                    None => None,
                },
                _ => None,
            }
        } else {
            None
        },
        _ => None,
    }
}

/// `load(pointer, mask = m)`: the shape of the pointer.
pub open spec fn load_shape(env: ShapeEnv, e: Expr) -> Option<TileTyV>
    decreases e, 7nat,
{
    match e {
        Expr::Call { func, args, keywords, span } => if args@.len() >= 1 && all_shaped(
            env,
            args@,
            args@.len(),
        ) {
            match shape(env, args@[0]) {
                Some(p) => if masks_fit(env, keywords@, keywords@.len(), p) {
                    Some(p)
                } else {
                    None
                },
                None => None,
            }
        } else {
            None
        },
        _ => None,
    }
}

/// `store(pointer, value, mask = m)`: no tile comes of it.
pub open spec fn store_shape(env: ShapeEnv, e: Expr) -> Option<TileTyV>
    decreases e, 7nat,
{
    match e {
        Expr::Call { func, args, keywords, span } => if args@.len() >= 2 && all_shaped(
            env,
            args@,
            args@.len(),
        ) {
            match (shape(env, args@[0]), shape(env, args@[1])) {
                (Some(p), Some(v)) => if elementwise(p, v) is Some && masks_fit(
                    env,
                    keywords@,
                    keywords@.len(),
                    p,
                ) {
                    Some(TileTyV::Scalar(Elem::Unknown))
                } else {
                    None
                },
                _ => None,
            }
        } else {
            None
        },
        _ => None,
    }
}

/// `zeros((m, n))`, `zeros((m,))` or `zeros(m)`.
pub open spec fn zeros_shape(env: ShapeEnv, e: Expr) -> Option<TileTyV>
    decreases e, 7nat,
{
    match e {
        Expr::Call { func, args, keywords, span } => if args@.len() >= 1 && masks_fit(
            env,
            keywords@,
            keywords@.len(),
            TileTyV::Scalar(Elem::Int),
        ) {
            match args@[0] {
                Expr::Tuple { elts, .. } => if !all_shaped(env, elts@, elts@.len()) {
                    None
                } else if elts@.len() == 1 {
                    match dim_value(env.consts, elts@[0]) {
                        Some(d) => Some(TileTyV::Rank1(d)),
                        None => None,
                    }
                } else if elts@.len() == 2 {
                    match (dim_value(env.consts, elts@[0]), dim_value(env.consts, elts@[1])) {
                        (Some(d), Some(f)) => Some(TileTyV::Rank2(d, f)),
                        _ => None,
                    }
                } else {
                    None
                },
                _ => match (shape(env, args@[0]), dim_value(env.consts, args@[0])) {
                    (Some(_), Some(d)) => Some(TileTyV::Rank1(d)),
                    _ => None,
                },
            }
        } else {
            None
        },
        _ => None,
    }
}

/// The shape of a call of one of the builtins: `program_id` is a number.
pub open spec fn call_shape(env: ShapeEnv, e: Expr) -> Option<TileTyV>
    decreases e, 8nat,
{
    match e {
        Expr::Call { func, args, keywords, span } => if attr_of(*func) == Some("program_id"@) {
            if all_shaped(env, args@, args@.len()) && masks_fit(
                env,
                keywords@,
                keywords@.len(),
                TileTyV::Scalar(Elem::Int),
            ) {
                Some(TileTyV::Scalar(Elem::Int))
            } else {
                None
            }
        } else if attr_of(*func) == Some("zeros"@) {
            zeros_shape(env, e)
        } else if attr_of(*func) == Some("store"@) {
            store_shape(env, e)
        } else if attr_of(*func) == Some("load"@) {
            load_shape(env, e)
        } else if attr_of(*func) == Some("arange"@) {
            arange_shape(env, e)
        } else {
            None
        },
        _ => None,
    }
}

/// The shape of an expression by the rules; none where they give none.
pub open spec fn shape(env: ShapeEnv, e: Expr) -> Option<TileTyV>
    decreases e, 9nat,
{
    match e {
        Expr::Name { name, span } => if env.vars.contains_key(name@) && !(env.vars[name@] is Unknown) {
            Some(env.vars[name@])
        } else {
            None
        },
        Expr::IntLit { text, span } => Some(TileTyV::Scalar(Elem::Int)),
        Expr::FloatLit { value, span } => Some(TileTyV::Scalar(Elem::Float)),
        Expr::BoolLit { value, span } => Some(TileTyV::Scalar(Elem::Bool)),
        Expr::UnaryOp { op, operand, span } => match shape(env, *operand) {
            Some(t) => Some(
                if op == UnaryOp::Not {
                    truth(t)
                } else {
                    t
                },
            ),
            None => None,
        },
        Expr::BinOp { op, lhs, rhs, span } => match (shape(env, *lhs), shape(env, *rhs)) {
            (Some(a), Some(b)) => if op == BinOp::MatMul {
                None
            } else {
                elementwise(a, b)
            },
            _ => None,
        },
        Expr::BoolOp { op, values, span } => match shape_of_all(env, values@, values@.len()) {
            Some(t) => Some(truth(t)),
            None => None,
        },
        Expr::Compare { left, ops, comparators, span } => match shape(env, *left) {
            Some(a) => match shape_with(env, a, comparators@, comparators@.len()) {
                Some(t) => Some(truth(t)),
                None => None,
            },
            None => None,
        },
        Expr::Ternary { test, body, orelse, span } => match (
            shape(env, *test),
            shape(env, *body),
            shape(env, *orelse),
        ) {
            (Some(_), Some(a), Some(b)) => elementwise(a, b),
            _ => None,
        },
        Expr::Subscript { value, index, span } => match shape(env, *value) {
            Some(t) => reindexed(t, *index),
            None => None,
        },
        Expr::Call { func, args, keywords, span } => call_shape(env, e),
        _ => None,
    }
}

/// Whether only the shapes of expressions were noted between two states.
pub open spec fn only_noted(a: TkState, b: TkState) -> bool {
    &&& b.diags == a.diags
    &&& b.vars == a.vars
    &&& b.consts == a.consts
}

pub open spec fn in_env(env: ShapeEnv, st: TkState) -> bool {
    st.vars == env.vars && st.consts == env.consts
}

/// Where both shapes are known, an elementwise operation has the shape of the rules, and otherwise
/// none.
pub proof fn law_broadcast_is_elementwise(a: TileTyV, b: TileTyV)
    requires
        !(a is Unknown),
        !(b is Unknown),
    ensures
        joined(a, b) == elementwise(a, b),
{
}

proof fn lemma_shape_known(env: ShapeEnv, e: Expr)
    ensures
        !(shape(env, e) == Some(TileTyV::Unknown)),
    decreases e,
{
    match e {
        Expr::UnaryOp { op, operand, span } => {
            lemma_shape_known(env, *operand);
        },
        Expr::Subscript { value, index, span } => {
            lemma_shape_known(env, *value);
        },
        Expr::BoolOp { op, values, span } => {
            lemma_shape_of_all_known(env, values@, values@.len());
        },
        Expr::Compare { left, ops, comparators, span } => {
            lemma_shape_known(env, *left);
            if shape(env, *left) is Some {
                lemma_shape_with_known(
                    env,
                    shape(env, *left)->0,
                    comparators@,
                    comparators@.len(),
                );
            }
        },
        Expr::Call { func, args, keywords, span } => {
            if args@.len() >= 1 {
                lemma_shape_known(env, args@[0]);
            }
            assert(call_shape(env, e) != Some(TileTyV::Unknown));
        },
        _ => {},
    }
}

proof fn lemma_shape_of_all_known(env: ShapeEnv, es: Seq<Expr>, n: nat)
    ensures
        !(shape_of_all(env, es, n) == Some(TileTyV::Unknown)),
    decreases es, n,
{
    if n == 1 && n <= es.len() {
        lemma_shape_known(env, es[0]);
    }
}

proof fn lemma_shape_with_known(env: ShapeEnv, acc: TileTyV, es: Seq<Expr>, n: nat)
    requires
        !(acc is Unknown),
    ensures
        !(shape_with(env, acc, es, n) == Some(TileTyV::Unknown)),
    decreases es, n,
{
}

/// The subscripts of the rules are the reshapes of inference.
proof fn lemma_reindexed(t: TileTyV, index: Expr)
    requires
        reindexed(t, index) is Some,
    ensures
        index_steps(index) is Some,
        reshaped(t, index_steps(index)->0) == reindexed(t, index),
{
    reveal_with_fuel(index_steps_of, 3);
    reveal_with_fuel(keeps, 3);
    let steps = index_steps(index)->0;
    match index {
        Expr::Tuple { elts, .. } => {
            if elts@.len() == 2 {
                assert(steps.len() == 2);
                assert(Some(steps[0]) == index_step(elts@[0]));
                assert(Some(steps[1]) == index_step(elts@[1]));
            } else {
                assert(steps.len() == 1);
                assert(Some(steps[0]) == index_step(elts@[0]));
            }
        },
        _ => {},
    }
}

proof fn lemma_all_at(env: ShapeEnv, es: Seq<Expr>, n: nat, i: int)
    requires
        all_shaped(env, es, n),
        0 <= i < n <= es.len(),
    ensures
        shape(env, es[i]) is Some,
    decreases n,
{
    if i < n - 1 {
        lemma_all_at(env, es, (n - 1) as nat, i);
    }
}

proof fn lemma_infer_all(env: ShapeEnv, st: TkState, es: Seq<Expr>, n: nat)
    requires
        in_env(env, st),
        all_shaped(env, es, n),
    ensures
        only_noted(st, infer_all_s(st, es, n)),
    decreases es, n,
{
    if n > 0 && n <= es.len() {
        lemma_infer_all(env, st, es, (n - 1) as nat);
        law_shaped_expressions(env, infer_all_s(st, es, (n - 1) as nat), es[n - 1]);
    }
}

proof fn lemma_infer_from(env: ShapeEnv, st: TkState, es: Seq<Expr>, from: nat)
    requires
        in_env(env, st),
        all_shaped(env, es, es.len()),
    ensures
        only_noted(st, infer_from_s(st, es, from)),
    decreases es, es.len() - from,
{
    if from < es.len() {
        lemma_all_at(env, es, es.len(), from as int);
        law_shaped_expressions(env, st, es[from as int]);
        lemma_infer_from(env, infer_expr_s(st, es[from as int]).0, es, from + 1);
    }
}

proof fn lemma_infer_keywords(env: ShapeEnv, st: TkState, kws: Seq<Keyword>, n: nat, t: TileTyV)
    requires
        in_env(env, st),
        masks_fit(env, kws, n, t),
    ensures
        only_noted(st, infer_keywords_s(st, kws, n)),
    decreases kws, n,
{
    if n > 0 && n <= kws.len() {
        lemma_infer_keywords(env, st, kws, (n - 1) as nat, t);
        law_shaped_expressions(
            env,
            infer_keywords_s(st, kws, (n - 1) as nat),
            kws[n - 1].value,
        );
    }
}

proof fn lemma_infer_mask(env: ShapeEnv, st: TkState, kws: Seq<Keyword>, n: nat, t: TileTyV)
    requires
        in_env(env, st),
        masks_fit(env, kws, n, t),
    ensures
        only_noted(st, infer_mask_s(st, kws, n).0),
        infer_mask_s(st, kws, n).1 matches Some(m) ==> !(m is Unknown) && elementwise(
            t,
            m,
        ) is Some,
    decreases kws, n,
{
    if n > 0 && n <= kws.len() {
        lemma_infer_mask(env, st, kws, (n - 1) as nat, t);
        law_shaped_expressions(
            env,
            infer_mask_s(st, kws, (n - 1) as nat).0,
            kws[n - 1].value,
        );
        lemma_shape_known(env, kws[n - 1].value);
    }
}

proof fn lemma_infer_join(env: ShapeEnv, st: TkState, acc: TileTyV, es: Seq<Expr>, n: nat, e: Expr)
    requires
        in_env(env, st),
        !(acc is Unknown),
        shape_with(env, acc, es, n) is Some,
    ensures
        only_noted(st, infer_join_s(st, acc, es, n, expr_span(e)).0),
        infer_join_s(st, acc, es, n, expr_span(e)).1 == shape_with(env, acc, es, n)->0,
    decreases es, n,
{
    if n > 0 && n <= es.len() {
        lemma_infer_join(env, st, acc, es, (n - 1) as nat, e);
        let s1 = infer_join_s(st, acc, es, (n - 1) as nat, expr_span(e)).0;
        law_shaped_expressions(env, s1, es[n - 1]);
        lemma_shape_with_known(env, acc, es, (n - 1) as nat);
        lemma_shape_known(env, es[n - 1]);
    }
}

proof fn lemma_infer_joined(env: ShapeEnv, st: TkState, es: Seq<Expr>, n: nat, e: Expr)
    requires
        in_env(env, st),
        shape_of_all(env, es, n) is Some,
    ensures
        only_noted(st, infer_joined_s(st, es, n, expr_span(e)).0),
        infer_joined_s(st, es, n, expr_span(e)).1 == shape_of_all(env, es, n)->0,
    decreases es, n,
{
    if n == 1 {
        law_shaped_expressions(env, st, es[0]);
    } else {
        lemma_infer_joined(env, st, es, (n - 1) as nat, e);
        let s1 = infer_joined_s(st, es, (n - 1) as nat, expr_span(e)).0;
        law_shaped_expressions(env, s1, es[n - 1]);
        lemma_shape_of_all_known(env, es, (n - 1) as nat);
        lemma_shape_known(env, es[n - 1]);
    }
}

proof fn lemma_infer_dims(env: ShapeEnv, st: TkState, es: Seq<Expr>, n: nat)
    requires
        in_env(env, st),
        all_shaped(env, es, n),
        n <= es.len(),
    ensures
        only_noted(st, infer_dims_s(st, es, n).0),
        (infer_dims_s(st, es, n).1 is Some) == (forall|i: int|
            0 <= i < n ==> dim_value(env.consts, #[trigger] es[i]) is Some),
        infer_dims_s(st, es, n).1 matches Some(v) ==> v.len() == n && forall|i: int|
            0 <= i < n ==> Some(#[trigger] v[i]) == dim_value(env.consts, es[i]),
    decreases es, n,
{
    if n > 0 {
        lemma_infer_dims(env, st, es, (n - 1) as nat);
        law_shaped_expressions(env, infer_dims_s(st, es, (n - 1) as nat).0, es[n - 1]);
        let before = infer_dims_s(st, es, (n - 1) as nat).1;
        let now = infer_dims_s(st, es, n).1;
        if before is Some && dim_value(env.consts, es[n - 1]) is Some {
            assert forall|i: int| 0 <= i < n implies dim_value(
                env.consts,
                #[trigger] es[i],
            ) is Some by {}
        }
        if now is Some {
            assert forall|i: int| 0 <= i < n implies dim_value(
                env.consts,
                #[trigger] es[i],
            ) is Some by {}
        } else if forall|i: int| 0 <= i < n ==> dim_value(env.consts, #[trigger] es[i]) is Some {
            assert(dim_value(env.consts, es[n - 1]) is Some);
            assert forall|i: int| 0 <= i < n - 1 implies dim_value(
                env.consts,
                #[trigger] es[i],
            ) is Some by {}
        }
    }
}

proof fn lemma_infer_arange(env: ShapeEnv, st: TkState, e: Expr)
    requires
        in_env(env, st),
        arange_shape(env, e) is Some,
    ensures
        only_noted(st, infer_arange_s(st, e).0),
        infer_arange_s(st, e).1 == arange_shape(env, e)->0,
    decreases e, 6nat,
{
    match e {
        Expr::Call { func, args, keywords, span } => {
            law_shaped_expressions(env, st, args@[0]);
            law_shaped_expressions(env, infer_expr_s(st, args@[0]).0, args@[1]);
        },
        _ => {},
    }
}

proof fn lemma_infer_load(env: ShapeEnv, st: TkState, e: Expr)
    requires
        in_env(env, st),
        load_shape(env, e) is Some,
    ensures
        only_noted(st, infer_load_s(st, e).0),
        infer_load_s(st, e).1 == load_shape(env, e)->0,
    decreases e, 6nat,
{
    match e {
        Expr::Call { func, args, keywords, span } => {
            law_shaped_expressions(env, st, args@[0]);
            lemma_shape_known(env, args@[0]);
            let s1 = infer_expr_s(st, args@[0]).0;
            lemma_infer_from(env, s1, args@, 1);
            let s2 = infer_from_s(s1, args@, 1);
            lemma_infer_mask(env, s2, keywords@, keywords@.len(), shape(env, args@[0])->0);
        },
        _ => {},
    }
}

proof fn lemma_infer_store(env: ShapeEnv, st: TkState, e: Expr)
    requires
        in_env(env, st),
        store_shape(env, e) is Some,
    ensures
        only_noted(st, infer_store_s(st, e).0),
        infer_store_s(st, e).1 == store_shape(env, e)->0,
    decreases e, 6nat,
{
    match e {
        Expr::Call { func, args, keywords, span } => {
            law_shaped_expressions(env, st, args@[0]);
            lemma_shape_known(env, args@[0]);
            let s1 = infer_expr_s(st, args@[0]).0;
            law_shaped_expressions(env, s1, args@[1]);
            lemma_shape_known(env, args@[1]);
            let s2 = infer_expr_s(s1, args@[1]).0;
            lemma_infer_from(env, s2, args@, 2);
            let s3 = infer_from_s(s2, args@, 2);
            lemma_infer_mask(env, s3, keywords@, keywords@.len(), shape(env, args@[0])->0);
        },
        _ => {},
    }
}

proof fn lemma_infer_zeros(env: ShapeEnv, st: TkState, e: Expr)
    requires
        in_env(env, st),
        zeros_shape(env, e) is Some,
    ensures
        only_noted(st, infer_zeros_s(st, e).0),
        infer_zeros_s(st, e).1 == zeros_shape(env, e)->0,
    decreases e, 6nat,
{
    match e {
        Expr::Call { func, args, keywords, span } => {
            lemma_infer_keywords(env, st, keywords@, keywords@.len(), TileTyV::Scalar(Elem::Int));
            let s1 = infer_keywords_s(st, keywords@, keywords@.len());
            match args@[0] {
                Expr::Tuple { elts, .. } => {
                    lemma_infer_dims(env, s1, elts@, elts@.len());
                    let (s2, dims) = infer_dims_s(s1, elts@, elts@.len());
                    assert(dim_value(env.consts, elts@[0]) is Some);
                    assert forall|i: int| 0 <= i < elts@.len() implies dim_value(
                        env.consts,
                        #[trigger] elts@[i],
                    ) is Some by {
                        assert(i == 0 || i == 1);
                    }
                    assert(Some(dims->0[0]) == dim_value(env.consts, elts@[0]));
                    if elts@.len() == 2 {
                        assert(Some(dims->0[1]) == dim_value(env.consts, elts@[1]));
                    }
                },
                _ => {
                    law_shaped_expressions(env, s1, args@[0]);
                },
            }
        },
        _ => {},
    }
}

proof fn lemma_builtin_names()
    ensures
        "arange"@ != "load"@,
        "arange"@ != "store"@,
        "arange"@ != "zeros"@,
        "arange"@ != "program_id"@,
        "load"@ != "store"@,
        "load"@ != "zeros"@,
        "load"@ != "program_id"@,
        "store"@ != "zeros"@,
        "store"@ != "program_id"@,
        "zeros"@ != "program_id"@,
{
    reveal_strlit("program_id");
    reveal_strlit("arange");
    reveal_strlit("load");
    reveal_strlit("store");
    reveal_strlit("zeros");
    assert("program_id"@.len() == 10);
    assert("arange"@.len() == 6);
    assert("load"@.len() == 4);
    assert("store"@.len() == 5);
    assert("store"@[0] != "zeros"@[0]);
}

proof fn lemma_infer_call(env: ShapeEnv, st: TkState, e: Expr)
    requires
        in_env(env, st),
        call_shape(env, e) is Some,
    ensures
        only_noted(st, infer_call_s(st, e).0),
        infer_call_s(st, e).1 == call_shape(env, e)->0,
    decreases e, 7nat,
{
    lemma_builtin_names();
    match e {
        Expr::Call { func, args, keywords, span } => {
            if attr_of(*func) == Some("arange"@) {
                lemma_infer_arange(env, st, e);
            } else if attr_of(*func) == Some("load"@) {
                lemma_infer_load(env, st, e);
            } else if attr_of(*func) == Some("store"@) {
                lemma_infer_store(env, st, e);
            } else if attr_of(*func) == Some("zeros"@) {
                lemma_infer_zeros(env, st, e);
            } else {
                lemma_infer_all(env, st, args@, args@.len());
                let s1 = infer_all_s(st, args@, args@.len());
                lemma_infer_keywords(
                    env,
                    s1,
                    keywords@,
                    keywords@.len(),
                    TileTyV::Scalar(Elem::Int),
                );
            }
        },
        _ => {},
    }
}

proof fn lemma_infer_inner(env: ShapeEnv, st: TkState, e: Expr)
    requires
        in_env(env, st),
        shape(env, e) is Some,
    ensures
        only_noted(st, infer_expr_inner_s(st, e).0),
        infer_expr_inner_s(st, e).1 == shape(env, e)->0,
    decreases e, 8nat,
{
    match e {
        Expr::UnaryOp { op, operand, span } => {
            law_shaped_expressions(env, st, *operand);
        },
        Expr::BinOp { op, lhs, rhs, span } => {
            lemma_infer_binop(env, st, e);
        },
        Expr::BoolOp { op, values, span } => {
            lemma_infer_joined(env, st, values@, values@.len(), e);
        },
        Expr::Compare { left, ops, comparators, span } => {
            lemma_infer_compare(env, st, e);
        },
        Expr::Ternary { test, body, orelse, span } => {
            lemma_infer_ternary(env, st, e);
        },
        Expr::Subscript { value, index, span } => {
            law_shaped_expressions(env, st, *value);
            lemma_reindexed(shape(env, *value)->0, *index);
            assert(infer_expr_inner_s(st, e) == infer_subscript_s(st, *value, *index, span));
        },
        Expr::Call { func, args, keywords, span } => {
            lemma_infer_call(env, st, e);
            assert(infer_expr_inner_s(st, e) == infer_call_s(st, e));
        },
        _ => {},
    }
}

proof fn lemma_infer_binop(env: ShapeEnv, st: TkState, e: Expr)
    requires
        in_env(env, st),
        e is BinOp,
        shape(env, e) is Some,
    ensures
        only_noted(st, infer_expr_inner_s(st, e).0),
        infer_expr_inner_s(st, e).1 == shape(env, e)->0,
    decreases e, 7nat,
{
    match e {
        Expr::BinOp { op, lhs, rhs, span } => {
            law_shaped_expressions(env, st, *lhs);
            law_shaped_expressions(env, infer_expr_s(st, *lhs).0, *rhs);
            lemma_shape_known(env, *lhs);
            lemma_shape_known(env, *rhs);
        },
        _ => {},
    }
}

proof fn lemma_infer_compare(env: ShapeEnv, st: TkState, e: Expr)
    requires
        in_env(env, st),
        e is Compare,
        shape(env, e) is Some,
    ensures
        only_noted(st, infer_expr_inner_s(st, e).0),
        infer_expr_inner_s(st, e).1 == shape(env, e)->0,
    decreases e, 7nat,
{
    match e {
        Expr::Compare { left, ops, comparators, span } => {
            law_shaped_expressions(env, st, *left);
            lemma_shape_known(env, *left);
            lemma_infer_join(
                env,
                infer_expr_s(st, *left).0,
                shape(env, *left)->0,
                comparators@,
                comparators@.len(),
                e,
            );
        },
        _ => {},
    }
}

proof fn lemma_infer_ternary(env: ShapeEnv, st: TkState, e: Expr)
    requires
        in_env(env, st),
        e is Ternary,
        shape(env, e) is Some,
    ensures
        only_noted(st, infer_expr_inner_s(st, e).0),
        infer_expr_inner_s(st, e).1 == shape(env, e)->0,
    decreases e, 7nat,
{
    match e {
        Expr::Ternary { test, body, orelse, span } => {
            law_shaped_expressions(env, st, *test);
            let s1 = infer_expr_s(st, *test).0;
            law_shaped_expressions(env, s1, *body);
            law_shaped_expressions(env, infer_expr_s(s1, *body).0, *orelse);
            lemma_shape_known(env, *body);
            lemma_shape_known(env, *orelse);
        },
        _ => {},
    }
}

/// An expression that the rules give a shape is inferred to have it: nothing is reported, no name
/// changes, and the shape is noted under the span of the expression.
pub proof fn law_shaped_expressions(env: ShapeEnv, st: TkState, e: Expr)
    requires
        in_env(env, st),
        shape(env, e) is Some,
    ensures
        only_noted(st, infer_expr_s(st, e).0),
        infer_expr_s(st, e).1 == shape(env, e)->0,
        infer_expr_s(st, e).0.types.contains_key(expr_span(e)),
        infer_expr_s(st, e).0.types[expr_span(e)] == shape(env, e)->0,
    decreases e, 9nat,
{
    lemma_infer_inner(env, st, e);
    let (s1, t) = infer_expr_inner_s(st, e);
    assert(infer_expr_s(st, e) == (note_s(s1, expr_span(e), t), t));
}

/// Two operands whose shapes do not fit are reported once, as a mismatch at the operation.
pub proof fn law_mismatch_is_reported(env: ShapeEnv, st: TkState, e: Expr)
    requires
        in_env(env, st),
        e matches Expr::BinOp { op, lhs, rhs, .. } && op != BinOp::MatMul && shape(env, *lhs)
            is Some && shape(env, *rhs) is Some && elementwise(
            shape(env, *lhs)->0,
            shape(env, *rhs)->0,
        ) is None,
    ensures
        infer_expr_s(st, e).1 is Unknown,
        infer_expr_s(st, e).0.diags.len() == st.diags.len() + 1,
        infer_expr_s(st, e).0.diags.last().code == ECode::TileShapeMismatch,
        infer_expr_s(st, e).0.diags.drop_last() == st.diags,
{
    match e {
        Expr::BinOp { op, lhs, rhs, span } => {
            law_shaped_expressions(env, st, *lhs);
            law_shaped_expressions(env, infer_expr_s(st, *lhs).0, *rhs);
            lemma_shape_known(env, *lhs);
            lemma_shape_known(env, *rhs);
            assert(infer_expr_s(st, e).0.diags.drop_last() =~= st.diags);
        },
        _ => {},
    }
}

/// A name that stands for nothing is reported as undefined.
pub proof fn law_unbound_name_is_reported(st: TkState, e: Expr)
    requires
        e matches Expr::Name { name, .. } && !st.vars.contains_key(name@),
    ensures
        infer_expr_s(st, e).1 is Unknown,
        infer_expr_s(st, e).0.diags.len() == st.diags.len() + 1,
        infer_expr_s(st, e).0.diags.last().code == ECode::UndefinedSymbol,
        infer_expr_s(st, e).0.diags.last().args == seq![e->Name_name@],
{
}

/// The elementwise operator of matrices is reported as a construct that is not modelled.
pub proof fn law_matrix_operator_is_reported(env: ShapeEnv, st: TkState, e: Expr)
    requires
        in_env(env, st),
        e matches Expr::BinOp { op, lhs, rhs, .. } && op == BinOp::MatMul && shape(env, *lhs)
            is Some && shape(env, *rhs) is Some,
    ensures
        infer_expr_s(st, e).1 is Unknown,
        infer_expr_s(st, e).0.diags.len() == st.diags.len() + 1,
        infer_expr_s(st, e).0.diags.last().code == ECode::TileConstructUnsupported,
{
    match e {
        Expr::BinOp { op, lhs, rhs, span } => {
            law_shaped_expressions(env, st, *lhs);
            law_shaped_expressions(env, infer_expr_s(st, *lhs).0, *rhs);
        },
        _ => {},
    }
}

/// The numbers from `lo` up to `hi` are a tile of one axis with `hi - lo` of them.
pub proof fn law_arange_has_as_many(env: ShapeEnv, st: TkState, e: Expr, lo: i64, hi: i64)
    requires
        in_env(env, st),
        e matches Expr::Call { func, args, .. } && attr_of(*func) == Some("arange"@) && args@.len()
            == 2 && dim_value(env.consts, args@[0]) == Some(DimV::Const(lo)) && dim_value(
            env.consts,
            args@[1],
        ) == Some(DimV::Const(hi)) && shape(env, args@[0]) is Some && shape(env, args@[1]) is Some,
        is_64(hi - lo),
    ensures
        infer_expr_s(st, e).0.diags == st.diags,
        infer_expr_s(st, e).1 matches TileTyV::Rank1(DimV::Const(n)) && n == hi - lo,
{
    lemma_builtin_names();
    assert(call_shape(env, e) == arange_shape(env, e));
    law_difference_of_dimensions(hi, lo);
    law_shaped_expressions(env, st, e);
}

// ---- statements ----------------------------------------------------------------------------

/// An assignment gives its name the shape of its value, and leaves every other name alone.
pub proof fn law_assignment_binds(env: ShapeEnv, st: TkState, s: Stmt)
    requires
        in_env(env, st),
        s matches Stmt::Assign { targets, value, .. } && targets@.len() == 1 && targets@[0] is Name
            && shape(env, value) is Some,
    ensures
        ({
            let name = s->Assign_targets@[0]->Name_name@;
            let out = check_stmt_s(st, s);
            &&& out.diags == st.diags
            &&& out.consts == st.consts
            &&& out.vars.contains_key(name)
            &&& out.vars[name] == shape(env, s->Assign_value)->0
            &&& forall|x: Seq<char>|
                x != name ==> (#[trigger] out.vars.contains_key(x) <==> st.vars.contains_key(x))
                    && out.vars[x] == st.vars[x]
        }),
{
    match s {
        Stmt::Assign { targets, value, .. } => {
            law_shaped_expressions(env, st, value);
            reveal_with_fuel(bind_targets_s, 2);
        },
        _ => {},
    }
}

/// `x op= v` gives the name the shape of `x op v`.
pub proof fn law_augmented_assignment_binds(env: ShapeEnv, st: TkState, s: Stmt, e: Expr)
    requires
        in_env(env, st),
        s matches Stmt::AugAssign { target, op, value, .. } && target is Name && shape(env, target)
            is Some && shape(env, value) is Some && (e matches Expr::BinOp { op: o, lhs, rhs, .. }
            && o == op && *lhs == target && *rhs == value),
        shape(env, e) is Some,
    ensures
        check_stmt_s(st, s).diags == st.diags,
        check_stmt_s(st, s).vars == st.vars.insert(
            s->AugAssign_target->Name_name@,
            shape(env, e)->0,
        ),
{
    match s {
        Stmt::AugAssign { target, op, value, span } => {
            law_shaped_expressions(env, st, target);
            law_shaped_expressions(env, infer_expr_s(st, target).0, value);
            lemma_shape_known(env, target);
            lemma_shape_known(env, value);
        },
        _ => {},
    }
}

/// A `constexpr` parameter is an integer, and a dimension: the number of its default, or its own
/// name. Every other parameter is a scalar of a kind that is not known.
pub proof fn law_parameters_start(st: TkState, p: Param)
    ensures
        seed_param_s(st, p).1 == TileTyV::Scalar(
            if p.is_constexpr {
                Elem::Int
            } else {
                Elem::Unknown
            },
        ),
        seed_param_s(st, p).0.vars == st.vars.insert(p.name@, seed_param_s(st, p).1),
        seed_param_s(st, p).0.diags == st.diags,
        !p.is_constexpr ==> seed_param_s(st, p).0.consts == st.consts,
        p.is_constexpr && p.default is None ==> seed_param_s(st, p).0.consts == st.consts.insert(
            p.name@,
            DimV::Symbolic(p.name@),
        ),
        p.is_constexpr && p.default is Some ==> seed_param_s(st, p).0.consts == st.consts.insert(
            p.name@,
            match dim_value(st.consts, p.default->0) {
                Some(d) => d,
                None => DimV::Symbolic(p.name@),
            },
        ),
{
}

} // verus!
