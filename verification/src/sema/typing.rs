//! The typing rules of CUDA C, stated by themselves, and that checking keeps to them.
//!
//! An expression that the rules type is checked without a report and with that type. Where the
//! parts of an expression have types and the rules give the whole none, there is a report.

use vstd::prelude::*;

use crate::diag::{ECode, Span};
use crate::sema::c_ast::{
    expr_span, AssignOp, BinOp, Expr, FloatSuffix, IntLit, ScalarKind, TagKind, Type, UnaryOp,
};
use crate::sema::checker::{
    binop_of, check_args_s, check_assign_s, check_binary_s, check_call_s, check_comma_s,
    check_condition_s, check_incdec_s, check_index_s, check_launch_config_dim_s, check_launch_s,
    check_member_s, check_signature_s, check_ternary_s, check_unary_s, const_at_top, dim3_ty,
    err_const_s, err_type_s, field_of, find_field, resolve_type_s, type_of_s, typed_s, CkState,
};
use crate::sema::scope::{
    find_enum, find_struct, find_typedef, find_union, find_value, FieldV, FuncSigV, ScopeV,
    ValueSymV,
};
use crate::text::decimal;
use crate::sema::ty::{fits, plain, promoted, TyV};

verus! {

// ---- kinds of types ------------------------------------------------------------------------

/// An integer type: a truth value, a character, an integer of any length, an enumeration.
pub open spec fn whole_number(t: TyV) -> bool {
    ||| t is Enum
    ||| (t matches TyV::Scalar(k) && (k == ScalarKind::Bool || k == ScalarKind::Char || k
        == ScalarKind::SChar || k == ScalarKind::UChar || k == ScalarKind::Short || k
        == ScalarKind::UShort || k == ScalarKind::Int || k == ScalarKind::UInt || k
        == ScalarKind::WcharT || k == ScalarKind::Long || k == ScalarKind::ULong || k
        == ScalarKind::LongLong || k == ScalarKind::ULongLong))
}

/// A floating-point type.
pub open spec fn real_number(t: TyV) -> bool {
    t matches TyV::Scalar(k) && (k == ScalarKind::Float || k == ScalarKind::Double || k
        == ScalarKind::LongDouble)
}

pub open spec fn number(t: TyV) -> bool {
    whole_number(t) || real_number(t)
}

/// A pointer, or an array that stands for one.
pub open spec fn address(t: TyV) -> bool {
    t is Pointer || t is Array
}

/// What a pointer or array reaches.
pub open spec fn reached(t: TyV) -> TyV {
    match t {
        TyV::Pointer(p, _) => *p,
        TyV::Array(e) => *e,
        _ => TyV::Unknown,
    }
}

/// A pointer to what a pointer or array reaches.
pub open spec fn pointer_of(t: TyV) -> TyV {
    match t {
        TyV::Pointer(p, c) => TyV::Pointer(p, c),
        TyV::Array(e) => TyV::Pointer(e, false),
        _ => TyV::Unknown,
    }
}

/// The kind that an operand takes part in arithmetic as.
pub open spec fn operand_kind(t: TyV) -> ScalarKind {
    match t {
        TyV::Scalar(k) => k,
        _ => ScalarKind::Int,
    }
}

/// The common type of two arithmetic operands: the wider floating-point type if there is one, else
/// the wider integer type, but no narrower than `int`. Of two with one width it is the left one.
pub open spec fn common(a: TyV, b: TyV) -> TyV {
    let (x, y) = (operand_kind(a), operand_kind(b));
    TyV::Scalar(
        if x == ScalarKind::LongDouble || y == ScalarKind::LongDouble {
            ScalarKind::LongDouble
        } else if x == ScalarKind::Double || y == ScalarKind::Double {
            ScalarKind::Double
        } else if x == ScalarKind::Float || y == ScalarKind::Float {
            ScalarKind::Float
        } else if x == ScalarKind::LongLong || x == ScalarKind::ULongLong {
            x
        } else if y == ScalarKind::LongLong || y == ScalarKind::ULongLong {
            y
        } else if x == ScalarKind::Long || x == ScalarKind::ULong {
            x
        } else if y == ScalarKind::Long || y == ScalarKind::ULong {
            y
        } else if x == ScalarKind::UInt || x == ScalarKind::WcharT || x == ScalarKind::Int {
            x
        } else if y == ScalarKind::UInt || y == ScalarKind::WcharT || y == ScalarKind::Int {
            y
        } else {
            ScalarKind::Int
        },
    )
}

/// The common type that arithmetic is done in is the one of the rules.
pub proof fn law_common_type(a: TyV, b: TyV)
    requires
        number(a),
        number(b),
    ensures
        promoted(a, b) == common(a, b),
{
}

/// Whether a value of type `v` may be put where one of type `t` is asked for: the same type but
/// for `const`; one number for another; an integer for an enumeration and back; a pointer for one
/// to the same type, or where one of them is to `void`; an array for a pointer to its elements;
/// an integer for a pointer.
pub open spec fn takes(t: TyV, v: TyV) -> bool {
    ||| plain(t) == plain(v)
    ||| t is Scalar && v is Scalar && number(t) && number(v)
    ||| t is Scalar && v is Enum && whole_number(t)
    ||| t is Enum && whole_number(v)
    ||| (t is Pointer && v is Pointer && (reached(t) == TyV::Scalar(ScalarKind::Void) || reached(v)
        == TyV::Scalar(ScalarKind::Void)))
    ||| t is Pointer && v is Array && (reached(t) == TyV::Scalar(ScalarKind::Void) || plain(
        reached(t),
    ) == plain(reached(v)))
    ||| t is Pointer && v is Scalar && whole_number(v)
}

/// One known type may take the place of another exactly as the rules say.
pub proof fn law_takes(t: TyV, v: TyV)
    requires
        !(t is Unknown),
        !(v is Unknown),
    ensures
        fits(t, v) == takes(t, v),
{
    if t is Pointer && v is Pointer {
        if plain(reached(t)) == plain(reached(v)) {
            assert(plain(t) == plain(v));
        }
    }
}

// ---- operators -----------------------------------------------------------------------------

/// The type of `l op r`; none where the operands do not suit the operator.
pub open spec fn binary_type(op: BinOp, l: TyV, r: TyV) -> Option<TyV> {
    let truth = TyV::Scalar(ScalarKind::Int);
    if op == BinOp::LogOr || op == BinOp::LogAnd {
        if (number(l) || address(l)) && (number(r) || address(r)) {
            Some(truth)
        } else {
            None
        }
    } else if op == BinOp::Eq || op == BinOp::Ne || op == BinOp::Lt || op == BinOp::Gt || op
        == BinOp::Le || op == BinOp::Ge {
        if number(l) && number(r) || address(l) && (address(r) || whole_number(r)) || whole_number(
            l,
        ) && address(r) {
            Some(truth)
        } else {
            None
        }
    } else if whole_number(l) && whole_number(r) {
        Some(common(l, r))
    } else if number(l) && number(r) {
        if op == BinOp::Add || op == BinOp::Sub || op == BinOp::Mul || op == BinOp::Div {
            Some(common(l, r))
        } else {
            None
        }
    } else if address(l) && whole_number(r) {
        if op == BinOp::Add || op == BinOp::Sub {
            Some(pointer_of(l))
        } else {
            None
        }
    } else if whole_number(l) && address(r) {
        if op == BinOp::Add {
            Some(pointer_of(r))
        } else {
            None
        }
    } else if address(l) && address(r) {
        if op == BinOp::Sub {
            Some(TyV::Scalar(ScalarKind::Long))
        } else {
            None
        }
    } else {
        None
    }
}

/// A report of a code was added, and nothing else changed.
pub open spec fn reported(a: CkState, b: CkState, code: ECode) -> bool {
    &&& b.diags.len() == a.diags.len() + 1
    &&& b.diags.drop_last() == a.diags
    &&& b.diags.last().code == code
    &&& b == (CkState { diags: b.diags, ..a })
}

/// At least one report was added.
pub open spec fn more_reports(a: CkState, b: CkState) -> bool {
    a.diags.len() < b.diags.len()
}

/// Checking `l op r` on known types gives the type of the rules and reports nothing, or reports
/// one type error where they give none.
pub proof fn law_binary_operators(st: CkState, op: BinOp, l: TyV, r: TyV, span: Span)
    requires
        !(l is Unknown),
        !(r is Unknown),
    ensures
        match binary_type(op, l, r) {
            Some(t) => check_binary_s(st, op, l, r, span) == (st, t),
            None => reported(st, check_binary_s(st, op, l, r, span).0, ECode::TypeError),
        },
{
    let out = check_binary_s(st, op, l, r, span);
    if binary_type(op, l, r) is None {
        assert(out.0.diags.drop_last() =~= st.diags);
    } else if number(l) && number(r) {
        law_common_type(l, r);
    }
}

/// On two arithmetic operands, integer or floating, each of `+`, `-`, `*` and `/` is fine and has
/// their common type.
pub proof fn law_arithmetic_is_typed(st: CkState, op: BinOp, l: TyV, r: TyV, span: Span)
    requires
        number(l),
        number(r),
        op == BinOp::Add || op == BinOp::Sub || op == BinOp::Mul || op == BinOp::Div,
    ensures
        check_binary_s(st, op, l, r, span) == (st, common(l, r)),
{
    law_common_type(l, r);
}

/// Whether an expression names a place.
pub open spec fn place(e: Expr) -> bool {
    e is Ident || e is Member || e is Index || (e matches Expr::Unary { op, .. } && op
        == UnaryOp::Deref)
}

/// The operator of a compound assignment.
pub open spec fn compound_operator(op: AssignOp) -> Option<BinOp> {
    match op {
        AssignOp::Assign => None,
        AssignOp::AddAssign => Some(BinOp::Add),
        AssignOp::SubAssign => Some(BinOp::Sub),
        AssignOp::MulAssign => Some(BinOp::Mul),
        AssignOp::DivAssign => Some(BinOp::Div),
        AssignOp::RemAssign => Some(BinOp::Rem),
        AssignOp::AndAssign => Some(BinOp::BitAnd),
        AssignOp::OrAssign => Some(BinOp::BitOr),
        AssignOp::XorAssign => Some(BinOp::BitXor),
        AssignOp::ShlAssign => Some(BinOp::Shl),
        AssignOp::ShrAssign => Some(BinOp::Shr),
    }
}

/// The type of an assignment to a place of type `l`, which is not `const`.
pub open spec fn assignment_type(op: AssignOp, l: TyV, r: TyV) -> Option<TyV> {
    if l is Array || l is Function {
        None
    } else {
        match compound_operator(op) {
            None => if takes(l, r) {
                Some(l)
            } else {
                None
            },
            Some(b) => match binary_type(b, l, r) {
                Some(t) => if takes(l, t) {
                    Some(l)
                } else {
                    None
                },
                None => None,
            },
        }
    }
}

/// The type of a unary operation on an operand of type `t`, and whether what it names is `const`.
pub open spec fn unary_type(op: UnaryOp, t: TyV, c: bool, named: bool) -> Option<(TyV, bool)> {
    match op {
        UnaryOp::Plus | UnaryOp::Neg => if number(t) {
            Some((t, false))
        } else {
            None
        },
        UnaryOp::BitNot => if whole_number(t) {
            Some((t, false))
        } else {
            None
        },
        UnaryOp::Not => if number(t) || address(t) {
            Some((TyV::Scalar(ScalarKind::Int), false))
        } else {
            None
        },
        UnaryOp::Deref => match t {
            TyV::Pointer(p, pc) => Some((*p, pc)),
            TyV::Array(e) => Some((*e, c)),
            _ => None,
        },
        UnaryOp::Addr => if named {
            Some((TyV::Pointer(Box::new(t), c), false))
        } else {
            None
        },
    }
}

/// The type of an integer literal: its length by the number of letters `l`, its sign by `u`.
pub open spec fn literal_type(lit: IntLit) -> TyV {
    let long = lit.long_len;
    TyV::Scalar(
        if long == 0 && !lit.unsigned {
            ScalarKind::Int
        } else if long == 0 {
            ScalarKind::UInt
        } else if long == 1 && !lit.unsigned {
            ScalarKind::Long
        } else if long == 1 {
            ScalarKind::ULong
        } else if !lit.unsigned {
            ScalarKind::LongLong
        } else {
            ScalarKind::ULongLong
        },
    )
}

/// Whether a declared type is `const` itself; an array is where its elements are.
pub open spec fn says_const(ty: Type) -> bool
    decreases ty,
{
    match ty {
        Type::Scalar { is_const, .. } => is_const,
        Type::Tag { is_const, .. } => is_const,
        Type::Named { is_const, .. } => is_const,
        Type::Pointer { is_const, .. } => is_const,
        Type::Instantiated { is_const, .. } => is_const,
        Type::Array { elem, .. } => says_const(*elem),
    }
}

/// What `const` says of a declared type is what the rules say.
pub proof fn law_const_of_a_type(ty: Type)
    ensures
        const_at_top(ty) == says_const(ty),
    decreases ty,
{
    match ty {
        Type::Array { elem, .. } => law_const_of_a_type(*elem),
        _ => {},
    }
}

/// The field of a name: the first one that has it.
pub open spec fn is_field(fields: Seq<FieldV>, name: Seq<char>, i: int) -> bool {
    &&& 0 <= i < fields.len()
    &&& fields[i].name == name
    &&& forall|j: int| 0 <= j < i ==> (#[trigger] fields[j]).name != name
}

/// A field is found exactly where there is one of the name, and it is the first.
pub proof fn law_field_is_the_first(fields: Seq<FieldV>, name: Seq<char>)
    ensures
        match field_of(fields, name) {
            Some(f) => exists|i: int| #[trigger] is_field(fields, name, i) && f == fields[i],
            None => forall|i: int| 0 <= i < fields.len() ==> (#[trigger] fields[i]).name != name,
        },
{
    lemma_field(fields, name, 0);
}

proof fn lemma_field(fields: Seq<FieldV>, name: Seq<char>, from: nat)
    requires
        from <= fields.len(),
        forall|j: int| 0 <= j < from ==> (#[trigger] fields[j]).name != name,
    ensures
        match find_field(fields, name, from) {
            Some(f) => exists|i: int| #[trigger] is_field(fields, name, i) && f == fields[i],
            None => forall|i: int| 0 <= i < fields.len() ==> (#[trigger] fields[i]).name != name,
        },
    decreases fields.len() - from,
{
    if from < fields.len() {
        if fields[from as int].name == name {
            assert(is_field(fields, name, from as int));
        } else {
            lemma_field(fields, name, from + 1);
        }
    }
}

/// The type of a member of a struct or union.
pub open spec fn member_type(scopes: Seq<ScopeV>, t: TyV, name: Seq<char>) -> Option<FieldV> {
    match t {
        TyV::Struct(n) => match find_struct(scopes, n) {
            Some(fs) => field_of(fs, name),
            None => None,
        },
        TyV::Union(n) => match find_union(scopes, n) {
            Some(fs) => field_of(fs, name),
            None => None,
        },
        _ => None,
    }
}

// ---- expressions ---------------------------------------------------------------------------

/// The type that a declared type stands for; none where a name in it stands for nothing.
pub open spec fn stands_for(scopes: Seq<ScopeV>, ty: Type) -> Option<TyV>
    decreases ty, 9nat,
{
    match ty {
        Type::Scalar { kind, .. } => Some(TyV::Scalar(kind)),
        Type::Tag { kind, name, .. } => if name@.len() == 0 {
            None
        } else if kind == TagKind::Struct && find_struct(scopes, name@) is Some {
            Some(TyV::Struct(name@))
        } else if kind == TagKind::Union && find_union(scopes, name@) is Some {
            Some(TyV::Union(name@))
        } else if kind == TagKind::Enum && find_enum(scopes, name@) is Some {
            Some(TyV::Enum(name@))
        } else {
            None
        },
        Type::Named { name, .. } => match find_typedef(scopes, name@) {
            Some(t) => if t is Unknown {
                None
            } else {
                Some(t)
            },
            None => if find_struct(scopes, name@) is Some {
                Some(TyV::Struct(name@))
            } else if find_union(scopes, name@) is Some {
                Some(TyV::Union(name@))
            } else if find_enum(scopes, name@) is Some {
                Some(TyV::Enum(name@))
            } else {
                None
            },
        },
        Type::Pointer { pointee, .. } => match stands_for(scopes, *pointee) {
            Some(p) => Some(TyV::Pointer(Box::new(p), says_const(*pointee))),
            None => None,
        },
        Type::Array { elem, size, .. } => if size matches Some(sz) && typing(scopes, *sz) is None {
            None
        } else {
            match stands_for(scopes, *elem) {
                Some(t) => Some(TyV::Array(Box::new(t))),
                None => None,
            }
        },
        Type::Instantiated { .. } => None,
    }
}

/// Whether the first `n` arguments have types, and those that have parameters fit them.
pub open spec fn args_suit(scopes: Seq<ScopeV>, params: Seq<TyV>, args: Seq<Expr>, n: nat) -> bool
    decreases args, n,
{
    if n == 0 || n > args.len() {
        true
    } else {
        &&& args_suit(scopes, params, args, (n - 1) as nat)
        &&& match typing(scopes, args[n - 1]) {
            Some((t, _)) => n - 1 < params.len() ==> params[n - 1] is Unknown || takes(
                params[n - 1],
                t,
            ),
            None => false,
        }
    }
}

/// Whether a call of a function with as many arguments is fine: one for each parameter, and more
/// only where the function takes a variable number.
pub open spec fn count_suits(sig: FuncSigV, n: nat) -> bool {
    if sig.variadic {
        sig.params.len() <= n
    } else {
        sig.params.len() == n
    }
}

/// Whether the extent of a launch is an integer or three of them.
pub open spec fn extent_suits(scopes: Seq<ScopeV>, e: Expr) -> bool
    decreases e, 10nat,
{
    match typing(scopes, e) {
        Some((t, _)) => whole_number(t) || t == dim3_ty(),
        None => false,
    }
}

/// The type of the last of the first `n` of a list, all of which have types.
pub open spec fn last_type(scopes: Seq<ScopeV>, es: Seq<Expr>, n: nat) -> Option<TyV>
    decreases es, n,
{
    if n == 0 || n > es.len() {
        None
    } else {
        match typing(scopes, es[n - 1]) {
            Some((t, _)) => if n == 1 || last_type(scopes, es, (n - 1) as nat) is Some {
                Some(t)
            } else {
                None
            },
            None => None,
        }
    }
}

/// The type of a call of a function by its name.
pub open spec fn call_typing(scopes: Seq<ScopeV>, e: Expr) -> Option<TyV>
    decreases e, 7nat,
{
    match e {
        Expr::Call { callee, args, .. } => match *callee {
            Expr::Ident { name, .. } => match find_value(scopes, name@) {
                Some(ValueSymV::Func(sig)) => if count_suits(sig, args@.len()) && args_suit(
                    scopes,
                    sig.params,
                    args@,
                    args@.len(),
                ) && !(sig.ret is Unknown) {
                    Some(sig.ret)
                } else {
                    None
                },
                _ => None,
            },
            _ => None,
        },
        _ => None,
    }
}

/// Whether a launch is of a kernel with arguments that suit it.
pub open spec fn launch_typing(scopes: Seq<ScopeV>, e: Expr) -> bool
    decreases e, 7nat,
{
    match e {
        Expr::KernelLaunch { kernel, grid, block, shared, stream, args, .. } => {
            &&& extent_suits(scopes, *grid)
            &&& extent_suits(scopes, *block)
            &&& (shared matches Some(x) ==> (typing(scopes, *x) matches Some(p) && whole_number(p.0)))
            &&& (stream matches Some(x) ==> (typing(scopes, *x) matches Some(p) && (whole_number(
                p.0,
            ) || address(p.0))))
            &&& match *kernel {
                Expr::Ident { name, .. } => match find_value(scopes, name@) {
                    Some(ValueSymV::Func(sig)) => sig.is_kernel && count_suits(sig, args@.len())
                        && args_suit(scopes, sig.params, args@, args@.len()),
                    _ => false,
                },
                _ => false,
            }
        },
        _ => false,
    }
}

/// The type of a conditional expression.
pub open spec fn ternary_typing(scopes: Seq<ScopeV>, e: Expr) -> Option<TyV>
    decreases e, 7nat,
{
    match e {
        Expr::Ternary { cond, then_branch, else_branch, .. } => match (
            typing(scopes, *cond),
            typing(scopes, *then_branch),
            typing(scopes, *else_branch),
        ) {
            (Some((c, _)), Some((t, _)), Some((f, _))) => if !(number(c) || address(c)) {
                None
            } else if takes(t, f) {
                Some(t)
            } else if takes(f, t) {
                Some(f)
            } else {
                None
            },
            _ => None,
        },
        _ => None,
    }
}

/// The type of an expression, and whether it names something `const`; none where the rules give
/// it none.
pub open spec fn typing(scopes: Seq<ScopeV>, e: Expr) -> Option<(TyV, bool)>
    decreases e, 8nat,
{
    match e {
        Expr::IntLit { value, .. } => Some((literal_type(value), false)),
        Expr::FloatLit { value, .. } => Some(
            (
                TyV::Scalar(
                    if value.suffix == FloatSuffix::F {
                        ScalarKind::Float
                    } else if value.suffix == FloatSuffix::L {
                        ScalarKind::LongDouble
                    } else {
                        ScalarKind::Double
                    },
                ),
                false,
            ),
        ),
        Expr::CharLit { .. } => Some((TyV::Scalar(ScalarKind::Char), false)),
        Expr::StrLit { .. } => Some(
            (TyV::Pointer(Box::new(TyV::Scalar(ScalarKind::Char)), true), false),
        ),
        Expr::Ident { name, .. } => match find_value(scopes, name@) {
            Some(ValueSymV::Var(t, c)) => if t is Unknown {
                None
            } else {
                Some((t, c))
            },
            Some(ValueSymV::EnumConst(t)) => if t is Unknown {
                None
            } else {
                Some((t, false))
            },
            Some(ValueSymV::Func(f)) => Some(
                (
                    TyV::Function { ret: Box::new(f.ret), params: f.params, variadic: f.variadic },
                    false,
                ),
            ),
            None => None,
        },
        Expr::Comma { exprs, .. } => match last_type(scopes, exprs@, exprs@.len()) {
            Some(t) => Some((t, false)),
            None => None,
        },
        Expr::Assign { op, lhs, rhs, .. } => match (typing(scopes, *lhs), typing(scopes, *rhs)) {
            (Some((l, c)), Some((r, _))) => if place(*lhs) && !c {
                match assignment_type(op, l, r) {
                    Some(t) => Some((t, false)),
                    None => None,
                }
            } else {
                None
            },
            _ => None,
        },
        Expr::Ternary { .. } => match ternary_typing(scopes, e) {
            Some(t) => Some((t, false)),
            None => None,
        },
        Expr::Binary { op, lhs, rhs, .. } => match (typing(scopes, *lhs), typing(scopes, *rhs)) {
            (Some((l, _)), Some((r, _))) => match binary_type(op, l, r) {
                Some(t) => Some((t, false)),
                None => None,
            },
            _ => None,
        },
        Expr::Cast { ty, expr, .. } => match (typing(scopes, *expr), stands_for(scopes, ty)) {
            (Some(_), Some(t)) => Some((t, false)),
            _ => None,
        },
        Expr::Unary { op, expr, .. } => match typing(scopes, *expr) {
            Some((t, c)) => match unary_type(op, t, c, place(*expr)) {
                Some((u, d)) => if u is Unknown {
                    None
                } else {
                    Some((u, d))
                },
                None => None,
            },
            None => None,
        },
        Expr::PreIncDec { expr, .. } | Expr::PostIncDec { expr, .. } => match typing(
            scopes,
            *expr,
        ) {
            Some((t, _)) => if place(*expr) && (number(t) || t is Pointer) {
                Some((t, false))
            } else {
                None
            },
            None => None,
        },
        Expr::SizeofExpr { expr, .. } => if typing(scopes, *expr) is Some {
            Some((TyV::Scalar(ScalarKind::ULong), false))
        } else {
            None
        },
        Expr::SizeofType { ty, .. } => if stands_for(scopes, ty) is Some {
            Some((TyV::Scalar(ScalarKind::ULong), false))
        } else {
            None
        },
        Expr::Call { .. } => match call_typing(scopes, e) {
            Some(t) => Some((t, false)),
            None => None,
        },
        Expr::KernelLaunch { .. } => if launch_typing(scopes, e) {
            Some((TyV::Scalar(ScalarKind::Void), false))
        } else {
            None
        },
        Expr::Index { base, index, .. } => match (typing(scopes, *base), typing(scopes, *index)) {
            (Some((b, c)), Some((i, _))) => if !whole_number(i) || !address(b) || reached(
                b,
            ) is Unknown {
                None
            } else {
                Some(
                    (
                        reached(b),
                        if b is Pointer {
                            b->Pointer_1
                        } else {
                            c
                        },
                    ),
                )
            },
            _ => None,
        },
        Expr::Member { base, name, arrow, .. } => match typing(scopes, *base) {
            Some((b, c)) => {
                let (whole, fixed) = if arrow {
                    (
                        reached(b),
                        if b is Pointer {
                            b->Pointer_1
                        } else {
                            c
                        },
                    )
                } else {
                    (b, c)
                };
                match member_type(scopes, whole, name@) {
                    Some(f) => if f.ty is Unknown {
                        None
                    } else {
                        Some((f.ty, f.is_const || fixed))
                    },
                    None => None,
                }
            },
            None => None,
        },
        Expr::Error { .. } => None,
    }
}

proof fn lemma_known(scopes: Seq<ScopeV>, e: Expr)
    ensures
        typing(scopes, e) matches Some(p) ==> !(p.0 is Unknown),
    decreases e, 8nat,
{
    match e {
        Expr::Comma { exprs, .. } => {
            let t = last_type(scopes, exprs@, exprs@.len());
            if t is Some {
                lemma_known(scopes, exprs@[exprs@.len() - 1]);
                assert(t->0 == typing(scopes, exprs@[exprs@.len() - 1])->Some_0.0);
            }
        },
        Expr::Assign { lhs, .. } => {
            lemma_known(scopes, *lhs);
        },
        Expr::Ternary { then_branch, else_branch, .. } => {
            lemma_known(scopes, *then_branch);
            lemma_known(scopes, *else_branch);
            assert(ternary_typing(scopes, e) matches Some(t) ==> !(t is Unknown));
        },
        Expr::Call { .. } => {
            assert(call_typing(scopes, e) matches Some(t) ==> !(t is Unknown));
        },
        Expr::PreIncDec { expr, .. } | Expr::PostIncDec { expr, .. } => {
            lemma_known(scopes, *expr);
        },
        Expr::Cast { ty, .. } => {
            lemma_known_type(scopes, ty);
        },
        _ => {},
    }
}

pub proof fn lemma_known_type(scopes: Seq<ScopeV>, ty: Type)
    ensures
        stands_for(scopes, ty) matches Some(t) ==> !(t is Unknown),
{
}

/// A declared type whose names stand for something is resolved to what they stand for, without a
/// report.
pub proof fn law_declared_types(st: CkState, ty: Type)
    requires
        stands_for(st.scopes, ty) is Some,
    ensures
        resolve_type_s(st, ty) == (st, stands_for(st.scopes, ty)->0),
    decreases ty, 9nat,
{
    match ty {
        Type::Pointer { pointee, .. } => {
            law_declared_types(st, *pointee);
            law_const_of_a_type(*pointee);
        },
        Type::Array { elem, size, .. } => {
            match size {
                Some(sz) => {
                    law_typed_expressions(st, *sz);
                    assert(type_of_s(st, *sz).0 == st);
                },
                None => {},
            }
            law_declared_types(st, *elem);
        },
        _ => {},
    }
}

pub proof fn lemma_type_of(st: CkState, e: Expr)
    requires
        typing(st.scopes, e) is Some,
    ensures
        type_of_s(st, e) == (st, typing(st.scopes, e)->Some_0.0),
        !(typing(st.scopes, e)->Some_0.0 is Unknown),
    decreases e, 9nat,
{
    law_typed_expressions(st, e);
    lemma_known(st.scopes, e);
}

proof fn lemma_arg_at(scopes: Seq<ScopeV>, params: Seq<TyV>, args: Seq<Expr>, n: nat, i: int)
    requires
        args_suit(scopes, params, args, n),
        0 <= i < n <= args.len(),
    ensures
        typing(scopes, args[i]) is Some,
        i < params.len() ==> params[i] is Unknown || takes(params[i], typing(scopes, args[i])->Some_0.0),
    decreases n,
{
    if i < n - 1 {
        lemma_arg_at(scopes, params, args, (n - 1) as nat, i);
    }
}

proof fn lemma_args(st: CkState, name: Seq<char>, sig: FuncSigV, args: Seq<Expr>, i: nat)
    requires
        args_suit(st.scopes, sig.params, args, args.len()),
    ensures
        check_args_s(st, name, sig, args, i) == st,
    decreases args, args.len() - i,
{
    if i < args.len() {
        lemma_arg_at(st.scopes, sig.params, args, args.len(), i as int);
        lemma_type_of(st, args[i as int]);
        if i < sig.params.len() && !(sig.params[i as int] is Unknown) {
            law_takes(sig.params[i as int], typing(st.scopes, args[i as int])->Some_0.0);
        }
        lemma_args(st, name, sig, args, i + 1);
    }
}

proof fn lemma_comma(st: CkState, es: Seq<Expr>, n: nat)
    requires
        last_type(st.scopes, es, n) is Some,
    ensures
        check_comma_s(st, es, n) == (st, last_type(st.scopes, es, n)->0),
    decreases es, n,
{
    if n > 1 {
        lemma_comma(st, es, (n - 1) as nat);
    } else {
        assert(check_comma_s(st, es, 0) == (st, TyV::Unknown));
    }
    lemma_type_of(st, es[n - 1]);
}

proof fn lemma_assign(st: CkState, e: Expr)
    requires
        e is Assign,
        typing(st.scopes, e) is Some,
    ensures
        check_assign_s(st, e) == (st, typing(st.scopes, e)->Some_0.0),
    decreases e, 7nat,
{
    match e {
        Expr::Assign { op, lhs, rhs, span } => {
            law_typed_expressions(st, *lhs);
            lemma_known(st.scopes, *lhs);
            lemma_type_of(st, *rhs);
            let l = typing(st.scopes, *lhs)->Some_0.0;
            let r = typing(st.scopes, *rhs)->Some_0.0;
            if op == AssignOp::Assign {
                law_takes(l, r);
            } else {
                law_binary_operators(st, binop_of(op), l, r, span);
                law_takes(l, binary_type(binop_of(op), l, r)->0);
            }
        },
        _ => {},
    }
}

proof fn lemma_ternary(st: CkState, e: Expr)
    requires
        ternary_typing(st.scopes, e) is Some,
    ensures
        check_ternary_s(st, e) == (st, ternary_typing(st.scopes, e)->0),
    decreases e, 7nat,
{
    match e {
        Expr::Ternary { cond, then_branch, else_branch, span } => {
            lemma_type_of(st, *cond);
            assert(check_condition_s(st, *cond) == st);
            lemma_type_of(st, *then_branch);
            lemma_type_of(st, *else_branch);
            let t = typing(st.scopes, *then_branch)->Some_0.0;
            let f = typing(st.scopes, *else_branch)->Some_0.0;
            law_takes(t, f);
            law_takes(f, t);
        },
        _ => {},
    }
}

proof fn lemma_call(st: CkState, e: Expr)
    requires
        call_typing(st.scopes, e) is Some,
    ensures
        check_call_s(st, e) == (st, call_typing(st.scopes, e)->0),
    decreases e, 7nat,
{
    match e {
        Expr::Call { callee, args, span } => {
            match *callee {
                Expr::Ident { name, .. } => {
                    match find_value(st.scopes, name@) {
                        Some(ValueSymV::Func(sig)) => {
                            lemma_args(st, name@, sig, args@, 0);
                            assert(check_signature_s(st, name@, sig, args@, span) == st);
                        },
                        _ => {},
                    }
                },
                _ => {},
            }
        },
        _ => {},
    }
}

proof fn lemma_extent(st: CkState, e: Expr)
    requires
        extent_suits(st.scopes, e),
    ensures
        check_launch_config_dim_s(st, e) == st,
    decreases e, 10nat,
{
    lemma_type_of(st, e);
}

proof fn lemma_launch(st: CkState, e: Expr)
    requires
        launch_typing(st.scopes, e),
    ensures
        check_launch_s(st, e) == (st, TyV::Scalar(ScalarKind::Void)),
    decreases e, 7nat,
{
    match e {
        Expr::KernelLaunch { kernel, grid, block, shared, stream, args, span } => {
            lemma_extent(st, *grid);
            lemma_extent(st, *block);
            match shared {
                Some(x) => lemma_type_of(st, *x),
                None => {},
            }
            match stream {
                Some(x) => lemma_type_of(st, *x),
                None => {},
            }
            match *kernel {
                Expr::Ident { name, .. } => {
                    match find_value(st.scopes, name@) {
                        Some(ValueSymV::Func(sig)) => {
                            lemma_args(st, name@, sig, args@, 0);
                            assert(check_signature_s(st, name@, sig, args@, span) == st);
                        },
                        _ => {},
                    }
                },
                _ => {},
            }
        },
        _ => {},
    }
}

proof fn lemma_binary(st: CkState, e: Expr)
    requires
        e is Binary,
        typing(st.scopes, e) is Some,
    ensures
        typed_s(st, e) == (st, typing(st.scopes, e)->0),
    decreases e, 7nat,
{
    match e {
        Expr::Binary { op, lhs, rhs, span } => {
            lemma_type_of(st, *lhs);
            lemma_type_of(st, *rhs);
            law_binary_operators(
                st,
                op,
                typing(st.scopes, *lhs)->Some_0.0,
                typing(st.scopes, *rhs)->Some_0.0,
                span,
            );
        },
        _ => {},
    }
}

proof fn lemma_unary(st: CkState, e: Expr)
    requires
        e is Unary,
        typing(st.scopes, e) is Some,
    ensures
        typed_s(st, e) == (st, typing(st.scopes, e)->0),
    decreases e, 7nat,
{
    match e {
        Expr::Unary { op, expr, span } => {
            law_typed_expressions(st, *expr);
            lemma_known(st.scopes, *expr);
            assert(typed_s(st, e) == check_unary_s(st, op, *expr, span));
        },
        _ => {},
    }
}

proof fn lemma_incdec(st: CkState, e: Expr)
    requires
        e is PreIncDec || e is PostIncDec,
        typing(st.scopes, e) is Some,
    ensures
        typed_s(st, e) == (st, typing(st.scopes, e)->0),
    decreases e, 7nat,
{
    match e {
        Expr::PreIncDec { expr, span, .. } | Expr::PostIncDec { expr, span, .. } => {
            law_typed_expressions(st, *expr);
            lemma_known(st.scopes, *expr);
            assert(check_incdec_s(st, *expr, span) == (st, typing(st.scopes, *expr)->Some_0.0));
        },
        _ => {},
    }
}

proof fn lemma_index(st: CkState, e: Expr)
    requires
        e is Index,
        typing(st.scopes, e) is Some,
    ensures
        typed_s(st, e) == (st, typing(st.scopes, e)->0),
    decreases e, 7nat,
{
    match e {
        Expr::Index { base, index, .. } => {
            law_typed_expressions(st, *base);
            lemma_known(st.scopes, *base);
            lemma_type_of(st, *index);
            assert(typed_s(st, e) == check_index_s(st, e));
        },
        _ => {},
    }
}

proof fn lemma_member(st: CkState, e: Expr)
    requires
        e is Member,
        typing(st.scopes, e) is Some,
    ensures
        typed_s(st, e) == (st, typing(st.scopes, e)->0),
    decreases e, 7nat,
{
    match e {
        Expr::Member { base, name, arrow, .. } => {
            law_typed_expressions(st, *base);
            lemma_known(st.scopes, *base);
            assert(typed_s(st, e) == check_member_s(st, e));
        },
        _ => {},
    }
}

/// An expression that the rules type is checked without a report: nothing of the state changes,
/// and its type, and whether it is `const`, are those of the rules.
pub proof fn law_typed_expressions(st: CkState, e: Expr)
    requires
        typing(st.scopes, e) is Some,
    ensures
        typed_s(st, e) == (st, typing(st.scopes, e)->0),
    decreases e, 8nat,
{
    match e {
        Expr::Comma { exprs, .. } => {
            lemma_comma(st, exprs@, exprs@.len());
        },
        Expr::Assign { .. } => {
            lemma_assign(st, e);
            assert(typing(st.scopes, e)->Some_0.1 == false);
            assert(typed_s(st, e) == (st, (check_assign_s(st, e).1, false)));
        },
        Expr::Ternary { .. } => {
            lemma_ternary(st, e);
        },
        Expr::Binary { .. } => {
            lemma_binary(st, e);
        },
        Expr::Cast { ty, expr, .. } => {
            lemma_type_of(st, *expr);
            law_declared_types(st, ty);
        },
        Expr::Unary { .. } => {
            lemma_unary(st, e);
        },
        Expr::PreIncDec { .. } | Expr::PostIncDec { .. } => {
            lemma_incdec(st, e);
        },
        Expr::SizeofExpr { expr, .. } => {
            lemma_type_of(st, *expr);
        },
        Expr::SizeofType { ty, .. } => {
            law_declared_types(st, ty);
        },
        Expr::Call { .. } => {
            lemma_call(st, e);
        },
        Expr::KernelLaunch { .. } => {
            lemma_launch(st, e);
        },
        Expr::Index { .. } => {
            lemma_index(st, e);
        },
        Expr::Member { .. } => {
            lemma_member(st, e);
        },
        _ => {},
    }
}

// ---- reports -------------------------------------------------------------------------------

/// A unary operator on an operand that does not suit it is reported as a type error.
pub proof fn law_unary_reports(st: CkState, e: Expr)
    requires
        e matches Expr::Unary { op, expr, .. } && (typing(st.scopes, *expr) matches Some(p)
            && unary_type(op, p.0, p.1, place(*expr)) is None),
    ensures
        reported(st, typed_s(st, e).0, ECode::TypeError),
{
    match e {
        Expr::Unary { op, expr, span } => {
            law_typed_expressions(st, *expr);
            lemma_known(st.scopes, *expr);
            assert(typed_s(st, e) == check_unary_s(st, op, *expr, span));
            assert(typed_s(st, e).0.diags.drop_last() =~= st.diags);
        },
        _ => {},
    }
}

/// A binary operator on operands that do not suit it is reported as one type error.
pub proof fn law_binary_reports(st: CkState, e: Expr)
    requires
        e matches Expr::Binary { op, lhs, rhs, .. } && (typing(st.scopes, *lhs) matches Some(l) && (
        typing(st.scopes, *rhs) matches Some(r) && binary_type(op, l.0, r.0) is None)),
    ensures
        reported(st, typed_s(st, e).0, ECode::TypeError),
{
    match e {
        Expr::Binary { op, lhs, rhs, span } => {
            lemma_type_of(st, *lhs);
            lemma_type_of(st, *rhs);
            law_binary_operators(
                st,
                op,
                typing(st.scopes, *lhs)->Some_0.0,
                typing(st.scopes, *rhs)->Some_0.0,
                span,
            );
        },
        _ => {},
    }
}

/// An increment or decrement of what names no place, or of what is neither a number nor a pointer,
/// is reported.
pub proof fn law_incdec_reports(st: CkState, e: Expr)
    requires
        match e {
            Expr::PreIncDec { expr, .. } | Expr::PostIncDec { expr, .. } => typing(
                st.scopes,
                *expr,
            ) is Some && typing(st.scopes, e) is None,
            _ => false,
        },
    ensures
        more_reports(st, typed_s(st, e).0),
{
    match e {
        Expr::PreIncDec { expr, span, .. } | Expr::PostIncDec { expr, span, .. } => {
            law_typed_expressions(st, *expr);
            lemma_known(st.scopes, *expr);
            assert(more_reports(st, check_incdec_s(st, *expr, span).0));
        },
        _ => {},
    }
}

/// An assignment to what names no place, to something `const`, or of a value that does not fit is
/// reported.
#[verifier::rlimit(60)]
pub proof fn law_assignment_reports(st: CkState, e: Expr)
    requires
        e matches Expr::Assign { lhs, rhs, .. } && typing(st.scopes, *lhs) is Some && typing(
            st.scopes,
            *rhs,
        ) is Some && typing(st.scopes, e) is None,
    ensures
        more_reports(st, typed_s(st, e).0),
        (e matches Expr::Assign { op, lhs, rhs, .. } && place(*lhs) && typing(
            st.scopes,
            *lhs,
        )->Some_0.1 && assignment_type(
            op,
            typing(st.scopes, *lhs)->Some_0.0,
            typing(st.scopes, *rhs)->Some_0.0,
        ) is Some) ==> reported(st, typed_s(st, e).0, ECode::ConstViolation),
{
    match e {
        Expr::Assign { op, lhs, rhs, span } => {
            law_typed_expressions(st, *lhs);
            lemma_known(st.scopes, *lhs);
            lemma_type_of(st, *rhs);
            let l = typing(st.scopes, *lhs)->Some_0.0;
            let r = typing(st.scopes, *rhs)->Some_0.0;
            law_takes(l, r);
            if op != AssignOp::Assign {
                let st1 = if !(place(*lhs) && !(l is Array || l is Function)) {
                    err_type_s(
                        st,
                        expr_span(*lhs),
                        "assignment target is not a modifiable lvalue"@,
                    )
                } else {
                    st
                };
                let st2 = if typing(st.scopes, *lhs)->Some_0.1 {
                    err_const_s(
                        st1,
                        expr_span(*lhs),
                    )
                } else {
                    st1
                };
                law_binary_operators(st2, binop_of(op), l, r, span);
                if binary_type(binop_of(op), l, r) is Some {
                    law_takes(l, binary_type(binop_of(op), l, r)->0);
                }
            }
            let out = check_assign_s(st, e).0;
            assert(typed_s(st, e).0 == out);
            assert(out.diags.len() > st.diags.len());
            assert(out.diags.len() == st.diags.len() + 1 ==> out.diags.drop_last() =~= st.diags);
        },
        _ => {},
    }
}

/// A condition that is neither a number nor a pointer, and branches of which neither may take the
/// place of the other, are reported.
pub proof fn law_ternary_reports(st: CkState, e: Expr)
    requires
        e matches Expr::Ternary { cond, then_branch, else_branch, .. } && typing(
            st.scopes,
            *cond,
        ) is Some && typing(st.scopes, *then_branch) is Some && typing(st.scopes, *else_branch)
            is Some && typing(st.scopes, e) is None,
    ensures
        more_reports(st, typed_s(st, e).0),
{
    match e {
        Expr::Ternary { cond, then_branch, else_branch, span } => {
            lemma_type_of(st, *cond);
            let st1 = check_condition_s(st, *cond);
            assert(st1.scopes == st.scopes);
            lemma_type_of(st1, *then_branch);
            lemma_type_of(st1, *else_branch);
            let t = typing(st.scopes, *then_branch)->Some_0.0;
            let f = typing(st.scopes, *else_branch)->Some_0.0;
            law_takes(t, f);
            law_takes(f, t);
            assert(ternary_typing(st.scopes, e) is None);
            assert(typed_s(st, e).0 == check_ternary_s(st, e).0);
        },
        _ => {},
    }
}

/// An index that is no integer, and an indexed value that is neither an array nor a pointer, are
/// reported.
pub proof fn law_index_reports(st: CkState, e: Expr)
    requires
        e matches Expr::Index { base, index, .. } && (typing(st.scopes, *base) matches Some(b) && (
        typing(st.scopes, *index) matches Some(i) && (!address(b.0) || !whole_number(i.0)))),
    ensures
        more_reports(st, typed_s(st, e).0),
{
    match e {
        Expr::Index { base, index, .. } => {
            law_typed_expressions(st, *base);
            lemma_known(st.scopes, *base);
            lemma_type_of(st, *index);
            assert(typed_s(st, e) == check_index_s(st, e));
        },
        _ => {},
    }
}

/// A member of what is no struct or union, one that it does not have, `.` on a pointer and `->` on
/// what is none are reported.
pub proof fn law_member_reports(st: CkState, e: Expr)
    requires
        e matches Expr::Member { base, name, arrow, .. } && (typing(st.scopes, *base) matches Some(
            b,
        ) && !(reached(b.0) is Unknown && address(b.0)) && member_type(
            st.scopes,
            if arrow {
                reached(b.0)
            } else {
                b.0
            },
            name@,
        ) is None),
    ensures
        more_reports(st, typed_s(st, e).0),
        typed_s(st, e).1.0 is Unknown,
{
    match e {
        Expr::Member { base, name, arrow, .. } => {
            law_typed_expressions(st, *base);
            lemma_known(st.scopes, *base);
            assert(typed_s(st, e) == check_member_s(st, e));
        },
        _ => {},
    }
}

/// A name that stands for nothing is reported as undefined.
pub proof fn law_undefined_name_reports(st: CkState, e: Expr)
    requires
        e matches Expr::Ident { name, .. } && find_value(st.scopes, name@) is None,
    ensures
        reported(st, typed_s(st, e).0, ECode::UndefinedSymbol),
        typed_s(st, e).0.diags.last().args == seq![e->Ident_name@],
        typed_s(st, e).1.0 is Unknown,
{
    assert(typed_s(st, e).0.diags.drop_last() =~= st.diags);
}

/// A call with too few or too many arguments is reported, though each argument has a type.
pub proof fn law_call_reports_the_count(st: CkState, e: Expr)
    requires
        e matches Expr::Call { callee, args, .. } && (*callee matches Expr::Ident { name, .. } && (
        find_value(st.scopes, name@) matches Some(ValueSymV::Func(sig)) && !count_suits(
            sig,
            args@.len(),
        ) && args_suit(st.scopes, sig.params, args@, args@.len()))),
    ensures
        reported(st, typed_s(st, e).0, ECode::TypeError),
{
    match e {
        Expr::Call { callee, args, span } => {
            match *callee {
                Expr::Ident { name, .. } => {
                    match find_value(st.scopes, name@) {
                        Some(ValueSymV::Func(sig)) => {
                            let out = check_signature_s(st, name@, sig, args@, span);
                            let st2 = err_type_s(
                                st,
                                span,
                                "call to '"@ + name@ + "' expects "@ + decimal(
                                    sig.params.len(),
                                ) + " argument(s), got "@ + decimal(args@.len()),
                            );
                            lemma_args(st2, name@, sig, args@, 0);
                            assert(out == st2);
                            assert(check_call_s(st, e).0 == st2);
                            assert(st2.diags.drop_last() =~= st.diags);
                        },
                        _ => {},
                    }
                },
                _ => {},
            }
        },
        _ => {},
    }
}

} // verus!
