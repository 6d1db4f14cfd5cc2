//! The type checker of CUDA C.
//!
//! `check` visits every item, statement and expression of a translation unit and returns what it
//! found wrong, in the order of the visit; it never stops at the first problem. A type that
//! cannot be found is unknown, which fits every other, so that one problem is reported once.
//!
//! Templates are not looked into. A name must be declared before it is used, but for a function
//! inside its own body. A prototype and its definition are a redefinition.
//!
//! Inside a `__global__` or `__device__` body stand `threadIdx`, `blockIdx`, `blockDim` and
//! `gridDim`, values of a struct with unsigned fields `x`, `y` and `z`, and functions over `int`
//! for barriers, shuffles, votes and atomics. The CUDA runtime calls are known everywhere.
//!
//! An assignment to what is `const` is reported: to a variable, a parameter, a field, or what a
//! pointer to `const` points to. An increment or decrement is not.

use vstd::prelude::*;
use vstd::string::*;

use crate::diag::{diag1, diag2, diags_view, names_view, push_diag, Diag, DiagV, ECode, Span};
use crate::sema::c_ast::{
    expr_span, AssignOp, BinOp, EnumDecl, EnumVariant, Expr, FieldDecl, FloatLit, FloatSuffix,
    FunctionDecl, IntLit, Item, ParamDecl, ScalarKind, Stmt, StructDecl, TagKind, TranslationUnit,
    Type, TypedefDecl, UnaryOp, UnionDecl, VarDecl,
};
use crate::sema::labels::{body_labels, has_name, labels_of};
use crate::sema::scope::{
    empty_scope, fields_view, find_enum, find_struct, find_typedef, find_union, find_value,
    with_enum, with_struct, with_typedef, with_union, with_value, Field, FieldV, FuncSig, FuncSigV,
    ScopeStack, ScopeV, StructInfo, ValueSym, ValueSymV,
};
use crate::sema::ty::{
    assignable, fits, lemma_tys_take, opt_ty, promote, promoted, ty_view, tys_view, Ty, TyV,
};
use crate::text::{decimal, same, to_decimal};

verus! {

// ---- literals and operators ----------------------------------------------------------------

pub open spec fn int_ty_of(lit: IntLit) -> TyV {
    TyV::Scalar(
        if lit.unsigned {
            if lit.long_len == 0 {
                ScalarKind::UInt
            } else if lit.long_len == 1 {
                ScalarKind::ULong
            } else {
                ScalarKind::ULongLong
            }
        } else {
            if lit.long_len == 0 {
                ScalarKind::Int
            } else if lit.long_len == 1 {
                ScalarKind::Long
            } else {
                ScalarKind::LongLong
            }
        },
    )
}

/// The type of an integer literal, by its suffix.
pub fn int_lit_ty(lit: &IntLit) -> (t: Ty)
    ensures
        t@ == int_ty_of(*lit),
{
    Ty::Scalar(
        if lit.unsigned {
            if lit.long_len == 0 {
                ScalarKind::UInt
            } else if lit.long_len == 1 {
                ScalarKind::ULong
            } else {
                ScalarKind::ULongLong
            }
        } else {
            if lit.long_len == 0 {
                ScalarKind::Int
            } else if lit.long_len == 1 {
                ScalarKind::Long
            } else {
                ScalarKind::LongLong
            }
        },
    )
}

pub open spec fn float_ty_of(lit: FloatLit) -> TyV {
    TyV::Scalar(
        match lit.suffix {
            FloatSuffix::F => ScalarKind::Float,
            FloatSuffix::L => ScalarKind::LongDouble,
            FloatSuffix::Absent => ScalarKind::Double,
        },
    )
}

/// The type of a floating-point literal, by its suffix.
pub fn float_lit_ty(lit: &FloatLit) -> (t: Ty)
    ensures
        t@ == float_ty_of(*lit),
{
    Ty::Scalar(
        match lit.suffix {
            FloatSuffix::F => ScalarKind::Float,
            FloatSuffix::L => ScalarKind::LongDouble,
            FloatSuffix::Absent => ScalarKind::Double,
        },
    )
}

pub open spec fn binop_of(op: AssignOp) -> BinOp {
    match op {
        AssignOp::AddAssign | AssignOp::Assign => BinOp::Add,
        AssignOp::SubAssign => BinOp::Sub,
        AssignOp::MulAssign => BinOp::Mul,
        AssignOp::DivAssign => BinOp::Div,
        AssignOp::RemAssign => BinOp::Rem,
        AssignOp::AndAssign => BinOp::BitAnd,
        AssignOp::OrAssign => BinOp::BitOr,
        AssignOp::XorAssign => BinOp::BitXor,
        AssignOp::ShlAssign => BinOp::Shl,
        AssignOp::ShrAssign => BinOp::Shr,
    }
}

/// The operator of a compound assignment.
pub fn compound_binop(op: AssignOp) -> (r: BinOp)
    requires
        op != AssignOp::Assign,
    ensures
        r == binop_of(op),
{
    match op {
        AssignOp::AddAssign | AssignOp::Assign => BinOp::Add,
        AssignOp::SubAssign => BinOp::Sub,
        AssignOp::MulAssign => BinOp::Mul,
        AssignOp::DivAssign => BinOp::Div,
        AssignOp::RemAssign => BinOp::Rem,
        AssignOp::AndAssign => BinOp::BitAnd,
        AssignOp::OrAssign => BinOp::BitOr,
        AssignOp::XorAssign => BinOp::BitXor,
        AssignOp::ShlAssign => BinOp::Shl,
        AssignOp::ShrAssign => BinOp::Shr,
    }
}

/// Whether a declared type is `const` itself. An array is what its elements are.
pub open spec fn const_at_top(ty: Type) -> bool
    decreases ty,
{
    match ty {
        Type::Scalar { kind, is_const, span } => is_const,
        Type::Tag { kind, name, is_const, span } => is_const,
        Type::Named { name, is_const, span } => is_const,
        Type::Pointer { pointee, is_const, span } => is_const,
        Type::Array { elem, size, span } => const_at_top(*elem),
        Type::Instantiated { is_const, span } => is_const,
    }
}

pub fn top_level_const(ty: &Type) -> (r: bool)
    ensures
        r == const_at_top(*ty),
    decreases ty,
{
    match ty {
        Type::Scalar { is_const, .. } => *is_const,
        Type::Tag { is_const, .. } => *is_const,
        Type::Named { is_const, .. } => *is_const,
        Type::Pointer { is_const, .. } => *is_const,
        Type::Array { elem, .. } => top_level_const(elem),
        Type::Instantiated { is_const, .. } => *is_const,
    }
}

pub open spec fn lvalue(e: Expr) -> bool {
    match e {
        Expr::Ident { name, span } => true,
        Expr::Member { base, name, arrow, span } => true,
        Expr::Index { base, index, span } => true,
        Expr::Unary { op, expr, span } => op == UnaryOp::Deref,
        _ => false,
    }
}

/// Whether an expression names a place.
pub fn is_lvalue(e: &Expr) -> (r: bool)
    ensures
        r == lvalue(*e),
{
    match e {
        Expr::Ident { .. } | Expr::Member { .. } | Expr::Index { .. } => true,
        Expr::Unary { op, .. } => matches!(op, UnaryOp::Deref),
        _ => false,
    }
}

pub open spec fn can_compare(l: TyV, r: TyV) -> bool {
    ||| l.arithmetic() && r.arithmetic()
    ||| l.pointer_like() && r.pointer_like()
    ||| l.pointer_like() && r.integer()
    ||| r.pointer_like() && l.integer()
}

fn comparable(l: &Ty, r: &Ty) -> (b: bool)
    ensures
        b == can_compare(l@, r@),
{
    (l.is_arithmetic() && r.is_arithmetic()) || (l.is_pointer_like() && r.is_pointer_like()) || (
    l.is_pointer_like() && r.is_integer()) || (r.is_pointer_like() && l.is_integer())
}

/// A pointer to what a pointer or array reaches.
pub open spec fn decayed(t: TyV) -> TyV {
    TyV::Pointer(
        Box::new(
            match t.target() {
                Some(x) => x,
                None => TyV::Unknown,
            },
        ),
        pointee_const(t),
    )
}

/// Whether what a type points to is `const`.
pub open spec fn pointee_const(t: TyV) -> bool {
    match t {
        TyV::Pointer(_, c) => c,
        _ => false,
    }
}

fn decay(t: &Ty) -> (r: Ty)
    ensures
        r@ == decayed(t@),
{
    proof {
        reveal_with_fuel(ty_view, 3);
    }
    let c = is_pointee_const(t);
    match t.deref_target() {
        Some(x) => Ty::Pointer(Box::new(x), c),
        None => Ty::Pointer(Box::new(Ty::Unknown), c),
    }
}

fn is_pointee_const(t: &Ty) -> (r: bool)
    ensures
        r == pointee_const(t@),
{
    match t {
        Ty::Pointer(_, c) => *c,
        _ => false,
    }
}

pub open spec fn find_field(fields: Seq<FieldV>, name: Seq<char>, i: nat) -> Option<FieldV>
    decreases fields.len() - i,
{
    if i >= fields.len() {
        None
    } else if fields[i as int].name == name {
        Some(fields[i as int])
    } else {
        find_field(fields, name, i + 1)
    }
}

/// The first field of a name.
pub open spec fn field_of(fields: Seq<FieldV>, name: Seq<char>) -> Option<FieldV> {
    find_field(fields, name, 0)
}

/// The fields of a struct or union type.
pub open spec fn fields_of(scopes: Seq<ScopeV>, t: TyV) -> Option<Seq<FieldV>> {
    match t {
        TyV::Struct(n) => find_struct(scopes, n),
        TyV::Union(n) => find_union(scopes, n),
        _ => None,
    }
}

/// The type of a field of a struct or union type, and whether the field is `const`.
pub fn lookup_field(scopes: &ScopeStack, t: &Ty, name: &str) -> (r: Option<(Ty, bool)>)
    ensures
        match r {
            Some(p) => fields_of(scopes@, t@) matches Some(fs) && field_of(fs, name@) matches Some(
                f,
            ) && f.ty == p.0@ && f.is_const == p.1,
            None => match fields_of(scopes@, t@) {
                Some(fs) => field_of(fs, name@) is None,
                None => true,
            },
        },
{
    let info = match t {
        Ty::Struct(n) => scopes.lookup_struct(n.as_str()),
        Ty::Union(n) => scopes.lookup_union(n.as_str()),
        _ => None,
    };
    match info {
        None => None,
        Some(info) => {
            let ghost fs = fields_view(info.fields@);
            let mut i: usize = 0;
            while i < info.fields.len()
                invariant
                    fs == fields_view(info.fields@),
                    i <= fs.len(),
                    fields_of(scopes@, t@) == Some(fs),
                    field_of(fs, name@) == find_field(fs, name@, i as nat),
                decreases fs.len() - i,
            {
                let f = &info.fields[i];
                assert(fs[i as int] == f@);
                if same(f.name.as_str(), name) {
                    return Some((f.ty.copy(), f.is_const));
                }
                i = i + 1;
            }
            None
        },
    }
}

// ---- CUDA ----------------------------------------------------------------------------------

pub open spec fn dim3_name(n: Seq<char>) -> bool {
    n == "threadIdx"@ || n == "blockIdx"@ || n == "blockDim"@ || n == "gridDim"@
}

/// Whether a name is one of the builtins that have `x`, `y` and `z`.
pub fn is_dim3_builtin(name: &str) -> (r: bool)
    ensures
        r == dim3_name(name@),
{
    same(name, "threadIdx") || same(name, "blockIdx") || same(name, "blockDim") || same(
        name,
        "gridDim",
    )
}

pub open spec fn uint_field(name: Seq<char>) -> FieldV {
    FieldV { name, ty: TyV::Scalar(ScalarKind::UInt), is_const: false }
}

/// The fields of the struct behind `threadIdx` and its like.
pub open spec fn dim3_fields() -> Seq<FieldV> {
    seq![uint_field("x"@), uint_field("y"@), uint_field("z"@)]
}

pub open spec fn dim3_ty() -> TyV {
    TyV::Struct("__basalt_cuda_dim3"@)
}

fn uint(name: &str) -> (f: Field)
    ensures
        f@ == uint_field(name@),
{
    Field { name: name.to_owned(), ty: Ty::Scalar(ScalarKind::UInt), is_const: false }
}

/// The struct behind `threadIdx` and its like.
pub fn dim3_info() -> (r: StructInfo)
    ensures
        r@ == dim3_fields(),
{
    let mut fields: Vec<Field> = Vec::new();
    fields.push(uint("x"));
    fields.push(uint("y"));
    fields.push(uint("z"));
    let r = StructInfo { fields };
    assert(r@ =~= dim3_fields());
    r
}

pub fn is_dim3(t: &Ty) -> (r: bool)
    ensures
        r == (t@ == dim3_ty()),
{
    match t {
        Ty::Struct(n) => same(n.as_str(), "__basalt_cuda_dim3"),
        _ => false,
    }
}

pub open spec fn sig_of(ret: TyV, params: Seq<TyV>) -> ValueSymV {
    ValueSymV::Func(FuncSigV { ret, params, variadic: false, is_kernel: false })
}

pub open spec fn int_ty() -> TyV {
    TyV::Scalar(ScalarKind::Int)
}

pub open spec fn void_ptr(c: bool) -> TyV {
    TyV::Pointer(Box::new(TyV::Scalar(ScalarKind::Void)), c)
}

pub open spec fn int_ptr() -> TyV {
    TyV::Pointer(Box::new(TyV::Scalar(ScalarKind::Int)), false)
}

pub open spec fn with_fn(s: Seq<ScopeV>, name: Seq<char>, ret: TyV, params: Seq<TyV>) -> Seq<
    ScopeV,
> {
    with_value(s, name, sig_of(ret, params))
}

/// What stands in the body of a kernel or device function.
pub open spec fn with_device_builtins(s: Seq<ScopeV>) -> Seq<ScopeV> {
    let i = int_ty();
    let s = with_struct(s, "__basalt_cuda_dim3"@, dim3_fields());
    let s = with_value(s, "threadIdx"@, ValueSymV::Var(dim3_ty(), false));
    let s = with_value(s, "blockIdx"@, ValueSymV::Var(dim3_ty(), false));
    let s = with_value(s, "blockDim"@, ValueSymV::Var(dim3_ty(), false));
    let s = with_value(s, "gridDim"@, ValueSymV::Var(dim3_ty(), false));
    let s = with_fn(s, "__syncthreads"@, TyV::Scalar(ScalarKind::Void), Seq::empty());
    let s = with_fn(s, "__shfl"@, i, seq![i, i]);
    let s = with_fn(s, "__shfl_up"@, i, seq![i, i]);
    let s = with_fn(s, "__shfl_down"@, i, seq![i, i]);
    let s = with_fn(s, "__shfl_xor"@, i, seq![i, i]);
    let s = with_fn(s, "__ballot"@, i, seq![i]);
    let s = with_fn(s, "__any"@, i, seq![i]);
    let s = with_fn(s, "__all"@, i, seq![i]);
    let s = with_fn(s, "atomicAdd"@, i, seq![int_ptr(), i]);
    let s = with_fn(s, "atomicSub"@, i, seq![int_ptr(), i]);
    let s = with_fn(s, "atomicExch"@, i, seq![int_ptr(), i]);
    let s = with_fn(s, "atomicMin"@, i, seq![int_ptr(), i]);
    let s = with_fn(s, "atomicMax"@, i, seq![int_ptr(), i]);
    let s = with_fn(s, "atomicAnd"@, i, seq![int_ptr(), i]);
    let s = with_fn(s, "atomicOr"@, i, seq![int_ptr(), i]);
    let s = with_fn(s, "atomicXor"@, i, seq![int_ptr(), i]);
    with_fn(s, "atomicCAS"@, i, seq![int_ptr(), i, i])
}

/// What the CUDA runtime offers everywhere.
pub open spec fn with_runtime_api(s: Seq<ScopeV>) -> Seq<ScopeV> {
    let i = int_ty();
    let size = TyV::Scalar(ScalarKind::ULong);
    let s = with_struct(s, "__basalt_cuda_dim3"@, dim3_fields());
    let s = with_fn(
        s,
        "cudaMalloc"@,
        i,
        seq![TyV::Pointer(Box::new(void_ptr(false)), false), size],
    );
    let s = with_fn(s, "cudaMemcpy"@, i, seq![void_ptr(false), void_ptr(true), size, i]);
    let s = with_fn(s, "cudaFree"@, i, seq![void_ptr(false)]);
    let s = with_fn(s, "cudaDeviceSynchronize"@, i, Seq::empty());
    let s = with_value(s, "cudaMemcpyHostToHost"@, ValueSymV::EnumConst(i));
    let s = with_value(s, "cudaMemcpyHostToDevice"@, ValueSymV::EnumConst(i));
    let s = with_value(s, "cudaMemcpyDeviceToHost"@, ValueSymV::EnumConst(i));
    let s = with_value(s, "cudaMemcpyDeviceToDevice"@, ValueSymV::EnumConst(i));
    with_value(s, "cudaMemcpyDefault"@, ValueSymV::EnumConst(i))
}

fn declare_fn(s: &mut ScopeStack, name: &str, ret: Ty, params: Vec<Ty>)
    requires
        old(s)@.len() > 0,
    ensures
        final(s)@ == with_fn(old(s)@, name@, ret@, tys_view(params@)),
        final(s)@.len() == old(s)@.len(),
{
    s.declare_value(
        name,
        ValueSym::Func(FuncSig { ret, params, variadic: false, is_kernel: false }),
    );
}

/// Declares a function on integers that returns one, after a pointer if asked.
fn declare_int_fn(s: &mut ScopeStack, name: &str, ptr: bool, ints: usize)
    requires
        old(s)@.len() > 0,
        ints <= 2,
    ensures
        final(s)@ == with_fn(
            old(s)@,
            name@,
            int_ty(),
            if ptr && ints == 1 {
                seq![int_ptr(), int_ty()]
            } else if ptr && ints == 2 {
                seq![int_ptr(), int_ty(), int_ty()]
            } else if ptr {
                seq![int_ptr()]
            } else if ints == 1 {
                seq![int_ty()]
            } else if ints == 2 {
                seq![int_ty(), int_ty()]
            } else {
                Seq::empty()
            },
        ),
        final(s)@.len() == old(s)@.len(),
{
    let mut params: Vec<Ty> = Vec::new();
    if ptr {
        params.push(Ty::Pointer(Box::new(Ty::Scalar(ScalarKind::Int)), false));
    }
    if ints >= 1 {
        params.push(Ty::Scalar(ScalarKind::Int));
    }
    if ints == 2 {
        params.push(Ty::Scalar(ScalarKind::Int));
    }
    proof {
        lemma_tys_take(params@, params@.len());
        if ptr && ints == 1 {
            assert(tys_view(params@) =~= seq![int_ptr(), int_ty()]);
        } else if ptr && ints == 2 {
            assert(tys_view(params@) =~= seq![int_ptr(), int_ty(), int_ty()]);
        } else if ptr {
            assert(tys_view(params@) =~= seq![int_ptr()]);
        } else if ints == 1 {
            assert(tys_view(params@) =~= seq![int_ty()]);
        } else if ints == 2 {
            assert(tys_view(params@) =~= seq![int_ty(), int_ty()]);
        } else {
            assert(tys_view(params@) =~= Seq::empty());
        }
    }
    declare_fn(s, name, Ty::Scalar(ScalarKind::Int), params);
}

fn seed_dim3(s: &mut ScopeStack, name: &str)
    requires
        old(s)@.len() > 0,
    ensures
        final(s)@ == with_value(old(s)@, name@, ValueSymV::Var(dim3_ty(), false)),
        final(s)@.len() == old(s)@.len(),
{
    s.declare_value(name, ValueSym::Var(Ty::Struct("__basalt_cuda_dim3".to_owned()), false));
}

/// Declares what stands in the body of a kernel or device function.
fn seed_cuda_builtins(s: &mut ScopeStack)
    requires
        old(s)@.len() > 0,
    ensures
        final(s)@ == with_device_builtins(old(s)@),
        final(s)@.len() == old(s)@.len(),
{
    s.declare_struct("__basalt_cuda_dim3", dim3_info());
    seed_dim3(s, "threadIdx");
    seed_dim3(s, "blockIdx");
    seed_dim3(s, "blockDim");
    seed_dim3(s, "gridDim");
    let none: Vec<Ty> = Vec::new();
    assert(tys_view(none@) =~= Seq::empty());
    declare_fn(s, "__syncthreads", Ty::Scalar(ScalarKind::Void), none);
    declare_int_fn(s, "__shfl", false, 2);
    declare_int_fn(s, "__shfl_up", false, 2);
    declare_int_fn(s, "__shfl_down", false, 2);
    declare_int_fn(s, "__shfl_xor", false, 2);
    declare_int_fn(s, "__ballot", false, 1);
    declare_int_fn(s, "__any", false, 1);
    declare_int_fn(s, "__all", false, 1);
    declare_int_fn(s, "atomicAdd", true, 1);
    declare_int_fn(s, "atomicSub", true, 1);
    declare_int_fn(s, "atomicExch", true, 1);
    declare_int_fn(s, "atomicMin", true, 1);
    declare_int_fn(s, "atomicMax", true, 1);
    declare_int_fn(s, "atomicAnd", true, 1);
    declare_int_fn(s, "atomicOr", true, 1);
    declare_int_fn(s, "atomicXor", true, 1);
    declare_int_fn(s, "atomicCAS", true, 2);
}

fn void_pointer(c: bool) -> (t: Ty)
    ensures
        t@ == void_ptr(c),
{
    proof {
        reveal_with_fuel(ty_view, 3);
    }
    Ty::Pointer(Box::new(Ty::Scalar(ScalarKind::Void)), c)
}

fn seed_constant(s: &mut ScopeStack, name: &str)
    requires
        old(s)@.len() > 0,
    ensures
        final(s)@ == with_value(old(s)@, name@, ValueSymV::EnumConst(int_ty())),
        final(s)@.len() == old(s)@.len(),
{
    s.declare_value(name, ValueSym::EnumConst(Ty::Scalar(ScalarKind::Int)));
}

/// Declares what the CUDA runtime offers.
fn seed_cuda_runtime_api(s: &mut ScopeStack)
    requires
        old(s)@.len() > 0,
    ensures
        final(s)@ == with_runtime_api(old(s)@),
        final(s)@.len() == old(s)@.len(),
{
    s.declare_struct("__basalt_cuda_dim3", dim3_info());
    let mut params: Vec<Ty> = Vec::new();
    params.push(Ty::Pointer(Box::new(void_pointer(false)), false));
    params.push(Ty::Scalar(ScalarKind::ULong));
    proof {
        lemma_tys_take(params@, params@.len());
        assert(tys_view(params@) =~= seq![
            TyV::Pointer(Box::new(void_ptr(false)), false),
            TyV::Scalar(ScalarKind::ULong),
        ]);
    }
    declare_fn(s, "cudaMalloc", Ty::Scalar(ScalarKind::Int), params);
    let mut params: Vec<Ty> = Vec::new();
    params.push(void_pointer(false));
    params.push(void_pointer(true));
    params.push(Ty::Scalar(ScalarKind::ULong));
    params.push(Ty::Scalar(ScalarKind::Int));
    proof {
        lemma_tys_take(params@, params@.len());
        assert(tys_view(params@) =~= seq![
            void_ptr(false),
            void_ptr(true),
            TyV::Scalar(ScalarKind::ULong),
            int_ty(),
        ]);
    }
    declare_fn(s, "cudaMemcpy", Ty::Scalar(ScalarKind::Int), params);
    let mut params: Vec<Ty> = Vec::new();
    params.push(void_pointer(false));
    proof {
        lemma_tys_take(params@, params@.len());
        assert(tys_view(params@) =~= seq![void_ptr(false)]);
    }
    declare_fn(s, "cudaFree", Ty::Scalar(ScalarKind::Int), params);
    let none: Vec<Ty> = Vec::new();
    assert(tys_view(none@) =~= Seq::empty());
    declare_fn(s, "cudaDeviceSynchronize", Ty::Scalar(ScalarKind::Int), none);
    seed_constant(s, "cudaMemcpyHostToHost");
    seed_constant(s, "cudaMemcpyHostToDevice");
    seed_constant(s, "cudaMemcpyDeviceToHost");
    seed_constant(s, "cudaMemcpyDeviceToDevice");
    seed_constant(s, "cudaMemcpyDefault");
}

/// Whether what a dereference of `t` reaches is `const`: what a pointer says of it, or for an
/// array what the array is.
pub open spec fn const_reached(t: TyV, whole: bool) -> bool {
    match t {
        TyV::Pointer(_, c) => c,
        _ => whole,
    }
}

fn reached_const(t: &Ty, whole: bool) -> (r: bool)
    ensures
        r == const_reached(t@, whole),
{
    match t {
        Ty::Pointer(_, c) => *c,
        _ => whole,
    }
}

/// The type of a named value, and whether it is `const`.
pub open spec fn value_ty(sym: ValueSymV) -> (TyV, bool) {
    match sym {
        ValueSymV::Var(t, c) => (t, c),
        ValueSymV::EnumConst(t) => (t, false),
        ValueSymV::Func(f) => (
            TyV::Function { ret: Box::new(f.ret), params: f.params, variadic: f.variadic },
            false,
        ),
    }
}

/// The signature under a name: `Some(None)` where the name is no function, `None` where it is
/// nothing.
pub open spec fn callable(scopes: Seq<ScopeV>, name: Seq<char>) -> Option<Option<FuncSigV>> {
    match find_value(scopes, name) {
        Some(ValueSymV::Func(sig)) => Some(Some(sig)),
        Some(_) => Some(None),
        None => None,
    }
}

pub open spec fn member_field(scopes: Seq<ScopeV>, t: TyV, name: Seq<char>) -> Option<FieldV> {
    match fields_of(scopes, t) {
        Some(fs) => field_of(fs, name),
        None => None,
    }
}

// ---- checking ------------------------------------------------------------------------------

/// What checking keeps: the scopes, the diagnostics, the return type and labels of the function
/// that is being checked, and whether a loop or switch is open in it.
pub struct CkState {
    pub scopes: Seq<ScopeV>,
    pub diags: Seq<DiagV>,
    pub fn_ret: Option<TyV>,
    pub labels: Seq<Seq<char>>,
    pub in_loop: bool,
    pub in_switch: bool,
}

pub open spec fn err_type_s(st: CkState, span: Span, msg: Seq<char>) -> CkState {
    CkState { diags: st.diags.push(diag1(ECode::TypeError, span, msg)), ..st }
}

pub open spec fn err_undef_s(st: CkState, span: Span, name: Seq<char>) -> CkState {
    CkState { diags: st.diags.push(diag1(ECode::UndefinedSymbol, span, name)), ..st }
}

pub open spec fn err_redef_s(st: CkState, span: Span, name: Seq<char>) -> CkState {
    CkState { diags: st.diags.push(diag1(ECode::Redefinition, span, name)), ..st }
}

pub open spec fn err_const_s(st: CkState, span: Span) -> CkState {
    CkState {
        diags: st.diags.push(
            diag1(ECode::ConstViolation, span, "cannot modify a const-qualified value"@),
        ),
        ..st
    }
}

pub open spec fn err_cuda_s(
    st: CkState,
    span: Span,
    name: Seq<char>,
    detail: Seq<char>,
) -> CkState {
    CkState { diags: st.diags.push(diag2(ECode::InvalidCudaQualifier, span, name, detail)), ..st }
}

pub open spec fn open_scope_s(st: CkState) -> CkState {
    CkState { scopes: st.scopes.push(empty_scope()), ..st }
}

pub open spec fn close_scope_s(st: CkState) -> CkState {
    CkState { scopes: st.scopes.drop_last(), ..st }
}

/// Declares a value; a second one of the name in the scope is reported.
pub open spec fn declare_s(st: CkState, span: Span, name: Seq<char>, sym: ValueSymV) -> CkState {
    let existed = st.scopes.last().values.contains_key(name);
    let st = CkState { scopes: with_value(st.scopes, name, sym), ..st };
    if existed {
        err_redef_s(st, span, name)
    } else {
        st
    }
}

/// The type of an expression.
pub open spec fn type_of_s(st: CkState, e: Expr) -> (CkState, TyV)
    decreases e, 9nat,
{
    let (st, (t, _)) = typed_s(st, e);
    (st, t)
}

/// Checks a condition.
pub open spec fn check_condition_s(st: CkState, cond: Expr) -> CkState
    decreases cond, 10nat,
{
    let (st, t) = type_of_s(st, cond);
    if !(t is Unknown) && !t.condition() {
        err_type_s(
            st,
            expr_span(cond),
            "condition must have a scalar (arithmetic or pointer) type"@,
        )
    } else {
        st
    }
}

/// The type that a tag stands for.
pub open spec fn resolve_tag_s(
    st: CkState,
    kind: TagKind,
    name: Seq<char>,
    span: Span,
) -> (CkState, TyV)
{
    if name.len() == 0 { (st, TyV::Unknown) } else {
        match kind {
            TagKind::Struct => {
                if find_struct(st.scopes, name) is Some {
                    (st, TyV::Struct(name))
                } else {
                    let st = err_undef_s(st, span, name);
                    (st, TyV::Unknown)
                }
            },
            TagKind::Union => {
                if find_union(st.scopes, name) is Some {
                    (st, TyV::Union(name))
                } else {
                    let st = err_undef_s(st, span, name);
                    (st, TyV::Unknown)
                }
            },
            TagKind::Enum => {
                if find_enum(st.scopes, name) is Some {
                    (st, TyV::Enum(name))
                } else {
                    let st = err_undef_s(st, span, name);
                    (st, TyV::Unknown)
                }
            },
        }
    }
}

/// The type that a bare name stands for: a typedef, else a struct, a union or an enum.
pub open spec fn resolve_named_s(st: CkState, name: Seq<char>, span: Span) -> (CkState, TyV)
{
    if find_typedef(st.scopes, name) is Some {
        (st, find_typedef(st.scopes, name)->0)
    } else {
        if find_struct(st.scopes, name) is Some {
            (st, TyV::Struct(name))
        } else if find_union(st.scopes, name) is Some {
            (st, TyV::Union(name))
        } else if find_enum(st.scopes, name) is Some {
            (st, TyV::Enum(name))
        } else {
            let st = err_undef_s(st, span, name);
            (st, TyV::Unknown)
        }
    }
}

/// The type that a declared type stands for.
pub open spec fn resolve_type_s(st: CkState, ty: Type) -> (CkState, TyV)
    decreases ty, 9nat,
{
    match ty {
        Type::Scalar { kind, .. } => {
            (st, TyV::Scalar(kind))
        },
        Type::Tag { kind, name, span, .. } => {
            resolve_tag_s(st, kind, name@, span)
        },
        Type::Named { name, span, .. } => {
            resolve_named_s(st, name@, span)
        },
        Type::Pointer { pointee, .. } => {
            let (st, p) = resolve_type_s(st, *pointee);
            (st, TyV::Pointer(Box::new(p), const_at_top(*pointee)))
        },
        Type::Array { elem, size, .. } => {
            let st = match size {
                Some(sz) => {
                    let (st, _) = type_of_s(st, *sz);
                    st
                },
                None => {
                    st
                },
            };
            let (st, e) = resolve_type_s(st, *elem);
            (st, TyV::Array(Box::new(e)))
        },
        Type::Instantiated { .. } => {
            (st, TyV::Unknown)
        },
    }
}

/// The type of a binary operation.
pub open spec fn check_binary_s(
    st: CkState,
    op: BinOp,
    l: TyV,
    r2: TyV,
    span: Span,
) -> (CkState, TyV)
{
    let unknown_operand = (l is Unknown) || (r2 is Unknown);
    match op {
        BinOp::LogOr | BinOp::LogAnd => {
            let st = if !(unknown_operand || (l.condition() && r2.condition())) {
                err_type_s(st, span, "operands of a logical operator must be scalar"@)
            } else {
                st
            };
            (st, TyV::Scalar(ScalarKind::Int))
        },
        BinOp::Eq | BinOp::Ne | BinOp::Lt | BinOp::Gt | BinOp::Le | BinOp::Ge => {
            let st = if !unknown_operand && !can_compare(l, r2) {
                err_type_s(st, span, "comparison between incompatible types"@)
            } else {
                st
            };
            (st, TyV::Scalar(ScalarKind::Int))
        },
        BinOp::BitOr | BinOp::BitXor | BinOp::BitAnd | BinOp::Shl | BinOp::Shr => {
            let st = if !(unknown_operand || (l.integer() && r2.integer())) {
                err_type_s(st, span, "operands of a bitwise operator must be integers"@)
            } else {
                st
            };
            if unknown_operand {
                (st, TyV::Unknown)
            } else {
                (st, promoted(l, r2))
            }
        },
        BinOp::Add => {
            if l.pointer_like() && r2.integer() {
                (st, decayed(l))
            } else if r2.pointer_like() && l.integer() {
                (st, decayed(r2))
            } else if l.arithmetic() && r2.arithmetic() {
                (st, promoted(l, r2))
            } else if unknown_operand {
                (st, TyV::Unknown)
            } else {
                let st = err_type_s(st, span, "invalid operand types for '+'"@);
                (st, TyV::Unknown)
            }
        },
        BinOp::Sub => {
            if l.pointer_like() && r2.pointer_like() {
                (st, TyV::Scalar(ScalarKind::Long))
            } else if l.pointer_like() && r2.integer() {
                (st, decayed(l))
            } else if l.arithmetic() && r2.arithmetic() {
                (st, promoted(l, r2))
            } else if unknown_operand {
                (st, TyV::Unknown)
            } else {
                let st = err_type_s(st, span, "invalid operand types for '-'"@);
                (st, TyV::Unknown)
            }
        },
        BinOp::Mul | BinOp::Div => {
            if unknown_operand {
                (st, TyV::Unknown)
            } else if !(l.arithmetic() && r2.arithmetic()) {
                let st = err_type_s(
                    st,
                    span,
                    "operands of an arithmetic operator must be numeric"@,
                );
                (st, TyV::Unknown)
            } else {
                (st, promoted(l, r2))
            }
        },
        BinOp::Rem => {
            if unknown_operand {
                (st, TyV::Unknown)
            } else if !(l.integer() && r2.integer()) {
                let st = err_type_s(st, span, "operands of '%' must be integers"@);
                (st, TyV::Unknown)
            } else {
                (st, promoted(l, r2))
            }
        },
    }
}

/// The type of a unary operation, and whether what it names is `const`.
pub open spec fn check_unary_s(
    st: CkState,
    op: UnaryOp,
    expr: Expr,
    span: Span,
) -> (CkState, (TyV, bool))
    decreases expr, 9nat,
{
    let (st, (t, c)) = typed_s(st, expr);
    match op {
        UnaryOp::Plus | UnaryOp::Neg => {
            let st = if !(t is Unknown) && !t.arithmetic() {
                err_type_s(
                    st,
                    span,
                    "operand of a unary '+'/'-' must have an arithmetic type"@,
                )
            } else {
                st
            };
            (st, (t, false))
        },
        UnaryOp::Not => {
            let st = if !(t is Unknown) && !t.condition() {
                err_type_s(st, span, "operand of '!' must be scalar"@)
            } else {
                st
            };
            (st, (TyV::Scalar(ScalarKind::Int), false))
        },
        UnaryOp::BitNot => {
            let st = if !(t is Unknown) && !t.integer() {
                err_type_s(st, span, "operand of '~' must have an integer type"@)
            } else {
                st
            };
            (st, (t, false))
        },
        UnaryOp::Deref => {
            if (t is Unknown) {
                (st, (TyV::Unknown, false))
            } else {
                match t.target() {
                    Some(inner) => {
                        (st, (inner, const_reached(t, c)))
                    },
                    None => {
                        let st = err_type_s(st, span, "cannot dereference a non-pointer type"@);
                        (st, (TyV::Unknown, false))
                    },
                }
            }
        },
        UnaryOp::Addr => {
            let st = if !lvalue(expr) {
                err_type_s(
                    st,
                    span,
                    "cannot take the address of a non-lvalue expression"@,
                )
            } else {
                st
            };
            if (t is Unknown) {
                (st, (TyV::Unknown, false))
            } else {
                (st, (TyV::Pointer(Box::new(t), c), false))
            }
        },
    }
}

/// The type of an increment or decrement.
pub open spec fn check_incdec_s(st: CkState, inner: Expr, span: Span) -> (CkState, TyV)
    decreases inner, 9nat,
{
    let (st, (t, _)) = typed_s(st, inner);
    let st = if !lvalue(inner) {
        err_type_s(st, span, "operand of increment/decrement must be an lvalue"@)
    } else {
        st
    };
    let st = if !((t is Unknown) || t.arithmetic() || (t is Pointer)) {
        err_type_s(
            st,
            span,
            "operand of increment/decrement must be arithmetic or pointer"@,
        )
    } else {
        st
    };
    (st, t)
}

/// The type of an assignment.
pub open spec fn check_assign_s(st: CkState, e: Expr) -> (CkState, TyV)
    decreases e, 7nat,
{
    match e {
        Expr::Assign { op, lhs, rhs, span } => {
            let (st, (lhs_ty, c)) = typed_s(st, *lhs);
            let (st, rhs_ty) = type_of_s(st, *rhs);
            let st = if !(lvalue(*lhs) && !(lhs_ty is Array || lhs_ty is Function)) {
                err_type_s(
                    st,
                    expr_span(*lhs),
                    "assignment target is not a modifiable lvalue"@,
                )
            } else {
                st
            };
            let st = if c {
                err_const_s(st, expr_span(*lhs))
            } else {
                st
            };
            let st = if op == AssignOp::Assign {
                if !(lhs_ty is Unknown) && !(rhs_ty is Unknown) && !fits(lhs_ty, rhs_ty) {
                    err_type_s(st, span, "incompatible types in assignment"@)
                } else {
                    st
                }
            } else {
                let bin = binop_of(op);
                let (st, result) = check_binary_s(st, bin, lhs_ty, rhs_ty, span);
                if !(lhs_ty is Unknown) && !(result is Unknown) && !fits(lhs_ty, result) {
                    err_type_s(st, span, "incompatible types in compound assignment"@)
                } else {
                    st
                }
            };
            (st, lhs_ty)
        },
        _ => {
            (st, TyV::Unknown)
        },
    }
}

/// The type of a conditional expression.
pub open spec fn check_ternary_s(st: CkState, e: Expr) -> (CkState, TyV)
    decreases e, 7nat,
{
    match e {
        Expr::Ternary { cond, then_branch, else_branch, span } => {
            let st = check_condition_s(st, *cond);
            let (st, tt) = type_of_s(st, *then_branch);
            let (st, et) = type_of_s(st, *else_branch);
            if (tt is Unknown) {
                (st, et)
            } else if fits(tt, et) {
                (st, tt)
            } else if fits(et, tt) {
                (st, et)
            } else {
                let st = err_type_s(
                    st,
                    span,
                    "incompatible types in the two branches of a ternary expression"@,
                );
                (st, TyV::Unknown)
            }
        },
        _ => {
            (st, TyV::Unknown)
        },
    }
}

/// Checks the arguments of a call from index `i` on against the parameters.
pub open spec fn check_args_s(
    st: CkState,
    name: Seq<char>,
    sig: FuncSigV,
    args: Seq<Expr>,
    i: nat,
) -> CkState
    decreases args, args.len() - i,
{
    let st = if i < args.len() {
        let (st, at) = type_of_s(st, args[i as int]);
        let st = if i < sig.params.len() {
            let pt = sig.params[i as int];
            if !(at is Unknown) && !(pt is Unknown) && !fits(pt, at) {
                err_type_s(
                    st,
                    expr_span(args[i as int]),
                    "argument "@ + decimal(i + 1) + " to '"@ + name + "' has an incompatible type"@,
                )
            } else { st }
        } else { st };
        check_args_s(st, name, sig, args, i + 1)
    } else { st };
    st
}

/// Checks the number of arguments, then each of them.
pub open spec fn check_signature_s(
    st: CkState,
    name: Seq<char>,
    sig: FuncSigV,
    args: Seq<Expr>,
    span: Span,
) -> CkState
    decreases args, args.len() + 1,
{
    let st = if args.len() < sig.params.len() || (!sig.variadic && args.len() > sig.params.len()) {
        err_type_s(
            st,
            span,
            "call to '"@ + name + "' expects "@ + decimal(sig.params.len()) + " argument(s), got "@
                + decimal(args.len()),
        )
    } else {
        st
    };
    check_args_s(st, name, sig, args, 0)
}

/// The types of a list of expressions from index `i` on.
pub open spec fn check_list_s(st: CkState, es: Seq<Expr>, i: nat) -> CkState
    decreases es, es.len() - i,
{
    let st = if i < es.len() {
        let (st, _) = type_of_s(st, es[i as int]);
        check_list_s(st, es, i + 1)
    } else { st };
    st
}

/// The type of the last of a list of expressions, after the others; of the first `n`.
pub open spec fn check_comma_s(st: CkState, es: Seq<Expr>, n: nat) -> (CkState, TyV)
    decreases es, n,
{
    if n == 0 || n > es.len() { (st, TyV::Unknown) } else {
        let (st, _) = check_comma_s(st, es, (n - 1) as nat);
        type_of_s(st, es[n - 1])
    }
}

/// The type of a call.
pub open spec fn check_call_s(st: CkState, e: Expr) -> (CkState, TyV)
    decreases e, 7nat,
{
    match e {
        Expr::Call { callee, args, span } => {
            match *callee {
                Expr::Ident { name, span: ident_span } => {
                    let found = callable(st.scopes, name@);
                    match found {
                        Some(Some(sig)) => {
                            let st = check_signature_s(st, name@, sig, args@, span);
                            (st, sig.ret)
                        },
                        Some(None) => {
                            let st = err_type_s(
                                st,
                                ident_span,
                                "'"@ + name@ + "' is not a function"@,
                            );
                            let st = check_list_s(st, args@, 0);
                            (st, TyV::Unknown)
                        },
                        None => {
                            let st = err_undef_s(st, ident_span, name@);
                            let st = check_list_s(st, args@, 0);
                            (st, TyV::Unknown)
                        },
                    }
                },
                other => {
                    let (st, _) = type_of_s(st, *callee);
                    let st = check_list_s(st, args@, 0);
                    (st, TyV::Unknown)
                },
            }
        },
        _ => {
            (st, TyV::Unknown)
        },
    }
}

/// Checks the extent of a launch: an integer or three of them.
pub open spec fn check_launch_config_dim_s(st: CkState, e: Expr) -> CkState
    decreases e, 10nat,
{
    let (st, t) = type_of_s(st, e);
    if !(t is Unknown) && !t.integer() && t != dim3_ty() {
        err_type_s(st, expr_span(e), "launch configuration must be an integer or dim3"@)
    } else {
        st
    }
}

/// The type of a kernel launch.
pub open spec fn check_launch_s(st: CkState, e: Expr) -> (CkState, TyV)
    decreases e, 7nat,
{
    match e {
        Expr::KernelLaunch { kernel, grid, block, shared, stream, args, span } => {
            let st = check_launch_config_dim_s(st, *grid);
            let st = check_launch_config_dim_s(st, *block);
            let st = match shared {
                Some(x) => {
                    let (st, t) = type_of_s(st, *x);
                    if !(t is Unknown) && !t.integer() {
                        err_type_s(
                            st,
                            expr_span(*x),
                            "shared memory size must be an integer"@,
                        )
                    } else {
                        st
                    }
                },
                None => {
                    st
                },
            };
            let st = match stream {
                Some(x) => {
                    let (st, t) = type_of_s(st, *x);
                    if !(t is Unknown) && !t.pointer_like() && !t.integer() {
                        err_type_s(st, expr_span(*x), "stream must be a pointer"@)
                    } else {
                        st
                    }
                },
                None => {
                    st
                },
            };
            let st = match *kernel {
                Expr::Ident { name, span: ident_span } => {
                    let found = callable(st.scopes, name@);
                    match found {
                        Some(Some(sig)) => {
                            let st = if !sig.is_kernel {
                                err_type_s(
                                    st,
                                    ident_span,
                                    "launch target must be a '__global__' function"@,
                                )
                            } else {
                                st
                            };
                            check_signature_s(st, name@, sig, args@, span)
                        },
                        Some(None) => {
                            let st = err_type_s(
                                st,
                                ident_span,
                                "launch target must be a '__global__' function"@,
                            );
                            check_list_s(st, args@, 0)
                        },
                        None => {
                            let st = err_undef_s(st, ident_span, name@);
                            check_list_s(st, args@, 0)
                        },
                    }
                },
                other => {
                    let (st, _) = type_of_s(st, *kernel);
                    let st = err_type_s(st, span, "launch target must be a '__global__' function"@);
                    check_list_s(st, args@, 0)
                },
            };
            (st, TyV::Scalar(ScalarKind::Void))
        },
        _ => {
            (st, TyV::Unknown)
        },
    }
}

/// The type of an element, and whether it is `const`.
pub open spec fn check_index_s(st: CkState, e: Expr) -> (CkState, (TyV, bool))
    decreases e, 7nat,
{
    match e {
        Expr::Index { base, index, span } => {
            let (st, (bt, c)) = typed_s(st, *base);
            let (st, it) = type_of_s(st, *index);
            let st = if !(it is Unknown) && !it.integer() {
                err_type_s(
                    st,
                    expr_span(*index),
                    "array index must have an integer type"@,
                )
            } else {
                st
            };
            if (bt is Unknown) {
                (st, (TyV::Unknown, false))
            } else {
                match bt.target() {
                    Some(elem) => {
                        (st, (elem, const_reached(bt, c)))
                    },
                    None => {
                        let st = err_type_s(st, span, "indexed value is not an array or pointer"@);
                        (st, (TyV::Unknown, false))
                    },
                }
            }
        },
        _ => {
            (st, (TyV::Unknown, false))
        },
    }
}

/// The type of a member of `target`, and whether it is `const`, given that of the whole.
pub open spec fn member_of_s(
    st: CkState,
    target: TyV,
    name: Seq<char>,
    whole_const: bool,
    span: Span,
) -> (CkState, (TyV, bool))
{
    if (target is Unknown) {
        (st, (TyV::Unknown, false))
    } else if !(target is Struct || target is Union) {
        let st = err_type_s(st, span, "member access on a non-struct/union type"@);
        (st, (TyV::Unknown, false))
    } else {
        match member_field(st.scopes, target, name) {
            Some(f) => (st, (f.ty, f.is_const || whole_const)),
            None => (err_undef_s(st, span, name), (TyV::Unknown, false)),
        }
    }
}

/// The type of a member access, and whether what it names is `const`.
pub open spec fn check_member_s(st: CkState, e: Expr) -> (CkState, (TyV, bool))
    decreases e, 7nat,
{
    match e {
        Expr::Member { base, name, arrow, span } => {
            let (st, (bt, c)) = typed_s(st, *base);
            if (bt is Unknown) {
                (st, (TyV::Unknown, false))
            } else if arrow {
                match bt.target() {
                    Some(inner) => {
                        member_of_s(st, inner, name@, const_reached(bt, c), span)
                    },
                    None => {
                        let st = err_type_s(st, span, "'->' used on a non-pointer type"@);
                        (st, (TyV::Unknown, false))
                    },
                }
            } else if (bt is Pointer) {
                let st = err_type_s(st, span, "'.' used on a pointer type; did you mean '->'"@);
                (st, (TyV::Unknown, false))
            } else {
                member_of_s(st, bt, name@, c, span)
            }
        },
        _ => {
            (st, (TyV::Unknown, false))
        },
    }
}

/// The type of an identifier, and whether it is `const`.
pub open spec fn check_ident_s(st: CkState, name: Seq<char>, span: Span) -> (CkState, (TyV, bool))
{
    match find_value(st.scopes, name) {
        Some(sym) => (st, value_ty(sym)),
        None => (err_undef_s(st, span, name), (TyV::Unknown, false)),
    }
}

/// The type of an expression, and whether it names something `const`.
pub open spec fn typed_s(st: CkState, e: Expr) -> (CkState, (TyV, bool))
    decreases e, 8nat,
{
    match e {
        Expr::IntLit { value, .. } => {
            (st, (int_ty_of(value), false))
        },
        Expr::FloatLit { value, .. } => {
            (st, (float_ty_of(value), false))
        },
        Expr::CharLit { .. } => {
            (st, (TyV::Scalar(ScalarKind::Char), false))
        },
        Expr::StrLit { .. } => {
            (st, (TyV::Pointer(Box::new(TyV::Scalar(ScalarKind::Char)), true), false))
        },
        Expr::Ident { name, span } => {
            check_ident_s(st, name@, span)
        },
        Expr::Comma { exprs, .. } => {
            let (st, t) = check_comma_s(st, exprs@, exprs@.len());
            (st, (t, false))
        },
        Expr::Assign { .. } => {
            let (st, t) = check_assign_s(st, e);
            (st, (t, false))
        },
        Expr::Ternary { .. } => {
            let (st, t) = check_ternary_s(st, e);
            (st, (t, false))
        },
        Expr::Binary { op, lhs, rhs, span } => {
            let (st, l) = type_of_s(st, *lhs);
            let (st, r2) = type_of_s(st, *rhs);
            let (st, t) = check_binary_s(st, op, l, r2, span);
            (st, (t, false))
        },
        Expr::Cast { ty, expr, .. } => {
            let (st, _) = type_of_s(st, *expr);
            let (st, t) = resolve_type_s(st, ty);
            (st, (t, false))
        },
        Expr::Unary { op, expr, span } => {
            check_unary_s(st, op, *expr, span)
        },
        Expr::PreIncDec { expr, span, .. } | Expr::PostIncDec { expr, span, .. } => {
            let (st, t) = check_incdec_s(st, *expr, span);
            (st, (t, false))
        },
        Expr::SizeofExpr { expr, .. } => {
            let (st, _) = type_of_s(st, *expr);
            (st, (TyV::Scalar(ScalarKind::ULong), false))
        },
        Expr::SizeofType { ty, .. } => {
            let (st, _) = resolve_type_s(st, ty);
            (st, (TyV::Scalar(ScalarKind::ULong), false))
        },
        Expr::Call { .. } => {
            let (st, t) = check_call_s(st, e);
            (st, (t, false))
        },
        Expr::KernelLaunch { .. } => {
            let (st, t) = check_launch_s(st, e);
            (st, (t, false))
        },
        Expr::Index { .. } => {
            check_index_s(st, e)
        },
        Expr::Member { .. } => {
            check_member_s(st, e)
        },
        Expr::Error { .. } => {
            (st, (TyV::Unknown, false))
        },
    }
}

/// Checks the CUDA qualifiers of a variable.
pub open spec fn check_var_cuda_quals_s(st: CkState, v: VarDecl) -> CkState
{
    let q = v.cuda_quals;
    let st = if q.is_global || q.is_host {
        err_cuda_s(
            st,
            v.span,
            v.name@,
            "'__global__'/'__host__' apply to functions, not variables"@,
        )
    } else {
        st
    };
    if (q.is_shared && q.is_constant) || (q.is_shared && q.is_device) || (q.is_constant && q.is_device) {
        err_cuda_s(
            st,
            v.span,
            v.name@,
            "a variable cannot combine more than one of '__shared__'/'__constant__'/'__device__'"@,
        )
    } else {
        st
    }
}

/// A variable declaration.
pub open spec fn check_var_decl_s(st: CkState, v: VarDecl) -> CkState
{
    let st = check_var_cuda_quals_s(st, v);
    let (st, ty) = resolve_type_s(st, v.ty);
    let st = match v.init {
        Some(init) => {
            let (st, it) = type_of_s(st, init);
            if !(ty is Unknown) && !(it is Unknown) && !fits(ty, it) {
                err_type_s(
                    st,
                    v.span,
                    "cannot initialize '"@ + v.name@ + "' with this expression's type"@,
                )
            } else {
                st
            }
        },
        None => {
            st
        },
    };
    declare_s(st, v.span, v.name@, ValueSymV::Var(ty, const_at_top(v.ty)))
}

/// The first `n` declarations of a list.
pub open spec fn check_decls_s(st: CkState, ds: Seq<VarDecl>, n: nat) -> CkState
    decreases n,
{
    if n > 0 && n <= ds.len() {
        check_var_decl_s(check_decls_s(st, ds, (n - 1) as nat), ds[n - 1])
    } else {
        st
    }
}

/// The first `n` statements of a list.
pub open spec fn check_stmts_s(st: CkState, ss: Seq<Stmt>, n: nat) -> CkState
    decreases ss, n,
{
    if n > 0 && n <= ss.len() {
        check_stmt_s(check_stmts_s(st, ss, (n - 1) as nat), ss[n - 1])
    } else {
        st
    }
}

/// The body of a loop.
pub open spec fn check_loop_body_s(st: CkState, body: Stmt) -> CkState
    decreases body, 10nat,
{
    let saved = st.in_loop;
    let st = CkState { in_loop: true, ..st };
    let st = check_stmt_s(st, body);
    CkState { in_loop: saved, ..st }
}

/// One statement.
pub open spec fn check_stmt_s(st: CkState, stmt: Stmt) -> CkState
    decreases stmt, 9nat,
{
    match stmt {
        Stmt::Expr { expr, .. } => {
            let (st, _) = type_of_s(st, expr);
            st
        },
        Stmt::Empty { .. } => {
            st
        },
        Stmt::Block { stmts, .. } => {
            let st = open_scope_s(st);
            let st = check_stmts_s(st, stmts@, stmts@.len());
            close_scope_s(st)
        },
        Stmt::Decl { decls, .. } => {
            check_decls_s(st, decls@, decls@.len())
        },
        Stmt::If { cond, then_branch, else_branch, .. } => {
            let st = check_condition_s(st, cond);
            let st = check_stmt_s(st, *then_branch);
            match else_branch {
                Some(e) => {
                    check_stmt_s(st, *e)
                },
                None => {
                    st
                },
            }
        },
        Stmt::While { cond, body, .. } => {
            let st = check_condition_s(st, cond);
            check_loop_body_s(st, *body)
        },
        Stmt::DoWhile { body, cond, .. } => {
            let st = check_loop_body_s(st, *body);
            check_condition_s(st, cond)
        },
        Stmt::For { init, cond, step, body, .. } => {
            let st = open_scope_s(st);
            let st = match init {
                Some(i) => {
                    check_stmt_s(st, *i)
                },
                None => {
                    st
                },
            };
            let st = match cond {
                Some(c) => {
                    check_condition_s(st, c)
                },
                None => {
                    st
                },
            };
            let st = match step {
                Some(s) => {
                    let (st, _) = type_of_s(st, s);
                    st
                },
                None => {
                    st
                },
            };
            let st = check_loop_body_s(st, *body);
            close_scope_s(st)
        },
        Stmt::Switch { expr, body, .. } => {
            let (st, t) = type_of_s(st, expr);
            let st = if !(t is Unknown) && !t.integer() {
                err_type_s(
                    st,
                    expr_span(expr),
                    "switch expression must have an integer type"@,
                )
            } else {
                st
            };
            let saved = st.in_switch;
            let st = CkState { in_switch: true, ..st };
            let st = check_stmt_s(st, *body);
            CkState { in_switch: saved, ..st }
        },
        Stmt::Case { value, stmt, .. } => {
            let (st, t) = type_of_s(st, value);
            let st = if !(t is Unknown) && !t.integer() {
                err_type_s(
                    st,
                    expr_span(value),
                    "case label must be an integer constant"@,
                )
            } else {
                st
            };
            check_stmt_s(st, *stmt)
        },
        Stmt::Default { stmt, .. } => {
            check_stmt_s(st, *stmt)
        },
        Stmt::Break { span } => {
            if !st.in_loop && !st.in_switch {
                err_type_s(st, span, "'break' used outside of a loop or switch"@)
            } else {
                st
            }
        },
        Stmt::Continue { span } => {
            if !st.in_loop {
                err_type_s(st, span, "'continue' used outside of a loop"@)
            } else {
                st
            }
        },
        Stmt::Return { expr, span } => {
            let (st, rt) = match expr {
                Some(e) => {
                    type_of_s(st, e)
                },
                None => {
                    (st, TyV::Scalar(ScalarKind::Void))
                },
            };
            let bad = match st.fn_ret {
                Some(fret) => !(fret is Unknown) && !(rt is Unknown) && !fits(fret, rt),
                None => false,
            };
            if bad {
                err_type_s(
                    st,
                    span,
                    "return expression's type does not match the function's declared return type"@,
                )
            } else {
                st
            }
        },
        Stmt::Label { stmt, .. } => {
            check_stmt_s(st, *stmt)
        },
        Stmt::Goto { label, span } => {
            if !st.labels.contains(label@) {
                err_undef_s(st, span, label@)
            } else {
                st
            }
        },
    }
}

/// The fields of a struct or union, the first `n`.
pub open spec fn resolve_fields_s(st: CkState, fs: Seq<FieldDecl>, n: nat) -> (CkState, Seq<FieldV>)
    decreases n,
{
    if n == 0 || n > fs.len() { (st, Seq::empty()) } else {
        let (st, v) = resolve_fields_s(st, fs, (n - 1) as nat);
        let (st, ty) = resolve_type_s(st, fs[n - 1].ty);
        (st, v.push(FieldV { name: fs[n - 1].name@, ty, is_const: const_at_top(fs[n - 1].ty) }))
    }
}

/// A struct declaration.
pub open spec fn check_struct_decl_s(st: CkState, d: StructDecl) -> CkState
{
    let (st, fields) = resolve_fields_s(st, d.fields@, d.fields@.len());
    match d.name {
        Some(name) => {
            let existed = st.scopes.last().structs.contains_key(name@);
            let st = CkState { scopes: with_struct(st.scopes, name@, fields), ..st };
            if existed { err_redef_s(st, d.span, name@) } else { st }
        },
        None => {
            st
        },
    }
}

/// A union declaration.
pub open spec fn check_union_decl_s(st: CkState, d: UnionDecl) -> CkState
{
    let (st, fields) = resolve_fields_s(st, d.fields@, d.fields@.len());
    match d.name {
        Some(name) => {
            let existed = st.scopes.last().unions.contains_key(name@);
            let st = CkState { scopes: with_union(st.scopes, name@, fields), ..st };
            if existed { err_redef_s(st, d.span, name@) } else { st }
        },
        None => {
            st
        },
    }
}

/// The first `n` constants of an enumeration.
pub open spec fn check_variants_s(st: CkState, vs: Seq<EnumVariant>, n: nat, ty: TyV) -> CkState
    decreases n,
{
    let st = if n > 0 && n <= vs.len() {
        let st = check_variants_s(st, vs, (n - 1) as nat, ty);
        let v = vs[n - 1];
        let st = match v.init {
            Some(init) => {
                let (st, it) = type_of_s(st, init);
                if !(it is Unknown) && !it.integer() {
                    err_type_s(st, v.span, "enum initializer must be an integer constant"@)
                } else {
                    st
                }
            },
            None => st,
        };
        declare_s(st, v.span, v.name@, ValueSymV::EnumConst(ty))
    } else { st };
    st
}

/// An enumeration.
pub open spec fn check_enum_decl_s(st: CkState, d: EnumDecl) -> CkState
{
    let (st, enum_ty) = match d.name {
        Some(name) => {
            let existed = st.scopes.last().enums.contains_key(name@);
            let st = CkState { scopes: with_enum(st.scopes, name@), ..st };
            let st = if existed { err_redef_s(st, d.span, name@) } else { st };
            (st, TyV::Enum(name@))
        },
        None => {
            (st, TyV::Scalar(ScalarKind::Int))
        },
    };
    check_variants_s(st, d.variants@, d.variants@.len(), enum_ty)
}

/// A typedef.
pub open spec fn check_typedef_decl_s(st: CkState, d: TypedefDecl) -> CkState
{
    let (st, ty) = resolve_type_s(st, d.ty);
    let existed = st.scopes.last().typedefs.contains_key(d.alias@);
    let st = CkState { scopes: with_typedef(st.scopes, d.alias@, ty), ..st };
    if existed { err_redef_s(st, d.span, d.alias@) } else { st }
}

/// Checks the CUDA qualifiers of a function.
pub open spec fn check_function_cuda_quals_s(st: CkState, f: FunctionDecl, ret: TyV) -> CkState
{
    let q = f.cuda_quals;
    let st = if q.is_shared || q.is_constant {
        err_cuda_s(
            st,
            f.span,
            f.name@,
            "'__shared__'/'__constant__' apply to variables, not functions"@,
        )
    } else {
        st
    };
    let st = if q.is_global && (q.is_device || q.is_host) {
        err_cuda_s(
            st,
            f.span,
            f.name@,
            "'__global__' cannot be combined with '__host__' or '__device__'"@,
        )
    } else {
        st
    };
    if q.is_global && !(ret is Unknown) && !ret.void() {
        err_cuda_s(st, f.span, f.name@, "a '__global__' function must return void"@)
    } else {
        st
    }
}

/// The types of the first `n` parameters.
pub open spec fn resolve_params_s(st: CkState, ps: Seq<ParamDecl>, n: nat) -> (CkState, Seq<TyV>)
    decreases n,
{
    if n == 0 || n > ps.len() { (st, Seq::empty()) } else {
        let (st, v) = resolve_params_s(st, ps, (n - 1) as nat);
        let (st, ty) = resolve_type_s(st, ps[n - 1].ty);
        (st, v.push(ty))
    }
}

/// Declares the first `n` parameters that have a name.
pub open spec fn declare_params_s(st: CkState, ps: Seq<ParamDecl>, tys: Seq<TyV>, n: nat) -> CkState
    decreases n,
{
    let st = if n > 0 && n <= ps.len() {
        let st = declare_params_s(st, ps, tys, (n - 1) as nat);
        if n <= tys.len() {
            match ps[n - 1].name {
                Some(name) => declare_s(
                    st,
                    ps[n - 1].span,
                    name@,
                    ValueSymV::Var(tys[n - 1], const_at_top(ps[n - 1].ty)),
                ),
                None => st,
            }
        } else { st }
    } else { st };
    st
}

/// The body of a function.
pub open spec fn check_function_body_s(
    st: CkState,
    f: FunctionDecl,
    ret: TyV,
    param_tys: Seq<TyV>,
    body: Seq<Stmt>,
) -> CkState
{
    let saved = st;
    let st = CkState {
        fn_ret: Some(ret),
        labels: labels_of(body),
        in_loop: false,
        in_switch: false,
        ..st
    };
    let st = open_scope_s(st);
    let st = if f.cuda_quals.is_global || f.cuda_quals.is_device {
        CkState { scopes: with_device_builtins(st.scopes), ..st }
    } else {
        st
    };
    let st = declare_params_s(st, f.params@, param_tys, f.params@.len());
    let st = check_stmts_s(st, body, body.len());
    let st = close_scope_s(st);
    CkState {
        fn_ret: saved.fn_ret,
        labels: saved.labels,
        in_loop: saved.in_loop,
        in_switch: saved.in_switch,
        ..st
    }
}

/// A function. Its own name is known inside its body.
pub open spec fn check_function_item_s(st: CkState, f: FunctionDecl) -> CkState
{
    let (st, ret) = resolve_type_s(st, f.ret);
    let st = check_function_cuda_quals_s(st, f, ret);
    let (st, param_tys) = resolve_params_s(st, f.params@, f.params@.len());
    let st = declare_s(
        st,
        f.span,
        f.name@,
        ValueSymV::Func(FuncSigV {
            ret,
            params: param_tys,
            variadic: f.variadic,
            is_kernel: f.cuda_quals.is_global,
        }),
    );
    match f.body {
        Some(body) => {
            check_function_body_s(st, f, ret, param_tys, body@)
        },
        None => {
            st
        },
    }
}

/// The first `n` items of a list.
pub open spec fn check_items_s(st: CkState, items: Seq<Item>, n: nat) -> CkState
    decreases items, n,
{
    if n > 0 && n <= items.len() {
        check_item_s(check_items_s(st, items, (n - 1) as nat), items[n - 1])
    } else {
        st
    }
}

/// One item.
pub open spec fn check_item_s(st: CkState, item: Item) -> CkState
    decreases item, 9nat,
{
    match item {
        Item::Struct(d) => {
            check_struct_decl_s(st, d)
        },
        Item::Union(d) => {
            check_union_decl_s(st, d)
        },
        Item::Enum(d) => {
            check_enum_decl_s(st, d)
        },
        Item::Typedef(d) => {
            check_typedef_decl_s(st, d)
        },
        Item::Namespace(ns) => {
            let st = open_scope_s(st);
            let st = check_items_s(st, ns.items@, ns.items@.len());
            close_scope_s(st)
        },
        Item::Function(f) => {
            check_function_item_s(st, f)
        },
        Item::Var(v) => {
            check_var_decl_s(st, v)
        },
        Item::Template(_) => {
            st
        },
    }
}

/// The diagnostics of a translation unit.
pub open spec fn diagnostics(tu: TranslationUnit) -> Seq<DiagV> {
    check_items_s(
        CkState {
            scopes: with_runtime_api(Seq::empty().push(empty_scope())),
            diags: Seq::empty(),
            fn_ret: None,
            labels: Seq::empty(),
            in_loop: false,
            in_switch: false,
        },
        tu.items@,
        tu.items@.len(),
    ).diags
}

struct Checker {
    scopes: ScopeStack,
    diags: Vec<Diag>,
    current_fn_ret: Option<Ty>,
    current_fn_labels: Vec<String>,
    in_loop: bool,
    in_switch: bool,
}

impl Checker {
    spec fn st(&self) -> CkState {
        CkState {
            scopes: self.scopes@,
            diags: diags_view(self.diags@),
            fn_ret: opt_ty(self.current_fn_ret),
            labels: names_view(self.current_fn_labels@),
            in_loop: self.in_loop,
            in_switch: self.in_switch,
        }
    }

    fn report(&mut self, code: ECode, span: Span, msg: &str)
        ensures
            final(self).st() == (CkState {
                diags: old(self).st().diags.push(diag1(code, span, msg@)),
                ..old(self).st()
            }),
            final(self).scopes@ == old(self).scopes@,
    {
        let d = Diag::new(code).with_span(span).with_arg(msg);
        assert(d@.args =~= seq![msg@]);
        push_diag(&mut self.diags, d);
    }

    fn err_type(&mut self, span: Span, msg: &str)
        ensures
            final(self).st() == err_type_s(old(self).st(), span, msg@),
            final(self).scopes@ == old(self).scopes@,
    {
        self.report(ECode::TypeError, span, msg);
    }

    fn err_undef(&mut self, span: Span, name: &str)
        ensures
            final(self).st() == err_undef_s(old(self).st(), span, name@),
            final(self).scopes@ == old(self).scopes@,
    {
        self.report(ECode::UndefinedSymbol, span, name);
    }

    fn err_redef(&mut self, span: Span, name: &str)
        ensures
            final(self).st() == err_redef_s(old(self).st(), span, name@),
            final(self).scopes@ == old(self).scopes@,
    {
        self.report(ECode::Redefinition, span, name);
    }

    fn err_const(&mut self, span: Span)
        ensures
            final(self).st() == err_const_s(old(self).st(), span),
            final(self).scopes@ == old(self).scopes@,
    {
        self.report(ECode::ConstViolation, span, "cannot modify a const-qualified value");
    }

    fn err_cuda(&mut self, span: Span, name: &str, detail: &str)
        ensures
            final(self).st() == err_cuda_s(old(self).st(), span, name@, detail@),
            final(self).scopes@ == old(self).scopes@,
    {
        let d = Diag::new(ECode::InvalidCudaQualifier).with_span(span).with_arg(name).with_arg(
            detail,
        );
        assert(d@.args =~= seq![name@, detail@]);
        push_diag(&mut self.diags, d);
    }

    fn open_scope(&mut self)
        ensures
            final(self).st() == open_scope_s(old(self).st()),
            final(self).scopes@.len() == old(self).scopes@.len() + 1,
    {
        self.scopes.push();
    }

    fn close_scope(&mut self)
        requires
            old(self).scopes@.len() > 0,
        ensures
            final(self).st() == close_scope_s(old(self).st()),
            final(self).scopes@.len() == old(self).scopes@.len() - 1,
    {
        self.scopes.pop();
    }

    fn declare(&mut self, span: Span, name: &str, sym: ValueSym)
        requires
            old(self).scopes@.len() > 0,
        ensures
            final(self).st() == declare_s(old(self).st(), span, name@, sym@),
            final(self).scopes@.len() == old(self).scopes@.len(),
    {
        if self.scopes.declare_value(name, sym) {
            self.err_redef(span, name);
        }
    }

    /// The type of an expression.
    fn type_of(&mut self, e: &Expr) -> (r: Ty)
        requires
            old(self).scopes@.len() > 0,
        ensures
            final(self).scopes@.len() == old(self).scopes@.len(),
            final(self).st() == type_of_s(old(self).st(), *e).0,
            r@ == type_of_s(old(self).st(), *e).1,
        decreases e, 9nat,
    {
        let (t, _) = self.typed(e);
        t
    }

    /// Checks a condition.
    fn check_condition(&mut self, cond: &Expr)
        requires
            old(self).scopes@.len() > 0,
        ensures
            final(self).scopes@.len() == old(self).scopes@.len(),
            final(self).st() == check_condition_s(old(self).st(), *cond),
        decreases cond, 10nat,
    {
        let t = self.type_of(cond);
        if !t.is_unknown() && !t.is_scalar_condition() {
            self.err_type(cond.span(), "condition must have a scalar (arithmetic or pointer) type");
        }
    }

    /// The type that a tag stands for.
    fn resolve_tag(&mut self, kind: TagKind, name: &str, span: Span) -> (r: Ty)
        requires
            old(self).scopes@.len() > 0,
        ensures
            final(self).scopes@.len() == old(self).scopes@.len(),
            final(self).st() == resolve_tag_s(old(self).st(), kind, name@, span).0,
            r@ == resolve_tag_s(old(self).st(), kind, name@, span).1,
    {
        if name.is_empty() { return Ty::Unknown; }
        match kind {
            TagKind::Struct => {
                if self.scopes.lookup_struct(name).is_some() {
                    Ty::Struct(name.to_owned())
                } else {
                    self.err_undef(span, name);
                    Ty::Unknown
                }
            },
            TagKind::Union => {
                if self.scopes.lookup_union(name).is_some() {
                    Ty::Union(name.to_owned())
                } else {
                    self.err_undef(span, name);
                    Ty::Unknown
                }
            },
            TagKind::Enum => {
                if self.scopes.lookup_enum(name).is_some() {
                    Ty::Enum(name.to_owned())
                } else {
                    self.err_undef(span, name);
                    Ty::Unknown
                }
            },
        }
    }

    /// The type that a bare name stands for: a typedef, else a struct, a union or an enum.
    fn resolve_named(&mut self, name: &str, span: Span) -> (r: Ty)
        requires
            old(self).scopes@.len() > 0,
        ensures
            final(self).scopes@.len() == old(self).scopes@.len(),
            final(self).st() == resolve_named_s(old(self).st(), name@, span).0,
            r@ == resolve_named_s(old(self).st(), name@, span).1,
    {
        if let Some(t) = self.scopes.lookup_typedef(name) { return t.copy(); }
        if self.scopes.lookup_struct(name).is_some() {
            Ty::Struct(name.to_owned())
        } else if self.scopes.lookup_union(name).is_some() {
            Ty::Union(name.to_owned())
        } else if self.scopes.lookup_enum(name).is_some() {
            Ty::Enum(name.to_owned())
        } else {
            self.err_undef(span, name);
            Ty::Unknown
        }
    }

    /// The type that a declared type stands for.
    fn resolve_type(&mut self, ty: &Type) -> (r: Ty)
        requires
            old(self).scopes@.len() > 0,
        ensures
            final(self).scopes@.len() == old(self).scopes@.len(),
            final(self).st() == resolve_type_s(old(self).st(), *ty).0,
            r@ == resolve_type_s(old(self).st(), *ty).1,
        decreases ty, 9nat,
    {
        match ty {
            Type::Scalar { kind, .. } => {
                Ty::Scalar(*kind)
            },
            Type::Tag { kind, name, span, .. } => {
                self.resolve_tag(*kind, name.as_str(), *span)
            },
            Type::Named { name, span, .. } => {
                self.resolve_named(name.as_str(), *span)
            },
            Type::Pointer { pointee, .. } => {
                let p = self.resolve_type(&**pointee);
                Ty::Pointer(Box::new(p), top_level_const(&**pointee))
            },
            Type::Array { elem, size, .. } => {
                match size {
                    Some(sz) => {
                        self.type_of(&**sz);
                    },
                    None => {},
                };
                let e = self.resolve_type(&**elem);
                Ty::Array(Box::new(e))
            },
            Type::Instantiated { .. } => {
                Ty::Unknown
            },
        }
    }

    /// The type of a binary operation.
    fn check_binary(&mut self, op: BinOp, l: &Ty, r2: &Ty, span: Span) -> (r: Ty)
        requires
            old(self).scopes@.len() > 0,
        ensures
            final(self).scopes@.len() == old(self).scopes@.len(),
            final(self).st() == check_binary_s(old(self).st(), op, l@, r2@, span).0,
            r@ == check_binary_s(old(self).st(), op, l@, r2@, span).1,
    {
        let unknown_operand = l.is_unknown() || r2.is_unknown();
        match op {
            BinOp::LogOr | BinOp::LogAnd => {
                if !(unknown_operand || (l.is_scalar_condition() && r2.is_scalar_condition())) {
                    self.err_type(span, "operands of a logical operator must be scalar");
                };
                Ty::Scalar(ScalarKind::Int)
            },
            BinOp::Eq | BinOp::Ne | BinOp::Lt | BinOp::Gt | BinOp::Le | BinOp::Ge => {
                if !unknown_operand && !comparable(l, r2) {
                    self.err_type(span, "comparison between incompatible types");
                };
                Ty::Scalar(ScalarKind::Int)
            },
            BinOp::BitOr | BinOp::BitXor | BinOp::BitAnd | BinOp::Shl | BinOp::Shr => {
                if !(unknown_operand || (l.is_integer() && r2.is_integer())) {
                    self.err_type(span, "operands of a bitwise operator must be integers");
                };
                if unknown_operand {
                    Ty::Unknown
                } else {
                    promote(l, r2)
                }
            },
            BinOp::Add => {
                if l.is_pointer_like() && r2.is_integer() {
                    decay(l)
                } else if r2.is_pointer_like() && l.is_integer() {
                    decay(r2)
                } else if l.is_arithmetic() && r2.is_arithmetic() {
                    promote(l, r2)
                } else if unknown_operand {
                    Ty::Unknown
                } else {
                    self.err_type(span, "invalid operand types for '+'");
                    Ty::Unknown
                }
            },
            BinOp::Sub => {
                if l.is_pointer_like() && r2.is_pointer_like() {
                    Ty::Scalar(ScalarKind::Long)
                } else if l.is_pointer_like() && r2.is_integer() {
                    decay(l)
                } else if l.is_arithmetic() && r2.is_arithmetic() {
                    promote(l, r2)
                } else if unknown_operand {
                    Ty::Unknown
                } else {
                    self.err_type(span, "invalid operand types for '-'");
                    Ty::Unknown
                }
            },
            BinOp::Mul | BinOp::Div => {
                if unknown_operand {
                    Ty::Unknown
                } else if !(l.is_arithmetic() && r2.is_arithmetic()) {
                    self.err_type(span, "operands of an arithmetic operator must be numeric");
                    Ty::Unknown
                } else {
                    promote(l, r2)
                }
            },
            BinOp::Rem => {
                if unknown_operand {
                    Ty::Unknown
                } else if !(l.is_integer() && r2.is_integer()) {
                    self.err_type(span, "operands of '%' must be integers");
                    Ty::Unknown
                } else {
                    promote(l, r2)
                }
            },
        }
    }

    /// The type of a unary operation, and whether what it names is `const`.
    fn check_unary(&mut self, op: UnaryOp, expr: &Expr, span: Span) -> (r: (Ty, bool))
        requires
            old(self).scopes@.len() > 0,
        ensures
            final(self).scopes@.len() == old(self).scopes@.len(),
            final(self).st() == check_unary_s(old(self).st(), op, *expr, span).0,
            (r.0@, r.1) == check_unary_s(old(self).st(), op, *expr, span).1,
        decreases expr, 9nat,
    {
        let (t, c) = self.typed(expr);
        match op {
            UnaryOp::Plus | UnaryOp::Neg => {
                if !t.is_unknown() && !t.is_arithmetic() {
                    self.err_type(span, "operand of a unary '+'/'-' must have an arithmetic type");
                };
                (t, false)
            },
            UnaryOp::Not => {
                if !t.is_unknown() && !t.is_scalar_condition() {
                    self.err_type(span, "operand of '!' must be scalar");
                };
                (Ty::Scalar(ScalarKind::Int), false)
            },
            UnaryOp::BitNot => {
                if !t.is_unknown() && !t.is_integer() {
                    self.err_type(span, "operand of '~' must have an integer type");
                };
                (t, false)
            },
            UnaryOp::Deref => {
                if t.is_unknown() {
                    (Ty::Unknown, false)
                } else {
                    match t.deref_target() {
                        Some(inner) => {
                            (inner, reached_const(&t, c))
                        },
                        None => {
                            self.err_type(span, "cannot dereference a non-pointer type");
                            (Ty::Unknown, false)
                        },
                    }
                }
            },
            UnaryOp::Addr => {
                if !is_lvalue(expr) {
                    self.err_type(span, "cannot take the address of a non-lvalue expression");
                };
                if t.is_unknown() {
                    (Ty::Unknown, false)
                } else {
                    (Ty::Pointer(Box::new(t), c), false)
                }
            },
        }
    }

    /// The type of an increment or decrement.
    fn check_incdec(&mut self, inner: &Expr, span: Span) -> (r: Ty)
        requires
            old(self).scopes@.len() > 0,
        ensures
            final(self).scopes@.len() == old(self).scopes@.len(),
            final(self).st() == check_incdec_s(old(self).st(), *inner, span).0,
            r@ == check_incdec_s(old(self).st(), *inner, span).1,
        decreases inner, 9nat,
    {
        let (t, _) = self.typed(inner);
        if !is_lvalue(inner) {
            self.err_type(span, "operand of increment/decrement must be an lvalue");
        };
        if !(t.is_unknown() || t.is_arithmetic() || t.is_pointer()) {
            self.err_type(span, "operand of increment/decrement must be arithmetic or pointer");
        };
        t
    }

    /// The type of an assignment.
    fn check_assign(&mut self, e: &Expr) -> (r: Ty)
        requires
            old(self).scopes@.len() > 0,
        ensures
            final(self).scopes@.len() == old(self).scopes@.len(),
            final(self).st() == check_assign_s(old(self).st(), *e).0,
            r@ == check_assign_s(old(self).st(), *e).1,
        decreases e, 7nat,
    {
        match e {
            Expr::Assign { op, lhs, rhs, span } => {
                let (lhs_ty, c) = self.typed(&**lhs);
                let rhs_ty = self.type_of(&**rhs);
                if !(is_lvalue(&**lhs) && !matches!(lhs_ty, Ty::Array(_) | Ty::Function { .. })) {
                    self.err_type((&**lhs).span(), "assignment target is not a modifiable lvalue");
                };
                if c {
                    self.err_const((&**lhs).span());
                };
                if *op == AssignOp::Assign {
                    if !lhs_ty.is_unknown() && !rhs_ty.is_unknown() && !assignable(&lhs_ty, &rhs_ty) {
                        self.err_type(*span, "incompatible types in assignment");
                    };
                } else {
                    let bin = compound_binop(*op);
                    let result = self.check_binary(bin, &lhs_ty, &rhs_ty, *span);
                    if !lhs_ty.is_unknown() && !result.is_unknown() && !assignable(&lhs_ty, &result) {
                        self.err_type(*span, "incompatible types in compound assignment");
                    };
                };
                lhs_ty
            },
            _ => {
                Ty::Unknown
            },
        }
    }

    /// The type of a conditional expression.
    fn check_ternary(&mut self, e: &Expr) -> (r: Ty)
        requires
            old(self).scopes@.len() > 0,
        ensures
            final(self).scopes@.len() == old(self).scopes@.len(),
            final(self).st() == check_ternary_s(old(self).st(), *e).0,
            r@ == check_ternary_s(old(self).st(), *e).1,
        decreases e, 7nat,
    {
        match e {
            Expr::Ternary { cond, then_branch, else_branch, span } => {
                self.check_condition(&**cond);
                let tt = self.type_of(&**then_branch);
                let et = self.type_of(&**else_branch);
                if tt.is_unknown() {
                    et
                } else if assignable(&tt, &et) {
                    tt
                } else if assignable(&et, &tt) {
                    et
                } else {
                    self.err_type(
                        *span,
                        "incompatible types in the two branches of a ternary expression",
                    );
                    Ty::Unknown
                }
            },
            _ => {
                Ty::Unknown
            },
        }
    }

    /// Checks the arguments of a call from index `i` on against the parameters.
    fn check_args(&mut self, name: &str, sig: &FuncSig, args: &Vec<Expr>, i: usize)
        requires
            old(self).scopes@.len() > 0,
            i <= args@.len(),
        ensures
            final(self).scopes@.len() == old(self).scopes@.len(),
            final(self).st() == check_args_s(old(self).st(), name@, sig@, args@, i as nat),
        decreases args, args@.len() - i,
    {
        if i < args.len() {
            let at = self.type_of(&args[i]);
            proof { lemma_tys_take(sig.params@, sig.params@.len()); }
            if i < sig.params.len() {
                let pt = &sig.params[i];
                if !at.is_unknown() && !pt.is_unknown() && !assignable(pt, &at) {
                    let msg = "argument ".to_owned().concat(to_decimal(i as u64
                        + 1).as_str()).concat(" to '").concat(name).concat("' has an incompatible type");
                    self.err_type(args[i].span(), msg.as_str());
                }
            }
            self.check_args(name, sig, args, i + 1);
        }
    }

    /// Checks the number of arguments, then each of them.
    fn check_signature(&mut self, name: &str, sig: &FuncSig, args: &Vec<Expr>, span: Span)
        requires
            old(self).scopes@.len() > 0,
        ensures
            final(self).scopes@.len() == old(self).scopes@.len(),
            final(self).st() == check_signature_s(old(self).st(), name@, sig@, args@, span),
        decreases args, args@.len() + 1,
    {
        proof { lemma_tys_take(sig.params@, sig.params@.len()); }
        if args.len() < sig.params.len() || (!sig.variadic && args.len() > sig.params.len()) {
            let msg = "call to '".to_owned().concat(name).concat("' expects ").concat(to_decimal(sig.params.len() as u64).as_str()).concat(" argument(s), got ").concat(to_decimal(args.len() as u64).as_str());
            self.err_type(span, msg.as_str());
        }
        self.check_args(name, sig, args, 0);
    }

    /// The types of a list of expressions from index `i` on.
    fn check_list(&mut self, es: &Vec<Expr>, i: usize)
        requires
            old(self).scopes@.len() > 0,
            i <= es@.len(),
        ensures
            final(self).scopes@.len() == old(self).scopes@.len(),
            final(self).st() == check_list_s(old(self).st(), es@, i as nat),
        decreases es, es@.len() - i,
    {
        if i < es.len() {
            self.type_of(&es[i]);
            self.check_list(es, i + 1);
        }
    }

    /// The type of the last of a list of expressions, after the others; of the first `n`.
    fn check_comma(&mut self, es: &Vec<Expr>, n: usize) -> (r: Ty)
        requires
            old(self).scopes@.len() > 0,
            n <= es@.len(),
        ensures
            final(self).scopes@.len() == old(self).scopes@.len(),
            final(self).st() == check_comma_s(old(self).st(), es@, n as nat).0,
            r@ == check_comma_s(old(self).st(), es@, n as nat).1,
        decreases es, n,
    {
        if n == 0 { return Ty::Unknown; }
        self.check_comma(es, n - 1);
        self.type_of(&es[n - 1])
    }

    /// The type of a call.
    fn check_call(&mut self, e: &Expr) -> (r: Ty)
        requires
            old(self).scopes@.len() > 0,
        ensures
            final(self).scopes@.len() == old(self).scopes@.len(),
            final(self).st() == check_call_s(old(self).st(), *e).0,
            r@ == check_call_s(old(self).st(), *e).1,
        decreases e, 7nat,
    {
        match e {
            Expr::Call { callee, args, span } => {
                match &**callee {
                    Expr::Ident { name, span: ident_span } => {
                        let found = match self.scopes.lookup_value(name.as_str()) {
                            Some(ValueSym::Func(sig)) => Some(Some(sig.copy())),
                            Some(_) => Some(None),
                            None => None,
                        };
                        match found {
                            Some(Some(sig)) => {
                                self.check_signature(name.as_str(), &sig, args, *span);
                                sig.ret
                            },
                            Some(None) => {
                                let msg = "'".to_owned().concat(name.as_str()).concat("' is not a function");
                                self.err_type(*ident_span, msg.as_str());
                                self.check_list(args, 0);
                                Ty::Unknown
                            },
                            None => {
                                self.err_undef(*ident_span, name.as_str());
                                self.check_list(args, 0);
                                Ty::Unknown
                            },
                        }
                    },
                    other => {
                        self.type_of(other);
                        self.check_list(args, 0);
                        Ty::Unknown
                    },
                }
            },
            _ => {
                Ty::Unknown
            },
        }
    }

    /// Checks the extent of a launch: an integer or three of them.
    fn check_launch_config_dim(&mut self, e: &Expr)
        requires
            old(self).scopes@.len() > 0,
        ensures
            final(self).scopes@.len() == old(self).scopes@.len(),
            final(self).st() == check_launch_config_dim_s(old(self).st(), *e),
        decreases e, 10nat,
    {
        let t = self.type_of(e);
        if !t.is_unknown() && !t.is_integer() && !is_dim3(&t) {
            self.err_type(e.span(), "launch configuration must be an integer or dim3");
        }
    }

    /// The type of a kernel launch.
    fn check_launch(&mut self, e: &Expr) -> (r: Ty)
        requires
            old(self).scopes@.len() > 0,
        ensures
            final(self).scopes@.len() == old(self).scopes@.len(),
            final(self).st() == check_launch_s(old(self).st(), *e).0,
            r@ == check_launch_s(old(self).st(), *e).1,
        decreases e, 7nat,
    {
        match e {
            Expr::KernelLaunch { kernel, grid, block, shared, stream, args, span } => {
                self.check_launch_config_dim(&**grid);
                self.check_launch_config_dim(&**block);
                match shared {
                    Some(x) => {
                        let t = self.type_of(&**x);
                        if !t.is_unknown() && !t.is_integer() {
                            self.err_type((&**x).span(), "shared memory size must be an integer");
                        };
                    },
                    None => {},
                };
                match stream {
                    Some(x) => {
                        let t = self.type_of(&**x);
                        if !t.is_unknown() && !t.is_pointer_like() && !t.is_integer() {
                            self.err_type((&**x).span(), "stream must be a pointer");
                        };
                    },
                    None => {},
                };
                match &**kernel {
                    Expr::Ident { name, span: ident_span } => {
                        let found = match self.scopes.lookup_value(name.as_str()) {
                            Some(ValueSym::Func(sig)) => Some(Some(sig.copy())),
                            Some(_) => Some(None),
                            None => None,
                        };
                        match found {
                            Some(Some(sig)) => {
                                if !sig.is_kernel {
                                    self.err_type(
                                        *ident_span,
                                        "launch target must be a '__global__' function",
                                    );
                                };
                                self.check_signature(name.as_str(), &sig, args, *span);
                            },
                            Some(None) => {
                                self.err_type(
                                    *ident_span,
                                    "launch target must be a '__global__' function",
                                );
                                self.check_list(args, 0);
                            },
                            None => {
                                self.err_undef(*ident_span, name.as_str());
                                self.check_list(args, 0);
                            },
                        };
                    },
                    other => {
                        self.type_of(other);
                        self.err_type(*span, "launch target must be a '__global__' function");
                        self.check_list(args, 0);
                    },
                };
                Ty::Scalar(ScalarKind::Void)
            },
            _ => {
                Ty::Unknown
            },
        }
    }

    /// The type of an element, and whether it is `const`.
    fn check_index(&mut self, e: &Expr) -> (r: (Ty, bool))
        requires
            old(self).scopes@.len() > 0,
        ensures
            final(self).scopes@.len() == old(self).scopes@.len(),
            final(self).st() == check_index_s(old(self).st(), *e).0,
            (r.0@, r.1) == check_index_s(old(self).st(), *e).1,
        decreases e, 7nat,
    {
        match e {
            Expr::Index { base, index, span } => {
                let (bt, c) = self.typed(&**base);
                let it = self.type_of(&**index);
                if !it.is_unknown() && !it.is_integer() {
                    self.err_type((&**index).span(), "array index must have an integer type");
                };
                if bt.is_unknown() {
                    (Ty::Unknown, false)
                } else {
                    match bt.deref_target() {
                        Some(elem) => {
                            (elem, reached_const(&bt, c))
                        },
                        None => {
                            self.err_type(*span, "indexed value is not an array or pointer");
                            (Ty::Unknown, false)
                        },
                    }
                }
            },
            _ => {
                (Ty::Unknown, false)
            },
        }
    }

    /// The type of a member of `target`, and whether it is `const`, given that of the whole.
    fn member_of(
        &mut self,
        target: &Ty,
        name: &str,
        whole_const: bool,
        span: Span,
    ) -> (r: (Ty, bool))
        requires
            old(self).scopes@.len() > 0,
        ensures
            final(self).scopes@.len() == old(self).scopes@.len(),
            final(self).st() == member_of_s(old(self).st(), target@, name@, whole_const, span).0,
            (r.0@, r.1) == member_of_s(old(self).st(), target@, name@, whole_const, span).1,
    {
        if target.is_unknown() {
            (Ty::Unknown, false)
        } else if !matches!(target, Ty::Struct(_) | Ty::Union(_)) {
            self.err_type(span, "member access on a non-struct/union type");
            (Ty::Unknown, false)
        } else {
            match lookup_field(&self.scopes, target, name) {
                Some((ty, c)) => (ty, c || whole_const),
                None => { self.err_undef(span, name); (Ty::Unknown, false) },
            }
        }
    }

    /// The type of a member access, and whether what it names is `const`.
    fn check_member(&mut self, e: &Expr) -> (r: (Ty, bool))
        requires
            old(self).scopes@.len() > 0,
        ensures
            final(self).scopes@.len() == old(self).scopes@.len(),
            final(self).st() == check_member_s(old(self).st(), *e).0,
            (r.0@, r.1) == check_member_s(old(self).st(), *e).1,
        decreases e, 7nat,
    {
        match e {
            Expr::Member { base, name, arrow, span } => {
                let (bt, c) = self.typed(&**base);
                if bt.is_unknown() {
                    (Ty::Unknown, false)
                } else if *arrow {
                    match bt.deref_target() {
                        Some(inner) => {
                            self.member_of(&inner, name.as_str(), reached_const(&bt, c), *span)
                        },
                        None => {
                            self.err_type(*span, "'->' used on a non-pointer type");
                            (Ty::Unknown, false)
                        },
                    }
                } else if bt.is_pointer() {
                    self.err_type(*span, "'.' used on a pointer type; did you mean '->'");
                    (Ty::Unknown, false)
                } else {
                    self.member_of(&bt, name.as_str(), c, *span)
                }
            },
            _ => {
                (Ty::Unknown, false)
            },
        }
    }

    /// The type of an identifier, and whether it is `const`.
    fn check_ident(&mut self, name: &str, span: Span) -> (r: (Ty, bool))
        requires
            old(self).scopes@.len() > 0,
        ensures
            final(self).scopes@.len() == old(self).scopes@.len(),
            final(self).st() == check_ident_s(old(self).st(), name@, span).0,
            (r.0@, r.1) == check_ident_s(old(self).st(), name@, span).1,
    {
        let found = match self.scopes.lookup_value(name) {
            Some(ValueSym::Var(t, c)) => Some((t.copy(), *c)),
            Some(ValueSym::EnumConst(t)) => Some((t.copy(), false)),
            Some(ValueSym::Func(sig)) => Some((
                Ty::Function {
                    ret: Box::new(sig.ret.copy()),
                    params: Ty::copy_all(&sig.params, sig.params.len()),
                    variadic: sig.variadic,
                },
                false,
            )),
            None => None,
        };
        match found {
            Some(p) => p,
            None => { self.err_undef(span, name); (Ty::Unknown, false) },
        }
    }

    /// The type of an expression, and whether it names something `const`.
    fn typed(&mut self, e: &Expr) -> (r: (Ty, bool))
        requires
            old(self).scopes@.len() > 0,
        ensures
            final(self).scopes@.len() == old(self).scopes@.len(),
            final(self).st() == typed_s(old(self).st(), *e).0,
            (r.0@, r.1) == typed_s(old(self).st(), *e).1,
        decreases e, 8nat,
    {
        match e {
            Expr::IntLit { value, .. } => {
                (int_lit_ty(value), false)
            },
            Expr::FloatLit { value, .. } => {
                (float_lit_ty(value), false)
            },
            Expr::CharLit { .. } => {
                (Ty::Scalar(ScalarKind::Char), false)
            },
            Expr::StrLit { .. } => {
                proof { reveal_with_fuel(ty_view, 3); }
                (Ty::Pointer(Box::new(Ty::Scalar(ScalarKind::Char)), true), false)
            },
            Expr::Ident { name, span } => {
                self.check_ident(name.as_str(), *span)
            },
            Expr::Comma { exprs, .. } => {
                let t = self.check_comma(exprs, exprs.len());
                (t, false)
            },
            Expr::Assign { .. } => {
                let t = self.check_assign(e);
                (t, false)
            },
            Expr::Ternary { .. } => {
                let t = self.check_ternary(e);
                (t, false)
            },
            Expr::Binary { op, lhs, rhs, span } => {
                let l = self.type_of(&**lhs);
                let r2 = self.type_of(&**rhs);
                let t = self.check_binary(*op, &l, &r2, *span);
                (t, false)
            },
            Expr::Cast { ty, expr, .. } => {
                self.type_of(&**expr);
                let t = self.resolve_type(ty);
                (t, false)
            },
            Expr::Unary { op, expr, span } => {
                self.check_unary(*op, &**expr, *span)
            },
            Expr::PreIncDec { expr, span, .. } | Expr::PostIncDec { expr, span, .. } => {
                let t = self.check_incdec(&**expr, *span);
                (t, false)
            },
            Expr::SizeofExpr { expr, .. } => {
                self.type_of(&**expr);
                (Ty::Scalar(ScalarKind::ULong), false)
            },
            Expr::SizeofType { ty, .. } => {
                self.resolve_type(ty);
                (Ty::Scalar(ScalarKind::ULong), false)
            },
            Expr::Call { .. } => {
                let t = self.check_call(e);
                (t, false)
            },
            Expr::KernelLaunch { .. } => {
                let t = self.check_launch(e);
                (t, false)
            },
            Expr::Index { .. } => {
                self.check_index(e)
            },
            Expr::Member { .. } => {
                self.check_member(e)
            },
            Expr::Error { .. } => {
                (Ty::Unknown, false)
            },
        }
    }

    /// Checks the CUDA qualifiers of a variable.
    fn check_var_cuda_quals(&mut self, v: &VarDecl)
        requires
            old(self).scopes@.len() > 0,
        ensures
            final(self).scopes@.len() == old(self).scopes@.len(),
            final(self).st() == check_var_cuda_quals_s(old(self).st(), *v),
    {
        let q = v.cuda_quals;
        if q.is_global || q.is_host {
            self.err_cuda(
                v.span,
                v.name.as_str(),
                "'__global__'/'__host__' apply to functions, not variables",
            );
        }
        if (q.is_shared && q.is_constant) || (q.is_shared && q.is_device) || (q.is_constant
            && q.is_device) {
            self.err_cuda(
                v.span,
                v.name.as_str(),
                "a variable cannot combine more than one of '__shared__'/'__constant__'/'__device__'",
            );
        }
    }

    /// A variable declaration.
    fn check_var_decl(&mut self, v: &VarDecl)
        requires
            old(self).scopes@.len() > 0,
        ensures
            final(self).scopes@.len() == old(self).scopes@.len(),
            final(self).st() == check_var_decl_s(old(self).st(), *v),
    {
        self.check_var_cuda_quals(v);
        let ty = self.resolve_type(&v.ty);
        match &v.init {
            Some(init) => {
                let it = self.type_of(init);
                if !ty.is_unknown() && !it.is_unknown() && !assignable(&ty, &it) {
                    let msg = "cannot initialize '".to_owned().concat(v.name.as_str()).concat("' with this expression's type");
                    self.err_type(v.span, msg.as_str());
                };
            },
            None => {},
        };
        self.declare(v.span, v.name.as_str(), ValueSym::Var(ty, top_level_const(&v.ty)));
    }

    /// The first `n` declarations of a list.
    fn check_decls(&mut self, ds: &Vec<VarDecl>, n: usize)
        requires
            old(self).scopes@.len() > 0,
            n <= ds@.len(),
        ensures
            final(self).scopes@.len() == old(self).scopes@.len(),
            final(self).st() == check_decls_s(old(self).st(), ds@, n as nat),
        decreases n,
    {
        if n > 0 {
            self.check_decls(ds, n - 1);
            self.check_var_decl(&ds[n - 1]);
        }
    }

    /// The first `n` statements of a list.
    fn check_stmts(&mut self, ss: &Vec<Stmt>, n: usize)
        requires
            old(self).scopes@.len() > 0,
            n <= ss@.len(),
        ensures
            final(self).scopes@.len() == old(self).scopes@.len(),
            final(self).st() == check_stmts_s(old(self).st(), ss@, n as nat),
        decreases ss, n,
    {
        if n > 0 {
            self.check_stmts(ss, n - 1);
            self.check_stmt(&ss[n - 1]);
        }
    }

    /// The body of a loop.
    fn check_loop_body(&mut self, body: &Stmt)
        requires
            old(self).scopes@.len() > 0,
        ensures
            final(self).scopes@.len() == old(self).scopes@.len(),
            final(self).st() == check_loop_body_s(old(self).st(), *body),
        decreases body, 10nat,
    {
        let saved = self.in_loop;
        self.in_loop = true;
        self.check_stmt(body);
        self.in_loop = saved;
    }

    /// One statement.
    fn check_stmt(&mut self, stmt: &Stmt)
        requires
            old(self).scopes@.len() > 0,
        ensures
            final(self).scopes@.len() == old(self).scopes@.len(),
            final(self).st() == check_stmt_s(old(self).st(), *stmt),
        decreases stmt, 9nat,
    {
        match stmt {
            Stmt::Expr { expr, .. } => {
                self.type_of(expr);
            },
            Stmt::Empty { .. } => {},
            Stmt::Block { stmts, .. } => {
                self.open_scope();
                self.check_stmts(stmts, stmts.len());
                self.close_scope();
            },
            Stmt::Decl { decls, .. } => {
                self.check_decls(decls, decls.len());
            },
            Stmt::If { cond, then_branch, else_branch, .. } => {
                self.check_condition(cond);
                self.check_stmt(&**then_branch);
                match else_branch {
                    Some(e) => {
                        self.check_stmt(&**e);
                    },
                    None => {},
                }
            },
            Stmt::While { cond, body, .. } => {
                self.check_condition(cond);
                self.check_loop_body(&**body);
            },
            Stmt::DoWhile { body, cond, .. } => {
                self.check_loop_body(&**body);
                self.check_condition(cond);
            },
            Stmt::For { init, cond, step, body, .. } => {
                self.open_scope();
                match init {
                    Some(i) => {
                        self.check_stmt(&**i);
                    },
                    None => {},
                }
                match cond {
                    Some(c) => {
                        self.check_condition(c);
                    },
                    None => {},
                }
                match step {
                    Some(s) => {
                        self.type_of(s);
                    },
                    None => {},
                }
                self.check_loop_body(&**body);
                self.close_scope();
            },
            Stmt::Switch { expr, body, .. } => {
                let t = self.type_of(expr);
                if !t.is_unknown() && !t.is_integer() {
                    self.err_type(expr.span(), "switch expression must have an integer type");
                }
                let saved = self.in_switch;
                self.in_switch = true;
                self.check_stmt(&**body);
                self.in_switch = saved;
            },
            Stmt::Case { value, stmt, .. } => {
                let t = self.type_of(value);
                if !t.is_unknown() && !t.is_integer() {
                    self.err_type(value.span(), "case label must be an integer constant");
                }
                self.check_stmt(&**stmt);
            },
            Stmt::Default { stmt, .. } => {
                self.check_stmt(&**stmt);
            },
            Stmt::Break { span } => {
                if !self.in_loop && !self.in_switch {
                    self.err_type(*span, "'break' used outside of a loop or switch");
                }
            },
            Stmt::Continue { span } => {
                if !self.in_loop {
                    self.err_type(*span, "'continue' used outside of a loop");
                }
            },
            Stmt::Return { expr, span } => {
                let rt = match expr {
                    Some(e) => {
                        self.type_of(e)
                    },
                    None => {
                        Ty::Scalar(ScalarKind::Void)
                    },
                };
                let bad = match &self.current_fn_ret {
                    Some(fret) => !fret.is_unknown() && !rt.is_unknown() && !assignable(fret, &rt),
                    None => false,
                };
                if bad {
                    self.err_type(
                        *span,
                        "return expression's type does not match the function's declared return type",
                    );
                }
            },
            Stmt::Label { stmt, .. } => {
                self.check_stmt(&**stmt);
            },
            Stmt::Goto { label, span } => {
                if !has_name(&self.current_fn_labels, label.as_str()) {
                    self.err_undef(*span, label.as_str());
                }
            },
        }
    }

    /// The fields of a struct or union, the first `n`.
    fn resolve_fields(&mut self, fs: &Vec<FieldDecl>, n: usize) -> (r: Vec<Field>)
        requires
            old(self).scopes@.len() > 0,
            n <= fs@.len(),
        ensures
            final(self).scopes@.len() == old(self).scopes@.len(),
            final(self).st() == resolve_fields_s(old(self).st(), fs@, n as nat).0,
            fields_view(r@) == resolve_fields_s(old(self).st(), fs@, n as nat).1,
        decreases n,
    {
        if n == 0 {
            let v: Vec<Field> = Vec::new();
            assert(fields_view(v@) =~= Seq::empty());
            return v;
        }
        let mut v = self.resolve_fields(fs, n - 1);
        let ghost v0 = fields_view(v@);
        let ty = self.resolve_type(&fs[n - 1].ty);
        let f = Field {
            name: fs[n - 1].name.clone(),
            ty,
            is_const: top_level_const(&fs[n - 1].ty),
        };
        v.push(f);
        assert(fields_view(v@) =~= v0.push(f@));
        v
    }

    /// A struct declaration.
    fn check_struct_decl(&mut self, d: &StructDecl)
        requires
            old(self).scopes@.len() > 0,
        ensures
            final(self).scopes@.len() == old(self).scopes@.len(),
            final(self).st() == check_struct_decl_s(old(self).st(), *d),
    {
        let fields = self.resolve_fields(&d.fields, d.fields.len());
        match &d.name {
            Some(name) => {
                if self.scopes.declare_struct(name.as_str(), StructInfo { fields }) {
                    self.err_redef(d.span, name.as_str());
                }
            },
            None => {},
        }
    }

    /// A union declaration.
    fn check_union_decl(&mut self, d: &UnionDecl)
        requires
            old(self).scopes@.len() > 0,
        ensures
            final(self).scopes@.len() == old(self).scopes@.len(),
            final(self).st() == check_union_decl_s(old(self).st(), *d),
    {
        let fields = self.resolve_fields(&d.fields, d.fields.len());
        match &d.name {
            Some(name) => {
                if self.scopes.declare_union(name.as_str(), StructInfo { fields }) {
                    self.err_redef(d.span, name.as_str());
                }
            },
            None => {},
        }
    }

    /// The first `n` constants of an enumeration.
    fn check_variants(&mut self, vs: &Vec<EnumVariant>, n: usize, ty: &Ty)
        requires
            old(self).scopes@.len() > 0,
            n <= vs@.len(),
        ensures
            final(self).scopes@.len() == old(self).scopes@.len(),
            final(self).st() == check_variants_s(old(self).st(), vs@, n as nat, ty@),
        decreases n,
    {
        if n > 0 {
            self.check_variants(vs, n - 1, ty);
            let v = &vs[n - 1];
            if let Some(init) = &v.init {
                let it = self.type_of(init);
                if !it.is_unknown() && !it.is_integer() {
                    self.err_type(v.span, "enum initializer must be an integer constant");
                }
            }
            self.declare(v.span, v.name.as_str(), ValueSym::EnumConst(ty.copy()));
        }
    }

    /// An enumeration.
    fn check_enum_decl(&mut self, d: &EnumDecl)
        requires
            old(self).scopes@.len() > 0,
        ensures
            final(self).scopes@.len() == old(self).scopes@.len(),
            final(self).st() == check_enum_decl_s(old(self).st(), *d),
    {
        let enum_ty = match &d.name {
            Some(name) => {
                if self.scopes.declare_enum(name.as_str()) {
                    self.err_redef(d.span, name.as_str());
                }
                Ty::Enum(name.clone())
            },
            None => {
                Ty::Scalar(ScalarKind::Int)
            },
        };
        self.check_variants(&d.variants, d.variants.len(), &enum_ty);
    }

    /// A typedef.
    fn check_typedef_decl(&mut self, d: &TypedefDecl)
        requires
            old(self).scopes@.len() > 0,
        ensures
            final(self).scopes@.len() == old(self).scopes@.len(),
            final(self).st() == check_typedef_decl_s(old(self).st(), *d),
    {
        let ty = self.resolve_type(&d.ty);
        if self.scopes.declare_typedef(d.alias.as_str(), ty) {
            self.err_redef(d.span, d.alias.as_str());
        }
    }

    /// Checks the CUDA qualifiers of a function.
    fn check_function_cuda_quals(&mut self, f: &FunctionDecl, ret: &Ty)
        requires
            old(self).scopes@.len() > 0,
        ensures
            final(self).scopes@.len() == old(self).scopes@.len(),
            final(self).st() == check_function_cuda_quals_s(old(self).st(), *f, ret@),
    {
        let q = f.cuda_quals;
        if q.is_shared || q.is_constant {
            self.err_cuda(
                f.span,
                f.name.as_str(),
                "'__shared__'/'__constant__' apply to variables, not functions",
            );
        }
        if q.is_global && (q.is_device || q.is_host) {
            self.err_cuda(
                f.span,
                f.name.as_str(),
                "'__global__' cannot be combined with '__host__' or '__device__'",
            );
        }
        if q.is_global && !ret.is_unknown() && !ret.is_void() {
            self.err_cuda(f.span, f.name.as_str(), "a '__global__' function must return void");
        }
    }

    /// The types of the first `n` parameters.
    fn resolve_params(&mut self, ps: &Vec<ParamDecl>, n: usize) -> (r: Vec<Ty>)
        requires
            old(self).scopes@.len() > 0,
            n <= ps@.len(),
        ensures
            final(self).scopes@.len() == old(self).scopes@.len(),
            final(self).st() == resolve_params_s(old(self).st(), ps@, n as nat).0,
            tys_view(r@) == resolve_params_s(old(self).st(), ps@, n as nat).1,
        decreases n,
    {
        if n == 0 {
            let v: Vec<Ty> = Vec::new();
            assert(tys_view(v@) =~= Seq::empty());
            return v;
        }
        let mut v = self.resolve_params(ps, n - 1);
        let ghost v0 = v@;
        let ty = self.resolve_type(&ps[n - 1].ty);
        v.push(ty);
        proof {
            lemma_tys_take(v0, v0.len());
            lemma_tys_take(v@, v@.len());
            assert(tys_view(v@) =~= tys_view(v0).push(ty@));
        }
        v
    }

    /// Declares the first `n` parameters that have a name.
    fn declare_params(&mut self, ps: &Vec<ParamDecl>, tys: &Vec<Ty>, n: usize)
        requires
            old(self).scopes@.len() > 0,
            n <= ps@.len(),
        ensures
            final(self).scopes@.len() == old(self).scopes@.len(),
            final(self).st() == declare_params_s(old(self).st(), ps@, tys_view(tys@), n as nat),
        decreases n,
    {
        if n > 0 {
            self.declare_params(ps, tys, n - 1);
            if n <= tys.len() {
                proof { lemma_tys_take(tys@, tys@.len()); }
                if let Some(name) = &ps[n - 1].name {
                    self.declare(
                        ps[n - 1].span,
                        name.as_str(),
                        ValueSym::Var(tys[n - 1].copy(), top_level_const(&ps[n - 1].ty)),
                    );
                }
            } else { proof { lemma_tys_take(tys@, tys@.len()); } }
        }
    }

    /// The body of a function.
    fn check_function_body(
        &mut self,
        f: &FunctionDecl,
        ret: Ty,
        param_tys: &Vec<Ty>,
        body: &Vec<Stmt>,
    )
        requires
            old(self).scopes@.len() > 0,
        ensures
            final(self).scopes@.len() == old(self).scopes@.len(),
            final(self).st() == check_function_body_s(
                old(self).st(),
                *f,
                ret@,
                tys_view(param_tys@),
                body@,
            ),
    {
        let mut saved_labels = body_labels(body);
        core::mem::swap(&mut self.current_fn_labels, &mut saved_labels);
        let mut saved_ret = Some(ret);
        core::mem::swap(&mut self.current_fn_ret, &mut saved_ret);
        let saved_loop = self.in_loop;
        let saved_switch = self.in_switch;
        self.in_loop = false;
        self.in_switch = false;
        self.open_scope();
        if f.cuda_quals.is_global || f.cuda_quals.is_device {
            seed_cuda_builtins(&mut self.scopes);
        }
        self.declare_params(&f.params, param_tys, f.params.len());
        self.check_stmts(body, body.len());
        self.close_scope();
        self.current_fn_ret = saved_ret;
        self.current_fn_labels = saved_labels;
        self.in_loop = saved_loop;
        self.in_switch = saved_switch;
    }

    /// A function. Its own name is known inside its body.
    fn check_function_item(&mut self, f: &FunctionDecl)
        requires
            old(self).scopes@.len() > 0,
        ensures
            final(self).scopes@.len() == old(self).scopes@.len(),
            final(self).st() == check_function_item_s(old(self).st(), *f),
    {
        let ret = self.resolve_type(&f.ret);
        self.check_function_cuda_quals(f, &ret);
        let param_tys = self.resolve_params(&f.params, f.params.len());
        self.declare(
            f.span,
            f.name.as_str(),
            ValueSym::Func(FuncSig {
                ret: ret.copy(),
                params: Ty::copy_all(&param_tys, param_tys.len()),
                variadic: f.variadic,
                is_kernel: f.cuda_quals.is_global,
            }),
        );
        match &f.body {
            Some(body) => {
                self.check_function_body(f, ret, &param_tys, body);
            },
            None => {},
        }
    }

    /// The first `n` items of a list.
    fn check_items(&mut self, items: &Vec<Item>, n: usize)
        requires
            old(self).scopes@.len() > 0,
            n <= items@.len(),
        ensures
            final(self).scopes@.len() == old(self).scopes@.len(),
            final(self).st() == check_items_s(old(self).st(), items@, n as nat),
        decreases items, n,
    {
        if n > 0 {
            self.check_items(items, n - 1);
            self.check_item(&items[n - 1]);
        }
    }

    /// One item.
    fn check_item(&mut self, item: &Item)
        requires
            old(self).scopes@.len() > 0,
        ensures
            final(self).scopes@.len() == old(self).scopes@.len(),
            final(self).st() == check_item_s(old(self).st(), *item),
        decreases item, 9nat,
    {
        match item {
            Item::Struct(d) => {
                self.check_struct_decl(d);
            },
            Item::Union(d) => {
                self.check_union_decl(d);
            },
            Item::Enum(d) => {
                self.check_enum_decl(d);
            },
            Item::Typedef(d) => {
                self.check_typedef_decl(d);
            },
            Item::Namespace(ns) => {
                self.open_scope();
                self.check_items(&ns.items, ns.items.len());
                self.close_scope();
            },
            Item::Function(f) => {
                self.check_function_item(f);
            },
            Item::Var(v) => {
                self.check_var_decl(v);
            },
            Item::Template(_) => {},
        }
    }

}

/// Type-checks a translation unit.
pub fn check(tu: &TranslationUnit) -> (r: Vec<Diag>)
    ensures
        diags_view(r@) == diagnostics(*tu),
{
    let mut scopes = ScopeStack::new();
    scopes.push();
    seed_cuda_runtime_api(&mut scopes);
    let mut ck = Checker {
        scopes,
        diags: Vec::new(),
        current_fn_ret: None,
        current_fn_labels: Vec::new(),
        in_loop: false,
        in_switch: false,
    };
    proof {
        assert(ck.st().diags =~= Seq::empty());
        assert(ck.st().labels =~= Seq::empty());
    }
    ck.check_items(&tu.items, tu.items.len());
    ck.diags
}

} // verus!
