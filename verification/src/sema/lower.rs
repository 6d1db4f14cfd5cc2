//! From CUDA C to BIR.
//!
//! `lower` takes a translation unit that checking found nothing wrong with and returns its module
//! and what could not be lowered. A construct without a lowering is reported and stands as a
//! placeholder of the unknown type, which is not reported again where it is used.
//!
//! Every variable and parameter is a cell of memory, with the address `cell * 65536` in its
//! address space: local, shared, constant or parameter. What a pointer points to is global.
//! Arrays decay to their address, members lie one after another without padding, and a whole
//! struct, union or array is no value.
//!
//! The type of an array does not hold its length, so that `sizeof` counts an array as one element.
//! Where it has done so, in the operand itself or in a member of it, that is reported.
//!
//! Every statement leaves a block open: one that ends its block opens a new one for what follows.

use vstd::prelude::*;
use vstd::string::*;

use crate::assoc::Assoc;
use crate::bir::{
    float_one, float_zero, funcs_view, AddrSpace, AtomicOp, BinOp as BBin, Block, BlockId, CastOp,
    FCmpPred, FloatConst, Function, FunctionV, ICmpPred, Module, ModuleV, Op, OpV, Scalar,
    ShuffleKind, Term, TermV, Ty as BTy, ValRef,
};
use crate::bits::{i64_to_u32, low_i64, low_u32, u64_to_i64, usize_to_u32};
use crate::diag::{diag0, diag1, diag2, diags_view, names_view, push_diag, Diag, DiagV, ECode, Span};
use crate::numeral::{c_int, c_int_value};
use crate::sema::builder::{
    add_block, all_in_print_order, at_block, built, close_block, empty_build,
    lemma_all_in_print_order, lemma_none_in_print_order, next_block, next_val, put_inst, BuildV,
    Builder,
};
use crate::sema::c_ast::{
    expr_span, AssignOp, BinOp, EnumDecl, EnumVariant, Expr, FieldDecl, FunctionDecl, IncDecOp,
    Item, ParamDecl, ScalarKind, Stmt, TagKind, TranslationUnit, Type, UnaryOp, VarDecl,
};
use crate::sema::checker::{
    binop_of, compound_binop, const_at_top, dim3_fields, dim3_info, dim3_name, dim3_ty, field_of,
    float_lit_ty, float_ty_of, int_lit_ty, int_ty_of, is_dim3, is_dim3_builtin, is_lvalue, lvalue,
    top_level_const,
};
use crate::sema::labels::{body_labels, labels_of};
use crate::sema::scope::{
    empty_scope, fields_view, find_enum, find_struct, find_typedef, find_union, find_value,
    with_enum, with_struct, with_typedef, with_union, with_value, EnumTag, Field, FieldV, FuncSig,
    FuncSigV, ScopeStack, ScopeV, StructInfo, ValueSym, ValueSymV,
};
use crate::sema::ty::{
    assignable, fits, is_signed_kind, lemma_tys_take, promote, promoted, signed_kind, ty_view,
    tys_view, Ty, TyV,
};
use crate::text::same;

verus! {

pub const MINUS_ONE: i64 = -1;

/// The distance between the addresses of two cells.
pub const SLOT_STRIDE: i64 = 65536;

// ---- types ---------------------------------------------------------------------------------

pub open spec fn bir_scalar(k: ScalarKind) -> Option<Scalar> {
    match k {
        ScalarKind::Void => None,
        ScalarKind::Bool => Some(Scalar::I1),
        ScalarKind::Char | ScalarKind::SChar | ScalarKind::UChar => Some(Scalar::I8),
        ScalarKind::Short | ScalarKind::UShort => Some(Scalar::I16),
        ScalarKind::Int | ScalarKind::UInt | ScalarKind::WcharT => Some(Scalar::I32),
        ScalarKind::Long | ScalarKind::ULong | ScalarKind::LongLong | ScalarKind::ULongLong => Some(
            Scalar::I64,
        ),
        ScalarKind::Float => Some(Scalar::F32),
        ScalarKind::Double | ScalarKind::LongDouble => Some(Scalar::F64),
    }
}

fn to_bir_scalar(k: ScalarKind) -> (r: Option<Scalar>)
    ensures
        r == bir_scalar(k),
{
    match k {
        ScalarKind::Void => None,
        ScalarKind::Bool => Some(Scalar::I1),
        ScalarKind::Char | ScalarKind::SChar | ScalarKind::UChar => Some(Scalar::I8),
        ScalarKind::Short | ScalarKind::UShort => Some(Scalar::I16),
        ScalarKind::Int | ScalarKind::UInt | ScalarKind::WcharT => Some(Scalar::I32),
        ScalarKind::Long | ScalarKind::ULong | ScalarKind::LongLong | ScalarKind::ULongLong => Some(
            Scalar::I64,
        ),
        ScalarKind::Float => Some(Scalar::F32),
        ScalarKind::Double | ScalarKind::LongDouble => Some(Scalar::F64),
    }
}

/// The BIR type of a value.
pub open spec fn bir_ty(t: TyV) -> BTy {
    match t {
        TyV::Scalar(k) => match bir_scalar(k) {
            Some(s) => BTy::Scalar(s),
            None => BTy::Void,
        },
        TyV::Pointer(_, _) | TyV::Array(_) | TyV::Struct(_) | TyV::Union(_) => BTy::Ptr(
            AddrSpace::Global,
        ),
        _ => BTy::Scalar(Scalar::I32),
    }
}

fn to_bir_ty(t: &Ty) -> (r: BTy)
    ensures
        r == bir_ty(t@),
{
    match t {
        Ty::Scalar(k) => match to_bir_scalar(*k) {
            Some(s) => BTy::Scalar(s),
            None => BTy::Void,
        },
        Ty::Pointer(_, _) | Ty::Array(_) | Ty::Struct(_) | Ty::Union(_) => BTy::Ptr(
            AddrSpace::Global,
        ),
        _ => BTy::Scalar(Scalar::I32),
    }
}

/// A struct, union or array: no value of BIR.
pub open spec fn aggregate(t: TyV) -> bool {
    t is Array || t is Struct || t is Union
}

fn is_aggregate(t: &Ty) -> (r: bool)
    ensures
        r == aggregate(t@),
{
    matches!(t, Ty::Array(_) | Ty::Struct(_) | Ty::Union(_))
}

pub open spec fn signed_ty(t: TyV) -> bool {
    match t {
        TyV::Scalar(k) => signed_kind(k),
        TyV::Enum(_) => true,
        _ => false,
    }
}

fn is_signed(t: &Ty) -> (r: bool)
    ensures
        r == signed_ty(t@),
{
    match t {
        Ty::Scalar(k) => is_signed_kind(*k),
        Ty::Enum(_) => true,
        _ => false,
    }
}

pub open spec fn bits_of(s: Scalar) -> u32 {
    match s {
        Scalar::I1 => 1,
        Scalar::I8 => 8,
        Scalar::I16 | Scalar::F16 => 16,
        Scalar::I32 | Scalar::F32 => 32,
        Scalar::I64 | Scalar::F64 => 64,
    }
}

fn scalar_bits(s: Scalar) -> (r: u32)
    ensures
        r == bits_of(s),
{
    match s {
        Scalar::I1 => 1,
        Scalar::I8 => 8,
        Scalar::I16 | Scalar::F16 => 16,
        Scalar::I32 | Scalar::F32 => 32,
        Scalar::I64 | Scalar::F64 => 64,
    }
}

pub open spec fn bytes_of(s: Scalar) -> u32 {
    match s {
        Scalar::I1 | Scalar::I8 => 1,
        Scalar::I16 | Scalar::F16 => 2,
        Scalar::I32 | Scalar::F32 => 4,
        Scalar::I64 | Scalar::F64 => 8,
    }
}

fn scalar_byte_size(s: Scalar) -> (r: u32)
    ensures
        r == bytes_of(s),
{
    match s {
        Scalar::I1 | Scalar::I8 => 1,
        Scalar::I16 | Scalar::F16 => 2,
        Scalar::I32 | Scalar::F32 => 4,
        Scalar::I64 | Scalar::F64 => 8,
    }
}

pub open spec fn align_of(t: BTy) -> u32 {
    match t {
        BTy::Scalar(s) => bytes_of(s),
        BTy::Ptr(_) => 8,
        BTy::Vec(s, n) => (bytes_of(s) * n) as u32,
        BTy::Void => 1,
    }
}

fn natural_align(t: BTy) -> (r: u32)
    ensures
        r == align_of(t),
{
    match t {
        BTy::Scalar(s) => scalar_byte_size(s),
        BTy::Ptr(_) => 8,
        BTy::Vec(s, n) => {
            let b: u32 = scalar_byte_size(s);
            assert(b * n <= 8 * 255) by (nonlinear_arith)
                requires
                    b <= 8,
                    n <= 255,
            ;
            b * (n as u32)
        },
        BTy::Void => 1,
    }
}

pub open spec fn float_scalar(s: Scalar) -> bool {
    s == Scalar::F16 || s == Scalar::F32 || s == Scalar::F64
}

fn is_float_scalar(s: Scalar) -> (r: bool)
    ensures
        r == float_scalar(s),
{
    matches!(s, Scalar::F16 | Scalar::F32 | Scalar::F64)
}

/// The conversion between two types, if they differ: extension by the signedness of the source,
/// truncation, or between integers and floats; a bit cast where a pointer is involved.
pub open spec fn cast_of(from: TyV, to: TyV) -> Option<CastOp> {
    let f = bir_ty(from);
    let t = bir_ty(to);
    if f == t {
        None
    } else {
        match (f, t) {
            (BTy::Scalar(fs), BTy::Scalar(ts)) => Some(
                if float_scalar(fs) && float_scalar(ts) {
                    if bits_of(ts) > bits_of(fs) {
                        CastOp::FpExt
                    } else {
                        CastOp::FpTrunc
                    }
                } else if float_scalar(fs) {
                    if signed_ty(to) {
                        CastOp::FpToSi
                    } else {
                        CastOp::FpToUi
                    }
                } else if float_scalar(ts) {
                    if signed_ty(from) {
                        CastOp::SiToFp
                    } else {
                        CastOp::UiToFp
                    }
                } else if bits_of(ts) > bits_of(fs) {
                    if signed_ty(from) {
                        CastOp::Sext
                    } else {
                        CastOp::Zext
                    }
                } else {
                    CastOp::Trunc
                },
            ),
            _ => Some(CastOp::Bitcast),
        }
    }
}

fn cast_between(from: &Ty, to: &Ty) -> (r: Option<CastOp>)
    ensures
        r == cast_of(from@, to@),
{
    let f = to_bir_ty(from);
    let t = to_bir_ty(to);
    if f == t {
        return None;
    }
    match (f, t) {
        (BTy::Scalar(fs), BTy::Scalar(ts)) => Some(
            if is_float_scalar(fs) && is_float_scalar(ts) {
                if scalar_bits(ts) > scalar_bits(fs) {
                    CastOp::FpExt
                } else {
                    CastOp::FpTrunc
                }
            } else if is_float_scalar(fs) {
                if is_signed(to) {
                    CastOp::FpToSi
                } else {
                    CastOp::FpToUi
                }
            } else if is_float_scalar(ts) {
                if is_signed(from) {
                    CastOp::SiToFp
                } else {
                    CastOp::UiToFp
                }
            } else if scalar_bits(ts) > scalar_bits(fs) {
                if is_signed(from) {
                    CastOp::Sext
                } else {
                    CastOp::Zext
                }
            } else {
                CastOp::Trunc
            },
        ),
        _ => Some(CastOp::Bitcast),
    }
}

// ---- builtins ------------------------------------------------------------------------------

/// The index operation behind a member of `threadIdx` and its like.
pub open spec fn index_op(builtin: Seq<char>, field: Seq<char>) -> Option<OpV> {
    let x = field == "x"@;
    let y = field == "y"@;
    let z = field == "z"@;
    if builtin == "threadIdx"@ {
        if x {
            Some(OpV::TidX)
        } else if y {
            Some(OpV::TidY)
        } else if z {
            Some(OpV::TidZ)
        } else {
            None
        }
    } else if builtin == "blockIdx"@ {
        if x {
            Some(OpV::BidX)
        } else if y {
            Some(OpV::BidY)
        } else if z {
            Some(OpV::BidZ)
        } else {
            None
        }
    } else if builtin == "blockDim"@ {
        if x {
            Some(OpV::BdimX)
        } else if y {
            Some(OpV::BdimY)
        } else if z {
            Some(OpV::BdimZ)
        } else {
            None
        }
    } else if builtin == "gridDim"@ {
        if x {
            Some(OpV::GdimX)
        } else if y {
            Some(OpV::GdimY)
        } else if z {
            Some(OpV::GdimZ)
        } else {
            None
        }
    } else {
        None
    }
}

fn gpu_index_op_for(builtin: &str, field: &str) -> (r: Option<Op>)
    ensures
        match r {
            Some(op) => index_op(builtin@, field@) == Some(op@),
            None => index_op(builtin@, field@) is None,
        },
{
    let x = same(field, "x");
    let y = same(field, "y");
    let z = same(field, "z");
    if same(builtin, "threadIdx") {
        if x {
            Some(Op::TidX)
        } else if y {
            Some(Op::TidY)
        } else if z {
            Some(Op::TidZ)
        } else {
            None
        }
    } else if same(builtin, "blockIdx") {
        if x {
            Some(Op::BidX)
        } else if y {
            Some(Op::BidY)
        } else if z {
            Some(Op::BidZ)
        } else {
            None
        }
    } else if same(builtin, "blockDim") {
        if x {
            Some(Op::BdimX)
        } else if y {
            Some(Op::BdimY)
        } else if z {
            Some(Op::BdimZ)
        } else {
            None
        }
    } else if same(builtin, "gridDim") {
        if x {
            Some(Op::GdimX)
        } else if y {
            Some(Op::GdimY)
        } else if z {
            Some(Op::GdimZ)
        } else {
            None
        }
    } else {
        None
    }
}

pub open spec fn shuffle_kind(name: Seq<char>) -> Option<ShuffleKind> {
    if name == "__shfl"@ {
        Some(ShuffleKind::Idx)
    } else if name == "__shfl_up"@ {
        Some(ShuffleKind::Up)
    } else if name == "__shfl_down"@ {
        Some(ShuffleKind::Down)
    } else if name == "__shfl_xor"@ {
        Some(ShuffleKind::Xor)
    } else {
        None
    }
}

fn shuffle_kind_for(name: &str) -> (r: Option<ShuffleKind>)
    ensures
        r == shuffle_kind(name@),
{
    if same(name, "__shfl") {
        Some(ShuffleKind::Idx)
    } else if same(name, "__shfl_up") {
        Some(ShuffleKind::Up)
    } else if same(name, "__shfl_down") {
        Some(ShuffleKind::Down)
    } else if same(name, "__shfl_xor") {
        Some(ShuffleKind::Xor)
    } else {
        None
    }
}

/// A vote across the threads of a warp.
#[derive(Clone, Copy, PartialEq, Eq, Structural)]
pub enum Vote {
    Ballot,
    Any,
    All,
}

pub open spec fn vote_kind(name: Seq<char>) -> Option<Vote> {
    if name == "__ballot"@ {
        Some(Vote::Ballot)
    } else if name == "__any"@ {
        Some(Vote::Any)
    } else if name == "__all"@ {
        Some(Vote::All)
    } else {
        None
    }
}

fn vote_for(name: &str) -> (r: Option<Vote>)
    ensures
        r == vote_kind(name@),
{
    if same(name, "__ballot") {
        Some(Vote::Ballot)
    } else if same(name, "__any") {
        Some(Vote::Any)
    } else if same(name, "__all") {
        Some(Vote::All)
    } else {
        None
    }
}

pub open spec fn vote_op(v: Vote, p: ValRef) -> OpV {
    match v {
        Vote::Ballot => OpV::Ballot(p),
        Vote::Any => OpV::VoteAny(p),
        Vote::All => OpV::VoteAll(p),
    }
}

fn make_vote(v: Vote, p: ValRef) -> (r: Op)
    ensures
        r@ == vote_op(v, p),
{
    match v {
        Vote::Ballot => Op::Ballot(p),
        Vote::Any => Op::VoteAny(p),
        Vote::All => Op::VoteAll(p),
    }
}

pub open spec fn atomic_kind(name: Seq<char>) -> Option<AtomicOp> {
    if name == "atomicAdd"@ {
        Some(AtomicOp::Add)
    } else if name == "atomicSub"@ {
        Some(AtomicOp::Sub)
    } else if name == "atomicExch"@ {
        Some(AtomicOp::Exch)
    } else if name == "atomicMin"@ {
        Some(AtomicOp::Min)
    } else if name == "atomicMax"@ {
        Some(AtomicOp::Max)
    } else if name == "atomicAnd"@ {
        Some(AtomicOp::And)
    } else if name == "atomicOr"@ {
        Some(AtomicOp::Or)
    } else if name == "atomicXor"@ {
        Some(AtomicOp::Xor)
    } else {
        None
    }
}

fn atomic_op_for(name: &str) -> (r: Option<AtomicOp>)
    ensures
        r == atomic_kind(name@),
{
    if same(name, "atomicAdd") {
        Some(AtomicOp::Add)
    } else if same(name, "atomicSub") {
        Some(AtomicOp::Sub)
    } else if same(name, "atomicExch") {
        Some(AtomicOp::Exch)
    } else if same(name, "atomicMin") {
        Some(AtomicOp::Min)
    } else if same(name, "atomicMax") {
        Some(AtomicOp::Max)
    } else if same(name, "atomicAnd") {
        Some(AtomicOp::And)
    } else if same(name, "atomicOr") {
        Some(AtomicOp::Or)
    } else if same(name, "atomicXor") {
        Some(AtomicOp::Xor)
    } else {
        None
    }
}

// ---- operators -----------------------------------------------------------------------------

pub open spec fn pointer_pred(op: BinOp) -> ICmpPred {
    match op {
        BinOp::Ne => ICmpPred::Ne,
        BinOp::Lt => ICmpPred::Ult,
        BinOp::Gt => ICmpPred::Ugt,
        BinOp::Le => ICmpPred::Ule,
        BinOp::Ge => ICmpPred::Uge,
        _ => ICmpPred::Eq,
    }
}

fn pointer_pred_of(op: BinOp) -> (r: ICmpPred)
    ensures
        r == pointer_pred(op),
{
    match op {
        BinOp::Ne => ICmpPred::Ne,
        BinOp::Lt => ICmpPred::Ult,
        BinOp::Gt => ICmpPred::Ugt,
        BinOp::Le => ICmpPred::Ule,
        BinOp::Ge => ICmpPred::Uge,
        _ => ICmpPred::Eq,
    }
}

pub open spec fn float_pred(op: BinOp) -> FCmpPred {
    match op {
        BinOp::Ne => FCmpPred::One,
        BinOp::Lt => FCmpPred::Olt,
        BinOp::Gt => FCmpPred::Ogt,
        BinOp::Le => FCmpPred::Ole,
        BinOp::Ge => FCmpPred::Oge,
        _ => FCmpPred::Oeq,
    }
}

fn float_pred_of(op: BinOp) -> (r: FCmpPred)
    ensures
        r == float_pred(op),
{
    match op {
        BinOp::Ne => FCmpPred::One,
        BinOp::Lt => FCmpPred::Olt,
        BinOp::Gt => FCmpPred::Ogt,
        BinOp::Le => FCmpPred::Ole,
        BinOp::Ge => FCmpPred::Oge,
        _ => FCmpPred::Oeq,
    }
}

pub open spec fn int_pred(op: BinOp, signed: bool) -> ICmpPred {
    match op {
        BinOp::Ne => ICmpPred::Ne,
        BinOp::Lt => if signed {
            ICmpPred::Slt
        } else {
            ICmpPred::Ult
        },
        BinOp::Gt => if signed {
            ICmpPred::Sgt
        } else {
            ICmpPred::Ugt
        },
        BinOp::Le => if signed {
            ICmpPred::Sle
        } else {
            ICmpPred::Ule
        },
        BinOp::Ge => if signed {
            ICmpPred::Sge
        } else {
            ICmpPred::Uge
        },
        _ => ICmpPred::Eq,
    }
}

fn int_pred_of(op: BinOp, signed: bool) -> (r: ICmpPred)
    ensures
        r == int_pred(op, signed),
{
    match op {
        BinOp::Ne => ICmpPred::Ne,
        BinOp::Lt => if signed {
            ICmpPred::Slt
        } else {
            ICmpPred::Ult
        },
        BinOp::Gt => if signed {
            ICmpPred::Sgt
        } else {
            ICmpPred::Ugt
        },
        BinOp::Le => if signed {
            ICmpPred::Sle
        } else {
            ICmpPred::Ule
        },
        BinOp::Ge => if signed {
            ICmpPred::Sge
        } else {
            ICmpPred::Uge
        },
        _ => ICmpPred::Eq,
    }
}

/// The operation of an arithmetic, bitwise or shift operator.
pub open spec fn arith_op(op: BinOp, float: bool, signed: bool) -> BBin {
    match op {
        BinOp::Sub => if float {
            BBin::FSub
        } else {
            BBin::Sub
        },
        BinOp::Mul => if float {
            BBin::FMul
        } else {
            BBin::Mul
        },
        BinOp::Div => if float {
            BBin::FDiv
        } else {
            BBin::Div
        },
        BinOp::Rem => if float {
            BBin::FRem
        } else {
            BBin::Rem
        },
        BinOp::BitOr => BBin::Or,
        BinOp::BitXor => BBin::Xor,
        BinOp::BitAnd => BBin::And,
        BinOp::Shl => BBin::Shl,
        BinOp::Shr => if signed {
            BBin::Ashr
        } else {
            BBin::Lshr
        },
        _ => if float {
            BBin::FAdd
        } else {
            BBin::Add
        },
    }
}

fn arith_op_of(op: BinOp, float: bool, signed: bool) -> (r: BBin)
    ensures
        r == arith_op(op, float, signed),
{
    match op {
        BinOp::Sub => if float {
            BBin::FSub
        } else {
            BBin::Sub
        },
        BinOp::Mul => if float {
            BBin::FMul
        } else {
            BBin::Mul
        },
        BinOp::Div => if float {
            BBin::FDiv
        } else {
            BBin::Div
        },
        BinOp::Rem => if float {
            BBin::FRem
        } else {
            BBin::Rem
        },
        BinOp::BitOr => BBin::Or,
        BinOp::BitXor => BBin::Xor,
        BinOp::BitAnd => BBin::And,
        BinOp::Shl => BBin::Shl,
        BinOp::Shr => if signed {
            BBin::Ashr
        } else {
            BBin::Lshr
        },
        _ => if float {
            BBin::FAdd
        } else {
            BBin::Add
        },
    }
}

// ---- constants -----------------------------------------------------------------------------

/// The quotient of two 64-bit numbers, toward zero; the one that does not fit wraps.
pub open spec fn div_i64(l: i64, r: i64) -> i64 {
    match l.checked_div(r) {
        Some(q) => q,
        None => i64::MIN,
    }
}

pub open spec fn rem_i64(l: i64, r: i64) -> i64 {
    match l.checked_rem(r) {
        Some(q) => q,
        None => 0,
    }
}

/// The value of a constant expression, if it is one.
pub open spec fn const_value(enums: Map<Seq<char>, i64>, e: Expr) -> Option<i64>
    decreases e,
{
    match e {
        Expr::IntLit { value, span } => Some(c_int(value.text@, value.base) as i64),
        Expr::CharLit { value, span } => Some(value as i64),
        Expr::Unary { op, expr, span } => match const_value(enums, *expr) {
            None => None,
            Some(v) => match op {
                UnaryOp::Neg => Some(0i64.wrapping_sub(v)),
                UnaryOp::Plus => Some(v),
                UnaryOp::BitNot => Some(!v),
                _ => None,
            },
        },
        Expr::Binary { op, lhs, rhs, span } => match (
            const_value(enums, *lhs),
            const_value(enums, *rhs),
        ) {
            (Some(l), Some(r)) => match op {
                BinOp::Add => Some(l.wrapping_add(r)),
                BinOp::Sub => Some(l.wrapping_sub(r)),
                BinOp::Mul => Some(l.wrapping_mul(r)),
                BinOp::Div => if r != 0 {
                    Some(div_i64(l, r))
                } else {
                    None
                },
                BinOp::Rem => if r != 0 {
                    Some(rem_i64(l, r))
                } else {
                    None
                },
                BinOp::BitAnd => Some(l & r),
                BinOp::BitOr => Some(l | r),
                BinOp::BitXor => Some(l ^ r),
                BinOp::Shl => Some(l.wrapping_shl(low_u32(r as int))),
                BinOp::Shr => Some(l.wrapping_shr(low_u32(r as int))),
                _ => None,
            },
            _ => None,
        },
        Expr::Ident { name, span } => if enums.contains_key(name@) {
            Some(enums[name@])
        } else {
            None
        },
        _ => None,
    }
}

fn div_wrapping(l: i64, r: i64) -> (q: i64)
    requires
        r != 0,
    ensures
        q == div_i64(l, r),
{
    match l.checked_div(r) {
        Some(q) => q,
        None => i64::MIN,
    }
}

fn rem_wrapping(l: i64, r: i64) -> (q: i64)
    requires
        r != 0,
    ensures
        q == rem_i64(l, r),
{
    match l.checked_rem(r) {
        Some(q) => q,
        None => 0,
    }
}

fn const_eval_i64(enums: &Assoc<i64>, e: &Expr) -> (r: Option<i64>)
    ensures
        r == const_value(enums@, *e),
    decreases e,
{
    match e {
        Expr::IntLit { value, .. } => Some(c_int_value(value.text.as_str(), value.base)),
        Expr::CharLit { value, .. } => Some(*value as i64),
        Expr::Unary { op, expr, .. } => match const_eval_i64(enums, expr) {
            None => None,
            Some(v) => match op {
                UnaryOp::Neg => Some(0i64.wrapping_sub(v)),
                UnaryOp::Plus => Some(v),
                UnaryOp::BitNot => Some(!v),
                _ => None,
            },
        },
        Expr::Binary { op, lhs, rhs, .. } => match (
            const_eval_i64(enums, lhs),
            const_eval_i64(enums, rhs),
        ) {
            (Some(l), Some(r)) => match op {
                BinOp::Add => Some(l.wrapping_add(r)),
                BinOp::Sub => Some(l.wrapping_sub(r)),
                BinOp::Mul => Some(l.wrapping_mul(r)),
                BinOp::Div => if r != 0 {
                    Some(div_wrapping(l, r))
                } else {
                    None
                },
                BinOp::Rem => if r != 0 {
                    Some(rem_wrapping(l, r))
                } else {
                    None
                },
                BinOp::BitAnd => Some(l & r),
                BinOp::BitOr => Some(l | r),
                BinOp::BitXor => Some(l ^ r),
                BinOp::Shl => Some(l.wrapping_shl(i64_to_u32(r))),
                BinOp::Shr => Some(l.wrapping_shr(i64_to_u32(r))),
                _ => None,
            },
            _ => None,
        },
        Expr::Ident { name, .. } => match enums.get(name.as_str()) {
            Some(v) => Some(*v),
            None => None,
        },
        _ => None,
    }
}

// ---- layout --------------------------------------------------------------------------------

/// The size of a type in bytes, without padding; nested structs and unions are followed to the
/// given depth. An array counts as one element, since its length is not part of its type.
pub open spec fn size_to(scopes: Seq<ScopeV>, depth: nat, t: TyV) -> u64
    decreases 2 * depth, t, 0nat,
{
    match t {
        TyV::Scalar(k) => match bir_scalar(k) {
            Some(s) => bytes_of(s) as u64,
            None => 0,
        },
        TyV::Pointer(_, _) => 8,
        TyV::Enum(_) => 4,
        TyV::Array(e) => size_to(scopes, depth, *e),
        TyV::Struct(n) => if depth == 0 {
            0
        } else {
            match find_struct(scopes, n) {
                Some(fs) => sum_to(scopes, (depth - 1) as nat, fs, fs.len()),
                None => 0,
            }
        },
        TyV::Union(n) => if depth == 0 {
            0
        } else {
            match find_union(scopes, n) {
                Some(fs) => max_to(scopes, (depth - 1) as nat, fs, fs.len()),
                None => 0,
            }
        },
        _ => 0,
    }
}

/// The size of the first `n` fields, one after another.
pub open spec fn sum_to(scopes: Seq<ScopeV>, depth: nat, fs: Seq<FieldV>, n: nat) -> u64
    decreases 2 * depth + 1, fs, n,
{
    if n == 0 || n > fs.len() {
        0
    } else {
        sum_to(scopes, depth, fs, (n - 1) as nat).wrapping_add(
            size_to(scopes, depth, fs[n - 1].ty),
        )
    }
}

/// The size of the largest of the first `n` fields.
pub open spec fn max_to(scopes: Seq<ScopeV>, depth: nat, fs: Seq<FieldV>, n: nat) -> u64
    decreases 2 * depth + 1, fs, n,
{
    if n == 0 || n > fs.len() {
        0
    } else {
        let m = max_to(scopes, depth, fs, (n - 1) as nat);
        let s = size_to(scopes, depth, fs[n - 1].ty);
        if s > m {
            s
        } else {
            m
        }
    }
}

/// Whether an array was counted as one element in the size of a type: it is one, or some member of
/// it is, to the given depth.
pub open spec fn array_in(scopes: Seq<ScopeV>, depth: nat, t: TyV) -> bool
    decreases 2 * depth,
{
    match t {
        TyV::Array(_) => true,
        TyV::Struct(n) => depth > 0 && match find_struct(scopes, n) {
            Some(fs) => array_among(scopes, (depth - 1) as nat, fs, fs.len()),
            None => false,
        },
        TyV::Union(n) => depth > 0 && match find_union(scopes, n) {
            Some(fs) => array_among(scopes, (depth - 1) as nat, fs, fs.len()),
            None => false,
        },
        _ => false,
    }
}

/// Whether an array was counted as one element in the size of one of the first `n` fields.
pub open spec fn array_among(scopes: Seq<ScopeV>, depth: nat, fs: Seq<FieldV>, n: nat) -> bool
    decreases 2 * depth + 1, n,
{
    n > 0 && n <= fs.len() && (array_among(scopes, depth, fs, (n - 1) as nat) || array_in(
        scopes,
        depth,
        fs[n - 1].ty,
    ))
}

fn has_array(scopes: &ScopeStack, depth: u64, t: &Ty) -> (r: bool)
    ensures
        r == array_in(scopes@, depth as nat, t@),
    decreases 2 * depth, 0nat,
{
    match t {
        Ty::Array(_) => true,
        Ty::Struct(n) => depth > 0 && match scopes.lookup_struct(n.as_str()) {
            Some(info) => any_array(scopes, depth - 1, &info.fields, info.fields.len()),
            None => false,
        },
        Ty::Union(n) => depth > 0 && match scopes.lookup_union(n.as_str()) {
            Some(info) => any_array(scopes, depth - 1, &info.fields, info.fields.len()),
            None => false,
        },
        _ => false,
    }
}

fn any_array(scopes: &ScopeStack, depth: u64, fs: &Vec<Field>, n: usize) -> (r: bool)
    requires
        n <= fs@.len(),
    ensures
        r == array_among(scopes@, depth as nat, fields_view(fs@), n as nat),
    decreases 2 * depth + 1, n,
{
    if n == 0 {
        false
    } else {
        assert(fields_view(fs@)[n - 1] == fs@[n - 1]@);
        any_array(scopes, depth, fs, n - 1) || has_array(scopes, depth, &fs[n - 1].ty)
    }
}

fn size_at(scopes: &ScopeStack, depth: u64, t: &Ty) -> (r: u64)
    ensures
        r == size_to(scopes@, depth as nat, t@),
    decreases 2 * depth, t, 0nat,
{
    match t {
        Ty::Scalar(k) => match to_bir_scalar(*k) {
            Some(s) => scalar_byte_size(s) as u64,
            None => 0,
        },
        Ty::Pointer(_, _) => 8,
        Ty::Enum(_) => 4,
        Ty::Array(e) => size_at(scopes, depth, e),
        Ty::Struct(n) => if depth == 0 {
            0
        } else {
            match scopes.lookup_struct(n.as_str()) {
                Some(info) => sum_at(scopes, depth - 1, &info.fields, info.fields.len()),
                None => 0,
            }
        },
        Ty::Union(n) => if depth == 0 {
            0
        } else {
            match scopes.lookup_union(n.as_str()) {
                Some(info) => max_at(scopes, depth - 1, &info.fields, info.fields.len()),
                None => 0,
            }
        },
        _ => 0,
    }
}

fn sum_at(scopes: &ScopeStack, depth: u64, fs: &Vec<Field>, n: usize) -> (r: u64)
    requires
        n <= fs@.len(),
    ensures
        r == sum_to(scopes@, depth as nat, fields_view(fs@), n as nat),
    decreases 2 * depth + 1, fs, n,
{
    if n == 0 {
        0
    } else {
        assert(fields_view(fs@)[n - 1] == fs@[n - 1]@);
        sum_at(scopes, depth, fs, n - 1).wrapping_add(size_at(scopes, depth, &fs[n - 1].ty))
    }
}

fn max_at(scopes: &ScopeStack, depth: u64, fs: &Vec<Field>, n: usize) -> (r: u64)
    requires
        n <= fs@.len(),
    ensures
        r == max_to(scopes@, depth as nat, fields_view(fs@), n as nat),
    decreases 2 * depth + 1, fs, n,
{
    if n == 0 {
        0
    } else {
        assert(fields_view(fs@)[n - 1] == fs@[n - 1]@);
        let m: u64 = max_at(scopes, depth, fs, n - 1);
        let s: u64 = size_at(scopes, depth, &fs[n - 1].ty);
        if s > m {
            s
        } else {
            m
        }
    }
}

/// The offset and type of the first field of a name, from index `i` on at offset `off`.
pub open spec fn offset_from(
    scopes: Seq<ScopeV>,
    depth: nat,
    fs: Seq<FieldV>,
    name: Seq<char>,
    i: nat,
    off: u64,
) -> Option<(u64, TyV)>
    decreases fs.len() - i,
{
    if i >= fs.len() {
        None
    } else if fs[i as int].name == name {
        Some((off, fs[i as int].ty))
    } else {
        offset_from(
            scopes,
            depth,
            fs,
            name,
            i + 1,
            off.wrapping_add(size_to(scopes, depth, fs[i as int].ty)),
        )
    }
}

/// Where a field of a struct or union lies, and its type. The fields of a union all start at 0.
pub open spec fn offset_of(scopes: Seq<ScopeV>, depth: nat, t: TyV, name: Seq<char>) -> Option<
    (u64, TyV),
> {
    match t {
        TyV::Struct(n) => match find_struct(scopes, n) {
            Some(fs) => offset_from(scopes, depth, fs, name, 0, 0),
            None => None,
        },
        TyV::Union(n) => match find_union(scopes, n) {
            Some(fs) => match field_of(fs, name) {
                Some(f) => Some((0u64, f.ty)),
                None => None,
            },
            None => None,
        },
        _ => None,
    }
}

fn field_offset_at(scopes: &ScopeStack, depth: u64, t: &Ty, name: &str) -> (r: Option<(u64, Ty)>)
    ensures
        match r {
            Some(p) => offset_of(scopes@, depth as nat, t@, name@) == Some((p.0, p.1@)),
            None => offset_of(scopes@, depth as nat, t@, name@) is None,
        },
{
    match t {
        Ty::Struct(n) => match scopes.lookup_struct(n.as_str()) {
            None => None,
            Some(info) => {
                let ghost fs = fields_view(info.fields@);
                let mut off: u64 = 0;
                let mut i: usize = 0;
                while i < info.fields.len()
                    invariant
                        fs == fields_view(info.fields@),
                        i <= fs.len(),
                        offset_of(scopes@, depth as nat, t@, name@) == offset_from(
                            scopes@,
                            depth as nat,
                            fs,
                            name@,
                            i as nat,
                            off,
                        ),
                    decreases fs.len() - i,
                {
                    let f = &info.fields[i];
                    assert(fs[i as int] == f@);
                    if same(f.name.as_str(), name) {
                        return Some((off, f.ty.copy()));
                    }
                    off = off.wrapping_add(size_at(scopes, depth, &f.ty));
                    i = i + 1;
                }
                None
            },
        },
        Ty::Union(_) => match crate::sema::checker::lookup_field(scopes, t, name) {
            Some((ty, _)) => Some((0, ty)),
            None => None,
        },
        _ => None,
    }
}

// ---- lowering ------------------------------------------------------------------------------

/// A cell: its number, the type of what it holds, its address space.
pub struct LocalSlot {
    pub slot: u32,
    pub ty: Ty,
    pub space: AddrSpace,
}

/// The model of a cell.
pub struct SlotV {
    pub slot: u32,
    pub ty: TyV,
    pub space: AddrSpace,
}

impl View for LocalSlot {
    type V = SlotV;

    open spec fn view(&self) -> SlotV {
        SlotV { slot: self.slot, ty: self.ty@, space: self.space }
    }
}

impl LocalSlot {
    fn copy(&self) -> (r: LocalSlot)
        ensures
            r@ == self@,
    {
        LocalSlot { slot: self.slot, ty: self.ty.copy(), space: self.space }
    }
}

/// A place: its address, the type of what it holds (unknown where there is none), its address
/// space.
pub struct LValue {
    pub addr: ValRef,
    pub ty: Ty,
    pub space: AddrSpace,
}

/// The model of a place.
pub struct LValueV {
    pub addr: ValRef,
    pub ty: TyV,
    pub space: AddrSpace,
}

impl View for LValue {
    type V = LValueV;

    open spec fn view(&self) -> LValueV {
        LValueV { addr: self.addr, ty: self.ty@, space: self.space }
    }
}

pub open spec fn opt_place(p: Option<LValue>) -> Option<LValueV> {
    match p {
        Some(l) => Some(l@),
        None => None,
    }
}

/// What `break` and `continue` leave.
#[derive(Clone, Copy, PartialEq, Eq, Structural)]
pub enum CtrlCtx {
    Loop { break_bb: BlockId, continue_bb: BlockId },
    Switch { break_bb: BlockId },
}

/// The cases of a switch so far.
pub struct Cases {
    pub cases: Vec<(i64, BlockId)>,
    pub default: Option<BlockId>,
}

/// The model of the cases of a switch.
pub struct CasesV {
    pub cases: Seq<(i64, BlockId)>,
    pub default: Option<BlockId>,
}

impl View for Cases {
    type V = CasesV;

    open spec fn view(&self) -> CasesV {
        CasesV { cases: self.cases@, default: self.default }
    }
}

pub open spec fn no_cases() -> CasesV {
    CasesV { cases: Seq::empty(), default: None }
}

/// What lowering keeps. Of the translation unit: the scopes, the diagnostics, the functions so
/// far, the global variables, the enumeration constants, and how many structs and unions there
/// are. Of the function: what is built of it, its cells by name in each open block, the number
/// of the next cell, the loops and switches that are open, the block of each label, and the
/// return type.
pub struct LwState {
    pub scopes: Seq<ScopeV>,
    pub diags: Seq<DiagV>,
    pub funcs: Seq<FunctionV>,
    pub globals: Map<Seq<char>, EnumTag>,
    pub enums: Map<Seq<char>, i64>,
    pub tags: u64,
    pub b: BuildV,
    pub locals: Seq<Map<Seq<char>, SlotV>>,
    pub next_slot: u32,
    pub ctrl: Seq<CtrlCtx>,
    pub labels: Map<Seq<char>, BlockId>,
    pub fn_ret: TyV,
}

pub open spec fn size_s(st: LwState, t: TyV) -> u64 {
    size_to(st.scopes, st.tags as nat, t)
}

pub open spec fn field_offset_s(st: LwState, t: TyV, name: Seq<char>) -> Option<(u64, TyV)> {
    offset_of(st.scopes, st.tags as nat, t, name)
}

pub open spec fn report_s(st: LwState, d: DiagV) -> LwState {
    LwState { diags: st.diags.push(d), ..st }
}

pub open spec fn err_s(st: LwState, code: ECode, span: Span, msg: Seq<char>) -> LwState {
    report_s(st, diag1(code, span, msg))
}

pub open spec fn diag_unsupported_s(
    st: LwState,
    span: Span,
    what: Seq<char>,
    detail: Seq<char>,
) -> LwState {
    report_s(st, diag2(ECode::LoweringUnsupported, span, what, detail))
}

pub open spec fn push_s(st: LwState, ty: BTy, op: OpV) -> (LwState, ValRef) {
    (LwState { b: put_inst(st.b, ty, op), ..st }, next_val(st.b))
}

pub open spec fn push_void_s(st: LwState, op: OpV) -> LwState {
    LwState { b: put_inst(st.b, BTy::Void, op), ..st }
}

pub open spec fn alloc_block_s(st: LwState) -> (LwState, BlockId) {
    (LwState { b: add_block(st.b), ..st }, next_block(st.b))
}

pub open spec fn terminate_s(st: LwState, term: TermV) -> LwState {
    LwState { b: close_block(st.b, term), ..st }
}

pub open spec fn set_cur_s(st: LwState, cur: BlockId) -> LwState {
    LwState { b: at_block(st.b, cur), ..st }
}

/// A new cell.
pub open spec fn new_slot_s(st: LwState, ty: TyV, space: AddrSpace) -> (LwState, SlotV) {
    (
        LwState { next_slot: st.next_slot.wrapping_add(1), ..st },
        SlotV { slot: st.next_slot, ty, space },
    )
}

pub open spec fn bind_local_s(st: LwState, name: Seq<char>, slot: SlotV) -> LwState {
    if st.locals.len() == 0 {
        st
    } else {
        LwState {
            locals: st.locals.drop_last().push(st.locals.last().insert(name, slot)),
            ..st
        }
    }
}

pub open spec fn local_in(locals: Seq<Map<Seq<char>, SlotV>>, name: Seq<char>) -> Option<SlotV>
    decreases locals.len(),
{
    if locals.len() == 0 {
        None
    } else if locals.last().contains_key(name) {
        Some(locals.last()[name])
    } else {
        local_in(locals.drop_last(), name)
    }
}

pub open spec fn open_block_s(st: LwState) -> LwState {
    LwState { locals: st.locals.push(Map::empty()), ..st }
}

pub open spec fn close_scope_s(st: LwState) -> LwState {
    LwState {
        locals: if st.locals.len() == 0 {
            st.locals
        } else {
            st.locals.drop_last()
        },
        ..st
    }
}

pub open spec fn enter_s(st: LwState, c: CtrlCtx) -> LwState {
    LwState { ctrl: st.ctrl.push(c), ..st }
}

pub open spec fn leave_s(st: LwState) -> LwState {
    LwState {
        ctrl: if st.ctrl.len() == 0 {
            st.ctrl
        } else {
            st.ctrl.drop_last()
        },
        ..st
    }
}

/// Where `break` goes.
pub open spec fn break_target(ctrl: Seq<CtrlCtx>) -> Option<BlockId> {
    if ctrl.len() == 0 {
        None
    } else {
        match ctrl.last() {
            CtrlCtx::Loop { break_bb, continue_bb } => Some(break_bb),
            CtrlCtx::Switch { break_bb } => Some(break_bb),
        }
    }
}

/// Where `continue` goes: a switch is passed over.
pub open spec fn continue_target(ctrl: Seq<CtrlCtx>) -> Option<BlockId>
    decreases ctrl.len(),
{
    if ctrl.len() == 0 {
        None
    } else {
        match ctrl.last() {
            CtrlCtx::Loop { break_bb, continue_bb } => Some(continue_bb),
            CtrlCtx::Switch { break_bb } => continue_target(ctrl.drop_last()),
        }
    }
}

/// The result type and name of a call to a function by its name.
pub open spec fn callee_of(scopes: Seq<ScopeV>, callee: Expr) -> Option<(Seq<char>, TyV)> {
    match callee {
        Expr::Ident { name, span } => match find_value(scopes, name@) {
            Some(ValueSymV::Func(sig)) => Some((name@, sig.ret)),
            _ => None,
        },
        _ => None,
    }
}

/// Whether an extent of a launch is a value with `x`, `y` and `z`.
pub open spec fn dim3_extent(locals: Seq<Map<Seq<char>, SlotV>>, e: Expr) -> bool {
    match e {
        Expr::Ident { name, span } => match local_in(locals, name@) {
            Some(slot) => slot.ty == dim3_ty(),
            None => dim3_name(name@),
        },
        _ => false,
    }
}

/// Whether the value of an expression is what stands in a place that it names.
pub open spec fn names_place(locals: Seq<Map<Seq<char>, SlotV>>, e: Expr) -> bool {
    match e {
        Expr::Ident { name, span } => match local_in(locals, name@) {
            Some(slot) => !(slot.ty is Unknown),
            None => false,
        },
        Expr::Index { .. } => true,
        Expr::Member { base, name, arrow, span } => arrow || match *base {
            Expr::Ident { name: base_name, span: sp } => index_op(base_name@, name@) is None,
            _ => true,
        },
        Expr::Unary { op, expr, span } => op == UnaryOp::Deref,
        _ => false,
    }
}

/// Whether an expression is `&place` under any number of casts.
pub open spec fn peels_to_address(e: Expr) -> bool
    decreases e,
{
    match e {
        Expr::Cast { ty, expr, span } => peels_to_address(*expr),
        Expr::Unary { op, expr, span } => op == UnaryOp::Addr,
        _ => false,
    }
}

fn is_address(e: &Expr) -> (r: bool)
    ensures
        r == peels_to_address(*e),
    decreases e,
{
    match e {
        Expr::Cast { expr, .. } => is_address(expr),
        Expr::Unary { op, .. } => matches!(op, UnaryOp::Addr),
        _ => false,
    }
}

/// The values and types of a list of expressions.
pub open spec fn vals_view(v: Seq<(ValRef, Ty)>) -> Seq<(ValRef, TyV)> {
    v.map_values(|p: (ValRef, Ty)| (p.0, p.1@))
}

pub open spec fn any_unknown(v: Seq<(ValRef, TyV)>) -> bool {
    exists|i: int| 0 <= i < v.len() && (#[trigger] v[i]).1 is Unknown
}

pub open spec fn any_aggregate(v: Seq<(ValRef, TyV)>) -> bool {
    exists|i: int| 0 <= i < v.len() && aggregate((#[trigger] v[i]).1)
}

pub open spec fn refs_of(v: Seq<(ValRef, TyV)>) -> Seq<ValRef> {
    v.map_values(|p: (ValRef, TyV)| p.0)
}

fn has_unknown(v: &Vec<(ValRef, Ty)>) -> (r: bool)
    ensures
        r == any_unknown(vals_view(v@)),
{
    let mut i: usize = 0;
    while i < v.len()
        invariant
            i <= v@.len(),
            forall|j: int| 0 <= j < i ==> !((#[trigger] vals_view(v@)[j]).1 is Unknown),
        decreases v@.len() - i,
    {
        assert(vals_view(v@)[i as int].1 == v@[i as int].1@);
        if v[i].1.is_unknown() {
            return true;
        }
        i = i + 1;
    }
    false
}

fn has_aggregate(v: &Vec<(ValRef, Ty)>) -> (r: bool)
    ensures
        r == any_aggregate(vals_view(v@)),
{
    let mut i: usize = 0;
    while i < v.len()
        invariant
            i <= v@.len(),
            forall|j: int| 0 <= j < i ==> !aggregate((#[trigger] vals_view(v@)[j]).1),
        decreases v@.len() - i,
    {
        assert(vals_view(v@)[i as int].1 == v@[i as int].1@);
        if is_aggregate(&v[i].1) {
            return true;
        }
        i = i + 1;
    }
    false
}

fn take_refs(v: &Vec<(ValRef, Ty)>) -> (r: Vec<ValRef>)
    ensures
        r@ == refs_of(vals_view(v@)),
{
    let mut r: Vec<ValRef> = Vec::new();
    let mut i: usize = 0;
    while i < v.len()
        invariant
            i <= v@.len(),
            r@.len() == i,
            forall|j: int| 0 <= j < i ==> #[trigger] r@[j] == v@[j].0,
        decreases v@.len() - i,
    {
        r.push(v[i].0);
        i = i + 1;
    }
    assert(r@ =~= refs_of(vals_view(v@)));
    r
}

pub open spec fn bir_tys(v: Seq<TyV>) -> Seq<BTy> {
    v.map_values(|t: TyV| bir_ty(t))
}

fn to_bir_tys(v: &Vec<Ty>) -> (r: Vec<BTy>)
    ensures
        r@ == bir_tys(tys_view(v@)),
{
    let mut r: Vec<BTy> = Vec::new();
    let mut i: usize = 0;
    while i < v.len()
        invariant
            i <= v@.len(),
            r@.len() == i,
            forall|j: int| 0 <= j < i ==> #[trigger] r@[j] == bir_ty(v@[j]@),
        decreases v@.len() - i,
    {
        r.push(to_bir_ty(&v[i]));
        i = i + 1;
    }
    proof {
        lemma_tys_take(v@, v@.len());
        assert(r@ =~= bir_tys(tys_view(v@)));
    }
    r
}

pub open spec fn slot_address(slot: u32) -> i64 {
    (slot * SLOT_STRIDE) as i64
}

pub open spec fn not_addressable(name: Seq<char>) -> Seq<char> {
    "'"@ + name + "' is not addressable"@
}

/// A zero of a type.
#[verifier::opaque]
pub open spec fn zero_of_s(st: LwState, ty: TyV) -> (LwState, ValRef)
{
    if ty.float() {
        push_s(st, bir_ty(ty), OpV::ConstFloat(float_zero()))
    } else {
        push_s(st, bir_ty(ty), OpV::ConstInt(0))
    }
}

/// A value that stands for what could not be lowered.
#[verifier::opaque]
pub open spec fn placeholder_s(st: LwState) -> (LwState, (ValRef, TyV))
{
    let (st, v) = push_s(st, BTy::Scalar(Scalar::I32), OpV::ConstInt(0));
    (st, (v, TyV::Unknown))
}

/// The address of a cell.
#[verifier::opaque]
pub open spec fn slot_addr_s(st: LwState, s: SlotV) -> (LwState, ValRef)
{
    push_s(st, BTy::Ptr(s.space), OpV::ConstInt(slot_address(s.slot)))
}

/// The place that is a cell.
#[verifier::opaque]
pub open spec fn slot_lvalue_s(st: LwState, s: SlotV) -> (LwState, LValueV)
{
    let (st, addr) = slot_addr_s(st, s);
    (st, LValueV { addr, ty: s.ty, space: s.space })
}

/// A place for what could not be found.
#[verifier::opaque]
pub open spec fn lvalue_unknown_s(st: LwState) -> (LwState, LValueV)
{
    let (st, addr) = push_s(st, BTy::Ptr(AddrSpace::Local), OpV::ConstInt(0));
    (st, LValueV { addr, ty: TyV::Unknown, space: AddrSpace::Local })
}

/// The value in a place.
#[verifier::opaque]
pub open spec fn load_addr_s(st: LwState, lv: LValueV) -> (LwState, (ValRef, TyV))
{
    let bty = bir_ty(lv.ty);
    let (st, v) = push_s(
        st,
        bty,
        OpV::Load { ptr: lv.addr, space: lv.space, align: align_of(bty), volatile: false },
    );
    (st, (v, lv.ty))
}

/// Puts a value in a place.
#[verifier::opaque]
pub open spec fn store_addr_s(st: LwState, lv: LValueV, val: ValRef) -> LwState
{
    let bty = bir_ty(lv.ty);
    push_void_s(
        st,
        OpV::Store {
            ptr: lv.addr,
            val,
            ty: bty,
            space: lv.space,
            align: align_of(bty),
            volatile: false,
        },
    )
}

/// A value as one of another type.
#[verifier::opaque]
pub open spec fn coerce_to_s(st: LwState, v: ValRef, from: TyV, to: TyV) -> (LwState, ValRef)
{
    match cast_of(from, to) {
        None => {
            (st, v)
        },
        Some(op) => {
            push_s(st, bir_ty(to), OpV::Cast(op, bir_ty(from), v))
        },
    }
}

/// An index as a 64-bit integer.
#[verifier::opaque]
pub open spec fn widen_index_i64_s(st: LwState, v: ValRef, ty: TyV) -> (LwState, ValRef)
{
    match bir_ty(ty) {
        BTy::Scalar(Scalar::I64) => {
            (st, v)
        },
        BTy::Scalar(_) => {
            coerce_to_s(st, v, ty, TyV::Scalar(ScalarKind::Long))
        },
        _ => {
            (st, v)
        },
    }
}

/// Whether a value is not zero.
#[verifier::opaque]
pub open spec fn truthy_s(st: LwState, v: ValRef, ty: TyV) -> (LwState, ValRef)
{
    let bty = bir_ty(ty);
    if ty.float() {
        let (st, zero) = push_s(st, bty, OpV::ConstFloat(float_zero()));
        push_s(st, BTy::Scalar(Scalar::I1), OpV::FCmp(FCmpPred::One, bty, v, zero))
    } else {
        let (st, zero) = push_s(st, bty, OpV::ConstInt(0));
        push_s(st, BTy::Scalar(Scalar::I1), OpV::ICmp(ICmpPred::Ne, bty, v, zero))
    }
}

/// The truth value that a condition branches on; one that is not known counts as true.
pub open spec fn condition_s(st: LwState, e: Expr) -> (LwState, ValRef)
    decreases e, 10nat,
{
    let (st, (cv, cty)) = lower_expr_s(st, e);
    if (cty is Unknown) {
        push_s(st, BTy::Scalar(Scalar::I1), OpV::ConstInt(1))
    } else {
        truthy_s(st, cv, cty)
    }
}

/// The type that a tag stands for.
#[verifier::opaque]
pub open spec fn resolve_tag_s(
    st: LwState,
    kind: TagKind,
    name: Seq<char>,
    span: Span,
) -> (LwState, TyV)
{
    if name.len() == 0 { (st, TyV::Unknown) } else {
        match kind {
            TagKind::Struct => {
                if find_struct(st.scopes, name) is Some {
                    (st, TyV::Struct(name))
                } else {
                    let st = err_s(st, ECode::UndefinedSymbol, span, name);
                    (st, TyV::Unknown)
                }
            },
            TagKind::Union => {
                if find_union(st.scopes, name) is Some {
                    (st, TyV::Union(name))
                } else {
                    let st = err_s(st, ECode::UndefinedSymbol, span, name);
                    (st, TyV::Unknown)
                }
            },
            TagKind::Enum => {
                if find_enum(st.scopes, name) is Some {
                    (st, TyV::Enum(name))
                } else {
                    let st = err_s(st, ECode::UndefinedSymbol, span, name);
                    (st, TyV::Unknown)
                }
            },
        }
    }
}

/// The type that a bare name stands for.
#[verifier::opaque]
pub open spec fn resolve_named_s(st: LwState, name: Seq<char>, span: Span) -> (LwState, TyV)
{
    if find_typedef(st.scopes, name) is Some {
        (st, find_typedef(st.scopes, name)->0)
    } else {
        if find_struct(st.scopes, name) is Some {
            (st, TyV::Struct(name))
        } else if find_union(st.scopes, name) is Some {
            (st, TyV::Union(name))
        } else if find_enum(st.scopes, name) is Some {
            (st, TyV::Enum(name))
        } else {
            let st = err_s(st, ECode::UndefinedSymbol, span, name);
            (st, TyV::Unknown)
        }
    }
}

/// The type that a declared type stands for.
pub open spec fn resolve_type_s(st: LwState, ty: Type) -> (LwState, TyV)
    decreases ty,
{
    match ty {
        Type::Scalar { kind, .. } => {
            (st, TyV::Scalar(kind))
        },
        Type::Tag { kind, name, span, .. } => {
            resolve_tag_s(st, kind, name@, span)
        },
        Type::Named { name, span, .. } => {
            resolve_named_s(st, name@, span)
        },
        Type::Pointer { pointee, .. } => {
            let (st, p) = resolve_type_s(st, *pointee);
            (st, TyV::Pointer(Box::new(p), const_at_top(*pointee)))
        },
        Type::Array { elem, .. } => {
            let (st, e) = resolve_type_s(st, *elem);
            (st, TyV::Array(Box::new(e)))
        },
        Type::Instantiated { .. } => {
            (st, TyV::Unknown)
        },
    }
}

/// Reports a name that stands for no cell.
#[verifier::opaque]
pub open spec fn diag_for_unresolved_name_s(st: LwState, name: Seq<char>, span: Span) -> LwState
{
    let is_func = match find_value(st.scopes, name) {
        Some(ValueSymV::Func(_)) => true,
        _ => false,
    };
    if dim3_name(name) {
        diag_unsupported_s(st, span, "GPU intrinsic"@, name)
    } else if st.globals.contains_key(name) {
        diag_unsupported_s(st, span, "global variable storage"@, name)
    } else if is_func {
        diag_unsupported_s(st, span, "function-pointer value"@, name)
    } else {
        err_s(st, ECode::UndefinedSymbol, span, name)
    }
}

/// The value in a place; an array is its address, and a whole struct or union is no value.
#[verifier::opaque]
pub open spec fn value_of_lvalue_s(st: LwState, lv: LValueV, span: Span) -> (LwState, (ValRef, TyV))
{
    if (lv.ty is Unknown) {
        placeholder_s(st)
    } else if aggregate(lv.ty) {
        match lv.ty { TyV::Array(elem) => (st, (lv.addr, TyV::Pointer(elem, false))), _ => {
                let st = diag_unsupported_s(
                    st,
                    span,
                    "whole-aggregate value"@,
                    "struct/union used by value (no BIR aggregate type)"@,
                );
                placeholder_s(st)
            } }
    } else {
        load_addr_s(st, lv)
    }
}

/// The value of a name.
#[verifier::opaque]
pub open spec fn lower_ident_value_s(
    st: LwState,
    name: Seq<char>,
    span: Span,
) -> (LwState, (ValRef, TyV))
{
    match local_in(st.locals, name) {
        Some(slot) => {
            if (slot.ty is Unknown) {
                placeholder_s(st)
            } else {
                let (st, lv) = slot_lvalue_s(st, slot);
                value_of_lvalue_s(st, lv, span)
            }
        },
        None => {
            if dim3_name(name) {
                let st = diag_unsupported_s(st, span, "GPU intrinsic"@, name);
                placeholder_s(st)
            } else {
                let found = if st.enums.contains_key(name) { Some(st.enums[name]) } else { None };
                match found {
                    Some(n) => {
                        let (st, v) = push_s(st, BTy::Scalar(Scalar::I32), OpV::ConstInt(n));
                        (st, (v, TyV::Scalar(ScalarKind::Int)))
                    },
                    None => {
                        let st = diag_for_unresolved_name_s(st, name, span);
                        placeholder_s(st)
                    },
                }
            }
        },
    }
}

/// The place that an expression names.
pub open spec fn lower_lvalue_s(st: LwState, e: Expr) -> (LwState, LValueV)
    decreases e, 8nat,
{
    match e {
        Expr::Ident { name, span } => {
            match local_in(st.locals, name@) {
                Some(slot) => {
                    slot_lvalue_s(st, slot)
                },
                None => {
                    let st = if dim3_name(name@) {
                        diag_unsupported_s(st, span, "GPU intrinsic"@, name@)
                    } else if st.enums.contains_key(name@) {
                        err_s(st, ECode::TypeError, span, not_addressable(name@))
                    } else {
                        diag_for_unresolved_name_s(st, name@, span)
                    };
                    lvalue_unknown_s(st)
                },
            }
        },
        Expr::Unary { op, expr, span } => {
            if op == UnaryOp::Deref {
                let (st, (v, ty)) = lower_expr_s(st, *expr);
                if (ty is Unknown) {
                    lvalue_unknown_s(st)
                } else {
                    match ty.target() {
                        Some(target) => {
                            (st, LValueV { addr: v, ty: target, space: AddrSpace::Global })
                        },
                        None => {
                            let st = diag_unsupported_s(
                                st,
                                span,
                                "dereference"@,
                                "operand is not a pointer"@,
                            );
                            lvalue_unknown_s(st)
                        },
                    }
                }
            } else {
                let st = err_s(st, ECode::TypeError, span, "expression is not addressable"@);
                lvalue_unknown_s(st)
            }
        },
        Expr::Index { .. } => {
            lower_index_lvalue_s(st, e)
        },
        Expr::Member { .. } => {
            lower_member_lvalue_s(st, e)
        },
        _ => {
            let st = err_s(st, ECode::TypeError, expr_span(e), "expression is not addressable"@);
            lvalue_unknown_s(st)
        },
    }
}

/// What an index counts from: the first element of an array or of what a pointer points to.
pub open spec fn index_base_s(st: LwState, base: Expr, span: Span) -> (LwState, Option<LValueV>)
    decreases base, 10nat,
{
    if lvalue(base) {
        let (st, lv) = lower_lvalue_s(st, base);
        if (lv.ty is Unknown) {
            (st, None)
        } else {
            match lv.ty.target() {
                Some(elem) => {
                    if (lv.ty is Pointer) {
                        let (st, (v, _)) = load_addr_s(st, lv);
                        (st, Some(LValueV { addr: v, ty: elem, space: AddrSpace::Global }))
                    } else {
                        (st, Some(LValueV { addr: lv.addr, ty: elem, space: lv.space }))
                    }
                },
                None => {
                    let st = diag_unsupported_s(
                        st,
                        span,
                        "indexing"@,
                        "base is not an array or pointer"@,
                    );
                    (st, None)
                },
            }
        }
    } else {
        let (st, (v, ty)) = lower_expr_s(st, base);
        if (ty is Unknown) {
            (st, None)
        } else {
            match ty.target() {
                Some(elem) => {
                    (st, Some(LValueV { addr: v, ty: elem, space: AddrSpace::Global }))
                },
                None => {
                    let st = diag_unsupported_s(
                        st,
                        span,
                        "indexing"@,
                        "base is not an array or pointer"@,
                    );
                    (st, None)
                },
            }
        }
    }
}

/// The place of an element: the base and the index times the size of an element.
pub open spec fn lower_index_lvalue_s(st: LwState, e: Expr) -> (LwState, LValueV)
    decreases e, 7nat,
{
    match e {
        Expr::Index { base, index, span } => {
            let (st, (idx_val, idx_ty)) = lower_expr_s(st, *index);
            if (idx_ty is Unknown) {
                lvalue_unknown_s(st)
            } else {
                let (st, found) = index_base_s(st, *base, span);
                match found {
                    None => {
                        lvalue_unknown_s(st)
                    },
                    Some(b) => {
                        let esz = low_i64(size_s(st, b.ty) as int);
                        let (st, idx64) = widen_index_i64_s(st, idx_val, idx_ty);
                        let (st, esz_val) = push_s(
                            st,
                            BTy::Scalar(Scalar::I64),
                            OpV::ConstInt(esz),
                        );
                        let (st, byte_off) = push_s(
                            st,
                            BTy::Scalar(Scalar::I64),
                            OpV::Bin(BBin::Mul, idx64, esz_val),
                        );
                        let (st, addr) = push_s(
                            st,
                            BTy::Ptr(b.space),
                            OpV::Bin(BBin::Add, b.addr, byte_off),
                        );
                        (st, LValueV { addr, ty: b.ty, space: b.space })
                    },
                }
            }
        },
        _ => {
            lvalue_unknown_s(st)
        },
    }
}

/// The struct or union that a member access looks into.
pub open spec fn member_base_s(
    st: LwState,
    base: Expr,
    arrow: bool,
    span: Span,
) -> (LwState, Option<LValueV>)
    decreases base, 10nat,
{
    if arrow {
        let (st, (v, ty)) = lower_expr_s(st, base);
        if (ty is Unknown) {
            (st, None)
        } else {
            match ty.target() {
                Some(t) => {
                    (st, Some(LValueV { addr: v, ty: t, space: AddrSpace::Global }))
                },
                None => {
                    let st = diag_unsupported_s(
                        st,
                        span,
                        "member access"@,
                        "'->' on a non-pointer type"@,
                    );
                    (st, None)
                },
            }
        }
    } else {
        let (st, lv) = lower_lvalue_s(st, base);
        if (lv.ty is Unknown) {
            (st, None)
        } else {
            (st, Some(lv))
        }
    }
}

/// The place of a field, given where the whole is and the offset of the field.
#[verifier::opaque]
pub open spec fn field_place_s(st: LwState, base: LValueV, off: u64, fty: TyV) -> (LwState, LValueV)
{
    let (st, off_val) = push_s(st, BTy::Scalar(Scalar::I64), OpV::ConstInt(low_i64(off as int)));
    let (st, addr) = push_s(st, BTy::Ptr(base.space), OpV::Bin(BBin::Add, base.addr, off_val));
    (st, LValueV { addr, ty: fty, space: base.space })
}

/// The place of a member.
pub open spec fn lower_member_lvalue_s(st: LwState, e: Expr) -> (LwState, LValueV)
    decreases e, 7nat,
{
    match e {
        Expr::Member { base, name, arrow, span } => {
            let (st, found) = member_base_s(st, *base, arrow, span);
            match found {
                None => {
                    lvalue_unknown_s(st)
                },
                Some(b) => {
                    if !(b.ty is Struct || b.ty is Union) {
                        let st = diag_unsupported_s(
                            st,
                            span,
                            "member access"@,
                            "base is not a struct/union"@,
                        );
                        lvalue_unknown_s(st)
                    } else {
                        match field_offset_s(st, b.ty, name@) {
                            Some((off, fty)) => {
                                field_place_s(st, b, off, fty)
                            },
                            None => {
                                let st = diag_unsupported_s(
                                    st,
                                    span,
                                    "member access"@,
                                    "unknown field '"@ + name@ + "'"@,
                                );
                                lvalue_unknown_s(st)
                            },
                        }
                    }
                },
            }
        },
        _ => {
            lvalue_unknown_s(st)
        },
    }
}

/// A cast.
pub open spec fn lower_cast_s(st: LwState, e: Expr) -> (LwState, (ValRef, TyV))
    decreases e, 8nat,
{
    match e {
        Expr::Cast { ty, expr, span } => {
            let (st, target) = resolve_type_s(st, ty);
            let (st, (v, src)) = lower_expr_s(st, *expr);
            if (src is Unknown) || (target is Unknown) {
                placeholder_s(st)
            } else if aggregate(target) || aggregate(src) {
                let st = diag_unsupported_s(
                    st,
                    span,
                    "cast involving a struct/union/array"@,
                    "no BIR aggregate type"@,
                );
                placeholder_s(st)
            } else {
                let (st, c) = coerce_to_s(st, v, src, target);
                (st, (c, target))
            }
        },
        _ => {
            placeholder_s(st)
        },
    }
}

/// A unary operation on a value.
pub open spec fn lower_unary_s(st: LwState, op: UnaryOp, expr: Expr) -> (LwState, (ValRef, TyV))
    decreases expr, 10nat,
{
    let (st, (v, ty)) = lower_expr_s(st, expr);
    if (ty is Unknown) {
        placeholder_s(st)
    } else {
        let bty = bir_ty(ty);
        match op {
            UnaryOp::Plus => {
                (st, (v, ty))
            },
            UnaryOp::Neg => {
                if ty.float() {
                    let (st, zero) = push_s(st, bty, OpV::ConstFloat(float_zero()));
                    let (st, r2) = push_s(st, bty, OpV::Bin(BBin::FSub, zero, v));
                    (st, (r2, ty))
                } else {
                    let (st, zero) = push_s(st, bty, OpV::ConstInt(0));
                    let (st, r2) = push_s(st, bty, OpV::Bin(BBin::Sub, zero, v));
                    (st, (r2, ty))
                }
            },
            UnaryOp::BitNot => {
                let (st, allones) = push_s(st, bty, OpV::ConstInt(MINUS_ONE));
                let (st, r2) = push_s(st, bty, OpV::Bin(BBin::Xor, v, allones));
                (st, (r2, ty))
            },
            UnaryOp::Not => {
                if ty.float() {
                    let (st, zero) = push_s(st, bty, OpV::ConstFloat(float_zero()));
                    let (st, c) = push_s(
                        st,
                        BTy::Scalar(Scalar::I1),
                        OpV::FCmp(FCmpPred::Oeq, bty, v, zero),
                    );
                    let (st, r2) = push_s(
                        st,
                        BTy::Scalar(Scalar::I32),
                        OpV::Cast(CastOp::Zext, BTy::Scalar(Scalar::I1), c),
                    );
                    (st, (r2, TyV::Scalar(ScalarKind::Int)))
                } else {
                    let (st, zero) = push_s(st, bty, OpV::ConstInt(0));
                    let (st, c) = push_s(
                        st,
                        BTy::Scalar(Scalar::I1),
                        OpV::ICmp(ICmpPred::Eq, bty, v, zero),
                    );
                    let (st, r2) = push_s(
                        st,
                        BTy::Scalar(Scalar::I32),
                        OpV::Cast(CastOp::Zext, BTy::Scalar(Scalar::I1), c),
                    );
                    (st, (r2, TyV::Scalar(ScalarKind::Int)))
                }
            },
            _ => {
                placeholder_s(st)
            },
        }
    }
}

/// `&&` and `||`: the right operand is only evaluated where the left one does not decide.
pub open spec fn lower_logical_s(st: LwState, e: Expr) -> (LwState, (ValRef, TyV))
    decreases e, 7nat,
{
    match e {
        Expr::Binary { op, lhs, rhs, .. } => {
            let (st, (lv, lty)) = lower_expr_s(st, *lhs);
            if (lty is Unknown) {
                placeholder_s(st)
            } else {
                let (st, lb) = truthy_s(st, lv, lty);
                let is_and = op == BinOp::LogAnd;
                let short_const = if is_and { 0i64 } else { 1i64 };
                let (st, short_val) = push_s(
                    st,
                    BTy::Scalar(Scalar::I32),
                    OpV::ConstInt(short_const),
                );
                let short_bb = st.b.cur;
                let (st, rhs_bb) = alloc_block_s(st);
                let (st, merge_bb) = alloc_block_s(st);
                let st = if is_and {
                    terminate_s(st, TermV::CondBr(lb, rhs_bb, merge_bb))
                } else {
                    terminate_s(st, TermV::CondBr(lb, merge_bb, rhs_bb))
                };
                let st = set_cur_s(st, rhs_bb);
                let (st, (rv, rty)) = lower_expr_s(st, *rhs);
                let (st, rb32) = if (rty is Unknown) {
                    push_s(st, BTy::Scalar(Scalar::I32), OpV::ConstInt(0))
                } else {
                    let (st, rb) = truthy_s(st, rv, rty);
                    push_s(
                        st,
                        BTy::Scalar(Scalar::I32),
                        OpV::Cast(CastOp::Zext, BTy::Scalar(Scalar::I1), rb),
                    )
                };
                let rhs_end_bb = st.b.cur;
                let st = terminate_s(st, TermV::Br(merge_bb));
                let st = set_cur_s(st, merge_bb);
                let edges = seq![(short_bb, short_val), (rhs_end_bb, rb32)];
                let (st, phi) = push_s(st, BTy::Scalar(Scalar::I32), OpV::Phi(edges));
                (st, (phi, TyV::Scalar(ScalarKind::Int)))
            }
        },
        _ => {
            placeholder_s(st)
        },
    }
}

/// A comparison, as 0 or 1.
#[verifier::opaque]
pub open spec fn lower_compare_s(
    st: LwState,
    op: BinOp,
    lv: ValRef,
    lty: TyV,
    rv: ValRef,
    rty: TyV,
) -> (LwState, (ValRef, TyV))
{
    let (st, c) = if lty.pointer_like() || rty.pointer_like() {
        push_s(
            st,
            BTy::Scalar(Scalar::I1),
            OpV::ICmp(pointer_pred(op), BTy::Ptr(AddrSpace::Global), lv, rv),
        )
    } else {
        let ct = promoted(lty, rty);
        let bty = bir_ty(ct);
        let (st, l2) = coerce_to_s(st, lv, lty, ct);
        let (st, r2) = coerce_to_s(st, rv, rty, ct);
        if lty.float() || rty.float() {
            push_s(st, BTy::Scalar(Scalar::I1), OpV::FCmp(float_pred(op), bty, l2, r2))
        } else {
            push_s(st, BTy::Scalar(Scalar::I1), OpV::ICmp(int_pred(op, signed_ty(ct)), bty, l2, r2))
        }
    };
    let (st, w) = push_s(
        st,
        BTy::Scalar(Scalar::I32),
        OpV::Cast(CastOp::Zext, BTy::Scalar(Scalar::I1), c),
    );
    (st, (w, TyV::Scalar(ScalarKind::Int)))
}

/// Arithmetic at the common type of the operands.
#[verifier::opaque]
pub open spec fn lower_arith_s(
    st: LwState,
    op: BinOp,
    lv: ValRef,
    lty: TyV,
    rv: ValRef,
    rty: TyV,
) -> (LwState, (ValRef, TyV))
{
    let result_ty = promoted(lty, rty);
    let (st, l2) = coerce_to_s(st, lv, lty, result_ty);
    let (st, r2) = coerce_to_s(st, rv, rty, result_ty);
    let bop = arith_op(op, result_ty.float(), signed_ty(result_ty));
    let (st, v) = push_s(st, bir_ty(result_ty), OpV::Bin(bop, l2, r2));
    (st, (v, result_ty))
}

/// A pointer moved by a number of elements.
#[verifier::opaque]
pub open spec fn lower_ptr_offset_s(
    st: LwState,
    pv: ValRef,
    pty: TyV,
    iv: ValRef,
    ity: TyV,
) -> (LwState, (ValRef, TyV))
{
    match pty.target() {
        None => {
            placeholder_s(st)
        },
        Some(elem) => {
            if (elem is Unknown) {
                placeholder_s(st)
            } else {
                let esz = low_i64(size_s(st, elem) as int);
                let (st, idx64) = widen_index_i64_s(st, iv, ity);
                let (st, esz_val) = push_s(st, BTy::Scalar(Scalar::I64), OpV::ConstInt(esz));
                let (st, byte_off) = push_s(
                    st,
                    BTy::Scalar(Scalar::I64),
                    OpV::Bin(BBin::Mul, idx64, esz_val),
                );
                let (st, addr) = push_s(
                    st,
                    BTy::Ptr(AddrSpace::Global),
                    OpV::Bin(BBin::Add, pv, byte_off),
                );
                (st, (addr, TyV::Pointer(Box::new(elem), false)))
            }
        },
    }
}

/// `+` on numbers, or on a pointer and an integer.
#[verifier::opaque]
pub open spec fn lower_add_s(
    st: LwState,
    lv: ValRef,
    lty: TyV,
    rv: ValRef,
    rty: TyV,
    span: Span,
) -> (LwState, (ValRef, TyV))
{
    if lty.pointer_like() && rty.integer() {
        lower_ptr_offset_s(st, lv, lty, rv, rty)
    } else if rty.pointer_like() && lty.integer() {
        lower_ptr_offset_s(st, rv, rty, lv, lty)
    } else if lty.arithmetic() && rty.arithmetic() {
        lower_arith_s(st, BinOp::Add, lv, lty, rv, rty)
    } else {
        let st = diag_unsupported_s(
            st,
            span,
            "'+' operand combination"@,
            "not arithmetic or pointer+integer"@,
        );
        placeholder_s(st)
    }
}

/// `-` on numbers, or on a pointer and an integer.
#[verifier::opaque]
pub open spec fn lower_sub_s(
    st: LwState,
    lv: ValRef,
    lty: TyV,
    rv: ValRef,
    rty: TyV,
    span: Span,
) -> (LwState, (ValRef, TyV))
{
    if lty.pointer_like() && rty.pointer_like() {
        let st = diag_unsupported_s(
            st,
            span,
            "pointer difference"@,
            "BIR pointers are opaque; no integer representation to subtract"@,
        );
        placeholder_s(st)
    } else if lty.pointer_like() && rty.integer() {
        let (st, r64) = widen_index_i64_s(st, rv, rty);
        let (st, zero) = push_s(st, BTy::Scalar(Scalar::I64), OpV::ConstInt(0));
        let (st, neg) = push_s(st, BTy::Scalar(Scalar::I64), OpV::Bin(BBin::Sub, zero, r64));
        lower_ptr_offset_s(st, lv, lty, neg, TyV::Scalar(ScalarKind::Long))
    } else if lty.arithmetic() && rty.arithmetic() {
        lower_arith_s(st, BinOp::Sub, lv, lty, rv, rty)
    } else {
        let st = diag_unsupported_s(
            st,
            span,
            "'-' operand combination"@,
            "not arithmetic or pointer-integer"@,
        );
        placeholder_s(st)
    }
}

/// A binary operation.
pub open spec fn lower_binary_s(st: LwState, e: Expr) -> (LwState, (ValRef, TyV))
    decreases e, 8nat,
{
    match e {
        Expr::Binary { op, lhs, rhs, span } => {
            if op == BinOp::LogOr || op == BinOp::LogAnd {
                lower_logical_s(st, e)
            } else {
                let (st, (lv, lty)) = lower_expr_s(st, *lhs);
                let (st, (rv, rty)) = lower_expr_s(st, *rhs);
                if (lty is Unknown) || (rty is Unknown) {
                    placeholder_s(st)
                } else {
                    match op {
                        BinOp::Eq | BinOp::Ne | BinOp::Lt | BinOp::Gt | BinOp::Le | BinOp::Ge => {
                            lower_compare_s(st, op, lv, lty, rv, rty)
                        },
                        BinOp::Add => {
                            lower_add_s(st, lv, lty, rv, rty, span)
                        },
                        BinOp::Sub => {
                            lower_sub_s(st, lv, lty, rv, rty, span)
                        },
                        _ => {
                            lower_arith_s(st, op, lv, lty, rv, rty)
                        },
                    }
                }
            }
        },
        _ => {
            placeholder_s(st)
        },
    }
}

/// An assignment; its value is what was stored.
pub open spec fn lower_assign_s(st: LwState, e: Expr) -> (LwState, (ValRef, TyV))
    decreases e, 8nat,
{
    match e {
        Expr::Assign { op, lhs, rhs, span } => {
            let (st, lv) = lower_lvalue_s(st, *lhs);
            if (lv.ty is Unknown) {
                let (st, _) = lower_expr_s(st, *rhs);
                placeholder_s(st)
            } else if aggregate(lv.ty) {
                let st = diag_unsupported_s(
                    st,
                    span,
                    "whole-aggregate assignment"@,
                    "struct/union/array copy has no BIR representation"@,
                );
                let (st, _) = lower_expr_s(st, *rhs);
                placeholder_s(st)
            } else {
                let (st, (rv, rty)) = lower_expr_s(st, *rhs);
                if (rty is Unknown) {
                    placeholder_s(st)
                } else if op == AssignOp::Assign {
                    let (st, coerced) = coerce_to_s(st, rv, rty, lv.ty);
                    let st = store_addr_s(st, lv, coerced);
                    (st, (coerced, lv.ty))
                } else {
                    let bin = binop_of(op);
                    let (st, (cur_v, cur_ty)) = load_addr_s(st, lv);
                    let (st, (result_v, result_ty)) = match bin {
                        BinOp::Add => {
                            lower_add_s(st, cur_v, cur_ty, rv, rty, span)
                        },
                        BinOp::Sub => {
                            lower_sub_s(st, cur_v, cur_ty, rv, rty, span)
                        },
                        _ => {
                            lower_arith_s(st, bin, cur_v, cur_ty, rv, rty)
                        },
                    };
                    if (result_ty is Unknown) {
                        placeholder_s(st)
                    } else {
                        let (st, coerced) = coerce_to_s(st, result_v, result_ty, lv.ty);
                        let st = store_addr_s(st, lv, coerced);
                        (st, (coerced, lv.ty))
                    }
                }
            }
        },
        _ => {
            placeholder_s(st)
        },
    }
}

/// An increment or decrement; its value is the new one before the operand, the old one behind it.
pub open spec fn lower_incdec_s(
    st: LwState,
    op: IncDecOp,
    expr: Expr,
    is_pre: bool,
) -> (LwState, (ValRef, TyV))
    decreases expr, 10nat,
{
    let (st, lv) = lower_lvalue_s(st, expr);
    if (lv.ty is Unknown) {
        placeholder_s(st)
    } else {
        let (st, (cur_v, cur_ty)) = load_addr_s(st, lv);
        let inc = op == IncDecOp::Inc;
        let bty = bir_ty(cur_ty);
        let (st, (new_v, new_ty)) = if (cur_ty is Pointer) {
            let delta = if inc { 1i64 } else { MINUS_ONE };
            let (st, deltav) = push_s(st, BTy::Scalar(Scalar::I64), OpV::ConstInt(delta));
            lower_ptr_offset_s(st, cur_v, cur_ty, deltav, TyV::Scalar(ScalarKind::Long))
        } else if cur_ty.float() {
            let (st, one) = push_s(st, bty, OpV::ConstFloat(float_one()));
            let bop = if inc { BBin::FAdd } else { BBin::FSub };
            let (st, r2) = push_s(st, bty, OpV::Bin(bop, cur_v, one));
            (st, (r2, cur_ty))
        } else {
            let (st, one) = push_s(st, bty, OpV::ConstInt(1));
            let bop = if inc { BBin::Add } else { BBin::Sub };
            let (st, r2) = push_s(st, bty, OpV::Bin(bop, cur_v, one));
            (st, (r2, cur_ty))
        };
        let (st, coerced) = coerce_to_s(st, new_v, new_ty, cur_ty);
        let st = store_addr_s(st, lv, coerced);
        if is_pre {
            (st, (coerced, cur_ty))
        } else {
            (st, (cur_v, cur_ty))
        }
    }
}

/// Ends both branches of a conditional expression and goes on in the block where they meet.
#[verifier::opaque]
pub open spec fn join_branches_s(
    st: LwState,
    then_end: BlockId,
    else_end: BlockId,
    merge_bb: BlockId,
) -> LwState
{
    let st = set_cur_s(st, then_end);
    let st = terminate_s(st, TermV::Br(merge_bb));
    let st = set_cur_s(st, else_end);
    let st = terminate_s(st, TermV::Br(merge_bb));
    set_cur_s(st, merge_bb)
}

/// A conditional expression.
pub open spec fn lower_ternary_s(st: LwState, e: Expr) -> (LwState, (ValRef, TyV))
    decreases e, 8nat,
{
    match e {
        Expr::Ternary { cond, then_branch, else_branch, span } => {
            let (st, (cv, cty)) = lower_expr_s(st, *cond);
            if (cty is Unknown) {
                let (st, _) = lower_expr_s(st, *then_branch);
                let (st, _) = lower_expr_s(st, *else_branch);
                placeholder_s(st)
            } else {
                let (st, cb) = truthy_s(st, cv, cty);
                let (st, then_bb) = alloc_block_s(st);
                let (st, else_bb) = alloc_block_s(st);
                let (st, merge_bb) = alloc_block_s(st);
                let st = terminate_s(st, TermV::CondBr(cb, then_bb, else_bb));
                let st = set_cur_s(st, then_bb);
                let (st, (tv, tty)) = lower_expr_s(st, *then_branch);
                let then_end = st.b.cur;
                let st = set_cur_s(st, else_bb);
                let (st, (ev, ety)) = lower_expr_s(st, *else_branch);
                let else_end = st.b.cur;
                if (tty is Unknown) || (ety is Unknown) {
                    let st = join_branches_s(st, then_end, else_end, merge_bb);
                    placeholder_s(st)
                } else if !fits(tty, ety) && !fits(ety, tty) {
                    let st = diag_unsupported_s(
                        st,
                        span,
                        "ternary branch types"@,
                        "incompatible types in the two branches"@,
                    );
                    let st = join_branches_s(st, then_end, else_end, merge_bb);
                    placeholder_s(st)
                } else {
                    let result_ty = if fits(tty, ety) { tty } else { ety };
                    if aggregate(result_ty) {
                        let st = diag_unsupported_s(
                            st,
                            span,
                            "whole-aggregate value"@,
                            "ternary over a struct/union/array"@,
                        );
                        let st = join_branches_s(st, then_end, else_end, merge_bb);
                        placeholder_s(st)
                    } else {
                        let st = set_cur_s(st, then_end);
                        let (st, tv2) = coerce_to_s(st, tv, tty, result_ty);
                        let st = terminate_s(st, TermV::Br(merge_bb));
                        let st = set_cur_s(st, else_end);
                        let (st, ev2) = coerce_to_s(st, ev, ety, result_ty);
                        let st = terminate_s(st, TermV::Br(merge_bb));
                        let st = set_cur_s(st, merge_bb);
                        let edges = seq![(then_end, tv2), (else_end, ev2)];
                        let (st, phi) = push_s(st, bir_ty(result_ty), OpV::Phi(edges));
                        (st, (phi, result_ty))
                    }
                }
            }
        },
        _ => {
            placeholder_s(st)
        },
    }
}

/// The values of the first `n` arguments, from left to right.
pub open spec fn lower_call_args_s(
    st: LwState,
    args: Seq<Expr>,
    n: nat,
) -> (LwState, Seq<(ValRef, TyV)>)
    decreases args, n,
{
    if n == 0 || n > args.len() { (st, Seq::empty()) } else {
        let (st, v) = lower_call_args_s(st, args, (n - 1) as nat);
        let (st, p) = lower_expr_s(st, args[n - 1]);
        (st, v.push(p))
    }
}

/// `__syncthreads()`.
pub open spec fn lower_syncthreads_call_s(st: LwState, args: Seq<Expr>) -> (LwState, (ValRef, TyV))
    decreases args, args.len() + 1,
{
    let (st, _) = lower_call_args_s(st, args, args.len());
    let st = push_void_s(st, OpV::Barrier);
    let (st, z) = zero_of_s(st, TyV::Scalar(ScalarKind::Void));
    (st, (z, TyV::Scalar(ScalarKind::Void)))
}

/// A shuffle of two integers.
pub open spec fn lower_shuffle_call_s(
    st: LwState,
    kind: ShuffleKind,
    args: Seq<Expr>,
) -> (LwState, (ValRef, TyV))
    decreases args, args.len() + 1,
{
    let (st, vals) = lower_call_args_s(st, args, args.len());
    if vals.len() != 2 || any_unknown(vals) {
        placeholder_s(st)
    } else {
        let (st, v) = coerce_to_s(st, vals[0].0, vals[0].1, TyV::Scalar(ScalarKind::Int));
        let (st, lane) = coerce_to_s(st, vals[1].0, vals[1].1, TyV::Scalar(ScalarKind::Int));
        let (st, r2) = push_s(st, BTy::Scalar(Scalar::I32), OpV::Shuffle(kind, v, lane));
        (st, (r2, TyV::Scalar(ScalarKind::Int)))
    }
}

/// A vote on an integer.
pub open spec fn lower_vote_call_s(
    st: LwState,
    kind: Vote,
    args: Seq<Expr>,
) -> (LwState, (ValRef, TyV))
    decreases args, args.len() + 1,
{
    let (st, vals) = lower_call_args_s(st, args, args.len());
    if vals.len() != 1 || vals[0].1 is Unknown {
        placeholder_s(st)
    } else {
        let (st, p) = coerce_to_s(st, vals[0].0, vals[0].1, TyV::Scalar(ScalarKind::Int));
        let (st, r2) = push_s(st, BTy::Scalar(Scalar::I32), vote_op(kind, p));
        (st, (r2, TyV::Scalar(ScalarKind::Int)))
    }
}

/// An atomic operation on what a pointer points to.
pub open spec fn lower_atomic_rmw_call_s(
    st: LwState,
    aop: AtomicOp,
    args: Seq<Expr>,
    span: Span,
) -> (LwState, (ValRef, TyV))
    decreases args, args.len() + 1,
{
    let (st, vals) = lower_call_args_s(st, args, args.len());
    if vals.len() != 2 || any_unknown(vals) {
        placeholder_s(st)
    } else if !vals[0].1.pointer_like() {
        let st = diag_unsupported_s(
            st,
            span,
            "atomic builtin"@,
            "first argument is not a pointer"@,
        );
        placeholder_s(st)
    } else {
        let (st, val) = coerce_to_s(st, vals[1].0, vals[1].1, TyV::Scalar(ScalarKind::Int));
        let (st, r2) = push_s(
            st,
            BTy::Scalar(Scalar::I32),
            OpV::Atomic(aop, vals[0].0, val, AddrSpace::Global),
        );
        (st, (r2, TyV::Scalar(ScalarKind::Int)))
    }
}

/// `atomicCAS`.
pub open spec fn lower_atomic_cas_call_s(
    st: LwState,
    args: Seq<Expr>,
    span: Span,
) -> (LwState, (ValRef, TyV))
    decreases args, args.len() + 1,
{
    let (st, vals) = lower_call_args_s(st, args, args.len());
    if vals.len() != 3 || any_unknown(vals) {
        placeholder_s(st)
    } else if !vals[0].1.pointer_like() {
        let st = diag_unsupported_s(
            st,
            span,
            "atomic builtin"@,
            "first argument is not a pointer"@,
        );
        placeholder_s(st)
    } else {
        let (st, expect) = coerce_to_s(st, vals[1].0, vals[1].1, TyV::Scalar(ScalarKind::Int));
        let (st, new) = coerce_to_s(st, vals[2].0, vals[2].1, TyV::Scalar(ScalarKind::Int));
        let (st, r2) = push_s(
            st,
            BTy::Scalar(Scalar::I32),
            OpV::AtomicCas(vals[0].0, expect, new, AddrSpace::Global),
        );
        (st, (r2, TyV::Scalar(ScalarKind::Int)))
    }
}

/// The place that `cudaMalloc` writes to: that of `&place` under casts, else what the pointer
/// points to.
pub open spec fn lower_cuda_malloc_devptr_s(st: LwState, e: Expr, span: Span) -> (LwState, LValueV)
    decreases e, 11nat,
{
    match e {
        Expr::Unary { op: UnaryOp::Addr, expr, .. } => {
            lower_lvalue_s(st, *expr)
        },
        _ => {
            if let Expr::Cast {
                ty, expr, span: sp
            } = e {
                if peels_to_address(*expr) {
                    lower_cuda_malloc_devptr_s(st, *expr, span)
                } else {
                    devptr_value_s(st, e, span)
                }
            } else {
                devptr_value_s(st, e, span)
            }
        },
    }
}

/// The place that the value of a pointer expression points to.
pub open spec fn devptr_value_s(st: LwState, e: Expr, span: Span) -> (LwState, LValueV)
    decreases e, 10nat,
{
    let (st, (v, ty)) = lower_expr_s(st, e);
    if !ty.pointer_like() {
        let st = if !(ty is Unknown) {
            diag_unsupported_s(
                st,
                span,
                "cudaMalloc"@,
                "first argument is not a pointer"@,
            )
        } else {
            st
        };
        lvalue_unknown_s(st)
    } else {
        (
            st,
            LValueV {
                addr: v,
                ty: TyV::Pointer(Box::new(TyV::Scalar(ScalarKind::Void)), false),
                space: AddrSpace::Global,
            },
        )
    }
}

/// `cudaMalloc(place, size)`: the pointer is stored through the place.
pub open spec fn lower_cuda_malloc_call_s(
    st: LwState,
    args: Seq<Expr>,
    span: Span,
) -> (LwState, (ValRef, TyV))
    decreases args, args.len() + 1,
{
    if args.len() != 2 {
        let (st, _) = lower_call_args_s(st, args, args.len());
        let st = diag_unsupported_s(st, span, "cudaMalloc"@, "expects exactly 2 arguments"@);
        placeholder_s(st)
    } else {
        let (st, (size_v, size_t)) = lower_expr_s(st, args[1]);
        let (st, devptr_lv) = lower_cuda_malloc_devptr_s(st, args[0], span);
        if (size_t is Unknown) || (devptr_lv.ty is Unknown) {
            placeholder_s(st)
        } else {
            let (st, size) = coerce_to_s(st, size_v, size_t, TyV::Scalar(ScalarKind::ULong));
            let (st, allocated) = push_s(st, BTy::Ptr(AddrSpace::Global), OpV::CudaMalloc { size });
            let st = store_addr_s(st, devptr_lv, allocated);
            let (st, z) = zero_of_s(st, TyV::Scalar(ScalarKind::Int));
            (st, (z, TyV::Scalar(ScalarKind::Int)))
        }
    }
}

/// `cudaMemcpy(dst, src, count, kind)`.
pub open spec fn lower_cuda_memcpy_call_s(st: LwState, args: Seq<Expr>) -> (LwState, (ValRef, TyV))
    decreases args, args.len() + 1,
{
    let (st, vals) = lower_call_args_s(st, args, args.len());
    if vals.len() != 4 || any_unknown(vals) {
        placeholder_s(st)
    } else {
        let (st, count) = coerce_to_s(st, vals[2].0, vals[2].1, TyV::Scalar(ScalarKind::ULong));
        let (st, kind) = coerce_to_s(st, vals[3].0, vals[3].1, TyV::Scalar(ScalarKind::Int));
        let st = push_void_s(st, OpV::CudaMemcpy { dst: vals[0].0, src: vals[1].0, count, kind });
        let (st, z) = zero_of_s(st, TyV::Scalar(ScalarKind::Int));
        (st, (z, TyV::Scalar(ScalarKind::Int)))
    }
}

/// `cudaFree(pointer)`.
pub open spec fn lower_cuda_free_call_s(st: LwState, args: Seq<Expr>) -> (LwState, (ValRef, TyV))
    decreases args, args.len() + 1,
{
    let (st, vals) = lower_call_args_s(st, args, args.len());
    if vals.len() != 1 || vals[0].1 is Unknown {
        placeholder_s(st)
    } else {
        let st = push_void_s(st, OpV::CudaFree { ptr: vals[0].0 });
        let (st, z) = zero_of_s(st, TyV::Scalar(ScalarKind::Int));
        (st, (z, TyV::Scalar(ScalarKind::Int)))
    }
}

/// `cudaDeviceSynchronize()`.
pub open spec fn lower_cuda_device_synchronize_call_s(
    st: LwState,
    args: Seq<Expr>,
) -> (LwState, (ValRef, TyV))
    decreases args, args.len() + 1,
{
    let (st, _) = lower_call_args_s(st, args, args.len());
    let st = push_void_s(st, OpV::CudaDeviceSynchronize);
    let (st, z) = zero_of_s(st, TyV::Scalar(ScalarKind::Int));
    (st, (z, TyV::Scalar(ScalarKind::Int)))
}

/// A call of a builtin by its name; `None` if the name is none.
pub open spec fn lower_builtin_call_s(
    st: LwState,
    name: Seq<char>,
    args: Seq<Expr>,
    span: Span,
) -> (LwState, Option<(ValRef, TyV)>)
    decreases args, args.len() + 2,
{
    if (name == "__syncthreads"@) {
        let (st, v) = lower_syncthreads_call_s(st, args);
        (st, Some(v))
    } else if let Some(kind) = shuffle_kind(name) {
        let (st, v) = lower_shuffle_call_s(st, kind, args);
        (st, Some(v))
    } else if let Some(kind) = vote_kind(name) {
        let (st, v) = lower_vote_call_s(st, kind, args);
        (st, Some(v))
    } else if let Some(aop) = atomic_kind(name) {
        let (st, v) = lower_atomic_rmw_call_s(st, aop, args, span);
        (st, Some(v))
    } else if (name == "atomicCAS"@) {
        let (st, v) = lower_atomic_cas_call_s(st, args, span);
        (st, Some(v))
    } else if (name == "cudaMalloc"@) {
        let (st, v) = lower_cuda_malloc_call_s(st, args, span);
        (st, Some(v))
    } else if (name == "cudaMemcpy"@) {
        let (st, v) = lower_cuda_memcpy_call_s(st, args);
        (st, Some(v))
    } else if (name == "cudaFree"@) {
        let (st, v) = lower_cuda_free_call_s(st, args);
        (st, Some(v))
    } else if (name == "cudaDeviceSynchronize"@) {
        let (st, v) = lower_cuda_device_synchronize_call_s(st, args);
        (st, Some(v))
    } else {
        (st, None)
    }
}

/// A call of a function of the module, once its arguments have been evaluated.
#[verifier::opaque]
pub open spec fn finish_call_s(
    st: LwState,
    callee: Option<(Seq<char>, TyV)>,
    vals: Seq<(ValRef, TyV)>,
    span: Span,
) -> (LwState, (ValRef, TyV))
{
    match callee {
        None => {
            placeholder_s(st)
        },
        Some((name, ret_ty)) => {
            if aggregate(ret_ty) || any_aggregate(vals) {
                let st = diag_unsupported_s(
                    st,
                    span,
                    "function call"@,
                    "a whole struct/union/array argument or return value has no BIR value to lower to"@,
                );
                if (ret_ty is Unknown) || aggregate(ret_ty) {
                    placeholder_s(st)
                } else {
                    let (st, v) = zero_of_s(st, ret_ty);
                    (st, (v, ret_ty))
                }
            } else if (ret_ty is Unknown) {
                placeholder_s(st)
            } else if ret_ty.void() {
                let st = push_void_s(st, OpV::Call { func: name, args: refs_of(vals) });
                let (st, z) = zero_of_s(st, ret_ty);
                (st, (z, ret_ty))
            } else {
                let (st, v) = push_s(
                    st,
                    bir_ty(ret_ty),
                    OpV::Call { func: name, args: refs_of(vals) },
                );
                (st, (v, ret_ty))
            }
        },
    }
}

/// A call.
pub open spec fn lower_call_s(st: LwState, e: Expr) -> (LwState, (ValRef, TyV))
    decreases e, 8nat,
{
    match e {
        Expr::Call { callee, args, span } => {
            match *callee {
                Expr::Ident { name, .. } => {
                    let (st, builtin) = lower_builtin_call_s(st, name@, args@, span);
                    match builtin {
                        Some(v) => {
                            (st, v)
                        },
                        None => {
                            let found = callee_of(st.scopes, *callee);
                            let (st, vals) = lower_call_args_s(st, args@, args@.len());
                            finish_call_s(st, found, vals, span)
                        },
                    }
                },
                other => {
                    let (st, _) = lower_expr_s(st, *callee);
                    let (st, _) = lower_call_args_s(st, args@, args@.len());
                    placeholder_s(st)
                },
            }
        },
        _ => {
            placeholder_s(st)
        },
    }
}

/// One field of a value with `x`, `y` and `z`.
#[verifier::opaque]
pub open spec fn load_dim3_field_s(
    st: LwState,
    base: LValueV,
    field: Seq<char>,
) -> (LwState, ValRef)
{
    match field_offset_s(st, base.ty, field) {
        Some((off, fty)) => {
            let (st, lv) = field_place_s(st, base, off, fty);
            let (st, (v, _)) = load_addr_s(st, lv);
            (st, v)
        },
        None => {
            push_s(st, BTy::Scalar(Scalar::I32), OpV::ConstInt(0))
        },
    }
}

/// An extent of a launch: an integer is `(n, 1, 1)`.
pub open spec fn lower_launch_config_dim_s(st: LwState, e: Expr) -> (LwState, Seq<ValRef>)
    decreases e, 10nat,
{
    if dim3_extent(st.locals, e) {
        let (st, lv) = lower_lvalue_s(st, e);
        if (lv.ty is Unknown) {
            let (st, z) = push_s(st, BTy::Scalar(Scalar::I32), OpV::ConstInt(0));
            (st, seq![z, z, z])
        } else {
            let (st, x) = load_dim3_field_s(st, lv, "x"@);
            let (st, y) = load_dim3_field_s(st, lv, "y"@);
            let (st, z) = load_dim3_field_s(st, lv, "z"@);
            (st, seq![x, y, z])
        }
    } else {
        let (st, (v, t)) = lower_expr_s(st, e);
        let (st, x) = if (t is Unknown) {
            push_s(st, BTy::Scalar(Scalar::I32), OpV::ConstInt(0))
        } else {
            coerce_to_s(st, v, t, TyV::Scalar(ScalarKind::UInt))
        };
        let (st, one) = push_s(st, BTy::Scalar(Scalar::I32), OpV::ConstInt(1));
        (st, seq![x, one, one])
    }
}

/// The size of the shared memory of a launch.
pub open spec fn lower_shared_s(st: LwState, shared: Option<Box<Expr>>) -> (LwState, ValRef)
    decreases shared, 10nat,
{
    match shared {
        Some(x) => {
            let (st, (v, t)) = lower_expr_s(st, *x);
            coerce_to_s(st, v, t, TyV::Scalar(ScalarKind::ULong))
        },
        None => {
            push_s(st, BTy::Scalar(Scalar::I64), OpV::ConstInt(0))
        },
    }
}

/// The stream of a launch.
pub open spec fn lower_stream_s(st: LwState, stream: Option<Box<Expr>>) -> (LwState, ValRef)
    decreases stream, 10nat,
{
    match stream {
        Some(x) => {
            let (st, (v, _)) = lower_expr_s(st, *x);
            (st, v)
        },
        None => {
            push_s(st, BTy::Ptr(AddrSpace::Global), OpV::ConstInt(0))
        },
    }
}

/// A kernel launch.
pub open spec fn lower_kernel_launch_s(st: LwState, e: Expr) -> (LwState, (ValRef, TyV))
    decreases e, 8nat,
{
    match e {
        Expr::KernelLaunch { kernel, grid, block, shared, stream, args, span } => {
            let st = match *kernel {
                Expr::Ident { name, .. } => {
                    let (st, grid_vals) = lower_launch_config_dim_s(st, *grid);
                    let (st, block_vals) = lower_launch_config_dim_s(st, *block);
                    let (st, shared_val) = lower_shared_s(st, shared);
                    let (st, stream_val) = lower_stream_s(st, stream);
                    let (st, vals) = lower_call_args_s(st, args@, args@.len());
                    push_void_s(
                        st,
                        OpV::KernelLaunch {
                            kernel: name@,
                            grid: grid_vals,
                            block: block_vals,
                            shared: shared_val,
                            stream: stream_val,
                            args: refs_of(vals),
                        },
                    )
                },
                other => {
                    let (st, _) = lower_expr_s(st, *kernel);
                    let (st, _) = lower_call_args_s(st, args@, args@.len());
                    diag_unsupported_s(
                        st,
                        span,
                        "kernel launch"@,
                        "launch target is not a named function"@,
                    )
                },
            };
            let (st, z) = zero_of_s(st, TyV::Scalar(ScalarKind::Void));
            (st, (z, TyV::Scalar(ScalarKind::Void)))
        },
        _ => {
            placeholder_s(st)
        },
    }
}

/// The value of the last of a list of expressions, after the others; of the first `n`.
pub open spec fn lower_comma_s(st: LwState, es: Seq<Expr>, n: nat) -> (LwState, (ValRef, TyV))
    decreases es, n,
{
    if n == 0 || n > es.len() { placeholder_s(st) } else {
        let (st, _) = lower_comma_s(st, es, (n - 1) as nat);
        lower_expr_s(st, es[n - 1])
    }
}

/// The type of the operand of `sizeof`: an array in a place does not decay. The operand is lowered
/// for its type alone.
pub open spec fn operand_type_s(st: LwState, e: Expr) -> (LwState, TyV)
    decreases e, 10nat,
{
    if names_place(st.locals, e) {
        let (st, lv) = lower_lvalue_s(st, e);
        if (lv.ty is Array) {
            (st, lv.ty)
        } else {
            let (st, (_, ty)) = value_of_lvalue_s(st, lv, expr_span(e));
            (st, ty)
        }
    } else {
        let (st, (_, ty)) = lower_expr_s(st, e);
        (st, ty)
    }
}

/// The size of a type as a constant. An array that was counted as one element is reported.
#[verifier::opaque]
pub open spec fn size_constant_s(st: LwState, t: TyV, span: Span) -> (LwState, (ValRef, TyV))
{
    if (t is Unknown) {
        let (st, v) = push_s(st, BTy::Scalar(Scalar::I64), OpV::ConstInt(0));
        (st, (v, TyV::Scalar(ScalarKind::ULong)))
    } else {
        let st = if array_in(st.scopes, st.tags as nat, t) {
            diag_unsupported_s(
                st,
                span,
                "sizeof of an array"@,
                "the type holds no element count; one element is counted"@,
            )
        } else {
            st
        };
        let bytes = low_i64(size_s(st, t) as int);
        let (st, v) = push_s(st, BTy::Scalar(Scalar::I64), OpV::ConstInt(bytes));
        (st, (v, TyV::Scalar(ScalarKind::ULong)))
    }
}

/// The value of an expression.
pub open spec fn lower_expr_s(st: LwState, e: Expr) -> (LwState, (ValRef, TyV))
    decreases e, 9nat,
{
    match e {
        Expr::IntLit { value, .. } => {
            let ty = int_ty_of(value);
            let n = c_int(value.text@, value.base) as i64;
            let (st, v) = push_s(st, bir_ty(ty), OpV::ConstInt(n));
            (st, (v, ty))
        },
        Expr::FloatLit { value, .. } => {
            let ty = float_ty_of(value);
            let (st, v) = push_s(st, bir_ty(ty), OpV::ConstFloat(value.value));
            (st, (v, ty))
        },
        Expr::CharLit { value, .. } => {
            let (st, v) = push_s(st, BTy::Scalar(Scalar::I8), OpV::ConstInt(value as i64));
            (st, (v, TyV::Scalar(ScalarKind::Char)))
        },
        Expr::StrLit { span } => {
            let st = diag_unsupported_s(
                st,
                span,
                "string literal"@,
                "no BIR data-segment representation"@,
            );
            let (st, v) = push_s(st, BTy::Ptr(AddrSpace::Global), OpV::ConstInt(0));
            (st, (v, TyV::Pointer(Box::new(TyV::Scalar(ScalarKind::Char)), true)))
        },
        Expr::Ident { name, span } => {
            lower_ident_value_s(st, name@, span)
        },
        Expr::Index { .. } => {
            let (st, lv) = lower_lvalue_s(st, e);
            value_of_lvalue_s(st, lv, expr_span(e))
        },
        Expr::Member { base, name, arrow, .. } => {
            let found = if arrow {
                None
            } else {
                match *base {
                    Expr::Ident { name: base_name, span: sp } => index_op(base_name@, name@),
                    _ => None,
                }
            };
            match found {
                Some(op) => {
                    let (st, v) = push_s(st, BTy::Scalar(Scalar::I32), op);
                    (st, (v, TyV::Scalar(ScalarKind::UInt)))
                },
                None => {
                    let (st, lv) = lower_lvalue_s(st, e);
                    value_of_lvalue_s(st, lv, expr_span(e))
                },
            }
        },
        Expr::Unary { op, expr, .. } => {
            if op == UnaryOp::Deref {
                let (st, lv) = lower_lvalue_s(st, e);
                value_of_lvalue_s(st, lv, expr_span(e))
            } else if op == UnaryOp::Addr {
                let (st, lv) = lower_lvalue_s(st, *expr);
                if (lv.ty is Unknown) {
                    placeholder_s(st)
                } else {
                    (st, (lv.addr, TyV::Pointer(Box::new(lv.ty), false)))
                }
            } else {
                lower_unary_s(st, op, *expr)
            }
        },
        Expr::Binary { .. } => {
            lower_binary_s(st, e)
        },
        Expr::Assign { .. } => {
            lower_assign_s(st, e)
        },
        Expr::Ternary { .. } => {
            lower_ternary_s(st, e)
        },
        Expr::Cast { .. } => {
            lower_cast_s(st, e)
        },
        Expr::PreIncDec { op, expr, .. } => {
            lower_incdec_s(st, op, *expr, true)
        },
        Expr::PostIncDec { op, expr, .. } => {
            lower_incdec_s(st, op, *expr, false)
        },
        Expr::SizeofExpr { expr, span } => {
            let (st, ty) = operand_type_s(st, *expr);
            size_constant_s(st, ty, span)
        },
        Expr::SizeofType { ty, span } => {
            let (st, t) = resolve_type_s(st, ty);
            size_constant_s(st, t, span)
        },
        Expr::Call { .. } => {
            lower_call_s(st, e)
        },
        Expr::KernelLaunch { .. } => {
            lower_kernel_launch_s(st, e)
        },
        Expr::Comma { exprs, .. } => {
            lower_comma_s(st, exprs@, exprs@.len())
        },
        Expr::Error { .. } => {
            placeholder_s(st)
        },
    }
}

/// A variable declaration.
#[verifier::opaque]
pub open spec fn lower_var_decl_s(st: LwState, v: VarDecl) -> LwState
{
    let (st, ty) = resolve_type_s(st, v.ty);
    if (ty is Unknown) {
        let st = match v.init {
            Some(init) => {
                let (st, _) = lower_expr_s(st, init);
                st
            },
            None => {
                st
            },
        };
        let (st, slot) = new_slot_s(st, TyV::Unknown, AddrSpace::Local);
        bind_local_s(st, v.name@, slot)
    } else {
        let space = if v.cuda_quals.is_shared {
            AddrSpace::Shared
        } else if v.cuda_quals.is_constant {
            AddrSpace::Constant
        } else {
            AddrSpace::Local
        };
        let (st, slot) = new_slot_s(st, ty, space);
        let st = bind_local_s(st, v.name@, slot);
        match v.init {
            Some(init) => {
                if aggregate(ty) {
                    let st = diag_unsupported_s(
                        st,
                        v.span,
                        "aggregate initializer"@,
                        "struct/union/array initializers are not lowered"@,
                    );
                    let (st, _) = lower_expr_s(st, init);
                    st
                } else {
                    let (st, (iv, ity)) = lower_expr_s(st, init);
                    if !(ity is Unknown) {
                        let (st, coerced) = coerce_to_s(st, iv, ity, ty);
                        let (st, lv) = slot_lvalue_s(st, slot);
                        store_addr_s(st, lv, coerced)
                    } else {
                        st
                    }
                }
            },
            None => {
                st
            },
        }
    }
}

/// The first `n` declarations of a list.
pub open spec fn lower_decls_s(st: LwState, ds: Seq<VarDecl>, n: nat) -> LwState
    decreases n,
{
    if n > 0 && n <= ds.len() {
        lower_var_decl_s(lower_decls_s(st, ds, (n - 1) as nat), ds[n - 1])
    } else {
        st
    }
}

/// The first `n` statements of a list.
pub open spec fn lower_stmts_s(st: LwState, ss: Seq<Stmt>, n: nat) -> LwState
    decreases ss, n,
{
    if n > 0 && n <= ss.len() {
        lower_stmt_s(lower_stmts_s(st, ss, (n - 1) as nat), ss[n - 1])
    } else {
        st
    }
}

/// `if`.
pub open spec fn lower_if_s(st: LwState, s: Stmt) -> LwState
    decreases s, 8nat,
{
    match s {
        Stmt::If { cond, then_branch, else_branch, .. } => {
            let (st, branch_val) = condition_s(st, cond);
            let (st, then_bb) = alloc_block_s(st);
            let (st, else_bb) = alloc_block_s(st);
            let (st, merge_bb) = alloc_block_s(st);
            let st = terminate_s(st, TermV::CondBr(branch_val, then_bb, else_bb));
            let st = set_cur_s(st, then_bb);
            let st = lower_stmt_s(st, *then_branch);
            let st = terminate_s(st, TermV::Br(merge_bb));
            let st = set_cur_s(st, else_bb);
            let st = match else_branch {
                Some(x) => {
                    lower_stmt_s(st, *x)
                },
                None => {
                    st
                },
            };
            let st = terminate_s(st, TermV::Br(merge_bb));
            set_cur_s(st, merge_bb)
        },
        _ => {
            st
        },
    }
}

/// `while`.
pub open spec fn lower_while_s(st: LwState, s: Stmt) -> LwState
    decreases s, 8nat,
{
    match s {
        Stmt::While { cond, body, .. } => {
            let (st, cond_bb) = alloc_block_s(st);
            let (st, body_bb) = alloc_block_s(st);
            let (st, exit_bb) = alloc_block_s(st);
            let st = terminate_s(st, TermV::Br(cond_bb));
            let st = set_cur_s(st, cond_bb);
            let (st, branch_val) = condition_s(st, cond);
            let st = terminate_s(st, TermV::CondBr(branch_val, body_bb, exit_bb));
            let st = set_cur_s(st, body_bb);
            let st = enter_s(st, CtrlCtx::Loop { break_bb: exit_bb, continue_bb: cond_bb });
            let st = lower_stmt_s(st, *body);
            let st = leave_s(st);
            let st = terminate_s(st, TermV::Br(cond_bb));
            set_cur_s(st, exit_bb)
        },
        _ => {
            st
        },
    }
}

/// `do` ... `while`.
pub open spec fn lower_do_while_s(st: LwState, s: Stmt) -> LwState
    decreases s, 8nat,
{
    match s {
        Stmt::DoWhile { body, cond, .. } => {
            let (st, body_bb) = alloc_block_s(st);
            let (st, cond_bb) = alloc_block_s(st);
            let (st, exit_bb) = alloc_block_s(st);
            let st = terminate_s(st, TermV::Br(body_bb));
            let st = set_cur_s(st, body_bb);
            let st = enter_s(st, CtrlCtx::Loop { break_bb: exit_bb, continue_bb: cond_bb });
            let st = lower_stmt_s(st, *body);
            let st = leave_s(st);
            let st = terminate_s(st, TermV::Br(cond_bb));
            let st = set_cur_s(st, cond_bb);
            let (st, branch_val) = condition_s(st, cond);
            let st = terminate_s(st, TermV::CondBr(branch_val, body_bb, exit_bb));
            set_cur_s(st, exit_bb)
        },
        _ => {
            st
        },
    }
}

/// `for`.
pub open spec fn lower_for_s(st: LwState, s: Stmt) -> LwState
    decreases s, 8nat,
{
    match s {
        Stmt::For { init, cond, step, body, .. } => {
            let st = open_block_s(st);
            let st = match init {
                Some(i) => {
                    lower_stmt_s(st, *i)
                },
                None => {
                    st
                },
            };
            let (st, cond_bb) = alloc_block_s(st);
            let (st, body_bb) = alloc_block_s(st);
            let (st, step_bb) = alloc_block_s(st);
            let (st, exit_bb) = alloc_block_s(st);
            let st = terminate_s(st, TermV::Br(cond_bb));
            let st = set_cur_s(st, cond_bb);
            let st = match cond {
                Some(c) => {
                    let (st, branch_val) = condition_s(st, c);
                    terminate_s(st, TermV::CondBr(branch_val, body_bb, exit_bb))
                },
                None => {
                    terminate_s(st, TermV::Br(body_bb))
                },
            };
            let st = set_cur_s(st, body_bb);
            let st = enter_s(st, CtrlCtx::Loop { break_bb: exit_bb, continue_bb: step_bb });
            let st = lower_stmt_s(st, *body);
            let st = leave_s(st);
            let st = terminate_s(st, TermV::Br(step_bb));
            let st = set_cur_s(st, step_bb);
            let st = match step {
                Some(x) => {
                    let (st, _) = lower_expr_s(st, x);
                    st
                },
                None => {
                    st
                },
            };
            let st = terminate_s(st, TermV::Br(cond_bb));
            let st = set_cur_s(st, exit_bb);
            close_scope_s(st)
        },
        _ => {
            st
        },
    }
}

/// As many new blocks as are asked for.
pub open spec fn alloc_blocks_s(st: LwState, n: nat) -> (LwState, Seq<BlockId>)
    decreases n,
{
    if n == 0 { (st, Seq::empty()) } else {
        let (st, v) = alloc_blocks_s(st, (n - 1) as nat);
        let (st, b) = alloc_block_s(st);
        (st, v.push(b))
    }
}

/// Adds the labels in front of a statement of a switch to its cases. A label that is no constant is
/// reported and gets a number of its own.
pub open spec fn peel_case_labels_s(
    st: LwState,
    s: Stmt,
    bb: BlockId,
    seed: i64,
    k: i64,
    acc: CasesV,
) -> (LwState, CasesV)
    decreases s,
{
    match s {
        Stmt::Case { value, stmt, span } => {
            let found = const_value(st.enums, value);
            let (st, v) = match found {
                Some(n) => {
                    (st, n)
                },
                None => {
                    let st = diag_unsupported_s(
                        st,
                        span,
                        "non-constant case label"@,
                        "value must be a compile-time integer constant"@,
                    );
                    (st, i64::MIN.wrapping_add(seed.wrapping_mul(1000)).wrapping_add(k))
                },
            };
            peel_case_labels_s(
                st,
                *stmt,
                bb,
                seed,
                k.wrapping_add(1),
                CasesV { cases: acc.cases.push((v, bb)), default: acc.default },
            )
        },
        Stmt::Default { stmt, .. } => {
            peel_case_labels_s(
                st,
                *stmt,
                bb,
                seed,
                k,
                CasesV { cases: acc.cases, default: Some(bb) },
            )
        },
        _ => {
            (st, acc)
        },
    }
}

/// The cases of the first `n` statements of a switch.
pub open spec fn collect_cases_s(
    st: LwState,
    ss: Seq<Stmt>,
    bbs: Seq<BlockId>,
    n: nat,
) -> (LwState, CasesV)
    decreases ss, n,
{
    if n == 0 || n > ss.len() { (st, no_cases()) } else {
        let (st, acc) = collect_cases_s(st, ss, bbs, (n - 1) as nat);
        peel_case_labels_s(st, ss[n - 1], bbs[n - 1], low_i64(n - 1), 0, acc)
    }
}

/// A statement behind its labels.
pub open spec fn lower_inner_s(st: LwState, s: Stmt) -> LwState
    decreases s, 10nat,
{
    match s {
        Stmt::Case { value, stmt, span } => {
            let found = const_value(st.enums, value);
            let st = match found {
                Some(_) => {
                    st
                },
                None => {
                    diag_unsupported_s(
                        st,
                        span,
                        "non-constant case label"@,
                        "value must be a compile-time integer constant"@,
                    )
                },
            };
            lower_inner_s(st, *stmt)
        },
        Stmt::Default { stmt, .. } => {
            lower_inner_s(st, *stmt)
        },
        _ => {
            lower_stmt_s(st, s)
        },
    }
}

/// The first `n` statements of a switch, each in its block, falling through to the next.
pub open spec fn lower_arms_s(
    st: LwState,
    ss: Seq<Stmt>,
    bbs: Seq<BlockId>,
    exit_bb: BlockId,
    n: nat,
) -> LwState
    decreases ss, n,
{
    let st = if n > 0 && n <= ss.len() {
        let st = lower_arms_s(st, ss, bbs, exit_bb, (n - 1) as nat);
        let st = set_cur_s(st, bbs[n - 1]);
        let st = lower_inner_s(st, ss[n - 1]);
        terminate_s(st, TermV::Br(if n < bbs.len() { bbs[n as int] } else { exit_bb }))
    } else { st };
    st
}

/// `switch`.
pub open spec fn lower_switch_s(st: LwState, s: Stmt) -> LwState
    decreases s, 8nat,
{
    match s {
        Stmt::Switch { expr, body, .. } => {
            let (st, (sv, _)) = lower_expr_s(st, expr);
            let (st, exit_bb) = alloc_block_s(st);
            let st = match *body {
                Stmt::Block { stmts, .. } => {
                    let (st, bbs) = alloc_blocks_s(st, stmts@.len());
                    let (st, acc) = collect_cases_s(st, stmts@, bbs, stmts@.len());
                    let default_target = match acc.default { Some(d) => d, None => exit_bb };
                    let st = terminate_s(st, TermV::Switch(sv, default_target, acc.cases));
                    let st = enter_s(st, CtrlCtx::Switch { break_bb: exit_bb });
                    lower_arms_s(st, stmts@, bbs, exit_bb, stmts@.len())
                },
                other => {
                    let (st, bb) = alloc_block_s(st);
                    let (st, acc) = peel_case_labels_s(st, *body, bb, 0, 0, no_cases());
                    let default_target = match acc.default { Some(d) => d, None => exit_bb };
                    let st = terminate_s(st, TermV::Switch(sv, default_target, acc.cases));
                    let st = enter_s(st, CtrlCtx::Switch { break_bb: exit_bb });
                    let st = set_cur_s(st, bb);
                    let st = lower_inner_s(st, *body);
                    terminate_s(st, TermV::Br(exit_bb))
                },
            };
            let st = leave_s(st);
            set_cur_s(st, exit_bb)
        },
        _ => {
            st
        },
    }
}

/// Opens a block for what follows the end of another.
#[verifier::opaque]
pub open spec fn fresh_cur_s(st: LwState) -> LwState
{
    let (st, bb) = alloc_block_s(st);
    set_cur_s(st, bb)
}

/// `break`.
#[verifier::opaque]
pub open spec fn lower_break_s(st: LwState, span: Span) -> LwState
{
    let st = match break_target(st.ctrl) {
        Some(bb) => {
            terminate_s(st, TermV::Br(bb))
        },
        None => {
            let st = err_s(st, ECode::TypeError, span, "'break' used outside of a loop or switch"@);
            terminate_s(st, TermV::Ret(None))
        },
    };
    fresh_cur_s(st)
}

/// `continue`.
#[verifier::opaque]
pub open spec fn lower_continue_s(st: LwState, span: Span) -> LwState
{
    let st = match continue_target(st.ctrl) {
        Some(bb) => {
            terminate_s(st, TermV::Br(bb))
        },
        None => {
            let st = err_s(st, ECode::TypeError, span, "'continue' used outside of a loop"@);
            terminate_s(st, TermV::Ret(None))
        },
    };
    fresh_cur_s(st)
}

/// Returns a zero, or nothing where nothing is returned.
#[verifier::opaque]
pub open spec fn return_zero_s(st: LwState) -> LwState
{
    let fr = st.fn_ret;
    if fr.void() {
        terminate_s(st, TermV::Ret(None))
    } else {
        let (st, z) = zero_of_s(st, fr);
        terminate_s(st, TermV::Ret(Some(z)))
    }
}

/// `return`.
#[verifier::opaque]
pub open spec fn lower_return_s(st: LwState, expr: Option<Expr>, span: Span) -> LwState
{
    let st = match expr {
        None => {
            terminate_s(st, TermV::Ret(None))
        },
        Some(x) => {
            let (st, (v, ty)) = lower_expr_s(st, x);
            if (ty is Unknown) {
                return_zero_s(st)
            } else if aggregate(ty) {
                let st = diag_unsupported_s(
                    st,
                    span,
                    "whole-aggregate return"@,
                    "returning a struct/union/array by value has no BIR representation"@,
                );
                return_zero_s(st)
            } else {
                let fr = st.fn_ret;
                let (st, coerced) = coerce_to_s(st, v, ty, fr);
                terminate_s(st, TermV::Ret(Some(coerced)))
            }
        },
    };
    fresh_cur_s(st)
}

/// A label: its block was made with the function.
#[verifier::opaque]
pub open spec fn lower_label_s(st: LwState, name: Seq<char>) -> LwState
{
    let found = if st.labels.contains_key(name) { Some(st.labels[name]) } else { None };
    match found {
        Some(bb) => {
            let st = terminate_s(st, TermV::Br(bb));
            set_cur_s(st, bb)
        },
        None => {
            st
        },
    }
}

/// `goto`.
#[verifier::opaque]
pub open spec fn lower_goto_s(st: LwState, label: Seq<char>, span: Span) -> LwState
{
    let found = if st.labels.contains_key(label) { Some(st.labels[label]) } else { None };
    let st = match found {
        Some(bb) => {
            terminate_s(st, TermV::Br(bb))
        },
        None => {
            let st = err_s(st, ECode::UndefinedSymbol, span, label);
            terminate_s(st, TermV::Ret(None))
        },
    };
    fresh_cur_s(st)
}

/// One statement.
pub open spec fn lower_stmt_s(st: LwState, s: Stmt) -> LwState
    decreases s, 9nat,
{
    match s {
        Stmt::Expr { expr, .. } => {
            let (st, _) = lower_expr_s(st, expr);
            st
        },
        Stmt::Empty { .. } => {
            st
        },
        Stmt::Block { stmts, .. } => {
            let st = open_block_s(st);
            let st = lower_stmts_s(st, stmts@, stmts@.len());
            close_scope_s(st)
        },
        Stmt::Decl { decls, .. } => {
            lower_decls_s(st, decls@, decls@.len())
        },
        Stmt::If { .. } => {
            lower_if_s(st, s)
        },
        Stmt::While { .. } => {
            lower_while_s(st, s)
        },
        Stmt::DoWhile { .. } => {
            lower_do_while_s(st, s)
        },
        Stmt::For { .. } => {
            lower_for_s(st, s)
        },
        Stmt::Switch { .. } => {
            lower_switch_s(st, s)
        },
        Stmt::Case { stmt, .. } => {
            lower_stmt_s(st, *stmt)
        },
        Stmt::Default { stmt, .. } => {
            lower_stmt_s(st, *stmt)
        },
        Stmt::Break { span } => {
            lower_break_s(st, span)
        },
        Stmt::Continue { span } => {
            lower_continue_s(st, span)
        },
        Stmt::Return { expr, span } => {
            lower_return_s(st, expr, span)
        },
        Stmt::Label { name, stmt, .. } => {
            let st = lower_label_s(st, name@);
            lower_stmt_s(st, *stmt)
        },
        Stmt::Goto { label, span } => {
            lower_goto_s(st, label@, span)
        },
    }
}

/// The fields of a struct or union, the first `n`.
pub open spec fn resolve_fields_s(st: LwState, fs: Seq<FieldDecl>, n: nat) -> (LwState, Seq<FieldV>)
    decreases n,
{
    if n == 0 || n > fs.len() { (st, Seq::empty()) } else {
        let (st, v) = resolve_fields_s(st, fs, (n - 1) as nat);
        let (st, ty) = resolve_type_s(st, fs[n - 1].ty);
        (st, v.push(FieldV { name: fs[n - 1].name@, ty, is_const: const_at_top(fs[n - 1].ty) }))
    }
}

/// The first `n` constants of an enumeration; the value after the last is the result.
pub open spec fn lower_variants_s(
    st: LwState,
    vs: Seq<EnumVariant>,
    n: nat,
    ty: TyV,
) -> (LwState, i64)
    decreases n,
{
    if n == 0 || n > vs.len() { (st, 0i64) } else {
        let (st, next) = lower_variants_s(st, vs, (n - 1) as nat, ty);
        let v = vs[n - 1];
        let (st, value) = match v.init {
            None => (st, next),
            Some(init) => match const_value(st.enums, init) {
                Some(k) => (st, k),
                None => (
                    diag_unsupported_s(
                        st,
                        v.span,
                        "non-constant enumerator initializer"@,
                        "falling back to auto-increment from the previous value"@,
                    ),
                    next,
                ),
            },
        };
        (
            LwState {
                enums: st.enums.insert(v.name@, value),
                scopes: with_value(st.scopes, v.name@, ValueSymV::EnumConst(ty)),
                ..st
            },
            value.wrapping_add(1),
        )
    }
}

/// An enumeration.
#[verifier::opaque]
pub open spec fn lower_enum_decl_s(st: LwState, d: EnumDecl) -> LwState
{
    let (st, enum_ty) = match d.name {
        Some(name) => {
            let st = LwState { scopes: with_enum(st.scopes, name@), ..st };
            (st, TyV::Enum(name@))
        },
        None => {
            (st, TyV::Scalar(ScalarKind::Int))
        },
    };
    let (st, _) = lower_variants_s(st, d.variants@, d.variants@.len(), enum_ty);
    st
}

/// A global variable, which has no storage.
#[verifier::opaque]
pub open spec fn lower_global_var_s(st: LwState, v: VarDecl) -> LwState
{
    let (st, ty) = resolve_type_s(st, v.ty);
    let st = LwState {
        scopes: with_value(st.scopes, v.name@, ValueSymV::Var(ty, false)),
        globals: st.globals.insert(v.name@, EnumTag),
        ..st
    };
    diag_unsupported_s(
        st,
        v.span,
        "global variable storage"@,
        "BIR has no module-level data segment yet"@,
    )
}

/// The types of the first `n` parameters.
pub open spec fn resolve_params_s(st: LwState, ps: Seq<ParamDecl>, n: nat) -> (LwState, Seq<TyV>)
    decreases n,
{
    if n == 0 || n > ps.len() { (st, Seq::empty()) } else {
        let (st, v) = resolve_params_s(st, ps, (n - 1) as nat);
        let (st, ty) = resolve_type_s(st, ps[n - 1].ty);
        (st, v.push(ty))
    }
}

/// One block for each of the first `n` labels.
pub open spec fn alloc_labels_s(st: LwState, n: nat, names: Seq<Seq<char>>) -> LwState
    decreases n,
{
    let st = if n > 0 && n <= names.len() {
        let st = alloc_labels_s(st, (n - 1) as nat, names);
        let (st, b) = alloc_block_s(st);
        LwState { labels: st.labels.insert(names[n - 1], b), ..st }
    } else { st };
    st
}

/// Gives each of the first `n` parameters that has a name a cell, and stores it there.
pub open spec fn lower_params_s(st: LwState, ps: Seq<ParamDecl>, tys: Seq<TyV>, n: nat) -> LwState
    decreases n,
{
    let st = if n > 0 && n <= ps.len() {
        let st = lower_params_s(st, ps, tys, (n - 1) as nat);
        if n <= tys.len() {
            match ps[n - 1].name {
                Some(name) => {
                    let pty = tys[n - 1];
                    let (st, slot) = new_slot_s(st, pty, AddrSpace::Param);
                    let st = bind_local_s(st, name@, slot);
                    if !aggregate(pty) && !(pty is Unknown) {
                        let (st, lv) = slot_lvalue_s(st, slot);
                        store_addr_s(st, lv, ValRef::Param(low_u32(n - 1)))
                    } else { st }
                },
                None => st,
            }
        } else { st }
    } else { st };
    st
}

/// Ends a body that runs off its end: a zero is returned.
#[verifier::opaque]
pub open spec fn close_fallthrough_s(st: LwState) -> LwState
{
    let fr = st.fn_ret;
    if fr.void() {
        terminate_s(st, TermV::Ret(None))
    } else if aggregate(fr) {
        let st = report_s(
            st,
            DiagV {
                args: seq![
                    "whole-aggregate value"@,
                    "function falls through its end without a return; cannot synthesize a struct/union/array return value"@,
                ],
                ..diag0(ECode::LoweringUnsupported)
            },
        );
        terminate_s(st, TermV::Ret(None))
    } else {
        let (st, z) = zero_of_s(st, fr);
        terminate_s(st, TermV::Ret(Some(z)))
    }
}

/// A function with a body.
#[verifier::opaque]
pub open spec fn lower_function_body_s(
    st: LwState,
    f: FunctionDecl,
    ret: TyV,
    param_tys: Seq<TyV>,
    body: Seq<Stmt>,
) -> LwState
{
    let st = LwState {
        b: empty_build(),
        locals: Seq::empty(),
        next_slot: 0,
        ctrl: Seq::empty(),
        labels: Map::empty(),
        fn_ret: ret,
        ..st
    };
    let st = open_block_s(st);
    let (st, entry) = alloc_block_s(st);
    let st = set_cur_s(st, entry);
    let st = alloc_labels_s(st, labels_of(body).len(), labels_of(body));
    let st = lower_params_s(st, f.params@, param_tys, f.params@.len());
    let st = lower_stmts_s(st, body, body.len());
    let st = close_fallthrough_s(st);
    let (blocks, insts) = built(st.b);
    LwState {
        b: empty_build(),
        funcs: st.funcs.push(FunctionV {
            name: f.name@,
            is_kernel: f.cuda_quals.is_global,
            params: bir_tys(param_tys),
            ret: bir_ty(ret),
            blocks,
            insts,
        }),
        ..st
    }
}

/// A function. Its own name is known inside its body.
#[verifier::opaque]
pub open spec fn lower_function_item_s(st: LwState, f: FunctionDecl) -> LwState
{
    let (st, ret) = resolve_type_s(st, f.ret);
    let (st, param_tys) = resolve_params_s(st, f.params@, f.params@.len());
    let st = LwState {
        scopes: with_value(
            st.scopes,
            f.name@,
            ValueSymV::Func(FuncSigV {
                ret,
                params: param_tys,
                variadic: f.variadic,
                is_kernel: f.cuda_quals.is_global,
            }),
        ),
        ..st
    };
    match f.body {
        Some(body) => {
            lower_function_body_s(st, f, ret, param_tys, body@)
        },
        None => {
            st
        },
    }
}

/// The first `n` items of a list.
pub open spec fn lower_items_s(st: LwState, items: Seq<Item>, n: nat) -> LwState
    decreases items, n,
{
    if n > 0 && n <= items.len() {
        lower_item_s(lower_items_s(st, items, (n - 1) as nat), items[n - 1])
    } else {
        st
    }
}

/// One item.
pub open spec fn lower_item_s(st: LwState, item: Item) -> LwState
    decreases item, 9nat,
{
    match item {
        Item::Struct(d) => {
            let (st, fields) = resolve_fields_s(st, d.fields@, d.fields@.len());
            match d.name {
                Some(name) => {
                    LwState {
                        scopes: with_struct(st.scopes, name@, fields),
                        tags: st.tags.saturating_add(1),
                        ..st
                    }
                },
                None => {
                    st
                },
            }
        },
        Item::Union(d) => {
            let (st, fields) = resolve_fields_s(st, d.fields@, d.fields@.len());
            match d.name {
                Some(name) => {
                    LwState {
                        scopes: with_union(st.scopes, name@, fields),
                        tags: st.tags.saturating_add(1),
                        ..st
                    }
                },
                None => {
                    st
                },
            }
        },
        Item::Enum(d) => {
            lower_enum_decl_s(st, d)
        },
        Item::Typedef(d) => {
            let (st, ty) = resolve_type_s(st, d.ty);
            LwState { scopes: with_typedef(st.scopes, d.alias@, ty), ..st }
        },
        Item::Namespace(ns) => {
            let st = LwState { scopes: st.scopes.push(empty_scope()), ..st };
            let st = lower_items_s(st, ns.items@, ns.items@.len());
            LwState { scopes: st.scopes.drop_last(), ..st }
        },
        Item::Function(f) => {
            lower_function_item_s(st, f)
        },
        Item::Var(v) => {
            lower_global_var_s(st, v)
        },
        Item::Template(_) => {
            st
        },
    }
}

/// The state before the first item: one scope, with what the CUDA runtime offers.
pub open spec fn start_state() -> LwState {
    LwState {
        scopes: with_struct(Seq::empty().push(empty_scope()), "__basalt_cuda_dim3"@, dim3_fields()),
        diags: Seq::empty(),
        funcs: Seq::empty(),
        globals: Map::empty(),
        enums: Map::<Seq<char>, i64>::empty().insert("cudaMemcpyHostToHost"@, 0).insert(
            "cudaMemcpyHostToDevice"@,
            1,
        ).insert("cudaMemcpyDeviceToHost"@, 2).insert("cudaMemcpyDeviceToDevice"@, 3).insert(
            "cudaMemcpyDefault"@,
            4,
        ),
        tags: 1,
        b: empty_build(),
        locals: Seq::empty(),
        next_slot: 0,
        ctrl: Seq::empty(),
        labels: Map::empty(),
        fn_ret: TyV::Scalar(ScalarKind::Void),
    }
}

/// The module and the diagnostics of a translation unit.
pub open spec fn lowered(tu: TranslationUnit) -> (ModuleV, Seq<DiagV>) {
    let st = lower_items_s(start_state(), tu.items@, tu.items@.len());
    (
        ModuleV {
            funcs: st.funcs,
            launch_bounds: None,
            shared_mem_bytes: 0,
            target_dtypes: Seq::empty(),
        },
        st.diags,
    )
}

pub open spec fn locals_view(v: Seq<Assoc<LocalSlot>>) -> Seq<Map<Seq<char>, SlotV>> {
    v.map_values(|m: Assoc<LocalSlot>| m@)
}

pub open spec fn opt_val(p: Option<(ValRef, Ty)>) -> Option<(ValRef, TyV)> {
    match p {
        Some(x) => Some((x.0, x.1@)),
        None => None,
    }
}

pub open spec fn opt_callee(p: Option<(String, Ty)>) -> Option<(Seq<char>, TyV)> {
    match p {
        Some(x) => Some((x.0@, x.1@)),
        None => None,
    }
}

fn two_edges(a: BlockId, x: ValRef, b: BlockId, y: ValRef) -> (r: Vec<(BlockId, ValRef)>)
    ensures
        r@ == seq![(a, x), (b, y)],
{
    let mut r: Vec<(BlockId, ValRef)> = Vec::new();
    r.push((a, x));
    r.push((b, y));
    assert(r@ =~= seq![(a, x), (b, y)]);
    r
}

fn triple(x: ValRef, y: ValRef, z: ValRef) -> (r: [ValRef; 3])
    ensures
        r@ == seq![x, y, z],
{
    let r = [x, y, z];
    assert(r@ =~= seq![x, y, z]);
    r
}

fn slot_addr_value(slot: u32) -> (r: i64)
    ensures
        r == slot_address(slot),
{
    (slot as i64) * SLOT_STRIDE
}

proof fn lemma_alloc_blocks_len(st: LwState, n: nat)
    ensures
        alloc_blocks_s(st, n).1.len() == n,
    decreases n,
{
    if n > 0 {
        lemma_alloc_blocks_len(st, (n - 1) as nat);
    }
}

struct Lowerer {
    scopes: ScopeStack,
    diags: Vec<Diag>,
    funcs: Vec<Function>,
    unlowered_globals: Assoc<EnumTag>,
    enum_values: Assoc<i64>,
    tags: u64,
    b: Builder,
    locals: Vec<Assoc<LocalSlot>>,
    next_slot: u32,
    ctrl_stack: Vec<CtrlCtx>,
    label_blocks: Assoc<BlockId>,
    fn_ret: Ty,
}

impl Lowerer {
    spec fn wf(&self) -> bool {
        self.b.wf() && all_in_print_order(funcs_view(self.funcs@))
    }

    spec fn st(&self) -> LwState {
        LwState {
            scopes: self.scopes@,
            diags: diags_view(self.diags@),
            funcs: funcs_view(self.funcs@),
            globals: self.unlowered_globals@,
            enums: self.enum_values@,
            tags: self.tags,
            b: self.b@,
            locals: locals_view(self.locals@),
            next_slot: self.next_slot,
            ctrl: self.ctrl_stack@,
            labels: self.label_blocks@,
            fn_ret: self.fn_ret@,
        }
    }

    fn size_of_ty(&self, t: &Ty) -> (r: u64)
        ensures
            r == size_s(self.st(), t@),
    {
        size_at(&self.scopes, self.tags, t)
    }

    fn field_offset(&self, t: &Ty, name: &str) -> (r: Option<(u64, Ty)>)
        ensures
            match r {
                Some(p) => field_offset_s(self.st(), t@, name@) == Some((p.0, p.1@)),
                None => field_offset_s(self.st(), t@, name@) is None,
            },
    {
        field_offset_at(&self.scopes, self.tags, t, name)
    }

    fn err(&mut self, code: ECode, span: Span, msg: &str)
        requires
            old(self).wf(),
        ensures
            final(self).wf(),
            final(self).scopes@ == old(self).scopes@,
            final(self).st() == err_s(old(self).st(), code, span, msg@),
    {
        let d = Diag::new(code).with_span(span).with_arg(msg);
        assert(d@.args =~= seq![msg@]);
        push_diag(&mut self.diags, d);
    }

    fn diag_unsupported(&mut self, span: Span, what: &str, detail: &str)
        requires
            old(self).wf(),
        ensures
            final(self).wf(),
            final(self).scopes@ == old(self).scopes@,
            final(self).st() == diag_unsupported_s(old(self).st(), span, what@, detail@),
    {
        let d = Diag::new(ECode::LoweringUnsupported).with_span(span).with_arg(what).with_arg(
            detail,
        );
        assert(d@.args =~= seq![what@, detail@]);
        push_diag(&mut self.diags, d);
    }

    fn push(&mut self, ty: BTy, op: Op) -> (v: ValRef)
        requires
            old(self).wf(),
        ensures
            final(self).wf(),
            final(self).scopes@ == old(self).scopes@,
            final(self).st() == push_s(old(self).st(), ty, op@).0,
            v == push_s(old(self).st(), ty, op@).1,
    {
        self.b.push(ty, op)
    }

    fn push_void(&mut self, op: Op)
        requires
            old(self).wf(),
        ensures
            final(self).wf(),
            final(self).scopes@ == old(self).scopes@,
            final(self).st() == push_void_s(old(self).st(), op@),
    {
        self.b.push(BTy::Void, op);
    }

    fn alloc_block(&mut self) -> (id: BlockId)
        requires
            old(self).wf(),
        ensures
            final(self).wf(),
            final(self).scopes@ == old(self).scopes@,
            final(self).st() == alloc_block_s(old(self).st()).0,
            id == alloc_block_s(old(self).st()).1,
    {
        self.b.alloc_block()
    }

    fn terminate(&mut self, term: Term)
        requires
            old(self).wf(),
        ensures
            final(self).wf(),
            final(self).scopes@ == old(self).scopes@,
            final(self).st() == terminate_s(old(self).st(), term@),
    {
        self.b.terminate(term);
    }

    fn set_cur(&mut self, cur: BlockId)
        requires
            old(self).wf(),
        ensures
            final(self).wf(),
            final(self).scopes@ == old(self).scopes@,
            final(self).st() == set_cur_s(old(self).st(), cur),
    {
        self.b.set_current(cur);
    }

    fn new_slot(&mut self, ty: Ty, space: AddrSpace) -> (r: LocalSlot)
        requires
            old(self).wf(),
        ensures
            final(self).wf(),
            final(self).scopes@ == old(self).scopes@,
            final(self).st() == new_slot_s(old(self).st(), ty@, space).0,
            r@ == new_slot_s(old(self).st(), ty@, space).1,
    {
        let slot: u32 = self.next_slot;
        self.next_slot = slot.wrapping_add(1);
        LocalSlot { slot, ty, space }
    }

    fn bind_local(&mut self, name: &str, slot: LocalSlot)
        requires
            old(self).wf(),
        ensures
            final(self).wf(),
            final(self).scopes@ == old(self).scopes@,
            final(self).st() == bind_local_s(old(self).st(), name@, slot@),
    {
        let n: usize = self.locals.len();
        if n > 0 {
            self.locals[n - 1].insert(name, slot);
        }
        assert(self.st().locals =~= bind_local_s(old(self).st(), name@, slot@).locals);
    }

    fn find_local(&self, name: &str) -> (r: Option<LocalSlot>)
        ensures
            match r {
                Some(s) => local_in(self.st().locals, name@) == Some(s@),
                None => local_in(self.st().locals, name@) is None,
            },
    {
        let ghost ls = self.st().locals;
        let mut i: usize = self.locals.len();
        assert(ls.take(i as int) =~= ls);
        while i > 0
            invariant
                i <= ls.len(),
                ls == self.st().locals,
                local_in(ls, name@) == local_in(ls.take(i as int), name@),
            decreases i,
        {
            i = i - 1;
            let ghost head = ls.take(i as int + 1);
            assert(head.drop_last() =~= ls.take(i as int));
            assert(head.last() == self.locals@[i as int]@);
            if let Some(s) = self.locals[i].get(name) {
                return Some(s.copy());
            }
        }
        None
    }

    fn open_block(&mut self)
        requires
            old(self).wf(),
        ensures
            final(self).wf(),
            final(self).scopes@ == old(self).scopes@,
            final(self).st() == open_block_s(old(self).st()),
    {
        self.locals.push(Assoc::new());
        assert(self.st().locals =~= open_block_s(old(self).st()).locals);
    }

    fn close_scope(&mut self)
        requires
            old(self).wf(),
        ensures
            final(self).wf(),
            final(self).scopes@ == old(self).scopes@,
            final(self).st() == close_scope_s(old(self).st()),
    {
        self.locals.pop();
        assert(self.st().locals =~= close_scope_s(old(self).st()).locals);
    }

    fn enter(&mut self, c: CtrlCtx)
        requires
            old(self).wf(),
        ensures
            final(self).wf(),
            final(self).scopes@ == old(self).scopes@,
            final(self).st() == enter_s(old(self).st(), c),
    {
        self.ctrl_stack.push(c);
    }

    fn leave(&mut self)
        requires
            old(self).wf(),
        ensures
            final(self).wf(),
            final(self).scopes@ == old(self).scopes@,
            final(self).st() == leave_s(old(self).st()),
    {
        self.ctrl_stack.pop();
        assert(self.st().ctrl =~= leave_s(old(self).st()).ctrl);
    }

    fn find_break(&self) -> (r: Option<BlockId>)
        ensures
            r == break_target(self.st().ctrl),
    {
        let n: usize = self.ctrl_stack.len();
        if n == 0 {
            None
        } else {
            match self.ctrl_stack[n - 1] {
                CtrlCtx::Loop { break_bb, .. } => Some(break_bb),
                CtrlCtx::Switch { break_bb } => Some(break_bb),
            }
        }
    }

    fn find_continue(&self) -> (r: Option<BlockId>)
        ensures
            r == continue_target(self.st().ctrl),
    {
        let mut i: usize = self.ctrl_stack.len();
        assert(self.ctrl_stack@.take(i as int) =~= self.ctrl_stack@);
        while i > 0
            invariant
                i <= self.ctrl_stack@.len(),
                continue_target(self.ctrl_stack@) == continue_target(
                    self.ctrl_stack@.take(i as int),
                ),
            decreases i,
        {
            i = i - 1;
            assert(self.ctrl_stack@.take(i as int + 1).drop_last() =~= self.ctrl_stack@.take(
                i as int,
            ));
            if let CtrlCtx::Loop { continue_bb, .. } = self.ctrl_stack[i] {
                return Some(continue_bb);
            }
        }
        None
    }

    fn is_dim3_extent(&self, e: &Expr) -> (r: bool)
        ensures
            r == dim3_extent(self.st().locals, *e),
    {
        match e {
            Expr::Ident { name, .. } => match self.find_local(name.as_str()) {
                Some(slot) => is_dim3(&slot.ty),
                None => is_dim3_builtin(name.as_str()),
            },
            _ => false,
        }
    }

    /// A zero of a type.
    fn zero_of(&mut self, ty: &Ty) -> (r: ValRef)
        requires
            old(self).wf(),
        ensures
            final(self).wf(),
            final(self).scopes@ == old(self).scopes@,
            final(self).st() == zero_of_s(old(self).st(), ty@).0,
            r == zero_of_s(old(self).st(), ty@).1,
    {
        proof {
            reveal(zero_of_s);
        }
        if ty.is_float() {
            self.push(to_bir_ty(ty), Op::ConstFloat(FloatConst { double: 0, single: 0 }))
        } else {
            self.push(to_bir_ty(ty), Op::ConstInt(0))
        }
    }

    /// A value that stands for what could not be lowered.
    fn placeholder(&mut self) -> (r: (ValRef, Ty))
        requires
            old(self).wf(),
        ensures
            final(self).wf(),
            final(self).scopes@ == old(self).scopes@,
            final(self).st() == placeholder_s(old(self).st()).0,
            (r.0, r.1@) == placeholder_s(old(self).st()).1,
    {
        proof {
            reveal(placeholder_s);
        }
        let v = self.push(BTy::Scalar(Scalar::I32), Op::ConstInt(0));
        (v, Ty::Unknown)
    }

    /// The address of a cell.
    fn slot_addr(&mut self, s: &LocalSlot) -> (r: ValRef)
        requires
            old(self).wf(),
        ensures
            final(self).wf(),
            final(self).scopes@ == old(self).scopes@,
            final(self).st() == slot_addr_s(old(self).st(), s@).0,
            r == slot_addr_s(old(self).st(), s@).1,
    {
        proof {
            reveal(slot_addr_s);
        }
        self.push(BTy::Ptr(s.space), Op::ConstInt(slot_addr_value(s.slot)))
    }

    /// The place that is a cell.
    fn slot_lvalue(&mut self, s: &LocalSlot) -> (r: LValue)
        requires
            old(self).wf(),
        ensures
            final(self).wf(),
            final(self).scopes@ == old(self).scopes@,
            final(self).st() == slot_lvalue_s(old(self).st(), s@).0,
            r@ == slot_lvalue_s(old(self).st(), s@).1,
    {
        proof {
            reveal(slot_lvalue_s);
        }
        let addr = self.slot_addr(s);
        LValue { addr, ty: s.ty.copy(), space: s.space }
    }

    /// A place for what could not be found.
    fn lvalue_unknown(&mut self) -> (r: LValue)
        requires
            old(self).wf(),
        ensures
            final(self).wf(),
            final(self).scopes@ == old(self).scopes@,
            final(self).st() == lvalue_unknown_s(old(self).st()).0,
            r@ == lvalue_unknown_s(old(self).st()).1,
    {
        proof {
            reveal(lvalue_unknown_s);
        }
        let addr = self.push(BTy::Ptr(AddrSpace::Local), Op::ConstInt(0));
        LValue { addr, ty: Ty::Unknown, space: AddrSpace::Local }
    }

    /// The value in a place.
    fn load_addr(&mut self, lv: &LValue) -> (r: (ValRef, Ty))
        requires
            old(self).wf(),
        ensures
            final(self).wf(),
            final(self).scopes@ == old(self).scopes@,
            final(self).st() == load_addr_s(old(self).st(), lv@).0,
            (r.0, r.1@) == load_addr_s(old(self).st(), lv@).1,
    {
        proof {
            reveal(load_addr_s);
        }
        let bty = to_bir_ty(&lv.ty);
        let v = self.push(
            bty,
            Op::Load { ptr: lv.addr, space: lv.space, align: natural_align(bty), volatile: false },
        );
        (v, lv.ty.copy())
    }

    /// Puts a value in a place.
    fn store_addr(&mut self, lv: &LValue, val: ValRef)
        requires
            old(self).wf(),
        ensures
            final(self).wf(),
            final(self).scopes@ == old(self).scopes@,
            final(self).st() == store_addr_s(old(self).st(), lv@, val),
    {
        proof {
            reveal(store_addr_s);
        }
        let bty = to_bir_ty(&lv.ty);
        self.push_void(Op::Store {
            ptr: lv.addr,
            val,
            ty: bty,
            space: lv.space,
            align: natural_align(bty),
            volatile: false,
        });
    }

    /// A value as one of another type.
    fn coerce_to(&mut self, v: ValRef, from: &Ty, to: &Ty) -> (r: ValRef)
        requires
            old(self).wf(),
        ensures
            final(self).wf(),
            final(self).scopes@ == old(self).scopes@,
            final(self).st() == coerce_to_s(old(self).st(), v, from@, to@).0,
            r == coerce_to_s(old(self).st(), v, from@, to@).1,
    {
        proof {
            reveal(coerce_to_s);
        }
        match cast_between(from, to) {
            None => {
                v
            },
            Some(op) => {
                self.push(to_bir_ty(to), Op::Cast(op, to_bir_ty(from), v))
            },
        }
    }

    /// An index as a 64-bit integer.
    fn widen_index_i64(&mut self, v: ValRef, ty: &Ty) -> (r: ValRef)
        requires
            old(self).wf(),
        ensures
            final(self).wf(),
            final(self).scopes@ == old(self).scopes@,
            final(self).st() == widen_index_i64_s(old(self).st(), v, ty@).0,
            r == widen_index_i64_s(old(self).st(), v, ty@).1,
    {
        proof {
            reveal(widen_index_i64_s);
        }
        match to_bir_ty(ty) {
            BTy::Scalar(Scalar::I64) => {
                v
            },
            BTy::Scalar(_) => {
                self.coerce_to(v, ty, &Ty::Scalar(ScalarKind::Long))
            },
            _ => {
                v
            },
        }
    }

    /// Whether a value is not zero.
    fn truthy(&mut self, v: ValRef, ty: &Ty) -> (r: ValRef)
        requires
            old(self).wf(),
        ensures
            final(self).wf(),
            final(self).scopes@ == old(self).scopes@,
            final(self).st() == truthy_s(old(self).st(), v, ty@).0,
            r == truthy_s(old(self).st(), v, ty@).1,
    {
        proof {
            reveal(truthy_s);
        }
        let bty = to_bir_ty(ty);
        if ty.is_float() {
            let zero = self.push(bty, Op::ConstFloat(FloatConst { double: 0, single: 0 }));
            self.push(BTy::Scalar(Scalar::I1), Op::FCmp(FCmpPred::One, bty, v, zero))
        } else {
            let zero = self.push(bty, Op::ConstInt(0));
            self.push(BTy::Scalar(Scalar::I1), Op::ICmp(ICmpPred::Ne, bty, v, zero))
        }
    }

    /// The truth value that a condition branches on; one that is not known counts as true.
    fn condition(&mut self, e: &Expr) -> (r: ValRef)
        requires
            old(self).wf(),
        ensures
            final(self).wf(),
            final(self).scopes@ == old(self).scopes@,
            final(self).st() == condition_s(old(self).st(), *e).0,
            r == condition_s(old(self).st(), *e).1,
        decreases e, 10nat,
    {
        let (cv, cty) = self.lower_expr(e);
        if cty.is_unknown() {
            self.push(BTy::Scalar(Scalar::I1), Op::ConstInt(1))
        } else {
            self.truthy(cv, &cty)
        }
    }

    /// The type that a tag stands for.
    fn resolve_tag(&mut self, kind: TagKind, name: &str, span: Span) -> (r: Ty)
        requires
            old(self).wf(),
        ensures
            final(self).wf(),
            final(self).scopes@ == old(self).scopes@,
            final(self).st() == resolve_tag_s(old(self).st(), kind, name@, span).0,
            r@ == resolve_tag_s(old(self).st(), kind, name@, span).1,
    {
        proof {
            reveal(resolve_tag_s);
        }
        if name.is_empty() { return Ty::Unknown; }
        match kind {
            TagKind::Struct => {
                if self.scopes.lookup_struct(name).is_some() {
                    Ty::Struct(name.to_owned())
                } else {
                    self.err(ECode::UndefinedSymbol, span, name);
                    Ty::Unknown
                }
            },
            TagKind::Union => {
                if self.scopes.lookup_union(name).is_some() {
                    Ty::Union(name.to_owned())
                } else {
                    self.err(ECode::UndefinedSymbol, span, name);
                    Ty::Unknown
                }
            },
            TagKind::Enum => {
                if self.scopes.lookup_enum(name).is_some() {
                    Ty::Enum(name.to_owned())
                } else {
                    self.err(ECode::UndefinedSymbol, span, name);
                    Ty::Unknown
                }
            },
        }
    }

    /// The type that a bare name stands for.
    fn resolve_named(&mut self, name: &str, span: Span) -> (r: Ty)
        requires
            old(self).wf(),
        ensures
            final(self).wf(),
            final(self).scopes@ == old(self).scopes@,
            final(self).st() == resolve_named_s(old(self).st(), name@, span).0,
            r@ == resolve_named_s(old(self).st(), name@, span).1,
    {
        proof {
            reveal(resolve_named_s);
        }
        if let Some(t) = self.scopes.lookup_typedef(name) { return t.copy(); }
        if self.scopes.lookup_struct(name).is_some() {
            Ty::Struct(name.to_owned())
        } else if self.scopes.lookup_union(name).is_some() {
            Ty::Union(name.to_owned())
        } else if self.scopes.lookup_enum(name).is_some() {
            Ty::Enum(name.to_owned())
        } else {
            self.err(ECode::UndefinedSymbol, span, name);
            Ty::Unknown
        }
    }

    /// The type that a declared type stands for.
    fn resolve_type(&mut self, ty: &Type) -> (r: Ty)
        requires
            old(self).wf(),
        ensures
            final(self).wf(),
            final(self).scopes@ == old(self).scopes@,
            final(self).st() == resolve_type_s(old(self).st(), *ty).0,
            r@ == resolve_type_s(old(self).st(), *ty).1,
        decreases ty,
    {
        match ty {
            Type::Scalar { kind, .. } => {
                Ty::Scalar(*kind)
            },
            Type::Tag { kind, name, span, .. } => {
                self.resolve_tag(*kind, name.as_str(), *span)
            },
            Type::Named { name, span, .. } => {
                self.resolve_named(name.as_str(), *span)
            },
            Type::Pointer { pointee, .. } => {
                let p = self.resolve_type(&**pointee);
                Ty::Pointer(Box::new(p), top_level_const(&**pointee))
            },
            Type::Array { elem, .. } => {
                let e = self.resolve_type(&**elem);
                Ty::Array(Box::new(e))
            },
            Type::Instantiated { .. } => {
                Ty::Unknown
            },
        }
    }

    /// Reports a name that stands for no cell.
    fn diag_for_unresolved_name(&mut self, name: &str, span: Span)
        requires
            old(self).wf(),
        ensures
            final(self).wf(),
            final(self).scopes@ == old(self).scopes@,
            final(self).st() == diag_for_unresolved_name_s(old(self).st(), name@, span),
    {
        proof {
            reveal(diag_for_unresolved_name_s);
        }
        let is_func = matches!(self.scopes.lookup_value(name), Some(ValueSym::Func(_)));
        if is_dim3_builtin(name) {
            self.diag_unsupported(span, "GPU intrinsic", name);
        } else if self.unlowered_globals.contains(name) {
            self.diag_unsupported(span, "global variable storage", name);
        } else if is_func {
            self.diag_unsupported(span, "function-pointer value", name);
        } else {
            self.err(ECode::UndefinedSymbol, span, name);
        }
    }

    /// The value in a place; an array is its address, and a whole struct or union is no value.
    fn value_of_lvalue(&mut self, lv: LValue, span: Span) -> (r: (ValRef, Ty))
        requires
            old(self).wf(),
        ensures
            final(self).wf(),
            final(self).scopes@ == old(self).scopes@,
            final(self).st() == value_of_lvalue_s(old(self).st(), lv@, span).0,
            (r.0, r.1@) == value_of_lvalue_s(old(self).st(), lv@, span).1,
    {
        proof {
            reveal(value_of_lvalue_s);
        }
        if lv.ty.is_unknown() {
            self.placeholder()
        } else if is_aggregate(&lv.ty) {
            match &lv.ty {
                Ty::Array(elem) => { return (lv.addr, Ty::Pointer(Box::new(elem.copy()), false)); },
                _ => {},
            }
            self.diag_unsupported(
                span,
                "whole-aggregate value",
                "struct/union used by value (no BIR aggregate type)",
            );
            self.placeholder()
        } else {
            self.load_addr(&lv)
        }
    }

    /// The value of a name.
    fn lower_ident_value(&mut self, name: &str, span: Span) -> (r: (ValRef, Ty))
        requires
            old(self).wf(),
        ensures
            final(self).wf(),
            final(self).scopes@ == old(self).scopes@,
            final(self).st() == lower_ident_value_s(old(self).st(), name@, span).0,
            (r.0, r.1@) == lower_ident_value_s(old(self).st(), name@, span).1,
    {
        proof {
            reveal(lower_ident_value_s);
        }
        match self.find_local(name) {
            Some(slot) => {
                if slot.ty.is_unknown() {
                    self.placeholder()
                } else {
                    let lv = self.slot_lvalue(&slot);
                    self.value_of_lvalue(lv, span)
                }
            },
            None => {
                if is_dim3_builtin(name) {
                    self.diag_unsupported(span, "GPU intrinsic", name);
                    self.placeholder()
                } else {
                    let found = match self.enum_values.get(name) {
                        Some(v) => Some(*v),
                        None => None,
                    };
                    match found {
                        Some(n) => {
                            let v = self.push(BTy::Scalar(Scalar::I32), Op::ConstInt(n));
                            (v, Ty::Scalar(ScalarKind::Int))
                        },
                        None => {
                            self.diag_for_unresolved_name(name, span);
                            self.placeholder()
                        },
                    }
                }
            },
        }
    }

    /// The place that an expression names.
    fn lower_lvalue(&mut self, e: &Expr) -> (r: LValue)
        requires
            old(self).wf(),
        ensures
            final(self).wf(),
            final(self).scopes@ == old(self).scopes@,
            final(self).st() == lower_lvalue_s(old(self).st(), *e).0,
            r@ == lower_lvalue_s(old(self).st(), *e).1,
        decreases e, 8nat,
    {
        match e {
            Expr::Ident { name, span } => {
                match self.find_local(name.as_str()) {
                    Some(slot) => {
                        self.slot_lvalue(&slot)
                    },
                    None => {
                        if is_dim3_builtin(name.as_str()) {
                            self.diag_unsupported(*span, "GPU intrinsic", name.as_str());
                        } else if self.enum_values.contains(name.as_str()) {
                            let msg = "'".to_owned().concat(name.as_str()).concat("' is not addressable");
                            self.err(ECode::TypeError, *span, msg.as_str());
                        } else {
                            self.diag_for_unresolved_name(name.as_str(), *span);
                        };
                        self.lvalue_unknown()
                    },
                }
            },
            Expr::Unary { op, expr, span } => {
                if *op == UnaryOp::Deref {
                    let (v, ty) = self.lower_expr(&**expr);
                    if ty.is_unknown() {
                        self.lvalue_unknown()
                    } else {
                        match ty.deref_target() {
                            Some(target) => {
                                LValue { addr: v, ty: target, space: AddrSpace::Global }
                            },
                            None => {
                                self.diag_unsupported(
                                    *span,
                                    "dereference",
                                    "operand is not a pointer",
                                );
                                self.lvalue_unknown()
                            },
                        }
                    }
                } else {
                    self.err(ECode::TypeError, *span, "expression is not addressable");
                    self.lvalue_unknown()
                }
            },
            Expr::Index { .. } => {
                self.lower_index_lvalue(e)
            },
            Expr::Member { .. } => {
                self.lower_member_lvalue(e)
            },
            _ => {
                self.err(ECode::TypeError, e.span(), "expression is not addressable");
                self.lvalue_unknown()
            },
        }
    }

    /// What an index counts from: the first element of an array or of what a pointer points to.
    fn index_base(&mut self, base: &Expr, span: Span) -> (r: Option<LValue>)
        requires
            old(self).wf(),
        ensures
            final(self).wf(),
            final(self).scopes@ == old(self).scopes@,
            final(self).st() == index_base_s(old(self).st(), *base, span).0,
            opt_place(r) == index_base_s(old(self).st(), *base, span).1,
        decreases base, 10nat,
    {
        if is_lvalue(base) {
            let lv = self.lower_lvalue(base);
            if lv.ty.is_unknown() {
                None
            } else {
                match lv.ty.deref_target() {
                    Some(elem) => {
                        if lv.ty.is_pointer() {
                            let (v, _) = self.load_addr(&lv);
                            Some(LValue { addr: v, ty: elem, space: AddrSpace::Global })
                        } else {
                            Some(LValue { addr: lv.addr, ty: elem, space: lv.space })
                        }
                    },
                    None => {
                        self.diag_unsupported(span, "indexing", "base is not an array or pointer");
                        None
                    },
                }
            }
        } else {
            let (v, ty) = self.lower_expr(base);
            if ty.is_unknown() {
                None
            } else {
                match ty.deref_target() {
                    Some(elem) => {
                        Some(LValue { addr: v, ty: elem, space: AddrSpace::Global })
                    },
                    None => {
                        self.diag_unsupported(span, "indexing", "base is not an array or pointer");
                        None
                    },
                }
            }
        }
    }

    /// The place of an element: the base and the index times the size of an element.
    fn lower_index_lvalue(&mut self, e: &Expr) -> (r: LValue)
        requires
            old(self).wf(),
        ensures
            final(self).wf(),
            final(self).scopes@ == old(self).scopes@,
            final(self).st() == lower_index_lvalue_s(old(self).st(), *e).0,
            r@ == lower_index_lvalue_s(old(self).st(), *e).1,
        decreases e, 7nat,
    {
        match e {
            Expr::Index { base, index, span } => {
                let (idx_val, idx_ty) = self.lower_expr(&**index);
                if idx_ty.is_unknown() {
                    self.lvalue_unknown()
                } else {
                    let found = self.index_base(&**base, *span);
                    match found {
                        None => {
                            self.lvalue_unknown()
                        },
                        Some(b) => {
                            let esz = u64_to_i64(self.size_of_ty(&b.ty));
                            let idx64 = self.widen_index_i64(idx_val, &idx_ty);
                            let esz_val = self.push(BTy::Scalar(Scalar::I64), Op::ConstInt(esz));
                            let byte_off = self.push(
                                BTy::Scalar(Scalar::I64),
                                Op::Bin(BBin::Mul, idx64, esz_val),
                            );
                            let addr = self.push(
                                BTy::Ptr(b.space),
                                Op::Bin(BBin::Add, b.addr, byte_off),
                            );
                            LValue { addr, ty: b.ty, space: b.space }
                        },
                    }
                }
            },
            _ => {
                self.lvalue_unknown()
            },
        }
    }

    /// The struct or union that a member access looks into.
    fn member_base(&mut self, base: &Expr, arrow: bool, span: Span) -> (r: Option<LValue>)
        requires
            old(self).wf(),
        ensures
            final(self).wf(),
            final(self).scopes@ == old(self).scopes@,
            final(self).st() == member_base_s(old(self).st(), *base, arrow, span).0,
            opt_place(r) == member_base_s(old(self).st(), *base, arrow, span).1,
        decreases base, 10nat,
    {
        if arrow {
            let (v, ty) = self.lower_expr(base);
            if ty.is_unknown() {
                None
            } else {
                match ty.deref_target() {
                    Some(t) => {
                        Some(LValue { addr: v, ty: t, space: AddrSpace::Global })
                    },
                    None => {
                        self.diag_unsupported(span, "member access", "'->' on a non-pointer type");
                        None
                    },
                }
            }
        } else {
            let lv = self.lower_lvalue(base);
            if lv.ty.is_unknown() {
                None
            } else {
                Some(lv)
            }
        }
    }

    /// The place of a field, given where the whole is and the offset of the field.
    fn field_place(&mut self, base: &LValue, off: u64, fty: Ty) -> (r: LValue)
        requires
            old(self).wf(),
        ensures
            final(self).wf(),
            final(self).scopes@ == old(self).scopes@,
            final(self).st() == field_place_s(old(self).st(), base@, off, fty@).0,
            r@ == field_place_s(old(self).st(), base@, off, fty@).1,
    {
        proof {
            reveal(field_place_s);
        }
        let off_val = self.push(BTy::Scalar(Scalar::I64), Op::ConstInt(u64_to_i64(off)));
        let addr = self.push(BTy::Ptr(base.space), Op::Bin(BBin::Add, base.addr, off_val));
        LValue { addr, ty: fty, space: base.space }
    }

    /// The place of a member.
    fn lower_member_lvalue(&mut self, e: &Expr) -> (r: LValue)
        requires
            old(self).wf(),
        ensures
            final(self).wf(),
            final(self).scopes@ == old(self).scopes@,
            final(self).st() == lower_member_lvalue_s(old(self).st(), *e).0,
            r@ == lower_member_lvalue_s(old(self).st(), *e).1,
        decreases e, 7nat,
    {
        match e {
            Expr::Member { base, name, arrow, span } => {
                let found = self.member_base(&**base, *arrow, *span);
                match found {
                    None => {
                        self.lvalue_unknown()
                    },
                    Some(b) => {
                        if !matches!(b.ty, Ty::Struct(_) | Ty::Union(_)) {
                            self.diag_unsupported(
                                *span,
                                "member access",
                                "base is not a struct/union",
                            );
                            self.lvalue_unknown()
                        } else {
                            match self.field_offset(&b.ty, name.as_str()) {
                                Some((off, fty)) => {
                                    self.field_place(&b, off, fty)
                                },
                                None => {
                                    let msg = "unknown field '".to_owned().concat(name.as_str()).concat("'");
                                    self.diag_unsupported(*span, "member access", msg.as_str());
                                    self.lvalue_unknown()
                                },
                            }
                        }
                    },
                }
            },
            _ => {
                self.lvalue_unknown()
            },
        }
    }

    /// A cast.
    fn lower_cast(&mut self, e: &Expr) -> (r: (ValRef, Ty))
        requires
            old(self).wf(),
        ensures
            final(self).wf(),
            final(self).scopes@ == old(self).scopes@,
            final(self).st() == lower_cast_s(old(self).st(), *e).0,
            (r.0, r.1@) == lower_cast_s(old(self).st(), *e).1,
        decreases e, 8nat,
    {
        match e {
            Expr::Cast { ty, expr, span } => {
                let target = self.resolve_type(ty);
                let (v, src) = self.lower_expr(&**expr);
                if src.is_unknown() || target.is_unknown() {
                    self.placeholder()
                } else if is_aggregate(&target) || is_aggregate(&src) {
                    self.diag_unsupported(
                        *span,
                        "cast involving a struct/union/array",
                        "no BIR aggregate type",
                    );
                    self.placeholder()
                } else {
                    let c = self.coerce_to(v, &src, &target);
                    (c, target)
                }
            },
            _ => {
                self.placeholder()
            },
        }
    }

    /// A unary operation on a value.
    fn lower_unary(&mut self, op: UnaryOp, expr: &Expr) -> (r: (ValRef, Ty))
        requires
            old(self).wf(),
        ensures
            final(self).wf(),
            final(self).scopes@ == old(self).scopes@,
            final(self).st() == lower_unary_s(old(self).st(), op, *expr).0,
            (r.0, r.1@) == lower_unary_s(old(self).st(), op, *expr).1,
        decreases expr, 10nat,
    {
        let (v, ty) = self.lower_expr(expr);
        if ty.is_unknown() {
            self.placeholder()
        } else {
            let bty = to_bir_ty(&ty);
            match op {
                UnaryOp::Plus => {
                    (v, ty)
                },
                UnaryOp::Neg => {
                    if ty.is_float() {
                        let zero = self.push(
                            bty,
                            Op::ConstFloat(FloatConst { double: 0, single: 0 }),
                        );
                        let r2 = self.push(bty, Op::Bin(BBin::FSub, zero, v));
                        (r2, ty)
                    } else {
                        let zero = self.push(bty, Op::ConstInt(0));
                        let r2 = self.push(bty, Op::Bin(BBin::Sub, zero, v));
                        (r2, ty)
                    }
                },
                UnaryOp::BitNot => {
                    let allones = self.push(bty, Op::ConstInt(MINUS_ONE));
                    let r2 = self.push(bty, Op::Bin(BBin::Xor, v, allones));
                    (r2, ty)
                },
                UnaryOp::Not => {
                    if ty.is_float() {
                        let zero = self.push(
                            bty,
                            Op::ConstFloat(FloatConst { double: 0, single: 0 }),
                        );
                        let c = self.push(
                            BTy::Scalar(Scalar::I1),
                            Op::FCmp(FCmpPred::Oeq, bty, v, zero),
                        );
                        let r2 = self.push(
                            BTy::Scalar(Scalar::I32),
                            Op::Cast(CastOp::Zext, BTy::Scalar(Scalar::I1), c),
                        );
                        (r2, Ty::Scalar(ScalarKind::Int))
                    } else {
                        let zero = self.push(bty, Op::ConstInt(0));
                        let c = self.push(
                            BTy::Scalar(Scalar::I1),
                            Op::ICmp(ICmpPred::Eq, bty, v, zero),
                        );
                        let r2 = self.push(
                            BTy::Scalar(Scalar::I32),
                            Op::Cast(CastOp::Zext, BTy::Scalar(Scalar::I1), c),
                        );
                        (r2, Ty::Scalar(ScalarKind::Int))
                    }
                },
                _ => {
                    self.placeholder()
                },
            }
        }
    }

    /// `&&` and `||`: the right operand is only evaluated where the left one does not decide.
    fn lower_logical(&mut self, e: &Expr) -> (r: (ValRef, Ty))
        requires
            old(self).wf(),
        ensures
            final(self).wf(),
            final(self).scopes@ == old(self).scopes@,
            final(self).st() == lower_logical_s(old(self).st(), *e).0,
            (r.0, r.1@) == lower_logical_s(old(self).st(), *e).1,
        decreases e, 7nat,
    {
        match e {
            Expr::Binary { op, lhs, rhs, .. } => {
                let (lv, lty) = self.lower_expr(&**lhs);
                if lty.is_unknown() {
                    self.placeholder()
                } else {
                    let lb = self.truthy(lv, &lty);
                    let is_and = *op == BinOp::LogAnd;
                    let short_const: i64 = if is_and { 0 } else { 1 };
                    let short_val = self.push(BTy::Scalar(Scalar::I32), Op::ConstInt(short_const));
                    let short_bb = self.b.current();
                    let rhs_bb = self.alloc_block();
                    let merge_bb = self.alloc_block();
                    if is_and {
                        self.terminate(Term::CondBr(lb, rhs_bb, merge_bb));
                    } else {
                        self.terminate(Term::CondBr(lb, merge_bb, rhs_bb));
                    };
                    self.set_cur(rhs_bb);
                    let (rv, rty) = self.lower_expr(&**rhs);
                    let rb32 = if rty.is_unknown() {
                        self.push(BTy::Scalar(Scalar::I32), Op::ConstInt(0))
                    } else {
                        let rb = self.truthy(rv, &rty);
                        self.push(
                            BTy::Scalar(Scalar::I32),
                            Op::Cast(CastOp::Zext, BTy::Scalar(Scalar::I1), rb),
                        )
                    };
                    let rhs_end_bb = self.b.current();
                    self.terminate(Term::Br(merge_bb));
                    self.set_cur(merge_bb);
                    let edges = two_edges(short_bb, short_val, rhs_end_bb, rb32);
                    let phi = self.push(BTy::Scalar(Scalar::I32), Op::Phi(edges));
                    (phi, Ty::Scalar(ScalarKind::Int))
                }
            },
            _ => {
                self.placeholder()
            },
        }
    }

    /// A comparison, as 0 or 1.
    fn lower_compare(
        &mut self,
        op: BinOp,
        lv: ValRef,
        lty: &Ty,
        rv: ValRef,
        rty: &Ty,
    ) -> (r: (ValRef, Ty))
        requires
            old(self).wf(),
        ensures
            final(self).wf(),
            final(self).scopes@ == old(self).scopes@,
            final(self).st() == lower_compare_s(old(self).st(), op, lv, lty@, rv, rty@).0,
            (r.0, r.1@) == lower_compare_s(old(self).st(), op, lv, lty@, rv, rty@).1,
    {
        proof {
            reveal(lower_compare_s);
        }
        let c = if lty.is_pointer_like() || rty.is_pointer_like() {
            self.push(
                BTy::Scalar(Scalar::I1),
                Op::ICmp(pointer_pred_of(op), BTy::Ptr(AddrSpace::Global), lv, rv),
            )
        } else {
            let ct = promote(lty, rty);
            let bty = to_bir_ty(&ct);
            let l2 = self.coerce_to(lv, lty, &ct);
            let r2 = self.coerce_to(rv, rty, &ct);
            if lty.is_float() || rty.is_float() {
                self.push(BTy::Scalar(Scalar::I1), Op::FCmp(float_pred_of(op), bty, l2, r2))
            } else {
                self.push(
                    BTy::Scalar(Scalar::I1),
                    Op::ICmp(int_pred_of(op, is_signed(&ct)), bty, l2, r2),
                )
            }
        };
        let w = self.push(
            BTy::Scalar(Scalar::I32),
            Op::Cast(CastOp::Zext, BTy::Scalar(Scalar::I1), c),
        );
        (w, Ty::Scalar(ScalarKind::Int))
    }

    /// Arithmetic at the common type of the operands.
    fn lower_arith(
        &mut self,
        op: BinOp,
        lv: ValRef,
        lty: &Ty,
        rv: ValRef,
        rty: &Ty,
    ) -> (r: (ValRef, Ty))
        requires
            old(self).wf(),
        ensures
            final(self).wf(),
            final(self).scopes@ == old(self).scopes@,
            final(self).st() == lower_arith_s(old(self).st(), op, lv, lty@, rv, rty@).0,
            (r.0, r.1@) == lower_arith_s(old(self).st(), op, lv, lty@, rv, rty@).1,
    {
        proof {
            reveal(lower_arith_s);
        }
        let result_ty = promote(lty, rty);
        let l2 = self.coerce_to(lv, lty, &result_ty);
        let r2 = self.coerce_to(rv, rty, &result_ty);
        let bop = arith_op_of(op, result_ty.is_float(), is_signed(&result_ty));
        let v = self.push(to_bir_ty(&result_ty), Op::Bin(bop, l2, r2));
        (v, result_ty)
    }

    /// A pointer moved by a number of elements.
    fn lower_ptr_offset(&mut self, pv: ValRef, pty: &Ty, iv: ValRef, ity: &Ty) -> (r: (ValRef, Ty))
        requires
            old(self).wf(),
        ensures
            final(self).wf(),
            final(self).scopes@ == old(self).scopes@,
            final(self).st() == lower_ptr_offset_s(old(self).st(), pv, pty@, iv, ity@).0,
            (r.0, r.1@) == lower_ptr_offset_s(old(self).st(), pv, pty@, iv, ity@).1,
    {
        proof {
            reveal(lower_ptr_offset_s);
        }
        match pty.deref_target() {
            None => {
                self.placeholder()
            },
            Some(elem) => {
                if elem.is_unknown() {
                    self.placeholder()
                } else {
                    let esz = u64_to_i64(self.size_of_ty(&elem));
                    let idx64 = self.widen_index_i64(iv, ity);
                    let esz_val = self.push(BTy::Scalar(Scalar::I64), Op::ConstInt(esz));
                    let byte_off = self.push(
                        BTy::Scalar(Scalar::I64),
                        Op::Bin(BBin::Mul, idx64, esz_val),
                    );
                    let addr = self.push(
                        BTy::Ptr(AddrSpace::Global),
                        Op::Bin(BBin::Add, pv, byte_off),
                    );
                    (addr, Ty::Pointer(Box::new(elem), false))
                }
            },
        }
    }

    /// `+` on numbers, or on a pointer and an integer.
    fn lower_add(
        &mut self,
        lv: ValRef,
        lty: &Ty,
        rv: ValRef,
        rty: &Ty,
        span: Span,
    ) -> (r: (ValRef, Ty))
        requires
            old(self).wf(),
        ensures
            final(self).wf(),
            final(self).scopes@ == old(self).scopes@,
            final(self).st() == lower_add_s(old(self).st(), lv, lty@, rv, rty@, span).0,
            (r.0, r.1@) == lower_add_s(old(self).st(), lv, lty@, rv, rty@, span).1,
    {
        proof {
            reveal(lower_add_s);
        }
        if lty.is_pointer_like() && rty.is_integer() {
            self.lower_ptr_offset(lv, lty, rv, rty)
        } else if rty.is_pointer_like() && lty.is_integer() {
            self.lower_ptr_offset(rv, rty, lv, lty)
        } else if lty.is_arithmetic() && rty.is_arithmetic() {
            self.lower_arith(BinOp::Add, lv, lty, rv, rty)
        } else {
            self.diag_unsupported(
                span,
                "'+' operand combination",
                "not arithmetic or pointer+integer",
            );
            self.placeholder()
        }
    }

    /// `-` on numbers, or on a pointer and an integer.
    fn lower_sub(
        &mut self,
        lv: ValRef,
        lty: &Ty,
        rv: ValRef,
        rty: &Ty,
        span: Span,
    ) -> (r: (ValRef, Ty))
        requires
            old(self).wf(),
        ensures
            final(self).wf(),
            final(self).scopes@ == old(self).scopes@,
            final(self).st() == lower_sub_s(old(self).st(), lv, lty@, rv, rty@, span).0,
            (r.0, r.1@) == lower_sub_s(old(self).st(), lv, lty@, rv, rty@, span).1,
    {
        proof {
            reveal(lower_sub_s);
        }
        if lty.is_pointer_like() && rty.is_pointer_like() {
            self.diag_unsupported(
                span,
                "pointer difference",
                "BIR pointers are opaque; no integer representation to subtract",
            );
            self.placeholder()
        } else if lty.is_pointer_like() && rty.is_integer() {
            let r64 = self.widen_index_i64(rv, rty);
            let zero = self.push(BTy::Scalar(Scalar::I64), Op::ConstInt(0));
            let neg = self.push(BTy::Scalar(Scalar::I64), Op::Bin(BBin::Sub, zero, r64));
            self.lower_ptr_offset(lv, lty, neg, &Ty::Scalar(ScalarKind::Long))
        } else if lty.is_arithmetic() && rty.is_arithmetic() {
            self.lower_arith(BinOp::Sub, lv, lty, rv, rty)
        } else {
            self.diag_unsupported(
                span,
                "'-' operand combination",
                "not arithmetic or pointer-integer",
            );
            self.placeholder()
        }
    }

    /// A binary operation.
    fn lower_binary(&mut self, e: &Expr) -> (r: (ValRef, Ty))
        requires
            old(self).wf(),
        ensures
            final(self).wf(),
            final(self).scopes@ == old(self).scopes@,
            final(self).st() == lower_binary_s(old(self).st(), *e).0,
            (r.0, r.1@) == lower_binary_s(old(self).st(), *e).1,
        decreases e, 8nat,
    {
        match e {
            Expr::Binary { op, lhs, rhs, span } => {
                if *op == BinOp::LogOr || *op == BinOp::LogAnd {
                    self.lower_logical(e)
                } else {
                    let (lv, lty) = self.lower_expr(&**lhs);
                    let (rv, rty) = self.lower_expr(&**rhs);
                    if lty.is_unknown() || rty.is_unknown() {
                        self.placeholder()
                    } else {
                        match *op {
                            BinOp::Eq | BinOp::Ne | BinOp::Lt | BinOp::Gt | BinOp::Le | BinOp::Ge => {
                                self.lower_compare(*op, lv, &lty, rv, &rty)
                            },
                            BinOp::Add => {
                                self.lower_add(lv, &lty, rv, &rty, *span)
                            },
                            BinOp::Sub => {
                                self.lower_sub(lv, &lty, rv, &rty, *span)
                            },
                            _ => {
                                self.lower_arith(*op, lv, &lty, rv, &rty)
                            },
                        }
                    }
                }
            },
            _ => {
                self.placeholder()
            },
        }
    }

    /// An assignment; its value is what was stored.
    fn lower_assign(&mut self, e: &Expr) -> (r: (ValRef, Ty))
        requires
            old(self).wf(),
        ensures
            final(self).wf(),
            final(self).scopes@ == old(self).scopes@,
            final(self).st() == lower_assign_s(old(self).st(), *e).0,
            (r.0, r.1@) == lower_assign_s(old(self).st(), *e).1,
        decreases e, 8nat,
    {
        match e {
            Expr::Assign { op, lhs, rhs, span } => {
                let lv = self.lower_lvalue(&**lhs);
                if lv.ty.is_unknown() {
                    self.lower_expr(&**rhs);
                    self.placeholder()
                } else if is_aggregate(&lv.ty) {
                    self.diag_unsupported(
                        *span,
                        "whole-aggregate assignment",
                        "struct/union/array copy has no BIR representation",
                    );
                    self.lower_expr(&**rhs);
                    self.placeholder()
                } else {
                    let (rv, rty) = self.lower_expr(&**rhs);
                    if rty.is_unknown() {
                        self.placeholder()
                    } else if *op == AssignOp::Assign {
                        let coerced = self.coerce_to(rv, &rty, &lv.ty);
                        self.store_addr(&lv, coerced);
                        (coerced, lv.ty)
                    } else {
                        let bin = compound_binop(*op);
                        let (cur_v, cur_ty) = self.load_addr(&lv);
                        let (result_v, result_ty) = match bin {
                            BinOp::Add => {
                                self.lower_add(cur_v, &cur_ty, rv, &rty, *span)
                            },
                            BinOp::Sub => {
                                self.lower_sub(cur_v, &cur_ty, rv, &rty, *span)
                            },
                            _ => {
                                self.lower_arith(bin, cur_v, &cur_ty, rv, &rty)
                            },
                        };
                        if result_ty.is_unknown() {
                            self.placeholder()
                        } else {
                            let coerced = self.coerce_to(result_v, &result_ty, &lv.ty);
                            self.store_addr(&lv, coerced);
                            (coerced, lv.ty)
                        }
                    }
                }
            },
            _ => {
                self.placeholder()
            },
        }
    }

    /// An increment or decrement; its value is the new one before the operand, the old one behind
    /// it.
    fn lower_incdec(&mut self, op: IncDecOp, expr: &Expr, is_pre: bool) -> (r: (ValRef, Ty))
        requires
            old(self).wf(),
        ensures
            final(self).wf(),
            final(self).scopes@ == old(self).scopes@,
            final(self).st() == lower_incdec_s(old(self).st(), op, *expr, is_pre).0,
            (r.0, r.1@) == lower_incdec_s(old(self).st(), op, *expr, is_pre).1,
        decreases expr, 10nat,
    {
        let lv = self.lower_lvalue(expr);
        if lv.ty.is_unknown() {
            self.placeholder()
        } else {
            let (cur_v, cur_ty) = self.load_addr(&lv);
            let inc = op == IncDecOp::Inc;
            let bty = to_bir_ty(&cur_ty);
            let (new_v, new_ty) = if cur_ty.is_pointer() {
                let delta: i64 = if inc { 1 } else { MINUS_ONE };
                let deltav = self.push(BTy::Scalar(Scalar::I64), Op::ConstInt(delta));
                self.lower_ptr_offset(cur_v, &cur_ty, deltav, &Ty::Scalar(ScalarKind::Long))
            } else if cur_ty.is_float() {
                let one = self.push(
                    bty,
                    Op::ConstFloat(FloatConst {
                        double: 0x3ff0_0000_0000_0000,
                        single: 0x3f80_0000,
                    }),
                );
                let bop = if inc { BBin::FAdd } else { BBin::FSub };
                let r2 = self.push(bty, Op::Bin(bop, cur_v, one));
                (r2, cur_ty.copy())
            } else {
                let one = self.push(bty, Op::ConstInt(1));
                let bop = if inc { BBin::Add } else { BBin::Sub };
                let r2 = self.push(bty, Op::Bin(bop, cur_v, one));
                (r2, cur_ty.copy())
            };
            let coerced = self.coerce_to(new_v, &new_ty, &cur_ty);
            self.store_addr(&lv, coerced);
            if is_pre {
                (coerced, cur_ty)
            } else {
                (cur_v, cur_ty)
            }
        }
    }

    /// Ends both branches of a conditional expression and goes on in the block where they meet.
    fn join_branches(&mut self, then_end: BlockId, else_end: BlockId, merge_bb: BlockId)
        requires
            old(self).wf(),
        ensures
            final(self).wf(),
            final(self).scopes@ == old(self).scopes@,
            final(self).st() == join_branches_s(old(self).st(), then_end, else_end, merge_bb),
    {
        proof {
            reveal(join_branches_s);
        }
        self.set_cur(then_end);
        self.terminate(Term::Br(merge_bb));
        self.set_cur(else_end);
        self.terminate(Term::Br(merge_bb));
        self.set_cur(merge_bb);
    }

    /// A conditional expression.
    #[verifier::rlimit(30)]
    fn lower_ternary(&mut self, e: &Expr) -> (r: (ValRef, Ty))
        requires
            old(self).wf(),
        ensures
            final(self).wf(),
            final(self).scopes@ == old(self).scopes@,
            final(self).st() == lower_ternary_s(old(self).st(), *e).0,
            (r.0, r.1@) == lower_ternary_s(old(self).st(), *e).1,
        decreases e, 8nat,
    {
        match e {
            Expr::Ternary { cond, then_branch, else_branch, span } => {
                let (cv, cty) = self.lower_expr(&**cond);
                if cty.is_unknown() {
                    self.lower_expr(&**then_branch);
                    self.lower_expr(&**else_branch);
                    self.placeholder()
                } else {
                    let cb = self.truthy(cv, &cty);
                    let then_bb = self.alloc_block();
                    let else_bb = self.alloc_block();
                    let merge_bb = self.alloc_block();
                    self.terminate(Term::CondBr(cb, then_bb, else_bb));
                    self.set_cur(then_bb);
                    let (tv, tty) = self.lower_expr(&**then_branch);
                    let then_end = self.b.current();
                    self.set_cur(else_bb);
                    let (ev, ety) = self.lower_expr(&**else_branch);
                    let else_end = self.b.current();
                    if tty.is_unknown() || ety.is_unknown() {
                        self.join_branches(then_end, else_end, merge_bb);
                        self.placeholder()
                    } else if !assignable(&tty, &ety) && !assignable(&ety, &tty) {
                        self.diag_unsupported(
                            *span,
                            "ternary branch types",
                            "incompatible types in the two branches",
                        );
                        self.join_branches(then_end, else_end, merge_bb);
                        self.placeholder()
                    } else {
                        let result_ty = if assignable(&tty, &ety) {
                            tty.copy()
                        } else {
                            ety.copy()
                        };
                        if is_aggregate(&result_ty) {
                            self.diag_unsupported(
                                *span,
                                "whole-aggregate value",
                                "ternary over a struct/union/array",
                            );
                            self.join_branches(then_end, else_end, merge_bb);
                            self.placeholder()
                        } else {
                            self.set_cur(then_end);
                            let tv2 = self.coerce_to(tv, &tty, &result_ty);
                            self.terminate(Term::Br(merge_bb));
                            self.set_cur(else_end);
                            let ev2 = self.coerce_to(ev, &ety, &result_ty);
                            self.terminate(Term::Br(merge_bb));
                            self.set_cur(merge_bb);
                            let edges = two_edges(then_end, tv2, else_end, ev2);
                            let phi = self.push(to_bir_ty(&result_ty), Op::Phi(edges));
                            (phi, result_ty)
                        }
                    }
                }
            },
            _ => {
                self.placeholder()
            },
        }
    }

    /// The values of the first `n` arguments, from left to right.
    fn lower_call_args(&mut self, args: &Vec<Expr>, n: usize) -> (r: Vec<(ValRef, Ty)>)
        requires
            old(self).wf(),
            n <= args@.len(),
        ensures
            final(self).wf(),
            final(self).scopes@ == old(self).scopes@,
            final(self).st() == lower_call_args_s(old(self).st(), args@, n as nat).0,
            vals_view(r@) == lower_call_args_s(old(self).st(), args@, n as nat).1,
        decreases args, n,
    {
        if n == 0 {
            let v: Vec<(ValRef, Ty)> = Vec::new();
            assert(vals_view(v@) =~= Seq::empty());
            return v;
        }
        let mut v = self.lower_call_args(args, n - 1);
        let ghost v0 = vals_view(v@);
        let p = self.lower_expr(&args[n - 1]);
        v.push(p);
        assert(vals_view(v@) =~= v0.push((p.0, p.1@)));
        v
    }

    /// `__syncthreads()`.
    fn lower_syncthreads_call(&mut self, args: &Vec<Expr>) -> (r: (ValRef, Ty))
        requires
            old(self).wf(),
        ensures
            final(self).wf(),
            final(self).scopes@ == old(self).scopes@,
            final(self).st() == lower_syncthreads_call_s(old(self).st(), args@).0,
            (r.0, r.1@) == lower_syncthreads_call_s(old(self).st(), args@).1,
        decreases args, args@.len() + 1,
    {
        self.lower_call_args(args, args.len());
        self.push_void(Op::Barrier);
        let z = self.zero_of(&Ty::Scalar(ScalarKind::Void));
        (z, Ty::Scalar(ScalarKind::Void))
    }

    /// A shuffle of two integers.
    fn lower_shuffle_call(&mut self, kind: ShuffleKind, args: &Vec<Expr>) -> (r: (ValRef, Ty))
        requires
            old(self).wf(),
        ensures
            final(self).wf(),
            final(self).scopes@ == old(self).scopes@,
            final(self).st() == lower_shuffle_call_s(old(self).st(), kind, args@).0,
            (r.0, r.1@) == lower_shuffle_call_s(old(self).st(), kind, args@).1,
        decreases args, args@.len() + 1,
    {
        let vals = self.lower_call_args(args, args.len());
        assert(forall|i: int| 0 <= i < vals@.len() ==> #[trigger] vals_view(vals@)[i] == (
            vals@[i].0,
            vals@[i].1@,
        ));
        if vals.len() != 2 || has_unknown(&vals) {
            self.placeholder()
        } else {
            let v = self.coerce_to(vals[0].0, &vals[0].1, &Ty::Scalar(ScalarKind::Int));
            let lane = self.coerce_to(vals[1].0, &vals[1].1, &Ty::Scalar(ScalarKind::Int));
            let r2 = self.push(BTy::Scalar(Scalar::I32), Op::Shuffle(kind, v, lane));
            (r2, Ty::Scalar(ScalarKind::Int))
        }
    }

    /// A vote on an integer.
    fn lower_vote_call(&mut self, kind: Vote, args: &Vec<Expr>) -> (r: (ValRef, Ty))
        requires
            old(self).wf(),
        ensures
            final(self).wf(),
            final(self).scopes@ == old(self).scopes@,
            final(self).st() == lower_vote_call_s(old(self).st(), kind, args@).0,
            (r.0, r.1@) == lower_vote_call_s(old(self).st(), kind, args@).1,
        decreases args, args@.len() + 1,
    {
        let vals = self.lower_call_args(args, args.len());
        assert(forall|i: int| 0 <= i < vals@.len() ==> #[trigger] vals_view(vals@)[i] == (
            vals@[i].0,
            vals@[i].1@,
        ));
        if vals.len() != 1 || vals[0].1.is_unknown() {
            self.placeholder()
        } else {
            let p = self.coerce_to(vals[0].0, &vals[0].1, &Ty::Scalar(ScalarKind::Int));
            let r2 = self.push(BTy::Scalar(Scalar::I32), make_vote(kind, p));
            (r2, Ty::Scalar(ScalarKind::Int))
        }
    }

    /// An atomic operation on what a pointer points to.
    fn lower_atomic_rmw_call(
        &mut self,
        aop: AtomicOp,
        args: &Vec<Expr>,
        span: Span,
    ) -> (r: (ValRef, Ty))
        requires
            old(self).wf(),
        ensures
            final(self).wf(),
            final(self).scopes@ == old(self).scopes@,
            final(self).st() == lower_atomic_rmw_call_s(old(self).st(), aop, args@, span).0,
            (r.0, r.1@) == lower_atomic_rmw_call_s(old(self).st(), aop, args@, span).1,
        decreases args, args@.len() + 1,
    {
        let vals = self.lower_call_args(args, args.len());
        assert(forall|i: int| 0 <= i < vals@.len() ==> #[trigger] vals_view(vals@)[i] == (
            vals@[i].0,
            vals@[i].1@,
        ));
        if vals.len() != 2 || has_unknown(&vals) {
            self.placeholder()
        } else if !vals[0].1.is_pointer_like() {
            self.diag_unsupported(span, "atomic builtin", "first argument is not a pointer");
            self.placeholder()
        } else {
            let val = self.coerce_to(vals[1].0, &vals[1].1, &Ty::Scalar(ScalarKind::Int));
            let r2 = self.push(
                BTy::Scalar(Scalar::I32),
                Op::Atomic(aop, vals[0].0, val, AddrSpace::Global),
            );
            (r2, Ty::Scalar(ScalarKind::Int))
        }
    }

    /// `atomicCAS`.
    fn lower_atomic_cas_call(&mut self, args: &Vec<Expr>, span: Span) -> (r: (ValRef, Ty))
        requires
            old(self).wf(),
        ensures
            final(self).wf(),
            final(self).scopes@ == old(self).scopes@,
            final(self).st() == lower_atomic_cas_call_s(old(self).st(), args@, span).0,
            (r.0, r.1@) == lower_atomic_cas_call_s(old(self).st(), args@, span).1,
        decreases args, args@.len() + 1,
    {
        let vals = self.lower_call_args(args, args.len());
        assert(forall|i: int| 0 <= i < vals@.len() ==> #[trigger] vals_view(vals@)[i] == (
            vals@[i].0,
            vals@[i].1@,
        ));
        if vals.len() != 3 || has_unknown(&vals) {
            self.placeholder()
        } else if !vals[0].1.is_pointer_like() {
            self.diag_unsupported(span, "atomic builtin", "first argument is not a pointer");
            self.placeholder()
        } else {
            let expect = self.coerce_to(vals[1].0, &vals[1].1, &Ty::Scalar(ScalarKind::Int));
            let new = self.coerce_to(vals[2].0, &vals[2].1, &Ty::Scalar(ScalarKind::Int));
            let r2 = self.push(
                BTy::Scalar(Scalar::I32),
                Op::AtomicCas(vals[0].0, expect, new, AddrSpace::Global),
            );
            (r2, Ty::Scalar(ScalarKind::Int))
        }
    }

    /// The place that `cudaMalloc` writes to: that of `&place` under casts, else what the pointer
    /// points to.
    fn lower_cuda_malloc_devptr(&mut self, e: &Expr, span: Span) -> (r: LValue)
        requires
            old(self).wf(),
        ensures
            final(self).wf(),
            final(self).scopes@ == old(self).scopes@,
            final(self).st() == lower_cuda_malloc_devptr_s(old(self).st(), *e, span).0,
            r@ == lower_cuda_malloc_devptr_s(old(self).st(), *e, span).1,
        decreases e, 11nat,
    {
        match e {
            Expr::Unary { op: UnaryOp::Addr, expr, .. } => {
                self.lower_lvalue(&**expr)
            },
            _ => {
                if let Expr::Cast {
                    expr, ..
                } = e {
                    if is_address(expr) { return self.lower_cuda_malloc_devptr(expr, span); }
                }
                self.devptr_value(e, span)
            },
        }
    }

    /// The place that the value of a pointer expression points to.
    fn devptr_value(&mut self, e: &Expr, span: Span) -> (r: LValue)
        requires
            old(self).wf(),
        ensures
            final(self).wf(),
            final(self).scopes@ == old(self).scopes@,
            final(self).st() == devptr_value_s(old(self).st(), *e, span).0,
            r@ == devptr_value_s(old(self).st(), *e, span).1,
        decreases e, 10nat,
    {
        let (v, ty) = self.lower_expr(e);
        if !ty.is_pointer_like() {
            if !ty.is_unknown() {
                self.diag_unsupported(span, "cudaMalloc", "first argument is not a pointer");
            };
            self.lvalue_unknown()
        } else {
            proof { reveal_with_fuel(ty_view, 3); }
            LValue {
                addr: v,
                ty: Ty::Pointer(Box::new(Ty::Scalar(ScalarKind::Void)), false),
                space: AddrSpace::Global,
            }
        }
    }

    /// `cudaMalloc(place, size)`: the pointer is stored through the place.
    fn lower_cuda_malloc_call(&mut self, args: &Vec<Expr>, span: Span) -> (r: (ValRef, Ty))
        requires
            old(self).wf(),
        ensures
            final(self).wf(),
            final(self).scopes@ == old(self).scopes@,
            final(self).st() == lower_cuda_malloc_call_s(old(self).st(), args@, span).0,
            (r.0, r.1@) == lower_cuda_malloc_call_s(old(self).st(), args@, span).1,
        decreases args, args@.len() + 1,
    {
        if args.len() != 2 {
            self.lower_call_args(args, args.len());
            self.diag_unsupported(span, "cudaMalloc", "expects exactly 2 arguments");
            self.placeholder()
        } else {
            let (size_v, size_t) = self.lower_expr(&args[1]);
            let devptr_lv = self.lower_cuda_malloc_devptr(&args[0], span);
            if size_t.is_unknown() || devptr_lv.ty.is_unknown() {
                self.placeholder()
            } else {
                let size = self.coerce_to(size_v, &size_t, &Ty::Scalar(ScalarKind::ULong));
                let allocated = self.push(BTy::Ptr(AddrSpace::Global), Op::CudaMalloc { size });
                self.store_addr(&devptr_lv, allocated);
                let z = self.zero_of(&Ty::Scalar(ScalarKind::Int));
                (z, Ty::Scalar(ScalarKind::Int))
            }
        }
    }

    /// `cudaMemcpy(dst, src, count, kind)`.
    fn lower_cuda_memcpy_call(&mut self, args: &Vec<Expr>) -> (r: (ValRef, Ty))
        requires
            old(self).wf(),
        ensures
            final(self).wf(),
            final(self).scopes@ == old(self).scopes@,
            final(self).st() == lower_cuda_memcpy_call_s(old(self).st(), args@).0,
            (r.0, r.1@) == lower_cuda_memcpy_call_s(old(self).st(), args@).1,
        decreases args, args@.len() + 1,
    {
        let vals = self.lower_call_args(args, args.len());
        assert(forall|i: int| 0 <= i < vals@.len() ==> #[trigger] vals_view(vals@)[i] == (
            vals@[i].0,
            vals@[i].1@,
        ));
        if vals.len() != 4 || has_unknown(&vals) {
            self.placeholder()
        } else {
            let count = self.coerce_to(vals[2].0, &vals[2].1, &Ty::Scalar(ScalarKind::ULong));
            let kind = self.coerce_to(vals[3].0, &vals[3].1, &Ty::Scalar(ScalarKind::Int));
            self.push_void(Op::CudaMemcpy { dst: vals[0].0, src: vals[1].0, count, kind });
            let z = self.zero_of(&Ty::Scalar(ScalarKind::Int));
            (z, Ty::Scalar(ScalarKind::Int))
        }
    }

    /// `cudaFree(pointer)`.
    fn lower_cuda_free_call(&mut self, args: &Vec<Expr>) -> (r: (ValRef, Ty))
        requires
            old(self).wf(),
        ensures
            final(self).wf(),
            final(self).scopes@ == old(self).scopes@,
            final(self).st() == lower_cuda_free_call_s(old(self).st(), args@).0,
            (r.0, r.1@) == lower_cuda_free_call_s(old(self).st(), args@).1,
        decreases args, args@.len() + 1,
    {
        let vals = self.lower_call_args(args, args.len());
        assert(forall|i: int| 0 <= i < vals@.len() ==> #[trigger] vals_view(vals@)[i] == (
            vals@[i].0,
            vals@[i].1@,
        ));
        if vals.len() != 1 || vals[0].1.is_unknown() {
            self.placeholder()
        } else {
            self.push_void(Op::CudaFree { ptr: vals[0].0 });
            let z = self.zero_of(&Ty::Scalar(ScalarKind::Int));
            (z, Ty::Scalar(ScalarKind::Int))
        }
    }

    /// `cudaDeviceSynchronize()`.
    fn lower_cuda_device_synchronize_call(&mut self, args: &Vec<Expr>) -> (r: (ValRef, Ty))
        requires
            old(self).wf(),
        ensures
            final(self).wf(),
            final(self).scopes@ == old(self).scopes@,
            final(self).st() == lower_cuda_device_synchronize_call_s(old(self).st(), args@).0,
            (r.0, r.1@) == lower_cuda_device_synchronize_call_s(old(self).st(), args@).1,
        decreases args, args@.len() + 1,
    {
        self.lower_call_args(args, args.len());
        self.push_void(Op::CudaDeviceSynchronize);
        let z = self.zero_of(&Ty::Scalar(ScalarKind::Int));
        (z, Ty::Scalar(ScalarKind::Int))
    }

    /// A call of a builtin by its name; `None` if the name is none.
    fn lower_builtin_call(
        &mut self,
        name: &str,
        args: &Vec<Expr>,
        span: Span,
    ) -> (r: Option<(ValRef, Ty)>)
        requires
            old(self).wf(),
        ensures
            final(self).wf(),
            final(self).scopes@ == old(self).scopes@,
            final(self).st() == lower_builtin_call_s(old(self).st(), name@, args@, span).0,
            opt_val(r) == lower_builtin_call_s(old(self).st(), name@, args@, span).1,
        decreases args, args@.len() + 2,
    {
        if same(name, "__syncthreads") {
            let v = self.lower_syncthreads_call(args);
            Some(v)
        } else if let Some(kind) = shuffle_kind_for(name) {
            let v = self.lower_shuffle_call(kind, args);
            Some(v)
        } else if let Some(kind) = vote_for(name) {
            let v = self.lower_vote_call(kind, args);
            Some(v)
        } else if let Some(aop) = atomic_op_for(name) {
            let v = self.lower_atomic_rmw_call(aop, args, span);
            Some(v)
        } else if same(name, "atomicCAS") {
            let v = self.lower_atomic_cas_call(args, span);
            Some(v)
        } else if same(name, "cudaMalloc") {
            let v = self.lower_cuda_malloc_call(args, span);
            Some(v)
        } else if same(name, "cudaMemcpy") {
            let v = self.lower_cuda_memcpy_call(args);
            Some(v)
        } else if same(name, "cudaFree") {
            let v = self.lower_cuda_free_call(args);
            Some(v)
        } else if same(name, "cudaDeviceSynchronize") {
            let v = self.lower_cuda_device_synchronize_call(args);
            Some(v)
        } else {
            None
        }
    }

    /// A call of a function of the module, once its arguments have been evaluated.
    fn finish_call(
        &mut self,
        callee: Option<(String, Ty)>,
        vals: Vec<(ValRef, Ty)>,
        span: Span,
    ) -> (r: (ValRef, Ty))
        requires
            old(self).wf(),
        ensures
            final(self).wf(),
            final(self).scopes@ == old(self).scopes@,
            final(self).st() == finish_call_s(
                old(self).st(),
                opt_callee(callee),
                vals_view(vals@),
                span,
            ).0,
            (r.0, r.1@) == finish_call_s(
                old(self).st(),
                opt_callee(callee),
                vals_view(vals@),
                span,
            ).1,
    {
        proof {
            reveal(finish_call_s);
        }
        match callee {
            None => {
                self.placeholder()
            },
            Some((name, ret_ty)) => {
                if is_aggregate(&ret_ty) || has_aggregate(&vals) {
                    self.diag_unsupported(
                        span,
                        "function call",
                        "a whole struct/union/array argument or return value has no BIR value to lower to",
                    );
                    if ret_ty.is_unknown() || is_aggregate(&ret_ty) {
                        self.placeholder()
                    } else {
                        let v = self.zero_of(&ret_ty);
                        (v, ret_ty)
                    }
                } else if ret_ty.is_unknown() {
                    self.placeholder()
                } else if ret_ty.is_void() {
                    self.push_void(Op::Call { func: name, args: take_refs(&vals) });
                    let z = self.zero_of(&ret_ty);
                    (z, ret_ty)
                } else {
                    let v = self.push(
                        to_bir_ty(&ret_ty),
                        Op::Call { func: name, args: take_refs(&vals) },
                    );
                    (v, ret_ty)
                }
            },
        }
    }

    /// A call.
    fn lower_call(&mut self, e: &Expr) -> (r: (ValRef, Ty))
        requires
            old(self).wf(),
        ensures
            final(self).wf(),
            final(self).scopes@ == old(self).scopes@,
            final(self).st() == lower_call_s(old(self).st(), *e).0,
            (r.0, r.1@) == lower_call_s(old(self).st(), *e).1,
        decreases e, 8nat,
    {
        match e {
            Expr::Call { callee, args, span } => {
                match &**callee {
                    Expr::Ident { name, .. } => {
                        let builtin = self.lower_builtin_call(name.as_str(), args, *span);
                        match builtin {
                            Some(v) => {
                                v
                            },
                            None => {
                                let found = match self.scopes.lookup_value(name.as_str()) {
                                    Some(ValueSym::Func(sig)) => Some((
                                        name.clone(),
                                        sig.ret.copy(),
                                    )),
                                    _ => None,
                                };
                                let vals = self.lower_call_args(args, args.len());
                                self.finish_call(found, vals, *span)
                            },
                        }
                    },
                    other => {
                        self.lower_expr(other);
                        self.lower_call_args(args, args.len());
                        self.placeholder()
                    },
                }
            },
            _ => {
                self.placeholder()
            },
        }
    }

    /// One field of a value with `x`, `y` and `z`.
    fn load_dim3_field(&mut self, base: &LValue, field: &str) -> (r: ValRef)
        requires
            old(self).wf(),
        ensures
            final(self).wf(),
            final(self).scopes@ == old(self).scopes@,
            final(self).st() == load_dim3_field_s(old(self).st(), base@, field@).0,
            r == load_dim3_field_s(old(self).st(), base@, field@).1,
    {
        proof {
            reveal(load_dim3_field_s);
        }
        match self.field_offset(&base.ty, field) {
            Some((off, fty)) => {
                let lv = self.field_place(base, off, fty);
                let (v, _) = self.load_addr(&lv);
                v
            },
            None => {
                self.push(BTy::Scalar(Scalar::I32), Op::ConstInt(0))
            },
        }
    }

    /// An extent of a launch: an integer is `(n, 1, 1)`.
    fn lower_launch_config_dim(&mut self, e: &Expr) -> (r: [ValRef; 3])
        requires
            old(self).wf(),
        ensures
            final(self).wf(),
            final(self).scopes@ == old(self).scopes@,
            final(self).st() == lower_launch_config_dim_s(old(self).st(), *e).0,
            r@ == lower_launch_config_dim_s(old(self).st(), *e).1,
        decreases e, 10nat,
    {
        if self.is_dim3_extent(e) {
            let lv = self.lower_lvalue(e);
            if lv.ty.is_unknown() {
                let z = self.push(BTy::Scalar(Scalar::I32), Op::ConstInt(0));
                triple(z, z, z)
            } else {
                let x = self.load_dim3_field(&lv, "x");
                let y = self.load_dim3_field(&lv, "y");
                let z = self.load_dim3_field(&lv, "z");
                triple(x, y, z)
            }
        } else {
            let (v, t) = self.lower_expr(e);
            let x = if t.is_unknown() {
                self.push(BTy::Scalar(Scalar::I32), Op::ConstInt(0))
            } else {
                self.coerce_to(v, &t, &Ty::Scalar(ScalarKind::UInt))
            };
            let one = self.push(BTy::Scalar(Scalar::I32), Op::ConstInt(1));
            triple(x, one, one)
        }
    }

    /// The size of the shared memory of a launch.
    fn lower_shared(&mut self, shared: &Option<Box<Expr>>) -> (r: ValRef)
        requires
            old(self).wf(),
        ensures
            final(self).wf(),
            final(self).scopes@ == old(self).scopes@,
            final(self).st() == lower_shared_s(old(self).st(), *shared).0,
            r == lower_shared_s(old(self).st(), *shared).1,
        decreases shared, 10nat,
    {
        match shared {
            Some(x) => {
                let (v, t) = self.lower_expr(&**x);
                self.coerce_to(v, &t, &Ty::Scalar(ScalarKind::ULong))
            },
            None => {
                self.push(BTy::Scalar(Scalar::I64), Op::ConstInt(0))
            },
        }
    }

    /// The stream of a launch.
    fn lower_stream(&mut self, stream: &Option<Box<Expr>>) -> (r: ValRef)
        requires
            old(self).wf(),
        ensures
            final(self).wf(),
            final(self).scopes@ == old(self).scopes@,
            final(self).st() == lower_stream_s(old(self).st(), *stream).0,
            r == lower_stream_s(old(self).st(), *stream).1,
        decreases stream, 10nat,
    {
        match stream {
            Some(x) => {
                let (v, _) = self.lower_expr(&**x);
                v
            },
            None => {
                self.push(BTy::Ptr(AddrSpace::Global), Op::ConstInt(0))
            },
        }
    }

    /// A kernel launch.
    fn lower_kernel_launch(&mut self, e: &Expr) -> (r: (ValRef, Ty))
        requires
            old(self).wf(),
        ensures
            final(self).wf(),
            final(self).scopes@ == old(self).scopes@,
            final(self).st() == lower_kernel_launch_s(old(self).st(), *e).0,
            (r.0, r.1@) == lower_kernel_launch_s(old(self).st(), *e).1,
        decreases e, 8nat,
    {
        match e {
            Expr::KernelLaunch { kernel, grid, block, shared, stream, args, span } => {
                match &**kernel {
                    Expr::Ident { name, .. } => {
                        let grid_vals = self.lower_launch_config_dim(&**grid);
                        let block_vals = self.lower_launch_config_dim(&**block);
                        let shared_val = self.lower_shared(shared);
                        let stream_val = self.lower_stream(stream);
                        let vals = self.lower_call_args(args, args.len());
                        self.push_void(Op::KernelLaunch {
                            kernel: name.clone(),
                            grid: grid_vals,
                            block: block_vals,
                            shared: shared_val,
                            stream: stream_val,
                            args: take_refs(&vals),
                        });
                    },
                    other => {
                        self.lower_expr(other);
                        self.lower_call_args(args, args.len());
                        self.diag_unsupported(
                            *span,
                            "kernel launch",
                            "launch target is not a named function",
                        );
                    },
                };
                let z = self.zero_of(&Ty::Scalar(ScalarKind::Void));
                (z, Ty::Scalar(ScalarKind::Void))
            },
            _ => {
                self.placeholder()
            },
        }
    }

    /// The value of the last of a list of expressions, after the others; of the first `n`.
    fn lower_comma(&mut self, es: &Vec<Expr>, n: usize) -> (r: (ValRef, Ty))
        requires
            old(self).wf(),
            n <= es@.len(),
        ensures
            final(self).wf(),
            final(self).scopes@ == old(self).scopes@,
            final(self).st() == lower_comma_s(old(self).st(), es@, n as nat).0,
            (r.0, r.1@) == lower_comma_s(old(self).st(), es@, n as nat).1,
        decreases es, n,
    {
        if n == 0 { return self.placeholder(); }
        self.lower_comma(es, n - 1);
        self.lower_expr(&es[n - 1])
    }

    fn is_place(&self, e: &Expr) -> (r: bool)
        ensures
            r == names_place(self.st().locals, *e),
    {
        match e {
            Expr::Ident { name, .. } => match self.find_local(name.as_str()) {
                Some(slot) => !slot.ty.is_unknown(),
                None => false,
            },
            Expr::Index { .. } => true,
            Expr::Member { base, name, arrow, .. } => *arrow || match &**base {
                Expr::Ident { name: base_name, .. } => gpu_index_op_for(
                    base_name.as_str(),
                    name.as_str(),
                ).is_none(),
                _ => true,
            },
            Expr::Unary { op, .. } => *op == UnaryOp::Deref,
            _ => false,
        }
    }

    /// The type of the operand of `sizeof`.
    fn operand_type(&mut self, e: &Expr) -> (r: Ty)
        requires
            old(self).wf(),
        ensures
            final(self).wf(),
            final(self).scopes@ == old(self).scopes@,
            final(self).st() == operand_type_s(old(self).st(), *e).0,
            r@ == operand_type_s(old(self).st(), *e).1,
        decreases e, 10nat,
    {
        if self.is_place(e) {
            let lv = self.lower_lvalue(e);
            if let Ty::Array(_) = &lv.ty {
                lv.ty
            } else {
                let (_, ty) = self.value_of_lvalue(lv, e.span());
                ty
            }
        } else {
            let (_, ty) = self.lower_expr(e);
            ty
        }
    }

    /// The size of a type as a constant.
    fn size_constant(&mut self, t: &Ty, span: Span) -> (r: (ValRef, Ty))
        requires
            old(self).wf(),
        ensures
            final(self).wf(),
            final(self).scopes@ == old(self).scopes@,
            final(self).st() == size_constant_s(old(self).st(), t@, span).0,
            (r.0, r.1@) == size_constant_s(old(self).st(), t@, span).1,
    {
        proof {
            reveal(size_constant_s);
        }
        if t.is_unknown() {
            let v = self.push(BTy::Scalar(Scalar::I64), Op::ConstInt(0));
            (v, Ty::Scalar(ScalarKind::ULong))
        } else {
            if has_array(&self.scopes, self.tags, t) {
                self.diag_unsupported(
                    span,
                    "sizeof of an array",
                    "the type holds no element count; one element is counted",
                );
            }
            let bytes = u64_to_i64(self.size_of_ty(t));
            let v = self.push(BTy::Scalar(Scalar::I64), Op::ConstInt(bytes));
            (v, Ty::Scalar(ScalarKind::ULong))
        }
    }

    /// The value of an expression.
    #[verifier::rlimit(30)]
    fn lower_expr(&mut self, e: &Expr) -> (r: (ValRef, Ty))
        requires
            old(self).wf(),
        ensures
            final(self).wf(),
            final(self).scopes@ == old(self).scopes@,
            final(self).st() == lower_expr_s(old(self).st(), *e).0,
            (r.0, r.1@) == lower_expr_s(old(self).st(), *e).1,
        decreases e, 9nat,
    {
        match e {
            Expr::IntLit { value, .. } => {
                let ty = int_lit_ty(value);
                let n = c_int_value(value.text.as_str(), value.base);
                let v = self.push(to_bir_ty(&ty), Op::ConstInt(n));
                (v, ty)
            },
            Expr::FloatLit { value, .. } => {
                let ty = float_lit_ty(value);
                let v = self.push(to_bir_ty(&ty), Op::ConstFloat(value.value));
                (v, ty)
            },
            Expr::CharLit { value, .. } => {
                let v = self.push(BTy::Scalar(Scalar::I8), Op::ConstInt(*value as i64));
                (v, Ty::Scalar(ScalarKind::Char))
            },
            Expr::StrLit { span } => {
                self.diag_unsupported(
                    *span,
                    "string literal",
                    "no BIR data-segment representation",
                );
                let v = self.push(BTy::Ptr(AddrSpace::Global), Op::ConstInt(0));
                proof { reveal_with_fuel(ty_view, 3); }
                (v, Ty::Pointer(Box::new(Ty::Scalar(ScalarKind::Char)), true))
            },
            Expr::Ident { name, span } => {
                self.lower_ident_value(name.as_str(), *span)
            },
            Expr::Index { .. } => {
                let lv = self.lower_lvalue(e);
                self.value_of_lvalue(lv, e.span())
            },
            Expr::Member { base, name, arrow, .. } => {
                let found = if *arrow {
                    None
                } else {
                    match &**base {
                        Expr::Ident { name: base_name, .. } => gpu_index_op_for(
                            base_name.as_str(),
                            name.as_str(),
                        ),
                        _ => None,
                    }
                };
                match found {
                    Some(op) => {
                        let v = self.push(BTy::Scalar(Scalar::I32), op);
                        (v, Ty::Scalar(ScalarKind::UInt))
                    },
                    None => {
                        let lv = self.lower_lvalue(e);
                        self.value_of_lvalue(lv, e.span())
                    },
                }
            },
            Expr::Unary { op, expr, .. } => {
                if *op == UnaryOp::Deref {
                    let lv = self.lower_lvalue(e);
                    self.value_of_lvalue(lv, e.span())
                } else if *op == UnaryOp::Addr {
                    let lv = self.lower_lvalue(&**expr);
                    if lv.ty.is_unknown() {
                        self.placeholder()
                    } else {
                        (lv.addr, Ty::Pointer(Box::new(lv.ty), false))
                    }
                } else {
                    self.lower_unary(*op, &**expr)
                }
            },
            Expr::Binary { .. } => {
                self.lower_binary(e)
            },
            Expr::Assign { .. } => {
                self.lower_assign(e)
            },
            Expr::Ternary { .. } => {
                self.lower_ternary(e)
            },
            Expr::Cast { .. } => {
                self.lower_cast(e)
            },
            Expr::PreIncDec { op, expr, .. } => {
                self.lower_incdec(*op, &**expr, true)
            },
            Expr::PostIncDec { op, expr, .. } => {
                self.lower_incdec(*op, &**expr, false)
            },
            Expr::SizeofExpr { expr, span } => {
                let ty = self.operand_type(&**expr);
                self.size_constant(&ty, *span)
            },
            Expr::SizeofType { ty, span } => {
                let t = self.resolve_type(ty);
                self.size_constant(&t, *span)
            },
            Expr::Call { .. } => {
                self.lower_call(e)
            },
            Expr::KernelLaunch { .. } => {
                self.lower_kernel_launch(e)
            },
            Expr::Comma { exprs, .. } => {
                self.lower_comma(exprs, exprs.len())
            },
            Expr::Error { .. } => {
                self.placeholder()
            },
        }
    }

    /// A variable declaration.
    fn lower_var_decl(&mut self, v: &VarDecl)
        requires
            old(self).wf(),
        ensures
            final(self).wf(),
            final(self).scopes@ == old(self).scopes@,
            final(self).st() == lower_var_decl_s(old(self).st(), *v),
    {
        proof {
            reveal(lower_var_decl_s);
        }
        let ty = self.resolve_type(&v.ty);
        if ty.is_unknown() {
            match &v.init {
                Some(init) => {
                    self.lower_expr(init);
                },
                None => {},
            };
            let slot = self.new_slot(Ty::Unknown, AddrSpace::Local);
            self.bind_local(v.name.as_str(), slot);
        } else {
            let space = if v.cuda_quals.is_shared {
                AddrSpace::Shared
            } else if v.cuda_quals.is_constant {
                AddrSpace::Constant
            } else {
                AddrSpace::Local
            };
            let slot = self.new_slot(ty.copy(), space);
            self.bind_local(v.name.as_str(), slot.copy());
            match &v.init {
                Some(init) => {
                    if is_aggregate(&ty) {
                        self.diag_unsupported(
                            v.span,
                            "aggregate initializer",
                            "struct/union/array initializers are not lowered",
                        );
                        self.lower_expr(init);
                    } else {
                        let (iv, ity) = self.lower_expr(init);
                        if !ity.is_unknown() {
                            let coerced = self.coerce_to(iv, &ity, &ty);
                            let lv = self.slot_lvalue(&slot);
                            self.store_addr(&lv, coerced);
                        }
                    }
                },
                None => {},
            };
        }
    }

    /// The first `n` declarations of a list.
    fn lower_decls(&mut self, ds: &Vec<VarDecl>, n: usize)
        requires
            old(self).wf(),
            n <= ds@.len(),
        ensures
            final(self).wf(),
            final(self).scopes@ == old(self).scopes@,
            final(self).st() == lower_decls_s(old(self).st(), ds@, n as nat),
        decreases n,
    {
        if n > 0 {
            self.lower_decls(ds, n - 1);
            self.lower_var_decl(&ds[n - 1]);
        }
    }

    /// The first `n` statements of a list.
    fn lower_stmts(&mut self, ss: &Vec<Stmt>, n: usize)
        requires
            old(self).wf(),
            n <= ss@.len(),
        ensures
            final(self).wf(),
            final(self).scopes@ == old(self).scopes@,
            final(self).st() == lower_stmts_s(old(self).st(), ss@, n as nat),
        decreases ss, n,
    {
        if n > 0 {
            self.lower_stmts(ss, n - 1);
            self.lower_stmt(&ss[n - 1]);
        }
    }

    /// `if`.
    fn lower_if(&mut self, s: &Stmt)
        requires
            old(self).wf(),
        ensures
            final(self).wf(),
            final(self).scopes@ == old(self).scopes@,
            final(self).st() == lower_if_s(old(self).st(), *s),
        decreases s, 8nat,
    {
        match s {
            Stmt::If { cond, then_branch, else_branch, .. } => {
                let branch_val = self.condition(cond);
                let then_bb = self.alloc_block();
                let else_bb = self.alloc_block();
                let merge_bb = self.alloc_block();
                self.terminate(Term::CondBr(branch_val, then_bb, else_bb));
                self.set_cur(then_bb);
                self.lower_stmt(&**then_branch);
                self.terminate(Term::Br(merge_bb));
                self.set_cur(else_bb);
                match else_branch {
                    Some(x) => {
                        self.lower_stmt(&**x);
                    },
                    None => {},
                };
                self.terminate(Term::Br(merge_bb));
                self.set_cur(merge_bb);
            },
            _ => {},
        }
    }

    /// `while`.
    fn lower_while(&mut self, s: &Stmt)
        requires
            old(self).wf(),
        ensures
            final(self).wf(),
            final(self).scopes@ == old(self).scopes@,
            final(self).st() == lower_while_s(old(self).st(), *s),
        decreases s, 8nat,
    {
        match s {
            Stmt::While { cond, body, .. } => {
                let cond_bb = self.alloc_block();
                let body_bb = self.alloc_block();
                let exit_bb = self.alloc_block();
                self.terminate(Term::Br(cond_bb));
                self.set_cur(cond_bb);
                let branch_val = self.condition(cond);
                self.terminate(Term::CondBr(branch_val, body_bb, exit_bb));
                self.set_cur(body_bb);
                self.enter(CtrlCtx::Loop { break_bb: exit_bb, continue_bb: cond_bb });
                self.lower_stmt(&**body);
                self.leave();
                self.terminate(Term::Br(cond_bb));
                self.set_cur(exit_bb);
            },
            _ => {},
        }
    }

    /// `do` ... `while`.
    fn lower_do_while(&mut self, s: &Stmt)
        requires
            old(self).wf(),
        ensures
            final(self).wf(),
            final(self).scopes@ == old(self).scopes@,
            final(self).st() == lower_do_while_s(old(self).st(), *s),
        decreases s, 8nat,
    {
        match s {
            Stmt::DoWhile { body, cond, .. } => {
                let body_bb = self.alloc_block();
                let cond_bb = self.alloc_block();
                let exit_bb = self.alloc_block();
                self.terminate(Term::Br(body_bb));
                self.set_cur(body_bb);
                self.enter(CtrlCtx::Loop { break_bb: exit_bb, continue_bb: cond_bb });
                self.lower_stmt(&**body);
                self.leave();
                self.terminate(Term::Br(cond_bb));
                self.set_cur(cond_bb);
                let branch_val = self.condition(cond);
                self.terminate(Term::CondBr(branch_val, body_bb, exit_bb));
                self.set_cur(exit_bb);
            },
            _ => {},
        }
    }

    /// `for`.
    #[verifier::rlimit(30)]
    fn lower_for(&mut self, s: &Stmt)
        requires
            old(self).wf(),
        ensures
            final(self).wf(),
            final(self).scopes@ == old(self).scopes@,
            final(self).st() == lower_for_s(old(self).st(), *s),
        decreases s, 8nat,
    {
        match s {
            Stmt::For { init, cond, step, body, .. } => {
                self.open_block();
                match init {
                    Some(i) => {
                        self.lower_stmt(&**i);
                    },
                    None => {},
                };
                let cond_bb = self.alloc_block();
                let body_bb = self.alloc_block();
                let step_bb = self.alloc_block();
                let exit_bb = self.alloc_block();
                self.terminate(Term::Br(cond_bb));
                self.set_cur(cond_bb);
                match cond {
                    Some(c) => {
                        let branch_val = self.condition(c);
                        self.terminate(Term::CondBr(branch_val, body_bb, exit_bb));
                    },
                    None => {
                        self.terminate(Term::Br(body_bb));
                    },
                };
                self.set_cur(body_bb);
                self.enter(CtrlCtx::Loop { break_bb: exit_bb, continue_bb: step_bb });
                self.lower_stmt(&**body);
                self.leave();
                self.terminate(Term::Br(step_bb));
                self.set_cur(step_bb);
                match step {
                    Some(x) => {
                        self.lower_expr(x);
                    },
                    None => {},
                };
                self.terminate(Term::Br(cond_bb));
                self.set_cur(exit_bb);
                self.close_scope();
            },
            _ => {},
        }
    }

    /// As many new blocks as are asked for.
    fn alloc_blocks(&mut self, n: usize) -> (r: Vec<BlockId>)
        requires
            old(self).wf(),
        ensures
            final(self).wf(),
            final(self).scopes@ == old(self).scopes@,
            final(self).st() == alloc_blocks_s(old(self).st(), n as nat).0,
            r@ == alloc_blocks_s(old(self).st(), n as nat).1,
        decreases n,
    {
        if n == 0 {
            let v: Vec<BlockId> = Vec::new();
            assert(v@ =~= Seq::empty());
            return v;
        }
        let mut v = self.alloc_blocks(n - 1);
        let b = self.alloc_block();
        v.push(b);
        v
    }

    /// Adds the labels in front of a statement of a switch to its cases. A label that is no
    /// constant is reported and gets a number of its own.
    fn peel_case_labels(
        &mut self,
        s: &Stmt,
        bb: BlockId,
        seed: i64,
        k: i64,
        acc: Cases,
    ) -> (r: Cases)
        requires
            old(self).wf(),
        ensures
            final(self).wf(),
            final(self).scopes@ == old(self).scopes@,
            final(self).st() == peel_case_labels_s(old(self).st(), *s, bb, seed, k, acc@).0,
            r@ == peel_case_labels_s(old(self).st(), *s, bb, seed, k, acc@).1,
        decreases s,
    {
        match s {
            Stmt::Case { value, stmt, span } => {
                let found = const_eval_i64(&self.enum_values, value);
                let v = match found {
                    Some(n) => {
                        n
                    },
                    None => {
                        self.diag_unsupported(
                            *span,
                            "non-constant case label",
                            "value must be a compile-time integer constant",
                        );
                        i64::MIN.wrapping_add(seed.wrapping_mul(1000)).wrapping_add(k)
                    },
                };
                let mut cases = acc.cases;
                cases.push((v, bb));
                self.peel_case_labels(
                    stmt,
                    bb,
                    seed,
                    k.wrapping_add(1),
                    Cases { cases, default: acc.default },
                )
            },
            Stmt::Default { stmt, .. } => {
                self.peel_case_labels(
                    stmt,
                    bb,
                    seed,
                    k,
                    Cases { cases: acc.cases, default: Some(bb) },
                )
            },
            _ => {
                acc
            },
        }
    }

    /// The cases of the first `n` statements of a switch.
    fn collect_cases(&mut self, ss: &Vec<Stmt>, bbs: &Vec<BlockId>, n: usize) -> (r: Cases)
        requires
            old(self).wf(),
            n <= ss@.len(),
            n <= bbs@.len(),
        ensures
            final(self).wf(),
            final(self).scopes@ == old(self).scopes@,
            final(self).st() == collect_cases_s(old(self).st(), ss@, bbs@, n as nat).0,
            r@ == collect_cases_s(old(self).st(), ss@, bbs@, n as nat).1,
        decreases ss, n,
    {
        if n == 0 {
            let c = Cases { cases: Vec::new(), default: None };
            assert(c@.cases =~= Seq::empty());
            return c;
        }
        let acc = self.collect_cases(ss, bbs, n - 1);
        self.peel_case_labels(&ss[n - 1], bbs[n - 1], u64_to_i64((n - 1) as u64), 0, acc)
    }

    /// A statement behind its labels.
    fn lower_inner(&mut self, s: &Stmt)
        requires
            old(self).wf(),
        ensures
            final(self).wf(),
            final(self).scopes@ == old(self).scopes@,
            final(self).st() == lower_inner_s(old(self).st(), *s),
        decreases s, 10nat,
    {
        match s {
            Stmt::Case { value, stmt, span } => {
                let found = const_eval_i64(&self.enum_values, value);
                match found {
                    Some(_) => {},
                    None => {
                        self.diag_unsupported(
                            *span,
                            "non-constant case label",
                            "value must be a compile-time integer constant",
                        );
                    },
                };
                self.lower_inner(&**stmt);
            },
            Stmt::Default { stmt, .. } => {
                self.lower_inner(&**stmt);
            },
            _ => {
                self.lower_stmt(s);
            },
        }
    }

    /// The first `n` statements of a switch, each in its block, falling through to the next.
    fn lower_arms(&mut self, ss: &Vec<Stmt>, bbs: &Vec<BlockId>, exit_bb: BlockId, n: usize)
        requires
            old(self).wf(),
            n <= ss@.len(),
            bbs@.len() == ss@.len(),
        ensures
            final(self).wf(),
            final(self).scopes@ == old(self).scopes@,
            final(self).st() == lower_arms_s(old(self).st(), ss@, bbs@, exit_bb, n as nat),
        decreases ss, n,
    {
        if n > 0 {
            self.lower_arms(ss, bbs, exit_bb, n - 1);
            self.set_cur(bbs[n - 1]);
            self.lower_inner(&ss[n - 1]);
            let next = if n < bbs.len() { bbs[n] } else { exit_bb };
            self.terminate(Term::Br(next));
        }
    }

    /// `switch`.
    #[verifier::rlimit(30)]
    fn lower_switch(&mut self, s: &Stmt)
        requires
            old(self).wf(),
        ensures
            final(self).wf(),
            final(self).scopes@ == old(self).scopes@,
            final(self).st() == lower_switch_s(old(self).st(), *s),
        decreases s, 8nat,
    {
        match s {
            Stmt::Switch { expr, body, .. } => {
                let (sv, _) = self.lower_expr(expr);
                let exit_bb = self.alloc_block();
                match &**body {
                    Stmt::Block { stmts, .. } => {
                        let ghost st1 = self.st();
                        let bbs = self.alloc_blocks(stmts.len());
                        proof { lemma_alloc_blocks_len(st1, stmts@.len()); }
                        let acc = self.collect_cases(stmts, &bbs, stmts.len());
                        let default_target = match acc.default { Some(d) => d, None => exit_bb };
                        self.terminate(Term::Switch(sv, default_target, acc.cases));
                        self.enter(CtrlCtx::Switch { break_bb: exit_bb });
                        self.lower_arms(stmts, &bbs, exit_bb, stmts.len());
                    },
                    other => {
                        let bb = self.alloc_block();
                        let none = Cases { cases: Vec::new(), default: None };
                        assert(none@.cases =~= Seq::empty());
                        let acc = self.peel_case_labels(other, bb, 0, 0, none);
                        let default_target = match acc.default { Some(d) => d, None => exit_bb };
                        self.terminate(Term::Switch(sv, default_target, acc.cases));
                        self.enter(CtrlCtx::Switch { break_bb: exit_bb });
                        self.set_cur(bb);
                        self.lower_inner(other);
                        self.terminate(Term::Br(exit_bb));
                    },
                };
                self.leave();
                self.set_cur(exit_bb);
            },
            _ => {},
        }
    }

    /// Opens a block for what follows the end of another.
    fn fresh_cur(&mut self)
        requires
            old(self).wf(),
        ensures
            final(self).wf(),
            final(self).scopes@ == old(self).scopes@,
            final(self).st() == fresh_cur_s(old(self).st()),
    {
        proof {
            reveal(fresh_cur_s);
        }
        let bb = self.alloc_block();
        self.set_cur(bb);
    }

    /// `break`.
    fn lower_break(&mut self, span: Span)
        requires
            old(self).wf(),
        ensures
            final(self).wf(),
            final(self).scopes@ == old(self).scopes@,
            final(self).st() == lower_break_s(old(self).st(), span),
    {
        proof {
            reveal(lower_break_s);
        }
        match self.find_break() {
            Some(bb) => {
                self.terminate(Term::Br(bb));
            },
            None => {
                self.err(ECode::TypeError, span, "'break' used outside of a loop or switch");
                self.terminate(Term::Ret(None));
            },
        };
        self.fresh_cur();
    }

    /// `continue`.
    fn lower_continue(&mut self, span: Span)
        requires
            old(self).wf(),
        ensures
            final(self).wf(),
            final(self).scopes@ == old(self).scopes@,
            final(self).st() == lower_continue_s(old(self).st(), span),
    {
        proof {
            reveal(lower_continue_s);
        }
        match self.find_continue() {
            Some(bb) => {
                self.terminate(Term::Br(bb));
            },
            None => {
                self.err(ECode::TypeError, span, "'continue' used outside of a loop");
                self.terminate(Term::Ret(None));
            },
        };
        self.fresh_cur();
    }

    /// Returns a zero, or nothing where nothing is returned.
    fn return_zero(&mut self)
        requires
            old(self).wf(),
        ensures
            final(self).wf(),
            final(self).scopes@ == old(self).scopes@,
            final(self).st() == return_zero_s(old(self).st()),
    {
        proof {
            reveal(return_zero_s);
        }
        let fr = self.fn_ret.copy();
        if fr.is_void() {
            self.terminate(Term::Ret(None));
        } else {
            let z = self.zero_of(&fr);
            self.terminate(Term::Ret(Some(z)));
        }
    }

    /// `return`.
    fn lower_return(&mut self, expr: &Option<Expr>, span: Span)
        requires
            old(self).wf(),
        ensures
            final(self).wf(),
            final(self).scopes@ == old(self).scopes@,
            final(self).st() == lower_return_s(old(self).st(), *expr, span),
    {
        proof {
            reveal(lower_return_s);
        }
        match expr {
            None => {
                self.terminate(Term::Ret(None));
            },
            Some(x) => {
                let (v, ty) = self.lower_expr(x);
                if ty.is_unknown() {
                    self.return_zero();
                } else if is_aggregate(&ty) {
                    self.diag_unsupported(
                        span,
                        "whole-aggregate return",
                        "returning a struct/union/array by value has no BIR representation",
                    );
                    self.return_zero();
                } else {
                    let fr = self.fn_ret.copy();
                    let coerced = self.coerce_to(v, &ty, &fr);
                    self.terminate(Term::Ret(Some(coerced)));
                }
            },
        };
        self.fresh_cur();
    }

    /// A label: its block was made with the function.
    fn lower_label(&mut self, name: &str)
        requires
            old(self).wf(),
        ensures
            final(self).wf(),
            final(self).scopes@ == old(self).scopes@,
            final(self).st() == lower_label_s(old(self).st(), name@),
    {
        proof {
            reveal(lower_label_s);
        }
        let found = match self.label_blocks.get(name) { Some(b) => Some(*b), None => None };
        match found {
            Some(bb) => {
                self.terminate(Term::Br(bb));
                self.set_cur(bb);
            },
            None => {},
        }
    }

    /// `goto`.
    fn lower_goto(&mut self, label: &str, span: Span)
        requires
            old(self).wf(),
        ensures
            final(self).wf(),
            final(self).scopes@ == old(self).scopes@,
            final(self).st() == lower_goto_s(old(self).st(), label@, span),
    {
        proof {
            reveal(lower_goto_s);
        }
        let found = match self.label_blocks.get(label) { Some(b) => Some(*b), None => None };
        match found {
            Some(bb) => {
                self.terminate(Term::Br(bb));
            },
            None => {
                self.err(ECode::UndefinedSymbol, span, label);
                self.terminate(Term::Ret(None));
            },
        };
        self.fresh_cur();
    }

    /// One statement.
    fn lower_stmt(&mut self, s: &Stmt)
        requires
            old(self).wf(),
        ensures
            final(self).wf(),
            final(self).scopes@ == old(self).scopes@,
            final(self).st() == lower_stmt_s(old(self).st(), *s),
        decreases s, 9nat,
    {
        match s {
            Stmt::Expr { expr, .. } => {
                self.lower_expr(expr);
            },
            Stmt::Empty { .. } => {},
            Stmt::Block { stmts, .. } => {
                self.open_block();
                self.lower_stmts(stmts, stmts.len());
                self.close_scope();
            },
            Stmt::Decl { decls, .. } => {
                self.lower_decls(decls, decls.len());
            },
            Stmt::If { .. } => {
                self.lower_if(s);
            },
            Stmt::While { .. } => {
                self.lower_while(s);
            },
            Stmt::DoWhile { .. } => {
                self.lower_do_while(s);
            },
            Stmt::For { .. } => {
                self.lower_for(s);
            },
            Stmt::Switch { .. } => {
                self.lower_switch(s);
            },
            Stmt::Case { stmt, .. } => {
                self.lower_stmt(&**stmt);
            },
            Stmt::Default { stmt, .. } => {
                self.lower_stmt(&**stmt);
            },
            Stmt::Break { span } => {
                self.lower_break(*span);
            },
            Stmt::Continue { span } => {
                self.lower_continue(*span);
            },
            Stmt::Return { expr, span } => {
                self.lower_return(expr, *span);
            },
            Stmt::Label { name, stmt, .. } => {
                self.lower_label(name.as_str());
                self.lower_stmt(&**stmt);
            },
            Stmt::Goto { label, span } => {
                self.lower_goto(label.as_str(), *span);
            },
        }
    }

    /// The fields of a struct or union, the first `n`.
    fn resolve_fields(&mut self, fs: &Vec<FieldDecl>, n: usize) -> (r: Vec<Field>)
        requires
            old(self).wf(),
            n <= fs@.len(),
        ensures
            final(self).wf(),
            final(self).scopes@ == old(self).scopes@,
            final(self).st() == resolve_fields_s(old(self).st(), fs@, n as nat).0,
            fields_view(r@) == resolve_fields_s(old(self).st(), fs@, n as nat).1,
        decreases n,
    {
        if n == 0 {
            let v: Vec<Field> = Vec::new();
            assert(fields_view(v@) =~= Seq::empty());
            return v;
        }
        let mut v = self.resolve_fields(fs, n - 1);
        let ghost v0 = fields_view(v@);
        let ty = self.resolve_type(&fs[n - 1].ty);
        let f = Field {
            name: fs[n - 1].name.clone(),
            ty,
            is_const: top_level_const(&fs[n - 1].ty),
        };
        v.push(f);
        assert(fields_view(v@) =~= v0.push(f@));
        v
    }

    /// The first `n` constants of an enumeration; the value after the last is the result.
    fn lower_variants(&mut self, vs: &Vec<EnumVariant>, n: usize, ty: &Ty) -> (r: i64)
        requires
            old(self).wf(),
            old(self).scopes@.len() > 0,
            n <= vs@.len(),
        ensures
            final(self).wf(),
            final(self).scopes@.len() == old(self).scopes@.len(),
            final(self).st() == lower_variants_s(old(self).st(), vs@, n as nat, ty@).0,
            r == lower_variants_s(old(self).st(), vs@, n as nat, ty@).1,
        decreases n,
    {
        if n == 0 { return 0; }
        let next = self.lower_variants(vs, n - 1, ty);
        let v = &vs[n - 1];
        let value = match &v.init {
            None => next,
            Some(init) => match const_eval_i64(&self.enum_values, init) {
                Some(k) => k,
                None => {
                    self.diag_unsupported(
                        v.span,
                        "non-constant enumerator initializer",
                        "falling back to auto-increment from the previous value",
                    );
                    next
                },
            },
        };
        self.enum_values.insert(v.name.as_str(), value);
        self.scopes.declare_value(v.name.as_str(), ValueSym::EnumConst(ty.copy()));
        value.wrapping_add(1)
    }

    /// An enumeration.
    fn lower_enum_decl(&mut self, d: &EnumDecl)
        requires
            old(self).wf(),
            old(self).scopes@.len() > 0,
        ensures
            final(self).wf(),
            final(self).scopes@.len() == old(self).scopes@.len(),
            final(self).st() == lower_enum_decl_s(old(self).st(), *d),
    {
        proof {
            reveal(lower_enum_decl_s);
        }
        let enum_ty = match &d.name {
            Some(name) => {
                self.scopes.declare_enum(name.as_str());
                Ty::Enum(name.clone())
            },
            None => {
                Ty::Scalar(ScalarKind::Int)
            },
        };
        self.lower_variants(&d.variants, d.variants.len(), &enum_ty);
    }

    /// A global variable, which has no storage.
    fn lower_global_var(&mut self, v: &VarDecl)
        requires
            old(self).wf(),
            old(self).scopes@.len() > 0,
        ensures
            final(self).wf(),
            final(self).scopes@.len() == old(self).scopes@.len(),
            final(self).st() == lower_global_var_s(old(self).st(), *v),
    {
        proof {
            reveal(lower_global_var_s);
        }
        let ty = self.resolve_type(&v.ty);
        self.scopes.declare_value(v.name.as_str(), ValueSym::Var(ty, false));
        self.unlowered_globals.insert(v.name.as_str(), EnumTag);
        self.diag_unsupported(
            v.span,
            "global variable storage",
            "BIR has no module-level data segment yet",
        );
    }

    /// The types of the first `n` parameters.
    fn resolve_params(&mut self, ps: &Vec<ParamDecl>, n: usize) -> (r: Vec<Ty>)
        requires
            old(self).wf(),
            n <= ps@.len(),
        ensures
            final(self).wf(),
            final(self).scopes@ == old(self).scopes@,
            final(self).st() == resolve_params_s(old(self).st(), ps@, n as nat).0,
            tys_view(r@) == resolve_params_s(old(self).st(), ps@, n as nat).1,
        decreases n,
    {
        if n == 0 {
            let v: Vec<Ty> = Vec::new();
            assert(tys_view(v@) =~= Seq::empty());
            return v;
        }
        let mut v = self.resolve_params(ps, n - 1);
        let ghost v0 = v@;
        let ty = self.resolve_type(&ps[n - 1].ty);
        v.push(ty);
        proof {
            lemma_tys_take(v0, v0.len());
            lemma_tys_take(v@, v@.len());
            assert(tys_view(v@) =~= tys_view(v0).push(ty@));
        }
        v
    }

    /// One block for each of the first `n` labels.
    fn alloc_labels(&mut self, n: usize, names: &Vec<String>)
        requires
            old(self).wf(),
            n <= names@.len(),
        ensures
            final(self).wf(),
            final(self).scopes@ == old(self).scopes@,
            final(self).st() == alloc_labels_s(old(self).st(), n as nat, names_view(names@)),
        decreases n,
    {
        if n > 0 {
            self.alloc_labels(n - 1, names);
            let b = self.alloc_block();
            assert(names_view(names@)[n - 1] == names@[n - 1]@);
            self.label_blocks.insert(names[n - 1].as_str(), b);
        }
    }

    /// Gives each of the first `n` parameters that has a name a cell, and stores it there.
    fn lower_params(&mut self, ps: &Vec<ParamDecl>, tys: &Vec<Ty>, n: usize)
        requires
            old(self).wf(),
            n <= ps@.len(),
        ensures
            final(self).wf(),
            final(self).scopes@ == old(self).scopes@,
            final(self).st() == lower_params_s(old(self).st(), ps@, tys_view(tys@), n as nat),
        decreases n,
    {
        if n > 0 {
            self.lower_params(ps, tys, n - 1);
            proof { lemma_tys_take(tys@, tys@.len()); }
            if n <= tys.len() {
                if let Some(name) = &ps[n - 1].name {
                    let pty = &tys[n - 1];
                    let slot = self.new_slot(pty.copy(), AddrSpace::Param);
                    self.bind_local(name.as_str(), slot.copy());
                    if !is_aggregate(pty) && !pty.is_unknown() {
                        let lv = self.slot_lvalue(&slot);
                        self.store_addr(&lv, ValRef::Param(usize_to_u32(n - 1)));
                    }
                }
            }
        }
    }

    /// Ends a body that runs off its end: a zero is returned.
    fn close_fallthrough(&mut self)
        requires
            old(self).wf(),
        ensures
            final(self).wf(),
            final(self).scopes@ == old(self).scopes@,
            final(self).st() == close_fallthrough_s(old(self).st()),
    {
        proof {
            reveal(close_fallthrough_s);
        }
        let fr = self.fn_ret.copy();
        if fr.is_void() {
            self.terminate(Term::Ret(None));
        } else if is_aggregate(&fr) {
            let d = Diag::new(ECode::LoweringUnsupported).with_arg("whole-aggregate value").with_arg("function falls through its end without a return; cannot synthesize a struct/union/array return value");
            assert(d@.args =~= seq![
                "whole-aggregate value"@,
                "function falls through its end without a return; cannot synthesize a struct/union/array return value"@,
            ]);
            push_diag(&mut self.diags, d);
            self.terminate(Term::Ret(None));
        } else {
            let z = self.zero_of(&fr);
            self.terminate(Term::Ret(Some(z)));
        }
    }

    /// A function with a body.
    #[verifier::rlimit(30)]
    fn lower_function_body(
        &mut self,
        f: &FunctionDecl,
        ret: Ty,
        param_tys: &Vec<Ty>,
        body: &Vec<Stmt>,
    )
        requires
            old(self).wf(),
        ensures
            final(self).wf(),
            final(self).scopes@ == old(self).scopes@,
            final(self).st() == lower_function_body_s(
                old(self).st(),
                *f,
                ret@,
                tys_view(param_tys@),
                body@,
            ),
    {
        proof {
            reveal(lower_function_body_s);
        }
        let names = body_labels(body);
        let ret_bty = to_bir_ty(&ret);
        self.b = Builder::new();
        self.locals = Vec::new();
        assert(self.st().locals =~= Seq::empty());
        self.next_slot = 0;
        self.ctrl_stack = Vec::new();
        self.label_blocks = Assoc::new();
        self.fn_ret = ret;
        self.open_block();
        let entry = self.alloc_block();
        self.set_cur(entry);
        self.alloc_labels(names.len(), &names);
        self.lower_params(&f.params, param_tys, f.params.len());
        self.lower_stmts(body, body.len());
        self.close_fallthrough();
        let ghost b0 = self.st().b;
        let mut done = Builder::new();
        core::mem::swap(&mut self.b, &mut done);
        let (blocks, insts) = done.finish();
        let func = Function {
            name: f.name.clone(),
            is_kernel: f.cuda_quals.is_global,
            params: to_bir_tys(param_tys),
            ret: ret_bty,
            blocks,
            insts,
        };
        let ghost before = funcs_view(self.funcs@);
        self.funcs.push(func);
        assert(funcs_view(self.funcs@) =~= before.push(func@));
        proof { lemma_all_in_print_order(before, func@); }
    }

    /// A function. Its own name is known inside its body.
    fn lower_function_item(&mut self, f: &FunctionDecl)
        requires
            old(self).wf(),
            old(self).scopes@.len() > 0,
        ensures
            final(self).wf(),
            final(self).scopes@.len() == old(self).scopes@.len(),
            final(self).st() == lower_function_item_s(old(self).st(), *f),
    {
        proof {
            reveal(lower_function_item_s);
        }
        let ret = self.resolve_type(&f.ret);
        let param_tys = self.resolve_params(&f.params, f.params.len());
        self.scopes.declare_value(
            f.name.as_str(),
            ValueSym::Func(FuncSig {
                ret: ret.copy(),
                params: Ty::copy_all(&param_tys, param_tys.len()),
                variadic: f.variadic,
                is_kernel: f.cuda_quals.is_global,
            }),
        );
        match &f.body {
            Some(body) => {
                self.lower_function_body(f, ret, &param_tys, body);
            },
            None => {},
        }
    }

    /// The first `n` items of a list.
    fn lower_items(&mut self, items: &Vec<Item>, n: usize)
        requires
            old(self).wf(),
            old(self).scopes@.len() > 0,
            n <= items@.len(),
        ensures
            final(self).wf(),
            final(self).scopes@.len() == old(self).scopes@.len(),
            final(self).st() == lower_items_s(old(self).st(), items@, n as nat),
        decreases items, n,
    {
        if n > 0 {
            self.lower_items(items, n - 1);
            self.lower_item(&items[n - 1]);
        }
    }

    /// One item.
    fn lower_item(&mut self, item: &Item)
        requires
            old(self).wf(),
            old(self).scopes@.len() > 0,
        ensures
            final(self).wf(),
            final(self).scopes@.len() == old(self).scopes@.len(),
            final(self).st() == lower_item_s(old(self).st(), *item),
        decreases item, 9nat,
    {
        match item {
            Item::Struct(d) => {
                let fields = self.resolve_fields(&d.fields, d.fields.len());
                match &d.name {
                    Some(name) => {
                        self.scopes.declare_struct(name.as_str(), StructInfo { fields });
                        self.tags = self.tags.saturating_add(1);
                    },
                    None => {},
                }
            },
            Item::Union(d) => {
                let fields = self.resolve_fields(&d.fields, d.fields.len());
                match &d.name {
                    Some(name) => {
                        self.scopes.declare_union(name.as_str(), StructInfo { fields });
                        self.tags = self.tags.saturating_add(1);
                    },
                    None => {},
                }
            },
            Item::Enum(d) => {
                self.lower_enum_decl(d);
            },
            Item::Typedef(d) => {
                let ty = self.resolve_type(&d.ty);
                self.scopes.declare_typedef(d.alias.as_str(), ty);
            },
            Item::Namespace(ns) => {
                self.scopes.push();
                self.lower_items(&ns.items, ns.items.len());
                self.scopes.pop();
            },
            Item::Function(f) => {
                self.lower_function_item(f);
            },
            Item::Var(v) => {
                self.lower_global_var(v);
            },
            Item::Template(_) => {},
        }
    }

}

/// Lowers a checked translation unit.
pub fn lower(tu: &TranslationUnit) -> (r: (Module, Vec<Diag>))
    ensures
        r.0@ == lowered(*tu).0,
        diags_view(r.1@) == lowered(*tu).1,
        all_in_print_order(r.0@.funcs),
{
    let mut scopes = ScopeStack::new();
    scopes.push();
    scopes.declare_struct("__basalt_cuda_dim3", dim3_info());
    let mut enum_values: Assoc<i64> = Assoc::new();
    enum_values.insert("cudaMemcpyHostToHost", 0);
    enum_values.insert("cudaMemcpyHostToDevice", 1);
    enum_values.insert("cudaMemcpyDeviceToHost", 2);
    enum_values.insert("cudaMemcpyDeviceToDevice", 3);
    enum_values.insert("cudaMemcpyDefault", 4);
    let mut lw = Lowerer {
        scopes,
        diags: Vec::new(),
        funcs: Vec::new(),
        unlowered_globals: Assoc::new(),
        enum_values,
        tags: 1,
        b: Builder::new(),
        locals: Vec::new(),
        next_slot: 0,
        ctrl_stack: Vec::new(),
        label_blocks: Assoc::new(),
        fn_ret: Ty::Scalar(ScalarKind::Void),
    };
    proof {
        assert(lw.st().diags =~= Seq::empty());
        assert(lw.st().funcs =~= Seq::empty());
        assert(lw.st().locals =~= Seq::empty());
        assert(lw.st() == start_state());
        lemma_none_in_print_order();
    }
    lw.lower_items(&tu.items, tu.items.len());
    let module = Module {
        funcs: lw.funcs,
        launch_bounds: None,
        shared_mem_bytes: 0,
        target_dtypes: Vec::new(),
    };
    assert(module@.target_dtypes =~= Seq::empty());
    (module, lw.diags)
}

} // verus!
