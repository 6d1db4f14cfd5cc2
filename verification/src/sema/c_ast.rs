//! The syntax of CUDA C.

use vstd::prelude::*;

use crate::bir::FloatConst;
use crate::diag::Span;
use crate::numeral::IntBase;

verus! {

#[derive(Clone, Copy, Debug, PartialEq, Eq, Structural)]
pub enum ScalarKind {
    Void,
    Bool,
    Char,
    SChar,
    UChar,
    Short,
    UShort,
    Int,
    UInt,
    WcharT,
    Long,
    ULong,
    LongLong,
    ULongLong,
    Float,
    Double,
    LongDouble,
}

#[derive(Clone, Copy, Debug, PartialEq, Eq, Structural)]
pub enum TagKind {
    Struct,
    Union,
    Enum,
}

#[derive(Clone, Copy, Debug, PartialEq, Eq, Structural)]
pub enum UnaryOp {
    Plus,
    Neg,
    Not,
    BitNot,
    Deref,
    Addr,
}

#[derive(Clone, Copy, Debug, PartialEq, Eq, Structural)]
pub enum BinOp {
    LogOr,
    LogAnd,
    BitOr,
    BitXor,
    BitAnd,
    Eq,
    Ne,
    Lt,
    Gt,
    Le,
    Ge,
    Shl,
    Shr,
    Add,
    Sub,
    Mul,
    Div,
    Rem,
}

#[derive(Clone, Copy, Debug, PartialEq, Eq, Structural)]
pub enum AssignOp {
    Assign,
    AddAssign,
    SubAssign,
    MulAssign,
    DivAssign,
    RemAssign,
    AndAssign,
    OrAssign,
    XorAssign,
    ShlAssign,
    ShrAssign,
}

#[derive(Clone, Copy, Debug, PartialEq, Eq, Structural)]
pub enum IncDecOp {
    Inc,
    Dec,
}

/// An integer literal: its text as written, the base of its digits, and what its suffix says.
#[derive(Debug)]
pub struct IntLit {
    pub text: String,
    pub base: IntBase,
    pub unsigned: bool,
    pub long_len: u8,
}

#[derive(Clone, Copy, Debug, PartialEq, Eq, Structural)]
pub enum FloatSuffix {
    Absent,
    F,
    L,
}

/// A floating-point literal: the number that it stands for and its suffix.
#[derive(Clone, Copy, Debug, PartialEq, Eq, Structural)]
pub struct FloatLit {
    pub value: FloatConst,
    pub suffix: FloatSuffix,
}

#[derive(Debug)]
#[allow(inconsistent_fields)]
pub enum Type {
    Scalar { kind: ScalarKind, is_const: bool, span: Span },
    /// `struct S`, `union U` or `enum E`; the name is empty where the tag has none.
    Tag { kind: TagKind, name: String, is_const: bool, span: Span },
    /// A bare name.
    Named { name: String, is_const: bool, span: Span },
    Pointer { pointee: Box<Type>, is_const: bool, span: Span },
    Array { elem: Box<Type>, size: Option<Box<Expr>>, span: Span },
    /// `Name<Args>`.
    Instantiated { is_const: bool, span: Span },
}

#[derive(Debug)]
#[allow(inconsistent_fields)]
pub enum Expr {
    IntLit { value: IntLit, span: Span },
    FloatLit { value: FloatLit, span: Span },
    CharLit { value: u32, span: Span },
    StrLit { span: Span },
    Ident { name: String, span: Span },
    Comma { exprs: Vec<Expr>, span: Span },
    Assign { op: AssignOp, lhs: Box<Expr>, rhs: Box<Expr>, span: Span },
    Ternary { cond: Box<Expr>, then_branch: Box<Expr>, else_branch: Box<Expr>, span: Span },
    Binary { op: BinOp, lhs: Box<Expr>, rhs: Box<Expr>, span: Span },
    Cast { ty: Type, expr: Box<Expr>, span: Span },
    Unary { op: UnaryOp, expr: Box<Expr>, span: Span },
    PreIncDec { op: IncDecOp, expr: Box<Expr>, span: Span },
    PostIncDec { op: IncDecOp, expr: Box<Expr>, span: Span },
    SizeofExpr { expr: Box<Expr>, span: Span },
    SizeofType { ty: Type, span: Span },
    Call { callee: Box<Expr>, args: Vec<Expr>, span: Span },
    /// `kernel<<<grid, block, shared, stream>>>(args)`.
    KernelLaunch {
        kernel: Box<Expr>,
        grid: Box<Expr>,
        block: Box<Expr>,
        shared: Option<Box<Expr>>,
        stream: Option<Box<Expr>>,
        args: Vec<Expr>,
        span: Span,
    },
    Index { base: Box<Expr>, index: Box<Expr>, span: Span },
    Member { base: Box<Expr>, name: String, arrow: bool, span: Span },
    /// What the parser could not read, and has reported.
    Error { span: Span },
}

pub open spec fn expr_span(e: Expr) -> Span {
    match e {
        Expr::IntLit { value, span } => span,
        Expr::FloatLit { value, span } => span,
        Expr::CharLit { value, span } => span,
        Expr::StrLit { span } => span,
        Expr::Ident { name, span } => span,
        Expr::Comma { exprs, span } => span,
        Expr::Assign { op, lhs, rhs, span } => span,
        Expr::Ternary { cond, then_branch, else_branch, span } => span,
        Expr::Binary { op, lhs, rhs, span } => span,
        Expr::Cast { ty, expr, span } => span,
        Expr::Unary { op, expr, span } => span,
        Expr::PreIncDec { op, expr, span } => span,
        Expr::PostIncDec { op, expr, span } => span,
        Expr::SizeofExpr { expr, span } => span,
        Expr::SizeofType { ty, span } => span,
        Expr::Call { callee, args, span } => span,
        Expr::KernelLaunch { kernel, grid, block, shared, stream, args, span } => span,
        Expr::Index { base, index, span } => span,
        Expr::Member { base, name, arrow, span } => span,
        Expr::Error { span } => span,
    }
}

impl Expr {
    pub fn span(&self) -> (s: Span)
        ensures
            s == expr_span(*self),
    {
        match self {
            Expr::IntLit { span, .. } => *span,
            Expr::FloatLit { span, .. } => *span,
            Expr::CharLit { span, .. } => *span,
            Expr::StrLit { span } => *span,
            Expr::Ident { span, .. } => *span,
            Expr::Comma { span, .. } => *span,
            Expr::Assign { span, .. } => *span,
            Expr::Ternary { span, .. } => *span,
            Expr::Binary { span, .. } => *span,
            Expr::Cast { span, .. } => *span,
            Expr::Unary { span, .. } => *span,
            Expr::PreIncDec { span, .. } => *span,
            Expr::PostIncDec { span, .. } => *span,
            Expr::SizeofExpr { span, .. } => *span,
            Expr::SizeofType { span, .. } => *span,
            Expr::Call { span, .. } => *span,
            Expr::KernelLaunch { span, .. } => *span,
            Expr::Index { span, .. } => *span,
            Expr::Member { span, .. } => *span,
            Expr::Error { span } => *span,
        }
    }
}

#[derive(Clone, Copy, Debug, PartialEq, Eq, Structural)]
pub struct CudaQualifiers {
    pub is_global: bool,
    pub is_device: bool,
    pub is_host: bool,
    pub is_shared: bool,
    pub is_constant: bool,
}

#[derive(Debug)]
pub struct VarDecl {
    pub name: String,
    pub ty: Type,
    pub init: Option<Expr>,
    pub cuda_quals: CudaQualifiers,
    pub span: Span,
}

#[derive(Debug)]
#[allow(inconsistent_fields)]
pub enum Stmt {
    Expr { expr: Expr, span: Span },
    Empty { span: Span },
    Block { stmts: Vec<Stmt>, span: Span },
    Decl { decls: Vec<VarDecl>, span: Span },
    If { cond: Expr, then_branch: Box<Stmt>, else_branch: Option<Box<Stmt>>, span: Span },
    While { cond: Expr, body: Box<Stmt>, span: Span },
    DoWhile { body: Box<Stmt>, cond: Expr, span: Span },
    For {
        init: Option<Box<Stmt>>,
        cond: Option<Expr>,
        step: Option<Expr>,
        body: Box<Stmt>,
        span: Span,
    },
    Switch { expr: Expr, body: Box<Stmt>, span: Span },
    Case { value: Expr, stmt: Box<Stmt>, span: Span },
    Default { stmt: Box<Stmt>, span: Span },
    Break { span: Span },
    Continue { span: Span },
    Return { expr: Option<Expr>, span: Span },
    Label { name: String, stmt: Box<Stmt>, span: Span },
    Goto { label: String, span: Span },
}

#[derive(Debug)]
pub struct FieldDecl {
    pub name: String,
    pub ty: Type,
    pub span: Span,
}

#[derive(Debug)]
pub struct StructDecl {
    pub name: Option<String>,
    pub fields: Vec<FieldDecl>,
    pub span: Span,
}

#[derive(Debug)]
pub struct UnionDecl {
    pub name: Option<String>,
    pub fields: Vec<FieldDecl>,
    pub span: Span,
}

#[derive(Debug)]
pub struct EnumVariant {
    pub name: String,
    pub init: Option<Expr>,
    pub span: Span,
}

#[derive(Debug)]
pub struct EnumDecl {
    pub name: Option<String>,
    pub variants: Vec<EnumVariant>,
    pub span: Span,
}

#[derive(Debug)]
pub struct TypedefDecl {
    pub alias: String,
    pub ty: Type,
    pub span: Span,
}

#[derive(Debug)]
pub struct ParamDecl {
    pub name: Option<String>,
    pub ty: Type,
    pub span: Span,
}

#[derive(Debug)]
pub struct FunctionDecl {
    pub name: String,
    pub ret: Type,
    pub params: Vec<ParamDecl>,
    pub variadic: bool,
    pub body: Option<Vec<Stmt>>,
    pub cuda_quals: CudaQualifiers,
    pub span: Span,
}

#[derive(Debug)]
pub struct NamespaceDecl {
    pub items: Vec<Item>,
    pub span: Span,
}

#[derive(Debug)]
pub enum Item {
    Struct(StructDecl),
    Union(UnionDecl),
    Enum(EnumDecl),
    Typedef(TypedefDecl),
    Namespace(NamespaceDecl),
    Function(FunctionDecl),
    Var(VarDecl),
    /// A template, which is not looked into.
    Template(Span),
}

#[derive(Debug)]
pub struct TranslationUnit {
    pub items: Vec<Item>,
}

} // verus!
