//! The syntax of Triton kernels.

use vstd::prelude::*;

use crate::bir::FloatConst;
use crate::diag::Span;

verus! {

#[derive(Clone, Copy, Debug, PartialEq, Eq, Structural)]
pub enum BinOp {
    Add,
    Sub,
    Mul,
    Div,
    FloorDiv,
    Mod,
    Pow,
    MatMul,
    BitAnd,
    BitOr,
    BitXor,
    LShift,
    RShift,
}

#[derive(Clone, Copy, Debug, PartialEq, Eq, Structural)]
pub enum CmpOp {
    Eq,
    NotEq,
    Lt,
    LtE,
    Gt,
    GtE,
    Is,
    IsNot,
    In,
    NotIn,
}

#[derive(Clone, Copy, Debug, PartialEq, Eq, Structural)]
pub enum UnaryOp {
    Not,
    Invert,
    UAdd,
    USub,
}

#[derive(Clone, Copy, Debug, PartialEq, Eq, Structural)]
pub enum BoolOp {
    And,
    Or,
}

#[derive(Debug)]
pub struct Keyword {
    pub name: Option<String>,
    pub value: Expr,
}

#[derive(Debug)]
#[allow(inconsistent_fields)]
pub enum Expr {
    Name { name: String, span: Span },
    /// The text of the literal, as written.
    IntLit { text: String, span: Span },
    /// The number that the literal stands for; none if its text is no number.
    FloatLit { value: Option<FloatConst>, span: Span },
    BoolLit { value: bool, span: Span },
    NoneLit { span: Span },
    StrLit { span: Span },
    BoolOp { op: BoolOp, values: Vec<Expr>, span: Span },
    UnaryOp { op: UnaryOp, operand: Box<Expr>, span: Span },
    BinOp { op: BinOp, lhs: Box<Expr>, rhs: Box<Expr>, span: Span },
    /// A chain of comparisons: one operator before each comparator.
    Compare { left: Box<Expr>, ops: Vec<CmpOp>, comparators: Vec<Expr>, span: Span },
    Ternary { test: Box<Expr>, body: Box<Expr>, orelse: Box<Expr>, span: Span },
    Call { func: Box<Expr>, args: Vec<Expr>, keywords: Vec<Keyword>, span: Span },
    Attribute { value: Box<Expr>, attr: String, span: Span },
    Subscript { value: Box<Expr>, index: Box<Expr>, span: Span },
    Slice {
        lower: Option<Box<Expr>>,
        upper: Option<Box<Expr>>,
        step: Option<Box<Expr>>,
        span: Span,
    },
    Tuple { elts: Vec<Expr>, span: Span },
    List { elts: Vec<Expr>, span: Span },
    /// What the parser could not read, and has reported.
    Error { span: Span },
}

pub open spec fn expr_span(e: Expr) -> Span {
    match e {
        Expr::Name { name, span } => span,
        Expr::IntLit { text, span } => span,
        Expr::FloatLit { value, span } => span,
        Expr::BoolLit { value, span } => span,
        Expr::NoneLit { span } => span,
        Expr::StrLit { span } => span,
        Expr::BoolOp { op, values, span } => span,
        Expr::UnaryOp { op, operand, span } => span,
        Expr::BinOp { op, lhs, rhs, span } => span,
        Expr::Compare { left, ops, comparators, span } => span,
        Expr::Ternary { test, body, orelse, span } => span,
        Expr::Call { func, args, keywords, span } => span,
        Expr::Attribute { value, attr, span } => span,
        Expr::Subscript { value, index, span } => span,
        Expr::Slice { lower, upper, step, span } => span,
        Expr::Tuple { elts, span } => span,
        Expr::List { elts, span } => span,
        Expr::Error { span } => span,
    }
}

impl Expr {
    pub fn span(&self) -> (s: Span)
        ensures
            s == expr_span(*self),
    {
        match self {
            Expr::Name { span, .. } => *span,
            Expr::IntLit { span, .. } => *span,
            Expr::FloatLit { span, .. } => *span,
            Expr::BoolLit { span, .. } => *span,
            Expr::NoneLit { span } => *span,
            Expr::StrLit { span } => *span,
            Expr::BoolOp { span, .. } => *span,
            Expr::UnaryOp { span, .. } => *span,
            Expr::BinOp { span, .. } => *span,
            Expr::Compare { span, .. } => *span,
            Expr::Ternary { span, .. } => *span,
            Expr::Call { span, .. } => *span,
            Expr::Attribute { span, .. } => *span,
            Expr::Subscript { span, .. } => *span,
            Expr::Slice { span, .. } => *span,
            Expr::Tuple { span, .. } => *span,
            Expr::List { span, .. } => *span,
            Expr::Error { span } => *span,
        }
    }
}

#[derive(Debug)]
#[allow(inconsistent_fields)]
pub enum Stmt {
    Expr { value: Expr, span: Span },
    Assign { targets: Vec<Expr>, value: Expr, span: Span },
    AugAssign { target: Expr, op: BinOp, value: Expr, span: Span },
    /// `target: annotation = value`; of the annotation only whether it is `constexpr`.
    AnnAssign { target: Expr, is_constexpr: bool, value: Option<Expr>, span: Span },
    If { test: Expr, body: Vec<Stmt>, orelse: Vec<Stmt>, span: Span },
    For { target: Expr, iter: Expr, body: Vec<Stmt>, orelse: Vec<Stmt>, span: Span },
    While { test: Expr, body: Vec<Stmt>, orelse: Vec<Stmt>, span: Span },
    Return { value: Option<Expr>, span: Span },
    Assert { test: Expr, msg: Option<Expr>, span: Span },
    Pass { span: Span },
    Break { span: Span },
    Continue { span: Span },
    /// What the parser could not read, and has reported.
    Error { span: Span },
}

#[derive(Debug)]
pub struct Param {
    pub name: String,
    pub is_constexpr: bool,
    pub default: Option<Expr>,
}

#[derive(Debug)]
pub struct KernelFn {
    pub name: String,
    pub params: Vec<Param>,
    pub body: Vec<Stmt>,
}

#[derive(Debug)]
pub struct Module {
    pub kernels: Vec<KernelFn>,
}

/// The last component of a dotted name: `load` of `tl.load`.
pub open spec fn attr_of(func: Expr) -> Option<Seq<char>> {
    match func {
        Expr::Attribute { value, attr, span } => Some(attr@),
        _ => None,
    }
}

pub fn attr_name(func: &Expr) -> (r: Option<&str>)
    ensures
        match r {
            Some(s) => attr_of(*func) == Some(s@),
            None => attr_of(*func) is None,
        },
{
    match func {
        Expr::Attribute { attr, .. } => Some(attr.as_str()),
        _ => None,
    }
}

/// Whether a callee is the attribute `name` of something.
pub fn attr_is(func: &Expr, name: &str) -> (r: bool)
    ensures
        r == (attr_of(*func) == Some(name@)),
{
    match attr_name(func) {
        Some(s) => crate::text::same(s, name),
        None => false,
    }
}

pub open spec fn spec_is_keyword(kw: Keyword, name: Seq<char>) -> bool {
    match kw.name {
        Some(n) => n@ == name,
        None => false,
    }
}

/// Whether a keyword argument has the given name.
pub fn is_keyword(kw: &Keyword, name: &str) -> (r: bool)
    ensures
        r == spec_is_keyword(*kw, name@),
{
    match &kw.name {
        Some(n) => crate::text::same(n.as_str(), name),
        None => false,
    }
}

pub open spec fn spec_is_name(e: Expr, name: Seq<char>) -> bool {
    match e {
        Expr::Name { name: n, span } => n@ == name,
        _ => false,
    }
}

/// Whether an expression is the bare name given.
pub fn is_name(e: &Expr, name: &str) -> (r: bool)
    ensures
        r == spec_is_name(*e, name@),
{
    match e {
        Expr::Name { name: n, .. } => crate::text::same(n.as_str(), name),
        _ => false,
    }
}

} // verus!
