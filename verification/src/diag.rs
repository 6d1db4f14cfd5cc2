//! Source positions and diagnostics.

use vstd::prelude::*;

verus! {

#[derive(Clone, Copy, Debug, PartialEq, Eq, Structural)]
pub struct Loc {
    pub line: u32,
    pub col: u32,
}

#[derive(Clone, Copy, Debug, PartialEq, Eq, Structural)]
pub struct Span {
    pub start: Loc,
    pub end: Loc,
}

/// What a diagnostic is about.
#[derive(Clone, Copy, Debug, PartialEq, Eq, Structural)]
pub enum ECode {
    /// E090: a backend has no lowering for an operation.
    UnsupportedOp,
    /// E091: a backend has no lowering for a type.
    UnsupportedType,
    /// E093: a backend has no lowering for a feature.
    UnsupportedFeature,
    /// E099: a backend has no matrix unit.
    MatrixPathUnsupported,
    /// E300
    TypeError,
    /// E301
    UndefinedSymbol,
    /// E302
    Redefinition,
    /// E303
    InvalidCudaQualifier,
    /// E304: the lowering to BIR met a construct that it does not lower.
    LoweringUnsupported,
    /// Two tiles whose shapes do not broadcast.
    TileShapeMismatch,
    /// A tile construct that shape inference does not model.
    TileConstructUnsupported,
    /// A tile dimension that is no constant expression.
    TileDimUnresolved,
    /// E308
    ConstViolation,
}

/// A code, where it arose, and what its message is filled in with.
#[derive(Debug)]
pub struct Diag {
    pub code: ECode,
    pub span: Option<Span>,
    pub args: Vec<String>,
}

/// The model of a diagnostic.
pub struct DiagV {
    pub code: ECode,
    pub span: Option<Span>,
    pub args: Seq<Seq<char>>,
}

pub open spec fn names_view(v: Seq<String>) -> Seq<Seq<char>> {
    v.map_values(|s: String| s@)
}

impl View for Diag {
    type V = DiagV;

    open spec fn view(&self) -> DiagV {
        DiagV { code: self.code, span: self.span, args: names_view(self.args@) }
    }
}

/// The models of a list of diagnostics.
pub open spec fn diags_view(v: Seq<Diag>) -> Seq<DiagV> {
    v.map_values(|d: Diag| d@)
}

pub open spec fn diag0(code: ECode) -> DiagV {
    DiagV { code, span: None, args: Seq::empty() }
}

pub open spec fn diag1(code: ECode, span: Span, a: Seq<char>) -> DiagV {
    DiagV { code, span: Some(span), args: seq![a] }
}

pub open spec fn diag2(code: ECode, span: Span, a: Seq<char>, b: Seq<char>) -> DiagV {
    DiagV { code, span: Some(span), args: seq![a, b] }
}

impl Diag {
    /// A diagnostic without a span or arguments.
    pub fn new(code: ECode) -> (d: Diag)
        ensures
            d@ == diag0(code),
    {
        let d = Diag { code, span: None, args: Vec::new() };
        assert(d@.args =~= Seq::empty());
        d
    }

    pub fn with_span(self, span: Span) -> (d: Diag)
        ensures
            d@ == (DiagV { span: Some(span), ..self@ }),
    {
        Diag { code: self.code, span: Some(span), args: self.args }
    }

    /// Appends an argument.
    pub fn with_arg(self, arg: &str) -> (d: Diag)
        ensures
            d@ == (DiagV { args: self@.args.push(arg@), ..self@ }),
    {
        let mut args = self.args;
        args.push(arg.to_owned());
        let d = Diag { code: self.code, span: self.span, args };
        assert(d@.args =~= self@.args.push(arg@));
        d
    }
}

/// Appends a diagnostic to a list.
pub fn push_diag(diags: &mut Vec<Diag>, d: Diag)
    ensures
        diags_view(final(diags)@) == diags_view(old(diags)@).push(d@),
{
    diags.push(d);
    assert(diags_view(diags@) =~= diags_view(old(diags)@).push(d@));
}

} // verus!
