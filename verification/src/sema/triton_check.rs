//! Tile-shape inference for Triton kernels.
//!
//! Every expression of a kernel gets a shape. A construct that is not modelled has the unknown
//! shape, which fits every other, so that one problem is reported once. Nothing stops at the
//! first problem.
//!
//! The builtins are told by the last component of the callee, whatever stands before it:
//! `program_id`, `arange`, `load`, `store`, `zeros`. The result of `dot`, and of every other
//! call, is unknown.

use vstd::prelude::*;
use vstd::string::*;

use crate::assoc::Assoc;
use crate::diag::{diag1, diag2, diags_view, push_diag, Diag, DiagV, ECode, Span};
use crate::numeral::{parse_int_text, python_int};
use crate::sema::triton_ast::{
    attr_is, attr_of, expr_span, is_keyword, is_name, spec_is_keyword, spec_is_name, BinOp, Expr,
    KernelFn, Keyword, Module, Param, Stmt, UnaryOp,
};
use crate::sema::triton_ty::{
    broadcast, dim_text, dims_view, joined, rank_of, reshape, reshaped, shape_of_dims, tile_text,
    Dim, DimV, Elem, ReshapeStep, TileTy, TileTyV,
};
use crate::text::{decimal, to_decimal};

verus! {

// ---- shapes by span ------------------------------------------------------------------------

pub open spec fn span_map(entries: Seq<(Span, TileTy)>) -> Map<Span, TileTyV>
    decreases entries.len(),
{
    if entries.len() == 0 {
        Map::empty()
    } else {
        span_map(entries.drop_last()).insert(entries.last().0, entries.last().1@)
    }
}

/// The shape of each expression, by its span.
#[derive(Debug)]
pub struct SpanMap {
    entries: Vec<(Span, TileTy)>,
}

impl View for SpanMap {
    type V = Map<Span, TileTyV>;

    closed spec fn view(&self) -> Map<Span, TileTyV> {
        span_map(self.entries@)
    }
}

impl SpanMap {
    pub fn new() -> (r: SpanMap)
        ensures
            r@ == Map::<Span, TileTyV>::empty(),
    {
        SpanMap { entries: Vec::new() }
    }

    pub fn insert(&mut self, span: Span, ty: TileTy)
        ensures
            final(self)@ == old(self)@.insert(span, ty@),
    {
        self.entries.push((span, ty));
        assert(self.entries@.drop_last() =~= old(self).entries@);
    }

    pub fn get(&self, span: &Span) -> (r: Option<&TileTy>)
        ensures
            match r {
                Some(t) => self@.contains_key(*span) && t@ == self@[*span],
                None => !self@.contains_key(*span),
            },
    {
        let mut i: usize = self.entries.len();
        assert(self.entries@.take(i as int) =~= self.entries@);
        while i > 0
            invariant
                i <= self.entries@.len(),
                self@.contains_key(*span) <==> span_map(self.entries@.take(i as int)).contains_key(
                    *span,
                ),
                self@.contains_key(*span) ==> self@[*span] == span_map(
                    self.entries@.take(i as int),
                )[*span],
            decreases i,
        {
            i = i - 1;
            let ghost head = self.entries@.take(i as int + 1);
            assert(head.drop_last() =~= self.entries@.take(i as int));
            assert(head.last() == self.entries@[i as int]);
            let e = &self.entries[i];
            if e.0 == *span {
                return Some(&e.1);
            }
        }
        None
    }
}

/// What was inferred for one kernel.
#[derive(Debug)]
pub struct KernelShapes {
    pub name: String,
    pub param_types: Vec<TileTy>,
    pub expr_types: SpanMap,
}

/// The model of what was inferred.
pub struct KernelShapesV {
    pub name: Seq<char>,
    pub param_types: Seq<TileTyV>,
    pub expr_types: Map<Span, TileTyV>,
}

pub open spec fn tiles_view(v: Seq<TileTy>) -> Seq<TileTyV> {
    v.map_values(|t: TileTy| t@)
}

impl View for KernelShapes {
    type V = KernelShapesV;

    open spec fn view(&self) -> KernelShapesV {
        KernelShapesV {
            name: self.name@,
            param_types: tiles_view(self.param_types@),
            expr_types: self.expr_types@,
        }
    }
}

pub open spec fn shapes_view(v: Seq<KernelShapes>) -> Seq<KernelShapesV> {
    v.map_values(|k: KernelShapes| k@)
}

pub open spec fn opt_view(t: Option<TileTy>) -> Option<TileTyV> {
    match t {
        Some(x) => Some(x@),
        None => None,
    }
}

pub open spec fn opt_dims(t: Option<Vec<Dim>>) -> Option<Seq<DimV>> {
    match t {
        Some(x) => Some(dims_view(x@)),
        None => None,
    }
}

// ---- dimensions ----------------------------------------------------------------------------

pub open spec fn in_i64(n: int) -> Option<DimV> {
    if i64::MIN <= n <= i64::MAX {
        Some(DimV::Const(n as i64))
    } else {
        None
    }
}

/// The dimension that an operator makes of two. A zero added or taken away, and a factor or
/// divisor of one, leave the other as it is; two numbers are computed, unless the result is no
/// 64-bit number; otherwise the texts are joined. Only sums, differences, products and floor
/// quotients are dimensions.
pub open spec fn combined_dim(op: BinOp, l: DimV, r: DimV) -> Option<DimV> {
    if op == BinOp::Add && l == DimV::Const(0) {
        Some(r)
    } else if (op == BinOp::Add || op == BinOp::Sub) && r == DimV::Const(0) {
        Some(l)
    } else if op == BinOp::Mul && l == DimV::Const(1) {
        Some(r)
    } else if (op == BinOp::Mul || op == BinOp::FloorDiv) && r == DimV::Const(1) {
        Some(l)
    } else {
        match (l, r) {
            (DimV::Const(a), DimV::Const(b)) => match op {
                BinOp::Add => in_i64(a + b),
                BinOp::Sub => in_i64(a - b),
                BinOp::Mul => in_i64(a * b),
                BinOp::FloorDiv => if b != 0 {
                    in_i64(a as int / b as int)
                } else {
                    None
                },
                _ => None,
            },
            _ => match op_text(op) {
                Some(o) => Some(DimV::Symbolic(dim_text(l) + o + dim_text(r))),
                None => None,
            },
        }
    }
}

/// The operators of dimensions, as they are written between two.
pub open spec fn op_text(op: BinOp) -> Option<Seq<char>> {
    match op {
        BinOp::Add => Some(" + "@),
        BinOp::Sub => Some(" - "@),
        BinOp::Mul => Some(" * "@),
        BinOp::FloorDiv => Some(" // "@),
        _ => None,
    }
}

fn is_const(d: &Dim, n: i64) -> (r: bool)
    ensures
        r == (d@ == DimV::Const(n)),
{
    match d {
        Dim::Const(x) => *x == n,
        Dim::Symbolic(_) => false,
    }
}

fn opt_const(v: Option<i64>) -> (r: Option<Dim>)
    ensures
        match v {
            Some(n) => r matches Some(d) && d@ == DimV::Const(n),
            None => r is None,
        },
{
    match v {
        Some(n) => Some(Dim::Const(n)),
        None => None,
    }
}

pub fn combine_dim(op: BinOp, l: &Dim, r: &Dim) -> (res: Option<Dim>)
    ensures
        match res {
            Some(d) => combined_dim(op, l@, r@) == Some(d@),
            None => combined_dim(op, l@, r@) is None,
        },
{
    if op == BinOp::Add && is_const(l, 0) {
        return Some(r.copy());
    }
    if (op == BinOp::Add || op == BinOp::Sub) && is_const(r, 0) {
        return Some(l.copy());
    }
    if op == BinOp::Mul && is_const(l, 1) {
        return Some(r.copy());
    }
    if (op == BinOp::Mul || op == BinOp::FloorDiv) && is_const(r, 1) {
        return Some(l.copy());
    }
    let opstr = match op {
        BinOp::Add => " + ",
        BinOp::Sub => " - ",
        BinOp::Mul => " * ",
        BinOp::FloorDiv => " // ",
        _ => {
            return None;
        },
    };
    match (l, r) {
        (Dim::Const(a), Dim::Const(b)) => {
            let folded: Option<i64> = match op {
                BinOp::Add => a.checked_add(*b),
                BinOp::Sub => a.checked_sub(*b),
                BinOp::Mul => a.checked_mul(*b),
                _ => a.checked_div_euclid(*b),
            };
            opt_const(folded)
        },
        _ => Some(Dim::Symbolic(l.render().concat(opstr).concat(r.render().as_str()))),
    }
}

/// The dimension that an expression stands for, where it is a constant or built from names that
/// are.
pub open spec fn dim_value(consts: Map<Seq<char>, DimV>, e: Expr) -> Option<DimV>
    decreases e,
{
    match e {
        Expr::IntLit { text, span } => match python_int(text@) {
            Some(n) => Some(DimV::Const(n as i64)),
            None => None,
        },
        Expr::Name { name, span } => if consts.contains_key(name@) {
            Some(consts[name@])
        } else {
            None
        },
        Expr::UnaryOp { op, operand, span } => match op {
            UnaryOp::USub => match dim_value(consts, *operand) {
                Some(DimV::Const(v)) => in_i64(-(v as int)),
                Some(DimV::Symbolic(s)) => Some(DimV::Symbolic("-"@ + s)),
                None => None,
            },
            UnaryOp::UAdd => dim_value(consts, *operand),
            _ => None,
        },
        Expr::BinOp { op, lhs, rhs, span } => match (
            dim_value(consts, *lhs),
            dim_value(consts, *rhs),
        ) {
            (Some(l), Some(r)) => combined_dim(op, l, r),
            _ => None,
        },
        _ => None,
    }
}

// ---- subscripts ----------------------------------------------------------------------------

pub open spec fn index_step(e: Expr) -> Option<ReshapeStep> {
    match e {
        Expr::Slice { lower, upper, step, span } => if lower is None && upper is None && step is None {
            Some(ReshapeStep::Keep)
        } else {
            None
        },
        Expr::NoneLit { span } => Some(ReshapeStep::Insert),
        _ => None,
    }
}

/// The steps of the first `n` components, if each is a bare colon or `None`.
pub open spec fn index_steps_of(es: Seq<Expr>, n: nat) -> Option<Seq<ReshapeStep>>
    decreases n,
{
    if n == 0 {
        Some(Seq::empty())
    } else {
        match (index_steps_of(es, (n - 1) as nat), index_step(es[n - 1])) {
            (Some(v), Some(s)) => Some(v.push(s)),
            _ => None,
        }
    }
}

pub open spec fn index_steps(index: Expr) -> Option<Seq<ReshapeStep>> {
    match index {
        Expr::Tuple { elts, span } => index_steps_of(elts@, elts@.len()),
        other => match index_step(other) {
            Some(s) => Some(seq![s]),
            None => None,
        },
    }
}

fn step_of(e: &Expr) -> (r: Option<ReshapeStep>)
    ensures
        r == index_step(*e),
{
    match e {
        Expr::Slice { lower, upper, step, .. } => if lower.is_none() && upper.is_none()
            && step.is_none() {
            Some(ReshapeStep::Keep)
        } else {
            None
        },
        Expr::NoneLit { .. } => Some(ReshapeStep::Insert),
        _ => None,
    }
}

proof fn lemma_steps_none(es: Seq<Expr>, i: nat, n: nat)
    requires
        i <= n,
        index_steps_of(es, i) is None,
    ensures
        index_steps_of(es, n) is None,
    decreases n,
{
    if i < n {
        lemma_steps_none(es, i, (n - 1) as nat);
    }
}

/// The steps of a subscript that is a reshape.
pub fn subscript_steps(index: &Expr) -> (r: Option<Vec<ReshapeStep>>)
    ensures
        match r {
            Some(v) => index_steps(*index) == Some(v@),
            None => index_steps(*index) is None,
        },
{
    match index {
        Expr::Tuple { elts, .. } => {
            let mut v: Vec<ReshapeStep> = Vec::new();
            let mut i: usize = 0;
            while i < elts.len()
                invariant
                    i <= elts@.len(),
                    index_steps_of(elts@, i as nat) == Some(v@),
                    index_steps(*index) == index_steps_of(elts@, elts@.len()),
                decreases elts@.len() - i,
            {
                match step_of(&elts[i]) {
                    Some(s) => {
                        v.push(s);
                    },
                    None => {
                        proof {
                            lemma_steps_none(elts@, i as nat + 1, elts@.len());
                        }
                        return None;
                    },
                }
                i = i + 1;
            }
            Some(v)
        },
        other => match step_of(other) {
            Some(s) => {
                let mut v: Vec<ReshapeStep> = Vec::new();
                v.push(s);
                assert(v@ =~= seq![s]);
                Some(v)
            },
            None => None,
        },
    }
}

pub open spec fn rank_text(t: TileTyV) -> Seq<char> {
    match rank_of(t) {
        Some(r) => decimal(r as nat),
        None => "?"@,
    }
}

pub open spec fn reshape_text(t: TileTyV, n: nat) -> Seq<char> {
    "reshape of a rank-"@ + rank_text(t) + " tile to rank "@ + decimal(n)
        + " (via '[:, None]'/'[None, :]')"@
}

fn reshape_message(t: &TileTy, n: usize) -> (s: String)
    ensures
        s@ == reshape_text(t@, n as nat),
{
    let rank = match t.rank() {
        Some(r) => to_decimal(r as u64),
        None => "?".to_owned(),
    };
    "reshape of a rank-".to_owned().concat(rank.as_str()).concat(" tile to rank ").concat(
        to_decimal(n as u64).as_str(),
    ).concat(" (via '[:, None]'/'[None, :]')")
}

pub open spec fn bool_shape(t: TileTyV) -> TileTyV {
    match t {
        TileTyV::Scalar(_) => TileTyV::Scalar(Elem::Bool),
        other => other,
    }
}

/// The shape of a truth value with the shape of `t`.
pub fn as_bool(t: TileTy) -> (r: TileTy)
    ensures
        r@ == bool_shape(t@),
{
    match t {
        TileTy::Scalar(_) => TileTy::Scalar(Elem::Bool),
        other => other,
    }
}

// ---- inference -----------------------------------------------------------------------------

/// What inference keeps: the diagnostics, the shape of each bound name, the dimension of each
/// `constexpr` name, and the shape of each expression seen so far.
pub struct TkState {
    pub diags: Seq<DiagV>,
    pub vars: Map<Seq<char>, TileTyV>,
    pub consts: Map<Seq<char>, DimV>,
    pub types: Map<Span, TileTyV>,
}

pub open spec fn diag_s(st: TkState, code: ECode, span: Span, msg: Seq<char>) -> TkState {
    TkState { diags: st.diags.push(diag1(code, span, msg)), ..st }
}

pub open spec fn diag2_s(
    st: TkState,
    code: ECode,
    span: Span,
    a: Seq<char>,
    b: Seq<char>,
) -> TkState {
    TkState { diags: st.diags.push(diag2(code, span, a, b)), ..st }
}

pub open spec fn bind_s(st: TkState, name: Seq<char>, ty: TileTyV) -> TkState {
    TkState { vars: st.vars.insert(name, ty), ..st }
}

pub open spec fn bind_const_s(st: TkState, name: Seq<char>, d: DimV) -> TkState {
    TkState { consts: st.consts.insert(name, d), ..st }
}

pub open spec fn note_s(st: TkState, span: Span, ty: TileTyV) -> TkState {
    TkState { types: st.types.insert(span, ty), ..st }
}

/// The shape of an elementwise operation; a mismatch is reported.
pub open spec fn broadcast_or_diag_s(
    st: TkState,
    a: TileTyV,
    b: TileTyV,
    span: Span,
) -> (TkState, TileTyV)
{
    match joined(a, b) {
        Some(t) => {
            (st, t)
        },
        None => {
            let st = diag2_s(st, ECode::TileShapeMismatch, span, tile_text(a), tile_text(b));
            (st, TileTyV::Unknown)
        },
    }
}

/// The shape of a binary operation. The matrix product has no elementwise shape.
pub open spec fn binop_result_s(
    st: TkState,
    op: BinOp,
    l: TileTyV,
    r: TileTyV,
    span: Span,
) -> (TkState, TileTyV)
{
    if op == BinOp::MatMul {
        let st = diag_s(
            st,
            ECode::TileConstructUnsupported,
            span,
            "the '@' operator (use 'tl.dot' for matrix multiply)"@,
        );
        (st, TileTyV::Unknown)
    } else {
        broadcast_or_diag_s(st, l, r, span)
    }
}

/// Every shape of a list of expressions, in order.
pub open spec fn infer_all_s(st: TkState, es: Seq<Expr>, n: nat) -> TkState
    decreases es, n,
{
    let st = if n > 0 && n <= es.len() {
        let st = infer_all_s(st, es, (n - 1) as nat);
        let (st, _) = infer_expr_s(st, es[n - 1]);
        st
    } else { st };
    st
}

/// Every shape of a list of keyword arguments, in order.
pub open spec fn infer_keywords_s(st: TkState, kws: Seq<Keyword>, n: nat) -> TkState
    decreases kws, n,
{
    let st = if n > 0 && n <= kws.len() {
        let st = infer_keywords_s(st, kws, (n - 1) as nat);
        let (st, _) = infer_expr_s(st, kws[n - 1].value);
        st
    } else { st };
    st
}

/// The shapes of keyword arguments, in order; that of the last `mask` is the result.
pub open spec fn infer_mask_s(st: TkState, kws: Seq<Keyword>, n: nat) -> (TkState, Option<TileTyV>)
    decreases kws, n,
{
    if n > 0 && n <= kws.len() {
        let (st, m) = infer_mask_s(st, kws, (n - 1) as nat);
        let (st, kt) = infer_expr_s(st, kws[n - 1].value);
        if spec_is_keyword(kws[n - 1], "mask"@) { (st, Some(kt)) } else { (st, m) }
    } else { (st, None) }
}

/// The joint shape of `acc` and the first `n` of a list.
pub open spec fn infer_join_s(
    st: TkState,
    acc: TileTyV,
    es: Seq<Expr>,
    n: nat,
    span: Span,
) -> (TkState, TileTyV)
    decreases es, n,
{
    if n > 0 && n <= es.len() {
        let (st, prev) = infer_join_s(st, acc, es, (n - 1) as nat, span);
        let (st, vt) = infer_expr_s(st, es[n - 1]);
        broadcast_or_diag_s(st, prev, vt, span)
    } else { (st, acc) }
}

/// The joint shape of the first `n` of a list, which is not empty.
pub open spec fn infer_joined_s(
    st: TkState,
    es: Seq<Expr>,
    n: nat,
    span: Span,
) -> (TkState, TileTyV)
    decreases es, n,
{
    if n == 0 || n > es.len() {
        (st, TileTyV::Unknown)
    } else if n == 1 {
        infer_expr_s(st, es[0])
    } else {
        let (st, prev) = infer_joined_s(st, es, (n - 1) as nat, span);
        let (st, vt) = infer_expr_s(st, es[n - 1]);
        broadcast_or_diag_s(st, prev, vt, span)
    }
}

/// The shape of an expression, which is noted under its span.
pub open spec fn infer_expr_s(st: TkState, e: Expr) -> (TkState, TileTyV)
    decreases e, 9nat,
{
    let (st, ty) = infer_expr_inner_s(st, e);
    let st = note_s(st, expr_span(e), ty);
    (st, ty)
}

/// The shape of an expression.
pub open spec fn infer_expr_inner_s(st: TkState, e: Expr) -> (TkState, TileTyV)
    decreases e, 8nat,
{
    match e {
        Expr::Name { name, span } => {
            if st.vars.contains_key(name@) {
                (st, st.vars[name@])
            } else {
                (diag_s(st, ECode::UndefinedSymbol, span, name@), TileTyV::Unknown)
            }
        },
        Expr::IntLit { .. } => {
            (st, TileTyV::Scalar(Elem::Int))
        },
        Expr::FloatLit { .. } => {
            (st, TileTyV::Scalar(Elem::Float))
        },
        Expr::BoolLit { .. } => {
            (st, TileTyV::Scalar(Elem::Bool))
        },
        Expr::NoneLit { .. } | Expr::StrLit { .. } | Expr::Attribute { .. } | Expr::Slice { .. }
            | Expr::Error { .. } => {
            (st, TileTyV::Unknown)
        },
        Expr::BoolOp { values, span, .. } => {
            let (st, t) = infer_joined_s(st, values@, values@.len(), span);
            (st, bool_shape(t))
        },
        Expr::UnaryOp { op, operand, .. } => {
            let (st, t) = infer_expr_s(st, *operand);
            if op == UnaryOp::Not {
                (st, bool_shape(t))
            } else {
                (st, t)
            }
        },
        Expr::BinOp { op, lhs, rhs, span } => {
            let (st, l) = infer_expr_s(st, *lhs);
            let (st, r) = infer_expr_s(st, *rhs);
            binop_result_s(st, op, l, r, span)
        },
        Expr::Compare { left, comparators, span, .. } => {
            let (st, first) = infer_expr_s(st, *left);
            let (st, t) = infer_join_s(st, first, comparators@, comparators@.len(), span);
            (st, bool_shape(t))
        },
        Expr::Ternary { test, body, orelse, span } => {
            let (st, _) = infer_expr_s(st, *test);
            let (st, bt) = infer_expr_s(st, *body);
            let (st, ot) = infer_expr_s(st, *orelse);
            broadcast_or_diag_s(st, bt, ot, span)
        },
        Expr::Call { .. } => {
            infer_call_s(st, e)
        },
        Expr::Subscript { value, index, span } => {
            infer_subscript_s(st, *value, *index, span)
        },
        Expr::Tuple { elts, .. } | Expr::List { elts, .. } => {
            let st = infer_all_s(st, elts@, elts@.len());
            (st, TileTyV::Unknown)
        },
    }
}

/// The shape of a subscript: a reshape, or nothing that is modelled.
pub open spec fn infer_subscript_s(
    st: TkState,
    value: Expr,
    index: Expr,
    span: Span,
) -> (TkState, TileTyV)
    decreases value, 10nat,
{
    let (st, vt) = infer_expr_s(st, value);
    match index_steps(index) {
        Some(steps) => {
            match reshaped(vt, steps) {
                Some(t) => {
                    (st, t)
                },
                None => {
                    let st = diag_s(
                        st,
                        ECode::TileConstructUnsupported,
                        span,
                        reshape_text(vt, steps.len()),
                    );
                    (st, TileTyV::Unknown)
                },
            }
        },
        None => {
            let st = diag_s(
                st,
                ECode::TileConstructUnsupported,
                span,
                "a tile subscript other than a '[:, None]'/'[None, :]'-style reshape (partial slicing or integer indexing)"@,
            );
            (st, TileTyV::Unknown)
        },
    }
}

/// The shape of a call, by the last component of its callee.
pub open spec fn infer_call_s(st: TkState, e: Expr) -> (TkState, TileTyV)
    decreases e, 7nat,
{
    match e {
        Expr::Call { func, args, keywords, .. } => {
            if (attr_of(*func) == Some("arange"@)) {
                infer_arange_s(st, e)
            } else if (attr_of(*func) == Some("load"@)) {
                infer_load_s(st, e)
            } else if (attr_of(*func) == Some("store"@)) {
                infer_store_s(st, e)
            } else if (attr_of(*func) == Some("zeros"@)) {
                infer_zeros_s(st, e)
            } else {
                let st = infer_all_s(st, args@, args@.len());
                let st = infer_keywords_s(st, keywords@, keywords@.len());
                if (attr_of(*func) == Some("program_id"@)) {
                    (st, TileTyV::Scalar(Elem::Int))
                } else {
                    (st, TileTyV::Unknown)
                }
            }
        },
        _ => {
            (st, TileTyV::Unknown)
        },
    }
}

/// `tl.arange(lo, hi)`: one axis of `hi - lo`.
pub open spec fn infer_arange_s(st: TkState, e: Expr) -> (TkState, TileTyV)
    decreases e, 6nat,
{
    match e {
        Expr::Call { args, span, .. } => {
            if args@.len() != 2 {
                let st = diag_s(
                    st,
                    ECode::TileConstructUnsupported,
                    span,
                    "'tl.arange' called with other than exactly two positional arguments"@,
                );
                let st = infer_all_s(st, args@, args@.len());
                (st, TileTyV::Unknown)
            } else {
                let lo_dim = dim_value(st.consts, args@[0]);
                let hi_dim = dim_value(st.consts, args@[1]);
                let (st, _) = infer_expr_s(st, args@[0]);
                let (st, _) = infer_expr_s(st, args@[1]);
                match (lo_dim, hi_dim) {
                    (Some(lo), Some(hi)) => {
                        match combined_dim(BinOp::Sub, hi, lo) {
                            Some(d) => {
                                (st, TileTyV::Rank1(d))
                            },
                            None => {
                                let st = diag_s(
                                    st,
                                    ECode::TileDimUnresolved,
                                    span,
                                    "'tl.arange' bounds overflowed while resolving a size"@,
                                );
                                (st, TileTyV::Unknown)
                            },
                        }
                    },
                    _ => {
                        let st = diag_s(st, ECode::TileDimUnresolved, span, "'tl.arange' bounds"@);
                        (st, TileTyV::Unknown)
                    },
                }
            }
        },
        _ => {
            (st, TileTyV::Unknown)
        },
    }
}

/// `tl.load`: the shape of the pointer, which a mask must fit.
pub open spec fn infer_load_s(st: TkState, e: Expr) -> (TkState, TileTyV)
    decreases e, 6nat,
{
    match e {
        Expr::Call { args, keywords, span, .. } => {
            if args@.len() == 0 {
                let st = diag_s(
                    st,
                    ECode::TileConstructUnsupported,
                    span,
                    "'tl.load' called with no pointer argument"@,
                );
                let st = infer_keywords_s(st, keywords@, keywords@.len());
                (st, TileTyV::Unknown)
            } else {
                let (st, ptr_ty) = infer_expr_s(st, args@[0]);
                let st = infer_from_s(st, args@, 1);
                let (st, mask_ty) = infer_mask_s(st, keywords@, keywords@.len());
                let st = match mask_ty {
                    Some(mt) => {
                        let (st, _) = broadcast_or_diag_s(st, ptr_ty, mt, span);
                        st
                    },
                    None => {
                        st
                    },
                };
                (st, ptr_ty)
            }
        },
        _ => {
            (st, TileTyV::Unknown)
        },
    }
}

/// Every shape of a list of expressions from index `from` on, in order.
pub open spec fn infer_from_s(st: TkState, es: Seq<Expr>, from: nat) -> TkState
    decreases es, es.len() - from,
{
    let st = if from < es.len() {
        let (st, _) = infer_expr_s(st, es[from as int]);
        infer_from_s(st, es, from + 1)
    } else { st };
    st
}

/// `tl.store`: the value and a mask must fit the pointer.
pub open spec fn infer_store_s(st: TkState, e: Expr) -> (TkState, TileTyV)
    decreases e, 6nat,
{
    match e {
        Expr::Call { args, keywords, span, .. } => {
            if args@.len() < 2 {
                let st = diag_s(
                    st,
                    ECode::TileConstructUnsupported,
                    span,
                    "'tl.store' called with fewer than a pointer and a value argument"@,
                );
                let st = infer_all_s(st, args@, args@.len());
                let st = infer_keywords_s(st, keywords@, keywords@.len());
                (st, TileTyV::Scalar(Elem::Unknown))
            } else {
                let (st, ptr_ty) = infer_expr_s(st, args@[0]);
                let (st, value_ty) = infer_expr_s(st, args@[1]);
                let st = infer_from_s(st, args@, 2);
                let (st, _) = broadcast_or_diag_s(st, ptr_ty, value_ty, span);
                let (st, mask_ty) = infer_mask_s(st, keywords@, keywords@.len());
                let st = match mask_ty {
                    Some(mt) => {
                        let (st, _) = broadcast_or_diag_s(st, ptr_ty, mt, span);
                        st
                    },
                    None => {
                        st
                    },
                };
                (st, TileTyV::Scalar(Elem::Unknown))
            }
        },
        _ => {
            (st, TileTyV::Unknown)
        },
    }
}

/// The dimensions of the first `n` of a list, each before its shape is taken; none if one of them
/// is no constant.
pub open spec fn infer_dims_s(st: TkState, es: Seq<Expr>, n: nat) -> (TkState, Option<Seq<DimV>>)
    decreases es, n,
{
    if n > 0 && n <= es.len() {
        let (st, prev) = infer_dims_s(st, es, (n - 1) as nat);
        let d = dim_value(st.consts, es[n - 1]);
        let (st, _) = infer_expr_s(st, es[n - 1]);
        match (prev, d) { (Some(v), Some(x)) => (st, Some(v.push(x))), _ => (st, None) }
    } else { (st, Some(Seq::empty())) }
}

/// The shape of a list of dimensions.
pub open spec fn zeros_shape_s(
    st: TkState,
    dims: Option<Seq<DimV>>,
    rank: nat,
    span: Span,
) -> (TkState, TileTyV)
{
    if rank > 2 {
        let st = diag_s(
            st,
            ECode::TileConstructUnsupported,
            span,
            "'tl.zeros' with a shape of rank > 2"@,
        );
        (st, TileTyV::Unknown)
    } else {
        match dims {
            None => {
                let st = diag_s(st, ECode::TileDimUnresolved, span, "'tl.zeros' shape"@);
                (st, TileTyV::Unknown)
            },
            Some(v) => {
                (st, shape_of_dims(v, Elem::Unknown))
            },
        }
    }
}

/// `tl.zeros(shape)`: a tuple of dimensions, or one.
pub open spec fn infer_zeros_s(st: TkState, e: Expr) -> (TkState, TileTyV)
    decreases e, 6nat,
{
    match e {
        Expr::Call { args, keywords, span, .. } => {
            let st = infer_keywords_s(st, keywords@, keywords@.len());
            if args@.len() == 0 {
                let st = diag_s(
                    st,
                    ECode::TileConstructUnsupported,
                    span,
                    "'tl.zeros' called with no shape argument"@,
                );
                (st, TileTyV::Unknown)
            } else {
                match args@[0] {
                    Expr::Tuple { elts, .. } => {
                        let (st, dims) = infer_dims_s(st, elts@, elts@.len());
                        zeros_shape_s(st, dims, elts@.len(), span)
                    },
                    other => {
                        let d = dim_value(st.consts, other);
                        let (st, _) = infer_expr_s(st, other);
                        match d {
                            None => {
                                let st = diag_s(
                                    st,
                                    ECode::TileDimUnresolved,
                                    span,
                                    "'tl.zeros' shape"@,
                                );
                                (st, TileTyV::Unknown)
                            },
                            Some(x) => {
                                (st, TileTyV::Rank1(x))
                            },
                        }
                    },
                }
            }
        },
        _ => {
            (st, TileTyV::Unknown)
        },
    }
}

/// Binds a name to a shape. Of any other target only the shapes inside are taken.
pub open spec fn bind_target_s(st: TkState, target: Expr, ty: TileTyV) -> TkState
    decreases target, 10nat,
{
    match target {
        Expr::Name { name, .. } => {
            bind_s(st, name@, ty)
        },
        Expr::Tuple { elts, .. } => {
            infer_parts_s(st, elts@, elts@.len())
        },
        _ => {
            let (st, _) = infer_expr_s(st, target);
            st
        },
    }
}

/// The shapes of the parts of a tuple target that are no names.
pub open spec fn infer_parts_s(st: TkState, es: Seq<Expr>, n: nat) -> TkState
    decreases es, n,
{
    let st = if n > 0 && n <= es.len() {
        let st = infer_parts_s(st, es, (n - 1) as nat);
        if es[n - 1] is Name { st } else { infer_expr_s(st, es[n - 1]).0 }
    } else { st };
    st
}

/// Binds each of the first `n` targets.
pub open spec fn bind_targets_s(st: TkState, es: Seq<Expr>, n: nat, ty: TileTyV) -> TkState
    decreases es, n,
{
    let st = if n > 0 && n <= es.len() {
        let st = bind_targets_s(st, es, (n - 1) as nat, ty);
        bind_target_s(st, es[n - 1], ty)
    } else { st };
    st
}

/// `target: annotation = value`. A `constexpr` name is a dimension from then on.
pub open spec fn check_ann_assign_s(
    st: TkState,
    target: Expr,
    is_constexpr: bool,
    value: Option<Expr>,
) -> TkState
{
    match target {
        Expr::Name { name, .. } => {
            if is_constexpr {
                let st = match value {
                    Some(v) => {
                        let (st, _) = infer_expr_s(st, v);
                        let dim = dim_value(st.consts, v);
                        match dim {
                            Some(d) => {
                                bind_const_s(st, name@, d)
                            },
                            None => {
                                bind_const_s(st, name@, DimV::Symbolic(name@))
                            },
                        }
                    },
                    None => {
                        bind_const_s(st, name@, DimV::Symbolic(name@))
                    },
                };
                bind_s(st, name@, TileTyV::Scalar(Elem::Int))
            } else {
                let (st, ty) = match value {
                    Some(v) => {
                        infer_expr_s(st, v)
                    },
                    None => {
                        (st, TileTyV::Scalar(Elem::Unknown))
                    },
                };
                bind_s(st, name@, ty)
            }
        },
        _ => {
            match value {
                Some(v) => {
                    let (st, _) = infer_expr_s(st, v);
                    st
                },
                None => {
                    st
                },
            }
        },
    }
}

/// `for target in iter`: the counter of a `range` is an integer.
pub open spec fn check_for_s(st: TkState, s: Stmt) -> TkState
    decreases s, 8nat,
{
    match s {
        Stmt::For { target, iter, body, orelse, .. } => {
            let st = match iter {
                Expr::Call { func, args, .. } => {
                    if spec_is_name(*func, "range"@) {
                        let st = infer_all_s(st, args@, args@.len());
                        bind_target_s(st, target, TileTyV::Scalar(Elem::Int))
                    } else {
                        let (st, _) = infer_expr_s(st, iter);
                        bind_target_s(st, target, TileTyV::Scalar(Elem::Unknown))
                    }
                },
                _ => {
                    let (st, _) = infer_expr_s(st, iter);
                    bind_target_s(st, target, TileTyV::Scalar(Elem::Unknown))
                },
            };
            let st = check_stmts_s(st, body@, body@.len());
            check_stmts_s(st, orelse@, orelse@.len())
        },
        _ => {
            st
        },
    }
}

/// The first `n` statements of a list, in order.
pub open spec fn check_stmts_s(st: TkState, ss: Seq<Stmt>, n: nat) -> TkState
    decreases ss, n,
{
    let st = if n > 0 && n <= ss.len() {
        check_stmt_s(check_stmts_s(st, ss, (n - 1) as nat), ss[n - 1])
    } else { st };
    st
}

/// One statement.
pub open spec fn check_stmt_s(st: TkState, s: Stmt) -> TkState
    decreases s, 9nat,
{
    match s {
        Stmt::Expr { value, .. } => {
            let (st, _) = infer_expr_s(st, value);
            st
        },
        Stmt::Assign { targets, value, .. } => {
            let (st, vt) = infer_expr_s(st, value);
            bind_targets_s(st, targets@, targets@.len(), vt)
        },
        Stmt::AugAssign { target, op, value, span } => {
            let (st, cur) = infer_expr_s(st, target);
            let (st, vt) = infer_expr_s(st, value);
            let (st, result) = binop_result_s(st, op, cur, vt, span);
            bind_target_s(st, target, result)
        },
        Stmt::AnnAssign { target, is_constexpr, value, .. } => {
            check_ann_assign_s(st, target, is_constexpr, value)
        },
        Stmt::If { test, body, orelse, .. } => {
            let (st, _) = infer_expr_s(st, test);
            let st = check_stmts_s(st, body@, body@.len());
            check_stmts_s(st, orelse@, orelse@.len())
        },
        Stmt::For { .. } => {
            check_for_s(st, s)
        },
        Stmt::While { test, body, orelse, .. } => {
            let (st, _) = infer_expr_s(st, test);
            let st = check_stmts_s(st, body@, body@.len());
            check_stmts_s(st, orelse@, orelse@.len())
        },
        Stmt::Return { value, .. } => {
            match value {
                Some(v) => {
                    let (st, _) = infer_expr_s(st, v);
                    st
                },
                None => {
                    st
                },
            }
        },
        Stmt::Assert { test, msg, .. } => {
            let (st, _) = infer_expr_s(st, test);
            match msg {
                Some(m) => {
                    let (st, _) = infer_expr_s(st, m);
                    st
                },
                None => {
                    st
                },
            }
        },
        Stmt::Pass { .. } | Stmt::Break { .. } | Stmt::Continue { .. } | Stmt::Error { .. } => {
            st
        },
    }
}

/// The shape of a parameter. A `constexpr` one is a dimension, by its default if that is a
/// constant.
pub open spec fn seed_param_s(st: TkState, p: Param) -> (TkState, TileTyV)
{
    if p.is_constexpr {
        let (st, dim) = match p.default {
            Some(d) => {
                (st, dim_value(st.consts, d))
            },
            None => {
                (st, None)
            },
        };
        let st = match dim {
            Some(d) => {
                bind_const_s(st, p.name@, d)
            },
            None => {
                bind_const_s(st, p.name@, DimV::Symbolic(p.name@))
            },
        };
        let st = bind_s(st, p.name@, TileTyV::Scalar(Elem::Int));
        (st, TileTyV::Scalar(Elem::Int))
    } else {
        let st = bind_s(st, p.name@, TileTyV::Scalar(Elem::Unknown));
        (st, TileTyV::Scalar(Elem::Unknown))
    }
}

pub open spec fn seed_params_s(st: TkState, ps: Seq<Param>, n: nat) -> (TkState, Seq<TileTyV>)
    decreases n,
{
    if n == 0 {
        (st, Seq::empty())
    } else {
        let (st, tys) = seed_params_s(st, ps, (n - 1) as nat);
        let (st, ty) = seed_param_s(st, ps[n - 1]);
        (st, tys.push(ty))
    }
}

/// The state that the check of a kernel starts from.
pub open spec fn fresh_state() -> TkState {
    TkState {
        diags: Seq::empty(),
        vars: Map::empty(),
        consts: Map::empty(),
        types: Map::empty(),
    }
}

/// The shapes of a kernel, and what its check reports.
pub open spec fn kernel_shapes(k: KernelFn) -> (KernelShapesV, Seq<DiagV>) {
    let (st, param_types) = seed_params_s(fresh_state(), k.params@, k.params@.len());
    let st = check_stmts_s(st, k.body@, k.body@.len());
    (KernelShapesV { name: k.name@, param_types, expr_types: st.types }, st.diags)
}

/// The shapes of every kernel of a module: each kernel is checked on its own.
pub open spec fn module_shapes(ks: Seq<KernelFn>) -> Seq<KernelShapesV> {
    Seq::new(ks.len(), |i: int| kernel_shapes(ks[i]).0)
}

/// What the checks of the first `n` kernels report, one after the other.
pub open spec fn module_diags(ks: Seq<KernelFn>, n: nat) -> Seq<DiagV>
    decreases n,
{
    if n == 0 {
        Seq::empty()
    } else {
        module_diags(ks, (n - 1) as nat) + kernel_shapes(ks[n - 1]).1
    }
}

struct Checker {
    diags: Vec<Diag>,
    vars: Assoc<TileTy>,
    const_vals: Assoc<Dim>,
    expr_types: SpanMap,
}

proof fn lemma_dims_len(st: TkState, es: Seq<Expr>, n: nat)
    requires
        n <= es.len(),
    ensures
        infer_dims_s(st, es, n).1 matches Some(v) ==> v.len() == n,
    decreases n,
{
    if n > 0 {
        lemma_dims_len(st, es, (n - 1) as nat);
    }
}

impl Checker {
    spec fn st(&self) -> TkState {
        TkState {
            diags: diags_view(self.diags@),
            vars: self.vars@,
            consts: self.const_vals@,
            types: self.expr_types@,
        }
    }

    fn diag(&mut self, code: ECode, span: Span, msg: &str)
        ensures
            final(self).st() == diag_s(old(self).st(), code, span, msg@),
    {
        let d = Diag::new(code).with_span(span).with_arg(msg);
        assert(d@.args =~= seq![msg@]);
        push_diag(&mut self.diags, d);
    }

    fn diag2(&mut self, code: ECode, span: Span, a: &str, b: &str)
        ensures
            final(self).st() == diag2_s(old(self).st(), code, span, a@, b@),
    {
        let d = Diag::new(code).with_span(span).with_arg(a).with_arg(b);
        assert(d@.args =~= seq![a@, b@]);
        push_diag(&mut self.diags, d);
    }

    fn bind(&mut self, name: &str, ty: TileTy)
        ensures
            final(self).st() == bind_s(old(self).st(), name@, ty@),
    {
        self.vars.insert(name, ty);
    }

    fn bind_const(&mut self, name: &str, d: Dim)
        ensures
            final(self).st() == bind_const_s(old(self).st(), name@, d@),
    {
        self.const_vals.insert(name, d);
    }

    fn note(&mut self, span: Span, ty: &TileTy)
        ensures
            final(self).st() == note_s(old(self).st(), span, ty@),
    {
        self.expr_types.insert(span, ty.copy());
    }

    /// The dimension that an expression stands for.
    fn eval_dim_expr(&self, e: &Expr) -> (r: Option<Dim>)
        ensures
            match r {
                Some(d) => dim_value(self.const_vals@, *e) == Some(d@),
                None => dim_value(self.const_vals@, *e) is None,
            },
        decreases e,
    {
        match e {
            Expr::IntLit { text, .. } => match parse_int_text(text.as_str()) {
                Some(n) => Some(Dim::Const(n)),
                None => None,
            },
            Expr::Name { name, .. } => match self.const_vals.get(name.as_str()) {
                Some(d) => Some(d.copy()),
                None => None,
            },
            Expr::UnaryOp { op, operand, .. } => match op {
                UnaryOp::USub => match self.eval_dim_expr(operand) {
                    Some(Dim::Const(v)) => opt_const(0i64.checked_sub(v)),
                    Some(Dim::Symbolic(s)) => Some(
                        Dim::Symbolic("-".to_owned().concat(s.as_str())),
                    ),
                    None => None,
                },
                UnaryOp::UAdd => self.eval_dim_expr(operand),
                _ => None,
            },
            Expr::BinOp { op, lhs, rhs, .. } => match (
                self.eval_dim_expr(lhs),
                self.eval_dim_expr(rhs),
            ) {
                (Some(l), Some(r)) => combine_dim(*op, &l, &r),
                _ => None,
            },
            _ => None,
        }
    }

    /// The shape of an elementwise operation; a mismatch is reported.
    fn broadcast_or_diag(&mut self, a: &TileTy, b: &TileTy, span: Span) -> (r: TileTy)
        ensures
            final(self).st() == broadcast_or_diag_s(old(self).st(), a@, b@, span).0,
            r@ == broadcast_or_diag_s(old(self).st(), a@, b@, span).1,
    {
        match broadcast(a, b) {
            Ok(t) => {
                t
            },
            Err(_) => {
                self.diag2(
                    ECode::TileShapeMismatch,
                    span,
                    a.render().as_str(),
                    b.render().as_str(),
                );
                TileTy::Unknown
            },
        }
    }

    /// The shape of a binary operation. The matrix product has no elementwise shape.
    fn binop_result(&mut self, op: BinOp, l: &TileTy, rt: &TileTy, span: Span) -> (r: TileTy)
        ensures
            final(self).st() == binop_result_s(old(self).st(), op, l@, rt@, span).0,
            r@ == binop_result_s(old(self).st(), op, l@, rt@, span).1,
    {
        if op == BinOp::MatMul {
            self.diag(
                ECode::TileConstructUnsupported,
                span,
                "the '@' operator (use 'tl.dot' for matrix multiply)",
            );
            TileTy::Unknown
        } else {
            self.broadcast_or_diag(l, rt, span)
        }
    }

    /// Every shape of a list of expressions, in order.
    fn infer_all(&mut self, es: &Vec<Expr>, n: usize)
        requires
            n <= es@.len(),
        ensures
            final(self).st() == infer_all_s(old(self).st(), es@, n as nat),
        decreases es, n,
    {
        if n > 0 {
            self.infer_all(es, n - 1);
            self.infer_expr(&es[n - 1]);
        }
    }

    /// Every shape of a list of keyword arguments, in order.
    fn infer_keywords(&mut self, kws: &Vec<Keyword>, n: usize)
        requires
            n <= kws@.len(),
        ensures
            final(self).st() == infer_keywords_s(old(self).st(), kws@, n as nat),
        decreases kws, n,
    {
        if n > 0 {
            self.infer_keywords(kws, n - 1);
            self.infer_expr(&kws[n - 1].value);
        }
    }

    /// The shapes of keyword arguments, in order; that of the last `mask` is the result.
    fn infer_mask(&mut self, kws: &Vec<Keyword>, n: usize) -> (r: Option<TileTy>)
        requires
            n <= kws@.len(),
        ensures
            final(self).st() == infer_mask_s(old(self).st(), kws@, n as nat).0,
            opt_view(r) == infer_mask_s(old(self).st(), kws@, n as nat).1,
        decreases kws, n,
    {
        if n == 0 { return None; }
        let m = self.infer_mask(kws, n - 1);
        let kt = self.infer_expr(&kws[n - 1].value);
        if is_keyword(&kws[n - 1], "mask") { Some(kt) } else { m }
    }

    /// The joint shape of `acc` and the first `n` of a list.
    fn infer_join(&mut self, acc: TileTy, es: &Vec<Expr>, n: usize, span: Span) -> (r: TileTy)
        requires
            n <= es@.len(),
        ensures
            final(self).st() == infer_join_s(old(self).st(), acc@, es@, n as nat, span).0,
            r@ == infer_join_s(old(self).st(), acc@, es@, n as nat, span).1,
        decreases es, n,
    {
        if n == 0 { return acc; }
        let prev = self.infer_join(acc, es, n - 1, span);
        let vt = self.infer_expr(&es[n - 1]);
        self.broadcast_or_diag(&prev, &vt, span)
    }

    /// The joint shape of the first `n` of a list, which is not empty.
    fn infer_joined(&mut self, es: &Vec<Expr>, n: usize, span: Span) -> (r: TileTy)
        requires
            n <= es@.len(),
        ensures
            final(self).st() == infer_joined_s(old(self).st(), es@, n as nat, span).0,
            r@ == infer_joined_s(old(self).st(), es@, n as nat, span).1,
        decreases es, n,
    {
        if n == 0 { return TileTy::Unknown; }
        if n == 1 { return self.infer_expr(&es[0]); }
        let prev = self.infer_joined(es, n - 1, span);
        let vt = self.infer_expr(&es[n - 1]);
        self.broadcast_or_diag(&prev, &vt, span)
    }

    /// The shape of an expression, which is noted under its span.
    fn infer_expr(&mut self, e: &Expr) -> (r: TileTy)
        ensures
            final(self).st() == infer_expr_s(old(self).st(), *e).0,
            r@ == infer_expr_s(old(self).st(), *e).1,
        decreases e, 9nat,
    {
        let ty = self.infer_expr_inner(e);
        self.note(e.span(), &ty);
        ty
    }

    /// The shape of an expression.
    fn infer_expr_inner(&mut self, e: &Expr) -> (r: TileTy)
        ensures
            final(self).st() == infer_expr_inner_s(old(self).st(), *e).0,
            r@ == infer_expr_inner_s(old(self).st(), *e).1,
        decreases e, 8nat,
    {
        match e {
            Expr::Name { name, span } => {
                match self.vars.get(name.as_str()) {
                    Some(t) => t.copy(),
                    None => {
                        self.diag(ECode::UndefinedSymbol, *span, name.as_str());
                        TileTy::Unknown
                    },
                }
            },
            Expr::IntLit { .. } => {
                TileTy::Scalar(Elem::Int)
            },
            Expr::FloatLit { .. } => {
                TileTy::Scalar(Elem::Float)
            },
            Expr::BoolLit { .. } => {
                TileTy::Scalar(Elem::Bool)
            },
            Expr::NoneLit { .. } | Expr::StrLit { .. } | Expr::Attribute { .. } | Expr::Slice { .. }
                | Expr::Error { .. } => {
                TileTy::Unknown
            },
            Expr::BoolOp { values, span, .. } => {
                let t = self.infer_joined(values, values.len(), *span);
                as_bool(t)
            },
            Expr::UnaryOp { op, operand, .. } => {
                let t = self.infer_expr(&**operand);
                if matches!(op, UnaryOp::Not) {
                    as_bool(t)
                } else {
                    t
                }
            },
            Expr::BinOp { op, lhs, rhs, span } => {
                let l = self.infer_expr(&**lhs);
                let r = self.infer_expr(&**rhs);
                self.binop_result(*op, &l, &r, *span)
            },
            Expr::Compare { left, comparators, span, .. } => {
                let first = self.infer_expr(&**left);
                let t = self.infer_join(first, comparators, comparators.len(), *span);
                as_bool(t)
            },
            Expr::Ternary { test, body, orelse, span } => {
                self.infer_expr(&**test);
                let bt = self.infer_expr(&**body);
                let ot = self.infer_expr(&**orelse);
                self.broadcast_or_diag(&bt, &ot, *span)
            },
            Expr::Call { .. } => {
                self.infer_call(e)
            },
            Expr::Subscript { value, index, span } => {
                self.infer_subscript(&**value, &**index, *span)
            },
            Expr::Tuple { elts, .. } | Expr::List { elts, .. } => {
                self.infer_all(elts, elts.len());
                TileTy::Unknown
            },
        }
    }

    /// The shape of a subscript: a reshape, or nothing that is modelled.
    fn infer_subscript(&mut self, value: &Expr, index: &Expr, span: Span) -> (r: TileTy)
        ensures
            final(self).st() == infer_subscript_s(old(self).st(), *value, *index, span).0,
            r@ == infer_subscript_s(old(self).st(), *value, *index, span).1,
        decreases value, 10nat,
    {
        let vt = self.infer_expr(value);
        match subscript_steps(index) {
            Some(steps) => {
                match reshape(&vt, steps.as_slice()) {
                    Ok(t) => {
                        t
                    },
                    Err(_) => {
                        let msg = reshape_message(&vt, steps.len());
                        self.diag(ECode::TileConstructUnsupported, span, msg.as_str());
                        TileTy::Unknown
                    },
                }
            },
            None => {
                self.diag(
                    ECode::TileConstructUnsupported,
                    span,
                    "a tile subscript other than a '[:, None]'/'[None, :]'-style reshape (partial slicing or integer indexing)",
                );
                TileTy::Unknown
            },
        }
    }

    /// The shape of a call, by the last component of its callee.
    fn infer_call(&mut self, e: &Expr) -> (r: TileTy)
        ensures
            final(self).st() == infer_call_s(old(self).st(), *e).0,
            r@ == infer_call_s(old(self).st(), *e).1,
        decreases e, 7nat,
    {
        match e {
            Expr::Call { func, args, keywords, .. } => {
                if attr_is(&**func, "arange") {
                    self.infer_arange(e)
                } else if attr_is(&**func, "load") {
                    self.infer_load(e)
                } else if attr_is(&**func, "store") {
                    self.infer_store(e)
                } else if attr_is(&**func, "zeros") {
                    self.infer_zeros(e)
                } else {
                    self.infer_all(args, args.len());
                    self.infer_keywords(keywords, keywords.len());
                    if attr_is(&**func, "program_id") {
                        TileTy::Scalar(Elem::Int)
                    } else {
                        TileTy::Unknown
                    }
                }
            },
            _ => {
                TileTy::Unknown
            },
        }
    }

    /// `tl.arange(lo, hi)`: one axis of `hi - lo`.
    fn infer_arange(&mut self, e: &Expr) -> (r: TileTy)
        ensures
            final(self).st() == infer_arange_s(old(self).st(), *e).0,
            r@ == infer_arange_s(old(self).st(), *e).1,
        decreases e, 6nat,
    {
        match e {
            Expr::Call { args, span, .. } => {
                if args.len() != 2 {
                    self.diag(
                        ECode::TileConstructUnsupported,
                        *span,
                        "'tl.arange' called with other than exactly two positional arguments",
                    );
                    self.infer_all(args, args.len());
                    TileTy::Unknown
                } else {
                    let lo_dim = self.eval_dim_expr(&args[0]);
                    let hi_dim = self.eval_dim_expr(&args[1]);
                    self.infer_expr(&args[0]);
                    self.infer_expr(&args[1]);
                    match (lo_dim, hi_dim) {
                        (Some(lo), Some(hi)) => {
                            match combine_dim(BinOp::Sub, &hi, &lo) {
                                Some(d) => {
                                    TileTy::Rank1(d)
                                },
                                None => {
                                    self.diag(
                                        ECode::TileDimUnresolved,
                                        *span,
                                        "'tl.arange' bounds overflowed while resolving a size",
                                    );
                                    TileTy::Unknown
                                },
                            }
                        },
                        _ => {
                            self.diag(ECode::TileDimUnresolved, *span, "'tl.arange' bounds");
                            TileTy::Unknown
                        },
                    }
                }
            },
            _ => {
                TileTy::Unknown
            },
        }
    }

    /// `tl.load`: the shape of the pointer, which a mask must fit.
    fn infer_load(&mut self, e: &Expr) -> (r: TileTy)
        ensures
            final(self).st() == infer_load_s(old(self).st(), *e).0,
            r@ == infer_load_s(old(self).st(), *e).1,
        decreases e, 6nat,
    {
        match e {
            Expr::Call { args, keywords, span, .. } => {
                if args.len() == 0 {
                    self.diag(
                        ECode::TileConstructUnsupported,
                        *span,
                        "'tl.load' called with no pointer argument",
                    );
                    self.infer_keywords(keywords, keywords.len());
                    TileTy::Unknown
                } else {
                    let ptr_ty = self.infer_expr(&args[0]);
                    self.infer_from(args, 1);
                    let mask_ty = self.infer_mask(keywords, keywords.len());
                    match mask_ty {
                        Some(mt) => {
                            self.broadcast_or_diag(&ptr_ty, &mt, *span);
                        },
                        None => {},
                    };
                    ptr_ty
                }
            },
            _ => {
                TileTy::Unknown
            },
        }
    }

    /// Every shape of a list of expressions from index `from` on, in order.
    fn infer_from(&mut self, es: &Vec<Expr>, from: usize)
        requires
            from <= es@.len(),
        ensures
            final(self).st() == infer_from_s(old(self).st(), es@, from as nat),
        decreases es, es@.len() - from,
    {
        if from < es.len() {
            self.infer_expr(&es[from]);
            self.infer_from(es, from + 1);
        }
    }

    /// `tl.store`: the value and a mask must fit the pointer.
    fn infer_store(&mut self, e: &Expr) -> (r: TileTy)
        ensures
            final(self).st() == infer_store_s(old(self).st(), *e).0,
            r@ == infer_store_s(old(self).st(), *e).1,
        decreases e, 6nat,
    {
        match e {
            Expr::Call { args, keywords, span, .. } => {
                if args.len() < 2 {
                    self.diag(
                        ECode::TileConstructUnsupported,
                        *span,
                        "'tl.store' called with fewer than a pointer and a value argument",
                    );
                    self.infer_all(args, args.len());
                    self.infer_keywords(keywords, keywords.len());
                    TileTy::Scalar(Elem::Unknown)
                } else {
                    let ptr_ty = self.infer_expr(&args[0]);
                    let value_ty = self.infer_expr(&args[1]);
                    self.infer_from(args, 2);
                    self.broadcast_or_diag(&ptr_ty, &value_ty, *span);
                    let mask_ty = self.infer_mask(keywords, keywords.len());
                    match mask_ty {
                        Some(mt) => {
                            self.broadcast_or_diag(&ptr_ty, &mt, *span);
                        },
                        None => {},
                    };
                    TileTy::Scalar(Elem::Unknown)
                }
            },
            _ => {
                TileTy::Unknown
            },
        }
    }

    /// The dimensions of the first `n` of a list, each before its shape is taken; none if one of
    /// them is no constant.
    fn infer_dims(&mut self, es: &Vec<Expr>, n: usize) -> (r: Option<Vec<Dim>>)
        requires
            n <= es@.len(),
        ensures
            final(self).st() == infer_dims_s(old(self).st(), es@, n as nat).0,
            opt_dims(r) == infer_dims_s(old(self).st(), es@, n as nat).1,
        decreases es, n,
    {
        if n == 0 {
            let v: Vec<Dim> = Vec::new();
            assert(dims_view(v@) =~= Seq::empty());
            return Some(v);
        }
        let prev = self.infer_dims(es, n - 1);
        let d = self.eval_dim_expr(&es[n - 1]);
        self.infer_expr(&es[n - 1]);
        match (prev, d) {
            (Some(v0), Some(x)) => {
                let mut v = v0;
                v.push(x);
                assert(dims_view(v@) =~= dims_view(v0@).push(x@));
                Some(v)
            },
            _ => None,
        }
    }

    /// The shape of a list of dimensions.
    fn zeros_shape(&mut self, dims: Option<Vec<Dim>>, rank: usize, span: Span) -> (r: TileTy)
        requires
            dims matches Some(v) ==> v@.len() == rank,
        ensures
            final(self).st() == zeros_shape_s(old(self).st(), opt_dims(dims), rank as nat, span).0,
            r@ == zeros_shape_s(old(self).st(), opt_dims(dims), rank as nat, span).1,
    {
        if rank > 2 {
            self.diag(ECode::TileConstructUnsupported, span, "'tl.zeros' with a shape of rank > 2");
            TileTy::Unknown
        } else {
            match dims {
                None => {
                    self.diag(ECode::TileDimUnresolved, span, "'tl.zeros' shape");
                    TileTy::Unknown
                },
                Some(v) => {
                    TileTy::from_dims(v, Elem::Unknown)
                },
            }
        }
    }

    /// `tl.zeros(shape)`: a tuple of dimensions, or one.
    fn infer_zeros(&mut self, e: &Expr) -> (r: TileTy)
        ensures
            final(self).st() == infer_zeros_s(old(self).st(), *e).0,
            r@ == infer_zeros_s(old(self).st(), *e).1,
        decreases e, 6nat,
    {
        match e {
            Expr::Call { args, keywords, span, .. } => {
                self.infer_keywords(keywords, keywords.len());
                if args.len() == 0 {
                    self.diag(
                        ECode::TileConstructUnsupported,
                        *span,
                        "'tl.zeros' called with no shape argument",
                    );
                    TileTy::Unknown
                } else {
                    match &args[0] {
                        Expr::Tuple { elts, .. } => {
                            let ghost st1 = self.st();
                            let dims = self.infer_dims(elts, elts.len());
                            proof { lemma_dims_len(st1, elts@, elts@.len()); }
                            self.zeros_shape(dims, elts.len(), *span)
                        },
                        other => {
                            let d = self.eval_dim_expr(other);
                            self.infer_expr(other);
                            match d {
                                None => {
                                    self.diag(ECode::TileDimUnresolved, *span, "'tl.zeros' shape");
                                    TileTy::Unknown
                                },
                                Some(x) => {
                                    TileTy::Rank1(x)
                                },
                            }
                        },
                    }
                }
            },
            _ => {
                TileTy::Unknown
            },
        }
    }

    /// Binds a name to a shape. Of any other target only the shapes inside are taken.
    fn bind_target(&mut self, target: &Expr, ty: TileTy)
        ensures
            final(self).st() == bind_target_s(old(self).st(), *target, ty@),
        decreases target, 10nat,
    {
        match target {
            Expr::Name { name, .. } => {
                self.bind(name.as_str(), ty);
            },
            Expr::Tuple { elts, .. } => {
                self.infer_parts(elts, elts.len());
            },
            _ => {
                self.infer_expr(target);
            },
        }
    }

    /// The shapes of the parts of a tuple target that are no names.
    fn infer_parts(&mut self, es: &Vec<Expr>, n: usize)
        requires
            n <= es@.len(),
        ensures
            final(self).st() == infer_parts_s(old(self).st(), es@, n as nat),
        decreases es, n,
    {
        if n > 0 {
            self.infer_parts(es, n - 1);
            if !matches!(es[n - 1], Expr::Name { .. }) {
                self.infer_expr(&es[n - 1]);
            }
        }
    }

    /// Binds each of the first `n` targets.
    fn bind_targets(&mut self, es: &Vec<Expr>, n: usize, ty: &TileTy)
        requires
            n <= es@.len(),
        ensures
            final(self).st() == bind_targets_s(old(self).st(), es@, n as nat, ty@),
        decreases es, n,
    {
        if n > 0 {
            self.bind_targets(es, n - 1, ty);
            self.bind_target(&es[n - 1], ty.copy());
        }
    }

    /// `target: annotation = value`. A `constexpr` name is a dimension from then on.
    fn check_ann_assign(&mut self, target: &Expr, is_constexpr: bool, value: &Option<Expr>)
        ensures
            final(self).st() == check_ann_assign_s(old(self).st(), *target, is_constexpr, *value),
    {
        match target {
            Expr::Name { name, .. } => {
                if is_constexpr {
                    match value {
                        Some(v) => {
                            self.infer_expr(v);
                            let dim = self.eval_dim_expr(v);
                            match dim {
                                Some(d) => {
                                    self.bind_const(name.as_str(), d);
                                },
                                None => {
                                    self.bind_const(name.as_str(), Dim::Symbolic(name.clone()));
                                },
                            }
                        },
                        None => {
                            self.bind_const(name.as_str(), Dim::Symbolic(name.clone()));
                        },
                    }
                    self.bind(name.as_str(), TileTy::Scalar(Elem::Int));
                } else {
                    let ty = match value {
                        Some(v) => {
                            self.infer_expr(v)
                        },
                        None => {
                            TileTy::Scalar(Elem::Unknown)
                        },
                    };
                    self.bind(name.as_str(), ty);
                }
            },
            _ => {
                match value {
                    Some(v) => {
                        self.infer_expr(v);
                    },
                    None => {},
                }
            },
        }
    }

    /// `for target in iter`: the counter of a `range` is an integer.
    fn check_for(&mut self, s: &Stmt)
        ensures
            final(self).st() == check_for_s(old(self).st(), *s),
        decreases s, 8nat,
    {
        match s {
            Stmt::For { target, iter, body, orelse, .. } => {
                match iter {
                    Expr::Call { func, args, .. } => {
                        if is_name(&**func, "range") {
                            self.infer_all(args, args.len());
                            self.bind_target(target, TileTy::Scalar(Elem::Int));
                        } else {
                            self.infer_expr(iter);
                            self.bind_target(target, TileTy::Scalar(Elem::Unknown));
                        }
                    },
                    _ => {
                        self.infer_expr(iter);
                        self.bind_target(target, TileTy::Scalar(Elem::Unknown));
                    },
                }
                self.check_stmts(body, body.len());
                self.check_stmts(orelse, orelse.len());
            },
            _ => {},
        }
    }

    /// The first `n` statements of a list, in order.
    fn check_stmts(&mut self, ss: &Vec<Stmt>, n: usize)
        requires
            n <= ss@.len(),
        ensures
            final(self).st() == check_stmts_s(old(self).st(), ss@, n as nat),
        decreases ss, n,
    {
        if n > 0 {
            self.check_stmts(ss, n - 1);
            self.check_stmt(&ss[n - 1]);
        }
    }

    /// One statement.
    fn check_stmt(&mut self, s: &Stmt)
        ensures
            final(self).st() == check_stmt_s(old(self).st(), *s),
        decreases s, 9nat,
    {
        match s {
            Stmt::Expr { value, .. } => {
                self.infer_expr(value);
            },
            Stmt::Assign { targets, value, .. } => {
                let vt = self.infer_expr(value);
                self.bind_targets(targets, targets.len(), &vt);
            },
            Stmt::AugAssign { target, op, value, span } => {
                let cur = self.infer_expr(target);
                let vt = self.infer_expr(value);
                let result = self.binop_result(*op, &cur, &vt, *span);
                self.bind_target(target, result);
            },
            Stmt::AnnAssign { target, is_constexpr, value, .. } => {
                self.check_ann_assign(target, *is_constexpr, value);
            },
            Stmt::If { test, body, orelse, .. } => {
                self.infer_expr(test);
                self.check_stmts(body, body.len());
                self.check_stmts(orelse, orelse.len());
            },
            Stmt::For { .. } => {
                self.check_for(s);
            },
            Stmt::While { test, body, orelse, .. } => {
                self.infer_expr(test);
                self.check_stmts(body, body.len());
                self.check_stmts(orelse, orelse.len());
            },
            Stmt::Return { value, .. } => {
                match value {
                    Some(v) => {
                        self.infer_expr(v);
                    },
                    None => {},
                }
            },
            Stmt::Assert { test, msg, .. } => {
                self.infer_expr(test);
                match msg {
                    Some(m) => {
                        self.infer_expr(m);
                    },
                    None => {},
                }
            },
            Stmt::Pass { .. } | Stmt::Break { .. } | Stmt::Continue { .. } | Stmt::Error { .. } => {
            },
        }
    }

    /// The shape of a parameter. A `constexpr` one is a dimension, by its default if that is a
    /// constant.
    fn seed_param(&mut self, p: &Param) -> (r: TileTy)
        ensures
            final(self).st() == seed_param_s(old(self).st(), *p).0,
            r@ == seed_param_s(old(self).st(), *p).1,
    {
        if p.is_constexpr {
            let dim = match &p.default {
                Some(d) => {
                    self.eval_dim_expr(d)
                },
                None => {
                    None
                },
            };
            match dim {
                Some(d) => {
                    self.bind_const(p.name.as_str(), d);
                },
                None => {
                    self.bind_const(p.name.as_str(), Dim::Symbolic(p.name.clone()));
                },
            };
            self.bind(p.name.as_str(), TileTy::Scalar(Elem::Int));
            TileTy::Scalar(Elem::Int)
        } else {
            self.bind(p.name.as_str(), TileTy::Scalar(Elem::Unknown));
            TileTy::Scalar(Elem::Unknown)
        }
    }

}

fn check_kernel(k: &KernelFn) -> (r: (KernelShapes, Vec<Diag>))
    ensures
        r.0@ == kernel_shapes(*k).0,
        diags_view(r.1@) == kernel_shapes(*k).1,
{
    let mut ck = Checker {
        diags: Vec::new(),
        vars: Assoc::new(),
        const_vals: Assoc::new(),
        expr_types: SpanMap::new(),
    };
    let mut param_types: Vec<TileTy> = Vec::new();
    let mut i: usize = 0;
    assert(ck.st().diags =~= Seq::empty());
    assert(tiles_view(param_types@) =~= Seq::empty());
    while i < k.params.len()
        invariant
            i <= k.params@.len(),
            (ck.st(), tiles_view(param_types@)) == seed_params_s(
                fresh_state(),
                k.params@,
                i as nat,
            ),
        decreases k.params@.len() - i,
    {
        let ghost before = tiles_view(param_types@);
        let ty = ck.seed_param(&k.params[i]);
        param_types.push(ty);
        assert(tiles_view(param_types@) =~= before.push(ty@));
        i = i + 1;
    }
    ck.check_stmts(&k.body, k.body.len());
    (KernelShapes { name: k.name.clone(), param_types, expr_types: ck.expr_types }, ck.diags)
}

/// Infers the shapes of every kernel of a module: one set of shapes for each kernel, in order.
pub fn check_triton(module: &Module) -> (r: (Vec<KernelShapes>, Vec<Diag>))
    ensures
        shapes_view(r.0@) == module_shapes(module.kernels@),
        diags_view(r.1@) == module_diags(module.kernels@, module.kernels@.len()),
{
    let mut diags: Vec<Diag> = Vec::new();
    let mut shapes: Vec<KernelShapes> = Vec::new();
    let mut i: usize = 0;
    let ghost all = module_shapes(module.kernels@);
    assert(shapes_view(shapes@) =~= all.take(0));
    assert(diags_view(diags@) =~= Seq::empty());
    while i < module.kernels.len()
        invariant
            i <= module.kernels@.len(),
            all == module_shapes(module.kernels@),
            shapes_view(shapes@) == all.take(i as int),
            diags_view(diags@) == module_diags(module.kernels@, i as nat),
        decreases module.kernels@.len() - i,
    {
        let ghost before = diags@;
        let ghost front = shapes_view(shapes@);
        let (shape, mut d) = check_kernel(&module.kernels[i]);
        let ghost own = d@;
        shapes.push(shape);
        diags.append(&mut d);
        assert(diags_view(diags@) =~= diags_view(before) + diags_view(own));
        assert(shapes_view(shapes@) =~= front.push(shape@));
        assert(all.take(i as int + 1) =~= all.take(i as int).push(all[i as int]));
        i = i + 1;
    }
    assert(all.take(i as int) =~= all);
    (shapes, diags)
}

/// Every parameter of a kernel has a shape.
pub proof fn law_every_parameter_has_a_shape(k: KernelFn)
    ensures
        kernel_shapes(k).0.param_types.len() == k.params@.len(),
        kernel_shapes(k).0.name == k.name@,
{
    lemma_params_len(fresh_state(), k.params@, k.params@.len());
}

proof fn lemma_params_len(st: TkState, ps: Seq<Param>, n: nat)
    requires
        n <= ps.len(),
    ensures
        seed_params_s(st, ps, n).1.len() == n,
    decreases n,
{
    if n > 0 {
        lemma_params_len(st, ps, (n - 1) as nat);
    }
}

} // verus!
