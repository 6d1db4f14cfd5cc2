//! From Triton kernels to BIR.
//!
//! BIR has no tiles, so a tile lives in memory: each gets a range of bytes behind the last
//! pointer parameter of its kernel, and is filled element by element by a loop over its
//! dimensions. A dimension that has a name is read from the parameter of that name. A scalar is a
//! cell, as in the lowering of CUDA C. `tl.dot` is a loop over its inner dimension.
//!
//! A masked load or store branches on its mask, so that a masked-out address is never touched.
//!
//! Elements behind a pointer are 4 bytes wide and loads give single-precision values; indices and
//! the other parameters are 64-bit integers. A parameter is a pointer if its name reaches the
//! address of some load or store, by way of assignments if need be.
//!
//! What has no lowering is reported, and nothing stops at the first problem.

use vstd::prelude::*;
use vstd::string::*;

use crate::assoc::Assoc;
use crate::bir::{
    float_zero, funcs_view, AddrSpace, BinOp as BBin, BlockId, FCmpPred, FloatConst, Function,
    FunctionV, ICmpPred, Module as BModule, ModuleV, Op, OpV, Scalar, Term, TermV, Ty as BTy,
    ValRef,
};
use crate::bits::{low_u32, usize_to_u32};
use crate::diag::{diag2, diags_view, names_view, push_diag, Diag, DiagV, ECode, Span};
use crate::numeral::{parse_int_text, python_int};
use crate::sema::builder::{
    add_block, all_in_print_order, at_block, built, close_block, empty_build, in_print_order,
    lemma_all_in_print_order, lemma_none_in_print_order, next_block, next_val, put_inst, BuildV,
    Builder,
};
use crate::sema::triton_ast::{
    attr_is, attr_of, expr_span, is_keyword, is_name, spec_is_keyword, spec_is_name, BinOp, CmpOp,
    Expr, KernelFn, Keyword, Module, Param, Stmt, UnaryOp,
};
use crate::sema::triton_check::{
    index_steps, shapes_view, subscript_steps, KernelShapes, KernelShapesV,
};
use crate::sema::triton_ty::{
    broadcast, dim_text, dims_view, joined, rank_of, reshape, reshaped, Dim, DimV, Elem,
    ReshapeStep, TileTy, TileTyV,
};
use crate::text::same;

verus! {

pub const MINUS_ONE: i64 = -1;

/// The distance between the addresses of two cells.
pub const SLOT_STRIDE: i64 = 65536;

/// Where the tiles start behind the pointer parameter that they live behind.
pub const SCRATCH_BASE_BYTES: i64 = 16384;

/// The distance between two tiles.
pub const TILE_STRIDE: i64 = 16384;

/// The width of an element behind a pointer.
pub const DATA_ELEM_BYTES: i64 = 4;

// ---- types ---------------------------------------------------------------------------------

pub open spec fn width_of(t: BTy) -> i64 {
    match t {
        BTy::Scalar(Scalar::I1) | BTy::Scalar(Scalar::I8) => 1,
        BTy::Scalar(Scalar::I16) | BTy::Scalar(Scalar::F16) => 2,
        BTy::Scalar(Scalar::I32) | BTy::Scalar(Scalar::F32) => 4,
        _ => 8,
    }
}

fn bty_bytes(t: BTy) -> (n: i64)
    ensures
        n == width_of(t),
        0 < n <= 8,
{
    match t {
        BTy::Scalar(Scalar::I1) | BTy::Scalar(Scalar::I8) => 1,
        BTy::Scalar(Scalar::I16) | BTy::Scalar(Scalar::F16) => 2,
        BTy::Scalar(Scalar::I32) | BTy::Scalar(Scalar::F32) => 4,
        _ => 8,
    }
}

pub open spec fn alignment(t: BTy) -> u32 {
    width_of(t) as u32
}

fn bty_align(t: BTy) -> (n: u32)
    ensures
        n == alignment(t),
{
    bty_bytes(t) as u32
}

pub open spec fn float_bty(t: BTy) -> bool {
    t == BTy::Scalar(Scalar::F32) || t == BTy::Scalar(Scalar::F64)
}

fn is_float_bty(t: BTy) -> (r: bool)
    ensures
        r == float_bty(t),
{
    matches!(t, BTy::Scalar(Scalar::F32) | BTy::Scalar(Scalar::F64))
}

pub open spec fn i64_bty() -> BTy {
    BTy::Scalar(Scalar::I64)
}

pub open spec fn f32_bty() -> BTy {
    BTy::Scalar(Scalar::F32)
}

/// The element type of a binary operation: a pointer wins, then a float.
pub open spec fn combined_bty(a: BTy, b: BTy) -> BTy {
    if a is Ptr {
        a
    } else if b is Ptr {
        b
    } else if a == b {
        a
    } else if float_bty(a) || float_bty(b) {
        f32_bty()
    } else {
        i64_bty()
    }
}

fn combine_bty(a: BTy, b: BTy) -> (r: BTy)
    ensures
        r == combined_bty(a, b),
{
    if let BTy::Ptr(_) = a {
        return a;
    }
    if let BTy::Ptr(_) = b {
        return b;
    }
    if a == b {
        return a;
    }
    if is_float_bty(a) || is_float_bty(b) {
        BTy::Scalar(Scalar::F32)
    } else {
        BTy::Scalar(Scalar::I64)
    }
}

fn is_ptr(t: BTy) -> (r: bool)
    ensures
        r == (t is Ptr),
{
    matches!(t, BTy::Ptr(_))
}

/// The type of the first `dtype` among keyword arguments that is an attribute, from index `i`
/// on.
pub open spec fn dtype_from(kws: Seq<Keyword>, i: nat) -> BTy
    decreases kws.len() - i,
{
    if i >= kws.len() {
        f32_bty()
    } else if spec_is_keyword(kws[i as int], "dtype"@) {
        match kws[i as int].value {
            Expr::Attribute { value, attr, span } => if attr@ == "int8"@ || attr@ == "int16"@
                || attr@ == "int32"@ || attr@ == "int64"@ {
                i64_bty()
            } else {
                f32_bty()
            },
            _ => dtype_from(kws, i + 1),
        }
    } else {
        dtype_from(kws, i + 1)
    }
}

/// The element type of `tl.zeros`.
pub open spec fn zeros_ty(kws: Seq<Keyword>) -> BTy {
    dtype_from(kws, 0)
}

fn zeros_dtype_bty(kws: &Vec<Keyword>) -> (r: BTy)
    ensures
        r == zeros_ty(kws@),
{
    let mut i: usize = 0;
    while i < kws.len()
        invariant
            i <= kws@.len(),
            zeros_ty(kws@) == dtype_from(kws@, i as nat),
        decreases kws@.len() - i,
    {
        if is_keyword(&kws[i], "dtype") {
            if let Expr::Attribute { attr, .. } = &kws[i].value {
                let a = attr.as_str();
                return if same(a, "int8") || same(a, "int16") || same(a, "int32") || same(
                    a,
                    "int64",
                ) {
                    BTy::Scalar(Scalar::I64)
                } else {
                    BTy::Scalar(Scalar::F32)
                };
            }
        }
        i = i + 1;
    }
    BTy::Scalar(Scalar::F32)
}

pub open spec fn literal_of(e: Expr) -> Option<i64> {
    match e {
        Expr::IntLit { text, span } => match python_int(text@) {
            Some(n) => Some(n as i64),
            None => None,
        },
        _ => None,
    }
}

fn expr_as_i64(e: &Expr) -> (r: Option<i64>)
    ensures
        r == literal_of(*e),
{
    match e {
        Expr::IntLit { text, .. } => parse_int_text(text.as_str()),
        _ => None,
    }
}

// ---- which parameters are pointers ---------------------------------------------------------

/// The names in an expression, behind those in `out`.
pub open spec fn names_in(e: Expr, out: Seq<Seq<char>>) -> Seq<Seq<char>>
    decreases e, 0nat,
{
    match e {
        Expr::Name { name, span } => out.push(name@),
        Expr::BinOp { op, lhs, rhs, span } => names_in(*rhs, names_in(*lhs, out)),
        Expr::UnaryOp { op, operand, span } => names_in(*operand, out),
        Expr::Subscript { value, index, span } => names_in(*value, out),
        Expr::Call { func, args, keywords, span } => names_in_all(args@, args@.len(), out),
        Expr::Tuple { elts, span } => names_in_all(elts@, elts@.len(), out),
        Expr::List { elts, span } => names_in_all(elts@, elts@.len(), out),
        _ => out,
    }
}

pub open spec fn names_in_all(es: Seq<Expr>, n: nat, out: Seq<Seq<char>>) -> Seq<Seq<char>>
    decreases es, n,
{
    if n == 0 || n > es.len() {
        out
    } else {
        names_in(es[n - 1], names_in_all(es, (n - 1) as nat, out))
    }
}

/// The names in the addresses of the loads and stores of an expression.
pub open spec fn addresses_in(e: Expr, out: Seq<Seq<char>>) -> Seq<Seq<char>>
    decreases e, 0nat,
{
    match e {
        Expr::Call { func, args, keywords, span } => {
            let out = if (attr_of(*func) == Some("load"@) || attr_of(*func) == Some("store"@))
                && args@.len() > 0 {
                names_in(args@[0], out)
            } else {
                out
            };
            let out = addresses_in_all(args@, args@.len(), out);
            addresses_in_keywords(keywords@, keywords@.len(), out)
        },
        Expr::BinOp { op, lhs, rhs, span } => addresses_in(*rhs, addresses_in(*lhs, out)),
        Expr::UnaryOp { op, operand, span } => addresses_in(*operand, out),
        Expr::Compare { left, ops, comparators, span } => addresses_in_all(
            comparators@,
            comparators@.len(),
            addresses_in(*left, out),
        ),
        Expr::Subscript { value, index, span } => addresses_in(*value, out),
        Expr::Ternary { test, body, orelse, span } => addresses_in(
            *orelse,
            addresses_in(*body, addresses_in(*test, out)),
        ),
        Expr::Tuple { elts, span } => addresses_in_all(elts@, elts@.len(), out),
        Expr::List { elts, span } => addresses_in_all(elts@, elts@.len(), out),
        _ => out,
    }
}

pub open spec fn addresses_in_all(es: Seq<Expr>, n: nat, out: Seq<Seq<char>>) -> Seq<Seq<char>>
    decreases es, n,
{
    if n == 0 || n > es.len() {
        out
    } else {
        addresses_in(es[n - 1], addresses_in_all(es, (n - 1) as nat, out))
    }
}

pub open spec fn addresses_in_keywords(
    kws: Seq<Keyword>,
    n: nat,
    out: Seq<Seq<char>>,
) -> Seq<Seq<char>>
    decreases kws, n,
{
    if n == 0 || n > kws.len() {
        out
    } else {
        addresses_in(kws[n - 1].value, addresses_in_keywords(kws, (n - 1) as nat, out))
    }
}

pub open spec fn addresses_of(s: Stmt, out: Seq<Seq<char>>) -> Seq<Seq<char>>
    decreases s, 0nat,
{
    match s {
        Stmt::Expr { value, span } => addresses_in(value, out),
        Stmt::Assign { targets, value, span } => addresses_in(value, out),
        Stmt::AugAssign { target, op, value, span } => addresses_in(value, out),
        Stmt::AnnAssign { target, is_constexpr, value, span } => match value {
            Some(v) => addresses_in(v, out),
            None => out,
        },
        Stmt::If { test, body, orelse, span } => addresses_of_all(
            orelse@,
            orelse@.len(),
            addresses_of_all(body@, body@.len(), out),
        ),
        Stmt::For { target, iter, body, orelse, span } => addresses_of_all(
            orelse@,
            orelse@.len(),
            addresses_of_all(body@, body@.len(), out),
        ),
        Stmt::While { test, body, orelse, span } => addresses_of_all(
            orelse@,
            orelse@.len(),
            addresses_of_all(body@, body@.len(), out),
        ),
        _ => out,
    }
}

pub open spec fn addresses_of_all(ss: Seq<Stmt>, n: nat, out: Seq<Seq<char>>) -> Seq<Seq<char>>
    decreases ss, n,
{
    if n == 0 || n > ss.len() {
        out
    } else {
        addresses_of(ss[n - 1], addresses_of_all(ss, (n - 1) as nat, out))
    }
}

/// From each name of `sources` to `target`.
pub open spec fn flows(target: Seq<char>, sources: Seq<Seq<char>>) -> Seq<(Seq<char>, Seq<char>)> {
    sources.map_values(|s: Seq<char>| (target, s))
}

/// What an assignment makes a target depend on: pairs of the target and a name in its value.
pub open spec fn flow_to(target: Expr, value: Expr) -> Seq<(Seq<char>, Seq<char>)> {
    match target {
        Expr::Name { name, span } => flows(name@, names_in(value, Seq::empty())),
        _ => Seq::empty(),
    }
}

pub open spec fn flow_to_all(targets: Seq<Expr>, n: nat, value: Expr) -> Seq<
    (Seq<char>, Seq<char>),
>
    decreases n,
{
    if n == 0 || n > targets.len() {
        Seq::empty()
    } else {
        flow_to_all(targets, (n - 1) as nat, value) + flow_to(targets[n - 1], value)
    }
}

pub open spec fn flow_of(s: Stmt) -> Seq<(Seq<char>, Seq<char>)>
    decreases s, 0nat,
{
    match s {
        Stmt::Assign { targets, value, span } => flow_to_all(targets@, targets@.len(), value),
        Stmt::AugAssign { target, op, value, span } => flow_to(target, value),
        Stmt::AnnAssign { target, is_constexpr, value, span } => match value {
            Some(v) => flow_to(target, v),
            None => Seq::empty(),
        },
        Stmt::If { test, body, orelse, span } => flow_of_all(body@, body@.len()) + flow_of_all(
            orelse@,
            orelse@.len(),
        ),
        Stmt::For { target, iter, body, orelse, span } => flow_of_all(body@, body@.len())
            + flow_of_all(orelse@, orelse@.len()),
        Stmt::While { test, body, orelse, span } => flow_of_all(body@, body@.len()) + flow_of_all(
            orelse@,
            orelse@.len(),
        ),
        _ => Seq::empty(),
    }
}

pub open spec fn flow_of_all(ss: Seq<Stmt>, n: nat) -> Seq<(Seq<char>, Seq<char>)>
    decreases ss, n,
{
    if n == 0 || n > ss.len() {
        Seq::empty()
    } else {
        flow_of_all(ss, (n - 1) as nat) + flow_of(ss[n - 1])
    }
}

/// Whether a name is reached from `direct` along at most `k` dependencies.
pub open spec fn reached_in(
    direct: Seq<Seq<char>>,
    flow: Seq<(Seq<char>, Seq<char>)>,
    name: Seq<char>,
    k: nat,
) -> bool
    decreases k,
{
    if k == 0 {
        direct.contains(name)
    } else {
        ||| reached_in(direct, flow, name, (k - 1) as nat)
        ||| exists|i: int|
            0 <= i < flow.len() && (#[trigger] flow[i]).1 == name && reached_in(
                direct,
                flow,
                flow[i].0,
                (k - 1) as nat,
            )
    }
}

/// Whether a name is reached from `direct`.
pub open spec fn reached(
    direct: Seq<Seq<char>>,
    flow: Seq<(Seq<char>, Seq<char>)>,
    name: Seq<char>,
) -> bool {
    exists|k: nat| reached_in(direct, flow, name, k)
}

/// Whether a name is reached from an address of a load or store of the kernel.
pub open spec fn pointer_name(k: KernelFn, name: Seq<char>) -> bool {
    reached(
        addresses_of_all(k.body@, k.body@.len(), Seq::empty()),
        flow_of_all(k.body@, k.body@.len()),
        name,
    )
}

fn push_name(out: &mut Vec<String>, name: &str)
    ensures
        names_view(final(out)@) == names_view(old(out)@).push(name@),
{
    out.push(name.to_owned());
    assert(names_view(out@) =~= names_view(old(out)@).push(name@));
}

fn collect_all_names(e: &Expr, out: &mut Vec<String>)
    ensures
        names_view(final(out)@) == names_in(*e, names_view(old(out)@)),
    decreases e, 0nat,
{
    match e {
        Expr::Name { name, .. } => {
            push_name(out, name.as_str());
        },
        Expr::BinOp { lhs, rhs, .. } => {
            collect_all_names(lhs, out);
            collect_all_names(rhs, out);
        },
        Expr::UnaryOp { operand, .. } => {
            collect_all_names(operand, out);
        },
        Expr::Subscript { value, .. } => {
            collect_all_names(value, out);
        },
        Expr::Call { args, .. } => {
            collect_names_many(args, args.len(), out);
        },
        Expr::Tuple { elts, .. } => {
            collect_names_many(elts, elts.len(), out);
        },
        Expr::List { elts, .. } => {
            collect_names_many(elts, elts.len(), out);
        },
        _ => {},
    }
}

fn collect_names_many(es: &Vec<Expr>, n: usize, out: &mut Vec<String>)
    requires
        n <= es@.len(),
    ensures
        names_view(final(out)@) == names_in_all(es@, n as nat, names_view(old(out)@)),
    decreases es, n,
{
    if n > 0 {
        collect_names_many(es, n - 1, out);
        collect_all_names(&es[n - 1], out);
    }
}

fn collect_ptr_names_expr(e: &Expr, out: &mut Vec<String>)
    ensures
        names_view(final(out)@) == addresses_in(*e, names_view(old(out)@)),
    decreases e, 0nat,
{
    match e {
        Expr::Call { func, args, keywords, .. } => {
            if (attr_is(func, "load") || attr_is(func, "store")) && args.len() > 0 {
                collect_all_names(&args[0], out);
            }
            collect_ptr_names_many(args, args.len(), out);
            collect_ptr_names_keywords(keywords, keywords.len(), out);
        },
        Expr::BinOp { lhs, rhs, .. } => {
            collect_ptr_names_expr(lhs, out);
            collect_ptr_names_expr(rhs, out);
        },
        Expr::UnaryOp { operand, .. } => {
            collect_ptr_names_expr(operand, out);
        },
        Expr::Compare { left, comparators, .. } => {
            collect_ptr_names_expr(left, out);
            collect_ptr_names_many(comparators, comparators.len(), out);
        },
        Expr::Subscript { value, .. } => {
            collect_ptr_names_expr(value, out);
        },
        Expr::Ternary { test, body, orelse, .. } => {
            collect_ptr_names_expr(test, out);
            collect_ptr_names_expr(body, out);
            collect_ptr_names_expr(orelse, out);
        },
        Expr::Tuple { elts, .. } => {
            collect_ptr_names_many(elts, elts.len(), out);
        },
        Expr::List { elts, .. } => {
            collect_ptr_names_many(elts, elts.len(), out);
        },
        _ => {},
    }
}

fn collect_ptr_names_many(es: &Vec<Expr>, n: usize, out: &mut Vec<String>)
    requires
        n <= es@.len(),
    ensures
        names_view(final(out)@) == addresses_in_all(es@, n as nat, names_view(old(out)@)),
    decreases es, n,
{
    if n > 0 {
        collect_ptr_names_many(es, n - 1, out);
        collect_ptr_names_expr(&es[n - 1], out);
    }
}

fn collect_ptr_names_keywords(kws: &Vec<Keyword>, n: usize, out: &mut Vec<String>)
    requires
        n <= kws@.len(),
    ensures
        names_view(final(out)@) == addresses_in_keywords(kws@, n as nat, names_view(old(out)@)),
    decreases kws, n,
{
    if n > 0 {
        collect_ptr_names_keywords(kws, n - 1, out);
        collect_ptr_names_expr(&kws[n - 1].value, out);
    }
}

fn collect_ptr_names_stmt(s: &Stmt, out: &mut Vec<String>)
    ensures
        names_view(final(out)@) == addresses_of(*s, names_view(old(out)@)),
    decreases s, 0nat,
{
    match s {
        Stmt::Expr { value, .. } => {
            collect_ptr_names_expr(value, out);
        },
        Stmt::Assign { value, .. } => {
            collect_ptr_names_expr(value, out);
        },
        Stmt::AugAssign { value, .. } => {
            collect_ptr_names_expr(value, out);
        },
        Stmt::AnnAssign { value, .. } => {
            if let Some(v) = value {
                collect_ptr_names_expr(v, out);
            }
        },
        Stmt::If { body, orelse, .. } => {
            collect_ptr_names_stmts(body, body.len(), out);
            collect_ptr_names_stmts(orelse, orelse.len(), out);
        },
        Stmt::For { body, orelse, .. } => {
            collect_ptr_names_stmts(body, body.len(), out);
            collect_ptr_names_stmts(orelse, orelse.len(), out);
        },
        Stmt::While { body, orelse, .. } => {
            collect_ptr_names_stmts(body, body.len(), out);
            collect_ptr_names_stmts(orelse, orelse.len(), out);
        },
        _ => {},
    }
}

fn collect_ptr_names_stmts(ss: &Vec<Stmt>, n: usize, out: &mut Vec<String>)
    requires
        n <= ss@.len(),
    ensures
        names_view(final(out)@) == addresses_of_all(ss@, n as nat, names_view(old(out)@)),
    decreases ss, n,
{
    if n > 0 {
        collect_ptr_names_stmts(ss, n - 1, out);
        collect_ptr_names_stmt(&ss[n - 1], out);
    }
}

pub open spec fn flow_view(v: Seq<(String, String)>) -> Seq<(Seq<char>, Seq<char>)> {
    v.map_values(|p: (String, String)| (p.0@, p.1@))
}

fn record(target: &Expr, value: &Expr, defs: &mut Vec<(String, String)>)
    ensures
        flow_view(final(defs)@) == flow_view(old(defs)@) + flow_to(*target, *value),
{
    let ghost before = flow_view(defs@);
    match target {
        Expr::Name { name, .. } => {
            let mut names: Vec<String> = Vec::new();
            assert(names_view(names@) =~= Seq::empty());
            collect_all_names(value, &mut names);
            let ghost ns = names_view(names@);
            let mut i: usize = 0;
            assert(before + flows(name@, ns.take(0)) =~= before);
            while i < names.len()
                invariant
                    i <= names@.len(),
                    ns == names_view(names@),
                    flow_view(defs@) == before + flows(name@, ns.take(i as int)),
                decreases names@.len() - i,
            {
                let ghost mid = flow_view(defs@);
                let pair = (name.clone(), names[i].clone());
                defs.push(pair);
                i = i + 1;
                assert(flow_view(defs@) =~= mid.push((pair.0@, pair.1@)));
                assert(flow_view(defs@) =~= before + flows(name@, ns.take(i as int)));
            }
            assert(ns.take(i as int) =~= ns);
        },
        _ => {
            assert(before + flow_to(*target, *value) =~= before);
        },
    }
}

fn record_all(targets: &Vec<Expr>, n: usize, value: &Expr, defs: &mut Vec<(String, String)>)
    requires
        n <= targets@.len(),
    ensures
        flow_view(final(defs)@) == flow_view(old(defs)@) + flow_to_all(
            targets@,
            n as nat,
            *value,
        ),
    decreases n,
{
    let ghost before = flow_view(defs@);
    if n > 0 {
        record_all(targets, n - 1, value, defs);
        record(&targets[n - 1], value, defs);
        assert(flow_view(defs@) =~= before + flow_to_all(targets@, n as nat, *value));
    } else {
        assert(flow_view(defs@) =~= before + flow_to_all(targets@, n as nat, *value));
    }
}

fn collect_defs(s: &Stmt, defs: &mut Vec<(String, String)>)
    ensures
        flow_view(final(defs)@) == flow_view(old(defs)@) + flow_of(*s),
    decreases s, 0nat,
{
    let ghost before = flow_view(defs@);
    match s {
        Stmt::Assign { targets, value, .. } => {
            record_all(targets, targets.len(), value, defs);
        },
        Stmt::AugAssign { target, value, .. } => {
            record(target, value, defs);
        },
        Stmt::AnnAssign { target, value, .. } => {
            if let Some(v) = value {
                record(target, v, defs);
            }
        },
        Stmt::If { body, orelse, .. } => {
            collect_defs_stmts(body, body.len(), defs);
            collect_defs_stmts(orelse, orelse.len(), defs);
        },
        Stmt::For { body, orelse, .. } => {
            collect_defs_stmts(body, body.len(), defs);
            collect_defs_stmts(orelse, orelse.len(), defs);
        },
        Stmt::While { body, orelse, .. } => {
            collect_defs_stmts(body, body.len(), defs);
            collect_defs_stmts(orelse, orelse.len(), defs);
        },
        _ => {},
    }
    assert(flow_view(defs@) =~= before + flow_of(*s));
}

fn collect_defs_stmts(ss: &Vec<Stmt>, n: usize, defs: &mut Vec<(String, String)>)
    requires
        n <= ss@.len(),
    ensures
        flow_view(final(defs)@) == flow_view(old(defs)@) + flow_of_all(ss@, n as nat),
    decreases ss, n,
{
    let ghost before = flow_view(defs@);
    if n > 0 {
        collect_defs_stmts(ss, n - 1, defs);
        collect_defs(&ss[n - 1], defs);
    }
    assert(flow_view(defs@) =~= before + flow_of_all(ss@, n as nat));
}

/// A set of names that holds `direct` and is closed under the dependencies holds all that is
/// reached.
proof fn lemma_closed_holds(
    direct: Seq<Seq<char>>,
    flow: Seq<(Seq<char>, Seq<char>)>,
    closed: Seq<Seq<char>>,
    name: Seq<char>,
    k: nat,
)
    requires
        forall|n: Seq<char>| #[trigger] direct.contains(n) ==> closed.contains(n),
        forall|i: int|
            0 <= i < flow.len() && closed.contains((#[trigger] flow[i]).0) ==> closed.contains(
                flow[i].1,
            ),
        reached_in(direct, flow, name, k),
    ensures
        closed.contains(name),
    decreases k,
{
    if k > 0 {
        if reached_in(direct, flow, name, (k - 1) as nat) {
            lemma_closed_holds(direct, flow, closed, name, (k - 1) as nat);
        } else {
            let i = choose|i: int|
                0 <= i < flow.len() && (#[trigger] flow[i]).1 == name && reached_in(
                    direct,
                    flow,
                    flow[i].0,
                    (k - 1) as nat,
                );
            lemma_closed_holds(direct, flow, closed, flow[i].0, (k - 1) as nat);
        }
    }
}

/// The names that every dependency leads to from a list of names, appended to it.
fn close_names(names: Vec<String>, defs: &Vec<(String, String)>) -> (r: Vec<String>)
    ensures
        forall|n: Seq<char>| #[trigger]
            names_view(r@).contains(n) <==> reached(names_view(names@), flow_view(defs@), n),
{
    let ghost direct = names_view(names@);
    let ghost flow = flow_view(defs@);
    let mut closed = names;
    let mut used: Vec<bool> = Vec::new();
    let mut i: usize = 0;
    while i < defs.len()
        invariant
            i <= defs@.len(),
            used@.len() == i,
            forall|j: int| 0 <= j < i ==> !#[trigger] used@[j],
        decreases defs@.len() - i,
    {
        used.push(false);
        i = i + 1;
    }
    let ghost mut left: int = count_unused(used@, used@.len());
    let mut changed: bool = true;
    proof {
        lemma_count(used@, used@.len());
        assert forall|n: Seq<char>| #[trigger] names_view(closed@).contains(n) implies reached(
            direct,
            flow,
            n,
        ) by {
            assert(reached_in(direct, flow, n, 0));
        }
    }
    while changed
        invariant
            used@.len() == defs@.len(),
            direct == names_view(names@),
            flow == flow_view(defs@),
            left == count_unused(used@, used@.len()),
            left >= 0,
            forall|n: Seq<char>| #[trigger] direct.contains(n) ==> names_view(closed@).contains(n),
            forall|n: Seq<char>| #[trigger]
                names_view(closed@).contains(n) ==> reached(direct, flow, n),
            forall|j: int|
                0 <= j < defs@.len() && #[trigger] used@[j] ==> names_view(closed@).contains(
                    flow[j].1,
                ),
            !changed ==> forall|j: int|
                0 <= j < defs@.len() && names_view(closed@).contains(
                    (#[trigger] flow[j]).0,
                ) ==> used@[j],
        decreases left + if changed { 1int } else { 0int },
    {
        changed = false;
        let ghost left0 = left;
        let ghost closed0 = names_view(closed@);
        let mut i: usize = 0;
        while i < defs.len()
            invariant
                i <= defs@.len(),
                used@.len() == defs@.len(),
                direct == names_view(names@),
                flow == flow_view(defs@),
                left == count_unused(used@, used@.len()),
                0 <= left <= left0,
                changed ==> left < left0,
                forall|n: Seq<char>| #[trigger]
                    direct.contains(n) ==> names_view(closed@).contains(n),
                forall|n: Seq<char>| #[trigger]
                    names_view(closed@).contains(n) ==> reached(direct, flow, n),
                forall|j: int|
                    0 <= j < defs@.len() && #[trigger] used@[j] ==> names_view(closed@).contains(
                        flow[j].1,
                    ),
                !changed ==> forall|j: int|
                    0 <= j < i && names_view(closed@).contains((#[trigger] flow[j]).0) ==> used@[j],
            decreases defs@.len() - i,
        {
            let d = &defs[i];
            assert(flow[i as int] == (d.0@, d.1@));
            if !used[i] && crate::sema::labels::has_name(&closed, d.0.as_str()) {
                let ghost before = names_view(closed@);
                proof {
                    assert(reached(direct, flow, d.0@));
                    let k = choose|k: nat| reached_in(direct, flow, d.0@, k);
                    assert(flow[i as int].1 == d.1@ && reached_in(direct, flow, flow[i as int].0, k));
                    assert(reached_in(direct, flow, d.1@, k + 1));
                    lemma_count_set(used@, used@.len(), i as int);
                }
                closed.push(d.1.clone());
                used.set(i, true);
                proof {
                    left = left - 1;
                    let after = names_view(closed@);
                    assert(after =~= before.push(d.1@));
                    assert forall|n: Seq<char>| before.contains(n) implies after.contains(n) by {
                        let j = choose|j: int| 0 <= j < before.len() && before[j] == n;
                        assert(after[j] == n);
                    }
                    assert(after[before.len() as int] == d.1@);
                    assert forall|n: Seq<char>| #[trigger] after.contains(n) implies reached(
                        direct,
                        flow,
                        n,
                    ) by {
                        let j = choose|j: int| 0 <= j < after.len() && after[j] == n;
                        if j < before.len() {
                            assert(before[j] == n);
                            assert(before.contains(n));
                        }
                    }
                }
                changed = true;
            }
            i = i + 1;
        }
    }
    proof {
        let c = names_view(closed@);
        assert forall|n: Seq<char>| #[trigger] c.contains(n) <==> reached(direct, flow, n) by {
            if reached(direct, flow, n) {
                let k = choose|k: nat| reached_in(direct, flow, n, k);
                assert forall|i: int|
                    0 <= i < flow.len() && c.contains((#[trigger] flow[i]).0) implies c.contains(
                    flow[i].1,
                ) by {
                    assert(used@[i]);
                }
                lemma_closed_holds(direct, flow, c, n, k);
            }
        }
    }
    closed
}

spec fn count_unused(used: Seq<bool>, n: nat) -> int
    decreases n,
{
    if n == 0 {
        0
    } else {
        count_unused(used, (n - 1) as nat) + if used[n - 1] {
            0int
        } else {
            1int
        }
    }
}

proof fn lemma_count(used: Seq<bool>, n: nat)
    ensures
        count_unused(used, n) >= 0,
    decreases n,
{
    if n > 0 {
        lemma_count(used, (n - 1) as nat);
    }
}

proof fn lemma_count_same(a: Seq<bool>, b: Seq<bool>, n: nat)
    requires
        forall|j: int| 0 <= j < n ==> #[trigger] a[j] == b[j],
    ensures
        count_unused(a, n) == count_unused(b, n),
    decreases n,
{
    if n > 0 {
        lemma_count_same(a, b, (n - 1) as nat);
    }
}

proof fn lemma_count_set(used: Seq<bool>, n: nat, i: int)
    requires
        0 <= i < n <= used.len(),
        !used[i],
    ensures
        count_unused(used.update(i, true), n) == count_unused(used, n) - 1,
        count_unused(used, n) >= 1,
    decreases n,
{
    lemma_count(used, n);
    if i == n - 1 {
        lemma_count_same(used.update(i, true), used, (n - 1) as nat);
        lemma_count(used, (n - 1) as nat);
    } else {
        lemma_count_set(used, (n - 1) as nat, i);
    }
}

/// The names that reach an address of a load or store.
fn ptr_param_names(k: &KernelFn) -> (r: Vec<String>)
    ensures
        forall|n: Seq<char>| #[trigger] names_view(r@).contains(n) <==> pointer_name(*k, n),
{
    let mut direct: Vec<String> = Vec::new();
    assert(names_view(direct@) =~= Seq::empty());
    collect_ptr_names_stmts(&k.body, k.body.len(), &mut direct);
    let mut defs: Vec<(String, String)> = Vec::new();
    assert(flow_view(defs@) =~= Seq::empty());
    collect_defs_stmts(&k.body, k.body.len(), &mut defs);
    assert(flow_view(defs@) =~= flow_of_all(k.body@, k.body@.len()));
    let r = close_names(direct, &defs);
    assert forall|n: Seq<char>| #[trigger] names_view(r@).contains(n) <==> pointer_name(*k, n) by {}
    r
}

// ---- lowering ------------------------------------------------------------------------------

/// Where a name's value is: in a cell, or in a tile's range of bytes.
#[derive(Clone, Copy, PartialEq, Eq, Structural)]
pub enum Storage {
    Synthetic { slot: u32, space: AddrSpace },
    Scratch { ordinal: u32 },
}

/// What a name is bound to: its storage, its shape, the type of its elements, and for a tile the
/// extent of each dimension.
pub struct VarSlot {
    pub storage: Storage,
    pub shape: TileTy,
    pub elem_bty: BTy,
    pub dims: Vec<ValRef>,
}

/// The model of what a name is bound to.
pub struct VarV {
    pub storage: Storage,
    pub shape: TileTyV,
    pub elem_bty: BTy,
    pub dims: Seq<ValRef>,
}

impl View for VarSlot {
    type V = VarV;

    open spec fn view(&self) -> VarV {
        VarV {
            storage: self.storage,
            shape: self.shape@,
            elem_bty: self.elem_bty,
            dims: self.dims@,
        }
    }
}

fn copy_refs(v: &Vec<ValRef>) -> (r: Vec<ValRef>)
    ensures
        r@ == v@,
{
    prefix(v, v.len())
}

/// The first `n` of a list of values.
fn prefix(v: &Vec<ValRef>, n: usize) -> (r: Vec<ValRef>)
    requires
        n <= v@.len(),
    ensures
        r@ == v@.take(n as int),
        n == v@.len() ==> r@ == v@,
{
    let mut r: Vec<ValRef> = Vec::new();
    let mut i: usize = 0;
    while i < n
        invariant
            i <= n <= v@.len(),
            r@ == v@.take(i as int),
        decreases n - i,
    {
        r.push(v[i]);
        i = i + 1;
        assert(r@ =~= v@.take(i as int));
    }
    assert(v@.take(v@.len() as int) =~= v@);
    r
}

impl VarSlot {
    fn copy(&self) -> (r: VarSlot)
        ensures
            r@ == self@,
    {
        VarSlot {
            storage: self.storage,
            shape: self.shape.copy(),
            elem_bty: self.elem_bty,
            dims: copy_refs(&self.dims),
        }
    }
}

pub open spec fn scalar_var(slot: u32, space: AddrSpace, elem: Elem, bty: BTy) -> VarV {
    VarV {
        storage: Storage::Synthetic { slot, space },
        shape: TileTyV::Scalar(elem),
        elem_bty: bty,
        dims: Seq::empty(),
    }
}

fn make_scalar(slot: u32, space: AddrSpace, elem: Elem, bty: BTy) -> (r: VarSlot)
    ensures
        r@ == scalar_var(slot, space, elem, bty),
{
    let r = VarSlot {
        storage: Storage::Synthetic { slot, space },
        shape: TileTy::Scalar(elem),
        elem_bty: bty,
        dims: Vec::new(),
    };
    assert(r@.dims =~= Seq::empty());
    r
}

/// A loop that is open: the blocks of its test, its step and what follows it, and its counter.
#[derive(Clone, Copy, PartialEq, Eq, Structural)]
pub struct LoopLevel {
    pub cond_bb: BlockId,
    pub step_bb: BlockId,
    pub exit_bb: BlockId,
    pub ctr_slot: u32,
}

/// The loops over the dimensions of a tile: the counter and bound of each, outermost first.
pub struct Loops {
    pub idx: Vec<ValRef>,
    pub bounds: Vec<ValRef>,
    pub levels: Vec<LoopLevel>,
}

/// The model of the loops over a tile.
pub struct LoopsV {
    pub idx: Seq<ValRef>,
    pub bounds: Seq<ValRef>,
    pub levels: Seq<LoopLevel>,
}

impl View for Loops {
    type V = LoopsV;

    open spec fn view(&self) -> LoopsV {
        LoopsV { idx: self.idx@, bounds: self.bounds@, levels: self.levels@ }
    }
}

/// What lowering a kernel keeps: the diagnostics, what each name is bound to, the numbers of the
/// next cell and tile, the parameter that tiles live behind, what is built, the loops that are
/// open, and the shapes that were inferred.
pub struct TlState {
    pub diags: Seq<DiagV>,
    pub vars: Map<Seq<char>, VarV>,
    pub next_slot: u32,
    pub next_tile: u32,
    pub scratch: Option<u32>,
    pub b: BuildV,
    pub ctrl: Seq<(BlockId, BlockId)>,
    pub types: Map<Span, TileTyV>,
}

pub open spec fn diag_s(st: TlState, span: Span, what: Seq<char>, detail: Seq<char>) -> TlState {
    TlState { diags: st.diags.push(diag2(ECode::LoweringUnsupported, span, what, detail)), ..st }
}

pub open spec fn push_s(st: TlState, ty: BTy, op: OpV) -> (TlState, ValRef) {
    (TlState { b: put_inst(st.b, ty, op), ..st }, next_val(st.b))
}

pub open spec fn push_void_s(st: TlState, op: OpV) -> TlState {
    TlState { b: put_inst(st.b, BTy::Void, op), ..st }
}

pub open spec fn alloc_block_s(st: TlState) -> (TlState, BlockId) {
    (TlState { b: add_block(st.b), ..st }, next_block(st.b))
}

pub open spec fn terminate_s(st: TlState, term: TermV) -> TlState {
    TlState { b: close_block(st.b, term), ..st }
}

pub open spec fn set_cur_s(st: TlState, cur: BlockId) -> TlState {
    TlState { b: at_block(st.b, cur), ..st }
}

pub open spec fn new_slot_id_s(st: TlState) -> (TlState, u32) {
    (TlState { next_slot: st.next_slot.wrapping_add(1), ..st }, st.next_slot)
}

pub open spec fn new_tile_ordinal_s(st: TlState) -> (TlState, u32) {
    (TlState { next_tile: st.next_tile.wrapping_add(1), ..st }, st.next_tile)
}

pub open spec fn bind_s(st: TlState, name: Seq<char>, v: VarV) -> TlState {
    TlState { vars: st.vars.insert(name, v), ..st }
}

pub open spec fn enter_s(st: TlState, break_bb: BlockId, continue_bb: BlockId) -> TlState {
    TlState { ctrl: st.ctrl.push((break_bb, continue_bb)), ..st }
}

pub open spec fn leave_s(st: TlState) -> TlState {
    TlState {
        ctrl: if st.ctrl.len() == 0 {
            st.ctrl
        } else {
            st.ctrl.drop_last()
        },
        ..st
    }
}

pub open spec fn var_of(st: TlState, name: Seq<char>) -> Option<VarV> {
    if st.vars.contains_key(name) {
        Some(st.vars[name])
    } else {
        None
    }
}

pub open spec fn noted_shape(st: TlState, e: Expr) -> TileTyV {
    if st.types.contains_key(expr_span(e)) {
        st.types[expr_span(e)]
    } else {
        TileTyV::Unknown
    }
}

pub open spec fn or_unknown(t: Option<TileTyV>) -> TileTyV {
    match t {
        Some(x) => x,
        None => TileTyV::Unknown,
    }
}

/// The shape of an expression, from what its names are bound to here.
pub open spec fn shape_in(st: TlState, e: Expr) -> TileTyV
    decreases e, 0nat,
{
    match e {
        Expr::Name { name, span } => match var_of(st, name@) {
            Some(v) => v.shape,
            None => TileTyV::Unknown,
        },
        Expr::IntLit { text, span } => TileTyV::Scalar(Elem::Int),
        Expr::FloatLit { value, span } => TileTyV::Scalar(Elem::Float),
        Expr::BoolLit { value, span } => TileTyV::Scalar(Elem::Bool),
        Expr::UnaryOp { op, operand, span } => shape_in(st, *operand),
        Expr::BinOp { op, lhs, rhs, span } => or_unknown(
            joined(shape_in(st, *lhs), shape_in(st, *rhs)),
        ),
        Expr::Compare { left, ops, comparators, span } => joint_shape(
            st,
            shape_in(st, *left),
            comparators@,
            comparators@.len(),
        ),
        Expr::Ternary { test, body, orelse, span } => or_unknown(
            joined(shape_in(st, *body), shape_in(st, *orelse)),
        ),
        Expr::Subscript { value, index, span } => match index_steps(*index) {
            Some(steps) => or_unknown(reshaped(shape_in(st, *value), steps)),
            None => TileTyV::Unknown,
        },
        Expr::Call { func, args, keywords, span } => if attr_of(*func) == Some("load"@) {
            if args@.len() > 0 {
                shape_in(st, args@[0])
            } else {
                TileTyV::Unknown
            }
        } else if attr_of(*func) == Some("program_id"@) {
            TileTyV::Scalar(Elem::Int)
        } else if attr_of(*func) == Some("arange"@) || attr_of(*func) == Some("zeros"@) {
            noted_shape(st, e)
        } else {
            TileTyV::Unknown
        },
        _ => noted_shape(st, e),
    }
}

pub open spec fn joint_shape(st: TlState, first: TileTyV, es: Seq<Expr>, n: nat) -> TileTyV
    decreases es, n,
{
    if n == 0 || n > es.len() {
        first
    } else {
        or_unknown(joined(joint_shape(st, first, es, (n - 1) as nat), shape_in(st, es[n - 1])))
    }
}

/// The type of the elements of an expression.
pub open spec fn elem_in(st: TlState, e: Expr) -> BTy
    decreases e,
{
    match e {
        Expr::Name { name, span } => match var_of(st, name@) {
            Some(v) => v.elem_bty,
            None => f32_bty(),
        },
        Expr::IntLit { text, span } => i64_bty(),
        Expr::FloatLit { value, span } => f32_bty(),
        Expr::BoolLit { value, span } => BTy::Scalar(Scalar::I1),
        Expr::BinOp { op, lhs, rhs, span } => combined_bty(elem_in(st, *lhs), elem_in(st, *rhs)),
        Expr::UnaryOp { op, operand, span } => elem_in(st, *operand),
        Expr::Compare { left, ops, comparators, span } => BTy::Scalar(Scalar::I1),
        Expr::Ternary { test, body, orelse, span } => combined_bty(
            elem_in(st, *body),
            elem_in(st, *orelse),
        ),
        Expr::Subscript { value, index, span } => elem_in(st, *value),
        Expr::Call { func, args, keywords, span } => if attr_of(*func) == Some("zeros"@) {
            zeros_ty(keywords@)
        } else if attr_of(*func) == Some("arange"@) || attr_of(*func) == Some("program_id"@) {
            i64_bty()
        } else {
            f32_bty()
        },
        _ => f32_bty(),
    }
}

/// The values at the kept axes.
pub open spec fn kept(steps: Seq<ReshapeStep>, idx: Seq<ValRef>, n: nat) -> Seq<ValRef>
    decreases n,
{
    if n == 0 || n > steps.len() || n > idx.len() {
        Seq::empty()
    } else if steps[n - 1] == ReshapeStep::Keep {
        kept(steps, idx, (n - 1) as nat).push(idx[n - 1])
    } else {
        kept(steps, idx, (n - 1) as nat)
    }
}

pub open spec fn least(a: nat, b: nat) -> nat {
    if a < b {
        a
    } else {
        b
    }
}

fn kept_axes(steps: &Vec<ReshapeStep>, idx: &Vec<ValRef>) -> (r: Vec<ValRef>)
    ensures
        r@ == kept(steps@, idx@, least(steps@.len(), idx@.len())),
{
    let n: usize = if steps.len() < idx.len() {
        steps.len()
    } else {
        idx.len()
    };
    let mut r: Vec<ValRef> = Vec::new();
    let mut i: usize = 0;
    while i < n
        invariant
            i <= n,
            n <= steps@.len(),
            n <= idx@.len(),
            r@ == kept(steps@, idx@, i as nat),
        decreases n - i,
    {
        if steps[i] == ReshapeStep::Keep {
            r.push(idx[i]);
        }
        i = i + 1;
    }
    r
}

/// The leading values that an expression of a rank looks at.
pub open spec fn leading(idx: Seq<ValRef>, shape: TileTyV) -> Seq<ValRef> {
    let rank = match rank_of(shape) {
        Some(r) => r as int,
        None => 0,
    };
    if idx.len() > rank {
        idx.take(rank)
    } else {
        idx
    }
}

fn leading_of(idx: &Vec<ValRef>, shape: &TileTy) -> (r: Vec<ValRef>)
    ensures
        r@ == leading(idx@, shape@),
{
    let rank: usize = match shape.rank() {
        Some(r) => r as usize,
        None => 0,
    };
    if idx.len() > rank {
        prefix(idx, rank)
    } else {
        copy_refs(idx)
    }
}

/// The value of the first keyword argument of a name, from index `i` on.
pub open spec fn keyword_from(kws: Seq<Keyword>, name: Seq<char>, i: nat) -> Option<nat>
    decreases kws.len() - i,
{
    if i >= kws.len() {
        None
    } else if spec_is_keyword(kws[i as int], name) {
        Some(i)
    } else {
        keyword_from(kws, name, i + 1)
    }
}

pub open spec fn keyword_at(kws: Seq<Keyword>, name: Seq<char>) -> Option<nat> {
    keyword_from(kws, name, 0)
}

proof fn lemma_keyword_from(kws: Seq<Keyword>, name: Seq<char>, i: nat)
    ensures
        keyword_from(kws, name, i) matches Some(k) ==> k < kws.len(),
    decreases kws.len() - i,
{
    if i < kws.len() {
        lemma_keyword_from(kws, name, i + 1);
    }
}

fn find_keyword(kws: &Vec<Keyword>, name: &str) -> (r: Option<usize>)
    ensures
        match r {
            Some(k) => keyword_at(kws@, name@) == Some(k as nat) && k < kws@.len(),
            None => keyword_at(kws@, name@) is None,
        },
{
    let mut i: usize = 0;
    while i < kws.len()
        invariant
            i <= kws@.len(),
            keyword_at(kws@, name@) == keyword_from(kws@, name@, i as nat),
        decreases kws@.len() - i,
    {
        if is_keyword(&kws[i], name) {
            return Some(i);
        }
        i = i + 1;
    }
    None
}

/// The names that an assignment binds, if each target is one.
pub open spec fn target_names(ts: Seq<Expr>, n: nat) -> Option<Seq<Seq<char>>>
    decreases n,
{
    if n == 0 || n > ts.len() {
        Some(Seq::empty())
    } else {
        match (target_names(ts, (n - 1) as nat), ts[n - 1]) {
            (Some(v), Expr::Name { name, span }) => Some(v.push(name@)),
            _ => None,
        }
    }
}

proof fn lemma_targets_none(ts: Seq<Expr>, i: nat, n: nat)
    requires
        i <= n <= ts.len(),
        target_names(ts, i) is None,
    ensures
        target_names(ts, n) is None,
    decreases n,
{
    if i < n {
        lemma_targets_none(ts, i, (n - 1) as nat);
    }
}

fn assign_target_names(ts: &Vec<Expr>) -> (r: Option<Vec<String>>)
    ensures
        match r {
            Some(v) => target_names(ts@, ts@.len()) == Some(names_view(v@)),
            None => target_names(ts@, ts@.len()) is None,
        },
{
    let mut v: Vec<String> = Vec::new();
    let mut i: usize = 0;
    assert(names_view(v@) =~= Seq::empty());
    while i < ts.len()
        invariant
            i <= ts@.len(),
            target_names(ts@, i as nat) == Some(names_view(v@)),
        decreases ts@.len() - i,
    {
        match &ts[i] {
            Expr::Name { name, .. } => {
                push_name(&mut v, name.as_str());
            },
            _ => {
                proof {
                    lemma_targets_none(ts@, i as nat + 1, ts@.len());
                }
                return None;
            },
        }
        i = i + 1;
    }
    Some(v)
}

/// The dimensions of a tile.
pub open spec fn tile_dims_of(shape: TileTyV) -> Seq<DimV> {
    match shape {
        TileTyV::Rank1(d) => seq![d],
        TileTyV::Rank2(a, b) => seq![a, b],
        _ => Seq::empty(),
    }
}

fn tile_dims(shape: &TileTy) -> (r: Vec<Dim>)
    ensures
        dims_view(r@) == tile_dims_of(shape@),
{
    let mut r: Vec<Dim> = Vec::new();
    match shape {
        TileTy::Rank1(d) => {
            r.push(d.copy());
        },
        TileTy::Rank2(a, b) => {
            r.push(a.copy());
            r.push(b.copy());
        },
        _ => {},
    }
    assert(dims_view(r@) =~= tile_dims_of(shape@));
    r
}

fn one_dim(d: &Dim) -> (r: Vec<Dim>)
    ensures
        dims_view(r@) == seq![d@],
{
    let mut r: Vec<Dim> = Vec::new();
    r.push(d.copy());
    assert(dims_view(r@) =~= seq![d@]);
    r
}

fn pair(a: ValRef, b: ValRef) -> (r: Vec<ValRef>)
    ensures
        r@ == seq![a, b],
{
    let mut r: Vec<ValRef> = Vec::new();
    r.push(a);
    r.push(b);
    assert(r@ =~= seq![a, b]);
    r
}

fn no_refs() -> (r: Vec<ValRef>)
    ensures
        r@ == Seq::<ValRef>::empty(),
{
    let r: Vec<ValRef> = Vec::new();
    assert(r@ =~= Seq::<ValRef>::empty());
    r
}

/// The name of a binary operator.
pub open spec fn op_name(op: BinOp) -> Seq<char> {
    match op {
        BinOp::Add => "Add"@,
        BinOp::Sub => "Sub"@,
        BinOp::Mul => "Mul"@,
        BinOp::Div => "Div"@,
        BinOp::FloorDiv => "FloorDiv"@,
        BinOp::Mod => "Mod"@,
        BinOp::Pow => "Pow"@,
        BinOp::MatMul => "MatMul"@,
        BinOp::BitAnd => "BitAnd"@,
        BinOp::BitOr => "BitOr"@,
        BinOp::BitXor => "BitXor"@,
        BinOp::LShift => "LShift"@,
        BinOp::RShift => "RShift"@,
    }
}

fn op_name_of(op: BinOp) -> (s: &'static str)
    ensures
        s@ == op_name(op),
{
    match op {
        BinOp::Add => "Add",
        BinOp::Sub => "Sub",
        BinOp::Mul => "Mul",
        BinOp::Div => "Div",
        BinOp::FloorDiv => "FloorDiv",
        BinOp::Mod => "Mod",
        BinOp::Pow => "Pow",
        BinOp::MatMul => "MatMul",
        BinOp::BitAnd => "BitAnd",
        BinOp::BitOr => "BitOr",
        BinOp::BitXor => "BitXor",
        BinOp::LShift => "LShift",
        BinOp::RShift => "RShift",
    }
}

/// The name of a comparison.
pub open spec fn relation_name(op: CmpOp) -> Seq<char> {
    match op {
        CmpOp::Eq => "Eq"@,
        CmpOp::NotEq => "NotEq"@,
        CmpOp::Lt => "Lt"@,
        CmpOp::LtE => "LtE"@,
        CmpOp::Gt => "Gt"@,
        CmpOp::GtE => "GtE"@,
        CmpOp::Is => "Is"@,
        CmpOp::IsNot => "IsNot"@,
        CmpOp::In => "In"@,
        CmpOp::NotIn => "NotIn"@,
    }
}

fn relation_name_of(op: CmpOp) -> (s: &'static str)
    ensures
        s@ == relation_name(op),
{
    match op {
        CmpOp::Eq => "Eq",
        CmpOp::NotEq => "NotEq",
        CmpOp::Lt => "Lt",
        CmpOp::LtE => "LtE",
        CmpOp::Gt => "Gt",
        CmpOp::GtE => "GtE",
        CmpOp::Is => "Is",
        CmpOp::IsNot => "IsNot",
        CmpOp::In => "In",
        CmpOp::NotIn => "NotIn",
    }
}

/// The BIR operation of an operator on integers or floats, if it has one.
pub open spec fn arith_of(op: BinOp, float: bool) -> Option<BBin> {
    match op {
        BinOp::Add => Some(
            if float {
                BBin::FAdd
            } else {
                BBin::Add
            },
        ),
        BinOp::Sub => Some(
            if float {
                BBin::FSub
            } else {
                BBin::Sub
            },
        ),
        BinOp::Mul => Some(
            if float {
                BBin::FMul
            } else {
                BBin::Mul
            },
        ),
        BinOp::Div | BinOp::FloorDiv => Some(
            if float {
                BBin::FDiv
            } else {
                BBin::Div
            },
        ),
        BinOp::Mod => Some(
            if float {
                BBin::FRem
            } else {
                BBin::Rem
            },
        ),
        BinOp::BitAnd => if float {
            None
        } else {
            Some(BBin::And)
        },
        BinOp::BitOr => if float {
            None
        } else {
            Some(BBin::Or)
        },
        BinOp::BitXor => if float {
            None
        } else {
            Some(BBin::Xor)
        },
        BinOp::LShift => if float {
            None
        } else {
            Some(BBin::Shl)
        },
        BinOp::RShift => if float {
            None
        } else {
            Some(BBin::Lshr)
        },
        _ => None,
    }
}

fn arith_for(op: BinOp, float: bool) -> (r: Option<BBin>)
    ensures
        r == arith_of(op, float),
{
    match op {
        BinOp::Add => Some(
            if float {
                BBin::FAdd
            } else {
                BBin::Add
            },
        ),
        BinOp::Sub => Some(
            if float {
                BBin::FSub
            } else {
                BBin::Sub
            },
        ),
        BinOp::Mul => Some(
            if float {
                BBin::FMul
            } else {
                BBin::Mul
            },
        ),
        BinOp::Div | BinOp::FloorDiv => Some(
            if float {
                BBin::FDiv
            } else {
                BBin::Div
            },
        ),
        BinOp::Mod => Some(
            if float {
                BBin::FRem
            } else {
                BBin::Rem
            },
        ),
        BinOp::BitAnd => if float {
            None
        } else {
            Some(BBin::And)
        },
        BinOp::BitOr => if float {
            None
        } else {
            Some(BBin::Or)
        },
        BinOp::BitXor => if float {
            None
        } else {
            Some(BBin::Xor)
        },
        BinOp::LShift => if float {
            None
        } else {
            Some(BBin::Shl)
        },
        BinOp::RShift => if float {
            None
        } else {
            Some(BBin::Lshr)
        },
        _ => None,
    }
}

pub open spec fn float_pred(op: CmpOp) -> Option<FCmpPred> {
    match op {
        CmpOp::Eq => Some(FCmpPred::Oeq),
        CmpOp::NotEq => Some(FCmpPred::One),
        CmpOp::Lt => Some(FCmpPred::Olt),
        CmpOp::LtE => Some(FCmpPred::Ole),
        CmpOp::Gt => Some(FCmpPred::Ogt),
        CmpOp::GtE => Some(FCmpPred::Oge),
        _ => None,
    }
}

fn float_pred_of(op: CmpOp) -> (r: Option<FCmpPred>)
    ensures
        r == float_pred(op),
{
    match op {
        CmpOp::Eq => Some(FCmpPred::Oeq),
        CmpOp::NotEq => Some(FCmpPred::One),
        CmpOp::Lt => Some(FCmpPred::Olt),
        CmpOp::LtE => Some(FCmpPred::Ole),
        CmpOp::Gt => Some(FCmpPred::Ogt),
        CmpOp::GtE => Some(FCmpPred::Oge),
        _ => None,
    }
}

pub open spec fn int_pred(op: CmpOp) -> Option<ICmpPred> {
    match op {
        CmpOp::Eq => Some(ICmpPred::Eq),
        CmpOp::NotEq => Some(ICmpPred::Ne),
        CmpOp::Lt => Some(ICmpPred::Slt),
        CmpOp::LtE => Some(ICmpPred::Sle),
        CmpOp::Gt => Some(ICmpPred::Sgt),
        CmpOp::GtE => Some(ICmpPred::Sge),
        _ => None,
    }
}

fn int_pred_of(op: CmpOp) -> (r: Option<ICmpPred>)
    ensures
        r == int_pred(op),
{
    match op {
        CmpOp::Eq => Some(ICmpPred::Eq),
        CmpOp::NotEq => Some(ICmpPred::Ne),
        CmpOp::Lt => Some(ICmpPred::Slt),
        CmpOp::LtE => Some(ICmpPred::Sle),
        CmpOp::Gt => Some(ICmpPred::Sgt),
        CmpOp::GtE => Some(ICmpPred::Sge),
        _ => None,
    }
}

pub open spec fn cell_address(slot: u32) -> i64 {
    (slot * SLOT_STRIDE) as i64
}

fn cell_address_of(slot: u32) -> (r: i64)
    ensures
        r == cell_address(slot),
{
    (slot as i64) * SLOT_STRIDE
}

pub open spec fn tile_offset(ordinal: u32) -> i64 {
    (SCRATCH_BASE_BYTES + ordinal * TILE_STRIDE) as i64
}

fn tile_offset_of(ordinal: u32) -> (r: i64)
    ensures
        r == tile_offset(ordinal),
{
    SCRATCH_BASE_BYTES + (ordinal as i64) * TILE_STRIDE
}

/// What the parameters of a kernel leave to do once its entry block is open: the constants to
/// store, the parameters to store, and the types of the parameters.
pub struct Pending {
    pub inits: Vec<(VarSlot, i64)>,
    pub stores: Vec<(VarSlot, u32)>,
    pub params: Vec<BTy>,
}

/// The model of what the parameters leave to do.
pub struct PendingV {
    pub inits: Seq<(VarV, i64)>,
    pub stores: Seq<(VarV, u32)>,
    pub params: Seq<BTy>,
}

impl View for Pending {
    type V = PendingV;

    open spec fn view(&self) -> PendingV {
        PendingV {
            inits: self.inits@.map_values(|p: (VarSlot, i64)| (p.0@, p.1)),
            stores: self.stores@.map_values(|p: (VarSlot, u32)| (p.0@, p.1)),
            params: self.params@,
        }
    }
}

pub open spec fn no_pending() -> PendingV {
    PendingV { inits: Seq::empty(), stores: Seq::empty(), params: Seq::empty() }
}

/// A 64-bit constant.
#[verifier::opaque]
pub open spec fn const_i64_s(st: TlState, v: i64) -> (TlState, ValRef)
{
    push_s(st, BTy::Scalar(Scalar::I64), OpV::ConstInt(v))
}

/// A zero of a type.
#[verifier::opaque]
pub open spec fn zero_of_s(st: TlState, ty: BTy) -> (TlState, ValRef)
{
    if float_bty(ty) {
        push_s(st, ty, OpV::ConstFloat(float_zero()))
    } else {
        push_s(st, ty, OpV::ConstInt(0))
    }
}

/// The pointer that tiles live behind.
#[verifier::opaque]
pub open spec fn scratch_base_ptr_s(st: TlState, span: Span) -> (TlState, ValRef)
{
    match st.scratch {
        Some(idx) => {
            (st, ValRef::Param(idx))
        },
        None => {
            let st = diag_s(
                st,
                span,
                "tile materialization with no pointer parameter to carve scratch space from"@,
                "this kernel has no pointer-typed parameter at all"@,
            );
            const_i64_s(st, 0)
        },
    }
}

/// The address of a cell.
#[verifier::opaque]
pub open spec fn synthetic_addr_s(st: TlState, slot: u32, space: AddrSpace) -> (TlState, ValRef)
{
    push_s(st, BTy::Ptr(space), OpV::ConstInt(cell_address(slot)))
}

/// The value of a name that is in a cell.
#[verifier::opaque]
pub open spec fn load_scalar_s(st: TlState, v: VarV) -> (TlState, ValRef)
{
    match v.storage {
        Storage::Synthetic { slot, space } => {
            let (st, addr) = synthetic_addr_s(st, slot, space);
            push_s(
                st,
                v.elem_bty,
                OpV::Load { ptr: addr, space, align: alignment(v.elem_bty), volatile: false },
            )
        },
        Storage::Scratch { .. } => {
            const_i64_s(st, 0)
        },
    }
}

/// Stores a value in the cell of a name.
#[verifier::opaque]
pub open spec fn store_scalar_s(st: TlState, v: VarV, val: ValRef) -> TlState
{
    match v.storage {
        Storage::Synthetic { slot, space } => {
            let (st, addr) = synthetic_addr_s(st, slot, space);
            push_void_s(
                st,
                OpV::Store {
                    ptr: addr,
                    val,
                    ty: v.elem_bty,
                    space,
                    align: alignment(v.elem_bty),
                    volatile: false,
                },
            )
        },
        Storage::Scratch { .. } => {
            st
        },
    }
}

/// The index of an element of a tile, row by row. A tile without an index for each axis has none.
#[verifier::opaque]
pub open spec fn linear_index_s(
    st: TlState,
    v: VarV,
    idx: Seq<ValRef>,
    span: Span,
) -> (TlState, ValRef)
{
    if idx.len() == 1 {
        (st, idx[0])
    } else if idx.len() == 2 && v.dims.len() == 2 {
        let (st, scaled) = push_s(
            st,
            BTy::Scalar(Scalar::I64),
            OpV::Bin(BBin::Mul, idx[0], v.dims[1]),
        );
        push_s(st, BTy::Scalar(Scalar::I64), OpV::Bin(BBin::Add, scaled, idx[1]))
    } else {
        let st = diag_s(st, span, "tile used where a scalar is required"@, "not supported"@);
        const_i64_s(st, 0)
    }
}

/// The address of an element of a tile.
#[verifier::opaque]
pub open spec fn tile_elem_addr_s(
    st: TlState,
    v: VarV,
    idx: Seq<ValRef>,
    span: Span,
) -> (TlState, ValRef)
{
    match v.storage {
        Storage::Scratch { ordinal } => {
            let (st, scratch) = scratch_base_ptr_s(st, span);
            let (st, tile_off) = const_i64_s(st, tile_offset(ordinal));
            let (st, base) = push_s(
                st,
                BTy::Ptr(AddrSpace::Global),
                OpV::Bin(BBin::Add, scratch, tile_off),
            );
            let (st, lin) = linear_index_s(st, v, idx, span);
            let (st, elem_bytes) = const_i64_s(st, width_of(v.elem_bty));
            let (st, byte_off) = push_s(
                st,
                BTy::Scalar(Scalar::I64),
                OpV::Bin(BBin::Mul, lin, elem_bytes),
            );
            push_s(st, BTy::Ptr(AddrSpace::Global), OpV::Bin(BBin::Add, base, byte_off))
        },
        Storage::Synthetic { slot, space } => {
            synthetic_addr_s(st, slot, space)
        },
    }
}

/// The extent of a dimension.
#[verifier::opaque]
pub open spec fn resolve_dim_s(st: TlState, d: DimV, span: Span) -> (TlState, ValRef)
{
    match d {
        DimV::Const(n) => {
            const_i64_s(st, n)
        },
        DimV::Symbolic(name) => {
            let found = match var_of(st, name) {
                Some(v) => if v.shape is Scalar { Some(v) } else { None },
                None => None,
            };
            match found {
                Some(v) => {
                    load_scalar_s(st, v)
                },
                None => {
                    let st = diag_s(
                        st,
                        span,
                        "symbolic tile dimension '"@ + name + "'"@,
                        "not a bare constexpr parameter name this pass can resolve to a runtime value (a compound dimension expression is not re-evaluated)"@,
                    );
                    const_i64_s(st, 1)
                },
            }
        },
    }
}

/// Opens a loop for each of the first `n` dimensions, one inside the other.
pub open spec fn open_tile_loop_s(
    st: TlState,
    dims: Seq<DimV>,
    n: nat,
    span: Span,
) -> (TlState, LoopsV)
    decreases n,
{
    if n == 0 || n > dims.len() {
        (st, LoopsV { idx: Seq::empty(), bounds: Seq::empty(), levels: Seq::empty() })
    } else {
        let (st, l) = open_tile_loop_s(st, dims, (n - 1) as nat, span);
        let (st, bound) = resolve_dim_s(st, dims[n - 1], span);
        let (st, ctr_slot) = new_slot_id_s(st);
        let ctr_vs = scalar_var(ctr_slot, AddrSpace::Local, Elem::Int, BTy::Scalar(Scalar::I64));
        let (st, zero) = const_i64_s(st, 0);
        let st = store_scalar_s(st, ctr_vs, zero);
        let (st, cond_bb) = alloc_block_s(st);
        let (st, body_bb) = alloc_block_s(st);
        let (st, step_bb) = alloc_block_s(st);
        let (st, exit_bb) = alloc_block_s(st);
        let st = terminate_s(st, TermV::Br(cond_bb));
        let st = set_cur_s(st, cond_bb);
        let (st, iv) = load_scalar_s(st, ctr_vs);
        let (st, less) = push_s(
            st,
            BTy::Scalar(Scalar::I1),
            OpV::ICmp(ICmpPred::Slt, BTy::Scalar(Scalar::I64), iv, bound),
        );
        let st = terminate_s(st, TermV::CondBr(less, body_bb, exit_bb));
        let st = set_cur_s(st, body_bb);
        (
            st,
            LoopsV {
                idx: l.idx.push(iv),
                bounds: l.bounds.push(bound),
                levels: l.levels.push(LoopLevel { cond_bb, step_bb, exit_bb, ctr_slot }),
            },
        )
    }
}

/// Closes the first `n` of a list of loops, innermost first.
pub open spec fn close_tile_loop_s(st: TlState, levels: Seq<LoopLevel>, n: nat) -> TlState
    decreases n,
{
    if n > 0 && n <= levels.len() {
        let lvl = levels[n - 1];
        let st = terminate_s(st, TermV::Br(lvl.step_bb));
        let st = set_cur_s(st, lvl.step_bb);
        let ctr_vs = scalar_var(
            lvl.ctr_slot,
            AddrSpace::Local,
            Elem::Int,
            BTy::Scalar(Scalar::I64),
        );
        let (st, iv) = load_scalar_s(st, ctr_vs);
        let (st, one) = const_i64_s(st, 1);
        let (st, next) = push_s(st, BTy::Scalar(Scalar::I64), OpV::Bin(BBin::Add, iv, one));
        let st = store_scalar_s(st, ctr_vs, next);
        let st = terminate_s(st, TermV::Br(lvl.cond_bb));
        let st = set_cur_s(st, lvl.exit_bb);
        close_tile_loop_s(st, levels, (n - 1) as nat) } else { st }
}

/// The cell of a name, a new one if it has none.
#[verifier::opaque]
pub open spec fn get_or_new_scalar_var_s(
    st: TlState,
    name: Seq<char>,
    elem_bty: BTy,
) -> (TlState, VarV)
{
    let found = match var_of(st, name) {
        Some(v) => if v.shape is Scalar { Some(v) } else { None },
        None => None,
    };
    match found {
        Some(v) => {
            let v2 = VarV { elem_bty, ..v };
            let st = bind_s(st, name, v2);
            (st, v2)
        },
        None => {
            let (st, slot) = new_slot_id_s(st);
            let vs = scalar_var(slot, AddrSpace::Local, Elem::Unknown, elem_bty);
            let st = bind_s(st, name, vs);
            (st, vs)
        },
    }
}

/// The tile of a name: its own if it has one of this rank, else a new one.
#[verifier::opaque]
pub open spec fn get_or_new_tile_var_s(
    st: TlState,
    name: Seq<char>,
    shape: TileTyV,
    elem_bty: BTy,
    dims: Seq<ValRef>,
) -> (TlState, VarV)
{
    let found = match var_of(st, name) {
        Some(v) => if rank_of(v.shape) == rank_of(shape) { Some(v) } else { None },
        None => None,
    };
    match found {
        Some(v) => {
            let v2 = VarV { storage: v.storage, shape, elem_bty, dims };
            let st = bind_s(st, name, v2);
            (st, v2)
        },
        None => {
            let (st, ordinal) = new_tile_ordinal_s(st);
            let vs = VarV { storage: Storage::Scratch { ordinal }, shape, elem_bty, dims };
            let st = bind_s(st, name, vs);
            (st, vs)
        },
    }
}

/// A binary operation on two values.
#[verifier::opaque]
pub open spec fn apply_binop_s(
    st: TlState,
    op: BinOp,
    l: ValRef,
    r2: ValRef,
    bty: BTy,
    span: Span,
) -> (TlState, ValRef)
{
    if (bty is Ptr) {
        if op == BinOp::Add {
            push_s(st, bty, OpV::Bin(BBin::Add, l, r2))
        } else if op == BinOp::Sub {
            push_s(st, bty, OpV::Bin(BBin::Sub, l, r2))
        } else {
            let st = diag_s(
                st,
                span,
                "binary operator "@ + op_name(op) + " on a pointer-typed tile"@,
                "only '+' and '-' are supported for address arithmetic"@,
            );
            push_s(st, bty, OpV::ConstInt(0))
        }
    } else {
        let is_float = float_bty(bty);
        let out_bty = if is_float { BTy::Scalar(Scalar::F32) } else { BTy::Scalar(Scalar::I64) };
        match arith_of(op, is_float) {
            Some(b) => {
                push_s(st, out_bty, OpV::Bin(b, l, r2))
            },
            None => {
                let st = diag_s(
                    st,
                    span,
                    "binary operator "@ + op_name(op),
                    "not supported by tile lowering in this element context"@,
                );
                push_s(st, out_bty, OpV::ConstInt(0))
            },
        }
    }
}

/// A comparison of two values.
#[verifier::opaque]
pub open spec fn apply_relation_s(
    st: TlState,
    op: CmpOp,
    l: ValRef,
    r2: ValRef,
    is_float: bool,
    span: Span,
) -> (TlState, ValRef)
{
    if is_float {
        match float_pred(op) {
            Some(p) => {
                push_s(st, BTy::Scalar(Scalar::I1), OpV::FCmp(p, BTy::Scalar(Scalar::F32), l, r2))
            },
            None => {
                let st = diag_s(
                    st,
                    span,
                    "comparison operator "@ + relation_name(op),
                    "not supported"@,
                );
                push_s(st, BTy::Scalar(Scalar::I1), OpV::ConstInt(0))
            },
        }
    } else {
        match int_pred(op) {
            Some(p) => {
                push_s(st, BTy::Scalar(Scalar::I1), OpV::ICmp(p, BTy::Scalar(Scalar::I64), l, r2))
            },
            None => {
                let st = diag_s(
                    st,
                    span,
                    "comparison operator "@ + relation_name(op),
                    "not supported"@,
                );
                push_s(st, BTy::Scalar(Scalar::I1), OpV::ConstInt(0))
            },
        }
    }
}

/// A value times the width of an element.
#[verifier::opaque]
pub open spec fn scale_by_elem_bytes_s(st: TlState, v: ValRef) -> (TlState, ValRef)
{
    let (st, bytes) = const_i64_s(st, DATA_ELEM_BYTES);
    push_s(st, BTy::Scalar(Scalar::I64), OpV::Bin(BBin::Mul, v, bytes))
}

/// The comparisons of a chain from index `i` on, joined to what those before gave.
pub open spec fn eval_chain_s(
    st: TlState,
    ops: Seq<CmpOp>,
    es: Seq<Expr>,
    i: nat,
    prev: ValRef,
    acc: Option<ValRef>,
    is_float: bool,
    idx: Seq<ValRef>,
    span: Span,
) -> (TlState, Option<ValRef>)
    decreases es, es.len() - i,
{
    if i < ops.len() && i < es.len() {
        let (st, rv) = eval_expr_s(st, es[i as int], idx);
        let (st, c) = apply_relation_s(st, ops[i as int], prev, rv, is_float, span);
        let (st, next) = match acc {
            None => {
                (st, c)
            },
            Some(a) => {
                push_s(st, BTy::Scalar(Scalar::I1), OpV::Bin(BBin::And, a, c))
            },
        };
        eval_chain_s(st, ops, es, i + 1, rv, Some(next), is_float, idx, span) } else { (st, acc) }
}

/// The value of an expression at a position of the enclosing loops, one value for each of their
/// axes.
pub open spec fn eval_expr_s(st: TlState, e: Expr, outer: Seq<ValRef>) -> (TlState, ValRef)
    decreases e, 9nat,
{
    let idx = leading(outer, shape_in(st, e));
    match e {
        Expr::Name { name, span } => {
            match var_of(st, name@) {
                Some(v) => {
                    if (v.shape is Scalar) {
                        load_scalar_s(st, v)
                    } else {
                        let (st, addr) = tile_elem_addr_s(st, v, idx, span);
                        push_s(
                            st,
                            v.elem_bty,
                            OpV::Load {
                                ptr: addr,
                                space: AddrSpace::Global,
                                align: alignment(v.elem_bty),
                                volatile: false,
                            },
                        )
                    }
                },
                None => {
                    let st = diag_s(
                        st,
                        span,
                        "reference to undefined name '"@ + name@ + "'"@,
                        "cannot lower"@,
                    );
                    const_i64_s(st, 0)
                },
            }
        },
        Expr::IntLit { span, .. } => {
            match literal_of(e) {
                Some(v) => {
                    const_i64_s(st, v)
                },
                None => {
                    let st = diag_s(st, span, "integer literal"@, "could not be parsed"@);
                    const_i64_s(st, 0)
                },
            }
        },
        Expr::FloatLit { value, span } => {
            match value {
                Some(v) => {
                    push_s(st, BTy::Scalar(Scalar::F32), OpV::ConstFloat(v))
                },
                None => {
                    let st = diag_s(st, span, "float literal"@, "could not be parsed"@);
                    push_s(st, BTy::Scalar(Scalar::F32), OpV::ConstFloat(float_zero()))
                },
            }
        },
        Expr::BoolLit { value, .. } => {
            if value {
                push_s(st, BTy::Scalar(Scalar::I1), OpV::ConstInt(1))
            } else {
                push_s(st, BTy::Scalar(Scalar::I1), OpV::ConstInt(0))
            }
        },
        Expr::UnaryOp { op, operand, span } => {
            let is_float = float_bty(elem_in(st, *operand));
            let (st, v) = eval_expr_s(st, *operand, idx);
            match op {
                UnaryOp::UAdd => {
                    (st, v)
                },
                UnaryOp::USub => {
                    if is_float {
                        let (st, zero) = push_s(
                            st,
                            BTy::Scalar(Scalar::F32),
                            OpV::ConstFloat(float_zero()),
                        );
                        apply_binop_s(st, BinOp::Sub, zero, v, BTy::Scalar(Scalar::F32), span)
                    } else {
                        let (st, zero) = const_i64_s(st, 0);
                        apply_binop_s(st, BinOp::Sub, zero, v, BTy::Scalar(Scalar::I64), span)
                    }
                },
                UnaryOp::Not => {
                    let (st, one) = push_s(st, BTy::Scalar(Scalar::I1), OpV::ConstInt(1));
                    push_s(st, BTy::Scalar(Scalar::I1), OpV::Bin(BBin::Xor, v, one))
                },
                UnaryOp::Invert => {
                    let (st, neg1) = const_i64_s(st, MINUS_ONE);
                    push_s(st, BTy::Scalar(Scalar::I64), OpV::Bin(BBin::Xor, v, neg1))
                },
            }
        },
        Expr::BinOp { op, lhs, rhs, span } => {
            let bty = elem_in(st, e);
            let lbty = elem_in(st, *lhs);
            let rbty = elem_in(st, *rhs);
            let (st, l0) = eval_expr_s(st, *lhs, idx);
            let (st, r0) = eval_expr_s(st, *rhs, idx);
            let (st, l) = if (bty is Ptr) && !(lbty is Ptr) {
                scale_by_elem_bytes_s(st, l0)
            } else {
                (st, l0)
            };
            let (st, r2) = if (bty is Ptr) && !(rbty is Ptr) {
                scale_by_elem_bytes_s(st, r0)
            } else {
                (st, r0)
            };
            apply_binop_s(st, op, l, r2, bty, span)
        },
        Expr::Compare { left, ops, comparators, span } => {
            let is_float = float_bty(elem_in(st, *left));
            let (st, first) = eval_expr_s(st, *left, idx);
            let (st, result) = eval_chain_s(
                st,
                ops@,
                comparators@,
                0,
                first,
                None,
                is_float,
                idx,
                span,
            );
            match result {
                Some(v) => {
                    (st, v)
                },
                None => {
                    push_s(st, BTy::Scalar(Scalar::I1), OpV::ConstInt(1))
                },
            }
        },
        Expr::Subscript { value, index, span } => {
            match index_steps(*index) {
                Some(steps) => {
                    let inner = kept(steps, idx, least(steps.len(), idx.len()));
                    eval_expr_s(st, *value, inner)
                },
                None => {
                    let st = diag_s(
                        st,
                        span,
                        "tile subscript other than a '[:, None]'/'[None, :]' reshape"@,
                        "not supported"@,
                    );
                    const_i64_s(st, 0)
                },
            }
        },
        Expr::Call { .. } => {
            eval_call_s(st, e, idx)
        },
        _ => {
            let st = diag_s(
                st,
                expr_span(e),
                "expression form"@,
                "not supported by tile lowering"@,
            );
            const_i64_s(st, 0)
        },
    }
}

/// The number of a block of threads along an axis.
#[verifier::opaque]
pub open spec fn program_id_s(st: TlState, args: Seq<Expr>, span: Span) -> (TlState, ValRef)
{
    let axis: i64 = if args.len() > 0 {
        match literal_of(args[0]) { Some(n) => n, None => 0 }
    } else {
        0
    };
    if axis == 0 {
        push_s(st, BTy::Scalar(Scalar::I64), OpV::BidX)
    } else if axis == 1 {
        push_s(st, BTy::Scalar(Scalar::I64), OpV::BidY)
    } else if axis == 2 {
        push_s(st, BTy::Scalar(Scalar::I64), OpV::BidZ)
    } else {
        let st = diag_s(st, span, "'tl.program_id' axis"@, "must be 0, 1, or 2"@);
        const_i64_s(st, 0)
    }
}

/// The value of a call at a position.
pub open spec fn eval_call_s(st: TlState, e: Expr, idx: Seq<ValRef>) -> (TlState, ValRef)
    decreases e, 8nat,
{
    match e {
        Expr::Call { func, args, keywords, span } => {
            if (attr_of(*func) == Some("arange"@)) {
                if args@.len() != 2 || idx.len() != 1 {
                    let st = diag_s(
                        st,
                        span,
                        "'tl.arange' in an unexpected context"@,
                        "expected exactly two arguments in a rank-1 context"@,
                    );
                    const_i64_s(st, 0)
                } else {
                    let (st, lo) = eval_expr_s(st, args@[0], Seq::<ValRef>::empty());
                    push_s(st, BTy::Scalar(Scalar::I64), OpV::Bin(BBin::Add, lo, idx[0]))
                }
            } else if (attr_of(*func) == Some("load"@)) {
                eval_masked_load_s(st, e, idx)
            } else if (attr_of(*func) == Some("program_id"@)) {
                program_id_s(st, args@, span)
            } else if (attr_of(*func) == Some("zeros"@)) {
                zero_of_s(st, zeros_ty(keywords@))
            } else if (attr_of(*func) == Some("dot"@)) {
                let st = diag_s(
                    st,
                    span,
                    "'tl.dot' used somewhere other than directly as an assignment's right-hand side"@,
                    "not supported"@,
                );
                const_i64_s(st, 0)
            } else {
                let st = diag_s(
                    st,
                    span,
                    "call"@,
                    "unrecognized or unsupported callee in tile lowering"@,
                );
                const_i64_s(st, 0)
            }
        },
        _ => {
            const_i64_s(st, 0)
        },
    }
}

/// A load, by way of a cell. Where there is a mask, the address is only touched where the mask
/// holds; elsewhere the value is `other`, or zero.
pub open spec fn eval_masked_load_s(st: TlState, e: Expr, idx: Seq<ValRef>) -> (TlState, ValRef)
    decreases e, 7nat,
{
    match e {
        Expr::Call { args, keywords, span, .. } => {
            if args@.len() == 0 {
                let st = diag_s(st, span, "'tl.load' with no pointer argument"@, "cannot lower"@);
                const_i64_s(st, 0)
            } else {
                let (st, ptr_val) = eval_expr_s(st, args@[0], idx);
                let (st, tmp_slot) = new_slot_id_s(st);
                let tmp_vs = scalar_var(
                    tmp_slot,
                    AddrSpace::Local,
                    Elem::Float,
                    BTy::Scalar(Scalar::F32),
                );
                let mask = keyword_at(keywords@, "mask"@);
                let st = match mask {
                    None => {
                        let (st, v) = push_s(
                            st,
                            BTy::Scalar(Scalar::F32),
                            OpV::Load {
                                ptr: ptr_val,
                                space: AddrSpace::Global,
                                align: alignment(BTy::Scalar(Scalar::F32)),
                                volatile: false,
                            },
                        );
                        store_scalar_s(st, tmp_vs, v)
                    },
                    Some(k) => {
                        let (st, mask_val) = if k < keywords@.len() {
                            eval_expr_s(st, keywords@[k as int].value, idx)
                        } else {
                            const_i64_s(st, 0)
                        };
                        let (st, load_bb) = alloc_block_s(st);
                        let (st, other_bb) = alloc_block_s(st);
                        let (st, merge_bb) = alloc_block_s(st);
                        let st = terminate_s(st, TermV::CondBr(mask_val, load_bb, other_bb));
                        let st = set_cur_s(st, load_bb);
                        let (st, v) = push_s(
                            st,
                            BTy::Scalar(Scalar::F32),
                            OpV::Load {
                                ptr: ptr_val,
                                space: AddrSpace::Global,
                                align: alignment(BTy::Scalar(Scalar::F32)),
                                volatile: false,
                            },
                        );
                        let st = store_scalar_s(st, tmp_vs, v);
                        let st = terminate_s(st, TermV::Br(merge_bb));
                        let st = set_cur_s(st, other_bb);
                        let other = keyword_at(keywords@, "other"@);
                        let (st, ov) = match other {
                            Some(j) => {
                                if j < keywords@.len() {
                                    eval_expr_s(st, keywords@[j as int].value, idx)
                                } else {
                                    const_i64_s(st, 0)
                                }
                            },
                            None => {
                                zero_of_s(st, BTy::Scalar(Scalar::F32))
                            },
                        };
                        let st = store_scalar_s(st, tmp_vs, ov);
                        let st = terminate_s(st, TermV::Br(merge_bb));
                        set_cur_s(st, merge_bb)
                    },
                };
                load_scalar_s(st, tmp_vs)
            }
        },
        _ => {
            const_i64_s(st, 0)
        },
    }
}

/// Stores one value in the cells of the first `n` names.
pub open spec fn store_names_s(
    st: TlState,
    names: Seq<Seq<char>>,
    n: nat,
    bty: BTy,
    v: ValRef,
) -> TlState
    decreases n,
{
    let st = if n > 0 && n <= names.len() {
        let st = store_names_s(st, names, (n - 1) as nat, bty, v);
        let (st, vs) = get_or_new_scalar_var_s(st, names[n - 1], bty);
        store_scalar_s(st, vs, v)
    } else { st };
    st
}

/// Fills the tile of a name, element by element.
#[verifier::opaque]
pub open spec fn lower_tile_materialize_s(
    st: TlState,
    name: Seq<char>,
    value: Expr,
    shape: TileTyV,
    span: Span,
) -> TlState
{
    let elem_bty = elem_in(st, value);
    let (st, l) = open_tile_loop_s(st, tile_dims_of(shape), tile_dims_of(shape).len(), span);
    let (st, vs) = get_or_new_tile_var_s(st, name, shape, elem_bty, l.bounds);
    let (st, val) = eval_expr_s(st, value, l.idx);
    let (st, addr) = tile_elem_addr_s(st, vs, l.idx, span);
    let st = push_void_s(
        st,
        OpV::Store {
            ptr: addr,
            val,
            ty: elem_bty,
            space: AddrSpace::Global,
            align: alignment(elem_bty),
            volatile: false,
        },
    );
    close_tile_loop_s(st, l.levels, l.levels.len())
}

/// Fills the tiles of the first `n` names.
pub open spec fn materialize_names_s(
    st: TlState,
    names: Seq<Seq<char>>,
    n: nat,
    value: Expr,
    shape: TileTyV,
    span: Span,
) -> TlState
    decreases n,
{
    let st = if n > 0 && n <= names.len() {
        let st = materialize_names_s(st, names, (n - 1) as nat, value, shape, span);
        lower_tile_materialize_s(st, names[n - 1], value, shape, span)
    } else { st };
    st
}

/// `name = tl.dot(a, b, acc)`: for each element the sum over the inner dimension, from `acc` or
/// zero.
#[verifier::opaque]
pub open spec fn lower_dot_stmt_s(
    st: TlState,
    name: Seq<char>,
    args: Seq<Expr>,
    span: Span,
) -> TlState
{
    if args.len() < 2 {
        diag_s(
            st,
            span,
            "'tl.dot' called with fewer than two arguments"@,
            "expected (a, b) or (a, b, acc)"@,
        )
    } else {
        let a_shape = shape_in(st, args[0]);
        let b_shape = shape_in(st, args[1]);
        match a_shape {
            TileTyV::Rank2(m, k1) => {
                match b_shape {
                    TileTyV::Rank2(k2, n) => {
                        if k1 != k2 {
                            diag_s(
                                st,
                                span,
                                "'tl.dot' inner dimension mismatch"@,
                                dim_text(k1) + " vs "@ + dim_text(k2),
                            )
                        } else {
                            dot_loops_s(st, name, args, m, k1, n, span)
                        }
                    },
                    _ => {
                        diag_s(
                            st,
                            span,
                            "'tl.dot' second argument"@,
                            "must be a rank-2 tile"@,
                        )
                    },
                }
            },
            _ => {
                diag_s(st, span, "'tl.dot' first argument"@, "must be a rank-2 tile"@)
            },
        }
    }
}

/// The sum over the inner dimension of a matrix product at a row and a column, from `init`.
#[verifier::opaque]
pub open spec fn dot_sum_s(
    st: TlState,
    a: Expr,
    b: Expr,
    k: DimV,
    row: ValRef,
    column: ValRef,
    init: ValRef,
    span: Span,
) -> (TlState, ValRef)
{
    let (st, sum_slot) = new_slot_id_s(st);
    let sum_vs = scalar_var(sum_slot, AddrSpace::Local, Elem::Float, BTy::Scalar(Scalar::F32));
    let st = store_scalar_s(st, sum_vs, init);
    let (st, lk) = open_tile_loop_s(st, seq![k], 1, span);
    let at = lk.idx[0];
    let (st, a_val) = eval_expr_s(st, a, seq![row, at]);
    let (st, b_val) = eval_expr_s(st, b, seq![at, column]);
    let (st, prod) = push_s(st, BTy::Scalar(Scalar::F32), OpV::Bin(BBin::FMul, a_val, b_val));
    let (st, cur_sum) = load_scalar_s(st, sum_vs);
    let (st, new_sum) = push_s(st, BTy::Scalar(Scalar::F32), OpV::Bin(BBin::FAdd, cur_sum, prod));
    let st = store_scalar_s(st, sum_vs, new_sum);
    let st = close_tile_loop_s(st, lk.levels, lk.levels.len());
    load_scalar_s(st, sum_vs)
}

/// The loops of a matrix product.
#[verifier::opaque]
pub open spec fn dot_loops_s(
    st: TlState,
    name: Seq<char>,
    args: Seq<Expr>,
    m: DimV,
    k: DimV,
    n: DimV,
    span: Span,
) -> TlState
{
    let out_shape = TileTyV::Rank2(m, n);
    let (st, l) = open_tile_loop_s(st, tile_dims_of(out_shape), 2, span);
    let (st, dest) = get_or_new_tile_var_s(st, name, out_shape, BTy::Scalar(Scalar::F32), l.bounds);
    let (st, init) = if args.len() > 2 {
        eval_expr_s(st, args[2], l.idx)
    } else {
        zero_of_s(st, BTy::Scalar(Scalar::F32))
    };
    let (st, sum) = dot_sum_s(st, args[0], args[1], k, l.idx[0], l.idx[1], init, span);
    let (st, addr) = tile_elem_addr_s(st, dest, l.idx, span);
    let st = push_void_s(
        st,
        OpV::Store {
            ptr: addr,
            val: sum,
            ty: BTy::Scalar(Scalar::F32),
            space: AddrSpace::Global,
            align: alignment(BTy::Scalar(Scalar::F32)),
            volatile: false,
        },
    );
    close_tile_loop_s(st, l.levels, l.levels.len())
}

/// A store at a position, where its mask holds if it has one.
#[verifier::opaque]
pub open spec fn store_element_s(
    st: TlState,
    addr: ValRef,
    val: ValRef,
    bty: BTy,
    mask: Option<ValRef>,
) -> TlState
{
    match mask {
        None => {
            push_void_s(
                st,
                OpV::Store {
                    ptr: addr,
                    val,
                    ty: bty,
                    space: AddrSpace::Global,
                    align: alignment(bty),
                    volatile: false,
                },
            )
        },
        Some(m) => {
            let (st, store_bb) = alloc_block_s(st);
            let (st, skip_bb) = alloc_block_s(st);
            let (st, merge_bb) = alloc_block_s(st);
            let st = terminate_s(st, TermV::CondBr(m, store_bb, skip_bb));
            let st = set_cur_s(st, store_bb);
            let st = push_void_s(
                st,
                OpV::Store {
                    ptr: addr,
                    val,
                    ty: bty,
                    space: AddrSpace::Global,
                    align: alignment(bty),
                    volatile: false,
                },
            );
            let st = terminate_s(st, TermV::Br(merge_bb));
            let st = set_cur_s(st, skip_bb);
            let st = terminate_s(st, TermV::Br(merge_bb));
            set_cur_s(st, merge_bb)
        },
    }
}

/// `tl.store(pointer, value, mask)`, over the shape of the value.
#[verifier::opaque]
pub open spec fn lower_store_call_s(st: TlState, e: Expr) -> TlState
{
    match e {
        Expr::Call { args, keywords, span, .. } => {
            if args@.len() < 2 {
                diag_s(
                    st,
                    span,
                    "'tl.store' called with fewer than a pointer and a value argument"@,
                    "cannot lower"@,
                )
            } else {
                let shape = shape_in(st, args@[1]);
                if shape is Unknown {
                    diag_s(
                        st,
                        span,
                        "'tl.store' value with unresolved tile shape"@,
                        "cannot lower"@,
                    )
                } else {
                    let elem_bty = elem_in(st, args@[1]);
                    let (st, l) = open_tile_loop_s(
                        st,
                        tile_dims_of(shape),
                        tile_dims_of(shape).len(),
                        span,
                    );
                    let (st, addr) = eval_expr_s(st, args@[0], l.idx);
                    let (st, val) = eval_expr_s(st, args@[1], l.idx);
                    let found = keyword_at(keywords@, "mask"@);
                    let (st, mask) = match found {
                        Some(k) => {
                            let (st, m) = if k < keywords@.len() {
                                eval_expr_s(st, keywords@[k as int].value, l.idx)
                            } else {
                                const_i64_s(st, 0)
                            };
                            (st, Some(m))
                        },
                        None => {
                            (st, None)
                        },
                    };
                    let st = store_element_s(st, addr, val, elem_bty, mask);
                    close_tile_loop_s(st, l.levels, l.levels.len())
                }
            }
        },
        _ => {
            st
        },
    }
}

/// An expression on its own: a store, or a scalar.
#[verifier::opaque]
pub open spec fn lower_expr_stmt_s(st: TlState, value: Expr, span: Span) -> TlState
{
    let is_store = match value {
        Expr::Call { func, args, keywords, span: sp } => attr_of(*func) == Some("store"@),
        _ => false,
    };
    if is_store {
        lower_store_call_s(st, value)
    } else {
        let shape = shape_in(st, value);
        if (shape is Scalar) {
            let (st, _) = eval_expr_s(st, value, Seq::<ValRef>::empty());
            st
        } else {
            diag_s(
                st,
                span,
                "bare tile-shaped expression statement"@,
                "not supported outside of 'tl.store' or an assignment"@,
            )
        }
    }
}

/// An assignment.
#[verifier::opaque]
pub open spec fn lower_assign_s(st: TlState, targets: Seq<Expr>, value: Expr, span: Span) -> TlState
{
    let found = target_names(targets, targets.len());
    match found {
        None => {
            diag_s(
                st,
                span,
                "assignment target other than a bare name"@,
                "tuple/attribute/subscript assignment targets are not lowered"@,
            )
        },
        Some(names) => {
            if names.len() > 0 {
                let is_dot = match value {
                    Expr::Call { func, args, keywords, span: sp } => attr_of(*func) == Some("dot"@),
                    _ => false,
                };
                if is_dot {
                    if names.len() != 1 {
                        diag_s(
                            st,
                            span,
                            "'tl.dot' assigned to more than one target"@,
                            "not supported"@,
                        )
                    } else {
                        match value {
                            Expr::Call { args, span: call_span, .. } => {
                                lower_dot_stmt_s(st, names[0], args@, call_span)
                            },
                            _ => {
                                st
                            },
                        }
                    }
                } else {
                    let shape = shape_in(st, value);
                    if (shape is Scalar) {
                        let elem_bty = elem_in(st, value);
                        let (st, v) = eval_expr_s(st, value, Seq::<ValRef>::empty());
                        store_names_s(st, names, names.len(), elem_bty, v)
                    } else if shape is Unknown {
                        diag_s(
                            st,
                            span,
                            "assignment with unresolved tile shape"@,
                            "right-hand side shape could not be determined (see earlier diagnostics)"@,
                        )
                    } else {
                        materialize_names_s(st, names, names.len(), value, shape, span)
                    }
                }
            } else {
                st
            }
        },
    }
}

/// An annotated assignment, to a scalar.
#[verifier::opaque]
pub open spec fn lower_ann_assign_s(
    st: TlState,
    target: Expr,
    value: Option<Expr>,
    span: Span,
) -> TlState
{
    match target {
        Expr::Name { name, .. } => {
            match value {
                Some(v) => {
                    let elem_bty = elem_in(st, v);
                    let (st, val) = eval_expr_s(st, v, Seq::<ValRef>::empty());
                    let (st, vs) = get_or_new_scalar_var_s(st, name@, elem_bty);
                    store_scalar_s(st, vs, val)
                },
                None => {
                    st
                },
            }
        },
        _ => {
            diag_s(
                st,
                span,
                "annotated assignment to a non-name target"@,
                "not supported"@,
            )
        },
    }
}

/// An augmented assignment, to a scalar.
#[verifier::opaque]
pub open spec fn lower_augassign_s(
    st: TlState,
    target: Expr,
    op: BinOp,
    value: Expr,
    span: Span,
) -> TlState
{
    match target {
        Expr::Name { name, .. } => {
            match var_of(st, name@) {
                None => {
                    diag_s(
                        st,
                        span,
                        "augmented assignment on a tile-ranked value"@,
                        "only scalar accumulators are supported"@,
                    )
                },
                Some(vs) => {
                    if !(vs.shape is Scalar) {
                        diag_s(
                            st,
                            span,
                            "augmented assignment on a tile-ranked value"@,
                            "only scalar accumulators are supported"@,
                        )
                    } else {
                        let (st, cur) = load_scalar_s(st, vs);
                        let (st, rhs) = eval_expr_s(st, value, Seq::<ValRef>::empty());
                        let (st, result) = apply_binop_s(st, op, cur, rhs, vs.elem_bty, span);
                        store_scalar_s(st, vs, result)
                    }
                },
            }
        },
        _ => {
            diag_s(
                st,
                span,
                "augmented assignment to a non-name target"@,
                "not supported"@,
            )
        },
    }
}

/// The first `n` statements of a list.
pub open spec fn lower_stmts_s(st: TlState, ss: Seq<Stmt>, n: nat) -> TlState
    decreases ss, n,
{
    if n > 0 && n <= ss.len() {
        lower_stmt_s(lower_stmts_s(st, ss, (n - 1) as nat), ss[n - 1])
    } else {
        st
    }
}

/// `if`, on a scalar.
pub open spec fn lower_if_s(st: TlState, s: Stmt) -> TlState
    decreases s, 8nat,
{
    match s {
        Stmt::If { test, body, orelse, span } => {
            let shape = shape_in(st, test);
            if !(shape is Scalar) {
                diag_s(
                    st,
                    span,
                    "'if' on a tile-ranked condition"@,
                    "not supported (Triton masking is expressed via tl.load/tl.store's mask=, not a Python 'if')"@,
                )
            } else {
                let (st, cond) = eval_expr_s(st, test, Seq::<ValRef>::empty());
                let (st, then_bb) = alloc_block_s(st);
                let (st, else_bb) = alloc_block_s(st);
                let (st, merge_bb) = alloc_block_s(st);
                let st = terminate_s(st, TermV::CondBr(cond, then_bb, else_bb));
                let st = set_cur_s(st, then_bb);
                let st = lower_stmts_s(st, body@, body@.len());
                let st = terminate_s(st, TermV::Br(merge_bb));
                let st = set_cur_s(st, else_bb);
                let st = lower_stmts_s(st, orelse@, orelse@.len());
                let st = terminate_s(st, TermV::Br(merge_bb));
                set_cur_s(st, merge_bb)
            }
        },
        _ => {
            st
        },
    }
}

/// The start, end and step of a `range`.
#[verifier::opaque]
pub open spec fn range_bounds_s(st: TlState, args: Seq<Expr>) -> (TlState, (ValRef, ValRef, ValRef))
{
    if args.len() == 1 {
        let (st, start) = const_i64_s(st, 0);
        let (st, stop) = eval_expr_s(st, args[0], Seq::<ValRef>::empty());
        let (st, step) = const_i64_s(st, 1);
        (st, (start, stop, step))
    } else if args.len() == 2 {
        let (st, start) = eval_expr_s(st, args[0], Seq::<ValRef>::empty());
        let (st, stop) = eval_expr_s(st, args[1], Seq::<ValRef>::empty());
        let (st, step) = const_i64_s(st, 1);
        (st, (start, stop, step))
    } else {
        let (st, start) = eval_expr_s(st, args[0], Seq::<ValRef>::empty());
        let (st, stop) = eval_expr_s(st, args[1], Seq::<ValRef>::empty());
        let (st, step) = eval_expr_s(st, args[2], Seq::<ValRef>::empty());
        (st, (start, stop, step))
    }
}

/// Opens a loop that counts from `start` while below `stop`: the blocks of its test, its step and
/// what follows it.
#[verifier::opaque]
pub open spec fn open_range_s(
    st: TlState,
    ctr: VarV,
    start: ValRef,
    stop: ValRef,
) -> (TlState, (BlockId, BlockId, BlockId))
{
    let st = store_scalar_s(st, ctr, start);
    let (st, cond_bb) = alloc_block_s(st);
    let (st, body_bb) = alloc_block_s(st);
    let (st, step_bb) = alloc_block_s(st);
    let (st, exit_bb) = alloc_block_s(st);
    let st = terminate_s(st, TermV::Br(cond_bb));
    let st = set_cur_s(st, cond_bb);
    let (st, iv) = load_scalar_s(st, ctr);
    let (st, less) = push_s(
        st,
        BTy::Scalar(Scalar::I1),
        OpV::ICmp(ICmpPred::Slt, BTy::Scalar(Scalar::I64), iv, stop),
    );
    let st = terminate_s(st, TermV::CondBr(less, body_bb, exit_bb));
    let st = set_cur_s(st, body_bb);
    (st, (cond_bb, step_bb, exit_bb))
}

/// Closes a loop that counts by `step`.
#[verifier::opaque]
pub open spec fn close_range_s(
    st: TlState,
    ctr: VarV,
    step: ValRef,
    at: (BlockId, BlockId, BlockId),
) -> TlState
{
    let (cond_bb, step_bb, exit_bb) = at;
    let st = terminate_s(st, TermV::Br(step_bb));
    let st = set_cur_s(st, step_bb);
    let (st, iv2) = load_scalar_s(st, ctr);
    let (st, next) = push_s(st, BTy::Scalar(Scalar::I64), OpV::Bin(BBin::Add, iv2, step));
    let st = store_scalar_s(st, ctr, next);
    let st = terminate_s(st, TermV::Br(cond_bb));
    set_cur_s(st, exit_bb)
}

/// The body of a `for` over a `range`.
pub open spec fn lower_range_s(
    st: TlState,
    s: Stmt,
    name: Seq<char>,
    start: ValRef,
    stop: ValRef,
    step: ValRef,
) -> TlState
    decreases s, 7nat,
{
    match s {
        Stmt::For { body, .. } => {
            let (st, ctr) = get_or_new_scalar_var_s(st, name, BTy::Scalar(Scalar::I64));
            let (st, at) = open_range_s(st, ctr, start, stop);
            let st = enter_s(st, at.2, at.1);
            let st = lower_stmts_s(st, body@, body@.len());
            let st = leave_s(st);
            close_range_s(st, ctr, step, at)
        },
        _ => {
            st
        },
    }
}

/// `for name in range(...)`.
pub open spec fn lower_for_s(st: TlState, s: Stmt) -> TlState
    decreases s, 8nat,
{
    match s {
        Stmt::For { target, iter, orelse, span, .. } => {
            let st = if orelse@.len() > 0 {
                diag_s(st, span, "'for ... else'"@, "not supported"@)
            } else {
                st
            };
            match target {
                Expr::Name { name, .. } => {
                    match iter {
                        Expr::Call { func, args, .. } => {
                            if !spec_is_name(*func, "range"@) {
                                diag_s(
                                    st,
                                    span,
                                    "'for' loop over something other than 'range(...)'"@,
                                    "not supported"@,
                                )
                            } else if args@.len() == 0 || args@.len() > 3 {
                                diag_s(
                                    st,
                                    span,
                                    "'range(...)' with an unsupported argument count"@,
                                    "expected 1, 2, or 3 arguments"@,
                                )
                            } else {
                                let (st, bounds) = range_bounds_s(st, args@);
                                lower_range_s(st, s, name@, bounds.0, bounds.1, bounds.2)
                            }
                        },
                        _ => {
                            diag_s(
                                st,
                                span,
                                "'for' loop over something other than 'range(...)'"@,
                                "not supported"@,
                            )
                        },
                    }
                },
                _ => {
                    diag_s(
                        st,
                        span,
                        "'for' loop target other than a bare name"@,
                        "not supported"@,
                    )
                },
            }
        },
        _ => {
            st
        },
    }
}

/// Ends the block by a jump out of or on in the innermost loop, and opens another for what follows.
#[verifier::opaque]
pub open spec fn lower_jump_s(st: TlState, is_break: bool, span: Span) -> TlState
{
    let target = if st.ctrl.len() == 0 {
        None
    } else if is_break {
        Some(st.ctrl.last().0)
    } else {
        Some(st.ctrl.last().1)
    };
    let st = match target {
        Some(bb) => {
            terminate_s(st, TermV::Br(bb))
        },
        None => {
            let st = if is_break {
                diag_s(st, span, "'break' outside of a loop"@, "not supported"@)
            } else {
                diag_s(st, span, "'continue' outside of a loop"@, "not supported"@)
            };
            terminate_s(st, TermV::Ret(None))
        },
    };
    let (st, bb2) = alloc_block_s(st);
    set_cur_s(st, bb2)
}

/// One statement.
pub open spec fn lower_stmt_s(st: TlState, s: Stmt) -> TlState
    decreases s, 9nat,
{
    match s {
        Stmt::Expr { value, span } => {
            lower_expr_stmt_s(st, value, span)
        },
        Stmt::Assign { targets, value, span } => {
            lower_assign_s(st, targets@, value, span)
        },
        Stmt::AugAssign { target, op, value, span } => {
            lower_augassign_s(st, target, op, value, span)
        },
        Stmt::AnnAssign { target, value, span, .. } => {
            lower_ann_assign_s(st, target, value, span)
        },
        Stmt::If { .. } => {
            lower_if_s(st, s)
        },
        Stmt::For { .. } => {
            lower_for_s(st, s)
        },
        Stmt::While { span, .. } => {
            diag_s(st, span, "'while' loop"@, "not supported by Triton lowering"@)
        },
        Stmt::Return { .. } => {
            let st = terminate_s(st, TermV::Ret(None));
            let (st, bb) = alloc_block_s(st);
            set_cur_s(st, bb)
        },
        Stmt::Break { span } => {
            lower_jump_s(st, true, span)
        },
        Stmt::Continue { span } => {
            lower_jump_s(st, false, span)
        },
        Stmt::Assert { .. } | Stmt::Pass { .. } | Stmt::Error { .. } => {
            st
        },
    }
}

/// Binds the first `n` parameters. A `constexpr` one with a literal default is a constant; every
/// other is passed, as a pointer if `k` uses it as one.
pub open spec fn seed_params_s(st: TlState, k: KernelFn, n: nat) -> (TlState, PendingV)
    decreases n,
{
    if n == 0 || n > k.params@.len() { (st, no_pending()) } else {
        let (st, acc) = seed_params_s(st, k, (n - 1) as nat);
        let p = k.params@[n - 1];
        let lit = if p.is_constexpr {
            match p.default { Some(d) => literal_of(d), None => None }
        } else {
            None
        };
        match lit {
            Some(v) => {
                let (st, slot) = new_slot_id_s(st);
                let vs = scalar_var(slot, AddrSpace::Local, Elem::Int, BTy::Scalar(Scalar::I64));
                (bind_s(st, p.name@, vs), PendingV { inits: acc.inits.push((vs, v)), ..acc })
            },
            None => {
                let elem = if p.is_constexpr { Elem::Int } else { Elem::Unknown };
                let bty = if !p.is_constexpr && pointer_name(k, p.name@) {
                    BTy::Ptr(AddrSpace::Global)
                } else {
                    BTy::Scalar(Scalar::I64)
                };
                let index = low_u32(acc.params.len() as int);
                let st = if bty is Ptr { TlState { scratch: Some(index), ..st } } else { st };
                let (st, slot) = new_slot_id_s(st);
                let vs = scalar_var(slot, AddrSpace::Param, elem, bty);
                (
                    bind_s(st, p.name@, vs),
                    PendingV {
                        stores: acc.stores.push((vs, index)),
                        params: acc.params.push(bty),
                        ..acc
                    },
                )
            },
        }
    }
}

/// Stores the first `n` constants.
pub open spec fn store_inits_s(st: TlState, p: PendingV, n: nat) -> TlState
    decreases n,
{
    let st = if n > 0 && n <= p.inits.len() {
        let st = store_inits_s(st, p, (n - 1) as nat);
        let (st, v) = const_i64_s(st, p.inits[n - 1].1);
        store_scalar_s(st, p.inits[n - 1].0, v)
    } else { st };
    st
}

/// Stores the first `n` parameters.
pub open spec fn store_params_s(st: TlState, p: PendingV, n: nat) -> TlState
    decreases n,
{
    let st = if n > 0 && n <= p.stores.len() {
        let st = store_params_s(st, p, (n - 1) as nat);
        store_scalar_s(st, p.stores[n - 1].0, ValRef::Param(p.stores[n - 1].1))
    } else { st };
    st
}

/// The body of a kernel; the types of its parameters are the result.
#[verifier::opaque]
pub open spec fn lower_kernel_body_s(st: TlState, k: KernelFn) -> (TlState, Seq<BTy>)
{
    let (st, p) = seed_params_s(st, k, k.params@.len());
    let (st, entry) = alloc_block_s(st);
    let st = set_cur_s(st, entry);
    let st = store_inits_s(st, p, p.inits.len());
    let st = store_params_s(st, p, p.stores.len());
    let st = lower_stmts_s(st, k.body@, k.body@.len());
    let st = terminate_s(st, TermV::Ret(None));
    (st, p.params)
}

/// The state that the lowering of a kernel starts from.
pub open spec fn fresh_state(types: Map<Span, TileTyV>) -> TlState {
    TlState {
        diags: Seq::empty(),
        vars: Map::empty(),
        next_slot: 0,
        next_tile: 0,
        scratch: None,
        b: empty_build(),
        ctrl: Seq::empty(),
        types,
    }
}

/// What is built of a kernel, and what its lowering reports.
pub open spec fn kernel_lowered(k: KernelFn, types: Map<Span, TileTyV>) -> (FunctionV, Seq<DiagV>) {
    let (st, params) = lower_kernel_body_s(fresh_state(types), k);
    let (blocks, insts) = built(st.b);
    (
        FunctionV { name: k.name@, is_kernel: true, params, ret: BTy::Void, blocks, insts },
        st.diags,
    )
}

/// What is built of the first `n` kernels: each is lowered on its own, with its own shapes.
pub open spec fn kernels_lowered(
    ks: Seq<KernelFn>,
    shapes: Seq<KernelShapesV>,
    n: nat,
) -> Seq<FunctionV> {
    Seq::new(n, |i: int| kernel_lowered(ks[i], shapes[i].expr_types).0)
}

/// What the lowering of the first `n` kernels reports, one after the other.
pub open spec fn kernels_diags(ks: Seq<KernelFn>, shapes: Seq<KernelShapesV>, n: nat) -> Seq<DiagV>
    decreases n,
{
    if n == 0 {
        Seq::empty()
    } else {
        kernels_diags(ks, shapes, (n - 1) as nat) + kernel_lowered(
            ks[n - 1],
            shapes[n - 1].expr_types,
        ).1
    }
}

proof fn lemma_loops_len(st: TlState, dims: Seq<DimV>, n: nat, span: Span)
    requires
        n <= dims.len(),
    ensures
        open_tile_loop_s(st, dims, n, span).1.idx.len() == n,
    decreases n,
{
    if n > 0 {
        lemma_loops_len(st, dims, (n - 1) as nat, span);
    }
}

struct Lowerer<'a> {
    shapes: &'a KernelShapes,
    diags: Vec<Diag>,
    vars: Assoc<VarSlot>,
    next_slot: u32,
    next_tile_ordinal: u32,
    scratch_param_idx: Option<u32>,
    b: Builder,
    ctrl_stack: Vec<(BlockId, BlockId)>,
}

impl<'a> Lowerer<'a> {
    spec fn wf(&self) -> bool {
        self.b.wf()
    }

    spec fn st(&self) -> TlState {
        TlState {
            diags: diags_view(self.diags@),
            vars: self.vars@,
            next_slot: self.next_slot,
            next_tile: self.next_tile_ordinal,
            scratch: self.scratch_param_idx,
            b: self.b@,
            ctrl: self.ctrl_stack@,
            types: self.shapes.expr_types@,
        }
    }

    fn diag(&mut self, span: Span, what: &str, detail: &str)
        requires
            old(self).wf(),
        ensures
            final(self).wf(),
            final(self).st() == diag_s(old(self).st(), span, what@, detail@),
    {
        let d = Diag::new(ECode::LoweringUnsupported).with_span(span).with_arg(what).with_arg(
            detail,
        );
        assert(d@.args =~= seq![what@, detail@]);
        push_diag(&mut self.diags, d);
    }

    fn push(&mut self, ty: BTy, op: Op) -> (v: ValRef)
        requires
            old(self).wf(),
        ensures
            final(self).wf(),
            final(self).st() == push_s(old(self).st(), ty, op@).0,
            v == push_s(old(self).st(), ty, op@).1,
    {
        self.b.push(ty, op)
    }

    fn push_void(&mut self, op: Op)
        requires
            old(self).wf(),
        ensures
            final(self).wf(),
            final(self).st() == push_void_s(old(self).st(), op@),
    {
        self.b.push(BTy::Void, op);
    }

    fn alloc_block(&mut self) -> (id: BlockId)
        requires
            old(self).wf(),
        ensures
            final(self).wf(),
            final(self).st() == alloc_block_s(old(self).st()).0,
            id == alloc_block_s(old(self).st()).1,
    {
        self.b.alloc_block()
    }

    fn terminate(&mut self, term: Term)
        requires
            old(self).wf(),
        ensures
            final(self).wf(),
            final(self).st() == terminate_s(old(self).st(), term@),
    {
        self.b.terminate(term);
    }

    fn set_cur(&mut self, cur: BlockId)
        requires
            old(self).wf(),
        ensures
            final(self).wf(),
            final(self).st() == set_cur_s(old(self).st(), cur),
    {
        self.b.set_current(cur);
    }

    fn new_slot_id(&mut self) -> (s: u32)
        requires
            old(self).wf(),
        ensures
            final(self).wf(),
            final(self).st() == new_slot_id_s(old(self).st()).0,
            s == new_slot_id_s(old(self).st()).1,
    {
        let s: u32 = self.next_slot;
        self.next_slot = s.wrapping_add(1);
        s
    }

    fn new_tile_ordinal(&mut self) -> (s: u32)
        requires
            old(self).wf(),
        ensures
            final(self).wf(),
            final(self).st() == new_tile_ordinal_s(old(self).st()).0,
            s == new_tile_ordinal_s(old(self).st()).1,
    {
        let s: u32 = self.next_tile_ordinal;
        self.next_tile_ordinal = s.wrapping_add(1);
        s
    }

    fn bind(&mut self, name: &str, v: VarSlot)
        requires
            old(self).wf(),
        ensures
            final(self).wf(),
            final(self).st() == bind_s(old(self).st(), name@, v@),
    {
        self.vars.insert(name, v);
    }

    fn enter(&mut self, break_bb: BlockId, continue_bb: BlockId)
        requires
            old(self).wf(),
        ensures
            final(self).wf(),
            final(self).st() == enter_s(old(self).st(), break_bb, continue_bb),
    {
        self.ctrl_stack.push((break_bb, continue_bb));
    }

    fn leave(&mut self)
        requires
            old(self).wf(),
        ensures
            final(self).wf(),
            final(self).st() == leave_s(old(self).st()),
    {
        self.ctrl_stack.pop();
        assert(self.st().ctrl =~= leave_s(old(self).st()).ctrl);
    }

    fn var(&self, name: &str) -> (r: Option<VarSlot>)
        ensures
            match r {
                Some(v) => var_of(self.st(), name@) == Some(v@),
                None => var_of(self.st(), name@) is None,
            },
    {
        match self.vars.get(name) {
            Some(v) => Some(v.copy()),
            None => None,
        }
    }

    fn checker_shape(&self, e: &Expr) -> (r: TileTy)
        ensures
            r@ == noted_shape(self.st(), *e),
    {
        match self.shapes.expr_types.get(&e.span()) {
            Some(t) => t.copy(),
            None => TileTy::Unknown,
        }
    }

    /// The shape of an expression.
    fn shape_of(&self, e: &Expr) -> (r: TileTy)
        ensures
            r@ == shape_in(self.st(), *e),
        decreases e, 0nat,
    {
        match e {
            Expr::Name { name, .. } => match self.vars.get(name.as_str()) {
                Some(v) => v.shape.copy(),
                None => TileTy::Unknown,
            },
            Expr::IntLit { .. } => TileTy::Scalar(Elem::Int),
            Expr::FloatLit { .. } => TileTy::Scalar(Elem::Float),
            Expr::BoolLit { .. } => TileTy::Scalar(Elem::Bool),
            Expr::UnaryOp { operand, .. } => self.shape_of(operand),
            Expr::BinOp { lhs, rhs, .. } => {
                match broadcast(&self.shape_of(lhs), &self.shape_of(rhs)) {
                    Ok(t) => t,
                    Err(_) => TileTy::Unknown,
                }
            },
            Expr::Compare { left, comparators, .. } => {
                let first = self.shape_of(left);
                self.shape_of_all(first, comparators, comparators.len())
            },
            Expr::Ternary { body, orelse, .. } => {
                match broadcast(&self.shape_of(body), &self.shape_of(orelse)) {
                    Ok(t) => t,
                    Err(_) => TileTy::Unknown,
                }
            },
            Expr::Subscript { value, index, .. } => match subscript_steps(index) {
                Some(steps) => match reshape(&self.shape_of(value), steps.as_slice()) {
                    Ok(t) => t,
                    Err(_) => TileTy::Unknown,
                },
                None => TileTy::Unknown,
            },
            Expr::Call { func, args, .. } => if attr_is(func, "load") {
                if args.len() > 0 {
                    self.shape_of(&args[0])
                } else {
                    TileTy::Unknown
                }
            } else if attr_is(func, "program_id") {
                TileTy::Scalar(Elem::Int)
            } else if attr_is(func, "arange") || attr_is(func, "zeros") {
                self.checker_shape(e)
            } else {
                TileTy::Unknown
            },
            _ => self.checker_shape(e),
        }
    }

    fn shape_of_all(&self, first: TileTy, es: &Vec<Expr>, n: usize) -> (r: TileTy)
        requires
            n <= es@.len(),
        ensures
            r@ == joint_shape(self.st(), first@, es@, n as nat),
        decreases es, n,
    {
        if n == 0 {
            first
        } else {
            let prev = self.shape_of_all(first, es, n - 1);
            match broadcast(&prev, &self.shape_of(&es[n - 1])) {
                Ok(t) => t,
                Err(_) => TileTy::Unknown,
            }
        }
    }

    /// The type of the elements of an expression.
    fn elem_bty_for(&self, e: &Expr) -> (r: BTy)
        ensures
            r == elem_in(self.st(), *e),
        decreases e,
    {
        match e {
            Expr::Name { name, .. } => match self.vars.get(name.as_str()) {
                Some(v) => v.elem_bty,
                None => BTy::Scalar(Scalar::F32),
            },
            Expr::IntLit { .. } => BTy::Scalar(Scalar::I64),
            Expr::FloatLit { .. } => BTy::Scalar(Scalar::F32),
            Expr::BoolLit { .. } => BTy::Scalar(Scalar::I1),
            Expr::BinOp { lhs, rhs, .. } => combine_bty(
                self.elem_bty_for(lhs),
                self.elem_bty_for(rhs),
            ),
            Expr::UnaryOp { operand, .. } => self.elem_bty_for(operand),
            Expr::Compare { .. } => BTy::Scalar(Scalar::I1),
            Expr::Ternary { body, orelse, .. } => combine_bty(
                self.elem_bty_for(body),
                self.elem_bty_for(orelse),
            ),
            Expr::Subscript { value, .. } => self.elem_bty_for(value),
            Expr::Call { func, keywords, .. } => if attr_is(func, "zeros") {
                zeros_dtype_bty(keywords)
            } else if attr_is(func, "arange") || attr_is(func, "program_id") {
                BTy::Scalar(Scalar::I64)
            } else {
                BTy::Scalar(Scalar::F32)
            },
            _ => BTy::Scalar(Scalar::F32),
        }
    }

    /// A 64-bit constant.
    fn const_i64(&mut self, v: i64) -> (r: ValRef)
        requires
            old(self).wf(),
        ensures
            final(self).wf(),
            final(self).st() == const_i64_s(old(self).st(), v).0,
            r == const_i64_s(old(self).st(), v).1,
    {
        proof {
            reveal(const_i64_s);
        }
        self.push(BTy::Scalar(Scalar::I64), Op::ConstInt(v))
    }

    /// A zero of a type.
    fn zero_of(&mut self, ty: BTy) -> (r: ValRef)
        requires
            old(self).wf(),
        ensures
            final(self).wf(),
            final(self).st() == zero_of_s(old(self).st(), ty).0,
            r == zero_of_s(old(self).st(), ty).1,
    {
        proof {
            reveal(zero_of_s);
        }
        if is_float_bty(ty) {
            self.push(ty, Op::ConstFloat(FloatConst { double: 0, single: 0 }))
        } else {
            self.push(ty, Op::ConstInt(0))
        }
    }

    /// The pointer that tiles live behind.
    fn scratch_base_ptr(&mut self, span: Span) -> (r: ValRef)
        requires
            old(self).wf(),
        ensures
            final(self).wf(),
            final(self).st() == scratch_base_ptr_s(old(self).st(), span).0,
            r == scratch_base_ptr_s(old(self).st(), span).1,
    {
        proof {
            reveal(scratch_base_ptr_s);
        }
        match self.scratch_param_idx {
            Some(idx) => {
                ValRef::Param(idx)
            },
            None => {
                self.diag(
                    span,
                    "tile materialization with no pointer parameter to carve scratch space from",
                    "this kernel has no pointer-typed parameter at all",
                );
                self.const_i64(0)
            },
        }
    }

    /// The address of a cell.
    fn synthetic_addr(&mut self, slot: u32, space: AddrSpace) -> (r: ValRef)
        requires
            old(self).wf(),
        ensures
            final(self).wf(),
            final(self).st() == synthetic_addr_s(old(self).st(), slot, space).0,
            r == synthetic_addr_s(old(self).st(), slot, space).1,
    {
        proof {
            reveal(synthetic_addr_s);
        }
        self.push(BTy::Ptr(space), Op::ConstInt(cell_address_of(slot)))
    }

    /// The value of a name that is in a cell.
    fn load_scalar(&mut self, v: &VarSlot) -> (r: ValRef)
        requires
            old(self).wf(),
        ensures
            final(self).wf(),
            final(self).st() == load_scalar_s(old(self).st(), v@).0,
            r == load_scalar_s(old(self).st(), v@).1,
    {
        proof {
            reveal(load_scalar_s);
        }
        match v.storage {
            Storage::Synthetic { slot, space } => {
                let addr = self.synthetic_addr(slot, space);
                self.push(
                    v.elem_bty,
                    Op::Load { ptr: addr, space, align: bty_align(v.elem_bty), volatile: false },
                )
            },
            Storage::Scratch { .. } => {
                self.const_i64(0)
            },
        }
    }

    /// Stores a value in the cell of a name.
    fn store_scalar(&mut self, v: &VarSlot, val: ValRef)
        requires
            old(self).wf(),
        ensures
            final(self).wf(),
            final(self).st() == store_scalar_s(old(self).st(), v@, val),
    {
        proof {
            reveal(store_scalar_s);
        }
        match v.storage {
            Storage::Synthetic { slot, space } => {
                let addr = self.synthetic_addr(slot, space);
                self.push_void(Op::Store {
                    ptr: addr,
                    val,
                    ty: v.elem_bty,
                    space,
                    align: bty_align(v.elem_bty),
                    volatile: false,
                });
            },
            Storage::Scratch { .. } => {},
        }
    }

    /// The index of an element of a tile, row by row. A tile without an index for each axis has
    /// none.
    fn linear_index(&mut self, v: &VarSlot, idx: &Vec<ValRef>, span: Span) -> (r: ValRef)
        requires
            old(self).wf(),
        ensures
            final(self).wf(),
            final(self).st() == linear_index_s(old(self).st(), v@, idx@, span).0,
            r == linear_index_s(old(self).st(), v@, idx@, span).1,
    {
        proof {
            reveal(linear_index_s);
        }
        if idx.len() == 1 {
            idx[0]
        } else if idx.len() == 2 && v.dims.len() == 2 {
            let scaled = self.push(BTy::Scalar(Scalar::I64), Op::Bin(BBin::Mul, idx[0], v.dims[1]));
            self.push(BTy::Scalar(Scalar::I64), Op::Bin(BBin::Add, scaled, idx[1]))
        } else {
            self.diag(span, "tile used where a scalar is required", "not supported");
            self.const_i64(0)
        }
    }

    /// The address of an element of a tile.
    fn tile_elem_addr(&mut self, v: &VarSlot, idx: &Vec<ValRef>, span: Span) -> (r: ValRef)
        requires
            old(self).wf(),
        ensures
            final(self).wf(),
            final(self).st() == tile_elem_addr_s(old(self).st(), v@, idx@, span).0,
            r == tile_elem_addr_s(old(self).st(), v@, idx@, span).1,
    {
        proof {
            reveal(tile_elem_addr_s);
        }
        match v.storage {
            Storage::Scratch { ordinal } => {
                let scratch = self.scratch_base_ptr(span);
                let tile_off = self.const_i64(tile_offset_of(ordinal));
                let base = self.push(
                    BTy::Ptr(AddrSpace::Global),
                    Op::Bin(BBin::Add, scratch, tile_off),
                );
                let lin = self.linear_index(v, idx, span);
                let elem_bytes = self.const_i64(bty_bytes(v.elem_bty));
                let byte_off = self.push(
                    BTy::Scalar(Scalar::I64),
                    Op::Bin(BBin::Mul, lin, elem_bytes),
                );
                self.push(BTy::Ptr(AddrSpace::Global), Op::Bin(BBin::Add, base, byte_off))
            },
            Storage::Synthetic { slot, space } => {
                self.synthetic_addr(slot, space)
            },
        }
    }

    /// The extent of a dimension.
    fn resolve_dim(&mut self, d: &Dim, span: Span) -> (r: ValRef)
        requires
            old(self).wf(),
        ensures
            final(self).wf(),
            final(self).st() == resolve_dim_s(old(self).st(), d@, span).0,
            r == resolve_dim_s(old(self).st(), d@, span).1,
    {
        proof {
            reveal(resolve_dim_s);
        }
        match d {
            Dim::Const(n) => {
                self.const_i64(*n)
            },
            Dim::Symbolic(name) => {
                let found = match self.var(name.as_str()) {
                    Some(v) => if v.shape.is_scalar() { Some(v) } else { None },
                    None => None,
                };
                match found {
                    Some(v) => {
                        self.load_scalar(&v)
                    },
                    None => {
                        let msg = "symbolic tile dimension '".to_owned().concat(name.as_str()).concat("'");
                        self.diag(
                            span,
                            msg.as_str(),
                            "not a bare constexpr parameter name this pass can resolve to a runtime value (a compound dimension expression is not re-evaluated)",
                        );
                        self.const_i64(1)
                    },
                }
            },
        }
    }

    /// Opens a loop for each of the first `n` dimensions, one inside the other.
    fn open_tile_loop(&mut self, dims: &Vec<Dim>, n: usize, span: Span) -> (r: Loops)
        requires
            old(self).wf(),
            n <= dims@.len(),
        ensures
            final(self).wf(),
            final(self).st() == open_tile_loop_s(
                old(self).st(),
                dims_view(dims@),
                n as nat,
                span,
            ).0,
            r@ == open_tile_loop_s(old(self).st(), dims_view(dims@), n as nat, span).1,
        decreases n,
    {
        if n == 0 {
            let l = Loops { idx: Vec::new(), bounds: Vec::new(), levels: Vec::new() };
            assert(l@.idx =~= Seq::empty() && l@.bounds =~= Seq::empty()
                && l@.levels =~= Seq::empty());
            return l;
        }
        let mut l = self.open_tile_loop(dims, n - 1, span);
        assert(dims_view(dims@)[n - 1] == dims@[n - 1]@);
        let bound = self.resolve_dim(&dims[n - 1], span);
        let ctr_slot = self.new_slot_id();
        let ctr_vs = make_scalar(ctr_slot, AddrSpace::Local, Elem::Int, BTy::Scalar(Scalar::I64));
        let zero = self.const_i64(0);
        self.store_scalar(&ctr_vs, zero);
        let cond_bb = self.alloc_block();
        let body_bb = self.alloc_block();
        let step_bb = self.alloc_block();
        let exit_bb = self.alloc_block();
        self.terminate(Term::Br(cond_bb));
        self.set_cur(cond_bb);
        let iv = self.load_scalar(&ctr_vs);
        let less = self.push(
            BTy::Scalar(Scalar::I1),
            Op::ICmp(ICmpPred::Slt, BTy::Scalar(Scalar::I64), iv, bound),
        );
        self.terminate(Term::CondBr(less, body_bb, exit_bb));
        self.set_cur(body_bb);
        l.idx.push(iv);
        l.bounds.push(bound);
        l.levels.push(LoopLevel { cond_bb, step_bb, exit_bb, ctr_slot });
        l
    }

    /// Closes the first `n` of a list of loops, innermost first.
    fn close_tile_loop(&mut self, levels: &Vec<LoopLevel>, n: usize)
        requires
            old(self).wf(),
            n <= levels@.len(),
        ensures
            final(self).wf(),
            final(self).st() == close_tile_loop_s(old(self).st(), levels@, n as nat),
        decreases n,
    {
        if n > 0 {
            let lvl = levels[n - 1];
            self.terminate(Term::Br(lvl.step_bb));
            self.set_cur(lvl.step_bb);
            let ctr_vs = make_scalar(
                lvl.ctr_slot,
                AddrSpace::Local,
                Elem::Int,
                BTy::Scalar(Scalar::I64),
            );
            let iv = self.load_scalar(&ctr_vs);
            let one = self.const_i64(1);
            let next = self.push(BTy::Scalar(Scalar::I64), Op::Bin(BBin::Add, iv, one));
            self.store_scalar(&ctr_vs, next);
            self.terminate(Term::Br(lvl.cond_bb));
            self.set_cur(lvl.exit_bb);
            self.close_tile_loop(levels, n - 1);
        }
    }

    /// The cell of a name, a new one if it has none.
    fn get_or_new_scalar_var(&mut self, name: &str, elem_bty: BTy) -> (r: VarSlot)
        requires
            old(self).wf(),
        ensures
            final(self).wf(),
            final(self).st() == get_or_new_scalar_var_s(old(self).st(), name@, elem_bty).0,
            r@ == get_or_new_scalar_var_s(old(self).st(), name@, elem_bty).1,
    {
        proof {
            reveal(get_or_new_scalar_var_s);
        }
        let found = match self.var(name) {
            Some(v) => if v.shape.is_scalar() { Some(v) } else { None },
            None => None,
        };
        match found {
            Some(v) => {
                let v2 = VarSlot { storage: v.storage, shape: v.shape, elem_bty, dims: v.dims };
                self.bind(name, v2.copy());
                v2
            },
            None => {
                let slot = self.new_slot_id();
                let vs = make_scalar(slot, AddrSpace::Local, Elem::Unknown, elem_bty);
                self.bind(name, vs.copy());
                vs
            },
        }
    }

    /// The tile of a name: its own if it has one of this rank, else a new one.
    fn get_or_new_tile_var(
        &mut self,
        name: &str,
        shape: &TileTy,
        elem_bty: BTy,
        dims: Vec<ValRef>,
    ) -> (r: VarSlot)
        requires
            old(self).wf(),
        ensures
            final(self).wf(),
            final(self).st() == get_or_new_tile_var_s(
                old(self).st(),
                name@,
                shape@,
                elem_bty,
                dims@,
            ).0,
            r@ == get_or_new_tile_var_s(old(self).st(), name@, shape@, elem_bty, dims@).1,
    {
        proof {
            reveal(get_or_new_tile_var_s);
        }
        let found = match self.var(name) {
            Some(v) => if v.shape.rank() == shape.rank() { Some(v) } else { None },
            None => None,
        };
        match found {
            Some(v) => {
                let v2 = VarSlot { storage: v.storage, shape: shape.copy(), elem_bty, dims };
                self.bind(name, v2.copy());
                v2
            },
            None => {
                let ordinal = self.new_tile_ordinal();
                let vs = VarSlot {
                    storage: Storage::Scratch { ordinal },
                    shape: shape.copy(),
                    elem_bty,
                    dims,
                };
                self.bind(name, vs.copy());
                vs
            },
        }
    }

    /// A binary operation on two values.
    fn apply_binop(&mut self, op: BinOp, l: ValRef, r2: ValRef, bty: BTy, span: Span) -> (r: ValRef)
        requires
            old(self).wf(),
        ensures
            final(self).wf(),
            final(self).st() == apply_binop_s(old(self).st(), op, l, r2, bty, span).0,
            r == apply_binop_s(old(self).st(), op, l, r2, bty, span).1,
    {
        proof {
            reveal(apply_binop_s);
        }
        if is_ptr(bty) {
            if op == BinOp::Add {
                self.push(bty, Op::Bin(BBin::Add, l, r2))
            } else if op == BinOp::Sub {
                self.push(bty, Op::Bin(BBin::Sub, l, r2))
            } else {
                let msg = "binary operator ".to_owned().concat(op_name_of(op)).concat(" on a pointer-typed tile");
                self.diag(
                    span,
                    msg.as_str(),
                    "only '+' and '-' are supported for address arithmetic",
                );
                self.push(bty, Op::ConstInt(0))
            }
        } else {
            let is_float = is_float_bty(bty);
            let out_bty = if is_float {
                BTy::Scalar(Scalar::F32)
            } else {
                BTy::Scalar(Scalar::I64)
            };
            match arith_for(op, is_float) {
                Some(b) => {
                    self.push(out_bty, Op::Bin(b, l, r2))
                },
                None => {
                    let msg = "binary operator ".to_owned().concat(op_name_of(op));
                    self.diag(
                        span,
                        msg.as_str(),
                        "not supported by tile lowering in this element context",
                    );
                    self.push(out_bty, Op::ConstInt(0))
                },
            }
        }
    }

    /// A comparison of two values.
    fn apply_relation(
        &mut self,
        op: CmpOp,
        l: ValRef,
        r2: ValRef,
        is_float: bool,
        span: Span,
    ) -> (r: ValRef)
        requires
            old(self).wf(),
        ensures
            final(self).wf(),
            final(self).st() == apply_relation_s(old(self).st(), op, l, r2, is_float, span).0,
            r == apply_relation_s(old(self).st(), op, l, r2, is_float, span).1,
    {
        proof {
            reveal(apply_relation_s);
        }
        if is_float {
            match float_pred_of(op) {
                Some(p) => {
                    self.push(BTy::Scalar(Scalar::I1), Op::FCmp(p, BTy::Scalar(Scalar::F32), l, r2))
                },
                None => {
                    let msg = "comparison operator ".to_owned().concat(relation_name_of(op));
                    self.diag(span, msg.as_str(), "not supported");
                    self.push(BTy::Scalar(Scalar::I1), Op::ConstInt(0))
                },
            }
        } else {
            match int_pred_of(op) {
                Some(p) => {
                    self.push(BTy::Scalar(Scalar::I1), Op::ICmp(p, BTy::Scalar(Scalar::I64), l, r2))
                },
                None => {
                    let msg = "comparison operator ".to_owned().concat(relation_name_of(op));
                    self.diag(span, msg.as_str(), "not supported");
                    self.push(BTy::Scalar(Scalar::I1), Op::ConstInt(0))
                },
            }
        }
    }

    /// A value times the width of an element.
    fn scale_by_elem_bytes(&mut self, v: ValRef) -> (r: ValRef)
        requires
            old(self).wf(),
        ensures
            final(self).wf(),
            final(self).st() == scale_by_elem_bytes_s(old(self).st(), v).0,
            r == scale_by_elem_bytes_s(old(self).st(), v).1,
    {
        proof {
            reveal(scale_by_elem_bytes_s);
        }
        let bytes = self.const_i64(DATA_ELEM_BYTES);
        self.push(BTy::Scalar(Scalar::I64), Op::Bin(BBin::Mul, v, bytes))
    }

    /// The comparisons of a chain from index `i` on, joined to what those before gave.
    fn eval_chain(
        &mut self,
        ops: &Vec<CmpOp>,
        es: &Vec<Expr>,
        i: usize,
        prev: ValRef,
        acc: Option<ValRef>,
        is_float: bool,
        idx: &Vec<ValRef>,
        span: Span,
    ) -> (r: Option<ValRef>)
        requires
            old(self).wf(),
            i <= es@.len(),
        ensures
            final(self).wf(),
            final(self).st() == eval_chain_s(
                old(self).st(),
                ops@,
                es@,
                i as nat,
                prev,
                acc,
                is_float,
                idx@,
                span,
            ).0,
            r == eval_chain_s(
                old(self).st(),
                ops@,
                es@,
                i as nat,
                prev,
                acc,
                is_float,
                idx@,
                span,
            ).1,
        decreases es, es@.len() - i,
    {
        if i < ops.len() && i < es.len() {
            let rv = self.eval_expr(&es[i], idx);
            let c = self.apply_relation(ops[i], prev, rv, is_float, span);
            let next = match acc {
                None => {
                    c
                },
                Some(a) => {
                    self.push(BTy::Scalar(Scalar::I1), Op::Bin(BBin::And, a, c))
                },
            };
            self.eval_chain(ops, es, i + 1, rv, Some(next), is_float, idx, span)
        } else { acc }
    }

    /// The value of an expression at a position of the enclosing loops, one value for each of their
    /// axes.
    #[verifier::rlimit(40)]
    fn eval_expr(&mut self, e: &Expr, outer: &Vec<ValRef>) -> (r: ValRef)
        requires
            old(self).wf(),
        ensures
            final(self).wf(),
            final(self).st() == eval_expr_s(old(self).st(), *e, outer@).0,
            r == eval_expr_s(old(self).st(), *e, outer@).1,
        decreases e, 9nat,
    {
        let idx = leading_of(outer, &self.shape_of(e));
        match e {
            Expr::Name { name, span } => {
                match self.var(name.as_str()) {
                    Some(v) => {
                        if v.shape.is_scalar() {
                            self.load_scalar(&v)
                        } else {
                            let addr = self.tile_elem_addr(&v, &idx, *span);
                            self.push(
                                v.elem_bty,
                                Op::Load {
                                    ptr: addr,
                                    space: AddrSpace::Global,
                                    align: bty_align(v.elem_bty),
                                    volatile: false,
                                },
                            )
                        }
                    },
                    None => {
                        let msg = "reference to undefined name '".to_owned().concat(name.as_str()).concat("'");
                        self.diag(*span, msg.as_str(), "cannot lower");
                        self.const_i64(0)
                    },
                }
            },
            Expr::IntLit { span, .. } => {
                match expr_as_i64(e) {
                    Some(v) => {
                        self.const_i64(v)
                    },
                    None => {
                        self.diag(*span, "integer literal", "could not be parsed");
                        self.const_i64(0)
                    },
                }
            },
            Expr::FloatLit { value, span } => {
                match *value {
                    Some(v) => {
                        self.push(BTy::Scalar(Scalar::F32), Op::ConstFloat(v))
                    },
                    None => {
                        self.diag(*span, "float literal", "could not be parsed");
                        self.push(
                            BTy::Scalar(Scalar::F32),
                            Op::ConstFloat(FloatConst { double: 0, single: 0 }),
                        )
                    },
                }
            },
            Expr::BoolLit { value, .. } => {
                if *value {
                    self.push(BTy::Scalar(Scalar::I1), Op::ConstInt(1))
                } else {
                    self.push(BTy::Scalar(Scalar::I1), Op::ConstInt(0))
                }
            },
            Expr::UnaryOp { op, operand, span } => {
                let is_float = is_float_bty(self.elem_bty_for(&**operand));
                let v = self.eval_expr(&**operand, &idx);
                match *op {
                    UnaryOp::UAdd => {
                        v
                    },
                    UnaryOp::USub => {
                        if is_float {
                            let zero = self.push(
                                BTy::Scalar(Scalar::F32),
                                Op::ConstFloat(FloatConst { double: 0, single: 0 }),
                            );
                            self.apply_binop(BinOp::Sub, zero, v, BTy::Scalar(Scalar::F32), *span)
                        } else {
                            let zero = self.const_i64(0);
                            self.apply_binop(BinOp::Sub, zero, v, BTy::Scalar(Scalar::I64), *span)
                        }
                    },
                    UnaryOp::Not => {
                        let one = self.push(BTy::Scalar(Scalar::I1), Op::ConstInt(1));
                        self.push(BTy::Scalar(Scalar::I1), Op::Bin(BBin::Xor, v, one))
                    },
                    UnaryOp::Invert => {
                        let neg1 = self.const_i64(MINUS_ONE);
                        self.push(BTy::Scalar(Scalar::I64), Op::Bin(BBin::Xor, v, neg1))
                    },
                }
            },
            Expr::BinOp { op, lhs, rhs, span } => {
                let bty = self.elem_bty_for(e);
                let lbty = self.elem_bty_for(&**lhs);
                let rbty = self.elem_bty_for(&**rhs);
                let l0 = self.eval_expr(&**lhs, &idx);
                let r0 = self.eval_expr(&**rhs, &idx);
                let l = if is_ptr(bty) && !is_ptr(lbty) {
                    self.scale_by_elem_bytes(l0)
                } else {
                    l0
                };
                let r2 = if is_ptr(bty) && !is_ptr(rbty) {
                    self.scale_by_elem_bytes(r0)
                } else {
                    r0
                };
                self.apply_binop(*op, l, r2, bty, *span)
            },
            Expr::Compare { left, ops, comparators, span } => {
                let is_float = is_float_bty(self.elem_bty_for(&**left));
                let first = self.eval_expr(&**left, &idx);
                let result = self.eval_chain(
                    ops,
                    comparators,
                    0,
                    first,
                    None,
                    is_float,
                    &idx,
                    *span,
                );
                match result {
                    Some(v) => {
                        v
                    },
                    None => {
                        self.push(BTy::Scalar(Scalar::I1), Op::ConstInt(1))
                    },
                }
            },
            Expr::Subscript { value, index, span } => {
                match subscript_steps(index) {
                    Some(steps) => {
                        let inner = kept_axes(&steps, &idx);
                        self.eval_expr(&**value, &inner)
                    },
                    None => {
                        self.diag(
                            *span,
                            "tile subscript other than a '[:, None]'/'[None, :]' reshape",
                            "not supported",
                        );
                        self.const_i64(0)
                    },
                }
            },
            Expr::Call { .. } => {
                self.eval_call(e, &idx)
            },
            _ => {
                self.diag(e.span(), "expression form", "not supported by tile lowering");
                self.const_i64(0)
            },
        }
    }

    /// The number of a block of threads along an axis.
    fn program_id(&mut self, args: &Vec<Expr>, span: Span) -> (r: ValRef)
        requires
            old(self).wf(),
        ensures
            final(self).wf(),
            final(self).st() == program_id_s(old(self).st(), args@, span).0,
            r == program_id_s(old(self).st(), args@, span).1,
    {
        proof {
            reveal(program_id_s);
        }
        let axis: i64 = if args.len() > 0 {
            match expr_as_i64(&args[0]) { Some(n) => n, None => 0 }
        } else {
            0
        };
        if axis == 0 {
            self.push(BTy::Scalar(Scalar::I64), Op::BidX)
        } else if axis == 1 {
            self.push(BTy::Scalar(Scalar::I64), Op::BidY)
        } else if axis == 2 {
            self.push(BTy::Scalar(Scalar::I64), Op::BidZ)
        } else {
            self.diag(span, "'tl.program_id' axis", "must be 0, 1, or 2");
            self.const_i64(0)
        }
    }

    /// The value of a call at a position.
    fn eval_call(&mut self, e: &Expr, idx: &Vec<ValRef>) -> (r: ValRef)
        requires
            old(self).wf(),
        ensures
            final(self).wf(),
            final(self).st() == eval_call_s(old(self).st(), *e, idx@).0,
            r == eval_call_s(old(self).st(), *e, idx@).1,
        decreases e, 8nat,
    {
        match e {
            Expr::Call { func, args, keywords, span } => {
                if attr_is(&**func, "arange") {
                    if args.len() != 2 || idx.len() != 1 {
                        self.diag(
                            *span,
                            "'tl.arange' in an unexpected context",
                            "expected exactly two arguments in a rank-1 context",
                        );
                        self.const_i64(0)
                    } else {
                        let lo = self.eval_expr(&args[0], &no_refs());
                        self.push(BTy::Scalar(Scalar::I64), Op::Bin(BBin::Add, lo, idx[0]))
                    }
                } else if attr_is(&**func, "load") {
                    self.eval_masked_load(e, idx)
                } else if attr_is(&**func, "program_id") {
                    self.program_id(args, *span)
                } else if attr_is(&**func, "zeros") {
                    self.zero_of(zeros_dtype_bty(keywords))
                } else if attr_is(&**func, "dot") {
                    self.diag(
                        *span,
                        "'tl.dot' used somewhere other than directly as an assignment's right-hand side",
                        "not supported",
                    );
                    self.const_i64(0)
                } else {
                    self.diag(*span, "call", "unrecognized or unsupported callee in tile lowering");
                    self.const_i64(0)
                }
            },
            _ => {
                self.const_i64(0)
            },
        }
    }

    /// A load, by way of a cell. Where there is a mask, the address is only touched where the mask
    /// holds; elsewhere the value is `other`, or zero.
    #[verifier::rlimit(30)]
    fn eval_masked_load(&mut self, e: &Expr, idx: &Vec<ValRef>) -> (r: ValRef)
        requires
            old(self).wf(),
        ensures
            final(self).wf(),
            final(self).st() == eval_masked_load_s(old(self).st(), *e, idx@).0,
            r == eval_masked_load_s(old(self).st(), *e, idx@).1,
        decreases e, 7nat,
    {
        match e {
            Expr::Call { args, keywords, span, .. } => {
                if args.len() == 0 {
                    self.diag(*span, "'tl.load' with no pointer argument", "cannot lower");
                    self.const_i64(0)
                } else {
                    let ptr_val = self.eval_expr(&args[0], idx);
                    let tmp_slot = self.new_slot_id();
                    let tmp_vs = make_scalar(
                        tmp_slot,
                        AddrSpace::Local,
                        Elem::Float,
                        BTy::Scalar(Scalar::F32),
                    );
                    let mask = find_keyword(keywords, "mask");
                    match mask {
                        None => {
                            let v = self.push(
                                BTy::Scalar(Scalar::F32),
                                Op::Load {
                                    ptr: ptr_val,
                                    space: AddrSpace::Global,
                                    align: bty_align(BTy::Scalar(Scalar::F32)),
                                    volatile: false,
                                },
                            );
                            self.store_scalar(&tmp_vs, v);
                        },
                        Some(k) => {
                            let mask_val = self.eval_expr(&keywords[k].value, idx);
                            let load_bb = self.alloc_block();
                            let other_bb = self.alloc_block();
                            let merge_bb = self.alloc_block();
                            self.terminate(Term::CondBr(mask_val, load_bb, other_bb));
                            self.set_cur(load_bb);
                            let v = self.push(
                                BTy::Scalar(Scalar::F32),
                                Op::Load {
                                    ptr: ptr_val,
                                    space: AddrSpace::Global,
                                    align: bty_align(BTy::Scalar(Scalar::F32)),
                                    volatile: false,
                                },
                            );
                            self.store_scalar(&tmp_vs, v);
                            self.terminate(Term::Br(merge_bb));
                            self.set_cur(other_bb);
                            let other = find_keyword(keywords, "other");
                            let ov = match other {
                                Some(j) => {
                                    self.eval_expr(&keywords[j].value, idx)
                                },
                                None => {
                                    self.zero_of(BTy::Scalar(Scalar::F32))
                                },
                            };
                            self.store_scalar(&tmp_vs, ov);
                            self.terminate(Term::Br(merge_bb));
                            self.set_cur(merge_bb);
                        },
                    };
                    self.load_scalar(&tmp_vs)
                }
            },
            _ => {
                self.const_i64(0)
            },
        }
    }

    /// Stores one value in the cells of the first `n` names.
    fn store_names(&mut self, names: &Vec<String>, n: usize, bty: BTy, v: ValRef)
        requires
            old(self).wf(),
            n <= names@.len(),
        ensures
            final(self).wf(),
            final(self).st() == store_names_s(old(self).st(), names_view(names@), n as nat, bty, v),
        decreases n,
    {
        if n > 0 {
            self.store_names(names, n - 1, bty, v);
            assert(names_view(names@)[n - 1] == names@[n - 1]@);
            let vs = self.get_or_new_scalar_var(names[n - 1].as_str(), bty);
            self.store_scalar(&vs, v);
        }
    }

    /// Fills the tile of a name, element by element.
    #[verifier::rlimit(30)]
    fn lower_tile_materialize(&mut self, name: &str, value: &Expr, shape: &TileTy, span: Span)
        requires
            old(self).wf(),
        ensures
            final(self).wf(),
            final(self).st() == lower_tile_materialize_s(
                old(self).st(),
                name@,
                *value,
                shape@,
                span,
            ),
    {
        proof {
            reveal(lower_tile_materialize_s);
        }
        let elem_bty = self.elem_bty_for(value);
        let dims = tile_dims(shape);
        let l = self.open_tile_loop(&dims, dims.len(), span);
        let vs = self.get_or_new_tile_var(name, shape, elem_bty, copy_refs(&l.bounds));
        let val = self.eval_expr(value, &l.idx);
        let addr = self.tile_elem_addr(&vs, &l.idx, span);
        self.push_void(Op::Store {
            ptr: addr,
            val,
            ty: elem_bty,
            space: AddrSpace::Global,
            align: bty_align(elem_bty),
            volatile: false,
        });
        self.close_tile_loop(&l.levels, l.levels.len());
    }

    /// Fills the tiles of the first `n` names.
    fn materialize_names(
        &mut self,
        names: &Vec<String>,
        n: usize,
        value: &Expr,
        shape: &TileTy,
        span: Span,
    )
        requires
            old(self).wf(),
            n <= names@.len(),
        ensures
            final(self).wf(),
            final(self).st() == materialize_names_s(
                old(self).st(),
                names_view(names@),
                n as nat,
                *value,
                shape@,
                span,
            ),
        decreases n,
    {
        if n > 0 {
            self.materialize_names(names, n - 1, value, shape, span);
            assert(names_view(names@)[n - 1] == names@[n - 1]@);
            self.lower_tile_materialize(names[n - 1].as_str(), value, shape, span);
        }
    }

    /// `name = tl.dot(a, b, acc)`: for each element the sum over the inner dimension, from `acc` or
    /// zero.
    fn lower_dot_stmt(&mut self, name: &str, args: &Vec<Expr>, span: Span)
        requires
            old(self).wf(),
        ensures
            final(self).wf(),
            final(self).st() == lower_dot_stmt_s(old(self).st(), name@, args@, span),
    {
        proof {
            reveal(lower_dot_stmt_s);
        }
        if args.len() < 2 {
            self.diag(
                span,
                "'tl.dot' called with fewer than two arguments",
                "expected (a, b) or (a, b, acc)",
            );
        } else {
            let a_shape = self.shape_of(&args[0]);
            let b_shape = self.shape_of(&args[1]);
            match a_shape {
                TileTy::Rank2(m, k1) => {
                    match b_shape {
                        TileTy::Rank2(k2, n) => {
                            if !k1.same(&k2) {
                                let msg = k1.render().concat(" vs ").concat(k2.render().as_str());
                                self.diag(span, "'tl.dot' inner dimension mismatch", msg.as_str());
                            } else {
                                self.dot_loops(name, args, m, k1, n, span);
                            }
                        },
                        _ => {
                            self.diag(span, "'tl.dot' second argument", "must be a rank-2 tile");
                        },
                    }
                },
                _ => {
                    self.diag(span, "'tl.dot' first argument", "must be a rank-2 tile");
                },
            }
        }
    }

    /// The sum over the inner dimension of a matrix product at a row and a column, from `init`.
    #[verifier::rlimit(40)]
    fn dot_sum(
        &mut self,
        a: &Expr,
        b: &Expr,
        k: &Dim,
        row: ValRef,
        column: ValRef,
        init: ValRef,
        span: Span,
    ) -> (r: ValRef)
        requires
            old(self).wf(),
        ensures
            final(self).wf(),
            final(self).st() == dot_sum_s(old(self).st(), *a, *b, k@, row, column, init, span).0,
            r == dot_sum_s(old(self).st(), *a, *b, k@, row, column, init, span).1,
    {
        proof {
            reveal(dot_sum_s);
        }
        let sum_slot = self.new_slot_id();
        let sum_vs = make_scalar(sum_slot, AddrSpace::Local, Elem::Float, BTy::Scalar(Scalar::F32));
        self.store_scalar(&sum_vs, init);
        let kdims = one_dim(k);
        let ghost st2 = self.st();
        let lk = self.open_tile_loop(&kdims, 1, span);
        proof { lemma_loops_len(st2, dims_view(kdims@), 1, span); }
        let at = lk.idx[0];
        let a_val = self.eval_expr(a, &pair(row, at));
        let b_val = self.eval_expr(b, &pair(at, column));
        let prod = self.push(BTy::Scalar(Scalar::F32), Op::Bin(BBin::FMul, a_val, b_val));
        let cur_sum = self.load_scalar(&sum_vs);
        let new_sum = self.push(BTy::Scalar(Scalar::F32), Op::Bin(BBin::FAdd, cur_sum, prod));
        self.store_scalar(&sum_vs, new_sum);
        self.close_tile_loop(&lk.levels, lk.levels.len());
        self.load_scalar(&sum_vs)
    }

    /// The loops of a matrix product.
    #[verifier::rlimit(40)]
    fn dot_loops(&mut self, name: &str, args: &Vec<Expr>, m: Dim, k: Dim, n: Dim, span: Span)
        requires
            old(self).wf(),
            args@.len() >= 2,
        ensures
            final(self).wf(),
            final(self).st() == dot_loops_s(old(self).st(), name@, args@, m@, k@, n@, span),
    {
        proof {
            reveal(dot_loops_s);
        }
        let out_shape = TileTy::Rank2(m, n);
        let dims = tile_dims(&out_shape);
        let l = self.open_tile_loop(&dims, dims.len(), span);
        proof { lemma_loops_len(old(self).st(), dims_view(dims@), dims@.len(), span); }
        let dest = self.get_or_new_tile_var(
            name,
            &out_shape,
            BTy::Scalar(Scalar::F32),
            copy_refs(&l.bounds),
        );
        let init = if args.len() > 2 {
            self.eval_expr(&args[2], &l.idx)
        } else {
            self.zero_of(BTy::Scalar(Scalar::F32))
        };
        let sum = self.dot_sum(&args[0], &args[1], &k, l.idx[0], l.idx[1], init, span);
        let addr = self.tile_elem_addr(&dest, &l.idx, span);
        self.push_void(Op::Store {
            ptr: addr,
            val: sum,
            ty: BTy::Scalar(Scalar::F32),
            space: AddrSpace::Global,
            align: bty_align(BTy::Scalar(Scalar::F32)),
            volatile: false,
        });
        self.close_tile_loop(&l.levels, l.levels.len());
    }

    /// A store at a position, where its mask holds if it has one.
    fn store_element(&mut self, addr: ValRef, val: ValRef, bty: BTy, mask: Option<ValRef>)
        requires
            old(self).wf(),
        ensures
            final(self).wf(),
            final(self).st() == store_element_s(old(self).st(), addr, val, bty, mask),
    {
        proof {
            reveal(store_element_s);
        }
        match mask {
            None => {
                self.push_void(Op::Store {
                    ptr: addr,
                    val,
                    ty: bty,
                    space: AddrSpace::Global,
                    align: bty_align(bty),
                    volatile: false,
                });
            },
            Some(m) => {
                let store_bb = self.alloc_block();
                let skip_bb = self.alloc_block();
                let merge_bb = self.alloc_block();
                self.terminate(Term::CondBr(m, store_bb, skip_bb));
                self.set_cur(store_bb);
                self.push_void(Op::Store {
                    ptr: addr,
                    val,
                    ty: bty,
                    space: AddrSpace::Global,
                    align: bty_align(bty),
                    volatile: false,
                });
                self.terminate(Term::Br(merge_bb));
                self.set_cur(skip_bb);
                self.terminate(Term::Br(merge_bb));
                self.set_cur(merge_bb);
            },
        }
    }

    /// `tl.store(pointer, value, mask)`, over the shape of the value.
    #[verifier::rlimit(30)]
    fn lower_store_call(&mut self, e: &Expr)
        requires
            old(self).wf(),
        ensures
            final(self).wf(),
            final(self).st() == lower_store_call_s(old(self).st(), *e),
    {
        proof {
            reveal(lower_store_call_s);
        }
        match e {
            Expr::Call { args, keywords, span, .. } => {
                if args.len() < 2 {
                    self.diag(
                        *span,
                        "'tl.store' called with fewer than a pointer and a value argument",
                        "cannot lower",
                    );
                } else {
                    let shape = self.shape_of(&args[1]);
                    if shape.is_unknown() {
                        self.diag(
                            *span,
                            "'tl.store' value with unresolved tile shape",
                            "cannot lower",
                        );
                    } else {
                        let elem_bty = self.elem_bty_for(&args[1]);
                        let dims = tile_dims(&shape);
                        let l = self.open_tile_loop(&dims, dims.len(), *span);
                        let addr = self.eval_expr(&args[0], &l.idx);
                        let val = self.eval_expr(&args[1], &l.idx);
                        let found = find_keyword(keywords, "mask");
                        let mask = match found {
                            Some(k) => {
                                let m = self.eval_expr(&keywords[k].value, &l.idx);
                                Some(m)
                            },
                            None => {
                                None
                            },
                        };
                        self.store_element(addr, val, elem_bty, mask);
                        self.close_tile_loop(&l.levels, l.levels.len());
                    }
                }
            },
            _ => {},
        }
    }

    /// An expression on its own: a store, or a scalar.
    fn lower_expr_stmt(&mut self, value: &Expr, span: Span)
        requires
            old(self).wf(),
        ensures
            final(self).wf(),
            final(self).st() == lower_expr_stmt_s(old(self).st(), *value, span),
    {
        proof {
            reveal(lower_expr_stmt_s);
        }
        let is_store = match value {
            Expr::Call { func, .. } => attr_is(func, "store"),
            _ => false,
        };
        if is_store {
            self.lower_store_call(value);
        } else {
            let shape = self.shape_of(value);
            if shape.is_scalar() {
                self.eval_expr(value, &no_refs());
            } else {
                self.diag(
                    span,
                    "bare tile-shaped expression statement",
                    "not supported outside of 'tl.store' or an assignment",
                );
            }
        }
    }

    /// An assignment.
    fn lower_assign(&mut self, targets: &Vec<Expr>, value: &Expr, span: Span)
        requires
            old(self).wf(),
        ensures
            final(self).wf(),
            final(self).st() == lower_assign_s(old(self).st(), targets@, *value, span),
    {
        proof {
            reveal(lower_assign_s);
        }
        let found = assign_target_names(targets);
        match found {
            None => {
                self.diag(
                    span,
                    "assignment target other than a bare name",
                    "tuple/attribute/subscript assignment targets are not lowered",
                );
            },
            Some(names) => {
                if names.len() > 0 {
                    let is_dot = match value {
                        Expr::Call { func, .. } => attr_is(func, "dot"),
                        _ => false,
                    };
                    if is_dot {
                        if names.len() != 1 {
                            self.diag(
                                span,
                                "'tl.dot' assigned to more than one target",
                                "not supported",
                            );
                        } else {
                            match value {
                                Expr::Call { args, span: call_span, .. } => {
                                    assert(names_view(names@)[0] == names@[0]@);
                                    self.lower_dot_stmt(names[0].as_str(), args, *call_span);
                                },
                                _ => {},
                            }
                        }
                    } else {
                        let shape = self.shape_of(value);
                        if shape.is_scalar() {
                            let elem_bty = self.elem_bty_for(value);
                            let v = self.eval_expr(value, &no_refs());
                            self.store_names(&names, names.len(), elem_bty, v);
                        } else if shape.is_unknown() {
                            self.diag(
                                span,
                                "assignment with unresolved tile shape",
                                "right-hand side shape could not be determined (see earlier diagnostics)",
                            );
                        } else {
                            self.materialize_names(&names, names.len(), value, &shape, span);
                        }
                    }
                }
            },
        }
    }

    /// An annotated assignment, to a scalar.
    fn lower_ann_assign(&mut self, target: &Expr, value: &Option<Expr>, span: Span)
        requires
            old(self).wf(),
        ensures
            final(self).wf(),
            final(self).st() == lower_ann_assign_s(old(self).st(), *target, *value, span),
    {
        proof {
            reveal(lower_ann_assign_s);
        }
        match target {
            Expr::Name { name, .. } => {
                match value {
                    Some(v) => {
                        let elem_bty = self.elem_bty_for(v);
                        let val = self.eval_expr(v, &no_refs());
                        let vs = self.get_or_new_scalar_var(name.as_str(), elem_bty);
                        self.store_scalar(&vs, val);
                    },
                    None => {},
                }
            },
            _ => {
                self.diag(span, "annotated assignment to a non-name target", "not supported");
            },
        }
    }

    /// An augmented assignment, to a scalar.
    fn lower_augassign(&mut self, target: &Expr, op: BinOp, value: &Expr, span: Span)
        requires
            old(self).wf(),
        ensures
            final(self).wf(),
            final(self).st() == lower_augassign_s(old(self).st(), *target, op, *value, span),
    {
        proof {
            reveal(lower_augassign_s);
        }
        match target {
            Expr::Name { name, .. } => {
                match self.var(name.as_str()) {
                    None => {
                        self.diag(
                            span,
                            "augmented assignment on a tile-ranked value",
                            "only scalar accumulators are supported",
                        );
                    },
                    Some(vs) => {
                        if !vs.shape.is_scalar() {
                            self.diag(
                                span,
                                "augmented assignment on a tile-ranked value",
                                "only scalar accumulators are supported",
                            );
                        } else {
                            let cur = self.load_scalar(&vs);
                            let rhs = self.eval_expr(value, &no_refs());
                            let result = self.apply_binop(op, cur, rhs, vs.elem_bty, span);
                            self.store_scalar(&vs, result);
                        }
                    },
                }
            },
            _ => {
                self.diag(span, "augmented assignment to a non-name target", "not supported");
            },
        }
    }

    /// The first `n` statements of a list.
    fn lower_stmts(&mut self, ss: &Vec<Stmt>, n: usize)
        requires
            old(self).wf(),
            n <= ss@.len(),
        ensures
            final(self).wf(),
            final(self).st() == lower_stmts_s(old(self).st(), ss@, n as nat),
        decreases ss, n,
    {
        if n > 0 {
            self.lower_stmts(ss, n - 1);
            self.lower_stmt(&ss[n - 1]);
        }
    }

    /// `if`, on a scalar.
    fn lower_if(&mut self, s: &Stmt)
        requires
            old(self).wf(),
        ensures
            final(self).wf(),
            final(self).st() == lower_if_s(old(self).st(), *s),
        decreases s, 8nat,
    {
        match s {
            Stmt::If { test, body, orelse, span } => {
                let shape = self.shape_of(test);
                if !shape.is_scalar() {
                    self.diag(
                        *span,
                        "'if' on a tile-ranked condition",
                        "not supported (Triton masking is expressed via tl.load/tl.store's mask=, not a Python 'if')",
                    );
                } else {
                    let cond = self.eval_expr(test, &no_refs());
                    let then_bb = self.alloc_block();
                    let else_bb = self.alloc_block();
                    let merge_bb = self.alloc_block();
                    self.terminate(Term::CondBr(cond, then_bb, else_bb));
                    self.set_cur(then_bb);
                    self.lower_stmts(body, body.len());
                    self.terminate(Term::Br(merge_bb));
                    self.set_cur(else_bb);
                    self.lower_stmts(orelse, orelse.len());
                    self.terminate(Term::Br(merge_bb));
                    self.set_cur(merge_bb);
                }
            },
            _ => {},
        }
    }

    /// The start, end and step of a `range`.
    fn range_bounds(&mut self, args: &Vec<Expr>) -> (r: (ValRef, ValRef, ValRef))
        requires
            old(self).wf(),
            1 <= args@.len() <= 3,
        ensures
            final(self).wf(),
            final(self).st() == range_bounds_s(old(self).st(), args@).0,
            r == range_bounds_s(old(self).st(), args@).1,
    {
        proof {
            reveal(range_bounds_s);
        }
        if args.len() == 1 {
            let start = self.const_i64(0);
            let stop = self.eval_expr(&args[0], &no_refs());
            let step = self.const_i64(1);
            (start, stop, step)
        } else if args.len() == 2 {
            let start = self.eval_expr(&args[0], &no_refs());
            let stop = self.eval_expr(&args[1], &no_refs());
            let step = self.const_i64(1);
            (start, stop, step)
        } else {
            let start = self.eval_expr(&args[0], &no_refs());
            let stop = self.eval_expr(&args[1], &no_refs());
            let step = self.eval_expr(&args[2], &no_refs());
            (start, stop, step)
        }
    }

    /// Opens a loop that counts from `start` while below `stop`: the blocks of its test, its step
    /// and what follows it.
    fn open_range(
        &mut self,
        ctr: &VarSlot,
        start: ValRef,
        stop: ValRef,
    ) -> (r: (BlockId, BlockId, BlockId))
        requires
            old(self).wf(),
        ensures
            final(self).wf(),
            final(self).st() == open_range_s(old(self).st(), ctr@, start, stop).0,
            r == open_range_s(old(self).st(), ctr@, start, stop).1,
    {
        proof {
            reveal(open_range_s);
        }
        self.store_scalar(ctr, start);
        let cond_bb = self.alloc_block();
        let body_bb = self.alloc_block();
        let step_bb = self.alloc_block();
        let exit_bb = self.alloc_block();
        self.terminate(Term::Br(cond_bb));
        self.set_cur(cond_bb);
        let iv = self.load_scalar(ctr);
        let less = self.push(
            BTy::Scalar(Scalar::I1),
            Op::ICmp(ICmpPred::Slt, BTy::Scalar(Scalar::I64), iv, stop),
        );
        self.terminate(Term::CondBr(less, body_bb, exit_bb));
        self.set_cur(body_bb);
        (cond_bb, step_bb, exit_bb)
    }

    /// Closes a loop that counts by `step`.
    fn close_range(&mut self, ctr: &VarSlot, step: ValRef, at: (BlockId, BlockId, BlockId))
        requires
            old(self).wf(),
        ensures
            final(self).wf(),
            final(self).st() == close_range_s(old(self).st(), ctr@, step, at),
    {
        proof {
            reveal(close_range_s);
        }
        let (cond_bb, step_bb, exit_bb) = at;
        self.terminate(Term::Br(step_bb));
        self.set_cur(step_bb);
        let iv2 = self.load_scalar(ctr);
        let next = self.push(BTy::Scalar(Scalar::I64), Op::Bin(BBin::Add, iv2, step));
        self.store_scalar(ctr, next);
        self.terminate(Term::Br(cond_bb));
        self.set_cur(exit_bb);
    }

    /// The body of a `for` over a `range`.
    fn lower_range(&mut self, s: &Stmt, name: &str, start: ValRef, stop: ValRef, step: ValRef)
        requires
            old(self).wf(),
        ensures
            final(self).wf(),
            final(self).st() == lower_range_s(old(self).st(), *s, name@, start, stop, step),
        decreases s, 7nat,
    {
        match s {
            Stmt::For { body, .. } => {
                let ctr = self.get_or_new_scalar_var(name, BTy::Scalar(Scalar::I64));
                let at = self.open_range(&ctr, start, stop);
                self.enter(at.2, at.1);
                self.lower_stmts(body, body.len());
                self.leave();
                self.close_range(&ctr, step, at);
            },
            _ => {},
        }
    }

    /// `for name in range(...)`.
    fn lower_for(&mut self, s: &Stmt)
        requires
            old(self).wf(),
        ensures
            final(self).wf(),
            final(self).st() == lower_for_s(old(self).st(), *s),
        decreases s, 8nat,
    {
        match s {
            Stmt::For { target, iter, orelse, span, .. } => {
                if orelse.len() > 0 {
                    self.diag(*span, "'for ... else'", "not supported");
                };
                match target {
                    Expr::Name { name, .. } => {
                        match iter {
                            Expr::Call { func, args, .. } => {
                                if !is_name(&**func, "range") {
                                    self.diag(
                                        *span,
                                        "'for' loop over something other than 'range(...)'",
                                        "not supported",
                                    );
                                } else if args.len() == 0 || args.len() > 3 {
                                    self.diag(
                                        *span,
                                        "'range(...)' with an unsupported argument count",
                                        "expected 1, 2, or 3 arguments",
                                    );
                                } else {
                                    let bounds = self.range_bounds(args);
                                    self.lower_range(
                                        s,
                                        name.as_str(),
                                        bounds.0,
                                        bounds.1,
                                        bounds.2,
                                    );
                                }
                            },
                            _ => {
                                self.diag(
                                    *span,
                                    "'for' loop over something other than 'range(...)'",
                                    "not supported",
                                );
                            },
                        }
                    },
                    _ => {
                        self.diag(
                            *span,
                            "'for' loop target other than a bare name",
                            "not supported",
                        );
                    },
                }
            },
            _ => {},
        }
    }

    /// Ends the block by a jump out of or on in the innermost loop, and opens another for what
    /// follows.
    fn lower_jump(&mut self, is_break: bool, span: Span)
        requires
            old(self).wf(),
        ensures
            final(self).wf(),
            final(self).st() == lower_jump_s(old(self).st(), is_break, span),
    {
        proof {
            reveal(lower_jump_s);
        }
        let n = self.ctrl_stack.len();
        let target = if n == 0 {
            None
        } else if is_break {
            Some(self.ctrl_stack[n - 1].0)
        } else {
            Some(self.ctrl_stack[n - 1].1)
        };
        match target {
            Some(bb) => {
                self.terminate(Term::Br(bb));
            },
            None => {
                if is_break {
                    self.diag(span, "'break' outside of a loop", "not supported");
                } else {
                    self.diag(span, "'continue' outside of a loop", "not supported");
                };
                self.terminate(Term::Ret(None));
            },
        };
        let bb2 = self.alloc_block();
        self.set_cur(bb2);
    }

    /// One statement.
    fn lower_stmt(&mut self, s: &Stmt)
        requires
            old(self).wf(),
        ensures
            final(self).wf(),
            final(self).st() == lower_stmt_s(old(self).st(), *s),
        decreases s, 9nat,
    {
        match s {
            Stmt::Expr { value, span } => {
                self.lower_expr_stmt(value, *span);
            },
            Stmt::Assign { targets, value, span } => {
                self.lower_assign(targets, value, *span);
            },
            Stmt::AugAssign { target, op, value, span } => {
                self.lower_augassign(target, *op, value, *span);
            },
            Stmt::AnnAssign { target, value, span, .. } => {
                self.lower_ann_assign(target, value, *span);
            },
            Stmt::If { .. } => {
                self.lower_if(s);
            },
            Stmt::For { .. } => {
                self.lower_for(s);
            },
            Stmt::While { span, .. } => {
                self.diag(*span, "'while' loop", "not supported by Triton lowering");
            },
            Stmt::Return { .. } => {
                self.terminate(Term::Ret(None));
                let bb = self.alloc_block();
                self.set_cur(bb);
            },
            Stmt::Break { span } => {
                self.lower_jump(true, *span);
            },
            Stmt::Continue { span } => {
                self.lower_jump(false, *span);
            },
            Stmt::Assert { .. } | Stmt::Pass { .. } | Stmt::Error { .. } => {},
        }
    }

    /// Binds the first `n` parameters. A `constexpr` one with a literal default is a constant;
    /// every other is passed, as a pointer if `k` uses it as one.
    fn seed_params(&mut self, k: &KernelFn, ptrs: &Vec<String>, n: usize) -> (r: Pending)
        requires
            old(self).wf(),
            n <= k.params@.len(),
            forall|x: Seq<char>| #[trigger] names_view(ptrs@).contains(x) <==> pointer_name(*k, x),
        ensures
            final(self).wf(),
            final(self).st() == seed_params_s(old(self).st(), *k, n as nat).0,
            r@ == seed_params_s(old(self).st(), *k, n as nat).1,
        decreases n,
    {
        if n == 0 {
            let p = Pending { inits: Vec::new(), stores: Vec::new(), params: Vec::new() };
            assert(p@.inits =~= Seq::empty() && p@.stores =~= Seq::empty()
                && p@.params =~= Seq::empty());
            return p;
        }
        let mut acc = self.seed_params(k, ptrs, n - 1);
        let ghost before = acc@;
        let p = &k.params[n - 1];
        let lit = if p.is_constexpr {
            match &p.default { Some(d) => expr_as_i64(d), None => None }
        } else {
            None
        };
        match lit {
            Some(v) => {
                let slot = self.new_slot_id();
                let vs = make_scalar(slot, AddrSpace::Local, Elem::Int, BTy::Scalar(Scalar::I64));
                self.bind(p.name.as_str(), vs.copy());
                acc.inits.push((vs, v));
                assert(acc@.inits =~= before.inits.push((vs@, v)));
            },
            None => {
                let elem = if p.is_constexpr { Elem::Int } else { Elem::Unknown };
                let bty = if !p.is_constexpr && crate::sema::labels::has_name(ptrs, p.name.as_str()) {
                    BTy::Ptr(AddrSpace::Global)
                } else {
                    BTy::Scalar(Scalar::I64)
                };
                let index = usize_to_u32(acc.params.len());
                if is_ptr(bty) { self.scratch_param_idx = Some(index); }
                let slot = self.new_slot_id();
                let vs = make_scalar(slot, AddrSpace::Param, elem, bty);
                self.bind(p.name.as_str(), vs.copy());
                acc.params.push(bty);
                acc.stores.push((vs, index));
                assert(acc@.stores =~= before.stores.push((vs@, index)));
                assert(acc@.params =~= before.params.push(bty));
            },
        }
        acc
    }

    /// Stores the first `n` constants.
    fn store_inits(&mut self, p: &Pending, n: usize)
        requires
            old(self).wf(),
            n <= p.inits@.len(),
        ensures
            final(self).wf(),
            final(self).st() == store_inits_s(old(self).st(), p@, n as nat),
        decreases n,
    {
        if n > 0 {
            self.store_inits(p, n - 1);
            let lit = p.inits[n - 1].1;
            assert(p@.inits[n - 1] == (p.inits@[n - 1].0@, lit));
            let v = self.const_i64(lit);
            self.store_scalar(&p.inits[n - 1].0, v);
        }
    }

    /// Stores the first `n` parameters.
    fn store_params(&mut self, p: &Pending, n: usize)
        requires
            old(self).wf(),
            n <= p.stores@.len(),
        ensures
            final(self).wf(),
            final(self).st() == store_params_s(old(self).st(), p@, n as nat),
        decreases n,
    {
        if n > 0 {
            self.store_params(p, n - 1);
            let i = p.stores[n - 1].1;
            assert(p@.stores[n - 1] == (p.stores@[n - 1].0@, i));
            self.store_scalar(&p.stores[n - 1].0, ValRef::Param(i));
        }
    }

    /// The body of a kernel; the types of its parameters are the result.
    fn lower_kernel_body(&mut self, k: &KernelFn) -> (r: Vec<BTy>)
        requires
            old(self).wf(),
        ensures
            final(self).wf(),
            final(self).st() == lower_kernel_body_s(old(self).st(), *k).0,
            r@ == lower_kernel_body_s(old(self).st(), *k).1,
    {
        proof {
            reveal(lower_kernel_body_s);
        }
        let ptrs = ptr_param_names(k);
        let p = self.seed_params(k, &ptrs, k.params.len());
        let entry = self.alloc_block();
        self.set_cur(entry);
        self.store_inits(&p, p.inits.len());
        self.store_params(&p, p.stores.len());
        self.lower_stmts(&k.body, k.body.len());
        self.terminate(Term::Ret(None));
        p.params
    }

}

fn lower_kernel(k: &KernelFn, shapes: &KernelShapes) -> (r: (Function, Vec<Diag>))
    ensures
        r.0@ == kernel_lowered(*k, shapes@.expr_types).0,
        diags_view(r.1@) == kernel_lowered(*k, shapes@.expr_types).1,
        in_print_order(r.0@.blocks, r.0@.insts),
{
    let mut lw = Lowerer {
        shapes,
        diags: Vec::new(),
        vars: Assoc::new(),
        next_slot: 0,
        next_tile_ordinal: 0,
        scratch_param_idx: None,
        b: Builder::new(),
        ctrl_stack: Vec::new(),
    };
    assert(lw.st().ctrl =~= Seq::empty());
    assert(lw.st().diags =~= Seq::empty());
    let params = lw.lower_kernel_body(k);
    let (blocks, insts) = lw.b.finish();
    (
        Function { name: k.name.clone(), is_kernel: true, params, ret: BTy::Void, blocks, insts },
        lw.diags,
    )
}

/// Lowers every kernel of a module, given the shapes that were inferred for each.
pub fn lower_triton(module: &Module, shapes: &Vec<KernelShapes>) -> (r: (BModule, Vec<Diag>))
    ensures
        ({
            let n = least(module.kernels@.len(), shapes@.len());
            &&& r.0@ == (ModuleV {
                funcs: kernels_lowered(module.kernels@, shapes_view(shapes@), n),
                launch_bounds: None,
                shared_mem_bytes: 0,
                target_dtypes: Seq::empty(),
            })
            &&& diags_view(r.1@) == kernels_diags(module.kernels@, shapes_view(shapes@), n)
        }),
        all_in_print_order(r.0@.funcs),
{
    let ghost sv = shapes_view(shapes@);
    let n: usize = if module.kernels.len() < shapes.len() {
        module.kernels.len()
    } else {
        shapes.len()
    };
    let mut funcs: Vec<Function> = Vec::new();
    let mut diags: Vec<Diag> = Vec::new();
    let mut i: usize = 0;
    assert(funcs_view(funcs@) =~= kernels_lowered(module.kernels@, sv, 0));
    assert(funcs_view(funcs@) =~= Seq::empty());
    assert(diags_view(diags@) =~= Seq::empty());
    proof {
        lemma_none_in_print_order();
    }
    while i < n
        invariant
            i <= n,
            n <= module.kernels@.len(),
            n <= shapes@.len(),
            sv == shapes_view(shapes@),
            funcs_view(funcs@) == kernels_lowered(module.kernels@, sv, i as nat),
            diags_view(diags@) == kernels_diags(module.kernels@, sv, i as nat),
            all_in_print_order(funcs_view(funcs@)),
        decreases n - i,
    {
        let ghost before = funcs_view(funcs@);
        let ghost reported = diags@;
        assert(sv[i as int] == shapes@[i as int]@);
        let (f, mut d) = lower_kernel(&module.kernels[i], &shapes[i]);
        let ghost own = d@;
        funcs.push(f);
        diags.append(&mut d);
        assert(diags_view(diags@) =~= diags_view(reported) + diags_view(own));
        assert(funcs_view(funcs@) =~= before.push(f@));
        assert(funcs_view(funcs@) =~= kernels_lowered(module.kernels@, sv, i as nat + 1));
        proof {
            lemma_all_in_print_order(before, f@);
        }
        i = i + 1;
    }
    let m = BModule { funcs, launch_bounds: None, shared_mem_bytes: 0, target_dtypes: Vec::new() };
    assert(m@.target_dtypes =~= Seq::empty());
    (m, diags)
}

} // verus!
