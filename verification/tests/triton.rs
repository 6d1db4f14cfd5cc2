//! Triton kernels from source text to shapes and BIR. A small parser reads the sources.

use std::collections::HashMap;

use basalt::bir::{AddrSpace, BinOp as BBin, FloatConst, Function, ICmpPred, Op, Scalar, Term, Ty, ValRef};
use basalt::diag::{Diag, ECode, Loc, Span};
use basalt::sema::triton_ast::{BinOp, CmpOp, Expr, KernelFn, Keyword, Module, Param, Stmt, UnaryOp};
use basalt::sema::triton_check::check_triton;
use basalt::sema::triton_lower::lower_triton;
use basalt::sema::triton_ty::{Dim, Elem, TileTy};

// ---- a parser for the sources below --------------------------------------------------------

fn tokens(line: &str) -> Vec<String> {
    let two = ["//", "<=", ">=", "==", "!=", "<<", ">>", "+=", "-=", "*=", "/="];
    let cs: Vec<char> = line.chars().collect();
    let mut out = Vec::new();
    let mut i = 0;
    while i < cs.len() {
        let c = cs[i];
        if c.is_whitespace() {
            i += 1;
        } else if c.is_alphanumeric() || c == '_' {
            let start = i;
            while i < cs.len() && (cs[i].is_alphanumeric() || cs[i] == '_' || (cs[start].is_ascii_digit() && cs[i] == '.')) {
                i += 1;
            }
            out.push(cs[start..i].iter().collect());
        } else if c == '"' {
            out.push(cs[i..].iter().collect());
            i = cs.len();
        } else {
            let rest: String = cs[i..].iter().take(2).collect();
            let text = if two.contains(&rest.as_str()) { rest } else { c.to_string() };
            i += text.len();
            out.push(text);
        }
    }
    out
}

struct Parser {
    lines: Vec<(usize, Vec<String>)>,
    line: usize,
    at: usize,
    spans: u32,
}

const BINARY: [(&str, BinOp, u8); 11] = [
    ("|", BinOp::BitOr, 1),
    ("^", BinOp::BitXor, 2),
    ("&", BinOp::BitAnd, 3),
    ("<<", BinOp::LShift, 4),
    (">>", BinOp::RShift, 4),
    ("+", BinOp::Add, 5),
    ("-", BinOp::Sub, 5),
    ("*", BinOp::Mul, 6),
    ("//", BinOp::FloorDiv, 6),
    ("%", BinOp::Mod, 6),
    ("@", BinOp::MatMul, 6),
];

const COMPARE: [(&str, CmpOp); 7] = [
    ("==", CmpOp::Eq),
    ("!=", CmpOp::NotEq),
    ("<", CmpOp::Lt),
    ("<=", CmpOp::LtE),
    (">", CmpOp::Gt),
    (">=", CmpOp::GtE),
    ("in", CmpOp::In),
];

impl Parser {
    fn peek(&self) -> &str {
        self.lines[self.line].1.get(self.at).map(|s| s.as_str()).unwrap_or("")
    }

    fn next(&mut self) -> String {
        self.at += 1;
        self.lines[self.line].1[self.at - 1].clone()
    }

    fn eat(&mut self, t: &str) -> bool {
        let hit = self.peek() == t;
        if hit {
            self.at += 1;
        }
        hit
    }

    fn expect(&mut self, t: &str) {
        assert!(self.eat(t), "expected {t}, got {} in {:?}", self.peek(), self.lines[self.line]);
    }

    /// A span that no other node has.
    fn span(&mut self) -> Span {
        self.spans += 1;
        let loc = Loc { line: self.spans, col: 1 };
        Span { start: loc, end: loc }
    }

    fn end_line(&mut self) {
        assert_eq!(self.peek(), "");
        self.line += 1;
        self.at = 0;
    }

    fn module(mut self) -> Module {
        let mut kernels = Vec::new();
        while self.line < self.lines.len() {
            if self.peek() != "def" {
                self.line += 1;
                continue;
            }
            self.at = 1;
            let name = self.next();
            self.expect("(");
            let mut params = Vec::new();
            while !self.eat(")") {
                let name = self.next();
                let is_constexpr = self.eat(":");
                if is_constexpr {
                    self.expect("tl");
                    self.expect(".");
                    self.expect("constexpr");
                }
                let default = if self.eat("=") { Some(self.expr()) } else { None };
                params.push(Param { name, is_constexpr, default });
                self.eat(",");
            }
            self.expect(":");
            self.end_line();
            let body = self.block(0);
            kernels.push(KernelFn { name, params, body });
        }
        Module { kernels }
    }

    /// The lines that are indented further than `outer`.
    fn block(&mut self, outer: usize) -> Vec<Stmt> {
        let mut stmts = Vec::new();
        while self.line < self.lines.len() && self.lines[self.line].0 > outer {
            let indent = self.lines[self.line].0;
            stmts.push(self.stmt(indent));
        }
        stmts
    }

    fn orelse(&mut self, indent: usize) -> Vec<Stmt> {
        if self.line < self.lines.len() && self.lines[self.line].0 == indent && self.peek() == "else" {
            self.at = 1;
            self.expect(":");
            self.end_line();
            self.block(indent)
        } else {
            Vec::new()
        }
    }

    fn stmt(&mut self, indent: usize) -> Stmt {
        let span = self.span();
        match self.peek() {
            "pass" => {
                self.at += 1;
                self.end_line();
                Stmt::Pass { span }
            }
            "break" => {
                self.at += 1;
                self.end_line();
                Stmt::Break { span }
            }
            "continue" => {
                self.at += 1;
                self.end_line();
                Stmt::Continue { span }
            }
            "return" => {
                self.at += 1;
                self.end_line();
                Stmt::Return { value: None, span }
            }
            "if" => {
                self.at += 1;
                let test = self.expr();
                self.expect(":");
                self.end_line();
                let body = self.block(indent);
                let orelse = self.orelse(indent);
                Stmt::If { test, body, orelse, span }
            }
            "while" => {
                self.at += 1;
                let test = self.expr();
                self.expect(":");
                self.end_line();
                let body = self.block(indent);
                Stmt::While { test, body, orelse: Vec::new(), span }
            }
            "for" => {
                self.at += 1;
                let target = self.binary(1);
                self.expect("in");
                let iter = self.expr();
                self.expect(":");
                self.end_line();
                let body = self.block(indent);
                let orelse = self.orelse(indent);
                Stmt::For { target, iter, body, orelse, span }
            }
            _ => {
                let first = self.expr();
                let aug = [("+=", BinOp::Add), ("-=", BinOp::Sub), ("*=", BinOp::Mul)];
                let op = aug.iter().find(|a| a.0 == self.peek()).map(|a| a.1);
                let s = if let Some(op) = op {
                    self.at += 1;
                    Stmt::AugAssign { target: first, op, value: self.expr(), span }
                } else if self.eat("=") {
                    let mut targets = vec![first];
                    let mut value = self.expr();
                    while self.eat("=") {
                        targets.push(value);
                        value = self.expr();
                    }
                    Stmt::Assign { targets, value, span }
                } else if self.eat(":") {
                    let note = self.expr();
                    let is_constexpr = matches!(&note, Expr::Attribute { attr, .. } if attr == "constexpr");
                    let value = if self.eat("=") { Some(self.expr()) } else { None };
                    Stmt::AnnAssign { target: first, is_constexpr, value, span }
                } else {
                    Stmt::Expr { value: first, span }
                };
                self.end_line();
                s
            }
        }
    }

    fn expr(&mut self) -> Expr {
        let left = self.binary(1);
        let mut ops = Vec::new();
        let mut comparators = Vec::new();
        while let Some(op) = COMPARE.iter().find(|c| c.0 == self.peek()).map(|c| c.1) {
            self.at += 1;
            ops.push(op);
            comparators.push(self.binary(1));
        }
        if ops.is_empty() {
            return left;
        }
        let span = self.span();
        Expr::Compare { left: Box::new(left), ops, comparators, span }
    }

    fn binary(&mut self, level: u8) -> Expr {
        let mut lhs = self.unary();
        loop {
            let found = BINARY.iter().find(|b| b.0 == self.peek() && b.2 >= level);
            let Some(&(_, op, l)) = found else {
                return lhs;
            };
            self.at += 1;
            let rhs = Box::new(self.binary(l + 1));
            let span = self.span();
            lhs = Expr::BinOp { op, lhs: Box::new(lhs), rhs, span };
        }
    }

    fn unary(&mut self) -> Expr {
        let op = match self.peek() {
            "-" => Some(UnaryOp::USub),
            "+" => Some(UnaryOp::UAdd),
            "~" => Some(UnaryOp::Invert),
            "not" => Some(UnaryOp::Not),
            _ => None,
        };
        if let Some(op) = op {
            self.at += 1;
            let operand = Box::new(self.unary());
            let span = self.span();
            return Expr::UnaryOp { op, operand, span };
        }
        let mut e = self.primary();
        loop {
            let span = self.span();
            if self.eat(".") {
                let attr = self.next();
                e = Expr::Attribute { value: Box::new(e), attr, span };
            } else if self.eat("(") {
                let mut args = Vec::new();
                let mut keywords = Vec::new();
                while !self.eat(")") {
                    let a = self.expr();
                    if self.eat("=") {
                        let Expr::Name { name, .. } = a else {
                            panic!("no keyword");
                        };
                        keywords.push(Keyword { name: Some(name), value: self.expr() });
                    } else {
                        args.push(a);
                    }
                    self.eat(",");
                }
                e = Expr::Call { func: Box::new(e), args, keywords, span };
            } else if self.eat("[") {
                let index = Box::new(self.index());
                self.expect("]");
                e = Expr::Subscript { value: Box::new(e), index, span };
            } else {
                return e;
            }
        }
    }

    fn index(&mut self) -> Expr {
        let first = self.index_part();
        if self.peek() != "," {
            return first;
        }
        let mut elts = vec![first];
        while self.eat(",") {
            elts.push(self.index_part());
        }
        let span = self.span();
        Expr::Tuple { elts, span }
    }

    fn index_part(&mut self) -> Expr {
        let lower = if self.peek() == ":" { None } else { Some(Box::new(self.expr())) };
        if !self.eat(":") {
            return *lower.unwrap();
        }
        let upper = if self.peek() == "," || self.peek() == "]" { None } else { Some(Box::new(self.expr())) };
        let span = self.span();
        Expr::Slice { lower, upper, step: None, span }
    }

    fn primary(&mut self) -> Expr {
        let span = self.span();
        let t = self.next();
        let first = t.chars().next().unwrap();
        if first == '(' {
            let e = self.expr();
            if self.eat(")") {
                return e;
            }
            let mut elts = vec![e];
            while self.eat(",") {
                if self.peek() != ")" {
                    elts.push(self.expr());
                }
            }
            self.expect(")");
            return Expr::Tuple { elts, span };
        }
        if first == '"' {
            return Expr::StrLit { span };
        }
        if first.is_ascii_digit() && t.contains('.') {
            let v: Option<f64> = t.parse().ok();
            let value = v.map(|v| FloatConst { double: v.to_bits(), single: (v as f32).to_bits() });
            return Expr::FloatLit { value, span };
        }
        if first.is_ascii_digit() {
            return Expr::IntLit { text: t, span };
        }
        match t.as_str() {
            "None" => Expr::NoneLit { span },
            "True" => Expr::BoolLit { value: true, span },
            "False" => Expr::BoolLit { value: false, span },
            _ => Expr::Name { name: t, span },
        }
    }
}

fn parse_ok(src: &str) -> Module {
    let lines = src
        .lines()
        .filter(|l| !l.trim().is_empty())
        .map(|l| (l.len() - l.trim_start().len(), tokens(l)))
        .collect();
    Parser { lines, line: 0, at: 0, spans: 0 }.module()
}

fn codes(diags: &[Diag]) -> Vec<ECode> {
    diags.iter().map(|d| d.code).collect()
}

/// The right-hand side of a statement that is an assignment.
fn assign_value(body: &[Stmt], idx: usize) -> &Expr {
    match &body[idx] {
        Stmt::Assign { value, .. } => value,
        other => panic!("statement {idx} is not a plain assignment: {other:?}"),
    }
}

const VECTOR_ADD: &str = r#"
import triton
import triton.language as tl


@triton.jit
def vector_add(a_ptr, b_ptr, c_ptr, n, BLOCK_SIZE: tl.constexpr):
    pid = tl.program_id(axis=0)
    block_start = pid * BLOCK_SIZE
    offsets = block_start + tl.arange(0, BLOCK_SIZE)
    mask = offsets < n
    a = tl.load(a_ptr + offsets, mask=mask)
    b = tl.load(b_ptr + offsets, mask=mask)
    tl.store(c_ptr + offsets, a + b, mask=mask)
"#;

#[test]
fn vector_add_infers_rank1_throughout_with_no_diagnostics() {
    let module = parse_ok(VECTOR_ADD);
    let (shapes, diags) = check_triton(&module);
    assert!(diags.is_empty(), "expected no diagnostics, got {diags:?}");
    assert_eq!(shapes.len(), 1);
    let k = &shapes[0];
    assert_eq!(k.name, "vector_add");

    // a_ptr, b_ptr, c_ptr, n: ordinary (non-constexpr) params, all rank-0/untracked dtype.
    for p in &k.param_types[..4] {
        assert_eq!(*p, TileTy::Scalar(Elem::Unknown));
    }
    // BLOCK_SIZE: constexpr, no default -> a rank-0 int carrying a symbolic dimension name.
    assert_eq!(k.param_types[4], TileTy::Scalar(Elem::Int));

    let body = &module.kernels[0].body;
    let offsets_ty = k.expr_types.get(&assign_value(body, 2).span()).unwrap();
    assert_eq!(
        *offsets_ty,
        TileTy::Rank1(Dim::Symbolic("BLOCK_SIZE".to_string()))
    );

    let mask_ty = k.expr_types.get(&assign_value(body, 3).span()).unwrap();
    assert_eq!(
        *mask_ty,
        TileTy::Rank1(Dim::Symbolic("BLOCK_SIZE".to_string()))
    );

    let a_ty = k.expr_types.get(&assign_value(body, 4).span()).unwrap();
    assert_eq!(
        *a_ty,
        TileTy::Rank1(Dim::Symbolic("BLOCK_SIZE".to_string()))
    );
}

const MATMUL: &str = r#"
import triton
import triton.language as tl


@triton.jit
def matmul_kernel(a_ptr, b_ptr, c_ptr, M, N, K, BLOCK_M: tl.constexpr, BLOCK_N: tl.constexpr, BLOCK_K: tl.constexpr):
    pid_m = tl.program_id(0)
    pid_n = tl.program_id(1)
    rm = pid_m * BLOCK_M + tl.arange(0, BLOCK_M)
    rn = pid_n * BLOCK_N + tl.arange(0, BLOCK_N)
    rk = tl.arange(0, BLOCK_K)
    a_ptrs = a_ptr + rm[:, None] * K + rk[None, :]
    b_ptrs = b_ptr + rk[:, None] * N + rn[None, :]
    acc = tl.zeros((BLOCK_M, BLOCK_N), dtype=tl.float32)
    for k in range(0, K, BLOCK_K):
        a = tl.load(a_ptrs)
        b = tl.load(b_ptrs)
        acc = acc + tl.dot(a, b)
        a_ptrs = a_ptrs + BLOCK_K
        b_ptrs = b_ptrs + BLOCK_K * N
    c_ptrs = c_ptr + rm[:, None] * N + rn[None, :]
    mask = (rm[:, None] < M) & (rn[None, :] < N)
    tl.store(c_ptrs, acc, mask=mask)
"#;

#[test]
fn matmul_shaped_kernel_builds_rank2_tiles_via_reshape() {
    let module = parse_ok(MATMUL);
    let (shapes, diags) = check_triton(&module);
    assert!(diags.is_empty(), "expected no diagnostics, got {diags:?}");
    let k = &shapes[0];
    let body = &module.kernels[0].body;

    let block_m = Dim::Symbolic("BLOCK_M".to_string());
    let block_n = Dim::Symbolic("BLOCK_N".to_string());
    let block_k = Dim::Symbolic("BLOCK_K".to_string());

    // a_ptrs = a_ptr + rm[:, None] * K + rk[None, :]  ->  [BLOCK_M, BLOCK_K]
    let a_ptrs_ty = k.expr_types.get(&assign_value(body, 5).span()).unwrap();
    assert_eq!(*a_ptrs_ty, TileTy::Rank2(block_m.clone(), block_k.clone()));

    // b_ptrs = b_ptr + rk[:, None] * N + rn[None, :]  ->  [BLOCK_K, BLOCK_N]
    let b_ptrs_ty = k.expr_types.get(&assign_value(body, 6).span()).unwrap();
    assert_eq!(*b_ptrs_ty, TileTy::Rank2(block_k.clone(), block_n.clone()));

    // acc = tl.zeros((BLOCK_M, BLOCK_N), ...)  ->  [BLOCK_M, BLOCK_N], same symbolic names as
    // the reshaped tiles above.
    let acc_ty = k.expr_types.get(&assign_value(body, 7).span()).unwrap();
    assert_eq!(*acc_ty, TileTy::Rank2(block_m.clone(), block_n.clone()));

    // mask = (rm[:, None] < M) & (rn[None, :] < N)  ->  [BLOCK_M, BLOCK_N]
    let mask_idx = body.len() - 2;
    let mask_ty = k
        .expr_types
        .get(&assign_value(body, mask_idx).span())
        .unwrap();
    assert_eq!(*mask_ty, TileTy::Rank2(block_m, block_n));
}

#[test]
fn unequal_concrete_ranges_report_a_clean_diagnostic_not_a_panic() {
    let module = parse_ok(
        r#"
import triton
import triton.language as tl


@triton.jit
def bad_kernel(x_ptr, y_ptr):
    a = tl.arange(0, 16)
    b = tl.arange(0, 32)
    c = a + b
"#,
    );
    let (shapes, diags) = check_triton(&module);
    assert_eq!(shapes.len(), 1);
    assert!(codes(&diags).contains(&ECode::TileShapeMismatch));
}

#[test]
fn rank_mismatch_between_two_tile_operands_is_refused() {
    let module = parse_ok(
        r#"
import triton
import triton.language as tl


@triton.jit
def bad_rank_kernel(x_ptr, BLOCK: tl.constexpr):
    row = tl.arange(0, BLOCK)
    tile = row[:, None] * BLOCK
    bad = row + tile
"#,
    );
    let (_shapes, diags) = check_triton(&module);
    assert!(codes(&diags).contains(&ECode::TileShapeMismatch));
}

#[test]
fn partial_slice_subscript_is_refused_cleanly() {
    let module = parse_ok(
        r#"
import triton
import triton.language as tl


@triton.jit
def partial_slice_kernel(x_ptr, BLOCK: tl.constexpr):
    row = tl.arange(0, BLOCK)
    bad = row[0:BLOCK]
"#,
    );
    let (_shapes, diags) = check_triton(&module);
    assert!(codes(&diags).contains(&ECode::TileConstructUnsupported));
}

#[test]
fn matmul_operator_is_refused_in_favor_of_tl_dot() {
    let module = parse_ok(
        r#"
import triton
import triton.language as tl


@triton.jit
def matmul_operator_kernel(a_ptr, b_ptr, BLOCK: tl.constexpr):
    a = tl.zeros((BLOCK, BLOCK), dtype=tl.float32)
    b = tl.zeros((BLOCK, BLOCK), dtype=tl.float32)
    c = a @ b
"#,
    );
    let (_shapes, diags) = check_triton(&module);
    assert!(codes(&diags).contains(&ECode::TileConstructUnsupported));
}

#[test]
fn triton_check_tests_reshape_beyond_rank_two_is_refused() {
    let module = parse_ok(
        r#"
import triton
import triton.language as tl


@triton.jit
def rank3_kernel(x_ptr, BLOCK: tl.constexpr):
    row = tl.arange(0, BLOCK)
    tile = row[:, None]
    cube = tile[:, :, None]
"#,
    );
    let (_shapes, diags) = check_triton(&module);
    assert!(codes(&diags).contains(&ECode::TileConstructUnsupported));
}

#[test]
fn constexpr_param_with_literal_default_resolves_concretely() {
    let module = parse_ok(
        r#"
import triton
import triton.language as tl


@triton.jit
def const_block_kernel(x_ptr, BLOCK: tl.constexpr = 128):
    idx = tl.arange(0, BLOCK)
"#,
    );
    let (shapes, diags) = check_triton(&module);
    assert!(diags.is_empty(), "expected no diagnostics, got {diags:?}");
    let body = &module.kernels[0].body;
    let idx_ty = shapes[0]
        .expr_types
        .get(&assign_value(body, 0).span())
        .unwrap();
    assert_eq!(*idx_ty, TileTy::Rank1(Dim::Const(128)));
}

#[test]
fn constexpr_param_without_default_stays_symbolic_not_guessed() {
    let module = parse_ok(
        r#"
import triton
import triton.language as tl


@triton.jit
def sym_block_kernel(x_ptr, BLOCK: tl.constexpr):
    idx = tl.arange(0, BLOCK)
"#,
    );
    let (shapes, diags) = check_triton(&module);
    assert!(diags.is_empty(), "expected no diagnostics, got {diags:?}");
    let body = &module.kernels[0].body;
    let idx_ty = shapes[0]
        .expr_types
        .get(&assign_value(body, 0).span())
        .unwrap();
    assert_eq!(*idx_ty, TileTy::Rank1(Dim::Symbolic("BLOCK".to_string())));
}

#[test]
fn undefined_name_reference_reports_e301() {
    let module = parse_ok(
        r#"
import triton
import triton.language as tl


@triton.jit
def undef_kernel(x_ptr):
    y = totally_undefined + x_ptr
"#,
    );
    let (_shapes, diags) = check_triton(&module);
    assert!(codes(&diags).contains(&ECode::UndefinedSymbol));
}

#[test]
fn docstring_and_pass_produce_no_diagnostics() {
    let module = parse_ok(
        r#"
import triton
import triton.language as tl


@triton.jit
def documented_kernel(x_ptr):
    """A kernel with a docstring; this should not be treated as a tile value."""
    pass
"#,
    );
    let (_shapes, diags) = check_triton(&module);
    assert!(diags.is_empty(), "expected no diagnostics, got {diags:?}");
}

#[test]
fn many_kernels_in_one_module_are_each_checked_independently() {
    let module = parse_ok(
        r#"
import triton
import triton.language as tl


@triton.jit
def first(x_ptr, BLOCK: tl.constexpr):
    a = tl.arange(0, BLOCK)


@triton.jit
def second(y_ptr, N: tl.constexpr):
    b = tl.arange(0, N)
"#,
    );
    let (shapes, diags) = check_triton(&module);
    assert!(diags.is_empty(), "expected no diagnostics, got {diags:?}");
    assert_eq!(shapes.len(), 2);
    assert_eq!(shapes[0].name, "first");
    assert_eq!(shapes[1].name, "second");
}

// ---- an interpreter, to run what was lowered -----------------------------------------------

/// Memory: the value that was last stored at an address of a space.
struct Memory {
    cells: HashMap<(u8, i64), i64>,
}

fn space_number(s: AddrSpace) -> u8 {
    match s {
        AddrSpace::Global => 0,
        AddrSpace::Shared => 1,
        AddrSpace::Constant => 2,
        AddrSpace::Local => 3,
        AddrSpace::Param => 4,
    }
}

fn f(bits: i64) -> f32 {
    f32::from_bits(bits as u32)
}

fn bits(x: f32) -> i64 {
    x.to_bits() as i64
}

fn narrow(ty: Ty, v: i64) -> i64 {
    match ty {
        Ty::Scalar(Scalar::I1) => v & 1,
        Ty::Scalar(Scalar::I8) => v as i8 as i64,
        Ty::Scalar(Scalar::I16) => v as i16 as i64,
        Ty::Scalar(Scalar::I32) => v as i32 as i64,
        _ => v,
    }
}

/// Runs a function on its parameters in the block of threads `bid`, and gives what it returns.
fn run(func: &Function, params: &[i64], bid: [i64; 3], mem: &mut Memory) -> Option<i64> {
    let mut vals = vec![0i64; func.insts.len()];
    let mut at = 0usize;
    let mut from = 0usize;
    for _ in 0..1_000_000 {
        let block = &func.blocks[at];
        for id in &block.insts {
            let inst = &func.insts[id.0 as usize];
            let get = |v: &ValRef| match v {
                ValRef::Param(i) => params[*i as usize],
                ValRef::Val(id) => vals[id.0 as usize],
            };
            let out = match &inst.op {
                Op::ConstInt(n) => *n,
                Op::ConstFloat(c) => c.single as i64,
                Op::Bin(op, a, b) => {
                    let (a, b) = (get(a), get(b));
                    match op {
                        BBin::Add => a.wrapping_add(b),
                        BBin::Sub => a.wrapping_sub(b),
                        BBin::Mul => a.wrapping_mul(b),
                        BBin::Div => a.wrapping_div(b),
                        BBin::Rem => a.wrapping_rem(b),
                        BBin::And => a & b,
                        BBin::Or => a | b,
                        BBin::Xor => a ^ b,
                        BBin::Shl => a << b,
                        BBin::Lshr => ((a as u64) >> b) as i64,
                        BBin::Ashr => a >> b,
                        BBin::FAdd => bits(f(a) + f(b)),
                        BBin::FSub => bits(f(a) - f(b)),
                        BBin::FMul => bits(f(a) * f(b)),
                        BBin::FDiv => bits(f(a) / f(b)),
                        BBin::FRem => bits(f(a) % f(b)),
                    }
                }
                Op::ICmp(p, _, a, b) => {
                    let (a, b) = (get(a), get(b));
                    (match p {
                        ICmpPred::Eq => a == b,
                        ICmpPred::Ne => a != b,
                        ICmpPred::Slt => a < b,
                        ICmpPred::Sle => a <= b,
                        ICmpPred::Sgt => a > b,
                        ICmpPred::Sge => a >= b,
                        ICmpPred::Ult => (a as u64) < b as u64,
                        ICmpPred::Ule => a as u64 <= b as u64,
                        ICmpPred::Ugt => a as u64 > b as u64,
                        ICmpPred::Uge => a as u64 >= b as u64,
                    }) as i64
                }
                Op::Cast(_, _, v) => get(v),
                Op::Load { ptr, space, .. } => {
                    let key = (space_number(*space), get(ptr));
                    *mem.cells.get(&key).unwrap_or_else(|| panic!("nothing at {key:?}"))
                }
                Op::Store { ptr, val, space, .. } => {
                    mem.cells.insert((space_number(*space), get(ptr)), get(val));
                    0
                }
                Op::Phi(edges) => edges.iter().find(|e| e.0 .0 as usize == from).map(|e| get(&e.1)).unwrap(),
                Op::BidX => bid[0],
                Op::BidY => bid[1],
                Op::BidZ => bid[2],
                other => panic!("cannot run {other:?}"),
            };
            vals[id.0 as usize] = narrow(inst.ty, out);
        }
        let get = |v: &ValRef| match v {
            ValRef::Param(i) => params[*i as usize],
            ValRef::Val(id) => vals[id.0 as usize],
        };
        let next = match &block.term {
            Term::Br(t) => t.0,
            Term::CondBr(c, t, e) => {
                if get(c) != 0 {
                    t.0
                } else {
                    e.0
                }
            }
            Term::Switch(v, d, cases) => cases.iter().find(|c| c.0 == get(v)).map(|c| c.1 .0).unwrap_or(d.0),
            Term::Ret(v) => return v.as_ref().map(get),
        };
        from = at;
        at = next as usize;
    }
    panic!("no return")
}

// ---- lowering ------------------------------------------------------------------------------

fn lowered(src: &str) -> (Function, Vec<Diag>) {
    let module = parse_ok(src);
    let (shapes, diags) = check_triton(&module);
    assert!(diags.is_empty(), "{diags:?}");
    let (mut m, diags) = lower_triton(&module, &shapes);
    assert_eq!(m.funcs.len(), 1);
    (m.funcs.pop().unwrap(), diags)
}

/// What a kernel body reports when it is lowered: the first argument of each diagnostic.
fn reports(body: &str) -> Vec<String> {
    let src = format!("def k(p_ptr, n, B: tl.constexpr):\n{body}");
    let module = parse_ok(&src);
    let (shapes, _) = check_triton(&module);
    let (_, diags) = lower_triton(&module, &shapes);
    assert!(diags.iter().all(|d| d.code == ECode::LoweringUnsupported && d.args.len() == 2));
    diags.into_iter().map(|d| d.args[0].clone()).collect()
}

const PTR: Ty = Ty::Ptr(AddrSpace::Global);
const I64: Ty = Ty::Scalar(Scalar::I64);

#[test]
fn vector_add_adds_where_the_mask_holds_and_touches_nothing_else() {
    let (k, diags) = lowered(VECTOR_ADD);
    assert!(diags.is_empty(), "{diags:?}");
    assert!(k.is_kernel);
    assert_eq!(k.params, vec![PTR, PTR, PTR, I64, I64]);
    let (a, b, c) = (1i64 << 20, 2i64 << 20, 3i64 << 20);
    let n = 10;
    let mut mem = Memory { cells: HashMap::new() };
    for i in 0..n {
        mem.cells.insert((0, a + 4 * i), bits(i as f32));
        mem.cells.insert((0, b + 4 * i), bits(100.0 * i as f32));
    }
    // A load out of bounds would fail: nothing is there.
    for bid in 0..3 {
        run(&k, &[a, b, c, n, 4], [bid, 0, 0], &mut mem);
    }
    for i in 0..n {
        assert_eq!(f(mem.cells[&(0, c + 4 * i)]), 101.0 * i as f32);
    }
    for i in n..12 {
        assert!(!mem.cells.contains_key(&(0, c + 4 * i)));
    }
}

const DOT: &str = r#"
@triton.jit
def matmul(a_ptr, b_ptr, c_ptr, M: tl.constexpr = 2, N: tl.constexpr = 4, K: tl.constexpr = 3):
    rm = tl.arange(0, M)
    rn = tl.arange(0, N)
    rk = tl.arange(0, K)
    a = tl.load(a_ptr + rm[:, None] * K + rk[None, :])
    b = tl.load(b_ptr + rk[:, None] * N + rn[None, :])
    acc = tl.zeros((M, N), dtype=tl.float32)
    acc = tl.dot(a, b, acc)
    tl.store(c_ptr + rm[:, None] * N + rn[None, :], acc)
"#;

#[test]
fn dot_is_the_matrix_product() {
    let (k, diags) = lowered(DOT);
    assert!(diags.is_empty(), "{diags:?}");
    assert_eq!(k.params, vec![PTR, PTR, PTR]);
    let (a, b, c) = (1i64 << 24, 2i64 << 24, 3i64 << 24);
    let mut mem = Memory { cells: HashMap::new() };
    for i in 0..6 {
        mem.cells.insert((0, a + 4 * i), bits((i + 1) as f32));
    }
    for i in 0..12 {
        mem.cells.insert((0, b + 4 * i), bits((i * i) as f32));
    }
    run(&k, &[a, b, c], [0, 0, 0], &mut mem);
    for m in 0..2i64 {
        for n in 0..4i64 {
            let want: f32 = (0..3i64).map(|k| (3 * m + k + 1) as f32 * ((4 * k + n) * (4 * k + n)) as f32).sum();
            assert_eq!(f(mem.cells[&(0, c + 4 * (4 * m + n))]), want);
        }
    }
}

#[test]
fn scalar_loops_branches_and_jumps_run_as_written() {
    let (k, diags) = lowered(
        r#"
def k(out_ptr, n):
    total = 0
    for i in range(0, n, 2):
        if i == 4:
            continue
        else:
            total += i
        if i > 8:
            break
    tl.store(out_ptr + 1, total)
"#,
    );
    assert!(diags.is_empty(), "{diags:?}");
    let mut mem = Memory { cells: HashMap::new() };
    run(&k, &[1 << 20, 100], [0, 0, 0], &mut mem);
    // 0 + 2 + 6 + 8 + 10
    assert_eq!(mem.cells[&(0, (1 << 20) + 4)], 26);
}

#[test]
fn masked_out_elements_take_the_value_of_other() {
    let (k, diags) = lowered(
        r#"
def k(x_ptr, out_ptr, n, B: tl.constexpr = 4):
    i = tl.arange(0, B)
    x = tl.load(x_ptr + i, mask=i < n, other=7.5)
    tl.store(out_ptr + i, x)
"#,
    );
    assert!(diags.is_empty(), "{diags:?}");
    let mut mem = Memory { cells: HashMap::new() };
    let (x, out) = (1i64 << 20, 2i64 << 20);
    mem.cells.insert((0, x), bits(1.0));
    mem.cells.insert((0, x + 4), bits(2.0));
    run(&k, &[x, out, 2], [0, 0, 0], &mut mem);
    let got: Vec<f32> = (0..4).map(|i| f(mem.cells[&(0, out + 4 * i)])).collect();
    assert_eq!(got, vec![1.0, 2.0, 7.5, 7.5]);
}

#[test]
fn a_parameter_is_a_pointer_if_its_name_reaches_an_address() {
    let (k, _) = lowered(
        r#"
def k(a, b, c, d):
    q = b + 1
    r = q
    x = tl.load(r)
    y = c + d
    tl.store(a, x)
"#,
    );
    assert_eq!(k.params, vec![PTR, PTR, I64, I64]);
}

#[test]
fn what_has_no_lowering_is_reported_and_lowering_goes_on() {
    assert_eq!(reports("    while n > 0:\n        pass\n    break\n"), vec!["'while' loop", "'break' outside of a loop"]);
    assert_eq!(reports("    continue\n"), vec!["'continue' outside of a loop"]);
    assert_eq!(reports("    x[0] = 1\n"), vec!["assignment target other than a bare name"]);
    assert_eq!(reports("    x = tl.exp(n)\n"), vec!["assignment with unresolved tile shape"]);
    assert_eq!(reports("    x = n ^ 1.5\n"), vec!["binary operator BitXor"]);
    assert_eq!(reports("    x = n in n\n"), vec!["comparison operator In"]);
    assert_eq!(reports("    y = tl.program_id(3)\n"), vec!["'tl.program_id' axis"]);
    assert_eq!(reports("    for i in n:\n        pass\n"), vec!["'for' loop over something other than 'range(...)'"]);
    assert_eq!(reports("    for i in range():\n        pass\n"), vec!["'range(...)' with an unsupported argument count"]);
    assert_eq!(reports("    x = tl.dot(n)\n"), vec!["'tl.dot' called with fewer than two arguments"]);
    assert_eq!(reports("    x = tl.dot(n, n)\n"), vec!["'tl.dot' first argument"]);
    assert_eq!(reports("    x += 1\n"), vec!["augmented assignment on a tile-ranked value"]);
    assert_eq!(reports("    x = tl.load()\n"), vec!["assignment with unresolved tile shape"]);
    assert_eq!(reports("    tl.store(n)\n"), vec!["'tl.store' called with fewer than a pointer and a value argument"]);
    assert_eq!(
        reports("    x = tl.arange(0, B)\n"),
        vec!["tile materialization with no pointer parameter to carve scratch space from"]
    );
    assert_eq!(
        reports("    x = tl.zeros((B * 2,), dtype=tl.float32)\n    tl.store(p_ptr, n)\n"),
        vec!["symbolic tile dimension 'B * 2'"]
    );
    assert_eq!(reports("    tl.store(p_ptr * n, n)\n"), vec!["binary operator Mul on a pointer-typed tile"]);
    assert_eq!(
        reports("    tl.store(p_ptr, n)\n    t = tl.arange(0, B)\n    s: int = t\n"),
        vec!["tile used where a scalar is required"]
    );
    assert!(reports("    x = n\n    assert_free = x\n    return\n    y = x\n").is_empty());
}

#[test]
fn instructions_stand_in_the_order_of_their_blocks() {
    for src in [VECTOR_ADD, DOT] {
        let (k, _) = lowered(src);
        let listed: Vec<u32> = k.blocks.iter().flat_map(|b| b.insts.iter()).map(|i| i.0).collect();
        let all: Vec<u32> = (0..k.insts.len() as u32).collect();
        assert_eq!(listed, all);
    }
}

#[test]
fn a_dimension_that_is_no_constant_is_reported() {
    for (line, what) in [
        ("    t = tl.arange(0, n)\n", "'tl.arange' bounds"),
        ("    t = tl.zeros((n, 4), dtype=tl.float32)\n", "'tl.zeros' shape"),
        ("    t = tl.zeros(n, dtype=tl.float32)\n", "'tl.zeros' shape"),
        ("    t = tl.arange(-1, 9223372036854775807)\n", "'tl.arange' bounds overflowed while resolving a size"),
    ] {
        let (_, diags) = check_triton(&parse_ok(&format!("def k(n):\n{line}")));
        assert_eq!(codes(&diags), vec![ECode::TileDimUnresolved], "{line}");
        assert_eq!(diags[0].args, vec![what]);
    }
}

#[test]
fn a_masked_access_stands_in_a_block_of_its_own() {
    let (k, _) = lowered(VECTOR_ADD);
    let mut guarded = 0;
    for (n, b) in k.blocks.iter().enumerate() {
        // A load of a single-precision element is a masked one, or reads a tile.
        let loads = b.insts.iter().any(|i| match &k.insts[i.0 as usize].op {
            Op::Load { space: AddrSpace::Global, .. } => k.insts[i.0 as usize].ty == Ty::Scalar(Scalar::F32),
            _ => false,
        });
        if loads {
            let entered: Vec<usize> = (0..k.blocks.len())
                .filter(|p| match &k.blocks[*p].term {
                    Term::Br(t) => t.0 as usize == n,
                    Term::CondBr(_, t, e) => t.0 as usize == n || e.0 as usize == n,
                    _ => false,
                })
                .collect();
            if entered.len() == 1 && matches!(&k.blocks[entered[0]].term, Term::CondBr(_, t, _) if t.0 as usize == n) {
                guarded += 1;
            }
        }
    }
    assert!(guarded >= 2, "{guarded}");
}

#[test]
fn operands_and_branches_stay_inside_the_kernel() {
    for src in [VECTOR_ADD, DOT] {
        let (k, _) = lowered(src);
        for b in &k.blocks {
            let targets = match &b.term {
                Term::Br(t) => vec![*t],
                Term::CondBr(_, t, e) => vec![*t, *e],
                Term::Switch(_, d, cases) => cases.iter().map(|c| c.1).chain([*d]).collect(),
                Term::Ret(_) => vec![],
            };
            assert!(targets.iter().all(|t| (t.0 as usize) < k.blocks.len()));
        }
        for i in &k.insts {
            if let Op::Bin(_, x, y) = &i.op {
                for v in [x, y] {
                    match v {
                        ValRef::Param(p) => assert!((*p as usize) < k.params.len()),
                        ValRef::Val(id) => assert!((id.0 as usize) < k.insts.len()),
                    }
                }
            }
        }
    }
}
