//! CUDA C from source text to diagnostics and BIR. A small parser reads the sources.

use std::collections::HashMap;

use basalt::bir::{AddrSpace, BinOp as BBin, FloatConst, ICmpPred, InstId, Module, Op, Scalar, ShuffleKind, Term, Ty, ValRef};
use basalt::bir::{AtomicOp, Function};
use basalt::diag::{Diag, ECode, Loc, Span};
use basalt::numeral::IntBase;
use basalt::sema::c_ast::{
    AssignOp, BinOp, CudaQualifiers, EnumDecl, EnumVariant, Expr, FieldDecl, FloatLit, FloatSuffix, FunctionDecl,
    IncDecOp, IntLit, Item, ParamDecl, ScalarKind, Stmt, StructDecl, TagKind, TranslationUnit, Type, TypedefDecl,
    UnaryOp, UnionDecl, VarDecl,
};
use basalt::sema::checker::check;
use basalt::sema::lower::lower;

// ---- a parser for the sources below --------------------------------------------------------

fn tokens(src: &str) -> Vec<String> {
    let ops = ["<<<", ">>>", "<<=", ">>=", "->", "++", "--", "&&", "||", "==", "!=", "<=", ">=", "<<", ">>", "+=", "-=", "*=", "/=", "%=", "&=", "|=", "^="];
    let cs: Vec<char> = src.chars().collect();
    let mut out = Vec::new();
    let mut i = 0;
    while i < cs.len() {
        let c = cs[i];
        if c.is_whitespace() {
            i += 1;
        } else if c.is_alphanumeric() || c == '_' {
            let start = i;
            while i < cs.len() && (cs[i].is_alphanumeric() || cs[i] == '_' || (cs[start].is_ascii_digit() && cs[i] == '.')) {
                i += 1;
            }
            out.push(cs[start..i].iter().collect());
        } else {
            let rest: String = cs[i..].iter().take(3).collect();
            let op = ops.iter().find(|o| rest.starts_with(**o));
            let text = op.map(|o| o.to_string()).unwrap_or_else(|| c.to_string());
            i += text.len();
            out.push(text);
        }
    }
    out
}

struct Parser {
    toks: Vec<String>,
    at: usize,
    spans: u32,
}

const BINARY: [(&str, BinOp, u8); 18] = [
    ("||", BinOp::LogOr, 1),
    ("&&", BinOp::LogAnd, 2),
    ("|", BinOp::BitOr, 3),
    ("^", BinOp::BitXor, 4),
    ("&", BinOp::BitAnd, 5),
    ("==", BinOp::Eq, 6),
    ("!=", BinOp::Ne, 6),
    ("<", BinOp::Lt, 7),
    (">", BinOp::Gt, 7),
    ("<=", BinOp::Le, 7),
    (">=", BinOp::Ge, 7),
    ("<<", BinOp::Shl, 8),
    (">>", BinOp::Shr, 8),
    ("+", BinOp::Add, 9),
    ("-", BinOp::Sub, 9),
    ("*", BinOp::Mul, 10),
    ("/", BinOp::Div, 10),
    ("%", BinOp::Rem, 10),
];

const ASSIGN: [(&str, AssignOp); 11] = [
    ("=", AssignOp::Assign),
    ("+=", AssignOp::AddAssign),
    ("-=", AssignOp::SubAssign),
    ("*=", AssignOp::MulAssign),
    ("/=", AssignOp::DivAssign),
    ("%=", AssignOp::RemAssign),
    ("&=", AssignOp::AndAssign),
    ("|=", AssignOp::OrAssign),
    ("^=", AssignOp::XorAssign),
    ("<<=", AssignOp::ShlAssign),
    (">>=", AssignOp::ShrAssign),
];

impl Parser {
    fn peek(&self) -> &str {
        self.peek_at(0)
    }

    fn peek_at(&self, n: usize) -> &str {
        self.toks.get(self.at + n).map(|s| s.as_str()).unwrap_or("")
    }

    fn next(&mut self) -> String {
        self.at += 1;
        self.toks[self.at - 1].clone()
    }

    fn eat(&mut self, t: &str) -> bool {
        let hit = self.peek() == t;
        if hit {
            self.at += 1;
        }
        hit
    }

    fn expect(&mut self, t: &str) {
        assert!(self.eat(t), "expected {t}, got {} at {}", self.peek(), self.at);
    }

    /// A span that no other node has.
    fn span(&mut self) -> Span {
        self.spans += 1;
        let loc = Loc { line: self.spans, col: 1 };
        Span { start: loc, end: loc }
    }

    fn quals(&mut self) -> CudaQualifiers {
        let mut q = CudaQualifiers { is_global: false, is_device: false, is_host: false, is_shared: false, is_constant: false };
        loop {
            match self.peek() {
                "__global__" => q.is_global = true,
                "__device__" => q.is_device = true,
                "__host__" => q.is_host = true,
                "__shared__" => q.is_shared = true,
                "__constant__" => q.is_constant = true,
                _ => return q,
            }
            self.at += 1;
        }
    }

    fn starts_type(&self) -> bool {
        ["const", "struct", "union", "enum", "void", "bool", "char", "short", "int", "unsigned", "signed", "long", "float", "double"].contains(&self.peek())
            || self.peek().starts_with("__shared__")
            || self.peek().starts_with("__constant__")
    }

    fn base_type(&mut self) -> Type {
        let span = self.span();
        let mut is_const = self.eat("const");
        let tag = match self.peek() {
            "struct" => Some(TagKind::Struct),
            "union" => Some(TagKind::Union),
            "enum" => Some(TagKind::Enum),
            _ => None,
        };
        if let Some(kind) = tag {
            self.at += 1;
            let name = self.next();
            is_const |= self.eat("const");
            return Type::Tag { kind, name, is_const, span };
        }
        if !self.starts_type() {
            let name = self.next();
            is_const |= self.eat("const");
            return Type::Named { name, is_const, span };
        }
        let mut words = Vec::new();
        while ["void", "bool", "char", "short", "int", "unsigned", "signed", "long", "float", "double"].contains(&self.peek()) {
            words.push(self.next());
        }
        is_const |= self.eat("const");
        let kind = match words.join(" ").as_str() {
            "void" => ScalarKind::Void,
            "bool" => ScalarKind::Bool,
            "char" => ScalarKind::Char,
            "signed char" => ScalarKind::SChar,
            "unsigned char" => ScalarKind::UChar,
            "short" => ScalarKind::Short,
            "unsigned short" => ScalarKind::UShort,
            "int" => ScalarKind::Int,
            "unsigned int" | "unsigned" => ScalarKind::UInt,
            "long" => ScalarKind::Long,
            "unsigned long" => ScalarKind::ULong,
            "long long" => ScalarKind::LongLong,
            "unsigned long long" => ScalarKind::ULongLong,
            "float" => ScalarKind::Float,
            "double" => ScalarKind::Double,
            other => panic!("no type {other}"),
        };
        Type::Scalar { kind, is_const, span }
    }

    fn pointers(&mut self, base: Type) -> Type {
        let mut ty = base;
        while self.eat("*") {
            let is_const = self.eat("const");
            let span = self.span();
            ty = Type::Pointer { pointee: Box::new(ty), is_const, span };
        }
        ty
    }

    fn full_type(&mut self) -> Type {
        let base = self.base_type();
        self.pointers(base)
    }

    fn arrays(&mut self, ty: Type) -> Type {
        if !self.eat("[") {
            return ty;
        }
        let size = if self.peek() == "]" { None } else { Some(Box::new(self.expr())) };
        self.expect("]");
        let elem = Box::new(self.arrays(ty));
        let span = self.span();
        Type::Array { elem, size, span }
    }

    fn unit(mut self) -> TranslationUnit {
        let mut items = Vec::new();
        while self.at < self.toks.len() {
            items.push(self.item());
        }
        TranslationUnit { items }
    }

    fn fields(&mut self) -> Vec<FieldDecl> {
        let mut fields = Vec::new();
        self.expect("{");
        while !self.eat("}") {
            let ty = self.full_type();
            let name = self.next();
            let ty = self.arrays(ty);
            let span = self.span();
            fields.push(FieldDecl { name, ty, span });
            self.expect(";");
        }
        fields
    }

    fn item(&mut self) -> Item {
        let span = self.span();
        if self.peek_at(2) == "{" && self.peek() == "struct" {
            self.at += 1;
            let name = Some(self.next());
            let fields = self.fields();
            self.expect(";");
            return Item::Struct(StructDecl { name, fields, span });
        }
        if self.peek_at(2) == "{" && self.peek() == "union" {
            self.at += 1;
            let name = Some(self.next());
            let fields = self.fields();
            self.expect(";");
            return Item::Union(UnionDecl { name, fields, span });
        }
        if self.peek_at(2) == "{" && self.peek() == "enum" {
            self.at += 1;
            let name = Some(self.next());
            self.expect("{");
            let mut variants = Vec::new();
            while !self.eat("}") {
                let vname = self.next();
                let init = if self.eat("=") { Some(self.expr_no_comma()) } else { None };
                let vspan = self.span();
                variants.push(EnumVariant { name: vname, init, span: vspan });
                self.eat(",");
            }
            self.expect(";");
            return Item::Enum(EnumDecl { name, variants, span });
        }
        if self.eat("typedef") {
            let ty = self.full_type();
            let alias = self.next();
            self.expect(";");
            return Item::Typedef(TypedefDecl { alias, ty, span });
        }
        let cuda_quals = self.quals();
        let ret = self.full_type();
        let name = self.next();
        if self.peek() != "(" {
            let ty = self.arrays(ret);
            let init = if self.eat("=") { Some(self.expr_no_comma()) } else { None };
            self.expect(";");
            return Item::Var(VarDecl { name, ty, init, cuda_quals, span });
        }
        self.expect("(");
        let mut params = Vec::new();
        if self.peek() == "void" && self.peek_at(1) == ")" {
            self.at += 1;
        }
        while !self.eat(")") {
            let ty = self.full_type();
            let pspan = self.span();
            let pname = if self.peek() == "," || self.peek() == ")" { None } else { Some(self.next()) };
            params.push(ParamDecl { name: pname, ty, span: pspan });
            self.eat(",");
        }
        let body = if self.eat(";") { None } else { Some(self.block()) };
        Item::Function(FunctionDecl { name, ret, params, variadic: false, body, cuda_quals, span })
    }

    fn block(&mut self) -> Vec<Stmt> {
        self.expect("{");
        let mut stmts = Vec::new();
        while !self.eat("}") {
            stmts.push(self.stmt());
        }
        stmts
    }

    fn decl(&mut self) -> Stmt {
        let span = self.span();
        let cuda_quals = self.quals();
        let ty = self.full_type();
        let name = self.next();
        let ty = self.arrays(ty);
        let init = if self.eat("=") { Some(self.expr_no_comma()) } else { None };
        self.expect(";");
        let vspan = self.span();
        Stmt::Decl { decls: vec![VarDecl { name, ty, init, cuda_quals, span: vspan }], span }
    }

    fn stmt(&mut self) -> Stmt {
        let span = self.span();
        if self.peek() == "{" {
            return Stmt::Block { stmts: self.block(), span };
        }
        if self.starts_type() {
            return self.decl();
        }
        if self.peek_at(1) == ":" && self.peek() != "default" {
            let name = self.next();
            self.expect(":");
            return Stmt::Label { name, stmt: Box::new(self.stmt()), span };
        }
        match self.peek() {
            ";" => {
                self.at += 1;
                Stmt::Empty { span }
            }
            "if" => {
                self.at += 1;
                self.expect("(");
                let cond = self.expr();
                self.expect(")");
                let then_branch = Box::new(self.stmt());
                let else_branch = if self.eat("else") { Some(Box::new(self.stmt())) } else { None };
                Stmt::If { cond, then_branch, else_branch, span }
            }
            "while" => {
                self.at += 1;
                self.expect("(");
                let cond = self.expr();
                self.expect(")");
                Stmt::While { cond, body: Box::new(self.stmt()), span }
            }
            "do" => {
                self.at += 1;
                let body = Box::new(self.stmt());
                self.expect("while");
                self.expect("(");
                let cond = self.expr();
                self.expect(")");
                self.expect(";");
                Stmt::DoWhile { body, cond, span }
            }
            "for" => {
                self.at += 1;
                self.expect("(");
                let init = if self.eat(";") { None } else { Some(Box::new(self.stmt())) };
                let cond = if self.peek() == ";" { None } else { Some(self.expr()) };
                self.expect(";");
                let step = if self.peek() == ")" { None } else { Some(self.expr()) };
                self.expect(")");
                Stmt::For { init, cond, step, body: Box::new(self.stmt()), span }
            }
            "switch" => {
                self.at += 1;
                self.expect("(");
                let expr = self.expr();
                self.expect(")");
                Stmt::Switch { expr, body: Box::new(self.stmt()), span }
            }
            "case" => {
                self.at += 1;
                let value = self.expr();
                self.expect(":");
                Stmt::Case { value, stmt: Box::new(self.stmt()), span }
            }
            "default" => {
                self.at += 1;
                self.expect(":");
                Stmt::Default { stmt: Box::new(self.stmt()), span }
            }
            "break" => {
                self.at += 1;
                self.expect(";");
                Stmt::Break { span }
            }
            "continue" => {
                self.at += 1;
                self.expect(";");
                Stmt::Continue { span }
            }
            "return" => {
                self.at += 1;
                let expr = if self.peek() == ";" { None } else { Some(self.expr()) };
                self.expect(";");
                Stmt::Return { expr, span }
            }
            "goto" => {
                self.at += 1;
                let label = self.next();
                self.expect(";");
                Stmt::Goto { label, span }
            }
            _ => {
                let expr = self.expr();
                self.expect(";");
                Stmt::Expr { expr, span }
            }
        }
    }

    fn expr(&mut self) -> Expr {
        let first = self.expr_no_comma();
        if self.peek() != "," {
            return first;
        }
        let mut exprs = vec![first];
        while self.eat(",") {
            exprs.push(self.expr_no_comma());
        }
        let span = self.span();
        Expr::Comma { exprs, span }
    }

    fn expr_no_comma(&mut self) -> Expr {
        let lhs = self.ternary();
        let op = ASSIGN.iter().find(|a| a.0 == self.peek()).map(|a| a.1);
        match op {
            Some(op) => {
                self.at += 1;
                let rhs = Box::new(self.expr_no_comma());
                let span = self.span();
                Expr::Assign { op, lhs: Box::new(lhs), rhs, span }
            }
            None => lhs,
        }
    }

    fn ternary(&mut self) -> Expr {
        let cond = self.binary(1);
        if !self.eat("?") {
            return cond;
        }
        let then_branch = Box::new(self.expr());
        self.expect(":");
        let else_branch = Box::new(self.ternary());
        let span = self.span();
        Expr::Ternary { cond: Box::new(cond), then_branch, else_branch, span }
    }

    fn binary(&mut self, level: u8) -> Expr {
        let mut lhs = self.unary();
        loop {
            let found = BINARY.iter().find(|b| b.0 == self.peek() && b.2 >= level);
            let Some(&(_, op, l)) = found else {
                return lhs;
            };
            self.at += 1;
            let rhs = Box::new(self.binary(l + 1));
            let span = self.span();
            lhs = Expr::Binary { op, lhs: Box::new(lhs), rhs, span };
        }
    }

    fn unary(&mut self) -> Expr {
        let span = self.span();
        let op = match self.peek() {
            "+" => Some(UnaryOp::Plus),
            "-" => Some(UnaryOp::Neg),
            "!" => Some(UnaryOp::Not),
            "~" => Some(UnaryOp::BitNot),
            "*" => Some(UnaryOp::Deref),
            "&" => Some(UnaryOp::Addr),
            _ => None,
        };
        if let Some(op) = op {
            self.at += 1;
            return Expr::Unary { op, expr: Box::new(self.unary()), span };
        }
        if self.peek() == "++" || self.peek() == "--" {
            let op = if self.next() == "++" { IncDecOp::Inc } else { IncDecOp::Dec };
            return Expr::PreIncDec { op, expr: Box::new(self.unary()), span };
        }
        if self.eat("sizeof") {
            self.expect("(");
            let e = if self.starts_type() {
                let ty = self.full_type();
                Expr::SizeofType { ty: self.arrays(ty), span }
            } else {
                Expr::SizeofExpr { expr: Box::new(self.expr()), span }
            };
            self.expect(")");
            return e;
        }
        if self.peek() == "(" {
            self.at += 1;
            if self.starts_type() {
                let ty = self.full_type();
                self.expect(")");
                return Expr::Cast { ty, expr: Box::new(self.unary()), span };
            }
            let e = self.expr();
            self.expect(")");
            return self.postfix(e);
        }
        let e = self.primary();
        self.postfix(e)
    }

    fn primary(&mut self) -> Expr {
        let span = self.span();
        let t = self.next();
        let first = t.chars().next().unwrap();
        if first.is_ascii_digit() && t.contains('.') {
            let (digits, suffix) = match t.strip_suffix('f') {
                Some(d) => (d, FloatSuffix::F),
                None => (t.as_str(), FloatSuffix::Absent),
            };
            let value: f64 = digits.parse().unwrap();
            let value = FloatConst { double: value.to_bits(), single: (value as f32).to_bits() };
            return Expr::FloatLit { value: FloatLit { value, suffix }, span };
        }
        if first.is_ascii_digit() {
            let lower = t.to_lowercase();
            let base = if lower.starts_with("0x") { IntBase::Hex } else { IntBase::Dec };
            let long_len = lower.matches('l').count() as u8;
            let unsigned = lower.contains('u');
            return Expr::IntLit { value: IntLit { text: t, base, unsigned, long_len }, span };
        }
        Expr::Ident { name: t, span }
    }

    fn args(&mut self) -> Vec<Expr> {
        self.expect("(");
        let mut args = Vec::new();
        while !self.eat(")") {
            args.push(self.expr_no_comma());
            self.eat(",");
        }
        args
    }

    fn postfix(&mut self, first: Expr) -> Expr {
        let mut e = first;
        loop {
            let span = self.span();
            match self.peek() {
                "(" => {
                    let args = self.args();
                    e = Expr::Call { callee: Box::new(e), args, span };
                }
                "<<<" => {
                    self.at += 1;
                    let grid = Box::new(self.binary(9));
                    self.expect(",");
                    let block = Box::new(self.binary(9));
                    let shared = if self.eat(",") { Some(Box::new(self.binary(9))) } else { None };
                    let stream = if self.eat(",") { Some(Box::new(self.binary(9))) } else { None };
                    self.expect(">>>");
                    let args = self.args();
                    e = Expr::KernelLaunch { kernel: Box::new(e), grid, block, shared, stream, args, span };
                }
                "[" => {
                    self.at += 1;
                    let index = Box::new(self.expr());
                    self.expect("]");
                    e = Expr::Index { base: Box::new(e), index, span };
                }
                "." | "->" => {
                    let arrow = self.next() == "->";
                    let name = self.next();
                    e = Expr::Member { base: Box::new(e), name, arrow, span };
                }
                "++" | "--" => {
                    let op = if self.next() == "++" { IncDecOp::Inc } else { IncDecOp::Dec };
                    e = Expr::PostIncDec { op, expr: Box::new(e), span };
                }
                _ => return e,
            }
        }
    }
}

fn parse_ok(src: &str) -> TranslationUnit {
    Parser { toks: tokens(src), at: 0, spans: 0 }.unit()
}

fn codes(diags: &[Diag]) -> Vec<ECode> {
    diags.iter().map(|d| d.code).collect()
}

fn checked(src: &str) -> TranslationUnit {
    let tu = parse_ok(src);
    let diags = check(&tu);
    assert!(diags.is_empty(), "unexpected diagnostics: {diags:?}");
    tu
}

fn ops(m: &Module) -> Vec<(&Ty, &Op)> {
    m.funcs.iter().flat_map(|f| f.insts.iter()).map(|i| (&i.ty, &i.op)).collect()
}

const I32: Ty = Ty::Scalar(Scalar::I32);
const I64: Ty = Ty::Scalar(Scalar::I64);

// What the lowering promises of every function: the blocks list the arena in order, and every
// branch and value exists.
fn assert_well_formed(m: &Module) {
    for f in &m.funcs {
        let listed: Vec<u32> = f.blocks.iter().flat_map(|b| b.insts.iter()).map(|i| i.0).collect();
        let all: Vec<u32> = (0..f.insts.len() as u32).collect();
        assert_eq!(listed, all, "{f:?}");
        for b in &f.blocks {
            let targets = match &b.term {
                Term::Br(t) => vec![t.0],
                Term::CondBr(_, t, e) => vec![t.0, e.0],
                Term::Switch(_, d, cases) => cases.iter().map(|c| c.1 .0).chain([d.0]).collect(),
                Term::Ret(_) => vec![],
            };
            assert!(targets.iter().all(|t| (*t as usize) < f.blocks.len()), "{f:?}");
        }
    }
}

#[test]
fn valid_program_has_no_diagnostics() {
    let tu = parse_ok(
        r#"
        int add(int a, int b) {
            return a + b;
        }
        int main() {
            int x = 1;
            int y = 2;
            int z = add(x, y);
            if (z > 0) {
                z = z - 1;
            }
            return z;
        }
        "#,
    );
    let diags = check(&tu);
    assert!(diags.is_empty(), "expected no diagnostics, got {diags:?}");
}

#[test]
fn undefined_variable_reference_reports_e301() {
    let tu = parse_ok(
        r#"
        int main() {
            int x = y;
            return x;
        }
        "#,
    );
    let diags = check(&tu);
    assert!(codes(&diags).contains(&ECode::UndefinedSymbol));
}

#[test]
fn type_mismatch_assignment_reports_e300() {
    let tu = parse_ok(
        r#"
        struct Point { int x; int y; };
        int main() {
            struct Point p;
            int a = p;
            return a;
        }
        "#,
    );
    let diags = check(&tu);
    assert!(codes(&diags).contains(&ECode::TypeError));
}

#[test]
fn redefinition_in_same_scope_reports_e302() {
    let tu = parse_ok(
        r#"
        int main() {
            int x = 1;
            int x = 2;
            return x;
        }
        "#,
    );
    let diags = check(&tu);
    assert!(codes(&diags).contains(&ECode::Redefinition));
}

#[test]
fn shadowing_in_nested_block_is_not_an_error() {
    let tu = parse_ok(
        r#"
        int main() {
            int x = 1;
            {
                int x = 2;
                x = x + 1;
            }
            return x;
        }
        "#,
    );
    let diags = check(&tu);
    assert!(
        diags.is_empty(),
        "shadowing should not error, got {diags:?}"
    );
}

#[test]
fn call_arity_mismatch_reports_e300() {
    let tu = parse_ok(
        r#"
        int add(int a, int b) {
            return a + b;
        }
        int main() {
            int z = add(1);
            return z;
        }
        "#,
    );
    let diags = check(&tu);
    assert!(codes(&diags).contains(&ECode::TypeError));
}

#[test]
fn member_access_on_unknown_field_reports_e301() {
    let tu = parse_ok(
        r#"
        struct Point { int x; int y; };
        int main() {
            struct Point p;
            int a = p.z;
            return a;
        }
        "#,
    );
    let diags = check(&tu);
    assert!(codes(&diags).contains(&ECode::UndefinedSymbol));
}

#[test]
fn many_independent_errors_are_all_reported_without_hanging() {
    let tu = parse_ok(
        r#"
        struct Point { int x; int y; };
        int main() {
            int a = undefined_one;
            int a = 2;
            struct Point p;
            int b = p;
            int c = undefined_two;
            return c;
        }
        "#,
    );
    let diags = check(&tu);
    let cs = codes(&diags);
    assert!(cs.iter().filter(|c| **c == ECode::UndefinedSymbol).count() >= 2);
    assert!(cs.contains(&ECode::Redefinition));
    assert!(cs.contains(&ECode::TypeError));
    assert!(diags.len() >= 4);
}

#[test]
fn struct_typedef_and_enum_resolve_end_to_end() {
    let tu = parse_ok(
        r#"
        struct Point { int x; int y; };
        typedef struct Point PointT;
        enum Color { Red, Green, Blue };

        PointT make_point(int x, int y) {
            struct Point p;
            p.x = x;
            p.y = y;
            return p;
        }

        int main() {
            struct Point p;
            p.x = 1;
            p.y = 2;
            enum Color c = Red;
            int sum = p.x + p.y + c;
            return sum;
        }
        "#,
    );
    let diags = check(&tu);
    assert!(diags.is_empty(), "expected no diagnostics, got {diags:?}");
}

#[test]
fn break_outside_loop_reports_e300() {
    let tu = parse_ok(
        r#"
        int main() {
            break;
            return 0;
        }
        "#,
    );
    let diags = check(&tu);
    assert!(codes(&diags).contains(&ECode::TypeError));
}

#[test]
fn goto_undefined_label_reports_e301() {
    let tu = parse_ok(
        r#"
        int main() {
            goto nowhere;
            return 0;
        }
        "#,
    );
    let diags = check(&tu);
    assert!(codes(&diags).contains(&ECode::UndefinedSymbol));
}

// ---- CUDA qualifiers and builtins -------------------------------------------------------

#[test]
fn valid_global_kernel_with_void_return_has_no_diagnostics() {
    let tu = parse_ok(
        r#"
        __global__ void kernel(float *out, int n) {
            int i = n;
            out[i] = 0.0f;
        }
        "#,
    );
    let diags = check(&tu);
    assert!(diags.is_empty(), "expected no diagnostics, got {diags:?}");
}

#[test]
fn global_kernel_with_non_void_return_reports_e303() {
    let tu = parse_ok(
        r#"
        __global__ int kernel(int n) {
            return n;
        }
        "#,
    );
    let diags = check(&tu);
    assert!(codes(&diags).contains(&ECode::InvalidCudaQualifier));
}

#[test]
fn combined_host_device_function_is_valid() {
    let tu = parse_ok(
        r#"
        __host__ __device__ int add(int a, int b) {
            return a + b;
        }
        "#,
    );
    let diags = check(&tu);
    assert!(diags.is_empty(), "expected no diagnostics, got {diags:?}");
}

#[test]
fn global_combined_with_device_reports_e303() {
    let tu = parse_ok(
        r#"
        __global__ __device__ void kernel(int n) {
            int x = n;
        }
        "#,
    );
    let diags = check(&tu);
    assert!(codes(&diags).contains(&ECode::InvalidCudaQualifier));
}

#[test]
fn shared_and_constant_variable_declarations_are_recognized_without_error() {
    let tu = parse_ok(
        r#"
        __device__ void kernel() {
            __shared__ float tile[16];
            __constant__ int table[4];
            tile[0] = 0.0f;
        }
        "#,
    );
    let diags = check(&tu);
    assert!(diags.is_empty(), "expected no diagnostics, got {diags:?}");
}

#[test]
fn shared_and_constant_together_on_one_variable_reports_e303() {
    let tu = parse_ok(
        r#"
        __device__ void kernel() {
            __shared__ __constant__ int x;
        }
        "#,
    );
    let diags = check(&tu);
    assert!(codes(&diags).contains(&ECode::InvalidCudaQualifier));
}

#[test]
fn kernel_body_can_use_dim3_builtins_as_unsigned_integers() {
    let tu = parse_ok(
        r#"
        __global__ void kernel(unsigned int *out) {
            unsigned int i = threadIdx.x;
            unsigned int j = blockIdx.y;
            unsigned int k = blockDim.z;
            unsigned int l = gridDim.x;
            out[0] = i + j + k + l;
        }
        "#,
    );
    let diags = check(&tu);
    assert!(diags.is_empty(), "expected no diagnostics, got {diags:?}");
}

#[test]
fn syncthreads_with_no_arguments_has_no_error() {
    let tu = parse_ok(
        r#"
        __global__ void kernel() {
            __syncthreads();
        }
        "#,
    );
    let diags = check(&tu);
    assert!(diags.is_empty(), "expected no diagnostics, got {diags:?}");
}

#[test]
fn syncthreads_with_an_argument_reports_arity_error() {
    let tu = parse_ok(
        r#"
        __global__ void kernel() {
            __syncthreads(1);
        }
        "#,
    );
    let diags = check(&tu);
    assert!(codes(&diags).contains(&ECode::TypeError));
}

// The builtins exist only in the body of a `__global__` or `__device__` function.
#[test]
fn builtins_are_not_available_in_an_ordinary_host_function() {
    let tu = parse_ok(
        r#"
        int host_fn() {
            int i = threadIdx.x;
            return i;
        }
        "#,
    );
    let diags = check(&tu);
    assert!(codes(&diags).contains(&ECode::UndefinedSymbol));
}

// ---- const enforcement ----------------------------------------------------------

#[test]
fn assigning_to_a_const_variable_reports_e308() {
    let tu = parse_ok(
        r#"
        int main() {
            const int n = 5;
            n = 10;
            return n;
        }
        "#,
    );
    let diags = check(&tu);
    assert!(codes(&diags).contains(&ECode::ConstViolation));
}

#[test]
fn assigning_to_a_const_parameter_reports_e308() {
    let tu = parse_ok(
        r#"
        int f(const int n) {
            n = 10;
            return n;
        }
        "#,
    );
    let diags = check(&tu);
    assert!(codes(&diags).contains(&ECode::ConstViolation));
}

#[test]
fn assigning_through_a_pointer_to_const_reports_e308() {
    let tu = parse_ok(
        r#"
        int main() {
            int n = 5;
            const int *p = &n;
            *p = 10;
            return n;
        }
        "#,
    );
    let diags = check(&tu);
    assert!(codes(&diags).contains(&ECode::ConstViolation));
}

#[test]
fn reassigning_a_pointer_to_const_itself_is_not_a_const_violation() {
    let tu = parse_ok(
        r#"
        int main() {
            int n = 5;
            int m = 6;
            const int *p = &n;
            p = &m;
            return *p;
        }
        "#,
    );
    let diags = check(&tu);
    assert!(!codes(&diags).contains(&ECode::ConstViolation));
}

#[test]
fn reassigning_a_const_pointer_itself_reports_e308() {
    let tu = parse_ok(
        r#"
        int main() {
            int n = 5;
            int m = 6;
            int *const p = &n;
            p = &m;
            return *p;
        }
        "#,
    );
    let diags = check(&tu);
    assert!(codes(&diags).contains(&ECode::ConstViolation));
}

#[test]
fn assigning_through_a_const_pointer_to_its_non_const_pointee_is_not_a_const_violation() {
    let tu = parse_ok(
        r#"
        int main() {
            int n = 5;
            int *const p = &n;
            *p = 10;
            return n;
        }
        "#,
    );
    let diags = check(&tu);
    assert!(!codes(&diags).contains(&ECode::ConstViolation));
}

#[test]
fn assigning_to_a_const_struct_member_via_dot_reports_e308() {
    let tu = parse_ok(
        r#"
        struct Point { const int x; int y; };
        int main() {
            struct Point p;
            p.x = 10;
            return p.y;
        }
        "#,
    );
    let diags = check(&tu);
    assert!(codes(&diags).contains(&ECode::ConstViolation));
}

#[test]
fn assigning_to_a_const_struct_member_via_arrow_reports_e308() {
    let tu = parse_ok(
        r#"
        struct Point { const int x; int y; };
        int main() {
            struct Point p;
            struct Point *q = &p;
            q->x = 10;
            return q->y;
        }
        "#,
    );
    let diags = check(&tu);
    assert!(codes(&diags).contains(&ECode::ConstViolation));
}

#[test]
fn assigning_to_a_plain_non_const_struct_member_has_no_diagnostics() {
    let tu = parse_ok(
        r#"
        struct Point { int x; int y; };
        int main() {
            struct Point p;
            p.x = 10;
            return p.y;
        }
        "#,
    );
    let diags = check(&tu);
    assert!(diags.is_empty(), "expected no diagnostics, got {diags:?}");
}

#[test]
fn plain_variable_parameter_and_pointer_assignment_has_no_diagnostics() {
    let tu = parse_ok(
        r#"
        int f(int n) {
            n = n + 1;
            int *p = &n;
            *p = 2;
            return n;
        }
        "#,
    );
    let diags = check(&tu);
    assert!(diags.is_empty(), "expected no diagnostics, got {diags:?}");
}

#[test]
fn lowers_trivial_constant_return() {
    let tu = checked("int f() { return 42; }");
    let (m, diags) = lower(&tu);
    assert!(diags.is_empty(), "{diags:?}");
    assert_eq!(m.funcs.len(), 1);
    assert_eq!(m.funcs[0].name, "f");
    assert_eq!(
        m.funcs[0].ret,
        Ty::Scalar(Scalar::I32)
    );
    assert!(ops(&m).contains(&(&I32, &Op::ConstInt(42))), "{m:?}");
    assert_well_formed(&m);
}

#[test]
fn lowers_locals_arithmetic_and_return() {
    let tu = checked(
        r#"
        int f(int a, int b) {
            int x = a + b;
            int y = x * 2;
            return y;
        }
        "#,
    );
    let (m, diags) = lower(&tu);
    assert!(diags.is_empty(), "{diags:?}");
    assert!(ops(&m).iter().any(|o| *o.0 == I32 && matches!(o.1, Op::Bin(BBin::Add, ..))), "{m:?}");
    assert!(ops(&m).iter().any(|o| *o.0 == I32 && matches!(o.1, Op::Bin(BBin::Mul, ..))), "{m:?}");
    assert_well_formed(&m);
}

#[test]
fn lowers_if_else() {
    let tu = checked(
        r#"
        int f(int a) {
            int r;
            if (a > 0) {
                r = 1;
            } else {
                r = -1;
            }
            return r;
        }
        "#,
    );
    let (m, diags) = lower(&tu);
    assert!(diags.is_empty(), "{diags:?}");
    let f = &m.funcs[0];
    assert!(f.blocks.len() >= 4, "{f:?}");
    assert!(f
        .blocks
        .iter()
        .any(|b| matches!(b.term, Term::CondBr(..))));
    assert_well_formed(&m);
}

#[test]
fn lowers_while_with_break_and_continue() {
    let tu = checked(
        r#"
        int f(int n) {
            int i = 0;
            int sum = 0;
            while (i < n) {
                i = i + 1;
                if (i == 5) {
                    continue;
                }
                if (i == 10) {
                    break;
                }
                sum = sum + i;
            }
            return sum;
        }
        "#,
    );
    let (m, diags) = lower(&tu);
    assert!(diags.is_empty(), "{diags:?}");
    assert_well_formed(&m);
}

#[test]
fn lowers_for_loop() {
    let tu = checked(
        r#"
        int f(int n) {
            int sum = 0;
            for (int i = 0; i < n; i = i + 1) {
                sum = sum + i;
            }
            return sum;
        }
        "#,
    );
    let (m, diags) = lower(&tu);
    assert!(diags.is_empty(), "{diags:?}");
    assert!(ops(&m).iter().any(|o| matches!(o.1, Op::ICmp(..))), "{m:?}");
}

#[test]
fn lowers_ternary_via_compare_and_phi() {
    let tu = checked(
        r#"
        int f(int a, int b) {
            return a > b ? a : b;
        }
        "#,
    );
    let (m, diags) = lower(&tu);
    assert!(diags.is_empty(), "{diags:?}");
    assert!(ops(&m).iter().any(|o| matches!(o.1, Op::ICmp(ICmpPred::Sgt, ..))), "{m:?}");
    assert!(ops(&m).iter().any(|o| matches!(o.1, Op::Phi(_))), "{m:?}");
    assert_well_formed(&m);
}

#[test]
fn plain_function_call_lowers_to_a_real_call_op() {
    let tu = checked(
        r#"
        int g(int x) {
            return x;
        }
        int f() {
            return g(1);
        }
        "#,
    );
    let (m, diags) = lower(&tu);
    assert!(diags.is_empty(), "{diags:?}");
    assert!(ops(&m).iter().any(|o| *o.0 == I32 && matches!(o.1, Op::Call { func, args } if func == "g" && args.len() == 1)), "{m:?}");
    assert_well_formed(&m);
}

#[test]
fn call_with_aggregate_argument_reports_diag() {
    let tu = checked(
        r#"
        struct Point { int x; int y; };
        int consume(struct Point p) {
            return p.x;
        }
        void f(struct Point p) {
            consume(p);
        }
        "#,
    );
    let (m, diags) = lower(&tu);
    assert!(
        codes(&diags).contains(&ECode::LoweringUnsupported),
        "{diags:?}"
    );
    assert_eq!(m.funcs.len(), 2);
}

#[test]
fn call_with_aggregate_return_reports_diag() {
    let tu = checked(
        r#"
        struct Point { int x; int y; };
        struct Point make(void) {
            struct Point p;
            p.x = 1;
            p.y = 2;
            return p;
        }
        void f(void) {
            make();
        }
        "#,
    );
    let (m, diags) = lower(&tu);
    assert!(
        codes(&diags).contains(&ECode::LoweringUnsupported),
        "{diags:?}"
    );
    assert_eq!(m.funcs.len(), 2);
}

#[test]
fn switch_with_fallthrough_and_break_lowers_to_native_switch() {
    let tu = checked(
        r#"
        int f(int x) {
            int r = 0;
            switch (x) {
                case 1:
                    r = 1;
                    break;
                case 2:
                case 3:
                    r = 2;
                    break;
                default:
                    r = -1;
            }
            return r;
        }
        "#,
    );
    let (m, diags) = lower(&tu);
    assert!(diags.is_empty(), "{diags:?}");
    let f = &m.funcs[0];
    assert!(
        f.blocks.iter().any(
            |b| matches!(&b.term, Term::Switch(_, _, cases) if cases.len() == 3)
        ),
        "{f:?}"
    );
    assert_well_formed(&m);
}

#[test]
fn array_indexing_lowers_via_pointer_arithmetic() {
    let tu = checked(
        r#"
        int f(int *p) {
            int a[4];
            a[0] = 1;
            p[1] = a[0];
            return p[1];
        }
        "#,
    );
    let (m, diags) = lower(&tu);
    assert!(diags.is_empty(), "{diags:?}");
    assert!(ops(&m).iter().any(|o| *o.0 == I64 && matches!(o.1, Op::Bin(BBin::Mul, ..))), "{m:?}");
    assert_well_formed(&m);
}

#[test]
fn struct_member_access_lowers_via_byte_offset() {
    let tu = checked(
        r#"
        struct Point { int x; int y; };
        int f(struct Point p) {
            p.x = 1;
            p.y = 2;
            return p.x + p.y;
        }
        "#,
    );
    let (m, diags) = lower(&tu);
    assert!(diags.is_empty(), "{diags:?}");
    assert_well_formed(&m);
}

#[test]
fn gpu_index_intrinsics_lower_to_dedicated_ops() {
    let tu = checked(
        r#"
        __global__ void kernel(int *out) {
            out[0] = threadIdx.x + blockIdx.y * blockDim.z + gridDim.x;
        }
        "#,
    );
    let (m, diags) = lower(&tu);
    assert!(diags.is_empty(), "{diags:?}");
    assert!(ops(&m).iter().any(|o| matches!(o.1, Op::TidX)), "{m:?}");
    assert!(ops(&m).iter().any(|o| matches!(o.1, Op::BidY)), "{m:?}");
    assert!(ops(&m).iter().any(|o| matches!(o.1, Op::BdimZ)), "{m:?}");
    assert!(ops(&m).iter().any(|o| matches!(o.1, Op::GdimX)), "{m:?}");
    assert_well_formed(&m);
}

#[test]
fn syncthreads_call_lowers_to_barrier_with_no_diagnostic() {
    let tu = checked(
        r#"
        __global__ void kernel() {
            __syncthreads();
        }
        "#,
    );
    let (m, diags) = lower(&tu);
    assert!(diags.is_empty(), "{diags:?}");
    assert!(ops(&m).iter().any(|o| matches!(o.1, Op::Barrier)), "{m:?}");
    assert_well_formed(&m);
}

#[test]
fn shuffle_builtin_lowers_to_shuffle_op() {
    let tu = checked(
        r#"
        __global__ void kernel(int *out) {
            int v = threadIdx.x;
            out[0] = __shfl_xor(v, 1);
        }
        "#,
    );
    let (m, diags) = lower(&tu);
    assert!(diags.is_empty(), "{diags:?}");
    assert!(ops(&m).iter().any(|o| matches!(o.1, Op::Shuffle(ShuffleKind::Xor, ..))), "{m:?}");
    assert_well_formed(&m);
}

#[test]
fn vote_builtin_lowers_to_ballot_op() {
    let tu = checked(
        r#"
        __global__ void kernel(int *out) {
            int p = threadIdx.x;
            out[0] = __ballot(p);
        }
        "#,
    );
    let (m, diags) = lower(&tu);
    assert!(diags.is_empty(), "{diags:?}");
    assert!(ops(&m).iter().any(|o| matches!(o.1, Op::Ballot(_))), "{m:?}");
    assert_well_formed(&m);
}

#[test]
fn atomic_rmw_builtin_lowers_to_atomic_op() {
    let tu = checked(
        r#"
        __global__ void kernel(int *addr) {
            int old = atomicAdd(addr, 1);
            *addr = old;
        }
        "#,
    );
    let (m, diags) = lower(&tu);
    assert!(diags.is_empty(), "{diags:?}");
    assert!(ops(&m).iter().any(|o| matches!(o.1, Op::Atomic(AtomicOp::Add, ..))), "{m:?}");
    assert_well_formed(&m);
}

#[test]
fn atomic_cas_builtin_lowers_to_atomic_cas_op() {
    let tu = checked(
        r#"
        __global__ void kernel(int *addr) {
            int old = atomicCAS(addr, 0, 1);
            *addr = old;
        }
        "#,
    );
    let (m, diags) = lower(&tu);
    assert!(diags.is_empty(), "{diags:?}");
    assert!(ops(&m).iter().any(|o| matches!(o.1, Op::AtomicCas(..))), "{m:?}");
    assert_well_formed(&m);
}

/// An integer constant is a valid pointer argument, but no address to lower to.
#[test]
fn atomic_with_non_pointer_address_reports_e304_without_panicking() {
    let tu = checked(
        r#"
        __global__ void kernel() {
            int r = atomicAdd(0, 5);
        }
        "#,
    );
    let (m, diags) = lower(&tu);
    assert!(
        codes(&diags).contains(&ECode::LoweringUnsupported),
        "{diags:?}"
    );
    assert_eq!(m.funcs.len(), 1);
}

// ---- kernel launch + CUDA Runtime API -----------------------------------------

#[test]
fn kernel_launch_with_bare_integer_config_lowers_to_kernel_launch_op() {
    let tu = checked(
        r#"
        __global__ void vadd(float *a, float *b, float *c) {
            c[threadIdx.x] = a[threadIdx.x] + b[threadIdx.x];
        }
        void launch(float *a, float *b, float *c) {
            vadd<<<1, 256>>>(a, b, c);
        }
        "#,
    );
    let (m, diags) = lower(&tu);
    assert!(diags.is_empty(), "{diags:?}");
    let launcher = m.funcs.iter().find(|f| f.name == "launch").unwrap();
    let launch_inst = launcher
        .insts
        .iter()
        .find_map(|inst| match &inst.op {
            Op::KernelLaunch {
                kernel,
                grid,
                block,
                args,
                ..
            } => Some((kernel.clone(), *grid, *block, args.clone())),
            _ => None,
        })
        .expect("expected a KernelLaunch instruction");
    let (kernel, grid, block, args) = launch_inst;
    assert_eq!(kernel, "vadd");
    assert_eq!(args.len(), 3);

    // An integer is the `x` of a configuration; its `y` and `z` are 1.
    let const_int_value = |v: ValRef| -> Option<i64> {
        let ValRef::Val(id) = v else {
            return None;
        };
        match launcher.insts[id.0 as usize].op {
            Op::ConstInt(n) => Some(n),
            _ => None,
        }
    };
    assert_eq!(const_int_value(grid[1]), Some(1));
    assert_eq!(const_int_value(grid[2]), Some(1));
    assert_eq!(const_int_value(block[1]), Some(1));
    assert_eq!(const_int_value(block[2]), Some(1));

    assert_well_formed(&m);
}

/// A `dim3` configuration is read field by field.
#[test]
fn kernel_launch_with_dim3_typed_config_loads_real_fields() {
    let tu = checked(
        r#"
        __global__ void vadd(float *a) {
            a[threadIdx.x] = 0.0f;
        }
        void launch(float *a, __basalt_cuda_dim3 g, __basalt_cuda_dim3 b) {
            vadd<<<g, b>>>(a);
        }
        "#,
    );
    let (m, diags) = lower(&tu);
    assert!(diags.is_empty(), "{diags:?}");
    // Three loads for each of the two configurations.
    let loads = ops(&m)
        .iter()
        .filter(|o| *o.0 == I32 && matches!(o.1, Op::Load { space: AddrSpace::Param, .. }))
        .count();
    assert!(loads >= 6, "{m:?}");
    assert_well_formed(&m);
}

#[test]
fn kernel_launch_with_shared_and_stream_lowers_those_operands() {
    let tu = checked(
        r#"
        __global__ void vadd(float *a) {
            a[threadIdx.x] = 0.0f;
        }
        void launch(float *a, int shared_bytes, void *stream) {
            vadd<<<1, 256, shared_bytes, stream>>>(a);
        }
        "#,
    );
    let (m, diags) = lower(&tu);
    assert!(diags.is_empty(), "{diags:?}");
    assert!(ops(&m).iter().any(|o| matches!(o.1, Op::KernelLaunch { .. })), "{m:?}");
    assert_well_formed(&m);
}

/// Without `shared` and `stream` both operands are still there.
#[test]
fn kernel_launch_without_shared_or_stream_still_materializes_both_operands() {
    let tu = checked(
        r#"
        __global__ void vadd(float *a) {
            a[threadIdx.x] = 0.0f;
        }
        void launch(float *a) {
            vadd<<<1, 256>>>(a);
        }
        "#,
    );
    let (m, diags) = lower(&tu);
    assert!(diags.is_empty(), "{diags:?}");
    let launcher = m.funcs.iter().find(|f| f.name == "launch").unwrap();
    let found = launcher.insts.iter().any(|inst| {
        matches!(
            &inst.op,
            Op::KernelLaunch {
                shared: ValRef::Val(_),
                stream: ValRef::Val(_),
                ..
            }
        )
    });
    assert!(found, "expected concrete shared/stream operands");
    assert_well_formed(&m);
}

/// The pointer that is allocated is stored through the argument.
#[test]
fn cuda_malloc_stores_the_allocated_pointer_through_devptr() {
    let tu = checked(
        r#"
        void setup(int n) {
            float *d_a;
            cudaMalloc((void**)&d_a, n * sizeof(float));
        }
        "#,
    );
    let (m, diags) = lower(&tu);
    assert!(diags.is_empty(), "{diags:?}");
    let f = &m.funcs[0];
    let malloc_id = f
        .insts
        .iter()
        .position(|inst| matches!(inst.op, Op::CudaMalloc { .. }))
        .expect("expected a CudaMalloc instruction");
    let stores_result = f.insts.iter().any(|inst| match &inst.op {
        Op::Store { val, .. } => {
            *val == ValRef::Val(InstId(malloc_id as u32))
        }
        _ => false,
    });
    assert!(
        stores_result,
        "expected a Store writing CudaMalloc's own result through devPtr"
    );
    assert_well_formed(&m);
}

#[test]
fn cuda_memcpy_named_kind_constant_lowers_to_its_real_integer_value() {
    let tu = checked(
        r#"
        void setup(float *h_a, float *d_a, int n) {
            cudaMemcpy(d_a, h_a, n * sizeof(float), cudaMemcpyHostToDevice);
        }
        "#,
    );
    let (m, diags) = lower(&tu);
    assert!(diags.is_empty(), "{diags:?}");
    let f = &m.funcs[0];
    let kind = f
        .insts
        .iter()
        .find_map(|inst| match &inst.op {
            Op::CudaMemcpy { kind, .. } => Some(*kind),
            _ => None,
        })
        .expect("expected a CudaMemcpy instruction");
    let ValRef::Val(id) = kind else {
        panic!("kind operand should be a real instruction value");
    };
    assert_eq!(f.insts[id.0 as usize].op, Op::ConstInt(1));
    assert_well_formed(&m);
}

#[test]
fn cuda_free_and_device_synchronize_lower_to_their_own_ops() {
    let tu = checked(
        r#"
        void teardown(float *d_a) {
            cudaDeviceSynchronize();
            cudaFree(d_a);
        }
        "#,
    );
    let (m, diags) = lower(&tu);
    assert!(diags.is_empty(), "{diags:?}");
    let f = &m.funcs[0];
    assert!(f
        .insts
        .iter()
        .any(|i| matches!(i.op, Op::CudaDeviceSynchronize)));
    assert!(f
        .insts
        .iter()
        .any(|i| matches!(i.op, Op::CudaFree { .. })));
    assert_well_formed(&m);
}

// ---- an interpreter, to run what was lowered -----------------------------------------------

/// Memory: the value that was last stored at an address of a space.
struct Memory {
    cells: HashMap<(u8, i64), i64>,
}

fn space_number(s: AddrSpace) -> u8 {
    match s {
        AddrSpace::Global => 0,
        AddrSpace::Shared => 1,
        AddrSpace::Constant => 2,
        AddrSpace::Local => 3,
        AddrSpace::Param => 4,
    }
}

fn f(bits: i64) -> f32 {
    f32::from_bits(bits as u32)
}

fn bits(x: f32) -> i64 {
    x.to_bits() as i64
}

fn narrow(ty: Ty, v: i64) -> i64 {
    match ty {
        Ty::Scalar(Scalar::I1) => v & 1,
        Ty::Scalar(Scalar::I8) => v as i8 as i64,
        Ty::Scalar(Scalar::I16) => v as i16 as i64,
        Ty::Scalar(Scalar::I32) => v as i32 as i64,
        _ => v,
    }
}

/// Runs a function on its parameters in the block of threads `bid`, and gives what it returns.
fn run(func: &Function, params: &[i64], bid: [i64; 3], mem: &mut Memory) -> Option<i64> {
    let mut vals = vec![0i64; func.insts.len()];
    let mut at = 0usize;
    let mut from = 0usize;
    for _ in 0..1_000_000 {
        let block = &func.blocks[at];
        for id in &block.insts {
            let inst = &func.insts[id.0 as usize];
            let get = |v: &ValRef| match v {
                ValRef::Param(i) => params[*i as usize],
                ValRef::Val(id) => vals[id.0 as usize],
            };
            let out = match &inst.op {
                Op::ConstInt(n) => *n,
                Op::ConstFloat(c) => c.single as i64,
                Op::Bin(op, a, b) => {
                    let (a, b) = (get(a), get(b));
                    match op {
                        BBin::Add => a.wrapping_add(b),
                        BBin::Sub => a.wrapping_sub(b),
                        BBin::Mul => a.wrapping_mul(b),
                        BBin::Div => a.wrapping_div(b),
                        BBin::Rem => a.wrapping_rem(b),
                        BBin::And => a & b,
                        BBin::Or => a | b,
                        BBin::Xor => a ^ b,
                        BBin::Shl => a << b,
                        BBin::Lshr => ((a as u64) >> b) as i64,
                        BBin::Ashr => a >> b,
                        BBin::FAdd => bits(f(a) + f(b)),
                        BBin::FSub => bits(f(a) - f(b)),
                        BBin::FMul => bits(f(a) * f(b)),
                        BBin::FDiv => bits(f(a) / f(b)),
                        BBin::FRem => bits(f(a) % f(b)),
                    }
                }
                Op::ICmp(p, _, a, b) => {
                    let (a, b) = (get(a), get(b));
                    (match p {
                        ICmpPred::Eq => a == b,
                        ICmpPred::Ne => a != b,
                        ICmpPred::Slt => a < b,
                        ICmpPred::Sle => a <= b,
                        ICmpPred::Sgt => a > b,
                        ICmpPred::Sge => a >= b,
                        ICmpPred::Ult => (a as u64) < b as u64,
                        ICmpPred::Ule => a as u64 <= b as u64,
                        ICmpPred::Ugt => a as u64 > b as u64,
                        ICmpPred::Uge => a as u64 >= b as u64,
                    }) as i64
                }
                Op::Cast(_, _, v) => get(v),
                Op::Load { ptr, space, .. } => {
                    let key = (space_number(*space), get(ptr));
                    *mem.cells.get(&key).unwrap_or_else(|| panic!("nothing at {key:?}"))
                }
                Op::Store { ptr, val, space, .. } => {
                    mem.cells.insert((space_number(*space), get(ptr)), get(val));
                    0
                }
                Op::Phi(edges) => edges.iter().find(|e| e.0 .0 as usize == from).map(|e| get(&e.1)).unwrap(),
                Op::BidX => bid[0],
                Op::BidY => bid[1],
                Op::BidZ => bid[2],
                other => panic!("cannot run {other:?}"),
            };
            vals[id.0 as usize] = narrow(inst.ty, out);
        }
        let get = |v: &ValRef| match v {
            ValRef::Param(i) => params[*i as usize],
            ValRef::Val(id) => vals[id.0 as usize],
        };
        let next = match &block.term {
            Term::Br(t) => t.0,
            Term::CondBr(c, t, e) => {
                if get(c) != 0 {
                    t.0
                } else {
                    e.0
                }
            }
            Term::Switch(v, d, cases) => cases.iter().find(|c| c.0 == get(v)).map(|c| c.1 .0).unwrap_or(d.0),
            Term::Ret(v) => return v.as_ref().map(get),
        };
        from = at;
        at = next as usize;
    }
    panic!("no return")
}

fn value(src: &str, name: &str, params: &[i64]) -> Option<i64> {
    let (m, diags) = lower(&checked(src));
    assert!(diags.is_empty(), "{diags:?}");
    assert_well_formed(&m);
    let func = m.funcs.iter().find(|f| f.name == name).unwrap();
    run(func, params, [0, 0, 0], &mut Memory { cells: HashMap::new() })
}

#[test]
fn control_flow_runs_as_written() {
    let src = r#"
        int f(int n) {
            int i = 0;
            int sum = 0;
            while (i < n) {
                i = i + 1;
                if (i == 5) { continue; }
                if (i == 10) { break; }
                sum = sum + i;
            }
            return sum;
        }
        int g(int x) {
            int r = 0;
            switch (x) {
                case 1: r = 1; break;
                case 2:
                case 3: r = 2; break;
                default: r = -1;
            }
            return r;
        }
        int h(int n) {
            int s = 0;
            do { s += n; n--; } while (n > 0);
            for (int i = 0; i < 3; ++i) { s = s * 2; }
            return s;
        }
        int j(int a, int b) { return a > b && b > 0 ? a : b; }
        int k(int n) {
        again:
            n = n - 3;
            if (n > 3) { goto again; }
            return n;
        }
    "#;
    assert_eq!(value(src, "f", &[100]), Some(1 + 2 + 3 + 4 + 6 + 7 + 8 + 9));
    assert_eq!(value(src, "f", &[3]), Some(6));
    assert_eq!(value(src, "g", &[1]), Some(1));
    assert_eq!(value(src, "g", &[2]), Some(2));
    assert_eq!(value(src, "g", &[3]), Some(2));
    assert_eq!(value(src, "g", &[9]), Some(-1));
    assert_eq!(value(src, "h", &[4]), Some(80));
    assert_eq!(value(src, "j", &[7, 3]), Some(7));
    assert_eq!(value(src, "j", &[7, -3]), Some(-3));
    assert_eq!(value(src, "k", &[20]), Some(2));
}

#[test]
fn members_and_elements_are_kept_apart() {
    let src = r#"
        struct Point { char c; int x; int y; };
        int f(int v) {
            struct Point p;
            int a[4];
            p.x = v;
            p.y = v + 1;
            a[0] = p.x;
            a[3] = p.y;
            a[3] += 10;
            return a[0] * 100 + a[3];
        }
        int g() { return sizeof(struct Point) * 10 + sizeof(int); }
    "#;
    assert_eq!(value(src, "f", &[5]), Some(516));
    assert_eq!(value(src, "g", &[]), Some(94));
}

#[test]
fn the_digits_of_a_hexadecimal_literal_are_no_suffix() {
    assert_eq!(value("int f() { return 0x1F; }", "f", &[]), Some(31));
    assert_eq!(value("int f() { return 0xFFu; }", "f", &[]), Some(255));
}

/// A program by its items; the later ones are wrong in many ways.
const ITEMS: [&str; 6] = [
    "struct P { int x; int y; };",
    "int f(int a) { return a + undefined; }",
    "__global__ int g(int *p) { p[0] = threadIdx.x; break; }",
    "void h() { struct Q q; const int c = 1; c = 2; f(1, 2); }",
    "int f(int a) { return 0; }",
    "int k(int a) { goto nowhere; { int a = 1; } return a; }",
];

#[test]
fn what_comes_later_changes_neither_reports_nor_functions() {
    let all = parse_ok(&ITEMS.join("\n"));
    let reports = check(&all);
    assert!(reports.len() > 5);
    let (module, problems) = lower(&all);
    for n in 0..ITEMS.len() {
        let part = parse_ok(&ITEMS[..n].join("\n"));
        let first = check(&part);
        assert_eq!(codes(&first), codes(&reports)[..first.len()]);
        let (m, p) = lower(&part);
        assert_eq!(codes(&p), codes(&problems)[..p.len()]);
        assert_eq!(m.funcs[..], module.funcs[..m.funcs.len()]);
    }
}

/// What `return sizeof(...)` lowers to: the size that is counted, and the reports.
fn size_of(operand: &str) -> (i64, Vec<Diag>) {
    let src = format!(
        "struct S {{ char c; int v[8]; }}; struct T {{ struct S s; int y; }};
         unsigned long f(int *p, struct S *q) {{ int a[4]; int m[2][3]; double x; return sizeof({operand}); }}"
    );
    let (m, diags) = lower(&checked(&src));
    assert_well_formed(&m);
    let f = &m.funcs[0];
    let size = match &f.blocks[0].term {
        Term::Ret(Some(ValRef::Val(id))) => match &f.insts[id.0 as usize] {
            i if i.ty == I64 => match i.op {
                Op::ConstInt(n) => n,
                _ => panic!("{i:?}"),
            },
            i => panic!("{i:?}"),
        },
        other => panic!("{other:?}"),
    };
    (size, diags)
}

#[test]
fn sizeof_an_array_counts_one_element_and_says_so() {
    for (operand, size) in [
        ("a", 4),
        ("m", 4),
        ("m[1]", 4),
        ("*m", 4),
        ("q->v", 4),
        ("int[4]", 4),
        ("double[2][2]", 8),
        ("struct S[3]", 5),
        ("struct S", 5),
        ("struct T", 9),
    ] {
        let (n, diags) = size_of(operand);
        assert_eq!(n, size, "{operand}");
        assert_eq!(codes(&diags), vec![ECode::LoweringUnsupported], "{operand}");
        assert_eq!(diags[0].args[0], "sizeof of an array");
        assert!(diags[0].span.is_some());
    }
}

#[test]
fn sizeof_what_is_no_array_says_nothing() {
    for (operand, size) in
        [("a[1]", 4), ("m[1][2]", 4), ("x", 8), ("p", 8), ("*p", 4), ("q->c", 1), ("&a", 8), ("a + 1", 8), ("int", 4), ("struct S*", 8)]
    {
        let (n, diags) = size_of(operand);
        assert_eq!(n, size, "{operand}");
        assert!(diags.is_empty(), "{operand}: {diags:?}");
    }
}

#[test]
fn pointers_that_differ_in_const_alone_fit_each_other() {
    let src = r#"
        int first(const char *const *v) { return v[0][0]; }
        int **aside(const int *p, int n) {
            int **q = &p;
            q = &p;
            int **r = n ? q : &p;
            return &p;
        }
        int f(char **names) { return first(names); }
    "#;
    let tu = checked(src);
    let (m, diags) = lower(&tu);
    assert!(diags.is_empty(), "{diags:?}");
    assert_well_formed(&m);
}

#[test]
fn an_increment_of_what_is_const_is_not_reported() {
    checked("int f() { const int n = 5; n++; --n; return n; }");
}
