//! Programs run on the machine. A small front end compiles them, and a small
//! host answers what the machine asks for.
use std::collections::HashMap;
use std::rc::Rc;

use oro_vm::arith::FloatOp;
use oro_vm::code::{BinOp, CaptureSource, ClassSpec, CodeObject, Conv, Op, Param, Proto, RelOp, VarTarget, CHAIN_FLUSH, CHAIN_HINT};
use oro_vm::exc::{Exc, VErr};
use oro_vm::exceptions::{build_registry, lookup, make_exception_instance};
use oro_vm::fields::Fields;
use oro_vm::frame::ReturnAction;
use oro_vm::imports::Loaded;
use oro_vm::keys::keys_match;
use oro_vm::machine::{HostCall, Keyword, Natives, RuntimeError, Step, Task, Vm, Why};
use oro_vm::names::{is_truthy, kind_name_of};
use oro_vm::number::Order;
use oro_vm::process::RunOutcome;
use oro_vm::program::{run, Outcome, Program, Run, Site, Turn};
use oro_vm::relation::try_order;
use oro_vm::repr::{render, render_display};
use oro_vm::sched::{IoOp, Park};
use oro_vm::stdlib::Shipped;
use oro_vm::streams::Tried;
use oro_vm::value::{FloatObj, Heap, RangeVal, Stream, StreamKind, TypeTag, Value};
use oro_vm::waiting::DialPlan;

// --- Tokens ------------------------------------------------------------------

#[derive(Clone, Debug, PartialEq)]
enum T {
    Name(String),
    Int(i64),
    Float(f64),
    Str(String),
    Bytes(Vec<u8>),
    FStr(String),
    Op(String),
    Newline,
    Indent,
    Dedent,
    End,
}

#[derive(Clone, Debug)]
struct Tok {
    t: T,
    line: u32,
    col: u32,
}

struct Lexer {
    cs: Vec<char>,
    i: usize,
    line: u32,
    col: u32,
    out: Vec<Tok>,
    depth: usize,
    indents: Vec<usize>,
}

const OPS: [&str; 42] = [
    "**=", "//=", "<<=", ">>=", "=>", "**", "//", "<<", ">>", "<=", ">=", "==", "!=", "+=", "-=", "*=", "/=", "%=", "&=", "|=", "^=",
    "+", "-", "*", "/", "%", "<", ">", "=", "(", ")", "[", "]", "{", "}", ",", ":", ".", "&", "|", "^", "~",
];

impl Lexer {
    fn peek(&self, k: usize) -> char {
        if self.i + k < self.cs.len() { self.cs[self.i + k] } else { '\0' }
    }

    fn next(&mut self) -> char {
        let c = self.cs[self.i];
        self.i += 1;
        if c == '\n' {
            self.line += 1;
            self.col = 1;
        } else {
            self.col += 1;
        }
        c
    }

    fn push(&mut self, t: T, line: u32, col: u32) {
        self.out.push(Tok { t, line, col });
    }

    fn tokens(src: &str) -> Vec<Tok> {
        let mut lx = Lexer { cs: src.chars().collect(), i: 0, line: 1, col: 1, out: Vec::new(), depth: 0, indents: vec![0] };
        lx.run();
        lx.out
    }

    fn run(&mut self) {
        let mut fresh = true;
        while self.i < self.cs.len() {
            if fresh && self.depth == 0 {
                let mut n = 0;
                while self.peek(0) == ' ' {
                    self.next();
                    n += 1;
                }
                let c = self.peek(0);
                if c == '\n' || c == '#' || c == '\0' {
                    while self.i < self.cs.len() && self.peek(0) != '\n' {
                        self.next();
                    }
                    if self.i < self.cs.len() {
                        self.next();
                    }
                    continue;
                }
                let (l, k) = (self.line, self.col);
                if n > self.indents[self.indents.len() - 1] {
                    self.indents.push(n);
                    self.push(T::Indent, l, k);
                }
                while n < self.indents[self.indents.len() - 1] {
                    self.indents.pop();
                    self.push(T::Dedent, l, k);
                }
                fresh = false;
            }
            let (l, k) = (self.line, self.col);
            let c = self.peek(0);
            if c == '\n' {
                self.next();
                if self.depth == 0 {
                    self.push(T::Newline, l, k);
                    fresh = true;
                }
            } else if c == ' ' {
                self.next();
            } else if c == '#' {
                while self.i < self.cs.len() && self.peek(0) != '\n' {
                    self.next();
                }
            } else if c.is_ascii_digit() {
                self.number(l, k);
            } else if c == '"' || c == '\'' {
                let raw = self.quoted();
                let s = unescape(&raw);
                self.push(T::Str(s), l, k);
            } else if (c == 'f' || c == 'r' || c == 'b') && (self.peek(1) == '"' || self.peek(1) == '\'') {
                self.next();
                let raw = self.quoted();
                let t = match c {
                    'f' => T::FStr(raw),
                    'r' => T::Str(raw),
                    _ => T::Bytes(unescape_bytes(&raw)),
                };
                self.push(t, l, k);
            } else if c.is_alphabetic() || c == '_' {
                let mut s = String::new();
                while self.peek(0).is_alphanumeric() || self.peek(0) == '_' {
                    s.push(self.next());
                }
                self.push(T::Name(s), l, k);
            } else {
                let mut hit: Option<&str> = None;
                for op in OPS.iter() {
                    let n = op.chars().count();
                    let here: String = (0..n).map(|j| self.peek(j)).collect();
                    if here == **op {
                        hit = Some(op);
                        break;
                    }
                }
                let op = match hit {
                    Some(op) => op,
                    None => panic!("unexpected character {c:?} on line {l}"),
                };
                for _ in 0..op.chars().count() {
                    self.next();
                }
                match op {
                    "(" | "[" | "{" => self.depth += 1,
                    ")" | "]" | "}" => self.depth -= 1,
                    _ => {}
                }
                self.push(T::Op(op.to_string()), l, k);
            }
        }
        let (l, k) = (self.line, self.col);
        if !matches!(self.out.last().map(|t| &t.t), None | Some(T::Newline)) {
            self.push(T::Newline, l, k);
        }
        while self.indents.len() > 1 {
            self.indents.pop();
            self.push(T::Dedent, l, k);
        }
        self.push(T::End, l, k);
    }

    fn number(&mut self, l: u32, k: u32) {
        let mut s = String::new();
        let mut float = false;
        while self.peek(0).is_ascii_digit() || (self.peek(0) == '.' && self.peek(1).is_ascii_digit()) {
            let c = self.next();
            if c == '.' {
                float = true;
            }
            s.push(c);
        }
        let t = if float { T::Float(s.parse().expect("a float")) } else { T::Int(s.parse().expect("an int")) };
        self.push(t, l, k);
    }

    /// The text between the quotes, escapes untouched.
    fn quoted(&mut self) -> String {
        let q = self.next();
        let mut s = String::new();
        while self.peek(0) != q {
            let c = self.next();
            s.push(c);
            if c == '\\' {
                s.push(self.next());
            }
        }
        self.next();
        s
    }
}

fn unescape_bytes(raw: &str) -> Vec<u8> {
    let cs: Vec<char> = raw.chars().collect();
    let mut out: Vec<u8> = Vec::new();
    let mut i = 0;
    while i < cs.len() {
        if cs[i] == '\\' && i + 1 < cs.len() {
            i += 1;
            match cs[i] {
                'n' => out.push(b'\n'),
                't' => out.push(b'\t'),
                'r' => out.push(b'\r'),
                'x' => {
                    let h: String = cs[i + 1..i + 3].iter().collect();
                    out.push(u8::from_str_radix(&h, 16).expect("two hex digits"));
                    i += 2;
                }
                c => out.extend_from_slice(c.to_string().as_bytes()),
            }
        } else {
            out.extend_from_slice(cs[i].to_string().as_bytes());
        }
        i += 1;
    }
    out
}

fn unescape(raw: &str) -> String {
    String::from_utf8(unescape_bytes(raw)).expect("a text")
}

// --- Syntax ------------------------------------------------------------------

#[derive(Clone, Debug)]
struct X {
    e: E,
    line: u32,
    col: u32,
}

#[derive(Clone, Debug)]
enum E {
    Null,
    Bool(bool),
    Int(i64),
    Float(f64),
    Str(String),
    Bytes(Vec<u8>),
    FStr(Vec<Part>),
    Name(String),
    List(Vec<X>),
    Tuple(Vec<X>),
    Dict(Vec<(X, X)>),
    Neg(Box<X>),
    Pos(Box<X>),
    Invert(Box<X>),
    Not(Box<X>),
    And(Box<X>, Box<X>),
    Or(Box<X>, Box<X>),
    Bin(BinOp, Box<X>, Box<X>),
    Rel(Box<X>, Vec<(RelOp, X)>),
    Attr(Box<X>, String),
    Index(Box<X>, Box<X>),
    Slice(Box<X>, Option<Box<X>>, Option<Box<X>>, Option<Box<X>>),
    Call(Box<X>, Vec<Arg>),
    Lambda(Rc<Def>),
    Yield(Option<Box<X>>),
    Super,
}

#[derive(Clone, Debug)]
enum Part {
    Lit(String),
    Field(X, Conv, Vec<Part>),
}

#[derive(Clone, Debug)]
enum Arg {
    Pos(X),
    Kw(String, X),
    Star(X),
    StarStar(X),
}

#[derive(Clone, Debug)]
struct Def {
    name: String,
    params: Vec<(String, Option<X>)>,
    varargs: Option<String>,
    kwvars: Option<String>,
    body: Vec<St>,
}

#[derive(Clone, Debug)]
struct St {
    s: S,
    line: u32,
    col: u32,
}

#[derive(Clone, Debug)]
enum S {
    Expr(X),
    Assign(X, X),
    Aug(X, BinOp, X),
    If(Vec<(X, Vec<St>)>, Vec<St>),
    While(X, Vec<St>),
    For(X, X, Vec<St>),
    Def(Rc<Def>),
    Class(String, Option<X>, Vec<Rc<Def>>),
    Return(Option<X>),
    Try(Vec<St>, Vec<(Option<X>, Option<String>, Vec<St>)>, Vec<St>),
    Raise(Option<X>),
    Global(Vec<String>),
    Match(X, Vec<(Option<X>, Vec<St>)>),
    Import(String),
    Pass,
    Break,
    Continue,
}

struct Parser {
    ts: Vec<Tok>,
    i: usize,
}

impl Parser {
    fn program(src: &str) -> Vec<St> {
        let mut p = Parser { ts: Lexer::tokens(src), i: 0 };
        let mut out = Vec::new();
        while p.ts[p.i].t != T::End {
            if p.ts[p.i].t == T::Newline {
                p.i += 1;
                continue;
            }
            out.push(p.statement());
        }
        out
    }

    fn at(&self) -> (u32, u32) {
        (self.ts[self.i].line, self.ts[self.i].col)
    }

    fn is_op(&self, s: &str) -> bool {
        matches!(&self.ts[self.i].t, T::Op(o) if o == s)
    }

    fn is_word(&self, s: &str) -> bool {
        matches!(&self.ts[self.i].t, T::Name(o) if o == s)
    }

    fn op(&mut self, s: &str) -> bool {
        let hit = self.is_op(s);
        if hit {
            self.i += 1;
        }
        hit
    }

    fn word(&mut self, s: &str) -> bool {
        let hit = self.is_word(s);
        if hit {
            self.i += 1;
        }
        hit
    }

    fn need(&mut self, s: &str) {
        if !self.op(s) {
            panic!("expected `{s}`, found {:?}", self.ts[self.i]);
        }
    }

    fn name(&mut self) -> String {
        match self.ts[self.i].t.clone() {
            T::Name(n) => {
                self.i += 1;
                n
            }
            _ => panic!("expected a name, found {:?}", self.ts[self.i]),
        }
    }

    fn newline(&mut self) {
        if self.ts[self.i].t != T::Newline {
            panic!("expected the end of the line, found {:?}", self.ts[self.i]);
        }
        self.i += 1;
    }

    fn block(&mut self) -> Vec<St> {
        self.need(":");
        self.newline();
        if self.ts[self.i].t != T::Indent {
            panic!("expected a block, found {:?}", self.ts[self.i]);
        }
        self.i += 1;
        let mut out = Vec::new();
        while self.ts[self.i].t != T::Dedent {
            out.push(self.statement());
        }
        self.i += 1;
        out
    }

    fn def(&mut self) -> Rc<Def> {
        let name = self.name();
        self.need("(");
        let mut d = Def { name, params: Vec::new(), varargs: None, kwvars: None, body: Vec::new() };
        while !self.op(")") {
            if self.op("**") {
                d.kwvars = Some(self.name());
            } else if self.op("*") {
                d.varargs = Some(self.name());
            } else {
                let n = self.name();
                let default = if self.op("=") { Some(self.expr()) } else { None };
                d.params.push((n, default));
            }
            self.op(",");
        }
        d.body = self.block();
        Rc::new(d)
    }

    fn statement(&mut self) -> St {
        let (line, col) = self.at();
        let s = self.stmt();
        St { s, line, col }
    }

    fn stmt(&mut self) -> S {
        if self.word("if") {
            let mut arms = Vec::new();
            let c = self.expr();
            arms.push((c, self.block()));
            let mut other = Vec::new();
            loop {
                if self.word("elif") {
                    let c = self.expr();
                    arms.push((c, self.block()));
                } else if self.word("else") {
                    other = self.block();
                    break;
                } else {
                    break;
                }
            }
            return S::If(arms, other);
        }
        if self.word("while") {
            let c = self.expr();
            return S::While(c, self.block());
        }
        if self.word("for") {
            let t = self.targets();
            if !self.word("in") {
                panic!("expected `in`");
            }
            let it = self.exprs();
            return S::For(t, it, self.block());
        }
        if self.word("def") {
            return S::Def(self.def());
        }
        if self.word("class") {
            let name = self.name();
            let base = if self.op("(") {
                let b = self.expr();
                self.need(")");
                Some(b)
            } else {
                None
            };
            let mut defs = Vec::new();
            for st in self.block() {
                match st.s {
                    S::Def(d) => defs.push(d),
                    S::Pass => {}
                    other => panic!("a class body holds methods, not {other:?}"),
                }
            }
            return S::Class(name, base, defs);
        }
        if self.word("try") {
            let body = self.block();
            let mut handlers = Vec::new();
            while self.word("except") {
                let class = if self.is_op(":") { None } else { Some(self.expr()) };
                let bind = if self.word("as") { Some(self.name()) } else { None };
                handlers.push((class, bind, self.block()));
            }
            let last = if self.word("finally") { self.block() } else { Vec::new() };
            return S::Try(body, handlers, last);
        }
        if self.word("match") {
            let subject = self.expr();
            self.need(":");
            self.newline();
            self.i += 1;
            let mut cases = Vec::new();
            while self.word("case") {
                let pat = if self.word("_") { None } else { Some(self.expr()) };
                cases.push((pat, self.block()));
            }
            self.i += 1;
            return S::Match(subject, cases);
        }
        let s = self.simple();
        self.newline();
        s
    }

    fn simple(&mut self) -> S {
        if self.word("pass") {
            return S::Pass;
        }
        if self.word("break") {
            return S::Break;
        }
        if self.word("continue") {
            return S::Continue;
        }
        if self.word("return") {
            if self.ts[self.i].t == T::Newline {
                return S::Return(None);
            }
            return S::Return(Some(self.exprs()));
        }
        if self.word("raise") {
            if self.ts[self.i].t == T::Newline {
                return S::Raise(None);
            }
            return S::Raise(Some(self.expr()));
        }
        if self.word("global") {
            let mut names = vec![self.name()];
            while self.op(",") {
                names.push(self.name());
            }
            return S::Global(names);
        }
        if self.word("import") {
            let mut path = self.name();
            while self.op(".") {
                path.push('.');
                path.push_str(&self.name());
            }
            return S::Import(path);
        }
        let left = self.exprs();
        if self.op("=") {
            let right = self.exprs();
            return S::Assign(left, right);
        }
        for (text, op) in [
            ("+=", BinOp::Add),
            ("-=", BinOp::Sub),
            ("*=", BinOp::Mul),
            ("/=", BinOp::Div),
            ("//=", BinOp::FloorDiv),
            ("%=", BinOp::Mod),
            ("**=", BinOp::Pow),
        ] {
            if self.op(text) {
                let right = self.exprs();
                return S::Aug(left, op, right);
            }
        }
        S::Expr(left)
    }

    fn targets(&mut self) -> X {
        let (line, col) = self.at();
        let mut names = vec![self.postfix()];
        while self.op(",") {
            names.push(self.postfix());
        }
        if names.len() == 1 {
            return names.pop().expect("one");
        }
        X { e: E::Tuple(names), line, col }
    }

    fn exprs(&mut self) -> X {
        let (line, col) = self.at();
        let first = self.expr();
        if !self.is_op(",") {
            return first;
        }
        let mut items = vec![first];
        while self.op(",") {
            items.push(self.expr());
        }
        X { e: E::Tuple(items), line, col }
    }

    fn is_lambda(&self) -> bool {
        if let T::Name(_) = self.ts[self.i].t {
            return matches!(&self.ts[self.i + 1].t, T::Op(o) if o == "=>");
        }
        if !self.is_op("(") {
            return false;
        }
        let mut j = self.i;
        let mut depth = 0;
        loop {
            match &self.ts[j].t {
                T::Op(o) if o == "(" => depth += 1,
                T::Op(o) if o == ")" => depth -= 1,
                T::End => return false,
                _ => {}
            }
            j += 1;
            if depth == 0 {
                break;
            }
        }
        matches!(&self.ts[j].t, T::Op(o) if o == "=>")
    }

    fn expr(&mut self) -> X {
        let (line, col) = self.at();
        if self.word("yield") {
            let v = if self.ts[self.i].t == T::Newline { None } else { Some(Box::new(self.exprs())) };
            return X { e: E::Yield(v), line, col };
        }
        if self.is_lambda() {
            let mut params = Vec::new();
            if self.op("(") {
                while !self.op(")") {
                    params.push((self.name(), None));
                    self.op(",");
                }
            } else {
                params.push((self.name(), None));
            }
            self.need("=>");
            let body = self.expr();
            let d = Def {
                name: "<lambda>".to_string(),
                params,
                varargs: None,
                kwvars: None,
                body: vec![St { line: body.line, col: body.col, s: S::Return(Some(body)) }],
            };
            return X { e: E::Lambda(Rc::new(d)), line, col };
        }
        self.or_expr()
    }

    fn or_expr(&mut self) -> X {
        let mut left = self.and_expr();
        while self.word("or") {
            let right = self.and_expr();
            let (line, col) = (left.line, left.col);
            left = X { e: E::Or(Box::new(left), Box::new(right)), line, col };
        }
        left
    }

    fn and_expr(&mut self) -> X {
        let mut left = self.not_expr();
        while self.word("and") {
            let right = self.not_expr();
            let (line, col) = (left.line, left.col);
            left = X { e: E::And(Box::new(left), Box::new(right)), line, col };
        }
        left
    }

    fn not_expr(&mut self) -> X {
        let (line, col) = self.at();
        if self.word("not") {
            let v = self.not_expr();
            return X { e: E::Not(Box::new(v)), line, col };
        }
        self.relation()
    }

    fn relation(&mut self) -> X {
        let left = self.binary(0);
        let mut rest = Vec::new();
        loop {
            let op = if self.op("==") {
                RelOp::Eq
            } else if self.op("!=") {
                RelOp::NotEq
            } else if self.op("<=") {
                RelOp::LtEq
            } else if self.op(">=") {
                RelOp::GtEq
            } else if self.op("<") {
                RelOp::Lt
            } else if self.op(">") {
                RelOp::Gt
            } else if self.word("in") {
                RelOp::In
            } else if self.is_word("not") {
                self.i += 1;
                if !self.word("in") {
                    panic!("expected `in`");
                }
                RelOp::NotIn
            } else {
                break;
            };
            rest.push((op, self.binary(0)));
        }
        if rest.is_empty() {
            return left;
        }
        let (line, col) = (left.line, left.col);
        X { e: E::Rel(Box::new(left), rest), line, col }
    }

    fn binary(&mut self, level: usize) -> X {
        let table: [&[(&str, BinOp)]; 6] = [
            &[("|", BinOp::BitOr)],
            &[("^", BinOp::BitXor)],
            &[("&", BinOp::BitAnd)],
            &[("<<", BinOp::Shl), (">>", BinOp::Shr)],
            &[("+", BinOp::Add), ("-", BinOp::Sub)],
            &[("*", BinOp::Mul), ("//", BinOp::FloorDiv), ("/", BinOp::Div), ("%", BinOp::Mod)],
        ];
        if level == table.len() {
            return self.unary();
        }
        let mut left = self.binary(level + 1);
        loop {
            let mut hit = None;
            for (text, op) in table[level] {
                if self.op(text) {
                    hit = Some(*op);
                    break;
                }
            }
            let op = match hit {
                Some(op) => op,
                None => return left,
            };
            let right = self.binary(level + 1);
            let (line, col) = (left.line, left.col);
            left = X { e: E::Bin(op, Box::new(left), Box::new(right)), line, col };
        }
    }

    fn unary(&mut self) -> X {
        let (line, col) = self.at();
        if self.op("-") {
            let v = self.unary();
            return X { e: E::Neg(Box::new(v)), line, col };
        }
        if self.op("+") {
            let v = self.unary();
            return X { e: E::Pos(Box::new(v)), line, col };
        }
        if self.op("~") {
            let v = self.unary();
            return X { e: E::Invert(Box::new(v)), line, col };
        }
        let base = self.postfix();
        if self.op("**") {
            let power = self.unary();
            return X { e: E::Bin(BinOp::Pow, Box::new(base), Box::new(power)), line, col };
        }
        base
    }

    fn postfix(&mut self) -> X {
        let mut left = self.atom();
        loop {
            let (line, col) = (left.line, left.col);
            if self.op(".") {
                let n = self.name();
                left = X { e: E::Attr(Box::new(left), n), line, col };
            } else if self.op("(") {
                let args = self.args();
                left = match (&left.e, args.is_empty()) {
                    (E::Name(n), true) if n == "super" => X { e: E::Super, line, col },
                    _ => X { e: E::Call(Box::new(left), args), line, col },
                };
            } else if self.op("[") {
                left = self.subscript(left);
            } else {
                return left;
            }
        }
    }

    fn args(&mut self) -> Vec<Arg> {
        let mut out = Vec::new();
        while !self.op(")") {
            if self.op("**") {
                out.push(Arg::StarStar(self.expr()));
            } else if self.op("*") {
                out.push(Arg::Star(self.expr()));
            } else if matches!(self.ts[self.i].t, T::Name(_)) && matches!(&self.ts[self.i + 1].t, T::Op(o) if o == "=") {
                let n = self.name();
                self.need("=");
                out.push(Arg::Kw(n, self.expr()));
            } else {
                out.push(Arg::Pos(self.expr()));
            }
            self.op(",");
        }
        out
    }

    fn subscript(&mut self, left: X) -> X {
        let (line, col) = (left.line, left.col);
        let mut parts: Vec<Option<Box<X>>> = vec![None];
        let mut colons = 0;
        while !self.op("]") {
            if self.op(":") {
                colons += 1;
                parts.push(None);
            } else {
                let v = self.expr();
                let n = parts.len();
                parts[n - 1] = Some(Box::new(v));
            }
        }
        if colons == 0 {
            let index = parts.pop().expect("one").expect("an index");
            return X { e: E::Index(Box::new(left), index), line, col };
        }
        parts.resize(3, None);
        let step = parts.pop().expect("three");
        let upper = parts.pop().expect("two");
        let lower = parts.pop().expect("one");
        X { e: E::Slice(Box::new(left), lower, upper, step), line, col }
    }

    fn atom(&mut self) -> X {
        let (line, col) = self.at();
        let t = self.ts[self.i].t.clone();
        self.i += 1;
        let e = match t {
            T::Int(n) => E::Int(n),
            T::Float(f) => E::Float(f),
            T::Str(s) => E::Str(s),
            T::Bytes(b) => E::Bytes(b),
            T::FStr(raw) => E::FStr(fstring(&raw)),
            T::Name(n) => match n.as_str() {
                "null" => E::Null,
                "true" => E::Bool(true),
                "false" => E::Bool(false),
                _ => E::Name(n),
            },
            T::Op(o) => match o.as_str() {
                "(" => {
                    if self.op(")") {
                        return X { e: E::Tuple(Vec::new()), line, col };
                    }
                    let first = self.expr();
                    if self.op(")") {
                        return X { e: first.e, line, col };
                    }
                    let mut items = vec![first];
                    while !self.op(")") {
                        self.need(",");
                        if self.op(")") {
                            break;
                        }
                        items.push(self.expr());
                    }
                    E::Tuple(items)
                }
                "[" => {
                    let mut items = Vec::new();
                    while !self.op("]") {
                        items.push(self.expr());
                        self.op(",");
                    }
                    E::List(items)
                }
                "{" => {
                    let mut items = Vec::new();
                    while !self.op("}") {
                        let k = self.expr();
                        self.need(":");
                        items.push((k, self.expr()));
                        self.op(",");
                    }
                    E::Dict(items)
                }
                _ => panic!("unexpected `{o}` on line {line}"),
            },
            other => panic!("unexpected {other:?} on line {line}"),
        };
        X { e, line, col }
    }
}

/// The parts of an f-string.
fn fstring(raw: &str) -> Vec<Part> {
    let cs: Vec<char> = raw.chars().collect();
    let mut out = Vec::new();
    let mut lit = String::new();
    let mut i = 0;
    while i < cs.len() {
        if (cs[i] == '{' || cs[i] == '}') && i + 1 < cs.len() && cs[i + 1] == cs[i] {
            lit.push(cs[i]);
            i += 2;
        } else if cs[i] == '{' {
            if !lit.is_empty() {
                out.push(Part::Lit(unescape(&lit)));
                lit.clear();
            }
            let mut depth = 0;
            let mut j = i + 1;
            let mut end = 0;
            let mut conv = Conv::Display;
            let mut spec: Option<usize> = None;
            loop {
                let c = cs[j];
                if depth == 0 && spec.is_none() && end == 0 && c == '!' && cs[j + 1] != '=' {
                    end = j;
                    if cs[j + 1] == 'r' {
                        conv = Conv::Repr;
                    }
                } else if depth == 0 && spec.is_none() && c == ':' {
                    if end == 0 {
                        end = j;
                    }
                    spec = Some(j + 1);
                } else if c == '(' || c == '[' || c == '{' {
                    depth += 1;
                } else if depth == 0 && c == '}' {
                    break;
                } else if c == ')' || c == ']' || c == '}' {
                    depth -= 1;
                }
                j += 1;
            }
            if end == 0 {
                end = j;
            }
            let src: String = cs[i + 1..end].iter().collect();
            let mut p = Parser { ts: Lexer::tokens(&format!("{src}\n")), i: 0 };
            let x = p.expr();
            let inner = match spec {
                Some(from) => fstring(&cs[from..j].iter().collect::<String>()),
                None => Vec::new(),
            };
            out.push(Part::Field(x, conv, inner));
            i = j + 1;
        } else {
            lit.push(cs[i]);
            i += 1;
        }
    }
    if !lit.is_empty() {
        out.push(Part::Lit(unescape(&lit)));
    }
    out
}

// --- Names -------------------------------------------------------------------

fn note(names: &mut Vec<String>, n: &str) {
    if !names.iter().any(|x| x == n) {
        names.push(n.to_string());
    }
}

fn target_names(x: &X, out: &mut Vec<String>) {
    match &x.e {
        E::Name(n) => note(out, n),
        E::Tuple(items) => {
            for i in items {
                target_names(i, out);
            }
        }
        _ => {}
    }
}

/// The names these statements bind, in order. What a `case` body binds stays
/// inside it.
fn bound(sts: &[St], out: &mut Vec<String>) {
    for st in sts {
        match &st.s {
            S::Assign(t, _) | S::Aug(t, _, _) => target_names(t, out),
            S::If(arms, other) => {
                for (_, b) in arms {
                    bound(b, out);
                }
                bound(other, out);
            }
            S::While(_, b) => bound(b, out),
            S::For(t, _, b) => {
                target_names(t, out);
                bound(b, out);
            }
            S::Def(d) => note(out, &d.name),
            S::Class(n, _, _) => note(out, n),
            S::Try(b, hs, f) => {
                bound(b, out);
                for (_, bind, hb) in hs {
                    if let Some(n) = bind {
                        note(out, n);
                    }
                    bound(hb, out);
                }
                bound(f, out);
            }
            S::Import(p) => note(out, p.rsplit('.').next().expect("a segment")),
            _ => {}
        }
    }
}

fn declared_global(sts: &[St], out: &mut Vec<String>) {
    for st in sts {
        match &st.s {
            S::Global(names) => {
                for n in names {
                    note(out, n);
                }
            }
            S::If(arms, other) => {
                for (_, b) in arms {
                    declared_global(b, out);
                }
                declared_global(other, out);
            }
            S::While(_, b) | S::For(_, _, b) => declared_global(b, out),
            S::Try(b, hs, f) => {
                declared_global(b, out);
                for (_, _, hb) in hs {
                    declared_global(hb, out);
                }
                declared_global(f, out);
            }
            _ => {}
        }
    }
}

/// Every `global` of every function in these statements.
fn all_globals(sts: &[St], out: &mut Vec<String>) {
    for d in functions(sts) {
        declared_global(&d.body, out);
        all_globals(&d.body, out);
    }
}

/// What walks over the names and functions of a piece of syntax.
#[derive(Default)]
struct Walk {
    names: Vec<String>,
    defs: Vec<Rc<Def>>,
    yields: bool,
}

impl Walk {
    fn parts(&mut self, ps: &[Part]) {
        for p in ps {
            if let Part::Field(x, _, spec) = p {
                self.expr(x);
                self.parts(spec);
            }
        }
    }

    fn expr(&mut self, x: &X) {
        match &x.e {
            E::Name(n) => note(&mut self.names, n),
            E::FStr(ps) => self.parts(ps),
            E::List(items) | E::Tuple(items) => {
                for i in items {
                    self.expr(i);
                }
            }
            E::Dict(items) => {
                for (k, v) in items {
                    self.expr(k);
                    self.expr(v);
                }
            }
            E::Neg(a) | E::Pos(a) | E::Invert(a) | E::Not(a) | E::Attr(a, _) => self.expr(a),
            E::And(a, b) | E::Or(a, b) | E::Bin(_, a, b) | E::Index(a, b) => {
                self.expr(a);
                self.expr(b);
            }
            E::Rel(a, rest) => {
                self.expr(a);
                for (_, b) in rest {
                    self.expr(b);
                }
            }
            E::Slice(a, l, u, s) => {
                self.expr(a);
                for p in [l, u, s] {
                    if let Some(v) = p {
                        self.expr(v);
                    }
                }
            }
            E::Call(f, args) => {
                self.expr(f);
                for a in args {
                    match a {
                        Arg::Pos(v) | Arg::Kw(_, v) | Arg::Star(v) | Arg::StarStar(v) => self.expr(v),
                    }
                }
            }
            E::Lambda(d) => self.defs.push(d.clone()),
            E::Yield(v) => {
                self.yields = true;
                if let Some(v) = v {
                    self.expr(v);
                }
            }
            _ => {}
        }
    }

    fn stmts(&mut self, sts: &[St]) {
        for st in sts {
            match &st.s {
                S::Expr(x) | S::Return(Some(x)) | S::Raise(Some(x)) => self.expr(x),
                S::Assign(a, b) | S::Aug(a, _, b) => {
                    self.expr(a);
                    self.expr(b);
                }
                S::If(arms, other) => {
                    for (c, b) in arms {
                        self.expr(c);
                        self.stmts(b);
                    }
                    self.stmts(other);
                }
                S::While(c, b) => {
                    self.expr(c);
                    self.stmts(b);
                }
                S::For(t, it, b) => {
                    self.expr(t);
                    self.expr(it);
                    self.stmts(b);
                }
                S::Def(d) => self.defs.push(d.clone()),
                S::Class(_, base, ds) => {
                    if let Some(b) = base {
                        self.expr(b);
                    }
                    for d in ds {
                        self.defs.push(d.clone());
                    }
                }
                S::Try(b, hs, f) => {
                    self.stmts(b);
                    for (c, _, hb) in hs {
                        if let Some(c) = c {
                            self.expr(c);
                        }
                        self.stmts(hb);
                    }
                    self.stmts(f);
                }
                S::Match(x, cases) => {
                    self.expr(x);
                    for (p, b) in cases {
                        if let Some(p) = p {
                            self.expr(p);
                        }
                        self.stmts(b);
                    }
                }
                _ => {}
            }
        }
    }
}

fn functions(sts: &[St]) -> Vec<Rc<Def>> {
    let mut w = Walk::default();
    w.stmts(sts);
    w.defs
}

fn own_names(d: &Def) -> Vec<String> {
    let mut out: Vec<String> = d.params.iter().map(|(n, _)| n.clone()).collect();
    for n in [&d.varargs, &d.kwvars] {
        if let Some(n) = n {
            note(&mut out, n);
        }
    }
    let mut globals = Vec::new();
    declared_global(&d.body, &mut globals);
    let mut b = Vec::new();
    bound(&d.body, &mut b);
    for n in b {
        if !globals.contains(&n) {
            note(&mut out, &n);
        }
    }
    out
}

/// The names a function needs from around it.
fn free_names(d: &Def) -> Vec<String> {
    let own = own_names(d);
    let mut w = Walk::default();
    w.stmts(&d.body);
    let mut out = Vec::new();
    for n in &w.names {
        if !own.contains(n) {
            note(&mut out, n);
        }
    }
    let mut globals = Vec::new();
    declared_global(&d.body, &mut globals);
    for n in globals {
        note(&mut out, &n);
    }
    for inner in &w.defs {
        for n in free_names(inner) {
            if !own.contains(&n) {
                note(&mut out, &n);
            }
        }
    }
    out
}

// --- Code --------------------------------------------------------------------

struct Unit {
    ops: Vec<Op>,
    spans: Vec<(u32, u32)>,
    consts: Vec<Value>,
    names: Vec<String>,
    pairs: Vec<(u32, u32)>,
    protos: Vec<Proto>,
    classes: Vec<ClassSpec>,
    locals: Vec<String>,
    cells: Vec<String>,
    frees: Vec<String>,
    captures: Vec<CaptureSource>,
    globals: Vec<String>,
    blocks: Vec<HashMap<String, u32>>,
    nlocals: u32,
}

impl Unit {
    fn new() -> Unit {
        Unit {
            ops: Vec::new(),
            spans: Vec::new(),
            consts: Vec::new(),
            names: Vec::new(),
            pairs: Vec::new(),
            protos: Vec::new(),
            classes: Vec::new(),
            locals: Vec::new(),
            cells: Vec::new(),
            frees: Vec::new(),
            captures: Vec::new(),
            globals: Vec::new(),
            blocks: Vec::new(),
            nlocals: 0,
        }
    }

    fn declare(&mut self, n: &str, captured: &[String]) {
        if captured.iter().any(|c| c == n) {
            note(&mut self.cells, n);
        } else if !self.locals.iter().any(|x| x == n) {
            self.locals.push(n.to_string());
            self.nlocals += 1;
        }
    }

    fn slot(&self, n: &str) -> Option<VarTarget> {
        if let Some(i) = self.locals.iter().position(|x| x == n) {
            return Some(VarTarget::Local(i as u32));
        }
        self.cells.iter().position(|x| x == n).map(|i| VarTarget::Cell(i as u32))
    }
}

struct Compiler<'h> {
    heap: &'h mut Heap,
    units: Vec<Unit>,
    source: Rc<String>,
    at: (u32, u32),
}

fn text(heap: &mut Heap, s: &str) -> Value {
    heap.alloc_str(s.to_string())
}

fn float_text(f: f64) -> String {
    if f.is_nan() {
        "nan".to_string()
    } else if f.is_infinite() {
        (if f > 0.0 { "inf" } else { "-inf" }).to_string()
    } else if f == f.trunc() && f.abs() < 1e16 {
        format!("{f:.1}")
    } else {
        format!("{f}")
    }
}

fn float(heap: &mut Heap, f: f64) -> Value {
    heap.alloc_float(FloatObj { bits: f.to_bits(), text: float_text(f) })
}

const STEPS: [&str; 17] = [
    "map", "filter", "flat_map", "sort_by", "reduce", "find", "any", "all", "count", "min_by", "max_by", "group_by", "partition",
    "unique_by", "take_while", "drop_while", "first",
];

/// Compile a module body.
fn compile(heap: &mut Heap, src: &str, source: &str) -> Rc<CodeObject> {
    let sts = Parser::program(src);
    let mut names = Vec::new();
    bound(&sts, &mut names);
    let mut globals = Vec::new();
    all_globals(&sts, &mut globals);
    let mut captured = Vec::new();
    for d in functions(&sts) {
        for n in free_names(&d) {
            note(&mut captured, &n);
        }
    }
    for n in globals {
        note(&mut names, &n);
    }
    let mut unit = Unit::new();
    for n in &names {
        unit.declare(n, &captured);
    }
    let mut c = Compiler { heap, units: vec![unit], source: Rc::new(source.to_string()), at: (1, 1) };
    c.stmts(&sts);
    c.emit(Op::LoadNone);
    c.emit(Op::Return);
    let unit = c.units.pop().expect("the module");
    let module_names = names.iter().map(|n| (n.clone(), unit.slot(n).expect("declared"))).collect();
    let source = c.source.clone();
    Rc::new(code(unit, "<module>", source, Vec::new(), Vec::new(), None, None, false, Vec::new(), module_names))
}

#[allow(clippy::too_many_arguments)]
fn code(
    u: Unit,
    name: &str,
    source: Rc<String>,
    params: Vec<Param>,
    defaults: Vec<Value>,
    varargs: Option<VarTarget>,
    kwvars: Option<VarTarget>,
    is_generator: bool,
    shadow_hints: Vec<(u32, String)>,
    module_names: Vec<(String, VarTarget)>,
) -> CodeObject {
    CodeObject {
        name: name.to_string(),
        source,
        ops: u.ops,
        spans: u.spans,
        consts: u.consts,
        names: u.names,
        pairs: u.pairs,
        params,
        defaults,
        varargs,
        kwvars,
        protos: u.protos,
        classes: u.classes,
        nlocals: u.nlocals as usize,
        ncells: u.cells.len(),
        is_generator,
        shadow_hints,
        module_names,
    }
}

impl Compiler<'_> {
    fn u(&mut self) -> &mut Unit {
        let n = self.units.len();
        &mut self.units[n - 1]
    }

    fn emit(&mut self, op: Op) -> usize {
        let at = self.at;
        let u = self.u();
        u.ops.push(op);
        u.spans.push(at);
        u.ops.len() - 1
    }

    fn here(&mut self) -> u32 {
        self.u().ops.len() as u32
    }

    fn patch(&mut self, at: usize) {
        let t = self.here();
        let u = self.u();
        u.ops[at] = match u.ops[at] {
            Op::Jump(_) => Op::Jump(t),
            Op::PopJumpIfFalse(_) => Op::PopJumpIfFalse(t),
            Op::PopJumpIfTrue(_) => Op::PopJumpIfTrue(t),
            Op::JumpIfFalseOrPop(_) => Op::JumpIfFalseOrPop(t),
            Op::JumpIfTrueOrPop(_) => Op::JumpIfTrueOrPop(t),
            Op::ForEach(_) => Op::ForEach(t),
            Op::SetupExcept(_) => Op::SetupExcept(t),
            Op::SetupFinally(_) => Op::SetupFinally(t),
            other => other,
        };
    }

    fn constant(&mut self, v: Value) {
        let u = self.u();
        u.consts.push(v);
        let i = (u.consts.len() - 1) as u32;
        self.emit(Op::LoadConst(i));
    }

    fn string(&mut self, s: &str) {
        let v = text(self.heap, s);
        self.constant(v);
    }

    fn name_index(&mut self, n: &str) -> u32 {
        let u = self.u();
        if let Some(i) = u.names.iter().position(|x| x == n) {
            return i as u32;
        }
        u.names.push(n.to_string());
        (u.names.len() - 1) as u32
    }

    fn pair(&mut self, a: u32, b: u32) -> u32 {
        let u = self.u();
        u.pairs.push((a, b));
        (u.pairs.len() - 1) as u32
    }

    /// The place of a name that unit `k` captures.
    fn free(&mut self, k: usize, n: &str) -> Option<u32> {
        if let Some(i) = self.units[k].frees.iter().position(|x| x == n) {
            return Some(i as u32);
        }
        if k == 0 {
            return None;
        }
        let source = match self.units[k - 1].slot(n) {
            Some(VarTarget::Cell(i)) => CaptureSource::Cell(i),
            _ => CaptureSource::Free(self.free(k - 1, n)?),
        };
        self.units[k].frees.push(n.to_string());
        self.units[k].captures.push(source);
        Some((self.units[k].frees.len() - 1) as u32)
    }

    fn block_slot(&mut self, n: &str) -> Option<u32> {
        for b in self.u().blocks.iter().rev() {
            if let Some(s) = b.get(n) {
                return Some(*s);
            }
        }
        None
    }

    fn load(&mut self, n: &str) {
        if let Some(s) = self.block_slot(n) {
            self.emit(Op::LoadFast(s));
            return;
        }
        let global = self.u().globals.iter().any(|g| g == n);
        let slot = if global { None } else { self.u().slot(n) };
        match slot {
            Some(VarTarget::Local(s)) => self.emit(Op::LoadFast(s)),
            Some(VarTarget::Cell(s)) => self.emit(Op::LoadCell(s)),
            None => {
                let k = self.units.len() - 1;
                match self.free(k, n) {
                    Some(s) => self.emit(Op::LoadFree(s)),
                    None => {
                        let i = self.name_index(n);
                        self.emit(Op::LoadGlobal(i))
                    }
                }
            }
        };
    }

    fn store(&mut self, n: &str) {
        if let Some(s) = self.block_slot(n) {
            self.emit(Op::StoreFast(s));
            return;
        }
        let global = self.u().globals.iter().any(|g| g == n);
        let slot = if global { None } else { self.u().slot(n) };
        match slot {
            Some(VarTarget::Local(s)) => self.emit(Op::StoreFast(s)),
            Some(VarTarget::Cell(s)) => self.emit(Op::StoreCell(s)),
            None => {
                let k = self.units.len() - 1;
                let s = self.free(k, n).expect("a name to store to");
                self.emit(Op::StoreFree(s))
            }
        };
    }

    fn assign(&mut self, t: &X) {
        match &t.e {
            E::Name(n) => self.store(n),
            E::Attr(o, n) => {
                self.expr(o);
                let i = self.name_index(n);
                self.emit(Op::StoreAttr(i));
            }
            E::Index(o, i) => {
                self.expr(o);
                self.expr(i);
                self.emit(Op::StoreSubscript);
            }
            E::Tuple(items) => {
                self.emit(Op::UnpackSequence(items.len() as u32));
                for i in items {
                    self.assign(i);
                }
            }
            _ => panic!("cannot assign to {t:?}"),
        }
    }

    /// Compile a function and leave it on the stack.
    fn function(&mut self, d: &Def) {
        let own = own_names(d);
        let mut captured = Vec::new();
        let mut w = Walk::default();
        w.stmts(&d.body);
        for inner in &w.defs {
            for n in free_names(inner) {
                note(&mut captured, &n);
            }
        }
        let mut unit = Unit::new();
        declared_global(&d.body, &mut unit.globals);
        for n in &own {
            unit.declare(n, &captured);
        }
        let module = &self.units[0];
        let hints: Vec<(u32, String)> = unit
            .locals
            .iter()
            .enumerate()
            .filter(|(_, n)| !d.params.iter().any(|(p, _)| p == *n) && module.slot(n).is_some())
            .map(|(i, n)| (i as u32, n.clone()))
            .collect();
        let params: Vec<Param> = d
            .params
            .iter()
            .map(|(n, dv)| Param { name: n.clone(), has_default: dv.is_some(), target: unit.slot(n).expect("declared") })
            .collect();
        let varargs = d.varargs.as_ref().map(|n| unit.slot(n).expect("declared"));
        let kwvars = d.kwvars.as_ref().map(|n| unit.slot(n).expect("declared"));
        let defaults: Vec<Value> = d
            .params
            .iter()
            .filter_map(|(_, dv)| dv.as_ref())
            .map(|x| match &x.e {
                E::Null => Value::Null,
                E::Bool(b) => Value::Bool(*b),
                E::Int(n) => Value::Int(*n),
                E::Str(s) => self.heap.alloc_str(s.clone()),
                E::Bytes(b) => self.heap.alloc_bytes(b.clone()),
                other => panic!("a default is a literal here, not {other:?}"),
            })
            .collect();
        self.units.push(unit);
        let at = self.at;
        self.stmts(&d.body);
        self.emit(Op::LoadNone);
        self.emit(Op::Return);
        self.at = at;
        let mut unit = self.units.pop().expect("pushed");
        let captures = std::mem::take(&mut unit.captures);
        let source = self.source.clone();
        let c = code(unit, &d.name, source, params, defaults, varargs, kwvars, w.yields, hints, Vec::new());
        let u = self.u();
        u.protos.push(Proto { code: Rc::new(c), captures });
        let i = (u.protos.len() - 1) as u32;
        self.emit(Op::MakeFunction(i));
    }

    fn parts(&mut self, ps: &[Part]) {
        for p in ps {
            match p {
                Part::Lit(s) => self.string(s),
                Part::Field(x, conv, spec) => {
                    self.expr(x);
                    self.parts(spec);
                    self.emit(Op::FormatValue(*conv));
                }
            }
        }
        self.emit(Op::BuildString(ps.len() as u32));
    }

    /// Whether a call is a step that may wait for the next one.
    fn defers(x: &X) -> bool {
        match &x.e {
            E::Call(f, _) => matches!(&f.e, E::Attr(_, n) if n == "map" || n == "filter"),
            _ => false,
        }
    }

    fn call(&mut self, f: &X, args: &[Arg], hint: bool) {
        let at = self.at;
        let plain = args.iter().all(|a| matches!(a, Arg::Pos(_)));
        if plain {
            if let E::Attr(o, n) = &f.e {
                let flushes = STEPS.contains(&n.as_str()) || n == "take";
                let flush = flushes && Compiler::defers(o);
                match (&o.e, flush) {
                    (E::Call(g, inner), true) => {
                        self.at = (o.line, o.col);
                        self.call(g, inner, true);
                    }
                    _ => self.expr(o),
                }
                self.at = at;
                let i = self.name_index(n);
                self.emit(Op::LoadMethod(i));
                for a in args {
                    if let Arg::Pos(x) = a {
                        self.expr(x);
                    }
                }
                let mut argc = args.len() as u32;
                if hint {
                    argc |= CHAIN_HINT;
                }
                if flush {
                    argc |= CHAIN_FLUSH;
                }
                self.at = at;
                let p = self.pair(i, argc);
                self.emit(Op::CallMethod(p));
                return;
            }
            self.expr(f);
            for a in args {
                if let Arg::Pos(x) = a {
                    self.expr(x);
                }
            }
            self.at = at;
            self.emit(Op::Call(args.len() as u32));
            return;
        }
        self.expr(f);
        let mut n = 0;
        let mut lists = 0;
        for a in args {
            match a {
                Arg::Pos(x) => {
                    self.expr(x);
                    n += 1;
                }
                Arg::Star(x) => {
                    self.emit(Op::BuildList(n));
                    n = 0;
                    if lists > 0 {
                        self.emit(Op::Binary(BinOp::Add));
                    }
                    self.expr(x);
                    self.emit(Op::Binary(BinOp::Add));
                    lists += 1;
                }
                _ => {}
            }
        }
        if lists == 0 || n > 0 {
            self.emit(Op::BuildList(n));
            if lists > 0 {
                self.emit(Op::Binary(BinOp::Add));
            }
        }
        let mut whole = false;
        let mut k = 0;
        for a in args {
            match a {
                Arg::Kw(name, x) => {
                    self.string(name);
                    self.expr(x);
                    k += 1;
                }
                Arg::StarStar(x) => {
                    self.expr(x);
                    whole = true;
                }
                _ => {}
            }
        }
        if !whole {
            self.emit(Op::BuildMap(k));
        }
        self.at = at;
        self.emit(Op::CallEx);
    }

    fn optional(&mut self, x: &Option<Box<X>>) {
        match x {
            Some(x) => self.expr(x),
            None => {
                self.emit(Op::LoadNone);
            }
        }
    }

    fn expr(&mut self, x: &X) {
        let before = self.at;
        self.at = (x.line, x.col);
        let at = self.at;
        match &x.e {
            E::Null => {
                self.emit(Op::LoadNone);
            }
            E::Bool(b) => self.constant(Value::Bool(*b)),
            E::Int(n) => self.constant(Value::Int(*n)),
            E::Float(f) => {
                let v = float(self.heap, *f);
                self.constant(v);
            }
            E::Str(s) => self.string(s),
            E::Bytes(b) => {
                let v = self.heap.alloc_bytes(b.clone());
                self.constant(v);
            }
            E::FStr(ps) => self.parts(ps),
            E::Name(n) => self.load(n),
            E::List(items) => {
                for i in items {
                    self.expr(i);
                }
                self.emit(Op::BuildList(items.len() as u32));
            }
            E::Tuple(items) => {
                for i in items {
                    self.expr(i);
                }
                self.emit(Op::BuildTuple(items.len() as u32));
            }
            E::Dict(items) => {
                for (k, v) in items {
                    self.expr(k);
                    self.expr(v);
                }
                self.emit(Op::BuildMap(items.len() as u32));
            }
            E::Neg(a) => {
                self.expr(a);
                self.emit(Op::UnaryNeg);
            }
            E::Pos(a) => {
                self.expr(a);
                self.emit(Op::UnaryPos);
            }
            E::Invert(a) => {
                self.expr(a);
                self.emit(Op::UnaryInvert);
            }
            E::Not(a) => {
                self.expr(a);
                self.emit(Op::UnaryNot);
            }
            E::And(a, b) | E::Or(a, b) => {
                self.expr(a);
                let j = match &x.e {
                    E::And(_, _) => self.emit(Op::JumpIfFalseOrPop(0)),
                    _ => self.emit(Op::JumpIfTrueOrPop(0)),
                };
                self.expr(b);
                self.emit(Op::AssertBool);
                self.patch(j);
            }
            E::Bin(op, a, b) => {
                self.expr(a);
                self.expr(b);
                self.at = at;
                self.emit(Op::Binary(*op));
            }
            E::Rel(a, rest) => {
                self.expr(a);
                let mut outs = Vec::new();
                for (i, (op, b)) in rest.iter().enumerate() {
                    self.expr(b);
                    if i + 1 < rest.len() {
                        self.emit(Op::Dup);
                        self.emit(Op::RotThree);
                        self.emit(Op::Compare(*op));
                        outs.push(self.emit(Op::JumpIfFalseOrPop(0)));
                    } else {
                        self.emit(Op::Compare(*op));
                    }
                }
                if !outs.is_empty() {
                    let done = self.emit(Op::Jump(0));
                    for j in outs {
                        self.patch(j);
                    }
                    self.emit(Op::RotTwo);
                    self.emit(Op::Pop);
                    self.patch(done);
                }
            }
            E::Attr(o, n) => {
                self.expr(o);
                let i = self.name_index(n);
                self.emit(Op::LoadAttr(i));
            }
            E::Index(o, i) => {
                self.expr(o);
                self.expr(i);
                self.emit(Op::LoadSubscript);
            }
            E::Slice(o, l, u, s) => {
                self.expr(o);
                self.optional(l);
                self.optional(u);
                self.optional(s);
                self.emit(Op::LoadSlice);
            }
            E::Call(f, args) => self.call(f, args, false),
            E::Lambda(d) => self.function(d),
            E::Yield(v) => {
                self.optional(v);
                self.emit(Op::Yield);
            }
            E::Super => {
                self.emit(Op::LoadSuper);
            }
        }
        self.at = before;
    }

    fn stmts(&mut self, sts: &[St]) {
        for st in sts {
            self.at = (st.line, st.col);
            self.stmt(st);
        }
    }

    fn enter_loop(&mut self) -> (usize, u32) {
        let p = self.pair(0, 0);
        self.emit(Op::SetupLoop(p));
        (p as usize, self.here())
    }

    fn leave_loop(&mut self, p: usize, cont: u32) {
        self.emit(Op::PopBlock);
        let out = self.here();
        self.u().pairs[p] = (out, cont);
    }

    fn stmt(&mut self, st: &St) {
        let at = self.at;
        match &st.s {
            S::Expr(x) => {
                self.expr(x);
                if !matches!(x.e, E::Yield(_)) {
                    self.emit(Op::Pop);
                }
            }
            S::Assign(t, x) => {
                self.expr(x);
                self.assign(t);
            }
            S::Aug(t, op, x) => match &t.e {
                E::Index(o, i) => {
                    self.expr(o);
                    self.expr(i);
                    self.emit(Op::DupTwo);
                    self.emit(Op::LoadSubscript);
                    self.expr(x);
                    self.emit(Op::Binary(*op));
                    self.emit(Op::RotThree);
                    self.emit(Op::StoreSubscript);
                }
                _ => {
                    self.expr(t);
                    self.expr(x);
                    self.emit(Op::Binary(*op));
                    self.assign(t);
                }
            },
            S::If(arms, other) => {
                let mut ends = Vec::new();
                for (c, b) in arms {
                    self.expr(c);
                    let j = self.emit(Op::PopJumpIfFalse(0));
                    self.stmts(b);
                    ends.push(self.emit(Op::Jump(0)));
                    self.patch(j);
                }
                self.stmts(other);
                for j in ends {
                    self.patch(j);
                }
            }
            S::While(c, b) => {
                let (p, top) = self.enter_loop();
                self.expr(c);
                let j = self.emit(Op::PopJumpIfFalse(0));
                self.stmts(b);
                self.emit(Op::Jump(top));
                self.patch(j);
                self.leave_loop(p, top);
            }
            S::For(t, it, b) => {
                let (p, _) = self.enter_loop();
                self.expr(it);
                self.emit(Op::GetIter);
                let top = self.here();
                let j = self.emit(Op::ForEach(0));
                self.assign(t);
                self.stmts(b);
                self.emit(Op::Jump(top));
                self.patch(j);
                self.leave_loop(p, top);
            }
            S::Def(d) => {
                self.function(d);
                self.store(&d.name);
            }
            S::Class(n, base, ds) => {
                if let Some(b) = base {
                    self.expr(b);
                }
                for d in ds {
                    self.function(d);
                }
                let u = self.u();
                u.classes.push(ClassSpec {
                    name: n.clone(),
                    has_base: base.is_some(),
                    members: ds.iter().map(|d| d.name.clone()).collect(),
                });
                let i = (u.classes.len() - 1) as u32;
                self.emit(Op::BuildClass(i));
                self.store(n);
            }
            S::Return(v) => {
                match v {
                    Some(x) => self.expr(x),
                    None => {
                        self.emit(Op::LoadNone);
                    }
                }
                self.emit(Op::Return);
            }
            S::Try(body, handlers, last) => {
                let fin = if last.is_empty() { None } else { Some(self.emit(Op::SetupFinally(0))) };
                if handlers.is_empty() {
                    self.stmts(body);
                } else {
                    let h = self.emit(Op::SetupExcept(0));
                    self.stmts(body);
                    self.emit(Op::PopBlock);
                    let mut ends = vec![self.emit(Op::Jump(0))];
                    self.patch(h);
                    for (class, bind, hb) in handlers {
                        let miss = match class {
                            Some(c) => {
                                self.emit(Op::LoadHandling);
                                self.expr(c);
                                self.emit(Op::ExcMatch);
                                Some(self.emit(Op::PopJumpIfFalse(0)))
                            }
                            None => None,
                        };
                        if let Some(n) = bind {
                            self.emit(Op::LoadHandling);
                            self.store(n);
                        }
                        self.stmts(hb);
                        self.emit(Op::EndHandler);
                        ends.push(self.emit(Op::Jump(0)));
                        if let Some(j) = miss {
                            self.patch(j);
                        }
                    }
                    self.emit(Op::Reraise);
                    for j in ends {
                        self.patch(j);
                    }
                }
                if let Some(j) = fin {
                    self.emit(Op::PopBlock);
                    self.emit(Op::BeginFinally);
                    self.patch(j);
                    self.stmts(last);
                    self.at = at;
                    self.emit(Op::EndFinally);
                }
            }
            S::Raise(v) => {
                match v {
                    Some(x) => {
                        self.expr(x);
                        self.emit(Op::Raise);
                    }
                    None => {
                        self.emit(Op::Reraise);
                    }
                }
            }
            S::Match(x, cases) => self.matching(x, cases),
            S::Import(p) => {
                let i = self.name_index(p);
                self.emit(Op::ImportModule(i));
                self.store(p.rsplit('.').next().expect("a segment"));
            }
            S::Break => {
                self.emit(Op::Break);
            }
            S::Continue => {
                self.emit(Op::Continue);
            }
            S::Global(_) | S::Pass => {}
        }
        self.at = at;
    }

    fn case_body(&mut self, b: &[St]) {
        let mut names = Vec::new();
        bound(b, &mut names);
        let mut block = HashMap::new();
        for n in names {
            let u = self.u();
            if u.slot(&n).is_none() && !u.globals.contains(&n) {
                block.insert(n, u.nlocals);
                u.locals.push(String::new());
                u.nlocals += 1;
            }
        }
        self.u().blocks.push(block);
        self.stmts(b);
        self.u().blocks.pop();
    }

    fn matching(&mut self, x: &X, cases: &[(Option<X>, Vec<St>)]) {
        let literal = cases.iter().all(|(p, _)| match p {
            None => true,
            Some(p) => matches!(p.e, E::Int(_) | E::Bool(_) | E::Str(_) | E::Null),
        });
        self.expr(x);
        let mut ends = Vec::new();
        if literal {
            let table = self.heap.alloc_dict(Vec::new());
            self.u().consts.push(table);
            let ci = (self.u().consts.len() - 1) as u32;
            let p = self.pair(ci, 0);
            self.emit(Op::MatchDispatch(p));
            let mut entries: Vec<(Value, Value)> = Vec::new();
            let mut default = None;
            for (pat, b) in cases {
                let t = self.here();
                match pat {
                    None => {
                        if default.is_none() {
                            default = Some(t);
                        }
                    }
                    Some(pat) => {
                        let k = match &pat.e {
                            E::Int(n) => Value::Int(*n),
                            E::Bool(v) => Value::Bool(*v),
                            E::Str(s) => self.heap.alloc_str(s.clone()),
                            _ => Value::Null,
                        };
                        if !entries.iter().any(|(e, _)| keys_match(self.heap, *e, k)) {
                            entries.push((k, Value::Int(t as i64)));
                        }
                    }
                }
                self.case_body(b);
                ends.push(self.emit(Op::Jump(0)));
            }
            let end = self.here();
            self.u().pairs[p as usize] = (ci, default.unwrap_or(end));
            if let Value::Dict(d) = table {
                self.heap.dicts[d] = entries;
            }
        } else {
            for (pat, b) in cases {
                let miss = match pat {
                    Some(pat) => {
                        self.emit(Op::Dup);
                        self.expr(pat);
                        self.emit(Op::Compare(RelOp::Eq));
                        Some(self.emit(Op::PopJumpIfFalse(0)))
                    }
                    None => None,
                };
                self.emit(Op::Pop);
                self.case_body(b);
                ends.push(self.emit(Op::Jump(0)));
                if let Some(j) = miss {
                    self.patch(j);
                }
            }
            self.emit(Op::Pop);
        }
        for j in ends {
            self.patch(j);
        }
    }
}

// --- The host ----------------------------------------------------------------

const JSON: &str = "\
import _json
def parse(s):
    return _json.parse(s)
def stringify(value, indent=null):
    return _json.stringify(value, indent)
";

const IO: &str = "\
import _io
def buffer(data=b\"\"):
    return _io.buffer(data)
def read(r, n=null):
    out = b\"\"
    if n == null:
        chunk = r.read(65536)
        while len(chunk) > 0:
            out = out + chunk
            chunk = r.read(65536)
        return out
    while len(out) < n:
        chunk = r.read(n - len(out))
        if len(chunk) == 0:
            raise EOFError(f\"stream ended after {len(out)} bytes, wanted {n}\")
        out = out + chunk
    return out
def copy(dst, src):
    total = 0
    chunk = src.read(65536)
    while len(chunk) > 0:
        dst.write(chunk)
        total = total + len(chunk)
        chunk = src.read(65536)
    return total
";

fn pairs(kind: &str, names: &[&str], out: &mut Vec<(String, String)>) {
    for n in names {
        out.push((kind.to_string(), n.to_string()));
    }
}

fn natives(heap: &mut Heap) -> Natives {
    let mut globals = Fields::new();
    for n in ["print", "len", "repr", "min", "max", "type", "chr", "ord", "spawn", "chan", "yield_now", "apply"] {
        let b = heap.alloc_builtin(n.to_string());
        globals.insert(n.to_string(), b);
    }
    globals.insert("range".to_string(), Value::Type(TypeTag::Range));
    let mut cut_globals = Vec::new();
    for n in ["sum", "sorted", "any", "all", "enumerate", "zip"] {
        cut_globals.push((n.to_string(), format!("`{n}` is not defined in Oro — it is a collection method: write `xs.{n}(…)`")));
    }
    let mut methods = Vec::new();
    let texts = [
        "upper", "lower", "strip", "split", "find", "replace", "startswith", "endswith", "count", "rm_prefix", "rm_suffix", "is_digit",
        "is_alpha", "is_alnum", "is_space",
    ];
    pairs("str", &texts, &mut methods);
    pairs("str", &["to_list", "to_float"], &mut methods);
    pairs("bytes", &texts, &mut methods);
    pairs("bytes", &["hex", "scan"], &mut methods);
    for kind in ["list", "tuple", "dict", "range", "generator"] {
        pairs(kind, &STEPS, &mut methods);
        pairs(
            kind,
            &["sum", "min", "max", "len", "last", "sorted", "take", "join", "reversed", "enumerate", "zip", "to_list"],
            &mut methods,
        );
    }
    pairs("list", &["append"], &mut methods);
    pairs("dict", &["get"], &mut methods);
    pairs("File", &["read", "write", "read_until", "close", "bytes"], &mut methods);
    pairs("Match", &["group", "start", "end"], &mut methods);
    for kind in ["str", "bytes", "list", "tuple", "dict", "range", "int", "float", "bool", "null"] {
        pairs(kind, &["to_str", "to_bool", "to_bytes"], &mut methods);
    }
    let mut cut_methods = Vec::new();
    for kind in ["str", "bytes"] {
        for (n, t) in [
            ("lstrip", "use `strip(side=\"left\")`"),
            ("rstrip", "use `strip(side=\"right\")`"),
            ("rsplit", "use `split(sep, maxsplit, side=\"right\")`"),
            ("rfind", "use `find(sub, reverse=true)`"),
            ("zfill", "use `f\"{n:05d}\"`"),
            ("index", "use `find(sub)`"),
            ("removeprefix", "it is called `rm_prefix`"),
            ("removesuffix", "it is called `rm_suffix`"),
            ("isdigit", "it is called `is_digit`"),
            ("isspace", "it is called `is_space`"),
            ("len", "write `len(s)`"),
        ] {
            cut_methods.push((kind.to_string(), n.to_string(), format!("`{kind}.{n}` is not in Oro — {t}")));
        }
        cut_methods.push((kind.to_string(), "join".to_string(), format!("`{kind}.join` is not in Oro — write `xs.join(sep)`")));
        for n in ["sorted", "min", "max", "sum"] {
            cut_methods.push((
                kind.to_string(),
                n.to_string(),
                format!("a {kind} is not a collection in Oro — write `to_list()` first, then `.{n}()`"),
            ));
        }
    }
    Natives {
        globals,
        cut_globals,
        methods,
        cut_methods,
        casts: vec!["to_str".to_string(), "to_bool".to_string()],
        draining: ["sum", "min", "max", "len", "last", "first", "take", "join", "to_list", "enumerate", "zip", "reversed"]
            .iter()
            .map(|s| s.to_string())
            .collect(),
        stdlib: Shipped {
            io: IO.to_string(),
            json: JSON.to_string(),
            http: String::new(),
            base64: String::new(),
            html: String::new(),
        },
        environ: vec![("HOME".to_string(), "/root".to_string())],
    }
}

fn fault(class: Exc, message: &str) -> VErr {
    VErr { class, message: message.to_string() }
}

#[derive(Default)]
struct Host {
    printed: String,
    now: u64,
    buffers: HashMap<usize, Vec<u8>>,
    /// The groups of each match: where each begins and ends, and its text.
    matches: Vec<Vec<(usize, usize, String)>>,
    lookups: usize,
}

fn as_f64(h: &Heap, v: Value) -> f64 {
    match v {
        Value::Int(n) => n as f64,
        Value::Bool(b) => (if b { 1 } else { 0 }) as f64,
        Value::Float(f) => f64::from_bits(h.bits_of(f)),
        Value::Big(b) => h.big_copy(b).to_text().parse().expect("a number"),
        _ => panic!("not a number"),
    }
}

fn bytes_of(h: &Heap, v: Value) -> Option<Vec<u8>> {
    match v {
        Value::Bytes(b) => Some(h.octets_copy(b)),
        _ => None,
    }
}

fn items_of(h: &mut Heap, v: Value) -> Vec<Value> {
    oro_vm::iter::iterate_to_vec(h, v).expect("a collection")
}

impl Host {
    fn answer(&mut self, vm: &mut Vm, call: HostCall, action: ReturnAction) -> Step {
        let result = match call {
            HostCall::Float(op, a, b) => self.arith(&mut vm.heap, op, a, b),
            HostCall::Builtin(i, args, kwargs) => {
                let name = vm.heap.builtins[i].clone();
                self.builtin(vm, &name, args, kwargs)
            }
            HostCall::Method(recv, name, args, kwargs) => self.method(vm, recv, &name, args, kwargs),
            HostCall::TypeCall(tag, args, _) => match (tag, args.as_slice()) {
                (TypeTag::Range, [Value::Int(n)]) => Ok(vm.heap.alloc_range(RangeVal { start: 0, stop: *n, step: 1 })),
                (TypeTag::Range, [Value::Int(a), Value::Int(b)]) => Ok(vm.heap.alloc_range(RangeVal { start: *a, stop: *b, step: 1 })),
                _ => Err(fault(Exc::TypeError, &format!("'{}' is not callable", tag.name()))),
            },
            HostCall::Format(v, conv, spec) => match format_value(&vm.heap, v, conv, &spec) {
                Ok(s) => Ok(text(&mut vm.heap, &s)),
                Err(e) => Err(e),
            },
            HostCall::Print(s) => {
                self.printed.push_str(&s);
                Ok(Value::Null)
            }
            HostCall::LoadModule(path, origin, source) => {
                let loaded = match source {
                    Some(src) => Loaded::Code(compile(&mut vm.heap, &src, &origin)),
                    None => Loaded::Missing,
                };
                return vm.settle_import(&path, loaded);
            }
            HostCall::RunProcess(q) => {
                let line: Vec<&str> = q.parts.iter().map(|s| s.as_str()).collect();
                let out = match line.as_slice() {
                    ["echo", what] => RunOutcome::Ended {
                        code: Some(0),
                        stdout: format!("{what}\n").into_bytes(),
                        stderr: Vec::new(),
                    },
                    ["sh", "-c", "exit 4"] => {
                        RunOutcome::Ended { code: Some(4), stdout: Vec::new(), stderr: Vec::new() }
                    }
                    _ => RunOutcome::Refused(oro_vm::modules::io_err(oro_vm::modules::IoKind::NotFound, line[0])),
                };
                return vm.settle_run(q, out);
            }
            HostCall::Attempt(w) => {
                let tried = self.attempt(&mut vm.heap, w.stream, &w.op);
                let now = self.now;
                return vm.settle_io(w, tried, now);
            }
            HostCall::Sleep(v) => {
                let ms = match v {
                    Value::Float(f) => {
                        let secs = f64::from_bits(vm.heap.bits_of(f));
                        if secs.is_finite() && secs >= 0.0 { Some((secs * 1000.0) as u64) } else { None }
                    }
                    _ => None,
                };
                return vm.settle_sleep(v, self.now, ms);
            }
            HostCall::Dial(addr) => {
                let literal = addr.starts_with("127.");
                let plan = if literal {
                    DialPlan::Connect(vec![addr])
                } else {
                    self.lookups += 1;
                    DialPlan::Lookup(addr)
                };
                return vm.settle_plan(plan, self.now);
            }
            HostCall::Connect(d) => {
                let s = open_stream(&mut vm.heap, StreamKind::TcpStream);
                return vm.settle_connect(d, oro_vm::waiting::DialTried::Connected(s), self.now);
            }
            HostCall::Close(s) => {
                self.buffers.remove(&s);
                return vm.stream_close(s, None);
            }
            HostCall::ProcCode(p) => return vm.settle_proc_wait(p, Some(0)),
        };
        match result {
            Ok(v) => Step::Give(Box::new((action, v))),
            Err(e) => Step::Fault(Box::new(e)),
        }
    }

    fn attempt(&mut self, h: &mut Heap, s: usize, op: &IoOp) -> Tried {
        match op {
            IoOp::Read(n) => {
                let b = self.buffers.entry(s).or_default();
                let k = (*n as usize).min(b.len());
                let rest = b.split_off(k);
                let got = std::mem::replace(b, rest);
                Tried::Ready(h.alloc_bytes(got))
            }
            IoOp::Write { buf, done } => {
                let all = h.octets_copy(*buf);
                // One octet at a time: the machine has to go on by itself.
                self.buffers.entry(s).or_default().push(all[*done]);
                Tried::Wrote(1)
            }
            _ => Tried::Failed(fault(Exc::OSError, "no such operation here")),
        }
    }

    fn arith(&mut self, h: &mut Heap, op: FloatOp, a: Value, b: Value) -> Result<Value, VErr> {
        let (x, y) = (as_f64(h, a), as_f64(h, b));
        if y == 0.0 && matches!(op, FloatOp::Div | FloatOp::FloorDiv | FloatOp::Mod) {
            return Err(fault(Exc::ZeroDivisionError, "division by zero"));
        }
        let r = match op {
            FloatOp::Neg => -x,
            FloatOp::Add => x + y,
            FloatOp::Sub => x - y,
            FloatOp::Mul => x * y,
            FloatOp::Div => x / y,
            FloatOp::FloorDiv => (x / y).floor(),
            FloatOp::Mod => x - y * (x / y).floor(),
            FloatOp::Pow => x.powf(y),
        };
        Ok(float(h, r))
    }

    fn builtin(&mut self, vm: &mut Vm, name: &str, args: Vec<Value>, kwargs: Vec<Keyword>) -> Result<Value, VErr> {
        if !kwargs.is_empty() {
            return Err(fault(Exc::TypeError, &format!("{name}() takes no keyword arguments")));
        }
        let h = &mut vm.heap;
        match (name, args.as_slice()) {
            ("len", [v]) => {
                let n = match v {
                    Value::Str(s) => h.text_of(*s).chars().count(),
                    Value::Bytes(b) => h.octets_len(*b),
                    Value::List(l) => h.list_len(*l),
                    Value::Tuple(t) => h.tuple_len(*t),
                    Value::Dict(d) => h.dict_len(*d),
                    _ => return Err(fault(Exc::TypeError, &format!("object of type '{}' has no len()", kind_name_of(h, *v)))),
                };
                Ok(Value::Int(n as i64))
            }
            ("repr", [v]) => {
                let s = render(h, *v);
                Ok(text(h, &s))
            }
            ("min" | "max", _) => {
                if args.len() < 2 {
                    return Err(fault(
                        Exc::TypeError,
                        &format!("{name}() takes two or more values — for a collection write `xs.{name}()`"),
                    ));
                }
                let mut best = args[0];
                for v in &args[1..] {
                    let o = try_order(h, *v, best, "<", 600)?;
                    let wins = if name == "min" { o == Some(Order::Less) } else { o == Some(Order::Greater) };
                    if wins {
                        best = *v;
                    }
                }
                Ok(best)
            }
            ("type", [v]) => Ok(match v {
                Value::Int(_) | Value::Big(_) => Value::Type(TypeTag::Int),
                Value::Float(_) => Value::Type(TypeTag::Float),
                Value::Str(_) => Value::Type(TypeTag::Str),
                Value::Bool(_) => Value::Type(TypeTag::Bool),
                _ => Value::Type(TypeTag::List),
            }),
            ("chr", [Value::Int(n)]) => match u32::try_from(*n).ok().and_then(char::from_u32) {
                Some(c) => Ok(text(h, &c.to_string())),
                None => Err(fault(Exc::ValueError, "chr() arg not in range(0x110000)")),
            },
            ("ord", [Value::Str(s)]) if h.text_of(*s).chars().count() == 1 => {
                Ok(Value::Int(h.text_of(*s).chars().next().expect("one") as i64))
            }
            ("ord", _) => Err(fault(Exc::TypeError, "ord() expected a character")),
            ("time.monotonic", []) => {
                self.now += 1;
                let t = self.now as f64 / 1000.0;
                Ok(float(h, t))
            }
            ("_io.buffer", [Value::Bytes(b)]) => {
                let data = h.octets_copy(*b);
                let s = open_stream(h, StreamKind::File);
                if let Value::Stream(i) = s {
                    self.buffers.insert(i, data);
                }
                Ok(s)
            }
            ("_json.parse", [Value::Str(s)]) => {
                let src: Vec<char> = h.text_of(*s).chars().collect();
                let mut j = Json { cs: src, i: 0 };
                let v = j.value(h)?;
                j.space();
                if j.i < j.cs.len() {
                    return Err(j.unexpected());
                }
                Ok(v)
            }
            ("_json.stringify", [v, indent]) => {
                let step = match indent {
                    Value::Int(n) => Some(*n as usize),
                    _ => None,
                };
                let mut out = String::new();
                stringify(h, *v, step, 0, &mut out)?;
                Ok(text(h, &out))
            }
            ("re.search" | "re.finditer", [Value::Str(p), Value::Str(s)]) => {
                let pattern = h.text_of(*p).to_string();
                if pattern.contains("\\1") {
                    return Err(fault(Exc::ValueError, "backreferences are not supported: matching is linear-time"));
                }
                let subject: Vec<char> = h.text_of(*s).chars().collect();
                let found = find_all(&pattern, &subject);
                let mut out = Vec::new();
                for m in found {
                    let id = h.natives.len();
                    let v = h.alloc_native("Match".to_string());
                    while self.matches.len() < id {
                        self.matches.push(Vec::new());
                    }
                    self.matches.push(m);
                    out.push(v);
                }
                if name == "re.finditer" {
                    return Ok(h.alloc_list(out));
                }
                Ok(if out.is_empty() { Value::Null } else { out[0] })
            }
            _ => Err(fault(Exc::TypeError, &format!("{name}() cannot take these arguments"))),
        }
    }

    fn method(&mut self, vm: &mut Vm, recv: Value, name: &str, args: Vec<Value>, kwargs: Vec<Keyword>) -> Result<Value, VErr> {
        let h = &mut vm.heap;
        match (name, args.as_slice()) {
            ("to_bool", []) => return Ok(Value::Bool(is_truthy(h, recv))),
            ("to_str", []) if !matches!(recv, Value::Bytes(_)) => {
                let s = render_display(h, recv);
                return Ok(text(h, &s));
            }
            _ => {}
        }
        match recv {
            Value::Str(s) => {
                let subject: Vec<char> = h.text_of(s).chars().collect();
                text_method(h, &subject, name, &args, &kwargs)
            }
            Value::Bytes(b) => {
                let subject = h.octets_copy(b);
                bytes_method(h, &subject, name, &args, &kwargs)
            }
            Value::Native(i) => {
                let m = &self.matches[i];
                let g = match args.as_slice() {
                    [Value::Int(n)] => *n as usize,
                    _ => 0,
                };
                let (from, to, s) = m[g].clone();
                Ok(match name {
                    "start" => Value::Int(from as i64),
                    "end" => Value::Int(to as i64),
                    _ => text(h, &s),
                })
            }
            Value::Stream(i) => {
                let data = self.buffers.get(&i).cloned().unwrap_or_default();
                Ok(h.alloc_bytes(data))
            }
            _ => collection_method(h, recv, name, &args, &kwargs),
        }
    }
}

fn open_stream(h: &mut Heap, kind: StreamKind) -> Value {
    h.alloc_stream(Stream { kind, closed: false, token: None, timeout: None, peer: None, local: None })
}

fn collection_method(h: &mut Heap, recv: Value, name: &str, args: &[Value], kwargs: &[Keyword]) -> Result<Value, VErr> {
    if !kwargs.is_empty() {
        return Err(fault(Exc::TypeError, &format!("{name}() takes no keyword arguments")));
    }
    let shaped = |h: &mut Heap, items: Vec<Value>| match recv {
        Value::Tuple(_) => h.alloc_tuple(items),
        _ => h.alloc_list(items),
    };
    if let (Value::List(l), "append", [v]) = (recv, name, args) {
        h.list_push(l, *v);
        return Ok(Value::Null);
    }
    if let (Value::Dict(d), "get", [k, other]) = (recv, name, args) {
        return Ok(oro_vm::keys::dict_get(h, d, *k)?.unwrap_or(*other));
    }
    let items = items_of(h, recv);
    match (name, args) {
        ("sum", []) => {
            let mut total: i64 = 0;
            for v in &items {
                match v {
                    Value::Int(n) => total += n,
                    _ => return Err(fault(Exc::TypeError, "sum() takes numbers")),
                }
            }
            Ok(Value::Int(total))
        }
        ("len", []) => Ok(Value::Int(items.len() as i64)),
        ("first", []) => Ok(items.first().copied().unwrap_or(Value::Null)),
        ("last", []) => Ok(items.last().copied().unwrap_or(Value::Null)),
        ("take", [Value::Int(n)]) => Ok(shaped(h, items.into_iter().take(*n as usize).collect())),
        ("reversed", []) => Ok(shaped(h, items.into_iter().rev().collect())),
        ("to_list", []) => Ok(h.alloc_list(items)),
        ("enumerate", []) => {
            let mut out = Vec::new();
            for (i, v) in items.into_iter().enumerate() {
                out.push(h.alloc_tuple(vec![Value::Int(i as i64), v]));
            }
            Ok(h.alloc_list(out))
        }
        ("zip", [other]) => {
            let others = items_of(h, *other);
            let mut out = Vec::new();
            for (a, b) in items.into_iter().zip(others) {
                out.push(h.alloc_tuple(vec![a, b]));
            }
            Ok(h.alloc_list(out))
        }
        ("join", [Value::Str(sep)]) => {
            let sep = h.text_of(*sep).to_string();
            let parts: Vec<String> = items.iter().map(|v| render_display(h, *v)).collect();
            Ok(text(h, &parts.join(&sep)))
        }
        ("join", [Value::Bytes(sep)]) => {
            let sep = h.octets_copy(*sep);
            let parts: Vec<Vec<u8>> = items.iter().map(|v| bytes_of(h, *v).expect("bytes")).collect();
            Ok(h.alloc_bytes(parts.join(&sep[..])))
        }
        ("join", _) => Err(fault(Exc::TypeError, &format!("join() takes 1 argument ({} given)", args.len()))),
        ("to_bytes", []) => {
            let mut out = Vec::new();
            for v in &items {
                match v {
                    Value::Int(n) if (0..256).contains(n) => out.push(*n as u8),
                    Value::Bool(b) => out.push(if *b { 1 } else { 0 }),
                    _ => return Err(fault(Exc::ValueError, "bytes must be in range(0, 256)")),
                }
            }
            Ok(h.alloc_bytes(out))
        }
        _ => Err(fault(Exc::TypeError, &format!("{name}() cannot take these arguments"))),
    }
}

/// The keyword arguments of a text method.
struct Options {
    side: String,
    reverse: bool,
}

fn options(h: &Heap, name: &str, kwargs: &[Keyword]) -> Result<Options, VErr> {
    let mut o = Options { side: String::new(), reverse: false };
    for (k, v) in kwargs {
        match (name, k.as_str(), v) {
            ("strip" | "split", "side", Value::Str(s)) => {
                let side = h.text_of(*s).to_string();
                let fine = side == "left" || side == "right" || (side == "both" && name == "strip");
                if !fine {
                    let want = if name == "strip" { "\"both\", \"left\" or \"right\"" } else { "\"left\" or \"right\"" };
                    return Err(fault(Exc::ValueError, &format!("{name}() side must be {want}")));
                }
                o.side = side;
            }
            ("strip" | "split", "side", _) => return Err(fault(Exc::TypeError, &format!("{name}() side must be a str"))),
            ("find", "reverse", Value::Bool(b)) => o.reverse = *b,
            ("strip" | "split" | "find", _, _) => {
                return Err(fault(Exc::TypeError, &format!("{name}() got an unexpected keyword argument '{k}'")))
            }
            _ => return Err(fault(Exc::TypeError, &format!("{name}() takes no keyword arguments"))),
        }
    }
    Ok(o)
}

fn window(args: &[Value], len: usize) -> (i64, i64) {
    let clamp = |v: Option<&Value>, other: i64| match v {
        Some(Value::Int(n)) => {
            let n = if *n < 0 { *n + len as i64 } else { *n };
            n.max(0)
        }
        _ => other,
    };
    (clamp(args.get(1), 0), clamp(args.get(2), len as i64).min(len as i64))
}

fn find_in<A: PartialEq>(s: &[A], sub: &[A], args: &[Value], reverse: bool) -> i64 {
    let (from, to) = window(args, s.len());
    let mut hit = -1;
    let mut i = from;
    while i + sub.len() as i64 <= to {
        let k = i as usize;
        if s[k..k + sub.len()] == *sub {
            hit = i;
            if !reverse {
                return hit;
            }
        }
        i += 1;
    }
    hit
}

fn count_in<A: PartialEq>(s: &[A], sub: &[A], args: &[Value]) -> i64 {
    let (from, to) = window(args, s.len());
    if from > to || from > s.len() as i64 {
        return 0;
    }
    if sub.is_empty() {
        return to - from + 1;
    }
    let mut n = 0;
    let mut i = from;
    while i + sub.len() as i64 <= to {
        let k = i as usize;
        if s[k..k + sub.len()] == *sub {
            n += 1;
            i += sub.len() as i64;
        } else {
            i += 1;
        }
    }
    n
}

fn strip_of<A: Copy>(s: &[A], cut: &dyn Fn(A) -> bool, side: &str) -> Vec<A> {
    let mut from = 0;
    let mut to = s.len();
    while side != "right" && from < to && cut(s[from]) {
        from += 1;
    }
    while side != "left" && from < to && cut(s[to - 1]) {
        to -= 1;
    }
    s[from..to].to_vec()
}

fn split_of<A: Copy + PartialEq>(s: &[A], sep: Option<&[A]>, max: i64, right: bool, space: &dyn Fn(A) -> bool) -> Vec<Vec<A>> {
    let mut s = s.to_vec();
    let mut sep = sep.map(|x| x.to_vec());
    if right {
        s.reverse();
        if let Some(x) = sep.as_mut() {
            x.reverse();
        }
    }
    let mut out: Vec<Vec<A>> = Vec::new();
    let mut left = max;
    match sep {
        Some(sep) => {
            let mut cur = Vec::new();
            let mut i = 0;
            while i < s.len() {
                if left != 0 && i + sep.len() <= s.len() && s[i..i + sep.len()] == sep[..] {
                    out.push(std::mem::take(&mut cur));
                    i += sep.len();
                    left -= 1;
                } else {
                    cur.push(s[i]);
                    i += 1;
                }
            }
            out.push(cur);
        }
        None => {
            let mut i = 0;
            loop {
                while i < s.len() && space(s[i]) {
                    i += 1;
                }
                if i >= s.len() {
                    break;
                }
                if left == 0 {
                    out.push(s[i..].to_vec());
                    break;
                }
                let from = i;
                while i < s.len() && !space(s[i]) {
                    i += 1;
                }
                out.push(s[from..i].to_vec());
                left -= 1;
            }
        }
    }
    if right {
        for part in out.iter_mut() {
            part.reverse();
        }
        out.reverse();
    }
    out
}

fn text_method(h: &mut Heap, s: &[char], name: &str, args: &[Value], kwargs: &[Keyword]) -> Result<Value, VErr> {
    let o = options(h, name, kwargs)?;
    let whole: String = s.iter().collect();
    let arg: Option<Vec<char>> = match args.first() {
        Some(Value::Str(i)) => Some(h.text_of(*i).chars().collect()),
        _ => None,
    };
    let all = |f: &dyn Fn(&char) -> bool| Value::Bool(!s.is_empty() && s.iter().all(f));
    Ok(match (name, arg) {
        ("upper", None) => text(h, &whole.to_uppercase()),
        ("lower", None) => text(h, &whole.to_lowercase()),
        ("strip", cut) => {
            let out = match cut {
                Some(set) => strip_of(s, &|c| set.contains(&c), &o.side),
                None => strip_of(s, &|c: char| c.is_whitespace(), &o.side),
            };
            text(h, &out.iter().collect::<String>())
        }
        ("split", sep) => {
            let max = match args.get(1) {
                Some(Value::Int(n)) => *n,
                _ => -1,
            };
            let parts = split_of(s, sep.as_deref(), max, o.side == "right", &|c: char| c.is_whitespace());
            let mut out = Vec::new();
            for p in parts {
                out.push(text(h, &p.iter().collect::<String>()));
            }
            h.alloc_list(out)
        }
        ("find", Some(sub)) => Value::Int(find_in(s, &sub, args, o.reverse)),
        ("count", Some(sub)) => Value::Int(count_in(s, &sub, args)),
        ("startswith", Some(p)) => Value::Bool(s.starts_with(&p)),
        ("endswith", Some(p)) => Value::Bool(s.ends_with(&p)),
        ("rm_prefix", Some(p)) => text(h, &(if s.starts_with(&p) { &s[p.len()..] } else { s }).iter().collect::<String>()),
        ("rm_suffix", Some(p)) => text(h, &(if s.ends_with(&p) { &s[..s.len() - p.len()] } else { s }).iter().collect::<String>()),
        ("is_digit", _) => all(&|c| c.is_ascii_digit()),
        ("is_alpha", _) => all(&|c| c.is_alphabetic()),
        ("is_alnum", _) => all(&|c| c.is_alphanumeric()),
        ("is_space", _) => all(&|c| c.is_whitespace()),
        ("to_list", _) => {
            let mut out = Vec::new();
            for c in s {
                out.push(text(h, &c.to_string()));
            }
            h.alloc_list(out)
        }
        ("to_float", _) => float(h, whole.parse().expect("a float")),
        ("to_bytes", _) => h.alloc_bytes(whole.into_bytes()),
        _ => return Err(fault(Exc::TypeError, &format!("{name}() cannot take these arguments"))),
    })
}

fn bytes_method(h: &mut Heap, s: &[u8], name: &str, args: &[Value], kwargs: &[Keyword]) -> Result<Value, VErr> {
    let o = options(h, name, kwargs)?;
    let arg = args.first().and_then(|v| bytes_of(h, *v));
    let all = |f: &dyn Fn(&u8) -> bool| Value::Bool(!s.is_empty() && s.iter().all(f));
    let blank = |c: u8| c.is_ascii_whitespace() || c == 0x0b;
    Ok(match (name, arg) {
        ("upper", None) => h.alloc_bytes(s.to_ascii_uppercase()),
        ("lower", None) => h.alloc_bytes(s.to_ascii_lowercase()),
        ("strip", cut) => {
            let out = match cut {
                Some(set) => strip_of(s, &|c| set.contains(&c), &o.side),
                None => strip_of(s, &blank, &o.side),
            };
            h.alloc_bytes(out)
        }
        ("split", sep) => {
            let max = match args.get(1) {
                Some(Value::Int(n)) => *n,
                _ => -1,
            };
            let mut out = Vec::new();
            for p in split_of(s, sep.as_deref(), max, o.side == "right", &blank) {
                out.push(h.alloc_bytes(p));
            }
            h.alloc_list(out)
        }
        ("find", Some(sub)) => Value::Int(find_in(s, &sub, args, o.reverse)),
        ("count", Some(sub)) => Value::Int(count_in(s, &sub, args)),
        ("startswith", Some(p)) => Value::Bool(s.starts_with(&p)),
        ("endswith", Some(p)) => Value::Bool(s.ends_with(&p)),
        ("replace", Some(from)) => {
            let to = bytes_of(h, args[1]).expect("bytes");
            let parts = split_of(s, Some(&from), -1, false, &blank);
            h.alloc_bytes(parts.join(&to[..]))
        }
        ("rm_suffix", Some(p)) => h.alloc_bytes((if s.ends_with(&p) { &s[..s.len() - p.len()] } else { s }).to_vec()),
        ("scan", Some(set)) => Value::Int(s.iter().take_while(|c| set.contains(c)).count() as i64),
        ("scan", None) => {
            let kind = kind_name_of(h, args[0]).to_string();
            return Err(fault(Exc::TypeError, &format!("scan() argument must be bytes, not '{kind}'")));
        }
        ("is_digit", _) => all(&|c| c.is_ascii_digit()),
        ("is_alpha", _) => all(&|c| c.is_ascii_alphabetic()),
        ("is_alnum", _) => all(&|c| c.is_ascii_alphanumeric()),
        ("is_space", _) => all(&|c| blank(*c)),
        ("hex", _) => {
            let t: String = s.iter().map(|b| format!("{b:02x}")).collect();
            text(h, &t)
        }
        ("to_bytes", _) => h.alloc_bytes(s.to_vec()),
        ("to_str", _) => match String::from_utf8(s.to_vec()) {
            Ok(t) => text(h, &t),
            Err(e) => {
                let at = e.utf8_error().valid_up_to();
                return Err(fault(Exc::ValueError, &format!("invalid byte 0x{:02x} at position {at}", s[at])));
            }
        },
        _ => return Err(fault(Exc::TypeError, &format!("{name}() cannot take these arguments"))),
    })
}

fn format_value(h: &Heap, v: Value, conv: Conv, spec: &str) -> Result<String, VErr> {
    let cs: Vec<char> = spec.chars().collect();
    let mut i = 0;
    let mut align = '\0';
    let mut fill = ' ';
    if !cs.is_empty() && "<>^".contains(cs[0]) {
        align = cs[0];
        i = 1;
    }
    if i < cs.len() && cs[i] == '0' {
        fill = '0';
        i += 1;
    }
    let mut width = 0;
    while i < cs.len() && cs[i].is_ascii_digit() {
        width = width * 10 + cs[i].to_digit(10).expect("a digit") as usize;
        i += 1;
    }
    let comma = i < cs.len() && cs[i] == ',';
    if comma {
        i += 1;
    }
    let mut precision = None;
    if i < cs.len() && cs[i] == '.' {
        i += 1;
        let mut p = 0;
        while i < cs.len() && cs[i].is_ascii_digit() {
            p = p * 10 + cs[i].to_digit(10).expect("a digit") as usize;
            i += 1;
        }
        precision = Some(p);
    }
    let kind = if i < cs.len() { cs[i] } else { '\0' };
    let numeric = matches!(v, Value::Int(_) | Value::Float(_) | Value::Big(_));
    let mut body = match (kind, v) {
        ('c', Value::Int(n)) => char::from_u32(n as u32).expect("a character").to_string(),
        ('f', _) => format!("{:.*}", precision.unwrap_or(6), as_f64(h, v)),
        _ => match conv {
            Conv::Repr => render(h, v),
            Conv::Display => render_display(h, v),
        },
    };
    if comma {
        let digits: Vec<char> = body.chars().collect();
        let mut out = String::new();
        for (k, c) in digits.iter().enumerate() {
            if k > 0 && (digits.len() - k) % 3 == 0 {
                out.push(',');
            }
            out.push(*c);
        }
        body = out;
    }
    let n = body.chars().count();
    if n >= width {
        return Ok(body);
    }
    let pad = width - n;
    let (l, r) = match align {
        '<' => (0, pad),
        '^' => (pad / 2, pad - pad / 2),
        '>' => (pad, 0),
        _ => if numeric { (pad, 0) } else { (0, pad) },
    };
    let fills = |k: usize| fill.to_string().repeat(k);
    Ok(format!("{}{body}{}", fills(l), fills(r)))
}

// --- JSON --------------------------------------------------------------------

struct Json {
    cs: Vec<char>,
    i: usize,
}

impl Json {
    fn space(&mut self) {
        while self.i < self.cs.len() && self.cs[self.i].is_whitespace() {
            self.i += 1;
        }
    }

    fn unexpected(&self) -> VErr {
        let what = if self.i < self.cs.len() { format!("'{}'", self.cs[self.i]) } else { "end of input".to_string() };
        fault(Exc::ValueError, &format!("unexpected {what} at position {}", self.i))
    }

    fn is(&self, c: char) -> bool {
        self.i < self.cs.len() && self.cs[self.i] == c
    }

    fn take(&mut self, s: &str) -> bool {
        let n = s.chars().count();
        let hit = self.i + n <= self.cs.len() && self.cs[self.i..self.i + n].iter().collect::<String>() == s;
        if hit {
            self.i += n;
        }
        hit
    }

    fn string(&mut self) -> Result<String, VErr> {
        if !self.is('"') {
            return Err(self.unexpected());
        }
        self.i += 1;
        let mut out = String::new();
        while !self.is('"') {
            if self.i >= self.cs.len() {
                return Err(self.unexpected());
            }
            out.push(self.cs[self.i]);
            self.i += 1;
        }
        self.i += 1;
        Ok(out)
    }

    fn value(&mut self, h: &mut Heap) -> Result<Value, VErr> {
        self.space();
        if self.is('"') {
            let s = self.string()?;
            return Ok(text(h, &s));
        }
        if self.take("true") {
            return Ok(Value::Bool(true));
        }
        if self.take("false") {
            return Ok(Value::Bool(false));
        }
        if self.take("null") {
            return Ok(Value::Null);
        }
        if self.take("[") {
            let mut items = Vec::new();
            self.space();
            if self.take("]") {
                return Ok(h.alloc_list(items));
            }
            loop {
                items.push(self.value(h)?);
                self.space();
                if self.take("]") {
                    return Ok(h.alloc_list(items));
                }
                if !self.take(",") {
                    return Err(self.unexpected());
                }
            }
        }
        if self.take("{") {
            let mut items = Vec::new();
            self.space();
            if self.take("}") {
                return Ok(h.alloc_dict(items));
            }
            loop {
                self.space();
                let k = self.string()?;
                let key = text(h, &k);
                self.space();
                if !self.take(":") {
                    return Err(self.unexpected());
                }
                items.push((key, self.value(h)?));
                self.space();
                if self.take("}") {
                    return Ok(h.alloc_dict(items));
                }
                if !self.take(",") {
                    return Err(self.unexpected());
                }
            }
        }
        let mut s = String::new();
        while self.i < self.cs.len() && (self.cs[self.i].is_ascii_digit() || "+-.eE".contains(self.cs[self.i])) {
            s.push(self.cs[self.i]);
            self.i += 1;
        }
        if let Ok(n) = s.parse::<i64>() {
            return Ok(Value::Int(n));
        }
        match s.parse::<f64>() {
            Ok(f) => Ok(float(h, f)),
            Err(_) => Err(self.unexpected()),
        }
    }
}

fn stringify(h: &Heap, v: Value, step: Option<usize>, depth: usize, out: &mut String) -> Result<(), VErr> {
    let line = |out: &mut String, d: usize| {
        if let Some(n) = step {
            out.push('\n');
            out.push_str(&" ".repeat(n * d));
        }
    };
    match v {
        Value::Str(s) => {
            out.push('"');
            out.push_str(h.text_of(s));
            out.push('"');
        }
        Value::Float(f) => {
            let x = f64::from_bits(h.bits_of(f));
            if !x.is_finite() {
                return Err(fault(Exc::ValueError, "a non-finite float has no JSON form"));
            }
            out.push_str(&float_text(x));
        }
        Value::List(l) => {
            out.push('[');
            for i in 0..h.list_len(l) {
                if i > 0 {
                    out.push(',');
                }
                line(out, depth + 1);
                stringify(h, h.list_at(l, i), step, depth + 1, out)?;
            }
            line(out, depth);
            out.push(']');
        }
        Value::Dict(d) => {
            out.push('{');
            for i in 0..h.dict_len(d) {
                let (k, v) = h.dict_at(d, i);
                if i > 0 {
                    out.push(',');
                }
                line(out, depth + 1);
                match k {
                    Value::Str(_) => stringify(h, k, step, depth, out)?,
                    _ => return Err(fault(Exc::TypeError, &format!("keys must be str, not '{}'", kind_name_of(h, k)))),
                }
                out.push_str(if step.is_some() { ": " } else { ":" });
                stringify(h, v, step, depth + 1, out)?;
            }
            line(out, depth);
            out.push('}');
        }
        _ => out.push_str(&render(h, v)),
    }
    Ok(())
}

// --- Patterns ----------------------------------------------------------------

/// One element of a pattern: which characters it takes, and whether it repeats.
/// `'('` and `')'` mark the groups.
fn pattern(p: &str) -> Vec<(char, bool, bool)> {
    let cs: Vec<char> = p.chars().collect();
    let mut out = Vec::new();
    let mut i = 0;
    while i < cs.len() {
        let class = cs[i] == '\\';
        if class {
            i += 1;
        }
        let more = i + 1 < cs.len() && cs[i + 1] == '+';
        out.push((cs[i], class, more));
        i += if more { 2 } else { 1 };
    }
    out
}

fn takes(e: (char, bool, bool), c: char) -> bool {
    match e {
        ('w', true, _) => c.is_alphanumeric() || c == '_',
        ('d', true, _) => c.is_ascii_digit(),
        (x, _, _) => x == c,
    }
}

fn match_here(p: &[(char, bool, bool)], s: &[char], i: usize, open: &mut Vec<usize>, groups: &mut Vec<(usize, usize)>) -> Option<usize> {
    if p.is_empty() {
        return Some(i);
    }
    if p[0] == ('(', false, false) {
        open.push(i);
        return match_here(&p[1..], s, i, open, groups);
    }
    if p[0] == (')', false, false) {
        let from = open.pop()?;
        groups.push((from, i));
        return match_here(&p[1..], s, i, open, groups);
    }
    let mut n = 0;
    while i + n < s.len() && takes(p[0], s[i + n]) && (p[0].2 || n == 0) {
        n += 1;
    }
    while n > 0 {
        let (mut o, mut g) = (open.clone(), groups.clone());
        if let Some(end) = match_here(&p[1..], s, i + n, &mut o, &mut g) {
            *open = o;
            *groups = g;
            return Some(end);
        }
        n -= 1;
    }
    None
}

fn find_all(p: &str, s: &[char]) -> Vec<Vec<(usize, usize, String)>> {
    let p = pattern(p);
    let mut out = Vec::new();
    let mut i = 0;
    while i < s.len() {
        let mut groups = Vec::new();
        match match_here(&p, s, i, &mut Vec::new(), &mut groups) {
            Some(end) => {
                let mut m = vec![(i, end)];
                m.extend(groups);
                out.push(m.into_iter().map(|(a, b)| (a, b, s[a..b].iter().collect())).collect());
                i = end;
            }
            None => i += 1,
        }
    }
    out
}

// --- Running -----------------------------------------------------------------

const SHARE: u64 = 1_000_000;

/// Play a program to its end.
fn play(p: &mut Program, first: Outcome, host: &mut Host) -> Result<Value, Box<RuntimeError>> {
    let mut out = first;
    loop {
        let turn = match out {
            Outcome::Ended(e) => return e,
            Outcome::Host(c) => {
                assert!(p.vm.has_names());
                let (call, action) = *c;
                Turn::Go(host.answer(&mut p.vm, call, action))
            }
            Outcome::Wait => {
                host.now += p.vm.poll_timeout(host.now).unwrap_or(0);
                p.vm.fire_timers(host.now);
                finish_lookups(&mut p.vm, host);
                p.vm.next_turn(&mut p.run)
            }
            Outcome::Poll => {
                p.vm.fire_timers(host.now);
                p.vm.next_turn(&mut p.run)
            }
            Outcome::Paused(s) => Turn::Go(s),
            Outcome::Malformed => panic!("malformed code"),
        };
        out = match turn {
            Turn::Go(s) => p.vm.resume(&mut p.run, s, SHARE, SHARE),
            Turn::Stop(o) => o,
        };
    }
}

fn finish_lookups(vm: &mut Vm, host: &mut Host) {
    while let Some((id, _)) = vm.reactor.lookups.first().copied() {
        if let Some((task, d)) = vm.lookup_done(id, Ok(vec!["127.0.0.1:80".to_string()])) {
            let s = open_stream(&mut vm.heap, StreamKind::TcpStream);
            vm.connect_woken(task, d, oro_vm::waiting::DialTried::Connected(s), host.now);
        }
    }
}

/// Run a program from source.
fn run_source(src: &str) -> (Program, Rc<CodeObject>, Host, Result<Value, Box<RuntimeError>>) {
    let mut heap = Heap::new();
    let n = natives(&mut heap);
    let c = compile(&mut heap, src, "test.oro");
    let mut host = Host::default();
    let (mut p, first) = run(heap, n, c.clone(), SHARE);
    let end = play(&mut p, first, &mut host);
    (p, c, host, end)
}

/// A value and the heap it lives in.
#[derive(Clone)]
struct Val {
    p: Rc<Program>,
    v: Value,
}

impl Val {
    fn repr(&self) -> String {
        render(&self.p.vm.heap, self.v)
    }

    fn truthy(&self) -> bool {
        is_truthy(&self.p.vm.heap, self.v)
    }

    fn ints(&self) -> Vec<i64> {
        match self.v {
            Value::List(l) => self
                .p
                .vm
                .heap
                .list_copy(l)
                .iter()
                .map(|x| match x {
                    Value::Int(i) => *i,
                    _ => -1,
                })
                .collect(),
            _ => panic!("expected list"),
        }
    }
}

fn run_locals(src: &str) -> Vec<Val> {
    let (p, _, _, end) = run_source(src);
    if let Err(e) = &end {
        panic!("run: {}", e.text());
    }
    let p = Rc::new(p);
    p.vm.task.last_locals.iter().map(|v| Val { p: p.clone(), v: *v }).collect()
}

fn eval(src: &str) -> Val {
    run_locals(src).into_iter().next().expect("at least one local")
}

fn eval_last(src: &str) -> Val {
    run_locals(src).into_iter().next_back().expect("at least one local")
}

fn eval_var(src: &str, name: &str) -> Val {
    let (p, c, _, end) = run_source(src);
    if let Err(e) = &end {
        panic!("run: {}", e.text());
    }
    let (_, target) = c.module_names.iter().find(|(n, _)| n == name).expect("a module variable");
    let v = match target {
        VarTarget::Local(s) => p.vm.task.last_locals[*s as usize],
        VarTarget::Cell(_) => panic!("`{name}` is captured by a closure; pass it as an argument instead"),
    };
    Val { p: Rc::new(p), v }
}

fn run_err(src: &str) -> Box<RuntimeError> {
    let (_, _, _, end) = run_source(src);
    end.expect_err("expected a runtime error")
}

fn int_of(v: &Val) -> i64 {
    match v.v {
        Value::Int(i) => i,
        _ => panic!("expected int, got {}", v.repr()),
    }
}

fn string_of(v: &Val) -> String {
    match v.v {
        Value::Str(s) => v.p.vm.heap.text_of(s).to_string(),
        _ => panic!("expected str, got {}", v.repr()),
    }
}

fn fstr(src: &str) -> String {
    string_of(&eval_last(src))
}

/// Run the current task of a machine, and whatever it starts, to the end.
fn play_vm(vm: Vm, host: &mut Host) -> Vm {
    let at = Site { source: Rc::new("test.oro".to_string()), line: 0, col: 0 };
    let mut p = Program { vm, run: Run { result: None, main: None, at } };
    let first = p.vm.begin_slice();
    let out = p.vm.resume(&mut p.run, first, SHARE, SHARE);
    let end = play(&mut p, out, host);
    assert!(end.is_ok());
    p.vm
}

// --- Programs ----------------------------------------------------------------

#[test]
fn raise_needs_an_instance_not_a_class() {
    let src = "def f():\n    try:\n        raise ValueError\n    except TypeError as e:\n        return f\"{e}\"\n\
               r = f()\n";
    let s = fstr(src);
    assert!(s.contains("write `raise ValueError()`"), "{s:?}");
}

#[test]
fn arithmetic_and_precedence() {
    assert_eq!(int_of(&eval("r = 2 + 3 * 4\n")), 14);
    assert_eq!(int_of(&eval("r = (2 + 3) * 4\n")), 20);
    assert_eq!(int_of(&eval("r = 17 % 5\n")), 2);
    assert_eq!(int_of(&eval("r = 17 // 5\n")), 3);
    assert_eq!(eval("r = 3 / 2\n").repr(), "1.5");
    assert_eq!(int_of(&eval("r = 2 ** 10\n")), 1024);
}

#[test]
fn integer_overflow_promotes_to_bigint() {
    let v = eval("r = 9223372036854775807 + 1\n");
    assert!(matches!(v.v, Value::Big(_)));
    assert_eq!(v.repr(), "9223372036854775808");
}

#[test]
fn floor_div_and_mod_follow_python_signs() {
    assert_eq!(int_of(&eval("r = -7 // 2\n")), -4);
    assert_eq!(int_of(&eval("r = -7 % 2\n")), 1);
    assert_eq!(int_of(&eval("r = 7 % -2\n")), -1);
}

#[test]
fn comparison_and_chaining() {
    assert!(matches!(eval("r = 1 < 2 < 3\n").v, Value::Bool(true)));
    assert!(matches!(eval("r = 1 < 2 > 5\n").v, Value::Bool(false)));
    assert!(matches!(eval("r = 3 == 3\n").v, Value::Bool(true)));
    assert!(matches!(eval("r = 1 == 1.0\n").v, Value::Bool(true)));
}

#[test]
fn boolean_short_circuit() {
    assert_eq!(int_of(&eval("r = 0 or 5\n")), 5);
    assert_eq!(int_of(&eval("r = 3 and 4\n")), 4);
    assert!(matches!(eval("r = not 0\n").v, Value::Bool(true)));
}

#[test]
fn truthiness_matches_python() {
    assert!(matches!(eval("r = [].to_bool()\n").v, Value::Bool(false)));
    assert!(matches!(eval("r = [0].to_bool()\n").v, Value::Bool(true)));
    assert!(matches!(eval("r = \"\".to_bool()\n").v, Value::Bool(false)));
    assert!(matches!(eval("r = (0.0).to_bool()\n").v, Value::Bool(false)));
}

#[test]
fn control_flow_if_while() {
    let src = "\
r = 0
n = 5
while n > 0:
    r = r + n
    n = n - 1
";
    assert_eq!(int_of(&eval(src)), 15);

    let src2 = "\
r = 0
x = 7
if x > 10:
    r = 1
elif x > 5:
    r = 2
else:
    r = 3
";
    assert_eq!(int_of(&eval(src2)), 2);
}

#[test]
fn for_loop_over_range_and_break_continue() {
    let src = "\
r = 0
for i in range(10):
    if i == 3:
        continue
    if i == 6:
        break
    r = r + i
";
    assert_eq!(int_of(&eval(src)), 12);
}

#[test]
fn subscript_and_slice() {
    assert_eq!(int_of(&eval("r = [10, 20, 30][1]\n")), 20);
    assert_eq!(int_of(&eval("r = [10, 20, 30][-1]\n")), 30);
    assert_eq!(eval("r = \"abcdef\"[1:4]\n").repr(), "'bcd'");
    assert_eq!(eval("r = [1, 2, 3, 4][::2]\n").repr(), "[1, 3]");
    assert_eq!(eval("r = \"abc\"[::-1]\n").repr(), "'cba'");
}

#[test]
fn unit_step_slices_clamp_like_python() {
    let s = "s = \"a\u{e9}\u{4e2d}\u{1f600}b\"\n";
    assert_eq!(eval_last(&format!("{s}r = s[1:3]\n")).repr(), "'\u{e9}\u{4e2d}'");
    assert_eq!(eval_last(&format!("{s}r = s[2:]\n")).repr(), "'\u{4e2d}\u{1f600}b'");
    assert_eq!(eval_last(&format!("{s}r = s[:2]\n")).repr(), "'a\u{e9}'");
    assert_eq!(eval_last(&format!("{s}r = s[-2:]\n")).repr(), "'\u{1f600}b'");
    assert_eq!(eval_last(&format!("{s}r = s[:-3]\n")).repr(), "'a\u{e9}'");
    assert_eq!(eval_last(&format!("{s}r = s[3:1]\n")).repr(), "''");
    assert_eq!(eval_last(&format!("{s}r = s[9:99]\n")).repr(), "''");
    assert_eq!(eval_last(&format!("{s}r = s[-99:99]\n")).repr(), "'a\u{e9}\u{4e2d}\u{1f600}b'");
    assert_eq!(eval_last(&format!("{s}r = s[5:5]\n")).repr(), "''");
    assert_eq!(eval("r = \"\"[0:5]\n").repr(), "''");
    assert_eq!(eval("r = [1, 2, 3][2:99]\n").repr(), "[3]");
    assert_eq!(eval("r = (1, 2, 3)[-99:2]\n").repr(), "(1, 2)");
    assert_eq!(eval("r = b\"hello\"[3:1]\n").repr(), "b''");
}

#[test]
fn augmented_assignment_on_name_and_subscript() {
    assert_eq!(int_of(&eval("r = 10\nr += 5\nr *= 2\n")), 30);
    let src = "\
d = {}
d[\"x\"] = 1
d[\"x\"] += 41
r = d[\"x\"]
";
    let locals = run_locals(src);
    assert_eq!(int_of(&locals[1]), 42);
}

#[test]
fn functions_defaults_and_recursion() {
    assert_eq!(int_of(&eval_last("def f(a, b=10):\n    return a + b\nr = f(5)\n")), 15);
    assert_eq!(int_of(&eval_last("def f(a, b=10):\n    return a + b\nr = f(5, 20)\n")), 25);
    let fib = "\
def fib(n):
    if n < 2:
        return n
    return fib(n - 1) + fib(n - 2)
r = fib(12)
";
    assert_eq!(int_of(&eval_last(fib)), 144);
}

#[test]
fn varargs_and_kwargs_binding() {
    let src = "\
def f(a, *rest, **opts):
    return a + rest.sum() + opts.get(\"bonus\", 0)
r = f(1, 2, 3, bonus=100)
";
    assert_eq!(int_of(&eval_last(src)), 106);
}

#[test]
fn closure_captures_by_reference() {
    let src = "\
def make():
    box = [0]
    def bump():
        box[0] = box[0] + 1
        return box[0]
    return bump
b = make()
x = b()
r = b()
";
    assert_eq!(int_of(&eval_last(src)), 2);
}

#[test]
fn deep_recursion_does_not_overflow_native_stack() {
    let src = "\
def down(n):
    if n == 0:
        return 0
    return 1 + down(n - 1)
r = down(30000)
";
    assert_eq!(int_of(&eval(src)), 30000);
}

#[test]
fn runtime_type_error_is_clean_with_position() {
    let err = run_err("x = 1\ny = x + \"z\"\n");
    assert_eq!(err.line, 2);
    assert!(err.message.contains("unsupported operand"));
}

#[test]
fn mutating_list_during_iteration_is_a_clean_error() {
    let err = run_err("xs = [1, 2, 3]\nfor v in xs:\n    xs.append(v)\n");
    assert!(err.message.contains("changed size"), "got: {}", err.message);
}

#[test]
fn name_error_for_unknown_global() {
    let err = run_err("r = nonexistent_name\n");
    assert!(err.message.contains("is not defined"));
}

#[test]
fn fstring_plain_interpolation() {
    assert_eq!(fstr("name = \"oro\"\nout = f\"lang={name}\"\n"), "lang=oro");
    assert_eq!(fstr("n = 42\nout = f\"n={n} x2={n * 2}\"\n"), "n=42 x2=84");
}

#[test]
fn fstring_width_and_alignment() {
    assert_eq!(fstr("n = 42\nout = f\"{n:5}\"\n"), "   42");
    assert_eq!(fstr("n = 42\nout = f\"{n:<5}\"\n"), "42   ");
    assert_eq!(fstr("n = 42\nout = f\"{n:^6}\"\n"), "  42  ");
    assert_eq!(fstr("s = \"hi\"\nout = f\"{s:>5}\"\n"), "   hi");
}

#[test]
fn fstring_zero_pad_and_thousands() {
    assert_eq!(fstr("n = 42\nout = f\"{n:05d}\"\n"), "00042");
    assert_eq!(fstr("n = 1234567\nout = f\"{n:,}\"\n"), "1,234,567");
}

#[test]
fn fstring_float_precision() {
    assert_eq!(fstr("x = 3.14159\nout = f\"{x:.2f}\"\n"), "3.14");
    assert_eq!(fstr("x = 3.14159\nout = f\"{x:10.3f}\"\n"), "     3.142");
}

#[test]
fn fstring_conversions() {
    assert_eq!(fstr("s = \"hi\"\nout = f\"{s!r}\"\n"), "'hi'");
    assert_eq!(fstr("s = \"hi\"\nout = f\"{s!s}\"\n"), "hi");
}

#[test]
fn fstring_nested_spec() {
    assert_eq!(fstr("x = 3.14159\np = 2\nout = f\"{x:.{p}f}\"\n"), "3.14");
    assert_eq!(fstr("x = 3.14159\np = 4\nout = f\"{x:.{p}f}\"\n"), "3.1416");
    assert_eq!(fstr("n = 7\nw = 4\nout = f\"{n:{w}}\"\n"), "   7");
}

#[test]
fn fstring_escapes_and_literal_braces() {
    assert_eq!(fstr("out = f\"a\\tb\"\n"), "a\tb");
    assert_eq!(fstr("out = f\"a\\nb\"\n"), "a\nb");
    assert_eq!(fstr("out = f\"{{literal}}\"\n"), "{literal}");
}

#[test]
fn global_lets_a_function_mutate_module_state() {
    let src = "count = 0\n\
               def bump():\n    global count\n    count = count + 1\n    return count\n\
               r1 = bump()\nr2 = bump()\n";
    let locals = run_locals(src);
    let vals: Vec<i64> = locals.iter().filter_map(|v| match v.v {
        Value::Int(i) => Some(i),
        _ => None,
    }).collect();
    assert!(vals.contains(&2), "expected count/r2 == 2, got {vals:?}");
    assert!(vals.contains(&1), "expected r1 == 1, got {vals:?}");
}

#[test]
fn global_creates_module_binding_when_absent() {
    let src = "def make():\n    global created\n    created = 99\n\
               make()\nout = created\n";
    assert_eq!(int_of(&eval_last(src)), 99);
}

#[test]
fn global_with_multiple_names() {
    let src = "a = 1\nb = 2\n\
               def swap():\n    global a, b\n    a, b = b, a\n\
               swap()\nra = a\nrb = b\n";
    let locals = run_locals(src);
    let ra = int_of(locals.iter().rev().nth(1).unwrap());
    let rb = int_of(locals.last().unwrap());
    assert_eq!(ra, 2);
    assert_eq!(rb, 1);
}

#[test]
fn assignment_without_global_stays_local() {
    let src = "n = 100\n\
               def shadow():\n    n = 5\n    return n\n\
               inner = shadow()\n";
    let locals = run_locals(src);
    assert_eq!(int_of(&locals[0]), 100);
}

#[test]
fn unbound_local_shadowing_module_teaches_global() {
    let err = run_err("count = 0\n\
                       def bump():\n    count = count + 1\n    return count\n\
                       bump()\n");
    assert!(err.message.contains("global count"), "got: {}", err.message);
    assert!(err.message.contains("shadows the module-level"), "got: {}", err.message);
}

#[test]
fn match_literal_jump_table() {
    let src = "def f(w):\n    match w:\n        case \"a\":\n            return 1\n        \
               case \"b\":\n            return 2\n        case _:\n            return 0\n\
               r1 = f(\"a\")\nr2 = f(\"b\")\nr3 = f(\"z\")\n";
    let locals = run_locals(src);
    let got: Vec<i64> = locals.iter().filter_map(|v| match v.v {
        Value::Int(i) => Some(i),
        _ => None,
    }).collect();
    assert!(got.contains(&1) && got.contains(&2) && got.contains(&0), "got {got:?}");
}

#[test]
fn match_no_default_is_noop() {
    let src = "def f(n):\n    x = 10\n    match n:\n        case 1:\n            x = 1\n\
               \n    return x\n\
               hit = f(1)\nmiss = f(9)\n";
    let locals = run_locals(src);
    let got: Vec<i64> = locals.iter().filter_map(|v| match v.v {
        Value::Int(i) => Some(i),
        _ => None,
    }).collect();
    assert!(got.contains(&1), "expected a hit==1, got {got:?}");
    assert!(got.contains(&10), "expected a miss==10, got {got:?}");
}

#[test]
fn match_numeric_cross_equality_first_wins() {
    let src = "def f(v):\n    match v:\n        case 1:\n            return \"one\"\n        \
               case true:\n            return \"hit\"\n        case _:\n            return \"x\"\n\
               a = f(1)\nb = f(true)\n";
    for v in run_locals(src) {
        if let Value::Str(_) = v.v {
            assert_eq!(string_of(&v), "one", "true should have matched `case 1` first, not `case true`");
        }
    }
}

#[test]
fn match_case_body_is_block_scoped() {
    let err = run_err("match 1:\n    case 1:\n        leaked = 5\nr = leaked\n");
    assert!(err.message.contains("not defined"), "got: {}", err.message);
}

#[test]
fn match_dotted_pattern_runs_and_falls_through() {
    let src = "def f(s):\n    text = \"x\"\n    match s:\n        case text.upper:\n            \
               return 1\n        case _:\n            return 0\n\
               r = f(\"anything\")\n";
    assert_eq!(int_of(&eval_last(src)), 0);
}

#[test]
fn class_instantiation_and_methods() {
    let src = "class Counter:\n    def __init__(self, start):\n        self.n = start\n    \
               def inc(self):\n        self.n = self.n + 1\n        return self.n\n\
               c = Counter(10)\nr1 = c.inc()\nr2 = c.inc()\n";
    let locals = run_locals(src);
    let ints: Vec<i64> = locals.iter().filter_map(|v| match v.v {
        Value::Int(i) => Some(i),
        _ => None,
    }).collect();
    assert!(ints.contains(&11) && ints.contains(&12), "got {ints:?}");
}

#[test]
fn class_super_and_inheritance() {
    let src = "class A:\n    def val(self):\n        return 1\n\
               class B(A):\n    def val(self):\n        return super().val() + 10\n\
               b = B()\nr = b.val()\n";
    assert_eq!(int_of(&eval_last(src)), 11);
}

#[test]
fn class_arithmetic_dunder() {
    let src = "class N:\n    def __init__(self, v):\n        self.v = v\n    \
               def __add__(self, other):\n        return N(self.v + other.v)\n\
               r = (N(2) + N(3)).v\n";
    assert_eq!(int_of(&eval_last(src)), 5);
}

#[test]
fn exception_caught_by_type() {
    let src = "def f():\n    try:\n        raise ValueError(\"x\")\n    except ValueError as e:\n        return f\"{e}\"\n\
               r = f()\n";
    assert_eq!(fstr("def g():\n    return \"x\"\nr=g()\n"), "x");
    assert_eq!(fstr(src), "x");
}

#[test]
fn exception_base_catches_subclass() {
    let src = "def f():\n    try:\n        raise ValueError(\"boom\")\n    except Exception:\n        return 1\n\
               r = f()\n";
    assert_eq!(int_of(&eval_last(src)), 1);
}

#[test]
fn runtime_error_is_catchable_with_right_type() {
    let src = "def f():\n    try:\n        return [][0]\n    except IndexError:\n        return 7\n\
               r = f()\n";
    assert_eq!(int_of(&eval_last(src)), 7);
    let src2 = "def f():\n    try:\n        return 1 // 0\n    except ZeroDivisionError:\n        return 9\n\
                r = f()\n";
    assert_eq!(int_of(&eval_last(src2)), 9);
}

#[test]
fn finally_runs_on_return() {
    let src = "log = 0\ndef f():\n    global log\n    try:\n        return 1\n    finally:\n        log = 99\n\
               r = f()\n";
    let locals = run_locals(src);
    let src2 = "log = 0\ndef f():\n    global log\n    try:\n        return 1\n    finally:\n        log = 99\n\
                r = f()\nout = log\n";
    assert_eq!(int_of(&eval_last(src2)), 99);
    let _ = locals;
}

#[test]
fn uncaught_exception_names_type_and_message() {
    let err = run_err("raise ValueError(\"nope\")\n");
    assert!(err.message.contains("ValueError"), "got: {}", err.message);
    assert!(err.message.contains("nope"), "got: {}", err.message);
}

#[test]
fn user_exception_subclass() {
    let src = "class MyError(Exception):\n    pass\n\
               def f():\n    try:\n        raise MyError(\"custom\")\n    except Exception as e:\n        return f\"{e}\"\n\
               r = f()\n";
    assert_eq!(fstr(src), "custom");
}

#[test]
fn import_binds_last_segment() {
    assert!(matches!(eval("import os\nr = os\n").v, Value::Module(_)));
}

#[test]
fn os_path_functions() {
    assert_eq!(fstr("import os\nr = os.path.join(\"a\", \"b\")\n"), "a/b");
    assert_eq!(fstr("import os\nr = os.path.basename(\"/x/y/z.txt\")\n"), "z.txt");
}

#[test]
fn unknown_module_raises_module_not_found() {
    let err = run_err("import nonexistent_module\n");
    assert!(err.message.contains("No module named"), "got: {}", err.message);
}

#[test]
fn generator_basic_iteration() {
    let src = "def up(n):\n    i = 0\n    while i < n:\n        yield i\n        i = i + 1\n\
               total = 0\nfor v in up(5):\n    total = total + v\n";
    let locals = run_locals(src);
    assert!(locals.iter().any(|v| matches!(v.v, Value::Int(10))));
}

#[test]
fn generator_consumes_generator() {
    let src = "def up(n):\n    i = 0\n    while i < n:\n        yield i\n        i = i + 1\n\
               def evens(n):\n    for x in up(n):\n        if x % 2 == 0:\n            yield x\n\
               got = []\nfor v in evens(10):\n    got.append(v)\n";
    let locals = run_locals(src);
    let list = locals.iter().find(|v| matches!(v.v, Value::List(_))).expect("a list local").ints();
    assert_eq!(list, vec![0, 2, 4, 6, 8]);
}

#[test]
fn calling_generator_does_not_run_body() {
    let src = "log = []\ndef g():\n    log.append(1)\n    yield 1\n\
               it = g()\nn = len(log)\n";
    let locals = run_locals(src);
    assert!(locals.iter().any(|v| matches!(v.v, Value::Int(0))));
}

#[test]
fn generator_is_a_generator_value() {
    assert!(matches!(eval_last("def g():\n    yield 1\nr = g()\n").v, Value::Generator(_)));
}

#[test]
fn break_runs_enclosing_finally() {
    let src = "log = []\ndef f():\n    global log\n    for i in range(3):\n        try:\n            if i == 1:\n                break\n            log.append(i)\n        finally:\n            log.append(10 + i)\nf()\nout = log\n";
    assert_eq!(eval_last(src).ints(), vec![0, 10, 11]);
}

#[test]
fn continue_runs_enclosing_finally() {
    let src = "log = []\ndef f():\n    global log\n    for i in range(3):\n        try:\n            if i == 1:\n                continue\n            log.append(i)\n        finally:\n            log.append(10 + i)\nf()\nout = log\n";
    assert_eq!(eval_last(src).ints(), vec![0, 10, 11, 2, 12]);
}

#[test]
fn container_repr_runs_element_dunders() {
    let src = "class P:\n    def __init__(self, n):\n        self.n = n\n    def __repr__(self):\n        return \"P(\" + self.n.to_str() + \")\"\n\
               out = [P(1), P(2)].to_str()\n";
    assert_eq!(fstr(src), "[P(1), P(2)]");
}

#[test]
fn nested_container_repr() {
    let src = "class P:\n    def __init__(self, n):\n        self.n = n\n    def __repr__(self):\n        return \"P\" + self.n.to_str()\n\
               out = {\"k\": [P(1), P(2)]}.to_str()\n";
    assert_eq!(fstr(src), "{'k': [P1, P2]}");
}

#[test]
fn self_referential_list_repr_terminates() {
    let src = "a = [1]\na.append(a)\nout = repr(a)\n";
    assert_eq!(fstr(src), "[1, [...]]");
}

#[test]
fn re_search_and_groups() {
    let src = "import re\nm = re.search(r\"(\\w+)-(\\d+)\", \"id: abc-42\")\nout = m.group(1) + \"/\" + m.group(2)\n";
    assert_eq!(fstr(src), "abc/42");
}

#[test]
fn re_finditer_positions() {
    let src = "import re\nspans = []\nfor m in re.finditer(r\"\\w+\", \"aa bb\"):\n    spans.append(m.start())\n    spans.append(m.end())\n";
    let got = run_locals(src).iter().find(|v| matches!(v.v, Value::List(_))).expect("a list local").ints();
    assert_eq!(got, vec![0, 2, 3, 5]);
}

#[test]
fn re_match_is_cut() {
    let err = run_err("import re\nre.match(r\"x\", \"x\")\n");
    assert!(err.message.contains("re.match is not supported"), "got: {}", err.message);
}

#[test]
fn re_backreference_rejected() {
    let err = run_err("import re\nre.search(r\"(a)\\1\", \"aa\")\n");
    assert!(err.message.contains("backreference") || err.message.contains("linear-time"),
        "got: {}", err.message);
}

#[test]
fn proc_rejects_bare_string() {
    let err = run_err("import proc\nproc.run(\"echo hi\")\n");
    assert!(err.message.contains("list of separate string"), "got: {}", err.message);
}

#[test]
fn proc_runs_and_captures() {
    let src = "import proc\nr = proc.run([\"echo\", \"hi\"], quiet=true)\nout = r.returncode.to_str() + \":\" + r.stdout.strip().to_str()\n";
    assert_eq!(fstr(src), "0:hi");
}

#[test]
fn proc_raises_on_nonzero_exit_by_default() {
    let err = run_err("import proc\nproc.run([\"sh\", \"-c\", \"exit 4\"], quiet=true)\n");
    assert!(err.message.contains("command failed"), "got: {}", err.message);
}

#[test]
fn proc_check_false_allows_nonzero_exit() {
    let src = "import proc\nr = proc.run([\"sh\", \"-c\", \"exit 4\"], check=false, quiet=true)\nout = r.returncode.to_str() + \":\" + r.ok.to_str()\n";
    assert_eq!(fstr(src), "4:false");
}

#[test]
fn proc_rejects_cpython_capture_kwargs() {
    let err = run_err(
        "import proc\nproc.run([\"echo\", \"hi\"], capture_output=true)\n",
    );
    assert!(err.message.contains("always captures"), "got: {}", err.message);
}

#[test]
fn time_monotonic_never_decreases() {
    let src = "import time\na = time.monotonic()\nb = time.monotonic()\nout = b >= a\n";
    assert!(matches!(eval_last(src).v, Value::Bool(true)));
}

#[test]
fn exception_in_callback_does_not_leak_jobs() {
    let src = r#"
def boom(x):
    raise ValueError("x")

i = 0
while i < 200:
    try:
        [1].map(boom)
    except ValueError:
        pass
    i = i + 1
out = [1, 2].map(x => x * 3).to_str()
"#;
    assert_eq!(fstr(src), "[3, 6]");
}

#[test]
fn enclosing_job_survives_inner_handler() {
    let src = r#"
def risky(x):
    try:
        if x == 2:
            raise ValueError("inner")
        return x * 10
    except ValueError:
        return -1

out = [1, 2, 3].map(risky).to_str()
"#;
    assert_eq!(fstr(src), "[10, -1, 30]");
}

#[test]
fn exception_escapes_nested_jobs_and_vm_recovers() {
    let src = r#"
def boom(x):
    raise ValueError("deep")

try:
    [[1]].map(row => row.map(boom))
except ValueError:
    pass
out = [1, 2].map(x => x + 1).to_str()
"#;
    assert_eq!(fstr(src), "[2, 3]");
}

#[test]
fn collection_protocol_natives() {
    let src = r#"
xs = [5, 3, 8, 1]
letters = ["a", "b"]
joined = letters.join("-")
out = f"{xs.sum()} {xs.min()} {xs.max()} {xs.len()} {xs.first()} {xs.last()} {xs.sorted()} {xs.take(2)} {joined}"
"#;
    assert_eq!(fstr(src), "17 1 8 4 5 1 [1, 3, 5, 8] [5, 3] a-b");
}

#[test]
fn collection_protocol_callbacks() {
    let src = r#"
xs = [5, 3, 8, 1]
a = xs.sort_by(x => -x)
b = xs.max_by(x => -x)
c = xs.find(x => x > 4)
d = xs.count(x => x > 2)
e = xs.reduce(0, (acc, x) => acc + x)
g = xs.partition(x => x > 4)
out = f"{a} {b} {c} {d} {e} {g}"
"#;
    assert_eq!(fstr(src), "[8, 5, 3, 1] 1 5 3 17 ([5, 8], [3, 1])");
}

#[test]
fn group_by_buckets_into_a_dict() {
    let src = r#"
out = [1, 2, 3, 4, 5].group_by(x => x % 2).to_str()
"#;
    assert_eq!(fstr(src), "{1: [1, 3, 5], 0: [2, 4]}");
}

#[test]
fn seq_ops_preserve_the_receiver_type() {
    let src = r#"
t = (3, 1, 2)
d = {"a": 2, "b": 1}
sorted_d = d.sort_by((k, v) => v)
flat = t.flat_map(x => [x])
out = f"{t.sorted()} {t.take(2)} {sorted_d} {flat}"
"#;
    assert_eq!(fstr(src), "(1, 2, 3) (3, 1) {'b': 1, 'a': 2} [3, 1, 2]");
}

#[test]
fn multi_parameter_callbacks_destructure_in_fused_chains() {
    let src = r#"
def gen():
    yield (1, 2)
    yield (3, 4)

xs = ["a", "b", "c"]
ns = [1, 2, 3]
d = {"x": 1, "y": 2, "z": 3}
orders = [{"r": "eu", "t": 3}, {"r": "us", "t": 5}, {"r": "eu", "t": 2}]
a = xs.enumerate().map((i, s) => s * (i + 1)).filter(s => s != "bb")
b = xs.zip(ns).filter((s, n) => n > 1).map((s, n) => s * n)
c = d.to_list().filter((k, v) => v != 2).map((k, v) => (v, k)).filter((v, k) => v < 3)
g = orders.group_by(o => o["r"]).to_list().map((r, rows) => (r, rows.len())).filter((r, n) => n > 1)
h = gen().map((p, q) => p * q)
out = f"{a} {b} {c} {g} {h}"
"#;
    assert_eq!(fstr(src), "['a', 'ccc'] ['bb', 'ccc'] [(1, 'x')] [('eu', 2)] [2, 12]");
}

#[test]
fn every_callback_terminal_destructures() {
    let src = r#"
e = [5, 3, 8].enumerate()
a = e.filter((i, x) => x > 3).any((i, x) => i == 2)
b = e.map((i, x) => (x, i)).all((x, i) => x > i)
c = e.filter((i, x) => i > 0).count((i, x) => x > 4)
f = e.filter((i, x) => x > 3).flat_map((i, x) => [i, x])
g = e.map((i, x) => (i, x * 2)).reduce(0, (acc, i, x) => acc + i * x)
h = e.filter((i, x) => x != 3).sort_by((i, x) => -x)
j = e.map((i, x) => (x, i)).find((x, i) => i == 1)
k = e.filter((i, x) => true).min_by((i, x) => x)
m = e.filter((i, x) => true).max_by((i, x) => x)
n = e.filter((i, x) => true).partition((i, x) => x > 4)
p = e.filter((i, x) => true).group_by((i, x) => x % 2)
q = e.filter((i, x) => true).unique_by((i, x) => x % 2)
r = e.take_while((i, x) => x > 4)
s = e.drop_while((i, x) => x > 4)
out = f"{a} {b} {c} {f} {g} {h} {j} {k} {m} {n} {p} {q} {r} {s}"
"#;
    assert_eq!(
        fstr(src),
        "true true 1 [0, 5, 2, 8] 38 [(2, 8), (0, 5)] (3, 1) (1, 3) (2, 8) \
         ([(0, 5), (2, 8)], [(1, 3)]) {1: [(0, 5), (1, 3)], 0: [(2, 8)]} \
         [(0, 5), (2, 8)] [(0, 5)] [(1, 3), (2, 8)]"
    );
}

#[test]
fn a_one_parameter_callback_takes_the_element_whole_on_every_shape() {
    let src = r#"
d = {"a": 1, "b": 2}
a = [(1, 2), (3, 4)].map(p => p[0] + p[1])
b = ((1, 2), (3, 4)).filter(p => p[0] > 1)
c = d.map(p => (p[0], p[1] * 10))
e = d.filter(p => p[1] > 1)
f = d.reduce(0, (acc, p) => acc + p[1])
g = d.filter(p => true).map(p => p).count(p => p[1] > 0)
h = range(3).map(x => x * 2).filter(x => x > 0)
out = f"{a} {b} {c} {e} {f} {g} {h}"
"#;
    assert_eq!(fstr(src), "[3, 7] ((3, 4),) {'a': 10, 'b': 20} {'b': 2} 3 2 [2, 4]");
}

#[test]
fn dict_callbacks_are_an_instance_of_the_rule() {
    let src = r#"
d = {"a": 1, "b": 2, "c": 3}
a = d.filter((k, v) => v > 1)
b = d.map((k, v) => (k, v * 10))
c = d.flat_map((k, v) => [k])
e = d.reduce([], (acc, k, v) => acc + [v])
f = d.filter((k, v) => v != 2).map((k, v) => (k + k, v))
g = d.sort_by((k, v) => -v).find((k, v) => v < 3)
out = f"{a} {b} {c} {e} {f} {g}"
"#;
    assert_eq!(
        fstr(src),
        "{'b': 2, 'c': 3} {'a': 10, 'b': 20, 'c': 30} ['a', 'b', 'c'] [1, 2, 3] \
         {'aa': 1, 'cc': 3} ('b', 2)"
    );
}

#[test]
fn which_parameters_count_toward_destructuring() {
    let src = r#"
def scaled(x, by=10):
    return x * by

def label(k, v, sep="="):
    return k + sep + v.to_str()

def arity(*args):
    return len(args)

def collect(acc, *rest):
    return acc + [len(rest)]

def kw(p, **opts):
    return p

def fold(acc, k, v, extra=0):
    return acc + v + extra

class Shelf:
    def __init__(self):
        self.n = 0

    def pair(self, k, v):
        return k

    def whole(self, p):
        return p

s = Shelf()
d = {"a": 1, "b": 2}
a = [1, 2].map(scaled)
b = d.to_list().map(label)
c = d.to_list().map(arity)
e = d.reduce([], collect)
f = [(1, 2)].map(kw)
g = d.reduce(0, fold)
h = d.to_list().map(s.pair)
i = d.map(s.whole)
j = {3: 1, 0: 0}.count(max)
k = [(1, 2), (3, 4, 5)].map(len)
out = f"{a} {b} {c} {e} {f} {g} {h} {i} {j} {k}"
"#;
    assert_eq!(
        fstr(src),
        "[10, 20] ['a=1', 'b=2'] [1, 1] [1, 1] [(1, 2)] 3 ['a', 'b'] {'a': 1, 'b': 2} 1 [2, 3]"
    );
}

#[test]
fn a_destructuring_mismatch_is_fors_error() {
    let cases = [
        ("x = [(1, 2)].map((a, b, c) => a)\n", "for a, b, c in [(1, 2)]:\n    pass\n"),
        ("x = [(1, 2, 3)].map((a, b) => a)\n", "for a, b in [(1, 2, 3)]:\n    pass\n"),
        (
            "x = [(1, 2)].filter(p => true).map((a, b, c) => a).first()\n",
            "for a, b, c in [(1, 2)]:\n    pass\n",
        ),
        ("x = [1].map((a, b) => a)\n", "for a, b in [1]:\n    pass\n"),
        ("x = {1: 2}.reduce(0, (acc, a, b, c) => acc)\n", "for a, b, c in {1: 2}:\n    pass\n"),
    ];
    for (chain, stmt) in cases {
        let got = run_err(chain);
        let want = run_err(stmt);
        assert_eq!((got.class, &*got.message), (want.class, &*want.message), "{chain}");
    }
    let e = run_err("x = [(1, 2)].map((a, b, c) => a)\n");
    assert_eq!(&*e.message, "ValueError: not enough values to unpack (expected 3, got 2)");
}

#[test]
fn a_destructuring_mismatch_names_the_step() {
    let head = "def first(a, b):\n    return a\n\nxs = [(1, 2), (3,)]\n";
    for step in ["y = xs.map(first)\n", "y = xs.map(first).filter(x => true)\n"] {
        let e = run_err(&format!("{head}{step}"));
        assert_eq!(
            (e.line, &*e.message),
            (5, "ValueError: not enough values to unpack (expected 2, got 1)"),
            "{step}"
        );
    }
}

#[test]
fn find_and_any_short_circuit() {
    let src = r#"
seen = []
def watch(x):
    seen.append(x)
    return x > 1

hit = [1, 2, 3, 4].find(watch)
out = f"{hit} {seen}"
"#;
    assert_eq!(fstr(src), "2 [1, 2]");
}

#[test]
fn protocol_names_do_not_steal_string_methods() {
    let src = r#"
letters = ["a", "b"]
a = "abcb".find("b")
c = letters.join("-")
d = [1, 2, 3].find(x => x > 1)
out = f"{a} {c} {d}"
"#;
    assert_eq!(fstr(src), "1 a-b 2");
}

#[test]
fn the_six_duplicate_builtins_are_cut_naming_their_methods() {
    for (name, call, want) in [
        ("sum", "r = sum([1, 2])\n", "`sum` is not defined in Oro"),
        ("sorted", "r = sorted([2, 1])\n", "`sorted` is not defined in Oro"),
        ("any", "r = any([true])\n", "`any` is not defined in Oro"),
        ("all", "r = all([true])\n", "`all` is not defined in Oro"),
        ("enumerate", "r = enumerate([1])\n", "`enumerate` is not defined in Oro"),
        ("zip", "r = zip([1], [2])\n", "`zip` is not defined in Oro"),
    ] {
        let e = run_err(call);
        assert!(e.message.contains(want), "{name}: got {}", e.message);
        assert!(e.message.contains("collection method"), "{name}: got {}", e.message);
    }
}

#[test]
fn min_and_max_keep_only_the_variadic_scalar_form() {
    assert_eq!(int_of(&eval("r = min(3, 1)\n")), 1);
    assert_eq!(int_of(&eval("r = max(3, 1)\n")), 3);
    assert_eq!(int_of(&eval("r = min(5, 2, 9)\n")), 2);
    for call in ["r = min([3, 1])\n", "r = max([3, 1])\n"] {
        let e = run_err(call);
        assert!(e.message.contains("two or more values"), "got: {}", e.message);
        assert!(e.message.contains(".min()") || e.message.contains(".max()"),
            "the replacement must be named: {}", e.message);
    }
    let src = "class V:\n    def __init__(self, n):\n        self.n = n\n\n    def __lt__(self, o):\n        return self.n < o.n\n\nr = min([V(2), V(1)])\n";
    let e = run_err(src);
    assert!(e.message.contains("two or more values"), "got: {}", e.message);
}

#[test]
fn len_survives_on_both_sides_of_the_line() {
    assert_eq!(int_of(&eval("r = len(\"abc\")\n")), 3);
    assert_eq!(int_of(&eval("r = len(b\"abc\")\n")), 3);
    assert_eq!(int_of(&eval("r = [1, 2].len()\n")), 2);
    assert_eq!(int_of(&eval("r = len([1, 2])\n")), 2);
    let e = run_err("r = \"abc\".len()\n");
    assert!(e.message.contains("write `len(s)`"), "got: {}", e.message);
}

#[test]
fn sorted_keeps_key_and_reverse_on_the_method() {
    assert_eq!(eval("r = [3, 1, 2].sorted(reverse=true)\n").repr(), "[3, 2, 1]");
    assert_eq!(eval("r = (3, 1, 2).sorted(reverse=true)\n").repr(), "(3, 2, 1)");
    let src = "def snd(p):\n    return p[1]\n\nties = [(\"a\", 2), (\"b\", 1), (\"c\", 2), (\"d\", 1)]\nr = ties.sorted(key=snd, reverse=true)\n";
    assert_eq!(
        eval_var(src, "r").repr(),
        "[('a', 2), ('c', 2), ('b', 1), ('d', 1)]",
        "reverse= must not disturb ties"
    );
    let flipped = "def snd(p):\n    return p[1]\n\nties = [(\"a\", 2), (\"b\", 1), (\"c\", 2), (\"d\", 1)]\nr = ties.sort_by(snd).reversed()\n";
    assert_eq!(
        eval_var(flipped, "r").repr(),
        "[('c', 2), ('a', 2), ('d', 1), ('b', 1)]",
        "and `.reversed()` does disturb them, which is why the keyword moved"
    );
}

#[test]
fn a_str_is_not_a_collection_and_the_message_names_the_bridge() {
    let e = run_err("r = \"ba\".sorted()\n");
    assert!(e.message.contains("not a collection in Oro"), "got: {}", e.message);
    assert!(e.message.contains("to_list()"), "got: {}", e.message);
    let e = run_err("r = b\"ba\".min()\n");
    assert!(e.message.contains("not a collection in Oro"), "got: {}", e.message);
    assert_eq!(eval("r = \"ba\".to_list().sorted()\n").repr(), "['a', 'b']");
}

#[test]
fn str_and_bytes_join_are_cut_naming_the_collection_form() {
    let e = run_err("r = \", \".join([\"a\", \"b\"])\n");
    assert!(e.message.contains("`str.join` is not in Oro"), "got: {}", e.message);
    assert!(e.message.contains("xs.join(sep)"), "got: {}", e.message);
    let e = run_err("r = b\",\".join([b\"a\"])\n");
    assert!(e.message.contains("`bytes.join` is not in Oro"), "got: {}", e.message);
    let e = run_err("r = [\"a\"].join(\"-\", 2)\n");
    assert!(e.message.contains("join() takes 1 argument"), "got: {}", e.message);
}

#[test]
fn json_is_an_embedded_stdlib_module_not_a_rust_builtin() {
    assert!(matches!(eval("import json\nr = json\n").v, Value::Module(_)));
}

#[test]
fn json_parse_distinguishes_ints_from_floats_and_decodes_literals() {
    let src = r#"
import json
a = json.parse('{"n": 3, "f": 2.5, "s": "hi", "b": true, "z": null, "xs": [1, 2, 3]}')
out = f"{a['n']} {type(a['n'])} {a['f']} {type(a['f'])} {a['s']} {a['b']} {a['z']} {a['xs']}"
"#;
    assert_eq!(fstr(src), "3 <class 'int'> 2.5 <class 'float'> hi true null [1, 2, 3]");
}

#[test]
fn json_parse_decodes_unicode_escapes_and_surrogate_pairs() {
    let src = r#"
import json
s = json.parse('"Aé 😀"')
out = f"{s} {len(s)}"
"#;
    assert_eq!(fstr(src), "Aé 😀 4");
}

#[test]
fn json_stringify_round_trips_through_parse() {
    let src = r#"
import json
data = {"a": 1, "b": [1, 2.5, "x", true, false, null]}
out = f"{json.parse(json.stringify(data)) == data}"
"#;
    assert_eq!(fstr(src), "true");
}

#[test]
fn json_stringify_default_is_compact_with_no_incidental_whitespace() {
    let src = "import json\nout = json.stringify({\"a\": 1, \"b\": [1, 2]})\n";
    assert_eq!(fstr(src), "{\"a\":1,\"b\":[1,2]}");
}

#[test]
fn json_stringify_indent_pretty_prints() {
    let src = "import json\nout = json.stringify({\"a\": 1}, indent=2)\n";
    assert_eq!(fstr(src), "{\n  \"a\": 1\n}");
}

#[test]
fn json_stringify_rejects_non_str_keys_and_non_finite_floats() {
    let err1 = run_err("import json\njson.stringify({1: \"a\"})\n");
    assert!(err1.message.contains("TypeError"), "got: {}", err1.message);
    assert!(err1.message.contains("keys must be str"), "got: {}", err1.message);

    let err2 = run_err("import json\njson.stringify(\"nan\".to_float())\n");
    assert!(err2.message.contains("ValueError"), "got: {}", err2.message);
}

#[test]
fn json_parse_malformed_input_names_the_offset() {
    let err = run_err("import json\njson.parse('{\"a\": 1,}')\n");
    assert!(err.message.contains("ValueError"), "got: {}", err.message);
    assert!(err.message.contains("at position 8"), "got: {}", err.message);
}

#[test]
fn chr_and_ord_round_trip() {
    let src = "out = f\"{chr(65)} {ord('A')} {chr(128512)} {ord('\u{1F600}')}\"\n";
    assert_eq!(fstr(src), "A 65 \u{1F600} 128512");
}

#[test]
fn ord_raises_type_error_and_chr_raises_value_error() {
    let e = run_err("ord(\"ab\")\n");
    assert!(e.message.contains("expected a character"), "got: {}", e.message);
    let e2 = run_err("chr(1114112)\n");
    assert!(e2.message.contains("arg not in range"), "got: {}", e2.message);
}

#[test]
fn bytes_sequence_protocol() {
    assert_eq!(int_of(&eval("r = len(b\"hello\")\n")), 5);
    assert_eq!(int_of(&eval("r = b\"hello\"[0]\n")), 104);
    assert_eq!(int_of(&eval("r = b\"hello\"[-1]\n")), 111);
    assert_eq!(eval("r = b\"hello\"[1:3]\n").repr(), "b'el'");
    assert_eq!(eval("r = b\"hi\"[10:20]\n").repr(), "b''");
    assert_eq!(eval("r = b\"hi\"[::-1]\n").repr(), "b'ih'");
    assert_eq!(eval("r = b\"ab\" + b\"cd\"\n").repr(), "b'abcd'");
    assert_eq!(eval("r = b\"ab\" * 3\n").repr(), "b'ababab'");
    assert_eq!(eval("r = b\"ab\" * -1\n").repr(), "b''");
    assert_eq!(int_of(&eval("r = 0\nfor x in b\"abc\":\n    r = r + x\n")), 294);
}

#[test]
fn bytes_membership_ordering_and_hashing() {
    assert!(eval("r = b\"ab\" in b\"xaby\"\n").truthy());
    assert!(eval("r = b\"\" in b\"x\"\n").truthy());
    assert!(!eval("r = b\"ba\" in b\"xaby\"\n").truthy());
    assert!(eval("r = b\"abc\" < b\"abd\"\n").truthy());
    assert!(!eval("r = b\"abc\" == \"abc\"\n").truthy());
    assert_eq!(eval_last("d = {b\"k\": 1, \"k\": 2}\nr = len(d)\n").repr(), "2");
    assert_eq!(eval_last("d = {b\"k\": 1, \"k\": 2}\nr = d[b\"k\"]\n").repr(), "1");
    let e = run_err("r = 97 in b\"abc\"\n");
    assert!(e.message.contains("TypeError"), "got: {}", e.message);
}

#[test]
fn bytes_index_out_of_range_is_an_index_error() {
    let e = run_err("r = b\"ab\"[5]\n");
    assert!(e.message.contains("IndexError"), "got: {}", e.message);
}

#[test]
fn bytes_methods_mirror_the_str_set() {
    assert_eq!(eval("r = b\"AbC\\xff\".lower()\n").repr(), "b'abc\\xff'");
    assert_eq!(eval("r = b\"AbC\".upper()\n").repr(), "b'ABC'");
    assert_eq!(eval("r = b\" \\x0b a b \\t\\n\".strip()\n").repr(), "b'a b'");
    assert_eq!(eval("r = b\"  ab  \".strip(side=\"left\")\n").repr(), "b'ab  '");
    assert_eq!(eval("r = b\"  ab  \".strip(side=\"right\")\n").repr(), "b'  ab'");
    assert_eq!(eval("r = b\"a,b,,c\".split(b\",\")\n").repr(), "[b'a', b'b', b'', b'c']");
    assert_eq!(eval("r = b\"a,b,c\".split(b\",\", 1)\n").repr(), "[b'a', b'b,c']");
    assert_eq!(eval("r = b\"a b\\x0bc\".split()\n").repr(), "[b'a', b'b', b'c']");
    assert_eq!(eval("r = [b\"a\", b\"b\"].join(b\"-\")\n").repr(), "b'a-b'");
    assert_eq!(int_of(&eval("r = b\"abc\".find(b\"b\")\n")), 1);
    assert_eq!(int_of(&eval("r = b\"abc\".find(b\"z\")\n")), -1);
    assert_eq!(int_of(&eval("r = b\"abc\".find(b\"\")\n")), 0);
    assert_eq!(eval("r = b\"abc\".replace(b\"b\", b\"XY\")\n").repr(), "b'aXYc'");
    assert!(eval("r = b\"abc\".startswith(b\"ab\")\n").truthy());
    assert!(eval("r = b\"abc\".endswith(b\"bc\")\n").truthy());
    assert_eq!(int_of(&eval("r = b\"abcabc\".find(b\"bc\", reverse=true)\n")), 4);
    assert_eq!(int_of(&eval("r = b\"abc\".count(b\"\")\n")), 4);
    assert_eq!(eval("r = b\"a.png\".rm_suffix(b\".png\")\n").repr(), "b'a'");
    assert_eq!(eval("r = b\"a.png\".rm_suffix(b\".gif\")\n").repr(), "b'a.png'");
    assert!(eval("r = b\"12\".is_digit()\n").truthy());
    assert!(!eval("r = b\"\".is_digit()\n").truthy());
    assert_eq!(eval("r = b\"\\xff\\x00A\".hex()\n").repr(), "'ff0041'");
}

#[test]
fn bytes_scan_measures_the_prefix_inside_a_byte_class() {
    assert_eq!(int_of(&eval("r = b\"abc\".scan(b\"abc\")\n")), 3);
    assert_eq!(int_of(&eval("r = b\"abc\".scan(b\"ab\")\n")), 2);
    assert_eq!(int_of(&eval("r = b\"abc\".scan(b\"xyz\")\n")), 0);
    assert_eq!(int_of(&eval("r = b\"abc\".scan(b\"\")\n")), 0);
    assert_eq!(int_of(&eval("r = b\"\".scan(b\"abc\")\n")), 0);
    assert_eq!(int_of(&eval("r = b\"\\xff\\x00\\x80\".scan(b\"\\x00\\x80\\xff\")\n")), 3);
    assert_eq!(int_of(&eval("r = b\"\\xff\\x00\".scan(b\"\\xff\")\n")), 1);
    assert_eq!(int_of(&eval("r = b\"aaa\".scan(b\"aaaa\")\n")), 3);
    assert_eq!(int_of(&eval("r = b\"Content Type\".scan(b\"ContenTyp\")\n")), 7);
    let e = run_err("r = b\"a\".scan(\"a\")\n");
    assert!(e.message.contains("scan() argument must be bytes, not 'str'"), "got: {}", e.message);
    let e = run_err("r = \"a\".scan(b\"a\")\n");
    assert!(e.message.contains("has no attribute 'scan'"), "got: {}", e.message);
}

#[test]
fn str_strip_takes_a_side_and_find_takes_a_reverse() {
    assert_eq!(eval("r = \"  ab  \".strip()\n").repr(), "'ab'");
    assert_eq!(eval("r = \"  ab  \".strip(side=\"left\")\n").repr(), "'ab  '");
    assert_eq!(eval("r = \"  ab  \".strip(side=\"right\")\n").repr(), "'  ab'");
    assert_eq!(eval("r = \"  ab  \".strip(side=\"both\")\n").repr(), "'ab'");
    assert_eq!(eval("r = \"xyaxy\".strip(\"xy\")\n").repr(), "'a'");
    assert_eq!(eval("r = \"xyaxy\".strip(\"xy\", side=\"left\")\n").repr(), "'axy'");
    assert_eq!(eval("r = \"xyaxy\".strip(\"xy\", side=\"right\")\n").repr(), "'xya'");
    let e = run_err("r = \"x\".strip(side=\"middle\")\n");
    assert!(e.message.contains("ValueError"), "got: {}", e.message);
    assert!(e.message.contains("\"both\", \"left\" or \"right\""), "got: {}", e.message);

    assert_eq!(int_of(&eval("r = \"abcabc\".find(\"bc\")\n")), 1);
    assert_eq!(int_of(&eval("r = \"abcabc\".find(\"bc\", reverse=true)\n")), 4);
    assert_eq!(int_of(&eval("r = \"abcabc\".find(\"bc\", 0, 4, reverse=true)\n")), 1);
    assert_eq!(int_of(&eval("r = \"abcabc\".find(\"zz\", reverse=true)\n")), -1);
    assert_eq!(int_of(&eval("r = \"abc\".find(\"\", reverse=true)\n")), 3);
}

#[test]
fn split_takes_a_side() {
    assert_eq!(eval("r = \"a.b.c\".split(\".\", 1)\n").repr(), "['a', 'b.c']");
    assert_eq!(eval("r = \"a.b.c\".split(\".\", 1, side=\"left\")\n").repr(), "['a', 'b.c']");
    assert_eq!(eval("r = \"a.b.c\".split(\".\", 1, side=\"right\")\n").repr(), "['a.b', 'c']");
    assert_eq!(eval("r = \"a.b.c\".split(\".\", side=\"right\")\n").repr(), "['a', 'b', 'c']");
    assert_eq!(eval("r = \" a  b  c \".split(null, 1, side=\"right\")\n").repr(), "[' a  b', 'c']");
    assert_eq!(eval("r = \" a  b \".split(null, 0, side=\"right\")\n").repr(), "[' a  b']");
    assert_eq!(eval("r = \"   \".split(null, 1, side=\"right\")\n").repr(), "[]");
    assert_eq!(eval("r = \"a..b\".split(\".\", 1, side=\"right\")\n").repr(), "['a.', 'b']");
    assert_eq!(eval("r = \".a.\".split(\".\", 1, side=\"right\")\n").repr(), "['.a', '']");
    assert_eq!(eval("r = b\"a.b.c\".split(b\".\", 1, side=\"right\")\n").repr(), "[b'a.b', b'c']");
    assert_eq!(
        eval("r = b\" a  b  c \".split(null, 1, side=\"right\")\n").repr(),
        "[b' a  b', b'c']"
    );

    let e = run_err("r = \"x\".split(\".\", 1, side=\"both\")\n");
    assert!(e.message.contains("ValueError"), "got: {}", e.message);
    assert!(e.message.contains("\"left\" or \"right\""), "got: {}", e.message);
    let e = run_err("r = \"x\".split(\".\", 1, side=1)\n");
    assert!(e.message.contains("TypeError"), "got: {}", e.message);
    let e = run_err("r = \"x\".split(\".\", bogus=1)\n");
    assert!(e.message.contains("unexpected keyword argument"), "got: {}", e.message);
}

#[test]
fn rm_prefix_and_rm_suffix_are_literal() {
    assert_eq!(eval("r = \"ping.png\".strip(\".png\", side=\"right\")\n").repr(), "'pi'");
    assert_eq!(eval("r = \"ping.png\".rm_suffix(\".png\")\n").repr(), "'ping'");
    assert_eq!(eval("r = \"ping.png\".rm_suffix(\".gif\")\n").repr(), "'ping.png'");
    assert_eq!(eval("r = \"ping.png\".rm_prefix(\"ping\")\n").repr(), "'.png'");
    assert_eq!(eval("r = \"abc\".rm_prefix(\"\")\n").repr(), "'abc'");
}

#[test]
fn count_and_the_is_predicates() {
    assert_eq!(int_of(&eval("r = \"abcabc\".count(\"bc\")\n")), 2);
    assert_eq!(int_of(&eval("r = \"aaa\".count(\"aa\")\n")), 1);
    assert_eq!(int_of(&eval("r = \"abc\".count(\"\")\n")), 4);
    assert_eq!(int_of(&eval("r = \"abcabc\".count(\"bc\", 2)\n")), 1);
    assert_eq!(int_of(&eval("r = \"abcabc\".count(\"bc\", 0, 4)\n")), 1);
    assert_eq!(int_of(&eval("r = \"abcabc\".count(\"bc\", -3)\n")), 1);
    assert_eq!(int_of(&eval("r = \"abc\".count(\"\", 1, 2)\n")), 2);
    assert_eq!(int_of(&eval("r = \"abc\".count(\"\", 3)\n")), 1);
    assert_eq!(int_of(&eval("r = \"abc\".count(\"\", 99)\n")), 0);
    assert_eq!(int_of(&eval("r = \"ha\u{e9}\u{e9}ha\".count(\"\u{e9}\", 3)\n")), 1);
    assert_eq!(int_of(&eval("r = b\"abcabc\".count(b\"bc\", 2)\n")), 1);
    assert_eq!(int_of(&eval("r = b\"abc\".count(b\"\", 99)\n")), 0);
    assert!(eval("r = \"123\".is_digit()\n").truthy());
    assert!(!eval("r = \"12a\".is_digit()\n").truthy());
    assert!(eval("r = \"caf\u{e9}\".is_alpha()\n").truthy());
    assert!(eval("r = \"a1\".is_alnum()\n").truthy());
    assert!(eval("r = \" \\t\\n\".is_space()\n").truthy());
    for m in ["is_digit", "is_alpha", "is_alnum", "is_space"] {
        assert!(!eval(&format!("r = \"\".{m}()\n")).truthy(), "empty {m}");
        assert!(!eval(&format!("r = b\"\".{m}()\n")).truthy(), "empty bytes {m}");
    }
}

#[test]
fn removed_string_methods_name_their_replacement() {
    let cases = [
        ("\"x\".lstrip()", "strip(side=\"left\")"),
        ("\"x\".rstrip()", "strip(side=\"right\")"),
        ("\"x\".rsplit(\",\")", "split(sep, maxsplit, side=\"right\")"),
        ("\"x\".rfind(\"a\")", "find(sub, reverse=true)"),
        ("\"x\".zfill(3)", "f\"{n:05d}\""),
        ("\"x\".index(\"a\")", "find(sub)"),
        ("b\"x\".lstrip()", "strip(side=\"left\")"),
        ("b\"x\".zfill(3)", "f\"{n:05d}\""),
        ("\"x\".removeprefix(\"a\")", "`rm_prefix`"),
        ("\"x\".removesuffix(\"a\")", "`rm_suffix`"),
        ("\"x\".isdigit()", "`is_digit`"),
        ("\"x\".isspace()", "`is_space`"),
    ];
    for (src, want) in cases {
        let e = run_err(&format!("r = {src}\n"));
        assert!(e.message.contains("AttributeError"), "{src}: {}", e.message);
        assert!(e.message.contains(want), "{src} should name {want}, got: {}", e.message);
    }
}

#[test]
fn other_methods_refuse_keywords() {
    let e = run_err("r = \"x\".upper(side=\"left\")\n");
    assert!(e.message.contains("takes no keyword arguments"), "got: {}", e.message);
    let e = run_err("r = \"x\".strip(bogus=1)\n");
    assert!(e.message.contains("unexpected keyword argument 'bogus'"), "got: {}", e.message);
    let e = run_err("r = \"x\".find(\"x\", bogus=1)\n");
    assert!(e.message.contains("unexpected keyword argument 'bogus'"), "got: {}", e.message);
}

#[test]
fn bytes_and_str_convert_explicitly() {
    assert_eq!(eval("r = \"h\u{e9}llo\".to_bytes()\n").repr(), "b'h\\xc3\\xa9llo'");
    assert_eq!(int_of(&eval("r = len(\"h\u{e9}llo\".to_bytes())\n")), 6);
    assert_eq!(int_of(&eval("r = len(\"h\u{e9}llo\")\n")), 5);
    assert_eq!(eval("r = \"h\u{e9}\".to_bytes().to_str()\n").repr(), "'h\u{e9}'");
    assert_eq!(eval("r = b\"ab\".to_bytes()\n").repr(), "b'ab'");

    let e = run_err("r = b\"\\xff\".to_str()\n");
    assert!(e.message.contains("ValueError"), "got: {}", e.message);
    assert!(e.message.contains("invalid byte 0xff at position 0"), "got: {}", e.message);
}

#[test]
fn io_read_works_on_an_oro_class_that_only_has_read() {
    let src = "import io\n\
               class Dribble:\n\
               \x20   def __init__(self, data):\n\
               \x20       self.data = data\n\
               \x20   def read(self, n):\n\
               \x20       out = self.data[0:1]\n\
               \x20       self.data = self.data[1:]\n\
               \x20       return out\n\
               r = io.read(Dribble(b\"drip\"))\n";
    assert_eq!(eval_last(src).repr(), "b'drip'");
}

#[test]
fn io_read_with_a_count_loops_over_short_reads() {
    let src = "import io\n\
               class Dribble:\n\
               \x20   def __init__(self, data):\n\
               \x20       self.data = data\n\
               \x20   def read(self, n):\n\
               \x20       out = self.data[0:1]\n\
               \x20       self.data = self.data[1:]\n\
               \x20       return out\n\
               r = io.read(Dribble(b\"drip\"), 3)\n";
    assert_eq!(eval_last(src).repr(), "b'dri'");

    let e = run_err(
        "import io\nr = io.read(io.buffer(b\"ab\"), 5)\n",
    );
    assert!(e.message.contains("EOFError"), "got: {}", e.message);
    assert!(e.message.contains("stream ended after 2 bytes"), "got: {}", e.message);
}

#[test]
fn io_copy_moves_bytes_between_any_two_streams() {
    let src = "import io\n\
               dst = io.buffer()\n\
               n = io.copy(dst, io.buffer(b\"payload\"))\n\
               r = f\"{n}:{dst.bytes().to_str()}\"\n";
    assert_eq!(fstr(src), "7:payload");
}

#[test]
fn a_buffer_reads_what_was_written_to_it() {
    let src = "import io\n\
               b = io.buffer(b\"one \")\n\
               b.write(b\"two\")\n\
               r = b.read(4).to_str() + \"|\" + b.bytes().to_str()\n";
    assert_eq!(fstr(src), "one |two");
}

#[test]
fn private_native_modules_resolve_only_inside_the_stdlib() {
    let e = run_err("import _io\n");
    assert!(e.message.contains("No module named '_io'"), "got: {}", e.message);
    let e = run_err("import _json\n");
    assert!(e.message.contains("No module named '_json'"), "got: {}", e.message);
    assert_eq!(
        eval_last("import json\nr = json.stringify(json.parse(\"[1,2]\"))\n").repr(),
        "'[1,2]'"
    );
}

#[test]
fn a_list_of_ints_converts_to_bytes() {
    assert_eq!(eval("r = [97, 98, 99].to_bytes()\n").repr(), "b'abc'");
    assert_eq!(eval("r = [].to_bytes()\n").repr(), "b''");
    assert_eq!(eval("r = (0, 200, 255).to_bytes()\n").repr(), "b'\\x00\\xc8\\xff'");
    assert_eq!(eval("r = [true, 98].to_bytes()\n").repr(), "b'\\x01b'");
    assert_eq!(int_of(&eval("r = len([200].to_bytes())\n")), 1);
    assert_eq!(int_of(&eval("r = len(f\"{200:c}\".to_bytes())\n")), 2);

    for src in ["r = [256].to_bytes()\n", "r = [-1].to_bytes()\n", "r = [b\"a\"].to_bytes()\n"] {
        let e = run_err(src);
        assert!(e.message.contains("ValueError"), "{src}: got {}", e.message);
    }
}

#[test]
fn two_tasks_coexist_in_one_vm() {
    let mut heap = Heap::new();
    let n = natives(&mut heap);
    let a = compile(&mut heap, "import json\na = 6\nb = a * 7\n", "test.oro");
    let b = compile(&mut heap, "import json\nc = 40 + 2\n", "test.oro");
    let mut host = Host::default();
    let mut vm = Vm::new(heap, n, Vec::new());

    vm.push_module_frame(a);
    assert_eq!(vm.task.frames.len(), 1);
    let parked = std::mem::replace(&mut vm.task, Task::new());

    assert!(vm.task.frames.is_empty(), "a fresh task starts with no stack segment");
    vm.push_module_frame(b);
    let mut vm = play_vm(vm, &mut host);
    assert_eq!(vm.task.last_locals[1], Value::Int(42));

    assert_eq!(parked.frames.len(), 1);
    assert_eq!(parked.frames[0].pc, 0);
    assert!(parked.last_locals.is_empty());

    let finished_b = std::mem::replace(&mut vm.task, parked);
    let vm = play_vm(vm, &mut host);
    assert_eq!(vm.task.last_locals[2], Value::Int(42));
    assert_eq!(finished_b.last_locals[1], Value::Int(42));

    assert_eq!(vm.module_cache.entries.len(), 1, "the module cache is per-VM, not per-task");
    assert!(!vm.frame_pool.is_empty(), "retired frames are pooled across tasks");
}

#[test]
fn task_state_is_not_shared_between_tasks() {
    let mut heap = Heap::new();
    let n = natives(&mut heap);
    let mut vm = Vm::new(heap, n, Vec::new());
    vm.task.handling.push(Value::Int(1));
    vm.task.finally_why.push(Why::Normal);
    vm.task.line = 17;
    vm.task.col = 5;

    let parked = std::mem::replace(&mut vm.task, Task::new());
    assert!(vm.task.handling.is_empty());
    assert!(vm.task.finally_why.is_empty());
    assert_eq!((vm.task.line, vm.task.col), (0, 0));

    vm.task = parked;
    assert_eq!(vm.task.handling.len(), 1);
    assert_eq!(vm.task.finally_why.len(), 1);
    assert_eq!((vm.task.line, vm.task.col), (17, 5));
}

#[test]
fn park_cannot_carry_a_borrow() {
    fn owned_only<T: 'static>() {}
    owned_only::<Park>();
    owned_only::<Step>();
}

#[test]
fn step_stayed_small() {
    assert!(std::mem::size_of::<Step>() <= 24, "Step grew to {} bytes", std::mem::size_of::<Step>());
    assert!(
        std::mem::size_of::<Result<Step, Box<RuntimeError>>>() <= 24,
        "Result<Step, Box<RuntimeError>> grew to {} bytes",
        std::mem::size_of::<Result<Step, Box<RuntimeError>>>()
    );
    assert!(std::mem::size_of::<RuntimeError>() <= 48, "RuntimeError grew to {} bytes", std::mem::size_of::<RuntimeError>());
    assert_eq!(std::mem::size_of::<Exc>(), 1);
}

#[test]
fn two_tasks_interleave_deterministically() {
    let v = eval_var(
        "\
ch = chan()
log = []
def echo():
    for x in ch:
        log.append(\"task \" + x.to_str())
t = spawn(echo)
i = 0
while i < 3:
    log.append(\"main \" + i.to_str())
    ch.send(i)
    i = i + 1
ch.close()
t.join()
r = log
",
        "r",
    );
    assert_eq!(
        v.repr(),
        "['main 0', 'task 0', 'main 1', 'main 2', 'task 1', 'task 2']",
        "the interleaving is a property of the rendezvous, not of timing"
    );
}

#[test]
fn a_channel_round_trip() {
    let v = eval_var(
        "\
req = chan()
rep = chan()
def square():
    for n in req:
        rep.send(n * n)
s = spawn(square)
out = []
for n in [2, 3, 4]:
    req.send(n)
    out.append(rep.recv())
req.close()
s.join()
r = out
",
        "r",
    );
    assert_eq!(v.repr(), "[4, 9, 16]");
}

#[test]
fn a_buffered_channel_blocks_only_when_full() {
    let v = eval_var(
        "\
ch = chan(2)
log = []
def fill():
    for i in [1, 2, 3]:
        ch.send(i)
        log.append(\"sent \" + i.to_str())
def nothing():
    return 0
f = spawn(fill)
# Hand the CPU to `fill` without becoming a receiver, so the buffer is what
# stops it rather than a rendezvous with main.
spawn(nothing).join()
log.append(\"main resumes\")
log.append(\"took \" + ch.recv().to_str())
log.append(\"took \" + ch.recv().to_str())
log.append(\"took \" + ch.recv().to_str())
f.join()
r = log
",
        "r",
    );
    assert_eq!(
        v.repr(),
        "['sent 1', 'sent 2', 'main resumes', 'took 1', 'took 2', 'took 3', 'sent 3']"
    );
}

#[test]
fn a_failing_task_is_re_raised_in_the_joiner() {
    let v = eval_var(
        "\
def boom():
    raise KeyError(\"k\")
t = spawn(boom)
out = []
for _ in [1, 2]:
    try:
        t.join()
        out.append(\"no raise\")
    except KeyError as e:
        out.append(\"KeyError \" + e.to_str())
r = out
",
        "r",
    );
    assert_eq!(v.repr(), "[\"KeyError 'k'\", \"KeyError 'k'\"]");
}

#[test]
fn one_task_failing_leaves_the_others_alone() {
    let v = eval_var(
        "\
def crash():
    raise ValueError(\"x\")
def ok(n):
    return n * 2
hs = [spawn(crash), spawn(ok, 5), spawn(crash), spawn(ok, 7)]
out = []
for h in hs:
    try:
        out.append(h.join())
    except ValueError:
        out.append(\"failed\")
r = out
",
        "r",
    );
    assert_eq!(v.repr(), "['failed', 10, 'failed', 14]");
}

#[test]
fn the_frame_limit_is_per_task() {
    let v = eval_var(
        "\
def runaway(n):
    return runaway(n + 1)
def depth(n):
    if n == 0:
        return 0
    return 1 + depth(n - 1)
out = []
try:
    spawn(runaway, 0).join()
    out.append(\"no limit\")
except RuntimeError:
    out.append(\"limited\")
out.append(depth(2000))
r = out
",
        "r",
    );
    assert_eq!(v.repr(), "['limited', 2000]");
}

#[test]
fn a_generator_cannot_be_driven_by_two_tasks() {
    let v = eval_var(
        "\
gate = chan()
def slow():
    n = 0
    while n < 2:
        gate.recv()
        yield n
        n = n + 1
g = slow()
def drive():
    for _ in g:
        pass
a = spawn(drive)
b = spawn(drive)
gate.send(0)
out = []
try:
    b.join()
    out.append(\"no raise\")
except ValueError as e:
    out.append(e.to_str())
gate.close()
try:
    a.join()
except ChannelClosed:
    out.append(\"owner ended at close\")
r = out
",
        "r",
    );
    assert_eq!(v.repr(), "['generator already executing', 'owner ended at close']");
}

#[test]
fn a_generator_survives_a_channel() {
    let v = eval_var(
        "\
def nums():
    yield 1
    yield 2
ch = chan(1)
def consume():
    g = ch.recv()
    out = []
    for x in g:
        out.append(x)
    return out
c = spawn(consume)
ch.send(nums())
r = c.join()
",
        "r",
    );
    assert_eq!(v.repr(), "[1, 2]");
}

#[test]
fn a_deadlock_is_reported() {
    let e = run_err("ch = chan()\nx = ch.recv()\n");
    assert!(e.message.starts_with("deadlock:"), "got {}", e.message);
    assert!(e.message.contains("recv"), "the diagnostic names what is waited on: {}", e.message);
    let e = run_err("ch = chan()\ndef stuck():\n    ch.recv()\nspawn(stuck)\n");
    assert!(e.message.starts_with("deadlock:"), "got {}", e.message);
}

#[test]
fn a_task_cannot_join_itself() {
    let e = run_err(
        "\
box = []
def me():
    box[0].join()
t = spawn(me)
box.append(t)
t.join()
",
    );
    assert!(e.message.contains("cannot join itself"), "got {}", e.message);
}

#[test]
fn spawn_rejects_what_cannot_park() {
    for (src, want) in [
        ("spawn(len, [1])\n", "function defined in Oro"),
        ("def g():\n    yield 1\nspawn(g)\n", "generator function"),
        ("spawn()\n", "at least 1 argument"),
    ] {
        let e = run_err(src);
        assert!(e.message.contains(want), "{src}: got {}", e.message);
    }
}

#[test]
fn spawn_binds_keywords_like_a_direct_call() {
    let v = eval_var(
        "\
def f(a, b=1, c=2):
    return f\"{a} {b} {c}\"
class K:
    def m(self, x, y=0):
        return x + y
kw = {\"b\": 7}
r = [spawn(f, 1, c=9).join(), spawn(f, a=5).join(), spawn(f, *[3], **kw).join(), spawn(K().m, 1, y=41).join()]
",
        "r",
    );
    assert_eq!(v.repr(), "['1 1 9', '5 1 2', '3 7 2', 42]");

    let def = "def f(a, b=1, c=2):\n    return a\n";
    for (direct, spawned) in [
        ("f(1, x=1)", "spawn(f, 1, x=1)"),
        ("f(1, a=2)", "spawn(f, 1, a=2)"),
        ("f(b=2)", "spawn(f, b=2)"),
        ("f()", "spawn(f)"),
        ("f(1, 2, 3, 4)", "spawn(f, 1, 2, 3, 4)"),
    ] {
        let d = run_err(&format!("{def}{direct}\n"));
        let s = run_err(&format!("{def}{spawned}\n"));
        assert!(d.message.starts_with("TypeError: "), "{direct}: {}", d.message);
        assert_eq!((&d.message, d.line), (&s.message, s.line), "{spawned}");
    }

    let v = eval_var(
        "\
out = []
def f(a):
    out.append(\"ran\")
try:
    spawn(f, bogus=1)
except TypeError as e:
    out.append(\"caught at spawn\")
r = out
",
        "r",
    );
    assert_eq!(v.repr(), "['caught at spawn']");
}

#[test]
fn yield_now_hands_over_and_never_deadlocks() {
    let v = eval_var(
        "\
out = []
def w(log, name):
    for i in range(2):
        log.append(name + i.to_str())
        yield_now()
a = spawn(w, out, \"a\")
b = spawn(w, out, \"b\")
a.join()
b.join()
",
        "out",
    );
    assert_eq!(v.repr(), "['a0', 'b0', 'a1', 'b1']");

    assert_eq!(eval("r = yield_now()\n").repr(), "null");
    let v = eval_var(
        "\
out = []
def g():
    for i in range(2):
        yield_now()
        yield i
for x in g():
    out.append(x)
",
        "out",
    );
    assert_eq!(v.repr(), "[0, 1]");

    assert!(run_err("yield_now(1)\n").message.contains("takes 0 argument(s)"));
    assert!(run_err("yield_now(x=1)\n").message.contains("no keyword arguments"));
}

#[test]
fn chan_capacity_is_checked() {
    assert_eq!(eval("r = chan(0)\n").repr(), "<channel cap=0>");
    assert_eq!(eval("r = chan()\n").repr(), "<channel cap=0>");
    assert_eq!(eval("r = chan(4)\n").repr(), "<channel cap=4>");
    assert!(run_err("r = chan(-1)\n").message.contains("must not be negative"));
    assert!(run_err("r = chan(\"x\")\n").message.contains("must be an int"));
}

#[test]
fn the_concurrency_diagnostics_are_catchable_by_class() {
    let v = eval_var(
        "\
out = []
def f():
    return 0
for thunk in [() => chan(-1), () => chan(\"x\"), () => spawn(len, []), () => chan().send()]:
    try:
        thunk()
        out.append(\"no raise\")
    except ValueError:
        out.append(\"ValueError\")
    except TypeError:
        out.append(\"TypeError\")
r = out
",
        "r",
    );
    assert_eq!(v.repr(), "['ValueError', 'TypeError', 'TypeError', 'TypeError']");
}

#[test]
fn concurrent_imports_rendezvous_but_real_cycles_still_raise() {
    let mut heap = Heap::new();
    let n = natives(&mut heap);
    let mut vm = Vm::new(heap, n, Vec::new());
    vm.importing.push(("m".to_string(), 7));
    vm.task.id = 7;
    assert!(matches!(vm.await_import("m", 7), Step::Raise(_)), "the task already running the body sees a cycle");
    assert!(vm.import_waiters.is_empty(), "a cycle does not queue anybody");
    vm.task.id = 9;
    assert!(matches!(vm.await_import("m", 7), Step::Park(_)), "a different task waits for it instead");
    vm.task.id = 11;
    assert!(matches!(vm.await_import("m", 7), Step::Park(_)));
    let waiting: Vec<u64> = vm.import_waiters.iter().filter(|(p, _)| p == "m").map(|(_, t)| *t).collect();
    assert_eq!(waiting, vec![9, 11]);
}

#[test]
fn a_failed_module_body_releases_its_path() {
    let mut heap = Heap::new();
    let n = natives(&mut heap);
    let mut vm = Vm::new(heap, n, Vec::new());
    vm.importing.push(("m".to_string(), 0));
    let class = vm.exc(Exc::ValueError);
    let exc = make_exception_instance(&mut vm.heap, class, Vec::new());
    vm.release_import("m", Err(exc));
    assert!(vm.importing.is_empty(), "the path must not survive a failed body");
    assert!(vm.import_waiters.is_empty());
}

#[test]
fn resolving_only_happens_for_a_name() {
    fn lookups(src: &str) -> u64 {
        let (p, _, host, end) = run_source(src);
        assert!(end.is_ok());
        assert_eq!(p.vm.reactor.next_lookup, host.lookups as u64);
        p.vm.reactor.next_lookup
    }
    assert_eq!(lookups("import net\nc = net.dial(\"127.0.0.1:8080\")\n"), 0, "a literal ip:port has no name to look up");
    assert_eq!(lookups("import net\nc = net.dial(\"localhost:8080\")\n"), 1, "a name is looked up exactly once");
}

#[test]
fn an_error_in_an_embedded_stdlib_module_names_that_module() {
    let err = run_err("import json\njson.stringify({1: 2})\n");
    assert_eq!(
        &*err.source, "<std/json.oro>",
        "an error raised inside std/json.oro was reported against `{}`",
        err.source
    );

    let err = run_err("import io\nio.read(io.buffer(b\"ab\"), 5)\n");
    assert_eq!(&*err.source, "<std/io.oro>", "got: {}", err.source);
}

#[test]
fn an_error_in_the_script_still_names_the_script() {
    let err = run_err("x = 1\ny = x + \"z\"\n");
    assert_eq!(&*err.source, "test.oro");
    assert_eq!((err.line, err.col), (2, 5));
}

#[test]
fn an_error_in_a_user_callback_names_the_callers_file_not_the_librarys() {
    let err = run_err(
        "import io\n\
         class W:\n\
         \x20   def write(self, b):\n\
         \x20       raise OSError(\"disk on fire\")\n\
         io.copy(W(), io.buffer(b\"hello\"))\n",
    );
    assert_eq!(&*err.source, "test.oro", "got: {}", err.source);
    assert_eq!(err.line, 4, "the raise, not the call into io.copy");
}

#[test]
fn a_stdlib_error_caught_in_user_code_is_still_the_users_to_re_raise() {
    let err = run_err(
        "import json\n\
         try:\n\
         \x20   json.stringify({1: 2})\n\
         except TypeError:\n\
         \x20   raise ValueError(\"mine now\")\n",
    );
    assert_eq!(&*err.source, "test.oro", "got: {}", err.source);
    assert_eq!(err.line, 5);
}

#[test]
fn the_file_and_the_line_always_come_from_the_same_frame() {
    let err = run_err(
        "import json\n\
         try:\n\
         \x20   json.stringify({1: 2})\n\
         finally:\n\
         \x20   x = 1\n",
    );
    assert_eq!(&*err.source, "test.oro", "got: {}", err.source);
    assert_eq!(err.line, 2, "the try statement's EndFinally, in the script's own frame");
}

#[test]
fn every_exception_class_exists() {
    let mut heap = Heap::new();
    let registry = build_registry(&mut heap);
    for i in 0..oro_vm::exc::EXC_COUNT {
        let e = Exc::at(i);
        assert!(lookup(&registry, e.name()).is_some(), "{} is not in the registry", e.name());
    }
}

// --- More programs -----------------------------------------------------------

fn printed(src: &str) -> String {
    let (_, _, host, end) = run_source(src);
    if let Err(e) = &end {
        panic!("run: {}", e.text());
    }
    host.printed
}

#[test]
fn print_joins_its_arguments() {
    assert_eq!(printed("print(1, \"a\", [2, null])\n"), "1 a [2, null]\n");
    assert_eq!(printed("print(1, 2, sep=\"-\", end=\"!\")\n"), "1-2!");
    assert_eq!(printed("print()\n"), "\n");
    let src = "class P:\n    def __str__(self):\n        return \"p\"\n    def __repr__(self):\n        return \"P()\"\nprint(P(), [P()])\n";
    assert_eq!(printed(src), "p [P()]\n");
}

#[test]
fn apply_makes_the_call_it_stands_for() {
    let f = "def f(a, b=1):\n    return a * 10 + b\n";
    assert_eq!(int_of(&eval_last(&format!("{f}r = apply(f, args=[4])\n"))), 41);
    assert_eq!(int_of(&eval_last(&format!("{f}r = apply(f, args=[4], kwargs={{\"b\": 2}})\n"))), 42);
    assert_eq!(int_of(&eval_last(&format!("{f}r = apply(apply, args=[f], kwargs={{\"args\": [7]}})\n"))), 71);
    for (call, want) in [
        ("apply()", "TypeError: apply() missing required argument: 'f'"),
        ("apply(f, 1)", "TypeError: apply() takes 1 positional argument but 2 were given"),
        ("apply(f, bogus=1)", "TypeError: apply() got an unexpected keyword argument 'bogus'"),
        ("apply(f, args=(1, 2))", "TypeError: apply(): args= must be a list, not 'tuple'"),
        ("apply(f, args=null)", "TypeError: apply(): args= must be a list, not null"),
        ("apply(f, kwargs=[1])", "TypeError: apply(): kwargs= must be a dict, not 'list'"),
        ("apply(f, kwargs={1: 2})", "TypeError: apply(): kwargs= keys must be str, not 'int'"),
    ] {
        let e = run_err(&format!("{f}{call}\n"));
        assert!(e.message.starts_with(want), "{call}: {}", e.message);
    }
}

#[test]
fn every_kind_of_fault_has_its_class() {
    for (src, want) in [
        ("1 + null\n", "TypeError: unsupported operand type(s) for +: 'int' and 'null'"),
        ("[1][3]\n", "IndexError: list index out of range"),
        ("{1: 2}[3]\n", "KeyError: 3"),
        ("1 % 0\n", "ZeroDivisionError: integer division or modulo by zero"),
        ("x = nothing_here\n", "NameError: name 'nothing_here' is not defined"),
        ("\"a\".nope\n", "AttributeError: 'str' object has no attribute 'nope'"),
        ("null()\n", "TypeError: 'null' object is not callable"),
        ("{[1]: 2}\n", "TypeError: unhashable type: 'list'"),
        ("a, b = [1]\n", "ValueError: not enough values to unpack (expected 2, got 1)"),
        ("a, b = [1, 2, 3]\n", "ValueError: too many values to unpack (expected 2)"),
        ("for x in 5:\n    pass\n", "TypeError: 'int' object is not iterable"),
        ("raise 5\n", "TypeError: exceptions must derive from BaseException, not 'int'"),
        ("raise\n", "RuntimeError: No active exception to re-raise"),
        ("if 1:\n    pass\n", "TypeError: a condition must be a bool, not 'int'"),
        ("x = 1 < \"a\"\n", "TypeError: '<' not supported between instances of 'int' and 'str'"),
        ("class A:\n    pass\nA(1)\n", "TypeError: A() takes no arguments"),
        ("class A(5):\n    pass\n", "TypeError: base of class 'A' must be a class, not 'int'"),
        ("x = 5\nx.y = 1\n", "RuntimeError: cannot set attribute 'y' on 'int' object"),
        ("chan().close(1)\n", "TypeError: close() takes no arguments (1 given)"),
        ("c = chan()\nc.close()\nc.send(1)\n", "ChannelClosed: channel is closed"),
        ("import time\ntime.sleep(-1)\n", "ValueError: sleep length must be non-negative"),
        ("import time\ntime.sleep(\"x\")\n", "TypeError: sleep() takes one number of seconds"),
        ("import os\nos.path.join(\"a\", 1)\n", "TypeError: join() argument must be str, not 'int'"),
        ("import os\nos.listdir()\n", "TypeError: listdir() takes exactly one argument"),
        ("import re\nre.search(1, \"x\")\n", "TypeError: search() argument 1 must be str, not 'int'"),
        ("import subprocess\n", "ModuleNotFoundError: No module named 'subprocess'"),
        ("import net\nnet.dial(1)\n", "TypeError: dial() address must be str, not 'int'"),
        ("class A:\n    def __init__(self):\n        return 1\nA()\n", "TypeError: __init__() should return None"),
        ("def f(a):\n    return a\nf()\n", "TypeError: "),
        ("len(5)\n", "TypeError: object of type 'int' has no len()"),
    ] {
        let e = run_err(src);
        assert!(e.message.starts_with(want), "{src}: {}", e.message);
    }
}

#[test]
fn finally_bodies_run_in_order_on_every_way_out() {
    let src = "\
log = []
def f(how):
    for i in [0, 1]:
        try:
            try:
                if how == \"return\":
                    return \"r\"
                if how == \"raise\":
                    raise ValueError(\"v\")
                if how == \"break\":
                    break
                if how == \"continue\":
                    continue
                log.append(\"through\")
            finally:
                log.append(\"inner\")
        finally:
            log.append(\"outer\")
    return \"end\"
out = []
for how in [\"return\", \"break\", \"continue\", \"fall\"]:
    log.append(how)
    out.append(f(how))
try:
    f(\"raise\")
except ValueError as e:
    out.append(e.to_str())
r = [out, log]
";
    assert_eq!(
        eval_last(src).repr(),
        "[['r', 'end', 'end', 'end', 'v'], ['return', 'inner', 'outer', 'break', 'inner', 'outer', 'continue', 'inner', 'outer', \
         'inner', 'outer', 'fall', 'through', 'inner', 'outer', 'through', 'inner', 'outer', 'inner', 'outer']]"
    );
}

#[test]
fn an_exit_ends_the_program_with_its_code() {
    let (p, _, _, end) = run_source("import sys\nsys.exit(3)\n");
    assert!(end.is_err());
    assert_eq!(p.vm.exit_status(end).expect("a status"), 3);
    // From another task too, and without its peers.
    let (p, _, _, end) = run_source("import sys\ndef f():\n    sys.exit(7)\nspawn(f)\nch = chan()\nch.recv()\n");
    assert_eq!(p.vm.exit_status(end).expect("a status"), 7);
    // It is an exception like any other until nothing catches it.
    let (p, _, _, end) = run_source("import sys\ntry:\n    sys.exit(5)\nexcept SystemExit:\n    x = 1\n");
    assert_eq!(p.vm.exit_status(end).expect("a status"), 0);
    let (p, _, _, end) = run_source("import sys\nsys.exit(true)\n");
    assert_eq!(p.vm.exit_status(end).expect("a status"), 1);
    let e = run_err("import sys\nsys.exit(\"x\")\n");
    assert_eq!(&*e.message, "TypeError: sys.exit() code must be an int or None in this build");
}

#[test]
fn an_unjoined_failure_is_reported_and_fails_the_run() {
    let (p, _, _, end) = run_source("def f():\n    raise ValueError(\"lost\")\nspawn(f)\n");
    assert_eq!(p.vm.reports(), vec!["task failed: test.oro:2:5: ValueError: lost".to_string()]);
    assert_eq!(p.vm.exit_status(end).expect("a status"), 1);
    let (p, _, _, end) = run_source("def f():\n    raise ValueError(\"x\")\nt = spawn(f)\ntry:\n    t.join()\nexcept ValueError:\n    pass\n");
    assert!(p.vm.reports().is_empty());
    assert_eq!(p.vm.exit_status(end).expect("a status"), 0);
    let (p, _, _, end) = run_source("raise ValueError(\"main\")\n");
    assert_eq!(&*p.vm.exit_status(end).expect_err("an error").message, "ValueError: main");
}

#[test]
fn sleepers_wake_in_the_order_of_their_deadlines() {
    let src = "\
import time
log = []
def nap(n):
    time.sleep(n)
    log.append(n)
a = spawn(nap, 3)
b = spawn(nap, 1)
c = spawn(nap, 2)
d = spawn(nap, 0)
for t in [a, b, c, d]:
    t.join()
r = log
";
    assert_eq!(eval_last(src).repr(), "[0, 1, 2, 3]");
}

#[test]
fn a_deadlock_lists_what_everybody_waits_for_in_order() {
    let src = "\
a = chan()
b = chan(2)
def send():
    a.send(1)
    a.send(2)
def take():
    b.recv()
x = spawn(take)
y = spawn(send)
a.recv()
x.join()
";
    let e = run_err(src);
    assert_eq!(
        &*e.message,
        "deadlock: every task is blocked and nothing can wake them \
         (join(task 1), recv (channel cap 2, 0 buffered), send (channel cap 0, 0 buffered))"
    );
    let e = run_err("ch = chan(1)\ndef stuck():\n    ch.recv()\nspawn(stuck)\nyield_now()\n");
    assert_eq!(&*e.message, "deadlock: nothing is runnable and 1 task(s) are blocked forever (recv (channel cap 1, 0 buffered))");
}

#[test]
fn a_write_goes_on_until_every_octet_has_gone() {
    // The host takes one octet at a time, and the program sees one write.
    let src = "import io\nb = io.buffer()\nb.write(b\"abcdef\")\nb.write(b\"\")\nr = b.read(6)\n";
    assert_eq!(eval_last(src).repr(), "b'abcdef'");
}

#[test]
fn a_closed_stream_refuses_every_operation() {
    for (op, want) in [
        ("read(1)", "ValueError: read() on a closed File"),
        ("write(b\"x\")", "ValueError: write() on a closed File"),
        ("read_until(b\"x\", 5)", "ValueError: read_until() on a closed File"),
    ] {
        let e = run_err(&format!("import io\nb = io.buffer()\nb.close()\nb.{op}\n"));
        assert_eq!(&*e.message, want);
    }
    for (op, want) in [
        ("read()", "TypeError: read() takes a size"),
        ("read(\"x\")", "TypeError: read() size argument must be int, not 'str'"),
        ("write(\"x\")", "TypeError: write() argument must be bytes, not 'str'"),
        ("read_until(b\"x\")", "TypeError: read_until() takes a delimiter and a limit"),
        ("read_until(b\"x\", \"y\")", "TypeError: read_until() limit argument must be int, not 'str'"),
        ("close(1)", "TypeError: close() takes exactly 0 arguments"),
        ("read(1, x=2)", "TypeError: read() takes no keyword arguments"),
    ] {
        let e = run_err(&format!("import io\nb = io.buffer()\nb.{op}\n"));
        assert!(e.message.starts_with(want), "{op}: {}", e.message);
    }
}

#[test]
fn generators_are_drained_for_native_code_and_only_once() {
    let src = "\
def up(n):
    i = 0
    while i < n:
        yield i
        i = i + 1
g = up(3)
r = [up(3).sum(), up(4).to_list(), [7, 8].zip(up(2)), g.len(), g.len(), up(3).sorted(reverse=true), len([up(1)])]
";
    assert_eq!(eval_last(src).repr(), "[3, [0, 1, 2, 3], [(7, 0), (8, 1)], 3, 0, [2, 1, 0], 1]");
    let e = run_err("def g():\n    for x in h:\n        yield x\nh = g()\nfor x in h:\n    pass\n");
    assert_eq!(&*e.message, "ValueError: generator already executing");
}

#[test]
fn comparisons_reach_the_programs_own_methods_at_any_depth() {
    let src = "\
class V:
    def __init__(self, n):
        self.n = n
    def __eq__(self, o):
        return self.n == o.n
    def __lt__(self, o):
        return self.n < o.n
    def __repr__(self):
        return \"V\" + self.n.to_str()
a = [[V(1)], {\"k\": V(2)}]
b = [[V(1)], {\"k\": V(2)}]
c = [V(3), V(1), V(2)]
out = [a == b, a != b, V(2) in c, V(9) in c, c.sorted(), c.min(), c.max(), c.sorted(reverse=true), [V(1), V(2)] < [V(1), V(3)], (V(1),) == (V(2),)].to_str()
";
    assert_eq!(fstr(src), "[true, false, true, false, [V1, V2, V3], V1, V3, [V3, V2, V1], true, false]");
}

#[test]
fn integers_of_any_size_compute_exactly() {
    for (src, want) in [
        ("r = 2 ** 100\n", "1267650600228229401496703205376"),
        ("r = -(2 ** 63)\n", "-9223372036854775808"),
        ("r = 2 ** 64 // 3\n", "6148914691236517205"),
        ("r = -(2 ** 64) % 7\n", "5"),
        ("r = (2 ** 70 - 1) & 255\n", "255"),
        ("r = ~(2 ** 64)\n", "-18446744073709551617"),
        ("r = 1 << 70 >> 68\n", "4"),
        ("r = -1 >> 100\n", "-1"),
        ("r = 5 ^ 3 | 8\n", "14"),
        ("r = 3 * [1, 2]\n", "[1, 2, 1, 2, 1, 2]"),
        ("r = 2 ** -1\n", "0.5"),
        ("r = 7 // 2.0\n", "3.0"),
        ("r = -7 % 3.0\n", "2.0"),
    ] {
        assert_eq!(eval(src).repr(), want, "{src}");
    }
}

#[test]
fn dicts_take_equal_numbers_for_one_key() {
    assert_eq!(eval("r = {1: \"a\", true: \"b\", 1.0: \"c\"}\n").repr(), "{1: 'c'}");
    assert_eq!(eval("r = {(1, 2): \"a\", (true, 2.0): \"b\"}\n").repr(), "{(1, 2): 'b'}");
    assert_eq!(eval("r = {9007199254740993: 1, 9007199254740992.0: 2}\n").repr(), "{9007199254740993: 1, 9007199254740992.0: 2}");
    assert_eq!(eval_last("d = {}\nd[\"x\"] = 1\nd[\"y\"] = 2\nd[\"x\"] = 3\nr = [d, d[\"y\"], \"x\" in d, \"z\" in d]\n").repr(), "[{'x': 3, 'y': 2}, 2, true, false]");
}

#[test]
fn fused_chains_stop_as_soon_as_the_answer_is_known() {
    let src = "\
seen = []
def watch(x):
    seen.append(x)
    return x
a = [1, 2, 3, 4].map(watch).first()
b = [1, 2, 3, 4].map(watch).filter(x => x > 1).take(1)
c = [].map(watch).first()
d = [1, 2].map(watch).any(x => x == 1)
r = [a, b, c, d, seen]
";
    assert_eq!(eval_last(src).repr(), "[1, [2], null, true, [1, 1, 2, 1]]");
}

#[test]
fn modules_are_built_once_and_show_the_run() {
    assert_eq!(eval_last("import os\nr = os.path.splitext(\"/a.b/c.tar.gz\")\n").repr(), "('/a.b/c.tar', '.gz')");
    assert_eq!(eval_last("import os\nr = os.path.splitext(\"/x/.bashrc\")\n").repr(), "('/x/.bashrc', '')");
    assert_eq!(eval_last("import os\nr = [os.path.dirname(\"/x/y\"), os.path.dirname(\"y\"), os.path.basename(\"/x/\")]\n").repr(), "['/x', '', '']");
    assert_eq!(eval_last("import os\nr = [os.path.join(\"a\", \"/b\", \"c\"), os.path.join(\"a/\", \"b\"), os.path.join()]\n").repr(), "['/b/c', 'a/b', '']");
    assert_eq!(eval_last("import os\nr = os.environ[\"HOME\"]\n").repr(), "'/root'");
    assert_eq!(eval_last("import sys\nr = [sys.argv, sys.platform]\n").repr(), "[[], 'oro']");
    assert!(eval_last("import json\na = json\nimport json\nr = a == json\n").truthy());
}

#[test]
fn super_is_for_methods() {
    let e = run_err("super().x\n");
    assert_eq!(&*e.message, "RuntimeError: super() is only valid inside a method");
    let src = "\
class A:
    def __init__(self, n):
        self.n = n
    def who(self):
        return \"A\" + self.n.to_str()
class B(A):
    def __init__(self, n):
        super().__init__(n + 1)
    def who(self):
        return \"B\" + super().who()
class C(B):
    pass
r = C(1).who()
";
    assert_eq!(fstr(src), "BA2");
}

#[test]
fn an_exception_carries_its_arguments() {
    assert_eq!(eval_last("e = ValueError(\"a\", 1)\nr = [e.args, e.to_str(), repr(e)]\n").repr(), "[('a', 1), \"('a', 1)\", \"ValueError('a', 1)\"]");
    let src = "try:\n    x = {}[\"z\"]\nexcept KeyError as e:\n    r = e.to_str()\n";
    assert_eq!(fstr(src), "'z'");
}

#[test]
fn a_task_yields_after_many_ready_operations() {
    let src = "\
import io
log = []
def copy():
    b = io.buffer(b\"0123456789012345678901234567890123456789\")
    i = 0
    while i < 20:
        b.read(1)
        i = i + 1
    log.append(\"copied\")
def other():
    log.append(\"other\")
a = spawn(copy)
b = spawn(other)
a.join()
b.join()
r = log
";
    assert_eq!(eval_last(src).repr(), "['other', 'copied']");
}

#[test]
fn what_is_stored_is_read_back() {
    let src = "\
class P:
    def __init__(self):
        self.x = 1
        self.y = 2
    def z(self):
        return 3
def counter():
    n = 0
    def get():
        return n
    n = n + 5
    return get
p = P()
q = P()
p.x = 10
p.z = 30
xs = [1, 2, 3]
ys = xs
xs[-1] = 9
r = [p.x, p.y, q.x, p.z, q.z(), ys, counter()()]
";
    assert_eq!(eval_last(src).repr(), "[10, 2, 1, 30, 3, [1, 2, 9], 5]");
}

#[test]
fn suspended_tasks_keep_what_they_had() {
    let src = "\
out = []
def work(name, n):
    i = 0
    while i < n:
        out.append(name + i.to_str())
        i = i + 1
        yield_now()
    return name
a = spawn(work, \"a\", 3)
b = spawn(work, \"b\", 2)
r = [a.join(), b.join(), out, a.join()]
";
    assert_eq!(eval_last(src).repr(), "['a', 'b', ['a0', 'b0', 'a1', 'b1', 'a2'], 'a']");
}

#[test]
fn a_walk_hands_out_what_collecting_does() {
    let src = "\
def walk(xs):
    out = []
    for x in xs:
        out.append(x)
    return out
t = (1, \"a\")
r = [walk([3, 1]), walk(t), walk(\"h\u{e9}\"), walk(b\"ab\"), walk(range(3)), walk({\"k\": 1}), walk([].map(x => x))]
";
    assert_eq!(eval_last(src).repr(), "[[3, 1], [1, 'a'], ['h', '\u{e9}'], [97, 98], [0, 1, 2], [('k', 1)], []]");
}

#[test]
fn operands_of_not_and_or_may_be_anything() {
    for (src, want) in [
        ("r = not 0\n", "true"),
        ("r = not [1]\n", "false"),
        ("r = not null\n", "true"),
        ("r = 0 or 5\n", "5"),
        ("r = \"\" or [] or \"x\"\n", "'x'"),
        ("r = 3 and 4\n", "4"),
        ("r = [] and 1 / 0\n", "[]"),
        ("r = 1 or 1 / 0\n", "1"),
        ("r = null and 1 or 2\n", "2"),
    ] {
        assert_eq!(eval(src).repr(), want, "{src}");
    }
    let src = "class A:\n    pass\nr = not A()\n";
    assert_eq!(eval_last(src).repr(), "false");
}

#[test]
fn nothing_is_spliced_into_an_exception() {
    let src = "class P:\n    def __repr__(self):\n        return \"P()\"\nr = [P(), ValueError(P(), 1), P()].to_str()\n";
    assert_eq!(fstr(src), "[P(), ValueError(<P object>, 1), P()]");
}
