//! Syntax trees as messages show them.
use crate::ast::{
    tys_view, BinOp, Block, ElseBranch, Expr, MatchArm, STy, Stmt, TransactSlot, Ty, UnOp,
};
use crate::text::{cat3, cat5, cat7, cat9, cat13, dec, dec_i64, dec_usize};
use crate::token::{quote, quoted, Span};
use vstd::prelude::*;
use vstd::string::*;

verus! {

pub open spec fn span_shown(s: Span) -> Seq<char> {
    "Span { line: "@ + dec(s.line as int) + ", col: "@ + dec(s.col as int) + " }"@
}

pub fn show_span(s: Span) -> (r: String)
    ensures
        r@ == span_shown(s),
{
    let line = dec_usize(s.line);
    let col = dec_usize(s.col);
    cat5("Span { line: ", line.as_str(), ", col: ", col.as_str(), " }")
}

pub open spec fn bool_shown(b: bool) -> Seq<char> {
    if b {
        "true"@
    } else {
        "false"@
    }
}

fn show_bool(b: bool) -> (r: &'static str)
    ensures
        r@ == bool_shown(b),
{
    if b {
        "true"
    } else {
        "false"
    }
}

pub open spec fn unary_name(op: UnOp) -> Seq<char> {
    match op {
        UnOp::Neg => "Neg"@,
        UnOp::Not => "Not"@,
    }
}

fn show_unary(op: UnOp) -> (r: &'static str)
    ensures
        r@ == unary_name(op),
{
    match op {
        UnOp::Neg => "Neg",
        UnOp::Not => "Not",
    }
}

pub open spec fn binary_name(op: BinOp) -> Seq<char> {
    match op {
        BinOp::Add => "Add"@,
        BinOp::Sub => "Sub"@,
        BinOp::Mul => "Mul"@,
        BinOp::Div => "Div"@,
        BinOp::ElemMul => "ElemMul"@,
        BinOp::ElemDiv => "ElemDiv"@,
        BinOp::Eq => "Eq"@,
        BinOp::NotEq => "NotEq"@,
        BinOp::Lt => "Lt"@,
        BinOp::Gt => "Gt"@,
        BinOp::LtEq => "LtEq"@,
        BinOp::GtEq => "GtEq"@,
        BinOp::And => "And"@,
        BinOp::Or => "Or"@,
    }
}

fn show_binary(op: BinOp) -> (r: &'static str)
    ensures
        r@ == binary_name(op),
{
    match op {
        BinOp::Add => "Add",
        BinOp::Sub => "Sub",
        BinOp::Mul => "Mul",
        BinOp::Div => "Div",
        BinOp::ElemMul => "ElemMul",
        BinOp::ElemDiv => "ElemDiv",
        BinOp::Eq => "Eq",
        BinOp::NotEq => "NotEq",
        BinOp::Lt => "Lt",
        BinOp::Gt => "Gt",
        BinOp::LtEq => "LtEq",
        BinOp::GtEq => "GtEq",
        BinOp::And => "And",
        BinOp::Or => "Or",
    }
}

/// A type as messages about trees show it: its variant with all that it holds.
pub open spec fn ty_shown(t: STy) -> Seq<char>
    decreases t,
{
    match t {
        STy::I8 => "I8"@,
        STy::I16 => "I16"@,
        STy::I32 => "I32"@,
        STy::I64 => "I64"@,
        STy::U8 => "U8"@,
        STy::U16 => "U16"@,
        STy::U32 => "U32"@,
        STy::U64 => "U64"@,
        STy::Usize => "Usize"@,
        STy::Bool => "Bool"@,
        STy::Unit => "Unit"@,
        STy::F64 => "F64"@,
        STy::Str => "Str"@,
        STy::Box(x) => "Box("@ + ty_shown(*x) + ")"@,
        STy::Ref(x) => "Ref("@ + ty_shown(*x) + ")"@,
        STy::Thread(x) => "Thread("@ + ty_shown(*x) + ")"@,
        STy::Channel(x) => "Channel("@ + ty_shown(*x) + ")"@,
        STy::Sandbox => "Sandbox"@,
        STy::Tcp => "Tcp"@,
        STy::TcpListener => "TcpListener"@,
        STy::File => "File"@,
        STy::Vector(x, n) => "Vector("@ + ty_shown(*x) + ", "@ + dec(n as int) + ")"@,
        STy::Matrix(x, r, c) => "Matrix("@ + ty_shown(*x) + ", "@ + dec(r as int) + ", "@ + dec(
            c as int,
        ) + ")"@,
        STy::Named(n, args) => "Named("@ + quoted(n) + ", ["@ + tys_shown(args) + "])"@,
        STy::Error => "Error"@,
    }
}

pub open spec fn tys_shown(v: Seq<STy>) -> Seq<char>
    decreases v,
{
    if v.len() == 0 {
        Seq::empty()
    } else if v.len() == 1 {
        ty_shown(v.last())
    } else {
        tys_shown(v.drop_last()) + ", "@ + ty_shown(v.last())
    }
}

fn wrap(name: &str, inner: &Ty) -> (r: String)
    ensures
        r@ == name@ + ty_shown(inner@) + ")"@,
    decreases inner, 2nat,
{
    let x = show_ty(inner);
    cat3(name, x.as_str(), ")")
}

fn show_ty(t: &Ty) -> (r: String)
    ensures
        r@ == ty_shown(t@),
    decreases t, 1nat,
{
    match t {
        Ty::I8 => "I8".to_owned(),
        Ty::I16 => "I16".to_owned(),
        Ty::I32 => "I32".to_owned(),
        Ty::I64 => "I64".to_owned(),
        Ty::U8 => "U8".to_owned(),
        Ty::U16 => "U16".to_owned(),
        Ty::U32 => "U32".to_owned(),
        Ty::U64 => "U64".to_owned(),
        Ty::Usize => "Usize".to_owned(),
        Ty::Bool => "Bool".to_owned(),
        Ty::Unit => "Unit".to_owned(),
        Ty::F64 => "F64".to_owned(),
        Ty::Str => "Str".to_owned(),
        Ty::Box(x) => wrap("Box(", x),
        Ty::Ref(x) => wrap("Ref(", x),
        Ty::Thread(x) => wrap("Thread(", x),
        Ty::Channel(x) => wrap("Channel(", x),
        Ty::Sandbox => "Sandbox".to_owned(),
        Ty::Tcp => "Tcp".to_owned(),
        Ty::TcpListener => "TcpListener".to_owned(),
        Ty::File => "File".to_owned(),
        Ty::Vector(x, n) => {
            let t = show_ty(x);
            let n = dec_usize(*n);
            cat5("Vector(", t.as_str(), ", ", n.as_str(), ")")
        }
        Ty::Matrix(x, r, c) => {
            let t = show_ty(x);
            let r = dec_usize(*r);
            let c = dec_usize(*c);
            cat7("Matrix(", t.as_str(), ", ", r.as_str(), ", ", c.as_str(), ")")
        }
        Ty::Named(n, args) => {
            let q = quote(n.as_str());
            let a = show_tys(args);
            cat5("Named(", q.as_str(), ", [", a.as_str(), "])")
        }
        Ty::Error => "Error".to_owned(),
    }
}

fn show_tys(v: &Vec<Ty>) -> (r: String)
    ensures
        r@ == tys_shown(tys_view(v@)),
    decreases v, 1nat,
{
    let ghost all = tys_view(v@);
    let mut out = String::new();
    let mut i: usize = 0;
    proof {
        assert(out@ =~= tys_shown(all.take(0)));
    }
    while i < v.len()
        invariant
            i <= v@.len(),
            all == tys_view(v@),
            all.len() == v@.len(),
            out@ == tys_shown(all.take(i as int)),
        decreases v@.len() - i,
    {
        let ghost before = out@;
        let one = show_ty(&v[i]);
        if i > 0 {
            out.append(", ");
        }
        out.append(one.as_str());
        proof {
            let now = all.take(i + 1);
            assert(now.drop_last() =~= all.take(i as int));
            assert(now.last() == v@[i as int]@);
            assert(i == 0 ==> before + one@ =~= one@);
        }
        i = i + 1;
    }
    proof {
        assert(all.take(i as int) =~= all);
    }
    out
}

/// Names in quotes, one behind the other.
pub open spec fn names_shown(v: Seq<String>) -> Seq<char>
    decreases v.len(),
{
    if v.len() == 0 {
        Seq::empty()
    } else if v.len() == 1 {
        quoted(v.last()@)
    } else {
        names_shown(v.drop_last()) + ", "@ + quoted(v.last()@)
    }
}

fn show_names(v: &Vec<String>) -> (r: String)
    ensures
        r@ == names_shown(v@),
{
    let mut out = String::new();
    let mut i: usize = 0;
    proof {
        assert(out@ =~= names_shown(v@.take(0)));
    }
    while i < v.len()
        invariant
            i <= v@.len(),
            out@ == names_shown(v@.take(i as int)),
        decreases v@.len() - i,
    {
        let ghost before = out@;
        let one = quote(v[i].as_str());
        if i > 0 {
            out.append(", ");
        }
        out.append(one.as_str());
        proof {
            let now = v@.take(i + 1);
            assert(now.drop_last() =~= v@.take(i as int));
            assert(now.last() == v@[i as int]);
            assert(i == 0 ==> before + one@ =~= one@);
        }
        i = i + 1;
    }
    proof {
        assert(v@.take(i as int) =~= v@);
    }
    out
}

/// An expression as messages show it: its variant with all that it holds.
pub open spec fn expr_shown(e: Expr) -> Seq<char>
    decreases e,
{
    match e {
        Expr::Bool(b, span) => "Bool("@ + bool_shown(b) + ", "@ + span_shown(span) + ")"@,
        Expr::Int(n, span) => "Int("@ + dec(n as int) + ", "@ + span_shown(span) + ")"@,
        Expr::Float(f, span) => "Float("@ + f.shown@ + ", "@ + span_shown(span) + ")"@,
        Expr::Str(name, span) => "Str("@ + quoted(name@) + ", "@ + span_shown(span) + ")"@,
        Expr::Ident(name, span) => "Ident("@ + quoted(name@) + ", "@ + span_shown(span) + ")"@,
        Expr::Unary(op, a, span) => "Unary("@ + unary_name(op) + ", "@ + expr_shown(*a) + ", "@
            + span_shown(span) + ")"@,
        Expr::Binary(op, a, b, span) => "Binary("@ + binary_name(op) + ", "@ + expr_shown(*a)
            + ", "@ + expr_shown(*b) + ", "@ + span_shown(span) + ")"@,
        Expr::Call(name, args, span) => "Call("@ + quoted(name@) + ", ["@ + exprs_shown(args@)
            + "], "@ + span_shown(span) + ")"@,
        Expr::Assign(name, a, span) => "Assign("@ + quoted(name@) + ", "@ + expr_shown(*a) + ", "@
            + span_shown(span) + ")"@,
        Expr::Box(a, span) => "Box("@ + expr_shown(*a) + ", "@ + span_shown(span) + ")"@,
        Expr::Deref(a, span) => "Deref("@ + expr_shown(*a) + ", "@ + span_shown(span) + ")"@,
        Expr::Ref(a, span) => "Ref("@ + expr_shown(*a) + ", "@ + span_shown(span) + ")"@,
        Expr::Spawn(name, args, span) => "Spawn("@ + quoted(name@) + ", ["@ + exprs_shown(args@)
            + "], "@ + span_shown(span) + ")"@,
        Expr::Join(a, span) => "Join("@ + expr_shown(*a) + ", "@ + span_shown(span) + ")"@,
        Expr::Chan(span) => "Chan("@ + span_shown(span) + ")"@,
        Expr::Send(a, b, span) => "Send("@ + expr_shown(*a) + ", "@ + expr_shown(*b) + ", "@
            + span_shown(span) + ")"@,
        Expr::Recv(a, span) => "Recv("@ + expr_shown(*a) + ", "@ + span_shown(span) + ")"@,
        Expr::SpawnSandbox(name, args, span) => "SpawnSandbox("@ + quoted(name@) + ", ["@
            + exprs_shown(args@) + "], "@ + span_shown(span) + ")"@,
        Expr::StopSandbox(a, span) => "StopSandbox("@ + expr_shown(*a) + ", "@ + span_shown(span)
            + ")"@,
        Expr::Connect(a, b, span) => "Connect("@ + expr_shown(*a) + ", "@ + expr_shown(*b) + ", "@
            + span_shown(span) + ")"@,
        Expr::Listen(a, span) => "Listen("@ + expr_shown(*a) + ", "@ + span_shown(span) + ")"@,
        Expr::Accept(a, span) => "Accept("@ + expr_shown(*a) + ", "@ + span_shown(span) + ")"@,
        Expr::Open(a, b, span) => "Open("@ + expr_shown(*a) + ", "@ + expr_shown(*b) + ", "@
            + span_shown(span) + ")"@,
        Expr::Index(a, args, span) => "Index("@ + expr_shown(*a) + ", ["@ + exprs_shown(args@)
            + "], "@ + span_shown(span) + ")"@,
        Expr::ArrayLit(args, span) => "ArrayLit(["@ + exprs_shown(args@) + "], "@
            + span_shown(span) + ")"@,
        Expr::FieldAccess(a, name, span) => "FieldAccess("@ + expr_shown(*a) + ", "@
            + quoted(name@) + ", "@ + span_shown(span) + ")"@,
        Expr::If { cond, then_block, else_block, span } => "If { cond: "@ + expr_shown(*cond)
            + ", then_block: "@ + block_shown(then_block.stmts@) + ", else_block: "@
            + else_shown(else_block) + ", span: "@ + span_shown(span) + " }"@,
        Expr::Match { scrutinee, arms, span } => "Match { scrutinee: "@ + expr_shown(*scrutinee)
            + ", arms: ["@ + arms_shown(arms@) + "], span: "@ + span_shown(span) + " }"@,
        Expr::Transact { network, verify, commit, compensate, log, span } => "Transact { network: "@
            + slot_shown(network) + ", verify: "@ + slot_shown(verify) + ", commit: "@
            + slot_shown(commit) + ", compensate: "@ + maybe_slot_shown(compensate) + ", log: "@
            + maybe_slot_shown(log) + ", span: "@ + span_shown(span) + " }"@,
    }
}

/// Expressions, one behind the other.
pub open spec fn exprs_shown(v: Seq<Expr>) -> Seq<char>
    decreases v,
{
    if v.len() == 0 {
        Seq::empty()
    } else if v.len() == 1 {
        expr_shown(v.last())
    } else {
        exprs_shown(v.drop_last()) + ", "@ + expr_shown(v.last())
    }
}

pub open spec fn maybe_shown(e: Option<Expr>) -> Seq<char>
    decreases e,
{
    match e {
        Some(e) => "Some("@ + expr_shown(e) + ")"@,
        None => "None"@,
    }
}

pub open spec fn block_shown(v: Seq<Stmt>) -> Seq<char>
    decreases v, v.len() + 1,
{
    "Block { stmts: ["@ + stmts_shown(v) + "] }"@
}

pub open spec fn else_shown(b: Option<Box<ElseBranch>>) -> Seq<char>
    decreases b,
{
    match b {
        Some(b) => match *b {
            ElseBranch::Block(x) => "Some(Block("@ + block_shown(x.stmts@) + "))"@,
            ElseBranch::If(e) => "Some(If("@ + expr_shown(e) + "))"@,
        },
        None => "None"@,
    }
}

pub open spec fn arm_shown(a: MatchArm) -> Seq<char>
    decreases a,
{
    "MatchArm { variant: "@ + quoted(a.variant@) + ", bindings: ["@ + names_shown(a.bindings@)
        + "], body: "@ + expr_shown(*a.body) + ", span: "@ + span_shown(a.span) + " }"@
}

pub open spec fn arms_shown(v: Seq<MatchArm>) -> Seq<char>
    decreases v,
{
    if v.len() == 0 {
        Seq::empty()
    } else if v.len() == 1 {
        arm_shown(v.last())
    } else {
        arms_shown(v.drop_last()) + ", "@ + arm_shown(v.last())
    }
}

pub open spec fn slot_shown(s: TransactSlot) -> Seq<char>
    decreases s,
{
    "TransactSlot { name: "@ + quoted(s.name@) + ", args: ["@ + exprs_shown(s.args@)
        + "], span: "@ + span_shown(s.span) + " }"@
}

pub open spec fn maybe_slot_shown(s: Option<TransactSlot>) -> Seq<char>
    decreases s,
{
    match s {
        Some(s) => "Some("@ + slot_shown(s) + ")"@,
        None => "None"@,
    }
}

/// A statement as messages show it.
pub open spec fn stmt_shown(s: Stmt) -> Seq<char>
    decreases s,
{
    match s {
        Stmt::Let { name, ty, value, span } => "Let { name: "@ + quoted(name@) + ", ty: "@
            + ty_shown(ty@) + ", value: "@ + expr_shown(value) + ", span: "@ + span_shown(span)
            + " }"@,
        Stmt::Return { value, span } => "Return { value: "@ + maybe_shown(value) + ", span: "@
            + span_shown(span) + " }"@,
        Stmt::While { cond, body, span } => "While { cond: "@ + expr_shown(cond) + ", body: "@
            + block_shown(body.stmts@) + ", span: "@ + span_shown(span) + " }"@,
        Stmt::Audited { justification, body, span } => "Audited { justification: "@
            + quoted(justification@) + ", body: ["@ + stmts_shown(body@) + "], span: "@
            + span_shown(span) + " }"@,
        Stmt::Expr(e) => "Expr("@ + expr_shown(e) + ")"@,
    }
}

/// Statements, one behind the other.
pub open spec fn stmts_shown(v: Seq<Stmt>) -> Seq<char>
    decreases v, v.len(),
{
    if v.len() == 0 {
        Seq::empty()
    } else if v.len() == 1 {
        stmt_shown(v.last())
    } else {
        stmts_shown(v.drop_last()) + ", "@ + stmt_shown(v.last())
    }
}

/// Shows an expression.
pub fn show_expr(e: &Expr) -> (r: String)
    ensures
        r@ == expr_shown(*e),
    decreases e, 1nat,
{
    match e {
        Expr::Bool(b, span) => {
            let x1 = show_bool(*b);
            let x2 = show_span(*span);
            cat5("Bool(", x1, ", ", x2.as_str(), ")")
        }
        Expr::Int(n, span) => {
            let x1 = dec_i64(*n);
            let x2 = show_span(*span);
            cat5("Int(", x1.as_str(), ", ", x2.as_str(), ")")
        }
        Expr::Float(f, span) => {
            let x1 = show_span(*span);
            cat5("Float(", f.shown.as_str(), ", ", x1.as_str(), ")")
        }
        Expr::Str(name, span) => {
            let x1 = quote(name.as_str());
            let x2 = show_span(*span);
            cat5("Str(", x1.as_str(), ", ", x2.as_str(), ")")
        }
        Expr::Ident(name, span) => {
            let x1 = quote(name.as_str());
            let x2 = show_span(*span);
            cat5("Ident(", x1.as_str(), ", ", x2.as_str(), ")")
        }
        Expr::Unary(op, a, span) => {
            let x1 = show_unary(*op);
            let x2 = show_expr(a);
            let x3 = show_span(*span);
            cat7("Unary(", x1, ", ", x2.as_str(), ", ", x3.as_str(), ")")
        }
        Expr::Binary(op, a, b, span) => {
            let x1 = show_binary(*op);
            let x2 = show_expr(a);
            let x3 = show_expr(b);
            let x4 = show_span(*span);
            cat9("Binary(", x1, ", ", x2.as_str(), ", ", x3.as_str(), ", ", x4.as_str(), ")")
        }
        Expr::Call(name, args, span) => {
            let x1 = quote(name.as_str());
            let x2 = show_exprs(args);
            let x3 = show_span(*span);
            cat7("Call(", x1.as_str(), ", [", x2.as_str(), "], ", x3.as_str(), ")")
        }
        Expr::Assign(name, a, span) => {
            let x1 = quote(name.as_str());
            let x2 = show_expr(a);
            let x3 = show_span(*span);
            cat7("Assign(", x1.as_str(), ", ", x2.as_str(), ", ", x3.as_str(), ")")
        }
        Expr::Box(a, span) => {
            let x1 = show_expr(a);
            let x2 = show_span(*span);
            cat5("Box(", x1.as_str(), ", ", x2.as_str(), ")")
        }
        Expr::Deref(a, span) => {
            let x1 = show_expr(a);
            let x2 = show_span(*span);
            cat5("Deref(", x1.as_str(), ", ", x2.as_str(), ")")
        }
        Expr::Ref(a, span) => {
            let x1 = show_expr(a);
            let x2 = show_span(*span);
            cat5("Ref(", x1.as_str(), ", ", x2.as_str(), ")")
        }
        Expr::Spawn(name, args, span) => {
            let x1 = quote(name.as_str());
            let x2 = show_exprs(args);
            let x3 = show_span(*span);
            cat7("Spawn(", x1.as_str(), ", [", x2.as_str(), "], ", x3.as_str(), ")")
        }
        Expr::Join(a, span) => {
            let x1 = show_expr(a);
            let x2 = show_span(*span);
            cat5("Join(", x1.as_str(), ", ", x2.as_str(), ")")
        }
        Expr::Chan(span) => {
            let x1 = show_span(*span);
            cat3("Chan(", x1.as_str(), ")")
        }
        Expr::Send(a, b, span) => {
            let x1 = show_expr(a);
            let x2 = show_expr(b);
            let x3 = show_span(*span);
            cat7("Send(", x1.as_str(), ", ", x2.as_str(), ", ", x3.as_str(), ")")
        }
        Expr::Recv(a, span) => {
            let x1 = show_expr(a);
            let x2 = show_span(*span);
            cat5("Recv(", x1.as_str(), ", ", x2.as_str(), ")")
        }
        Expr::SpawnSandbox(name, args, span) => {
            let x1 = quote(name.as_str());
            let x2 = show_exprs(args);
            let x3 = show_span(*span);
            cat7("SpawnSandbox(", x1.as_str(), ", [", x2.as_str(), "], ", x3.as_str(), ")")
        }
        Expr::StopSandbox(a, span) => {
            let x1 = show_expr(a);
            let x2 = show_span(*span);
            cat5("StopSandbox(", x1.as_str(), ", ", x2.as_str(), ")")
        }
        Expr::Connect(a, b, span) => {
            let x1 = show_expr(a);
            let x2 = show_expr(b);
            let x3 = show_span(*span);
            cat7("Connect(", x1.as_str(), ", ", x2.as_str(), ", ", x3.as_str(), ")")
        }
        Expr::Listen(a, span) => {
            let x1 = show_expr(a);
            let x2 = show_span(*span);
            cat5("Listen(", x1.as_str(), ", ", x2.as_str(), ")")
        }
        Expr::Accept(a, span) => {
            let x1 = show_expr(a);
            let x2 = show_span(*span);
            cat5("Accept(", x1.as_str(), ", ", x2.as_str(), ")")
        }
        Expr::Open(a, b, span) => {
            let x1 = show_expr(a);
            let x2 = show_expr(b);
            let x3 = show_span(*span);
            cat7("Open(", x1.as_str(), ", ", x2.as_str(), ", ", x3.as_str(), ")")
        }
        Expr::Index(a, args, span) => {
            let x1 = show_expr(a);
            let x2 = show_exprs(args);
            let x3 = show_span(*span);
            cat7("Index(", x1.as_str(), ", [", x2.as_str(), "], ", x3.as_str(), ")")
        }
        Expr::ArrayLit(args, span) => {
            let x1 = show_exprs(args);
            let x2 = show_span(*span);
            cat5("ArrayLit([", x1.as_str(), "], ", x2.as_str(), ")")
        }
        Expr::FieldAccess(a, name, span) => {
            let x1 = show_expr(a);
            let x2 = quote(name.as_str());
            let x3 = show_span(*span);
            cat7("FieldAccess(", x1.as_str(), ", ", x2.as_str(), ", ", x3.as_str(), ")")
        }
        Expr::If { cond, then_block, else_block, span } => {
            let x1 = show_expr(cond);
            let x2 = show_block(then_block);
            let x3 = show_else(else_block);
            let x4 = show_span(*span);
            cat9(
                "If { cond: ",
                x1.as_str(),
                ", then_block: ",
                x2.as_str(),
                ", else_block: ",
                x3.as_str(),
                ", span: ",
                x4.as_str(),
                " }",
            )
        }
        Expr::Match { scrutinee, arms, span } => {
            let x1 = show_expr(scrutinee);
            let x2 = show_arms(arms);
            let x3 = show_span(*span);
            cat7(
                "Match { scrutinee: ",
                x1.as_str(),
                ", arms: [",
                x2.as_str(),
                "], span: ",
                x3.as_str(),
                " }",
            )
        }
        Expr::Transact { network, verify, commit, compensate, log, span } => {
            let x1 = show_slot(network);
            let x2 = show_slot(verify);
            let x3 = show_slot(commit);
            let x4 = show_maybe_slot(compensate);
            let x5 = show_maybe_slot(log);
            let x6 = show_span(*span);
            cat13(
                "Transact { network: ",
                x1.as_str(),
                ", verify: ",
                x2.as_str(),
                ", commit: ",
                x3.as_str(),
                ", compensate: ",
                x4.as_str(),
                ", log: ",
                x5.as_str(),
                ", span: ",
                x6.as_str(),
                " }",
            )
        }
    }
}

fn show_exprs(v: &Vec<Expr>) -> (r: String)
    ensures
        r@ == exprs_shown(v@),
    decreases v, 1nat,
{
    let mut out = String::new();
    let mut i: usize = 0;
    proof {
        assert(v@.take(0).len() == 0);
        assert(out@ =~= exprs_shown(v@.take(0)));
    }
    while i < v.len()
        invariant
            i <= v@.len(),
            out@ == exprs_shown(v@.take(i as int)),
        decreases v@.len() - i,
    {
        let ghost before = out@;
        let one = show_expr(&v[i]);
        if i > 0 {
            out.append(", ");
        }
        out.append(one.as_str());
        proof {
            let now = v@.take(i + 1);
            assert(now.drop_last() =~= v@.take(i as int));
            assert(now.last() == v@[i as int]);
            assert(i == 0 ==> before + one@ =~= one@);
        }
        i = i + 1;
    }
    proof {
        assert(v@.take(i as int) =~= v@);
    }
    out
}

fn show_maybe(e: &Option<Expr>) -> (r: String)
    ensures
        r@ == maybe_shown(*e),
    decreases e, 1nat,
{
    match e {
        Some(e) => {
            let x = show_expr(e);
            cat3("Some(", x.as_str(), ")")
        }
        None => "None".to_owned(),
    }
}

fn show_block(b: &Block) -> (r: String)
    ensures
        r@ == block_shown(b.stmts@),
    decreases b, 1nat,
{
    let x = show_stmts(&b.stmts);
    cat3("Block { stmts: [", x.as_str(), "] }")
}

fn show_else(b: &Option<Box<ElseBranch>>) -> (r: String)
    ensures
        r@ == else_shown(*b),
    decreases b, 1nat,
{
    match b {
        Some(b) => match &**b {
            ElseBranch::Block(x) => {
                let t = show_block(x);
                cat3("Some(Block(", t.as_str(), "))")
            }
            ElseBranch::If(e) => {
                let t = show_expr(e);
                cat3("Some(If(", t.as_str(), "))")
            }
        },
        None => "None".to_owned(),
    }
}

fn show_arm(a: &MatchArm) -> (r: String)
    ensures
        r@ == arm_shown(*a),
    decreases a, 1nat,
{
    let x1 = quote(a.variant.as_str());
    let x2 = show_names(&a.bindings);
    let x3 = show_expr(&a.body);
    let x4 = show_span(a.span);
    cat9(
        "MatchArm { variant: ",
        x1.as_str(),
        ", bindings: [",
        x2.as_str(),
        "], body: ",
        x3.as_str(),
        ", span: ",
        x4.as_str(),
        " }",
    )
}

fn show_arms(v: &Vec<MatchArm>) -> (r: String)
    ensures
        r@ == arms_shown(v@),
    decreases v, 1nat,
{
    let mut out = String::new();
    let mut i: usize = 0;
    proof {
        assert(v@.take(0).len() == 0);
        assert(out@ =~= arms_shown(v@.take(0)));
    }
    while i < v.len()
        invariant
            i <= v@.len(),
            out@ == arms_shown(v@.take(i as int)),
        decreases v@.len() - i,
    {
        let ghost before = out@;
        let one = show_arm(&v[i]);
        if i > 0 {
            out.append(", ");
        }
        out.append(one.as_str());
        proof {
            let now = v@.take(i + 1);
            assert(now.drop_last() =~= v@.take(i as int));
            assert(now.last() == v@[i as int]);
            assert(i == 0 ==> before + one@ =~= one@);
        }
        i = i + 1;
    }
    proof {
        assert(v@.take(i as int) =~= v@);
    }
    out
}

fn show_slot(s: &TransactSlot) -> (r: String)
    ensures
        r@ == slot_shown(*s),
    decreases s, 1nat,
{
    let x1 = quote(s.name.as_str());
    let x2 = show_exprs(&s.args);
    let x3 = show_span(s.span);
    cat7(
        "TransactSlot { name: ",
        x1.as_str(),
        ", args: [",
        x2.as_str(),
        "], span: ",
        x3.as_str(),
        " }",
    )
}

fn show_maybe_slot(s: &Option<TransactSlot>) -> (r: String)
    ensures
        r@ == maybe_slot_shown(*s),
    decreases s, 1nat,
{
    match s {
        Some(s) => {
            let x = show_slot(s);
            cat3("Some(", x.as_str(), ")")
        }
        None => "None".to_owned(),
    }
}

fn show_stmt(s: &Stmt) -> (r: String)
    ensures
        r@ == stmt_shown(*s),
    decreases s, 1nat,
{
    match s {
        Stmt::Let { name, ty, value, span } => {
            let x1 = quote(name.as_str());
            let x2 = show_ty(ty);
            let x3 = show_expr(value);
            let x4 = show_span(*span);
            cat9(
                "Let { name: ",
                x1.as_str(),
                ", ty: ",
                x2.as_str(),
                ", value: ",
                x3.as_str(),
                ", span: ",
                x4.as_str(),
                " }",
            )
        }
        Stmt::Return { value, span } => {
            let x1 = show_maybe(value);
            let x2 = show_span(*span);
            cat5("Return { value: ", x1.as_str(), ", span: ", x2.as_str(), " }")
        }
        Stmt::While { cond, body, span } => {
            let x1 = show_expr(cond);
            let x2 = show_block(body);
            let x3 = show_span(*span);
            cat7(
                "While { cond: ",
                x1.as_str(),
                ", body: ",
                x2.as_str(),
                ", span: ",
                x3.as_str(),
                " }",
            )
        }
        Stmt::Audited { justification, body, span } => {
            let x1 = quote(justification.as_str());
            let x2 = show_stmts(body);
            let x3 = show_span(*span);
            cat7(
                "Audited { justification: ",
                x1.as_str(),
                ", body: [",
                x2.as_str(),
                "], span: ",
                x3.as_str(),
                " }",
            )
        }
        Stmt::Expr(e) => {
            let x1 = show_expr(e);
            cat3("Expr(", x1.as_str(), ")")
        }
    }
}

fn show_stmts(v: &Vec<Stmt>) -> (r: String)
    ensures
        r@ == stmts_shown(v@),
    decreases v, 1nat,
{
    let mut out = String::new();
    let mut i: usize = 0;
    proof {
        assert(v@.take(0).len() == 0);
        assert(out@ =~= stmts_shown(v@.take(0)));
    }
    while i < v.len()
        invariant
            i <= v@.len(),
            out@ == stmts_shown(v@.take(i as int)),
        decreases v@.len() - i,
    {
        let ghost before = out@;
        let one = show_stmt(&v[i]);
        if i > 0 {
            out.append(", ");
        }
        out.append(one.as_str());
        proof {
            let now = v@.take(i + 1);
            assert(now.drop_last() =~= v@.take(i as int));
            assert(now.last() == v@[i as int]);
            assert(i == 0 ==> before + one@ =~= one@);
        }
        i = i + 1;
    }
    proof {
        assert(v@.take(i as int) =~= v@);
    }
    out
}

} // verus!
