//! Syntax trees as mathematical values: names are sequences of characters and
//! lists are sequences, so that equal trees are equal values.
use crate::ast::{
    tys_view, BinOp, Block, EffectSet, ElseBranch, EnumDecl, Expr, Field, FnDecl, MatchArm, Param,
    Program, Requirement, STy, Stmt, StructDecl, TransactSlot, UnOp, Variant,
};
use crate::token::{SFloat, Span};
use vstd::prelude::*;

verus! {

pub ghost enum SExpr {
    Int(i64, Span),
    Float(SFloat, Span),
    Bool(bool, Span),
    Str(Seq<char>, Span),
    Ident(Seq<char>, Span),
    Unary(UnOp, Box<SExpr>, Span),
    Binary(BinOp, Box<SExpr>, Box<SExpr>, Span),
    Call(Seq<char>, Seq<SExpr>, Span),
    If { cond: Box<SExpr>, then_block: Seq<SStmt>, else_block: Option<Box<SElse>>, span: Span },
    Assign(Seq<char>, Box<SExpr>, Span),
    Box(Box<SExpr>, Span),
    Deref(Box<SExpr>, Span),
    Ref(Box<SExpr>, Span),
    Spawn(Seq<char>, Seq<SExpr>, Span),
    Join(Box<SExpr>, Span),
    Chan(Span),
    Send(Box<SExpr>, Box<SExpr>, Span),
    Recv(Box<SExpr>, Span),
    SpawnSandbox(Seq<char>, Seq<SExpr>, Span),
    StopSandbox(Box<SExpr>, Span),
    Connect(Box<SExpr>, Box<SExpr>, Span),
    Listen(Box<SExpr>, Span),
    Accept(Box<SExpr>, Span),
    Open(Box<SExpr>, Box<SExpr>, Span),
    Index(Box<SExpr>, Seq<SExpr>, Span),
    ArrayLit(Seq<SExpr>, Span),
    FieldAccess(Box<SExpr>, Seq<char>, Span),
    Match { scrutinee: Box<SExpr>, arms: Seq<SArm>, span: Span },
    Transact {
        network: SSlot,
        verify: SSlot,
        commit: SSlot,
        compensate: Option<SSlot>,
        log: Option<SSlot>,
        span: Span,
    },
}

pub ghost enum SElse {
    Block(Seq<SStmt>),
    If(SExpr),
}

pub ghost struct SArm {
    pub variant: Seq<char>,
    pub bindings: Seq<Seq<char>>,
    pub body: Box<SExpr>,
    pub span: Span,
}

pub ghost struct SSlot {
    pub name: Seq<char>,
    pub args: Seq<SExpr>,
    pub span: Span,
}

#[allow(inconsistent_fields)]
pub ghost enum SStmt {
    Let { name: Seq<char>, ty: STy, value: SExpr, span: Span },
    Return { value: Option<SExpr>, span: Span },
    While { cond: SExpr, body: Seq<SStmt>, span: Span },
    Audited { justification: Seq<char>, body: Seq<SStmt>, span: Span },
    Expr(SExpr),
}

/// A name with its type: a parameter or a field.
pub ghost struct STyped {
    pub name: Seq<char>,
    pub ty: STy,
}

pub ghost struct SStruct {
    pub name: Seq<char>,
    pub fields: Seq<STyped>,
    pub span: Span,
}

pub ghost struct SVariant {
    pub name: Seq<char>,
    pub payload: Seq<STy>,
    pub span: Span,
}

pub ghost struct SEnum {
    pub name: Seq<char>,
    pub variants: Seq<SVariant>,
    pub span: Span,
}

pub ghost enum SRequirement {
    Role(Seq<char>),
    Claim(Seq<char>, Seq<char>),
}

pub ghost struct SFn {
    pub name: Seq<char>,
    pub params: Seq<STyped>,
    pub ret: STy,
    pub body: Seq<SStmt>,
    pub span: Span,
    pub declared_effects: Option<EffectSet>,
    pub requirement: Option<SRequirement>,
}

pub ghost struct SProgram {
    pub fns: Seq<SFn>,
    pub structs: Seq<SStruct>,
    pub enums: Seq<SEnum>,
}

pub open spec fn expr_view(e: Expr) -> SExpr
    decreases e,
{
    match e {
        Expr::Int(n, s) => SExpr::Int(n, s),
        Expr::Float(f, s) => SExpr::Float(f@, s),
        Expr::Bool(b, s) => SExpr::Bool(b, s),
        Expr::Str(t, s) => SExpr::Str(t@, s),
        Expr::Ident(n, s) => SExpr::Ident(n@, s),
        Expr::Unary(op, a, s) => SExpr::Unary(op, Box::new(expr_view(*a)), s),
        Expr::Binary(op, a, b, s) => SExpr::Binary(
            op,
            Box::new(expr_view(*a)),
            Box::new(expr_view(*b)),
            s,
        ),
        Expr::Call(n, args, s) => SExpr::Call(n@, exprs_view(args@), s),
        Expr::If { cond, then_block, else_block, span } => SExpr::If {
            cond: Box::new(expr_view(*cond)),
            then_block: stmts_view(then_block.stmts@),
            else_block: match else_block {
                Some(b) => Some(Box::new(else_view(*b))),
                None => None,
            },
            span,
        },
        Expr::Assign(n, a, s) => SExpr::Assign(n@, Box::new(expr_view(*a)), s),
        Expr::Box(a, s) => SExpr::Box(Box::new(expr_view(*a)), s),
        Expr::Deref(a, s) => SExpr::Deref(Box::new(expr_view(*a)), s),
        Expr::Ref(a, s) => SExpr::Ref(Box::new(expr_view(*a)), s),
        Expr::Spawn(n, args, s) => SExpr::Spawn(n@, exprs_view(args@), s),
        Expr::Join(a, s) => SExpr::Join(Box::new(expr_view(*a)), s),
        Expr::Chan(s) => SExpr::Chan(s),
        Expr::Send(a, b, s) => SExpr::Send(Box::new(expr_view(*a)), Box::new(expr_view(*b)), s),
        Expr::Recv(a, s) => SExpr::Recv(Box::new(expr_view(*a)), s),
        Expr::SpawnSandbox(n, args, s) => SExpr::SpawnSandbox(n@, exprs_view(args@), s),
        Expr::StopSandbox(a, s) => SExpr::StopSandbox(Box::new(expr_view(*a)), s),
        Expr::Connect(a, b, s) => SExpr::Connect(
            Box::new(expr_view(*a)),
            Box::new(expr_view(*b)),
            s,
        ),
        Expr::Listen(a, s) => SExpr::Listen(Box::new(expr_view(*a)), s),
        Expr::Accept(a, s) => SExpr::Accept(Box::new(expr_view(*a)), s),
        Expr::Open(a, b, s) => SExpr::Open(Box::new(expr_view(*a)), Box::new(expr_view(*b)), s),
        Expr::Index(a, args, s) => SExpr::Index(Box::new(expr_view(*a)), exprs_view(args@), s),
        Expr::ArrayLit(args, s) => SExpr::ArrayLit(exprs_view(args@), s),
        Expr::FieldAccess(a, n, s) => SExpr::FieldAccess(Box::new(expr_view(*a)), n@, s),
        Expr::Match { scrutinee, arms, span } => SExpr::Match {
            scrutinee: Box::new(expr_view(*scrutinee)),
            arms: arms_view(arms@),
            span,
        },
        Expr::Transact { network, verify, commit, compensate, log, span } => SExpr::Transact {
            network: slot_view(network),
            verify: slot_view(verify),
            commit: slot_view(commit),
            compensate: match compensate {
                Some(s) => Some(slot_view(s)),
                None => None,
            },
            log: match log {
                Some(s) => Some(slot_view(s)),
                None => None,
            },
            span,
        },
    }
}

pub open spec fn exprs_view(v: Seq<Expr>) -> Seq<SExpr>
    decreases v,
{
    Seq::new(
        v.len(),
        |i: int|
            if 0 <= i < v.len() {
                expr_view(v[i])
            } else {
                arbitrary()
            },
    )
}

pub open spec fn else_view(b: ElseBranch) -> SElse
    decreases b,
{
    match b {
        ElseBranch::Block(b) => SElse::Block(stmts_view(b.stmts@)),
        ElseBranch::If(e) => SElse::If(expr_view(e)),
    }
}

pub open spec fn strs_view(v: Seq<String>) -> Seq<Seq<char>> {
    Seq::new(v.len(), |i: int| v[i]@)
}

pub open spec fn arm_view(a: MatchArm) -> SArm
    decreases a,
{
    SArm {
        variant: a.variant@,
        bindings: strs_view(a.bindings@),
        body: Box::new(expr_view(*a.body)),
        span: a.span,
    }
}

pub open spec fn arms_view(v: Seq<MatchArm>) -> Seq<SArm>
    decreases v,
{
    Seq::new(
        v.len(),
        |i: int|
            if 0 <= i < v.len() {
                arm_view(v[i])
            } else {
                arbitrary()
            },
    )
}

pub open spec fn slot_view(s: TransactSlot) -> SSlot
    decreases s,
{
    SSlot { name: s.name@, args: exprs_view(s.args@), span: s.span }
}

pub open spec fn stmt_view(s: Stmt) -> SStmt
    decreases s,
{
    match s {
        Stmt::Let { name, ty, value, span } => SStmt::Let {
            name: name@,
            ty: ty@,
            value: expr_view(value),
            span,
        },
        Stmt::Return { value, span } => SStmt::Return {
            value: match value {
                Some(e) => Some(expr_view(e)),
                None => None,
            },
            span,
        },
        Stmt::While { cond, body, span } => SStmt::While {
            cond: expr_view(cond),
            body: stmts_view(body.stmts@),
            span,
        },
        Stmt::Audited { justification, body, span } => SStmt::Audited {
            justification: justification@,
            body: stmts_view(body@),
            span,
        },
        Stmt::Expr(e) => SStmt::Expr(expr_view(e)),
    }
}

pub open spec fn stmts_view(v: Seq<Stmt>) -> Seq<SStmt>
    decreases v,
{
    Seq::new(
        v.len(),
        |i: int|
            if 0 <= i < v.len() {
                stmt_view(v[i])
            } else {
                arbitrary()
            },
    )
}

impl View for Expr {
    type V = SExpr;

    open spec fn view(&self) -> SExpr {
        expr_view(*self)
    }
}

impl View for Stmt {
    type V = SStmt;

    open spec fn view(&self) -> SStmt {
        stmt_view(*self)
    }
}

impl View for Block {
    type V = Seq<SStmt>;

    open spec fn view(&self) -> Seq<SStmt> {
        stmts_view(self.stmts@)
    }
}

impl View for TransactSlot {
    type V = SSlot;

    open spec fn view(&self) -> SSlot {
        slot_view(*self)
    }
}

pub open spec fn params_view(v: Seq<Param>) -> Seq<STyped> {
    Seq::new(v.len(), |i: int| STyped { name: v[i].name@, ty: v[i].ty@ })
}

pub open spec fn fields_view(v: Seq<Field>) -> Seq<STyped> {
    Seq::new(v.len(), |i: int| STyped { name: v[i].name@, ty: v[i].ty@ })
}

impl View for StructDecl {
    type V = SStruct;

    open spec fn view(&self) -> SStruct {
        SStruct { name: self.name@, fields: fields_view(self.fields@), span: self.span }
    }
}

impl View for Variant {
    type V = SVariant;

    open spec fn view(&self) -> SVariant {
        SVariant { name: self.name@, payload: tys_view(self.payload@), span: self.span }
    }
}

pub open spec fn variants_view(v: Seq<Variant>) -> Seq<SVariant> {
    Seq::new(v.len(), |i: int| v[i]@)
}

impl View for EnumDecl {
    type V = SEnum;

    open spec fn view(&self) -> SEnum {
        SEnum { name: self.name@, variants: variants_view(self.variants@), span: self.span }
    }
}

impl View for Requirement {
    type V = SRequirement;

    open spec fn view(&self) -> SRequirement {
        match *self {
            Requirement::Role(r) => SRequirement::Role(r@),
            Requirement::Claim(k, v) => SRequirement::Claim(k@, v@),
        }
    }
}

impl View for FnDecl {
    type V = SFn;

    open spec fn view(&self) -> SFn {
        SFn {
            name: self.name@,
            params: params_view(self.params@),
            ret: self.ret@,
            body: stmts_view(self.body.stmts@),
            span: self.span,
            declared_effects: self.declared_effects,
            requirement: match self.requirement {
                Some(r) => Some(r@),
                None => None,
            },
        }
    }
}

pub open spec fn fns_view(v: Seq<FnDecl>) -> Seq<SFn> {
    Seq::new(v.len(), |i: int| v[i]@)
}

pub open spec fn structs_view(v: Seq<StructDecl>) -> Seq<SStruct> {
    Seq::new(v.len(), |i: int| v[i]@)
}

pub open spec fn enums_view(v: Seq<EnumDecl>) -> Seq<SEnum> {
    Seq::new(v.len(), |i: int| v[i]@)
}

impl View for Program {
    type V = SProgram;

    open spec fn view(&self) -> SProgram {
        SProgram {
            fns: fns_view(self.fns@),
            structs: structs_view(self.structs@),
            enums: enums_view(self.enums@),
        }
    }
}

} // verus!
