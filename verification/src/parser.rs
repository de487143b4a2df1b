//! Recursive-descent parser. Every function looks at one token before it
//! decides, and never puts a token back.
use crate::ast::{
    BinOp, Block, EffectSet, ElseBranch, EnumDecl, Expr, Field, FnDecl, MatchArm, Param, Program,
    Stmt, StructDecl, TransactSlot, Ty, UnOp, Variant, STy, tys_view,
};
use crate::grammar;
use crate::grammar::Out;
use crate::text::{cat3, cat5, dec_i64, same};
use crate::token::{bare, shown, stream, tokens, SErr, STok, SToken, Span, Tok, Token};
use crate::tree::{
    arms_view, else_view, enums_view, exprs_view, fields_view, fns_view, params_view, stmts_view, strs_view,
    structs_view, variants_view, SArm, SElse, SExpr, SProgram, SSlot, SVariant, SStmt, STyped,
};
use vstd::prelude::*;
use vstd::string::*;

verus! {

#[derive(Debug, Clone)]
pub struct ParseError {
    pub message: String,
    pub span: Span,
}

impl View for ParseError {
    type V = SErr;

    open spec fn view(&self) -> SErr {
        SErr { message: self.message@, span: self.span }
    }
}

/// A position in a token stream.
pub struct Parser {
    toks: Vec<Token>,
    pos: usize,
}

/// The result that the grammar gives, by view, with the position reached.
pub open spec fn meets<E: View>(r: Result<E, ParseError>, s: Out<E::V>, q: int) -> bool {
    match r {
        Ok(e) => s == Out::Got(e@, q),
        Err(x) => s == Out::<E::V>::Bad(x@, q),
    }
}

impl Parser {
    pub closed spec fn ts(&self) -> Seq<SToken> {
        tokens(self.toks@)
    }

    pub closed spec fn at(&self) -> int {
        self.pos as int
    }

    pub open spec fn wf(&self) -> bool {
        stream(self.ts()) && 0 <= self.at() < self.ts().len()
    }

    pub open spec fn left(&self) -> nat {
        (self.ts().len() - self.at()) as nat
    }

    /// A parser at the start of a token stream.
    pub fn new(toks: Vec<Token>) -> (r: Self)
        requires
            stream(tokens(toks@)),
        ensures
            r.wf(),
            r.ts() == tokens(toks@),
            r.at() == 0,
    {
        proof {
            reveal(stream);
        }
        Parser { toks, pos: 0 }
    }

    fn peek(&self) -> (r: &Token)
        requires
            self.wf(),
        ensures
            r@ == self.ts()[self.at()],
            r.tok@ == grammar::kind(self.ts(), self.at()),
            r.span == grammar::here(self.ts(), self.at()),
    {
        &self.toks[self.pos]
    }

    fn span(&self) -> (r: Span)
        requires
            self.wf(),
        ensures
            r == grammar::here(self.ts(), self.at()),
    {
        self.peek().span
    }

    /// Passes over a token that is not the last.
    fn bump(&mut self)
        requires
            old(self).wf(),
            grammar::kind(old(self).ts(), old(self).at()) != STok::Plain(Tok::Eof),
        ensures
            final(self).wf(),
            final(self).ts() == old(self).ts(),
            final(self).at() == old(self).at() + 1,
    {
        proof {
            reveal(stream);
            assert(self.pos + 1 < self.toks.len());
        }
        self.pos = self.pos + 1;
    }

    /// Whether the token at the position is `t`.
    fn on(&self, t: &Tok) -> (r: bool)
        requires
            self.wf(),
            bare(*t),
        ensures
            r == grammar::at(self.ts(), self.at(), *t),
    {
        self.peek().tok.is_plain(t)
    }

    /// The error for a token that does not fit.
    fn wrong(&self, message: &str) -> (r: ParseError)
        requires
            self.wf(),
        ensures
            r@ == (SErr {
                message: message@ + ", found "@ + shown(grammar::kind(self.ts(), self.at())),
                span: grammar::here(self.ts(), self.at()),
            }),
    {
        let t = self.peek().tok.show();
        ParseError { message: cat3(message, ", found ", t.as_str()), span: self.span() }
    }

    /// Exactly the token `t`, which is handed back with its place. The end of the
    /// stream is not passed over.
    pub fn expect(&mut self, t: Tok, what: &str) -> (r: Result<Token, ParseError>)
        requires
            old(self).wf(),
        ensures
            final(self).wf(),
            final(self).ts() == old(self).ts(),
            r is Ok == (grammar::kind(old(self).ts(), old(self).at()) == t@),
            match r {
                Ok(x) => x@ == old(self).ts()[old(self).at()] && final(self).at()
                    == old(self).at() + if t@ == STok::Plain(Tok::Eof) {
                    0int
                } else {
                    1int
                },
                Err(x) => final(self).at() == old(self).at() && x@ == (SErr {
                    message: "expected "@ + what@ + ", found "@ + shown(
                        grammar::kind(old(self).ts(), old(self).at()),
                    ),
                    span: grammar::here(old(self).ts(), old(self).at()),
                }),
            },
            bare(t) && t != Tok::Eof ==> match r {
                Ok(_) => grammar::want(old(self).ts(), old(self).at(), t, what@) == Out::Got(
                    (),
                    final(self).at(),
                ),
                Err(x) => grammar::want(old(self).ts(), old(self).at(), t, what@)
                    == Out::<()>::Bad(x@, final(self).at()),
            },
    {
        if self.peek().tok.is_tok(&t) {
            let span = self.span();
            match t {
                Tok::Eof => {}
                _ => {
                    self.bump();
                }
            }
            Ok(Token { tok: t, span })
        } else {
            let m = crate::text::cat2("expected ", what);
            Err(self.wrong(m.as_str()))
        }
    }

    fn expect_ident(&mut self) -> (r: Result<String, ParseError>)
        requires
            old(self).wf(),
        ensures
            final(self).wf(),
            final(self).ts() == old(self).ts(),
            meets(r, grammar::ident(old(self).ts(), old(self).at()), final(self).at()),
            r is Ok ==> final(self).at() == old(self).at() + 1,
    {
        match &self.peek().tok {
            Tok::Ident(s) => {
                let name = s.clone();
                self.bump();
                Ok(name)
            }
            _ => Err(self.wrong("expected identifier")),
        }
    }

    /// A dimension of a vector or matrix type: a literal, never an expression.
    fn expect_usize_literal(&mut self) -> (r: Result<usize, ParseError>)
        requires
            old(self).wf(),
        ensures
            final(self).wf(),
            final(self).ts() == old(self).ts(),
            match r {
                Ok(n) => grammar::dimension(old(self).ts(), old(self).at()) == Out::Got(
                    n,
                    final(self).at(),
                ) && final(self).at() == old(self).at() + 1,
                Err(x) => grammar::dimension(old(self).ts(), old(self).at()) == Out::<usize>::Bad(
                    x@,
                    final(self).at(),
                ),
            },
    {
        let span = self.span();
        match &self.peek().tok {
            Tok::Int(n) => {
                let n: i64 = *n;
                self.bump();
                if 0 <= n && n as u64 <= usize::MAX as u64 {
                    Ok(n as usize)
                } else {
                    let d = dec_i64(n);
                    let message = cat3(
                        "`",
                        d.as_str(),
                        "` is not a valid Vector/Matrix dimension (must be non-negative)",
                    );
                    Err(ParseError { message, span })
                }
            }
            _ => Err(self.wrong("expected a dimension")),
        }
    }

    /// A type.
    pub fn expect_type(&mut self) -> (r: Result<Ty, ParseError>)
        requires
            old(self).wf(),
        ensures
            final(self).wf(),
            final(self).ts() == old(self).ts(),
            meets(r, grammar::ty(old(self).ts(), old(self).at()), final(self).at()),
            r is Ok ==> old(self).at() < final(self).at(),
        decreases old(self).left(),
    {
        match &self.peek().tok {
            Tok::Amp => {
                self.bump();
                let inner = self.expect_type()?;
                Ok(Ty::Ref(Box::new(inner)))
            }
            Tok::Box => {
                self.bump();
                let inner = self.expect_type()?;
                Ok(Ty::Box(Box::new(inner)))
            }
            Tok::Thread => {
                self.bump();
                let inner = self.expect_type()?;
                Ok(Ty::Thread(Box::new(inner)))
            }
            Tok::Chan => {
                self.bump();
                let inner = self.expect_type()?;
                Ok(Ty::Channel(Box::new(inner)))
            }
            Tok::Sandbox => {
                self.bump();
                Ok(Ty::Sandbox)
            }
            Tok::VectorKw => {
                self.bump();
                self.expect(Tok::LParen, "`(`")?;
                let elem = self.expect_type()?;
                self.expect(Tok::Comma, "`,`")?;
                let n = self.expect_usize_literal()?;
                self.expect(Tok::RParen, "`)`")?;
                Ok(Ty::Vector(Box::new(elem), n))
            }
            Tok::MatrixKw => {
                self.bump();
                self.expect(Tok::LParen, "`(`")?;
                let elem = self.expect_type()?;
                self.expect(Tok::Comma, "`,`")?;
                let rows = self.expect_usize_literal()?;
                self.expect(Tok::Comma, "`,`")?;
                let cols = self.expect_usize_literal()?;
                self.expect(Tok::RParen, "`)`")?;
                Ok(Ty::Matrix(Box::new(elem), rows, cols))
            }
            Tok::TypeName(name) => {
                match Ty::from_name(name.as_str()) {
                    Some(t) => {
                        self.bump();
                        Ok(t)
                    }
                    None => Err(self.wrong("expected a type")),
                }
            }
            Tok::Ident(name) => {
                let n = name.clone();
                self.bump();
                let args: Vec<Ty> = Vec::new();
                proof {
                    assert(tys_view(args@) =~= Seq::<STy>::empty());
                }
                Ok(Ty::Named(n, args))
            }
            _ => Err(self.wrong("expected a type")),
        }
    }

    /// The binary operator at the position, where it is one of this level.
    fn operator(&self, level: u8) -> (r: Option<BinOp>)
        requires
            self.wf(),
        ensures
            r == grammar::op_at(level as nat, grammar::kind(self.ts(), self.at())),
    {
        match &self.peek().tok {
            Tok::OrOr => if level == 6 { Some(BinOp::Or) } else { None },
            Tok::AndAnd => if level == 5 { Some(BinOp::And) } else { None },
            Tok::EqEq => if level == 4 { Some(BinOp::Eq) } else { None },
            Tok::NotEq => if level == 4 { Some(BinOp::NotEq) } else { None },
            Tok::Lt => if level == 3 { Some(BinOp::Lt) } else { None },
            Tok::Gt => if level == 3 { Some(BinOp::Gt) } else { None },
            Tok::LtEq => if level == 3 { Some(BinOp::LtEq) } else { None },
            Tok::GtEq => if level == 3 { Some(BinOp::GtEq) } else { None },
            Tok::Plus => if level == 2 { Some(BinOp::Add) } else { None },
            Tok::Minus => if level == 2 { Some(BinOp::Sub) } else { None },
            Tok::Star => if level == 1 { Some(BinOp::Mul) } else { None },
            Tok::Slash => if level == 1 { Some(BinOp::Div) } else { None },
            Tok::DotStar => if level == 1 { Some(BinOp::ElemMul) } else { None },
            Tok::DotSlash => if level == 1 { Some(BinOp::ElemDiv) } else { None },
            _ => None,
        }
    }

    fn parse_expr(&mut self) -> (r: Result<Expr, ParseError>)
        requires
            old(self).wf(),
        ensures
            final(self).wf(),
            final(self).ts() == old(self).ts(),
            meets(r, grammar::expr(old(self).ts(), old(self).at()), final(self).at()),
            r is Ok ==> old(self).at() < final(self).at(),
        decreases old(self).left(), 30nat,
    {
        if self.on(&Tok::If) {
            self.parse_if_expr()
        } else if self.on(&Tok::Transact) {
            self.parse_transact_expr()
        } else if self.on(&Tok::Match) {
            self.parse_match_expr()
        } else {
            self.parse_assignment()
        }
    }

    fn parse_if_expr(&mut self) -> (r: Result<Expr, ParseError>)
        requires
            old(self).wf(),
        ensures
            final(self).wf(),
            final(self).ts() == old(self).ts(),
            meets(r, grammar::if_expr(old(self).ts(), old(self).at()), final(self).at()),
            r is Ok ==> old(self).at() < final(self).at(),
        decreases old(self).left(), 29nat,
    {
        let span = self.span();
        self.expect(Tok::If, "`if`")?;
        let cond = self.parse_expr()?;
        let then_block = self.parse_block()?;
        let else_block = self.parse_else()?;
        Ok(Expr::If { cond: Box::new(cond), then_block, else_block, span })
    }

    fn parse_else(&mut self) -> (r: Result<Option<Box<ElseBranch>>, ParseError>)
        requires
            old(self).wf(),
        ensures
            final(self).wf(),
            final(self).ts() == old(self).ts(),
            match r {
                Ok(v) => grammar::else_part(old(self).ts(), old(self).at()) == Out::Got(
                    match v {
                        Some(b) => Some(Box::new(else_view(*b))),
                        None => None,
                    },
                    final(self).at(),
                ),
                Err(x) => grammar::else_part(old(self).ts(), old(self).at()) == Out::<
                    Option<Box<SElse>>,
                >::Bad(x@, final(self).at()),
            },
            r is Ok ==> old(self).at() <= final(self).at(),
        decreases old(self).left(), 35nat,
    {
        if !self.on(&Tok::Else) {
            return Ok(None);
        }
        self.bump();
        if self.on(&Tok::If) {
            let e = self.parse_if_expr()?;
            Ok(Some(Box::new(ElseBranch::If(e))))
        } else {
            let b = self.parse_block()?;
            Ok(Some(Box::new(ElseBranch::Block(b))))
        }
    }

    /// The names that an arm binds.
    fn parse_binders(&mut self) -> (r: Result<Vec<String>, ParseError>)
        requires
            old(self).wf(),
        ensures
            final(self).wf(),
            final(self).ts() == old(self).ts(),
            match r {
                Ok(v) => grammar::binders(old(self).ts(), old(self).at()) == Out::Got(
                    strs_view(v@),
                    final(self).at(),
                ) && old(self).at() <= final(self).at(),
                Err(x) => grammar::binders(old(self).ts(), old(self).at()) == Out::<
                    Seq<Seq<char>>,
                >::Bad(x@, final(self).at()),
            },
    {
        let ghost ts = self.ts();
        let ghost start = self.at();
        let mut names: Vec<String> = Vec::new();
        proof {
            assert(strs_view(names@) =~= Seq::<Seq<char>>::empty());
        }
        if !self.on(&Tok::LParen) {
            return Ok(names);
        }
        self.bump();
        if !self.on(&Tok::RParen) {
            let ghost goal = grammar::idents(ts, Seq::empty(), self.at());
            loop
                invariant_except_break
                    goal == grammar::idents(ts, strs_view(names@), self.at()),
                invariant
                    self.wf(),
                    self.ts() == ts,
                    start < self.at(),
                    goal == grammar::idents(ts, Seq::empty(), start + 1),
                    grammar::binders(ts, start) == (match goal {
                        Out::Bad(e, q) => Out::Bad(e, q),
                        Out::Got(v, q) => match grammar::want(ts, q, Tok::RParen, "`)`"@) {
                            Out::Bad(e, q) => Out::Bad(e, q),
                            Out::Got(_, q) => Out::Got(v, q),
                        },
                    }),
                    old(self).ts() == ts,
                    old(self).at() == start,
                ensures
                    goal == Out::Got(strs_view(names@), self.at()),
                decreases self.left(),
            {
                let ghost before = names@;
                let n = self.expect_ident()?;
                names.push(n);
                proof {
                    assert(strs_view(names@) =~= strs_view(before).push(n@));
                }
                if self.on(&Tok::Comma) {
                    self.bump();
                } else {
                    break;
                }
            }
        }
        self.expect(Tok::RParen, "`)`")?;
        Ok(names)
    }

    fn parse_arms(&mut self) -> (r: Result<Vec<MatchArm>, ParseError>)
        requires
            old(self).wf(),
        ensures
            final(self).wf(),
            final(self).ts() == old(self).ts(),
            match r {
                Ok(v) => grammar::arms(old(self).ts(), Seq::empty(), old(self).at()) == Out::Got(
                    arms_view(v@),
                    final(self).at(),
                ) && old(self).at() < final(self).at(),
                Err(x) => grammar::arms(old(self).ts(), Seq::empty(), old(self).at()) == Out::<
                    Seq<SArm>,
                >::Bad(x@, final(self).at()),
            },
        decreases old(self).left(), 31nat,
    {
        let ghost ts = self.ts();
        let ghost start = self.at();
        let mut v: Vec<MatchArm> = Vec::new();
        let ghost goal = grammar::arms(ts, Seq::empty(), start);
        proof {
            assert(arms_view(v@) =~= Seq::<SArm>::empty());
        }
        loop
            invariant_except_break
                goal == grammar::arms(ts, arms_view(v@), self.at()),
            invariant
                self.wf(),
                self.ts() == ts,
                start <= self.at(),
                old(self).ts() == ts,
                old(self).at() == start,
                goal == grammar::arms(ts, Seq::empty(), start),
            ensures
                goal == Out::Got(arms_view(v@), self.at()),
                start < self.at(),
            decreases self.left(),
        {
            let ghost before = v@;
            let span = self.span();
            let variant = self.expect_ident()?;
            let bindings = self.parse_binders()?;
            self.expect(Tok::FatArrow, "`=>`")?;
            let body = Box::new(self.parse_expr()?);
            let arm = MatchArm { variant, bindings, body, span };
            v.push(arm);
            proof {
                assert(arms_view(v@) =~= arms_view(before).push(crate::tree::arm_view(arm)));
            }
            if self.on(&Tok::Comma) {
                self.bump();
                if self.on(&Tok::RBrace) {
                    break;
                }
            } else {
                break;
            }
        }
        Ok(v)
    }

    fn parse_match_expr(&mut self) -> (r: Result<Expr, ParseError>)
        requires
            old(self).wf(),
        ensures
            final(self).wf(),
            final(self).ts() == old(self).ts(),
            meets(r, grammar::match_expr(old(self).ts(), old(self).at()), final(self).at()),
            r is Ok ==> old(self).at() < final(self).at(),
        decreases old(self).left(), 29nat,
    {
        let span = self.span();
        self.expect(Tok::Match, "`match`")?;
        let scrutinee = Box::new(self.parse_expr()?);
        self.expect(Tok::LBrace, "`{`")?;
        let arms = self.parse_arms()?;
        self.expect(Tok::RBrace, "`}`")?;
        Ok(Expr::Match { scrutinee, arms, span })
    }

    fn parse_transact_slot(&mut self, label: &str) -> (r: Result<TransactSlot, ParseError>)
        requires
            old(self).wf(),
        ensures
            final(self).wf(),
            final(self).ts() == old(self).ts(),
            meets(r, grammar::slot(old(self).ts(), old(self).at(), label@), final(self).at()),
            r is Ok ==> old(self).at() < final(self).at(),
        decreases old(self).left(), 29nat,
    {
        let span = self.span();
        if !self.labelled(label) {
            let m = cat3("expected `", label, "` in `transact`");
            return Err(self.wrong(m.as_str()));
        }
        self.bump();
        self.expect(Tok::Colon, "`:`")?;
        let call = self.parse_call()?;
        match call {
            Expr::Call(name, args, call_span) => Ok(TransactSlot { name, args, span: call_span }),
            _ => {
                let message = cat5(
                    "`",
                    label,
                    "` in `transact` requires a plain function call, e.g. `",
                    label,
                    ": worker(x)`",
                );
                Err(ParseError { message, span })
            }
        }
    }

    /// Whether the token at the position is the name `label`.
    fn labelled(&self, label: &str) -> (r: bool)
        requires
            self.wf(),
        ensures
            r == (grammar::kind(self.ts(), self.at()) == STok::Ident(label@)),
    {
        match &self.peek().tok {
            Tok::Ident(s) => same(s.as_str(), label),
            _ => false,
        }
    }

    fn parse_optional_transact_slot(&mut self, label: &str) -> (r: Result<
        Option<TransactSlot>,
        ParseError,
    >)
        requires
            old(self).wf(),
        ensures
            final(self).wf(),
            final(self).ts() == old(self).ts(),
            match r {
                Ok(s) => grammar::maybe_slot(old(self).ts(), old(self).at(), label@) == Out::Got(
                    match s {
                        Some(x) => Some(x@),
                        None => None,
                    },
                    final(self).at(),
                ) && old(self).at() <= final(self).at(),
                Err(x) => grammar::maybe_slot(old(self).ts(), old(self).at(), label@) == Out::<
                    Option<crate::tree::SSlot>,
                >::Bad(x@, final(self).at()),
            },
        decreases old(self).left(), 30nat,
    {
        if self.labelled(label) {
            let s = self.parse_transact_slot(label)?;
            Ok(Some(s))
        } else {
            Ok(None)
        }
    }

    fn parse_slots(&mut self) -> (r: Result<(TransactSlot, TransactSlot, TransactSlot), ParseError>)
        requires
            old(self).wf(),
        ensures
            final(self).wf(),
            final(self).ts() == old(self).ts(),
            match r {
                Ok(v) => grammar::slots(old(self).ts(), old(self).at()) == Out::Got(
                    (v.0@, v.1@, v.2@),
                    final(self).at(),
                ),
                Err(x) => grammar::slots(old(self).ts(), old(self).at()) == Out::<
                    (SSlot, SSlot, SSlot),
                >::Bad(x@, final(self).at()),
            },
            r is Ok ==> old(self).at() < final(self).at(),
        decreases old(self).left(), 30nat,
    {
        let network = self.parse_transact_slot("network")?;
        let verify = self.parse_transact_slot("verify")?;
        let commit = self.parse_transact_slot("commit")?;
        Ok((network, verify, commit))
    }

    fn parse_optional_slots(&mut self) -> (r: Result<(Option<TransactSlot>, Option<TransactSlot>), ParseError>)
        requires
            old(self).wf(),
        ensures
            final(self).wf(),
            final(self).ts() == old(self).ts(),
            match r {
                Ok(v) => grammar::maybe_slots(old(self).ts(), old(self).at()) == Out::Got(
                    (
                        match v.0 {
                            Some(x) => Some(x@),
                            None => None,
                        },
                        match v.1 {
                            Some(x) => Some(x@),
                            None => None,
                        },
                    ),
                    final(self).at(),
                ),
                Err(x) => grammar::maybe_slots(old(self).ts(), old(self).at()) == Out::<
                    (Option<SSlot>, Option<SSlot>),
                >::Bad(x@, final(self).at()),
            },
            r is Ok ==> old(self).at() <= final(self).at(),
        decreases old(self).left(), 31nat,
    {
        let compensate = self.parse_optional_transact_slot("compensate")?;
        let log = self.parse_optional_transact_slot("log")?;
        Ok((compensate, log))
    }

    fn parse_transact_expr(&mut self) -> (r: Result<Expr, ParseError>)
        requires
            old(self).wf(),
        ensures
            final(self).wf(),
            final(self).ts() == old(self).ts(),
            meets(r, grammar::transact(old(self).ts(), old(self).at()), final(self).at()),
            r is Ok ==> old(self).at() < final(self).at(),
        decreases old(self).left(), 29nat,
    {
        let span = self.span();
        self.expect(Tok::Transact, "`transact`")?;
        self.expect(Tok::LBrace, "`{`")?;
        let (network, verify, commit) = self.parse_slots()?;
        let (compensate, log) = self.parse_optional_slots()?;
        self.expect(Tok::RBrace, "`}`")?;
        Ok(transaction(network, verify, commit, compensate, log, span))
    }

    fn parse_assignment(&mut self) -> (r: Result<Expr, ParseError>)
        requires
            old(self).wf(),
        ensures
            final(self).wf(),
            final(self).ts() == old(self).ts(),
            meets(r, grammar::assignment(old(self).ts(), old(self).at()), final(self).at()),
            r is Ok ==> old(self).at() < final(self).at(),
        decreases old(self).left(), 28nat,
    {
        let lhs = self.parse_binary(6)?;
        if self.on(&Tok::Assign) {
            let eq_span = self.span();
            match lhs {
                Expr::Ident(name, span) => {
                    self.bump();
                    let rhs = self.parse_assignment()?;
                    Ok(Expr::Assign(name, Box::new(rhs), span))
                }
                _ => Err(
                    ParseError {
                        message: "left-hand side of `=` must be a plain variable name".to_owned(),
                        span: eq_span,
                    },
                ),
            }
        } else {
            Ok(lhs)
        }
    }

    /// Operators of one level of precedence and of the tighter ones.
    fn parse_binary(&mut self, level: u8) -> (r: Result<Expr, ParseError>)
        requires
            old(self).wf(),
            level <= 6,
        ensures
            final(self).wf(),
            final(self).ts() == old(self).ts(),
            meets(
                r,
                grammar::binary(old(self).ts(), old(self).at(), level as nat),
                final(self).at(),
            ),
            r is Ok ==> old(self).at() < final(self).at(),
        decreases old(self).left(), 12 + level as nat,
    {
        if level == 0 {
            return self.parse_unary();
        }
        let ghost ts = self.ts();
        let ghost start = self.at();
        let mut lhs = self.parse_binary(level - 1)?;
        let ghost goal = grammar::binary(ts, start, level as nat);
        loop
            invariant_except_break
                goal == grammar::operands(ts, lhs@, self.at(), level as nat),
            invariant
                self.wf(),
                self.ts() == ts,
                start < self.at(),
                old(self).ts() == ts,
                old(self).at() == start,
                1 <= level <= 6,
                goal == grammar::binary(ts, start, level as nat),
            ensures
                goal == Out::Got(lhs@, self.at()),
            decreases self.left(),
        {
            match self.operator(level) {
                None => {
                    break;
                }
                Some(op) => {
                    let span = self.span();
                    self.bump();
                    let rhs = self.parse_binary(level - 1)?;
                    lhs = Expr::Binary(op, Box::new(lhs), Box::new(rhs), span);
                }
            }
        }
        Ok(lhs)
    }

    fn parse_parens1(&mut self) -> (r: Result<Expr, ParseError>)
        requires
            old(self).wf(),
        ensures
            final(self).wf(),
            final(self).ts() == old(self).ts(),
            meets(r, grammar::parens1(old(self).ts(), old(self).at()), final(self).at()),
            r is Ok ==> old(self).at() < final(self).at(),
        decreases old(self).left(), 31nat,
    {
        self.expect(Tok::LParen, "`(`")?;
        let a = self.parse_expr()?;
        self.expect(Tok::RParen, "`)`")?;
        Ok(a)
    }

    fn parse_parens2(&mut self) -> (r: Result<(Expr, Expr), ParseError>)
        requires
            old(self).wf(),
        ensures
            final(self).wf(),
            final(self).ts() == old(self).ts(),
            meets(r, grammar::parens2(old(self).ts(), old(self).at()), final(self).at()),
            r is Ok ==> old(self).at() < final(self).at(),
        decreases old(self).left(), 31nat,
    {
        self.expect(Tok::LParen, "`(`")?;
        let a = self.parse_expr()?;
        self.expect(Tok::Comma, "`,`")?;
        let b = self.parse_expr()?;
        self.expect(Tok::RParen, "`)`")?;
        Ok((a, b))
    }

    fn parse_prefix(&mut self) -> (r: Result<Expr, ParseError>)
        requires
            old(self).wf(),
            grammar::prefixed(grammar::kind(old(self).ts(), old(self).at()), arbitrary(), arbitrary()) is Some,
        ensures
            final(self).wf(),
            final(self).ts() == old(self).ts(),
            meets(r, grammar::unary(old(self).ts(), old(self).at()), final(self).at()),
            r is Ok ==> old(self).at() < final(self).at(),
        decreases old(self).left(), 10nat,
    {
        let span = self.span();
        let unary_op = if self.on(&Tok::Bang) {
            Some(UnOp::Not)
        } else if self.on(&Tok::Minus) {
            Some(UnOp::Neg)
        } else {
            None
        };
        let deref = self.on(&Tok::Star);
        let boxed = self.on(&Tok::Box);
        let join = self.on(&Tok::Join);
        self.bump();
        let e = self.parse_unary()?;
        match unary_op {
            Some(op) => Ok(Expr::Unary(op, Box::new(e), span)),
            None => if deref {
                Ok(Expr::Deref(Box::new(e), span))
            } else if boxed {
                Ok(Expr::Box(Box::new(e), span))
            } else if join {
                Ok(Expr::Join(Box::new(e), span))
            } else {
                Ok(Expr::StopSandbox(Box::new(e), span))
            },
        }
    }

    fn parse_borrow(&mut self) -> (r: Result<Expr, ParseError>)
        requires
            old(self).wf(),
            grammar::at(old(self).ts(), old(self).at(), Tok::Amp),
        ensures
            final(self).wf(),
            final(self).ts() == old(self).ts(),
            meets(r, grammar::unary(old(self).ts(), old(self).at()), final(self).at()),
            r is Ok ==> old(self).at() < final(self).at(),
        decreases old(self).left(), 10nat,
    {
        let span = self.span();
        self.bump();
        let operand = self.parse_unary()?;
        match operand {
            Expr::Ident(name, at) => Ok(Expr::Ref(Box::new(Expr::Ident(name, at)), span)),
            _ => Err(
                ParseError {
                    message: "`&` can only borrow a plain variable name".to_owned(),
                    span,
                },
            ),
        }
    }

    fn parse_spawn(&mut self) -> (r: Result<Expr, ParseError>)
        requires
            old(self).wf(),
            grammar::at(old(self).ts(), old(self).at(), Tok::Spawn),
        ensures
            final(self).wf(),
            final(self).ts() == old(self).ts(),
            meets(r, grammar::unary(old(self).ts(), old(self).at()), final(self).at()),
            r is Ok ==> old(self).at() < final(self).at(),
        decreases old(self).left(), 10nat,
    {
        let span = self.span();
        self.bump();
        let operand = self.parse_call()?;
        match operand {
            Expr::Call(name, args, _) => Ok(Expr::Spawn(name, args, span)),
            _ => Err(
                ParseError {
                    message: "`spawn` requires a function call, e.g. `spawn worker(x)`".to_owned(),
                    span,
                },
            ),
        }
    }

    fn parse_sandbox(&mut self) -> (r: Result<Expr, ParseError>)
        requires
            old(self).wf(),
            grammar::at(old(self).ts(), old(self).at(), Tok::Sandbox),
        ensures
            final(self).wf(),
            final(self).ts() == old(self).ts(),
            meets(r, grammar::unary(old(self).ts(), old(self).at()), final(self).at()),
            r is Ok ==> old(self).at() < final(self).at(),
        decreases old(self).left(), 10nat,
    {
        let span = self.span();
        self.bump();
        let operand = self.parse_call()?;
        match operand {
            Expr::Call(name, args, _) => Ok(Expr::SpawnSandbox(name, args, span)),
            _ => Err(
                ParseError {
                    message:
                        "`sandbox` requires a function call, e.g. `sandbox worker(x)`".to_owned(),
                    span,
                },
            ),
        }
    }

    fn parse_form1(&mut self) -> (r: Result<Expr, ParseError>)
        requires
            old(self).wf(),
            grammar::form1(grammar::kind(old(self).ts(), old(self).at())),
        ensures
            final(self).wf(),
            final(self).ts() == old(self).ts(),
            meets(r, grammar::unary(old(self).ts(), old(self).at()), final(self).at()),
            r is Ok ==> old(self).at() < final(self).at(),
        decreases old(self).left(), 10nat,
    {
        let span = self.span();
        let recv = self.on(&Tok::Recv);
        let listen = self.on(&Tok::Listen);
        self.bump();
        let a = self.parse_parens1()?;
        if recv {
            Ok(Expr::Recv(Box::new(a), span))
        } else if listen {
            Ok(Expr::Listen(Box::new(a), span))
        } else {
            Ok(Expr::Accept(Box::new(a), span))
        }
    }

    fn parse_form2(&mut self) -> (r: Result<Expr, ParseError>)
        requires
            old(self).wf(),
            grammar::form2(grammar::kind(old(self).ts(), old(self).at())),
        ensures
            final(self).wf(),
            final(self).ts() == old(self).ts(),
            meets(r, grammar::unary(old(self).ts(), old(self).at()), final(self).at()),
            r is Ok ==> old(self).at() < final(self).at(),
        decreases old(self).left(), 10nat,
    {
        let span = self.span();
        let send = self.on(&Tok::Send);
        let connect = self.on(&Tok::Connect);
        self.bump();
        let (a, b) = self.parse_parens2()?;
        if send {
            Ok(Expr::Send(Box::new(a), Box::new(b), span))
        } else if connect {
            Ok(Expr::Connect(Box::new(a), Box::new(b), span))
        } else {
            Ok(Expr::Open(Box::new(a), Box::new(b), span))
        }
    }

    pub fn parse_unary(&mut self) -> (r: Result<Expr, ParseError>)
        requires
            old(self).wf(),
        ensures
            final(self).wf(),
            final(self).ts() == old(self).ts(),
            meets(r, grammar::unary(old(self).ts(), old(self).at()), final(self).at()),
            r is Ok ==> old(self).at() < final(self).at(),
        decreases old(self).left(), 11nat,
    {
        match &self.peek().tok {
            Tok::Bang | Tok::Minus | Tok::Star | Tok::Box | Tok::Join | Tok::Stop => {
                self.parse_prefix()
            }
            Tok::Amp => self.parse_borrow(),
            Tok::Spawn => self.parse_spawn(),
            Tok::Sandbox => self.parse_sandbox(),
            Tok::Chan => {
                let span = self.span();
                self.bump();
                Ok(Expr::Chan(span))
            }
            Tok::Recv | Tok::Listen | Tok::Accept => self.parse_form1(),
            Tok::Send | Tok::Connect | Tok::Open => self.parse_form2(),
            _ => self.parse_call(),
        }
    }

    /// One expression or more, separated by commas.
    fn parse_exprs(&mut self) -> (r: Result<Vec<Expr>, ParseError>)
        requires
            old(self).wf(),
        ensures
            final(self).wf(),
            final(self).ts() == old(self).ts(),
            match r {
                Ok(v) => grammar::exprs(old(self).ts(), Seq::empty(), old(self).at()) == Out::Got(
                    exprs_view(v@),
                    final(self).at(),
                ) && old(self).at() < final(self).at(),
                Err(x) => grammar::exprs(old(self).ts(), Seq::empty(), old(self).at()) == Out::<
                    Seq<SExpr>,
                >::Bad(x@, final(self).at()),
            },
        decreases old(self).left(), 31nat,
    {
        let ghost ts = self.ts();
        let ghost start = self.at();
        let mut v: Vec<Expr> = Vec::new();
        let ghost goal = grammar::exprs(ts, Seq::empty(), start);
        proof {
            assert(exprs_view(v@) =~= Seq::<SExpr>::empty());
        }
        loop
            invariant_except_break
                goal == grammar::exprs(ts, exprs_view(v@), self.at()),
            invariant
                self.wf(),
                self.ts() == ts,
                start <= self.at(),
                old(self).ts() == ts,
                old(self).at() == start,
                goal == grammar::exprs(ts, Seq::empty(), start),
            ensures
                goal == Out::Got(exprs_view(v@), self.at()),
                start < self.at(),
            decreases self.left(),
        {
            let ghost before = v@;
            let e = self.parse_expr()?;
            v.push(e);
            proof {
                assert(exprs_view(v@) =~= exprs_view(before).push(e@));
            }
            if self.on(&Tok::Comma) {
                self.bump();
            } else {
                break;
            }
        }
        Ok(v)
    }

    fn parse_arguments(&mut self) -> (r: Result<Vec<Expr>, ParseError>)
        requires
            old(self).wf(),
            grammar::at(old(self).ts(), old(self).at(), Tok::LParen),
        ensures
            final(self).wf(),
            final(self).ts() == old(self).ts(),
            match r {
                Ok(v) => grammar::arguments(old(self).ts(), old(self).at()) == Out::Got(
                    exprs_view(v@),
                    final(self).at(),
                ),
                Err(x) => grammar::arguments(old(self).ts(), old(self).at()) == Out::<
                    Seq<SExpr>,
                >::Bad(x@, final(self).at()),
            },
            r is Ok ==> old(self).at() < final(self).at(),
        decreases old(self).left(), 32nat,
    {
        self.bump();
        if self.on(&Tok::RParen) {
            self.bump();
            let args: Vec<Expr> = Vec::new();
            proof {
                assert(exprs_view(args@) =~= Seq::<SExpr>::empty());
            }
            Ok(args)
        } else {
            let args = self.parse_exprs()?;
            self.expect(Tok::RParen, "`)`")?;
            Ok(args)
        }
    }

    fn parse_call(&mut self) -> (r: Result<Expr, ParseError>)
        requires
            old(self).wf(),
        ensures
            final(self).wf(),
            final(self).ts() == old(self).ts(),
            meets(r, grammar::call(old(self).ts(), old(self).at()), final(self).at()),
            r is Ok ==> old(self).at() < final(self).at(),
        decreases old(self).left(), 10nat,
    {
        let callee = self.parse_postfix()?;
        if !self.on(&Tok::LParen) {
            return Ok(callee);
        }
        match callee {
            Expr::Ident(name, span) => {
                let args = self.parse_arguments()?;
                Ok(Expr::Call(name, args, span))
            }
            other => Err(not_callable(&other)),
        }
    }

    fn parse_postfix(&mut self) -> (r: Result<Expr, ParseError>)
        requires
            old(self).wf(),
        ensures
            final(self).wf(),
            final(self).ts() == old(self).ts(),
            meets(r, grammar::postfix(old(self).ts(), old(self).at()), final(self).at()),
            r is Ok ==> old(self).at() < final(self).at(),
        decreases old(self).left(), 9nat,
    {
        let ghost ts = self.ts();
        let ghost start = self.at();
        let ghost goal = grammar::postfix(ts, start);
        let mut e = self.parse_primary()?;
        loop
            invariant_except_break
                goal == grammar::suffixes(ts, e@, self.at()),
            invariant
                self.wf(),
                self.ts() == ts,
                start < self.at(),
                old(self).ts() == ts,
                old(self).at() == start,
                goal == grammar::postfix(ts, start),
            ensures
                goal == Out::Got(e@, self.at()),
            decreases self.left(),
        {
            let span = self.span();
            if self.on(&Tok::LBracket) {
                self.bump();
                let indices = self.parse_exprs()?;
                self.expect(Tok::RBracket, "`]`")?;
                e = Expr::Index(Box::new(e), indices, span);
            } else if self.on(&Tok::Dot) {
                self.bump();
                let field = self.expect_ident()?;
                e = Expr::FieldAccess(Box::new(e), field, span);
            } else {
                break;
            }
        }
        Ok(e)
    }

    #[verifier::rlimit(40)]
    fn parse_primary(&mut self) -> (r: Result<Expr, ParseError>)
        requires
            old(self).wf(),
        ensures
            final(self).wf(),
            final(self).ts() == old(self).ts(),
            meets(r, grammar::primary(old(self).ts(), old(self).at()), final(self).at()),
            r is Ok ==> old(self).at() < final(self).at(),
        decreases old(self).left(), 8nat,
    {
        let span = self.span();
        match &self.peek().tok {
            Tok::Int(n) => {
                let n: i64 = *n;
                self.bump();
                Ok(Expr::Int(n, span))
            }
            Tok::Float(f) => {
                let f = f.duplicate();
                self.bump();
                Ok(Expr::Float(f, span))
            }
            Tok::Str(s) => {
                let s = s.clone();
                self.bump();
                Ok(Expr::Str(s, span))
            }
            Tok::True => {
                self.bump();
                Ok(Expr::Bool(true, span))
            }
            Tok::False => {
                self.bump();
                Ok(Expr::Bool(false, span))
            }
            Tok::Ident(n) => {
                let n = n.clone();
                self.bump();
                Ok(Expr::Ident(n, span))
            }
            Tok::LParen => {
                self.bump();
                let e = self.parse_expr()?;
                self.expect(Tok::RParen, "`)`")?;
                Ok(e)
            }
            Tok::LBracket => {
                self.bump();
                let elements = self.parse_exprs()?;
                self.expect(Tok::RBracket, "`]`")?;
                Ok(Expr::ArrayLit(elements, span))
            }
            _ => Err(self.wrong("expected an expression")),
        }
    }

    fn parse_block(&mut self) -> (r: Result<Block, ParseError>)
        requires
            old(self).wf(),
        ensures
            final(self).wf(),
            final(self).ts() == old(self).ts(),
            meets(r, grammar::block(old(self).ts(), old(self).at()), final(self).at()),
            r is Ok ==> old(self).at() < final(self).at(),
        decreases old(self).left(), 34nat,
    {
        let ghost ts = self.ts();
        let ghost start = self.at();
        let ghost goal = grammar::block(ts, start);
        self.expect(Tok::LBrace, "`{`")?;
        let mut v: Vec<Stmt> = Vec::new();
        proof {
            assert(stmts_view(v@) =~= Seq::<SStmt>::empty());
        }
        while !self.on(&Tok::RBrace)
            invariant
                self.wf(),
                self.ts() == ts,
                start < self.at(),
                old(self).ts() == ts,
                old(self).at() == start,
                goal == grammar::block(ts, start),
                goal == grammar::stmts(ts, stmts_view(v@), self.at()),
            decreases self.left(),
        {
            let ghost before = v@;
            let s = self.parse_stmt()?;
            v.push(s);
            proof {
                assert(stmts_view(v@) =~= stmts_view(before).push(s@));
            }
        }
        self.bump();
        Ok(Block { stmts: v })
    }

    fn parse_stmt(&mut self) -> (r: Result<Stmt, ParseError>)
        requires
            old(self).wf(),
        ensures
            final(self).wf(),
            final(self).ts() == old(self).ts(),
            meets(r, grammar::stmt(old(self).ts(), old(self).at()), final(self).at()),
            r is Ok ==> old(self).at() < final(self).at(),
        decreases old(self).left(), 32nat,
    {
        let span = self.span();
        match &self.peek().tok {
            Tok::Let => {
                self.bump();
                let name = self.expect_ident()?;
                self.expect(Tok::Colon, "`:`")?;
                let ty = self.expect_type()?;
                self.expect(Tok::Assign, "`=`")?;
                let value = self.parse_expr()?;
                Ok(Stmt::Let { name, ty, value, span })
            }
            Tok::Return => {
                self.bump();
                let value = if self.on(&Tok::RBrace) {
                    None
                } else {
                    Some(self.parse_expr()?)
                };
                Ok(Stmt::Return { value, span })
            }
            Tok::While => {
                self.bump();
                let cond = self.parse_expr()?;
                let body = self.parse_block()?;
                Ok(Stmt::While { cond, body, span })
            }
            Tok::Audited => {
                self.bump();
                match &self.peek().tok {
                    Tok::Str(s) => {
                        let justification = s.clone();
                        self.bump();
                        let body = self.parse_block()?;
                        Ok(Stmt::Audited { justification, body: body.stmts, span })
                    }
                    _ => Err(
                        self.wrong("expected a string literal justification after `audited`"),
                    ),
                }
            }
            _ => {
                let e = self.parse_expr()?;
                Ok(Stmt::Expr(e))
            }
        }
    }

    /// `ident ":" type`
    fn parse_typed(&mut self) -> (r: Result<(String, Ty), ParseError>)
        requires
            old(self).wf(),
        ensures
            final(self).wf(),
            final(self).ts() == old(self).ts(),
            match r {
                Ok(v) => grammar::typed(old(self).ts(), old(self).at()) == Out::Got(
                    STyped { name: v.0@, ty: v.1@ },
                    final(self).at(),
                ) && old(self).at() < final(self).at(),
                Err(x) => grammar::typed(old(self).ts(), old(self).at()) == Out::<STyped>::Bad(
                    x@,
                    final(self).at(),
                ),
            },
    {
        let name = self.expect_ident()?;
        self.expect(Tok::Colon, "`:`")?;
        let ty = self.expect_type()?;
        Ok((name, ty))
    }

    fn parse_fields(&mut self) -> (r: Result<Vec<Field>, ParseError>)
        requires
            old(self).wf(),
        ensures
            final(self).wf(),
            final(self).ts() == old(self).ts(),
            match r {
                Ok(v) => grammar::fields(old(self).ts(), Seq::empty(), old(self).at()) == Out::Got(
                    fields_view(v@),
                    final(self).at(),
                ) && old(self).at() < final(self).at(),
                Err(x) => grammar::fields(old(self).ts(), Seq::empty(), old(self).at()) == Out::<
                    Seq<STyped>,
                >::Bad(x@, final(self).at()),
            },
    {
        let ghost ts = self.ts();
        let ghost start = self.at();
        let ghost goal = grammar::fields(ts, Seq::empty(), start);
        let mut v: Vec<Field> = Vec::new();
        proof {
            assert(fields_view(v@) =~= Seq::<STyped>::empty());
        }
        loop
            invariant_except_break
                goal == grammar::fields(ts, fields_view(v@), self.at()),
            invariant
                self.wf(),
                self.ts() == ts,
                start <= self.at(),
                old(self).ts() == ts,
                old(self).at() == start,
                goal == grammar::fields(ts, Seq::empty(), start),
            ensures
                goal == Out::Got(fields_view(v@), self.at()),
                start < self.at(),
            decreases self.left(),
        {
            let ghost before = v@;
            let (name, ty) = self.parse_typed()?;
            let f = Field { name, ty };
            v.push(f);
            proof {
                assert(fields_view(v@) =~= fields_view(before).push(
                    STyped { name: f.name@, ty: f.ty@ },
                ));
            }
            if self.on(&Tok::Comma) {
                self.bump();
                if self.on(&Tok::RBrace) {
                    break;
                }
            } else {
                break;
            }
        }
        Ok(v)
    }

    pub fn parse_struct_decl(&mut self) -> (r: Result<StructDecl, ParseError>)
        requires
            old(self).wf(),
        ensures
            final(self).wf(),
            final(self).ts() == old(self).ts(),
            meets(r, grammar::struct_decl(old(self).ts(), old(self).at()), final(self).at()),
            r is Ok ==> old(self).at() < final(self).at(),
    {
        let span = self.span();
        self.expect(Tok::Struct, "`struct`")?;
        let name = self.expect_ident()?;
        self.expect(Tok::LBrace, "`{`")?;
        let fields = if self.on(&Tok::RBrace) {
            let none: Vec<Field> = Vec::new();
            proof {
                assert(fields_view(none@) =~= Seq::<STyped>::empty());
            }
            none
        } else {
            self.parse_fields()?
        };
        self.expect(Tok::RBrace, "`}`")?;
        Ok(StructDecl { name, fields, span })
    }

    /// One type or more, separated by commas.
    fn parse_types(&mut self) -> (r: Result<Vec<Ty>, ParseError>)
        requires
            old(self).wf(),
        ensures
            final(self).wf(),
            final(self).ts() == old(self).ts(),
            match r {
                Ok(v) => grammar::types(old(self).ts(), Seq::empty(), old(self).at()) == Out::Got(
                    tys_view(v@),
                    final(self).at(),
                ) && old(self).at() < final(self).at(),
                Err(x) => grammar::types(old(self).ts(), Seq::empty(), old(self).at()) == Out::<
                    Seq<STy>,
                >::Bad(x@, final(self).at()),
            },
    {
        let ghost ts = self.ts();
        let ghost start = self.at();
        let ghost goal = grammar::types(ts, Seq::empty(), start);
        let mut v: Vec<Ty> = Vec::new();
        proof {
            assert(tys_view(v@) =~= Seq::<STy>::empty());
        }
        loop
            invariant_except_break
                goal == grammar::types(ts, tys_view(v@), self.at()),
            invariant
                self.wf(),
                self.ts() == ts,
                start <= self.at(),
                old(self).ts() == ts,
                old(self).at() == start,
                goal == grammar::types(ts, Seq::empty(), start),
            ensures
                goal == Out::Got(tys_view(v@), self.at()),
                start < self.at(),
            decreases self.left(),
        {
            let ghost before = v@;
            let t = self.expect_type()?;
            v.push(t);
            proof {
                assert(tys_view(v@) =~= tys_view(before).push(t@));
            }
            if self.on(&Tok::Comma) {
                self.bump();
            } else {
                break;
            }
        }
        Ok(v)
    }

    fn parse_variant(&mut self) -> (r: Result<Variant, ParseError>)
        requires
            old(self).wf(),
        ensures
            final(self).wf(),
            final(self).ts() == old(self).ts(),
            meets(r, grammar::variant(old(self).ts(), old(self).at()), final(self).at()),
            r is Ok ==> old(self).at() < final(self).at(),
    {
        let span = self.span();
        let name = self.expect_ident()?;
        let none: Vec<Ty> = Vec::new();
        proof {
            assert(tys_view(none@) =~= Seq::<STy>::empty());
        }
        if !self.on(&Tok::LParen) {
            return Ok(Variant { name, payload: none, span });
        }
        self.bump();
        if self.on(&Tok::RParen) {
            self.bump();
            return Ok(Variant { name, payload: none, span });
        }
        let payload = self.parse_types()?;
        self.expect(Tok::RParen, "`)`")?;
        Ok(Variant { name, payload, span })
    }

    fn parse_variants(&mut self) -> (r: Result<Vec<Variant>, ParseError>)
        requires
            old(self).wf(),
        ensures
            final(self).wf(),
            final(self).ts() == old(self).ts(),
            match r {
                Ok(v) => grammar::variants(old(self).ts(), Seq::empty(), old(self).at())
                    == Out::Got(variants_view(v@), final(self).at())
                    && old(self).at() < final(self).at(),
                Err(x) => grammar::variants(old(self).ts(), Seq::empty(), old(self).at()) == Out::<
                    Seq<SVariant>,
                >::Bad(x@, final(self).at()),
            },
    {
        let ghost ts = self.ts();
        let ghost start = self.at();
        let ghost goal = grammar::variants(ts, Seq::empty(), start);
        let mut v: Vec<Variant> = Vec::new();
        proof {
            assert(variants_view(v@) =~= Seq::<SVariant>::empty());
        }
        loop
            invariant_except_break
                goal == grammar::variants(ts, variants_view(v@), self.at()),
            invariant
                self.wf(),
                self.ts() == ts,
                start <= self.at(),
                old(self).ts() == ts,
                old(self).at() == start,
                goal == grammar::variants(ts, Seq::empty(), start),
            ensures
                goal == Out::Got(variants_view(v@), self.at()),
                start < self.at(),
            decreases self.left(),
        {
            let ghost before = v@;
            let x = self.parse_variant()?;
            v.push(x);
            proof {
                assert(variants_view(v@) =~= variants_view(before).push(x@));
            }
            if self.on(&Tok::Comma) {
                self.bump();
                if self.on(&Tok::RBrace) {
                    break;
                }
            } else {
                break;
            }
        }
        Ok(v)
    }

    fn parse_enum_decl(&mut self) -> (r: Result<EnumDecl, ParseError>)
        requires
            old(self).wf(),
        ensures
            final(self).wf(),
            final(self).ts() == old(self).ts(),
            meets(r, grammar::enum_decl(old(self).ts(), old(self).at()), final(self).at()),
            r is Ok ==> old(self).at() < final(self).at(),
    {
        let span = self.span();
        self.expect(Tok::Enum, "`enum`")?;
        let name = self.expect_ident()?;
        self.expect(Tok::LBrace, "`{`")?;
        let variants = if self.on(&Tok::RBrace) {
            let none: Vec<Variant> = Vec::new();
            proof {
                assert(variants_view(none@) =~= Seq::<SVariant>::empty());
            }
            none
        } else {
            self.parse_variants()?
        };
        self.expect(Tok::RBrace, "`}`")?;
        Ok(EnumDecl { name, variants, span })
    }

    fn parse_params(&mut self) -> (r: Result<Vec<Param>, ParseError>)
        requires
            old(self).wf(),
        ensures
            final(self).wf(),
            final(self).ts() == old(self).ts(),
            match r {
                Ok(v) => grammar::params(old(self).ts(), Seq::empty(), old(self).at()) == Out::Got(
                    params_view(v@),
                    final(self).at(),
                ) && old(self).at() < final(self).at(),
                Err(x) => grammar::params(old(self).ts(), Seq::empty(), old(self).at()) == Out::<
                    Seq<STyped>,
                >::Bad(x@, final(self).at()),
            },
    {
        let ghost ts = self.ts();
        let ghost start = self.at();
        let ghost goal = grammar::params(ts, Seq::empty(), start);
        let mut v: Vec<Param> = Vec::new();
        proof {
            assert(params_view(v@) =~= Seq::<STyped>::empty());
        }
        loop
            invariant_except_break
                goal == grammar::params(ts, params_view(v@), self.at()),
            invariant
                self.wf(),
                self.ts() == ts,
                start <= self.at(),
                old(self).ts() == ts,
                old(self).at() == start,
                goal == grammar::params(ts, Seq::empty(), start),
            ensures
                goal == Out::Got(params_view(v@), self.at()),
                start < self.at(),
            decreases self.left(),
        {
            let ghost before = v@;
            let (name, ty) = self.parse_typed()?;
            let f = Param { name, ty };
            v.push(f);
            proof {
                assert(params_view(v@) =~= params_view(before).push(
                    STyped { name: f.name@, ty: f.ty@ },
                ));
            }
            if self.on(&Tok::Comma) {
                self.bump();
            } else {
                break;
            }
        }
        Ok(v)
    }

    /// The names inside `effect(..)`, and whether `pure` is one of them.
    fn parse_effects(&mut self) -> (r: Result<(bool, EffectSet), ParseError>)
        requires
            old(self).wf(),
        ensures
            final(self).wf(),
            final(self).ts() == old(self).ts(),
            match r {
                Ok(v) => grammar::effects(
                    old(self).ts(),
                    false,
                    grammar::no_effects(),
                    old(self).at(),
                ) == Out::Got(v, final(self).at()) && old(self).at() < final(self).at(),
                Err(x) => grammar::effects(
                    old(self).ts(),
                    false,
                    grammar::no_effects(),
                    old(self).at(),
                ) == Out::<(bool, EffectSet)>::Bad(x@, final(self).at()),
            },
    {
        let ghost ts = self.ts();
        let ghost start = self.at();
        let ghost goal = grammar::effects(ts, false, grammar::no_effects(), start);
        let mut pure = false;
        let mut set = EffectSet { rng: false, io: false, concurrent: false, network: false };
        loop
            invariant_except_break
                goal == grammar::effects(ts, pure, set, self.at()),
            invariant
                self.wf(),
                self.ts() == ts,
                start <= self.at(),
                old(self).ts() == ts,
                old(self).at() == start,
                goal == grammar::effects(ts, false, grammar::no_effects(), start),
            ensures
                goal == Out::Got((pure, set), self.at()),
                start < self.at(),
            decreases self.left(),
        {
            let span = self.span();
            let name = self.expect_ident()?;
            let w = name.as_str();
            if same(w, "pure") {
                pure = true;
            } else if same(w, "rng") {
                set = EffectSet { rng: true, ..set };
            } else if same(w, "io") {
                set = EffectSet { io: true, ..set };
            } else if same(w, "concurrent") {
                set = EffectSet { concurrent: true, ..set };
            } else if same(w, "network") {
                set = EffectSet { network: true, ..set };
            } else {
                let message = cat3(
                    "unknown effect `",
                    w,
                    "` — expected `pure`, `rng`, `io`, `concurrent`, or `network`",
                );
                return Err(ParseError { message, span });
            }
            if self.on(&Tok::Comma) {
                self.bump();
            } else {
                break;
            }
        }
        Ok((pure, set))
    }

    fn parse_effect_annotation(&mut self) -> (r: Result<Option<EffectSet>, ParseError>)
        requires
            old(self).wf(),
        ensures
            final(self).wf(),
            final(self).ts() == old(self).ts(),
            match r {
                Ok(v) => grammar::effect_annotation(old(self).ts(), old(self).at()) == Out::Got(
                    v,
                    final(self).at(),
                ) && old(self).at() <= final(self).at(),
                Err(x) => grammar::effect_annotation(old(self).ts(), old(self).at()) == Out::<
                    Option<EffectSet>,
                >::Bad(x@, final(self).at()),
            },
    {
        if !self.on(&Tok::Effect) {
            return Ok(None);
        }
        let span = self.span();
        self.bump();
        self.expect(Tok::LParen, "`(`")?;
        let (pure, set) = self.parse_effects()?;
        self.expect(Tok::RParen, "`)`")?;
        if pure && (set.rng || set.io || set.concurrent || set.network) {
            return Err(
                ParseError {
                    message:
                        "`pure` declares the empty effect set and can't be combined with other effects".to_owned(),
                    span,
                },
            );
        }
        Ok(Some(set))
    }

    fn parse_fn_decl(&mut self) -> (r: Result<FnDecl, ParseError>)
        requires
            old(self).wf(),
        ensures
            final(self).wf(),
            final(self).ts() == old(self).ts(),
            meets(r, grammar::fn_decl(old(self).ts(), old(self).at()), final(self).at()),
            r is Ok ==> old(self).at() < final(self).at(),
    {
        let span = self.span();
        self.expect(Tok::Fn, "`fn`")?;
        let name = self.expect_ident()?;
        self.expect(Tok::LParen, "`(`")?;
        let params = if self.on(&Tok::RParen) {
            let none: Vec<Param> = Vec::new();
            proof {
                assert(params_view(none@) =~= Seq::<STyped>::empty());
            }
            none
        } else {
            self.parse_params()?
        };
        self.expect(Tok::RParen, "`)`")?;
        let ret = if self.on(&Tok::Arrow) {
            self.bump();
            self.expect_type()?
        } else {
            Ty::Unit
        };
        let declared_effects = self.parse_effect_annotation()?;
        let body = self.parse_block()?;
        Ok(FnDecl { name, params, ret, body, span, declared_effects, requirement: None })
    }

    /// The one expression that the whole token stream spells.
    pub fn parse_standalone(&mut self) -> (r: Result<Expr, ParseError>)
        requires
            old(self).wf(),
            old(self).at() == 0,
        ensures
            meets(r, grammar::standalone(old(self).ts()), final(self).at()),
    {
        let e = self.parse_expr()?;
        if self.on(&Tok::Eof) {
            Ok(e)
        } else {
            Err(self.wrong("expected end of input"))
        }
    }

    /// The program that the token stream spells from the position on.
    pub fn parse_program(&mut self) -> (r: Result<Program, ParseError>)
        requires
            old(self).wf(),
        ensures
            final(self).wf(),
            final(self).ts() == old(self).ts(),
            meets(
                r,
                grammar::items(
                    old(self).ts(),
                    SProgram { fns: Seq::empty(), structs: Seq::empty(), enums: Seq::empty() },
                    old(self).at(),
                ),
                final(self).at(),
            ),
    {
        let ghost ts = self.ts();
        let ghost start = self.at();
        let mut fns: Vec<FnDecl> = Vec::new();
        let mut structs: Vec<StructDecl> = Vec::new();
        let mut enums: Vec<EnumDecl> = Vec::new();
        let ghost none = SProgram {
            fns: Seq::empty(),
            structs: Seq::empty(),
            enums: Seq::empty(),
        };
        let ghost goal = grammar::items(ts, none, start);
        proof {
            assert(fns_view(fns@) =~= none.fns);
            assert(structs_view(structs@) =~= none.structs);
            assert(enums_view(enums@) =~= none.enums);
        }
        while !self.on(&Tok::Eof)
            invariant
                self.wf(),
                self.ts() == ts,
                old(self).ts() == ts,
                old(self).at() == start,
                none == (SProgram {
                    fns: Seq::empty(),
                    structs: Seq::empty(),
                    enums: Seq::empty(),
                }),
                goal == grammar::items(ts, none, start),
                goal == grammar::items(
                    ts,
                    SProgram {
                        fns: fns_view(fns@),
                        structs: structs_view(structs@),
                        enums: enums_view(enums@),
                    },
                    self.at(),
                ),
            decreases self.left(),
        {
            if self.on(&Tok::Struct) {
                let ghost before = structs@;
                let d = self.parse_struct_decl()?;
                structs.push(d);
                proof {
                    assert(structs_view(structs@) =~= structs_view(before).push(d@));
                }
            } else if self.on(&Tok::Enum) {
                let ghost before = enums@;
                let d = self.parse_enum_decl()?;
                enums.push(d);
                proof {
                    assert(enums_view(enums@) =~= enums_view(before).push(d@));
                }
            } else {
                let ghost before = fns@;
                let d = self.parse_fn_decl()?;
                fns.push(d);
                proof {
                    assert(fns_view(fns@) =~= fns_view(before).push(d@));
                }
            }
        }
        Ok(Program { fns, structs, enums })
    }
}

fn transaction(
    network: TransactSlot,
    verify: TransactSlot,
    commit: TransactSlot,
    compensate: Option<TransactSlot>,
    log: Option<TransactSlot>,
    span: Span,
) -> (r: Expr)
    ensures
        r@ == (SExpr::Transact {
            network: network@,
            verify: verify@,
            commit: commit@,
            compensate: match compensate {
                Some(x) => Some(x@),
                None => None,
            },
            log: match log {
                Some(x) => Some(x@),
                None => None,
            },
            span,
        }),
{
    Expr::Transact { network, verify, commit, compensate, log, span }
}

/// The error for calling something other than a name.
fn not_callable(e: &Expr) -> (r: ParseError)
    ensures
        r@ == (SErr {
            message: "only a plain name can be called"@,
            span: grammar::span_of(e@),
        }),
{
    ParseError { message: "only a plain name can be called".to_owned(), span: e.span() }
}

} // verus!
