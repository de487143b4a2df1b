//! The grammar, as functions from a token stream and a position to the tree
//! that is spelled there and the position behind it. One token decides every
//! step.
use crate::ast::{ty_named, BinOp, EffectSet, STy, UnOp};
use crate::text::dec;
use crate::token::{shown, SErr, STok, SToken, Span, Tok};
use crate::tree::{
    SArm, SElse, SEnum, SExpr, SFn, SProgram, SSlot, SStmt, SStruct, STyped, SVariant,
};
use vstd::prelude::*;

verus! {

/// What stands at a position: a tree and the position behind it, or an error
/// and the position that had been reached.
pub ghost enum Out<T> {
    Got(T, int),
    Bad(SErr, int),
}

/// The token at `p`; `Eof` beyond the end.
pub open spec fn kind(ts: Seq<SToken>, p: int) -> STok {
    if 0 <= p < ts.len() {
        ts[p].tok
    } else {
        STok::Plain(Tok::Eof)
    }
}

pub open spec fn here(ts: Seq<SToken>, p: int) -> Span {
    ts[p].span
}

/// Whether the token at `p` is `t`.
pub open spec fn at(ts: Seq<SToken>, p: int, t: Tok) -> bool {
    kind(ts, p) == STok::Plain(t)
}

pub open spec fn fail<T>(message: Seq<char>, span: Span, p: int) -> Out<T> {
    Out::Bad(SErr { message, span }, p)
}

/// The error for a token that does not fit.
pub open spec fn wrong<T>(ts: Seq<SToken>, p: int, message: Seq<char>) -> Out<T> {
    fail(message + ", found "@ + shown(kind(ts, p)), here(ts, p), p)
}

/// Exactly the token `t`.
pub open spec fn want(ts: Seq<SToken>, p: int, t: Tok, what: Seq<char>) -> Out<()> {
    if at(ts, p, t) {
        Out::Got((), p + 1)
    } else {
        wrong(ts, p, "expected "@ + what)
    }
}

pub open spec fn ident(ts: Seq<SToken>, p: int) -> Out<Seq<char>> {
    match kind(ts, p) {
        STok::Ident(s) => Out::Got(s, p + 1),
        _ => wrong(ts, p, "expected identifier"@),
    }
}

/// A dimension of a vector or matrix type.
pub open spec fn dimension(ts: Seq<SToken>, p: int) -> Out<usize> {
    match kind(ts, p) {
        STok::Plain(Tok::Int(n)) => if 0 <= n <= usize::MAX {
            Out::Got(n as usize, p + 1)
        } else {
            fail(
                "`"@ + dec(n as int)
                    + "` is not a valid Vector/Matrix dimension (must be non-negative)"@,
                here(ts, p),
                p + 1,
            )
        },
        _ => wrong(ts, p, "expected a dimension"@),
    }
}

/// The type former that a token is, where it takes one inner type.
pub open spec fn wraps(t: STok, inner: STy) -> Option<STy> {
    match t {
        STok::Plain(Tok::Amp) => Some(STy::Ref(Box::new(inner))),
        STok::Plain(Tok::Box) => Some(STy::Box(Box::new(inner))),
        STok::Plain(Tok::Thread) => Some(STy::Thread(Box::new(inner))),
        STok::Plain(Tok::Chan) => Some(STy::Channel(Box::new(inner))),
        _ => None,
    }
}

/// `type ::= ("&" | "box" | "thread" | "chan") type | "sandbox"
///         | "Vector" "(" type "," dim ")" | "Matrix" "(" type "," dim "," dim ")" | name`
pub open spec fn ty(ts: Seq<SToken>, p: int) -> Out<STy>
    decreases ts.len() - p,
{
    match kind(ts, p) {
        STok::Plain(Tok::Amp)
        | STok::Plain(Tok::Box)
        | STok::Plain(Tok::Thread)
        | STok::Plain(Tok::Chan) => match ty(ts, p + 1) {
            Out::Got(inner, q) => Out::Got(wraps(kind(ts, p), inner)->0, q),
            Out::Bad(e, q) => Out::Bad(e, q),
        },
        STok::Plain(Tok::Sandbox) => Out::Got(STy::Sandbox, p + 1),
        STok::Plain(Tok::VectorKw) => match want(ts, p + 1, Tok::LParen, "`(`"@) {
            Out::Bad(e, q) => Out::Bad(e, q),
            Out::Got(_, q1) => match ty(ts, q1) {
                Out::Bad(e, q) => Out::Bad(e, q),
                Out::Got(elem, q2) => match want(ts, q2, Tok::Comma, "`,`"@) {
                    Out::Bad(e, q) => Out::Bad(e, q),
                    Out::Got(_, q3) => match dimension(ts, q3) {
                        Out::Bad(e, q) => Out::Bad(e, q),
                        Out::Got(n, q4) => match want(ts, q4, Tok::RParen, "`)`"@) {
                            Out::Bad(e, q) => Out::Bad(e, q),
                            Out::Got(_, q5) => Out::Got(STy::Vector(Box::new(elem), n), q5),
                        },
                    },
                },
            },
        },
        STok::Plain(Tok::MatrixKw) => match want(ts, p + 1, Tok::LParen, "`(`"@) {
            Out::Bad(e, q) => Out::Bad(e, q),
            Out::Got(_, q1) => match ty(ts, q1) {
                Out::Bad(e, q) => Out::Bad(e, q),
                Out::Got(elem, q2) => match want(ts, q2, Tok::Comma, "`,`"@) {
                    Out::Bad(e, q) => Out::Bad(e, q),
                    Out::Got(_, q3) => match dimension(ts, q3) {
                        Out::Bad(e, q) => Out::Bad(e, q),
                        Out::Got(rows, q4) => match want(ts, q4, Tok::Comma, "`,`"@) {
                            Out::Bad(e, q) => Out::Bad(e, q),
                            Out::Got(_, q5) => match dimension(ts, q5) {
                                Out::Bad(e, q) => Out::Bad(e, q),
                                Out::Got(cols, q6) => match want(ts, q6, Tok::RParen, "`)`"@) {
                                    Out::Bad(e, q) => Out::Bad(e, q),
                                    Out::Got(_, q7) => Out::Got(
                                        STy::Matrix(Box::new(elem), rows, cols),
                                        q7,
                                    ),
                                },
                            },
                        },
                    },
                },
            },
        },
        STok::TypeName(n) => match ty_named(n) {
            Some(t) => Out::Got(t, p + 1),
            None => wrong(ts, p, "expected a type"@),
        },
        STok::Ident(n) => Out::Got(STy::Named(n, Seq::empty()), p + 1),
        _ => wrong(ts, p, "expected a type"@),
    }
}

/// The binary operator that a token is at one level of precedence: 6 is `||`,
/// then `&&`, equality, comparison, addition, and 1 is multiplication.
pub open spec fn op_at(level: nat, t: STok) -> Option<BinOp> {
    match t {
        STok::Plain(Tok::OrOr) => if level == 6 {
            Some(BinOp::Or)
        } else {
            None
        },
        STok::Plain(Tok::AndAnd) => if level == 5 {
            Some(BinOp::And)
        } else {
            None
        },
        STok::Plain(Tok::EqEq) => if level == 4 {
            Some(BinOp::Eq)
        } else {
            None
        },
        STok::Plain(Tok::NotEq) => if level == 4 {
            Some(BinOp::NotEq)
        } else {
            None
        },
        STok::Plain(Tok::Lt) => if level == 3 {
            Some(BinOp::Lt)
        } else {
            None
        },
        STok::Plain(Tok::Gt) => if level == 3 {
            Some(BinOp::Gt)
        } else {
            None
        },
        STok::Plain(Tok::LtEq) => if level == 3 {
            Some(BinOp::LtEq)
        } else {
            None
        },
        STok::Plain(Tok::GtEq) => if level == 3 {
            Some(BinOp::GtEq)
        } else {
            None
        },
        STok::Plain(Tok::Plus) => if level == 2 {
            Some(BinOp::Add)
        } else {
            None
        },
        STok::Plain(Tok::Minus) => if level == 2 {
            Some(BinOp::Sub)
        } else {
            None
        },
        STok::Plain(Tok::Star) => if level == 1 {
            Some(BinOp::Mul)
        } else {
            None
        },
        STok::Plain(Tok::Slash) => if level == 1 {
            Some(BinOp::Div)
        } else {
            None
        },
        STok::Plain(Tok::DotStar) => if level == 1 {
            Some(BinOp::ElemMul)
        } else {
            None
        },
        STok::Plain(Tok::DotSlash) => if level == 1 {
            Some(BinOp::ElemDiv)
        } else {
            None
        },
        _ => None,
    }
}

/// `expr ::= if_expr | transact_expr | match_expr | assignment`
pub open spec fn expr(ts: Seq<SToken>, p: int) -> Out<SExpr>
    decreases ts.len() - p, 30nat,
{
    if at(ts, p, Tok::If) {
        if_expr(ts, p)
    } else if at(ts, p, Tok::Transact) {
        transact(ts, p)
    } else if at(ts, p, Tok::Match) {
        match_expr(ts, p)
    } else {
        assignment(ts, p)
    }
}

/// `if_expr ::= "if" expr block else_part`
pub open spec fn if_expr(ts: Seq<SToken>, p: int) -> Out<SExpr>
    decreases ts.len() - p, 29nat,
{
    match want(ts, p, Tok::If, "`if`"@) {
        Out::Bad(e, q) => Out::Bad(e, q),
        Out::Got(_, q0) => match expr(ts, q0) {
            Out::Bad(e, q) => Out::Bad(e, q),
            Out::Got(cond, q1) => if !(p < q1 <= ts.len()) {
                Out::Bad(arbitrary(), q1)
            } else {
                match block(ts, q1) {
                    Out::Bad(e, q) => Out::Bad(e, q),
                    Out::Got(then_block, q2) => if !(p < q2 <= ts.len()) {
                        Out::Bad(arbitrary(), q2)
                    } else {
                        match else_part(ts, q2) {
                            Out::Bad(e, q) => Out::Bad(e, q),
                            Out::Got(else_block, q) => Out::Got(
                                SExpr::If {
                                    cond: Box::new(cond),
                                    then_block,
                                    else_block,
                                    span: here(ts, p),
                                },
                                q,
                            ),
                        }
                    },
                }
            },
        },
    }
}

/// `else_part ::= ("else" (if_expr | block))?`
pub open spec fn else_part(ts: Seq<SToken>, p: int) -> Out<Option<Box<SElse>>>
    decreases ts.len() - p, 35nat,
{
    if !at(ts, p, Tok::Else) {
        Out::Got(None, p)
    } else if at(ts, p + 1, Tok::If) {
        match if_expr(ts, p + 1) {
            Out::Bad(e, q) => Out::Bad(e, q),
            Out::Got(e, q) => Out::Got(Some(Box::new(SElse::If(e))), q),
        }
    } else {
        match block(ts, p + 1) {
            Out::Bad(e, q) => Out::Bad(e, q),
            Out::Got(b, q) => Out::Got(Some(Box::new(SElse::Block(b))), q),
        }
    }
}

/// `ident ("," ident)*`, behind the names in `acc`.
pub open spec fn idents(ts: Seq<SToken>, acc: Seq<Seq<char>>, p: int) -> Out<Seq<Seq<char>>>
    decreases ts.len() - p,
{
    match ident(ts, p) {
        Out::Bad(e, q) => Out::Bad(e, q),
        Out::Got(n, q) => if at(ts, q, Tok::Comma) {
            idents(ts, acc.push(n), q + 1)
        } else {
            Out::Got(acc.push(n), q)
        },
    }
}

/// `("(" (ident ("," ident)*)? ")")?`
pub open spec fn binders(ts: Seq<SToken>, p: int) -> Out<Seq<Seq<char>>> {
    if !at(ts, p, Tok::LParen) {
        Out::Got(Seq::empty(), p)
    } else if at(ts, p + 1, Tok::RParen) {
        Out::Got(Seq::empty(), p + 2)
    } else {
        match idents(ts, Seq::empty(), p + 1) {
            Out::Bad(e, q) => Out::Bad(e, q),
            Out::Got(v, q) => match want(ts, q, Tok::RParen, "`)`"@) {
                Out::Bad(e, q) => Out::Bad(e, q),
                Out::Got(_, q) => Out::Got(v, q),
            },
        }
    }
}

/// `match_arm ("," match_arm)* ","?` behind the arms in `acc`, where
/// `match_arm ::= ident binders "=>" expr`.
pub open spec fn arms(ts: Seq<SToken>, acc: Seq<SArm>, p: int) -> Out<Seq<SArm>>
    decreases ts.len() - p, 31nat,
{
    match ident(ts, p) {
        Out::Bad(e, q) => Out::Bad(e, q),
        Out::Got(variant, q0) => match binders(ts, q0) {
            Out::Bad(e, q) => Out::Bad(e, q),
            Out::Got(bindings, q1) => match want(ts, q1, Tok::FatArrow, "`=>`"@) {
                Out::Bad(e, q) => Out::Bad(e, q),
                Out::Got(_, q2) => if !(p < q2) {
                    Out::Bad(arbitrary(), q2)
                } else {
                    match expr(ts, q2) {
                        Out::Bad(e, q) => Out::Bad(e, q),
                        Out::Got(body, q3) => {
                            let more = acc.push(
                                SArm { variant, bindings, body: Box::new(body), span: here(ts, p) },
                            );
                            if !at(ts, q3, Tok::Comma) {
                                Out::Got(more, q3)
                            } else if at(ts, q3 + 1, Tok::RBrace) {
                                Out::Got(more, q3 + 1)
                            } else if !(p < q3) {
                                Out::Bad(arbitrary(), q3)
                            } else {
                                arms(ts, more, q3 + 1)
                            }
                        },
                    }
                },
            },
        },
    }
}

/// `match_expr ::= "match" expr "{" match_arm ("," match_arm)* ","? "}"`
pub open spec fn match_expr(ts: Seq<SToken>, p: int) -> Out<SExpr>
    decreases ts.len() - p, 29nat,
{
    match want(ts, p, Tok::Match, "`match`"@) {
        Out::Bad(e, q) => Out::Bad(e, q),
        Out::Got(_, q0) => match expr(ts, q0) {
            Out::Bad(e, q) => Out::Bad(e, q),
            Out::Got(scrutinee, q1) => match want(ts, q1, Tok::LBrace, "`{`"@) {
                Out::Bad(e, q) => Out::Bad(e, q),
                Out::Got(_, q2) => if !(p < q2) {
                    Out::Bad(arbitrary(), q2)
                } else {
                    match arms(ts, Seq::empty(), q2) {
                        Out::Bad(e, q) => Out::Bad(e, q),
                        Out::Got(v, q3) => match want(ts, q3, Tok::RBrace, "`}`"@) {
                            Out::Bad(e, q) => Out::Bad(e, q),
                            Out::Got(_, q4) => Out::Got(
                                SExpr::Match {
                                    scrutinee: Box::new(scrutinee),
                                    arms: v,
                                    span: here(ts, p),
                                },
                                q4,
                            ),
                        },
                    }
                },
            },
        },
    }
}

/// One step of a `transact`: `label ":" call`.
pub open spec fn slot(ts: Seq<SToken>, p: int, label: Seq<char>) -> Out<SSlot>
    decreases ts.len() - p, 29nat,
{
    if kind(ts, p) != STok::Ident(label) {
        wrong(ts, p, "expected `"@ + label + "` in `transact`"@)
    } else {
        match want(ts, p + 1, Tok::Colon, "`:`"@) {
            Out::Bad(e, q) => Out::Bad(e, q),
            Out::Got(_, q0) => match call(ts, q0) {
                Out::Bad(e, q) => Out::Bad(e, q),
                Out::Got(c, q1) => match c {
                    SExpr::Call(name, args, span) => Out::Got(SSlot { name, args, span }, q1),
                    _ => fail(
                        "`"@ + label
                            + "` in `transact` requires a plain function call, e.g. `"@ + label
                            + ": worker(x)`"@,
                        here(ts, p),
                        q1,
                    ),
                },
            },
        }
    }
}

/// A step of a `transact` that may be left out.
pub open spec fn maybe_slot(ts: Seq<SToken>, p: int, label: Seq<char>) -> Out<Option<SSlot>>
    decreases ts.len() - p, 30nat,
{
    if kind(ts, p) != STok::Ident(label) {
        Out::Got(None, p)
    } else {
        match slot(ts, p, label) {
            Out::Bad(e, q) => Out::Bad(e, q),
            Out::Got(s, q) => Out::Got(Some(s), q),
        }
    }
}

/// The three steps that every `transact` has.
pub open spec fn slots(ts: Seq<SToken>, p: int) -> Out<(SSlot, SSlot, SSlot)>
    decreases ts.len() - p, 30nat,
{
    match slot(ts, p, "network"@) {
        Out::Bad(e, q) => Out::Bad(e, q),
        Out::Got(network, q2) => if !(p < q2 <= ts.len()) {
            Out::Bad(arbitrary(), q2)
        } else {
            match slot(ts, q2, "verify"@) {
                Out::Bad(e, q) => Out::Bad(e, q),
                Out::Got(verify, q3) => if !(p < q3 <= ts.len()) {
                    Out::Bad(arbitrary(), q3)
                } else {
                    match slot(ts, q3, "commit"@) {
                        Out::Bad(e, q) => Out::Bad(e, q),
                        Out::Got(commit, q4) => Out::Got((network, verify, commit), q4),
                    }
                },
            }
        },
    }
}

/// The two steps that may be left out.
pub open spec fn maybe_slots(ts: Seq<SToken>, p: int) -> Out<(Option<SSlot>, Option<SSlot>)>
    decreases ts.len() - p, 31nat,
{
    match maybe_slot(ts, p, "compensate"@) {
        Out::Bad(e, q) => Out::Bad(e, q),
        Out::Got(compensate, q5) => if !(p <= q5 <= ts.len()) {
            Out::Bad(arbitrary(), q5)
        } else {
            match maybe_slot(ts, q5, "log"@) {
                Out::Bad(e, q) => Out::Bad(e, q),
                Out::Got(log, q6) => Out::Got((compensate, log), q6),
            }
        },
    }
}

/// `transact_expr ::= "transact" "{" network verify commit compensate? log? "}"`
pub open spec fn transact(ts: Seq<SToken>, p: int) -> Out<SExpr>
    decreases ts.len() - p, 29nat,
{
    match want(ts, p, Tok::Transact, "`transact`"@) {
        Out::Bad(e, q) => Out::Bad(e, q),
        Out::Got(_, q0) => match want(ts, q0, Tok::LBrace, "`{`"@) {
            Out::Bad(e, q) => Out::Bad(e, q),
            Out::Got(_, q1) => match slots(ts, q1) {
                Out::Bad(e, q) => Out::Bad(e, q),
                Out::Got(three, q2) => if !(p < q2 <= ts.len()) {
                    Out::Bad(arbitrary(), q2)
                } else {
                    match maybe_slots(ts, q2) {
                        Out::Bad(e, q) => Out::Bad(e, q),
                        Out::Got(two, q3) => match want(ts, q3, Tok::RBrace, "`}`"@) {
                            Out::Bad(e, q) => Out::Bad(e, q),
                            Out::Got(_, q4) => Out::Got(
                                SExpr::Transact {
                                    network: three.0,
                                    verify: three.1,
                                    commit: three.2,
                                    compensate: two.0,
                                    log: two.1,
                                    span: here(ts, p),
                                },
                                q4,
                            ),
                        },
                    }
                },
            },
        },
    }
}

/// `assignment ::= ident "=" assignment | logic_or`
pub open spec fn assignment(ts: Seq<SToken>, p: int) -> Out<SExpr>
    decreases ts.len() - p, 28nat,
{
    match binary(ts, p, 6) {
        Out::Bad(e, q) => Out::Bad(e, q),
        Out::Got(lhs, q) => if !at(ts, q, Tok::Assign) {
            Out::Got(lhs, q)
        } else {
            match lhs {
                SExpr::Ident(name, span) => if !(p < q) {
                    Out::Bad(arbitrary(), q)
                } else {
                    match assignment(ts, q + 1) {
                        Out::Bad(e, r) => Out::Bad(e, r),
                        Out::Got(rhs, r) => Out::Got(SExpr::Assign(name, Box::new(rhs), span), r),
                    }
                },
                _ => fail(
                    "left-hand side of `=` must be a plain variable name"@,
                    here(ts, q),
                    q,
                ),
            }
        },
    }
}

/// An operand of the next tighter level, then any number of operators of this
/// level with an operand each; the tree leans to the left.
pub open spec fn binary(ts: Seq<SToken>, p: int, level: nat) -> Out<SExpr>
    decreases ts.len() - p, 12 + level,
{
    if level == 0 {
        unary(ts, p)
    } else {
        match binary(ts, p, (level - 1) as nat) {
            Out::Bad(e, q) => Out::Bad(e, q),
            Out::Got(lhs, q) => if !(p < q <= ts.len()) {
                Out::Bad(arbitrary(), q)
            } else {
                operands(ts, lhs, q, level)
            },
        }
    }
}

pub open spec fn operands(ts: Seq<SToken>, lhs: SExpr, p: int, level: nat) -> Out<SExpr>
    decreases ts.len() - p, 0nat,
{
    match op_at(level, kind(ts, p)) {
        None => Out::Got(lhs, p),
        Some(op) => match binary(ts, p + 1, (level - 1) as nat) {
            Out::Bad(e, q) => Out::Bad(e, q),
            Out::Got(rhs, q) => if !(p < q <= ts.len()) {
                Out::Bad(arbitrary(), q)
            } else {
                operands(
                    ts,
                    SExpr::Binary(op, Box::new(lhs), Box::new(rhs), here(ts, p)),
                    q,
                    level,
                )
            },
        },
    }
}

/// The node for a prefix operator on one operand.
pub open spec fn prefixed(t: STok, e: SExpr, span: Span) -> Option<SExpr> {
    match t {
        STok::Plain(Tok::Bang) => Some(SExpr::Unary(UnOp::Not, Box::new(e), span)),
        STok::Plain(Tok::Minus) => Some(SExpr::Unary(UnOp::Neg, Box::new(e), span)),
        STok::Plain(Tok::Star) => Some(SExpr::Deref(Box::new(e), span)),
        STok::Plain(Tok::Box) => Some(SExpr::Box(Box::new(e), span)),
        STok::Plain(Tok::Join) => Some(SExpr::Join(Box::new(e), span)),
        STok::Plain(Tok::Stop) => Some(SExpr::StopSandbox(Box::new(e), span)),
        _ => None,
    }
}

/// Whether a token starts a form on one expression in parentheses.
pub open spec fn form1(t: STok) -> bool {
    t == STok::Plain(Tok::Recv) || t == STok::Plain(Tok::Listen) || t == STok::Plain(Tok::Accept)
}

/// Whether a token starts a form on two expressions in parentheses.
pub open spec fn form2(t: STok) -> bool {
    t == STok::Plain(Tok::Send) || t == STok::Plain(Tok::Connect) || t == STok::Plain(Tok::Open)
}

/// The node for a keyword form on one expression in parentheses.
pub open spec fn applied1(t: STok, a: SExpr, span: Span) -> SExpr {
    match t {
        STok::Plain(Tok::Recv) => SExpr::Recv(Box::new(a), span),
        STok::Plain(Tok::Listen) => SExpr::Listen(Box::new(a), span),
        _ => SExpr::Accept(Box::new(a), span),
    }
}

/// The node for a keyword form on two expressions in parentheses.
pub open spec fn applied2(t: STok, a: SExpr, b: SExpr, span: Span) -> SExpr {
    match t {
        STok::Plain(Tok::Send) => SExpr::Send(Box::new(a), Box::new(b), span),
        STok::Plain(Tok::Connect) => SExpr::Connect(Box::new(a), Box::new(b), span),
        _ => SExpr::Open(Box::new(a), Box::new(b), span),
    }
}

/// `"(" expr ")"`
pub open spec fn parens1(ts: Seq<SToken>, p: int) -> Out<SExpr>
    decreases ts.len() - p, 31nat,
{
    match want(ts, p, Tok::LParen, "`(`"@) {
        Out::Bad(e, q) => Out::Bad(e, q),
        Out::Got(_, q0) => match expr(ts, q0) {
            Out::Bad(e, q) => Out::Bad(e, q),
            Out::Got(a, q1) => match want(ts, q1, Tok::RParen, "`)`"@) {
                Out::Bad(e, q) => Out::Bad(e, q),
                Out::Got(_, q2) => Out::Got(a, q2),
            },
        },
    }
}

/// `"(" expr "," expr ")"`
pub open spec fn parens2(ts: Seq<SToken>, p: int) -> Out<(SExpr, SExpr)>
    decreases ts.len() - p, 31nat,
{
    match want(ts, p, Tok::LParen, "`(`"@) {
        Out::Bad(e, q) => Out::Bad(e, q),
        Out::Got(_, q0) => match expr(ts, q0) {
            Out::Bad(e, q) => Out::Bad(e, q),
            Out::Got(a, q1) => match want(ts, q1, Tok::Comma, "`,`"@) {
                Out::Bad(e, q) => Out::Bad(e, q),
                Out::Got(_, q2) => if !(p < q2) {
                    Out::Bad(arbitrary(), q2)
                } else {
                    match expr(ts, q2) {
                        Out::Bad(e, q) => Out::Bad(e, q),
                        Out::Got(b, q3) => match want(ts, q3, Tok::RParen, "`)`"@) {
                            Out::Bad(e, q) => Out::Bad(e, q),
                            Out::Got(_, q4) => Out::Got((a, b), q4),
                        },
                    }
                },
            },
        },
    }
}

/// A prefix operator with its operand, a keyword form, or a call.
pub open spec fn unary(ts: Seq<SToken>, p: int) -> Out<SExpr>
    decreases ts.len() - p, 11nat,
{
    let span = here(ts, p);
    match kind(ts, p) {
        STok::Plain(Tok::Bang)
        | STok::Plain(Tok::Minus)
        | STok::Plain(Tok::Star)
        | STok::Plain(Tok::Box)
        | STok::Plain(Tok::Join)
        | STok::Plain(Tok::Stop) => match unary(ts, p + 1) {
            Out::Bad(e, q) => Out::Bad(e, q),
            Out::Got(e, q) => Out::Got(prefixed(kind(ts, p), e, span)->0, q),
        },
        STok::Plain(Tok::Amp) => match unary(ts, p + 1) {
            Out::Bad(e, q) => Out::Bad(e, q),
            Out::Got(e, q) => match e {
                SExpr::Ident(..) => Out::Got(SExpr::Ref(Box::new(e), span), q),
                _ => fail("`&` can only borrow a plain variable name"@, span, q),
            },
        },
        STok::Plain(Tok::Spawn) => match call(ts, p + 1) {
            Out::Bad(e, q) => Out::Bad(e, q),
            Out::Got(e, q) => match e {
                SExpr::Call(name, args, _) => Out::Got(SExpr::Spawn(name, args, span), q),
                _ => fail(
                    "`spawn` requires a function call, e.g. `spawn worker(x)`"@,
                    span,
                    q,
                ),
            },
        },
        STok::Plain(Tok::Sandbox) => match call(ts, p + 1) {
            Out::Bad(e, q) => Out::Bad(e, q),
            Out::Got(e, q) => match e {
                SExpr::Call(name, args, _) => Out::Got(SExpr::SpawnSandbox(name, args, span), q),
                _ => fail(
                    "`sandbox` requires a function call, e.g. `sandbox worker(x)`"@,
                    span,
                    q,
                ),
            },
        },
        STok::Plain(Tok::Chan) => Out::Got(SExpr::Chan(span), p + 1),
        STok::Plain(Tok::Recv)
        | STok::Plain(Tok::Listen)
        | STok::Plain(Tok::Accept) => match parens1(ts, p + 1) {
            Out::Bad(e, q) => Out::Bad(e, q),
            Out::Got(a, q) => Out::Got(applied1(kind(ts, p), a, span), q),
        },
        STok::Plain(Tok::Send)
        | STok::Plain(Tok::Connect)
        | STok::Plain(Tok::Open) => match parens2(ts, p + 1) {
            Out::Bad(e, q) => Out::Bad(e, q),
            Out::Got(ab, q) => Out::Got(applied2(kind(ts, p), ab.0, ab.1, span), q),
        },
        _ => call(ts, p),
    }
}

/// `expr ("," expr)*`, behind the expressions in `acc`.
pub open spec fn exprs(ts: Seq<SToken>, acc: Seq<SExpr>, p: int) -> Out<Seq<SExpr>>
    decreases ts.len() - p, 31nat,
{
    match expr(ts, p) {
        Out::Bad(e, q) => Out::Bad(e, q),
        Out::Got(e, q) => if at(ts, q, Tok::Comma) && p < q {
            exprs(ts, acc.push(e), q + 1)
        } else {
            Out::Got(acc.push(e), q)
        },
    }
}

/// The position that a node reports.
pub open spec fn span_of(e: SExpr) -> Span {
    match e {
        SExpr::Int(_, s)
        | SExpr::Float(_, s)
        | SExpr::Bool(_, s)
        | SExpr::Str(_, s)
        | SExpr::Ident(_, s)
        | SExpr::Unary(_, _, s)
        | SExpr::Binary(_, _, _, s)
        | SExpr::Call(_, _, s)
        | SExpr::If { span: s, .. }
        | SExpr::Assign(_, _, s)
        | SExpr::Box(_, s)
        | SExpr::Deref(_, s)
        | SExpr::Ref(_, s)
        | SExpr::Spawn(_, _, s)
        | SExpr::Join(_, s)
        | SExpr::Chan(s)
        | SExpr::Send(_, _, s)
        | SExpr::Recv(_, s)
        | SExpr::SpawnSandbox(_, _, s)
        | SExpr::StopSandbox(_, s)
        | SExpr::Connect(_, _, s)
        | SExpr::Listen(_, s)
        | SExpr::Accept(_, s)
        | SExpr::Open(_, _, s)
        | SExpr::Index(_, _, s)
        | SExpr::ArrayLit(_, s)
        | SExpr::FieldAccess(_, _, s)
        | SExpr::Match { span: s, .. }
        | SExpr::Transact { span: s, .. } => s,
    }
}

/// `"(" (expr ("," expr)*)? ")"`, with the position at the parenthesis.
pub open spec fn arguments(ts: Seq<SToken>, p: int) -> Out<Seq<SExpr>>
    decreases ts.len() - p, 32nat,
{
    if !at(ts, p, Tok::LParen) {
        wrong(ts, p, "expected `(`"@)
    } else if at(ts, p + 1, Tok::RParen) {
        Out::Got(Seq::empty(), p + 2)
    } else {
        match exprs(ts, Seq::empty(), p + 1) {
            Out::Bad(e, r) => Out::Bad(e, r),
            Out::Got(args, r) => match want(ts, r, Tok::RParen, "`)`"@) {
                Out::Bad(e, r) => Out::Bad(e, r),
                Out::Got(_, r) => Out::Got(args, r),
            },
        }
    }
}

/// `call ::= postfix arguments?`; only a name can be called.
pub open spec fn call(ts: Seq<SToken>, p: int) -> Out<SExpr>
    decreases ts.len() - p, 10nat,
{
    match postfix(ts, p) {
        Out::Bad(e, q) => Out::Bad(e, q),
        Out::Got(callee, q) => if !at(ts, q, Tok::LParen) {
            Out::Got(callee, q)
        } else {
            match callee {
                SExpr::Ident(name, span) => if !(p < q) {
                    Out::Bad(arbitrary(), q)
                } else {
                    match arguments(ts, q) {
                        Out::Bad(e, r) => Out::Bad(e, r),
                        Out::Got(args, r) => Out::Got(SExpr::Call(name, args, span), r),
                    }
                },
                _ => fail("only a plain name can be called"@, span_of(callee), q),
            }
        },
    }
}

/// `postfix ::= primary ("[" expr ("," expr)* "]" | "." ident)*`
pub open spec fn postfix(ts: Seq<SToken>, p: int) -> Out<SExpr>
    decreases ts.len() - p, 9nat,
{
    match primary(ts, p) {
        Out::Bad(e, q) => Out::Bad(e, q),
        Out::Got(e, q) => if !(p < q <= ts.len()) {
            Out::Bad(arbitrary(), q)
        } else {
            suffixes(ts, e, q)
        },
    }
}

pub open spec fn suffixes(ts: Seq<SToken>, e: SExpr, p: int) -> Out<SExpr>
    decreases ts.len() - p, 0nat,
{
    match kind(ts, p) {
        STok::Plain(Tok::LBracket) => match exprs(ts, Seq::empty(), p + 1) {
            Out::Bad(e, q) => Out::Bad(e, q),
            Out::Got(indices, q) => match want(ts, q, Tok::RBracket, "`]`"@) {
                Out::Bad(e, q) => Out::Bad(e, q),
                Out::Got(_, q) => if !(p < q <= ts.len()) {
                    Out::Bad(arbitrary(), q)
                } else {
                    suffixes(ts, SExpr::Index(Box::new(e), indices, here(ts, p)), q)
                },
            },
        },
        STok::Plain(Tok::Dot) => match ident(ts, p + 1) {
            Out::Bad(e, q) => Out::Bad(e, q),
            Out::Got(field, q) => suffixes(
                ts,
                SExpr::FieldAccess(Box::new(e), field, here(ts, p)),
                q,
            ),
        },
        _ => Out::Got(e, p),
    }
}

/// `primary ::= literal | ident | "(" expr ")" | "[" expr ("," expr)* "]"`
pub open spec fn primary(ts: Seq<SToken>, p: int) -> Out<SExpr>
    decreases ts.len() - p, 8nat,
{
    let span = here(ts, p);
    match kind(ts, p) {
        STok::Plain(Tok::Int(n)) => Out::Got(SExpr::Int(n, span), p + 1),
        STok::Float(f) => Out::Got(SExpr::Float(f, span), p + 1),
        STok::Str(s) => Out::Got(SExpr::Str(s, span), p + 1),
        STok::Plain(Tok::True) => Out::Got(SExpr::Bool(true, span), p + 1),
        STok::Plain(Tok::False) => Out::Got(SExpr::Bool(false, span), p + 1),
        STok::Ident(n) => Out::Got(SExpr::Ident(n, span), p + 1),
        STok::Plain(Tok::LParen) => match expr(ts, p + 1) {
            Out::Bad(e, q) => Out::Bad(e, q),
            Out::Got(e, q) => match want(ts, q, Tok::RParen, "`)`"@) {
                Out::Bad(e, q) => Out::Bad(e, q),
                Out::Got(_, q) => Out::Got(e, q),
            },
        },
        STok::Plain(Tok::LBracket) => match exprs(ts, Seq::empty(), p + 1) {
            Out::Bad(e, q) => Out::Bad(e, q),
            Out::Got(elements, q) => match want(ts, q, Tok::RBracket, "`]`"@) {
                Out::Bad(e, q) => Out::Bad(e, q),
                Out::Got(_, q) => Out::Got(SExpr::ArrayLit(elements, span), q),
            },
        },
        _ => wrong(ts, p, "expected an expression"@),
    }
}

/// `block ::= "{" stmt* "}"`
pub open spec fn block(ts: Seq<SToken>, p: int) -> Out<Seq<SStmt>>
    decreases ts.len() - p, 34nat,
{
    match want(ts, p, Tok::LBrace, "`{`"@) {
        Out::Bad(e, q) => Out::Bad(e, q),
        Out::Got(_, q) => stmts(ts, Seq::empty(), q),
    }
}

/// `stmt* "}"`, behind the statements in `acc`.
pub open spec fn stmts(ts: Seq<SToken>, acc: Seq<SStmt>, p: int) -> Out<Seq<SStmt>>
    decreases ts.len() - p, 33nat,
{
    if at(ts, p, Tok::RBrace) {
        Out::Got(acc, p + 1)
    } else {
        match stmt(ts, p) {
            Out::Bad(e, q) => Out::Bad(e, q),
            Out::Got(s, q) => if !(p < q <= ts.len()) {
                Out::Bad(arbitrary(), q)
            } else {
                stmts(ts, acc.push(s), q)
            },
        }
    }
}

/// `stmt ::= "let" ident ":" type "=" expr | "return" expr? | "while" expr block
///         | "audited" str block | expr`; a `return` before `}` has no value.
pub open spec fn stmt(ts: Seq<SToken>, p: int) -> Out<SStmt>
    decreases ts.len() - p, 32nat,
{
    let span = here(ts, p);
    match kind(ts, p) {
        STok::Plain(Tok::Let) => match ident(ts, p + 1) {
            Out::Bad(e, q) => Out::Bad(e, q),
            Out::Got(name, q0) => match want(ts, q0, Tok::Colon, "`:`"@) {
                Out::Bad(e, q) => Out::Bad(e, q),
                Out::Got(_, q1) => match ty(ts, q1) {
                    Out::Bad(e, q) => Out::Bad(e, q),
                    Out::Got(t, q2) => match want(ts, q2, Tok::Assign, "`=`"@) {
                        Out::Bad(e, q) => Out::Bad(e, q),
                        Out::Got(_, q3) => if !(p < q3) {
                            Out::Bad(arbitrary(), q3)
                        } else {
                            match expr(ts, q3) {
                                Out::Bad(e, q) => Out::Bad(e, q),
                                Out::Got(value, q4) => Out::Got(
                                    SStmt::Let { name, ty: t, value, span },
                                    q4,
                                ),
                            }
                        },
                    },
                },
            },
        },
        STok::Plain(Tok::Return) => if at(ts, p + 1, Tok::RBrace) {
            Out::Got(SStmt::Return { value: None, span }, p + 1)
        } else {
            match expr(ts, p + 1) {
                Out::Bad(e, q) => Out::Bad(e, q),
                Out::Got(e, q) => Out::Got(SStmt::Return { value: Some(e), span }, q),
            }
        },
        STok::Plain(Tok::While) => match expr(ts, p + 1) {
            Out::Bad(e, q) => Out::Bad(e, q),
            Out::Got(cond, q) => if !(p < q <= ts.len()) {
                Out::Bad(arbitrary(), q)
            } else {
                match block(ts, q) {
                    Out::Bad(e, q) => Out::Bad(e, q),
                    Out::Got(body, q) => Out::Got(SStmt::While { cond, body, span }, q),
                }
            },
        },
        STok::Plain(Tok::Audited) => match kind(ts, p + 1) {
            STok::Str(justification) => match block(ts, p + 2) {
                Out::Bad(e, q) => Out::Bad(e, q),
                Out::Got(body, q) => Out::Got(SStmt::Audited { justification, body, span }, q),
            },
            _ => wrong(
                ts,
                p + 1,
                "expected a string literal justification after `audited`"@,
            ),
        },
        _ => match expr(ts, p) {
            Out::Bad(e, q) => Out::Bad(e, q),
            Out::Got(e, q) => Out::Got(SStmt::Expr(e), q),
        },
    }
}

/// `ident ":" type`
pub open spec fn typed(ts: Seq<SToken>, p: int) -> Out<STyped> {
    match ident(ts, p) {
        Out::Bad(e, q) => Out::Bad(e, q),
        Out::Got(name, q) => match want(ts, q, Tok::Colon, "`:`"@) {
            Out::Bad(e, q) => Out::Bad(e, q),
            Out::Got(_, q) => match ty(ts, q) {
                Out::Bad(e, q) => Out::Bad(e, q),
                Out::Got(t, q) => Out::Got(STyped { name, ty: t }, q),
            },
        },
    }
}

/// `field ("," field)* ","?` before a `}`, behind the fields in `acc`.
pub open spec fn fields(ts: Seq<SToken>, acc: Seq<STyped>, p: int) -> Out<Seq<STyped>>
    decreases ts.len() - p,
{
    match typed(ts, p) {
        Out::Bad(e, q) => Out::Bad(e, q),
        Out::Got(f, q) => if !at(ts, q, Tok::Comma) {
            Out::Got(acc.push(f), q)
        } else if at(ts, q + 1, Tok::RBrace) {
            Out::Got(acc.push(f), q + 1)
        } else if !(p < q) {
            Out::Bad(arbitrary(), q)
        } else {
            fields(ts, acc.push(f), q + 1)
        },
    }
}

/// `struct_decl ::= "struct" ident "{" (field ("," field)* ","?)? "}"`
pub open spec fn struct_decl(ts: Seq<SToken>, p: int) -> Out<SStruct> {
    match want(ts, p, Tok::Struct, "`struct`"@) {
        Out::Bad(e, q) => Out::Bad(e, q),
        Out::Got(_, q0) => match ident(ts, q0) {
            Out::Bad(e, q) => Out::Bad(e, q),
            Out::Got(name, q1) => match want(ts, q1, Tok::LBrace, "`{`"@) {
                Out::Bad(e, q) => Out::Bad(e, q),
                Out::Got(_, q2) => {
                    let body = if at(ts, q2, Tok::RBrace) {
                        Out::Got(Seq::empty(), q2)
                    } else {
                        fields(ts, Seq::empty(), q2)
                    };
                    match body {
                        Out::Bad(e, q) => Out::Bad(e, q),
                        Out::Got(v, q3) => match want(ts, q3, Tok::RBrace, "`}`"@) {
                            Out::Bad(e, q) => Out::Bad(e, q),
                            Out::Got(_, q4) => Out::Got(
                                SStruct { name, fields: v, span: here(ts, p) },
                                q4,
                            ),
                        },
                    }
                },
            },
        },
    }
}

/// `type ("," type)*`, behind the types in `acc`.
pub open spec fn types(ts: Seq<SToken>, acc: Seq<STy>, p: int) -> Out<Seq<STy>>
    decreases ts.len() - p,
{
    match ty(ts, p) {
        Out::Bad(e, q) => Out::Bad(e, q),
        Out::Got(t, q) => if at(ts, q, Tok::Comma) && p < q {
            types(ts, acc.push(t), q + 1)
        } else {
            Out::Got(acc.push(t), q)
        },
    }
}

/// `variant ::= ident ("(" (type ("," type)*)? ")")?`
pub open spec fn variant(ts: Seq<SToken>, p: int) -> Out<SVariant> {
    match ident(ts, p) {
        Out::Bad(e, q) => Out::Bad(e, q),
        Out::Got(name, q) => if !at(ts, q, Tok::LParen) {
            Out::Got(SVariant { name, payload: Seq::empty(), span: here(ts, p) }, q)
        } else if at(ts, q + 1, Tok::RParen) {
            Out::Got(SVariant { name, payload: Seq::empty(), span: here(ts, p) }, q + 2)
        } else {
            match types(ts, Seq::empty(), q + 1) {
                Out::Bad(e, r) => Out::Bad(e, r),
                Out::Got(payload, r) => match want(ts, r, Tok::RParen, "`)`"@) {
                    Out::Bad(e, r) => Out::Bad(e, r),
                    Out::Got(_, r) => Out::Got(SVariant { name, payload, span: here(ts, p) }, r),
                },
            }
        },
    }
}

/// `variant ("," variant)* ","?` before a `}`, behind the variants in `acc`.
pub open spec fn variants(ts: Seq<SToken>, acc: Seq<SVariant>, p: int) -> Out<Seq<SVariant>>
    decreases ts.len() - p,
{
    match variant(ts, p) {
        Out::Bad(e, q) => Out::Bad(e, q),
        Out::Got(v, q) => if !at(ts, q, Tok::Comma) {
            Out::Got(acc.push(v), q)
        } else if at(ts, q + 1, Tok::RBrace) {
            Out::Got(acc.push(v), q + 1)
        } else if !(p < q) {
            Out::Bad(arbitrary(), q)
        } else {
            variants(ts, acc.push(v), q + 1)
        },
    }
}

/// `enum_decl ::= "enum" ident "{" (variant ("," variant)* ","?)? "}"`
pub open spec fn enum_decl(ts: Seq<SToken>, p: int) -> Out<SEnum> {
    match want(ts, p, Tok::Enum, "`enum`"@) {
        Out::Bad(e, q) => Out::Bad(e, q),
        Out::Got(_, q0) => match ident(ts, q0) {
            Out::Bad(e, q) => Out::Bad(e, q),
            Out::Got(name, q1) => match want(ts, q1, Tok::LBrace, "`{`"@) {
                Out::Bad(e, q) => Out::Bad(e, q),
                Out::Got(_, q2) => {
                    let body = if at(ts, q2, Tok::RBrace) {
                        Out::Got(Seq::empty(), q2)
                    } else {
                        variants(ts, Seq::empty(), q2)
                    };
                    match body {
                        Out::Bad(e, q) => Out::Bad(e, q),
                        Out::Got(v, q3) => match want(ts, q3, Tok::RBrace, "`}`"@) {
                            Out::Bad(e, q) => Out::Bad(e, q),
                            Out::Got(_, q4) => Out::Got(
                                SEnum { name, variants: v, span: here(ts, p) },
                                q4,
                            ),
                        },
                    }
                },
            },
        },
    }
}

/// `param ("," param)*`, behind the parameters in `acc`.
pub open spec fn params(ts: Seq<SToken>, acc: Seq<STyped>, p: int) -> Out<Seq<STyped>>
    decreases ts.len() - p,
{
    match typed(ts, p) {
        Out::Bad(e, q) => Out::Bad(e, q),
        Out::Got(f, q) => if at(ts, q, Tok::Comma) && p < q {
            params(ts, acc.push(f), q + 1)
        } else {
            Out::Got(acc.push(f), q)
        },
    }
}

/// The effect set with the effect that `name` names; `None` for an unknown name.
pub open spec fn with_effect(set: EffectSet, name: Seq<char>) -> Option<EffectSet> {
    if name == "rng"@ {
        Some(EffectSet { rng: true, ..set })
    } else if name == "io"@ {
        Some(EffectSet { io: true, ..set })
    } else if name == "concurrent"@ {
        Some(EffectSet { concurrent: true, ..set })
    } else if name == "network"@ {
        Some(EffectSet { network: true, ..set })
    } else {
        None
    }
}

pub open spec fn no_effects() -> EffectSet {
    EffectSet { rng: false, io: false, concurrent: false, network: false }
}

/// `name ("," name)*` with what `pure` and the names so far stand for.
pub open spec fn effects(ts: Seq<SToken>, pure: bool, set: EffectSet, p: int) -> Out<
    (bool, EffectSet),
>
    decreases ts.len() - p,
{
    match ident(ts, p) {
        Out::Bad(e, q) => Out::Bad(e, q),
        Out::Got(name, q) => if name != "pure"@ && with_effect(set, name) is None {
            fail(
                "unknown effect `"@ + name
                    + "` — expected `pure`, `rng`, `io`, `concurrent`, or `network`"@,
                here(ts, p),
                q,
            )
        } else {
            let pure2 = pure || name == "pure"@;
            let set2 = if name == "pure"@ {
                set
            } else {
                with_effect(set, name)->0
            };
            if at(ts, q, Tok::Comma) {
                effects(ts, pure2, set2, q + 1)
            } else {
                Out::Got((pure2, set2), q)
            }
        },
    }
}

/// `("effect" "(" name ("," name)* ")")?`; `pure` stands alone.
pub open spec fn effect_annotation(ts: Seq<SToken>, p: int) -> Out<Option<EffectSet>> {
    if !at(ts, p, Tok::Effect) {
        Out::Got(None, p)
    } else {
        match want(ts, p + 1, Tok::LParen, "`(`"@) {
            Out::Bad(e, q) => Out::Bad(e, q),
            Out::Got(_, q) => match effects(ts, false, no_effects(), q) {
                Out::Bad(e, q) => Out::Bad(e, q),
                Out::Got(found, q) => match want(ts, q, Tok::RParen, "`)`"@) {
                    Out::Bad(e, q) => Out::Bad(e, q),
                    Out::Got(_, q) => if found.0 && found.1 != no_effects() {
                        fail(
                            "`pure` declares the empty effect set and can't be combined with other effects"@,
                            here(ts, p),
                            q,
                        )
                    } else {
                        Out::Got(Some(found.1), q)
                    },
                },
            },
        }
    }
}

/// `fn_decl ::= "fn" ident "(" params? ")" ("->" type)? effect_annotation block`
pub open spec fn fn_decl(ts: Seq<SToken>, p: int) -> Out<SFn> {
    match want(ts, p, Tok::Fn, "`fn`"@) {
        Out::Bad(e, q) => Out::Bad(e, q),
        Out::Got(_, q0) => match ident(ts, q0) {
            Out::Bad(e, q) => Out::Bad(e, q),
            Out::Got(name, q1) => match want(ts, q1, Tok::LParen, "`(`"@) {
                Out::Bad(e, q) => Out::Bad(e, q),
                Out::Got(_, q2) => {
                    let list = if at(ts, q2, Tok::RParen) {
                        Out::Got(Seq::empty(), q2)
                    } else {
                        params(ts, Seq::empty(), q2)
                    };
                    match list {
                        Out::Bad(e, q) => Out::Bad(e, q),
                        Out::Got(v, q3) => match want(ts, q3, Tok::RParen, "`)`"@) {
                            Out::Bad(e, q) => Out::Bad(e, q),
                            Out::Got(_, q4) => {
                                let result = if at(ts, q4, Tok::Arrow) {
                                    ty(ts, q4 + 1)
                                } else {
                                    Out::Got(STy::Unit, q4)
                                };
                                match result {
                                    Out::Bad(e, q) => Out::Bad(e, q),
                                    Out::Got(ret, q5) => match effect_annotation(ts, q5) {
                                        Out::Bad(e, q) => Out::Bad(e, q),
                                        Out::Got(declared_effects, q6) => match block(ts, q6) {
                                            Out::Bad(e, q) => Out::Bad(e, q),
                                            Out::Got(body, q7) => Out::Got(
                                                SFn {
                                                    name,
                                                    params: v,
                                                    ret,
                                                    body,
                                                    span: here(ts, p),
                                                    declared_effects,
                                                    requirement: None,
                                                },
                                                q7,
                                            ),
                                        },
                                    },
                                }
                            },
                        },
                    }
                },
            },
        },
    }
}

/// `program ::= (struct_decl | enum_decl | fn_decl)*`, behind the items so far.
pub open spec fn items(ts: Seq<SToken>, acc: SProgram, p: int) -> Out<SProgram>
    decreases ts.len() - p,
{
    if p < 0 || p >= ts.len() || at(ts, p, Tok::Eof) {
        Out::Got(acc, p)
    } else if at(ts, p, Tok::Struct) {
        match struct_decl(ts, p) {
            Out::Bad(e, q) => Out::Bad(e, q),
            Out::Got(d, q) => if !(p < q <= ts.len()) {
                Out::Bad(arbitrary(), q)
            } else {
                items(ts, SProgram { structs: acc.structs.push(d), ..acc }, q)
            },
        }
    } else if at(ts, p, Tok::Enum) {
        match enum_decl(ts, p) {
            Out::Bad(e, q) => Out::Bad(e, q),
            Out::Got(d, q) => if !(p < q <= ts.len()) {
                Out::Bad(arbitrary(), q)
            } else {
                items(ts, SProgram { enums: acc.enums.push(d), ..acc }, q)
            },
        }
    } else {
        match fn_decl(ts, p) {
            Out::Bad(e, q) => Out::Bad(e, q),
            Out::Got(d, q) => if !(p < q <= ts.len()) {
                Out::Bad(arbitrary(), q)
            } else {
                items(ts, SProgram { fns: acc.fns.push(d), ..acc }, q)
            },
        }
    }
}

/// The program that a whole token stream spells.
pub open spec fn program(ts: Seq<SToken>) -> Out<SProgram> {
    items(ts, SProgram { fns: Seq::empty(), structs: Seq::empty(), enums: Seq::empty() }, 0)
}

/// One expression and nothing behind it.
pub open spec fn standalone(ts: Seq<SToken>) -> Out<SExpr> {
    match expr(ts, 0) {
        Out::Bad(e, q) => Out::Bad(e, q),
        Out::Got(e, q) => if at(ts, q, Tok::Eof) {
            Out::Got(e, q)
        } else {
            wrong(ts, q, "expected end of input"@)
        },
    }
}

} // verus!
