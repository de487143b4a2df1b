//! The code of an expression, part by part: the code of its operands in their order, and
//! behind it code that does with their results what the expression says.
use crate::arith::int_op;
use crate::ast::{greatest, least, BinOp, Block, ElseBranch, Expr, STy, Stmt, UnOp};
use crate::codegen::{
    branch, expr, free_open, if_join, if_open, if_other, logic_left, stmt, stmts, while_body,
    while_open, G,
};
use crate::emit::write_slot;
use crate::flow::{
    ends_with, kept, loops_go_round, one_branch_runs, one_side_may_decide, packed, slots_are_read,
    slots_are_written, without,
};
use crate::ir::{aggregate, llvm, Cx, Gen, Text};
use crate::layout::{check_range, names_at, names_on, trailing_ty, ty_of, Slots};
use crate::native::{
    adds, constants_are_operands, integer_code_computes, one_operand_is_computed_with, operand,
    ranges_are_guarded, roomy, run, settled, sized, word, wrapped, yields, End, Instr, State, Word,
};
use crate::scopes::{lookup, opened};
use crate::token::Span;
use crate::value::SOutcome;
use vstd::prelude::*;

verus! {

/// A constant is itself.
pub proof fn constants_are_compiled(g: G, cx: Cx, sc: Slots, e: Expr, m: State)
    ensures
        e matches Expr::Int(n, _) ==> (expr(g, cx, sc, e) matches Gen::Made(c, v) && c == cx && operand(
            m,
            v,
        ) == Some(Word::I64(n))),
        e matches Expr::Bool(b, _) ==> (expr(g, cx, sc, e) matches Gen::Made(c, v) && c == cx
            && operand(m, v) == Some(Word::I1(b))),
{
    match e {
        Expr::Int(n, _) => constants_are_operands(m, n),
        Expr::Bool(..) => constants_are_operands(m, 0),
        _ => {},
    }
}

/// A name is what stands in its slot.
pub proof fn names_are_compiled(g: G, cx: Cx, sc: Slots, e: Expr, m: State, w: Word) -> (code: Seq<
    Instr,
>)
    requires
        roomy(cx, 3),
        e matches Expr::Ident(name, _) && (lookup(sc, name@) matches Some(s) && kept(s.0, w)
            && m.mem.dom().contains(s.1) && m.mem[s.1] == packed(s.0, w)),
    ensures
        expr(g, cx, sc, e) matches Gen::Made(c, v) && adds(cx, c, code) && ends_with(
            run(code, 0, m),
            v,
            w,
        ),
{
    if let Expr::Ident(name, _) = e {
        let s = lookup(sc, name@)->0;
        slots_are_read(cx, name@ + ".val"@, s.0, s.1, m, w)
    } else {
        Seq::empty()
    }
}

/// An operator on two integers: behind the code of the left side and that of the right side
/// stands code that leaves what the interpreter computes of the left value and the right value,
/// and that aborts on a divisor of zero, unless the check is waived or was proved away.
pub proof fn operators_are_compiled(
    g: G,
    cx: Cx,
    sc: Slots,
    op: BinOp,
    l: Expr,
    r: Expr,
    span: Span,
    one: Cx,
    a: Text,
    two: Cx,
    b: Text,
    m: State,
    x: i64,
    y: i64,
) -> (code: Seq<Instr>)
    requires
        op != BinOp::And,
        op != BinOp::Or,
        expr(g, cx, sc, l) == Gen::Made(one, a),
        expr(g, one, sc, r) == Gen::Made(two, b),
        kept(ty_of(g.p, l, sc), Word::I64(x)),
        roomy(two, 3),
        settled(two, a),
        settled(two, b),
        operand(m, a) == Some(Word::I64(x)),
        operand(m, b) == Some(Word::I64(y)),
    ensures
        expr(g, cx, sc, Expr::Binary(op, Box::new(l), Box::new(r), span)) matches Gen::Made(c, v) && {
            &&& adds(two, c, code)
            &&& settled(c, v)
            &&& int_op(op, x, y, span) matches SOutcome::Val(w) ==> (word(w) matches Some(k) && yields(
                two,
                m,
                run(code, 0, m),
                v,
                k,
            ))
            &&& int_op(op, x, y, span) is Fail && !two.audited
                && !g.report.proven_nonzero_divisor@.contains(span) ==> run(code, 0, m) is Aborted
        },
{
    let e = Expr::Binary(op, Box::new(l), Box::new(r), span);
    let t = ty_of(g.p, l, sc);
    let proven = g.report.proven_nonzero_divisor@.contains(span);
    assert(!aggregate(t) && t != STy::Str);
    assert(expr(g, cx, sc, e) == crate::emit::arith(two, op, a, b, t, proven));
    integer_code_computes(two, op, a, b, t, proven, m, x, y, span)
}

/// `-` and `!`
pub proof fn prefixes_are_compiled(
    g: G,
    cx: Cx,
    sc: Slots,
    op: UnOp,
    a: Expr,
    span: Span,
    one: Cx,
    v: Text,
    m: State,
) -> (code: Seq<Instr>)
    requires
        expr(g, cx, sc, a) == Gen::Made(one, v),
        roomy(one, 1),
        ty_of(g.p, a, sc) != STy::F64,
    ensures
        expr(g, cx, sc, Expr::Unary(op, Box::new(a), span)) matches Gen::Made(c, r) && {
            &&& op == UnOp::Neg ==> (operand(m, v) matches Some(Word::I64(x)) ==> adds(one, c, code)
                && yields(one, m, run(code, 0, m), r, Word::I64(wrapped(-x))))
            &&& op == UnOp::Not ==> (operand(m, v) matches Some(Word::I1(b)) ==> adds(one, c, code)
                && yields(one, m, run(code, 0, m), r, Word::I1(!b)))
        },
{
    one_operand_is_computed_with(one, v, m)
}

/// `&&` and `||`: the code of the left side stands in front; where the left side decides, its
/// value is that of the whole, and else it is that of the right side.
pub proof fn logic_is_compiled(
    g: G,
    cx: Cx,
    sc: Slots,
    op: BinOp,
    l: Expr,
    r: Expr,
    span: Span,
    one: Cx,
    a: Text,
    two: Cx,
    b: Text,
    inner: Seq<Instr>,
    m: State,
    x: bool,
) -> (code: Seq<Instr>)
    requires
        op == BinOp::And || op == BinOp::Or,
        ({
            let s = crate::ir::fresh_slot(cx, "logic_result.addr"@, "i1"@);
            let mid = logic_left(one, op, a, s.1);
            &&& expr(g, s.0, sc, l) == Gen::Made(one, a)
            &&& expr(g, mid.0, sc, r) == Gen::Made(two, b)
            &&& adds(mid.0, two, inner)
            &&& without(inner, mid.1)
        }),
        roomy(one, 3),
        roomy(two, 1),
        operand(m, a) == Some(Word::I1(x)),
    ensures
        expr(g, cx, sc, Expr::Binary(op, Box::new(l), Box::new(r), span)) matches Gen::Made(c, v) && {
            &&& adds(one, c, code)
            &&& op == BinOp::And && !x ==> ends_with(run(code, 0, m), v, Word::I1(false))
            &&& op == BinOp::Or && x ==> ends_with(run(code, 0, m), v, Word::I1(true))
            &&& x == (op == BinOp::And) ==> {
                &&& run(inner, 0, m) matches End::Through(n) ==> (operand(n, b) matches Some(
                    Word::I1(y),
                ) ==> ends_with(run(code, 0, m), v, Word::I1(y)))
                &&& run(inner, 0, m) is Aborted ==> run(code, 0, m) is Aborted
            }
        },
{
    let s = crate::ir::fresh_slot(cx, "logic_result.addr"@, "i1"@);
    one_side_may_decide(one, op, a, s.1, m, x, two, inner, b)
}

/// A `let` or an assignment of an integer: behind the code of the value stands code that puts
/// the value into the variable's slot where it is one of the variable's type, and that aborts
/// where it is not, unless the check is waived or was proved away.
pub proof fn assignments_are_compiled(
    g: G,
    cx: Cx,
    sc: Slots,
    name: String,
    a: Expr,
    span: Span,
    one: Cx,
    v: Text,
    m: State,
    x: i64,
) -> (code: (Seq<Instr>, Seq<Instr>))
    requires
        expr(g, cx, sc, a) == Gen::Made(one, v),
        roomy(one, 9),
        settled(one, v),
        operand(m, v) == Some(Word::I64(x)),
        lookup(sc, name@) matches Some(s) && kept(s.0, Word::I64(0)),
    ensures
        lookup(sc, name@) matches Some(s) && (expr(
            g,
            cx,
            sc,
            Expr::Assign(name, Box::new(a), span),
        ) matches Gen::Made(c, r) && {
            let mid = check_range(g.report, one, v, s.0, span);
            let fits = least(s.0) <= x <= greatest(s.0);
            &&& r == v
            &&& adds(one, mid, code.0)
            &&& !fits && !one.audited && !g.report.proven_in_range@.contains(span) ==> run(
                code.0,
                0,
                m,
            ) is Aborted
            &&& fits ==> adds(mid, c, code.1) && (run(code.0, 0, m) matches End::Through(n) && n.mem
                == m.mem && (run(code.1, 0, n) matches End::Through(k) && k.mem == m.mem.insert(
                s.1,
                packed(s.0, Word::I64(x)),
            )))
        }),
{
    let s = lookup(sc, name@)->0;
    let mid = check_range(g.report, one, v, s.0, span);
    reveal(check_range);
    let fits = least(s.0) <= x <= greatest(s.0);
    let waived = one.audited || g.report.proven_in_range@.contains(span);
    let first = if waived {
        assert(one.body + crate::native::lines(Seq::<Instr>::empty()) =~= one.body);
        assert(run(Seq::<Instr>::empty(), 0, m) == End::Through(m));
        Seq::<Instr>::empty()
    } else {
        ranges_are_guarded(one, v, least(s.0) as i64, greatest(s.0) as i64, m, x)
    };
    if fits {
        let n = run(first, 0, m)->Through_0;
        assert(operand(n, v) == operand(m, v));
        let second = slots_are_written(mid, v, s.0, s.1, n, Word::I64(x));
        (first, second)
    } else {
        reveal(write_slot);
        reveal(crate::ir::stored);
        reveal(crate::ir::narrow);
        reveal(crate::ir::llvm);
        (first, Seq::empty())
    }
}

/// `while`: the code of the condition and that of the body stand in a loop that goes on as long
/// as the condition holds.
pub proof fn loops_are_compiled(
    g: G,
    cx: Cx,
    sc: Slots,
    cond: Expr,
    body: Block,
    span: Span,
    tested: Cx,
    v: Text,
    test: Seq<Instr>,
    last: Cx,
    inner: Slots,
    round: Seq<Instr>,
    m: State,
) -> (code: (Seq<Instr>, Seq<Instr>))
    requires
        roomy(cx, 3),
        ({
            let w = while_open(cx);
            let done = free_open(last, names_at(g.free.at_while_end@, span, 0), inner);
            &&& expr(g, w.0, sc, cond) == Gen::Made(tested, v)
            &&& stmts(g, while_body(tested, v, w.1), opened(sc), body.stmts@, body.stmts@.len())
                == Gen::Made(last, inner)
            &&& adds(w.0, tested, test)
            &&& adds(while_body(tested, v, w.1), done, round)
            &&& !done.terminated
            &&& without(test, w.1.0)
            &&& without(round, w.1.0)
            &&& without(round, w.1.2)
        }),
    ensures
        stmt(g, cx, sc, Stmt::While { cond, body, span }) matches Gen::Made(c, s) && {
            let again = while_open(cx).1.0;
            &&& s == sc
            &&& adds(cx, c, code.0 + code.1)
            &&& code.0 == seq![Instr::Jump(again), Instr::Label(again)]
            &&& run(code.0, 0, m) == End::Through(m)
            &&& run(test, 0, m) matches End::Through(n) ==> {
                &&& operand(n, v) == Some(Word::I1(false)) ==> run(code.1, 0, m) == End::Through(n)
                &&& operand(n, v) == Some(Word::I1(true)) ==> (run(round, 0, n) matches End::Through(
                    e,
                ) ==> run(code.1, 0, m) == End::Out(again, e))
                &&& operand(n, v) == Some(Word::I1(true)) && run(round, 0, n) is Aborted ==> run(
                    code.1,
                    0,
                    m,
                ) is Aborted
            }
        },
{
    let done = free_open(last, names_at(g.free.at_while_end@, span, 0), inner);
    loops_go_round(cx, test, tested, v, round, done, m)
}

/// `if` with two blocks and a value: the code of the condition stands in front; the first block
/// runs where the condition holds and the second where it does not, and the value is that of the
/// block that ran.
pub proof fn conditions_are_compiled(
    g: G,
    cx: Cx,
    sc: Slots,
    cond: Expr,
    yes: Block,
    no: Block,
    span: Span,
    zero: Cx,
    v: Text,
    one: Seq<Instr>,
    first: Cx,
    a: Text,
    other: Seq<Instr>,
    second: Cx,
    b: Text,
    m: State,
    x: bool,
) -> (code: Seq<Instr>)
    requires
        roomy(zero, 3),
        roomy(second, 1),
        operand(m, v) == Some(Word::I1(x)),
        expr(g, cx, sc, cond) == Gen::Made(zero, v),
        ({
            let t = trailing_ty(g.p, yes.stmts@, sc);
            let free = g.free.at_if_branch_end@;
            &&& t != STy::Unit
            &&& llvm(t) is Is
            &&& if_open(zero, v, t) matches Gen::Made(c, h) && {
                let mid = if_other(if_join(first, h, a), h);
                &&& branch(g, c, sc, yes.stmts@, names_on(free, span, true, 0)) == Gen::Made(first, a)
                &&& branch(g, mid, sc, no.stmts@, names_on(free, span, false, 0)) == Gen::Made(
                    second,
                    b,
                )
                &&& adds(c, first, one)
                &&& !first.terminated
                &&& adds(mid, second, other)
                &&& !second.terminated
                &&& without(one, h.other)
                &&& without(other, h.merge)
            }
        }),
    ensures
        expr(
            g,
            cx,
            sc,
            Expr::If {
                cond: Box::new(cond),
                then_block: yes,
                else_block: Some(Box::new(ElseBranch::Block(no))),
                span,
            },
        ) matches Gen::Made(c, r) && {
            let ty = llvm(trailing_ty(g.p, yes.stmts@, sc))->Is_0;
            &&& adds(zero, c, code)
            &&& x ==> (run(one, 0, m) matches End::Through(n) ==> (operand(n, a) matches Some(w) ==> (
            sized(w, ty) ==> ends_with(run(code, 0, m), r, w))))
            &&& !x ==> (run(other, 0, m) matches End::Through(n) ==> (operand(n, b) matches Some(w)
                ==> (sized(w, ty) ==> ends_with(run(code, 0, m), r, w))))
        },
{
    let t = trailing_ty(g.p, yes.stmts@, sc);
    one_branch_runs(zero, v, t, one, first, a, other, second, b, m, x)
}

} // verus!
