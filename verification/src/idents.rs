//! The names that an expression mentions.
use crate::ast::{Block, ElseBranch, Expr, MatchArm, Stmt, TransactSlot};
use crate::ir::lines_view;
use vstd::prelude::*;

verus! {

/// Names in the order in which they were met.
pub type Names = Seq<Seq<char>>;

/// The names in `out`, then those that `e` mentions.
pub open spec fn mentioned(e: Expr, out: Names) -> Names
    decreases e,
{
    match e {
        Expr::Ident(name, _) => out.push(name@),
        Expr::Int(..) | Expr::Float(..) | Expr::Str(..) | Expr::Bool(..) | Expr::Chan(_) => out,
        Expr::Unary(_, a, _) => mentioned(*a, out),
        Expr::Box(a, _) => mentioned(*a, out),
        Expr::Deref(a, _) => mentioned(*a, out),
        Expr::Ref(a, _) => mentioned(*a, out),
        Expr::Join(a, _) => mentioned(*a, out),
        Expr::Recv(a, _) => mentioned(*a, out),
        Expr::StopSandbox(a, _) => mentioned(*a, out),
        Expr::FieldAccess(a, _, _) => mentioned(*a, out),
        Expr::Listen(a, _) => mentioned(*a, out),
        Expr::Accept(a, _) => mentioned(*a, out),
        Expr::Open(a, b, _) => mentioned(*b, mentioned(*a, out)),
        Expr::Binary(_, a, b, _) => mentioned(*b, mentioned(*a, out)),
        Expr::Send(a, b, _) => mentioned(*b, mentioned(*a, out)),
        Expr::Connect(a, b, _) => mentioned(*b, mentioned(*a, out)),
        Expr::Assign(name, a, _) => mentioned(*a, out.push(name@)),
        Expr::Call(_, args, _) => mentioned_all(args@, out),
        Expr::Spawn(_, args, _) => mentioned_all(args@, out),
        Expr::SpawnSandbox(_, args, _) => mentioned_all(args@, out),
        Expr::ArrayLit(args, _) => mentioned_all(args@, out),
        Expr::Index(a, args, _) => mentioned_all(args@, mentioned(*a, out)),
        Expr::If { cond, then_block, else_block, .. } => {
            let done = mentioned_stmts(then_block.stmts@, mentioned(*cond, out));
            match else_block {
                Some(b) => mentioned_else(*b, done),
                None => done,
            }
        },
        Expr::Match { scrutinee, arms, .. } => mentioned_arms(arms@, mentioned(*scrutinee, out)),
        Expr::Transact { network, verify, commit, compensate, log, .. } => {
            let first = mentioned_slot(commit, mentioned_slot(verify, mentioned_slot(network, out)));
            let second = match compensate {
                Some(s) => mentioned_slot(s, first),
                None => first,
            };
            match log {
                Some(s) => mentioned_slot(s, second),
                None => second,
            }
        },
    }
}

pub open spec fn mentioned_all(v: Seq<Expr>, out: Names) -> Names
    decreases v,
{
    if v.len() == 0 {
        out
    } else {
        mentioned(v.last(), mentioned_all(v.drop_last(), out))
    }
}

pub open spec fn mentioned_slot(s: TransactSlot, out: Names) -> Names
    decreases s,
{
    mentioned_all(s.args@, out)
}

pub open spec fn mentioned_else(b: ElseBranch, out: Names) -> Names
    decreases b,
{
    match b {
        ElseBranch::Block(b) => mentioned_stmts(b.stmts@, out),
        ElseBranch::If(e) => mentioned(e, out),
    }
}

pub open spec fn mentioned_arms(v: Seq<MatchArm>, out: Names) -> Names
    decreases v,
{
    if v.len() == 0 {
        out
    } else {
        mentioned(*v.last().body, mentioned_arms(v.drop_last(), out))
    }
}

pub open spec fn mentioned_stmt(s: Stmt, out: Names) -> Names
    decreases s,
{
    match s {
        Stmt::Let { value, .. } => mentioned(value, out),
        Stmt::Return { value, .. } => match value {
            Some(e) => mentioned(e, out),
            None => out,
        },
        Stmt::While { cond, body, .. } => mentioned_stmts(body.stmts@, mentioned(cond, out)),
        Stmt::Expr(e) => mentioned(e, out),
        Stmt::Audited { body, .. } => mentioned_stmts(body@, out),
    }
}

pub open spec fn mentioned_stmts(v: Seq<Stmt>, out: Names) -> Names
    decreases v,
{
    if v.len() == 0 {
        out
    } else {
        mentioned_stmt(v.last(), mentioned_stmts(v.drop_last(), out))
    }
}

fn note(name: &String, out: &mut Vec<String>)
    ensures
        lines_view(final(out)@) == lines_view(old(out)@).push(name@),
{
    let ghost before = out@;
    out.push(name.clone());
    proof {
        assert(lines_view(out@) =~= lines_view(before).push(name@));
    }
}

/// Adds the names that `e` mentions.
pub fn collect_idents(e: &Expr, out: &mut Vec<String>)
    ensures
        lines_view(final(out)@) == mentioned(*e, lines_view(old(out)@)),
    decreases e, 1nat,
{
    match e {
        Expr::Ident(name, _) => note(name, out),
        Expr::Int(..) | Expr::Float(..) | Expr::Str(..) | Expr::Bool(..) | Expr::Chan(_) => {}
        Expr::Unary(_, a, _)
        | Expr::Box(a, _)
        | Expr::Deref(a, _)
        | Expr::Ref(a, _)
        | Expr::Join(a, _)
        | Expr::Recv(a, _)
        | Expr::StopSandbox(a, _)
        | Expr::FieldAccess(a, _, _)
        | Expr::Listen(a, _)
        | Expr::Accept(a, _) => collect_idents(a, out),
        Expr::Binary(_, a, b, _)
        | Expr::Send(a, b, _)
        | Expr::Connect(a, b, _)
        | Expr::Open(a, b, _) => {
            collect_idents(a, out);
            collect_idents(b, out);
        }
        Expr::Assign(name, a, _) => {
            note(name, out);
            collect_idents(a, out);
        }
        Expr::Call(_, args, _)
        | Expr::Spawn(_, args, _)
        | Expr::SpawnSandbox(_, args, _)
        | Expr::ArrayLit(args, _) => collect_idents_all(args, out),
        Expr::Index(a, args, _) => {
            collect_idents(a, out);
            collect_idents_all(args, out);
        }
        Expr::If { cond, then_block, else_block, .. } => {
            collect_idents(cond, out);
            collect_idents_block(then_block, out);
            match else_block {
                Some(b) => collect_idents_else(b, out),
                None => {}
            }
        }
        Expr::Match { scrutinee, arms, .. } => {
            collect_idents(scrutinee, out);
            collect_idents_arms(arms, out);
        }
        Expr::Transact { network, verify, commit, compensate, log, .. } => {
            collect_idents_slot(network, out);
            collect_idents_slot(verify, out);
            collect_idents_slot(commit, out);
            match compensate {
                Some(s) => collect_idents_slot(s, out),
                None => {}
            }
            match log {
                Some(s) => collect_idents_slot(s, out),
                None => {}
            }
        }
    }
}

fn collect_idents_all(v: &Vec<Expr>, out: &mut Vec<String>)
    ensures
        lines_view(final(out)@) == mentioned_all(v@, lines_view(old(out)@)),
    decreases v, 1nat,
{
    let ghost start = lines_view(out@);
    let mut i: usize = 0;
    proof {
        assert(v@.take(0).len() == 0);
    }
    while i < v.len()
        invariant
            i <= v@.len(),
            start == lines_view(old(out)@),
            lines_view(out@) == mentioned_all(v@.take(i as int), start),
        decreases v@.len() - i,
    {
        collect_idents(&v[i], out);
        proof {
            assert(v@.take(i + 1).drop_last() =~= v@.take(i as int));
        }
        i = i + 1;
    }
    proof {
        assert(v@.take(i as int) =~= v@);
    }
}

fn collect_idents_arms(v: &Vec<MatchArm>, out: &mut Vec<String>)
    ensures
        lines_view(final(out)@) == mentioned_arms(v@, lines_view(old(out)@)),
    decreases v, 1nat,
{
    let ghost start = lines_view(out@);
    let mut i: usize = 0;
    proof {
        assert(v@.take(0).len() == 0);
    }
    while i < v.len()
        invariant
            i <= v@.len(),
            start == lines_view(old(out)@),
            lines_view(out@) == mentioned_arms(v@.take(i as int), start),
        decreases v@.len() - i,
    {
        collect_idents(&v[i].body, out);
        proof {
            assert(v@.take(i + 1).drop_last() =~= v@.take(i as int));
        }
        i = i + 1;
    }
    proof {
        assert(v@.take(i as int) =~= v@);
    }
}

fn collect_idents_block(b: &Block, out: &mut Vec<String>)
    ensures
        lines_view(final(out)@) == mentioned_stmts(b.stmts@, lines_view(old(out)@)),
    decreases b, 1nat,
{
    collect_idents_stmts(&b.stmts, out);
}

fn collect_idents_slot(s: &TransactSlot, out: &mut Vec<String>)
    ensures
        lines_view(final(out)@) == mentioned_slot(*s, lines_view(old(out)@)),
    decreases s, 1nat,
{
    collect_idents_all(&s.args, out);
}

fn collect_idents_else(b: &ElseBranch, out: &mut Vec<String>)
    ensures
        lines_view(final(out)@) == mentioned_else(*b, lines_view(old(out)@)),
    decreases b, 1nat,
{
    match b {
        ElseBranch::Block(b) => collect_idents_block(b, out),
        ElseBranch::If(e) => collect_idents(e, out),
    }
}

fn collect_idents_stmt(s: &Stmt, out: &mut Vec<String>)
    ensures
        lines_view(final(out)@) == mentioned_stmt(*s, lines_view(old(out)@)),
    decreases s, 1nat,
{
    match s {
        Stmt::Let { value, .. } => collect_idents(value, out),
        Stmt::Return { value, .. } => match value {
            Some(e) => collect_idents(e, out),
            None => {}
        },
        Stmt::While { cond, body, .. } => {
            collect_idents(cond, out);
            collect_idents_block(body, out);
        }
        Stmt::Expr(e) => collect_idents(e, out),
        Stmt::Audited { body, .. } => collect_idents_stmts(body, out),
    }
}

fn collect_idents_stmts(v: &Vec<Stmt>, out: &mut Vec<String>)
    ensures
        lines_view(final(out)@) == mentioned_stmts(v@, lines_view(old(out)@)),
    decreases v, 1nat,
{
    let ghost start = lines_view(out@);
    let mut i: usize = 0;
    proof {
        assert(v@.take(0).len() == 0);
    }
    while i < v.len()
        invariant
            i <= v@.len(),
            start == lines_view(old(out)@),
            lines_view(out@) == mentioned_stmts(v@.take(i as int), start),
        decreases v@.len() - i,
    {
        collect_idents_stmt(&v[i], out);
        proof {
            assert(v@.take(i + 1).drop_last() =~= v@.take(i as int));
        }
        i = i + 1;
    }
    proof {
        assert(v@.take(i as int) =~= v@);
    }
}

} // verus!
