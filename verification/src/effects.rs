//! Effect inference. The effects of a function are those of its body and, in
//! turn, of every function that it calls: the least solution over the whole
//! call graph, so that direct and mutual recursion both work.
//!
//! | Effect | Comes from |
//! |---|---|
//! | none (`pure`) | everything not listed below |
//! | `rng` | `rand_seed`, `rand_f64`, `rand_gaussian` |
//! | `io` | `print`; a file's `open`, `send`, `recv`, `stop` |
//! | `concurrent` | `spawn`, `join`; a channel's `send`, `recv`; `sandbox` and its `stop` |
//! | `network` | `connect`, `listen`, `accept`; a connection's `send`, `recv`, `stop` |
use crate::ast::{
    EffectSet, ElseBranch, Expr, FnDecl, MatchArm, Program, STy, Stmt, TransactSlot, Ty,
};
use crate::builtins::{builtin_named, Builtin};
use crate::registry::{find_fn, fn_named, variant_named};
use crate::scopes::{defined, opened, Scopes};
use crate::text::same;
use crate::typing::{arm_closes, handle_effect, open_arm, used};
use vstd::prelude::*;

verus! {

/// The scopes that the types of names are looked up in.
pub type Types = Seq<Map<Seq<char>, STy>>;

/// What is known of the effects of the function with a given name; the empty
/// set for a name that no function has.
pub type Known = spec_fn(Seq<char>) -> EffectSet;

pub open spec fn no_effect() -> EffectSet {
    EffectSet { rng: false, io: false, concurrent: false, network: false }
}

pub open spec fn rng() -> EffectSet {
    EffectSet { rng: true, ..no_effect() }
}

pub open spec fn io() -> EffectSet {
    EffectSet { io: true, ..no_effect() }
}

pub open spec fn concurrent() -> EffectSet {
    EffectSet { concurrent: true, ..no_effect() }
}

pub open spec fn network() -> EffectSet {
    EffectSet { network: true, ..no_effect() }
}

/// The union of two effect sets.
pub open spec fn both(a: EffectSet, b: EffectSet) -> EffectSet {
    EffectSet {
        rng: a.rng || b.rng,
        io: a.io || b.io,
        concurrent: a.concurrent || b.concurrent,
        network: a.network || b.network,
    }
}

/// Whether every effect of `a` is one of `b`.
pub open spec fn within(a: EffectSet, b: EffectSet) -> bool {
    &&& a.rng ==> b.rng
    &&& a.io ==> b.io
    &&& a.concurrent ==> b.concurrent
    &&& a.network ==> b.network
}

/// What calling a function by name does.
pub open spec fn calling(name: Seq<char>, k: Known) -> EffectSet {
    match builtin_named(name) {
        Some(b) => of_builtin(b),
        None => k(name),
    }
}

pub open spec fn of_builtin(b: Builtin) -> EffectSet {
    match b {
        Builtin::Print => io(),
        Builtin::RandSeed | Builtin::RandF64 | Builtin::RandGaussian => rng(),
        _ => no_effect(),
    }
}

/// The scopes inside a match arm: its names have the types of the payload.
pub open spec fn bound(sc: Types, names: Seq<String>, payload: Seq<Ty>, n: nat) -> Types
    decreases n,
{
    if n == 0 {
        sc
    } else {
        defined(
            bound(sc, names, payload, (n - 1) as nat),
            names[n - 1]@,
            payload[n - 1]@,
        )
    }
}

pub open spec fn shorter(a: nat, b: nat) -> nat {
    if a <= b {
        a
    } else {
        b
    }
}

pub open spec fn arm_scopes(p: Program, arm: MatchArm, sc: Types) -> Types {
    match variant_named(p, arm.variant@) {
        Some(ij) => {
            let payload = p.enums@[ij.0].variants@[ij.1].payload@;
            bound(
                opened(sc),
                arm.bindings@,
                payload,
                shorter(arm.bindings@.len(), payload.len()),
            )
        },
        None => opened(sc),
    }
}

/// The scopes behind the first step of a `transact`: its name stands for what it gave.
pub open spec fn network_scope(p: Program, name: Seq<char>, sc: Types) -> Types {
    match fn_named(p, name) {
        Some(i) => defined(sc, "network"@, p.fns@[i].ret@),
        None => sc,
    }
}

/// The effects of evaluating an expression.
pub open spec fn of_expr(p: Program, e: Expr, sc: Types, k: Known) -> EffectSet
    decreases e,
{
    match e {
        Expr::Int(..)
        | Expr::Float(..)
        | Expr::Bool(..)
        | Expr::Str(..)
        | Expr::Ident(..)
        | Expr::Chan(_) => no_effect(),
        Expr::Unary(_, a, _) => of_expr(p, *a, sc, k),
        Expr::Box(a, _) => of_expr(p, *a, sc, k),
        Expr::Deref(a, _) => of_expr(p, *a, sc, k),
        Expr::Ref(a, _) => of_expr(p, *a, sc, k),
        Expr::FieldAccess(a, _, _) => of_expr(p, *a, sc, k),
        Expr::Assign(_, a, _) => of_expr(p, *a, sc, k),
        Expr::Binary(_, a, b, _) => both(of_expr(p, *a, sc, k), of_expr(p, *b, sc, k)),
        Expr::Call(name, args, _) => both(of_exprs(p, args@, sc, k), calling(name@, k)),
        Expr::If { cond, then_block, else_block, .. } => both(
            both(of_expr(p, *cond, sc, k), of_stmts(p, then_block.stmts@, opened(sc), k)),
            match else_block {
                Some(b) => of_else(p, *b, sc, k),
                None => no_effect(),
            },
        ),
        Expr::Spawn(name, args, _) => both(
            both(concurrent(), of_exprs(p, args@, sc, k)),
            k(name@),
        ),
        Expr::SpawnSandbox(name, args, _) => both(
            both(concurrent(), of_exprs(p, args@, sc, k)),
            k(name@),
        ),
        Expr::Join(a, _) => both(concurrent(), of_expr(p, *a, sc, k)),
        Expr::Send(a, b, _) => both(
            both(used(p, *a, sc, false), of_expr(p, *a, sc, k)),
            of_expr(p, *b, sc, k),
        ),
        Expr::Recv(a, _) => both(used(p, *a, sc, false), of_expr(p, *a, sc, k)),
        Expr::StopSandbox(a, _) => both(used(p, *a, sc, true), of_expr(p, *a, sc, k)),
        Expr::Connect(a, b, _) => both(
            both(network(), of_expr(p, *a, sc, k)),
            of_expr(p, *b, sc, k),
        ),
        Expr::Listen(a, _) => both(network(), of_expr(p, *a, sc, k)),
        Expr::Accept(a, _) => both(network(), of_expr(p, *a, sc, k)),
        Expr::Open(a, b, _) => both(both(io(), of_expr(p, *a, sc, k)), of_expr(p, *b, sc, k)),
        Expr::Index(a, args, _) => both(of_expr(p, *a, sc, k), of_exprs(p, args@, sc, k)),
        Expr::ArrayLit(args, _) => of_exprs(p, args@, sc, k),
        Expr::Transact { network, verify, commit, compensate, log, .. } => {
            let called = network_scope(p, network.name@, opened(sc));
            let last = defined(called, "verify"@, STy::Bool);
            both(
                both(
                    both(of_slot(p, network, opened(sc), k), of_slot(p, verify, called, k)),
                    of_slot(p, commit, last, k),
                ),
                both(
                    match compensate {
                        Some(s) => of_slot(p, s, last, k),
                        None => no_effect(),
                    },
                    match log {
                        Some(s) => of_slot(p, s, last, k),
                        None => no_effect(),
                    },
                ),
            )
        },
        Expr::Match { scrutinee, arms, .. } => both(
            of_expr(p, *scrutinee, sc, k),
            of_arms(p, arms@, sc, k),
        ),
    }
}

pub open spec fn of_exprs(p: Program, v: Seq<Expr>, sc: Types, k: Known) -> EffectSet
    decreases v,
{
    if v.len() == 0 {
        no_effect()
    } else {
        both(of_exprs(p, v.drop_last(), sc, k), of_expr(p, v.last(), sc, k))
    }
}

pub open spec fn of_slot(p: Program, s: TransactSlot, sc: Types, k: Known) -> EffectSet
    decreases s,
{
    both(of_exprs(p, s.args@, sc, k), k(s.name@))
}

pub open spec fn of_else(p: Program, b: ElseBranch, sc: Types, k: Known) -> EffectSet
    decreases b,
{
    match b {
        ElseBranch::Block(b) => of_stmts(p, b.stmts@, opened(sc), k),
        ElseBranch::If(e) => of_expr(p, e, sc, k),
    }
}

pub open spec fn of_arms(p: Program, v: Seq<MatchArm>, sc: Types, k: Known) -> EffectSet
    decreases v,
{
    if v.len() == 0 {
        no_effect()
    } else {
        both(
            of_arms(p, v.drop_last(), sc, k),
            of_expr(p, *v.last().body, arm_scopes(p, v.last(), sc), k),
        )
    }
}

/// The effects of running a statement.
pub open spec fn of_stmt(p: Program, s: Stmt, sc: Types, k: Known) -> EffectSet
    decreases s,
{
    match s {
        Stmt::Let { value, .. } => of_expr(p, value, sc, k),
        Stmt::Return { value, .. } => match value {
            Some(e) => of_expr(p, e, sc, k),
            None => no_effect(),
        },
        Stmt::While { cond, body, .. } => both(
            of_expr(p, cond, sc, k),
            of_stmts(p, body.stmts@, opened(sc), k),
        ),
        Stmt::Audited { body, .. } => of_stmts(p, body@, opened(sc), k),
        Stmt::Expr(e) => of_expr(p, e, sc, k),
    }
}

/// The scopes behind a statement: a `let` binds its name.
pub open spec fn after_stmt(s: Stmt, sc: Types) -> Types {
    match s {
        Stmt::Let { name, ty, .. } => defined(sc, name@, ty@),
        _ => sc,
    }
}

pub open spec fn after_stmts(v: Seq<Stmt>, sc: Types) -> Types
    decreases v.len(),
{
    if v.len() == 0 {
        sc
    } else {
        after_stmt(v.last(), after_stmts(v.drop_last(), sc))
    }
}

pub open spec fn of_stmts(p: Program, v: Seq<Stmt>, sc: Types, k: Known) -> EffectSet
    decreases v,
{
    if v.len() == 0 {
        no_effect()
    } else {
        both(
            of_stmts(p, v.drop_last(), sc, k),
            of_stmt(p, v.last(), after_stmts(v.drop_last(), sc), k),
        )
    }
}

/// The scope that a function's parameters make.
pub open spec fn param_scope(f: FnDecl, n: nat) -> Types
    decreases n,
{
    if n == 0 {
        opened(Seq::empty())
    } else {
        defined(
            param_scope(f, (n - 1) as nat),
            f.params@[n - 1].name@,
            f.params@[n - 1].ty@,
        )
    }
}

/// The effects of running a function's body, given those of the functions.
pub open spec fn of_fn(p: Program, f: FnDecl, k: Known) -> EffectSet {
    of_stmts(p, f.body.stmts@, param_scope(f, f.params@.len()), k)
}

/// Whether `k` accounts for everything that running any function does.
pub open spec fn closed_under(p: Program, k: Known) -> bool {
    forall|i: int|
        0 <= i < p.fns@.len() ==> within(
            of_fn(p, #[trigger] p.fns@[i], k),
            k(p.fns@[i].name@),
        )
}

/// The effects known of a name, where function `i` is known to have `v[i]`.
pub open spec fn known_upto(fns: Seq<FnDecl>, v: Seq<EffectSet>, name: Seq<char>, n: nat) -> EffectSet
    decreases n,
{
    if n == 0 {
        no_effect()
    } else {
        both(
            known_upto(fns, v, name, (n - 1) as nat),
            if fns[n - 1].name@ == name {
                v[n - 1]
            } else {
                no_effect()
            },
        )
    }
}

pub open spec fn known_in(fns: Seq<FnDecl>, v: Seq<EffectSet>) -> Known {
    |name: Seq<char>| known_upto(fns, v, name, fns.len())
}

pub(crate) proof fn after_stmts_keeps(v: Seq<Stmt>, sc: Types)
    requires
        sc.len() > 0,
    ensures
        after_stmts(v, sc).len() == sc.len(),
        after_stmts(v, sc).drop_last() == sc.drop_last(),
    decreases v.len(),
{
    if v.len() > 0 {
        after_stmts_keeps(v.drop_last(), sc);
        assert(after_stmts(v, sc).drop_last() =~= sc.drop_last());
    }
}

pub(crate) proof fn bound_keeps(sc: Types, names: Seq<String>, payload: Seq<Ty>, n: nat)
    requires
        sc.len() > 0,
    ensures
        bound(sc, names, payload, n).len() == sc.len(),
        bound(sc, names, payload, n).drop_last() == sc.drop_last(),
    decreases n,
{
    if n > 0 {
        bound_keeps(sc, names, payload, (n - 1) as nat);
        assert(bound(sc, names, payload, n).drop_last() =~= sc.drop_last());
    }
}

pub(crate) fn join_sets(a: EffectSet, b: EffectSet) -> (r: EffectSet)
    ensures
        r == both(a, b),
{
    EffectSet {
        rng: a.rng || b.rng,
        io: a.io || b.io,
        concurrent: a.concurrent || b.concurrent,
        network: a.network || b.network,
    }
}

pub(crate) fn nothing() -> (r: EffectSet)
    ensures
        r == no_effect(),
{
    EffectSet { rng: false, io: false, concurrent: false, network: false }
}

pub(crate) fn concurrency() -> (r: EffectSet)
    ensures
        r == concurrent(),
{
    EffectSet { rng: false, io: false, concurrent: true, network: false }
}

pub(crate) fn networking() -> (r: EffectSet)
    ensures
        r == network(),
{
    EffectSet { rng: false, io: false, concurrent: false, network: true }
}

pub(crate) fn input_output() -> (r: EffectSet)
    ensures
        r == io(),
{
    EffectSet { rng: false, io: true, concurrent: false, network: false }
}

/// A builtin's own effect.
fn builtin_effect(b: Builtin) -> (r: EffectSet)
    ensures
        r == of_builtin(b),
{
    match b {
        Builtin::Print => input_output(),
        Builtin::RandSeed | Builtin::RandF64 | Builtin::RandGaussian => EffectSet {
            rng: true,
            io: false,
            concurrent: false,
            network: false,
        },
        _ => nothing(),
    }
}

/// What is known of the function with this name.
fn known_of(p: &Program, known: &Vec<EffectSet>, name: &str) -> (r: EffectSet)
    requires
        known@.len() == p.fns@.len(),
    ensures
        r == known_in(p.fns@, known@)(name@),
{
    let mut acc = nothing();
    let mut i: usize = 0;
    while i < p.fns.len()
        invariant
            i <= p.fns@.len(),
            known@.len() == p.fns@.len(),
            acc == known_upto(p.fns@, known@, name@, i as nat),
        decreases p.fns@.len() - i,
    {
        if same(p.fns[i].name.as_str(), name) {
            acc = join_sets(acc, known[i]);
        }
        i = i + 1;
    }
    acc
}

fn walk_exprs(p: &Program, v: &Vec<Expr>, sc: &mut Scopes<Ty>, known: &Vec<EffectSet>) -> (r:
    EffectSet)
    requires
        old(sc)@.len() > 0,
        known@.len() == p.fns@.len(),
    ensures
        final(sc)@ == old(sc)@,
        r == of_exprs(*p, v@, old(sc)@, known_in(p.fns@, known@)),
    decreases v,
{
    let mut acc = nothing();
    let mut i: usize = 0;
    let ghost before = sc@;
    while i < v.len()
        invariant
            i <= v@.len(),
            sc@ == before,
            before.len() > 0,
            known@.len() == p.fns@.len(),
            acc == of_exprs(*p, v@.take(i as int), before, known_in(p.fns@, known@)),
        decreases v@.len() - i,
    {
        let one = walk_expr(p, &v[i], sc, known);
        acc = join_sets(acc, one);
        proof {
            assert(v@.take(i + 1).drop_last() =~= v@.take(i as int));
        }
        i = i + 1;
    }
    proof {
        assert(v@.take(i as int) =~= v@);
    }
    acc
}

fn walk_slot(p: &Program, s: &TransactSlot, sc: &mut Scopes<Ty>, known: &Vec<EffectSet>) -> (r:
    EffectSet)
    requires
        old(sc)@.len() > 0,
        known@.len() == p.fns@.len(),
    ensures
        final(sc)@ == old(sc)@,
        r == of_slot(*p, *s, old(sc)@, known_in(p.fns@, known@)),
    decreases s,
{
    let a = walk_exprs(p, &s.args, sc, known);
    let b = known_of(p, known, s.name.as_str());
    join_sets(a, b)
}

fn walk_block(p: &Program, v: &Vec<Stmt>, sc: &mut Scopes<Ty>, known: &Vec<EffectSet>) -> (r:
    EffectSet)
    requires
        old(sc)@.len() > 0,
        known@.len() == p.fns@.len(),
    ensures
        final(sc)@ == old(sc)@,
        r == of_stmts(*p, v@, opened(old(sc)@), known_in(p.fns@, known@)),
    decreases v, 1nat,
{
    let ghost before = sc@;
    sc.push();
    let r = walk_stmts(p, v, sc, known);
    proof {
        after_stmts_keeps(v@, opened(before));
        assert(opened(before).drop_last() =~= before);
    }
    sc.pop();
    r
}

fn walk_stmts(p: &Program, v: &Vec<Stmt>, sc: &mut Scopes<Ty>, known: &Vec<EffectSet>) -> (r:
    EffectSet)
    requires
        old(sc)@.len() > 0,
        known@.len() == p.fns@.len(),
    ensures
        final(sc)@ == after_stmts(v@, old(sc)@),
        r == of_stmts(*p, v@, old(sc)@, known_in(p.fns@, known@)),
    decreases v, 0nat,
{
    let mut acc = nothing();
    let mut i: usize = 0;
    let ghost before = sc@;
    while i < v.len()
        invariant
            i <= v@.len(),
            before.len() > 0,
            sc@ == after_stmts(v@.take(i as int), before),
            known@.len() == p.fns@.len(),
            acc == of_stmts(*p, v@.take(i as int), before, known_in(p.fns@, known@)),
        decreases v@.len() - i,
    {
        proof {
            after_stmts_keeps(v@.take(i as int), before);
        }
        let one = walk_stmt(p, &v[i], sc, known);
        acc = join_sets(acc, one);
        proof {
            assert(v@.take(i + 1).drop_last() =~= v@.take(i as int));
        }
        i = i + 1;
    }
    proof {
        assert(v@.take(i as int) =~= v@);
    }
    acc
}

fn walk_stmt(p: &Program, s: &Stmt, sc: &mut Scopes<Ty>, known: &Vec<EffectSet>) -> (r: EffectSet)
    requires
        old(sc)@.len() > 0,
        known@.len() == p.fns@.len(),
    ensures
        final(sc)@ == after_stmt(*s, old(sc)@),
        r == of_stmt(*p, *s, old(sc)@, known_in(p.fns@, known@)),
    decreases s,
{
    match s {
        Stmt::Let { name, ty, value, .. } => {
            let r = walk_expr(p, value, sc, known);
            sc.define(name.as_str(), ty.duplicate());
            r
        }
        Stmt::Return { value, .. } => match value {
            Some(e) => walk_expr(p, e, sc, known),
            None => nothing(),
        },
        Stmt::While { cond, body, .. } => {
            let a = walk_expr(p, cond, sc, known);
            let b = walk_block(p, &body.stmts, sc, known);
            join_sets(a, b)
        }
        Stmt::Audited { body, .. } => walk_block(p, body, sc, known),
        Stmt::Expr(e) => walk_expr(p, e, sc, known),
    }
}

fn walk_arm(p: &Program, arm: &MatchArm, sc: &mut Scopes<Ty>, known: &Vec<EffectSet>) -> (r:
    EffectSet)
    requires
        old(sc)@.len() > 0,
        known@.len() == p.fns@.len(),
    ensures
        final(sc)@ == old(sc)@,
        r == of_expr(*p, *arm.body, arm_scopes(*p, *arm, old(sc)@), known_in(p.fns@, known@)),
    decreases arm,
{
    let ghost before = sc@;
    open_arm(p, arm, sc);
    proof {
        arm_closes(*p, *arm, before);
    }
    let r = walk_expr(p, &arm.body, sc, known);
    sc.pop();
    r
}

fn walk_arms(p: &Program, v: &Vec<MatchArm>, sc: &mut Scopes<Ty>, known: &Vec<EffectSet>) -> (r:
    EffectSet)
    requires
        old(sc)@.len() > 0,
        known@.len() == p.fns@.len(),
    ensures
        final(sc)@ == old(sc)@,
        r == of_arms(*p, v@, old(sc)@, known_in(p.fns@, known@)),
    decreases v,
{
    let mut acc = nothing();
    let mut i: usize = 0;
    let ghost before = sc@;
    while i < v.len()
        invariant
            i <= v@.len(),
            sc@ == before,
            before.len() > 0,
            known@.len() == p.fns@.len(),
            acc == of_arms(*p, v@.take(i as int), before, known_in(p.fns@, known@)),
        decreases v@.len() - i,
    {
        let one = walk_arm(p, &v[i], sc, known);
        acc = join_sets(acc, one);
        proof {
            assert(v@.take(i + 1).drop_last() =~= v@.take(i as int));
        }
        i = i + 1;
    }
    proof {
        assert(v@.take(i as int) =~= v@);
    }
    acc
}

fn walk_else(p: &Program, b: &ElseBranch, sc: &mut Scopes<Ty>, known: &Vec<EffectSet>) -> (r:
    EffectSet)
    requires
        old(sc)@.len() > 0,
        known@.len() == p.fns@.len(),
    ensures
        final(sc)@ == old(sc)@,
        r == of_else(*p, *b, old(sc)@, known_in(p.fns@, known@)),
    decreases b,
{
    match b {
        ElseBranch::Block(b) => walk_block(p, &b.stmts, sc, known),
        ElseBranch::If(e) => walk_expr(p, e, sc, known),
    }
}

/// The effects of evaluating an expression.
fn walk_expr(p: &Program, e: &Expr, sc: &mut Scopes<Ty>, known: &Vec<EffectSet>) -> (r: EffectSet)
    requires
        old(sc)@.len() > 0,
        known@.len() == p.fns@.len(),
    ensures
        final(sc)@ == old(sc)@,
        r == of_expr(*p, *e, old(sc)@, known_in(p.fns@, known@)),
    decreases e,
{
    match e {
        Expr::Int(..)
        | Expr::Float(..)
        | Expr::Bool(..)
        | Expr::Str(..)
        | Expr::Ident(..)
        | Expr::Chan(_) => nothing(),
        Expr::Unary(_, a, _)
        | Expr::Box(a, _)
        | Expr::Deref(a, _)
        | Expr::Ref(a, _)
        | Expr::FieldAccess(a, _, _)
        | Expr::Assign(_, a, _) => walk_expr(p, a, sc, known),
        Expr::Binary(_, a, b, _) => {
            let x = walk_expr(p, a, sc, known);
            let y = walk_expr(p, b, sc, known);
            join_sets(x, y)
        }
        Expr::Call(name, args, _) => {
            let x = walk_exprs(p, args, sc, known);
            let y = match Builtin::from_name(name.as_str()) {
                Some(b) => builtin_effect(b),
                None => known_of(p, known, name.as_str()),
            };
            join_sets(x, y)
        }
        Expr::If { cond, then_block, else_block, .. } => {
            let x = walk_expr(p, cond, sc, known);
            let y = walk_block(p, &then_block.stmts, sc, known);
            let z = match else_block {
                Some(b) => walk_else(p, b, sc, known),
                None => nothing(),
            };
            let xy = join_sets(x, y);
            join_sets(xy, z)
        }
        Expr::Spawn(name, args, _) | Expr::SpawnSandbox(name, args, _) => {
            let x = walk_exprs(p, args, sc, known);
            let y = known_of(p, known, name.as_str());
            let cx = join_sets(concurrency(), x);
            join_sets(cx, y)
        }
        Expr::Join(a, _) => {
            let x = walk_expr(p, a, sc, known);
            join_sets(concurrency(), x)
        }
        Expr::Send(a, b, _) => {
            let t = handle_effect(p, a, sc, false);
            let x = walk_expr(p, a, sc, known);
            let y = walk_expr(p, b, sc, known);
            let tx = join_sets(t, x);
            join_sets(tx, y)
        }
        Expr::Recv(a, _) => {
            let t = handle_effect(p, a, sc, false);
            let x = walk_expr(p, a, sc, known);
            join_sets(t, x)
        }
        Expr::StopSandbox(a, _) => {
            let t = handle_effect(p, a, sc, true);
            let x = walk_expr(p, a, sc, known);
            join_sets(t, x)
        }
        Expr::Connect(a, b, _) => {
            let x = walk_expr(p, a, sc, known);
            let y = walk_expr(p, b, sc, known);
            let nx = join_sets(networking(), x);
            join_sets(nx, y)
        }
        Expr::Listen(a, _) | Expr::Accept(a, _) => {
            let x = walk_expr(p, a, sc, known);
            join_sets(networking(), x)
        }
        Expr::Open(a, b, _) => {
            let x = walk_expr(p, a, sc, known);
            let y = walk_expr(p, b, sc, known);
            let ix = join_sets(input_output(), x);
            join_sets(ix, y)
        }
        Expr::Index(a, args, _) => {
            let x = walk_expr(p, a, sc, known);
            let y = walk_exprs(p, args, sc, known);
            join_sets(x, y)
        }
        Expr::ArrayLit(args, _) => walk_exprs(p, args, sc, known),
        Expr::Transact { network, verify, commit, compensate, log, .. } => {
            let ghost before = sc@;
            sc.push();
            let a = walk_slot(p, network, sc, known);
            match find_fn(p, network.name.as_str()) {
                Some(i) => {
                    sc.define("network", p.fns[i].ret.duplicate());
                }
                None => {}
            }
            let b = walk_slot(p, verify, sc, known);
            sc.define("verify", Ty::Bool);
            let c = walk_slot(p, commit, sc, known);
            let d = match compensate {
                Some(s) => walk_slot(p, s, sc, known),
                None => nothing(),
            };
            let f = match log {
                Some(s) => walk_slot(p, s, sc, known),
                None => nothing(),
            };
            let ab = join_sets(a, b);
            let abc = join_sets(ab, c);
            let df = join_sets(d, f);
            proof {
                assert(crate::scopes::closed(sc@) =~= before);
            }
            sc.pop();
            join_sets(abc, df)
        }
        Expr::Match { scrutinee, arms, .. } => {
            let x = walk_expr(p, scrutinee, sc, known);
            let y = walk_arms(p, arms, sc, known);
            join_sets(x, y)
        }
    }
}

/// Whether `a` knows nothing that `b` does not.
pub open spec fn below(a: Known, b: Known) -> bool {
    forall|name: Seq<char>| within(#[trigger] a(name), b(name))
}

proof fn mono_expr(p: Program, e: Expr, sc: Types, a: Known, b: Known)
    requires
        below(a, b),
    ensures
        within(of_expr(p, e, sc, a), of_expr(p, e, sc, b)),
    decreases e,
{
    match e {
        Expr::Int(..)
        | Expr::Float(..)
        | Expr::Bool(..)
        | Expr::Str(..)
        | Expr::Ident(..)
        | Expr::Chan(_) => {}
        Expr::Unary(_, x, _)
        | Expr::Box(x, _)
        | Expr::Deref(x, _)
        | Expr::Ref(x, _)
        | Expr::FieldAccess(x, _, _)
        | Expr::Assign(_, x, _)
        | Expr::Join(x, _)
        | Expr::Recv(x, _)
        | Expr::StopSandbox(x, _)
        | Expr::Listen(x, _)
        | Expr::Accept(x, _) => {
            mono_expr(p, *x, sc, a, b);
        }
        Expr::Binary(_, x, y, _)
        | Expr::Send(x, y, _)
        | Expr::Connect(x, y, _)
        | Expr::Open(x, y, _) => {
            mono_expr(p, *x, sc, a, b);
            mono_expr(p, *y, sc, a, b);
        }
        Expr::Call(name, args, _) | Expr::Spawn(name, args, _) | Expr::SpawnSandbox(
            name,
            args,
            _,
        ) => {
            mono_exprs(p, args@, sc, a, b);
            assert(within(a(name@), b(name@)));
        }
        Expr::If { cond, then_block, else_block, .. } => {
            mono_expr(p, *cond, sc, a, b);
            mono_stmts(p, then_block.stmts@, opened(sc), a, b);
            match else_block {
                Some(x) => {
                    mono_else(p, *x, sc, a, b);
                }
                None => {}
            }
        }
        Expr::Index(x, args, _) => {
            mono_expr(p, *x, sc, a, b);
            mono_exprs(p, args@, sc, a, b);
        }
        Expr::ArrayLit(args, _) => {
            mono_exprs(p, args@, sc, a, b);
        }
        Expr::Transact { network, verify, commit, compensate, log, .. } => {
            let called = network_scope(p, network.name@, opened(sc));
            let last = defined(called, "verify"@, STy::Bool);
            mono_slot(p, network, opened(sc), a, b);
            mono_slot(p, verify, called, a, b);
            mono_slot(p, commit, last, a, b);
            match compensate {
                Some(s) => {
                    mono_slot(p, s, last, a, b);
                }
                None => {}
            }
            match log {
                Some(s) => {
                    mono_slot(p, s, last, a, b);
                }
                None => {}
            }
        }
        Expr::Match { scrutinee, arms, .. } => {
            mono_expr(p, *scrutinee, sc, a, b);
            mono_arms(p, arms@, sc, a, b);
        }
    }
}

proof fn mono_exprs(p: Program, v: Seq<Expr>, sc: Types, a: Known, b: Known)
    requires
        below(a, b),
    ensures
        within(of_exprs(p, v, sc, a), of_exprs(p, v, sc, b)),
    decreases v,
{
    if v.len() > 0 {
        mono_exprs(p, v.drop_last(), sc, a, b);
        mono_expr(p, v.last(), sc, a, b);
    }
}

proof fn mono_slot(p: Program, s: TransactSlot, sc: Types, a: Known, b: Known)
    requires
        below(a, b),
    ensures
        within(of_slot(p, s, sc, a), of_slot(p, s, sc, b)),
    decreases s,
{
    mono_exprs(p, s.args@, sc, a, b);
    assert(within(a(s.name@), b(s.name@)));
}

proof fn mono_else(p: Program, x: ElseBranch, sc: Types, a: Known, b: Known)
    requires
        below(a, b),
    ensures
        within(of_else(p, x, sc, a), of_else(p, x, sc, b)),
    decreases x,
{
    match x {
        ElseBranch::Block(y) => {
            mono_stmts(p, y.stmts@, opened(sc), a, b);
        }
        ElseBranch::If(e) => {
            mono_expr(p, e, sc, a, b);
        }
    }
}

proof fn mono_arms(p: Program, v: Seq<MatchArm>, sc: Types, a: Known, b: Known)
    requires
        below(a, b),
    ensures
        within(of_arms(p, v, sc, a), of_arms(p, v, sc, b)),
    decreases v,
{
    if v.len() > 0 {
        mono_arms(p, v.drop_last(), sc, a, b);
        mono_expr(p, *v.last().body, arm_scopes(p, v.last(), sc), a, b);
    }
}

proof fn mono_stmt(p: Program, s: Stmt, sc: Types, a: Known, b: Known)
    requires
        below(a, b),
    ensures
        within(of_stmt(p, s, sc, a), of_stmt(p, s, sc, b)),
    decreases s,
{
    match s {
        Stmt::Let { value, .. } => {
            mono_expr(p, value, sc, a, b);
        }
        Stmt::Return { value, .. } => match value {
            Some(e) => {
                mono_expr(p, e, sc, a, b);
            }
            None => {}
        },
        Stmt::While { cond, body, .. } => {
            mono_expr(p, cond, sc, a, b);
            mono_stmts(p, body.stmts@, opened(sc), a, b);
        }
        Stmt::Audited { body, .. } => {
            mono_stmts(p, body@, opened(sc), a, b);
        }
        Stmt::Expr(e) => {
            mono_expr(p, e, sc, a, b);
        }
    }
}

proof fn mono_stmts(p: Program, v: Seq<Stmt>, sc: Types, a: Known, b: Known)
    requires
        below(a, b),
    ensures
        within(of_stmts(p, v, sc, a), of_stmts(p, v, sc, b)),
    decreases v,
{
    if v.len() > 0 {
        mono_stmts(p, v.drop_last(), sc, a, b);
        mono_stmt(p, v.last(), after_stmts(v.drop_last(), sc), a, b);
    }
}

/// More effects of the functions that are called never mean fewer effects of
/// the function that calls them.
pub proof fn effects_are_monotone(p: Program, f: FnDecl, a: Known, b: Known)
    requires
        below(a, b),
    ensures
        within(of_fn(p, f, a), of_fn(p, f, b)),
{
    mono_stmts(p, f.body.stmts@, param_scope(f, f.params@.len()), a, b);
}

/// How many effects a set holds.
spec fn weight(s: EffectSet) -> nat {
    (if s.rng { 1nat } else { 0 }) + (if s.io { 1nat } else { 0 }) + (if s.concurrent {
        1nat
    } else {
        0
    }) + (if s.network { 1nat } else { 0 })
}

spec fn total(v: Seq<EffectSet>) -> nat
    decreases v.len(),
{
    if v.len() == 0 {
        0
    } else {
        total(v.drop_last()) + weight(v.last())
    }
}

proof fn total_bound(v: Seq<EffectSet>)
    ensures
        total(v) <= 4 * v.len(),
    decreases v.len(),
{
    if v.len() > 0 {
        total_bound(v.drop_last());
    }
}

proof fn total_grows(v: Seq<EffectSet>, i: int, s: EffectSet)
    requires
        0 <= i < v.len(),
        within(v[i], s),
        v[i] != s,
    ensures
        total(v.update(i, s)) > total(v),
    decreases v.len(),
{
    let w = v.update(i, s);
    if i == v.len() - 1 {
        assert(w.drop_last() =~= v.drop_last());
    } else {
        assert(w.drop_last() =~= v.drop_last().update(i, s));
        total_grows(v.drop_last(), i, s);
    }
}

proof fn known_upto_holds(fns: Seq<FnDecl>, v: Seq<EffectSet>, n: nat, i: int)
    requires
        0 <= i < n <= fns.len(),
        v.len() == fns.len(),
    ensures
        within(v[i], known_upto(fns, v, fns[i].name@, n)),
    decreases n,
{
    if i < n - 1 {
        known_upto_holds(fns, v, (n - 1) as nat, i);
    }
}

proof fn known_upto_least(fns: Seq<FnDecl>, v: Seq<EffectSet>, n: nat, name: Seq<char>, k: Known)
    requires
        n <= fns.len(),
        v.len() == fns.len(),
        forall|i: int| 0 <= i < fns.len() ==> within(#[trigger] v[i], k(fns[i].name@)),
    ensures
        within(known_upto(fns, v, name, n), k(name)),
    decreases n,
{
    if n > 0 {
        known_upto_least(fns, v, (n - 1) as nat, name, k);
        assert(within(v[n - 1], k(fns[n - 1].name@)));
    }
}

proof fn param_scope_opens(f: FnDecl, n: nat)
    ensures
        param_scope(f, n).len() == 1,
    decreases n,
{
    if n > 0 {
        param_scope_opens(f, (n - 1) as nat);
    }
}

/// The effects of running a function's body.
fn walk_fn(p: &Program, f: &FnDecl, known: &Vec<EffectSet>) -> (r: EffectSet)
    requires
        known@.len() == p.fns@.len(),
    ensures
        r == of_fn(*p, *f, known_in(p.fns@, known@)),
{
    let mut sc: Scopes<Ty> = Scopes::new();
    sc.push();
    let mut i: usize = 0;
    while i < f.params.len()
        invariant
            i <= f.params@.len(),
            sc@ == param_scope(*f, i as nat),
        decreases f.params@.len() - i,
    {
        proof {
            param_scope_opens(*f, i as nat);
        }
        sc.define(f.params[i].name.as_str(), f.params[i].ty.duplicate());
        i = i + 1;
    }
    proof {
        param_scope_opens(*f, i as nat);
    }
    walk_stmts(p, &f.body.stmts, &mut sc, known)
}

/// What one function was found to do, and what it declares.
#[derive(Debug, Clone, Copy)]
pub struct FnEffects {
    pub inferred: EffectSet,
    pub declared: Option<EffectSet>,
}

/// Whether `k` is the least account of what the functions of a program do: it
/// covers every body, and any other that does so covers it.
pub open spec fn least_closed(p: Program, k: Known) -> bool {
    &&& closed_under(p, k)
    &&& forall|other: Known| #[trigger] closed_under(p, other) ==> below(k, other)
}

/// The effects of every function of a program, in the order of declaration.
/// Functions that share a name share their effects.
pub fn infer_effects(p: &Program) -> (r: Vec<FnEffects>)
    ensures
        r@.len() == p.fns@.len(),
        forall|i: int|
            0 <= i < r@.len() ==> (#[trigger] r@[i]).declared == p.fns@[i].declared_effects,
        exists|k: Known|
            least_closed(*p, k) && forall|i: int|
                0 <= i < r@.len() ==> (#[trigger] r@[i]).inferred == k(p.fns@[i].name@),
{
    let mut known: Vec<EffectSet> = Vec::new();
    let mut n: usize = 0;
    while n < p.fns.len()
        invariant
            n <= p.fns@.len(),
            known@.len() == n,
            forall|i: int| 0 <= i < n ==> (#[trigger] known@[i]) == no_effect(),
        decreases p.fns@.len() - n,
    {
        known.push(nothing());
        n = n + 1;
    }
    let mut changed = true;
    while changed
        invariant
            known@.len() == p.fns@.len(),
            forall|other: Known, i: int| #[trigger]
                closed_under(*p, other) && 0 <= i < p.fns@.len() ==> within(
                    #[trigger] known@[i],
                    other(p.fns@[i].name@),
                ),
            !changed ==> forall|i: int|
                0 <= i < p.fns@.len() ==> within(
                    of_fn(*p, #[trigger] p.fns@[i], known_in(p.fns@, known@)),
                    known@[i],
                ),
        decreases 4 * p.fns@.len() - total(known@), if changed { 1nat } else { 0nat },
    {
        changed = false;
        let ghost start = known@;
        let mut i: usize = 0;
        while i < p.fns.len()
            invariant
                i <= p.fns@.len(),
                known@.len() == p.fns@.len(),
                start.len() == p.fns@.len(),
                forall|other: Known, i: int| #[trigger]
                    closed_under(*p, other) && 0 <= i < p.fns@.len() ==> within(
                        #[trigger] known@[i],
                        other(p.fns@[i].name@),
                    ),
                !changed ==> known@ == start && forall|j: int|
                    0 <= j < i ==> within(
                        of_fn(*p, #[trigger] p.fns@[j], known_in(p.fns@, known@)),
                        known@[j],
                    ),
                changed ==> total(known@) > total(start),
                total(known@) >= total(start),
            decreases p.fns@.len() - i,
        {
            let body = walk_fn(p, &p.fns[i], &known);
            let acc = join_sets(known[i], body);
            proof {
                let k = known_in(p.fns@, known@);
                assert forall|other: Known| #[trigger] closed_under(*p, other) implies within(
                    acc,
                    other(p.fns@[i as int].name@),
                ) by {
                    assert(below(k, other)) by {
                        assert forall|name: Seq<char>| within(#[trigger] k(name), other(name)) by {
                            known_upto_least(p.fns@, known@, p.fns@.len(), name, other);
                        }
                    }
                    effects_are_monotone(*p, p.fns@[i as int], k, other);
                    assert(within(known@[i as int], other(p.fns@[i as int].name@)));
                }
            }
            if acc != known[i] {
                proof {
                    total_grows(known@, i as int, acc);
                }
                known.set(i, acc);
                changed = true;
            }
            i = i + 1;
        }
        proof {
            total_bound(known@);
            total_bound(start);
        }
    }
    let mut out: Vec<FnEffects> = Vec::new();
    let mut i: usize = 0;
    while i < p.fns.len()
        invariant
            i <= p.fns@.len(),
            known@.len() == p.fns@.len(),
            out@.len() == i,
            forall|j: int|
                0 <= j < i ==> (#[trigger] out@[j]).declared == p.fns@[j].declared_effects
                    && out@[j].inferred == known_in(p.fns@, known@)(p.fns@[j].name@),
        decreases p.fns@.len() - i,
    {
        let inferred = known_of(p, &known, p.fns[i].name.as_str());
        out.push(FnEffects { inferred, declared: p.fns[i].declared_effects });
        i = i + 1;
    }
    proof {
        let k = known_in(p.fns@, known@);
        assert forall|j: int| 0 <= j < p.fns@.len() implies within(
            of_fn(*p, #[trigger] p.fns@[j], k),
            k(p.fns@[j].name@),
        ) by {
            known_upto_holds(p.fns@, known@, p.fns@.len(), j);
        }
        assert forall|other: Known| #[trigger] closed_under(*p, other) implies below(k, other) by {
            assert forall|name: Seq<char>| within(#[trigger] k(name), other(name)) by {
                assert forall|i: int| 0 <= i < p.fns@.len() implies within(
                    #[trigger] known@[i],
                    other(p.fns@[i].name@),
                ) by {}
                known_upto_least(p.fns@, known@, p.fns@.len(), name, other);
            }
        }
        assert(least_closed(*p, k));
    }
    out
}

} // verus!
