//! The types of expressions, as far as effects depend on them.
use crate::ast::{ElseBranch, EffectSet, Expr, MatchArm, Program, STy, Stmt, Ty};
use crate::builtins::{builtin_named, Builtin};
use crate::effects::{
    after_stmts, after_stmts_keeps, arm_scopes, bound, bound_keeps, both, concurrency, concurrent,
    input_output, io, join_sets, network, networking, no_effect, nothing, Types,
};
use crate::layout::{array_ty, array_type};
use crate::registry::{
    field_named, find_field, find_fn, find_struct, find_variant, fn_named, struct_named, variant_named,
};
use crate::scopes::{lookup, opened, Scopes};
use vstd::prelude::*;

verus! {

/// What `send` and `recv` do on a handle of a type.
pub open spec fn transfer(t: STy) -> EffectSet {
    match t {
        STy::Channel(_) => concurrent(),
        STy::Tcp => network(),
        STy::File => io(),
        _ => no_effect(),
    }
}

/// What `stop` does on a handle of a type.
pub open spec fn stopping(t: STy) -> EffectSet {
    match t {
        STy::Sandbox => concurrent(),
        STy::Tcp | STy::TcpListener => network(),
        STy::File => io(),
        _ => no_effect(),
    }
}

/// What is done with a handle of a type.
pub open spec fn on_type(t: STy, stop: bool) -> EffectSet {
    if stop {
        stopping(t)
    } else {
        transfer(t)
    }
}

/// The type of a call: what its function returns, or the type that it makes a value
/// of.
pub open spec fn call_type(p: Program, name: Seq<char>) -> STy {
    if builtin_named(name) is Some {
        STy::Error
    } else if struct_named(p, name) is Some {
        STy::Named(name, Seq::empty())
    } else {
        match variant_named(p, name) {
            Some(ij) => STy::Named(p.enums@[ij.0].name@, Seq::empty()),
            None => match fn_named(p, name) {
                Some(i) => p.fns@[i].ret@,
                None => STy::Error,
            },
        }
    }
}

/// The type of what a box or a reference leads to.
pub open spec fn content_type(t: STy) -> STy {
    match t {
        STy::Box(u) => *u,
        STy::Ref(u) => *u,
        _ => STy::Error,
    }
}

/// The type of a field of a struct.
pub open spec fn field_type(p: Program, t: STy, name: Seq<char>) -> STy {
    match t {
        STy::Named(n, _) => match struct_named(p, n) {
            Some(i) => match field_named(p.structs@[i], name) {
                Some(k) => p.structs@[i].fields@[k].ty@,
                None => STy::Error,
            },
            None => STy::Error,
        },
        _ => STy::Error,
    }
}

/// The type of an element of a vector or a matrix.
pub open spec fn element_type(t: STy) -> STy {
    match t {
        STy::Vector(u, _) => *u,
        STy::Matrix(u, _, _) => *u,
        _ => STy::Error,
    }
}

/// The type of what is received.
pub open spec fn received_type(t: STy) -> STy {
    match t {
        STy::Channel(u) => *u,
        STy::Tcp | STy::File => STy::Str,
        _ => STy::Error,
    }
}

/// The type of what a thread returns.
pub open spec fn joined_type(t: STy) -> STy {
    match t {
        STy::Thread(u) => *u,
        _ => STy::Error,
    }
}

/// The first of two types that is one.
pub open spec fn first_of(t: STy, u: STy) -> STy {
    if t == STy::Error {
        u
    } else {
        t
    }
}

pub open spec fn name_type(sc: Types, name: Seq<char>) -> STy {
    match lookup(sc, name) {
        Some(t) => t,
        None => STy::Error,
    }
}

/// The type of an expression, where it may be a handle or hold one.
pub open spec fn type_of(p: Program, e: Expr, sc: Types) -> STy
    decreases e,
{
    match e {
        Expr::Ident(name, _) => name_type(sc, name@),
        Expr::Assign(name, _, _) => name_type(sc, name@),
        Expr::Connect(_, _, _) => STy::Tcp,
        Expr::Listen(_, _) => STy::TcpListener,
        Expr::Accept(_, _) => STy::Tcp,
        Expr::Open(_, _, _) => STy::File,
        Expr::Chan(_) => STy::Channel(Box::new(STy::Error)),
        Expr::SpawnSandbox(_, _, _) => STy::Sandbox,
        Expr::Spawn(name, _, _) => match fn_named(p, name@) {
            Some(i) => STy::Thread(Box::new(p.fns@[i].ret@)),
            None => STy::Error,
        },
        Expr::Call(name, _, _) => call_type(p, name@),
        Expr::Box(a, _) => STy::Box(Box::new(type_of(p, *a, sc))),
        Expr::Ref(a, _) => STy::Ref(Box::new(type_of(p, *a, sc))),
        Expr::Deref(a, _) => content_type(type_of(p, *a, sc)),
        Expr::FieldAccess(a, name, _) => field_type(p, type_of(p, *a, sc), name@),
        Expr::Index(a, _, _) => element_type(type_of(p, *a, sc)),
        Expr::ArrayLit(v, _) => if v@.len() == 0 {
            STy::Error
        } else {
            array_ty(type_of(p, v@[0], sc), v@.len())
        },
        Expr::Recv(a, _) => received_type(type_of(p, *a, sc)),
        Expr::Join(a, _) => joined_type(type_of(p, *a, sc)),
        Expr::If { then_block, else_block, .. } => first_of(
            type_block(p, then_block.stmts@, opened(sc)),
            match else_block {
                Some(b) => type_else(p, *b, sc),
                None => STy::Error,
            },
        ),
        Expr::Match { arms, .. } => type_arms(p, arms@, sc),
        _ => STy::Error,
    }
}

/// The type of the value of a block: that of the expression at its end.
pub open spec fn type_block(p: Program, v: Seq<Stmt>, sc: Types) -> STy
    decreases v,
{
    if v.len() == 0 {
        STy::Error
    } else {
        match v.last() {
            Stmt::Expr(e) => type_of(p, e, after_stmts(v.drop_last(), sc)),
            _ => STy::Error,
        }
    }
}

pub open spec fn type_else(p: Program, b: ElseBranch, sc: Types) -> STy
    decreases b,
{
    match b {
        ElseBranch::Block(b) => type_block(p, b.stmts@, opened(sc)),
        ElseBranch::If(e) => type_of(p, e, sc),
    }
}

pub open spec fn type_arms(p: Program, v: Seq<MatchArm>, sc: Types) -> STy
    decreases v,
{
    if v.len() == 0 {
        STy::Error
    } else {
        first_of(
            type_arms(p, v.drop_last(), sc),
            type_of(p, *v.last().body, arm_scopes(p, v.last(), sc)),
        )
    }
}

/// What sending to the value of an expression, receiving from it or closing it does.
/// Where either of several expressions gives the value, all of them count.
pub open spec fn used(p: Program, e: Expr, sc: Types, stop: bool) -> EffectSet
    decreases e,
{
    match e {
        Expr::If { then_block, else_block, .. } => both(
            used_block(p, then_block.stmts@, opened(sc), stop),
            match else_block {
                Some(b) => used_else(p, *b, sc, stop),
                None => no_effect(),
            },
        ),
        Expr::Match { arms, .. } => used_arms(p, arms@, sc, stop),
        _ => on_type(type_of(p, e, sc), stop),
    }
}

pub open spec fn used_block(p: Program, v: Seq<Stmt>, sc: Types, stop: bool) -> EffectSet
    decreases v,
{
    if v.len() == 0 {
        no_effect()
    } else {
        match v.last() {
            Stmt::Expr(e) => used(p, e, after_stmts(v.drop_last(), sc), stop),
            _ => no_effect(),
        }
    }
}

pub open spec fn used_else(p: Program, b: ElseBranch, sc: Types, stop: bool) -> EffectSet
    decreases b,
{
    match b {
        ElseBranch::Block(b) => used_block(p, b.stmts@, opened(sc), stop),
        ElseBranch::If(e) => used(p, e, sc, stop),
    }
}

pub open spec fn used_arms(p: Program, v: Seq<MatchArm>, sc: Types, stop: bool) -> EffectSet
    decreases v,
{
    if v.len() == 0 {
        no_effect()
    } else {
        both(
            used_arms(p, v.drop_last(), sc, stop),
            used(p, *v.last().body, arm_scopes(p, v.last(), sc), stop),
        )
    }
}

fn transfer_effect(t: &Ty) -> (r: EffectSet)
    ensures
        r == transfer(t@),
{
    match t {
        Ty::Channel(_) => concurrency(),
        Ty::Tcp => networking(),
        Ty::File => input_output(),
        _ => nothing(),
    }
}

fn stop_effect(t: &Ty) -> (r: EffectSet)
    ensures
        r == stopping(t@),
{
    match t {
        Ty::Sandbox => concurrency(),
        Ty::Tcp | Ty::TcpListener => networking(),
        Ty::File => input_output(),
        _ => nothing(),
    }
}

fn local_name(sc: &Scopes<Ty>, name: &String) -> (r: Ty)
    ensures
        r@ == name_type(sc@, name@),
{
    match sc.get(name.as_str()) {
        Some(t) => t.duplicate(),
        None => Ty::Error,
    }
}

fn local_call(p: &Program, name: &String) -> (r: Ty)
    ensures
        r@ == call_type(*p, name@),
{
    proof {
        reveal_with_fuel(crate::ast::ty_view, 2);
        reveal_with_fuel(crate::ast::tys_view, 2);
    }
    if Builtin::from_name(name.as_str()).is_some() {
        return Ty::Error;
    }
    if find_struct(p, name.as_str()).is_some() {
        let none: Vec<Ty> = Vec::new();
        proof {
            assert(crate::ast::tys_view(none@) =~= Seq::empty());
        }
        return Ty::Named(name.clone(), none);
    }
    match find_variant(p, name.as_str()) {
        Some((i, _)) => {
            let none: Vec<Ty> = Vec::new();
            proof {
                assert(crate::ast::tys_view(none@) =~= Seq::empty());
            }
            Ty::Named(p.enums[i].name.clone(), none)
        }
        None => match find_fn(p, name.as_str()) {
            Some(i) => p.fns[i].ret.duplicate(),
            None => Ty::Error,
        },
    }
}

fn local_field(p: &Program, t: &Ty, name: &String) -> (r: Ty)
    ensures
        r@ == field_type(*p, t@, name@),
{
    match t {
        Ty::Named(n, _) => match find_struct(p, n.as_str()) {
            Some(i) => match find_field(&p.structs[i], name.as_str()) {
                Some(k) => p.structs[i].fields[k].ty.duplicate(),
                None => Ty::Error,
            },
            None => Ty::Error,
        },
        _ => Ty::Error,
    }
}

fn is_error(t: &Ty) -> (r: bool)
    ensures
        r == (t@ == STy::Error),
{
    match t {
        Ty::Error => true,
        _ => false,
    }
}

/// Opens a scope with what the statements but the last bind in it.
fn open_to_last(v: &Vec<Stmt>, sc: &mut Scopes<Ty>)
    requires
        v@.len() > 0,
    ensures
        final(sc)@ == after_stmts(v@.drop_last(), opened(old(sc)@)),
{
    let ghost before = sc@;
    sc.push();
    let mut i: usize = 0;
    while i < v.len() - 1
        invariant
            i <= v@.len() - 1,
            v@.len() > 0,
            sc@ == after_stmts(v@.take(i as int), opened(before)),
        decreases v@.len() - i,
    {
        match &v[i] {
            Stmt::Let { name, ty, .. } => {
                sc.define(name.as_str(), ty.duplicate());
            }
            _ => {}
        }
        proof {
            assert(v@.take(i + 1).drop_last() =~= v@.take(i as int));
        }
        i = i + 1;
    }
    proof {
        assert(v@.take(i as int) =~= v@.drop_last());
    }
}

proof fn opens_and_closes(v: Seq<Stmt>, sc: Types)
    ensures
        crate::scopes::closed(after_stmts(v, opened(sc))) == sc,
{
    after_stmts_keeps(v, opened(sc));
    assert(opened(sc).drop_last() =~= sc);
}

/// Opens the scope of an arm.
pub(crate) fn open_arm(p: &Program, arm: &MatchArm, sc: &mut Scopes<Ty>)
    ensures
        final(sc)@ == arm_scopes(*p, *arm, old(sc)@),
{
    let ghost before = sc@;
    sc.push();
    match find_variant(p, arm.variant.as_str()) {
        Some((i, j)) => {
            let payload = &p.enums[i].variants[j].payload;
            let mut n: usize = 0;
            while n < arm.bindings.len() && n < payload.len()
                invariant
                    n <= arm.bindings@.len(),
                    n <= payload@.len(),
                    sc@ == bound(opened(before), arm.bindings@, payload@, n as nat),
                decreases payload@.len() - n,
            {
                sc.define(arm.bindings[n].as_str(), payload[n].duplicate());
                n = n + 1;
            }
        }
        None => {}
    }
}

pub(crate) proof fn arm_closes(p: Program, arm: MatchArm, sc: Types)
    ensures
        crate::scopes::closed(arm_scopes(p, arm, sc)) == sc,
{
    assert(opened(sc).drop_last() =~= sc);
    if let Some(ij) = variant_named(p, arm.variant@) {
        let payload = p.enums@[ij.0].variants@[ij.1].payload@;
        bound_keeps(
            opened(sc),
            arm.bindings@,
            payload,
            crate::effects::shorter(arm.bindings@.len(), payload.len()),
        );
    }
}

/// The type of an expression, where it may be a handle or hold one.
pub fn local_ty(p: &Program, e: &Expr, sc: &mut Scopes<Ty>) -> (r: Ty)
    ensures
        final(sc)@ == old(sc)@,
        r@ == type_of(*p, *e, old(sc)@),
    decreases e, 1nat,
{
    proof {
        reveal_with_fuel(crate::ast::ty_view, 2);
    }
    match e {
        Expr::Ident(name, _) => local_name(sc, name),
        Expr::Assign(name, _, _) => local_name(sc, name),
        Expr::Connect(_, _, _) => Ty::Tcp,
        Expr::Listen(_, _) => Ty::TcpListener,
        Expr::Accept(_, _) => Ty::Tcp,
        Expr::Open(_, _, _) => Ty::File,
        Expr::Chan(_) => Ty::Channel(Box::new(Ty::Error)),
        Expr::SpawnSandbox(_, _, _) => Ty::Sandbox,
        Expr::Spawn(name, _, _) => match find_fn(p, name.as_str()) {
            Some(i) => Ty::Thread(Box::new(p.fns[i].ret.duplicate())),
            None => Ty::Error,
        },
        Expr::Call(name, _, _) => local_call(p, name),
        Expr::Box(a, _) => {
            let t = local_ty(p, a, sc);
            Ty::Box(Box::new(t))
        }
        Expr::Ref(a, _) => {
            let t = local_ty(p, a, sc);
            Ty::Ref(Box::new(t))
        }
        Expr::Deref(a, _) => match local_ty(p, a, sc) {
            Ty::Box(u) => *u,
            Ty::Ref(u) => *u,
            _ => Ty::Error,
        },
        Expr::FieldAccess(a, name, _) => {
            let t = local_ty(p, a, sc);
            local_field(p, &t, name)
        }
        Expr::Index(a, _, _) => match local_ty(p, a, sc) {
            Ty::Vector(u, _) => *u,
            Ty::Matrix(u, _, _) => *u,
            _ => Ty::Error,
        },
        Expr::ArrayLit(v, _) => {
            if v.len() == 0 {
                Ty::Error
            } else {
                proof {
                    assert(decreases_to!(v@ => v@[0]));
                }
                let t = local_ty(p, &v[0], sc);
                array_type(t, v.len())
            }
        }
        Expr::Recv(a, _) => match local_ty(p, a, sc) {
            Ty::Channel(u) => *u,
            Ty::Tcp | Ty::File => Ty::Str,
            _ => Ty::Error,
        },
        Expr::Join(a, _) => match local_ty(p, a, sc) {
            Ty::Thread(u) => *u,
            _ => Ty::Error,
        },
        Expr::If { then_block, else_block, .. } => {
            let t = local_block(p, &then_block.stmts, sc);
            if is_error(&t) {
                match else_block {
                    Some(b) => local_else(p, b, sc),
                    None => Ty::Error,
                }
            } else {
                t
            }
        }
        Expr::Match { arms, .. } => local_arms(p, arms, sc),
        _ => Ty::Error,
    }
}

fn local_block(p: &Program, v: &Vec<Stmt>, sc: &mut Scopes<Ty>) -> (r: Ty)
    ensures
        final(sc)@ == old(sc)@,
        r@ == type_block(*p, v@, opened(old(sc)@)),
    decreases v, 1nat,
{
    if v.len() == 0 {
        return Ty::Error;
    }
    match &v[v.len() - 1] {
        Stmt::Expr(e) => {
            let ghost before = sc@;
            open_to_last(v, sc);
            proof {
                assert(decreases_to!(v@ => v@[v@.len() - 1]));
            }
            let t = local_ty(p, e, sc);
            proof {
                opens_and_closes(v@.drop_last(), before);
            }
            sc.pop();
            t
        }
        _ => Ty::Error,
    }
}

fn local_else(p: &Program, b: &ElseBranch, sc: &mut Scopes<Ty>) -> (r: Ty)
    ensures
        final(sc)@ == old(sc)@,
        r@ == type_else(*p, *b, old(sc)@),
    decreases b, 1nat,
{
    match b {
        ElseBranch::Block(b) => local_block(p, &b.stmts, sc),
        ElseBranch::If(e) => local_ty(p, e, sc),
    }
}

fn local_arms(p: &Program, v: &Vec<MatchArm>, sc: &mut Scopes<Ty>) -> (r: Ty)
    ensures
        final(sc)@ == old(sc)@,
        r@ == type_arms(*p, v@, old(sc)@),
    decreases v, 1nat,
{
    let ghost before = sc@;
    let mut acc = Ty::Error;
    let mut i: usize = 0;
    while i < v.len()
        invariant
            i <= v@.len(),
            sc@ == before,
            acc@ == type_arms(*p, v@.take(i as int), before),
        decreases v@.len() - i,
    {
        let arm = &v[i];
        open_arm(p, arm, sc);
        let t = local_ty(p, &arm.body, sc);
        proof {
            arm_closes(*p, *arm, before);
        }
        sc.pop();
        if is_error(&acc) {
            acc = t;
        }
        proof {
            assert(v@.take(i + 1).drop_last() =~= v@.take(i as int));
        }
        i = i + 1;
    }
    proof {
        assert(v@.take(i as int) =~= v@);
    }
    acc
}

/// What sending to the value of an expression, receiving from it or closing it does.
pub fn handle_effect(p: &Program, e: &Expr, sc: &mut Scopes<Ty>, stop: bool) -> (r: EffectSet)
    ensures
        final(sc)@ == old(sc)@,
        r == used(*p, *e, old(sc)@, stop),
    decreases e, 1nat,
{
    match e {
        Expr::If { then_block, else_block, .. } => {
            let a = block_effect(p, &then_block.stmts, sc, stop);
            let b = match else_block {
                Some(b) => else_effect(p, b, sc, stop),
                None => nothing(),
            };
            join_sets(a, b)
        }
        Expr::Match { arms, .. } => arms_effect(p, arms, sc, stop),
        _ => {
            let t = local_ty(p, e, sc);
            if stop {
                stop_effect(&t)
            } else {
                transfer_effect(&t)
            }
        }
    }
}

fn block_effect(p: &Program, v: &Vec<Stmt>, sc: &mut Scopes<Ty>, stop: bool) -> (r: EffectSet)
    ensures
        final(sc)@ == old(sc)@,
        r == used_block(*p, v@, opened(old(sc)@), stop),
    decreases v, 1nat,
{
    if v.len() == 0 {
        return nothing();
    }
    match &v[v.len() - 1] {
        Stmt::Expr(e) => {
            let ghost before = sc@;
            open_to_last(v, sc);
            proof {
                assert(decreases_to!(v@ => v@[v@.len() - 1]));
            }
            let r = handle_effect(p, e, sc, stop);
            proof {
                opens_and_closes(v@.drop_last(), before);
            }
            sc.pop();
            r
        }
        _ => nothing(),
    }
}

fn else_effect(p: &Program, b: &ElseBranch, sc: &mut Scopes<Ty>, stop: bool) -> (r: EffectSet)
    ensures
        final(sc)@ == old(sc)@,
        r == used_else(*p, *b, old(sc)@, stop),
    decreases b, 1nat,
{
    match b {
        ElseBranch::Block(b) => block_effect(p, &b.stmts, sc, stop),
        ElseBranch::If(e) => handle_effect(p, e, sc, stop),
    }
}

fn arms_effect(p: &Program, v: &Vec<MatchArm>, sc: &mut Scopes<Ty>, stop: bool) -> (r: EffectSet)
    ensures
        final(sc)@ == old(sc)@,
        r == used_arms(*p, v@, old(sc)@, stop),
    decreases v, 1nat,
{
    let ghost before = sc@;
    let mut acc = nothing();
    let mut i: usize = 0;
    while i < v.len()
        invariant
            i <= v@.len(),
            sc@ == before,
            acc == used_arms(*p, v@.take(i as int), before, stop),
        decreases v@.len() - i,
    {
        let arm = &v[i];
        open_arm(p, arm, sc);
        let one = handle_effect(p, &arm.body, sc, stop);
        proof {
            arm_closes(*p, *arm, before);
        }
        sc.pop();
        acc = join_sets(acc, one);
        proof {
            assert(v@.take(i + 1).drop_last() =~= v@.take(i as int));
        }
        i = i + 1;
    }
    proof {
        assert(v@.take(i as int) =~= v@);
    }
    acc
}

} // verus!
