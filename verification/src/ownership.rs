//! The move checker. Every type is affine or freely copyable. Using an affine
//! variable by name moves its value out; a later use on the same path is an
//! error. Reading through a box moves it only where what comes out is affine
//! itself.
//!
//! Branches merge: what is moved in one branch counts as moved behind both. The
//! condition and the body of a loop are checked a second time from the state that
//! one pass leaves, so that a move in one iteration is seen by the next.
use crate::ast::{affine, Block, ElseBranch, Expr, MatchArm, Program, STy, Stmt, Ty};
use crate::registry::{find_fn, find_variant, fn_named, variant_named};
use crate::scopes::{
    assigned, defined, lookup, map_of, opened, Duplicate, Scopes, Table,
};
use crate::text::{cat2, cat5, dec, dec_usize};
use crate::token::Span;
use vstd::prelude::*;
use vstd::string::*;

verus! {

/// What is wrong with a use of a variable.
#[derive(Debug, Clone)]
pub enum OwnershipErrorKind {
    /// The variable was moved from earlier on this path.
    UseAfterMove { name: String },
}

#[derive(Debug, Clone)]
pub struct OwnershipError {
    pub kind: OwnershipErrorKind,
    pub span: Span,
}

/// The use of a moved variable at a position.
pub ghost struct SMoved {
    pub name: Seq<char>,
    pub span: Span,
}

impl View for OwnershipError {
    type V = SMoved;

    open spec fn view(&self) -> SMoved {
        match self.kind {
            OwnershipErrorKind::UseAfterMove { name } => SMoved { name: name@, span: self.span },
        }
    }
}

impl OwnershipError {
    /// The error as it is shown to the user.
    pub fn to_text(&self) -> (r: String)
        ensures
            r@ == dec(self.span.line as int) + ":"@ + dec(self.span.col as int) + ": use of `"@
                + self@.name + "` after it was moved"@,
    {
        let line = dec_usize(self.span.line);
        let col = dec_usize(self.span.col);
        match &self.kind {
            OwnershipErrorKind::UseAfterMove { name } => {
                let head = cat5(line.as_str(), ":", col.as_str(), ": use of `", name.as_str());
                cat2(head.as_str(), "` after it was moved")
            }
        }
    }
}

/// A binding: its declared type, and whether its value has been moved out.
pub struct Own {
    pub ty: Ty,
    pub moved: bool,
}

impl View for Own {
    type V = (STy, bool);

    open spec fn view(&self) -> (STy, bool) {
        (self.ty@, self.moved)
    }
}

impl Duplicate for Own {
    fn duplicate(&self) -> (r: Self) {
        Own { ty: self.ty.duplicate(), moved: self.moved }
    }
}

/// The bindings in scope.
pub type State = Seq<Map<Seq<char>, (STy, bool)>>;

/// What checking a piece of a program gives: the state behind it and the
/// errors found in it.
pub ghost struct Checked {
    pub st: State,
    pub errs: Seq<SMoved>,
}

pub open spec fn clean(st: State) -> Checked {
    Checked { st, errs: Seq::empty() }
}

/// `next`, with the errors of what came before it in front.
pub open spec fn after(first: Checked, next: Checked) -> Checked {
    Checked { st: next.st, errs: first.errs + next.errs }
}

/// The state in which a name is bound to the same type and has been moved out
/// or not.
pub open spec fn marked(st: State, name: Seq<char>, moved: bool) -> State {
    match lookup(st, name) {
        Some(b) => assigned(st, name, (b.0, moved)),
        None => st,
    }
}

/// One scope behind two branches: what is moved in either is moved.
pub open spec fn merged_scope(
    a: Map<Seq<char>, (STy, bool)>,
    b: Map<Seq<char>, (STy, bool)>,
) -> Map<Seq<char>, (STy, bool)> {
    Map::new(
        |n: Seq<char>| a.contains_key(n),
        |n: Seq<char>| (a[n].0, a[n].1 || (b.contains_key(n) && b[n].1)),
    )
}

/// The state behind two branches that started from one state.
pub open spec fn merged(a: State, b: State) -> State {
    Seq::new(
        if a.len() <= b.len() {
            a.len()
        } else {
            b.len()
        },
        |i: int| merged_scope(a[i], b[i]),
    )
}

/// Using a variable by name; `consume` says whether the use takes the value.
pub open spec fn used(st: State, name: Seq<char>, span: Span, consume: bool) -> Checked {
    match lookup(st, name) {
        None => clean(st),
        Some(b) => if !affine(b.0) {
            clean(st)
        } else if b.1 {
            Checked { st, errs: seq![SMoved { name, span }] }
        } else if consume {
            clean(marked(st, name, true))
        } else {
            clean(st)
        },
    }
}

/// Whether reading through this variable takes an affine value out of it.
pub open spec fn takes_content(st: State, name: Seq<char>) -> bool {
    match lookup(st, name) {
        Some(b) => match b.0 {
            STy::Box(inner) => affine(*inner),
            _ => false,
        },
        None => false,
    }
}

/// Checking an expression.
pub open spec fn touch(p: Program, e: Expr, consume: bool, st: State) -> Checked
    decreases e,
{
    match e {
        Expr::Int(..) | Expr::Float(..) | Expr::Bool(..) | Expr::Str(..) | Expr::Chan(_) => clean(
            st,
        ),
        Expr::Ident(name, span) => used(st, name@, span, consume),
        Expr::Unary(_, a, _) => touch(p, *a, true, st),
        Expr::Box(a, _) => touch(p, *a, true, st),
        Expr::Join(a, _) => touch(p, *a, true, st),
        Expr::StopSandbox(a, _) => touch(p, *a, true, st),
        Expr::Listen(a, _) => touch(p, *a, true, st),
        Expr::Ref(a, _) => touch(p, *a, false, st),
        Expr::Recv(a, _) => touch(p, *a, false, st),
        Expr::Accept(a, _) => touch(p, *a, false, st),
        Expr::FieldAccess(a, _, _) => touch(p, *a, false, st),
        Expr::Deref(a, _) => match *a {
            Expr::Ident(name, span) => used(st, name@, span, takes_content(st, name@)),
            _ => touch(p, *a, false, st),
        },
        Expr::Binary(_, a, b, _) => {
            let x = touch(p, *a, true, st);
            after(x, touch(p, *b, true, x.st))
        },
        Expr::Connect(a, b, _) => {
            let x = touch(p, *a, true, st);
            after(x, touch(p, *b, true, x.st))
        },
        Expr::Open(a, b, _) => {
            let x = touch(p, *a, true, st);
            after(x, touch(p, *b, true, x.st))
        },
        Expr::Send(a, b, _) => {
            let x = touch(p, *a, false, st);
            after(x, touch(p, *b, true, x.st))
        },
        Expr::Call(_, args, _) => touch_all(p, args@, st),
        Expr::Spawn(_, args, _) => touch_all(p, args@, st),
        Expr::SpawnSandbox(_, args, _) => touch_all(p, args@, st),
        Expr::ArrayLit(args, _) => touch_all(p, args@, st),
        Expr::Index(a, args, _) => {
            let x = touch(p, *a, false, st);
            after(x, touch_all(p, args@, x.st))
        },
        Expr::Assign(name, a, _) => {
            let x = touch(p, *a, true, st);
            Checked { st: marked(x.st, name@, false), errs: x.errs }
        },
        Expr::If { cond, then_block, else_block, .. } => {
            let x = touch(p, *cond, true, st);
            let t = check_block(p, then_block.stmts@, x.st);
            let f = match else_block {
                Some(b) => check_else(p, *b, x.st),
                None => clean(x.st),
            };
            Checked { st: merged(t.st, f.st), errs: x.errs + t.errs + f.errs }
        },
        Expr::Match { scrutinee, arms, .. } => {
            let x = touch(p, *scrutinee, true, st);
            after(x, check_arms(p, arms@, x.st))
        },
        Expr::Transact { network, verify, commit, compensate, log, .. } => {
            let a = touch_all(p, network.args@, opened(st));
            let s1 = defined(a.st, "network"@, (result_of(p, network.name@), false));
            let b = touch_all(p, verify.args@, s1);
            let s2 = defined(b.st, "verify"@, (STy::Bool, false));
            let c = touch_all(p, commit.args@, s2);
            let d = match compensate {
                Some(s) => touch_all(p, s.args@, s2),
                None => clean(s2),
            };
            let s3 = merged(c.st, d.st);
            let f = match log {
                Some(s) => touch_all(p, s.args@, s3),
                None => clean(s3),
            };
            Checked {
                st: f.st.drop_last(),
                errs: a.errs + b.errs + c.errs + d.errs + f.errs,
            }
        },
    }
}

/// The type of a function's result.
pub open spec fn result_of(p: Program, name: Seq<char>) -> STy {
    match fn_named(p, name) {
        Some(i) => p.fns@[i].ret@,
        None => STy::Error,
    }
}

/// Checking values that are each taken, from left to right.
pub open spec fn touch_all(p: Program, v: Seq<Expr>, st: State) -> Checked
    decreases v,
{
    if v.len() == 0 {
        clean(st)
    } else {
        let x = touch_all(p, v.drop_last(), st);
        after(x, touch(p, v.last(), true, x.st))
    }
}

pub open spec fn check_else(p: Program, b: ElseBranch, st: State) -> Checked
    decreases b,
{
    match b {
        ElseBranch::Block(b) => check_block(p, b.stmts@, st),
        ElseBranch::If(e) => touch(p, e, true, st),
    }
}

/// The scopes inside a match arm.
pub open spec fn bound(st: State, names: Seq<String>, payload: Seq<Ty>, n: nat) -> State
    decreases n,
{
    if n == 0 {
        st
    } else {
        defined(
            bound(st, names, payload, (n - 1) as nat),
            names[n - 1]@,
            (payload[n - 1]@, false),
        )
    }
}

pub open spec fn arm_state(p: Program, arm: MatchArm, st: State) -> State {
    match variant_named(p, arm.variant@) {
        Some(ij) => {
            let payload = p.enums@[ij.0].variants@[ij.1].payload@;
            let n = if arm.bindings@.len() <= payload.len() {
                arm.bindings@.len()
            } else {
                payload.len()
            };
            bound(opened(st), arm.bindings@, payload, n)
        },
        None => opened(st),
    }
}

/// Checking one arm.
pub open spec fn check_arm(p: Program, arm: MatchArm, st: State) -> Checked
    decreases arm,
{
    let x = touch(p, *arm.body, true, arm_state(p, arm, st));
    Checked { st: x.st.drop_last(), errs: x.errs }
}

/// Checking arms, each from `st`: what is moved in any of them is moved.
pub open spec fn check_arms(p: Program, v: Seq<MatchArm>, st: State) -> Checked
    decreases v,
{
    if v.len() == 0 {
        clean(st)
    } else {
        let x = check_arms(p, v.drop_last(), st);
        let y = check_arm(p, v.last(), st);
        Checked { st: merged(x.st, y.st), errs: x.errs + y.errs }
    }
}

/// Checking a statement.
pub open spec fn check_stmt(p: Program, s: Stmt, st: State) -> Checked
    decreases s,
{
    match s {
        Stmt::Let { name, ty, value, .. } => {
            let x = touch(p, value, true, st);
            Checked { st: defined(x.st, name@, (ty@, false)), errs: x.errs }
        },
        Stmt::Return { value, .. } => match value {
            Some(e) => touch(p, e, true, st),
            None => clean(st),
        },
        Stmt::While { cond, body, .. } => {
            let once = check_block(p, body.stmts@, touch(p, cond, true, st).st);
            let x = touch(p, cond, true, merged(st, once.st));
            let again = check_block(p, body.stmts@, x.st);
            Checked { st: x.st, errs: x.errs + again.errs }
        },
        Stmt::Audited { body, .. } => check_block(p, body@, st),
        Stmt::Expr(e) => touch(p, e, true, st),
    }
}

pub open spec fn check_stmts(p: Program, v: Seq<Stmt>, st: State) -> Checked
    decreases v, 0nat,
{
    if v.len() == 0 {
        clean(st)
    } else {
        let x = check_stmts(p, v.drop_last(), st);
        after(x, check_stmt(p, v.last(), x.st))
    }
}

/// Checking statements in a scope of their own.
pub open spec fn check_block(p: Program, v: Seq<Stmt>, st: State) -> Checked
    decreases v, 1nat,
{
    let x = check_stmts(p, v, opened(st));
    Checked { st: x.st.drop_last(), errs: x.errs }
}

/// The state at the start of a function's body.
pub open spec fn entry(f: crate::ast::FnDecl, n: nat) -> State
    decreases n,
{
    if n == 0 {
        opened(Seq::empty())
    } else {
        defined(
            entry(f, (n - 1) as nat),
            f.params@[n - 1].name@,
            (f.params@[n - 1].ty@, false),
        )
    }
}

/// The errors in one function.
pub open spec fn fn_errors(p: Program, f: crate::ast::FnDecl) -> Seq<SMoved> {
    check_stmts(p, f.body.stmts@, entry(f, f.params@.len())).errs
}

/// The errors in the first `n` functions.
pub open spec fn errors_upto(p: Program, n: nat) -> Seq<SMoved>
    decreases n,
{
    if n == 0 {
        Seq::empty()
    } else {
        errors_upto(p, (n - 1) as nat) + fn_errors(p, p.fns@[n - 1])
    }
}

/// All the errors in a program, in the order in which they are found.
pub open spec fn ownership_errors(p: Program) -> Seq<SMoved> {
    errors_upto(p, p.fns@.len())
}

/// Whether two states bind the same names to the same types in the same scopes.
pub open spec fn shape(a: State, b: State) -> bool {
    &&& a.len() == b.len()
    &&& forall|i: int|
        #![trigger a[i]]
        #![trigger b[i]]
        0 <= i < a.len() ==> same_names(a[i], b[i])
}

pub open spec fn same_names(
    a: Map<Seq<char>, (STy, bool)>,
    b: Map<Seq<char>, (STy, bool)>,
) -> bool {
    &&& a.dom() == b.dom()
    &&& forall|n: Seq<char>| #[trigger] a.contains_key(n) ==> a[n].0 == b[n].0
}

/// The place of the innermost scope that binds a name, or -1.
pub(crate) open spec fn home(st: State, name: Seq<char>) -> int
    decreases st.len(),
{
    if st.len() == 0 {
        -1
    } else if st.last().contains_key(name) {
        st.len() - 1
    } else {
        home(st.drop_last(), name)
    }
}

pub(crate) proof fn home_is(st: State, name: Seq<char>)
    ensures
        -1 <= home(st, name) < st.len(),
        home(st, name) >= 0 ==> st[home(st, name)].contains_key(name),
        forall|j: int| home(st, name) < j < st.len() ==> !(#[trigger] st[j]).contains_key(name),
    decreases st.len(),
{
    if st.len() > 0 && !st.last().contains_key(name) {
        home_is(st.drop_last(), name);
        assert forall|j: int| home(st, name) < j < st.len() implies !(
        #[trigger] st[j]).contains_key(name) by {
            if j < st.len() - 1 {
                assert(st[j] == st.drop_last()[j]);
            }
        }
    }
}

/// Finding and changing a binding, in terms of its place.
pub(crate) proof fn by_home(st: State, name: Seq<char>)
    ensures
        home(st, name) < 0 ==> lookup(st, name) is None,
        home(st, name) >= 0 ==> lookup(st, name) == Some(st[home(st, name)][name]),
        home(st, name) >= 0 ==> forall|v: (STy, bool)| #[trigger]
            assigned(st, name, v) == st.update(
                home(st, name),
                st[home(st, name)].insert(name, v),
            ),
{
    home_is(st, name);
    if home(st, name) >= 0 {
        crate::scopes::lookup_at(st, home(st, name), name);
    } else {
        crate::scopes::lookup_absent(st, name);
    }
}

pub(crate) proof fn home_shape(a: State, b: State, name: Seq<char>)
    requires
        shape(a, b),
    ensures
        home(a, name) == home(b, name),
    decreases a.len(),
{
    if a.len() > 0 {
        assert(same_names(a[a.len() - 1], b[b.len() - 1]));
        assert(shape(a.drop_last(), b.drop_last())) by {
            assert forall|i: int| 0 <= i < a.len() - 1 implies same_names(
                #[trigger] a.drop_last()[i],
                b.drop_last()[i],
            ) by {
                assert(same_names(a[i], b[i]));
            }
        }
        home_shape(a.drop_last(), b.drop_last(), name);
    }
}

pub(crate) proof fn marked_shape(st: State, name: Seq<char>, m: bool)
    ensures
        shape(marked(st, name, m), st),
{
    home_is(st, name);
    by_home(st, name);
    let h = home(st, name);
    if h >= 0 {
        let t = marked(st, name, m);
        assert(t[h].dom() =~= st[h].dom());
    }
}

pub(crate) proof fn used_shape(st: State, name: Seq<char>, span: Span, consume: bool)
    ensures
        shape(used(st, name, span, consume).st, st),
{
    marked_shape(st, name, true);
}

pub(crate) proof fn shape_trans(a: State, b: State, c: State)
    requires
        shape(a, b),
        shape(b, c),
    ensures
        shape(a, c),
{
    assert forall|i: int| 0 <= i < a.len() implies same_names(#[trigger] a[i], c[i]) by {
        assert(same_names(a[i], b[i]));
        assert(same_names(b[i], c[i]));
        assert forall|n: Seq<char>| #[trigger] a[i].contains_key(n) implies a[i][n].0
            == c[i][n].0 by {
            assert(b[i].contains_key(n));
        }
    }
}

pub(crate) proof fn shape_sym(a: State, b: State)
    requires
        shape(a, b),
    ensures
        shape(b, a),
{
    assert forall|i: int| 0 <= i < b.len() implies same_names(#[trigger] b[i], a[i]) by {
        assert(same_names(a[i], b[i]));
        assert forall|n: Seq<char>| #[trigger] b[i].contains_key(n) implies b[i][n].0
            == a[i][n].0 by {
            assert(a[i].contains_key(n));
        }
    }
}

pub(crate) proof fn merged_shape(a: State, b: State)
    requires
        a.len() == b.len(),
    ensures
        shape(merged(a, b), a),
{
    assert forall|i: int| 0 <= i < a.len() implies same_names(
        #[trigger] merged(a, b)[i],
        a[i],
    ) by {
        assert(merged(a, b)[i].dom() =~= a[i].dom());
    }
}

pub(crate) proof fn opened_shape(a: State, b: State)
    requires
        shape(a, b),
    ensures
        shape(opened(a), opened(b)),
{
    assert forall|i: int| 0 <= i < opened(a).len() implies same_names(
        #[trigger] opened(a)[i],
        opened(b)[i],
    ) by {
        if i < a.len() {
            assert(same_names(a[i], b[i]));
        }
    }
}

pub(crate) proof fn defined_shape(a: State, b: State, name: Seq<char>, v: (STy, bool))
    requires
        shape(a, b),
        a.len() > 0,
    ensures
        shape(defined(a, name, v), defined(b, name, v)),
{
    let x = defined(a, name, v);
    let y = defined(b, name, v);
    assert forall|i: int| 0 <= i < x.len() implies same_names(#[trigger] x[i], y[i]) by {
        assert(same_names(a[i], b[i]));
        if i == x.len() - 1 {
            assert(x[i].dom() =~= y[i].dom());
        }
    }
}

/// A state whose outer scopes have the shape of `b`.
pub(crate) proof fn inner_shape(a: State, b: State)
    requires
        shape(a, b),
        a.len() > 0,
    ensures
        shape(a.drop_last(), b.drop_last()),
{
    assert forall|i: int| 0 <= i < a.len() - 1 implies same_names(
        #[trigger] a.drop_last()[i],
        b.drop_last()[i],
    ) by {
        assert(same_names(a[i], b[i]));
    }
}

pub(crate) proof fn touch_shape(p: Program, e: Expr, consume: bool, st: State)
    requires
        st.len() > 0,
    ensures
        shape(touch(p, e, consume, st).st, st),
    decreases e,
{
    match e {
        Expr::Int(..) | Expr::Float(..) | Expr::Bool(..) | Expr::Str(..) | Expr::Chan(_) => {}
        Expr::Ident(name, span) => {
            used_shape(st, name@, span, consume);
        }
        Expr::Unary(_, a, _)
        | Expr::Box(a, _)
        | Expr::Join(a, _)
        | Expr::StopSandbox(a, _)
        | Expr::Listen(a, _) => {
            touch_shape(p, *a, true, st);
        }
        Expr::Ref(a, _)
        | Expr::Recv(a, _)
        | Expr::Accept(a, _)
        | Expr::FieldAccess(a, _, _) => {
            touch_shape(p, *a, false, st);
        }
        Expr::Deref(a, _) => match *a {
            Expr::Ident(name, span) => {
                used_shape(st, name@, span, takes_content(st, name@));
            }
            _ => {
                touch_shape(p, *a, false, st);
            }
        },
        Expr::Binary(_, a, b, _) | Expr::Connect(a, b, _) | Expr::Open(a, b, _) => {
            touch_shape(p, *a, true, st);
            let x = touch(p, *a, true, st).st;
            touch_shape(p, *b, true, x);
            shape_trans(touch(p, *b, true, x).st, x, st);
        }
        Expr::Send(a, b, _) => {
            touch_shape(p, *a, false, st);
            let x = touch(p, *a, false, st).st;
            touch_shape(p, *b, true, x);
            shape_trans(touch(p, *b, true, x).st, x, st);
        }
        Expr::Call(_, args, _)
        | Expr::Spawn(_, args, _)
        | Expr::SpawnSandbox(_, args, _)
        | Expr::ArrayLit(args, _) => {
            touch_all_shape(p, args@, st);
        }
        Expr::Index(a, args, _) => {
            touch_shape(p, *a, false, st);
            let x = touch(p, *a, false, st).st;
            touch_all_shape(p, args@, x);
            shape_trans(touch_all(p, args@, x).st, x, st);
        }
        Expr::Assign(name, a, _) => {
            touch_shape(p, *a, true, st);
            let x = touch(p, *a, true, st).st;
            marked_shape(x, name@, false);
            shape_trans(marked(x, name@, false), x, st);
        }
        Expr::If { cond, then_block, else_block, .. } => {
            touch_shape(p, *cond, true, st);
            let x = touch(p, *cond, true, st).st;
            check_block_shape(p, then_block.stmts@, x);
            let t = check_block(p, then_block.stmts@, x).st;
            let f = match else_block {
                Some(b) => {
                    check_else_shape(p, *b, x);
                    check_else(p, *b, x).st
                },
                None => x,
            };
            merged_shape(t, f);
            shape_trans(merged(t, f), t, x);
            shape_trans(merged(t, f), x, st);
        }
        Expr::Match { scrutinee, arms, .. } => {
            touch_shape(p, *scrutinee, true, st);
            let x = touch(p, *scrutinee, true, st).st;
            check_arms_shape(p, arms@, x);
            shape_trans(check_arms(p, arms@, x).st, x, st);
        }
        Expr::Transact { network, verify, commit, compensate, log, .. } => {
            let o = opened(st);
            touch_all_shape(p, network.args@, o);
            let a = touch_all(p, network.args@, o);
            let s1 = defined(a.st, "network"@, (result_of(p, network.name@), false));
            touch_all_shape(p, verify.args@, s1);
            let b = touch_all(p, verify.args@, s1);
            let s2 = defined(b.st, "verify"@, (STy::Bool, false));
            touch_all_shape(p, commit.args@, s2);
            let c = touch_all(p, commit.args@, s2);
            let d = match compensate {
                Some(s) => {
                    touch_all_shape(p, s.args@, s2);
                    touch_all(p, s.args@, s2)
                },
                None => clean(s2),
            };
            let s3 = merged(c.st, d.st);
            merged_shape(c.st, d.st);
            let f = match log {
                Some(s) => {
                    touch_all_shape(p, s.args@, s3);
                    touch_all(p, s.args@, s3)
                },
                None => clean(s3),
            };
            inner_shape(f.st, s3);
            inner_shape(s3, c.st);
            inner_shape(c.st, s2);
            assert(s2.drop_last() =~= b.st.drop_last());
            inner_shape(b.st, s1);
            assert(s1.drop_last() =~= a.st.drop_last());
            inner_shape(a.st, o);
            assert(o.drop_last() =~= st);
            shape_trans(a.st.drop_last(), o.drop_last(), st);
            shape_trans(b.st.drop_last(), s1.drop_last(), st);
            shape_trans(c.st.drop_last(), s2.drop_last(), st);
            shape_trans(s3.drop_last(), c.st.drop_last(), st);
            shape_trans(f.st.drop_last(), s3.drop_last(), st);
        }
    }
}

pub(crate) proof fn touch_all_shape(p: Program, v: Seq<Expr>, st: State)
    requires
        st.len() > 0,
    ensures
        shape(touch_all(p, v, st).st, st),
    decreases v,
{
    if v.len() > 0 {
        touch_all_shape(p, v.drop_last(), st);
        let x = touch_all(p, v.drop_last(), st).st;
        touch_shape(p, v.last(), true, x);
        shape_trans(touch(p, v.last(), true, x).st, x, st);
    }
}

pub(crate) proof fn check_else_shape(p: Program, b: ElseBranch, st: State)
    requires
        st.len() > 0,
    ensures
        shape(check_else(p, b, st).st, st),
    decreases b,
{
    match b {
        ElseBranch::Block(b) => {
            check_block_shape(p, b.stmts@, st);
        }
        ElseBranch::If(e) => {
            touch_shape(p, e, true, st);
        }
    }
}

pub(crate) proof fn bound_keeps(st: State, names: Seq<String>, payload: Seq<Ty>, n: nat)
    requires
        st.len() > 0,
    ensures
        bound(st, names, payload, n).len() == st.len(),
        bound(st, names, payload, n).drop_last() == st.drop_last(),
    decreases n,
{
    if n > 0 {
        bound_keeps(st, names, payload, (n - 1) as nat);
        assert(bound(st, names, payload, n).drop_last() =~= st.drop_last());
    }
}

pub(crate) proof fn arm_state_keeps(p: Program, arm: MatchArm, st: State)
    ensures
        arm_state(p, arm, st).len() == st.len() + 1,
        arm_state(p, arm, st).drop_last() == st,
{
    assert(opened(st).drop_last() =~= st);
    match variant_named(p, arm.variant@) {
        Some(ij) => {
            let payload = p.enums@[ij.0].variants@[ij.1].payload@;
            let n = if arm.bindings@.len() <= payload.len() {
                arm.bindings@.len()
            } else {
                payload.len()
            };
            bound_keeps(opened(st), arm.bindings@, payload, n);
        }
        None => {}
    }
}

pub(crate) proof fn check_arm_shape(p: Program, arm: MatchArm, st: State)
    requires
        st.len() > 0,
    ensures
        shape(check_arm(p, arm, st).st, st),
    decreases arm,
{
    let i = arm_state(p, arm, st);
    arm_state_keeps(p, arm, st);
    touch_shape(p, *arm.body, true, i);
    inner_shape(touch(p, *arm.body, true, i).st, i);
}

pub(crate) proof fn check_arms_shape(p: Program, v: Seq<MatchArm>, st: State)
    requires
        st.len() > 0,
    ensures
        shape(check_arms(p, v, st).st, st),
    decreases v,
{
    if v.len() > 0 {
        check_arms_shape(p, v.drop_last(), st);
        check_arm_shape(p, v.last(), st);
        let x = check_arms(p, v.drop_last(), st).st;
        let y = check_arm(p, v.last(), st).st;
        merged_shape(x, y);
        shape_trans(merged(x, y), x, st);
    }
}

pub(crate) proof fn check_stmt_shape(p: Program, s: Stmt, st: State)
    requires
        st.len() > 0,
    ensures
        check_stmt(p, s, st).st.len() == st.len(),
        shape(check_stmt(p, s, st).st.drop_last(), st.drop_last()),
    decreases s,
{
    match s {
        Stmt::Let { name, ty, value, .. } => {
            touch_shape(p, value, true, st);
            let x = touch(p, value, true, st).st;
            inner_shape(x, st);
            assert(defined(x, name@, (ty@, false)).drop_last() =~= x.drop_last());
        }
        Stmt::Return { value, .. } => match value {
            Some(e) => {
                touch_shape(p, e, true, st);
                inner_shape(touch(p, e, true, st).st, st);
            }
            None => {}
        },
        Stmt::While { cond, body, .. } => {
            touch_shape(p, cond, true, st);
            let w = touch(p, cond, true, st).st;
            check_block_shape(p, body.stmts@, w);
            let once = check_block(p, body.stmts@, w).st;
            shape_trans(once, w, st);
            merged_shape(st, once);
            let head = merged(st, once);
            touch_shape(p, cond, true, head);
            let x = touch(p, cond, true, head).st;
            shape_trans(x, head, st);
            inner_shape(x, st);
        }
        Stmt::Audited { body, .. } => {
            check_block_shape(p, body@, st);
            inner_shape(check_block(p, body@, st).st, st);
        }
        Stmt::Expr(e) => {
            touch_shape(p, e, true, st);
            inner_shape(touch(p, e, true, st).st, st);
        }
    }
}

pub(crate) proof fn check_stmts_shape(p: Program, v: Seq<Stmt>, st: State)
    requires
        st.len() > 0,
    ensures
        check_stmts(p, v, st).st.len() == st.len(),
        shape(check_stmts(p, v, st).st.drop_last(), st.drop_last()),
    decreases v, 0nat,
{
    if v.len() > 0 {
        check_stmts_shape(p, v.drop_last(), st);
        let x = check_stmts(p, v.drop_last(), st).st;
        check_stmt_shape(p, v.last(), x);
        shape_trans(
            check_stmt(p, v.last(), x).st.drop_last(),
            x.drop_last(),
            st.drop_last(),
        );
    }
}

pub(crate) proof fn check_block_shape(p: Program, v: Seq<Stmt>, st: State)
    ensures
        shape(check_block(p, v, st).st, st),
    decreases v, 1nat,
{
    check_stmts_shape(p, v, opened(st));
    assert(opened(st).drop_last() =~= st);
}

/// Errors by their views.
pub open spec fn errors_view(v: Seq<OwnershipError>) -> Seq<SMoved> {
    Seq::new(v.len(), |i: int| v[i]@)
}

/// The state behind two branches.
pub fn merge_moved(a: &Scopes<Own>, b: &Scopes<Own>) -> (r: Scopes<Own>)
    ensures
        r@ == merged(a@, b@),
{
    let mut frames: Vec<Table<Own>> = Vec::new();
    let mut i: usize = 0;
    while i < a.frames.len() && i < b.frames.len()
        invariant
            i <= a.frames@.len(),
            i <= b.frames@.len(),
            frames@.len() == i,
            forall|j: int|
                0 <= j < i ==> (#[trigger] frames@[j])@ == merged_scope(a@[j], b@[j]),
        decreases a.frames@.len() - i,
    {
        let t = merge_scope(&a.frames[i], &b.frames[i]);
        frames.push(t);
        i = i + 1;
    }
    let r = Scopes { frames };
    proof {
        assert(r@ =~= merged(a@, b@));
    }
    r
}

fn merge_scope(a: &Table<Own>, b: &Table<Own>) -> (r: Table<Own>)
    ensures
        r@ == merged_scope(a@, b@),
{
    let mut t: Table<Own> = Table::new();
    let mut i: usize = 0;
    proof {
        assert(t@ =~= merged_scope(map_of(a.entries@.take(0)), b@));
    }
    while i < a.entries.len()
        invariant
            i <= a.entries@.len(),
            t@ == merged_scope(map_of(a.entries@.take(i as int)), b@),
        decreases a.entries@.len() - i,
    {
        let name = a.entries[i].0.as_str();
        let own = &a.entries[i].1;
        let moved_b = match b.get(name) {
            Some(o) => o.moved,
            None => false,
        };
        let ghost before = t@;
        t.insert(name, Own { ty: own.ty.duplicate(), moved: own.moved || moved_b });
        proof {
            assert(a.entries@.take(i + 1).drop_last() =~= a.entries@.take(i as int));
            assert(t@ =~= merged_scope(map_of(a.entries@.take(i + 1)), b@));
        }
        i = i + 1;
    }
    proof {
        assert(a.entries@.take(i as int) =~= a.entries@);
    }
    t
}

/// Notes whether the value of a name has been moved out, where the name is bound.
pub fn set_moved(scopes: &mut Scopes<Own>, name: &str, moved: bool)
    ensures
        final(scopes)@ == marked(old(scopes)@, name@, moved),
{
    let found = match scopes.get(name) {
        Some(o) => Some(o.ty.duplicate()),
        None => None,
    };
    match found {
        Some(ty) => {
            scopes.set(name, Own { ty, moved });
        }
        None => {}
    }
}

/// The state of a check: the bindings in scope and the errors found so far.
pub struct Checker {
    scopes: Scopes<Own>,
    errors: Vec<OwnershipError>,
}

impl Checker {
    pub closed spec fn st(&self) -> State {
        self.scopes@
    }

    pub closed spec fn errs(&self) -> Seq<SMoved> {
        errors_view(self.errors@)
    }

    /// `self` after a check of something with the result `c`, from `before`.
    pub open spec fn follows(&self, before: Self, c: Checked) -> bool {
        self.st() == c.st && self.errs() == before.errs() + c.errs
    }

    fn touch_ident(&mut self, name: &str, span: Span, consume: bool)
        ensures
            final(self).follows(*old(self), used(old(self).st(), name@, span, consume)),
    {
        let ghost before = self.errors@;
        proof {
            assert(self.errs() + Seq::<SMoved>::empty() =~= self.errs());
        }
        let (is_affine, moved) = match self.scopes.get(name) {
            Some(o) => (o.ty.is_affine(), o.moved),
            None => (false, false),
        };
        if !is_affine {
            return;
        }
        if moved {
            let e = OwnershipError {
                kind: OwnershipErrorKind::UseAfterMove { name: name.to_owned() },
                span,
            };
            self.errors.push(e);
            proof {
                assert(self.errs() =~= errors_view(before) + seq![SMoved { name: name@, span }]);
            }
            return;
        }
        if consume {
            set_moved(&mut self.scopes, name, true);
        }
    }

    /// Whether reading through this variable takes an affine value out of it.
    fn extracts(&self, name: &str) -> (r: bool)
        ensures
            r == takes_content(self.st(), name@),
    {
        match self.scopes.get(name) {
            Some(o) => match &o.ty {
                Ty::Box(inner) => inner.is_affine(),
                _ => false,
            },
            None => false,
        }
    }

    fn touch_all(&mut self, p: &Program, v: &Vec<Expr>)
        requires
            old(self).st().len() > 0,
        ensures
            final(self).follows(*old(self), touch_all(*p, v@, old(self).st())),
        decreases v,
    {
        let ghost begin = *self;
        let mut i: usize = 0;
        proof {
            assert(begin.errs() + Seq::<SMoved>::empty() =~= begin.errs());
        }
        while i < v.len()
            invariant
                i <= v@.len(),
                begin.st().len() > 0,
                self.follows(begin, touch_all(*p, v@.take(i as int), begin.st())),
            decreases v@.len() - i,
        {
            proof {
                touch_all_shape(*p, v@.take(i as int), begin.st());
            }
            let ghost mid = *self;
            self.touch_expr(p, &v[i], true);
            proof {
                assert(v@.take(i + 1).drop_last() =~= v@.take(i as int));
                let a = touch_all(*p, v@.take(i as int), begin.st());
                let b = touch(*p, v@[i as int], true, a.st);
                assert((begin.errs() + a.errs) + b.errs =~= begin.errs() + (a.errs + b.errs));
            }
            i = i + 1;
        }
        proof {
            assert(v@.take(i as int) =~= v@);
        }
    }

    fn check_stmts(&mut self, p: &Program, v: &Vec<Stmt>)
        requires
            old(self).st().len() > 0,
        ensures
            final(self).follows(*old(self), check_stmts(*p, v@, old(self).st())),
        decreases v, 0nat,
    {
        let ghost begin = *self;
        let mut i: usize = 0;
        proof {
            assert(begin.errs() + Seq::<SMoved>::empty() =~= begin.errs());
        }
        while i < v.len()
            invariant
                i <= v@.len(),
                begin.st().len() > 0,
                self.follows(begin, check_stmts(*p, v@.take(i as int), begin.st())),
            decreases v@.len() - i,
        {
            proof {
                check_stmts_shape(*p, v@.take(i as int), begin.st());
            }
            self.check_stmt(p, &v[i]);
            proof {
                assert(v@.take(i + 1).drop_last() =~= v@.take(i as int));
                let a = check_stmts(*p, v@.take(i as int), begin.st());
                let b = check_stmt(*p, v@[i as int], a.st);
                assert((begin.errs() + a.errs) + b.errs =~= begin.errs() + (a.errs + b.errs));
            }
            i = i + 1;
        }
        proof {
            assert(v@.take(i as int) =~= v@);
        }
    }

    fn check_block(&mut self, p: &Program, v: &Vec<Stmt>)
        requires
            old(self).st().len() > 0,
        ensures
            final(self).follows(*old(self), check_block(*p, v@, old(self).st())),
        decreases v, 1nat,
    {
        let ghost before = self.st();
        self.scopes.push();
        self.check_stmts(p, v);
        proof {
            check_stmts_shape(*p, v@, opened(before));
        }
        self.scopes.pop();
    }

    fn check_stmt(&mut self, p: &Program, s: &Stmt)
        requires
            old(self).st().len() > 0,
        ensures
            final(self).follows(*old(self), check_stmt(*p, *s, old(self).st())),
        decreases s, 1nat,
    {
        let ghost begin = *self;
        proof {
            assert(begin.errs() + Seq::<SMoved>::empty() =~= begin.errs());
        }
        match s {
            Stmt::Let { name, ty, value, .. } => {
                self.touch_expr(p, value, true);
                proof {
                    touch_shape(*p, *value, true, begin.st());
                }
                self.scopes.define(name.as_str(), Own { ty: ty.duplicate(), moved: false });
            }
            Stmt::Return { value, .. } => match value {
                Some(e) => {
                    self.touch_expr(p, e, true);
                }
                None => {}
            },
            Stmt::While { cond, body, .. } => {
                self.check_while(p, s, cond, body);
            }
            Stmt::Audited { body, .. } => {
                self.check_block(p, body);
            }
            Stmt::Expr(e) => {
                self.touch_expr(p, e, true);
            }
        }
    }

    /// Checks a loop twice: once to see what state an iteration leaves, then for
    /// real from there, since the next iteration starts there.
    fn check_while(&mut self, p: &Program, s: &Stmt, cond: &Expr, body: &Block)
        requires
            old(self).st().len() > 0,
            s matches Stmt::While { cond: c, body: b, .. } && c == *cond && b == *body,
        ensures
            ({
                let st = old(self).st();
                let once = check_block(*p, body.stmts@, touch(*p, *cond, true, st).st);
                let x = touch(*p, *cond, true, merged(st, once.st));
                let again = check_block(*p, body.stmts@, x.st);
                final(self).follows(
                    *old(self),
                    Checked { st: x.st, errs: x.errs + again.errs },
                )
            }),
        decreases s, 0nat,
    {
        let ghost begin = *self;
        let before = self.scopes.duplicate();
        let found: usize = self.errors.len();
        let ghost st = begin.st();
        let ghost w = touch(*p, *cond, true, st);
        let ghost once = check_block(*p, body.stmts@, w.st);
        self.touch_expr(p, cond, true);
        proof {
            touch_shape(*p, *cond, true, st);
        }
        self.check_block(p, &body.stmts);
        proof {
            check_block_shape(*p, body.stmts@, w.st);
            shape_trans(once.st, w.st, st);
            merged_shape(st, once.st);
            assert(self.errs().take(found as int) =~= begin.errs());
            assert(self.errors@.len() >= found) by {
                assert(self.errs().len() == self.errors@.len());
            }
        }
        let ghost noisy = self.errors@;
        self.errors.truncate(found);
        proof {
            assert(self.errs() =~= errors_view(noisy).take(found as int));
        }
        self.scopes = merge_moved(&before, &self.scopes);
        let ghost head = merged(st, once.st);
        let ghost x = touch(*p, *cond, true, head);
        self.touch_expr(p, cond, true);
        proof {
            touch_shape(*p, *cond, true, head);
        }
        let left = self.scopes.duplicate();
        self.check_block(p, &body.stmts);
        self.scopes = left;
        proof {
            let again = check_block(*p, body.stmts@, x.st);
            assert((begin.errs() + x.errs) + again.errs =~= begin.errs() + (x.errs + again.errs));
        }
    }

    fn touch_if(&mut self, p: &Program, e: &Expr)
        requires
            old(self).st().len() > 0,
            e is If,
        ensures
            final(self).follows(*old(self), touch(*p, *e, true, old(self).st())),
        decreases e, 4nat,
    {
        let ghost start = *self;
        if let Expr::If { cond, then_block, else_block, .. } = e {
            self.touch_expr(p, cond, true);
            proof {
                touch_shape(*p, **cond, true, start.st());
            }
            let ghost begin = *self;
            let before = self.scopes.duplicate();
            self.check_block(p, &then_block.stmts);
            let after_then = self.scopes.duplicate();
            self.scopes = before;
            let ghost x = touch(*p, **cond, true, start.st());
            let ghost t = check_block(*p, then_block.stmts@, begin.st());
            let ghost f = clean(begin.st());
            match else_block {
                Some(b) => {
                    self.check_else(p, b);
                    proof {
                        f = check_else(*p, **b, begin.st());
                    }
                }
                None => {}
            }
            self.scopes = merge_moved(&after_then, &self.scopes);
            proof {
                assert(self.errs() =~= start.errs() + (x.errs + t.errs + f.errs));
            }
        }
    }

    fn check_else(&mut self, p: &Program, b: &ElseBranch)
        requires
            old(self).st().len() > 0,
        ensures
            final(self).follows(*old(self), check_else(*p, *b, old(self).st())),
        decreases b,
    {
        match b {
            ElseBranch::Block(b) => {
                self.check_block(p, &b.stmts);
            }
            ElseBranch::If(e) => {
                self.touch_expr(p, e, true);
            }
        }
    }

    fn check_arm(&mut self, p: &Program, arm: &MatchArm)
        requires
            old(self).st().len() > 0,
        ensures
            final(self).follows(*old(self), check_arm(*p, *arm, old(self).st())),
        decreases arm,
    {
        let ghost before = self.st();
        let ghost errs = self.errs();
        self.scopes.push();
        match find_variant(p, arm.variant.as_str()) {
            Some((i, j)) => {
                let payload = &p.enums[i].variants[j].payload;
                let mut n: usize = 0;
                while n < arm.bindings.len() && n < payload.len()
                    invariant
                        n <= arm.bindings@.len(),
                        n <= payload@.len(),
                        self.errs() == errs,
                        self.st() == bound(opened(before), arm.bindings@, payload@, n as nat),
                    decreases payload@.len() - n,
                {
                    proof {
                        bound_keeps(opened(before), arm.bindings@, payload@, n as nat);
                    }
                    self.scopes.define(
                        arm.bindings[n].as_str(),
                        Own { ty: payload[n].duplicate(), moved: false },
                    );
                    n = n + 1;
                }
            }
            None => {}
        }
        proof {
            arm_state_keeps(*p, *arm, before);
            touch_shape(*p, *arm.body, true, arm_state(*p, *arm, before));
        }
        self.touch_expr(p, &arm.body, true);
        self.scopes.pop();
    }

    fn check_arms(&mut self, p: &Program, v: &Vec<MatchArm>)
        requires
            old(self).st().len() > 0,
        ensures
            final(self).follows(*old(self), check_arms(*p, v@, old(self).st())),
        decreases v,
    {
        let ghost begin = *self;
        let before = self.scopes.duplicate();
        let mut i: usize = 0;
        proof {
            assert(begin.errs() + Seq::<SMoved>::empty() =~= begin.errs());
        }
        while i < v.len()
            invariant
                i <= v@.len(),
                begin.st().len() > 0,
                before@ == begin.st(),
                self.follows(begin, check_arms(*p, v@.take(i as int), begin.st())),
            decreases v@.len() - i,
        {
            let so_far = self.scopes.duplicate();
            self.scopes = before.duplicate();
            self.check_arm(p, &v[i]);
            self.scopes = merge_moved(&so_far, &self.scopes);
            proof {
                assert(v@.take(i + 1).drop_last() =~= v@.take(i as int));
                let a = check_arms(*p, v@.take(i as int), begin.st());
                let b = check_arm(*p, v@[i as int], begin.st());
                assert((begin.errs() + a.errs) + b.errs =~= begin.errs() + (a.errs + b.errs));
            }
            i = i + 1;
        }
        proof {
            assert(v@.take(i as int) =~= v@);
        }
    }

    /// Checks an expression of two parts, of which `send` does not take the first.
    fn touch_two(&mut self, p: &Program, e: &Expr)
        requires
            old(self).st().len() > 0,
            e is Binary || e is Connect || e is Open || e is Send,
        ensures
            final(self).follows(*old(self), touch(*p, *e, true, old(self).st())),
        decreases e, 4nat,
    {
        let ghost begin = *self;
        match e {
            Expr::Binary(_, a, b, _)
            | Expr::Connect(a, b, _)
            | Expr::Open(a, b, _)
            | Expr::Send(a, b, _) => {
                let take = !matches!(e, Expr::Send(..));
                self.touch_expr(p, a, take);
                proof {
                    touch_shape(*p, **a, take, begin.st());
                }
                self.touch_expr(p, b, true);
                proof {
                    let x = touch(*p, **a, take, begin.st());
                    let y = touch(*p, **b, true, x.st);
                    assert((begin.errs() + x.errs) + y.errs =~= begin.errs() + (x.errs + y.errs));
                }
            }
            _ => {}
        }
    }

    fn touch_expr(&mut self, p: &Program, e: &Expr, consume: bool)
        requires
            old(self).st().len() > 0,
        ensures
            final(self).follows(*old(self), touch(*p, *e, consume, old(self).st())),
        decreases e, 5nat,
    {
        let ghost begin = *self;
        proof {
            assert(begin.errs() + Seq::<SMoved>::empty() =~= begin.errs());
        }
        match e {
            Expr::Int(..) | Expr::Float(..) | Expr::Bool(..) | Expr::Str(..) | Expr::Chan(_) => {}
            Expr::Ident(name, span) => {
                self.touch_ident(name.as_str(), *span, consume);
            }
            Expr::Unary(_, a, _)
            | Expr::Box(a, _)
            | Expr::Join(a, _)
            | Expr::StopSandbox(a, _)
            | Expr::Listen(a, _) => {
                self.touch_expr(p, a, true);
            }
            Expr::Ref(a, _)
            | Expr::Recv(a, _)
            | Expr::Accept(a, _)
            | Expr::FieldAccess(a, _, _) => {
                self.touch_expr(p, a, false);
            }
            Expr::Deref(a, _) => match &**a {
                Expr::Ident(name, span) => {
                    let take = self.extracts(name.as_str());
                    self.touch_ident(name.as_str(), *span, take);
                }
                _ => {
                    self.touch_expr(p, a, false);
                }
            },
            Expr::Binary(..) | Expr::Connect(..) | Expr::Open(..) | Expr::Send(..) => {
                self.touch_two(p, e);
            }
            Expr::Call(_, args, _)
            | Expr::Spawn(_, args, _)
            | Expr::SpawnSandbox(_, args, _)
            | Expr::ArrayLit(args, _) => {
                self.touch_all(p, args);
            }
            Expr::Index(a, args, _) => {
                self.touch_expr(p, a, false);
                proof {
                    touch_shape(*p, **a, false, begin.st());
                }
                self.touch_all(p, args);
                proof {
                    let x = touch(*p, **a, false, begin.st());
                    let y = touch_all(*p, args@, x.st);
                    assert((begin.errs() + x.errs) + y.errs =~= begin.errs() + (x.errs + y.errs));
                }
            }
            Expr::Assign(name, a, _) => {
                self.touch_expr(p, a, true);
                set_moved(&mut self.scopes, name.as_str(), false);
            }
            Expr::If { .. } => {
                self.touch_if(p, e);
            }
            Expr::Match { scrutinee, arms, .. } => {
                self.touch_expr(p, scrutinee, true);
                proof {
                    touch_shape(*p, **scrutinee, true, begin.st());
                }
                self.check_arms(p, arms);
                proof {
                    let x = touch(*p, **scrutinee, true, begin.st());
                    let y = check_arms(*p, arms@, x.st);
                    assert((begin.errs() + x.errs) + y.errs =~= begin.errs() + (x.errs + y.errs));
                }
            }
            Expr::Transact { .. } => {
                self.touch_transact(p, e);
            }
        }
    }

    fn touch_transact(&mut self, p: &Program, e: &Expr)
        requires
            old(self).st().len() > 0,
            e is Transact,
        ensures
            final(self).follows(*old(self), touch(*p, *e, true, old(self).st())),
        decreases e, 4nat,
    {
        let ghost begin = *self;
        let ghost st = self.st();
        if let Expr::Transact { network, verify, commit, compensate, log, .. } = e {
            self.scopes.push();
            self.touch_all(p, &network.args);
            let ghost a = touch_all(*p, network.args@, opened(st));
            proof {
                touch_all_shape(*p, network.args@, opened(st));
            }
            let ret = match find_fn(p, network.name.as_str()) {
                Some(i) => p.fns[i].ret.duplicate(),
                None => Ty::Error,
            };
            self.scopes.define("network", Own { ty: ret, moved: false });
            let ghost s1 = self.st();
            self.touch_all(p, &verify.args);
            let ghost b = touch_all(*p, verify.args@, s1);
            proof {
                touch_all_shape(*p, verify.args@, s1);
            }
            self.scopes.define("verify", Own { ty: Ty::Bool, moved: false });
            let ghost s2 = self.st();
            let before = self.scopes.duplicate();
            self.touch_all(p, &commit.args);
            let ghost c = touch_all(*p, commit.args@, s2);
            let after_commit = self.scopes.duplicate();
            self.scopes = before;
            let ghost d = clean(s2);
            match compensate {
                Some(s) => {
                    self.touch_all(p, &s.args);
                    proof {
                        d = touch_all(*p, s.args@, s2);
                        touch_all_shape(*p, s.args@, s2);
                    }
                }
                None => {}
            }
            proof {
                touch_all_shape(*p, commit.args@, s2);
                merged_shape(c.st, d.st);
            }
            self.scopes = merge_moved(&after_commit, &self.scopes);
            let ghost s3 = self.st();
            let ghost f = clean(s3);
            match log {
                Some(s) => {
                    self.touch_all(p, &s.args);
                    proof {
                        f = touch_all(*p, s.args@, s3);
                        touch_all_shape(*p, s.args@, s3);
                    }
                }
                None => {}
            }
            self.scopes.pop();
            proof {
                assert(self.errs() =~= begin.errs() + (a.errs + b.errs + c.errs + d.errs + f.errs));
            }
        }
    }
}

pub(crate) proof fn entry_opens(f: crate::ast::FnDecl, n: nat)
    ensures
        entry(f, n).len() == 1,
    decreases n,
{
    if n > 0 {
        entry_opens(f, (n - 1) as nat);
    }
}

/// Checks every function of a program: no variable is used after its value was
/// moved out of it.
pub fn check_ownership(p: &Program) -> (r: Result<(), Vec<OwnershipError>>)
    ensures
        match r {
            Ok(_) => ownership_errors(*p).len() == 0,
            Err(v) => ownership_errors(*p).len() > 0 && errors_view(v@) == ownership_errors(*p),
        },
{
    let mut c = Checker { scopes: Scopes::new(), errors: Vec::new() };
    let mut i: usize = 0;
    proof {
        assert(c.errs() =~= errors_upto(*p, 0));
    }
    while i < p.fns.len()
        invariant
            i <= p.fns@.len(),
            c.errs() == errors_upto(*p, i as nat),
        decreases p.fns@.len() - i,
    {
        let f = &p.fns[i];
        let mut sc: Scopes<Own> = Scopes::new();
        sc.push();
        let mut n: usize = 0;
        while n < f.params.len()
            invariant
                n <= f.params@.len(),
                sc@ == entry(*f, n as nat),
            decreases f.params@.len() - n,
        {
            proof {
                entry_opens(*f, n as nat);
            }
            sc.define(
                f.params[n].name.as_str(),
                Own { ty: f.params[n].ty.duplicate(), moved: false },
            );
            n = n + 1;
        }
        proof {
            entry_opens(*f, n as nat);
        }
        c.scopes = sc;
        c.check_stmts(p, &f.body.stmts);
        i = i + 1;
    }
    if c.errors.len() == 0 {
        Ok(())
    } else {
        Err(c.errors)
    }
}

/// Two branches leave the names and types that both have, and a name is moved where
/// either moves it. What they leave does not depend on which is which, and a branch
/// merged with itself is itself.
pub proof fn merging_has_no_order(a: State, b: State)
    requires
        shape(a, b),
    ensures
        merged(a, b) == merged(b, a),
        merged(a, a) == a,
        shape(merged(a, b), a),
        forall|i: int, n: Seq<char>|
            0 <= i < a.len() && (#[trigger] a[i].contains_key(n)) ==> merged(a, b)[i][n] == (
                a[i][n].0,
                a[i][n].1 || b[i][n].1,
            ),
{
    let x = merged(a, b);
    let y = merged(b, a);
    assert forall|i: int| 0 <= i < x.len() implies x[i] == y[i] by {
        assert(same_names(a[i], b[i]));
        assert(x[i] =~= y[i]);
    }
    assert(x =~= y);
    let z = merged(a, a);
    assert forall|i: int| 0 <= i < z.len() implies z[i] == a[i] by {
        assert(z[i] =~= a[i]);
    }
    assert(z =~= a);
    merged_shape(a, b);
    assert forall|i: int, n: Seq<char>|
        0 <= i < a.len() && (#[trigger] a[i].contains_key(n)) implies x[i][n] == (
        a[i][n].0,
        a[i][n].1 || b[i][n].1,
    ) by {
        assert(same_names(a[i], b[i]));
    }
}

/// Scope `i` is the innermost that binds the name.
pub open spec fn binds_last(st: State, name: Seq<char>, i: int) -> bool {
    &&& 0 <= i < st.len()
    &&& st[i].contains_key(name)
    &&& forall|j: int| i < j < st.len() ==> !(#[trigger] st[j]).contains_key(name)
}

/// Marking a name as moved, or as there again, changes its mark in the innermost scope
/// that binds it, and nothing else: not its type, no other name, no other scope. A name
/// that nothing binds changes nothing.
pub proof fn marks_touch_one_name(st: State, name: Seq<char>, moved: bool, other: Seq<char>)
    ensures
        marked(st, name, moved).len() == st.len(),
        other != name ==> lookup(marked(st, name, moved), other) == lookup(st, other),
        lookup(marked(st, name, moved), name) == match lookup(st, name) {
            Some(b) => Some((b.0, moved)),
            None => None,
        },
        lookup(st, name) is None ==> marked(st, name, moved) == st,
        forall|i: int|
            0 <= i < st.len() ==> #[trigger] marked(st, name, moved)[i] == if binds_last(st, name, i) {
                st[i].insert(name, (st[i][name].0, moved))
            } else {
                st[i]
            },
{
    if let Some(b) = lookup(st, name) {
        assigned_one(st, name, (b.0, moved), other);
        let k = last_binding(st, name);
        crate::scopes::lookup_at(st, k, name);
        let m = marked(st, name, moved);
        assert(m == st.update(k, st[k].insert(name, (b.0, moved))));
        assert forall|i: int| 0 <= i < st.len() implies #[trigger] m[i] == if binds_last(st, name, i) {
            st[i].insert(name, (st[i][name].0, moved))
        } else {
            st[i]
        } by {
            if i < k {
                assert(st[k].contains_key(name));
            } else if i > k {
                assert(!st[i].contains_key(name));
            }
        }
    } else {
        unbound(st, name);
    }
}

proof fn last_binding(st: State, name: Seq<char>) -> (k: int)
    requires
        lookup(st, name) is Some,
    ensures
        binds_last(st, name, k),
    decreases st.len(),
{
    if st.last().contains_key(name) {
        st.len() - 1
    } else {
        let k = last_binding(st.drop_last(), name);
        assert forall|j: int| k < j < st.len() implies !(#[trigger] st[j]).contains_key(name) by {
            if j < st.len() - 1 {
                assert(st.drop_last()[j] == st[j]);
            }
        }
        k
    }
}

proof fn unbound(st: State, name: Seq<char>)
    requires
        lookup(st, name) is None,
    ensures
        forall|i: int| 0 <= i < st.len() ==> !(#[trigger] st[i]).contains_key(name),
    decreases st.len(),
{
    if st.len() > 0 {
        unbound(st.drop_last(), name);
        assert forall|i: int| 0 <= i < st.len() implies !(#[trigger] st[i]).contains_key(name) by {
            if i < st.len() - 1 {
                assert(st.drop_last()[i] == st[i]);
            }
        }
    }
}

proof fn assigned_one(st: State, name: Seq<char>, v: (STy, bool), other: Seq<char>)
    requires
        lookup(st, name) is Some,
    ensures
        assigned(st, name, v).len() == st.len(),
        other != name ==> lookup(assigned(st, name, v), other) == lookup(st, other),
        lookup(assigned(st, name, v), name) == Some(v),
    decreases st.len(),
{
    if st.len() > 0 {
        let a = assigned(st, name, v);
        if st.last().contains_key(name) {
            assert(a.drop_last() =~= st.drop_last());
        } else {
            assigned_one(st.drop_last(), name, v, other);
            assert(a.drop_last() =~= assigned(st.drop_last(), name, v));
        }
    }
}

} // verus!
