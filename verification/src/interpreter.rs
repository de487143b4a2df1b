//! The interpreter: runs of a program, one step at a time.
use crate::arith::eval_binary;
use crate::ast::{BinOp, ElseBranch, Expr, Program, STy, Stmt, TransactSlot, Ty, UnOp};
use crate::builtin_eval::eval_builtin;
use crate::builtins::Builtin;
use crate::check::{check_ty, fit_each, Check, SCheck};
use crate::machine;
use crate::machine::{SCtrl, SFrame, SState, Step};
use crate::registry::{find_field, find_fn, find_struct, find_variant, fn_named};
use crate::request::{args_view, settle, Act, Mode, Request, Response, SandboxArg, SSandboxArg};
use crate::scopes::{Duplicate, Scopes};
use crate::text::{cat3, dec_i64, same};
use crate::token::{quote, Span};
use crate::value::{
    copy_value, copy_values, float_negate, values_view, ErrorKind, Outcome, RuntimeError, SValue,
    Value,
};
use vstd::prelude::*;
use vstd::string::*;

verus! {

/// What a name is bound to: a value and its declared type.
pub struct Binding {
    pub value: Value,
    pub ty: Ty,
}

impl View for Binding {
    type V = (SValue, STy);

    open spec fn view(&self) -> (SValue, STy) {
        (self.value@, self.ty@)
    }
}

/// What waits for a value.
pub enum Frame<'a> {
    Args(&'a Expr, Vec<Value>),
    Logic(&'a Expr),
    LogicRight(&'a Expr),
    Cond(&'a Expr),
    Scrutinee(&'a Expr),
    Scope,
    Stmt(&'a Vec<Stmt>, usize),
    Loop(&'a Vec<Stmt>, usize),
    Audited(&'a Vec<Stmt>, usize),
    SlotArgs(&'a Expr, Step, bool, Vec<Value>),
    Slot(&'a Expr, Step, bool),
    Call(usize, Span, Scopes<Binding>),
}

impl<'a> View for Frame<'a> {
    type V = SFrame;

    open spec fn view(&self) -> SFrame {
        match *self {
            Frame::Args(e, done) => SFrame::Args(*e, values_view(done@)),
            Frame::Logic(e) => SFrame::Logic(*e),
            Frame::LogicRight(e) => SFrame::LogicRight(*e),
            Frame::Cond(e) => SFrame::Cond(*e),
            Frame::Scrutinee(e) => SFrame::Scrutinee(*e),
            Frame::Scope => SFrame::Scope,
            Frame::Stmt(v, i) => SFrame::Stmt(v@, i as int),
            Frame::Loop(v, i) => SFrame::Loop(v@, i as int),
            Frame::Audited(v, i) => SFrame::Audited(v@, i as int),
            Frame::SlotArgs(e, step, ok, done) => SFrame::SlotArgs(
                *e,
                step,
                ok,
                values_view(done@),
            ),
            Frame::Slot(e, step, ok) => SFrame::Slot(*e, step, ok),
            Frame::Call(i, span, env) => SFrame::Call(i as int, span, env@),
        }
    }
}

pub open spec fn stack_view(v: Seq<Frame>) -> Seq<SFrame> {
    Seq::new(v.len(), |i: int| v[i]@)
}

/// What a run does next.
pub enum Ctrl<'a> {
    Eval(&'a Expr),
    Run(&'a Vec<Stmt>, usize, Value),
    Ret(Value),
    Unwind(Value),
    Ask(Request, Span),
    Done(Value),
    Failed(RuntimeError),
    Stuck,
}

impl<'a> View for Ctrl<'a> {
    type V = SCtrl;

    open spec fn view(&self) -> SCtrl {
        match *self {
            Ctrl::Eval(e) => SCtrl::Eval(*e),
            Ctrl::Run(v, i, last) => SCtrl::Run(v@, i as int, last@),
            Ctrl::Ret(v) => SCtrl::Ret(v@),
            Ctrl::Unwind(v) => SCtrl::Unwind(v@),
            Ctrl::Ask(r, span) => SCtrl::Ask(r@, span),
            Ctrl::Done(v) => SCtrl::Done(v@),
            Ctrl::Failed(e) => SCtrl::Failed(e@),
            Ctrl::Stuck => SCtrl::Stuck,
        }
    }
}

/// A run of a program.
pub struct Run<'a> {
    pub program: &'a Program,
    pub ctrl: Ctrl<'a>,
    pub frames: Vec<Frame<'a>>,
    pub env: Scopes<Binding>,
    pub rng: Option<u64>,
}

impl<'a> View for Run<'a> {
    type V = SState;

    open spec fn view(&self) -> SState {
        SState {
            ctrl: self.ctrl@,
            frames: stack_view(self.frames@),
            env: self.env@,
            rng: self.rng,
        }
    }
}

/// The places that the frames of a run refer to.
pub open spec fn frame_ok(p: Program, f: Frame) -> bool {
    match f {
        Frame::Args(e, done) => match machine::wanted(*e, values_view(done@)) {
            Some(n) => done@.len() < n,
            None => false,
        },
        Frame::Stmt(v, i) => i < v@.len(),
        Frame::Loop(v, i) => i < v@.len(),
        Frame::Audited(v, i) => i < v@.len(),
        Frame::Call(i, _, _) => i < p.fns@.len(),
        _ => true,
    }
}

impl<'a> Run<'a> {
    /// Whether everything that waits is a part of the program.
    pub open spec fn wf(&self) -> bool {
        &&& forall|i: int|
            0 <= i < self.frames@.len() ==> frame_ok(*self.program, #[trigger] self.frames@[i])
        &&& self.ctrl matches Ctrl::Run(v, i, _) ==> i <= v@.len()
    }

    /// `self` after a part of a step from `before`.
    pub open spec fn after(&self, before: Self, s: SState) -> bool {
        self.wf() && self.program == before.program && self@ == s
    }

    fn to(self, ctrl: Ctrl<'a>) -> (r: Self)
        requires
            self.wf(),
            ctrl matches Ctrl::Run(v, i, _) ==> i <= v@.len(),
        ensures
            r.after(self, machine::to(self@, ctrl@)),
    {
        Run { ctrl, ..self }
    }

    fn waiting(self, f: Frame<'a>) -> (r: Self)
        requires
            self.wf(),
            frame_ok(*self.program, f),
        ensures
            r.after(self, machine::waiting(self@, f@)),
            r.ctrl == self.ctrl,
    {
        let mut frames = self.frames;
        let ghost before = frames@;
        frames.push(f);
        proof {
            assert(stack_view(frames@) =~= stack_view(before).push(f@));
        }
        Run { frames, ..self }
    }

    fn fail(self, kind: ErrorKind, span: Span) -> (r: Self)
        requires
            self.wf(),
        ensures
            r.after(self, machine::fail(self@, kind@, span)),
    {
        self.to(Ctrl::Failed(RuntimeError { kind, span }))
    }

    fn wrong_kind(self, expected: &str, v: &Value, span: Span) -> (r: Self)
        requires
            self.wf(),
        ensures
            r.after(self, machine::wrong_kind(self@, expected@, v@, span)),
    {
        self.fail(
            ErrorKind::TypeMismatch {
                expected: expected.to_owned(),
                found: v.ty_name().to_owned(),
            },
            span,
        )
    }

    fn conclude(self, o: Outcome) -> (r: Self)
        requires
            self.wf(),
        ensures
            r.after(self, machine::conclude(self@, o@)),
    {
        match o {
            Outcome::Val(v) => self.to(Ctrl::Ret(v)),
            Outcome::Fail(e) => self.to(Ctrl::Failed(e)),
            Outcome::Stuck => self.to(Ctrl::Stuck),
        }
    }

    fn act(self, a: Act, span: Span) -> (r: Self)
        requires
            self.wf(),
        ensures
            r.after(self, machine::act(self@, a@, span)),
    {
        match a {
            Act::Done(o) => self.conclude(o),
            Act::Ask(r) => self.to(Ctrl::Ask(r, span)),
        }
    }
}

/// How many operands an expression evaluates, given those that it has.
fn wanted(e: &Expr, done: &Vec<Value>) -> (r: Option<usize>)
    ensures
        match r {
            Some(n) => machine::wanted(*e, values_view(done@)) == Some(n as nat),
            None => machine::wanted(*e, values_view(done@)) is None,
        },
{
    match e {
        Expr::Unary(..)
        | Expr::Box(..)
        | Expr::Deref(..)
        | Expr::Ref(..)
        | Expr::Join(..)
        | Expr::Recv(..)
        | Expr::StopSandbox(..)
        | Expr::Listen(..)
        | Expr::Accept(..)
        | Expr::FieldAccess(..)
        | Expr::Assign(..) => Some(1),
        Expr::Binary(..) | Expr::Send(..) | Expr::Connect(..) | Expr::Open(..) => Some(2),
        Expr::Call(_, args, _)
        | Expr::Spawn(_, args, _)
        | Expr::SpawnSandbox(_, args, _)
        | Expr::ArrayLit(args, _) => Some(args.len()),
        Expr::Index(_, indices, _) => {
            if done.len() == 0 {
                return Some(1);
            }
            proof {
                assert(values_view(done@)[0] == done@[0]@);
            }
            match &done[0] {
                Value::Vector(_) => if indices.len() >= 1 {
                    Some(2)
                } else {
                    None
                },
                Value::Matrix(..) => if indices.len() >= 2 {
                    Some(3)
                } else {
                    None
                },
                _ => None,
            }
        }
        _ => None,
    }
}

/// Operand number `k` of an expression.
fn operand<'a>(e: &'a Expr, k: usize, Ghost(done): Ghost<Seq<SValue>>) -> (r: &'a Expr)
    requires
        k == done.len(),
        machine::wanted(*e, done) matches Some(n) && k < n,
    ensures
        *r == machine::operand(*e, k as int),
{
    match e {
        Expr::Unary(_, a, _)
        | Expr::Box(a, _)
        | Expr::Deref(a, _)
        | Expr::Ref(a, _)
        | Expr::Join(a, _)
        | Expr::Recv(a, _)
        | Expr::StopSandbox(a, _)
        | Expr::Listen(a, _)
        | Expr::Accept(a, _)
        | Expr::FieldAccess(a, _, _)
        | Expr::Assign(_, a, _) => a,
        Expr::Binary(_, a, b, _)
        | Expr::Send(a, b, _)
        | Expr::Connect(a, b, _)
        | Expr::Open(a, b, _) => if k == 0 {
            a
        } else {
            b
        },
        Expr::Call(_, args, _)
        | Expr::Spawn(_, args, _)
        | Expr::SpawnSandbox(_, args, _)
        | Expr::ArrayLit(args, _) => &args[k],
        Expr::Index(a, indices, _) => if k == 0 {
            a
        } else {
            &indices[k - 1]
        },
        other => other,
    }
}

/// What operand number `k` must be, where `v` is something else.
fn rejects(e: &Expr, k: usize, v: &Value) -> (r: Option<&'static str>)
    ensures
        match r {
            Some(t) => machine::rejects(*e, k as int, v@) == Some(t@),
            None => machine::rejects(*e, k as int, v@) is None,
        },
{
    let is_str = matches!(v, Value::Str(_));
    let is_int = matches!(v, Value::Int(_));
    match e {
        Expr::Connect(..) => if k == 0 {
            if is_str {
                None
            } else {
                Some("str")
            }
        } else if is_int {
            None
        } else {
            Some("i64")
        },
        Expr::Open(..) => if is_str {
            None
        } else {
            Some("str")
        },
        Expr::Listen(..) => if is_int {
            None
        } else {
            Some("i64")
        },
        _ => None,
    }
}

fn mismatched(expected: &str, v: &Value, span: Span) -> (r: Outcome)
    ensures
        r@ == crate::arith::mismatch(expected@, crate::value::kind_name(v@), span),
{
    crate::arith::mismatched(expected, v.ty_name(), span)
}

fn eval_unary(op: UnOp, v: Value, span: Span) -> (r: Outcome)
    ensures
        r@ == machine::unary(op, v@, span),
{
    match op {
        UnOp::Neg => match v {
            Value::Int(n) => Outcome::Val(Value::Int(0i64.wrapping_sub(n))),
            Value::Float(b) => Outcome::Val(Value::Float(float_negate(b))),
            other => mismatched("int or f64", &other, span),
        },
        UnOp::Not => match v {
            Value::Bool(b) => Outcome::Val(Value::Bool(!b)),
            other => mismatched("bool", &other, span),
        },
    }
}

/// The values of the rows, one after another.
fn flatten(rows: &Vec<Value>) -> (r: Option<Vec<Value>>)
    ensures
        match r {
            Some(v) => machine::flattened(values_view(rows@)) == Some(values_view(v@)),
            None => machine::flattened(values_view(rows@)) is None,
        },
{
    let ghost all = values_view(rows@);
    let mut flat: Vec<Value> = Vec::new();
    let mut i: usize = 0;
    proof {
        assert(all.take(0) =~= Seq::<SValue>::empty());
        assert(values_view(flat@) =~= Seq::<SValue>::empty());
    }
    while i < rows.len()
        invariant
            i <= rows@.len(),
            all == values_view(rows@),
            machine::flattened(all.take(i as int)) == Some(values_view(flat@)),
        decreases rows@.len() - i,
    {
        proof {
            assert(all.take(i + 1).drop_last() =~= all.take(i as int));
            assert(all.take(i + 1).last() == rows@[i as int]@);
        }
        match &rows[i] {
            Value::Vector(row) => {
                let ghost before = flat@;
                let mut copy = copy_values(row);
                let ghost added = copy@;
                flat.append(&mut copy);
                proof {
                    assert(values_view(flat@) =~= values_view(before) + values_view(added));
                }
            }
            _ => {
                proof {
                    flattened_none(all, (i + 1) as nat);
                }
                return None;
            }
        }
        i = i + 1;
    }
    proof {
        assert(all.take(i as int) =~= all);
    }
    Some(flat)
}

proof fn flattened_none(rows: Seq<SValue>, n: nat)
    requires
        n <= rows.len(),
        machine::flattened(rows.take(n as int)) is None,
    ensures
        machine::flattened(rows) is None,
    decreases rows.len(),
{
    if n == rows.len() {
        assert(rows.take(n as int) =~= rows);
    } else {
        assert(rows.drop_last().take(n as int) =~= rows.take(n as int));
        flattened_none(rows.drop_last(), n);
    }
}

fn eval_array(vals: Vec<Value>) -> (r: Outcome)
    ensures
        r@ == machine::array(values_view(vals@)),
{
    let ghost all = values_view(vals@);
    if vals.len() > 0 {
        proof {
            assert(all[0] == vals@[0]@);
        }
        if let Value::Vector(first) = &vals[0] {
            let cols: usize = first.len();
            let rows: usize = vals.len();
            proof {
                assert(values_view(first@).len() == cols);
                assert(all.len() == rows);
            }
            return match flatten(&vals) {
                Some(flat) => Outcome::Val(Value::Matrix(flat, rows, cols)),
                None => Outcome::Stuck,
            };
        }
    }
    Outcome::Val(Value::Vector(vals))
}

fn outside(i: i64, len: usize, span: Span) -> (r: Outcome)
    ensures
        r@ == machine::outside(i, len, span),
{
    Outcome::Fail(RuntimeError { kind: ErrorKind::IndexOutOfBounds { index: i, len }, span })
}

fn eval_index(vals: &Vec<Value>, span: Span) -> (r: Outcome)
    ensures
        r@ == machine::indexed(values_view(vals@), span),
{
    let ghost all = values_view(vals@);
    if vals.len() < 2 {
        return Outcome::Stuck;
    }
    proof {
        assert(all[0] == vals@[0]@);
        assert(all[1] == vals@[1]@);
    }
    match &vals[0] {
        Value::Vector(e) => match &vals[1] {
            Value::Int(i) => {
                let len: usize = e.len();
                proof {
                    assert(values_view(e@).len() == len);
                }
                if *i >= 0 && (*i as u64) < len as u64 {
                    Outcome::Val(copy_value(&e[*i as usize]))
                } else {
                    outside(*i, len, span)
                }
            }
            _ => Outcome::Stuck,
        },
        Value::Matrix(e, rows, cols) => {
            if vals.len() < 3 {
                return Outcome::Stuck;
            }
            proof {
                assert(all[2] == vals@[2]@);
            }
            match (&vals[1], &vals[2]) {
                (Value::Int(r), Value::Int(c)) => {
                    if !(*r >= 0 && (*r as u64) < *rows as u64) {
                        return outside(*r, *rows, span);
                    }
                    if !(*c >= 0 && (*c as u64) < *cols as u64) {
                        return outside(*c, *cols, span);
                    }
                    let len: usize = e.len();
                    proof {
                        assert(values_view(e@).len() == len);
                    }
                    let row: usize = *r as usize;
                    let col: usize = *c as usize;
                    match row.checked_mul(*cols) {
                        Some(start) => match start.checked_add(col) {
                            Some(at) => if at < len {
                                Outcome::Val(copy_value(&e[at]))
                            } else {
                                Outcome::Stuck
                            },
                            None => Outcome::Stuck,
                        },
                        None => Outcome::Stuck,
                    }
                }
                _ => Outcome::Stuck,
            }
        }
        _ => Outcome::Stuck,
    }
}

fn eval_field(p: &Program, v: &Value, name: &str) -> (r: Outcome)
    ensures
        r@ == machine::field(*p, v@, name@),
{
    match v {
        Value::Struct(n, f) => {
            proof {
                assert(values_view(f@).len() == f@.len());
            }
            match find_struct(p, n.as_str()) {
                Some(i) => match find_field(&p.structs[i], name) {
                    Some(k) => if k < f.len() {
                        Outcome::Val(copy_value(&f[k]))
                    } else {
                        Outcome::Stuck
                    },
                    None => Outcome::Stuck,
                },
                None => Outcome::Stuck,
            }
        }
        _ => Outcome::Stuck,
    }
}

fn bad_port(n: i64) -> (r: ErrorKind)
    ensures
        r@ == machine::bad_port(n),
{
    let d = dec_i64(n);
    ErrorKind::ChannelIoError {
        message: cat3("port ", d.as_str(), " is not a valid 0-65535 TCP port"),
    }
}

fn file_mode(m: &str) -> (r: Option<Mode>)
    ensures
        r == machine::file_mode(m@),
{
    if same(m, "r") {
        Some(Mode::Read)
    } else if same(m, "w") {
        Some(Mode::Write)
    } else if same(m, "a") {
        Some(Mode::Append)
    } else {
        None
    }
}

fn sandbox_args(p: &Program, name: &str, vals: &Vec<Value>) -> (r: Option<Vec<SandboxArg>>)
    ensures
        ({
            let all = values_view(vals@);
            match r {
                Some(v) => machine::sandbox_args(*p, name@, all, all.len()) == Some(
                    args_view(v@),
                ),
                None => machine::sandbox_args(*p, name@, all, all.len()) is None,
            }
        }),
{
    let ghost all = values_view(vals@);
    let found = find_fn(p, name);
    let mut out: Vec<SandboxArg> = Vec::new();
    let mut i: usize = 0;
    proof {
        assert(args_view(out@) =~= Seq::<SSandboxArg>::empty());
    }
    while i < vals.len()
        invariant
            i <= vals@.len(),
            all == values_view(vals@),
            crate::registry::same_place(found, fn_named(*p, name@), p.fns@.len()),
            machine::sandbox_args(*p, name@, all, i as nat) == Some(args_view(out@)),
        decreases vals@.len() - i,
    {
        let arg = match &vals[i] {
            Value::Int(n) => Some(SandboxArg::Text(dec_i64(*n))),
            Value::Bool(b) => Some(
                SandboxArg::Text(
                    if *b {
                        "true".to_owned()
                    } else {
                        "false".to_owned()
                    },
                ),
            ),
            Value::Channel(h) => match found {
                Some(k) => if i < p.fns[k].params.len() && matches!(
                    p.fns[k].params[i].ty,
                    Ty::Channel(_)
                ) {
                    Some(SandboxArg::Channel(*h))
                } else {
                    None
                },
                None => None,
            },
            _ => None,
        };
        let ghost before = out@;
        proof {
            assert(all[i as int] == vals@[i as int]@);
        }
        match arg {
            Some(a) => {
                out.push(a);
                proof {
                    assert(args_view(out@) =~= args_view(before).push(a@));
                }
            }
            None => {
                proof {
                    sandbox_none(*p, name@, all, (i + 1) as nat);
                }
                return None;
            }
        }
        i = i + 1;
    }
    Some(out)
}

proof fn sandbox_none(p: Program, name: Seq<char>, vals: Seq<SValue>, n: nat)
    requires
        n <= vals.len(),
        machine::sandbox_args(p, name, vals, n) is None,
    ensures
        machine::sandbox_args(p, name, vals, vals.len()) is None,
    decreases vals.len() - n,
{
    if n < vals.len() {
        sandbox_none(p, name, vals, n + 1);
    }
}

/// Values with one more behind them.
fn with_last(done: Vec<Value>, v: Value) -> (r: Vec<Value>)
    ensures
        values_view(r@) == values_view(done@).push(v@),
{
    let mut out = done;
    let ghost vv = v@;
    out.push(v);
    proof {
        assert(values_view(out@) =~= values_view(done@).push(vv));
    }
    out
}

/// The first of some values.
fn first(vals: Vec<Value>) -> (r: Value)
    requires
        vals@.len() >= 1,
    ensures
        r@ == values_view(vals@)[0],
{
    let mut vals = vals;
    vals.swap_remove(0)
}

/// The first two of some values.
fn first_two(vals: Vec<Value>) -> (r: (Value, Value))
    requires
        vals@.len() >= 2,
    ensures
        r.0@ == values_view(vals@)[0],
        r.1@ == values_view(vals@)[1],
{
    let mut vals = vals;
    let b = vals.swap_remove(1);
    let a = vals.swap_remove(0);
    (a, b)
}

/// Checks arguments against the parameters of a function.
fn check_params(p: &Program, k: usize, vals: &Vec<Value>, span: Span) -> (r: Check)
    requires
        k < p.fns@.len(),
        vals@.len() == p.fns@[k as int].params@.len(),
    ensures
        r@ == fit_each(
            *p,
            values_view(vals@),
            machine::param_types(p.fns@[k as int]),
            span,
        ),
{
    let f = &p.fns[k];
    let ghost all = values_view(vals@);
    let ghost ts = machine::param_types(*f);
    let mut i: usize = 0;
    proof {
        assert(all.take(0) =~= Seq::<SValue>::empty());
    }
    while i < vals.len()
        invariant
            i <= vals@.len(),
            k < p.fns@.len(),
            *f == p.fns@[k as int],
            vals@.len() == f.params@.len(),
            all == values_view(vals@),
            ts == machine::param_types(*f),
            fit_each(*p, all.take(i as int), ts, span) == SCheck::Fine,
        decreases vals@.len() - i,
    {
        let c = check_ty(p, &vals[i], &f.params[i].ty, span);
        proof {
            assert(all.take(i + 1).drop_last() =~= all.take(i as int));
            assert(all.take(i + 1).last() == vals@[i as int]@);
        }
        match c {
            Check::Fine => {}
            other => {
                proof {
                    crate::check::fit_each_stops(*p, all, ts, i as nat, span);
                }
                return other;
            }
        }
        i = i + 1;
    }
    proof {
        crate::check::fit_each_ends(*p, all, ts, i as nat, span);
    }
    Check::Fine
}

/// The bindings of the parameters of a function.
fn param_env(p: &Program, k: usize, vals: &Vec<Value>) -> (r: Scopes<Binding>)
    requires
        k < p.fns@.len(),
        vals@.len() == p.fns@[k as int].params@.len(),
    ensures
        r@ == machine::param_env(p.fns@[k as int], values_view(vals@), vals@.len()),
{
    let f = &p.fns[k];
    let mut env: Scopes<Binding> = Scopes::new();
    env.push();
    let mut i: usize = 0;
    while i < vals.len()
        invariant
            i <= vals@.len(),
            vals@.len() == f.params@.len(),
            env@ == machine::param_env(*f, values_view(vals@), i as nat),
        decreases vals@.len() - i,
    {
        proof {
            assert(values_view(vals@)[i as int] == vals@[i as int]@);
        }
        env.define(
            f.params[i].name.as_str(),
            Binding { value: copy_value(&vals[i]), ty: f.params[i].ty.duplicate() },
        );
        i = i + 1;
    }
    env
}

/// A step of a `transact`.
fn slot_of<'a>(e: &'a Expr, step: Step) -> (r: Option<&'a TransactSlot>)
    ensures
        match r {
            Some(s) => machine::slot_of(*e, step) == Some(*s),
            None => machine::slot_of(*e, step) is None,
        },
{
    match e {
        Expr::Transact { network, verify, commit, compensate, log, .. } => match step {
            Step::Network => Some(network),
            Step::Verify => Some(verify),
            Step::Commit => Some(commit),
            Step::Compensate => match compensate {
                Some(s) => Some(s),
                None => None,
            },
            Step::Log => match log {
                Some(s) => Some(s),
                None => None,
            },
        },
        _ => None,
    }
}

fn find_arm(arms: &Vec<crate::ast::MatchArm>, variant: &str) -> (r: Option<usize>)
    ensures
        crate::registry::same_place(r, machine::arm_for(arms@, variant@, 0), arms@.len()),
{
    let mut i: usize = 0;
    while i < arms.len()
        invariant
            i <= arms@.len(),
            machine::arm_for(arms@, variant@, 0) == machine::arm_for(arms@, variant@, i as int),
        decreases arms@.len() - i,
    {
        if same(arms[i].variant.as_str(), variant) {
            return Some(i);
        }
        i = i + 1;
    }
    None
}

impl<'a> Run<'a> {
    fn enter(self, name: &str, vals: Vec<Value>, span: Span) -> (r: Self)
        requires
            self.wf(),
        ensures
            r.after(
                self,
                machine::enter(*self.program, name@, values_view(vals@), span, self@),
            ),
    {
        let p = self.program;
        let ghost all = values_view(vals@);
        proof {
            assert(all.len() == vals@.len());
        }
        match find_fn(p, name) {
            None => self.fail(ErrorKind::UnknownFn(name.to_owned()), span),
            Some(k) => {
                let f = &p.fns[k];
                if f.params.len() != vals.len() {
                    return self.fail(
                        ErrorKind::ArityMismatch {
                            fn_name: name.to_owned(),
                            want: f.params.len(),
                            got: vals.len(),
                        },
                        span,
                    );
                }
                match check_params(p, k, &vals, span) {
                    Check::Fail(e) => self.to(Ctrl::Failed(e)),
                    Check::Stuck => self.to(Ctrl::Stuck),
                    Check::Fine => {
                        let mut env = param_env(p, k, &vals);
                        env.push();
                        let Run { program, ctrl, frames, env: saved, rng } = self;
                        let mut frames = frames;
                        let ghost before = frames@;
                        let call = Frame::Call(k, span, saved);
                        let ghost callv = call@;
                        frames.push(call);
                        proof {
                            assert(stack_view(frames@) =~= stack_view(before).push(callv));
                        }
                        Run {
                            program,
                            ctrl: Ctrl::Run(&f.body.stmts, 0, Value::Unit),
                            frames,
                            env,
                            rng,
                        }
                    }
                }
            }
        }
    }

    fn call(self, name: &str, vals: Vec<Value>, span: Span) -> (r: Self)
        requires
            self.wf(),
        ensures
            r.after(
                self,
                machine::call(*self.program, name@, values_view(vals@), span, self@),
            ),
    {
        match Builtin::from_name(name) {
            Some(b) => {
                let mut rng = self.rng;
                let a = eval_builtin(b, vals, &mut rng, span);
                let next = Run { rng, ..self };
                next.act(a, span)
            }
            None => {
                let p = self.program;
                if find_struct(p, name).is_some() {
                    return self.to(Ctrl::Ret(Value::Struct(name.to_owned(), vals)));
                }
                match find_variant(p, name) {
                    Some((i, _)) => self.to(
                        Ctrl::Ret(
                            Value::Enum(p.enums[i].name.clone(), name.to_owned(), vals),
                        ),
                    ),
                    None => self.enter(name, vals, span),
                }
            }
        }
    }

    fn assign(self, name: &str, v: Value, span: Span) -> (r: Self)
        requires
            self.wf(),
        ensures
            r.after(self, machine::assign(*self.program, name@, v@, span, self@)),
    {
        let found = match self.env.get(name) {
            Some(b) => Some(b.ty.duplicate()),
            None => None,
        };
        match found {
            None => self.fail(ErrorKind::UnknownVar(name.to_owned()), span),
            Some(ty) => match check_ty(self.program, &v, &ty, span) {
                Check::Fine => {
                    let mut env = self.env;
                    env.set(name, Binding { value: copy_value(&v), ty });
                    Run { env, ctrl: Ctrl::Ret(v), ..self }
                }
                Check::Fail(e) => self.to(Ctrl::Failed(e)),
                Check::Stuck => self.to(Ctrl::Stuck),
            },
        }
    }

    fn ask(self, r: Request, span: Span) -> (out: Self)
        requires
            self.wf(),
        ensures
            out.after(self, machine::ask(self@, r@, span)),
    {
        self.to(Ctrl::Ask(r, span))
    }

    /// Evaluates an expression on one handle, where it is one.
    fn apply_handle(self, e: &'a Expr, v: Value) -> (r: Self)
        requires
            self.wf(),
            e is Join || e is Recv || e is StopSandbox || e is Accept,
        ensures
            forall|vals: Seq<SValue>|
                vals.len() >= 1 && vals[0] == v@ ==> r.after(
                    self,
                    #[trigger] machine::apply(*self.program, *e, vals, self@),
                ),
    {
        match e {
            Expr::Join(_, span) => match v {
                Value::Thread(h) => self.ask(Request::Join(h), *span),
                other => self.wrong_kind("thread", &other, *span),
            },
            Expr::Recv(_, span) => if matches!(
                v,
                Value::Channel(_) | Value::Tcp(_) | Value::File(_)
            ) {
                self.ask(Request::Recv(v), *span)
            } else {
                self.wrong_kind("chan", &v, *span)
            },
            Expr::StopSandbox(_, span) => if matches!(
                v,
                Value::Sandbox(_) | Value::Tcp(_) | Value::TcpListener(_) | Value::File(_)
            ) {
                self.ask(Request::Stop(v), *span)
            } else {
                self.wrong_kind("sandbox", &v, *span)
            },
            Expr::Accept(_, span) => match v {
                Value::TcpListener(h) => self.ask(Request::Accept(h), *span),
                _ => self.to(Ctrl::Stuck),
            },
            _ => self.to(Ctrl::Stuck),
        }
    }

    /// Sends, connects or opens.
    fn apply_two(self, e: &'a Expr, a: Value, b: Value) -> (r: Self)
        requires
            self.wf(),
            e is Send || e is Connect || e is Open,
        ensures
            forall|vals: Seq<SValue>|
                vals.len() >= 2 && vals[0] == a@ && vals[1] == b@ ==> r.after(
                    self,
                    #[trigger] machine::apply(*self.program, *e, vals, self@),
                ),
    {
        match e {
            Expr::Send(_, _, span) => match a {
                Value::Channel(_) => self.ask(Request::Send(a, b), *span),
                Value::Tcp(_) | Value::File(_) => if matches!(b, Value::Str(_)) {
                    self.ask(Request::Send(a, b), *span)
                } else {
                    self.to(Ctrl::Stuck)
                },
                other => self.wrong_kind("chan", &other, *span),
            },
            Expr::Connect(_, _, span) => match (a, b) {
                (Value::Str(host), Value::Int(n)) => if 0 <= n && n <= 65_535 {
                    self.ask(Request::Connect(host, n as u16), *span)
                } else {
                    self.fail(bad_port(n), *span)
                },
                _ => self.to(Ctrl::Stuck),
            },
            Expr::Open(_, _, span) => match (a, b) {
                (Value::Str(path), Value::Str(m)) => match file_mode(m.as_str()) {
                    Some(mode) => self.ask(Request::Open(path, mode), *span),
                    None => {
                        let q = quote(m.as_str());
                        let message = cat3(
                            "invalid file mode ",
                            q.as_str(),
                            " — expected \"r\", \"w\", or \"a\"",
                        );
                        self.fail(ErrorKind::ChannelIoError { message }, *span)
                    }
                },
                _ => self.to(Ctrl::Stuck),
            },
            _ => self.to(Ctrl::Stuck),
        }
    }

    /// Evaluates an expression of which all operands have values.
    fn apply(self, e: &'a Expr, vals: Vec<Value>) -> (r: Self)
        requires
            self.wf(),
            machine::wanted(*e, values_view(vals@)) matches Some(n) && vals@.len() >= n,
        ensures
            r.after(self, machine::apply(*self.program, *e, values_view(vals@), self@)),
    {
        let ghost all = values_view(vals@);
        proof {
            assert(all.len() == vals@.len());
        }
        match e {
            Expr::Unary(op, _, span) => {
                let o = eval_unary(*op, first(vals), *span);
                self.conclude(o)
            }
            Expr::Binary(op, _, _, span) => {
                let (a, b) = first_two(vals);
                let act = eval_binary(*op, a, b, *span);
                self.act(act, *span)
            }
            Expr::Box(..) => self.to(Ctrl::Ret(Value::Boxed(Box::new(first(vals))))),
            Expr::Ref(..) => self.to(Ctrl::Ret(Value::Ref(Box::new(first(vals))))),
            Expr::Deref(_, span) => match first(vals) {
                Value::Boxed(x) => self.to(Ctrl::Ret(*x)),
                Value::Ref(x) => self.to(Ctrl::Ret(*x)),
                other => self.wrong_kind("box or ref", &other, *span),
            },
            Expr::Assign(name, _, span) => self.assign(name.as_str(), first(vals), *span),
            Expr::Call(name, _, span) => self.call(name.as_str(), vals, *span),
            Expr::Spawn(name, _, span) => self.ask(
                Request::Spawn { name: name.clone(), args: vals, span: *span },
                *span,
            ),
            Expr::Join(..) | Expr::Recv(..) | Expr::StopSandbox(..) | Expr::Accept(..) => {
                self.apply_handle(e, first(vals))
            }
            Expr::Send(..) | Expr::Connect(..) | Expr::Open(..) => {
                let (a, b) = first_two(vals);
                self.apply_two(e, a, b)
            }
            Expr::Listen(_, span) => match first(vals) {
                Value::Int(n) => if 0 <= n && n <= 65_535 {
                    self.ask(Request::Listen(n as u16), *span)
                } else {
                    self.fail(bad_port(n), *span)
                },
                _ => self.to(Ctrl::Stuck),
            },
            Expr::SpawnSandbox(name, _, span) => match sandbox_args(
                self.program,
                name.as_str(),
                &vals,
            ) {
                Some(args) => self.ask(Request::Sandbox { name: name.clone(), args }, *span),
                None => self.to(Ctrl::Stuck),
            },
            Expr::Index(_, _, span) => {
                let o = eval_index(&vals, *span);
                self.conclude(o)
            }
            Expr::ArrayLit(..) => {
                let o = eval_array(vals);
                self.conclude(o)
            }
            Expr::FieldAccess(_, name, _) => {
                let o = eval_field(self.program, &first(vals), name.as_str());
                self.conclude(o)
            }
            _ => self.to(Ctrl::Stuck),
        }
    }

    fn operands(self, e: &'a Expr, done: Vec<Value>) -> (r: Self)
        requires
            self.wf(),
        ensures
            r.after(self, machine::operands(*self.program, *e, values_view(done@), self@)),
    {
        proof {
            assert(values_view(done@).len() == done@.len());
        }
        match wanted(e, &done) {
            None => self.to(Ctrl::Stuck),
            Some(n) => if done.len() < n {
                let next = operand(e, done.len(), Ghost(values_view(done@)));
                let w = self.waiting(Frame::Args(e, done));
                w.to(Ctrl::Eval(next))
            } else {
                self.apply(e, done)
            },
        }
    }

    fn slot_args(self, e: &'a Expr, step: Step, ok: bool, done: Vec<Value>) -> (r: Self)
        requires
            self.wf(),
        ensures
            r.after(
                self,
                machine::slot_args(*self.program, *e, step, ok, values_view(done@), self@),
            ),
    {
        proof {
            assert(values_view(done@).len() == done@.len());
        }
        match slot_of(e, step) {
            None => self.to(Ctrl::Stuck),
            Some(slot) => if done.len() < slot.args.len() {
                let next = &slot.args[done.len()];
                let w = self.waiting(Frame::SlotArgs(e, step, ok, done));
                w.to(Ctrl::Eval(next))
            } else {
                let w = self.waiting(Frame::Slot(e, step, ok));
                w.enter(slot.name.as_str(), done, slot.span)
            },
        }
    }

    fn transact_end(self, ok: bool) -> (r: Self)
        requires
            self.wf(),
        ensures
            r.after(self, machine::transact_end(ok, self@)),
    {
        let mut env = self.env;
        env.pop();
        Run { env, ctrl: Ctrl::Ret(Value::Bool(ok)), ..self }
    }

    fn begin_step(self, e: &'a Expr, step: Step, ok: bool) -> (r: Self)
        requires
            self.wf(),
        ensures
            r.after(
                self,
                machine::slot_args(*self.program, *e, step, ok, Seq::empty(), self@),
            ),
    {
        let none: Vec<Value> = Vec::new();
        proof {
            assert(values_view(none@) =~= Seq::<SValue>::empty());
        }
        self.slot_args(e, step, ok, none)
    }

    fn log_step(self, e: &'a Expr, ok: bool) -> (r: Self)
        requires
            self.wf(),
        ensures
            r.after(self, machine::log_step(*self.program, *e, ok, self@)),
    {
        if slot_of(e, Step::Log).is_some() {
            self.begin_step(e, Step::Log, ok)
        } else {
            self.transact_end(ok)
        }
    }

    fn bind(self, name: &str, value: Value, ty: Ty) -> (r: Self)
        requires
            self.wf(),
        ensures
            r.after(
                self,
                SState {
                    env: crate::scopes::defined(self@.env, name@, (value@, ty@)),
                    ..self@
                },
            ),
    {
        let mut env = self.env;
        env.define(name, Binding { value, ty });
        Run { env, ..self }
    }

    fn slot_done(self, e: &'a Expr, step: Step, ok: bool, v: Value) -> (r: Self)
        requires
            self.wf(),
        ensures
            r.after(self, machine::slot_done(*self.program, *e, step, ok, v@, self@)),
    {
        match step {
            Step::Network => match slot_of(e, Step::Network) {
                None => self.to(Ctrl::Stuck),
                Some(slot) => match find_fn(self.program, slot.name.as_str()) {
                    None => self.to(Ctrl::Stuck),
                    Some(i) => {
                        let ret = self.program.fns[i].ret.duplicate();
                        let next = self.bind("network", v, ret);
                        next.begin_step(e, Step::Verify, ok)
                    }
                },
            },
            Step::Verify => match slot_of(e, Step::Verify) {
                None => self.to(Ctrl::Stuck),
                Some(slot) => match v {
                    Value::Bool(b) => {
                        let next = self.bind("verify", Value::Bool(b), Ty::Bool);
                        if b {
                            next.begin_step(e, Step::Commit, true)
                        } else if slot_of(e, Step::Compensate).is_some() {
                            next.begin_step(e, Step::Compensate, false)
                        } else {
                            next.log_step(e, false)
                        }
                    }
                    other => self.wrong_kind("bool", &other, slot.span),
                },
            },
            Step::Commit | Step::Compensate => self.log_step(e, ok),
            Step::Log => self.transact_end(ok),
        }
    }

    fn block(self, stmts: &'a Vec<Stmt>) -> (r: Self)
        requires
            self.wf(),
        ensures
            r.after(self, machine::block(stmts@, self@)),
    {
        let mut env = self.env;
        env.push();
        Run { env, ctrl: Ctrl::Run(stmts, 0, Value::Unit), ..self }
    }

    fn eval(self, e: &'a Expr) -> (r: Self)
        requires
            self.wf(),
        ensures
            r.after(self, machine::eval(*self.program, *e, self@)),
    {
        let none: Vec<Value> = Vec::new();
        proof {
            assert(values_view(none@) =~= Seq::<SValue>::empty());
        }
        match e {
            Expr::Int(n, _) => self.to(Ctrl::Ret(Value::Int(*n))),
            Expr::Float(f, _) => self.to(Ctrl::Ret(Value::Float(f.bits))),
            Expr::Bool(b, _) => self.to(Ctrl::Ret(Value::Bool(*b))),
            Expr::Str(t, _) => self.to(Ctrl::Ret(Value::Str(t.clone()))),
            Expr::Ident(name, span) => {
                let found = match self.env.get(name.as_str()) {
                    Some(b) => Some(copy_value(&b.value)),
                    None => None,
                };
                match found {
                    Some(v) => self.to(Ctrl::Ret(v)),
                    None => self.fail(ErrorKind::UnknownVar(name.clone()), *span),
                }
            }
            Expr::Chan(span) => self.ask(Request::Channel, *span),
            Expr::Binary(op, l, _, _) => if matches!(op, BinOp::And | BinOp::Or) {
                let w = self.waiting(Frame::Logic(e));
                w.to(Ctrl::Eval(l))
            } else {
                self.operands(e, none)
            },
            Expr::If { cond, .. } => {
                let w = self.waiting(Frame::Cond(e));
                w.to(Ctrl::Eval(cond))
            }
            Expr::Match { scrutinee, .. } => {
                let w = self.waiting(Frame::Scrutinee(e));
                w.to(Ctrl::Eval(scrutinee))
            }
            Expr::Transact { .. } => {
                let mut env = self.env;
                env.push();
                let next = Run { env, ..self };
                next.begin_step(e, Step::Network, false)
            }
            _ => self.operands(e, none),
        }
    }

    fn run(self, stmts: &'a Vec<Stmt>, i: usize, last: Value) -> (r: Self)
        requires
            self.wf(),
        ensures
            r.after(self, machine::run(*self.program, stmts@, i as int, last@, self@)),
    {
        if i >= stmts.len() {
            return self.to(Ctrl::Ret(last));
        }
        match &stmts[i] {
            Stmt::Let { value, .. } => {
                let w = self.waiting(Frame::Stmt(stmts, i));
                w.to(Ctrl::Eval(value))
            }
            Stmt::Return { value, .. } => match value {
                Some(e) => {
                    let w = self.waiting(Frame::Stmt(stmts, i));
                    w.to(Ctrl::Eval(e))
                }
                None => self.to(Ctrl::Unwind(Value::Unit)),
            },
            Stmt::While { cond, .. } => {
                let w = self.waiting(Frame::Stmt(stmts, i));
                w.to(Ctrl::Eval(cond))
            }
            Stmt::Audited { body, .. } => {
                let w = self.waiting(Frame::Audited(stmts, i));
                w.block(body)
            }
            Stmt::Expr(e) => {
                let w = self.waiting(Frame::Stmt(stmts, i));
                w.to(Ctrl::Eval(e))
            }
        }
    }

    fn choose_arm(self, e: &'a Expr, v: Value) -> (r: Self)
        requires
            self.wf(),
        ensures
            r.after(self, machine::choose_arm(*self.program, *e, v@, self@)),
    {
        match (e, v) {
            (Expr::Match { arms, .. }, Value::Enum(_, variant, payload)) => {
                let p = self.program;
                match find_arm(arms, variant.as_str()) {
                    None => self.to(Ctrl::Stuck),
                    Some(i) => match find_variant(p, variant.as_str()) {
                        None => self.to(Ctrl::Stuck),
                        Some((x, y)) => {
                            let types = &p.enums[x].variants[y].payload;
                            let names = &arms[i].bindings;
                            let ghost start = self@.env;
                            let ghost pay = values_view(payload@);
                            proof {
                                assert(pay.len() == payload@.len());
                            }
                            let Run { program, ctrl, frames, env, rng } = self;
                            let mut env = env;
                            env.push();
                            let mut n: usize = 0;
                            while n < names.len() && n < payload.len() && n < types.len()
                                invariant
                                    n <= names@.len(),
                                    n <= payload@.len(),
                                    n <= types@.len(),
                                    pay == values_view(payload@),
                                    env@ == machine::arm_env(
                                        start,
                                        names@,
                                        pay,
                                        types@,
                                        n as nat,
                                    ),
                                decreases names@.len() - n,
                            {
                                proof {
                                    assert(pay[n as int] == payload@[n as int]@);
                                }
                                env.define(
                                    names[n].as_str(),
                                    Binding {
                                        value: copy_value(&payload[n]),
                                        ty: types[n].duplicate(),
                                    },
                                );
                                n = n + 1;
                            }
                            let mut frames = frames;
                            let ghost before = frames@;
                            frames.push(Frame::Scope);
                            proof {
                                assert(stack_view(frames@) =~= stack_view(before).push(
                                    SFrame::Scope,
                                ));
                            }
                            Run { program, ctrl: Ctrl::Eval(&arms[i].body), frames, env, rng }
                        }
                    },
                }
            }
            _ => self.to(Ctrl::Stuck),
        }
    }

    fn stmt_value(self, stmts: &'a Vec<Stmt>, i: usize, v: Value) -> (r: Self)
        requires
            self.wf(),
            i < stmts@.len(),
        ensures
            r.after(self, machine::stmt_value(*self.program, stmts@, i as int, v@, self@)),
    {
        proof {
            assert(i < stmts.len());
        }
        match &stmts[i] {
            Stmt::Let { name, ty, span, .. } => match check_ty(self.program, &v, ty, *span) {
                Check::Fine => {
                    let next = self.bind(name.as_str(), v, ty.duplicate());
                    next.to(Ctrl::Run(stmts, i + 1, Value::Unit))
                }
                Check::Fail(e) => self.to(Ctrl::Failed(e)),
                Check::Stuck => self.to(Ctrl::Stuck),
            },
            Stmt::Return { .. } => self.to(Ctrl::Unwind(v)),
            Stmt::While { cond, body, .. } => match v {
                Value::Bool(true) => {
                    let w = self.waiting(Frame::Loop(stmts, i));
                    w.block(&body.stmts)
                }
                Value::Bool(false) => self.to(Ctrl::Run(stmts, i + 1, Value::Unit)),
                other => self.wrong_kind("bool", &other, cond.span()),
            },
            Stmt::Audited { .. } => self.to(Ctrl::Stuck),
            Stmt::Expr(_) => self.to(Ctrl::Run(stmts, i + 1, v)),
        }
    }

    /// Goes on with `&&`, `||` or `if`, of which the first part has a value.
    fn decide(self, e: &'a Expr, v: Value) -> (r: Self)
        requires
            self.wf(),
            e is Binary || e is If,
        ensures
            r.after(
                self,
                machine::give(
                    *self.program,
                    if e is Binary {
                        SFrame::Logic(*e)
                    } else {
                        SFrame::Cond(*e)
                    },
                    v@,
                    self@,
                ),
            ),
    {
        match e {
            Expr::Binary(op, _, right, span) => match v {
                Value::Bool(b) => if b == matches!(op, BinOp::Or) {
                    self.to(Ctrl::Ret(Value::Bool(b)))
                } else {
                    let w = self.waiting(Frame::LogicRight(e));
                    w.to(Ctrl::Eval(right))
                },
                other => self.wrong_kind("bool", &other, *span),
            },
            Expr::If { then_block, else_block, span, .. } => match v {
                Value::Bool(b) => if b {
                    let w = self.waiting(Frame::Scope);
                    w.block(&then_block.stmts)
                } else {
                    match else_block {
                        Some(x) => match &**x {
                            ElseBranch::Block(y) => {
                                let w = self.waiting(Frame::Scope);
                                w.block(&y.stmts)
                            }
                            ElseBranch::If(y) => self.to(Ctrl::Eval(y)),
                        },
                        None => self.to(Ctrl::Ret(Value::Unit)),
                    }
                },
                other => self.wrong_kind("bool", &other, *span),
            },
            _ => self.to(Ctrl::Stuck),
        }
    }

    fn give(self, f: Frame<'a>, v: Value) -> (r: Self)
        requires
            self.wf(),
            frame_ok(*self.program, f),
        ensures
            r.after(self, machine::give(*self.program, f@, v@, self@)),
    {
        match f {
            Frame::Args(e, done) => self.give_operand(e, done, v),
            Frame::Logic(e) => match e {
                Expr::Binary(..) => self.decide(e, v),
                _ => self.to(Ctrl::Stuck),
            },
            Frame::LogicRight(e) => match v {
                Value::Bool(b) => self.to(Ctrl::Ret(Value::Bool(b))),
                other => self.wrong_kind("bool", &other, e.span()),
            },
            Frame::Cond(e) => match e {
                Expr::If { .. } => self.decide(e, v),
                _ => self.to(Ctrl::Stuck),
            },
            Frame::Scrutinee(e) => self.choose_arm(e, v),
            Frame::Scope => {
                let mut env = self.env;
                env.pop();
                Run { env, ctrl: Ctrl::Ret(v), ..self }
            }
            Frame::Stmt(stmts, i) => self.stmt_value(stmts, i, v),
            Frame::Loop(stmts, i) => self.next_round(stmts, i, v),
            Frame::Audited(stmts, i) => {
                proof {
                    assert(i < stmts.len());
                }
                let mut env = self.env;
                env.pop();
                Run { env, ctrl: Ctrl::Run(stmts, i + 1, Value::Unit), ..self }
            }
            Frame::SlotArgs(e, step, ok, done) => self.slot_args(e, step, ok, with_last(done, v)),
            Frame::Slot(e, step, ok) => self.slot_done(e, step, ok, v),
            Frame::Call(i, span, env) => self.body_done(i, span, env, v),
        }
    }

    /// Goes on with an expression of which one more operand has a value.
    fn give_operand(self, e: &'a Expr, done: Vec<Value>, v: Value) -> (r: Self)
        requires
            self.wf(),
        ensures
            r.after(
                self,
                machine::give(
                    *self.program,
                    SFrame::Args(*e, values_view(done@)),
                    v@,
                    self@,
                ),
            ),
    {
        proof {
            assert(values_view(done@).len() == done@.len());
        }
        match rejects(e, done.len(), &v) {
            Some(expected) => self.wrong_kind(expected, &v, e.span()),
            None => self.operands(e, with_last(done, v)),
        }
    }

    /// Evaluates the condition of a loop again.
    fn next_round(self, stmts: &'a Vec<Stmt>, i: usize, v: Value) -> (r: Self)
        requires
            self.wf(),
            i < stmts@.len(),
        ensures
            r.after(
                self,
                machine::give(*self.program, SFrame::Loop(stmts@, i as int), v@, self@),
            ),
    {
        match &stmts[i] {
            Stmt::While { cond, .. } => {
                let mut env = self.env;
                env.pop();
                let next = Run { env, ..self };
                let w = next.waiting(Frame::Stmt(stmts, i));
                w.to(Ctrl::Eval(cond))
            }
            _ => self.to(Ctrl::Stuck),
        }
    }

    /// Ends a call of which the body has run to its end.
    fn body_done(self, i: usize, span: Span, env: Scopes<Binding>, v: Value) -> (r: Self)
        requires
            self.wf(),
            i < self.program.fns@.len(),
        ensures
            r.after(
                self,
                machine::give(*self.program, SFrame::Call(i as int, span, env@), v@, self@),
            ),
    {
        let next = Run { env, ..self };
        let f = &next.program.fns[i];
        if matches!(f.ret, Ty::Unit) {
            next.to(Ctrl::Ret(Value::Unit))
        } else {
            next.fail(ErrorKind::MissingReturn { fn_name: f.name.clone() }, f.span)
        }
    }

    fn unwind(self, f: Frame<'a>, v: Value) -> (r: Self)
        requires
            self.wf(),
            frame_ok(*self.program, f),
        ensures
            r.after(self, machine::unwind(*self.program, f@, v@, self@)),
    {
        match f {
            Frame::Call(i, span, env) => {
                let next = Run { env, ..self };
                match check_ty(next.program, &v, &next.program.fns[i].ret, span) {
                    Check::Fine => next.to(Ctrl::Ret(v)),
                    Check::Fail(e) => next.to(Ctrl::Failed(e)),
                    Check::Stuck => next.to(Ctrl::Stuck),
                }
            }
            _ => self.to(Ctrl::Unwind(v)),
        }
    }

    /// One step.
    pub fn step(self) -> (r: Self)
        requires
            self.wf(),
        ensures
            r.after(self, machine::step(*self.program, self@)),
    {
        let ghost s = self@;
        let Run { program, ctrl, frames, env, rng } = self;
        let mut frames = frames;
        let ghost stack = frames@;
        match ctrl {
            Ctrl::Eval(e) => Run { program, ctrl: Ctrl::Stuck, frames, env, rng }.eval(e),
            Ctrl::Run(stmts, i, last) => Run {
                program,
                ctrl: Ctrl::Stuck,
                frames,
                env,
                rng,
            }.run(stmts, i, last),
            Ctrl::Ret(v) => match frames.pop() {
                None => Run { program, ctrl: Ctrl::Done(v), frames, env, rng },
                Some(f) => {
                    proof {
                        assert(stack_view(frames@) =~= stack_view(stack).drop_last());
                        assert(f == stack.last());
                    }
                    Run { program, ctrl: Ctrl::Stuck, frames, env, rng }.give(f, v)
                }
            },
            Ctrl::Unwind(v) => match frames.pop() {
                None => Run { program, ctrl: Ctrl::Stuck, frames, env, rng },
                Some(f) => {
                    proof {
                        assert(stack_view(frames@) =~= stack_view(stack).drop_last());
                        assert(f == stack.last());
                    }
                    Run { program, ctrl: Ctrl::Stuck, frames, env, rng }.unwind(f, v)
                }
            },
            other => Run { program, ctrl: other, frames, env, rng },
        }
    }

    /// At most `n` steps.
    pub fn advance(self, n: u64) -> (r: Self)
        requires
            self.wf(),
        ensures
            r.after(self, machine::steps(*self.program, self@, n as nat)),
    {
        let ghost start = self;
        let mut run = self;
        let mut i: u64 = 0;
        while i < n
            invariant
                i <= n,
                run.after(start, machine::steps(*start.program, start@, i as nat)),
            decreases n - i,
        {
            run = run.step();
            i = i + 1;
        }
        run
    }

    /// Goes on with an answer to what the run has asked for.
    pub fn resume(self, a: Response) -> (r: Self)
        requires
            self.wf(),
        ensures
            r.after(self, machine::answered(self@, a@)),
    {
        let Run { program, ctrl, frames, env, rng } = self;
        match ctrl {
            Ctrl::Ask(req, span) => {
                let o = settle(&req, a, span);
                Run { program, ctrl: Ctrl::Stuck, frames, env, rng }.conclude(o)
            }
            other => Run { program, ctrl: other, frames, env, rng },
        }
    }
}

/// Runs a program's functions.
pub struct Interpreter<'a> {
    pub program: &'a Program,
}

impl<'a> Interpreter<'a> {
    pub fn new(program: &'a Program) -> (r: Self)
        ensures
            r.program == program,
    {
        Interpreter { program }
    }

    /// A run that calls a function from a position.
    pub fn call_at(&self, name: &str, args: Vec<Value>, span: Span) -> (r: Run<'a>)
        ensures
            r.wf(),
            r.program == self.program,
            r@ == machine::begun(*self.program, name@, values_view(args@), span),
    {
        let frames: Vec<Frame<'a>> = Vec::new();
        proof {
            assert(stack_view(frames@) =~= Seq::<SFrame>::empty());
        }
        let run = Run {
            program: self.program,
            ctrl: Ctrl::Stuck,
            frames,
            env: Scopes::new(),
            rng: None,
        };
        run.enter(name, args, span)
    }

    /// A run that calls a function by name.
    pub fn call_named(&self, name: &str, args: Vec<Value>) -> (r: Run<'a>)
        ensures
            r.wf(),
            r.program == self.program,
            r@ == machine::begun(
                *self.program,
                name@,
                values_view(args@),
                Span { line: 0, col: 0 },
            ),
    {
        self.call_at(name, args, Span { line: 0, col: 0 })
    }

    /// A run of the whole program.
    pub fn run_main(&self) -> (r: Run<'a>)
        ensures
            r.wf(),
            r.program == self.program,
            r@ == machine::begun(
                *self.program,
                "main"@,
                Seq::empty(),
                Span { line: 0, col: 0 },
            ),
    {
        let none: Vec<Value> = Vec::new();
        proof {
            assert(values_view(none@) =~= Seq::<SValue>::empty());
        }
        self.call_named("main", none)
    }
}

} // verus!
