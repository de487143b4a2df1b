//! The abstract machine that gives programs their meaning. A state says what
//! is being evaluated, what is waiting for its value, and what the names in
//! scope are bound to. A step goes from one state to the next; where the
//! machine needs something from its surroundings it stops and asks.
use crate::arith::{binary, mismatch};
use crate::ast::{
    span_of, BinOp, ElseBranch, Expr, FnDecl, MatchArm, Program, STy, Stmt, TransactSlot, Ty,
    UnOp,
};
use crate::builtin_eval::builtin_call;
use crate::builtins::builtin_named;
use crate::check::{fit_each, fits, SCheck};
use crate::registry::{field_named, fn_named, struct_named, variant_named};
use crate::request::{settled, Mode, SAct, SRequest, SResponse, SSandboxArg};
use crate::scopes::{assigned, closed, defined, lookup, opened};
use crate::text::dec;
use crate::token::{quoted, Span};
use crate::value::{
    float_neg, kind_name, SError, SErrorKind, SOutcome, SValue,
};
use vstd::prelude::*;

verus! {

/// The bindings in scope: a value and the declared type for each name.
pub type SEnv = Seq<Map<Seq<char>, (SValue, STy)>>;

/// The steps of a `transact`.
#[derive(Debug, Clone, Copy, PartialEq, Eq, Structural)]
pub enum Step {
    Network,
    Verify,
    Commit,
    Compensate,
    Log,
}

/// What waits for a value.
pub ghost enum SFrame {
    /// An expression whose operands are evaluated from left to right.
    Args(Expr, Seq<SValue>),
    /// `&&` or `||`, for its left side.
    Logic(Expr),
    /// `&&` or `||`, for its right side.
    LogicRight(Expr),
    /// `if`, for its condition.
    Cond(Expr),
    /// `match`, for the value that it looks at.
    Scrutinee(Expr),
    /// The end of a scope.
    Scope,
    /// A statement of a list, for the value of its expression.
    Stmt(Seq<Stmt>, int),
    /// A loop, for the end of its body.
    Loop(Seq<Stmt>, int),
    /// An `audited` block, for its end.
    Audited(Seq<Stmt>, int),
    /// A step of a `transact`, for the next argument.
    SlotArgs(Expr, Step, bool, Seq<SValue>),
    /// A `transact`, for the result of a step.
    Slot(Expr, Step, bool),
    /// A call of a function, for the end of its body: the function, where it was
    /// called, and the bindings of the caller.
    Call(int, Span, SEnv),
}

/// What the machine does next.
pub ghost enum SCtrl {
    Eval(Expr),
    /// Runs the statements from a place on; the value is that of the last
    /// expression statement before it.
    Run(Seq<Stmt>, int, SValue),
    /// Hands a value to what waits for it.
    Ret(SValue),
    /// Returns from the function.
    Unwind(SValue),
    /// Waits for an answer.
    Ask(SRequest, Span),
    Done(SValue),
    Failed(SError),
    /// There is no next step; a well-typed program never gets here.
    Stuck,
}

pub ghost struct SState {
    pub ctrl: SCtrl,
    pub frames: Seq<SFrame>,
    pub env: SEnv,
    /// The state of the random number generator, once it has been seeded.
    pub rng: Option<u64>,
}

/// The state with another thing to do next.
pub open spec fn to(s: SState, ctrl: SCtrl) -> SState {
    SState { ctrl, ..s }
}

/// The state with one more thing that waits.
pub open spec fn waiting(s: SState, f: SFrame) -> SState {
    SState { frames: s.frames.push(f), ..s }
}

pub open spec fn fail(s: SState, kind: SErrorKind, span: Span) -> SState {
    to(s, SCtrl::Failed(SError { kind, span }))
}

pub open spec fn wrong_kind(s: SState, expected: Seq<char>, v: SValue, span: Span) -> SState {
    fail(s, SErrorKind::TypeMismatch { expected, found: kind_name(v) }, span)
}

/// Goes on with the result of an operation.
pub open spec fn conclude(s: SState, o: SOutcome) -> SState {
    match o {
        SOutcome::Val(v) => to(s, SCtrl::Ret(v)),
        SOutcome::Fail(e) => to(s, SCtrl::Failed(e)),
        SOutcome::Stuck => to(s, SCtrl::Stuck),
    }
}

pub open spec fn act(s: SState, a: SAct, span: Span) -> SState {
    match a {
        SAct::Done(o) => conclude(s, o),
        SAct::Ask(r) => to(s, SCtrl::Ask(r, span)),
    }
}

/// How many operands an expression evaluates, given those that it has; `None`
/// where it cannot go on.
pub open spec fn wanted(e: Expr, done: Seq<SValue>) -> Option<nat> {
    match e {
        Expr::Unary(..)
        | Expr::Box(..)
        | Expr::Deref(..)
        | Expr::Ref(..)
        | Expr::Join(..)
        | Expr::Recv(..)
        | Expr::StopSandbox(..)
        | Expr::Listen(..)
        | Expr::Accept(..)
        | Expr::FieldAccess(..)
        | Expr::Assign(..) => Some(1),
        Expr::Binary(..) | Expr::Send(..) | Expr::Connect(..) | Expr::Open(..) => Some(2),
        Expr::Call(_, args, _) => Some(args@.len()),
        Expr::Spawn(_, args, _) => Some(args@.len()),
        Expr::SpawnSandbox(_, args, _) => Some(args@.len()),
        Expr::ArrayLit(args, _) => Some(args@.len()),
        Expr::Index(_, indices, _) => if done.len() == 0 {
            Some(1)
        } else {
            match done[0] {
                SValue::Vector(_) => if indices@.len() >= 1 {
                    Some(2)
                } else {
                    None
                },
                SValue::Matrix(..) => if indices@.len() >= 2 {
                    Some(3)
                } else {
                    None
                },
                _ => None,
            }
        },
        _ => None,
    }
}

/// Operand number `k` of an expression.
pub open spec fn operand(e: Expr, k: int) -> Expr {
    match e {
        Expr::Unary(_, a, _) => *a,
        Expr::Box(a, _) => *a,
        Expr::Deref(a, _) => *a,
        Expr::Ref(a, _) => *a,
        Expr::Join(a, _) => *a,
        Expr::Recv(a, _) => *a,
        Expr::StopSandbox(a, _) => *a,
        Expr::Listen(a, _) => *a,
        Expr::Accept(a, _) => *a,
        Expr::FieldAccess(a, _, _) => *a,
        Expr::Assign(_, a, _) => *a,
        Expr::Binary(_, a, b, _) => if k == 0 {
            *a
        } else {
            *b
        },
        Expr::Send(a, b, _) => if k == 0 {
            *a
        } else {
            *b
        },
        Expr::Connect(a, b, _) => if k == 0 {
            *a
        } else {
            *b
        },
        Expr::Open(a, b, _) => if k == 0 {
            *a
        } else {
            *b
        },
        Expr::Call(_, args, _) => args@[k],
        Expr::Spawn(_, args, _) => args@[k],
        Expr::SpawnSandbox(_, args, _) => args@[k],
        Expr::ArrayLit(args, _) => args@[k],
        Expr::Index(a, indices, _) => if k == 0 {
            *a
        } else {
            indices@[k - 1]
        },
        other => other,
    }
}

/// What operand number `k` must be, where `v` is something else.
pub open spec fn rejects(e: Expr, k: int, v: SValue) -> Option<Seq<char>> {
    match e {
        Expr::Connect(..) => if k == 0 {
            if v is Str {
                None
            } else {
                Some("str"@)
            }
        } else if v is Int {
            None
        } else {
            Some("i64"@)
        },
        Expr::Open(..) => if v is Str {
            None
        } else {
            Some("str"@)
        },
        Expr::Listen(..) => if v is Int {
            None
        } else {
            Some("i64"@)
        },
        _ => None,
    }
}

/// Evaluates the next operand of an expression, or the expression itself.
pub open spec fn operands(p: Program, e: Expr, done: Seq<SValue>, s: SState) -> SState {
    match wanted(e, done) {
        None => to(s, SCtrl::Stuck),
        Some(n) => if done.len() < n {
            to(waiting(s, SFrame::Args(e, done)), SCtrl::Eval(operand(e, done.len() as int)))
        } else {
            apply(p, e, done, s)
        },
    }
}

pub open spec fn unary(op: UnOp, v: SValue, span: Span) -> SOutcome {
    match op {
        UnOp::Neg => match v {
            SValue::Int(n) => SOutcome::Val(SValue::Int(0i64.wrapping_sub(n))),
            SValue::Float(b) => SOutcome::Val(SValue::Float(float_neg(b))),
            _ => mismatch("int or f64"@, kind_name(v), span),
        },
        UnOp::Not => match v {
            SValue::Bool(b) => SOutcome::Val(SValue::Bool(!b)),
            _ => mismatch("bool"@, kind_name(v), span),
        },
    }
}

/// The values of the rows, one after another; `None` where one is no vector.
pub open spec fn flattened(rows: Seq<SValue>) -> Option<Seq<SValue>>
    decreases rows.len(),
{
    if rows.len() == 0 {
        Some(Seq::empty())
    } else {
        match flattened(rows.drop_last()) {
            Some(v) => match rows.last() {
                SValue::Vector(r) => Some(v + r),
                _ => None,
            },
            None => None,
        }
    }
}

/// The value of an array literal: a matrix where its first element is a row.
pub open spec fn array(vals: Seq<SValue>) -> SOutcome {
    if vals.len() > 0 && vals[0] is Vector {
        match flattened(vals) {
            Some(flat) => SOutcome::Val(
                SValue::Matrix(flat, vals.len() as usize, vals[0]->Vector_0.len() as usize),
            ),
            None => SOutcome::Stuck,
        }
    } else {
        SOutcome::Val(SValue::Vector(vals))
    }
}

/// An index out of bounds.
pub open spec fn outside(i: i64, len: usize, span: Span) -> SOutcome {
    SOutcome::Fail(SError { kind: SErrorKind::IndexOutOfBounds { index: i, len }, span })
}

/// The element that indices name.
pub open spec fn indexed(vals: Seq<SValue>, span: Span) -> SOutcome {
    if vals.len() < 2 {
        SOutcome::Stuck
    } else {
        match vals[0] {
            SValue::Vector(e) => match vals[1] {
                SValue::Int(i) => if 0 <= i < e.len() {
                    SOutcome::Val(e[i as int])
                } else {
                    outside(i, e.len() as usize, span)
                },
                _ => SOutcome::Stuck,
            },
            SValue::Matrix(e, rows, cols) => if vals.len() < 3 {
                SOutcome::Stuck
            } else {
                match (vals[1], vals[2]) {
                    (SValue::Int(r), SValue::Int(c)) => if !(0 <= r < rows) {
                        outside(r, rows, span)
                    } else if !(0 <= c < cols) {
                        outside(c, cols, span)
                    } else if r * cols + c < e.len() {
                        SOutcome::Val(e[r * cols + c])
                    } else {
                        SOutcome::Stuck
                    },
                    _ => SOutcome::Stuck,
                }
            },
            _ => SOutcome::Stuck,
        }
    }
}

/// The field of a struct.
pub open spec fn field(p: Program, v: SValue, name: Seq<char>) -> SOutcome {
    match v {
        SValue::Struct(n, f) => match struct_named(p, n) {
            Some(i) => match field_named(p.structs@[i], name) {
                Some(k) => if k < f.len() {
                    SOutcome::Val(f[k])
                } else {
                    SOutcome::Stuck
                },
                None => SOutcome::Stuck,
            },
            None => SOutcome::Stuck,
        },
        _ => SOutcome::Stuck,
    }
}

/// The error for a number that is no port.
pub open spec fn bad_port(n: i64) -> SErrorKind {
    SErrorKind::ChannelIoError {
        message: "port "@ + dec(n as int) + " is not a valid 0-65535 TCP port"@,
    }
}

/// The mode that a text names.
pub open spec fn file_mode(m: Seq<char>) -> Option<Mode> {
    if m == "r"@ {
        Some(Mode::Read)
    } else if m == "w"@ {
        Some(Mode::Write)
    } else if m == "a"@ {
        Some(Mode::Append)
    } else {
        None
    }
}

/// The first `n` arguments for a process of its own: a number or a truth value
/// as text, a channel as itself. `None` for anything else.
pub open spec fn sandbox_args(p: Program, name: Seq<char>, vals: Seq<SValue>, n: nat) -> Option<
    Seq<SSandboxArg>,
>
    decreases n,
{
    if n == 0 {
        Some(Seq::empty())
    } else {
        match sandbox_args(p, name, vals, (n - 1) as nat) {
            None => None,
            Some(v) => match vals[n - 1] {
                SValue::Int(k) => Some(v.push(SSandboxArg::Text(dec(k as int)))),
                SValue::Bool(b) => Some(
                    v.push(
                        SSandboxArg::Text(
                            if b {
                                "true"@
                            } else {
                                "false"@
                            },
                        ),
                    ),
                ),
                SValue::Channel(h) => match fn_named(p, name) {
                    Some(i) => if n <= p.fns@[i].params@.len() && p.fns@[i].params@[n
                        - 1].ty@ is Channel {
                        Some(v.push(SSandboxArg::Channel(h)))
                    } else {
                        None
                    },
                    None => None,
                },
                _ => None,
            },
        }
    }
}

/// The bindings of the first `n` parameters.
pub open spec fn param_env(f: FnDecl, vals: Seq<SValue>, n: nat) -> SEnv
    decreases n,
{
    if n == 0 {
        opened(Seq::empty())
    } else {
        defined(
            param_env(f, vals, (n - 1) as nat),
            f.params@[n - 1].name@,
            (vals[n - 1], f.params@[n - 1].ty@),
        )
    }
}

pub open spec fn param_types(f: FnDecl) -> Seq<STy> {
    Seq::new(f.params@.len(), |i: int| f.params@[i].ty@)
}

/// Starts a call of a function.
pub open spec fn enter(
    p: Program,
    name: Seq<char>,
    vals: Seq<SValue>,
    span: Span,
    s: SState,
) -> SState {
    match fn_named(p, name) {
        None => fail(s, SErrorKind::UnknownFn(name), span),
        Some(i) => {
            let f = p.fns@[i];
            if f.params@.len() != vals.len() {
                fail(
                    s,
                    SErrorKind::ArityMismatch {
                        fn_name: name,
                        want: f.params@.len() as usize,
                        got: vals.len() as usize,
                    },
                    span,
                )
            } else {
                match fit_each(p, vals, param_types(f), span) {
                    SCheck::Fail(e) => to(s, SCtrl::Failed(e)),
                    SCheck::Stuck => to(s, SCtrl::Stuck),
                    SCheck::Fine => SState {
                        ctrl: SCtrl::Run(f.body.stmts@, 0, SValue::Unit),
                        frames: s.frames.push(SFrame::Call(i, span, s.env)),
                        env: opened(param_env(f, vals, vals.len())),
                        rng: s.rng,
                    },
                }
            }
        },
    }
}

/// Calls by name: a builtin, then a struct or an enum variant, then a function.
pub open spec fn call(
    p: Program,
    name: Seq<char>,
    vals: Seq<SValue>,
    span: Span,
    s: SState,
) -> SState {
    match builtin_named(name) {
        Some(b) => {
            let r = builtin_call(b, vals, s.rng, span);
            act(SState { rng: r.1, ..s }, r.0, span)
        },
        None => if struct_named(p, name) is Some {
            to(s, SCtrl::Ret(SValue::Struct(name, vals)))
        } else {
            match variant_named(p, name) {
                Some(ij) => to(
                    s,
                    SCtrl::Ret(SValue::Enum(p.enums@[ij.0].name@, name, vals)),
                ),
                None => enter(p, name, vals, span, s),
            }
        },
    }
}

/// Gives a variable a new value of its declared type.
pub open spec fn assign(p: Program, name: Seq<char>, v: SValue, span: Span, s: SState) -> SState {
    match lookup(s.env, name) {
        None => fail(s, SErrorKind::UnknownVar(name), span),
        Some(b) => match fits(p, v, b.1, span) {
            SCheck::Fine => SState {
                ctrl: SCtrl::Ret(v),
                env: assigned(s.env, name, (v, b.1)),
                ..s
            },
            SCheck::Fail(e) => to(s, SCtrl::Failed(e)),
            SCheck::Stuck => to(s, SCtrl::Stuck),
        },
    }
}

pub open spec fn ask(s: SState, r: SRequest, span: Span) -> SState {
    to(s, SCtrl::Ask(r, span))
}

/// Evaluates an expression of which all operands have values.
pub open spec fn apply(p: Program, e: Expr, vals: Seq<SValue>, s: SState) -> SState {
    match e {
        Expr::Unary(op, _, span) => conclude(s, unary(op, vals[0], span)),
        Expr::Binary(op, _, _, span) => act(s, binary(op, vals[0], vals[1], span), span),
        Expr::Box(..) => to(s, SCtrl::Ret(SValue::Boxed(Box::new(vals[0])))),
        Expr::Ref(..) => to(s, SCtrl::Ret(SValue::Ref(Box::new(vals[0])))),
        Expr::Deref(_, span) => match vals[0] {
            SValue::Boxed(x) => to(s, SCtrl::Ret(*x)),
            SValue::Ref(x) => to(s, SCtrl::Ret(*x)),
            v => wrong_kind(s, "box or ref"@, v, span),
        },
        Expr::Assign(name, _, span) => assign(p, name@, vals[0], span, s),
        Expr::Call(name, _, span) => call(p, name@, vals, span, s),
        Expr::Spawn(name, _, span) => ask(
            s,
            SRequest::Spawn { name: name@, args: vals, span },
            span,
        ),
        Expr::Join(_, span) => match vals[0] {
            SValue::Thread(h) => ask(s, SRequest::Join(h), span),
            v => wrong_kind(s, "thread"@, v, span),
        },
        Expr::Send(_, _, span) => match vals[0] {
            SValue::Channel(_) => ask(s, SRequest::Send(vals[0], vals[1]), span),
            SValue::Tcp(_) => if vals[1] is Str {
                ask(s, SRequest::Send(vals[0], vals[1]), span)
            } else {
                to(s, SCtrl::Stuck)
            },
            SValue::File(_) => if vals[1] is Str {
                ask(s, SRequest::Send(vals[0], vals[1]), span)
            } else {
                to(s, SCtrl::Stuck)
            },
            v => wrong_kind(s, "chan"@, v, span),
        },
        Expr::Recv(_, span) => match vals[0] {
            SValue::Channel(_) => ask(s, SRequest::Recv(vals[0]), span),
            SValue::Tcp(_) => ask(s, SRequest::Recv(vals[0]), span),
            SValue::File(_) => ask(s, SRequest::Recv(vals[0]), span),
            v => wrong_kind(s, "chan"@, v, span),
        },
        Expr::Connect(_, _, span) => match (vals[0], vals[1]) {
            (SValue::Str(host), SValue::Int(n)) => if 0 <= n <= u16::MAX {
                ask(s, SRequest::Connect(host, n as u16), span)
            } else {
                fail(s, bad_port(n), span)
            },
            _ => to(s, SCtrl::Stuck),
        },
        Expr::Listen(_, span) => match vals[0] {
            SValue::Int(n) => if 0 <= n <= u16::MAX {
                ask(s, SRequest::Listen(n as u16), span)
            } else {
                fail(s, bad_port(n), span)
            },
            _ => to(s, SCtrl::Stuck),
        },
        Expr::Accept(_, span) => match vals[0] {
            SValue::TcpListener(h) => ask(s, SRequest::Accept(h), span),
            _ => to(s, SCtrl::Stuck),
        },
        Expr::Open(_, _, span) => match (vals[0], vals[1]) {
            (SValue::Str(path), SValue::Str(m)) => match file_mode(m) {
                Some(mode) => ask(s, SRequest::Open(path, mode), span),
                None => fail(
                    s,
                    SErrorKind::ChannelIoError {
                        message: "invalid file mode "@ + quoted(m)
                            + " — expected \"r\", \"w\", or \"a\""@,
                    },
                    span,
                ),
            },
            _ => to(s, SCtrl::Stuck),
        },
        Expr::SpawnSandbox(name, _, span) => match sandbox_args(p, name@, vals, vals.len()) {
            Some(args) => ask(s, SRequest::Sandbox { name: name@, args }, span),
            None => to(s, SCtrl::Stuck),
        },
        Expr::StopSandbox(_, span) => match vals[0] {
            SValue::Sandbox(_) => ask(s, SRequest::Stop(vals[0]), span),
            SValue::Tcp(_) => ask(s, SRequest::Stop(vals[0]), span),
            SValue::TcpListener(_) => ask(s, SRequest::Stop(vals[0]), span),
            SValue::File(_) => ask(s, SRequest::Stop(vals[0]), span),
            v => wrong_kind(s, "sandbox"@, v, span),
        },
        Expr::Index(_, _, span) => conclude(s, indexed(vals, span)),
        Expr::ArrayLit(..) => conclude(s, array(vals)),
        Expr::FieldAccess(_, name, _) => conclude(s, field(p, vals[0], name@)),
        _ => to(s, SCtrl::Stuck),
    }
}

/// A step of a `transact`.
pub open spec fn slot_of(e: Expr, step: Step) -> Option<TransactSlot> {
    match e {
        Expr::Transact { network, verify, commit, compensate, log, .. } => match step {
            Step::Network => Some(network),
            Step::Verify => Some(verify),
            Step::Commit => Some(commit),
            Step::Compensate => compensate,
            Step::Log => log,
        },
        _ => None,
    }
}

/// Evaluates the next argument of a step of a `transact`, or makes its call.
pub open spec fn slot_args(
    p: Program,
    e: Expr,
    step: Step,
    ok: bool,
    done: Seq<SValue>,
    s: SState,
) -> SState {
    match slot_of(e, step) {
        None => to(s, SCtrl::Stuck),
        Some(slot) => if done.len() < slot.args@.len() {
            to(
                waiting(s, SFrame::SlotArgs(e, step, ok, done)),
                SCtrl::Eval(slot.args@[done.len() as int]),
            )
        } else {
            enter(p, slot.name@, done, slot.span, waiting(s, SFrame::Slot(e, step, ok)))
        },
    }
}

/// The `log` step of a `transact` where it has one, then its end.
pub open spec fn log_step(p: Program, e: Expr, ok: bool, s: SState) -> SState {
    if slot_of(e, Step::Log) is Some {
        slot_args(p, e, Step::Log, ok, Seq::empty(), s)
    } else {
        transact_end(ok, s)
    }
}

pub open spec fn transact_end(ok: bool, s: SState) -> SState {
    SState { ctrl: SCtrl::Ret(SValue::Bool(ok)), env: closed(s.env), ..s }
}

/// Goes on with a `transact` after one of its steps: what `network` gave is
/// verified, then it is committed or compensated, then logged.
pub open spec fn slot_done(p: Program, e: Expr, step: Step, ok: bool, v: SValue, s: SState) -> SState {
    match step {
        Step::Network => match slot_of(e, Step::Network) {
            None => to(s, SCtrl::Stuck),
            Some(slot) => match fn_named(p, slot.name@) {
                None => to(s, SCtrl::Stuck),
                Some(i) => slot_args(
                    p,
                    e,
                    Step::Verify,
                    ok,
                    Seq::empty(),
                    SState {
                        env: defined(s.env, "network"@, (v, p.fns@[i].ret@)),
                        ..s
                    },
                ),
            },
        },
        Step::Verify => match slot_of(e, Step::Verify) {
            None => to(s, SCtrl::Stuck),
            Some(slot) => match v {
                SValue::Bool(b) => {
                    let t = SState { env: defined(s.env, "verify"@, (v, STy::Bool)), ..s };
                    if b {
                        slot_args(p, e, Step::Commit, true, Seq::empty(), t)
                    } else if slot_of(e, Step::Compensate) is Some {
                        slot_args(p, e, Step::Compensate, false, Seq::empty(), t)
                    } else {
                        log_step(p, e, false, t)
                    }
                },
                _ => wrong_kind(s, "bool"@, v, slot.span),
            },
        },
        Step::Commit => log_step(p, e, ok, s),
        Step::Compensate => log_step(p, e, ok, s),
        Step::Log => transact_end(ok, s),
    }
}

/// Starts to run statements in a scope of their own.
pub open spec fn block(stmts: Seq<Stmt>, s: SState) -> SState {
    SState { ctrl: SCtrl::Run(stmts, 0, SValue::Unit), env: opened(s.env), ..s }
}

/// Starts to evaluate an expression.
pub open spec fn eval(p: Program, e: Expr, s: SState) -> SState {
    match e {
        Expr::Int(n, _) => to(s, SCtrl::Ret(SValue::Int(n))),
        Expr::Float(f, _) => to(s, SCtrl::Ret(SValue::Float(f.bits))),
        Expr::Bool(b, _) => to(s, SCtrl::Ret(SValue::Bool(b))),
        Expr::Str(t, _) => to(s, SCtrl::Ret(SValue::Str(t@))),
        Expr::Ident(name, span) => match lookup(s.env, name@) {
            Some(b) => to(s, SCtrl::Ret(b.0)),
            None => fail(s, SErrorKind::UnknownVar(name@), span),
        },
        Expr::Chan(span) => ask(s, SRequest::Channel, span),
        Expr::Binary(op, l, _, _) => if op == BinOp::And || op == BinOp::Or {
            to(waiting(s, SFrame::Logic(e)), SCtrl::Eval(*l))
        } else {
            operands(p, e, Seq::empty(), s)
        },
        Expr::If { cond, .. } => to(waiting(s, SFrame::Cond(e)), SCtrl::Eval(*cond)),
        Expr::Match { scrutinee, .. } => to(
            waiting(s, SFrame::Scrutinee(e)),
            SCtrl::Eval(*scrutinee),
        ),
        Expr::Transact { .. } => slot_args(
            p,
            e,
            Step::Network,
            false,
            Seq::empty(),
            SState { env: opened(s.env), ..s },
        ),
        _ => operands(p, e, Seq::empty(), s),
    }
}

/// Runs the statement at a place.
pub open spec fn run(p: Program, stmts: Seq<Stmt>, i: int, last: SValue, s: SState) -> SState {
    if i < 0 || i >= stmts.len() {
        to(s, SCtrl::Ret(last))
    } else {
        let w = waiting(s, SFrame::Stmt(stmts, i));
        match stmts[i] {
            Stmt::Let { value, .. } => to(w, SCtrl::Eval(value)),
            Stmt::Return { value, .. } => match value {
                Some(e) => to(w, SCtrl::Eval(e)),
                None => to(s, SCtrl::Unwind(SValue::Unit)),
            },
            Stmt::While { cond, .. } => to(w, SCtrl::Eval(cond)),
            Stmt::Audited { body, .. } => block(
                body@,
                waiting(s, SFrame::Audited(stmts, i)),
            ),
            Stmt::Expr(e) => to(w, SCtrl::Eval(e)),
        }
    }
}

/// The first arm from `i` on for a variant.
pub open spec fn arm_for(arms: Seq<MatchArm>, variant: Seq<char>, i: int) -> Option<int>
    decreases arms.len() - i,
{
    if i < 0 || i >= arms.len() {
        None
    } else if arms[i].variant@ == variant {
        Some(i)
    } else {
        arm_for(arms, variant, i + 1)
    }
}

/// The bindings with those of the first `n` names of an arm.
pub open spec fn arm_env(
    env: SEnv,
    names: Seq<String>,
    payload: Seq<SValue>,
    types: Seq<Ty>,
    n: nat,
) -> SEnv
    decreases n,
{
    if n == 0 {
        opened(env)
    } else {
        defined(
            arm_env(env, names, payload, types, (n - 1) as nat),
            names[n - 1]@,
            (payload[n - 1], types[n - 1]@),
        )
    }
}

pub open spec fn least3(a: nat, b: nat, c: nat) -> nat {
    if a <= b && a <= c {
        a
    } else if b <= c {
        b
    } else {
        c
    }
}

/// Goes on with the arm for a value.
pub open spec fn choose_arm(p: Program, e: Expr, v: SValue, s: SState) -> SState {
    match (e, v) {
        (Expr::Match { arms, .. }, SValue::Enum(_, variant, payload)) => match arm_for(
            arms@,
            variant,
            0,
        ) {
            None => to(s, SCtrl::Stuck),
            Some(i) => match variant_named(p, variant) {
                None => to(s, SCtrl::Stuck),
                Some(ij) => {
                    let types = p.enums@[ij.0].variants@[ij.1].payload@;
                    let names = arms@[i].bindings@;
                    SState {
                        ctrl: SCtrl::Eval(*arms@[i].body),
                        frames: s.frames.push(SFrame::Scope),
                        env: arm_env(
                            s.env,
                            names,
                            payload,
                            types,
                            least3(names.len(), payload.len(), types.len()),
                        ),
                        rng: s.rng,
                    }
                },
            },
        },
        _ => to(s, SCtrl::Stuck),
    }
}

/// Goes on with a statement whose expression has a value.
pub open spec fn stmt_value(p: Program, stmts: Seq<Stmt>, i: int, v: SValue, s: SState) -> SState {
    match stmts[i] {
        Stmt::Let { name, ty, span, .. } => match fits(p, v, ty@, span) {
            SCheck::Fine => SState {
                ctrl: SCtrl::Run(stmts, i + 1, SValue::Unit),
                env: defined(s.env, name@, (v, ty@)),
                ..s
            },
            SCheck::Fail(e) => to(s, SCtrl::Failed(e)),
            SCheck::Stuck => to(s, SCtrl::Stuck),
        },
        Stmt::Return { .. } => to(s, SCtrl::Unwind(v)),
        Stmt::While { cond, body, .. } => match v {
            SValue::Bool(true) => block(body.stmts@, waiting(s, SFrame::Loop(stmts, i))),
            SValue::Bool(false) => to(s, SCtrl::Run(stmts, i + 1, SValue::Unit)),
            _ => wrong_kind(s, "bool"@, v, span_of(cond)),
        },
        Stmt::Audited { .. } => to(s, SCtrl::Stuck),
        Stmt::Expr(_) => to(s, SCtrl::Run(stmts, i + 1, v)),
    }
}

/// Hands a value to what waits for it.
pub open spec fn give(p: Program, f: SFrame, v: SValue, s: SState) -> SState {
    match f {
        SFrame::Args(e, done) => match rejects(e, done.len() as int, v) {
            Some(expected) => wrong_kind(s, expected, v, span_of(e)),
            None => operands(p, e, done.push(v), s),
        },
        SFrame::Logic(e) => match e {
            Expr::Binary(op, _, r, span) => match v {
                SValue::Bool(b) => if b == (op == BinOp::Or) {
                    to(s, SCtrl::Ret(SValue::Bool(b)))
                } else {
                    to(waiting(s, SFrame::LogicRight(e)), SCtrl::Eval(*r))
                },
                _ => wrong_kind(s, "bool"@, v, span),
            },
            _ => to(s, SCtrl::Stuck),
        },
        SFrame::LogicRight(e) => match v {
            SValue::Bool(_) => to(s, SCtrl::Ret(v)),
            _ => wrong_kind(s, "bool"@, v, span_of(e)),
        },
        SFrame::Cond(e) => match e {
            Expr::If { then_block, else_block, span, .. } => match v {
                SValue::Bool(b) => if b {
                    block(then_block.stmts@, waiting(s, SFrame::Scope))
                } else {
                    match else_block {
                        Some(x) => match *x {
                            ElseBranch::Block(y) => block(y.stmts@, waiting(s, SFrame::Scope)),
                            ElseBranch::If(y) => to(s, SCtrl::Eval(y)),
                        },
                        None => to(s, SCtrl::Ret(SValue::Unit)),
                    }
                },
                _ => wrong_kind(s, "bool"@, v, span),
            },
            _ => to(s, SCtrl::Stuck),
        },
        SFrame::Scrutinee(e) => choose_arm(p, e, v, s),
        SFrame::Scope => SState { ctrl: SCtrl::Ret(v), env: closed(s.env), ..s },
        SFrame::Stmt(stmts, i) => stmt_value(p, stmts, i, v, s),
        SFrame::Loop(stmts, i) => match stmts[i] {
            Stmt::While { cond, .. } => SState {
                ctrl: SCtrl::Eval(cond),
                frames: s.frames.push(SFrame::Stmt(stmts, i)),
                env: closed(s.env),
                rng: s.rng,
            },
            _ => to(s, SCtrl::Stuck),
        },
        SFrame::Audited(stmts, i) => SState {
            ctrl: SCtrl::Run(stmts, i + 1, SValue::Unit),
            env: closed(s.env),
            ..s
        },
        SFrame::SlotArgs(e, step, ok, done) => slot_args(p, e, step, ok, done.push(v), s),
        SFrame::Slot(e, step, ok) => slot_done(p, e, step, ok, v, s),
        SFrame::Call(i, _, env) => {
            let t = SState { env, ..s };
            if p.fns@[i].ret@ == STy::Unit {
                to(t, SCtrl::Ret(SValue::Unit))
            } else {
                fail(
                    t,
                    SErrorKind::MissingReturn { fn_name: p.fns@[i].name@ },
                    p.fns@[i].span,
                )
            }
        },
    }
}

/// Returns a value from the function: whatever else waits is given up.
pub open spec fn unwind(p: Program, f: SFrame, v: SValue, s: SState) -> SState {
    match f {
        SFrame::Call(i, span, env) => {
            let t = SState { env, ..s };
            match fits(p, v, p.fns@[i].ret@, span) {
                SCheck::Fine => to(t, SCtrl::Ret(v)),
                SCheck::Fail(e) => to(t, SCtrl::Failed(e)),
                SCheck::Stuck => to(t, SCtrl::Stuck),
            }
        },
        _ => to(s, SCtrl::Unwind(v)),
    }
}

/// One step of the machine. There is none from a state that is at its end or
/// waits for an answer.
pub open spec fn step(p: Program, s: SState) -> SState {
    let rest = SState { frames: s.frames.drop_last(), ..s };
    match s.ctrl {
        SCtrl::Eval(e) => eval(p, e, s),
        SCtrl::Run(stmts, i, last) => run(p, stmts, i, last, s),
        SCtrl::Ret(v) => if s.frames.len() == 0 {
            to(s, SCtrl::Done(v))
        } else {
            give(p, s.frames.last(), v, rest)
        },
        SCtrl::Unwind(v) => if s.frames.len() == 0 {
            to(s, SCtrl::Stuck)
        } else {
            unwind(p, s.frames.last(), v, rest)
        },
        _ => s,
    }
}

/// The state after `n` steps.
pub open spec fn steps(p: Program, s: SState, n: nat) -> SState
    decreases n,
{
    if n == 0 {
        s
    } else {
        step(p, steps(p, s, (n - 1) as nat))
    }
}

/// Goes on with an answer.
pub open spec fn answered(s: SState, a: SResponse) -> SState {
    match s.ctrl {
        SCtrl::Ask(r, span) => conclude(s, settled(r, a, span)),
        _ => s,
    }
}

/// The state in which a call of a function begins a run.
pub open spec fn begun(p: Program, name: Seq<char>, vals: Seq<SValue>, span: Span) -> SState {
    enter(
        p,
        name,
        vals,
        span,
        SState { ctrl: SCtrl::Stuck, frames: Seq::empty(), env: Seq::empty(), rng: None },
    )
}

} // verus!
