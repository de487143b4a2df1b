//! What a run asks of its surroundings, and what the surroundings answer.
use crate::ast::BinOp;
use crate::builtins::Builtin;
use crate::token::Span;
use crate::value::{
    pieces_view, values_view, ErrorKind, Outcome, Piece, RuntimeError, SError, SErrorKind, SOutcome,
    SPiece, SValue, Value,
};
use vstd::prelude::*;
use vstd::string::*;

verus! {

/// How a file is opened.
#[derive(Debug, Clone, Copy, PartialEq, Eq, Structural)]
pub enum Mode {
    Read,
    Write,
    Append,
}

/// An argument for a process of its own: text for its command line, or a
/// channel that it is to be connected to.
#[derive(Debug)]
pub enum SandboxArg {
    Text(String),
    Channel(u64),
}

pub ghost enum SSandboxArg {
    Text(Seq<char>),
    Channel(u64),
}

impl View for SandboxArg {
    type V = SSandboxArg;

    open spec fn view(&self) -> SSandboxArg {
        match *self {
            SandboxArg::Text(s) => SSandboxArg::Text(s@),
            SandboxArg::Channel(h) => SSandboxArg::Channel(h),
        }
    }
}

pub open spec fn args_view(v: Seq<SandboxArg>) -> Seq<SSandboxArg> {
    Seq::new(v.len(), |i: int| v[i]@)
}

/// What a run cannot do itself.
#[derive(Debug)]
#[allow(inconsistent_fields)]
pub enum Request {
    /// Arithmetic on floating-point numbers, or on vectors and matrices of them.
    Arith(BinOp, Value, Value),
    /// A builtin function on floating-point numbers.
    Builtin(Builtin, Vec<Value>),
    /// A number drawn at random: these 53 bits over 2^53.
    Uniform(u64),
    /// A number drawn from a normal distribution, from two such draws.
    Gaussian { mean: u64, stddev: u64, first: u64, second: u64 },
    Print(Vec<Piece>),
    /// Calls a function in a thread of its own.
    Spawn { name: String, args: Vec<Value>, span: Span },
    Join(u64),
    /// Makes a channel.
    Channel,
    Send(Value, Value),
    Recv(Value),
    Connect(String, u16),
    Listen(u16),
    Accept(u64),
    Open(String, Mode),
    /// Calls a function in a process of its own.
    Sandbox { name: String, args: Vec<SandboxArg> },
    /// Closes a handle.
    Stop(Value),
}

#[allow(inconsistent_fields)]
pub ghost enum SRequest {
    Arith(BinOp, SValue, SValue),
    Builtin(Builtin, Seq<SValue>),
    Uniform(u64),
    Gaussian { mean: u64, stddev: u64, first: u64, second: u64 },
    Print(Seq<SPiece>),
    Spawn { name: Seq<char>, args: Seq<SValue>, span: Span },
    Join(u64),
    Channel,
    Send(SValue, SValue),
    Recv(SValue),
    Connect(Seq<char>, u16),
    Listen(u16),
    Accept(u64),
    Open(Seq<char>, Mode),
    Sandbox { name: Seq<char>, args: Seq<SSandboxArg> },
    Stop(SValue),
}

impl View for Request {
    type V = SRequest;

    open spec fn view(&self) -> SRequest {
        match *self {
            Request::Arith(op, a, b) => SRequest::Arith(op, a@, b@),
            Request::Builtin(b, args) => SRequest::Builtin(b, values_view(args@)),
            Request::Uniform(n) => SRequest::Uniform(n),
            Request::Gaussian { mean, stddev, first, second } => SRequest::Gaussian {
                mean,
                stddev,
                first,
                second,
            },
            Request::Print(p) => SRequest::Print(pieces_view(p@)),
            Request::Spawn { name, args, span } => SRequest::Spawn {
                name: name@,
                args: values_view(args@),
                span,
            },
            Request::Join(h) => SRequest::Join(h),
            Request::Channel => SRequest::Channel,
            Request::Send(t, v) => SRequest::Send(t@, v@),
            Request::Recv(t) => SRequest::Recv(t@),
            Request::Connect(h, p) => SRequest::Connect(h@, p),
            Request::Listen(p) => SRequest::Listen(p),
            Request::Accept(h) => SRequest::Accept(h),
            Request::Open(p, m) => SRequest::Open(p@, m),
            Request::Sandbox { name, args } => SRequest::Sandbox {
                name: name@,
                args: args_view(args@),
            },
            Request::Stop(h) => SRequest::Stop(h@),
        }
    }
}

/// What an operation does: it is done, or it needs the surroundings.
pub enum Act {
    Done(Outcome),
    Ask(Request),
}

pub ghost enum SAct {
    Done(SOutcome),
    Ask(SRequest),
}

impl View for Act {
    type V = SAct;

    open spec fn view(&self) -> SAct {
        match *self {
            Act::Done(o) => SAct::Done(o@),
            Act::Ask(r) => SAct::Ask(r@),
        }
    }
}

/// What the surroundings answer.
#[derive(Debug)]
pub enum Response {
    Value(Value),
    /// Input or output failed.
    IoError(String),
    /// The handle was closed before.
    Stopped,
    /// The thread was joined before.
    AlreadyJoined,
    /// The thread's run ended in an error.
    Threw(RuntimeError),
    /// The thread ended without a result.
    Panicked(String),
    /// The process could not be started.
    SpawnFailed(String),
    /// The matrix has no inverse.
    Singular,
}

pub ghost enum SResponse {
    Value(SValue),
    IoError(Seq<char>),
    Stopped,
    AlreadyJoined,
    Threw(SError),
    Panicked(Seq<char>),
    SpawnFailed(Seq<char>),
    Singular,
}

impl View for Response {
    type V = SResponse;

    open spec fn view(&self) -> SResponse {
        match *self {
            Response::Value(v) => SResponse::Value(v@),
            Response::IoError(m) => SResponse::IoError(m@),
            Response::Stopped => SResponse::Stopped,
            Response::AlreadyJoined => SResponse::AlreadyJoined,
            Response::Threw(e) => SResponse::Threw(e@),
            Response::Panicked(m) => SResponse::Panicked(m@),
            Response::SpawnFailed(m) => SResponse::SpawnFailed(m@),
            Response::Singular => SResponse::Singular,
        }
    }
}

/// The handle that a request is about, where it is about one.
pub open spec fn target(r: SRequest) -> Option<SValue> {
    match r {
        SRequest::Send(t, _) => Some(t),
        SRequest::Recv(t) => Some(t),
        SRequest::Stop(t) => Some(t),
        SRequest::Accept(h) => Some(SValue::TcpListener(h)),
        _ => None,
    }
}

/// The error for the use of a handle that was closed before.
pub open spec fn stopped_error(r: SRequest) -> SErrorKind {
    match target(r) {
        Some(SValue::Tcp(_)) => SErrorKind::ChannelIoError {
            message: "this tcp connection was already stopped"@,
        },
        Some(SValue::File(_)) => SErrorKind::ChannelIoError {
            message: "this file was already stopped"@,
        },
        Some(SValue::TcpListener(_)) => SErrorKind::ChannelIoError {
            message: "this tcp_listener was already stopped"@,
        },
        _ => SErrorKind::AlreadySandboxStopped,
    }
}

/// What a run makes of an answer to a request. Closing a connection, a listener or a
/// file gives nothing, and closing it twice is no error.
pub open spec fn settled(r: SRequest, a: SResponse, span: Span) -> SOutcome {
    let fail = |kind: SErrorKind| SOutcome::Fail(SError { kind, span });
    match a {
        SResponse::Value(v) => match r {
            SRequest::Print(_) => SOutcome::Val(SValue::Unit),
            SRequest::Send(..) => SOutcome::Val(SValue::Unit),
            SRequest::Stop(h) => SOutcome::Val(
                if h is Sandbox {
                    v
                } else {
                    SValue::Unit
                },
            ),
            _ => SOutcome::Val(v),
        },
        SResponse::IoError(message) => fail(SErrorKind::ChannelIoError { message }),
        SResponse::Stopped => match r {
            SRequest::Stop(h) => if h is Sandbox {
                fail(stopped_error(r))
            } else {
                SOutcome::Val(SValue::Unit)
            },
            _ => fail(stopped_error(r)),
        },
        SResponse::AlreadyJoined => fail(SErrorKind::AlreadyJoined),
        SResponse::Threw(e) => SOutcome::Fail(e),
        SResponse::Panicked(message) => fail(SErrorKind::ThreadPanicked { message }),
        SResponse::SpawnFailed(message) => fail(SErrorKind::SandboxSpawnFailed { message }),
        SResponse::Singular => fail(SErrorKind::SingularMatrix),
    }
}

/// What a run makes of an answer to a request.
pub fn settle(r: &Request, a: Response, span: Span) -> (out: Outcome)
    ensures
        out@ == settled(r@, a@, span),
{
    match a {
        Response::Value(v) => match r {
            Request::Print(_) | Request::Send(..) => Outcome::Val(Value::Unit),
            Request::Stop(h) => match h {
                Value::Sandbox(_) => Outcome::Val(v),
                _ => Outcome::Val(Value::Unit),
            },
            _ => Outcome::Val(v),
        },
        Response::IoError(message) => Outcome::Fail(
            RuntimeError { kind: ErrorKind::ChannelIoError { message }, span },
        ),
        Response::Stopped => {
            let message = match r {
                Request::Stop(Value::Sandbox(_)) => None,
                Request::Stop(_) => {
                    return Outcome::Val(Value::Unit);
                }
                Request::Send(Value::Tcp(_), _) | Request::Recv(Value::Tcp(_)) => Some(
                    "this tcp connection was already stopped",
                ),
                Request::Send(Value::File(_), _) | Request::Recv(Value::File(_)) => Some(
                    "this file was already stopped",
                ),
                Request::Send(Value::TcpListener(_), _)
                | Request::Recv(Value::TcpListener(_))
                | Request::Accept(_) => Some("this tcp_listener was already stopped"),
                _ => None,
            };
            let kind = match message {
                Some(m) => ErrorKind::ChannelIoError { message: m.to_owned() },
                None => ErrorKind::AlreadySandboxStopped,
            };
            Outcome::Fail(RuntimeError { kind, span })
        }
        Response::AlreadyJoined => Outcome::Fail(
            RuntimeError { kind: ErrorKind::AlreadyJoined, span },
        ),
        Response::Threw(e) => Outcome::Fail(e),
        Response::Panicked(message) => Outcome::Fail(
            RuntimeError { kind: ErrorKind::ThreadPanicked { message }, span },
        ),
        Response::SpawnFailed(message) => Outcome::Fail(
            RuntimeError { kind: ErrorKind::SandboxSpawnFailed { message }, span },
        ),
        Response::Singular => Outcome::Fail(
            RuntimeError { kind: ErrorKind::SingularMatrix, span },
        ),
    }
}

} // verus!
