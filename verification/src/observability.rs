//! Traces of running programs: what is noted of an effectful step, and a bounded
//! queue that never holds the program up.
use crate::ast::{Effect, EffectSet};
use crate::builtins::{Builtin, builtin_named};
use crate::effects::of_builtin;
use crate::json::{Json, SJson, entries_view};
use crate::request::{Request, SRequest};
use crate::token::Span;
use crate::value::{ErrorKind, SErrorKind, SValue, Value};
use vstd::prelude::*;

verus! {

/// How many events may wait to be written.
pub const CHANNEL_CAPACITY: usize = 4096;

/// How a traced step ended. Of a failure only the kind is noted, never a message.
#[derive(Debug, Clone, Copy)]
pub enum Outcome {
    Success,
    Failure(&'static str),
}

/// One traced step.
#[derive(Debug, Clone)]
pub struct SpanRecord {
    /// None for a call of a function without effects.
    pub effect: Option<Effect>,
    pub site: Span,
    /// The construct or builtin.
    pub name: &'static str,
    /// The function, where the step is a call.
    pub fn_name: Option<String>,
    pub duration_us: u64,
    pub outcome: Outcome,
}

#[derive(Debug, Clone)]
pub enum Event {
    Span(SpanRecord),
}

/// The name of an error's kind.
pub open spec fn kind_text(k: SErrorKind) -> Seq<char> {
    match k {
        SErrorKind::UnknownFn(_) => "UnknownFn"@,
        SErrorKind::UnknownVar(_) => "UnknownVar"@,
        SErrorKind::ArityMismatch { .. } => "ArityMismatch"@,
        SErrorKind::TypeMismatch { .. } => "TypeMismatch"@,
        SErrorKind::OutOfRange { .. } => "OutOfRange"@,
        SErrorKind::DivByZero => "DivByZero"@,
        SErrorKind::MissingReturn { .. } => "MissingReturn"@,
        SErrorKind::ThreadPanicked { .. } => "ThreadPanicked"@,
        SErrorKind::AlreadyJoined => "AlreadyJoined"@,
        SErrorKind::SandboxSpawnFailed { .. } => "SandboxSpawnFailed"@,
        SErrorKind::AlreadySandboxStopped => "AlreadySandboxStopped"@,
        SErrorKind::ChannelIoError { .. } => "ChannelIoError"@,
        SErrorKind::IndexOutOfBounds { .. } => "IndexOutOfBounds"@,
        SErrorKind::SingularMatrix => "SingularMatrix"@,
        SErrorKind::RngNotSeeded => "RngNotSeeded"@,
    }
}

/// The name of an error's kind, without what the error says.
pub fn error_kind_name(kind: &ErrorKind) -> (r: &'static str)
    ensures
        r@ == kind_text(kind@),
{
    match kind {
        ErrorKind::UnknownFn(_) => "UnknownFn",
        ErrorKind::UnknownVar(_) => "UnknownVar",
        ErrorKind::ArityMismatch { .. } => "ArityMismatch",
        ErrorKind::TypeMismatch { .. } => "TypeMismatch",
        ErrorKind::OutOfRange { .. } => "OutOfRange",
        ErrorKind::DivByZero => "DivByZero",
        ErrorKind::MissingReturn { .. } => "MissingReturn",
        ErrorKind::ThreadPanicked { .. } => "ThreadPanicked",
        ErrorKind::AlreadyJoined => "AlreadyJoined",
        ErrorKind::SandboxSpawnFailed { .. } => "SandboxSpawnFailed",
        ErrorKind::AlreadySandboxStopped => "AlreadySandboxStopped",
        ErrorKind::ChannelIoError { .. } => "ChannelIoError",
        ErrorKind::IndexOutOfBounds { .. } => "IndexOutOfBounds",
        ErrorKind::SingularMatrix => "SingularMatrix",
        ErrorKind::RngNotSeeded => "RngNotSeeded",
    }
}

/// The first effect of a set.
pub open spec fn first_effect(s: EffectSet) -> Option<Effect> {
    if s.rng {
        Some(Effect::Rng)
    } else if s.io {
        Some(Effect::Io)
    } else if s.concurrent {
        Some(Effect::Concurrent)
    } else if s.network {
        Some(Effect::Network)
    } else {
        None
    }
}

/// The builtins that are traced: those with an effect, with that effect.
pub open spec fn traced(name: Seq<char>) -> Option<(Effect, Seq<char>)> {
    match builtin_named(name) {
        Some(b) => match first_effect(of_builtin(b)) {
            Some(e) => Some((e, name)),
            None => None,
        },
        None => None,
    }
}

/// The effect and the name under which a builtin is traced; none where it has no
/// effect.
pub fn traced_builtin(name: &str) -> (r: Option<(Effect, &'static str)>)
    ensures
        match r {
            Some(x) => traced(name@) == Some((x.0, (x.1)@)),
            None => traced(name@) is None,
        },
{
    match Builtin::from_name(name) {
        Some(Builtin::Print) => Some((Effect::Io, "print")),
        Some(Builtin::RandSeed) => Some((Effect::Rng, "rand_seed")),
        Some(Builtin::RandF64) => Some((Effect::Rng, "rand_f64")),
        Some(Builtin::RandGaussian) => Some((Effect::Rng, "rand_gaussian")),
        _ => None,
    }
}

/// The effect and the name under which a request of a run is traced; none where it
/// has no effect.
pub open spec fn request_trace(r: SRequest) -> Option<(Effect, Seq<char>)> {
    match r {
        SRequest::Arith(..) | SRequest::Builtin(..) | SRequest::Channel => None,
        SRequest::Print(_) => Some((Effect::Io, "print"@)),
        SRequest::Uniform(_) => Some((Effect::Rng, "rand_f64"@)),
        SRequest::Gaussian { .. } => Some((Effect::Rng, "rand_gaussian"@)),
        SRequest::Spawn { .. } => Some((Effect::Concurrent, "spawn"@)),
        SRequest::Join(_) => Some((Effect::Concurrent, "join"@)),
        SRequest::Sandbox { .. } => Some((Effect::Concurrent, "sandbox"@)),
        SRequest::Connect(..) => Some((Effect::Network, "connect"@)),
        SRequest::Listen(_) => Some((Effect::Network, "listen"@)),
        SRequest::Accept(_) => Some((Effect::Network, "accept"@)),
        SRequest::Open(..) => Some((Effect::Io, "open"@)),
        SRequest::Send(h, _) => match h {
            SValue::Channel(_) => Some((Effect::Concurrent, "chan.send"@)),
            SValue::Tcp(_) => Some((Effect::Network, "tcp.send"@)),
            _ => Some((Effect::Io, "file.send"@)),
        },
        SRequest::Recv(h) => match h {
            SValue::Channel(_) => Some((Effect::Concurrent, "chan.recv"@)),
            SValue::Tcp(_) => Some((Effect::Network, "tcp.recv"@)),
            _ => Some((Effect::Io, "file.recv"@)),
        },
        SRequest::Stop(h) => match h {
            SValue::Sandbox(_) => Some((Effect::Concurrent, "stop"@)),
            SValue::File(_) => Some((Effect::Io, "stop"@)),
            _ => Some((Effect::Network, "stop"@)),
        },
    }
}

/// The effect and the name under which a request of a run is traced.
pub fn traced_request(request: &Request) -> (r: Option<(Effect, &'static str)>)
    ensures
        match r {
            Some(x) => request_trace(request@) == Some((x.0, (x.1)@)),
            None => request_trace(request@) is None,
        },
{
    match request {
        Request::Arith(..) | Request::Builtin(..) | Request::Channel => None,
        Request::Print(_) => Some((Effect::Io, "print")),
        Request::Uniform(_) => Some((Effect::Rng, "rand_f64")),
        Request::Gaussian { .. } => Some((Effect::Rng, "rand_gaussian")),
        Request::Spawn { .. } => Some((Effect::Concurrent, "spawn")),
        Request::Join(_) => Some((Effect::Concurrent, "join")),
        Request::Sandbox { .. } => Some((Effect::Concurrent, "sandbox")),
        Request::Connect(..) => Some((Effect::Network, "connect")),
        Request::Listen(_) => Some((Effect::Network, "listen")),
        Request::Accept(_) => Some((Effect::Network, "accept")),
        Request::Open(..) => Some((Effect::Io, "open")),
        Request::Send(h, _) => match h {
            Value::Channel(_) => Some((Effect::Concurrent, "chan.send")),
            Value::Tcp(_) => Some((Effect::Network, "tcp.send")),
            _ => Some((Effect::Io, "file.send")),
        },
        Request::Recv(h) => match h {
            Value::Channel(_) => Some((Effect::Concurrent, "chan.recv")),
            Value::Tcp(_) => Some((Effect::Network, "tcp.recv")),
            _ => Some((Effect::Io, "file.recv")),
        },
        Request::Stop(h) => match h {
            Value::Sandbox(_) => Some((Effect::Concurrent, "stop")),
            Value::File(_) => Some((Effect::Io, "stop")),
            _ => Some((Effect::Network, "stop")),
        },
    }
}

pub open spec fn effect_text(e: Effect) -> Seq<char> {
    match e {
        Effect::Rng => "rng"@,
        Effect::Io => "io"@,
        Effect::Concurrent => "concurrent"@,
        Effect::Network => "network"@,
    }
}

fn effect_name(e: Effect) -> (r: &'static str)
    ensures
        r@ == effect_text(e),
{
    match e {
        Effect::Rng => "rng",
        Effect::Io => "io",
        Effect::Concurrent => "concurrent",
        Effect::Network => "network",
    }
}

pub open spec fn text_or_null(s: Option<Seq<char>>) -> SJson {
    match s {
        Some(t) => SJson::Str(t),
        None => SJson::Null,
    }
}

/// A span as it is written, one per line.
pub open spec fn span_json(s: SpanRecord) -> SJson {
    SJson::Obj(
        seq![
            ("type"@, SJson::Str("span"@)),
            ("name"@, SJson::Str(s.name@)),
            (
                "fn_name"@,
                text_or_null(
                    match s.fn_name {
                        Some(n) => Some(n@),
                        None => None,
                    },
                ),
            ),
            (
                "effect"@,
                text_or_null(
                    match s.effect {
                        Some(e) => Some(effect_text(e)),
                        None => None,
                    },
                ),
            ),
            ("site"@, site_json(s.site)),
            ("duration_us"@, SJson::Int(s.duration_us as i128)),
            (
                "outcome"@,
                SJson::Str(
                    match s.outcome {
                        Outcome::Success => "ok"@,
                        Outcome::Failure(_) => "err"@,
                    },
                ),
            ),
            (
                "error_kind"@,
                text_or_null(
                    match s.outcome {
                        Outcome::Success => None,
                        Outcome::Failure(k) => Some(k@),
                    },
                ),
            ),
        ],
    )
}

pub open spec fn site_json(s: Span) -> SJson {
    SJson::Obj(
        seq![
            ("line"@, SJson::Int(s.line as i128)),
            ("col"@, SJson::Int(s.col as i128)),
        ],
    )
}

/// Adds an entry.
fn put(v: &mut Vec<(String, Json)>, name: &str, j: Json)
    ensures
        entries_view(final(v)@) == entries_view(old(v)@).push((name@, j@)),
{
    let ghost was = v@;
    let ghost jv = j@;
    v.push((name.to_owned(), j));
    proof {
        assert(entries_view(v@) =~= entries_view(was).push((name@, jv)));
    }
}

fn text_json(s: Option<&str>) -> (r: Json)
    ensures
        r@ == text_or_null(
            match s {
                Some(t) => Some(t@),
                None => None,
            },
        ),
{
    match s {
        Some(t) => Json::Str(t.to_owned()),
        None => Json::Null,
    }
}

fn place_json(s: Span) -> (r: Json)
    ensures
        r@ == site_json(s),
{
    let mut v: Vec<(String, Json)> = Vec::new();
    proof {
        assert(entries_view(v@) =~= Seq::<(Seq<char>, SJson)>::empty());
    }
    put(&mut v, "line", Json::Int(s.line as i128));
    put(&mut v, "col", Json::Int(s.col as i128));
    proof {
        assert(entries_view(v@) =~= site_json(s)->Obj_0);
    }
    Json::Obj(v)
}

/// A span as it is written.
pub fn render_span_json(s: &SpanRecord) -> (r: Json)
    ensures
        r@ == span_json(*s),
{
    let mut v: Vec<(String, Json)> = Vec::new();
    proof {
        assert(entries_view(v@) =~= Seq::<(Seq<char>, SJson)>::empty());
    }
    put(&mut v, "type", Json::Str("span".to_owned()));
    put(&mut v, "name", Json::Str(s.name.to_owned()));
    let fn_name = match &s.fn_name {
        Some(n) => text_json(Some(n.as_str())),
        None => text_json(None),
    };
    put(&mut v, "fn_name", fn_name);
    let effect = match s.effect {
        Some(e) => text_json(Some(effect_name(e))),
        None => text_json(None),
    };
    put(&mut v, "effect", effect);
    put(&mut v, "site", place_json(s.site));
    put(&mut v, "duration_us", Json::Int(s.duration_us as i128));
    let (outcome, kind) = match s.outcome {
        Outcome::Success => ("ok", text_json(None)),
        Outcome::Failure(k) => ("err", text_json(Some(k))),
    };
    put(&mut v, "outcome", Json::Str(outcome.to_owned()));
    put(&mut v, "error_kind", kind);
    proof {
        assert(entries_view(v@) =~= span_json(*s)->Obj_0);
    }
    Json::Obj(v)
}

/// Where spans are written.
#[derive(Debug, Clone)]
pub enum Destination {
    Stdout,
    File(String),
}

/// Events on their way to be written.
pub struct Tracer {
    pub destination: Destination,
    pub queue: Vec<Event>,
    /// Whether something is there to write events.
    pub running: bool,
    pub dropped: u64,
    pub emitted: u64,
}

/// The events that wait, whether something writes them, and how many were given up
/// or written. The counts wrap.
pub ghost struct Trace {
    pub waiting: Seq<Event>,
    pub running: bool,
    pub dropped: u64,
    pub emitted: u64,
}

impl View for Tracer {
    type V = Trace;

    open spec fn view(&self) -> Trace {
        Trace {
            waiting: self.queue@,
            running: self.running,
            dropped: self.dropped,
            emitted: self.emitted,
        }
    }
}

/// No more events wait than may.
pub open spec fn fits_queue(t: Trace) -> bool {
    t.waiting.len() <= CHANNEL_CAPACITY
}

/// An event is offered: it waits where there is room, and is given up where there
/// is none, or where nothing is left to write it.
pub open spec fn offered(t: Trace, e: Event) -> Trace {
    if t.running && t.waiting.len() < CHANNEL_CAPACITY {
        Trace { waiting: t.waiting.push(e), ..t }
    } else {
        Trace { dropped: t.dropped.wrapping_add(1), ..t }
    }
}

/// The event that has waited longest is taken.
pub open spec fn taken(t: Trace) -> Trace {
    if t.waiting.len() == 0 {
        t
    } else {
        Trace { waiting: t.waiting.skip(1), ..t }
    }
}

/// An event that was taken was written, or could not be.
pub open spec fn written(t: Trace, ok: bool) -> Trace {
    if ok {
        Trace { emitted: t.emitted.wrapping_add(1), ..t }
    } else {
        t
    }
}

impl Tracer {
    fn to(destination: Destination) -> (r: Tracer)
        ensures
            r@ == (Trace { waiting: Seq::empty(), running: true, dropped: 0, emitted: 0 }),
            r.destination == destination,
    {
        let r = Tracer { destination, queue: Vec::new(), running: true, dropped: 0, emitted: 0 };
        proof {
            assert(r@.waiting =~= Seq::empty());
        }
        r
    }

    /// A tracer that writes to standard output.
    pub fn new_console() -> (r: Tracer)
        ensures
            r@ == (Trace { waiting: Seq::empty(), running: true, dropped: 0, emitted: 0 }),
            r.destination is Stdout,
    {
        Tracer::to(Destination::Stdout)
    }

    /// A tracer that writes to a file.
    pub fn new_file(path: String) -> (r: Tracer)
        ensures
            r@ == (Trace { waiting: Seq::empty(), running: true, dropped: 0, emitted: 0 }),
            r.destination == Destination::File(path),
    {
        Tracer::to(Destination::File(path))
    }

    /// Offers an event.
    pub fn record(&mut self, event: Event)
        ensures
            final(self)@ == offered(old(self)@, event),
            final(self).destination == old(self).destination,
    {
        if self.running && self.queue.len() < CHANNEL_CAPACITY {
            self.queue.push(event);
        } else {
            self.dropped = self.dropped.wrapping_add(1);
        }
    }

    /// Offers a span.
    pub fn record_span(
        &mut self,
        effect: Option<Effect>,
        site: Span,
        name: &'static str,
        fn_name: Option<String>,
        duration_us: u64,
        outcome: Outcome,
    )
        ensures
            final(self)@ == offered(
                old(self)@,
                Event::Span(SpanRecord { effect, site, name, fn_name, duration_us, outcome }),
            ),
            final(self).destination == old(self).destination,
    {
        self.record(
            Event::Span(SpanRecord { effect, site, name, fn_name, duration_us, outcome }),
        );
    }

    /// Takes the event that has waited longest, to be written.
    pub fn next_event(&mut self) -> (r: Option<Event>)
        ensures
            final(self)@ == taken(old(self)@),
            final(self).destination == old(self).destination,
            match r {
                Some(e) => old(self)@.waiting.len() > 0 && e == old(self)@.waiting[0],
                None => old(self)@.waiting.len() == 0,
            },
    {
        if self.queue.len() == 0 {
            return None;
        }
        let e = self.queue.remove(0);
        proof {
            assert(self.queue@ =~= old(self)@.waiting.skip(1));
        }
        Some(e)
    }

    /// Notes whether an event that was taken could be written.
    pub fn wrote(&mut self, ok: bool)
        ensures
            final(self)@ == written(old(self)@, ok),
            final(self).destination == old(self).destination,
    {
        if ok {
            self.emitted = self.emitted.wrapping_add(1);
        }
    }

    /// Notes that nothing writes events any more.
    pub fn exporter_exited(&mut self)
        ensures
            final(self)@ == (Trace { running: false, ..old(self)@ }),
            final(self).destination == old(self).destination,
    {
        self.running = false;
    }

    /// How many events were given up, for want of room or of something to write them.
    pub fn dropped_count(&self) -> (r: u64)
        ensures
            r == self@.dropped,
    {
        self.dropped
    }

    /// How many events were written.
    pub fn emitted_count(&self) -> (r: u64)
        ensures
            r == self@.emitted,
    {
        self.emitted
    }
}

/// What happens to a tracer.
pub enum Turn {
    Offer(Event),
    Take,
    Wrote(bool),
    Exit,
}

/// A tracer after a number of turns.
pub open spec fn after_turns(t: Trace, turns: Seq<Turn>) -> Trace
    decreases turns.len(),
{
    if turns.len() == 0 {
        t
    } else {
        let before = after_turns(t, turns.drop_last());
        match turns.last() {
            Turn::Offer(e) => offered(before, e),
            Turn::Take => taken(before),
            Turn::Wrote(ok) => written(before, ok),
            Turn::Exit => Trace { running: false, ..before },
        }
    }
}

/// How many events were offered.
pub open spec fn offers(turns: Seq<Turn>) -> nat
    decreases turns.len(),
{
    if turns.len() == 0 {
        0
    } else {
        offers(turns.drop_last()) + if turns.last() is Offer {
            1nat
        } else {
            0nat
        }
    }
}

/// How many events were taken.
pub open spec fn takes(t: Trace, turns: Seq<Turn>) -> nat
    decreases turns.len(),
{
    if turns.len() == 0 {
        0
    } else {
        let before = turns.drop_last();
        takes(t, before) + if turns.last() is Take && after_turns(t, before).waiting.len() > 0 {
            1nat
        } else {
            0nat
        }
    }
}

/// How many events were written.
pub open spec fn writes(turns: Seq<Turn>) -> nat
    decreases turns.len(),
{
    if turns.len() == 0 {
        0
    } else {
        writes(turns.drop_last()) + if turns.last() == Turn::Wrote(true) {
            1nat
        } else {
            0nat
        }
    }
}

/// The queue stays within its bound, every event offered is waiting, taken or counted
/// as given up, and those counted as emitted are those that were written.
pub proof fn no_event_is_lost_track_of(t: Trace, turns: Seq<Turn>)
    requires
        t.waiting.len() == 0,
        t.dropped == 0,
        t.emitted == 0,
        offers(turns) < u64::MAX,
        writes(turns) < u64::MAX,
    ensures
        fits_queue(after_turns(t, turns)),
        after_turns(t, turns).waiting.len() + after_turns(t, turns).dropped + takes(t, turns)
            == offers(turns),
        after_turns(t, turns).emitted == writes(turns),
    decreases turns.len(),
{
    if turns.len() > 0 {
        no_event_is_lost_track_of(t, turns.drop_last());
    }
}

/// Behind an exporter that has exited every event is given up.
pub proof fn nothing_waits_in_vain(t: Trace, e: Event)
    requires
        !t.running,
        t.dropped < u64::MAX,
    ensures
        offered(t, e).waiting == t.waiting,
        offered(t, e).dropped == t.dropped + 1,
{
}

/// Spans of two errors of one kind tell nothing apart but the kind.
pub proof fn messages_are_not_traced(a: Seq<char>, b: Seq<char>)
    ensures
        kind_text(SErrorKind::ChannelIoError { message: a }) == kind_text(
            SErrorKind::ChannelIoError { message: b },
        ),
        kind_text(SErrorKind::SandboxSpawnFailed { message: a }) == kind_text(
            SErrorKind::SandboxSpawnFailed { message: b },
        ),
        kind_text(SErrorKind::ThreadPanicked { message: a }) == kind_text(
            SErrorKind::ThreadPanicked { message: b },
        ),
{
}

} // verus!
