//! Channels, and how values and texts travel over streams of bytes.
use crate::builtin_eval::{to_unsigned, unsigned};
use crate::text::{cat2, dec, dec_u64};
use crate::value::{
    SValue, Value, values_view,
};
use vstd::prelude::*;
use vstd::string::*;
use vstd::utf8::{decode_utf8, valid_utf8};

verus! {

/// The lowest `n` bytes of a number, the lowest first.
pub open spec fn low_bytes(v: nat, n: nat) -> Seq<u8>
    decreases n,
{
    if n == 0 {
        Seq::empty()
    } else {
        seq![(v % 256) as u8] + low_bytes(v / 256, (n - 1) as nat)
    }
}

/// The number that bytes stand for, the lowest first.
pub open spec fn from_bytes(s: Seq<u8>) -> nat
    decreases s.len(),
{
    if s.len() == 0 {
        0
    } else {
        s[0] as nat + 256 * from_bytes(s.skip(1))
    }
}

/// The integer that 64 bits stand for.
pub open spec fn signed(v: nat) -> int {
    if v <= i64::MAX {
        v as int
    } else {
        v - 0x1_0000_0000_0000_0000
    }
}

/// A value on the way to another process: a tag, then eight bytes of an integer or
/// one of a truth value. Other values do not travel.
pub open spec fn frame(v: SValue) -> Option<Seq<u8>> {
    match v {
        SValue::Int(n) => Some(seq![0u8] + low_bytes(unsigned(n) as nat, 8)),
        SValue::Bool(b) => Some(
            seq![
                1u8,
                if b {
                    1u8
                } else {
                    0u8
                },
            ],
        ),
        _ => None,
    }
}

/// What the bytes that have arrived come to.
pub ghost enum SArrival {
    /// A value, and how many bytes it took.
    Value(SValue, nat),
    /// So many bytes are missing.
    More(nat),
    Corrupt(Seq<char>),
}

pub open spec fn arrival(s: Seq<u8>) -> SArrival {
    if s.len() == 0 {
        SArrival::More(1)
    } else if s[0] == 0 {
        if s.len() < 9 {
            SArrival::More((9 - s.len()) as nat)
        } else {
            SArrival::Value(SValue::Int(signed(from_bytes(s.subrange(1, 9))) as i64), 9)
        }
    } else if s[0] == 1 {
        if s.len() < 2 {
            SArrival::More(1)
        } else {
            SArrival::Value(SValue::Bool(s[1] != 0), 2)
        }
    } else {
        SArrival::Corrupt("corrupt sandbox channel wire tag "@ + dec(s[0] as int))
    }
}

/// What the bytes that have arrived come to.
#[derive(Debug)]
pub enum Arrival {
    Value(Value, usize),
    More(usize),
    Corrupt(String),
}

impl View for Arrival {
    type V = SArrival;

    open spec fn view(&self) -> SArrival {
        match *self {
            Arrival::Value(v, n) => SArrival::Value(v@, n as nat),
            Arrival::More(n) => SArrival::More(n as nat),
            Arrival::Corrupt(m) => SArrival::Corrupt(m@),
        }
    }
}

proof fn low_bytes_len(v: nat, n: nat)
    ensures
        low_bytes(v, n).len() == n,
    decreases n,
{
    if n > 0 {
        low_bytes_len(v / 256, (n - 1) as nat);
    }
}

pub open spec fn pow256(n: nat) -> nat
    decreases n,
{
    if n == 0 {
        1
    } else {
        256 * pow256((n - 1) as nat)
    }
}

proof fn bytes_come_back(v: nat, n: nat)
    requires
        v < pow256(n),
    ensures
        from_bytes(low_bytes(v, n)) == v,
    decreases n,
{
    if n > 0 {
        let rest = low_bytes(v / 256, (n - 1) as nat);
        assert(v / 256 < pow256((n - 1) as nat)) by (nonlinear_arith)
            requires
                v < 256 * pow256((n - 1) as nat),
        ;
        bytes_come_back(v / 256, (n - 1) as nat);
        assert(low_bytes(v, n).skip(1) =~= rest);
        assert(low_bytes(v, n)[0] as nat == v % 256);
    }
}

proof fn eight_bytes()
    ensures
        pow256(8) == 0x1_0000_0000_0000_0000,
{
    reveal_with_fuel(pow256, 9);
}

/// The bytes of a value that travels; none for any other value.
pub fn write_value(v: &Value) -> (r: Option<Vec<u8>>)
    ensures
        match r {
            Some(b) => frame(v@) == Some(b@),
            None => frame(v@) is None,
        },
{
    match v {
        Value::Int(n) => {
            let mut out: Vec<u8> = Vec::new();
            out.push(0);
            let ghost all = low_bytes(unsigned(*n) as nat, 8);
            let mut left: u64 = to_unsigned(*n);
            let mut i: usize = 0;
            proof {
                assert(out@ =~= seq![0u8]);
                assert(seq![0u8] + all =~= out@ + low_bytes(left as nat, 8));
            }
            while i < 8
                invariant
                    i <= 8,
                    seq![0u8] + all == out@ + low_bytes(left as nat, (8 - i) as nat),
                decreases 8 - i,
            {
                let b: u8 = (left % 256) as u8;
                let ghost before = out@;
                out.push(b);
                proof {
                    assert(out@ + low_bytes((left / 256) as nat, (8 - i - 1) as nat) =~= before
                        + low_bytes(left as nat, (8 - i) as nat));
                }
                left = left / 256;
                i = i + 1;
            }
            proof {
                assert(low_bytes(left as nat, 0).len() == 0);
                assert(out@ =~= seq![0u8] + all);
            }
            Some(out)
        }
        Value::Bool(b) => {
            let mut out: Vec<u8> = Vec::new();
            out.push(1);
            out.push(
                if *b {
                    1
                } else {
                    0
                },
            );
            proof {
                assert(out@ =~= frame(v@)->0);
            }
            Some(out)
        }
        _ => None,
    }
}

proof fn from_bytes_bound(s: Seq<u8>)
    ensures
        from_bytes(s) < pow256(s.len()),
    decreases s.len(),
{
    if s.len() > 0 {
        from_bytes_bound(s.skip(1));
    }
}

fn to_signed(v: u64) -> (r: i64)
    ensures
        r == signed(v as nat),
{
    if v <= i64::MAX as u64 {
        v as i64
    } else {
        ((v - 0x8000_0000_0000_0000) as i64 - i64::MAX) - 1
    }
}

/// The number that the eight bytes from `from` on stand for.
fn read_number(s: &[u8], from: usize) -> (r: u64)
    requires
        from + 8 <= s@.len(),
    ensures
        r as nat == from_bytes(s@.subrange(from as int, from + 8)),
{
    let mut v: u64 = 0;
    let mut i: usize = 8;
    let len: usize = s.len();
    let ghost all = s@.subrange(from as int, from + 8);
    proof {
        assert(all.skip(8).len() == 0);
        eight_bytes();
    }
    while i > 0
        invariant
            i <= 8,
            len == s@.len(),
            from + 8 <= len,
            all == s@.subrange(from as int, from + 8),
            v as nat == from_bytes(all.skip(i as int)),
            pow256(8) == 0x1_0000_0000_0000_0000,
        decreases i,
    {
        i = i - 1;
        proof {
            assert(all.skip(i as int).skip(1) =~= all.skip(i + 1));
            assert(all.skip(i as int)[0] == s@[from + i]);
            from_bytes_bound(all.skip(i as int));
            pow256_grows((8 - i) as nat, 8);
        }
        v = v * 256 + s[from + i] as u64;
    }
    proof {
        assert(all.skip(0) =~= all);
    }
    v
}

proof fn pow256_grows(a: nat, b: nat)
    requires
        a <= b,
    ensures
        pow256(a) <= pow256(b),
    decreases b,
{
    if a < b {
        pow256_grows(a, (b - 1) as nat);
    }
}

/// Reads a value off the front of the bytes that have arrived.
pub fn read_value(s: &[u8]) -> (r: Arrival)
    ensures
        r@ == arrival(s@),
{
    if s.len() == 0 {
        return Arrival::More(1);
    }
    if s[0] == 0 {
        if s.len() < 9 {
            return Arrival::More(9 - s.len());
        }
        let n = read_number(s, 1);
        Arrival::Value(Value::Int(to_signed(n)), 9)
    } else if s[0] == 1 {
        if s.len() < 2 {
            return Arrival::More(1);
        }
        Arrival::Value(Value::Bool(s[1] != 0), 2)
    } else {
        let d = dec_u64(s[0] as u64);
        Arrival::Corrupt(cat2("corrupt sandbox channel wire tag ", d.as_str()))
    }
}

/// What a value is written as is read as that value, whatever follows it.
pub proof fn values_travel(v: SValue, rest: Seq<u8>)
    requires
        frame(v) is Some,
    ensures
        arrival(frame(v)->0 + rest) == SArrival::Value(v, (frame(v)->0).len()),
{
    let s = frame(v)->0 + rest;
    match v {
        SValue::Int(n) => {
            let u = unsigned(n) as nat;
            low_bytes_len(u, 8);
            eight_bytes();
            bytes_come_back(u, 8);
            assert(s.subrange(1, 9) =~= low_bytes(u, 8));
            assert(s[0] == 0);
        }
        SValue::Bool(_) => {
            assert(s[0] == 1);
        }
        _ => {}
    }
}

/// No value is read from a part of what it is written as.
pub proof fn parts_are_no_values(v: SValue, n: int)
    requires
        frame(v) is Some,
        0 <= n < (frame(v)->0).len(),
    ensures
        arrival((frame(v)->0).take(n)) is More,
{
    match v {
        SValue::Int(k) => {
            low_bytes_len(unsigned(k) as nat, 8);
            if n > 0 {
                assert((frame(v)->0).take(n)[0] == 0);
            }
        }
        _ => {
            if n > 0 {
                assert((frame(v)->0).take(n)[0] == 1);
            }
        }
    }
}

/// `String::from_utf8`: the text of bytes that are UTF-8, none for any others.
#[verifier::external_body]
pub(crate) fn text_from(bytes: Vec<u8>) -> (r: Option<String>)
    ensures
        match r {
            Some(s) => valid_utf8(bytes@) && s@ == decode_utf8(bytes@),
            None => !valid_utf8(bytes@),
        },
{
    String::from_utf8(bytes).ok()
}

/// The text of one chunk that arrived on a connection. The end of the connection is
/// an error.
pub fn read_tcp(chunk: Vec<u8>) -> (r: Result<String, String>)
    ensures
        match r {
            Ok(s) => chunk@.len() > 0 && valid_utf8(chunk@) && s@ == decode_utf8(chunk@),
            Err(m) => if chunk@.len() == 0 {
                m@ == "the tcp connection was closed by the peer"@
            } else {
                !valid_utf8(chunk@) && m@
                    == "tcp connection received bytes that were not valid UTF-8"@
            },
        },
{
    if chunk.len() == 0 {
        return Err("the tcp connection was closed by the peer".to_owned());
    }
    match text_from(chunk) {
        Some(s) => Ok(s),
        None => Err("tcp connection received bytes that were not valid UTF-8".to_owned()),
    }
}

/// The text of one chunk of a file. The end of the file is an empty text.
pub fn read_file(chunk: Vec<u8>) -> (r: Result<String, String>)
    ensures
        match r {
            Ok(s) => valid_utf8(chunk@) && s@ == decode_utf8(chunk@),
            Err(m) => !valid_utf8(chunk@) && m@ == "file contained bytes that were not valid UTF-8"@,
        },
{
    match text_from(chunk) {
        Some(s) => Ok(s),
        None => Err("file contained bytes that were not valid UTF-8".to_owned()),
    }
}

/// How the messages of a channel travel.
#[derive(Debug)]
pub enum TransportState {
    /// Within the process, in order.
    InMemory(Vec<Value>),
    /// Over a socket at this path, which nobody has connected to yet.
    PendingListener(String),
    Socket,
}

pub ghost enum STransport {
    InMemory(Seq<SValue>),
    PendingListener(Seq<char>),
    Socket,
}

impl View for TransportState {
    type V = STransport;

    open spec fn view(&self) -> STransport {
        match *self {
            TransportState::InMemory(q) => STransport::InMemory(values_view(q@)),
            TransportState::PendingListener(p) => STransport::PendingListener(p@),
            TransportState::Socket => STransport::Socket,
        }
    }
}

/// A channel.
#[derive(Debug)]
pub struct ChannelInner {
    pub state: TransportState,
}

/// What sending takes.
#[derive(Debug)]
pub enum SendStep {
    /// The message is in the queue.
    Queued,
    /// The other side has to connect first, and the message to be sent again.
    Connect(Value),
    /// These bytes are to be written.
    Write(Vec<u8>),
    /// The message does not travel.
    Stuck,
}

/// What receiving takes.
#[derive(Debug)]
pub enum RecvStep {
    Got(Value),
    /// There is no message yet.
    Wait,
    /// The other side has to connect first.
    Connect,
    /// A message is to be read from the socket.
    Read,
}

/// Why a channel cannot be handed to another process.
pub open spec fn not_movable(t: STransport) -> Option<Seq<char>> {
    match t {
        STransport::InMemory(q) => if q.len() == 0 {
            None
        } else {
            Some(
                "a `chan` with already-queued messages can't be passed to `sandbox` yet (SANDBOXING.md layer 2 only supports channels created fresh for the sandbox)"@,
            )
        },
        _ => Some(
            "this `chan` was already passed to a `sandbox` once — a channel can only cross into one sandboxed process"@,
        ),
    }
}

/// A queue with one more message.
pub open spec fn pushed(q: Seq<SValue>, v: SValue) -> Seq<SValue> {
    q.push(v)
}

/// A queue without the message that has waited longest.
pub open spec fn popped(q: Seq<SValue>) -> Seq<SValue> {
    q.skip(1)
}

impl ChannelInner {
    pub fn new() -> (r: ChannelInner)
        ensures
            r.state@ == STransport::InMemory(Seq::empty()),
    {
        let q: Vec<Value> = Vec::new();
        proof {
            assert(values_view(q@) =~= Seq::<SValue>::empty());
        }
        ChannelInner { state: TransportState::InMemory(q) }
    }

    /// A channel over a socket that is connected.
    pub fn from_socket() -> (r: ChannelInner)
        ensures
            r.state@ == STransport::Socket,
    {
        ChannelInner { state: TransportState::Socket }
    }

    /// Whether the channel can be handed to another process, over a socket that is
    /// about to be bound.
    pub fn can_prepare(&self) -> (r: Result<(), String>)
        ensures
            match r {
                Ok(_) => not_movable(self.state@) is None,
                Err(m) => not_movable(self.state@) == Some(m@),
            },
    {
        match &self.state {
            TransportState::InMemory(q) => {
                proof {
                    assert(values_view(q@).len() == q@.len());
                }
                if q.len() == 0 {
                    Ok(())
                } else {
                    Err(
                        "a `chan` with already-queued messages can't be passed to `sandbox` yet (SANDBOXING.md layer 2 only supports channels created fresh for the sandbox)".to_owned(),
                    )
                }
            }
            _ => Err(
                "this `chan` was already passed to a `sandbox` once — a channel can only cross into one sandboxed process".to_owned(),
            ),
        }
    }

    /// Hands the channel to another process, over a socket that is bound at `path`.
    pub fn prepare_for_sandbox(&mut self, path: String) -> (r: Result<(), String>)
        ensures
            match r {
                Ok(_) => not_movable(old(self).state@) is None && final(self).state@
                    == STransport::PendingListener(path@),
                Err(m) => not_movable(old(self).state@) == Some(m@) && final(self).state@ == old(
                    self,
                ).state@,
            },
    {
        self.can_prepare()?;
        self.state = TransportState::PendingListener(path);
        Ok(())
    }

    /// Notes that the other side has connected. The path of the socket is not
    /// needed any more.
    pub fn connected(&mut self) -> (r: Option<String>)
        ensures
            match old(self).state@ {
                STransport::PendingListener(p) => final(self).state@ == STransport::Socket && (
                r matches Some(q) && q@ == p),
                s => final(self).state@ == s && r is None,
            },
    {
        match &self.state {
            TransportState::PendingListener(p) => {
                let path = p.clone();
                self.state = TransportState::Socket;
                Some(path)
            }
            _ => None,
        }
    }

    /// The path of a socket that nobody connected to, which is left when the channel
    /// goes.
    pub fn leftover(&self) -> (r: Option<String>)
        ensures
            match self.state@ {
                STransport::PendingListener(p) => r matches Some(q) && q@ == p,
                _ => r is None,
            },
    {
        match &self.state {
            TransportState::PendingListener(p) => Some(p.clone()),
            _ => None,
        }
    }

    pub fn send(&mut self, v: Value) -> (r: SendStep)
        ensures
            match old(self).state@ {
                STransport::InMemory(q) => r is Queued && final(self).state@
                    == STransport::InMemory(pushed(q, v@)),
                STransport::PendingListener(p) => final(self).state@
                    == STransport::PendingListener(p) && (r matches SendStep::Connect(w) && w@
                    == v@),
                STransport::Socket => final(self).state@ == STransport::Socket && match frame(v@) {
                    Some(b) => r matches SendStep::Write(w) && w@ == b,
                    None => r is Stuck,
                },
            },
    {
        match &mut self.state {
            TransportState::InMemory(q) => {
                let ghost before = q@;
                let ghost vv = v@;
                q.push(v);
                proof {
                    assert(values_view(q@) =~= values_view(before).push(vv));
                }
                SendStep::Queued
            }
            TransportState::PendingListener(_) => SendStep::Connect(v),
            TransportState::Socket => match write_value(&v) {
                Some(b) => SendStep::Write(b),
                None => SendStep::Stuck,
            },
        }
    }

    pub fn recv(&mut self) -> (r: RecvStep)
        ensures
            match old(self).state@ {
                STransport::InMemory(q) => if q.len() == 0 {
                    r is Wait && final(self).state@ == STransport::InMemory(q)
                } else {
                    (r matches RecvStep::Got(v) && v@ == q[0]) && final(self).state@
                        == STransport::InMemory(popped(q))
                },
                STransport::PendingListener(p) => r is Connect && final(self).state@
                    == STransport::PendingListener(p),
                STransport::Socket => r is Read && final(self).state@ == STransport::Socket,
            },
    {
        match &mut self.state {
            TransportState::InMemory(q) => {
                let ghost before = q@;
                proof {
                    assert(values_view(before).len() == before.len());
                }
                if q.len() == 0 {
                    return RecvStep::Wait;
                }
                let v = q.remove(0);
                proof {
                    assert(values_view(q@) =~= values_view(before).skip(1));
                }
                RecvStep::Got(v)
            }
            TransportState::PendingListener(_) => RecvStep::Connect,
            TransportState::Socket => RecvStep::Read,
        }
    }
}

/// A use of a channel within the process.
pub ghost enum Use {
    Send(SValue),
    Recv,
}

/// What a channel within the process holds, and what went in and came out so far.
pub ghost struct History {
    pub queue: Seq<SValue>,
    pub sent: Seq<SValue>,
    pub received: Seq<SValue>,
}

/// A channel after a number of uses, each as `send` and `recv` have it.
pub open spec fn after_uses(uses: Seq<Use>) -> History
    decreases uses.len(),
{
    if uses.len() == 0 {
        History { queue: Seq::empty(), sent: Seq::empty(), received: Seq::empty() }
    } else {
        let h = after_uses(uses.drop_last());
        match uses.last() {
            Use::Send(v) => History { queue: pushed(h.queue, v), sent: h.sent.push(v), ..h },
            Use::Recv => if h.queue.len() == 0 {
                h
            } else {
                History {
                    queue: popped(h.queue),
                    received: h.received.push(h.queue[0]),
                    ..h
                }
            },
        }
    }
}

/// Messages come out in the order in which they went in, none is lost and none is
/// made up: what came out, and then what is in the queue, is what went in.
pub proof fn channels_keep_order(uses: Seq<Use>)
    ensures
        after_uses(uses).received + after_uses(uses).queue == after_uses(uses).sent,
    decreases uses.len(),
{
    let h = after_uses(uses);
    if uses.len() == 0 {
        assert(h.received + h.queue =~= h.sent);
    } else {
        let g = after_uses(uses.drop_last());
        channels_keep_order(uses.drop_last());
        match uses.last() {
            Use::Send(v) => {
                assert(h.received + h.queue =~= (g.received + g.queue).push(v));
            }
            Use::Recv => {
                if g.queue.len() > 0 {
                    assert(h.received + h.queue =~= g.received + g.queue);
                }
            }
        }
    }
}

/// A channel that was handed to another process cannot be handed to one again.
pub proof fn channels_cross_once(path: Seq<char>)
    ensures
        not_movable(STransport::PendingListener(path)) is Some,
        not_movable(STransport::Socket) is Some,
{
}

/// What is said where the other process ends before it sends a value.
pub fn closed_early() -> (r: &'static str)
    ensures
        r@ == "the sandboxed process closed this channel (exited or was killed) before sending a value"@,
{
    "the sandboxed process closed this channel (exited or was killed) before sending a value"
}

} // verus!
