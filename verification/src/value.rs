//! Run-time values and errors.
use crate::scopes::Duplicate;
use crate::text::{cat2, cat3, cat4, cat5, dec, dec_i64, dec_usize, same};
use crate::token::Span;
use vstd::prelude::*;
use vstd::string::*;

verus! {

/// A value. A floating-point number is held as its IEEE 754 bits. A thread, a
/// channel, a process, a socket or a file is held as the number under which
/// the surroundings keep it.
#[derive(Debug)]
pub enum Value {
    Int(i64),
    Float(u64),
    Bool(bool),
    Unit,
    Str(String),
    Vector(Vec<Value>),
    /// Row-major: element `(i, j)` is number `i * cols + j`.
    Matrix(Vec<Value>, usize, usize),
    Boxed(Box<Value>),
    Ref(Box<Value>),
    Thread(u64),
    Channel(u64),
    Sandbox(u64),
    Tcp(u64),
    TcpListener(u64),
    File(u64),
    /// The name of the struct and its fields in the order of declaration.
    Struct(String, Vec<Value>),
    /// The name of the enum, the variant and its payload.
    Enum(String, String, Vec<Value>),
}

/// A value, with its text and its parts as sequences.
pub ghost enum SValue {
    Int(i64),
    Float(u64),
    Bool(bool),
    Unit,
    Str(Seq<char>),
    Vector(Seq<SValue>),
    Matrix(Seq<SValue>, usize, usize),
    Boxed(Box<SValue>),
    Ref(Box<SValue>),
    Thread(u64),
    Channel(u64),
    Sandbox(u64),
    Tcp(u64),
    TcpListener(u64),
    File(u64),
    Struct(Seq<char>, Seq<SValue>),
    Enum(Seq<char>, Seq<char>, Seq<SValue>),
}

pub open spec fn value_view(v: Value) -> SValue
    decreases v,
{
    match v {
        Value::Int(n) => SValue::Int(n),
        Value::Float(b) => SValue::Float(b),
        Value::Bool(b) => SValue::Bool(b),
        Value::Unit => SValue::Unit,
        Value::Str(s) => SValue::Str(s@),
        Value::Vector(e) => SValue::Vector(values_view(e@)),
        Value::Matrix(e, r, c) => SValue::Matrix(values_view(e@), r, c),
        Value::Boxed(x) => SValue::Boxed(Box::new(value_view(*x))),
        Value::Ref(x) => SValue::Ref(Box::new(value_view(*x))),
        Value::Thread(h) => SValue::Thread(h),
        Value::Channel(h) => SValue::Channel(h),
        Value::Sandbox(h) => SValue::Sandbox(h),
        Value::Tcp(h) => SValue::Tcp(h),
        Value::TcpListener(h) => SValue::TcpListener(h),
        Value::File(h) => SValue::File(h),
        Value::Struct(n, f) => SValue::Struct(n@, values_view(f@)),
        Value::Enum(n, v, p) => SValue::Enum(n@, v@, values_view(p@)),
    }
}

pub open spec fn values_view(v: Seq<Value>) -> Seq<SValue>
    decreases v,
{
    Seq::new(v.len(), |i: int| if 0 <= i < v.len() { value_view(v[i]) } else { SValue::Unit })
}

impl View for Value {
    type V = SValue;

    open spec fn view(&self) -> SValue {
        value_view(*self)
    }
}

/// What kind of value it is, as error messages say it.
pub open spec fn kind_name(v: SValue) -> Seq<char> {
    match v {
        SValue::Int(_) => "int"@,
        SValue::Float(_) => "f64"@,
        SValue::Vector(_) => "vector"@,
        SValue::Matrix(..) => "matrix"@,
        SValue::Bool(_) => "bool"@,
        SValue::Unit => "unit"@,
        SValue::Boxed(_) => "box"@,
        SValue::Ref(_) => "ref"@,
        SValue::Thread(_) => "thread"@,
        SValue::Channel(_) => "chan"@,
        SValue::Sandbox(_) => "sandbox"@,
        SValue::Str(_) => "str"@,
        SValue::Tcp(_) => "tcp"@,
        SValue::TcpListener(_) => "tcp_listener"@,
        SValue::File(_) => "file"@,
        SValue::Struct(..) => "struct"@,
        SValue::Enum(..) => "enum"@,
    }
}

/// The magnitude of a floating-point number: its bits without the sign.
pub open spec fn magnitude(b: u64) -> u64 {
    b & 0x7FFF_FFFF_FFFF_FFFF
}

pub open spec fn is_nan(b: u64) -> bool {
    magnitude(b) > 0x7FF0_0000_0000_0000
}

/// Where a floating-point number that is not `NaN` stands among the others:
/// IEEE 754 bits without the sign grow with the number.
pub open spec fn float_place(b: u64) -> int {
    if b >= 0x8000_0000_0000_0000 {
        -(magnitude(b) as int)
    } else {
        magnitude(b) as int
    }
}

/// `a == b` on floating-point numbers: `NaN` equals nothing, and the two zeros
/// are equal.
pub open spec fn float_eq(a: u64, b: u64) -> bool {
    !is_nan(a) && !is_nan(b) && float_place(a) == float_place(b)
}

/// `a < b` on floating-point numbers.
pub open spec fn float_lt(a: u64, b: u64) -> bool {
    !is_nan(a) && !is_nan(b) && float_place(a) < float_place(b)
}

/// `-a` on floating-point numbers.
pub open spec fn float_neg(b: u64) -> u64 {
    b ^ 0x8000_0000_0000_0000
}

fn place(b: u64) -> (r: i64)
    ensures
        r == float_place(b),
{
    let m: u64 = b & 0x7FFF_FFFF_FFFF_FFFF;
    proof {
        assert(m <= 0x7FFF_FFFF_FFFF_FFFF) by (bit_vector)
            requires
                m == b & 0x7FFF_FFFF_FFFF_FFFF,
        ;
    }
    if b >= 0x8000_0000_0000_0000 {
        -(m as i64)
    } else {
        m as i64
    }
}

fn nan(b: u64) -> (r: bool)
    ensures
        r == is_nan(b),
{
    (b & 0x7FFF_FFFF_FFFF_FFFF) > 0x7FF0_0000_0000_0000
}

pub fn floats_equal(a: u64, b: u64) -> (r: bool)
    ensures
        r == float_eq(a, b),
{
    !nan(a) && !nan(b) && place(a) == place(b)
}

pub fn float_below(a: u64, b: u64) -> (r: bool)
    ensures
        r == float_lt(a, b),
{
    !nan(a) && !nan(b) && place(a) < place(b)
}

pub fn float_negate(b: u64) -> (r: u64)
    ensures
        r == float_neg(b),
{
    b ^ 0x8000_0000_0000_0000
}

/// Whether two values are equal. A handle equals itself alone, and a file
/// handle nothing.
pub open spec fn equal(a: SValue, b: SValue) -> bool
    decreases a,
{
    match (a, b) {
        (SValue::Int(x), SValue::Int(y)) => x == y,
        (SValue::Float(x), SValue::Float(y)) => float_eq(x, y),
        (SValue::Vector(x), SValue::Vector(y)) => all_equal(x, y),
        (SValue::Matrix(x, r, c), SValue::Matrix(y, s, d)) => r == s && c == d && all_equal(x, y),
        (SValue::Bool(x), SValue::Bool(y)) => x == y,
        (SValue::Unit, SValue::Unit) => true,
        (SValue::Boxed(x), SValue::Boxed(y)) => equal(*x, *y),
        (SValue::Ref(x), SValue::Ref(y)) => equal(*x, *y),
        (SValue::Thread(x), SValue::Thread(y)) => x == y,
        (SValue::Channel(x), SValue::Channel(y)) => x == y,
        (SValue::Sandbox(x), SValue::Sandbox(y)) => x == y,
        (SValue::Str(x), SValue::Str(y)) => x == y,
        (SValue::Tcp(x), SValue::Tcp(y)) => x == y,
        (SValue::TcpListener(x), SValue::TcpListener(y)) => x == y,
        (SValue::Struct(n, x), SValue::Struct(m, y)) => n == m && all_equal(x, y),
        (SValue::Enum(n, v, x), SValue::Enum(m, w, y)) => n == m && v == w && all_equal(x, y),
        _ => false,
    }
}

/// Whether two sequences have the same length and equal values throughout.
pub open spec fn all_equal(a: Seq<SValue>, b: Seq<SValue>) -> bool
    decreases a,
{
    a.len() == b.len() && forall|i: int| 0 <= i < a.len() ==> equal(#[trigger] a[i], b[i])
}

/// A part of a printed line: text, or a number that is still to be printed.
#[derive(Debug)]
pub enum Piece {
    Text(String),
    Float(u64),
}

pub ghost enum SPiece {
    Text(Seq<char>),
    Float(u64),
}

impl View for Piece {
    type V = SPiece;

    open spec fn view(&self) -> SPiece {
        match *self {
            Piece::Text(s) => SPiece::Text(s@),
            Piece::Float(b) => SPiece::Float(b),
        }
    }
}

pub open spec fn pieces_view(v: Seq<Piece>) -> Seq<SPiece> {
    Seq::new(v.len(), |i: int| v[i]@)
}

/// How values are printed one after another, with `sep` between them.
pub open spec fn shown_all(v: Seq<SValue>, sep: Seq<char>) -> Seq<SPiece>
    decreases v,
{
    if v.len() == 0 {
        Seq::empty()
    } else if v.len() == 1 {
        shown(v[0])
    } else {
        shown_all(v.drop_last(), sep).push(SPiece::Text(sep)) + shown(v.last())
    }
}

/// The rows from the first to row `n` of a matrix, each in brackets.
pub open spec fn shown_rows(v: Seq<SValue>, cols: nat, n: nat) -> Seq<SPiece>
    decreases v, n,
{
    if n == 0 || v.len() < n * cols {
        Seq::empty()
    } else {
        let head = shown_rows(v, cols, (n - 1) as nat);
        let gap = if n == 1 {
            head
        } else {
            head.push(SPiece::Text(", "@))
        };
        gap.push(SPiece::Text("["@)) + shown_part(v, (n - 1) * cols as int, n * cols as int)
            + seq![SPiece::Text("]"@)]
    }
}

/// The elements from `a` up to `b`, with commas between them.
pub open spec fn shown_part(v: Seq<SValue>, a: int, b: int) -> Seq<SPiece>
    decreases v, 0nat, b - a,
{
    if a < 0 || b > v.len() || b <= a {
        Seq::empty()
    } else if b == a + 1 {
        shown(v[a])
    } else {
        shown_part(v, a, b - 1).push(SPiece::Text(", "@)) + shown(v[b - 1])
    }
}

/// How a value is printed.
pub open spec fn shown(v: SValue) -> Seq<SPiece>
    decreases v,
{
    match v {
        SValue::Int(n) => seq![SPiece::Text(dec(n as int))],
        SValue::Float(b) => seq![SPiece::Float(b)],
        SValue::Vector(e) => seq![SPiece::Text("["@)] + shown_all(e, ", "@) + seq![
            SPiece::Text("]"@),
        ],
        SValue::Matrix(e, r, c) => seq![SPiece::Text("["@)] + shown_rows(e, c as nat, r as nat)
            + seq![SPiece::Text("]"@)],
        SValue::Bool(b) => seq![SPiece::Text(if b { "true"@ } else { "false"@ })],
        SValue::Unit => seq![SPiece::Text("()"@)],
        SValue::Boxed(x) => seq![SPiece::Text("box("@)] + shown(*x) + seq![SPiece::Text(")"@)],
        SValue::Ref(x) => seq![SPiece::Text("&"@)] + shown(*x),
        SValue::Thread(_) => seq![SPiece::Text("thread(..)"@)],
        SValue::Channel(_) => seq![SPiece::Text("chan(..)"@)],
        SValue::Sandbox(_) => seq![SPiece::Text("sandbox(..)"@)],
        SValue::Str(s) => seq![SPiece::Text(s)],
        SValue::Tcp(_) => seq![SPiece::Text("tcp(..)"@)],
        SValue::TcpListener(_) => seq![SPiece::Text("tcp_listener(..)"@)],
        SValue::File(_) => seq![SPiece::Text("file(..)"@)],
        SValue::Struct(n, f) => seq![SPiece::Text(n), SPiece::Text("("@)] + shown_all(f, ", "@)
            + seq![SPiece::Text(")"@)],
        SValue::Enum(_, n, p) => seq![SPiece::Text(n), SPiece::Text("("@)] + shown_all(p, ", "@)
            + seq![SPiece::Text(")"@)],
    }
}

fn put(out: &mut Vec<Piece>, text: &str)
    ensures
        pieces_view(final(out)@) == pieces_view(old(out)@).push(SPiece::Text(text@)),
{
    out.push(Piece::Text(text.to_owned()));
    proof {
        assert(pieces_view(out@) =~= pieces_view(old(out)@).push(SPiece::Text(text@)));
    }
}

/// Prints values one after another, with `sep` between them.
pub fn show_all(v: &Vec<Value>, sep: &str, out: &mut Vec<Piece>)
    ensures
        pieces_view(final(out)@) == pieces_view(old(out)@) + shown_all(values_view(v@), sep@),
    decreases v,
{
    let ghost start = pieces_view(out@);
    let ghost all = values_view(v@);
    let mut i: usize = 0;
    proof {
        assert(start + Seq::<SPiece>::empty() =~= start);
        assert(all.take(0) =~= Seq::<SValue>::empty());
    }
    while i < v.len()
        invariant
            i <= v@.len(),
            all == values_view(v@),
            pieces_view(out@) == start + shown_all(all.take(i as int), sep@),
        decreases v@.len() - i,
    {
        if i > 0 {
            put(out, sep);
        }
        let ghost mid = pieces_view(out@);
        v[i].show(out);
        proof {
            let t = all.take(i + 1);
            assert(t.drop_last() =~= all.take(i as int));
            assert(t.last() == v@[i as int]@);
            assert(pieces_view(out@) =~= start + shown_all(t, sep@));
        }
        i = i + 1;
    }
    proof {
        assert(all.take(i as int) =~= all);
    }
}

fn show_part(v: &Vec<Value>, a: usize, b: usize, out: &mut Vec<Piece>)
    requires
        a <= b <= v@.len(),
    ensures
        pieces_view(final(out)@) == pieces_view(old(out)@) + shown_part(
            values_view(v@),
            a as int,
            b as int,
        ),
    decreases v, 0nat,
{
    let ghost start = pieces_view(out@);
    let ghost all = values_view(v@);
    let mut i: usize = a;
    proof {
        assert(start + Seq::<SPiece>::empty() =~= start);
    }
    while i < b
        invariant
            a <= i <= b <= v@.len(),
            all == values_view(v@),
            pieces_view(out@) == start + shown_part(all, a as int, i as int),
        decreases b - i,
    {
        if i > a {
            put(out, ", ");
        }
        v[i].show(out);
        proof {
            assert(all[i as int] == v@[i as int]@);
            assert(pieces_view(out@) =~= start + shown_part(all, a as int, i + 1));
        }
        i = i + 1;
    }
}

fn show_rows(v: &Vec<Value>, rows: usize, cols: usize, out: &mut Vec<Piece>)
    ensures
        pieces_view(final(out)@) == pieces_view(old(out)@) + shown_rows(
            values_view(v@),
            cols as nat,
            rows as nat,
        ),
    decreases v, 1nat,
{
    let ghost start = pieces_view(out@);
    let ghost all = values_view(v@);
    proof {
        assert(start + Seq::<SPiece>::empty() =~= start);
        assert(all.len() == v@.len());
    }
    let len: usize = v.len();
    let fits = match rows.checked_mul(cols) {
        Some(n) => n <= len,
        None => false,
    };
    if !fits {
        proof {
            assert(all.len() < rows as nat * cols as nat);
            assert(shown_rows(all, cols as nat, rows as nat) =~= Seq::<SPiece>::empty());
        }
        return;
    }
    let mut n: usize = 0;
    let mut at: usize = 0;
    while n < rows
        invariant
            n <= rows,
            rows * cols <= v@.len(),
            v@.len() == len,
            at == n * cols,
            all == values_view(v@),
            all.len() == v@.len(),
            pieces_view(out@) == start + shown_rows(all, cols as nat, n as nat),
        decreases rows - n,
    {
        proof {
            assert((n + 1) * cols <= rows * cols) by (nonlinear_arith)
                requires
                    n + 1 <= rows,
            ;
            assert((n + 1) * cols == n * cols + cols) by (nonlinear_arith);
        }
        if n > 0 {
            put(out, ", ");
        }
        put(out, "[");
        let ghost mid = pieces_view(out@);
        show_part(v, at, at + cols, out);
        put(out, "]");
        proof {
            let k = (n + 1) as nat;
            assert((k - 1) * cols as int == at);
            assert(k * cols as int == at + cols);
            assert(pieces_view(out@) =~= start + shown_rows(all, cols as nat, k));
        }
        at = at + cols;
        n = n + 1;
    }
}

impl Value {
    /// What kind of value it is, as error messages say it.
    pub fn ty_name(&self) -> (r: &'static str)
        ensures
            r@ == kind_name(self@),
    {
        match self {
            Value::Int(_) => "int",
            Value::Float(_) => "f64",
            Value::Vector(_) => "vector",
            Value::Matrix(..) => "matrix",
            Value::Bool(_) => "bool",
            Value::Unit => "unit",
            Value::Boxed(_) => "box",
            Value::Ref(_) => "ref",
            Value::Thread(_) => "thread",
            Value::Channel(_) => "chan",
            Value::Sandbox(_) => "sandbox",
            Value::Str(_) => "str",
            Value::Tcp(_) => "tcp",
            Value::TcpListener(_) => "tcp_listener",
            Value::File(_) => "file",
            Value::Struct(..) => "struct",
            Value::Enum(..) => "enum",
        }
    }

    fn show(&self, out: &mut Vec<Piece>)
        ensures
            pieces_view(final(out)@) == pieces_view(old(out)@) + shown(self@),
        decreases self,
    {
        let ghost start = pieces_view(out@);
        match self {
            Value::Int(n) => {
                let t = dec_i64(*n);
                put(out, t.as_str());
            }
            Value::Float(b) => {
                out.push(Piece::Float(*b));
            }
            Value::Vector(e) => {
                put(out, "[");
                show_all(e, ", ", out);
                put(out, "]");
            }
            Value::Matrix(e, r, c) => {
                put(out, "[");
                show_rows(e, *r, *c, out);
                put(out, "]");
            }
            Value::Bool(b) => {
                put(
                    out,
                    if *b {
                        "true"
                    } else {
                        "false"
                    },
                );
            }
            Value::Unit => {
                put(out, "()");
            }
            Value::Boxed(x) => {
                put(out, "box(");
                x.show(out);
                put(out, ")");
            }
            Value::Ref(x) => {
                put(out, "&");
                x.show(out);
            }
            Value::Thread(_) => {
                put(out, "thread(..)");
            }
            Value::Channel(_) => {
                put(out, "chan(..)");
            }
            Value::Sandbox(_) => {
                put(out, "sandbox(..)");
            }
            Value::Str(s) => {
                put(out, s.as_str());
            }
            Value::Tcp(_) => {
                put(out, "tcp(..)");
            }
            Value::TcpListener(_) => {
                put(out, "tcp_listener(..)");
            }
            Value::File(_) => {
                put(out, "file(..)");
            }
            Value::Struct(n, f) => {
                put(out, n.as_str());
                put(out, "(");
                show_all(f, ", ", out);
                put(out, ")");
            }
            Value::Enum(_, n, p) => {
                put(out, n.as_str());
                put(out, "(");
                show_all(p, ", ", out);
                put(out, ")");
            }
        }
        proof {
            assert(pieces_view(out@) =~= start + shown(self@));
        }
    }

    /// The value as it is printed.
    pub fn render(&self) -> (r: Vec<Piece>)
        ensures
            pieces_view(r@) == shown(self@),
    {
        let mut out: Vec<Piece> = Vec::new();
        self.show(&mut out);
        proof {
            assert(Seq::<SPiece>::empty() + shown(self@) =~= shown(self@));
            assert(pieces_view(Seq::<Piece>::empty()) =~= Seq::<SPiece>::empty());
        }
        out
    }

    /// Whether two values are equal.
    #[verifier::loop_isolation(false)]
    pub fn equals(&self, other: &Value) -> (r: bool)
        ensures
            r == equal(self@, other@),
        decreases self,
    {
        match (self, other) {
            (Value::Int(x), Value::Int(y)) => *x == *y,
            (Value::Float(x), Value::Float(y)) => floats_equal(*x, *y),
            (Value::Vector(x), Value::Vector(y)) => equal_all(x, y),
            (Value::Matrix(x, r, c), Value::Matrix(y, s, d)) => *r == *s && *c == *d && equal_all(
                x,
                y,
            ),
            (Value::Bool(x), Value::Bool(y)) => *x == *y,
            (Value::Unit, Value::Unit) => true,
            (Value::Boxed(x), Value::Boxed(y)) => x.equals(y),
            (Value::Ref(x), Value::Ref(y)) => x.equals(y),
            (Value::Thread(x), Value::Thread(y)) => *x == *y,
            (Value::Channel(x), Value::Channel(y)) => *x == *y,
            (Value::Sandbox(x), Value::Sandbox(y)) => *x == *y,
            (Value::Str(x), Value::Str(y)) => same(x.as_str(), y.as_str()),
            (Value::Tcp(x), Value::Tcp(y)) => *x == *y,
            (Value::TcpListener(x), Value::TcpListener(y)) => *x == *y,
            (Value::Struct(n, x), Value::Struct(m, y)) => same(n.as_str(), m.as_str())
                && equal_all(x, y),
            (Value::Enum(n, v, x), Value::Enum(m, w, y)) => same(n.as_str(), m.as_str()) && same(
                v.as_str(),
                w.as_str(),
            ) && equal_all(x, y),
            _ => false,
        }
    }
}

fn equal_all(x: &Vec<Value>, y: &Vec<Value>) -> (r: bool)
    ensures
        r == all_equal(values_view(x@), values_view(y@)),
    decreases x,
{
    proof {
        assert(values_view(x@).len() == x@.len());
        assert(values_view(y@).len() == y@.len());
    }
    if x.len() != y.len() {
        return false;
    }
    let mut i: usize = 0;
    while i < x.len()
        invariant
            i <= x@.len(),
            x@.len() == y@.len(),
            forall|j: int|
                0 <= j < i ==> equal(#[trigger] values_view(x@)[j], values_view(y@)[j]),
        decreases x@.len() - i,
    {
        if !x[i].equals(&y[i]) {
            proof {
                assert(!equal(values_view(x@)[i as int], values_view(y@)[i as int]));
            }
            return false;
        }
        i = i + 1;
    }
    true
}

impl Duplicate for Value {
    fn duplicate(&self) -> (r: Self) {
        copy_value(self)
    }
}

pub fn copy_value(v: &Value) -> (r: Value)
    ensures
        r@ == v@,
    decreases v,
{
    match v {
        Value::Int(n) => Value::Int(*n),
        Value::Float(b) => Value::Float(*b),
        Value::Bool(b) => Value::Bool(*b),
        Value::Unit => Value::Unit,
        Value::Str(s) => Value::Str(s.clone()),
        Value::Vector(e) => Value::Vector(copy_values(e)),
        Value::Matrix(e, r, c) => Value::Matrix(copy_values(e), *r, *c),
        Value::Boxed(x) => Value::Boxed(Box::new(copy_value(x))),
        Value::Ref(x) => Value::Ref(Box::new(copy_value(x))),
        Value::Thread(h) => Value::Thread(*h),
        Value::Channel(h) => Value::Channel(*h),
        Value::Sandbox(h) => Value::Sandbox(*h),
        Value::Tcp(h) => Value::Tcp(*h),
        Value::TcpListener(h) => Value::TcpListener(*h),
        Value::File(h) => Value::File(*h),
        Value::Struct(n, f) => Value::Struct(n.clone(), copy_values(f)),
        Value::Enum(n, w, p) => Value::Enum(n.clone(), w.clone(), copy_values(p)),
    }
}

pub fn copy_values(v: &Vec<Value>) -> (r: Vec<Value>)
    ensures
        values_view(r@) == values_view(v@),
    decreases v,
{
    let mut out: Vec<Value> = Vec::new();
    let mut i: usize = 0;
    while i < v.len()
        invariant
            i <= v@.len(),
            out@.len() == i,
            forall|j: int| 0 <= j < i ==> (#[trigger] out@[j])@ == v@[j]@,
        decreases v@.len() - i,
    {
        out.push(copy_value(&v[i]));
        i = i + 1;
    }
    proof {
        assert(values_view(out@) =~= values_view(v@));
    }
    out
}

/// What went wrong in a run.
#[derive(Debug, Clone)]
pub enum ErrorKind {
    UnknownFn(String),
    UnknownVar(String),
    ArityMismatch { fn_name: String, want: usize, got: usize },
    TypeMismatch { expected: String, found: String },
    OutOfRange { ty: String, value: i64 },
    DivByZero,
    MissingReturn { fn_name: String },
    ThreadPanicked { message: String },
    /// A thread was joined a second time.
    AlreadyJoined,
    SandboxSpawnFailed { message: String },
    AlreadySandboxStopped,
    /// Input or output on a channel, a connection or a file failed.
    ChannelIoError { message: String },
    IndexOutOfBounds { index: i64, len: usize },
    SingularMatrix,
    /// A random number was drawn before `rand_seed`.
    RngNotSeeded,
}

#[derive(Debug, Clone)]
pub struct RuntimeError {
    pub kind: ErrorKind,
    pub span: Span,
}

pub ghost enum SErrorKind {
    UnknownFn(Seq<char>),
    UnknownVar(Seq<char>),
    ArityMismatch { fn_name: Seq<char>, want: usize, got: usize },
    TypeMismatch { expected: Seq<char>, found: Seq<char> },
    OutOfRange { ty: Seq<char>, value: i64 },
    DivByZero,
    MissingReturn { fn_name: Seq<char> },
    ThreadPanicked { message: Seq<char> },
    AlreadyJoined,
    SandboxSpawnFailed { message: Seq<char> },
    AlreadySandboxStopped,
    ChannelIoError { message: Seq<char> },
    IndexOutOfBounds { index: i64, len: usize },
    SingularMatrix,
    RngNotSeeded,
}

pub ghost struct SError {
    pub kind: SErrorKind,
    pub span: Span,
}

impl View for ErrorKind {
    type V = SErrorKind;

    open spec fn view(&self) -> SErrorKind {
        match *self {
            ErrorKind::UnknownFn(n) => SErrorKind::UnknownFn(n@),
            ErrorKind::UnknownVar(n) => SErrorKind::UnknownVar(n@),
            ErrorKind::ArityMismatch { fn_name, want, got } => SErrorKind::ArityMismatch {
                fn_name: fn_name@,
                want,
                got,
            },
            ErrorKind::TypeMismatch { expected, found } => SErrorKind::TypeMismatch {
                expected: expected@,
                found: found@,
            },
            ErrorKind::OutOfRange { ty, value } => SErrorKind::OutOfRange { ty: ty@, value },
            ErrorKind::DivByZero => SErrorKind::DivByZero,
            ErrorKind::MissingReturn { fn_name } => SErrorKind::MissingReturn {
                fn_name: fn_name@,
            },
            ErrorKind::ThreadPanicked { message } => SErrorKind::ThreadPanicked {
                message: message@,
            },
            ErrorKind::AlreadyJoined => SErrorKind::AlreadyJoined,
            ErrorKind::SandboxSpawnFailed { message } => SErrorKind::SandboxSpawnFailed {
                message: message@,
            },
            ErrorKind::AlreadySandboxStopped => SErrorKind::AlreadySandboxStopped,
            ErrorKind::ChannelIoError { message } => SErrorKind::ChannelIoError {
                message: message@,
            },
            ErrorKind::IndexOutOfBounds { index, len } => SErrorKind::IndexOutOfBounds {
                index,
                len,
            },
            ErrorKind::SingularMatrix => SErrorKind::SingularMatrix,
            ErrorKind::RngNotSeeded => SErrorKind::RngNotSeeded,
        }
    }
}

impl View for RuntimeError {
    type V = SError;

    open spec fn view(&self) -> SError {
        SError { kind: self.kind@, span: self.span }
    }
}

/// The message for what went wrong, without the position.
pub open spec fn error_text(k: SErrorKind) -> Seq<char> {
    match k {
        SErrorKind::UnknownFn(n) => "unknown function `"@ + n + "`"@,
        SErrorKind::UnknownVar(n) => "unknown variable `"@ + n + "`"@,
        SErrorKind::ArityMismatch { fn_name, want, got } => "`"@ + fn_name + "` expects "@ + dec(
            want as int,
        ) + " argument(s), got "@ + dec(got as int),
        SErrorKind::TypeMismatch { expected, found } => "expected "@ + expected + ", found "@
            + found,
        SErrorKind::OutOfRange { ty, value } => "value "@ + dec(value as int)
            + " does not fit in `"@ + ty
            + "` (Tier-2 checked op — see goal.md §4; not yet proved absent at compile time)"@,
        SErrorKind::DivByZero => "division by zero"@,
        SErrorKind::MissingReturn { fn_name } => "`"@ + fn_name + "` did not return a value"@,
        SErrorKind::ThreadPanicked { message } => "spawned thread panicked: "@ + message,
        SErrorKind::AlreadyJoined => "this thread was already joined"@,
        SErrorKind::SandboxSpawnFailed { message } => "failed to spawn sandbox: "@ + message,
        SErrorKind::AlreadySandboxStopped => "this sandbox was already stopped"@,
        SErrorKind::ChannelIoError { message } => "channel I/O error: "@ + message,
        SErrorKind::IndexOutOfBounds { index, len } => "index "@ + dec(index as int)
            + " out of bounds (length "@ + dec(len as int)
            + ") (Tier-2 checked op — see goal.md §4; not yet proved absent at compile time)"@,
        SErrorKind::SingularMatrix => "matrix is singular"@,
        SErrorKind::RngNotSeeded => "rand_f64/rand_gaussian called before rand_seed"@,
    }
}

impl RuntimeError {
    /// The error as it is shown to the user.
    pub fn to_text(&self) -> (r: String)
        ensures
            r@ == dec(self.span.line as int) + ":"@ + dec(self.span.col as int) + ": "@
                + error_text(self.kind@),
    {
        let what = match &self.kind {
            ErrorKind::UnknownFn(n) => cat3("unknown function `", n.as_str(), "`"),
            ErrorKind::UnknownVar(n) => cat3("unknown variable `", n.as_str(), "`"),
            ErrorKind::ArityMismatch { fn_name, want, got } => {
                let w = dec_usize(*want);
                let g = dec_usize(*got);
                let head = cat5("`", fn_name.as_str(), "` expects ", w.as_str(), " argument(s), got ");
                cat2(head.as_str(), g.as_str())
            }
            ErrorKind::TypeMismatch { expected, found } => cat4(
                "expected ",
                expected.as_str(),
                ", found ",
                found.as_str(),
            ),
            ErrorKind::OutOfRange { ty, value } => {
                let v = dec_i64(*value);
                cat5(
                    "value ",
                    v.as_str(),
                    " does not fit in `",
                    ty.as_str(),
                    "` (Tier-2 checked op — see goal.md §4; not yet proved absent at compile time)",
                )
            }
            ErrorKind::DivByZero => "division by zero".to_owned(),
            ErrorKind::MissingReturn { fn_name } => cat3(
                "`",
                fn_name.as_str(),
                "` did not return a value",
            ),
            ErrorKind::ThreadPanicked { message } => cat2(
                "spawned thread panicked: ",
                message.as_str(),
            ),
            ErrorKind::AlreadyJoined => "this thread was already joined".to_owned(),
            ErrorKind::SandboxSpawnFailed { message } => cat2(
                "failed to spawn sandbox: ",
                message.as_str(),
            ),
            ErrorKind::AlreadySandboxStopped => "this sandbox was already stopped".to_owned(),
            ErrorKind::ChannelIoError { message } => cat2(
                "channel I/O error: ",
                message.as_str(),
            ),
            ErrorKind::IndexOutOfBounds { index, len } => {
                let i = dec_i64(*index);
                let l = dec_usize(*len);
                cat5(
                    "index ",
                    i.as_str(),
                    " out of bounds (length ",
                    l.as_str(),
                    ") (Tier-2 checked op — see goal.md §4; not yet proved absent at compile time)",
                )
            }
            ErrorKind::SingularMatrix => "matrix is singular".to_owned(),
            ErrorKind::RngNotSeeded => {
                "rand_f64/rand_gaussian called before rand_seed".to_owned()
            }
        };
        let line = dec_usize(self.span.line);
        let col = dec_usize(self.span.col);
        cat5(line.as_str(), ":", col.as_str(), ": ", what.as_str())
    }
}

/// A result of evaluation: a value, an error that the program made, or no
/// result at all, which a well-typed program never gets.
pub enum Outcome {
    Val(Value),
    Fail(RuntimeError),
    Stuck,
}

pub ghost enum SOutcome {
    Val(SValue),
    Fail(SError),
    Stuck,
}

impl View for Outcome {
    type V = SOutcome;

    open spec fn view(&self) -> SOutcome {
        match *self {
            Outcome::Val(v) => SOutcome::Val(v@),
            Outcome::Fail(e) => SOutcome::Fail(e@),
            Outcome::Stuck => SOutcome::Stuck,
        }
    }
}

} // verus!
