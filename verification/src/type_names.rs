//! Types and their names: different types have different names, and reading a name
//! gives the type back.
use crate::ast::{name_of, names_of, STy};
use crate::guards::{dec_is_digits, decimals_differ};
use crate::text::dec;
use crate::token::is_word_char;
use vstd::prelude::*;

verus! {

/// Nothing but letters, digits and underscores.
pub open spec fn is_word(w: Seq<char>) -> bool {
    forall|i: int| 0 <= i < w.len() ==> is_word_char(#[trigger] w[i])
}

/// The text is at its end, or goes on with something else than a word.
pub open spec fn cut_off(r: Seq<char>) -> bool {
    r.len() > 0 ==> !is_word_char(r[0])
}

/// The text is at its end, or goes on with what can stand behind a type.
pub open spec fn behind_type(r: Seq<char>) -> bool {
    r.len() > 0 ==> r[0] == ',' || r[0] == ')' || r[0] == '>'
}

/// The words that built-in types begin with.
pub open spec fn is_built(w: Seq<char>) -> bool {
    w == "i8"@ || w == "i16"@ || w == "i32"@ || w == "i64"@ || w == "u8"@ || w == "u16"@ || w
        == "u32"@ || w == "u64"@ || w == "usize"@ || w == "bool"@ || w == "unit"@ || w == "f64"@ || w
        == "str"@ || w == "box"@ || w == "thread"@ || w == "chan"@ || w == "sandbox"@ || w == "tcp"@
        || w == "tcp_listener"@ || w == "file"@ || w == "Vector"@ || w == "Matrix"@
}

/// Every declared type in it is named by a word that names no built-in type.
pub open spec fn properly_named(t: STy) -> bool
    decreases t,
{
    match t {
        STy::Box(x) => properly_named(*x),
        STy::Ref(x) => properly_named(*x),
        STy::Thread(x) => properly_named(*x),
        STy::Channel(x) => properly_named(*x),
        STy::Vector(x, _) => properly_named(*x),
        STy::Matrix(x, _, _) => properly_named(*x),
        STy::Named(n, args) => n.len() > 0 && is_word(n) && !is_built(n) && forall|i: int|
            0 <= i < args.len() ==> properly_named(#[trigger] args[i]),
        _ => true,
    }
}

/// The word that a type begins with.
pub open spec fn first_word(t: STy) -> Seq<char> {
    match t {
        STy::Box(_) => "box"@,
        STy::Thread(_) => "thread"@,
        STy::Channel(_) => "chan"@,
        STy::Vector(..) => "Vector"@,
        STy::Matrix(..) => "Matrix"@,
        STy::Named(n, _) => n,
        STy::Ref(_) | STy::Error => Seq::empty(),
        _ => name_of(t),
    }
}

/// What follows that word.
pub open spec fn behind_word(t: STy) -> Seq<char> {
    match t {
        STy::Box(x) => " "@ + name_of(*x),
        STy::Thread(x) => " "@ + name_of(*x),
        STy::Channel(x) => " "@ + name_of(*x),
        STy::Vector(x, n) => "("@ + name_of(*x) + ", "@ + dec(n as int) + ")"@,
        STy::Matrix(x, r, c) => "("@ + name_of(*x) + ", "@ + dec(r as int) + ", "@ + dec(c as int)
            + ")"@,
        STy::Named(_, args) => if args.len() == 0 {
            Seq::empty()
        } else {
            "<"@ + names_of(args) + ">"@
        },
        STy::Ref(x) => "&"@ + name_of(*x),
        STy::Error => "<error>"@,
        _ => Seq::empty(),
    }
}

/// Which kind of type it is, as a number.
pub open spec fn rank(t: STy) -> int {
    match t {
        STy::I8 => 0,
        STy::I16 => 1,
        STy::I32 => 2,
        STy::I64 => 3,
        STy::U8 => 4,
        STy::U16 => 5,
        STy::U32 => 6,
        STy::U64 => 7,
        STy::Usize => 8,
        STy::Bool => 9,
        STy::Unit => 10,
        STy::F64 => 11,
        STy::Str => 12,
        STy::Box(_) => 13,
        STy::Thread(_) => 14,
        STy::Channel(_) => 15,
        STy::Sandbox => 16,
        STy::Tcp => 17,
        STy::TcpListener => 18,
        STy::File => 19,
        STy::Vector(..) => 20,
        STy::Matrix(..) => 21,
        STy::Named(..) => 22,
        STy::Ref(_) => 23,
        STy::Error => 24,
    }
}

/// The kind of the built-in type that a word of this length and these two letters
/// begins.
pub open spec fn rank_of(n: nat, a: char, b: char) -> int {
    if n == 2 {
        if a == 'i' {
            0
        } else {
            4
        }
    } else if n == 3 {
        if a == 'i' {
            if b == '1' {
                1
            } else if b == '3' {
                2
            } else {
                3
            }
        } else if a == 'u' {
            if b == '1' {
                5
            } else if b == '3' {
                6
            } else {
                7
            }
        } else if a == 'f' {
            11
        } else if a == 's' {
            12
        } else if a == 'b' {
            13
        } else {
            17
        }
    } else if n == 4 {
        if a == 'b' {
            9
        } else if a == 'u' {
            10
        } else if a == 'c' {
            15
        } else {
            19
        }
    } else if n == 5 {
        8
    } else if n == 6 {
        if a == 't' {
            14
        } else if a == 'V' {
            20
        } else {
            21
        }
    } else if n == 7 {
        16
    } else {
        18
    }
}

/// Word characters, one after the other.
proof fn word_of_literals()
    ensures
        is_word("i8"@) && "i8"@.len() == 2 && "i8"@[0] == 'i',
        is_word("i16"@) && "i16"@.len() == 3 && "i16"@[0] == 'i' && "i16"@[1] == '1',
        is_word("i32"@) && "i32"@.len() == 3 && "i32"@[0] == 'i' && "i32"@[1] == '3',
        is_word("i64"@) && "i64"@.len() == 3 && "i64"@[0] == 'i' && "i64"@[1] == '6',
        is_word("u8"@) && "u8"@.len() == 2 && "u8"@[0] == 'u',
        is_word("u16"@) && "u16"@.len() == 3 && "u16"@[0] == 'u' && "u16"@[1] == '1',
        is_word("u32"@) && "u32"@.len() == 3 && "u32"@[0] == 'u' && "u32"@[1] == '3',
        is_word("u64"@) && "u64"@.len() == 3 && "u64"@[0] == 'u' && "u64"@[1] == '6',
        is_word("usize"@) && "usize"@.len() == 5,
        is_word("bool"@) && "bool"@.len() == 4 && "bool"@[0] == 'b',
        is_word("unit"@) && "unit"@.len() == 4 && "unit"@[0] == 'u',
        is_word("f64"@) && "f64"@.len() == 3 && "f64"@[0] == 'f',
        is_word("str"@) && "str"@.len() == 3 && "str"@[0] == 's',
        is_word("box"@) && "box"@.len() == 3 && "box"@[0] == 'b',
        is_word("thread"@) && "thread"@.len() == 6 && "thread"@[0] == 't',
        is_word("chan"@) && "chan"@.len() == 4 && "chan"@[0] == 'c',
        is_word("sandbox"@) && "sandbox"@.len() == 7,
        is_word("tcp"@) && "tcp"@.len() == 3 && "tcp"@[0] == 't',
        is_word("tcp_listener"@) && "tcp_listener"@.len() == 12,
        is_word("file"@) && "file"@.len() == 4 && "file"@[0] == 'f',
        is_word("Vector"@) && "Vector"@.len() == 6 && "Vector"@[0] == 'V',
        is_word("Matrix"@) && "Matrix"@.len() == 6 && "Matrix"@[0] == 'M',
{
    reveal_strlit("i8");
    reveal_strlit("i16");
    reveal_strlit("i32");
    reveal_strlit("i64");
    reveal_strlit("u8");
    reveal_strlit("u16");
    reveal_strlit("u32");
    reveal_strlit("u64");
    reveal_strlit("usize");
    reveal_strlit("bool");
    reveal_strlit("unit");
    reveal_strlit("f64");
    reveal_strlit("str");
    reveal_strlit("box");
    reveal_strlit("thread");
    reveal_strlit("chan");
    reveal_strlit("sandbox");
    reveal_strlit("tcp");
    reveal_strlit("tcp_listener");
    reveal_strlit("file");
    reveal_strlit("Vector");
    reveal_strlit("Matrix");
}

proof fn marks()
    ensures
        " "@ == seq![' '],
        "&"@ == seq!['&'],
        "("@ == seq!['('],
        ")"@ == seq![')'],
        ", "@ == seq![',', ' '],
        "<"@ == seq!['<'],
        ">"@ == seq!['>'],
        "<error>"@.len() == 7 && "<error>"@[0] == '<',
        "box "@ == "box"@ + " "@,
        "thread "@ == "thread"@ + " "@,
        "chan "@ == "chan"@ + " "@,
        "Vector("@ == "Vector"@ + "("@,
        "Matrix("@ == "Matrix"@ + "("@,
{
    reveal_strlit(" ");
    reveal_strlit("&");
    reveal_strlit("(");
    reveal_strlit(")");
    reveal_strlit(", ");
    reveal_strlit("<");
    reveal_strlit(">");
    reveal_strlit("<error>");
    reveal_strlit("box");
    reveal_strlit("box ");
    reveal_strlit("thread");
    reveal_strlit("thread ");
    reveal_strlit("chan");
    reveal_strlit("chan ");
    reveal_strlit("Vector");
    reveal_strlit("Vector(");
    reveal_strlit("Matrix");
    reveal_strlit("Matrix(");
    assert(" "@ =~= seq![' ']);
    assert("&"@ =~= seq!['&']);
    assert("("@ =~= seq!['(']);
    assert(")"@ =~= seq![')']);
    assert(", "@ =~= seq![',', ' ']);
    assert("<"@ =~= seq!['<']);
    assert(">"@ =~= seq!['>']);
    assert("box "@ =~= "box"@ + " "@);
    assert("thread "@ =~= "thread"@ + " "@);
    assert("chan "@ =~= "chan"@ + " "@);
    assert("Vector("@ =~= "Vector"@ + "("@);
    assert("Matrix("@ =~= "Matrix"@ + "("@);
}

/// A word ends where no word goes on.
proof fn words_end_once(a: Seq<char>, x: Seq<char>, b: Seq<char>, y: Seq<char>)
    requires
        is_word(a),
        is_word(b),
        cut_off(x),
        cut_off(y),
        a + x == b + y,
    ensures
        a == b,
        x == y,
{
    if a.len() < b.len() {
        assert((a + x)[a.len() as int] == x[0]);
        assert((b + y)[a.len() as int] == b[a.len() as int]);
    }
    if b.len() < a.len() {
        assert((b + y)[b.len() as int] == y[0]);
        assert((a + x)[b.len() as int] == a[b.len() as int]);
    }
    assert(a =~= (a + x).take(a.len() as int));
    assert(b =~= (b + y).take(b.len() as int));
    assert(x =~= (a + x).skip(a.len() as int));
    assert(y =~= (b + y).skip(b.len() as int));
}

/// A name is its first word and what follows it.
proof fn name_splits(t: STy, x: Seq<char>)
    requires
        properly_named(t),
        behind_type(x),
    ensures
        name_of(t) + x == first_word(t) + (behind_word(t) + x),
        is_word(first_word(t)),
        cut_off(behind_word(t) + x),
{
    marks();
    word_of_literals();
    assert(name_of(t) =~= first_word(t) + behind_word(t)) by {
        match t {
            STy::Vector(e, n) => {
                assert("Vector("@ + name_of(*e) + ", "@ + dec(n as int) + ")"@ =~= "Vector"@ + ("("@
                    + name_of(*e) + ", "@ + dec(n as int) + ")"@));
            }
            STy::Matrix(e, r, c) => {
                assert("Matrix("@ + name_of(*e) + ", "@ + dec(r as int) + ", "@ + dec(c as int) + ")"@
                    =~= "Matrix"@ + ("("@ + name_of(*e) + ", "@ + dec(r as int) + ", "@ + dec(c as int)
                    + ")"@));
            }
            STy::Box(e) => {
                assert(("box"@ + " "@) + name_of(*e) =~= "box"@ + (" "@ + name_of(*e)));
            }
            STy::Thread(e) => {
                assert(("thread"@ + " "@) + name_of(*e) =~= "thread"@ + (" "@ + name_of(*e)));
            }
            STy::Channel(e) => {
                assert(("chan"@ + " "@) + name_of(*e) =~= "chan"@ + (" "@ + name_of(*e)));
            }
            STy::Named(n, args) => {
                if args.len() > 0 {
                    assert(n + "<"@ + names_of(args) + ">"@ =~= n + ("<"@ + names_of(args) + ">"@));
                }
            }
            _ => {}
        }
    }
    assert(name_of(t) + x =~= first_word(t) + (behind_word(t) + x));
    let r = behind_word(t) + x;
    if r.len() > 0 {
        if behind_word(t).len() == 0 {
            assert(r =~= x);
        } else {
            assert(r[0] == behind_word(t)[0]);
        }
    }
}

/// Types that begin with the same word are of one kind.
proof fn ranks_agree(t: STy, u: STy)
    requires
        properly_named(t),
        properly_named(u),
        first_word(t) == first_word(u),
        !(t is Ref || t is Error),
    ensures
        rank(t) == rank(u),
{
    word_of_literals();
    let w = first_word(t);
    if t is Named || u is Named {
        assert(t is Named ==> !is_built(w));
        assert(u is Named ==> !is_built(w));
    } else {
        assert(rank(t) == rank_of(w.len(), w[0], w[1]));
        assert(u is Ref || u is Error || rank(u) == rank_of(w.len(), w[0], w[1]));
    }
}

/// Decimals end where no digit goes on.
proof fn decimals_end_once(m: usize, x: Seq<char>, n: usize, y: Seq<char>)
    requires
        cut_off(x),
        cut_off(y),
        dec(m as int) + x == dec(n as int) + y,
    ensures
        m == n,
        x == y,
{
    dec_is_digits(m as nat);
    dec_is_digits(n as nat);
    assert(is_word(dec(m as int)));
    assert(is_word(dec(n as int)));
    words_end_once(dec(m as int), x, dec(n as int), y);
    if m != n {
        decimals_differ(m as nat, n as nat);
    }
}

/// One element, then the others.
proof fn names_split(v: Seq<STy>)
    requires
        v.len() > 1,
    ensures
        names_of(v) == name_of(v[0]) + (", "@ + names_of(v.skip(1))),
    decreases v.len(),
{
    let init = v.drop_last();
    reveal_with_fuel(names_of, 3);
    if v.len() == 2 {
        assert(init.len() == 1 && init[0] == v[0]);
        assert(v.skip(1).len() == 1 && v.skip(1)[0] == v.last());
        assert(names_of(v) == name_of(v[0]) + ", "@ + name_of(v.last()));
        assert(names_of(v) =~= name_of(v[0]) + (", "@ + names_of(v.skip(1))));
    } else {
        names_split(init);
        assert(init.skip(1) =~= v.skip(1).drop_last());
        assert(v.skip(1).last() == v.last());
        assert(names_of(v) =~= name_of(v[0]) + (", "@ + names_of(v.skip(1))));
    }
}

/// What follows is the same where what is read first is.
proof fn same_head(h: Seq<char>, x: Seq<char>, y: Seq<char>)
    requires
        h + x == h + y,
    ensures
        x == y,
{
    assert(x =~= (h + x).skip(h.len() as int));
    assert(y =~= (h + y).skip(h.len() as int));
}

/// A name ends where nothing of a type goes on, and names one type.
#[verifier::rlimit(60)]
proof fn names_end_once(t: STy, x: Seq<char>, u: STy, y: Seq<char>)
    requires
        properly_named(t),
        properly_named(u),
        behind_type(x),
        behind_type(y),
        name_of(t) + x == name_of(u) + y,
    ensures
        t == u,
        x == y,
    decreases t, 0nat,
{
    marks();
    name_splits(t, x);
    name_splits(u, y);
    let r = behind_word(t) + x;
    let s = behind_word(u) + y;
    words_end_once(first_word(t), r, first_word(u), s);
    if t is Ref || t is Error {
        word_of_literals();
        assert(first_word(u).len() == 0);
        assert(u is Ref || u is Error);
        assert(r[0] == behind_word(t)[0]);
        assert(s[0] == behind_word(u)[0]);
        if let (STy::Ref(a), STy::Ref(b)) = (t, u) {
            assert(r =~= "&"@ + (name_of(*a) + x));
            assert(s =~= "&"@ + (name_of(*b) + y));
            same_head("&"@, name_of(*a) + x, name_of(*b) + y);
            names_end_once(*a, x, *b, y);
        } else {
            same_head("<error>"@, x, y);
        }
    } else {
        ranks_agree(t, u);
        match (t, u) {
            (STy::Box(a), STy::Box(b)) => inner_ends_once(*a, x, *b, y),
            (STy::Thread(a), STy::Thread(b)) => inner_ends_once(*a, x, *b, y),
            (STy::Channel(a), STy::Channel(b)) => inner_ends_once(*a, x, *b, y),
            (STy::Vector(a, m), STy::Vector(b, n)) => vectors_end_once(*a, m, x, *b, n, y),
            (STy::Matrix(a, m, c), STy::Matrix(b, n, d)) => {
                matrices_end_once(*a, m, c, x, *b, n, d, y);
            }
            (STy::Named(_, a), STy::Named(_, b)) => declared_end_once(a, x, b, y),
            _ => {
                assert(r =~= x);
                assert(s =~= y);
            }
        }
    }
}

proof fn vectors_end_once(a: STy, m: usize, x: Seq<char>, b: STy, n: usize, y: Seq<char>)
    requires
        properly_named(a),
        properly_named(b),
        behind_type(x),
        behind_type(y),
        "("@ + name_of(a) + ", "@ + dec(m as int) + ")"@ + x == "("@ + name_of(b) + ", "@ + dec(
            n as int,
        ) + ")"@ + y,
    ensures
        a == b,
        m == n,
        x == y,
    decreases a, 1nat,
{
    marks();
    let p = ", "@ + (dec(m as int) + (")"@ + x));
    let q = ", "@ + (dec(n as int) + (")"@ + y));
    assert("("@ + name_of(a) + ", "@ + dec(m as int) + ")"@ + x =~= "("@ + (name_of(a) + p));
    assert("("@ + name_of(b) + ", "@ + dec(n as int) + ")"@ + y =~= "("@ + (name_of(b) + q));
    same_head("("@, name_of(a) + p, name_of(b) + q);
    names_end_once(a, p, b, q);
    same_head(", "@, dec(m as int) + (")"@ + x), dec(n as int) + (")"@ + y));
    decimals_end_once(m, ")"@ + x, n, ")"@ + y);
    same_head(")"@, x, y);
}

proof fn matrices_end_once(
    a: STy,
    m: usize,
    c: usize,
    x: Seq<char>,
    b: STy,
    n: usize,
    d: usize,
    y: Seq<char>,
)
    requires
        properly_named(a),
        properly_named(b),
        behind_type(x),
        behind_type(y),
        "("@ + name_of(a) + ", "@ + dec(m as int) + ", "@ + dec(c as int) + ")"@ + x == "("@ + name_of(
            b,
        ) + ", "@ + dec(n as int) + ", "@ + dec(d as int) + ")"@ + y,
    ensures
        a == b,
        m == n,
        c == d,
        x == y,
    decreases a, 1nat,
{
    marks();
    let p2 = dec(c as int) + (")"@ + x);
    let q2 = dec(d as int) + (")"@ + y);
    let p = ", "@ + (dec(m as int) + (", "@ + p2));
    let q = ", "@ + (dec(n as int) + (", "@ + q2));
    assert("("@ + name_of(a) + ", "@ + dec(m as int) + ", "@ + dec(c as int) + ")"@ + x =~= "("@ + (
    name_of(a) + p));
    assert("("@ + name_of(b) + ", "@ + dec(n as int) + ", "@ + dec(d as int) + ")"@ + y =~= "("@ + (
    name_of(b) + q));
    same_head("("@, name_of(a) + p, name_of(b) + q);
    names_end_once(a, p, b, q);
    same_head(", "@, dec(m as int) + (", "@ + p2), dec(n as int) + (", "@ + q2));
    decimals_end_once(m, ", "@ + p2, n, ", "@ + q2);
    same_head(", "@, p2, q2);
    decimals_end_once(c, ")"@ + x, d, ")"@ + y);
    same_head(")"@, x, y);
}

/// Declared types with their arguments.
proof fn declared_end_once(a: Seq<STy>, x: Seq<char>, b: Seq<STy>, y: Seq<char>)
    requires
        forall|i: int| 0 <= i < a.len() ==> properly_named(#[trigger] a[i]),
        forall|i: int| 0 <= i < b.len() ==> properly_named(#[trigger] b[i]),
        behind_type(x),
        behind_type(y),
        behind_word(STy::Named(Seq::empty(), a)) + x == behind_word(STy::Named(Seq::empty(), b)) + y,
    ensures
        a == b,
        x == y,
    decreases a, a.len() + 1,
{
    marks();
    let r = behind_word(STy::Named(Seq::empty(), a)) + x;
    let s = behind_word(STy::Named(Seq::empty(), b)) + y;
    if a.len() > 0 && b.len() > 0 {
        assert(r =~= "<"@ + (names_of(a) + (">"@ + x)));
        assert(s =~= "<"@ + (names_of(b) + (">"@ + y)));
        same_head("<"@, names_of(a) + (">"@ + x), names_of(b) + (">"@ + y));
        lists_end_once(a, x, b, y);
    } else if a.len() > 0 {
        assert(r[0] == '<');
        assert(s =~= y);
    } else if b.len() > 0 {
        assert(s[0] == '<');
        assert(r =~= x);
    } else {
        assert(a =~= b);
        assert(r =~= x);
        assert(s =~= y);
    }
}

proof fn inner_ends_once(a: STy, x: Seq<char>, b: STy, y: Seq<char>)
    requires
        properly_named(a),
        properly_named(b),
        behind_type(x),
        behind_type(y),
        " "@ + name_of(a) + x == " "@ + name_of(b) + y,
    ensures
        a == b,
        x == y,
    decreases a, 1nat,
{
    assert(" "@ + name_of(a) + x =~= " "@ + (name_of(a) + x));
    assert(" "@ + name_of(b) + y =~= " "@ + (name_of(b) + y));
    same_head(" "@, name_of(a) + x, name_of(b) + y);
    names_end_once(a, x, b, y);
}

proof fn lists_end_once(a: Seq<STy>, x: Seq<char>, b: Seq<STy>, y: Seq<char>)
    requires
        a.len() > 0,
        b.len() > 0,
        forall|i: int| 0 <= i < a.len() ==> properly_named(#[trigger] a[i]),
        forall|i: int| 0 <= i < b.len() ==> properly_named(#[trigger] b[i]),
        names_of(a) + (">"@ + x) == names_of(b) + (">"@ + y),
    ensures
        a == b,
        x == y,
    decreases a, a.len(),
{
    marks();
    let p = if a.len() == 1 {
        ">"@ + x
    } else {
        ", "@ + (names_of(a.skip(1)) + (">"@ + x))
    };
    let q = if b.len() == 1 {
        ">"@ + y
    } else {
        ", "@ + (names_of(b.skip(1)) + (">"@ + y))
    };
    if a.len() > 1 {
        names_split(a);
        assert(names_of(a) + (">"@ + x) =~= name_of(a[0]) + p);
    }
    if b.len() > 1 {
        names_split(b);
        assert(names_of(b) + (">"@ + y) =~= name_of(b[0]) + q);
    }
    assert(properly_named(a[0]) && properly_named(b[0]));
    assert(decreases_to!(a => a[0]));
    names_end_once(a[0], p, b[0], q);
    assert(a.len() == 1 ==> p[0] == '>');
    assert(b.len() == 1 ==> q[0] == '>');
    assert(a.len() > 1 ==> p[0] == ',');
    assert(b.len() > 1 ==> q[0] == ',');
    if a.len() > 1 {
        let c = a.skip(1);
        let d = b.skip(1);
        same_head(", "@, names_of(c) + (">"@ + x), names_of(d) + (">"@ + y));
        assert forall|i: int| 0 <= i < c.len() implies properly_named(#[trigger] c[i]) by {
            assert(c[i] == a[i + 1]);
        }
        assert forall|i: int| 0 <= i < d.len() implies properly_named(#[trigger] d[i]) by {
            assert(d[i] == b[i + 1]);
        }
        assert(decreases_to!(a => c));
        lists_end_once(c, x, d, y);
        assert(a =~= seq![a[0]] + c);
        assert(b =~= seq![b[0]] + d);
    } else {
        same_head(">"@, x, y);
        assert(a =~= b);
    }
}

/// Different types have different names, where no declared type bears the name of a
/// built-in one.
pub proof fn different_types_have_different_names(t: STy, u: STy)
    requires
        properly_named(t),
        properly_named(u),
    ensures
        name_of(t) == name_of(u) ==> t == u,
{
    if name_of(t) == name_of(u) {
        let none = Seq::<char>::empty();
        assert(name_of(t) + none =~= name_of(t));
        assert(name_of(u) + none =~= name_of(u));
        names_end_once(t, none, u, none);
    }
}

} // verus!
