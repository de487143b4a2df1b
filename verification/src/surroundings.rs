//! What the library tells its surroundings and is told by them: command lines, databases,
//! documents and traces.
use crate::ast::{Effect, EffectSet};
use crate::cli::{
    build_options, command, dec_nat_digits, following, is_digit, is_otel, number, plain, port,
    serve_options, SCommand, SServe,
};
use crate::dbconn::{backend, blob_text, cell_json, contains, occurs_at, Backend, Cell};
use crate::effect_sources::has;
use crate::grammar::with_effect;
use crate::json::{before, entered, in_order, SJson};
use crate::llvm::OptLevel;
use crate::observability::{effect_text, kind_text};
use crate::text::dec;
use crate::value::SErrorKind;
use vstd::prelude::*;
use vstd::string::*;

verus! {

pub type Text = Seq<char>;

/// The number of a port is read from its decimal, and a greater number is no port.
pub proof fn ports_are_read(n: nat)
    ensures
        number(dec(n as int)) == Some(n as int),
        port(dec(n as int)) == if n <= u16::MAX {
            Some(n as u16)
        } else {
            None::<u16>
        },
{
    let s = dec(n as int);
    dec_nat_digits(n);
    assert(is_digit(s[0]));
}

/// Each option of `serve` sets its own part, by what follows it; what is no option is the
/// file.
pub proof fn options_set_their_own_part(v: Seq<Text>, i: int, o: SServe)
    requires
        0 <= i,
        i + 1 < v.len(),
    ensures
        v[i] == "--port"@ ==> serve_options(v, i, o) == serve_options(
            v,
            i + 2,
            SServe {
                port: match port(v[i + 1]) {
                    Some(n) => n,
                    None => o.port,
                },
                ..o
            },
        ),
        v[i] == "--jwks-file"@ ==> serve_options(v, i, o) == serve_options(
            v,
            i + 2,
            SServe { jwks_file: Some(v[i + 1]), ..o },
        ),
        v[i] == "--issuer"@ ==> serve_options(v, i, o) == serve_options(
            v,
            i + 2,
            SServe { issuer: Some(v[i + 1]), ..o },
        ),
        v[i] == "--audience"@ ==> serve_options(v, i, o) == serve_options(
            v,
            i + 2,
            SServe { audience: Some(v[i + 1]), ..o },
        ),
        v[i] == "--identity-base"@ ==> serve_options(v, i, o) == serve_options(
            v,
            i + 2,
            SServe { identity_base: Some(v[i + 1]), ..o },
        ),
        v[i].len() > 0 && v[i][0] != '-' ==> serve_options(v, i, o) == serve_options(
            v,
            i + 1,
            SServe { input: Some(v[i]), ..o },
        ),
{
    reveal_strlit("--port");
    reveal_strlit("--jwks-file");
    reveal_strlit("--issuer");
    reveal_strlit("--audience");
    reveal_strlit("--identity-base");
    assert("--port"@.len() == 6 && "--jwks-file"@.len() == 11 && "--issuer"@.len() == 8
        && "--audience"@.len() == 10 && "--identity-base"@.len() == 15);
    assert("--port"@[0] == '-' && "--jwks-file"@[0] == '-' && "--issuer"@[0] == '-'
        && "--audience"@[0] == '-' && "--identity-base"@[0] == '-');
}

/// A text that is no option and no command.
pub open spec fn file_like(s: Text) -> bool {
    &&& s.len() > 0
    &&& s[0] != '-'
    &&& s != "build"@
    &&& s != "emit-llvm"@
    &&& s != "emit-ast"@
    &&& s != "emit-ui"@
    &&& s != "serve"@
}

/// Each command names its files: the program, and for `build` what is written. A file alone is
/// interpreted.
pub proof fn commands_name_their_files(x: Text, y: Text)
    requires
        file_like(x),
        file_like(y),
    ensures
        command(seq![x]) == SCommand::Interpret(x, false, false),
        command(seq!["emit-llvm"@, x]) == SCommand::EmitLlvm(x),
        command(seq!["emit-ast"@, x]) == SCommand::EmitAst(x),
        command(seq!["build"@, x, "-o"@, y]) == SCommand::Build(x, y, OptLevel::O2),
        command(seq!["build"@, x, "-o"@, y, "--opt0"@]) == SCommand::Build(x, y, OptLevel::O0),
{
    reveal_strlit("build");
    reveal_strlit("emit-llvm");
    reveal_strlit("emit-ast");
    reveal_strlit("emit-ui");
    reveal_strlit("serve");
    reveal_strlit("--sandbox-worker");
    reveal_strlit("--format=json");
    reveal_strlit("--otel-console");
    reveal_strlit("--otel");
    reveal_strlit("--otel-endpoint");
    reveal_strlit("-o");
    reveal_strlit("--opt0");
    assert("emit-llvm"@[5] == 'l' && "emit-ast"@[5] == 'a' && "emit-ui"@[5] == 'u');
    assert("build"@[0] == 'b' && "serve"@[0] == 's' && "emit-llvm"@[0] == 'e' && "emit-ast"@[0] == 'e'
        && "emit-ui"@[0] == 'e');
    assert("--format=json"@[0] == '-' && "--otel-console"@[0] == '-' && "--otel"@[0] == '-'
        && "--sandbox-worker"@[0] == '-' && "-o"@[0] == '-' && "--opt0"@[0] == '-');
    assert("--format=json"@.len() == 13 && "--otel-console"@.len() == 14 && "-o"@.len() == 2
        && "--opt0"@.len() == 6);
    let e = Seq::<Text>::empty();
    let a = seq![x];
    kept_word(e, x);
    assert(e.push(x) =~= a);
    let l1 = seq!["emit-llvm"@];
    let l = seq!["emit-llvm"@, x];
    kept_word(e, "emit-llvm"@);
    assert(e.push("emit-llvm"@) =~= l1);
    kept_word(l1, x);
    assert(l1.push(x) =~= l);
    let t1 = seq!["emit-ast"@];
    let t = seq!["emit-ast"@, x];
    kept_word(e, "emit-ast"@);
    assert(e.push("emit-ast"@) =~= t1);
    kept_word(t1, x);
    assert(t1.push(x) =~= t);
    let b1 = seq!["build"@];
    let b2 = seq!["build"@, x];
    let b3 = seq!["build"@, x, "-o"@];
    let b4 = seq!["build"@, x, "-o"@, y];
    let b5 = seq!["build"@, x, "-o"@, y, "--opt0"@];
    kept_word(e, "build"@);
    assert(e.push("build"@) =~= b1);
    kept_word(b1, x);
    assert(b1.push(x) =~= b2);
    kept_word(b2, "-o"@);
    assert(b2.push("-o"@) =~= b3);
    kept_word(b3, y);
    assert(b3.push(y) =~= b4);
    kept_word(b4, "--opt0"@);
    assert(b4.push("--opt0"@) =~= b5);
    assert(plain(a) == a && plain(l) == l && plain(t) == t && plain(b4) == b4 && plain(b5) == b5);
    assert(!is_otel(x)) by {
        if is_otel(x) && x != "--otel"@ {
            assert(x.subrange(0, 15)[0] == x[0]);
            assert("--otel-endpoint"@[0] == '-');
        }
    }
    assert(!is_otel(y)) by {
        if is_otel(y) && y != "--otel"@ {
            assert(y.subrange(0, 15)[0] == y[0]);
            assert("--otel-endpoint"@[0] == '-');
        }
    }
    assert("--otel"@[3] == 't' && "--opt0"@[3] == 'p' && "--otel"@.len() == 6);
    assert(!is_otel("build"@) && !is_otel("emit-llvm"@) && !is_otel("emit-ast"@) && !is_otel("-o"@)
        && !is_otel("--opt0"@));
    assert(build_options(b4, 4, Some(x), Some(y), OptLevel::O2) == (Some(x), Some(y), OptLevel::O2));
    assert(build_options(b4, 2, Some(x), None, OptLevel::O2) == (Some(x), Some(y), OptLevel::O2));
    assert(build_options(b4, 1, None, None, OptLevel::O2) == (Some(x), Some(y), OptLevel::O2));
    assert(build_options(b5, 5, Some(x), Some(y), OptLevel::O0) == (Some(x), Some(y), OptLevel::O0));
    assert(build_options(b5, 4, Some(x), Some(y), OptLevel::O2) == (Some(x), Some(y), OptLevel::O0));
    assert(build_options(b5, 2, Some(x), None, OptLevel::O2) == (Some(x), Some(y), OptLevel::O0));
    assert(build_options(b5, 1, None, None, OptLevel::O2) == (Some(x), Some(y), OptLevel::O0));
    assert(following(l, 0) == Some(x) && following(t, 0) == Some(x));
}

/// A word that is no option for every command stays where it stands.
proof fn kept_word(v: Seq<Text>, s: Text)
    requires
        plain(v) == v,
        s != "--format=json"@,
        s != "--otel-console"@,
    ensures
        plain(v.push(s)) == v.push(s),
{
    assert(v.push(s).drop_last() =~= v);
    assert(v.push(s).last() == s);
}

/// A connection string is one of Postgres exactly where it begins with one of its two schemes,
/// and a connection to Postgres is encrypted where the string asks for it in one of three ways.
pub proof fn schemes_choose_the_database(rest: Text, front: Text, end: Text)
    ensures
        backend("postgres://"@ + rest) is Postgres,
        backend("postgresql://"@ + rest) is Postgres,
        rest.len() > 0 && rest[0] != 'p' ==> backend(rest) == Backend::Sqlite,
        backend("postgres://"@ + front + "sslmode=require"@ + end) == (Backend::Postgres {
            tls: true,
        }),
        backend("postgres://"@ + front + "sslmode=verify-ca"@ + end) == (Backend::Postgres {
            tls: true,
        }),
        backend("postgres://"@ + front + "sslmode=verify-full"@ + end) == (Backend::Postgres {
            tls: true,
        }),
{
    reveal_strlit("postgres://");
    reveal_strlit("postgresql://");
    stands_in(Seq::empty(), "postgres://"@, rest);
    stands_in(Seq::empty(), "postgresql://"@, rest);
    assert(Seq::<char>::empty() + "postgres://"@ + rest =~= "postgres://"@ + rest);
    assert(Seq::<char>::empty() + "postgresql://"@ + rest =~= "postgresql://"@ + rest);
    if rest.len() > 0 && rest[0] != 'p' {
        if occurs_at(rest, "postgres://"@, 0) {
            assert(rest.subrange(0, "postgres://"@.len() as int)[0] == rest[0]);
        }
        if occurs_at(rest, "postgresql://"@, 0) {
            assert(rest.subrange(0, "postgresql://"@.len() as int)[0] == rest[0]);
        }
    }
    asks_for(front, "sslmode=require"@, end);
    asks_for(front, "sslmode=verify-ca"@, end);
    asks_for(front, "sslmode=verify-full"@, end);
}

proof fn asks_for(front: Text, mode: Text, end: Text)
    ensures
        occurs_at("postgres://"@ + front + mode + end, "postgres://"@, 0),
        contains("postgres://"@ + front + mode + end, mode),
{
    let s = "postgres://"@ + front + mode + end;
    stands_in("postgres://"@ + front, mode, end);
    stands_in(Seq::empty(), "postgres://"@, front + mode + end);
    assert(Seq::<char>::empty() + "postgres://"@ + (front + mode + end) =~= s);
}

proof fn stands_in(a: Text, p: Text, b: Text)
    ensures
        occurs_at(a + p + b, p, a.len() as int),
{
    assert((a + p + b).subrange(a.len() as int, (a.len() + p.len()) as int) =~= p);
}

/// The number of a lower-case digit of sixteen.
pub open spec fn low_value(c: char) -> int {
    if '0' <= c <= '9' {
        c as int - '0' as int
    } else {
        c as int - 'a' as int + 10
    }
}

/// A cell is its document: bytes as two digits of sixteen each, from which they can be read.
pub proof fn cells_are_told(c: Cell, i: int)
    ensures
        c is Null ==> cell_json(c) is Null,
        c matches Cell::Bool(b) ==> cell_json(c) == SJson::Bool(b),
        c matches Cell::Int(n) ==> cell_json(c) == SJson::Int(n as i128),
        c matches Cell::Text(s) ==> cell_json(c) == SJson::Str(s@),
        c matches Cell::Blob(b) ==> (cell_json(c) matches SJson::Str(s) && s.len() == 2 * b@.len() && (0
            <= i < b@.len() ==> b@[i] == 16 * low_value(s[2 * i]) + low_value(s[2 * i + 1]))),
{
    if let Cell::Blob(b) = c {
        let s = blob_text(b@);
        if 0 <= i < b@.len() {
            let x = b@[i] as int;
            assert((2 * i) / 2 == i && (2 * i + 1) / 2 == i);
            assert(0 <= x / 16 < 16 && 0 <= x % 16 < 16);
        }
    }
}

/// An effect is shown under the name by which a program declares it.
pub proof fn effects_have_one_name(set: EffectSet, e: Effect, f: Effect)
    ensures
        with_effect(set, effect_text(e)) matches Some(s) && (has(s, f) <==> has(set, f) || f == e),
        effect_text(e) == effect_text(f) ==> e == f,
{
    reveal_strlit("rng");
    reveal_strlit("io");
    reveal_strlit("concurrent");
    reveal_strlit("network");
    assert("rng"@.len() == 3 && "io"@.len() == 2 && "concurrent"@.len() == 10 && "network"@.len()
        == 7);
}

/// The kinds of errors, numbered.
pub open spec fn kind_number(k: SErrorKind) -> int {
    match k {
        SErrorKind::UnknownFn(_) => 0,
        SErrorKind::UnknownVar(_) => 1,
        SErrorKind::ArityMismatch { .. } => 2,
        SErrorKind::TypeMismatch { .. } => 3,
        SErrorKind::OutOfRange { .. } => 4,
        SErrorKind::DivByZero => 5,
        SErrorKind::MissingReturn { .. } => 6,
        SErrorKind::ThreadPanicked { .. } => 7,
        SErrorKind::AlreadyJoined => 8,
        SErrorKind::SandboxSpawnFailed { .. } => 9,
        SErrorKind::AlreadySandboxStopped => 10,
        SErrorKind::ChannelIoError { .. } => 11,
        SErrorKind::IndexOutOfBounds { .. } => 12,
        SErrorKind::SingularMatrix => 13,
        SErrorKind::RngNotSeeded => 14,
    }
}

/// Errors of different kinds are traced under different names.
pub proof fn kinds_have_their_own_names(a: SErrorKind, b: SErrorKind)
    ensures
        kind_text(a) == kind_text(b) ==> kind_number(a) == kind_number(b),
{
    reveal_strlit("UnknownFn");
    reveal_strlit("UnknownVar");
    reveal_strlit("ArityMismatch");
    reveal_strlit("TypeMismatch");
    reveal_strlit("OutOfRange");
    reveal_strlit("DivByZero");
    reveal_strlit("MissingReturn");
    reveal_strlit("ThreadPanicked");
    reveal_strlit("AlreadyJoined");
    reveal_strlit("SandboxSpawnFailed");
    reveal_strlit("AlreadySandboxStopped");
    reveal_strlit("ChannelIoError");
    reveal_strlit("IndexOutOfBounds");
    reveal_strlit("SingularMatrix");
    reveal_strlit("RngNotSeeded");
    let (s, t) = (kind_text(a), kind_text(b));
    if s == t {
        assert(s.len() == t.len() && s[0] == t[0] && s[1] == t[1]);
    }
}

/// What the entries of an object say of each name: the last of them counts.
pub open spec fn said(v: Seq<(Text, SJson)>) -> Map<Text, SJson>
    decreases v.len(),
{
    if v.len() == 0 {
        Map::empty()
    } else {
        said(v.drop_last()).insert(v.last().0, v.last().1)
    }
}

proof fn entry_says(v: Seq<(Text, SJson)>, name: Text, j: SJson)
    ensures
        said(entered(v, name, j)) == said(v).insert(name, j),
    decreases v.len(),
{
    let w = entered(v, name, j);
    if v.len() == 0 {
        assert(w.drop_last() =~= v);
        assert(w.last() == (name, j));
    } else if v.last().0 == name {
        assert(w.drop_last() =~= v.drop_last());
        assert(said(w) =~= said(v).insert(name, j));
    } else if before(v.last().0, name) {
        assert(w.drop_last() =~= v);
    } else {
        entry_says(v.drop_last(), name, j);
        assert(w.drop_last() =~= entered(v.drop_last(), name, j));
        assert(said(w) =~= said(v).insert(name, j));
    }
}

/// Putting the entries of an object in order changes nothing of what they say.
pub proof fn order_says_nothing(v: Seq<(Text, SJson)>)
    ensures
        said(in_order(v)) == said(v),
    decreases v.len(),
{
    if v.len() > 0 {
        order_says_nothing(v.drop_last());
        entry_says(in_order(v.drop_last()), v.last().0, v.last().1);
    }
}

proof fn before_goes_on(a: Text, b: Text, c: Text)
    requires
        before(a, b),
        before(b, c),
    ensures
        before(a, c),
    decreases a.len(),
{
    if a.len() > 0 && a[0] == b[0] && b[0] == c[0] {
        before_goes_on(a.skip(1), b.skip(1), c.skip(1));
    }
}

proof fn one_is_before(a: Text, b: Text)
    requires
        a != b,
    ensures
        before(a, b) || before(b, a),
    decreases a.len(),
{
    if a.len() == 0 {
        assert(b.len() > 0) by {
            if b.len() == 0 {
                assert(a =~= b);
            }
        }
    } else if b.len() > 0 && a[0] == b[0] {
        assert(a.skip(1) != b.skip(1)) by {
            if a.skip(1) == b.skip(1) {
                assert(a =~= seq![a[0]] + a.skip(1));
                assert(b =~= seq![b[0]] + b.skip(1));
            }
        }
        one_is_before(a.skip(1), b.skip(1));
    }
}

/// The names come in order, and none of them twice.
pub open spec fn ordered(v: Seq<(Text, SJson)>) -> bool {
    forall|i: int, j: int| 0 <= i < j < v.len() ==> before((#[trigger] v[i]).0, (#[trigger] v[j]).0)
}

proof fn entry_keeps_order(v: Seq<(Text, SJson)>, name: Text, j: SJson)
    requires
        ordered(v),
    ensures
        ordered(entered(v, name, j)),
        forall|i: int|
            0 <= i < entered(v, name, j).len() ==> (#[trigger] entered(v, name, j)[i]).0 == name
                || exists|k: int| 0 <= k < v.len() && (#[trigger] v[k]).0 == entered(v, name, j)[i].0,
    decreases v.len(),
{
    let w = entered(v, name, j);
    if v.len() > 0 {
        let n = v.len() - 1;
        let rest = v.drop_last();
        assert(v.last() == v[n]);
        if v.last().0 == name {
            assert forall|i: int| 0 <= i < w.len() implies (#[trigger] w[i]).0 == v[i].0 by {}
            assert forall|a: int, b: int| 0 <= a < b < w.len() implies before(
                (#[trigger] w[a]).0,
                (#[trigger] w[b]).0,
            ) by {
                assert(before(v[a].0, v[b].0));
            }
        } else if before(v.last().0, name) {
            assert forall|a: int, b: int| 0 <= a < b < w.len() implies before(
                (#[trigger] w[a]).0,
                (#[trigger] w[b]).0,
            ) by {
                if b == v.len() {
                    if a < n {
                        assert(before(v[a].0, v[n].0));
                        before_goes_on(v[a].0, v[n].0, name);
                    }
                } else {
                    assert(before(v[a].0, v[b].0));
                }
            }
            assert forall|i: int| 0 <= i < w.len() implies (#[trigger] w[i]).0 == name || exists|k: int|
                0 <= k < v.len() && (#[trigger] v[k]).0 == w[i].0 by {
                if i < v.len() {
                    assert(v[i].0 == w[i].0);
                }
            }
        } else {
            one_is_before(v.last().0, name);
            assert forall|a: int, b: int| 0 <= a < b < rest.len() implies before(
                (#[trigger] rest[a]).0,
                (#[trigger] rest[b]).0,
            ) by {
                assert(before(v[a].0, v[b].0));
            }
            entry_keeps_order(rest, name, j);
            let u = entered(rest, name, j);
            assert forall|a: int| 0 <= a < u.len() implies before((#[trigger] u[a]).0, v.last().0) by {
                if u[a].0 != name {
                    let k = choose|k: int| 0 <= k < rest.len() && (#[trigger] rest[k]).0 == u[a].0;
                    assert(before(v[k].0, v[n].0));
                }
            }
            assert forall|i: int| 0 <= i < w.len() implies (#[trigger] w[i]).0 == name || exists|k: int|
                0 <= k < v.len() && (#[trigger] v[k]).0 == w[i].0 by {
                if i < u.len() {
                    assert(w[i] == u[i]);
                    if u[i].0 != name {
                        let k = choose|k: int|
                            0 <= k < rest.len() && (#[trigger] rest[k]).0 == u[i].0;
                        assert(v[k].0 == w[i].0);
                    }
                } else {
                    assert(v[n].0 == w[i].0);
                }
            }
        }
    }
}

/// In order, the names of an object rise, and none of them stands twice.
pub proof fn names_rise(v: Seq<(Text, SJson)>)
    ensures
        ordered(in_order(v)),
    decreases v.len(),
{
    if v.len() > 0 {
        names_rise(v.drop_last());
        entry_keeps_order(in_order(v.drop_last()), v.last().0, v.last().1);
    }
}

} // verus!
