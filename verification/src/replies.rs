//! What callers of a service can rely on: which request calls what, who is let in, what
//! a call is made with, and what its answer says.
use crate::ast::{Field, FnDecl, Program, Requirement, STy};
use crate::json::{entry_from, SJson};
use crate::registry::{first_fn, struct_named};
use crate::serve::{
    answered, arguments, bearer, decode, decode_fields, dispatched_as, encode, encode_all,
    encode_fields, encode_rows, expired, gate, meets_requirement, routed, verified_identity,
    Identity, Method, Prepared, Read, SBearer, SDispatch, SRoute,
};
use crate::value::SValue;
use vstd::prelude::*;

verus! {

/// The value of a `Result`: a success or a failure.
pub open spec fn result_value(success: bool, x: SValue) -> SValue {
    SValue::Enum(
        "Result"@,
        if success {
            "Ok"@
        } else {
            "Err"@
        },
        seq![x],
    )
}

/// A success is an object with the one key `ok`, a failure one with the one key `err`;
/// both hold the document of what they carry. So no document of a success is one of a
/// failure, whatever the two carry.
pub proof fn results_are_told_apart(p: Program, x: SValue, y: SValue)
    ensures
        encode(p, x) matches Read::Is(j) ==> {
            &&& encode(p, result_value(true, x)) == Read::Is(SJson::Obj(seq![(seq!['o', 'k'], j)]))
            &&& encode(p, result_value(false, x)) == Read::Is(
                SJson::Obj(seq![(seq!['e', 'r', 'r'], j)]),
            )
        },
        encode(p, x) matches Read::Not(m) ==> encode(p, result_value(true, x)) == Read::<SJson>::Not(m)
            && encode(p, result_value(false, x)) == Read::<SJson>::Not(m),
        encode(p, x) is Is && encode(p, y) is Is ==> encode(p, result_value(true, x)) != encode(
            p,
            result_value(false, y),
        ),
{
    reveal_strlit("ok");
    reveal_strlit("err");
    reveal_strlit("Ok");
    reveal_strlit("Err");
    assert("ok"@ =~= seq!['o', 'k']);
    assert("err"@ =~= seq!['e', 'r', 'r']);
    assert("Ok"@.len() != "Err"@.len());
    assert(seq![x][0] == x);
    assert(seq![y][0] == y);
    if encode(p, x) is Is && encode(p, y) is Is {
        let a = encode(p, x)->Is_0;
        let b = encode(p, y)->Is_0;
        let u = seq![(seq!['o', 'k'], a)];
        let v = seq![(seq!['e', 'r', 'r'], b)];
        assert(u[0].0.len() != v[0].0.len());
        assert(u != v);
    }
}

/// An optional value is its content, or `null`.
pub proof fn options_are_their_content(p: Program, x: SValue)
    ensures
        encode(p, SValue::Enum("Option"@, "Some"@, seq![x])) == encode(p, x),
        encode(p, SValue::Enum("Option"@, "None"@, Seq::empty())) == Read::Is(SJson::Null),
{
    reveal_strlit("Option");
    reveal_strlit("Result");
    reveal_strlit("Some");
    reveal_strlit("None");
    assert("Option"@[0] != "Result"@[0]);
    assert("Some"@[0] != "None"@[0]);
    assert(seq![x][0] == x);
}

proof fn all_of(p: Program, v: Seq<SValue>, a: int, b: int)
    requires
        0 <= a <= b <= v.len(),
        encode_all(p, v, a, b) is Is,
    ensures
        encode_all(p, v, a, b)->Is_0.len() == b - a,
        forall|i: int|
            0 <= i < b - a ==> encode(p, #[trigger] v[a + i]) == Read::Is(
                encode_all(p, v, a, b)->Is_0[i],
            ),
    decreases b - a,
{
    if a < b {
        all_of(p, v, a, b - 1);
        let done = encode_all(p, v, a, b - 1)->Is_0;
        let all = encode_all(p, v, a, b)->Is_0;
        assert(all == done.push(encode(p, v[b - 1])->Is_0));
        assert forall|i: int| 0 <= i < b - a implies encode(p, #[trigger] v[a + i]) == Read::Is(all[i]) by {
            if i < b - a - 1 {
                assert(all[i] == done[i]);
            }
        }
    }
}

/// A vector is the list of its elements, in order.
pub proof fn vectors_are_lists(p: Program, v: Seq<SValue>)
    ensures
        encode(p, SValue::Vector(v)) matches Read::Is(j) ==> (j matches SJson::Arr(a) && a.len()
            == v.len() && forall|i: int|
            0 <= i < v.len() ==> encode(p, #[trigger] v[i]) == Read::Is(a[i])),
{
    if encode(p, SValue::Vector(v)) is Is {
        all_of(p, v, 0, v.len() as int);
        let a = encode_all(p, v, 0, v.len() as int)->Is_0;
        assert forall|i: int| 0 <= i < v.len() implies encode(p, #[trigger] v[i]) == Read::Is(a[i]) by {
            assert(v[0 + i] == v[i]);
        }
    }
}

proof fn rows_of(p: Program, v: Seq<SValue>, cols: nat, n: nat)
    requires
        encode_rows(p, v, cols, n) is Is,
    ensures
        encode_rows(p, v, cols, n)->Is_0.len() == n,
        n * cols <= v.len(),
        forall|r: int, c: int|
            0 <= r < n && 0 <= c < cols ==> (#[trigger] row_entry(encode_rows(p, v, cols, n)->Is_0, r, c))
                == Some(encode(p, v[r * cols + c])),
    decreases n,
{
    if n > 0 {
        let m = (n - 1) as nat;
        rows_of(p, v, cols, m);
        let done = encode_rows(p, v, cols, m)->Is_0;
        let all = encode_rows(p, v, cols, n)->Is_0;
        assert(m * cols + cols == n * cols) by (nonlinear_arith)
            requires
                m == n - 1,
        ;
        all_of(p, v, (n - 1) * cols, (n * cols) as int);
        let row = encode_all(p, v, (n - 1) * cols, (n * cols) as int)->Is_0;
        assert(all == done.push(SJson::Arr(row)));
        assert forall|r: int, c: int| 0 <= r < n && 0 <= c < cols implies (#[trigger] row_entry(all, r, c))
            == Some(encode(p, v[r * cols + c])) by {
            if r < n - 1 {
                assert(all[r] == done[r]);
                assert(row_entry(done, r, c) == Some(encode(p, v[r * cols + c])));
            } else {
                assert(r == n - 1);
                assert(encode(p, v[(n - 1) * cols + c]) == Read::Is(row[c]));
            }
        }
    } else {
        assert(n * cols == 0) by (nonlinear_arith)
            requires
                n == 0,
        ;
    }
}

/// What a list of lists holds in a row and a column, as it was read.
pub open spec fn row_entry(a: Seq<SJson>, r: int, c: int) -> Option<Read<SJson>> {
    match a[r] {
        SJson::Arr(row) => if 0 <= c < row.len() {
            Some(Read::Is(row[c]))
        } else {
            None
        },
        _ => None,
    }
}

/// A matrix is the list of its rows, each the list of its elements.
pub proof fn matrices_are_lists_of_rows(p: Program, v: Seq<SValue>, rows: usize, cols: usize)
    ensures
        encode(p, SValue::Matrix(v, rows, cols)) matches Read::Is(j) ==> (j matches SJson::Arr(a)
            && a.len() == rows && forall|r: int, c: int|
            0 <= r < rows && 0 <= c < cols ==> (#[trigger] row_entry(a, r, c)) == Some(
                encode(p, v[r * cols + c]),
            )),
{
    if encode(p, SValue::Matrix(v, rows, cols)) is Is {
        rows_of(p, v, cols as nat, rows as nat);
    }
}

/// Any other value of an enum is an object that names its variant and lists what it
/// carries, so that two such values of one document are of one variant.
pub proof fn variants_are_named(
    p: Program,
    e: Seq<char>,
    a: Seq<char>,
    v: Seq<SValue>,
    b: Seq<char>,
    w: Seq<SValue>,
)
    requires
        e != "Result"@ && e != "Option"@,
    ensures
        encode(p, SValue::Enum(e, a, v)) matches Read::Is(j) ==> (j matches SJson::Obj(o) && o.len()
            == 2 && o[0] == ("variant"@, SJson::Str(a)) && o[1].0 == "payload"@ && (
        o[1].1 matches SJson::Arr(d) && d.len() == v.len() && forall|i: int|
            0 <= i < v.len() ==> encode(p, #[trigger] v[i]) == Read::Is(d[i]))),
        encode(p, SValue::Enum(e, a, v)) is Is && encode(p, SValue::Enum(e, a, v)) == encode(
            p,
            SValue::Enum(e, b, w),
        ) ==> a == b && v.len() == w.len(),
{
    if encode(p, SValue::Enum(e, a, v)) is Is {
        all_of(p, v, 0, v.len() as int);
        let d = encode_all(p, v, 0, v.len() as int)->Is_0;
        assert forall|i: int| 0 <= i < v.len() implies encode(p, #[trigger] v[i]) == Read::Is(d[i]) by {
            assert(v[0 + i] == v[i]);
        }
        if encode(p, SValue::Enum(e, a, v)) == encode(p, SValue::Enum(e, b, w)) {
            all_of(p, w, 0, w.len() as int);
            let x = encode(p, SValue::Enum(e, a, v))->Is_0->Obj_0;
            let y = encode(p, SValue::Enum(e, b, w))->Is_0->Obj_0;
            assert(x[0].1 == SJson::Str(a));
            assert(y[0].1 == SJson::Str(b));
            assert(x[1].1 == SJson::Arr(d));
            assert(y[1].1 == SJson::Arr(encode_all(p, w, 0, w.len() as int)->Is_0));
        }
    }
}

proof fn fields_of_object(p: Program, fields: Seq<Field>, v: Seq<SValue>, n: nat)
    requires
        n <= v.len(),
        encode_fields(p, fields, v, n) is Is,
    ensures
        encode_fields(p, fields, v, n)->Is_0.len() == n,
        forall|i: int|
            0 <= i < n ==> (#[trigger] encode_fields(p, fields, v, n)->Is_0[i]).0 == fields[i].name@
                && encode(p, v[i]) == Read::Is(encode_fields(p, fields, v, n)->Is_0[i].1),
    decreases n,
{
    if n > 0 {
        fields_of_object(p, fields, v, (n - 1) as nat);
        let done = encode_fields(p, fields, v, (n - 1) as nat)->Is_0;
        let all = encode_fields(p, fields, v, n)->Is_0;
        assert(all == done.push((fields[n - 1].name@, encode(p, v[n - 1])->Is_0)));
        assert forall|i: int| 0 <= i < n implies (#[trigger] all[i]).0 == fields[i].name@ && encode(p, v[i])
            == Read::Is(all[i].1) by {
            if i < n - 1 {
                assert(all[i] == done[i]);
            }
        }
    }
}

/// A struct is an object with one entry for each field, under the field's name.
pub proof fn structs_are_objects(p: Program, name: Seq<char>, v: Seq<SValue>, k: int)
    requires
        struct_named(p, name) == Some(k),
        v.len() == p.structs@[k].fields@.len(),
    ensures
        encode(p, SValue::Struct(name, v)) matches Read::Is(j) ==> (j matches SJson::Obj(o) && o.len()
            == v.len() && forall|i: int|
            0 <= i < v.len() ==> (#[trigger] o[i]).0 == p.structs@[k].fields@[i].name@ && encode(p, v[i])
                == Read::Is(o[i].1)),
{
    if encode(p, SValue::Struct(name, v)) is Is {
        fields_of_object(p, p.structs@[k].fields@, v, v.len());
    }
}

/// A plain value is written as the plain document of its kind. A number that is
/// infinite, or none, is `null`.
pub proof fn plain_values_are_plain(p: Program, n: i64, b: bool, s: Seq<char>, f: u64)
    ensures
        encode(p, SValue::Int(n)) == Read::Is(SJson::Int(n as i128)),
        encode(p, SValue::Bool(b)) == Read::Is(SJson::Bool(b)),
        encode(p, SValue::Str(s)) == Read::Is(SJson::Str(s)),
        encode(p, SValue::Unit) == Read::Is(SJson::Null),
        f & 0x7FF0_0000_0000_0000 != 0x7FF0_0000_0000_0000 ==> encode(p, SValue::Float(f)) == Read::Is(
            SJson::Float(f),
        ),
        f & 0x7FF0_0000_0000_0000 == 0x7FF0_0000_0000_0000 ==> encode(p, SValue::Float(f)) == Read::Is(
            SJson::Null,
        ),
{
    assert((f & 0x7FF0_0000_0000_0000 == 0x7FF0_0000_0000_0000) == !(f & 0x7FFF_FFFF_FFFF_FFFF
        < 0x7FF0_0000_0000_0000)) by (bit_vector);
}

/// The first entry of a name, where there is one.
pub open spec fn first_entry(o: Seq<(Seq<char>, SJson)>, name: Seq<char>, k: int) -> bool {
    0 <= k < o.len() && o[k].0 == name && forall|j: int| 0 <= j < k ==> (#[trigger] o[j]).0 != name
}

proof fn entry_is_first(o: Seq<(Seq<char>, SJson)>, name: Seq<char>, i: int)
    requires
        0 <= i,
        forall|j: int| 0 <= j < i && j < o.len() ==> (#[trigger] o[j]).0 != name,
    ensures
        match entry_from(o, name, i) {
            Some(k) => first_entry(o, name, k),
            None => forall|j: int| 0 <= j < o.len() ==> (#[trigger] o[j]).0 != name,
        },
    decreases o.len() - i,
{
    if i < o.len() && o[i].0 != name {
        entry_is_first(o, name, i + 1);
    }
}

/// A call is made with what the body has under each parameter's name, read as the
/// parameter's type; where the body lacks a name, no call is made.
pub proof fn arguments_are_their_fields(
    p: Program,
    f: FnDecl,
    o: Seq<(Seq<char>, SJson)>,
    identity: Option<Identity>,
    n: nat,
    i: int,
)
    requires
        0 <= i < n <= f.params@.len(),
        !verified_identity(f.params@[i].ty@),
    ensures
        arguments(p, f, o, identity, n) matches Prepared::With(v) ==> v.len() == n && exists|k: int|
            #[trigger] first_entry(o, f.params@[i].name@, k) && decode(
                p,
                o[k].1,
                f.params@[i].ty@,
                0,
            ) == Read::Is(v[i]),
        (forall|k: int| 0 <= k < o.len() ==> (#[trigger] o[k]).0 != f.params@[i].name@)
            ==> !(arguments(p, f, o, identity, n) is With),
    decreases n,
{
    crate::serve::calls_are_complete(p, f, o, identity, n);
    crate::serve::calls_are_complete(p, f, o, identity, (n - 1) as nat);
    entry_is_first(o, f.params@[i].name@, 0);
    if i < n - 1 {
        arguments_are_their_fields(p, f, o, identity, (n - 1) as nat, i);
        if let Prepared::With(v) = arguments(p, f, o, identity, n) {
            let w = arguments(p, f, o, identity, (n - 1) as nat)->With_0;
            assert(v[i] == w[i]);
        }
    } else if let Prepared::With(v) = arguments(p, f, o, identity, n) {
        let k = entry_from(o, f.params@[i].name@, 0)->0;
        assert(first_entry(o, f.params@[i].name@, k));
    }
}

/// A type that takes an identity is the declared type of that name, without arguments.
pub proof fn identities_are_named(t: STy)
    ensures
        verified_identity(t) == (t == STy::Named("VerifiedIdentity"@, Seq::empty())),
{
    if let STy::Named(n, args) = t {
        if args.len() == 0 {
            assert(args =~= Seq::empty());
        }
    }
}

/// What is read of a plain document is a value of the kind that the type asks for, and
/// it is read of no other kind of document.
pub proof fn plain_documents_are_read(p: Program, j: SJson, t: STy, depth: nat, v: SValue)
    requires
        decode(p, j, t, depth) == Read::Is(v),
    ensures
        t is Str ==> (j matches SJson::Str(s) && v == SValue::Str(s)),
        t is Bool ==> (j matches SJson::Bool(b) && v == SValue::Bool(b)),
        crate::ast::integer(t) ==> (j matches SJson::Int(n) && (v matches SValue::Int(k) && k == n)),
        t is F64 ==> (j is Int || j is Float) && v is Float,
        t is F64 ==> (j matches SJson::Float(b) ==> v == SValue::Float(b)),
        t is Str || t is Bool || t is F64 || crate::ast::integer(t) || t is Named,
{
}

proof fn fields_are_their_entries(
    p: Program,
    o: Seq<(Seq<char>, SJson)>,
    name: Seq<char>,
    fields: Seq<Field>,
    n: nat,
    depth: nat,
    i: int,
)
    requires
        0 <= i < n <= fields.len(),
        decode_fields(p, o, name, fields, n, depth) is Is,
    ensures
        decode_fields(p, o, name, fields, n, depth)->Is_0.len() == n,
        exists|k: int|
            #[trigger] first_entry(o, fields[i].name@, k) && decode(p, o[k].1, fields[i].ty@, depth)
                == Read::Is(decode_fields(p, o, name, fields, n, depth)->Is_0[i]),
    decreases n,
{
    let v = decode_fields(p, o, name, fields, n, depth)->Is_0;
    let w = decode_fields(p, o, name, fields, (n - 1) as nat, depth)->Is_0;
    if n > 1 {
        fields_are_their_entries(p, o, name, fields, (n - 1) as nat, depth, 0);
    }
    if i < n - 1 {
        fields_are_their_entries(p, o, name, fields, (n - 1) as nat, depth, i);
        assert(v[i] == w[i]);
    } else {
        entry_is_first(o, fields[i].name@, 0);
        let k = entry_from(o, fields[i].name@, 0)->0;
        assert(first_entry(o, fields[i].name@, k));
        assert(v[i] == decode(p, o[k].1, fields[i].ty@, depth)->Is_0);
    }
}

/// A struct is read of an object: each field is what the object has under its name.
pub proof fn structs_are_read_by_name(p: Program, j: SJson, name: Seq<char>, k: int, depth: nat, i: int)
    requires
        name != "Option"@,
        struct_named(p, name) == Some(k),
        0 <= i < p.structs@[k].fields@.len(),
    ensures
        decode(p, j, STy::Named(name, Seq::empty()), depth) matches Read::Is(v) ==> (
        v matches SValue::Struct(n, w) && n == name && w.len() == p.structs@[k].fields@.len() && (
        j matches SJson::Obj(o) && exists|e: int|
            #[trigger] first_entry(o, p.structs@[k].fields@[i].name@, e) && decode(
                p,
                o[e].1,
                p.structs@[k].fields@[i].ty@,
                depth + 1,
            ) == Read::Is(w[i]))),
        depth >= 2 ==> decode(p, j, STy::Named(name, Seq::empty()), depth) is Not,
{
    let fields = p.structs@[k].fields@;
    if let Read::Is(v) = decode(p, j, STy::Named(name, Seq::empty()), depth) {
        let o = j->Obj_0;
        fields_are_their_entries(p, o, name, fields, fields.len(), depth + 1, i);
    }
}

/// A request calls a function exactly where it is a `POST` of `/api/` and the name of
/// the function.
pub proof fn calls_are_posts(method: Method, url: Seq<char>, name: Seq<char>)
    ensures
        routed(method, url) == SRoute::Call(name) <==> method is Post && url == seq![
            '/',
            'a',
            'p',
            'i',
            '/',
        ] + name,
        routed(method, url) is Page <==> method is Get && url == seq!['/'],
        routed(method, url) is Preflight <==> method is Options,
{
    reveal_strlit("/api/");
    reveal_strlit("/");
    let pre = "/api/"@;
    assert(pre =~= seq!['/', 'a', 'p', 'i', '/']);
    assert("/"@ =~= seq!['/']);
    if url == pre + name {
        assert(url.subrange(0, 5) =~= pre);
        assert(url.subrange(5, url.len() as int) =~= name);
    }
    if crate::serve::starts_with(url, pre) {
        assert(url =~= pre + url.subrange(5, url.len() as int));
    }
}

/// A token is what stands behind `Bearer ` or `bearer ` in the header of a request for
/// a function that is there, where tokens can be validated. A header of any other form
/// is answered, and a request without one is anonymous.
pub proof fn tokens_stand_behind_bearer(
    p: Program,
    name: Seq<char>,
    header: Option<Seq<char>>,
    configured: bool,
    t: Seq<char>,
)
    ensures
        bearer(p, name, header, configured) == SBearer::Token(t) <==> first_fn(p.fns@, name, 0) is Some
            && configured && (header matches Some(h) && (h == "Bearer "@ + t || h == "bearer "@ + t)),
        bearer(p, name, header, configured) is Anonymous <==> first_fn(p.fns@, name, 0) is Some
            && header is None,
        bearer(p, name, header, configured) matches SBearer::Answered(r) ==> r.status == if first_fn(
            p.fns@,
            name,
            0,
        ) is None {
            404u16
        } else if configured {
            401
        } else {
            500
        },
{
    reveal_strlit("Bearer ");
    reveal_strlit("bearer ");
    let big = "Bearer "@;
    let low = "bearer "@;
    if let Some(h) = header {
        assert(big[0] != low[0]);
        if h == big + t {
            assert(h.subrange(0, 7) =~= big);
            assert(h.subrange(7, h.len() as int) =~= t);
        }
        if h == low + t {
            assert(h.subrange(0, 7) =~= low);
            assert(h.subrange(7, h.len() as int) =~= t);
            assert(h[0] == low[0]);
            assert(h.subrange(0, 7)[0] == h[0]);
        }
        if crate::serve::starts_with(h, big) {
            assert(h =~= big + h.subrange(7, h.len() as int));
        }
        if crate::serve::starts_with(h, low) {
            assert(h =~= low + h.subrange(7, h.len() as int));
        }
    }
}

/// Whoever is not let in is told why: 401 without an identity, 403 with one that does
/// not do. Whoever meets the requirement is let in, and everybody where there is none.
pub proof fn gates_open_for_those_who_may(f: FnDecl, identity: Option<Identity>)
    ensures
        gate(f, identity) is None <==> (f.requirement matches Some(q) ==> (identity matches Some(id)
            && meets_requirement(id, q))),
        gate(f, identity) matches Some(r) ==> r.status == if identity is None {
            401u16
        } else {
            403
        },
{
}

/// A role is met by an identity that has it among its roles, so that more roles never
/// shut anybody out; a claim by an identity whose first claim of that name has that
/// value.
pub proof fn requirements_are_met(id: Identity, role: String, key: String, value: String)
    ensures
        meets_requirement(id, Requirement::Role(role)) <==> exists|i: int|
            0 <= i < id.roles@.len() && (#[trigger] id.roles@[i])@ == role@,
        meets_requirement(id, Requirement::Claim(key, value)) <==> exists|i: int|
            #[trigger] first_claim(id.claims@, key@, i) && id.claims@[i].1@ == value@,
{
    claim_is_first(id.claims@, key@, 0);
    if let Some(x) = crate::serve::claim_from(id.claims@, key@, 0) {
        let k = choose|k: int| #[trigger] first_claim(id.claims@, key@, k) && id.claims@[k].1@ == x;
        assert forall|i: int| #[trigger] first_claim(id.claims@, key@, i) implies i == k by {
            if i < k {
                assert(id.claims@[i].0@ != key@);
            } else if k < i {
                assert(id.claims@[k].0@ != key@);
            }
        }
    }
}

/// The first claim of a name.
pub open spec fn first_claim(v: Seq<(String, String)>, key: Seq<char>, k: int) -> bool {
    0 <= k < v.len() && v[k].0@ == key && forall|j: int| 0 <= j < k ==> (#[trigger] v[j]).0@ != key
}

proof fn claim_is_first(v: Seq<(String, String)>, key: Seq<char>, i: int)
    requires
        0 <= i,
        forall|j: int| 0 <= j < i && j < v.len() ==> (#[trigger] v[j]).0@ != key,
    ensures
        match crate::serve::claim_from(v, key, i) {
            Some(x) => exists|k: int| #[trigger] first_claim(v, key, k) && v[k].1@ == x,
            None => forall|j: int| 0 <= j < v.len() ==> (#[trigger] v[j]).0@ != key,
        },
    decreases v.len() - i,
{
    if i < v.len() {
        if v[i].0@ == key {
            assert(first_claim(v, key, i));
        } else {
            claim_is_first(v, key, i + 1);
        }
    }
}

/// A token is good up to and at the second at which it runs out, and never after; one
/// of which that second is not known does not run out.
pub proof fn tokens_run_out_once(
    p: Program,
    name: Seq<char>,
    body: Seq<char>,
    id: Identity,
    t: i64,
    now: i64,
)
    requires
        id.expires_at == Some(t),
    ensures
        now <= t ==> !expired(id, now),
        now > t ==> (dispatched_as(p, name, body, Ok(id), now) matches SDispatch::Answer(r) && r.status
            == 401),
{
}

/// An answer of 200 is the document of what the call came to; any other answer is 500,
/// and its body is an object whose one key is `err` and holds a text.
pub proof fn answers_say_how_it_went(p: Program, name: Seq<char>, outcome: Result<SValue, Seq<char>>)
    ensures
        answered(p, name, outcome).status == 200 <==> (outcome matches Ok(v) && encode(p, v) is Is),
        outcome matches Ok(v) ==> (encode(p, v) matches Read::Is(j) ==> answered(p, name, outcome).body
            == j),
        answered(p, name, outcome).status != 200 ==> answered(p, name, outcome).status == 500 && (
        answered(p, name, outcome).body matches SJson::Obj(o) && o.len() == 1 && o[0].0 == seq![
            'e',
            'r',
            'r',
        ] && o[0].1 is Str),
        outcome matches Err(m) ==> (answered(p, name, outcome).body matches SJson::Obj(o) && o.len()
            == 1 && o[0].1 == SJson::Str(m)),
{
    reveal_strlit("err");
    assert("err"@ =~= seq!['e', 'r', 'r']);
}

} // verus!
