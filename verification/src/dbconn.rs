//! Databases: which backend a connection string names, how values are bound and
//! how rows become JSON.
use crate::json::{Json, SJson, entries_view, json_view};
use crate::text::{cat2, dec, dec_u64, same};
use crate::value::magnitude;
use vstd::prelude::*;
use vstd::string::*;

verus! {

/// A value that is bound to a placeholder.
#[derive(Debug, Clone)]
pub enum Param {
    Int(i64),
    /// By its IEEE 754 bits.
    Float(u64),
    Text(String),
    Bool(bool),
}

/// A database system, and whether the connection is encrypted.
#[derive(Debug, Clone, Copy, PartialEq, Eq, Structural)]
pub enum Backend {
    Sqlite,
    Postgres { tls: bool },
}

pub open spec fn begins(s: Seq<char>, p: Seq<char>) -> bool {
    occurs_at(s, p, 0)
}

/// `p` stands in `s` at `i`.
pub open spec fn occurs_at(s: Seq<char>, p: Seq<char>, i: int) -> bool {
    0 <= i && i + p.len() <= s.len() && s.subrange(i, i + p.len()) == p
}

pub open spec fn contains(s: Seq<char>, p: Seq<char>) -> bool {
    exists|i: int| #[trigger] occurs_at(s, p, i)
}

/// The backend that a connection string names: its scheme decides, and a
/// connection to Postgres is encrypted where the string asks for it.
pub open spec fn backend(s: Seq<char>) -> Backend {
    if begins(s, "postgres://"@) || begins(s, "postgresql://"@) {
        Backend::Postgres {
            tls: contains(s, "sslmode=require"@) || contains(s, "sslmode=verify-ca"@) || contains(
                s,
                "sslmode=verify-full"@,
            ),
        }
    } else {
        Backend::Sqlite
    }
}

/// Whether `p` stands in `s` at `i`.
fn stands_at(s: &str, p: &str, i: usize, n: usize, m: usize) -> (r: bool)
    requires
        n == s@.len(),
        m == p@.len(),
        i <= n,
    ensures
        r == occurs_at(s@, p@, i as int),
{
    if m > n - i {
        return false;
    }
    same(s.substring_char(i, i + m), p)
}

fn has_text(s: &str, p: &str) -> (r: bool)
    ensures
        r == contains(s@, p@),
{
    let n: usize = s.unicode_len();
    let m: usize = p.unicode_len();
    let mut i: usize = 0;
    while i < n
        invariant
            n == s@.len(),
            m == p@.len(),
            i <= n,
            forall|j: int| 0 <= j < i ==> !#[trigger] occurs_at(s@, p@, j),
        decreases n - i,
    {
        if stands_at(s, p, i, n, m) {
            return true;
        }
        i = i + 1;
    }
    let last = stands_at(s, p, n, n, m);
    proof {
        if contains(s@, p@) {
            let j = choose|j: int| #[trigger] occurs_at(s@, p@, j);
            assert(j == n);
        }
    }
    last
}

/// The backend that a connection string names.
pub fn choose_backend(conn_str: &str) -> (r: Backend)
    ensures
        r == backend(conn_str@),
{
    let n: usize = conn_str.unicode_len();
    let a = "postgres://";
    let b = "postgresql://";
    if stands_at(conn_str, a, 0, n, a.unicode_len()) || stands_at(
        conn_str,
        b,
        0,
        n,
        b.unicode_len(),
    ) {
        Backend::Postgres {
            tls: has_text(conn_str, "sslmode=require") || has_text(conn_str, "sslmode=verify-ca")
                || has_text(conn_str, "sslmode=verify-full"),
        }
    } else {
        Backend::Sqlite
    }
}

/// A value as SQLite stores it.
#[derive(Debug, Clone)]
pub enum SqliteValue {
    Integer(i64),
    Real(u64),
    Text(String),
}

/// What SQLite stores for a parameter: it has no truth values, so they are 0 and 1.
pub open spec fn stored_as(p: Param, v: SqliteValue) -> bool {
    match p {
        Param::Int(n) => v == SqliteValue::Integer(n),
        Param::Float(b) => v == SqliteValue::Real(b),
        Param::Text(s) => v matches SqliteValue::Text(t) && t@ == s@,
        Param::Bool(b) => v == SqliteValue::Integer(
            if b {
                1
            } else {
                0
            },
        ),
    }
}

/// The values that are bound in SQLite, in order.
pub fn sqlite_bind(params: &Vec<Param>) -> (r: Vec<SqliteValue>)
    ensures
        r@.len() == params@.len(),
        forall|i: int| 0 <= i < params@.len() ==> stored_as(params@[i], #[trigger] r@[i]),
{
    let mut out: Vec<SqliteValue> = Vec::new();
    let mut i: usize = 0;
    while i < params.len()
        invariant
            i <= params@.len(),
            out@.len() == i,
            forall|j: int| 0 <= j < i ==> stored_as(params@[j], #[trigger] out@[j]),
        decreases params@.len() - i,
    {
        let v = match &params[i] {
            Param::Int(n) => SqliteValue::Integer(*n),
            Param::Float(b) => SqliteValue::Real(*b),
            Param::Text(s) => SqliteValue::Text(s.clone()),
            Param::Bool(b) => SqliteValue::Integer(
                if *b {
                    1
                } else {
                    0
                },
            ),
        };
        out.push(v);
        i = i + 1;
    }
    out
}

/// A statement under way: the text so far, how many placeholders it has, and
/// whether it stands inside a string.
pub ghost struct Rewrite {
    pub text: Seq<char>,
    pub count: nat,
    pub quoted: bool,
}

/// One character more. A placeholder becomes a numbered one, unless it stands
/// inside a string.
pub open spec fn rewrite_char(w: Rewrite, c: char) -> Rewrite {
    if c == '\'' {
        Rewrite { text: w.text.push(c), quoted: !w.quoted, ..w }
    } else if c == '?' && !w.quoted {
        Rewrite {
            text: w.text.push('$') + dec((w.count + 1) as int),
            count: w.count + 1,
            ..w
        }
    } else {
        Rewrite { text: w.text.push(c), ..w }
    }
}

pub open spec fn rewrite(s: Seq<char>) -> Rewrite
    decreases s.len(),
{
    if s.len() == 0 {
        Rewrite { text: Seq::empty(), count: 0, quoted: false }
    } else {
        rewrite_char(rewrite(s.drop_last()), s.last())
    }
}

proof fn rewrite_counts(s: Seq<char>)
    ensures
        rewrite(s).count <= s.len(),
    decreases s.len(),
{
    if s.len() > 0 {
        rewrite_counts(s.drop_last());
    }
}

/// The statement with its placeholders `?` numbered as `$1`, `$2` and so on.
pub fn rewrite_placeholders(sql: &str) -> (r: String)
    ensures
        r@ == rewrite(sql@).text,
{
    let n: usize = sql.unicode_len();
    let mut out = String::new();
    let mut count: u64 = 0;
    let mut quoted = false;
    let mut i: usize = 0;
    proof {
        assert(sql@.take(0).len() == 0);
        assert(out@ =~= rewrite(sql@.take(0)).text);
    }
    while i < n
        invariant
            n == sql@.len(),
            i <= n,
            rewrite(sql@.take(i as int)) == (Rewrite { text: out@, count: count as nat, quoted }),
        decreases n - i,
    {
        let c = sql.get_char(i);
        proof {
            rewrite_counts(sql@.take(i as int));
            assert(sql@.take(i + 1).drop_last() =~= sql@.take(i as int));
        }
        if c == '\'' {
            quoted = !quoted;
            out.push(c);
        } else if c == '?' && !quoted {
            count = count + 1;
            out.push('$');
            let d = dec_u64(count);
            out.append(d.as_str());
        } else {
            out.push(c);
        }
        i = i + 1;
    }
    proof {
        assert(sql@.take(i as int) =~= sql@);
    }
    out
}

/// Where a statement has no placeholder outside of its strings, it stays as it is.
pub proof fn plain_statements_are_kept(s: Seq<char>)
    requires
        forall|i: int|
            0 <= i < s.len() && #[trigger] s[i] == '?' ==> rewrite(s.take(i)).quoted,
    ensures
        rewrite(s).text == s,
        rewrite(s).count == 0,
    decreases s.len(),
{
    if s.len() > 0 {
        let d = s.drop_last();
        assert forall|i: int| 0 <= i < d.len() && #[trigger] d[i] == '?' implies rewrite(
            d.take(i),
        ).quoted by {
            assert(s[i] == '?');
            assert(d.take(i) =~= s.take(i));
        }
        plain_statements_are_kept(d);
        assert(s.take(s.len() - 1) =~= d);
        assert(s[s.len() - 1] == s.last());
        assert(d.push(s.last()) =~= s);
    } else {
        assert(rewrite(s).text =~= s);
    }
}

/// The placeholders are numbered in order: one behind a statement with `n` of them
/// gets the next number.
pub proof fn placeholders_are_numbered_in_order(s: Seq<char>)
    requires
        !rewrite(s).quoted,
    ensures
        rewrite(s.push('?')).text == rewrite(s).text.push('$') + dec(
            (rewrite(s).count + 1) as int,
        ),
        rewrite(s.push('?')).count == rewrite(s).count + 1,
{
    assert(s.push('?').drop_last() =~= s);
}

/// The column types of Postgres that have a document.
#[derive(Debug, Clone, Copy, PartialEq, Eq, Structural)]
pub enum PgKind {
    Bool,
    Int2,
    Int4,
    Int8,
    Float4,
    Float8,
    Text,
}

pub open spec fn pg_kind(name: Seq<char>) -> Option<PgKind> {
    if name == "bool"@ {
        Some(PgKind::Bool)
    } else if name == "int2"@ {
        Some(PgKind::Int2)
    } else if name == "int4"@ {
        Some(PgKind::Int4)
    } else if name == "int8"@ {
        Some(PgKind::Int8)
    } else if name == "float4"@ {
        Some(PgKind::Float4)
    } else if name == "float8"@ {
        Some(PgKind::Float8)
    } else if name == "text"@ || name == "varchar"@ || name == "bpchar"@ || name == "name"@ || name
        == "citext"@ {
        Some(PgKind::Text)
    } else {
        None
    }
}

/// How a column of that type is read.
pub fn column_kind(name: &str) -> (r: Result<PgKind, String>)
    ensures
        match r {
            Ok(k) => pg_kind(name@) == Some(k),
            Err(m) => pg_kind(name@) is None && m@ == "unsupported postgres column type: "@ + name@,
        },
{
    if same(name, "bool") {
        Ok(PgKind::Bool)
    } else if same(name, "int2") {
        Ok(PgKind::Int2)
    } else if same(name, "int4") {
        Ok(PgKind::Int4)
    } else if same(name, "int8") {
        Ok(PgKind::Int8)
    } else if same(name, "float4") {
        Ok(PgKind::Float4)
    } else if same(name, "float8") {
        Ok(PgKind::Float8)
    } else if same(name, "text") || same(name, "varchar") || same(name, "bpchar") || same(
        name,
        "name",
    ) || same(name, "citext") {
        Ok(PgKind::Text)
    } else {
        Err(cat2("unsupported postgres column type: ", name))
    }
}

/// The value of one column of one row.
#[derive(Debug, Clone)]
pub enum Cell {
    Null,
    Bool(bool),
    Int(i64),
    Float(u64),
    Text(String),
    Blob(Vec<u8>),
}

/// The lower-case hexadecimal digit for `d`.
pub open spec fn low_digit(d: int) -> char {
    if d < 10 {
        ('0' as u8 + d) as char
    } else {
        ('a' as u8 + (d - 10)) as char
    }
}

/// Bytes as text, two hexadecimal digits each.
pub open spec fn blob_text(b: Seq<u8>) -> Seq<char> {
    Seq::new(
        2 * b.len(),
        |i: int|
            if i % 2 == 0 {
                low_digit(b[i / 2] as int / 16)
            } else {
                low_digit(b[i / 2] as int % 16)
            },
    )
}

fn low_char(d: u8) -> (r: char)
    requires
        d < 16,
    ensures
        r == low_digit(d as int),
{
    if d < 10 {
        (48u8 + d) as char
    } else {
        (97u8 + (d - 10)) as char
    }
}

fn blob_string(b: &Vec<u8>) -> (r: String)
    ensures
        r@ == blob_text(b@),
{
    let mut s = String::new();
    let mut i: usize = 0;
    while i < b.len()
        invariant
            i <= b@.len(),
            s@ == blob_text(b@.take(i as int)),
        decreases b@.len() - i,
    {
        s.push(low_char(b[i] / 16));
        s.push(low_char(b[i] % 16));
        proof {
            assert(s@ =~= blob_text(b@.take(i + 1)));
        }
        i = i + 1;
    }
    proof {
        assert(b@.take(i as int) =~= b@);
    }
    s
}

/// The document of a cell. Bytes are written in hexadecimal digits. A number that JSON cannot hold is `null`.
pub open spec fn cell_json(c: Cell) -> SJson {
    match c {
        Cell::Null => SJson::Null,
        Cell::Bool(b) => SJson::Bool(b),
        Cell::Int(n) => SJson::Int(n as i128),
        Cell::Float(b) => if magnitude(b) < 0x7FF0_0000_0000_0000 {
            SJson::Float(b)
        } else {
            SJson::Null
        },
        Cell::Text(s) => SJson::Str(s@),
        Cell::Blob(b) => SJson::Str(blob_text(b@)),
    }
}

pub open spec fn row_entries(columns: Seq<(String, Cell)>) -> Seq<(Seq<char>, SJson)> {
    Seq::new(columns.len(), |i: int| (columns[i].0@, cell_json(columns[i].1)))
}

fn cell_document(c: &Cell) -> (r: Json)
    ensures
        r@ == cell_json(*c),
{
    match c {
        Cell::Null => Json::Null,
        Cell::Bool(b) => Json::Bool(*b),
        Cell::Int(n) => Json::Int(*n as i128),
        Cell::Float(b) => if *b & 0x7FFF_FFFF_FFFF_FFFF < 0x7FF0_0000_0000_0000 {
            Json::Float(*b)
        } else {
            Json::Null
        },
        Cell::Text(s) => Json::Str(s.clone()),
        Cell::Blob(b) => Json::Str(blob_string(b)),
    }
}

/// The document of a row: its columns by their names.
pub fn row_document(columns: &Vec<(String, Cell)>) -> (r: Json)
    ensures
        r@ == SJson::Obj(row_entries(columns@)),
{
    let mut out: Vec<(String, Json)> = Vec::new();
    let mut i: usize = 0;
    while i < columns.len()
        invariant
            i <= columns@.len(),
            out@.len() == i,
            forall|j: int|
                0 <= j < i ==> ((#[trigger] out@[j]).0@, json_view(out@[j].1)) == (
                    columns@[j].0@,
                    cell_json(columns@[j].1),
                ),
        decreases columns@.len() - i,
    {
        out.push((columns[i].0.clone(), cell_document(&columns[i].1)));
        i = i + 1;
    }
    proof {
        assert(entries_view(out@) =~= row_entries(columns@));
    }
    Json::Obj(out)
}

} // verus!
