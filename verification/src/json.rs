//! JSON documents.
use crate::text::same;
use vstd::prelude::*;

verus! {

/// A JSON document. Numbers that are integers are held as such; every other
/// number is held by its IEEE 754 bits.
#[derive(Debug)]
pub enum Json {
    Null,
    Bool(bool),
    Int(i128),
    Float(u64),
    Str(String),
    Arr(Vec<Json>),
    Obj(Vec<(String, Json)>),
}

/// A document, with its text and its parts as sequences.
pub ghost enum SJson {
    Null,
    Bool(bool),
    Int(i128),
    Float(u64),
    Str(Seq<char>),
    Arr(Seq<SJson>),
    Obj(Seq<(Seq<char>, SJson)>),
}

pub open spec fn json_view(j: Json) -> SJson
    decreases j,
{
    match j {
        Json::Null => SJson::Null,
        Json::Bool(b) => SJson::Bool(b),
        Json::Int(n) => SJson::Int(n),
        Json::Float(b) => SJson::Float(b),
        Json::Str(s) => SJson::Str(s@),
        Json::Arr(v) => SJson::Arr(jsons_view(v@)),
        Json::Obj(v) => SJson::Obj(entries_view(v@)),
    }
}

pub open spec fn jsons_view(v: Seq<Json>) -> Seq<SJson>
    decreases v,
{
    Seq::new(v.len(), |i: int| if 0 <= i < v.len() { json_view(v[i]) } else { SJson::Null })
}

pub open spec fn entries_view(v: Seq<(String, Json)>) -> Seq<(Seq<char>, SJson)>
    decreases v,
{
    Seq::new(
        v.len(),
        |i: int|
            if 0 <= i < v.len() {
                (v[i].0@, json_view(v[i].1))
            } else {
                (Seq::empty(), SJson::Null)
            },
    )
}

impl View for Json {
    type V = SJson;

    open spec fn view(&self) -> SJson {
        json_view(*self)
    }
}

/// A document as the parser hands it out: a `serde_json::Value`.
#[verifier::external_body]
pub struct Document {
    inner: serde_json::Value,
}

/// What a parsed document holds. The entries of an object are in the order of
/// their names.
pub uninterp spec fn value_content(v: Document) -> SJson;

/// The document that a text spells, or why it spells none.
pub uninterp spec fn json_read(text: Seq<char>) -> Result<SJson, Seq<char>>;

/// The text of a document.
pub uninterp spec fn json_text(j: SJson) -> Seq<char>;

/// The bits of the floating-point number that an integer is read as.
pub uninterp spec fn float_of(n: i128) -> u64;

/// The outermost layer of a document.
pub enum Layer {
    Null,
    Bool(bool),
    Int(i128),
    Float(u64),
    Str(String),
    Arr(Vec<Document>),
    Obj(Vec<(String, Document)>),
}

pub open spec fn contents(v: Seq<Document>) -> Seq<SJson> {
    Seq::new(v.len(), |i: int| value_content(v[i]))
}

pub open spec fn entry_contents(v: Seq<(String, Document)>) -> Seq<(Seq<char>, SJson)> {
    Seq::new(v.len(), |i: int| (v[i].0@, value_content(v[i].1)))
}

/// What a layer holds.
pub open spec fn layer_content(l: Layer) -> SJson {
    match l {
        Layer::Null => SJson::Null,
        Layer::Bool(b) => SJson::Bool(b),
        Layer::Int(n) => SJson::Int(n),
        Layer::Float(b) => SJson::Float(b),
        Layer::Str(s) => SJson::Str(s@),
        Layer::Arr(v) => SJson::Arr(contents(v@)),
        Layer::Obj(v) => SJson::Obj(entry_contents(v@)),
    }
}

/// Whether `a` comes before `b`.
pub open spec fn before(a: Seq<char>, b: Seq<char>) -> bool
    decreases a.len(),
{
    if b.len() == 0 {
        false
    } else if a.len() == 0 {
        true
    } else if a[0] != b[0] {
        a[0] < b[0]
    } else {
        before(a.skip(1), b.skip(1))
    }
}

/// Entries in the order of their names, with one entry more. It takes the place of
/// an entry of the same name.
pub open spec fn entered(
    v: Seq<(Seq<char>, SJson)>,
    name: Seq<char>,
    j: SJson,
) -> Seq<(Seq<char>, SJson)>
    decreases v.len(),
{
    if v.len() == 0 {
        seq![(name, j)]
    } else if v.last().0 == name {
        v.drop_last().push((name, j))
    } else if before(v.last().0, name) {
        v.push((name, j))
    } else {
        entered(v.drop_last(), name, j).push(v.last())
    }
}

/// Entries in the order of their names, the last of each name.
pub open spec fn in_order(v: Seq<(Seq<char>, SJson)>) -> Seq<(Seq<char>, SJson)>
    decreases v.len(),
{
    if v.len() == 0 {
        v
    } else {
        entered(in_order(v.drop_last()), v.last().0, v.last().1)
    }
}

/// What a document made of a layer holds.
pub open spec fn made_content(l: Layer) -> SJson {
    match layer_content(l) {
        SJson::Obj(v) => SJson::Obj(in_order(v)),
        j => j,
    }
}

/// `serde_json::from_str` for a whole document: what the text spells, or the text
/// of the parser's error.
#[verifier::external_body]
pub(crate) fn parse_value(text: &str) -> (r: Result<Document, String>)
    ensures
        match r {
            Ok(v) => json_read(text@) == Ok::<SJson, Seq<char>>(value_content(v)),
            Err(m) => json_read(text@) == Err::<SJson, Seq<char>>(m@),
        },
{
    match serde_json::from_str(text) {
        Ok(inner) => Ok(Document { inner }),
        Err(e) => Err(e.to_string()),
    }
}

/// Takes a `serde_json::Value` apart by its variants. A number is an integer where
/// `serde_json::Number::as_i128` says so.
#[verifier::external_body]
pub(crate) fn open_value(v: Document) -> (r: Layer)
    ensures
        layer_content(r) == value_content(v),
{
    match v.inner {
        serde_json::Value::Null => Layer::Null,
        serde_json::Value::Bool(b) => Layer::Bool(b),
        serde_json::Value::Number(n) => match n.as_i128() {
            Some(k) => Layer::Int(k),
            None => Layer::Float(n.as_f64().unwrap_or_default().to_bits()),
        },
        serde_json::Value::String(s) => Layer::Str(s),
        serde_json::Value::Array(a) => Layer::Arr(
            a.into_iter().map(|inner| Document { inner }).collect(),
        ),
        serde_json::Value::Object(o) => Layer::Obj(
            o.into_iter().map(|(k, inner)| (k, Document { inner })).collect(),
        ),
    }
}

/// Makes a `serde_json::Value` of a layer. An object keeps the last entry of each
/// name, in the order of the names.
#[verifier::external_body]
pub(crate) fn make_value(l: Layer) -> (r: Document)
    requires
        !(l is Float),
        l matches Layer::Int(n) ==> i64::MIN <= n <= u64::MAX,
    ensures
        value_content(r) == made_content(l),
{
    let inner = match l {
        Layer::Bool(b) => serde_json::Value::Bool(b),
        Layer::Int(n) => serde_json::Number::from_i128(n).into(),
        Layer::Str(s) => serde_json::Value::String(s),
        Layer::Arr(a) => a.into_iter().map(|d| d.inner).collect(),
        Layer::Obj(o) => o.into_iter().map(|(k, d)| (k, d.inner)).collect(),
        _ => serde_json::Value::Null,
    };
    Document { inner }
}

/// The compact text of a `serde_json::Value`, by its `Display`.
#[verifier::external_body]
pub(crate) fn value_text(v: &Document) -> (r: String)
    ensures
        r@ == json_text(value_content(*v)),
{
    v.inner.to_string()
}

/// The bits of `serde_json::Number::as_f64` for an integer.
#[verifier::external_body]
pub(crate) fn int_as_float(n: i128) -> (r: u64)
    ensures
        r == float_of(n),
{
    serde_json::Number::from_i128(n).and_then(|k| k.as_f64()).unwrap_or_default().to_bits()
}

fn convert(v: Document) -> (r: Json)
    ensures
        r@ == value_content(v),
    decreases value_content(v), 1nat,
{
    let ghost c = value_content(v);
    match open_value(v) {
        Layer::Null => Json::Null,
        Layer::Bool(b) => Json::Bool(b),
        Layer::Int(n) => Json::Int(n),
        Layer::Float(b) => Json::Float(b),
        Layer::Str(s) => Json::Str(s),
        Layer::Arr(a) => {
            proof {
                assert(c == SJson::Arr(contents(a@)));
                assert(c->Arr_0 == contents(a@));
                assert(decreases_to!(c => c->Arr_0));
            }
            Json::Arr(convert_all(a))
        }
        Layer::Obj(o) => {
            proof {
                assert(c == SJson::Obj(entry_contents(o@)));
                assert(c->Obj_0 == entry_contents(o@));
                assert(decreases_to!(c => c->Obj_0));
            }
            Json::Obj(convert_entries(o))
        }
    }
}

fn convert_all(v: Vec<Document>) -> (r: Vec<Json>)
    ensures
        jsons_view(r@) == contents(v@),
    decreases contents(v@), 0nat,
{
    let ghost all = contents(v@);
    let mut rest = v;
    let mut back: Vec<Json> = Vec::new();
    while rest.len() > 0
        invariant
            all == contents(v@),
            rest@.len() <= v@.len(),
            rest@ == v@.take(rest@.len() as int),
            back@.len() == v@.len() - rest@.len(),
            forall|i: int|
                0 <= i < back@.len() ==> (#[trigger] back@[i])@ == all[all.len() - 1 - i],
        decreases rest@.len(),
    {
        let n: usize = rest.len();
        match rest.pop() {
            Some(x) => {
                proof {
                    assert(x == v@[n - 1]);
                    assert(value_content(x) == all[n - 1]);
                    assert(rest@ =~= v@.take(n - 1));
                }
                back.push(convert(x));
            }
            None => {}
        }
    }
    let r = reversed(back);
    proof {
        assert(jsons_view(r@) =~= all);
    }
    r
}

fn reversed(v: Vec<Json>) -> (r: Vec<Json>)
    ensures
        r@.len() == v@.len(),
        forall|i: int| 0 <= i < r@.len() ==> #[trigger] r@[i] == v@[v@.len() - 1 - i],
{
    let mut rest = v;
    let mut out: Vec<Json> = Vec::new();
    while rest.len() > 0
        invariant
            rest@.len() <= v@.len(),
            rest@ == v@.take(rest@.len() as int),
            out@.len() == v@.len() - rest@.len(),
            forall|i: int| 0 <= i < out@.len() ==> #[trigger] out@[i] == v@[v@.len() - 1 - i],
        decreases rest@.len(),
    {
        let n: usize = rest.len();
        match rest.pop() {
            Some(x) => {
                proof {
                    assert(x == v@[n - 1]);
                    assert(rest@ =~= v@.take(n - 1));
                }
                out.push(x);
            }
            None => {}
        }
    }
    out
}

fn convert_entries(v: Vec<(String, Document)>) -> (r: Vec<(String, Json)>)
    ensures
        entries_view(r@) == entry_contents(v@),
    decreases entry_contents(v@), 0nat,
{
    let ghost all = entry_contents(v@);
    let mut rest = v;
    let mut back: Vec<(String, Json)> = Vec::new();
    while rest.len() > 0
        invariant
            all == entry_contents(v@),
            rest@.len() <= v@.len(),
            rest@ == v@.take(rest@.len() as int),
            back@.len() == v@.len() - rest@.len(),
            forall|i: int|
                0 <= i < back@.len() ==> ((#[trigger] back@[i]).0@, back@[i].1@) == all[all.len() - 1
                    - i],
        decreases rest@.len(),
    {
        let n: usize = rest.len();
        match rest.pop() {
            Some(x) => {
                proof {
                    assert(x == v@[n - 1]);
                    assert((x.0@, value_content(x.1)) == all[n - 1]);
                    assert(decreases_to!(all => all[n - 1]));
                    assert(decreases_to!(all[n - 1] => all[n - 1].1));
                    assert(rest@ =~= v@.take(n - 1));
                }
                let (name, value) = x;
                back.push((name, convert(value)));
            }
            None => {}
        }
    }
    let mut out: Vec<(String, Json)> = Vec::new();
    let ghost done = back@;
    while back.len() > 0
        invariant
            all == entry_contents(v@),
            done.len() == all.len(),
            back@.len() <= done.len(),
            back@ == done.take(back@.len() as int),
            out@.len() == done.len() - back@.len(),
            forall|i: int| 0 <= i < out@.len() ==> #[trigger] out@[i] == done[done.len() - 1 - i],
            forall|i: int|
                0 <= i < done.len() ==> ((#[trigger] done[i]).0@, done[i].1@) == all[all.len() - 1
                    - i],
        decreases back@.len(),
    {
        let n: usize = back.len();
        match back.pop() {
            Some(x) => {
                proof {
                    assert(x == done[n - 1]);
                    assert(back@ =~= done.take(n - 1));
                }
                out.push(x);
            }
            None => {}
        }
    }
    proof {
        assert forall|i: int| 0 <= i < all.len() implies #[trigger] entries_view(out@)[i]
            == all[i] by {
            let k = done.len() - 1 - i;
            assert(out@[i] == done[k]);
            assert((done[k].0@, done[k].1@) == all[all.len() - 1 - k]);
        }
        assert(entries_view(out@) =~= all);
    }
    out
}

/// Reads a document.
pub fn parse_json(text: &str) -> (r: Result<Json, String>)
    ensures
        match r {
            Ok(j) => json_read(text@) == Ok::<SJson, Seq<char>>(j@),
            Err(m) => json_read(text@) == Err::<SJson, Seq<char>>(m@),
        },
{
    match parse_value(text) {
        Ok(v) => Ok(convert(v)),
        Err(m) => Err(m),
    }
}

/// The document with the entries of its objects in order, where it can be written
/// without a floating-point number.
pub open spec fn writable(j: SJson) -> Option<SJson>
    decreases j,
{
    match j {
        SJson::Float(_) => None,
        SJson::Int(n) => if i64::MIN <= n <= u64::MAX {
            Some(j)
        } else {
            None
        },
        SJson::Arr(v) => match writable_all(v) {
            Some(w) => Some(SJson::Arr(w)),
            None => None,
        },
        SJson::Obj(v) => match writable_entries(v) {
            Some(w) => Some(SJson::Obj(in_order(w))),
            None => None,
        },
        _ => Some(j),
    }
}

pub open spec fn writable_all(v: Seq<SJson>) -> Option<Seq<SJson>>
    decreases v,
{
    if v.len() == 0 {
        Some(Seq::empty())
    } else {
        match (writable_all(v.drop_last()), writable(v.last())) {
            (Some(a), Some(b)) => Some(a.push(b)),
            _ => None,
        }
    }
}

pub open spec fn writable_entries(v: Seq<(Seq<char>, SJson)>) -> Option<Seq<(Seq<char>, SJson)>>
    decreases v,
{
    if v.len() == 0 {
        Some(Seq::empty())
    } else {
        match (writable_entries(v.drop_last()), writable(v.last().1)) {
            (Some(a), Some(b)) => Some(a.push((v.last().0, b))),
            _ => None,
        }
    }
}

proof fn writable_all_stops(v: Seq<SJson>, n: int)
    requires
        0 <= n <= v.len(),
        writable_all(v.take(n)) is None,
    ensures
        writable_all(v) is None,
    decreases v.len() - n,
{
    if n < v.len() {
        assert(v.take(n + 1).drop_last() =~= v.take(n));
        writable_all_stops(v, n + 1);
    } else {
        assert(v.take(n) =~= v);
    }
}

proof fn writable_entries_stops(v: Seq<(Seq<char>, SJson)>, n: int)
    requires
        0 <= n <= v.len(),
        writable_entries(v.take(n)) is None,
    ensures
        writable_entries(v) is None,
    decreases v.len() - n,
{
    if n < v.len() {
        assert(v.take(n + 1).drop_last() =~= v.take(n));
        writable_entries_stops(v, n + 1);
    } else {
        assert(v.take(n) =~= v);
    }
}

fn build(j: &Json) -> (r: Option<Document>)
    ensures
        match r {
            Some(v) => writable(j@) == Some(value_content(v)),
            None => writable(j@) is None,
        },
    decreases j, 1nat,
{
    match j {
        Json::Null => Some(make_value(Layer::Null)),
        Json::Bool(b) => Some(make_value(Layer::Bool(*b))),
        Json::Int(n) => if *n >= i64::MIN as i128 && *n <= u64::MAX as i128 {
            Some(make_value(Layer::Int(*n)))
        } else {
            None
        },
        Json::Float(_) => None,
        Json::Str(s) => Some(make_value(Layer::Str(s.clone()))),
        Json::Arr(v) => match build_all(v) {
            Some(a) => Some(make_value(Layer::Arr(a))),
            None => None,
        },
        Json::Obj(v) => match build_entries(v) {
            Some(a) => Some(make_value(Layer::Obj(a))),
            None => None,
        },
    }
}

fn build_all(v: &Vec<Json>) -> (r: Option<Vec<Document>>)
    ensures
        match r {
            Some(a) => writable_all(jsons_view(v@)) == Some(contents(a@)),
            None => writable_all(jsons_view(v@)) is None,
        },
    decreases v, 1nat,
{
    let ghost all = jsons_view(v@);
    let mut out: Vec<Document> = Vec::new();
    let mut i: usize = 0;
    proof {
        assert(all.len() == v@.len());
        assert(all.take(0).len() == 0);
        assert(contents(out@) =~= Seq::<SJson>::empty());
    }
    while i < v.len()
        invariant
            i <= v@.len(),
            all == jsons_view(v@),
            all.len() == v@.len(),
            writable_all(all.take(i as int)) == Some(contents(out@)),
        decreases v@.len() - i,
    {
        let x = build(&v[i]);
        proof {
            assert(all[i as int] == v@[i as int]@);
            assert(all.take(i + 1).drop_last() =~= all.take(i as int));
        }
        match x {
            Some(b) => {
                let ghost was = out@;
                let ghost c = value_content(b);
                out.push(b);
                proof {
                    assert(contents(out@) =~= contents(was).push(c));
                }
            }
            None => {
                proof {
                    writable_all_stops(all, i + 1);
                }
                return None;
            }
        }
        i = i + 1;
    }
    proof {
        assert(all.take(i as int) =~= all);
    }
    Some(out)
}

fn build_entries(v: &Vec<(String, Json)>) -> (r: Option<Vec<(String, Document)>>)
    ensures
        match r {
            Some(a) => writable_entries(entries_view(v@)) == Some(entry_contents(a@)),
            None => writable_entries(entries_view(v@)) is None,
        },
    decreases v, 1nat,
{
    let ghost all = entries_view(v@);
    let mut out: Vec<(String, Document)> = Vec::new();
    let mut i: usize = 0;
    proof {
        assert(all.len() == v@.len());
        assert(all.take(0).len() == 0);
        assert(entry_contents(out@) =~= Seq::<(Seq<char>, SJson)>::empty());
    }
    while i < v.len()
        invariant
            i <= v@.len(),
            all == entries_view(v@),
            all.len() == v@.len(),
            writable_entries(all.take(i as int)) == Some(entry_contents(out@)),
        decreases v@.len() - i,
    {
        let x = build(&v[i].1);
        proof {
            assert(all[i as int] == (v@[i as int].0@, v@[i as int].1@));
            assert(all.take(i + 1).drop_last() =~= all.take(i as int));
        }
        match x {
            Some(b) => {
                let ghost was = out@;
                let name = v[i].0.clone();
                let ghost e = (name@, value_content(b));
                out.push((name, b));
                proof {
                    assert(entry_contents(out@) =~= entry_contents(was).push(e));
                }
            }
            None => {
                proof {
                    writable_entries_stops(all, i + 1);
                }
                return None;
            }
        }
        i = i + 1;
    }
    proof {
        assert(all.take(i as int) =~= all);
    }
    Some(out)
}

/// The first entry of an object with that name, from `i` on.
pub open spec fn entry_from(v: Seq<(Seq<char>, SJson)>, name: Seq<char>, i: int) -> Option<int>
    decreases v.len() - i,
{
    if i < 0 || i >= v.len() {
        None
    } else if v[i].0 == name {
        Some(i)
    } else {
        entry_from(v, name, i + 1)
    }
}

/// The place of an entry of an object.
pub fn find_entry(v: &Vec<(String, Json)>, name: &str) -> (r: Option<usize>)
    ensures
        match r {
            Some(i) => i < v@.len() && entry_from(entries_view(v@), name@, 0) == Some(i as int)
                && entries_view(v@)[i as int] == (v@[i as int].0@, v@[i as int].1@),
            None => entry_from(entries_view(v@), name@, 0) is None,
        },
{
    let ghost all = entries_view(v@);
    proof {
        assert(all.len() == v@.len());
    }
    let mut i: usize = 0;
    while i < v.len()
        invariant
            i <= v@.len(),
            all == entries_view(v@),
            all.len() == v@.len(),
            entry_from(all, name@, 0) == entry_from(all, name@, i as int),
        decreases v@.len() - i,
    {
        proof {
            assert(all[i as int] == (v@[i as int].0@, v@[i as int].1@));
        }
        if same(v[i].0.as_str(), name) {
            return Some(i);
        }
        i = i + 1;
    }
    None
}

impl Json {
    /// The text of a document that holds no floating-point number. One that does is
    /// left to the caller.
    pub fn to_text(&self) -> (r: Option<String>)
        ensures
            match r {
                Some(s) => writable(self@) matches Some(j) && s@ == json_text(j),
                None => writable(self@) is None,
            },
    {
        match build(self) {
            Some(v) => Some(value_text(&v)),
            None => None,
        }
    }
}

} // verus!
