//! Run-time checks of a value against a type.
use crate::ast::{greatest, integer, least, name_of, tys_view, Field, Program, STy, Ty};
use crate::registry::{find_struct, find_variant, struct_named, variant_named};
use crate::text::{cat2, cat4, dec, dec_usize, same};
use crate::token::Span;
use crate::value::{
    kind_name, values_view, ErrorKind, RuntimeError, SError, SErrorKind, SValue, Value,
};
use vstd::prelude::*;
use vstd::string::*;

verus! {

/// What a check of a value against a type says. `Stuck` is for a value of a
/// type that the program does not declare.
pub enum Check {
    Fine,
    Fail(RuntimeError),
    Stuck,
}

pub ghost enum SCheck {
    Fine,
    Fail(SError),
    Stuck,
}

impl View for Check {
    type V = SCheck;

    open spec fn view(&self) -> SCheck {
        match *self {
            Check::Fine => SCheck::Fine,
            Check::Fail(e) => SCheck::Fail(e@),
            Check::Stuck => SCheck::Stuck,
        }
    }
}

pub open spec fn unfit(t: STy, found: Seq<char>, span: Span) -> SCheck {
    SCheck::Fail(
        SError { kind: SErrorKind::TypeMismatch { expected: name_of(t), found }, span },
    )
}

/// Whether a value is one of a type.
pub open spec fn fits(p: Program, v: SValue, t: STy, span: Span) -> SCheck
    decreases v,
{
    match (v, t) {
        (SValue::Bool(_), STy::Bool) => SCheck::Fine,
        (SValue::Unit, STy::Unit) => SCheck::Fine,
        (SValue::Boxed(x), STy::Box(u)) => fits(p, *x, *u, span),
        (SValue::Ref(x), STy::Ref(u)) => fits(p, *x, *u, span),
        (SValue::Thread(_), STy::Thread(_)) => SCheck::Fine,
        (SValue::Channel(_), STy::Channel(_)) => SCheck::Fine,
        (SValue::Sandbox(_), STy::Sandbox) => SCheck::Fine,
        (SValue::Str(_), STy::Str) => SCheck::Fine,
        (SValue::Tcp(_), STy::Tcp) => SCheck::Fine,
        (SValue::TcpListener(_), STy::TcpListener) => SCheck::Fine,
        (SValue::File(_), STy::File) => SCheck::Fine,
        (SValue::Float(_), STy::F64) => SCheck::Fine,
        (SValue::Vector(e), STy::Vector(u, n)) => if e.len() != n {
            unfit(t, "Vector of length "@ + dec(e.len() as int), span)
        } else {
            fit_all(p, e, *u, span)
        },
        (SValue::Matrix(e, r, c), STy::Matrix(u, wr, wc)) => if r != wr || c != wc {
            unfit(t, "Matrix "@ + dec(r as int) + "x"@ + dec(c as int), span)
        } else {
            fit_all(p, e, *u, span)
        },
        (SValue::Struct(name, f), STy::Named(want, _)) => if name != want {
            unfit(t, kind_name(v), span)
        } else {
            match struct_named(p, want) {
                Some(i) => fit_each(p, f, field_types(p.structs@[i].fields@), span),
                None => SCheck::Stuck,
            }
        },
        (SValue::Enum(name, variant, f), STy::Named(want, _)) => if name != want {
            unfit(t, kind_name(v), span)
        } else {
            match variant_named(p, variant) {
                Some(ij) => fit_each(
                    p,
                    f,
                    tys_view(p.enums@[ij.0].variants@[ij.1].payload@),
                    span,
                ),
                None => SCheck::Stuck,
            }
        },
        (SValue::Int(n), _) => if integer(t) {
            if least(t) <= n <= greatest(t) {
                SCheck::Fine
            } else {
                SCheck::Fail(
                    SError {
                        kind: SErrorKind::OutOfRange { ty: name_of(t), value: n },
                        span,
                    },
                )
            }
        } else {
            unfit(t, kind_name(v), span)
        },
        _ => unfit(t, kind_name(v), span),
    }
}

pub open spec fn field_types(f: Seq<Field>) -> Seq<STy> {
    Seq::new(f.len(), |i: int| f[i].ty@)
}

/// Whether every value is one of one type; the first that is not decides.
pub open spec fn fit_all(p: Program, v: Seq<SValue>, t: STy, span: Span) -> SCheck
    decreases v,
{
    if v.len() == 0 {
        SCheck::Fine
    } else {
        match fit_all(p, v.drop_last(), t, span) {
            SCheck::Fine => fits(p, v.last(), t, span),
            other => other,
        }
    }
}

/// Whether every value is one of the type in its place; the first that is not
/// decides, and what stands in no pair is not checked.
pub open spec fn fit_each(p: Program, v: Seq<SValue>, ts: Seq<STy>, span: Span) -> SCheck
    decreases v,
{
    if v.len() == 0 {
        SCheck::Fine
    } else {
        match fit_each(p, v.drop_last(), ts, span) {
            SCheck::Fine => if v.len() <= ts.len() {
                fits(p, v.last(), ts[v.len() - 1], span)
            } else {
                SCheck::Fine
            },
            other => other,
        }
    }
}

fn unfitting(t: &Ty, found: String, span: Span) -> (r: Check)
    ensures
        r@ == unfit(t@, found@, span),
{
    Check::Fail(
        RuntimeError { kind: ErrorKind::TypeMismatch { expected: t.name(), found }, span },
    )
}

/// Checks a value against a type.
pub fn check_ty(p: &Program, v: &Value, t: &Ty, span: Span) -> (r: Check)
    ensures
        r@ == fits(*p, v@, t@, span),
    decreases v,
{
    match (v, t) {
        (Value::Bool(_), Ty::Bool) => Check::Fine,
        (Value::Unit, Ty::Unit) => Check::Fine,
        (Value::Boxed(x), Ty::Box(u)) => check_ty(p, x, u, span),
        (Value::Ref(x), Ty::Ref(u)) => check_ty(p, x, u, span),
        (Value::Thread(_), Ty::Thread(_)) => Check::Fine,
        (Value::Channel(_), Ty::Channel(_)) => Check::Fine,
        (Value::Sandbox(_), Ty::Sandbox) => Check::Fine,
        (Value::Str(_), Ty::Str) => Check::Fine,
        (Value::Tcp(_), Ty::Tcp) => Check::Fine,
        (Value::TcpListener(_), Ty::TcpListener) => Check::Fine,
        (Value::File(_), Ty::File) => Check::Fine,
        (Value::Float(_), Ty::F64) => Check::Fine,
        (Value::Vector(e), Ty::Vector(u, n)) => {
            proof {
                assert(values_view(e@).len() == e@.len());
            }
            if e.len() != *n {
                let len = dec_usize(e.len());
                unfitting(t, cat2("Vector of length ", len.as_str()), span)
            } else {
                check_all(p, e, u, span)
            }
        }
        (Value::Matrix(e, r, c), Ty::Matrix(u, wr, wc)) => {
            if *r != *wr || *c != *wc {
                let rows = dec_usize(*r);
                let cols = dec_usize(*c);
                unfitting(t, cat4("Matrix ", rows.as_str(), "x", cols.as_str()), span)
            } else {
                check_all(p, e, u, span)
            }
        }
        (Value::Struct(name, f), Ty::Named(want, _)) => {
            if !same(name.as_str(), want.as_str()) {
                unfitting(t, v.ty_name().to_owned(), span)
            } else {
                match find_struct(p, want.as_str()) {
                    Some(i) => check_fields(p, f, &p.structs[i].fields, span),
                    None => Check::Stuck,
                }
            }
        }
        (Value::Enum(name, variant, f), Ty::Named(want, _)) => {
            if !same(name.as_str(), want.as_str()) {
                unfitting(t, v.ty_name().to_owned(), span)
            } else {
                match find_variant(p, variant.as_str()) {
                    Some((i, j)) => check_each(p, f, &p.enums[i].variants[j].payload, span),
                    None => Check::Stuck,
                }
            }
        }
        (Value::Int(n), _) => {
            if t.is_integer() {
                if t.in_range(*n) {
                    Check::Fine
                } else {
                    Check::Fail(
                        RuntimeError {
                            kind: ErrorKind::OutOfRange { ty: t.name(), value: *n },
                            span,
                        },
                    )
                }
            } else {
                unfitting(t, v.ty_name().to_owned(), span)
            }
        }
        _ => unfitting(t, v.ty_name().to_owned(), span),
    }
}

fn check_all(p: &Program, v: &Vec<Value>, t: &Ty, span: Span) -> (r: Check)
    ensures
        r@ == fit_all(*p, values_view(v@), t@, span),
    decreases v,
{
    let ghost all = values_view(v@);
    let mut i: usize = 0;
    proof {
        assert(all.take(0) =~= Seq::<SValue>::empty());
    }
    while i < v.len()
        invariant
            i <= v@.len(),
            all == values_view(v@),
            fit_all(*p, all.take(i as int), t@, span) == SCheck::Fine,
        decreases v@.len() - i,
    {
        let c = check_ty(p, &v[i], t, span);
        proof {
            assert(all.take(i + 1).drop_last() =~= all.take(i as int));
            assert(all.take(i + 1).last() == v@[i as int]@);
        }
        match c {
            Check::Fine => {}
            other => {
                proof {
                    fit_all_stops(*p, all, i as nat, t@, span);
                }
                return other;
            }
        }
        i = i + 1;
    }
    proof {
        assert(all.take(i as int) =~= all);
    }
    Check::Fine
}

proof fn fit_all_stops(p: Program, v: Seq<SValue>, i: nat, t: STy, span: Span)
    requires
        i < v.len(),
        fit_all(p, v.take(i as int), t, span) == SCheck::Fine,
        fits(p, v[i as int], t, span) != SCheck::Fine,
    ensures
        fit_all(p, v, t, span) == fits(p, v[i as int], t, span),
    decreases v.len(),
{
    if i == v.len() - 1 {
        assert(v.take(i as int) =~= v.drop_last());
    } else {
        assert(v.drop_last().take(i as int) =~= v.take(i as int));
        fit_all_stops(p, v.drop_last(), i, t, span);
    }
}

pub(crate) proof fn fit_each_stops(p: Program, v: Seq<SValue>, ts: Seq<STy>, i: nat, span: Span)
    requires
        i < v.len(),
        i < ts.len(),
        fit_each(p, v.take(i as int), ts, span) == SCheck::Fine,
        fits(p, v[i as int], ts[i as int], span) != SCheck::Fine,
    ensures
        fit_each(p, v, ts, span) == fits(p, v[i as int], ts[i as int], span),
    decreases v.len(),
{
    if i == v.len() - 1 {
        assert(v.take(i as int) =~= v.drop_last());
    } else {
        assert(v.drop_last().take(i as int) =~= v.take(i as int));
        fit_each_stops(p, v.drop_last(), ts, i, span);
    }
}

pub(crate) proof fn fit_each_ends(p: Program, v: Seq<SValue>, ts: Seq<STy>, i: nat, span: Span)
    requires
        i <= v.len(),
        i == v.len() || i >= ts.len(),
        fit_each(p, v.take(i as int), ts, span) == SCheck::Fine,
    ensures
        fit_each(p, v, ts, span) == SCheck::Fine,
    decreases v.len(),
{
    if i == v.len() {
        assert(v.take(i as int) =~= v);
    } else {
        assert(v.drop_last().take(i as int) =~= v.take(i as int));
        fit_each_ends(p, v.drop_last(), ts, i, span);
    }
}

fn check_fields(p: &Program, v: &Vec<Value>, fields: &Vec<Field>, span: Span) -> (r: Check)
    ensures
        r@ == fit_each(*p, values_view(v@), field_types(fields@), span),
    decreases v,
{
    let ghost all = values_view(v@);
    let ghost ts = field_types(fields@);
    let mut i: usize = 0;
    proof {
        assert(all.take(0) =~= Seq::<SValue>::empty());
    }
    while i < v.len() && i < fields.len()
        invariant
            i <= v@.len(),
            i <= fields@.len(),
            all == values_view(v@),
            ts == field_types(fields@),
            fit_each(*p, all.take(i as int), ts, span) == SCheck::Fine,
        decreases v@.len() - i,
    {
        let c = check_ty(p, &v[i], &fields[i].ty, span);
        proof {
            assert(all.take(i + 1).drop_last() =~= all.take(i as int));
            assert(all.take(i + 1).last() == v@[i as int]@);
        }
        match c {
            Check::Fine => {}
            other => {
                proof {
                    fit_each_stops(*p, all, ts, i as nat, span);
                }
                return other;
            }
        }
        i = i + 1;
    }
    proof {
        fit_each_ends(*p, all, ts, i as nat, span);
    }
    Check::Fine
}

pub(crate) fn check_each(p: &Program, v: &Vec<Value>, types: &Vec<Ty>, span: Span) -> (r: Check)
    ensures
        r@ == fit_each(*p, values_view(v@), tys_view(types@), span),
    decreases v,
{
    let ghost all = values_view(v@);
    let ghost ts = tys_view(types@);
    let mut i: usize = 0;
    proof {
        assert(all.take(0) =~= Seq::<SValue>::empty());
    }
    while i < v.len() && i < types.len()
        invariant
            i <= v@.len(),
            i <= types@.len(),
            all == values_view(v@),
            ts == tys_view(types@),
            fit_each(*p, all.take(i as int), ts, span) == SCheck::Fine,
        decreases v@.len() - i,
    {
        let c = check_ty(p, &v[i], &types[i], span);
        proof {
            assert(all.take(i + 1).drop_last() =~= all.take(i as int));
            assert(all.take(i + 1).last() == v@[i as int]@);
        }
        match c {
            Check::Fine => {}
            other => {
                proof {
                    fit_each_stops(*p, all, ts, i as nat, span);
                }
                return other;
            }
        }
        i = i + 1;
    }
    proof {
        fit_each_ends(*p, all, ts, i as nat, span);
    }
    Check::Fine
}

} // verus!
