//! Finding declarations by name. Of two functions with one name the later one
//! counts, of two other declarations the earlier one.
use crate::ast::{EnumDecl, Field, FnDecl, Program, StructDecl, Variant};
use crate::text::same;
use vstd::prelude::*;

verus! {

/// The last of the first `n` functions that has this name.
pub open spec fn fn_below(fns: Seq<FnDecl>, name: Seq<char>, n: int) -> Option<int>
    decreases n,
{
    if n <= 0 || n > fns.len() {
        None
    } else if fns[n - 1].name@ == name {
        Some(n - 1)
    } else {
        fn_below(fns, name, n - 1)
    }
}

/// The function that `name` stands for.
pub open spec fn fn_named(p: Program, name: Seq<char>) -> Option<int> {
    fn_below(p.fns@, name, p.fns@.len() as int)
}

pub open spec fn struct_from(structs: Seq<StructDecl>, name: Seq<char>, i: int) -> Option<int>
    decreases structs.len() - i,
{
    if i < 0 || i >= structs.len() {
        None
    } else if structs[i].name@ == name {
        Some(i)
    } else {
        struct_from(structs, name, i + 1)
    }
}

/// The struct that `name` stands for.
pub open spec fn struct_named(p: Program, name: Seq<char>) -> Option<int> {
    struct_from(p.structs@, name, 0)
}

pub open spec fn variant_from(variants: Seq<Variant>, name: Seq<char>, i: int) -> Option<int>
    decreases variants.len() - i,
{
    if i < 0 || i >= variants.len() {
        None
    } else if variants[i].name@ == name {
        Some(i)
    } else {
        variant_from(variants, name, i + 1)
    }
}

pub open spec fn enum_from(enums: Seq<EnumDecl>, name: Seq<char>, i: int) -> Option<(int, int)>
    decreases enums.len() - i,
{
    if i < 0 || i >= enums.len() {
        None
    } else {
        match variant_from(enums[i].variants@, name, 0) {
            Some(j) => Some((i, j)),
            None => enum_from(enums, name, i + 1),
        }
    }
}

/// The enum and the variant that a variant's name stands for.
pub open spec fn variant_named(p: Program, name: Seq<char>) -> Option<(int, int)> {
    enum_from(p.enums@, name, 0)
}

pub open spec fn field_from(fields: Seq<Field>, name: Seq<char>, i: int) -> Option<int>
    decreases fields.len() - i,
{
    if i < 0 || i >= fields.len() {
        None
    } else if fields[i].name@ == name {
        Some(i)
    } else {
        field_from(fields, name, i + 1)
    }
}

/// The place of the field that `name` stands for.
pub open spec fn field_named(d: StructDecl, name: Seq<char>) -> Option<int> {
    field_from(d.fields@, name, 0)
}

/// `r` is the place that `s` gives.
pub open spec fn same_place(r: Option<usize>, s: Option<int>, len: nat) -> bool {
    match r {
        Some(i) => s == Some(i as int) && i < len,
        None => s is None,
    }
}

pub fn find_fn(p: &Program, name: &str) -> (r: Option<usize>)
    ensures
        same_place(r, fn_named(*p, name@), p.fns@.len()),
        r matches Some(i) ==> p.fns@[i as int].name@ == name@,
{
    let mut i: usize = p.fns.len();
    while i > 0
        invariant
            i <= p.fns@.len(),
            fn_named(*p, name@) == fn_below(p.fns@, name@, i as int),
        decreases i,
    {
        i = i - 1;
        if same(p.fns[i].name.as_str(), name) {
            return Some(i);
        }
    }
    None
}

pub fn find_struct(p: &Program, name: &str) -> (r: Option<usize>)
    ensures
        same_place(r, struct_named(*p, name@), p.structs@.len()),
{
    let mut i: usize = 0;
    while i < p.structs.len()
        invariant
            i <= p.structs@.len(),
            struct_named(*p, name@) == struct_from(p.structs@, name@, i as int),
        decreases p.structs@.len() - i,
    {
        if same(p.structs[i].name.as_str(), name) {
            return Some(i);
        }
        i = i + 1;
    }
    None
}

pub fn find_field(d: &StructDecl, name: &str) -> (r: Option<usize>)
    ensures
        same_place(r, field_named(*d, name@), d.fields@.len()),
{
    let mut i: usize = 0;
    while i < d.fields.len()
        invariant
            i <= d.fields@.len(),
            field_named(*d, name@) == field_from(d.fields@, name@, i as int),
        decreases d.fields@.len() - i,
    {
        if same(d.fields[i].name.as_str(), name) {
            return Some(i);
        }
        i = i + 1;
    }
    None
}

fn find_in(variants: &Vec<Variant>, name: &str) -> (r: Option<usize>)
    ensures
        same_place(r, variant_from(variants@, name@, 0), variants@.len()),
{
    let mut i: usize = 0;
    while i < variants.len()
        invariant
            i <= variants@.len(),
            variant_from(variants@, name@, 0) == variant_from(variants@, name@, i as int),
        decreases variants@.len() - i,
    {
        if same(variants[i].name.as_str(), name) {
            return Some(i);
        }
        i = i + 1;
    }
    None
}

pub fn find_variant(p: &Program, name: &str) -> (r: Option<(usize, usize)>)
    ensures
        match r {
            Some(ij) => {
                &&& variant_named(*p, name@) == Some((ij.0 as int, ij.1 as int))
                &&& ij.0 < p.enums@.len()
                &&& ij.1 < p.enums@[ij.0 as int].variants@.len()
            },
            None => variant_named(*p, name@) is None,
        },
{
    let mut i: usize = 0;
    while i < p.enums.len()
        invariant
            i <= p.enums@.len(),
            variant_named(*p, name@) == enum_from(p.enums@, name@, i as int),
        decreases p.enums@.len() - i,
    {
        match find_in(&p.enums[i].variants, name) {
            Some(j) => {
                return Some((i, j));
            }
            None => {}
        }
        i = i + 1;
    }
    None
}

/// The first function called `name`, from `i` on.
pub open spec fn first_fn(v: Seq<FnDecl>, name: Seq<char>, i: int) -> Option<int>
    decreases v.len() - i,
{
    if i < 0 || i >= v.len() {
        None
    } else if v[i].name@ == name {
        Some(i)
    } else {
        first_fn(v, name, i + 1)
    }
}

/// The place of the first function called `name`.
pub fn find_first_fn(p: &Program, name: &str) -> (r: Option<usize>)
    ensures
        same_place(r, first_fn(p.fns@, name@, 0), p.fns@.len()),
{
    let mut i: usize = 0;
    while i < p.fns.len()
        invariant
            i <= p.fns@.len(),
            first_fn(p.fns@, name@, 0) == first_fn(p.fns@, name@, i as int),
        decreases p.fns@.len() - i,
    {
        if same(p.fns[i].name.as_str(), name) {
            return Some(i);
        }
        i = i + 1;
    }
    None
}

} // verus!
