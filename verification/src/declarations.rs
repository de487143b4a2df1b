//! What a name stands for: of two functions with one name the later, of two structs, fields or
//! variants the earlier.
use crate::ast::{EnumDecl, Field, FnDecl, Program, StructDecl, Variant};
use crate::registry::{
    enum_from, field_from, field_named, fn_below, fn_named, struct_from, struct_named,
    variant_from, variant_named,
};
use vstd::prelude::*;

verus! {

proof fn last_function(v: Seq<FnDecl>, name: Seq<char>, n: int)
    requires
        0 <= n <= v.len(),
    ensures
        match fn_below(v, name, n) {
            Some(i) => 0 <= i < n && v[i].name@ == name && forall|j: int|
                i < j < n ==> (#[trigger] v[j]).name@ != name,
            None => forall|j: int| 0 <= j < n ==> (#[trigger] v[j]).name@ != name,
        },
    decreases n,
{
    if n > 0 {
        last_function(v, name, n - 1);
    }
}

/// A name stands for the last function that has it, where there is one.
pub proof fn functions_are_found(p: Program, name: Seq<char>)
    ensures
        match fn_named(p, name) {
            Some(i) => 0 <= i < p.fns@.len() && p.fns@[i].name@ == name && forall|j: int|
                i < j < p.fns@.len() ==> (#[trigger] p.fns@[j]).name@ != name,
            None => forall|j: int| 0 <= j < p.fns@.len() ==> (#[trigger] p.fns@[j]).name@ != name,
        },
{
    last_function(p.fns@, name, p.fns@.len() as int);
}

proof fn first_struct(v: Seq<StructDecl>, name: Seq<char>, i: int)
    requires
        0 <= i <= v.len(),
    ensures
        match struct_from(v, name, i) {
            Some(k) => i <= k < v.len() && v[k].name@ == name && forall|j: int|
                i <= j < k ==> (#[trigger] v[j]).name@ != name,
            None => forall|j: int| i <= j < v.len() ==> (#[trigger] v[j]).name@ != name,
        },
    decreases v.len() - i,
{
    if i < v.len() {
        first_struct(v, name, i + 1);
    }
}

proof fn first_field(v: Seq<Field>, name: Seq<char>, i: int)
    requires
        0 <= i <= v.len(),
    ensures
        match field_from(v, name, i) {
            Some(k) => i <= k < v.len() && v[k].name@ == name && forall|j: int|
                i <= j < k ==> (#[trigger] v[j]).name@ != name,
            None => forall|j: int| i <= j < v.len() ==> (#[trigger] v[j]).name@ != name,
        },
    decreases v.len() - i,
{
    if i < v.len() {
        first_field(v, name, i + 1);
    }
}

/// A name stands for the first struct that has it, and in a struct for the first field.
pub proof fn structs_and_fields_are_found(p: Program, d: StructDecl, name: Seq<char>)
    ensures
        match struct_named(p, name) {
            Some(k) => 0 <= k < p.structs@.len() && p.structs@[k].name@ == name && forall|j: int|
                0 <= j < k ==> (#[trigger] p.structs@[j]).name@ != name,
            None => forall|j: int|
                0 <= j < p.structs@.len() ==> (#[trigger] p.structs@[j]).name@ != name,
        },
        match field_named(d, name) {
            Some(k) => 0 <= k < d.fields@.len() && d.fields@[k].name@ == name && forall|j: int|
                0 <= j < k ==> (#[trigger] d.fields@[j]).name@ != name,
            None => forall|j: int|
                0 <= j < d.fields@.len() ==> (#[trigger] d.fields@[j]).name@ != name,
        },
{
    first_struct(p.structs@, name, 0);
    first_field(d.fields@, name, 0);
}

proof fn first_variant(v: Seq<Variant>, name: Seq<char>, i: int)
    requires
        0 <= i <= v.len(),
    ensures
        match variant_from(v, name, i) {
            Some(k) => i <= k < v.len() && v[k].name@ == name && forall|j: int|
                i <= j < k ==> (#[trigger] v[j]).name@ != name,
            None => forall|j: int| i <= j < v.len() ==> (#[trigger] v[j]).name@ != name,
        },
    decreases v.len() - i,
{
    if i < v.len() {
        first_variant(v, name, i + 1);
    }
}

/// Some variant of the enum has the name.
pub open spec fn has_variant(d: EnumDecl, name: Seq<char>) -> bool {
    exists|j: int| 0 <= j < d.variants@.len() && (#[trigger] d.variants@[j]).name@ == name
}

proof fn first_enum(v: Seq<EnumDecl>, name: Seq<char>, i: int)
    requires
        0 <= i <= v.len(),
    ensures
        match enum_from(v, name, i) {
            Some(k) => {
                &&& i <= k.0 < v.len()
                &&& 0 <= k.1 < v[k.0].variants@.len()
                &&& v[k.0].variants@[k.1].name@ == name
                &&& forall|j: int| i <= j < k.0 ==> !has_variant(#[trigger] v[j], name)
                &&& forall|j: int|
                    0 <= j < k.1 ==> (#[trigger] v[k.0].variants@[j]).name@ != name
            },
            None => forall|j: int| i <= j < v.len() ==> !has_variant(#[trigger] v[j], name),
        },
    decreases v.len() - i,
{
    if i < v.len() {
        first_variant(v[i].variants@, name, 0);
        first_enum(v, name, i + 1);
    }
}

/// A variant's name stands for the first variant that has it, in the first enum with such a
/// variant.
pub proof fn variants_are_found(p: Program, name: Seq<char>)
    ensures
        match variant_named(p, name) {
            Some(k) => {
                &&& 0 <= k.0 < p.enums@.len()
                &&& 0 <= k.1 < p.enums@[k.0].variants@.len()
                &&& p.enums@[k.0].variants@[k.1].name@ == name
                &&& forall|j: int| 0 <= j < k.0 ==> !has_variant(#[trigger] p.enums@[j], name)
                &&& forall|j: int|
                    0 <= j < k.1 ==> (#[trigger] p.enums@[k.0].variants@[j]).name@ != name
            },
            None => forall|j: int|
                0 <= j < p.enums@.len() ==> !has_variant(#[trigger] p.enums@[j], name),
        },
{
    first_enum(p.enums@, name, 0);
}

} // verus!
