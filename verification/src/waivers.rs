//! Code generation keeps what it should: the functions that were made stay as they
//! are, and guards are waived exactly as long as an `audited` block lasts.
use crate::ast::{BinOp, ElseBranch, Expr, STy, Stmt};
use crate::builtins::{builtin_named, Builtin};
use crate::codegen::{
    args, array, branch, elems, expr, fewer, free_open, if_close, if_join, if_open, if_other,
    into_call, literal_place, literal_store, logic_left, logic_right, one_arg, param_tys,
    plain_call, prints, ptr, ptrs, rows, stmt, stmts, while_body, while_close, while_open, G,
    IfHead,
};
use crate::emit::{
    accept, agg_builtin, arith, call_fn, call_into, compare_all, compare_strings, connect,
    copy_slot, elementwise, flat_index, guard_failed, guard_io, guard_singular, invert, listen,
    multiply, negate, new_slot, print_value, ptr_count, read_elem, read_slot, recv,
    scalar_builtin, scale_matrix, send, stop, store3, str_literal, write_slot,
};
use crate::geometry::{
    bearing, ecef_to_enu, ecef_to_lla, enu_to_ecef, lla_round, lla_to_ecef, load3, rotation,
    weighted,
};
use crate::ir::{
    aggregate, byte_size, bytes_of, call1, call2, compare_floats, compare_ints, copy_bytes, cut,
    define, emit, free_box, fresh, fresh_global, fresh_label, fresh_slot, global, guard_index,
    guard_range, guard_test, llvm, load, minus, narrow, place, plus, slot, store, stored,
    string_parts, string_value, times, trap, widen, Cx, Gen, SLlvm, Text,
};
use crate::layout::{
    array_ty, check_index, check_range, free_all, frees, names_on, product_ty, trailing_ty,
    ty_of, Slots, SmtReport,
};
use crate::numeric::{
    add_all, and_also, apply_matrix, combine, combine_all, cross_entry, cross_product, entries,
    entries_row, fill, guard_divisor, image, load_all, magnitudes, product_row, product_rows,
    scale, store_all, sum_diagonal, sum_distances, sum_elements, sum_products, sum_squares,
    sum_value_products, test_equal, test_row, test_rows, turn_column, turn_columns, turned,
    turned_row, unit_row, unit_rows,
};
use crate::registry::fn_named;
use crate::scopes::opened;
use crate::text::dec;
use crate::token::Span;
use vstd::prelude::*;

verus! {

/// The finished functions are the same, and guards are waived or not as before.
pub open spec fn keeps(a: Cx, b: Cx) -> bool {
    b.head == a.head && b.audited == a.audited
}

/// What was made keeps what it should.
pub open spec fn made_keeps<T>(a: Cx, g: Gen<T>) -> bool {
    g matches Gen::Made(b, _) ==> keeps(a, b)
}

broadcast proof fn keeps_emit(cx: Cx, line: Text)
    ensures
        keeps(cx, #[trigger] emit(cx, line)),
{
    reveal(emit);
}

broadcast proof fn keeps_slot(cx: Cx, dest: Text, ty: Text)
    ensures
        keeps(cx, #[trigger] slot(cx, dest, ty)),
{
    reveal(slot);
}

broadcast proof fn keeps_fresh(cx: Cx, prefix: Text)
    ensures
        keeps(cx, (#[trigger] fresh(cx, prefix)).0),
{
    reveal(fresh);
}

broadcast proof fn keeps_fresh_global(cx: Cx, prefix: Text)
    ensures
        keeps(cx, (#[trigger] fresh_global(cx, prefix)).0),
{
    reveal(fresh_global);
}

broadcast proof fn keeps_fresh_label(cx: Cx, prefix: Text)
    ensures
        keeps(cx, (#[trigger] fresh_label(cx, prefix)).0),
{
    reveal(fresh_label);
}

broadcast proof fn keeps_define(cx: Cx, prefix: Text, rhs: Text)
    ensures
        keeps(cx, (#[trigger] define(cx, prefix, rhs)).0),
{
    broadcast use {keeps_emit, keeps_fresh};
    reveal(define);
}

broadcast proof fn keeps_fresh_slot(cx: Cx, prefix: Text, ty: Text)
    ensures
        keeps(cx, (#[trigger] fresh_slot(cx, prefix, ty)).0),
{
    broadcast use {keeps_slot, keeps_fresh};
    reveal(fresh_slot);
}

broadcast proof fn keeps_global(cx: Cx, line: Text)
    ensures
        keeps(cx, #[trigger] global(cx, line)),
{
    reveal(global);
}

broadcast proof fn keeps_widen(cx: Cx, val: Text, t: STy)
    ensures
        keeps(cx, (#[trigger] widen(cx, val, t)).0),
{
    broadcast use keeps_define;
    reveal(widen);
}

broadcast proof fn keeps_narrow(cx: Cx, val: Text, t: STy)
    ensures
        made_keeps(cx, #[trigger] narrow(cx, val, t)),
{
    broadcast use keeps_define;
    reveal(narrow);
}

broadcast proof fn keeps_stored(cx: Cx, val: Text, t: STy)
    ensures
        made_keeps(cx, #[trigger] stored(cx, val, t)),
{
    broadcast use keeps_narrow;
    reveal(stored);
}

broadcast proof fn keeps_trap(cx: Cx, fail: Text, pass: Text)
    ensures
        keeps(cx, #[trigger] trap(cx, fail, pass)),
{
    broadcast use keeps_emit;
    reveal(trap);
}

broadcast proof fn keeps_guard_range(cx: Cx, val: Text, lo: int, hi: int)
    ensures
        keeps(cx, #[trigger] guard_range(cx, val, lo, hi)),
{
    broadcast use {keeps_emit, keeps_fresh_label, keeps_define, keeps_trap};
    reveal(guard_range);
}

broadcast proof fn keeps_guard_index(cx: Cx, idx: Text, dim: nat)
    ensures
        keeps(cx, #[trigger] guard_index(cx, idx, dim)),
{
    broadcast use {keeps_emit, keeps_fresh_label, keeps_define, keeps_trap};
    reveal(guard_index);
}

broadcast proof fn keeps_guard_test(cx: Cx, reg: Text, test: Text, trap_label: Text, ok_label: Text)
    ensures
        keeps(cx, #[trigger] guard_test(cx, reg, test, trap_label, ok_label)),
{
    broadcast use {keeps_emit, keeps_fresh_label, keeps_define, keeps_trap};
    reveal(guard_test);
}

broadcast proof fn keeps_free_box(cx: Cx, ptr: Text, t: STy)
    ensures
        keeps(cx, #[trigger] free_box(cx, ptr, t)),
    decreases t,
{
    broadcast use {keeps_emit, keeps_define};
    match t {
        STy::Box(inner) => {
            let i = define(cx, "nested_box_inner"@, "load ptr, ptr "@ + ptr);
            keeps_free_box(i.0, i.1, *inner);
        }
        _ => {}
    }
}

broadcast proof fn keeps_string_parts(cx: Cx, val: Text, p: Text, l: Text)
    ensures
        keeps(cx, (#[trigger] string_parts(cx, val, p, l)).0),
{
    broadcast use keeps_define;
    reveal(string_parts);
}

broadcast proof fn keeps_string_value(cx: Cx, prefix: Text, ptr: Text, len: Text)
    ensures
        keeps(cx, (#[trigger] string_value(cx, prefix, ptr, len)).0),
{
    broadcast use keeps_define;
    reveal(string_value);
}

broadcast proof fn keeps_place(cx: Cx, base: Text, ty: Text, i: nat)
    ensures
        keeps(cx, (#[trigger] place(cx, base, ty, i)).0),
{
    broadcast use keeps_define;
    reveal(place);
}

broadcast proof fn keeps_load(cx: Cx, base: Text, ty: Text, elem: STy, i: nat)
    ensures
        keeps(cx, (#[trigger] load(cx, base, ty, elem, i)).0),
{
    broadcast use {keeps_define, keeps_widen, keeps_place};
    reveal(load);
}

broadcast proof fn keeps_cut(cx: Cx, val: Text, t: STy)
    ensures
        keeps(cx, (#[trigger] cut(cx, val, t)).0),
{
    broadcast use keeps_stored;
    reveal(cut);
}

broadcast proof fn keeps_store(cx: Cx, base: Text, ty: Text, elem: STy, i: nat, val: Text)
    ensures
        keeps(cx, #[trigger] store(cx, base, ty, elem, i, val)),
{
    broadcast use {keeps_emit, keeps_place, keeps_cut};
    reveal(store);
}

broadcast proof fn keeps_times(cx: Cx, l: Text, r: Text, float: bool)
    ensures
        keeps(cx, (#[trigger] times(cx, l, r, float)).0),
{
    broadcast use keeps_define;
    reveal(times);
}

broadcast proof fn keeps_plus(cx: Cx, l: Text, r: Text, float: bool)
    ensures
        keeps(cx, (#[trigger] plus(cx, l, r, float)).0),
{
    broadcast use keeps_define;
    reveal(plus);
}

broadcast proof fn keeps_minus(cx: Cx, l: Text, r: Text)
    ensures
        keeps(cx, (#[trigger] minus(cx, l, r)).0),
{
    broadcast use keeps_define;
    reveal(minus);
}

broadcast proof fn keeps_call1(cx: Cx, func: Text, a: Text)
    ensures
        keeps(cx, (#[trigger] call1(cx, func, a)).0),
{
    broadcast use keeps_define;
    reveal(call1);
}

broadcast proof fn keeps_call2(cx: Cx, func: Text, a: Text, b: Text)
    ensures
        keeps(cx, (#[trigger] call2(cx, func, a, b)).0),
{
    broadcast use keeps_define;
    reveal(call2);
}

broadcast proof fn keeps_compare_ints(cx: Cx, cond: Text, ty: Text, l: Text, r: Text)
    ensures
        keeps(cx, (#[trigger] compare_ints(cx, cond, ty, l, r)).0),
{
    broadcast use keeps_define;
    reveal(compare_ints);
}

broadcast proof fn keeps_compare_floats(cx: Cx, cond: Text, l: Text, r: Text)
    ensures
        keeps(cx, (#[trigger] compare_floats(cx, cond, l, r)).0),
{
    broadcast use keeps_define;
    reveal(compare_floats);
}

broadcast proof fn keeps_copy_bytes(cx: Cx, dest: Text, src: Text, bytes: nat)
    ensures
        keeps(cx, #[trigger] copy_bytes(cx, dest, src, bytes)),
{
    broadcast use keeps_emit;
    reveal(copy_bytes);
}

broadcast proof fn keeps_bearing(cx: Cx, from: Text, to: Text)
    ensures
        keeps(cx, (#[trigger] bearing(cx, from, to)).0),
{
    broadcast use {
        keeps_define,
        keeps_load,
        keeps_times,
        keeps_plus,
        keeps_minus,
        keeps_call1,
        keeps_call2,
    };
    reveal(bearing);
}

broadcast proof fn keeps_lla_to_ecef(cx: Cx, lat_deg: Text, lon_deg: Text, alt: Text)
    ensures
        keeps(cx, (#[trigger] lla_to_ecef(cx, lat_deg, lon_deg, alt)).0),
{
    broadcast use {keeps_define, keeps_times, keeps_plus, keeps_minus, keeps_call1};
    reveal(lla_to_ecef);
}

broadcast proof fn keeps_lla_round(cx: Cx, z: Text, p: Text, lat: Text)
    ensures
        keeps(cx, (#[trigger] lla_round(cx, z, p, lat)).0),
{
    broadcast use {keeps_define, keeps_times, keeps_plus, keeps_minus, keeps_call1, keeps_call2};
    reveal(lla_round);
}

broadcast proof fn keeps_ecef_to_lla(cx: Cx, x: Text, y: Text, z: Text)
    ensures
        keeps(cx, (#[trigger] ecef_to_lla(cx, x, y, z)).0),
{
    broadcast use {keeps_times, keeps_plus, keeps_minus, keeps_call1, keeps_call2, keeps_lla_round};
    reveal(ecef_to_lla);
}

broadcast proof fn keeps_rotation(cx: Cx, lat: Text, lon: Text)
    ensures
        keeps(cx, (#[trigger] rotation(cx, lat, lon)).0),
{
    broadcast use {keeps_define, keeps_times, keeps_call1};
    reveal(rotation);
}

broadcast proof fn keeps_weighted(
    cx: Cx,
    r0: Text,
    r1: Text,
    r2: Text,
    d0: Text,
    d1: Text,
    d2: Text,
)
    ensures
        keeps(cx, (#[trigger] weighted(cx, r0, r1, r2, d0, d1, d2)).0),
{
    broadcast use {keeps_times, keeps_plus};
    reveal(weighted);
}

broadcast proof fn keeps_ecef_to_enu(cx: Cx, a: Text, base: Text)
    ensures
        keeps(cx, (#[trigger] ecef_to_enu(cx, a, base)).0),
{
    broadcast use {
        keeps_load,
        keeps_times,
        keeps_minus,
        keeps_lla_to_ecef,
        keeps_rotation,
        keeps_weighted,
    };
    reveal(ecef_to_enu);
}

broadcast proof fn keeps_enu_to_ecef(cx: Cx, a: Text, base: Text)
    ensures
        keeps(cx, (#[trigger] enu_to_ecef(cx, a, base)).0),
{
    broadcast use {
        keeps_load,
        keeps_times,
        keeps_plus,
        keeps_lla_to_ecef,
        keeps_rotation,
        keeps_weighted,
    };
    reveal(enu_to_ecef);
}

broadcast proof fn keeps_load3(cx: Cx, a: Text)
    ensures
        keeps(cx, (#[trigger] load3(cx, a)).0),
{
    broadcast use keeps_load;
    reveal(load3);
}

broadcast proof fn keeps_guard_divisor(cx: Cx, d: Text, proven: bool)
    ensures
        keeps(cx, #[trigger] guard_divisor(cx, d, proven)),
{
    broadcast use keeps_guard_test;
    reveal(guard_divisor);
}

broadcast proof fn keeps_sum_products(
    cx: Cx,
    a: Text,
    b: Text,
    ty: Text,
    elem: STy,
    float: bool,
    i: nat,
    j: nat,
    step: nat,
    n: nat,
)
    ensures
        keeps(cx, (#[trigger] sum_products(cx, a, b, ty, elem, float, i, j, step, n)).0),
    decreases n,
{
    broadcast use {keeps_load, keeps_times, keeps_plus};
    if n > 0 {
        keeps_sum_products(cx, a, b, ty, elem, float, i, j, step, (n - 1) as nat);
    }
}

broadcast proof fn keeps_sum_elements(cx: Cx, a: Text, ty: Text, elem: STy, float: bool, n: nat)
    ensures
        keeps(cx, (#[trigger] sum_elements(cx, a, ty, elem, float, n)).0),
    decreases n,
{
    broadcast use {keeps_load, keeps_plus};
    if n > 0 {
        keeps_sum_elements(cx, a, ty, elem, float, (n - 1) as nat);
    }
}

broadcast proof fn keeps_sum_squares(cx: Cx, a: Text, n: nat)
    ensures
        keeps(cx, (#[trigger] sum_squares(cx, a, n)).0),
    decreases n,
{
    broadcast use {keeps_load, keeps_times, keeps_plus};
    if n > 0 {
        keeps_sum_squares(cx, a, (n - 1) as nat);
    }
}

broadcast proof fn keeps_magnitudes(cx: Cx, a: Text, greatest: bool, n: nat)
    ensures
        keeps(cx, (#[trigger] magnitudes(cx, a, greatest, n)).0),
    decreases n,
{
    broadcast use {keeps_load, keeps_plus, keeps_call1, keeps_call2};
    if n > 0 {
        keeps_magnitudes(cx, a, greatest, (n - 1) as nat);
    }
}

broadcast proof fn keeps_sum_diagonal(
    cx: Cx,
    a: Text,
    ty: Text,
    elem: STy,
    float: bool,
    n: nat,
    k: nat,
)
    ensures
        keeps(cx, (#[trigger] sum_diagonal(cx, a, ty, elem, float, n, k)).0),
    decreases k,
{
    broadcast use {keeps_load, keeps_plus};
    if k > 0 {
        keeps_sum_diagonal(cx, a, ty, elem, float, n, (k - 1) as nat);
    }
}

broadcast proof fn keeps_sum_distances(cx: Cx, a: Text, b: Text, n: nat)
    ensures
        keeps(cx, (#[trigger] sum_distances(cx, a, b, n)).0),
    decreases n,
{
    broadcast use {keeps_load, keeps_times, keeps_plus, keeps_minus};
    if n > 0 {
        keeps_sum_distances(cx, a, b, (n - 1) as nat);
    }
}

broadcast proof fn keeps_and_also(cx: Cx, acc: Option<Text>, test: Text, prefix: Text)
    ensures
        keeps(cx, (#[trigger] and_also(cx, acc, test, prefix)).0),
{
    broadcast use keeps_define;
}

broadcast proof fn keeps_test_row(
    cx: Cx,
    acc: Option<Text>,
    a: Text,
    n: nat,
    diagonal: bool,
    i: nat,
    k: nat,
)
    ensures
        keeps(cx, (#[trigger] test_row(cx, acc, a, n, diagonal, i, k)).0),
    decreases k,
{
    broadcast use {keeps_load, keeps_compare_floats, keeps_and_also};
    if k > 0 {
        keeps_test_row(cx, acc, a, n, diagonal, i, (k - 1) as nat);
    }
}

broadcast proof fn keeps_test_rows(cx: Cx, a: Text, n: nat, diagonal: bool, k: nat)
    ensures
        keeps(cx, (#[trigger] test_rows(cx, a, n, diagonal, k)).0),
    decreases k,
{
    broadcast use keeps_test_row;
    if k > 0 {
        keeps_test_rows(cx, a, n, diagonal, (k - 1) as nat);
    }
}

broadcast proof fn keeps_test_equal(
    cx: Cx,
    a: Text,
    b: Text,
    ty: Text,
    elem: STy,
    float: bool,
    n: nat,
)
    ensures
        keeps(cx, (#[trigger] test_equal(cx, a, b, ty, elem, float, n)).0),
    decreases n,
{
    broadcast use {keeps_load, keeps_compare_ints, keeps_compare_floats, keeps_and_also};
    if n > 0 {
        keeps_test_equal(cx, a, b, ty, elem, float, (n - 1) as nat);
    }
}

broadcast proof fn keeps_turn_column(
    cx: Cx,
    m: Text,
    dest: Text,
    ty: Text,
    elem: STy,
    rows: nat,
    cols: nat,
    j: nat,
    k: nat,
)
    ensures
        keeps(cx, #[trigger] turn_column(cx, m, dest, ty, elem, rows, cols, j, k)),
    decreases k,
{
    broadcast use {keeps_load, keeps_store};
    if k > 0 {
        keeps_turn_column(cx, m, dest, ty, elem, rows, cols, j, (k - 1) as nat);
    }
}

broadcast proof fn keeps_turn_columns(
    cx: Cx,
    m: Text,
    dest: Text,
    ty: Text,
    elem: STy,
    rows: nat,
    cols: nat,
    k: nat,
)
    ensures
        keeps(cx, #[trigger] turn_columns(cx, m, dest, ty, elem, rows, cols, k)),
    decreases k,
{
    broadcast use keeps_turn_column;
    if k > 0 {
        keeps_turn_columns(cx, m, dest, ty, elem, rows, cols, (k - 1) as nat);
    }
}

broadcast proof fn keeps_cross_entry(
    cx: Cx,
    a: Text,
    b: Text,
    dest: Text,
    ty: Text,
    elem: STy,
    float: bool,
    at: nat,
    ij: (nat, nat),
    kl: (nat, nat),
)
    ensures
        keeps(cx, #[trigger] cross_entry(cx, a, b, dest, ty, elem, float, at, ij, kl)),
{
    broadcast use {keeps_define, keeps_load, keeps_store, keeps_times, keeps_minus};
    reveal(cross_entry);
}

broadcast proof fn keeps_cross_product(
    cx: Cx,
    a: Text,
    b: Text,
    dest: Text,
    ty: Text,
    elem: STy,
    float: bool,
)
    ensures
        keeps(cx, #[trigger] cross_product(cx, a, b, dest, ty, elem, float)),
{
    broadcast use keeps_cross_entry;
    reveal(cross_product);
}

broadcast proof fn keeps_fill(cx: Cx, dest: Text, val: Text, n: nat)
    ensures
        keeps(cx, #[trigger] fill(cx, dest, val, n)),
    decreases n,
{
    broadcast use keeps_store;
    if n > 0 {
        keeps_fill(cx, dest, val, (n - 1) as nat);
    }
}

broadcast proof fn keeps_unit_row(cx: Cx, dest: Text, n: nat, i: nat, k: nat)
    ensures
        keeps(cx, #[trigger] unit_row(cx, dest, n, i, k)),
    decreases k,
{
    broadcast use keeps_store;
    if k > 0 {
        keeps_unit_row(cx, dest, n, i, (k - 1) as nat);
    }
}

broadcast proof fn keeps_unit_rows(cx: Cx, dest: Text, n: nat, k: nat)
    ensures
        keeps(cx, #[trigger] unit_rows(cx, dest, n, k)),
    decreases k,
{
    broadcast use keeps_unit_row;
    if k > 0 {
        keeps_unit_rows(cx, dest, n, (k - 1) as nat);
    }
}

broadcast proof fn keeps_combine(cx: Cx, op: BinOp, l: Text, r: Text, float: bool, proven: bool)
    ensures
        keeps(cx, (#[trigger] combine(cx, op, l, r, float, proven)).0),
{
    broadcast use {keeps_define, keeps_times, keeps_plus, keeps_guard_divisor};
    reveal(combine);
}

broadcast proof fn keeps_combine_all(
    cx: Cx,
    op: BinOp,
    a: Text,
    b: Text,
    dest: Text,
    ty: Text,
    elem: STy,
    float: bool,
    proven: bool,
    n: nat,
)
    ensures
        keeps(cx, #[trigger] combine_all(cx, op, a, b, dest, ty, elem, float, proven, n)),
    decreases n,
{
    broadcast use {keeps_load, keeps_store, keeps_combine};
    if n > 0 {
        keeps_combine_all(cx, op, a, b, dest, ty, elem, float, proven, (n - 1) as nat);
    }
}

broadcast proof fn keeps_scale(
    cx: Cx,
    scalar: Text,
    m: Text,
    dest: Text,
    ty: Text,
    elem: STy,
    float: bool,
    n: nat,
)
    ensures
        keeps(cx, #[trigger] scale(cx, scalar, m, dest, ty, elem, float, n)),
    decreases n,
{
    broadcast use {keeps_load, keeps_store, keeps_times};
    if n > 0 {
        keeps_scale(cx, scalar, m, dest, ty, elem, float, (n - 1) as nat);
    }
}

broadcast proof fn keeps_apply_matrix(
    cx: Cx,
    m: Text,
    v: Text,
    dest: Text,
    ty: Text,
    elem: STy,
    float: bool,
    cols: nat,
    k: nat,
)
    ensures
        keeps(cx, #[trigger] apply_matrix(cx, m, v, dest, ty, elem, float, cols, k)),
    decreases k,
{
    broadcast use {keeps_store, keeps_sum_products};
    if k > 0 {
        keeps_apply_matrix(cx, m, v, dest, ty, elem, float, cols, (k - 1) as nat);
    }
}

broadcast proof fn keeps_product_row(
    cx: Cx,
    a: Text,
    b: Text,
    dest: Text,
    ty: Text,
    elem: STy,
    float: bool,
    ac: nat,
    bc: nat,
    i: nat,
    k: nat,
)
    ensures
        keeps(cx, #[trigger] product_row(cx, a, b, dest, ty, elem, float, ac, bc, i, k)),
    decreases k,
{
    broadcast use {keeps_store, keeps_sum_products};
    if k > 0 {
        keeps_product_row(cx, a, b, dest, ty, elem, float, ac, bc, i, (k - 1) as nat);
    }
}

broadcast proof fn keeps_product_rows(
    cx: Cx,
    a: Text,
    b: Text,
    dest: Text,
    ty: Text,
    elem: STy,
    float: bool,
    ac: nat,
    bc: nat,
    k: nat,
)
    ensures
        keeps(cx, #[trigger] product_rows(cx, a, b, dest, ty, elem, float, ac, bc, k)),
    decreases k,
{
    broadcast use keeps_product_row;
    if k > 0 {
        keeps_product_rows(cx, a, b, dest, ty, elem, float, ac, bc, (k - 1) as nat);
    }
}

broadcast proof fn keeps_entries_row(
    cx: Cx,
    done: Seq<Text>,
    a: Text,
    b: Text,
    n: nat,
    i: nat,
    k: nat,
)
    ensures
        keeps(cx, (#[trigger] entries_row(cx, done, a, b, n, i, k)).0),
    decreases k,
{
    broadcast use keeps_sum_products;
    if k > 0 {
        keeps_entries_row(cx, done, a, b, n, i, (k - 1) as nat);
    }
}

broadcast proof fn keeps_entries(cx: Cx, a: Text, b: Text, n: nat, k: nat)
    ensures
        keeps(cx, (#[trigger] entries(cx, a, b, n, k)).0),
    decreases k,
{
    broadcast use keeps_entries_row;
    if k > 0 {
        keeps_entries(cx, a, b, n, (k - 1) as nat);
    }
}

broadcast proof fn keeps_image(cx: Cx, m: Text, v: Text, n: nat, k: nat)
    ensures
        keeps(cx, (#[trigger] image(cx, m, v, n, k)).0),
    decreases k,
{
    broadcast use keeps_sum_products;
    if k > 0 {
        keeps_image(cx, m, v, n, (k - 1) as nat);
    }
}

broadcast proof fn keeps_sum_value_products(
    cx: Cx,
    vals: Seq<Text>,
    i: nat,
    b: Text,
    j: nat,
    n: nat,
)
    ensures
        keeps(cx, (#[trigger] sum_value_products(cx, vals, i, b, j, n)).0),
    decreases n,
{
    broadcast use {keeps_load, keeps_times, keeps_plus};
    if n > 0 {
        keeps_sum_value_products(cx, vals, i, b, j, (n - 1) as nat);
    }
}

broadcast proof fn keeps_turned_row(
    cx: Cx,
    done: Seq<Text>,
    vals: Seq<Text>,
    b: Text,
    n: nat,
    i: nat,
    k: nat,
)
    ensures
        keeps(cx, (#[trigger] turned_row(cx, done, vals, b, n, i, k)).0),
    decreases k,
{
    broadcast use keeps_sum_value_products;
    if k > 0 {
        keeps_turned_row(cx, done, vals, b, n, i, (k - 1) as nat);
    }
}

broadcast proof fn keeps_turned(cx: Cx, vals: Seq<Text>, b: Text, n: nat, k: nat)
    ensures
        keeps(cx, (#[trigger] turned(cx, vals, b, n, k)).0),
    decreases k,
{
    broadcast use keeps_turned_row;
    if k > 0 {
        keeps_turned(cx, vals, b, n, (k - 1) as nat);
    }
}

broadcast proof fn keeps_load_all(cx: Cx, a: Text, k: nat)
    ensures
        keeps(cx, (#[trigger] load_all(cx, a, k)).0),
    decreases k,
{
    broadcast use keeps_load;
    if k > 0 {
        keeps_load_all(cx, a, (k - 1) as nat);
    }
}

broadcast proof fn keeps_add_all(cx: Cx, a: Seq<Text>, b: Seq<Text>, k: nat)
    ensures
        keeps(cx, (#[trigger] add_all(cx, a, b, k)).0),
    decreases k,
{
    broadcast use keeps_plus;
    if k > 0 {
        keeps_add_all(cx, a, b, (k - 1) as nat);
    }
}

broadcast proof fn keeps_store_all(cx: Cx, dest: Text, vals: Seq<Text>, k: nat)
    ensures
        keeps(cx, #[trigger] store_all(cx, dest, vals, k)),
    decreases k,
{
    broadcast use keeps_store;
    if k > 0 {
        keeps_store_all(cx, dest, vals, (k - 1) as nat);
    }
}

broadcast proof fn keeps_frees(cx: Cx, names: Seq<String>, sc: Slots, n: nat)
    ensures
        keeps(cx, #[trigger] frees(cx, names, sc, n)),
    decreases n,
{
    broadcast use {keeps_define, keeps_free_box};
    if n > 0 {
        keeps_frees(cx, names, sc, (n - 1) as nat);
    }
}

broadcast proof fn keeps_free_all(cx: Cx, names: Seq<String>, sc: Slots)
    ensures
        keeps(cx, #[trigger] free_all(cx, names, sc)),
{
    broadcast use keeps_frees;
    reveal(free_all);
}

broadcast proof fn keeps_check_range(report: SmtReport, cx: Cx, val: Text, t: STy, span: Span)
    ensures
        keeps(cx, #[trigger] check_range(report, cx, val, t, span)),
{
    broadcast use keeps_guard_range;
    reveal(check_range);
}

broadcast proof fn keeps_check_index(report: SmtReport, cx: Cx, idx: Text, dim: nat, span: Span)
    ensures
        keeps(cx, #[trigger] check_index(report, cx, idx, dim, span)),
{
    broadcast use keeps_guard_index;
    reveal(check_index);
}

broadcast proof fn keeps_str_literal(cx: Cx, s: Text)
    ensures
        made_keeps(cx, #[trigger] str_literal(cx, s)),
{
    broadcast use {keeps_fresh_global, keeps_global, keeps_string_value};
    reveal(str_literal);
}

broadcast proof fn keeps_read_slot(cx: Cx, prefix: Text, t: STy, ptr: Text)
    ensures
        made_keeps(cx, #[trigger] read_slot(cx, prefix, t, ptr)),
{
    broadcast use {keeps_define, keeps_widen};
    reveal(read_slot);
}

broadcast proof fn keeps_write_slot(cx: Cx, val: Text, t: STy, ptr: Text)
    ensures
        made_keeps(cx, #[trigger] write_slot(cx, val, t, ptr)),
{
    broadcast use {keeps_emit, keeps_stored};
    reveal(write_slot);
}

broadcast proof fn keeps_new_slot(cx: Cx, prefix: Text, val: Text, t: STy)
    ensures
        made_keeps(cx, #[trigger] new_slot(cx, prefix, val, t)),
{
    broadcast use {keeps_emit, keeps_fresh_slot, keeps_stored};
    reveal(new_slot);
}

broadcast proof fn keeps_copy_slot(cx: Cx, prefix: Text, t: STy, src: Text)
    ensures
        made_keeps(cx, #[trigger] copy_slot(cx, prefix, t, src)),
{
    broadcast use {keeps_fresh_slot, keeps_copy_bytes};
    reveal(copy_slot);
}

broadcast proof fn keeps_negate(cx: Cx, v: Text, float: bool)
    ensures
        keeps(cx, (#[trigger] negate(cx, v, float)).0),
{
    broadcast use keeps_define;
    reveal(negate);
}

broadcast proof fn keeps_invert(cx: Cx, v: Text)
    ensures
        keeps(cx, (#[trigger] invert(cx, v)).0),
{
    broadcast use keeps_define;
    reveal(invert);
}

broadcast proof fn keeps_arith(cx: Cx, op: BinOp, l: Text, r: Text, t: STy, proven: bool)
    ensures
        made_keeps(cx, #[trigger] arith(cx, op, l, r, t, proven)),
{
    broadcast use {keeps_define, keeps_compare_ints, keeps_compare_floats, keeps_guard_divisor};
    reveal(arith);
}

broadcast proof fn keeps_guard_failed(cx: Cx, reg: Text, test: Text, trap: Text, ok: Text)
    ensures
        keeps(cx, #[trigger] guard_failed(cx, reg, test, trap, ok)),
{
    broadcast use keeps_guard_test;
    reveal(guard_failed);
}

broadcast proof fn keeps_guard_io(cx: Cx, v: Text)
    ensures
        keeps(cx, #[trigger] guard_io(cx, v)),
{
    broadcast use keeps_guard_failed;
}

broadcast proof fn keeps_guard_singular(cx: Cx, v: Text)
    ensures
        keeps(cx, #[trigger] guard_singular(cx, v)),
{
    broadcast use keeps_guard_failed;
}

broadcast proof fn keeps_connect(cx: Cx, host: Text, len: Text, port: Text)
    ensures
        keeps(cx, (#[trigger] connect(cx, host, len, port)).0),
{
    broadcast use {keeps_define, keeps_guard_io};
    reveal(connect);
}

broadcast proof fn keeps_listen(cx: Cx, port: Text)
    ensures
        keeps(cx, (#[trigger] listen(cx, port)).0),
{
    broadcast use {keeps_define, keeps_guard_io};
    reveal(listen);
}

broadcast proof fn keeps_accept(cx: Cx, listener: Text)
    ensures
        keeps(cx, (#[trigger] accept(cx, listener)).0),
{
    broadcast use {keeps_define, keeps_guard_io};
    reveal(accept);
}

broadcast proof fn keeps_send(cx: Cx, fd: Text, ptr: Text, len: Text)
    ensures
        keeps(cx, (#[trigger] send(cx, fd, ptr, len)).0),
{
    broadcast use {keeps_define, keeps_guard_io};
    reveal(send);
}

broadcast proof fn keeps_recv(cx: Cx, fd: Text)
    ensures
        keeps(cx, (#[trigger] recv(cx, fd)).0),
{
    broadcast use {keeps_define, keeps_fresh_slot, keeps_string_value, keeps_guard_failed};
    reveal(recv);
}

broadcast proof fn keeps_stop(cx: Cx, fd: Text)
    ensures
        keeps(cx, (#[trigger] stop(cx, fd)).0),
{
    broadcast use keeps_emit;
    reveal(stop);
}

broadcast proof fn keeps_print_value(cx: Cx, v: Text, t: STy)
    ensures
        keeps(cx, #[trigger] print_value(cx, v, t)),
{
    broadcast use {keeps_emit, keeps_define, keeps_string_parts};
    reveal(print_value);
}

broadcast proof fn keeps_call_fn(cx: Cx, name: Text, ret: STy, args: Seq<Text>)
    ensures
        made_keeps(cx, #[trigger] call_fn(cx, name, ret, args)),
{
    broadcast use {keeps_emit, keeps_define, keeps_widen};
    reveal(call_fn);
}

broadcast proof fn keeps_call_into(cx: Cx, name: Text, ret: STy, args: Seq<Text>)
    ensures
        made_keeps(cx, #[trigger] call_into(cx, name, ret, args)),
{
    broadcast use {keeps_emit, keeps_fresh_slot};
    reveal(call_into);
}

broadcast proof fn keeps_flat_index(cx: Cx, i: Text, j: Text, cols: nat)
    ensures
        keeps(cx, (#[trigger] flat_index(cx, i, j, cols)).0),
{
    broadcast use keeps_define;
    reveal(flat_index);
}

broadcast proof fn keeps_read_elem(cx: Cx, base: Text, offset: Text, elem: STy)
    ensures
        made_keeps(cx, #[trigger] read_elem(cx, base, offset, elem)),
{
    broadcast use {keeps_define, keeps_widen};
    reveal(read_elem);
}

broadcast proof fn keeps_compare_strings(cx: Cx, op: BinOp, l: Text, r: Text)
    ensures
        keeps(cx, (#[trigger] compare_strings(cx, op, l, r)).0),
{
    broadcast use {keeps_define, keeps_string_parts, keeps_compare_ints};
    reveal(compare_strings);
}

broadcast proof fn keeps_compare_all(cx: Cx, op: BinOp, l: Text, r: Text, t: STy)
    ensures
        made_keeps(cx, #[trigger] compare_all(cx, op, l, r, t)),
{
    broadcast use {keeps_define, keeps_test_equal};
    reveal(compare_all);
}

broadcast proof fn keeps_elementwise(
    cx: Cx,
    op: BinOp,
    l: Text,
    r: Text,
    dest: Text,
    t: STy,
    proven: bool,
)
    ensures
        made_keeps(cx, #[trigger] elementwise(cx, op, l, r, dest, t, proven)),
{
    broadcast use keeps_combine_all;
    reveal(elementwise);
}

broadcast proof fn keeps_multiply(cx: Cx, l: STy, r: STy, a: Text, b: Text, dest: Text)
    ensures
        made_keeps(cx, #[trigger] multiply(cx, l, r, a, b, dest)),
{
    broadcast use {keeps_apply_matrix, keeps_product_rows, keeps_scale_matrix};
    reveal(multiply);
}

broadcast proof fn keeps_scale_matrix(
    cx: Cx,
    scalar: Text,
    m: Text,
    e: STy,
    rows: usize,
    cols: usize,
    dest: Text,
)
    ensures
        made_keeps(cx, #[trigger] scale_matrix(cx, scalar, m, e, rows, cols, dest)),
{
    broadcast use keeps_scale;
}

broadcast proof fn keeps_scalar_builtin(cx: Cx, b: Builtin, t: STy, p: Seq<Text>)
    ensures
        made_keeps(cx, #[trigger] scalar_builtin(cx, b, t, p)),
{
    broadcast use {
        keeps_define,
        keeps_call1,
        keeps_bearing,
        keeps_sum_products,
        keeps_sum_elements,
        keeps_sum_squares,
        keeps_magnitudes,
        keeps_sum_diagonal,
        keeps_sum_distances,
        keeps_test_rows,
    };
    reveal(scalar_builtin);
}

broadcast proof fn keeps_store3(cx: Cx, dest: Text, x: Text, y: Text, z: Text)
    ensures
        keeps(cx, #[trigger] store3(cx, dest, x, y, z)),
{
    broadcast use keeps_store;
}

broadcast proof fn keeps_agg_builtin(
    cx: Cx,
    b: Builtin,
    result: STy,
    t: STy,
    u: STy,
    p: Seq<Text>,
    dest: Text,
)
    ensures
        made_keeps(cx, #[trigger] agg_builtin(cx, b, result, t, u, p, dest)),
{
    broadcast use {
        keeps_define,
        keeps_lla_to_ecef,
        keeps_ecef_to_lla,
        keeps_ecef_to_enu,
        keeps_enu_to_ecef,
        keeps_load3,
        keeps_turn_columns,
        keeps_cross_product,
        keeps_fill,
        keeps_unit_rows,
        keeps_entries,
        keeps_image,
        keeps_turned,
        keeps_load_all,
        keeps_add_all,
        keeps_store_all,
        keeps_guard_singular,
        keeps_store3,
    };
    reveal(agg_builtin);
}

broadcast proof fn keeps_if_open(cx: Cx, cond: Text, t: STy)
    ensures
        made_keeps(cx, #[trigger] if_open(cx, cond, t)),
{
    broadcast use {keeps_emit, keeps_fresh_label, keeps_fresh_slot};
    reveal(if_open);
}

broadcast proof fn keeps_if_join(cx: Cx, h: IfHead, val: Text)
    ensures
        keeps(cx, #[trigger] if_join(cx, h, val)),
{
    broadcast use keeps_emit;
    reveal(if_join);
}

broadcast proof fn keeps_if_other(cx: Cx, h: IfHead)
    ensures
        keeps(cx, #[trigger] if_other(cx, h)),
{
    broadcast use keeps_emit;
    reveal(if_other);
}

broadcast proof fn keeps_if_close(cx: Cx, h: IfHead, ended: bool)
    ensures
        keeps(cx, (#[trigger] if_close(cx, h, ended)).0),
{
    broadcast use {keeps_emit, keeps_define};
    reveal(if_close);
}

broadcast proof fn keeps_logic_left(cx: Cx, op: BinOp, l: Text, ptr: Text)
    ensures
        keeps(cx, (#[trigger] logic_left(cx, op, l, ptr)).0),
{
    broadcast use {keeps_emit, keeps_fresh_label};
    reveal(logic_left);
}

broadcast proof fn keeps_logic_right(cx: Cx, r: Text, ptr: Text, merge: Text)
    ensures
        keeps(cx, (#[trigger] logic_right(cx, r, ptr, merge)).0),
{
    broadcast use {keeps_emit, keeps_define};
    reveal(logic_right);
}

broadcast proof fn keeps_while_open(cx: Cx)
    ensures
        keeps(cx, (#[trigger] while_open(cx)).0),
{
    broadcast use {keeps_emit, keeps_fresh_label};
    reveal(while_open);
}

broadcast proof fn keeps_while_body(cx: Cx, cond: Text, l: (Text, Text, Text))
    ensures
        keeps(cx, #[trigger] while_body(cx, cond, l)),
{
    broadcast use keeps_emit;
    reveal(while_body);
}

broadcast proof fn keeps_while_close(cx: Cx, l: (Text, Text, Text))
    ensures
        keeps(cx, #[trigger] while_close(cx, l)),
{
    broadcast use keeps_emit;
    reveal(while_close);
}

broadcast proof fn keeps_free_open(cx: Cx, names: Seq<String>, sc: Slots)
    ensures
        keeps(cx, #[trigger] free_open(cx, names, sc)),
{
    broadcast use keeps_free_all;
    reveal(free_open);
}

broadcast proof fn keeps_literal_place(cx: Cx, prefix: Text, ty: Text, dest: Text, i: nat)
    ensures
        keeps(cx, (#[trigger] literal_place(cx, prefix, ty, dest, i)).0),
{
    broadcast use keeps_define;
    reveal(literal_place);
}

broadcast proof fn keeps_literal_store(cx: Cx, ty: Text, ety: Text, dest: Text, i: nat, v: Text)
    ensures
        keeps(cx, #[trigger] literal_store(cx, ty, ety, dest, i, v)),
{
    broadcast use {keeps_emit, keeps_literal_place};
    reveal(literal_store);
}

proof fn keep_prints(g: G, cx: Cx, sc: Slots, v: Seq<Expr>, n: nat)
    ensures
        made_keeps(cx, prints(g, cx, sc, v, n)),
    decreases v, n,
{
    broadcast use keeps_print_value;
    if n > 0 && n <= v.len() {
        keep_prints(g, cx, sc, v, (n - 1) as nat);
        match prints(g, cx, sc, v, (n - 1) as nat) {
            Gen::Made(c, _) => keep_expr(g, c, sc, v[n - 1]),
            _ => {}
        }
    }
}

proof fn keep_ptrs(g: G, cx: Cx, sc: Slots, v: Seq<Expr>, n: nat)
    ensures
        made_keeps(cx, ptrs(g, cx, sc, v, n)),
    decreases v, n,
{
    if n > 0 && n <= v.len() {
        keep_ptrs(g, cx, sc, v, (n - 1) as nat);
        match ptrs(g, cx, sc, v, (n - 1) as nat) {
            Gen::Made(c, _) => keep_ptr(g, c, sc, v[n - 1]),
            _ => {}
        }
    }
}

proof fn keep_arg(g: G, cx: Cx, sc: Slots, a: Expr, t: STy)
    ensures
        made_keeps(cx, one_arg(g, cx, sc, a, t)),
    decreases a, 3nat,
{
    broadcast use keeps_stored;
    keep_ptr(g, cx, sc, a);
    keep_expr(g, cx, sc, a);
}

proof fn keep_args(g: G, cx: Cx, sc: Slots, v: Seq<Expr>, tys: Seq<STy>, n: nat)
    ensures
        made_keeps(cx, args(g, cx, sc, v, tys, n)),
    decreases v, n,
{
    if n > 0 && n <= v.len() {
        keep_args(g, cx, sc, v, tys, (n - 1) as nat);
        match args(g, cx, sc, v, tys, (n - 1) as nat) {
            Gen::Made(c, _) => keep_arg(g, c, sc, v[n - 1], tys[n - 1]),
            _ => {}
        }
    }
}

proof fn keep_elems(
    g: G,
    cx: Cx,
    sc: Slots,
    v: Seq<Expr>,
    elem: STy,
    ty: Text,
    ety: Text,
    dest: Text,
    n: nat,
)
    ensures
        made_keeps(cx, elems(g, cx, sc, v, elem, ty, ety, dest, n)),
    decreases v, n,
{
    broadcast use {keeps_stored, keeps_literal_store};
    if n > 0 && n <= v.len() {
        keep_elems(g, cx, sc, v, elem, ty, ety, dest, (n - 1) as nat);
        match elems(g, cx, sc, v, elem, ty, ety, dest, (n - 1) as nat) {
            Gen::Made(c, _) => keep_expr(g, c, sc, v[n - 1]),
            _ => {}
        }
    }
}

proof fn keep_rows(
    g: G,
    cx: Cx,
    sc: Slots,
    v: Seq<Expr>,
    ty: Text,
    dest: Text,
    cols: nat,
    bytes: nat,
    n: nat,
)
    ensures
        made_keeps(cx, rows(g, cx, sc, v, ty, dest, cols, bytes, n)),
    decreases v, n,
{
    broadcast use {keeps_literal_place, keeps_copy_bytes};
    if n > 0 && n <= v.len() {
        keep_rows(g, cx, sc, v, ty, dest, cols, bytes, (n - 1) as nat);
        match rows(g, cx, sc, v, ty, dest, cols, bytes, (n - 1) as nat) {
            Gen::Made(c, _) => keep_ptr(g, c, sc, v[n - 1]),
            _ => {}
        }
    }
}

proof fn keep_plain_call(g: G, cx: Cx, sc: Slots, name: Text, i: int, v: Seq<Expr>)
    ensures
        made_keeps(cx, plain_call(g, cx, sc, name, i, v)),
    decreases v, v.len() + 1,
{
    broadcast use keeps_call_fn;
    let f = g.p.fns@[i];
    keep_args(g, cx, sc, v, param_tys(f), fewer(v.len(), f.params@.len()));
}

proof fn keep_into_call(g: G, cx: Cx, sc: Slots, name: Text, i: int, v: Seq<Expr>)
    ensures
        made_keeps(cx, into_call(g, cx, sc, name, i, v)),
    decreases v, v.len() + 1,
{
    broadcast use keeps_call_into;
    let f = g.p.fns@[i];
    keep_args(g, cx, sc, v, param_tys(f), fewer(v.len(), f.params@.len()));
}

proof fn keep_array(g: G, cx: Cx, sc: Slots, v: Seq<Expr>)
    ensures
        made_keeps(cx, array(g, cx, sc, v)),
    decreases v, v.len() + 1,
{
    broadcast use keeps_fresh_slot;
    if v.len() > 0 {
        let t = array_ty(ty_of(g.p, v[0], sc), v.len());
        match llvm(t) {
            SLlvm::Not(_) => {}
            SLlvm::Is(ty) => {
                let d = fresh_slot(cx, "arraylit.addr"@, ty);
                match t {
                    STy::Vector(elem, _) => match llvm(*elem) {
                        SLlvm::Not(_) => {}
                        SLlvm::Is(ety) => keep_elems(g, d.0, sc, v, *elem, ty, ety, d.1, v.len()),
                    },
                    STy::Matrix(elem, _, cols) => match bytes_of(cols as nat, *elem) {
                        None => {}
                        Some(n) => keep_rows(g, d.0, sc, v, ty, d.1, cols as nat, n, v.len()),
                    },
                    _ => {}
                }
            }
        }
    }
}

proof fn keep_stmts(g: G, cx: Cx, sc: Slots, v: Seq<Stmt>, n: nat)
    ensures
        made_keeps(cx, stmts(g, cx, sc, v, n)),
    decreases v, n,
{
    if n > 0 && n <= v.len() {
        keep_stmts(g, cx, sc, v, (n - 1) as nat);
        match stmts(g, cx, sc, v, (n - 1) as nat) {
            Gen::Made(c, s) => keep_stmt(g, c, s, v[n - 1]),
            _ => {}
        }
    }
}

proof fn keep_branch(g: G, cx: Cx, sc: Slots, v: Seq<Stmt>, names: Seq<String>)
    ensures
        made_keeps(cx, branch(g, cx, sc, v, names)),
    decreases v, v.len() + 1,
{
    broadcast use keeps_free_open;
    if v.len() > 0 {
        let n = (v.len() - 1) as nat;
        keep_stmts(g, cx, opened(sc), v, n);
        match stmts(g, cx, opened(sc), v, n) {
            Gen::Made(c, s) => {
                let last = v[v.len() - 1];
                keep_stmt(g, c, s, last);
                match last {
                    Stmt::Expr(e) => {
                        assert(decreases_to!(v => last));
                        keep_expr(g, c, s, e);
                    }
                    _ => {}
                }
            }
            _ => {}
        }
    }
}

proof fn keep_expr(g: G, cx: Cx, sc: Slots, e: Expr)
    ensures
        made_keeps(cx, expr(g, cx, sc, e)),
    decreases e, 2nat,
{
    match e {
        Expr::Binary(..) => keep_binary(g, cx, sc, e),
        Expr::Call(..) => keep_call(g, cx, sc, e),
        Expr::If { .. } => keep_if(g, cx, sc, e),
        Expr::Index(..) => keep_index(g, cx, sc, e),
        Expr::Box(..) => keep_box(g, cx, sc, e),
        Expr::Connect(..) | Expr::Send(..) => keep_message(g, cx, sc, e),
        _ => keep_single(g, cx, sc, e),
    }
}

/// Expressions of at most one operand.
proof fn keep_single(g: G, cx: Cx, sc: Slots, e: Expr)
    requires
        !(e is Binary || e is Call || e is If || e is Index || e is Box || e is Connect || e is Send),
    ensures
        made_keeps(cx, expr(g, cx, sc, e)),
    decreases e, 1nat,
{
    broadcast use {
        keeps_str_literal,
        keeps_read_slot,
        keeps_negate,
        keeps_invert,
        keeps_write_slot,
        keeps_check_range,
        keeps_listen,
        keeps_accept,
        keeps_recv,
        keeps_stop,
    };
    match e {
        Expr::Unary(_, a, _)
        | Expr::Assign(_, a, _)
        | Expr::Deref(a, _)
        | Expr::Listen(a, _)
        | Expr::Accept(a, _)
        | Expr::Recv(a, _)
        | Expr::StopSandbox(a, _) => keep_expr(g, cx, sc, *a),
        _ => {}
    }
}

proof fn keep_binary(g: G, cx: Cx, sc: Slots, e: Expr)
    requires
        e is Binary,
    ensures
        made_keeps(cx, expr(g, cx, sc, e)),
    decreases e, 1nat,
{
    broadcast use {
        keeps_fresh_slot,
        keeps_logic_left,
        keeps_logic_right,
        keeps_compare_all,
        keeps_compare_strings,
        keeps_arith,
    };
    if let Expr::Binary(op, l, r, _) = e {
        if op == BinOp::And || op == BinOp::Or {
            let s = fresh_slot(cx, "logic_result.addr"@, "i1"@);
            keep_expr(g, s.0, sc, *l);
            if let Gen::Made(c, a) = expr(g, s.0, sc, *l) {
                let m = logic_left(c, op, a, s.1);
                keep_expr(g, m.0, sc, *r);
            }
        } else {
            keep_ptr(g, cx, sc, *l);
            if let Gen::Made(c, _) = ptr(g, cx, sc, *l) {
                keep_ptr(g, c, sc, *r);
            }
            keep_expr(g, cx, sc, *l);
            if let Gen::Made(c, _) = expr(g, cx, sc, *l) {
                keep_expr(g, c, sc, *r);
            }
        }
    }
}

proof fn keep_message(g: G, cx: Cx, sc: Slots, e: Expr)
    requires
        e is Connect || e is Send,
    ensures
        made_keeps(cx, expr(g, cx, sc, e)),
    decreases e, 1nat,
{
    broadcast use {keeps_string_parts, keeps_connect, keeps_send};
    match e {
        Expr::Connect(a, b, _) => {
            keep_expr(g, cx, sc, *a);
            if let Gen::Made(c, v) = expr(g, cx, sc, *a) {
                keep_expr(g, string_parts(c, v, "str_ptr"@, "str_len"@).0, sc, *b);
            }
        }
        Expr::Send(a, b, _) => {
            keep_expr(g, cx, sc, *a);
            if let Gen::Made(c, _) = expr(g, cx, sc, *a) {
                keep_expr(g, c, sc, *b);
            }
        }
        _ => {}
    }
}

proof fn keep_box(g: G, cx: Cx, sc: Slots, e: Expr)
    requires
        e is Box,
    ensures
        made_keeps(cx, expr(g, cx, sc, e)),
    decreases e, 1nat,
{
    broadcast use {keeps_define, keeps_copy_bytes, keeps_write_slot};
    if let Expr::Box(a, _) = e {
        if let Some(n) = byte_size(ty_of(g.p, *a, sc)) {
            let heap = define(cx, "box_heap"@, "call ptr @nir_alloc(i64 "@ + dec(n as int) + ")"@);
            keep_ptr(g, heap.0, sc, *a);
            keep_expr(g, heap.0, sc, *a);
        }
    }
}

proof fn keep_index(g: G, cx: Cx, sc: Slots, e: Expr)
    requires
        e is Index,
    ensures
        made_keeps(cx, expr(g, cx, sc, e)),
    decreases e, 1nat,
{
    broadcast use {keeps_check_index, keeps_flat_index, keeps_read_elem};
    if let Expr::Index(a, ix, span) = e {
        keep_ptr(g, cx, sc, *a);
        if let Gen::Made(c, _) = ptr(g, cx, sc, *a) {
            if ix@.len() >= 1 {
                keep_expr(g, c, sc, ix@[0]);
            }
            if let STy::Matrix(_, rows, _) = ty_of(g.p, *a, sc) {
                if ix@.len() >= 2 {
                    if let Gen::Made(d, i) = expr(g, c, sc, ix@[0]) {
                        let checked = check_index(g.report, d, i, rows as nat, span);
                        keep_expr(g, checked, sc, ix@[1]);
                    }
                }
            }
        }
    }
}

proof fn keep_call(g: G, cx: Cx, sc: Slots, e: Expr)
    requires
        e is Call,
    ensures
        made_keeps(cx, expr(g, cx, sc, e)),
    decreases e, 1nat,
{
    broadcast use keeps_scalar_builtin;
    if let Expr::Call(name, v, _) = e {
        keep_prints(g, cx, sc, v@, v@.len());
        if let Some(b) = builtin_named(name@) {
            keep_ptrs(g, cx, sc, v@, ptr_count(b));
        }
        if let Some(i) = fn_named(g.p, name@) {
            keep_plain_call(g, cx, sc, name@, i, v@);
        }
    }
}

proof fn keep_if(g: G, cx: Cx, sc: Slots, e: Expr)
    requires
        e is If,
    ensures
        made_keeps(cx, expr(g, cx, sc, e)),
    decreases e, 1nat,
{
    broadcast use {keeps_if_open, keeps_if_join, keeps_if_other, keeps_if_close};
    if let Expr::If { cond, then_block, else_block, span } = e {
        keep_expr(g, cx, sc, *cond);
        if let Gen::Made(c0, v) = expr(g, cx, sc, *cond) {
            if let Gen::Made(c1, head) = if_open(c0, v, trailing_ty(g.p, then_block.stmts@, sc)) {
                let names = names_on(g.free.at_if_branch_end@, span, true, 0);
                keep_branch(g, c1, sc, then_block.stmts@, names);
                if let Gen::Made(c2, a) = branch(g, c1, sc, then_block.stmts@, names) {
                    let c4 = if_other(if_join(c2, head, a), head);
                    if let Some(b) = else_block {
                        match *b {
                            ElseBranch::Block(x) => keep_branch(
                                g,
                                c4,
                                sc,
                                x.stmts@,
                                names_on(g.free.at_if_branch_end@, span, false, 0),
                            ),
                            ElseBranch::If(x) => keep_expr(g, c4, sc, x),
                        }
                    }
                }
            }
        }
    }
}

proof fn keep_ptr(g: G, cx: Cx, sc: Slots, e: Expr)
    ensures
        made_keeps(cx, ptr(g, cx, sc, e)),
    decreases e, 2nat,
{
    broadcast use {keeps_fresh_slot, keeps_agg_builtin, keeps_copy_bytes};
    match e {
        Expr::ArrayLit(v, _) => keep_array(g, cx, sc, v@),
        Expr::Call(name, v, _) => {
            if let Some(b) = builtin_named(name@) {
                if let SLlvm::Is(ty) = llvm(ty_of(g.p, e, sc)) {
                    let d = fresh_slot(cx, "builtin_result.addr"@, ty);
                    keep_ptrs(g, d.0, sc, v@, ptr_count(b));
                }
            }
            if let Some(i) = fn_named(g.p, name@) {
                keep_into_call(g, cx, sc, name@, i, v@);
            }
        }
        Expr::Assign(_, a, _) => keep_ptr(g, cx, sc, *a),
        Expr::Deref(a, _) => keep_expr(g, cx, sc, *a),
        Expr::Binary(..) => keep_whole(g, cx, sc, e),
        _ => {}
    }
}

/// An operator on vectors or matrices.
proof fn keep_whole(g: G, cx: Cx, sc: Slots, e: Expr)
    requires
        e is Binary,
    ensures
        made_keeps(cx, ptr(g, cx, sc, e)),
    decreases e, 1nat,
{
    broadcast use {keeps_fresh_slot, keeps_elementwise, keeps_multiply};
    if let Expr::Binary(op, l, r, _) = e {
        let lt = ty_of(g.p, *l, sc);
        let rt = ty_of(g.p, *r, sc);
        if op == BinOp::Mul {
            if let SLlvm::Is(ty) = llvm(product_ty(lt, rt)) {
                let d = fresh_slot(cx, "agg_mul.addr"@, ty);
                keep_ptr(g, d.0, sc, *l);
                keep_expr(g, d.0, sc, *l);
                let first = if aggregate(lt) {
                    ptr(g, d.0, sc, *l)
                } else {
                    expr(g, d.0, sc, *l)
                };
                if let Gen::Made(c, _) = first {
                    keep_ptr(g, c, sc, *r);
                    keep_expr(g, c, sc, *r);
                }
            }
        } else {
            if let SLlvm::Is(ty) = llvm(lt) {
                let d = fresh_slot(cx, "agg_elemwise.addr"@, ty);
                keep_ptr(g, d.0, sc, *l);
                if let Gen::Made(c, _) = ptr(g, d.0, sc, *l) {
                    keep_ptr(g, c, sc, *r);
                }
            }
        }
    }
}

proof fn keep_stmt(g: G, cx: Cx, sc: Slots, s: Stmt)
    ensures
        made_keeps(cx, stmt(g, cx, sc, s)),
    decreases s, 0nat,
{
    broadcast use {
        keeps_copy_slot,
        keeps_check_range,
        keeps_new_slot,
        keeps_copy_bytes,
        keeps_free_all,
        keeps_emit,
        keeps_stored,
        keeps_while_open,
        keeps_while_body,
        keeps_while_close,
        keeps_free_open,
    };
    match s {
        Stmt::Let { value, .. } => {
            keep_ptr(g, cx, sc, value);
            keep_expr(g, cx, sc, value);
        }
        Stmt::Return { value, .. } => {
            if let Some(e) = value {
                keep_ptr(g, cx, sc, e);
                keep_expr(g, cx, sc, e);
            }
        }
        Stmt::While { cond, body, .. } => {
            let w = while_open(cx);
            keep_expr(g, w.0, sc, cond);
            if let Gen::Made(c, v) = expr(g, w.0, sc, cond) {
                keep_stmts(g, while_body(c, v, w.1), opened(sc), body.stmts@, body.stmts@.len());
            }
        }
        Stmt::Expr(e) => {
            keep_ptr(g, cx, sc, e);
            keep_expr(g, cx, sc, e);
        }
        Stmt::Audited { body, .. } => {
            keep_stmts(g, Cx { audited: true, ..cx }, opened(sc), body@, body@.len());
        }
    }
}

/// A waiver of guards does not outlive its block: behind any statements, guards
/// are waived exactly where they were before, and the functions made so far are
/// the same.
pub proof fn waivers_end_with_their_block(g: G, cx: Cx, sc: Slots, v: Seq<Stmt>, n: nat)
    ensures
        stmts(g, cx, sc, v, n) matches Gen::Made(c, _) ==> c.audited == cx.audited && c.head
            == cx.head,
{
    keep_stmts(g, cx, sc, v, n);
}

} // verus!
