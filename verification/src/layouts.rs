//! Matrices in native code stand as the interpreter has them: row by row, and a
//! transposed matrix element by element where the interpreter puts it.
use crate::ast::{Expr, STy};
use crate::builtin_eval::transposed;
use crate::builtins::{builtin_named, Builtin};
use crate::codegen::{arg_ty, ptr, ptrs, G};
use crate::emit::{agg_builtin, ptr_count};
use crate::ir::{fresh_slot, llvm, load, store, Cx, Gen, Text};
use crate::layout::{ty_of, Slots};
use crate::numeric::{turn_column, turn_columns};
use crate::value::SValue;
use vstd::arithmetic::div_mod::lemma_fundamental_div_mod_converse;
use vstd::prelude::*;

verus! {

/// The element of a matrix of `rows` rows and `cols` columns that stands at place `k`
/// of its transpose.
pub open spec fn turned_from(rows: nat, cols: nat, k: int) -> int {
    (k % rows as int) * cols + k / rows as int
}

/// Code that stores the first `n` elements of a transpose one after the other.
pub open spec fn stored_in_turn(
    cx: Cx,
    m: Text,
    dest: Text,
    ty: Text,
    elem: STy,
    rows: nat,
    cols: nat,
    n: nat,
) -> Cx
    decreases n,
{
    if n == 0 {
        cx
    } else {
        let c = stored_in_turn(cx, m, dest, ty, elem, rows, cols, (n - 1) as nat);
        let v = load(c, m, ty, elem, turned_from(rows, cols, n - 1) as nat);
        store(v.0, dest, ty, elem, (n - 1) as nat, v.1)
    }
}

proof fn column_in_turn(
    cx: Cx,
    m: Text,
    dest: Text,
    ty: Text,
    elem: STy,
    rows: nat,
    cols: nat,
    j: nat,
    k: nat,
)
    requires
        k <= rows,
    ensures
        turn_column(
            stored_in_turn(cx, m, dest, ty, elem, rows, cols, j * rows),
            m,
            dest,
            ty,
            elem,
            rows,
            cols,
            j,
            k,
        ) == stored_in_turn(cx, m, dest, ty, elem, rows, cols, j * rows + k),
    decreases k,
{
    if k > 0 {
        column_in_turn(cx, m, dest, ty, elem, rows, cols, j, (k - 1) as nat);
        let n = j * rows + k;
        lemma_fundamental_div_mod_converse(n - 1, rows as int, j as int, k - 1);
        assert(turned_from(rows, cols, n - 1) == (k - 1) * cols + j);
        assert((n - 1) as nat == j * rows + (k - 1));
    }
}

proof fn columns_in_turn(
    cx: Cx,
    m: Text,
    dest: Text,
    ty: Text,
    elem: STy,
    rows: nat,
    cols: nat,
    k: nat,
)
    ensures
        turn_columns(cx, m, dest, ty, elem, rows, cols, k) == stored_in_turn(
            cx,
            m,
            dest,
            ty,
            elem,
            rows,
            cols,
            k * rows,
        ),
    decreases k,
{
    if k > 0 {
        let j = (k - 1) as nat;
        columns_in_turn(cx, m, dest, ty, elem, rows, cols, j);
        column_in_turn(cx, m, dest, ty, elem, rows, cols, j, rows);
        assert(j * rows + rows == k * rows) by (nonlinear_arith)
            requires
                j == k - 1,
                k > 0,
        ;
    } else {
        assert(k * rows == 0) by (nonlinear_arith)
            requires
                k == 0,
        ;
    }
}

/// The code for a transpose stores at each place of the result the very element that
/// the interpreter puts there.
pub proof fn transposes_are_laid_out_alike(
    cx: Cx,
    m: Text,
    dest: Text,
    ty: Text,
    elem: STy,
    rows: nat,
    cols: nat,
    e: Seq<SValue>,
)
    requires
        e.len() == rows * cols,
    ensures
        turn_columns(cx, m, dest, ty, elem, rows, cols, cols) == stored_in_turn(
            cx,
            m,
            dest,
            ty,
            elem,
            rows,
            cols,
            rows * cols,
        ),
        transposed(e, rows, cols).len() == rows * cols,
        forall|k: int|
            0 <= k < rows * cols ==> #[trigger] transposed(e, rows, cols)[k] == e[turned_from(
                rows,
                cols,
                k,
            )],
{
    columns_in_turn(cx, m, dest, ty, elem, rows, cols, cols);
    assert(cols * rows == rows * cols) by (nonlinear_arith);
}

/// Row `i` and column `j` of a matrix stand in row `j` and column `i` of its transpose.
pub proof fn rows_become_columns(rows: nat, cols: nat, i: nat, j: nat)
    requires
        i < rows,
        j < cols,
    ensures
        turned_from(rows, cols, (j * rows + i) as int) == i * cols + j,
        0 <= j * rows + i < rows * cols,
{
    let k = (j * rows + i) as int;
    lemma_fundamental_div_mod_converse(k, rows as int, j as int, i as int);
    assert(j * rows + i < rows * cols) by (nonlinear_arith)
        requires
            i < rows,
            j + 1 <= cols,
    ;
}

/// The code for a transpose: a new slot, the code for the matrix, then for each place
/// of the result one store of the element that belongs there, and the slot is the
/// result.
pub proof fn transposes_get_a_slot(g: G, cx: Cx, sc: Slots, e: Expr)
    requires
        e matches Expr::Call(name, v, _) && builtin_named(name@) == Some(Builtin::Transpose)
            && v@.len() == 1 && (ty_of(g.p, v@[0], sc) matches STy::Matrix(elem, rows, cols) && (
        rows as nat * cols as nat <= usize::MAX && llvm(*elem) is Is)),
        llvm(ty_of(g.p, e, sc)) is Is,
    ensures
        e matches Expr::Call(_, v, _) && (ty_of(g.p, v@[0], sc) matches STy::Matrix(elem, rows, cols)
            && {
            let slot = fresh_slot(cx, "builtin_result.addr"@, llvm(ty_of(g.p, e, sc))->Is_0);
            ptr(g, cx, sc, e) == match ptr(g, slot.0, sc, v@[0]) {
                Gen::Halt(h) => Gen::Halt(h),
                Gen::Made(c, m) => Gen::Made(
                    stored_in_turn(
                        c,
                        m,
                        slot.1,
                        llvm(*elem)->Is_0,
                        *elem,
                        rows as nat,
                        cols as nat,
                        rows as nat * cols as nat,
                    ),
                    slot.1,
                ),
            }
        }),
{
    if let Expr::Call(_, v, _) = e {
        if let STy::Matrix(elem, rows, cols) = ty_of(g.p, v@[0], sc) {
            let slot = fresh_slot(cx, "builtin_result.addr"@, llvm(ty_of(g.p, e, sc))->Is_0);
            reveal(agg_builtin);
            assert(ptr_count(Builtin::Transpose) == 1);
            assert(ptrs(g, slot.0, sc, v@, 0) == Gen::Made(slot.0, Seq::<Text>::empty()));
            assert(ptrs(g, slot.0, sc, v@, 1) == match ptr(g, slot.0, sc, v@[0]) {
                Gen::Halt(h) => Gen::Halt(h),
                Gen::Made(c, m) => Gen::Made(c, Seq::<Text>::empty().push(m)),
            });
            let t = ty_of(g.p, v@[0], sc);
            let u = arg_ty(g.p, v@, 2, sc);
            assert(ptr(g, cx, sc, e) == match ptrs(g, slot.0, sc, v@, 1) {
                Gen::Halt(h) => Gen::Halt(h),
                Gen::Made(c, p) => agg_builtin(
                    c,
                    Builtin::Transpose,
                    ty_of(g.p, e, sc),
                    t,
                    u,
                    p,
                    slot.1,
                ),
            });
            if let Gen::Made(c, m) = ptr(g, slot.0, sc, v@[0]) {
                let one = Seq::<Text>::empty().push(m);
                assert(one[0] == m);
                columns_in_turn(
                    c,
                    m,
                    slot.1,
                    llvm(*elem)->Is_0,
                    *elem,
                    rows as nat,
                    cols as nat,
                    cols as nat,
                );
                assert(cols as nat * rows as nat == rows as nat * cols as nat) by (nonlinear_arith);
            }
        }
    }
}

} // verus!
