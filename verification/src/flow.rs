//! What generated code does with branches and slots: `&&` and `||`, `if`, `while`, and
//! variables that are written and read.
use crate::ast::{greatest, least, BinOp, STy};
use crate::codegen::{
    if_close, if_join, if_open, if_other, logic_left, logic_right, while_body, while_close,
    while_open,
};
use crate::emit::{read_slot, write_slot};
use crate::guards::{numbered, numbered_names_differ};
use crate::ir::{
    define, emit, fresh_label, fresh_slot, llvm, narrow, slot, stored, widen, Cx, Gen, Text,
};
use crate::native::{
    adds, adds_on, compute, half, jump, land, lines, on, one_line, one_more, operand, place,
    rhs_text, roomy, run, run_on, sized, End, Instr, Rhs, State, Word,
};
use vstd::prelude::*;
use vstd::string::*;

verus! {

/// The label stands nowhere in the code.
pub open spec fn without(code: Seq<Instr>, l: Text) -> bool {
    forall|i: int| 0 <= i < code.len() ==> #[trigger] code[i] != Instr::Label(l)
}

proof fn nowhere(code: Seq<Instr>, l: Text, at: int)
    requires
        0 <= at <= code.len(),
        without(code, l),
    ensures
        place(code, l, at) == code.len(),
    decreases code.len() - at,
{
    if at < code.len() {
        assert(code[at] != Instr::Label(l));
        nowhere(code, l, at + 1);
    }
}

/// The run comes out with `w` in `v`.
pub open spec fn ends_with(end: End, v: Text, w: Word) -> bool {
    end matches End::Through(n) && operand(n, v) == Some(w)
}

proof fn left_part(cx: Cx, op: BinOp, l: Text, ptr: Text, m: State, x: bool) -> (code: Seq<Instr>)
    requires
        op == BinOp::And || op == BinOp::Or,
        roomy(cx, 3),
        operand(m, l) == Some(Word::I1(x)),
    ensures
        adds(cx, logic_left(cx, op, l, ptr).0, code),
        x == (op == BinOp::And) ==> run(code, 0, m) == End::Through(m),
        x != (op == BinOp::And) ==> run(code, 0, m) == End::Out(
            logic_left(cx, op, l, ptr).1,
            State { mem: m.mem.insert(ptr, Word::I1(x)), ..m },
        ),
{
    reveal(logic_left);
    reveal(fresh_label);
    reveal(emit);
    let r = fresh_label(cx, "logic_rhs"@);
    let s = fresh_label(r.0, "logic_short"@);
    let e = fresh_label(s.0, "logic_merge"@);
    let n = cx.label;
    assert(r.1 == numbered("logic_rhs"@, (n + 1) as nat));
    assert(s.1 == numbered("logic_short"@, (n + 2) as nat));
    assert(e.1 == numbered("logic_merge"@, (n + 3) as nat));
    numbered_names_differ("logic_rhs"@, (n + 1) as nat, "logic_short"@, (n + 2) as nat);
    numbered_names_differ("logic_rhs"@, (n + 1) as nat, "logic_merge"@, (n + 3) as nat);
    let first = if op == BinOp::And {
        Instr::Branch(l, r.1, s.1)
    } else {
        Instr::Branch(l, s.1, r.1)
    };
    let code = seq![
        first,
        Instr::Label(s.1),
        Instr::Store("i1"@, l, ptr),
        Instr::Jump(e.1),
        Instr::Label(r.1),
    ];
    reveal_strlit("  store i1 ");
    reveal_strlit("  store ");
    reveal_strlit("i1");
    reveal_strlit(" ");
    assert("  store "@ + "i1"@ + " "@ + l + ", ptr "@ + ptr =~= "  store i1 "@ + l + ", ptr "@ + ptr);
    assert(logic_left(cx, op, l, ptr).0.body =~= cx.body + lines(code));
    assert(place(code, s.1, 1) == 1);
    assert(place(code, r.1, 4) == 4);
    assert(place(code, r.1, 3) == 4);
    assert(place(code, r.1, 2) == 4);
    assert(place(code, r.1, 1) == 4);
    assert(place(code, e.1, 5) == 5);
    assert(place(code, e.1, 4) == 5);
    assert(run(code, 5, m) == End::Through(m));
    assert(run(code, 4, m) == End::Through(m));
    let k = State { mem: m.mem.insert(ptr, Word::I1(x)), ..m };
    assert(code[3] == Instr::Jump(e.1));
    assert(jump(code, 3, e.1, k) == End::Out(e.1, k));
    assert(run(code, 3, k) == End::Out(e.1, k));
    assert(code[2] == Instr::Store("i1"@, l, ptr));
    assert(run(code, 2, m) == run(code, 3, k));
    assert(code[1] == Instr::Label(s.1));
    assert(run(code, 1, m) == run(code, 2, m));
    assert(jump(code, 0, s.1, m) == run(code, 1, m));
    assert(jump(code, 0, r.1, m) == End::Through(m));
    assert(code[0] == first);
    code
}

proof fn right_part(cx: Cx, r: Text, ptr: Text, merge: Text) -> (code: Seq<Instr>)
    requires
        roomy(cx, 1),
    ensures
        adds(cx, logic_right(cx, r, ptr, merge).0, code),
        forall|m: State|
            (#[trigger] operand(m, r) matches Some(Word::I1(y)) ==> ends_with(
                run(code, 0, m),
                logic_right(cx, r, ptr, merge).1,
                Word::I1(y),
            )),
        forall|m: State|
            m.mem.dom().contains(ptr) ==> (#[trigger] m.mem[ptr] matches Word::I1(y) ==> ends_with(
                land(code, merge, m),
                logic_right(cx, r, ptr, merge).1,
                Word::I1(y),
            )),
{
    reveal(logic_right);
    reveal(emit);
    let c = emit(cx, "  store i1 "@ + r + ", ptr "@ + ptr);
    let d = emit(c, "  br label %"@ + merge);
    let e = emit(d, merge + ":"@);
    let rhs = Rhs::Load("i1"@, ptr);
    let v = define(e, "logic_val"@, rhs_text(rhs));
    reveal_strlit("  store i1 ");
    reveal_strlit("  store ");
    reveal_strlit("i1");
    reveal_strlit(" ");
    reveal_strlit("load ");
    reveal_strlit(", ptr ");
    reveal_strlit("load i1, ptr ");
    assert("  store "@ + "i1"@ + " "@ + r + ", ptr "@ + ptr =~= "  store i1 "@ + r + ", ptr "@ + ptr);
    assert(rhs_text(rhs) =~= "load i1, ptr "@ + ptr);
    let front = seq![Instr::Store("i1"@, r, ptr), Instr::Jump(merge), Instr::Label(merge)];
    assert(e.body =~= cx.body + lines(front));
    let back = one_more(e, "logic_val"@, rhs);
    adds_on(cx, e, v.0, front, back);
    let code = front + back;
    assert(code[0] == Instr::Store("i1"@, r, ptr));
    assert(code[1] == Instr::Jump(merge));
    assert(code[2] == Instr::Label(merge));
    assert(code[3] == Instr::Def(v.1, rhs));
    assert(place(code, merge, 2) == 2);
    assert(place(code, merge, 1) == 2);
    assert(place(code, merge, 0) == 2);
    assert forall|m: State| m.mem.dom().contains(ptr) && #[trigger] m.mem[ptr] is I1 implies ends_with(
        land(code, merge, m),
        v.1,
        m.mem[ptr],
    ) by {
        loaded(code, v.1, ptr, m, m.mem[ptr]->I1_0);
    }
    assert forall|m: State|
        #[trigger] operand(m, r) is Some && operand(m, r)->0 is I1 implies ends_with(
        run(code, 0, m),
        v.1,
        operand(m, r)->0,
    ) by {
        let y = operand(m, r)->0->I1_0;
        let k = State { mem: m.mem.insert(ptr, Word::I1(y)), ..m };
        loaded(code, v.1, ptr, k, y);
        assert(jump(code, 1, merge, k) == run(code, 2, k));
        assert(run(code, 1, k) == run(code, 2, k));
        assert(run(code, 0, m) == run(code, 1, k));
    }
    code
}

proof fn loaded(code: Seq<Instr>, v: Text, ptr: Text, m: State, y: bool)
    requires
        code.len() == 4,
        code[2] is Label,
        code[3] == Instr::Def(v, Rhs::Load("i1"@, ptr)),
        v.len() > 0 && v[0] == '%',
        m.mem.dom().contains(ptr) && m.mem[ptr] == Word::I1(y),
    ensures
        ends_with(run(code, 2, m), v, Word::I1(y)),
{
    let k = State { regs: m.regs.insert(v, Word::I1(y)), ..m };
    assert(run(code, 4, k) == End::Through(k));
    assert(compute(Rhs::Load("i1"@, ptr), m) == Some(Word::I1(y)));
    assert(run(code, 3, m) == End::Through(k));
    assert(run(code, 2, m) == End::Through(k));
}

/// The code of `&&` and `||`: where the left side decides, it is the value and the code of
/// the right side does not run; else the value is that of the right side.
pub proof fn one_side_may_decide(
    cx: Cx,
    op: BinOp,
    l: Text,
    ptr: Text,
    m: State,
    x: bool,
    mid: Cx,
    inner: Seq<Instr>,
    r: Text,
) -> (code: Seq<Instr>)
    requires
        op == BinOp::And || op == BinOp::Or,
        roomy(cx, 3),
        roomy(mid, 1),
        operand(m, l) == Some(Word::I1(x)),
        adds(logic_left(cx, op, l, ptr).0, mid, inner),
        without(inner, logic_left(cx, op, l, ptr).1),
    ensures
        ({
            let end = logic_right(mid, r, ptr, logic_left(cx, op, l, ptr).1);
            &&& adds(cx, end.0, code)
            &&& op == BinOp::And && !x ==> ends_with(run(code, 0, m), end.1, Word::I1(false))
            &&& op == BinOp::Or && x ==> ends_with(run(code, 0, m), end.1, Word::I1(true))
            &&& x == (op == BinOp::And) ==> {
                &&& run(inner, 0, m) matches End::Through(n) ==> (operand(n, r) matches Some(
                    Word::I1(y),
                ) ==> ends_with(run(code, 0, m), end.1, Word::I1(y)))
                &&& run(inner, 0, m) is Aborted ==> run(code, 0, m) is Aborted
            }
        }),
{
    let merge = logic_left(cx, op, l, ptr).1;
    let left = left_part(cx, op, l, ptr, m, x);
    let right = right_part(mid, r, ptr, merge);
    let end = logic_right(mid, r, ptr, merge);
    adds_on(cx, logic_left(cx, op, l, ptr).0, mid, left, inner);
    adds_on(cx, mid, end.0, left + inner, right);
    run_on(left, inner, 0, m);
    run_on(left + inner, right, 0, m);
    nowhere(inner, merge, 0);
    let k = State { mem: m.mem.insert(ptr, Word::I1(x)), ..m };
    assert(k.mem[ptr] == Word::I1(x));
    left + inner + right
}

/// A loop goes to its condition, goes into its body where the condition holds and past the
/// loop where it does not, and from the end of its body back to the condition.
pub proof fn loops_go_round(
    cx: Cx,
    test: Seq<Instr>,
    tested: Cx,
    cond: Text,
    body: Seq<Instr>,
    done: Cx,
    m: State,
) -> (code: (Seq<Instr>, Seq<Instr>))
    requires
        roomy(cx, 3),
        adds(while_open(cx).0, tested, test),
        adds(while_body(tested, cond, while_open(cx).1), done, body),
        !done.terminated,
        without(test, while_open(cx).1.0),
        without(body, while_open(cx).1.0),
        without(body, while_open(cx).1.2),
    ensures
        ({
            let names = while_open(cx).1;
            &&& adds(cx, while_close(done, names), code.0 + code.1)
            &&& code.0 == seq![Instr::Jump(names.0), Instr::Label(names.0)]
            &&& run(code.0, 0, m) == End::Through(m)
            &&& run(test, 0, m) matches End::Through(n) ==> {
                &&& operand(n, cond) == Some(Word::I1(false)) ==> run(code.1, 0, m) == End::Through(n)
                &&& operand(n, cond) == Some(Word::I1(true)) ==> (run(body, 0, n) matches End::Through(
                    e,
                ) ==> run(code.1, 0, m) == End::Out(names.0, e))
                &&& operand(n, cond) == Some(Word::I1(true)) && run(body, 0, n) is Aborted ==> run(
                    code.1,
                    0,
                    m,
                ) is Aborted
            }
        }),
{
    reveal(while_open);
    reveal(while_body);
    reveal(while_close);
    reveal(fresh_label);
    reveal(emit);
    let names = while_open(cx).1;
    let n0 = cx.label;
    assert(names.0 == numbered("while_cond"@, (n0 + 1) as nat));
    assert(names.1 == numbered("while_body"@, (n0 + 2) as nat));
    assert(names.2 == numbered("while_after"@, (n0 + 3) as nat));
    numbered_names_differ("while_cond"@, (n0 + 1) as nat, "while_body"@, (n0 + 2) as nat);
    numbered_names_differ("while_cond"@, (n0 + 1) as nat, "while_after"@, (n0 + 3) as nat);
    numbered_names_differ("while_body"@, (n0 + 2) as nat, "while_after"@, (n0 + 3) as nat);
    let first = seq![Instr::Jump(names.0), Instr::Label(names.0)];
    let split = seq![Instr::Branch(cond, names.1, names.2), Instr::Label(names.1)];
    let last = seq![Instr::Jump(names.0), Instr::Label(names.2)];
    assert(while_open(cx).0.body =~= cx.body + lines(first));
    let inside = while_body(tested, cond, names);
    assert(inside.body =~= tested.body + lines(split));
    let closed = while_close(done, names);
    assert(closed.body =~= done.body + lines(last));
    adds_on(cx, while_open(cx).0, tested, first, test);
    adds_on(cx, tested, inside, first + test, split);
    adds_on(cx, inside, done, first + test + split, body);
    adds_on(cx, done, closed, first + test + split + body, last);
    let rest = test + split + body + last;
    assert(first + rest =~= first + test + split + body + last);
    loop_runs(names, cond, test, body, m);
    (first, rest)
}

proof fn loop_runs(
    names: (Text, Text, Text),
    cond: Text,
    test: Seq<Instr>,
    body: Seq<Instr>,
    m: State,
)
    requires
        names.0 != names.1,
        names.0 != names.2,
        names.1 != names.2,
        without(body, names.0),
        without(body, names.2),
    ensures
        ({
            let first = seq![Instr::Jump(names.0), Instr::Label(names.0)];
            let split = seq![Instr::Branch(cond, names.1, names.2), Instr::Label(names.1)];
            let last = seq![Instr::Jump(names.0), Instr::Label(names.2)];
            let rest = test + split + body + last;
            &&& run(first, 0, m) == End::Through(m)
            &&& run(test, 0, m) matches End::Through(n) ==> {
                &&& operand(n, cond) == Some(Word::I1(false)) ==> run(rest, 0, m) == End::Through(n)
                &&& operand(n, cond) == Some(Word::I1(true)) ==> (run(body, 0, n) matches End::Through(
                    e,
                ) ==> run(rest, 0, m) == End::Out(names.0, e))
                &&& operand(n, cond) == Some(Word::I1(true)) && run(body, 0, n) is Aborted ==> run(
                    rest,
                    0,
                    m,
                ) is Aborted
            }
        }),
{
    let first = seq![Instr::Jump(names.0), Instr::Label(names.0)];
    let split = seq![Instr::Branch(cond, names.1, names.2), Instr::Label(names.1)];
    let last = seq![Instr::Jump(names.0), Instr::Label(names.2)];
    assert(place(first, names.0, 1) == 1);
    assert(run(first, 2, m) == End::Through(m));
    assert(run(first, 1, m) == End::Through(m));
    assert(jump(first, 0, names.0, m) == End::Through(m));
    assert(run(first, 0, m) == End::Through(m));
    nowhere(body, names.2, 0);
    whole_loop(test, split, body, last, m);
    if let End::Through(n) = run(test, 0, m) {
        assert(split[0] == Instr::Branch(cond, names.1, names.2));
        if operand(n, cond) == Some(Word::I1(false)) {
            assert(place(split, names.2, 2) == 2);
            assert(place(split, names.2, 1) == 2);
            assert(jump(split, 0, names.2, n) == End::Out(names.2, n));
            assert(run(split, 0, n) == End::Out(names.2, n));
            assert(land(body, names.2, n) == End::Out(names.2, n));
            assert(place(last, names.2, 1) == 1);
            assert(place(last, names.2, 0) == 1);
            assert(run(last, 2, n) == End::Through(n));
            assert(run(last, 1, n) == End::Through(n));
            assert(land(last, names.2, n) == End::Through(n));
        } else if operand(n, cond) == Some(Word::I1(true)) {
            assert(place(split, names.1, 1) == 1);
            assert(run(split, 2, n) == End::Through(n));
            assert(run(split, 1, n) == End::Through(n));
            assert(jump(split, 0, names.1, n) == End::Through(n));
            assert(run(split, 0, n) == End::Through(n));
            if let End::Through(e) = run(body, 0, n) {
                assert(place(last, names.0, 2) == 2);
                assert(place(last, names.0, 1) == 2);
                assert(last[0] == Instr::Jump(names.0));
                assert(jump(last, 0, names.0, e) == End::Out(names.0, e));
                assert(run(last, 0, e) == End::Out(names.0, e));
            }
        }
    }
}

proof fn whole_loop(
    test: Seq<Instr>,
    split: Seq<Instr>,
    body: Seq<Instr>,
    last: Seq<Instr>,
    m: State,
)
    ensures
        run(test + split + body + last, 0, m) == on(
            on(on(run(test, 0, m), split), body),
            last,
        ),
{
    run_on(test, split, 0, m);
    run_on(test + split, body, 0, m);
    run_on(test + split + body, last, 0, m);
}

proof fn pieces_run(
    head: Seq<Instr>,
    yes: Seq<Instr>,
    mid: Seq<Instr>,
    no: Seq<Instr>,
    last: Seq<Instr>,
    m: State,
)
    ensures
        run(head + yes + mid + no + last, 0, m) == on(
            on(on(on(run(head, 0, m), yes), mid), no),
            last,
        ),
{
    run_on(head, yes, 0, m);
    run_on(head + yes, mid, 0, m);
    run_on(head + yes + mid, no, 0, m);
    run_on(head + yes + mid + no, last, 0, m);
}

/// The lines around the two branches of an `if` that has a value.
pub open spec fn if_head(cond: Text, yes: Text, no: Text) -> Seq<Instr> {
    seq![Instr::Branch(cond, yes, no), Instr::Label(yes)]
}

pub open spec fn if_middle(ty: Text, ptr: Text, a: Text, no: Text, merge: Text) -> Seq<Instr> {
    seq![Instr::Store(ty, a, ptr), Instr::Jump(merge), Instr::Label(no)]
}

pub open spec fn if_last(ty: Text, ptr: Text, b: Text, merge: Text, v: Text) -> Seq<Instr> {
    seq![
        Instr::Store(ty, b, ptr),
        Instr::Jump(merge),
        Instr::Label(merge),
        Instr::Def(v, Rhs::Load(ty, ptr)),
    ]
}

proof fn if_runs(
    cond: Text,
    x: bool,
    yes: Text,
    no: Text,
    merge: Text,
    ty: Text,
    ptr: Text,
    one: Seq<Instr>,
    a: Text,
    other: Seq<Instr>,
    b: Text,
    v: Text,
    m: State,
)
    requires
        yes != no,
        no != merge,
        yes != merge,
        without(one, no),
        without(other, merge),
        v.len() > 0 && v[0] == '%',
        operand(m, cond) == Some(Word::I1(x)),
    ensures
        ({
            let code = if_head(cond, yes, no) + one + if_middle(ty, ptr, a, no, merge) + other
                + if_last(ty, ptr, b, merge, v);
            let taken = if x {
                one
            } else {
                other
            };
            let from = if x {
                a
            } else {
                b
            };
            &&& run(taken, 0, m) matches End::Through(n) ==> (operand(n, from) matches Some(w)
                ==> (sized(w, ty) ==> ends_with(run(code, 0, m), v, w)))
            &&& run(taken, 0, m) is Aborted ==> run(code, 0, m) is Aborted
        }),
{
    let head = if_head(cond, yes, no);
    let mid = if_middle(ty, ptr, a, no, merge);
    let last = if_last(ty, ptr, b, merge, v);
    pieces_run(head, one, mid, other, last, m);
    assert(head[0] == Instr::Branch(cond, yes, no));
    if x {
        assert(place(head, yes, 1) == 1);
        assert(run(head, 2, m) == End::Through(m));
        assert(run(head, 1, m) == End::Through(m));
        assert(jump(head, 0, yes, m) == End::Through(m));
        assert(run(head, 0, m) == End::Through(m));
        if let End::Through(n) = run(one, 0, m) {
            if let Some(w) = operand(n, a) {
                if sized(w, ty) {
                    let k = State { mem: n.mem.insert(ptr, w), ..n };
                    assert(place(mid, merge, 3) == 3);
                    assert(place(mid, merge, 2) == 3);
                    assert(mid[1] == Instr::Jump(merge));
                    assert(jump(mid, 1, merge, k) == End::Out(merge, k));
                    assert(run(mid, 1, k) == End::Out(merge, k));
                    assert(run(mid, 0, n) == End::Out(merge, k));
                    nowhere(other, merge, 0);
                    assert(land(other, merge, k) == End::Out(merge, k));
                    assert(place(last, merge, 2) == 2);
                    assert(place(last, merge, 1) == 2);
                    assert(place(last, merge, 0) == 2);
                    last_runs(ty, ptr, b, merge, v, k, w);
                    assert(land(last, merge, k) == run(last, 2, k));
                }
            }
        }
    } else {
        assert(place(head, no, 2) == 2);
        assert(place(head, no, 1) == 2);
        assert(jump(head, 0, no, m) == End::Out(no, m));
        assert(run(head, 0, m) == End::Out(no, m));
        nowhere(one, no, 0);
        assert(land(one, no, m) == End::Out(no, m));
        assert(place(mid, no, 2) == 2);
        assert(place(mid, no, 1) == 2);
        assert(place(mid, no, 0) == 2);
        assert(run(mid, 3, m) == End::Through(m));
        assert(run(mid, 2, m) == End::Through(m));
        assert(land(mid, no, m) == End::Through(m));
        if let End::Through(n) = run(other, 0, m) {
            if let Some(w) = operand(n, b) {
                if sized(w, ty) {
                    let k = State { mem: n.mem.insert(ptr, w), ..n };
                    last_runs(ty, ptr, b, merge, v, k, w);
                    assert(last[1] == Instr::Jump(merge));
                    assert(place(last, merge, 2) == 2);
                    assert(jump(last, 1, merge, k) == run(last, 2, k));
                    assert(run(last, 1, k) == run(last, 2, k));
                    assert(last[0] == Instr::Store(ty, b, ptr));
                    assert(run(last, 0, n) == run(last, 1, k));
                }
            }
        }
    }
}

proof fn last_runs(ty: Text, ptr: Text, b: Text, merge: Text, v: Text, k: State, w: Word)
    requires
        v.len() > 0 && v[0] == '%',
        k.mem.dom().contains(ptr) && k.mem[ptr] == w,
        sized(w, ty),
    ensures
        ends_with(run(if_last(ty, ptr, b, merge, v), 2, k), v, w),
{
    let last = if_last(ty, ptr, b, merge, v);
    let e = State { regs: k.regs.insert(v, w), ..k };
    assert(run(last, 4, e) == End::Through(e));
    assert(compute(Rhs::Load(ty, ptr), k) == Some(w));
    assert(last[3] == Instr::Def(v, Rhs::Load(ty, ptr)));
    assert(run(last, 3, k) == End::Through(e));
    assert(run(last, 2, k) == End::Through(e));
}

/// The code of an `if` with a value runs the first branch where the condition holds and the
/// second where it does not, and its value is that of the branch that ran.
pub proof fn one_branch_runs(
    cx: Cx,
    cond: Text,
    t: STy,
    one: Seq<Instr>,
    first: Cx,
    a: Text,
    other: Seq<Instr>,
    second: Cx,
    b: Text,
    m: State,
    x: bool,
) -> (code: Seq<Instr>)
    requires
        t != STy::Unit,
        llvm(t) is Is,
        roomy(cx, 3),
        roomy(second, 1),
        operand(m, cond) == Some(Word::I1(x)),
        if_open(cx, cond, t) matches Gen::Made(c, h) && {
            &&& adds(c, first, one)
            &&& !first.terminated
            &&& adds(if_other(if_join(first, h, a), h), second, other)
            &&& !second.terminated
            &&& without(one, h.other)
            &&& without(other, h.merge)
        },
    ensures
        if_open(cx, cond, t) matches Gen::Made(c, h) && {
            let end = if_close(if_join(second, h, b), h, false);
            let taken = if x {
                one
            } else {
                other
            };
            let from = if x {
                a
            } else {
                b
            };
            &&& adds(cx, end.0, code)
            &&& run(taken, 0, m) matches End::Through(n) ==> (operand(n, from) matches Some(w)
                ==> (sized(w, llvm(t)->Is_0) ==> ends_with(run(code, 0, m), end.1, w)))
            &&& run(taken, 0, m) is Aborted ==> run(code, 0, m) is Aborted
        },
{
    let ty = llvm(t)->Is_0;
    let n0 = cx.label;
    reveal(if_open);
    reveal(if_join);
    reveal(if_other);
    reveal(if_close);
    reveal(fresh_label);
    reveal(fresh_slot);
    reveal(slot);
    reveal(emit);
    reveal(crate::ir::fresh);
    let yes = fresh_label(cx, "if_then"@).1;
    let (c, h) = (if_open(cx, cond, t)->Made_0, if_open(cx, cond, t)->Made_1);
    let ptr = (h.slot->0).0;
    assert(yes == numbered("if_then"@, (n0 + 1) as nat));
    assert(h.other == numbered("if_else"@, (n0 + 2) as nat));
    assert(h.merge == numbered("if_merge"@, (n0 + 3) as nat));
    numbered_names_differ("if_then"@, (n0 + 1) as nat, "if_else"@, (n0 + 2) as nat);
    numbered_names_differ("if_then"@, (n0 + 1) as nat, "if_merge"@, (n0 + 3) as nat);
    numbered_names_differ("if_else"@, (n0 + 2) as nat, "if_merge"@, (n0 + 3) as nat);
    let head = if_head(cond, yes, h.other);
    assert(h.slot == Some((ptr, ty)));
    assert(c.body =~= cx.body + lines(head));
    let mid = if_middle(ty, ptr, a, h.other, h.merge);
    let c4 = if_other(if_join(first, h, a), h);
    assert(c4.body =~= first.body + lines(mid));
    let joined = if_join(second, h, b);
    let merged = Cx { terminated: false, ..emit(joined, h.merge + ":"@) };
    let front = seq![Instr::Store(ty, b, ptr), Instr::Jump(h.merge), Instr::Label(h.merge)];
    assert(merged.body =~= second.body + lines(front));
    let rhs = Rhs::Load(ty, ptr);
    let back = one_more(merged, "if_val"@, rhs);
    let end = if_close(joined, h, false);
    assert(end == define(merged, "if_val"@, rhs_text(rhs)));
    adds_on(second, merged, end.0, front, back);
    let last = if_last(ty, ptr, b, h.merge, end.1);
    assert(front + back =~= last);
    adds_on(cx, c, first, head, one);
    adds_on(cx, first, c4, head + one, mid);
    adds_on(cx, c4, second, head + one + mid, other);
    adds_on(cx, second, end.0, head + one + mid + other, last);
    if_runs(cond, x, yes, h.other, h.merge, ty, ptr, one, a, other, b, end.1, m);
    head + one + mid + other + last
}

/// The types of integers that code is made for, and the truth values.
pub open spec fn kept(t: STy, w: Word) -> bool {
    match t {
        STy::I8 | STy::I16 | STy::I32 | STy::I64 => w matches Word::I64(x) && least(t) <= x
            <= greatest(t),
        STy::Bool => w is I1,
        _ => false,
    }
}

proof fn type_texts()
    ensures
        "i8"@ != "i16"@,
        "i8"@ != "i32"@,
        "i16"@ != "i32"@,
        "i8"@ != "i64"@,
        "i16"@ != "i64"@,
        "i32"@ != "i64"@,
        "i1"@ != "i64"@,
{
    reveal_strlit("i8");
    reveal_strlit("i16");
    reveal_strlit("i32");
    reveal_strlit("i64");
    reveal_strlit("i1");
    assert("i16"@[1] != "i32"@[1]);
    assert("i16"@[1] != "i64"@[1]);
    assert("i32"@[1] != "i64"@[1]);
}

/// What a slot holds of a value.
pub open spec fn packed(t: STy, w: Word) -> Word {
    match (t, w) {
        (STy::I8, Word::I64(x)) => Word::Short("i8"@, x as int),
        (STy::I16, Word::I64(x)) => Word::Short("i16"@, x as int),
        (STy::I32, Word::I64(x)) => Word::Short("i32"@, x as int),
        _ => w,
    }
}

/// Writing puts a value into a slot, and changes no other slot.
pub proof fn slots_are_written(cx: Cx, val: Text, t: STy, ptr: Text, m: State, w: Word) -> (code: Seq<
    Instr,
>)
    requires
        roomy(cx, 2),
        operand(m, val) == Some(w),
        kept(t, w),
    ensures
        write_slot(cx, val, t, ptr) matches Gen::Made(c, _) && adds(cx, c, code) && c.tmp <= cx.tmp + 1
            && c.label == cx.label && (run(code, 0, m) matches End::Through(n) && n.mem == m.mem.insert(
            ptr,
            packed(t, w),
        )),
{
    reveal(write_slot);
    reveal(stored);
    reveal(narrow);
    reveal(llvm);
    reveal(emit);
    type_texts();
    let ty = llvm(t)->Is_0;
    if t == STy::Bool || t == STy::I64 {
        let code = seq![Instr::Store(ty, val, ptr)];
        let c = write_slot(cx, val, t, ptr)->Made_0;
        assert(c.body =~= cx.body + lines(code));
        let n = State { mem: m.mem.insert(ptr, w), ..m };
        assert(run(code, 1, n) == End::Through(n));
        assert(run(code, 0, m) == End::Through(n));
        code
    } else {
        let rhs = Rhs::Cut(val, ty);
        let d = define(cx, "narrow"@, rhs_text(rhs));
        let first = one_more(cx, "narrow"@, rhs);
        let x = w->I64_0 as int;
        match t {
            STy::I8 => {
                assert(half(ty) == Some(0x80int));
                assert((x + 0x80) % 0x100 - 0x80 == x);
            },
            STy::I16 => {
                assert(half(ty) == Some(0x8000int));
                assert((x + 0x8000) % 0x1_0000 - 0x8000 == x);
            },
            _ => {
                assert(half(ty) == Some(0x8000_0000int));
                assert((x + 0x8000_0000) % 0x1_0000_0000 - 0x8000_0000 == x);
            },
        }
        assert(compute(rhs, m) == Some(packed(t, w)));
        let k = State { regs: m.regs.insert(d.1, packed(t, w)), ..m };
        let second = seq![Instr::Store(ty, d.1, ptr)];
        let c = write_slot(cx, val, t, ptr)->Made_0;
        assert(c.body =~= d.0.body + lines(second));
        adds_on(cx, d.0, c, first, second);
        assert(run(first, 1, k) == End::Through(k));
        assert(run(first, 0, m) == End::Through(k));
        run_on(first, second, 0, m);
        let n = State { mem: k.mem.insert(ptr, packed(t, w)), ..k };
        assert(operand(k, d.1) == Some(packed(t, w)));
        assert(run(second, 1, n) == End::Through(n));
        assert(run(second, 0, k) == End::Through(n));
        first + second
    }
}

/// Reading gives the value that is in a slot.
pub proof fn slots_are_read(cx: Cx, prefix: Text, t: STy, ptr: Text, m: State, w: Word) -> (code: Seq<
    Instr,
>)
    requires
        roomy(cx, 3),
        m.mem.dom().contains(ptr),
        m.mem[ptr] == packed(t, w),
        kept(t, w),
    ensures
        read_slot(cx, prefix, t, ptr) matches Gen::Made(c, v) && adds(cx, c, code) && ends_with(
            run(code, 0, m),
            v,
            w,
        ),
{
    reveal(read_slot);
    reveal(widen);
    reveal(llvm);
    type_texts();
    let ty = llvm(t)->Is_0;
    let load = Rhs::Load(ty, ptr);
    let d = define(cx, prefix, rhs_text(load));
    let first = one_more(cx, prefix, load);
    assert(compute(load, m) == Some(packed(t, w)));
    let k = State { regs: m.regs.insert(d.1, packed(t, w)), ..m };
    assert(run(first, 1, k) == End::Through(k));
    assert(run(first, 0, m) == End::Through(k));
    assert(operand(k, d.1) == Some(packed(t, w)));
    if t == STy::Bool || t == STy::I64 {
        first
    } else {
        let rhs = Rhs::Widen(ty, d.1);
        let e = define(d.0, "widen"@, rhs_text(rhs));
        let second = one_line(d.0, "widen"@, rhs, k, w);
        adds_on(cx, d.0, e.0, first, second);
        run_on(first, second, 0, m);
        first + second
    }
}

/// A value that was written to a slot is read from it.
pub proof fn slots_keep_values(
    cx: Cx,
    val: Text,
    t: STy,
    ptr: Text,
    prefix: Text,
    m: State,
    w: Word,
) -> (code: Seq<Instr>)
    requires
        roomy(cx, 5),
        operand(m, val) == Some(w),
        kept(t, w),
    ensures
        write_slot(cx, val, t, ptr) matches Gen::Made(c, _) && (read_slot(c, prefix, t, ptr) matches Gen::Made(
            d,
            v,
        ) && adds(cx, d, code) && ends_with(run(code, 0, m), v, w)),
{
    let first = slots_are_written(cx, val, t, ptr, m, w);
    let c = write_slot(cx, val, t, ptr)->Made_0;
    let n = run(first, 0, m)->Through_0;
    let second = slots_are_read(c, prefix, t, ptr, n, w);
    let d = read_slot(c, prefix, t, ptr)->Made_0;
    adds_on(cx, c, d, first, second);
    run_on(first, second, 0, m);
    first + second
}

} // verus!
