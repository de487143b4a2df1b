//! What holds of generated code: names are not used twice, and checks are left out
//! only where they are waived or proved.
use crate::ast::{greatest, integer, least, STy};
use crate::ir::{fresh, fresh_global, fresh_label, guard_index, guard_range, Cx};
use crate::layout::{check_index, check_range, SmtReport};
use crate::text::{dec, dec_nat, digit};
use crate::token::Span;
use vstd::prelude::*;

verus! {

/// Nothing but digits.
pub open spec fn only_digits(s: Seq<char>) -> bool {
    forall|i: int| 0 <= i < s.len() ==> '0' <= #[trigger] s[i] <= '9'
}

proof fn digit_is_one(d: nat)
    requires
        d < 10,
    ensures
        '0' <= digit(d) <= '9',
{
}

pub(crate) proof fn dec_is_digits(n: nat)
    ensures
        only_digits(dec_nat(n)),
        dec_nat(n).len() > 0,
    decreases n,
{
    if n < 10 {
        digit_is_one(n);
    } else {
        dec_is_digits(n / 10);
        digit_is_one(n % 10);
        let a = dec_nat(n / 10);
        let s = dec_nat(n);
        assert forall|i: int| 0 <= i < s.len() implies '0' <= #[trigger] s[i] <= '9' by {
            if i < a.len() {
                assert(s[i] == a[i]);
            }
        }
    }
}

proof fn digits_differ(a: nat, b: nat)
    requires
        a < 10,
        b < 10,
        digit(a) == digit(b),
    ensures
        a == b,
{
    assert(digit(a) as u32 == '0' as u32 + a);
    assert(digit(b) as u32 == '0' as u32 + b);
}

/// Two numbers have the same decimal digits only if they are the same.
pub proof fn decimals_differ(a: nat, b: nat)
    requires
        dec_nat(a) == dec_nat(b),
    ensures
        a == b,
    decreases a,
{
    dec_is_digits(a / 10);
    dec_is_digits(b / 10);
    if a < 10 && b < 10 {
        assert(dec_nat(a)[0] == digit(a));
        assert(dec_nat(b)[0] == digit(b));
        digits_differ(a, b);
    } else if a >= 10 && b >= 10 {
        assert(dec_nat(a).last() == digit(a % 10));
        assert(dec_nat(b).last() == digit(b % 10));
        digits_differ(a % 10, b % 10);
        assert(dec_nat(a).drop_last() =~= dec_nat(a / 10));
        assert(dec_nat(b).drop_last() =~= dec_nat(b / 10));
        decimals_differ(a / 10, b / 10);
    } else if a < 10 {
        assert(dec_nat(a).len() == 1);
        assert(dec_nat(b).len() > 1);
    } else {
        assert(dec_nat(b).len() == 1);
        assert(dec_nat(a).len() > 1);
    }
}

/// What stands behind the last dot is determined.
proof fn last_part(x: Seq<char>, a: Seq<char>, y: Seq<char>, b: Seq<char>)
    requires
        x + seq!['.'] + a == y + seq!['.'] + b,
        only_digits(a),
        only_digits(b),
    ensures
        a == b,
{
    let s = x + seq!['.'] + a;
    let t = y + seq!['.'] + b;
    assert(s.len() == x.len() + 1 + a.len());
    assert(t.len() == y.len() + 1 + b.len());
    assert(s[x.len() as int] == '.');
    assert(t[y.len() as int] == '.');
    if x.len() < y.len() {
        assert(s[y.len() as int] == a[y.len() - x.len() - 1]);
    } else if y.len() < x.len() {
        assert(t[x.len() as int] == b[x.len() - y.len() - 1]);
    } else {
        assert(a =~= s.skip(x.len() as int + 1));
        assert(b =~= t.skip(y.len() as int + 1));
    }
}

/// The name that number `n` makes of a prefix.
pub open spec fn numbered(prefix: Seq<char>, n: nat) -> Seq<char> {
    prefix + "."@ + dec(n as int)
}

/// Names with different numbers are different, whatever their prefixes.
pub proof fn numbered_names_differ(p: Seq<char>, m: nat, q: Seq<char>, n: nat)
    requires
        m != n,
    ensures
        numbered(p, m) != numbered(q, n),
{
    reveal_strlit(".");
    assert("."@ =~= seq!['.']);
    if numbered(p, m) == numbered(q, n) {
        dec_is_digits(m);
        dec_is_digits(n);
        last_part(p, dec_nat(m), q, dec_nat(n));
        decimals_differ(m, n);
    }
}

/// Two registers that are named one after the other, with any number of names
/// between them, are different, as long as the count has not come round.
pub proof fn registers_are_fresh(a: Cx, p: Seq<char>, b: Cx, q: Seq<char>)
    requires
        fresh(a, p).0.tmp <= b.tmp,
        b.tmp < u64::MAX,
        a.tmp < u64::MAX,
    ensures
        fresh(a, p).1 != fresh(b, q).1,
        fresh_global(a, p).1 != fresh_global(b, q).1,
        fresh(b, q).0.tmp == b.tmp + 1,
{
    reveal(fresh);
    reveal(fresh_global);
    let m = (a.tmp + 1) as nat;
    let n = (b.tmp + 1) as nat;
    assert(fresh(a, p).1 =~= numbered("%"@ + p, m));
    assert(fresh(b, q).1 =~= numbered("%"@ + q, n));
    numbered_names_differ("%"@ + p, m, "%"@ + q, n);
    assert(fresh_global(a, p).1 =~= numbered("@."@ + p, m));
    assert(fresh_global(b, q).1 =~= numbered("@."@ + q, n));
    numbered_names_differ("@."@ + p, m, "@."@ + q, n);
}

/// Two labels that are named one after the other are different.
pub proof fn labels_are_fresh(a: Cx, p: Seq<char>, b: Cx, q: Seq<char>)
    requires
        fresh_label(a, p).0.label <= b.label,
        b.label < u64::MAX,
        a.label < u64::MAX,
    ensures
        fresh_label(a, p).1 != fresh_label(b, q).1,
        fresh_label(b, q).0.label == b.label + 1,
{
    reveal(fresh_label);
    let m = (a.label + 1) as nat;
    let n = (b.label + 1) as nat;
    assert(fresh_label(a, p).1 =~= numbered(p, m));
    assert(fresh_label(b, q).1 =~= numbered(q, n));
    numbered_names_differ(p, m, q, n);
}

/// A check stands in the code unless the code is audited, or the check was proved,
/// or there is nothing to check.
pub proof fn checks_stand_unless_waived(
    report: SmtReport,
    cx: Cx,
    val: Seq<char>,
    t: STy,
    dim: nat,
    span: Span,
)
    ensures
        check_range(report, cx, val, t, span) == if cx.audited || report.proven_in_range@.contains(
            span,
        ) || !integer(t) {
            cx
        } else {
            guard_range(cx, val, least(t), greatest(t))
        },
        check_index(report, cx, val, dim, span) == if cx.audited
            || report.proven_index_bounds@.contains(span) {
            cx
        } else {
            guard_index(cx, val, dim)
        },
{
    reveal(check_range);
    reveal(check_index);
}

} // verus!
