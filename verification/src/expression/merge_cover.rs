//! That rearranging an `Or` of scopes and values loses no value.
use super::bounds::{lemma_bound_reversed, related};
use super::cover::{above, admits, admits_all, admits_any, below, lemma_admits_all, lemma_admits_any};
use super::disjoint::{akin, ends_before, fitting, lemma_flattened_leaves, lemma_last_scope, lemma_sorted_fitting, lemma_stretched_akin, not_after, stretched, well_ordered};
use super::range::{absorb, all_leaves, bound_rank, by_lower, flattened, last_scope, merged, rearranged, Range};
use super::sorting::{lemma_sorted_len, lemma_sorted_members, sorted};
use crate::types::order::{lemma_order_reversed, lemma_order_transitive, ordered};
use crate::types::value::{value_order, ValueRef};
use std::ops::Bound;
use vstd::prelude::*;

verus! {

/// What lies above a lower bound lies above every lower bound that is not
/// greater.
pub proof fn lemma_above_lesser(low: Bound<ValueRef>, high: Bound<ValueRef>, v: ValueRef)
    requires
        related(low, high),
        !(bound_rank(low, high, true) is Greater),
        above(high, v),
        !(high is Unbounded) || low is Unbounded,
    ensures
        above(low, v),
{
    match (low, high) {
        (Bound::Included(x), Bound::Included(y)) => lemma_between(x, y, v),
        (Bound::Included(x), Bound::Excluded(y)) => lemma_between(x, y, v),
        (Bound::Excluded(x), Bound::Included(y)) => lemma_between(x, y, v),
        (Bound::Excluded(x), Bound::Excluded(y)) => lemma_between(x, y, v),
        _ => {},
    }
}

/// What lies below an upper bound lies below every upper bound that is not
/// less.
pub proof fn lemma_below_greater(low: Bound<ValueRef>, high: Bound<ValueRef>, v: ValueRef)
    requires
        related(low, high),
        !(bound_rank(low, high, false) is Greater),
        below(low, v),
    ensures
        below(high, v),
{
    match (low, high) {
        (Bound::Included(x), Bound::Included(y)) => lemma_between(v, x, y),
        (Bound::Included(x), Bound::Excluded(y)) => lemma_between(v, x, y),
        (Bound::Excluded(x), Bound::Included(y)) => lemma_between(v, x, y),
        (Bound::Excluded(x), Bound::Excluded(y)) => lemma_between(v, x, y),
        _ => {},
    }
}

/// Of three values of which the first is ordered with the second and the
/// second with the third, the orders read from either side, and the first
/// stands to the third as the two steps say.
proof fn lemma_between(x: ValueRef, y: ValueRef, z: ValueRef)
    requires
        ordered(*x, *y) || ordered(*y, *x),
        ordered(*y, *z) || ordered(*z, *y),
    ensures
        ordered(*x, *z),
        ordered(*x, *y),
        ordered(*y, *z),
        value_order(*y, *x) == Some(value_order(*x, *y)->0.spec_reverse()),
        value_order(*z, *y) == Some(value_order(*y, *z)->0.spec_reverse()),
        value_order(*z, *x) == Some(value_order(*x, *z)->0.spec_reverse()),
        !(value_order(*x, *y)->0 is Greater) && !(value_order(*y, *z)->0 is Greater) ==> !(value_order(*x, *z)->0
            is Greater) && (value_order(*x, *z)->0 is Equal ==> value_order(*x, *y)->0 is Equal && value_order(
            *y,
            *z,
        )->0 is Equal),
{
    assert(ordered(*x, *y) && value_order(*y, *x) == Some(value_order(*x, *y)->0.spec_reverse())) by {
        lemma_order_reversed(*x, *y);
        lemma_order_reversed(*y, *x);
    }
    assert(ordered(*y, *z) && value_order(*z, *y) == Some(value_order(*y, *z)->0.spec_reverse())) by {
        lemma_order_reversed(*y, *z);
        lemma_order_reversed(*z, *y);
    }
    assert(ordered(*x, *z) && (!(value_order(*x, *y)->0 is Greater) && !(value_order(*y, *z)->0 is Greater) ==> !(
    value_order(*x, *z)->0 is Greater) && (value_order(*x, *z)->0 is Equal ==> value_order(*x, *y)->0 is Equal
        && value_order(*y, *z)->0 is Equal))) by {
        lemma_order_transitive(*x, *y, *z);
    }
    assert(value_order(*z, *x) == Some(value_order(*x, *z)->0.spec_reverse())) by {
        lemma_order_reversed(*x, *z);
    }
}

/// A scope admits what a leaf admits that starts not before it and ends not
/// behind it.
pub proof fn lemma_inside(at: Range, c: Range, v: ValueRef)
    requires
        at is Scope,
        c is Scope || c is Eq,
        akin(at, c),
        akin(c, c),
        not_after(at, c),
        !(bound_rank(at->max, c.upper(), false) is Less),
        admits(c, v),
    ensures
        admits(at, v),
{
    reveal(akin);
    reveal(not_after);
    lemma_bound_reversed(at->max, c.upper(), false);
    lemma_bound_reversed(c.upper(), at->max, false);
    assert(above(c.lower(), v) && below(c.upper(), v));
    if c.lower() is Unbounded {
        assert(at->min is Unbounded);
    }
    lemma_above_lesser(at->min, c.lower(), v);
    lemma_below_greater(c.upper(), at->max, v);
}

/// A scope stretched to the end of a leaf that starts not before it admits
/// what the scope admitted and what the leaf admits.
pub proof fn lemma_stretched_admits(at: Range, c: Range, v: ValueRef)
    requires
        at is Scope,
        c is Scope || c is Eq,
        akin(at, c),
        akin(c, c),
        not_after(at, c),
        bound_rank(at->max, c.upper(), false) is Less,
    ensures
        admits(at, v) ==> admits(stretched(at, c), v),
        admits(c, v) ==> admits(stretched(at, c), v),
{
    reveal(akin);
    reveal(not_after);
    if admits(at, v) {
        lemma_below_greater(at->max, c.upper(), v);
    }
    if admits(c, v) {
        assert(above(c.lower(), v) && below(c.upper(), v));
        if c.lower() is Unbounded {
            assert(at->min is Unbounded);
        }
        lemma_above_lesser(at->min, c.lower(), v);
    }
}

/// Whether a leaf of `m` admits `v`.
pub open spec fn admits_some(m: Seq<Range>, v: ValueRef) -> bool {
    exists|i: int| 0 <= i < m.len() && admits(#[trigger] m[i], v)
}

/// Whether no leaf of `xs` is a `NotEq`.
pub open spec fn without_not_eq(xs: Seq<Range>) -> bool {
    forall|i: int| 0 <= i < xs.len() ==> !(#[trigger] xs[i] is NotEq)
}

/// What holds of the list `m` that the first `k` leaves of the sorted
/// sequence `s` were merged into, as far as the value `v` goes.
pub open spec fn cover_state(m: Seq<Range>, s: Seq<Range>, k: int, v: ValueRef) -> bool {
    &&& all_leaves(m)
    &&& forall|i: int, j: int| 0 <= i < m.len() && 0 <= j < s.len() ==> akin(#[trigger] m[i], #[trigger] s[j])
    &&& forall|i: int, j: int| 0 <= i < m.len() && k <= j < s.len() ==> not_after(#[trigger] m[i], #[trigger] s[j])
    &&& forall|j: int| 0 <= j < k && admits(#[trigger] s[j], v) ==> admits_some(m, v)
}

/// Appending the next leaf loses no value.
proof fn lemma_push_covers(m: Seq<Range>, s: Seq<Range>, k: int, v: ValueRef)
    requires
        fitting(s),
        0 <= k < s.len(),
        cover_state(m, s, k, v),
    ensures
        cover_state(m.push(s[k]), s, k + 1, v),
{
    let c = s[k];
    let n = m.push(c);
    assert(c.is_leaf());
    assert forall|i: int, j: int| 0 <= i < n.len() && 0 <= j < s.len() implies akin(#[trigger] n[i], #[trigger] s[j]) by {
        if i < m.len() {
            assert(n[i] == m[i]);
        } else {
            assert(akin(s[k], s[j]));
        }
    }
    assert forall|i: int, j: int| 0 <= i < n.len() && k + 1 <= j < s.len() implies not_after(
        #[trigger] n[i],
        #[trigger] s[j],
    ) by {
        if i < m.len() {
            assert(n[i] == m[i]);
        } else {
            assert(not_after(s[k], s[j]));
        }
    }
    assert forall|j: int| 0 <= j < k + 1 && admits(#[trigger] s[j], v) implies admits_some(n, v) by {
        if j < k {
            assert(admits_some(m, v));
            let i = choose|i: int| 0 <= i < m.len() && admits(#[trigger] m[i], v);
            assert(admits(n[i], v));
        } else {
            assert(admits(n[m.len() as int], v));
        }
    }
    assert forall|i: int| 0 <= i < n.len() implies (#[trigger] n[i]).is_leaf() by {
        if i < m.len() {
            assert(n[i] == m[i]);
        }
    }
}

/// Merging the next leaf loses no value.
proof fn lemma_absorb_covers(m: Seq<Range>, s: Seq<Range>, k: int, v: ValueRef)
    requires
        fitting(s),
        without_not_eq(s),
        0 <= k < s.len(),
        cover_state(m, s, k, v),
    ensures
        cover_state(absorb(m, s[k]), s, k + 1, v),
{
    let c = s[k];
    let n = absorb(m, c);
    lemma_last_scope(m);
    assert(c.is_leaf());
    assert(akin(c, c));
    match last_scope(m) {
        None => {
            lemma_push_covers(m, s, k, v);
        },
        Some(at) => {
            let max = m[at]->max;
            assert(akin(m[at], s[k]));
            assert(not_after(m[at], s[k]));
            if !c.starts_behind(max) && c.ends_behind(max) {
                let wide = stretched(m[at], c);
                assert(n == m.update(at, wide));
                lemma_stretched_admits(m[at], c, v);
                assert forall|i: int, j: int| 0 <= i < n.len() && 0 <= j < s.len() implies akin(
                    #[trigger] n[i],
                    #[trigger] s[j],
                ) by {
                    assert(akin(m[i], s[j]));
                    assert(akin(s[k], s[j]));
                    lemma_stretched_akin(m[at], c, s[j]);
                }
                assert forall|i: int, j: int| 0 <= i < n.len() && k + 1 <= j < s.len() implies not_after(
                    #[trigger] n[i],
                    #[trigger] s[j],
                ) by {
                    assert(not_after(m[i], s[j]));
                    assert(akin(m[at], s[j]));
                    assert(akin(s[k], s[j]));
                    lemma_stretched_akin(m[at], c, s[j]);
                }
                assert forall|j: int| 0 <= j < k + 1 && admits(#[trigger] s[j], v) implies admits_some(n, v) by {
                    if j < k {
                        assert(admits_some(m, v));
                        let i = choose|i: int| 0 <= i < m.len() && admits(#[trigger] m[i], v);
                        assert(admits(n[i], v));
                    } else {
                        assert(admits(n[at], v));
                    }
                }
                assert forall|i: int| 0 <= i < n.len() implies (#[trigger] n[i]).is_leaf() by {
                    if i != at {
                        assert(n[i] == m[i]);
                    }
                }
            } else if c.starts_behind(max) && c.ends_behind(max) {
                lemma_push_covers(m, s, k, v);
            } else {
                assert(n == m);
                assert(!c.ends_behind(max));
                assert forall|j: int| 0 <= j < k + 1 && admits(#[trigger] s[j], v) implies admits_some(n, v) by {
                    if j == k {
                        lemma_inside(m[at], c, v);
                        assert(admits(m[at], v));
                    }
                }
            }
        },
    }
}

/// What the first `k` leaves merge into admits what one of them admits.
proof fn lemma_merged_covers(s: Seq<Range>, k: int, v: ValueRef)
    requires
        fitting(s),
        without_not_eq(s),
        0 <= k <= s.len(),
    ensures
        cover_state(merged(s.take(k)), s, k, v),
    decreases k,
{
    if k > 0 {
        lemma_merged_covers(s, k - 1, v);
        let head = s.take(k);
        assert(head.drop_last() =~= s.take(k - 1));
        assert(head.last() == s[k - 1]);
        lemma_absorb_covers(merged(s.take(k - 1)), s, k - 1, v);
    } else {
        assert(s.take(0).len() == 0);
    }
}

/// Whether a part of an `Or` vanishes when the `Or` is laid out flat: a
/// scope without bounds, or an `And` without parts.
pub open spec fn vanishing(range: Range) -> bool {
    ||| range matches Range::Scope { min: Bound::Unbounded, max: Bound::Unbounded }
    ||| range matches Range::And(parts) && parts.len() == 0
}

/// Laying the parts of an `Or` out flat loses no value, where none of the
/// parts vanishes.
pub proof fn lemma_flattened_covers(xs: Seq<Range>, v: ValueRef)
    requires
        flattened(xs) is Ok,
        forall|i: int| 0 <= i < xs.len() ==> !vanishing(#[trigger] xs[i]),
        admits_any(xs, v),
    ensures
        admits_some(flattened(xs)->Ok_0, v),
    decreases xs.len(),
{
    let rest = xs.drop_last();
    let last = xs.last();
    let before = flattened(rest)->Ok_0;
    let flat = flattened(xs)->Ok_0;
    assert(xs[xs.len() - 1] == last);
    if admits_any(rest, v) {
        assert forall|i: int| 0 <= i < rest.len() implies !vanishing(#[trigger] rest[i]) by {
            assert(rest[i] == xs[i]);
        }
        lemma_flattened_covers(rest, v);
        let i = choose|i: int| 0 <= i < before.len() && admits(#[trigger] before[i], v);
        assert(flat[i] == before[i]);
    } else {
        match last {
            Range::And(parts) => {
                assert(admits(last, v));
                assert(admits_all(parts, v));
                assert(!vanishing(last));
                lemma_admits_all(parts, v);
                assert(admits(parts[0], v));
                assert(flat[before.len() as int] == parts[0]);
            },
            _ => {
                assert(flat[before.len() as int] == last);
            },
        }
    }
}

/// Rearranging an `Or` loses no value: what a part of the `Or` admits, a
/// range of the list admits.
///
/// This holds where no part vanishes when the `Or` is laid out flat, the
/// leaves hold values that are all ordered with each other, and none of them
/// is a `NotEq`.
pub proof fn lemma_rearranged_covers(xs: Seq<Range>, v: ValueRef)
    requires
        flattened(xs) matches Ok(flat) && well_ordered(flat) && without_not_eq(flat),
        forall|i: int| 0 <= i < xs.len() ==> !vanishing(#[trigger] xs[i]),
        admits(Range::Or(xs), v),
    ensures
        rearranged(Range::Or(xs)) matches Ok(list) && admits_any(list, v),
{
    let flat = flattened(xs)->Ok_0;
    lemma_flattened_leaves(xs);
    lemma_flattened_covers(xs, v);
    lemma_sorted_fitting(flat);
    let s = sorted(flat, by_lower());
    lemma_sorted_len(flat, by_lower());
    lemma_sorted_members(flat, by_lower());
    assert forall|i: int| 0 <= i < s.len() implies !(#[trigger] s[i] is NotEq) by {
        assert(s.contains(s[i]));
        assert(flat.contains(s[i]));
    }
    lemma_merged_covers(s, s.len() as int, v);
    assert(s.take(s.len() as int) =~= s);
    let list = merged(s);
    let i = choose|i: int| 0 <= i < flat.len() && admits(#[trigger] flat[i], v);
    assert(flat.contains(flat[i]));
    assert(s.contains(flat[i]));
    let j = choose|j: int| 0 <= j < s.len() && s[j] == flat[i];
    assert(admits(s[j], v));
    lemma_admits_any(list, v);
}

/// Two scopes of which one ends before the other starts admit no value in
/// common.
pub proof fn lemma_apart_share_nothing(a: Range, b: Range, v: ValueRef)
    requires
        a is Scope,
        b is Scope,
        ends_before(a->max, b->min),
    ensures
        !(admits(a, v) && admits(b, v)),
{
    if admits(a, v) && admits(b, v) {
        match (a->max, b->min) {
            (Bound::Included(x), Bound::Included(y)) => lemma_between(y, v, x),
            (Bound::Included(x), Bound::Excluded(y)) => lemma_between(y, v, x),
            (Bound::Excluded(x), Bound::Included(y)) => lemma_between(y, v, x),
            (Bound::Excluded(x), Bound::Excluded(y)) => lemma_between(y, v, x),
            _ => {},
        }
    }
}

} // verus!
