//! The list that an `Or` is rearranged to: sorted, with scopes that do not
//! meet.
use super::bounds::{lemma_bound_reversed, lemma_bound_transitive, related};
use super::range::{
    absorb, all_leaves, bound_rank, by_lower, flattened, last_scope, lemma_sorted_leaves, merged, rearranged, Range,
};
use super::sorting::{lemma_sorted_len, lemma_sorted_members, lemma_sorted_pairwise, sorted};

use crate::types::errors::TypeError;
use crate::types::order::ordered;
use crate::types::value::{value_order, Order, ValueRef};
use std::ops::Bound;
use vstd::prelude::*;

verus! {

/// Whether the values of the bounds of two leaves are ordered with each
/// other.
#[verifier::opaque]
pub open spec fn akin(a: Range, b: Range) -> bool {
    &&& related(a.lower(), b.lower())
    &&& related(a.lower(), b.upper())
    &&& related(a.upper(), b.lower())
    &&& related(a.upper(), b.upper())
}

/// Whether all values in the bounds of `xs` are ordered with each other:
/// none is null, and they are all integers or all of one other type.
pub open spec fn well_ordered(xs: Seq<Range>) -> bool {
    forall|i: int, j: int| 0 <= i < xs.len() && 0 <= j < xs.len() ==> akin(#[trigger] xs[i], #[trigger] xs[j])
}

/// Whether the lower bound of `a` is not greater than that of `b`.
#[verifier::opaque]
pub open spec fn not_after(a: Range, b: Range) -> bool {
    !(bound_rank(a.lower(), b.lower(), true) is Greater)
}

/// Whether no leaf of `xs` is greater by its lower bound than any behind it.
pub open spec fn ascending_lower(xs: Seq<Range>) -> bool {
    forall|i: int, j: int| 0 <= i < j < xs.len() ==> not_after(#[trigger] xs[i], #[trigger] xs[j])
}

/// Whether every value under the upper bound `max` lies before every value
/// over the lower bound `min`, so that no value is under the one and over
/// the other.
pub open spec fn ends_before(max: Bound<ValueRef>, min: Bound<ValueRef>) -> bool {
    match (max, min) {
        (Bound::Included(a), Bound::Included(b)) => value_order(*a, *b) == Some(Order::Less),
        (Bound::Included(a), Bound::Excluded(b)) => value_order(*a, *b) matches Some(order) && !(order is Greater),
        (Bound::Excluded(a), Bound::Included(b)) => value_order(*a, *b) matches Some(order) && !(order is Greater),
        (Bound::Excluded(a), Bound::Excluded(b)) => value_order(*a, *b) matches Some(order) && !(order is Greater),
        _ => false,
    }
}

/// Whether of any two scopes in `xs` the earlier ends before the later
/// starts.
pub open spec fn scopes_apart(xs: Seq<Range>) -> bool {
    forall|i: int, j: int|
        0 <= i < j < xs.len() && (#[trigger] xs[i]) is Scope && (#[trigger] xs[j]) is Scope ==> ends_before(
            xs[i]->max,
            xs[j]->min,
        )
}

/// Where the last scope is.
pub proof fn lemma_last_scope(m: Seq<Range>)
    ensures
        match last_scope(m) {
            Some(k) => 0 <= k < m.len() && m[k] is Scope && forall|j: int| k < j < m.len() ==> !(#[trigger] m[j] is Scope),
            None => forall|j: int| 0 <= j < m.len() ==> !(#[trigger] m[j] is Scope),
        },
    decreases m.len(),
{
    if m.len() > 0 && !(m.last() is Scope) {
        let rest = m.drop_last();
        lemma_last_scope(rest);
        match last_scope(rest) {
            Some(k) => {
                assert(rest[k] == m[k]);
                assert forall|j: int| k < j < m.len() implies !(#[trigger] m[j] is Scope) by {
                    if j < rest.len() {
                        assert(rest[j] == m[j]);
                    }
                }
            },
            None => {
                assert forall|j: int| 0 <= j < m.len() implies !(#[trigger] m[j] is Scope) by {
                    if j < rest.len() {
                        assert(rest[j] == m[j]);
                    }
                }
            },
        }
    }
}

/// Whether the scope `a` ends before the scope `b` both starts and ends, as
/// the merge sees it.
#[verifier::opaque]
pub open spec fn separated(a: Range, b: Range) -> bool {
    &&& bound_rank(a->max, b->min, false) is Less
    &&& !(b->min is Unbounded)
    &&& bound_rank(a->max, b->max, false) is Less
}

/// What holds of the list `m` that the first `k` leaves of the sorted
/// sequence `s` were merged into.
pub open spec fn merge_state(m: Seq<Range>, s: Seq<Range>, k: int) -> bool {
    &&& all_leaves(m)
    &&& forall|i: int, j: int| 0 <= i < m.len() && 0 <= j < s.len() ==> akin(#[trigger] m[i], #[trigger] s[j])
    &&& well_ordered(m)
    &&& forall|i: int, j: int| 0 <= i < m.len() && k <= j < s.len() ==> not_after(#[trigger] m[i], #[trigger] s[j])
    &&& ascending_lower(m)
    &&& forall|i: int, j: int|
        0 <= i < j < m.len() && (#[trigger] m[i]) is Scope && (#[trigger] m[j]) is Scope ==> separated(m[i], m[j])
}

/// Whether the values of the bounds of two leaves are ordered does not
/// depend on the side.
pub proof fn lemma_akin_symmetric(a: Range, b: Range)
    ensures
        akin(a, b) == akin(b, a),
{
    reveal(akin);
    lemma_bound_reversed(a.lower(), b.lower(), true);
    lemma_bound_reversed(a.lower(), b.upper(), true);
    lemma_bound_reversed(a.upper(), b.lower(), true);
    lemma_bound_reversed(a.upper(), b.upper(), true);
}

/// Leaves that are well ordered and sorted by their lower bounds.
pub open spec fn fitting(s: Seq<Range>) -> bool {
    &&& all_leaves(s)
    &&& well_ordered(s)
    &&& ascending_lower(s)
}

/// The scope `at` stretched to the end of the leaf `c`.
pub open spec fn stretched(at: Range, c: Range) -> Range {
    Range::Scope { min: at->min, max: c.upper() }
}

/// A stretched scope is akin to what both the scope and the leaf are akin to,
/// and keeps its place.
pub proof fn lemma_stretched_akin(at: Range, c: Range, x: Range)
    requires
        at is Scope,
        akin(at, x),
        akin(c, x),
    ensures
        akin(stretched(at, c), x),
        akin(x, stretched(at, c)),
        not_after(stretched(at, c), x) == not_after(at, x),
        not_after(x, stretched(at, c)) == not_after(x, at),
{
    reveal(akin);
    reveal(not_after);
    lemma_akin_symmetric(stretched(at, c), x);
}

/// A scope that ends before another ends before what lies behind the end of
/// that other.
proof fn lemma_separated_next(a: Range, b: Range, c: Range)
    requires
        a is Scope,
        b is Scope,
        c is Scope,
        separated(a, b),
        akin(a, b),
        akin(a, c),
        akin(b, c),
        bound_rank(b->max, c->min, false) is Less,
        bound_rank(b->max, c->max, false) is Less,
        !(c->min is Unbounded),
    ensures
        separated(a, c),
{
    reveal(akin);
    reveal(separated);
    lemma_bound_transitive(a->max, b->max, c->min, false);
    lemma_bound_transitive(a->max, b->max, c->max, false);
}

/// A scope that ends before another ends before that other stretched.
proof fn lemma_separated_stretched(a: Range, b: Range, c: Range)
    requires
        a is Scope,
        b is Scope,
        separated(a, b),
        akin(a, b),
        akin(a, c),
        akin(b, c),
        bound_rank(b->max, c.upper(), false) is Less,
    ensures
        separated(a, stretched(b, c)),
{
    reveal(akin);
    reveal(separated);
    lemma_bound_transitive(a->max, b->max, c.upper(), false);
}

/// A scope ends before one that starts and ends behind its end.
proof fn lemma_separated_first(b: Range, c: Range)
    requires
        b is Scope,
        c is Scope,
        bound_rank(b->max, c->min, false) is Less,
        bound_rank(b->max, c->max, false) is Less,
        !(c->min is Unbounded),
    ensures
        separated(b, c),
{
    reveal(separated);
}

/// Appending the next leaf keeps the state of the merge.
proof fn lemma_push_keeps(m: Seq<Range>, s: Seq<Range>, k: int)
    requires
        fitting(s),
        0 <= k < s.len(),
        merge_state(m, s, k),
        last_scope(m) matches Some(at) ==> s[k].starts_behind(m[at]->max) && s[k].ends_behind(m[at]->max),
    ensures
        merge_state(m.push(s[k]), s, k + 1),
{
    let c = s[k];
    let n = m.push(c);
    assert(c.is_leaf());
    lemma_last_scope(m);
    assert forall|i: int, j: int| 0 <= i < n.len() && 0 <= j < s.len() implies akin(#[trigger] n[i], #[trigger] s[j]) by {
        if i < m.len() {
            assert(n[i] == m[i]);
        } else {
            assert(akin(s[k], s[j]));
        }
    }
    assert forall|i: int, j: int| 0 <= i < n.len() && 0 <= j < n.len() implies akin(#[trigger] n[i], #[trigger] n[j]) by {
        if i < m.len() && j < m.len() {
            assert(akin(m[i], m[j]));
        } else if i < m.len() {
            assert(akin(m[i], s[k]));
        } else if j < m.len() {
            assert(akin(m[j], s[k]));
            lemma_akin_symmetric(m[j], s[k]);
        } else {
            assert(akin(s[k], s[k]));
        }
    }
    assert forall|i: int, j: int| 0 <= i < n.len() && k + 1 <= j < s.len() implies not_after(
        #[trigger] n[i],
        #[trigger] s[j],
    ) by {
        if i < m.len() {
            assert(n[i] == m[i]);
        } else {
            assert(not_after(s[k], s[j]));
        }
    }
    assert forall|i: int, j: int| 0 <= i < j < n.len() implies not_after(#[trigger] n[i], #[trigger] n[j]) by {
        if j < m.len() {
            assert(n[i] == m[i] && n[j] == m[j]);
        } else {
            assert(not_after(m[i], s[k]));
        }
    }
    assert forall|i: int, j: int|
        0 <= i < j < n.len() && (#[trigger] n[i]) is Scope && (#[trigger] n[j]) is Scope implies separated(
        n[i],
        n[j],
    ) by {
        if j < m.len() {
            assert(n[i] == m[i] && n[j] == m[j]);
        } else {
            assert(m[i] is Scope);
            let at = last_scope(m)->0;
            assert(akin(m[at], s[k]));
            if i < at {
                assert(separated(m[i], m[at]));
                assert(akin(m[i], m[at]));
                assert(akin(m[i], s[k]));
                lemma_separated_next(m[i], m[at], c);
            } else {
                assert(i == at);
                lemma_separated_first(m[at], c);
            }
        }
    }
    assert forall|i: int| 0 <= i < n.len() implies (#[trigger] n[i]).is_leaf() by {
        if i < m.len() {
            assert(n[i] == m[i]);
        }
    }
}

/// Stretching the last scope to the end of the next leaf keeps the state of
/// the merge.
proof fn lemma_stretch_keeps(m: Seq<Range>, s: Seq<Range>, k: int, at: int)
    requires
        fitting(s),
        0 <= k < s.len(),
        merge_state(m, s, k),
        last_scope(m) == Some(at),
        bound_rank(m[at]->max, s[k].upper(), false) is Less,
    ensures
        merge_state(m.update(at, stretched(m[at], s[k])), s, k + 1),
{
    let c = s[k];
    let wide = stretched(m[at], c);
    let n = m.update(at, wide);
    lemma_last_scope(m);
    assert(akin(m[at], s[k]));
    assert(akin(s[k], s[k]));
    assert forall|i: int, j: int| 0 <= i < n.len() && 0 <= j < s.len() implies akin(#[trigger] n[i], #[trigger] s[j]) by {
        if i != at {
            assert(n[i] == m[i]);
        } else {
            assert(akin(m[at], s[j]));
            assert(akin(s[k], s[j]));
            lemma_stretched_akin(m[at], c, s[j]);
        }
    }
    assert forall|i: int, j: int| 0 <= i < n.len() && 0 <= j < n.len() implies akin(#[trigger] n[i], #[trigger] n[j]) by {
        assert(akin(m[i], m[j]));
        assert(akin(m[i], s[k]));
        assert(akin(m[j], s[k]));
        assert(akin(m[at], m[j]));
        assert(akin(m[at], m[i]));
        lemma_akin_symmetric(m[j], s[k]);
        lemma_akin_symmetric(m[i], s[k]);
        if i == at && j == at {
            lemma_stretched_akin(m[at], c, m[at]);
            lemma_stretched_akin(m[at], c, c);
            lemma_stretched_akin(m[at], c, wide);
        } else if i == at {
            lemma_stretched_akin(m[at], c, m[j]);
        } else if j == at {
            lemma_stretched_akin(m[at], c, m[i]);
        }
    }
    assert forall|i: int, j: int| 0 <= i < n.len() && k + 1 <= j < s.len() implies not_after(
        #[trigger] n[i],
        #[trigger] s[j],
    ) by {
        assert(not_after(m[i], s[j]));
        assert(akin(m[at], s[j]));
        assert(akin(s[k], s[j]));
        lemma_stretched_akin(m[at], c, s[j]);
    }
    assert forall|i: int, j: int| 0 <= i < j < n.len() implies not_after(#[trigger] n[i], #[trigger] n[j]) by {
        assert(not_after(m[i], m[j]));
        assert(akin(m[at], m[j]));
        assert(akin(m[at], m[i]));
        assert(akin(m[i], s[k]));
        assert(akin(m[j], s[k]));
        lemma_akin_symmetric(m[j], s[k]);
        lemma_akin_symmetric(m[i], s[k]);
        if i == at {
            lemma_stretched_akin(m[at], c, m[j]);
        } else if j == at {
            lemma_stretched_akin(m[at], c, m[i]);
        }
    }
    assert forall|i: int, j: int|
        0 <= i < j < n.len() && (#[trigger] n[i]) is Scope && (#[trigger] n[j]) is Scope implies separated(
        n[i],
        n[j],
    ) by {
        assert(m[j] is Scope);
        if j == at {
            assert(n[i] == m[i]);
            assert(separated(m[i], m[at]));
            assert(akin(m[i], m[at]));
            assert(akin(m[i], s[k]));
            lemma_separated_stretched(m[i], m[at], c);
        } else {
            assert(i != at);
            assert(n[i] == m[i] && n[j] == m[j]);
        }
    }
    assert forall|i: int| 0 <= i < n.len() implies (#[trigger] n[i]).is_leaf() by {
        if i != at {
            assert(n[i] == m[i]);
        }
    }
}

/// Merging the next leaf keeps the state of the merge.
proof fn lemma_absorb_keeps(m: Seq<Range>, s: Seq<Range>, k: int)
    requires
        fitting(s),
        0 <= k < s.len(),
        merge_state(m, s, k),
    ensures
        merge_state(absorb(m, s[k]), s, k + 1),
{
    let c = s[k];
    lemma_last_scope(m);
    match last_scope(m) {
        None => {
            lemma_push_keeps(m, s, k);
        },
        Some(at) => {
            let max = m[at]->max;
            if !c.starts_behind(max) && c.ends_behind(max) {
                lemma_stretch_keeps(m, s, k, at);
            } else if c.starts_behind(max) && c.ends_behind(max) {
                lemma_push_keeps(m, s, k);
            }
        },
    }
}

/// The state of the merge holds of what the first `k` leaves merge into.
proof fn lemma_merged_state(s: Seq<Range>, k: int)
    requires
        fitting(s),
        0 <= k <= s.len(),
    ensures
        merge_state(merged(s.take(k)), s, k),
    decreases k,
{
    if k > 0 {
        lemma_merged_state(s, k - 1);
        let head = s.take(k);
        assert(head.drop_last() =~= s.take(k - 1));
        assert(head.last() == s[k - 1]);
        lemma_absorb_keeps(merged(s.take(k - 1)), s, k - 1);
    } else {
        assert(s.take(0).len() == 0);
    }
}

/// Scopes that the merge keeps apart do not meet.
proof fn lemma_separated_apart(a: Range, b: Range)
    requires
        a is Scope,
        b is Scope,
        separated(a, b),
        akin(a, b),
    ensures
        ends_before(a->max, b->min),
{
    reveal(akin);
    reveal(separated);
}

/// What is laid out flat are leaves.
pub proof fn lemma_flattened_leaves(xs: Seq<Range>)
    ensures
        flattened(xs) matches Ok(flat) ==> all_leaves(flat),
    decreases xs.len(),
{
    if xs.len() > 0 {
        lemma_flattened_leaves(xs.drop_last());
        if let Ok(flat) = flattened(xs) {
            let before = flattened(xs.drop_last())->Ok_0;
            assert forall|i: int| 0 <= i < flat.len() implies (#[trigger] flat[i]).is_leaf() by {
                if i < before.len() {
                    assert(flat[i] == before[i]);
                } else if xs.last() is And {
                    assert(flat[i] == xs.last()->And_0[i - before.len()]);
                }
            }
        }
    }
}

/// Leaves that are well ordered stay so when they are sorted, and are then
/// sorted by their lower bounds.
pub proof fn lemma_sorted_fitting(flat: Seq<Range>)
    requires
        all_leaves(flat),
        well_ordered(flat),
    ensures
        fitting(sorted(flat, by_lower())),
{
    let s = sorted(flat, by_lower());
    lemma_sorted_leaves(flat, by_lower());
    lemma_sorted_members(flat, by_lower());
    lemma_sorted_len(flat, by_lower());
    assert forall|a: Range, b: Range| flat.contains(a) && flat.contains(b) implies akin(a, b) by {
        let i = choose|i: int| 0 <= i < flat.len() && flat[i] == a;
        let j = choose|j: int| 0 <= j < flat.len() && flat[j] == b;
        assert(akin(flat[i], flat[j]));
    }
    assert forall|i: int, j: int| 0 <= i < s.len() && 0 <= j < s.len() implies akin(#[trigger] s[i], #[trigger] s[j]) by {
        assert(s.contains(s[i]) && s.contains(s[j]));
    }
    assert forall|a: Range, b: Range|
        flat.contains(a) && flat.contains(b) && #[trigger] by_lower()(a, b) is Greater implies !(by_lower()(b, a)
        is Greater) by {
        lemma_bound_reversed(a.lower(), b.lower(), true);
    }
    assert forall|a: Range, b: Range, c: Range|
        flat.contains(a) && flat.contains(b) && flat.contains(c) && !(#[trigger] by_lower()(a, b) is Greater) && !(
        #[trigger] by_lower()(b, c) is Greater) implies !(by_lower()(a, c) is Greater) by {
        assert(akin(a, b) && akin(b, c) && akin(a, c));
        reveal(akin);
        lemma_bound_transitive(a.lower(), b.lower(), c.lower(), true);
    }
    lemma_sorted_pairwise(flat, by_lower());
    assert forall|i: int, j: int| 0 <= i < j < s.len() implies not_after(#[trigger] s[i], #[trigger] s[j]) by {
        reveal(not_after);
        assert(!(by_lower()(s[i], s[j]) is Greater));
    }
}

/// What an `Or` is rearranged to, where its parts are laid out flat without
/// refusal.
pub open spec fn merged_flat(xs: Seq<Range>) -> Seq<Range> {
    merged(sorted(flattened(xs)->Ok_0, by_lower()))
}

/// What holds of the list that an `Or` is rearranged to, where the leaves of
/// the `Or` hold values that are all ordered with each other.
proof fn lemma_rearranged_state(xs: Seq<Range>)
    requires
        flattened(xs) matches Ok(flat) && well_ordered(flat),
    ensures
        rearranged(Range::Or(xs)) == Ok::<Seq<Range>, TypeError>(merged_flat(xs)),
        ascending_lower(merged_flat(xs)),
        well_ordered(merged_flat(xs)),
        forall|i: int, j: int|
            0 <= i < j < merged_flat(xs).len() && (#[trigger] merged_flat(xs)[i]) is Scope && (
            #[trigger] merged_flat(xs)[j]) is Scope ==> separated(merged_flat(xs)[i], merged_flat(xs)[j]),
{
    let flat = flattened(xs)->Ok_0;
    lemma_flattened_leaves(xs);
    lemma_sorted_fitting(flat);
    let s = sorted(flat, by_lower());
    lemma_merged_state(s, s.len() as int);
    assert(s.take(s.len() as int) =~= s);
}

/// The list that an `Or` is rearranged to is sorted by lower bounds, where
/// the leaves of the `Or` hold values that are all ordered with each other.
pub proof fn lemma_rearranged_sorted(xs: Seq<Range>)
    requires
        flattened(xs) matches Ok(flat) && well_ordered(flat),
    ensures
        rearranged(Range::Or(xs)) matches Ok(list) && ascending_lower(list),
{
    lemma_rearranged_state(xs);
}

/// Of any two scopes in the list that an `Or` is rearranged to, the earlier
/// ends before the later starts, so that no value lies in both. This holds
/// where the leaves of the `Or` hold values that are all ordered with each
/// other.
pub proof fn lemma_rearranged_apart(xs: Seq<Range>)
    requires
        flattened(xs) matches Ok(flat) && well_ordered(flat),
    ensures
        rearranged(Range::Or(xs)) matches Ok(list) && scopes_apart(list),
{
    lemma_rearranged_state(xs);
    let list = merged_flat(xs);
    assert forall|i: int, j: int|
        0 <= i < j < list.len() && (#[trigger] list[i]) is Scope && (#[trigger] list[j]) is Scope implies ends_before(
        list[i]->max,
        list[j]->min,
    ) by {
        assert(akin(list[i], list[j]));
        lemma_separated_apart(list[i], list[j]);
    }
}

} // verus!
