//! The shape of an `And` after narrowing.
use super::range::{
    aggregated, all_leaves, as_eqs, by_kind, by_value, eq_values, excluded, lemma_by_kind_members, surviving,
    value_rank, Range,
};
use super::sorting::{lemma_sorted_differ, lemma_sorted_len, lemma_sorted_members, lemma_sorted_neighbours, lemma_sorted_pairwise, sorted};

use crate::types::order::{lemma_order_equal_same, lemma_order_reversed, lemma_order_transitive, ordered};
use crate::types::value::{value_order, DataValue, Order, ValueRef};
use vstd::prelude::*;

verus! {

/// Whether no two values of `vs` are structurally equal.
pub open spec fn distinct(vs: Seq<ValueRef>) -> bool {
    forall|i: int, j: int| 0 <= i < j < vs.len() ==> !(#[trigger] vs[i]).spec_same(*#[trigger] vs[j])
}

/// Whether no value of `vs` is greater than the one behind it.
pub open spec fn ascending(vs: Seq<ValueRef>) -> bool {
    forall|i: int, j: int|
        0 <= i && j == i + 1 && j < vs.len() ==> !(value_rank(#[trigger] vs[i], #[trigger] vs[j]) is Greater)
}

/// The normal form of the parts of an `And`: nothing, or one scope, or
/// values: an `Eq` for each of some values of which no two are structurally
/// equal and none is greater than the one behind it.
pub open spec fn and_normal_form(parts: Seq<Range>) -> bool {
    ||| parts.len() == 0
    ||| parts.len() == 1 && parts[0] is Scope
    ||| exists|vs: Seq<ValueRef>| #[trigger] as_eqs(vs) == parts && distinct(vs) && ascending(vs)
}

/// Structural equality does not depend on the side.
pub proof fn lemma_same_symmetric(a: DataValue, b: DataValue)
    ensures
        a.spec_same(b) == b.spec_same(a),
{
}

/// The values of the `Eq` ranges are values of `Eq` ranges, each once.
pub proof fn lemma_eq_values(xs: Seq<Range>)
    ensures
        distinct(eq_values(xs)),
        forall|v: ValueRef| #[trigger] eq_values(xs).contains(v) ==> xs.contains(Range::Eq(v)),
    decreases xs.len(),
{
    if xs.len() > 0 {
        let rest = xs.drop_last();
        lemma_eq_values(rest);
        let before = eq_values(rest);
        let after = eq_values(xs);
        assert forall|v: ValueRef| after.contains(v) implies xs.contains(Range::Eq(v)) by {
            let i = choose|i: int| 0 <= i < after.len() && after[i] == v;
            if i < before.len() {
                assert(before[i] == v);
                assert(before.contains(v));
                let j = choose|j: int| 0 <= j < rest.len() && rest[j] == Range::Eq(v);
                assert(xs[j] == Range::Eq(v));
            } else {
                assert(xs[xs.len() - 1] == Range::Eq(v));
            }
        }
        assert forall|i: int, j: int| 0 <= i < j < after.len() implies !(#[trigger] after[i]).spec_same(
            *#[trigger] after[j],
        ) by {
            if j < before.len() {
                assert(after[i] == before[i] && after[j] == before[j]);
            } else {
                assert(after[i] == before[i]);
            }
        }
    }
}

/// The values that survive are among those that were there, are not left
/// out, and stay distinct.
pub proof fn lemma_surviving(vs: Seq<ValueRef>, xs: Seq<Range>)
    ensures
        forall|v: ValueRef| #[trigger] surviving(vs, xs).contains(v) ==> vs.contains(v) && !excluded(xs, v),
        distinct(vs) ==> distinct(surviving(vs, xs)),
    decreases vs.len(),
{
    if vs.len() > 0 {
        let rest = vs.drop_last();
        lemma_surviving(rest, xs);
        let before = surviving(rest, xs);
        let after = surviving(vs, xs);
        assert forall|v: ValueRef| after.contains(v) implies vs.contains(v) && !excluded(xs, v) by {
            let i = choose|i: int| 0 <= i < after.len() && after[i] == v;
            if i < before.len() {
                assert(before[i] == v);
                assert(before.contains(v));
                let j = choose|j: int| 0 <= j < rest.len() && rest[j] == v;
                assert(vs[j] == v);
            } else {
                assert(vs[vs.len() - 1] == v);
            }
        }
        if distinct(vs) {
            assert forall|i: int, j: int| 0 <= i < j < rest.len() implies !(#[trigger] rest[i]).spec_same(
                *#[trigger] rest[j],
            ) by {
                assert(rest[i] == vs[i] && rest[j] == vs[j]);
            }
            assert forall|i: int, j: int| 0 <= i < j < after.len() implies !(#[trigger] after[i]).spec_same(
                *#[trigger] after[j],
            ) by {
                if j < before.len() {
                    assert(after[i] == before[i] && after[j] == before[j]);
                } else {
                    assert(after[i] == before[i]);
                    assert(before.contains(before[i]));
                    let k = choose|k: int| 0 <= k < rest.len() && rest[k] == before[i];
                    assert(vs[k] == before[i]);
                    assert(!vs[k].spec_same(*vs[vs.len() - 1]));
                }
            }
        }
    }
}

/// Of two values at most one is greater than the other.
pub proof fn lemma_value_rank_sides()
    ensures
        forall|a: ValueRef, b: ValueRef| #[trigger] by_value()(a, b) is Greater ==> !(by_value()(b, a) is Greater),
{
    assert forall|a: ValueRef, b: ValueRef| #[trigger] by_value()(a, b) is Greater implies !(by_value()(b, a)
        is Greater) by {
        lemma_order_reversed(*a, *b);
    }
}

/// After narrowing, the parts of an `And` are in normal form: nothing, one
/// scope, or distinct values of which none is greater than the one behind
/// it.
pub proof fn lemma_aggregated_normal_form(xs: Seq<Range>)
    ensures
        aggregated(xs) matches Ok(parts) ==> and_normal_form(parts),
{
    if all_leaves(xs) {
        let parts = by_kind(xs);
        let kept = surviving(eq_values(parts), parts);
        let values = sorted(kept, by_value());
        if values.len() > 0 {
            lemma_eq_values(parts);
            lemma_surviving(eq_values(parts), parts);
            lemma_value_rank_sides();
            lemma_sorted_neighbours(kept, by_value());
            let alike = |a: ValueRef, b: ValueRef| a.spec_same(*b);
            assert forall|a: ValueRef, b: ValueRef| #[trigger] alike(a, b) implies alike(b, a) by {
                lemma_same_symmetric(*a, *b);
            }
            lemma_sorted_differ(kept, by_value(), alike);
            assert(distinct(values));
            assert(ascending(values));
            assert(as_eqs(values) == aggregated(xs)->Ok_0);
        }
    }
}

/// Whether the values of all `Eq` ranges of `xs` are of one type and none of
/// them is null, so that any two of them are ordered.
pub open spec fn eqs_of_one_type(xs: Seq<Range>) -> bool {
    forall|i: int, j: int|
        0 <= i < xs.len() && 0 <= j < xs.len() ==> (#[trigger] xs[i] matches Range::Eq(a) && #[trigger] xs[j] matches Range::Eq(
            b,
        ) ==> ordered(*a, *b) && a.spec_logical_type() == b.spec_logical_type())
}

/// Where the values of the `Eq` parts of an `And` are of one type and not
/// null, the values left after narrowing are strictly ascending.
pub proof fn lemma_aggregated_strictly_ascending(xs: Seq<Range>)
    requires
        eqs_of_one_type(xs),
    ensures
        aggregated(xs) matches Ok(parts) ==> parts.len() == 0 || parts[0] is Scope || forall|i: int, j: int|
            0 <= i < j < parts.len() ==> (#[trigger] parts[i] matches Range::Eq(a) && #[trigger] parts[j] matches Range::Eq(
                b,
            ) && value_order(*a, *b) == Some(Order::Less)),
{
    if all_leaves(xs) {
        let parts = by_kind(xs);
        let kept = surviving(eq_values(parts), parts);
        let values = sorted(kept, by_value());
        if values.len() > 0 {
            lemma_eq_values(parts);
            lemma_surviving(eq_values(parts), parts);
            lemma_by_kind_members(xs);
            lemma_sorted_members(kept, by_value());
            lemma_sorted_len(kept, by_value());
            assert forall|a: ValueRef, b: ValueRef| kept.contains(a) && kept.contains(b) implies ordered(*a, *b)
                && a.spec_logical_type() == b.spec_logical_type() by {
                assert(parts.contains(Range::Eq(a)));
                assert(parts.contains(Range::Eq(b)));
                assert(xs.contains(Range::Eq(a)));
                assert(xs.contains(Range::Eq(b)));
                let i = choose|i: int| 0 <= i < xs.len() && xs[i] == Range::Eq(a);
                let j = choose|j: int| 0 <= j < xs.len() && xs[j] == Range::Eq(b);
                assert(xs[i] matches Range::Eq(x) && xs[j] matches Range::Eq(y) ==> ordered(*x, *y));
            }
            assert forall|a: ValueRef, b: ValueRef|
                kept.contains(a) && kept.contains(b) && #[trigger] by_value()(a, b) is Greater implies !(by_value()(
                b,
                a,
            ) is Greater) by {
                lemma_order_reversed(*a, *b);
            }
            assert forall|a: ValueRef, b: ValueRef, c: ValueRef|
                kept.contains(a) && kept.contains(b) && kept.contains(c) && !(#[trigger] by_value()(a, b) is Greater)
                    && !(#[trigger] by_value()(b, c) is Greater) implies !(by_value()(a, c) is Greater) by {
                lemma_order_transitive(*a, *b, *c);
            }
            lemma_sorted_pairwise(kept, by_value());
            let alike = |a: ValueRef, b: ValueRef| a.spec_same(*b);
            assert forall|a: ValueRef, b: ValueRef| #[trigger] alike(a, b) implies alike(b, a) by {
                lemma_same_symmetric(*a, *b);
            }
            lemma_sorted_differ(kept, by_value(), alike);
            let parts = as_eqs(values);
            assert forall|i: int, j: int| 0 <= i < j < parts.len() implies (#[trigger] parts[i] matches Range::Eq(a)
                && #[trigger] parts[j] matches Range::Eq(b) && value_order(*a, *b) == Some(Order::Less)) by {
                let a = values[i];
                let b = values[j];
                assert(values.contains(a) && values.contains(b));
                assert(kept.contains(a) && kept.contains(b));
                assert(!(by_value()(a, b) is Greater));
                assert(!alike(a, b));
                if value_order(*a, *b) == Some(Order::Equal) {
                    lemma_order_equal_same(*a, *b);
                }
            }
        }
    }
}

} // verus!
