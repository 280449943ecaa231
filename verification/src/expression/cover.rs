//! Which values a range admits, and that lowering and narrowing lose none.
use super::normal_form::{lemma_eq_values, lemma_surviving};
use super::range::{
    aggregated, all_leaves, by_kind, by_value, eq_values, lemma_by_kind_members, narrowed, narrowed_each, surviving,
    tightest, Range,
};
use super::simplify::new_binary_spec;
use super::sorting::{lemma_sorted_members, sorted};
use super::value_compute::binary_op_spec;
use super::BinaryOperator;
use crate::catalog::ColumnRef;
use crate::types::errors::TypeError;
use crate::types::order::lemma_order_reversed;
use crate::types::value::{value_order, DataValue, Order, ValueRef};
use crate::types::ColumnId;
use std::ops::Bound;
use vstd::prelude::*;

verus! {

/// Whether `v` lies on or above a lower bound.
pub open spec fn above(min: Bound<ValueRef>, v: ValueRef) -> bool {
    match min {
        Bound::Unbounded => true,
        Bound::Included(k) => value_order(*v, *k) matches Some(order) && !(order is Less),
        Bound::Excluded(k) => value_order(*v, *k) == Some(Order::Greater),
    }
}

/// Whether `v` lies on or below an upper bound.
pub open spec fn below(max: Bound<ValueRef>, v: ValueRef) -> bool {
    match max {
        Bound::Unbounded => true,
        Bound::Included(k) => value_order(*v, *k) matches Some(order) && !(order is Greater),
        Bound::Excluded(k) => value_order(*v, *k) == Some(Order::Less),
    }
}

/// Whether a range admits the value `v` of its column.
///
/// A scope admits what lies between its bounds. `Eq` admits what is equal in
/// order to its value, and a null where its value is null. `NotEq` admits
/// what is ordered with its value and not equal to it. An `And` admits what
/// all of its parts admit, an `Or` what one of its parts admits.
pub open spec fn admits(range: Range, v: ValueRef) -> bool
    decreases range,
{
    match range {
        Range::Scope { min, max } => above(min, v) && below(max, v),
        Range::Eq(k) => value_order(*v, *k) == Some(Order::Equal) || (v.spec_is_null() && k.spec_is_null()),
        Range::NotEq(k) => value_order(*v, *k) matches Some(order) && !(order is Equal),
        Range::And(xs) => admits_all(xs, v),
        Range::Or(xs) => admits_any(xs, v),
    }
}

/// Whether every range of `xs` admits `v`.
pub open spec fn admits_all(xs: Seq<Range>, v: ValueRef) -> bool
    decreases xs,
{
    xs.len() == 0 || (admits_all(xs.drop_last(), v) && admits(xs.last(), v))
}

/// Whether a range of `xs` admits `v`.
pub open spec fn admits_any(xs: Seq<Range>, v: ValueRef) -> bool
    decreases xs,
{
    xs.len() > 0 && (admits_any(xs.drop_last(), v) || admits(xs.last(), v))
}

/// All ranges admit a value exactly if each of them does.
pub proof fn lemma_admits_all(xs: Seq<Range>, v: ValueRef)
    ensures
        admits_all(xs, v) <==> forall|i: int| 0 <= i < xs.len() ==> admits(#[trigger] xs[i], v),
    decreases xs.len(),
{
    if xs.len() > 0 {
        let rest = xs.drop_last();
        lemma_admits_all(rest, v);
        if admits_all(xs, v) {
            assert forall|i: int| 0 <= i < xs.len() implies admits(#[trigger] xs[i], v) by {
                if i < rest.len() {
                    assert(rest[i] == xs[i]);
                }
            }
        }
        if forall|i: int| 0 <= i < xs.len() ==> admits(#[trigger] xs[i], v) {
            assert forall|i: int| 0 <= i < rest.len() implies admits(#[trigger] rest[i], v) by {
                assert(rest[i] == xs[i]);
            }
            assert(admits(xs[xs.len() - 1], v));
        }
    }
}

/// Some range admits a value exactly if there is one that does.
pub proof fn lemma_admits_any(xs: Seq<Range>, v: ValueRef)
    ensures
        admits_any(xs, v) <==> exists|i: int| 0 <= i < xs.len() && admits(#[trigger] xs[i], v),
    decreases xs.len(),
{
    if xs.len() > 0 {
        let rest = xs.drop_last();
        lemma_admits_any(rest, v);
        if admits_any(xs, v) {
            if admits_any(rest, v) {
                let i = choose|i: int| 0 <= i < rest.len() && admits(#[trigger] rest[i], v);
                assert(rest[i] == xs[i]);
            } else {
                assert(admits(xs[xs.len() - 1], v));
            }
        }
        if exists|i: int| 0 <= i < xs.len() && admits(#[trigger] xs[i], v) {
            let i = choose|i: int| 0 <= i < xs.len() && admits(#[trigger] xs[i], v);
            if i < rest.len() {
                assert(rest[i] == xs[i]);
            }
        }
    }
}

/// The range of a comparison admits every value of the column of which the
/// comparison is true, and, where the constant is not null, no other.
///
/// `v` is the value of the column and `k` the constant; the comparison is
/// `k op v` where `is_flip`, else `v op k`.
pub proof fn lemma_comparison_range(
    col_id: ColumnId,
    op: BinaryOperator,
    col: ColumnRef,
    k: ValueRef,
    is_flip: bool,
    v: ValueRef,
)
    requires
        new_binary_spec(col_id, op, col, k, is_flip) is Some,
    ensures
        ({
            let range = new_binary_spec(col_id, op, col, k, is_flip)->0;
            let outcome = if is_flip {
                binary_op_spec(*k, *v, op)
            } else {
                binary_op_spec(*v, *k, op)
            };
            let holds = outcome == Ok::<DataValue, TypeError>(DataValue::Boolean(Some(true)));
            &&& holds ==> admits(range, v)
            &&& !k.spec_is_null() && admits(range, v) ==> holds
        }),
{
    assert(value_order(*k, *v) == match value_order(*v, *k) {
        Some(order) => Some(order.spec_reverse()),
        None => None,
    }) by {
        lemma_order_reversed(*v, *k);
    }
}

/// A bound that narrowing arrives at is no bound at all or the bound of a
/// scope among the parts.
pub proof fn lemma_tightest_from_parts(xs: Seq<Range>)
    ensures
        tightest(xs).0 is Unbounded || exists|i: int|
            0 <= i < xs.len() && (#[trigger] xs[i] matches Range::Scope { min, .. } && min == tightest(xs).0),
        tightest(xs).1 is Unbounded || exists|i: int|
            0 <= i < xs.len() && (#[trigger] xs[i] matches Range::Scope { max, .. } && max == tightest(xs).1),
    decreases xs.len(),
{
    if xs.len() > 0 {
        let rest = xs.drop_last();
        lemma_tightest_from_parts(rest);
        let (low, high) = tightest(xs);
        if !(low is Unbounded) {
            if low == tightest(rest).0 {
                let i = choose|i: int|
                    0 <= i < rest.len() && (#[trigger] rest[i] matches Range::Scope { min, .. } && min == tightest(
                        rest,
                    ).0);
                assert(xs[i] == rest[i]);
            } else {
                assert(xs[xs.len() - 1] matches Range::Scope { min, .. } && min == low);
            }
        }
        if !(high is Unbounded) {
            if high == tightest(rest).1 {
                let i = choose|i: int|
                    0 <= i < rest.len() && (#[trigger] rest[i] matches Range::Scope { max, .. } && max == tightest(
                        rest,
                    ).1);
                assert(xs[i] == rest[i]);
            } else {
                assert(xs[xs.len() - 1] matches Range::Scope { max, .. } && max == high);
            }
        }
    }
}

/// Narrowing the parts of an `And` loses no value: what all parts admit, all
/// parts of the result admit.
pub proof fn lemma_aggregated_sound(xs: Seq<Range>, v: ValueRef)
    requires
        admits_all(xs, v),
    ensures
        aggregated(xs) matches Ok(parts) ==> admits_all(parts, v),
{
    if all_leaves(xs) {
        lemma_admits_all(xs, v);
        lemma_by_kind_members(xs);
        let ordered = by_kind(xs);
        assert forall|i: int| 0 <= i < ordered.len() implies admits(#[trigger] ordered[i], v) by {
            assert(ordered.contains(ordered[i]));
            assert(xs.contains(ordered[i]));
            let j = choose|j: int| 0 <= j < xs.len() && xs[j] == ordered[i];
            assert(admits(xs[j], v));
        }
        let kept = surviving(eq_values(ordered), ordered);
        let values = sorted(kept, by_value());
        let parts = aggregated(xs)->Ok_0;
        lemma_admits_all(parts, v);
        if values.len() > 0 {
            lemma_eq_values(ordered);
            lemma_surviving(eq_values(ordered), ordered);
            lemma_sorted_members(kept, by_value());
            assert forall|i: int| 0 <= i < parts.len() implies admits(#[trigger] parts[i], v) by {
                let w = values[i];
                assert(values.contains(w));
                assert(kept.contains(w));
                assert(eq_values(ordered).contains(w));
                assert(ordered.contains(Range::Eq(w)));
                let j = choose|j: int| 0 <= j < ordered.len() && ordered[j] == Range::Eq(w);
                assert(admits(ordered[j], v));
            }
        } else {
            lemma_tightest_from_parts(ordered);
            let (low, high) = tightest(ordered);
            if !(low is Unbounded) {
                let i = choose|i: int|
                    0 <= i < ordered.len() && (#[trigger] ordered[i] matches Range::Scope { min, .. } && min == low);
                assert(admits(ordered[i], v));
            }
            if !(high is Unbounded) {
                let i = choose|i: int|
                    0 <= i < ordered.len() && (#[trigger] ordered[i] matches Range::Scope { max, .. } && max == high);
                assert(admits(ordered[i], v));
            }
        }
    }
}

/// Narrowing each range keeps the number of ranges, and the range at each
/// index is the one at that index narrowed.
pub proof fn lemma_narrowed_each(xs: Seq<Range>)
    ensures
        narrowed_each(xs) matches Ok(parts) ==> parts.len() == xs.len() && forall|i: int|
            0 <= i < xs.len() ==> narrowed(#[trigger] xs[i]) == Ok::<Range, TypeError>(parts[i]),
    decreases xs.len(),
{
    if xs.len() > 0 {
        let rest = xs.drop_last();
        lemma_narrowed_each(rest);
        if let Ok(parts) = narrowed_each(xs) {
            assert forall|i: int| 0 <= i < xs.len() implies narrowed(#[trigger] xs[i]) == Ok::<Range, TypeError>(
                parts[i],
            ) by {
                if i < rest.len() {
                    assert(rest[i] == xs[i]);
                }
            }
        }
    }
}

/// Narrowing loses no value: what a range admits, the narrowed range admits.
pub proof fn lemma_narrowed_sound(range: Range, v: ValueRef)
    requires
        admits(range, v),
    ensures
        narrowed(range) matches Ok(narrow) ==> admits(narrow, v),
    decreases range,
{
    match range {
        Range::And(xs) => {
            lemma_aggregated_sound(xs, v);
        },
        Range::Or(xs) => {
            if let Ok(parts) = narrowed_each(xs) {
                lemma_narrowed_each(xs);
                lemma_admits_any(xs, v);
                lemma_admits_any(parts, v);
                let i = choose|i: int| 0 <= i < xs.len() && admits(#[trigger] xs[i], v);
                lemma_narrowed_sound(xs[i], v);
                assert(admits(parts[i], v));
            }
        },
        _ => {},
    }
}

} // verus!
