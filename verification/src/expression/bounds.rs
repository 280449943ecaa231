//! What holds of the order of bounds.
use super::range::bound_rank;
use crate::types::order::{lemma_order_reversed, lemma_order_transitive, ordered};
use crate::types::value::{value_order, ValueRef};
use std::ops::Bound;
use vstd::prelude::*;

verus! {

/// The value of a bound that has one.
pub open spec fn bound_value(bound: Bound<ValueRef>) -> Option<ValueRef> {
    match bound {
        Bound::Included(v) => Some(v),
        Bound::Excluded(v) => Some(v),
        Bound::Unbounded => None,
    }
}

/// Whether the values of two bounds are ordered, if both have one.
pub open spec fn related(a: Bound<ValueRef>, b: Bound<ValueRef>) -> bool {
    match (bound_value(a), bound_value(b)) {
        (Some(x), Some(y)) => ordered(*x, *y),
        _ => true,
    }
}

/// Read from the other side, the order of two bounds is reversed.
pub proof fn lemma_bound_reversed(a: Bound<ValueRef>, b: Bound<ValueRef>, is_min: bool)
    ensures
        bound_rank(b, a, is_min) == bound_rank(a, b, is_min).spec_reverse(),
        related(a, b) == related(b, a),
{
    match (bound_value(a), bound_value(b)) {
        (Some(x), Some(y)) => {
            assert(value_order(*y, *x) == match value_order(*x, *y) {
                Some(order) => Some(order.spec_reverse()),
                None => None,
            }) by {
                lemma_order_reversed(*x, *y);
            }
        },
        _ => {},
    }
}

/// The order of bounds whose values are ordered is transitive, strictly
/// where one of the two steps is strict.
pub proof fn lemma_bound_transitive(a: Bound<ValueRef>, b: Bound<ValueRef>, c: Bound<ValueRef>, is_min: bool)
    requires
        related(a, b),
        related(b, c),
        related(a, c),
        !(bound_rank(a, b, is_min) is Greater),
        !(bound_rank(b, c, is_min) is Greater),
    ensures
        !(bound_rank(a, c, is_min) is Greater),
        bound_rank(a, b, is_min) is Less || bound_rank(b, c, is_min) is Less ==> bound_rank(a, c, is_min) is Less,
{
    match (bound_value(a), bound_value(b), bound_value(c)) {
        (Some(x), Some(y), Some(z)) => {
            assert(ordered(*x, *z) && (!(value_order(*x, *y)->0 is Greater) && !(value_order(*y, *z)->0 is Greater)
                ==> !(value_order(*x, *z)->0 is Greater) && (value_order(*x, *z)->0 is Equal ==> value_order(
                *x,
                *y,
            )->0 is Equal && value_order(*y, *z)->0 is Equal))) by {
                lemma_order_transitive(*x, *y, *z);
            }
        },
        _ => {},
    }
}

} // verus!
