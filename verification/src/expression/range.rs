//! Ranges of constants over one column, and their normal forms.
use crate::types::errors::TypeError;
use super::normal_form::{and_normal_form, lemma_aggregated_normal_form};
use super::sorting::{lemma_slot_in_range, lemma_slot_skips_greater, slot, sorted};
use crate::types::value::{share, value_order, Order, ValueRef};
use itertools::Itertools;
use std::ops::Bound;
use vstd::prelude::*;

verus! {

/// An end of an interval, as the standard library defines it: no end at all,
/// an end that belongs to the interval, or one that does not.
#[verifier::external_type_specification]
#[verifier::reject_recursive_types(T)]
pub struct ExBound<T>(Bound<T>);

/// The values of one column that a predicate admits.
#[derive(Debug, PartialEq)]
pub enum ConstantBinary {
    /// The values between two bounds.
    Scope { min: Bound<ValueRef>, max: Bound<ValueRef> },
    /// One value.
    Eq(ValueRef),
    /// Every value but one.
    NotEq(ValueRef),
    /// What all of its parts admit. A part is a `Scope`, an `Eq` or a `NotEq`.
    And(Vec<ConstantBinary>),
    /// What one of its parts admits. A part is a `Scope`, an `Eq`, a `NotEq`
    /// or an `And`.
    Or(Vec<ConstantBinary>),
}

/// The mathematical form of a [`ConstantBinary`]: the same tree with
/// sequences for vectors.
pub enum Range {
    Scope { min: Bound<ValueRef>, max: Bound<ValueRef> },
    Eq(ValueRef),
    NotEq(ValueRef),
    And(Seq<Range>),
    Or(Seq<Range>),
}

impl Range {
    /// A `Scope`, an `Eq` or a `NotEq`.
    pub open spec fn is_leaf(self) -> bool {
        self is Scope || self is Eq || self is NotEq
    }

    /// The place of a range among the parts of an `And` when they are
    /// narrowed: `And` and `Or` come first, then `Eq`, then `NotEq`, then
    /// `Scope`.
    pub open spec fn kind(self) -> u8 {
        match self {
            Range::Scope { .. } => 3,
            Range::NotEq(_) => 2,
            Range::Eq(_) => 1,
            _ => 0,
        }
    }

    /// A leaf, or an `And` or an `Or` of leaves.
    pub open spec fn is_flat(self) -> bool {
        match self {
            Range::And(parts) => forall|i: int| 0 <= i < parts.len() ==> (#[trigger] parts[i]).is_leaf(),
            Range::Or(parts) => forall|i: int| 0 <= i < parts.len() ==> (#[trigger] parts[i]).is_leaf(),
            _ => true,
        }
    }

    /// The bound by which a leaf is placed among others: a scope's own lower
    /// bound, the value itself for `Eq`, the value left out for `NotEq`.
    pub open spec fn lower(self) -> Bound<ValueRef> {
        match self {
            Range::Scope { min, .. } => min,
            Range::Eq(v) => Bound::Included(v),
            Range::NotEq(v) => Bound::Excluded(v),
            _ => Bound::Unbounded,
        }
    }

    /// The bound up to which a leaf reaches: a scope's own upper bound, the
    /// value itself for `Eq`, the value left out for `NotEq`.
    pub open spec fn upper(self) -> Bound<ValueRef> {
        match self {
            Range::Scope { max, .. } => max,
            Range::Eq(v) => Bound::Included(v),
            Range::NotEq(v) => Bound::Excluded(v),
            _ => Bound::Unbounded,
        }
    }

    /// Whether a leaf starts behind the upper bound `max`: it has a lower
    /// bound, and `max` lies before it.
    pub open spec fn starts_behind(self, max: Bound<ValueRef>) -> bool {
        !(self.lower() is Unbounded) && bound_rank(max, self.lower(), false) is Less
    }

    /// Whether a leaf ends behind the upper bound `max`.
    pub open spec fn ends_behind(self, max: Bound<ValueRef>) -> bool {
        bound_rank(max, self.upper(), false) is Less
    }
}

/// The forms of the ranges in `xs`.
pub open spec fn views(xs: Seq<ConstantBinary>) -> Seq<Range> {
    Seq::new(xs.len(), |i: int| xs[i]@)
}

impl ConstantBinary {
    /// The form of the range.
    pub open spec fn form(self) -> Range
        decreases self,
    {
        match self {
            ConstantBinary::Scope { min, max } => Range::Scope { min, max },
            ConstantBinary::Eq(v) => Range::Eq(v),
            ConstantBinary::NotEq(v) => Range::NotEq(v),
            ConstantBinary::And(xs) => Range::And(
                Seq::new(
                    xs@.len(),
                    |i: int|
                        if 0 <= i < xs@.len() {
                            xs@[i].form()
                        } else {
                            Range::And(Seq::empty())
                        },
                ),
            ),
            ConstantBinary::Or(xs) => Range::Or(
                Seq::new(
                    xs@.len(),
                    |i: int|
                        if 0 <= i < xs@.len() {
                            xs@[i].form()
                        } else {
                            Range::And(Seq::empty())
                        },
                ),
            ),
        }
    }
}

impl Clone for ConstantBinary {
    fn clone(&self) -> (r: Self)
        ensures
            r@ == self@,
    {
        self.duplicate()
    }
}

impl View for ConstantBinary {
    type V = Range;

    open spec fn view(&self) -> Range {
        self.form()
    }
}

/// The form of an `And` or an `Or` holds the forms of its parts.
pub proof fn lemma_view_parts(c: ConstantBinary)
    ensures
        c matches ConstantBinary::And(xs) ==> c@ == Range::And(views(xs@)),
        c matches ConstantBinary::Or(xs) ==> c@ == Range::Or(views(xs@)),
{
    if c is And {
        let xs = c->And_0;
        assert(c@->And_0 =~= views(xs@));
    }
    if c is Or {
        let xs = c->Or_0;
        assert(c@->Or_0 =~= views(xs@));
    }
}

/// `order` for lower bounds, its reverse for upper bounds.
pub open spec fn oriented(is_min: bool, order: Order) -> Order {
    if is_min {
        order
    } else {
        order.spec_reverse()
    }
}

/// How two bounds of the same side stand to each other.
///
/// No bound at all is the least lower bound and the greatest upper bound. Two
/// bounds with values stand as their values do; where the values are equal, a
/// bound that leaves the value out is the greater lower bound and the lesser
/// upper bound. Bounds whose values are unordered are unordered.
pub open spec fn bound_order(left: Bound<ValueRef>, right: Bound<ValueRef>, is_min: bool) -> Option<Order> {
    match (left, right) {
        (Bound::Unbounded, Bound::Unbounded) => Some(Order::Equal),
        (Bound::Unbounded, _) => Some(oriented(is_min, Order::Less)),
        (_, Bound::Unbounded) => Some(oriented(is_min, Order::Greater)),
        (Bound::Included(l), Bound::Included(r)) => value_order(*l, *r),
        (Bound::Included(l), Bound::Excluded(r)) => match value_order(*l, *r) {
            Some(order) => Some(order.spec_followed_by(oriented(is_min, Order::Less))),
            None => None,
        },
        (Bound::Excluded(l), Bound::Excluded(r)) => value_order(*l, *r),
        (Bound::Excluded(l), Bound::Included(r)) => match value_order(*l, *r) {
            Some(order) => Some(order.spec_followed_by(oriented(is_min, Order::Greater))),
            None => None,
        },
    }
}

/// [`bound_order`], with unordered bounds taken as equal.
pub open spec fn bound_rank(left: Bound<ValueRef>, right: Bound<ValueRef>, is_min: bool) -> Order {
    match bound_order(left, right, is_min) {
        Some(order) => order,
        None => Order::Equal,
    }
}

/// Whether a bound holds a null.
pub open spec fn bound_is_null(bound: Bound<ValueRef>) -> bool {
    match bound {
        Bound::Included(v) => v.spec_is_null(),
        Bound::Excluded(v) => v.spec_is_null(),
        Bound::Unbounded => false,
    }
}

fn copy_bound(bound: &Bound<ValueRef>) -> (r: Bound<ValueRef>)
    ensures
        r == *bound,
{
    match bound {
        Bound::Unbounded => Bound::Unbounded,
        Bound::Included(v) => Bound::Included(share(v)),
        Bound::Excluded(v) => Bound::Excluded(share(v)),
    }
}

fn null_bound(bound: &Bound<ValueRef>) -> (r: bool)
    ensures
        r == bound_is_null(*bound),
{
    match bound {
        Bound::Included(v) => v.is_null(),
        Bound::Excluded(v) => v.is_null(),
        Bound::Unbounded => false,
    }
}

impl ConstantBinary {
    /// A copy of the range; values stay shared.
    pub fn duplicate(&self) -> (r: ConstantBinary)
        ensures
            r@ == self@,
        decreases self,
    {
        proof {
            lemma_view_parts(*self);
        }
        match self {
            ConstantBinary::Scope { min, max } => ConstantBinary::Scope { min: copy_bound(min), max: copy_bound(max) },
            ConstantBinary::Eq(v) => ConstantBinary::Eq(share(v)),
            ConstantBinary::NotEq(v) => ConstantBinary::NotEq(share(v)),
            ConstantBinary::And(parts) => {
                let copy = ConstantBinary::And(Self::duplicate_all(parts));
                proof {
                    lemma_view_parts(copy);
                }
                copy
            },
            ConstantBinary::Or(parts) => {
                let copy = ConstantBinary::Or(Self::duplicate_all(parts));
                proof {
                    lemma_view_parts(copy);
                }
                copy
            },
        }
    }

    /// A copy of each range.
    pub fn duplicate_all(ranges: &Vec<ConstantBinary>) -> (r: Vec<ConstantBinary>)
        ensures
            views(r@) == views(ranges@),
        decreases ranges,
    {
        let mut out: Vec<ConstantBinary> = Vec::new();
        let mut i: usize = 0;
        while i < ranges.len()
            invariant
                i <= ranges.len(),
                out@.len() == i,
                forall|k: int| 0 <= k < i ==> (#[trigger] out@[k])@ == ranges@[k]@,
            decreases ranges.len() - i,
        {
            out.push(ranges[i].duplicate());
            i += 1;
        }
        assert(views(out@) =~= views(ranges@));
        out
    }

    /// Whether a leaf says nothing of the column: one that holds a null, or a
    /// scope without bounds. An `And` or an `Or` is refused.
    pub fn is_null(&self) -> (r: Result<bool, TypeError>)
        ensures
            r == (match self@ {
                Range::Scope { min, max } => Ok::<bool, TypeError>(
                    bound_is_null(min) || bound_is_null(max) || (min is Unbounded && max is Unbounded),
                ),
                Range::Eq(v) => Ok(v.spec_is_null()),
                Range::NotEq(v) => Ok(v.spec_is_null()),
                _ => Err(TypeError::InvalidType),
            }),
    {
        match self {
            ConstantBinary::Scope { min, max } => {
                if null_bound(min) || null_bound(max) {
                    return Ok(true);
                }
                Ok(matches!((min, max), (Bound::Unbounded, Bound::Unbounded)))
            },
            ConstantBinary::Eq(v) => Ok(v.is_null()),
            ConstantBinary::NotEq(v) => Ok(v.is_null()),
            _ => Err(TypeError::InvalidType),
        }
    }

    /// Compares two bounds of the same side, lower bounds where `is_min`.
    pub fn bound_compared(left_bound: &Bound<ValueRef>, right_bound: &Bound<ValueRef>, is_min: bool) -> (r: Option<
        Order,
    >)
        ensures
            r == bound_order(*left_bound, *right_bound, is_min),
    {
        let less = if is_min {
            Order::Less
        } else {
            Order::Greater
        };
        match (left_bound, right_bound) {
            (Bound::Unbounded, Bound::Unbounded) => Some(Order::Equal),
            (Bound::Unbounded, _) => Some(less),
            (_, Bound::Unbounded) => Some(less.reverse()),
            (Bound::Included(left), Bound::Included(right)) => left.compare(right),
            (Bound::Included(left), Bound::Excluded(right)) => match left.compare(right) {
                Some(order) => Some(order.followed_by(less)),
                None => None,
            },
            (Bound::Excluded(left), Bound::Excluded(right)) => left.compare(right),
            (Bound::Excluded(left), Bound::Included(right)) => match left.compare(right) {
                Some(order) => Some(order.followed_by(less.reverse())),
                None => None,
            },
        }
    }
}

/// [`value_order`], with unordered values taken as equal.
pub open spec fn value_rank(left: ValueRef, right: ValueRef) -> Order {
    match value_order(*left, *right) {
        Some(order) => order,
        None => Order::Equal,
    }
}

/// The rank by which values are sorted.
pub open spec fn by_value() -> spec_fn(ValueRef, ValueRef) -> Order {
    |left: ValueRef, right: ValueRef| value_rank(left, right)
}

/// Whether `vs` holds a value structurally equal to `v`.
pub open spec fn holds_value(vs: Seq<ValueRef>, v: ValueRef) -> bool {
    exists|i: int| 0 <= i < vs.len() && (#[trigger] vs[i]).spec_same(*v)
}

/// Whether every range in `xs` is a leaf.
pub open spec fn all_leaves(xs: Seq<Range>) -> bool {
    forall|i: int| 0 <= i < xs.len() ==> (#[trigger] xs[i]).is_leaf()
}

/// The values of the `Eq` ranges in `xs`, each once, in the order in which
/// they first occur.
pub open spec fn eq_values(xs: Seq<Range>) -> Seq<ValueRef>
    decreases xs.len(),
{
    if xs.len() == 0 {
        Seq::empty()
    } else {
        let rest = eq_values(xs.drop_last());
        match xs.last() {
            Range::Eq(v) => if holds_value(rest, v) {
                rest
            } else {
                rest.push(v)
            },
            _ => rest,
        }
    }
}

/// Whether a `NotEq` in `xs` leaves out a value structurally equal to `v`.
pub open spec fn excluded(xs: Seq<Range>, v: ValueRef) -> bool {
    exists|i: int| 0 <= i < xs.len() && (#[trigger] xs[i] matches Range::NotEq(w) && w.spec_same(*v))
}

/// The values of `vs` that no `NotEq` in `xs` leaves out.
pub open spec fn surviving(vs: Seq<ValueRef>, xs: Seq<Range>) -> Seq<ValueRef>
    decreases vs.len(),
{
    if vs.len() == 0 {
        Seq::empty()
    } else {
        let rest = surviving(vs.drop_last(), xs);
        if excluded(xs, vs.last()) {
            rest
        } else {
            rest.push(vs.last())
        }
    }
}

/// The bounds that the scopes in `xs` leave when each in turn narrows them:
/// a lower bound is replaced by a greater one, an upper bound by a lesser
/// one, and a bound that is unordered to the one held changes nothing.
pub open spec fn tightest(xs: Seq<Range>) -> (Bound<ValueRef>, Bound<ValueRef>)
    decreases xs.len(),
{
    if xs.len() == 0 {
        (Bound::Unbounded, Bound::Unbounded)
    } else {
        let (low, high) = tightest(xs.drop_last());
        match xs.last() {
            Range::Scope { min, max } => (
                if bound_order(low, min, true) == Some(Order::Less) {
                    min
                } else {
                    low
                },
                if bound_order(high, max, false) == Some(Order::Greater) {
                    max
                } else {
                    high
                },
            ),
            _ => (low, high),
        }
    }
}

/// The ranges of `xs` that are of the given kind, in their order.
pub open spec fn of_kind(xs: Seq<Range>, kind: u8) -> Seq<Range>
    decreases xs.len(),
{
    if xs.len() == 0 {
        Seq::empty()
    } else if xs.last().kind() == kind {
        of_kind(xs.drop_last(), kind).push(xs.last())
    } else {
        of_kind(xs.drop_last(), kind)
    }
}

/// The ranges of `xs` sorted by kind, those of one kind in the order they
/// had.
pub open spec fn by_kind(xs: Seq<Range>) -> Seq<Range> {
    of_kind(xs, 0) + of_kind(xs, 1) + of_kind(xs, 2) + of_kind(xs, 3)
}

/// The ranges of one kind are those ranges of `xs` that are of that kind.
pub proof fn lemma_of_kind_members(xs: Seq<Range>, kind: u8)
    ensures
        forall|x: Range| #[trigger] of_kind(xs, kind).contains(x) <==> xs.contains(x) && x.kind() == kind,
    decreases xs.len(),
{
    if xs.len() > 0 {
        let rest = xs.drop_last();
        let last = xs.last();
        let picked = of_kind(xs, kind);
        let before = of_kind(rest, kind);
        lemma_of_kind_members(rest, kind);
        assert forall|x: Range| #[trigger] picked.contains(x) <==> xs.contains(x) && x.kind() == kind by {
            if picked.contains(x) {
                let i = choose|i: int| 0 <= i < picked.len() && picked[i] == x;
                if i < before.len() {
                    assert(before[i] == x);
                    assert(before.contains(x));
                    let j = choose|j: int| 0 <= j < rest.len() && rest[j] == x;
                    assert(xs[j] == x);
                } else {
                    assert(xs[xs.len() - 1] == x);
                }
            }
            if xs.contains(x) && x.kind() == kind {
                let j = choose|j: int| 0 <= j < xs.len() && xs[j] == x;
                if j < rest.len() {
                    assert(rest[j] == x);
                    assert(rest.contains(x));
                    assert(before.contains(x));
                    let i = choose|i: int| 0 <= i < before.len() && before[i] == x;
                    assert(picked[i] == x);
                } else {
                    assert(picked[picked.len() - 1] == x);
                }
            }
        }
    }
}

/// Sorting by kind neither adds nor loses a range.
pub proof fn lemma_by_kind_members(xs: Seq<Range>)
    ensures
        forall|x: Range| #[trigger] by_kind(xs).contains(x) <==> xs.contains(x),
{
    lemma_of_kind_members(xs, 0);
    lemma_of_kind_members(xs, 1);
    lemma_of_kind_members(xs, 2);
    lemma_of_kind_members(xs, 3);
    let a = of_kind(xs, 0);
    let b = of_kind(xs, 1);
    let c = of_kind(xs, 2);
    let d = of_kind(xs, 3);
    let s = by_kind(xs);
    assert forall|x: Range| #[trigger] s.contains(x) <==> xs.contains(x) by {
        if s.contains(x) {
            let i = choose|i: int| 0 <= i < s.len() && s[i] == x;
            if i < a.len() {
                assert(a[i] == x);
                assert(a.contains(x));
            } else if i < a.len() + b.len() {
                assert(b[i - a.len()] == x);
                assert(b.contains(x));
            } else if i < a.len() + b.len() + c.len() {
                assert(c[i - a.len() - b.len()] == x);
                assert(c.contains(x));
            } else {
                assert(d[i - a.len() - b.len() - c.len()] == x);
                assert(d.contains(x));
            }
        }
        if xs.contains(x) {
            if x.kind() == 0 {
                assert(a.contains(x));
                let i = choose|i: int| 0 <= i < a.len() && a[i] == x;
                assert(s[i] == x);
            } else if x.kind() == 1 {
                assert(b.contains(x));
                let i = choose|i: int| 0 <= i < b.len() && b[i] == x;
                assert(s[a.len() + i] == x);
            } else if x.kind() == 2 {
                assert(c.contains(x));
                let i = choose|i: int| 0 <= i < c.len() && c[i] == x;
                assert(s[a.len() + b.len() + i] == x);
            } else {
                assert(d.contains(x));
                let i = choose|i: int| 0 <= i < d.len() && d[i] == x;
                assert(s[a.len() + b.len() + c.len() + i] == x);
            }
        }
    }
}

/// Sorted by kind, no range comes before one of a lesser kind.
pub proof fn lemma_by_kind_sorted(xs: Seq<Range>)
    ensures
        forall|i: int, j: int|
            0 <= i < j < by_kind(xs).len() ==> (#[trigger] by_kind(xs)[i]).kind() <= (#[trigger] by_kind(xs)[j]).kind(),
{
    lemma_of_kind_members(xs, 0);
    lemma_of_kind_members(xs, 1);
    lemma_of_kind_members(xs, 2);
    lemma_of_kind_members(xs, 3);
    let a = of_kind(xs, 0);
    let b = of_kind(xs, 1);
    let c = of_kind(xs, 2);
    let d = of_kind(xs, 3);
    let s = by_kind(xs);
    assert forall|i: int| 0 <= i < s.len() implies (#[trigger] s[i]).kind() == (if i < a.len() {
        0u8
    } else if i < a.len() + b.len() {
        1u8
    } else if i < a.len() + b.len() + c.len() {
        2u8
    } else {
        3u8
    }) by {
        if i < a.len() {
            assert(a.contains(a[i]));
        } else if i < a.len() + b.len() {
            assert(b.contains(b[i - a.len()]));
        } else if i < a.len() + b.len() + c.len() {
            assert(c.contains(c[i - a.len() - b.len()]));
        } else {
            assert(d.contains(d[i - a.len() - b.len() - c.len()]));
        }
    }
}

/// Whether two shared values are structurally equal.
pub open spec fn same_value(w: ValueRef, v: ValueRef) -> bool {
    w.spec_same(*v)
}

/// The values of `vs` that are not structurally equal to the value `w`.
pub open spec fn without(vs: Seq<ValueRef>, w: ValueRef) -> Seq<ValueRef>
    decreases vs.len(),
{
    if vs.len() == 0 {
        Seq::empty()
    } else if w.spec_same(*vs.last()) {
        without(vs.drop_last(), w)
    } else {
        without(vs.drop_last(), w).push(vs.last())
    }
}

/// Ranges without a scope narrow nothing.
pub proof fn lemma_tightest_without_scope(xs: Seq<Range>)
    requires
        forall|i: int| 0 <= i < xs.len() ==> !(#[trigger] xs[i] is Scope),
    ensures
        tightest(xs) == (Bound::<ValueRef>::Unbounded, Bound::<ValueRef>::Unbounded),
    decreases xs.len(),
{
    if xs.len() > 0 {
        let rest = xs.drop_last();
        assert forall|i: int| 0 <= i < rest.len() implies !(#[trigger] rest[i] is Scope) by {
            assert(rest[i] == xs[i]);
        }
        lemma_tightest_without_scope(rest);
        assert(!(xs[xs.len() - 1] is Scope));
    }
}

/// Where no range leaves a value out, all values survive.
pub proof fn lemma_surviving_all(vs: Seq<ValueRef>, xs: Seq<Range>)
    requires
        forall|i: int| 0 <= i < xs.len() ==> !(#[trigger] xs[i] is NotEq),
    ensures
        surviving(vs, xs) == vs,
    decreases vs.len(),
{
    if vs.len() > 0 {
        lemma_surviving_all(vs.drop_last(), xs);
        assert(!excluded(xs, vs.last()));
        assert(vs.drop_last().push(vs.last()) =~= vs);
    } else {
        assert(vs =~= Seq::<ValueRef>::empty());
    }
}

/// A range that is no `NotEq` leaves no further value out.
pub proof fn lemma_surviving_same(vs: Seq<ValueRef>, xs: Seq<Range>, x: Range)
    requires
        !(x is NotEq),
    ensures
        surviving(vs, xs.push(x)) == surviving(vs, xs),
    decreases vs.len(),
{
    if vs.len() > 0 {
        lemma_surviving_same(vs.drop_last(), xs, x);
        let v = vs.last();
        let more = xs.push(x);
        if excluded(xs, v) {
            let i = choose|i: int| 0 <= i < xs.len() && (#[trigger] xs[i] matches Range::NotEq(w) && w.spec_same(*v));
            assert(more[i] == xs[i]);
        }
        if excluded(more, v) {
            let i = choose|i: int|
                0 <= i < more.len() && (#[trigger] more[i] matches Range::NotEq(w) && w.spec_same(*v));
            assert(i < xs.len());
            assert(more[i] == xs[i]);
        }
    }
}

/// A further `NotEq` takes its value away from those that survive.
pub proof fn lemma_surviving_without(vs: Seq<ValueRef>, xs: Seq<Range>, w: ValueRef)
    ensures
        surviving(vs, xs.push(Range::NotEq(w))) == without(surviving(vs, xs), w),
    decreases vs.len(),
{
    if vs.len() > 0 {
        lemma_surviving_without(vs.drop_last(), xs, w);
        let v = vs.last();
        let more = xs.push(Range::NotEq(w));
        let rest = surviving(vs.drop_last(), xs);
        if excluded(xs, v) {
            let i = choose|i: int| 0 <= i < xs.len() && (#[trigger] xs[i] matches Range::NotEq(u) && u.spec_same(*v));
            assert(more[i] == xs[i]);
        } else {
            assert(rest.push(v).drop_last() =~= rest);
            if same_value(w, v) {
                assert(more[xs.len() as int] == Range::NotEq(w));
            } else if excluded(more, v) {
                let i = choose|i: int|
                    0 <= i < more.len() && (#[trigger] more[i] matches Range::NotEq(u) && u.spec_same(*v));
                if i < xs.len() {
                    assert(more[i] == xs[i]);
                }
            }
        }
    }
}

/// What an `Eq` behind values alone adds: its value, unless it is there.
pub proof fn lemma_eq_step(p: Seq<Range>, v: ValueRef)
    requires
        forall|k: int| 0 <= k < p.len() ==> (#[trigger] p[k]).kind() <= 1,
    ensures
        surviving(eq_values(p), p) == eq_values(p),
        surviving(eq_values(p.push(Range::Eq(v))), p.push(Range::Eq(v))) == eq_values(p.push(Range::Eq(v))),
        tightest(p.push(Range::Eq(v))) == (Bound::<ValueRef>::Unbounded, Bound::<ValueRef>::Unbounded),
{
    let next = p.push(Range::Eq(v));
    assert forall|k: int| 0 <= k < next.len() implies !(#[trigger] next[k] is NotEq) && !(next[k] is Scope) by {
        if k < p.len() {
            assert(next[k] == p[k]);
            assert(p[k].kind() <= 1);
        }
    }
    assert forall|k: int| 0 <= k < p.len() implies !(#[trigger] p[k] is NotEq) by {
        assert(p[k].kind() <= 1);
    }
    lemma_surviving_all(eq_values(p), p);
    lemma_surviving_all(eq_values(next), next);
    lemma_tightest_without_scope(next);
}

/// What a `NotEq` behind values and other `NotEq`s does: it takes its value
/// away.
pub proof fn lemma_not_eq_step(p: Seq<Range>, w: ValueRef)
    requires
        forall|k: int| 0 <= k < p.len() ==> (#[trigger] p[k]).kind() <= 2,
    ensures
        surviving(eq_values(p.push(Range::NotEq(w))), p.push(Range::NotEq(w))) == without(
            surviving(eq_values(p), p),
            w,
        ),
        tightest(p.push(Range::NotEq(w))) == (Bound::<ValueRef>::Unbounded, Bound::<ValueRef>::Unbounded),
{
    let next = p.push(Range::NotEq(w));
    assert forall|k: int| 0 <= k < next.len() implies !(#[trigger] next[k] is Scope) by {
        if k < p.len() {
            assert(next[k] == p[k]);
            assert(p[k].kind() <= 2);
        }
    }
    lemma_tightest_without_scope(next);
    lemma_surviving_without(eq_values(p), p, w);
    assert(next.drop_last() =~= p);
}

/// A scope changes nothing of the values that survive.
pub proof fn lemma_scope_step(p: Seq<Range>, x: Range)
    requires
        x is Scope,
    ensures
        surviving(eq_values(p.push(x)), p.push(x)) == surviving(eq_values(p), p),
{
    lemma_surviving_same(eq_values(p), p, x);
    assert(p.push(x).drop_last() =~= p);
}

/// An `Eq` for each value.
pub open spec fn as_eqs(vs: Seq<ValueRef>) -> Seq<Range> {
    Seq::new(vs.len(), |i: int| Range::Eq(vs[i]))
}

/// The parts of an `And` after narrowing.
///
/// Parts that are not leaves are refused. Else the parts are taken sorted by
/// kind. Where a value of an `Eq` is left after the values of the `NotEq`
/// parts are taken away, the result is one `Eq` for each such value, sorted;
/// the scopes are then not looked at. Where no such value is left, the
/// result is the one scope that the scopes narrow to, or nothing if that
/// scope has no bounds.
pub open spec fn aggregated(xs: Seq<Range>) -> Result<Seq<Range>, TypeError> {
    if !all_leaves(xs) {
        Err(TypeError::InvalidType)
    } else {
        let parts = by_kind(xs);
        let values = sorted(surviving(eq_values(parts), parts), by_value());
        if values.len() > 0 {
            Ok(as_eqs(values))
        } else {
            let (min, max) = tightest(parts);
            if min is Unbounded && max is Unbounded {
                Ok(Seq::empty())
            } else {
                Ok(seq![Range::Scope { min, max }])
            }
        }
    }
}

/// A range after narrowing: the parts of an `And` are aggregated, each part
/// of an `Or` is narrowed in turn, a leaf stays.
pub open spec fn narrowed(range: Range) -> Result<Range, TypeError>
    decreases range,
{
    match range {
        Range::And(xs) => match aggregated(xs) {
            Ok(parts) => Ok(Range::And(parts)),
            Err(e) => Err(e),
        },
        Range::Or(xs) => match narrowed_each(xs) {
            Ok(parts) => Ok(Range::Or(parts)),
            Err(e) => Err(e),
        },
        _ => Ok(range),
    }
}

/// Each range of `xs` narrowed; the first refusal is that of the whole.
pub open spec fn narrowed_each(xs: Seq<Range>) -> Result<Seq<Range>, TypeError>
    decreases xs,
{
    if xs.len() == 0 {
        Ok(Seq::empty())
    } else {
        match narrowed_each(xs.drop_last()) {
            Ok(parts) => match narrowed(xs.last()) {
                Ok(part) => Ok(parts.push(part)),
                Err(e) => Err(e),
            },
            Err(e) => Err(e),
        }
    }
}

/// The parts of an `And` sorted by kind.
///
/// Calls itertools' `Itertools::sorted_by_key` with the kind of a part as the
/// key. That sort is stable and the key takes four values, so the result
/// holds the parts of the first kind in the order they had, then those of
/// the second kind, and so on; each part is a copy of the part it stands
/// for.
#[verifier::external_body]
fn sorted_by_kind(binaries: &Vec<ConstantBinary>) -> (r: Vec<ConstantBinary>)
    ensures
        views(r@) == by_kind(views(binaries@)),
{
    binaries.iter().sorted_by_key(|binary| binary.kind()).map(|binary| binary.duplicate()).collect_vec()
}

fn rank_values(left: &ValueRef, right: &ValueRef) -> (r: Order)
    ensures
        r == value_rank(*left, *right),
{
    match left.compare(right) {
        Some(order) => order,
        None => Order::Equal,
    }
}

fn contains_value(values: &Vec<ValueRef>, v: &ValueRef) -> (r: bool)
    ensures
        r == holds_value(values@, *v),
{
    let mut i: usize = 0;
    while i < values.len()
        invariant
            i <= values.len(),
            forall|k: int| 0 <= k < i ==> !(#[trigger] values@[k]).spec_same(**v),
        decreases values.len() - i,
    {
        if values[i].same(v) {
            return true;
        }
        i += 1;
    }
    false
}

fn remove_value(values: &Vec<ValueRef>, w: &ValueRef) -> (r: Vec<ValueRef>)
    ensures
        r@ == without(values@, *w),
{
    let mut kept: Vec<ValueRef> = Vec::new();
    let mut i: usize = 0;
    while i < values.len()
        invariant
            i <= values.len(),
            kept@ == without(values@.take(i as int), *w),
        decreases values.len() - i,
    {
        proof {
            let next = values@.take(i + 1);
            assert(next.drop_last() =~= values@.take(i as int));
            assert(next.last() == values@[i as int]);
        }
        if !w.same(&values[i]) {
            kept.push(share(&values[i]));
        }
        i += 1;
    }
    assert(values@.take(values.len() as int) =~= values@);
    kept
}

fn sort_values(values: &Vec<ValueRef>) -> (r: Vec<ValueRef>)
    ensures
        r@ == sorted(values@, by_value()),
{
    let mut out: Vec<ValueRef> = Vec::new();
    let mut i: usize = 0;
    while i < values.len()
        invariant
            i <= values.len(),
            out@.len() == i,
            out@ == sorted(values@.take(i as int), by_value()),
        decreases values.len() - i,
    {
        let x = share(&values[i]);
        let mut j: usize = out.len();
        while j > 0 && matches!(rank_values(&out[j - 1], &x), Order::Greater)
            invariant
                j <= out.len(),
                forall|k: int| j <= k < out@.len() ==> by_value()(#[trigger] out@[k], x) is Greater,
            decreases j,
        {
            j -= 1;
        }
        proof {
            lemma_slot_skips_greater(out@, j as int, x, by_value());
            let head = out@.take(j as int);
            if j > 0 {
                assert(head.last() == out@[j - 1]);
            }
            assert(slot(head, x, by_value()) == j);
            let next = values@.take(i + 1);
            assert(next.drop_last() =~= values@.take(i as int));
            assert(next.last() == x);
        }
        out.insert(j, x);
        i += 1;
    }
    assert(values@.take(values.len() as int) =~= values@);
    out
}

/// What the values left and the bounds reached become when the next part of
/// an `And`, taken in the order of kinds, is looked at: an `Eq` adds its
/// value, a `NotEq` takes its value away, and a scope narrows the bounds
/// unless a value is left.
fn take_part(
    part: &ConstantBinary,
    eq_set: Vec<ValueRef>,
    scope_min: Bound<ValueRef>,
    scope_max: Bound<ValueRef>,
    Ghost(before): Ghost<Seq<Range>>,
) -> (r: (Vec<ValueRef>, Bound<ValueRef>, Bound<ValueRef>))
    requires
        part@.is_leaf(),
        forall|k: int| 0 <= k < before.len() ==> (#[trigger] before[k]).kind() <= part@.kind(),
        eq_set@ == surviving(eq_values(before), before),
        eq_set@.len() == 0 ==> (scope_min, scope_max) == tightest(before),
    ensures
        r.0@ == surviving(eq_values(before.push(part@)), before.push(part@)),
        r.0@.len() == 0 ==> (r.1, r.2) == tightest(before.push(part@)),
{
    proof {
        assert(before.push(part@).drop_last() =~= before);
    }
    match part {
        ConstantBinary::Scope { min, max } => {
            proof {
                lemma_scope_step(before, part@);
            }
            // Skip if eq or noteq exists
            if eq_set.len() == 0 {
                let low = match ConstantBinary::bound_compared(&scope_min, min, true) {
                    Some(Order::Less) => copy_bound(min),
                    _ => scope_min,
                };
                let high = match ConstantBinary::bound_compared(&scope_max, max, false) {
                    Some(Order::Greater) => copy_bound(max),
                    _ => scope_max,
                };
                (eq_set, low, high)
            } else {
                (eq_set, scope_min, scope_max)
            }
        },
        ConstantBinary::Eq(val) => {
            proof {
                lemma_eq_step(before, *val);
            }
            let mut eq_set = eq_set;
            if !contains_value(&eq_set, val) {
                eq_set.push(share(val));
            }
            (eq_set, Bound::Unbounded, Bound::Unbounded)
        },
        ConstantBinary::NotEq(val) => {
            proof {
                lemma_not_eq_step(before, *val);
            }
            (remove_value(&eq_set, val), Bound::Unbounded, Bound::Unbounded)
        },
        _ => (eq_set, scope_min, scope_max),
    }
}

impl ConstantBinary {
    /// The place of the range among the parts of an `And`, see
    /// [`Range::kind`].
    pub fn kind(&self) -> (r: u8)
        ensures
            r == self@.kind(),
    {
        match self {
            ConstantBinary::Scope { .. } => 3,
            ConstantBinary::NotEq(_) => 2,
            ConstantBinary::Eq(_) => 1,
            ConstantBinary::And(_) | ConstantBinary::Or(_) => 0,
        }
    }

    /// Whether the range is a `Scope`, an `Eq` or a `NotEq`.
    pub fn is_leaf(&self) -> (r: bool)
        ensures
            r == self@.is_leaf(),
    {
        match self {
            ConstantBinary::Scope { .. } | ConstantBinary::Eq(_) | ConstantBinary::NotEq(_) => true,
            _ => false,
        }
    }

    /// Narrows the parts of an `And` in place, see [`aggregated`]. Refused
    /// parts are left as they were.
    pub fn _scope_aggregation(binaries: &mut Vec<ConstantBinary>) -> (r: Result<(), TypeError>)
        ensures
            match aggregated(views(old(binaries)@)) {
                Ok(parts) => r is Ok && views(final(binaries)@) == parts,
                Err(e) => r == Err::<(), TypeError>(e) && *final(binaries) == *old(binaries),
            },
            r is Ok ==> and_normal_form(views(final(binaries)@)),
    {
        let ghost xs = views(binaries@);
        proof {
            lemma_aggregated_normal_form(xs);
            lemma_by_kind_sorted(xs);
            lemma_by_kind_members(xs);
        }
        let ordered = sorted_by_kind(binaries);
        let ghost parts = views(ordered@);
        let mut scope_min: Bound<ValueRef> = Bound::Unbounded;
        let mut scope_max: Bound<ValueRef> = Bound::Unbounded;
        let mut eq_set: Vec<ValueRef> = Vec::new();
        let mut i: usize = 0;
        assert(parts.take(0) =~= Seq::<Range>::empty());
        // Aggregate various ranges to get the minimum range
        while i < ordered.len()
            invariant
                i <= ordered.len(),
                parts == views(ordered@),
                xs == views(binaries@),
                *binaries == *old(binaries),
                forall|x: Range| #[trigger] parts.contains(x) <==> xs.contains(x),
                forall|a: int, b: int|
                    0 <= a < b < parts.len() ==> (#[trigger] parts[a]).kind() <= (#[trigger] parts[b]).kind(),
                forall|k: int| 0 <= k < i ==> (#[trigger] parts[k]).is_leaf(),
                eq_set@ == surviving(eq_values(parts.take(i as int)), parts.take(i as int)),
                eq_set@.len() == 0 ==> (scope_min, scope_max) == tightest(parts.take(i as int)),
            decreases ordered.len() - i,
        {
            let ghost before = parts.take(i as int);
            proof {
                assert(parts.take(i + 1) =~= before.push(parts[i as int]));
                assert(parts[i as int] == ordered@[i as int]@);
                assert forall|k: int| 0 <= k < before.len() implies (#[trigger] before[k]).kind() <= parts[i as int].kind() by {
                    assert(before[k] == parts[k]);
                }
            }
            if !ordered[i].is_leaf() {
                proof {
                    assert(parts.contains(parts[i as int]));
                    assert(xs.contains(parts[i as int]));
                    let k = choose|k: int| 0 <= k < xs.len() && xs[k] == parts[i as int];
                    assert(!xs[k].is_leaf());
                }
                return Err(TypeError::InvalidType);
            }
            let taken = take_part(&ordered[i], eq_set, scope_min, scope_max, Ghost(before));
            eq_set = taken.0;
            scope_min = taken.1;
            scope_max = taken.2;
            i += 1;
        }
        proof {
            assert(parts.take(ordered.len() as int) =~= parts);
            assert forall|k: int| 0 <= k < xs.len() implies (#[trigger] xs[k]).is_leaf() by {
                assert(xs.contains(xs[k]));
                assert(parts.contains(xs[k]));
                let a = choose|a: int| 0 <= a < parts.len() && parts[a] == xs[k];
                assert(parts[a].is_leaf());
            }
        }
        let values = sort_values(&eq_set);
        if values.len() > 0 {
            let mut leaves: Vec<ConstantBinary> = Vec::new();
            i = 0;
            while i < values.len()
                invariant
                    i <= values.len(),
                    leaves@.len() == i,
                    forall|k: int| 0 <= k < i ==> (#[trigger] leaves@[k])@ == Range::Eq(values@[k]),
                decreases values.len() - i,
            {
                leaves.push(ConstantBinary::Eq(share(&values[i])));
                i += 1;
            }
            assert(views(leaves@) =~= as_eqs(values@));
            *binaries = leaves;
            return Ok(());
        }
        if matches!((&scope_min, &scope_max), (Bound::Unbounded, Bound::Unbounded)) {
            *binaries = Vec::new();
            assert(views(binaries@) =~= Seq::<Range>::empty());
        } else {
            let mut leaves: Vec<ConstantBinary> = Vec::new();
            leaves.push(ConstantBinary::Scope { min: scope_min, max: scope_max });
            assert(views(leaves@) =~= seq![Range::Scope { min: scope_min, max: scope_max }]);
            *binaries = leaves;
        }
        Ok(())
    }
}

/// Where narrowing refuses the range at index `i` and none before it, that
/// refusal is the refusal of the whole sequence.
pub proof fn lemma_narrowed_each_fails(xs: Seq<Range>, i: int)
    requires
        0 <= i < xs.len(),
        narrowed_each(xs.take(i)) is Ok,
        narrowed(xs[i]) is Err,
    ensures
        narrowed_each(xs) == Err::<Seq<Range>, TypeError>(narrowed(xs[i])->Err_0),
    decreases xs.len(),
{
    if i == xs.len() - 1 {
        assert(xs.drop_last() =~= xs.take(i));
    } else {
        assert(xs.drop_last().take(i) =~= xs.take(i));
        lemma_narrowed_each_fails(xs.drop_last(), i);
    }
}

impl ConstantBinary {
    /// Narrows the range in place, see [`narrowed`]. After a refusal the
    /// range may be narrowed in part and is of no further use.
    pub fn scope_aggregation(&mut self) -> (r: Result<(), TypeError>)
        ensures
            match narrowed(old(self)@) {
                Ok(range) => r is Ok && final(self)@ == range,
                Err(e) => r == Err::<(), TypeError>(e),
            },
            r is Ok && old(self)@ is And ==> (final(self)@ matches Range::And(parts) && and_normal_form(parts)),
        decreases *old(self),
    {
        let ghost whole = *old(self);
        proof {
            lemma_view_parts(whole);
        }
        let done = match self {
            ConstantBinary::And(binaries) => Self::_scope_aggregation(binaries),
            ConstantBinary::Or(binaries) => {
                let ghost start = *binaries;
                let ghost before = views(binaries@);
                let mut i: usize = 0;
                let mut failed: Option<TypeError> = None;
                assert(before.take(0) =~= Seq::<Range>::empty());
                while i < binaries.len() && failed.is_none()
                    invariant
                        i <= binaries.len(),
                        whole == ConstantBinary::Or(start),
                        whole == *old(self),
                        before == views(start@),
                        binaries@.len() == start@.len(),
                        failed is None ==> narrowed_each(before.take(i as int)) == Ok::<Seq<Range>, TypeError>(
                            views(binaries@).take(i as int),
                        ),
                        failed is None ==> forall|k: int|
                            i <= k < start@.len() ==> start@[k] == #[trigger] binaries@[k],
                        failed matches Some(e) ==> narrowed_each(before) == Err::<Seq<Range>, TypeError>(e),
                    decreases binaries.len() - i, (if failed is None { 1int } else { 0int }),
                {
                    proof {
                        assert(decreases_to!(whole => whole->Or_0));
                        assert(decreases_to!(start => start[i as int]));
                        assert(binaries@[i as int] == start[i as int]);
                        let next = before.take(i + 1);
                        assert(next.drop_last() =~= before.take(i as int));
                        assert(next.last() == start@[i as int]@);
                    }
                    let ghost head = views(binaries@).take(i as int);
                    let done = binaries[i].scope_aggregation();
                    if let Err(e) = done {
                        failed = Some(e);
                        proof {
                            lemma_narrowed_each_fails(before, i as int);
                        }
                    } else {
                        assert(views(binaries@).take(i + 1) =~= head.push(binaries@[i as int]@));
                        i += 1;
                    }
                }
                match failed {
                    Some(e) => Err(e),
                    None => {
                        proof {
                            assert(before.take(i as int) =~= before);
                            assert(views(binaries@).take(i as int) =~= views(binaries@));
                        }
                        Ok(())
                    },
                }
            },
            _ => Ok(()),
        };
        proof {
            lemma_view_parts(*self);
        }
        done
    }
}

/// The rank by which the parts of an `Or` are sorted: that of their lower
/// bounds.
pub open spec fn by_lower() -> spec_fn(Range, Range) -> Order {
    |left: Range, right: Range| bound_rank(left.lower(), right.lower(), true)
}

/// The parts of an `Or` laid out flat: the parts of an `And` among them take
/// its place, a scope without bounds is left out. An `Or` among them is
/// refused, and so is an `And` whose parts are not leaves.
pub open spec fn flattened(xs: Seq<Range>) -> Result<Seq<Range>, TypeError>
    decreases xs.len(),
{
    if xs.len() == 0 {
        Ok(Seq::empty())
    } else {
        match flattened(xs.drop_last()) {
            Err(e) => Err(e),
            Ok(flat) => match xs.last() {
                Range::Or(_) => Err(TypeError::InvalidType),
                Range::And(parts) => if all_leaves(parts) {
                    Ok(flat + parts)
                } else {
                    Err(TypeError::InvalidType)
                },
                Range::Scope { min: Bound::Unbounded, max: Bound::Unbounded } => Ok(flat),
                leaf => Ok(flat.push(leaf)),
            },
        }
    }
}

/// Index of the last scope in `merged`.
pub open spec fn last_scope(merged: Seq<Range>) -> Option<int>
    decreases merged.len(),
{
    if merged.len() == 0 {
        None
    } else if merged.last() is Scope {
        Some(merged.len() - 1)
    } else {
        last_scope(merged.drop_last())
    }
}

/// What `merged` becomes when the next leaf `c` is merged into it.
///
/// Where `merged` holds no scope, `c` is appended. Else `c` is held against
/// the upper bound of the last scope in `merged`. Where `c` ends behind that
/// bound but does not start behind it, the scope is stretched to the end of
/// `c`; a leaf without a lower bound never starts behind a bound. Where `c`
/// both starts and ends behind that bound, `c` is appended. Else `c` lies
/// within the scope and is dropped.
pub open spec fn absorb(merged: Seq<Range>, c: Range) -> Seq<Range> {
    match last_scope(merged) {
        None => merged.push(c),
        Some(k) => {
            let max = merged[k]->max;
            if !c.starts_behind(max) && c.ends_behind(max) {
                merged.update(k, Range::Scope { min: merged[k]->min, max: c.upper() })
            } else if c.starts_behind(max) && c.ends_behind(max) {
                merged.push(c)
            } else {
                merged
            }
        },
    }
}

/// The leaves of `xs` merged from left to right, see [`absorb`].
pub open spec fn merged(xs: Seq<Range>) -> Seq<Range>
    decreases xs.len(),
{
    if xs.len() == 0 {
        Seq::empty()
    } else {
        absorb(merged(xs.drop_last()), xs.last())
    }
}

/// The list of ranges that stands for a range.
///
/// The parts of an `Or` are laid out flat, sorted by their lower bounds and
/// merged. An `And` gives its parts, a leaf gives itself.
pub open spec fn rearranged(range: Range) -> Result<Seq<Range>, TypeError> {
    match range {
        Range::Or(xs) => match flattened(xs) {
            Ok(flat) => Ok(merged(sorted(flat, by_lower()))),
            Err(e) => Err(e),
        },
        Range::And(xs) => Ok(xs),
        _ => Ok(seq![range]),
    }
}

fn lower_of(c: &ConstantBinary) -> (r: Bound<ValueRef>)
    ensures
        r == c@.lower(),
{
    match c {
        ConstantBinary::Scope { min, .. } => copy_bound(min),
        ConstantBinary::Eq(v) => Bound::Included(share(v)),
        ConstantBinary::NotEq(v) => Bound::Excluded(share(v)),
        _ => Bound::Unbounded,
    }
}

fn upper_of(c: &ConstantBinary) -> (r: Bound<ValueRef>)
    ensures
        r == c@.upper(),
{
    match c {
        ConstantBinary::Scope { max, .. } => copy_bound(max),
        ConstantBinary::Eq(v) => Bound::Included(share(v)),
        ConstantBinary::NotEq(v) => Bound::Excluded(share(v)),
        _ => Bound::Unbounded,
    }
}

fn rank_bounds(left: &Bound<ValueRef>, right: &Bound<ValueRef>, is_min: bool) -> (r: Order)
    ensures
        r == bound_rank(*left, *right, is_min),
{
    match ConstantBinary::bound_compared(left, right, is_min) {
        Some(order) => order,
        None => Order::Equal,
    }
}

fn rank_lower(left: &ConstantBinary, right: &ConstantBinary) -> (r: Order)
    ensures
        r == by_lower()(left@, right@),
{
    let a = lower_of(left);
    let b = lower_of(right);
    rank_bounds(&a, &b, true)
}

fn copy_leaf(c: &ConstantBinary) -> (r: ConstantBinary)
    requires
        c@.is_leaf(),
    ensures
        r@ == c@,
{
    match c {
        ConstantBinary::Scope { min, max } => ConstantBinary::Scope { min: copy_bound(min), max: copy_bound(max) },
        ConstantBinary::Eq(v) => ConstantBinary::Eq(share(v)),
        ConstantBinary::NotEq(v) => ConstantBinary::NotEq(share(v)),
        _ => ConstantBinary::And(Vec::new()),
    }
}

fn sort_by_lower(leaves: &Vec<ConstantBinary>) -> (r: Vec<ConstantBinary>)
    requires
        all_leaves(views(leaves@)),
    ensures
        views(r@) == sorted(views(leaves@), by_lower()),
{
    let ghost xs = views(leaves@);
    let mut out: Vec<ConstantBinary> = Vec::new();
    let mut i: usize = 0;
    assert(views(out@) =~= sorted(xs.take(0), by_lower()));
    while i < leaves.len()
        invariant
            i <= leaves.len(),
            xs == views(leaves@),
            all_leaves(xs),
            out@.len() == i,
            views(out@) == sorted(xs.take(i as int), by_lower()),
        decreases leaves.len() - i,
    {
        assert(xs[i as int].is_leaf());
        let x = copy_leaf(&leaves[i]);
        let mut j: usize = out.len();
        while j > 0 && matches!(rank_lower(&out[j - 1], &x), Order::Greater)
            invariant
                j <= out.len(),
                forall|k: int| j <= k < out@.len() ==> by_lower()(#[trigger] views(out@)[k], x@) is Greater,
            decreases j,
        {
            j -= 1;
        }
        proof {
            let s = views(out@);
            lemma_slot_skips_greater(s, j as int, x@, by_lower());
            let head = s.take(j as int);
            if j > 0 {
                assert(head.last() == s[j - 1]);
            }
            assert(slot(head, x@, by_lower()) == j);
            let next = xs.take(i + 1);
            assert(next.drop_last() =~= xs.take(i as int));
            assert(next.last() == x@);
            assert(views(out@.insert(j as int, x)) =~= s.insert(j as int, x@));
        }
        out.insert(j, x);
        i += 1;
    }
    assert(xs.take(leaves.len() as int) =~= xs);
    out
}

/// Where the range at index `i` is refused and none before it, the whole
/// sequence is refused.
pub proof fn lemma_flattened_fails(xs: Seq<Range>, i: int)
    requires
        0 <= i < xs.len(),
        xs[i] is Or || (xs[i] matches Range::And(parts) && !all_leaves(parts)),
    ensures
        flattened(xs) == Err::<Seq<Range>, TypeError>(TypeError::InvalidType),
    decreases xs.len(),
{
    if i < xs.len() - 1 {
        lemma_flattened_fails(xs.drop_last(), i);
    } else {
        lemma_flattened_error(xs.drop_last());
    }
}

/// Flattening refuses for one reason only.
pub proof fn lemma_flattened_error(xs: Seq<Range>)
    ensures
        flattened(xs) matches Err(e) ==> e == TypeError::InvalidType,
    decreases xs.len(),
{
    if xs.len() > 0 {
        lemma_flattened_error(xs.drop_last());
    }
}

/// Ranges behind index `k` that are no scopes do not change which scope is
/// the last.
pub proof fn lemma_last_scope_skips(merged: Seq<Range>, k: int)
    requires
        0 <= k <= merged.len(),
        forall|j: int| k <= j < merged.len() ==> !(#[trigger] merged[j] is Scope),
    ensures
        last_scope(merged) == last_scope(merged.take(k)),
    decreases merged.len() - k,
{
    if k == merged.len() {
        assert(merged.take(k) =~= merged);
    } else {
        assert(!(merged[merged.len() - 1] is Scope));
        lemma_last_scope_skips(merged.drop_last(), k);
        assert(merged.drop_last().take(k) =~= merged.take(k));
    }
}

fn flatten(binaries: &Vec<ConstantBinary>) -> (r: Result<Vec<ConstantBinary>, TypeError>)
    ensures
        match flattened(views(binaries@)) {
            Ok(flat) => r is Ok && views(r->Ok_0@) == flat,
            Err(e) => r is Err && r->Err_0 == e,
        },
        r is Ok ==> all_leaves(views(r->Ok_0@)),
{
    let ghost xs = views(binaries@);
    let mut flat: Vec<ConstantBinary> = Vec::new();
    let mut i: usize = 0;
    assert(xs.take(0) =~= Seq::<Range>::empty());
    assert(views(flat@) =~= Seq::<Range>::empty());
    while i < binaries.len()
        invariant
            i <= binaries.len(),
            xs == views(binaries@),
            flattened(xs.take(i as int)) == Ok::<Seq<Range>, TypeError>(views(flat@)),
            all_leaves(views(flat@)),
        decreases binaries.len() - i,
    {
        proof {
            let next = xs.take(i + 1);
            assert(next.drop_last() =~= xs.take(i as int));
            assert(next.last() == binaries@[i as int]@);
            lemma_view_parts(binaries@[i as int]);
        }
        let ghost head = views(flat@);
        match &binaries[i] {
            ConstantBinary::Or(_) => {
                proof {
                    lemma_flattened_fails(xs, i as int);
                }
                return Err(TypeError::InvalidType);
            },
            ConstantBinary::And(parts) => {
                let mut j: usize = 0;
                assert(views(parts@).take(0) =~= Seq::<Range>::empty());
                while j < parts.len()
                    invariant
                        j <= parts.len(),
                        xs == views(binaries@),
                        i < binaries.len(),
                        xs[i as int] == Range::And(views(parts@)),
                        views(flat@) =~= head + views(parts@).take(j as int),
                        forall|k: int| 0 <= k < j ==> (#[trigger] views(parts@)[k]).is_leaf(),
                        all_leaves(views(flat@)),
                    decreases parts.len() - j,
                {
                    if !parts[j].is_leaf() {
                        proof {
                            assert(!views(parts@)[j as int].is_leaf());
                            lemma_flattened_fails(xs, i as int);
                        }
                        return Err(TypeError::InvalidType);
                    }
                    let ghost so_far = views(flat@);
                    flat.push(copy_leaf(&parts[j]));
                    proof {
                        assert(views(flat@) =~= so_far.push(parts@[j as int]@));
                        assert(views(parts@).take(j + 1) =~= views(parts@).take(j as int).push(parts@[j as int]@));
                    }
                    j += 1;
                }
                assert(views(parts@).take(parts.len() as int) =~= views(parts@));
            },
            ConstantBinary::Scope { min: Bound::Unbounded, max: Bound::Unbounded } => {},
            leaf => {
                flat.push(copy_leaf(leaf));
                assert(views(flat@) =~= head.push(leaf@));
            },
        }
        i += 1;
    }
    assert(xs.take(binaries.len() as int) =~= xs);
    Ok(flat)
}

fn absorb_into(merged: &mut Vec<ConstantBinary>, c: ConstantBinary)
    ensures
        views(final(merged)@) == absorb(views(old(merged)@), c@),
{
    let ghost before = views(merged@);
    let mut k: usize = merged.len();
    while k > 0 && !matches!(&merged[k - 1], ConstantBinary::Scope { .. })
        invariant
            k <= merged.len(),
            before == views(merged@),
            forall|j: int| k <= j < before.len() ==> !(#[trigger] before[j] is Scope),
        decreases k,
    {
        k -= 1;
    }
    proof {
        lemma_last_scope_skips(before, k as int);
        if k > 0 {
            assert(before.take(k as int).last() == before[k - 1]);
        }
    }
    if k == 0 {
        merged.push(c);
        assert(views(merged@) =~= before.push(c@));
        return ;
    }
    let at = k - 1;
    let c_start = lower_of(&c);
    let c_end = upper_of(&c);
    let stretched = match &merged[at] {
        ConstantBinary::Scope { min, max } => {
            let starts_behind = !matches!(&c_start, Bound::Unbounded) && matches!(
                rank_bounds(max, &c_start, false),
                Order::Less
            );
            let ends_behind = matches!(rank_bounds(max, &c_end, false), Order::Less);
            if !starts_behind && ends_behind {
                Some(ConstantBinary::Scope { min: copy_bound(min), max: c_end })
            } else {
                if starts_behind && ends_behind {
                    merged.push(c);
                    assert(views(merged@) =~= before.push(c@));
                }
                None
            }
        },
        _ => None,
    };
    if let Some(scope) = stretched {
        merged.set(at, scope);
        assert(views(merged@) =~= before.update(at as int, scope@));
    }
}

fn merge(leaves: &Vec<ConstantBinary>) -> (r: Vec<ConstantBinary>)
    requires
        all_leaves(views(leaves@)),
    ensures
        views(r@) == merged(views(leaves@)),
{
    let ghost xs = views(leaves@);
    let mut out: Vec<ConstantBinary> = Vec::new();
    let mut i: usize = 0;
    assert(views(out@) =~= merged(xs.take(0)));
    while i < leaves.len()
        invariant
            i <= leaves.len(),
            xs == views(leaves@),
            all_leaves(xs),
            views(out@) == merged(xs.take(i as int)),
        decreases leaves.len() - i,
    {
        proof {
            let next = xs.take(i + 1);
            assert(next.drop_last() =~= xs.take(i as int));
            assert(next.last() == leaves@[i as int]@);
            assert(xs[i as int].is_leaf());
        }
        absorb_into(&mut out, copy_leaf(&leaves[i]));
        i += 1;
    }
    assert(xs.take(leaves.len() as int) =~= xs);
    out
}

impl ConstantBinary {
    /// The list of ranges that stands for this one, see [`rearranged`].
    pub fn rearrange(self) -> (r: Result<Vec<ConstantBinary>, TypeError>)
        ensures
            match rearranged(self@) {
                Ok(list) => r is Ok && views(r->Ok_0@) == list,
                Err(e) => r is Err && r->Err_0 == e,
            },
    {
        proof {
            lemma_view_parts(self);
        }
        match self {
            ConstantBinary::Or(binaries) => {
                let flat = match flatten(&binaries) {
                    Ok(flat) => flat,
                    Err(e) => {
                        return Err(e);
                    },
                };
                let sorted = sort_by_lower(&flat);
                proof {
                    lemma_sorted_leaves(views(flat@), by_lower());
                }
                Ok(merge(&sorted))
            },
            ConstantBinary::And(binaries) => Ok(binaries),
            source => {
                let mut list: Vec<ConstantBinary> = Vec::new();
                let ghost form = source@;
                list.push(source);
                assert(views(list@) =~= seq![form]);
                Ok(list)
            },
        }
    }
}

/// Sorting leaves gives leaves.
pub proof fn lemma_sorted_leaves(xs: Seq<Range>, rank: spec_fn(Range, Range) -> Order)
    requires
        all_leaves(xs),
    ensures
        all_leaves(sorted(xs, rank)),
    decreases xs.len(),
{
    if xs.len() > 0 {
        let rest = xs.drop_last();
        assert forall|i: int| 0 <= i < rest.len() implies (#[trigger] rest[i]).is_leaf() by {
            assert(xs[i].is_leaf());
        }
        lemma_sorted_leaves(rest, rank);
        let s = sorted(rest, rank);
        lemma_slot_in_range(s, xs.last(), rank);
        assert(xs[xs.len() - 1].is_leaf());
    }
}

} // verus!
