//! Stable sorting by insertion, as a mathematical function.
use crate::types::value::Order;
use vstd::prelude::*;

verus! {

/// Where `x` goes into the sorted sequence `s`: behind the last element that
/// is not greater than `x`.
pub open spec fn slot<T>(s: Seq<T>, x: T, rank: spec_fn(T, T) -> Order) -> int
    decreases s.len(),
{
    if s.len() == 0 {
        0
    } else if rank(s.last(), x) is Greater {
        slot(s.drop_last(), x, rank)
    } else {
        s.len() as int
    }
}

/// The elements of `xs` sorted by `rank`: each in turn is put into the sorted
/// sequence of those before it. Elements that `rank` takes as equal keep the
/// order they had.
pub open spec fn sorted<T>(xs: Seq<T>, rank: spec_fn(T, T) -> Order) -> Seq<T>
    decreases xs.len(),
{
    if xs.len() == 0 {
        Seq::empty()
    } else {
        let s = sorted(xs.drop_last(), rank);
        s.insert(slot(s, xs.last(), rank), xs.last())
    }
}

/// The slot lies inside the sequence or at its end.
pub proof fn lemma_slot_in_range<T>(s: Seq<T>, x: T, rank: spec_fn(T, T) -> Order)
    ensures
        0 <= slot(s, x, rank) <= s.len(),
    decreases s.len(),
{
    if s.len() > 0 && rank(s.last(), x) is Greater {
        lemma_slot_in_range(s.drop_last(), x, rank);
    }
}

/// Sorting keeps the number of elements.
pub proof fn lemma_sorted_len<T>(xs: Seq<T>, rank: spec_fn(T, T) -> Order)
    ensures
        sorted(xs, rank).len() == xs.len(),
    decreases xs.len(),
{
    if xs.len() > 0 {
        lemma_sorted_len(xs.drop_last(), rank);
        lemma_slot_in_range(sorted(xs.drop_last(), rank), xs.last(), rank);
    }
}

/// Elements behind index `j` that are all greater than `x` do not move its
/// slot.
pub proof fn lemma_slot_skips_greater<T>(s: Seq<T>, j: int, x: T, rank: spec_fn(T, T) -> Order)
    requires
        0 <= j <= s.len(),
        forall|k: int| j <= k < s.len() ==> rank(#[trigger] s[k], x) is Greater,
    ensures
        slot(s, x, rank) == slot(s.take(j), x, rank),
    decreases s.len() - j,
{
    if j == s.len() {
        assert(s.take(j) =~= s);
    } else {
        assert(rank(s[s.len() - 1], x) is Greater);
        let t = s.drop_last();
        lemma_slot_skips_greater(t, j, x, rank);
        assert(t.take(j) =~= s.take(j));
    }
}

/// The element before the slot is not greater than `x`, and every element
/// from the slot on is.
pub proof fn lemma_slot_neighbours<T>(s: Seq<T>, x: T, rank: spec_fn(T, T) -> Order)
    ensures
        slot(s, x, rank) > 0 ==> !(rank(s[slot(s, x, rank) - 1], x) is Greater),
        forall|k: int| slot(s, x, rank) <= k < s.len() ==> rank(#[trigger] s[k], x) is Greater,
    decreases s.len(),
{
    lemma_slot_in_range(s, x, rank);
    if s.len() > 0 && rank(s.last(), x) is Greater {
        let rest = s.drop_last();
        lemma_slot_neighbours(rest, x, rank);
        lemma_slot_in_range(rest, x, rank);
        let p = slot(s, x, rank);
        if p > 0 {
            assert(rest[p - 1] == s[p - 1]);
        }
        assert forall|k: int| p <= k < s.len() implies rank(#[trigger] s[k], x) is Greater by {
            if k < rest.len() {
                assert(rest[k] == s[k]);
            }
        }
    }
}

/// Sorting neither adds nor loses an element.
pub proof fn lemma_sorted_members<T>(xs: Seq<T>, rank: spec_fn(T, T) -> Order)
    ensures
        forall|x: T| sorted(xs, rank).contains(x) <==> xs.contains(x),
    decreases xs.len(),
{
    if xs.len() > 0 {
        let rest = xs.drop_last();
        let last = xs.last();
        let s = sorted(rest, rank);
        let p = slot(s, last, rank);
        let t = s.insert(p, last);
        lemma_sorted_members(rest, rank);
        lemma_slot_in_range(s, last, rank);
        assert forall|x: T| t.contains(x) <==> xs.contains(x) by {
            if t.contains(x) {
                let i = choose|i: int| 0 <= i < t.len() && t[i] == x;
                if i < p {
                    assert(s[i] == x);
                    assert(s.contains(x));
                } else if i > p {
                    assert(s[i - 1] == x);
                    assert(s.contains(x));
                }
                if s.contains(x) {
                    assert(rest.contains(x));
                    let j = choose|j: int| 0 <= j < rest.len() && rest[j] == x;
                    assert(xs[j] == x);
                } else {
                    assert(xs[xs.len() - 1] == x);
                }
            }
            if xs.contains(x) {
                let j = choose|j: int| 0 <= j < xs.len() && xs[j] == x;
                if j == xs.len() - 1 {
                    assert(t[p] == x);
                } else {
                    assert(rest[j] == x);
                    assert(rest.contains(x));
                    assert(s.contains(x));
                    let i = choose|i: int| 0 <= i < s.len() && s[i] == x;
                    if i < p {
                        assert(t[i] == x);
                    } else {
                        assert(t[i + 1] == x);
                    }
                }
            }
        }
    }
}

/// Where of two elements at most one is greater than the other, no element
/// of the sorted sequence is greater than the one behind it.
pub proof fn lemma_sorted_neighbours<T>(xs: Seq<T>, rank: spec_fn(T, T) -> Order)
    requires
        forall|a: T, b: T| #[trigger] rank(a, b) is Greater ==> !(rank(b, a) is Greater),
    ensures
        forall|i: int, j: int|
            0 <= i && j == i + 1 && j < sorted(xs, rank).len() ==> !(rank(
                #[trigger] sorted(xs, rank)[i],
                #[trigger] sorted(xs, rank)[j],
            ) is Greater),
    decreases xs.len(),
{
    if xs.len() > 0 {
        let rest = xs.drop_last();
        let last = xs.last();
        let s = sorted(rest, rank);
        let p = slot(s, last, rank);
        let t = s.insert(p, last);
        lemma_sorted_neighbours(rest, rank);
        lemma_slot_in_range(s, last, rank);
        lemma_slot_neighbours(s, last, rank);
        assert forall|i: int, j: int| 0 <= i && j == i + 1 && j < t.len() implies !(rank(
            #[trigger] t[i],
            #[trigger] t[j],
        ) is Greater) by {
            if j < p {
                assert(t[i] == s[i] && t[j] == s[j]);
            } else if j == p {
                assert(t[i] == s[p - 1] && t[j] == last);
            } else if i == p {
                assert(t[i] == last && t[j] == s[p]);
                assert(rank(s[p], last) is Greater);
            } else {
                assert(t[i] == s[i - 1] && t[j] == s[j - 1]);
            }
        }
    }
}

/// Where the elements of `xs` are ordered transitively and of two at most one
/// is greater than the other, no element of the sorted sequence is greater
/// than any behind it.
pub proof fn lemma_sorted_pairwise<T>(xs: Seq<T>, rank: spec_fn(T, T) -> Order)
    requires
        forall|a: T, b: T| xs.contains(a) && xs.contains(b) && #[trigger] rank(a, b) is Greater ==> !(rank(b, a)
            is Greater),
        forall|a: T, b: T, c: T|
            xs.contains(a) && xs.contains(b) && xs.contains(c) && !(#[trigger] rank(a, b) is Greater) && !(
            #[trigger] rank(b, c) is Greater) ==> !(rank(a, c) is Greater),
    ensures
        forall|i: int, j: int|
            0 <= i < j < sorted(xs, rank).len() ==> !(rank(
                #[trigger] sorted(xs, rank)[i],
                #[trigger] sorted(xs, rank)[j],
            ) is Greater),
    decreases xs.len(),
{
    if xs.len() > 0 {
        let rest = xs.drop_last();
        let last = xs.last();
        let s = sorted(rest, rank);
        let p = slot(s, last, rank);
        let t = s.insert(p, last);
        assert forall|x: T| rest.contains(x) implies xs.contains(x) by {
            let j = choose|j: int| 0 <= j < rest.len() && rest[j] == x;
            assert(xs[j] == x);
        }
        assert(xs[xs.len() - 1] == last);
        lemma_sorted_pairwise(rest, rank);
        lemma_sorted_members(rest, rank);
        lemma_slot_in_range(s, last, rank);
        lemma_slot_neighbours(s, last, rank);
        assert forall|i: int, j: int| 0 <= i < j < t.len() implies !(rank(#[trigger] t[i], #[trigger] t[j])
            is Greater) by {
            if j < p {
                assert(t[i] == s[i] && t[j] == s[j]);
            } else if j == p {
                assert(t[i] == s[i] && t[j] == last);
                assert(s.contains(s[i]));
                assert(s.contains(s[p - 1]));
                if i < p - 1 {
                    assert(!(rank(s[i], s[p - 1]) is Greater));
                }
                assert(!(rank(s[p - 1], last) is Greater));
            } else if i == p {
                assert(t[i] == last && t[j] == s[j - 1]);
                assert(s.contains(s[j - 1]));
                assert(rank(s[j - 1], last) is Greater);
            } else if i < p {
                assert(t[i] == s[i] && t[j] == s[j - 1]);
            } else {
                assert(t[i] == s[i - 1] && t[j] == s[j - 1]);
            }
        }
    }
}

/// Where the elements of `xs` differ from each other in a way that does not
/// depend on the side, so do the elements of the sorted sequence.
pub proof fn lemma_sorted_differ<T>(xs: Seq<T>, rank: spec_fn(T, T) -> Order, alike: spec_fn(T, T) -> bool)
    requires
        forall|a: T, b: T| #[trigger] alike(a, b) ==> alike(b, a),
        forall|i: int, j: int| 0 <= i < j < xs.len() ==> !alike(#[trigger] xs[i], #[trigger] xs[j]),
    ensures
        forall|i: int, j: int|
            0 <= i < j < sorted(xs, rank).len() ==> !alike(
                #[trigger] sorted(xs, rank)[i],
                #[trigger] sorted(xs, rank)[j],
            ),
    decreases xs.len(),
{
    if xs.len() > 0 {
        let rest = xs.drop_last();
        let last = xs.last();
        let s = sorted(rest, rank);
        let p = slot(s, last, rank);
        let t = s.insert(p, last);
        assert forall|i: int, j: int| 0 <= i < j < rest.len() implies !alike(#[trigger] rest[i], #[trigger] rest[j]) by {
            assert(rest[i] == xs[i] && rest[j] == xs[j]);
        }
        lemma_sorted_differ(rest, rank, alike);
        lemma_sorted_members(rest, rank);
        lemma_slot_in_range(s, last, rank);
        assert forall|k: int| 0 <= k < s.len() implies !alike(#[trigger] s[k], last) && !alike(last, s[k]) by {
            assert(s.contains(s[k]));
            assert(rest.contains(s[k]));
            let j = choose|j: int| 0 <= j < rest.len() && rest[j] == s[k];
            assert(!alike(xs[j], xs[xs.len() - 1]));
        }
        assert forall|i: int, j: int| 0 <= i < j < t.len() implies !alike(#[trigger] t[i], #[trigger] t[j]) by {
            if j < p {
                assert(t[i] == s[i] && t[j] == s[j]);
            } else if j == p {
                assert(t[i] == s[i] && t[j] == last);
            } else if i == p {
                assert(t[i] == last && t[j] == s[j - 1]);
            } else if i < p {
                assert(t[i] == s[i] && t[j] == s[j - 1]);
            } else {
                assert(t[i] == s[i - 1] && t[j] == s[j - 1]);
            }
        }
    }
}

} // verus!
