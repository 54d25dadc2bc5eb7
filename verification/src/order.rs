//! The order that partitioning and sorting go by: the `<` of the element type,
//! seen as a relation on values, and what it means for a sequence to be
//! ascending under it.

use std::cmp::Ordering;
use vstd::prelude::*;
use vstd::relations::{sorted_by, total_ordering};
use vstd::seq_lib::lemma_sorted_unique;
use vstd::std_specs::cmp::PartialOrdSpec;

verus! {

/// `a < b`, as the element type defines it.
pub open spec fn less<E: PartialOrd>(a: E, b: E) -> bool {
    a.partial_cmp_spec(&b) == Some(Ordering::Less)
}

/// The executable `<` of `E` computes [`less`]: comparing the same two values
/// always gives the same answer.
pub open spec fn comparison_is_fixed<E: PartialOrd>() -> bool {
    E::obeys_partial_cmp_spec()
}

/// `<` on `E` is a strict partial order that the executable `<` computes.
pub open spec fn strict_order<E: PartialOrd>() -> bool {
    &&& comparison_is_fixed::<E>()
    &&& forall|a: E| !#[trigger] less(a, a)
    &&& forall|a: E, b: E, c: E| #[trigger] less(a, b) && #[trigger] less(b, c) ==> less(a, c)
}

/// `<` on `E` is a strict total order: of two different values one is less
/// than the other.
pub open spec fn total_order<E: PartialOrd>() -> bool {
    &&& strict_order::<E>()
    &&& forall|a: E, b: E| #[trigger] less(a, b) || a == b || less(b, a)
}

/// No element of `s` is less than one that stands before it.
pub open spec fn ascending<E: PartialOrd>(s: Seq<E>) -> bool {
    forall|i: int, j: int| 0 <= i < j < s.len() ==> !less(#[trigger] s[j], #[trigger] s[i])
}

/// `r` is `s` reordered: both hold the same elements, each as often.
pub open spec fn reordered<E>(s: Seq<E>, r: Seq<E>) -> bool {
    s.to_multiset() == r.to_multiset()
}

/// `r` is what sorting `s` may leave: `s` reordered, and ascending wherever
/// `<` is a strict order.
pub open spec fn sorted_from<E: PartialOrd>(s: Seq<E>, r: Seq<E>) -> bool {
    &&& reordered(s, r)
    &&& strict_order::<E>() ==> ascending(r)
}

/// Under a total order a collection of elements has one ascending arrangement
/// only: two ascending sequences that hold the same elements are equal.
pub proof fn lemma_ascending_is_unique<E: PartialOrd>(x: Seq<E>, y: Seq<E>)
    requires
        total_order::<E>(),
        ascending(x),
        ascending(y),
        reordered(x, y),
    ensures
        x == y,
{
    let not_greater = |a: E, b: E| !less(b, a);
    assert(total_ordering(not_greater)) by {
        assert forall|a: E, b: E| #[trigger] not_greater(a, b) && #[trigger] not_greater(b, a) implies a == b by {
            assert(less(a, b) || a == b || less(b, a));
        }
        assert forall|a: E, b: E, c: E| #[trigger] not_greater(a, b) && #[trigger] not_greater(b, c) implies not_greater(a, c) by {
            assert(less(a, b) || a == b || less(b, a));
            assert(less(b, c) || b == c || less(c, b));
            if less(c, a) {
                if a == b {
                } else if b == c {
                } else {
                    assert(less(a, b) && less(b, c));
                    assert(less(a, c));
                    assert(less(a, a));
                }
            }
        }
        assert forall|a: E, b: E| #[trigger] not_greater(a, b) || #[trigger] not_greater(b, a) by {
            if less(b, a) && less(a, b) {
                assert(less(a, a));
            }
        }
    }
    assert(sorted_by(x, not_greater));
    assert(sorted_by(y, not_greater));
    lemma_sorted_unique(x, y, not_greater);
}

/// Sorting is determined by its input under a total order: whatever two sorts
/// leave of the same sequence is the same sequence.
pub proof fn lemma_sorted_from_is_unique<E: PartialOrd>(s: Seq<E>, x: Seq<E>, y: Seq<E>)
    requires
        total_order::<E>(),
        sorted_from(s, x),
        sorted_from(s, y),
    ensures
        x == y,
{
    lemma_ascending_is_unique(x, y);
}

/// Sorting leaves an ascending sequence as it is, under a total order.
pub proof fn lemma_sorted_from_ascending<E: PartialOrd>(s: Seq<E>, r: Seq<E>)
    requires
        total_order::<E>(),
        ascending(s),
        sorted_from(s, r),
    ensures
        r == s,
{
    lemma_ascending_is_unique(s, r);
}

} // verus!
