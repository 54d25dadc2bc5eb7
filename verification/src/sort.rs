//! Quicksort on slices: a pivot is drawn at random, the slice is partitioned
//! around it, and the parts before and after the settled pivot are sorted in
//! the same way, one after the other or both at once.

use crate::order::{
    ascending, lemma_sorted_from_ascending, less, reordered, sorted_from, strict_order,
    total_order,
};
use crate::partition::{move_pivot, split_around};
use crate::random_generator::{
    drawn_between, lemma_drawn_between_joins, state_after_draws, RandGen, RandGenState,
    DEFAULT_SEED,
};
use vstd::prelude::*;
use vstd::seq_lib::{lemma_multiset_commutative, to_multiset_contains};

verus! {

/// Every element of a reordered sequence is an element of the sequence it
/// was reordered from.
proof fn lemma_reordered_contains<E>(s: Seq<E>, r: Seq<E>, i: int)
    requires
        reordered(s, r),
        0 <= i < r.len(),
    ensures
        s.contains(r[i]),
{
    assert(r.contains(r[i]));
    to_multiset_contains(r, r[i]);
    to_multiset_contains(s, r[i]);
}

/// A sequence that is split around the element at `settled` is sorted once
/// the part before it and the part after it are.
pub proof fn lemma_sorted_parts_join<E: PartialOrd>(
    parted: Seq<E>,
    settled: int,
    left: Seq<E>,
    right: Seq<E>,
)
    requires
        0 <= settled < parted.len(),
        strict_order::<E>() ==> split_around(parted, 0, parted.len() as int, settled),
        sorted_from(parted.subrange(0, settled), left),
        sorted_from(parted.subrange(settled + 1, parted.len() as int), right),
    ensures
        sorted_from(parted, left + seq![parted[settled]] + right),
{
    let len = parted.len() as int;
    let head = parted.subrange(0, settled);
    let tail = parted.subrange(settled + 1, len);
    let middle = seq![parted[settled]];
    let joined = left + middle + right;
    assert(parted =~= head + middle + tail);
    lemma_multiset_commutative(head + middle, tail);
    lemma_multiset_commutative(head, middle);
    lemma_multiset_commutative(left + middle, right);
    lemma_multiset_commutative(left, middle);
    assert(reordered(parted, joined));
    left.to_multiset_ensures();
    head.to_multiset_ensures();
    right.to_multiset_ensures();
    tail.to_multiset_ensures();
    assert(left.len() == settled);
    assert(right.len() == tail.len());
    if strict_order::<E>() {
        let pivot = parted[settled];
        assert forall|i: int, j: int| 0 <= i < j < joined.len() implies !less(
            #[trigger] joined[j],
            #[trigger] joined[i],
        ) by {
            if i < settled {
                lemma_reordered_contains(head, left, i);
                let k = choose|k: int| 0 <= k < head.len() && head[k] == left[i];
                assert(head[k] == parted[k]);
                assert(less(joined[i], pivot));
            }
            if j > settled {
                lemma_reordered_contains(tail, right, j - settled - 1);
                let k = choose|k: int| 0 <= k < tail.len() && tail[k] == right[j - settled - 1];
                assert(tail[k] == parted[settled + 1 + k]);
                assert(!less(joined[j], pivot));
            }
            if j < settled {
                assert(joined[i] == left[i] && joined[j] == left[j]);
            } else if i > settled {
                assert(joined[i] == right[i - settled - 1] && joined[j] == right[j - settled - 1]);
            } else if less(joined[j], joined[i]) {
                if i < settled && j > settled {
                    assert(less(joined[j], joined[i]) && less(joined[i], pivot));
                } else if i < settled {
                    assert(joined[j] == pivot);
                    assert(less(joined[i], pivot) && less(pivot, joined[i]));
                    assert(less(pivot, pivot));
                } else {
                    assert(joined[i] == pivot);
                }
            }
        }
    }
}

/// What sorting `length` elements does to the generator it draws from: nothing
/// if there is at most one element, else between one draw and `length - 1`.
pub open spec fn drawn_for_sort(before: RandGenState, after: RandGenState, length: int) -> bool {
    if length <= 1 {
        after == before
    } else {
        drawn_between(before, after, 1, length - 1)
    }
}

/// A sort draws no more often than `most`, if `most` is at least zero and at
/// least one less than the number of elements.
proof fn lemma_drawn_at_most(before: RandGenState, after: RandGenState, length: int, most: int)
    requires
        drawn_for_sort(before, after, length),
        0 <= most,
        length - 1 <= most,
    ensures
        drawn_between(before, after, 0, most),
{
    if length <= 1 {
        assert(after == state_after_draws(before, 0));
    }
}

/// Sorts `vector` in ascending order, with the pivots drawn from `generator`:
/// one for every partition made, none for a slice of at most one element.
pub fn quick_sort_with<E: PartialOrd>(vector: &mut [E], generator: &mut RandGen)
    ensures
        sorted_from(old(vector)@, final(vector)@),
        final(vector)@.len() == old(vector)@.len(),
        old(vector)@.len() <= 1 ==> final(vector)@ == old(vector)@,
        drawn_for_sort(old(generator)@, final(generator)@, old(vector)@.len() as int),
        total_order::<E>() && ascending(old(vector)@) ==> final(vector)@ == old(vector)@,
    decreases old(vector)@.len(),
{
    let input_length: usize = vector.len();
    if input_length <= 1 {
        return ;
    }
    let ghost before = vector@;
    let ghost first_state = generator@;
    let initial_pivot: usize = generator.lehmer(input_length);
    let ghost drawn_state = generator@;
    let pivot: usize = move_pivot(vector, initial_pivot, 0, input_length);
    let ghost parted = vector@;
    let (a, b) = vector.split_at_mut(pivot);
    quick_sort_with(a, generator);
    let ghost left = a@;
    let ghost left_state = generator@;
    let (settled, c) = b.split_at_mut(1);
    quick_sort_with(c, generator);
    let ghost right = c@;
    proof {
        assert(vector@ =~= left + seq![parted[pivot as int]] + right);
        assert(parted.subrange(pivot as int, input_length as int).subrange(
            1,
            input_length - pivot,
        ) =~= parted.subrange(pivot + 1, input_length as int));
        lemma_sorted_parts_join(parted, pivot as int, left, right);
        if total_order::<E>() && ascending(before) {
            lemma_sorted_from_ascending(before, vector@);
        }
        let left_most: int = if pivot <= 1 { 0 } else { pivot - 1 };
        let right_most: int = if input_length - pivot <= 2 { 0 } else { input_length - pivot - 2 };
        assert(drawn_state == state_after_draws(first_state, 1)) by {
            reveal_with_fuel(state_after_draws, 2);
        }
        lemma_drawn_at_most(drawn_state, left_state, pivot as int, left_most);
        lemma_drawn_at_most(left_state, generator@, input_length - pivot - 1, right_most);
        lemma_drawn_between_joins(first_state, drawn_state, left_state, (1, 0), (1, left_most));
        lemma_drawn_between_joins(
            first_state,
            left_state,
            generator@,
            (1, 0),
            (1 + left_most, right_most),
        );
    }
}

/// Sorts `vector` in ascending order. The pivots are drawn from a generator
/// of its own, seeded with [`DEFAULT_SEED`].
pub fn quick_sort<E: PartialOrd>(vector: &mut [E])
    ensures
        sorted_from(old(vector)@, final(vector)@),
        final(vector)@.len() == old(vector)@.len(),
        old(vector)@.len() <= 1 ==> final(vector)@ == old(vector)@,
        total_order::<E>() && ascending(old(vector)@) ==> final(vector)@ == old(vector)@,
{
    let mut generator = RandGen::new(DEFAULT_SEED);
    quick_sort_with(vector, &mut generator);
}

/// `rayon::join`, handed one call of [`fork_join_sort`] for each of two
/// slices. `join` runs both closures to completion, on the calling worker or
/// on another one that steals the second, and returns when both have
/// finished; so what `fork_join_sort` ensures of a slice holds of `left` and
/// of `right` when this returns. Each closure gets a copy of `generator`.
#[verifier::external_body]
fn sort_both<E: Send + PartialOrd>(left: &mut [E], right: &mut [E], generator: RandGen)
    ensures
        sorted_from(old(left)@, final(left)@),
        sorted_from(old(right)@, final(right)@),
{
    rayon::join(|| fork_join_sort(left, generator), || fork_join_sort(right, generator));
}

/// Sorts `vector` in ascending order: draws a pivot from `generator`,
/// partitions around it, and has both parts sorted at once, each with the
/// generator as the draw left it.
fn fork_join_sort<E: Send + PartialOrd>(vector: &mut [E], generator: RandGen)
    ensures
        sorted_from(old(vector)@, final(vector)@),
        old(vector)@.len() <= 1 ==> final(vector)@ == old(vector)@,
{
    let input_length: usize = vector.len();
    if input_length <= 1 {
        return ;
    }
    let mut generator = generator;
    let initial_pivot: usize = generator.lehmer(input_length);
    let pivot: usize = move_pivot(vector, initial_pivot, 0, input_length);
    let ghost parted = vector@;
    let (a, b) = vector.split_at_mut(pivot);
    let (settled, c) = b.split_at_mut(1);
    sort_both(a, c, generator);
    proof {
        assert(vector@ =~= a@ + seq![parted[pivot as int]] + c@);
        assert(parted.subrange(pivot as int, input_length as int).subrange(
            1,
            input_length - pivot,
        ) =~= parted.subrange(pivot + 1, input_length as int));
        lemma_sorted_parts_join(parted, pivot as int, a@, c@);
    }
}

/// Sorts `vector` in ascending order, the two parts of every partition at
/// once on rayon's pool of workers. The pivots are drawn from generators
/// seeded with [`DEFAULT_SEED`].
pub fn quick_sort_rayon<E: Send + PartialOrd>(vector: &mut [E])
    ensures
        sorted_from(old(vector)@, final(vector)@),
        final(vector)@.len() == old(vector)@.len(),
        old(vector)@.len() <= 1 ==> final(vector)@ == old(vector)@,
        total_order::<E>() && ascending(old(vector)@) ==> final(vector)@ == old(vector)@,
{
    let ghost before = vector@;
    fork_join_sort(vector, RandGen::new(DEFAULT_SEED));
    proof {
        before.to_multiset_ensures();
        vector@.to_multiset_ensures();
        if total_order::<E>() && ascending(before) {
            lemma_sorted_from_ascending(before, vector@);
        }
    }
}

} // verus!
