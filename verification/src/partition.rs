//! In-place partitioning of a range of a slice around one of its elements.

use crate::order::{comparison_is_fixed, less, reordered};
use vstd::prelude::*;
use vstd::seq_lib::{to_multiset_contains, to_multiset_update};

verus! {

/// `<[T]>::swap` of std: the elements at `a` and `b` change places and the
/// rest of the slice stays. It panics on an index out of bounds, which the
/// precondition excludes.
pub assume_specification<T>[ <[T]>::swap ](slice: &mut [T], a: usize, b: usize)
    requires
        a < old(slice)@.len(),
        b < old(slice)@.len(),
    ensures
        final(slice)@ == exchanged(old(slice)@, a as int, b as int),
;

/// `s` with the elements at `a` and `b` in each other's place.
pub open spec fn exchanged<V>(s: Seq<V>, a: int, b: int) -> Seq<V> {
    s.update(a, s[b]).update(b, s[a])
}

/// How many elements of `s[from..to]`, the one at `pivot` left out, are less
/// than the one at `pivot`.
pub open spec fn smaller_count<E: PartialOrd>(s: Seq<E>, pivot: int, from: int, to: int) -> int
    decreases to - from,
{
    if to <= from {
        0
    } else if to - 1 != pivot && less(s[to - 1], s[pivot]) {
        smaller_count(s, pivot, from, to - 1) + 1
    } else {
        smaller_count(s, pivot, from, to - 1)
    }
}

/// A scan in progress: the sequence as the exchanges made so far have left it,
/// where the pivot stands in it, and where the next element less than the
/// pivot is to go.
pub ghost struct Scan<E> {
    pub sequence: Seq<E>,
    pub pivot: int,
    pub boundary: int,
}

/// The scan after it has looked at the element at `idx`. An element less than
/// the pivot goes to the boundary, in exchange for the one that stands there;
/// if that one is the pivot, the pivot is at `idx` from then on.
pub open spec fn scan_step<E: PartialOrd>(scan: Scan<E>, idx: int) -> Scan<E> {
    if idx == scan.pivot || !less(scan.sequence[idx], scan.sequence[scan.pivot]) {
        scan
    } else if scan.boundary == idx {
        Scan { boundary: scan.boundary + 1, ..scan }
    } else {
        Scan {
            sequence: exchanged(scan.sequence, scan.boundary, idx),
            pivot: if scan.pivot == scan.boundary { idx } else { scan.pivot },
            boundary: scan.boundary + 1,
        }
    }
}

/// The scan after it has looked at the elements from `idx` up to `end`.
pub open spec fn scanned<E: PartialOrd>(scan: Scan<E>, idx: int, end: int) -> Scan<E>
    decreases end - idx,
{
    if idx >= end {
        scan
    } else {
        scanned(scan_step(scan, idx), idx + 1, end)
    }
}

/// What partitioning `s[start..end]` around the element at `pivot` leaves of
/// `s`: the scan of the range, and then the pivot exchanged into the boundary.
pub open spec fn arranged<E: PartialOrd>(s: Seq<E>, pivot: int, start: int, end: int) -> Seq<E> {
    let scan = scanned(Scan { sequence: s, pivot, boundary: start }, start, end);
    exchanged(scan.sequence, scan.pivot, scan.boundary)
}

/// Within `s[start..end]` the elements less than `s[settled]` are those before
/// `settled`, the element at `settled` itself left aside.
pub open spec fn split_around<E: PartialOrd>(s: Seq<E>, start: int, end: int, settled: int) -> bool {
    &&& forall|i: int| start <= i < settled ==> less(#[trigger] s[i], s[settled])
    &&& forall|i: int| settled < i < end ==> !less(#[trigger] s[i], s[settled])
}

/// Within `s[start..end]` an element is less than `s[settled]` exactly if it
/// stands before `settled`.
pub open spec fn partitioned<E: PartialOrd>(s: Seq<E>, start: int, end: int, settled: int) -> bool {
    forall|i: int| start <= i < end ==> (less(#[trigger] s[i], s[settled]) <==> i < settled)
}

/// `after` is `before` with the range `start..end` partitioned around the
/// element that stood at `pivot` and now stands at `settled`.
pub open spec fn partition_of<E: PartialOrd>(
    before: Seq<E>,
    after: Seq<E>,
    pivot: int,
    start: int,
    end: int,
    settled: int,
) -> bool {
    &&& after.len() == before.len()
    &&& start <= settled < end
    &&& after[settled] == before[pivot]
    &&& reordered(before, after)
    &&& reordered(before.subrange(start, end), after.subrange(start, end))
    &&& forall|i: int| 0 <= i < start || end <= i < before.len() ==> after[i] == before[i]
    &&& comparison_is_fixed::<E>() ==> {
        &&& settled == start + smaller_count(before, pivot, start, end)
        &&& after == arranged(before, pivot, start, end)
        &&& split_around(after, start, end, settled)
        &&& !less(before[pivot], before[pivot]) ==> partitioned(after, start, end, settled)
    }
}

/// Exchanging two elements reorders a sequence.
pub proof fn lemma_exchanged_is_reordered<V>(s: Seq<V>, a: int, b: int)
    requires
        0 <= a < s.len(),
        0 <= b < s.len(),
    ensures
        reordered(s, exchanged(s, a, b)),
{
    broadcast use vstd::multiset::group_multiset_axioms;

    let half = s.update(a, s[b]);
    to_multiset_update(s, a, s[b]);
    to_multiset_update(half, b, s[a]);
    assert(half[b] == s[b]);
    assert(s.contains(s[a]));
    assert(s.contains(s[b]));
    to_multiset_contains(s, s[a]);
    to_multiset_contains(s, s[b]);
    assert(exchanged(s, a, b).to_multiset() =~= s.to_multiset());
}

/// Exchanging two elements of a range reorders that range.
proof fn lemma_exchanged_within<V>(s: Seq<V>, start: int, end: int, a: int, b: int)
    requires
        0 <= start <= a < end <= s.len(),
        start <= b < end,
    ensures
        reordered(s.subrange(start, end), exchanged(s, a, b).subrange(start, end)),
{
    let range = s.subrange(start, end);
    assert(exchanged(s, a, b).subrange(start, end) =~= exchanged(range, a - start, b - start));
    lemma_exchanged_is_reordered(range, a - start, b - start);
}

/// Partitions `vector[start_idx..end_idx]` around the element at `pivot_idx`:
/// the elements of the range that are less than it come to stand before it,
/// the others after it. Returns the index at which that element then stands.
/// A slice of at most one element is left as it is, and the result is 0.
pub fn move_pivot<E: PartialOrd>(
    vector: &mut [E],
    pivot_idx: usize,
    start_idx: usize,
    end_idx: usize,
) -> (settled: usize)
    requires
        old(vector)@.len() > 1 ==> start_idx <= pivot_idx < end_idx <= old(vector)@.len(),
    ensures
        old(vector)@.len() <= 1 ==> settled == 0 && final(vector)@ == old(vector)@,
        old(vector)@.len() > 1 ==> partition_of(
            old(vector)@,
            final(vector)@,
            pivot_idx as int,
            start_idx as int,
            end_idx as int,
            settled as int,
        ),
        old(vector)@.len() > 1 && comparison_is_fixed::<E>() && !less(
            old(vector)@[pivot_idx as int],
            old(vector)@[pivot_idx as int],
        ) ==> partitioned(final(vector)@, start_idx as int, end_idx as int, settled as int),
{
    let input_length: usize = vector.len();
    if input_length <= 1 {
        return 0;
    }
    let ghost before = vector@;
    let ghost start = start_idx as int;
    let ghost end = end_idx as int;
    let mut pivot: usize = pivot_idx;
    // Where the next element less than the pivot goes: one past the last such element.
    let mut boundary: usize = start_idx;
    let mut idx: usize = start_idx;
    while idx < end_idx
        invariant
            vector@.len() == before.len(),
            before.len() == input_length,
            start_idx <= boundary <= idx <= end_idx <= input_length,
            boundary <= pivot < end_idx,
            start_idx <= pivot_idx < end_idx,
            pivot == pivot_idx || (pivot < idx && pivot_idx < idx),
            start == start_idx,
            end == end_idx,
            vector@[pivot as int] == before[pivot_idx as int],
            reordered(before, vector@),
            reordered(before.subrange(start, end), vector@.subrange(start, end)),
            forall|i: int| 0 <= i < start || idx <= i < before.len() ==> vector@[i] == before[i],
            comparison_is_fixed::<E>() ==> forall|i: int|
                start <= i < boundary ==> less(#[trigger] vector@[i], before[pivot_idx as int]),
            comparison_is_fixed::<E>() ==> forall|i: int|
                boundary <= i < idx ==> i == pivot || !less(
                    #[trigger] vector@[i],
                    before[pivot_idx as int],
                ),
            comparison_is_fixed::<E>() ==> boundary - start == smaller_count(
                before,
                pivot_idx as int,
                start,
                idx as int,
            ),
            comparison_is_fixed::<E>() ==> scanned(
                (Scan { sequence: vector@, pivot: pivot as int, boundary: boundary as int }),
                idx as int,
                end,
            ) == scanned(
                (Scan { sequence: before, pivot: pivot_idx as int, boundary: start }),
                start,
                end,
            ),
        decreases end_idx - idx,
    {
        if idx != pivot && vector[idx] < vector[pivot] {
            if boundary != idx {
                proof {
                    lemma_exchanged_is_reordered(vector@, boundary as int, idx as int);
                    lemma_exchanged_within(vector@, start, end, boundary as int, idx as int);
                }
                vector.swap(boundary, idx);
                if pivot == boundary {
                    pivot = idx;
                }
            }
            boundary += 1;
        }
        idx += 1;
    }
    proof {
        lemma_exchanged_is_reordered(vector@, pivot as int, boundary as int);
        lemma_exchanged_within(vector@, start, end, pivot as int, boundary as int);
    }
    vector.swap(pivot, boundary);
    boundary
}

} // verus!
