//! Putting captured frames in the order of their timestamps.
use vstd::prelude::*;

use crate::places::lemma_distinct_places_are_all;

verus! {

/// Item `x` belongs in front of item `y`: it has the smaller timestamp, or the
/// same and the earlier place.
pub open spec fn before(keys: Seq<u64>, x: int, y: int) -> bool {
    keys[x] < keys[y] || (keys[x] == keys[y] && x < y)
}

/// The timestamps of `frames`.
pub open spec fn timestamps<T>(frames: Seq<(u64, T)>) -> Seq<u64> {
    Seq::new(frames.len(), |i: int| frames[i].0)
}

/// `order` lists places of `keys` so that each belongs in front of the next
/// ones. No place can occur twice.
pub open spec fn is_ordered(keys: Seq<u64>, order: Seq<usize>) -> bool {
    &&& forall|i: int| 0 <= i < order.len() ==> 0 <= (#[trigger] order[i]) < keys.len()
    &&& forall|i: int, j: int|
        0 <= i < j < order.len() ==> before(
            keys,
            #[trigger] order[i] as int,
            #[trigger] order[j] as int,
        )
}

/// `sorted` holds each item of `frames` once, by timestamp; items with the same
/// timestamp keep the order that they have in `frames`.
pub open spec fn is_sorted_from<T>(
    frames: Seq<(u64, T)>,
    sorted: Seq<(u64, T)>,
    order: Seq<usize>,
) -> bool {
    &&& sorted.len() == frames.len()
    &&& order.len() == frames.len()
    &&& is_ordered(timestamps(frames), order)
    &&& forall|i: int| 0 <= i < sorted.len() ==> sorted[i] == frames[#[trigger] order[i] as int]
}

/// `sorted` is `frames`, sorted.
pub open spec fn is_sorting<T>(frames: Seq<(u64, T)>, sorted: Seq<(u64, T)>) -> bool {
    exists|order: Seq<usize>| #[trigger] is_sorted_from(frames, sorted, order)
}

/// Merges two ordered lists of places, all of the first below all of the
/// second.
fn merge(keys: &Vec<u64>, a: &Vec<usize>, b: &Vec<usize>, lo: usize, mid: usize, hi: usize) -> (r:
    Vec<usize>)
    requires
        lo <= mid <= hi <= keys@.len(),
        is_ordered(keys@, a@),
        is_ordered(keys@, b@),
        forall|i: int| 0 <= i < a@.len() ==> lo <= #[trigger] a@[i] < mid,
        forall|i: int| 0 <= i < b@.len() ==> mid <= #[trigger] b@[i] < hi,
        a@.len() == mid - lo,
        b@.len() == hi - mid,
    ensures
        is_ordered(keys@, r@),
        r@.len() == hi - lo,
        forall|i: int| 0 <= i < r@.len() ==> lo <= #[trigger] r@[i] < hi,
{
    let mut r: Vec<usize> = Vec::new();
    let mut i: usize = 0;
    let mut j: usize = 0;
    while i < a.len() || j < b.len()
        invariant
            lo <= mid <= hi <= keys@.len(),
            is_ordered(keys@, a@),
            is_ordered(keys@, b@),
            forall|k: int| 0 <= k < a@.len() ==> lo <= #[trigger] a@[k] < mid,
            forall|k: int| 0 <= k < b@.len() ==> mid <= #[trigger] b@[k] < hi,
            a@.len() == mid - lo,
            b@.len() == hi - mid,
            i <= a@.len(),
            j <= b@.len(),
            r@.len() == i + j,
            is_ordered(keys@, r@),
            forall|k: int| 0 <= k < r@.len() ==> lo <= #[trigger] r@[k] < hi,
            forall|k: int, m: int|
                0 <= k < r@.len() && i <= m < a@.len() ==> before(
                    keys@,
                    #[trigger] r@[k] as int,
                    #[trigger] a@[m] as int,
                ),
            forall|k: int, m: int|
                0 <= k < r@.len() && j <= m < b@.len() ==> before(
                    keys@,
                    #[trigger] r@[k] as int,
                    #[trigger] b@[m] as int,
                ),
        decreases a@.len() - i + b@.len() - j,
    {
        if j >= b.len() || (i < a.len() && keys[a[i]] <= keys[b[j]]) {
            r.push(a[i]);
            i = i + 1;
        } else {
            r.push(b[j]);
            j = j + 1;
        }
    }
    r
}

/// The places `lo..hi`, in order.
fn ordered_places(keys: &Vec<u64>, lo: usize, hi: usize) -> (r: Vec<usize>)
    requires
        lo <= hi <= keys@.len(),
    ensures
        is_ordered(keys@, r@),
        r@.len() == hi - lo,
        forall|i: int| 0 <= i < r@.len() ==> lo <= #[trigger] r@[i] < hi,
    decreases hi - lo,
{
    if hi - lo == 0 {
        Vec::new()
    } else if hi - lo == 1 {
        vec![lo]
    } else {
        let mid: usize = lo + (hi - lo) / 2;
        let a: Vec<usize> = ordered_places(keys, lo, mid);
        let b: Vec<usize> = ordered_places(keys, mid, hi);
        merge(keys, &a, &b, lo, mid, hi)
    }
}

/// Sorts frames by timestamp. Frames with the same timestamp keep their order.
pub fn sort_by_timestamp<T>(frames: Vec<(u64, T)>) -> (r: Vec<(u64, T)>)
    ensures
        is_sorting(frames@, r@),
{
    let ghost all = frames@;
    let count: usize = frames.len();
    let mut keys: Vec<u64> = Vec::new();
    let mut slots: Vec<Option<(u64, T)>> = Vec::new();
    for frame in it: frames
        invariant
            it.seq() == all,
            keys@.len() == it.index(),
            slots@.len() == it.index(),
            forall|i: int| 0 <= i < keys@.len() ==> keys@[i] == all[i].0,
            forall|i: int| 0 <= i < slots@.len() ==> slots@[i] == Some(all[i]),
    {
        keys.push(frame.0);
        slots.push(Some(frame));
    }
    assert(keys@ =~= timestamps(all));
    let order: Vec<usize> = ordered_places(&keys, 0, count);
    let mut r: Vec<(u64, T)> = Vec::new();
    let mut i: usize = 0;
    while i < count
        invariant
            count == all.len(),
            keys@ == timestamps(all),
            is_ordered(keys@, order@),
            order@.len() == count,
            i <= count,
            slots@.len() == count,
            r@.len() == i,
            forall|k: int| 0 <= k < i ==> r@[k] == all[#[trigger] order@[k] as int],
            forall|k: int|
                i <= k < count ==> slots@[#[trigger] order@[k] as int] == Some(
                    all[order@[k] as int],
                ),
        decreases count - i,
    {
        let place: usize = order[i];
        assert(slots@[order@[i as int] as int] == Some(all[place as int]));
        let ghost full = slots@;
        let slot: Option<(u64, T)> = slots[place].take();
        r.push(slot.unwrap());
        assert forall|k: int| i < k < count implies slots@[#[trigger] order@[k] as int] == Some(
            all[order@[k] as int],
        ) by {
            assert(before(keys@, order@[i as int] as int, order@[k] as int));
            assert(slots@[order@[k] as int] == full[order@[k] as int]);
        }
        i = i + 1;
    }
    assert(is_sorted_from(all, r@, order@));
    r
}

/// What a capture holds: the frames of both cameras and the labels, each with
/// its timestamp.
pub struct Capture<I, L> {
    pub left: Vec<(u64, I)>,
    pub right: Vec<(u64, I)>,
    pub labels: Vec<(u64, L)>,
}

impl<I, L> Capture<I, L> {
    /// The same frames and labels, each list in the order of its timestamps.
    pub fn sorted(self) -> (r: Capture<I, L>)
        ensures
            is_sorting(self.left@, r.left@),
            is_sorting(self.right@, r.right@),
            is_sorting(self.labels@, r.labels@),
    {
        Capture {
            left: sort_by_timestamp(self.left),
            right: sort_by_timestamp(self.right),
            labels: sort_by_timestamp(self.labels),
        }
    }
}

/// Sorted timestamps never fall.
pub proof fn law_sorted_never_falls<T>(frames: Seq<(u64, T)>, sorted: Seq<(u64, T)>)
    requires
        is_sorting(frames, sorted),
    ensures
        forall|i: int, j: int| 0 <= i <= j < sorted.len() ==> sorted[i].0 <= sorted[j].0,
{
    let order = choose|order: Seq<usize>| #[trigger] is_sorted_from(frames, sorted, order);
    assert forall|i: int, j: int| 0 <= i <= j < sorted.len() implies sorted[i].0
        <= sorted[j].0 by {
        assert(sorted[i] == frames[order[i] as int]);
        assert(sorted[j] == frames[order[j] as int]);
        if i < j {
            assert(before(timestamps(frames), order[i] as int, order[j] as int));
        }
    }
}

/// Sorting loses no frame and doubles none.
pub proof fn law_sorted_keeps_every_frame<T>(frames: Seq<(u64, T)>, sorted: Seq<(u64, T)>)
    requires
        is_sorting(frames, sorted),
    ensures
        sorted.to_multiset() == frames.to_multiset(),
{
    let order = choose|order: Seq<usize>| #[trigger] is_sorted_from(frames, sorted, order);
    let places = order.map_values(|p: usize| p as int);
    assert forall|i: int, j: int|
        0 <= i < places.len() && 0 <= j < places.len() && i != j implies places[i]
        != places[j] by {
        if i < j {
            assert(before(timestamps(frames), order[i] as int, order[j] as int));
        } else {
            assert(before(timestamps(frames), order[j] as int, order[i] as int));
        }
    }
    assert forall|i: int| 0 <= i < places.len() implies 0 <= #[trigger] places[i] < frames.len() by {
        assert(order[i] < timestamps(frames).len());
    }
    lemma_reordering_keeps_all(frames, places);
    assert(sorted =~= Seq::new(places.len(), |i: int| frames[places[i]]));
}

/// Items listed by their places, each place once, are the same items.
proof fn lemma_reordering_keeps_all<T>(items: Seq<T>, places: Seq<int>)
    requires
        places.len() == items.len(),
        forall|i: int| 0 <= i < places.len() ==> 0 <= #[trigger] places[i] < items.len(),
        forall|i: int, j: int|
            0 <= i < places.len() && 0 <= j < places.len() && i != j ==> places[i] != places[j],
    ensures
        Seq::new(places.len(), |i: int| items[places[i]]).to_multiset() == items.to_multiset(),
    decreases items.len(),
{
    let listed = Seq::new(places.len(), |i: int| items[places[i]]);
    if items.len() == 0 {
        assert(listed =~= items);
    } else {
        let last = places.last();
        let fewer = items.remove(last);
        let rest = Seq::new(
            (places.len() - 1) as nat,
            |i: int| if places[i] > last { places[i] - 1 } else { places[i] },
        );
        assert forall|i: int| 0 <= i < rest.len() implies 0 <= #[trigger] rest[i] < fewer.len() by {
            assert(places[i] != last);
        }
        assert forall|i: int, j: int| 0 <= i < rest.len() && 0 <= j < rest.len() && i != j implies rest[i]
            != rest[j] by {
            assert(places[i] != places[j]);
            assert(places[i] != last);
            assert(places[j] != last);
        }
        lemma_reordering_keeps_all(fewer, rest);
        let listed_rest = Seq::new(rest.len(), |i: int| fewer[rest[i]]);
        assert(listed =~= listed_rest.push(items[last])) by {
            assert forall|i: int| 0 <= i < rest.len() implies listed[i] == #[trigger] listed_rest[i] by {
                assert(places[i] != last);
            }
        }
        broadcast use vstd::seq_lib::group_to_multiset_ensures;
        assert(items.to_multiset().count(items[last]) > 0);
        assert(listed.to_multiset() =~= items.to_multiset());
    }
}

/// An ordering of all places has each of them.
proof fn lemma_order_has_all(keys: Seq<u64>, order: Seq<usize>, place: int)
    requires
        is_ordered(keys, order),
        order.len() == keys.len(),
        0 <= place < keys.len(),
    ensures
        exists|i: int| 0 <= i < order.len() && #[trigger] order[i] == place,
{
    let listed = order.map_values(|p: usize| p as int);
    assert forall|i: int| 0 <= i < listed.len() implies 0 <= #[trigger] listed[i] < listed.len() by {
        assert(order[i] < keys.len());
    }
    assert forall|i: int, j: int|
        0 <= i < listed.len() && 0 <= j < listed.len() && i != j implies listed[i]
        != listed[j] by {
        if i < j {
            assert(before(keys, order[i] as int, order[j] as int));
        } else {
            assert(before(keys, order[j] as int, order[i] as int));
        }
    }
    lemma_distinct_places_are_all(listed, place);
    let i = choose|i: int| 0 <= i < listed.len() && #[trigger] listed[i] == place;
    assert(order[i] == place);
}

/// Two orderings of the same timestamps agree at every place.
proof fn lemma_order_is_unique(keys: Seq<u64>, first: Seq<usize>, second: Seq<usize>, i: int)
    requires
        is_ordered(keys, first),
        is_ordered(keys, second),
        first.len() == keys.len(),
        second.len() == keys.len(),
        0 <= i < keys.len(),
    ensures
        first[i] == second[i],
    decreases i,
{
    assert forall|k: int| 0 <= k < i implies first[k] == second[k] by {
        lemma_order_is_unique(keys, first, second, k);
    }
    if first[i] != second[i] {
        lemma_order_has_all(keys, second, first[i] as int);
        lemma_order_has_all(keys, first, second[i] as int);
        let j = choose|j: int| 0 <= j < second.len() && #[trigger] second[j] == first[i] as int;
        let m = choose|m: int| 0 <= m < first.len() && #[trigger] first[m] == second[i] as int;
        if j < i {
            assert(first[j] == second[j]);
            assert(before(keys, first[j] as int, first[i] as int));
        }
        if m < i {
            assert(first[m] == second[m]);
            assert(before(keys, second[m] as int, second[i] as int));
        }
        assert(before(keys, second[i] as int, second[j] as int));
        assert(before(keys, first[i] as int, first[m] as int));
        assert(false);
    }
}

/// There is only one way to sort.
pub proof fn law_sorting_is_unique<T>(
    frames: Seq<(u64, T)>,
    first: Seq<(u64, T)>,
    second: Seq<(u64, T)>,
)
    requires
        is_sorting(frames, first),
        is_sorting(frames, second),
    ensures
        first == second,
{
    let a = choose|order: Seq<usize>| #[trigger] is_sorted_from(frames, first, order);
    let b = choose|order: Seq<usize>| #[trigger] is_sorted_from(frames, second, order);
    assert forall|i: int| 0 <= i < frames.len() implies first[i] == second[i] by {
        lemma_order_is_unique(timestamps(frames), a, b, i);
        assert(first[i] == frames[a[i] as int]);
        assert(second[i] == frames[b[i] as int]);
    }
    assert(first =~= second);
}

/// No two frames have the same timestamp.
pub open spec fn is_distinct<T>(frames: Seq<(u64, T)>) -> bool {
    forall|i: int, j: int|
        0 <= i < frames.len() && 0 <= j < frames.len() && i != j ==> frames[i].0 != frames[j].0
}

/// Where the timestamps differ, the same frames in another order are as
/// different.
proof fn lemma_distinct_in_any_order<T>(frames: Seq<(u64, T)>, other: Seq<(u64, T)>)
    requires
        is_distinct(frames),
        frames.to_multiset() == other.to_multiset(),
    ensures
        is_distinct(other),
{
    broadcast use vstd::seq_lib::group_to_multiset_ensures;

    assert(frames.no_duplicates());
    frames.lemma_multiset_has_no_duplicates();
    other.lemma_multiset_has_no_duplicates_conv();
    assert forall|i: int, j: int|
        0 <= i < other.len() && 0 <= j < other.len() && i != j implies other[i].0
        != other[j].0 by {
        assert(other[i] != other[j]);
        assert(other.to_multiset().count(other[i]) > 0);
        assert(other.to_multiset().count(other[j]) > 0);
        assert(frames.contains(other[i]) && frames.contains(other[j]));
        let k = choose|k: int| 0 <= k < frames.len() && frames[k] == other[i];
        let m = choose|m: int| 0 <= m < frames.len() && frames[m] == other[j];
        assert(k != m);
    }
}

/// Sorted frames with different timestamps are determined by which they are.
proof fn lemma_sorted_by_contents<T>(first: Seq<(u64, T)>, second: Seq<(u64, T)>, i: int)
    requires
        is_distinct(first),
        is_distinct(second),
        forall|i: int, j: int| 0 <= i <= j < first.len() ==> first[i].0 <= first[j].0,
        forall|i: int, j: int| 0 <= i <= j < second.len() ==> second[i].0 <= second[j].0,
        first.to_multiset() == second.to_multiset(),
        first.len() == second.len(),
        0 <= i < first.len(),
    ensures
        first[i] == second[i],
    decreases i,
{
    broadcast use vstd::seq_lib::group_to_multiset_ensures;

    assert forall|k: int| 0 <= k < i implies first[k] == second[k] by {
        lemma_sorted_by_contents(first, second, k);
    }
    assert(first.to_multiset().count(first[i]) > 0);
    assert(second.to_multiset().count(second[i]) > 0);
    assert(second.contains(first[i]) && first.contains(second[i]));
    let j = choose|j: int| 0 <= j < second.len() && second[j] == first[i];
    let m = choose|m: int| 0 <= m < first.len() && first[m] == second[i];
    if j < i {
        assert(first[j] == second[j]);
        assert(first[j].0 != first[i].0);
    }
    if m < i {
        assert(first[m] == second[m]);
        assert(second[m].0 != second[i].0);
    }
    assert(second[i].0 <= second[j].0);
    assert(first[i].0 <= first[m].0);
    if j != i {
        assert(second[i].0 != second[j].0);
    }
}

/// Where no two frames have the same timestamp, the order in which they were
/// read has no influence: the same frames come out in the same order.
pub proof fn law_order_of_reading_is_forgotten<T>(
    frames: Seq<(u64, T)>,
    other: Seq<(u64, T)>,
    sorted: Seq<(u64, T)>,
    other_sorted: Seq<(u64, T)>,
)
    requires
        is_distinct(frames),
        frames.to_multiset() == other.to_multiset(),
        is_sorting(frames, sorted),
        is_sorting(other, other_sorted),
    ensures
        sorted == other_sorted,
{
    law_sorted_keeps_every_frame(frames, sorted);
    law_sorted_keeps_every_frame(other, other_sorted);
    law_sorted_never_falls(frames, sorted);
    law_sorted_never_falls(other, other_sorted);
    lemma_distinct_in_any_order(frames, sorted);
    lemma_distinct_in_any_order(frames, other_sorted);
    assert(sorted.len() == other_sorted.len()) by {
        broadcast use vstd::seq_lib::group_to_multiset_ensures;

        assert(sorted.to_multiset().len() == other_sorted.to_multiset().len());
    }
    assert forall|i: int| 0 <= i < sorted.len() implies sorted[i] == other_sorted[i] by {
        lemma_sorted_by_contents(sorted, other_sorted, i);
    }
    assert(sorted =~= other_sorted);
}

/// Frames that are in order already stay as they are.
pub proof fn law_sorted_frames_stay<T>(frames: Seq<(u64, T)>, sorted: Seq<(u64, T)>)
    requires
        is_sorting(frames, sorted),
        frames.len() <= usize::MAX,
        forall|i: int, j: int| 0 <= i <= j < frames.len() ==> frames[i].0 <= frames[j].0,
    ensures
        sorted == frames,
{
    let same = Seq::new(frames.len(), |i: int| i as usize);
    assert(is_sorted_from(frames, frames, same));
    law_sorting_is_unique(frames, sorted, frames);
}

/// Sorting is stable: every sorted frame comes from a place of its own, and of two
/// with the same timestamp that from the earlier place comes first.
pub proof fn law_equal_timestamps_keep_their_order<T>(
    frames: Seq<(u64, T)>,
    sorted: Seq<(u64, T)>,
)
    requires
        is_sorting(frames, sorted),
    ensures
        sorted.len() == frames.len(),
        exists|from: Seq<int>|
            {
                &&& #[trigger] from.len() == frames.len()
                &&& forall|i: int|
                    #![trigger from[i]]
                    0 <= i < from.len() ==> 0 <= from[i] < frames.len() && sorted[i]
                        == frames[from[i]]
                &&& forall|i: int, j: int|
                    #![trigger from[i], from[j]]
                    0 <= i < j < from.len() ==> from[i] != from[j] && (sorted[i].0 < sorted[j].0 || (
                    sorted[i].0 == sorted[j].0 && from[i] < from[j]))
            },
{
    let order = choose|order: Seq<usize>| #[trigger] is_sorted_from(frames, sorted, order);
    let from = order.map_values(|p: usize| p as int);
    assert forall|i: int| #![trigger from[i]] 0 <= i < from.len() implies 0 <= from[i]
        < frames.len() && sorted[i] == frames[from[i]] by {
        assert(order[i] < timestamps(frames).len());
    }
    assert forall|i: int, j: int| #![trigger from[i], from[j]] 0 <= i < j < from.len() implies from[i]
        != from[j] && (sorted[i].0 < sorted[j].0 || (sorted[i].0 == sorted[j].0 && from[i]
        < from[j])) by {
        assert(before(timestamps(frames), order[i] as int, order[j] as int));
        assert(sorted[i] == frames[order[i] as int]);
        assert(sorted[j] == frames[order[j] as int]);
        assert(order[i] < timestamps(frames).len());
        assert(order[j] < timestamps(frames).len());
    }
    assert(from.len() == frames.len());
}


} // verus!
