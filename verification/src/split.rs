//! Which frames a model is trained on, and which it is tested on.
use burn::data::dataset::transform::{PartialDataset, ShuffledDataset, WindowsDataset};
use burn::data::dataset::{Dataset, InMemDataset};
use vstd::prelude::*;

use crate::frames::WINDOW;
use crate::places::lemma_distinct_places_are_all;

verus! {

/// Share of the windows that a model is trained on, in tenths.
pub const TRAIN_TENTHS: usize = 8;

/// All of the windows, in tenths.
pub const ALL_TENTHS: usize = 10;

/// The order in which `burn::data::dataset::transform::ShuffledDataset` gives
/// `count` items, for a seed: which item comes at each place.
pub uninterp spec fn shuffled_order(count: nat, seed: u64) -> Seq<nat>;

/// `order` names each of `count` items once.
pub open spec fn is_permutation(order: Seq<nat>, count: nat) -> bool {
    &&& order.len() == count
    &&& forall|i: int| 0 <= i < order.len() ==> #[trigger] order[i] < count
    &&& forall|i: int, j: int|
        0 <= i < order.len() && 0 <= j < order.len() && i != j ==> order[i] != order[j]
}

/// `items` in the order `order`.
pub open spec fn reordered<T>(items: Seq<T>, order: Seq<nat>) -> Seq<T> {
    Seq::new(order.len(), |i: int| items[order[i] as int])
}

/// `r` holds each of `items` once, in the order `order`.
pub open spec fn is_shuffled<T>(items: Seq<T>, order: Seq<nat>, r: Seq<T>) -> bool {
    &&& is_permutation(order, items.len())
    &&& r == reordered(items, order)
}

/// How many runs of `size` neighbours there are among `count` items.
pub open spec fn window_count(count: nat, size: nat) -> nat {
    if count >= size {
        (count - size + 1) as nat
    } else {
        0
    }
}

/// All runs of `size` neighbours among `items`, in order.
pub open spec fn windows(items: Seq<usize>, size: nat) -> Seq<Seq<usize>> {
    Seq::new(window_count(items.len(), size), |i: int| items.subrange(i, i + size))
}

/// Calls `WindowsDataset::new` of `burn` and reads what it holds: all runs of
/// `size` neighbours, in order. It panics on a size of zero.
#[verifier::external_body]
fn windows_dataset(items: Vec<usize>, size: usize) -> (r: Vec<Vec<usize>>)
    requires
        0 < size,
    ensures
        r.deep_view() == windows(items@, size as nat),
{
    WindowsDataset::new(InMemDataset::new(items), size).iter().collect()
}

/// Calls `ShuffledDataset::new` of `burn` and reads what it holds: the items in
/// an order that depends on their number and on the seed alone, each of them
/// once.
#[verifier::external_body]
fn shuffled_dataset(items: Vec<Vec<usize>>, seed: u64) -> (r: Vec<Vec<usize>>)
    ensures
        is_shuffled(items.deep_view(), shuffled_order(items@.len(), seed), r.deep_view()),
{
    ShuffledDataset::new(InMemDataset::new(items), seed).iter().collect()
}

/// Calls `PartialDataset::new` of `burn` and reads what it holds: the items
/// from `start` up to and without `end`.
#[verifier::external_body]
fn partial_dataset(items: Vec<Vec<usize>>, start: usize, end: usize) -> (r: Vec<Vec<usize>>)
    requires
        start <= end <= items@.len(),
    ensures
        r.deep_view() == items.deep_view().subrange(start as int, end as int),
{
    PartialDataset::new(InMemDataset::new(items), start, end).iter().collect()
}

/// The windows over `count` frames, each by the places of its frames.
pub open spec fn frame_windows(count: nat) -> Seq<Seq<usize>> {
    windows(Seq::new(count, |i: int| i as usize), WINDOW as nat)
}

/// The share of `items` from `start` to `end` tenths, both ends rounded down.
pub open spec fn tenths<T>(items: Seq<T>, start: int, end: int) -> Seq<T> {
    items.subrange(items.len() * start / 10, items.len() * end / 10)
}

/// `r` is the share from `start` to `end` tenths of the windows over `count`
/// frames, taken in the order `order`.
pub open spec fn is_share(
    count: nat,
    order: Seq<nat>,
    start: int,
    end: int,
    r: Seq<Seq<usize>>,
) -> bool {
    &&& is_permutation(order, frame_windows(count).len())
    &&& r == tenths(reordered(frame_windows(count), order), start, end)
}

/// The places `0..count`.
fn places(count: usize) -> (r: Vec<usize>)
    ensures
        r@ == Seq::new(count as nat, |i: int| i as usize),
{
    let mut r: Vec<usize> = Vec::new();
    let mut i: usize = 0;
    while i < count
        invariant
            i <= count,
            r@.len() == i,
            forall|k: int| 0 <= k < i ==> r@[k] == k,
        decreases count - i,
    {
        r.push(i);
        i = i + 1;
    }
    assert(r@ =~= Seq::new(count as nat, |i: int| i as usize));
    r
}

/// The share of `items` from `start` to `end` tenths, both ends rounded down.
pub fn take_tenths(items: Vec<Vec<usize>>, start: usize, end: usize) -> (r: Vec<Vec<usize>>)
    requires
        start <= end <= ALL_TENTHS,
        items@.len() * end <= usize::MAX,
    ensures
        r.deep_view() == tenths(items.deep_view(), start as int, end as int),
        r@.len() == items@.len() * end / 10 - items@.len() * start / 10,
        forall|k: int|
            #![trigger r.deep_view()[k]]
            0 <= k < r@.len() ==> r.deep_view()[k] == items.deep_view()[items@.len() * start / 10
                + k],
{
    let len: usize = items.len();
    assert(len == items.deep_view().len());
    assert(0 <= len * start <= len * end <= len * 10) by (nonlinear_arith)
        requires
            start <= end <= 10,
            len >= 0,
    ;
    let r: Vec<Vec<usize>> = partial_dataset(
        items,
        len * start / ALL_TENTHS,
        len * end / ALL_TENTHS,
    );
    assert(r.deep_view().len() == r@.len());
    r
}

/// The windows over `count` frames from `start` to `end` tenths of their
/// shuffled order. A window is given by the places of its frames.
pub fn get_data(count: usize, seed: u64, start: usize, end: usize) -> (r: Vec<Vec<usize>>)
    requires
        start <= end <= ALL_TENTHS,
        window_count(count as nat, WINDOW as nat) * end <= usize::MAX,
    ensures
        is_share(
            count as nat,
            shuffled_order(frame_windows(count as nat).len(), seed),
            start as int,
            end as int,
            r.deep_view(),
        ),
{
    let all: Vec<Vec<usize>> = windows_dataset(places(count), WINDOW);
    let shuffled: Vec<Vec<usize>> = shuffled_dataset(all, seed);
    assert(shuffled.deep_view().len() == window_count(count as nat, WINDOW as nat));
    take_tenths(shuffled, start, end)
}

/// The windows that a model is trained on and those that it is tested on.
pub struct WindowSplit {
    pub train: Vec<Vec<usize>>,
    pub test: Vec<Vec<usize>>,
}

/// Splits the windows over `count` frames, after one shuffle: the first eight
/// tenths are for training, the rest for testing.
pub fn split_windows(count: usize, seed: u64) -> (r: WindowSplit)
    requires
        window_count(count as nat, WINDOW as nat) * ALL_TENTHS <= usize::MAX,
    ensures
        is_split(
            count as nat,
            shuffled_order(frame_windows(count as nat).len(), seed),
            r.train.deep_view(),
            r.test.deep_view(),
        ),
        count >= 4 ==> r.train@.len() == (count - 3) * 8 / 10,
        count >= 4 ==> r.train@.len() + r.test@.len() == count - 3,
        count < 4 ==> r.train@.len() == 0 && r.test@.len() == 0,
{
    let r: WindowSplit = WindowSplit {
        train: get_data(count, seed, 0, TRAIN_TENTHS),
        test: get_data(count, seed, TRAIN_TENTHS, ALL_TENTHS),
    };
    proof {
        let order = shuffled_order(frame_windows(count as nat).len(), seed);
        law_split_sizes(count as nat, order, r.train.deep_view(), r.test.deep_view());
        assert(r.train.deep_view().len() == r.train@.len());
        assert(r.test.deep_view().len() == r.test@.len());
    }
    r
}

/// `train` and `test` are the two shares of the windows over `count` frames,
/// taken in the order `order`.
pub open spec fn is_split(
    count: nat,
    order: Seq<nat>,
    train: Seq<Seq<usize>>,
    test: Seq<Seq<usize>>,
) -> bool {
    &&& is_share(count, order, 0, TRAIN_TENTHS as int, train)
    &&& is_share(count, order, TRAIN_TENTHS as int, ALL_TENTHS as int, test)
}

/// The two shares together are all windows, and training gets eight tenths of
/// them, rounded down.
pub proof fn law_split_sizes(
    count: nat,
    order: Seq<nat>,
    train: Seq<Seq<usize>>,
    test: Seq<Seq<usize>>,
)
    requires
        is_split(count, order, train, test),
    ensures
        train.len() == window_count(count, WINDOW as nat) * 8 / 10,
        train.len() + test.len() == window_count(count, WINDOW as nat),
        train + test == reordered(frame_windows(count), order),
{
    assert(train + test =~= reordered(frame_windows(count), order));
}

/// A window is four neighbouring frames, in order.
pub proof fn law_window_is_neighbours(
    count: nat,
    order: Seq<nat>,
    train: Seq<Seq<usize>>,
    test: Seq<Seq<usize>>,
    window: Seq<usize>,
)
    requires
        is_split(count, order, train, test),
        count <= usize::MAX,
        train.contains(window) || test.contains(window),
    ensures
        window.len() == WINDOW,
        forall|j: int| 0 <= j < WINDOW ==> #[trigger] window[j] == window[0] + j,
        window[WINDOW - 1] < count,
{
    law_split_sizes(count, order, train, test);
    let both = train + test;
    assert(both.contains(window)) by {
        if train.contains(window) {
            let k = choose|k: int| 0 <= k < train.len() && train[k] == window;
            assert(both[k] == window);
        } else {
            let k = choose|k: int| 0 <= k < test.len() && test[k] == window;
            assert(both[train.len() + k] == window);
        }
    }
    let k = choose|k: int| 0 <= k < both.len() && both[k] == window;
    assert(order[k] < frame_windows(count).len());
    assert(window == frame_windows(count)[order[k] as int]);
}

/// No window is used for training and for testing, and none is used twice.
pub proof fn law_split_is_disjoint(
    count: nat,
    order: Seq<nat>,
    train: Seq<Seq<usize>>,
    test: Seq<Seq<usize>>,
)
    requires
        is_split(count, order, train, test),
        count <= usize::MAX,
    ensures
        train.no_duplicates(),
        test.no_duplicates(),
        forall|window: Seq<usize>| !(train.contains(window) && test.contains(window)),
{
    law_split_sizes(count, order, train, test);
    let both = train + test;
    assert forall|i: int, j: int| 0 <= i < both.len() && 0 <= j < both.len() && i != j implies both[i]
        != both[j] by {
        assert(order[i] != order[j]);
        assert(order[i] < frame_windows(count).len());
        assert(order[j] < frame_windows(count).len());
        assert(both[i][0] == order[i]);
        assert(both[j][0] == order[j]);
    }
    assert forall|i: int, j: int| 0 <= i < train.len() && 0 <= j < train.len() && i
        != j implies train[i] != train[j] by {
        assert(train[i] == both[i]);
        assert(train[j] == both[j]);
    }
    assert forall|i: int, j: int| 0 <= i < test.len() && 0 <= j < test.len() && i
        != j implies test[i] != test[j] by {
        assert(test[i] == both[train.len() + i]);
        assert(test[j] == both[train.len() + j]);
    }
    assert forall|window: Seq<usize>| !(train.contains(window) && test.contains(window)) by {
        if train.contains(window) && test.contains(window) {
            let i = choose|i: int| 0 <= i < train.len() && train[i] == window;
            let j = choose|j: int| 0 <= j < test.len() && test[j] == window;
            assert(both[i] == both[train.len() + j]);
        }
    }
}

/// Every window is used, for training or for testing.
pub proof fn law_split_is_complete(
    count: nat,
    order: Seq<nat>,
    train: Seq<Seq<usize>>,
    test: Seq<Seq<usize>>,
    i: int,
)
    requires
        is_split(count, order, train, test),
        0 <= i < frame_windows(count).len(),
    ensures
        train.contains(frame_windows(count)[i]) || test.contains(frame_windows(count)[i]),
{
    law_split_sizes(count, order, train, test);
    lemma_permutation_is_onto(order, frame_windows(count).len(), i);
    let k = choose|k: int| 0 <= k < order.len() && #[trigger] order[k] == i;
    let both = train + test;
    assert(both[k] == frame_windows(count)[i]);
    if k < train.len() {
        assert(train[k] == both[k]);
    } else {
        assert(test[k - train.len()] == both[k]);
    }
}

proof fn lemma_permutation_is_onto(order: Seq<nat>, count: nat, item: int)
    requires
        is_permutation(order, count),
        0 <= item < count,
    ensures
        exists|k: int| 0 <= k < order.len() && #[trigger] order[k] == item,
{
    let listed = order.map_values(|p: nat| p as int);
    assert forall|i: int| 0 <= i < listed.len() implies 0 <= #[trigger] listed[i] < listed.len() by {
        assert(order[i] < count);
    }
    lemma_distinct_places_are_all(listed, item);
    let k = choose|k: int| 0 <= k < listed.len() && #[trigger] listed[k] == item;
    assert(order[k] == item);
}

/// A share of the windows over `count` frames holds, from `start` to `end` tenths of
/// the `count - 3` windows, the four neighbouring frames from each place on that the
/// order names. The order names each of the first `count - 3` places once.
pub proof fn law_share_in_numbers(
    count: nat,
    order: Seq<nat>,
    start: int,
    end: int,
    r: Seq<Seq<usize>>,
)
    requires
        is_share(count, order, start, end, r),
        4 <= count <= usize::MAX,
        0 <= start <= end <= 10,
    ensures
        order.len() == count - 3,
        forall|i: int| 0 <= i < count - 3 ==> #[trigger] order[i] < count - 3,
        forall|i: int, j: int|
            0 <= i < count - 3 && 0 <= j < count - 3 && i != j ==> order[i] != order[j],
        r.len() == (count - 3) * end / 10 - (count - 3) * start / 10,
        forall|k: int|
            #![trigger r[k]]
            0 <= k < r.len() ==> {
                let first = order[(count - 3) * start / 10 + k];
                &&& r[k].len() == 4
                &&& r[k][0] == first
                &&& r[k][1] == first + 1
                &&& r[k][2] == first + 2
                &&& r[k][3] == first + 3
            },
{
    let n = count - 3;
    assert(0 <= n * start <= n * end <= n * 10) by (nonlinear_arith)
        requires
            0 <= start <= end <= 10,
            n >= 0,
    ;
    assert(frame_windows(count).len() == n);
    assert forall|k: int| #![trigger r[k]] 0 <= k < r.len() implies {
        let first = order[n * start / 10 + k];
        &&& r[k].len() == 4
        &&& r[k][0] == first
        &&& r[k][1] == first + 1
        &&& r[k][2] == first + 2
        &&& r[k][3] == first + 3
    } by {
        assert(order[n * start / 10 + k] < n);
        assert(r[k] == frame_windows(count)[order[n * start / 10 + k] as int]);
    }
}

/// Over fewer than four frames there is no window.
pub proof fn law_few_frames_have_no_window(
    count: nat,
    order: Seq<nat>,
    train: Seq<Seq<usize>>,
    test: Seq<Seq<usize>>,
)
    requires
        is_split(count, order, train, test),
        count < 4,
    ensures
        train.len() == 0,
        test.len() == 0,
{
    law_split_sizes(count, order, train, test);
}

/// Over `count` frames, at least four, there are `count - 3` windows; eight tenths of
/// them, rounded down, are for training, and all others for testing. In the order of
/// the shuffle, those for training come first.
pub proof fn law_split_in_numbers(
    count: nat,
    order: Seq<nat>,
    train: Seq<Seq<usize>>,
    test: Seq<Seq<usize>>,
)
    requires
        is_split(count, order, train, test),
        4 <= count <= usize::MAX,
    ensures
        train.len() + test.len() == count - 3,
        train.len() == (count - 3) * 8 / 10,
        forall|k: int|
            #![trigger train[k]]
            0 <= k < train.len() ==> train[k].len() == 4 && train[k][0] == order[k],
        forall|k: int|
            #![trigger test[k]]
            0 <= k < test.len() ==> test[k].len() == 4 && test[k][0] == order[train.len() + k],
{
    law_share_in_numbers(count, order, 0, 8, train);
    law_share_in_numbers(count, order, 8, 10, test);
}

/// Every four neighbouring frames, from any place on, are used for training or for
/// testing.
pub proof fn law_every_four_frames_are_used(
    count: nat,
    order: Seq<nat>,
    train: Seq<Seq<usize>>,
    test: Seq<Seq<usize>>,
    i: int,
)
    requires
        is_split(count, order, train, test),
        count <= usize::MAX,
        0 <= i,
        i + 4 <= count,
    ensures
        ({
            let window = seq![i as usize, (i + 1) as usize, (i + 2) as usize, (i + 3) as usize];
            train.contains(window) || test.contains(window)
        }),
{
    let window = seq![i as usize, (i + 1) as usize, (i + 2) as usize, (i + 3) as usize];
    law_split_is_complete(count, order, train, test, i);
    assert(frame_windows(count)[i] =~= window);
}

/// No frame is left out: each is in a window that is used for training or testing.
pub proof fn law_every_frame_is_used(
    count: nat,
    order: Seq<nat>,
    train: Seq<Seq<usize>>,
    test: Seq<Seq<usize>>,
    frame: usize,
)
    requires
        is_split(count, order, train, test),
        4 <= count <= usize::MAX,
        frame < count,
    ensures
        exists|window: Seq<usize>|
            (train.contains(window) || test.contains(window)) && #[trigger] window.contains(frame),
{
    let i = if frame + 4 <= count { frame as int } else { count - 4 };
    law_every_four_frames_are_used(count, order, train, test, i);
    let window = seq![i as usize, (i + 1) as usize, (i + 2) as usize, (i + 3) as usize];
    assert(window[frame - i] == frame);
    assert(window.contains(frame));
}


} // verus!
