//! Stretches of a playlist between segments whose start time is known, and the choice
//! of the segment to look at next.

use super::{OneSegmentTime, SegmentRange};
use std::cmp::Ordering;
use std::collections::HashSet;
use vstd::prelude::*;

verus! {

broadcast use vstd::std_specs::hash::group_hash_axioms;

/// A run of segments whose start times are not known, and the times around it. Items are
/// compared by how long they last.
#[derive(Debug, Clone, Copy)]
pub struct Item {
    pub segments: SegmentRange,
    pub segment_start_time: i64,
    pub segment_end_time: i64,
}

/// How long an item lasts; never negative.
pub open spec fn item_duration(item: Item) -> nat {
    if item.segment_end_time > item.segment_start_time {
        (item.segment_end_time - item.segment_start_time) as nat
    } else {
        0
    }
}

/// Whether segment `i` belongs to the item and is not forbidden.
pub open spec fn is_free(item: Item, forbidden: Set<usize>, i: int) -> bool {
    item.segments.start <= i < item.segments.end && !forbidden.contains(i as usize)
}

/// Whether the item has a segment that is not forbidden.
pub open spec fn has_free(item: Item, forbidden: Set<usize>) -> bool {
    exists|i: int| #[trigger] is_free(item, forbidden, i)
}

/// The segment in the middle of an item; the later one of two.
pub open spec fn middle(item: Item) -> int {
    item.segments.start + (item.segments.end - item.segments.start) / 2
}

/// How far segment `i` is from the middle of an item.
pub open spec fn from_middle(item: Item, i: int) -> int {
    if i < middle(item) {
        middle(item) - i
    } else {
        i - middle(item)
    }
}

/// Whether `r` is the segment to look at: of those that are not forbidden the one
/// closest to the middle, and the earlier one of two.
pub open spec fn is_next_index(item: Item, forbidden: Set<usize>, r: int) -> bool {
    &&& is_free(item, forbidden, r)
    &&& forall|j: int| #[trigger]
        is_free(item, forbidden, j) ==> from_middle(item, r) < from_middle(item, j) || (
        from_middle(item, r) == from_middle(item, j) && r <= j)
}

/// Whether a segment of the item can be chosen. An item without segments offers the one
/// that it starts with.
pub open spec fn can_choose(item: Item, forbidden: Set<usize>) -> bool {
    ||| has_free(item, forbidden)
    ||| item.segments.start == item.segments.end && !forbidden.contains(item.segments.start)
}

/// Whether `r` is the segment that is chosen from an item.
pub open spec fn is_choice(item: Item, forbidden: Set<usize>, r: usize) -> bool {
    if has_free(item, forbidden) {
        is_next_index(item, forbidden, r as int)
    } else {
        r == item.segments.start
    }
}

impl Item {
    /// How long the item lasts.
    pub fn duration(&self) -> (r: u64)
        ensures
            r == item_duration(*self),
    {
        if self.segment_end_time > self.segment_start_time {
            (self.segment_end_time as i128 - self.segment_start_time as i128) as u64
        } else {
            0
        }
    }

    /// Whether every segment of the item is forbidden.
    pub fn is_empty(&self, forbidden: &HashSet<usize>) -> (r: bool)
        ensures
            r == !has_free(*self, forbidden@),
    {
        let mut i: usize = self.segments.start;
        while i < self.segments.end
            invariant
                self.segments.start <= i,
                forall|j: int| i > j ==> !#[trigger] is_free(*self, forbidden@, j),
            decreases self.segments.end - i,
        {
            if !forbidden.contains(&i) {
                assert(is_free(*self, forbidden@, i as int));
                return false;
            }
            i += 1;
        }
        true
    }

    /// The segment to look at next. An item without segments gives its start.
    pub fn middle_index(&self, forbidden: &HashSet<usize>) -> (r: usize)
        requires
            can_choose(*self, forbidden@),
        ensures
            is_choice(*self, forbidden@, r),
    {
        proof {
            if has_free(*self, forbidden@) {
                let i = choose|i: int| #[trigger] is_free(*self, forbidden@, i);
                assert(self.segments.start < self.segments.end);
            }
        }
        let len: usize = self.segments.end - self.segments.start;
        let mid: usize = self.segments.start + len / 2;
        if !forbidden.contains(&mid) {
            assert(len > 0 ==> is_free(*self, forbidden@, mid as int));
            return mid;
        }
        let mut dir: usize = 1;
        while dir <= len / 2
            invariant
                len == self.segments.end - self.segments.start,
                len > 0,
                mid == self.segments.start + len / 2,
                1 <= dir <= len / 2 + 1,
                forall|j: int| #[trigger]
                    is_free(*self, forbidden@, j) ==> from_middle(*self, j) >= dir,
            decreases len / 2 + 1 - dir,
        {
            let lower: usize = mid - dir;
            if !forbidden.contains(&lower) {
                assert(is_free(*self, forbidden@, lower as int));
                return lower;
            }
            assert(!is_free(*self, forbidden@, lower as int));
            if dir < self.segments.end - mid {
                let upper: usize = mid + dir;
                if !forbidden.contains(&upper) {
                    assert(is_free(*self, forbidden@, upper as int));
                    return upper;
                }
            }
            assert(!is_free(*self, forbidden@, mid + dir));
            assert forall|j: int| #[trigger] is_free(*self, forbidden@, j) implies from_middle(
                *self,
                j,
            ) >= dir + 1 by {
                assert(j != lower && j != mid + dir);
            }
            dir += 1;
        }
        assert(forall|j: int| !is_free(*self, forbidden@, j));
        mid
    }
}

impl PartialEq for Item {
    fn eq(&self, other: &Self) -> (r: bool) {
        self.duration() == other.duration()
    }
}

impl vstd::std_specs::cmp::PartialEqSpecImpl for Item {
    open spec fn obeys_eq_spec() -> bool {
        true
    }

    open spec fn eq_spec(&self, other: &Self) -> bool {
        item_duration(*self) == item_duration(*other)
    }
}

impl Eq for Item {

}

impl PartialOrd for Item {
    fn partial_cmp(&self, other: &Self) -> (r: Option<Ordering>) {
        if self.duration() < other.duration() {
            Some(Ordering::Less)
        } else if self.duration() == other.duration() {
            Some(Ordering::Equal)
        } else {
            Some(Ordering::Greater)
        }
    }
}

impl vstd::std_specs::cmp::PartialOrdSpecImpl for Item {
    open spec fn obeys_partial_cmp_spec() -> bool {
        true
    }

    open spec fn partial_cmp_spec(&self, other: &Self) -> Option<Ordering> {
        if item_duration(*self) < item_duration(*other) {
            Some(Ordering::Less)
        } else if item_duration(*self) == item_duration(*other) {
            Some(Ordering::Equal)
        } else {
            Some(Ordering::Greater)
        }
    }
}

/// The position of the longest item, the first one of several.
pub open spec fn longest(ranges: Seq<Item>) -> int
    decreases ranges.len(),
{
    if ranges.len() <= 1 {
        0
    } else {
        let before = longest(ranges.drop_last());
        if item_duration(ranges.last()) > item_duration(ranges[before]) {
            ranges.len() - 1
        } else {
            before
        }
    }
}

/// No item lasts longer than the one that is chosen.
pub proof fn longest_is_longest(ranges: Seq<Item>)
    requires
        ranges.len() > 0,
    ensures
        0 <= longest(ranges) < ranges.len(),
        forall|k: int|
            0 <= k < ranges.len() ==> item_duration(#[trigger] ranges[k]) <= item_duration(
                ranges[longest(ranges)],
            ),
    decreases ranges.len(),
{
    if ranges.len() > 1 {
        longest_is_longest(ranges.drop_last());
        assert(forall|k: int|
            0 <= k < ranges.len() - 1 ==> ranges.drop_last()[k] == #[trigger] ranges[k]);
    }
}

fn find_longest(ranges: &Vec<Item>) -> (r: usize)
    requires
        ranges@.len() > 0,
    ensures
        r == longest(ranges@),
        r < ranges@.len(),
{
    let mut best: usize = 0;
    assert(ranges@.take(1).len() == 1);
    for i in 1..ranges.len()
        invariant
            ranges@.len() > 0,
            best < i,
            best == longest(ranges@.take(i as int)),
    {
        assert(ranges@.take(i + 1).drop_last() =~= ranges@.take(i as int));
        if ranges[i] > ranges[best] {
            best = i;
        }
    }
    assert(ranges@.take(ranges@.len() as int) =~= ranges@);
    best
}

/// Whether two items have no segment in common.
pub open spec fn apart(a: Item, b: Item) -> bool {
    a.segments.end <= b.segments.start || b.segments.end <= a.segments.start
}

/// Whether no two items have a segment in common.
pub open spec fn all_apart(ranges: Seq<Item>) -> bool {
    forall|k: int, l: int|
        0 <= k < l < ranges.len() ==> apart(#[trigger] ranges[k], #[trigger] ranges[l])
}

/// Whether every item has a segment that is not forbidden.
pub open spec fn all_free(ranges: Seq<Item>, forbidden: Set<usize>) -> bool {
    forall|k: int| 0 <= k < ranges.len() ==> has_free(#[trigger] ranges[k], forbidden)
}

/// The segments that can still be looked at.
pub open spec fn open_indices(ranges: Seq<Item>, forbidden: Set<usize>) -> Set<int> {
    Set::new(
        |i: int| exists|k: int| 0 <= k < ranges.len() && is_free(#[trigger] ranges[k], forbidden, i),
    )
}

/// The items of a playlist that remain to be looked at.
pub struct Interval {
    pub ranges: Vec<Item>,
    pub forbidden: HashSet<usize>,
}

impl Interval {
    /// Every item has a segment to look at, and no two share one.
    pub open spec fn well_formed(&self) -> bool {
        all_free(self.ranges@, self.forbidden@) && all_apart(self.ranges@)
    }

    /// The segments that can still be looked at.
    pub open spec fn open(&self) -> Set<int> {
        open_indices(self.ranges@, self.forbidden@)
    }
}

/// What is left of an item before segment `index`, once that segment's time is known.
pub open spec fn before(item: Item, index: usize, time: i64) -> Item {
    Item {
        segments: SegmentRange { start: item.segments.start, end: index },
        segment_start_time: item.segment_start_time,
        segment_end_time: time,
    }
}

/// What is left of an item behind segment `index`, once that segment's time is known.
pub open spec fn behind(item: Item, index: usize, time: i64) -> Item {
    Item {
        segments: SegmentRange { start: (index + 1) as usize, end: item.segments.end },
        segment_start_time: time,
        segment_end_time: item.segment_end_time,
    }
}

/// The items with one more, unless it has no segment to look at.
pub open spec fn with_item(ranges: Seq<Item>, item: Item, forbidden: Set<usize>) -> Seq<Item> {
    if has_free(item, forbidden) {
        ranges.push(item)
    } else {
        ranges
    }
}

/// The items once the longest one was split at a segment whose time is known.
pub open spec fn split_ranges(
    ranges: Seq<Item>,
    forbidden: Set<usize>,
    index: usize,
    time: i64,
) -> Seq<Item> {
    let item = ranges[longest(ranges)];
    let rest = ranges.remove(longest(ranges));
    with_item(
        with_item(rest, before(item, index, time), forbidden),
        behind(item, index, time),
        forbidden,
    )
}

/// The items once a segment of the longest one was forbidden.
pub open spec fn ranges_without(
    ranges: Seq<Item>,
    forbidden: Set<usize>,
    index: usize,
) -> Seq<Item> {
    if has_free(ranges[longest(ranges)], forbidden.insert(index)) {
        ranges
    } else {
        ranges.remove(longest(ranges))
    }
}

proof fn with_item_open(ranges: Seq<Item>, item: Item, forbidden: Set<usize>)
    requires
        all_free(ranges, forbidden),
        all_apart(ranges),
        forall|k: int| 0 <= k < ranges.len() ==> apart(#[trigger] ranges[k], item),
    ensures
        all_free(with_item(ranges, item, forbidden), forbidden),
        all_apart(with_item(ranges, item, forbidden)),
        forall|i: int| #[trigger]
            open_indices(with_item(ranges, item, forbidden), forbidden).contains(i) <==> (
            open_indices(ranges, forbidden).contains(i) || is_free(item, forbidden, i)),
{
    let longer = with_item(ranges, item, forbidden);
    assert forall|i: int| #[trigger] open_indices(longer, forbidden).contains(i) <==> (
    open_indices(ranges, forbidden).contains(i) || is_free(item, forbidden, i)) by {
        if is_free(item, forbidden, i) {
            assert(has_free(item, forbidden));
            assert(is_free(longer[ranges.len() as int], forbidden, i));
        }
        if open_indices(ranges, forbidden).contains(i) {
            let k = choose|k: int|
                0 <= k < ranges.len() && is_free(#[trigger] ranges[k], forbidden, i);
            assert(is_free(longer[k], forbidden, i));
        }
        if open_indices(longer, forbidden).contains(i) {
            let k = choose|k: int|
                0 <= k < longer.len() && is_free(#[trigger] longer[k], forbidden, i);
            if k < ranges.len() {
                assert(is_free(ranges[k], forbidden, i));
            }
        }
    }
}

proof fn without_item_open(ranges: Seq<Item>, n: int, forbidden: Set<usize>)
    requires
        all_free(ranges, forbidden),
        all_apart(ranges),
        0 <= n < ranges.len(),
    ensures
        all_free(ranges.remove(n), forbidden),
        all_apart(ranges.remove(n)),
        forall|k: int|
            0 <= k < ranges.remove(n).len() ==> apart(
                #[trigger] ranges.remove(n)[k],
                ranges[n],
            ),
        forall|i: int| #[trigger]
            open_indices(ranges.remove(n), forbidden).contains(i) <==> (open_indices(
                ranges,
                forbidden,
            ).contains(i) && !is_free(ranges[n], forbidden, i)),
{
    let rest = ranges.remove(n);
    assert forall|i: int| #[trigger] open_indices(rest, forbidden).contains(i) <==> (
    open_indices(ranges, forbidden).contains(i) && !is_free(ranges[n], forbidden, i)) by {
        if open_indices(rest, forbidden).contains(i) {
            let k = choose|k: int| 0 <= k < rest.len() && is_free(#[trigger] rest[k], forbidden, i);
            let j = if k < n {
                k
            } else {
                k + 1
            };
            assert(is_free(ranges[j], forbidden, i));
            assert(apart(ranges[j], ranges[n]) || apart(ranges[n], ranges[j]));
        }
        if open_indices(ranges, forbidden).contains(i) && !is_free(ranges[n], forbidden, i) {
            let k = choose|k: int|
                0 <= k < ranges.len() && is_free(#[trigger] ranges[k], forbidden, i);
            let j = if k < n {
                k
            } else {
                k - 1
            };
            assert(is_free(rest[j], forbidden, i));
        }
    }
}

/// Splitting an item at one of its segments closes that segment and no other.
proof fn split_open(ranges: Seq<Item>, n: int, forbidden: Set<usize>, index: usize, time: i64)
    requires
        all_free(ranges, forbidden),
        all_apart(ranges),
        0 <= n < ranges.len(),
        ranges[n].segments.start <= index < ranges[n].segments.end,
    ensures
        ({
            let rest = ranges.remove(n);
            let one = with_item(rest, before(ranges[n], index, time), forbidden);
            let two = with_item(one, behind(ranges[n], index, time), forbidden);
            &&& all_free(two, forbidden)
            &&& all_apart(two)
            &&& open_indices(two, forbidden) == open_indices(ranges, forbidden).remove(index as int)
        }),
{
    let item = ranges[n];
    let rest = ranges.remove(n);
    let first = before(item, index, time);
    let second = behind(item, index, time);
    let one = with_item(rest, first, forbidden);
    let two = with_item(one, second, forbidden);
    without_item_open(ranges, n, forbidden);
    with_item_open(rest, first, forbidden);
    with_item_open(one, second, forbidden);
    assert forall|i: int|
        open_indices(two, forbidden).contains(i) <==> open_indices(ranges, forbidden).remove(
            index as int,
        ).contains(i) by {
        assert(is_free(item, forbidden, i) && i != index <==> is_free(first, forbidden, i)
            || is_free(second, forbidden, i));
        assert(open_indices(one, forbidden).contains(i) <==> open_indices(rest, forbidden).contains(
            i,
        ) || is_free(first, forbidden, i));
        assert(open_indices(two, forbidden).contains(i) <==> open_indices(one, forbidden).contains(
            i,
        ) || is_free(second, forbidden, i));
        assert(open_indices(rest, forbidden).contains(i) <==> open_indices(
            ranges,
            forbidden,
        ).contains(i) && !is_free(item, forbidden, i));
        if is_free(item, forbidden, i) {
            assert(is_free(ranges[n], forbidden, i));
        }
        if open_indices(rest, forbidden).contains(i) {
            let k = choose|k: int| 0 <= k < rest.len() && is_free(#[trigger] rest[k], forbidden, i);
            assert(apart(rest[k], item));
        }
    }
    assert(open_indices(two, forbidden) =~= open_indices(ranges, forbidden).remove(index as int));
}

/// Forbidding a segment of the longest item closes that segment and no other.
proof fn without_open(ranges: Seq<Item>, forbidden: Set<usize>, index: usize)
    requires
        all_free(ranges, forbidden),
        all_apart(ranges),
        ranges.len() > 0,
        is_free(ranges[longest(ranges)], forbidden, index as int),
    ensures
        all_free(ranges_without(ranges, forbidden, index), forbidden.insert(index)),
        all_apart(ranges_without(ranges, forbidden, index)),
        open_indices(ranges_without(ranges, forbidden, index), forbidden.insert(index))
            == open_indices(ranges, forbidden).remove(index as int),
{
    let n = longest(ranges);
    longest_is_longest(ranges);
    let after = ranges_without(ranges, forbidden, index);
    let more = forbidden.insert(index);
    without_item_open(ranges, n, forbidden);
    assert forall|k: int| 0 <= k < after.len() implies has_free(#[trigger] after[k], more) by {
        let j = if after.len() == ranges.len() || k < n {
            k
        } else {
            k + 1
        };
        assert(after[k] == ranges[j]);
        if j != n {
            let i = choose|i: int| #[trigger] is_free(ranges[j], forbidden, i);
            assert(apart(ranges[j], ranges[n]) || apart(ranges[n], ranges[j]));
            assert(is_free(ranges[j], more, i));
        }
    }
    assert forall|i: int|
        open_indices(after, more).contains(i) <==> open_indices(ranges, forbidden).remove(
            index as int,
        ).contains(i) by {
        if open_indices(after, more).contains(i) {
            let k = choose|k: int| 0 <= k < after.len() && is_free(#[trigger] after[k], more, i);
            let j = if after.len() == ranges.len() || k < n {
                k
            } else {
                k + 1
            };
            assert(is_free(ranges[j], forbidden, i));
        }
        if open_indices(ranges, forbidden).contains(i) && i != index {
            let k = choose|k: int|
                0 <= k < ranges.len() && is_free(#[trigger] ranges[k], forbidden, i);
            if after.len() == ranges.len() {
                assert(is_free(after[k], more, i));
            } else {
                if k == n {
                    assert(is_free(ranges[n], more, i));
                }
                let j = if k < n {
                    k
                } else {
                    k - 1
                };
                assert(is_free(after[j], more, i));
            }
        }
    }
    assert(open_indices(after, more) =~= open_indices(ranges, forbidden).remove(index as int));
}

/// Whether an item starts where the playlist does, or behind a segment of `known`, at
/// that segment's time.
pub open spec fn start_known(item: Item, known: Seq<OneSegmentTime>) -> bool {
    ||| item.segments.start == 0 && item.segment_start_time == 0
    ||| exists|j: int|
        0 <= j < known.len() && (#[trigger] known[j]).segment_index + 1 == item.segments.start
            && known[j].start_time == item.segment_start_time
}

/// Whether an item ends where the playlist does, or before a segment of `known`, at
/// that segment's time.
pub open spec fn end_known(
    item: Item,
    known: Seq<OneSegmentTime>,
    count: usize,
    duration: i64,
) -> bool {
    ||| item.segments.end == count && item.segment_end_time == duration
    ||| exists|j: int|
        0 <= j < known.len() && (#[trigger] known[j]).segment_index == item.segments.end
            && known[j].start_time == item.segment_end_time
}

/// Whether every item lies between two times that are known.
pub open spec fn between_known(
    ranges: Seq<Item>,
    known: Seq<OneSegmentTime>,
    count: usize,
    duration: i64,
) -> bool {
    forall|k: int|
        0 <= k < ranges.len() ==> start_known(#[trigger] ranges[k], known) && end_known(
            ranges[k],
            known,
            count,
            duration,
        )
}

/// The segments of a playlist whose time is not known.
pub open spec fn unknown_indices(count: usize, known: Seq<OneSegmentTime>) -> Set<int> {
    Set::new(
        |i: int|
            0 <= i < count && forall|j: int|
                0 <= j < known.len() ==> (#[trigger] known[j]).segment_index != i,
    )
}

/// Splitting any item at a segment keeps every item between two known times.
proof fn split_between_known(
    ranges: Seq<Item>,
    n: int,
    forbidden: Set<usize>,
    known: Seq<OneSegmentTime>,
    count: usize,
    duration: i64,
    one: OneSegmentTime,
)
    requires
        between_known(ranges, known, count, duration),
        0 <= n < ranges.len(),
        one.segment_index < ranges[n].segments.end,
    ensures
        ({
            let first = before(ranges[n], one.segment_index, one.start_time);
            let second = behind(ranges[n], one.segment_index, one.start_time);
            between_known(
                with_item(with_item(ranges.remove(n), first, forbidden), second, forbidden),
                known.push(one),
                count,
                duration,
            )
        }),
{
    let more = known.push(one);
    let item = ranges[n];
    let first = before(item, one.segment_index, one.start_time);
    let second = behind(item, one.segment_index, one.start_time);
    assert forall|it: Item| start_known(it, known) implies #[trigger] start_known(it, more) by {
        if !(it.segments.start == 0 && it.segment_start_time == 0) {
            let j = choose|j: int|
                0 <= j < known.len() && (#[trigger] known[j]).segment_index + 1
                    == it.segments.start && known[j].start_time == it.segment_start_time;
            assert(more[j] == known[j]);
        }
    }
    assert forall|it: Item| end_known(it, known, count, duration) implies #[trigger] end_known(
        it,
        more,
        count,
        duration,
    ) by {
        if !(it.segments.end == count && it.segment_end_time == duration) {
            let j = choose|j: int|
                0 <= j < known.len() && (#[trigger] known[j]).segment_index == it.segments.end
                    && known[j].start_time == it.segment_end_time;
            assert(more[j] == known[j]);
        }
    }
    assert(more[known.len() as int] == one);
    assert(start_known(item, more) && end_known(item, more, count, duration));
    assert(start_known(first, more)) by {
        if !(item.segments.start == 0 && item.segment_start_time == 0) {
            let j = choose|j: int|
                0 <= j < more.len() && (#[trigger] more[j]).segment_index + 1 == item.segments.start
                    && more[j].start_time == item.segment_start_time;
            assert(more[j].segment_index + 1 == first.segments.start);
        }
    }
    assert(end_known(second, more, count, duration)) by {
        if !(item.segments.end == count && item.segment_end_time == duration) {
            let j = choose|j: int|
                0 <= j < more.len() && (#[trigger] more[j]).segment_index == item.segments.end
                    && more[j].start_time == item.segment_end_time;
            assert(more[j].segment_index == second.segments.end);
        }
    }
    let rest = ranges.remove(n);
    assert forall|k: int| 0 <= k < rest.len() implies start_known(#[trigger] rest[k], more)
        && end_known(rest[k], more, count, duration) by {
        let j = if k < n {
            k
        } else {
            k + 1
        };
        assert(rest[k] == ranges[j]);
    }
}

impl Interval {
    /// The items between the segments whose times are known already.
    pub fn new(
        segments_count: usize,
        duration: i64,
        initial_segments: &Vec<OneSegmentTime>,
    ) -> (r: Self)
        requires
            forall|i: int|
                0 <= i < initial_segments@.len() ==> (#[trigger] initial_segments@[i]).segment_index
                    < segments_count,
            forall|i: int, j: int|
                0 <= i < j < initial_segments@.len() ==> (
                #[trigger] initial_segments@[i]).segment_index != (
                #[trigger] initial_segments@[j]).segment_index,
        ensures
            r.forbidden@ == Set::<usize>::empty(),
            segments_count > 0 ==> r.well_formed(),
            r.open() == unknown_indices(segments_count, initial_segments@),
            between_known(r.ranges@, initial_segments@, segments_count, duration),
            initial_segments@.len() == 0 ==> r.ranges@ == seq![
                Item {
                    segments: SegmentRange { start: 0, end: segments_count },
                    segment_start_time: 0,
                    segment_end_time: duration,
                },
            ],
    {
        let forbidden: HashSet<usize> = HashSet::new();
        let mut ranges: Vec<Item> = Vec::new();
        ranges.push(
            Item {
                segments: SegmentRange { start: 0, end: segments_count },
                segment_start_time: 0,
                segment_end_time: duration,
            },
        );
        let ghost known = initial_segments@;
        proof {
            assert(known.take(0) =~= Seq::empty());
            assert forall|i: int| 0 <= i < segments_count implies is_free(
                ranges@[0],
                forbidden@,
                i,
            ) by {}
            if segments_count > 0 {
                assert(is_free(ranges@[0], forbidden@, 0));
            }
            assert(open_indices(ranges@, forbidden@) =~= unknown_indices(
                segments_count,
                known.take(0),
            ));
        }
        for n in 0..initial_segments.len()
            invariant
                known == initial_segments@,
                forbidden@ == Set::<usize>::empty(),
                forall|i: int|
                    0 <= i < known.len() ==> (#[trigger] known[i]).segment_index < segments_count,
                forall|i: int, j: int|
                    0 <= i < j < known.len() ==> (#[trigger] known[i]).segment_index != (
                    #[trigger] known[j]).segment_index,
                segments_count > 0 ==> all_free(ranges@, forbidden@),
                all_apart(ranges@),
                open_indices(ranges@, forbidden@) == unknown_indices(
                    segments_count,
                    known.take(n as int),
                ),
                between_known(ranges@, known.take(n as int), segments_count, duration),
                n == 0 ==> ranges@.len() == 1 && ranges@[0] == (Item {
                    segments: SegmentRange { start: 0, end: segments_count },
                    segment_start_time: 0,
                    segment_end_time: duration,
                }),
        {
            let one = initial_segments[n];
            assert(known[n as int] == one);
            let ghost old_ranges = ranges@;
            let ghost target = one.segment_index as int;
            assert(open_indices(ranges@, forbidden@).contains(target)) by {
                assert forall|j: int| 0 <= j < n implies (#[trigger] known.take(
                    n as int,
                )[j]).segment_index != target by {
                    assert(known[j].segment_index != known[n as int].segment_index);
                }
            }
            let len: usize = ranges.len();
            let mut at: usize = 0;
            while !(ranges[at].segments.start <= one.segment_index && one.segment_index
                < ranges[at].segments.end)
                invariant
                    ranges@ == old_ranges,
                    ranges@.len() == len,
                    at < len,
                    target == one.segment_index,
                    exists|k: int|
                        at <= k < ranges@.len() && is_free(
                            #[trigger] ranges@[k],
                            forbidden@,
                            target,
                        ),
                decreases ranges@.len() - at,
            {
                at += 1;
            }
            let element = ranges.swap_remove(at);
            let ghost swapped = ranges@;
            let first = Item {
                segments: SegmentRange { start: element.segments.start, end: one.segment_index },
                segment_start_time: element.segment_start_time,
                segment_end_time: one.start_time,
            };
            let second = Item {
                segments: SegmentRange { start: one.segment_index + 1, end: element.segments.end },
                segment_start_time: one.start_time,
                segment_end_time: element.segment_end_time,
            };
            if !first.is_empty(&forbidden) {
                ranges.push(first);
            }
            if !second.is_empty(&forbidden) {
                ranges.push(second);
            }
            proof {
                let last = old_ranges.len() - 1;
                let moved = old_ranges.update(at as int, old_ranges[last]).update(last, element);
                swap_same(old_ranges, at as int, last, forbidden@);
                assert(moved.remove(last) =~= swapped);
                split_open(moved, last, forbidden@, one.segment_index, one.start_time);
                swap_between(old_ranges, at as int, last, known.take(n as int), segments_count, duration);
                split_between_known(
                    moved,
                    last,
                    forbidden@,
                    known.take(n as int),
                    segments_count,
                    duration,
                    one,
                );
                assert(known.take(n as int).push(one) =~= known.take(n + 1));
                let more = known.take(n + 1);
                assert forall|i: int|
                    unknown_indices(segments_count, known.take(n as int)).remove(target).contains(i)
                        <==> unknown_indices(segments_count, more).contains(i) by {
                    assert forall|j: int| 0 <= j < n implies known.take(n as int)[j]
                        == #[trigger] more[j] by {}
                    if unknown_indices(segments_count, more).contains(i) {
                        assert(more[n as int].segment_index != i);
                        assert forall|j: int| 0 <= j < n implies (#[trigger] known.take(
                            n as int,
                        )[j]).segment_index != i by {
                            assert(more[j].segment_index != i);
                        }
                    }
                }
                assert(unknown_indices(segments_count, known.take(n as int)).remove(target)
                    =~= unknown_indices(segments_count, more));
            }
        }
        assert(known.take(known.len() as int) =~= known);
        Self { ranges, forbidden }
    }
}

/// Exchanging two items changes neither the items nor what is open.
proof fn swap_same(ranges: Seq<Item>, a: int, b: int, forbidden: Set<usize>)
    requires
        0 <= a < ranges.len(),
        0 <= b < ranges.len(),
    ensures
        ({
            let moved = ranges.update(a, ranges[b]).update(b, ranges[a]);
            &&& all_free(ranges, forbidden) ==> all_free(moved, forbidden)
            &&& all_apart(ranges) ==> all_apart(moved)
            &&& open_indices(moved, forbidden) == open_indices(ranges, forbidden)
        }),
{
    let moved = ranges.update(a, ranges[b]).update(b, ranges[a]);
    assert forall|i: int|
        open_indices(moved, forbidden).contains(i) <==> open_indices(ranges, forbidden).contains(
            i,
        ) by {
        if open_indices(moved, forbidden).contains(i) {
            let k = choose|k: int| 0 <= k < moved.len() && is_free(#[trigger] moved[k], forbidden, i);
            let j = if k == a {
                b
            } else if k == b {
                a
            } else {
                k
            };
            assert(is_free(ranges[j], forbidden, i));
        }
        if open_indices(ranges, forbidden).contains(i) {
            let k = choose|k: int|
                0 <= k < ranges.len() && is_free(#[trigger] ranges[k], forbidden, i);
            let j = if k == a {
                b
            } else if k == b {
                a
            } else {
                k
            };
            assert(is_free(moved[j], forbidden, i));
        }
    }
    assert(open_indices(moved, forbidden) =~= open_indices(ranges, forbidden));
    if all_apart(ranges) {
        assert forall|k: int, l: int| 0 <= k < l < moved.len() implies apart(
            #[trigger] moved[k],
            #[trigger] moved[l],
        ) by {
            let k2 = if k == a {
                b
            } else if k == b {
                a
            } else {
                k
            };
            let l2 = if l == a {
                b
            } else if l == b {
                a
            } else {
                l
            };
            assert(moved[k] == ranges[k2] && moved[l] == ranges[l2]);
        }
    }
}

proof fn swap_between(
    ranges: Seq<Item>,
    a: int,
    b: int,
    known: Seq<OneSegmentTime>,
    count: usize,
    duration: i64,
)
    requires
        0 <= a < ranges.len(),
        0 <= b < ranges.len(),
        between_known(ranges, known, count, duration),
    ensures
        between_known(
            ranges.update(a, ranges[b]).update(b, ranges[a]),
            known,
            count,
            duration,
        ),
{
}

/// Whether the items are sound, and the segment is one of the longest item that can be
/// looked at.
pub open spec fn offers(interval: Interval, index: usize) -> bool {
    &&& interval.well_formed()
    &&& interval.ranges@.len() > 0
    &&& is_free(
        interval.ranges@[longest(interval.ranges@)],
        interval.forbidden@,
        index as int,
    )
}

/// A segment to look at, and the items that it was chosen from.
pub struct IntervalItem<'a> {
    pub segment_index: usize,
    pub interval: &'a mut Interval,
}

impl Interval {
    /// The segment to look at next: in the middle of the item that lasts longest.
    /// There is none once there are no items.
    pub fn next_best_to_split(&mut self) -> (r: Option<IntervalItem<'_>>)
        requires
            old(self).ranges@.len() > 0 ==> can_choose(
                old(self).ranges@[longest(old(self).ranges@)],
                old(self).forbidden@,
            ),
        ensures
            r is None <==> old(self).ranges@.len() == 0,
            r is None ==> *final(self) == *old(self),
            r matches Some(item) ==> {
                &&& *item.interval == *old(self)
                &&& *final(self) == *final(item.interval)
                &&& is_choice(
                    old(self).ranges@[longest(old(self).ranges@)],
                    old(self).forbidden@,
                    item.segment_index,
                )
            },
            old(self).well_formed() ==> (r is None <==> old(self).open() =~= Set::<int>::empty()),
            old(self).well_formed() ==> (r matches Some(item) ==> old(self).open().contains(
                item.segment_index as int,
            )),
    {
        if self.ranges.len() == 0 {
            assert(self.open() =~= Set::<int>::empty());
            return None;
        }
        let at: usize = find_longest(&self.ranges);
        let segment_index: usize = self.ranges[at].middle_index(&self.forbidden);
        proof {
            if self.well_formed() {
                assert(has_free(self.ranges@[at as int], self.forbidden@));
                assert(is_free(self.ranges@[at as int], self.forbidden@, segment_index as int));
                assert(self.open().contains(segment_index as int));
            }
        }
        Some(IntervalItem { segment_index, interval: self })
    }
}

impl<'a> IntervalItem<'a> {
    /// The item that the segment is chosen from.
    pub fn item(&self) -> (r: &Item)
        requires
            self.interval.ranges@.len() > 0,
        ensures
            *r == old(self.interval).ranges@[longest(old(self.interval).ranges@)],
    {
        let at: usize = find_longest(&self.interval.ranges);
        &self.interval.ranges[at]
    }

    /// The segment to look at.
    pub fn index(&self) -> (r: usize)
        ensures
            r == self.segment_index,
    {
        self.segment_index
    }

    /// Splits the item at the segment, whose time is now known.
    pub fn split(self, segment_start_time: i64)
        requires
            self.interval.ranges@.len() > 0,
            self.interval.ranges@[longest(self.interval.ranges@)].segments.start
                <= self.segment_index
                <= self.interval.ranges@[longest(self.interval.ranges@)].segments.end,
            self.segment_index < usize::MAX,
        ensures
            final(self.interval).forbidden@ == old(self.interval).forbidden@,
            final(self.interval).ranges@ == split_ranges(
                old(self.interval).ranges@,
                old(self.interval).forbidden@,
                self.segment_index,
                segment_start_time,
            ),
            offers(*old(self.interval), self.segment_index) ==> {
                &&& final(self.interval).well_formed()
                &&& final(self.interval).open() == old(self.interval).open().remove(
                    self.segment_index as int,
                )
            },
    {
        let at: usize = find_longest(&self.interval.ranges);
        let ghost before_ranges = self.interval.ranges@;
        let ghost forbidden = self.interval.forbidden@;
        let element = self.interval.ranges.remove(at);
        let first = Item {
            segments: SegmentRange { start: element.segments.start, end: self.segment_index },
            segment_start_time: element.segment_start_time,
            segment_end_time: segment_start_time,
        };
        let second = Item {
            segments: SegmentRange { start: self.segment_index + 1, end: element.segments.end },
            segment_start_time,
            segment_end_time: element.segment_end_time,
        };
        if !first.is_empty(&self.interval.forbidden) {
            self.interval.ranges.push(first);
        }
        if !second.is_empty(&self.interval.forbidden) {
            self.interval.ranges.push(second);
        }
        proof {
            if offers(*old(self.interval), self.segment_index) {
                split_open(
                    before_ranges,
                    at as int,
                    forbidden,
                    self.segment_index,
                    segment_start_time,
                );
            }
        }
    }

    /// Forbids the segment, whose time cannot be had.
    pub fn remove(self)
        requires
            self.interval.ranges@.len() > 0,
        ensures
            final(self.interval).forbidden@ == old(self.interval).forbidden@.insert(
                self.segment_index,
            ),
            final(self.interval).ranges@ == ranges_without(
                old(self.interval).ranges@,
                old(self.interval).forbidden@,
                self.segment_index,
            ),
            offers(*old(self.interval), self.segment_index) ==> {
                &&& final(self.interval).well_formed()
                &&& final(self.interval).open() == old(self.interval).open().remove(
                    self.segment_index as int,
                )
            },
    {
        let at: usize = find_longest(&self.interval.ranges);
        proof {
            if offers(*self.interval, self.segment_index) {
                without_open(self.interval.ranges@, self.interval.forbidden@, self.segment_index);
            }
        }
        self.interval.forbidden.insert(self.segment_index);
        if self.interval.ranges[at].is_empty(&self.interval.forbidden) {
            self.interval.ranges.remove(at);
        }
    }
}

/// Splitting the longest item at a segment whose time is known keeps every item between
/// two known times.
pub proof fn split_keeps_times(
    ranges: Seq<Item>,
    forbidden: Set<usize>,
    known: Seq<OneSegmentTime>,
    count: usize,
    duration: i64,
    one: OneSegmentTime,
)
    requires
        ranges.len() > 0,
        between_known(ranges, known, count, duration),
        is_free(ranges[longest(ranges)], forbidden, one.segment_index as int),
    ensures
        between_known(
            split_ranges(ranges, forbidden, one.segment_index, one.start_time),
            known.push(one),
            count,
            duration,
        ),
{
    longest_is_longest(ranges);
    split_between_known(ranges, longest(ranges), forbidden, known, count, duration, one);
}

/// Forbidding a segment keeps every item between two known times.
pub proof fn removal_keeps_times(
    ranges: Seq<Item>,
    forbidden: Set<usize>,
    known: Seq<OneSegmentTime>,
    count: usize,
    duration: i64,
    index: usize,
)
    requires
        ranges.len() > 0,
        between_known(ranges, known, count, duration),
    ensures
        between_known(ranges_without(ranges, forbidden, index), known, count, duration),
{
    longest_is_longest(ranges);
}

/// The segment to look at cuts an item into halves, where none of its segments is forbidden: what
/// is left before it and behind it has at most half of the segments each.
pub proof fn next_index_halves(item: Item, r: int)
    requires
        item.segments.start < item.segments.end,
        is_next_index(item, Set::empty(), r),
    ensures
        item.segments.start <= r < item.segments.end,
        2 * (r - item.segments.start) <= item.segments.end - item.segments.start,
        2 * (item.segments.end - r - 1) <= item.segments.end - item.segments.start,
{
    let m = middle(item);
    assert(is_free(item, Set::empty(), m));
    assert(from_middle(item, m) == 0);
}

} // verus!
