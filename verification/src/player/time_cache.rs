//! Finding out when the segments of a playlist start, and keeping what was found.

use super::intervals;
use super::intervals::Interval;
use super::{OneSegmentTime, SegmentInfo};
use std::collections::BTreeMap;
use vstd::prelude::*;

verus! {

broadcast use vstd::std_specs::btree::group_btree_axioms;

/// Whether the times are in the order of their segments, each segment once.
pub open spec fn ascending(times: Seq<OneSegmentTime>) -> bool {
    forall|i: int, j: int|
        0 <= i < j < times.len() ==> (#[trigger] times[i]).segment_index < (
        #[trigger] times[j]).segment_index
}

/// Whether no segment has two times.
pub open spec fn distinct(times: Seq<OneSegmentTime>) -> bool {
    forall|i: int, j: int|
        0 <= i < j < times.len() ==> (#[trigger] times[i]).segment_index != (
        #[trigger] times[j]).segment_index
}

/// Whether every time is that of a segment of the playlist.
pub open spec fn within(times: Seq<OneSegmentTime>, count: usize) -> bool {
    forall|i: int| 0 <= i < times.len() ==> (#[trigger] times[i]).segment_index < count
}

/// Whether the times, in order, are the entries of a table.
pub open spec fn lists(times: Seq<OneSegmentTime>, table: Map<usize, i64>) -> bool {
    &&& ascending(times)
    &&& forall|i: int|
        0 <= i < times.len() ==> table.contains_key((#[trigger] times[i]).segment_index)
            && table[times[i].segment_index] == times[i].start_time
    &&& forall|k: usize| #[trigger]
        table.contains_key(k) ==> exists|i: int|
            0 <= i < times.len() && (#[trigger] times[i]).segment_index == k
}

/// The sum of some durations.
pub open spec fn total(durations: Seq<i64>) -> int
    decreases durations.len(),
{
    if durations.len() == 0 {
        0
    } else {
        total(durations.drop_last()) + durations.last()
    }
}

/// How long a movie lasts: as long as its segments together.
pub fn movie_duration(durations: &Vec<i64>) -> (r: i64)
    ensures
        r == super::to_ticks(total(durations@)),
{
    let mut sum: i128 = 0;
    for i in 0..durations.len()
        invariant
            sum == total(durations@.take(i as int)),
            -0x8000_0000_0000_0000 * i <= sum <= 0x8000_0000_0000_0000 * i,
    {
        assert(durations@.take(i + 1).drop_last() =~= durations@.take(i as int));
        sum = sum + durations[i] as i128;
    }
    assert(durations@.take(durations@.len() as int) =~= durations@);
    super::ticks(sum)
}

proof fn keys_increase(keys: Seq<&usize>)
    requires
        vstd::std_specs::btree::increasing_seq(keys),
    ensures
        forall|i: int, j: int|
            0 <= i < j < keys.len() ==> *(#[trigger] keys[i]) < *(#[trigger] keys[j]),
{
    broadcast use vstd::laws_eq::group_laws_eq;

    reveal(vstd::laws_eq::obeys_eq_spec_properties);
    reveal(vstd::laws_cmp::obeys_partial_cmp_spec_properties);
    reveal(vstd::laws_cmp::obeys_cmp_partial_ord);
    reveal(vstd::laws_cmp::obeys_cmp_ord);
    assert(vstd::laws_cmp::obeys_cmp::<&usize>());
    assert forall|i: int, j: int| 0 <= i < j < keys.len() implies *(#[trigger] keys[i]) < *(
    #[trigger] keys[j]) by {
        assert(vstd::std_specs::cmp::OrdSpec::cmp_spec(&keys[i], &keys[j]) is Less);
    }
}

/// The times that a table holds, in the order of the segments.
pub fn listed(table: &BTreeMap<usize, i64>) -> (r: Vec<OneSegmentTime>)
    ensures
        lists(r@, table@),
{
    let mut out: Vec<OneSegmentTime> = Vec::new();
    let ghost keys = vstd::std_specs::iter::IteratorSpec::remaining(
        &vstd::std_specs::btree::spec_keys_iter(table),
    );
    for key in it: table.keys()
        invariant
            it.seq() == keys,
            keys.unref().to_set() == table@.dom(),
            out@.len() == it.index(),
            forall|i: int|
                0 <= i < out@.len() ==> (#[trigger] out@[i]).segment_index == *keys[i]
                    && table@.contains_key(out@[i].segment_index) && table@[out@[i].segment_index] == out@[i].start_time,
    {
        proof {
            assert(keys.unref().contains(*key)) by {
                assert(keys.unref()[it.index()] == *key);
            }
            assert(table@.dom().contains(*key));
        }
        match table.get(key) {
            Some(time) => {
                out.push(OneSegmentTime { segment_index: *key, start_time: *time });
            },
            None => {},
        }
    }
    proof {
        assert forall|k: usize| #[trigger] table@.contains_key(k) implies exists|i: int|
            0 <= i < out@.len() && (#[trigger] out@[i]).segment_index == k by {
            assert(keys.unref().to_set().contains(k));
            let i = choose|i: int| 0 <= i < keys.len() && keys.unref()[i] == k;
            assert(out@[i].segment_index == k);
        }
        assert(ascending(out@)) by {
            assert forall|i: int, j: int| 0 <= i < j < out@.len() implies (
            #[trigger] out@[i]).segment_index < (#[trigger] out@[j]).segment_index by {
                keys_increase(keys);
            }
        }
    }
    out
}

/// What a search does next.
#[derive(Debug, Clone, Copy, PartialEq, Eq, Structural)]
pub enum SearchStep {
    /// Find out when this segment starts.
    Fetch(usize),
    /// Stop: enough is known.
    Done,
}

/// A search for the start times of enough segments of a playlist: so many that no run of
/// segments between two known times lasts for the interval that is allowed, or longer.
pub struct TimeSearch {
    pub intervals: Interval,
    pub times: Vec<OneSegmentTime>,
    pub changed: bool,
    pub segments_count: usize,
    pub movie_duration: i64,
    pub max_interval: i64,
}

impl TimeSearch {
    /// The segments that the search may still ask for.
    pub open spec fn open(&self) -> Set<int> {
        self.intervals.open()
    }

    /// Every segment has at most one time; the segments that may be asked for are those
    /// without a time, but for those that failed; every item lies between known times.
    pub open spec fn well_formed(&self) -> bool {
        &&& distinct(self.times@)
        &&& within(self.times@, self.segments_count)
        &&& self.segments_count > 0 ==> self.intervals.well_formed()
        &&& forall|i: int| #[trigger]
            self.open().contains(i) <==> intervals::unknown_indices(
                self.segments_count,
                self.times@,
            ).contains(i) && !self.intervals.forbidden@.contains(i as usize)
        &&& intervals::between_known(
            self.intervals.ranges@,
            self.times@,
            self.segments_count,
            self.movie_duration,
        )
    }

    /// The item that lasts longest.
    pub open spec fn longest_item(&self) -> intervals::Item {
        self.intervals.ranges@[intervals::longest(self.intervals.ranges@)]
    }

    /// Whether an item is left that lasts too long.
    pub open spec fn unfinished(&self) -> bool {
        &&& self.segments_count > 0
        &&& self.intervals.ranges@.len() > 0
        &&& intervals::item_duration(self.longest_item()) >= self.max_interval
    }

    /// Whether the search asks for segment `index`.
    pub open spec fn asks_for(&self, index: usize) -> bool {
        &&& self.unfinished()
        &&& intervals::is_next_index(
            self.longest_item(),
            self.intervals.forbidden@,
            index as int,
        )
    }

    /// Starts from the times that are known. `changed` says whether these differ from
    /// what is kept.
    pub fn new(
        times: Vec<OneSegmentTime>,
        segments_count: usize,
        movie_duration: i64,
        max_interval: i64,
        changed: bool,
    ) -> (r: Self)
        requires
            distinct(times@),
            within(times@, segments_count),
        ensures
            r.well_formed(),
            r.times@ == times@,
            r.changed == changed,
            r.segments_count == segments_count,
            r.movie_duration == movie_duration,
            r.max_interval == max_interval,
            r.intervals.forbidden@ == Set::<usize>::empty(),
            r.open() == intervals::unknown_indices(segments_count, times@),
    {
        let intervals = Interval::new(segments_count, movie_duration, &times);
        Self { intervals, times, changed, segments_count, movie_duration, max_interval }
    }

    /// What to do next.
    pub fn next(&mut self) -> (r: SearchStep)
        requires
            old(self).well_formed(),
        ensures
            *final(self) == *old(self),
            r matches SearchStep::Fetch(index) ==> old(self).asks_for(index),
            r is Done ==> !old(self).unfinished(),
    {
        if self.segments_count == 0 {
            return SearchStep::Done;
        }
        proof {
            self.longest_has_free();
        }
        match self.intervals.next_best_to_split() {
            None => SearchStep::Done,
            Some(next) => {
                let duration: u64 = next.item().duration();
                if (duration as i128) < self.max_interval as i128 {
                    SearchStep::Done
                } else {
                    SearchStep::Fetch(next.index())
                }
            },
        }
    }

    proof fn longest_has_free(&self)
        requires
            self.well_formed(),
        ensures
            self.segments_count > 0 && self.intervals.ranges@.len() > 0 ==> intervals::has_free(
                self.longest_item(),
                self.intervals.forbidden@,
            ),
    {
        if self.intervals.ranges@.len() > 0 {
            intervals::longest_is_longest(self.intervals.ranges@);
        }
    }

    /// Takes the start time of the segment that was asked for.
    pub fn found(&mut self, index: usize, start_time: i64)
        requires
            old(self).well_formed(),
            old(self).asks_for(index),
        ensures
            final(self).well_formed(),
            final(self).times@ == old(self).times@.push(
                OneSegmentTime { segment_index: index, start_time },
            ),
            final(self).changed,
            final(self).segments_count == old(self).segments_count,
            final(self).movie_duration == old(self).movie_duration,
            final(self).max_interval == old(self).max_interval,
            final(self).intervals.forbidden@ == old(self).intervals.forbidden@,
            final(self).intervals.ranges@ == intervals::split_ranges(
                old(self).intervals.ranges@,
                old(self).intervals.forbidden@,
                index,
                start_time,
            ),
            final(self).open() == old(self).open().remove(index as int),
    {
        let one = OneSegmentTime { segment_index: index, start_time };
        proof {
            self.longest_has_free();
            intervals::longest_is_longest(self.intervals.ranges@);
            intervals::split_keeps_times(
                self.intervals.ranges@,
                self.intervals.forbidden@,
                self.times@,
                self.segments_count,
                self.movie_duration,
                one,
            );
            assert(intervals::is_free(
                self.intervals.ranges@[intervals::longest(self.intervals.ranges@)],
                self.intervals.forbidden@,
                index as int,
            ));
            assert(self.open().contains(index as int));
        }
        match self.intervals.next_best_to_split() {
            None => {},
            Some(next) => {
                assert(next.segment_index == index);
                next.split(start_time);
            },
        }
        self.times.push(one);
        self.changed = true;
        proof {
            let known = old(self).times@;
            let more = self.times@;
            let count = self.segments_count;
            assert forall|i: int|
                intervals::unknown_indices(count, more).contains(i)
                    <==> intervals::unknown_indices(count, known).contains(i) && i != index by {
                assert(more[known.len() as int] == one);
                if intervals::unknown_indices(count, more).contains(i) {
                    assert forall|j: int| 0 <= j < known.len() implies (
                    #[trigger] known[j]).segment_index != i by {
                        assert(more[j].segment_index != i);
                    }
                }
            }
            assert forall|i: int, j: int| 0 <= i < j < more.len() implies (
            #[trigger] more[i]).segment_index != (#[trigger] more[j]).segment_index by {
                if j == known.len() {
                    assert(known[i].segment_index != index);
                }
            }
            assert forall|i: int| #[trigger] self.open().contains(i)
                <==> intervals::unknown_indices(count, more).contains(i)
                && !self.intervals.forbidden@.contains(i as usize) by {
                assert(old(self).open().contains(i) <==> intervals::unknown_indices(
                    count,
                    known,
                ).contains(i) && !self.intervals.forbidden@.contains(i as usize));
            }
        }
    }

    /// Takes note that the start time of the segment that was asked for cannot be had.
    pub fn failed(&mut self, index: usize)
        requires
            old(self).well_formed(),
            old(self).asks_for(index),
        ensures
            final(self).well_formed(),
            final(self).times@ == old(self).times@,
            final(self).changed == old(self).changed,
            final(self).segments_count == old(self).segments_count,
            final(self).movie_duration == old(self).movie_duration,
            final(self).max_interval == old(self).max_interval,
            final(self).intervals.forbidden@ == old(self).intervals.forbidden@.insert(index),
            final(self).intervals.ranges@ == intervals::ranges_without(
                old(self).intervals.ranges@,
                old(self).intervals.forbidden@,
                index,
            ),
            final(self).open() == old(self).open().remove(index as int),
    {
        proof {
            self.longest_has_free();
            intervals::longest_is_longest(self.intervals.ranges@);
            intervals::removal_keeps_times(
                self.intervals.ranges@,
                self.intervals.forbidden@,
                self.times@,
                self.segments_count,
                self.movie_duration,
                index,
            );
        }
        match self.intervals.next_best_to_split() {
            None => {},
            Some(next) => {
                assert(next.segment_index == index);
                next.remove();
            },
        }
        proof {
            let count = self.segments_count;
            assert forall|i: int| #[trigger] self.open().contains(i)
                <==> intervals::unknown_indices(count, self.times@).contains(i)
                && !self.intervals.forbidden@.contains(i as usize) by {
                assert(old(self).open().contains(i) <==> intervals::unknown_indices(
                    count,
                    self.times@,
                ).contains(i) && !old(self).intervals.forbidden@.contains(i as usize));
            }
        }
    }

    /// What to do next in a search that goes on only once its deadline is over.
    pub fn next_when_late(&mut self, deadline: Option<u64>, now: u64) -> (r: SearchStep)
        requires
            old(self).well_formed(),
        ensures
            *final(self) == *old(self),
            r matches SearchStep::Fetch(index) ==> is_late(deadline, now) && old(self).asks_for(
                index,
            ),
            r is Done ==> !is_late(deadline, now) || !old(self).unfinished(),
    {
        if deadline_over(deadline, now) {
            self.next()
        } else {
            SearchStep::Done
        }
    }

    /// The times that are known at the end, in the order of the segments where the search
    /// changed them, and whether it did.
    pub fn finish(self) -> (r: (Vec<OneSegmentTime>, bool))
        requires
            self.well_formed(),
        ensures
            r.1 == self.changed,
            !self.changed ==> r.0@ == self.times@,
            self.changed ==> ascending(r.0@) && r.0@.to_multiset() == self.times@.to_multiset(),
    {
        if self.changed {
            (sort_times(&self.times), true)
        } else {
            (self.times, false)
        }
    }
}

/// Whether there is a deadline and it is over.
pub open spec fn is_late(deadline: Option<u64>, now: u64) -> bool {
    deadline matches Some(d) && d < now
}

/// Whether there is a deadline and it is over.
pub fn deadline_over(deadline: Option<u64>, now: u64) -> (r: bool)
    ensures
        r == is_late(deadline, now),
{
    match deadline {
        Some(d) => d < now,
        None => false,
    }
}

/// The times of one segment among some, in order.
pub open spec fn times_of(times: Seq<OneSegmentTime>, index: usize) -> Seq<OneSegmentTime> {
    times.filter(|t: OneSegmentTime| t.segment_index == index)
}

/// Whether `order` is made of some times, in the order of their segments; several times of
/// one segment stay in the order in which they were.
pub open spec fn sorts(order: Seq<OneSegmentTime>, times: Seq<OneSegmentTime>) -> bool {
    &&& in_order(order)
    &&& order.to_multiset() == times.to_multiset()
    &&& same_times(order, times)
}

/// Whether every segment has the same times, in the same order.
pub open spec fn same_times(a: Seq<OneSegmentTime>, b: Seq<OneSegmentTime>) -> bool {
    forall|k: usize| #[trigger] times_of(a, k) == times_of(b, k)
}

/// Puts times into the order of their segments.
pub fn sort_times(times: &Vec<OneSegmentTime>) -> (r: Vec<OneSegmentTime>)
    ensures
        sorts(r@, times@),
        distinct(times@) ==> ascending(r@),
{
    let mut out: Vec<OneSegmentTime> = Vec::new();
    assert(times@.take(0) =~= out@);
    for n in 0..times.len()
        invariant
            in_order(out@),
            distinct(times@) ==> ascending(out@),
            out@.len() == n,
            out@.to_multiset() == times@.take(n as int).to_multiset(),
            same_times(out@, times@.take(n as int)),
    {
        let one = times[n];
        let ghost before = out@;
        proof {
            assert forall|j: int| distinct(times@) && 0 <= j < before.len() implies (
            #[trigger] before[j]).segment_index != one.segment_index by {
                broadcast use vstd::seq_lib::group_to_multiset_ensures;

                assert(before.contains(before[j]));
                assert(before.to_multiset().count(before[j]) > 0);
                assert(times@.take(n as int).contains(before[j]));
                let k = choose|k: int| 0 <= k < n && times@.take(n as int)[k] == before[j];
                assert(times@[k].segment_index != times@[n as int].segment_index);
            }
        }
        let mut at: usize = 0;
        while at < out.len() && out[at].segment_index <= one.segment_index
            invariant
                at <= out@.len(),
                out@ == before,
                forall|j: int|
                    0 <= j < at ==> (#[trigger] before[j]).segment_index <= one.segment_index,
            decreases out@.len() - at,
        {
            at += 1;
        }
        out.insert(at, one);
        proof {
            broadcast use vstd::seq_lib::group_to_multiset_ensures;

            let front = times@.take(n as int);
            assert(times@.take(n + 1) =~= front.push(one));
            assert(out@.remove(at as int) =~= before);
            assert(out@[at as int] == one);
            assert(out@.contains(one));
            assert(out@.to_multiset().remove(one) =~= before.to_multiset());
            assert(out@.to_multiset() =~= before.to_multiset().insert(one));
            assert(forall|j: int| at <= j < before.len() ==> before[j].segment_index > one.segment_index);
            assert forall|k: usize| #[trigger] times_of(out@, k) == times_of(
                front.push(one),
                k,
            ) by {
                inserted_times_of(before, at as int, one, k);
                pushed_times_of(front, one, k);
                assert(times_of(before, k) == times_of(front, k));
            }
        }
    }
    assert(times@.take(times@.len() as int) =~= times@);
    out
}

proof fn pushed_times_of(times: Seq<OneSegmentTime>, one: OneSegmentTime, k: usize)
    ensures
        times_of(times.push(one), k) == if one.segment_index == k {
            times_of(times, k).push(one)
        } else {
            times_of(times, k)
        },
{
    reveal(Seq::filter);
    assert(times.push(one).drop_last() =~= times);
}

/// A time that is put behind all others of its segment, and before those of later ones,
/// comes last among the times of its segment.
proof fn inserted_times_of(times: Seq<OneSegmentTime>, at: int, one: OneSegmentTime, k: usize)
    requires
        0 <= at <= times.len(),
        forall|j: int| at <= j < times.len() ==> (#[trigger] times[j]).segment_index
            > one.segment_index,
    ensures
        times_of(times.insert(at, one), k) == if one.segment_index == k {
            times_of(times, k).push(one)
        } else {
            times_of(times, k)
        },
{
    let same = |t: OneSegmentTime| t.segment_index == k;
    let front = times.take(at);
    let back = times.skip(at);
    assert(times =~= front + back);
    assert(times.insert(at, one) =~= front.push(one) + back);
    Seq::filter_distributes_over_add(front, back, same);
    Seq::filter_distributes_over_add(front.push(one), back, same);
    pushed_times_of(front, one, k);
    if one.segment_index == k {
        assert forall|t: OneSegmentTime| back.contains(t) implies !same(t) by {
            let j = choose|j: int| 0 <= j < back.len() && back[j] == t;
            assert(times[at + j] == t);
        }
        back.lemma_all_neg_filter_empty(same);
        assert(times_of(times, k) =~= times_of(front, k));
    }
}

/// Times can be put into the order of their segments in one way only.
pub proof fn sorting_is_unique(
    a: Seq<OneSegmentTime>,
    b: Seq<OneSegmentTime>,
    times: Seq<OneSegmentTime>,
)
    requires
        sorts(a, times),
        sorts(b, times),
    ensures
        a == b,
{
    assert forall|k: usize| #[trigger] times_of(a, k) == times_of(b, k) by {
        assert(times_of(a, k) == times_of(times, k));
        assert(times_of(b, k) == times_of(times, k));
    }
    same_times_same_order(a, b);
}

proof fn same_times_same_order(a: Seq<OneSegmentTime>, b: Seq<OneSegmentTime>)
    requires
        in_order(a),
        in_order(b),
        same_times(a, b),
    ensures
        a == b,
    decreases a.len(),
{
    if a.len() == 0 {
        if b.len() > 0 {
            last_time_of(b);
            assert(times_of(a, b.last().segment_index) == times_of(b, b.last().segment_index));
            reveal(Seq::filter);
        }
        assert(a =~= b);
    } else {
        last_time_of(a);
        let k = a.last().segment_index;
        assert(times_of(a, k) == times_of(b, k));
        has_time_of(b, k);
        last_time_of(b);
        let m = b.last().segment_index;
        assert(times_of(a, m) == times_of(b, m));
        has_time_of(a, m);
        assert(k == m);
        let c = a.drop_last();
        let d = b.drop_last();
        assert(c.push(a.last()) =~= a);
        assert(d.push(b.last()) =~= b);
        assert forall|j: usize| #[trigger] times_of(c, j) == times_of(d, j) by {
            pushed_times_of(c, a.last(), j);
            pushed_times_of(d, b.last(), j);
            assert(times_of(a, j) == times_of(b, j));
            if j == k {
                assert(times_of(c, j) =~= times_of(a, j).drop_last());
                assert(times_of(d, j) =~= times_of(b, j).drop_last());
            }
        }
        same_times_same_order(c, d);
    }
}

proof fn last_time_of(times: Seq<OneSegmentTime>)
    requires
        times.len() > 0,
    ensures
        ({
            let own = times_of(times, times.last().segment_index);
            own.len() > 0 && own.last() == times.last()
        }),
{
    pushed_times_of(times.drop_last(), times.last(), times.last().segment_index);
    assert(times.drop_last().push(times.last()) =~= times);
}

/// A segment that has a time among some is that of the last of them or an earlier one.
proof fn has_time_of(times: Seq<OneSegmentTime>, k: usize)
    requires
        in_order(times),
        times_of(times, k).len() > 0,
    ensures
        times.len() > 0,
        times.last().segment_index >= k,
{
    let same = |t: OneSegmentTime| t.segment_index == k;
    let t = times_of(times, k)[0];
    assert(times_of(times, k).contains(t));
    times.lemma_filter_contains_rev(same, t);
    times.lemma_filter_pred(same, 0);
    let i = choose|i: int| 0 <= i < times.len() && times[i] == t;
    assert(times[i].segment_index <= times[times.len() - 1].segment_index);
}

/// Adds what was read of a segment to a table, unless the segment is there already or no
/// time was read. Says whether the table changed.
pub fn record_time(table: &mut BTreeMap<usize, i64>, index: usize, time: Option<i64>) -> (r: bool)
    ensures
        r == (!old(table)@.contains_key(index) && time is Some),
        final(table)@ == if r {
            old(table)@.insert(index, time->0)
        } else {
            old(table)@
        },
{
    if table.contains_key(&index) {
        return false;
    }
    match time {
        Some(time) => {
            table.insert(index, time);
            true
        },
        None => false,
    }
}

/// The table of some times; of two times of one segment the later counts.
pub open spec fn table_of(times: Seq<OneSegmentTime>) -> Map<usize, i64>
    decreases times.len(),
{
    if times.len() == 0 {
        Map::empty()
    } else {
        table_of(times.drop_last()).insert(times.last().segment_index, times.last().start_time)
    }
}

/// Those of the times, in order, whose segments are not in a table.
pub open spec fn missing_from(
    times: Seq<OneSegmentTime>,
    table: Map<usize, i64>,
) -> Seq<OneSegmentTime>
    decreases times.len(),
{
    if times.len() == 0 {
        times
    } else if table.contains_key(times.last().segment_index) {
        missing_from(times.drop_last(), table)
    } else {
        missing_from(times.drop_last(), table).push(times.last())
    }
}

/// Merges the times that a search found with those that were kept meanwhile. The table
/// holds both, and what was kept counts where both have a segment; the list holds what
/// was found, and behind it what only the table that was kept has.
pub fn merge_times(found: Vec<OneSegmentTime>, kept: &BTreeMap<usize, i64>) -> (r: (
    Vec<OneSegmentTime>,
    BTreeMap<usize, i64>,
))
    ensures
        r.1@ == table_of(found@).union_prefer_right(kept@),
        exists|list: Seq<OneSegmentTime>|
            lists(list, kept@) && r.0@ == found@ + #[trigger] missing_from(list, table_of(found@)),
{
    let ghost start = found@;
    let mut table: BTreeMap<usize, i64> = BTreeMap::new();
    for i in 0..found.len()
        invariant
            table@ == table_of(found@.take(i as int)),
    {
        assert(found@.take(i + 1).drop_last() =~= found@.take(i as int));
        table.insert(found[i].segment_index, found[i].start_time);
    }
    assert(start.take(start.len() as int) =~= start);
    let ghost first = table@;
    let list = listed(kept);
    let mut out = found;
    assert(list@.take(0) =~= Seq::empty());
    assert(out@ =~= start + missing_from(list@.take(0), first));
    assert(table_of(list@.take(0)) =~= Map::empty());
    assert(first.union_prefer_right(table_of(list@.take(0))) =~= first);
    for i in 0..list.len()
        invariant
            lists(list@, kept@),
            table@ == first.union_prefer_right(table_of(list@.take(i as int))),
            out@ == start + missing_from(list@.take(i as int), first),
    {
        let one = list[i];
        let ghost so_far = list@.take(i as int);
        proof {
            assert(list@.take(i + 1).drop_last() =~= so_far);
            assert(!table_of(so_far).contains_key(one.segment_index)) by {
                table_of_ascending(list@, i as int);
                if table_of(so_far).contains_key(one.segment_index) {
                    let j = choose|j: int|
                        0 <= j < i && (#[trigger] list@[j]).segment_index == one.segment_index;
                    assert(list@[j].segment_index < list@[i as int].segment_index);
                }
            }
        }
        if table.insert(one.segment_index, one.start_time).is_none() {
            out.push(one);
        }
        assert(table@ =~= first.union_prefer_right(table_of(list@.take(i + 1))));
        assert(out@ =~= start + missing_from(list@.take(i + 1), first));
    }
    proof {
        assert(list@.take(list@.len() as int) =~= list@);
        table_of_list(list@, kept@);
        assert(out@ == start + missing_from(list@, first));
    }
    (out, table)
}

/// Merging loses nothing: the table has every segment that was found or kept, and what was
/// kept stays as it was.
pub proof fn merging_loses_nothing(found: Seq<OneSegmentTime>, kept: Map<usize, i64>, i: int)
    requires
        0 <= i < found.len(),
    ensures
        table_of(found).union_prefer_right(kept).contains_key(found[i].segment_index),
        kept.submap_of(table_of(found).union_prefer_right(kept)),
    decreases found.len(),
{
    if i < found.len() - 1 {
        merging_loses_nothing(found.drop_last(), kept, i);
        assert(found.drop_last()[i] == found[i]);
    }
}

/// The list that comes of merging has every segment that was found or kept.
pub proof fn merged_list_loses_nothing(
    found: Seq<OneSegmentTime>,
    list: Seq<OneSegmentTime>,
    i: int,
)
    ensures
        0 <= i < found.len() ==> has_index(
            found + missing_from(list, table_of(found)),
            found[i].segment_index,
        ),
        0 <= i < list.len() ==> has_index(
            found + missing_from(list, table_of(found)),
            list[i].segment_index,
        ),
{
    let more = missing_from(list, table_of(found));
    let merged = found + more;
    if 0 <= i < found.len() {
        assert(merged[i] == found[i]);
    }
    if 0 <= i < list.len() {
        let index = list[i].segment_index;
        if table_of(found).contains_key(index) {
            in_table_of(found, index);
            let j = choose|j: int| 0 <= j < found.len() && (#[trigger] found[j]).segment_index == index;
            assert(merged[j] == found[j]);
        } else {
            missing_is_listed(list, table_of(found), i);
            let j = choose|j: int| 0 <= j < more.len() && more[j] == list[i];
            assert(merged[found.len() + j] == more[j]);
        }
    }
}

proof fn in_table_of(times: Seq<OneSegmentTime>, index: usize)
    requires
        table_of(times).contains_key(index),
    ensures
        has_index(times, index),
    decreases times.len(),
{
    if times.len() > 0 {
        if times.last().segment_index == index {
            assert(times[times.len() - 1].segment_index == index);
        } else {
            let before = times.drop_last();
            in_table_of(before, index);
            let j = choose|j: int|
                0 <= j < before.len() && (#[trigger] before[j]).segment_index == index;
            assert(times[j] == before[j]);
        }
    }
}

proof fn missing_is_listed(times: Seq<OneSegmentTime>, table: Map<usize, i64>, i: int)
    requires
        0 <= i < times.len(),
        !table.contains_key(times[i].segment_index),
    ensures
        missing_from(times, table).contains(times[i]),
    decreases times.len(),
{
    let before = times.drop_last();
    let more = missing_from(times, table);
    if i == times.len() - 1 {
        assert(more[more.len() - 1] == times[i]);
    } else {
        missing_is_listed(before, table, i);
        let shorter = missing_from(before, table);
        let j = choose|j: int| 0 <= j < shorter.len() && shorter[j] == times[i];
        assert(more[j] == times[i]);
    }
}

/// A listing of a table has that table.
proof fn table_of_list(list: Seq<OneSegmentTime>, table: Map<usize, i64>)
    requires
        lists(list, table),
    ensures
        table_of(list) == table,
{
    table_of_ascending(list, list.len() as int);
    assert(list.take(list.len() as int) =~= list);
    assert(table_of(list) =~= table);
}

proof fn table_of_ascending(list: Seq<OneSegmentTime>, n: int)
    requires
        ascending(list),
        0 <= n <= list.len(),
    ensures
        forall|j: int|
            0 <= j < n ==> table_of(list.take(n)).contains_key((#[trigger] list[j]).segment_index)
                && table_of(list.take(n))[list[j].segment_index] == list[j].start_time,
        forall|k: usize| #[trigger]
            table_of(list.take(n)).contains_key(k) ==> exists|j: int|
                0 <= j < n && (#[trigger] list[j]).segment_index == k,
    decreases n,
{
    if n > 0 {
        table_of_ascending(list, n - 1);
        assert(list.take(n).drop_last() =~= list.take(n - 1));
        assert(list.take(n).last() == list[n - 1]);
        assert forall|k: usize| #[trigger]
            table_of(list.take(n)).contains_key(k) implies exists|j: int|
            0 <= j < n && (#[trigger] list[j]).segment_index == k by {
            if k == list[n - 1].segment_index {
            } else {
                assert(table_of(list.take(n - 1)).contains_key(k));
            }
        }
    }
}

/// The times among what is kept of some segments.
pub open spec fn times_in(rows: Seq<SegmentInfo>) -> Seq<OneSegmentTime>
    decreases rows.len(),
{
    if rows.len() == 0 {
        Seq::empty()
    } else {
        match rows.last().start_time {
            Some(start_time) => times_in(rows.drop_last()).push(
                OneSegmentTime { segment_index: rows.last().segment_index, start_time },
            ),
            None => times_in(rows.drop_last()),
        }
    }
}

/// Picks the segments whose start time is kept.
pub fn known_times(rows: &Vec<SegmentInfo>) -> (r: Vec<OneSegmentTime>)
    ensures
        r@ == times_in(rows@),
{
    let mut out: Vec<OneSegmentTime> = Vec::new();
    for i in 0..rows.len()
        invariant
            out@ == times_in(rows@.take(i as int)),
    {
        assert(rows@.take(i + 1).drop_last() =~= rows@.take(i as int));
        let row = rows[i];
        match row.start_time {
            Some(start_time) => {
                out.push(OneSegmentTime { segment_index: row.segment_index, start_time });
            },
            None => {},
        }
    }
    assert(rows@.take(rows@.len() as int) =~= rows@);
    out
}

/// Whether the times are in the order of their segments.
pub open spec fn in_order(times: Seq<OneSegmentTime>) -> bool {
    forall|i: int, j: int|
        0 <= i <= j < times.len() ==> (#[trigger] times[i]).segment_index <= (
        #[trigger] times[j]).segment_index
}

/// Whether some time is that of segment `index`.
pub open spec fn has_index(times: Seq<OneSegmentTime>, index: usize) -> bool {
    exists|i: int| 0 <= i < times.len() && (#[trigger] times[i]).segment_index == index
}

/// Whether the times before place `p` are those of segments before `index`.
pub open spec fn belongs_at(times: Seq<OneSegmentTime>, index: usize, p: int) -> bool {
    &&& 0 <= p <= times.len()
    &&& forall|i: int| 0 <= i < p ==> (#[trigger] times[i]).segment_index < index
    &&& forall|i: int| p <= i < times.len() ==> (#[trigger] times[i]).segment_index > index
}

/// The times that are kept once a segment was read: `None` where nothing changes, which is
/// so if nothing is kept, the segment is there already, or no time was read. The new time
/// stands where segment `index` belongs and carries the number of that place.
///
/// Nothing is said of times that are out of order.
pub fn insert_time(
    kept: Option<Vec<OneSegmentTime>>,
    index: usize,
    time: Option<i64>,
) -> (r: Option<Vec<OneSegmentTime>>)
    ensures
        kept is None || time is None ==> r is None,
        kept matches Some(times) ==> in_order(times@) ==> (r is None <==> time is None || has_index(
            times@,
            index,
        )),
        kept matches Some(times) ==> in_order(times@) ==> (r matches Some(new) ==> exists|p: int|
            belongs_at(times@, index, p) && new@ == #[trigger] times@.insert(
                p,
                OneSegmentTime { segment_index: p as usize, start_time: time->0 },
            )),
{
    match (kept, time) {
        (Some(times), Some(start_time)) => {
            let mut low: usize = 0;
            let mut high: usize = times.len();
            while low < high
                invariant
                    kept == Some(times),
                    time == Some(start_time),
                    low <= high <= times@.len(),
                    in_order(times@) ==> forall|i: int|
                        0 <= i < low ==> (#[trigger] times@[i]).segment_index < index,
                    in_order(times@) ==> forall|i: int|
                        high <= i < times@.len() ==> (#[trigger] times@[i]).segment_index > index,
                decreases high - low,
            {
                let mid: usize = low + (high - low) / 2;
                if times[mid].segment_index == index {
                    assert(has_index(times@, index));
                    return None;
                }
                if times[mid].segment_index < index {
                    low = mid + 1;
                } else {
                    high = mid;
                }
            }
            let mut new = times;
            let ghost before = new@;
            new.insert(low, OneSegmentTime { segment_index: low, start_time });
            proof {
                let p = low as int;
                assert(in_order(before) ==> belongs_at(before, index, p));
                assert(new@ == before.insert(
                    p,
                    OneSegmentTime { segment_index: p as usize, start_time: time->0 },
                ));
            }
            Some(new)
        },
        _ => None,
    }
}

/// The times that a later search starts from, and whether they differ from what is kept:
/// what is kept, or what was found before where nothing is kept any more.
pub fn late_start(kept: Option<Vec<OneSegmentTime>>, found: Vec<OneSegmentTime>) -> (r: (
    Vec<OneSegmentTime>,
    bool,
))
    ensures
        match kept {
            Some(times) => r.0@ == times@ && !r.1,
            None => r.0@ == found@ && r.1,
        },
{
    match kept {
        Some(times) => (times, false),
        None => (found, true),
    }
}

/// How a cache of start times was asked to work.
#[derive(Debug, Clone, Copy, PartialEq, Eq, Structural)]
pub struct TimeCacheOptions {
    pub smaller_time_between_segments: i64,
    pub bigger_time_between_segments: i64,
    pub timeout_fast_time: u64,
}

/// How a cache of start times works: how far apart known times may be in a first and in a
/// thorough search, and how long somebody who is in a hurry waits.
#[derive(Debug, Clone, Copy, PartialEq, Eq, Structural)]
pub struct TimeCache {
    pub smaller_time_between_segments: i64,
    pub bigger_time_between_segments: i64,
    pub timeout_fast_time: u64,
}

impl TimeCache {
    /// The first search may leave larger gaps than the thorough one.
    pub open spec fn well_formed(&self) -> bool {
        self.smaller_time_between_segments <= self.bigger_time_between_segments
    }

    pub fn new(options: TimeCacheOptions) -> (r: Self)
        requires
            options.smaller_time_between_segments <= options.bigger_time_between_segments,
        ensures
            r.well_formed(),
            r.smaller_time_between_segments == options.smaller_time_between_segments,
            r.bigger_time_between_segments == options.bigger_time_between_segments,
            r.timeout_fast_time == options.timeout_fast_time,
    {
        Self {
            smaller_time_between_segments: options.smaller_time_between_segments,
            bigger_time_between_segments: options.bigger_time_between_segments,
            timeout_fast_time: options.timeout_fast_time,
        }
    }

    /// The searches to make one after the other, each by the interval that it allows: one
    /// for somebody in a hurry, and a thorough one behind it for everybody else.
    pub fn search_limits(&self, fast_response: bool) -> (r: Vec<i64>)
        ensures
            r@ == if fast_response {
                seq![self.bigger_time_between_segments]
            } else {
                seq![self.bigger_time_between_segments, self.smaller_time_between_segments]
            },
    {
        let mut limits: Vec<i64> = Vec::new();
        limits.push(self.bigger_time_between_segments);
        if !fast_response {
            limits.push(self.smaller_time_between_segments);
        }
        limits
    }

    /// When an answer is due: only somebody in a hurry sets a deadline.
    pub fn deadline(&self, fast_response: bool, now: u64) -> (r: Option<u64>)
        requires
            now + self.timeout_fast_time <= u64::MAX,
        ensures
            r == if fast_response {
                Some((now + self.timeout_fast_time) as u64)
            } else {
                None
            },
    {
        if fast_response {
            Some(now + self.timeout_fast_time)
        } else {
            None
        }
    }
}

/// Where a search has nothing more to do, every segment whose time is neither known nor
/// out of reach lies in a run of segments, between two known times, that lasts less than
/// the interval that is allowed.
pub proof fn finished_search_leaves_short_runs(search: TimeSearch, i: int)
    requires
        search.well_formed(),
        search.segments_count > 0,
        !search.unfinished(),
        intervals::unknown_indices(search.segments_count, search.times@).contains(i),
        !search.intervals.forbidden@.contains(i as usize),
    ensures
        exists|k: int|
            0 <= k < search.intervals.ranges@.len() && intervals::is_free(
                #[trigger] search.intervals.ranges@[k],
                search.intervals.forbidden@,
                i,
            ) && intervals::item_duration(search.intervals.ranges@[k]) < search.max_interval
                && intervals::start_known(search.intervals.ranges@[k], search.times@)
                && intervals::end_known(
                search.intervals.ranges@[k],
                search.times@,
                search.segments_count,
                search.movie_duration,
            ),
{
    assert(search.open().contains(i));
    let ranges = search.intervals.ranges@;
    let k = choose|k: int|
        0 <= k < ranges.len() && intervals::is_free(
            #[trigger] ranges[k],
            search.intervals.forbidden@,
            i,
        );
    intervals::longest_is_longest(ranges);
    assert(intervals::item_duration(ranges[k]) < search.max_interval);
}

/// Whether no segment of some times lies between two others.
pub open spec fn none_between(times: Set<OneSegmentTime>, low: int, high: int) -> bool {
    forall|t: OneSegmentTime| #[trigger] times.contains(t) ==> !(low < t.segment_index < high)
}

/// Whether enough times are known: where segments without a time lie between two known ones,
/// before the first or behind the last, the time around them is shorter than `max_interval`.
pub open spec fn dense(
    times: Set<OneSegmentTime>,
    count: usize,
    duration: i64,
    max_interval: i64,
) -> bool {
    &&& forall|a: OneSegmentTime, b: OneSegmentTime| #[trigger]
        times.contains(a) && #[trigger] times.contains(b) && a.segment_index + 1 < b.segment_index
            && none_between(times, a.segment_index as int, b.segment_index as int)
            ==> b.start_time - a.start_time < max_interval
    &&& forall|b: OneSegmentTime| #[trigger]
        times.contains(b) && b.segment_index > 0 && none_between(
            times,
            -1,
            b.segment_index as int,
        ) ==> b.start_time < max_interval
    &&& forall|a: OneSegmentTime| #[trigger]
        times.contains(a) && a.segment_index + 1 < count && none_between(
            times,
            a.segment_index as int,
            count as int,
        ) ==> duration - a.start_time < max_interval
    &&& count > 0 && none_between(times, -1, count as int) ==> duration < max_interval
}

/// A finished search that could have every time it asked for knows enough times.
pub proof fn finished_search_is_dense(search: TimeSearch)
    requires
        search.well_formed(),
        search.segments_count > 0,
        search.max_interval > 0,
        !search.unfinished(),
        search.intervals.forbidden@ == Set::<usize>::empty(),
    ensures
        dense(
            search.times@.to_set(),
            search.segments_count,
            search.movie_duration,
            search.max_interval,
        ),
{
    let times = search.times@.to_set();
    let count = search.segments_count as int;
    assert forall|a: OneSegmentTime, b: OneSegmentTime| #[trigger]
        times.contains(a) && #[trigger] times.contains(b) && a.segment_index + 1 < b.segment_index
            && none_between(
            times,
            a.segment_index as int,
            b.segment_index as int,
        ) implies b.start_time - a.start_time < search.max_interval by {
        gap_is_short(search, Some(a), Some(b));
    }
    assert forall|b: OneSegmentTime| #[trigger]
        times.contains(b) && b.segment_index > 0 && none_between(
            times,
            -1,
            b.segment_index as int,
        ) implies b.start_time < search.max_interval by {
        gap_is_short(search, None, Some(b));
    }
    assert forall|a: OneSegmentTime| #[trigger]
        times.contains(a) && a.segment_index + 1 < count && none_between(
            times,
            a.segment_index as int,
            count,
        ) implies search.movie_duration - a.start_time < search.max_interval by {
        gap_is_short(search, Some(a), None);
    }
    if none_between(times, -1, count) {
        gap_is_short(search, None, None);
    }
}

/// What lies between two known times without a known one in between, or between one and an end
/// of the playlist, lasts less than the interval that is allowed.
proof fn gap_is_short(
    search: TimeSearch,
    before: Option<OneSegmentTime>,
    behind: Option<OneSegmentTime>,
)
    requires
        search.well_formed(),
        search.segments_count > 0,
        search.max_interval > 0,
        !search.unfinished(),
        search.intervals.forbidden@ == Set::<usize>::empty(),
        before matches Some(a) ==> search.times@.contains(a),
        behind matches Some(b) ==> search.times@.contains(b),
        ({
            let low: int = match before {
                Some(a) => a.segment_index as int,
                None => -1,
            };
            let high: int = match behind {
                Some(b) => b.segment_index as int,
                None => search.segments_count as int,
            };
            low + 1 < high && none_between(search.times@.to_set(), low, high)
        }),
    ensures
        ({
            let start: int = match before {
                Some(a) => a.start_time as int,
                None => 0,
            };
            let end: int = match behind {
                Some(b) => b.start_time as int,
                None => search.movie_duration as int,
            };
            end - start < search.max_interval
        }),
{
    let known = search.times@;
    let low: int = match before {
        Some(a) => a.segment_index as int,
        None => -1,
    };
    let high: int = match behind {
        Some(b) => b.segment_index as int,
        None => search.segments_count as int,
    };
    let i = low + 1;
    assert(high <= search.segments_count) by {
        if let Some(b) = behind {
            let j = choose|j: int| 0 <= j < known.len() && known[j] == b;
            assert(known[j].segment_index < search.segments_count);
        }
    }
    assert forall|j: int| 0 <= j < known.len() implies (#[trigger] known[j]).segment_index != i by {
        assert(known.to_set().contains(known[j]));
    }
    assert(intervals::unknown_indices(search.segments_count, known).contains(i));
    finished_search_leaves_short_runs(search, i);
    let ranges = search.intervals.ranges@;
    let k = choose|k: int|
        0 <= k < ranges.len() && intervals::is_free(
            #[trigger] ranges[k],
            search.intervals.forbidden@,
            i,
        ) && intervals::item_duration(ranges[k]) < search.max_interval && intervals::start_known(
            ranges[k],
            known,
        ) && intervals::end_known(
            ranges[k],
            known,
            search.segments_count,
            search.movie_duration,
        );
    let item = ranges[k];
    assert forall|j: int| 0 <= j < known.len() implies !(item.segments.start <= (
    #[trigger] known[j]).segment_index < item.segments.end) by {
        let index = known[j].segment_index as int;
        if item.segments.start <= index < item.segments.end {
            assert(intervals::is_free(ranges[k], search.intervals.forbidden@, index));
            assert(search.open().contains(index));
        }
    }
    match before {
        Some(a) => {
            let j = choose|j: int| 0 <= j < known.len() && known[j] == a;
            assert(item.segments.start == i);
            let n = choose|n: int|
                0 <= n < known.len() && (#[trigger] known[n]).segment_index + 1
                    == item.segments.start && known[n].start_time == item.segment_start_time;
            assert(n == j);
        },
        None => {
            assert(item.segments.start == 0);
            assert(item.segment_start_time == 0);
        },
    }
    match behind {
        Some(b) => {
            let j = choose|j: int| 0 <= j < known.len() && known[j] == b;
            assert(item.segments.end <= known[j].segment_index);
            let n = choose|n: int|
                0 <= n < known.len() && (#[trigger] known[n]).segment_index == item.segments.end
                    && known[n].start_time == item.segment_end_time;
            assert(known.to_set().contains(known[n]));
            assert(n == j);
        },
        None => {
            assert forall|n: int| 0 <= n < known.len() implies (
            #[trigger] known[n]).segment_index != item.segments.end by {
                assert(known.to_set().contains(known[n]));
            }
            assert(item.segment_end_time == search.movie_duration);
        },
    }
}

/// What comes of a finished search that could have every time it asked for, merged with the
/// table that is kept, if nothing but what the search started from was put there: each segment
/// of the playlist at most once, every time that is kept, and enough times.
pub proof fn merged_times_are_dense(
    search: TimeSearch,
    found: Seq<OneSegmentTime>,
    list: Seq<OneSegmentTime>,
    kept: Map<usize, i64>,
)
    requires
        search.well_formed(),
        search.segments_count > 0,
        search.max_interval > 0,
        !search.unfinished(),
        search.intervals.forbidden@ == Set::<usize>::empty(),
        found == search.times@ || ascending(found),
        found.to_multiset() == search.times@.to_multiset(),
        lists(list, kept),
        forall|i: int| 0 <= i < list.len() ==> search.times@.contains(#[trigger] list[i]),
    ensures
        ({
            let merged = found + missing_from(list, table_of(found));
            &&& distinct(merged)
            &&& within(merged, search.segments_count)
            &&& forall|i: int| 0 <= i < list.len() ==> merged.contains(#[trigger] list[i])
            &&& dense(
                merged.to_set(),
                search.segments_count,
                search.movie_duration,
                search.max_interval,
            )
        }),
{
    let times = search.times@;
    assert forall|t: OneSegmentTime| found.contains(t) <==> times.contains(t) by {
        broadcast use vstd::seq_lib::group_to_multiset_ensures;

        assert(found.contains(t) <==> found.to_multiset().count(t) > 0);
        assert(times.contains(t) <==> times.to_multiset().count(t) > 0);
    }
    assert forall|i: int| 0 <= i < list.len() implies table_of(found).contains_key(
        (#[trigger] list[i]).segment_index,
    ) by {
        assert(times.contains(list[i]));
        assert(found.contains(list[i]));
        let j = choose|j: int| 0 <= j < found.len() && found[j] == list[i];
        merging_loses_nothing(found, Map::empty(), j);
        assert(table_of(found).union_prefer_right(Map::<usize, i64>::empty()) =~= table_of(found));
    }
    nothing_is_missing(list, table_of(found));
    let merged = found + missing_from(list, table_of(found));
    assert(merged =~= found);
    assert(found.to_set() =~= times.to_set());
    assert forall|i: int| 0 <= i < found.len() implies (#[trigger] found[i]).segment_index
        < search.segments_count by {
        assert(found.contains(found[i]));
        let j = choose|j: int| 0 <= j < times.len() && times[j] == found[i];
        assert(times[j].segment_index < search.segments_count);
    }
    finished_search_is_dense(search);
}

/// Nothing is missing from a table that has all segments.
proof fn nothing_is_missing(times: Seq<OneSegmentTime>, table: Map<usize, i64>)
    requires
        forall|i: int|
            0 <= i < times.len() ==> table.contains_key((#[trigger] times[i]).segment_index),
    ensures
        missing_from(times, table).len() == 0,
    decreases times.len(),
{
    if times.len() > 0 {
        let before = times.drop_last();
        assert forall|i: int| 0 <= i < before.len() implies table.contains_key(
            (#[trigger] before[i]).segment_index,
        ) by {
            assert(times[i] == before[i]);
        }
        assert(times.last() == times[times.len() - 1]);
        nothing_is_missing(before, table);
    }
}

/// A search asks only for segments that can be asked for, so that it comes to an end: each
/// answer leaves one such segment fewer, and there are never more than segments.
pub proof fn search_ends(search: TimeSearch, index: usize)
    requires
        search.well_formed(),
        search.asks_for(index),
    ensures
        search.open().finite(),
        search.open().contains(index as int),
        search.open().remove(index as int).len() == search.open().len() - 1,
        search.open().len() <= search.segments_count,
{
    let ranges = search.intervals.ranges@;
    intervals::longest_is_longest(ranges);
    assert(intervals::is_free(
        ranges[intervals::longest(ranges)],
        search.intervals.forbidden@,
        index as int,
    ));
    assert(search.open().contains(index as int));
    let all = vstd::set_lib::set_int_range(0, search.segments_count as int);
    vstd::set_lib::lemma_int_range(0, search.segments_count as int);
    assert(search.open().subset_of(all));
    vstd::set_lib::lemma_len_subset(search.open(), all);
}

/// How long segments last together is the sum of how long each lasts.
pub proof fn durations_add_up(a: Seq<i64>, b: Seq<i64>, one: i64)
    ensures
        total(Seq::empty()) == 0,
        total(seq![one]) == one,
        total(a + b) == total(a) + total(b),
    decreases b.len(),
{
    assert(seq![one].drop_last() =~= Seq::empty());
    assert(total(Seq::<i64>::empty()) == 0);
    if b.len() == 0 {
        assert(a + b =~= a);
    } else {
        durations_add_up(a, b.drop_last(), one);
        assert((a + b).drop_last() =~= a + b.drop_last());
    }
}

/// The known times are those of the segments whose start time is kept, in order.
pub proof fn all_kept_times_are_known(rows: Seq<SegmentInfo>)
    ensures
        times_in(rows) == rows.filter(|s: SegmentInfo| s.start_time is Some).map_values(
            |s: SegmentInfo|
                OneSegmentTime { segment_index: s.segment_index, start_time: s.start_time->0 },
        ),
    decreases rows.len(),
{
    reveal(Seq::filter);
    let timed = |s: SegmentInfo| s.start_time is Some;
    let one = |s: SegmentInfo|
        OneSegmentTime { segment_index: s.segment_index, start_time: s.start_time->0 };
    if rows.len() > 0 {
        all_kept_times_are_known(rows.drop_last());
    }
    assert(times_in(rows) =~= rows.filter(timed).map_values(one));
}

/// A search asks for a segment only if its time is not known and the known times around it are
/// at least as far apart as is allowed.
pub proof fn search_asks_only_in_long_gaps(search: TimeSearch, index: usize)
    requires
        search.well_formed(),
        search.asks_for(index),
        search.max_interval > 0,
    ensures
        index < search.segments_count,
        !has_index(search.times@, index),
        exists|item: intervals::Item|
            {
                &&& #[trigger] intervals::start_known(item, search.times@)
                &&& intervals::end_known(
                    item,
                    search.times@,
                    search.segments_count,
                    search.movie_duration,
                )
                &&& item.segments.start <= index < item.segments.end
                &&& item.segment_end_time - item.segment_start_time >= search.max_interval
            },
{
    search_ends(search, index);
    let ranges = search.intervals.ranges@;
    intervals::longest_is_longest(ranges);
    let item = ranges[intervals::longest(ranges)];
    assert(intervals::unknown_indices(search.segments_count, search.times@).contains(index as int));
    assert(intervals::start_known(item, search.times@));
}

/// A deadline is over only behind it, and without a deadline nothing is ever late.
pub proof fn deadlines_are_over_behind_them(deadline: Option<u64>, now: u64, later: u64)
    requires
        now <= later,
    ensures
        deadline is None ==> !is_late(deadline, now),
        deadline == Some(now) ==> !is_late(deadline, now),
        deadline == Some(now) && now < later ==> is_late(deadline, later),
        is_late(deadline, now) ==> is_late(deadline, later),
{
}

} // verus!
