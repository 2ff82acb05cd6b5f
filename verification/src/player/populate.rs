//! Loading a movie ahead of the place where it is watched, for as long as that lasts.

use super::keys::{M3U8CacheKey, SegmentId};
use super::{ticks, to_ticks};
use crate::small_cache;
use crate::small_cache::SmallCache;
use mut_binary_heap::{BinaryHeap, MaxComparator};
use std::collections::HashMap;
use vstd::prelude::*;

verus! {

broadcast use vstd::std_specs::hash::group_hash_axioms;

/// From a segment that was loaded: the first one behind it that may not have been, where
/// there is one, and how long the segments up to there last.
#[derive(Debug, Clone, Copy, PartialEq, Eq, Structural)]
pub struct NextCompute {
    pub not_computed_index: Option<usize>,
    pub duration_from_start_to_not_computed_index: i128,
}

/// The first segment that was not loaded, and how long those before it last.
#[derive(Debug, Clone, Copy, PartialEq, Eq, Structural)]
pub struct NextResult {
    pub next_index: usize,
    pub time_taken: i128,
}

/// Where loading goes on from segment `i`: the first segment from there on that was not
/// loaded, or nothing if all of them were.
pub open spec fn first_missing(loaded: Map<int, int>, count: int, i: int) -> Option<int>
    decreases count - i,
{
    if !loaded.contains_key(i) {
        Some(i)
    } else if i + 1 < count {
        first_missing(loaded, count, i + 1)
    } else {
        None
    }
}

/// How long the loaded segments from `i` up to `end` last.
pub open spec fn time_between(loaded: Map<int, int>, i: int, end: int) -> int
    decreases end - i,
{
    if i >= end {
        0
    } else {
        loaded[i] + time_between(loaded, i + 1, end)
    }
}

/// Whether all segments from `i` up to `end` were loaded.
pub open spec fn all_loaded(loaded: Map<int, int>, i: int, end: int) -> bool {
    forall|k: int| i <= k < end ==> #[trigger] loaded.contains_key(k)
}

/// Whether every duration fits.
pub open spec fn durations_fit(loaded: Map<int, int>) -> bool {
    forall|k: int| #[trigger]
        loaded.contains_key(k) ==> i64::MIN <= loaded[k] <= i64::MAX && 0 <= k <= usize::MAX
}

/// Where the loaded segments from `i` on end, if nothing is missing behind them.
pub open spec fn movie_end(count: int, i: int) -> int {
    if i < count {
        count
    } else {
        i + 1
    }
}

/// Whether a link tells the truth.
pub open spec fn link_holds(
    loaded: Map<int, int>,
    count: int,
    i: int,
    link: NextCompute,
) -> bool {
    match link.not_computed_index {
        Some(j) => {
            &&& i < j < count
            &&& all_loaded(loaded, i, j as int)
            &&& link.duration_from_start_to_not_computed_index == time_between(
                loaded,
                i,
                j as int,
            )
        },
        None => {
            &&& all_loaded(loaded, i, movie_end(count, i))
            &&& link.duration_from_start_to_not_computed_index == time_between(
                loaded,
                i,
                movie_end(count, i),
            )
        },
    }
}

/// Which segments of a movie were loaded, and how long they last. Each loaded segment has
/// a link to a later one, and following links makes them longer.
pub struct MovieData {
    pub next_compute: HashMap<usize, NextCompute>,
    pub segments_count: usize,
    pub loaded: Ghost<Map<int, int>>,
}

impl MovieData {
    /// The links are those of the loaded segments, and each of them is true.
    pub open spec fn well_formed(&self) -> bool {
        &&& durations_fit(self.loaded@)
        &&& forall|i: usize| #[trigger]
            self.next_compute@.contains_key(i) <==> self.loaded@.contains_key(i as int)
        &&& forall|i: usize| #[trigger]
            self.next_compute@.contains_key(i) ==> link_holds(
                self.loaded@,
                self.segments_count as int,
                i as int,
                self.next_compute@[i],
            )
    }

    /// A movie of which nothing was loaded.
    pub fn new(segments_count: usize) -> (r: Self)
        ensures
            r.well_formed(),
            r.segments_count == segments_count,
            r.loaded@ == Map::<int, int>::empty(),
    {
        Self { next_compute: HashMap::new(), segments_count, loaded: Ghost(Map::empty()) }
    }

    fn get_next_compute_inner(&mut self, index: usize) -> (r: Option<NextCompute>)
        requires
            old(self).well_formed(),
        ensures
            final(self).well_formed(),
            final(self).loaded@ == old(self).loaded@,
            final(self).segments_count == old(self).segments_count,
            r is None <==> !old(self).loaded@.contains_key(index as int),
            r matches Some(link) ==> {
                &&& link_holds(
                    old(self).loaded@,
                    old(self).segments_count as int,
                    index as int,
                    link,
                )
                &&& match link.not_computed_index {
                    Some(j) => !old(self).loaded@.contains_key(j as int),
                    None => true,
                }
            },
        decreases
                (if index < old(self).segments_count {
                    old(self).segments_count - index
                } else {
                    0
                }),
    {
        let mut link: NextCompute = match self.next_compute.get(&index) {
            Some(link) => *link,
            None => {
                return None;
            },
        };
        let j: usize = match link.not_computed_index {
            Some(j) => j,
            None => {
                return Some(link);
            },
        };
        match self.get_next_compute_inner(j) {
            Some(later) => {
                proof {
                    let end = match later.not_computed_index {
                        Some(k) => k as int,
                        None => movie_end(self.segments_count as int, j as int),
                    };
                    time_between_splits(self.loaded@, index as int, j as int, end);
                    time_between_fits(self.loaded@, index as int, end);
                }
                link = NextCompute {
                    not_computed_index: later.not_computed_index,
                    duration_from_start_to_not_computed_index: link.duration_from_start_to_not_computed_index
                        + later.duration_from_start_to_not_computed_index,
                };
                self.next_compute.insert(index, link);
            },
            None => {},
        }
        Some(link)
    }

    /// Where loading goes on from segment `index`, and how long the segments before that
    /// last.
    pub fn get_next_to_compute(&mut self, index: usize) -> (r: Option<NextResult>)
        requires
            old(self).well_formed(),
        ensures
            final(self).well_formed(),
            final(self).loaded@ == old(self).loaded@,
            final(self).segments_count == old(self).segments_count,
            match first_missing(old(self).loaded@, old(self).segments_count as int, index as int) {
                Some(j) => r matches Some(next) && next.next_index == j && next.time_taken
                    == time_between(old(self).loaded@, index as int, j),
                None => r is None,
            },
    {
        match self.get_next_compute_inner(index) {
            None => Some(NextResult { next_index: index, time_taken: 0 }),
            Some(newest) => {
                let next_index: usize = match newest.not_computed_index {
                    Some(next_index) => next_index,
                    None => {
                        proof {
                            nothing_missing(
                                self.loaded@,
                                self.segments_count as int,
                                index as int,
                            );
                        }
                        return None;
                    },
                };
                proof {
                    missing_at(
                        self.loaded@,
                        self.segments_count as int,
                        index as int,
                        next_index as int,
                    );
                }
                Some(
                    NextResult {
                        next_index,
                        time_taken: newest.duration_from_start_to_not_computed_index,
                    },
                )
            },
        }
    }

    /// Takes note that segment `index` was loaded and how long it lasts.
    pub fn insert(&mut self, index: usize, duration: i64)
        requires
            old(self).well_formed(),
            !old(self).loaded@.contains_key(index as int),
            index < usize::MAX,
        ensures
            final(self).well_formed(),
            final(self).loaded@ == old(self).loaded@.insert(index as int, duration as int),
            final(self).segments_count == old(self).segments_count,
    {
        let next: Option<usize> = if index + 1 < self.segments_count {
            Some(index + 1)
        } else {
            None
        };
        self.next_compute.insert(
            index,
            NextCompute {
                not_computed_index: next,
                duration_from_start_to_not_computed_index: duration as i128,
            },
        );
        proof {
            let before = self.loaded@;
            let after = before.insert(index as int, duration as int);
            self.loaded@ = after;
            let count = self.segments_count as int;
            assert forall|i: usize| #[trigger]
                self.next_compute@.contains_key(i) implies link_holds(
                after,
                count,
                i as int,
                self.next_compute@[i],
            ) by {
                if i == index {
                    let end = match next {
                        Some(j) => j as int,
                        None => movie_end(count, index as int),
                    };
                    assert(end == index + 1);
                    assert(time_between(after, index + 1, end) == 0);
                } else {
                    let link = old(self).next_compute@[i];
                    assert(link_holds(before, count, i as int, link));
                    let end = match link.not_computed_index {
                        Some(j) => j as int,
                        None => movie_end(count, i as int),
                    };
                    assert(!(i <= index < end)) by {
                        if i <= index < end {
                            assert(before.contains_key(index as int));
                        }
                    }
                    time_between_same(before, after, i as int, end);
                }
            }
        }
    }
}

proof fn time_between_same(a: Map<int, int>, b: Map<int, int>, i: int, end: int)
    requires
        forall|k: int| i <= k < end ==> a[k] == #[trigger] b[k],
    ensures
        time_between(a, i, end) == time_between(b, i, end),
    decreases end - i,
{
    if i < end {
        time_between_same(a, b, i + 1, end);
        assert(a[i] == b[i]);
    }
}

/// The time up to a later segment is the time up to one in between and that from there.
proof fn time_between_splits(loaded: Map<int, int>, i: int, j: int, end: int)
    requires
        i <= j <= end,
    ensures
        time_between(loaded, i, end) == time_between(loaded, i, j) + time_between(loaded, j, end),
    decreases j - i,
{
    if i < j {
        time_between_splits(loaded, i + 1, j, end);
    }
}

proof fn time_between_bounds(loaded: Map<int, int>, i: int, end: int)
    requires
        durations_fit(loaded),
        all_loaded(loaded, i, end),
        i <= end,
    ensures
        i64::MIN * (end - i) <= time_between(loaded, i, end) <= i64::MAX * (end - i),
    decreases end - i,
{
    if i < end {
        time_between_bounds(loaded, i + 1, end);
        assert(loaded.contains_key(i));
    }
}

proof fn time_between_fits(loaded: Map<int, int>, i: int, end: int)
    requires
        durations_fit(loaded),
        all_loaded(loaded, i, end),
        0 <= i <= end <= usize::MAX,
    ensures
        i128::MIN <= time_between(loaded, i, end) <= i128::MAX,
{
    time_between_bounds(loaded, i, end);
}

proof fn nothing_missing(loaded: Map<int, int>, count: int, i: int)
    requires
        all_loaded(loaded, i, movie_end(count, i)),
    ensures
        first_missing(loaded, count, i) is None,
    decreases count - i,
{
    assert(loaded.contains_key(i));
    if i + 1 < count {
        nothing_missing(loaded, count, i + 1);
    }
}

proof fn missing_at(loaded: Map<int, int>, count: int, i: int, j: int)
    requires
        i < j < count,
        all_loaded(loaded, i, j),
        !loaded.contains_key(j),
    ensures
        first_missing(loaded, count, i) == Some(j),
    decreases j - i,
{
    assert(loaded.contains_key(i));
    if i + 1 < j {
        missing_at(loaded, count, i + 1, j);
    } else {
        assert(first_missing(loaded, count, j) == Some(j));
    }
}

/// The order in which the greatest value of a heap comes first.
#[verifier::external_type_specification]
#[verifier::external_body]
pub struct ExMaxComparator(mut_binary_heap::MaxComparator);

/// What a heap of requests holds: for each segment, by the number of its playlist and its
/// own, how much of the movie behind it remains to be loaded.
pub uninterp spec fn remaining_times(heap: BinaryHeap<(u64, u64), i64, MaxComparator>) -> Map<
    (u64, u64),
    i64,
>;

/// `BinaryHeap::new`: a new heap holds nothing.
#[verifier::external_body]
fn new_request_heap() -> (r: BinaryHeap<(u64, u64), i64, MaxComparator>)
    ensures
        remaining_times(r).is_empty(),
{
    BinaryHeap::new()
}

/// `BinaryHeap::push`: the key gets the value, in place of the one that it had.
#[verifier::external_body]
fn push_request(heap: &mut BinaryHeap<(u64, u64), i64, MaxComparator>, key: (u64, u64), time: i64)
    ensures
        remaining_times(*final(heap)) == remaining_times(*old(heap)).insert(key, time),
{
    heap.push(key, time);
}

/// `BinaryHeap::pop_with_key`: takes out a key with the greatest value, where there is one.
#[verifier::external_body]
fn pop_request(heap: &mut BinaryHeap<(u64, u64), i64, MaxComparator>) -> (r: Option<
    ((u64, u64), i64),
>)
    ensures
        r is None <==> remaining_times(*old(heap)).is_empty(),
        r is None ==> remaining_times(*final(heap)) == remaining_times(*old(heap)),
        r matches Some((key, most)) ==> {
            &&& remaining_times(*old(heap)).contains_key(key)
            &&& remaining_times(*old(heap))[key] == most
            &&& forall|k: (u64, u64)| #[trigger]
                remaining_times(*old(heap)).contains_key(k) ==> remaining_times(*old(heap))[k]
                    <= most
            &&& remaining_times(*final(heap)) == remaining_times(*old(heap)).remove(key)
        },
{
    heap.pop_with_key()
}

/// How long a segment is taken to last if that cannot be read from it: ten seconds.
pub const DEFAULT_SEGMENT_TICKS: i64 = 900_000;

/// How long what is known of a movie is kept after it was last needed: a quarter of an
/// hour, in milliseconds.
pub const MOVIE_IDLE_MILLIS: u64 = 900_000;

/// A wish to have the movie loaded from a segment on, for as long as is given.
pub struct LoadCacheRequest {
    pub segment_id: SegmentId,
    pub time_remaining: i64,
}

/// A segment that is to be loaded now, and how much of the movie remains to be loaded from
/// its start on.
pub struct PopulateJob {
    pub segment_id: SegmentId,
    pub time_remaining: i64,
}

/// How long a segment lasts, from the first and last time that were read from it.
pub open spec fn segment_ticks(start_time: Option<i64>, end_time: Option<i64>) -> i64 {
    match (start_time, end_time) {
        (Some(start), Some(end)) => to_ticks(end - start),
        _ => DEFAULT_SEGMENT_TICKS,
    }
}

/// How long a segment lasts.
pub fn segment_duration(start_time: Option<i64>, end_time: Option<i64>) -> (r: i64)
    ensures
        r == segment_ticks(start_time, end_time),
{
    match (start_time, end_time) {
        (Some(start), Some(end)) => ticks(end as i128 - start as i128),
        _ => DEFAULT_SEGMENT_TICKS,
    }
}

/// Whether no playlist is listed twice.
pub open spec fn all_different(playlists: Seq<M3U8CacheKey>) -> bool {
    forall|i: int, j: int|
        0 <= i < j < playlists.len() ==> !same_playlist(
            #[trigger] playlists[i],
            #[trigger] playlists[j],
        )
}

/// Whether two keys are for the same playlist.
pub open spec fn same_playlist(a: M3U8CacheKey, b: M3U8CacheKey) -> bool {
    a.imdb == b.imdb && a.server_name@ == b.server_name@
}

/// Whether playlist `key` has number `id`.
pub open spec fn has_number(playlists: Seq<M3U8CacheKey>, key: M3U8CacheKey, id: u64) -> bool {
    id < playlists.len() && same_playlist(playlists[id as int], key)
}

/// The list of playlists with `key`, which is put behind the others if it is not among them.
pub open spec fn listed_with(playlists: Seq<M3U8CacheKey>, key: M3U8CacheKey) -> Seq<M3U8CacheKey> {
    if exists|id: u64| has_number(playlists, key, id) {
        playlists
    } else {
        playlists.push(key)
    }
}

/// A playlist has one number.
pub proof fn number_is_unique(playlists: Seq<M3U8CacheKey>, key: M3U8CacheKey, a: u64, b: u64)
    requires
        all_different(playlists),
        has_number(playlists, key, a),
        has_number(playlists, key, b),
    ensures
        a == b,
{
    if a < b {
        assert(!same_playlist(playlists[a as int], playlists[b as int]));
    } else if b < a {
        assert(!same_playlist(playlists[b as int], playlists[a as int]));
    }
}

/// The segment to load, and how much of the movie remains from its start on, if segment
/// `index` and what follows is wanted for `time_remaining`: the first that was not loaded,
/// unless there is none or those before it last long enough.
pub open spec fn planned(
    loaded: Map<int, int>,
    count: int,
    index: int,
    time_remaining: int,
) -> Option<(int, i64)> {
    match first_missing(loaded, count, index) {
        Some(j) => {
            let left = time_remaining - time_between(loaded, index, j);
            if left <= 0 {
                None
            } else {
                Some((j, to_ticks(left)))
            }
        },
        None => None,
    }
}

/// The requests to load movies ahead, and what was loaded of which movie.
pub struct PopulateQueue {
    pub playlists: Vec<M3U8CacheKey>,
    pub waiting: BinaryHeap<(u64, u64), i64, MaxComparator>,
    pub movies: SmallCache<MovieData>,
}

/// Whether a request was added; one for the same segment is replaced.
pub open spec fn is_requested(
    before: PopulateQueue,
    after: PopulateQueue,
    request: LoadCacheRequest,
) -> bool {
    &&& after.movies == before.movies
    &&& after.playlists@ == listed_with(before.playlists@, request.segment_id.m3u8)
    &&& exists|id: u64| #[trigger]
        has_number(after.playlists@, request.segment_id.m3u8, id) && after.requests()
            == before.requests().insert(
            (id, request.segment_id.segment_index as u64),
            request.time_remaining,
        )
}

/// Whether a request was taken out, and none of the others wants more.
pub open spec fn is_taken(
    before: PopulateQueue,
    after: PopulateQueue,
    request: LoadCacheRequest,
) -> bool {
    &&& after.movies == before.movies
    &&& after.playlists == before.playlists
    &&& exists|id: u64| #[trigger]
        has_number(before.playlists@, request.segment_id.m3u8, id) && ({
            let key = (id, request.segment_id.segment_index as u64);
            &&& before.requests().contains_key(key)
            &&& before.requests()[key] == request.time_remaining
            &&& forall|k: (u64, u64)| #[trigger]
                before.requests().contains_key(k) ==> before.requests()[k] <= request.time_remaining
            &&& after.requests() == before.requests().remove(key)
        })
}

/// Whether there was no request to take out, and nothing changed.
pub open spec fn has_nothing(before: PopulateQueue, after: PopulateQueue) -> bool {
    &&& before.requests().is_empty()
    &&& after.requests() == before.requests()
    &&& after.movies == before.movies
    &&& after.playlists == before.playlists
}

/// Whether `job` is what is planned at `now` for a request. What was loaded of its movie stays
/// as it is and is kept for longer; of the other movies, exactly those are forgotten that were
/// not needed for too long.
pub open spec fn is_begun(
    before: PopulateQueue,
    after: PopulateQueue,
    request: LoadCacheRequest,
    segments_count: usize,
    now: u64,
    job: Option<PopulateJob>,
) -> bool {
    &&& after.requests() == before.requests()
    &&& after.playlists@ == listed_with(before.playlists@, request.segment_id.m3u8)
    &&& exists|id: u64| #[trigger]
        has_number(after.playlists@, request.segment_id.m3u8, id) && ({
            let movie = before.movie(id, segments_count);
            &&& after.movies.times() == small_cache::unexpired(
                before.movies.times().insert(id, (now + MOVIE_IDLE_MILLIS) as u64),
                now,
            )
            &&& after.movies.cache@.contains_key(id)
            &&& after.movie(id, segments_count) == movie
            &&& forall|other: u64|
                other != id ==> (#[trigger] after.movies.cache@.contains_key(other)
                    <==> before.movies.cache@.contains_key(other) && before.movies.times()[other]
                    >= now)
            &&& forall|other: u64|
                other != id && #[trigger] after.movies.cache@.contains_key(other)
                    ==> after.movies.cache@[other] == before.movies.cache@[other]
            &&& match planned(
                movie.0,
                movie.1 as int,
                request.segment_id.segment_index as int,
                request.time_remaining as int,
            ) {
                Some((index, left)) => {
                    &&& job matches Some(job)
                    &&& job.segment_id.m3u8 == request.segment_id.m3u8
                    &&& job.segment_id.segment_index == index
                    &&& job.time_remaining == left
                },
                None => job is None,
            }
        })
}

/// Whether it was noted that the segment of a job was loaded and lasts for `duration`, and
/// the request goes on from it if more of the movie is wanted.
pub open spec fn is_finished(
    before: PopulateQueue,
    after: PopulateQueue,
    job: PopulateJob,
    duration: i64,
) -> bool {
    &&& after.playlists@ == listed_with(before.playlists@, job.segment_id.m3u8)
    &&& after.movies.cache@.dom() == before.movies.cache@.dom()
    &&& after.movies.times() == before.movies.times()
    &&& exists|id: u64| #[trigger]
        has_number(after.playlists@, job.segment_id.m3u8, id) && ({
            let index = job.segment_id.segment_index;
            let left = job.time_remaining - duration;
            &&& after.requests() == if left <= 0 {
                before.requests()
            } else {
                before.requests().insert((id, index as u64), to_ticks(left))
            }
            &&& forall|other: u64|
                other != id && #[trigger] after.movies.cache@.contains_key(other)
                    ==> after.movies.cache@[other] == before.movies.cache@[other]
            &&& before.movies.cache@.contains_key(id) ==> {
                let known = before.movies.cache@[id];
                &&& after.movies.cache@[id].segments_count == known.segments_count
                &&& after.movies.cache@[id].loaded@ == if known.loaded@.contains_key(index as int)
                    || index == usize::MAX {
                    known.loaded@
                } else {
                    known.loaded@.insert(index as int, duration as int)
                }
            }
        })
}

/// What to do next to load movies ahead.
pub enum PopulateAction {
    /// See whether there is another request, without waiting for one.
    Poll,
    /// Wait for a request.
    Receive,
    /// Find out how many segments the playlist of a request has.
    Count(LoadCacheRequest),
    /// Load a segment.
    Load(PopulateJob),
    /// Nothing more: nobody can ask any more.
    Stop,
}

impl PopulateQueue {
    /// How much of the movie remains to be loaded behind each segment that waits.
    pub open spec fn requests(&self) -> Map<(u64, u64), i64> {
        remaining_times(self.waiting)
    }

    /// No playlist is listed twice, every request is for a playlist of the list and every
    /// known movie is that of one, and what is known of the movies is true.
    pub open spec fn well_formed(&self) -> bool {
        &&& all_different(self.playlists@)
        &&& self.movies.well_formed()
        &&& self.movies.time_to_idle == MOVIE_IDLE_MILLIS
        &&& forall|k: (u64, u64)| #[trigger]
            self.requests().contains_key(k) ==> k.0 < self.playlists@.len() && k.1 <= usize::MAX
        &&& forall|id: u64| #[trigger]
            self.movies.cache@.contains_key(id) ==> id < self.playlists@.len()
                && self.movies.cache@[id].well_formed()
    }

    /// What is known of the movie with number `id`: what was loaded of it, and how many
    /// segments it has. Of a movie that is not known nothing was loaded.
    pub open spec fn movie(&self, id: u64, segments_count: usize) -> (Map<int, int>, usize) {
        if self.movies.cache@.contains_key(id) {
            (self.movies.cache@[id].loaded@, self.movies.cache@[id].segments_count)
        } else {
            (Map::empty(), segments_count)
        }
    }

    pub fn new() -> (r: Self)
        ensures
            r.well_formed(),
            r.requests().is_empty(),
            r.playlists@.len() == 0,
            r.movies.cache@ == Map::<u64, MovieData>::empty(),
    {
        let r = Self {
            playlists: Vec::new(),
            waiting: new_request_heap(),
            movies: SmallCache::new(MOVIE_IDLE_MILLIS),
        };
        assert forall|k: (u64, u64)| !#[trigger] r.requests().contains_key(k) by {
            assert(!r.requests().dom().contains(k));
        }
        r
    }

    /// The number of a playlist, which is listed if it was not.
    fn number(&mut self, key: &M3U8CacheKey) -> (r: u64)
        requires
            old(self).well_formed(),
        ensures
            final(self).well_formed(),
            has_number(final(self).playlists@, *key, r),
            final(self).playlists@ == listed_with(old(self).playlists@, *key),
            old(self).playlists@.is_prefix_of(final(self).playlists@),
            final(self).waiting == old(self).waiting,
            final(self).movies == old(self).movies,
    {
        for i in 0..self.playlists.len()
            invariant
                *self == *old(self),
                self.well_formed(),
                forall|j: int|
                    0 <= j < i ==> !same_playlist(#[trigger] self.playlists@[j], *key),
        {
            if self.playlists[i].same(key) {
                assert(has_number(self.playlists@, *key, i as u64));
                return i as u64;
            }
        }
        let id: usize = self.playlists.len();
        self.playlists.push(key.clone());
        proof {
            assert(old(self).playlists@.is_prefix_of(self.playlists@));
            assert forall|k: (u64, u64)| #[trigger] self.requests().contains_key(k) implies k.0
                < self.playlists@.len() && k.1 <= usize::MAX by {
                assert(old(self).requests().contains_key(k));
            }
            assert forall|m: u64| #[trigger] self.movies.cache@.contains_key(m) implies m
                < self.playlists@.len() && self.movies.cache@[m].well_formed() by {
                assert(old(self).movies.cache@.contains_key(m));
            }
        }
        id as u64
    }

    /// Adds a request; one for the same segment is replaced.
    pub fn request(&mut self, request: LoadCacheRequest)
        requires
            old(self).well_formed(),
        ensures
            final(self).well_formed(),
            is_requested(*old(self), *final(self), request),
    {
        let id: u64 = self.number(&request.segment_id.m3u8);
        let index: u64 = request.segment_id.segment_index as u64;
        let ghost before = self.requests();
        assert(before == old(self).requests());
        push_request(&mut self.waiting, (id, index), request.time_remaining);
        assert(self.requests() == before.insert((id, index), request.time_remaining));
        assert forall|k: (u64, u64)| #[trigger] self.requests().contains_key(k) implies k.0
            < self.playlists@.len() && k.1 <= usize::MAX by {
            assert(k == (id, index) || before.contains_key(k));
        }
    }

    /// Takes out a request that wants most.
    pub fn take(&mut self) -> (r: Option<LoadCacheRequest>)
        requires
            old(self).well_formed(),
        ensures
            final(self).well_formed(),
            match r {
                Some(request) => is_taken(*old(self), *final(self), request),
                None => has_nothing(*old(self), *final(self)),
            },
    {
        match pop_request(&mut self.waiting) {
            Some((key, time_remaining)) => {
                proof {
                    assert(old(self).requests().contains_key(key));
                    assert forall|k: (u64, u64)| #[trigger]
                        self.requests().contains_key(k) implies k.0 < self.playlists@.len() && k.1
                        <= usize::MAX by {
                        assert(old(self).requests().contains_key(k));
                    }
                }
                let listed: usize = self.playlists.len();
                assert(key.0 < listed);
                let m3u8 = self.playlists[key.0 as usize].clone();
                assert(has_number(old(self).playlists@, m3u8, key.0));
                let index: usize = key.1 as usize;
                assert((key.0, index as u64) == key);
                Some(
                    LoadCacheRequest {
                        segment_id: SegmentId { m3u8, segment_index: index },
                        time_remaining,
                    },
                )
            },
            None => None,
        }
    }

    /// Decides what to load for a request; `segments_count` is how many segments the
    /// playlist has, and `now` is in milliseconds.
    pub fn begin(&mut self, request: LoadCacheRequest, segments_count: usize, now: u64) -> (r:
        Option<PopulateJob>)
        requires
            old(self).well_formed(),
            now + MOVIE_IDLE_MILLIS <= u64::MAX,
        ensures
            final(self).well_formed(),
            is_begun(*old(self), *final(self), request, segments_count, now, r),
    {
        let id: u64 = self.number(&request.segment_id.m3u8);
        let fresh = || -> (m: MovieData)
            ensures
                m.well_formed(),
                m.segments_count == segments_count,
                m.loaded@ == Map::<int, int>::empty(),
            { MovieData::new(segments_count) };
        let ghost before = self.movies.cache@;
        let ghost requests = self.requests();
        assert(requests == old(self).requests());
        let movie = self.movies.get_or_insert_mut(id, fresh, now);
        assert(movie.well_formed()) by {
            if before.contains_key(id) {
                assert(old(self).movies.cache@.contains_key(id));
            }
        }
        let ghost loaded = movie.loaded@;
        let next = movie.get_next_to_compute(request.segment_id.segment_index);
        proof {
            assert(self.requests() == requests);
            assert forall|other: u64| #[trigger]
                self.movies.cache@.contains_key(other) implies other < self.playlists@.len()
                && self.movies.cache@[other].well_formed() by {
                if other != id {
                    assert(old(self).movies.cache@.contains_key(other));
                }
            }
            assert forall|other: u64| other != id implies (#[trigger]
            self.movies.cache@.contains_key(other) <==> before.contains_key(other) && old(
                self,
            ).movies.times()[other] >= now) by {
                assert(before.dom().contains(other) <==> old(self).movies.times().dom().contains(
                    other,
                ));
            }
            assert(self.well_formed());
            assert(self.movie(id, segments_count) == old(self).movie(id, segments_count));
        }
        match next {
            Some(next) => {
                proof {
                    let index = request.segment_id.segment_index as int;
                    let count = self.movies.cache@[id].segments_count as int;
                    loaded_before_missing(loaded, count, index);
                    if index < next.next_index {
                        time_between_bounds(loaded, index, next.next_index as int);
                    }
                }
                let left: i128 = request.time_remaining as i128 - next.time_taken;
                if left <= 0 {
                    return None;
                }
                Some(
                    PopulateJob {
                        segment_id: SegmentId {
                            m3u8: request.segment_id.m3u8,
                            segment_index: next.next_index,
                        },
                        time_remaining: ticks(left),
                    },
                )
            },
            None => None,
        }
    }
}

impl PopulateQueue {
    /// Takes note that a job is done; the two times are the first and the last that were
    /// read from the segment. The request goes on from this segment if more of the movie is
    /// wanted.
    pub fn finish(&mut self, job: PopulateJob, start_time: Option<i64>, end_time: Option<i64>)
        requires
            old(self).well_formed(),
        ensures
            final(self).well_formed(),
            is_finished(*old(self), *final(self), job, segment_ticks(start_time, end_time)),
    {
        let duration: i64 = segment_duration(start_time, end_time);
        let index: usize = job.segment_id.segment_index;
        let id: u64 = self.number(&job.segment_id.m3u8);
        let ghost before = self.movies.cache@;
        let ghost requests = self.requests();
        assert(requests == old(self).requests());
        assert(before == old(self).movies.cache@);
        match self.movies.held_mut(id) {
            Some(movie) => {
                assert(movie.well_formed()) by {
                    assert(old(self).movies.cache@.contains_key(id));
                }
                if index < usize::MAX && !movie.next_compute.contains_key(&index) {
                    movie.insert(index, duration);
                }
            },
            None => {},
        }
        proof {
            assert(self.movies.cache@.dom() =~= before.dom());
            assert(self.requests() == requests);
            assert forall|other: u64| #[trigger]
                self.movies.cache@.contains_key(other) implies other < self.playlists@.len()
                && self.movies.cache@[other].well_formed() by {
                assert(before.contains_key(other));
            }
            assert(self.well_formed());
        }
        let left: i128 = job.time_remaining as i128 - duration as i128;
        if left <= 0 {
            return ;
        }
        let ghost movies = self.movies;
        push_request(&mut self.waiting, (id, index as u64), ticks(left));
        proof {
            assert(self.requests() == requests.insert((id, index as u64), to_ticks(left as int)));
            assert forall|k: (u64, u64)| #[trigger] self.requests().contains_key(k) implies k.0
                < self.playlists@.len() && k.1 <= usize::MAX by {
                assert(k == (id, index as u64) || requests.contains_key(k));
            }
            assert(self.movies == movies);
        }
    }
}

impl PopulateQueue {
    /// Takes a request that was there, after which more are looked for, or that there is
    /// none: then a request that wants most is served, or one waited for if there are none.
    pub fn polled(&mut self, request: Option<LoadCacheRequest>) -> (r: PopulateAction)
        requires
            old(self).well_formed(),
        ensures
            final(self).well_formed(),
            match (request, r) {
                (Some(request), PopulateAction::Poll) => is_requested(
                    *old(self),
                    *final(self),
                    request,
                ),
                (None, PopulateAction::Count(taken)) => is_taken(*old(self), *final(self), taken),
                (None, PopulateAction::Receive) => has_nothing(*old(self), *final(self)),
                _ => false,
            },
    {
        match request {
            Some(request) => {
                self.request(request);
                PopulateAction::Poll
            },
            None => match self.take() {
                Some(request) => PopulateAction::Count(request),
                None => PopulateAction::Receive,
            },
        }
    }

    /// Takes the request that was waited for, which is served at once, or that nobody can
    /// ask any more.
    pub fn received(&self, request: Option<LoadCacheRequest>) -> (r: PopulateAction)
        ensures
            r == match request {
                Some(request) => PopulateAction::Count(request),
                None => PopulateAction::Stop,
            },
    {
        match request {
            Some(request) => PopulateAction::Count(request),
            None => PopulateAction::Stop,
        }
    }

    /// Takes how many segments the playlist of a request has; `now` is in milliseconds. Loads
    /// what is planned for the request, or looks for others if that is nothing.
    pub fn counted(&mut self, request: LoadCacheRequest, segments_count: usize, now: u64) -> (r:
        PopulateAction)
        requires
            old(self).well_formed(),
            now + MOVIE_IDLE_MILLIS <= u64::MAX,
        ensures
            final(self).well_formed(),
            match r {
                PopulateAction::Load(job) => is_begun(
                    *old(self),
                    *final(self),
                    request,
                    segments_count,
                    now,
                    Some(job),
                ),
                PopulateAction::Poll => is_begun(
                    *old(self),
                    *final(self),
                    request,
                    segments_count,
                    now,
                    None,
                ),
                _ => false,
            },
    {
        match self.begin(request, segments_count, now) {
            Some(job) => PopulateAction::Load(job),
            None => PopulateAction::Poll,
        }
    }

    /// Takes the first and the last time that were read from the segment of a job, or that it
    /// could not be loaded: then the request is given up.
    pub fn loaded(&mut self, job: PopulateJob, times: Option<(Option<i64>, Option<i64>)>) -> (r:
        PopulateAction)
        requires
            old(self).well_formed(),
        ensures
            final(self).well_formed(),
            r == PopulateAction::Poll,
            match times {
                Some((start_time, end_time)) => is_finished(
                    *old(self),
                    *final(self),
                    job,
                    segment_ticks(start_time, end_time),
                ),
                None => *final(self) == *old(self),
            },
    {
        match times {
            Some((start_time, end_time)) => {
                self.finish(job, start_time, end_time);
            },
            None => {},
        }
        PopulateAction::Poll
    }
}

/// What stands before the first missing segment was loaded.
proof fn loaded_before_missing(loaded: Map<int, int>, count: int, i: int)
    ensures
        first_missing(loaded, count, i) matches Some(j) ==> i <= j && all_loaded(loaded, i, j),
    decreases count - i,
{
    if loaded.contains_key(i) && i + 1 < count {
        loaded_before_missing(loaded, count, i + 1);
    }
}

/// What is planned was not loaded, and everything that is wanted before it was.
pub proof fn planned_segment_is_missing(
    loaded: Map<int, int>,
    count: int,
    index: int,
    time_remaining: int,
)
    ensures
        planned(loaded, count, index, time_remaining) matches Some((j, left)) ==> {
            &&& index <= j
            &&& all_loaded(loaded, index, j)
            &&& !loaded.contains_key(j)
            &&& left > 0
        },
{
    loaded_before_missing(loaded, count, index);
    missing_is_missing(loaded, count, index);
}

/// Of a movie of which nothing was loaded the segment that is asked for is loaded.
pub proof fn unknown_movie_is_loaded(count: int, index: int, time_remaining: i64)
    requires
        time_remaining > 0,
    ensures
        planned(Map::empty(), count, index, time_remaining as int) == Some((index, time_remaining)),
{
}

/// What was loaded of a movie is remembered while other movies are served, for as long as it may
/// be idle after it was last needed, and is forgotten with the next request behind that.
pub proof fn movie_is_remembered(
    before: PopulateQueue,
    between: PopulateQueue,
    after: PopulateQueue,
    request: LoadCacheRequest,
    next: LoadCacheRequest,
    counts: (usize, usize),
    moments: (u64, u64),
    jobs: (Option<PopulateJob>, Option<PopulateJob>),
    id: u64,
)
    requires
        between.well_formed(),
        after.well_formed(),
        moments.0 + MOVIE_IDLE_MILLIS <= u64::MAX,
        is_begun(before, between, request, counts.0, moments.0, jobs.0),
        is_begun(between, after, next, counts.1, moments.1, jobs.1),
        has_number(between.playlists@, request.segment_id.m3u8, id),
        !same_playlist(request.segment_id.m3u8, next.segment_id.m3u8),
    ensures
        after.movies.cache@.contains_key(id) <==> moments.1 <= moments.0 + MOVIE_IDLE_MILLIS,
        after.movies.cache@.contains_key(id) ==> after.movies.cache@[id]
            == between.movies.cache@[id],
{
    let own = choose|own: u64| #[trigger]
        has_number(between.playlists@, request.segment_id.m3u8, own) && between.movies.times()
            == small_cache::unexpired(
            before.movies.times().insert(own, (moments.0 + MOVIE_IDLE_MILLIS) as u64),
            moments.0,
        ) && between.movies.cache@.contains_key(own);
    number_is_unique(between.playlists@, request.segment_id.m3u8, id, own);
    assert(between.movies.times().contains_key(id));
    assert(!has_number(after.playlists@, next.segment_id.m3u8, id));
}

/// A request that goes on from the segment that was loaded for it comes to a later one, and
/// to none behind the last of the playlist.
pub proof fn loading_goes_forward(
    loaded: Map<int, int>,
    count: int,
    j: int,
    duration: int,
    time_remaining: int,
)
    requires
        j < count,
    ensures
        planned(loaded.insert(j, duration), count, j, time_remaining) matches Some((k, left)) ==> j
            < k < count,
{
    let more = loaded.insert(j, duration);
    planned_segment_is_missing(more, count, j, time_remaining);
    missing_is_within(more, count, j);
}

proof fn missing_is_missing(loaded: Map<int, int>, count: int, i: int)
    ensures
        first_missing(loaded, count, i) matches Some(j) ==> !loaded.contains_key(j),
    decreases count - i,
{
    if loaded.contains_key(i) && i + 1 < count {
        missing_is_missing(loaded, count, i + 1);
    }
}

proof fn missing_is_within(loaded: Map<int, int>, count: int, i: int)
    requires
        i < count,
    ensures
        first_missing(loaded, count, i) matches Some(j) ==> j < count,
    decreases count - i,
{
    if loaded.contains_key(i) && i + 1 < count {
        missing_is_within(loaded, count, i + 1);
    }
}

/// How long loaded segments last is the sum of how long each lasts.
pub proof fn loaded_times_add_up(loaded: Map<int, int>, i: int, j: int, end: int)
    requires
        i <= j <= end,
    ensures
        time_between(loaded, i, i) == 0,
        time_between(loaded, i, i + 1) == loaded[i],
        time_between(loaded, i, end) == time_between(loaded, i, j) + time_between(loaded, j, end),
{
    time_between_splits(loaded, i, j, end);
    assert(time_between(loaded, i + 1, i + 1) == 0);
}

/// What remains to be loaded from the planned segment on is what was wanted without what was
/// loaded before it. Nothing is planned exactly if everything up to the end of the movie was
/// loaded, or what was loaded lasts for as long as was wanted.
pub proof fn planned_is_what_is_left(
    loaded: Map<int, int>,
    count: int,
    index: int,
    time_remaining: i64,
)
    requires
        0 <= index,
    ensures
        match planned(loaded, count, index, time_remaining as int) {
            Some((j, left)) => {
                &&& index <= j
                &&& all_loaded(loaded, index, j)
                &&& !loaded.contains_key(j)
                &&& time_remaining > time_between(loaded, index, j)
                &&& left == to_ticks(time_remaining - time_between(loaded, index, j))
            },
            None => {
                ||| all_loaded(loaded, index, movie_end(count, index))
                ||| exists|j: int|
                    index <= j && #[trigger] all_loaded(loaded, index, j) && !loaded.contains_key(j)
                        && time_remaining <= time_between(loaded, index, j)
            },
        },
{
    loaded_before_missing(loaded, count, index);
    missing_is_missing(loaded, count, index);
    nothing_missing_is_all(loaded, count, index);
}

proof fn nothing_missing_is_all(loaded: Map<int, int>, count: int, i: int)
    ensures
        first_missing(loaded, count, i) is None ==> all_loaded(loaded, i, movie_end(count, i)),
    decreases count - i,
{
    if loaded.contains_key(i) && i + 1 < count {
        nothing_missing_is_all(loaded, count, i + 1);
    }
}

/// A request that is served leaves all others, and none of them wanted more; a new request leaves
/// all others too, and replaces only one for the same segment of the same movie.
pub proof fn requests_wait_until_they_are_served(
    before: PopulateQueue,
    after: PopulateQueue,
    request: LoadCacheRequest,
    id: u64,
    other: (u64, u64),
)
    requires
        after.well_formed(),
        has_number(after.playlists@, request.segment_id.m3u8, id),
    ensures
        ({
            let key = (id, request.segment_id.segment_index as u64);
            &&& is_taken(before, after, request) ==> {
                &&& before.requests().contains_key(key)
                &&& before.requests()[key] == request.time_remaining
                &&& !after.requests().contains_key(key)
                &&& other != key ==> (after.requests().contains_key(other)
                    <==> before.requests().contains_key(other))
                &&& after.requests().contains_key(other) ==> after.requests()[other]
                    == before.requests()[other] && after.requests()[other] <= request.time_remaining
            }
            &&& is_requested(before, after, request) ==> {
                &&& after.requests().contains_key(key)
                &&& after.requests()[key] == request.time_remaining
                &&& other != key ==> (after.requests().contains_key(other)
                    <==> before.requests().contains_key(other))
                &&& other != key && after.requests().contains_key(other)
                    ==> after.requests()[other] == before.requests()[other]
            }
        }),
{
    if is_taken(before, after, request) {
        let own = choose|own: u64| #[trigger]
            has_number(before.playlists@, request.segment_id.m3u8, own) && ({
                let key = (own, request.segment_id.segment_index as u64);
                &&& before.requests().contains_key(key)
                &&& before.requests()[key] == request.time_remaining
                &&& forall|k: (u64, u64)| #[trigger]
                    before.requests().contains_key(k) ==> before.requests()[k]
                        <= request.time_remaining
                &&& after.requests() == before.requests().remove(key)
            });
        number_is_unique(after.playlists@, request.segment_id.m3u8, id, own);
        if after.requests().contains_key(other) {
            assert(before.requests().contains_key(other));
        }
    }
    if is_requested(before, after, request) {
        let own = choose|own: u64| #[trigger]
            has_number(after.playlists@, request.segment_id.m3u8, own) && after.requests()
                == before.requests().insert(
                (own, request.segment_id.segment_index as u64),
                request.time_remaining,
            );
        number_is_unique(after.playlists@, request.segment_id.m3u8, id, own);
    }
}

/// Once a segment was loaded for a request, that is noted for its movie and for no other, and the
/// request waits again, from this segment on and for what then remains, exactly if something
/// remains.
pub proof fn finished_request_goes_on(
    before: PopulateQueue,
    after: PopulateQueue,
    job: PopulateJob,
    duration: i64,
    id: u64,
    other: (u64, u64),
)
    requires
        after.well_formed(),
        is_finished(before, after, job, duration),
        has_number(after.playlists@, job.segment_id.m3u8, id),
        job.segment_id.segment_index < usize::MAX,
    ensures
        ({
            let index = job.segment_id.segment_index;
            let key = (id, index as u64);
            &&& job.time_remaining > duration ==> after.requests().contains_key(key)
                && after.requests()[key] == to_ticks(job.time_remaining - duration)
            &&& job.time_remaining <= duration ==> after.requests() == before.requests()
            &&& other != key ==> (after.requests().contains_key(other)
                <==> before.requests().contains_key(other))
            &&& before.movies.cache@.contains_key(id) ==> {
                &&& after.movies.cache@.contains_key(id)
                &&& after.movies.cache@[id].loaded@.contains_key(index as int)
                &&& before.movies.cache@[id].loaded@.submap_of(after.movies.cache@[id].loaded@)
                &&& !before.movies.cache@[id].loaded@.contains_key(index as int)
                    ==> after.movies.cache@[id].loaded@[index as int] == duration
                &&& forall|k: int|
                    k != index && #[trigger] after.movies.cache@[id].loaded@.contains_key(k)
                        ==> before.movies.cache@[id].loaded@.contains_key(k)
            }
            &&& other.0 != id && after.movies.cache@.contains_key(other.0)
                ==> before.movies.cache@.contains_key(other.0) && after.movies.cache@[other.0]
                == before.movies.cache@[other.0]
        }),
{
    let index = job.segment_id.segment_index;
    let left = job.time_remaining - duration;
    let own = choose|own: u64| #[trigger]
        has_number(after.playlists@, job.segment_id.m3u8, own) && ({
            &&& after.requests() == if left <= 0 {
                before.requests()
            } else {
                before.requests().insert((own, index as u64), to_ticks(left))
            }
            &&& forall|other: u64|
                other != own && #[trigger] after.movies.cache@.contains_key(other)
                    ==> after.movies.cache@[other] == before.movies.cache@[other]
            &&& before.movies.cache@.contains_key(own) ==> {
                let known = before.movies.cache@[own];
                &&& after.movies.cache@[own].segments_count == known.segments_count
                &&& after.movies.cache@[own].loaded@ == if known.loaded@.contains_key(index as int)
                    || index == usize::MAX {
                    known.loaded@
                } else {
                    known.loaded@.insert(index as int, duration as int)
                }
            }
        });
    number_is_unique(after.playlists@, job.segment_id.m3u8, id, own);
    assert(after.movies.cache@.dom().contains(id) <==> before.movies.cache@.dom().contains(id));
    assert(after.movies.cache@.dom().contains(other.0) <==> before.movies.cache@.dom().contains(
        other.0,
    ));
}

/// What is begun for a request is to load a segment of its playlist that was not loaded yet: the
/// first such one from the wanted one on; and if nothing is begun, nothing of what is wanted is
/// missing. What was loaded of the movie stays.
pub proof fn begun_segment_is_the_first_missing(
    before: PopulateQueue,
    after: PopulateQueue,
    request: LoadCacheRequest,
    segments_count: usize,
    now: u64,
    job: Option<PopulateJob>,
    id: u64,
)
    requires
        after.well_formed(),
        is_begun(before, after, request, segments_count, now, job),
        has_number(after.playlists@, request.segment_id.m3u8, id),
    ensures
        ({
            let movie = before.movie(id, segments_count);
            let index = request.segment_id.segment_index as int;
            &&& after.movie(id, segments_count) == movie
            &&& after.requests() == before.requests()
            &&& match job {
                Some(job) => {
                    let j = job.segment_id.segment_index as int;
                    &&& job.segment_id.m3u8 == request.segment_id.m3u8
                    &&& index <= j
                    &&& all_loaded(movie.0, index, j)
                    &&& !movie.0.contains_key(j)
                    &&& job.time_remaining == to_ticks(
                        request.time_remaining - time_between(movie.0, index, j),
                    )
                    &&& request.time_remaining > time_between(movie.0, index, j)
                },
                None => {
                    ||| all_loaded(movie.0, index, movie_end(movie.1 as int, index))
                    ||| exists|j: int|
                        index <= j && #[trigger] all_loaded(movie.0, index, j)
                            && !movie.0.contains_key(j) && request.time_remaining <= time_between(
                            movie.0,
                            index,
                            j,
                        )
                },
            }
        }),
{
    let own = choose|own: u64| #[trigger]
        has_number(after.playlists@, request.segment_id.m3u8, own) && ({
            let movie = before.movie(own, segments_count);
            &&& after.movie(own, segments_count) == movie
            &&& match planned(
                movie.0,
                movie.1 as int,
                request.segment_id.segment_index as int,
                request.time_remaining as int,
            ) {
                Some((index, left)) => {
                    &&& job matches Some(job)
                    &&& job.segment_id.m3u8 == request.segment_id.m3u8
                    &&& job.segment_id.segment_index == index
                    &&& job.time_remaining == left
                },
                None => job is None,
            }
        });
    number_is_unique(after.playlists@, request.segment_id.m3u8, id, own);
    let movie = before.movie(id, segments_count);
    planned_is_what_is_left(
        movie.0,
        movie.1 as int,
        request.segment_id.segment_index as int,
        request.time_remaining,
    );
}

/// A segment lasts from the first time in it to the last, and ten seconds if it has none.
pub proof fn segments_last_from_first_to_last(start_time: Option<i64>, end_time: Option<i64>)
    ensures
        start_time is Some && end_time is Some && i64::MIN <= end_time->0 - start_time->0 <= i64::MAX
            ==> start_time->0 + segment_ticks(start_time, end_time) == end_time->0,
        start_time is None || end_time is None ==> segment_ticks(start_time, end_time) == 10
            * super::TICKS_PER_SECOND,
{
}

} // verus!
