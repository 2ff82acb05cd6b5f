//! Playing a movie from the segments of its playlist.

use vstd::prelude::*;

pub mod intervals;
pub mod keys;
pub mod load_queue;
pub mod populate;
pub mod segment_time;
pub mod segments_database;
pub mod time_cache;

verus! {

/// How many units of time a second has: the clock that presentation times count in.
pub const TICKS_PER_SECOND: i64 = 90_000;

/// The segments from `start` up to `end`.
#[derive(Debug, Clone, Copy, PartialEq, Eq, Structural)]
pub struct SegmentRange {
    pub start: usize,
    pub end: usize,
}

/// When a segment starts, in ticks.
#[derive(Debug, Clone, Copy, PartialEq, Eq, Structural)]
pub struct OneSegmentTime {
    pub segment_index: usize,
    pub start_time: i64,
}

/// What is kept of a segment: how large it is and when it starts, where that is known.
#[derive(Debug, Clone, Copy, PartialEq, Eq, Structural)]
pub struct SegmentInfo {
    pub segment_index: usize,
    pub size: u64,
    pub start_time: Option<i64>,
}

/// The number of ticks closest to `n` that can be held.
pub open spec fn to_ticks(n: int) -> i64 {
    if n > i64::MAX {
        i64::MAX
    } else if n < i64::MIN {
        i64::MIN
    } else {
        n as i64
    }
}

pub fn ticks(n: i128) -> (r: i64)
    ensures
        r == to_ticks(n as int),
{
    if n > i64::MAX as i128 {
        i64::MAX
    } else if n < i64::MIN as i128 {
        i64::MIN
    } else {
        n as i64
    }
}

/// What can be held is held as it is; anything else by the nearest number that can.
pub proof fn ticks_are_held_as_they_are(n: int, m: int)
    ensures
        i64::MIN <= n <= i64::MAX ==> to_ticks(n) == n,
        n <= m ==> to_ticks(n) <= to_ticks(m),
        n > i64::MAX ==> to_ticks(n) == i64::MAX,
        n < i64::MIN ==> to_ticks(n) == i64::MIN,
{
}

} // verus!
