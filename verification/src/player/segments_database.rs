//! Keeping the segments of movies on disk, and making room for new ones.

use super::keys::{M3U8CacheKey, SegmentId};
use super::SegmentInfo;
use crate::contracts;
use crate::contracts::Imdb;
use crate::text;
use vstd::prelude::*;

verus! {

/// How segments are kept.
#[derive(Debug, Clone)]
pub struct NewLocalPlayerOptions {
    pub cache_directory: String,
    pub max_total_file_size: u64,
    pub metadata_memory_cache_size: u64,
}

/// The content of some segments, as it is read.
pub struct SegmentsContent<S> {
    pub stream: S,
}

/// Below the directory of the cache, the names of the directories and the file that the
/// segments of a title on a server are kept in.
pub open spec fn file_path(imdb: Imdb, server: Seq<char>) -> Seq<Seq<char>> {
    let title = seq!["movies"@, "tt"@ + text::padded_digits(imdb.imdb_id as nat, 7)];
    match imdb.series_data {
        Some(data) => title.push(text::digits(data.season as nat)).push(
            text::digits(data.episode as nat),
        ).push(server),
        None => title.push(server),
    }
}

/// Where the segments of a title on a server are kept, name by name.
pub fn movie_file_path(imdb: Imdb, server: &str) -> (r: Vec<String>)
    ensures
        text::texts(r@) == file_path(imdb, server@),
{
    let mut path: Vec<String> = Vec::new();
    path.push("movies".to_owned());
    let mut title = "tt".to_owned();
    text::push_padded(&mut title, imdb.imdb_id as u64, 7);
    path.push(title);
    match imdb.series_data {
        Some(data) => {
            let mut season = String::new();
            text::push_decimal(&mut season, data.season as u64);
            assert(season@ =~= text::digits(data.season as nat));
            path.push(season);
            let mut episode = String::new();
            text::push_decimal(&mut episode, data.episode as u64);
            assert(episode@ =~= text::digits(data.episode as nat));
            path.push(episode);
        },
        None => {},
    }
    path.push(server.to_owned());
    assert(text::texts(path@) =~= file_path(imdb, server@));
    path
}

/// What became of opening the file of a segment.
#[derive(Debug, Clone, Copy, PartialEq, Eq, Structural)]
pub enum OpenOutcome {
    Opened,
    NotFound,
    Failed,
}

/// How a segment is got.
#[derive(Debug)]
pub enum SegmentSource {
    /// From the file.
    File,
    /// From its server, after which it is kept.
    Download(SegmentId),
    /// Not at all.
    Error(String),
}

/// Decides how segment `index` is got once its file was tried.
pub fn segment_source(outcome: OpenOutcome, imdb: Imdb, server: &str, index: usize) -> (r:
    SegmentSource)
    ensures
        match outcome {
            OpenOutcome::Opened => r is File,
            OpenOutcome::NotFound => r matches SegmentSource::Download(id) && id.segment_index
                == index && id.m3u8.imdb == imdb && id.m3u8.server_name@ == server@,
            OpenOutcome::Failed => r matches SegmentSource::Error(e) && e@
                == "Failed to open segment file"@,
        },
{
    match outcome {
        OpenOutcome::Opened => SegmentSource::File,
        OpenOutcome::NotFound => SegmentSource::Download(
            SegmentId {
                m3u8: M3U8CacheKey { imdb, server_name: server.to_owned() },
                segment_index: index,
            },
        ),
        OpenOutcome::Failed => SegmentSource::Error("Failed to open segment file".to_owned()),
    }
}

/// How far the keeping of a segment has come.
#[derive(Debug, Clone, Copy, PartialEq, Eq, Structural)]
pub enum StoreStage {
    Writing,
    Saving,
    Moving,
    Forgetting,
    Done,
}

/// What to do next to keep a segment.
#[derive(Debug, Clone, Copy, PartialEq, Eq, Structural)]
pub enum StoreAction {
    /// Write its content to a temporary file.
    WriteTemporary,
    /// Save what is known of it.
    SaveInfo(SegmentInfo),
    /// Move the temporary file to where the segment is kept.
    MoveIntoPlace,
    /// Take note that the file is not there after all.
    ForgetFile(usize),
    /// Add its size to that of all files.
    CountSize(u64),
    /// Nothing more.
    Stop,
}

/// The next stage and what to do, by whether the last action went well.
pub open spec fn store_step(stage: StoreStage, info: SegmentInfo, ok: bool) -> (
    StoreStage,
    StoreAction,
) {
    match (stage, ok) {
        (StoreStage::Writing, true) => (StoreStage::Saving, StoreAction::SaveInfo(info)),
        (StoreStage::Saving, true) => (StoreStage::Moving, StoreAction::MoveIntoPlace),
        (StoreStage::Moving, true) => (StoreStage::Done, StoreAction::CountSize(info.size)),
        (StoreStage::Moving, false) => (
            StoreStage::Forgetting,
            StoreAction::ForgetFile(info.segment_index),
        ),
        _ => (StoreStage::Done, StoreAction::Stop),
    }
}

/// A segment on its way to where it is kept.
#[derive(Debug, Clone, Copy, PartialEq, Eq, Structural)]
pub struct SegmentStore {
    pub info: SegmentInfo,
    pub stage: StoreStage,
}

impl SegmentStore {
    /// Starts to keep a segment; the first action is to write its content to a temporary
    /// file.
    pub fn new(info: SegmentInfo) -> (r: (Self, StoreAction))
        ensures
            r.0.info == info,
            r.0.stage == StoreStage::Writing,
            r.1 == StoreAction::WriteTemporary,
    {
        (Self { info, stage: StoreStage::Writing }, StoreAction::WriteTemporary)
    }

    /// Takes whether the last action went well, and says what to do next.
    pub fn next(&mut self, ok: bool) -> (r: StoreAction)
        ensures
            final(self).info == old(self).info,
            (final(self).stage, r) == store_step(old(self).stage, old(self).info, ok),
    {
        let info = self.info;
        match (self.stage, ok) {
            (StoreStage::Writing, true) => {
                self.stage = StoreStage::Saving;
                StoreAction::SaveInfo(info)
            },
            (StoreStage::Saving, true) => {
                self.stage = StoreStage::Moving;
                StoreAction::MoveIntoPlace
            },
            (StoreStage::Moving, true) => {
                self.stage = StoreStage::Done;
                StoreAction::CountSize(info.size)
            },
            (StoreStage::Moving, false) => {
                self.stage = StoreStage::Forgetting;
                StoreAction::ForgetFile(info.segment_index)
            },
            _ => {
                self.stage = StoreStage::Done;
                StoreAction::Stop
            },
        }
    }
}

/// The stage and the last action after some actions went well or not.
pub open spec fn store_run(info: SegmentInfo, outcomes: Seq<bool>) -> (StoreStage, StoreAction)
    decreases outcomes.len(),
{
    if outcomes.len() == 0 {
        (StoreStage::Writing, StoreAction::WriteTemporary)
    } else {
        store_step(store_run(info, outcomes.drop_last()).0, info, outcomes.last())
    }
}

/// A segment is counted exactly when its content was written, what is known of it was saved
/// and its file was moved into place; and what was saved of a segment whose file could not
/// be moved is taken back.
pub proof fn only_stored_segments_count(info: SegmentInfo, outcomes: Seq<bool>)
    ensures
        store_run(info, outcomes).1 == StoreAction::CountSize(info.size) <==> outcomes == seq![
            true,
            true,
            true,
        ],
        store_run(info, outcomes).1 == StoreAction::ForgetFile(info.segment_index) <==> outcomes
            == seq![true, true, false],
{
    store_stage_is(info, outcomes);
    if outcomes.len() > 0 {
        store_stage_is(info, outcomes.drop_last());
    }
    if outcomes.len() == 3 {
        assert(outcomes =~= outcomes.drop_last().push(outcomes.last()));
    }
    if store_run(info, outcomes).1 == StoreAction::CountSize(info.size) {
        assert(outcomes =~= seq![true, true, true]);
    }
    if outcomes == seq![true, true, true] {
        assert(outcomes.drop_last() =~= seq![true, true]);
    }
    if store_run(info, outcomes).1 == StoreAction::ForgetFile(info.segment_index) {
        assert(outcomes =~= seq![true, true, false]);
    }
    if outcomes == seq![true, true, false] {
        assert(outcomes.drop_last() =~= seq![true, true]);
    }
}

proof fn store_stage_is(info: SegmentInfo, outcomes: Seq<bool>)
    ensures
        ({
            let stage = store_run(info, outcomes).0;
            &&& stage == StoreStage::Writing <==> outcomes.len() == 0
            &&& stage == StoreStage::Saving <==> outcomes == seq![true]
            &&& stage == StoreStage::Moving <==> outcomes == seq![true, true]
        }),
    decreases outcomes.len(),
{
    if outcomes.len() > 0 {
        let before = outcomes.drop_last();
        store_stage_is(info, before);
        assert(outcomes =~= before.push(outcomes.last()));
        let stage = store_run(info, outcomes).0;
        if stage == StoreStage::Saving {
            assert(outcomes =~= seq![true]);
        }
        if outcomes == seq![true] {
            assert(before =~= Seq::empty());
        }
        if stage == StoreStage::Moving {
            assert(outcomes =~= seq![true, true]);
        }
        if outcomes == seq![true, true] {
            assert(before =~= seq![true]);
        }
    }
}

/// Different titles, and the same title on different servers, are kept in different files.
pub proof fn paths_tell_titles_apart(a: Imdb, first: Seq<char>, b: Imdb, second: Seq<char>)
    requires
        file_path(a, first) == file_path(b, second),
    ensures
        a == b,
        first == second,
{
    let p = file_path(a, first);
    let q = file_path(b, second);
    assert(p.last() == first && q.last() == second);
    let x = text::padded_digits(a.imdb_id as nat, 7);
    let y = text::padded_digits(b.imdb_id as nat, 7);
    text::padded_digits_parse(a.imdb_id as nat, 7, u32::MAX as nat);
    text::padded_digits_parse(b.imdb_id as nat, 7, u32::MAX as nat);
    assert(p[1] == "tt"@ + x && q[1] == "tt"@ + y);
    assert(p[1].skip("tt"@.len() as int) =~= x);
    assert(q[1].skip("tt"@.len() as int) =~= y);
    match (a.series_data, b.series_data) {
        (Some(c), Some(d)) => {
            text::digits_value(c.season as nat);
            text::digits_value(d.season as nat);
            text::digits_value(c.episode as nat);
            text::digits_value(d.episode as nat);
            assert(p[2] == text::digits(c.season as nat) && q[2] == text::digits(d.season as nat));
            assert(p[3] == text::digits(c.episode as nat) && q[3] == text::digits(
                d.episode as nat,
            ));
        },
        (None, None) => {},
        (Some(c), None) => {
            assert(p.len() == 5 && q.len() == 3);
        },
        (None, Some(d)) => {
            assert(p.len() == 3 && q.len() == 5);
        },
    }
}

/// Whether to start to make room: a new segment would take more than is allowed, and nobody
/// is making room already.
pub fn should_start_cleanup(total: u64, new_segment_size: u64, max: u64, in_progress: bool) -> (r:
    bool)
    ensures
        r == (total + new_segment_size > max && !in_progress),
{
    (total as u128) + (new_segment_size as u128) > max as u128 && !in_progress
}

/// How many segments are looked at first when room is made.
pub const FIRST_LOOK: u32 = 5;

/// Making room: the segments that were not used for longest are removed until the files
/// take no more than is allowed. Some of them are looked at, and when none of these is left,
/// again.
#[derive(Debug)]
pub struct Cleanup {
    pub least_accessed_count: u32,
    pub max_total_file_size: u64,
    pub looked_at: Vec<LeastAccessedSegment>,
}

/// What to do next to make room.
#[derive(Debug)]
pub enum CleanupAction {
    /// Look at so many of the segments that were not used for longest.
    Look(u32),
    /// Remove the file of a segment.
    Remove(LeastAccessedSegment),
    /// Nothing more: there is room enough.
    Done,
}

/// A number of segments to look at and one more, as far as that can be held.
pub open spec fn one_more(count: u32) -> u32 {
    if count == u32::MAX {
        count
    } else {
        (count + 1) as u32
    }
}

/// Whether there is room enough once a file is gone; `total` is what all files took with it.
pub open spec fn room_enough(total: int, size: u64, max: int) -> bool {
    total - size <= max
}

/// Whether the next segment that was looked at is to be removed, or others to be looked at
/// if none is left.
pub open spec fn goes_on(
    looked_at: Seq<LeastAccessedSegment>,
    after: Cleanup,
    action: CleanupAction,
) -> bool {
    if looked_at.len() > 0 {
        action == CleanupAction::Remove(looked_at[0]) && after.looked_at@ == looked_at.skip(1)
    } else {
        action == CleanupAction::Look(after.least_accessed_count) && after.looked_at@.len() == 0
    }
}

impl Cleanup {
    /// Starts to make room. The first action is to look at a few segments.
    pub fn new(max_total_file_size: u64) -> (r: (Self, CleanupAction))
        ensures
            r.0.least_accessed_count == FIRST_LOOK,
            r.0.max_total_file_size == max_total_file_size,
            r.0.looked_at@.len() == 0,
            r.1 == CleanupAction::Look(FIRST_LOOK),
    {
        let cleanup = Self {
            least_accessed_count: FIRST_LOOK,
            max_total_file_size,
            looked_at: Vec::new(),
        };
        (cleanup, CleanupAction::Look(FIRST_LOOK))
    }

    fn next(&mut self) -> (r: CleanupAction)
        ensures
            final(self).max_total_file_size == old(self).max_total_file_size,
            final(self).least_accessed_count == old(self).least_accessed_count,
            goes_on(old(self).looked_at@, *final(self), r),
    {
        if self.looked_at.len() > 0 {
            let segment = self.looked_at.remove(0);
            assert(self.looked_at@ =~= old(self).looked_at@.skip(1));
            CleanupAction::Remove(segment)
        } else {
            CleanupAction::Look(self.least_accessed_count)
        }
    }

    /// Takes the segments that were not used for longest.
    pub fn looked(&mut self, segments: Vec<LeastAccessedSegment>) -> (r: CleanupAction)
        ensures
            final(self).max_total_file_size == old(self).max_total_file_size,
            final(self).least_accessed_count == old(self).least_accessed_count,
            goes_on(segments@, *final(self), r),
    {
        self.looked_at = segments;
        self.next()
    }

    /// Takes note that a file is gone; `total` is what all files took with it, and
    /// `recorded` whether that it is gone could be recorded. What could not be recorded is
    /// looked at again, so that one more is to be looked at.
    pub fn file_gone(&mut self, total: u64, size: u64, recorded: bool) -> (r: CleanupAction)
        requires
            size <= total,
        ensures
            final(self).max_total_file_size == old(self).max_total_file_size,
            final(self).least_accessed_count == if recorded {
                old(self).least_accessed_count
            } else {
                one_more(old(self).least_accessed_count)
            },
            if room_enough(total as int, size, old(self).max_total_file_size as int) {
                r == CleanupAction::Done && final(self).looked_at == old(self).looked_at
            } else {
                goes_on(old(self).looked_at@, *final(self), r)
            },
    {
        if !recorded {
            self.look_further();
        }
        if total - size <= self.max_total_file_size {
            CleanupAction::Done
        } else {
            self.next()
        }
    }

    /// Takes note that a file could not be removed: one more is to be looked at, so as not
    /// to come back to the same ones only.
    pub fn not_removed(&mut self) -> (r: CleanupAction)
        ensures
            final(self).max_total_file_size == old(self).max_total_file_size,
            final(self).least_accessed_count == one_more(old(self).least_accessed_count),
            goes_on(old(self).looked_at@, *final(self), r),
    {
        self.look_further();
        self.next()
    }

    fn look_further(&mut self)
        ensures
            final(self).max_total_file_size == old(self).max_total_file_size,
            final(self).least_accessed_count == one_more(old(self).least_accessed_count),
            final(self).looked_at == old(self).looked_at,
    {
        if self.least_accessed_count < u32::MAX {
            self.least_accessed_count = self.least_accessed_count + 1;
        }
    }
}

/// How much the files take once some of these sizes are gone, one after the other, until
/// there is room enough.
pub open spec fn after_cleanup(total: int, sizes: Seq<u64>, max: int) -> int
    decreases sizes.len(),
{
    if sizes.len() == 0 {
        total
    } else if room_enough(total, sizes[0], max) {
        total - sizes[0]
    } else {
        after_cleanup(total - sizes[0], sizes.skip(1), max)
    }
}

/// All of some sizes.
pub open spec fn total_of(sizes: Seq<u64>) -> int
    decreases sizes.len(),
{
    if sizes.len() == 0 {
        0
    } else {
        sizes[0] + total_of(sizes.skip(1))
    }
}

/// Making room comes to an end with room enough if there are files enough to remove.
pub proof fn cleanup_makes_room(total: int, sizes: Seq<u64>, max: int)
    requires
        total > max,
        total - total_of(sizes) <= max,
    ensures
        after_cleanup(total, sizes, max) <= max,
    decreases sizes.len(),
{
    if sizes.len() > 0 && total - sizes[0] > max {
        cleanup_makes_room(total - sizes[0], sizes.skip(1), max);
    }
}

/// The number without a sign whose bits a number has.
pub open spec fn unsigned(n: i64) -> nat {
    if n < 0 {
        (n + 0x1_0000_0000_0000_0000) as nat
    } else {
        n as nat
    }
}

/// The number with a sign whose bits a number has.
pub open spec fn signed(n: nat) -> int {
    if n > i64::MAX {
        n - 0x1_0000_0000_0000_0000
    } else {
        n as int
    }
}

/// Reads a number as it is kept in the database.
pub fn from_column(n: i64) -> (r: u64)
    ensures
        r == unsigned(n),
{
    if n < 0 {
        (n as i128 + 0x1_0000_0000_0000_0000) as u64
    } else {
        n as u64
    }
}

/// A number as it is kept in the database.
pub fn to_column(n: u64) -> (r: i64)
    ensures
        r == signed(n as nat),
{
    if n > 0x7fff_ffff_ffff_ffff {
        (n as i128 - 0x1_0000_0000_0000_0000) as i64
    } else {
        n as i64
    }
}

/// What is kept in the database is read as it was.
pub proof fn column_round_trip(n: u64)
    ensures
        i64::MIN <= signed(n as nat) <= i64::MAX,
        unsigned(signed(n as nat) as i64) == n,
{
}

/// A title that is kept in the database by its number is read as it was, except one with
/// season zero, episode zero.
pub proof fn imdb_column_round_trip(imdb: Imdb)
    requires
        imdb.series_data != Some(contracts::SeriesData { season: 0, episode: 0 }),
    ensures
        contracts::imdb_of_code(unsigned(signed(contracts::imdb_code(imdb)) as i64)) == imdb,
{
    let code = contracts::imdb_code(imdb);
    assert(code <= u64::MAX);
    column_round_trip(code as u64);
    contracts::imdb_code_round_trip(imdb);
}

/// The title as it is kept in the database.
pub fn imdb_column(imdb: Imdb) -> (r: i64)
    ensures
        r == signed(contracts::imdb_code(imdb)),
{
    to_column(imdb.to_u64())
}

/// The number of a segment as it is kept in the database: its lower bits, with a sign.
pub open spec fn index_bits(index: nat) -> int {
    let low = index % 0x1_0000_0000;
    if low > 0x7fff_ffff {
        low - 0x1_0000_0000
    } else {
        low as int
    }
}

/// The number of a segment, or of segments, as it is kept in the database.
pub fn index_column(index: usize) -> (r: i32)
    ensures
        r == index_bits(index as nat),
{
    let low: u64 = index as u64 % 0x1_0000_0000;
    if low > 0x7fff_ffff {
        (low as i64 - 0x1_0000_0000) as i32
    } else {
        low as i32
    }
}

/// What is kept of a segment, from the columns of the database.
pub fn segment_info(segment: i64, size: i64, start_time: Option<i64>) -> (r: SegmentInfo)
    ensures
        r.segment_index == unsigned(segment) as usize,
        r.size == unsigned(size),
        r.start_time == start_time,
{
    SegmentInfo {
        segment_index: #[verifier::truncate]
        (from_column(segment) as usize),
        size: from_column(size),
        start_time,
    }
}

/// The number of a segment that is kept is read as it was, as long as it is not huge.
pub proof fn segment_index_round_trip(index: usize)
    requires
        index <= i32::MAX,
    ensures
        unsigned(index_bits(index as nat) as i64) as usize == index,
{
}

/// A segment that was not used for long.
#[derive(Debug)]
pub struct LeastAccessedSegment {
    pub imdb: Imdb,
    pub server: String,
    pub segment: SegmentInfo,
}

/// A segment that was not used for long, from the columns of the database.
pub fn least_accessed(
    imdb: i64,
    server: String,
    size: i64,
    segment: i64,
    start_time: Option<i64>,
) -> (r: LeastAccessedSegment)
    ensures
        r.imdb == contracts::imdb_of_code(unsigned(imdb)),
        r.server@ == server@,
        r.segment.segment_index == unsigned(segment) as usize,
        r.segment.size == unsigned(size),
        r.segment.start_time == start_time,
{
    LeastAccessedSegment {
        imdb: Imdb::from_u64(from_column(imdb)),
        server,
        segment: segment_info(segment, size, start_time),
    }
}

/// How much all files take, from the sum of their sizes in the database; without files
/// there is no sum.
pub fn total_size(sum: Option<i64>) -> (r: u64)
    ensures
        r == match sum {
            Some(sum) => unsigned(sum),
            None => 0,
        },
{
    match sum {
        Some(sum) => from_column(sum),
        None => 0,
    }
}

/// What is kept of a playlist: how long the movie lasts, and how many segments it has.
#[derive(Debug, Clone, Copy, PartialEq, Eq, Structural)]
pub struct PlaylistInfoMetadata {
    pub movie_duration: i64,
    pub total_segments: usize,
}

/// What is kept of a playlist, from the columns of the database.
pub fn playlist_metadata(segments_count: i64, duration: i64) -> (r: PlaylistInfoMetadata)
    ensures
        r.total_segments == unsigned(segments_count) as usize,
        r.movie_duration == duration,
{
    PlaylistInfoMetadata {
        movie_duration: duration,
        total_segments: #[verifier::truncate]
        (from_column(segments_count) as usize),
    }
}

/// A segment is kept step by step: its content is written, then what is known of it is saved, then
/// its file is moved into place; the first step that fails ends this, but for a file that could not
/// be moved, which is forgotten first.
pub proof fn segments_are_kept_step_by_step(info: SegmentInfo, outcomes: Seq<bool>)
    ensures
        store_run(info, outcomes).1 == StoreAction::WriteTemporary <==> outcomes.len() == 0,
        store_run(info, outcomes).1 == StoreAction::SaveInfo(info) <==> outcomes == seq![true],
        store_run(info, outcomes).1 == StoreAction::MoveIntoPlace <==> outcomes == seq![true, true],
        store_run(info, outcomes).1 == StoreAction::Stop <==> {
            &&& outcomes.len() > 0
            &&& outcomes != seq![true]
            &&& outcomes != seq![true, true]
            &&& outcomes != seq![true, true, true]
            &&& outcomes != seq![true, true, false]
        },
{
    only_stored_segments_count(info, outcomes);
    store_stage_is(info, outcomes);
    if outcomes.len() > 0 {
        let before = outcomes.drop_last();
        store_stage_is(info, before);
        assert(outcomes =~= before.push(outcomes.last()));
        if before == seq![true, true] {
            if outcomes.last() {
                assert(outcomes =~= seq![true, true, true]);
            } else {
                assert(outcomes =~= seq![true, true, false]);
            }
        }
        if outcomes == seq![true] {
            assert(before =~= Seq::empty());
        }
        if outcomes == seq![true, true] {
            assert(before =~= seq![true]);
        }
        if before.len() == 0 && outcomes.last() {
            assert(outcomes =~= seq![true]);
        }
        if before == seq![true] && outcomes.last() {
            assert(outcomes =~= seq![true, true]);
        }
    }
}

/// Of the segments that were looked at the first is removed and the others stay; others are looked
/// at only once none is left.
pub proof fn looked_at_are_removed_in_order(
    looked_at: Seq<LeastAccessedSegment>,
    after: Cleanup,
    action: CleanupAction,
)
    requires
        goes_on(looked_at, after, action),
    ensures
        action matches CleanupAction::Remove(segment) ==> looked_at == seq![segment]
            + after.looked_at@,
        action is Look <==> looked_at.len() == 0,
        action matches CleanupAction::Look(count) ==> count == after.least_accessed_count,
        action !is Done,
{
    match action {
        CleanupAction::Remove(segment) => {
            assert(looked_at =~= seq![segment] + after.looked_at@);
        },
        _ => {},
    }
}

/// Making room removes no more than it has to: as long as there is not room enough the next file
/// goes, and none goes behind that.
pub proof fn cleanup_removes_no_more_than_needed(total: int, sizes: Seq<u64>, max: int)
    ensures
        exists|k: int|
            {
                &&& 0 <= k <= sizes.len()
                &&& after_cleanup(total, sizes, max) == total - #[trigger] total_of(sizes.take(k))
                &&& forall|j: int|
                    0 < j < k ==> total - #[trigger] total_of(sizes.take(j)) > max
                &&& k < sizes.len() ==> k > 0 && total - total_of(sizes.take(k)) <= max
            },
    decreases sizes.len(),
{
    if sizes.len() == 0 {
        assert(sizes.take(0).len() == 0);
        assert(total_of(sizes.take(0)) == 0);
    } else {
        let rest = sizes.skip(1);
        first_of_total(sizes, 1);
        assert(rest.take(0).len() == 0);
        if total - sizes[0] <= max {
            assert(total_of(sizes.take(1)) == sizes[0]);
        } else {
            cleanup_removes_no_more_than_needed(total - sizes[0], rest, max);
            let k = choose|k: int|
                {
                    &&& 0 <= k <= rest.len()
                    &&& after_cleanup(total - sizes[0], rest, max) == total - sizes[0]
                        - #[trigger] total_of(rest.take(k))
                    &&& forall|j: int|
                        0 < j < k ==> total - sizes[0] - #[trigger] total_of(rest.take(j)) > max
                    &&& k < rest.len() ==> k > 0 && total - sizes[0] - total_of(rest.take(k)) <= max
                };
            first_of_total(sizes, k + 1);
            assert(after_cleanup(total, sizes, max) == total - total_of(sizes.take(k + 1)));
            assert forall|j: int| 0 < j < k + 1 implies total - #[trigger] total_of(sizes.take(j))
                > max by {
                first_of_total(sizes, j);
                if j > 1 {
                    assert(total - sizes[0] - total_of(rest.take(j - 1)) > max);
                } else {
                    assert(total_of(rest.take(0)) == 0);
                }
            }
        }
    }
}

proof fn first_of_total(sizes: Seq<u64>, k: int)
    requires
        1 <= k <= sizes.len(),
    ensures
        total_of(sizes.take(k)) == sizes[0] + total_of(sizes.skip(1).take(k - 1)),
        k == 1 ==> total_of(sizes.take(k)) == sizes[0],
{
    assert(sizes.take(k).skip(1) =~= sizes.skip(1).take(k - 1));
    if k == 1 {
        assert(sizes.skip(1).take(0).len() == 0);
    }
}

/// Where the segments of a title are kept is below `movies`, in a directory that is read as the
/// title, for an episode in directories of its season and itself, and under the name of the server.
pub proof fn paths_name_the_title(imdb: Imdb, server: Seq<char>)
    ensures
        ({
            let path = file_path(imdb, server);
            &&& path[0] == "movies"@
            &&& contracts::parsed_imdb(path[1]) == Some(
                Imdb { imdb_id: imdb.imdb_id, series_data: None },
            )
            &&& path.last() == server
            &&& match imdb.series_data {
                Some(data) => path.len() == 5 && text::parsed_decimal(path[2], u16::MAX as nat)
                    == Some(data.season as nat) && text::parsed_decimal(path[3], u16::MAX as nat)
                    == Some(data.episode as nat),
                None => path.len() == 3,
            }
        }),
{
    let title = Imdb { imdb_id: imdb.imdb_id, series_data: None };
    contracts::imdb_text_round_trip(title);
    match imdb.series_data {
        Some(data) => {
            text::padded_digits_parse(data.season as nat, 0, u16::MAX as nat);
            text::padded_digits_parse(data.episode as nat, 0, u16::MAX as nat);
        },
        None => {},
    }
}

/// What could not be removed is not all that is looked at the next time: one more is, unless no
/// more can be counted.
pub proof fn one_more_is_looked_at(count: u32)
    ensures
        count < u32::MAX ==> one_more(count) == count + 1,
        one_more(count) >= count,
{
}

} // verus!
