//! Which segments to load ahead of somebody who is watching.

use super::keys::{M3U8CacheKey, SegmentId};
use super::SegmentRange;
use std::cmp::Ordering;
use std::sync::Arc;
use vstd::prelude::*;

verus! {

/// Segments to load: those of `range`, from the first on, of the playlist whose segments
/// are found at `uris`. Of several entries that with the lowest priority number is next: it
/// compares as the greatest.
pub struct SegmentHeapEntry {
    pub priority: usize,
    pub range: SegmentRange,
    pub uris: Arc<Vec<String>>,
    pub m3u8: M3U8CacheKey,
}

impl PartialEq for SegmentHeapEntry {
    fn eq(&self, other: &Self) -> (r: bool) {
        self.priority == other.priority
    }
}

impl vstd::std_specs::cmp::PartialEqSpecImpl for SegmentHeapEntry {
    open spec fn obeys_eq_spec() -> bool {
        true
    }

    open spec fn eq_spec(&self, other: &Self) -> bool {
        self.priority == other.priority
    }
}

impl Eq for SegmentHeapEntry {

}

impl PartialOrd for SegmentHeapEntry {
    fn partial_cmp(&self, other: &Self) -> (r: Option<Ordering>) {
        if self.priority > other.priority {
            Some(Ordering::Less)
        } else if self.priority == other.priority {
            Some(Ordering::Equal)
        } else {
            Some(Ordering::Greater)
        }
    }
}

impl vstd::std_specs::cmp::PartialOrdSpecImpl for SegmentHeapEntry {
    open spec fn obeys_partial_cmp_spec() -> bool {
        true
    }

    open spec fn partial_cmp_spec(&self, other: &Self) -> Option<Ordering> {
        if self.priority > other.priority {
            Some(Ordering::Less)
        } else if self.priority == other.priority {
            Some(Ordering::Equal)
        } else {
            Some(Ordering::Greater)
        }
    }
}

/// Where a segment is kept once it is loaded.
#[derive(Debug, Clone, Copy, PartialEq, Eq, Structural)]
pub enum CacheLocation {
    /// In memory and, once pushed out, on disk.
    Default,
    /// On disk only.
    OnDisk,
}

/// A segment to load, where it is found and where to keep it.
pub struct LoadTask {
    pub id: SegmentId,
    pub uri: String,
    pub location: CacheLocation,
}

/// The position of the entry that is next: the first with the lowest priority number.
pub open spec fn next_entry(entries: Seq<SegmentHeapEntry>) -> int
    decreases entries.len(),
{
    if entries.len() <= 1 {
        0
    } else {
        let before = next_entry(entries.drop_last());
        if entries.last().priority < entries[before].priority {
            entries.len() - 1
        } else {
            before
        }
    }
}

/// What is left of an entry once its first segment was taken.
pub open spec fn successor(entry: SegmentHeapEntry) -> SegmentHeapEntry {
    SegmentHeapEntry {
        priority: (entry.priority + 1) as usize,
        range: SegmentRange { start: (entry.range.start + 1) as usize, end: entry.range.end },
        ..entry
    }
}

/// Whether the playlist has the first segment of an entry.
pub open spec fn has_segment(entry: SegmentHeapEntry) -> bool {
    entry.range.start < entry.uris@.len()
}

/// Whether a task is to load the first segment of an entry: in memory for the first one of a
/// request, on disk only for the others.
pub open spec fn is_task(task: LoadTask, entry: SegmentHeapEntry) -> bool {
    &&& has_segment(entry)
    &&& task.id.m3u8 == entry.m3u8
    &&& task.id.segment_index == entry.range.start
    &&& task.uri@ == entry.uris@[entry.range.start as int]@
    &&& task.location == if entry.priority == 0 {
        CacheLocation::Default
    } else {
        CacheLocation::OnDisk
    }
}

/// The entries once the next one was served. It is dropped if the playlist ends before
/// its range, and otherwise goes on with the segment behind, if there is one.
pub open spec fn after_step(entries: Seq<SegmentHeapEntry>) -> Seq<SegmentHeapEntry> {
    let n = next_entry(entries);
    let entry = entries[n];
    let rest = entries.remove(n);
    if has_segment(entry) && entry.range.start + 1 < entry.range.end {
        rest.push(successor(entry))
    } else {
        rest
    }
}

/// Whether serving the entries gives `result`: the first segment of the next one, or nothing if
/// the playlist has no such segment.
pub open spec fn step_gives(entries: Seq<SegmentHeapEntry>, result: Option<LoadTask>) -> bool {
    let entry = entries[next_entry(entries)];
    match result {
        Some(task) => is_task(task, entry),
        None => !has_segment(entry),
    }
}

/// An entry for the segments behind the one that is watched.
pub open spec fn is_request(
    entry: SegmentHeapEntry,
    id: SegmentId,
    uris: Arc<Vec<String>>,
    count: usize,
) -> bool {
    &&& entry.priority == 0
    &&& entry.range.start == id.segment_index + 1
    &&& entry.range.end == id.segment_index + 1 + count
    &&& entry.uris == uris
    &&& entry.m3u8 == id.m3u8
}

/// No entry has a lower priority number than the one that is next.
pub proof fn next_entry_is_lowest(entries: Seq<SegmentHeapEntry>)
    requires
        entries.len() > 0,
    ensures
        0 <= next_entry(entries) < entries.len(),
        forall|k: int|
            0 <= k < entries.len() ==> (#[trigger] entries[k]).priority >= entries[next_entry(
                entries,
            )].priority,
    decreases entries.len(),
{
    if entries.len() > 1 {
        next_entry_is_lowest(entries.drop_last());
        assert(forall|k: int|
            0 <= k < entries.len() - 1 ==> entries.drop_last()[k] == #[trigger] entries[k]);
    }
}

/// The segments that wait to be loaded.
pub struct LoadQueue {
    pub entries: Vec<SegmentHeapEntry>,
    pub segments_count: usize,
}

impl LoadQueue {
    /// The priority number of an entry counts the segments that were taken from it.
    pub open spec fn well_formed(&self) -> bool {
        forall|k: int|
            0 <= k < self.entries@.len() ==> (#[trigger] self.entries@[k]).priority
                < self.entries@[k].range.start
    }

    /// A queue that loads so many segments behind each one that is watched.
    pub fn new(segments_count: usize) -> (r: Self)
        ensures
            r.well_formed(),
            r.entries@.len() == 0,
            r.segments_count == segments_count,
    {
        Self { entries: Vec::new(), segments_count }
    }

    pub fn is_empty(&self) -> (r: bool)
        ensures
            r == (self.entries@.len() == 0),
    {
        self.entries.len() == 0
    }

    /// Adds the segments behind one that is watched.
    pub fn request(&mut self, id: SegmentId, uris: Arc<Vec<String>>)
        requires
            old(self).well_formed(),
            id.segment_index + 1 + old(self).segments_count <= usize::MAX,
        ensures
            final(self).well_formed(),
            final(self).segments_count == old(self).segments_count,
            final(self).entries@.len() == old(self).entries@.len() + 1,
            final(self).entries@.drop_last() == old(self).entries@,
            is_request(final(self).entries@.last(), id, uris, old(self).segments_count),
    {
        let start: usize = id.segment_index + 1;
        self.entries.push(
            SegmentHeapEntry {
                priority: 0,
                range: SegmentRange { start, end: start + self.segments_count },
                uris,
                m3u8: id.m3u8,
            },
        );
        assert(self.entries@.drop_last() =~= old(self).entries@);
    }

    /// Serves the next entry: hands out its first segment, or nothing if the playlist has
    /// no such segment.
    pub fn step(&mut self) -> (r: Option<LoadTask>)
        requires
            old(self).well_formed(),
            old(self).entries@.len() > 0,
        ensures
            final(self).well_formed(),
            final(self).segments_count == old(self).segments_count,
            final(self).entries@ == after_step(old(self).entries@),
            step_gives(old(self).entries@, r),
    {
        let mut at: usize = 0;
        assert(self.entries@.take(1).len() == 1);
        for i in 1..self.entries.len()
            invariant
                self.entries@ == old(self).entries@,
                self.entries@.len() > 0,
                at < i,
                at == next_entry(self.entries@.take(i as int)),
        {
            assert(self.entries@.take(i + 1).drop_last() =~= self.entries@.take(i as int));
            if self.entries[i] > self.entries[at] {
                at = i;
            }
        }
        assert(self.entries@.take(self.entries@.len() as int) =~= self.entries@);
        let entry = self.entries.remove(at);
        assert(entry == old(self).entries@[at as int]);
        let start: usize = entry.range.start;
        let length: usize = entry.uris.len();
        if start >= length {
            return None;
        }
        let next = SegmentHeapEntry {
            priority: entry.priority + 1,
            range: SegmentRange { start: start + 1, end: entry.range.end },
            uris: entry.uris.clone(),
            m3u8: entry.m3u8.clone(),
        };
        let uri = entry.uris[start].clone();
        let location = if entry.priority == 0 {
            CacheLocation::Default
        } else {
            CacheLocation::OnDisk
        };
        if next.range.start < next.range.end {
            assert(next == successor(entry));
            self.entries.push(next);
        }
        Some(LoadTask { id: SegmentId { m3u8: entry.m3u8, segment_index: start }, uri, location })
    }
}

/// Whether to wait for a load to finish before the next one is started.
pub fn must_wait(running: usize, parallelism: usize) -> (r: bool)
    ensures
        r == (running > parallelism),
{
    running > parallelism
}

/// What loading ahead waits for.
#[derive(Debug)]
pub enum LoaderStage {
    /// That one of the loads that run is over.
    Join,
    /// Whether there is another request.
    Poll,
    /// A request.
    Receive,
    /// The playlist of a request; `awaited` says whether there was nothing else to do.
    Playlist { id: SegmentId, awaited: bool },
    /// That a load was started.
    Start,
    /// Nothing more.
    Stop,
}

/// What to do next to load ahead.
pub enum LoaderAction {
    /// Wait until one of the loads that run is over.
    Join,
    /// See whether there is another request, without waiting for one.
    Poll,
    /// Wait for a request.
    Receive,
    /// Find out where the segments of a playlist are.
    FindPlaylist(M3U8CacheKey),
    /// Start to load a segment.
    Start(LoadTask),
    /// Nothing more: nobody can ask any more.
    Stop,
}

/// Loading ahead of those who are watching, several segments at a time.
pub struct Loader {
    pub queue: LoadQueue,
    pub parallelism: usize,
    pub running: usize,
    pub stage: LoaderStage,
}

/// Whether a loader goes on with the next round: it waits while too much runs, and otherwise
/// looks for requests.
pub open spec fn takes_turn(before: Loader, after: Loader, action: LoaderAction) -> bool {
    &&& after.queue == before.queue
    &&& after.running == before.running
    &&& if before.running > before.parallelism {
        after.stage == LoaderStage::Join && action == LoaderAction::Join
    } else {
        after.stage == LoaderStage::Poll && action == LoaderAction::Poll
    }
}

/// Whether a loader, with these entries, serves the next one: it starts to load its first
/// segment, or goes on with the next round if the playlist has no such segment.
pub open spec fn serves(
    entries: Seq<SegmentHeapEntry>,
    running: usize,
    after: Loader,
    action: LoaderAction,
) -> bool {
    &&& after.queue.entries@ == after_step(entries)
    &&& match action {
        LoaderAction::Start(task) => {
            &&& is_task(task, entries[next_entry(entries)])
            &&& after.running == running + 1
            &&& after.stage == LoaderStage::Start
        },
        _ => {
            &&& !has_segment(entries[next_entry(entries)])
            &&& after.running == running
            &&& after.stage == LoaderStage::Poll
            &&& action == LoaderAction::Poll
        },
    }
}

impl Loader {
    /// Of the loads that run there is never more than one above what is allowed, and none
    /// above it while another one may be started; a request is waited for only while nothing
    /// waits to be loaded; and what was asked for can be counted.
    pub open spec fn well_formed(&self) -> bool {
        &&& self.queue.well_formed()
        &&& self.parallelism < usize::MAX
        &&& self.running <= self.parallelism + 1
        &&& match self.stage {
            LoaderStage::Join => self.running > self.parallelism,
            LoaderStage::Poll => self.running <= self.parallelism,
            LoaderStage::Receive => self.running <= self.parallelism && self.queue.entries@.len()
                == 0,
            LoaderStage::Playlist { id, awaited } => {
                &&& self.running <= self.parallelism
                &&& awaited ==> self.queue.entries@.len() == 0
                &&& self.can_request(id)
            },
            LoaderStage::Start => true,
            LoaderStage::Stop => true,
        }
    }

    /// Whether the segments behind this one can be counted.
    pub open spec fn can_request(&self, id: SegmentId) -> bool {
        id.segment_index + 1 + self.queue.segments_count <= usize::MAX
    }

    /// Whether what a loader was made for is the same.
    pub open spec fn same_limits(&self, other: Loader) -> bool {
        self.parallelism == other.parallelism && self.queue.segments_count
            == other.queue.segments_count
    }

    /// Loads so many segments behind each one that is watched, with so many loads at a time
    /// and one more. The first action is to see whether there is a request.
    pub fn new(segments_count: usize, parallelism: usize) -> (r: (Self, LoaderAction))
        requires
            parallelism < usize::MAX,
        ensures
            r.0.well_formed(),
            r.0.queue.entries@.len() == 0,
            r.0.queue.segments_count == segments_count,
            r.0.parallelism == parallelism,
            r.0.running == 0,
            r.0.stage == LoaderStage::Poll,
            r.1 == LoaderAction::Poll,
    {
        let queue = LoadQueue::new(segments_count);
        (Self { queue, parallelism, running: 0, stage: LoaderStage::Poll }, LoaderAction::Poll)
    }

    fn turn(&mut self) -> (r: LoaderAction)
        requires
            old(self).queue.well_formed(),
            old(self).parallelism < usize::MAX,
            old(self).running <= old(self).parallelism + 1,
        ensures
            final(self).well_formed(),
            final(self).same_limits(*old(self)),
            takes_turn(*old(self), *final(self), r),
    {
        if must_wait(self.running, self.parallelism) {
            self.stage = LoaderStage::Join;
            LoaderAction::Join
        } else {
            self.stage = LoaderStage::Poll;
            LoaderAction::Poll
        }
    }

    fn serve(&mut self) -> (r: LoaderAction)
        requires
            old(self).queue.well_formed(),
            old(self).queue.entries@.len() > 0,
            old(self).running <= old(self).parallelism < usize::MAX,
        ensures
            final(self).well_formed(),
            final(self).same_limits(*old(self)),
            serves(old(self).queue.entries@, old(self).running, *final(self), r),
    {
        match self.queue.step() {
            Some(task) => {
                self.running = self.running + 1;
                self.stage = LoaderStage::Start;
                LoaderAction::Start(task)
            },
            None => self.turn(),
        }
    }

    /// Takes note that a load is over.
    pub fn joined(&mut self) -> (r: LoaderAction)
        requires
            old(self).well_formed(),
            old(self).stage is Join,
        ensures
            final(self).well_formed(),
            final(self).same_limits(*old(self)),
            takes_turn(
                (Loader { running: (old(self).running - 1) as usize, ..*old(self) }),
                *final(self),
                r,
            ),
    {
        self.running = self.running - 1;
        self.turn()
    }

    /// Takes note that a load was started.
    pub fn started(&mut self) -> (r: LoaderAction)
        requires
            old(self).well_formed(),
            old(self).stage is Start,
        ensures
            final(self).well_formed(),
            final(self).same_limits(*old(self)),
            takes_turn(*old(self), *final(self), r),
    {
        self.turn()
    }

    /// Takes the request that was there, or that there is none: then the next entry is
    /// served, or a request waited for if there are no entries.
    pub fn polled(&mut self, request: Option<SegmentId>) -> (r: LoaderAction)
        requires
            old(self).well_formed(),
            old(self).stage is Poll,
            request matches Some(id) ==> old(self).can_request(id),
        ensures
            final(self).well_formed(),
            final(self).same_limits(*old(self)),
            match request {
                Some(id) => {
                    &&& r == LoaderAction::FindPlaylist(id.m3u8)
                    &&& final(self).stage == (LoaderStage::Playlist { id, awaited: false })
                    &&& final(self).queue == old(self).queue
                    &&& final(self).running == old(self).running
                },
                None => if old(self).queue.entries@.len() == 0 {
                    &&& r == LoaderAction::Receive
                    &&& final(self).stage == LoaderStage::Receive
                    &&& final(self).queue == old(self).queue
                    &&& final(self).running == old(self).running
                } else {
                    serves(old(self).queue.entries@, old(self).running, *final(self), r)
                },
            },
    {
        match request {
            Some(id) => {
                let m3u8 = id.m3u8.clone();
                self.stage = LoaderStage::Playlist { id, awaited: false };
                LoaderAction::FindPlaylist(m3u8)
            },
            None => {
                if self.queue.is_empty() {
                    self.stage = LoaderStage::Receive;
                    LoaderAction::Receive
                } else {
                    self.serve()
                }
            },
        }
    }

    /// Takes the request that was waited for, or that nobody can ask any more.
    pub fn received(&mut self, request: Option<SegmentId>) -> (r: LoaderAction)
        requires
            old(self).well_formed(),
            old(self).stage is Receive,
            request matches Some(id) ==> old(self).can_request(id),
        ensures
            final(self).well_formed(),
            final(self).same_limits(*old(self)),
            final(self).queue == old(self).queue,
            final(self).running == old(self).running,
            match request {
                Some(id) => r == LoaderAction::FindPlaylist(id.m3u8) && final(self).stage == (
                LoaderStage::Playlist { id, awaited: true }),
                None => r == LoaderAction::Stop && final(self).stage == LoaderStage::Stop,
            },
    {
        match request {
            Some(id) => {
                let m3u8 = id.m3u8.clone();
                self.stage = LoaderStage::Playlist { id, awaited: true };
                LoaderAction::FindPlaylist(m3u8)
            },
            None => {
                self.stage = LoaderStage::Stop;
                LoaderAction::Stop
            },
        }
    }

    /// Takes where the segments of the playlist are, or that it could not be found. After a
    /// request that was waited for, the next entry is served; that takes a playlist, as
    /// there is no other entry. Otherwise more requests are looked for.
    pub fn found_playlist(&mut self, uris: Option<Arc<Vec<String>>>) -> (r: LoaderAction)
        requires
            old(self).well_formed(),
            old(self).stage matches LoaderStage::Playlist { id, awaited } && (awaited ==> uris
                is Some),
        ensures
            final(self).well_formed(),
            final(self).same_limits(*old(self)),
            old(self).stage matches LoaderStage::Playlist { id, awaited } && (match uris {
                Some(uris) => exists|entry: SegmentHeapEntry|
                    {
                        &&& #[trigger] is_request(entry, id, uris, old(self).queue.segments_count)
                        &&& if awaited {
                            serves(
                                old(self).queue.entries@.push(entry),
                                old(self).running,
                                *final(self),
                                r,
                            )
                        } else {
                            &&& final(self).queue.entries@ == old(self).queue.entries@.push(entry)
                            &&& final(self).running == old(self).running
                            &&& final(self).stage == LoaderStage::Poll
                            &&& r == LoaderAction::Poll
                        }
                    },
                None => {
                    &&& final(self).queue == old(self).queue
                    &&& final(self).running == old(self).running
                    &&& final(self).stage == LoaderStage::Poll
                    &&& r == LoaderAction::Poll
                },
            }),
    {
        let (id, awaited) = match &self.stage {
            LoaderStage::Playlist { id, awaited } => (id.clone(), *awaited),
            _ => {
                return LoaderAction::Stop;
            },
        };
        match uris {
            Some(uris) => {
                let ghost before = self.queue.entries@;
                self.queue.request(id, uris);
                let ghost entry = self.queue.entries@.last();
                assert(self.queue.entries@ =~= before.push(entry));
                if awaited {
                    return self.serve();
                }
            },
            None => {},
        }
        self.stage = LoaderStage::Poll;
        LoaderAction::Poll
    }
}

/// As long as nothing new is asked for, the segments that are closer to what is watched are
/// loaded before those that are further away.
pub proof fn near_segments_come_first(entries: Seq<SegmentHeapEntry>)
    requires
        entries.len() > 0,
        after_step(entries).len() > 0,
        forall|k: int|
            0 <= k < entries.len() ==> (#[trigger] entries[k]).priority < entries[k].range.start,
    ensures
        entries[next_entry(entries)].priority <= after_step(entries)[next_entry(
            after_step(entries),
        )].priority,
{
    next_entry_is_lowest(entries);
    let after = after_step(entries);
    next_entry_is_lowest(after);
    let n = next_entry(entries);
    let m = next_entry(after);
    let rest = entries.remove(n);
    if m < rest.len() {
        assert(after[m] == rest[m]);
        assert(rest[m] == entries[if m < n {
            m
        } else {
            m + 1
        }]);
    } else {
        assert(after[m] == successor(entries[n]));
    }
}

/// The segments that are loaded, in order, if a queue is served `n` times.
pub open spec fn loaded(entries: Seq<SegmentHeapEntry>, n: nat) -> Seq<int>
    decreases n,
{
    if n == 0 || entries.len() == 0 {
        Seq::empty()
    } else {
        let entry = entries[next_entry(entries)];
        let later = loaded(after_step(entries), (n - 1) as nat);
        if entry.range.start < entry.uris@.len() {
            seq![entry.range.start as int] + later
        } else {
            later
        }
    }
}

/// How many segments an entry loads if it is served `n` times: no more than it has, and
/// none behind the end of the playlist.
pub open spec fn loads(entry: SegmentHeapEntry, n: nat) -> int {
    let wanted = entry.range.end - entry.range.start;
    let there = if entry.uris@.len() > entry.range.start {
        entry.uris@.len() - entry.range.start
    } else {
        0
    };
    let most = if wanted < there {
        wanted
    } else {
        there
    };
    if n < most {
        n as int
    } else {
        most
    }
}

/// A request that is alone in the queue loads its segments one after the other, up to the
/// end of its range or of the playlist.
pub proof fn lone_request_loads_in_order(entry: SegmentHeapEntry, n: nat)
    requires
        entry.priority < entry.range.start < entry.range.end,
    ensures
        loaded(seq![entry], n) == Seq::new(
            loads(entry, n) as nat,
            |i: int| entry.range.start + i,
        ),
    decreases n,
{
    let entries = seq![entry];
    let expected = Seq::new(loads(entry, n) as nat, |i: int| entry.range.start + i);
    if n > 0 {
        let rest = entries.remove(0);
        assert(rest =~= Seq::empty());
        let later = loaded(after_step(entries), (n - 1) as nat);
        if entry.range.start < entry.uris@.len() && entry.range.start + 1 < entry.range.end {
            assert(rest.push(successor(entry)) =~= seq![successor(entry)]);
            lone_request_loads_in_order(successor(entry), (n - 1) as nat);
            assert(loaded(entries, n) =~= expected);
        } else {
            assert(later =~= Seq::empty());
            assert(loaded(entries, n) =~= expected);
        }
    } else {
        assert(loaded(entries, n) =~= expected);
    }
}

/// Whether serving `before` again and again gives these results, one after the other, and leaves
/// `after`.
pub open spec fn is_run(
    before: Seq<SegmentHeapEntry>,
    results: Seq<Option<LoadTask>>,
    after: Seq<SegmentHeapEntry>,
) -> bool
    decreases results.len(),
{
    if results.len() == 0 {
        after == before
    } else {
        &&& before.len() > 0
        &&& step_gives(before, results[0])
        &&& is_run(after_step(before), results.skip(1), after)
    }
}

/// Whether an entry is about the segment that a task loads, from where it loads it and to where:
/// a segment of its range, or the first one where the range is empty, that the playlist has. Only
/// the first segment of a request is kept in memory.
pub open spec fn asks_for(entry: SegmentHeapEntry, task: LoadTask) -> bool {
    let k = task.id.segment_index;
    &&& task.id.m3u8 == entry.m3u8
    &&& entry.range.start <= k
    &&& k < entry.range.end || k == entry.range.start
    &&& k < entry.uris@.len()
    &&& task.uri@ == entry.uris@[k as int]@
    &&& task.location is Default <==> (entry.priority == 0 && k == entry.range.start)
}

/// Whether two tasks load the same segment from the same place to the same place.
pub open spec fn same_load(a: LoadTask, b: LoadTask) -> bool {
    a.id == b.id && a.uri@ == b.uri@ && a.location == b.location
}

/// How many of the entries are about the segment that a task loads.
pub open spec fn asking(entries: Seq<SegmentHeapEntry>, task: LoadTask) -> nat
    decreases entries.len(),
{
    if entries.len() == 0 {
        0
    } else {
        asking(entries.drop_last(), task) + if asks_for(entries.last(), task) {
            1nat
        } else {
            0nat
        }
    }
}

/// How often what a task loads was handed out.
pub open spec fn times_loaded(results: Seq<Option<LoadTask>>, task: LoadTask) -> nat
    decreases results.len(),
{
    if results.len() == 0 {
        0
    } else {
        times_loaded(results.skip(1), task) + if results[0] matches Some(given) && same_load(
            given,
            task,
        ) {
            1nat
        } else {
            0nat
        }
    }
}

proof fn asking_without(entries: Seq<SegmentHeapEntry>, n: int, task: LoadTask)
    requires
        0 <= n < entries.len(),
    ensures
        asking(entries, task) == asking(entries.remove(n), task) + if asks_for(entries[n], task) {
            1nat
        } else {
            0nat
        },
    decreases entries.len(),
{
    let rest = entries.remove(n);
    if n == entries.len() - 1 {
        assert(rest =~= entries.drop_last());
    } else {
        asking_without(entries.drop_last(), n, task);
        assert(rest.drop_last() =~= entries.drop_last().remove(n));
        assert(rest.last() == entries.last());
    }
}

proof fn asking_with(entries: Seq<SegmentHeapEntry>, entry: SegmentHeapEntry, task: LoadTask)
    ensures
        asking(entries.push(entry), task) == asking(entries, task) + if asks_for(entry, task) {
            1nat
        } else {
            0nat
        },
{
    assert(entries.push(entry).drop_last() =~= entries);
}

/// The priority numbers of all entries are less than the segments that they start with.
pub open spec fn counted(entries: Seq<SegmentHeapEntry>) -> bool {
    forall|k: int| 0 <= k < entries.len() ==> (#[trigger] entries[k]).priority < entries[k].range.start
}

proof fn step_keeps_counted(entries: Seq<SegmentHeapEntry>)
    requires
        entries.len() > 0,
        counted(entries),
    ensures
        counted(after_step(entries)),
{
    next_entry_is_lowest(entries);
    let n = next_entry(entries);
    let after = after_step(entries);
    let rest = entries.remove(n);
    assert forall|k: int| 0 <= k < after.len() implies (#[trigger] after[k]).priority
        < after[k].range.start by {
        if k < rest.len() {
            assert(after[k] == rest[k]);
            assert(rest[k] == entries[if k < n {
                k
            } else {
                k + 1
            }]);
        } else {
            assert(entries[n].priority < entries[n].range.start);
            assert(after[k] == successor(entries[n]));
        }
    }
}

/// Whatever waits in a queue, what is handed out until it is empty is what its entries are
/// about: every segment of every entry that its playlist has, once for each entry that has it,
/// and nothing else. On the way there, what was not handed out is still waiting.
pub proof fn everything_is_loaded(
    before: Seq<SegmentHeapEntry>,
    results: Seq<Option<LoadTask>>,
    after: Seq<SegmentHeapEntry>,
    task: LoadTask,
)
    requires
        counted(before),
        is_run(before, results, after),
    ensures
        times_loaded(results, task) + asking(after, task) == asking(before, task),
        after.len() == 0 ==> times_loaded(results, task) == asking(before, task),
    decreases results.len(),
{
    if results.len() > 0 {
        let n = next_entry(before);
        let entry = before[n];
        let rest = before.remove(n);
        next_entry_is_lowest(before);
        step_keeps_counted(before);
        everything_is_loaded(after_step(before), results.skip(1), after, task);
        asking_without(before, n, task);
        asking_with(rest, successor(entry), task);
        assert(entry.priority < entry.range.start);
        match results[0] {
            Some(given) => {
                assert(has_segment(entry));
                assert(asks_for(entry, given));
            },
            None => {
                assert(!asks_for(entry, task));
            },
        }
    }
}

/// How often the entries are served at most.
pub open spec fn steps_left(entries: Seq<SegmentHeapEntry>) -> nat
    decreases entries.len(),
{
    if entries.len() == 0 {
        0
    } else {
        let range = entries.last().range;
        steps_left(entries.drop_last()) + if range.start + 1 < range.end {
            (range.end - range.start) as nat
        } else {
            1
        }
    }
}

proof fn steps_without(entries: Seq<SegmentHeapEntry>, n: int)
    requires
        0 <= n < entries.len(),
    ensures
        steps_left(entries) == steps_left(entries.remove(n)) + steps_left(seq![entries[n]]),
    decreases entries.len(),
{
    let rest = entries.remove(n);
    let one = seq![entries[n]];
    assert(one.drop_last() =~= Seq::empty());
    assert(steps_left(Seq::<SegmentHeapEntry>::empty()) == 0);
    if n == entries.len() - 1 {
        assert(rest =~= entries.drop_last());
    } else {
        steps_without(entries.drop_last(), n);
        assert(rest.drop_last() =~= entries.drop_last().remove(n));
        assert(rest.last() == entries.last());
    }
}

/// A queue is empty after so many steps as its entries have segments, and no later.
pub proof fn queue_runs_empty(
    before: Seq<SegmentHeapEntry>,
    results: Seq<Option<LoadTask>>,
    after: Seq<SegmentHeapEntry>,
)
    requires
        counted(before),
        is_run(before, results, after),
    ensures
        results.len() + steps_left(after) <= steps_left(before),
        results.len() == steps_left(before) ==> after.len() == 0,
    decreases results.len(),
{
    if results.len() > 0 {
        let n = next_entry(before);
        let entry = before[n];
        let rest = before.remove(n);
        next_entry_is_lowest(before);
        step_keeps_counted(before);
        queue_runs_empty(after_step(before), results.skip(1), after);
        steps_without(before, n);
        let one = seq![entry];
        assert(one.drop_last() =~= Seq::empty());
        assert(entry.priority < entry.range.start);
        let longer = rest.push(successor(entry));
        assert(longer.drop_last() =~= rest);
    }
    if after.len() > 0 {
        assert(steps_left(after) > 0);
    }
}

/// Whether `later` is what is left of `entry`: the same playlist up to the same end, and as many
/// segments further as its priority number is higher.
pub open spec fn is_rest_of(later: SegmentHeapEntry, entry: SegmentHeapEntry) -> bool {
    &&& later.m3u8 == entry.m3u8
    &&& later.uris == entry.uris
    &&& later.range.end == entry.range.end
    &&& later.range.start >= entry.range.start
    &&& later.range.start - later.priority == entry.range.start - entry.priority
}

/// The priority number of an entry says how far it is ahead of where its request started, however
/// often the queue was served. As the entry with the lowest number is next, no segment is handed
/// out while one waits that is nearer to what is watched.
pub proof fn viewers_take_turns(
    before: Seq<SegmentHeapEntry>,
    results: Seq<Option<LoadTask>>,
    after: Seq<SegmentHeapEntry>,
    j: int,
)
    requires
        counted(before),
        is_run(before, results, after),
        0 <= j < after.len(),
    ensures
        exists|i: int| 0 <= i < before.len() && is_rest_of(after[j], #[trigger] before[i]),
        after[next_entry(after)].priority <= after[j].priority,
    decreases results.len(),
{
    next_entry_is_lowest(after);
    if results.len() == 0 {
        assert(is_rest_of(after[j], before[j]));
    } else {
        let n = next_entry(before);
        let rest = before.remove(n);
        let middle = after_step(before);
        next_entry_is_lowest(before);
        step_keeps_counted(before);
        viewers_take_turns(middle, results.skip(1), after, j);
        let k = choose|k: int| 0 <= k < middle.len() && is_rest_of(after[j], #[trigger] middle[k]);
        if k < rest.len() {
            assert(middle[k] == rest[k]);
            let i = if k < n {
                k
            } else {
                k + 1
            };
            assert(rest[k] == before[i]);
            assert(is_rest_of(after[j], before[i]));
        } else {
            assert(before[n].priority < before[n].range.start);
            assert(is_rest_of(after[j], before[n]));
        }
    }
}

/// Who watches a segment gets those behind it, as many as a queue is made for, as far as the
/// playlist goes; the very next one is kept in memory.
pub proof fn request_is_for_what_follows(
    entry: SegmentHeapEntry,
    id: SegmentId,
    uris: Arc<Vec<String>>,
    count: usize,
    task: LoadTask,
)
    requires
        is_request(entry, id, uris, count),
        count > 0,
    ensures
        asks_for(entry, task) <==> {
            &&& task.id.m3u8 == id.m3u8
            &&& id.segment_index < task.id.segment_index <= id.segment_index + count
            &&& task.id.segment_index < uris@.len()
            &&& task.uri@ == uris@[task.id.segment_index as int]@
            &&& task.location is Default <==> task.id.segment_index == id.segment_index + 1
        },
{
}

/// A loader that serves its entries hands out what its queue does: it starts to load a segment
/// exactly if the queue gave one, and then one load more runs.
pub proof fn loader_serves_its_queue(
    entries: Seq<SegmentHeapEntry>,
    running: usize,
    after: Loader,
    action: LoaderAction,
)
    requires
        entries.len() > 0,
        serves(entries, running, after, action),
    ensures
        is_run(
            entries,
            seq![
                match action {
                    LoaderAction::Start(task) => Some(task),
                    _ => None,
                },
            ],
            after.queue.entries@,
        ),
        action is Start || action is Poll,
        after.running - running == if action is Start {
            1int
        } else {
            0int
        },
{
    let result = match action {
        LoaderAction::Start(task) => Some(task),
        _ => None,
    };
    let results = seq![result];
    assert(results.skip(1) =~= Seq::empty());
    assert(step_gives(entries, results[0]));
    assert(is_run(after_step(entries), results.skip(1), after.queue.entries@));
}

/// A loader waits for a load to be over exactly while more loads run than are allowed, and looks
/// for requests otherwise; nothing that waits to be loaded is lost by that.
pub proof fn loader_waits_only_when_full(before: Loader, after: Loader, action: LoaderAction)
    requires
        takes_turn(before, after, action),
    ensures
        action is Join <==> before.running > before.parallelism,
        action is Poll <==> before.running <= before.parallelism,
        after.queue.entries@ == before.queue.entries@,
        after.running == before.running,
{
}

} // verus!
