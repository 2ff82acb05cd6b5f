use std::sync::Arc;

use fsonline::contracts::{Imdb, SeriesData};
use fsonline::player::keys::{
    segment_weight, times_weight, weigher, CounterWritter, M3U8CacheKey, SegmentId,
};
use fsonline::player::load_queue::{
    must_wait, CacheLocation, LoadQueue, Loader, LoaderAction,
};
use fsonline::player::populate::{
    segment_duration, LoadCacheRequest, MovieData, PopulateAction, PopulateQueue,
    DEFAULT_SEGMENT_TICKS,
};
use fsonline::player::segments_database::{
    from_column, imdb_column, index_column, least_accessed, movie_file_path, playlist_metadata,
    segment_info, segment_source, should_start_cleanup, to_column, total_size, Cleanup,
    CleanupAction, OpenOutcome, SegmentSource, SegmentStore, StoreAction, StoreStage,
};
use fsonline::player::SegmentInfo;
use fsonline::small_cache::SmallCache;

fn key(name: &str) -> M3U8CacheKey {
    M3U8CacheKey { imdb: Imdb { imdb_id: 7, series_data: None }, server_name: name.to_owned() }
}

fn id(name: &str, segment_index: usize) -> SegmentId {
    SegmentId { m3u8: key(name), segment_index }
}

fn uris(name: &str, count: usize) -> Arc<Vec<String>> {
    Arc::new((0..count).map(|i| format!("{name}{i}")).collect())
}

#[test]
fn sizes_of_keys() {
    let fields = size_of::<Arc<str>>() + size_of::<Imdb>();
    assert_eq!(key("Vidmoly").size(), 7 + fields);
    assert_eq!(key("é").size(), 2 + fields);
    assert_eq!(id("Vidmoly", 3).size(), 7 + fields + size_of::<usize>());
    assert_eq!(weigher(&key("abc"), 100), (103 + fields) as u32);
    assert_eq!(weigher(&key("abc"), usize::MAX), u32::MAX);
    assert_eq!(segment_weight(&id("abc", 1), 10), 13 + fields + size_of::<usize>());
    assert_eq!(
        times_weight(&key("abc"), 4) as usize,
        3 + fields + size_of::<Vec<u8>>() + 4 * (size_of::<usize>() + size_of::<f32>())
    );
    assert!(key("a").same(&key("a")));
    assert!(!key("a").same(&key("b")));
}

#[test]
fn counting_what_is_written() {
    let mut counter = CounterWritter::new();
    assert_eq!(counter.write(b"hello"), 5);
    assert_eq!(counter.write(b""), 0);
    assert_eq!(counter.write(b" world"), 6);
    counter.flush();
    assert_eq!(counter.size, 11);
}

#[test]
fn a_lone_request_is_loaded_in_order() {
    let mut queue = LoadQueue::new(3);
    assert!(queue.is_empty());
    queue.request(id("a", 1), uris("a", 10));
    let mut loaded = Vec::new();
    while !queue.is_empty() {
        let task = queue.step().unwrap();
        loaded.push((task.id.segment_index, task.uri, task.location));
    }
    assert_eq!(
        loaded,
        vec![
            (2, "a2".to_owned(), CacheLocation::Default),
            (3, "a3".to_owned(), CacheLocation::OnDisk),
            (4, "a4".to_owned(), CacheLocation::OnDisk),
        ]
    );
}

#[test]
fn requests_take_turns() {
    let mut queue = LoadQueue::new(2);
    queue.request(id("a", 0), uris("a", 10));
    queue.step();
    queue.request(id("b", 4), uris("b", 10));
    let mut loaded = Vec::new();
    while !queue.is_empty() {
        let task = queue.step().unwrap();
        loaded.push(task.uri);
    }
    assert_eq!(loaded, vec!["b5", "a2", "b6"]);
}

#[test]
fn entries_compare_by_priority() {
    let mut queue = LoadQueue::new(2);
    queue.request(id("a", 0), uris("a", 10));
    queue.step();
    queue.request(id("b", 4), uris("b", 10));
    queue.request(id("a", 7), uris("a", 10));
    // The one that was served once is the least.
    assert!(queue.entries[0] < queue.entries[1]);
    assert!(queue.entries[1] > queue.entries[0]);
    assert!(queue.entries[1] == queue.entries[2]);
}

#[test]
fn loading_stops_at_the_end_of_the_playlist() {
    let mut queue = LoadQueue::new(5);
    queue.request(id("a", 7), uris("a", 9));
    assert_eq!(queue.step().unwrap().uri, "a8");
    assert!(queue.step().is_none());
    assert!(queue.is_empty());
    assert!(!must_wait(4, 4));
    assert!(must_wait(5, 4));
}

/// What happens when a loader is served with these requests, of which only those for the
/// server `a` have a playlist.
fn run_loader(mut loader: Loader, mut action: LoaderAction, requests: Vec<SegmentId>) -> String {
    let mut requests = requests.into_iter();
    let mut log = String::new();
    loop {
        action = match action {
            LoaderAction::Join => {
                log.push_str("join ");
                loader.joined()
            }
            LoaderAction::Poll => loader.polled(requests.next()),
            LoaderAction::Receive => {
                log.push_str("receive ");
                loader.received(requests.next())
            }
            LoaderAction::FindPlaylist(m3u8) => {
                let found = m3u8.server_name == "a";
                loader.found_playlist(found.then(|| uris("a", 10)))
            }
            LoaderAction::Start(task) => {
                log.push_str(&task.uri);
                log.push(' ');
                loader.started()
            }
            LoaderAction::Stop => {
                log.push_str("stop");
                assert!(loader.running <= loader.parallelism);
                return log;
            }
        };
    }
}

#[test]
fn no_more_loads_run_than_are_allowed() {
    let (loader, action) = Loader::new(4, 1);
    let log = run_loader(loader, action, vec![id("a", 2)]);
    assert_eq!(log, "a3 a4 join a5 join a6 join receive stop");
    let (loader, action) = Loader::new(2, 9);
    let log = run_loader(loader, action, vec![id("a", 8), id("b", 1), id("a", 0)]);
    assert_eq!(log, "a9 a1 a2 receive stop");
}

#[test]
fn a_loader_waits_once_there_is_nothing_to_load() {
    let (mut loader, action) = Loader::new(1, 3);
    assert!(matches!(action, LoaderAction::Poll));
    assert!(matches!(loader.polled(None), LoaderAction::Receive));
    match loader.received(Some(id("a", 4))) {
        LoaderAction::FindPlaylist(m3u8) => assert_eq!(m3u8, key("a")),
        _ => panic!("a playlist is needed"),
    }
    match loader.found_playlist(Some(uris("a", 10))) {
        LoaderAction::Start(task) => assert_eq!(task.id, id("a", 5)),
        _ => panic!("there is a segment to load"),
    }
    assert_eq!(loader.running, 1);
    assert!(matches!(loader.started(), LoaderAction::Poll));
    // What is not in the playlist is not loaded.
    assert!(matches!(loader.polled(Some(id("a", 9))), LoaderAction::FindPlaylist(_)));
    assert!(matches!(loader.found_playlist(Some(uris("a", 10))), LoaderAction::Poll));
    assert!(matches!(loader.polled(None), LoaderAction::Poll));
    assert!(matches!(loader.polled(None), LoaderAction::Receive));
    assert!(matches!(loader.received(None), LoaderAction::Stop));
}

#[test]
fn what_was_loaded_of_a_movie() {
    let mut movie = MovieData::new(6);
    let next = movie.get_next_to_compute(2).unwrap();
    assert_eq!((next.next_index, next.time_taken), (2, 0));
    movie.insert(2, 10);
    movie.insert(4, 20);
    movie.insert(3, 5);
    let next = movie.get_next_to_compute(2).unwrap();
    assert_eq!((next.next_index, next.time_taken), (5, 35));
    let next = movie.get_next_to_compute(3).unwrap();
    assert_eq!((next.next_index, next.time_taken), (5, 25));
    let next = movie.get_next_to_compute(0).unwrap();
    assert_eq!((next.next_index, next.time_taken), (0, 0));
    movie.insert(5, 7);
    assert!(movie.get_next_to_compute(2).is_none());
    assert!(movie.get_next_to_compute(5).is_none());
    let next = movie.get_next_to_compute(9).unwrap();
    assert_eq!(next.next_index, 9);
}

#[test]
fn durations_of_segments() {
    assert_eq!(segment_duration(Some(5), Some(25)), 20);
    assert_eq!(segment_duration(Some(25), Some(5)), -20);
    assert_eq!(segment_duration(None, Some(5)), DEFAULT_SEGMENT_TICKS);
    assert_eq!(segment_duration(Some(5), None), 900_000);
    assert_eq!(segment_duration(Some(i64::MIN), Some(i64::MAX)), i64::MAX);
}

fn wanted(name: &str, index: usize, time_remaining: i64) -> LoadCacheRequest {
    LoadCacheRequest { segment_id: id(name, index), time_remaining }
}

#[test]
fn the_request_that_wants_most_is_served_first() {
    let mut queue = PopulateQueue::new();
    assert!(queue.take().is_none());
    queue.request(wanted("a", 1, 50));
    queue.request(wanted("b", 2, 70));
    queue.request(wanted("a", 3, 60));
    queue.request(wanted("b", 2, 10));
    let mut order = Vec::new();
    while let Some(request) = queue.take() {
        order.push((
            request.segment_id.m3u8.server_name,
            request.segment_id.segment_index,
            request.time_remaining,
        ));
    }
    assert_eq!(
        order,
        vec![("a".to_owned(), 3, 60), ("a".to_owned(), 1, 50), ("b".to_owned(), 2, 10)]
    );
}

#[test]
fn a_movie_is_loaded_for_as_long_as_is_wanted() {
    let mut queue = PopulateQueue::new();
    queue.request(wanted("a", 2, 25));
    let mut loaded = Vec::new();
    while let Some(request) = queue.take() {
        if let Some(job) = queue.begin(request, 10, 0) {
            loaded.push((job.segment_id.segment_index, job.time_remaining));
            queue.finish(job, Some(100), Some(110));
        }
    }
    // Going on from a segment passes over it once more, so that its time counts twice.
    assert_eq!(loaded, vec![(2, 25), (3, 5)]);
    // What was loaded is not loaded again.
    let request = wanted("a", 2, 45);
    let job = queue.begin(request, 10, 0).unwrap();
    assert_eq!((job.segment_id.segment_index, job.time_remaining), (4, 25));
    assert!(queue.begin(wanted("a", 2, 20), 10, 0).is_none());
    let other = queue.begin(wanted("b", 2, 20), 10, 0).unwrap();
    assert_eq!(other.segment_id.segment_index, 2);
}

#[test]
fn loading_ahead_step_by_step() {
    let mut queue = PopulateQueue::new();
    assert!(matches!(queue.polled(Some(wanted("a", 2, 15))), PopulateAction::Poll));
    assert!(matches!(queue.polled(Some(wanted("b", 0, 99))), PopulateAction::Poll));
    let request = match queue.polled(None) {
        PopulateAction::Count(request) => request,
        _ => panic!("there are requests"),
    };
    assert_eq!(request.segment_id, id("b", 0));
    let job = match queue.counted(request, 10, 0) {
        PopulateAction::Load(job) => job,
        _ => panic!("nothing was loaded yet"),
    };
    assert_eq!((job.segment_id.segment_index, job.time_remaining), (0, 99));
    // A request whose segment cannot be loaded is given up.
    assert!(matches!(queue.loaded(job, None), PopulateAction::Poll));
    let request = match queue.polled(None) {
        PopulateAction::Count(request) => request,
        _ => panic!("there is a request"),
    };
    assert_eq!(request.segment_id, id("a", 2));
    let job = match queue.counted(request, 10, 0) {
        PopulateAction::Load(job) => job,
        _ => panic!("nothing was loaded yet"),
    };
    assert!(matches!(queue.loaded(job, Some((Some(0), Some(20)))), PopulateAction::Poll));
    assert!(matches!(queue.polled(None), PopulateAction::Receive));
    let request = match queue.received(Some(wanted("a", 2, 20))) {
        PopulateAction::Count(request) => request,
        _ => panic!("there is a request"),
    };
    // The segment that was loaded lasts long enough.
    assert!(matches!(queue.counted(request, 10, 0), PopulateAction::Poll));
    assert!(matches!(queue.received(None), PopulateAction::Stop));
}

#[test]
fn loading_ends_with_the_movie() {
    let mut queue = PopulateQueue::new();
    queue.request(wanted("a", 1, 1_000_000_000));
    let mut loaded = Vec::new();
    while let Some(request) = queue.take() {
        if let Some(job) = queue.begin(request, 4, 0) {
            loaded.push(job.segment_id.segment_index);
            queue.finish(job, None, None);
        }
    }
    assert_eq!(loaded, vec![1, 2, 3]);
}

#[test]
fn the_first_request_is_served() {
    for index in [0, 3] {
        let mut queue = PopulateQueue::new();
        assert!(queue.movies.cache.is_empty());
        let job = queue.begin(wanted("a", index, 5), 4, 0).unwrap();
        assert_eq!((job.segment_id.segment_index, job.time_remaining), (index, 5));
    }
}

#[test]
fn movies_are_remembered_while_others_are_served() {
    let mut queue = PopulateQueue::new();
    let job = queue.begin(wanted("a", 0, 50), 4, 7).unwrap();
    queue.finish(job, Some(0), Some(100));
    assert!(queue.begin(wanted("b", 0, 500), 4, 900_007).is_some());
    assert_eq!(queue.movies.cache.len(), 2);
    assert_eq!(queue.movies.cache[&0].next_compute.len(), 1);
    assert!(queue.begin(wanted("c", 0, 500), 4, 900_008).is_some());
    assert!(!queue.movies.cache.contains_key(&0));
    assert_eq!(queue.movies.cache.len(), 2);
    // That a segment was loaded does not count as needing the movie again.
    let mut queue = PopulateQueue::new();
    let job = queue.begin(wanted("a", 0, 50), 4, 0).unwrap();
    let other = queue.begin(wanted("b", 0, 50), 4, 800_000).unwrap();
    queue.finish(job, Some(0), Some(100));
    queue.finish(other, Some(0), Some(100));
    queue.begin(wanted("c", 0, 50), 4, 900_001);
    let mut known: Vec<u64> = queue.movies.cache.keys().copied().collect();
    known.sort();
    assert_eq!(known, vec![1, 2]);
}

#[test]
fn movies_are_forgotten_after_a_while() {
    let mut queue = PopulateQueue::new();
    let job = queue.begin(wanted("a", 0, 50), 4, 0).unwrap();
    queue.finish(job, Some(0), Some(100));
    let later = queue.begin(wanted("a", 0, 500), 4, 900_000).unwrap();
    assert_eq!(later.segment_id.segment_index, 1);
    queue.begin(wanted("b", 0, 500), 4, 1_800_001);
    let forgotten = queue.begin(wanted("a", 0, 500), 4, 1_800_002).unwrap();
    assert_eq!(forgotten.segment_id.segment_index, 0);
}

#[test]
fn entries_expire_when_nobody_asks_for_them() {
    let mut cache: SmallCache<u32> = SmallCache::new(10);
    *cache.get_or_insert_mut(1, || 100, 0) += 1;
    assert_eq!(*cache.get_or_insert_mut(1, || 200, 10), 101);
    assert_eq!(*cache.get_or_insert_mut(2, || 300, 15), 300);
    assert_eq!(cache.get_mut(1, 20).copied(), Some(101));
    assert_eq!(cache.get_mut(3, 26).copied(), None);
    // The second entry was asked for at fifteen last.
    assert_eq!(cache.cache.len(), 1);
    assert_eq!(cache.get_mut(2, 26).copied(), None);
    assert_eq!(cache.get_mut(1, 30).copied(), Some(101));
    *cache.held_mut(1).unwrap() = 7;
    assert!(cache.held_mut(2).is_none());
    // Asking for an entry that is over brings it back.
    assert_eq!(cache.get_mut(1, 1000).copied(), Some(7));
    assert_eq!(*cache.get_or_insert_mut(2, || 9, 1011), 9);
    assert_eq!(cache.cache.len(), 1);
}

#[test]
fn files_of_titles() {
    let movie = Imdb { imdb_id: 42, series_data: None };
    assert_eq!(movie_file_path(movie, "Vidmoly"), vec!["movies", "tt0000042", "Vidmoly"]);
    let episode = Imdb { imdb_id: 42, series_data: Some(SeriesData { season: 1, episode: 12 }) };
    assert_eq!(
        movie_file_path(episode, "VOE"),
        vec!["movies", "tt0000042", "1", "12", "VOE"]
    );
}

#[test]
fn where_a_segment_comes_from() {
    let imdb = Imdb { imdb_id: 42, series_data: None };
    let source = |outcome| segment_source(outcome, imdb, "VOE", 3);
    assert!(matches!(source(OpenOutcome::Opened), SegmentSource::File));
    match source(OpenOutcome::NotFound) {
        SegmentSource::Download(id) => {
            assert_eq!(id.segment_index, 3);
            assert_eq!(id.m3u8.imdb, imdb);
            assert_eq!(id.m3u8.server_name, "VOE");
        }
        other => panic!("{other:?}"),
    }
    match source(OpenOutcome::Failed) {
        SegmentSource::Error(e) => assert_eq!(e, "Failed to open segment file"),
        other => panic!("{other:?}"),
    }
}

#[test]
fn keeping_a_segment() {
    let info = SegmentInfo { segment_index: 3, size: 1000, start_time: Some(5) };
    let run = |outcomes: &[bool]| {
        let (mut store, mut action) = SegmentStore::new(info);
        for ok in outcomes {
            action = store.next(*ok);
        }
        (store.stage, action)
    };
    assert_eq!(run(&[]), (StoreStage::Writing, StoreAction::WriteTemporary));
    assert_eq!(run(&[true]), (StoreStage::Saving, StoreAction::SaveInfo(info)));
    assert_eq!(run(&[true, true]), (StoreStage::Moving, StoreAction::MoveIntoPlace));
    assert_eq!(run(&[true, true, true]), (StoreStage::Done, StoreAction::CountSize(1000)));
    assert_eq!(run(&[false]), (StoreStage::Done, StoreAction::Stop));
    assert_eq!(run(&[true, false]), (StoreStage::Done, StoreAction::Stop));
    assert_eq!(run(&[true, true, false]), (StoreStage::Forgetting, StoreAction::ForgetFile(3)));
    assert_eq!(run(&[true, true, false, true]), (StoreStage::Done, StoreAction::Stop));
    assert_eq!(run(&[true, true, true, true]), (StoreStage::Done, StoreAction::Stop));
}

#[test]
fn making_room() {
    assert!(!should_start_cleanup(60, 40, 100, false));
    assert!(should_start_cleanup(61, 40, 100, false));
    assert!(!should_start_cleanup(61, 40, 100, true));
    assert!(should_start_cleanup(u64::MAX, u64::MAX, u64::MAX, false));
    let segment = |size| least_accessed(1 << 32, "VOE".to_owned(), size, 3, None);
    let removed = |action| match action {
        CleanupAction::Remove(segment) => segment.segment.size,
        other => panic!("{other:?}"),
    };
    let (mut cleanup, action) = Cleanup::new(100);
    assert!(matches!(action, CleanupAction::Look(5)));
    assert_eq!(removed(cleanup.looked(vec![segment(50), segment(49), segment(7)])), 50);
    assert_eq!(removed(cleanup.file_gone(200, 50, true)), 49);
    assert_eq!(cleanup.least_accessed_count, 5);
    assert_eq!(removed(cleanup.file_gone(150, 49, false)), 7);
    assert_eq!(cleanup.least_accessed_count, 6);
    assert!(matches!(cleanup.not_removed(), CleanupAction::Look(7)));
    assert!(matches!(cleanup.looked(Vec::new()), CleanupAction::Look(7)));
    assert_eq!(removed(cleanup.looked(vec![segment(1), segment(2)])), 1);
    assert!(matches!(cleanup.file_gone(101, 1, true), CleanupAction::Done));
    assert_eq!(cleanup.looked_at.len(), 1);
}

#[test]
fn columns_of_the_database() {
    for n in [0, 1, u64::MAX, 1 << 63, (1 << 63) - 1] {
        assert_eq!(from_column(to_column(n)), n);
        assert_eq!(to_column(n), n as i64);
    }
    let imdb = Imdb {
        imdb_id: u32::MAX,
        series_data: Some(SeriesData { season: 3, episode: 4 }),
    };
    let row = least_accessed(imdb_column(imdb), "VOE".to_owned(), 77, 12, Some(5));
    assert_eq!(row.imdb, imdb);
    assert_eq!(row.server, "VOE");
    assert_eq!(row.segment, SegmentInfo { segment_index: 12, size: 77, start_time: Some(5) });
    for index in [0, 1, 0x7fff_ffff, 0x8000_0000, 0x1_0000_0003] {
        assert_eq!(index_column(index), index as i32);
    }
    assert_eq!(
        segment_info(12, 34, Some(5)),
        SegmentInfo { segment_index: 12, size: 34, start_time: Some(5) }
    );
    assert_eq!(segment_info(-1, -1, None).size, u64::MAX);
    assert_eq!(total_size(None), 0);
    assert_eq!(total_size(Some(9)), 9);
    let metadata = playlist_metadata(700, 90_000);
    assert_eq!((metadata.total_segments, metadata.movie_duration), (700, 90_000));
}
