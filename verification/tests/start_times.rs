use std::collections::BTreeMap;

use fsonline::player::intervals::{Interval, Item};
use fsonline::player::segment_time::{
    GetSegmentTimeError, SegmentTimeFetch, SegmentTimeStep, ATTEMPTS,
};
use fsonline::player::time_cache::{
    deadline_over, insert_time, known_times, late_start, listed, merge_times, movie_duration, record_time,
    sort_times, SearchStep, TimeCache, TimeCacheOptions, TimeSearch,
};
use fsonline::player::{OneSegmentTime, SegmentInfo, SegmentRange};

fn time(segment_index: usize, start_time: i64) -> OneSegmentTime {
    OneSegmentTime { segment_index, start_time }
}

fn item(start: usize, end: usize, from: i64, to: i64) -> Item {
    Item {
        segments: SegmentRange { start, end },
        segment_start_time: from,
        segment_end_time: to,
    }
}

#[test]
fn items_last_from_their_start_to_their_end() {
    assert_eq!(item(0, 1, 3, 10).duration(), 7);
    assert_eq!(item(0, 1, 10, 3).duration(), 0);
    assert_eq!(item(0, 1, i64::MIN, i64::MAX).duration(), u64::MAX);
    // Items are compared by how long they last.
    assert!(item(0, 1, 3, 10) == item(5, 9, 0, 7));
    assert!(item(0, 1, 3, 10) < item(0, 1, 0, 8));
    assert!(item(0, 1, 10, 3) == item(0, 1, 4, 4));
    assert!(item(0, 1, 0, 8) > item(0, 9, 0, 7));
}

#[test]
fn the_middle_of_an_item() {
    let forbidden = |list: &[usize]| list.iter().copied().collect();
    assert_eq!(item(0, 10, 0, 1).middle_index(&forbidden(&[])), 5);
    assert_eq!(item(0, 9, 0, 1).middle_index(&forbidden(&[])), 4);
    assert_eq!(item(4, 9, 0, 1).middle_index(&forbidden(&[6])), 5);
    assert_eq!(item(4, 9, 0, 1).middle_index(&forbidden(&[6, 5])), 7);
    assert_eq!(item(4, 9, 0, 1).middle_index(&forbidden(&[6, 5, 7])), 4);
    assert_eq!(item(4, 9, 0, 1).middle_index(&forbidden(&[6, 5, 7, 4])), 8);
    assert_eq!(item(0, 2, 0, 1).middle_index(&forbidden(&[1])), 0);
    assert_eq!(item(3, 3, 0, 1).middle_index(&forbidden(&[])), 3);
    assert!(item(3, 5, 0, 1).is_empty(&forbidden(&[3, 4])));
    assert!(!item(3, 5, 0, 1).is_empty(&forbidden(&[3])));
    assert!(item(5, 5, 0, 1).is_empty(&forbidden(&[])));
}

#[test]
fn items_between_known_times() {
    let interval = Interval::new(10, 100, &vec![time(0, 1), time(9, 90), time(4, 40)]);
    let mut found = interval.ranges.clone();
    found.sort_by_key(|i| i.segments.start);
    assert_eq!(found, vec![item(1, 4, 1, 40), item(5, 9, 40, 90)]);
    let nothing = Interval::new(2, 20, &vec![time(1, 5), time(0, 0)]);
    assert!(nothing.ranges.is_empty());
    let empty = Interval::new(0, 0, &Vec::new());
    assert_eq!(empty.ranges, vec![item(0, 0, 0, 0)]);
}

#[test]
fn the_longest_item_is_split_first() {
    let mut interval = Interval::new(10, 100, &vec![time(2, 10)]);
    let next = interval.next_best_to_split().unwrap();
    assert_eq!(*next.item(), item(3, 10, 10, 100));
    assert_eq!(next.index(), 6);
    next.split(80);
    let next = interval.next_best_to_split().unwrap();
    assert_eq!(*next.item(), item(3, 6, 10, 80));
    next.remove();
    let next = interval.next_best_to_split().unwrap();
    assert_eq!(next.index(), 3);
    next.remove();
    let next = interval.next_best_to_split().unwrap();
    assert_eq!(next.index(), 5);
    next.remove();
    // Nothing of that item is left.
    let next = interval.next_best_to_split().unwrap();
    assert_eq!(*next.item(), item(7, 10, 80, 100));
}

#[test]
fn every_segment_is_handed_out_once() {
    let mut interval = Interval::new(25, 1000, &vec![time(7, 300)]);
    let mut seen = vec![7];
    while let Some(next) = interval.next_best_to_split() {
        let index = next.index();
        seen.push(index);
        if index % 3 == 0 {
            next.remove();
        } else {
            next.split(index as i64 * 40);
        }
    }
    seen.sort();
    assert_eq!(seen, (0..25).collect::<Vec<_>>());
}

#[test]
fn a_search_stops_once_the_gaps_are_small() {
    let mut search = TimeSearch::new(Vec::new(), 16, 1600, 250, false);
    let mut asked = Vec::new();
    while let SearchStep::Fetch(index) = search.next() {
        asked.push(index);
        search.found(index, index as i64 * 100);
    }
    assert_eq!(asked.len(), 7);
    assert!(search.intervals.ranges.iter().all(|i| i.duration() < 250));
    let (times, changed) = search.finish();
    assert!(changed);
    assert!(times.windows(2).all(|w| w[0].segment_index < w[1].segment_index));
    assert_eq!(times.len(), 7);
}

#[test]
fn a_search_gives_up_on_segments_that_fail() {
    let mut search = TimeSearch::new(vec![time(1, 100)], 4, 400, 1, false);
    let mut asked = Vec::new();
    while let SearchStep::Fetch(index) = search.next() {
        asked.push(index);
        search.failed(index);
    }
    asked.sort();
    assert_eq!(asked, vec![0, 2, 3]);
    let (times, changed) = search.finish();
    assert!(!changed);
    assert_eq!(times, vec![time(1, 100)]);
}

#[test]
fn searches_with_nothing_to_do() {
    let mut search = TimeSearch::new(vec![time(1, 50), time(0, 0)], 2, 100, 10, true);
    assert_eq!(search.next(), SearchStep::Done);
    let (times, changed) = search.finish();
    assert!(changed);
    assert_eq!(times, vec![time(0, 0), time(1, 50)]);
    let mut search = TimeSearch::new(Vec::new(), 0, 0, 10, false);
    assert_eq!(search.next(), SearchStep::Done);
    let mut search = TimeSearch::new(Vec::new(), 5, 9, 10, false);
    assert_eq!(search.next(), SearchStep::Done);
}

#[test]
fn a_search_after_its_deadline() {
    let mut search = TimeSearch::new(Vec::new(), 5, 90, 10, false);
    assert_eq!(search.next_when_late(None, 7), SearchStep::Done);
    assert_eq!(search.next_when_late(Some(7), 7), SearchStep::Done);
    assert_eq!(search.next_when_late(Some(6), 7), SearchStep::Fetch(2));
    assert!(!deadline_over(None, 7));
    assert!(!deadline_over(Some(7), 7));
    assert!(deadline_over(Some(6), 7));
}

#[test]
fn tables_of_times() {
    let mut table: BTreeMap<usize, i64> = BTreeMap::new();
    assert!(record_time(&mut table, 4, Some(40)));
    assert!(!record_time(&mut table, 4, Some(41)));
    assert!(!record_time(&mut table, 5, None));
    assert!(record_time(&mut table, 1, Some(10)));
    assert_eq!(listed(&table), vec![time(1, 10), time(4, 40)]);
}

#[test]
fn enough_times_are_known_in_the_end() {
    let start = |index: usize| index as i64 * 10;
    for known in [vec![], vec![time(0, 0)], vec![time(3, 30), time(19, 190)]] {
        let kept: BTreeMap<usize, i64> =
            known.iter().map(|t| (t.segment_index, t.start_time)).collect();
        let mut search = TimeSearch::new(known.clone(), 20, 200, 50, false);
        while let SearchStep::Fetch(index) = search.next() {
            search.found(index, start(index));
        }
        let (found, changed) = search.finish();
        assert!(changed);
        let (mut list, table) = merge_times(found, &kept);
        assert_eq!(list.len(), table.len());
        assert!(known.iter().all(|t| list.contains(t)));
        list.sort_by_key(|t| t.segment_index);
        assert!(list[0].segment_index == 0 || list[0].start_time < 50);
        let last = list[list.len() - 1];
        assert!(last.segment_index == 19 || 200 - last.start_time < 50);
        for pair in list.windows(2) {
            assert!(pair[0].segment_index < pair[1].segment_index);
            assert!(
                pair[0].segment_index + 1 == pair[1].segment_index
                    || pair[1].start_time - pair[0].start_time < 50
            );
        }
    }
}

#[test]
fn merging_what_was_found_with_what_was_kept() {
    let kept: BTreeMap<usize, i64> = [(1, 11), (4, 44), (9, 99)].into_iter().collect();
    let (list, table) = merge_times(vec![time(7, 70), time(4, 40)], &kept);
    assert_eq!(list, vec![time(7, 70), time(4, 40), time(1, 11), time(9, 99)]);
    let all: Vec<(usize, i64)> = table.into_iter().collect();
    assert_eq!(all, vec![(1, 11), (4, 44), (7, 70), (9, 99)]);
    let (list, table) = merge_times(vec![time(7, 70)], &BTreeMap::new());
    assert_eq!(list, vec![time(7, 70)]);
    assert_eq!(table.len(), 1);
}

#[test]
fn adding_a_time_to_a_list() {
    let kept = || Some(vec![time(0, 0), time(3, 30), time(8, 80)]);
    assert_eq!(insert_time(None, 1, Some(10)), None);
    assert_eq!(insert_time(kept(), 3, Some(10)), None);
    assert_eq!(insert_time(kept(), 1, None), None);
    // The new time carries the number of its place.
    let new = insert_time(kept(), 5, Some(50)).unwrap();
    assert_eq!(new, vec![time(0, 0), time(3, 30), time(2, 50), time(8, 80)]);
    let new = insert_time(kept(), 1, Some(10)).unwrap();
    assert_eq!(new[1], time(1, 10));
}

#[test]
fn times_among_segments() {
    let info = |segment_index, start_time| SegmentInfo { segment_index, size: 1, start_time };
    let rows = vec![info(3, Some(30)), info(4, None), info(1, Some(10))];
    assert_eq!(known_times(&rows), vec![time(3, 30), time(1, 10)]);
    assert_eq!(sort_times(&known_times(&rows)), vec![time(1, 10), time(3, 30)]);
    let twice = vec![time(3, 2), time(1, 9), time(3, 1), time(1, 8), time(3, 3)];
    let sorted = vec![time(1, 9), time(1, 8), time(3, 2), time(3, 1), time(3, 3)];
    assert_eq!(sort_times(&twice), sorted);
}

#[test]
fn where_a_later_search_starts() {
    let found = || vec![time(1, 10)];
    assert_eq!(late_start(None, found()), (found(), true));
    assert_eq!(late_start(Some(vec![time(2, 20)]), found()), (vec![time(2, 20)], false));
    assert_eq!(late_start(Some(Vec::new()), found()), (Vec::new(), false));
}

#[test]
fn durations_of_movies() {
    assert_eq!(movie_duration(&Vec::new()), 0);
    assert_eq!(movie_duration(&vec![900_000, 855_000]), 1_755_000);
    assert_eq!(movie_duration(&vec![i64::MAX, i64::MAX]), i64::MAX);
    assert_eq!(movie_duration(&vec![i64::MIN, i64::MIN, 5]), i64::MIN);
}

#[test]
fn searches_for_the_hurried_and_the_others() {
    let cache = TimeCache::new(TimeCacheOptions {
        smaller_time_between_segments: 10,
        bigger_time_between_segments: 60,
        timeout_fast_time: 500,
    });
    assert_eq!(cache.search_limits(true), vec![60]);
    assert_eq!(cache.search_limits(false), vec![60, 10]);
    assert_eq!(cache.deadline(true, 1000), Some(1500));
    assert_eq!(cache.deadline(false, 1000), None);
}

fn requested(step: SegmentTimeStep) -> String {
    match step {
        SegmentTimeStep::Request(range) => range,
        other => panic!("{other:?}"),
    }
}

fn failure(step: SegmentTimeStep) -> String {
    match step {
        SegmentTimeStep::Fail(error) => error.message(),
        other => panic!("{other:?}"),
    }
}

#[test]
fn the_time_is_in_the_first_packets() {
    let mut fetch = SegmentTimeFetch::new();
    assert_eq!(requested(fetch.start()), "bytes=0-564");
    fetch.learn_length(Some("bytes 0-564/100000"));
    assert_eq!(fetch.content_length, Some(100_000));
    assert!(matches!(fetch.replied(Some(7)), SegmentTimeStep::Found(7)));
}

#[test]
fn the_time_is_in_later_packets() {
    let mut fetch = SegmentTimeFetch::new();
    fetch.start();
    assert_eq!(requested(fetch.replied(None)), "bytes=564-3760");
    assert!(matches!(fetch.replied(Some(9)), SegmentTimeStep::Found(9)));
    assert_eq!(failure(fetch.replied(None)), "Can't find the time packet in segments 3..15");
    assert_eq!(failure(fetch.failed("broken".to_owned(), None, 0)), "broken");
}

#[test]
fn short_segments_are_asked_for_to_their_end() {
    let mut fetch = SegmentTimeFetch::new();
    fetch.start();
    fetch.learn_length(Some("bytes 0-563/1000"));
    assert_eq!(requested(fetch.replied(None)), "bytes=564-");
    let mut fetch = SegmentTimeFetch::new();
    fetch.start();
    fetch.learn_length(Some("bytes 0-299/300"));
    fetch.learn_length(Some("bytes 0-299/9000"));
    assert_eq!(fetch.content_length, Some(300));
    assert_eq!(requested(fetch.start()), "bytes=0-");
    assert_eq!(failure(fetch.replied(None)), "The function should be stopped");
    let mut fetch = SegmentTimeFetch::new();
    fetch.learn_length(Some("bytes */0"));
    assert_eq!(failure(fetch.start()), "Nothing found");
    let mut fetch = SegmentTimeFetch::new();
    for text in ["bytes 0-5", "bytes 0-5/*", ""] {
        fetch.learn_length(Some(text));
        assert_eq!(fetch.content_length, None);
    }
    fetch.learn_length(None);
    assert_eq!(fetch.content_length, None);
}

#[test]
fn requests_that_fail_are_repeated() {
    let mut fetch = SegmentTimeFetch::new();
    for _ in 0..ATTEMPTS {
        requested(fetch.start());
        assert!(matches!(fetch.failed(String::new(), None, 0), SegmentTimeStep::Wait));
    }
    assert_eq!(failure(fetch.start()), "Too many retries");
    let fetch = SegmentTimeFetch::new();
    assert!(matches!(fetch.failed(String::new(), Some(2001), 0), SegmentTimeStep::Wait));
    assert!(matches!(
        fetch.failed(String::new(), Some(2000), 0),
        SegmentTimeStep::Fail(GetSegmentTimeError::Timeout)
    ));
    assert_eq!(
        failure(fetch.failed(String::new(), Some(u64::MAX), u64::MAX)),
        "Timeout waiting to get the segment time"
    );
}
