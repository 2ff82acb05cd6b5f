use fsonline::contracts::Imdb;
use fsonline::player::keys::M3U8CacheKey;
use fsonline::player::{OneSegmentTime, SegmentRange};
use fsonline::playlist::{
    data_stream, duration_ticks, keep_variants, kept_flags, local_player_url, media_playlist_url,
    offer_variants, open_master, playlist_segments, read_master, read_media, real_segments,
    requested_segment, segment_uri, target_duration, M3U8Data, MasterError, MediaSegment,
    SegmentsTime, Variant,
};

const MASTER: &str = "#EXTM3U
#EXT-X-STREAM-INF:PROGRAM-ID=1,BANDWIDTH=1280000,RESOLUTION=1280x720
https://cdn.example/index-v1-a1.m3u8
#EXT-X-STREAM-INF:PROGRAM-ID=1,BANDWIDTH=640000,RESOLUTION=640x360
https://cdn.example/index-v2-a1.m3u8
#EXT-X-I-FRAME-STREAM-INF:BANDWIDTH=86000,RESOLUTION=1280x720,URI=\"https://cdn.example/iframes-v1-a1.m3u8\"
";

const PLAYLIST: &str = "#EXTM3U
#EXT-X-TARGETDURATION:10
#EXT-X-ALLOW-CACHE:YES
#EXT-X-PLAYLIST-TYPE:VOD
#EXT-X-VERSION:3
#EXT-X-MEDIA-SEQUENCE:1
#EXTINF:10.000,
https://cdn.example/seg-1-v1-a1.ts
#EXTINF:9.5,
https://cdn.example/seg-2-v1-a1.ts
#EXTINF:4,
https://cdn.example/seg-3-v1-a1.ts
#EXT-X-ENDLIST
";

fn parse_both() -> (Vec<Variant>, Vec<MediaSegment>) {
    let variants = read_master(MASTER.as_bytes()).unwrap();
    let segments = read_media(PLAYLIST.as_bytes()).unwrap();
    (variants, segments)
}

fn key() -> M3U8CacheKey {
    let imdb: Imdb = "tt0000007:1:2".parse().unwrap();
    M3U8CacheKey { imdb, server_name: "Vidmoly".to_owned() }
}

fn variant(is_i_frame: bool, uri: &str) -> Variant {
    Variant { is_i_frame, uri: uri.to_owned() }
}

fn uris(variants: &[Variant]) -> Vec<(bool, &str)> {
    variants.iter().map(|v| (v.is_i_frame, v.uri.as_str())).collect()
}

#[test]
fn local_m3u8_player_master_playlist_parser() {
    let (variants, _) = parse_both();
    let stream = variants.into_iter().find(|v| !v.is_i_frame).unwrap();
    assert_eq!(stream.uri, "https://cdn.example/index-v1-a1.m3u8");
}

#[test]
fn mod_master_playlist_parser() {
    let (variants, segments) = parse_both();
    assert!(data_stream(&variants).is_ok());
    assert_eq!(segments.len(), 3);
}

#[test]
fn master_playlists_keep_one_stream() {
    let (variants, _) = parse_both();
    assert_eq!(
        uris(&variants),
        vec![
            (false, "https://cdn.example/index-v1-a1.m3u8"),
            (true, "https://cdn.example/iframes-v1-a1.m3u8"),
        ]
    );
    let all = vec![
        variant(true, "a"),
        variant(false, "b"),
        variant(true, "c"),
        variant(false, "d"),
        variant(false, "e"),
    ];
    assert_eq!(data_stream(&all), Ok("b".to_owned()));
    let kept = keep_variants(all);
    assert_eq!(uris(&kept), vec![(true, "a"), (false, "b"), (true, "c")]);
    assert_eq!(data_stream(&kept), Ok("b".to_owned()));
    assert_eq!(
        kept_flags(&vec![true, false, true, false, false]),
        vec![true, true, true, false, false]
    );
    assert!(data_stream(&vec![variant(true, "a")]).is_err());
}

#[test]
fn opening_master_playlists() {
    let (variants, stream) = open_master(MASTER.as_bytes()).unwrap();
    assert_eq!(variants.len(), 2);
    assert_eq!(stream, "https://cdn.example/index-v1-a1.m3u8");
    let no_stream = open_master(b"#EXTM3U\n").unwrap_err();
    assert!(matches!(no_stream, MasterError::NoDataStream));
    assert_eq!(no_stream.message(), "No data stream");
    let unreadable = open_master(b"nothing of that kind").unwrap_err();
    assert!(matches!(unreadable, MasterError::Unreadable(_)));
    assert!(!unreadable.message().is_empty());
    assert!(read_media(b"").is_err());
}

#[test]
fn segments_of_a_playlist() {
    let (master, playlist) = parse_both();
    assert_eq!(playlist[0].duration, 900_000);
    assert_eq!(playlist[1].duration, 855_000);
    assert_eq!(playlist[2].duration, 360_000);
    let data = M3U8Data { master, playlist };
    assert_eq!(data.movie_duration(), 2_115_000);
    assert_eq!(data.uris()[1], "https://cdn.example/seg-2-v1-a1.ts");
    assert_eq!(
        segment_uri(&data.playlist, 2),
        Ok("https://cdn.example/seg-3-v1-a1.ts".to_owned())
    );
    let error = segment_uri(&data.playlist, 3).unwrap_err();
    assert_eq!(error.message(), "Invalid segment index");
}

#[test]
fn durations_that_are_written_down() {
    assert_eq!(duration_ticks("0"), 0);
    assert_eq!(duration_ticks("1"), 90_000);
    assert_eq!(duration_ticks("10.01"), 900_900);
    assert_eq!(duration_ticks("0.00001"), 0);
    assert_eq!(duration_ticks("0.9999999"), 89_999);
    assert_eq!(duration_ticks("6.006"), 540_540);
    assert_eq!(duration_ticks("inf"), i64::MAX);
    assert_eq!(duration_ticks("340282350000000000000000000000000000000"), i64::MAX);
    assert_eq!(duration_ticks("102481911520608"), 9_223_372_036_854_720_000);
    assert_eq!(duration_ticks("102481911520609"), i64::MAX);
}

fn time(segment_index: usize, start_time: i64) -> OneSegmentTime {
    OneSegmentTime { segment_index, start_time }
}

fn run(start: usize, end: usize, duration: i64) -> SegmentsTime {
    SegmentsTime { segments_range: SegmentRange { start, end }, duration }
}

#[test]
fn runs_of_segments() {
    let found = real_segments(vec![time(4, 50), time(0, 2), time(2, 30)], 9, 100);
    assert_eq!(found, vec![run(0, 2, 28), run(2, 4, 20), run(4, 9, 50)]);
    // Without a time the first segment starts with the movie.
    let found = real_segments(vec![time(3, 40)], 5, 100);
    assert_eq!(found, vec![run(0, 3, 40), run(3, 5, 60)]);
    assert_eq!(real_segments(Vec::new(), 5, 100), vec![run(0, 5, 100)]);
    // Times need not rise.
    let found = real_segments(vec![time(0, 10), time(1, 5)], 2, 1);
    assert_eq!(found, vec![run(0, 1, -5), run(1, 2, -4)]);
    // Two times of one segment stay in order, with nothing between them.
    let found = real_segments(vec![time(4, 50), time(0, 0), time(4, 40)], 9, 100);
    assert_eq!(found, vec![run(0, 4, 50), run(4, 4, -10), run(4, 9, 60)]);
}

#[test]
fn runs_cover_the_movie_and_last_as_long() {
    let times = vec![time(7, 700), time(3, 290), time(0, 0), time(11, 1200)];
    let found = real_segments(times, 20, 2000);
    assert_eq!(found[0].segments_range.start, 0);
    assert_eq!(found[found.len() - 1].segments_range.end, 20);
    for pair in found.windows(2) {
        assert_eq!(pair[0].segments_range.end, pair[1].segments_range.start);
    }
    assert_eq!(found.iter().map(|s| s.duration).sum::<i64>(), 2000);
    let target = target_duration(&found);
    assert!(found.iter().all(|s| s.duration <= target as i64 * 90_000));
}

#[test]
fn target_durations() {
    assert_eq!(target_duration(&Vec::new()), 10);
    assert_eq!(target_duration(&vec![run(0, 1, 900_000)]), 10);
    assert_eq!(target_duration(&vec![run(0, 1, 900_001), run(1, 2, 5)]), 11);
    assert_eq!(target_duration(&vec![run(0, 1, 1)]), 1);
    assert_eq!(target_duration(&vec![run(0, 1, 0)]), 0);
    assert_eq!(target_duration(&vec![run(0, 1, -90_000)]), 0);
    assert_eq!(target_duration(&vec![run(0, 1, i64::MAX)]), 102_481_911_520_609);
}

#[test]
fn addresses_of_a_movie() {
    let key = key();
    assert_eq!(
        local_player_url(false, "host", &key),
        "http://host/v1/api/Vidmoly/tt0000007:1:2/playlist.m3u8"
    );
    assert_eq!(
        media_playlist_url(true, "host", &key),
        "https://host/v1/api/Vidmoly/tt0000007:1:2/m3u8/playlist.m3u8"
    );
    let listed = playlist_segments(true, "host", &key, &vec![run(0, 3, 40), run(3, 12, 60)]);
    assert_eq!(listed.len(), 2);
    assert_eq!(
        listed[1].uri,
        "https://host/v1/api/Vidmoly/tt0000007:1:2/m3u8/segments/3/12"
    );
    assert_eq!(listed[1].duration, 60);
    let offered = offer_variants(
        &vec![variant(false, "a"), variant(true, "b")],
        true,
        "host",
        &key,
    );
    assert_eq!(
        uris(&offered),
        vec![
            (false, "https://host/v1/api/Vidmoly/tt0000007:1:2/m3u8/playlist.m3u8"),
            (true, "b"),
        ]
    );
}

#[test]
fn segments_of_a_run() {
    let imdb: Imdb = "tt0000007".parse().unwrap();
    let ids: Vec<_> =
        (0..9).map_while(|n| requested_segment(imdb, "Vidmoly", 3, 6, n)).collect();
    assert_eq!(ids.iter().map(|id| id.segment_index).collect::<Vec<_>>(), vec![3, 4, 5]);
    assert!(ids.iter().all(|id| id.m3u8.imdb == imdb && id.m3u8.server_name == "Vidmoly"));
    assert!(requested_segment(imdb, "Vidmoly", 6, 6, 0).is_none());
    assert!(requested_segment(imdb, "Vidmoly", 6, 3, 0).is_none());
    assert!(requested_segment(imdb, "Vidmoly", usize::MAX - 1, usize::MAX, 1).is_none());
}
