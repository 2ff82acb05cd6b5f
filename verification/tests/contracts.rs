use fsonline::contracts::{
    Imdb, InvalidOptions, Language, MovieKey, MovieOrSeriesDataKey, OptionsBytes, SeriesData,
    Subtitle, BROWSER_PLAYERS, FSONLINE_LINK, LOCAL_PLAYER, SHOW_ORIGINAL_PLAYER,
};
use fsonline::fsonline::SubtitleFsonline;

#[test]
fn test_imdb() {
    let input = "tt1234567";
    let imdb: Imdb = input.parse().unwrap();
    assert_eq!(imdb.to_string(), "tt1234567");

    let input2 = "tt0234567";
    let imdb: Imdb = input2.parse().unwrap();
    assert_eq!(imdb.to_string(), "tt0234567");
}

#[test]
fn imdb_of_an_episode() {
    let imdb: Imdb = "tt0903747:5:14".parse().unwrap();
    assert_eq!(imdb.imdb_id, 903747);
    assert_eq!(imdb.series_data, Some(SeriesData { season: 5, episode: 14 }));
    assert!(imdb.is_series());
    assert_eq!(imdb.to_string(), "tt0903747:5:14");
}

#[test]
fn imdb_with_json_behind_it() {
    let imdb: Imdb = "tt0903747:1:2.json".parse().unwrap();
    assert_eq!(imdb.to_string(), "tt0903747:1:2");
    let imdb: Imdb = "tt0111161.json".parse().unwrap();
    assert!(!imdb.is_series());
    assert_eq!(imdb.to_string(), "tt0111161");
}

#[test]
fn imdb_numbers_may_be_long_or_short() {
    let imdb: Imdb = "tt4294967295".parse().unwrap();
    assert_eq!(imdb.to_string(), "tt4294967295");
    let imdb: Imdb = "tt1".parse().unwrap();
    assert_eq!(imdb.to_string(), "tt0000001");
    let imdb: Imdb = "tt+12".parse().unwrap();
    assert_eq!(imdb.imdb_id, 12);
}

#[test]
fn imdb_names_that_are_refused() {
    for name in [
        "",
        "tt",
        "1234567",
        "tt4294967296",
        "tt12x",
        "tt-1",
        "tt1:2",
        "tt1:2:3:4",
        "tt1:65536:1",
        "tt1:1:65536",
        "tt1::1",
        "tt1:a:1",
        "nm0000001",
    ] {
        let error = name.parse::<Imdb>().unwrap_err();
        assert_eq!(error.message(), format!("Invalid imdb name received: {name}"));
    }
}

#[test]
fn series_numbers_are_packed() {
    let data = SeriesData { season: 2, episode: 7 };
    assert_eq!(data.as_u32(), 0x0002_0007);
    assert_eq!(SeriesData::from_u32(0x0002_0007), Some(data));
    assert_eq!(SeriesData::from_u32(0), None);
    let most = SeriesData { season: u16::MAX, episode: u16::MAX };
    assert_eq!(most.as_u32(), u32::MAX);
    assert_eq!(SeriesData::from_u32(u32::MAX), Some(most));
}

#[test]
fn imdb_numbers_are_packed() {
    let imdb = Imdb { imdb_id: 5, series_data: Some(SeriesData { season: 1, episode: 3 }) };
    assert_eq!(imdb.to_u64(), 0x0000_0005_0001_0003);
    assert_eq!(Imdb::from_u64(0x0000_0005_0001_0003), imdb);
    let movie = Imdb { imdb_id: u32::MAX, series_data: None };
    assert_eq!(movie.to_u64(), 0xffff_ffff_0000_0000);
    assert_eq!(Imdb::from_u64(movie.to_u64()), movie);
    for code in [0, 1, 0xffff, 0x1_0000, u64::MAX, 0x8000_0000_0000_0001] {
        assert_eq!(Imdb::from_u64(code).to_u64(), code);
    }
    // The number of season zero, episode zero is that of no episode.
    let special = Imdb { imdb_id: 5, series_data: Some(SeriesData { season: 0, episode: 0 }) };
    assert_eq!(Imdb::from_u64(special.to_u64()), Imdb { imdb_id: 5, series_data: None });
}

#[test]
fn written_titles_are_read_back() {
    for imdb in [
        Imdb { imdb_id: 0, series_data: None },
        Imdb { imdb_id: 12_345_678, series_data: None },
        Imdb { imdb_id: 7, series_data: Some(SeriesData { season: 0, episode: 0 }) },
        Imdb { imdb_id: 7, series_data: Some(SeriesData { season: 65_535, episode: 10 }) },
    ] {
        assert_eq!(imdb.to_string().parse::<Imdb>().unwrap(), imdb);
        assert_eq!(format!("{}.json", imdb.to_string()).parse::<Imdb>().unwrap(), imdb);
    }
}

#[test]
fn languages_have_codes() {
    assert_eq!(Language::Romania.to_string(), "ron");
    assert_eq!(Language::English.to_string(), "eng");
    assert_eq!(Language::Unrecognized.to_string(), "_unrecognized");
}

#[test]
fn movie_keys_are_written() {
    let movie = MovieKey {
        movie: "Dune".to_owned(),
        data: MovieOrSeriesDataKey::Movie { release_year: 2021 },
    };
    assert_eq!(movie.to_string(), "movie Dune:2021");
    let series = MovieKey {
        movie: "Dark".to_owned(),
        data: MovieOrSeriesDataKey::Series(SeriesData { season: 3, episode: 8 }),
    };
    assert_eq!(series.to_string(), "series Dark:3:8");
}

#[test]
fn options_from_numbers() {
    assert_eq!(OptionsBytes::from_flags(None), Ok(OptionsBytes::default()));
    assert!(OptionsBytes::default().contains(LOCAL_PLAYER));
    assert!(!OptionsBytes::default().contains(FSONLINE_LINK));
    assert_eq!(OptionsBytes::from_flags(Some(0)), Err(InvalidOptions::Empty));
    assert_eq!(OptionsBytes::from_flags(Some(16)), Err(InvalidOptions::UnknownFlags));
    assert_eq!(OptionsBytes::from_flags(Some(255)), Err(InvalidOptions::UnknownFlags));
    assert_eq!(InvalidOptions::Empty.message(), "The options were 0");
    assert_eq!(InvalidOptions::UnknownFlags.message(), "Invalid flags were set");
    let some = OptionsBytes::from_flags(Some(10)).unwrap();
    assert!(!some.contains(LOCAL_PLAYER));
    assert!(some.contains(SHOW_ORIGINAL_PLAYER));
    assert!(!some.contains(BROWSER_PLAYERS));
    assert!(some.contains(FSONLINE_LINK));
    let all = OptionsBytes::from_flags(Some(15)).unwrap();
    for flag in [LOCAL_PLAYER, SHOW_ORIGINAL_PLAYER, BROWSER_PLAYERS, FSONLINE_LINK] {
        assert!(all.contains(flag));
    }
}

#[test]
fn subtitles_are_offered_by_their_digest() {
    let subtitle = SubtitleFsonline { url: "abc".to_owned(), lang: Language::English };
    let imdb: Imdb = "tt0903747:1:2".parse().unwrap();
    let offered = Subtitle::new(true, "example.org:3000", &subtitle, imdb, "Vidmoly");
    assert_eq!(offered.id, "FSonline Vidmoly abc");
    assert_eq!(
        offered.url,
        "https://example.org:3000/v1/api/subtitles/tt0903747:1:2/900150983cd24fb0d6963f7d28e17f72/subtitle.vtt"
    );
    assert_eq!(offered.lang, Language::English);
    let plain = Subtitle::new(false, "localhost", &subtitle, imdb, "");
    assert!(plain.url.starts_with("http://localhost/v1/api/subtitles/tt0903747:1:2/"));
    assert_eq!(plain.id, "FSonline  abc");
}

#[test]
fn ids_tell_subtitles_of_one_language_apart() {
    let imdb: Imdb = "tt0903747".parse().unwrap();
    let offer = |url: &str, server: &str| {
        let subtitle = SubtitleFsonline { url: url.to_owned(), lang: Language::Romania };
        Subtitle::new(true, "host", &subtitle, imdb, server)
    };
    let first = offer("https://s/1/romanian.vtt", "Vidmoly");
    let second = offer("https://s/2/romanian.vtt", "Vidmoly");
    assert_eq!(first.lang, second.lang);
    assert_eq!(first.id, "FSonline Vidmoly https://s/1/romanian.vtt");
    assert_eq!(second.id, "FSonline Vidmoly https://s/2/romanian.vtt");
    assert_ne!(first.id, offer("https://s/1/romanian.vtt", "FileSuN").id);
    assert_eq!(first.id, offer("https://s/1/romanian.vtt", "Vidmoly").id);
}

#[test]
fn several_kinds_of_streams_at_once() {
    let some = OptionsBytes::from_flags(Some(10)).unwrap();
    assert!(some.contains(SHOW_ORIGINAL_PLAYER | FSONLINE_LINK));
    assert!(!some.contains(SHOW_ORIGINAL_PLAYER | LOCAL_PLAYER));
    assert!(!some.contains(15));
    assert!(some.contains(0));
}
