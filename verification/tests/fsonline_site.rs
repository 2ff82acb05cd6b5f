use fsonline::contracts::{
    Language, MovieKey, MovieOrSeriesDataKey, PlayerData, PlayerOption, SeriesData,
};
use fsonline::fsonline::{
    can_scrape, found_players, get_movie_id, get_player_options, language_of_name, movie_page_url,
    normalize_movie_name, playable_players, player_data, players_form, players_to_offer,
    players_url, SubtitleFsonline, VideoAndSubtitles,
};
use fsonline::text::trim;
use fsonline::imdb_service::{
    video_url, ImdbService, ImdbToVideoServer, MovieData, ReleasedValue, VideoUrlError,
};

fn option(server: &str, address: &str) -> PlayerOption {
    PlayerOption { server_name: server.to_owned(), iframe_player: address.to_owned() }
}

fn player(server: &str, video: Option<&str>) -> PlayerData {
    PlayerData {
        server_name: server.to_owned(),
        iframe_player: format!("https://{server}/player"),
        data: VideoAndSubtitles { video: video.map(|v| v.to_owned()), subtitles: Vec::new() },
    }
}

#[test]
fn names_as_the_site_writes_them() {
    assert_eq!(normalize_movie_name("The Matrix"), "the-matrix");
    assert_eq!(normalize_movie_name("  Dune \t"), "dune");
    assert_eq!(normalize_movie_name("A  B"), "a--b");
    assert_eq!(normalize_movie_name("ÎNTÂI"), "întâi");
    assert_eq!(normalize_movie_name(""), "");
}

#[test]
fn names_are_written_once_and_for_all() {
    for name in ["The Matrix", "  Dune \t", " A  B ", "a-B c", ""] {
        let written = normalize_movie_name(name);
        assert_eq!(normalize_movie_name(&written), written);
        assert_eq!(normalize_movie_name(&format!("\u{a0}\r\n{name} \u{3000}")), written);
        assert_eq!(normalize_movie_name(&name.to_ascii_uppercase()), written);
        assert!(!written.contains(' '));
        assert_eq!(written.trim(), written);
    }
}

#[test]
fn every_ascii_character_in_a_name() {
    for c in (0..128u8).map(char::from) {
        let white = c == ' ' || ('\t'..='\r').contains(&c);
        let small = c.to_ascii_lowercase();
        let written = if white { "x".to_owned() } else { format!("{small}x") };
        assert_eq!(normalize_movie_name(&format!("{c}x")), written);
        let inside = if c == ' ' { '-' } else { small };
        assert_eq!(normalize_movie_name(&format!("x{c}y")), format!("x{inside}y"));
    }
}

#[test]
fn white_space_around_a_name() {
    let white = [
        '\u{9}', '\u{a}', '\u{b}', '\u{c}', '\u{d}', ' ', '\u{85}', '\u{a0}', '\u{1680}',
        '\u{2000}', '\u{2001}', '\u{2002}', '\u{2003}', '\u{2004}', '\u{2005}', '\u{2006}',
        '\u{2007}', '\u{2008}', '\u{2009}', '\u{200a}', '\u{2028}', '\u{2029}', '\u{202f}',
        '\u{205f}', '\u{3000}',
    ];
    for c in '\0'..=char::MAX {
        assert_eq!(trim(&[c]).is_empty(), white.contains(&c), "{c:?}");
    }
}

#[test]
fn letter_case_of_subtitle_addresses() {
    for url in [
        "https://s/a/movie_Romanian.vtt",
        "https://s/a/ENGLISH.VTT",
        "https://s/a/french.Vtt",
        "https://s/a/other.vtt",
        "",
    ] {
        let lang = |url: String| SubtitleFsonline::new(url).map(|s| s.lang);
        assert_eq!(lang(url.to_ascii_uppercase()), lang(url.to_owned()));
    }
}

#[test]
fn pages_of_titles() {
    let movie = MovieKey {
        movie: "The Matrix".to_owned(),
        data: MovieOrSeriesDataKey::Movie { release_year: 1999 },
    };
    assert_eq!(movie_page_url(&movie), "https://www3.fsonline.app/film/the-matrix-1999/");
    let episode = MovieKey {
        movie: "Breaking Bad".to_owned(),
        data: MovieOrSeriesDataKey::Series(SeriesData { season: 5, episode: 14 }),
    };
    assert_eq!(
        movie_page_url(&episode),
        "https://www3.fsonline.app/episoade/breaking-bad-sezonul-5-episodul-14/"
    );
}

#[test]
fn asking_for_players() {
    assert_eq!(players_url(), "https://www3.fsonline.app/wp-admin/admin-ajax.php");
    assert_eq!(
        players_form("77"),
        vec![
            ("action".to_owned(), "lazy_player".to_owned()),
            ("movieID".to_owned(), "77".to_owned()),
        ]
    );
}

#[test]
fn one_movie_id_on_a_page() {
    let page = r#"<html><body><div movie-id="42">a</div><p movie-id="42"></p></body></html>"#;
    assert_eq!(get_movie_id(page).unwrap(), "42");
}

#[test]
fn no_or_several_movie_ids_on_a_page() {
    let none = get_movie_id("<html><body><div>a</div></body></html>").unwrap_err();
    assert_eq!(none.count, 0);
    assert_eq!(none.message(), "Didn't return one movie id. Returned 0 movies");
    let page = r#"<a movie-id="1"></a><b movie-id="2"></b><i movie-id="1"></i><u movie-id="3"></u>"#;
    let several = get_movie_id(page).unwrap_err();
    assert_eq!(several.message(), "Didn't return one movie id. Returned 3 movies");
}

#[test]
fn players_on_a_page() {
    let page = r#"<ul>
<li data-vs="https://a.example/1"><div><span>Vidmoly</span></div></li>
<li data-vs="https://b.example/2"><div><span>Doodstream</span><b>x</b></div></li>
<li data-vs="https://c.example/3"><div></div></li>
<li data-vs="https://d.example/4">text</li>
<li><div><span>Nowhere</span></div></li>
<li data-vs="https://e.example/5"><div><span><b>FileSuN</b></span></div></li>
</ul>"#;
    let players = get_player_options(page);
    let found: Vec<(&str, &str)> =
        players.iter().map(|p| (p.server_name.as_str(), p.iframe_player.as_str())).collect();
    assert_eq!(
        found,
        vec![
            ("Vidmoly", "https://a.example/1"),
            ("Doodstream", "https://b.example/2"),
            ("FileSuN", "https://e.example/5"),
        ]
    );
    let kept = playable_players(players);
    let names: Vec<&str> = kept.iter().map(|p| p.server_name.as_str()).collect();
    assert_eq!(names, vec!["Vidmoly", "FileSuN"]);
}

#[test]
fn servers_that_are_not_searched() {
    assert!(can_scrape("Vidmoly"));
    assert!(can_scrape("voe"));
    assert!(!can_scrape("VOE"));
    assert!(!can_scrape("Vidsrc"));
    let scraped =
        || Some(VideoAndSubtitles { video: Some("v".to_owned()), subtitles: Vec::new() });
    assert_eq!(player_data(option("VOE", "a"), scraped()).data.video, None);
    let found = player_data(option("Vidmoly", "a"), scraped());
    assert_eq!(found.data.video.as_deref(), Some("v"));
    assert_eq!(found.server_name, "Vidmoly");
    assert_eq!(found.iframe_player, "a");
    let failed = player_data(option("Vidmoly", "a"), None);
    assert_eq!(failed.data.video, None);
    assert!(failed.data.subtitles.is_empty());
}

#[test]
fn players_with_what_was_found_on_them() {
    let reply = r#"<ul>
<li data-vs="https://a.example/1"><div><span>Vidmoly</span></div></li>
<li data-vs="https://b.example/2"><div><span>Doodstream</span></div></li>
<li data-vs="https://c.example/3"><div><span>VOE</span></div></li>
<li data-vs="https://d.example/4"><div><span>FileSuN</span></div></li>
</ul>"#;
    let players = players_to_offer(reply);
    let names: Vec<&str> = players.iter().map(|p| p.server_name.as_str()).collect();
    assert_eq!(names, vec!["Vidmoly", "VOE", "FileSuN"]);
    let video = |url: &str| {
        Some(VideoAndSubtitles { video: Some(url.to_owned()), subtitles: Vec::new() })
    };
    let scraped = vec![video("v1"), video("v2"), None];
    let found = found_players(players, scraped, "https://www3.fsonline.app/film/up-2009/".into());
    assert_eq!(found.fsonline_url, "https://www3.fsonline.app/film/up-2009/");
    let offered: Vec<(&str, &str, Option<&str>)> = found
        .players
        .iter()
        .map(|p| (p.server_name.as_str(), p.iframe_player.as_str(), p.data.video.as_deref()))
        .collect();
    assert_eq!(
        offered,
        vec![
            ("Vidmoly", "https://a.example/1", Some("v1")),
            ("VOE", "https://c.example/3", None),
            ("FileSuN", "https://d.example/4", None),
        ]
    );
    assert!(players_to_offer("<p>nothing</p>").is_empty());
}

#[test]
fn languages_of_subtitles() {
    let language = |url: &str| SubtitleFsonline::new(url.to_owned()).map(|s| s.lang);
    assert_eq!(language("https://x/y/abc_Romanian.vtt"), Some(Language::Romania));
    assert_eq!(language("https://x/y/ENGLISH.VTT"), Some(Language::English));
    for name in [
        "finnish", "swedish", "norwegian", "french", "indonesian", "hungarian", "portuguese",
        "czech", "german", "polish", "greek", "italian", "danish", "turkish", "spanish", "arabic",
    ] {
        assert_eq!(language(&format!("https://x/a_{name}.vtt")), None);
    }
    assert_eq!(language("https://x/a_Russian.vtt"), Some(Language::Unrecognized));
    assert_eq!(language("https://x/english.vtt/a.vtt"), Some(Language::Unrecognized));
    assert_eq!(language(""), Some(Language::Unrecognized));
    assert_eq!(language("https://x/english.vtt?a"), Some(Language::Unrecognized));
    let name: Vec<char> = "two_english.vtt".chars().collect();
    assert_eq!(language_of_name(&name), Some(Language::English));
}

#[test]
fn digests_of_addresses() {
    let subtitle = SubtitleFsonline { url: String::new(), lang: Language::English };
    assert_eq!(subtitle.md5(), "d41d8cd98f00b204e9800998ecf8427e");
    let subtitle = SubtitleFsonline {
        url: "abcdefghijklmnopqrstuvwxyz".to_owned(),
        lang: Language::English,
    };
    assert_eq!(subtitle.md5(), "c3fcd3d76192e4007dfb496cca67e13b");
}

#[test]
fn looking_up_titles() {
    let service = ImdbService::new();
    assert_eq!(
        service.url(111161, false),
        "https://v3-cinemeta.strem.io/meta/movie/tt0111161.json"
    );
    assert_eq!(
        service.url(12345678, true),
        "https://v3-cinemeta.strem.io/meta/series/tt12345678.json"
    );
    let year = |released: ReleasedValue| {
        service.movie_data("n".to_owned(), &released).map(|d| d.release_year)
    };
    let moment = |text: &str| ReleasedValue::Released(text.to_owned());
    let info = |text: &str| ReleasedValue::ReleaseInfo(text.to_owned());
    assert_eq!(year(moment("1994-10-14T00:00:00.000Z")), Ok(1994));
    assert_eq!(year(moment("2000-01-01T00:30:00+02:00")), Ok(1999));
    assert!(year(moment("yesterday")).is_err());
    assert!(year(moment("-0001-01-01T00:00:00Z")).is_err());
    assert_eq!(year(info("2021")), Ok(2021));
    assert!(year(info("2008-2013")).is_err());
    assert!(year(info("65536")).is_err());
    let error = service.movie_data("n".to_owned(), &info("")).unwrap_err();
    assert_eq!(error.message(), "Invalid release year");
}

#[test]
fn from_a_title_to_its_player() {
    let service = ImdbToVideoServer::new();
    let data = MovieData { movie_name: "Dark".to_owned(), release_year: 2017 };
    let movie = service.movie_key("tt0000001".parse().unwrap(), data.clone());
    assert_eq!(movie.to_string(), "movie Dark:2017");
    let episode = service.movie_key("tt0000001:3:8".parse().unwrap(), data);
    assert_eq!(episode.to_string(), "series Dark:3:8");

    let players = vec![player("A", None), player("B", Some("one")), player("B", Some("two"))];
    let found = service.get_from_server(&players, "B").unwrap();
    assert_eq!(found.data.video.as_deref(), Some("one"));
    assert!(service.get_from_server(&players, "C").is_none());
    assert_eq!(video_url(Some(found)), Ok("one".to_owned()));
    assert_eq!(video_url(service.get_from_server(&players, "A")), Err(VideoUrlError::NotScrapped));
    assert_eq!(video_url(None), Err(VideoUrlError::PlayerNotFound));
    assert_eq!(VideoUrlError::NotScrapped.message(), "Video url not scrapped");
    assert_eq!(VideoUrlError::PlayerNotFound.message(), "Player not found");
}
