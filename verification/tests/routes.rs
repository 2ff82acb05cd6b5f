use fsonline::contracts::{Imdb, Language, OptionsBytes, PlayerData};
use fsonline::fsonline::{SubtitleFsonline, VideoAndSubtitles};
use fsonline::routes::{
    find_subtitle, series_streams, servers_to_prepare, subtitles, BehaviourHints, Stream,
    SubtitleNotFound,
};

fn players() -> Vec<PlayerData> {
    let subtitle = |url: &str, lang: Language| SubtitleFsonline { url: url.to_owned(), lang };
    vec![
        PlayerData {
            server_name: "Vidmoly".to_owned(),
            iframe_player: "https://vidmoly/1".to_owned(),
            data: VideoAndSubtitles {
                video: Some("https://v/master.m3u8".to_owned()),
                subtitles: vec![
                    subtitle("abc", Language::English),
                    subtitle("", Language::Romania),
                ],
            },
        },
        PlayerData {
            server_name: "VOE".to_owned(),
            iframe_player: "https://voe/2".to_owned(),
            data: VideoAndSubtitles { video: None, subtitles: Vec::new() },
        },
        PlayerData {
            server_name: "FileSuN".to_owned(),
            iframe_player: "https://filesun/3".to_owned(),
            data: VideoAndSubtitles {
                video: Some("https://f/master.m3u8".to_owned()),
                subtitles: vec![subtitle("abc", Language::Romania)],
            },
        },
    ]
}

fn streams(flags: u8) -> Vec<Stream> {
    let imdb: Imdb = "tt0000042:1:2".parse().unwrap();
    let options = OptionsBytes::from_flags(Some(flags)).unwrap();
    series_streams(&players(), "https://page/".to_owned(), options, true, "host", imdb).streams
}

fn names(streams: &[Stream]) -> Vec<(&str, &str)> {
    streams.iter().map(|s| (s.name, s.title.as_str())).collect()
}

#[test]
fn local_streams() {
    let found = streams(1);
    assert_eq!(
        names(&found),
        vec![("FSonline local player", "Vidmoly"), ("FSonline local player", "FileSuN")]
    );
    assert_eq!(
        found[0].url.as_deref(),
        Some("https://host/v1/api/Vidmoly/tt0000042:1:2/playlist.m3u8")
    );
    assert_eq!(found[0].behavior_hints, Some(BehaviourHints { not_web_ready: true }));
    assert_eq!(found[0].external_url, None);
    assert_eq!(found[0].subtitles.len(), 2);
    assert_eq!(found[0].subtitles[0].id, "FSonline Vidmoly abc");
    assert_eq!(found[0].subtitles[1].id, "FSonline Vidmoly ");
    assert_eq!(
        found[0].subtitles[1].url,
        "https://host/v1/api/subtitles/tt0000042:1:2/d41d8cd98f00b204e9800998ecf8427e/subtitle.vtt"
    );
    assert_eq!(found[0].subtitles[1].lang, Language::Romania);
}

#[test]
fn original_streams() {
    let found = streams(2);
    assert_eq!(names(&found), vec![("FSonline", "Vidmoly"), ("FSonline", "FileSuN")]);
    assert_eq!(found[1].url.as_deref(), Some("https://f/master.m3u8"));
    assert_eq!(found[1].behavior_hints, Some(BehaviourHints { not_web_ready: true }));
    assert_eq!(found[1].subtitles.len(), 1);
}

#[test]
fn browser_streams() {
    let found = streams(4);
    assert_eq!(found.len(), 3);
    assert_eq!(found[1].name, "FSonline browser player");
    assert_eq!(found[1].title, "VOE Server\nThis will play in the browser");
    assert_eq!(found[1].external_url.as_deref(), Some("https://voe/2"));
    assert_eq!(found[1].url, None);
    assert_eq!(found[1].behavior_hints, None);
    assert!(found[1].subtitles.is_empty());
}

#[test]
fn all_streams_in_order() {
    let found = streams(15);
    assert_eq!(
        names(&found),
        vec![
            ("FSonline local player", "Vidmoly"),
            ("FSonline local player", "FileSuN"),
            ("FSonline browser", "The fsonline webpage"),
            ("FSonline", "Vidmoly"),
            ("FSonline", "FileSuN"),
            ("FSonline browser player", "Vidmoly Server\nThis will play in the browser"),
            ("FSonline browser player", "VOE Server\nThis will play in the browser"),
            ("FSonline browser player", "FileSuN Server\nThis will play in the browser"),
        ]
    );
    assert_eq!(found[2].external_url.as_deref(), Some("https://page/"));
    let link = streams(8);
    assert_eq!(names(&link), vec![("FSonline browser", "The fsonline webpage")]);
}

#[test]
fn no_players() {
    let options = OptionsBytes::from_flags(Some(7)).unwrap();
    let imdb: Imdb = "tt1".parse().unwrap();
    let none = series_streams(&Vec::new(), String::new(), options, false, "h", imdb);
    assert!(none.streams.is_empty());
    assert!(servers_to_prepare(&Vec::new()).is_empty());
}

#[test]
fn servers_with_a_video_are_prepared() {
    assert_eq!(servers_to_prepare(&players()), vec!["Vidmoly".to_owned(), "FileSuN".to_owned()]);
}

#[test]
fn all_subtitles_of_a_title() {
    let imdb: Imdb = "tt0000042".parse().unwrap();
    let found = subtitles(&players(), false, "host:80", imdb);
    assert_eq!(found.len(), 3);
    assert_eq!(
        found[0].url,
        "http://host:80/v1/api/subtitles/tt0000042/900150983cd24fb0d6963f7d28e17f72/subtitle.vtt"
    );
    assert_eq!(found[2].id, "FSonline FileSuN abc");
    assert_eq!(found[2].lang, Language::Romania);
}

#[test]
fn offered_subtitles_are_found_by_their_digest() {
    let players = players();
    for player in &players {
        for subtitle in &player.data.subtitles {
            assert_eq!(find_subtitle(&players, &subtitle.md5()), Ok(subtitle.url.clone()));
        }
    }
    assert_eq!(
        find_subtitle(&players, "900150983cd24fb0d6963f7d28e17f72"),
        Ok("abc".to_owned())
    );
    assert_eq!(find_subtitle(&players, "900150983CD24FB0D6963F7D28E17F72"), Err(SubtitleNotFound));
    assert_eq!(find_subtitle(&players, ""), Err(SubtitleNotFound));
    assert_eq!(SubtitleNotFound.message(), "Failed to find the language requested");
}
