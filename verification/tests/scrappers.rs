use std::collections::BTreeSet;

use fsonline::contracts::Language;
use fsonline::scrappers::{
    collect_media, page_problem, problem_in, BrowserDiscovery, ChosenScrapper, FileSuN,
    FileSuNParser, NothingDiscovered, PageProblem, PageScrapper, PlayerScrapper, PlayerScrappers,
    ScriptAddresses, SpecificScrapper, VidmolyParser, VidmolyScrapper, SETTLE_MILLIS,
};

const VIDMOLY_PAGE: &str = r#"<!DOCTYPE html>
<html><head>
<script src="jwplayer.js"></script>
<script>var unrelated = 'https://example.org/index.html';</script>
</head><body>
<script type="text/javascript">
player.setup({
  sources: [{file:"https://prx-1546-ant.vmwesa.online/hls2/01/02469/u1lemqhj7hqi_n/master.m3u8?t=rQp1o1rXAXxH0Hosd-PtcoR0JzjCcqTK5KNz2YX6T3c=&s=1781334063&e=43200&v=&srv=transit-1478-v1&i=0.4&sp=0&asn=8708"}],
  tracks: [
    {file: "https://srt.vidmoly.me/srt/02469/u1lemqhj7hqi_English.vtt", label: "English"},
    {file: "https://srt.vidmoly.me/srt/02469/u1lemqhj7hqi_Turkish.vtt", label: "Turkish"},
    {file: "https://srt.vidmoly.me/srt/02469/u1lemqhj7hqi_Romanian.vtt", label: "Romanian"}
  ]
});
</script>
<script>var later = "https://later.example/master.m3u8";</script>
</body></html>"#;

const FILE_SUN_PAGE: &str = r#"<html><body>
<script>
var file = 'https://prx-1559-ant.vmwesa.online/hls2/02/02589/k0kfg2ai8kny_,n,l,.urlset/master.m3u8?t=gcCCgLPFEQ2_tXrBUryjbVcJTvZw9tPUytg3SkYsZc4=&s=1783968858&e=43200&v=&srv=bck-1564-ant-p&i=0.4&sp=0&asn=8708';
</script>
<script>
var tracks = [
'https://srt.vidmoly.me/srt/02589/hvpihozhm2ny_English.vtt',
'https://srt.vidmoly.me/srt/02589/hvpihozhm2ny_Spanish.vtt',
'https://srt.vidmoly.me/srt/02589/hvpihozhm2ny_Romanian.vtt'
];
</script>
</body></html>"#;

#[test]
fn vidmoly_test_parse_vidmoly_html() {
    let r = VidmolyParser::new().parse_vidmoly_html(VIDMOLY_PAGE);
    assert_eq!(
        r.video.as_deref(),
        Some(
            "https://prx-1546-ant.vmwesa.online/hls2/01/02469/u1lemqhj7hqi_n/master.m3u8?t=rQp1o1rXAXxH0Hosd-PtcoR0JzjCcqTK5KNz2YX6T3c=&s=1781334063&e=43200&v=&srv=transit-1478-v1&i=0.4&sp=0&asn=8708"
        )
    );
    let subtitles = r.subtitles.iter().map(|s| s.url.as_str()).collect::<BTreeSet<_>>();
    let real_subtitles = [
        "https://srt.vidmoly.me/srt/02469/u1lemqhj7hqi_English.vtt",
        "https://srt.vidmoly.me/srt/02469/u1lemqhj7hqi_Romanian.vtt",
    ]
    .into_iter()
    .collect::<BTreeSet<_>>();
    assert_eq!(subtitles, real_subtitles);
}

#[test]
fn file_sun_test_parse_vidmoly_html() {
    let r = FileSuNParser::new().parse_file_sun_html(FILE_SUN_PAGE);
    assert_eq!(
        r.video.as_deref(),
        Some(
            "https://prx-1559-ant.vmwesa.online/hls2/02/02589/k0kfg2ai8kny_,n,l,.urlset/master.m3u8?t=gcCCgLPFEQ2_tXrBUryjbVcJTvZw9tPUytg3SkYsZc4=&s=1783968858&e=43200&v=&srv=bck-1564-ant-p&i=0.4&sp=0&asn=8708"
        )
    );
    let subtitles = r.subtitles.iter().map(|s| s.url.as_str()).collect::<BTreeSet<_>>();
    let real_subtitles = [
        "https://srt.vidmoly.me/srt/02589/hvpihozhm2ny_English.vtt",
        "https://srt.vidmoly.me/srt/02589/hvpihozhm2ny_Romanian.vtt",
    ]
    .into_iter()
    .collect::<BTreeSet<_>>();
    assert_eq!(subtitles, real_subtitles);
}

#[test]
fn a_page_without_scripts() {
    let r = VidmolyParser::new().parse_vidmoly_html("<p>\"https://a/master.m3u8\"</p>");
    assert_eq!(r.video, None);
    assert!(r.subtitles.is_empty());
}

#[test]
fn media_of_several_scripts() {
    let script = |video: Option<&str>, subtitles: &[&str]| ScriptAddresses {
        video: video.map(|v| v.to_owned()),
        subtitles: subtitles.iter().map(|s| s.to_string()).collect(),
    };
    let r = collect_media(&vec![
        script(None, &["https://s/one_Romanian.vtt", "https://s/French.vtt"]),
        script(Some("first"), &[]),
        script(Some("second"), &["https://s/two.vtt"]),
    ]);
    assert_eq!(r.video.as_deref(), Some("first"));
    let subtitles: Vec<(&str, Language)> =
        r.subtitles.iter().map(|s| (s.url.as_str(), s.lang)).collect();
    assert_eq!(
        subtitles,
        vec![
            ("https://s/one_Romanian.vtt", Language::Romania),
            ("https://s/two.vtt", Language::Unrecognized),
        ]
    );
    let nothing = collect_media(&Vec::new());
    assert!(nothing.video.is_none() && nothing.subtitles.is_empty());
}

struct Anything;

impl PlayerScrapper for Anything {}

#[test]
fn scrappers_by_server() {
    assert_eq!(VidmolyScrapper::new().server_name(), "Vidmoly");
    assert_eq!(FileSuN::new().server_name(), "FileSuN");
    let mut scrappers: PlayerScrappers<Anything, PageScrapper> = PlayerScrappers::new(Anything);
    assert!(matches!(scrappers.scrapper_for("Vidmoly"), ChosenScrapper::Default(_)));
    scrappers.add_scrapper(PageScrapper::Vidmoly(VidmolyScrapper::new()));
    scrappers.add_scrapper(PageScrapper::FileSuN(FileSuN::new()));
    assert!(matches!(
        scrappers.scrapper_for("Vidmoly"),
        ChosenScrapper::Specific(PageScrapper::Vidmoly(_))
    ));
    assert!(matches!(
        scrappers.scrapper_for("FileSuN"),
        ChosenScrapper::Specific(PageScrapper::FileSuN(_))
    ));
    assert!(matches!(scrappers.scrapper_for("filesun"), ChosenScrapper::Default(_)));
    let page = PageScrapper::Vidmoly(VidmolyScrapper::new()).parse(VIDMOLY_PAGE);
    assert_eq!(page.subtitles.len(), 2);
}

#[test]
fn watching_a_page_for_the_video_first() {
    let mut seen = BrowserDiscovery::new();
    assert_eq!(seen.observe("https://cdn.example/a/app.js"), None);
    assert_eq!(seen.observe("no address"), None);
    assert_eq!(seen.observe("data:text/plain,master.m3u8"), None);
    assert_eq!(seen.observe("https://CDN.example/x/master.m3u8?t=1"), None);
    assert_eq!(seen.observe("https://cdn.example/x/subs_English.vtt"), Some(SETTLE_MILLIS));
    assert_eq!(seen.observe("https://cdn.example/x/subs_Romanian.vtt"), None);
    let found = seen.finish().unwrap();
    // The address is written in full, with the host in small letters.
    assert_eq!(found.video.as_deref(), Some("https://cdn.example/x/master.m3u8?t=1"));
    assert_eq!(found.subtitles.len(), 2);
    assert_eq!(found.subtitles[0].lang, Language::English);
    assert_eq!(found.subtitles[1].lang, Language::Romania);
}

#[test]
fn watching_a_page_for_the_subtitles_first() {
    let mut seen = BrowserDiscovery::new();
    assert_eq!(seen.observe("https://cdn.example/x/subs.vtt"), None);
    assert_eq!(seen.observe("https://cdn.example/x/master.m3u8"), Some(SETTLE_MILLIS));
    assert_eq!(seen.observe("https://cdn.example/y/master.m3u8"), None);
    let found = seen.finish().unwrap();
    assert_eq!(found.video.as_deref(), Some("https://cdn.example/y/master.m3u8"));
}

#[test]
fn a_subtitle_that_is_not_offered_still_ends_the_watch() {
    let mut seen = BrowserDiscovery::new();
    assert_eq!(seen.observe_request("v".to_owned(), "master.m3u8"), None);
    assert_eq!(seen.observe_request("https://a/French.vtt".to_owned(), "French.vtt"), Some(200));
    assert_eq!(seen.observe_request("u".to_owned(), "notvtt"), None);
    let found = seen.finish().unwrap();
    assert!(found.subtitles.is_empty());
}

#[test]
fn the_last_part_of_a_path_counts() {
    let mut seen = BrowserDiscovery::new();
    let parts = |parts: &[&str]| parts.iter().map(|p| p.to_string()).collect::<Vec<String>>();
    assert_eq!(seen.observe_address("u".to_owned(), &Vec::new()), None);
    assert_eq!(seen.observe_address("v".to_owned(), &parts(&["master.m3u8", "x"])), None);
    assert_eq!(seen.video, None);
    assert_eq!(seen.observe("https://cdn.example/master.m3u8/x"), None);
    assert_eq!(seen.video, None);
    assert_eq!(seen.observe_address("w".to_owned(), &parts(&["x", "master.m3u8"])), None);
    assert_eq!(seen.video.as_deref(), Some("w"));
}

#[test]
fn watching_a_page_with_nothing_on_it() {
    let mut seen = BrowserDiscovery::new();
    assert_eq!(seen.observe("https://cdn.example/"), None);
    assert_eq!(seen.finish().unwrap_err(), NothingDiscovered);
    assert_eq!(NothingDiscovered.message(), "Didn't find the video or the subtitles");
}

#[test]
fn pages_with_problems() {
    assert_eq!(
        page_problem("<h1>Security Verification</h1>Not Found"),
        Some(PageProblem::SecurityVerification)
    );
    assert_eq!(page_problem("<h1>404 NOT FOUND</h1>"), Some(PageProblem::NotFound));
    assert_eq!(page_problem("<h1>Fine</h1>"), None);
    assert_eq!(problem_in("NOT FOUND"), None);
    assert_eq!(
        PageProblem::SecurityVerification.message(),
        "Page contains security validation"
    );
    assert_eq!(PageProblem::NotFound.message(), "The url was not found");
}
