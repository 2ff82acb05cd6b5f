//! Searching the players of servers for the video and its subtitles.

use crate::contracts::Language;
use crate::fsonline;
use crate::fsonline::{SelectedElement, SubtitleFsonline, VideoAndSubtitles};
use crate::text;
use vstd::prelude::*;

verus! {

/// What an address of a video looks like, between quotes.
pub open spec fn m3u8_pattern() -> Seq<char> {
    "['\"](https://.*master\\.m3u8[^'\"]*)['\"]"@
}

/// What an address of a subtitle looks like, between quotes.
pub open spec fn vtt_pattern() -> Seq<char> {
    "['\"](https://.*\\.vtt)['\"]"@
}

/// The pattern for addresses of videos.
pub fn regex_m3u8() -> (r: &'static str)
    ensures
        r@ == m3u8_pattern(),
{
    "['\"](https://.*master\\.m3u8[^'\"]*)['\"]"
}

/// The pattern for addresses of subtitles.
pub fn regex_vtt() -> (r: &'static str)
    ensures
        r@ == vtt_pattern(),
{
    "['\"](https://.*\\.vtt)['\"]"
}

/// What the first match of a pattern in a text has in the brackets of the pattern.
pub uninterp spec fn first_match(pattern: Seq<char>, text: Seq<char>) -> Option<Seq<char>>;

/// What the matches of a pattern in a text have, one after the other, in the brackets of
/// the pattern.
pub uninterp spec fn all_matches(pattern: Seq<char>, text: Seq<char>) -> Seq<Seq<char>>;

/// `regex::Regex::captures`, and of the match what stands in the brackets: a function of the
/// pattern and the text. The patterns are those that `regex::Regex::new` is known to accept,
/// and their brackets take part in every match.
#[verifier::external_body]
fn first_capture(pattern: &str, text: &str) -> (r: Option<String>)
    requires
        pattern@ == m3u8_pattern() || pattern@ == vtt_pattern(),
    ensures
        fsonline::optional_text(r) == first_match(pattern@, text@),
{
    let regex = regex::Regex::new(pattern).unwrap();
    regex.captures(text).map(|found| found.get(1).unwrap().as_str().to_owned())
}

/// `regex::Regex::captures_iter`, and of each match what stands in the brackets: a function
/// of the pattern and the text. The patterns are those that `regex::Regex::new` is known to
/// accept, and their brackets take part in every match.
#[verifier::external_body]
fn all_captures(pattern: &str, text: &str) -> (r: Vec<String>)
    requires
        pattern@ == m3u8_pattern() || pattern@ == vtt_pattern(),
    ensures
        text::texts(r@) == all_matches(pattern@, text@),
{
    let regex = regex::Regex::new(pattern).unwrap();
    regex.captures_iter(text).map(|found| found.get(1).unwrap().as_str().to_owned()).collect()
}

/// The addresses that a script holds: that of a video, and those of subtitles.
#[derive(Debug, Clone)]
pub struct ScriptAddresses {
    pub video: Option<String>,
    pub subtitles: Vec<String>,
}

impl View for ScriptAddresses {
    type V = (Option<Seq<char>>, Seq<Seq<char>>);

    open spec fn view(&self) -> (Option<Seq<char>>, Seq<Seq<char>>) {
        (fsonline::optional_text(self.video), text::texts(self.subtitles@))
    }
}

/// The addresses in scripts as plain texts.
pub open spec fn script_views(scripts: Seq<ScriptAddresses>) -> Seq<
    (Option<Seq<char>>, Seq<Seq<char>>),
> {
    scripts.map_values(|s: ScriptAddresses| s@)
}

/// The first video that a script names.
pub open spec fn first_video(scripts: Seq<(Option<Seq<char>>, Seq<Seq<char>>)>) -> Option<
    Seq<char>,
>
    decreases scripts.len(),
{
    if scripts.len() == 0 {
        None
    } else {
        match first_video(scripts.drop_last()) {
            Some(video) => Some(video),
            None => scripts.last().0,
        }
    }
}

/// The subtitles with these addresses, without those in languages that are not offered.
pub open spec fn offered(urls: Seq<Seq<char>>) -> Seq<(Seq<char>, Language)>
    decreases urls.len(),
{
    if urls.len() == 0 {
        Seq::empty()
    } else {
        let before = offered(urls.drop_last());
        match fsonline::subtitle_language(urls.last()) {
            Some(lang) => before.push((urls.last(), lang)),
            None => before,
        }
    }
}

/// The subtitles that some scripts name, in order.
pub open spec fn all_offered(scripts: Seq<(Option<Seq<char>>, Seq<Seq<char>>)>) -> Seq<
    (Seq<char>, Language),
>
    decreases scripts.len(),
{
    if scripts.len() == 0 {
        Seq::empty()
    } else {
        all_offered(scripts.drop_last()) + offered(scripts.last().1)
    }
}

/// Puts together what the scripts of a page name: the first video, and all subtitles.
pub fn collect_media(scripts: &Vec<ScriptAddresses>) -> (r: VideoAndSubtitles)
    ensures
        r@ == (first_video(script_views(scripts@)), all_offered(script_views(scripts@))),
{
    let ghost all = script_views(scripts@);
    let mut video: Option<String> = None;
    let mut subtitles: Vec<SubtitleFsonline> = Vec::new();
    assert(fsonline::subtitle_views(subtitles@) =~= all_offered(all.take(0)));
    for i in 0..scripts.len()
        invariant
            all == script_views(scripts@),
            fsonline::optional_text(video) == first_video(all.take(i as int)),
            fsonline::subtitle_views(subtitles@) == all_offered(all.take(i as int)),
    {
        assert(all[i as int] == scripts@[i as int]@);
        assert(all.take(i + 1).drop_last() =~= all.take(i as int));
        if video.is_none() {
            match &scripts[i].video {
                Some(url) => {
                    video = Some(url.clone());
                },
                None => {},
            }
        }
        let ghost before = fsonline::subtitle_views(subtitles@);
        let urls = &scripts[i].subtitles;
        let ghost texts = text::texts(urls@);
        assert(before =~= before + offered(texts.take(0)));
        for j in 0..urls.len()
            invariant
                texts == text::texts(urls@),
                fsonline::subtitle_views(subtitles@) == before + offered(texts.take(j as int)),
        {
            assert(texts[j as int] == urls@[j as int]@);
            assert(texts.take(j + 1).drop_last() =~= texts.take(j as int));
            let ghost so_far = fsonline::subtitle_views(subtitles@);
            match SubtitleFsonline::new(urls[j].clone()) {
                Some(subtitle) => {
                    subtitles.push(subtitle);
                    assert(fsonline::subtitle_views(subtitles@) =~= so_far.push(subtitle@));
                },
                None => {},
            }
            assert(fsonline::subtitle_views(subtitles@) =~= before + offered(texts.take(j + 1)));
        }
        assert(texts.take(texts.len() as int) =~= texts);
    }
    assert(all.take(all.len() as int) =~= all);
    VideoAndSubtitles { video, subtitles }
}

/// The addresses that the scripts of a page hold; a script without text holds none.
pub open spec fn script_addresses(
    elements: Seq<(Option<Seq<char>>, Option<Seq<char>>, Option<Seq<char>>)>,
) -> Seq<(Option<Seq<char>>, Seq<Seq<char>>)> {
    elements.map_values(
        |e: (Option<Seq<char>>, Option<Seq<char>>, Option<Seq<char>>)|
            match e.1 {
                Some(code) => (first_match(m3u8_pattern(), code), all_matches(vtt_pattern(), code)),
                None => (None, Seq::empty()),
            },
    )
}

/// Reads the addresses from the scripts of a page.
fn read_scripts(elements: &Vec<SelectedElement>) -> (r: Vec<ScriptAddresses>)
    ensures
        script_views(r@) == script_addresses(fsonline::element_views(elements@)),
{
    let ghost all = script_addresses(fsonline::element_views(elements@));
    let mut scripts: Vec<ScriptAddresses> = Vec::new();
    assert(script_views(scripts@) =~= all.take(0));
    for i in 0..elements.len()
        invariant
            all == script_addresses(fsonline::element_views(elements@)),
            script_views(scripts@) == all.take(i as int),
    {
        assert(fsonline::element_views(elements@)[i as int] == elements@[i as int]@);
        let ghost before = script_views(scripts@);
        let script = match &elements[i].text {
            Some(code) => ScriptAddresses {
                video: first_capture(regex_m3u8(), code.as_str()),
                subtitles: all_captures(regex_vtt(), code.as_str()),
            },
            None => {
                let nothing = ScriptAddresses { video: None, subtitles: Vec::new() };
                assert(text::texts(nothing.subtitles@) =~= Seq::empty());
                nothing
            },
        };
        assert(script@ == all[i as int]);
        scripts.push(script);
        assert(script_views(scripts@) =~= before.push(script@));
        assert(script_views(scripts@) =~= all.take(i + 1));
    }
    assert(all.take(all.len() as int) =~= all);
    scripts
}

/// What a page of a player holds: what its scripts name.
pub open spec fn page_media(html: Seq<char>) -> (Option<Seq<char>>, Seq<(Seq<char>, Language)>) {
    let scripts = script_addresses(fsonline::selected(html, "script"@, ""@));
    (first_video(scripts), all_offered(scripts))
}

fn parse_scripts(html: &str) -> (r: VideoAndSubtitles)
    ensures
        r@ == page_media(html@),
{
    let elements = fsonline::select_elements(html, "script", "");
    let scripts = read_scripts(&elements);
    collect_media(&scripts)
}

/// Reads the pages of Vidmoly.
#[derive(Debug, Clone, Copy)]
pub struct VidmolyParser;

impl VidmolyParser {
    pub fn new() -> (r: Self)
        ensures
            r == Self,
    {
        Self
    }

    /// The video and the subtitles that a page names in its scripts.
    pub fn parse_vidmoly_html(&self, html: &str) -> (r: VideoAndSubtitles)
        ensures
            r@ == page_media(html@),
    {
        parse_scripts(html)
    }
}

/// Reads the pages of FileSuN.
#[derive(Debug, Clone, Copy)]
pub struct FileSuNParser;

impl FileSuNParser {
    pub fn new() -> (r: Self)
        ensures
            r == Self,
    {
        Self
    }

    /// The video and the subtitles that a page names in its scripts.
    pub fn parse_file_sun_html(&self, html: &str) -> (r: VideoAndSubtitles)
        ensures
            r@ == page_media(html@),
    {
        parse_scripts(html)
    }
}

/// Something that can search a player for the video.
pub trait PlayerScrapper {

}

/// Something that can search the players of one server.
pub trait SpecificScrapper: PlayerScrapper {
    /// The server whose players it can search.
    fn server_name(&self) -> &'static str;
}

/// Searches the players of Vidmoly.
#[derive(Debug, Clone, Copy)]
pub struct VidmolyScrapper {
    pub parser: VidmolyParser,
}

impl VidmolyScrapper {
    pub fn new() -> (r: Self)
        ensures
            r.parser == VidmolyParser,
    {
        Self { parser: VidmolyParser::new() }
    }
}

impl PlayerScrapper for VidmolyScrapper {

}

impl SpecificScrapper for VidmolyScrapper {
    fn server_name(&self) -> (r: &'static str)
        ensures
            r@ == "Vidmoly"@,
    {
        "Vidmoly"
    }
}

/// Searches the players of FileSuN.
#[derive(Debug, Clone, Copy)]
pub struct FileSuN {
    pub parser: FileSuNParser,
}

impl FileSuN {
    pub fn new() -> (r: Self)
        ensures
            r.parser == FileSuNParser,
    {
        Self { parser: FileSuNParser::new() }
    }
}

impl PlayerScrapper for FileSuN {

}

impl SpecificScrapper for FileSuN {
    fn server_name(&self) -> (r: &'static str)
        ensures
            r@ == "FileSuN"@,
    {
        "FileSuN"
    }
}

/// Something that can search the players of a server whose pages name the video.
#[derive(Debug, Clone, Copy)]
pub enum PageScrapper {
    Vidmoly(VidmolyScrapper),
    FileSuN(FileSuN),
}

impl PageScrapper {
    /// The video and the subtitles that the page of a player names.
    pub fn parse(&self, html: &str) -> (r: VideoAndSubtitles)
        ensures
            r@ == page_media(html@),
    {
        match self {
            PageScrapper::Vidmoly(scrapper) => scrapper.parser.parse_vidmoly_html(html),
            PageScrapper::FileSuN(scrapper) => scrapper.parser.parse_file_sun_html(html),
        }
    }
}

impl PlayerScrapper for PageScrapper {

}

impl SpecificScrapper for PageScrapper {
    fn server_name(&self) -> (r: &'static str)
        ensures
            r@ == match self {
                PageScrapper::Vidmoly(_) => "Vidmoly"@,
                PageScrapper::FileSuN(_) => "FileSuN"@,
            },
    {
        match self {
            PageScrapper::Vidmoly(scrapper) => scrapper.server_name(),
            PageScrapper::FileSuN(scrapper) => scrapper.server_name(),
        }
    }
}

/// What searches which players: something for each of some servers, and something for all
/// others.
pub struct PlayerScrappers<D, S> {
    pub default_scrapper: D,
    pub specific_scrapper: Vec<(&'static str, S)>,
}

/// What searches a player.
pub enum ChosenScrapper<'a, D, S> {
    Specific(&'a S),
    Default(&'a D),
}

/// The servers that something was added for.
pub open spec fn server_names<S>(scrappers: Seq<(&'static str, S)>) -> Seq<Seq<char>> {
    scrappers.map_values(|s: (&'static str, S)| s.0@)
}

impl<D: PlayerScrapper, S: SpecificScrapper> PlayerScrappers<D, S> {
    /// There is one for a server at most.
    pub open spec fn well_formed(&self) -> bool {
        server_names(self.specific_scrapper@).no_duplicates()
    }

    pub fn new(default_scrapper: D) -> (r: Self)
        ensures
            r.well_formed(),
            r.default_scrapper == default_scrapper,
            r.specific_scrapper@.len() == 0,
    {
        Self { default_scrapper, specific_scrapper: Vec::new() }
    }

    /// Adds what searches the players of a server, for which there is nothing yet.
    pub fn add_scrapper(&mut self, scrapper: S)
        requires
            old(self).well_formed(),
            forall|name: &'static str|
                call_ensures(S::server_name, (&scrapper,), name) ==> !server_names(
                    old(self).specific_scrapper@,
                ).contains(name@),
        ensures
            final(self).well_formed(),
            final(self).default_scrapper == old(self).default_scrapper,
            final(self).specific_scrapper@.len() == old(self).specific_scrapper@.len() + 1,
            final(self).specific_scrapper@.drop_last() == old(self).specific_scrapper@,
            final(self).specific_scrapper@.last().1 == scrapper,
            call_ensures(
                S::server_name,
                (&scrapper,),
                final(self).specific_scrapper@.last().0,
            ),
    {
        let server_name = scrapper.server_name();
        let ghost before = server_names(self.specific_scrapper@);
        self.specific_scrapper.push((server_name, scrapper));
        assert(server_names(self.specific_scrapper@) =~= before.push(server_name@));
        assert(self.specific_scrapper@.drop_last() =~= old(self).specific_scrapper@);
    }

    /// What searches the players of a server: what was added for it, or else the default.
    pub fn scrapper_for(&self, server_name: &str) -> (r: ChosenScrapper<'_, D, S>)
        requires
            self.well_formed(),
        ensures
            match r {
                ChosenScrapper::Specific(scrapper) => exists|i: int|
                    0 <= i < self.specific_scrapper@.len()
                        && #[trigger] self.specific_scrapper@[i].0@ == server_name@
                        && self.specific_scrapper@[i].1 == *scrapper,
                ChosenScrapper::Default(scrapper) => *scrapper == self.default_scrapper
                    && !server_names(self.specific_scrapper@).contains(server_name@),
            },
    {
        for i in 0..self.specific_scrapper.len()
            invariant
                forall|j: int|
                    0 <= j < i ==> #[trigger] server_names(self.specific_scrapper@)[j]
                        != server_name@,
        {
            assert(server_names(self.specific_scrapper@)[i as int]
                == self.specific_scrapper@[i as int].0@);
            if text::str_eq(self.specific_scrapper[i].0, server_name) {
                return ChosenScrapper::Specific(&self.specific_scrapper[i].1);
            }
        }
        ChosenScrapper::Default(&self.default_scrapper)
    }
}

/// How long the requests of a page are watched at first, in milliseconds.
pub const WATCH_MILLIS: u64 = 3000;

/// How long they are watched for more subtitles once a video and a subtitle were found, in
/// milliseconds.
pub const SETTLE_MILLIS: u64 = 200;

/// How long a page may take to load, in milliseconds.
pub const LOAD_MILLIS: u64 = 10_000;

/// An address as it is written in full, and the parts of its path, where it has a path. There
/// is nothing if the text is no address.
pub uninterp spec fn parsed_url(text: Seq<char>) -> Option<(Seq<char>, Option<Seq<Seq<char>>>)>;

/// The parts of a path as plain texts.
pub open spec fn path_texts(parts: Option<Vec<String>>) -> Option<Seq<Seq<char>>> {
    match parts {
        Some(parts) => Some(text::texts(parts@)),
        None => None,
    }
}

/// `reqwest::Url` parsed from a text, its `to_string` and its `path_segments`: a function of
/// the text.
#[verifier::external_body]
fn parse_url(text: &str) -> (r: Option<(String, Option<Vec<String>>)>)
    ensures
        r is Some <==> parsed_url(text@) is Some,
        r matches Some((url, parts)) ==> parsed_url(text@) == Some((url@, path_texts(parts))),
{
    let url = text.parse::<reqwest::Url>().ok()?;
    let parts = url.path_segments().map(|parts| parts.map(str::to_owned).collect());
    Some((url.to_string(), parts))
}

/// What a request of a page is for: an address, and the last part of its path.
pub open spec fn requested(url: Option<(Seq<char>, Option<Seq<Seq<char>>>)>) -> Option<
    (Seq<char>, Seq<char>),
> {
    match url {
        Some((url, Some(parts))) => if parts.len() > 0 {
            Some((url, parts.last()))
        } else {
            None
        },
        _ => None,
    }
}

/// What was seen of a page so far.
pub struct BrowserDiscovery {
    pub video: Option<String>,
    pub subtitles: Vec<SubtitleFsonline>,
}

/// Nothing to play was seen.
#[derive(Debug, Clone, Copy, PartialEq, Eq, Structural)]
pub struct NothingDiscovered;

impl NothingDiscovered {
    pub fn message(&self) -> (r: String)
        ensures
            r@ == "Didn't find the video or the subtitles"@,
    {
        "Didn't find the video or the subtitles".to_owned()
    }
}

/// Why a page cannot be played.
#[derive(Debug, Clone, Copy, PartialEq, Eq, Structural)]
pub enum PageProblem {
    SecurityVerification,
    NotFound,
}

impl PageProblem {
    pub fn message(&self) -> (r: String)
        ensures
            r@ == match self {
                PageProblem::SecurityVerification => "Page contains security validation"@,
                PageProblem::NotFound => "The url was not found"@,
            },
    {
        match self {
            PageProblem::SecurityVerification => "Page contains security validation".to_owned(),
            PageProblem::NotFound => "The url was not found".to_owned(),
        }
    }
}

/// What a page in small letters says of why it cannot be played.
pub open spec fn problem_of(page: Seq<char>) -> Option<PageProblem> {
    if text::has_part(page, "security verification"@) {
        Some(PageProblem::SecurityVerification)
    } else if text::has_part(page, "not found"@) {
        Some(PageProblem::NotFound)
    } else {
        None
    }
}

/// What a page in small letters says of why it cannot be played.
pub fn problem_in(page: &str) -> (r: Option<PageProblem>)
    ensures
        r == problem_of(page@),
{
    let chars = text::chars_of(page);
    let verification = text::chars_of("security verification");
    if text::contains(&chars, &verification) {
        return Some(PageProblem::SecurityVerification);
    }
    let not_found = text::chars_of("not found");
    if text::contains(&chars, &not_found) {
        return Some(PageProblem::NotFound);
    }
    None
}

/// What a page says of why it cannot be played.
pub fn page_problem(html: &str) -> (r: Option<PageProblem>)
    ensures
        r == problem_of(text::lowercase(html@)),
{
    let page = text::to_lowercase(html);
    problem_in(page.as_str())
}

/// What was seen of a page, by the video and the subtitles.
pub open spec fn seen(
    before: (Option<Seq<char>>, Seq<(Seq<char>, Language)>),
    url: Seq<char>,
    last: Seq<char>,
) -> (Option<Seq<char>>, Seq<(Seq<char>, Language)>) {
    if last == "master.m3u8"@ {
        (Some(url), before.1)
    } else if text::last_piece(last, '.') == "vtt"@ {
        match fsonline::subtitle_language(url) {
            Some(lang) => (before.0, before.1.push((url, lang))),
            None => before,
        }
    } else {
        before
    }
}

/// Whether a request completes what was seen: it is the first for a video and there are
/// subtitles, or for a subtitle while there are none and there is a video.
pub open spec fn completes(
    before: (Option<Seq<char>>, Seq<(Seq<char>, Language)>),
    last: Seq<char>,
) -> bool {
    if last == "master.m3u8"@ {
        before.0 is None && before.1.len() > 0
    } else {
        text::last_piece(last, '.') == "vtt"@ && before.1.len() == 0 && before.0 is Some
    }
}

impl BrowserDiscovery {
    /// The video and the subtitles that were seen.
    pub open spec fn found(&self) -> (Option<Seq<char>>, Seq<(Seq<char>, Language)>) {
        (fsonline::optional_text(self.video), fsonline::subtitle_views(self.subtitles@))
    }

    pub fn new() -> (r: Self)
        ensures
            r.found() == (None::<Seq<char>>, Seq::<(Seq<char>, Language)>::empty()),
    {
        let r = Self { video: None, subtitles: Vec::new() };
        assert(fsonline::subtitle_views(r.subtitles@) =~= Seq::empty());
        r
    }

    /// Takes note of a request of the page for `url`, whose path ends in `last`. Says for how
    /// many milliseconds to watch on, where that changes.
    pub fn observe_request(&mut self, url: String, last: &str) -> (r: Option<u64>)
        ensures
            final(self).found() == seen(old(self).found(), url@, last@),
            r == if completes(old(self).found(), last@) {
                Some(SETTLE_MILLIS)
            } else {
                None
            },
    {
        let ghost before = self.found();
        if text::str_eq(last, "master.m3u8") {
            let complete = self.video.is_none() && self.subtitles.len() > 0;
            self.video = Some(url);
            if complete {
                return Some(SETTLE_MILLIS);
            }
            return None;
        }
        let chars = text::chars_of(last);
        let pieces = text::split(&chars, '.');
        let at: usize = pieces.len() - 1;
        assert(text::views(pieces@)[at as int] == pieces@[at as int]@);
        let extension = text::chars_of("vtt");
        if text::chars_eq(&pieces[at], &extension) {
            let complete = self.subtitles.len() == 0 && self.video.is_some();
            match SubtitleFsonline::new(url) {
                Some(subtitle) => {
                    self.subtitles.push(subtitle);
                    assert(fsonline::subtitle_views(self.subtitles@) =~= before.1.push(subtitle@));
                },
                None => {},
            }
            if complete {
                return Some(SETTLE_MILLIS);
            }
        }
        None
    }

    /// Takes note of a request of the page. One that is for no address, or for one without
    /// a path, is passed over.
    pub fn observe(&mut self, request_url: &str) -> (r: Option<u64>)
        ensures
            match requested(parsed_url(request_url@)) {
                Some((url, last)) => {
                    &&& final(self).found() == seen(old(self).found(), url, last)
                    &&& r == if completes(old(self).found(), last) {
                        Some(SETTLE_MILLIS)
                    } else {
                        None
                    }
                },
                None => final(self).found() == old(self).found() && r is None,
            },
    {
        match parse_url(request_url) {
            Some((url, Some(parts))) => self.observe_address(url, &parts),
            _ => None,
        }
    }

    /// Takes note of a request of the page for an address with these parts of a path.
    pub fn observe_address(&mut self, url: String, parts: &Vec<String>) -> (r: Option<u64>)
        ensures
            match requested(Some((url@, Some(text::texts(parts@))))) {
                Some((url, last)) => {
                    &&& final(self).found() == seen(old(self).found(), url, last)
                    &&& r == if completes(old(self).found(), last) {
                        Some(SETTLE_MILLIS)
                    } else {
                        None
                    }
                },
                None => final(self).found() == old(self).found() && r is None,
            },
    {
        if parts.len() == 0 {
            return None;
        }
        let last: usize = parts.len() - 1;
        assert(text::texts(parts@).last() == parts@[last as int]@);
        self.observe_request(url, parts[last].as_str())
    }

    /// What was found, unless that is nothing.
    pub fn finish(self) -> (r: Result<VideoAndSubtitles, NothingDiscovered>)
        ensures
            r is Err <==> self.found() == (
                None::<Seq<char>>,
                Seq::<(Seq<char>, Language)>::empty(),
            ),
            r matches Ok(data) ==> data@ == self.found(),
    {
        assert(self.subtitles@.len() == 0 ==> self.found().1 =~= Seq::empty());
        if self.subtitles.len() == 0 && self.video.is_none() {
            return Err(NothingDiscovered);
        }
        Ok(VideoAndSubtitles { video: self.video, subtitles: self.subtitles })
    }
}

/// What was seen of a page after some requests, each by its address and the last part of
/// its path.
pub open spec fn watched(requests: Seq<(Seq<char>, Seq<char>)>) -> (
    Option<Seq<char>>,
    Seq<(Seq<char>, Language)>,
)
    decreases requests.len(),
{
    if requests.len() == 0 {
        (None, Seq::empty())
    } else {
        seen(watched(requests.drop_last()), requests.last().0, requests.last().1)
    }
}

/// Whether a request is for a video, or for a subtitle that is offered.
pub open spec fn is_playable(request: (Seq<char>, Seq<char>)) -> bool {
    ||| request.1 == "master.m3u8"@
    ||| text::last_piece(request.1, '.') == "vtt"@ && fsonline::subtitle_language(request.0) is Some
}

/// Watching a page finds something exactly when one of its requests was for a video or for
/// a subtitle that is offered, in whatever order they came.
pub proof fn something_is_found_if_requested(requests: Seq<(Seq<char>, Seq<char>)>)
    ensures
        watched(requests) == (None::<Seq<char>>, Seq::<(Seq<char>, Language)>::empty()) <==> (
        forall|i: int| 0 <= i < requests.len() ==> !is_playable(#[trigger] requests[i])),
    decreases requests.len(),
{
    if requests.len() > 0 {
        let before = requests.drop_last();
        let last = requests.len() - 1;
        something_is_found_if_requested(before);
        assert(forall|i: int| 0 <= i < last ==> requests[i] == #[trigger] before[i]);
        let found = watched(before);
        let more = watched(requests);
        if is_playable(requests[last]) {
            assert(more.0 is Some || more.1.len() > 0);
        } else {
            assert(more == found);
        }
        if exists|i: int| 0 <= i < last && is_playable(#[trigger] requests[i]) {
            let i = choose|i: int| 0 <= i < last && is_playable(#[trigger] requests[i]);
            assert(is_playable(before[i]));
            assert(found.0 is Some || found.1.len() > 0) by {
                if found.0 is None && found.1.len() == 0 {
                    assert(found.1 =~= Seq::empty());
                }
            }
            assert(more.0 is Some || more.1.len() > 0);
        } else if !is_playable(requests[last]) {
            assert forall|i: int| 0 <= i < before.len() implies !is_playable(
                #[trigger] before[i],
            ) by {
                assert(requests[i] == before[i]);
            }
            assert(forall|i: int|
                0 <= i < requests.len() ==> !is_playable(#[trigger] requests[i]));
        }
    }
}

/// Whether a request is for a subtitle that is offered.
pub open spec fn is_for_subtitle(request: (Seq<char>, Seq<char>)) -> bool {
    text::last_piece(request.1, '.') == "vtt"@ && fsonline::subtitle_language(request.0) is Some
}

/// In whatever order the requests of a page come, the subtitles that are found are those that it
/// asked for, one after the other, each where it is and in its language.
pub proof fn all_subtitles_are_found(requests: Seq<(Seq<char>, Seq<char>)>)
    ensures
        watched(requests).1 == requests.filter(
            |r: (Seq<char>, Seq<char>)| is_for_subtitle(r),
        ).map_values(
            |r: (Seq<char>, Seq<char>)| (r.0, fsonline::subtitle_language(r.0)->0),
        ),
    decreases requests.len(),
{
    reveal(Seq::filter);
    let wanted = |r: (Seq<char>, Seq<char>)| is_for_subtitle(r);
    let named = |r: (Seq<char>, Seq<char>)| (r.0, fsonline::subtitle_language(r.0)->0);
    if requests.len() == 0 {
        assert(watched(requests).1 =~= requests.filter(wanted).map_values(named));
    } else {
        let before = requests.drop_last();
        let last = requests.last();
        all_subtitles_are_found(before);
        master_is_no_subtitle(last.1);
        assert(watched(requests).1 =~= requests.filter(wanted).map_values(named));
    }
}

/// In whatever order the requests of a page come, the video that is found is the one that it
/// asked for last; none is found only if it asked for none.
pub proof fn last_video_is_found(requests: Seq<(Seq<char>, Seq<char>)>)
    ensures
        match watched(requests).0 {
            Some(url) => exists|i: int|
                0 <= i < requests.len() && (#[trigger] requests[i]) == (url, "master.m3u8"@)
                    && forall|j: int|
                    i < j < requests.len() ==> (#[trigger] requests[j]).1 != "master.m3u8"@,
            None => forall|j: int|
                0 <= j < requests.len() ==> (#[trigger] requests[j]).1 != "master.m3u8"@,
        },
    decreases requests.len(),
{
    if requests.len() > 0 {
        let before = requests.drop_last();
        let n = requests.len() - 1;
        last_video_is_found(before);
        assert(forall|j: int| 0 <= j < n ==> before[j] == #[trigger] requests[j]);
        if requests[n].1 == "master.m3u8"@ {
            assert(requests[n] == (watched(requests).0->0, "master.m3u8"@));
        } else {
            assert(watched(requests).0 == watched(before).0);
            match watched(before).0 {
                Some(url) => {
                    let i = choose|i: int|
                        0 <= i < before.len() && (#[trigger] before[i]) == (url, "master.m3u8"@)
                            && forall|j: int|
                            i < j < before.len() ==> (#[trigger] before[j]).1 != "master.m3u8"@;
                    assert(requests[i] == (url, "master.m3u8"@));
                    assert forall|j: int| i < j < requests.len() implies (
                    #[trigger] requests[j]).1 != "master.m3u8"@ by {
                        if j < n {
                            assert(before[j].1 != "master.m3u8"@);
                        }
                    }
                },
                None => {
                    assert forall|j: int| 0 <= j < requests.len() implies (
                    #[trigger] requests[j]).1 != "master.m3u8"@ by {
                        if j < n {
                            assert(before[j].1 != "master.m3u8"@);
                        }
                    }
                },
            }
        }
    }
}

/// The watch is cut short exactly by the request after which both a video and a subtitle are
/// known for the first time, among the requests that something is taken from.
pub proof fn watch_is_cut_short_once(
    before: (Option<Seq<char>>, Seq<(Seq<char>, Language)>),
    url: Seq<char>,
    last: Seq<char>,
)
    requires
        is_playable((url, last)),
    ensures
        completes(before, last) <==> {
            &&& !(before.0 is Some && before.1.len() > 0)
            &&& seen(before, url, last).0 is Some
            &&& seen(before, url, last).1.len() > 0
        },
{
    master_is_no_subtitle(last);
}

proof fn master_is_no_subtitle(last: Seq<char>)
    ensures
        last == "master.m3u8"@ ==> text::last_piece(last, '.') != "vtt"@,
{
    if last == "master.m3u8"@ {
        reveal_strlit("master.m3u8");
        reveal_strlit("vtt");
        text::split_on_nonempty(last.drop_last(), '.');
        assert(last.last() == '8');
        assert(text::last_piece(last, '.').last() == '8');
        assert("vtt"@.last() == 't');
    }
}

/// The video that a page names is the first that any of its scripts names.
pub proof fn first_named_video_is_found(scripts: Seq<(Option<Seq<char>>, Seq<Seq<char>>)>)
    ensures
        match first_video(scripts) {
            Some(video) => exists|i: int|
                0 <= i < scripts.len() && (#[trigger] scripts[i]).0 == Some(video) && forall|j: int|
                    0 <= j < i ==> (#[trigger] scripts[j]).0 is None,
            None => forall|j: int| 0 <= j < scripts.len() ==> (#[trigger] scripts[j]).0 is None,
        },
    decreases scripts.len(),
{
    if scripts.len() > 0 {
        let before = scripts.drop_last();
        let n = scripts.len() - 1;
        first_named_video_is_found(before);
        assert(forall|j: int| 0 <= j < n ==> before[j] == #[trigger] scripts[j]);
        match first_video(before) {
            Some(video) => {
                let i = choose|i: int|
                    0 <= i < before.len() && (#[trigger] before[i]).0 == Some(video)
                        && forall|j: int| 0 <= j < i ==> (#[trigger] before[j]).0 is None;
                assert(scripts[i].0 == Some(video));
                assert forall|j: int| 0 <= j < i implies (#[trigger] scripts[j]).0 is None by {
                    assert(before[j].0 is None);
                }
            },
            None => {
                assert forall|j: int| 0 <= j < n implies (#[trigger] scripts[j]).0 is None by {
                    assert(before[j].0 is None);
                }
                assert(scripts[n] == scripts.last());
            },
        }
    }
}

/// The subtitles with some addresses are those in languages that are offered, in order.
pub proof fn offered_are_those_in_offered_languages(urls: Seq<Seq<char>>)
    ensures
        offered(urls) == urls.filter(
            |u: Seq<char>| fsonline::subtitle_language(u) is Some,
        ).map_values(|u: Seq<char>| (u, fsonline::subtitle_language(u)->0)),
    decreases urls.len(),
{
    reveal(Seq::filter);
    let wanted = |u: Seq<char>| fsonline::subtitle_language(u) is Some;
    let named = |u: Seq<char>| (u, fsonline::subtitle_language(u)->0);
    if urls.len() > 0 {
        offered_are_those_in_offered_languages(urls.drop_last());
    }
    assert(offered(urls) =~= urls.filter(wanted).map_values(named));
}

/// The subtitles of a page are those that any of its scripts names, one script after the other.
pub proof fn all_named_subtitles_are_found(scripts: Seq<(Option<Seq<char>>, Seq<Seq<char>>)>)
    ensures
        all_offered(scripts) == offered(
            scripts.map_values(|s: (Option<Seq<char>>, Seq<Seq<char>>)| s.1).flatten(),
        ),
    decreases scripts.len(),
{
    let named = |s: (Option<Seq<char>>, Seq<Seq<char>>)| s.1;
    if scripts.len() == 0 {
        assert(scripts.map_values(named).flatten() =~= Seq::empty());
    } else {
        let before = scripts.drop_last();
        let last = scripts.last();
        all_named_subtitles_are_found(before);
        before.map_values(named).lemma_flatten_push(last.1);
        assert(scripts.map_values(named) =~= before.map_values(named).push(last.1));
        offered_in_two(before.map_values(named).flatten(), last.1);
    }
}

proof fn offered_in_two(a: Seq<Seq<char>>, b: Seq<Seq<char>>)
    ensures
        offered(a + b) == offered(a) + offered(b),
    decreases b.len(),
{
    if b.len() == 0 {
        assert(a + b =~= a);
        assert(offered(a) + offered(b) =~= offered(a));
    } else {
        offered_in_two(a, b.drop_last());
        assert((a + b).drop_last() =~= a + b.drop_last());
        assert(offered(a + b) =~= offered(a) + offered(b));
    }
}

/// A page can be played exactly if it says neither that it wants a verification nor that it was
/// not found; of both, the verification is reported.
pub proof fn pages_say_why_they_cannot_be_played(page: Seq<char>)
    ensures
        problem_of(page) == Some(PageProblem::SecurityVerification) <==> text::has_part(
            page,
            "security verification"@,
        ),
        problem_of(page) is None <==> !text::has_part(page, "security verification"@)
            && !text::has_part(page, "not found"@),
{
}

/// Each script of a page is read on its own: where it has text, for the first address of a video
/// and for all addresses of subtitles.
pub proof fn scripts_are_read_one_by_one(
    elements: Seq<(Option<Seq<char>>, Option<Seq<char>>, Option<Seq<char>>)>,
    i: int,
)
    requires
        0 <= i < elements.len(),
    ensures
        script_addresses(elements).len() == elements.len(),
        elements[i].1 matches Some(code) ==> script_addresses(elements)[i].0 == first_match(
            m3u8_pattern(),
            code,
        ) && script_addresses(elements)[i].1 == all_matches(vtt_pattern(), code),
        elements[i].1 is None ==> script_addresses(elements)[i].0 is None && script_addresses(
            elements,
        )[i].1.len() == 0,
{
}

/// What was seen of a page names nothing that was not asked for: a request for anything else
/// changes nothing, and one for a subtitle leaves the video as it was.
pub proof fn other_requests_change_nothing(
    before: (Option<Seq<char>>, Seq<(Seq<char>, Language)>),
    url: Seq<char>,
    last: Seq<char>,
)
    ensures
        !is_playable((url, last)) ==> seen(before, url, last) == before,
        last != "master.m3u8"@ ==> seen(before, url, last).0 == before.0,
        before.1.is_prefix_of(seen(before, url, last).1),
        seen(before, url, last).1.len() <= before.1.len() + 1,
{
}

/// Of a request the address counts, and the last part of its path; one without a path is passed
/// over.
pub proof fn last_part_of_the_path_counts(url: Seq<char>, front: Seq<Seq<char>>, last: Seq<char>)
    ensures
        requested(Some((url, Some(front.push(last))))) == Some((url, last)),
        requested(Some((url, None))) is None,
        requested(None) is None,
{
}

/// A page of a player gives the first video that its scripts name, and every subtitle that they
/// name in a language that is offered, in order.
pub proof fn pages_give_what_their_scripts_name(html: Seq<char>)
    ensures
        ({
            let scripts = script_addresses(fsonline::selected(html, "script"@, ""@));
            let urls = scripts.map_values(
                |s: (Option<Seq<char>>, Seq<Seq<char>>)| s.1,
            ).flatten();
            &&& match page_media(html).0 {
                Some(video) => exists|i: int|
                    0 <= i < scripts.len() && (#[trigger] scripts[i]).0 == Some(video)
                        && forall|j: int| 0 <= j < i ==> (#[trigger] scripts[j]).0 is None,
                None => forall|j: int|
                    0 <= j < scripts.len() ==> (#[trigger] scripts[j]).0 is None,
            }
            &&& page_media(html).1 == urls.filter(
                |u: Seq<char>| fsonline::subtitle_language(u) is Some,
            ).map_values(|u: Seq<char>| (u, fsonline::subtitle_language(u)->0))
        }),
{
    let scripts = script_addresses(fsonline::selected(html, "script"@, ""@));
    first_named_video_is_found(scripts);
    all_named_subtitles_are_found(scripts);
    offered_are_those_in_offered_languages(
        scripts.map_values(|s: (Option<Seq<char>>, Seq<Seq<char>>)| s.1).flatten(),
    );
}

} // verus!
