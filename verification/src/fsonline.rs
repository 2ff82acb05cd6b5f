//! Finding a title on the site, and the players that the site names for it.

use crate::contracts::{Language, MovieKey, MovieOrSeriesDataKey, PlayerData, PlayerOption};
use crate::text;
use scraper::Element;
use vstd::prelude::*;

verus! {

/// The MD5 digest of some bytes.
pub uninterp spec fn md5_digest(bytes: Seq<u8>) -> Seq<u8>;

/// `md5::compute`: the digest is a function of the bytes and has sixteen bytes itself.
#[verifier::external_body]
fn compute_md5(bytes: &[u8]) -> (r: Vec<u8>)
    ensures
        r@ == md5_digest(bytes@),
        r@.len() == 16,
{
    md5::compute(bytes).0.to_vec()
}

/// The character for a number below sixteen.
pub open spec fn hex_char(n: nat) -> char {
    if n < 10 {
        (('0' as u32) + n) as char
    } else {
        (('a' as u32) + (n - 10)) as char
    }
}

/// Bytes as hexadecimal numbers of two digits each.
pub open spec fn hex(bytes: Seq<u8>) -> Seq<char>
    decreases bytes.len(),
{
    if bytes.len() == 0 {
        Seq::empty()
    } else {
        hex(bytes.drop_last()) + seq![
            hex_char(bytes.last() as nat / 16),
            hex_char(bytes.last() as nat % 16),
        ]
    }
}

/// The digest that a subtitle is found by.
pub open spec fn url_digest(url: Seq<char>) -> Seq<char> {
    hex(md5_digest(vstd::utf8::encode_utf8(url)))
}

fn hex_digit(n: u8) -> (r: char)
    requires
        n < 16,
    ensures
        r == hex_char(n as nat),
{
    if n < 10 {
        (48u8 + n) as char
    } else {
        (97u8 + (n - 10)) as char
    }
}

fn to_hex(bytes: &Vec<u8>) -> (r: String)
    ensures
        r@ == hex(bytes@),
{
    let mut out = String::new();
    for i in 0..bytes.len()
        invariant
            out@ == hex(bytes@.take(i as int)),
    {
        assert(bytes@.take(i + 1).drop_last() =~= bytes@.take(i as int));
        let ghost before = out@;
        out.push(hex_digit(bytes[i] / 16));
        out.push(hex_digit(bytes[i] % 16));
        assert(out@ =~= before + seq![
            hex_char(bytes@[i as int] as nat / 16),
            hex_char(bytes@[i as int] as nat % 16),
        ]);
    }
    assert(bytes@.take(bytes@.len() as int) =~= bytes@);
    out
}

/// A subtitle where it was found, and its language.
#[derive(Debug, Clone)]
pub struct SubtitleFsonline {
    pub url: String,
    pub lang: Language,
}

impl View for SubtitleFsonline {
    type V = (Seq<char>, Language);

    /// The address and the language.
    open spec fn view(&self) -> (Seq<char>, Language) {
        (self.url@, self.lang)
    }
}

/// The file names of subtitles in languages that are not offered.
pub open spec fn unwanted_names() -> Seq<Seq<char>> {
    seq![
        "finnish.vtt"@,
        "swedish.vtt"@,
        "norwegian.vtt"@,
        "french.vtt"@,
        "indonesian.vtt"@,
        "hungarian.vtt"@,
        "portuguese.vtt"@,
        "czech.vtt"@,
        "german.vtt"@,
        "polish.vtt"@,
        "greek.vtt"@,
        "italian.vtt"@,
        "danish.vtt"@,
        "turkish.vtt"@,
        "spanish.vtt"@,
        "arabic.vtt"@,
    ]
}

/// The language of a subtitle by its file name in small letters; none for a language that
/// is not offered.
pub open spec fn named_language(name: Seq<char>) -> Option<Language> {
    if "romanian.vtt"@.is_suffix_of(name) {
        Some(Language::Romania)
    } else if "english.vtt"@.is_suffix_of(name) {
        Some(Language::English)
    } else if exists|i: int|
        0 <= i < unwanted_names().len() && (#[trigger] unwanted_names()[i]).is_suffix_of(name) {
        None
    } else {
        Some(Language::Unrecognized)
    }
}

/// The language of a subtitle by its address: by what stands behind the last slash.
pub open spec fn subtitle_language(url: Seq<char>) -> Option<Language> {
    named_language(text::lowercase(text::last_piece(url, '/')))
}

/// The language of a subtitle does not depend on the case of the letters in its address.
pub proof fn language_ignores_case(url: Seq<char>, other: Seq<char>)
    requires
        vstd::utf8::is_ascii_chars(url),
        vstd::utf8::is_ascii_chars(other),
        text::ascii_lowercase(url) == text::ascii_lowercase(other),
    ensures
        subtitle_language(url) == subtitle_language(other),
{
    text::last_piece_lowercase(url, '/');
    text::last_piece_lowercase(other, '/');
}

fn ends_in(name: &Vec<char>, suffix: &str) -> (r: bool)
    ensures
        r == suffix@.is_suffix_of(name@),
{
    let suffix = text::chars_of(suffix);
    text::ends_with(name, &suffix)
}

/// The language of a subtitle by its file name in small letters; none for a language that
/// is not offered.
pub fn language_of_name(name: &Vec<char>) -> (r: Option<Language>)
    ensures
        r == named_language(name@),
{
    if ends_in(name, "romanian.vtt") {
        return Some(Language::Romania);
    }
    if ends_in(name, "english.vtt") {
        return Some(Language::English);
    }
    let mut suffixes: Vec<&'static str> = Vec::new();
    suffixes.push("finnish.vtt");
    suffixes.push("swedish.vtt");
    suffixes.push("norwegian.vtt");
    suffixes.push("french.vtt");
    suffixes.push("indonesian.vtt");
    suffixes.push("hungarian.vtt");
    suffixes.push("portuguese.vtt");
    suffixes.push("czech.vtt");
    suffixes.push("german.vtt");
    suffixes.push("polish.vtt");
    suffixes.push("greek.vtt");
    suffixes.push("italian.vtt");
    suffixes.push("danish.vtt");
    suffixes.push("turkish.vtt");
    suffixes.push("spanish.vtt");
    suffixes.push("arabic.vtt");
    assert(suffixes@.len() == unwanted_names().len());
    assert(forall|i: int|
        0 <= i < suffixes@.len() ==> (#[trigger] suffixes@[i])@ == unwanted_names()[i]);
    for i in 0..suffixes.len()
        invariant
            suffixes@.len() == unwanted_names().len(),
            forall|j: int|
                0 <= j < suffixes@.len() ==> (#[trigger] suffixes@[j])@ == unwanted_names()[j],
            forall|j: int|
                0 <= j < i ==> !(#[trigger] unwanted_names()[j]).is_suffix_of(name@),
            !"romanian.vtt"@.is_suffix_of(name@),
            !"english.vtt"@.is_suffix_of(name@),
    {
        if ends_in(name, suffixes[i]) {
            assert(unwanted_names()[i as int].is_suffix_of(name@));
            return None;
        }
    }
    Some(Language::Unrecognized)
}

impl SubtitleFsonline {
    /// The digest of the address, in hexadecimal digits.
    pub fn md5(&self) -> (r: String)
        ensures
            r@ == url_digest(self.url@),
    {
        let digest = compute_md5(self.url.as_str().as_bytes());
        to_hex(&digest)
    }

    /// A subtitle by its address, unless it is in a language that is not offered.
    pub fn new(url: String) -> (r: Option<Self>)
        ensures
            match subtitle_language(url@) {
                Some(lang) => r matches Some(subtitle) && subtitle@ == (url@, lang),
                None => r is None,
            },
    {
        let chars = text::chars_of(url.as_str());
        let pieces = text::split(&chars, '/');
        let last: usize = pieces.len() - 1;
        assert(text::views(pieces@)[last as int] == pieces@[last as int]@);
        let file = text::string_of(&pieces[last]);
        let name = text::to_lowercase(file.as_str());
        let name = text::chars_of(name.as_str());
        match language_of_name(&name) {
            Some(lang) => Some(Self { url, lang }),
            None => None,
        }
    }
}

/// What was found of a title: the video, and its subtitles.
#[derive(Debug, Clone)]
pub struct VideoAndSubtitles {
    pub video: Option<String>,
    pub subtitles: Vec<SubtitleFsonline>,
}

/// The subtitles by their addresses and languages.
pub open spec fn subtitle_views(subtitles: Seq<SubtitleFsonline>) -> Seq<(Seq<char>, Language)> {
    subtitles.map_values(|s: SubtitleFsonline| s@)
}

/// The text, where there is one.
pub open spec fn optional_text(s: Option<String>) -> Option<Seq<char>> {
    match s {
        Some(s) => Some(s@),
        None => None,
    }
}

impl View for VideoAndSubtitles {
    type V = (Option<Seq<char>>, Seq<(Seq<char>, Language)>);

    /// The address of the video, and the subtitles.
    open spec fn view(&self) -> (Option<Seq<char>>, Seq<(Seq<char>, Language)>) {
        (optional_text(self.video), subtitle_views(self.subtitles@))
    }
}

impl Default for VideoAndSubtitles {
    fn default() -> (r: Self)
        ensures
            r.video is None,
            r.subtitles@.len() == 0,
    {
        Self { video: None, subtitles: Vec::new() }
    }
}

/// What was read from an element of a page: the value of an attribute, its first piece of
/// text, and the first piece of text in the first element of its first element.
#[derive(Debug, Clone)]
pub struct SelectedElement {
    pub attribute: Option<String>,
    pub text: Option<String>,
    pub label: Option<String>,
}

impl View for SelectedElement {
    type V = (Option<Seq<char>>, Option<Seq<char>>, Option<Seq<char>>);

    open spec fn view(&self) -> (Option<Seq<char>>, Option<Seq<char>>, Option<Seq<char>>) {
        (optional_text(self.attribute), optional_text(self.text), optional_text(self.label))
    }
}

/// The elements as plain texts.
pub open spec fn element_views(elements: Seq<SelectedElement>) -> Seq<
    (Option<Seq<char>>, Option<Seq<char>>, Option<Seq<char>>),
> {
    elements.map_values(|e: SelectedElement| e@)
}

/// What is read from the elements of a page that a selector picks: the value of an
/// attribute, the first piece of text, and that of the first element of the first element.
pub uninterp spec fn selected(
    html: Seq<char>,
    selector: Seq<char>,
    attribute: Seq<char>,
) -> Seq<(Option<Seq<char>>, Option<Seq<char>>, Option<Seq<char>>)>;

/// `scraper::Html::parse_document` and `select`, and of each element `attr`, `text` and
/// `first_element_child`: what they give is a function of the page, the selector and the
/// attribute. The selectors are those that `scraper::Selector::parse` is known to accept.
#[verifier::external_body]
pub(crate) fn select_elements(html: &str, selector: &str, attribute: &str) -> (r: Vec<
    SelectedElement,
>)
    requires
        selector@ == "[movie-id]"@ || selector@ == "[data-vs]"@ || selector@ == "script"@,
    ensures
        element_views(r@) == selected(html@, selector@, attribute@),
{
    let document = scraper::Html::parse_document(html);
    let selector = scraper::Selector::parse(selector).unwrap();
    let grandchild = |e: scraper::ElementRef| e.first_element_child()?.first_element_child()?.text().next().map(str::to_owned);
    let read = |e: scraper::ElementRef| SelectedElement {
        attribute: e.attr(attribute).map(str::to_owned),
        text: e.text().next().map(str::to_owned),
        label: grandchild(e),
    };
    document.select(&selector).map(read).collect()
}

/// The values among some that are there, each once.
pub open spec fn present(values: Seq<Option<Seq<char>>>) -> Set<Seq<char>> {
    Set::new(|s: Seq<char>| exists|i: int| 0 <= i < values.len() && #[trigger] values[i] == Some(s))
}

/// The attributes of some elements.
pub open spec fn attributes(
    elements: Seq<(Option<Seq<char>>, Option<Seq<char>>, Option<Seq<char>>)>,
) -> Seq<Option<Seq<char>>> {
    elements.map_values(
        |e: (Option<Seq<char>>, Option<Seq<char>>, Option<Seq<char>>)| e.0,
    )
}

/// A page that does not name one title.
#[derive(Debug, Clone, Copy, PartialEq, Eq, Structural)]
pub struct MovieIdError {
    pub count: usize,
}

impl MovieIdError {
    /// The message for the page.
    pub fn message(&self) -> (r: String)
        ensures
            r@ == "Didn't return one movie id. Returned "@ + text::digits(self.count as nat)
                + " movies"@,
    {
        let mut out = "Didn't return one movie id. Returned ".to_owned();
        text::push_decimal(&mut out, self.count as u64);
        out.append(" movies");
        out
    }
}

/// Whether `r` is the answer of a page whose elements name the titles `ids`: the title if
/// there is one, and how many there are otherwise.
pub open spec fn is_movie_id(r: Result<String, MovieIdError>, ids: Set<Seq<char>>) -> bool {
    match r {
        Ok(id) => ids == set![id@],
        Err(e) => ids.finite() && ids.len() == e.count && e.count != 1,
    }
}

/// The title that the elements of a page name.
pub fn one_movie_id(elements: &Vec<SelectedElement>) -> (r: Result<String, MovieIdError>)
    ensures
        is_movie_id(r, present(attributes(element_views(elements@)))),
{
    let ghost all = attributes(element_views(elements@));
    let mut found: Vec<String> = Vec::new();
    assert(text::texts(found@).to_set() =~= present(all.take(0)));
    for i in 0..elements.len()
        invariant
            all == attributes(element_views(elements@)),
            text::texts(found@).no_duplicates(),
            text::texts(found@).to_set() == present(all.take(i as int)),
    {
        assert(element_views(elements@)[i as int] == elements@[i as int]@);
        assert(all[i as int] == elements@[i as int]@.0);
        assert(all.take(i + 1) =~= all.take(i as int).push(all[i as int]));
        match &elements[i].attribute {
            Some(id) => {
                let known = holds(&found, id);
                proof {
                    present_more(all.take(i as int), all[i as int]);
                }
                if !known {
                    let ghost before = text::texts(found@);
                    found.push(id.clone());
                    assert(text::texts(found@) =~= before.push(id@));
                    proof {
                        pushed_set(before, id@);
                    }
                } else {
                    assert(text::texts(found@).to_set().insert(id@) =~= text::texts(
                        found@,
                    ).to_set());
                }
            },
            None => {
                proof {
                    present_more(all.take(i as int), all[i as int]);
                }
            },
        }
    }
    proof {
        assert(all.take(all.len() as int) =~= all);
        text::texts(found@).unique_seq_to_set();
    }
    if found.len() != 1 {
        return Err(MovieIdError { count: found.len() });
    }
    let id = found[0].clone();
    assert(text::texts(found@) =~= seq![id@]);
    assert(text::texts(found@).to_set() =~= set![id@]) by {
        assert forall|s: Seq<char>| text::texts(found@).to_set().contains(s) <==> s == id@ by {
            assert(text::texts(found@)[0] == id@);
        }
    }
    Ok(id)
}

proof fn pushed_set(texts: Seq<Seq<char>>, text: Seq<char>)
    ensures
        texts.push(text).to_set() == texts.to_set().insert(text),
{
    let more = texts.push(text);
    assert forall|s: Seq<char>| more.to_set().contains(s) <==> texts.to_set().insert(text).contains(
        s,
    ) by {
        if texts.contains(s) {
            let i = choose|i: int| 0 <= i < texts.len() && texts[i] == s;
            assert(more[i] == s);
        }
        assert(more[texts.len() as int] == text);
    }
    assert(more.to_set() =~= texts.to_set().insert(text));
}

proof fn present_more(values: Seq<Option<Seq<char>>>, value: Option<Seq<char>>)
    ensures
        present(values.push(value)) == match value {
            Some(s) => present(values).insert(s),
            None => present(values),
        },
{
    let more = values.push(value);
    let expected = match value {
        Some(s) => present(values).insert(s),
        None => present(values),
    };
    assert forall|s: Seq<char>| present(more).contains(s) <==> expected.contains(s) by {
        if present(more).contains(s) {
            let i = choose|i: int| 0 <= i < more.len() && #[trigger] more[i] == Some(s);
            if i < values.len() {
                assert(values[i] == Some(s));
            }
        }
        if present(values).contains(s) {
            let i = choose|i: int| 0 <= i < values.len() && #[trigger] values[i] == Some(s);
            assert(more[i] == Some(s));
        }
        if value == Some(s) {
            assert(more[values.len() as int] == Some(s));
        }
    }
    assert(present(more) =~= expected);
}

/// Whether a text is among some.
pub fn holds(texts: &Vec<String>, wanted: &String) -> (r: bool)
    ensures
        r == text::texts(texts@).contains(wanted@),
{
    for i in 0..texts.len()
        invariant
            forall|j: int| 0 <= j < i ==> #[trigger] text::texts(texts@)[j] != wanted@,
    {
        assert(text::texts(texts@)[i as int] == texts@[i as int]@);
        if texts[i] == *wanted {
            return true;
        }
    }
    false
}

/// The title that a page is about: the one that its `movie-id` attributes name.
pub fn get_movie_id(body: &str) -> (r: Result<String, MovieIdError>)
    ensures
        is_movie_id(r, present(attributes(selected(body@, "[movie-id]"@, "movie-id"@)))),
{
    let elements = select_elements(body, "[movie-id]", "movie-id");
    one_movie_id(&elements)
}

/// The players that some elements name: those with both a label and an address.
pub open spec fn named_players(
    elements: Seq<(Option<Seq<char>>, Option<Seq<char>>, Option<Seq<char>>)>,
) -> Seq<(Seq<char>, Seq<char>)>
    decreases elements.len(),
{
    if elements.len() == 0 {
        Seq::empty()
    } else {
        let before = named_players(elements.drop_last());
        match (elements.last().2, elements.last().0) {
            (Some(label), Some(address)) => before.push((label, address)),
            _ => before,
        }
    }
}

/// The players by their names and addresses.
pub open spec fn option_views(players: Seq<PlayerOption>) -> Seq<(Seq<char>, Seq<char>)> {
    players.map_values(|p: PlayerOption| p@)
}

/// The players that the elements of a page name.
pub fn players_of(elements: &Vec<SelectedElement>) -> (r: Vec<PlayerOption>)
    ensures
        option_views(r@) == named_players(element_views(elements@)),
{
    let mut players: Vec<PlayerOption> = Vec::new();
    let ghost all = element_views(elements@);
    assert(option_views(players@) =~= named_players(all.take(0)));
    for i in 0..elements.len()
        invariant
            all == element_views(elements@),
            option_views(players@) == named_players(all.take(i as int)),
    {
        assert(all[i as int] == elements@[i as int]@);
        assert(all.take(i + 1).drop_last() =~= all.take(i as int));
        match (&elements[i].label, &elements[i].attribute) {
            (Some(label), Some(address)) => {
                let ghost before = option_views(players@);
                players.push(
                    PlayerOption { server_name: label.clone(), iframe_player: address.clone() },
                );
                assert(option_views(players@) =~= before.push((label@, address@)));
            },
            _ => {},
        }
    }
    assert(all.take(all.len() as int) =~= all);
    players
}

/// The players that a page names by its `data-vs` attributes.
pub fn get_player_options(body: &str) -> (r: Vec<PlayerOption>)
    ensures
        option_views(r@) == named_players(selected(body@, "[data-vs]"@, "data-vs"@)),
{
    let elements = select_elements(body, "[data-vs]", "data-vs");
    players_of(&elements)
}

/// How the site writes the name of a title: in small letters, with dashes for spaces.
pub open spec fn site_name(movie: Seq<char>) -> Seq<char> {
    text::replaced(text::lowercase(text::trimmed(movie)), ' ', '-')
}

/// How the site writes an ASCII name holds no blank, no capital and no white space at its ends,
/// and is written in the same way again.
pub proof fn site_name_again(movie: Seq<char>)
    requires
        vstd::utf8::is_ascii_chars(movie),
    ensures
        forall|i: int|
            0 <= i < site_name(movie).len() ==> #[trigger] site_name(movie)[i] != ' '
                && !text::is_ascii_capital(site_name(movie)[i]),
        site_name(movie).len() > 0 ==> !text::white_space(site_name(movie).first())
            && !text::white_space(site_name(movie).last()),
        site_name(site_name(movie)) == site_name(movie),
{
    let name = site_name(movie);
    let trimmed = text::trimmed(movie);
    let small = text::ascii_lowercase(trimmed);
    text::trimmed_ends(movie);
    text::ascii_lowercase_kinds(trimmed);
    assert(name =~= text::replaced(small, ' ', '-'));
    assert forall|i: int| 0 <= i < name.len() implies #[trigger] name[i] != ' '
        && !text::is_ascii_capital(name[i]) && '\0' <= name[i] <= '\u{7f}' by {
        assert(!text::is_ascii_capital(small[i]));
        assert('\0' <= small[i] <= '\u{7f}');
    }
    if name.len() > 0 {
        assert('\0' <= trimmed[0] <= '\u{7f}');
        assert('\0' <= trimmed[trimmed.len() - 1] <= '\u{7f}');
        assert(small.first() == text::ascii_small(trimmed.first()));
        assert(small.last() == text::ascii_small(trimmed.last()));
    }
    assert(text::trimmed(name) == name);
    text::ascii_lowercase_again(name);
    assert(text::replaced(name, ' ', '-') =~= name);
}

/// White space around a name does not matter to how the site writes it.
pub proof fn site_name_ignores_white_space(before: Seq<char>, movie: Seq<char>, after: Seq<char>)
    requires
        text::all_white(before),
        text::all_white(after),
    ensures
        site_name(before + movie + after) == site_name(movie),
{
    text::trimmed_around(before, movie, after);
}

/// The case of the letters of an ASCII name does not matter to how the site writes it.
pub proof fn site_name_ignores_case(movie: Seq<char>, other: Seq<char>)
    requires
        vstd::utf8::is_ascii_chars(movie),
        vstd::utf8::is_ascii_chars(other),
        text::ascii_lowercase(movie) == text::ascii_lowercase(other),
    ensures
        site_name(movie) == site_name(other),
{
    text::trimmed_ends(movie);
    text::trimmed_ends(other);
    text::trimmed_lowercase(movie);
    text::trimmed_lowercase(other);
}

/// Writes the name of a title as the site does: without blanks and ASCII capitals.
pub fn normalize_movie_name(movie: &str) -> (r: String)
    ensures
        r@ == site_name(movie@),
        forall|i: int|
            0 <= i < r@.len() ==> #[trigger] r@[i] != ' ' && !text::is_ascii_capital(r@[i]),
{
    let chars = text::chars_of(movie);
    let trimmed = text::trim(&chars);
    let trimmed = text::string_of(&trimmed);
    let small = text::to_lowercase(trimmed.as_str());
    dashed(small.as_str())
}

/// Puts dashes in place of spaces.
pub fn dashed(name: &str) -> (r: String)
    ensures
        r@ == text::replaced(name@, ' ', '-'),
{
    let chars = text::chars_of(name);
    let dashed = text::replace(&chars, ' ', '-');
    text::string_of(&dashed)
}

/// The address of a title on the site, with its name as the site writes it.
pub open spec fn page_address(name: Seq<char>, data: MovieOrSeriesDataKey) -> Seq<char> {
    match data {
        MovieOrSeriesDataKey::Movie { release_year } => "https://www3.fsonline.app/film/"@ + name
            + "-"@ + text::digits(release_year as nat) + "/"@,
        MovieOrSeriesDataKey::Series(data) => "https://www3.fsonline.app/episoade/"@ + name
            + "-sezonul-"@ + text::digits(data.season as nat) + "-episodul-"@ + text::digits(
            data.episode as nat,
        ) + "/"@,
    }
}

/// Writes the address of a title on the site.
pub fn page_of(name: &str, data: MovieOrSeriesDataKey) -> (r: String)
    ensures
        r@ == page_address(name@, data),
{
    match data {
        MovieOrSeriesDataKey::Movie { release_year } => {
            let mut url = "https://www3.fsonline.app/film/".to_owned();
            url.append(name);
            url.append("-");
            text::push_decimal(&mut url, release_year as u64);
            url.append("/");
            url
        },
        MovieOrSeriesDataKey::Series(data) => {
            let mut url = "https://www3.fsonline.app/episoade/".to_owned();
            url.append(name);
            url.append("-sezonul-");
            text::push_decimal(&mut url, data.season as u64);
            url.append("-episodul-");
            text::push_decimal(&mut url, data.episode as u64);
            url.append("/");
            url
        },
    }
}

/// The address of a title on the site.
pub fn movie_page_url(key: &MovieKey) -> (r: String)
    ensures
        r@ == page_address(site_name(key.movie@), key.data),
{
    let name = normalize_movie_name(key.movie.as_str());
    page_of(name.as_str(), key.data)
}

/// Where the site is asked for the players of a title.
pub fn players_url() -> (r: String)
    ensures
        r@ == "https://www3.fsonline.app/wp-admin/admin-ajax.php"@,
{
    "https://www3.fsonline.app/wp-admin/admin-ajax.php".to_owned()
}

/// The form that asks for the players of a title.
pub fn players_form(movie_id: &str) -> (r: Vec<(String, String)>)
    ensures
        r@.len() == 2,
        r@[0].0@ == "action"@ && r@[0].1@ == "lazy_player"@,
        r@[1].0@ == "movieID"@ && r@[1].1@ == movie_id@,
{
    let mut form: Vec<(String, String)> = Vec::new();
    form.push(("action".to_owned(), "lazy_player".to_owned()));
    form.push(("movieID".to_owned(), movie_id.to_owned()));
    form
}

/// Whether a server is one that a browser cannot play.
pub open spec fn invalid_for_browsers(server_name: Seq<char>) -> bool {
    server_name == "Doodstream"@
}

/// Whether the players of a server cannot be searched for a video.
pub open spec fn invalid_for_scrapping(server_name: Seq<char>) -> bool {
    server_name == "Vidsrc"@ || server_name == "VOE"@
}

/// The players without those that a browser cannot play.
pub open spec fn playable(players: Seq<(Seq<char>, Seq<char>)>) -> Seq<(Seq<char>, Seq<char>)>
    decreases players.len(),
{
    if players.len() == 0 {
        Seq::empty()
    } else if invalid_for_browsers(players.last().0) {
        playable(players.drop_last())
    } else {
        playable(players.drop_last()).push(players.last())
    }
}

/// Leaves out the players that a browser cannot play.
pub fn playable_players(players: Vec<PlayerOption>) -> (r: Vec<PlayerOption>)
    ensures
        option_views(r@) == playable(option_views(players@)),
{
    let ghost all = option_views(players@);
    let mut kept: Vec<PlayerOption> = Vec::new();
    assert(option_views(kept@) =~= playable(all.take(0)));
    for i in 0..players.len()
        invariant
            all == option_views(players@),
            option_views(kept@) == playable(all.take(i as int)),
    {
        assert(all[i as int] == players@[i as int]@);
        assert(all.take(i + 1).drop_last() =~= all.take(i as int));
        if !text::str_eq(players[i].server_name.as_str(), "Doodstream") {
            let ghost before = option_views(kept@);
            let player = PlayerOption {
                server_name: players[i].server_name.clone(),
                iframe_player: players[i].iframe_player.clone(),
            };
            kept.push(player);
            assert(option_views(kept@) =~= before.push(all[i as int]));
        }
    }
    assert(all.take(all.len() as int) =~= all);
    kept
}

/// Whether the player of a server is searched for a video.
pub fn can_scrape(server_name: &str) -> (r: bool)
    ensures
        r == !invalid_for_scrapping(server_name@),
{
    !text::str_eq(server_name, "Vidsrc") && !text::str_eq(server_name, "VOE")
}

/// A player with what was found on it; `scraped` is `None` where the search failed. On a
/// server that is not searched nothing is found.
pub fn player_data(player: PlayerOption, scraped: Option<VideoAndSubtitles>) -> (r: PlayerData)
    ensures
        r.server_name@ == player.server_name@,
        r.iframe_player@ == player.iframe_player@,
        r.data@ == kept_data(player.server_name@, scraped),
        player.server_name@ != "Vidsrc"@ && player.server_name@ != "VOE"@ ==> (scraped matches Some(
            found,
        ) ==> r.data == found),
{
    let data = if can_scrape(player.server_name.as_str()) {
        match scraped {
            Some(data) => data,
            None => {
                let nothing = VideoAndSubtitles::default();
                assert(subtitle_views(nothing.subtitles@) =~= Seq::empty());
                nothing
            },
        }
    } else {
        let nothing = VideoAndSubtitles::default();
        assert(subtitle_views(nothing.subtitles@) =~= Seq::empty());
        nothing
    };
    PlayerData { server_name: player.server_name, iframe_player: player.iframe_player, data }
}

/// The players of a title, and its page on the site.
#[derive(Debug, Clone)]
pub struct FoundPlayers {
    pub players: Vec<PlayerData>,
    pub fsonline_url: String,
}

/// The players to offer of those that a reply of the site names.
pub fn players_to_offer(reply: &str) -> (r: Vec<PlayerOption>)
    ensures
        option_views(r@) == playable(named_players(selected(reply@, "[data-vs]"@, "data-vs"@))),
{
    playable_players(get_player_options(reply))
}

/// What is kept of a player: what was found on it, unless its server is not searched or the
/// search failed.
pub open spec fn kept_data(server_name: Seq<char>, scraped: Option<VideoAndSubtitles>) -> (
    Option<Seq<char>>,
    Seq<(Seq<char>, Language)>,
) {
    match scraped {
        Some(data) => if invalid_for_scrapping(server_name) {
            (None, Seq::empty())
        } else {
            data@
        },
        None => (None, Seq::empty()),
    }
}

/// Puts together the players of a title and what was found on each; `scraped` is in the
/// order of the players, with `None` where nothing was searched or the search failed.
pub fn found_players(
    players: Vec<PlayerOption>,
    scraped: Vec<Option<VideoAndSubtitles>>,
    fsonline_url: String,
) -> (r: FoundPlayers)
    requires
        scraped@.len() == players@.len(),
    ensures
        r.fsonline_url@ == fsonline_url@,
        r.players@.len() == players@.len(),
        forall|i: int|
            0 <= i < r.players@.len() ==> (#[trigger] r.players@[i]).server_name@
                == players@[i].server_name@ && r.players@[i].iframe_player@
                == players@[i].iframe_player@ && r.players@[i].data@ == kept_data(
                players@[i].server_name@,
                scraped@[i],
            ),
        forall|i: int|
            0 <= i < r.players@.len() && players@[i].server_name@ != "Vidsrc"@
                && players@[i].server_name@ != "VOE"@ && scraped@[i] is Some ==> (
            #[trigger] r.players@[i]).data == scraped@[i]->0,
{
    let ghost all = players@;
    let ghost data = scraped@;
    let mut from = players;
    let mut results = scraped;
    let mut made: Vec<PlayerData> = Vec::new();
    assert(from@ =~= all.skip(0));
    assert(results@ =~= data.skip(0));
    while from.len() > 0
        invariant
            made@.len() + from@.len() == all.len(),
            all.len() == data.len(),
            from@ == all.skip(made@.len() as int),
            results@ == data.skip(made@.len() as int),
            forall|i: int|
                0 <= i < made@.len() ==> (#[trigger] made@[i]).server_name@ == all[i].server_name@
                    && made@[i].iframe_player@ == all[i].iframe_player@ && made@[i].data@
                    == kept_data(all[i].server_name@, data[i]),
            forall|i: int|
                0 <= i < made@.len() && all[i].server_name@ != "Vidsrc"@ && all[i].server_name@
                    != "VOE"@ && data[i] is Some ==> (#[trigger] made@[i]).data == data[i]->0,
        decreases from@.len(),
    {
        let ghost i = made@.len() as int;
        let player = from.remove(0);
        let found = results.remove(0);
        assert(player == all[i] && found == data[i]);
        made.push(player_data(player, found));
        assert(from@ =~= all.skip(i + 1));
        assert(results@ =~= data.skip(i + 1));
    }
    FoundPlayers { players: made, fsonline_url }
}

/// On a server that is searched, where the search went well, a player keeps the video and all the
/// subtitles that were found, in order and as they are; otherwise it keeps nothing.
pub proof fn search_results_are_kept(server_name: Seq<char>, scraped: Option<VideoAndSubtitles>)
    ensures
        ({
            let kept = kept_data(server_name, scraped);
            if scraped is Some && server_name != "Vidsrc"@ && server_name != "VOE"@ {
                let found = scraped->0;
                &&& kept.0 is Some <==> found.video is Some
                &&& found.video matches Some(video) ==> kept.0 == Some(video@)
                &&& kept.1.len() == found.subtitles@.len()
                &&& forall|i: int|
                    0 <= i < kept.1.len() ==> (#[trigger] kept.1[i]).0 == found.subtitles@[i].url@
                        && kept.1[i].1 == found.subtitles@[i].lang
            } else {
                kept.0 is None && kept.1.len() == 0
            }
        }),
{
}

/// The digest of an address is made of the digits from `0` to `9` and the letters from `a` to
/// `f`.
pub proof fn digest_holds_no(url: Seq<char>, c: char)
    requires
        !text::is_digit(c),
        c < 'a' || c > 'f',
    ensures
        !url_digest(url).contains(c),
{
    let bytes = md5_digest(vstd::utf8::encode_utf8(url));
    hex_is_hex(bytes);
    if hex(bytes).contains(c) {
        let i = choose|i: int| 0 <= i < hex(bytes).len() && hex(bytes)[i] == c;
        assert(text::is_digit(hex(bytes)[i]) || ('a' <= hex(bytes)[i] && hex(bytes)[i] <= 'f'));
    }
}

proof fn hex_is_hex(bytes: Seq<u8>)
    ensures
        forall|i: int|
            0 <= i < hex(bytes).len() ==> text::is_digit(#[trigger] hex(bytes)[i]) || ('a' <= hex(
                bytes,
            )[i] && hex(bytes)[i] <= 'f'),
        hex(bytes).len() == 2 * bytes.len(),
    decreases bytes.len(),
{
    if bytes.len() > 0 {
        hex_is_hex(bytes.drop_last());
        let before = hex(bytes.drop_last());
        assert forall|i: int| 0 <= i < hex(bytes).len() implies text::is_digit(
            #[trigger] hex(bytes)[i],
        ) || ('a' <= hex(bytes)[i] && hex(bytes)[i] <= 'f') by {
            if i < before.len() {
                assert(hex(bytes)[i] == before[i]);
            }
        }
    }
}

/// Written in hexadecimal, different bytes are different texts, of two characters for each byte.
pub proof fn hex_tells_bytes_apart(a: Seq<u8>, b: Seq<u8>)
    requires
        hex(a) == hex(b),
    ensures
        a == b,
        hex(a).len() == 2 * a.len(),
    decreases a.len(),
{
    hex_is_hex(a);
    hex_is_hex(b);
    if a.len() > 0 {
        let n = hex(a).len();
        let x = a.last();
        let y = b.last();
        assert(hex(a)[n - 2] == hex_char(x as nat / 16) && hex(b)[n - 2] == hex_char(
            y as nat / 16,
        ));
        assert(hex(a)[n - 1] == hex_char(x as nat % 16) && hex(b)[n - 1] == hex_char(
            y as nat % 16,
        ));
        assert(x == y);
        assert(hex(a).take(n - 2) =~= hex(a.drop_last()));
        assert(hex(b).take(n - 2) =~= hex(b.drop_last()));
        hex_tells_bytes_apart(a.drop_last(), b.drop_last());
        assert(a =~= a.drop_last().push(x));
        assert(b =~= b.drop_last().push(y));
    } else {
        assert(a =~= b);
    }
}

/// The players that are named are those of the elements with both a label and an address, one
/// after the other.
pub proof fn all_named_players_are_found(
    elements: Seq<(Option<Seq<char>>, Option<Seq<char>>, Option<Seq<char>>)>,
)
    ensures
        named_players(elements) == elements.filter(
            |e: (Option<Seq<char>>, Option<Seq<char>>, Option<Seq<char>>)|
                e.2 is Some && e.0 is Some,
        ).map_values(
            |e: (Option<Seq<char>>, Option<Seq<char>>, Option<Seq<char>>)| (e.2->0, e.0->0),
        ),
    decreases elements.len(),
{
    reveal(Seq::filter);
    let named = |e: (Option<Seq<char>>, Option<Seq<char>>, Option<Seq<char>>)|
        e.2 is Some && e.0 is Some;
    let pair = |e: (Option<Seq<char>>, Option<Seq<char>>, Option<Seq<char>>)| (e.2->0, e.0->0);
    if elements.len() > 0 {
        all_named_players_are_found(elements.drop_last());
    }
    assert(named_players(elements) =~= elements.filter(named).map_values(pair));
}

/// Every player is offered but those of the one server that a browser cannot play, in the same
/// order.
pub proof fn only_unplayable_players_are_left_out(players: Seq<(Seq<char>, Seq<char>)>)
    ensures
        playable(players) == players.filter(
            |p: (Seq<char>, Seq<char>)| p.0 != "Doodstream"@,
        ),
    decreases players.len(),
{
    reveal(Seq::filter);
    if players.len() > 0 {
        only_unplayable_players_are_left_out(players.drop_last());
    }
    assert(playable(players) =~= players.filter(|p: (Seq<char>, Seq<char>)| p.0 != "Doodstream"@));
}

/// A page is about a title exactly if some element names one and all that name one name the
/// same.
pub proof fn one_title_on_a_page(
    r: Result<String, MovieIdError>,
    values: Seq<Option<Seq<char>>>,
)
    requires
        is_movie_id(r, present(values)),
    ensures
        r matches Ok(id) ==> (exists|i: int|
            0 <= i < values.len() && #[trigger] values[i] == Some(id@)) && (forall|i: int|
            0 <= i < values.len() && (#[trigger] values[i]) is Some ==> values[i] == Some(id@)),
        r is Err ==> !exists|id: Seq<char>|
            {
                &&& exists|i: int| 0 <= i < values.len() && #[trigger] values[i] == Some(id)
                &&& #[trigger] only_names(values, id)
            },
        r matches Err(e) ==> (e.count == 0 <==> forall|i: int|
            0 <= i < values.len() ==> (#[trigger] values[i]) is None),
{
    match r {
        Ok(id) => {
            assert(present(values).contains(id@));
            assert forall|i: int|
                0 <= i < values.len() && (#[trigger] values[i]) is Some implies values[i] == Some(
                id@,
            ) by {
                assert(present(values).contains(values[i]->0));
            }
        },
        Err(e) => {
            assert forall|id: Seq<char>|
                (exists|i: int| 0 <= i < values.len() && #[trigger] values[i] == Some(id))
                    && #[trigger] only_names(values, id) implies false by {
                assert(present(values) =~= set![id]);
                assert(set![id].len() == 1);
            }
            if e.count == 0 {
                assert forall|i: int| 0 <= i < values.len() implies (#[trigger] values[i]) is None by {
                    if values[i] is Some {
                        assert(present(values).contains(values[i]->0));
                        vstd::set_lib::lemma_set_empty_equivalency_len(present(values));
                    }
                }
            } else if forall|i: int| 0 <= i < values.len() ==> (#[trigger] values[i]) is None {
                assert(present(values) =~= Set::empty());
            }
        },
    }
}

/// Whether no value but this one is there.
pub open spec fn only_names(values: Seq<Option<Seq<char>>>, id: Seq<char>) -> bool {
    forall|i: int| 0 <= i < values.len() && (#[trigger] values[i]) is Some ==> values[i] == Some(id)
}

/// The language of a subtitle is told by how its file name ends, whatever its directory.
pub proof fn languages_by_file_names(directory: Seq<char>, name: Seq<char>)
    requires
        !name.contains('/'),
    ensures
        subtitle_language(directory.push('/') + name) == subtitle_language(name),
        subtitle_language(name) == Some(Language::Romania) <==> "romanian.vtt"@.is_suffix_of(
            text::lowercase(name),
        ),
        "english.vtt"@.is_suffix_of(text::lowercase(name)) && !"romanian.vtt"@.is_suffix_of(
            text::lowercase(name),
        ) <==> subtitle_language(name) == Some(Language::English),
        subtitle_language(name) is None ==> exists|i: int|
            0 <= i < unwanted_names().len() && (#[trigger] unwanted_names()[i]).is_suffix_of(
                text::lowercase(name),
            ),
        (exists|i: int|
            0 <= i < unwanted_names().len() && (#[trigger] unwanted_names()[i]).is_suffix_of(
                text::lowercase(name),
            )) ==> subtitle_language(name) != Some(Language::Unrecognized),
        unwanted_names().len() == 16,
{
    text::split_on_piece(directory, name, '/');
    text::split_on_whole(name, '/');
}

/// The address of a title on the site tells its numbers: the year of a movie, and the season and
/// the episode of a series, stand between dashes before the final slash, behind the name.
pub proof fn page_address_tells_the_title(name: Seq<char>, data: MovieOrSeriesDataKey)
    ensures
        ({
            let address = page_address(name, data);
            let parts = text::split_on(address.drop_last(), '-');
            &&& address.last() == '/'
            &&& match data {
                MovieOrSeriesDataKey::Movie { release_year } => {
                    let start = "https://www3.fsonline.app/film/"@ + name;
                    &&& start.is_prefix_of(address)
                    &&& parts == text::split_on(start, '-').push(parts.last())
                    &&& text::parsed_decimal(parts.last(), u16::MAX as nat) == Some(
                        release_year as nat,
                    )
                },
                MovieOrSeriesDataKey::Series(data) => {
                    let start = "https://www3.fsonline.app/episoade/"@ + name;
                    let n = text::split_on(start, '-').len() as int;
                    &&& start.is_prefix_of(address)
                    &&& parts.len() == n + 4
                    &&& parts.take(n) == text::split_on(start, '-')
                    &&& parts[n] == "sezonul"@
                    &&& text::parsed_decimal(parts[n + 1], u16::MAX as nat) == Some(
                        data.season as nat,
                    )
                    &&& parts[n + 2] == "episodul"@
                    &&& text::parsed_decimal(parts[n + 3], u16::MAX as nat) == Some(
                        data.episode as nat,
                    )
                },
            }
        }),
{
    reveal_strlit("-");
    reveal_strlit("/");
    reveal_strlit("-sezonul-");
    reveal_strlit("-episodul-");
    reveal_strlit("sezonul");
    reveal_strlit("episodul");
    let address = page_address(name, data);
    match data {
        MovieOrSeriesDataKey::Movie { release_year } => {
            let start = "https://www3.fsonline.app/film/"@ + name;
            let year = text::digits(release_year as nat);
            text::padded_digits_parse(release_year as nat, 0, u16::MAX as nat);
            text::digits_hold_no(year, '-');
            assert(address.drop_last() =~= start.push('-') + year);
            assert(address.subrange(0, start.len() as int) =~= start);
            text::split_on_piece(start, year, '-');
        },
        MovieOrSeriesDataKey::Series(data) => {
            let start = "https://www3.fsonline.app/episoade/"@ + name;
            let season = text::digits(data.season as nat);
            let episode = text::digits(data.episode as nat);
            text::padded_digits_parse(data.season as nat, 0, u16::MAX as nat);
            text::padded_digits_parse(data.episode as nat, 0, u16::MAX as nat);
            text::digits_hold_no(season, '-');
            text::digits_hold_no(episode, '-');
            let one = start.push('-') + "sezonul"@;
            let two = one.push('-') + season;
            let three = two.push('-') + "episodul"@;
            assert(address.drop_last() =~= three.push('-') + episode);
            assert(address.subrange(0, start.len() as int) =~= start);
            assert(!"sezonul"@.contains('-')) by {
                assert(forall|i: int| 0 <= i < 7 ==> "sezonul"@[i] != '-');
            }
            assert(!"episodul"@.contains('-')) by {
                assert(forall|i: int| 0 <= i < 8 ==> "episodul"@[i] != '-');
            }
            text::split_on_piece(start, "sezonul"@, '-');
            text::split_on_piece(one, season, '-');
            text::split_on_piece(two, "episodul"@, '-');
            text::split_on_piece(three, episode, '-');
            let n = text::split_on(start, '-').len() as int;
            assert(text::split_on(address.drop_last(), '-').take(n) =~= text::split_on(
                start,
                '-',
            ));
        },
    }
}

/// How the site writes an ASCII name keeps every character of it but the white space around it: a
/// blank becomes a dash, a capital its small letter, and nothing else changes.
pub proof fn site_name_keeps_characters(movie: Seq<char>, i: int)
    requires
        vstd::utf8::is_ascii_chars(movie),
    ensures
        site_name(movie).len() == text::trimmed(movie).len(),
        0 <= i < site_name(movie).len() ==> site_name(movie)[i] == ({
            let c = text::trimmed(movie)[i];
            if c == ' ' {
                '-'
            } else if 'A' <= c && c <= 'Z' {
                (c as u32 + 32) as char
            } else {
                c
            }
        }),
{
    text::trimmed_ends(movie);
}

proof fn ends_otherwise(stem: Seq<char>, end: Seq<char>, other: Seq<char>, k: int)
    requires
        0 < k <= end.len(),
        k <= other.len(),
        end[end.len() - k] != other[other.len() - k],
    ensures
        !other.is_suffix_of(stem + end),
{
    let name = stem + end;
    if other.is_suffix_of(name) {
        let tail = name.subrange(name.len() - other.len(), name.len() as int);
        assert(tail == other);
        assert(tail[other.len() - k] == name[name.len() - k]);
        assert(name[name.len() - k] == end[end.len() - k]);
    }
}

/// A subtitle is not offered if its file name ends in the name of one of these languages.
pub proof fn unwanted_languages_are_not_offered(stem: Seq<char>)
    ensures
        named_language(stem + "finnish.vtt"@) is None,
        named_language(stem + "swedish.vtt"@) is None,
        named_language(stem + "norwegian.vtt"@) is None,
        named_language(stem + "french.vtt"@) is None,
        named_language(stem + "indonesian.vtt"@) is None,
        named_language(stem + "hungarian.vtt"@) is None,
        named_language(stem + "portuguese.vtt"@) is None,
        named_language(stem + "czech.vtt"@) is None,
        named_language(stem + "german.vtt"@) is None,
        named_language(stem + "polish.vtt"@) is None,
        named_language(stem + "greek.vtt"@) is None,
        named_language(stem + "italian.vtt"@) is None,
        named_language(stem + "danish.vtt"@) is None,
        named_language(stem + "turkish.vtt"@) is None,
        named_language(stem + "spanish.vtt"@) is None,
        named_language(stem + "arabic.vtt"@) is None,
        named_language(stem + "romanian.vtt"@) == Some(Language::Romania),
        named_language(stem + "english.vtt"@) == Some(Language::English),
{
    reveal_strlit("romanian.vtt");
    reveal_strlit("english.vtt");
    reveal_strlit("finnish.vtt");
    reveal_strlit("swedish.vtt");
    reveal_strlit("norwegian.vtt");
    reveal_strlit("french.vtt");
    reveal_strlit("indonesian.vtt");
    reveal_strlit("hungarian.vtt");
    reveal_strlit("portuguese.vtt");
    reveal_strlit("czech.vtt");
    reveal_strlit("german.vtt");
    reveal_strlit("polish.vtt");
    reveal_strlit("greek.vtt");
    reveal_strlit("italian.vtt");
    reveal_strlit("danish.vtt");
    reveal_strlit("turkish.vtt");
    reveal_strlit("spanish.vtt");
    reveal_strlit("arabic.vtt");
    let ron = "romanian.vtt"@;
    let eng = "english.vtt"@;
    ends_otherwise(stem, eng, ron, 5);
    unwanted(stem, "finnish.vtt"@, 0, 5, 8);
    unwanted(stem, "swedish.vtt"@, 1, 5, 8);
    unwanted(stem, "norwegian.vtt"@, 2, 8, 5);
    unwanted(stem, "french.vtt"@, 3, 5, 6);
    unwanted(stem, "indonesian.vtt"@, 4, 8, 5);
    unwanted(stem, "hungarian.vtt"@, 5, 8, 5);
    unwanted(stem, "portuguese.vtt"@, 6, 5, 5);
    unwanted(stem, "czech.vtt"@, 7, 5, 6);
    unwanted(stem, "german.vtt"@, 8, 7, 5);
    unwanted(stem, "polish.vtt"@, 9, 5, 9);
    unwanted(stem, "greek.vtt"@, 10, 5, 5);
    unwanted(stem, "italian.vtt"@, 11, 8, 5);
    unwanted(stem, "danish.vtt"@, 12, 5, 8);
    unwanted(stem, "turkish.vtt"@, 13, 5, 8);
    unwanted(stem, "spanish.vtt"@, 14, 5, 8);
    unwanted(stem, "arabic.vtt"@, 15, 5, 5);
    ends_in_itself(stem, ron);
    ends_in_itself(stem, eng);
}

proof fn ends_in_itself(stem: Seq<char>, end: Seq<char>)
    ensures
        end.is_suffix_of(stem + end),
{
    let name = stem + end;
    assert(name.subrange(name.len() - end.len(), name.len() as int) =~= end);
}

proof fn unwanted(stem: Seq<char>, end: Seq<char>, i: int, not_romanian: int, not_english: int)
    requires
        0 <= i < unwanted_names().len(),
        unwanted_names()[i] == end,
        0 < not_romanian <= end.len(),
        0 < not_english <= end.len(),
        not_romanian <= "romanian.vtt"@.len(),
        not_english <= "english.vtt"@.len(),
        end[end.len() - not_romanian] != "romanian.vtt"@["romanian.vtt"@.len() - not_romanian],
        end[end.len() - not_english] != "english.vtt"@["english.vtt"@.len() - not_english],
    ensures
        named_language(stem + end) is None,
{
    ends_otherwise(stem, end, "romanian.vtt"@, not_romanian);
    ends_otherwise(stem, end, "english.vtt"@, not_english);
    ends_in_itself(stem, end);
    assert(unwanted_names()[i].is_suffix_of(stem + end));
}

} // verus!
