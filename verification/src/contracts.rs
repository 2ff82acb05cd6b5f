//! The values that requests, players and stored records speak of.

use crate::fsonline::{SubtitleFsonline, VideoAndSubtitles};
use crate::text;
use vstd::prelude::*;

verus! {

/// The language of a subtitle.
#[derive(Debug, Clone, Copy, PartialEq, Eq, Structural)]
pub enum Language {
    Romania,
    English,
    Unrecognized,
}

/// The code of a language, as it is sent and kept.
pub open spec fn language_code(language: Language) -> Seq<char> {
    match language {
        Language::Romania => "ron"@,
        Language::English => "eng"@,
        Language::Unrecognized => "_unrecognized"@,
    }
}

impl Language {
    /// Writes the code of the language.
    pub fn to_string(&self) -> (r: String)
        ensures
            r@ == language_code(*self),
    {
        match self {
            Language::Romania => "ron".to_owned(),
            Language::English => "eng".to_owned(),
            Language::Unrecognized => "_unrecognized".to_owned(),
        }
    }
}

/// How a server is reached: with or without encryption.
pub open spec fn protocol_name(uses_https: bool) -> Seq<char> {
    if uses_https {
        "https"@
    } else {
        "http"@
    }
}

/// The beginning of every address of this server's interface.
pub open spec fn api_base(uses_https: bool, host: Seq<char>) -> Seq<char> {
    protocol_name(uses_https) + "://"@ + host + "/v1/api/"@
}

/// Writes the beginning of every address of this server's interface.
pub fn api_url(uses_https: bool, host: &str) -> (r: String)
    ensures
        r@ == api_base(uses_https, host@),
{
    let mut out = if uses_https {
        "https".to_owned()
    } else {
        "http".to_owned()
    };
    out.append("://");
    out.append(host);
    out.append("/v1/api/");
    out
}

/// A subtitle that is offered. Several of one language are told apart by the id.
#[derive(Debug, Clone)]
pub struct Subtitle {
    pub id: String,
    pub url: String,
    pub lang: Language,
}

/// Where this server offers a subtitle: by the title and the digest of the place where the
/// subtitle really is.
pub open spec fn subtitle_address(
    uses_https: bool,
    host: Seq<char>,
    subtitle: (Seq<char>, Language),
    imdb: Imdb,
) -> Seq<char> {
    api_base(uses_https, host) + "subtitles/"@ + imdb_text(imdb) + "/"@
        + crate::fsonline::url_digest(subtitle.0) + "/subtitle.vtt"@
}

/// The id of a subtitle: the server that it was found on, and where it really is.
pub open spec fn subtitle_id(server_name: Seq<char>, url: Seq<char>) -> Seq<char> {
    "FSonline "@ + server_name + " "@ + url
}

/// Whether `offered` is what is sent of a subtitle.
pub open spec fn offers_subtitle(
    offered: Subtitle,
    uses_https: bool,
    host: Seq<char>,
    subtitle: (Seq<char>, Language),
    imdb: Imdb,
    server_name: Seq<char>,
) -> bool {
    &&& offered.id@ == subtitle_id(server_name, subtitle.0)
    &&& offered.url@ == subtitle_address(uses_https, host, subtitle, imdb)
    &&& offered.lang == subtitle.1
}

impl Subtitle {
    /// Offers a subtitle of a title that was found on `server_name`.
    pub fn new(
        uses_https: bool,
        host: &str,
        fsonline_subtitle: &SubtitleFsonline,
        imdb: Imdb,
        server_name: &str,
    ) -> (r: Self)
        ensures
            offers_subtitle(r, uses_https, host@, fsonline_subtitle@, imdb, server_name@),
    {
        let mut id = "FSonline ".to_owned();
        id.append(server_name);
        id.append(" ");
        id.append(fsonline_subtitle.url.as_str());
        let mut url = api_url(uses_https, host);
        url.append("subtitles/");
        let title = imdb.to_string();
        url.append(title.as_str());
        url.append("/");
        let digest = fsonline_subtitle.md5();
        url.append(digest.as_str());
        url.append("/subtitle.vtt");
        Self { id, url, lang: fsonline_subtitle.lang }
    }
}

/// Two subtitles of one server have different ids, and so has one subtitle on two servers. Where
/// the addresses hold no blank, the id tells both the server and the address.
pub proof fn subtitle_ids_differ(
    server_name: Seq<char>,
    url: Seq<char>,
    other_server: Seq<char>,
    other_url: Seq<char>,
)
    requires
        server_name != other_server || url != other_url,
        server_name == other_server || url == other_url || (!url.contains(' ')
            && !other_url.contains(' ')),
    ensures
        subtitle_id(server_name, url) != subtitle_id(other_server, other_url),
{
    let id = subtitle_id(server_name, url);
    let other = subtitle_id(other_server, other_url);
    if id == other {
        reveal_strlit("FSonline ");
        reveal_strlit(" ");
        let front = "FSonline "@ + server_name;
        let other_front = "FSonline "@ + other_server;
        assert(id =~= front.push(' ') + url);
        assert(other =~= other_front.push(' ') + other_url);
        if server_name != other_server && url != other_url {
            text::split_on_append(front.push(' '), url, ' ');
            text::split_on_append(other_front.push(' '), other_url, ' ');
            text::split_on_separator(front, ' ');
            text::split_on_separator(other_front, ' ');
            assert(text::last_piece(id, ' ') =~= url);
            assert(text::last_piece(other, ' ') =~= other_url);
        }
        if server_name == other_server {
            assert(id.skip(front.len() as int + 1) =~= url);
            assert(other.skip(front.len() as int + 1) =~= other_url);
        } else {
            assert(server_name.len() == other_server.len());
            assert(id.subrange(9, front.len() as int) =~= server_name);
            assert(other.subrange(9, front.len() as int) =~= other_server);
        }
    }
}

/// A player that the page of a title names.
#[derive(Debug, Clone)]
pub struct PlayerOption {
    pub server_name: String,
    pub iframe_player: String,
}

impl View for PlayerOption {
    type V = (Seq<char>, Seq<char>);

    /// The server's name and the address of the player.
    open spec fn view(&self) -> (Seq<char>, Seq<char>) {
        (self.server_name@, self.iframe_player@)
    }
}

/// A player and what was found on it.
#[derive(Debug, Clone)]
pub struct PlayerData {
    pub server_name: String,
    pub iframe_player: String,
    pub data: VideoAndSubtitles,
}

/// A season and an episode of a series.
#[derive(Debug, Clone, Copy, Hash, PartialEq, Eq, Structural)]
pub struct SeriesData {
    pub season: u16,
    pub episode: u16,
}

/// The number that holds a season in its upper half and an episode in its lower half.
pub open spec fn series_code(data: SeriesData) -> nat {
    (data.season * 0x1_0000 + data.episode) as nat
}

/// The season and episode that a number stands for; zero stands for none.
pub open spec fn series_of_code(code: nat) -> Option<SeriesData> {
    if code == 0 {
        None
    } else {
        Some(
            SeriesData {
                season: (code / 0x1_0000) as u16,
                episode: (code % 0x1_0000) as u16,
            },
        )
    }
}

impl SeriesData {
    /// Packs the season and the episode into one number.
    pub fn as_u32(&self) -> (r: u32)
        ensures
            r == series_code(*self),
    {
        let season: u32 = self.season as u32;
        let episode: u32 = self.episode as u32;
        assert((season << 16) | episode == season * 0x1_0000 + episode) by (bit_vector)
            requires
                season <= 0xffff,
                episode <= 0xffff,
        ;
        (season << 16) | episode
    }

    /// Unpacks what [`SeriesData::as_u32`] packed; zero is no episode.
    pub fn from_u32(value: u32) -> (r: Option<Self>)
        ensures
            r == series_of_code(value as nat),
    {
        if value == 0 {
            return None;
        }
        assert(value as u16 == value % 0x1_0000) by (bit_vector);
        assert((value >> 16) as u16 == value / 0x1_0000) by (bit_vector);
        Some(
            Self {
                episode: #[verifier::truncate]
                (value as u16),
                season: (value >> 16) as u16,
            },
        )
    }
}

/// What tells titles of one name apart.
#[derive(Debug, Clone, Copy, Hash, PartialEq, Eq, Structural)]
pub enum MovieOrSeriesDataKey {
    Movie { release_year: u16 },
    Series(SeriesData),
}

/// A title by its name.
#[derive(Debug, Clone, Hash, PartialEq, Eq)]
pub struct MovieKey {
    pub movie: String,
    pub data: MovieOrSeriesDataKey,
}

/// How a title is written by its name.
pub open spec fn movie_key_text(key: MovieKey) -> Seq<char> {
    match key.data {
        MovieOrSeriesDataKey::Movie { release_year } => "movie "@ + key.movie@ + ":"@
            + text::digits(release_year as nat),
        MovieOrSeriesDataKey::Series(data) => "series "@ + key.movie@ + ":"@ + text::digits(
            data.season as nat,
        ) + ":"@ + text::digits(data.episode as nat),
    }
}

impl MovieKey {
    /// Writes the title.
    pub fn to_string(&self) -> (r: String)
        ensures
            r@ == movie_key_text(*self),
    {
        match self.data {
            MovieOrSeriesDataKey::Movie { release_year } => {
                let mut out = "movie ".to_owned();
                out.append(self.movie.as_str());
                out.append(":");
                text::push_decimal(&mut out, release_year as u64);
                out
            },
            MovieOrSeriesDataKey::Series(data) => {
                let mut out = "series ".to_owned();
                out.append(self.movie.as_str());
                out.append(":");
                text::push_decimal(&mut out, data.season as u64);
                out.append(":");
                text::push_decimal(&mut out, data.episode as u64);
                out
            },
        }
    }
}

/// Which kinds of streams are offered.
#[derive(Debug, Clone, Copy, PartialEq, Eq, Structural)]
pub struct OptionsBytes {
    pub bits: u8,
}

/// Offer to play through this server.
pub const LOCAL_PLAYER: u8 = 1;

/// Offer to play from where the video was found.
pub const SHOW_ORIGINAL_PLAYER: u8 = 2;

/// Offer to open the players in a browser.
pub const BROWSER_PLAYERS: u8 = 4;

/// Offer to open the page of the title.
pub const FSONLINE_LINK: u8 = 8;

/// Why a number does not say which kinds of streams are offered.
#[derive(Debug, Clone, Copy, PartialEq, Eq, Structural)]
pub enum InvalidOptions {
    /// The number has bits without a meaning.
    UnknownFlags,
    /// Nothing would be offered.
    Empty,
}

impl InvalidOptions {
    /// The message for the number that was refused.
    pub fn message(&self) -> (r: String)
        ensures
            r@ == match self {
                InvalidOptions::UnknownFlags => "Invalid flags were set"@,
                InvalidOptions::Empty => "The options were 0"@,
            },
    {
        match self {
            InvalidOptions::UnknownFlags => "Invalid flags were set".to_owned(),
            InvalidOptions::Empty => "The options were 0".to_owned(),
        }
    }
}

/// Whether every bit of `flag` is set.
pub open spec fn flag_set(bits: u8, flag: u8) -> bool {
    bits & flag == flag
}

/// What a number, or none, asks to be offered.
pub open spec fn options_of(flags: Option<u8>) -> Result<OptionsBytes, InvalidOptions> {
    match flags {
        None => Ok(OptionsBytes { bits: LOCAL_PLAYER }),
        Some(bits) => if bits >= 16 {
            Err(InvalidOptions::UnknownFlags)
        } else if bits == 0 {
            Err(InvalidOptions::Empty)
        } else {
            Ok(OptionsBytes { bits })
        },
    }
}

impl Default for OptionsBytes {
    fn default() -> (r: Self)
        ensures
            r.bits == LOCAL_PLAYER,
    {
        Self { bits: LOCAL_PLAYER }
    }
}

impl OptionsBytes {
    /// Reads which kinds of streams are offered; without a number, playing through this
    /// server.
    pub fn from_flags(flags: Option<u8>) -> (r: Result<Self, InvalidOptions>)
        ensures
            r == options_of(flags),
    {
        match flags {
            None => Ok(Self { bits: LOCAL_PLAYER }),
            Some(bits) => {
                if bits >= 16 {
                    Err(InvalidOptions::UnknownFlags)
                } else if bits == 0 {
                    Err(InvalidOptions::Empty)
                } else {
                    Ok(Self { bits })
                }
            },
        }
    }

    /// Whether a kind of stream is offered, or each of several kinds.
    pub fn contains(&self, flag: u8) -> (r: bool)
        ensures
            r == flag_set(self.bits, flag),
            flag == LOCAL_PLAYER || flag == SHOW_ORIGINAL_PLAYER || flag == BROWSER_PLAYERS || flag
                == FSONLINE_LINK ==> r == ((self.bits / flag) % 2 == 1),
    {
        let bits: u8 = self.bits;
        assert(flag == 1 || flag == 2 || flag == 4 || flag == 8 ==> ((bits & flag == flag) == ((bits
            / flag) % 2 == 1))) by (bit_vector);
        bits & flag == flag
    }
}

/// A title by its IMDb number, and which episode of it where it is a series.
#[derive(Debug, Clone, Copy, Hash, PartialEq, Eq, Structural)]
pub struct Imdb {
    pub imdb_id: u32,
    pub series_data: Option<SeriesData>,
}

/// The number that holds the title in its upper half and the episode in its lower half.
pub open spec fn imdb_code(imdb: Imdb) -> nat {
    let low: nat = match imdb.series_data {
        Some(data) => series_code(data),
        None => 0,
    };
    (imdb.imdb_id * 0x1_0000_0000 + low) as nat
}

/// The title that a number stands for.
pub open spec fn imdb_of_code(code: nat) -> Imdb {
    Imdb {
        imdb_id: (code / 0x1_0000_0000) as u32,
        series_data: series_of_code(code % 0x1_0000_0000),
    }
}

/// How a title is written: `tt`, the number in at least seven digits, and for an
/// episode a colon and the season, a colon and the episode.
pub open spec fn imdb_text(imdb: Imdb) -> Seq<char> {
    let title = "tt"@ + text::padded_digits(imdb.imdb_id as nat, 7);
    match imdb.series_data {
        Some(data) => title + ":"@ + text::digits(data.season as nat) + ":"@ + text::digits(
            data.episode as nat,
        ),
        None => title,
    }
}

/// What stands between the leading `tt` and an optional final `.json`.
pub open spec fn imdb_name(s: Seq<char>) -> Seq<char> {
    let name = s.skip("tt"@.len() as int);
    if ".json"@.is_suffix_of(name) {
        name.take(name.len() - ".json"@.len())
    } else {
        name
    }
}

/// The title that a text is read as.
pub open spec fn parsed_imdb(s: Seq<char>) -> Option<Imdb> {
    let items = text::split_on(imdb_name(s), ':');
    let id = text::parsed_decimal(items[0], u32::MAX as nat);
    if !"tt"@.is_prefix_of(s) || id is None {
        None
    } else if items.len() == 1 {
        Some(Imdb { imdb_id: id->0 as u32, series_data: None })
    } else {
        let season = text::parsed_decimal(items[1], u16::MAX as nat);
        let episode = text::parsed_decimal(items[2], u16::MAX as nat);
        if items.len() == 3 && season is Some && episode is Some {
            Some(
                Imdb {
                    imdb_id: id->0 as u32,
                    series_data: Some(
                        SeriesData { season: season->0 as u16, episode: episode->0 as u16 },
                    ),
                },
            )
        } else {
            None
        }
    }
}

/// The text that could not be read as a title.
#[derive(Debug)]
pub struct InvalidImdbName {
    pub name: String,
}

impl InvalidImdbName {
    /// The message for the text that was refused.
    pub fn message(&self) -> (r: String)
        ensures
            r@ == "Invalid imdb name received: "@ + self.name@,
    {
        let mut out = "Invalid imdb name received: ".to_owned();
        out.append(self.name.as_str());
        out
    }
}

impl Imdb {
    /// Whether this is an episode of a series.
    pub fn is_series(&self) -> (r: bool)
        ensures
            r == (self.series_data is Some),
    {
        self.series_data.is_some()
    }

    /// Packs the title and the episode into one number.
    pub fn to_u64(&self) -> (r: u64)
        ensures
            r == imdb_code(*self),
    {
        let high: u64 = self.imdb_id as u64;
        let low: u64 = match self.series_data {
            Some(data) => data.as_u32() as u64,
            None => 0,
        };
        assert((high << 32) | low == high * 0x1_0000_0000 + low) by (bit_vector)
            requires
                high <= 0xffff_ffff,
                low <= 0xffff_ffff,
        ;
        (high << 32) | low
    }

    /// Unpacks what [`Imdb::to_u64`] packed.
    pub fn from_u64(imdb_encoded: u64) -> (r: Self)
        ensures
            r == imdb_of_code(imdb_encoded as nat),
    {
        assert(imdb_encoded as u32 == imdb_encoded % 0x1_0000_0000) by (bit_vector);
        assert((imdb_encoded >> 32) as u32 == imdb_encoded / 0x1_0000_0000) by (bit_vector);
        let series_data = SeriesData::from_u32(
            #[verifier::truncate]
            (imdb_encoded as u32),
        );
        Self { imdb_id: (imdb_encoded >> 32) as u32, series_data }
    }

    /// Writes the title.
    pub fn to_string(&self) -> (r: String)
        ensures
            r@ == imdb_text(*self),
    {
        let mut out = "tt".to_owned();
        text::push_padded(&mut out, self.imdb_id as u64, 7);
        match self.series_data {
            Some(data) => {
                out.append(":");
                text::push_decimal(&mut out, data.season as u64);
                out.append(":");
                text::push_decimal(&mut out, data.episode as u64);
            },
            None => {},
        }
        out
    }

    /// Reads a title; a final `.json` is ignored.
    pub fn from_str(s: &str) -> (r: Result<Self, InvalidImdbName>)
        ensures
            r matches Ok(imdb) ==> parsed_imdb(s@) == Some(imdb),
            r matches Err(e) ==> parsed_imdb(s@) is None && e.name@ == s@,
    {
        let chars = text::chars_of(s);
        let prefix = text::chars_of("tt");
        if !text::starts_with(&chars, &prefix) {
            return Err(InvalidImdbName { name: s.to_owned() });
        }
        let suffix = text::chars_of(".json");
        let rest = text::copy(&chars, prefix.len(), chars.len());
        assert(rest@ =~= s@.skip("tt"@.len() as int));
        let end: usize = if text::ends_with(&rest, &suffix) {
            rest.len() - suffix.len()
        } else {
            rest.len()
        };
        let name = text::copy(&rest, 0, end);
        assert(name@ =~= imdb_name(s@));
        let items = text::split(&name, ':');
        let ghost pieces = text::split_on(imdb_name(s@), ':');
        assert(forall|i: int| 0 <= i < items@.len() ==> #[trigger] items@[i]@ == pieces[i]) by {
            assert forall|i: int| 0 <= i < items@.len() implies #[trigger] items@[i]@
                == pieces[i] by {
                assert(text::views(items@)[i] == items@[i]@);
            }
        }
        let imdb_id: u32 = match text::parse_decimal(&items[0], u32::MAX as u64) {
            Some(v) => v as u32,
            None => {
                return Err(InvalidImdbName { name: s.to_owned() });
            },
        };
        if items.len() == 1 {
            return Ok(Self { imdb_id, series_data: None });
        }
        if items.len() != 3 {
            return Err(InvalidImdbName { name: s.to_owned() });
        }
        let season = text::parse_decimal(&items[1], u16::MAX as u64);
        let episode = text::parse_decimal(&items[2], u16::MAX as u64);
        match (season, episode) {
            (Some(season), Some(episode)) => Ok(
                Self {
                    imdb_id,
                    series_data: Some(
                        SeriesData { season: season as u16, episode: episode as u16 },
                    ),
                },
            ),
            _ => Err(InvalidImdbName { name: s.to_owned() }),
        }
    }
}

impl std::str::FromStr for Imdb {
    type Err = InvalidImdbName;

    fn from_str(s: &str) -> (r: Result<Self, InvalidImdbName>)
        ensures
            r matches Ok(imdb) ==> parsed_imdb(s@) == Some(imdb),
            r matches Err(e) ==> parsed_imdb(s@) is None && e.name@ == s@,
    {
        Imdb::from_str(s)
    }
}

/// An episode that is packed is unpacked as it was, except season zero, episode zero,
/// whose number is the one that stands for no episode.
pub proof fn series_code_round_trip(data: SeriesData)
    requires
        data.season != 0 || data.episode != 0,
    ensures
        series_of_code(series_code(data)) == Some(data),
{
    let code = series_code(data);
    assert(code / 0x1_0000 == data.season && code % 0x1_0000 == data.episode);
}

/// A title that is packed is unpacked as it was, except one with season zero, episode
/// zero.
pub proof fn imdb_code_round_trip(imdb: Imdb)
    requires
        imdb.series_data != Some(SeriesData { season: 0, episode: 0 }),
    ensures
        imdb_of_code(imdb_code(imdb)) == imdb,
{
    match imdb.series_data {
        Some(data) => {
            series_code_round_trip(data);
        },
        None => {},
    }
    let low = (imdb_code(imdb) - imdb.imdb_id * 0x1_0000_0000) as nat;
    assert(low < 0x1_0000_0000);
    assert(imdb_code(imdb) / 0x1_0000_0000 == imdb.imdb_id);
    assert(imdb_code(imdb) % 0x1_0000_0000 == low);
}

/// A number that is unpacked is packed as it was.
pub proof fn imdb_of_code_round_trip(code: u64)
    ensures
        imdb_code(imdb_of_code(code as nat)) == code,
{
    let low = code as nat % 0x1_0000_0000;
    assert(low / 0x1_0000 < 0x1_0000);
}

/// What is written for a title is read as that title.
pub proof fn imdb_text_round_trip(imdb: Imdb)
    ensures
        parsed_imdb(imdb_text(imdb)) == Some(imdb),
{
    imdb_text_parses(imdb, Seq::empty());
}

/// What is written for a title, with `.json` behind it, is read as that title.
pub proof fn imdb_json_round_trip(imdb: Imdb)
    ensures
        parsed_imdb(imdb_text(imdb) + ".json"@) == Some(imdb),
{
    imdb_text_parses(imdb, ".json"@);
}

/// The part of a written title behind `tt` has one piece for a movie and three for an
/// episode, and ends in a digit.
proof fn imdb_name_pieces(imdb: Imdb)
    ensures
        ({
            let body = imdb_text(imdb).skip(2);
            let id = text::padded_digits(imdb.imdb_id as nat, 7);
            &&& imdb_text(imdb) == "tt"@ + body
            &&& body.len() > 0
            &&& text::is_digit(body.last())
            &&& text::split_on(body, ':') == match imdb.series_data {
                Some(data) => seq![
                    id,
                    text::digits(data.season as nat),
                    text::digits(data.episode as nat),
                ],
                None => seq![id],
            }
        }),
{
    reveal_strlit("tt");
    reveal_strlit(":");
    let id = text::padded_digits(imdb.imdb_id as nat, 7);
    let empty = Seq::<char>::empty();
    text::padded_digits_parse(imdb.imdb_id as nat, 7, u32::MAX as nat);
    digits_hold_no_colon(id);
    text::split_on_append(empty, id, ':');
    assert(empty + id =~= id);
    assert(text::split_on(id, ':') =~= seq![id]);
    match imdb.series_data {
        Some(data) => {
            let season = text::digits(data.season as nat);
            let episode = text::digits(data.episode as nat);
            text::digits_value(data.season as nat);
            text::digits_value(data.episode as nat);
            digits_hold_no_colon(season);
            digits_hold_no_colon(episode);
            assert(":"@ =~= seq![':']);
            let one = id.push(':');
            text::split_on_separator(id, ':');
            text::split_on_append(one, season, ':');
            assert(text::split_on(one + season, ':') =~= seq![id, season]);
            let two = (one + season).push(':');
            text::split_on_separator(one + season, ':');
            text::split_on_append(two, episode, ':');
            assert(text::split_on(two + episode, ':') =~= seq![id, season, episode]);
            let body = imdb_text(imdb).skip(2);
            assert(body =~= two + episode);
            assert(imdb_text(imdb) =~= "tt"@ + body);
            assert(body.last() == episode.last());
        },
        None => {
            let body = imdb_text(imdb).skip(2);
            assert(body =~= id);
            assert(imdb_text(imdb) =~= "tt"@ + body);
            assert(body.last() == id[id.len() - 1]);
        },
    }
}

proof fn digits_hold_no_colon(s: Seq<char>)
    requires
        text::all_digits(s),
    ensures
        !s.contains(':'),
{
    if s.contains(':') {
        let i = choose|i: int| 0 <= i < s.len() && s[i] == ':';
        assert(text::is_digit(s[i]));
    }
}

proof fn imdb_text_parses(imdb: Imdb, tail: Seq<char>)
    requires
        tail == Seq::<char>::empty() || tail == ".json"@,
    ensures
        parsed_imdb(imdb_text(imdb) + tail) == Some(imdb),
{
    reveal_strlit("tt");
    reveal_strlit(".json");
    imdb_name_pieces(imdb);
    let whole = imdb_text(imdb) + tail;
    let body = imdb_text(imdb).skip(2);
    assert(whole.take(2) =~= "tt"@);
    let name = whole.skip(2);
    assert(name =~= body + tail);
    if tail.len() == 0 {
        assert(name =~= body);
        if ".json"@.is_suffix_of(name) {
            let end = name.subrange(name.len() - 5, name.len() as int);
            assert(end[4] == body.last());
            assert(end[4] == ".json"@[4]);
        }
    } else {
        assert(name.subrange(name.len() - 5, name.len() as int) =~= ".json"@);
        assert(name.take(name.len() - 5) =~= body);
    }
    assert(imdb_name(whole) == body);
    text::padded_digits_parse(imdb.imdb_id as nat, 7, u32::MAX as nat);
    match imdb.series_data {
        Some(data) => {
            text::padded_digits_parse(data.season as nat, 0, u16::MAX as nat);
            text::padded_digits_parse(data.episode as nat, 0, u16::MAX as nat);
        },
        None => {},
    }
}

/// Whether an address is one under which this server offers the subtitle that really is at `url`,
/// for a title: behind the beginning of such addresses stand three names, of which the first is
/// read as the title and the second is the digest of `url`.
pub open spec fn leads_to_subtitle(
    address: Seq<char>,
    uses_https: bool,
    host: Seq<char>,
    imdb: Imdb,
    url: Seq<char>,
) -> bool {
    let scheme = if uses_https {
        "https://"@
    } else {
        "http://"@
    };
    let start = scheme + host + "/v1/api/subtitles/"@;
    let names = text::split_on(address.skip(start.len() as int), '/');
    &&& start.is_prefix_of(address)
    &&& names.len() == 3
    &&& parsed_imdb(names[0]) == Some(imdb)
    &&& names[1] == crate::fsonline::url_digest(url)
    &&& names[2] == "subtitle.vtt"@
}

/// The address under which a subtitle is offered names the title that was asked for, with its
/// episode, and the digest of where the subtitle really is.
pub proof fn subtitle_address_names_its_title(
    uses_https: bool,
    host: Seq<char>,
    subtitle: (Seq<char>, Language),
    imdb: Imdb,
)
    ensures
        leads_to_subtitle(
            subtitle_address(uses_https, host, subtitle, imdb),
            uses_https,
            host,
            imdb,
            subtitle.0,
        ),
{
    reveal_strlit("https");
    reveal_strlit("http");
    reveal_strlit("https://");
    reveal_strlit("http://");
    reveal_strlit("://");
    reveal_strlit("/v1/api/");
    reveal_strlit("subtitles/");
    reveal_strlit("/v1/api/subtitles/");
    reveal_strlit("/");
    reveal_strlit("/subtitle.vtt");
    reveal_strlit("subtitle.vtt");
    let scheme = if uses_https {
        "https://"@
    } else {
        "http://"@
    };
    let start = scheme + host + "/v1/api/subtitles/"@;
    let title = imdb_text(imdb);
    let digest = crate::fsonline::url_digest(subtitle.0);
    let file = "subtitle.vtt"@;
    let address = subtitle_address(uses_https, host, subtitle, imdb);
    let rest = title.push('/') + digest;
    assert(api_base(uses_https, host) + "subtitles/"@ =~= start);
    assert(address =~= start + (rest.push('/') + file));
    assert(address.skip(start.len() as int) =~= rest.push('/') + file);
    assert(address.subrange(0, start.len() as int) =~= start);
    imdb_text_holds_no(imdb, '/');
    crate::fsonline::digest_holds_no(subtitle.0, '/');
    assert(!file.contains('/')) by {
        assert(forall|i: int| 0 <= i < file.len() ==> file[i] != '/');
    }
    text::split_on_whole(title, '/');
    text::split_on_piece(title, digest, '/');
    text::split_on_piece(rest, file, '/');
    assert(text::split_on(rest.push('/') + file, '/') =~= seq![title, digest, file]);
    imdb_text_round_trip(imdb);
}

/// A written title holds letters, digits and colons only.
pub proof fn imdb_text_holds_no(imdb: Imdb, c: char)
    requires
        !text::is_digit(c),
        c != 't',
        c != ':',
    ensures
        !imdb_text(imdb).contains(c),
{
    reveal_strlit("tt");
    reveal_strlit(":");
    let s = imdb_text(imdb);
    let id = text::padded_digits(imdb.imdb_id as nat, 7);
    text::padded_digits_parse(imdb.imdb_id as nat, 7, u32::MAX as nat);
    match imdb.series_data {
        Some(data) => {
            let season = text::digits(data.season as nat);
            let episode = text::digits(data.episode as nat);
            text::digits_value(data.season as nat);
            text::digits_value(data.episode as nat);
            let a = 2 + id.len();
            let b = a + 1 + season.len();
            assert forall|i: int| 0 <= i < s.len() implies s[i] != c by {
                if 2 <= i < a {
                    assert(s[i] == id[i - 2]);
                } else if a < i < b {
                    assert(s[i] == season[i - a - 1]);
                } else if b < i {
                    assert(s[i] == episode[i - b - 1]);
                }
            }
        },
        None => {
            assert forall|i: int| 0 <= i < s.len() implies s[i] != c by {
                if 2 <= i {
                    assert(s[i] == id[i - 2]);
                }
            }
        },
    }
}

/// A number asks for kinds of streams exactly if it is made of their flags and of at least one;
/// it then asks for just these. Without a number, playing through this server is asked for.
pub proof fn options_are_the_flags(flags: Option<u8>)
    ensures
        flags matches Some(bits) ==> (options_of(flags) is Ok <==> 1 <= bits <= 15),
        flags matches Some(bits) ==> (options_of(flags) matches Ok(options) ==> options.bits
            == bits),
        flags is None ==> (options_of(flags) matches Ok(options) && options.bits == 1),
        flags == Some(0u8) ==> options_of(flags) == Err::<OptionsBytes, InvalidOptions>(
            InvalidOptions::Empty,
        ),
{
}

/// What is read as a title begins with `tt`, and is one number for a movie and three, between
/// colons, for an episode, each of which is the one that is read.
pub proof fn only_numbers_are_titles(s: Seq<char>)
    ensures
        parsed_imdb(s) matches Some(imdb) ==> {
            let items = text::split_on(imdb_name(s), ':');
            &&& "tt"@.is_prefix_of(s)
            &&& text::parsed_decimal(items[0], u32::MAX as nat) == Some(imdb.imdb_id as nat)
            &&& match imdb.series_data {
                Some(data) => {
                    &&& items.len() == 3
                    &&& text::parsed_decimal(items[1], u16::MAX as nat) == Some(data.season as nat)
                    &&& text::parsed_decimal(items[2], u16::MAX as nat) == Some(
                        data.episode as nat,
                    )
                },
                None => items.len() == 1,
            }
        },
{
}

/// What is written for a title by its name begins with what it is and the name, and ends in its
/// numbers: the year of a movie, the season and the episode of a series.
pub proof fn movie_key_text_tells_the_title(key: MovieKey)
    ensures
        ({
            let items = text::split_on(movie_key_text(key), ':');
            let n = items.len() as int;
            match key.data {
                MovieOrSeriesDataKey::Movie { release_year } => {
                    &&& n >= 2
                    &&& ("movie "@ + key.movie@ + ":"@).is_prefix_of(movie_key_text(key))
                    &&& text::parsed_decimal(items[n - 1], u16::MAX as nat) == Some(
                        release_year as nat,
                    )
                },
                MovieOrSeriesDataKey::Series(data) => {
                    &&& n >= 3
                    &&& ("series "@ + key.movie@ + ":"@).is_prefix_of(movie_key_text(key))
                    &&& text::parsed_decimal(items[n - 2], u16::MAX as nat) == Some(
                        data.season as nat,
                    )
                    &&& text::parsed_decimal(items[n - 1], u16::MAX as nat) == Some(
                        data.episode as nat,
                    )
                },
            }
        }),
{
    reveal_strlit(":");
    let s = movie_key_text(key);
    match key.data {
        MovieOrSeriesDataKey::Movie { release_year } => {
            let front = "movie "@ + key.movie@;
            let year = text::digits(release_year as nat);
            text::padded_digits_parse(release_year as nat, 0, u16::MAX as nat);
            text::digits_hold_no(year, ':');
            assert(s =~= front.push(':') + year);
            text::split_on_piece(front, year, ':');
            text::split_on_nonempty(front, ':');
            let start = front + ":"@;
            assert(s.subrange(0, start.len() as int) =~= start);
        },
        MovieOrSeriesDataKey::Series(data) => {
            let front = "series "@ + key.movie@;
            let season = text::digits(data.season as nat);
            let episode = text::digits(data.episode as nat);
            text::padded_digits_parse(data.season as nat, 0, u16::MAX as nat);
            text::padded_digits_parse(data.episode as nat, 0, u16::MAX as nat);
            text::digits_hold_no(season, ':');
            text::digits_hold_no(episode, ':');
            let middle = front.push(':') + season;
            assert(s =~= middle.push(':') + episode);
            text::split_on_piece(front, season, ':');
            text::split_on_piece(middle, episode, ':');
            text::split_on_nonempty(front, ':');
            let start = front + ":"@;
            assert(s.subrange(0, start.len() as int) =~= start);
        },
    }
}

/// The number of a title holds the title in its upper half, the season in the next quarter and the
/// episode in the last one.
pub proof fn imdb_code_holds_its_parts(imdb: Imdb)
    ensures
        imdb_code(imdb) / 0x1_0000_0000 == imdb.imdb_id,
        imdb.series_data matches Some(data) ==> imdb_code(imdb) % 0x1_0000_0000 / 0x1_0000
            == data.season && imdb_code(imdb) % 0x1_0000 == data.episode,
        imdb.series_data is None ==> imdb_code(imdb) % 0x1_0000_0000 == 0,
        imdb_code(imdb) <= u64::MAX,
{
    let low: nat = match imdb.series_data {
        Some(data) => series_code(data),
        None => 0,
    };
    assert(low < 0x1_0000_0000);
    assert(imdb_code(imdb) / 0x1_0000_0000 == imdb.imdb_id);
    assert(imdb_code(imdb) % 0x1_0000_0000 == low);
    match imdb.series_data {
        Some(data) => {
            assert(low / 0x1_0000 == data.season && low % 0x1_0000 == data.episode);
            assert(imdb_code(imdb) % 0x1_0000 == low % 0x1_0000);
        },
        None => {},
    }
}

/// The languages are told apart by their codes, which have three letters if the language is known.
pub proof fn language_codes_differ(a: Language, b: Language)
    ensures
        language_code(a) == language_code(b) ==> a == b,
        language_code(a).len() == 3 <==> a != Language::Unrecognized,
{
    reveal_strlit("ron");
    reveal_strlit("eng");
    reveal_strlit("_unrecognized");
    assert("ron"@[0] != "eng"@[0]);
    assert("ron"@.len() != "_unrecognized"@.len());
    assert("eng"@.len() != "_unrecognized"@.len());
}

} // verus!
