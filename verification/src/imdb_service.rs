//! From the number of a title to its name, and from there to its players.

use crate::contracts::{Imdb, MovieKey, MovieOrSeriesDataKey, PlayerData};
use crate::text;
use chrono::Datelike;
use vstd::prelude::*;

verus! {

/// What is known of a title by its number.
#[derive(Debug, Clone)]
pub struct MovieData {
    pub movie_name: String,
    pub release_year: u16,
}

/// When a title came out, as it is told: by a date with the time, or by a year.
#[derive(Debug, Clone)]
pub enum ReleasedValue {
    Released(String),
    ReleaseInfo(String),
}

/// The year, by universal time, of a moment that is written down; nothing if the text is no
/// such moment.
pub uninterp spec fn utc_year(moment: Seq<char>) -> Option<i32>;

/// `chrono::DateTime<Utc>` parsed from a text, and its `year`: a function of the text.
#[verifier::external_body]
fn year_of_moment(moment: &str) -> (r: Option<i32>)
    ensures
        r == utc_year(moment@),
{
    moment.parse::<chrono::DateTime<chrono::Utc>>().ok().map(|moment| moment.year())
}

/// The year is none, or none that can be held.
#[derive(Debug, Clone, Copy, PartialEq, Eq, Structural)]
pub struct InvalidReleaseYear;

impl InvalidReleaseYear {
    pub fn message(&self) -> (r: String)
        ensures
            r@ == "Invalid release year"@,
    {
        "Invalid release year".to_owned()
    }
}

/// A year as it is kept: none before the year zero, and none that is too large.
pub open spec fn kept_year(year: Option<i32>) -> Option<nat> {
    match year {
        Some(year) => if 0 <= year <= u16::MAX {
            Some(year as nat)
        } else {
            None
        },
        None => None,
    }
}

/// A year as it is kept.
pub fn year_to_keep(year: Option<i32>) -> (r: Option<u16>)
    ensures
        r is Some <==> kept_year(year) is Some,
        r matches Some(y) ==> kept_year(year) == Some(y as nat),
{
    match year {
        Some(year) => {
            if year < 0 || year > 65_535 {
                None
            } else {
                Some(year as u16)
            }
        },
        None => None,
    }
}

/// The year in which a title came out.
pub open spec fn year_of(released: ReleasedValue) -> Option<nat> {
    match released {
        ReleasedValue::Released(moment) => kept_year(utc_year(moment@)),
        ReleasedValue::ReleaseInfo(year) => text::parsed_decimal(year@, u16::MAX as nat),
    }
}

/// Where a title is looked up by its number.
pub open spec fn lookup_address(imdb_id: u32, is_series: bool) -> Seq<char> {
    let path = if is_series {
        "series"@
    } else {
        "movie"@
    };
    "https://v3-cinemeta.strem.io/meta/"@ + path + "/tt"@ + text::padded_digits(imdb_id as nat, 7)
        + ".json"@
}

/// Looks titles up by their numbers.
#[derive(Debug, Clone, Copy)]
pub struct ImdbService;

impl ImdbService {
    pub fn new() -> (r: Self)
        ensures
            r == Self,
    {
        Self
    }

    /// Where a title is looked up.
    pub fn url(&self, imdb_id: u32, is_series: bool) -> (r: String)
        ensures
            r@ == lookup_address(imdb_id, is_series),
    {
        let mut url = "https://v3-cinemeta.strem.io/meta/".to_owned();
        if is_series {
            url.append("series");
        } else {
            url.append("movie");
        }
        url.append("/tt");
        text::push_padded(&mut url, imdb_id as u64, 7);
        url.append(".json");
        url
    }

    /// What is known of a title from the reply.
    pub fn movie_data(&self, name: String, released: &ReleasedValue) -> (r: Result<
        MovieData,
        InvalidReleaseYear,
    >)
        ensures
            match year_of(*released) {
                Some(year) => r matches Ok(data) && data.movie_name@ == name@ && data.release_year
                    == year,
                None => r is Err,
            },
    {
        let release_year: u16 = match released {
            ReleasedValue::ReleaseInfo(year) => {
                let chars = text::chars_of(year.as_str());
                match text::parse_decimal(&chars, u16::MAX as u64) {
                    Some(year) => year as u16,
                    None => {
                        return Err(InvalidReleaseYear);
                    },
                }
            },
            ReleasedValue::Released(moment) => match year_to_keep(
                year_of_moment(moment.as_str()),
            ) {
                Some(year) => year,
                None => {
                    return Err(InvalidReleaseYear);
                },
            },
        };
        Ok(MovieData { movie_name: name, release_year })
    }
}

/// Finds the players of a title by its number.
#[derive(Debug, Clone, Copy)]
pub struct ImdbToVideoServer;

impl ImdbToVideoServer {
    pub fn new() -> (r: Self)
        ensures
            r == Self,
    {
        Self
    }

    /// How the title is found by its name: an episode by its numbers, a movie by its year.
    pub fn movie_key(&self, imdb_id: Imdb, movie: MovieData) -> (r: MovieKey)
        ensures
            r.movie@ == movie.movie_name@,
            r.data == match imdb_id.series_data {
                Some(data) => MovieOrSeriesDataKey::Series(data),
                None => MovieOrSeriesDataKey::Movie { release_year: movie.release_year },
            },
    {
        let data = match imdb_id.series_data {
            Some(data) => MovieOrSeriesDataKey::Series(data),
            None => MovieOrSeriesDataKey::Movie { release_year: movie.release_year },
        };
        MovieKey { movie: movie.movie_name, data }
    }

    /// The first player of a server.
    pub fn get_from_server<'a>(&self, players: &'a Vec<PlayerData>, server_name: &str) -> (r: Option<
        &'a PlayerData,
    >)
        ensures
            match r {
                Some(player) => exists|i: int|
                    0 <= i < players@.len() && #[trigger] players@[i] == *player
                        && players@[i].server_name@ == server_name@ && forall|j: int|
                        0 <= j < i ==> (#[trigger] players@[j]).server_name@ != server_name@,
                None => forall|j: int|
                    0 <= j < players@.len() ==> (#[trigger] players@[j]).server_name@
                        != server_name@,
            },
    {
        for i in 0..players.len()
            invariant
                forall|j: int|
                    0 <= j < i ==> (#[trigger] players@[j]).server_name@ != server_name@,
        {
            if text::str_eq(players[i].server_name.as_str(), server_name) {
                return Some(&players[i]);
            }
        }
        None
    }
}

/// Why the video of a title on a server cannot be played.
#[derive(Debug, Clone, Copy, PartialEq, Eq, Structural)]
pub enum VideoUrlError {
    PlayerNotFound,
    NotScrapped,
}

impl VideoUrlError {
    pub fn message(&self) -> (r: String)
        ensures
            r@ == match self {
                VideoUrlError::PlayerNotFound => "Player not found"@,
                VideoUrlError::NotScrapped => "Video url not scrapped"@,
            },
    {
        match self {
            VideoUrlError::PlayerNotFound => "Player not found".to_owned(),
            VideoUrlError::NotScrapped => "Video url not scrapped".to_owned(),
        }
    }
}

/// The address of the video of a player that was looked for.
pub fn video_url(player: Option<&PlayerData>) -> (r: Result<String, VideoUrlError>)
    ensures
        match player {
            Some(player) => match player.data.video {
                Some(url) => r matches Ok(found) && found@ == url@,
                None => r == Err::<String, VideoUrlError>(VideoUrlError::NotScrapped),
            },
            None => r == Err::<String, VideoUrlError>(VideoUrlError::PlayerNotFound),
        },
{
    match player {
        Some(player) => match &player.data.video {
            Some(url) => Ok(url.clone()),
            None => Err(VideoUrlError::NotScrapped),
        },
        None => Err(VideoUrlError::PlayerNotFound),
    }
}

/// Where a title is looked up names it: the last name of the address is read as its number, and
/// the one before tells movies from series.
pub proof fn lookup_names_its_title(imdb_id: u32, is_series: bool)
    ensures
        ({
            let names = text::split_on(lookup_address(imdb_id, is_series), '/');
            let n = names.len() as int;
            &&& n >= 2
            &&& crate::contracts::parsed_imdb(names[n - 1]) == Some(
                Imdb { imdb_id, series_data: None },
            )
            &&& names[n - 2] == if is_series {
                "series"@
            } else {
                "movie"@
            }
        }),
{
    reveal_strlit("https://v3-cinemeta.strem.io/meta/");
    reveal_strlit("https://v3-cinemeta.strem.io/meta");
    reveal_strlit("series");
    reveal_strlit("movie");
    reveal_strlit("/tt");
    reveal_strlit("tt");
    reveal_strlit(".json");
    let imdb = Imdb { imdb_id, series_data: None };
    let path = if is_series {
        "series"@
    } else {
        "movie"@
    };
    let title = crate::contracts::imdb_text(imdb);
    let file = title + ".json"@;
    crate::contracts::imdb_json_round_trip(imdb);
    crate::contracts::imdb_text_holds_no(imdb, '/');
    assert(!file.contains('/')) by {
        assert forall|i: int| 0 <= i < file.len() implies file[i] != '/' by {
            if i < title.len() {
                assert(file[i] == title[i]);
                assert(title.contains(title[i]));
            } else {
                assert(file[i] == ".json"@[i - title.len()]);
            }
        }
    }
    assert(!path.contains('/')) by {
        assert(forall|i: int| 0 <= i < path.len() ==> path[i] != '/');
    }
    let start = "https://v3-cinemeta.strem.io/meta"@;
    let front = start.push('/') + path;
    assert(lookup_address(imdb_id, is_series) =~= front.push('/') + file);
    text::split_on_piece(start, path, '/');
    text::split_on_piece(front, file, '/');
    text::split_on_nonempty(start, '/');
}

/// A year is kept exactly if it is one from zero on that can be held, and then as it is.
pub proof fn years_are_kept_as_they_are(year: Option<i32>)
    ensures
        kept_year(year) is Some <==> (year matches Some(y) && 0 <= y <= 65_535),
        kept_year(year) matches Some(kept) ==> year == Some(kept as i32),
{
}

/// A title came out in the year that is told: in the one that is written, or in that of the
/// moment that is written.
pub proof fn titles_came_out_when_it_is_told(released: ReleasedValue, year: u16)
    ensures
        released matches ReleasedValue::ReleaseInfo(told) ==> (told@ == text::digits(year as nat)
            ==> year_of(released) == Some(year as nat)),
        released matches ReleasedValue::Released(moment) ==> (utc_year(moment@) == Some(year as i32)
            ==> year_of(released) == Some(year as nat)),
        released matches ReleasedValue::Released(moment) ==> (year_of(released) matches Some(y)
            ==> utc_year(moment@) == Some(y as i32)),
{
    text::padded_digits_parse(year as nat, 0, u16::MAX as nat);
}

} // verus!
