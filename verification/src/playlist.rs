//! The playlists of a movie: reading those of its server, and making its own.

use crate::contracts;
use crate::contracts::Imdb;
use crate::player::keys::{M3U8CacheKey, SegmentId};
use crate::player::time_cache;
use crate::player::{ticks, to_ticks, OneSegmentTime, SegmentRange};
use crate::text;
use vstd::prelude::*;

verus! {

/// A stream that a master playlist offers.
#[derive(Debug, Clone)]
pub struct Variant {
    pub is_i_frame: bool,
    pub uri: String,
}

impl View for Variant {
    type V = (bool, Seq<char>);

    /// Whether it holds single pictures only, and where it is.
    open spec fn view(&self) -> (bool, Seq<char>) {
        (self.is_i_frame, self.uri@)
    }
}

/// A segment as a playlist lists it: where it is, and its duration in seconds as it is
/// written.
#[derive(Debug, Clone)]
pub struct ListedSegment {
    pub uri: String,
    pub duration: String,
}

impl View for ListedSegment {
    type V = (Seq<char>, Seq<char>);

    open spec fn view(&self) -> (Seq<char>, Seq<char>) {
        (self.uri@, self.duration@)
    }
}

/// The streams as plain values.
pub open spec fn variant_views(variants: Seq<Variant>) -> Seq<(bool, Seq<char>)> {
    variants.map_values(|v: Variant| v@)
}

/// The segments as plain values.
pub open spec fn segment_views(segments: Seq<ListedSegment>) -> Seq<(Seq<char>, Seq<char>)> {
    segments.map_values(|s: ListedSegment| s@)
}

/// What a master playlist says: its streams in order, or why it cannot be read.
pub uninterp spec fn parsed_master(bytes: Seq<u8>) -> Result<Seq<(bool, Seq<char>)>, Seq<char>>;

/// What a playlist says: its segments in order, or why it cannot be read.
pub uninterp spec fn parsed_media(bytes: Seq<u8>) -> Result<
    Seq<(Seq<char>, Seq<char>)>,
    Seq<char>,
>;

/// `m3u8_rs::parse_master_playlist_res`: the streams, or the text of the error, are a
/// function of the bytes.
#[verifier::external_body]
fn parse_master(bytes: &[u8]) -> (r: Result<Vec<Variant>, String>)
    ensures
        r matches Ok(variants) ==> (parsed_master(bytes@) matches Ok(named) && named
            == variant_views(variants@)),
        r matches Err(e) ==> (parsed_master(bytes@) matches Err(named) && named == e@),
{
    let master = m3u8_rs::parse_master_playlist_res(bytes).map_err(|e| e.to_string())?;
    let convert = |v: m3u8_rs::VariantStream| Variant { is_i_frame: v.is_i_frame, uri: v.uri };
    Ok(master.variants.into_iter().map(convert).collect())
}

/// `m3u8_rs::parse_media_playlist_res`: the segments, or the text of the error, are a
/// function of the bytes. A duration is written as the number that was read displays.
#[verifier::external_body]
fn parse_media(bytes: &[u8]) -> (r: Result<Vec<ListedSegment>, String>)
    ensures
        r matches Ok(segments) ==> (parsed_media(bytes@) matches Ok(named) && named
            == segment_views(segments@)),
        r matches Err(e) ==> (parsed_media(bytes@) matches Err(named) && named == e@),
{
    let media = m3u8_rs::parse_media_playlist_res(bytes).map_err(|e| e.to_string())?;
    let convert = |s: m3u8_rs::MediaSegment| ListedSegment {
        uri: s.uri,
        duration: s.duration.to_string(),
    };
    Ok(media.segments.into_iter().map(convert).collect())
}

/// The streams that are offered on: those of single pictures, and the first other one.
pub open spec fn kept(variants: Seq<(bool, Seq<char>)>) -> Seq<(bool, Seq<char>)>
    decreases variants.len(),
{
    if variants.len() == 0 {
        Seq::empty()
    } else if is_kept(variants, variants.len() - 1) {
        kept(variants.drop_last()).push(variants.last())
    } else {
        kept(variants.drop_last())
    }
}

/// Whether stream `i` is offered on.
pub open spec fn is_kept(variants: Seq<(bool, Seq<char>)>, i: int) -> bool {
    variants[i].0 || forall|j: int| 0 <= j < i ==> (#[trigger] variants[j]).0
}

/// Whether each stream is offered on, one after the other.
pub fn kept_flags(i_frames: &Vec<bool>) -> (r: Vec<bool>)
    ensures
        r@.len() == i_frames@.len(),
        forall|i: int|
            0 <= i < r@.len() ==> (#[trigger] r@[i] <==> i_frames@[i] || forall|j: int|
                0 <= j < i ==> #[trigger] i_frames@[j]),
{
    let mut flags: Vec<bool> = Vec::new();
    let mut first_stream = true;
    for i in 0..i_frames.len()
        invariant
            flags@.len() == i,
            first_stream == forall|j: int| 0 <= j < i ==> #[trigger] i_frames@[j],
            forall|k: int|
                0 <= k < i ==> (#[trigger] flags@[k] <==> i_frames@[k] || forall|j: int|
                    0 <= j < k ==> #[trigger] i_frames@[j]),
    {
        if i_frames[i] {
            flags.push(true);
        } else {
            flags.push(first_stream);
            first_stream = false;
        }
    }
    flags
}

/// Picks the streams that are offered on.
pub fn keep_variants(variants: Vec<Variant>) -> (r: Vec<Variant>)
    ensures
        variant_views(r@) == kept(variant_views(variants@)),
{
    let ghost all = variant_views(variants@);
    let mut out: Vec<Variant> = Vec::new();
    let mut first_stream = true;
    assert(variant_views(out@) =~= kept(all.take(0)));
    for i in 0..variants.len()
        invariant
            all == variant_views(variants@),
            variant_views(out@) == kept(all.take(i as int)),
            first_stream == forall|j: int| 0 <= j < i ==> (#[trigger] all[j]).0,
    {
        let ghost before = variant_views(out@);
        proof {
            let more = all.take(i + 1);
            assert(all[i as int] == variants@[i as int]@);
            assert(more.drop_last() =~= all.take(i as int));
            assert(is_kept(more, i as int) <==> all[i as int].0 || first_stream) by {
                assert(forall|j: int| 0 <= j < i ==> #[trigger] more[j] == all[j]);
                if first_stream {
                    assert(forall|j: int| 0 <= j < i ==> (#[trigger] more[j]).0);
                } else {
                    let j = choose|j: int| 0 <= j < i && !(#[trigger] all[j]).0;
                    assert(!more[j].0);
                }
            }
        }
        let variant = Variant { is_i_frame: variants[i].is_i_frame, uri: variants[i].uri.clone() };
        if variant.is_i_frame {
            out.push(variant);
            assert(variant_views(out@) =~= before.push(all[i as int]));
        } else if first_stream {
            first_stream = false;
            out.push(variant);
            assert(variant_views(out@) =~= before.push(all[i as int]));
        }
    }
    assert(all.take(all.len() as int) =~= all);
    out
}

/// There is no stream to play.
#[derive(Debug, Clone, Copy, PartialEq, Eq, Structural)]
pub struct NoDataStream;

impl NoDataStream {
    pub fn message(&self) -> (r: String)
        ensures
            r@ == "No data stream"@,
    {
        "No data stream".to_owned()
    }
}

/// Where the first stream is that is not of single pictures.
pub open spec fn first_stream_uri(variants: Seq<(bool, Seq<char>)>) -> Option<Seq<char>>
    decreases variants.len(),
{
    if variants.len() == 0 {
        None
    } else if !variants[0].0 {
        Some(variants[0].1)
    } else {
        first_stream_uri(variants.skip(1))
    }
}

/// Where the stream to play is.
pub fn data_stream(variants: &Vec<Variant>) -> (r: Result<String, NoDataStream>)
    ensures
        match first_stream_uri(variant_views(variants@)) {
            Some(uri) => r matches Ok(found) && found@ == uri,
            None => r is Err,
        },
{
    let ghost all = variant_views(variants@);
    assert(all.skip(0) =~= all);
    for i in 0..variants.len()
        invariant
            all == variant_views(variants@),
            first_stream_uri(all) == first_stream_uri(all.skip(i as int)),
    {
        assert(all[i as int] == variants@[i as int]@);
        assert(all.skip(i as int).skip(1) =~= all.skip(i + 1));
        if !variants[i].is_i_frame {
            return Ok(variants[i].uri.clone());
        }
    }
    Err(NoDataStream)
}

/// The streams of a master playlist that are offered on, or why it cannot be read.
pub fn read_master(bytes: &[u8]) -> (r: Result<Vec<Variant>, String>)
    ensures
        match parsed_master(bytes@) {
            Ok(variants) => r matches Ok(found) && variant_views(found@) == kept(variants),
            Err(e) => r matches Err(found) && found@ == e,
        },
{
    match parse_master(bytes) {
        Ok(variants) => Ok(keep_variants(variants)),
        Err(e) => Err(e),
    }
}

/// Why nothing can be played from a master playlist.
#[derive(Debug)]
pub enum MasterError {
    /// It cannot be read.
    Unreadable(String),
    /// It has no stream to play.
    NoDataStream,
}

impl MasterError {
    pub fn message(&self) -> (r: String)
        ensures
            r@ == match self {
                MasterError::Unreadable(e) => e@,
                MasterError::NoDataStream => "No data stream"@,
            },
    {
        match self {
            MasterError::Unreadable(e) => e.clone(),
            MasterError::NoDataStream => NoDataStream.message(),
        }
    }
}

/// A master playlist and where the stream to play is: the streams that are offered on, and
/// the address of the first that is not of single pictures.
pub fn open_master(bytes: &[u8]) -> (r: Result<(Vec<Variant>, String), MasterError>)
    ensures
        match parsed_master(bytes@) {
            Ok(variants) => match first_stream_uri(variants) {
                Some(uri) => r matches Ok((found, stream)) && variant_views(found@) == kept(
                    variants,
                ) && stream@ == uri,
                None => r matches Err(MasterError::NoDataStream),
            },
            Err(e) => r matches Err(MasterError::Unreadable(text)) && text@ == e,
        },
{
    match read_master(bytes) {
        Ok(variants) => {
            proof {
                kept_variants_keep_the_stream(parsed_master(bytes@)->Ok_0);
            }
            match data_stream(&variants) {
                Ok(stream) => Ok((variants, stream)),
                Err(_) => Err(MasterError::NoDataStream),
            }
        },
        Err(e) => Err(MasterError::Unreadable(e)),
    }
}

/// The playlists of a movie on its server: the streams of the master playlist, and the
/// segments of the stream to play.
#[derive(Debug, Clone)]
pub struct M3U8Data {
    pub master: Vec<Variant>,
    pub playlist: Vec<MediaSegment>,
}

/// The durations of some segments.
pub open spec fn durations_of(segments: Seq<(Seq<char>, i64)>) -> Seq<i64> {
    segments.map_values(|s: (Seq<char>, i64)| s.1)
}

impl M3U8Data {
    /// How long the movie lasts: as long as its segments together.
    pub fn movie_duration(&self) -> (r: i64)
        ensures
            r == to_ticks(time_cache::total(durations_of(media_views(self.playlist@)))),
    {
        let mut durations: Vec<i64> = Vec::new();
        let ghost all = durations_of(media_views(self.playlist@));
        assert(durations@ =~= all.take(0));
        for i in 0..self.playlist.len()
            invariant
                all == durations_of(media_views(self.playlist@)),
                durations@ == all.take(i as int),
        {
            durations.push(self.playlist[i].duration);
            assert(media_views(self.playlist@)[i as int] == self.playlist@[i as int]@);
            assert(durations@ =~= all.take(i + 1));
        }
        assert(all.take(all.len() as int) =~= all);
        time_cache::movie_duration(&durations)
    }

    /// Where the segments are, one after the other.
    pub fn uris(&self) -> (r: Vec<String>)
        ensures
            r@.len() == self.playlist@.len(),
            forall|i: int| 0 <= i < r@.len() ==> (#[trigger] r@[i])@ == self.playlist@[i].uri@,
    {
        let mut uris: Vec<String> = Vec::new();
        for i in 0..self.playlist.len()
            invariant
                uris@.len() == i,
                forall|k: int| 0 <= k < i ==> (#[trigger] uris@[k])@ == self.playlist@[k].uri@,
        {
            uris.push(self.playlist[i].uri.clone());
        }
        uris
    }
}

/// The stream to play is the same in what is offered on as in the whole master playlist.
pub proof fn kept_variants_keep_the_stream(variants: Seq<(bool, Seq<char>)>)
    ensures
        first_stream_uri(kept(variants)) == first_stream_uri(variants),
    decreases variants.len(),
{
    if variants.len() > 0 {
        let before = variants.drop_last();
        kept_variants_keep_the_stream(before);
        stream_of_longer(before, variants.last());
        assert(before.push(variants.last()) =~= variants);
        stream_of_longer(kept(before), variants.last());
        let last = variants.len() - 1;
        if first_stream_uri(before) is None {
            no_stream_means_pictures(before);
            assert(forall|j: int| 0 <= j < last ==> (#[trigger] variants[j]) == before[j]);
            assert(is_kept(variants, last));
        }
    }
}

proof fn stream_of_longer(variants: Seq<(bool, Seq<char>)>, more: (bool, Seq<char>))
    ensures
        first_stream_uri(variants.push(more)) == match first_stream_uri(variants) {
            Some(uri) => Some(uri),
            None => if more.0 {
                None
            } else {
                Some(more.1)
            },
        },
    decreases variants.len(),
{
    let longer = variants.push(more);
    if variants.len() == 0 {
        assert(longer.skip(1) =~= Seq::empty());
        assert(first_stream_uri(longer.skip(1)) is None);
        assert(longer[0] == more);
    } else {
        assert(longer.skip(1) =~= variants.skip(1).push(more));
        stream_of_longer(variants.skip(1), more);
    }
}

proof fn no_stream_means_pictures(variants: Seq<(bool, Seq<char>)>)
    requires
        first_stream_uri(variants) is None,
    ensures
        forall|j: int| 0 <= j < variants.len() ==> (#[trigger] variants[j]).0,
    decreases variants.len(),
{
    if variants.len() > 0 {
        no_stream_means_pictures(variants.skip(1));
        assert forall|j: int| 0 <= j < variants.len() implies (#[trigger] variants[j]).0 by {
            if j > 0 {
                assert(variants[j] == variants.skip(1)[j - 1]);
            }
        }
    }
}

/// The ticks in the fraction of a second that these digits write, rounded down.
pub open spec fn fraction_ticks(digits: Seq<char>) -> nat
    decreases digits.len(),
{
    if digits.len() == 0 {
        0
    } else {
        ((90_000 * (digits[0] as int - '0' as int) + fraction_ticks(digits.skip(1))) / 10) as nat
    }
}

/// The ticks in a number of seconds that is written with or without a point, rounded down;
/// the most that can be held for anything else, which is how a number is written that is
/// too large.
pub open spec fn written_ticks(seconds: Seq<char>) -> i64 {
    let pieces = text::split_on(seconds, '.');
    match text::parsed_decimal(pieces[0], u64::MAX as nat) {
        Some(whole) => if pieces.len() == 1 {
            to_ticks((whole * 90_000) as int)
        } else if pieces.len() == 2 && text::all_digits(pieces[1]) {
            to_ticks((whole * 90_000 + fraction_ticks(pieces[1])) as int)
        } else {
            i64::MAX
        },
        None => i64::MAX,
    }
}

fn read_fraction(digits: &Vec<char>) -> (r: Option<u64>)
    ensures
        match r {
            Some(n) => text::all_digits(digits@) && n == fraction_ticks(digits@) && n <= 90_000,
            None => !text::all_digits(digits@),
        },
{
    let mut n: u64 = 0;
    let mut i: usize = digits.len();
    assert(digits@.skip(digits@.len() as int) =~= Seq::empty());
    while i > 0
        invariant
            i <= digits@.len(),
            n == fraction_ticks(digits@.skip(i as int)),
            n <= 90_000,
            forall|j: int| i <= j < digits@.len() ==> text::is_digit(#[trigger] digits@[j]),
        decreases i,
    {
        let c = digits[i - 1];
        if c < '0' || c > '9' {
            assert(!text::is_digit(digits@[i - 1]));
            return None;
        }
        let d: u64 = c as u64 - 48;
        assert(digits@.skip(i - 1).skip(1) =~= digits@.skip(i as int));
        n = (90_000 * d + n) / 10;
        i -= 1;
    }
    assert(digits@.skip(0) =~= digits@);
    Some(n)
}

/// The ticks in a number of seconds that is written down.
pub fn duration_ticks(seconds: &str) -> (r: i64)
    ensures
        r == written_ticks(seconds@),
{
    let chars = text::chars_of(seconds);
    let pieces = text::split(&chars, '.');
    let ghost parts = text::split_on(seconds@, '.');
    assert(text::views(pieces@)[0] == pieces@[0]@);
    match text::parse_decimal(&pieces[0], u64::MAX) {
        Some(whole) => {
            let all: i128 = whole as i128 * 90_000;
            if pieces.len() == 1 {
                return ticks(all);
            }
            if pieces.len() == 2 {
                assert(text::views(pieces@)[1] == pieces@[1]@);
                match read_fraction(&pieces[1]) {
                    Some(more) => {
                        return ticks(all + more as i128);
                    },
                    None => {},
                }
            }
            i64::MAX
        },
        None => i64::MAX,
    }
}

/// A segment of a playlist: where it is, and how long it lasts.
#[derive(Debug, Clone)]
pub struct MediaSegment {
    pub uri: String,
    pub duration: i64,
}

impl View for MediaSegment {
    type V = (Seq<char>, i64);

    open spec fn view(&self) -> (Seq<char>, i64) {
        (self.uri@, self.duration)
    }
}

/// The segments as plain values.
pub open spec fn media_views(segments: Seq<MediaSegment>) -> Seq<(Seq<char>, i64)> {
    segments.map_values(|s: MediaSegment| s@)
}

/// The segments that a playlist lists, with their durations in ticks.
pub open spec fn timed(segments: Seq<(Seq<char>, Seq<char>)>) -> Seq<(Seq<char>, i64)> {
    segments.map_values(|s: (Seq<char>, Seq<char>)| (s.0, written_ticks(s.1)))
}

/// Turns the durations that a playlist lists into ticks.
pub fn time_segments(segments: &Vec<ListedSegment>) -> (r: Vec<MediaSegment>)
    ensures
        media_views(r@) == timed(segment_views(segments@)),
{
    let ghost all = timed(segment_views(segments@));
    let mut out: Vec<MediaSegment> = Vec::new();
    assert(media_views(out@) =~= all.take(0));
    for i in 0..segments.len()
        invariant
            all == timed(segment_views(segments@)),
            media_views(out@) == all.take(i as int),
    {
        assert(segment_views(segments@)[i as int] == segments@[i as int]@);
        let ghost before = media_views(out@);
        let segment = MediaSegment {
            uri: segments[i].uri.clone(),
            duration: duration_ticks(segments[i].duration.as_str()),
        };
        out.push(segment);
        assert(media_views(out@) =~= before.push(segment@));
        assert(media_views(out@) =~= all.take(i + 1));
    }
    assert(all.take(all.len() as int) =~= all);
    out
}

/// The segments of a playlist, or why it cannot be read.
pub fn read_media(bytes: &[u8]) -> (r: Result<Vec<MediaSegment>, String>)
    ensures
        match parsed_media(bytes@) {
            Ok(segments) => r matches Ok(found) && media_views(found@) == timed(segments),
            Err(e) => r matches Err(found) && found@ == e,
        },
{
    match parse_media(bytes) {
        Ok(segments) => Ok(time_segments(&segments)),
        Err(e) => Err(e),
    }
}

/// A run of segments that is offered as one, and how long it lasts.
#[derive(Debug, Clone, Copy, PartialEq, Eq, Structural)]
pub struct SegmentsTime {
    pub segments_range: SegmentRange,
    pub duration: i64,
}

/// The runs of segments between known times: each from one time to the next, and the last
/// to the end of the movie.
pub open spec fn runs(
    times: Seq<OneSegmentTime>,
    segments_len: usize,
    movie_duration: i64,
) -> Seq<SegmentsTime> {
    Seq::new(
        times.len(),
        |i: int|
            if i + 1 < times.len() {
                SegmentsTime {
                    segments_range: SegmentRange {
                        start: times[i].segment_index,
                        end: times[i + 1].segment_index,
                    },
                    duration: to_ticks(times[i + 1].start_time - times[i].start_time),
                }
            } else {
                SegmentsTime {
                    segments_range: SegmentRange {
                        start: times[i].segment_index,
                        end: segments_len,
                    },
                    duration: to_ticks(movie_duration - times[i].start_time),
                }
            },
    )
}

/// The times with one for the first segment: it starts with the movie if nothing else is
/// known.
pub open spec fn with_first(times: Seq<OneSegmentTime>) -> Seq<OneSegmentTime> {
    if time_cache::has_index(times, 0) {
        times
    } else {
        times.push(OneSegmentTime { segment_index: 0, start_time: 0 })
    }
}

/// The runs of segments that a movie is offered in, by the times that are known.
pub fn real_segments(
    times: Vec<OneSegmentTime>,
    segments_len: usize,
    movie_duration: i64,
) -> (r: Vec<SegmentsTime>)
    ensures
        exists|order: Seq<OneSegmentTime>|
            time_cache::sorts(order, with_first(times@)) && r@ == #[trigger] runs(
                order,
                segments_len,
                movie_duration,
            ),
        r@.len() > 0,
{
    let mut all = times;
    let mut first_known = false;
    for i in 0..all.len()
        invariant
            all@ == times@,
            first_known == exists|j: int|
                0 <= j < i && (#[trigger] all@[j]).segment_index == 0,
    {
        if all[i].segment_index == 0 {
            first_known = true;
            assert(all@[i as int].segment_index == 0);
        }
    }
    assert(first_known == time_cache::has_index(times@, 0));
    if !first_known {
        all.push(OneSegmentTime { segment_index: 0, start_time: 0 });
    }
    assert(all@ == with_first(times@));
    let order = time_cache::sort_times(&all);
    proof {
        order@.to_multiset_ensures();
        all@.to_multiset_ensures();
        assert(order@.len() == all@.len());
        if first_known {
            let j = choose|j: int| 0 <= j < times@.len() && (#[trigger] times@[j]).segment_index == 0;
            assert(times@.len() > 0);
        }
    }
    let mut segments: Vec<SegmentsTime> = Vec::new();
    let count: usize = order.len();
    for i in 0..count
        invariant
            count == order@.len(),
            segments@.len() == i,
            forall|k: int|
                0 <= k < i ==> #[trigger] segments@[k] == runs(
                    order@,
                    segments_len,
                    movie_duration,
                )[k],
    {
        let from = order[i];
        let segment = if i + 1 < count {
            let to = order[i + 1];
            SegmentsTime {
                segments_range: SegmentRange { start: from.segment_index, end: to.segment_index },
                duration: ticks(to.start_time as i128 - from.start_time as i128),
            }
        } else {
            SegmentsTime {
                segments_range: SegmentRange { start: from.segment_index, end: segments_len },
                duration: ticks(movie_duration as i128 - from.start_time as i128),
            }
        };
        segments.push(segment);
    }
    assert(segments@ =~= runs(order@, segments_len, movie_duration));
    segments
}

/// The runs of a movie follow one another from its first segment to its last.
pub proof fn runs_cover_the_movie(
    times: Seq<OneSegmentTime>,
    order: Seq<OneSegmentTime>,
    segments_len: usize,
    movie_duration: i64,
)
    requires
        time_cache::sorts(order, with_first(times)),
    ensures
        ({
            let r = runs(order, segments_len, movie_duration);
            &&& r.len() > 0
            &&& r[0].segments_range.start == 0
            &&& r.last().segments_range.end == segments_len
            &&& forall|i: int|
                0 <= i < r.len() - 1 ==> (#[trigger] r[i]).segments_range.end == r[i
                    + 1].segments_range.start && r[i].segments_range.start
                    <= r[i].segments_range.end
        }),
{
    let all = with_first(times);
    order.to_multiset_ensures();
    all.to_multiset_ensures();
    let at = if time_cache::has_index(times, 0) {
        choose|j: int| 0 <= j < times.len() && (#[trigger] times[j]).segment_index == 0
    } else {
        times.len() as int
    };
    assert(all[at].segment_index == 0);
    assert(all.contains(all[at]));
    assert(order.to_multiset().count(all[at]) > 0);
    assert(order.contains(all[at]));
    let k = choose|k: int| 0 <= k < order.len() && order[k] == all[at];
    assert(order[0].segment_index == 0) by {
        if k > 0 {
            assert(order[0].segment_index <= order[k].segment_index);
        }
    }
    let r = runs(order, segments_len, movie_duration);
    assert forall|i: int| 0 <= i < r.len() - 1 implies (#[trigger] r[i]).segments_range.end == r[i
        + 1].segments_range.start && r[i].segments_range.start <= r[i].segments_range.end by {
        assert(order[i].segment_index <= order[i + 1].segment_index);
    }
}

/// How long some runs last together.
pub open spec fn total_duration(segments: Seq<SegmentsTime>) -> int
    decreases segments.len(),
{
    if segments.len() == 0 {
        0
    } else {
        segments[0].duration + total_duration(segments.skip(1))
    }
}

/// The runs of a movie last together for what lies between the first time and the end of
/// the movie, as long as no two times are further apart than can be held.
pub proof fn runs_last_as_long_as_the_movie(
    order: Seq<OneSegmentTime>,
    segments_len: usize,
    movie_duration: i64,
)
    requires
        order.len() > 0,
        forall|i: int|
            0 <= i < order.len() - 1 ==> i64::MIN <= (#[trigger] order[i + 1]).start_time
                - order[i].start_time <= i64::MAX,
        i64::MIN <= movie_duration - order.last().start_time <= i64::MAX,
    ensures
        total_duration(runs(order, segments_len, movie_duration)) == movie_duration
            - order[0].start_time,
    decreases order.len(),
{
    let all = runs(order, segments_len, movie_duration);
    let rest = order.skip(1);
    if rest.len() > 0 {
        assert forall|i: int| 0 <= i < rest.len() - 1 implies i64::MIN <= (
        #[trigger] rest[i + 1]).start_time - rest[i].start_time <= i64::MAX by {
            assert(rest[i + 1] == order[(i + 1) + 1]);
            assert(rest[i] == order[i + 1]);
        }
        assert(rest.last() == order.last());
        runs_last_as_long_as_the_movie(rest, segments_len, movie_duration);
        assert(all.skip(1) =~= runs(rest, segments_len, movie_duration));
        assert(order[0int + 1].start_time - order[0].start_time == all[0].duration);
    } else {
        assert(all.skip(1).len() == 0);
        assert(total_duration(all.skip(1)) == 0);
    }
}

/// The beginning of the addresses under which a movie is offered.
pub open spec fn movie_base(uses_https: bool, host: Seq<char>, key: M3U8CacheKey) -> Seq<char> {
    contracts::api_base(uses_https, host) + key.server_name@ + "/"@ + contracts::imdb_text(key.imdb)
}

fn movie_url(uses_https: bool, host: &str, key: &M3U8CacheKey) -> (r: String)
    ensures
        r@ == movie_base(uses_https, host@, *key),
{
    let mut url = contracts::api_url(uses_https, host);
    url.append(key.server_name.as_str());
    url.append("/");
    let title = key.imdb.to_string();
    url.append(title.as_str());
    url
}

/// Where the playlist of a movie is offered to players.
pub fn local_player_url(uses_https: bool, host: &str, key: &M3U8CacheKey) -> (r: String)
    ensures
        r@ == movie_base(uses_https, host@, *key) + "/playlist.m3u8"@,
{
    let mut url = movie_url(uses_https, host, key);
    url.append("/playlist.m3u8");
    url
}

/// Where the playlist of the segments of a movie is offered.
pub fn media_playlist_url(uses_https: bool, host: &str, key: &M3U8CacheKey) -> (r: String)
    ensures
        r@ == movie_base(uses_https, host@, *key) + "/m3u8/playlist.m3u8"@,
{
    let mut url = movie_url(uses_https, host, key);
    url.append("/m3u8/playlist.m3u8");
    url
}

/// The streams of a master playlist as they are offered: in place of the stream to play,
/// the playlist that is made here.
pub open spec fn offered_variants(
    variants: Seq<(bool, Seq<char>)>,
    playlist: Seq<char>,
) -> Seq<(bool, Seq<char>)> {
    variants.map_values(
        |v: (bool, Seq<char>)|
            if v.0 {
                v
            } else {
                (false, playlist)
            },
    )
}

/// Rewrites the streams of a master playlist to what is offered here.
pub fn offer_variants(
    variants: &Vec<Variant>,
    uses_https: bool,
    host: &str,
    key: &M3U8CacheKey,
) -> (r: Vec<Variant>)
    ensures
        variant_views(r@) == offered_variants(
            variant_views(variants@),
            movie_base(uses_https, host@, *key) + "/m3u8/playlist.m3u8"@,
        ),
{
    let ghost all = variant_views(variants@);
    let url = media_playlist_url(uses_https, host, key);
    let mut out: Vec<Variant> = Vec::new();
    assert(variant_views(out@) =~= offered_variants(all, url@).take(0));
    for i in 0..variants.len()
        invariant
            all == variant_views(variants@),
            variant_views(out@) == offered_variants(all, url@).take(i as int),
    {
        assert(all[i as int] == variants@[i as int]@);
        let ghost before = variant_views(out@);
        let variant = if variants[i].is_i_frame {
            Variant { is_i_frame: true, uri: variants[i].uri.clone() }
        } else {
            Variant { is_i_frame: false, uri: url.clone() }
        };
        out.push(variant);
        assert(variant_views(out@) =~= before.push(variant@));
        assert(variant_views(out@) =~= offered_variants(all, url@).take(i + 1));
    }
    assert(offered_variants(all, url@).take(all.len() as int) =~= offered_variants(all, url@));
    out
}

/// Where a run of segments is offered.
pub open spec fn run_address(
    uses_https: bool,
    host: Seq<char>,
    key: M3U8CacheKey,
    range: SegmentRange,
) -> Seq<char> {
    movie_base(uses_https, host, key) + "/m3u8/segments/"@ + text::digits(range.start as nat) + "/"@
        + text::digits(range.end as nat)
}

/// The runs of a movie as a playlist lists them.
pub open spec fn offered_runs(
    uses_https: bool,
    host: Seq<char>,
    key: M3U8CacheKey,
    runs: Seq<SegmentsTime>,
) -> Seq<(Seq<char>, i64)> {
    runs.map_values(
        |s: SegmentsTime| (run_address(uses_https, host, key, s.segments_range), s.duration),
    )
}

/// Lists the runs of a movie for a playlist.
pub fn playlist_segments(
    uses_https: bool,
    host: &str,
    key: &M3U8CacheKey,
    runs: &Vec<SegmentsTime>,
) -> (r: Vec<MediaSegment>)
    ensures
        media_views(r@) == offered_runs(uses_https, host@, *key, runs@),
{
    let ghost all = offered_runs(uses_https, host@, *key, runs@);
    let mut out: Vec<MediaSegment> = Vec::new();
    assert(media_views(out@) =~= all.take(0));
    for i in 0..runs.len()
        invariant
            all == offered_runs(uses_https, host@, *key, runs@),
            media_views(out@) == all.take(i as int),
    {
        let ghost before = media_views(out@);
        let mut uri = movie_url(uses_https, host, key);
        uri.append("/m3u8/segments/");
        text::push_decimal(&mut uri, runs[i].segments_range.start as u64);
        uri.append("/");
        text::push_decimal(&mut uri, runs[i].segments_range.end as u64);
        let segment = MediaSegment { uri, duration: runs[i].duration };
        assert(segment@ == all[i as int]);
        out.push(segment);
        assert(media_views(out@) =~= before.push(segment@));
        assert(media_views(out@) =~= all.take(i + 1));
    }
    assert(all.take(all.len() as int) =~= all);
    out
}

/// The longest duration.
pub open spec fn longest_duration(runs: Seq<SegmentsTime>) -> i64
    decreases runs.len(),
{
    if runs.len() <= 1 {
        runs[0].duration
    } else {
        let before = longest_duration(runs.drop_last());
        if runs.last().duration > before {
            runs.last().duration
        } else {
            before
        }
    }
}

/// The whole seconds that no run of a playlist exceeds: ten for a playlist without runs.
pub open spec fn target_seconds(runs: Seq<SegmentsTime>) -> nat {
    if runs.len() == 0 {
        10
    } else if longest_duration(runs) <= 0 {
        0
    } else {
        ((longest_duration(runs) + 89_999) / 90_000) as nat
    }
}

/// The target duration of a playlist.
pub fn target_duration(runs: &Vec<SegmentsTime>) -> (r: u64)
    ensures
        r == target_seconds(runs@),
{
    if runs.len() == 0 {
        return 10;
    }
    let mut longest: i64 = runs[0].duration;
    assert(runs@.take(1)[0] == runs@[0]);
    for i in 1..runs.len()
        invariant
            runs@.len() > 0,
            longest == longest_duration(runs@.take(i as int)),
    {
        assert(runs@.take(i + 1).drop_last() =~= runs@.take(i as int));
        if runs[i].duration > longest {
            longest = runs[i].duration;
        }
    }
    assert(runs@.take(runs@.len() as int) =~= runs@);
    if longest <= 0 {
        0
    } else {
        (longest as u64 + 89_999) / 90_000
    }
}

/// No run lasts longer than the target duration of the playlist.
pub proof fn target_duration_is_enough(runs: Seq<SegmentsTime>, i: int)
    requires
        0 <= i < runs.len(),
    ensures
        runs[i].duration <= target_seconds(runs) * 90_000,
{
    longest_duration_bounds(runs, i);
}

/// The target duration of a playlist is no longer than it has to be: where a run lasts at all,
/// some run lasts for more than one second less; it is zero where none does, and ten seconds for
/// a playlist without runs.
pub proof fn target_duration_is_least(runs: Seq<SegmentsTime>)
    ensures
        (exists|i: int| 0 <= i < runs.len() && (#[trigger] runs[i]).duration > 0) ==> exists|i: int|
            0 <= i < runs.len() && (#[trigger] runs[i]).duration > (target_seconds(runs) - 1)
                * 90_000,
        runs.len() > 0 && (forall|i: int| 0 <= i < runs.len() ==> (#[trigger] runs[i]).duration <= 0)
            ==> target_seconds(runs) == 0,
        runs.len() == 0 ==> target_seconds(runs) == 10,
{
    if runs.len() > 0 {
        longest_duration_is_there(runs);
        let i = choose|i: int|
            0 <= i < runs.len() && (#[trigger] runs[i]).duration == longest_duration(runs);
        if exists|j: int| 0 <= j < runs.len() && (#[trigger] runs[j]).duration > 0 {
            let j = choose|j: int| 0 <= j < runs.len() && (#[trigger] runs[j]).duration > 0;
            longest_duration_bounds(runs, j);
            assert(runs[i].duration > (target_seconds(runs) - 1) * 90_000);
        } else {
            assert(runs[i].duration <= 0);
        }
    }
}

proof fn longest_duration_is_there(runs: Seq<SegmentsTime>)
    requires
        runs.len() > 0,
    ensures
        exists|i: int|
            0 <= i < runs.len() && (#[trigger] runs[i]).duration == longest_duration(runs),
    decreases runs.len(),
{
    if runs.len() == 1 {
        assert(runs[0].duration == longest_duration(runs));
    } else {
        let before = runs.drop_last();
        longest_duration_is_there(before);
        let i = choose|i: int|
            0 <= i < before.len() && (#[trigger] before[i]).duration == longest_duration(before);
        assert(runs[i] == before[i]);
        assert(runs[runs.len() - 1] == runs.last());
    }
}

proof fn longest_duration_bounds(runs: Seq<SegmentsTime>, i: int)
    requires
        0 <= i < runs.len(),
    ensures
        runs[i].duration <= longest_duration(runs),
    decreases runs.len(),
{
    if runs.len() > 1 && i < runs.len() - 1 {
        longest_duration_bounds(runs.drop_last(), i);
    }
}

/// A playlist has no such segment.
#[derive(Debug, Clone, Copy, PartialEq, Eq, Structural)]
pub struct InvalidSegmentIndex;

impl InvalidSegmentIndex {
    pub fn message(&self) -> (r: String)
        ensures
            r@ == "Invalid segment index"@,
    {
        "Invalid segment index".to_owned()
    }
}

/// Where a segment of a playlist is.
pub fn segment_uri(segments: &Vec<MediaSegment>, index: usize) -> (r: Result<
    String,
    InvalidSegmentIndex,
>)
    ensures
        match r {
            Ok(uri) => index < segments@.len() && uri@ == segments@[index as int].uri@,
            Err(_) => index >= segments@.len(),
        },
{
    if index < segments.len() {
        Ok(segments[index].uri.clone())
    } else {
        Err(InvalidSegmentIndex)
    }
}

/// The segment that a request for the run from `start` up to `end` asks for behind `n` others,
/// where there is one.
pub fn requested_segment(imdb: Imdb, server_name: &str, start: usize, end: usize, n: usize) -> (r:
    Option<SegmentId>)
    ensures
        match r {
            Some(id) => start + n < end && id.segment_index == start + n && id.m3u8.imdb == imdb
                && id.m3u8.server_name@ == server_name@,
            None => start + n >= end,
        },
{
    if start >= end || n >= end - start {
        return None;
    }
    let m3u8 = M3U8CacheKey { imdb, server_name: server_name.to_owned() };
    Some(SegmentId { m3u8, segment_index: start + n })
}

/// The streams that are offered on are the first one that is not of single pictures with all
/// that stand before it, and behind it only those of single pictures; or all, if there is no such
/// one.
pub proof fn first_stream_and_pictures_are_kept(variants: Seq<(bool, Seq<char>)>, p: int)
    requires
        0 <= p <= variants.len(),
        forall|i: int| 0 <= i < p ==> (#[trigger] variants[i]).0,
        p < variants.len() ==> !variants[p].0,
    ensures
        p == variants.len() ==> kept(variants) == variants,
        p < variants.len() ==> kept(variants) == variants.take(p + 1) + variants.skip(
            p + 1,
        ).filter(|v: (bool, Seq<char>)| v.0),
    decreases variants.len(),
{
    reveal(Seq::filter);
    let picture = |v: (bool, Seq<char>)| v.0;
    if variants.len() > 0 {
        let before = variants.drop_last();
        let n = variants.len() - 1;
        if p == variants.len() {
            assert forall|i: int| 0 <= i < before.len() implies (#[trigger] before[i]).0 by {
                assert(variants[i].0);
            }
            first_stream_and_pictures_are_kept(before, p - 1);
            assert(variants[n].0);
            assert(kept(variants) =~= variants);
        } else if p == n {
            assert forall|i: int| 0 <= i < before.len() implies (#[trigger] before[i]).0 by {
                assert(variants[i].0);
            }
            first_stream_and_pictures_are_kept(before, p);
            assert(is_kept(variants, n));
            assert(variants.skip(p + 1) =~= Seq::empty());
            assert(kept(variants) =~= variants.take(p + 1) + variants.skip(p + 1).filter(picture));
        } else {
            assert forall|i: int| 0 <= i < p implies (#[trigger] before[i]).0 by {
                assert(variants[i].0);
            }
            assert(!before[p].0);
            first_stream_and_pictures_are_kept(before, p);
            assert(is_kept(variants, n) <==> variants[n].0) by {
                assert(!variants[p].0);
            }
            let rest = variants.skip(p + 1);
            assert(rest.drop_last() =~= before.skip(p + 1));
            assert(before.take(p + 1) =~= variants.take(p + 1));
            assert(kept(variants) =~= variants.take(p + 1) + rest.filter(picture));
        }
    } else {
        assert(kept(variants) =~= variants);
    }
}

/// The stream to play is the first that is not of single pictures; there is none only if all are.
pub proof fn first_stream_is_played(variants: Seq<(bool, Seq<char>)>)
    ensures
        match first_stream_uri(variants) {
            Some(uri) => exists|i: int|
                0 <= i < variants.len() && (#[trigger] variants[i]) == (false, uri) && forall|j: int|
                    0 <= j < i ==> (#[trigger] variants[j]).0,
            None => forall|j: int| 0 <= j < variants.len() ==> (#[trigger] variants[j]).0,
        },
    decreases variants.len(),
{
    if variants.len() > 0 {
        if !variants[0].0 {
            assert(variants[0] == (false, variants[0].1));
        } else {
            let rest = variants.skip(1);
            first_stream_is_played(rest);
            match first_stream_uri(rest) {
                Some(uri) => {
                    let i = choose|i: int|
                        0 <= i < rest.len() && (#[trigger] rest[i]) == (false, uri) && forall|j: int|
                            0 <= j < i ==> (#[trigger] rest[j]).0;
                    assert(variants[i + 1] == (false, uri));
                    assert forall|j: int| 0 <= j < i + 1 implies (#[trigger] variants[j]).0 by {
                        if j > 0 {
                            assert(rest[j - 1].0);
                        }
                    }
                },
                None => {
                    assert forall|j: int| 0 <= j < variants.len() implies (
                    #[trigger] variants[j]).0 by {
                        if j > 0 {
                            assert(rest[j - 1].0);
                        }
                    }
                },
            }
        }
    }
}

/// Where a movie is offered names its server and reads as its title.
pub open spec fn is_movie_base(
    base: Seq<char>,
    uses_https: bool,
    host: Seq<char>,
    key: M3U8CacheKey,
) -> bool {
    let scheme = if uses_https {
        "https://"@
    } else {
        "http://"@
    };
    let start = scheme + host + "/v1/api/"@ + key.server_name@ + "/"@;
    &&& start.is_prefix_of(base)
    &&& contracts::parsed_imdb(base.skip(start.len() as int)) == Some(key.imdb)
    &&& !base.skip(start.len() as int).contains('/')
}

/// Where a movie is offered names its server and reads as its title, with its episode.
pub proof fn movie_base_names_its_title(uses_https: bool, host: Seq<char>, key: M3U8CacheKey)
    ensures
        is_movie_base(movie_base(uses_https, host, key), uses_https, host, key),
{
    reveal_strlit("https");
    reveal_strlit("http");
    reveal_strlit("https://");
    reveal_strlit("http://");
    reveal_strlit("://");
    reveal_strlit("/");
    let scheme = if uses_https {
        "https://"@
    } else {
        "http://"@
    };
    let start = scheme + host + "/v1/api/"@ + key.server_name@ + "/"@;
    let title = contracts::imdb_text(key.imdb);
    let base = movie_base(uses_https, host, key);
    contracts::imdb_text_round_trip(key.imdb);
    contracts::imdb_text_holds_no(key.imdb, '/');
    assert(base =~= start + title);
    assert(base.skip(start.len() as int) =~= title);
    assert(base.subrange(0, start.len() as int) =~= start);
}

/// A playlist offers the streams of single pictures as they are, and in place of each other one
/// the playlist that is made here, which names the movie.
pub proof fn streams_are_played_here(
    variants: Seq<(bool, Seq<char>)>,
    uses_https: bool,
    host: Seq<char>,
    key: M3U8CacheKey,
    i: int,
)
    requires
        0 <= i < variants.len(),
    ensures
        ({
            let playlist = movie_base(uses_https, host, key) + "/m3u8/playlist.m3u8"@;
            let offered = offered_variants(variants, playlist);
            &&& offered.len() == variants.len()
            &&& offered[i].0 == variants[i].0
            &&& variants[i].0 ==> offered[i].1 == variants[i].1
            &&& !variants[i].0 ==> {
                let n = offered[i].1.len() - "/m3u8/playlist.m3u8"@.len();
                &&& offered[i].1.skip(n) == "/m3u8/playlist.m3u8"@
                &&& is_movie_base(offered[i].1.take(n), uses_https, host, key)
            }
        }),
{
    movie_base_names_its_title(uses_https, host, key);
    let base = movie_base(uses_https, host, key);
    let playlist = base + "/m3u8/playlist.m3u8"@;
    assert(playlist.take(base.len() as int) =~= base);
    assert(playlist.skip(base.len() as int) =~= "/m3u8/playlist.m3u8"@);
}

/// A playlist lists every run of a movie, in order and with its duration, under an address that
/// names the movie and whose last two names are read as the first segment of the run and the one
/// behind it.
pub proof fn runs_are_listed(
    uses_https: bool,
    host: Seq<char>,
    key: M3U8CacheKey,
    runs: Seq<SegmentsTime>,
    i: int,
)
    requires
        0 <= i < runs.len(),
    ensures
        ({
            let listed = offered_runs(uses_https, host, key, runs);
            let names = text::split_on(listed[i].0, '/');
            let n = names.len() as int;
            &&& listed.len() == runs.len()
            &&& listed[i].1 == runs[i].duration
            &&& n >= 2
            &&& text::parsed_decimal(names[n - 2], usize::MAX as nat) == Some(
                runs[i].segments_range.start as nat,
            )
            &&& text::parsed_decimal(names[n - 1], usize::MAX as nat) == Some(
                runs[i].segments_range.end as nat,
            )
            &&& exists|base: Seq<char>| #[trigger]
                is_movie_base(base, uses_https, host, key) && (base
                    + "/m3u8/segments/"@).is_prefix_of(listed[i].0)
        }),
{
    reveal_strlit("/m3u8/segments/");
    reveal_strlit("/m3u8/segments");
    reveal_strlit("/");
    movie_base_names_its_title(uses_https, host, key);
    let base = movie_base(uses_https, host, key);
    let range = runs[i].segments_range;
    let start = text::digits(range.start as nat);
    let end = text::digits(range.end as nat);
    text::padded_digits_parse(range.start as nat, 0, usize::MAX as nat);
    text::padded_digits_parse(range.end as nat, 0, usize::MAX as nat);
    text::digits_hold_no(start, '/');
    text::digits_hold_no(end, '/');
    let listed = offered_runs(uses_https, host, key, runs);
    let front = base + "/m3u8/segments"@;
    let middle = front.push('/') + start;
    assert(listed[i].0 =~= middle.push('/') + end);
    text::split_on_piece(front, start, '/');
    text::split_on_piece(middle, end, '/');
    text::split_on_nonempty(front, '/');
    let whole = base + "/m3u8/segments/"@;
    assert(listed[i].0.subrange(0, whole.len() as int) =~= whole);
    assert(is_movie_base(base, uses_https, host, key));
}

/// Whether a time is one that is known, or that of the first segment, which starts with the movie
/// if nothing else is known of it.
pub open spec fn known_or_first(times: Seq<OneSegmentTime>, one: OneSegmentTime) -> bool {
    ||| times.contains(one)
    ||| !time_cache::has_index(times, 0) && one == (OneSegmentTime {
        segment_index: 0,
        start_time: 0,
    })
}

/// Every run of a movie begins at a known time and lasts until the one that the next run begins
/// at, or until the end of the movie; and every known time begins a run.
pub proof fn runs_lie_between_known_times(
    times: Seq<OneSegmentTime>,
    order: Seq<OneSegmentTime>,
    segments_len: usize,
    movie_duration: i64,
)
    requires
        time_cache::sorts(order, with_first(times)),
    ensures
        ({
            let r = runs(order, segments_len, movie_duration);
            &&& r.len() == order.len()
            &&& r.len() == times.len() + if time_cache::has_index(times, 0) {
                0int
            } else {
                1int
            }
            &&& forall|i: int|
                0 <= i < r.len() ==> known_or_first(times, #[trigger] order[i])
                    && r[i].segments_range.start == order[i].segment_index
            &&& forall|t: OneSegmentTime|
                times.contains(t) ==> #[trigger] order.contains(t)
            &&& forall|i: int|
                0 <= i < r.len() - 1 ==> (#[trigger] r[i]).segments_range.end == order[i
                    + 1].segment_index && r[i].duration == to_ticks(
                    order[i + 1].start_time - order[i].start_time,
                )
            &&& r.last().segments_range.end == segments_len && r.last().duration == to_ticks(
                movie_duration - order.last().start_time,
            )
        }),
{
    let all = with_first(times);
    order.to_multiset_ensures();
    all.to_multiset_ensures();
    runs_cover_the_movie(times, order, segments_len, movie_duration);
    assert forall|i: int| 0 <= i < order.len() implies known_or_first(
        times,
        #[trigger] order[i],
    ) by {
        assert(order.contains(order[i]));
        assert(order.to_multiset().count(order[i]) > 0);
        assert(all.contains(order[i]));
        let k = choose|k: int| 0 <= k < all.len() && all[k] == order[i];
        if k < times.len() {
            assert(times[k] == all[k]);
            assert(times.contains(order[i]));
        }
    }
    assert forall|t: OneSegmentTime| times.contains(t) implies #[trigger] order.contains(t) by {
        let k = choose|k: int| 0 <= k < times.len() && times[k] == t;
        assert(all[k] == t);
        assert(all.contains(t));
        assert(all.to_multiset().count(t) > 0);
        assert(order.to_multiset().count(t) > 0);
    }
}

/// How many ticks a number of seconds has that is written without a point.
pub proof fn whole_seconds_have_their_ticks(seconds: nat)
    requires
        seconds <= u64::MAX,
    ensures
        written_ticks(text::digits(seconds)) == to_ticks(seconds as int * 90_000),
{
    let s = text::digits(seconds);
    text::padded_digits_parse(seconds, 0, u64::MAX as nat);
    text::digits_hold_no(s, '.');
    text::split_on_whole(s, '.');
}

/// The digits behind a point count for the ticks in the fraction that they write, rounded down.
pub proof fn fraction_is_rounded_down(digits: Seq<char>)
    requires
        text::all_digits(digits),
    ensures
        ({
            let whole = vstd::arithmetic::power::pow(10, digits.len());
            &&& fraction_ticks(digits) * whole <= 90_000 * text::decimal_value(digits)
            &&& 90_000 * text::decimal_value(digits) < (fraction_ticks(digits) + 1) * whole
            &&& text::decimal_value(digits) < whole
        }),
    decreases digits.len(),
{
    if digits.len() == 0 {
        vstd::arithmetic::power::lemma_pow0(10);
    } else {
        let rest = digits.skip(1);
        assert forall|i: int| 0 <= i < rest.len() implies text::is_digit(#[trigger] rest[i]) by {
            assert(rest[i] == digits[i + 1]);
        }
        fraction_is_rounded_down(rest);
        leading_digit_counts(digits);
        let d = digits[0] as int - '0' as int;
        assert(text::is_digit(digits[0]));
        let w = vstd::arithmetic::power::pow(10, rest.len());
        vstd::arithmetic::power::lemma_pow1(10);
        vstd::arithmetic::power::lemma_pow_adds(10, 1, rest.len());
        let whole = vstd::arithmetic::power::pow(10, digits.len());
        assert(whole == 10 * w);
        vstd::arithmetic::power::lemma_pow_positive(10, rest.len());
        let f = fraction_ticks(rest) as int;
        let v = text::decimal_value(rest) as int;
        let g = fraction_ticks(digits) as int;
        let top = 90_000 * d + f;
        assert(10 * g <= top && top < 10 * g + 10);
        assert(g * whole <= 90_000 * (d * w + v)) by (nonlinear_arith)
            requires
                10 * g <= top,
                top == 90_000 * d + f,
                f * w <= 90_000 * v,
                whole == 10 * w,
                w > 0,
        ;
        assert(90_000 * (d * w + v) < (g + 1) * whole) by (nonlinear_arith)
            requires
                top <= 10 * g + 9,
                top == 90_000 * d + f,
                90_000 * v < (f + 1) * w,
                whole == 10 * w,
                w > 0,
        ;
        assert(d * w + v < whole) by (nonlinear_arith)
            requires
                d <= 9,
                v < w,
                whole == 10 * w,
                w > 0,
        ;
    }
}

proof fn leading_digit_counts(digits: Seq<char>)
    requires
        digits.len() > 0,
        text::all_digits(digits),
    ensures
        text::decimal_value(digits) == (digits[0] as int - '0' as int)
            * vstd::arithmetic::power::pow(10, (digits.len() - 1) as nat) + text::decimal_value(
            digits.skip(1),
        ),
    decreases digits.len(),
{
    let d = digits[0] as int - '0' as int;
    let last = digits.last() as int - '0' as int;
    assert(text::is_digit(digits[digits.len() - 1]));
    assert(text::is_digit(digits[0]));
    if digits.len() == 1 {
        vstd::arithmetic::power::lemma_pow0(10);
        assert(text::decimal_value(digits.skip(1)) == 0);
        assert(digits.drop_last().len() == 0);
        assert(text::decimal_value(digits.drop_last()) == 0);
    } else {
        let head = digits.drop_last();
        let rest = digits.skip(1);
        assert forall|i: int| 0 <= i < head.len() implies text::is_digit(#[trigger] head[i]) by {
            assert(head[i] == digits[i]);
        }
        leading_digit_counts(head);
        assert(rest.drop_last() =~= head.skip(1));
        assert(rest.last() == digits.last());
        let n = (digits.len() - 2) as nat;
        let w = vstd::arithmetic::power::pow(10, n);
        vstd::arithmetic::power::lemma_pow1(10);
        vstd::arithmetic::power::lemma_pow_adds(10, 1, n);
        let v = text::decimal_value(head.skip(1)) as int;
        assert((d * w + v) * 10 + last == d * (10 * w) + (v * 10 + last)) by (nonlinear_arith);
    }
}

/// A duration that is written with a point has the ticks of the seconds before it and those of
/// the fraction behind it.
pub proof fn written_fractions_have_their_ticks(seconds: nat, fraction: Seq<char>)
    requires
        seconds <= u64::MAX,
        text::all_digits(fraction),
    ensures
        written_ticks(text::digits(seconds).push('.') + fraction) == to_ticks(
            seconds as int * 90_000 + fraction_ticks(fraction),
        ),
{
    let s = text::digits(seconds);
    text::padded_digits_parse(seconds, 0, u64::MAX as nat);
    text::digits_hold_no(s, '.');
    text::digits_hold_no(fraction, '.');
    text::split_on_whole(s, '.');
    text::split_on_piece(s, fraction, '.');
}

/// Every segment that a playlist lists is read, in order, with its address as it is and with the
/// ticks of its own duration.
pub proof fn every_listed_segment_is_read(segments: Seq<(Seq<char>, Seq<char>)>, i: int)
    requires
        0 <= i < segments.len(),
    ensures
        timed(segments).len() == segments.len(),
        timed(segments)[i].0 == segments[i].0,
        timed(segments)[i].1 == written_ticks(segments[i].1),
{
}

/// A movie lasts as long as each of its segments lasts, taken together.
pub proof fn every_duration_counts(segments: Seq<(Seq<char>, i64)>, i: int)
    requires
        0 <= i < segments.len(),
    ensures
        durations_of(segments).len() == segments.len(),
        durations_of(segments)[i] == segments[i].1,
{
}

} // verus!
