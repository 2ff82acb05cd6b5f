//! Answering requests for a part of some content.

use crate::buffers;
use crate::buffers::contents;
use axum_extra::headers::Header;
use bytes::Bytes;
use std::ops::Bound;
use vstd::prelude::*;

verus! {

/// Says of an answer that it is not worth a line in the log.
#[derive(Debug, Clone, Copy, PartialEq, Eq, Structural)]
pub struct DontLog;

/// An answer that is not worth a line in the log.
pub struct DontLogResponse<T>(pub T);

/// The ranges that a range header asks for and that content of some length has, in order: of
/// each its first and its last byte, where they are given. There is nothing for a text that is
/// no such header.
pub uninterp spec fn satisfiable_ranges(header: Seq<char>, length: u64) -> Option<
    Seq<(Option<u64>, Option<u64>)>,
>;

/// `headers::Range` decoded from a header, and its `satisfiable_ranges`: a function of the
/// header and the length.
#[verifier::external_body]
fn read_ranges(header: &str, length: u64) -> (r: Option<Vec<(Option<u64>, Option<u64>)>>)
    ensures
        r is Some <==> satisfiable_ranges(header@, length) is Some,
        r matches Some(ranges) ==> satisfiable_ranges(header@, length) == Some(ranges@),
{
    let value = axum_extra::headers::HeaderValue::from_str(header).ok()?;
    let range = axum_extra::headers::Range::decode(&mut std::iter::once(&value)).ok()?;
    let plain = |bound: Bound<u64>| match bound {
        Bound::Included(byte) => Some(byte),
        Bound::Excluded(_) => None,
        Bound::Unbounded => None,
    };
    Some(range.satisfiable_ranges(length).map(|(start, end)| (plain(start), plain(end))).collect())
}

/// The range that is answered of several: the first.
pub open spec fn first_range(ranges: Option<Seq<(Option<u64>, Option<u64>)>>) -> Option<
    (Option<u64>, Option<u64>),
> {
    match ranges {
        Some(ranges) => if ranges.len() > 0 {
            Some(ranges[0])
        } else {
            None
        },
        None => None,
    }
}

/// Picks the range that is answered of several.
pub fn range_to_answer(ranges: &Vec<(Option<u64>, Option<u64>)>) -> (r: Option<
    (Option<u64>, Option<u64>),
>)
    ensures
        r == first_range(Some(ranges@)),
{
    if ranges.len() > 0 {
        Some(ranges[0])
    } else {
        None
    }
}

/// Which bytes of some content are sent, the last included, and how long all of it is.
/// Without a range none could be sent.
#[derive(Debug, Clone, Copy, PartialEq, Eq)]
pub struct ContentRange {
    pub range: Option<(u64, u64)>,
    pub complete_length: u64,
}

/// Content, and the range of it that a request asks for.
pub struct Ranged {
    pub range: Option<String>,
    pub body: Bytes,
}

/// A part of some content.
pub struct RangedResponse {
    pub content_range: Option<ContentRange>,
    pub content_length: u64,
    pub stream: Bytes,
}

/// The part that is asked for is empty, or the content does not have it.
#[derive(Debug, Clone, Copy, PartialEq, Eq)]
pub struct RangeNotSatisfiable(pub ContentRange);

/// Where a part starts.
pub open spec fn part_start(bounds: Option<(Option<u64>, Option<u64>)>) -> nat {
    match bounds {
        Some((Some(start), _)) => start as nat,
        _ => 0,
    }
}

/// Where a part ends, the end not included.
pub open spec fn part_end(bounds: Option<(Option<u64>, Option<u64>)>, total: nat) -> nat {
    match bounds {
        Some((_, Some(end))) => if end >= total {
            total
        } else {
            (end + 1) as nat
        },
        _ => total,
    }
}

/// Whether `r` is the answer to a request for the part of a body within some bounds.
pub open spec fn is_part(
    r: Result<RangedResponse, RangeNotSatisfiable>,
    bounds: Option<(Option<u64>, Option<u64>)>,
    body: Seq<u8>,
) -> bool {
    let start = part_start(bounds);
    let end = part_end(bounds, body.len());
    match r {
        Ok(response) => {
            &&& start < end
            &&& contents(response.stream) == body.subrange(start as int, end as int)
            &&& response.content_length == end - start
            &&& response.content_range == match bounds {
                Some(_) => Some(
                    ContentRange {
                        range: Some((start as u64, (end - 1) as u64)),
                        complete_length: body.len() as u64,
                    },
                ),
                None => None,
            }
        },
        Err(e) => start >= end && e.0 == (ContentRange {
            range: None,
            complete_length: body.len() as u64,
        }),
    }
}

/// Answers a request for the part of a body within some bounds.
pub fn respond(body: &Bytes, bounds: Option<(Option<u64>, Option<u64>)>) -> (r: Result<
    RangedResponse,
    RangeNotSatisfiable,
>)
    ensures
        is_part(r, bounds, contents(*body)),
{
    let total: usize = buffers::length(body);
    let total_bytes: u64 = total as u64;
    let start: u64 = match bounds {
        Some((Some(start), _)) => start,
        _ => 0,
    };
    let end: u64 = match bounds {
        Some((_, Some(end))) => {
            if end >= total_bytes {
                total_bytes
            } else {
                end + 1
            }
        },
        _ => total_bytes,
    };
    if start >= end {
        return Err(
            RangeNotSatisfiable(ContentRange { range: None, complete_length: total_bytes }),
        );
    }
    let content_range = match bounds {
        Some(_) => Some(
            ContentRange { range: Some((start, end - 1)), complete_length: total_bytes },
        ),
        None => None,
    };
    let stream = buffers::slice(body, start as usize, end as usize);
    Ok(RangedResponse { content_range, content_length: end - start, stream })
}

impl Ranged {
    /// Content, and the range header of the request for it, where it has one.
    pub fn new(range: Option<String>, body: Bytes) -> (r: Self)
        ensures
            r.range == range,
            r.body == body,
    {
        Self { range, body }
    }

    /// Answers the request. Of several ranges the first that the content has is sent.
    pub fn try_respond(self) -> (r: Result<RangedResponse, RangeNotSatisfiable>)
        ensures
            ({
                let body = contents(self.body);
                let bounds = match self.range {
                    Some(header) => first_range(
                        satisfiable_ranges(header@, body.len() as u64),
                    ),
                    None => None,
                };
                is_part(r, bounds, body)
            }),
    {
        let total: usize = buffers::length(&self.body);
        let bounds = match &self.range {
            Some(header) => match read_ranges(header.as_str(), total as u64) {
                Some(ranges) => range_to_answer(&ranges),
                None => None,
            },
            None => None,
        };
        respond(&self.body, bounds)
    }
}

impl RangedResponse {
    /// The status of the answer: partial content where a range was asked for.
    pub fn status(&self) -> (r: u16)
        ensures
            r == if self.content_range is Some {
                206u16
            } else {
                200u16
            },
    {
        if self.content_range.is_some() {
            206
        } else {
            200
        }
    }
}

impl RangeNotSatisfiable {
    /// The status of the answer.
    pub fn status(&self) -> (r: u16)
        ensures
            r == 416,
    {
        416
    }
}

/// Who asks for one part of a body up to some byte and for the other from there on gets all
/// of it.
pub proof fn parts_make_the_body(
    body: Seq<u8>,
    at: u64,
    first: RangedResponse,
    second: RangedResponse,
)
    requires
        0 < at < body.len() <= u64::MAX,
        is_part(Ok(first), Some((Some(0), Some((at - 1) as u64))), body),
        is_part(Ok(second), Some((Some(at), None)), body),
    ensures
        contents(first.stream) + contents(second.stream) == body,
{
    assert(contents(first.stream) + contents(second.stream) =~= body);
}

/// The part that is sent is the one that was asked for, from its first byte to its last or to the
/// end of the content, and the answer says which bytes these are.
pub proof fn part_is_what_was_asked_for(
    response: RangedResponse,
    start: u64,
    end: Option<u64>,
    body: Seq<u8>,
)
    requires
        body.len() <= u64::MAX,
        is_part(Ok(response), Some((Some(start), end)), body),
    ensures
        ({
            let sent = contents(response.stream);
            &&& start < body.len()
            &&& sent.len() == response.content_length
            &&& forall|i: int| 0 <= i < sent.len() ==> #[trigger] sent[i] == body[start + i]
            &&& match end {
                Some(last) => sent.len() == if last < body.len() {
                    last - start + 1
                } else {
                    body.len() - start
                },
                None => sent.len() == body.len() - start,
            }
            &&& response.content_range matches Some(range) && range.range == Some(
                (start, (start + sent.len() - 1) as u64),
            ) && range.complete_length == body.len()
        }),
{
}

/// Without a range all of the content is sent, and the answer names no range.
pub proof fn everything_is_sent_without_a_range(response: RangedResponse, body: Seq<u8>)
    requires
        is_part(Ok(response), None, body),
    ensures
        contents(response.stream) == body,
        response.content_length == body.len(),
        response.content_range is None,
{
    assert(contents(response.stream) =~= body);
}

/// A request is refused exactly if the content has none of the bytes that are asked for; the
/// answer then says how long the content is.
pub proof fn only_missing_parts_are_refused(
    r: Result<RangedResponse, RangeNotSatisfiable>,
    start: u64,
    end: Option<u64>,
    body: Seq<u8>,
)
    requires
        body.len() <= u64::MAX,
        is_part(r, Some((Some(start), end)), body),
    ensures
        r is Err <==> start >= body.len() || (end matches Some(last) && last < start),
        r matches Err(e) ==> e.0.range is None && e.0.complete_length == body.len(),
{
}

/// Of several ranges the first is answered; without any, none is.
pub proof fn first_range_is_answered(
    range: (Option<u64>, Option<u64>),
    others: Seq<(Option<u64>, Option<u64>)>,
)
    ensures
        first_range(Some(seq![range] + others)) == Some(range),
        first_range(Some(Seq::empty())) is None,
        first_range(None) is None,
{
}

} // verus!
