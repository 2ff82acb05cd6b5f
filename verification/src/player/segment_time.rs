//! Asking a server for the beginning of a segment until the time in it was read.

use crate::text;
use crate::ts_parser::PACKET_SIZE;
use vstd::prelude::*;

verus! {

/// How many packets are asked for first.
pub const NARROW_PACKETS: usize = 3;

/// Up to which packet is asked for when the time was not in the first ones.
pub const WIDE_PACKETS: usize = 20;

/// How often the first packets are asked for.
pub const ATTEMPTS: u64 = 10;

/// How long to wait between two attempts, in milliseconds.
pub const RETRY_MILLIS: u64 = 2000;

/// Why the time of a segment is not known.
#[derive(Debug)]
pub enum GetSegmentTimeError {
    /// The deadline is too close for another attempt.
    Timeout,
    /// The segment is empty.
    NothingFound,
    /// The segment ends before the packets that would be looked at.
    Stopped,
    /// There is no time in the packets that were looked at.
    NoTimePacket,
    /// The later packets could not be had.
    Request(String),
    /// Every attempt failed.
    TooManyRetries,
}

impl GetSegmentTimeError {
    /// The text of the error.
    pub open spec fn text(&self) -> Seq<char> {
        match self {
            GetSegmentTimeError::Timeout => "Timeout waiting to get the segment time"@,
            GetSegmentTimeError::NothingFound => "Nothing found"@,
            GetSegmentTimeError::Stopped => "The function should be stopped"@,
            GetSegmentTimeError::NoTimePacket => "Can't find the time packet in segments 3..15"@,
            GetSegmentTimeError::Request(error) => error@,
            GetSegmentTimeError::TooManyRetries => "Too many retries"@,
        }
    }

    pub fn message(&self) -> (r: String)
        ensures
            r@ == self.text(),
    {
        match self {
            GetSegmentTimeError::Timeout => "Timeout waiting to get the segment time".to_owned(),
            GetSegmentTimeError::NothingFound => "Nothing found".to_owned(),
            GetSegmentTimeError::Stopped => "The function should be stopped".to_owned(),
            GetSegmentTimeError::NoTimePacket => {
                "Can't find the time packet in segments 3..15".to_owned()
            },
            GetSegmentTimeError::Request(error) => error.clone(),
            GetSegmentTimeError::TooManyRetries => "Too many retries".to_owned(),
        }
    }
}

/// What to do next to learn the time of a segment.
#[derive(Debug)]
pub enum SegmentTimeStep {
    /// Ask for the bytes that this range header names.
    Request(String),
    /// Wait, then start another attempt.
    Wait,
    /// The segment starts at this time.
    Found(i64),
    /// Give up.
    Fail(GetSegmentTimeError),
}

/// How far the attempts to learn the time of a segment have come.
#[derive(Debug, Clone, Copy, PartialEq, Eq, Structural)]
pub struct SegmentTimeFetch {
    pub content_length: Option<usize>,
    pub attempts_left: u64,
    pub wide: bool,
}

/// The first byte that is asked for.
pub open spec fn first_byte(wide: bool) -> nat {
    if wide {
        (NARROW_PACKETS * PACKET_SIZE) as nat
    } else {
        0
    }
}

/// The byte that ends the request.
pub open spec fn end_byte(wide: bool) -> nat {
    if wide {
        (WIDE_PACKETS * PACKET_SIZE) as nat
    } else {
        (NARROW_PACKETS * PACKET_SIZE) as nat
    }
}

/// The range header for a request: none if the segment, as far as its length is known,
/// ends before the first byte, and open-ended if it ends before the last one.
pub open spec fn range_header(wide: bool, content_length: Option<usize>) -> Option<Seq<char>> {
    let open = "bytes="@ + text::digits(first_byte(wide)) + "-"@;
    match content_length {
        Some(length) => if first_byte(wide) >= length {
            None
        } else if end_byte(wide) >= length {
            Some(open)
        } else {
            Some(open + text::digits(end_byte(wide)))
        },
        None => Some(open + text::digits(end_byte(wide))),
    }
}

/// The length that a content range names behind its slash.
pub open spec fn length_in(content_range: Seq<char>) -> Option<nat> {
    match text::behind_first(content_range, '/') {
        Some(length) => text::parsed_decimal(length, usize::MAX as nat),
        None => None,
    }
}

fn range_to_request(wide: bool, content_length: Option<usize>) -> (r: Option<String>)
    ensures
        r is Some <==> range_header(wide, content_length) is Some,
        r matches Some(header) ==> range_header(wide, content_length) == Some(header@),
{
    let start: usize = if wide {
        NARROW_PACKETS * PACKET_SIZE
    } else {
        0
    };
    let end: usize = if wide {
        WIDE_PACKETS * PACKET_SIZE
    } else {
        NARROW_PACKETS * PACKET_SIZE
    };
    let mut header = "bytes=".to_owned();
    text::push_decimal(&mut header, start as u64);
    header.append("-");
    match content_length {
        Some(length) => {
            if start >= length {
                return None;
            }
            if end >= length {
                return Some(header);
            }
        },
        None => {},
    }
    text::push_decimal(&mut header, end as u64);
    Some(header)
}

/// How far the attempts have come once another one was started.
pub open spec fn attempted(fetch: SegmentTimeFetch) -> SegmentTimeFetch {
    SegmentTimeFetch {
        content_length: fetch.content_length,
        attempts_left: (fetch.attempts_left - 1) as u64,
        wide: false,
    }
}

/// How far the attempts have come once so many more were started.
pub open spec fn attempted_often(fetch: SegmentTimeFetch, n: nat) -> SegmentTimeFetch
    decreases n,
{
    if n == 0 {
        fetch
    } else {
        attempted(attempted_often(fetch, (n - 1) as nat))
    }
}

/// A server is asked for the beginning of a segment ten times and no more.
pub proof fn attempts_run_out(fetch: SegmentTimeFetch, n: nat)
    requires
        fetch.attempts_left == ATTEMPTS,
        n <= ATTEMPTS,
    ensures
        attempted_often(fetch, n).attempts_left == ATTEMPTS - n,
    decreases n,
{
    if n > 0 {
        attempts_run_out(fetch, (n - 1) as nat);
    }
}

impl SegmentTimeFetch {
    pub fn new() -> (r: Self)
        ensures
            r == (Self { content_length: None, attempts_left: ATTEMPTS, wide: false }),
    {
        Self { content_length: None, attempts_left: ATTEMPTS, wide: false }
    }

    /// Starts an attempt, while there are any left.
    pub fn start(&mut self) -> (r: SegmentTimeStep)
        ensures
            old(self).attempts_left == 0 ==> *final(self) == *old(self) && r
                == SegmentTimeStep::Fail(GetSegmentTimeError::TooManyRetries),
            old(self).attempts_left > 0 ==> {
                &&& *final(self) == attempted(*old(self))
                &&& match range_header(false, old(self).content_length) {
                    Some(header) => r matches SegmentTimeStep::Request(text) && text@ == header,
                    None => r == SegmentTimeStep::Fail(GetSegmentTimeError::NothingFound),
                }
            },
    {
        if self.attempts_left == 0 {
            return SegmentTimeStep::Fail(GetSegmentTimeError::TooManyRetries);
        }
        self.attempts_left = self.attempts_left - 1;
        self.wide = false;
        match range_to_request(false, self.content_length) {
            Some(header) => SegmentTimeStep::Request(header),
            None => SegmentTimeStep::Fail(GetSegmentTimeError::NothingFound),
        }
    }

    /// Learns how long the segment is from the content range of a reply, unless that is
    /// known already.
    pub fn learn_length(&mut self, content_range: Option<&str>)
        ensures
            final(self).attempts_left == old(self).attempts_left,
            final(self).wide == old(self).wide,
            old(self).content_length is Some ==> final(self).content_length == old(
                self,
            ).content_length,
            old(self).content_length is None ==> match content_range {
                Some(text) => match length_in(text@) {
                    Some(length) => final(self).content_length == Some(length as usize),
                    None => final(self).content_length is None,
                },
                None => final(self).content_length is None,
            },
    {
        if self.content_length.is_some() {
            return ;
        }
        match content_range {
            Some(range) => {
                let chars = text::chars_of(range);
                match text::after_first(&chars, '/') {
                    Some(length) => {
                        self.content_length = match text::parse_decimal(
                            &length,
                            usize::MAX as u64,
                        ) {
                            Some(n) => Some(n as usize),
                            None => None,
                        };
                    },
                    None => {},
                }
            },
            None => {},
        }
    }

    /// Takes what was read from the bytes of a reply.
    pub fn replied(&mut self, time: Option<i64>) -> (r: SegmentTimeStep)
        ensures
            final(self).content_length == old(self).content_length,
            final(self).attempts_left == old(self).attempts_left,
            time matches Some(t) ==> *final(self) == *old(self) && r == SegmentTimeStep::Found(t),
            time is None && old(self).wide ==> *final(self) == *old(self) && r
                == SegmentTimeStep::Fail(GetSegmentTimeError::NoTimePacket),
            time is None && !old(self).wide ==> {
                &&& final(self).wide
                &&& match range_header(true, old(self).content_length) {
                    Some(header) => r matches SegmentTimeStep::Request(text) && text@ == header,
                    None => r == SegmentTimeStep::Fail(GetSegmentTimeError::Stopped),
                }
            },
    {
        match time {
            Some(t) => SegmentTimeStep::Found(t),
            None => {
                if self.wide {
                    return SegmentTimeStep::Fail(GetSegmentTimeError::NoTimePacket);
                }
                self.wide = true;
                match range_to_request(true, self.content_length) {
                    Some(header) => SegmentTimeStep::Request(header),
                    None => SegmentTimeStep::Fail(GetSegmentTimeError::Stopped),
                }
            },
        }
    }

    /// Takes note that a request failed. A failure to get the first packets is worth
    /// another attempt, unless the deadline comes before it; `now` and the deadline are in
    /// milliseconds.
    pub fn failed(&self, error: String, deadline: Option<u64>, now: u64) -> (r: SegmentTimeStep)
        ensures
            self.wide ==> r == SegmentTimeStep::Fail(GetSegmentTimeError::Request(error)),
            !self.wide ==> r == match deadline {
                Some(d) => if now + RETRY_MILLIS < d {
                    SegmentTimeStep::Wait
                } else {
                    SegmentTimeStep::Fail(GetSegmentTimeError::Timeout)
                },
                None => SegmentTimeStep::Wait,
            },
    {
        if self.wide {
            return SegmentTimeStep::Fail(GetSegmentTimeError::Request(error));
        }
        match deadline {
            Some(d) => {
                if (now as u128) + (RETRY_MILLIS as u128) < d as u128 {
                    SegmentTimeStep::Wait
                } else {
                    SegmentTimeStep::Fail(GetSegmentTimeError::Timeout)
                }
            },
            None => SegmentTimeStep::Wait,
        }
    }
}

/// The second request of an attempt goes on where the first one ended. A request is made exactly
/// if the segment, as far as its length is known, has the byte that it starts with; it names that
/// byte and, unless the segment ends before, the one that it ends with.
pub proof fn requests_follow_one_another(wide: bool, content_length: Option<usize>)
    ensures
        first_byte(false) == 0,
        first_byte(true) == end_byte(false),
        end_byte(false) == 3 * 188,
        end_byte(true) == 20 * 188,
        range_header(wide, content_length) is Some <==> (content_length matches Some(length)
            ==> first_byte(wide) < length),
        range_header(wide, content_length) matches Some(header) ==> {
            let numbers = text::split_on(header.skip("bytes="@.len() as int), '-');
            &&& "bytes="@.is_prefix_of(header)
            &&& numbers.len() == 2
            &&& text::parsed_decimal(numbers[0], u64::MAX as nat) == Some(first_byte(wide))
            &&& (content_length matches Some(length) && length <= end_byte(wide)) ==> numbers[1].len()
                == 0
            &&& !(content_length matches Some(length) && length <= end_byte(wide))
                ==> text::parsed_decimal(numbers[1], u64::MAX as nat) == Some(end_byte(wide))
        },
{
    reveal_strlit("-");
    match range_header(wide, content_length) {
        Some(header) => {
            let first = text::digits(first_byte(wide));
            let end = text::digits(end_byte(wide));
            let empty = Seq::<char>::empty();
            text::padded_digits_parse(first_byte(wide), 0, u64::MAX as nat);
            text::padded_digits_parse(end_byte(wide), 0, u64::MAX as nat);
            text::digits_hold_no(first, '-');
            text::digits_hold_no(end, '-');
            text::split_on_whole(first, '-');
            text::split_on_piece(first, end, '-');
            text::split_on_piece(first, empty, '-');
            let n = "bytes="@.len() as int;
            assert(header.subrange(0, n) =~= "bytes="@);
            if content_length matches Some(length) && length <= end_byte(wide) {
                assert(header.skip(n) =~= first.push('-') + empty);
            } else {
                assert(header.skip(n) =~= first.push('-') + end);
            }
        },
        None => {},
    }
}

/// The length of a segment is read from behind the slash of a content range.
pub proof fn length_is_read(front: Seq<char>, length: nat)
    requires
        !front.contains('/'),
        length <= usize::MAX,
    ensures
        length_in(front.push('/') + text::digits(length)) == Some(length),
    decreases front.len(),
{
    let digits = text::digits(length);
    let all = front.push('/') + digits;
    text::padded_digits_parse(length, 0, usize::MAX as nat);
    if front.len() == 0 {
        assert(all.skip(1) =~= digits);
    } else {
        let rest = front.skip(1);
        assert(front[0] != '/') by {
            assert(front.contains(front[0]));
        }
        assert(!rest.contains('/')) by {
            if rest.contains('/') {
                let i = choose|i: int| 0 <= i < rest.len() && rest[i] == '/';
                assert(front[i + 1] == '/');
            }
        }
        length_is_read(rest, length);
        assert(all.skip(1) =~= rest.push('/') + digits);
    }
}

/// Another attempt starts with the first packets again, and what is known of the length stays.
pub proof fn attempts_keep_the_length(fetch: SegmentTimeFetch, n: nat)
    ensures
        attempted_often(fetch, n).content_length == fetch.content_length,
        n > 0 ==> !attempted_often(fetch, n).wide,
    decreases n,
{
    if n > 0 {
        attempts_keep_the_length(fetch, (n - 1) as nat);
    }
}

} // verus!
