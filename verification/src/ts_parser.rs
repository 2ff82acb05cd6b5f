//! Reading the times from a transport stream that arrives in pieces.

use crate::buffers;
use crate::buffers::contents;
use bytes::Bytes;
use vstd::prelude::*;

verus! {

/// How many bytes a packet of a transport stream has.
pub const PACKET_SIZE: usize = 188;

/// The byte that every packet begins with.
pub const SYNC_BYTE: u8 = 0x47;

/// The packets with this number say which programs there are.
pub const PAT_PID: u16 = 0;

/// How many of `n` bytes make up whole packets.
pub open spec fn whole(n: nat) -> nat {
    n / 188 * 188
}

/// The whole packets of some bytes.
pub open spec fn packets(bytes: Seq<u8>) -> Seq<u8> {
    bytes.take(whole(bytes.len()) as int)
}

/// What is left of some bytes behind their whole packets.
pub open spec fn remainder(bytes: Seq<u8>) -> Seq<u8> {
    bytes.skip(whole(bytes.len()) as int)
}

/// A kind of packets that a filter is wanted for.
#[derive(Debug, Clone, Copy, PartialEq, Eq, Structural)]
pub enum FilterRequest {
    /// Packets with a number.
    ByPid(u16),
    /// Packets that say which streams a program has.
    Pmt,
    /// Packets of a stream, by its number and the number of the stream with the clock.
    ByStream { elementary_pid: u16, pcr_pid: u16 },
    /// Packets about the network.
    Nit,
}

/// What is done with packets.
#[derive(Debug, Clone, Copy, PartialEq, Eq, Structural)]
pub enum FilterKind {
    /// They are read for the programs.
    Pat,
    /// They are read for the streams of a program.
    Pmt,
    /// They are read for the times.
    Pes,
    /// They are passed over.
    Null,
}

/// The times that were read from a stream.
#[derive(Debug, Clone, Copy, PartialEq, Eq, Structural)]
pub struct PcrDumpDemuxContext {
    pub first: Option<i64>,
    pub last: Option<i64>,
    pub only_start_time: bool,
}

impl PcrDumpDemuxContext {
    /// Whether nothing more is wanted.
    pub open spec fn satisfied(&self) -> bool {
        self.only_start_time && self.first is Some
    }

    /// A first and a last time are there together, and they are one where only the first is
    /// wanted.
    pub open spec fn well_formed(&self) -> bool {
        &&& self.first is Some <==> self.last is Some
        &&& self.only_start_time ==> self.last == self.first
    }

    /// The times once a packet began, at the time that it names or at none.
    pub open spec fn after_packet(self, presentation_time: Option<i64>) -> Self {
        if self.satisfied() || presentation_time is None {
            self
        } else {
            PcrDumpDemuxContext {
                first: if self.first is Some {
                    self.first
                } else {
                    presentation_time
                },
                last: presentation_time,
                only_start_time: self.only_start_time,
            }
        }
    }

    /// The times once some packets began, one after the other.
    pub open spec fn after_packets(self, presentation_times: Seq<Option<i64>>) -> Self
        decreases presentation_times.len(),
    {
        if presentation_times.len() == 0 {
            self
        } else {
            self.after_packets(presentation_times.drop_last()).after_packet(
                presentation_times.last(),
            )
        }
    }

    pub fn new(only_start_time: bool) -> (r: Self)
        ensures
            r == (Self { first: None, last: None, only_start_time }),
            r.well_formed(),
    {
        Self { first: None, last: None, only_start_time }
    }

    /// What is done with packets of a kind: the programs and their streams are read, and the
    /// times in the stream that has the clock, until nothing more is wanted.
    pub fn construct(&self, request: FilterRequest) -> (r: FilterKind)
        ensures
            r == if self.satisfied() {
                FilterKind::Null
            } else {
                match request {
                    FilterRequest::ByPid(pid) => if pid == PAT_PID {
                        FilterKind::Pat
                    } else {
                        FilterKind::Null
                    },
                    FilterRequest::Pmt => FilterKind::Pmt,
                    FilterRequest::ByStream { elementary_pid, pcr_pid } => if elementary_pid
                        == pcr_pid {
                        FilterKind::Pes
                    } else {
                        FilterKind::Null
                    },
                    FilterRequest::Nit => FilterKind::Null,
                }
            },
    {
        if self.only_start_time && self.first.is_some() {
            return FilterKind::Null;
        }
        match request {
            FilterRequest::ByPid(pid) => {
                if pid == PAT_PID {
                    FilterKind::Pat
                } else {
                    FilterKind::Null
                }
            },
            FilterRequest::Pmt => FilterKind::Pmt,
            FilterRequest::ByStream { elementary_pid, pcr_pid } => {
                if elementary_pid == pcr_pid {
                    FilterKind::Pes
                } else {
                    FilterKind::Null
                }
            },
            FilterRequest::Nit => FilterKind::Null,
        }
    }

    /// Takes the presentation time at the start of a packet, where there is one.
    pub fn begin_packet(&mut self, presentation_time: Option<i64>)
        ensures
            *final(self) == old(self).after_packet(presentation_time),
            old(self).well_formed() ==> final(self).well_formed(),
            old(self).first is Some ==> final(self).first == old(self).first,
    {
        if self.only_start_time && self.first.is_some() {
            return ;
        }
        match presentation_time {
            Some(time) => {
                self.last = Some(time);
                if self.first.is_none() {
                    self.first = Some(time);
                }
            },
            None => {},
        }
    }
}

/// Cuts a stream that arrives in pieces into whole packets, and keeps the times that were
/// read from them.
pub struct TsTimeParser {
    pub last_packet: Bytes,
    pub ctx: PcrDumpDemuxContext,
}

impl TsTimeParser {
    /// What is held back is less than a packet, and the times go together.
    pub open spec fn well_formed(&self) -> bool {
        contents(self.last_packet).len() < PACKET_SIZE && self.ctx.well_formed()
    }

    pub fn new(only_start_time: bool) -> (r: Self)
        ensures
            r.well_formed(),
            contents(r.last_packet).len() == 0,
            r.ctx == (PcrDumpDemuxContext { first: None, last: None, only_start_time }),
    {
        Self { last_packet: buffers::empty(), ctx: PcrDumpDemuxContext::new(only_start_time) }
    }

    /// Takes the next piece of the stream, and hands out the packets that are now whole. The
    /// rest is held back for the next piece.
    pub fn parse_packets(&mut self, packet: Bytes) -> (r: Vec<u8>)
        requires
            old(self).well_formed(),
        ensures
            final(self).well_formed(),
            final(self).ctx == old(self).ctx,
            r@ == packets(contents(old(self).last_packet) + contents(packet)),
            contents(final(self).last_packet) == remainder(
                contents(old(self).last_packet) + contents(packet),
            ),
    {
        let ghost held = contents(self.last_packet);
        let mut all = if buffers::length(&self.last_packet) == 0 {
            assert(held + contents(packet) =~= contents(packet));
            packet
        } else {
            let mut joined = buffers::to_vec(&self.last_packet);
            let mut more = buffers::to_vec(&packet);
            joined.append(&mut more);
            buffers::from_vec(joined)
        };
        let length: usize = buffers::length(&all);
        let packet_len: usize = length / PACKET_SIZE * PACKET_SIZE;
        let ghost bytes = contents(all);
        assert(bytes == held + contents(packet));
        self.last_packet = buffers::split_off(&mut all, packet_len);
        assert(contents(self.last_packet) =~= remainder(bytes));
        assert(contents(all) =~= packets(bytes));
        buffers::to_vec(&all)
    }

    /// The first time that was read.
    pub fn start_time(&self) -> (r: Option<i64>)
        ensures
            r == self.ctx.first,
    {
        self.ctx.first
    }

    /// The last time that was read.
    pub fn end_time(&self) -> (r: Option<i64>)
        ensures
            r == self.ctx.last,
    {
        self.ctx.last
    }
}

/// The times of a stream, whatever its packets name: once there is a first time it stays, first
/// and last are there together, and they are one where only the first is wanted.
pub proof fn times_keep_together(
    only_start_time: bool,
    presentation_times: Seq<Option<i64>>,
    earlier: int,
)
    requires
        0 <= earlier <= presentation_times.len(),
    ensures
        ({
            let start = PcrDumpDemuxContext { first: None, last: None, only_start_time };
            let before = start.after_packets(presentation_times.take(earlier));
            let after = start.after_packets(presentation_times);
            &&& after.well_formed()
            &&& after.only_start_time == only_start_time
            &&& before.first is Some ==> after.first == before.first
        }),
    decreases presentation_times.len(),
{
    if earlier == presentation_times.len() {
        assert(presentation_times.take(earlier) =~= presentation_times);
    }
    if presentation_times.len() > 0 {
        let head = presentation_times.drop_last();
        if earlier < presentation_times.len() {
            assert(head.take(earlier) =~= presentation_times.take(earlier));
            times_keep_together(only_start_time, head, earlier);
        } else {
            times_keep_together(only_start_time, head, head.len() as int);
        }
    }
}

/// The packets that a stream gives which arrives in pieces, with `held` held back before.
pub open spec fn handed_out(held: Seq<u8>, pieces: Seq<Seq<u8>>) -> Seq<u8>
    decreases pieces.len(),
{
    if pieces.len() == 0 {
        Seq::empty()
    } else {
        let before = pieces.drop_last();
        handed_out(held, before) + packets(held_back(held, before) + pieces.last())
    }
}

/// What is held back of a stream that arrives in pieces, with `held` held back before.
pub open spec fn held_back(held: Seq<u8>, pieces: Seq<Seq<u8>>) -> Seq<u8>
    decreases pieces.len(),
{
    if pieces.len() == 0 {
        held
    } else {
        remainder(held_back(held, pieces.drop_last()) + pieces.last())
    }
}

/// It does not matter into which pieces a stream is cut: they give the packets, and leave the
/// rest, that the whole stream in one piece gives.
pub proof fn pieces_do_not_matter(held: Seq<u8>, pieces: Seq<Seq<u8>>)
    requires
        held.len() < PACKET_SIZE,
    ensures
        handed_out(held, pieces) == packets(held + pieces.flatten()),
        held_back(held, pieces) == remainder(held + pieces.flatten()),
    decreases pieces.len(),
{
    if pieces.len() == 0 {
        assert(held + pieces.flatten() =~= held);
        assert(packets(held) =~= Seq::empty());
        assert(remainder(held) =~= held);
    } else {
        let before = pieces.drop_last();
        pieces_do_not_matter(held, before);
        before.lemma_flatten_push(pieces.last());
        assert(before.push(pieces.last()) =~= pieces);
        two_pieces(held, before.flatten(), pieces.last());
    }
}

/// Two pieces one after the other give the packets, and leave the rest, that both in one give.
proof fn two_pieces(held: Seq<u8>, first: Seq<u8>, second: Seq<u8>)
    ensures
        packets(held + first) + packets(remainder(held + first) + second) == packets(
            held + (first + second),
        ),
        remainder(remainder(held + first) + second) == remainder(held + (first + second)),
{
    let a = held + first;
    let rest = remainder(a);
    let all = held + (first + second);
    assert(a + second =~= all);
    assert(packets(a) + rest =~= a);
    assert(packets(a) + (rest + second) =~= all);
    let n = whole(a.len());
    let m = (rest + second).len();
    assert(all.len() == n + m);
    assert(whole(n + m) == n + whole(m)) by {
        assert(n % 188 == 0);
    }
    assert(packets(a) + packets(rest + second) =~= packets(all));
    assert(remainder(rest + second) =~= remainder(all));
}

/// Whether every whole packet begins with the byte that packets begin with.
pub open spec fn in_sync(bytes: Seq<u8>) -> bool {
    forall|i: int|
        0 <= i && i + PACKET_SIZE <= bytes.len() && i % 188 == 0 ==> #[trigger] bytes[i]
            == SYNC_BYTE
}

/// Where a reader gets to with some packets that goes through them one by one, and passes over
/// the rest of them from a packet on that does not begin as packets do.
pub open spec fn after_reading<S>(
    read: spec_fn(S, Seq<u8>) -> S,
    state: S,
    bytes: Seq<u8>,
) -> S
    decreases bytes.len(),
{
    if bytes.len() < PACKET_SIZE || bytes[0] != SYNC_BYTE {
        state
    } else {
        after_reading(
            read,
            read(state, bytes.take(PACKET_SIZE as int)),
            bytes.skip(PACKET_SIZE as int),
        )
    }
}

/// Where a reader gets to that is given the packets of a stream as its pieces arrive.
pub open spec fn after_pieces<S>(
    read: spec_fn(S, Seq<u8>) -> S,
    state: S,
    held: Seq<u8>,
    pieces: Seq<Seq<u8>>,
) -> S
    decreases pieces.len(),
{
    if pieces.len() == 0 {
        state
    } else {
        let before = pieces.drop_last();
        after_reading(
            read,
            after_pieces(read, state, held, before),
            packets(held_back(held, before) + pieces.last()),
        )
    }
}

/// Whatever is read from the packets of a stream, the times among it, does not depend on the
/// pieces into which the stream is cut, as long as every packet begins as packets do.
pub proof fn reading_ignores_pieces<S>(
    read: spec_fn(S, Seq<u8>) -> S,
    state: S,
    held: Seq<u8>,
    pieces: Seq<Seq<u8>>,
)
    requires
        held.len() < PACKET_SIZE,
        in_sync(held + pieces.flatten()),
    ensures
        after_pieces(read, state, held, pieces) == after_reading(
            read,
            state,
            packets(held + pieces.flatten()),
        ),
    decreases pieces.len(),
{
    if pieces.len() == 0 {
        assert(held + pieces.flatten() =~= held);
    } else {
        let before = pieces.drop_last();
        let last = pieces.last();
        before.lemma_flatten_push(last);
        assert(before.push(last) =~= pieces);
        let start = held + before.flatten();
        let all = held + pieces.flatten();
        assert(start + last =~= all);
        assert forall|i: int|
            0 <= i && i + PACKET_SIZE <= start.len() && i % 188 == 0 implies #[trigger] start[i]
            == SYNC_BYTE by {
            assert(all[i] == start[i]);
        }
        reading_ignores_pieces(read, state, held, before);
        pieces_do_not_matter(held, before);
        two_pieces(held, before.flatten(), last);
        assert forall|i: int|
            0 <= i && i + PACKET_SIZE <= packets(start).len() && i % 188
                == 0 implies #[trigger] packets(start)[i] == SYNC_BYTE by {
            assert(start[i] == packets(start)[i]);
        }
        reading_in_two(read, state, packets(start), packets(remainder(start) + last));
    }
}

/// Packets that begin as packets do are read one after the other, also where more follow.
proof fn reading_in_two<S>(
    read: spec_fn(S, Seq<u8>) -> S,
    state: S,
    first: Seq<u8>,
    second: Seq<u8>,
)
    requires
        first.len() % 188 == 0,
        in_sync(first),
    ensures
        after_reading(read, state, first + second) == after_reading(
            read,
            after_reading(read, state, first),
            second,
        ),
    decreases first.len(),
{
    if first.len() == 0 {
        assert(first + second =~= second);
    } else {
        let packet = first.take(PACKET_SIZE as int);
        let rest = first.skip(PACKET_SIZE as int);
        let all = first + second;
        assert(all.take(PACKET_SIZE as int) =~= packet);
        assert(all.skip(PACKET_SIZE as int) =~= rest + second);
        assert forall|i: int|
            0 <= i && i + PACKET_SIZE <= rest.len() && i % 188 == 0 implies #[trigger] rest[i]
            == SYNC_BYTE by {
            assert(first[i + 188] == rest[i]);
        }
        assert(first[0] == SYNC_BYTE);
        reading_in_two(read, read(state, packet), rest, second);
    }
}

/// The first time of a stream is the first that any of its packets names, and the last one the
/// last; where only the first is wanted, both are the first.
pub proof fn times_are_first_and_last(only_start_time: bool, presentation_times: Seq<Option<i64>>)
    ensures
        ({
            let start = PcrDumpDemuxContext { first: None, last: None, only_start_time };
            let after = start.after_packets(presentation_times);
            let named = presentation_times.filter(|t: Option<i64>| t is Some);
            &&& after.first == if named.len() > 0 {
                named.first()
            } else {
                None
            }
            &&& after.last == if named.len() == 0 {
                None
            } else if only_start_time {
                named.first()
            } else {
                named.last()
            }
        }),
    decreases presentation_times.len(),
{
    reveal(Seq::filter);
    times_keep_together(only_start_time, presentation_times, 0);
    if presentation_times.len() > 0 {
        let head = presentation_times.drop_last();
        times_are_first_and_last(only_start_time, head);
        times_keep_together(only_start_time, head, 0);
    }
}

/// The whole packets of some bytes and what is left behind them are the bytes; the packets are
/// whole, and what is left is less than one.
pub proof fn packets_and_the_rest_are_the_bytes(bytes: Seq<u8>)
    ensures
        packets(bytes) + remainder(bytes) == bytes,
        packets(bytes).len() % 188 == 0,
        remainder(bytes).len() < 188,
{
    assert(packets(bytes) + remainder(bytes) =~= bytes);
}

} // verus!
