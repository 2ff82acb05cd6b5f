//! What playlists and segments are found by, and how much room they take.

use super::OneSegmentTime;
use crate::contracts::Imdb;
use vstd::prelude::*;

verus! {

/// The largest number that is held where `n` does not fit.
pub open spec fn capped(n: nat) -> usize {
    if n > usize::MAX {
        usize::MAX
    } else {
        n as usize
    }
}

/// A playlist: that of a title on a server.
#[derive(Debug, PartialEq, Eq, Hash)]
pub struct M3U8CacheKey {
    pub imdb: Imdb,
    pub server_name: String,
}

impl Clone for M3U8CacheKey {
    fn clone(&self) -> (r: Self)
        ensures
            r == *self,
    {
        Self { imdb: self.imdb, server_name: self.server_name.clone() }
    }
}

/// How many bytes a key counts for: the letters of the server's name with their place and their
/// number, and the title.
pub open spec fn key_size(key: M3U8CacheKey) -> nat {
    vstd::utf8::encode_utf8(key.server_name@).len() + 2 * vstd::layout::size_of::<usize>()
        + vstd::layout::size_of::<Imdb>()
}

impl M3U8CacheKey {
    pub fn size(&self) -> (r: usize)
        ensures
            r == capped(key_size(*self)),
    {
        let letters: usize = self.server_name.as_str().as_bytes().len();
        let word: usize = core::mem::size_of::<usize>();
        let name: usize = word.saturating_add(word);
        let imdb: usize = core::mem::size_of::<Imdb>();
        letters.saturating_add(name).saturating_add(imdb)
    }

    /// Whether both keys are for the same playlist.
    pub fn same(&self, other: &Self) -> (r: bool)
        ensures
            r == (self.imdb == other.imdb && self.server_name@ == other.server_name@),
    {
        self.imdb == other.imdb && self.server_name == other.server_name
    }
}

/// A segment of a playlist.
#[derive(Debug, PartialEq, Eq, Hash)]
pub struct SegmentId {
    pub m3u8: M3U8CacheKey,
    pub segment_index: usize,
}

impl Clone for SegmentId {
    fn clone(&self) -> (r: Self)
        ensures
            r == *self,
    {
        Self { m3u8: self.m3u8.clone(), segment_index: self.segment_index }
    }
}

/// How many bytes the id of a segment takes.
pub open spec fn segment_id_size(id: SegmentId) -> nat {
    key_size(id.m3u8) + vstd::layout::size_of::<usize>()
}

impl SegmentId {
    pub fn size(&self) -> (r: usize)
        ensures
            r == capped(segment_id_size(*self)),
    {
        self.m3u8.size().saturating_add(core::mem::size_of::<usize>())
    }
}

/// Counts the bytes that are written to it and keeps none.
#[derive(Debug, Clone, Copy, PartialEq, Eq, Structural)]
pub struct CounterWritter {
    pub size: usize,
}

impl CounterWritter {
    pub fn new() -> (r: Self)
        ensures
            r.size == 0,
    {
        Self { size: 0 }
    }

    /// Takes all of `buf`.
    pub fn write(&mut self, buf: &[u8]) -> (r: usize)
        ensures
            r == buf@.len(),
            final(self).size == capped((old(self).size + buf@.len()) as nat),
    {
        self.size = self.size.saturating_add(buf.len());
        buf.len()
    }

    /// Does nothing: nothing is held back.
    pub fn flush(&mut self)
        ensures
            *final(self) == *old(self),
    {
    }
}

/// The lower half of a number.
pub open spec fn low_bits(n: nat) -> nat {
    n % 0x1_0000_0000
}

/// The weight of a playlist in a cache: the size of its key and of its text, of which a
/// weight holds the lower bits.
pub fn weigher(key: &M3U8CacheKey, text_size: usize) -> (r: u32)
    ensures
        r == low_bits(capped(key_size(*key) + text_size as nat) as nat),
{
    truncated(key.size().saturating_add(text_size))
}

/// The weight of a segment in a cache: the size of its id and of its content.
pub fn segment_weight(id: &SegmentId, content_size: usize) -> (r: usize)
    ensures
        r == capped(segment_id_size(*id) + content_size as nat),
{
    id.size().saturating_add(content_size)
}

fn truncated(n: usize) -> (r: u32)
    ensures
        r == low_bits(n as nat),
{
    let wide: u64 = n as u64;
    assert(wide as u32 == wide % 0x1_0000_0000) by (bit_vector);
    #[verifier::truncate]
    (wide as u32)
}

/// How many bytes a start time counts for.
pub const TIME_BYTES: usize = 4;

/// How many bytes a list of start times counts for: the list itself, and of each entry the number
/// of the segment and the time.
pub open spec fn times_size(entries: nat) -> nat {
    vstd::layout::size_of::<Vec<OneSegmentTime>>() + entries * (vstd::layout::size_of::<usize>()
        + TIME_BYTES as nat)
}

/// The weight of a list of start times in a cache: the size of its key, of the list and of
/// its entries.
pub fn times_weight(key: &M3U8CacheKey, entries: usize) -> (r: u32)
    ensures
        r == low_bits(capped(key_size(*key) + times_size(entries as nat)) as nat),
{
    broadcast use vstd::layout::layout_of_primitives;

    let list: usize = core::mem::size_of::<Vec<OneSegmentTime>>();
    let entry: usize = core::mem::size_of::<usize>().saturating_add(TIME_BYTES);
    let all: usize = match entries.checked_mul(entry) {
        Some(n) => n,
        None => usize::MAX,
    };
    truncated(key.size().saturating_add(list).saturating_add(all))
}

/// Keys weigh the same but for the letters of their servers' names, the id of a segment one word
/// more than its key, and each start time of a list a word and four bytes.
pub proof fn weights_add_up(a: M3U8CacheKey, b: M3U8CacheKey, id: SegmentId, entries: nat)
    ensures
        key_size(a) - key_size(b) == vstd::utf8::encode_utf8(a.server_name@).len()
            - vstd::utf8::encode_utf8(b.server_name@).len(),
        segment_id_size(id) == key_size(id.m3u8) + vstd::layout::size_of::<usize>(),
        times_size(entries + 1) == times_size(entries) + vstd::layout::size_of::<usize>() + 4,
{
    let each = vstd::layout::size_of::<usize>() + 4;
    assert((entries + 1) * each == entries * each + each) by (nonlinear_arith);
}

/// What can be held is held as it is; anything else by the largest number that can.
pub proof fn sizes_are_held_as_they_are(n: nat)
    ensures
        n <= usize::MAX ==> capped(n) == n,
        n > usize::MAX ==> capped(n) == usize::MAX,
        n < 0x1_0000_0000 ==> low_bits(n) == n,
        low_bits(n + 0x1_0000_0000) == low_bits(n),
{
}

} // verus!
