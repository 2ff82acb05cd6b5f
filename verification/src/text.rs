//! Text as sequences of characters: comparing, cutting and joining strings, and
//! reading and writing decimal numbers.

use vstd::prelude::*;

verus! {

/// `String::push` appends one character to the end of the string.
pub assume_specification[ String::push ](s: &mut String, c: char)
    ensures
        final(s)@ == old(s)@.push(c),
;

/// Whether `c` is ASCII white space: a blank, or a control character from the tab to the carriage
/// return.
pub open spec fn ascii_white_space(c: char) -> bool {
    c == ' ' || ('\u{9}' <= c && c <= '\u{d}')
}

/// Whether `c` is white space: has the Unicode property `White_Space`.
pub open spec fn white_space(c: char) -> bool {
    ||| ascii_white_space(c)
    ||| c == '\u{85}'
    ||| c == '\u{a0}'
    ||| c == '\u{1680}'
    ||| '\u{2000}' <= c && c <= '\u{200a}'
    ||| c == '\u{2028}'
    ||| c == '\u{2029}'
    ||| c == '\u{202f}'
    ||| c == '\u{205f}'
    ||| c == '\u{3000}'
}

/// Calls `char::is_whitespace`, which tells the characters with the Unicode property
/// `White_Space`.
#[verifier::external_body]
fn is_white_space(c: char) -> (r: bool)
    ensures
        r == white_space(c),
{
    c.is_whitespace()
}

/// Whether `c` is one of the letters from `A` to `Z`.
pub open spec fn is_ascii_capital(c: char) -> bool {
    'A' <= c && c <= 'Z'
}

/// The small letter for an ASCII capital; any other character itself.
pub open spec fn ascii_small(c: char) -> char {
    if is_ascii_capital(c) {
        (c as u32 + 32) as char
    } else {
        c
    }
}

/// `s` with small letters in place of the ASCII capitals.
pub open spec fn ascii_lowercase(s: Seq<char>) -> Seq<char> {
    s.map_values(|c: char| ascii_small(c))
}

/// The text that `str::to_lowercase` makes of a text that is not all ASCII, by the Unicode
/// `Lowercase` mapping.
pub uninterp spec fn unicode_lowercase(s: Seq<char>) -> Seq<char>;

/// `s` in small letters.
pub open spec fn lowercase(s: Seq<char>) -> Seq<char> {
    if vstd::utf8::is_ascii_chars(s) {
        ascii_lowercase(s)
    } else {
        unicode_lowercase(s)
    }
}

/// Calls `str::to_lowercase`. In an ASCII text each capital becomes its small letter and nothing
/// else changes; of any other text the result depends on the text alone. No result holds an
/// ASCII capital. Of a text that is not all ASCII no more is said: neither what its ends become,
/// nor that the result in small letters is the result again.
#[verifier::external_body]
pub(crate) fn to_lowercase(s: &str) -> (r: String)
    ensures
        vstd::utf8::is_ascii_chars(s@) ==> r@ == ascii_lowercase(s@),
        !vstd::utf8::is_ascii_chars(s@) ==> r@ == unicode_lowercase(s@),
        forall|i: int| 0 <= i < r@.len() ==> !is_ascii_capital(#[trigger] r@[i]),
{
    s.to_lowercase()
}

/// Small letters stay as they are.
pub proof fn ascii_lowercase_again(s: Seq<char>)
    requires
        forall|i: int| 0 <= i < s.len() ==> !is_ascii_capital(#[trigger] s[i]),
    ensures
        ascii_lowercase(s) == s,
{
    assert(ascii_lowercase(s) =~= s);
}

/// Putting ASCII capitals into small letters leaves no capital and no character beyond ASCII
/// that was not there.
pub proof fn ascii_lowercase_kinds(s: Seq<char>)
    ensures
        forall|i: int| 0 <= i < s.len() ==> !is_ascii_capital(#[trigger] ascii_lowercase(s)[i]),
        vstd::utf8::is_ascii_chars(s) ==> vstd::utf8::is_ascii_chars(ascii_lowercase(s)),
{
    let small = ascii_lowercase(s);
    assert forall|i: int| 0 <= i < s.len() implies !is_ascii_capital(#[trigger] small[i]) by {
        assert(small[i] == ascii_small(s[i]));
    }
    if vstd::utf8::is_ascii_chars(s) {
        assert forall|i: int| 0 <= i < small.len() implies '\0' <= #[trigger] small[i] <= '\u{7f}' by {
            assert(small[i] == ascii_small(s[i]));
            assert('\0' <= s[i] <= '\u{7f}');
        }
    }
}

/// The characters of a string, in order.
pub fn chars_of(s: &str) -> (r: Vec<char>)
    ensures
        r@ == s@,
{
    let mut out: Vec<char> = Vec::new();
    for c in it: s.chars()
        invariant
            out@ == s@.take(it.index() as int),
            it.seq() == s@,
    {
        out.push(c);
    }
    assert(s@.take(s@.len() as int) == s@);
    out
}

/// The string made of the given characters, in order.
pub fn string_of(chars: &[char]) -> (r: String)
    ensures
        r@ == chars@,
{
    let mut out = String::new();
    for i in 0..chars.len()
        invariant
            out@ == chars@.take(i as int),
    {
        out.push(chars[i]);
    }
    assert(chars@.take(chars@.len() as int) == chars@);
    out
}

/// Whether two strings hold the same characters.
pub fn str_eq(a: &str, b: &str) -> (r: bool)
    ensures
        r == (a@ == b@),
{
    let x = a.as_bytes();
    let y = b.as_bytes();
    proof {
        vstd::utf8::encode_utf8_decode_utf8(a@);
        vstd::utf8::encode_utf8_decode_utf8(b@);
    }
    if x.len() != y.len() {
        return false;
    }
    for i in 0..x.len()
        invariant
            x@.len() == y@.len(),
            x@.take(i as int) == y@.take(i as int),
            x@ == vstd::utf8::encode_utf8(a@),
            y@ == vstd::utf8::encode_utf8(b@),
    {
        if x[i] != y[i] {
            return false;
        }
    }
    assert(x@.take(x@.len() as int) == x@);
    assert(y@.take(y@.len() as int) == y@);
    true
}

/// Whether two runs of characters are the same.
pub fn chars_eq(a: &[char], b: &[char]) -> (r: bool)
    ensures
        r == (a@ == b@),
{
    if a.len() != b.len() {
        return false;
    }
    for i in 0..a.len()
        invariant
            a@.len() == b@.len(),
            forall|j: int| 0 <= j < i ==> a@[j] == b@[j],
    {
        if a[i] != b[i] {
            return false;
        }
    }
    assert(a@ =~= b@);
    true
}

/// Whether `part` stands somewhere in `s`.
pub open spec fn has_part(s: Seq<char>, part: Seq<char>) -> bool {
    exists|i: int| #[trigger] stands_at(s, part, i)
}

/// Whether `part` stands in `s` from position `i` on.
pub open spec fn stands_at(s: Seq<char>, part: Seq<char>, i: int) -> bool {
    0 <= i && i + part.len() <= s.len() && s.subrange(i, i + part.len()) == part
}

fn matches_at(s: &[char], part: &[char], i: usize) -> (r: bool)
    requires
        i + part@.len() <= s@.len(),
    ensures
        r == stands_at(s@, part@, i as int),
{
    let n: usize = s.len();
    for j in 0..part.len()
        invariant
            i + part@.len() <= s@.len() == n,
            forall|k: int| 0 <= k < j ==> s@[i + k] == part@[k],
    {
        if s[i + j] != part[j] {
            assert(s@.subrange(i as int, i + part@.len())[j as int] != part@[j as int]);
            return false;
        }
    }
    assert(s@.subrange(i as int, i + part@.len()) =~= part@);
    true
}

/// Whether `s` begins with `prefix`.
pub fn starts_with(s: &[char], prefix: &[char]) -> (r: bool)
    ensures
        r == prefix@.is_prefix_of(s@),
{
    s.len() >= prefix.len() && matches_at(s, prefix, 0)
}

/// Whether `s` ends with `suffix`.
pub fn ends_with(s: &[char], suffix: &[char]) -> (r: bool)
    ensures
        r == suffix@.is_suffix_of(s@),
{
    s.len() >= suffix.len() && matches_at(s, suffix, s.len() - suffix.len())
}

/// Whether `part` stands somewhere in `s`.
pub fn contains(s: &[char], part: &[char]) -> (r: bool)
    ensures
        r == has_part(s@, part@),
{
    if s.len() < part.len() {
        return false;
    }
    let last: usize = s.len() - part.len();
    let mut i: usize = 0;
    while i < last
        invariant
            part@.len() <= s@.len(),
            last == s@.len() - part@.len(),
            i <= last,
            forall|k: int| 0 <= k < i ==> !stands_at(s@, part@, k),
        decreases last - i,
    {
        if matches_at(s, part, i) {
            return true;
        }
        i += 1;
    }
    let r = matches_at(s, part, last);
    assert(forall|k: int| k > last ==> !stands_at(s@, part@, k));
    r
}

/// The pieces of `s` between the occurrences of `sep`: always at least one, and one
/// more than there are separators.
pub open spec fn split_on(s: Seq<char>, sep: char) -> Seq<Seq<char>>
    decreases s.len(),
{
    if s.len() == 0 {
        seq![Seq::empty()]
    } else {
        let before = split_on(s.drop_last(), sep);
        if s.last() == sep {
            before.push(Seq::empty())
        } else {
            before.drop_last().push(before.last().push(s.last()))
        }
    }
}

/// The texts that a list of character vectors holds.
pub open spec fn views(pieces: Seq<Vec<char>>) -> Seq<Seq<char>> {
    pieces.map_values(|p: Vec<char>| p@)
}

/// The texts that a list of strings holds.
pub open spec fn texts(strings: Seq<String>) -> Seq<Seq<char>> {
    strings.map_values(|s: String| s@)
}

/// Cuts `s` at every `sep`.
pub fn split(s: &[char], sep: char) -> (r: Vec<Vec<char>>)
    ensures
        views(r@) == split_on(s@, sep),
        r@.len() > 0,
{
    let mut done: Vec<Vec<char>> = Vec::new();
    let mut piece: Vec<char> = Vec::new();
    assert(s@.take(0).len() == 0);
    assert(views(done@).push(piece@) =~= split_on(s@.take(0), sep));
    for i in 0..s.len()
        invariant
            views(done@).push(piece@) == split_on(s@.take(i as int), sep),
    {
        let ghost before = views(done@).push(piece@);
        proof {
            assert(s@.take(i + 1).drop_last() =~= s@.take(i as int));
            assert(before.drop_last() =~= views(done@));
        }
        let c = s[i];
        if c == sep {
            done.push(piece);
            piece = Vec::new();
            assert(views(done@) =~= before);
            assert(piece@ =~= Seq::empty());
        } else {
            piece.push(c);
        }
        assert(views(done@).push(piece@) =~= split_on(s@.take(i + 1), sep));
    }
    assert(s@.take(s@.len() as int) =~= s@);
    let ghost all = views(done@).push(piece@);
    done.push(piece);
    assert(views(done@) =~= all);
    done
}

/// What follows the last separator of `s`; all of `s` where there is none.
pub open spec fn last_piece(s: Seq<char>, sep: char) -> Seq<char> {
    split_on(s, sep).last()
}

/// Text without a separator only lengthens the last piece.
pub proof fn split_on_append(s: Seq<char>, tail: Seq<char>, sep: char)
    requires
        !tail.contains(sep),
    ensures
        split_on(s + tail, sep) == split_on(s, sep).drop_last().push(
            split_on(s, sep).last() + tail,
        ),
        split_on(s, sep).len() > 0,
    decreases tail.len(),
{
    split_on_nonempty(s, sep);
    if tail.len() == 0 {
        assert(s + tail =~= s);
        assert(split_on(s, sep).last() + tail =~= split_on(s, sep).last());
        assert(split_on(s, sep).drop_last().push(split_on(s, sep).last()) =~= split_on(s, sep));
    } else {
        let head = tail.drop_last();
        assert forall|i: int| 0 <= i < head.len() implies head[i] != sep by {
            assert(tail[i] == head[i]);
        }
        split_on_append(s, head, sep);
        assert((s + tail).drop_last() =~= s + head);
        assert((s + tail).last() == tail.last());
        assert(tail.contains(tail.last()));
        let before = split_on(s + head, sep);
        assert(before.drop_last() =~= split_on(s, sep).drop_last());
        assert(before.last().push(tail.last()) =~= split_on(s, sep).last() + tail);
    }
}

/// Splitting never gives an empty list.
pub proof fn split_on_nonempty(s: Seq<char>, sep: char)
    ensures
        split_on(s, sep).len() > 0,
    decreases s.len(),
{
    if s.len() > 0 {
        split_on_nonempty(s.drop_last(), sep);
    }
}

/// A separator closes the last piece and opens an empty one.
pub proof fn split_on_separator(s: Seq<char>, sep: char)
    ensures
        split_on(s.push(sep), sep) == split_on(s, sep).push(Seq::empty()),
{
    assert(s.push(sep).drop_last() =~= s);
}

/// Where the separator is no ASCII letter, the last piece does not depend on when the letters
/// are made small.
pub proof fn last_piece_lowercase(s: Seq<char>, sep: char)
    requires
        !is_ascii_capital(sep),
        !('a' <= sep && sep <= 'z'),
    ensures
        last_piece(ascii_lowercase(s), sep) == ascii_lowercase(last_piece(s, sep)),
        vstd::utf8::is_ascii_chars(s) ==> vstd::utf8::is_ascii_chars(last_piece(s, sep)),
    decreases s.len(),
{
    let small = ascii_lowercase(s);
    if s.len() == 0 {
        assert(last_piece(small, sep) =~= ascii_lowercase(last_piece(s, sep)));
    } else {
        let head = s.drop_last();
        last_piece_lowercase(head, sep);
        split_on_nonempty(head, sep);
        split_on_nonempty(small.drop_last(), sep);
        assert(small.drop_last() =~= ascii_lowercase(head));
        assert(small.last() == ascii_small(s.last()));
        assert(last_piece(small, sep) =~= ascii_lowercase(last_piece(s, sep)));
        if vstd::utf8::is_ascii_chars(s) {
            assert forall|i: int| 0 <= i < head.len() implies '\0' <= #[trigger] head[i]
                <= '\u{7f}' by {
                assert(head[i] == s[i]);
            }
            assert('\0' <= s[s.len() - 1] <= '\u{7f}');
        }
    }
}

/// `s` with every `from` replaced by `to`.
pub open spec fn replaced(s: Seq<char>, from: char, to: char) -> Seq<char> {
    s.map_values(|c: char| if c == from { to } else { c })
}

/// Replaces every `from` by `to`.
pub fn replace(s: &[char], from: char, to: char) -> (r: Vec<char>)
    ensures
        r@ == replaced(s@, from, to),
{
    let mut out: Vec<char> = Vec::new();
    for i in 0..s.len()
        invariant
            out@ == replaced(s@.take(i as int), from, to),
    {
        let c = s[i];
        out.push(if c == from { to } else { c });
        assert(out@ =~= replaced(s@.take(i + 1), from, to));
    }
    assert(s@.take(s@.len() as int) =~= s@);
    out
}

/// `s` without the white space in front of it.
pub open spec fn trimmed_start(s: Seq<char>) -> Seq<char>
    decreases s.len(),
{
    if s.len() > 0 && white_space(s.first()) {
        trimmed_start(s.drop_first())
    } else {
        s
    }
}

/// `s` without the white space behind it.
pub open spec fn trimmed_end(s: Seq<char>) -> Seq<char>
    decreases s.len(),
{
    if s.len() > 0 && white_space(s.last()) {
        trimmed_end(s.drop_last())
    } else {
        s
    }
}

/// `s` without the white space around it.
pub open spec fn trimmed(s: Seq<char>) -> Seq<char> {
    trimmed_end(trimmed_start(s))
}

/// Whether `s` holds nothing but white space.
pub open spec fn all_white(s: Seq<char>) -> bool {
    forall|i: int| 0 <= i < s.len() ==> white_space(#[trigger] s[i])
}

/// What is left is a part of the text, and begins and ends with no white space.
pub proof fn trimmed_ends(s: Seq<char>)
    ensures
        trimmed(s).len() > 0 ==> !white_space(trimmed(s).first()) && !white_space(
            trimmed(s).last(),
        ),
        vstd::utf8::is_ascii_chars(s) ==> vstd::utf8::is_ascii_chars(trimmed(s)),
{
    trimmed_start_ends(s);
    trimmed_end_ends(trimmed_start(s));
}

proof fn trimmed_start_ends(s: Seq<char>)
    ensures
        trimmed_start(s).len() > 0 ==> !white_space(trimmed_start(s).first()),
        vstd::utf8::is_ascii_chars(s) ==> vstd::utf8::is_ascii_chars(trimmed_start(s)),
    decreases s.len(),
{
    if s.len() > 0 && white_space(s.first()) {
        let rest = s.drop_first();
        trimmed_start_ends(rest);
        if vstd::utf8::is_ascii_chars(s) {
            assert forall|i: int| 0 <= i < rest.len() implies '\0' <= #[trigger] rest[i]
                <= '\u{7f}' by {
                assert(rest[i] == s[i + 1]);
            }
        }
    }
}

proof fn trimmed_end_ends(s: Seq<char>)
    ensures
        trimmed_end(s).len() > 0 ==> trimmed_end(s).first() == s.first() && !white_space(
            trimmed_end(s).last(),
        ),
        vstd::utf8::is_ascii_chars(s) ==> vstd::utf8::is_ascii_chars(trimmed_end(s)),
    decreases s.len(),
{
    if s.len() > 0 && white_space(s.last()) {
        let rest = s.drop_last();
        trimmed_end_ends(rest);
        if vstd::utf8::is_ascii_chars(s) {
            assert forall|i: int| 0 <= i < rest.len() implies '\0' <= #[trigger] rest[i]
                <= '\u{7f}' by {
                assert(rest[i] == s[i]);
            }
        }
    }
}

/// White space around a text does not matter to what is left of it.
pub proof fn trimmed_around(before: Seq<char>, s: Seq<char>, after: Seq<char>)
    requires
        all_white(before),
        all_white(after),
    ensures
        trimmed(before + s + after) == trimmed(s),
{
    assert(before + s + after =~= before + (s + after));
    trimmed_start_white(before, s + after);
    trimmed_start_more(s, after);
    if all_white(s) {
        trimmed_start_white(s, Seq::empty());
        assert(s + Seq::<char>::empty() =~= s);
        trimmed_start_white(s, after);
        trimmed_start_white(after, Seq::empty());
        assert(after + Seq::<char>::empty() =~= after);
    } else {
        trimmed_end_white(trimmed_start(s), after);
    }
}

proof fn trimmed_start_white(before: Seq<char>, s: Seq<char>)
    requires
        all_white(before),
    ensures
        trimmed_start(before + s) == trimmed_start(s),
    decreases before.len(),
{
    if before.len() == 0 {
        assert(before + s =~= s);
    } else {
        let rest = before.drop_first();
        assert((before + s).drop_first() =~= rest + s);
        assert(white_space(before[0]));
        assert forall|i: int| 0 <= i < rest.len() implies white_space(#[trigger] rest[i]) by {
            assert(rest[i] == before[i + 1]);
        }
        trimmed_start_white(rest, s);
    }
}

proof fn trimmed_start_more(s: Seq<char>, after: Seq<char>)
    ensures
        !all_white(s) ==> trimmed_start(s + after) == trimmed_start(s) + after,
    decreases s.len(),
{
    if s.len() > 0 {
        assert((s + after).first() == s.first());
        if white_space(s.first()) {
            let rest = s.drop_first();
            assert((s + after).drop_first() =~= rest + after);
            trimmed_start_more(rest, after);
            if all_white(rest) {
                assert forall|i: int| 0 <= i < s.len() implies white_space(#[trigger] s[i]) by {
                    if i > 0 {
                        assert(s[i] == rest[i - 1]);
                    }
                }
            }
        }
    }
}

proof fn trimmed_end_white(s: Seq<char>, after: Seq<char>)
    requires
        all_white(after),
    ensures
        trimmed_end(s + after) == trimmed_end(s),
    decreases after.len(),
{
    if after.len() == 0 {
        assert(s + after =~= s);
    } else {
        let rest = after.drop_last();
        assert((s + after).drop_last() =~= s + rest);
        assert(white_space(after[after.len() - 1]));
        assert forall|i: int| 0 <= i < rest.len() implies white_space(#[trigger] rest[i]) by {
            assert(rest[i] == after[i]);
        }
        trimmed_end_white(s, rest);
    }
}

/// It does not matter to the white space around a text when its ASCII letters are made small.
pub proof fn trimmed_lowercase(s: Seq<char>)
    ensures
        trimmed(ascii_lowercase(s)) == ascii_lowercase(trimmed(s)),
{
    trimmed_start_lowercase(s);
    trimmed_end_lowercase(trimmed_start(s));
}

proof fn trimmed_start_lowercase(s: Seq<char>)
    ensures
        trimmed_start(ascii_lowercase(s)) == ascii_lowercase(trimmed_start(s)),
    decreases s.len(),
{
    if s.len() > 0 {
        assert(ascii_lowercase(s).first() == ascii_small(s.first()));
        assert(ascii_lowercase(s).drop_first() =~= ascii_lowercase(s.drop_first()));
        trimmed_start_lowercase(s.drop_first());
    }
}

proof fn trimmed_end_lowercase(s: Seq<char>)
    ensures
        trimmed_end(ascii_lowercase(s)) == ascii_lowercase(trimmed_end(s)),
    decreases s.len(),
{
    if s.len() > 0 {
        assert(ascii_lowercase(s).last() == ascii_small(s.last()));
        assert(ascii_lowercase(s).drop_last() =~= ascii_lowercase(s.drop_last()));
        trimmed_end_lowercase(s.drop_last());
    }
}

/// Removes the white space around a text.
pub fn trim(s: &[char]) -> (r: Vec<char>)
    ensures
        r@ == trimmed(s@),
{
    let n = s.len();
    let mut from: usize = 0;
    assert(s@.subrange(0, n as int) =~= s@);
    while from < n && is_white_space(s[from])
        invariant
            from <= n == s@.len(),
            trimmed_start(s@) == trimmed_start(s@.subrange(from as int, n as int)),
        decreases n - from,
    {
        assert(s@.subrange(from as int, n as int).drop_first() =~= s@.subrange(
            from + 1,
            n as int,
        ));
        from += 1;
    }
    let mut to: usize = n;
    assert(trimmed_start(s@) == s@.subrange(from as int, n as int));
    while from < to && is_white_space(s[to - 1])
        invariant
            from <= to <= n == s@.len(),
            trimmed(s@) == trimmed_end(s@.subrange(from as int, to as int)),
        decreases to - from,
    {
        assert(s@.subrange(from as int, to as int).drop_last() =~= s@.subrange(
            from as int,
            to - 1,
        ));
        to -= 1;
    }
    copy(s, from, to)
}

/// The characters of `s` from `from` up to `to`.
pub fn copy(s: &[char], from: usize, to: usize) -> (r: Vec<char>)
    requires
        from <= to <= s@.len(),
    ensures
        r@ == s@.subrange(from as int, to as int),
{
    let mut out: Vec<char> = Vec::new();
    for i in from..to
        invariant
            from <= to <= s@.len(),
            out@ == s@.subrange(from as int, i as int),
    {
        out.push(s[i]);
        assert(out@ =~= s@.subrange(from as int, i + 1));
    }
    out
}

/// The character that stands for the digit `d`.
pub open spec fn digit_char(d: nat) -> char {
    (48 + d) as char
}

/// The decimal digits of `n`, without leading zeros.
pub open spec fn digits(n: nat) -> Seq<char>
    decreases n,
{
    if n < 10 {
        seq![digit_char(n)]
    } else {
        digits(n / 10).push(digit_char(n % 10))
    }
}

/// `n` zeros.
pub open spec fn zeros(n: nat) -> Seq<char> {
    Seq::new(n, |i: int| '0')
}

/// The decimal digits of `n`, with zeros in front up to `width` characters.
pub open spec fn padded_digits(n: nat, width: nat) -> Seq<char> {
    let plain = digits(n);
    if plain.len() < width {
        zeros((width - plain.len()) as nat) + plain
    } else {
        plain
    }
}

/// Appends the decimal digits of `n`.
pub fn push_decimal(out: &mut String, n: u64)
    ensures
        final(out)@ == old(out)@ + digits(n as nat),
    decreases n,
{
    let ghost start = out@;
    if n >= 10 {
        push_decimal(out, n / 10);
    }
    let d: u8 = (n % 10) as u8;
    let c: char = (48 + d) as char;
    out.push(c);
    assert(out@ =~= start + digits(n as nat));
}

/// How many decimal digits `n` has.
fn digit_count(n: u64) -> (r: u64)
    ensures
        r == digits(n as nat).len(),
        1 <= r <= n + 1,
    decreases n,
{
    if n < 10 {
        1
    } else {
        digit_count(n / 10) + 1
    }
}

/// Appends the decimal digits of `n`, with zeros in front up to `width` characters.
pub fn push_padded(out: &mut String, n: u64, width: u64)
    ensures
        final(out)@ == old(out)@ + padded_digits(n as nat, width as nat),
{
    let count: u64 = digit_count(n);
    let ghost start = out@;
    let mut zeros_done: u64 = 0;
    if count < width {
        while zeros_done < width - count
            invariant
                count < width,
                zeros_done <= width - count,
                out@ == start + zeros(zeros_done as nat),
            decreases width - count - zeros_done,
        {
            out.push('0');
            zeros_done += 1;
            assert(out@ =~= start + zeros(zeros_done as nat));
        }
    }
    push_decimal(out, n);
    assert(out@ =~= start + padded_digits(n as nat, width as nat));
}

/// Whether `c` is an ASCII digit.
pub open spec fn is_digit(c: char) -> bool {
    '0' <= c && c <= '9'
}

/// Whether `s` holds nothing but ASCII digits.
pub open spec fn all_digits(s: Seq<char>) -> bool {
    forall|i: int| 0 <= i < s.len() ==> is_digit(#[trigger] s[i])
}

/// The number that a run of digits stands for.
pub open spec fn decimal_value(s: Seq<char>) -> nat
    decreases s.len(),
{
    if s.len() == 0 {
        0
    } else {
        (decimal_value(s.drop_last()) * 10 + (s.last() as nat - 48)) as nat
    }
}

/// The digits of a written number: all of it but one leading plus sign.
pub open spec fn without_plus(s: Seq<char>) -> Seq<char> {
    if s.len() > 0 && s[0] == '+' {
        s.skip(1)
    } else {
        s
    }
}

/// The number that `s` is read as: an optional plus sign and at least one digit, no
/// more than `max`.
pub open spec fn parsed_decimal(s: Seq<char>, max: nat) -> Option<nat> {
    let body = without_plus(s);
    if body.len() > 0 && all_digits(body) && decimal_value(body) <= max {
        Some(decimal_value(body))
    } else {
        None
    }
}

/// More digits never make a smaller number.
pub proof fn decimal_value_prefix(s: Seq<char>, n: int)
    requires
        0 <= n <= s.len(),
        all_digits(s),
    ensures
        decimal_value(s.take(n)) <= decimal_value(s),
    decreases s.len(),
{
    if n < s.len() {
        let head = s.drop_last();
        assert(all_digits(head)) by {
            assert forall|i: int| 0 <= i < head.len() implies is_digit(#[trigger] head[i]) by {
                assert(head[i] == s[i]);
            }
        }
        decimal_value_prefix(head, n);
        assert(head.take(n) =~= s.take(n));
        assert(is_digit(s[s.len() - 1]));
    } else {
        assert(s.take(n) =~= s);
    }
}

/// Reads a number of at most `max`.
pub fn parse_decimal(s: &[char], max: u64) -> (r: Option<u64>)
    ensures
        r matches Some(v) ==> parsed_decimal(s@, max as nat) == Some(v as nat),
        r is None ==> parsed_decimal(s@, max as nat) is None,
{
    let start: usize = if s.len() > 0 && s[0] == '+' { 1 } else { 0 };
    let ghost body = without_plus(s@);
    assert(body =~= s@.skip(start as int));
    if start == s.len() {
        return None;
    }
    let mut value: u64 = 0;
    let mut i: usize = start;
    assert(body.take(0).len() == 0);
    while i < s.len()
        invariant
            start <= i <= s@.len(),
            body == s@.skip(start as int),
            all_digits(body.take(i - start)),
            value == decimal_value(body.take(i - start)),
            value <= max,
            body == without_plus(s@),
        decreases s@.len() - i,
    {
        let c = s[i];
        assert(body[i - start] == c);
        if c < '0' || c > '9' {
            return None;
        }
        let d: u64 = (c as u32 - 48) as u64;
        let ghost longer = body.take(i + 1 - start);
        assert(longer.drop_last() =~= body.take(i - start));
        assert(longer.last() == c);
        let wide: u128 = value as u128 * 10 + d as u128;
        if wide > max as u128 {
            proof {
                if all_digits(body) {
                    decimal_value_prefix(body, i + 1 - start);
                }
            }
            return None;
        }
        value = wide as u64;
        assert(all_digits(longer)) by {
            assert forall|k: int| 0 <= k < longer.len() implies is_digit(#[trigger] longer[k]) by {
                if k < i - start {
                    assert(longer[k] == body.take(i - start)[k]);
                }
            }
        }
        i += 1;
    }
    assert(body.take(i - start) =~= body);
    Some(value)
}

/// The digits of a number are digits, and stand for it.
pub proof fn digits_value(n: nat)
    ensures
        all_digits(digits(n)),
        digits(n).len() > 0,
        decimal_value(digits(n)) == n,
    decreases n,
{
    if n < 10 {
        assert(digits(n).drop_last() =~= Seq::empty());
        assert(decimal_value(Seq::<char>::empty()) == 0);
        assert(digits(n).last() == digit_char(n));
    } else {
        digits_value(n / 10);
        let head = digits(n / 10);
        assert(digits(n).drop_last() =~= head);
        assert forall|i: int| 0 <= i < digits(n).len() implies is_digit(#[trigger] digits(n)[i]) by {
            if i < head.len() {
                assert(digits(n)[i] == head[i]);
            }
        }
    }
}

/// Zeros in front leave the value as it is.
pub proof fn leading_zeros_value(k: nat, s: Seq<char>)
    requires
        all_digits(s),
    ensures
        all_digits(zeros(k) + s),
        decimal_value(zeros(k) + s) == decimal_value(s),
    decreases s.len(), k,
{
    let whole = zeros(k) + s;
    assert forall|i: int| 0 <= i < whole.len() implies is_digit(#[trigger] whole[i]) by {
        if i >= k {
            assert(whole[i] == s[i - k]);
        }
    }
    if s.len() > 0 {
        let head = s.drop_last();
        assert forall|i: int| 0 <= i < head.len() implies is_digit(#[trigger] head[i]) by {
            assert(head[i] == s[i]);
        }
        leading_zeros_value(k, head);
        assert(whole.drop_last() =~= zeros(k) + head);
    } else if k > 0 {
        leading_zeros_value((k - 1) as nat, s);
        assert(whole.drop_last() =~= zeros((k - 1) as nat) + s);
    } else {
        assert(whole =~= s);
    }
}

/// A padded number reads back as the number.
pub proof fn padded_digits_parse(n: nat, width: nat, max: nat)
    requires
        n <= max,
    ensures
        parsed_decimal(padded_digits(n, width), max) == Some(n),
        all_digits(padded_digits(n, width)),
        padded_digits(n, width).len() > 0,
        padded_digits(n, 0) == digits(n),
{
    digits_value(n);
    let plain = digits(n);
    if plain.len() < width {
        leading_zeros_value((width - plain.len()) as nat, plain);
    }
    assert(is_digit(padded_digits(n, width)[0]));
}

/// What stands behind the first `sep`, where there is one.
pub open spec fn behind_first(s: Seq<char>, sep: char) -> Option<Seq<char>>
    decreases s.len(),
{
    if s.len() == 0 {
        None
    } else if s[0] == sep {
        Some(s.skip(1))
    } else {
        behind_first(s.skip(1), sep)
    }
}

/// Cuts off everything up to the first `sep`.
pub fn after_first(s: &[char], sep: char) -> (r: Option<Vec<char>>)
    ensures
        r is Some <==> behind_first(s@, sep) is Some,
        r matches Some(rest) ==> behind_first(s@, sep) == Some(rest@),
{
    assert(s@.skip(0) =~= s@);
    for i in 0..s.len()
        invariant
            behind_first(s@, sep) == behind_first(s@.skip(i as int), sep),
    {
        assert(s@.skip(i as int).skip(1) =~= s@.skip(i + 1));
        if s[i] == sep {
            let rest = copy(s, i + 1, s.len());
            assert(rest@ =~= s@.skip(i + 1));
            return Some(rest);
        }
    }
    None
}

/// What stands behind a further separator, and holds none itself, is a further piece.
pub proof fn split_on_piece(s: Seq<char>, tail: Seq<char>, sep: char)
    requires
        !tail.contains(sep),
    ensures
        split_on(s.push(sep) + tail, sep) == split_on(s, sep).push(tail),
        last_piece(s.push(sep) + tail, sep) == tail,
{
    split_on_append(s.push(sep), tail, sep);
    split_on_separator(s, sep);
    let before = split_on(s, sep);
    assert(before.push(Seq::empty()).drop_last() =~= before);
    assert(Seq::<char>::empty() + tail =~= tail);
    assert(split_on(s.push(sep) + tail, sep) =~= before.push(tail));
}

/// A text without a separator is one piece.
pub proof fn split_on_whole(s: Seq<char>, sep: char)
    requires
        !s.contains(sep),
    ensures
        split_on(s, sep) == seq![s],
{
    let empty = Seq::<char>::empty();
    split_on_append(empty, s, sep);
    assert(empty + s =~= s);
    assert(split_on(empty, sep) =~= seq![empty]);
    assert(split_on(s, sep) =~= seq![s]);
}

/// Digits are no other characters.
pub proof fn digits_hold_no(s: Seq<char>, c: char)
    requires
        all_digits(s),
        !is_digit(c),
    ensures
        !s.contains(c),
{
    if s.contains(c) {
        let i = choose|i: int| 0 <= i < s.len() && s[i] == c;
        assert(is_digit(s[i]));
    }
}

/// The pieces of a text hold no separator, and put together with separators between them they are
/// the text again.
pub proof fn pieces_make_the_text(s: Seq<char>, sep: char)
    ensures
        joined(split_on(s, sep), sep) == s,
        forall|i: int|
            0 <= i < split_on(s, sep).len() ==> !(#[trigger] split_on(s, sep)[i]).contains(sep),
    decreases s.len(),
{
    let pieces = split_on(s, sep);
    if s.len() == 0 {
        assert(joined(pieces, sep) =~= s);
    } else {
        let before = split_on(s.drop_last(), sep);
        split_on_nonempty(s.drop_last(), sep);
        pieces_make_the_text(s.drop_last(), sep);
        if s.last() == sep {
            assert(pieces.drop_last() =~= before);
            assert(joined(pieces, sep) =~= s);
        } else {
            let longer = before.last().push(s.last());
            assert(pieces.drop_last() =~= before.drop_last());
            assert(joined(pieces, sep) =~= joined(before, sep).push(s.last()));
            assert(joined(pieces, sep) =~= s);
            assert(!longer.contains(sep)) by {
                if longer.contains(sep) {
                    let k = choose|k: int| 0 <= k < longer.len() && longer[k] == sep;
                    assert(before[before.len() - 1][k] == sep);
                    assert(before[before.len() - 1].contains(sep));
                }
            }
        }
        assert forall|i: int| 0 <= i < pieces.len() implies !(#[trigger] pieces[i]).contains(
            sep,
        ) by {
            if i < pieces.len() - 1 {
                assert(pieces[i] == before[i]);
            }
        }
    }
}

/// Some pieces with separators between them.
pub open spec fn joined(pieces: Seq<Seq<char>>, sep: char) -> Seq<char>
    decreases pieces.len(),
{
    if pieces.len() == 0 {
        Seq::empty()
    } else if pieces.len() == 1 {
        pieces[0]
    } else {
        joined(pieces.drop_last(), sep).push(sep) + pieces.last()
    }
}

/// Only white space is removed around a text.
pub proof fn only_white_space_is_trimmed(s: Seq<char>)
    ensures
        exists|a: int, b: int|
            0 <= a <= b <= s.len() && #[trigger] s.subrange(a, b) == trimmed(s) && all_white(
                s.take(a),
            ) && all_white(s.skip(b)),
{
    let a = leading_white(s);
    let rest = trimmed_start(s);
    let n = trailing_white(rest);
    let b = s.len() - n;
    assert(rest == s.skip(a));
    assert(s.subrange(a, b) =~= trimmed(s));
    assert forall|i: int| 0 <= i < s.skip(b).len() implies white_space(#[trigger] s.skip(b)[i]) by {
        assert(s.skip(b)[i] == rest.skip(rest.len() - n)[i]);
    }
}

proof fn leading_white(s: Seq<char>) -> (a: int)
    ensures
        0 <= a <= s.len(),
        trimmed_start(s) == s.skip(a),
        all_white(s.take(a)),
    decreases s.len(),
{
    if s.len() > 0 && white_space(s.first()) {
        let rest = s.drop_first();
        let a = leading_white(rest);
        assert(s.skip(a + 1) =~= rest.skip(a));
        assert forall|i: int| 0 <= i < a + 1 implies white_space(#[trigger] s.take(a + 1)[i]) by {
            if i > 0 {
                assert(rest.take(a)[i - 1] == s.take(a + 1)[i]);
            }
        }
        a + 1
    } else {
        assert(s.skip(0) =~= s);
        0
    }
}

proof fn trailing_white(s: Seq<char>) -> (n: int)
    ensures
        0 <= n <= s.len(),
        trimmed_end(s) == s.take(s.len() - n),
        all_white(s.skip(s.len() - n)),
    decreases s.len(),
{
    if s.len() > 0 && white_space(s.last()) {
        let rest = s.drop_last();
        let n = trailing_white(rest);
        let at = s.len() - n - 1;
        assert(s.take(at) =~= rest.take(at));
        assert forall|i: int| 0 <= i < n + 1 implies white_space(#[trigger] s.skip(at)[i]) by {
            if i < n {
                assert(rest.skip(at)[i] == s.skip(at)[i]);
            }
        }
        n + 1
    } else {
        assert(s.take(s.len() as int) =~= s);
        0
    }
}

/// A padded number has at least as many characters as asked for, and only zeros in front.
pub proof fn padding_is_zeros(n: nat, width: nat)
    ensures
        padded_digits(n, width).len() >= width,
        digits(n).len() >= width ==> padded_digits(n, width) == digits(n),
        digits(n).len() < width ==> padded_digits(n, width).len() == width,
        digits(n).is_suffix_of(padded_digits(n, width)),
        forall|i: int|
            0 <= i < padded_digits(n, width).len() - digits(n).len() ==> #[trigger] padded_digits(
                n,
                width,
            )[i] == '0',
{
    let all = padded_digits(n, width);
    assert(all.skip(all.len() - digits(n).len()) =~= digits(n));
}

/// What is read as a number is made of digits behind at most one plus sign, and of a value that
/// may be held; a plus sign changes nothing.
pub proof fn only_digits_are_numbers(s: Seq<char>, max: nat)
    ensures
        parsed_decimal(s, max) matches Some(n) ==> n <= max && (all_digits(s) || (s.len() > 0 && s[0]
            == '+' && all_digits(s.skip(1)))) && s.len() > 0,
        all_digits(s) && s.len() > 0 ==> parsed_decimal(seq!['+'] + s, max) == parsed_decimal(
            s,
            max,
        ),
        all_digits(s) && s.len() > 0 && decimal_value(s) <= max ==> parsed_decimal(s, max) == Some(
            decimal_value(s),
        ),
{
    assert((seq!['+'] + s).skip(1) =~= s);
    if s.len() > 0 && all_digits(s) {
        assert(is_digit(s[0]));
    }
}

/// What stands behind the first separator follows it, and what stands before holds none.
pub proof fn first_separator_is_cut_at(s: Seq<char>, sep: char)
    ensures
        behind_first(s, sep) is Some <==> s.contains(sep),
        behind_first(s, sep) matches Some(rest) ==> {
            let n = s.len() - rest.len() - 1;
            &&& 0 <= n < s.len()
            &&& s == s.take(n).push(sep) + rest
            &&& !s.take(n).contains(sep)
        },
    decreases s.len(),
{
    if s.len() > 0 {
        let tail = s.skip(1);
        if s[0] == sep {
            assert(s =~= s.take(0).push(sep) + tail);
        } else {
            first_separator_is_cut_at(tail, sep);
            if tail.contains(sep) {
                let i = choose|i: int| 0 <= i < tail.len() && tail[i] == sep;
                assert(s[i + 1] == sep);
            }
            if s.contains(sep) {
                let i = choose|i: int| 0 <= i < s.len() && s[i] == sep;
                assert(tail[i - 1] == sep);
            }
            match behind_first(tail, sep) {
                Some(rest) => {
                    let n = tail.len() - rest.len() - 1;
                    let whole = tail.take(n).push(sep) + rest;
                    assert forall|i: int| 0 <= i < s.len() implies s[i] == (s.take(n + 1).push(sep)
                        + rest)[i] by {
                        if i > 0 {
                            assert(s[i] == tail[i - 1]);
                            assert(tail[i - 1] == whole[i - 1]);
                        }
                    }
                    assert(s =~= s.take(n + 1).push(sep) + rest);
                    assert(!s.take(n + 1).contains(sep)) by {
                        let front = s.take(n + 1);
                        if front.contains(sep) {
                            let i = choose|i: int| 0 <= i < front.len() && front[i] == sep;
                            assert(tail.take(n)[i - 1] == sep);
                            assert(tail.take(n).contains(sep));
                        }
                    }
                },
                None => {},
            }
        }
    }
}

/// A part stands in a text exactly if the text is that part with something before and behind it.
pub proof fn parts_stand_between_others(s: Seq<char>, part: Seq<char>, front: Seq<char>, back: Seq<char>)
    ensures
        has_part(front + part + back, part),
        has_part(s, part) ==> exists|i: int|
            0 <= i <= s.len() - part.len() && s == #[trigger] s.take(i) + part + s.skip(
                i + part.len(),
            ),
{
    let whole = front + part + back;
    let n = front.len() as int;
    assert(whole.subrange(n, n + part.len()) =~= part);
    assert(stands_at(whole, part, n));
    if has_part(s, part) {
        let i = choose|i: int| #[trigger] stands_at(s, part, i);
        assert(s =~= s.take(i) + s.subrange(i, i + part.len()) + s.skip(i + part.len()));
        assert(s == s.take(i) + part + s.skip(i + part.len()));
    }
}

} // verus!
