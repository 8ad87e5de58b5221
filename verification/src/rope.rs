//! The text of a buffer is held in a `ropey::Rope`.  This module states what
//! the rope operations the editor uses do to the rope's text, a sequence of
//! chars, and names how `unicode_segmentation` splits text into graphemes.
use vstd::prelude::*;
use ropey::Rope;
use unicode_segmentation::UnicodeSegmentation;

verus! {

#[verifier::external_type_specification]
#[verifier::external_body]
pub struct ExRope(ropey::Rope);

/// The chars held by a rope.
pub uninterp spec fn rope_text(r: Rope) -> Seq<char>;

/// The lengths in chars of the extended grapheme clusters of a text, in order.
pub uninterp spec fn grapheme_lens(text: Seq<char>) -> Seq<usize>;

// ---------------------------------------------------------------------------
// Line breaks, as ropey recognises them with its default features.

/// The chars that end a line (`\r\n` counts as one line break).
pub open spec fn is_break_char(c: char) -> bool {
    c == '\n' || c == '\u{0B}' || c == '\u{0C}' || c == '\r' || c == '\u{85}' || c == '\u{2028}'
        || c == '\u{2029}'
}

/// `e` is the position just after a line break of `t`.
pub open spec fn is_line_end(t: Seq<char>, e: int) -> bool {
    &&& 1 <= e <= t.len()
    &&& is_break_char(t[e - 1])
    &&& !(t[e - 1] == '\r' && e < t.len() && t[e] == '\n')
}

/// The number of line breaks that end at or before position `i`: the line
/// index of position `i`.
pub open spec fn line_of(t: Seq<char>, i: int) -> nat
    decreases i,
{
    if i <= 0 {
        0
    } else {
        line_of(t, i - 1) + if is_line_end(t, i) { 1nat } else { 0nat }
    }
}

/// The number of lines of `t`.
pub open spec fn num_lines(t: Seq<char>) -> nat {
    line_of(t, t.len() as int) + 1
}

/// `p` is where line `l` of `t` starts.
pub open spec fn is_line_start(t: Seq<char>, l: int, p: int) -> bool {
    &&& 0 <= p <= t.len()
    &&& line_of(t, p) == l
    &&& (p == 0 || is_line_end(t, p))
}

/// Where line `l` of `t` starts (meaningful for `l < num_lines(t)`).
pub open spec fn line_start(t: Seq<char>, l: int) -> int {
    choose|p: int| is_line_start(t, l, p)
}

// ---------------------------------------------------------------------------
// UTF-8 widths.

/// The number of bytes of `c` in UTF-8.
pub open spec fn utf8_width(c: char) -> nat {
    if (c as u32) < 0x80 {
        1
    } else if (c as u32) < 0x800 {
        2
    } else if (c as u32) < 0x10000 {
        3
    } else {
        4
    }
}

/// The number of UTF-8 bytes of the first `i` chars of `t`.
pub open spec fn bytes_before(t: Seq<char>, i: int) -> nat
    decreases i,
{
    if i <= 0 {
        0
    } else {
        bytes_before(t, i - 1) + utf8_width(t[i - 1])
    }
}

/// The sum of a sequence of lengths.
pub open spec fn sum_lens(s: Seq<usize>) -> nat
    decreases s.len(),
{
    if s.len() == 0 {
        0
    } else {
        sum_lens(s.drop_last()) + s.last() as nat
    }
}

/// The line index of a line break's end is one more than just before it.
pub proof fn lemma_line_of_mono(t: Seq<char>, a: int, b: int)
    requires
        a <= b,
    ensures
        line_of(t, a) <= line_of(t, b),
    decreases b - a,
{
    if a < b {
        lemma_line_of_mono(t, a, b - 1);
    }
}

/// A line start is no later than the positions of its line.
pub proof fn lemma_line_start_before(t: Seq<char>, c: int, p: int)
    requires
        0 <= c <= t.len(),
        is_line_start(t, line_of(t, c) as int, p),
    ensures
        p <= c,
{
    if p > c {
        lemma_line_of_mono(t, c, p - 1);
    }
}

/// A line has only one start.
pub proof fn lemma_line_start_unique(t: Seq<char>, l: int, p: int, q: int)
    requires
        is_line_start(t, l, p),
        is_line_start(t, l, q),
    ensures
        p == q,
{
    if p < q {
        lemma_line_of_mono(t, p, q - 1);
    } else if q < p {
        lemma_line_of_mono(t, q, p - 1);
    }
}

/// A line start found by `line_to_char` is the one `line_start` names.
pub proof fn lemma_line_start_is(t: Seq<char>, l: int, p: int)
    requires
        is_line_start(t, l, p),
    ensures
        line_start(t, l) == p,
{
    let q = line_start(t, l);
    lemma_line_start_unique(t, l, p, q);
}

/// The start of the next line comes after the start of a line, and is not
/// the start of the text.
pub proof fn lemma_line_starts_increase(t: Seq<char>, l: int, p: int, q: int)
    requires
        is_line_start(t, l, p),
        is_line_start(t, l + 1, q),
    ensures
        p < q,
        q >= 1,
{
    if q <= p {
        lemma_line_of_mono(t, q, p);
    }
}

/// Every position is on one of the lines.
pub proof fn lemma_line_of_bound(t: Seq<char>, c: int)
    requires
        0 <= c <= t.len(),
    ensures
        line_of(t, c) < num_lines(t),
{
    lemma_line_of_mono(t, c, t.len() as int);
}

/// Bytes before a position grow with the position.
pub proof fn lemma_bytes_before_mono(t: Seq<char>, a: int, b: int)
    requires
        a <= b,
    ensures
        bytes_before(t, a) + (b - a) <= bytes_before(t, b) || a < 0,
        bytes_before(t, a) <= bytes_before(t, b),
    decreases b - a,
{
    if a < b {
        lemma_bytes_before_mono(t, a, b - 1);
    }
}

/// `c` is the index of the char that byte `b` belongs to (or one past the
/// end for the one-past-the-end byte).
pub open spec fn char_holds_byte(t: Seq<char>, b: int, c: int) -> bool {
    &&& 0 <= c <= t.len()
    &&& bytes_before(t, c) <= b
    &&& (c < t.len() ==> b < bytes_before(t, c + 1))
}

/// The index of the char that byte `b` belongs to.
pub open spec fn char_of_byte(t: Seq<char>, b: int) -> int {
    choose|c: int| #[trigger] char_holds_byte(t, b, c)
}

pub proof fn lemma_char_of_byte(t: Seq<char>, b: int, c: int)
    requires
        char_holds_byte(t, b, c),
    ensures
        char_of_byte(t, b) == c,
{
    let d = char_of_byte(t, b);
    assert(char_holds_byte(t, b, d));
    if d < c {
        lemma_bytes_before_mono(t, d + 1, c);
    } else if c < d {
        lemma_bytes_before_mono(t, c + 1, d);
    }
}

/// Where line `l` starts, in bytes; the byte length for the line past the
/// last.
pub open spec fn line_byte(t: Seq<char>, l: int) -> int {
    if l == num_lines(t) {
        bytes_before(t, t.len() as int) as int
    } else {
        bytes_before(t, line_start(t, l)) as int
    }
}

// ---------------------------------------------------------------------------
// What ropey and unicode-segmentation are relied on for.

/// `Rope::new`: an empty rope.
#[verifier::external_body]
pub(crate) fn rope_new() -> (r: Rope)
    ensures
        rope_text(r) == Seq::<char>::empty(),
{
    Rope::new()
}

/// `Rope::from_str`: a rope holding the chars of `s`.
#[verifier::external_body]
pub(crate) fn rope_from_str(s: &str) -> (r: Rope)
    ensures
        rope_text(r) == s@,
{
    Rope::from_str(s)
}

/// `Rope::clone`: a rope with the same chars.
#[verifier::external_body]
pub(crate) fn rope_clone(r: &Rope) -> (c: Rope)
    ensures
        rope_text(c) == rope_text(*r),
{
    r.clone()
}

/// `Rope::len_chars`: the number of chars.
#[verifier::external_body]
pub(crate) fn rope_len_chars(r: &Rope) -> (n: usize)
    ensures
        n == rope_text(*r).len(),
{
    r.len_chars()
}

/// `Rope::len_bytes`: the number of bytes of the text in UTF-8.
#[verifier::external_body]
pub(crate) fn rope_len_bytes(r: &Rope) -> (n: usize)
    ensures
        n == bytes_before(rope_text(*r), rope_text(*r).len() as int),
{
    r.len_bytes()
}

/// `Rope::len_lines`: one more than the number of line breaks.
#[verifier::external_body]
pub(crate) fn rope_len_lines(r: &Rope) -> (n: usize)
    ensures
        n == num_lines(rope_text(*r)),
{
    r.len_lines()
}

/// `Rope::char`: the char at `char_idx`.  Panics when out of bounds.
#[verifier::external_body]
pub(crate) fn rope_char(r: &Rope, char_idx: usize) -> (c: char)
    requires
        char_idx < rope_text(*r).len(),
    ensures
        c == rope_text(*r)[char_idx as int],
{
    r.char(char_idx)
}

/// `Rope::insert`: puts `text` before the char at `char_idx`.  Panics when
/// `char_idx` is past the end.
#[verifier::external_body]
pub(crate) fn rope_insert(r: &mut Rope, char_idx: usize, text: &str)
    requires
        char_idx <= rope_text(*old(r)).len(),
    ensures
        rope_text(*final(r)) == rope_text(*old(r)).take(char_idx as int) + text@ + rope_text(
            *old(r),
        ).skip(char_idx as int),
{
    r.insert(char_idx, text)
}

/// `Rope::remove`: takes out the chars `start..end`.  Panics unless
/// `start <= end <= len_chars()`.
#[verifier::external_body]
pub(crate) fn rope_remove(r: &mut Rope, start: usize, end: usize)
    requires
        start <= end <= rope_text(*old(r)).len(),
    ensures
        rope_text(*final(r)) == rope_text(*old(r)).take(start as int) + rope_text(*old(r)).skip(
            end as int,
        ),
{
    r.remove(start..end)
}

/// `Rope::char_to_line`: the number of line breaks before the char.  Panics
/// when `char_idx > len_chars()`.
#[verifier::external_body]
pub(crate) fn rope_char_to_line(r: &Rope, char_idx: usize) -> (l: usize)
    requires
        char_idx <= rope_text(*r).len(),
    ensures
        l == line_of(rope_text(*r), char_idx as int),
{
    r.char_to_line(char_idx)
}

/// `Rope::line_to_char`: where line `line_idx` starts; one past the end for
/// `line_idx == len_lines()`.  Panics when `line_idx > len_lines()`.
#[verifier::external_body]
pub(crate) fn rope_line_to_char(r: &Rope, line_idx: usize) -> (p: usize)
    requires
        line_idx <= num_lines(rope_text(*r)),
    ensures
        line_idx == num_lines(rope_text(*r)) ==> p == rope_text(*r).len(),
        line_idx < num_lines(rope_text(*r)) ==> is_line_start(
            rope_text(*r),
            line_idx as int,
            p as int,
        ),
{
    r.line_to_char(line_idx)
}

/// `Rope::char_to_byte`: the UTF-8 byte offset of the char.  Panics when
/// `char_idx > len_chars()`.
#[verifier::external_body]
pub(crate) fn rope_char_to_byte(r: &Rope, char_idx: usize) -> (b: usize)
    requires
        char_idx <= rope_text(*r).len(),
    ensures
        b == bytes_before(rope_text(*r), char_idx as int),
{
    r.char_to_byte(char_idx)
}

/// `Rope::byte_to_char`: the index of the char that the byte belongs to, or
/// one past the end for the one-past-the-end byte.  Panics when
/// `byte_idx > len_bytes()`.
#[verifier::external_body]
pub(crate) fn rope_byte_to_char(r: &Rope, byte_idx: usize) -> (c: usize)
    requires
        byte_idx <= bytes_before(rope_text(*r), rope_text(*r).len() as int),
    ensures
        c <= rope_text(*r).len(),
        bytes_before(rope_text(*r), c as int) <= byte_idx,
        c < rope_text(*r).len() ==> byte_idx < bytes_before(rope_text(*r), c + 1),
{
    r.byte_to_char(byte_idx)
}

/// `Rope::line_to_byte`: the UTF-8 byte offset where line `line_idx` starts;
/// the byte length for `line_idx == len_lines()`.  Panics when
/// `line_idx > len_lines()`.
#[verifier::external_body]
pub(crate) fn rope_line_to_byte(r: &Rope, line_idx: usize) -> (b: usize)
    requires
        line_idx <= num_lines(rope_text(*r)),
    ensures
        line_idx == num_lines(rope_text(*r)) ==> b == bytes_before(
            rope_text(*r),
            rope_text(*r).len() as int,
        ),
        line_idx < num_lines(rope_text(*r)) ==> b == bytes_before(
            rope_text(*r),
            line_start(rope_text(*r), line_idx as int),
        ),
{
    r.line_to_byte(line_idx)
}

/// `RopeSlice`'s `Display`: the chars `start..end` as a `String`.  Panics
/// unless `start <= end <= len_chars()`.
#[verifier::external_body]
pub(crate) fn rope_slice_string(r: &Rope, start: usize, end: usize) -> (s: String)
    requires
        start <= end <= rope_text(*r).len(),
    ensures
        s@ == rope_text(*r).subrange(start as int, end as int),
{
    r.slice(start..end).to_string()
}

/// Clusters of lengths `lens`, laid end to end from the start of a text,
/// meet at position `i`: `i` is the end of the first `k` of them, for some
/// `k`.
pub open spec fn cuts_at(lens: Seq<usize>, i: int) -> bool {
    exists|k: int| 0 <= k <= lens.len() && sum_lens(lens.take(k)) == i
}

/// An ASCII char.
pub open spec fn is_ascii_char(c: char) -> bool {
    (c as u32) < 0x80
}

/// An ASCII control char: U+0000 to U+001F and U+007F (CR and LF among
/// them).
pub open spec fn is_ascii_control(c: char) -> bool {
    (c as u32) < 0x20 || (c as u32) == 0x7f
}

/// What the grapheme cluster rules of Unicode (UAX #29) say of the position
/// `i` between two chars of `t` where ASCII is concerned: there is a
/// boundary between two ASCII chars (rule GB999), and before and after a
/// control char, CR or LF (rules GB4, GB5), except between a CR and the LF
/// that follows it (rule GB3).
pub open spec fn ascii_break(t: Seq<char>, i: int) -> bool {
    &&& !(t[i - 1] == '\r' && t[i] == '\n')
    &&& ((is_ascii_char(t[i - 1]) && is_ascii_char(t[i])) || is_ascii_control(t[i - 1])
        || is_ascii_control(t[i]))
}

/// `UnicodeSegmentation::graphemes(s, true)`: the extended grapheme clusters
/// of `s`, each given by its length in chars.  The clusters split `s` into
/// non-empty consecutive pieces, so the lengths are positive and add up to
/// the length of `s`.  Of where the boundaries fall, what the rules say of
/// ASCII is stated (see `ascii_break`; the crate gives ASCII below U+007F
/// the category `Any`, CR and LF their own, the other controls `Control`,
/// and its pair rules break on these as the Unicode rules do); the rest of
/// the rules is left to the name `grapheme_lens`.
#[verifier::external_body]
pub(crate) fn grapheme_lengths(s: &str) -> (v: Vec<usize>)
    ensures
        v@ == grapheme_lens(s@),
        forall|i: int| 0 <= i < v@.len() ==> v@[i] >= 1,
        sum_lens(v@) == s@.len(),
        forall|i: int| 0 < i < s@.len() && #[trigger] ascii_break(s@, i) ==> cuts_at(v@, i),
        forall|i: int| 0 < i < s@.len() && s@[i - 1] == '\r' && s@[i] == '\n' ==> !#[trigger] cuts_at(v@, i),
{
    let mut v = Vec::new();
    for g in s.graphemes(true) {
        v.push(g.chars().count());
    }
    v
}

} // verus!
