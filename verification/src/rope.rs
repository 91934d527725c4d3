//! The text of a buffer, held in a `ropey::Rope`, and what its index conversions mean.
//!
//! A rope is viewed as the sequence of chars it holds. Byte offsets are offsets into
//! the UTF-8 encoding of that sequence; lines are separated by the line breaks that
//! ropey recognises with its default features: LF, VT, FF, CR, NEL, LS, PS, and the
//! pair CR LF, which counts as one break.

use vstd::prelude::*;
use crate::scroll::{utf8_len, lemma_encode_concat};
use ropey::Rope;

verus! {

#[verifier::external_type_specification]
#[verifier::external_body]
pub struct ExRope(Rope);

/// The chars a rope holds, in order.
pub uninterp spec fn rope_chars(r: Rope) -> Seq<char>;

/// The byte offset at which char `i` of `s` starts.
pub open spec fn byte_of(s: Seq<char>, i: int) -> int {
    utf8_len(s.take(i))
}

pub open spec fn char_at_byte_from(s: Seq<char>, b: int, i: int) -> int
    decreases s.len() - i,
{
    if i >= s.len() || b < byte_of(s, i + 1) {
        i
    } else {
        char_at_byte_from(s, b, i + 1)
    }
}

/// The index of the char that holds byte `b`; the char count for the byte just past
/// the end.
pub open spec fn char_at_byte(s: Seq<char>, b: int) -> int {
    char_at_byte_from(s, b, 0)
}

/// The chars that end a line.
pub open spec fn is_break_char(c: char) -> bool {
    ||| c == '\n'
    ||| c == '\u{0B}'
    ||| c == '\u{0C}'
    ||| c == '\r'
    ||| c == '\u{85}'
    ||| c == '\u{2028}'
    ||| c == '\u{2029}'
}

/// Position `e` of `s` directly follows a line break (a CR that a LF follows is not
/// a break of its own: the pair is).
pub open spec fn ends_break(s: Seq<char>, e: int) -> bool {
    &&& 0 < e <= s.len()
    &&& is_break_char(s[e - 1])
    &&& !(s[e - 1] == '\r' && e < s.len() && s[e] == '\n')
}

/// The number of line breaks that end at or before char position `p`: the index of
/// the line that position `p` lies on.
pub open spec fn breaks_before(s: Seq<char>, p: int) -> nat
    decreases p,
{
    if p <= 0 {
        0
    } else {
        breaks_before(s, p - 1) + if ends_break(s, p) {
            1nat
        } else {
            0nat
        }
    }
}

/// The number of lines of `s`: one more than its line breaks.
pub open spec fn line_count(s: Seq<char>) -> nat {
    breaks_before(s, s.len() as int) + 1
}

pub open spec fn line_start_from(s: Seq<char>, l: int, p: int) -> int
    decreases s.len() - p,
{
    if p >= s.len() || breaks_before(s, p) >= l {
        p
    } else {
        line_start_from(s, l, p + 1)
    }
}

/// The char position at which line `l` starts; the char count for the line just past
/// the last.
pub open spec fn line_start(s: Seq<char>, l: int) -> int {
    line_start_from(s, l, 0)
}

/// The bytes of one char: between one and four.
pub proof fn lemma_char_bytes(c: char)
    ensures
        1 <= utf8_len(seq![c]) <= 4,
{
    reveal_with_fuel(vstd::utf8::encode_utf8, 2);
    vstd::utf8::char_is_scalar(c);
    assert(seq![c].drop_first() =~= Seq::<char>::empty());
}

/// The encoding of a concatenation is the concatenation of the encodings.
pub proof fn lemma_utf8_len_concat(a: Seq<char>, b: Seq<char>)
    ensures
        utf8_len(a + b) == utf8_len(a) + utf8_len(b),
{
    lemma_encode_concat(a, b);
}

/// One more char adds its bytes.
pub proof fn lemma_byte_of_step(s: Seq<char>, i: int)
    requires
        0 <= i < s.len(),
    ensures
        byte_of(s, i + 1) == byte_of(s, i) + utf8_len(seq![s[i]]),
        byte_of(s, i) < byte_of(s, i + 1),
{
    assert(s.take(i + 1) =~= s.take(i) + seq![s[i]]);
    lemma_utf8_len_concat(s.take(i), seq![s[i]]);
    lemma_char_bytes(s[i]);
}

/// Byte offsets grow strictly with char positions.
pub proof fn lemma_byte_of_mono(s: Seq<char>, i: int, j: int)
    requires
        0 <= i <= j <= s.len(),
    ensures
        byte_of(s, i) + (j - i) <= byte_of(s, j),
    decreases j - i,
{
    if i < j {
        lemma_byte_of_mono(s, i, j - 1);
        lemma_byte_of_step(s, j - 1);
    }
}

/// The ends of the byte offsets.
pub proof fn lemma_byte_of_ends(s: Seq<char>)
    ensures
        byte_of(s, 0) == 0,
        byte_of(s, s.len() as int) == utf8_len(s),
{
    assert(s.take(0) =~= Seq::<char>::empty());
    assert(s.take(s.len() as int) =~= s);
}

proof fn lemma_char_at_byte_from(s: Seq<char>, b: int, i: int)
    requires
        0 <= i <= s.len(),
        byte_of(s, i) <= b,
    ensures
        i <= char_at_byte_from(s, b, i) <= s.len(),
        byte_of(s, char_at_byte_from(s, b, i)) <= b,
        char_at_byte_from(s, b, i) < s.len() ==> b < byte_of(s, char_at_byte_from(s, b, i) + 1),
    decreases s.len() - i,
{
    if i < s.len() && b >= byte_of(s, i + 1) {
        lemma_char_at_byte_from(s, b, i + 1);
    }
}

/// The char at byte `b` starts at or before `b`, and the next char starts after it.
pub proof fn lemma_char_at_byte(s: Seq<char>, b: int)
    requires
        0 <= b,
    ensures
        0 <= char_at_byte(s, b) <= s.len(),
        byte_of(s, char_at_byte(s, b)) <= b,
        char_at_byte(s, b) < s.len() ==> b < byte_of(s, char_at_byte(s, b) + 1),
        b >= utf8_len(s) ==> char_at_byte(s, b) == s.len(),
{
    lemma_byte_of_ends(s);
    lemma_char_at_byte_from(s, b, 0);
    let c = char_at_byte(s, b);
    if b >= utf8_len(s) && c < s.len() {
        lemma_byte_of_mono(s, c + 1, s.len() as int);
    }
}

/// Only one char holds a byte.
pub proof fn lemma_char_at_byte_unique(s: Seq<char>, b: int, c: int)
    requires
        0 <= b,
        0 <= c <= s.len(),
        byte_of(s, c) <= b,
        c < s.len() ==> b < byte_of(s, c + 1),
    ensures
        char_at_byte(s, b) == c,
{
    lemma_char_at_byte(s, b);
    let d = char_at_byte(s, b);
    if d < c {
        lemma_byte_of_mono(s, d + 1, c);
    } else if c < d {
        lemma_byte_of_mono(s, c + 1, d);
    }
}

/// The byte at which a char starts is held by that char.
pub proof fn lemma_char_at_byte_of(s: Seq<char>, i: int)
    requires
        0 <= i <= s.len(),
    ensures
        char_at_byte(s, byte_of(s, i)) == i,
{
    lemma_byte_of_ends(s);
    lemma_byte_of_mono(s, 0, i);
    if i < s.len() {
        lemma_byte_of_step(s, i);
    }
    lemma_char_at_byte_unique(s, byte_of(s, i), i);
}

/// Line indices grow by at most one per char.
pub proof fn lemma_breaks_mono(s: Seq<char>, p: int, q: int)
    requires
        0 <= p <= q,
    ensures
        breaks_before(s, p) <= breaks_before(s, q) <= breaks_before(s, p) + (q - p),
    decreases q - p,
{
    if p < q {
        lemma_breaks_mono(s, p, q - 1);
    }
}

proof fn lemma_line_start_from(s: Seq<char>, l: int, p: int)
    requires
        0 <= p <= s.len(),
        forall|q: int| 0 <= q < p ==> breaks_before(s, q) < l,
    ensures
        p <= line_start_from(s, l, p) <= s.len(),
        forall|q: int| 0 <= q < line_start_from(s, l, p) ==> breaks_before(s, q) < l,
        line_start_from(s, l, p) < s.len() ==> breaks_before(s, line_start_from(s, l, p)) >= l,
    decreases s.len() - p,
{
    if p < s.len() && breaks_before(s, p) < l {
        lemma_line_start_from(s, l, p + 1);
    }
}

/// Line `l` starts where the `l`-th line break ends: no earlier position lies on a line
/// of index `l` or more, and (for a line that exists) the start lies on line `l`.
pub proof fn lemma_line_start(s: Seq<char>, l: int)
    requires
        0 <= l,
    ensures
        0 <= line_start(s, l) <= s.len(),
        forall|q: int| 0 <= q < line_start(s, l) ==> breaks_before(s, q) < l,
        l < line_count(s) ==> breaks_before(s, line_start(s, l)) == l,
        l >= line_count(s) ==> line_start(s, l) == s.len(),
        l == 0 ==> line_start(s, l) == 0,
        l > 0 && l < line_count(s) ==> ends_break(s, line_start(s, l)),
{
    lemma_line_start_from(s, l, 0);
    let p = line_start(s, l);
    if p > 0 {
        assert(breaks_before(s, p - 1) < l);
        lemma_breaks_mono(s, p - 1, p);
    }
    if l >= line_count(s) && p < s.len() {
        lemma_breaks_mono(s, p, s.len() as int);
    }
    if l > 0 && l < line_count(s) {
        if p == 0 {
        } else {
            assert(breaks_before(s, p - 1) < l);
        }
    }
}

/// The line that holds position `c` starts at or before `c`, and the next line starts
/// after it.
pub proof fn lemma_line_of(s: Seq<char>, c: int)
    requires
        0 <= c <= s.len(),
    ensures
        line_start(s, breaks_before(s, c) as int) <= c,
        breaks_before(s, c) < line_count(s),
        c < line_start(s, breaks_before(s, c) + 1int) || line_start(s, breaks_before(s, c) + 1int)
            == s.len(),
{
    let l = breaks_before(s, c) as int;
    lemma_breaks_mono(s, c, s.len() as int);
    lemma_line_start(s, l);
    lemma_line_start(s, l + 1);
    if line_start(s, l) > c {
        assert(breaks_before(s, c) < l);
    }
    let n = line_start(s, l + 1);
    if n <= c && n < s.len() {
        lemma_breaks_mono(s, n, c);
    }
}

/// `Rope::new`: an empty rope.
#[verifier::external_body]
pub(crate) fn rope_new() -> (r: Rope)
    ensures
        rope_chars(r) == Seq::<char>::empty(),
{
    Rope::new()
}

/// `Rope::from_str`: a rope holding the chars of `text`.
#[verifier::external_body]
pub(crate) fn rope_from_str(text: &str) -> (r: Rope)
    ensures
        rope_chars(r) == text@,
{
    Rope::from_str(text)
}

/// `Rope::len_bytes`: the length of the rope's UTF-8 encoding.
#[verifier::external_body]
pub(crate) fn rope_len_bytes(r: &Rope) -> (n: usize)
    ensures
        n == utf8_len(rope_chars(*r)),
{
    r.len_bytes()
}

/// `Rope::len_chars`: the number of chars.
#[verifier::external_body]
pub(crate) fn rope_len_chars(r: &Rope) -> (n: usize)
    ensures
        n == rope_chars(*r).len(),
{
    r.len_chars()
}

/// `Rope::len_lines`: one more than the number of line breaks.
#[verifier::external_body]
pub(crate) fn rope_len_lines(r: &Rope) -> (n: usize)
    ensures
        n == line_count(rope_chars(*r)),
{
    r.len_lines()
}

/// `Rope::char`: the char at a char index.
#[verifier::external_body]
pub(crate) fn rope_char(r: &Rope, char_idx: usize) -> (c: char)
    requires
        char_idx < rope_chars(*r).len(),
    ensures
        c == rope_chars(*r)[char_idx as int],
{
    r.char(char_idx)
}

/// `Rope::byte_to_char`: the index of the char that holds the byte (the char count for
/// the byte just past the end).
#[verifier::external_body]
pub(crate) fn rope_byte_to_char(r: &Rope, byte_idx: usize) -> (c: usize)
    requires
        byte_idx <= utf8_len(rope_chars(*r)),
    ensures
        c == char_at_byte(rope_chars(*r), byte_idx as int),
{
    r.byte_to_char(byte_idx)
}

/// `Rope::char_to_byte`: the byte at which a char starts.
#[verifier::external_body]
pub(crate) fn rope_char_to_byte(r: &Rope, char_idx: usize) -> (b: usize)
    requires
        char_idx <= rope_chars(*r).len(),
    ensures
        b == byte_of(rope_chars(*r), char_idx as int),
{
    r.char_to_byte(char_idx)
}

/// `Rope::byte_to_line`: the number of line breaks before the byte.
#[verifier::external_body]
pub(crate) fn rope_byte_to_line(r: &Rope, byte_idx: usize) -> (l: usize)
    requires
        byte_idx <= utf8_len(rope_chars(*r)),
    ensures
        l == breaks_before(rope_chars(*r), char_at_byte(rope_chars(*r), byte_idx as int)),
{
    r.byte_to_line(byte_idx)
}

/// `Rope::line_to_char`: the char index at which a line starts (the char count for the
/// line just past the last).
#[verifier::external_body]
pub(crate) fn rope_line_to_char(r: &Rope, line_idx: usize) -> (c: usize)
    requires
        line_idx <= line_count(rope_chars(*r)),
    ensures
        c == line_start(rope_chars(*r), line_idx as int),
{
    r.line_to_char(line_idx)
}

/// `Rope::insert`: inserts `text` before the char at `char_idx`.
#[verifier::external_body]
pub(crate) fn rope_insert(r: &mut Rope, char_idx: usize, text: &str)
    requires
        char_idx <= rope_chars(*old(r)).len(),
    ensures
        rope_chars(*final(r)) == rope_chars(*old(r)).take(char_idx as int) + text@ + rope_chars(
            *old(r),
        ).skip(char_idx as int),
{
    r.insert(char_idx, text)
}

/// `Rope::remove`: removes the chars `start..end`.
#[verifier::external_body]
pub(crate) fn rope_remove(r: &mut Rope, start: usize, end: usize)
    requires
        start <= end <= rope_chars(*old(r)).len(),
    ensures
        rope_chars(*final(r)) == rope_chars(*old(r)).take(start as int) + rope_chars(
            *old(r),
        ).skip(end as int),
{
    r.remove(start..end)
}

/// `Rope::slice`, as a `String`: the chars `start..end`.
#[verifier::external_body]
pub(crate) fn rope_slice_string(r: &Rope, start: usize, end: usize) -> (t: String)
    requires
        start <= end <= rope_chars(*r).len(),
    ensures
        t@ == rope_chars(*r).subrange(start as int, end as int),
{
    r.slice(start..end).to_string()
}

/// `Rope::line`, as a `String`: line `line_idx` with its line break.
#[verifier::external_body]
pub(crate) fn rope_line_string(r: &Rope, line_idx: usize) -> (t: String)
    requires
        line_idx < line_count(rope_chars(*r)),
    ensures
        t@ == rope_chars(*r).subrange(
            line_start(rope_chars(*r), line_idx as int),
            line_start(rope_chars(*r), line_idx + 1),
        ),
{
    r.line(line_idx).to_string()
}

} // verus!
