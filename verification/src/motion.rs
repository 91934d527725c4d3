//! Motions: commands that move or shape the primary selection of a buffer.

use vstd::prelude::*;
use crate::buffer::{TextBuffer, char_of_byte, clamp_byte, line_first_byte, line_of_byte, same_setting};
use crate::cursor::{Cursor, max_u, min_u};
use crate::indent::is_ws;
use crate::pattern::{CompiledRegex, regex_all, regex_builds, regex_find_all, regex_first, regex_new, regex_search};
use crate::rope::{byte_of, char_at_byte, line_count, lemma_char_at_byte, lemma_byte_of_ends, lemma_byte_of_mono, lemma_utf8_len_concat};
use crate::scroll::utf8_len;

verus! {

/// A command that moves or shapes the primary selection.
pub enum MotionCommand {
    /// Selects the first match of the regex in the buffer
    Regex { pattern: String, extend: bool },
    /// Selects the first match of the regex from the cursor (moved by `offset`); with
    /// `advance`, the first whose last byte is not where the selection ends
    RegexCursor { pattern: String, offset: Option<isize>, extend: bool, advance: bool },
    /// Selects the last match of the regex before the cursor (moved by `offset`); with
    /// `advance`, the last that does not start where the selection starts
    RegexCursorBackwards { pattern: String, offset: Option<isize>, extend: bool, advance: bool },
    /// Selects the first match of the regex within the selection
    RegexSel { pattern: String },
    /// Creates a cursor at each match of the regex in the selection
    RegexSelAll { pattern: String },
    /// Selects the current line
    SelectLine { extend: bool },
    /// Clears the current selection
    ClearSelection,
    /// Sets the caret to the end of the selection
    GotoSelectionEnd,
    /// Sets the caret to the beginning of the selection
    GotoSelectionBegin,
    /// Selects to the end of the line
    SelectLineEnd { extend: bool },
    /// Selects to the beginning of the line
    SelectLineBegin { extend: bool },
    /// Selects to the first non-whitespace character of the line
    SelectFirstNonWhitespace { extend: bool },
}

/// The byte at which the line ends: the last byte before the next line (its line
/// break), or the end of the text on the last line.
pub open spec fn line_last_byte(s: Seq<char>, l: int) -> int {
    if l + 1 >= line_count(s) {
        utf8_len(s)
    } else {
        line_first_byte(s, l + 1) - 1
    }
}

/// The char index at which the line ends, as `SelectFirstNonWhitespace` takes it.
pub open spec fn line_last_char(s: Seq<char>, l: int) -> int {
    if l + 1 >= line_count(s) {
        s.len() as int
    } else {
        char_of_byte(s, line_first_byte(s, l + 1) - 1)
    }
}

/// The first char from `from` on, before `to`, that is not whitespace (`to` if none).
pub open spec fn first_non_ws(s: Seq<char>, from: int, to: int) -> int
    decreases to - from,
{
    if from >= to || !is_ws(s[from]) {
        from
    } else {
        first_non_ws(s, from + 1, to)
    }
}

/// The chars between the ones that hold bytes `a` and `b`.
pub open spec fn byte_slice(s: Seq<char>, a: int, b: int) -> Seq<char> {
    s.subrange(char_at_byte(s, a), char_at_byte(s, b))
}

/// The cursor selecting towards `caret` from its anchor: the end kept is the
/// selection's end when `extend` equals `at_start`, its start otherwise.
pub open spec fn towards(c: Cursor, caret: int, extend: bool) -> Cursor {
    let anchor = if extend == c.at_start {
        c.sel_end
    } else {
        c.sel_start
    };
    Cursor {
        sel_start: min_u(anchor, caret as usize),
        sel_end: max_u(anchor, caret as usize),
        at_start: caret < anchor,
    }
}

/// The cursor selecting a whole line `ls..=le`, or growing from its anchor to cover it.
pub open spec fn line_selected(c: Cursor, ls: int, le: int, extend: bool) -> Cursor {
    if extend {
        let anchor = if c.at_start {
            c.sel_end
        } else {
            c.sel_start
        };
        Cursor {
            sel_start: min_u(anchor, ls as usize),
            sel_end: max_u(anchor, le as usize),
            at_start: ls < anchor,
        }
    } else {
        Cursor { sel_start: ls as usize, sel_end: le as usize, at_start: false }
    }
}

/// The cursor selecting the match `start..end` (its last byte being `end - 1`), or
/// growing to cover it.
pub open spec fn match_selected(c: Cursor, start: int, end: int, extend: bool) -> Cursor {
    let last = if end >= 1 {
        (end - 1) as usize
    } else {
        0usize
    };
    if extend {
        Cursor { sel_start: min_u(c.sel_start, start as usize), sel_end: max_u(c.sel_end, last), at_start: c.at_start }
    } else {
        Cursor { sel_start: start as usize, sel_end: last, at_start: c.at_start }
    }
}

/// `x` moved by `d`, saturating at the ends of `usize`.
pub open spec fn sat_add_signed(x: int, d: int) -> int {
    if x + d < 0 {
        0
    } else if x + d > usize::MAX {
        usize::MAX as int
    } else {
        x + d
    }
}

/// The forward search with `advance`: from byte `from` on, the first match whose last
/// byte is not `orig_end`.
pub open spec fn advance_forward(p: Seq<char>, s: Seq<char>, c: Cursor, from: int, orig_end: int, extend: bool) -> Option<Cursor>
    decreases utf8_len(s) - from,
{
    if from >= utf8_len(s) {
        None
    } else {
        match regex_first(p, byte_slice(s, from, utf8_len(s))) {
            None => None,
            Some(m) => {
                let last = if m.1 + from >= 1 { m.1 + from - 1 } else { 0 };
                if last != orig_end {
                    Some(match_selected(c, m.0 + from, m.1 + from, extend))
                } else {
                    advance_forward(p, s, c, from + 1, orig_end, extend)
                }
            },
        }
    }
}

/// The backward search with `advance`: below byte `ceil`, the last match that does not
/// start at `orig_start`.
pub open spec fn advance_backward(p: Seq<char>, s: Seq<char>, c: Cursor, ceil: int, orig_start: int, extend: bool) -> Option<Cursor>
    decreases ceil,
{
    if ceil <= 0 {
        None
    } else {
        let ms = regex_all(p, byte_slice(s, 0, ceil));
        if ms.len() == 0 {
            None
        } else if ms.last().0 != orig_start {
            Some(match_selected(c, ms.last().0, ms.last().1, extend))
        } else {
            advance_backward(p, s, c, ceil - 1, orig_start, extend)
        }
    }
}

/// What a motion other than `RegexSelAll` makes of the primary cursor `c` on text `s`:
/// the new cursor, or `None` when it leaves the cursor alone and reports no change.
pub open spec fn motion_target(cmd: MotionCommand, s: Seq<char>, c: Cursor) -> Option<Cursor> {
    let l = line_of_byte(s, c.caret() as int);
    let ls = line_first_byte(s, l);
    let le = line_last_byte(s, l);
    let len = utf8_len(s);
    match cmd {
        MotionCommand::ClearSelection => Some(Cursor { sel_start: c.caret(), sel_end: c.caret(), ..c }),
        MotionCommand::GotoSelectionEnd => Some(Cursor { at_start: false, ..c }),
        MotionCommand::GotoSelectionBegin => Some(Cursor { at_start: true, ..c }),
        MotionCommand::SelectLine { extend } => Some(line_selected(c, ls, le, extend)),
        MotionCommand::SelectLineEnd { extend } => Some(towards(c, le, extend)),
        MotionCommand::SelectLineBegin { extend } => Some(towards(c, ls, extend)),
        MotionCommand::SelectFirstNonWhitespace { extend } => Some(
            towards(c, byte_of(s, first_non_ws(s, char_of_byte(s, ls), line_last_char(s, l))), extend),
        ),
        MotionCommand::Regex { pattern, extend } => if !regex_builds(pattern@) {
            None
        } else {
            match regex_first(pattern@, s) {
                Some(m) => Some(match_selected(c, m.0, m.1, extend)),
                None => None,
            }
        },
        MotionCommand::RegexCursor { pattern, offset, extend, advance } => {
            let base = sat_add_signed(
                c.caret() as int,
                match offset {
                    Some(o) => o as int,
                    None => 0,
                },
            );
            if !regex_builds(pattern@) || base >= len {
                None
            } else if advance {
                advance_forward(pattern@, s, c, base, c.sel_end as int, extend)
            } else {
                match regex_first(pattern@, byte_slice(s, base, len)) {
                    Some(m) => Some(match_selected(c, m.0 + base, m.1 + base, extend)),
                    None => None,
                }
            }
        },
        MotionCommand::RegexCursorBackwards { pattern, offset, extend, advance } => {
            let moved = sat_add_signed(
                c.caret() as int,
                match offset {
                    Some(o) => o as int,
                    None => 0,
                },
            );
            let base = if moved < len {
                moved
            } else {
                len
            };
            if !regex_builds(pattern@) {
                None
            } else if advance {
                advance_backward(pattern@, s, c, base, c.sel_start as int, extend)
            } else {
                let ms = regex_all(pattern@, byte_slice(s, 0, base));
                if ms.len() == 0 {
                    None
                } else {
                    Some(match_selected(c, ms.last().0, ms.last().1, extend))
                }
            }
        },
        MotionCommand::RegexSel { pattern } => {
            let start = c.sel_start as int;
            let end = c.sel_end + 1;
            if !regex_builds(pattern@) || !(start <= end && end <= len) {
                None
            } else {
                match regex_first(pattern@, byte_slice(s, start, end)) {
                    Some(m) => Some(match_selected(c, m.0 + start, m.1 + start, false)),
                    None => None,
                }
            }
        },
        MotionCommand::RegexSelAll { .. } => None,
    }
}

/// Whether the motion reports a change when it turns `c` into `d`: for most motions,
/// whether the selection or the side of the caret changed.
pub open spec fn motion_changed(cmd: MotionCommand, c: Cursor, d: Cursor) -> bool {
    match cmd {
        MotionCommand::ClearSelection => d.sel_start != c.sel_start || d.sel_end != c.sel_end,
        MotionCommand::SelectLine { .. } | MotionCommand::SelectLineEnd { .. } | MotionCommand::SelectLineBegin {
            ..
        } | MotionCommand::SelectFirstNonWhitespace { .. } => d != c,
        _ => true,
    }
}

/// The cursors `RegexSelAll` makes for the matches `ms`, found at offsets from byte
/// `base` (the start of the selection searched): each selects its match, placed in the
/// text.
pub open spec fn match_cursors(ms: Seq<(int, int)>, at_start: bool, base: int) -> Seq<Cursor> {
    Seq::new(
        ms.len(),
        |k: int|
            Cursor {
                sel_start: (base + ms[k].0) as usize,
                sel_end: (base + if ms[k].1 >= 1 { ms[k].1 - 1 } else { 0 }) as usize,
                at_start,
            },
    )
}

/// The end of a selection that is not the caret.
pub open spec fn anchor_of(c: Cursor) -> usize {
    if c.at_start {
        c.sel_end
    } else {
        c.sel_start
    }
}

/// Moving to the end or the start of the caret's line puts the caret there; the
/// other end of the selection is the old caret, or with `extend` the old anchor.
pub proof fn lemma_line_edge_motions(s: Seq<char>, c: Cursor, extend: bool)
    requires
        ({
            let l = line_of_byte(s, c.caret() as int);
            &&& 0 <= line_first_byte(s, l) <= usize::MAX
            &&& 0 <= line_last_byte(s, l) <= usize::MAX
        }),
    ensures
        ({
            let l = line_of_byte(s, c.caret() as int);
            let keep = if extend {
                anchor_of(c)
            } else {
                c.caret()
            };
            &&& motion_target(MotionCommand::SelectLineEnd { extend }, s, c) matches Some(d) && d.caret() as int
                == line_last_byte(s, l) && anchor_of(d) == keep
            &&& motion_target(MotionCommand::SelectLineBegin { extend }, s, c) matches Some(d) && d.caret() as int
                == line_first_byte(s, l) && anchor_of(d) == keep
        }),
{
}

/// Selecting the caret's line selects it whole, from its first byte to its last, with
/// the caret at its end; with `extend` the selection grows from the old anchor just
/// enough to cover the line.
pub proof fn lemma_select_line_motion(s: Seq<char>, c: Cursor, extend: bool)
    requires
        ({
            let l = line_of_byte(s, c.caret() as int);
            &&& 0 <= line_first_byte(s, l) <= usize::MAX
            &&& 0 <= line_last_byte(s, l) <= usize::MAX
        }),
    ensures
        ({
            let l = line_of_byte(s, c.caret() as int);
            let ls = line_first_byte(s, l);
            let le = line_last_byte(s, l);
            let a = anchor_of(c) as int;
            motion_target(MotionCommand::SelectLine { extend }, s, c) matches Some(d) && if extend {
                d.sel_start == (if a < ls {
                    a
                } else {
                    ls
                }) && d.sel_end == (if a > le {
                    a
                } else {
                    le
                })
            } else {
                d.sel_start == ls && d.sel_end == le && !d.at_start
            }
        }),
{
}

/// Clearing the selection leaves just the caret selected; going to the selection's
/// end or beginning keeps the selection and moves the caret to that side.
pub proof fn lemma_selection_motions(s: Seq<char>, c: Cursor)
    ensures
        motion_target(MotionCommand::ClearSelection, s, c) matches Some(d) && d.sel_start == c.caret() && d.sel_end
            == c.caret() && d.caret() == c.caret(),
        motion_target(MotionCommand::GotoSelectionEnd, s, c) matches Some(d) && d.sel_start == c.sel_start && d.sel_end
            == c.sel_end && d.caret() == c.sel_end,
        motion_target(MotionCommand::GotoSelectionBegin, s, c) matches Some(d) && d.sel_start == c.sel_start
            && d.sel_end == c.sel_end && d.caret() == c.sel_start,
{
}

/// `rxs` narrows the selection `a..=b` to the leftmost match `m0..m1` inside it: the
/// new selection is `a + m0 ..= a + m1 - 1`. No match leaves the cursor alone.
pub proof fn lemma_regex_sel_motion(pattern: String, s: Seq<char>, c: Cursor)
    requires
        regex_builds(pattern@),
        c.sel_start <= c.sel_end + 1 <= utf8_len(s),
    ensures
        match regex_first(pattern@, byte_slice(s, c.sel_start as int, c.sel_end + 1)) {
            Some((m0, m1)) => 0 <= m0 < m1 && c.sel_start + m1 <= usize::MAX + 1 ==> (motion_target(
                MotionCommand::RegexSel { pattern },
                s,
                c,
            ) matches Some(d) && d.sel_start == c.sel_start + m0 && d.sel_end == c.sel_start + m1 - 1),
            None => motion_target(MotionCommand::RegexSel { pattern }, s, c) is None,
        },
{
}

/// The `rx` motion selects the leftmost match `a..b` of its pattern: without
/// `extend` the selection becomes the match (its last byte `b - 1`); with `extend` it
/// grows from the old selection just enough to cover the match. The side of the caret
/// is kept. No match, or a pattern that does not build, leaves the cursor alone.
pub proof fn lemma_regex_motion(pattern: String, s: Seq<char>, c: Cursor, extend: bool)
    ensures
        ({
            let cmd = MotionCommand::Regex { pattern, extend };
            match regex_first(pattern@, s) {
                Some((a, b)) => regex_builds(pattern@) && 0 <= a < b <= usize::MAX + 1 ==> (motion_target(cmd, s, c) matches Some(d)
                    && d.at_start == c.at_start
                    && d.sel_start as int == (if extend && (c.sel_start as int) < a {
                    c.sel_start as int
                } else {
                    a
                }) && d.sel_end as int == (if extend && (c.sel_end as int) > b - 1 {
                    c.sel_end as int
                } else {
                    b - 1
                })),
                None => motion_target(cmd, s, c) is None,
            }
        }),
        !regex_builds(pattern@) ==> motion_target(MotionCommand::Regex { pattern, extend }, s, c) is None,
{
}

/// Any motion by regex with `extend` keeps the old selection inside the new one, and
/// keeps the side of the caret.
pub proof fn lemma_regex_extend_covers(cmd: MotionCommand, s: Seq<char>, c: Cursor)
    requires
        match cmd {
            MotionCommand::Regex { extend, .. } => extend,
            MotionCommand::RegexCursor { extend, .. } => extend,
            MotionCommand::RegexCursorBackwards { extend, .. } => extend,
            _ => false,
        },
    ensures
        motion_target(cmd, s, c) matches Some(d) ==> d.sel_start <= c.sel_start && d.sel_end >= c.sel_end && d.at_start
            == c.at_start,
{
    let len = utf8_len(s);
    match cmd {
        MotionCommand::RegexCursor { pattern, offset, extend, advance } => {
            let base = sat_add_signed(
                c.caret() as int,
                match offset {
                    Some(o) => o as int,
                    None => 0,
                },
            );
            if advance && regex_builds(pattern@) && base < len {
                lemma_advance_forward_covers(pattern@, s, c, base, c.sel_end as int);
            }
        },
        MotionCommand::RegexCursorBackwards { pattern, offset, extend, advance } => {
            let moved = sat_add_signed(
                c.caret() as int,
                match offset {
                    Some(o) => o as int,
                    None => 0,
                },
            );
            let base = if moved < len {
                moved
            } else {
                len
            };
            if advance && regex_builds(pattern@) {
                lemma_advance_backward_covers(pattern@, s, c, base, c.sel_start as int);
            }
        },
        _ => {},
    }
}

proof fn lemma_advance_forward_covers(p: Seq<char>, s: Seq<char>, c: Cursor, from: int, orig_end: int)
    ensures
        advance_forward(p, s, c, from, orig_end, true) matches Some(d) ==> d.sel_start <= c.sel_start && d.sel_end
            >= c.sel_end && d.at_start == c.at_start,
    decreases utf8_len(s) - from,
{
    if from < utf8_len(s) {
        match regex_first(p, byte_slice(s, from, utf8_len(s))) {
            None => {},
            Some(m) => {
                let last = if m.1 + from >= 1 { m.1 + from - 1 } else { 0 };
                if last == orig_end {
                    lemma_advance_forward_covers(p, s, c, from + 1, orig_end);
                }
            },
        }
    }
}

proof fn lemma_advance_backward_covers(p: Seq<char>, s: Seq<char>, c: Cursor, ceil: int, orig_start: int)
    ensures
        advance_backward(p, s, c, ceil, orig_start, true) matches Some(d) ==> d.sel_start <= c.sel_start && d.sel_end
            >= c.sel_end && d.at_start == c.at_start,
    decreases ceil,
{
    if ceil > 0 {
        let ms = regex_all(p, byte_slice(s, 0, ceil));
        if ms.len() > 0 && ms.last().0 == orig_start {
            lemma_advance_backward_covers(p, s, c, ceil - 1, orig_start);
        }
    }
}

impl<K> TextBuffer<K> {
    /// The leftmost match of the regex between bytes `start` and `end` (each taken to
    /// the char that holds it), as offsets from the start of that slice; `None` unless
    /// `start <= end <= len`.
    pub fn search(&self, re: &CompiledRegex, start: usize, end: usize) -> (r: Option<Option<(usize, usize)>>)
        ensures
            r is Some <==> start <= end <= utf8_len(self.text()),
            r matches Some(m) ==> (match m {
                Some(x) => regex_first(re.pattern(), byte_slice(self.text(), start as int, end as int)) == Some((x.0 as int, x.1 as int))
                    && x.0 <= x.1 <= utf8_len(byte_slice(self.text(), start as int, end as int)),
                None => regex_first(re.pattern(), byte_slice(self.text(), start as int, end as int)) is None,
            }),
    {
        let len = self.len();
        if start <= len && end <= len && start <= end {
            let a = self.byte_to_char_clamped(start);
            let b = self.byte_to_char_clamped(end);
            proof {
                lemma_char_at_byte(self.text(), start as int);
                lemma_char_at_byte(self.text(), end as int);
                if b < a {
                    lemma_byte_of_mono(self.text(), b as int + 1, a as int);
                }
            }
            Some(regex_search(re, &self.rope, a, b))
        } else {
            None
        }
    }

    /// The successive matches of the regex between bytes `start` and `end`, as offsets
    /// from the start of that slice; `None` unless `start <= end <= len`.
    pub fn search_all(&self, re: &CompiledRegex, start: usize, end: usize) -> (r: Option<Vec<(usize, usize)>>)
        ensures
            r is Some <==> start <= end <= utf8_len(self.text()),
            r matches Some(ms) ==> {
                let all = regex_all(re.pattern(), byte_slice(self.text(), start as int, end as int));
                &&& ms@.len() == all.len()
                &&& forall|i: int| 0 <= i < ms@.len() ==> (#[trigger] ms@[i]).0 as int == all[i].0 && ms@[i].1 as int == all[i].1
                    && ms@[i].0 <= ms@[i].1 <= utf8_len(byte_slice(self.text(), start as int, end as int))
            },
    {
        let len = self.len();
        if start <= len && end <= len && start <= end {
            let a = self.byte_to_char_clamped(start);
            let b = self.byte_to_char_clamped(end);
            proof {
                lemma_char_at_byte(self.text(), start as int);
                lemma_char_at_byte(self.text(), end as int);
                if b < a {
                    lemma_byte_of_mono(self.text(), b as int + 1, a as int);
                }
            }
            Some(regex_find_all(re, &self.rope, a, b))
        } else {
            None
        }
    }
}

fn add_signed_saturating(x: usize, d: isize) -> (r: usize)
    ensures
        r as int == sat_add_signed(x as int, d as int),
{
    let t: i128 = x as i128 + d as i128;
    if t < 0 {
        0
    } else if t > usize::MAX as i128 {
        usize::MAX
    } else {
        t as usize
    }
}

/// What `RegexSelAll` does to the cursors `cs` (primary `p`) on text `s`: a cursor for
/// each match in the selection, selecting the match where it lies in the text, the
/// last of them primary, and the old primary cursor removed; `None` when
/// the pattern does not build, the selection is not within the text, or nothing
/// matches.
pub open spec fn select_all_result(pattern: Seq<char>, s: Seq<char>, cs: Seq<Cursor>, p: int) -> Option<(Seq<Cursor>, int)> {
    let c = cs[p];
    let start = c.sel_start as int;
    let end = c.sel_end + 1;
    if !regex_builds(pattern) || !(start <= end && end <= utf8_len(s)) {
        None
    } else {
        let ms = regex_all(pattern, byte_slice(s, start, end));
        if ms.len() == 0 {
            None
        } else {
            Some(((cs + match_cursors(ms, c.at_start, start)).remove(p), cs.len() + ms.len() - 2))
        }
    }
}

impl MotionCommand {
    /// Applies the motion to the primary cursor of `buf`; returns whether it reports a
    /// change (see `motion_target`, `motion_changed` and `select_all_result`).
    #[verifier::rlimit(60)]
    pub fn apply<K>(&self, buf: &mut TextBuffer<K>) -> (changed: bool)
        requires
            old(buf).wf(),
            utf8_len(old(buf).text()) <= isize::MAX,
            (*self is RegexSel || *self is RegexSelAll) ==> old(buf).cursors@[old(buf).primary_cursor as int].sel_end < usize::MAX,
        ensures
            final(buf).wf(),
            final(buf).text() == old(buf).text(),
            final(buf).version == old(buf).version,
            final(buf).byte_changes == old(buf).byte_changes,
            same_setting(&*old(buf), &*final(buf)),
            !(*self is RegexSelAll) ==> {
                let p = old(buf).primary_cursor as int;
                let c = old(buf).cursors@[p];
                &&& final(buf).primary_cursor == old(buf).primary_cursor
                &&& match motion_target(*self, old(buf).text(), c) {
                    Some(d) => final(buf).cursors@ == old(buf).cursors@.update(p, d) && changed == motion_changed(*self, c, d),
                    None => final(buf).cursors@ == old(buf).cursors@ && !changed,
                }
            },
            *self matches MotionCommand::RegexSelAll { pattern } ==> match select_all_result(
                pattern@,
                old(buf).text(),
                old(buf).cursors@,
                old(buf).primary_cursor as int,
            ) {
                Some(r) => final(buf).cursors@ == r.0 && final(buf).primary_cursor == r.1 && changed,
                None => final(buf).cursors@ == old(buf).cursors@ && final(buf).primary_cursor == old(buf).primary_cursor && !changed,
            },
    {
        let p = buf.primary_cursor;
        let mut c = buf.cursors[p];
        let ghost s = buf.text();
        match self {
            MotionCommand::ClearSelection => {
                let changed = c.clear_selection();
                buf.cursors.set(p, c);
                changed
            },
            MotionCommand::GotoSelectionEnd => {
                c.set_at_start(false);
                buf.cursors.set(p, c);
                true
            },
            MotionCommand::GotoSelectionBegin => {
                c.set_at_start(true);
                buf.cursors.set(p, c);
                true
            },
            MotionCommand::SelectLine { extend } => {
                let (ls, le) = line_bounds(buf, c.get_cursor_byte());
                let changed = c.select_line(ls, le, *extend);
                buf.cursors.set(p, c);
                changed
            },
            MotionCommand::SelectLineEnd { extend } => {
                let (_, le) = line_bounds(buf, c.get_cursor_byte());
                let changed = c.select_towards(le, *extend);
                buf.cursors.set(p, c);
                changed
            },
            MotionCommand::SelectLineBegin { extend } => {
                let (ls, _) = line_bounds(buf, c.get_cursor_byte());
                let changed = c.select_towards(ls, *extend);
                buf.cursors.set(p, c);
                changed
            },
            MotionCommand::SelectFirstNonWhitespace { extend } => {
                let target = first_non_ws_byte(buf, c.get_cursor_byte());
                let changed = c.select_towards(target, *extend);
                buf.cursors.set(p, c);
                changed
            },
            MotionCommand::Regex { pattern, extend } => {
                let re = match regex_new(pattern.clone()) {
                    Some(r) => r,
                    None => return false,
                };
                let len = buf.len();
                proof {
                    lemma_char_at_byte(s, 0);
                    lemma_char_at_byte(s, len as int);
                    lemma_byte_of_ends(s);
                    assert(byte_slice(s, 0, len as int) =~= s);
                }
                match buf.search(&re, 0, len) {
                    Some(Some((a, b))) => {
                        c.select_match(a, b, *extend);
                        buf.cursors.set(p, c);
                        true
                    },
                    _ => false,
                }
            },
            MotionCommand::RegexCursor { pattern, offset, extend, advance } => {
                let re = match regex_new(pattern.clone()) {
                    Some(r) => r,
                    None => return false,
                };
                let off = match offset {
                    Some(o) => *o,
                    None => 0,
                };
                let base = add_signed_saturating(c.get_cursor_byte(), off);
                let len = buf.len();
                if base >= len {
                    return false;
                }
                if *advance {
                    match advance_search_forward(buf, &re, base, c, *extend) {
                        Some(d) => {
                            buf.cursors.set(p, d);
                            true
                        },
                        None => false,
                    }
                } else {
                    match buf.search(&re, base, len) {
                        Some(Some((a, b))) => {
                            proof {
                                lemma_slice_bound(s, base as int, len as int);
                            }
                            c.select_match(a + base, b + base, *extend);
                            buf.cursors.set(p, c);
                            true
                        },
                        _ => false,
                    }
                }
            },
            MotionCommand::RegexCursorBackwards { pattern, offset, extend, advance } => {
                let re = match regex_new(pattern.clone()) {
                    Some(r) => r,
                    None => return false,
                };
                let off = match offset {
                    Some(o) => *o,
                    None => 0,
                };
                let moved = add_signed_saturating(c.get_cursor_byte(), off);
                let len = buf.len();
                let base = if moved < len {
                    moved
                } else {
                    len
                };
                if *advance {
                    match advance_search_backward(buf, &re, base, c, *extend) {
                        Some(d) => {
                            buf.cursors.set(p, d);
                            true
                        },
                        None => false,
                    }
                } else {
                    match buf.search_all(&re, 0, base) {
                        Some(ms) => {
                            if ms.len() == 0 {
                                false
                            } else {
                                let (a, b) = ms[ms.len() - 1];
                                c.select_match(a, b, *extend);
                                buf.cursors.set(p, c);
                                true
                            }
                        },
                        None => false,
                    }
                }
            },
            MotionCommand::RegexSel { pattern } => {
                let re = match regex_new(pattern.clone()) {
                    Some(r) => r,
                    None => return false,
                };
                let start = c.sel_start;
                let end = c.sel_end + 1;
                match buf.search(&re, start, end) {
                    Some(Some((a, b))) => {
                        proof {
                            lemma_slice_bound(s, start as int, end as int);
                        }
                        c.select_match(a + start, b + start, false);
                        buf.cursors.set(p, c);
                        true
                    },
                    _ => false,
                }
            },
            MotionCommand::RegexSelAll { pattern } => {
                let re = match regex_new(pattern.clone()) {
                    Some(r) => r,
                    None => return false,
                };
                let start = c.sel_start;
                let end = c.sel_end + 1;
                match buf.search_all(&re, start, end) {
                    Some(ms) => {
                        proof {
                            lemma_slice_bound(s, start as int, end as int);
                        }
                        select_all(buf, &ms, start)
                    },
                    None => false,
                }
            },
        }
    }
}

/// The first and last byte of the line that holds `caret`.
fn line_bounds<K>(buf: &TextBuffer<K>, caret: usize) -> (r: (usize, usize))
    ensures
        r.0 == line_first_byte(buf.text(), line_of_byte(buf.text(), caret as int)),
        r.1 == line_last_byte(buf.text(), line_of_byte(buf.text(), caret as int)),
{
    let line_idx = buf.byte_to_line_clamped(caret);
    let ls = buf.line_to_byte_clamped(line_idx);
    let n = buf.len_lines();
    proof {
        crate::buffer::lemma_line_first_byte_le(buf.text(), caret as int);
    }
    let le = if line_idx + 1 >= n {
        buf.len()
    } else {
        proof {
            lemma_next_line_start_positive(buf.text(), line_idx as int);
        }
        buf.line_to_byte_clamped(line_idx + 1) - 1
    };
    (ls, le)
}

/// A line that follows another starts after byte 0.
proof fn lemma_next_line_start_positive(s: Seq<char>, l: int)
    requires
        0 <= l,
        l + 1 < line_count(s),
    ensures
        line_first_byte(s, l + 1) >= 1,
{
    crate::rope::lemma_line_start(s, l + 1);
    let p = crate::rope::line_start(s, l + 1);
    lemma_byte_of_ends(s);
    lemma_byte_of_mono(s, 0, p);
}

/// The byte of the first char of the caret's line that is not whitespace.
fn first_non_ws_byte<K>(buf: &TextBuffer<K>, caret: usize) -> (r: usize)
    ensures
        ({
            let s = buf.text();
            let l = line_of_byte(s, caret as int);
            r == byte_of(s, first_non_ws(s, char_of_byte(s, line_first_byte(s, l)), line_last_char(s, l)))
        }),
{
    let ghost s = buf.text();
    let line_idx = buf.byte_to_line_clamped(caret);
    let ls = buf.line_to_byte_clamped(line_idx);
    let start_char = buf.byte_to_char_clamped(ls);
    let n = buf.len_lines();
    proof {
        crate::buffer::lemma_line_first_byte_le(s, caret as int);
    }
    let end_char = if line_idx + 1 >= n {
        buf.len_chars()
    } else {
        let next = buf.line_to_byte_clamped(line_idx + 1);
        buf.byte_to_char_clamped(if next >= 1 { next - 1 } else { 0 })
    };
    proof {
        if line_idx + 1 < line_count(s) {
            lemma_next_line_start_positive(s, line_idx as int);
        }
    }
    let mut k = start_char;
    loop
        invariant
            start_char <= k,
            k <= s.len(),
            end_char <= s.len(),
            s == buf.text(),
            first_non_ws(s, k as int, end_char as int) == first_non_ws(s, start_char as int, end_char as int),
        ensures
            k as int == first_non_ws(s, start_char as int, end_char as int),
        decreases end_char - k,
    {
        if k >= end_char {
            break;
        }
        let ch = buf.char_clamped(k);
        if !crate::indent::char_is_whitespace(ch) {
            break;
        }
        k += 1;
        assert(k <= s.len());
    }
    buf.char_to_byte_clamped(k)
}

/// The bytes of a match found from byte `a` stay within a text of at most `isize::MAX`
/// bytes when `a` is added to them.
proof fn lemma_slice_bound(s: Seq<char>, a: int, b: int)
    requires
        0 <= a <= b <= utf8_len(s),
    ensures
        utf8_len(byte_slice(s, a, b)) <= utf8_len(s),
{
    lemma_char_at_byte(s, a);
    lemma_char_at_byte(s, b);
    if char_at_byte(s, b) < char_at_byte(s, a) {
        lemma_byte_of_mono(s, char_at_byte(s, b) + 1, char_at_byte(s, a));
    }
    lemma_utf8_len_subrange(s, char_at_byte(s, a), char_at_byte(s, b));
}

fn advance_search_forward<K>(buf: &TextBuffer<K>, re: &CompiledRegex, base: usize, c: Cursor, extend: bool) -> (r: Option<Cursor>)
    requires
        utf8_len(buf.text()) <= isize::MAX,
    ensures
        r == advance_forward(re.pattern(), buf.text(), c, base as int, c.sel_end as int, extend),
{
    let ghost s = buf.text();
    let len = buf.len();
    let original_end = c.sel_end;
    let mut from = base;
    loop
        invariant
            s == buf.text(),
            len == utf8_len(s),
            len <= isize::MAX,
            original_end == c.sel_end,
            advance_forward(re.pattern(), s, c, from as int, original_end as int, extend)
                == advance_forward(re.pattern(), s, c, base as int, original_end as int, extend),
        decreases len - from,
    {
        if from >= len {
            return None;
        }
        match buf.search(re, from, len) {
            Some(Some((a, b))) => {
                proof {
                    lemma_slice_bound(s, from as int, len as int);
                }
                let start = a + from;
                let end = b + from;
                let last = if end >= 1 {
                    end - 1
                } else {
                    0
                };
                if last != original_end {
                    let mut d = c;
                    d.select_match(start, end, extend);
                    return Some(d);
                }
                from += 1;
            },
            _ => {
                return None;
            },
        }
    }
}

fn advance_search_backward<K>(buf: &TextBuffer<K>, re: &CompiledRegex, base: usize, c: Cursor, extend: bool) -> (r: Option<Cursor>)
    requires
        base <= utf8_len(buf.text()),
    ensures
        r == advance_backward(re.pattern(), buf.text(), c, base as int, c.sel_start as int, extend),
{
    let ghost s = buf.text();
    let original_start = c.sel_start;
    let mut ceil = base;
    loop
        invariant
            s == buf.text(),
            ceil <= utf8_len(s),
            original_start == c.sel_start,
            advance_backward(re.pattern(), s, c, ceil as int, original_start as int, extend)
                == advance_backward(re.pattern(), s, c, base as int, original_start as int, extend),
        decreases ceil,
    {
        if ceil == 0 {
            return None;
        }
        match buf.search_all(re, 0, ceil) {
            Some(ms) => {
                if ms.len() == 0 {
                    return None;
                }
                let (a, b) = ms[ms.len() - 1];
                if a != original_start {
                    let mut d = c;
                    d.select_match(a, b, extend);
                    return Some(d);
                }
                ceil -= 1;
            },
            None => {
                return None;
            },
        }
    }
}

/// Adds a cursor for each match (its offsets counted from byte `base`), the last one
/// primary, and removes the old primary cursor; whether there was a match.
fn select_all<K>(buf: &mut TextBuffer<K>, ms: &Vec<(usize, usize)>, base: usize) -> (changed: bool)
    requires
        old(buf).wf(),
        forall|k: int| 0 <= k < ms@.len() ==> base + (#[trigger] ms@[k]).0 <= usize::MAX && base + ms@[k].1 <= usize::MAX,
    ensures
        final(buf).wf(),
        final(buf).text() == old(buf).text(),
        final(buf).version == old(buf).version,
        final(buf).byte_changes == old(buf).byte_changes,
        same_setting(&*old(buf), &*final(buf)),
        ms@.len() == 0 ==> final(buf).cursors@ == old(buf).cursors@ && final(buf).primary_cursor == old(buf).primary_cursor && !changed,
        ms@.len() > 0 ==> {
            let c = old(buf).cursors@[old(buf).primary_cursor as int];
            let mi = ms@.map_values(|m: (usize, usize)| (m.0 as int, m.1 as int));
            &&& final(buf).cursors@ == (old(buf).cursors@ + match_cursors(mi, c.at_start, base as int)).remove(old(buf).primary_cursor as int)
            &&& final(buf).primary_cursor == old(buf).cursors@.len() + ms@.len() - 2
            &&& changed
        },
{
    let initial = buf.primary_cursor;
    let ghost c0 = buf.cursors@;
    let ghost at = c0[initial as int].at_start;
    let ghost mi = ms@.map_values(|m: (usize, usize)| (m.0 as int, m.1 as int));
    let mut k: usize = 0;
    while k < ms.len()
        invariant
            buf.wf(),
            k <= ms@.len(),
            buf.cursors@ =~= c0 + match_cursors(mi.take(k as int), at, base as int),
            forall|j: int| 0 <= j < ms@.len() ==> base + (#[trigger] ms@[j]).0 <= usize::MAX && base + ms@[j].1 <= usize::MAX,
            k > 0 ==> buf.primary_cursor == c0.len() + k - 1,
            k == 0 ==> buf.primary_cursor == initial,
            buf.cursors@[buf.primary_cursor as int].at_start == at,
            initial < c0.len(),
            at == c0[initial as int].at_start,
            mi == ms@.map_values(|m: (usize, usize)| (m.0 as int, m.1 as int)),
            buf.text() == old(buf).text(),
            buf.version == old(buf).version,
            buf.byte_changes == old(buf).byte_changes,
            same_setting(&*old(buf), &*buf),
        decreases ms@.len() - k,
    {
        let (a, b) = ms[k];
        buf.create_cursor();
        let q = buf.primary_cursor;
        let mut c = buf.cursors[q];
        assert(base + ms@[k as int].0 <= usize::MAX && base + ms@[k as int].1 <= usize::MAX);
        c.set_sel(core::ops::RangeInclusive::new(base + a, base + b.saturating_sub(1)));
        buf.cursors.set(q, c);
        k += 1;
        proof {
            assert(match_cursors(mi.take(k as int), at, base as int) =~= match_cursors(mi.take(k - 1), at, base as int).push(c));
        }
    }
    if buf.primary_cursor != initial {
        buf.cursors.remove(initial);
        buf.primary_cursor = buf.primary_cursor - 1;
        proof {
            assert(mi.take(k as int) =~= mi);
        }
        true
    } else {
        false
    }
}

/// The bytes of a slice of chars are no more than those of the whole.
pub proof fn lemma_utf8_len_subrange(s: Seq<char>, i: int, j: int)
    requires
        0 <= i <= j <= s.len(),
    ensures
        utf8_len(s.subrange(i, j)) <= utf8_len(s),
{
    assert(s =~= s.subrange(0, i) + s.subrange(i, j) + s.subrange(j, s.len() as int));
    lemma_utf8_len_concat(s.subrange(0, i), s.subrange(i, j));
    lemma_utf8_len_concat(s.subrange(0, i) + s.subrange(i, j), s.subrange(j, s.len() as int));
}

} // verus!
