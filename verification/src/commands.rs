//! The buffer and cursor commands: what each does to the current text buffer.

use vstd::prelude::*;
use crate::buffer::{
    BufferAction, BufferModel, Delete, Insert, TextBuffer, action_ok, action_succeeds, after_action,
    char_of_byte, clamp_int, committed, line_first_byte, line_of_byte, moved_primary, run,
    run_ok, same_identity, same_setting, undoes,
};
use crate::cursor::Cursor;
use crate::rope::{byte_of, char_at_byte, line_count, lemma_byte_of_ends, lemma_byte_of_mono, lemma_char_at_byte};
use crate::scroll::utf8_len;
use crate::text::{chars_of, is_lower, is_upper, lower_of, upper_of};

verus! {

/// What `TextBuffer::action` does to `a`, giving `b` and `ok`.
pub open spec fn action_effect<K>(a: &TextBuffer<K>, b: &TextBuffer<K>, act: BufferAction, ok: bool) -> bool {
    &&& same_identity(a, b)
    &&& b.model() == after_action(a.model(), act)
    &&& ok == action_succeeds(a.model(), act)
    &&& b.undo_stack@ == a.undo_stack@
    &&& b.save_point == a.save_point
    &&& b.current_change matches Some(g) && {
        let before = match a.current_change {
            Some(h) => h.1@,
            None => Seq::<BufferAction>::empty(),
        };
        &&& g.0@ == match a.current_change {
            Some(h) => h.0@,
            None => a.cursors@,
        }
        &&& if ok {
            &&& g.1@.len() == before.len() + 1
            &&& g.1@.drop_last() == before
            &&& undoes(a.model(), act, g.1@.last())
        } else {
            g.1@ == before
        }
    }
    &&& if ok {
        b.dirty && b.redo_stack@.len() == 0
    } else {
        b.dirty == a.dirty && b.redo_stack == a.redo_stack
    }
}

/// What `TextBuffer::move_chars` does to `a`, giving `b` and `moved`.
pub open spec fn move_chars_effect<K>(a: &TextBuffer<K>, b: &TextBuffer<K>, chars: int, extend: bool, moved: bool) -> bool {
    if chars == 0 {
        *b == *a && !moved
    } else {
        let c = a.cursors@[a.primary_cursor as int];
        let s = a.text();
        let new_char = clamp_int(char_of_byte(s, c.caret() as int) + chars, 0, s.len() as int);
        let new_caret = byte_of(s, new_char) as usize;
        &&& moved_primary(a, b, new_caret, extend)
        &&& moved == (new_caret != c.caret())
    }
}

/// The text a selection `start..=end` covers: from the char that holds `start` to the
/// one that holds `end + 1`; empty unless `end + 1` lies within the text.
pub open spec fn selected_text(s: Seq<char>, start: int, end: int) -> Seq<char> {
    if start <= end + 1 && end + 1 <= utf8_len(s) {
        s.subrange(char_at_byte(s, start), char_at_byte(s, end + 1))
    } else {
        Seq::empty()
    }
}

/// A char with its case swapped (upper to lower, lower to upper).
pub open spec fn toggled_char(c: char) -> char {
    if is_upper(c) {
        lower_of(c)
    } else if is_lower(c) {
        upper_of(c)
    } else {
        c
    }
}

/// A text with the case of each char swapped.
pub open spec fn toggled(t: Seq<char>) -> Seq<char> {
    t.map_values(|c: char| toggled_char(c))
}

fn toggle_string(t: &String) -> (r: String)
    ensures
        r@ == toggled(t@),
{
    let cs = chars_of(t.as_str());
    let mut r = String::new();
    let mut i: usize = 0;
    while i < cs.len()
        invariant
            i <= cs@.len(),
            cs@ == t@,
            r@ == toggled(t@).take(i as int),
        decreases cs@.len() - i,
    {
        let c = cs[i];
        let d = if crate::text::char_is_uppercase(c) {
            crate::text::char_lower_first(c)
        } else if crate::text::char_is_lowercase(c) {
            crate::text::char_upper_first(c)
        } else {
            c
        };
        crate::text::push_char(&mut r, d);
        i += 1;
        assert(r@ =~= toggled(t@).take(i as int));
    }
    assert(toggled(t@).take(cs@.len() as int) =~= toggled(t@));
    r
}

impl<K> TextBuffer<K> {
    /// Moves the primary caret to column `col` (in bytes) of line `row`, both clamped;
    /// with `extend` the selection runs from its anchor. Reports no change, as the
    /// motion cannot be repeated.
    pub fn goto(&mut self, row: usize, col: usize, extend: bool) -> (r: bool)
        requires
            old(self).wf(),
        ensures
            !r,
            moved_primary(&*old(self), &*final(self), goto_target(old(self).text(), row as int, col as int) as usize, extend),
    {
        let line_byte = self.line_to_byte_clamped(row);
        let len = self.len();
        let t = line_byte.saturating_add(col);
        let target = if t < len {
            t
        } else {
            len
        };
        self.primary_cursor_mut().move_caret_to(target, extend);
        false
    }

    /// Inserts `text` at the primary caret (as an action), then moves the caret over it
    /// by its chars; returns whether the caret moved.
    pub fn append(&mut self, text: &String, extend: bool) -> (moved: bool)
        requires
            old(self).wf(),
            action_ok(
                old(self).model(),
                BufferAction::Insert(Insert { byte: old(self).cursors@[old(self).primary_cursor as int].caret(), content: *text }),
            ),
            ({
                let c = old(self).cursors@[old(self).primary_cursor as int];
                let m1 = after_action(old(self).model(), BufferAction::Insert(Insert { byte: c.caret(), content: *text }));
                &&& m1.text.len() <= isize::MAX
                &&& char_of_byte(m1.text, c.caret() as int) + text@.len() <= isize::MAX
            }),
        ensures
            exists|mid: TextBuffer<K>, ok: bool|
                action_effect(
                    &*old(self),
                    &mid,
                    BufferAction::Insert(Insert { byte: old(self).cursors@[old(self).primary_cursor as int].caret(), content: *text }),
                    ok,
                ) && move_chars_effect(&mid, &*final(self), text@.len() as int, extend, moved),
    {
        let byte = self.cursors[self.primary_cursor].get_cursor_byte();
        let ghost b0 = *self;
        let ok = self.action(BufferAction::Insert(Insert { byte, content: text.clone() }));
        let ghost mid = *self;
        let n = chars_of(text.as_str()).len();
        proof {
            let t = self.text();
            lemma_byte_of_ends(t);
            lemma_char_at_byte(t, crate::buffer::clamp_byte(t, byte as int));
            assert(n as int == text@.len());
            assert(n <= isize::MAX);
        }
        let moved = self.move_chars(n as isize, extend);
        assert(action_effect(&b0, &mid, BufferAction::Insert(Insert { byte, content: *text }), ok)
            && move_chars_effect(&mid, &*self, text@.len() as int, extend, moved));
        moved
    }
}

/// `b` is `a` with its primary cursor replaced by `cur`.
pub open spec fn primary_set<K>(a: &TextBuffer<K>, b: &TextBuffer<K>, cur: Cursor) -> bool {
    &&& b.cursors@ == a.cursors@.update(a.primary_cursor as int, cur)
    &&& b.primary_cursor == a.primary_cursor
    &&& b.text() == a.text()
    &&& b.version == a.version
    &&& b.byte_changes == a.byte_changes
    &&& same_setting(a, b)
}

/// The chars the `Delete` command removes for the selection `start..=end`: from the
/// char that holds `start` through the one that holds `end`.
pub open spec fn selection_chars(s: Seq<char>, start: int, end: int) -> int {
    char_of_byte(s, end) + 1 - char_of_byte(s, start)
}

/// The byte `JoinLine` replaces on line `l`: the last byte before the next line.
pub open spec fn join_byte(s: Seq<char>, l: int) -> int {
    line_first_byte(s, l + 1) - 1
}

impl<K> TextBuffer<K> {
    /// Swaps the case of the selected text (as a deletion and an insertion) when that
    /// changes it. Always reports a change.
    pub fn toggle_case(&mut self) -> (r: bool)
        requires
            old(self).wf(),
            old(self).cursors@[old(self).primary_cursor as int].sel_end < usize::MAX,
            ({
                let c = old(self).cursors@[old(self).primary_cursor as int];
                let t = selected_text(old(self).text(), c.sel_start as int, c.sel_end as int);
                let del = BufferAction::Delete(Delete { byte: c.sel_start, len: t.len() as usize });
                t != toggled(t) ==> action_ok(old(self).model(), del) && crate::buffer::insert_ok(
                    after_action(old(self).model(), del),
                    c.sel_start as int,
                    toggled(t),
                )
            }),
        ensures
            r,
            ({
                let c = old(self).cursors@[old(self).primary_cursor as int];
                let t = selected_text(old(self).text(), c.sel_start as int, c.sel_end as int);
                let del = BufferAction::Delete(Delete { byte: c.sel_start, len: t.len() as usize });
                if t == toggled(t) {
                    *final(self) == *old(self)
                } else {
                    exists|mid: TextBuffer<K>, ok1: bool, ins: Insert, ok2: bool|
                        action_effect(&*old(self), &mid, del, ok1) && ins.byte == c.sel_start && ins.content@
                            == toggled(t) && action_effect(&mid, &*final(self), BufferAction::Insert(ins), ok2)
                }
            }),
    {
        let c = self.cursors[self.primary_cursor];
        let start = c.sel_start;
        let end = c.sel_end;
        let text = match self.slice_to_string(start, end + 1) {
            Some(t) => t,
            None => String::new(),
        };
        let toggled_text = toggle_string(&text);
        if text != toggled_text {
            let ghost b0 = *self;
            let n = chars_of(text.as_str()).len();
            let ok1 = self.action(BufferAction::Delete(Delete { byte: start, len: n }));
            let ghost mid = *self;
            let ins = Insert { byte: start, content: toggled_text };
            let ghost ins_g = ins;
            let ok2 = self.action(BufferAction::Insert(ins));
            assert(action_effect(&b0, &mid, BufferAction::Delete(Delete { byte: start, len: n }), ok1)
                && ins_g.byte == start && action_effect(&mid, &*self, BufferAction::Insert(ins_g), ok2));
        }
        true
    }

    /// Joins the caret's line with the next: its line break becomes a space (as a
    /// deletion and an insertion). Reports no change on the last line.
    pub fn join_line(&mut self) -> (r: bool)
        requires
            old(self).wf(),
            ({
                let s = old(self).text();
                let l = line_of_byte(s, old(self).cursors@[old(self).primary_cursor as int].caret() as int);
                let del = BufferAction::Delete(Delete { byte: join_byte(s, l) as usize, len: 1 });
                l + 1 < line_count(s) ==> action_ok(old(self).model(), del) && crate::buffer::insert_ok(
                    after_action(old(self).model(), del),
                    join_byte(s, l),
                    seq![' '],
                )
            }),
        ensures
            ({
                let s = old(self).text();
                let l = line_of_byte(s, old(self).cursors@[old(self).primary_cursor as int].caret() as int);
                let del = BufferAction::Delete(Delete { byte: join_byte(s, l) as usize, len: 1 });
                if l + 1 >= line_count(s) {
                    *final(self) == *old(self) && !r
                } else {
                    &&& r
                    &&& exists|mid: TextBuffer<K>, ok1: bool, ins: Insert, ok2: bool|
                        action_effect(&*old(self), &mid, del, ok1) && ins.byte == join_byte(s, l) && ins.content@
                            == seq![' '] && action_effect(&mid, &*final(self), BufferAction::Insert(ins), ok2)
                }
            }),
    {
        let byte = self.cursors[self.primary_cursor].get_cursor_byte();
        let line_idx = self.byte_to_line_clamped(byte);
        let n = self.len_lines();
        proof {
            crate::buffer::lemma_line_first_byte_le(self.text(), byte as int);
        }
        if line_idx + 1 >= n {
            return false;
        }
        let next_line_start = self.line_to_byte_clamped(line_idx + 1);
        proof {
            crate::rope::lemma_line_start(self.text(), line_idx + 1);
            lemma_byte_of_ends(self.text());
            lemma_byte_of_mono(self.text(), 0, crate::rope::line_start(self.text(), line_idx + 1));
        }
        let newline_byte = next_line_start - 1;
        let ghost b0 = *self;
        let ok1 = self.action(BufferAction::Delete(Delete { byte: newline_byte, len: 1 }));
        let ghost mid = *self;
        let space = crate::text::owned(" ");
        proof {
            reveal_strlit(" ");
            assert(space@ == seq![' ']);
            assert(self.model() == after_action(b0.model(), BufferAction::Delete(Delete { byte: newline_byte, len: 1 })));
        }
        let ins = Insert { byte: newline_byte, content: space };
        let ghost ins_g = ins;
        proof {
            assert(crate::buffer::insert_ok(self.model(), newline_byte as int, seq![' ']));
            assert(action_ok(self.model(), BufferAction::Insert(ins_g)));
        }
        let ok2 = self.action(BufferAction::Insert(ins));
        assert(action_effect(&b0, &mid, BufferAction::Delete(Delete { byte: newline_byte, len: 1 }), ok1)
            && ins_g.byte == newline_byte && ins_g.content@ == seq![' '] && action_effect(&mid, &*self, BufferAction::Insert(ins_g), ok2));
        true
    }

    /// Deletes the selection (from the char that holds its start through the one that
    /// holds its end), collapsing the primary cursor onto its start first; returns
    /// whether the deletion succeeded (true when there is nothing to delete).
    pub fn delete_selection(&mut self) -> (r: bool)
        requires
            old(self).wf(),
            ({
                let s = old(self).text();
                let c = old(self).cursors@[old(self).primary_cursor as int];
                let n = selection_chars(s, c.sel_start as int, c.sel_end as int);
                &&& n >= 0
                &&& char_of_byte(s, c.sel_end as int) < usize::MAX
                &&& n > 0 ==> action_ok(old(self).model(), BufferAction::Delete(Delete { byte: c.sel_start, len: n as usize }))
            }),
        ensures
            ({
                let s = old(self).text();
                let c = old(self).cursors@[old(self).primary_cursor as int];
                let n = selection_chars(s, c.sel_start as int, c.sel_end as int);
                let collapsed = Cursor { at_start: true, sel_start: c.sel_start, sel_end: c.sel_start };
                if n > 0 {
                    exists|mid: TextBuffer<K>|
                        primary_set(&*old(self), &mid, collapsed) && action_effect(
                            &mid,
                            &*final(self),
                            BufferAction::Delete(Delete { byte: c.sel_start, len: n as usize }),
                            r,
                        )
                } else {
                    primary_set(&*old(self), &*final(self), collapsed) && r
                }
            }),
    {
        let c = self.cursors[self.primary_cursor];
        let start = c.sel_start;
        let end = c.sel_end;
        let mut d = c;
        d.set_at_start(true);
        d.collapse_sel();
        let p = self.primary_cursor;
        self.cursors.set(p, d);
        let ghost mid = *self;
        let cs = self.byte_to_char_clamped(start);
        let ce = self.byte_to_char_clamped(end);
        let count = ce + 1 - cs;
        if count > 0 {
            let ok = self.action(BufferAction::Delete(Delete { byte: start, len: count }));
            assert(primary_set(&*old(self), &mid, Cursor { at_start: true, sel_start: start, sel_end: start }));
            ok
        } else {
            true
        }
    }
}

/// Where `goto` puts the caret: the start of line `row` (clamped to the last line) plus
/// `col` bytes, clamped to the end of the text.
pub open spec fn goto_target(s: Seq<char>, row: int, col: int) -> int {
    let t = line_first_byte(s, row) + col;
    let t2 = if t > usize::MAX { usize::MAX as int } else { t };
    if t2 < utf8_len(s) {
        t2
    } else {
        utf8_len(s)
    }
}

/// Line `l` with its line break.
pub open spec fn line_text(s: Seq<char>, l: int) -> Seq<char> {
    s.subrange(crate::rope::line_start(s, l), crate::rope::line_start(s, l + 1))
}

/// Where `move_lines` puts the caret: on the line `rows` lines away (clamped), at the
/// display column the caret had (a tab being `tab` columns wide).
pub open spec fn move_lines_target(s: Seq<char>, caret: int, rows: int, tab: int) -> int {
    let line = line_of_byte(s, caret);
    let ls = line_first_byte(s, line);
    let prefix = if ls <= caret && caret <= utf8_len(s) {
        s.subrange(char_at_byte(s, ls), char_at_byte(s, caret))
    } else {
        Seq::empty()
    };
    let w = crate::scroll::width_scan(crate::scroll::graphemes(prefix), 0, 0, 0, utf8_len(prefix), tab);
    let col = if w <= usize::MAX { w } else { usize::MAX as int };
    let tl = clamp_int(line + rows, 0, line_count(s) - 1);
    line_first_byte(s, tl) + crate::scroll::col_scan(crate::scroll::graphemes(line_text(s, tl)), 0, 0, 0, col, tab)
}

/// The bytes of chars `a..b` are the bytes from `byte_of(a)` to `byte_of(b)`.
proof fn lemma_byte_of_span(s: Seq<char>, a: int, b: int)
    requires
        0 <= a <= b <= s.len(),
    ensures
        byte_of(s, a) + utf8_len(s.subrange(a, b)) == byte_of(s, b),
{
    assert(s.take(b) =~= s.take(a) + s.subrange(a, b));
    crate::rope::lemma_utf8_len_concat(s.take(a), s.subrange(a, b));
}

impl<K> TextBuffer<K> {
    /// Moves the primary caret `rows` lines (clamped to the text), keeping its display
    /// column where the target line is long enough; with `extend_selection` the
    /// selection runs from its anchor. Returns whether the caret moved.
    pub fn move_lines(&mut self, rows: isize, extend_selection: bool, tab_w: usize) -> (moved: bool)
        requires
            old(self).wf(),
        ensures
            rows == 0 ==> *final(self) == *old(self) && !moved,
            rows != 0 ==> {
                let c = old(self).cursors@[old(self).primary_cursor as int];
                let new_caret = move_lines_target(old(self).text(), c.caret() as int, rows as int, tab_w as int) as usize;
                &&& moved_primary(&*old(self), &*final(self), new_caret, extend_selection)
                &&& moved == (new_caret != c.caret())
            },
    {
        if rows == 0 {
            return false;
        }
        let ghost s = self.text();
        let caret = self.cursors[self.primary_cursor].get_cursor_byte();
        let line = self.byte_to_line_clamped(caret);
        let ls = self.line_to_byte_clamped(line);
        let prefix = match self.slice_to_string(ls, caret) {
            Some(t) => t,
            None => String::new(),
        };
        let plen = prefix.as_str().as_bytes().len();
        let col = crate::scroll::byte_offset_to_display_col(prefix.as_str(), plen, tab_w);
        let total = self.len_lines();
        proof {
            crate::buffer::lemma_line_first_byte_le(s, caret as int);
        }
        let target: i128 = line as i128 + rows as i128;
        let target_line: usize = if target < 0 {
            0
        } else if target > (total - 1) as i128 {
            total - 1
        } else {
            target as usize
        };
        let text = self.line_clamped(target_line);
        let tlen = text.as_str().as_bytes().len();
        let off = crate::scroll::display_col_to_byte_offset(text.as_str(), col, tab_w);
        let start = self.line_to_byte_clamped(target_line);
        let len = self.len();
        proof {
            crate::rope::lemma_line_start(s, target_line as int);
            crate::rope::lemma_line_start(s, target_line + 1);
            let a = crate::rope::line_start(s, target_line as int);
            let b = crate::rope::line_start(s, target_line + 1);
            if b < a {
                lemma_byte_of_mono(s, b, a);
                crate::rope::lemma_breaks_mono(s, b, a);
            }
            assert(a <= b);
            lemma_byte_of_span(s, a, b);
            lemma_byte_of_mono(s, b, s.len() as int);
            lemma_byte_of_ends(s);
        }
        let new_caret = start + off;
        self.primary_cursor_mut().move_caret_to(new_caret, extend_selection);
        new_caret != caret
    }
}

impl<K> TextBuffer<K> {
    /// Records that the buffer was written out: it is clean, and the save point is the
    /// current length of the undo stack.
    pub fn mark_saved(&mut self)
        ensures
            !final(self).dirty,
            final(self).save_point == old(self).undo_stack@.len(),
            final(self).model() == old(self).model(),
            final(self).undo_stack == old(self).undo_stack,
            final(self).redo_stack == old(self).redo_stack,
            final(self).current_change == old(self).current_change,
            same_identity(&*old(self), &*final(self)),
    {
        self.dirty = false;
        self.save_point = self.undo_stack.len();
    }

    /// Replaces the text by `content`, read again from the file: the buffer is clean,
    /// with nothing to undo or redo.
    pub fn reloaded(&mut self, content: &str)
        ensures
            final(self).text() == content@,
            !final(self).dirty,
            final(self).undo_stack@.len() == 0,
            final(self).redo_stack@.len() == 0,
            final(self).save_point == 0,
            final(self).cursors == old(self).cursors,
            final(self).primary_cursor == old(self).primary_cursor,
            final(self).version == old(self).version,
            final(self).byte_changes == old(self).byte_changes,
            final(self).current_change == old(self).current_change,
            same_identity(&*old(self), &*final(self)),
    {
        self.rope = crate::rope::rope_from_str(content);
        self.dirty = false;
        self.undo_stack.clear();
        self.redo_stack.clear();
        self.save_point = 0;
    }
}

/// Undoing the one change group made since the buffer was saved leaves it clean.
pub proof fn lemma_undo_to_save_point_is_clean<K>(b1: TextBuffer<K>, b2: TextBuffer<K>, b3: TextBuffer<K>, act: BufferAction)
    requires
        b1.save_point == b1.undo_stack@.len(),
        b1.current_change is None,
        action_effect(&b1, &b2, act, true),
        undo_effect(&b2, &b3),
    ensures
        !b3.dirty,
        b3.undo_stack@ == b1.undo_stack@,
{
    let g = b2.current_change->0;
    assert(g.1@.len() == 1);
    assert(committed(&b2) == b2.undo_stack@.push(g));
    assert(b2.undo_stack@.push(g).drop_last() =~= b1.undo_stack@);
}

/// Redoing what was just undone back to the save point makes the buffer dirty again.
pub proof fn lemma_redo_past_save_point_is_dirty<K>(b3: TextBuffer<K>, b4: TextBuffer<K>)
    requires
        b3.save_point == b3.undo_stack@.len(),
        b3.current_change is None,
        b3.redo_stack@.len() > 0,
        redo_effect(&b3, &b4),
    ensures
        b4.dirty,
{
}

/// What `commit_change_group` does to `a`, giving `b`.
pub open spec fn commit_effect<K>(a: &TextBuffer<K>, b: &TextBuffer<K>) -> bool {
    &&& same_identity(a, b)
    &&& b.undo_stack@ == committed(a)
    &&& b.current_change is None
    &&& b.model() == a.model()
    &&& b.dirty == a.dirty
    &&& b.save_point == a.save_point
    &&& b.redo_stack == a.redo_stack
}

/// What `start_change_group` does to `a`, giving `b`.
pub open spec fn start_effect<K>(a: &TextBuffer<K>, b: &TextBuffer<K>) -> bool {
    &&& same_identity(a, b)
    &&& b.undo_stack@ == committed(a)
    &&& b.current_change matches Some(g) && g.0@ == a.cursors@ && g.1@.len() == 0
    &&& b.model() == a.model()
    &&& b.dirty == a.dirty
    &&& b.save_point == a.save_point
    &&& b.redo_stack == a.redo_stack
}

/// `undo` can run on `a` without overflowing.
pub open spec fn undo_ok<K>(a: &TextBuffer<K>) -> bool {
    committed(a).len() > 0 ==> run_ok(a.model(), committed(a).last().1@.reverse())
}

/// What `undo` does to `a`, giving `b`.
pub open spec fn undo_effect<K>(a: &TextBuffer<K>, b: &TextBuffer<K>) -> bool {
    &&& same_identity(a, b)
    &&& b.current_change is None
    &&& b.save_point == a.save_point
    &&& b.primary_cursor == a.primary_cursor
    &&& if committed(a).len() == 0 {
        &&& b.model() == a.model()
        &&& b.undo_stack@.len() == 0
        &&& b.dirty == a.dirty
        &&& b.redo_stack == a.redo_stack
    } else {
        let u = committed(a);
        let acts = u.last().1@.reverse();
        let after = run(a.model(), acts);
        &&& b.text() == after.text
        &&& b.version == after.version
        &&& b.byte_changes@ == after.byte_changes
        &&& b.cursors@ == u.last().0@
        &&& b.undo_stack@ == u.drop_last()
        &&& b.dirty == (u.len() - 1 != a.save_point)
        &&& b.redo_stack@.drop_last() == a.redo_stack@
        &&& b.redo_stack@.last().0@ == a.cursors@
        &&& b.redo_stack@.last().1@.len() == acts.len()
        &&& forall|k: int|
            0 <= k < acts.len() ==> undoes(
                run(a.model(), acts.take(k)),
                #[trigger] acts[k],
                b.redo_stack@.last().1@[acts.len() - 1 - k],
            )
    }
}

/// `redo` can run on `a` without overflowing.
pub open spec fn redo_ok<K>(a: &TextBuffer<K>) -> bool {
    a.redo_stack@.len() > 0 ==> run_ok(a.model(), a.redo_stack@.last().1@)
}

/// What `redo` does to `a`, giving `b`.
pub open spec fn redo_effect<K>(a: &TextBuffer<K>, b: &TextBuffer<K>) -> bool {
    &&& same_identity(a, b)
    &&& b.current_change is None
    &&& b.save_point == a.save_point
    &&& b.primary_cursor == a.primary_cursor
    &&& if a.redo_stack@.len() == 0 {
        &&& b.model() == a.model()
        &&& b.undo_stack@ == committed(a)
        &&& b.dirty == a.dirty
        &&& b.redo_stack@ == a.redo_stack@
    } else {
        let g = a.redo_stack@.last();
        let after = run(a.model(), g.1@);
        let u = committed(a);
        &&& b.text() == after.text
        &&& b.version == after.version
        &&& b.byte_changes@ == after.byte_changes
        &&& b.cursors@ == g.0@
        &&& b.redo_stack@ == a.redo_stack@.drop_last()
        &&& b.undo_stack@.drop_last() == u
        &&& b.undo_stack@.last().0@ == a.cursors@
        &&& b.undo_stack@.last().1@.len() == g.1@.len()
        &&& forall|k: int|
            0 <= k < g.1@.len() ==> undoes(run(a.model(), g.1@.take(k)), #[trigger] g.1@[k], b.undo_stack@.last().1@[k])
        &&& b.dirty == (u.len() + 1 != a.save_point)
    }
}

/// `move_bytes` can run on `a` without overflowing.
pub open spec fn move_bytes_ok<K>(a: &TextBuffer<K>, bytes: int) -> bool {
    &&& utf8_len(a.text()) <= isize::MAX
    &&& a.cursors@[a.primary_cursor as int].caret() <= isize::MAX
    &&& a.cursors@[a.primary_cursor as int].caret() + bytes <= isize::MAX
}

/// What `move_bytes` does to `a`, giving `b` and `moved`.
pub open spec fn move_bytes_effect<K>(a: &TextBuffer<K>, b: &TextBuffer<K>, bytes: int, extend: bool, moved: bool) -> bool {
    if bytes == 0 {
        *b == *a && !moved
    } else {
        let c = a.cursors@[a.primary_cursor as int];
        let new_caret = clamp_int(c.caret() + bytes, 0, utf8_len(a.text())) as usize;
        &&& moved_primary(a, b, new_caret, extend)
        &&& moved == (new_caret != c.caret())
    }
}

/// `move_chars` can run on `a` without overflowing.
pub open spec fn move_chars_ok<K>(a: &TextBuffer<K>, chars: int) -> bool {
    &&& a.text().len() <= isize::MAX
    &&& char_of_byte(a.text(), a.cursors@[a.primary_cursor as int].caret() as int) + chars <= isize::MAX
}

/// The file-system work a command leaves to its caller.
pub enum FileRequest {
    /// Write the buffer to `path` (to its own path when `None`); with `check_disk`, not
    /// when the file changed on disk since it was read or last written
    Write { path: Option<String>, check_disk: bool },
    /// Read the buffer's file again
    Reload,
}

/// What applying a command came to.
pub enum CommandOutcome {
    /// The command ran; whether it reports a change
    Done(bool),
    /// The caller is to do this file-system work
    File(FileRequest),
    /// The caller is to run the inner command once for each cursor
    EachCursor,
}

/// The path `WriteFile` writes to: the one given, or the buffer's own.
pub open spec fn write_target<K>(b: &TextBuffer<K>, path: Option<String>) -> Seq<char> {
    match path {
        Some(p) => p@,
        None => b.path@,
    }
}

/// A special buffer name such as `<scratch>`: it starts with `<` and ends with `>`.
pub open spec fn is_special(p: Seq<char>) -> bool {
    p.len() > 0 && p[0] == '<' && p.last() == '>'
}

fn special_path(p: &String) -> (r: bool)
    ensures
        r == is_special(p@),
{
    let cs = chars_of(p.as_str());
    cs.len() > 0 && cs[0] == '<' && cs[cs.len() - 1] == '>'
}

fn is_scratch(p: &String) -> (r: bool)
    ensures
        r == (p@ == "<scratch>"@),
{
    let cs = chars_of(p.as_str());
    crate::text::str_chars_eq(cs.as_slice(), "<scratch>")
}

/// A command on the current text buffer.
pub enum BufferCommand {
    /// Moves the primary cursor by a number of bytes
    MoveBytes { bytes: isize, extend: bool },
    /// Moves the primary cursor by a number of lines
    MoveLines { lines: isize, extend: bool },
    /// Moves the primary cursor by a number of characters
    MoveChars { chars: isize, extend: bool },
    /// Goes to a row and column, both clamped
    GoTo { col: usize, row: usize, extend: bool },
    /// Writes the buffer to disk, unless it changed on disk meanwhile
    WriteFile { path: Option<String> },
    /// Writes the buffer to disk regardless
    WriteFileForce { path: Option<String> },
    /// Reloads the buffer from disk, unless it has unsaved changes
    ReloadFile,
    /// Reloads the buffer from disk regardless
    ReloadFileForce,
    /// Starts a change group
    StartChange,
    /// Commits the change group
    CommitChange,
    /// Inserts text at the primary caret
    Insert(String),
    /// Inserts text at the primary caret and moves over it
    Append { text: String, extend: bool },
    /// Deletes the primary selection
    Delete,
    /// Undoes the last change group
    Undo,
    /// Redoes the last undone change group
    Redo,
    /// Toggles the case of the selection
    ToggleCase,
    /// Joins the caret's line with the next
    JoinLine,
}

/// The primary caret.
pub open spec fn caret_of<K>(b: &TextBuffer<K>) -> usize {
    b.cursors@[b.primary_cursor as int].caret()
}

/// A buffer command can run on `b` without overflowing.
pub open spec fn buffer_command_ok<K>(cmd: BufferCommand, b: &TextBuffer<K>) -> bool {
    match cmd {
        BufferCommand::MoveBytes { bytes, .. } => move_bytes_ok(b, bytes as int),
        BufferCommand::MoveChars { chars, .. } => move_chars_ok(b, chars as int),
        BufferCommand::Insert(text) => action_ok(b.model(), BufferAction::Insert(Insert { byte: caret_of(b), content: text })),
        BufferCommand::Append { text, .. } => {
            let m1 = after_action(b.model(), BufferAction::Insert(Insert { byte: caret_of(b), content: text }));
            &&& action_ok(b.model(), BufferAction::Insert(Insert { byte: caret_of(b), content: text }))
            &&& m1.text.len() <= isize::MAX
            &&& char_of_byte(m1.text, caret_of(b) as int) + text@.len() <= isize::MAX
        },
        BufferCommand::Delete => {
            let c = b.cursors@[b.primary_cursor as int];
            let n = selection_chars(b.text(), c.sel_start as int, c.sel_end as int);
            &&& n >= 0
            &&& char_of_byte(b.text(), c.sel_end as int) < usize::MAX
            &&& n > 0 ==> action_ok(b.model(), BufferAction::Delete(Delete { byte: c.sel_start, len: n as usize }))
        },
        BufferCommand::Undo => undo_ok(b),
        BufferCommand::Redo => redo_ok(b),
        BufferCommand::ToggleCase => {
            let c = b.cursors@[b.primary_cursor as int];
            let t = selected_text(b.text(), c.sel_start as int, c.sel_end as int);
            let del = BufferAction::Delete(Delete { byte: c.sel_start, len: t.len() as usize });
            &&& c.sel_end < usize::MAX
            &&& t != toggled(t) ==> action_ok(b.model(), del) && crate::buffer::insert_ok(
                after_action(b.model(), del),
                c.sel_start as int,
                toggled(t),
            )
        },
        BufferCommand::JoinLine => {
            let s = b.text();
            let l = line_of_byte(s, caret_of(b) as int);
            let del = BufferAction::Delete(Delete { byte: join_byte(s, l) as usize, len: 1 });
            l + 1 < line_count(s) ==> action_ok(b.model(), del) && crate::buffer::insert_ok(
                after_action(b.model(), del),
                join_byte(s, l),
                seq![' '],
            )
        },
        _ => true,
    }
}

impl BufferCommand {
    /// Applies the command to the buffer: the edits and motions run here; writing and
    /// reloading are handed back as file requests, after the checks that need no disk.
    pub fn apply<K>(&self, buf: &mut TextBuffer<K>) -> (out: CommandOutcome)
        requires
            old(buf).wf(),
            buffer_command_ok(*self, &*old(buf)),
        ensures
            match *self {
                BufferCommand::MoveBytes { bytes, extend } => out matches CommandOutcome::Done(m)
                    && move_bytes_effect(&*old(buf), &*final(buf), bytes as int, extend, m),
                BufferCommand::MoveChars { chars, extend } => out matches CommandOutcome::Done(m)
                    && move_chars_effect(&*old(buf), &*final(buf), chars as int, extend, m),
                BufferCommand::MoveLines { lines, extend } => out matches CommandOutcome::Done(m) && if lines == 0 {
                    *final(buf) == *old(buf) && !m
                } else {
                    let c = old(buf).cursors@[old(buf).primary_cursor as int];
                    let tab = match old(buf).indent_style {
                        crate::indent::IndentStyle::Tabs => 4,
                        crate::indent::IndentStyle::Spaces(n) => n as int,
                    };
                    let new_caret = move_lines_target(old(buf).text(), c.caret() as int, lines as int, tab) as usize;
                    &&& moved_primary(&*old(buf), &*final(buf), new_caret, extend)
                    &&& m == (new_caret != c.caret())
                },
                BufferCommand::GoTo { col, row, extend } => out == CommandOutcome::Done(false)
                    && moved_primary(&*old(buf), &*final(buf), goto_target(old(buf).text(), row as int, col as int) as usize, extend),
                BufferCommand::WriteFile { path } => *final(buf) == *old(buf) && if is_special(write_target(&*old(buf), path)) {
                    out == CommandOutcome::Done(false)
                } else {
                    out == CommandOutcome::File(FileRequest::Write { path, check_disk: true })
                },
                BufferCommand::WriteFileForce { path } => *final(buf) == *old(buf)
                    && out == CommandOutcome::File(FileRequest::Write { path, check_disk: false }),
                BufferCommand::ReloadFile => *final(buf) == *old(buf) && if old(buf).dirty || old(buf).path@ == "<scratch>"@ {
                    out == CommandOutcome::Done(false)
                } else {
                    out == CommandOutcome::File(FileRequest::Reload)
                },
                BufferCommand::ReloadFileForce => *final(buf) == *old(buf) && if old(buf).path@ == "<scratch>"@ {
                    out == CommandOutcome::Done(false)
                } else {
                    out == CommandOutcome::File(FileRequest::Reload)
                },
                BufferCommand::StartChange => out == CommandOutcome::Done(true) && start_effect(&*old(buf), &*final(buf)),
                BufferCommand::CommitChange => out == CommandOutcome::Done(true) && commit_effect(&*old(buf), &*final(buf)),
                BufferCommand::Insert(text) => out matches CommandOutcome::Done(ok) && action_effect(
                    &*old(buf),
                    &*final(buf),
                    BufferAction::Insert(Insert { byte: caret_of(&*old(buf)), content: text }),
                    ok,
                ),
                BufferCommand::Append { text, extend } => out matches CommandOutcome::Done(moved) && exists|mid: TextBuffer<K>, ok: bool|
                    action_effect(
                        &*old(buf),
                        &mid,
                        BufferAction::Insert(Insert { byte: caret_of(&*old(buf)), content: text }),
                        ok,
                    ) && move_chars_effect(&mid, &*final(buf), text@.len() as int, extend, moved),
                BufferCommand::Delete => out matches CommandOutcome::Done(r) && ({
                    let s = old(buf).text();
                    let c = old(buf).cursors@[old(buf).primary_cursor as int];
                    let n = selection_chars(s, c.sel_start as int, c.sel_end as int);
                    let collapsed = Cursor { at_start: true, sel_start: c.sel_start, sel_end: c.sel_start };
                    if n > 0 {
                        exists|mid: TextBuffer<K>|
                            primary_set(&*old(buf), &mid, collapsed) && action_effect(
                                &mid,
                                &*final(buf),
                                BufferAction::Delete(Delete { byte: c.sel_start, len: n as usize }),
                                r,
                            )
                    } else {
                        primary_set(&*old(buf), &*final(buf), collapsed) && r
                    }
                }),
                BufferCommand::Undo => out == CommandOutcome::Done(true) && undo_effect(&*old(buf), &*final(buf)),
                BufferCommand::Redo => out == CommandOutcome::Done(true) && redo_effect(&*old(buf), &*final(buf)),
                BufferCommand::ToggleCase => out == CommandOutcome::Done(true) && ({
                    let c = old(buf).cursors@[old(buf).primary_cursor as int];
                    let t = selected_text(old(buf).text(), c.sel_start as int, c.sel_end as int);
                    let del = BufferAction::Delete(Delete { byte: c.sel_start, len: t.len() as usize });
                    if t == toggled(t) {
                        *final(buf) == *old(buf)
                    } else {
                        exists|mid: TextBuffer<K>, ok1: bool, ins: Insert, ok2: bool|
                            action_effect(&*old(buf), &mid, del, ok1) && ins.byte == c.sel_start && ins.content@
                                == toggled(t) && action_effect(&mid, &*final(buf), BufferAction::Insert(ins), ok2)
                    }
                }),
                BufferCommand::JoinLine => out matches CommandOutcome::Done(r) && ({
                    let s = old(buf).text();
                    let l = line_of_byte(s, caret_of(&*old(buf)) as int);
                    let del = BufferAction::Delete(Delete { byte: join_byte(s, l) as usize, len: 1 });
                    if l + 1 >= line_count(s) {
                        *final(buf) == *old(buf) && !r
                    } else {
                        &&& r
                        &&& exists|mid: TextBuffer<K>, ok1: bool, ins: Insert, ok2: bool|
                            action_effect(&*old(buf), &mid, del, ok1) && ins.byte == join_byte(s, l) && ins.content@
                                == seq![' '] && action_effect(&mid, &*final(buf), BufferAction::Insert(ins), ok2)
                    }
                }),
            },
    {
        match self {
            BufferCommand::MoveBytes { bytes, extend } => CommandOutcome::Done(buf.move_bytes(*bytes, *extend)),
            BufferCommand::MoveChars { chars, extend } => CommandOutcome::Done(buf.move_chars(*chars, *extend)),
            BufferCommand::MoveLines { lines, extend } => {
                let tab = buf.indent_style.tab_width();
                CommandOutcome::Done(buf.move_lines(*lines, *extend, tab))
            },
            BufferCommand::GoTo { col, row, extend } => CommandOutcome::Done(buf.goto(*row, *col, *extend)),
            BufferCommand::WriteFile { path } => {
                let special = match path {
                    Some(p) => special_path(p),
                    None => special_path(&buf.path),
                };
                if special {
                    CommandOutcome::Done(false)
                } else {
                    CommandOutcome::File(FileRequest::Write { path: path.clone(), check_disk: true })
                }
            },
            BufferCommand::WriteFileForce { path } => CommandOutcome::File(FileRequest::Write { path: path.clone(), check_disk: false }),
            BufferCommand::ReloadFile => {
                if buf.dirty || is_scratch(&buf.path) {
                    CommandOutcome::Done(false)
                } else {
                    CommandOutcome::File(FileRequest::Reload)
                }
            },
            BufferCommand::ReloadFileForce => {
                if is_scratch(&buf.path) {
                    CommandOutcome::Done(false)
                } else {
                    CommandOutcome::File(FileRequest::Reload)
                }
            },
            BufferCommand::StartChange => {
                buf.start_change_group();
                CommandOutcome::Done(true)
            },
            BufferCommand::CommitChange => {
                buf.commit_change_group();
                CommandOutcome::Done(true)
            },
            BufferCommand::Insert(text) => {
                let byte = buf.cursors[buf.primary_cursor].get_cursor_byte();
                CommandOutcome::Done(buf.action(BufferAction::Insert(Insert { byte, content: text.clone() })))
            },
            BufferCommand::Append { text, extend } => CommandOutcome::Done(buf.append(text, *extend)),
            BufferCommand::Delete => CommandOutcome::Done(buf.delete_selection()),
            BufferCommand::Undo => {
                buf.undo();
                CommandOutcome::Done(true)
            },
            BufferCommand::Redo => {
                buf.redo();
                CommandOutcome::Done(true)
            },
            BufferCommand::ToggleCase => CommandOutcome::Done(buf.toggle_case()),
            BufferCommand::JoinLine => CommandOutcome::Done(buf.join_line()),
        }
    }
}

/// A command on the cursors of the current text buffer.
pub enum CursorCommand {
    /// Duplicates the primary cursor and makes the copy primary
    CreateCursor,
    /// Moves the primary cursor by an offset along the cursors
    ChangeActiveCursor(isize),
    /// Drops the primary cursor (not the only one)
    DropCursor,
    /// Drops every cursor but the primary one
    DropOtherCursors,
    /// Runs a command once for each cursor
    ApplyAll(Vec<crate::command_lang::Token>),
}

impl CursorCommand {
    /// Applies the command; `ApplyAll` is handed back, as it runs other commands.
    pub fn apply<K>(&self, buf: &mut TextBuffer<K>) -> (out: CommandOutcome)
        requires
            old(buf).wf(),
        ensures
            match *self {
                CursorCommand::ApplyAll(_) => out == CommandOutcome::EachCursor && *final(buf) == *old(buf),
                _ => out == CommandOutcome::Done(true) && final(buf).wf() && final(buf).text() == old(buf).text()
                    && final(buf).version == old(buf).version && same_setting(&*old(buf), &*final(buf)),
            },
            *self is CreateCursor ==> final(buf).cursors@ == old(buf).cursors@.push(old(buf).cursors@[old(buf).primary_cursor as int])
                && final(buf).primary_cursor == old(buf).cursors@.len(),
            *self matches CursorCommand::ChangeActiveCursor(offset) ==> final(buf).cursors == old(buf).cursors
                && final(buf).primary_cursor == clamp_int(old(buf).primary_cursor + offset, 0, old(buf).cursors@.len() - 1),
            *self is DropCursor ==> if old(buf).cursors@.len() <= 1 {
                final(buf).cursors == old(buf).cursors && final(buf).primary_cursor == old(buf).primary_cursor
            } else {
                &&& final(buf).cursors@ == old(buf).cursors@.remove(old(buf).primary_cursor as int)
                &&& final(buf).primary_cursor == if old(buf).primary_cursor == 0 { 0 } else { old(buf).primary_cursor - 1 }
            },
            *self is DropOtherCursors ==> final(buf).cursors@ == seq![old(buf).cursors@[old(buf).primary_cursor as int]]
                && final(buf).primary_cursor == 0,
    {
        match self {
            CursorCommand::CreateCursor => {
                buf.create_cursor();
                CommandOutcome::Done(true)
            },
            CursorCommand::ChangeActiveCursor(offset) => {
                buf.change_cursor(*offset);
                CommandOutcome::Done(true)
            },
            CursorCommand::DropCursor => {
                buf.drop_primary_cursor();
                CommandOutcome::Done(true)
            },
            CursorCommand::DropOtherCursors => {
                buf.drop_other_cursors();
                CommandOutcome::Done(true)
            },
            CursorCommand::ApplyAll(_) => CommandOutcome::EachCursor,
        }
    }
}

} // verus!
