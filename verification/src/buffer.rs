//! The text buffer: a rope of text, the cursors on it, and the edits made to it.

use vstd::prelude::*;
use crate::cursor::Cursor;
use crate::indent::{IndentStyle, detect_indent_lines, detected_style};
use crate::rope::{
    rope_chars, byte_of, char_at_byte, breaks_before, line_count, line_start, lemma_byte_of_ends,
    lemma_char_at_byte, lemma_char_at_byte_of, lemma_utf8_len_concat, lemma_char_bytes, lemma_line_of, lemma_line_start, lemma_byte_of_mono, rope_new, rope_from_str,
    rope_len_bytes, rope_len_chars, rope_len_lines, rope_char, rope_byte_to_char, rope_char_to_byte,
    rope_byte_to_line, rope_line_to_char, rope_slice_string, rope_line_string, rope_insert,
    rope_remove,
};
use crate::scroll::utf8_len;
use crate::renderer::{BufferRenderer, edits_ok, marks_after_edits};
use crate::extmark::{ExtmarkBuilder, built_from};
use ropey::Rope;

verus! {

/// A position given as `((line, column), byte)`, the column counted in bytes from the
/// start of the line.
pub type EditPart = ((usize, usize), usize);

/// One edit, as the positions of its start, of the end of the replaced text, and of the
/// end of the new text.
pub type ByteChange = [EditPart; 3];

/// The byte clamped into the text.
pub open spec fn clamp_byte(s: Seq<char>, b: int) -> int {
    if b <= utf8_len(s) {
        b
    } else {
        utf8_len(s)
    }
}

/// The index of the last line.
pub open spec fn last_line(s: Seq<char>) -> int {
    line_count(s) - 1
}

/// The line that holds byte `b` (the last line for a byte past the end).
pub open spec fn line_of_byte(s: Seq<char>, b: int) -> int {
    breaks_before(s, char_at_byte(s, clamp_byte(s, b))) as int
}

/// The byte at which line `l` starts (the last line for a line past the end).
pub open spec fn line_first_byte(s: Seq<char>, l: int) -> int {
    byte_of(
        s,
        line_start(
            s,
            if l <= last_line(s) {
                l
            } else {
                last_line(s)
            },
        ),
    )
}

/// The char index held by byte `b`, clamped into the text.
pub open spec fn char_of_byte(s: Seq<char>, b: int) -> int {
    char_at_byte(s, clamp_byte(s, b))
}

/// `((line, column), byte)` of byte `b`.
pub open spec fn edit_part(s: Seq<char>, b: int) -> EditPart {
    (
        (line_of_byte(s, b) as usize, (b - line_first_byte(s, line_of_byte(s, b))) as usize),
        b as usize,
    )
}

/// The line that holds a byte starts at or before that byte.
pub proof fn lemma_line_first_byte_le(s: Seq<char>, b: int)
    requires
        0 <= b,
    ensures
        0 <= line_first_byte(s, line_of_byte(s, b)) <= clamp_byte(s, b),
        0 <= line_of_byte(s, b) <= last_line(s),
{
    let cb = clamp_byte(s, b);
    lemma_byte_of_ends(s);
    lemma_char_at_byte(s, cb);
    let c = char_at_byte(s, cb);
    lemma_line_of(s, c);
    let l = breaks_before(s, c) as int;
    lemma_line_start(s, l);
    lemma_byte_of_mono(s, 0, line_start(s, l));
    lemma_byte_of_mono(s, line_start(s, l), c);
}

/// What the buffer is, for its contracts.
pub struct BufferModel {
    pub text: Seq<char>,
    pub cursors: Seq<Cursor>,
    pub primary: int,
    pub version: int,
    pub byte_changes: Seq<ByteChange>,
}

/// The core storage of an open text buffer.
pub struct TextBuffer<K> {
    pub dirty: bool,
    /// The length of the undo stack at the last save; used to compute `dirty`
    pub save_point: usize,
    pub version: u128,
    pub rope: Rope,
    pub path: String,
    pub ext: String,
    pub filetype: Option<String>,
    pub indent_style: IndentStyle,
    pub cursors: Vec<Cursor>,
    pub primary_cursor: usize,
    /// Pending byte-range edits, to be handed to the renderer at the end of a frame
    pub byte_changes: Vec<ByteChange>,
    pub current_change: Option<ChangeGroup>,
    /// Past changes that can be undone
    pub undo_stack: Vec<ChangeGroup>,
    /// Undone changes that can be redone
    pub redo_stack: Vec<ChangeGroup>,
    /// The extmarks and the scroll state the buffer is drawn with
    pub renderer: BufferRenderer<K>,
}

/// Actions applied together as one unit of undo and redo, with the cursors from before
/// them.
pub struct ChangeGroup(pub Vec<Cursor>, pub Vec<BufferAction>);

/// Inserts text at a byte offset.
pub struct Insert {
    pub byte: usize,
    pub content: String,
}

/// Deletes `len` chars starting at the char that holds a byte offset.
pub struct Delete {
    pub byte: usize,
    /// Length in chars (not bytes) of the text to delete
    pub len: usize,
}

/// An action that changes nothing.
pub struct NoOp;

/// A reversible change to a text buffer.
pub enum BufferAction {
    Insert(Insert),
    Delete(Delete),
    NoOp(NoOp),
}

/// Whether an action was applied, and the action that undoes it.
pub struct ActionResult {
    pub success: bool,
    pub action: BufferAction,
}

impl<K> TextBuffer<K> {
    /// The text the buffer holds.
    pub open spec fn text(&self) -> Seq<char> {
        rope_chars(self.rope)
    }

    /// The buffer as its contracts see it.
    pub open spec fn model(&self) -> BufferModel {
        BufferModel {
            text: self.text(),
            cursors: self.cursors@,
            primary: self.primary_cursor as int,
            version: self.version as int,
            byte_changes: self.byte_changes@,
        }
    }

    /// The primary cursor exists.
    pub open spec fn wf(&self) -> bool {
        self.primary_cursor < self.cursors@.len()
    }

    /// An empty buffer with no file behind it, one cursor at its start, and nothing to
    /// undo.
    pub fn scratch() -> (b: TextBuffer<K>)
        ensures
            b.text() == Seq::<char>::empty(),
            b.wf(),
            b.cursors@ == seq![Cursor { at_start: false, sel_start: 0, sel_end: 0 }],
            b.primary_cursor == 0,
            !b.dirty,
            b.save_point == 0,
            b.version == 0,
            b.path@ == "<scratch>"@,
            b.ext@ == Seq::<char>::empty(),
            b.filetype is None,
            b.indent_style == IndentStyle::Spaces(4),
            b.byte_changes@.len() == 0,
            b.current_change is None,
            b.undo_stack@.len() == 0,
            b.redo_stack@.len() == 0,
            b.renderer.wf(),
            b.renderer.marks().len() == 0,
            b.renderer.next_id() == 0,
            b.renderer.byte_scroll == 0,
            b.renderer.visual_scroll == 0,
            b.renderer.h_scroll == 0,
            !b.renderer.cursor_drag,
    {
        TextBuffer {
            dirty: false,
            save_point: 0,
            version: 0,
            rope: rope_new(),
            path: crate::text::owned("<scratch>"),
            ext: String::new(),
            filetype: None,
            indent_style: IndentStyle::default(),
            cursors: vec![Cursor::default()],
            primary_cursor: 0,
            byte_changes: Vec::new(),
            current_change: None,
            undo_stack: Vec::new(),
            redo_stack: Vec::new(),
            renderer: BufferRenderer::new(),
        }
    }

    /// A buffer holding `content`, read from the file at `path` (whose extension is
    /// `ext`), indented as `content` is, with `default_tab_unit` spaces where that does
    /// not show.
    pub fn from_content(path: String, ext: String, content: &str, default_tab_unit: usize) -> (b:
        TextBuffer<K>)
        ensures
            b.text() == content@,
            b.wf(),
            b.cursors@ == seq![Cursor { at_start: false, sel_start: 0, sel_end: 0 }],
            b.primary_cursor == 0,
            !b.dirty,
            b.save_point == 0,
            b.version == 0,
            b.path == path,
            b.ext == ext,
            b.filetype is None,
            b.indent_style == detected_style(rope_lines(content@), default_tab_unit),
            b.byte_changes@.len() == 0,
            b.current_change is None,
            b.undo_stack@.len() == 0,
            b.redo_stack@.len() == 0,
            b.renderer.wf(),
            b.renderer.marks().len() == 0,
            b.renderer.next_id() == 0,
            b.renderer.byte_scroll == 0,
            b.renderer.visual_scroll == 0,
            b.renderer.h_scroll == 0,
            !b.renderer.cursor_drag,
    {
        let rope = rope_from_str(content);
        let indent_style = detect_indent(&rope, default_tab_unit);
        TextBuffer {
            dirty: false,
            save_point: 0,
            version: 0,
            rope,
            path,
            ext,
            filetype: None,
            indent_style,
            cursors: vec![Cursor::default()],
            primary_cursor: 0,
            byte_changes: Vec::new(),
            current_change: None,
            undo_stack: Vec::new(),
            redo_stack: Vec::new(),
            renderer: BufferRenderer::new(),
        }
    }

    /// The number of bytes of the text.
    pub fn len(&self) -> (n: usize)
        ensures
            n == utf8_len(self.text()),
    {
        rope_len_bytes(&self.rope)
    }

    /// Whether the text is empty.
    pub fn is_empty(&self) -> (r: bool)
        ensures
            r == (utf8_len(self.text()) == 0),
    {
        rope_len_bytes(&self.rope) == 0
    }

    /// The number of chars of the text.
    pub fn len_chars(&self) -> (n: usize)
        ensures
            n == self.text().len(),
    {
        rope_len_chars(&self.rope)
    }

    /// The number of lines of the text.
    pub fn len_lines(&self) -> (n: usize)
        ensures
            n == line_count(self.text()),
    {
        rope_len_lines(&self.rope)
    }

    /// The whole text.
    pub fn to_string(&self) -> (t: String)
        ensures
            t@ == self.text(),
    {
        let n = rope_len_chars(&self.rope);
        let t = rope_slice_string(&self.rope, 0, n);
        assert(self.text().subrange(0, n as int) =~= self.text());
        t
    }

    /// The line that holds `byte`, or `None` past the end of the text.
    pub fn byte_to_line(&self, byte: usize) -> (r: Option<usize>)
        ensures
            r == if byte <= utf8_len(self.text()) {
                Some(line_of_byte(self.text(), byte as int) as usize)
            } else {
                None::<usize>
            },
    {
        if byte <= rope_len_bytes(&self.rope) {
            Some(self.byte_to_line_clamped(byte))
        } else {
            None
        }
    }

    /// The line that holds `byte`; the last line past the end of the text.
    pub fn byte_to_line_clamped(&self, byte: usize) -> (r: usize)
        ensures
            r == line_of_byte(self.text(), byte as int),
    {
        let len = rope_len_bytes(&self.rope);
        let b = if byte <= len {
            byte
        } else {
            len
        };
        rope_byte_to_line(&self.rope, b)
    }

    /// The byte at which `line` starts, or `None` when there is no such line.
    pub fn line_to_byte(&self, line: usize) -> (r: Option<usize>)
        ensures
            r == if line < line_count(self.text()) {
                Some(line_first_byte(self.text(), line as int) as usize)
            } else {
                None::<usize>
            },
    {
        if line < rope_len_lines(&self.rope) {
            Some(self.line_to_byte_clamped(line))
        } else {
            None
        }
    }

    /// The byte at which `line` starts; the last line's past the end.
    pub fn line_to_byte_clamped(&self, line: usize) -> (r: usize)
        ensures
            r == line_first_byte(self.text(), line as int),
    {
        let last = rope_len_lines(&self.rope) - 1;
        let l = if line <= last {
            line
        } else {
            last
        };
        let c = rope_line_to_char(&self.rope, l);
        proof {
            lemma_line_start(self.text(), l as int);
        }
        rope_char_to_byte(&self.rope, c)
    }

    /// The index of the char that holds `byte`, or `None` past the end of the text.
    pub fn byte_to_char(&self, byte: usize) -> (r: Option<usize>)
        ensures
            r == if byte <= utf8_len(self.text()) {
                Some(char_at_byte(self.text(), byte as int) as usize)
            } else {
                None::<usize>
            },
    {
        if byte <= rope_len_bytes(&self.rope) {
            Some(self.byte_to_char_clamped(byte))
        } else {
            None
        }
    }

    /// The index of the char that holds `byte`; the char count past the end.
    pub fn byte_to_char_clamped(&self, byte: usize) -> (r: usize)
        ensures
            r == char_of_byte(self.text(), byte as int),
            r <= self.text().len(),
    {
        let len = rope_len_bytes(&self.rope);
        let b = if byte <= len {
            byte
        } else {
            len
        };
        proof {
            lemma_char_at_byte(self.text(), b as int);
        }
        rope_byte_to_char(&self.rope, b)
    }

    /// The byte at which char `char_idx` starts, or `None` past the end of the text.
    pub fn char_to_byte(&self, char_idx: usize) -> (r: Option<usize>)
        ensures
            r == if char_idx <= self.text().len() {
                Some(byte_of(self.text(), char_idx as int) as usize)
            } else {
                None::<usize>
            },
    {
        if char_idx <= rope_len_chars(&self.rope) {
            Some(self.char_to_byte_clamped(char_idx))
        } else {
            None
        }
    }

    /// The byte at which char `char_idx` starts; the text's length past its end.
    pub fn char_to_byte_clamped(&self, char_idx: usize) -> (r: usize)
        ensures
            r == byte_of(
                self.text(),
                if char_idx <= self.text().len() {
                    char_idx as int
                } else {
                    self.text().len() as int
                },
            ),
    {
        let n = rope_len_chars(&self.rope);
        let c = if char_idx <= n {
            char_idx
        } else {
            n
        };
        rope_char_to_byte(&self.rope, c)
    }

    /// The char at `char_idx`, or `None` past the end of the text.
    pub fn char(&self, char_idx: usize) -> (r: Option<char>)
        ensures
            r == if char_idx < self.text().len() {
                Some(self.text()[char_idx as int])
            } else {
                None::<char>
            },
    {
        if char_idx < rope_len_chars(&self.rope) {
            Some(rope_char(&self.rope, char_idx))
        } else {
            None
        }
    }

    /// The char at `char_idx`, clamped to the last char; `'\0'` for an empty text.
    pub fn char_clamped(&self, char_idx: usize) -> (r: char)
        ensures
            r == if self.text().len() == 0 {
                '\0'
            } else if char_idx < self.text().len() {
                self.text()[char_idx as int]
            } else {
                self.text().last()
            },
    {
        let n = rope_len_chars(&self.rope);
        if n == 0 {
            '\0'
        } else if char_idx < n {
            rope_char(&self.rope, char_idx)
        } else {
            rope_char(&self.rope, n - 1)
        }
    }

    /// Line `line_idx` with its line break, or `None` when there is no such line.
    pub fn line(&self, line_idx: usize) -> (r: Option<String>)
        ensures
            match r {
                Some(t) => line_idx < line_count(self.text()) && t@ == self.text().subrange(
                    line_start(self.text(), line_idx as int),
                    line_start(self.text(), line_idx + 1),
                ),
                None => line_idx >= line_count(self.text()),
            },
    {
        if line_idx < rope_len_lines(&self.rope) {
            Some(rope_line_string(&self.rope, line_idx))
        } else {
            None
        }
    }

    /// Line `line_idx` with its line break, clamped to the last line.
    pub fn line_clamped(&self, line_idx: usize) -> (t: String)
        ensures
            ({
                let l = if line_idx <= last_line(self.text()) {
                    line_idx as int
                } else {
                    last_line(self.text())
                };
                t@ == self.text().subrange(line_start(self.text(), l), line_start(self.text(), l + 1))
            }),
    {
        let last = rope_len_lines(&self.rope) - 1;
        let l = if line_idx <= last {
            line_idx
        } else {
            last
        };
        rope_line_string(&self.rope, l)
    }

    /// The byte at which the char that holds `byte` starts (`byte` clamped into the
    /// text).
    pub fn byte_to_char_boundary(&self, byte: usize) -> (r: usize)
        ensures
            r == byte_of(self.text(), char_of_byte(self.text(), byte as int)),
            r <= clamp_byte(self.text(), byte as int),
    {
        let c = self.byte_to_char_clamped(byte);
        proof {
            lemma_char_at_byte(self.text(), clamp_byte(self.text(), byte as int));
        }
        rope_char_to_byte(&self.rope, c)
    }

    /// The text between bytes `start` and `end` (each taken to the start of the char
    /// that holds it), or `None` unless `start <= end <= len`.
    pub fn slice_to_string(&self, start: usize, end: usize) -> (r: Option<String>)
        ensures
            r is Some <==> start <= end <= utf8_len(self.text()),
            r matches Some(t) ==> t@ == self.text().subrange(
                char_at_byte(self.text(), start as int),
                char_at_byte(self.text(), end as int),
            ),
    {
        let len = rope_len_bytes(&self.rope);
        if start <= len && end <= len && start <= end {
            let a = rope_byte_to_char(&self.rope, start);
            let b = rope_byte_to_char(&self.rope, end);
            proof {
                lemma_char_at_byte(self.text(), start as int);
                lemma_char_at_byte(self.text(), end as int);
                if b < a {
                    lemma_byte_of_mono(self.text(), b as int + 1, a as int);
                }
            }
            Some(rope_slice_string(&self.rope, a, b))
        } else {
            None
        }
    }

    /// `((line, column), byte)` of `byte`.
    pub fn get_edit_part(&self, byte: usize) -> (r: EditPart)
        ensures
            r == edit_part(self.text(), byte as int),
    {
        let line_idx = self.byte_to_line_clamped(byte);
        let start = self.line_to_byte_clamped(line_idx);
        proof {
            lemma_line_first_byte_le(self.text(), byte as int);
        }
        ((line_idx, byte - start), byte)
    }
}

/// The cursor after `n` bytes were inserted at byte `a`: a selection after `a` moves,
/// one that reaches `a` grows.
pub open spec fn cursor_after_insert(c: Cursor, a: int, n: int) -> Cursor {
    if c.sel_start > a {
        Cursor { sel_start: (c.sel_start + n) as usize, sel_end: (c.sel_end + n) as usize, ..c }
    } else if c.sel_end >= a {
        Cursor { sel_end: (c.sel_end + n) as usize, ..c }
    } else {
        c
    }
}

/// Moving the cursor for an insertion stays within `usize`.
pub open spec fn insert_fits(c: Cursor, a: int, n: int) -> bool {
    &&& c.sel_start > a ==> c.sel_start + n <= usize::MAX && c.sel_end + n <= usize::MAX
    &&& c.sel_start <= a && c.sel_end >= a ==> c.sel_end + n <= usize::MAX
}

/// A byte position after bytes `ds..de` were deleted.
pub open spec fn pos_after_delete(x: int, ds: int, de: int) -> int {
    if x >= de {
        x - (de - ds)
    } else if x >= ds {
        ds
    } else {
        x
    }
}

/// The cursor after bytes `ds..de` were deleted.
pub open spec fn cursor_after_delete(c: Cursor, ds: int, de: int) -> Cursor {
    Cursor {
        sel_start: pos_after_delete(c.sel_start as int, ds, de) as usize,
        sel_end: pos_after_delete(c.sel_end as int, ds, de) as usize,
        ..c
    }
}

/// Every cursor but the primary one, moved by `f`.
pub open spec fn shift_others(cs: Seq<Cursor>, primary: int, f: spec_fn(Cursor) -> Cursor) -> Seq<
    Cursor,
> {
    Seq::new(cs.len(), |i: int| if i == primary { cs[i] } else { f(cs[i]) })
}

/// Inserting `content` at byte `byte` of `m` stays within the integer types.
pub open spec fn insert_ok(m: BufferModel, byte: int, content: Seq<char>) -> bool {
    byte <= utf8_len(m.text) ==> {
        let a = byte_of(m.text, char_at_byte(m.text, byte));
        &&& m.version < u128::MAX
        &&& forall|i: int|
            0 <= i < m.cursors.len() && i != m.primary ==> insert_fits(
                #[trigger] m.cursors[i],
                a,
                utf8_len(content),
            )
    }
}

/// The buffer after `content` was inserted at byte `byte` (taken to the start of the
/// char that holds it).
pub open spec fn after_insert(m: BufferModel, byte: int, content: Seq<char>) -> BufferModel {
    let c = char_at_byte(m.text, byte);
    let a = byte_of(m.text, c);
    let n = utf8_len(content);
    let t = m.text.take(c) + content + m.text.skip(c);
    BufferModel {
        text: t,
        cursors: shift_others(m.cursors, m.primary, |x: Cursor| cursor_after_insert(x, a, n)),
        primary: m.primary,
        version: m.version + 1,
        byte_changes: m.byte_changes.push([edit_part(m.text, a), edit_part(m.text, a), edit_part(t, a + n)]),
    }
}

/// The chars a deletion of `len` chars at byte `byte` removes: from the char that
/// holds `byte`, at most to the end.
pub open spec fn delete_span(m: BufferModel, byte: int, len: int) -> (int, int) {
    let c = char_at_byte(m.text, byte);
    (c, if m.text.len() < c + len { m.text.len() as int } else { c + len })
}

/// Deleting at `byte` of `m` stays within the integer types.
pub open spec fn delete_ok(m: BufferModel, byte: int, len: int) -> bool {
    byte <= utf8_len(m.text) ==> {
        &&& char_at_byte(m.text, byte) + len <= usize::MAX
        &&& m.version < u128::MAX
    }
}

/// A deletion at `byte` of `m` removes something.
pub open spec fn delete_applies(m: BufferModel, byte: int, len: int) -> bool {
    byte <= utf8_len(m.text) && delete_span(m, byte, len).0 < delete_span(m, byte, len).1
}

/// The buffer after the deletion of `len` chars at byte `byte`.
pub open spec fn after_delete(m: BufferModel, byte: int, len: int) -> BufferModel {
    let (c, ce) = delete_span(m, byte, len);
    let ds = byte_of(m.text, c);
    let de = byte_of(m.text, ce);
    BufferModel {
        text: m.text.take(c) + m.text.skip(ce),
        cursors: shift_others(m.cursors, m.primary, |x: Cursor| cursor_after_delete(x, ds, de)),
        primary: m.primary,
        version: m.version + 1,
        byte_changes: m.byte_changes.push([edit_part(m.text, ds), edit_part(m.text, de), edit_part(m.text, ds)]),
    }
}

/// The file, the indentation and the renderer are the same.
pub open spec fn same_identity<K>(a: &TextBuffer<K>, b: &TextBuffer<K>) -> bool {
    &&& a.path == b.path
    &&& a.ext == b.ext
    &&& a.filetype == b.filetype
    &&& a.indent_style == b.indent_style
    &&& a.renderer == b.renderer
}

/// The fields an action leaves alone.
pub open spec fn same_setting<K>(a: &TextBuffer<K>, b: &TextBuffer<K>) -> bool {
    &&& a.dirty == b.dirty
    &&& a.save_point == b.save_point
    &&& a.path == b.path
    &&& a.ext == b.ext
    &&& a.filetype == b.filetype
    &&& a.indent_style == b.indent_style
    &&& a.current_change == b.current_change
    &&& a.undo_stack == b.undo_stack
    &&& a.redo_stack == b.redo_stack
    &&& a.renderer == b.renderer
}

impl<K> TextBuffer<K> {
    /// Records an edit for the renderer.
    pub fn register_input_edit(&mut self, start: EditPart, old_end: EditPart, new_end: EditPart)
        ensures
            final(self).byte_changes@ == old(self).byte_changes@.push([start, old_end, new_end]),
            final(self).text() == old(self).text(),
            final(self).cursors == old(self).cursors,
            final(self).primary_cursor == old(self).primary_cursor,
            final(self).version == old(self).version,
            same_setting(&*old(self), &*final(self)),
    {
        self.byte_changes.push([start, old_end, new_end]);
    }

    /// Inserts `text` before the char that holds `byte`.
    pub fn insert(&mut self, byte: usize, text: &str)
        requires
            byte <= utf8_len(old(self).text()),
        ensures
            final(self).text() == old(self).text().take(char_at_byte(old(self).text(), byte as int))
                + text@ + old(self).text().skip(char_at_byte(old(self).text(), byte as int)),
            final(self).cursors == old(self).cursors,
            final(self).primary_cursor == old(self).primary_cursor,
            final(self).version == old(self).version,
            final(self).byte_changes == old(self).byte_changes,
            same_setting(&*old(self), &*final(self)),
    {
        proof {
            lemma_char_at_byte(self.text(), byte as int);
        }
        let c = rope_byte_to_char(&self.rope, byte);
        rope_insert(&mut self.rope, c, text);
    }

    /// Removes the chars from the one that holds `range.start` up to the one that holds
    /// `range.end`.
    pub fn remove_range(&mut self, range: core::ops::Range<usize>)
        requires
            range.start <= range.end <= utf8_len(old(self).text()),
        ensures
            final(self).text() == old(self).text().take(
                char_at_byte(old(self).text(), range.start as int),
            ) + old(self).text().skip(char_at_byte(old(self).text(), range.end as int)),
            final(self).cursors == old(self).cursors,
            final(self).primary_cursor == old(self).primary_cursor,
            final(self).version == old(self).version,
            final(self).byte_changes == old(self).byte_changes,
            same_setting(&*old(self), &*final(self)),
    {
        proof {
            let s = self.text();
            lemma_char_at_byte(s, range.start as int);
            lemma_char_at_byte(s, range.end as int);
            let a = char_at_byte(s, range.start as int);
            let b = char_at_byte(s, range.end as int);
            if b < a {
                lemma_byte_of_mono(s, b + 1, a);
            }
        }
        let a = rope_byte_to_char(&self.rope, range.start);
        let b = rope_byte_to_char(&self.rope, range.end);
        rope_remove(&mut self.rope, a, b);
    }
}

fn shift_cursors_insert(cursors: &mut Vec<Cursor>, primary: usize, a: usize, n: usize)
    requires
        forall|i: int|
            0 <= i < old(cursors)@.len() && i != primary ==> insert_fits(
                #[trigger] old(cursors)@[i],
                a as int,
                n as int,
            ),
    ensures
        final(cursors)@ == shift_others(
            old(cursors)@,
            primary as int,
            |x: Cursor| cursor_after_insert(x, a as int, n as int),
        ),
{
    let ghost old_cs = cursors@;
    let mut i: usize = 0;
    while i < cursors.len()
        invariant
            i <= cursors@.len(),
            cursors@.len() == old_cs.len(),
            forall|j: int|
                0 <= j < old_cs.len() && j != primary ==> insert_fits(
                    #[trigger] old_cs[j],
                    a as int,
                    n as int,
                ),
            forall|j: int|
                0 <= j < i ==> #[trigger] cursors@[j] == (if j == primary {
                    old_cs[j]
                } else {
                    cursor_after_insert(old_cs[j], a as int, n as int)
                }),
            forall|j: int| i <= j < cursors@.len() ==> #[trigger] cursors@[j] == old_cs[j],
        decreases cursors@.len() - i,
    {
        if i != primary {
            let c = cursors[i];
            let moved = if c.sel_start > a {
                Cursor { sel_start: c.sel_start + n, sel_end: c.sel_end + n, ..c }
            } else if c.sel_end >= a {
                Cursor { sel_end: c.sel_end + n, ..c }
            } else {
                c
            };
            cursors.set(i, moved);
        }
        i += 1;
    }
    assert(cursors@ =~= shift_others(
        old_cs,
        primary as int,
        |x: Cursor| cursor_after_insert(x, a as int, n as int),
    ));
}

fn shift_cursors_delete(cursors: &mut Vec<Cursor>, primary: usize, ds: usize, de: usize)
    requires
        ds <= de,
    ensures
        final(cursors)@ == shift_others(
            old(cursors)@,
            primary as int,
            |x: Cursor| cursor_after_delete(x, ds as int, de as int),
        ),
{
    let ghost old_cs = cursors@;
    let removed = de - ds;
    let mut i: usize = 0;
    while i < cursors.len()
        invariant
            ds <= de,
            removed == de - ds,
            i <= cursors@.len(),
            cursors@.len() == old_cs.len(),
            forall|j: int|
                0 <= j < i ==> #[trigger] cursors@[j] == (if j == primary {
                    old_cs[j]
                } else {
                    cursor_after_delete(old_cs[j], ds as int, de as int)
                }),
            forall|j: int| i <= j < cursors@.len() ==> #[trigger] cursors@[j] == old_cs[j],
        decreases cursors@.len() - i,
    {
        if i != primary {
            let c = cursors[i];
            let new_start = if c.sel_start >= de {
                c.sel_start - removed
            } else if c.sel_start >= ds {
                ds
            } else {
                c.sel_start
            };
            let new_end = if c.sel_end >= de {
                c.sel_end - removed
            } else if c.sel_end >= ds {
                ds
            } else {
                c.sel_end
            };
            cursors.set(i, Cursor { sel_start: new_start, sel_end: new_end, ..c });
        }
        i += 1;
    }
    assert(cursors@ =~= shift_others(
        old_cs,
        primary as int,
        |x: Cursor| cursor_after_delete(x, ds as int, de as int),
    ));
}

impl Insert {
    /// Inserts the content before the char that holds `byte`, moving the other cursors
    /// along; fails, changing nothing, past the end of the text. The action that undoes
    /// it deletes as many chars as were inserted.
    pub fn apply<K>(&self, buf: &mut TextBuffer<K>) -> (r: ActionResult)
        requires
            old(buf).wf(),
            insert_ok(old(buf).model(), self.byte as int, self.content@),
        ensures
            same_setting(&*old(buf), &*final(buf)),
            if self.byte <= utf8_len(old(buf).text()) {
                &&& final(buf).model() == after_insert(old(buf).model(), self.byte as int, self.content@)
                &&& r.success
                &&& r.action == BufferAction::Delete(
                    Delete { byte: self.byte, len: self.content@.len() as usize },
                )
            } else {
                &&& final(buf).model() == old(buf).model()
                &&& !r.success
                &&& r.action is NoOp
            },
    {
        if self.byte > buf.len() {
            return ActionResult { success: false, action: BufferAction::NoOp(NoOp) };
        }
        let ghost s = buf.text();
        let actual_byte = buf.byte_to_char_boundary(self.byte);
        proof {
            lemma_char_at_byte(s, self.byte as int);
            lemma_char_at_byte_of(s, char_at_byte(s, self.byte as int));
        }
        let start = buf.get_edit_part(actual_byte);
        buf.insert(actual_byte, self.content.as_str());
        let content_len = self.content.as_str().as_bytes().len();
        proof {
            let m = old(buf).model();
            assert(content_len == utf8_len(self.content@));
            assert(buf.cursors@ == m.cursors);
            assert forall|i: int|
                0 <= i < buf.cursors@.len() && i != buf.primary_cursor implies insert_fits(
                #[trigger] buf.cursors@[i],
                actual_byte as int,
                content_len as int,
            ) by {
                assert(insert_fits(m.cursors[i], actual_byte as int, utf8_len(self.content@)));
            }
        }
        shift_cursors_insert(&mut buf.cursors, buf.primary_cursor, actual_byte, content_len);
        let new_len = buf.len();
        proof {
            let c = char_at_byte(s, self.byte as int);
            let t = buf.text();
            assert(t.take(c) =~= s.take(c));
            assert(t.take(c + self.content@.len()) =~= s.take(c) + self.content@);
            lemma_utf8_len_concat(s.take(c), self.content@);
            lemma_byte_of_mono(t, c + self.content@.len(), t.len() as int);
            lemma_byte_of_ends(t);
        }
        let end = buf.get_edit_part(actual_byte + content_len);
        buf.register_input_edit(start, start, end);
        buf.version = buf.version + 1;
        let n = crate::text::chars_of(self.content.as_str()).len();
        ActionResult {
            success: true,
            action: BufferAction::Delete(Delete { byte: self.byte, len: n }),
        }
    }
}

impl Delete {
    /// Deletes `len` chars from the one that holds `byte` (fewer at the end of the
    /// text), moving the other cursors back; fails, changing nothing, past the end of
    /// the text or when nothing would be deleted. The action that undoes it inserts the
    /// deleted text at `byte`.
    pub fn apply<K>(&self, buf: &mut TextBuffer<K>) -> (r: ActionResult)
        requires
            old(buf).wf(),
            delete_ok(old(buf).model(), self.byte as int, self.len as int),
        ensures
            same_setting(&*old(buf), &*final(buf)),
            if delete_applies(old(buf).model(), self.byte as int, self.len as int) {
                &&& final(buf).model() == after_delete(old(buf).model(), self.byte as int, self.len as int)
                &&& r.success
                &&& r.action matches BufferAction::Insert(ins)
                &&& ins.byte == self.byte
                &&& ins.content@ == old(buf).text().subrange(
                    delete_span(old(buf).model(), self.byte as int, self.len as int).0,
                    delete_span(old(buf).model(), self.byte as int, self.len as int).1,
                )
            } else {
                &&& final(buf).model() == old(buf).model()
                &&& !r.success
                &&& r.action is NoOp
            },
    {
        if self.byte > buf.len() {
            return ActionResult { success: false, action: BufferAction::NoOp(NoOp) };
        }
        let ghost s = buf.text();
        let char_idx = buf.byte_to_char_clamped(self.byte);
        let del_start_byte = buf.char_to_byte_clamped(char_idx);
        let nchars = buf.len_chars();
        let ce = if nchars < char_idx + self.len {
            nchars
        } else {
            char_idx + self.len
        };
        let del_end_byte = buf.char_to_byte_clamped(ce);
        proof {
            lemma_byte_of_mono(s, char_idx as int, ce as int);
            lemma_byte_of_mono(s, ce as int, s.len() as int);
            lemma_byte_of_ends(s);
            lemma_char_at_byte_of(s, char_idx as int);
            lemma_char_at_byte_of(s, ce as int);
        }
        let start = buf.get_edit_part(del_start_byte);
        let old_end = buf.get_edit_part(del_end_byte);
        if del_end_byte > buf.len() {
            return ActionResult { success: false, action: BufferAction::NoOp(NoOp) };
        }
        if del_start_byte == del_end_byte {
            return ActionResult { success: false, action: BufferAction::NoOp(NoOp) };
        }
        let removed = match buf.slice_to_string(del_start_byte, del_end_byte) {
            Some(t) => t,
            None => String::new(),
        };
        let bytes_removed = del_end_byte - del_start_byte;
        buf.remove_range(del_start_byte..del_end_byte);
        shift_cursors_delete(&mut buf.cursors, buf.primary_cursor, del_start_byte, del_end_byte);
        buf.register_input_edit(start, old_end, start);
        buf.version = buf.version + 1;
        ActionResult {
            success: true,
            action: BufferAction::Insert(Insert { byte: self.byte, content: removed }),
        }
    }
}

impl NoOp {
    /// Changes nothing, and succeeds.
    pub fn apply<K>(&self, buf: &mut TextBuffer<K>) -> (r: ActionResult)
        ensures
            *final(buf) == *old(buf),
            r.success,
            r.action is NoOp,
    {
        ActionResult { success: true, action: BufferAction::NoOp(NoOp) }
    }
}

/// Byte offsets depend only on the chars before them.
proof fn lemma_byte_of_prefix(s: Seq<char>, t: Seq<char>, i: int)
    requires
        0 <= i <= s.len(),
        i <= t.len(),
        s.take(i) == t.take(i),
    ensures
        byte_of(s, i) == byte_of(t, i),
{
}

/// Deleting as many chars as were just inserted at a char boundary gives back the text,
/// whatever was inserted (nothing is deleted when nothing was inserted).
pub proof fn lemma_insert_then_delete_text(m: BufferModel, byte: int, content: Seq<char>)
    requires
        0 <= byte <= utf8_len(m.text),
        byte == byte_of(m.text, char_at_byte(m.text, byte)),
    ensures
        ({
            let m1 = after_insert(m, byte, content);
            let c = char_at_byte(m.text, byte);
            &&& m1.text.take(c) + m1.text.skip(c + content.len()) == m.text
            &&& m1.text.subrange(c, c + content.len()) == content
            &&& content.len() == 0 ==> m1.text == m.text && !delete_applies(m1, byte, 0)
            &&& content.len() > 0 ==> delete_span(m1, byte, content.len() as int) == (c, c + content.len())
                && delete_applies(m1, byte, content.len() as int)
                && after_delete(m1, byte, content.len() as int).text == m.text
        }),
{
    let s = m.text;
    lemma_char_at_byte(s, byte);
    let c = char_at_byte(s, byte);
    let m1 = after_insert(m, byte, content);
    let t = m1.text;
    assert(t.take(c) =~= s.take(c));
    lemma_byte_of_prefix(s, t, c);
    lemma_char_at_byte_of(t, c);
    assert(t.take(c) + t.skip(c + content.len()) =~= s);
    assert(t.subrange(c, c + content.len()) =~= content);
    if content.len() == 0 {
        assert(t =~= s);
    } else {
        assert(t.take(c + content.len()) =~= s.take(c) + content);
        lemma_utf8_len_concat(s.take(c), content);
        lemma_char_bytes(content[0]);
        assert(content =~= seq![content[0]] + content.drop_first());
        lemma_utf8_len_concat(seq![content[0]], content.drop_first());
        lemma_byte_of_mono(t, c, t.len() as int);
        lemma_byte_of_ends(t);
        assert(delete_span(m1, byte, content.len() as int) == (c, c + content.len()));
    }
}

/// Undoing an insertion (a change group that holds only the action the insertion
/// handed back) gives back the text from before it, for any content, at any char
/// boundary or past the end of the text.
pub proof fn lemma_undo_insert_text(m: BufferModel, ins: Insert, inv: BufferAction)
    requires
        ins.byte <= utf8_len(m.text) ==> ins.byte == byte_of(m.text, char_at_byte(m.text, ins.byte as int)),
        ins.content@.len() <= usize::MAX,
        undoes(m, BufferAction::Insert(ins), inv),
    ensures
        run(after_action(m, BufferAction::Insert(ins)), seq![inv].reverse()).text == m.text,
{
    reveal_with_fuel(run, 2);
    let m1 = after_action(m, BufferAction::Insert(ins));
    assert(seq![inv].reverse() =~= seq![inv]);
    assert(seq![inv].drop_last() =~= Seq::<BufferAction>::empty());
    assert(run(m1, seq![inv]) == after_action(m1, inv));
    if ins.byte <= utf8_len(m.text) {
        lemma_insert_then_delete_text(m, ins.byte as int, ins.content@);
    }
}

/// Redoing an undone insertion gives back the text the insertion made: the undo group
/// holds the action the insertion handed back, and the redo group the action that
/// undoing handed back.
pub proof fn lemma_redo_after_undo_insert(m: BufferModel, ins: Insert, inv: BufferAction, inv2: BufferAction)
    requires
        ins.byte <= utf8_len(m.text) ==> ins.byte == byte_of(m.text, char_at_byte(m.text, ins.byte as int)),
        ins.content@.len() <= usize::MAX,
        undoes(m, BufferAction::Insert(ins), inv),
        undoes(after_action(m, BufferAction::Insert(ins)), inv, inv2),
    ensures
        run(run(after_action(m, BufferAction::Insert(ins)), seq![inv].reverse()), seq![inv2]).text
            == after_action(m, BufferAction::Insert(ins)).text,
{
    reveal_with_fuel(run, 2);
    let m1 = after_action(m, BufferAction::Insert(ins));
    assert(seq![inv].reverse() =~= seq![inv]);
    assert(seq![inv].drop_last() =~= Seq::<BufferAction>::empty());
    assert(seq![inv2].drop_last() =~= Seq::<BufferAction>::empty());
    let m2 = after_action(m1, inv);
    assert(run(m1, seq![inv]) == m2);
    assert(run(m2, seq![inv2]) == after_action(m2, inv2));
    if ins.byte <= utf8_len(m.text) {
        let s = m.text;
        let content = ins.content@;
        lemma_insert_then_delete_text(m, ins.byte as int, content);
        if content.len() > 0 {
            let c = char_at_byte(s, ins.byte as int);
            assert(m2.text == s);
            assert(inv2 matches BufferAction::Insert(i2) && i2.byte == ins.byte && i2.content@ == content);
            assert(after_action(m2, inv2) == after_insert(m2, ins.byte as int, content));
            assert(after_insert(m2, ins.byte as int, content).text =~= m1.text);
        }
    }
}

/// Deleting what was just inserted at a char boundary gives back the text and the
/// cursors from before the insertion.
pub proof fn lemma_insert_then_delete(m: BufferModel, byte: int, content: Seq<char>)
    requires
        0 <= byte <= utf8_len(m.text),
        byte == byte_of(m.text, char_at_byte(m.text, byte)),
        content.len() > 0,
        insert_ok(m, byte, content),
        forall|i: int| 0 <= i < m.cursors.len() ==> (#[trigger] m.cursors[i]).sel_start <= m.cursors[i].sel_end,
    ensures
        delete_applies(after_insert(m, byte, content), byte, content.len() as int),
        after_delete(after_insert(m, byte, content), byte, content.len() as int).text == m.text,
        after_delete(after_insert(m, byte, content), byte, content.len() as int).cursors
            == m.cursors,
{
    let s = m.text;
    lemma_char_at_byte(s, byte);
    let c = char_at_byte(s, byte);
    let a = byte_of(s, c);
    let n = utf8_len(content);
    let m1 = after_insert(m, byte, content);
    let t = m1.text;
    assert(t.take(c) =~= s.take(c));
    lemma_byte_of_prefix(s, t, c);
    lemma_char_at_byte_of(t, c);
    assert(t.take(c + content.len()) =~= s.take(c) + content);
    lemma_utf8_len_concat(s.take(c), content);
    assert(delete_span(m1, byte, content.len() as int) == (c, c + content.len()));
    lemma_char_bytes(content[0]);
    assert(content =~= seq![content[0]] + content.drop_first());
    lemma_utf8_len_concat(seq![content[0]], content.drop_first());
    lemma_byte_of_mono(t, c, t.len() as int);
    lemma_byte_of_ends(t);
    assert(t.take(c) + t.skip(c + content.len()) =~= s);
    let m2 = after_delete(m1, byte, content.len() as int);
    assert forall|i: int| 0 <= i < m.cursors.len() implies m2.cursors[i] == m.cursors[i] by {
        if i != m.primary {
            let x = m.cursors[i];
            let y = cursor_after_insert(x, a, n);
            assert(m1.cursors[i] == y);
            assert(m2.cursors[i] == cursor_after_delete(y, a, a + n));
            assert(x.sel_start <= x.sel_end);
            assert(insert_fits(x, a, n));
            assert(n > 0);
            assert(cursor_after_delete(y, a, a + n) == x);
        } else {
            assert(m1.cursors[i] == m.cursors[i]);
        }
    }
    assert(m2.cursors =~= m.cursors);
}

/// Inserting back what was just deleted at a char boundary gives back the text.
pub proof fn lemma_delete_then_insert(m: BufferModel, byte: int, len: int)
    requires
        0 <= byte,
        0 <= len,
        delete_applies(m, byte, len),
        byte == byte_of(m.text, char_at_byte(m.text, byte)),
    ensures
        after_insert(
            after_delete(m, byte, len),
            byte,
            m.text.subrange(delete_span(m, byte, len).0, delete_span(m, byte, len).1),
        ).text == m.text,
{
    let s = m.text;
    lemma_char_at_byte(s, byte);
    let (c, ce) = delete_span(m, byte, len);
    let m1 = after_delete(m, byte, len);
    let t = m1.text;
    assert(t.take(c) =~= s.take(c));
    lemma_byte_of_prefix(s, t, c);
    lemma_char_at_byte_of(t, c);
    assert(t.take(c) + s.subrange(c, ce) + t.skip(c) =~= s);
}

/// Applying `a` to `m` stays within the integer types.
pub open spec fn action_ok(m: BufferModel, a: BufferAction) -> bool {
    match a {
        BufferAction::Insert(i) => insert_ok(m, i.byte as int, i.content@),
        BufferAction::Delete(d) => delete_ok(m, d.byte as int, d.len as int),
        BufferAction::NoOp(_) => true,
    }
}

/// Whether `a` succeeds on `m`.
pub open spec fn action_succeeds(m: BufferModel, a: BufferAction) -> bool {
    match a {
        BufferAction::Insert(i) => i.byte <= utf8_len(m.text),
        BufferAction::Delete(d) => delete_applies(m, d.byte as int, d.len as int),
        BufferAction::NoOp(_) => true,
    }
}

/// The buffer after `a` was applied to `m`.
pub open spec fn after_action(m: BufferModel, a: BufferAction) -> BufferModel {
    match a {
        BufferAction::Insert(i) => if i.byte <= utf8_len(m.text) {
            after_insert(m, i.byte as int, i.content@)
        } else {
            m
        },
        BufferAction::Delete(d) => if delete_applies(m, d.byte as int, d.len as int) {
            after_delete(m, d.byte as int, d.len as int)
        } else {
            m
        },
        BufferAction::NoOp(_) => m,
    }
}

/// `inv` is the action that applying `a` to `m` hands back to undo it.
pub open spec fn undoes(m: BufferModel, a: BufferAction, inv: BufferAction) -> bool {
    match a {
        BufferAction::Insert(i) => if i.byte <= utf8_len(m.text) {
            inv == BufferAction::Delete(Delete { byte: i.byte, len: i.content@.len() as usize })
        } else {
            inv is NoOp
        },
        BufferAction::Delete(d) => if delete_applies(m, d.byte as int, d.len as int) {
            &&& inv matches BufferAction::Insert(ins)
            &&& ins.byte == d.byte
            &&& ins.content@ == m.text.subrange(
                delete_span(m, d.byte as int, d.len as int).0,
                delete_span(m, d.byte as int, d.len as int).1,
            )
        } else {
            inv is NoOp
        },
        BufferAction::NoOp(_) => inv is NoOp,
    }
}

/// The buffer after the actions were applied in order.
#[verifier::opaque]
pub open spec fn run(m: BufferModel, acts: Seq<BufferAction>) -> BufferModel
    decreases acts.len(),
{
    if acts.len() == 0 {
        m
    } else {
        after_action(run(m, acts.drop_last()), acts.last())
    }
}

/// Applying the actions in order stays within the integer types.
#[verifier::opaque]
pub open spec fn run_ok(m: BufferModel, acts: Seq<BufferAction>) -> bool
    decreases acts.len(),
{
    acts.len() == 0 || (run_ok(m, acts.drop_last()) && action_ok(run(m, acts.drop_last()), acts.last()))
}

proof fn lemma_run_ok_prefix(m: BufferModel, acts: Seq<BufferAction>, k: int)
    requires
        run_ok(m, acts),
        0 <= k <= acts.len(),
    ensures
        run_ok(m, acts.take(k)),
    decreases acts.len(),
{
    reveal(run_ok);
    if k < acts.len() {
        assert(acts.drop_last().take(k) =~= acts.take(k));
        lemma_run_ok_prefix(m, acts.drop_last(), k);
    } else {
        assert(acts.take(k) =~= acts);
    }
}

proof fn lemma_run_step(m: BufferModel, acts: Seq<BufferAction>, k: int)
    requires
        0 <= k < acts.len(),
    ensures
        run(m, acts.take(k + 1)) == after_action(run(m, acts.take(k)), acts[k]),
        run_ok(m, acts.take(k + 1)) ==> action_ok(run(m, acts.take(k)), acts[k]),
{
    reveal(run);
    reveal(run_ok);
    assert(acts.take(k + 1).drop_last() =~= acts.take(k));
}

/// The undo stack once the group being recorded is committed.
pub open spec fn committed<K>(b: &TextBuffer<K>) -> Seq<ChangeGroup> {
    match b.current_change {
        Some(g) => if g.1@.len() > 0 {
            b.undo_stack@.push(g)
        } else {
            b.undo_stack@
        },
        None => b.undo_stack@,
    }
}

impl BufferAction {
    /// Applies the action; the result says whether it succeeded and holds the action
    /// that undoes it.
    pub fn apply<K>(&self, buf: &mut TextBuffer<K>) -> (r: ActionResult)
        requires
            old(buf).wf(),
            action_ok(old(buf).model(), *self),
        ensures
            same_setting(&*old(buf), &*final(buf)),
            final(buf).model() == after_action(old(buf).model(), *self),
            r.success == action_succeeds(old(buf).model(), *self),
            undoes(old(buf).model(), *self, r.action),
    {
        match self {
            BufferAction::Insert(i) => i.apply(buf),
            BufferAction::Delete(d) => d.apply(buf),
            BufferAction::NoOp(n) => n.apply(buf),
        }
    }
}

fn clone_cursors(v: &Vec<Cursor>) -> (r: Vec<Cursor>)
    ensures
        r@ == v@,
{
    let mut r: Vec<Cursor> = Vec::new();
    let mut i: usize = 0;
    while i < v.len()
        invariant
            i <= v@.len(),
            r@ == v@.take(i as int),
        decreases v@.len() - i,
    {
        r.push(v[i]);
        i += 1;
        assert(r@ =~= v@.take(i as int));
    }
    assert(v@.take(v@.len() as int) =~= v@);
    r
}

fn reversed(mut v: Vec<BufferAction>) -> (r: Vec<BufferAction>)
    ensures
        r@ == v@.reverse(),
{
    let ghost orig = v@;
    let mut r: Vec<BufferAction> = Vec::new();
    while v.len() > 0
        invariant
            v@ == orig.take(orig.len() - r@.len()),
            r@.len() <= orig.len(),
            forall|j: int| 0 <= j < r@.len() ==> #[trigger] r@[j] == orig[orig.len() - 1 - j],
        decreases v@.len(),
    {
        let a = v.pop().unwrap();
        r.push(a);
        assert(v@ =~= orig.take(orig.len() - r@.len()));
    }
    assert(r@ =~= orig.reverse());
    r
}

impl<K> TextBuffer<K> {
    /// Applies `actions` from the last to the first; returns the actions that undo
    /// them, in the order they were applied.
    fn apply_all_reversed(&mut self, mut actions: Vec<BufferAction>) -> (inv: Vec<BufferAction>)
        requires
            old(self).wf(),
            run_ok(old(self).model(), actions@.reverse()),
        ensures
            final(self).wf(),
            final(self).primary_cursor == old(self).primary_cursor,
            same_setting(&*old(self), &*final(self)),
            final(self).model() == run(old(self).model(), actions@.reverse()),
            inv@.len() == actions@.len(),
            forall|k: int|
                0 <= k < actions@.len() ==> undoes(
                    run(old(self).model(), actions@.reverse().take(k)),
                    #[trigger] actions@.reverse()[k],
                    inv@[k],
                ),
    {
        let ghost m0 = self.model();
        let ghost acts = actions@.reverse();
        let ghost n = actions@.len();
        let mut inv: Vec<BufferAction> = Vec::new();
        proof {
            assert(acts.take(0) =~= Seq::<BufferAction>::empty());
            assert(run(m0, acts.take(0)) == m0) by {
                reveal(run);
            }
        }
        while actions.len() > 0
            invariant
                n == acts.len(),
                run_ok(m0, acts),
                actions@.len() <= n,
                forall|j: int| 0 <= j < actions@.len() ==> #[trigger] actions@[j] == acts[n - 1 - j],
                inv@.len() == n - actions@.len(),
                self.wf(),
                self.primary_cursor == old(self).primary_cursor,
                same_setting(&*old(self), &*self),
                self.model() == run(m0, acts.take(n - actions@.len())),
                forall|k: int|
                    0 <= k < inv@.len() ==> undoes(run(m0, acts.take(k)), #[trigger] acts[k], inv@[k]),
            decreases actions@.len(),
        {
            let ghost k = n - actions@.len();
            let a = actions.pop().unwrap();
            proof {
                assert(a == acts[k]);
                lemma_run_ok_prefix(m0, acts, k + 1);
                lemma_run_step(m0, acts, k);
            }
            let r = a.apply(self);
            inv.push(r.action);
        }
        proof {
            assert(acts.take(n as int) =~= acts);
        }
        inv
    }

    /// Commits the group being recorded to the undo stack, if it holds any action.
    pub fn commit_change_group(&mut self)
        ensures
            same_identity(&*old(self), &*final(self)),
            final(self).undo_stack@ == committed(&*old(self)),
            final(self).current_change is None,
            final(self).model() == old(self).model(),
            final(self).dirty == old(self).dirty,
            final(self).save_point == old(self).save_point,
            final(self).redo_stack == old(self).redo_stack,
    {
        match self.current_change.take() {
            Some(group) => {
                if group.1.len() > 0 {
                    self.undo_stack.push(group);
                }
            },
            None => {},
        }
    }

    /// Commits the group being recorded and starts a new one from the current cursors.
    pub fn start_change_group(&mut self)
        ensures
            same_identity(&*old(self), &*final(self)),
            final(self).undo_stack@ == committed(&*old(self)),
            final(self).current_change matches Some(g) && g.0@ == old(self).cursors@ && g.1@.len()
                == 0,
            final(self).model() == old(self).model(),
            final(self).dirty == old(self).dirty,
            final(self).save_point == old(self).save_point,
            final(self).redo_stack == old(self).redo_stack,
    {
        self.commit_change_group();
        self.current_change = Some(ChangeGroup(clone_cursors(&self.cursors), Vec::new()));
    }

    /// Applies an action, recording what undoes it in the current change group (which
    /// it starts when none is being recorded); on success the buffer is dirty and the
    /// redo stack is cleared. Returns whether the action succeeded.
    pub fn action(&mut self, action: BufferAction) -> (ok: bool)
        requires
            old(self).wf(),
            action_ok(old(self).model(), action),
        ensures
            same_identity(&*old(self), &*final(self)),
            final(self).model() == after_action(old(self).model(), action),
            ok == action_succeeds(old(self).model(), action),
            final(self).undo_stack@ == old(self).undo_stack@,
            final(self).save_point == old(self).save_point,
            final(self).current_change matches Some(g) && {
                let before = match old(self).current_change {
                    Some(h) => h.1@,
                    None => Seq::<BufferAction>::empty(),
                };
                &&& g.0@ == match old(self).current_change {
                    Some(h) => h.0@,
                    None => old(self).cursors@,
                }
                &&& if ok {
                    &&& g.1@.len() == before.len() + 1
                    &&& g.1@.drop_last() == before
                    &&& undoes(old(self).model(), action, g.1@.last())
                } else {
                    g.1@ == before
                }
            },
            if ok {
                final(self).dirty && final(self).redo_stack@.len() == 0
            } else {
                final(self).dirty == old(self).dirty && final(self).redo_stack == old(self).redo_stack
            },
    {
        if self.current_change.is_none() {
            self.start_change_group();
        }
        let res = action.apply(self);
        if res.success {
            self.dirty = true;
            match self.current_change.take() {
                Some(group) => {
                    let ChangeGroup(cs, mut acts) = group;
                    acts.push(res.action);
                    self.current_change = Some(ChangeGroup(cs, acts));
                },
                None => {},
            }
            self.redo_stack.clear();
        }
        res.success
    }

    /// Undoes the last change group: commits the group being recorded, then applies the
    /// last group's actions in reverse, restores the cursors from before it, and pushes
    /// what redoes it. The buffer is clean exactly when the undo stack is back at the
    /// save point.
    #[verifier::rlimit(40)]
    pub fn undo(&mut self)
        requires
            old(self).wf(),
            committed(&*old(self)).len() > 0 ==> run_ok(
                old(self).model(),
                committed(&*old(self)).last().1@.reverse(),
            ),
        ensures
            same_identity(&*old(self), &*final(self)),
            final(self).current_change is None,
            final(self).save_point == old(self).save_point,
            final(self).primary_cursor == old(self).primary_cursor,
            if committed(&*old(self)).len() == 0 {
                &&& final(self).model() == old(self).model()
                &&& final(self).undo_stack@.len() == 0
                &&& final(self).dirty == old(self).dirty
                &&& final(self).redo_stack == old(self).redo_stack
            } else {
                let u = committed(&*old(self));
                let acts = u.last().1@.reverse();
                let after = run(old(self).model(), acts);
                &&& final(self).text() == after.text
                &&& final(self).version == after.version
                &&& final(self).byte_changes@ == after.byte_changes
                &&& final(self).cursors@ == u.last().0@
                &&& final(self).undo_stack@ == u.drop_last()
                &&& final(self).dirty == (u.len() - 1 != old(self).save_point)
                &&& final(self).redo_stack@.drop_last() == old(self).redo_stack@
                &&& final(self).redo_stack@.last().0@ == old(self).cursors@
                &&& final(self).redo_stack@.last().1@.len() == acts.len()
                &&& forall|k: int|
                    0 <= k < acts.len() ==> undoes(
                        run(old(self).model(), acts.take(k)),
                        #[trigger] acts[k],
                        final(self).redo_stack@.last().1@[acts.len() - 1 - k],
                    )
            },
    {
        self.commit_change_group();
        let ghost m0 = self.model();
        match self.undo_stack.pop() {
            Some(group) => {
                let ChangeGroup(group_cursors, actions) = group;
                let redo_cursor = clone_cursors(&self.cursors);
                let redo_group = self.apply_all_reversed(actions);
                self.cursors = group_cursors;
                self.dirty = self.undo_stack.len() != self.save_point;
                let redo_group = reversed(redo_group);
                self.redo_stack.push(ChangeGroup(redo_cursor, redo_group));
            },
            None => {},
        }
    }

    /// Redoes the last undone change group: commits the group being recorded, applies
    /// the group's actions in order, restores the cursors it holds, and pushes what
    /// undoes it. The buffer is clean exactly when the undo stack is back at the save
    /// point.
    pub fn redo(&mut self)
        requires
            old(self).wf(),
            old(self).redo_stack@.len() > 0 ==> run_ok(old(self).model(), old(self).redo_stack@.last().1@),
        ensures
            same_identity(&*old(self), &*final(self)),
            final(self).current_change is None,
            final(self).save_point == old(self).save_point,
            final(self).primary_cursor == old(self).primary_cursor,
            if old(self).redo_stack@.len() == 0 {
                &&& final(self).model() == old(self).model()
                &&& final(self).undo_stack@ == committed(&*old(self))
                &&& final(self).dirty == old(self).dirty
                &&& final(self).redo_stack@ == old(self).redo_stack@
            } else {
                let g = old(self).redo_stack@.last();
                let after = run(old(self).model(), g.1@);
                let u = committed(&*old(self));
                &&& final(self).text() == after.text
                &&& final(self).version == after.version
                &&& final(self).byte_changes@ == after.byte_changes
                &&& final(self).cursors@ == g.0@
                &&& final(self).redo_stack@ == old(self).redo_stack@.drop_last()
                &&& final(self).undo_stack@.drop_last() == u
                &&& final(self).undo_stack@.last().0@ == old(self).cursors@
                &&& final(self).undo_stack@.last().1@.len() == g.1@.len()
                &&& forall|k: int|
                    0 <= k < g.1@.len() ==> undoes(
                        run(old(self).model(), g.1@.take(k)),
                        #[trigger] g.1@[k],
                        final(self).undo_stack@.last().1@[k],
                    )
                &&& final(self).dirty == (u.len() + 1 != old(self).save_point)
            },
    {
        self.commit_change_group();
        match self.redo_stack.pop() {
            Some(group) => {
                let ChangeGroup(group_cursors, actions) = group;
                let ghost forward = actions@;
                let undo_cursor = clone_cursors(&self.cursors);
                let backwards = reversed(actions);
                proof {
                    assert(backwards@.reverse() =~= forward);
                }
                let undo_group = self.apply_all_reversed(backwards);
                self.cursors = group_cursors;
                if self.undo_stack.len() >= self.save_point {
                    self.dirty = true;
                } else {
                    self.undo_stack.push(ChangeGroup(undo_cursor, undo_group));
                    self.dirty = self.undo_stack.len() != self.save_point;
                    return;
                }
                self.undo_stack.push(ChangeGroup(undo_cursor, undo_group));
            },
            None => {},
        }
    }

    /// The primary cursor.
    pub fn primary_cursor(&self) -> (c: &Cursor)
        requires
            self.wf(),
        ensures
            *c == self.cursors@[self.primary_cursor as int],
    {
        &self.cursors[self.primary_cursor]
    }

    /// The primary cursor, to change it.
    pub fn primary_cursor_mut(&mut self) -> (c: &mut Cursor)
        requires
            old(self).wf(),
        ensures
            *c == old(self).cursors@[old(self).primary_cursor as int],
            final(self).cursors@ == old(self).cursors@.update(
                old(self).primary_cursor as int,
                *final(c),
            ),
            final(self).primary_cursor == old(self).primary_cursor,
            final(self).text() == old(self).text(),
            final(self).version == old(self).version,
            final(self).byte_changes == old(self).byte_changes,
            same_setting(&*old(self), &*final(self)),
    {
        &mut self.cursors[self.primary_cursor]
    }

    /// Adds a copy of the primary cursor, which becomes the primary cursor.
    pub fn create_cursor(&mut self)
        requires
            old(self).wf(),
        ensures
            final(self).wf(),
            final(self).cursors@ == old(self).cursors@.push(old(self).cursors@[old(self).primary_cursor as int]),
            final(self).primary_cursor == old(self).cursors@.len(),
            final(self).text() == old(self).text(),
            final(self).version == old(self).version,
            final(self).byte_changes == old(self).byte_changes,
            same_setting(&*old(self), &*final(self)),
    {
        let c = self.cursors[self.primary_cursor];
        self.cursors.push(c);
        self.primary_cursor = self.cursors.len() - 1;
    }

    /// Removes every cursor but the primary one.
    pub fn drop_other_cursors(&mut self)
        requires
            old(self).wf(),
        ensures
            final(self).wf(),
            final(self).cursors@ == seq![old(self).cursors@[old(self).primary_cursor as int]],
            final(self).primary_cursor == 0,
            final(self).text() == old(self).text(),
            final(self).version == old(self).version,
            final(self).byte_changes == old(self).byte_changes,
            same_setting(&*old(self), &*final(self)),
    {
        let cursor = self.cursors.remove(self.primary_cursor);
        self.primary_cursor = 0;
        self.cursors.clear();
        self.cursors.push(cursor);
    }

    /// Removes the primary cursor, unless it is the only one; the cursor before it (or
    /// the first) becomes the primary cursor.
    pub fn drop_primary_cursor(&mut self)
        requires
            old(self).wf(),
        ensures
            final(self).wf(),
            if old(self).cursors@.len() <= 1 {
                &&& final(self).cursors == old(self).cursors
                &&& final(self).primary_cursor == old(self).primary_cursor
            } else {
                &&& final(self).cursors@ == old(self).cursors@.remove(old(self).primary_cursor as int)
                &&& final(self).primary_cursor == if old(self).primary_cursor == 0 {
                    0
                } else {
                    old(self).primary_cursor - 1
                }
            },
            final(self).text() == old(self).text(),
            final(self).version == old(self).version,
            final(self).byte_changes == old(self).byte_changes,
            same_setting(&*old(self), &*final(self)),
    {
        if self.cursors.len() <= 1 {
            return;
        }
        self.cursors.remove(self.primary_cursor);
        let p = self.primary_cursor.saturating_sub(1);
        let last = self.cursors.len() - 1;
        self.primary_cursor = if p > last {
            last
        } else {
            p
        };
    }

    /// Moves the primary cursor `offset` places along the cursors, stopping at the first
    /// and at the last.
    pub fn change_cursor(&mut self, offset: isize)
        requires
            old(self).wf(),
        ensures
            final(self).wf(),
            final(self).primary_cursor == clamp_int(
                old(self).primary_cursor + offset,
                0,
                old(self).cursors@.len() - 1,
            ),
            final(self).cursors == old(self).cursors,
            final(self).text() == old(self).text(),
            final(self).version == old(self).version,
            final(self).byte_changes == old(self).byte_changes,
            same_setting(&*old(self), &*final(self)),
    {
        let target: i128 = self.primary_cursor as i128 + offset as i128;
        let last = self.cursors.len() - 1;
        self.primary_cursor = if target < 0 {
            0
        } else if target > last as i128 {
            last
        } else {
            target as usize
        };
    }

    /// Moves the primary caret `bytes` bytes, clamped to the text; with
    /// `extend_selection` the selection runs from its anchor to the new caret, without
    /// it collapses onto it. Returns whether the caret moved.
    pub fn move_bytes(&mut self, bytes: isize, extend_selection: bool) -> (moved: bool)
        requires
            old(self).wf(),
            utf8_len(old(self).text()) <= isize::MAX,
            old(self).cursors@[old(self).primary_cursor as int].caret() <= isize::MAX,
            old(self).cursors@[old(self).primary_cursor as int].caret() + bytes <= isize::MAX,
        ensures
            bytes == 0 ==> *final(self) == *old(self) && !moved,
            bytes != 0 ==> {
                let c = old(self).cursors@[old(self).primary_cursor as int];
                let new_caret = clamp_int(c.caret() + bytes, 0, utf8_len(old(self).text())) as usize;
                &&& moved_primary(&*old(self), &*final(self), new_caret, extend_selection)
                &&& moved == (new_caret != c.caret())
            },
    {
        if bytes == 0 {
            return false;
        }
        let current = self.cursors[self.primary_cursor].get_cursor_byte();
        let len = self.len();
        let target: isize = current as isize + bytes;
        let new_caret: usize = if target < 0 {
            0
        } else if target as usize > len {
            len
        } else {
            target as usize
        };
        self.primary_cursor_mut().move_caret_to(new_caret, extend_selection);
        new_caret != current
    }

    /// Moves the primary caret `chars` chars, clamped to the text (from the char that
    /// holds it); with `extend_selection` the selection runs from its anchor to the new
    /// caret, without it collapses onto it. Returns whether the caret moved.
    pub fn move_chars(&mut self, chars: isize, extend_selection: bool) -> (moved: bool)
        requires
            old(self).wf(),
            old(self).text().len() <= isize::MAX,
            char_of_byte(old(self).text(), old(self).cursors@[old(self).primary_cursor as int].caret() as int) + chars <= isize::MAX,
        ensures
            chars == 0 ==> *final(self) == *old(self) && !moved,
            chars != 0 ==> {
                let c = old(self).cursors@[old(self).primary_cursor as int];
                let s = old(self).text();
                let new_char = clamp_int(char_of_byte(s, c.caret() as int) + chars, 0, s.len() as int);
                let new_caret = byte_of(s, new_char) as usize;
                &&& moved_primary(&*old(self), &*final(self), new_caret, extend_selection)
                &&& moved == (new_caret != c.caret())
            },
    {
        if chars == 0 {
            return false;
        }
        let current = self.cursors[self.primary_cursor].get_cursor_byte();
        let current_char = self.byte_to_char_clamped(current);
        let nchars = self.len_chars();
        let target: isize = current_char as isize + chars;
        let new_char: usize = if target < 0 {
            0
        } else if target as usize > nchars {
            nchars
        } else {
            target as usize
        };
        let new_caret = self.char_to_byte_clamped(new_char);
        self.primary_cursor_mut().move_caret_to(new_caret, extend_selection);
        new_caret != current
    }

    /// Merges cursors whose selections overlap: for each cursor in turn, every later
    /// cursor that overlaps it (as it grows) is folded into it and removed; the primary
    /// index follows its cursor.
    pub fn merge_overlapping_cursors(&mut self)
        requires
            old(self).wf(),
        ensures
            final(self).wf(),
            (final(self).cursors@, final(self).primary_cursor as int) == merge_from(
                old(self).cursors@,
                old(self).primary_cursor as int,
                0,
            ),
            final(self).text() == old(self).text(),
            final(self).version == old(self).version,
            final(self).byte_changes == old(self).byte_changes,
            same_setting(&*old(self), &*final(self)),
    {
        let ghost c0 = self.cursors@;
        let ghost p0 = self.primary_cursor as int;
        if self.cursors.len() <= 1 {
            proof {
                assert(merge_step(c0, p0, 0, 1) == (c0, p0));
                assert(merge_from(c0, p0, 1) == (c0, p0));
            }
            return;
        }
        let mut i: usize = 0;
        while i < self.cursors.len()
            invariant
                self.wf(),
                merge_from(self.cursors@, self.primary_cursor as int, i as int) == merge_from(c0, p0, 0),
                self.text() == old(self).text(),
                self.version == old(self).version,
                self.byte_changes == old(self).byte_changes,
                same_setting(&*old(self), &*self),
            decreases self.cursors@.len() - i,
        {
            let ghost cs_i = self.cursors@;
            let ghost p_i = self.primary_cursor as int;
            let mut j: usize = i + 1;
            while j < self.cursors.len()
                invariant
                    self.wf(),
                    i < j,
                    i < self.cursors@.len(),
                    self.cursors@.len() <= cs_i.len(),
                    merge_step(self.cursors@, self.primary_cursor as int, i as int, j as int)
                        == merge_step(cs_i, p_i, i as int, i + 1),
                    self.text() == old(self).text(),
                    self.version == old(self).version,
                    self.byte_changes == old(self).byte_changes,
                    same_setting(&*old(self), &*self),
                decreases self.cursors@.len() - j,
            {
                let c1 = self.cursors[i];
                let c2 = self.cursors[j];
                if c1.sel_start <= c2.sel_end && c2.sel_start <= c1.sel_end {
                    let start = if c1.sel_start <= c2.sel_start {
                        c1.sel_start
                    } else {
                        c2.sel_start
                    };
                    let end = if c1.sel_end >= c2.sel_end {
                        c1.sel_end
                    } else {
                        c2.sel_end
                    };
                    self.cursors.set(i, Cursor { sel_start: start, sel_end: end, ..c1 });
                    self.cursors.remove(j);
                    if self.primary_cursor == j {
                        self.primary_cursor = i;
                    } else if self.primary_cursor > j {
                        self.primary_cursor = self.primary_cursor - 1;
                    }
                } else {
                    j += 1;
                }
            }
            proof {
                assert(merge_step(self.cursors@, self.primary_cursor as int, i as int, j as int) == (self.cursors@, self.primary_cursor as int));
            }
            i += 1;
        }
    }

    /// Adds an extmark, stamped with the buffer's version; returns its id.
    pub fn add_extmark(&mut self, builder: ExtmarkBuilder<K>) -> (id: u64)
        requires
            old(self).renderer.wf(),
            old(self).renderer.next_id() < u64::MAX,
        ensures
            final(self).renderer.wf(),
            id == old(self).renderer.next_id(),
            final(self).renderer.next_id() == id + 1,
            final(self).renderer.marks().drop_last() == old(self).renderer.marks(),
            final(self).renderer.marks().len() == old(self).renderer.marks().len() + 1,
            built_from(final(self).renderer.marks().last(), builder, id, old(self).version),
            final(self).renderer.priorities() == old(self).renderer.priorities(),
            final(self).model() == old(self).model(),
    {
        let v = self.version;
        self.renderer.add_extmark(v, builder)
    }

    /// Hands the pending edits to the renderer, which moves the extmarks along.
    pub fn post_update(&mut self)
        requires
            old(self).renderer.wf(),
            edits_ok(old(self).renderer.marks(), old(self).version, old(self).byte_changes@),
        ensures
            final(self).renderer.wf(),
            final(self).renderer.marks() == marks_after_edits(
                old(self).renderer.marks(),
                old(self).version,
                old(self).byte_changes@,
            ),
            final(self).renderer.next_id() == old(self).renderer.next_id(),
            final(self).renderer.priorities() == old(self).renderer.priorities(),
            final(self).model() == old(self).model(),
    {
        let v = self.version;
        self.renderer.process_byte_changes(v, self.byte_changes.as_slice());
    }

    /// The end-of-frame cleanup: merges overlapping cursors and drops the pending edits.
    pub fn update_cleanup(&mut self)
        requires
            old(self).wf(),
        ensures
            final(self).wf(),
            (final(self).cursors@, final(self).primary_cursor as int) == merge_from(
                old(self).cursors@,
                old(self).primary_cursor as int,
                0,
            ),
            final(self).byte_changes@.len() == 0,
            final(self).text() == old(self).text(),
            final(self).version == old(self).version,
            same_setting(&*old(self), &*final(self)),
    {
        self.merge_overlapping_cursors();
        self.byte_changes.clear();
    }

    /// Scrolls the view by `lines` rows, clamped to the lines of the text; the cursor is
    /// then dragged into view rather than followed.
    pub fn scroll_lines(&mut self, lines: isize)
        requires
            line_count(old(self).text()) <= isize::MAX,
            old(self).renderer.byte_scroll <= isize::MAX,
            old(self).renderer.byte_scroll + lines <= isize::MAX,
        ensures
            final(self).renderer.byte_scroll == clamp_int(
                old(self).renderer.byte_scroll + lines,
                0,
                line_count(old(self).text()) - 1,
            ),
            final(self).renderer.visual_scroll == 0,
            final(self).renderer.cursor_drag,
            final(self).renderer.h_scroll == old(self).renderer.h_scroll,
            final(self).renderer.marks() == old(self).renderer.marks(),
            final(self).renderer.next_id() == old(self).renderer.next_id(),
            final(self).renderer.namespace_priorities == old(self).renderer.namespace_priorities,
            final(self).model() == old(self).model(),
    {
        let max_scroll = self.len_lines() - 1;
        let target: isize = self.renderer.byte_scroll as isize + lines;
        self.renderer.byte_scroll = if target < 0 {
            0
        } else if target as usize > max_scroll {
            max_scroll
        } else {
            target as usize
        };
        self.renderer.visual_scroll = 0;
        self.renderer.cursor_drag = true;
    }

    /// The version, which every edit increments.
    pub fn version(&self) -> (v: &u128)
        ensures
            *v == self.version,
    {
        &self.version
    }
}

/// Undoing an insertion at a char boundary (a change group that holds only the action
/// the insertion handed back) gives back the text and the cursors from before it.
pub proof fn lemma_undo_insert(m: BufferModel, ins: Insert, inv: BufferAction)
    requires
        ins.byte <= utf8_len(m.text),
        ins.byte == byte_of(m.text, char_at_byte(m.text, ins.byte as int)),
        0 < ins.content@.len() <= usize::MAX,
        action_ok(m, BufferAction::Insert(ins)),
        forall|i: int| 0 <= i < m.cursors.len() ==> (#[trigger] m.cursors[i]).sel_start <= m.cursors[i].sel_end,
        undoes(m, BufferAction::Insert(ins), inv),
    ensures
        run(after_action(m, BufferAction::Insert(ins)), seq![inv].reverse()).text == m.text,
        run(after_action(m, BufferAction::Insert(ins)), seq![inv].reverse()).cursors == m.cursors,
{
    reveal_with_fuel(run, 2);
    let m1 = after_action(m, BufferAction::Insert(ins));
    let n = ins.content@.len();
    assert(seq![inv].reverse() =~= seq![inv]);
    assert(seq![inv].drop_last() =~= Seq::<BufferAction>::empty());
    assert(run(m1, seq![inv]) == after_action(m1, inv));
    assert(inv == BufferAction::Delete(Delete { byte: ins.byte, len: n as usize }));
    lemma_insert_then_delete(m, ins.byte as int, ins.content@);
    assert(after_action(m1, inv) == after_delete(m1, ins.byte as int, n as int));
}

/// Undoing a deletion at a char boundary (a change group that holds only the action the
/// deletion handed back) gives back the text from before it.
pub proof fn lemma_undo_delete(m: BufferModel, del: Delete, inv: BufferAction)
    requires
        delete_applies(m, del.byte as int, del.len as int),
        del.byte == byte_of(m.text, char_at_byte(m.text, del.byte as int)),
        action_ok(m, BufferAction::Delete(del)),
        undoes(m, BufferAction::Delete(del), inv),
    ensures
        run(after_action(m, BufferAction::Delete(del)), seq![inv].reverse()).text == m.text,
{
    reveal_with_fuel(run, 2);
    let m1 = after_action(m, BufferAction::Delete(del));
    assert(seq![inv].reverse() =~= seq![inv]);
    assert(seq![inv].drop_last() =~= Seq::<BufferAction>::empty());
    assert(run(m1, seq![inv]) == after_action(m1, inv));
    lemma_delete_then_insert(m, del.byte as int, del.len as int);
    lemma_char_at_byte(m.text, del.byte as int);
    lemma_byte_of_ends(m.text);
    lemma_byte_of_mono(m.text, char_at_byte(m.text, del.byte as int), delete_span(m, del.byte as int, del.len as int).0);
    let t = m1.text;
    let c = char_at_byte(m.text, del.byte as int);
    assert(t.take(c) =~= m.text.take(c));
    lemma_byte_of_mono(t, c, t.len() as int);
    lemma_byte_of_ends(t);
}

/// `x` clamped into `lo..=hi`.
pub open spec fn clamp_int(x: int, lo: int, hi: int) -> int {
    if x < lo {
        lo
    } else if x > hi {
        hi
    } else {
        x
    }
}

/// `b` is `a` with its primary caret moved to `new_caret`: the selection runs from the
/// anchor to it with `extend`, and collapses onto it without.
pub open spec fn moved_primary<K>(a: &TextBuffer<K>, b: &TextBuffer<K>, new_caret: usize, extend: bool) -> bool {
    let p = a.primary_cursor as int;
    &&& b.cursors@.len() == a.cursors@.len()
    &&& forall|i: int| 0 <= i < a.cursors@.len() && i != p ==> #[trigger] b.cursors@[i] == a.cursors@[i]
    &&& if extend {
        b.cursors@[p].spans(a.cursors@[p].anchor(), new_caret)
    } else {
        b.cursors@[p].collapsed_at(new_caret)
    }
    &&& b.primary_cursor == a.primary_cursor
    &&& b.text() == a.text()
    &&& b.version == a.version
    &&& b.byte_changes == a.byte_changes
    &&& same_setting(a, b)
}

/// The selections of two cursors share a byte.
pub open spec fn overlaps(a: Cursor, b: Cursor) -> bool {
    a.sel_start <= b.sel_end && b.sel_start <= a.sel_end
}

/// The cursor `a` grown to cover `b` as well.
pub open spec fn hull(a: Cursor, b: Cursor) -> Cursor {
    Cursor {
        sel_start: if a.sel_start <= b.sel_start { a.sel_start } else { b.sel_start },
        sel_end: if a.sel_end >= b.sel_end { a.sel_end } else { b.sel_end },
        at_start: a.at_start,
    }
}

/// Merging into cursor `i` every later cursor from `j` on that overlaps it, as it grows;
/// the primary index `p` follows the cursors.
pub open spec fn merge_step(cs: Seq<Cursor>, p: int, i: int, j: int) -> (Seq<Cursor>, int)
    decreases cs.len() - j,
{
    if i < 0 || j <= i || j >= cs.len() {
        (cs, p)
    } else if overlaps(cs[i], cs[j]) {
        merge_step(
            cs.update(i, hull(cs[i], cs[j])).remove(j),
            if p == j {
                i
            } else if p > j {
                p - 1
            } else {
                p
            },
            i,
            j,
        )
    } else {
        merge_step(cs, p, i, j + 1)
    }
}

/// One merging pass never adds a cursor, keeps cursor `i`, and keeps the primary index
/// valid.
pub proof fn lemma_merge_step_len(cs: Seq<Cursor>, p: int, i: int, j: int)
    ensures
        merge_step(cs, p, i, j).0.len() <= cs.len(),
        0 <= i < cs.len() ==> merge_step(cs, p, i, j).0.len() > i,
        0 <= p < cs.len() && 0 <= i < cs.len() ==> 0 <= merge_step(cs, p, i, j).1 < merge_step(cs, p, i, j).0.len(),
    decreases cs.len() - j,
{
    if i < 0 || j <= i || j >= cs.len() {
    } else if overlaps(cs[i], cs[j]) {
        lemma_merge_step_len(
            cs.update(i, hull(cs[i], cs[j])).remove(j),
            if p == j {
                i
            } else if p > j {
                p - 1
            } else {
                p
            },
            i,
            j,
        );
    } else {
        lemma_merge_step_len(cs, p, i, j + 1);
    }
}

/// Merging, for each cursor from `i` on in turn, the later cursors that overlap it.
pub open spec fn merge_from(cs: Seq<Cursor>, p: int, i: int) -> (Seq<Cursor>, int)
    decreases cs.len() - i,
{
    if i < 0 || i >= cs.len() {
        (cs, p)
    } else {
        let r = merge_step(cs, p, i, i + 1);
        proof {
            lemma_merge_step_len(cs, p, i, i + 1);
        }
        merge_from(r.0, r.1, i + 1)
    }
}

/// Byte `x` lies in the selection of one of the cursors.
pub open spec fn covered(cs: Seq<Cursor>, x: int) -> bool {
    exists|k: int| 0 <= k < cs.len() && (#[trigger] cs[k]).sel_start <= x <= cs[k].sel_end
}

/// Every selection starts no later than it ends.
pub open spec fn ordered(cs: Seq<Cursor>) -> bool {
    forall|k: int| 0 <= k < cs.len() ==> (#[trigger] cs[k]).sel_start <= cs[k].sel_end
}

proof fn lemma_merge_step_covers(cs: Seq<Cursor>, p: int, i: int, j: int, x: int)
    requires
        ordered(cs),
    ensures
        ordered(merge_step(cs, p, i, j).0),
        covered(merge_step(cs, p, i, j).0, x) == covered(cs, x),
    decreases cs.len() - j,
{
    if i < 0 || j <= i || j >= cs.len() {
    } else if overlaps(cs[i], cs[j]) {
        let h = hull(cs[i], cs[j]);
        let cs2 = cs.update(i, h).remove(j);
        assert(ordered(cs2)) by {
            assert forall|k: int| 0 <= k < cs2.len() implies (#[trigger] cs2[k]).sel_start <= cs2[k].sel_end by {
                if k < j {
                    assert(cs2[k] == cs.update(i, h)[k]);
                } else {
                    assert(cs2[k] == cs[k + 1]);
                }
            }
        }
        if covered(cs, x) {
            let k = choose|k: int| 0 <= k < cs.len() && (#[trigger] cs[k]).sel_start <= x <= cs[k].sel_end;
            if k == i || k == j {
                assert(cs2[i] == h);
            } else if k < j {
                assert(cs2[k] == cs[k]);
            } else {
                assert(cs2[k - 1] == cs[k]);
            }
        }
        if covered(cs2, x) {
            let k = choose|k: int| 0 <= k < cs2.len() && (#[trigger] cs2[k]).sel_start <= x <= cs2[k].sel_end;
            if k == i {
                if x <= cs[i].sel_end && x >= cs[i].sel_start {
                    assert(cs[i].sel_start <= x <= cs[i].sel_end);
                } else if x >= cs[j].sel_start && x <= cs[j].sel_end {
                    assert(cs[j].sel_start <= x <= cs[j].sel_end);
                } else {
                    assert(cs[i].sel_start <= x <= cs[i].sel_end || cs[j].sel_start <= x <= cs[j].sel_end);
                }
            } else if k < j {
                assert(cs2[k] == cs[k]);
            } else {
                assert(cs2[k] == cs[k + 1]);
            }
        }
        lemma_merge_step_covers(
            cs2,
            if p == j {
                i
            } else if p > j {
                p - 1
            } else {
                p
            },
            i,
            j,
            x,
        );
    } else {
        lemma_merge_step_covers(cs, p, i, j + 1, x);
    }
}

/// Merging overlapping cursors keeps the bytes the selections cover: a byte is covered
/// afterwards exactly when it was before (every selection starting no later than it
/// ends).
pub proof fn lemma_merge_keeps_coverage(cs: Seq<Cursor>, p: int, i: int, x: int)
    requires
        ordered(cs),
    ensures
        ordered(merge_from(cs, p, i).0),
        covered(merge_from(cs, p, i).0, x) == covered(cs, x),
    decreases cs.len() - i,
{
    if 0 <= i < cs.len() {
        let r = merge_step(cs, p, i, i + 1);
        lemma_merge_step_len(cs, p, i, i + 1);
        lemma_merge_step_covers(cs, p, i, i + 1, x);
        lemma_merge_keeps_coverage(r.0, r.1, i + 1, x);
    }
}

/// Merging overlapping cursors never adds one, and the primary index stays valid.
pub proof fn lemma_merge_shrinks(cs: Seq<Cursor>, p: int, i: int)
    requires
        0 <= p < cs.len(),
    ensures
        merge_from(cs, p, i).0.len() <= cs.len(),
        0 <= merge_from(cs, p, i).1 < merge_from(cs, p, i).0.len(),
    decreases cs.len() - i,
{
    if 0 <= i < cs.len() {
        let r = merge_step(cs, p, i, i + 1);
        lemma_merge_step_len(cs, p, i, i + 1);
        lemma_merge_shrinks(r.0, r.1, i + 1);
    }
}

/// The lines of a text, each with its line break.
pub open spec fn rope_lines(s: Seq<char>) -> Seq<Seq<char>> {
    Seq::new(line_count(s), |l: int| s.subrange(line_start(s, l), line_start(s, l + 1)))
}

/// Detects the indentation style of a rope's text from the leading whitespace of its
/// lines.
pub fn detect_indent(rope: &Rope, default_spaces: usize) -> (r: IndentStyle)
    ensures
        r == detected_style(rope_lines(rope_chars(*rope)), default_spaces),
{
    let n = rope_len_lines(rope);
    let mut lines: Vec<String> = Vec::new();
    let mut l: usize = 0;
    while l < n
        invariant
            n == line_count(rope_chars(*rope)),
            l <= n,
            lines@.len() == l,
            forall|j: int| 0 <= j < l ==> (#[trigger] lines@[j])@ == rope_lines(rope_chars(*rope))[j],
        decreases n - l,
    {
        lines.push(rope_line_string(rope, l));
        l += 1;
    }
    assert(lines@.map_values(|s: String| s@) =~= rope_lines(rope_chars(*rope)));
    detect_indent_lines(lines.as_slice(), default_spaces)
}

} // verus!
