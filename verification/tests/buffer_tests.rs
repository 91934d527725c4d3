use kerbin::buffer::{BufferAction, Delete, Insert, TextBuffer};
use kerbin::cursor::Cursor;
use kerbin::extmark::ExtmarkBuilder;
use kerbin::indent::IndentStyle;

fn buf(text: &str) -> TextBuffer<u8> {
    TextBuffer::from_content("test.txt".to_string(), "txt".to_string(), text, 4)
}

#[test]
fn scratch_buffer_is_empty() {
    let b: TextBuffer<u8> = TextBuffer::scratch();
    assert_eq!(b.len(), 0);
    assert_eq!(b.len_lines(), 1);
    assert!(b.is_empty());
    assert_eq!(b.path, "<scratch>");
    assert_eq!(b.primary_cursor().get_cursor_byte(), 0);
}

#[test]
fn lines_and_bytes() {
    let b = buf("hello\nworld\n");
    assert_eq!(b.len(), 12);
    assert_eq!(b.len_chars(), 12);
    assert_eq!(b.len_lines(), 3);
    assert_eq!(b.line_to_byte(1), Some(6));
    assert_eq!(b.line_to_byte(2), Some(12));
    assert_eq!(b.line_to_byte(3), None);
    assert_eq!(b.line_to_byte_clamped(9), 12);
    assert_eq!(b.byte_to_line(7), Some(1));
    assert_eq!(b.byte_to_line(13), None);
    assert_eq!(b.byte_to_line_clamped(100), 2);
    assert_eq!(b.line(1), Some("world\n".to_string()));
    assert_eq!(b.line_clamped(10), "".to_string());
    assert_eq!(b.char(0), Some('h'));
    assert_eq!(b.char(12), None);
    assert_eq!(b.char_clamped(50), '\n');
    assert_eq!(b.get_edit_part(8), ((1, 2), 8));
    assert_eq!(b.to_string(), "hello\nworld\n");
}

#[test]
fn multibyte_positions() {
    let b = buf("h\u{e9}llo");
    // 'é' takes bytes 1 and 2
    assert_eq!(b.len(), 6);
    assert_eq!(b.len_chars(), 5);
    assert_eq!(b.byte_to_char(2), Some(1));
    assert_eq!(b.byte_to_char(3), Some(2));
    assert_eq!(b.char_to_byte(2), Some(3));
    assert_eq!(b.byte_to_char_boundary(2), 1);
    assert_eq!(b.slice_to_string(1, 3), Some("\u{e9}".to_string()));
    assert_eq!(b.slice_to_string(3, 1), None);
}

#[test]
fn crlf_is_one_line_break() {
    let b = buf("a\r\nb\rc\u{2028}d");
    assert_eq!(b.len_lines(), 4);
    assert_eq!(b.line_to_byte(1), Some(3));
    assert_eq!(b.line_to_byte(2), Some(5));
    assert_eq!(b.byte_to_line(2), Some(0));
}

#[test]
fn insert_moves_other_cursors_and_undo_restores() {
    let mut b = buf("abcdef");
    b.primary_cursor_mut().set_sel(0..=0);
    b.create_cursor();
    b.cursors[1] = Cursor { at_start: false, sel_start: 4, sel_end: 5 };
    b.primary_cursor = 0;
    let ok = b.action(BufferAction::Insert(Insert { byte: 2, content: "XY".to_string() }));
    assert!(ok);
    assert_eq!(b.to_string(), "abXYcdef");
    assert_eq!((b.cursors[1].sel_start, b.cursors[1].sel_end), (6, 7));
    assert!(b.dirty);
    assert_eq!(b.version, 1);
    assert_eq!(b.byte_changes.len(), 1);
    assert_eq!(b.byte_changes[0], [((0, 2), 2), ((0, 2), 2), ((0, 4), 4)]);
    b.undo();
    assert_eq!(b.to_string(), "abcdef");
    assert!(!b.dirty);
    assert_eq!(b.undo_stack.len(), 0);
    assert_eq!(b.redo_stack.len(), 1);
    b.redo();
    assert_eq!(b.to_string(), "abXYcdef");
    assert!(b.dirty);
    assert_eq!(b.undo_stack.len(), 1);
}

#[test]
fn insert_past_the_end_fails() {
    let mut b = buf("ab");
    assert!(!b.action(BufferAction::Insert(Insert { byte: 3, content: "x".to_string() })));
    assert_eq!(b.to_string(), "ab");
    assert!(!b.dirty);
}

#[test]
fn delete_counts_chars_and_stops_at_the_end() {
    let mut b = buf("h\u{e9}llo");
    let r = Delete { byte: 1, len: 2 }.apply(&mut b);
    assert!(r.success);
    assert_eq!(b.to_string(), "hlo");
    match r.action {
        BufferAction::Insert(ins) => {
            assert_eq!(ins.byte, 1);
            assert_eq!(ins.content, "\u{e9}l");
        }
        _ => panic!("the inverse of a deletion is an insertion"),
    }
    let r = Delete { byte: 2, len: 10 }.apply(&mut b);
    assert!(r.success);
    assert_eq!(b.to_string(), "hl");
    let r = Delete { byte: 2, len: 1 }.apply(&mut b);
    assert!(!r.success);
    assert_eq!(b.to_string(), "hl");
}

#[test]
fn undo_of_delete_restores_text() {
    let mut b = buf("one two three");
    b.start_change_group();
    assert!(b.action(BufferAction::Delete(Delete { byte: 4, len: 4 })));
    assert_eq!(b.to_string(), "one three");
    b.commit_change_group();
    b.undo();
    assert_eq!(b.to_string(), "one two three");
}

#[test]
fn moves_clamp_to_the_text() {
    let mut b = buf("ab\u{e9}d");
    assert!(b.move_bytes(10, false));
    assert_eq!(b.primary_cursor().get_cursor_byte(), 5);
    assert!(!b.move_bytes(0, false));
    assert!(b.move_chars(-1, true));
    assert_eq!(b.primary_cursor().get_cursor_byte(), 4);
    assert_eq!((b.primary_cursor().sel_start, b.primary_cursor().sel_end), (4, 5));
    assert!(b.primary_cursor().at_start);
    assert!(b.move_chars(-1, false));
    assert_eq!(b.primary_cursor().get_cursor_byte(), 2);
    assert!(b.move_bytes(-100, false));
    assert_eq!(b.primary_cursor().get_cursor_byte(), 0);
}

#[test]
fn cursor_management() {
    let mut b = buf("abc");
    b.create_cursor();
    b.create_cursor();
    assert_eq!(b.cursors.len(), 3);
    assert_eq!(b.primary_cursor, 2);
    b.change_cursor(-5);
    assert_eq!(b.primary_cursor, 0);
    b.change_cursor(7);
    assert_eq!(b.primary_cursor, 2);
    b.drop_primary_cursor();
    assert_eq!(b.cursors.len(), 2);
    assert_eq!(b.primary_cursor, 1);
    b.drop_other_cursors();
    assert_eq!(b.cursors.len(), 1);
    assert_eq!(b.primary_cursor, 0);
    b.drop_primary_cursor();
    assert_eq!(b.cursors.len(), 1);
}

#[test]
fn overlapping_cursors_merge() {
    let mut b = buf("0123456789");
    b.cursors = vec![
        Cursor { at_start: false, sel_start: 0, sel_end: 2 },
        Cursor { at_start: false, sel_start: 5, sel_end: 6 },
        Cursor { at_start: true, sel_start: 2, sel_end: 4 },
        Cursor { at_start: false, sel_start: 8, sel_end: 9 },
    ];
    b.primary_cursor = 2;
    b.merge_overlapping_cursors();
    assert_eq!(b.cursors.len(), 3);
    assert_eq!((b.cursors[0].sel_start, b.cursors[0].sel_end), (0, 4));
    assert!(!b.cursors[0].at_start);
    assert_eq!(b.primary_cursor, 0);
    assert_eq!((b.cursors[1].sel_start, b.cursors[1].sel_end), (5, 6));
}

#[test]
fn detects_indentation_from_content() {
    let b = buf("fn a() {\n  x\n  y\n    z\n}\n");
    assert_eq!(b.indent_style, IndentStyle::Spaces(2));
    let t = buf("a\n\tb\n");
    assert_eq!(t.indent_style, IndentStyle::Tabs);
}

#[test]
fn scroll_lines_clamps() {
    let mut b = buf("a\nb\nc\n");
    b.scroll_lines(10);
    assert_eq!(b.renderer.byte_scroll, 3);
    assert!(b.renderer.cursor_drag);
    b.scroll_lines(-10);
    assert_eq!(b.renderer.byte_scroll, 0);
}

#[test]
fn extmarks_follow_edits() {
    let mut b = buf("hello world");
    let id = b.add_extmark(ExtmarkBuilder::new_range("hl", 6..11).with_kind(7u8));
    assert_eq!(id, 0);
    assert!(b.action(BufferAction::Insert(Insert { byte: 0, content: ">> ".to_string() })));
    b.post_update();
    let marks = b.renderer.query_extmarks(0..100);
    assert_eq!(marks.len(), 1);
    assert_eq!(marks[0].byte_range, 9..14);
    assert_eq!(marks[0].kind, Some(7));
    b.update_cleanup();
    assert_eq!(b.byte_changes.len(), 0);
}
