use kerbin::buffer::TextBuffer;
use kerbin::commands::{BufferCommand, CommandOutcome, CursorCommand, FileRequest};
use kerbin::cursor::Cursor;

fn buf(text: &str, path: &str) -> TextBuffer<u8> {
    TextBuffer::from_content(path.to_string(), String::new(), text, 4)
}

fn caret(b: &TextBuffer<u8>) -> usize {
    b.primary_cursor().get_cursor_byte()
}

fn done(o: CommandOutcome) -> bool {
    match o {
        CommandOutcome::Done(b) => b,
        _ => panic!("expected the command to run"),
    }
}

#[test]
fn goto_clamps_and_reports_no_change() {
    let mut b = buf("abc\ndefgh\n", "f.txt");
    assert!(!done(BufferCommand::GoTo { col: 2, row: 1, extend: false }.apply(&mut b)));
    assert_eq!(caret(&b), 6);
    BufferCommand::GoTo { col: 100, row: 1, extend: false }.apply(&mut b);
    assert_eq!(caret(&b), 10);
    BufferCommand::GoTo { col: 1, row: 50, extend: true }.apply(&mut b);
    assert_eq!(caret(&b), 10);
}

#[test]
fn file_commands_are_handed_back() {
    let mut b = buf("x", "<scratch>");
    assert!(!done(BufferCommand::WriteFile { path: None }.apply(&mut b)));
    assert!(matches!(
        BufferCommand::WriteFile { path: Some("out.txt".to_string()) }.apply(&mut b),
        CommandOutcome::File(FileRequest::Write { check_disk: true, .. })
    ));
    assert!(matches!(
        BufferCommand::WriteFileForce { path: None }.apply(&mut b),
        CommandOutcome::File(FileRequest::Write { path: None, check_disk: false })
    ));
    assert!(!done(BufferCommand::ReloadFileForce.apply(&mut b)));
    let mut f = buf("x", "/tmp/f.txt");
    assert!(matches!(BufferCommand::ReloadFile.apply(&mut f), CommandOutcome::File(FileRequest::Reload)));
    f.dirty = true;
    assert!(!done(BufferCommand::ReloadFile.apply(&mut f)));
    assert!(matches!(BufferCommand::ReloadFileForce.apply(&mut f), CommandOutcome::File(FileRequest::Reload)));
}

#[test]
fn insert_append_and_undo() {
    let mut b = buf("hello", "f.txt");
    BufferCommand::GoTo { col: 5, row: 0, extend: false }.apply(&mut b);
    assert!(done(BufferCommand::Insert(" world".to_string()).apply(&mut b)));
    assert_eq!(b.to_string(), "hello world");
    assert_eq!(caret(&b), 5);
    assert!(done(BufferCommand::Append { text: "!".to_string(), extend: false }.apply(&mut b)));
    assert_eq!(b.to_string(), "hello! world");
    assert_eq!(caret(&b), 6);
    assert!(done(BufferCommand::Undo.apply(&mut b)));
    assert_eq!(b.to_string(), "hello");
    assert!(!b.dirty);
    assert!(done(BufferCommand::Redo.apply(&mut b)));
    assert_eq!(b.to_string(), "hello! world");
    assert!(b.dirty);
}

#[test]
fn delete_selection_and_toggle_case() {
    let mut b = buf("Hello World", "f.txt");
    b.cursors[0] = Cursor { at_start: false, sel_start: 0, sel_end: 4 };
    assert!(done(BufferCommand::ToggleCase.apply(&mut b)));
    assert_eq!(b.to_string(), "hELLO World");
    b.cursors[0] = Cursor { at_start: false, sel_start: 5, sel_end: 5 };
    assert!(done(BufferCommand::Delete.apply(&mut b)));
    assert_eq!(b.to_string(), "hELLOWorld");
    assert_eq!((b.cursors[0].sel_start, b.cursors[0].sel_end, b.cursors[0].at_start), (5, 5, true));
}

#[test]
fn join_line_replaces_the_break() {
    let mut b = buf("one\ntwo\n", "f.txt");
    assert!(done(BufferCommand::JoinLine.apply(&mut b)));
    assert_eq!(b.to_string(), "one two\n");
    BufferCommand::GoTo { col: 0, row: 1, extend: false }.apply(&mut b);
    assert!(!done(BufferCommand::JoinLine.apply(&mut b)));
}

#[test]
fn move_lines_keeps_the_column() {
    let mut b = buf("abcdef\nab\nabcdef", "f.txt");
    BufferCommand::GoTo { col: 4, row: 0, extend: false }.apply(&mut b);
    assert!(done(BufferCommand::MoveLines { lines: 1, extend: false }.apply(&mut b)));
    assert_eq!(caret(&b), 9);
    assert!(done(BufferCommand::MoveLines { lines: 5, extend: false }.apply(&mut b)));
    assert_eq!(caret(&b), 12);
    assert!(!done(BufferCommand::MoveLines { lines: 0, extend: false }.apply(&mut b)));
}

#[test]
fn cursor_commands() {
    let mut b = buf("abc", "f.txt");
    assert!(done(CursorCommand::CreateCursor.apply(&mut b)));
    assert_eq!(b.cursors.len(), 2);
    assert!(done(CursorCommand::ChangeActiveCursor(-1).apply(&mut b)));
    assert_eq!(b.primary_cursor, 0);
    assert!(done(CursorCommand::DropCursor.apply(&mut b)));
    assert_eq!(b.cursors.len(), 1);
    assert!(done(CursorCommand::DropOtherCursors.apply(&mut b)));
    assert!(matches!(CursorCommand::ApplyAll(vec![]).apply(&mut b), CommandOutcome::EachCursor));
}
