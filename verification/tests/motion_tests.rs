use kerbin::buffer::TextBuffer;
use kerbin::cursor::Cursor;
use kerbin::motion::MotionCommand;

// bytes: a0 b1 \n2 ' '3 ' '4 c5 d6 \n7 e8 f9
const TEXT: &str = "ab\n  cd\nef";

fn buf_at(start: usize, end: usize, at_start: bool) -> TextBuffer<u8> {
    let mut b = TextBuffer::from_content("t".to_string(), String::new(), TEXT, 4);
    b.cursors[0] = Cursor { at_start, sel_start: start, sel_end: end };
    b
}

fn sel(b: &TextBuffer<u8>) -> (usize, usize, bool) {
    let c = b.primary_cursor();
    (c.sel_start, c.sel_end, c.at_start)
}

#[test]
fn line_selections() {
    let mut b = buf_at(5, 5, false);
    assert!(MotionCommand::SelectLine { extend: false }.apply(&mut b));
    assert_eq!(sel(&b), (3, 7, false));

    let mut b = buf_at(5, 5, false);
    assert!(MotionCommand::SelectLineEnd { extend: false }.apply(&mut b));
    assert_eq!(sel(&b), (5, 7, false));

    let mut b = buf_at(5, 5, false);
    assert!(MotionCommand::SelectLineBegin { extend: false }.apply(&mut b));
    assert_eq!(sel(&b), (3, 5, true));

    let mut b = buf_at(5, 5, false);
    assert!(!MotionCommand::SelectFirstNonWhitespace { extend: false }.apply(&mut b));
    assert_eq!(sel(&b), (5, 5, false));

    let mut b = buf_at(8, 9, false);
    assert!(MotionCommand::SelectLine { extend: true }.apply(&mut b));
    assert_eq!(sel(&b), (8, 10, false));
}

#[test]
fn selection_toggles() {
    let mut b = buf_at(3, 7, false);
    assert!(MotionCommand::ClearSelection.apply(&mut b));
    assert_eq!(sel(&b), (7, 7, false));
    assert!(!MotionCommand::ClearSelection.apply(&mut b));
    assert!(MotionCommand::GotoSelectionBegin.apply(&mut b));
    assert!(b.primary_cursor().at_start);
    assert!(MotionCommand::GotoSelectionEnd.apply(&mut b));
    assert!(!b.primary_cursor().at_start);
}

#[test]
fn regex_motions() {
    let mut b = buf_at(0, 0, false);
    assert!(MotionCommand::Regex { pattern: "c.".to_string(), extend: false }.apply(&mut b));
    assert_eq!(sel(&b), (5, 6, false));
    assert!(!MotionCommand::Regex { pattern: "(".to_string(), extend: false }.apply(&mut b));
    assert_eq!(sel(&b), (5, 6, false));

    let mut b = buf_at(5, 5, false);
    let fwd = MotionCommand::RegexCursor { pattern: "[a-z]".to_string(), offset: None, extend: false, advance: false };
    assert!(fwd.apply(&mut b));
    assert_eq!(sel(&b), (5, 5, false));
    let adv = MotionCommand::RegexCursor { pattern: "[a-z]".to_string(), offset: None, extend: false, advance: true };
    assert!(adv.apply(&mut b));
    assert_eq!(sel(&b), (6, 6, false));

    let mut b = buf_at(5, 5, false);
    let back = MotionCommand::RegexCursorBackwards { pattern: "[a-z]".to_string(), offset: None, extend: false, advance: false };
    assert!(back.apply(&mut b));
    assert_eq!(sel(&b), (1, 1, false));
    let back_adv = MotionCommand::RegexCursorBackwards { pattern: "[a-z]".to_string(), offset: Some(4), extend: false, advance: true };
    assert!(back_adv.apply(&mut b));
    assert_eq!(sel(&b), (0, 0, false));

    let mut b = buf_at(9, 9, false);
    let none = MotionCommand::RegexCursor { pattern: "z".to_string(), offset: Some(5), extend: false, advance: false };
    assert!(!none.apply(&mut b));
}

#[test]
fn regex_within_selection() {
    let mut b = buf_at(3, 7, false);
    assert!(MotionCommand::RegexSel { pattern: "d".to_string() }.apply(&mut b));
    assert_eq!(sel(&b), (6, 6, false));

    let mut b = buf_at(3, 7, false);
    assert!(MotionCommand::RegexSelAll { pattern: "[a-z]".to_string() }.apply(&mut b));
    assert_eq!(b.cursors.len(), 2);
    assert_eq!(b.primary_cursor, 1);
    assert_eq!((b.cursors[0].sel_start, b.cursors[0].sel_end), (5, 5));
    assert_eq!((b.cursors[1].sel_start, b.cursors[1].sel_end), (6, 6));

    let mut b = buf_at(3, 7, false);
    assert!(!MotionCommand::RegexSelAll { pattern: "x".to_string() }.apply(&mut b));
    assert_eq!(b.cursors.len(), 1);
}

#[test]
fn select_all_places_cursors_in_text() {
    let mut b = TextBuffer::<u8>::from_content("t".to_string(), String::new(), "xx ab ab", 4);
    b.cursors[0] = Cursor { at_start: false, sel_start: 3, sel_end: 7 };
    assert!(MotionCommand::RegexSelAll { pattern: "ab".to_string() }.apply(&mut b));
    let sels: Vec<(usize, usize)> = b.cursors.iter().map(|c| (c.sel_start, c.sel_end)).collect();
    assert_eq!(sels, vec![(3, 4), (6, 7)]);
    assert_eq!(b.to_string(), "xx ab ab");
}
