use kerbin::cursor::Cursor;
use kerbin::cursor_marks::{cursor_style_keys, render_cursors_and_selections};
use kerbin::buffer::TextBuffer;
use kerbin::decor::{CursorShape, ExtmarkKind};
use kerbin::extmark::ExtmarkBuilder;
use kerbin::line_render::Seg;
use kerbin::view::{render_view, render_view_with};
use kerbin::viewport::Area;

fn seg_text(s: &Seg<u8>) -> String {
    s.text.iter().collect()
}

fn buffer(content: &str) -> TextBuffer<ExtmarkKind<u8, u8>> {
    TextBuffer::from_content("a.txt".to_string(), "txt".to_string(), content, 4)
}

#[test]
fn view_plain_lines() {
    let buf = buffer("ab\ncd");
    let area = Area { x: 0, y: 0, width: 10, height: 3 };
    let v = render_view(&buf, 0, 0, area, &vec![' ', ' '], 7u8, false).unwrap();
    assert_eq!(v.lines.len(), 2);
    assert_eq!(v.lines[0].len(), 1);
    assert_eq!(seg_text(&v.lines[0][0]), "ab");
    assert!(v.lines[0][0].style.is_empty());
    assert_eq!(seg_text(&v.lines[1][0]), "cd");
    assert!(v.cursor.is_none());
    assert!(v.overlays.is_empty());
}

#[test]
fn view_scrolls_both_ways() {
    let buf = buffer("ab\ncd\nef");
    let area = Area { x: 0, y: 0, width: 10, height: 1 };
    let v = render_view(&buf, 1, 1, area, &vec![' ', ' '], 7u8, false).unwrap();
    assert_eq!(v.lines.len(), 1);
    assert_eq!(seg_text(&v.lines[0][0]), "d");
}

#[test]
fn view_draws_tab_in_tab_style() {
    let buf = buffer("\tx");
    let area = Area { x: 0, y: 0, width: 10, height: 1 };
    let v = render_view(&buf, 0, 0, area, &vec![' ', ' '], 7u8, false).unwrap();
    assert_eq!(v.lines[0].len(), 2);
    assert_eq!(seg_text(&v.lines[0][0]), "  ");
    assert_eq!(v.lines[0][0].style, vec![7u8]);
    assert_eq!(seg_text(&v.lines[0][1]), "x");
}

#[test]
fn view_cut_at_width() {
    let buf = buffer("abcdef");
    let area = Area { x: 0, y: 0, width: 3, height: 2 };
    let v = render_view(&buf, 0, 0, area, &vec![' '], 7u8, false).unwrap();
    assert_eq!(v.lines.len(), 1);
    assert_eq!(seg_text(&v.lines[0][0]), "abc");
}

#[test]
fn view_highlight_and_cursor_marks() {
    let mut buf = buffer("abc");
    buf.add_extmark(ExtmarkBuilder::new_range("hl", 0..1).with_kind(ExtmarkKind::Highlight { style: 5u8 }));
    buf.add_extmark(
        ExtmarkBuilder::new("cur", 1).with_kind(ExtmarkKind::Cursor { style: 9u8, shape: CursorShape::Bar }),
    );
    let area = Area { x: 2, y: 4, width: 10, height: 1 };
    let v = render_view(&buf, 0, 0, area, &vec![' '], 7u8, false).unwrap();
    let line = &v.lines[0];
    let text: String = line.iter().map(seg_text).collect();
    assert!(text.starts_with("abc"));
    assert_eq!(seg_text(&line[0]), "a");
    assert_eq!(line[0].style, vec![5u8]);
    assert_eq!(v.cursor, Some((3, 4, CursorShape::Bar)));
}

#[test]
fn view_with_given_marks_matches_view() {
    let mut buf = buffer("abc\ndef");
    buf.add_extmark(ExtmarkBuilder::new_range("hl", 4..6).with_kind(ExtmarkKind::Highlight { style: 3u8 }));
    let area = Area { x: 0, y: 0, width: 10, height: 2 };
    let vm = buf.renderer.query_extmarks(0..8);
    let a = render_view_with(&buf, &vm, 0, 0, area, &vec![' '], 7u8, false);
    let b = render_view(&buf, 0, 0, area, &vec![' '], 7u8, false).unwrap();
    assert_eq!(a.lines.len(), b.lines.len());
    for (x, y) in a.lines.iter().zip(b.lines.iter()) {
        let xs: Vec<String> = x.iter().map(seg_text).collect();
        let ys: Vec<String> = y.iter().map(seg_text).collect();
        assert_eq!(xs, ys);
    }
    assert_eq!(seg_text(&a.lines[1][0]), "de");
    assert_eq!(a.lines[1][0].style, vec![3u8]);
}

#[test]
fn cursor_marks_replace_old_ones() {
    let mut buf = buffer("hello world");
    buf.add_extmark(ExtmarkBuilder::new_range("hl", 0..1).with_kind(ExtmarkKind::Highlight { style: 5u8 }));
    buf.cursors = vec![
        Cursor { at_start: false, sel_start: 2, sel_end: 4 },
        Cursor { at_start: true, sel_start: 6, sel_end: 6 },
    ];
    buf.primary_cursor = 1;
    render_cursors_and_selections(&mut buf, 'i', 9u8, 3u8);
    render_cursors_and_selections(&mut buf, 'i', 9u8, 3u8);
    let ms = &buf.renderer.marks;
    assert_eq!(ms.len(), 4);
    assert_eq!(ms[0].namespace, "hl");
    assert_eq!(ms[1].namespace, "inner::cursor");
    assert_eq!(ms[1].byte_range, 4..5);
    assert!(matches!(ms[1].kind, Some(ExtmarkKind::Highlight { style: 9 })));
    assert_eq!(ms[2].namespace, "inner::selection");
    assert_eq!(ms[2].byte_range, 2..4);
    assert!(matches!(ms[2].kind, Some(ExtmarkKind::Highlight { style: 3 })));
    assert_eq!(ms[3].namespace, "inner::cursor");
    assert_eq!(ms[3].byte_range, 6..7);
    assert!(matches!(ms[3].kind, Some(ExtmarkKind::Cursor { style: 9, shape: CursorShape::BlinkingBar })));
    assert_eq!(ms[3].id, ms[1].id + 2);
}

#[test]
fn cursor_shape_follows_mode() {
    let mut buf = buffer("ab");
    render_cursors_and_selections(&mut buf, 'n', 1u8, 2u8);
    assert_eq!(buf.renderer.marks.len(), 1);
    assert!(matches!(buf.renderer.marks[0].kind, Some(ExtmarkKind::Cursor { style: 1, shape: CursorShape::Block })));
}

#[test]
fn cursor_theme_keys_most_specific_first() {
    assert_eq!(
        cursor_style_keys(&vec!['n', 'i']),
        vec!["ui.cursor.n.i".to_string(), "ui.cursor.i".to_string(), "ui.cursor".to_string()]
    );
    assert_eq!(cursor_style_keys(&vec![]), vec!["ui.cursor".to_string()]);
}
