use kerbin::decor::{ConcealScope, CursorShape, ExtmarkKind, OverlayPosition, StyledChunk, VirtTextPos};
use kerbin::extmark::{Extmark, ExtmarkAdjustment, ExtmarkGravity};
use kerbin::line_draw::{draw_marked_line, LineRender};
use kerbin::line_marks::LineGeom;
use kerbin::line_render::{buffer_to_display, insert_at, overlay_at, render_plain_line, stable_order, Conceal, Seg};
use kerbin::viewport::{cursor_on_screen, line_marks, place_popup, visible_len, Area};

type Kind = ExtmarkKind<u8, ()>;

fn mark(ns: &str, start: usize, end: usize, kind: Option<Kind>) -> Extmark<Option<Kind>> {
    Extmark {
        file_version: 0,
        id: 0,
        namespace: ns.to_string(),
        byte_range: start..end,
        kind,
        gravity: ExtmarkGravity::Right,
        adjustment: ExtmarkAdjustment::Track,
        expand_on_insert: false,
    }
}

fn chars(s: &str) -> Vec<char> {
    s.chars().collect()
}

fn shown(spans: &[Seg<u8>]) -> Vec<(String, Vec<u8>)> {
    spans.iter().map(|s| (s.text.iter().collect::<String>(), s.style.clone())).collect()
}

fn sp(t: &str, st: &[u8]) -> (String, Vec<u8>) {
    (t.to_string(), st.to_vec())
}

fn chunk(t: &str, st: u8) -> StyledChunk<u8> {
    StyledChunk { text: t.to_string(), style: st }
}

fn draw(marks: &[Extmark<Option<Kind>>], prios: &[i32], line: &str, g: LineGeom, extra: bool, width: usize) -> LineRender<u8> {
    let refs: Vec<&Extmark<Option<Kind>>> = marks.iter().collect();
    let ranges: Vec<(usize, usize)> = marks.iter().map(|m| (m.byte_range.start, m.byte_range.end)).collect();
    draw_marked_line(&refs, &ranges, &prios.to_vec(), &chars(line), g, extra, width, 0, &chars("  "), 7, true)
}

fn geom(len: usize, visible: usize) -> LineGeom {
    LineGeom { start: 0, end: len, char_count: len, visible }
}

#[test]
fn plain_line_splits_out_tabs_and_stops_at_the_break() {
    let spans = render_plain_line(&chars("ab\tc\nzz"), 0, 10, &chars("  "), 7u8);
    assert_eq!(shown(&spans), vec![sp("ab", &[]), sp("  ", &[7]), sp("c", &[])]);
}

#[test]
fn plain_line_skips_scrolled_columns() {
    let spans = render_plain_line(&chars("abc"), 1, 10, &chars("  "), 7u8);
    assert_eq!(shown(&spans), vec![sp("bc", &[])]);
    let clipped = render_plain_line(&chars("abcdef"), 0, 3, &chars("  "), 7u8);
    assert_eq!(shown(&clipped), vec![sp("abc", &[])]);
}

#[test]
fn highlight_styles_its_columns() {
    let marks = vec![mark("a", 0, 5, Some(ExtmarkKind::Highlight { style: 3 }))];
    let r = draw(&marks, &[0], "hello world\n", geom(12, 11), false, 80);
    assert_eq!(shown(&r.spans), vec![sp("hello", &[3]), sp(" world", &[])]);
    assert!(r.cursors.is_empty());
    assert!(r.popups.is_empty());
}

#[test]
fn highlights_are_laid_on_by_priority() {
    let marks = vec![
        mark("hi", 0, 3, Some(ExtmarkKind::Highlight { style: 1 })),
        mark("lo", 1, 4, Some(ExtmarkKind::Highlight { style: 2 })),
    ];
    let r = draw(&marks, &[2, 1], "abcde", geom(5, 5), false, 80);
    assert_eq!(shown(&r.spans), vec![sp("a", &[1]), sp("bc", &[2, 1]), sp("d", &[2]), sp("e", &[])]);
}

#[test]
fn conceal_replaces_its_range() {
    let kind = ExtmarkKind::Conceal {
        replacement: Some("X".to_string()),
        style: Some(4),
        scope: ConcealScope::Byte,
        trim_before: false,
        trim_after: false,
    };
    let marks = vec![mark("c", 1, 3, Some(kind))];
    let r = draw(&marks, &[0], "a**b**c", geom(7, 7), false, 80);
    assert_eq!(shown(&r.spans), vec![sp("a", &[]), sp("X", &[4]), sp("b**c", &[])]);
}

#[test]
fn conceal_gives_way_to_another_namespace() {
    let kind = ExtmarkKind::Conceal {
        replacement: Some("X".to_string()),
        style: None,
        scope: ConcealScope::Byte,
        trim_before: false,
        trim_after: false,
    };
    let marks = vec![
        mark("c", 1, 3, Some(kind)),
        mark("h", 2, 4, Some(ExtmarkKind::Highlight { style: 5 })),
    ];
    let r = draw(&marks, &[0, 0], "abcdef", geom(6, 6), false, 80);
    assert_eq!(shown(&r.spans), vec![sp("ab", &[]), sp("cd", &[5]), sp("ef", &[])]);
}

#[test]
fn cursor_reports_its_column_and_shape() {
    let marks = vec![mark("cur", 2, 3, Some(ExtmarkKind::Cursor { style: 9, shape: CursorShape::Bar }))];
    let r = draw(&marks, &[0], "abc", geom(3, 3), true, 80);
    assert_eq!(shown(&r.spans), vec![sp("abc ", &[])]);
    assert_eq!(r.cursors, vec![(2, CursorShape::Bar)]);
}

#[test]
fn cursor_past_an_empty_line_lights_a_cell() {
    let marks = vec![mark("cur", 0, 1, Some(ExtmarkKind::Cursor { style: 9, shape: CursorShape::Block }))];
    let r = draw(&marks, &[0], "\n", geom(1, 0), false, 80);
    assert_eq!(shown(&r.spans), vec![sp(" ", &[9])]);
    assert_eq!(r.cursors, vec![(0, CursorShape::Block)]);
}

#[test]
fn eol_and_right_aligned_text_follow_the_line() {
    let marks = vec![
        mark("v", 0, 1, Some(ExtmarkKind::VirtualText { chunks: vec![chunk("<1", 5)], pos: VirtTextPos::Eol })),
        mark("v", 0, 1, Some(ExtmarkKind::VirtualText { chunks: vec![chunk("R", 6)], pos: VirtTextPos::RightAlign })),
    ];
    let r = draw(&marks, &[0, 0], "ab", geom(2, 2), false, 10);
    assert_eq!(shown(&r.spans), vec![sp("ab", &[]), sp("<1", &[5]), sp("     ", &[]), sp("R", &[6])]);
}

#[test]
fn inline_text_shifts_and_overlay_text_covers() {
    let marks = vec![mark("v", 1, 2, Some(ExtmarkKind::VirtualText { chunks: vec![chunk("XY", 2)], pos: VirtTextPos::Inline }))];
    let r = draw(&marks, &[0], "abc", geom(3, 3), false, 80);
    assert_eq!(shown(&r.spans), vec![sp("a", &[]), sp("XY", &[2]), sp("bc", &[])]);
    let marks = vec![mark("v", 1, 2, Some(ExtmarkKind::VirtualText { chunks: vec![chunk("Z", 8)], pos: VirtTextPos::Overlay }))];
    let r = draw(&marks, &[0], "abcd", geom(4, 4), false, 80);
    assert_eq!(shown(&r.spans), vec![sp("a", &[]), sp("Z", &[8]), sp("cd", &[])]);
}

#[test]
fn popups_report_their_anchor() {
    let marks = vec![mark("p", 1, 2, Some(ExtmarkKind::Overlay { widget: (), position: OverlayPosition::Smart }))];
    let r = draw(&marks, &[3], "abc", geom(3, 3), false, 80);
    assert_eq!(r.popups, vec![(1, 0, OverlayPosition::Smart, 3)]);
}

#[test]
fn display_positions_follow_conceals() {
    let cs = vec![Conceal { start: 2, end: 5, replacement: Some(chars("x")), style: None::<u8> }];
    assert_eq!(buffer_to_display(1, &cs), 1);
    assert_eq!(buffer_to_display(3, &cs), 2);
    assert_eq!(buffer_to_display(6, &cs), 4);
}

#[test]
fn insert_and_overlay_past_the_end_append() {
    let segs = vec![Seg { text: chars("ab"), style: vec![1u8] }];
    let ins = insert_at(&segs, 9, &vec![chunk("Q", 2)]);
    assert_eq!(shown(&ins), vec![sp("ab", &[1]), sp("Q", &[2])]);
    let ov = overlay_at(&segs, 1, &vec![chunk("XYZ", 3)]);
    assert_eq!(shown(&ov), vec![sp("a", &[1]), sp("X", &[3]), sp("YZ", &[3])]);
}

#[test]
fn stable_order_keeps_ties_in_place() {
    assert_eq!(stable_order(&vec![3i128, 1, 3, 0, 1]), vec![3usize, 1, 4, 0, 2]);
}

#[test]
fn visible_length_drops_the_line_break() {
    assert_eq!(visible_len(&chars("ab\r\n")), 2);
    assert_eq!(visible_len(&chars("ab\n")), 2);
    assert_eq!(visible_len(&chars("ab")), 2);
    assert_eq!(visible_len(&chars("")), 0);
}

#[test]
fn marks_of_a_line_are_picked_by_their_bytes() {
    let ms = vec![mark("a", 0, 2, None), mark("a", 5, 6, None), mark("a", 3, 3, None)];
    let refs: Vec<&Extmark<Option<Kind>>> = ms.iter().collect();
    let on = line_marks(&refs, 3, 5, false);
    assert_eq!(on.len(), 1);
    assert_eq!(on[0].byte_range, 3..3);
    let at_end = line_marks(&refs, 3, 5, true);
    assert_eq!(at_end.len(), 2);
}

#[test]
fn the_last_visible_cursor_wins() {
    let cursors = vec![(1usize, CursorShape::Bar), (30, CursorShape::Block), (4, CursorShape::UnderScore)];
    assert_eq!(cursor_on_screen(&cursors, 0, 10, 2, 3, 1), Some((6, 4, CursorShape::UnderScore)));
    assert_eq!(cursor_on_screen(&cursors, 20, 5, 0, 0, 0), None);
}

#[test]
fn smart_popups_flip_above_and_shift_left() {
    let area = Area { x: 0, y: 0, width: 20, height: 10 };
    assert_eq!(place_popup(2, 2, 5, 3, area, OverlayPosition::Smart), Some((2, 3, 5, 3)));
    assert_eq!(place_popup(18, 8, 5, 3, area, OverlayPosition::Smart), Some((15, 5, 5, 3)));
    assert_eq!(place_popup(2, 2, 5, 3, area, OverlayPosition::Fixed { offset_x: 30, offset_y: 0 }), None);
}
