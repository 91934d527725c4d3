use kerbin::extmark::{adjust_mark_range, Extmark, ExtmarkAdjustment, ExtmarkGravity};
use std::ops::Range;

fn mark(start: usize, end: usize) -> Extmark<()> {
    Extmark {
        id: 0,
        file_version: 0,
        namespace: "test".into(),
        byte_range: start..end,
        kind: (),
        gravity: ExtmarkGravity::Right,
        adjustment: ExtmarkAdjustment::Track,
        expand_on_insert: false,
    }
}

fn mark_with(
    start: usize,
    end: usize,
    gravity: ExtmarkGravity,
    expand: bool,
    adj: ExtmarkAdjustment,
) -> Extmark<()> {
    Extmark { gravity, expand_on_insert: expand, adjustment: adj, ..mark(start, end) }
}

fn adj(m: &Extmark<()>, es: usize, oe: usize, ne: usize) -> Option<Range<usize>> {
    adjust_mark_range(m, es, oe, ne)
}

#[test]
fn edit_after_mark() {
    assert_eq!(adj(&mark(2, 5), 6, 8, 10), Some(2..5));
}

#[test]
fn edit_at_mark_end() {
    assert_eq!(adj(&mark(2, 5), 5, 7, 9), Some(2..5));
}

#[test]
fn insert_before_mark() {
    assert_eq!(adj(&mark(5, 10), 2, 2, 5), Some(8..13));
}

#[test]
fn delete_before_mark() {
    assert_eq!(adj(&mark(5, 10), 2, 4, 2), Some(3..8));
}

#[test]
fn edit_contains_mark_collapses() {
    assert_eq!(adj(&mark(3, 7), 1, 11, 5), Some(5..5));
}

#[test]
fn edit_contains_mark_deletes() {
    let m = mark_with(3, 7, ExtmarkGravity::Right, false, ExtmarkAdjustment::DeleteOnDelete);
    assert_eq!(adj(&m, 1, 11, 5), None);
}

#[test]
fn edit_overlaps_start() {
    assert_eq!(adj(&mark(5, 10), 3, 7, 5), Some(5..8));
}

#[test]
fn edit_overlaps_end() {
    assert_eq!(adj(&mark(5, 10), 7, 12, 7), Some(5..7));
}

#[test]
fn insert_inside_mark_no_expand() {
    assert_eq!(adj(&mark(4, 10), 6, 6, 9), Some(4..13));
}

#[test]
fn insert_at_start_right_gravity() {
    let m = mark_with(5, 10, ExtmarkGravity::Right, false, ExtmarkAdjustment::Track);
    assert_eq!(adj(&m, 5, 5, 8), Some(8..13));
}

#[test]
fn insert_at_start_left_gravity() {
    let m = mark_with(5, 10, ExtmarkGravity::Left, false, ExtmarkAdjustment::Track);
    assert_eq!(adj(&m, 5, 5, 8), Some(5..10));
}

#[test]
fn insert_at_start_left_gravity_expand() {
    let m = mark_with(5, 10, ExtmarkGravity::Left, true, ExtmarkAdjustment::Track);
    assert_eq!(adj(&m, 5, 5, 8), Some(5..13));
}

#[test]
fn fixed_adjustment() {
    let m = mark_with(5, 10, ExtmarkGravity::Right, false, ExtmarkAdjustment::Fixed);
    assert_eq!(adj(&m, 3, 3, 6), Some(5..10));
    assert_eq!(adj(&m, 3, 6, 3), Some(5..10));
}

// An edit that neither deletes nor inserts leaves every mark where it was.
#[test]
fn empty_edit_leaves_marks() {
    for (s, e) in [(0usize, 0usize), (2, 5), (5, 10)] {
        for es in [0usize, 3, 5, 7, 12] {
            let m = mark(s, e);
            assert_eq!(adj(&m, es, es, es), Some(s..e));
        }
    }
}

// Only delete-on-delete marks vanish.
#[test]
fn track_marks_never_vanish() {
    for (es, oe, ne) in [(0usize, 20usize, 0usize), (1, 11, 5), (3, 7, 3)] {
        assert!(adj(&mark(3, 7), es, oe, ne).is_some());
    }
}

#[test]
fn delete_on_delete_overlapping_start_vanishes() {
    let m = mark_with(5, 10, ExtmarkGravity::Right, false, ExtmarkAdjustment::DeleteOnDelete);
    assert_eq!(adj(&m, 3, 7, 5), None);
}
