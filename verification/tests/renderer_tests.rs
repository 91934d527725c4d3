use kerbin::extmark::{ExtmarkAdjustment, ExtmarkBuilder};
use kerbin::renderer::BufferRenderer;

fn ids(r: &BufferRenderer<u8>, range: std::ops::Range<usize>) -> Vec<u64> {
    r.query_extmarks(range).iter().map(|e| e.id).collect()
}

#[test]
fn query_orders_by_priority_then_start() {
    let mut r: BufferRenderer<u8> = BufferRenderer::new();
    let a = r.add_extmark(0, ExtmarkBuilder::new_range("top", 5..8));
    let b = r.add_extmark(0, ExtmarkBuilder::new_range("base", 6..9));
    let c = r.add_extmark(0, ExtmarkBuilder::new_range("base", 1..3));
    let d = r.add_extmark(0, ExtmarkBuilder::new_range("base", 20..25));
    assert_eq!((a, b, c, d), (0, 1, 2, 3));
    r.set_namespace_priority("top", 10);
    assert_eq!(r.ns_priority("top"), 10);
    assert_eq!(r.ns_priority("base"), 0);
    // marks ending at the start of the range still count; those starting at its end do not
    assert_eq!(ids(&r, 3..20), vec![c, b, a]);
    r.set_namespace_priority("top", -1);
    assert_eq!(ids(&r, 0..100), vec![a, c, b, d]);
}

#[test]
fn removing_marks() {
    let mut r: BufferRenderer<u8> = BufferRenderer::new();
    let a = r.add_extmark(0, ExtmarkBuilder::new_range("x", 0..2));
    let b = r.add_extmark(0, ExtmarkBuilder::new_range("y", 4..6));
    let c = r.add_extmark(0, ExtmarkBuilder::new_range("x", 10..12));
    assert!(r.remove_extmark(b));
    assert!(!r.remove_extmark(b));
    assert_eq!(ids(&r, 0..100), vec![a, c]);
    r.remove_extmarks_in_range("x", &(1..3));
    assert_eq!(ids(&r, 0..100), vec![c]);
    r.clear_extmark_ns("x");
    assert_eq!(ids(&r, 0..100), Vec::<u64>::new());
    // ids are never reused
    assert_eq!(r.add_extmark(0, ExtmarkBuilder::new("x", 1)), 3);
}

#[test]
fn update_moves_a_mark_last_when_its_start_changes() {
    let mut r: BufferRenderer<u8> = BufferRenderer::new();
    let a = r.add_extmark(0, ExtmarkBuilder::new_range("n", 4..6));
    let b = r.add_extmark(0, ExtmarkBuilder::new_range("n", 2..3));
    assert!(r.update_extmark(b, Some(9), Some(4..5)));
    assert!(!r.update_extmark(77, None, None));
    let q = r.query_extmarks(0..10);
    assert_eq!(q.iter().map(|e| e.id).collect::<Vec<_>>(), vec![a, b]);
    assert_eq!(q[1].kind, Some(9));
    assert_eq!(q[1].byte_range, 4..5);
}

#[test]
fn set_namespace_replaces_marks() {
    let mut r: BufferRenderer<u8> = BufferRenderer::new();
    r.add_extmark(0, ExtmarkBuilder::new_range("diag", 0..1));
    let keep = r.add_extmark(0, ExtmarkBuilder::new_range("other", 0..1));
    let new_ids = r.set_namespace(
        3,
        "diag",
        vec![ExtmarkBuilder::new_range("diag", 5..6), ExtmarkBuilder::new_range("diag", 7..8)],
    );
    assert_eq!(new_ids, vec![2, 3]);
    assert_eq!(ids(&r, 0..100), vec![keep, 2, 3]);
    assert_eq!(r.query_extmarks(6..7)[0].file_version, 3);
}

#[test]
fn edits_move_delete_and_skip_marks() {
    let mut r: BufferRenderer<u8> = BufferRenderer::new();
    let a = r.add_extmark(0, ExtmarkBuilder::new_range("n", 10..20));
    let b = r.add_extmark(0, ExtmarkBuilder::new_range("n", 4..6).with_adjustment(ExtmarkAdjustment::DeleteOnDelete));
    let c = r.add_extmark(5, ExtmarkBuilder::new_range("n", 30..31));
    // delete bytes 2..8 at version 1: `a` shifts back, `b` is deleted, `c` is newer
    r.process_byte_changes(1, &[[((0, 2), 2), ((0, 8), 8), ((0, 2), 2)]]);
    let q = r.query_extmarks(0..100);
    assert_eq!(q.iter().map(|e| e.id).collect::<Vec<_>>(), vec![a, c]);
    assert_eq!(q[0].byte_range, 4..14);
    assert_eq!(q[1].byte_range, 30..31);
    let _ = b;
}
