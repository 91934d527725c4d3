use kerbin::editor_commands::SplitResizeDir;
use kerbin::splits::{SplitCommand, SplitDir, SplitModel, SplitPane};

fn pane(id: u64, bufs: Vec<usize>, sel: usize) -> SplitPane {
    SplitPane { id, buffer_indices: bufs, selected_local: sel, size: 10, tab_scroll: 0 }
}

fn model(unique: bool) -> SplitModel {
    SplitModel {
        leaves: vec![pane(1, vec![0, 2], 1), pane(2, vec![1], 0), pane(3, vec![2, 3], 0)],
        parent_dirs: vec![Some(SplitDir::Vertical), Some(SplitDir::Vertical), Some(SplitDir::Horizontal)],
        focused_id: 3,
        unique_buffers: unique,
    }
}

#[test]
fn focus_next_and_prev_wrap() {
    let mut s = model(true);
    assert_eq!(SplitCommand::FocusNext.apply(&mut s), (true, Some(2)));
    assert_eq!(s.focused_id, 1);
    assert_eq!(SplitCommand::FocusPrev.apply(&mut s), (true, Some(2)));
    assert_eq!(s.focused_id, 3);
    assert_eq!(SplitCommand::FocusPane(1).apply(&mut s), (true, Some(1)));
    assert_eq!(s.focused_id, 2);
    assert_eq!(SplitCommand::FocusPane(7).apply(&mut s), (false, None));
    let mut shared = model(false);
    assert_eq!(SplitCommand::FocusPane(0).apply(&mut shared), (true, Some(1)));
}

#[test]
fn resize_only_along_the_split() {
    let mut s = model(true);
    assert_eq!(SplitCommand::ResizeSplit { dir: SplitResizeDir::Vertical, amount: 3 }.apply(&mut s), (false, None));
    assert_eq!(SplitCommand::ResizeSplit { dir: SplitResizeDir::Horizontal, amount: -20 }.apply(&mut s), (true, None));
    assert_eq!(s.leaves[2].size, 1);
    assert_eq!(SplitCommand::ResizeSplit { dir: SplitResizeDir::Horizontal, amount: 4 }.apply(&mut s), (true, None));
    assert_eq!(s.leaves[2].size, 5);
    assert_eq!(s.leaves[0].size, 10);
}

#[test]
fn closed_pane_buffers_merge() {
    let mut s = model(true);
    let removed = pane(9, vec![3, 4, 2], 0);
    assert_eq!(s.merge_closed(&removed), Some(2));
    assert_eq!(s.leaves[2].buffer_indices, vec![2, 3, 4]);
}

#[test]
fn drop_splits_merges_all() {
    let mut s = model(true);
    assert_eq!(s.drop_splits(5, 42), Some(0));
    assert_eq!(s.leaves.len(), 1);
    assert_eq!(s.leaves[0].buffer_indices, vec![0, 2, 1, 3]);
    assert_eq!(s.focused_id, 42);
    let mut s = model(false);
    s.focused_id = 1;
    assert_eq!(s.drop_splits(5, 7), Some(1));
    assert_eq!(s.leaves[0].buffer_indices, vec![0, 1, 2, 3, 4]);
}

#[test]
fn switch_buffer_wraps() {
    let mut s = model(true);
    // focused pane 3 lists [2, 3], showing index 0
    assert_eq!(s.switch_buffer(-1, 9), (true, Some(3)));
    assert_eq!(s.leaves[2].selected_local, 1);
    assert_eq!(s.switch_buffer(3, 9), (true, Some(2)));
    let mut shared = model(false);
    assert_eq!(shared.switch_buffer(-3, 5), (true, Some(2)));
    assert_eq!(shared.switch_buffer(1, 0), (false, None));
    let mut empty = model(true);
    empty.leaves[2].buffer_indices.clear();
    assert_eq!(empty.switch_buffer(1, 5), (false, None));
}
