use kerbin::buffers::{get_unique_paths, Buffers};

fn strs(v: &[&str]) -> Vec<String> {
    v.iter().map(|s| s.to_string()).collect()
}

#[test]
fn paths_are_shortened_until_they_differ() {
    let ps = strs(&["a/b/c.rs", "a/d/c.rs", "x.rs"]);
    assert_eq!(get_unique_paths(&ps), strs(&["b/c.rs", "d/c.rs", "x.rs"]));
    assert_eq!(get_unique_paths(&strs(&["p/q", "p/q"])), strs(&["p/q", "p/q"]));
    assert_eq!(get_unique_paths(&strs(&["/abs/file", "/other/file"])), strs(&["abs/file", "other/file"]));
    assert_eq!(get_unique_paths(&Vec::new()), Vec::<String>::new());
}

#[test]
fn selection_moves_within_the_list() {
    let mut b: Buffers<u32> = Buffers::new();
    b.push_buffer(10);
    b.push_buffer(11);
    let id = b.push_buffer(12);
    assert_eq!(id, 2);
    assert_eq!(b.selected_buffer, 2);
    b.change_buffer(-1);
    assert_eq!(b.selected_buffer, 1);
    b.change_buffer(5);
    assert_eq!(b.selected_buffer, 2);
    b.change_buffer(-9);
    assert_eq!(b.selected_buffer, 0);
    b.set_selected_buffer(7);
    assert_eq!(b.selected_buffer, 2);
}

#[test]
fn closing_the_last_buffer_leaves_a_scratch() {
    let mut b: Buffers<u32> = Buffers::new();
    b.push_buffer(1);
    b.push_buffer(2);
    let gone = b.close_buffer(1, 0);
    assert_eq!(gone, 2);
    assert_eq!(b.buffers, vec![1]);
    assert_eq!(b.selected_buffer, 0);
    let gone = b.close_buffer(0, 99);
    assert_eq!(gone, 1);
    assert_eq!(b.buffers, vec![99]);
}

#[test]
fn bufferline_scrolls_to_the_selected_tab() {
    let mut b: Buffers<u32> = Buffers::new();
    b.push_buffer(1);
    b.push_buffer(2);
    b.update_paths(&strs(&["a", "bb"]));
    assert_eq!(b.unique_path_of(1), Some("bb".to_string()));
    assert_eq!(b.unique_path_of(2), None);
    b.update_bufferline_scroll(10);
    assert_eq!(b.tab_scroll, 5);
    b.update_bufferline_scroll(20);
    assert_eq!(b.tab_scroll, 0);
}

#[test]
fn bufferline_shows_the_visible_part_of_each_tab() {
    let mut b: Buffers<u32> = Buffers::new();
    b.push_buffer(1);
    b.push_buffer(2);
    b.update_paths(&strs(&["a", "bb"]));
    let parts = b.bufferline_parts(&vec![false, true], &vec![0, 1], 1, 0, 12);
    assert_eq!(parts, vec![(0, "   a   ".to_string(), false), (7, "   bb".to_string(), true)]);
    let scrolled = b.bufferline_parts(&vec![false, true], &vec![0, 1], 1, 9, 12);
    assert_eq!(scrolled, vec![(0, " bb * ".to_string(), true)]);
}

#[test]
fn unique_paths_stay_distinct() {
    let ps = vec!["src/a/mod.rs".to_string(), "src/b/mod.rs".to_string(), "mod.rs".to_string()];
    assert_eq!(get_unique_paths(&ps), vec!["a/mod.rs".to_string(), "b/mod.rs".to_string(), "mod.rs".to_string()]);
    let ps = vec!["x/y".to_string(), "z/x/y".to_string()];
    assert_eq!(get_unique_paths(&ps), vec!["x/y".to_string(), "z/x/y".to_string()]);
}
