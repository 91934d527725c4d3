use kerbin::ranking::{highlight_matches, rank};

#[test]
fn test_highlight_matches_basic() {
    let result = highlight_matches("hello", "hlo").unwrap();
    assert_eq!(result.len(), 5);
}

#[test]
fn test_highlight_matches_empty_search() {
    let result = highlight_matches("hello", "").unwrap();
    assert_eq!(result.len(), 1);
}

#[test]
fn test_highlight_matches_no_match() {
    let result = highlight_matches("hello", "xyz").unwrap();
    assert_eq!(result.len(), 1);
}

#[test]
fn highlight_runs_content() {
    let result = highlight_matches("Hello", "hel").unwrap();
    assert_eq!(result, vec![("Hel".to_string(), true), ("lo".to_string(), false)]);
}

#[test]
fn highlight_refuses_lengthening_lowercase() {
    // 'İ' lowercases to two characters
    assert_eq!(highlight_matches("İx", "x"), None);
}

#[test]
fn rank_scores() {
    assert_eq!(rank("", "anything"), Some(0));
    assert_eq!(rank("a", ""), None);
    assert_eq!(rank("abc", "abc"), Some(0));
    assert_eq!(rank("ac", "abc"), Some(1));
    assert_eq!(rank("AC", "xaxxc"), Some(3));
    assert_eq!(rank("ca", "abc"), None);
}
