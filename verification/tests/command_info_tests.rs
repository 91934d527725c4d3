use kerbin::command_info::{CommandInfo, SuggestionPart};

fn info() -> CommandInfo {
    CommandInfo::new(
        vec!["open".to_string(), "o".to_string(), "e".to_string()],
        vec![("path".to_string(), "string".to_string()), ("line".to_string(), "int?".to_string())],
        vec!["Opens a file".to_string()],
    )
}

fn pieces(v: &[(&str, SuggestionPart)]) -> Vec<(String, SuggestionPart)> {
    v.iter().map(|(t, p)| (t.to_string(), *p)).collect()
}

#[test]
fn suggestion_line_layout() {
    let name = SuggestionPart::Name { autocomplete: false };
    assert_eq!(
        info().as_suggestion(false),
        pieces(&[
            ("open", name),
            (" ", SuggestionPart::Plain),
            ("(", SuggestionPart::Bracket),
            ("o, e", SuggestionPart::Alias),
            (") ", SuggestionPart::Bracket),
            ("path", SuggestionPart::ArgName),
            (":", SuggestionPart::ArgSeparator),
            ("string", SuggestionPart::ArgType),
            (" ", SuggestionPart::Plain),
            ("line", SuggestionPart::ArgName),
            (":", SuggestionPart::ArgSeparator),
            ("int?", SuggestionPart::ArgType),
        ])
    );
}

#[test]
fn suggestion_marks_search_matches() {
    let name = SuggestionPart::Name { autocomplete: true };
    let only = CommandInfo::new(vec!["Open".to_string()], vec![], vec![]);
    assert_eq!(
        only.as_suggestion_with_search(true, "ON").unwrap(),
        pieces(&[
            ("O", SuggestionPart::Match),
            ("pe", name),
            ("n", SuggestionPart::Match),
            (" ", SuggestionPart::Plain),
        ])
    );
}

#[test]
fn command_names_and_description() {
    let i = info();
    assert!(i.check_name("o"));
    assert!(i.check_name("open"));
    assert!(!i.check_name("op"));
    assert_eq!(i.desc_lines(), Some(vec!["Opens a file".to_string()]));
    assert_eq!(CommandInfo::new(vec!["x".to_string()], vec![], vec![]).desc_lines(), None);
}
