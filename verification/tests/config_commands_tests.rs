use kerbin::command_lang::Token;
use kerbin::config_commands::{
    core_setting, debounce_event_from, join_names, list_templates, mouse_trigger, prefix_from, statusline_mode,
    theme_entry_style, CoreSetting, MouseTrigger,
};
use kerbin::kb::KbLoadError;

fn w(s: &str) -> Token {
    Token::Word(s.to_string())
}

#[test]
fn core_settings_parse() {
    assert!(matches!(core_setting("framerate", "60"), Ok(CoreSetting::Framerate(60))));
    assert!(matches!(core_setting("framerate", "+7"), Ok(CoreSetting::Framerate(7))));
    assert!(matches!(core_setting("framerate", "fast"), Ok(CoreSetting::Unchanged)));
    assert!(matches!(core_setting("framerate", "99999999999999999999"), Ok(CoreSetting::Unchanged)));
    assert!(matches!(core_setting("default_tab_unit", "2"), Ok(CoreSetting::DefaultTabUnit(2))));
    assert!(matches!(core_setting("auto_pairs", "disable"), Ok(CoreSetting::AutoPairs(false))));
    assert!(matches!(core_setting("unique_split_buffers", "enable"), Ok(CoreSetting::UniqueSplitBuffers(true))));
    match core_setting("tab_display_unit", "--->") {
        Ok(CoreSetting::TabDisplayUnit(s)) => assert_eq!(s, "--->"),
        _ => panic!("expected a tab unit"),
    }
}

#[test]
fn core_setting_errors() {
    match core_setting("auto_pairs", "maybe") {
        Err(m) => assert_eq!(m, "Expected `enable` or `disable`, found: maybe"),
        _ => panic!("expected an error"),
    }
    match core_setting("colour", "red") {
        Err(m) => assert_eq!(m, "Unknown key for core config: colour"),
        _ => panic!("expected an error"),
    }
}

#[test]
fn prefix_and_debounce_from_tokens() {
    let p = prefix_from("sel", &vec![w("normal"), w("insert")], &None, &Some(vec![w("q"), Token::Variable("v".to_string())]));
    assert_eq!(p.modes, vec!['n', 'i']);
    assert_eq!(p.prefix_cmd, "sel");
    assert!(!p.listed_only);
    assert_eq!(p.list, vec!["q".to_string()]);
    let p = prefix_from("x", &vec![], &Some(vec![w("a")]), &Some(vec![w("b")]));
    assert!(p.listed_only);
    assert_eq!(p.list, vec!["a".to_string()]);

    let e = debounce_event_from(&vec![w("save")], 300, &Some(vec![w("i")]), &None, &None);
    assert_eq!(e.events, vec!["save".to_string()]);
    assert_eq!(e.min_ms, 300);
    assert_eq!(e.modes, vec!['i']);
    assert!(e.ignore_modes.is_empty() && e.ignore_with_template.is_empty());
}

#[test]
fn statusline_and_mouse() {
    let (m, c) = statusline_mode("insert", &Some("INSERT".to_string()), &None).unwrap();
    assert_eq!(m, 'i');
    assert_eq!(c.long_name, Some("INSERT".to_string()));
    assert!(c.theme_key.is_none());
    assert!(statusline_mode("", &None, &None).is_none());
    assert_eq!(mouse_trigger("scroll-up"), Some(MouseTrigger::ScrollUp));
    assert_eq!(mouse_trigger("middle"), Some(MouseTrigger::MiddleDown));
    assert_eq!(mouse_trigger("wheel"), None);
}

#[test]
fn theme_entry_simple_and_full_form() {
    let st = theme_entry_style(&None, &None, &None, &None, &Some("red".to_string()));
    assert_eq!(st.fg, Some("red".to_string()));
    assert!(st.bg.is_none() && st.underline.is_none() && st.attrs.is_empty());
    let st = theme_entry_style(&None, &Some("blue".to_string()), &None, &Some(vec!["bold".to_string()]), &Some("red".to_string()));
    assert!(st.fg.is_none());
    assert_eq!(st.bg, Some("blue".to_string()));
    assert_eq!(st.attrs, vec!["bold".to_string()]);
}

fn strs(v: &[&str]) -> Vec<String> {
    v.iter().map(|s| s.to_string()).collect()
}

#[test]
fn list_templates_without_filter_keeps_order() {
    let names = strs(&["zeta", "alpha", "mid"]);
    assert_eq!(list_templates(&names, &vec![]), "zeta, alpha, mid");
    assert_eq!(list_templates(&vec![], &vec![]), "");
}

#[test]
fn list_templates_with_filter_selects_and_sorts() {
    let names = strs(&["file_name", "buffer_path", "file_dir", "cursor_line", "Z_file"]);
    assert_eq!(list_templates(&names, &strs(&["file"])), "Z_file, file_dir, file_name");
    assert_eq!(list_templates(&names, &strs(&["path", "line"])), "buffer_path, cursor_line");
    assert_eq!(list_templates(&names, &strs(&["nothing"])), "");
    assert_eq!(list_templates(&names, &strs(&[""])), "Z_file, buffer_path, cursor_line, file_dir, file_name");
}

#[test]
fn join_names_separates_with_comma_space() {
    assert_eq!(join_names(&strs(&["a"])), "a");
    assert_eq!(join_names(&strs(&["a", "b", "c"])), "a, b, c");
}

#[test]
fn config_error_report_without_line() {
    let e = KbLoadError { path: "/cfg/init.kb".to_string(), line: String::new(), message: "cannot read".to_string() };
    assert_eq!(e.report(), "/cfg/init.kb: cannot read");
}

#[test]
fn config_error_report_quotes_the_line() {
    let e = KbLoadError::unrecognized("/cfg/init.kb".to_string(), "a\tb \"c\" \\d".to_string());
    assert_eq!(e.report(), "/cfg/init.kb: \"a\\tb \\\"c\\\" \\\\d\": unrecognized command");
}
