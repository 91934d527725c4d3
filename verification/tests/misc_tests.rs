use kerbin::command_lang::{tokens_to_mode_chars, tokens_to_strings};
use kerbin::auto_pairs::{AutoPairs, PairAction};
use kerbin::cli::{program_name, CliResult, Help};
use kerbin::command_lang::{CommandState, Token};
use kerbin::debounce::{Debounce, DebounceStep};
use kerbin::indent::{detect_indent_lines, IndentStyle};
use kerbin::paths::{
    language_symbol, name_file_session, resolve_session_from, session_pid_path, session_queue_path, sessions_dir,
    GrammarManager,
};
use kerbin::scroll::{
    byte_offset_to_display_col, display_col_to_byte_offset, grapheme_display_width, update_horizontal_scroll,
    update_vertical_scroll,
};

fn lines(v: &[&str]) -> Vec<String> {
    v.iter().map(|s| s.to_string()).collect()
}

#[test]
fn openers_insert_their_closer() {
    let ap = AutoPairs::default();
    assert!(matches!(ap.intercept("(", false, None), PairAction::InsertCloser(')')));
    assert!(matches!(ap.intercept("(", true, None), PairAction::Allow));
    assert!(matches!(ap.intercept("ab", false, None), PairAction::Allow));
}

#[test]
fn closers_and_quotes_skip_over_themselves() {
    let ap = AutoPairs::default();
    assert!(matches!(ap.intercept(")", false, Some(')')), PairAction::SkipOver));
    assert!(matches!(ap.intercept(")", false, Some('x')), PairAction::Allow));
    assert!(matches!(ap.intercept("\"", false, Some('"')), PairAction::SkipOver));
    assert!(matches!(ap.intercept("\"", false, None), PairAction::InsertCloser('"')));
}

#[test]
fn removed_pairs_stop_pairing() {
    let mut ap = AutoPairs::default();
    ap.remove_pair('(');
    assert!(matches!(ap.intercept("(", false, None), PairAction::Allow));
    ap.add_pair('<', '>');
    assert!(matches!(ap.intercept("<", false, None), PairAction::InsertCloser('>')));
}

#[test]
fn cli_reads_flags_and_values() {
    let help = Help::new()
        .flag_full("verbose", 'v', "verbose", "Be loud")
        .arg_full("file", 'f', "file", "Input file");
    let args = lines(&["/usr/bin/kb", "--verbose", "-f", "x.txt"]);
    let r = match CliResult::from_args_with_help(&args, help) {
        Ok(r) => r,
        Err(_) => panic!("expected a parse"),
    };
    assert!(r.has_flag("verbose"));
    assert!(r.get_bool("verbose"));
    assert_eq!(r.get_value("file"), Some("x.txt"));
    assert_eq!(r.get_value_or("missing", "dflt"), "dflt");
}

#[test]
fn cli_reports_unknown_flags() {
    let help = Help::new().flag_long("quiet", "quiet", "Be quiet");
    let args = lines(&["kb", "--nope"]);
    match CliResult::from_args_with_help(&args, help) {
        Ok(_) => panic!("expected an error"),
        Err(e) => assert_eq!(e.message(), "error: unexpected argument '--nope' found"),
    }
}

#[test]
fn program_name_drops_the_directories() {
    assert_eq!(program_name(Some("/usr/bin/kb")), "kb");
    assert_eq!(program_name(Some("C:\\tools\\kb.exe")), "kb.exe");
    assert_eq!(program_name(None), "program");
}

#[test]
fn commands_read_name_positionals_and_flags() {
    let toks = vec![
        Token::Word("open".to_string()),
        Token::Word("a.txt".to_string()),
        Token::Word("--line".to_string()),
        Token::Word("3".to_string()),
        Token::Word("--force".to_string()),
    ];
    let cs = match CommandState::parse(&toks) {
        Some(cs) => cs,
        None => panic!("expected a command"),
    };
    assert_eq!(cs.name, "open");
    assert_eq!(cs.positional.len(), 1);
    assert_eq!(cs.flags.len(), 2);
    assert_eq!(cs.flags[0].0, "--force");
    assert!(cs.flags[0].1.is_none());
    assert_eq!(cs.flags[1].0, "--line");
    assert!(matches!(&cs.flags[1].1, Some(Token::Word(w)) if w == "3"));
    assert!(CommandState::parse(&[]).is_none());
    assert!(CommandState::parse(&[Token::Variable("x".to_string())]).is_none());
}

#[test]
fn debounce_waits_for_idleness_then_checks() {
    let mut d = Debounce::default();
    assert!(!d.flag());
    assert!(matches!(d.step(true, 'n'), DebounceStep::Wait));
    assert!(d.flag());
    assert!(matches!(d.step(false, 'n'), DebounceStep::Wait));
    assert!(d.debounce_time().is_some());
    assert!(matches!(d.step(false, 'n'), DebounceStep::CheckEvents));
    assert!(matches!(d.step(false, 'i'), DebounceStep::Wait));
    assert!(!d.flag());
    assert!(d.debounce_time().is_none());
}

#[test]
fn indentation_is_detected_from_the_lines() {
    assert_eq!(detect_indent_lines(&lines(&["x\n", "\ty\n"]), 4), IndentStyle::Tabs);
    assert_eq!(detect_indent_lines(&lines(&["a\n", "  b\n", "    c\n"]), 4), IndentStyle::Spaces(2));
    assert_eq!(detect_indent_lines(&lines(&["a\n", "  b\n", "c\n", "    d\n"]), 4), IndentStyle::Spaces(4));
    assert_eq!(detect_indent_lines(&lines(&["a\n", "b\n"]), 3), IndentStyle::Spaces(3));
    assert_eq!(IndentStyle::Spaces(2).tab_string(), "  ");
    assert_eq!(IndentStyle::Tabs.tab_string(), "\t");
    assert_eq!(IndentStyle::Tabs.tab_width(), 4);
}

#[test]
fn session_and_grammar_paths() {
    assert_eq!(sessions_dir("/data"), "/data/kerbin/sessions");
    assert_eq!(session_pid_path("/s", "abc"), "/s/abc.pid");
    assert_eq!(session_queue_path("/s", "abc"), "/s/abc.in");
    let mut g = GrammarManager::new();
    g.register_extension("rs", "rust");
    g.register_extension("py", "python");
    assert_eq!(g.language_for_ext("rs"), Some("rust".to_string()));
    assert_eq!(g.language_for_ext("c"), None);
    assert_eq!(g.library_path("c-sharp"), "runtime/grammars/tree-sitter-c-sharp/c_sharp.so");
    assert_eq!(g.query_path("rust"), "runtime/grammars/tree-sitter-rust/queries/highlights.scm");
    assert_eq!(language_symbol("rust"), "tree_sitter_rust\0");
}

#[test]
fn display_columns_and_bytes_convert() {
    assert_eq!(grapheme_display_width("a"), 1);
    assert_eq!(grapheme_display_width("漢"), 2);
    assert_eq!(display_col_to_byte_offset("a\tb", 5, 4), 2);
    assert_eq!(display_col_to_byte_offset("漢字x", 2, 4), 3);
    assert_eq!(byte_offset_to_display_col("漢字x", 6, 4), 4);
    assert_eq!(byte_offset_to_display_col("a\tb", 2, 4), 5);
}

#[test]
fn scrolling_follows_the_cursor() {
    assert_eq!(update_horizontal_scroll(50, 0, 20), 36);
    assert_eq!(update_horizontal_scroll(3, 10, 20), 0);
    assert_eq!(update_horizontal_scroll(7, 3, 0), 3);
    assert_eq!(update_vertical_scroll(0, 30, 10, 100), 24);
    assert_eq!(update_vertical_scroll(20, 5, 10, 100), 2);
    assert_eq!(update_vertical_scroll(4, 4, 0, 100), 4);
}

#[test]
fn word_tokens_to_strings_and_modes() {
    let ts = vec![
        Token::Word("ni".to_string()),
        Token::Variable("x".to_string()),
        Token::List(vec![Token::Word("inner".to_string())]),
        Token::Word(String::new()),
        Token::Word("v".to_string()),
    ];
    assert_eq!(tokens_to_strings(&ts), vec!["ni".to_string(), String::new(), "v".to_string()]);
    assert_eq!(tokens_to_mode_chars(&Some(ts)), vec!['n', 'v']);
    assert_eq!(tokens_to_mode_chars(&None), Vec::<char>::new());
}

#[test]
fn long_flags_keyed_by_argument_name() {
    let help = Help::new().arg_long("output_file", "output", "");
    let args = vec!["--output".to_string(), "x".to_string()];
    let r = CliResult::parse_args(&args, "p".to_string(), Some(help), "p").unwrap();
    assert_eq!(r.flag_names(), vec!["output_file"]);
    assert_eq!(r.get_value("output_file"), Some("x"));
}

#[test]
fn non_ascii_short_names_found() {
    let h = Help::new().flag_short("accent", 'é', "");
    assert_eq!(h.find_argument("é").unwrap().name, "accent");
    let args = vec!["-é".to_string()];
    let r = CliResult::parse_args(&args, "p".to_string(), Some(h), "p").unwrap();
    assert!(r.has_flag("accent"));
}

#[test]
fn help_screen_empty() {
    assert_eq!(Help::new().help_text("p", 0), "Usage: p [OPTIONS] [COMMAND]\n\n");
    let r = CliResult::parse_args(&[], "q".to_string(), None, "q").unwrap();
    assert_eq!(r.help_text(), "No help available for command: q\n");
}

#[test]
fn help_screen_full() {
    let h = Help::new()
        .description("Does x")
        .flag_full("verbose", 'v', "verbose", "Be loud")
        .arg_long("out", "out", "Output")
        .subcommand("run", "Runs", Help::new());
    let expected = format!(
        "Usage: p [OPTIONS] [COMMAND]\n\nDoes x\n\nOptions:\n  {:30} Be loud\n  {:30} Output\n\nCommands:\n  {:30} Runs\n\nUse 'p <COMMAND> --help' for more information on a specific command.\n",
        "-v, --verbose", "--out <VALUE>", "run"
    );
    assert_eq!(h.help_text("p", 0), expected);
    let indented = Help::new().help_text("p", 1);
    assert_eq!(indented, "  Usage: p [OPTIONS] [COMMAND]\n\n");
}

#[test]
fn sessions_resolve_by_id_or_name() {
    assert_eq!(name_file_session("abc.name"), Some("abc".to_string()));
    assert_eq!(name_file_session("abc.in"), None);
    assert_eq!(name_file_session(".name"), Some(String::new()));
    let named = vec![("id1".to_string(), "work\n".to_string()), ("id2".to_string(), " play ".to_string())];
    assert_eq!(resolve_session_from("play", false, &named), "id2");
    assert_eq!(resolve_session_from("play", true, &named), "play");
    assert_eq!(resolve_session_from("other", false, &named), "other");
}
