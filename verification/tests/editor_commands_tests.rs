use kerbin::auto_pairs::{AutoPairs, AutoPairsCommand, BracketPair};
use kerbin::editor_commands::{
    DebugCommand, InputCommand, Level, SplitResizeDir, StateCommand, StateNotice,
};
use kerbin::kb::{command_lines, KbLoadError};

#[test]
fn auto_pairs_command_add_replaces_and_appends() {
    let mut ap = AutoPairs::default();
    assert!(AutoPairsCommand::Add { open: '(', close: ']' }.apply(&mut ap));
    assert_eq!(ap.pairs.len(), 6);
    assert_eq!(ap.pairs[5], BracketPair { open: '(', close: ']' });
    assert_eq!(ap.pairs[0], BracketPair { open: '[', close: ']' });
}

#[test]
fn auto_pairs_command_remove() {
    let mut ap = AutoPairs::default();
    assert!(AutoPairsCommand::Remove { open: '<' }.apply(&mut ap));
    assert_eq!(ap.pairs.len(), 5);
    assert!(ap.pairs.iter().all(|p| p.open != '<'));
}

#[test]
fn repeat_count_push_digits() {
    let mut rc = String::new();
    assert!(!InputCommand::PushRepeatNumber('0').apply(&mut rc));
    assert_eq!(rc, "");
    assert!(InputCommand::PushRepeatNumber('1').apply(&mut rc));
    assert!(InputCommand::PushRepeatNumber('0').apply(&mut rc));
    assert_eq!(rc, "10");
    assert!(!InputCommand::PushRepeatNumber('x').apply(&mut rc));
    assert_eq!(rc, "10");
}

#[test]
fn repeat_count_pop() {
    let mut rc = String::from("123");
    assert!(InputCommand::PopRepeatNumber(0).apply(&mut rc));
    assert_eq!(rc, "123");
    assert!(InputCommand::PopRepeatNumber(2).apply(&mut rc));
    assert_eq!(rc, "1");
    assert!(!InputCommand::PopRepeatNumber(1).apply(&mut rc));
    assert_eq!(rc, "");
    let mut rc = String::from("12");
    assert!(!InputCommand::PopRepeatNumber(5).apply(&mut rc));
    assert_eq!(rc, "");
}

#[test]
fn quit_refused_with_unsaved_buffer() {
    let mut running = true;
    let r = StateCommand::Quit.apply(&vec![false, true], &mut running);
    assert_eq!(r, (false, StateNotice::UnsavedBuffers));
    assert!(running);
    let r = StateCommand::Quit.apply(&vec![false, false], &mut running);
    assert_eq!(r, (false, StateNotice::Nothing));
    assert!(!running);
}

#[test]
fn force_quit_and_session() {
    let mut running = true;
    let r = StateCommand::LogSessionId.apply(&vec![true], &mut running);
    assert_eq!(r, (false, StateNotice::SessionId));
    assert!(running);
    let r = StateCommand::QuitForce.apply(&vec![true], &mut running);
    assert_eq!(r, (false, StateNotice::Nothing));
    assert!(!running);
}

#[test]
fn echo_joins_words_and_picks_level() {
    let c = DebugCommand::Echo { text: vec!["hello".to_string(), "world".to_string()], level: None };
    assert_eq!(c.apply(), (Level::Medium, "hello world".to_string()));
    let c = DebugCommand::Echo { text: vec!["x".to_string()], level: Some("critical".to_string()) };
    assert_eq!(c.apply(), (Level::Critical, "x".to_string()));
    let c = DebugCommand::Echo { text: vec![], level: Some("loud".to_string()) };
    assert_eq!(c.apply(), (Level::Medium, String::new()));
    let c = DebugCommand::Echo { text: vec!["a".to_string()], level: Some("low".to_string()) };
    assert_eq!(c.apply().0, Level::Low);
    let c = DebugCommand::Echo { text: vec!["a".to_string()], level: Some("high".to_string()) };
    assert_eq!(c.apply().0, Level::High);
}

#[test]
fn split_resize_dir_from_str() {
    assert_eq!(SplitResizeDir::from_str("v"), Ok(SplitResizeDir::Vertical));
    assert_eq!(SplitResizeDir::from_str("h"), Ok(SplitResizeDir::Horizontal));
    assert_eq!(SplitResizeDir::from_str("x"), Err("expected 'v' or 'h', got 'x'".to_string()));
}

#[test]
fn kb_command_lines_skip_comments_and_blanks() {
    let lines = command_lines("  cm n  \n# comment\n\r\n\tq\r\n   #x\nlast");
    assert_eq!(lines, vec!["cm n".to_string(), "q".to_string(), "last".to_string()]);
    assert!(command_lines("").is_empty());
}

#[test]
fn kb_unrecognized_error() {
    let e = KbLoadError::unrecognized("a.kb".to_string(), "zz".to_string());
    assert_eq!(e.path, "a.kb");
    assert_eq!(e.line, "zz");
    assert_eq!(e.message, "unrecognized command");
}

#[test]
fn kb_lines_trim_unicode_whitespace() {
    assert_eq!(command_lines("\u{3000}q\u{85}\n\u{a0}\u{2009}\n"), vec!["q".to_string()]);
}
