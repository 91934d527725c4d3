use kerbin::buffer::TextBuffer;
use kerbin::command_lang::Token;
use kerbin::conditionals::{command_groups, step, CommandGroups, IfCommand, IfEvent, IfState, IfStep};
use kerbin::cursor::Cursor;
use kerbin::palette::{PaletteAction, PaletteCommand};
use kerbin::registers::{RegisterAction, RegisterCommand};

fn run_palette(cmd: PaletteCommand, input: &str, completion: Option<&str>) -> (String, bool, Option<String>) {
    let mut s = input.to_string();
    let comp = completion.map(|c| c.to_string());
    let (ok, action) = cmd.apply(&mut s, &comp);
    let exec = match action {
        PaletteAction::Execute(c) => Some(c),
        PaletteAction::Nothing => None,
    };
    (s, ok, exec)
}

#[test]
fn palette_push_appends() {
    assert_eq!(run_palette(PaletteCommand::PushPalette("rld".to_string()), "wo", None), ("world".to_string(), true, None));
}

#[test]
fn palette_pop_removes_chars_and_fails_when_emptied() {
    assert_eq!(run_palette(PaletteCommand::PopPalette(2), "héllo", None), ("hél".to_string(), true, None));
    assert_eq!(run_palette(PaletteCommand::PopPalette(0), "abc", None), ("abc".to_string(), true, None));
    assert_eq!(run_palette(PaletteCommand::PopPalette(3), "abc", None), (String::new(), false, None));
    assert_eq!(run_palette(PaletteCommand::PopPalette(9), "abc", None), (String::new(), false, None));
    assert_eq!(run_palette(PaletteCommand::PopPalette(1), "", None), (String::new(), false, None));
}

#[test]
fn palette_clear_execute_complete() {
    assert_eq!(run_palette(PaletteCommand::ClearPalette, "abc", None), (String::new(), true, None));
    assert_eq!(
        run_palette(PaletteCommand::ExecutePalette, "w --all", None),
        ("w --all".to_string(), false, Some("w --all".to_string()))
    );
    assert_eq!(run_palette(PaletteCommand::CompletePalette, "wr", Some("write")), ("write".to_string(), false, None));
    assert_eq!(run_palette(PaletteCommand::CompletePalette, "wr", None), ("wr".to_string(), false, None));
}

fn buf_with_sel(text: &str, start: usize, end: usize) -> TextBuffer<u8> {
    let mut b = TextBuffer::from_content("f.txt".to_string(), String::new(), text, 4);
    b.cursors[0] = Cursor { at_start: false, sel_start: start, sel_end: end };
    b
}

#[test]
fn copy_register_takes_selection_and_default_register() {
    let b = buf_with_sel("hello world", 0, 5);
    match RegisterCommand::CopyRegister(None).apply(&b) {
        RegisterAction::SetRegister { register, text } => {
            assert_eq!(register, 'a');
            assert_eq!(text, "hello");
        }
        _ => panic!("expected a register to be set"),
    }
    match RegisterCommand::CopyRegister(Some('q')).apply(&buf_with_sel("hello world", 6, 11)) {
        RegisterAction::SetRegister { register, text } => {
            assert_eq!(register, 'q');
            assert_eq!(text, "world");
        }
        _ => panic!("expected a register to be set"),
    }
}

#[test]
fn copy_outside_text_copies_nothing() {
    match RegisterCommand::ClipboardCopy.apply(&buf_with_sel("abc", 1, 9)) {
        RegisterAction::ClipboardSet(text) => assert_eq!(text, ""),
        _ => panic!("expected the clipboard to be set"),
    }
    match RegisterCommand::ClipboardCopy.apply(&buf_with_sel("abc", 1, 2)) {
        RegisterAction::ClipboardSet(text) => assert_eq!(text, "b"),
        _ => panic!("expected the clipboard to be set"),
    }
}

#[test]
fn paste_commands_name_register_and_extend() {
    let b = buf_with_sel("abc", 0, 0);
    assert!(matches!(
        RegisterCommand::PasteRegister(None, true).apply(&b),
        RegisterAction::PasteRegister { register: 'a', extend: true }
    ));
    assert!(matches!(
        RegisterCommand::PasteRegister(Some('z'), false).apply(&b),
        RegisterAction::PasteRegister { register: 'z', extend: false }
    ));
    assert!(matches!(RegisterCommand::ClipboardPaste(true).apply(&b), RegisterAction::ClipboardPaste { extend: true }));
}

fn w(s: &str) -> Token {
    Token::Word(s.to_string())
}

fn words(t: &[Token]) -> Vec<String> {
    t.iter()
        .map(|x| match x {
            Token::Word(s) => s.clone(),
            _ => "?".to_string(),
        })
        .collect()
}

#[test]
fn if_unwraps_a_single_list_check_and_runs_the_right_branch() {
    let cmd = IfCommand::If {
        check: vec![Token::List(vec![w("mode"), w("n")])],
        cmds: Some(vec![w("yes")]),
        else_cmds: Some(vec![w("no")]),
    };
    let (state, first) = cmd.start();
    match first {
        IfStep::Check(c) => assert_eq!(words(&c), vec!["mode", "n"]),
        _ => panic!("expected a check"),
    }
    let (state, run) = step(state, IfEvent::Checked(Some(false)));
    match run {
        IfStep::Run(c) => assert_eq!(words(&c), vec!["no"]),
        _ => panic!("expected the else commands"),
    }
    let (state, fin) = step(state, IfEvent::Ran(true));
    assert!(matches!(fin, IfStep::Finish(true)));
    assert!(matches!(state, IfState::Done));
}

#[test]
fn if_without_branch_succeeds_and_bad_check_fails() {
    let cmd = IfCommand::If { check: vec![w("a"), w("b")], cmds: None, else_cmds: None };
    let (state, first) = cmd.start();
    match first {
        IfStep::Check(c) => assert_eq!(words(&c), vec!["a", "b"]),
        _ => panic!("expected a check"),
    }
    let (_, fin) = step(state, IfEvent::Checked(Some(true)));
    assert!(matches!(fin, IfStep::Finish(true)));
    let cmd = IfCommand::If { check: vec![w("a")], cmds: Some(vec![w("x")]), else_cmds: None };
    let (state, _) = cmd.start();
    let (_, fin) = step(state, IfEvent::Checked(None));
    assert!(matches!(fin, IfStep::Finish(false)));
}

#[test]
fn then_stops_at_first_failure() {
    let (state, first) = IfCommand::Then { first: vec![w("a")], then: vec![w("b")] }.start();
    assert!(matches!(first, IfStep::Run(_)));
    let (_, fin) = step(state, IfEvent::Ran(false));
    assert!(matches!(fin, IfStep::Finish(false)));
    let (state, _) = IfCommand::Then { first: vec![w("a")], then: vec![w("b")] }.start();
    let (state, next) = step(state, IfEvent::Ran(true));
    match next {
        IfStep::Run(c) => assert_eq!(words(&c), vec!["b"]),
        _ => panic!("expected the second commands"),
    }
    let (_, fin) = step(state, IfEvent::Ran(false));
    assert!(matches!(fin, IfStep::Finish(false)));
}

#[test]
fn command_groups_split_lists() {
    match command_groups(vec![Token::List(vec![w("a")]), Token::List(vec![w("b"), w("c")])]) {
        CommandGroups::PerList(ls) => {
            assert_eq!(ls.len(), 2);
            assert_eq!(words(&ls[1]), vec!["b", "c"]);
        }
        _ => panic!("expected one command per list"),
    }
    match command_groups(vec![w("a"), Token::List(vec![w("b")])]) {
        CommandGroups::Single(t) => assert_eq!(t.len(), 2),
        _ => panic!("expected one command"),
    }
    assert!(matches!(command_groups(vec![]), CommandGroups::PerList(ls) if ls.is_empty()));
}
