use kerbin::command_lang::Token;
use kerbin::dialogue::{DialogueAction, DialogueCommand, DialogueState, InputKind};

fn open(kind: &str) -> DialogueState {
    let mut d = DialogueState::new();
    let c = DialogueCommand::Dialogue {
        title: "Name".to_string(),
        desc: None,
        input_kind: kind.to_string(),
        var: "name".to_string(),
        commands: vec![Token::List(vec![Token::Word("echo".to_string())])],
        on_change: None,
    };
    let (ok, act) = c.apply(&mut d);
    assert!(ok && matches!(act, DialogueAction::Opened));
    d
}

#[test]
fn dialogue_opens_with_settings() {
    let d = open("cmd");
    assert!(d.active && d.input_valid);
    assert_eq!(d.title, "Name");
    assert_eq!(d.desc, "");
    assert_eq!(d.input_kind, InputKind::Cmd);
    assert_eq!(d.var_name, "name");
    assert_eq!(d.commands.len(), 1);
    assert!(d.on_change.is_empty());
    assert_eq!(open("commands").input_kind, InputKind::Commands);
    assert_eq!(open("anything").input_kind, InputKind::Str);
}

#[test]
fn dialogue_push_and_pop() {
    let mut d = open("str");
    assert!(matches!(DialogueCommand::DialoguePush("hello".to_string()).apply(&mut d), (true, DialogueAction::Changed)));
    assert!(matches!(DialogueCommand::DialoguePop(2).apply(&mut d), (true, DialogueAction::Changed)));
    assert_eq!(d.input, "hel");
    assert!(matches!(DialogueCommand::DialoguePop(3).apply(&mut d), (false, DialogueAction::Nothing)));
    assert_eq!(d.input, "");
    let mut closed = DialogueState::new();
    assert!(!DialogueCommand::DialoguePush("x".to_string()).apply(&mut closed).0);
    assert_eq!(closed.input, "");
}

#[test]
fn dialogue_submit_and_cancel() {
    let mut d = open("str");
    assert!(!DialogueCommand::DialogueSubmit.apply(&mut d).0);
    DialogueCommand::DialoguePush("ok".to_string()).apply(&mut d);
    match DialogueCommand::DialogueSubmit.apply(&mut d) {
        (true, DialogueAction::Submitted { input }) => assert_eq!(input, "ok"),
        _ => panic!("submit failed"),
    }
    assert!(!d.active && d.input.is_empty());

    let mut d = open("cmd");
    d.input_valid = false;
    DialogueCommand::DialoguePush("bad".to_string()).apply(&mut d);
    assert!(!DialogueCommand::DialogueSubmit.apply(&mut d).0);
    assert!(matches!(DialogueCommand::DialogueCancel.apply(&mut d), (true, DialogueAction::Cancelled)));
    assert!(!d.active && d.input.is_empty());
    assert!(!DialogueCommand::DialogueCancel.apply(&mut d).0);
}
