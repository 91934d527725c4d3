use kerbin::modes::{ModeCommand, ModeStack};

#[test]
fn mode_stack_commands() {
    let mut m = ModeStack::new();
    assert_eq!(m.get_mode(), 'n');
    assert!(ModeCommand::PushMode('i').apply(&mut m));
    assert_eq!(m.get_mode(), 'i');
    assert!(!ModeCommand::PushMode('n').apply(&mut m));
    assert_eq!(m.0, vec!['n', 'i']);
    assert!(m.mode_on_stack('i'));
    assert!(ModeCommand::PopMode.apply(&mut m));
    assert!(ModeCommand::PopMode.apply(&mut m));
    assert_eq!(m.0, vec!['n']);
    assert!(ModeCommand::ChangeMode('v').apply(&mut m));
    assert_eq!(m.0, vec!['v']);
    assert!(!m.mode_on_stack('n'));
}
