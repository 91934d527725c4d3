//! The input dialogue: a modal prompt whose input, once submitted, is handed as a
//! template variable to the commands it was opened with.
//!
//! Each command changes the dialogue's state and answers with the action the editor
//! performs around it (a mode change, running commands, setting a template).

use vstd::prelude::*;
use crate::command_lang::{token_copy_at, Token};
use crate::text::{append_str, chars_of, string_of};

verus! {

/// What the input of a dialogue must be.
#[derive(Clone, Copy, Debug, PartialEq, Eq, Structural)]
pub enum InputKind {
    /// Any text
    Str,
    /// A valid command
    Cmd,
    /// A valid list of commands
    Commands,
}

/// The input kind a name stands for: `cmd`, `commands`, and any text otherwise.
pub open spec fn input_kind_named(s: Seq<char>) -> InputKind {
    if s == seq!['c', 'm', 'd'] {
        InputKind::Cmd
    } else if s == seq!['c', 'o', 'm', 'm', 'a', 'n', 'd', 's'] {
        InputKind::Commands
    } else {
        InputKind::Str
    }
}

/// The state of the dialogue.
pub struct DialogueState {
    pub active: bool,
    pub title: String,
    pub desc: String,
    pub input: String,
    pub input_kind: InputKind,
    /// The commands run on submit, each a list of tokens
    pub commands: Vec<Token>,
    /// The commands run on each change of the input
    pub on_change: Vec<Token>,
    /// The template variable that holds the input for those commands
    pub var_name: String,
    pub input_valid: bool,
}

impl DialogueState {
    /// A closed dialogue with nothing in it.
    pub fn new() -> (d: DialogueState)
        ensures
            !d.active,
            d.title@.len() == 0,
            d.desc@.len() == 0,
            d.input@.len() == 0,
            d.input_kind == InputKind::Str,
            d.commands@.len() == 0,
            d.on_change@.len() == 0,
            d.var_name@.len() == 0,
            !d.input_valid,
    {
        DialogueState {
            active: false,
            title: String::new(),
            desc: String::new(),
            input: String::new(),
            input_kind: InputKind::Str,
            commands: Vec::new(),
            on_change: Vec::new(),
            var_name: String::new(),
            input_valid: false,
        }
    }
}

/// The commands on the dialogue.
pub enum DialogueCommand {
    /// Opens the dialogue with a title, a description, the kind of input it takes
    /// (`str`, `cmd` or `commands`), the template variable for the input, the commands
    /// to run on submit and those to run on each change.
    Dialogue {
        title: String,
        desc: Option<String>,
        input_kind: String,
        var: String,
        commands: Vec<Token>,
        on_change: Option<Vec<Token>>,
    },
    /// Appends text to the input.
    DialoguePush(String),
    /// Removes the last N characters of the input.
    DialoguePop(usize),
    /// Submits the input.
    DialogueSubmit,
    /// Closes the dialogue without running anything.
    DialogueCancel,
}

/// What the editor does after a dialogue command.
pub enum DialogueAction {
    Nothing,
    /// Enter the dialogue mode (`d`).
    Opened,
    /// Run the on-change commands with the variable set to the current input.
    Changed,
    /// Leave the dialogue mode, set the variable to `input`, send the submit commands,
    /// then remove the variable.
    Submitted { input: String },
    /// Leave the dialogue mode and remove the variable.
    Cancelled,
}

/// `cs` is a copy of the tokens `ts`.
pub open spec fn tokens_copied(ts: Seq<Token>, cs: Seq<Token>) -> bool {
    ts.len() == cs.len() && forall|j: int| 0 <= j < ts.len() ==> #[trigger] token_copy_at(ts, cs, j)
}

/// A copy of the tokens.
fn copy_tokens(ts: &Vec<Token>) -> (r: Vec<Token>)
    ensures
        tokens_copied(ts@, r@),
{
    let mut r: Vec<Token> = Vec::new();
    let mut i: usize = 0;
    while i < ts.len()
        invariant
            i <= ts@.len(),
            r@.len() == i,
            forall|j: int| 0 <= j < i ==> #[trigger] token_copy_at(ts@, r@, j),
        decreases ts@.len() - i,
    {
        let t = ts[i].duplicate();
        let ghost old_r = r@;
        r.push(t);
        assert forall|j: int| 0 <= j < i + 1 implies #[trigger] token_copy_at(ts@, r@, j) by {
            if j < i {
                assert(token_copy_at(ts@, old_r, j));
                assert(r@[j] == old_r[j]);
            }
        }
        i += 1;
    }
    r
}

/// The input with up to `n` chars taken off its end.
pub open spec fn popped(input: Seq<char>, n: int) -> Seq<char> {
    if n < input.len() {
        input.take(input.len() - n)
    } else {
        Seq::empty()
    }
}

impl DialogueCommand {
    /// Applies the command to the dialogue `d`; returns whether it succeeded and what
    /// the editor does next.
    ///
    /// - Opening fills in the dialogue, with an empty and valid input, and enters the
    ///   dialogue mode.
    /// - Pushing appends to the input of an open dialogue and runs the on-change
    ///   commands.
    /// - Popping takes chars off the input of an open dialogue one by one; it fails
    ///   once the input is empty (having emptied it), and otherwise runs the on-change
    ///   commands.
    /// - Submitting fails on an empty input, and on an invalid one unless any text is
    ///   accepted; otherwise it closes the dialogue, clears the input and hands it to
    ///   the submit commands.
    /// - Cancelling closes an open dialogue and clears its input.
    pub fn apply(&self, d: &mut DialogueState) -> (r: (bool, DialogueAction))
        ensures
            match self {
                DialogueCommand::Dialogue { title, desc, input_kind, var, commands, on_change } => {
                    &&& r.0 && r.1 is Opened
                    &&& final(d).active
                    &&& final(d).title@ == title@
                    &&& final(d).desc@ == match desc {
                        Some(x) => x@,
                        None => Seq::empty(),
                    }
                    &&& final(d).input_kind == input_kind_named(input_kind@)
                    &&& final(d).var_name@ == var@
                    &&& tokens_copied(commands@, final(d).commands@)
                    &&& match on_change {
                        Some(oc) => tokens_copied(oc@, final(d).on_change@),
                        None => final(d).on_change@.len() == 0,
                    }
                    &&& final(d).input@.len() == 0
                    &&& final(d).input_valid
                },
                DialogueCommand::DialoguePush(content) => if old(d).active {
                    &&& r.0 && r.1 is Changed
                    &&& final(d).input@ == old(d).input@ + content@
                    &&& final(d).active
                    &&& same_settings(&*old(d), &*final(d))
                } else {
                    !r.0 && r.1 is Nothing && final(d).input@ == old(d).input@ && !final(d).active
                        && same_settings(&*old(d), &*final(d))
                },
                DialogueCommand::DialoguePop(n) => if old(d).active {
                    &&& r.0 == (*n == 0 || *n < old(d).input@.len())
                    &&& final(d).input@ == popped(old(d).input@, *n as int)
                    &&& (if r.0 {
                        r.1 is Changed
                    } else {
                        r.1 is Nothing
                    })
                    &&& final(d).active
                    &&& same_settings(&*old(d), &*final(d))
                } else {
                    !r.0 && r.1 is Nothing && final(d).input@ == old(d).input@ && !final(d).active
                        && same_settings(&*old(d), &*final(d))
                },
                DialogueCommand::DialogueSubmit => if old(d).input@.len() == 0 || (old(
                    d,
                ).input_kind != InputKind::Str && !old(d).input_valid) {
                    !r.0 && r.1 is Nothing && final(d).input@ == old(d).input@ && final(d).active == old(
                        d,
                    ).active && same_settings(&*old(d), &*final(d))
                } else {
                    &&& r.0
                    &&& r.1 matches DialogueAction::Submitted { input } && input@ == old(d).input@
                    &&& !final(d).active
                    &&& final(d).input@.len() == 0
                    &&& same_settings(&*old(d), &*final(d))
                },
                DialogueCommand::DialogueCancel => if old(d).active {
                    r.0 && r.1 is Cancelled && !final(d).active && final(d).input@.len() == 0 && same_settings(
                        &*old(d),
                        &*final(d),
                    )
                } else {
                    !r.0 && r.1 is Nothing && final(d).input@ == old(d).input@ && !final(d).active
                        && same_settings(&*old(d), &*final(d))
                },
            },
    {
        match self {
            DialogueCommand::Dialogue { title, desc, input_kind, var, commands, on_change } => {
                let kc = chars_of(input_kind.as_str());
                let cmd = vec!['c', 'm', 'd'];
                let cmds = vec!['c', 'o', 'm', 'm', 'a', 'n', 'd', 's'];
                assert(cmd@ =~= seq!['c', 'm', 'd'] && cmds@ =~= seq!['c', 'o', 'm', 'm', 'a', 'n', 'd', 's']);
                let ik = if crate::text::chars_eq(kc.as_slice(), cmd.as_slice()) {
                    InputKind::Cmd
                } else if crate::text::chars_eq(kc.as_slice(), cmds.as_slice()) {
                    InputKind::Commands
                } else {
                    InputKind::Str
                };
                d.active = true;
                d.title = title.clone();
                d.desc = match desc {
                    Some(x) => x.clone(),
                    None => String::new(),
                };
                d.input_kind = ik;
                d.var_name = var.clone();
                d.commands = copy_tokens(commands);
                d.on_change = match on_change {
                    Some(oc) => copy_tokens(oc),
                    None => Vec::new(),
                };
                d.input = String::new();
                d.input_valid = true;
                (true, DialogueAction::Opened)
            },
            DialogueCommand::DialoguePush(content) => {
                if !d.active {
                    return (false, DialogueAction::Nothing);
                }
                append_str(&mut d.input, content.as_str());
                (true, DialogueAction::Changed)
            },
            DialogueCommand::DialoguePop(n) => {
                if !d.active {
                    return (false, DialogueAction::Nothing);
                }
                let n = *n;
                if n == 0 {
                    return (true, DialogueAction::Changed);
                }
                let cs = chars_of(d.input.as_str());
                if n < cs.len() {
                    let keep = cs.len() - n;
                    let mut kept: Vec<char> = Vec::new();
                    let mut i: usize = 0;
                    while i < keep
                        invariant
                            keep <= cs@.len(),
                            i <= keep,
                            kept@ == cs@.take(i as int),
                        decreases keep - i,
                    {
                        kept.push(cs[i]);
                        assert(kept@ =~= cs@.take(i + 1));
                        i += 1;
                    }
                    d.input = string_of(kept.as_slice());
                    (true, DialogueAction::Changed)
                } else {
                    d.input = String::new();
                    (false, DialogueAction::Nothing)
                }
            },
            DialogueCommand::DialogueSubmit => {
                if d.input.as_str().is_empty() {
                    return (false, DialogueAction::Nothing);
                }
                let valid_needed = match d.input_kind {
                    InputKind::Str => false,
                    _ => true,
                };
                if valid_needed && !d.input_valid {
                    return (false, DialogueAction::Nothing);
                }
                let input = d.input.clone();
                d.input = String::new();
                d.active = false;
                (true, DialogueAction::Submitted { input })
            },
            DialogueCommand::DialogueCancel => {
                if !d.active {
                    return (false, DialogueAction::Nothing);
                }
                d.active = false;
                d.input = String::new();
                (true, DialogueAction::Cancelled)
            },
        }
    }
}

/// What no command but opening changes: the title, description, kind, commands,
/// variable and validity.
pub open spec fn same_settings(a: &DialogueState, b: &DialogueState) -> bool {
    &&& a.title == b.title
    &&& a.desc == b.desc
    &&& a.input_kind == b.input_kind
    &&& a.commands == b.commands
    &&& a.on_change == b.on_change
    &&& a.var_name == b.var_name
    &&& a.input_valid == b.input_valid
}

} // verus!
