//! The `if` and `then` commands. Judging a check and running commands are the
//! editor's work, so the commands are stepped: each step says what to do next, and
//! the outcome of that comes back as the next event.

use vstd::prelude::*;
use crate::command_lang::Token;

verus! {

/// A command that runs other commands depending on a check, or one after another.
pub enum IfCommand {
    /// Runs `cmds` when the check passes and `else_cmds` when it fails
    If { check: Vec<Token>, cmds: Option<Vec<Token>>, else_cmds: Option<Vec<Token>> },
    /// Runs `first`, then `then` when `first` succeeded
    Then { first: Vec<Token>, then: Vec<Token> },
}

/// What to do next.
pub enum IfStep {
    /// Judge this check, and report `IfEvent::Checked`
    Check(Vec<Token>),
    /// Run these commands, and report `IfEvent::Ran`
    Run(Vec<Token>),
    /// The command is done, with this result
    Finish(bool),
}

/// Where a stepped command stands.
pub enum IfState {
    /// An `if` waits for its check
    AwaitCheck { cmds: Option<Vec<Token>>, else_cmds: Option<Vec<Token>> },
    /// A `then` waits for its first commands
    AwaitFirst { then: Vec<Token> },
    /// Waits for the commands whose result is the command's result
    AwaitLast,
    /// Finished
    Done,
}

/// What came of the last step: a check's result (`None` when the check does not
/// parse), or whether the commands run all succeeded.
pub enum IfEvent {
    Checked(Option<bool>),
    Ran(bool),
}

/// The check an `if` judges: the items of its one bracketed list, or its tokens as
/// they are.
pub open spec fn check_tokens(check: Seq<Token>) -> Seq<Token> {
    if check.len() == 1 && check[0] is List {
        check[0]->List_0@
    } else {
        check
    }
}

/// The step that runs `cmds`, when there are any, and finishes otherwise.
pub open spec fn run_or_finish(cmds: Option<Vec<Token>>) -> IfStep {
    match cmds {
        Some(c) => IfStep::Run(c),
        None => IfStep::Finish(true),
    }
}

/// The state after running `cmds`, when there are any.
pub open spec fn run_or_done(cmds: Option<Vec<Token>>) -> IfState {
    match cmds {
        Some(_) => IfState::AwaitLast,
        None => IfState::Done,
    }
}

/// The next state and step, given the state and what came of the last step.
pub open spec fn next(state: IfState, event: IfEvent) -> (IfState, IfStep) {
    match (state, event) {
        (IfState::AwaitCheck { cmds, else_cmds }, IfEvent::Checked(Some(true))) => (run_or_done(cmds), run_or_finish(cmds)),
        (IfState::AwaitCheck { cmds, else_cmds }, IfEvent::Checked(Some(false))) => (
            run_or_done(else_cmds),
            run_or_finish(else_cmds),
        ),
        (IfState::AwaitFirst { then }, IfEvent::Ran(true)) => (IfState::AwaitLast, IfStep::Run(then)),
        (IfState::AwaitLast, IfEvent::Ran(ok)) => (IfState::Done, IfStep::Finish(ok)),
        _ => (IfState::Done, IfStep::Finish(false)),
    }
}

fn run_or_finish_exec(cmds: Option<Vec<Token>>) -> (r: (IfState, IfStep))
    ensures
        r == (run_or_done(cmds), run_or_finish(cmds)),
{
    match cmds {
        Some(c) => (IfState::AwaitLast, IfStep::Run(c)),
        None => (IfState::Done, IfStep::Finish(true)),
    }
}

impl IfCommand {
    /// The first state and step: an `if` judges its check, a `then` runs `first`.
    pub fn start(self) -> (r: (IfState, IfStep))
        ensures
            match self {
                IfCommand::If { check, cmds, else_cmds } => r.0 == (IfState::AwaitCheck { cmds, else_cmds })
                    && (r.1 matches IfStep::Check(c) && c@ == check_tokens(check@)),
                IfCommand::Then { first, then } => r == (IfState::AwaitFirst { then }, IfStep::Run(first)),
            },
    {
        match self {
            IfCommand::If { check, cmds, else_cmds } => {
                let mut check = check;
                let single_list = check.len() == 1 && match &check[0] {
                    Token::List(_) => true,
                    _ => false,
                };
                let tokens = if single_list {
                    match check.pop() {
                        Some(Token::List(items)) => items,
                        _ => Vec::new(),
                    }
                } else {
                    check
                };
                (IfState::AwaitCheck { cmds, else_cmds }, IfStep::Check(tokens))
            },
            IfCommand::Then { first, then } => (IfState::AwaitFirst { then }, IfStep::Run(first)),
        }
    }
}

/// The next state and step (see `next`): a failed or unparsable check, or failed
/// commands, finish the command with `false`.
pub fn step(state: IfState, event: IfEvent) -> (r: (IfState, IfStep))
    ensures
        r == next(state, event),
{
    match (state, event) {
        (IfState::AwaitCheck { cmds, else_cmds }, IfEvent::Checked(Some(passed))) => {
            if passed {
                run_or_finish_exec(cmds)
            } else {
                run_or_finish_exec(else_cmds)
            }
        },
        (IfState::AwaitFirst { then }, IfEvent::Ran(ok)) => {
            if ok {
                (IfState::AwaitLast, IfStep::Run(then))
            } else {
                (IfState::Done, IfStep::Finish(false))
            }
        },
        (IfState::AwaitLast, IfEvent::Ran(ok)) => (IfState::Done, IfStep::Finish(ok)),
        _ => (IfState::Done, IfStep::Finish(false)),
    }
}

/// How commands given as tokens run: when every token is a bracketed list, each list
/// is a command of its own; otherwise the tokens are one command.
pub enum CommandGroups {
    /// The lists' items, one command each, in order
    PerList(Vec<Vec<Token>>),
    /// One command
    Single(Vec<Token>),
}

/// Every token is a bracketed list.
pub open spec fn all_lists(ts: Seq<Token>) -> bool {
    forall|i: int| 0 <= i < ts.len() ==> #[trigger] ts[i] is List
}

/// Splits commands given as tokens into the commands to run (see `CommandGroups`).
pub fn command_groups(tokens: Vec<Token>) -> (r: CommandGroups)
    ensures
        all_lists(tokens@) ==> (r matches CommandGroups::PerList(ls) && ls@.len() == tokens@.len() && forall|
            i: int,
        | 0 <= i < ls@.len() ==> #[trigger] ls@[i] == tokens@[i]->List_0),
        !all_lists(tokens@) ==> r == CommandGroups::Single(tokens),
{
    let n = tokens.len();
    let mut k: usize = 0;
    while k < n
        invariant
            k <= n,
            n == tokens@.len(),
            forall|i: int| 0 <= i < k ==> #[trigger] tokens@[i] is List,
        decreases n - k,
    {
        match &tokens[k] {
            Token::List(_) => {},
            _ => {
                return CommandGroups::Single(tokens);
            },
        }
        k += 1;
    }
    let ghost orig = tokens@;
    let mut rest = tokens;
    let mut out: Vec<Vec<Token>> = Vec::new();
    while rest.len() > 0
        invariant
            all_lists(orig),
            out@.len() + rest@.len() == orig.len(),
            rest@ == orig.skip(out@.len() as int),
            forall|i: int| 0 <= i < out@.len() ==> #[trigger] out@[i] == orig[i]->List_0,
        decreases rest@.len(),
    {
        let ghost j = out@.len() as int;
        let t = rest.remove(0);
        assert(t == orig[j]);
        assert(rest@ =~= orig.skip(j + 1));
        match t {
            Token::List(items) => {
                out.push(items);
            },
            _ => {},
        }
    }
    CommandGroups::PerList(out)
}

} // verus!
