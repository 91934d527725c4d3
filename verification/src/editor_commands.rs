//! Editor-wide commands: repeat counts, quitting, echoing and the resize axis.
//!
//! Each command is applied to the plain piece of editor state it reads and changes;
//! what it asks to be reported comes back as a value for the caller to log.

use vstd::prelude::*;
use crate::text::{chars_of, string_of, owned, append_str, chars_eq};

verus! {

/// How loud a reported message is.
#[derive(Clone, Copy, Debug, PartialEq, Eq, Structural)]
pub enum Level {
    Low,
    Medium,
    High,
    Critical,
}

/// Whether `c` is one of `0` to `9`.
pub open spec fn is_ascii_digit(c: char) -> bool {
    '0' <= c <= '9'
}

/// The commands that edit the pending repeat count, a string of digits.
#[derive(Clone, Copy, Debug)]
pub enum InputCommand {
    /// `p_rep`: appends a digit to the repeat count.
    PushRepeatNumber(char),
    /// `r_rep`: takes that many digits off the end of the repeat count.
    PopRepeatNumber(usize),
}

impl InputCommand {
    /// Applies the command to the repeat count `rc`. Pushing refuses anything but a
    /// digit, and a `0` as the first digit. Popping stops, and fails, once the count is
    /// empty; popping nothing succeeds.
    pub fn apply(&self, rc: &mut String) -> (ok: bool)
        ensures
            match *self {
                InputCommand::PushRepeatNumber(c) => {
                    &&& ok == (is_ascii_digit(c) && !(old(rc)@.len() == 0 && c == '0'))
                    &&& final(rc)@ == if ok {
                        old(rc)@.push(c)
                    } else {
                        old(rc)@
                    }
                },
                InputCommand::PopRepeatNumber(n) => {
                    &&& ok == (n == 0 || n < old(rc)@.len())
                    &&& final(rc)@ == if n < old(rc)@.len() {
                        old(rc)@.take(old(rc)@.len() - n)
                    } else {
                        Seq::empty()
                    }
                },
            },
    {
        match *self {
            InputCommand::PushRepeatNumber(c) => {
                if !('0' <= c && c <= '9') {
                    return false;
                }
                if rc.as_str().is_empty() && c == '0' {
                    return false;
                }
                crate::text::push_char(rc, c);
                true
            },
            InputCommand::PopRepeatNumber(n) => {
                if n == 0 {
                    return true;
                }
                let cs = chars_of(rc.as_str());
                if n < cs.len() {
                    let keep = cs.len() - n;
                    let mut kept: Vec<char> = Vec::new();
                    let mut i: usize = 0;
                    while i < keep
                        invariant
                            keep <= cs@.len(),
                            i <= keep,
                            kept@ == cs@.take(i as int),
                        decreases keep - i,
                    {
                        kept.push(cs[i]);
                        assert(kept@ =~= cs@.take(i + 1));
                        i += 1;
                    }
                    *rc = string_of(kept.as_slice());
                    true
                } else {
                    *rc = String::new();
                    false
                }
            },
        }
    }
}

/// What a state command asks to be reported.
#[derive(Clone, Copy, Debug, PartialEq, Eq, Structural)]
pub enum StateNotice {
    Nothing,
    /// Quitting was refused: a buffer has unsaved changes.
    UnsavedBuffers,
    /// The session id is to be shown.
    SessionId,
}

/// The commands on the editor as a whole.
#[derive(Clone, Copy, Debug)]
pub enum StateCommand {
    /// `q`: quits, unless a buffer has unsaved changes.
    Quit,
    /// `quit!` / `q!`: quits, unsaved changes or not.
    QuitForce,
    /// `log_session`: shows the session id.
    LogSessionId,
}

/// Whether any of `flags` is set.
fn any_set(flags: &Vec<bool>) -> (r: bool)
    ensures
        r == flags@.contains(true),
{
    let mut i: usize = 0;
    while i < flags.len()
        invariant
            i <= flags@.len(),
            forall|j: int| 0 <= j < i ==> !flags@[j],
        decreases flags@.len() - i,
    {
        if flags[i] {
            assert(flags@[i as int]);
            return true;
        }
        i += 1;
    }
    false
}

impl StateCommand {
    /// Applies the command given the buffers' dirty flags; `running` is whether the
    /// editor keeps running. The first part of the result is always `false`: these
    /// commands are never repeated.
    pub fn apply(&self, dirty: &Vec<bool>, running: &mut bool) -> (r: (bool, StateNotice))
        ensures
            !r.0,
            match *self {
                StateCommand::Quit => if dirty@.contains(true) {
                    *final(running) == *old(running) && r.1 == StateNotice::UnsavedBuffers
                } else {
                    !*final(running) && r.1 == StateNotice::Nothing
                },
                StateCommand::QuitForce => !*final(running) && r.1 == StateNotice::Nothing,
                StateCommand::LogSessionId => *final(running) == *old(running) && r.1
                    == StateNotice::SessionId,
            },
    {
        match *self {
            StateCommand::Quit => {
                if any_set(dirty) {
                    (false, StateNotice::UnsavedBuffers)
                } else {
                    *running = false;
                    (false, StateNotice::Nothing)
                }
            },
            StateCommand::QuitForce => {
                *running = false;
                (false, StateNotice::Nothing)
            },
            StateCommand::LogSessionId => (false, StateNotice::SessionId),
        }
    }
}

/// The words of `ws`, each followed by a space but the last.
pub open spec fn join_spaced(ws: Seq<Seq<char>>) -> Seq<char>
    decreases ws.len(),
{
    if ws.len() == 0 {
        Seq::empty()
    } else if ws.len() == 1 {
        ws[0]
    } else {
        join_spaced(ws.drop_last()) + seq![' '] + ws.last()
    }
}

/// The level a level name stands for: `low`, `medium`, `high` or `critical`, and
/// medium for anything else.
pub open spec fn level_named(name: Seq<char>) -> Level {
    if name == seq!['l', 'o', 'w'] {
        Level::Low
    } else if name == seq!['h', 'i', 'g', 'h'] {
        Level::High
    } else if name == seq!['c', 'r', 'i', 't', 'i', 'c', 'a', 'l'] {
        Level::Critical
    } else {
        Level::Medium
    }
}

/// `echo`: shows text as a message.
pub enum DebugCommand {
    /// The words of the text, and the level's name (medium when absent).
    Echo { text: Vec<String>, level: Option<String> },
}

impl DebugCommand {
    /// The message to show and its level: the words joined by single spaces.
    pub fn apply(&self) -> (r: (Level, String))
        ensures
            match self {
                DebugCommand::Echo { text, level } => {
                    &&& r.1@ == join_spaced(text@.map_values(|w: String| w@))
                    &&& r.0 == match level {
                        Some(l) => level_named(l@),
                        None => Level::Medium,
                    }
                },
            },
    {
        match self {
            DebugCommand::Echo { text, level } => {
                let ghost ws = text@.map_values(|w: String| w@);
                let mut msg = String::new();
                let mut i: usize = 0;
                while i < text.len()
                    invariant
                        i <= text@.len(),
                        ws == text@.map_values(|w: String| w@),
                        msg@ == join_spaced(ws.take(i as int)),
                    decreases text@.len() - i,
                {
                    if i > 0 {
                        crate::text::push_char(&mut msg, ' ');
                    }
                    append_str(&mut msg, text[i].as_str());
                    proof {
                        let t = ws.take(i + 1);
                        assert(t.drop_last() =~= ws.take(i as int));
                        assert(t.last() == text@[i as int]@);
                        if i == 0 {
                            assert(msg@ =~= t[0]);
                        } else {
                            assert(msg@ =~= join_spaced(t.drop_last()) + seq![' '] + t.last());
                        }
                    }
                    i += 1;
                }
                assert(ws.take(text@.len() as int) =~= ws);
                let lv = match level {
                    Some(l) => {
                        let cs = chars_of(l.as_str());
                        let low = vec!['l', 'o', 'w'];
                        let high = vec!['h', 'i', 'g', 'h'];
                        let crit = vec!['c', 'r', 'i', 't', 'i', 'c', 'a', 'l'];
                        assert(low@ =~= seq!['l', 'o', 'w'] && high@ =~= seq!['h', 'i', 'g', 'h']
                            && crit@ =~= seq!['c', 'r', 'i', 't', 'i', 'c', 'a', 'l']);
                        if chars_eq(cs.as_slice(), low.as_slice()) {
                            Level::Low
                        } else if chars_eq(cs.as_slice(), high.as_slice()) {
                            Level::High
                        } else if chars_eq(cs.as_slice(), crit.as_slice()) {
                            Level::Critical
                        } else {
                            Level::Medium
                        }
                    },
                    None => Level::Medium,
                };
                (lv, msg)
            },
        }
    }
}

/// The axis a split is resized along.
#[derive(Clone, Copy, Debug, PartialEq, Eq, Structural)]
pub enum SplitResizeDir {
    Vertical,
    Horizontal,
}

impl SplitResizeDir {
    /// Reads `v` (vertical) or `h` (horizontal); anything else is refused with a
    /// message that quotes it.
    pub fn from_str(s: &str) -> (r: Result<SplitResizeDir, String>)
        ensures
            s@ == seq!['v'] ==> r == Ok::<SplitResizeDir, String>(SplitResizeDir::Vertical),
            s@ == seq!['h'] ==> r == Ok::<SplitResizeDir, String>(SplitResizeDir::Horizontal),
            s@ != seq!['v'] && s@ != seq!['h'] ==> (r matches Err(m) && m@ == "expected 'v' or 'h', got '"@
                + s@ + "'"@),
    {
        let cs = chars_of(s);
        let v = vec!['v'];
        let h = vec!['h'];
        assert(v@ =~= seq!['v'] && h@ =~= seq!['h']);
        if chars_eq(cs.as_slice(), v.as_slice()) {
            Ok(SplitResizeDir::Vertical)
        } else if chars_eq(cs.as_slice(), h.as_slice()) {
            Ok(SplitResizeDir::Horizontal)
        } else {
            let mut m = owned("expected 'v' or 'h', got '");
            append_str(&mut m, s);
            append_str(&mut m, "'");
            Err(m)
        }
    }
}

} // verus!
