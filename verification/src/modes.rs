//! The stack of editor modes (`n` for normal, `i` for insert, ...) and the commands
//! that change it.

use vstd::prelude::*;

verus! {

/// The modes on the stack, the bottom first; the last one is the current mode.
pub struct ModeStack(pub Vec<char>);

impl ModeStack {
    /// The stack holding only the normal mode, `n`.
    pub fn new() -> (m: ModeStack)
        ensures
            m.0@ == seq!['n'],
    {
        ModeStack(vec!['n'])
    }

    /// The current mode: the top of the stack (`n` on an empty stack).
    pub fn get_mode(&self) -> (c: char)
        ensures
            c == if self.0@.len() > 0 {
                self.0@.last()
            } else {
                'n'
            },
    {
        if self.0.len() > 0 {
            self.0[self.0.len() - 1]
        } else {
            'n'
        }
    }

    /// Whether `mode` is on the stack.
    pub fn mode_on_stack(&self, mode: char) -> (r: bool)
        ensures
            r == self.0@.contains(mode),
    {
        let mut i: usize = 0;
        while i < self.0.len()
            invariant
                i <= self.0@.len(),
                forall|j: int| 0 <= j < i ==> self.0@[j] != mode,
            decreases self.0@.len() - i,
        {
            if self.0[i] == mode {
                assert(self.0@[i as int] == mode);
                return true;
            }
            i += 1;
        }
        false
    }
}

/// The commands on the mode stack.
#[derive(Clone, Copy, Debug)]
pub enum ModeCommand {
    /// `cm`: clears the stack and sets it to the given mode.
    ChangeMode(char),
    /// `pm`: pushes a mode that is not on the stack yet.
    PushMode(char),
    /// `rm`: pops the current mode, never the base one.
    PopMode,
}

impl ModeCommand {
    /// Applies the command to the stack; only pushing a mode already on the stack
    /// fails (and changes nothing).
    pub fn apply(&self, modes: &mut ModeStack) -> (ok: bool)
        ensures
            match *self {
                ModeCommand::ChangeMode(c) => ok && final(modes).0@ == seq![c],
                ModeCommand::PushMode(c) => if old(modes).0@.contains(c) {
                    !ok && final(modes).0@ == old(modes).0@
                } else {
                    ok && final(modes).0@ == old(modes).0@.push(c)
                },
                ModeCommand::PopMode => ok && final(modes).0@ == if old(modes).0@.len() > 1 {
                    old(modes).0@.drop_last()
                } else {
                    old(modes).0@
                },
            },
    {
        match *self {
            ModeCommand::ChangeMode(c) => {
                modes.0 = vec![c];
                true
            },
            ModeCommand::PushMode(c) => {
                if modes.mode_on_stack(c) {
                    return false;
                }
                modes.0.push(c);
                true
            },
            ModeCommand::PopMode => {
                if modes.0.len() > 1 {
                    modes.0.pop();
                }
                true
            },
        }
    }
}

} // verus!
