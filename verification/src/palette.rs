//! The palette commands: editing the command palette's input, completing it, and
//! handing its content over to be run.

use vstd::prelude::*;
use crate::text::{append_str, chars_of, string_of};

verus! {

/// A command on the command palette.
pub enum PaletteCommand {
    /// Appends the string to the palette's input
    PushPalette(String),
    /// Removes characters from the end of the input
    PopPalette(usize),
    /// Empties the input
    ClearPalette,
    /// Runs the input as a command
    ExecutePalette,
    /// Replaces the input with the completion offered for it
    CompletePalette,
}

/// What is left to do after a palette command: nothing, or run a command line.
pub enum PaletteAction {
    Nothing,
    /// Parse and run this command line
    Execute(String),
}

/// Popping `n` characters off `input` one at a time, stopping once it is empty:
/// the input left, and whether it is still non-empty after every pop.
pub open spec fn pop_result(input: Seq<char>, n: int) -> (Seq<char>, bool) {
    if n == 0 {
        (input, true)
    } else if n < input.len() {
        (input.take(input.len() - n), true)
    } else {
        (seq![], false)
    }
}

impl PaletteCommand {
    /// Applies the command to the palette's `input`, given the `completion` offered
    /// for it: the result, and what is left to do.
    pub fn apply(&self, input: &mut String, completion: &Option<String>) -> (r: (bool, PaletteAction))
        ensures
            match *self {
                PaletteCommand::PushPalette(s) => final(input)@ == old(input)@ + s@ && r.0 && r.1 is Nothing,
                PaletteCommand::PopPalette(n) => final(input)@ == pop_result(old(input)@, n as int).0 && r.0
                    == pop_result(old(input)@, n as int).1 && r.1 is Nothing,
                PaletteCommand::ClearPalette => final(input)@ == Seq::<char>::empty() && r.0 && r.1 is Nothing,
                PaletteCommand::ExecutePalette => final(input)@ == old(input)@ && !r.0 && (r.1 matches PaletteAction::Execute(
                    c,
                ) && c@ == old(input)@),
                PaletteCommand::CompletePalette => final(input)@ == (match *completion {
                    Some(d) => d@,
                    None => old(input)@,
                }) && !r.0 && r.1 is Nothing,
            },
    {
        match self {
            PaletteCommand::PushPalette(s) => {
                append_str(input, s.as_str());
                (true, PaletteAction::Nothing)
            },
            PaletteCommand::PopPalette(n) => {
                let mut v = chars_of(input.as_str());
                let len = v.len();
                if *n == 0 {
                    (true, PaletteAction::Nothing)
                } else if *n < len {
                    v.truncate(len - *n);
                    *input = string_of(v.as_slice());
                    (true, PaletteAction::Nothing)
                } else {
                    *input = String::new();
                    (false, PaletteAction::Nothing)
                }
            },
            PaletteCommand::ClearPalette => {
                *input = String::new();
                (true, PaletteAction::Nothing)
            },
            PaletteCommand::ExecutePalette => {
                let content = input.clone();
                (false, PaletteAction::Execute(content))
            },
            PaletteCommand::CompletePalette => {
                match completion {
                    Some(done) => {
                        *input = done.clone();
                    },
                    None => {},
                }
                (false, PaletteAction::Nothing)
            },
        }
    }
}

} // verus!
