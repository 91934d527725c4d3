//! The register commands: copying the primary selection into a named register or the
//! OS clipboard, and pasting from them. The registers and the clipboard live outside
//! the buffer, so each command hands back what is to be stored or pasted.

use vstd::prelude::*;
use crate::buffer::TextBuffer;
use crate::rope::char_at_byte;
use crate::scroll::utf8_len;

verus! {

/// A command on registers and the OS clipboard.
pub enum RegisterCommand {
    /// Copies the primary selection into a register (`a` when none is named)
    CopyRegister(Option<char>),
    /// Pastes a register (`a` when none is named), extending the selection if asked
    PasteRegister(Option<char>, bool),
    /// Copies the primary selection to the OS clipboard
    ClipboardCopy,
    /// Pastes the OS clipboard, extending the selection if asked
    ClipboardPaste(bool),
}

/// What a register command leaves to be done.
pub enum RegisterAction {
    /// Store `text` in `register`
    SetRegister { register: char, text: String },
    /// Append the text of `register` at the cursors, as `BufferCommand::Append` does
    PasteRegister { register: char, extend: bool },
    /// Put `text` on the OS clipboard
    ClipboardSet(String),
    /// Append the OS clipboard's text at the cursors, as `BufferCommand::Append` does
    ClipboardPaste { extend: bool },
}

/// The register a command names, `a` by default.
pub open spec fn register_of(r: Option<char>) -> char {
    match r {
        Some(c) => c,
        None => 'a',
    }
}

/// The text copied from the primary cursor: the text from its selection's start up
/// to its end (the end's own character left out), or nothing when the selection does
/// not lie within the text.
pub open spec fn selection_text<K>(buf: TextBuffer<K>) -> Seq<char> {
    let c = buf.cursors@[buf.primary_cursor as int];
    let t = buf.text();
    if c.sel_start <= c.sel_end <= utf8_len(t) {
        t.subrange(char_at_byte(t, c.sel_start as int), char_at_byte(t, c.sel_end as int))
    } else {
        seq![]
    }
}

fn primary_selection_text<K>(buf: &TextBuffer<K>) -> (r: String)
    requires
        buf.wf(),
    ensures
        r@ == selection_text(*buf),
{
    let range = buf.cursors[buf.primary_cursor].sel();
    match buf.slice_to_string(*range.start(), *range.end()) {
        Some(t) => t,
        None => String::new(),
    }
}

impl RegisterCommand {
    /// What the command does with the buffer's primary selection.
    pub fn apply<K>(&self, buf: &TextBuffer<K>) -> (r: RegisterAction)
        requires
            buf.wf(),
        ensures
            match *self {
                RegisterCommand::CopyRegister(reg) => r matches RegisterAction::SetRegister { register, text }
                    && register == register_of(reg) && text@ == selection_text(*buf),
                RegisterCommand::PasteRegister(reg, ext) => r == RegisterAction::PasteRegister {
                    register: register_of(reg),
                    extend: ext,
                },
                RegisterCommand::ClipboardCopy => r matches RegisterAction::ClipboardSet(text) && text@
                    == selection_text(*buf),
                RegisterCommand::ClipboardPaste(ext) => r == RegisterAction::ClipboardPaste { extend: ext },
            },
    {
        match self {
            RegisterCommand::CopyRegister(reg) => {
                let register = match reg {
                    Some(c) => *c,
                    None => 'a',
                };
                RegisterAction::SetRegister { register, text: primary_selection_text(buf) }
            },
            RegisterCommand::PasteRegister(reg, extend) => {
                let register = match reg {
                    Some(c) => *c,
                    None => 'a',
                };
                RegisterAction::PasteRegister { register, extend: *extend }
            },
            RegisterCommand::ClipboardCopy => RegisterAction::ClipboardSet(primary_selection_text(buf)),
            RegisterCommand::ClipboardPaste(extend) => RegisterAction::ClipboardPaste { extend: *extend },
        }
    }
}

} // verus!
