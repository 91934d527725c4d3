//! The decorations an extmark can carry, and how each is drawn.

use vstd::prelude::*;

verus! {

/// The shape of a terminal cursor.
#[derive(Clone, Copy, Debug, PartialEq, Eq, Structural)]
pub enum CursorShape {
    Block,
    BlinkingBlock,
    Bar,
    BlinkingBar,
    UnderScore,
    BlinkingUnderScore,
}

impl CursorShape {
    /// The default shape, a steady block.
    pub fn default() -> (s: CursorShape)
        ensures
            s == CursorShape::Block,
    {
        CursorShape::Block
    }
}

/// A chunk of styled text used for virtual text display.
pub struct StyledChunk<S> {
    pub text: String,
    pub style: S,
}

/// Where virtual text is rendered relative to its anchor position.
#[derive(Clone, Copy, Debug, PartialEq, Eq, Structural)]
pub enum VirtTextPos {
    /// After the end of the line
    Eol,
    /// Overlay on top of existing text at the position
    Overlay,
    /// Inserted inline, shifting subsequent content
    Inline,
    /// Right-aligned in the viewport
    RightAlign,
}

/// Controls when a `Conceal` extmark is suppressed by marks from other namespaces.
#[derive(Clone, Copy, Debug, PartialEq, Eq, Structural)]
pub enum ConcealScope {
    /// Suppress if another namespace's mark overlaps the same bytes.
    Byte,
    /// Suppress if another namespace's mark appears anywhere on the same line.
    Line,
}

impl ConcealScope {
    /// The default scope, `Byte`.
    pub fn default() -> (s: ConcealScope)
        ensures
            s == ConcealScope::Byte,
    {
        ConcealScope::Byte
    }
}

/// Controls how an overlay popup is positioned relative to its anchor.
#[derive(Clone, Copy, Debug, PartialEq, Eq, Structural)]
pub enum OverlayPosition {
    /// Fixed offset (in screen cells) from the anchor character's screen position.
    Fixed { offset_x: i32, offset_y: i32 },
    /// Prefer below the cursor; flip above if there is insufficient room.
    /// Shifts left to avoid overflowing the right edge.
    Smart,
}

/// The kind of decoration applied to an extmark; `S` is a style, `W` a popup widget.
pub enum ExtmarkKind<S, W> {
    /// A cursor mark at a single position
    Cursor { style: S, shape: CursorShape },
    /// A highlight over the mark's range
    Highlight { style: S },
    /// Virtual text anchored to the start of the mark
    VirtualText { chunks: Vec<StyledChunk<S>>, pos: VirtTextPos },
    /// Conceal the range: hide or replace text visually
    Conceal {
        replacement: Option<String>,
        style: Option<S>,
        scope: ConcealScope,
        /// Also hide whitespace immediately before the concealed range
        trim_before: bool,
        /// Also hide whitespace immediately after the concealed range
        trim_after: bool,
    },
    /// A floating popup anchored to the start of the mark
    Overlay { widget: W, position: OverlayPosition },
}

} // verus!
