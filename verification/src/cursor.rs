//! Cursors and the selection arithmetic that motions perform on them.

use vstd::prelude::*;

verus! {

/// `RangeInclusive::start` returns a reference to the range's first element.
pub assume_specification<Idx>[ core::ops::RangeInclusive::<Idx>::start ](
    r: &core::ops::RangeInclusive<Idx>,
) -> (res: &Idx)
    ensures
        *res == r@.start,
;

/// `RangeInclusive::end` returns a reference to the range's last element.
pub assume_specification<Idx>[ core::ops::RangeInclusive::<Idx>::end ](
    r: &core::ops::RangeInclusive<Idx>,
) -> (res: &Idx)
    ensures
        *res == r@.end,
;

/// A selected point of text within a text buffer.
///
/// The selection is the inclusive byte range `sel_start..=sel_end`; the caret sits at
/// its start when `at_start` holds and at its end otherwise.
#[derive(Clone, Copy, Debug)]
pub struct Cursor {
    pub at_start: bool,
    pub sel_start: usize,
    pub sel_end: usize,
}

impl Cursor {
    /// A collapsed selection at byte 0 with the caret at its end.
    pub fn default() -> (c: Cursor)
        ensures
            c.at_start == false,
            c.sel_start == 0,
            c.sel_end == 0,
    {
        Cursor { at_start: false, sel_start: 0, sel_end: 0 }
    }

    /// The byte the caret stands on.
    pub open spec fn caret(&self) -> usize {
        if self.at_start {
            self.sel_start
        } else {
            self.sel_end
        }
    }

    /// Returns the byte position of where the actual cursor (caret) would be.
    pub fn get_cursor_byte(&self) -> (b: usize)
        ensures
            b == self.caret(),
    {
        if self.at_start {
            self.sel_start
        } else {
            self.sel_end
        }
    }

    /// Whether the caret is at the start of the selection.
    pub fn at_start(&self) -> (b: bool)
        ensures
            b == self.at_start,
    {
        self.at_start
    }

    /// Sets whether the caret is at the start or end of the selection.
    pub fn set_at_start(&mut self, at_start: bool)
        ensures
            final(self).at_start == at_start,
            final(self).sel_start == old(self).sel_start,
            final(self).sel_end == old(self).sel_end,
    {
        self.at_start = at_start;
    }

    /// The inclusive byte range of the selection.
    pub fn sel(&self) -> (r: core::ops::RangeInclusive<usize>)
        ensures
            r@.start == self.sel_start,
            r@.end == self.sel_end,
            r@.exhausted == false,
    {
        core::ops::RangeInclusive::new(self.sel_start, self.sel_end)
    }

    /// Sets the inclusive byte range of the selection.
    pub fn set_sel(&mut self, range: core::ops::RangeInclusive<usize>)
        ensures
            final(self).sel_start == range@.start,
            final(self).sel_end == range@.end,
            final(self).at_start == old(self).at_start,
    {
        self.sel_start = *range.start();
        self.sel_end = *range.end();
    }

    /// Collapses the selection onto the caret.
    pub fn collapse_sel(&mut self)
        ensures
            final(self).sel_start == old(self).caret(),
            final(self).sel_end == old(self).caret(),
            final(self).at_start == old(self).at_start,
    {
        let b = self.get_cursor_byte();
        self.sel_start = b;
        self.sel_end = b;
    }
}


pub open spec fn min_u(a: usize, b: usize) -> usize {
    if a <= b {
        a
    } else {
        b
    }
}

pub open spec fn max_u(a: usize, b: usize) -> usize {
    if a >= b {
        a
    } else {
        b
    }
}

impl Cursor {
    /// The end of the selection that stays put when the caret moves: the end opposite
    /// the caret.
    pub open spec fn anchor(&self) -> usize {
        if self.at_start {
            self.sel_end
        } else {
            self.sel_start
        }
    }

    /// Whether `self` selects from `anchor` to `caret`, with the caret at `caret`.
    pub open spec fn spans(&self, anchor: usize, caret: usize) -> bool {
        &&& self.sel_start == min_u(anchor, caret)
        &&& self.sel_end == max_u(anchor, caret)
        &&& self.at_start == (caret < anchor)
    }

    /// Whether `self` is collapsed onto `b`, with the caret at its end.
    pub open spec fn collapsed_at(&self, b: usize) -> bool {
        self.sel_start == b && self.sel_end == b && !self.at_start
    }

    /// Moves the caret to `new_caret`: with `extend`, the selection then runs from the
    /// anchor to the new caret; without, it collapses onto it.
    pub fn move_caret_to(&mut self, new_caret: usize, extend: bool)
        ensures
            if extend {
                final(self).spans(old(self).anchor(), new_caret)
            } else {
                final(self).collapsed_at(new_caret)
            },
    {
        if extend {
            let anchor = if self.at_start {
                self.sel_end
            } else {
                self.sel_start
            };
            self.sel_start = if anchor <= new_caret {
                anchor
            } else {
                new_caret
            };
            self.sel_end = if anchor >= new_caret {
                anchor
            } else {
                new_caret
            };
            self.at_start = new_caret < anchor;
        } else {
            self.sel_start = new_caret;
            self.sel_end = new_caret;
            self.at_start = false;
        }
    }

    /// Selects towards `new_caret` as the line motions do: the end kept is the
    /// selection's end when `extend` equals `at_start`, its start otherwise.
    pub fn select_towards(&mut self, new_caret: usize, extend: bool) -> (changed: bool)
        ensures
            final(self).spans(
                if extend == old(self).at_start {
                    old(self).sel_end
                } else {
                    old(self).sel_start
                },
                new_caret,
            ),
            changed == (final(self).sel_start != old(self).sel_start || final(self).sel_end != old(
                self,
            ).sel_end || final(self).at_start != old(self).at_start),
    {
        let old_start = self.sel_start;
        let old_end = self.sel_end;
        let old_at_start = self.at_start;
        let anchor = if extend == self.at_start {
            self.sel_end
        } else {
            self.sel_start
        };
        self.sel_start = if anchor <= new_caret {
            anchor
        } else {
            new_caret
        };
        self.sel_end = if anchor >= new_caret {
            anchor
        } else {
            new_caret
        };
        self.at_start = new_caret < anchor;
        self.sel_start != old_start || self.sel_end != old_end || self.at_start != old_at_start
    }

    /// Selects the line `line_start..=line_end`; with `extend`, the selection grows from
    /// its anchor to cover the line.
    pub fn select_line(&mut self, line_start: usize, line_end: usize, extend: bool) -> (changed:
        bool)
        ensures
            if extend {
                &&& final(self).sel_start == min_u(old(self).anchor(), line_start)
                &&& final(self).sel_end == max_u(old(self).anchor(), line_end)
                &&& final(self).at_start == (line_start < old(self).anchor())
            } else {
                &&& final(self).sel_start == line_start
                &&& final(self).sel_end == line_end
                &&& !final(self).at_start
            },
            changed == (final(self).sel_start != old(self).sel_start || final(self).sel_end != old(
                self,
            ).sel_end || final(self).at_start != old(self).at_start),
    {
        let old_start = self.sel_start;
        let old_end = self.sel_end;
        let old_at_start = self.at_start;
        if extend {
            let anchor = if self.at_start {
                self.sel_end
            } else {
                self.sel_start
            };
            self.sel_start = if anchor <= line_start {
                anchor
            } else {
                line_start
            };
            self.sel_end = if anchor >= line_end {
                anchor
            } else {
                line_end
            };
            self.at_start = line_start < anchor;
        } else {
            self.sel_start = line_start;
            self.sel_end = line_end;
            self.at_start = false;
        }
        self.sel_start != old_start || self.sel_end != old_end || self.at_start != old_at_start
    }

    /// Selects the match `[start, end)`; with `extend`, the selection grows to cover it.
    pub fn select_match(&mut self, start: usize, end: usize, extend: bool)
        ensures
            final(self).at_start == old(self).at_start,
            if extend {
                &&& final(self).sel_start == min_u(old(self).sel_start, start)
                &&& final(self).sel_end == max_u(
                    old(self).sel_end,
                    if end >= 1 {
                        (end - 1) as usize
                    } else {
                        0
                    },
                )
            } else {
                &&& final(self).sel_start == start
                &&& final(self).sel_end == if end >= 1 {
                    (end - 1) as usize
                } else {
                    0
                }
            },
    {
        let last = end.saturating_sub(1);
        if extend {
            if start < self.sel_start {
                self.sel_start = start;
            }
            if last > self.sel_end {
                self.sel_end = last;
            }
        } else {
            self.sel_start = start;
            self.sel_end = last;
        }
    }

    /// Clears the selection onto the caret; whether the selection changed.
    pub fn clear_selection(&mut self) -> (changed: bool)
        ensures
            final(self).sel_start == old(self).caret(),
            final(self).sel_end == old(self).caret(),
            final(self).at_start == old(self).at_start,
            changed == (old(self).sel_start != old(self).caret() || old(self).sel_end != old(
                self,
            ).caret()),
    {
        let old_start = self.sel_start;
        let old_end = self.sel_end;
        self.collapse_sel();
        self.sel_start != old_start || self.sel_end != old_end
    }
}

/// Moving the caret with `extend` keeps the anchor: the end that does not hold the
/// caret afterwards is where the anchor was.
pub proof fn lemma_extend_keeps_anchor(c: Cursor, d: Cursor, new_caret: usize)
    requires
        d.spans(c.anchor(), new_caret),
    ensures
        d.anchor() == c.anchor(),
        d.caret() == new_caret,
        d.sel_start <= d.sel_end,
{
}

} // verus!
