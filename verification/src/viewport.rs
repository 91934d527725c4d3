//! Placing a buffer's lines in the viewport: which marks belong to a line, how much of
//! it is drawn, where its cursor lands on screen, and where popups go.

use vstd::prelude::*;
use crate::decor::{CursorShape, OverlayPosition};
use crate::line_marks::LineMark;

verus! {

/// The number of characters of a line that are drawn: all but a trailing line feed
/// and then a trailing carriage return.
pub open spec fn visible_count(line: Seq<char>) -> int {
    let a = if line.len() > 0 && line.last() == '\n' {
        line.len() - 1
    } else {
        line.len() as int
    };
    if a > 0 && line[a - 1] == '\r' {
        a - 1
    } else {
        a
    }
}

/// The number of characters of a line that are drawn.
pub fn visible_len(line: &Vec<char>) -> (r: usize)
    ensures
        r as int == visible_count(line@),
{
    let mut vl = line.len();
    if vl > 0 && line[vl - 1] == '\n' {
        vl -= 1;
    }
    if vl > 0 && line[vl - 1] == '\r' {
        vl -= 1;
    }
    vl
}

/// A mark over bytes `[start, end)` belongs to the line over bytes `[ls, le)`: it starts
/// before the line's end (or at it, for an empty line, or at the end of the text when
/// the line has a cell past it) and ends no earlier than the line's start.
pub open spec fn meets_line(start: int, end: int, ls: int, le: int, extra: bool) -> bool {
    (start < le || (start == le && ls == le) || (extra && start == le)) && end >= ls
}

/// The marks of `all` that belong to the line over bytes `[ls, le)`, in order.
pub open spec fn marks_of_line<S, W>(all: Seq<&LineMark<S, W>>, ls: int, le: int, extra: bool, n: int) -> Seq<&LineMark<S, W>>
    decreases n,
{
    if n <= 0 {
        seq![]
    } else {
        marks_of_line(all, ls, le, extra, n - 1) + (if meets_line(
            all[n - 1].byte_range.start as int,
            all[n - 1].byte_range.end as int,
            ls,
            le,
            extra,
        ) {
            seq![all[n - 1]]
        } else {
            seq![]
        })
    }
}

/// The marks of `all` that belong to the line over bytes `[ls, le)`.
pub fn line_marks<'a, S, W>(all: &Vec<&'a LineMark<S, W>>, ls: usize, le: usize, extra: bool) -> (r: Vec<&'a LineMark<S, W>>)
    ensures
        r@ == marks_of_line(all@, ls as int, le as int, extra, all@.len() as int),
{
    let mut r: Vec<&'a LineMark<S, W>> = Vec::new();
    let mut i: usize = 0;
    while i < all.len()
        invariant
            i <= all@.len(),
            r@ == marks_of_line(all@, ls as int, le as int, extra, i as int),
        decreases all@.len() - i,
    {
        let m = all[i];
        let s = m.byte_range.start;
        let e = m.byte_range.end;
        if (s < le || (s == le && ls == le) || (extra && s == le)) && e >= ls {
            r.push(m);
        }
        proof {
            assert(r@ =~= marks_of_line(all@, ls as int, le as int, extra, i + 1));
        }
        i += 1;
    }
    r
}

/// Where the screen cursor lands: the last of the line's cursors that the viewport
/// shows, at its column less the scroll, on row `row` of the area; `None` where the
/// viewport shows none.
pub open spec fn screen_cursor(cursors: Seq<(usize, CursorShape)>, h_scroll: int, width: int, x: int, y: int, row: int) -> Option<(u16, u16, CursorShape)>
    decreases cursors.len(),
{
    if cursors.len() == 0 {
        None
    } else {
        let c = cursors.last();
        if h_scroll <= c.0 < h_scroll + width {
            Some(((x + c.0 - h_scroll) as u16, (y + row) as u16, c.1))
        } else {
            screen_cursor(cursors.drop_last(), h_scroll, width, x, y, row)
        }
    }
}

/// Where the screen cursor lands for a line's cursors, drawn on row `row` of an area at
/// `(x, y)` that is `width` columns wide, scrolled `h_scroll` columns.
pub fn cursor_on_screen(cursors: &Vec<(usize, CursorShape)>, h_scroll: usize, width: u16, x: u16, y: u16, row: u16) -> (r: Option<(u16, u16, CursorShape)>)
    requires
        x + width <= u16::MAX,
        y + row <= u16::MAX,
    ensures
        r == screen_cursor(cursors@, h_scroll as int, width as int, x as int, y as int, row as int),
{
    let mut found: Option<(u16, u16, CursorShape)> = None;
    let mut i: usize = 0;
    while i < cursors.len()
        invariant
            i <= cursors@.len(),
            x + width <= u16::MAX,
            y + row <= u16::MAX,
            found == screen_cursor(cursors@.take(i as int), h_scroll as int, width as int, x as int, y as int, row as int),
        decreases cursors@.len() - i,
    {
        let (col, shape) = cursors[i];
        proof {
            assert(cursors@.take(i + 1).drop_last() =~= cursors@.take(i as int));
            assert(cursors@.take(i + 1).last() == cursors@[i as int]);
        }
        if col >= h_scroll && col - h_scroll < width as usize {
            found = Some((x + (col - h_scroll) as u16, y + row, shape));
        }
        i += 1;
    }
    proof {
        assert(cursors@.take(i as int) =~= cursors@);
    }
    found
}

/// The screen column of a popup's anchor: its display column less the scroll, from the
/// area's left edge, which it never passes to the left.
pub open spec fn anchor_x(col: int, h_scroll: int, x: int) -> int {
    if col >= h_scroll {
        ((x + (col - h_scroll)) as u16) as int
    } else {
        x
    }
}

/// The screen column of a popup's anchor.
pub fn popup_anchor_x(col: usize, h_scroll: usize, x: u16) -> (r: u16)
    requires
        col >= h_scroll ==> x + (col - h_scroll) <= u16::MAX,
    ensures
        r as int == anchor_x(col as int, h_scroll as int, x as int),
{
    if col >= h_scroll {
        x + (col - h_scroll) as u16
    } else {
        x
    }
}

/// An area of the screen.
#[derive(Clone, Copy)]
pub struct Area {
    pub x: u16,
    pub y: u16,
    pub width: u16,
    pub height: u16,
}

/// `a - b`, floored at zero.
pub open spec fn sat_sub(a: int, b: int) -> int {
    if a > b {
        a - b
    } else {
        0
    }
}

/// The offset of a popup of size `w` by `h` from its anchor: fixed, or (where it is
/// smart) one row below the anchor where the rows below hold it and above it otherwise,
/// shifted left as far as it overflows the area's right edge, but not past its left.
pub open spec fn popup_offset(ax: int, ay: int, w: int, h: int, area: Area, pos: OverlayPosition) -> (int, int) {
    match pos {
        OverlayPosition::Fixed { offset_x, offset_y } => (offset_x as int, offset_y as int),
        OverlayPosition::Smart => {
            let rows_below = sat_sub(area.y + area.height, ay + 1);
            let oy = if rows_below >= h {
                1
            } else {
                -h
            };
            let over = ax + w - (area.x + area.width);
            let overflow_right = if over > 0 {
                over
            } else {
                0
            };
            let room = ax - area.x;
            let ox = -(if overflow_right < room {
                overflow_right
            } else {
                room
            });
            (ox, oy)
        },
    }
}

/// Where a popup of size `w` by `h` anchored at `(ax, ay)` is drawn: its top-left
/// corner (not left of or above the area) and the part of it that fits in the area;
/// `None` where nothing of it fits.
pub open spec fn popup_rect(ax: int, ay: int, w: int, h: int, area: Area, pos: OverlayPosition) -> Option<(u16, u16, u16, u16)> {
    let (ox, oy) = popup_offset(ax, ay, w, h, area, pos);
    let x0 = ((if ax + ox > area.x { ax + ox } else { area.x as int }) as u16) as int;
    let y0 = ((if ay + oy > area.y { ay + oy } else { area.y as int }) as u16) as int;
    let aw0 = sat_sub(area.x + area.width, x0);
    let ah0 = sat_sub(area.y + area.height, y0);
    let aw = if aw0 < w {
        aw0
    } else {
        w
    };
    let ah = if ah0 < h {
        ah0
    } else {
        h
    };
    if aw == 0 || ah == 0 {
        None
    } else {
        Some((x0 as u16, y0 as u16, aw as u16, ah as u16))
    }
}

/// Where a popup of size `w` by `h` anchored at `(ax, ay)` in `area` is drawn.
pub fn place_popup(ax: u16, ay: u16, w: u16, h: u16, area: Area, pos: OverlayPosition) -> (r: Option<(u16, u16, u16, u16)>)
    requires
        area.x + area.width <= u16::MAX,
        area.y + area.height <= u16::MAX,
        ax >= area.x,
        ay < u16::MAX,
        match pos {
            OverlayPosition::Fixed { offset_x, offset_y } => i32::MIN <= ax + offset_x <= i32::MAX && i32::MIN <= ay
                + offset_y <= i32::MAX,
            OverlayPosition::Smart => true,
        },
    ensures
        r == popup_rect(ax as int, ay as int, w as int, h as int, area, pos),
{
    let (ox, oy): (i32, i32) = match pos {
        OverlayPosition::Fixed { offset_x, offset_y } => (offset_x, offset_y),
        OverlayPosition::Smart => {
            let bottom = area.y + area.height;
            let rows_below = if bottom > ay + 1 { bottom - (ay + 1) } else { 0 };
            let oy: i32 = if rows_below >= h { 1 } else { -(h as i32) };
            let over = ax as i32 + w as i32 - (area.x + area.width) as i32;
            let overflow_right: i32 = if over > 0 { over } else { 0 };
            let room = (ax - area.x) as i32;
            let ox: i32 = -(if overflow_right < room { overflow_right } else { room });
            (ox, oy)
        },
    };
    let xs = ax as i32 + ox;
    let ys = ay as i32 + oy;
    let x0 = #[verifier::truncate] ((if xs > area.x as i32 { xs } else { area.x as i32 }) as u16);
    let y0 = #[verifier::truncate] ((if ys > area.y as i32 { ys } else { area.y as i32 }) as u16);
    let right = area.x + area.width;
    let bottom = area.y + area.height;
    let aw0 = if right > x0 { right - x0 } else { 0 };
    let ah0 = if bottom > y0 { bottom - y0 } else { 0 };
    let aw = if aw0 < w { aw0 } else { w };
    let ah = if ah0 < h { ah0 } else { h };
    if aw == 0 || ah == 0 {
        None
    } else {
        Some((x0, y0, aw, ah))
    }
}

} // verus!
