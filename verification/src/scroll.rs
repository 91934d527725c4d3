//! Scrolling: keeping the cursor in view, and mapping display columns to bytes.

use vstd::prelude::*;
use vstd::utf8::encode_utf8;
use crate::text::{chars_of, str_chars_eq};
use unicode_segmentation::UnicodeSegmentation;
use unicode_width::UnicodeWidthStr;

verus! {

/// How `unicode_segmentation` splits a string into extended grapheme clusters.
pub uninterp spec fn graphemes(s: Seq<char>) -> Seq<Seq<char>>;

/// The display width `unicode_width` gives a string.
pub uninterp spec fn str_width(s: Seq<char>) -> nat;

/// `UnicodeSegmentation::graphemes(s, true)`: the extended grapheme clusters of `s`,
/// in order. They split `s` into non-empty pieces that together make up `s`; where
/// the cluster boundaries fall is left unstated.
#[verifier::external_body]
pub(crate) fn graphemes_of(s: &str) -> (r: Vec<String>)
    ensures
        r@.map_values(|g: String| g@) == graphemes(s@),
        r@.map_values(|g: String| g@).flatten() == s@,
        forall|i: int| 0 <= i < r@.len() ==> (#[trigger] r@[i])@.len() > 0,
{
    s.graphemes(true).map(|g| g.to_string()).collect()
}

/// `UnicodeWidthStr::width`: the display width of `s` in columns.
#[verifier::external_body]
pub(crate) fn width_of(s: &str) -> (r: usize)
    ensures
        r == str_width(s@),
{
    UnicodeWidthStr::width(s)
}

/// The number of bytes of the UTF-8 encoding of `s`.
pub open spec fn utf8_len(s: Seq<char>) -> int {
    encode_utf8(s).len() as int
}

/// The display width of one grapheme: 2 for an emoji presentation sequence
/// (one holding U+FE0F), otherwise its Unicode width.
pub open spec fn grapheme_width(g: Seq<char>) -> int {
    if g.contains('\u{FE0F}') {
        2
    } else {
        str_width(g) as int
    }
}

/// The display width of a grapheme on a line where a tab is `tab` columns wide.
pub open spec fn cell_width(g: Seq<char>, tab: int) -> int {
    if g == seq!['\t'] {
        tab
    } else {
        grapheme_width(g)
    }
}

pub open spec fn is_line_break(g: Seq<char>) -> bool {
    g == seq!['\n'] || g == seq!['\r', '\n'] || g == seq!['\r']
}

/// Walking graphemes `gs[k..]`, with `width` columns and `bytes` bytes behind: stop at
/// a line break, at the end, or once `target` columns are reached.
pub open spec fn col_scan(gs: Seq<Seq<char>>, k: int, width: int, bytes: int, target: int, tab: int) -> int
    decreases gs.len() - k,
{
    if k < 0 || k >= gs.len() || is_line_break(gs[k]) || width >= target {
        bytes
    } else {
        col_scan(gs, k + 1, width + cell_width(gs[k], tab), bytes + utf8_len(gs[k]), target, tab)
    }
}

pub proof fn lemma_encode_concat(a: Seq<char>, b: Seq<char>)
    ensures
        encode_utf8(a + b) == encode_utf8(a) + encode_utf8(b),
    decreases a.len(),
{
    if a.len() > 0 {
        assert((a + b).drop_first() =~= a.drop_first() + b);
        lemma_encode_concat(a.drop_first(), b);
        assert((a + b)[0] == a[0]);
        assert(encode_scalar_of(a[0]) + encode_utf8(a.drop_first()) + encode_utf8(b) =~= encode_scalar_of(a[0]) + (encode_utf8(a.drop_first()) + encode_utf8(b)));
    } else {
        assert(a + b =~= b);
    }
}

pub open spec fn encode_scalar_of(c: char) -> Seq<u8> {
    vstd::utf8::encode_scalar(c as u32)
}

proof fn lemma_flatten_concat(a: Seq<Seq<char>>, b: Seq<Seq<char>>)
    ensures
        (a + b).flatten() == a.flatten() + b.flatten(),
    decreases a.len(),
{
    if a.len() == 0 {
        assert(a + b =~= b);
        assert(a.flatten() =~= Seq::<char>::empty());
        assert(Seq::<char>::empty() + b.flatten() =~= b.flatten());
    } else {
        lemma_flatten_concat(a.drop_first(), b);
        assert((a + b).drop_first() =~= a.drop_first() + b);
        assert((a + b).first() == a.first());
        assert(a.first() + (a.drop_first().flatten() + b.flatten()) =~= (a.first()
            + a.drop_first().flatten()) + b.flatten());
    }
}

proof fn lemma_flatten_prefix_step(gs: Seq<Seq<char>>, k: int)
    requires
        0 <= k < gs.len(),
    ensures
        gs.subrange(0, k + 1).flatten() == gs.subrange(0, k).flatten() + gs[k],
{
    let p = gs.subrange(0, k + 1);
    assert(p =~= gs.subrange(0, k) + seq![gs[k]]);
    lemma_flatten_concat(gs.subrange(0, k), seq![gs[k]]);
    seq![gs[k]].lemma_flatten_one_element();
}

proof fn lemma_flatten_prefix_len(gs: Seq<Seq<char>>, k: int)
    requires
        0 <= k <= gs.len(),
    ensures
        utf8_len(gs.subrange(0, k).flatten()) <= utf8_len(gs.flatten()),
{
    let a = gs.subrange(0, k);
    let b = gs.subrange(k, gs.len() as int);
    assert(gs =~= a + b);
    lemma_flatten_concat(a, b);
    lemma_encode_concat(a.flatten(), b.flatten());
}

pub(crate) fn is_line_break_exec(g: &Vec<char>) -> (r: bool)
    ensures
        r == is_line_break(g@),
{
    if g.len() == 1 {
        assert(g@ == seq!['\n'] <==> g@[0] == '\n') by {
            if g@[0] == '\n' {
                assert(g@ =~= seq!['\n']);
            }
        }
        assert(g@ == seq!['\r'] <==> g@[0] == '\r') by {
            if g@[0] == '\r' {
                assert(g@ =~= seq!['\r']);
            }
        }
        g[0] == '\n' || g[0] == '\r'
    } else if g.len() == 2 {
        assert(g@ == seq!['\r', '\n'] <==> (g@[0] == '\r' && g@[1] == '\n')) by {
            if g@[0] == '\r' && g@[1] == '\n' {
                assert(g@ =~= seq!['\r', '\n']);
            }
        }
        g[0] == '\r' && g[1] == '\n'
    } else {
        false
    }
}

pub(crate) fn is_tab_exec(g: &Vec<char>) -> (r: bool)
    ensures
        r == (g@ == seq!['\t']),
{
    if g.len() == 1 {
        assert(g@ == seq!['\t'] <==> g@[0] == '\t') by {
            if g@[0] == '\t' {
                assert(g@ =~= seq!['\t']);
            }
        }
        g[0] == '\t'
    } else {
        false
    }
}

/// The display width of one grapheme.
pub fn grapheme_display_width(g: &str) -> (r: usize)
    ensures
        r == grapheme_width(g@),
{
    let v = chars_of(g);
    let mut k: usize = 0;
    while k < v.len()
        invariant
            k <= v@.len(),
            v@ == g@,
            forall|j: int| 0 <= j < k ==> v@[j] != '\u{FE0F}',
        decreases v@.len() - k,
    {
        if v[k] == '\u{FE0F}' {
            assert(g@.contains('\u{FE0F}'));
            return 2;
        }
        k += 1;
    }
    width_of(g)
}

/// The byte offset, within `line_text`, of display column `target_display_col`: the
/// graphemes are walked until the target column is reached or a line break met; a
/// tab is `tab_display_width` columns wide.
pub fn display_col_to_byte_offset(line_text: &str, target_display_col: usize, tab_display_width: usize) -> (r: usize)
    requires
        utf8_len(line_text@) <= usize::MAX,
    ensures
        r as int == col_scan(
            graphemes(line_text@),
            0,
            0,
            0,
            target_display_col as int,
            tab_display_width as int,
        ),
        r <= utf8_len(line_text@),
{
    let gs = graphemes_of(line_text);
    let ghost gv = graphemes(line_text@);
    let mut byte_offset: usize = 0;
    let mut current_width: u128 = 0;
    let mut k: usize = 0;
    let target = target_display_col as u128;
    let total = line_text.len();
    assert(gv.subrange(0, 0).flatten() =~= Seq::<char>::empty());
    while k < gs.len()
        invariant
            total as int == utf8_len(line_text@),
            utf8_len(line_text@) <= usize::MAX,
            gs@.map_values(|g: String| g@) == gv,
            gv.flatten() == line_text@,
            k <= gs@.len(),
            current_width <= (k as int) * (usize::MAX as int),
            byte_offset as int == utf8_len(gv.subrange(0, k as int).flatten()),
            byte_offset <= utf8_len(line_text@),
            col_scan(gv, 0, 0, 0, target_display_col as int, tab_display_width as int) == col_scan(
                gv,
                k as int,
                current_width as int,
                byte_offset as int,
                target_display_col as int,
                tab_display_width as int,
            ),
            target == target_display_col as u128,
        ensures
            col_scan(gv, 0, 0, 0, target_display_col as int, tab_display_width as int)
                == byte_offset as int,
            byte_offset <= utf8_len(line_text@),
        decreases gs@.len() - k,
    {
        let g = gs[k].as_str();
        assert(gv[k as int] == g@);
        let gc = chars_of(g);
        if is_line_break_exec(&gc) {
            break;
        }
        if current_width >= target {
            break;
        }
        let w: usize = if is_tab_exec(&gc) {
            tab_display_width
        } else {
            grapheme_display_width(g)
        };
        proof {
            assert((k as int) * (usize::MAX as int) + usize::MAX as int == (k + 1) * (usize::MAX as int)) by (nonlinear_arith);
            lemma_flatten_prefix_step(gv, k as int);
            lemma_encode_concat(gv.subrange(0, k as int).flatten(), gv[k as int]);
            lemma_flatten_prefix_len(gv, k + 1);
        }
        current_width = current_width + w as u128;
        byte_offset = byte_offset + g.len();
        k += 1;
    }
    byte_offset
}

/// Walking graphemes `gs[k..]` with `width` columns and `bytes` bytes behind: stop at a
/// line break, at the end, or once `target` bytes are behind; the columns walked.
pub open spec fn width_scan(gs: Seq<Seq<char>>, k: int, width: int, bytes: int, target: int, tab: int) -> int
    decreases gs.len() - k,
{
    if k < 0 || k >= gs.len() || is_line_break(gs[k]) || bytes >= target {
        width
    } else {
        width_scan(gs, k + 1, width + cell_width(gs[k], tab), bytes + utf8_len(gs[k]), target, tab)
    }
}

/// The display column of byte offset `byte_offset` within `line_text`: the widths of the
/// graphemes before it (a tab being `tab_display_width` columns), walking no further
/// than a line break; `usize::MAX` should that not fit.
pub fn byte_offset_to_display_col(line_text: &str, byte_offset: usize, tab_display_width: usize) -> (r: usize)
    requires
        utf8_len(line_text@) <= usize::MAX,
    ensures
        r as int == if width_scan(graphemes(line_text@), 0, 0, 0, byte_offset as int, tab_display_width as int) <= usize::MAX {
            width_scan(graphemes(line_text@), 0, 0, 0, byte_offset as int, tab_display_width as int)
        } else {
            usize::MAX as int
        },
{
    let gs = graphemes_of(line_text);
    let ghost gv = graphemes(line_text@);
    let mut bytes: usize = 0;
    let mut width: u128 = 0;
    let mut k: usize = 0;
    let total = line_text.len();
    assert(gv.subrange(0, 0).flatten() =~= Seq::<char>::empty());
    while k < gs.len()
        invariant
            total as int == utf8_len(line_text@),
            utf8_len(line_text@) <= usize::MAX,
            gs@.map_values(|g: String| g@) == gv,
            gv.flatten() == line_text@,
            k <= gs@.len(),
            width <= (k as int) * (usize::MAX as int),
            bytes as int == utf8_len(gv.subrange(0, k as int).flatten()),
            width_scan(gv, 0, 0, 0, byte_offset as int, tab_display_width as int) == width_scan(
                gv,
                k as int,
                width as int,
                bytes as int,
                byte_offset as int,
                tab_display_width as int,
            ),
        ensures
            width_scan(gv, 0, 0, 0, byte_offset as int, tab_display_width as int) == width as int,
        decreases gs@.len() - k,
    {
        let g = gs[k].as_str();
        assert(gv[k as int] == g@);
        let gc = chars_of(g);
        if is_line_break_exec(&gc) {
            break;
        }
        if bytes >= byte_offset {
            break;
        }
        let w: usize = if is_tab_exec(&gc) {
            tab_display_width
        } else {
            grapheme_display_width(g)
        };
        proof {
            assert((k as int) * (usize::MAX as int) + usize::MAX as int == (k + 1) * (usize::MAX as int)) by (nonlinear_arith);
            lemma_flatten_prefix_step(gv, k as int);
            lemma_encode_concat(gv.subrange(0, k as int).flatten(), gv[k as int]);
            lemma_flatten_prefix_len(gv, k + 1);
        }
        width = width + w as u128;
        bytes = bytes + g.len();
        k += 1;
    }
    if width > usize::MAX as u128 {
        usize::MAX
    } else {
        width as usize
    }
}

/// The columns kept between the cursor and the left or right edge.
pub open spec fn h_padding() -> int {
    5
}

/// The horizontal scroll after the cursor, at display column `cursor_col`, moved:
/// scroll right to keep the cursor `5` columns from the right edge, left to keep it `5`
/// from the left edge, and never past the cursor.
pub open spec fn next_h_scroll(cursor_col: int, h_scroll: int, viewport_width: int) -> int {
    if viewport_width == 0 {
        h_scroll
    } else {
        let p = h_padding();
        let cvc = if cursor_col >= h_scroll {
            cursor_col - h_scroll
        } else {
            0
        };
        let right = if viewport_width >= p {
            viewport_width - p
        } else {
            0
        };
        let target = if viewport_width >= p + 1 {
            viewport_width - (p + 1)
        } else {
            0
        };
        let h1 = if cvc >= right {
            h_scroll + (cvc - target)
        } else {
            h_scroll
        };
        let h2 = if cvc < p {
            if h1 >= p - cvc {
                h1 - (p - cvc)
            } else {
                0
            }
        } else {
            h1
        };
        if cursor_col < h2 {
            if cursor_col >= p {
                cursor_col - p
            } else {
                0
            }
        } else {
            h2
        }
    }
}

/// Updates the horizontal scroll for a cursor at display column `cursor_col` in a
/// viewport `viewport_width` columns wide (no change when it is zero wide).
pub fn update_horizontal_scroll(cursor_col: usize, h_scroll: usize, viewport_width: usize) -> (r:
    usize)
    ensures
        r as int == next_h_scroll(cursor_col as int, h_scroll as int, viewport_width as int),
{
    if viewport_width == 0 {
        return h_scroll;
    }
    let p: usize = 5;
    let cvc = cursor_col.saturating_sub(h_scroll);
    let mut h = h_scroll;
    if cvc >= viewport_width.saturating_sub(p) {
        let target = viewport_width.saturating_sub(p + 1);
        h = h + (cvc - target);
    }
    if cvc < p {
        let needed = p - cvc;
        if h >= needed {
            h = h - needed;
        } else {
            h = 0;
        }
    }
    if cursor_col < h {
        h = cursor_col.saturating_sub(p);
    }
    h
}

/// With room for more than twice the padding, the cursor ends up in view.
pub proof fn lemma_h_scroll_shows_cursor(cursor_col: int, h_scroll: int, viewport_width: int)
    requires
        0 <= cursor_col,
        0 <= h_scroll,
        viewport_width > 2 * h_padding(),
    ensures
        next_h_scroll(cursor_col, h_scroll, viewport_width) <= cursor_col < next_h_scroll(
            cursor_col,
            h_scroll,
            viewport_width,
        ) + viewport_width,
{
}

/// With room for more than twice the padding, the viewport follows the cursor keeping
/// five columns clear to its right: the cursor ends up in view, at most `width - 6`
/// columns from the left edge, and, when it did not move left of the viewport, at
/// least five columns from the left edge (or at the text's start). A cursor already
/// clear of both paddings leaves the scroll alone.
pub proof fn lemma_h_scroll_keeps_padding(cursor_col: int, h_scroll: int, viewport_width: int)
    requires
        0 <= cursor_col,
        0 <= h_scroll,
        viewport_width > 2 * h_padding(),
    ensures
        ({
            let r = next_h_scroll(cursor_col, h_scroll, viewport_width);
            &&& 0 <= r <= cursor_col
            &&& cursor_col - r <= viewport_width - 6
            &&& cursor_col >= h_scroll ==> cursor_col - r >= (if cursor_col < 5 {
                cursor_col
            } else {
                5
            })
            &&& h_scroll + 5 <= cursor_col < h_scroll + viewport_width - 5 ==> r == h_scroll
        }),
{
}

/// The lines kept between the cursor and the top or bottom edge.
pub open spec fn v_padding() -> int {
    3
}

pub open spec fn sat_sub(a: int, b: int) -> int {
    if a >= b {
        a - b
    } else {
        0
    }
}

/// The first visible line after the cursor moved to line `cursor_line`, so that the
/// viewport follows it with `3` lines of padding; within `0..len_lines`.
pub open spec fn next_v_scroll(byte_scroll: int, cursor_line: int, viewport_height: int, len_lines: int) -> int {
    let p = v_padding();
    let max_scroll = sat_sub(len_lines, 1);
    let bs = if byte_scroll <= max_scroll {
        byte_scroll
    } else {
        max_scroll
    };
    if cursor_line < bs {
        sat_sub(cursor_line, p)
    } else {
        let bs1 = if cursor_line - bs >= sat_sub(viewport_height, p) {
            sat_sub(cursor_line, sat_sub(viewport_height, p + 1))
        } else {
            bs
        };
        if bs1 <= max_scroll {
            bs1
        } else {
            max_scroll
        }
    }
}

/// Updates the vertical scroll so the viewport follows the cursor at line
/// `cursor_line` (no change for a zero-high viewport).
pub fn update_vertical_scroll(byte_scroll: usize, cursor_line: usize, viewport_height: usize, len_lines: usize) -> (r: usize)
    ensures
        viewport_height == 0 ==> r == byte_scroll,
        viewport_height > 0 ==> r as int == next_v_scroll(
            byte_scroll as int,
            cursor_line as int,
            viewport_height as int,
            len_lines as int,
        ),
{
    if viewport_height == 0 {
        return byte_scroll;
    }
    let p: usize = 3;
    let max_scroll = len_lines.saturating_sub(1);
    let bs = if byte_scroll <= max_scroll {
        byte_scroll
    } else {
        max_scroll
    };
    if cursor_line < bs {
        return cursor_line.saturating_sub(p);
    }
    let mut bs1 = bs;
    if cursor_line - bs >= viewport_height.saturating_sub(p) {
        bs1 = cursor_line.saturating_sub(viewport_height.saturating_sub(p + 1));
    }
    if bs1 <= max_scroll {
        bs1
    } else {
        max_scroll
    }
}

/// With room for more than twice the padding, the viewport follows a cursor on an
/// existing line keeping three lines below it: the cursor ends up in view and at
/// least three lines above the bottom edge. The viewport stays where it is while the
/// cursor is within it and clear of that bottom padding; when the cursor moved into
/// the padding or past it, the viewport scrolls just far enough; when the cursor moved
/// above it, the viewport starts three lines above the cursor.
pub proof fn lemma_v_scroll_keeps_padding(byte_scroll: int, cursor_line: int, viewport_height: int, len_lines: int)
    requires
        0 <= byte_scroll < len_lines,
        0 <= cursor_line < len_lines,
        viewport_height > 6,
    ensures
        ({
            let r = next_v_scroll(byte_scroll, cursor_line, viewport_height, len_lines);
            &&& 0 <= r <= cursor_line
            &&& cursor_line - r <= viewport_height - 4
            &&& byte_scroll <= cursor_line && cursor_line - byte_scroll < viewport_height - 3 ==> r == byte_scroll
            &&& byte_scroll <= cursor_line && cursor_line - byte_scroll >= viewport_height - 3 ==> r == cursor_line
                - (viewport_height - 4)
            &&& cursor_line < byte_scroll ==> r == if cursor_line >= 3 {
                cursor_line - 3
            } else {
                0
            }
        }),
{
}

/// With room for more than twice the padding, a cursor on an existing line ends up
/// in view.
pub proof fn lemma_v_scroll_shows_cursor(byte_scroll: int, cursor_line: int, viewport_height: int, len_lines: int)
    requires
        0 <= byte_scroll,
        0 <= cursor_line < len_lines,
        viewport_height > 2 * v_padding(),
    ensures
        next_v_scroll(byte_scroll, cursor_line, viewport_height, len_lines) <= cursor_line,
        cursor_line < next_v_scroll(byte_scroll, cursor_line, viewport_height, len_lines)
            + viewport_height,
{
}

/// The line a dragged cursor is pulled to when the viewport scrolled away from it:
/// its line clamped to the visible lines, less `3` lines of padding at either edge.
pub open spec fn drag_line(byte_scroll: int, cursor_line: int, viewport_height: int, len_lines: int) -> int {
    let p = v_padding();
    let max_scroll = sat_sub(len_lines, 1);
    let top = if byte_scroll + p <= max_scroll {
        byte_scroll + p
    } else {
        max_scroll
    };
    let b0 = sat_sub(byte_scroll + viewport_height, p + 1);
    let b1 = if b0 <= max_scroll {
        b0
    } else {
        max_scroll
    };
    let bottom = if b1 >= top {
        b1
    } else {
        top
    };
    if cursor_line < top {
        top
    } else if cursor_line > bottom {
        bottom
    } else {
        cursor_line
    }
}

/// When the viewport is full of text and has room for more than twice the padding, a
/// dragged cursor is pulled to the nearest line at least three lines inside both edges
/// of the viewport, and stays where it is when it is already there.
pub proof fn lemma_drag_line_inside(byte_scroll: int, cursor_line: int, viewport_height: int, len_lines: int)
    requires
        0 <= byte_scroll,
        0 <= cursor_line,
        viewport_height > 2 * v_padding(),
        byte_scroll + viewport_height <= len_lines,
    ensures
        ({
            let r = drag_line(byte_scroll, cursor_line, viewport_height, len_lines);
            &&& byte_scroll + 3 <= r <= byte_scroll + viewport_height - 4
            &&& byte_scroll + 3 <= cursor_line <= byte_scroll + viewport_height - 4 ==> r == cursor_line
            &&& cursor_line < byte_scroll + 3 ==> r == byte_scroll + 3
            &&& cursor_line > byte_scroll + viewport_height - 4 ==> r == byte_scroll + viewport_height - 4
        }),
{
}

/// The line to pull the cursor to after the viewport was scrolled.
pub fn drag_target_line(byte_scroll: usize, cursor_line: usize, viewport_height: usize, len_lines: usize) -> (r: usize)
    requires
        byte_scroll + viewport_height <= usize::MAX,
        byte_scroll + 3 <= usize::MAX,
    ensures
        r as int == drag_line(byte_scroll as int, cursor_line as int, viewport_height as int, len_lines as int),
{
    let p: usize = 3;
    let max_scroll = len_lines.saturating_sub(1);
    let top = if byte_scroll + p <= max_scroll {
        byte_scroll + p
    } else {
        max_scroll
    };
    let b0 = (byte_scroll + viewport_height).saturating_sub(p + 1);
    let b1 = if b0 <= max_scroll {
        b0
    } else {
        max_scroll
    };
    let bottom = if b1 >= top {
        b1
    } else {
        top
    };
    if cursor_line < top {
        top
    } else if cursor_line > bottom {
        bottom
    } else {
        cursor_line
    }
}

/// The first visible line after scrolling by `lines` rows, clamped to the text's lines.
pub fn scrolled_line(byte_scroll: usize, lines: isize, len_lines: usize) -> (r: usize)
    ensures
        r as int == ({
            let max_scroll = sat_sub(len_lines as int, 1);
            let t = byte_scroll + lines;
            if t < 0 {
                0
            } else if t > max_scroll {
                max_scroll
            } else {
                t
            }
        }),
{
    let max_scroll = len_lines.saturating_sub(1);
    if lines >= 0 {
        let up = lines as usize;
        if byte_scroll > max_scroll || up > max_scroll - byte_scroll {
            max_scroll
        } else {
            byte_scroll + up
        }
    } else {
        let down: usize = if lines == isize::MIN {
            (isize::MAX as usize) + 1
        } else {
            (-lines) as usize
        };
        if down > byte_scroll {
            0
        } else if byte_scroll - down > max_scroll {
            max_scroll
        } else {
            byte_scroll - down
        }
    }
}

} // verus!
