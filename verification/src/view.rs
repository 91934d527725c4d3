//! Drawing the part of a buffer that the viewport shows: line after line, each plain
//! or decorated by its marks, with the screen cursor and the popups to lay on top.

use vstd::prelude::*;
use crate::buffer::TextBuffer;
use crate::decor::{CursorShape, ExtmarkKind, OverlayPosition};
use crate::line_draw::{drawn_line, char_ranges, ns_prios, render_fits, try_render_marked_line, LineRenderV};
use crate::line_marks::{LineGeom, LineMark, lemma_gathered_refs, gathered};
use crate::line_draw::eof_geom;
use crate::line_render::{Seg, SegV, segs_v, plain_scan, render_plain_line, stable_order, stable_sort, ints, idxs};
use crate::viewport::{visible_count, visible_len, marks_of_line, line_marks, screen_cursor, cursor_on_screen, Area};
use crate::rope::{
    rope_chars, line_start, line_count, byte_of, lemma_line_start, lemma_byte_of_mono, lemma_byte_of_ends,
    lemma_char_at_byte_of, breaks_before, rope_len_lines, rope_line_to_char, rope_char_to_byte, rope_byte_to_char,
    rope_len_bytes, rope_len_chars, rope_line_string,
};
use crate::renderer::{BufferRenderer, query_result};
use crate::scroll::{graphemes, utf8_len};
use crate::text::chars_of;

verus! {

/// Where line `idx` of the text `rc` lies: its first character and byte, where it ends
/// (its line break included), its characters, how many of them are drawn, and whether
/// it is the last line with no line break, which gets one cell more.
pub struct LineInfo {
    pub start_char: int,
    pub start_byte: int,
    pub end_char: int,
    pub end_byte: int,
    pub line: Seq<char>,
    pub visible: int,
    pub extra: bool,
}

pub open spec fn line_info(rc: Seq<char>, idx: int) -> LineInfo {
    let sc = line_start(rc, idx);
    let line = rc.subrange(sc, line_start(rc, idx + 1));
    let ec = sc + line.len();
    let eb = if ec <= rc.len() {
        byte_of(rc, ec)
    } else {
        utf8_len(rc)
    };
    let vis = visible_count(line);
    LineInfo {
        start_char: sc,
        start_byte: byte_of(rc, sc),
        end_char: ec,
        end_byte: eb,
        line,
        visible: vis,
        extra: eb == utf8_len(rc) && vis == line.len(),
    }
}

pub open spec fn info_geom(li: LineInfo) -> LineGeom {
    LineGeom {
        start: li.start_char as usize,
        end: li.end_char as usize,
        char_count: li.line.len() as usize,
        visible: li.visible as usize,
    }
}

/// The marks, of those the viewport holds, that belong to line `idx`.
pub open spec fn marks_at_line<S, W>(rc: Seq<char>, vm: Seq<&LineMark<S, W>>, idx: int) -> Seq<&LineMark<S, W>> {
    let li = line_info(rc, idx);
    marks_of_line(vm, li.start_byte, li.end_byte, li.extra, vm.len() as int)
}

/// Line `idx` as decorated by its marks, where it has marks and the sizes fit.
pub open spec fn line_drawn<K, S, W>(
    rd: &BufferRenderer<K>,
    rc: Seq<char>,
    vm: Seq<&LineMark<S, W>>,
    idx: int,
    h: int,
    w: int,
    unit: Seq<char>,
    tab: S,
    reveal: bool,
) -> Option<LineRenderV<S>> {
    let li = line_info(rc, idx);
    let lm = marks_at_line(rc, vm, idx);
    if lm.len() > 0 && render_fits(rc, lm, li.line, info_geom(li), li.extra, unit) {
        Some(drawn_line(lm, char_ranges(rc, lm, li.extra), ns_prios(rd, lm), li.line, info_geom(li), li.extra, w, h, unit, tab, reveal))
    } else {
        None
    }
}

/// The screen column of a popup anchored at display column `col`.
pub open spec fn anchor_u16(col: int, h: int, x: u16) -> u16 {
    if col >= h {
        x.wrapping_add(((col - h) as u16))
    } else {
        x
    }
}

/// The popups of a line drawn on row `row`: anchor's screen cell, the mark's id, its
/// position and its priority.
pub open spec fn popup_entries<S, W>(
    ps: Seq<(usize, usize, OverlayPosition, i32)>,
    lm: Seq<&LineMark<S, W>>,
    h: int,
    area: Area,
    row: int,
) -> Seq<(u16, u16, u64, OverlayPosition, i32)> {
    Seq::new(ps.len(), |i: int| (anchor_u16(ps[i].0 as int, h, area.x), (area.y + row) as u16, lm[ps[i].1 as int].id, ps[i].2, ps[i].3))
}

/// What the viewport shows: its lines, the screen cursor, and the popups.
pub struct ViewV<S> {
    pub lines: Seq<Seq<SegV<S>>>,
    pub cursor: Option<(u16, u16, CursorShape)>,
    pub overlays: Seq<(u16, u16, u64, OverlayPosition, i32)>,
}

/// What line `idx`, drawn on row `row`, gives: its spans, the screen cursor it shows
/// (the last of its cursors in view), and its popups.
pub open spec fn line_step<K, S, W>(
    rd: &BufferRenderer<K>,
    rc: Seq<char>,
    vm: Seq<&LineMark<S, W>>,
    idx: int,
    row: int,
    h: int,
    area: Area,
    unit: Seq<char>,
    tab: S,
    reveal: bool,
) -> (Seq<SegV<S>>, Option<(u16, u16, CursorShape)>, Seq<(u16, u16, u64, OverlayPosition, i32)>) {
    match line_drawn(rd, rc, vm, idx, h, area.width as int, unit, tab, reveal) {
        Some(d) => (
            d.spans,
            screen_cursor(d.cursors, h, area.width as int, area.x as int, area.y as int, row),
            popup_entries(d.popups, marks_at_line(rc, vm, idx), h, area, row),
        ),
        None => (plain_scan(graphemes(line_info(rc, idx).line), 0, 0, seq![], h, area.width as int, unit, tab), None, seq![]),
    }
}

/// The first `n` lines of the viewport, starting at line `scroll`: each decorated by
/// its marks or drawn plain; the screen cursor is the last one that a line shows, and
/// the popups come line by line.
pub open spec fn view_upto<K, S, W>(
    rd: &BufferRenderer<K>,
    rc: Seq<char>,
    vm: Seq<&LineMark<S, W>>,
    scroll: int,
    h: int,
    area: Area,
    unit: Seq<char>,
    tab: S,
    reveal: bool,
    n: int,
) -> ViewV<S>
    decreases n,
{
    if n <= 0 {
        ViewV { lines: seq![], cursor: None, overlays: seq![] }
    } else {
        let prev = view_upto(rd, rc, vm, scroll, h, area, unit, tab, reveal, n - 1);
        let st = line_step(rd, rc, vm, scroll + n - 1, n - 1, h, area, unit, tab, reveal);
        ViewV {
            lines: prev.lines.push(st.0),
            cursor: match st.1 {
                Some(c) => Some(c),
                None => prev.cursor,
            },
            overlays: prev.overlays + st.2,
        }
    }
}

/// The number of lines the viewport shows.
pub open spec fn shown_lines(scroll: int, height: int, count: int) -> int {
    if scroll >= count {
        0
    } else if height < count - scroll {
        height
    } else {
        count - scroll
    }
}

pub open spec fn overlay_keys(os: Seq<(u16, u16, u64, OverlayPosition, i32)>) -> Seq<int> {
    Seq::new(os.len(), |i: int| os[i].4 as int)
}

/// The whole view: its lines, the screen cursor, and the popups ordered by priority.
pub open spec fn view_of<K, S, W>(
    rd: &BufferRenderer<K>,
    rc: Seq<char>,
    vm: Seq<&LineMark<S, W>>,
    scroll: int,
    h: int,
    area: Area,
    unit: Seq<char>,
    tab: S,
    reveal: bool,
) -> ViewV<S> {
    let v = view_upto(rd, rc, vm, scroll, h, area, unit, tab, reveal, shown_lines(scroll, area.height as int, line_count(rc) as int));
    let order = stable_sort(overlay_keys(v.overlays), v.overlays.len() as int);
    ViewV { lines: v.lines, cursor: v.cursor, overlays: Seq::new(order.len(), |i: int| v.overlays[order[i]]) }
}

/// What the viewport shows, as drawn: the lines' spans, the screen cursor, and the
/// popups (anchor cell, mark id, position, priority), ordered by priority.
pub struct ViewRender<S> {
    pub lines: Vec<Vec<Seg<S>>>,
    pub cursor: Option<(u16, u16, CursorShape)>,
    pub overlays: Vec<(u16, u16, u64, OverlayPosition, i32)>,
}

impl<S> ViewRender<S> {
    pub open spec fn v(&self) -> ViewV<S> {
        ViewV {
            lines: Seq::new(self.lines@.len(), |i: int| segs_v(self.lines@[i]@)),
            cursor: self.cursor,
            overlays: self.overlays@,
        }
    }
}

proof fn lemma_line_bounds(s: Seq<char>, l: int)
    requires
        0 <= l,
    ensures
        0 <= line_start(s, l) <= line_start(s, l + 1) <= s.len(),
{
    lemma_line_start(s, l);
    lemma_line_start(s, l + 1);
    if line_start(s, l + 1) < line_start(s, l) {
        if l + 1 < line_count(s) {
            assert(breaks_before(s, line_start(s, l + 1)) < l);
        }
    }
}

/// Draws line `idx` of `buf` on row `row` of the viewport: its spans, the screen cursor
/// it shows, and its popups.
fn draw_line_at<S: Copy, W>(
    buf: &TextBuffer<ExtmarkKind<S, W>>,
    vm: &Vec<&LineMark<S, W>>,
    idx: usize,
    row: u16,
    h_scroll: usize,
    area: Area,
    unit: &Vec<char>,
    tab: S,
    reveal: bool,
) -> (r: (Vec<Seg<S>>, Option<(u16, u16, CursorShape)>, Vec<(u16, u16, u64, OverlayPosition, i32)>))
    requires
        buf.renderer.wf(),
        idx < line_count(rope_chars(buf.rope)),
        row < area.height,
        area.x + area.width <= u16::MAX,
        area.y + area.height <= u16::MAX,
    ensures
        ({
            let st = line_step(&buf.renderer, rope_chars(buf.rope), vm@, idx as int, row as int, h_scroll as int, area, unit@, tab, reveal);
            &&& segs_v(r.0@) == st.0
            &&& r.1 == st.1
            &&& r.2@ == st.2
        }),
{
    let rope = &buf.rope;
    let rd = &buf.renderer;
    let ghost rc = rope_chars(*rope);
    let len_bytes = rope_len_bytes(rope);
    let len_chars = rope_len_chars(rope);
    let ghost li = line_info(rc, idx as int);
    proof {
        lemma_byte_of_ends(rc);
        lemma_line_bounds(rc, idx as int);
    }
    let sc = rope_line_to_char(rope, idx);
    let sb = rope_char_to_byte(rope, sc);
    proof {
        lemma_byte_of_mono(rc, sc as int, rc.len() as int);
        lemma_char_at_byte_of(rc, sc as int);
    }
    let start_char = rope_byte_to_char(rope, sb);
    let text = rope_line_string(rope, idx);
    let line = chars_of(text.as_str());
    let count = line.len();
    let ec = start_char + count;
    let eb = if ec <= len_chars { rope_char_to_byte(rope, ec) } else { len_bytes };
    let vis = visible_len(&line);
    let extra = eb == len_bytes && vis == count;
    let lm = line_marks(vm, sb, eb, extra);
    let g = LineGeom { start: start_char, end: ec, char_count: count, visible: vis };
    proof {
        assert(line@ == li.line);
        assert(g == info_geom(li));
        assert(lm@ == marks_at_line(rc, vm@, idx as int));
    }
    let drawn = if lm.len() > 0 {
        try_render_marked_line(rope, rd, &lm, &line, g, extra, area.width as usize, h_scroll, unit, tab, reveal)
    } else {
        None
    };
    let ghost spec_line = line_drawn(rd, rc, vm@, idx as int, h_scroll as int, area.width as int, unit@, tab, reveal);
    proof {
        if drawn is Some {
            assert(spec_line == Some(drawn->Some_0.v()));
        } else {
            assert(spec_line is None);
        }
    }
    match drawn {
        Some(d) => {
            proof {
                assert(lm.len() == lm@.len());
                let g2 = eof_geom(g, extra);
                let rs = char_ranges(rc, lm@, extra);
                let ps = ns_prios(rd, lm@);
                lemma_gathered_refs(lm@, rs, ps, g2, lm@.len() as int);
                let mv = gathered(lm@, rs, ps, g2, lm@.len() as int);
                assert forall|t: int| 0 <= t < d.popups@.len() implies (#[trigger] d.popups@[t]).1 < lm@.len() by {
                    assert(d.popups@[t].1 == mv.popups[t].mark);
                }
            }
            let c = cursor_on_screen(&d.cursors, h_scroll, area.width, area.x, area.y, row);
            let mut os: Vec<(u16, u16, u64, OverlayPosition, i32)> = Vec::new();
            let mut p: usize = 0;
            while p < d.popups.len()
                invariant
                    p <= d.popups@.len(),
                    area.y + area.height <= u16::MAX,
                    row < area.height,
                    os@ == popup_entries(d.popups@, lm@, h_scroll as int, area, row as int).take(p as int),
                    forall|t: int| 0 <= t < d.popups@.len() ==> (#[trigger] d.popups@[t]).1 < lm@.len(),
                decreases d.popups@.len() - p,
            {
                let (col, mi, pos, z) = d.popups[p];
                let x = if col >= h_scroll {
                    area.x.wrapping_add(#[verifier::truncate] ((col - h_scroll) as u16))
                } else {
                    area.x
                };
                os.push((x, area.y + row, lm[mi].id, pos, z));
                proof {
                    assert(os@ =~= popup_entries(d.popups@, lm@, h_scroll as int, area, row as int).take(p + 1));
                }
                p += 1;
            }
            proof {
                assert(popup_entries(d.popups@, lm@, h_scroll as int, area, row as int).take(p as int) =~= popup_entries(
                    d.popups@,
                    lm@,
                    h_scroll as int,
                    area,
                    row as int,
                ));
            }
            (d.spans, c, os)
        },
        None => {
            let spans = render_plain_line(&line, h_scroll, area.width as usize, unit, tab);
            (spans, None, Vec::new())
        },
    }
}

/// Draws the viewport of `buf`, from line `line_scroll`, scrolled `h_scroll` columns,
/// given the marks `vm` that the viewport holds (in the order the renderer hands them
/// out); a tab is drawn as `unit` in `tab`, and with `reveal` conceals give way on the
/// cursor's line.
pub fn render_view_with<S: Copy, W>(
    buf: &TextBuffer<ExtmarkKind<S, W>>,
    vm: &Vec<&LineMark<S, W>>,
    line_scroll: usize,
    h_scroll: usize,
    area: Area,
    unit: &Vec<char>,
    tab: S,
    reveal: bool,
) -> (r: ViewRender<S>)
    requires
        buf.renderer.wf(),
        area.x + area.width <= u16::MAX,
        area.y + area.height <= u16::MAX,
    ensures
        r.v() == view_of(
            &buf.renderer,
            rope_chars(buf.rope),
            vm@,
            line_scroll as int,
            h_scroll as int,
            area,
            unit@,
            tab,
            reveal,
        ),
{
    let rope = &buf.rope;
    let rd = &buf.renderer;
    let ghost rc = rope_chars(*rope);
    let total = rope_len_lines(rope);
    let len_bytes = rope_len_bytes(rope);
    let len_chars = rope_len_chars(rope);
    let n: usize = if line_scroll >= total {
        0
    } else if (area.height as usize) < total - line_scroll {
        area.height as usize
    } else {
        total - line_scroll
    };
    let mut lines: Vec<Vec<Seg<S>>> = Vec::new();
    let mut cursor: Option<(u16, u16, CursorShape)> = None;
    let mut overlays: Vec<(u16, u16, u64, OverlayPosition, i32)> = Vec::new();
    let mut k: usize = 0;
    proof {
        lemma_byte_of_ends(rc);
    }
    while k < n
        invariant
            k <= n,
            n == shown_lines(line_scroll as int, area.height as int, line_count(rc) as int),
            rc == rope_chars(*rope),
            total == line_count(rc),
            len_bytes == utf8_len(rc),
            len_chars == rc.len(),
            byte_of(rc, rc.len() as int) == utf8_len(rc),
            buf.renderer.wf(),
            rc == rope_chars(buf.rope),
            lines@.len() == k,
            n > 0 ==> line_scroll + n <= line_count(rc),
            n <= area.height,
            area.x + area.width <= u16::MAX,
            area.y + area.height <= u16::MAX,
            ({
                let v = view_upto(&buf.renderer, rc, vm@, line_scroll as int, h_scroll as int, area, unit@, tab, reveal, k as int);
                &&& lines@.len() == v.lines.len()
                &&& forall|i: int| 0 <= i < lines@.len() ==> segs_v(#[trigger] lines@[i]@) == v.lines[i]
                &&& cursor == v.cursor
                &&& overlays@ == v.overlays
            }),
        decreases n - k,
    {
        let ghost prev = view_upto(&buf.renderer, rc, vm@, line_scroll as int, h_scroll as int, area, unit@, tab, reveal, k as int);
        let idx = line_scroll + k;
        let (spans, c, os) = draw_line_at(buf, vm, idx, k as u16, h_scroll, area, unit, tab, reveal);
        lines.push(spans);
        match c {
            Some(c) => {
                cursor = Some(c);
            },
            None => {},
        }
        let ghost o0 = overlays@;
        let mut p: usize = 0;
        while p < os.len()
            invariant
                p <= os@.len(),
                overlays@ == o0 + os@.take(p as int),
            decreases os@.len() - p,
        {
            overlays.push(os[p]);
            proof {
                assert(overlays@ =~= o0 + os@.take(p + 1));
            }
            p += 1;
        }
        proof {
            assert(os@.take(p as int) =~= os@);
            let v = view_upto(&buf.renderer, rc, vm@, line_scroll as int, h_scroll as int, area, unit@, tab, reveal, k + 1);
            assert(lines@.len() == k + 1);
            assert(v.lines.len() == k + 1);
            assert forall|i: int| 0 <= i < lines@.len() implies segs_v(#[trigger] lines@[i]@) == v.lines[i] by {
                if i < k {
                    assert(v.lines[i] == prev.lines[i]);
                }
            }
        }
        k += 1;
    }
    // popups, by priority
    let mut keys: Vec<i128> = Vec::new();
    let mut i: usize = 0;
    while i < overlays.len()
        invariant
            i <= overlays@.len(),
            keys@.len() == i,
            ints(keys@) == overlay_keys(overlays@).take(i as int),
        decreases overlays@.len() - i,
    {
        let ghost pk = keys@;
        keys.push(overlays[i].4 as i128);
        proof {
            assert(keys@ == pk.push(overlays@[i as int].4 as i128));
            assert forall|j: int| 0 <= j < i + 1 implies #[trigger] ints(keys@)[j] == overlay_keys(overlays@).take(i + 1)[j] by {
                if j < i {
                    assert(ints(pk)[j] == overlay_keys(overlays@).take(i as int)[j]);
                }
            }
            assert(ints(keys@) =~= overlay_keys(overlays@).take(i + 1));
        }
        i += 1;
    }
    proof {
        assert(overlay_keys(overlays@).take(i as int) =~= overlay_keys(overlays@));
    }
    let order = stable_order(&keys);
    let mut sorted: Vec<(u16, u16, u64, OverlayPosition, i32)> = Vec::new();
    let mut t: usize = 0;
    while t < order.len()
        invariant
            t <= order@.len(),
            order@.len() == overlays@.len(),
            forall|x: int| 0 <= x < order@.len() ==> #[trigger] order@[x] < overlays@.len(),
            sorted@ == Seq::new(t as nat, |x: int| overlays@[idxs(order@)[x]]),
        decreases order@.len() - t,
    {
        sorted.push(overlays[order[t]]);
        proof {
            assert(sorted@ =~= Seq::new((t + 1) as nat, |x: int| overlays@[idxs(order@)[x]]));
        }
        t += 1;
    }
    let r = ViewRender { lines, cursor, overlays: sorted };
    proof {
        let v = view_of(rd, rc, vm@, line_scroll as int, h_scroll as int, area, unit@, tab, reveal);
        assert(r.v().lines =~= v.lines);
        assert(r.v().overlays =~= v.overlays);
    }
    r
}

/// The first byte of the viewport, from line `scroll`: the end of the text where the
/// text has fewer lines.
pub open spec fn viewport_start(rc: Seq<char>, scroll: int) -> int {
    if scroll < line_count(rc) {
        byte_of(rc, line_start(rc, scroll))
    } else {
        utf8_len(rc)
    }
}

/// The byte after the viewport's last line, `height` lines from line `scroll`.
pub open spec fn viewport_end(rc: Seq<char>, scroll: int, height: int) -> int {
    let end_line = if scroll + height < line_count(rc) {
        scroll + height
    } else {
        line_count(rc) as int
    };
    if end_line < line_count(rc) {
        byte_of(rc, line_start(rc, end_line))
    } else {
        utf8_len(rc)
    }
}

/// Draws the viewport of `buf`: asks its renderer for the marks the viewport holds,
/// then draws line after line as `render_view_with` does. `None` only for a text
/// whose length in bytes is the largest a `usize` holds.
pub fn render_view<S: Copy, W>(
    buf: &TextBuffer<ExtmarkKind<S, W>>,
    line_scroll: usize,
    h_scroll: usize,
    area: Area,
    unit: &Vec<char>,
    tab: S,
    reveal: bool,
) -> (r: Option<ViewRender<S>>)
    requires
        buf.renderer.wf(),
        area.x + area.width <= u16::MAX,
        area.y + area.height <= u16::MAX,
    ensures
        r is Some <==> utf8_len(rope_chars(buf.rope)) < usize::MAX,
        r matches Some(v) ==> exists|vm: Seq<&LineMark<S, W>>|
            #[trigger] query_result(
                &buf.renderer,
                viewport_start(rope_chars(buf.rope), line_scroll as int),
                viewport_end(rope_chars(buf.rope), line_scroll as int, area.height as int) + 1,
                vm,
            ) && v.v() == view_of(
                &buf.renderer,
                rope_chars(buf.rope),
                vm,
                line_scroll as int,
                h_scroll as int,
                area,
                unit@,
                tab,
                reveal,
            ),
{
    let rope = &buf.rope;
    let ghost rc = rope_chars(*rope);
    let total = rope_len_lines(rope);
    let len_bytes = rope_len_bytes(rope);
    if len_bytes == usize::MAX {
        return None;
    }
    proof {
        lemma_byte_of_ends(rc);
    }
    let vs = if line_scroll < total {
        proof {
            lemma_line_start(rc, line_scroll as int);
            lemma_byte_of_mono(rc, line_start(rc, line_scroll as int), rc.len() as int);
        }
        rope_char_to_byte(rope, rope_line_to_char(rope, line_scroll))
    } else {
        len_bytes
    };
    let h = area.height as usize;
    let end_line = if line_scroll < total && h < total - line_scroll { line_scroll + h } else { total };
    let ve = if end_line < total {
        proof {
            lemma_line_start(rc, end_line as int);
            lemma_byte_of_mono(rc, line_start(rc, end_line as int), rc.len() as int);
        }
        rope_char_to_byte(rope, rope_line_to_char(rope, end_line))
    } else {
        len_bytes
    };
    let vm = buf.renderer.query_extmarks(vs..ve + 1);
    let v = render_view_with(buf, &vm, line_scroll, h_scroll, area, unit, tab, reveal);
    proof {
        assert(vs == viewport_start(rc, line_scroll as int));
        assert(ve == viewport_end(rc, line_scroll as int, area.height as int));
        assert(query_result(&buf.renderer, vs as int, ve + 1, vm@));
    }
    Some(v)
}

} // verus!
