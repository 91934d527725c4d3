//! Sorting the marks that meet a line into what each contributes to drawing it.

use vstd::prelude::*;
use crate::decor::{ConcealScope, CursorShape, ExtmarkKind, OverlayPosition, VirtTextPos};
use crate::extmark::Extmark;
use crate::line_render::{HighlightMark, stable_order, stable_sort, ints, idxs, Conceal, ConcealV, conceals_v, conceals_ok, conceals_fit, rep_len};
use crate::text::chars_of;

verus! {

/// Where a line lies, in characters of the text: its first character, the character
/// where it ends (its line break included), its length, and how many of its characters
/// are drawn.
#[derive(Clone, Copy)]
pub struct LineGeom {
    pub start: usize,
    pub end: usize,
    pub char_count: usize,
    pub visible: usize,
}

/// A concealed range of a line, in columns of the line, from mark number `mark`.
#[derive(Clone, Copy)]
pub struct ConcealMark {
    pub start: usize,
    pub end: usize,
    pub mark: usize,
    pub trim_before: bool,
    pub trim_after: bool,
    pub scope: ConcealScope,
}

/// A cursor at column `col` of a line.
#[derive(Clone, Copy)]
pub struct CursorMark<S> {
    pub col: usize,
    pub style: S,
    pub shape: CursorShape,
}

/// Chunk number `chunk` of the virtual text of mark number `mark`.
#[derive(Clone, Copy)]
pub struct ChunkRef {
    pub mark: usize,
    pub chunk: usize,
    pub priority: i32,
}

/// The virtual text of mark number `mark`, anchored at column `col`.
#[derive(Clone, Copy)]
pub struct ColMark {
    pub col: usize,
    pub mark: usize,
}

/// The popup of mark number `mark`, anchored at column `col`.
#[derive(Clone, Copy)]
pub struct PopupMark {
    pub col: usize,
    pub mark: usize,
    pub position: OverlayPosition,
    pub priority: i32,
}

/// Columns `[start, end)` of a line taken by mark number `mark`, which hide the
/// conceals of other namespaces there.
#[derive(Clone, Copy)]
pub struct SuppressRange {
    pub start: usize,
    pub end: usize,
    pub mark: usize,
}

/// What the marks of a line contribute to drawing it.
pub struct LineMarks<S> {
    pub conceals: Vec<ConcealMark>,
    pub highlights: Vec<HighlightMark<S>>,
    pub cursors: Vec<CursorMark<S>>,
    pub newline_highlights: Vec<(Option<S>, i32)>,
    pub eol_highlights: Vec<(Option<S>, i32)>,
    pub eol_chunks: Vec<ChunkRef>,
    pub overlay_marks: Vec<ColMark>,
    pub inline_marks: Vec<ColMark>,
    pub right_align_chunks: Vec<ChunkRef>,
    pub popups: Vec<PopupMark>,
}

/// A mark of a line: the kind of decoration it carries (none: a plain highlight).
pub type LineMark<S, W> = Extmark<Option<ExtmarkKind<S, W>>>;

/// Character `s` lies on the line, its line break included.
pub open spec fn at_line(s: int, g: LineGeom) -> bool {
    g.start <= s <= g.end
}

/// The style of a highlight mark (`None` where the mark is no highlight).
pub open spec fn hl_style<S, W>(k: Option<ExtmarkKind<S, W>>) -> Option<Option<S>> {
    match k {
        None => Some(None),
        Some(ExtmarkKind::Highlight { style }) => Some(Some(style)),
        _ => None,
    }
}

/// The columns of a highlight over characters `[s, e)`: from the line's start at the
/// earliest, and to the line's end where it reaches past it.
pub open spec fn hl_start(s: int, g: LineGeom) -> int {
    if s >= g.start {
        s - g.start
    } else {
        0
    }
}

pub open spec fn hl_end(e: int, g: LineGeom) -> int {
    if e <= g.end {
        e - g.start
    } else {
        g.char_count as int
    }
}

/// A highlight drawn as the cell after an empty line's end.
pub open spec fn hl_newline(s: int, e: int, g: LineGeom) -> bool {
    let sc = hl_start(s, g);
    let ec = hl_end(e, g);
    (ec == sc && ec <= g.visible) || (g.visible == 0 && sc == 0 && ec >= 1)
}

/// A highlight drawn past the end of a non-empty line.
pub open spec fn hl_eol(s: int, e: int, g: LineGeom) -> bool {
    !hl_newline(s, e, g) && hl_start(s, g) >= g.visible && g.visible > 0
}

/// A highlight drawn over columns of the line.
pub open spec fn hl_range(s: int, e: int, g: LineGeom) -> bool {
    !hl_newline(s, e, g) && !hl_eol(s, e, g) && hl_end(e, g) > hl_start(s, g)
}

pub open spec fn contrib_cursors<S, W>(k: Option<ExtmarkKind<S, W>>, s: int, g: LineGeom) -> Seq<CursorMark<S>> {
    match k {
        Some(ExtmarkKind::Cursor { style, shape }) => if at_line(s, g) {
            seq![CursorMark { col: (s - g.start) as usize, style, shape }]
        } else {
            seq![]
        },
        _ => seq![],
    }
}

pub open spec fn contrib_newline<S, W>(k: Option<ExtmarkKind<S, W>>, s: int, e: int, p: i32, g: LineGeom) -> Seq<(Option<S>, i32)> {
    match k {
        Some(ExtmarkKind::Cursor { style, shape }) => if at_line(s, g) && s - g.start >= g.visible && g.visible == 0 {
            seq![(Some(style), p)]
        } else {
            seq![]
        },
        _ => match hl_style(k) {
            Some(st) => if hl_newline(s, e, g) {
                seq![(st, p)]
            } else {
                seq![]
            },
            None => seq![],
        },
    }
}

pub open spec fn contrib_eol_hl<S, W>(k: Option<ExtmarkKind<S, W>>, s: int, e: int, p: i32, g: LineGeom) -> Seq<(Option<S>, i32)> {
    match k {
        Some(ExtmarkKind::Cursor { style, shape }) => if at_line(s, g) && s - g.start >= g.visible && g.visible != 0 {
            seq![(Some(style), p)]
        } else {
            seq![]
        },
        _ => match hl_style(k) {
            Some(st) => if hl_eol(s, e, g) {
                seq![(st, p)]
            } else {
                seq![]
            },
            None => seq![],
        },
    }
}

pub open spec fn contrib_highlights<S, W>(k: Option<ExtmarkKind<S, W>>, s: int, e: int, p: i32, g: LineGeom) -> Seq<HighlightMark<S>> {
    match hl_style(k) {
        Some(st) => if hl_range(s, e, g) {
            seq![HighlightMark { start: hl_start(s, g) as usize, end: hl_end(e, g) as usize, style: st, priority: p }]
        } else {
            seq![]
        },
        None => seq![],
    }
}

pub open spec fn contrib_suppress<S, W>(k: Option<ExtmarkKind<S, W>>, i: int, s: int, e: int, g: LineGeom) -> Seq<SuppressRange> {
    match k {
        Some(ExtmarkKind::Cursor { style, shape }) => if at_line(s, g) {
            seq![SuppressRange { start: (s - g.start) as usize, end: (s - g.start + 1) as usize, mark: i as usize }]
        } else {
            seq![]
        },
        _ => match hl_style(k) {
            Some(st) => if hl_range(s, e, g) {
                seq![SuppressRange { start: hl_start(s, g) as usize, end: hl_end(e, g) as usize, mark: i as usize }]
            } else {
                seq![]
            },
            None => seq![],
        },
    }
}

pub open spec fn is_cursor_at_line<S, W>(k: Option<ExtmarkKind<S, W>>, s: int, g: LineGeom) -> bool {
    match k {
        Some(ExtmarkKind::Cursor { style, shape }) => at_line(s, g),
        _ => false,
    }
}

/// References to the chunks of mark number `i`'s virtual text.
pub open spec fn chunk_refs(i: int, n: int, p: i32) -> Seq<ChunkRef> {
    Seq::new(n as nat, |j: int| ChunkRef { mark: i as usize, chunk: j as usize, priority: p })
}

pub open spec fn contrib_text<S, W>(k: Option<ExtmarkKind<S, W>>, i: int, s: int, p: i32, g: LineGeom, at: VirtTextPos) -> Seq<ChunkRef> {
    match k {
        Some(ExtmarkKind::VirtualText { chunks, pos }) => if at_line(s, g) && pos == at {
            chunk_refs(i, chunks@.len() as int, p)
        } else {
            seq![]
        },
        _ => seq![],
    }
}

pub open spec fn contrib_anchor<S, W>(k: Option<ExtmarkKind<S, W>>, i: int, s: int, g: LineGeom, at: VirtTextPos) -> Seq<ColMark> {
    match k {
        Some(ExtmarkKind::VirtualText { chunks, pos }) => if at_line(s, g) && pos == at {
            seq![ColMark { col: (s - g.start) as usize, mark: i as usize }]
        } else {
            seq![]
        },
        _ => seq![],
    }
}

pub open spec fn contrib_conceals<S, W>(k: Option<ExtmarkKind<S, W>>, i: int, s: int, e: int, g: LineGeom) -> Seq<ConcealMark> {
    match k {
        Some(ExtmarkKind::Conceal { replacement, style, scope, trim_before, trim_after }) => if g.start <= s < g.end {
            let ec = if e - g.start < g.visible { e - g.start } else { g.visible as int };
            seq![ConcealMark { start: (s - g.start) as usize, end: ec as usize, mark: i as usize, trim_before, trim_after, scope }]
        } else {
            seq![]
        },
        _ => seq![],
    }
}

pub open spec fn contrib_popups<S, W>(k: Option<ExtmarkKind<S, W>>, i: int, s: int, p: i32, g: LineGeom) -> Seq<PopupMark> {
    match k {
        Some(ExtmarkKind::Overlay { widget, position }) => if at_line(s, g) {
            seq![PopupMark { col: (s - g.start) as usize, mark: i as usize, position, priority: p }]
        } else {
            seq![]
        },
        _ => seq![],
    }
}

/// What the first `n` marks contribute, each list in the order of the marks.
#[verifier::ext_equal]
pub struct MarksV<S> {
    pub conceals: Seq<ConcealMark>,
    pub highlights: Seq<HighlightMark<S>>,
    pub cursors: Seq<CursorMark<S>>,
    pub newline: Seq<(Option<S>, i32)>,
    pub eol_hl: Seq<(Option<S>, i32)>,
    pub eol_chunks: Seq<ChunkRef>,
    pub overlays: Seq<ColMark>,
    pub inlines: Seq<ColMark>,
    pub right: Seq<ChunkRef>,
    pub popups: Seq<PopupMark>,
    pub suppress: Seq<SuppressRange>,
    pub cursor_on_line: bool,
}

pub open spec fn gathered<S, W>(ms: Seq<&LineMark<S, W>>, rs: Seq<(usize, usize)>, ps: Seq<i32>, g: LineGeom, n: int) -> MarksV<S>
    decreases n,
{
    if n <= 0 {
        MarksV {
            conceals: seq![],
            highlights: seq![],
            cursors: seq![],
            newline: seq![],
            eol_hl: seq![],
            eol_chunks: seq![],
            overlays: seq![],
            inlines: seq![],
            right: seq![],
            popups: seq![],
            suppress: seq![],
            cursor_on_line: false,
        }
    } else {
        let a = gathered(ms, rs, ps, g, n - 1);
        let i = n - 1;
        let k = ms[i].kind;
        let s = rs[i].0 as int;
        let e = rs[i].1 as int;
        let p = ps[i];
        MarksV {
            conceals: a.conceals + contrib_conceals(k, i, s, e, g),
            highlights: a.highlights + contrib_highlights(k, s, e, p, g),
            cursors: a.cursors + contrib_cursors(k, s, g),
            newline: a.newline + contrib_newline(k, s, e, p, g),
            eol_hl: a.eol_hl + contrib_eol_hl(k, s, e, p, g),
            eol_chunks: a.eol_chunks + contrib_text(k, i, s, p, g, VirtTextPos::Eol),
            overlays: a.overlays + contrib_anchor(k, i, s, g, VirtTextPos::Overlay),
            inlines: a.inlines + contrib_anchor(k, i, s, g, VirtTextPos::Inline),
            right: a.right + contrib_text(k, i, s, p, g, VirtTextPos::RightAlign),
            popups: a.popups + contrib_popups(k, i, s, p, g),
            suppress: a.suppress + contrib_suppress(k, i, s, e, g),
            cursor_on_line: a.cursor_on_line || is_cursor_at_line(k, s, g),
        }
    }
}

impl<S> LineMarks<S> {
    /// What these lists hold, with the suppressing ranges `sup` and whether a cursor
    /// is on the line.
    pub open spec fn v(&self, sup: Seq<SuppressRange>, flag: bool) -> MarksV<S> {
        MarksV {
            conceals: self.conceals@,
            highlights: self.highlights@,
            cursors: self.cursors@,
            newline: self.newline_highlights@,
            eol_hl: self.eol_highlights@,
            eol_chunks: self.eol_chunks@,
            overlays: self.overlay_marks@,
            inlines: self.inline_marks@,
            right: self.right_align_chunks@,
            popups: self.popups@,
            suppress: sup,
            cursor_on_line: flag,
        }
    }
}

fn push_chunk_refs(v: &mut Vec<ChunkRef>, i: usize, n: usize, p: i32)
    ensures
        final(v)@ == old(v)@ + chunk_refs(i as int, n as int, p),
{
    let ghost o = v@;
    let mut j: usize = 0;
    while j < n
        invariant
            j <= n,
            v@ == o + chunk_refs(i as int, j as int, p),
        decreases n - j,
    {
        v.push(ChunkRef { mark: i, chunk: j, priority: p });
        proof {
            assert(v@ =~= o + chunk_refs(i as int, j + 1, p));
        }
        j += 1;
    }
}

/// Gathers what each mark contributes to drawing a line: `ranges` gives each mark's
/// characters and `prios` the priority of its namespace.
pub fn gather_marks<S: Copy, W>(
    marks: &Vec<&LineMark<S, W>>,
    ranges: &Vec<(usize, usize)>,
    prios: &Vec<i32>,
    g: LineGeom,
) -> (r: (LineMarks<S>, Vec<SuppressRange>, bool))
    requires
        ranges@.len() == marks@.len(),
        prios@.len() == marks@.len(),
        forall|i: int| 0 <= i < ranges@.len() ==> (#[trigger] ranges@[i]).1 >= g.start,
        g.end < usize::MAX,
    ensures
        r.0.v(r.1@, r.2) == gathered(marks@, ranges@, prios@, g, marks@.len() as int),
{
    let mut lm = LineMarks {
        conceals: Vec::new(),
        highlights: Vec::new(),
        cursors: Vec::new(),
        newline_highlights: Vec::new(),
        eol_highlights: Vec::new(),
        eol_chunks: Vec::new(),
        overlay_marks: Vec::new(),
        inline_marks: Vec::new(),
        right_align_chunks: Vec::new(),
        popups: Vec::new(),
    };
    let mut sup: Vec<SuppressRange> = Vec::new();
    let mut flag = false;
    let mut i: usize = 0;
    proof {
        assert(lm.v(sup@, flag) =~= gathered(marks@, ranges@, prios@, g, 0));
    }
    while i < marks.len()
        invariant
            i <= marks@.len(),
            ranges@.len() == marks@.len(),
            prios@.len() == marks@.len(),
            forall|j: int| 0 <= j < ranges@.len() ==> (#[trigger] ranges@[j]).1 >= g.start,
            g.end < usize::MAX,
            lm.v(sup@, flag) == gathered(marks@, ranges@, prios@, g, i as int),
        decreases marks@.len() - i,
    {
        let ghost a = lm.v(sup@, flag);
        let m = marks[i];
        let (s, e) = ranges[i];
        let p = prios[i];
        proof {
            assert(ranges@[i as int].1 >= g.start);
        }
        let hl: Option<Option<S>> = match &m.kind {
            None => Some(None),
            Some(ExtmarkKind::Highlight { style }) => Some(Some(*style)),
            _ => None,
        };
        match hl {
            Some(st) => {
                let sc = if s >= g.start { s - g.start } else { 0 };
                let ec = if e <= g.end { e - g.start } else { g.char_count };
                let newline = (ec == sc && ec <= g.visible) || (g.visible == 0 && sc == 0 && ec >= 1);
                if newline {
                    lm.newline_highlights.push((st, p));
                } else if sc >= g.visible && g.visible > 0 {
                    lm.eol_highlights.push((st, p));
                } else if ec > sc {
                    lm.highlights.push(HighlightMark { start: sc, end: ec, style: st, priority: p });
                    sup.push(SuppressRange { start: sc, end: ec, mark: i });
                }
            },
            None => {
                match &m.kind {
                    Some(ExtmarkKind::Cursor { style, shape }) => {
                        if s >= g.start && s <= g.end {
                            let col = s - g.start;
                            lm.cursors.push(CursorMark { col, style: *style, shape: *shape });
                            if col >= g.visible {
                                if g.visible == 0 {
                                    lm.newline_highlights.push((Some(*style), p));
                                } else {
                                    lm.eol_highlights.push((Some(*style), p));
                                }
                            }
                            sup.push(SuppressRange { start: col, end: col + 1, mark: i });
                            flag = true;
                        }
                    },
                    Some(ExtmarkKind::VirtualText { chunks, pos }) => {
                        if s >= g.start && s <= g.end {
                            let col = s - g.start;
                            match pos {
                                VirtTextPos::Eol => push_chunk_refs(&mut lm.eol_chunks, i, chunks.len(), p),
                                VirtTextPos::Overlay => lm.overlay_marks.push(ColMark { col, mark: i }),
                                VirtTextPos::Inline => lm.inline_marks.push(ColMark { col, mark: i }),
                                VirtTextPos::RightAlign => push_chunk_refs(&mut lm.right_align_chunks, i, chunks.len(), p),
                            }
                        }
                    },
                    Some(ExtmarkKind::Conceal { replacement, style, scope, trim_before, trim_after }) => {
                        if s >= g.start && s < g.end {
                            let ec = if e - g.start < g.visible { e - g.start } else { g.visible };
                            lm.conceals.push(ConcealMark {
                                start: s - g.start,
                                end: ec,
                                mark: i,
                                trim_before: *trim_before,
                                trim_after: *trim_after,
                                scope: *scope,
                            });
                        }
                    },
                    Some(ExtmarkKind::Overlay { widget, position }) => {
                        if s >= g.start && s <= g.end {
                            lm.popups.push(PopupMark { col: s - g.start, mark: i, position: *position, priority: p });
                        }
                    },
                    _ => {},
                }
            },
        }
        proof {
            let k = marks@[i as int].kind;
            assert(hl == hl_style(k));
            let b = gathered(marks@, ranges@, prios@, g, i + 1);
            let c = lm.v(sup@, flag);
            let ii = i as int;
            let ss = s as int;
            let ee = e as int;
            assert(c.conceals =~= a.conceals + contrib_conceals(k, ii, ss, ee, g));
            assert(c.highlights =~= a.highlights + contrib_highlights(k, ss, ee, p, g));
            assert(c.cursors =~= a.cursors + contrib_cursors(k, ss, g));
            assert(c.newline =~= a.newline + contrib_newline(k, ss, ee, p, g));
            assert(c.eol_hl =~= a.eol_hl + contrib_eol_hl(k, ss, ee, p, g));
            assert(c.eol_chunks =~= a.eol_chunks + contrib_text(k, ii, ss, p, g, VirtTextPos::Eol));
            assert(c.overlays =~= a.overlays + contrib_anchor(k, ii, ss, g, VirtTextPos::Overlay));
            assert(c.inlines =~= a.inlines + contrib_anchor(k, ii, ss, g, VirtTextPos::Inline));
            assert(c.right =~= a.right + contrib_text(k, ii, ss, p, g, VirtTextPos::RightAlign));
            assert(c.popups =~= a.popups + contrib_popups(k, ii, ss, p, g));
            assert(c.suppress =~= a.suppress + contrib_suppress(k, ii, ss, ee, g));
            assert(c.cursor_on_line == (a.cursor_on_line || is_cursor_at_line(k, ss, g)));
            assert(c =~= b);
        }
        i += 1;
    }
    (lm, sup, flag)
}

/// Mark number `i` carries virtual text with more than `c` chunks.
pub open spec fn text_chunk_at<S, W>(ms: Seq<&LineMark<S, W>>, i: int, c: int) -> bool {
    0 <= i < ms.len() && match ms[i].kind {
        Some(ExtmarkKind::VirtualText { chunks, pos }) => 0 <= c < chunks@.len(),
        _ => false,
    }
}

/// Mark number `i` carries virtual text.
pub open spec fn text_mark<S, W>(ms: Seq<&LineMark<S, W>>, i: int) -> bool {
    0 <= i < ms.len() && match ms[i].kind {
        Some(ExtmarkKind::VirtualText { chunks, pos }) => true,
        _ => false,
    }
}

/// Mark number `i` conceals.
pub open spec fn conceal_mark<S, W>(ms: Seq<&LineMark<S, W>>, i: int) -> bool {
    0 <= i < ms.len() && match ms[i].kind {
        Some(ExtmarkKind::Conceal { replacement, style, scope, trim_before, trim_after }) => true,
        _ => false,
    }
}

/// What the gathered lists refer to is there: each reference names a mark of the
/// right kind, and a chunk that the mark has.
pub open spec fn refs_ok<S, W>(mv: MarksV<S>, ms: Seq<&LineMark<S, W>>) -> bool {
    &&& forall|j: int| 0 <= j < mv.conceals.len() ==> conceal_mark(ms, (#[trigger] mv.conceals[j]).mark as int)
    &&& forall|j: int| 0 <= j < mv.suppress.len() ==> (#[trigger] mv.suppress[j]).mark < ms.len()
    &&& forall|j: int| 0 <= j < mv.eol_chunks.len() ==> text_chunk_at(ms, (#[trigger] mv.eol_chunks[j]).mark as int, mv.eol_chunks[j].chunk as int)
    &&& forall|j: int| 0 <= j < mv.right.len() ==> text_chunk_at(ms, (#[trigger] mv.right[j]).mark as int, mv.right[j].chunk as int)
    &&& forall|j: int| 0 <= j < mv.overlays.len() ==> text_mark(ms, (#[trigger] mv.overlays[j]).mark as int)
    &&& forall|j: int| 0 <= j < mv.inlines.len() ==> text_mark(ms, (#[trigger] mv.inlines[j]).mark as int)
    &&& forall|j: int| 0 <= j < mv.popups.len() ==> (#[trigger] mv.popups[j]).mark < ms.len()
}

pub proof fn lemma_gathered_refs<S, W>(ms: Seq<&LineMark<S, W>>, rs: Seq<(usize, usize)>, ps: Seq<i32>, g: LineGeom, n: int)
    requires
        0 <= n <= ms.len(),
        ms.len() <= usize::MAX,
    ensures
        refs_ok(gathered(ms, rs, ps, g, n), ms),
        gathered(ms, rs, ps, g, n).conceals.len() <= n,
    decreases n,
{
    if n > 0 {
        lemma_gathered_refs(ms, rs, ps, g, n - 1);
        let a = gathered(ms, rs, ps, g, n - 1);
        let b = gathered(ms, rs, ps, g, n);
        let i = n - 1;
        let k = ms[i].kind;
        let s = rs[i].0 as int;
        let e = rs[i].1 as int;
        let p = ps[i];
        assert forall|j: int| 0 <= j < b.eol_chunks.len() implies text_chunk_at(ms, (#[trigger] b.eol_chunks[j]).mark as int, b.eol_chunks[j].chunk as int) by {
            if j >= a.eol_chunks.len() {
                let x = j - a.eol_chunks.len();
                assert(b.eol_chunks[j] == contrib_text(k, i, s, p, g, VirtTextPos::Eol)[x]);
                match k {
                    Some(ExtmarkKind::VirtualText { chunks, pos }) => {
                        assert(chunks.len() == chunks@.len());
                        assert(b.eol_chunks[j].chunk == x);
                    },
                    _ => {},
                }
            }
        }
        assert forall|j: int| 0 <= j < b.right.len() implies text_chunk_at(ms, (#[trigger] b.right[j]).mark as int, b.right[j].chunk as int) by {
            if j >= a.right.len() {
                let x = j - a.right.len();
                assert(b.right[j] == contrib_text(k, i, s, p, g, VirtTextPos::RightAlign)[x]);
                match k {
                    Some(ExtmarkKind::VirtualText { chunks, pos }) => {
                        assert(chunks.len() == chunks@.len());
                        assert(b.right[j].chunk == x);
                    },
                    _ => {},
                }
            }
        }
        assert forall|j: int| 0 <= j < b.conceals.len() implies conceal_mark(ms, (#[trigger] b.conceals[j]).mark as int) by {
            if j >= a.conceals.len() {
                assert(b.conceals[j] == contrib_conceals(k, i, s, e, g)[j - a.conceals.len()]);
            }
        }
        assert forall|j: int| 0 <= j < b.suppress.len() implies (#[trigger] b.suppress[j]).mark < ms.len() by {
            if j >= a.suppress.len() {
                assert(b.suppress[j] == contrib_suppress(k, i, s, e, g)[j - a.suppress.len()]);
            }
        }
        assert forall|j: int| 0 <= j < b.overlays.len() implies text_mark(ms, (#[trigger] b.overlays[j]).mark as int) by {
            if j >= a.overlays.len() {
                assert(b.overlays[j] == contrib_anchor(k, i, s, g, VirtTextPos::Overlay)[j - a.overlays.len()]);
            }
        }
        assert forall|j: int| 0 <= j < b.inlines.len() implies text_mark(ms, (#[trigger] b.inlines[j]).mark as int) by {
            if j >= a.inlines.len() {
                assert(b.inlines[j] == contrib_anchor(k, i, s, g, VirtTextPos::Inline)[j - a.inlines.len()]);
            }
        }
        assert forall|j: int| 0 <= j < b.popups.len() implies (#[trigger] b.popups[j]).mark < ms.len() by {
            if j >= a.popups.len() {
                assert(b.popups[j] == contrib_popups(k, i, s, p, g)[j - a.popups.len()]);
            }
        }
    }
}

/// Conceal `cm` gives way to a mark of another namespace: on its line (when its scope,
/// or the cursor being on the line with `force`, says so) or over its columns.
pub open spec fn suppressed<S, W>(cm: ConcealMark, sup: Seq<SuppressRange>, ms: Seq<&LineMark<S, W>>, force: bool) -> bool {
    let line_scope = force || cm.scope == ConcealScope::Line;
    exists|j: int|
        0 <= j < sup.len() && ms[(#[trigger] sup[j]).mark as int].namespace@ != ms[cm.mark as int].namespace@
            && (line_scope || (sup[j].start < cm.end && sup[j].end > cm.start))
}

/// The first `n` conceals of `cs` that do not give way, in order.
pub open spec fn kept_conceals<S, W>(cs: Seq<ConcealMark>, sup: Seq<SuppressRange>, ms: Seq<&LineMark<S, W>>, force: bool, n: int) -> Seq<ConcealMark>
    decreases n,
{
    if n <= 0 {
        seq![]
    } else {
        kept_conceals(cs, sup, ms, force, n - 1) + (if suppressed(cs[n - 1], sup, ms, force) {
            seq![]
        } else {
            seq![cs[n - 1]]
        })
    }
}

pub open spec fn conceal_starts(cs: Seq<ConcealMark>) -> Seq<int> {
    Seq::new(cs.len(), |i: int| cs[i].start as int)
}

pub open spec fn picked_conceals(cs: Seq<ConcealMark>, order: Seq<int>) -> Seq<ConcealMark> {
    Seq::new(order.len(), |i: int| cs[order[i]])
}

/// The conceals of a line that are drawn, ordered by their start: those that do not
/// give way to marks of other namespaces.
pub open spec fn settled_conceals<S, W>(mv: MarksV<S>, ms: Seq<&LineMark<S, W>>, reveal: bool) -> Seq<ConcealMark> {
    let force = reveal && mv.cursor_on_line;
    let kept = kept_conceals(mv.conceals, mv.suppress, ms, force, mv.conceals.len() as int);
    picked_conceals(kept, stable_sort(conceal_starts(kept), kept.len() as int))
}

/// Whether a conceal gives way to one of the suppressing ranges.
fn is_suppressed<S, W>(cm: &ConcealMark, sup: &Vec<SuppressRange>, marks: &Vec<&LineMark<S, W>>, force: bool) -> (r: bool)
    requires
        (cm.mark as int) < marks@.len(),
        forall|j: int| 0 <= j < sup@.len() ==> (#[trigger] sup@[j]).mark < marks@.len(),
    ensures
        r == suppressed(*cm, sup@, marks@, force),
{
    let line_scope = force || cm.scope == ConcealScope::Line;
    let mut j: usize = 0;
    while j < sup.len()
        invariant
            j <= sup@.len(),
            (cm.mark as int) < marks@.len(),
            forall|t: int| 0 <= t < sup@.len() ==> (#[trigger] sup@[t]).mark < marks@.len(),
            line_scope == (force || cm.scope == ConcealScope::Line),
            forall|t: int|
                0 <= t < j ==> !(marks@[(#[trigger] sup@[t]).mark as int].namespace@ != marks@[cm.mark as int].namespace@
                    && (line_scope || (sup@[t].start < cm.end && sup@[t].end > cm.start))),
        decreases sup@.len() - j,
    {
        let sr = &sup[j];
        if marks[sr.mark].namespace != marks[cm.mark].namespace && (line_scope || (sr.start < cm.end && sr.end > cm.start)) {
            return true;
        }
        j += 1;
    }
    false
}

/// The conceals of a line that are drawn, ordered by their start.
pub fn settle_conceals<S, W>(lm: &LineMarks<S>, sup: &Vec<SuppressRange>, flag: bool, marks: &Vec<&LineMark<S, W>>, reveal: bool) -> (r: Vec<ConcealMark>)
    requires
        refs_ok(lm.v(sup@, flag), marks@),
        forall|j: int| 0 <= j < lm.conceals@.len() ==> (#[trigger] lm.conceals@[j]).start <= lm.conceals@[j].end,
    ensures
        r@ == settled_conceals(lm.v(sup@, flag), marks@, reveal),
        r@.len() <= lm.conceals@.len(),
        forall|t: int| 0 <= t < r@.len() ==> conceal_mark(marks@, (#[trigger] r@[t]).mark as int) && r@[t].start <= r@[t].end,
{
    let ghost mv = lm.v(sup@, flag);
    let force = reveal && flag;
    let cs = &lm.conceals;
    let mut kept: Vec<ConcealMark> = Vec::new();
    let mut i: usize = 0;
    while i < cs.len()
        invariant
            i <= cs@.len(),
            mv == lm.v(sup@, flag),
            cs@ == lm.conceals@,
            refs_ok(mv, marks@),
            force == (reveal && flag),
            kept@ == kept_conceals(cs@, sup@, marks@, force, i as int),
            kept@.len() <= i,
            forall|j: int| 0 <= j < cs@.len() ==> (#[trigger] cs@[j]).start <= cs@[j].end,
            forall|t: int| 0 <= t < kept@.len() ==> conceal_mark(marks@, (#[trigger] kept@[t]).mark as int) && kept@[t].start <= kept@[t].end,
        decreases cs@.len() - i,
    {
        let cm = cs[i];
        proof {
            assert(mv.conceals == cs@);
            assert(mv.suppress == sup@);
            assert(mv.conceals[i as int] == cs@[i as int]);
            assert(conceal_mark(marks@, cs@[i as int].mark as int));
            assert forall|j: int| 0 <= j < sup@.len() implies (#[trigger] sup@[j]).mark < marks@.len() by {
                assert(mv.suppress[j] == sup@[j]);
            }
        }
        if !is_suppressed(&cm, sup, marks, force) {
            kept.push(cm);
        }
        proof {
            assert(kept@ =~= kept_conceals(cs@, sup@, marks@, force, i + 1));
        }
        i += 1;
    }
    let mut keys: Vec<i128> = Vec::new();
    let mut k: usize = 0;
    while k < kept.len()
        invariant
            k <= kept@.len(),
            keys@.len() == k,
            ints(keys@) == conceal_starts(kept@).take(k as int),
        decreases kept@.len() - k,
    {
        let ghost pk = keys@;
        keys.push(kept[k].start as i128);
        proof {
            assert(keys@ == pk.push(kept@[k as int].start as i128));
            assert forall|j: int| 0 <= j < k + 1 implies #[trigger] ints(keys@)[j] == conceal_starts(kept@).take(k + 1)[j] by {
                if j < k {
                    assert(ints(pk)[j] == conceal_starts(kept@).take(k as int)[j]);
                }
            }
            assert(ints(keys@) =~= conceal_starts(kept@).take(k + 1));
        }
        k += 1;
    }
    proof {
        assert(conceal_starts(kept@).take(k as int) =~= conceal_starts(kept@));
    }
    let order = stable_order(&keys);
    proof {
        assert forall|x: int| 0 <= x < kept@.len() implies conceal_mark(marks@, (#[trigger] kept@[x]).mark as int) && kept@[x].start <= kept@[x].end by {}
    }
    let mut out: Vec<ConcealMark> = Vec::new();
    let mut t: usize = 0;
    while t < order.len()
        invariant
            t <= order@.len(),
            order@.len() == kept@.len(),
            forall|x: int| 0 <= x < order@.len() ==> #[trigger] order@[x] < kept@.len(),
            out@ == picked_conceals(kept@, idxs(order@).take(t as int)),
            out@.len() == t,
            forall|x: int| 0 <= x < kept@.len() ==> conceal_mark(marks@, (#[trigger] kept@[x]).mark as int) && kept@[x].start <= kept@[x].end,
            forall|x: int| 0 <= x < out@.len() ==> conceal_mark(marks@, (#[trigger] out@[x]).mark as int) && out@[x].start <= out@[x].end,
        decreases order@.len() - t,
    {
        out.push(kept[order[t]]);
        proof {
            assert(out@ =~= picked_conceals(kept@, idxs(order@).take(t + 1)));
        }
        t += 1;
    }
    proof {
        assert(idxs(order@).take(t as int) =~= idxs(order@));
    }
    out
}

/// `c` is ASCII whitespace: a space, a tab, a line feed, a form feed or a carriage
/// return.
pub open spec fn ascii_ws(c: char) -> bool {
    c == ' ' || c == '\t' || c == '\n' || c == '\x0C' || c == '\r'
}

/// Whether `c` is ASCII whitespace.
pub fn is_ascii_ws(c: char) -> (r: bool)
    ensures
        r == ascii_ws(c),
{
    c == ' ' || c == '\t' || c == '\n' || c == '\x0C' || c == '\r'
}

/// Position `s` moved back over the whitespace before it, but not before `lo`.
pub open spec fn back_ws(chars: Seq<char>, s: int, lo: int) -> int
    decreases s - lo,
{
    if s > lo && 0 <= s - 1 < chars.len() && ascii_ws(chars[s - 1]) {
        back_ws(chars, s - 1, lo)
    } else {
        s
    }
}

/// Position `e` moved forward over the whitespace after it, but not to `hi`.
pub open spec fn fwd_ws(chars: Seq<char>, e: int, hi: int) -> int
    decreases hi - e,
{
    if e < hi && 0 <= e < chars.len() && ascii_ws(chars[e]) {
        fwd_ws(chars, e + 1, hi)
    } else {
        e
    }
}

/// The replacement of a concealing mark.
pub open spec fn conceal_rep<S, W>(k: Option<ExtmarkKind<S, W>>) -> Option<Seq<char>> {
    match k {
        Some(ExtmarkKind::Conceal { replacement, style, scope, trim_before, trim_after }) => match replacement {
            Some(r) => Some(r@),
            None => None,
        },
        _ => None,
    }
}

/// The style of a concealing mark's replacement.
pub open spec fn conceal_style<S, W>(k: Option<ExtmarkKind<S, W>>) -> Option<S> {
    match k {
        Some(ExtmarkKind::Conceal { replacement, style, scope, trim_before, trim_after }) => style,
        _ => None,
    }
}

/// The concealed ranges that the conceals `cl[i..]` of a line with characters `chars`
/// hide, the one before having ended at `prev_end`: each widened over the whitespace
/// next to it where it asks for that, not into the range before it nor up to the start
/// of the next.
pub open spec fn effective<S, W>(cl: Seq<ConcealMark>, chars: Seq<char>, ms: Seq<&LineMark<S, W>>, i: int, prev_end: int) -> Seq<ConcealV<S>>
    decreases cl.len() - i,
{
    if i >= cl.len() || i < 0 {
        seq![]
    } else {
        let cm = cl[i];
        let st = if cm.trim_before {
            back_ws(chars, cm.start as int, prev_end)
        } else {
            cm.start as int
        };
        let next = if i + 1 < cl.len() {
            cl[i + 1].start as int
        } else {
            chars.len() as int
        };
        let en = if cm.trim_after {
            fwd_ws(chars, cm.end as int, next)
        } else {
            cm.end as int
        };
        let k = ms[cm.mark as int].kind;
        seq![ConcealV { start: st, end: en, rep: conceal_rep(k), style: conceal_style(k) }] + effective(cl, chars, ms, i + 1, en)
    }
}

/// The concealed ranges of a line, each widened over the whitespace next to it where
/// its mark asks for that.
pub fn effective_conceals<S: Copy, W>(cl: &Vec<ConcealMark>, chars: &Vec<char>, marks: &Vec<&LineMark<S, W>>) -> (r: Vec<Conceal<S>>)
    requires
        forall|j: int| 0 <= j < cl@.len() ==> conceal_mark(marks@, (#[trigger] cl@[j]).mark as int),
        forall|j: int| 0 <= j < cl@.len() ==> (#[trigger] cl@[j]).start <= cl@[j].end,
    ensures
        conceals_v(r@) == effective(cl@, chars@, marks@, 0, 0),
        conceals_fit(conceals_v(r@)),
        conceals_ok(conceals_v(r@)),
        r@.len() == cl@.len(),
{
    let ghost whole = effective(cl@, chars@, marks@, 0, 0);
    let mut out: Vec<Conceal<S>> = Vec::new();
    let mut prev_end: usize = 0;
    let mut i: usize = 0;
    while i < cl.len()
        invariant
            i <= cl@.len(),
            out@.len() == i,
            forall|j: int| 0 <= j < cl@.len() ==> conceal_mark(marks@, (#[trigger] cl@[j]).mark as int),
            forall|j: int| 0 <= j < cl@.len() ==> (#[trigger] cl@[j]).start <= cl@[j].end,
            conceals_v(out@) + effective(cl@, chars@, marks@, i as int, prev_end as int) == whole,
            conceals_fit(conceals_v(out@)),
            conceals_ok(conceals_v(out@)),
        decreases cl@.len() - i,
    {
        let cm = cl[i];
        let ghost st0 = back_ws(chars@, cm.start as int, prev_end as int);
        let mut st = cm.start;
        if cm.trim_before {
            while st > prev_end && st - 1 < chars.len() && is_ascii_ws(chars[st - 1])
                invariant
                    st <= cm.start,
                    back_ws(chars@, st as int, prev_end as int) == st0,
                decreases st,
            {
                st -= 1;
            }
        }
        let next = if i + 1 < cl.len() { cl[i + 1].start } else { chars.len() };
        let ghost en0 = fwd_ws(chars@, cm.end as int, next as int);
        let mut en = cm.end;
        if cm.trim_after {
            while en < next && en < chars.len() && is_ascii_ws(chars[en])
                invariant
                    en >= cm.end,
                    en <= next || en == cm.end,
                    fwd_ws(chars@, en as int, next as int) == en0,
                decreases next - en,
            {
                en += 1;
            }
        }
        let m = marks[cm.mark];
        proof {
            assert(conceal_mark(marks@, cl@[i as int].mark as int));
        }
        let (rep, style) = match &m.kind {
            Some(ExtmarkKind::Conceal { replacement, style, scope, trim_before, trim_after }) => {
                let rep = match replacement {
                    Some(r) => {
                        let v = chars_of(r.as_str());
                        proof {
                            assert(v.len() == v@.len());
                        }
                        Some(v)
                    },
                    None => None,
                };
                (rep, *style)
            },
            _ => (None, None),
        };
        let ghost prev = conceals_v(out@);
        let c = Conceal { start: st, end: en, replacement: rep, style };
        out.push(c);
        proof {
            let k = marks@[cm.mark as int].kind;
            assert(c.v() == ConcealV { start: (if cm.trim_before { st0 } else { cm.start as int }), end: (if cm.trim_after { en0 } else { cm.end as int }), rep: conceal_rep(k), style: conceal_style(k) });
            assert(conceals_v(out@) =~= prev.push(c.v()));
            assert(st <= cm.start <= cm.end <= en);
        }
        prev_end = en;
        i += 1;
    }
    proof {
        assert(conceals_v(out@) + Seq::<ConcealV<S>>::empty() =~= conceals_v(out@));
    }
    out
}

} // verus!
