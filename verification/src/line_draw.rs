//! Drawing a line that marks decorate: the marks gathered, its conceals, highlights
//! and virtual text laid out, then clipped to the viewport.

use vstd::prelude::*;
use crate::decor::{CursorShape, ExtmarkKind, OverlayPosition, StyledChunk};
use crate::line_marks::{
    LineGeom, LineMark, ColMark, ChunkRef, MarksV, gathered, gather_marks, settled_conceals, settle_conceals,
    effective, effective_conceals, lemma_gathered_refs, refs_ok, text_chunk_at, conceal_mark, contrib_conceals,
};
use crate::line_render::{
    Seg, SegV, segs_v, Conceal, ConcealV, conceals_v, display_pos, concealed_runs, highlighted_runs, stacked_by_priority,
    insert_runs, overlay_runs, chunk_runs, prefix_width, spans_from, Viewport, with_eol_and_right, TextChunk,
    TextChunkV, text_chunks_v, stable_sort, stable_order, ints, idxs, build_concealed_segments, apply_highlights,
    stack_by_priority, insert_at, overlay_at, buffer_to_display, char_col_to_display_col, into_spans,
    append_eol_and_right_align, lemma_shifts_fit, lemma_prefix_width_mono, slice_chars,
};
use crate::scroll::{graphemes, utf8_len};
use crate::rope::{rope_chars, char_at_byte, lemma_char_at_byte, rope_byte_to_char, rope_len_bytes, rope_len_chars};
use crate::scroll::{graphemes_of, grapheme_display_width, is_tab_exec, cell_width};
use crate::text::string_of;
use crate::renderer::BufferRenderer;
use ropey::Rope;
use crate::text::chars_of;

verus! {

/// A line as drawn: its spans, its cursors (display column and shape) and its popups
/// (display column of the anchor, number of the mark, position and priority).
pub struct LineRender<S> {
    pub spans: Vec<Seg<S>>,
    pub cursors: Vec<(usize, CursorShape)>,
    pub popups: Vec<(usize, usize, OverlayPosition, i32)>,
}

/// What a drawn line is.
pub struct LineRenderV<S> {
    pub spans: Seq<SegV<S>>,
    pub cursors: Seq<(usize, CursorShape)>,
    pub popups: Seq<(usize, usize, OverlayPosition, i32)>,
}

impl<S> LineRender<S> {
    pub open spec fn v(&self) -> LineRenderV<S> {
        LineRenderV { spans: segs_v(self.spans@), cursors: self.cursors@, popups: self.popups@ }
    }
}

/// The chunks of a mark's virtual text.
pub open spec fn mark_chunks<S, W>(k: Option<ExtmarkKind<S, W>>) -> Seq<StyledChunk<S>> {
    match k {
        Some(ExtmarkKind::VirtualText { chunks, pos }) => chunks@,
        _ => seq![],
    }
}

pub open spec fn col_keys(cs: Seq<ColMark>) -> Seq<int> {
    Seq::new(cs.len(), |i: int| cs[i].col as int)
}

pub open spec fn picked_cols(cs: Seq<ColMark>, order: Seq<int>) -> Seq<ColMark> {
    Seq::new(order.len(), |i: int| cs[order[i]])
}

/// The runs `v` with the inline virtual text of the last `n` of `sorted` inserted,
/// the last first.
pub open spec fn inserted<S, W>(v: Seq<SegV<S>>, sorted: Seq<ColMark>, n: int, eff: Seq<ConcealV<S>>, ms: Seq<&LineMark<S, W>>) -> Seq<SegV<S>>
    decreases n,
{
    if n <= 0 || n > sorted.len() {
        v
    } else {
        let m = sorted[sorted.len() - n];
        insert_runs(
            inserted(v, sorted, n - 1, eff, ms),
            0,
            display_pos(m.col as int, eff),
            chunk_runs(mark_chunks(ms[m.mark as int].kind)),
        )
    }
}

/// The runs `v` with the overlaid virtual text of the first `n` of `ol` drawn over
/// them, in order.
pub open spec fn overlaid<S, W>(v: Seq<SegV<S>>, ol: Seq<ColMark>, n: int, eff: Seq<ConcealV<S>>, ms: Seq<&LineMark<S, W>>) -> Seq<SegV<S>>
    decreases n,
{
    if n <= 0 {
        v
    } else {
        let m = ol[n - 1];
        overlay_runs(overlaid(v, ol, n - 1, eff, ms), display_pos(m.col as int, eff), chunk_runs(mark_chunks(ms[m.mark as int].kind)))
    }
}

/// The chunk that a reference names, with the reference's priority.
pub open spec fn ref_chunk<S, W>(ms: Seq<&LineMark<S, W>>, cr: ChunkRef) -> TextChunkV<S> {
    let c = mark_chunks(ms[cr.mark as int].kind)[cr.chunk as int];
    TextChunkV { text: c.text@, style: c.style, priority: cr.priority }
}

pub open spec fn ref_chunks<S, W>(ms: Seq<&LineMark<S, W>>, crs: Seq<ChunkRef>) -> Seq<TextChunkV<S>> {
    Seq::new(crs.len(), |i: int| ref_chunk(ms, crs[i]))
}

/// The characters of a line that are drawn: the first `visible` of them, and one space
/// more at the end of the text when `extra`.
pub open spec fn full_text(line: Seq<char>, visible: int, extra: bool) -> Seq<char> {
    let t = if visible < line.len() {
        line.take(visible)
    } else {
        line
    };
    if extra {
        t.push(' ')
    } else {
        t
    }
}

/// The line's geometry with one more character at the end of the text when `extra`.
pub open spec fn eof_geom(g: LineGeom, extra: bool) -> LineGeom {
    let eof: int = if extra {
        1
    } else {
        0
    };
    LineGeom {
        start: g.start,
        end: (g.end + eof) as usize,
        char_count: (g.char_count + eof) as usize,
        visible: (g.visible + eof) as usize,
    }
}

/// The display columns of the cursors, each with its style.
pub open spec fn cursor_cols<S>(mv: MarksV<S>, full: Seq<char>, eff: Seq<ConcealV<S>>, unit: Seq<char>) -> Seq<(usize, S)> {
    Seq::new(
        mv.cursors.len(),
        |i: int|
            (
                prefix_width(graphemes(full), display_pos(mv.cursors[i].col as int, eff), unit.len() as int) as usize,
                mv.cursors[i].style,
            ),
    )
}

/// A line, decorated by the marks `ms` (mark `i` covering the characters `rs[i]`, its
/// namespace's priority `ps[i]`), as drawn: conceals replace what they hide, highlights
/// are laid on by priority, inline virtual text is inserted and overlaid virtual text
/// drawn over the text, what falls outside the viewport is cut, and end-of-line and
/// right-aligned virtual text follows.
pub open spec fn drawn_line<S, W>(
    ms: Seq<&LineMark<S, W>>,
    rs: Seq<(usize, usize)>,
    ps: Seq<i32>,
    line: Seq<char>,
    g: LineGeom,
    extra: bool,
    width: int,
    h_scroll: int,
    unit: Seq<char>,
    tab: S,
    reveal: bool,
) -> LineRenderV<S> {
    let g2 = eof_geom(g, extra);
    let mv = gathered(ms, rs, ps, g2, ms.len() as int);
    let full = full_text(line, g.visible as int, extra);
    let eff = effective(settled_conceals(mv, ms, reveal), full, ms, 0, 0);
    let s1 = highlighted_runs(concealed_runs(full, eff), mv.highlights, eff, mv.newline, g2.visible as int);
    let s2 = if mv.eol_hl.len() > 0 {
        s1.push(SegV { text: seq![' '], style: stacked_by_priority(mv.eol_hl) })
    } else {
        s1
    };
    let il = picked_cols(mv.inlines, stable_sort(col_keys(mv.inlines), mv.inlines.len() as int));
    let s3 = inserted(s2, il, mv.inlines.len() as int, eff, ms);
    let s4 = overlaid(s3, mv.overlays, mv.overlays.len() as int, eff, ms);
    let cc = cursor_cols(mv, full, eff, unit);
    let spans = spans_from(s4, 0, Viewport { h: h_scroll, w: width, unit, tab, cc });
    LineRenderV {
        spans: with_eol_and_right(spans, ref_chunks(ms, mv.eol_chunks), ref_chunks(ms, mv.right), width),
        cursors: Seq::new(mv.cursors.len(), |i: int| (cc[i].0, mv.cursors[i].shape)),
        popups: Seq::new(
            mv.popups.len(),
            |i: int| (display_pos(mv.popups[i].col as int, eff) as usize, mv.popups[i].mark, mv.popups[i].position, mv.popups[i].priority),
        ),
    }
}

/// Each concealing mark that starts on the line ends no earlier than it starts, and
/// starts among the drawn characters or right after them.
pub open spec fn conceals_sane<S, W>(ms: Seq<&LineMark<S, W>>, rs: Seq<(usize, usize)>, g: LineGeom) -> bool {
    forall|i: int|
        0 <= i < ms.len() && conceal_mark(ms, i) && g.start <= (#[trigger] rs[i]).0 < g.end ==> rs[i].0 <= rs[i].1
            && rs[i].0 - g.start <= g.visible
}

proof fn lemma_gathered_conceals_sane<S, W>(ms: Seq<&LineMark<S, W>>, rs: Seq<(usize, usize)>, ps: Seq<i32>, g: LineGeom, n: int)
    requires
        0 <= n <= ms.len(),
        rs.len() == ms.len(),
        conceals_sane(ms, rs, g),
    ensures
        forall|j: int| 0 <= j < gathered(ms, rs, ps, g, n).conceals.len()
            ==> (#[trigger] gathered(ms, rs, ps, g, n).conceals[j]).start <= gathered(ms, rs, ps, g, n).conceals[j].end,
    decreases n,
{
    if n > 0 {
        lemma_gathered_conceals_sane(ms, rs, ps, g, n - 1);
        let a = gathered(ms, rs, ps, g, n - 1).conceals;
        let b = gathered(ms, rs, ps, g, n).conceals;
        let i = n - 1;
        let c = contrib_conceals(ms[i].kind, i, rs[i].0 as int, rs[i].1 as int, g);
        assert(b == a + c);
        assert forall|j: int| 0 <= j < b.len() implies (#[trigger] b[j]).start <= b[j].end by {
            if j >= a.len() {
                assert(b[j] == c[j - a.len()]);
                assert(conceal_mark(ms, i));
                assert(rs[i].0 <= rs[i].1);
            }
        }
    }
}

/// Every display position of a line's characters can be computed with the conceals.
pub open spec fn positions_fit<S>(eff: Seq<ConcealV<S>>) -> bool {
    &&& forall|col: int| 0 <= col <= usize::MAX ==> #[trigger] crate::line_render::shifts_fit(col, eff, 0, 0)
    &&& crate::line_render::conceals_ok(eff)
}

proof fn lemma_eff_fits<S>(eff: Seq<ConcealV<S>>)
    requires
        eff.len() <= isize::MAX,
        crate::line_render::conceals_fit(eff),
        crate::line_render::conceals_ok(eff),
    ensures
        positions_fit(eff),
{
    assert forall|col: int| 0 <= col <= usize::MAX implies #[trigger] crate::line_render::shifts_fit(col, eff, 0, 0) by {
        lemma_shifts_fit(col, eff, 0, 0);
    }
}

/// Inserts the inline virtual text of the marks `inl`, by column, the last first.
fn insert_inlines<S: Copy, W>(segs: Vec<Seg<S>>, inl: &Vec<ColMark>, eff: &Vec<Conceal<S>>, marks: &Vec<&LineMark<S, W>>) -> (r: Vec<Seg<S>>)
    requires
        positions_fit(conceals_v(eff@)),
        forall|j: int| 0 <= j < inl@.len() ==> crate::line_marks::text_mark(marks@, (#[trigger] inl@[j]).mark as int),
    ensures
        segs_v(r@) == inserted(
            segs_v(segs@),
            picked_cols(inl@, stable_sort(col_keys(inl@), inl@.len() as int)),
            inl@.len() as int,
            conceals_v(eff@),
            marks@,
        ),
{
    let ghost effv = conceals_v(eff@);
    let ghost s2 = segs_v(segs@);
    let mut keys: Vec<i128> = Vec::new();
    let mut k: usize = 0;
    while k < inl.len()
        invariant
            k <= inl@.len(),
            keys@.len() == k,
            ints(keys@) == col_keys(inl@).take(k as int),
        decreases inl@.len() - k,
    {
        let ghost pk = keys@;
        keys.push(inl[k].col as i128);
        proof {
            assert(keys@ == pk.push(inl@[k as int].col as i128));
            assert forall|j: int| 0 <= j < k + 1 implies #[trigger] ints(keys@)[j] == col_keys(inl@).take(k + 1)[j] by {
                if j < k {
                    assert(ints(pk)[j] == col_keys(inl@).take(k as int)[j]);
                }
            }
            assert(ints(keys@) =~= col_keys(inl@).take(k + 1));
        }
        k += 1;
    }
    proof {
        assert(col_keys(inl@).take(k as int) =~= col_keys(inl@));
    }
    let order = stable_order(&keys);
    let ghost il = picked_cols(inl@, stable_sort(col_keys(inl@), inl@.len() as int));
    proof {
        assert(il =~= picked_cols(inl@, idxs(order@)));
    }
    let mut segs = segs;
    let mut j: usize = 0;
    while j < order.len()
        invariant
            j <= order@.len(),
            order@.len() == inl@.len(),
            forall|x: int| 0 <= x < order@.len() ==> #[trigger] order@[x] < inl@.len(),
            forall|x: int| 0 <= x < inl@.len() ==> crate::line_marks::text_mark(marks@, (#[trigger] inl@[x]).mark as int),
            il == picked_cols(inl@, idxs(order@)),
            il.len() == order@.len(),
            positions_fit(effv),
            effv == conceals_v(eff@),
            segs_v(segs@) == inserted(s2, il, j as int, effv, marks@),
        decreases order@.len() - j,
    {
        let m = inl[order[order.len() - 1 - j]];
        proof {
            assert(il[il.len() - (j + 1)] == m);
            assert(crate::line_marks::text_mark(marks@, m.mark as int));
        }
        let col = buffer_to_display(m.col, eff);
        match &marks[m.mark].kind {
            Some(ExtmarkKind::VirtualText { chunks, pos }) => {
                segs = insert_at(&segs, col, chunks);
            },
            _ => {
                let none: Vec<StyledChunk<S>> = Vec::new();
                proof {
                    assert(chunk_runs(none@) =~= chunk_runs(mark_chunks(marks@[m.mark as int].kind)));
                }
                segs = insert_at(&segs, col, &none);
            },
        }
        j += 1;
    }
    segs
}

/// Draws the overlaid virtual text of the marks `ol` over the runs, in order.
fn overlay_all<S: Copy, W>(segs: Vec<Seg<S>>, ol: &Vec<ColMark>, eff: &Vec<Conceal<S>>, marks: &Vec<&LineMark<S, W>>) -> (r: Vec<Seg<S>>)
    requires
        positions_fit(conceals_v(eff@)),
        forall|j: int| 0 <= j < ol@.len() ==> crate::line_marks::text_mark(marks@, (#[trigger] ol@[j]).mark as int),
    ensures
        segs_v(r@) == overlaid(segs_v(segs@), ol@, ol@.len() as int, conceals_v(eff@), marks@),
{
    let ghost effv = conceals_v(eff@);
    let ghost s3 = segs_v(segs@);
    let mut segs = segs;
    let mut t: usize = 0;
    while t < ol.len()
        invariant
            t <= ol@.len(),
            forall|x: int| 0 <= x < ol@.len() ==> crate::line_marks::text_mark(marks@, (#[trigger] ol@[x]).mark as int),
            positions_fit(effv),
            effv == conceals_v(eff@),
            segs_v(segs@) == overlaid(s3, ol@, t as int, effv, marks@),
        decreases ol@.len() - t,
    {
        let m = ol[t];
        proof {
            assert(crate::line_marks::text_mark(marks@, ol@[t as int].mark as int));
        }
        let col = buffer_to_display(m.col, eff);
        match &marks[m.mark].kind {
            Some(ExtmarkKind::VirtualText { chunks, pos }) => {
                segs = overlay_at(&segs, col, chunks);
            },
            _ => {
                let none: Vec<StyledChunk<S>> = Vec::new();
                proof {
                    assert(chunk_runs(none@) =~= chunk_runs(mark_chunks(marks@[m.mark as int].kind)));
                }
                segs = overlay_at(&segs, col, &none);
            },
        }
        t += 1;
    }
    segs
}

/// The chunks that the references name.
fn resolve_chunks<S: Copy, W>(crs: &Vec<ChunkRef>, marks: &Vec<&LineMark<S, W>>) -> (r: Vec<TextChunk<S>>)
    requires
        forall|j: int| 0 <= j < crs@.len() ==> text_chunk_at(marks@, (#[trigger] crs@[j]).mark as int, crs@[j].chunk as int),
    ensures
        text_chunks_v(r@) == ref_chunks(marks@, crs@),
{
    let mut out: Vec<TextChunk<S>> = Vec::new();
    let mut e: usize = 0;
    while e < crs.len()
        invariant
            e <= crs@.len(),
            forall|j: int| 0 <= j < crs@.len() ==> text_chunk_at(marks@, (#[trigger] crs@[j]).mark as int, crs@[j].chunk as int),
            text_chunks_v(out@) == ref_chunks(marks@, crs@).take(e as int),
        decreases crs@.len() - e,
    {
        let cr = crs[e];
        proof {
            assert(text_chunk_at(marks@, crs@[e as int].mark as int, crs@[e as int].chunk as int));
        }
        let ghost prev = out@;
        match &marks[cr.mark].kind {
            Some(ExtmarkKind::VirtualText { chunks, pos }) => {
                let ch = &chunks[cr.chunk];
                let tc = TextChunk { text: chars_of(ch.text.as_str()), style: ch.style, priority: cr.priority };
                out.push(tc);
                proof {
                    assert(out@ == prev.push(tc));
                    assert(tc.v() == ref_chunk(marks@, cr));
                    assert(text_chunks_v(out@) =~= text_chunks_v(prev).push(tc.v()));
                    assert(ref_chunks(marks@, crs@).take(e + 1) =~= ref_chunks(marks@, crs@).take(e as int).push(
                        ref_chunk(marks@, crs@[e as int]),
                    ));
                }
            },
            _ => {
                proof {
                    assert(false);
                }
            },
        }
        proof {
            assert(text_chunks_v(out@) =~= ref_chunks(marks@, crs@).take(e + 1));
        }
        e += 1;
    }
    proof {
        assert(ref_chunks(marks@, crs@).take(e as int) =~= ref_chunks(marks@, crs@));
    }
    out
}

/// The display columns of the popups' anchors, with each popup's mark, position and
/// priority.
fn popup_columns<S>(ps: &Vec<crate::line_marks::PopupMark>, eff: &Vec<Conceal<S>>) -> (r: Vec<(usize, usize, OverlayPosition, i32)>)
    requires
        positions_fit(conceals_v(eff@)),
    ensures
        r@ == Seq::new(
            ps@.len(),
            |i: int| (display_pos(ps@[i].col as int, conceals_v(eff@)) as usize, ps@[i].mark, ps@[i].position, ps@[i].priority),
        ),
{
    let ghost effv = conceals_v(eff@);
    let mut popups: Vec<(usize, usize, OverlayPosition, i32)> = Vec::new();
    let mut u: usize = 0;
    while u < ps.len()
        invariant
            u <= ps@.len(),
            positions_fit(effv),
            effv == conceals_v(eff@),
            popups@ == Seq::new(
                u as nat,
                |i: int| (display_pos(ps@[i].col as int, effv) as usize, ps@[i].mark, ps@[i].position, ps@[i].priority),
            ),
        decreases ps@.len() - u,
    {
        let pm = ps[u];
        let col = buffer_to_display(pm.col, eff);
        popups.push((col, pm.mark, pm.position, pm.priority));
        proof {
            assert(popups@ =~= Seq::new(
                (u + 1) as nat,
                |i: int| (display_pos(ps@[i].col as int, effv) as usize, ps@[i].mark, ps@[i].position, ps@[i].priority),
            ));
        }
        u += 1;
    }
    popups
}

/// The display columns of the cursors, each with its style, and each with its shape.
fn cursor_columns<S: Copy>(cs: &Vec<crate::line_marks::CursorMark<S>>, full: &Vec<char>, eff: &Vec<Conceal<S>>, unit: &Vec<char>) -> (r: (
    Vec<(usize, S)>,
    Vec<(usize, CursorShape)>,
))
    requires
        positions_fit(conceals_v(eff@)),
        prefix_width(graphemes(full@), graphemes(full@).len() as int, unit@.len() as int) <= usize::MAX,
    ensures
        r.0@ == Seq::new(
            cs@.len(),
            |i: int|
                (
                    prefix_width(graphemes(full@), display_pos(cs@[i].col as int, conceals_v(eff@)), unit@.len() as int) as usize,
                    cs@[i].style,
                ),
        ),
        r.1@ == Seq::new(cs@.len(), |i: int| (r.0@[i].0, cs@[i].shape)),
{
    let ghost effv = conceals_v(eff@);
    let ghost ccv = Seq::new(
        cs@.len(),
        |i: int|
            (
                prefix_width(graphemes(full@), display_pos(cs@[i].col as int, effv), unit@.len() as int) as usize,
                cs@[i].style,
            ),
    );
    let mut cc: Vec<(usize, S)> = Vec::new();
    let mut shapes: Vec<(usize, CursorShape)> = Vec::new();
    let mut c: usize = 0;
    while c < cs.len()
        invariant
            c <= cs@.len(),
            positions_fit(effv),
            effv == conceals_v(eff@),
            prefix_width(graphemes(full@), graphemes(full@).len() as int, unit@.len() as int) <= usize::MAX,
            ccv == Seq::new(
                cs@.len(),
                |i: int|
                    (
                        prefix_width(graphemes(full@), display_pos(cs@[i].col as int, effv), unit@.len() as int) as usize,
                        cs@[i].style,
                    ),
            ),
            cc@ == ccv.take(c as int),
            shapes@ == Seq::new(c as nat, |i: int| (ccv[i].0, cs@[i].shape)),
        decreases cs@.len() - c,
    {
        let cm = cs[c];
        let dc = buffer_to_display(cm.col, eff);
        proof {
            let gs = graphemes(full@);
            if dc <= gs.len() {
                lemma_prefix_width_mono(gs, dc as int, gs.len() as int, unit@.len() as int);
            }
        }
        let col = char_col_to_display_col(full, dc, unit);
        cc.push((col, cm.style));
        shapes.push((col, cm.shape));
        proof {
            assert(cc@ =~= ccv.take(c + 1));
            assert(shapes@ =~= Seq::new((c + 1) as nat, |i: int| (ccv[i].0, cs@[i].shape)));
        }
        c += 1;
    }
    proof {
        assert(ccv.take(c as int) =~= ccv);
    }
    (cc, shapes)
}

/// Draws a line that marks decorate: mark `i` covers the line's characters
/// `ranges[i]` and its namespace has priority `prios[i]`; `line` holds the line's
/// characters, `g` says where it lies, and `extra` asks for one more cell past the end
/// of the text.
#[verifier::spinoff_prover]
#[verifier::rlimit(80)]
pub fn draw_marked_line<S: Copy, W>(
    marks: &Vec<&LineMark<S, W>>,
    ranges: &Vec<(usize, usize)>,
    prios: &Vec<i32>,
    line: &Vec<char>,
    g: LineGeom,
    extra: bool,
    width: usize,
    h_scroll: usize,
    unit: &Vec<char>,
    tab_style: S,
    reveal: bool,
) -> (r: LineRender<S>)
    requires
        ranges@.len() == marks@.len(),
        prios@.len() == marks@.len(),
        marks@.len() <= isize::MAX,
        forall|i: int| 0 <= i < ranges@.len() ==> (#[trigger] ranges@[i]).1 >= g.start,
        g.end + 1 < usize::MAX,
        g.char_count < usize::MAX,
        g.visible < usize::MAX,
        conceals_sane(marks@, ranges@, eof_geom(g, extra)),
        prefix_width(
            graphemes(full_text(line@, g.visible as int, extra)),
            graphemes(full_text(line@, g.visible as int, extra)).len() as int,
            unit@.len() as int,
        ) <= usize::MAX,
    ensures
        r.v() == drawn_line(
            marks@,
            ranges@,
            prios@,
            line@,
            g,
            extra,
            width as int,
            h_scroll as int,
            unit@,
            tab_style,
            reveal,
        ),
{
    let eof: usize = if extra { 1 } else { 0 };
    let g2 = LineGeom { start: g.start, end: g.end + eof, char_count: g.char_count + eof, visible: g.visible + eof };
    proof {
        assert(g2 == eof_geom(g, extra));
    }
    let (lm, sup, flag) = gather_marks(marks, ranges, prios, g2);
    let ghost mv = gathered(marks@, ranges@, prios@, g2, marks@.len() as int);
    proof {
        assert(marks.len() == marks@.len());
        lemma_gathered_refs(marks@, ranges@, prios@, g2, marks@.len() as int);
        lemma_gathered_conceals_sane(marks@, ranges@, prios@, g2, marks@.len() as int);
        assert(lm.v(sup@, flag) == mv);
        assert forall|j: int| 0 <= j < lm.conceals@.len() implies (#[trigger] lm.conceals@[j]).start <= lm.conceals@[j].end by {
            assert(mv.conceals[j] == lm.conceals@[j]);
        }
    }
    let cl = settle_conceals(&lm, &sup, flag, marks, reveal);
    let n = if g.visible < line.len() { g.visible } else { line.len() };
    let mut full = slice_chars(line, 0, n);
    if extra {
        full.push(' ');
    }
    let ghost fullv = full_text(line@, g.visible as int, extra);
    proof {
        if g.visible < line@.len() {
            assert(line@.subrange(0, n as int) =~= line@.take(g.visible as int));
        } else {
            assert(line@.subrange(0, n as int) =~= line@);
        }
        assert(full@ =~= fullv);
    }
    let eff = effective_conceals(&cl, &full, marks);
    let ghost effv = conceals_v(eff@);
    proof {
        assert(effv == effective(settled_conceals(mv, marks@, reveal), fullv, marks@, 0, 0));
        lemma_eff_fits(effv);
    }
    let segs0 = build_concealed_segments(&full, &eff);
    proof {
        assert forall|j: int| 0 <= j < lm.highlights@.len() implies crate::line_render::shifts_fit((#[trigger] lm.highlights@[j]).start as int, effv, 0, 0)
            && crate::line_render::shifts_fit(lm.highlights@[j].end as int, effv, 0, 0) by {}
    }
    let mut segs = apply_highlights(segs0, &lm.highlights, &eff, &lm.newline_highlights, g2.visible);
    let ghost s1 = segs_v(segs@);
    if lm.eol_highlights.len() > 0 {
        let st = stack_by_priority(&lm.eol_highlights);
        let mut sp: Vec<char> = Vec::new();
        sp.push(' ');
        segs.push(Seg { text: sp, style: st });
        proof {
            assert(segs_v(segs@) =~= s1.push(SegV { text: seq![' '], style: stacked_by_priority(mv.eol_hl) }));
        }
    }
    proof {
        assert forall|j: int| 0 <= j < lm.inline_marks@.len() implies crate::line_marks::text_mark(marks@, (#[trigger] lm.inline_marks@[j]).mark as int) by {
            assert(mv.inlines[j] == lm.inline_marks@[j]);
        }
        assert forall|j: int| 0 <= j < lm.overlay_marks@.len() implies crate::line_marks::text_mark(marks@, (#[trigger] lm.overlay_marks@[j]).mark as int) by {
            assert(mv.overlays[j] == lm.overlay_marks@[j]);
        }
        assert forall|j: int| 0 <= j < lm.eol_chunks@.len() implies text_chunk_at(marks@, (#[trigger] lm.eol_chunks@[j]).mark as int, lm.eol_chunks@[j].chunk as int) by {
            assert(mv.eol_chunks[j] == lm.eol_chunks@[j]);
        }
        assert forall|j: int| 0 <= j < lm.right_align_chunks@.len() implies text_chunk_at(marks@, (#[trigger] lm.right_align_chunks@[j]).mark as int, lm.right_align_chunks@[j].chunk as int) by {
            assert(mv.right[j] == lm.right_align_chunks@[j]);
        }
    }
    let ghost s2 = segs_v(segs@);
    let segs = insert_inlines(segs, &lm.inline_marks, &eff, marks);
    let ghost s3 = segs_v(segs@);
    let segs = overlay_all(segs, &lm.overlay_marks, &eff, marks);
    let ghost s4 = segs_v(segs@);
    let (cc, cursors) = cursor_columns(&lm.cursors, &full, &eff, unit);
    let mut spans = into_spans(&segs, h_scroll, width, unit, tab_style, &cc);
    let ghost sp = segs_v(spans@);
    let eol = resolve_chunks(&lm.eol_chunks, marks);
    let right = resolve_chunks(&lm.right_align_chunks, marks);
    append_eol_and_right_align(&mut spans, &eol, &right, width);
    let popups = popup_columns(&lm.popups, &eff);
    proof {
        let ccv = cursor_cols(mv, fullv, effv, unit@);
        assert(cc@ =~= ccv);
        assert(s1 == highlighted_runs(concealed_runs(fullv, effv), mv.highlights, effv, mv.newline, g2.visible as int));
        let s2v = if mv.eol_hl.len() > 0 {
            s1.push(SegV { text: seq![' '], style: stacked_by_priority(mv.eol_hl) })
        } else {
            s1
        };
        assert(s2 == s2v);
        let il = picked_cols(mv.inlines, stable_sort(col_keys(mv.inlines), mv.inlines.len() as int));
        assert(s3 == inserted(s2v, il, mv.inlines.len() as int, effv, marks@));
        assert(s4 == overlaid(s3, mv.overlays, mv.overlays.len() as int, effv, marks@));
        assert(sp == spans_from(s4, 0, Viewport { h: h_scroll as int, w: width as int, unit: unit@, tab: tab_style, cc: ccv }));
        assert(text_chunks_v(eol@) == ref_chunks(marks@, mv.eol_chunks));
        assert(text_chunks_v(right@) == ref_chunks(marks@, mv.right));
        assert(cursors@ =~= Seq::new(mv.cursors.len(), |i: int| (ccv[i].0, mv.cursors[i].shape)));
    }
    LineRender { spans, cursors, popups }
}

/// The characters that the marks cover in a text whose characters are `rc`: their
/// byte ranges, cut at the end of the text, as characters; a mark that reaches past
/// the end covers one character more when `extra`.
pub open spec fn char_ranges<S, W>(rc: Seq<char>, ms: Seq<&LineMark<S, W>>, extra: bool) -> Seq<(usize, usize)> {
    Seq::new(
        ms.len(),
        |i: int|
            {
                let l = utf8_len(rc);
                let b0 = ms[i].byte_range.start as int;
                let b1 = ms[i].byte_range.end as int;
                let s = char_at_byte(rc, if b0 < l { b0 } else { l });
                let e = char_at_byte(rc, if b1 < l { b1 } else { l }) + (if extra && b1 > l { 1int } else { 0int });
                (s as usize, e as usize)
            },
    )
}

/// The priorities of the marks' namespaces.
pub open spec fn ns_prios<K, S, W>(rd: &BufferRenderer<K>, ms: Seq<&LineMark<S, W>>) -> Seq<i32> {
    Seq::new(ms.len(), |i: int| rd.priority_of(ms[i].namespace@) as i32)
}

/// The characters that the marks cover in the text of `rope`.
pub fn mark_char_ranges<S, W>(rope: &Rope, marks: &Vec<&LineMark<S, W>>, extra: bool) -> (r: Vec<(usize, usize)>)
    requires
        rope_chars(*rope).len() < usize::MAX,
    ensures
        r@ == char_ranges(rope_chars(*rope), marks@, extra),
{
    let ghost rc = rope_chars(*rope);
    let len = rope_len_bytes(rope);
    let mut r: Vec<(usize, usize)> = Vec::new();
    let mut i: usize = 0;
    while i < marks.len()
        invariant
            i <= marks@.len(),
            rc == rope_chars(*rope),
            rc.len() < usize::MAX,
            len == utf8_len(rc),
            r@ == char_ranges(rc, marks@, extra).take(i as int),
        decreases marks@.len() - i,
    {
        let m = marks[i];
        let b0 = if m.byte_range.start < len { m.byte_range.start } else { len };
        let b1 = if m.byte_range.end < len { m.byte_range.end } else { len };
        let s = rope_byte_to_char(rope, b0);
        let e0 = rope_byte_to_char(rope, b1);
        proof {
            lemma_char_at_byte(rc, b1 as int);
        }
        let e = if extra && m.byte_range.end > len { e0 + 1 } else { e0 };
        r.push((s, e));
        proof {
            assert(r@ =~= char_ranges(rc, marks@, extra).take(i + 1));
        }
        i += 1;
    }
    proof {
        assert(char_ranges(rc, marks@, extra).take(i as int) =~= char_ranges(rc, marks@, extra));
    }
    r
}

/// The priorities of the marks' namespaces.
pub fn mark_priorities<K, S, W>(rd: &BufferRenderer<K>, marks: &Vec<&LineMark<S, W>>) -> (r: Vec<i32>)
    requires
        rd.wf(),
    ensures
        r@ == ns_prios(rd, marks@),
{
    let mut r: Vec<i32> = Vec::new();
    let mut i: usize = 0;
    while i < marks.len()
        invariant
            i <= marks@.len(),
            rd.wf(),
            r@ == ns_prios(rd, marks@).take(i as int),
        decreases marks@.len() - i,
    {
        let p = rd.ns_priority(marks[i].namespace.as_str());
        r.push(p);
        proof {
            assert(r@ =~= ns_prios(rd, marks@).take(i + 1));
        }
        i += 1;
    }
    proof {
        assert(ns_prios(rd, marks@).take(i as int) =~= ns_prios(rd, marks@));
    }
    r
}

/// Draws a line of the text of `rope` that the marks decorate, their namespaces ranked
/// by the priorities that `rd` holds: `line` holds the line's characters, `g` says
/// where it lies, `extra` asks for one more cell past the end of the text, and the
/// viewport is `width` wide, `h_scroll` columns scrolled, with a tab drawn as `unit`
/// in `tab_style`; with `reveal`, conceals give way on the line that holds a cursor.
pub fn render_marked_line<K, S: Copy, W>(
    rope: &Rope,
    rd: &BufferRenderer<K>,
    marks: &Vec<&LineMark<S, W>>,
    line: &Vec<char>,
    g: LineGeom,
    extra: bool,
    width: usize,
    h_scroll: usize,
    unit: &Vec<char>,
    tab_style: S,
    reveal: bool,
) -> (r: LineRender<S>)
    requires
        rd.wf(),
        rope_chars(*rope).len() < usize::MAX,
        marks@.len() <= isize::MAX,
        forall|i: int| 0 <= i < marks@.len() ==> (#[trigger] char_ranges(rope_chars(*rope), marks@, extra)[i]).1 >= g.start,
        g.end + 1 < usize::MAX,
        g.char_count < usize::MAX,
        g.visible < usize::MAX,
        conceals_sane(marks@, char_ranges(rope_chars(*rope), marks@, extra), eof_geom(g, extra)),
        prefix_width(
            graphemes(full_text(line@, g.visible as int, extra)),
            graphemes(full_text(line@, g.visible as int, extra)).len() as int,
            unit@.len() as int,
        ) <= usize::MAX,
    ensures
        r.v() == drawn_line(
            marks@,
            char_ranges(rope_chars(*rope), marks@, extra),
            ns_prios(rd, marks@),
            line@,
            g,
            extra,
            width as int,
            h_scroll as int,
            unit@,
            tab_style,
            reveal,
        ),
{
    let ranges = mark_char_ranges(rope, marks, extra);
    let prios = mark_priorities(rd, marks);
    draw_marked_line(marks, &ranges, &prios, line, g, extra, width, h_scroll, unit, tab_style, reveal)
}

/// Whether the display width of the whole of `line` fits in a `usize`, a tab being
/// `tab_w` columns wide.
pub fn width_fits(line: &Vec<char>, tab_w: usize) -> (r: bool)
    ensures
        r == (prefix_width(graphemes(line@), graphemes(line@).len() as int, tab_w as int) <= usize::MAX),
{
    let text = string_of(line);
    let gs = graphemes_of(text.as_str());
    let ghost gv = graphemes(line@);
    proof {
        assert(gs@.map_values(|g: String| g@).len() == gs@.len());
    }
    let mut acc: u128 = 0;
    let mut i: usize = 0;
    while i < gs.len()
        invariant
            i <= gs@.len(),
            gs@.map_values(|g: String| g@) == gv,
            gv == graphemes(line@),
            gs@.len() == gv.len(),
            acc == prefix_width(gv, i as int, tab_w as int),
            acc <= usize::MAX,
        decreases gs@.len() - i,
    {
        let g = gs[i].as_str();
        proof {
            assert(gv[i as int] == g@);
        }
        let gc = crate::text::chars_of(g);
        let w = if is_tab_exec(&gc) { tab_w } else { grapheme_display_width(g) };
        acc = acc + w as u128;
        proof {
            assert(w == cell_width(gv[i as int], tab_w as int));
            assert(acc == prefix_width(gv, i + 1, tab_w as int));
        }
        if acc > usize::MAX as u128 {
            proof {
                crate::line_render::lemma_prefix_width_mono(gv, i + 1, gv.len() as int, tab_w as int);
                assert(prefix_width(gv, gv.len() as int, tab_w as int) > usize::MAX);
                assert(gv == graphemes(line@));
            }
            return false;
        }
        i += 1;
    }
    true
}

/// Whether each conceal that starts on the line ends no earlier than it starts and
/// starts among the drawn characters or right after them.
pub fn check_conceals<S, W>(marks: &Vec<&LineMark<S, W>>, ranges: &Vec<(usize, usize)>, g: LineGeom) -> (r: bool)
    requires
        ranges@.len() == marks@.len(),
    ensures
        r == conceals_sane(marks@, ranges@, g),
{
    let mut i: usize = 0;
    while i < marks.len()
        invariant
            i <= marks@.len(),
            ranges@.len() == marks@.len(),
            forall|j: int|
                0 <= j < i && conceal_mark(marks@, j) && g.start <= (#[trigger] ranges@[j]).0 < g.end ==> ranges@[j].0
                    <= ranges@[j].1 && ranges@[j].0 - g.start <= g.visible,
        decreases marks@.len() - i,
    {
        let (s, e) = ranges[i];
        let is_conceal = match &marks[i].kind {
            Some(ExtmarkKind::Conceal { replacement, style, scope, trim_before, trim_after }) => true,
            _ => false,
        };
        if is_conceal && g.start <= s && s < g.end {
            if !(s <= e && s - g.start <= g.visible) {
                proof {
                    assert(conceal_mark(marks@, i as int));
                }
                return false;
            }
        }
        i += 1;
    }
    true
}

/// The sizes that drawing a line of the text `rc` involves fit the machine, and each
/// mark reaches the line.
pub open spec fn render_fits<S, W>(rc: Seq<char>, marks: Seq<&LineMark<S, W>>, line: Seq<char>, g: LineGeom, extra: bool, unit: Seq<char>) -> bool {
    &&& rc.len() < usize::MAX
    &&& marks.len() <= isize::MAX
    &&& forall|i: int| 0 <= i < marks.len() ==> (#[trigger] char_ranges(rc, marks, extra)[i]).1 >= g.start
    &&& g.end + 1 < usize::MAX
    &&& g.char_count < usize::MAX
    &&& g.visible < usize::MAX
    &&& conceals_sane(marks, char_ranges(rc, marks, extra), eof_geom(g, extra))
    &&& prefix_width(
        graphemes(full_text(line, g.visible as int, extra)),
        graphemes(full_text(line, g.visible as int, extra)).len() as int,
        unit.len() as int,
    ) <= usize::MAX
}

/// Draws a line of the text of `rope` that the marks decorate, as
/// `render_marked_line` does, where the sizes involved fit the machine and each mark
/// reaches the line: `None` where they do not.
pub fn try_render_marked_line<K, S: Copy, W>(
    rope: &Rope,
    rd: &BufferRenderer<K>,
    marks: &Vec<&LineMark<S, W>>,
    line: &Vec<char>,
    g: LineGeom,
    extra: bool,
    width: usize,
    h_scroll: usize,
    unit: &Vec<char>,
    tab_style: S,
    reveal: bool,
) -> (r: Option<LineRender<S>>)
    requires
        rd.wf(),
    ensures
        r is Some <==> render_fits(rope_chars(*rope), marks@, line@, g, extra, unit@),
        r matches Some(x) ==> x.v() == drawn_line(
            marks@,
            char_ranges(rope_chars(*rope), marks@, extra),
            ns_prios(rd, marks@),
            line@,
            g,
            extra,
            width as int,
            h_scroll as int,
            unit@,
            tab_style,
            reveal,
        ),
{
    let nc = rope_len_chars(rope);
    if nc == usize::MAX || marks.len() > isize::MAX as usize {
        return None;
    }
    if !(g.end < usize::MAX - 1 && g.char_count < usize::MAX && g.visible < usize::MAX) {
        return None;
    }
    let ranges = mark_char_ranges(rope, marks, extra);
    let mut i: usize = 0;
    while i < ranges.len()
        invariant
            i <= ranges@.len(),
            ranges@ == char_ranges(rope_chars(*rope), marks@, extra),
            ranges@.len() == marks@.len(),
            forall|j: int| 0 <= j < i ==> (#[trigger] ranges@[j]).1 >= g.start,
        decreases ranges@.len() - i,
    {
        if ranges[i].1 < g.start {
            proof {
                assert(char_ranges(rope_chars(*rope), marks@, extra)[i as int].1 < g.start);
            }
            return None;
        }
        i += 1;
    }
    let eof: usize = if extra { 1 } else { 0 };
    let g2 = LineGeom { start: g.start, end: g.end + eof, char_count: g.char_count + eof, visible: g.visible + eof };
    proof {
        assert(g2 == eof_geom(g, extra));
    }
    if !check_conceals(marks, &ranges, g2) {
        return None;
    }
    let n = if g.visible < line.len() { g.visible } else { line.len() };
    let mut full = slice_chars(line, 0, n);
    if extra {
        full.push(' ');
    }
    proof {
        if g.visible < line@.len() {
            assert(line@.subrange(0, n as int) =~= line@.take(g.visible as int));
        } else {
            assert(line@.subrange(0, n as int) =~= line@);
        }
        assert(full@ =~= full_text(line@, g.visible as int, extra));
    }
    if !width_fits(&full, unit.len()) {
        return None;
    }
    Some(render_marked_line(rope, rd, marks, line, g, extra, width, h_scroll, unit, tab_style, reveal))
}

} // verus!
