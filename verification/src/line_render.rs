//! Drawing one line of a buffer: conceals, highlights, virtual text, cursors and
//! popups laid over the line's text, then clipped to the viewport.
//!
//! A style is kept as the list of its layers, in the order in which they are laid on
//! top of each other; the caller folds them into one style.

use vstd::prelude::*;
use crate::decor::StyledChunk;
use crate::text::{chars_of, string_of};
use crate::scroll::{graphemes, graphemes_of, grapheme_width, grapheme_display_width, cell_width, is_tab_exec, is_line_break, is_line_break_exec};

verus! {

/// The integers of `s`.
pub open spec fn ints(s: Seq<i128>) -> Seq<int> {
    Seq::new(s.len(), |i: int| s[i] as int)
}

/// The integers of `s`.
pub open spec fn idxs(s: Seq<usize>) -> Seq<int> {
    Seq::new(s.len(), |i: int| s[i] as int)
}

/// `order` with `i` put after the last entry whose key is at most `keys[i]`.
pub open spec fn insert_stable(order: Seq<int>, keys: Seq<int>, i: int) -> Seq<int>
    decreases order.len(),
{
    if order.len() == 0 {
        seq![i]
    } else if keys[order.last()] <= keys[i] {
        order.push(i)
    } else {
        insert_stable(order.drop_last(), keys, i).push(order.last())
    }
}

/// The indices `0..n`, ordered by `keys`, equal keys in the order of their indices.
pub open spec fn stable_sort(keys: Seq<int>, n: int) -> Seq<int>
    decreases n,
{
    if n <= 0 {
        seq![]
    } else {
        insert_stable(stable_sort(keys, n - 1), keys, n - 1)
    }
}

proof fn lemma_insert_stable_at(p: Seq<int>, keys: Seq<int>, i: int, j: int)
    requires
        0 <= j <= p.len(),
        forall|t: int| j <= t < p.len() ==> keys[#[trigger] p[t]] > keys[i],
        j > 0 ==> keys[p[j - 1]] <= keys[i],
    ensures
        insert_stable(p, keys, i) == p.take(j) + seq![i] + p.skip(j),
    decreases p.len(),
{
    if p.len() == j {
        assert(p.skip(j) =~= Seq::<int>::empty());
        assert(p.take(j) =~= p);
        if j > 0 {
            assert(p.last() == p[j - 1]);
        }
    } else {
        assert(keys[p[p.len() - 1]] > keys[i]);
        lemma_insert_stable_at(p.drop_last(), keys, i, j);
        assert(p.drop_last().take(j) =~= p.take(j));
        assert((p.drop_last().take(j) + seq![i] + p.drop_last().skip(j)).push(p.last()) =~= p.take(j) + seq![i]
            + p.skip(j));
    }
}

/// The indices of `keys`, ordered by key, equal keys in the order of their indices:
/// the order in which a stable sort by these keys puts the entries.
pub fn stable_order(keys: &Vec<i128>) -> (r: Vec<usize>)
    ensures
        idxs(r@) == stable_sort(ints(keys@), keys@.len() as int),
        r@.len() == keys@.len(),
        forall|t: int| 0 <= t < r@.len() ==> #[trigger] r@[t] < keys@.len(),
{
    let ghost kv = ints(keys@);
    let mut out: Vec<usize> = Vec::new();
    let mut i: usize = 0;
    while i < keys.len()
        invariant
            i <= keys@.len(),
            kv == ints(keys@),
            idxs(out@) == stable_sort(kv, i as int),
            out@.len() == i,
            forall|t: int| 0 <= t < out@.len() ==> #[trigger] out@[t] < i,
        decreases keys@.len() - i,
    {
        let ghost prev = out@;
        out.push(i);
        let mut j: usize = i;
        while j > 0 && keys[out[j - 1]] > keys[i]
            invariant
                i < keys@.len(),
                kv == ints(keys@),
                j <= i,
                prev.len() == i,
                out@ == prev.take(j as int) + seq![i] + prev.skip(j as int),
                forall|t: int| 0 <= t < prev.len() ==> #[trigger] prev[t] < i,
                forall|t: int| j <= t < prev.len() ==> kv[#[trigger] prev[t] as int] > kv[i as int],
            decreases j,
        {
            let a = out[j - 1];
            proof {
                assert(out@[j - 1] == prev[j - 1]);
            }
            out.set(j - 1, i);
            out.set(j, a);
            proof {
                assert(out@ =~= prev.take(j - 1) + seq![i] + prev.skip(j - 1));
            }
            j -= 1;
        }
        proof {
            let p = idxs(prev);
            if j > 0 {
                assert(out@[j - 1] == prev[j - 1]);
            }
            lemma_insert_stable_at(p, kv, i as int, j as int);
            assert(idxs(out@) =~= p.take(j as int) + seq![i as int] + p.skip(j as int));
            assert forall|t: int| 0 <= t < out@.len() implies #[trigger] out@[t] < i + 1 by {
                if t < j {
                    assert(out@[t] == prev[t]);
                } else if t > j {
                    assert(out@[t] == prev[t - 1]);
                }
            }
        }
        i += 1;
    }
    out
}

/// A run of text drawn in one style: `style` lists the style's layers, bottom first.
pub struct Seg<S> {
    pub text: Vec<char>,
    pub style: Vec<S>,
}

/// What a run shows: its characters and its style's layers.
pub struct SegV<S> {
    pub text: Seq<char>,
    pub style: Seq<S>,
}

impl<S> Seg<S> {
    pub open spec fn v(&self) -> SegV<S> {
        SegV { text: self.text@, style: self.style@ }
    }
}

/// What the runs of `v` show, in order.
pub open spec fn segs_v<S>(v: Seq<Seg<S>>) -> Seq<SegV<S>> {
    Seq::new(v.len(), |i: int| v[i].v())
}

/// The number of characters in the runs.
pub open spec fn total_len<S>(v: Seq<SegV<S>>) -> int
    decreases v.len(),
{
    if v.len() == 0 {
        0
    } else {
        total_len(v.drop_last()) + v.last().text.len()
    }
}

/// The style layers of an optional style: none for the default style.
pub open spec fn layer<S>(o: Option<S>) -> Seq<S> {
    match o {
        Some(s) => seq![s],
        None => seq![],
    }
}

/// A concealed range `[start, end)` of a line's characters, drawn as `replacement` (or
/// not at all) in `style`.
pub struct Conceal<S> {
    pub start: usize,
    pub end: usize,
    pub replacement: Option<Vec<char>>,
    pub style: Option<S>,
}

/// What a concealed range is: its bounds, the characters that stand in for it, and
/// their style.
pub struct ConcealV<S> {
    pub start: int,
    pub end: int,
    pub rep: Option<Seq<char>>,
    pub style: Option<S>,
}

impl<S> Conceal<S> {
    pub open spec fn v(&self) -> ConcealV<S> {
        ConcealV {
            start: self.start as int,
            end: self.end as int,
            rep: match self.replacement {
                Some(r) => Some(r@),
                None => None,
            },
            style: self.style,
        }
    }
}

/// What the concealed ranges of `v` are.
pub open spec fn conceals_v<S>(v: Seq<Conceal<S>>) -> Seq<ConcealV<S>> {
    Seq::new(v.len(), |i: int| v[i].v())
}

/// The number of characters that stand in for a concealed range.
pub open spec fn rep_len<S>(c: ConcealV<S>) -> int {
    match c.rep {
        Some(r) => r.len() as int,
        None => 0,
    }
}

/// The display position of character `col` of a line, given the conceals `cs[k..]`
/// after a shift of `shift` from those before: a position inside a concealed range
/// goes to the range's start; each range wholly before it shifts it by the change in
/// length.
pub open spec fn display_from<S>(col: int, cs: Seq<ConcealV<S>>, k: int, shift: int) -> int
    decreases cs.len() - k,
{
    if k >= cs.len() || k < 0 || col < cs[k].start {
        col + shift
    } else if col < cs[k].end {
        cs[k].start + shift
    } else {
        display_from(col, cs, k + 1, shift + rep_len(cs[k]) - (cs[k].end - cs[k].start))
    }
}

/// The display position of character `col` of a line with conceals `cs`, as a `usize`.
pub open spec fn display_pos<S>(col: int, cs: Seq<ConcealV<S>>) -> int {
    (display_from(col, cs, 0, 0) as usize) as int
}

/// The shifts met on the way fit in an `i128`.
pub open spec fn shifts_fit<S>(col: int, cs: Seq<ConcealV<S>>, k: int, shift: int) -> bool
    decreases cs.len() - k,
{
    &&& i128::MIN <= col + shift <= i128::MAX
    &&& (k >= cs.len() || k < 0 || col < cs[k].end || {
        let next = shift + rep_len(cs[k]) - (cs[k].end - cs[k].start);
        &&& i128::MIN <= next <= i128::MAX
        &&& shifts_fit(col, cs, k + 1, next)
    })
}

/// Each concealed range starts no later than it ends.
pub open spec fn conceals_ok<S>(cs: Seq<ConcealV<S>>) -> bool {
    forall|k: int| 0 <= k < cs.len() ==> (#[trigger] cs[k]).start <= cs[k].end
}

/// Every field of the conceals fits in a `usize`.
pub open spec fn conceals_fit<S>(cs: Seq<ConcealV<S>>) -> bool {
    forall|j: int|
        0 <= j < cs.len() ==> 0 <= (#[trigger] cs[j]).start <= usize::MAX && 0 <= cs[j].end <= usize::MAX && 0 <= rep_len(
            cs[j],
        ) <= usize::MAX
}

/// With no more conceals than an allocation can hold, the shifts fit in an `i128`.
pub proof fn lemma_shifts_fit<S>(col: int, cs: Seq<ConcealV<S>>, k: int, shift: int)
    requires
        0 <= col <= usize::MAX,
        cs.len() <= isize::MAX,
        conceals_fit(cs),
        conceals_ok(cs),
        0 <= k <= cs.len(),
        -(k * (usize::MAX as int)) <= shift <= k * (usize::MAX as int),
    ensures
        shifts_fit(col, cs, k, shift),
    decreases cs.len() - k,
{
    let u = usize::MAX as int;
    let m = isize::MAX as int;
    assert(u == 0xffff_ffff || u == 0xffff_ffff_ffff_ffff);
    assert(u == 0xffff_ffff ==> m == 0x7fff_ffff);
    assert(u == 0xffff_ffff_ffff_ffff ==> m == 0x7fff_ffff_ffff_ffff);
    assert((k + 1) * u <= (m + 1) * u) by (nonlinear_arith)
        requires
            0 <= k <= m,
            u >= 0,
    ;
    assert((m + 1) * u <= 0x8000_0000_0000_0000 * 0xffff_ffff_ffff_ffff) by (nonlinear_arith)
        requires
            0 <= m + 1 <= 0x8000_0000_0000_0000,
            0 <= u <= 0xffff_ffff_ffff_ffff,
    ;
    assert(k * u + u == (k + 1) * u) by (nonlinear_arith);
    if k < cs.len() && col >= cs[k].end {
        let next = shift + rep_len(cs[k]) - (cs[k].end - cs[k].start);
        assert(0 <= cs[k].start <= cs[k].end <= u);
        assert(0 <= rep_len(cs[k]) <= u);
        lemma_shifts_fit(col, cs, k + 1, next);
    }
}

/// The display position of character `col` of a line with conceals `cs`.
pub fn buffer_to_display<S>(col: usize, cs: &[Conceal<S>]) -> (r: usize)
    requires
        conceals_ok(conceals_v(cs@)),
        shifts_fit(col as int, conceals_v(cs@), 0, 0),
    ensures
        r as int == display_pos(col as int, conceals_v(cs@)),
{
    let mut shift: i128 = 0;
    let mut k: usize = 0;
    while k < cs.len()
        invariant
            k <= cs@.len(),
            conceals_ok(conceals_v(cs@)),
            col >= conceals_v(cs@)[k - 1].end || k == 0,
            display_from(col as int, conceals_v(cs@), k as int, shift as int) == display_from(col as int, conceals_v(cs@), 0, 0),
            shifts_fit(col as int, conceals_v(cs@), k as int, shift as int),
        decreases cs@.len() - k,
    {
        let ec = &cs[k];
        if col < ec.start {
            return #[verifier::truncate] ((col as i128 + shift) as usize);
        } else if col < ec.end {
            return #[verifier::truncate] ((ec.start as i128 + shift) as usize);
        }
        let rep: i128 = match &ec.replacement {
            Some(r) => r.len() as i128,
            None => 0,
        };
        let delta: i128 = rep - (ec.end - ec.start) as i128;
        shift = shift + delta;
        k += 1;
    }
    #[verifier::truncate] ((col as i128 + shift) as usize)
}

/// The characters `v[a..b]`.
pub fn slice_chars(v: &[char], a: usize, b: usize) -> (r: Vec<char>)
    requires
        a <= b <= v@.len(),
    ensures
        r@ == v@.subrange(a as int, b as int),
{
    let mut r: Vec<char> = Vec::new();
    let mut i: usize = a;
    while i < b
        invariant
            a <= i <= b <= v@.len(),
            r@ == v@.subrange(a as int, i as int),
        decreases b - i,
    {
        r.push(v[i]);
        proof {
            assert(r@ =~= v@.subrange(a as int, i + 1));
        }
        i += 1;
    }
    r
}

/// The layers of an optional style.
pub fn layer_vec<S: Copy>(o: Option<S>) -> (r: Vec<S>)
    ensures
        r@ == layer(o),
{
    let mut r: Vec<S> = Vec::new();
    if let Some(st) = o {
        r.push(st);
    }
    proof {
        assert(r@ =~= layer(o));
    }
    r
}

/// The runs of a line whose characters are `line`, with the conceals `cs[k..]` still
/// to place and `pos` the first character not yet placed: the text before each
/// concealed range in the default style, then its replacement if it has one.
pub open spec fn conceal_runs<S>(line: Seq<char>, cs: Seq<ConcealV<S>>, k: int, pos: int) -> Seq<SegV<S>>
    decreases cs.len() - k,
{
    if k >= cs.len() || k < 0 {
        if pos < line.len() {
            seq![SegV { text: line.skip(pos), style: seq![] }]
        } else {
            seq![]
        }
    } else {
        let c = cs[k];
        let before = if pos < c.start && pos < line.len() {
            let to = if c.start < line.len() { c.start as int } else { line.len() as int };
            seq![SegV { text: line.subrange(pos, to), style: seq![] }]
        } else {
            seq![]
        };
        let rep = match c.rep {
            Some(r) => seq![SegV { text: r, style: layer(c.style) }],
            None => seq![],
        };
        before + rep + conceal_runs(line, cs, k + 1, c.end)
    }
}

/// The runs of a line with conceals `cs`: the whole line in the default style when
/// nothing is concealed.
pub open spec fn concealed_runs<S>(line: Seq<char>, cs: Seq<ConcealV<S>>) -> Seq<SegV<S>> {
    if cs.len() == 0 {
        seq![SegV { text: line, style: seq![] }]
    } else {
        conceal_runs(line, cs, 0, 0)
    }
}

/// Splits a line into runs around its concealed ranges.
pub fn build_concealed_segments<S: Copy>(line: &[char], cs: &[Conceal<S>]) -> (r: Vec<Seg<S>>)
    ensures
        segs_v(r@) == concealed_runs(line@, conceals_v(cs@)),
{
    let mut out: Vec<Seg<S>> = Vec::new();
    if cs.len() == 0 {
        out.push(Seg { text: slice_chars(line, 0, line.len()), style: Vec::new() });
        proof {
            assert(line@.subrange(0, line@.len() as int) =~= line@);
            assert(segs_v(out@) =~= concealed_runs(line@, conceals_v(cs@)));
        }
        return out;
    }
    let mut pos: usize = 0;
    let mut k: usize = 0;
    proof {
        assert(segs_v(out@) + conceal_runs(line@, conceals_v(cs@), 0, 0) =~= conceal_runs(line@, conceals_v(cs@), 0, 0));
    }
    while k < cs.len()
        invariant
            k <= cs@.len(),
            cs@.len() > 0,
            segs_v(out@) + conceal_runs(line@, conceals_v(cs@), k as int, pos as int) == conceal_runs(line@, conceals_v(cs@), 0, 0),
        decreases cs@.len() - k,
    {
        let ghost before_len = out@.len();
        let ghost prev = segs_v(out@);
        let ec = &cs[k];
        if pos < ec.start && pos < line.len() {
            let to = if ec.start < line.len() { ec.start } else { line.len() };
            out.push(Seg { text: slice_chars(line, pos, to), style: Vec::new() });
        }
        match &ec.replacement {
            Some(rep) => {
                out.push(Seg { text: slice_chars(rep, 0, rep.len()), style: layer_vec(ec.style) });
                proof {
                    assert(rep@.subrange(0, rep@.len() as int) =~= rep@);
                }
            },
            None => {},
        }
        proof {
            let c = conceals_v(cs@)[k as int];
            assert(c == cs@[k as int].v());
            let before = if pos < c.start && pos < line@.len() {
                let to = if c.start < line@.len() { c.start as int } else { line@.len() as int };
                seq![SegV { text: line@.subrange(pos as int, to), style: seq![] }]
            } else {
                seq![]
            };
            let rep = match c.rep {
                Some(r) => seq![SegV { text: r, style: layer(c.style) }],
                None => seq![],
            };
            assert(segs_v(out@) =~= prev + before + rep);
            assert(conceal_runs(line@, conceals_v(cs@), k as int, pos as int) == before + rep + conceal_runs(
                line@,
                conceals_v(cs@),
                k + 1,
                c.end as int,
            ));
            assert(segs_v(out@) + conceal_runs(line@, conceals_v(cs@), k + 1, c.end as int) =~= prev + conceal_runs(
                line@,
                conceals_v(cs@),
                k as int,
                pos as int,
            ));
        }
        pos = ec.end;
        k += 1;
    }
    let ghost prev = segs_v(out@);
    if pos < line.len() {
        out.push(Seg { text: slice_chars(line, pos, line.len()), style: Vec::new() });
        proof {
            assert(line@.subrange(pos as int, line@.len() as int) =~= line@.skip(pos as int));
        }
    }
    proof {
        assert(segs_v(out@) =~= prev + conceal_runs(line@, conceals_v(cs@), k as int, pos as int));
    }
    out
}

pub proof fn lemma_total_len_concat<S>(a: Seq<SegV<S>>, b: Seq<SegV<S>>)
    ensures
        total_len(a + b) == total_len(a) + total_len(b),
    decreases b.len(),
{
    if b.len() == 0 {
        assert(a + b =~= a);
    } else {
        lemma_total_len_concat(a, b.drop_last());
        assert((a + b).drop_last() =~= a + b.drop_last());
    }
}

pub proof fn lemma_total_len_prefix<S>(v: Seq<SegV<S>>, i: int)
    requires
        0 <= i <= v.len(),
    ensures
        0 <= total_len(v.take(i)) <= total_len(v),
    decreases v.len() - i,
{
    if i < v.len() {
        lemma_total_len_prefix(v, i + 1);
        assert(v.take(i + 1).drop_last() =~= v.take(i));
    } else {
        assert(v.take(i) =~= v);
    }
    lemma_total_len_nonneg(v.take(i));
}

pub proof fn lemma_total_len_nonneg<S>(v: Seq<SegV<S>>)
    ensures
        total_len(v) >= 0,
    decreases v.len(),
{
    if v.len() > 0 {
        lemma_total_len_nonneg(v.drop_last());
    }
}

/// The most characters the runs of a vector can hold.
pub open spec fn runs_cap() -> int {
    usize::MAX as int * usize::MAX as int
}

pub proof fn lemma_runs_fit<S>(vec: &Vec<Seg<S>>)
    ensures
        0 <= total_len(segs_v(vec@)) <= runs_cap(),
        runs_cap() + 2 * (usize::MAX as int) <= u128::MAX,
{
    let v = vec@;
    assert(vec.len() == v.len());
    let u = usize::MAX as int;
    assert(u <= 0xffff_ffff_ffff_ffff);
    assert(u * u + 2 * u <= u128::MAX) by (nonlinear_arith)
        requires
            0 <= u <= 0xffff_ffff_ffff_ffff,
    ;
    lemma_runs_fit_n(v);
    let n = v.len() as int;
    assert(n * u <= u * u) by (nonlinear_arith)
        requires
            0 <= n <= u,
    ;
}

proof fn lemma_runs_fit_n<S>(v: Seq<Seg<S>>)
    ensures
        0 <= total_len(segs_v(v)) <= v.len() * (usize::MAX as int),
    decreases v.len(),
{
    if v.len() > 0 {
        lemma_runs_fit_n(v.drop_last());
        assert(segs_v(v).drop_last() =~= segs_v(v.drop_last()));
        assert(v.last().text.len() == v.last().text@.len());
        let n = v.len() as int;
        let u = usize::MAX as int;
        assert((n - 1) * u + u == n * u) by (nonlinear_arith);
    }
}

/// A copy of a run.
fn copy_seg<S: Copy>(s: &Seg<S>) -> (r: Seg<S>)
    ensures
        r.v() == s.v(),
{
    let text = slice_chars(&s.text, 0, s.text.len());
    let style = stack(&s.style, &Vec::new());
    proof {
        assert(s.text@.subrange(0, s.text@.len() as int) =~= s.text@);
    }
    Seg { text, style }
}

/// The layers of `top` laid over those of `base`.
fn stack<S: Copy>(base: &Vec<S>, top: &Vec<S>) -> (r: Vec<S>)
    ensures
        r@ == base@ + top@,
{
    let mut r: Vec<S> = Vec::new();
    let mut i: usize = 0;
    while i < base.len()
        invariant
            i <= base@.len(),
            r@ == base@.take(i as int),
        decreases base@.len() - i,
    {
        r.push(base[i]);
        proof {
            assert(r@ =~= base@.take(i + 1));
        }
        i += 1;
    }
    let mut j: usize = 0;
    while j < top.len()
        invariant
            j <= top@.len(),
            r@ == base@ + top@.take(j as int),
        decreases top@.len() - j,
    {
        r.push(top[j]);
        proof {
            assert(r@ =~= base@ + top@.take(j + 1));
        }
        j += 1;
    }
    proof {
        assert(base@.take(base@.len() as int) =~= base@);
        assert(top@.take(top@.len() as int) =~= top@);
    }
    r
}

/// Run `s`, starting at display position `pos`, with the part that falls in
/// `[ds, de)` split off and drawn with layers `l` on top.
pub open spec fn split_run<S>(s: SegV<S>, pos: int, ds: int, de: int, l: Seq<S>) -> Seq<SegV<S>> {
    let e = pos + s.text.len();
    let os = if ds > pos { ds } else { pos };
    let oe = if de < e { de } else { e };
    if os >= oe {
        seq![s]
    } else {
        (if os > pos {
            seq![SegV { text: s.text.take(os - pos), style: s.style }]
        } else {
            seq![]
        }) + seq![SegV { text: s.text.subrange(os - pos, oe - pos), style: s.style + l }] + (if oe < e {
            seq![SegV { text: s.text.skip(oe - pos), style: s.style }]
        } else {
            seq![]
        })
    }
}

/// The runs `v` with display positions `[ds, de)` highlighted with layers `l`.
pub open spec fn highlight_runs<S>(v: Seq<SegV<S>>, ds: int, de: int, l: Seq<S>) -> Seq<SegV<S>>
    decreases v.len(),
{
    if v.len() == 0 {
        seq![]
    } else {
        highlight_runs(v.drop_last(), ds, de, l) + split_run(v.last(), total_len(v.drop_last()), ds, de, l)
    }
}

/// Highlights display positions `[ds, de)` of the runs with layers `l`.
fn highlight_segments<S: Copy>(v: &Vec<Seg<S>>, ds: usize, de: usize, l: &Vec<S>) -> (r: Vec<Seg<S>>)
    ensures
        segs_v(r@) == highlight_runs(segs_v(v@), ds as int, de as int, l@),
{
    let ghost sv = segs_v(v@);
    proof {
        lemma_runs_fit(v);
    }
    let mut out: Vec<Seg<S>> = Vec::new();
    let mut char_pos: u128 = 0;
    let mut i: usize = 0;
    while i < v.len()
        invariant
            i <= v@.len(),
            sv == segs_v(v@),
            total_len(sv) <= runs_cap(),
            runs_cap() + 2 * (usize::MAX as int) <= u128::MAX,
            char_pos == total_len(sv.take(i as int)),
            segs_v(out@) == highlight_runs(sv.take(i as int), ds as int, de as int, l@),
        decreases v@.len() - i,
    {
        let seg = &v[i];
        proof {
            lemma_total_len_prefix(sv, i + 1);
            assert(sv.take(i + 1).drop_last() =~= sv.take(i as int));
            assert(sv.take(i + 1).last() == seg.v());
        }
        let ghost prev = segs_v(out@);
        let seg_len = seg.text.len();
        let seg_end = char_pos + seg_len as u128;
        let os = if ds as u128 > char_pos { ds as u128 } else { char_pos };
        let oe = if (de as u128) < seg_end { de as u128 } else { seg_end };
        if os >= oe {
            out.push(copy_seg(seg));
            proof {
                assert(segs_v(out@) =~= prev + split_run(seg.v(), char_pos as int, ds as int, de as int, l@));
            }
        } else {
            let a = (os - char_pos) as usize;
            let b = (oe - char_pos) as usize;
            if os > char_pos {
                out.push(Seg { text: slice_chars(&seg.text, 0, a), style: stack(&seg.style, &Vec::new()) });
            }
            out.push(Seg { text: slice_chars(&seg.text, a, b), style: stack(&seg.style, l) });
            if oe < seg_end {
                out.push(Seg { text: slice_chars(&seg.text, b, seg_len), style: stack(&seg.style, &Vec::new()) });
            }
            proof {
                let sx = seg.v();
                assert(sx.style + Seq::<S>::empty() =~= sx.style);
                assert(sx.text.subrange(0, a as int) =~= sx.text.take(a as int));
                assert(sx.text.subrange(b as int, seg_len as int) =~= sx.text.skip(b as int));
                assert(segs_v(out@) =~= prev + split_run(sx, char_pos as int, ds as int, de as int, l@));
            }
        }
        char_pos = seg_end;
        i += 1;
    }
    proof {
        assert(sv.take(i as int) =~= sv);
    }
    out
}

/// A highlight of the line's characters `[start, end)`, laid on in order of priority.
pub struct HighlightMark<S> {
    pub start: usize,
    pub end: usize,
    pub style: Option<S>,
    pub priority: i32,
}

pub open spec fn hl_keys<S>(hs: Seq<HighlightMark<S>>) -> Seq<int> {
    Seq::new(hs.len(), |i: int| hs[i].priority as int)
}

pub open spec fn styled_keys<S>(items: Seq<(Option<S>, i32)>) -> Seq<int> {
    Seq::new(items.len(), |i: int| items[i].1 as int)
}

/// The runs `v` with the first `n` highlights of `hs`, taken in `order`, laid on.
pub open spec fn apply_hls<S>(
    v: Seq<SegV<S>>,
    hs: Seq<HighlightMark<S>>,
    order: Seq<int>,
    n: int,
    cs: Seq<ConcealV<S>>,
) -> Seq<SegV<S>>
    decreases n,
{
    if n <= 0 {
        v
    } else {
        let prev = apply_hls(v, hs, order, n - 1, cs);
        let h = hs[order[n - 1]];
        let ds = display_pos(h.start as int, cs);
        let de = display_pos(h.end as int, cs);
        if ds >= de {
            prev
        } else {
            highlight_runs(prev, ds, de, layer(h.style))
        }
    }
}

/// The layers of the first `n` styles of `items`, taken in `order`, bottom first.
pub open spec fn stacked<S>(items: Seq<(Option<S>, i32)>, order: Seq<int>, n: int) -> Seq<S>
    decreases n,
{
    if n <= 0 {
        seq![]
    } else {
        stacked(items, order, n - 1) + layer(items[order[n - 1]].0)
    }
}

/// The style of the layers of `items`, in order of priority.
pub open spec fn stacked_by_priority<S>(items: Seq<(Option<S>, i32)>) -> Seq<S> {
    stacked(items, stable_sort(styled_keys(items), items.len() as int), items.len() as int)
}

/// The runs `v` with the highlights `hs` laid on in order of priority and, on an
/// empty line with newline highlights `nl`, one more cell in their style.
pub open spec fn highlighted_runs<S>(
    v: Seq<SegV<S>>,
    hs: Seq<HighlightMark<S>>,
    cs: Seq<ConcealV<S>>,
    nl: Seq<(Option<S>, i32)>,
    visible_len: int,
) -> Seq<SegV<S>> {
    let hl = apply_hls(v, hs, stable_sort(hl_keys(hs), hs.len() as int), hs.len() as int, cs);
    if nl.len() > 0 && visible_len == 0 {
        hl.push(SegV { text: seq![' '], style: stacked_by_priority(nl) })
    } else {
        hl
    }
}

/// The layers of `items`' styles in order of their priority.
pub fn stack_by_priority<S: Copy>(items: &Vec<(Option<S>, i32)>) -> (r: Vec<S>)
    ensures
        r@ == stacked_by_priority(items@),
{
    let mut keys: Vec<i128> = Vec::new();
    let mut i: usize = 0;
    while i < items.len()
        invariant
            i <= items@.len(),
            ints(keys@) == styled_keys(items@).take(i as int),
            keys@.len() == i,
        decreases items@.len() - i,
    {
        let ghost pk = keys@;
        keys.push(items[i].1 as i128);
        proof {
            assert(keys@ == pk.push(items@[i as int].1 as i128));
            assert forall|j: int| 0 <= j < i + 1 implies #[trigger] ints(keys@)[j] == styled_keys(items@).take(i + 1)[j] by {
                if j < i {
                    assert(ints(pk)[j] == styled_keys(items@).take(i as int)[j]);
                }
            }
            assert(ints(keys@) =~= styled_keys(items@).take(i + 1));
        }
        i += 1;
    }
    proof {
        assert(styled_keys(items@).take(i as int) =~= styled_keys(items@));
    }
    let order = stable_order(&keys);
    let ghost ord = idxs(order@);
    let mut r: Vec<S> = Vec::new();
    let mut k: usize = 0;
    while k < order.len()
        invariant
            k <= order@.len(),
            order@.len() == items@.len(),
            keys@.len() == items@.len(),
            forall|t: int| 0 <= t < order@.len() ==> #[trigger] order@[t] < keys@.len(),
            ord == idxs(order@),
            r@ == stacked(items@, ord, k as int),
        decreases order@.len() - k,
    {
        let it = items[order[k]];
        let l = layer_vec(it.0);
        r = stack(&r, &l);
        k += 1;
    }
    r
}

/// Lays the highlights `hs` on the runs in order of priority, each over the display
/// positions of its range; on an empty line, adds one cell in the style of the newline
/// highlights `nl`.
pub fn apply_highlights<S: Copy>(
    segs: Vec<Seg<S>>,
    hs: &Vec<HighlightMark<S>>,
    cs: &[Conceal<S>],
    nl: &Vec<(Option<S>, i32)>,
    visible_len: usize,
) -> (r: Vec<Seg<S>>)
    requires
        conceals_ok(conceals_v(cs@)),
        forall|j: int|
            0 <= j < hs@.len() ==> shifts_fit((#[trigger] hs@[j]).start as int, conceals_v(cs@), 0, 0) && shifts_fit(
                hs@[j].end as int,
                conceals_v(cs@),
                0,
                0,
            ),
    ensures
        segs_v(r@) == highlighted_runs(segs_v(segs@), hs@, conceals_v(cs@), nl@, visible_len as int),
{
    let ghost v0 = segs_v(segs@);
    let mut keys: Vec<i128> = Vec::new();
    let mut i: usize = 0;
    while i < hs.len()
        invariant
            i <= hs@.len(),
            ints(keys@) == hl_keys(hs@).take(i as int),
            keys@.len() == i,
        decreases hs@.len() - i,
    {
        let ghost pk = keys@;
        keys.push(hs[i].priority as i128);
        proof {
            assert(keys@ == pk.push(hs@[i as int].priority as i128));
            assert forall|j: int| 0 <= j < i + 1 implies #[trigger] ints(keys@)[j] == hl_keys(hs@).take(i + 1)[j] by {
                if j < i {
                    assert(ints(pk)[j] == hl_keys(hs@).take(i as int)[j]);
                }
            }
            assert(ints(keys@) =~= hl_keys(hs@).take(i + 1));
        }
        i += 1;
    }
    proof {
        assert(hl_keys(hs@).take(i as int) =~= hl_keys(hs@));
    }
    let order = stable_order(&keys);
    let ghost ord = idxs(order@);
    let mut segs = segs;
    let mut k: usize = 0;
    while k < order.len()
        invariant
            k <= order@.len(),
            order@.len() == hs@.len(),
            keys@.len() == hs@.len(),
            forall|t: int| 0 <= t < order@.len() ==> #[trigger] order@[t] < keys@.len(),
            ord == idxs(order@),
            conceals_ok(conceals_v(cs@)),
            forall|j: int|
                0 <= j < hs@.len() ==> shifts_fit((#[trigger] hs@[j]).start as int, conceals_v(cs@), 0, 0) && shifts_fit(
                    hs@[j].end as int,
                    conceals_v(cs@),
                    0,
                    0,
                ),
            segs_v(segs@) == apply_hls(v0, hs@, ord, k as int, conceals_v(cs@)),
        decreases order@.len() - k,
    {
        let h = &hs[order[k]];
        let ds = buffer_to_display(h.start, cs);
        let de = buffer_to_display(h.end, cs);
        if ds < de {
            let l = layer_vec(h.style);
            segs = highlight_segments(&segs, ds, de, &l);
        }
        k += 1;
    }
    if nl.len() > 0 && visible_len == 0 {
        let ghost prev = segs_v(segs@);
        let st = stack_by_priority(nl);
        let mut sp: Vec<char> = Vec::new();
        sp.push(' ');
        segs.push(Seg { text: sp, style: st });
        proof {
            assert(segs_v(segs@) =~= prev.push(SegV { text: seq![' '], style: stacked_by_priority(nl@) }));
            assert(segs_v(segs@).drop_last() =~= prev);
        }
    }
    segs
}

/// The runs of styled chunks, one per chunk.
pub open spec fn chunk_runs<S>(chunks: Seq<StyledChunk<S>>) -> Seq<SegV<S>> {
    Seq::new(chunks.len(), |i: int| SegV { text: chunks[i].text@, style: seq![chunks[i].style] })
}

/// One run per chunk.
pub fn chunk_segs<S: Copy>(chunks: &Vec<StyledChunk<S>>) -> (r: Vec<Seg<S>>)
    ensures
        segs_v(r@) == chunk_runs(chunks@),
{
    let mut r: Vec<Seg<S>> = Vec::new();
    let mut i: usize = 0;
    while i < chunks.len()
        invariant
            i <= chunks@.len(),
            segs_v(r@) == chunk_runs(chunks@).take(i as int),
        decreases chunks@.len() - i,
    {
        let mut st: Vec<S> = Vec::new();
        st.push(chunks[i].style);
        let ghost prev = segs_v(r@);
        r.push(Seg { text: chars_of(chunks[i].text.as_str()), style: st });
        proof {
            assert(st@ =~= seq![chunks@[i as int].style]);
            assert(segs_v(r@) =~= prev.push(chunk_runs(chunks@)[i as int]));
            assert(segs_v(r@) =~= chunk_runs(chunks@).take(i + 1));
        }
        i += 1;
    }
    proof {
        assert(chunk_runs(chunks@).take(i as int) =~= chunk_runs(chunks@));
    }
    r
}

/// The runs `v` (the first starting at display position `pos`) with the runs `ins`
/// inserted at display position `col`: inside the first run that reaches `col`, or at
/// the end.
pub open spec fn insert_runs<S>(v: Seq<SegV<S>>, pos: int, col: int, ins: Seq<SegV<S>>) -> Seq<SegV<S>>
    decreases v.len(),
{
    if v.len() == 0 {
        ins
    } else {
        let s = v[0];
        let e = pos + s.text.len();
        if pos <= col && col <= e {
            let off = col - pos;
            (if off > 0 {
                seq![SegV { text: s.text.take(off), style: s.style }]
            } else {
                seq![]
            }) + ins + (if off < s.text.len() {
                seq![SegV { text: s.text.skip(off), style: s.style }]
            } else {
                seq![]
            }) + v.drop_first()
        } else {
            seq![s] + insert_runs(v.drop_first(), e, col, ins)
        }
    }
}

/// Copies of the runs `v[a..b]`, pushed onto `out`.
fn push_copies<S: Copy>(out: &mut Vec<Seg<S>>, v: &Vec<Seg<S>>, a: usize, b: usize)
    requires
        a <= b <= v@.len(),
    ensures
        segs_v(final(out)@) == segs_v(old(out)@) + segs_v(v@).subrange(a as int, b as int),
{
    let ghost o = segs_v(out@);
    let mut i: usize = a;
    while i < b
        invariant
            a <= i <= b <= v@.len(),
            segs_v(out@) == o + segs_v(v@).subrange(a as int, i as int),
        decreases b - i,
    {
        let ghost prev = segs_v(out@);
        out.push(copy_seg(&v[i]));
        proof {
            assert(segs_v(out@) =~= prev.push(v@[i as int].v()));
            assert(segs_v(out@) =~= o + segs_v(v@).subrange(a as int, i + 1));
        }
        i += 1;
    }
}

/// Inserts styled chunks into the runs at display position `col`, splitting the run
/// that reaches it; past the end, they are appended.
pub fn insert_at<S: Copy>(v: &Vec<Seg<S>>, col: usize, chunks: &Vec<StyledChunk<S>>) -> (r: Vec<Seg<S>>)
    ensures
        segs_v(r@) == insert_runs(segs_v(v@), 0, col as int, chunk_runs(chunks@)),
{
    let ghost sv = segs_v(v@);
    let ins = chunk_segs(chunks);
    let ghost iv = chunk_runs(chunks@);
    proof {
        lemma_runs_fit(v);
    }
    let mut pos: u128 = 0;
    let mut i: usize = 0;
    proof {
        assert(sv.skip(0) =~= sv);
        assert(sv.take(0) =~= Seq::<SegV<S>>::empty());
    }
    while i < v.len()
        invariant
            i <= v@.len(),
            sv == segs_v(v@),
            iv == chunk_runs(chunks@),
            segs_v(ins@) == iv,
            total_len(sv) <= runs_cap(),
            runs_cap() + 2 * (usize::MAX as int) <= u128::MAX,
            pos == total_len(sv.take(i as int)),
            insert_runs(sv, 0, col as int, iv) == sv.take(i as int) + insert_runs(sv.skip(i as int), pos as int, col as int, iv),
        decreases v@.len() - i,
    {
        proof {
            lemma_total_len_prefix(sv, i + 1);
            assert(sv.take(i + 1).drop_last() =~= sv.take(i as int));
        }
        let seg_len = v[i].text.len();
        let seg_end = pos + seg_len as u128;
        if pos <= col as u128 && col as u128 <= seg_end {
            let off = (col as u128 - pos) as usize;
            let seg = &v[i];
            let ghost sx = seg.v();
            let ghost pre: Seq<SegV<S>> = if off > 0 {
                seq![SegV { text: sx.text.take(off as int), style: sx.style }]
            } else {
                seq![]
            };
            let ghost post: Seq<SegV<S>> = if off < sx.text.len() {
                seq![SegV { text: sx.text.skip(off as int), style: sx.style }]
            } else {
                seq![]
            };
            let mut out: Vec<Seg<S>> = Vec::new();
            push_copies(&mut out, v, 0, i);
            let ghost o1 = segs_v(out@);
            if off > 0 {
                out.push(Seg { text: slice_chars(&seg.text, 0, off), style: stack(&seg.style, &Vec::new()) });
                proof {
                    assert(sx.style + Seq::<S>::empty() =~= sx.style);
                    assert(sx.text.subrange(0, off as int) =~= sx.text.take(off as int));
                }
            }
            let ghost o2 = segs_v(out@);
            proof {
                assert(o2 =~= o1 + pre);
            }
            push_copies(&mut out, &ins, 0, ins.len());
            let ghost o3 = segs_v(out@);
            proof {
                assert(segs_v(ins@).subrange(0, ins@.len() as int) =~= iv);
            }
            if off < seg_len {
                out.push(Seg { text: slice_chars(&seg.text, off, seg_len), style: stack(&seg.style, &Vec::new()) });
                proof {
                    assert(sx.style + Seq::<S>::empty() =~= sx.style);
                    assert(sx.text.subrange(off as int, seg_len as int) =~= sx.text.skip(off as int));
                }
            }
            let ghost o4 = segs_v(out@);
            proof {
                assert(o4 =~= o3 + post);
            }
            push_copies(&mut out, v, i + 1, v.len());
            proof {
                assert(sv.subrange(0, i as int) =~= sv.take(i as int));
                let w = sv.skip(i as int);
                assert(w[0] == sx);
                assert(w.drop_first() =~= sv.subrange(i + 1, v@.len() as int));
                assert(insert_runs(w, pos as int, col as int, iv) == pre + iv + post + w.drop_first());
                assert(segs_v(out@) =~= sv.take(i as int) + (pre + iv + post + w.drop_first()));
            }
            return out;
        }
        proof {
            assert(sv.skip(i as int)[0] == v@[i as int].v());
            assert(sv.skip(i as int).drop_first() =~= sv.skip(i + 1));
            assert(sv.take(i + 1) =~= sv.take(i as int) + seq![v@[i as int].v()]);
        }
        pos = seg_end;
        i += 1;
    }
    let mut out: Vec<Seg<S>> = Vec::new();
    push_copies(&mut out, v, 0, v.len());
    push_copies(&mut out, &ins, 0, ins.len());
    proof {
        assert(sv.skip(i as int) =~= Seq::<SegV<S>>::empty());
        assert(sv.take(i as int) =~= sv);
        assert(segs_v(v@).subrange(0, v@.len() as int) =~= sv);
        assert(segs_v(ins@).subrange(0, ins@.len() as int) =~= iv);
        assert(segs_v(out@) =~= insert_runs(sv, 0, col as int, iv));
    }
    out
}

/// The number of characters in the runs.
pub fn runs_len<S>(v: &Vec<Seg<S>>) -> (r: u128)
    ensures
        r == total_len(segs_v(v@)),
        r <= runs_cap(),
{
    let ghost sv = segs_v(v@);
    proof {
        lemma_runs_fit(v);
    }
    let mut n: u128 = 0;
    let mut i: usize = 0;
    while i < v.len()
        invariant
            i <= v@.len(),
            sv == segs_v(v@),
            total_len(sv) <= runs_cap(),
            runs_cap() + 2 * (usize::MAX as int) <= u128::MAX,
            n == total_len(sv.take(i as int)),
        decreases v@.len() - i,
    {
        proof {
            lemma_total_len_prefix(sv, i + 1);
            assert(sv.take(i + 1).drop_last() =~= sv.take(i as int));
        }
        n = n + v[i].text.len() as u128;
        i += 1;
    }
    proof {
        assert(sv.take(i as int) =~= sv);
    }
    n
}

/// The pieces of the overlay runs `ch` that cover overlay positions `[a, b)`, cut at
/// the runs' bounds; an empty run at a position in `[a, b)` gives an empty piece when
/// `keep_empty` holds.
pub open spec fn chunk_pieces<S>(ch: Seq<SegV<S>>, a: int, b: int, keep_empty: bool) -> Seq<SegV<S>>
    decreases ch.len(),
{
    if ch.len() == 0 {
        seq![]
    } else {
        let st = total_len(ch.drop_last());
        let c = ch.last();
        let len = c.text.len();
        chunk_pieces(ch.drop_last(), a, b, keep_empty) + (if len == 0 {
            if keep_empty && a <= st && st < b {
                seq![SegV { text: Seq::<char>::empty(), style: c.style }]
            } else {
                seq![]
            }
        } else {
            let lo = if a > st { a } else { st };
            let hi = if b < st + len { b } else { st + len };
            if lo < hi {
                seq![SegV { text: c.text.subrange(lo - st, hi - st), style: c.style }]
            } else {
                seq![]
            }
        })
    }
}

/// The runs `v` (the first at display position `pos`) with the overlay runs `ch` drawn
/// over display positions `[os, oe)`: each run that meets the overlay keeps what lies
/// outside it and gives way to the overlay's pieces inside it.
pub open spec fn overlay_walk<S>(v: Seq<SegV<S>>, pos: int, os: int, oe: int, ch: Seq<SegV<S>>) -> Seq<SegV<S>>
    decreases v.len(),
{
    if v.len() == 0 {
        seq![]
    } else {
        let s = v[0];
        let e = pos + s.text.len();
        (if e <= os || pos >= oe {
            seq![s]
        } else {
            (if pos < os {
                seq![SegV { text: s.text.take(os - pos), style: s.style }]
            } else {
                seq![]
            }) + chunk_pieces(ch, (if pos > os { pos } else { os }) - os, (if e < oe { e } else { oe }) - os, true)
                + (if e > oe {
                seq![SegV { text: s.text.skip(oe - pos), style: s.style }]
            } else {
                seq![]
            })
        }) + overlay_walk(v.drop_first(), e, os, oe, ch)
    }
}

/// The runs `v` with the overlay runs `ch` drawn over them from display position
/// `col`; what reaches past the end of the runs is appended.
pub open spec fn overlay_runs<S>(v: Seq<SegV<S>>, col: int, ch: Seq<SegV<S>>) -> Seq<SegV<S>> {
    let n = total_len(ch);
    if n == 0 {
        v
    } else {
        let l = total_len(v);
        let consumed = if l <= col {
            0
        } else if l - col >= n {
            n
        } else {
            l - col
        };
        overlay_walk(v, 0, col, col + n, ch) + chunk_pieces(ch, consumed, n, false)
    }
}

/// Pushes the pieces of the overlay runs `ch` that cover `[a, b)` onto `out`.
fn push_pieces<S: Copy>(out: &mut Vec<Seg<S>>, ch: &Vec<Seg<S>>, a: u128, b: u128, keep_empty: bool)
    ensures
        segs_v(final(out)@) == segs_v(old(out)@) + chunk_pieces(segs_v(ch@), a as int, b as int, keep_empty),
{
    let ghost cv = segs_v(ch@);
    let ghost o = segs_v(out@);
    proof {
        lemma_runs_fit(ch);
    }
    let mut st: u128 = 0;
    let mut j: usize = 0;
    proof {
        assert(cv.take(0) =~= Seq::<SegV<S>>::empty());
        assert(o + chunk_pieces(cv.take(0), a as int, b as int, keep_empty) =~= o);
    }
    while j < ch.len()
        invariant
            j <= ch@.len(),
            cv == segs_v(ch@),
            total_len(cv) <= runs_cap(),
            runs_cap() + 2 * (usize::MAX as int) <= u128::MAX,
            st == total_len(cv.take(j as int)),
            segs_v(out@) == o + chunk_pieces(cv.take(j as int), a as int, b as int, keep_empty),
        decreases ch@.len() - j,
    {
        proof {
            lemma_total_len_prefix(cv, j + 1);
            assert(cv.take(j + 1).drop_last() =~= cv.take(j as int));
            assert(cv.take(j + 1).last() == ch@[j as int].v());
        }
        let ghost prev = segs_v(out@);
        let c = &ch[j];
        let len = c.text.len();
        let ghost cx = c.v();
        let ghost piece: Seq<SegV<S>> = if len == 0 {
            if keep_empty && a <= st && st < b {
                seq![SegV { text: Seq::<char>::empty(), style: cx.style }]
            } else {
                seq![]
            }
        } else {
            let lo = if a > st { a as int } else { st as int };
            let hi = if b < st + len { b as int } else { st + len };
            if lo < hi {
                seq![SegV { text: cx.text.subrange(lo - st, hi - st), style: cx.style }]
            } else {
                seq![]
            }
        };
        if len == 0 {
            if keep_empty && a <= st && st < b {
                out.push(Seg { text: Vec::new(), style: stack(&c.style, &Vec::new()) });
                proof {
                    assert(c.style@ + Seq::<S>::empty() =~= c.style@);
                    assert(segs_v(out@) =~= prev + piece);
                }
            } else {
                proof {
                    assert(segs_v(out@) =~= prev + piece);
                }
            }
        } else {
            let lo = if a > st { a } else { st };
            let hi = if b < st + len as u128 { b } else { st + len as u128 };
            if lo < hi {
                out.push(Seg { text: slice_chars(&c.text, (lo - st) as usize, (hi - st) as usize), style: stack(&c.style, &Vec::new()) });
                proof {
                    assert(c.style@ + Seq::<S>::empty() =~= c.style@);
                    assert(segs_v(out@) =~= prev + piece);
                }
            } else {
                proof {
                    assert(segs_v(out@) =~= prev + piece);
                }
            }
        }
        proof {
            assert(chunk_pieces(cv.take(j + 1), a as int, b as int, keep_empty) == chunk_pieces(
                cv.take(j as int),
                a as int,
                b as int,
                keep_empty,
            ) + piece);
            assert(segs_v(out@) =~= o + chunk_pieces(cv.take(j + 1), a as int, b as int, keep_empty));
        }
        st = st + len as u128;
        j += 1;
    }
    proof {
        assert(cv.take(j as int) =~= cv);
    }
}

/// Draws styled chunks over the runs from display position `col`, replacing what lies
/// beneath them; what reaches past the end of the runs is appended.
pub fn overlay_at<S: Copy>(v: &Vec<Seg<S>>, col: usize, chunks: &Vec<StyledChunk<S>>) -> (r: Vec<Seg<S>>)
    ensures
        segs_v(r@) == overlay_runs(segs_v(v@), col as int, chunk_runs(chunks@)),
{
    let ghost sv = segs_v(v@);
    let ch = chunk_segs(chunks);
    let ghost cv = chunk_runs(chunks@);
    proof {
        lemma_total_len_nonneg(cv);
        lemma_runs_fit(v);
        lemma_runs_fit(&ch);
    }
    let n = runs_len(&ch);
    let mut out: Vec<Seg<S>> = Vec::new();
    if n == 0 {
        push_copies(&mut out, v, 0, v.len());
        proof {
            assert(segs_v(v@).subrange(0, v@.len() as int) =~= sv);
        }
        return out;
    }
    let os: u128 = col as u128;
    let oe: u128 = col as u128 + n;
    let mut pos: u128 = 0;
    let mut i: usize = 0;
    proof {
        assert(sv.skip(0) =~= sv);
        assert(segs_v(out@) + overlay_walk(sv.skip(0), 0, os as int, oe as int, cv) =~= overlay_walk(
            sv,
            0,
            os as int,
            oe as int,
            cv,
        ));
    }
    while i < v.len()
        invariant
            i <= v@.len(),
            sv == segs_v(v@),
            cv == segs_v(ch@),
            total_len(sv) <= runs_cap(),
            runs_cap() + 2 * (usize::MAX as int) <= u128::MAX,
            os <= oe,
            oe == os + n,
            n <= runs_cap(),
            os <= usize::MAX,
            pos == total_len(sv.take(i as int)),
            segs_v(out@) + overlay_walk(sv.skip(i as int), pos as int, os as int, oe as int, cv) == overlay_walk(
                sv,
                0,
                os as int,
                oe as int,
                cv,
            ),
        decreases v@.len() - i,
    {
        proof {
            lemma_total_len_prefix(sv, i + 1);
            assert(sv.take(i + 1).drop_last() =~= sv.take(i as int));
        }
        let seg = &v[i];
        let ghost sx = seg.v();
        let ghost o0 = segs_v(out@);
        let seg_len = seg.text.len();
        let seg_end = pos + seg_len as u128;
        if seg_end <= os || pos >= oe {
            out.push(copy_seg(seg));
            proof {
                assert(segs_v(out@) =~= o0 + seq![sx]);
            }
        } else {
            if pos < os {
                out.push(Seg { text: slice_chars(&seg.text, 0, (os - pos) as usize), style: stack(&seg.style, &Vec::new()) });
                proof {
                    assert(sx.style + Seq::<S>::empty() =~= sx.style);
                    assert(sx.text.subrange(0, os - pos) =~= sx.text.take(os - pos));
                }
            }
            let ghost o1 = segs_v(out@);
            let a = if pos > os { pos - os } else { 0 };
            let b = if seg_end < oe { seg_end - os } else { oe - os };
            push_pieces(&mut out, &ch, a, b, true);
            let ghost o2 = segs_v(out@);
            if seg_end > oe {
                out.push(Seg { text: slice_chars(&seg.text, (oe - pos) as usize, seg_len), style: stack(&seg.style, &Vec::new()) });
                proof {
                    assert(sx.style + Seq::<S>::empty() =~= sx.style);
                    assert(sx.text.subrange(oe - pos, seg_len as int) =~= sx.text.skip(oe - pos));
                }
            }
            proof {
                let pre: Seq<SegV<S>> = if pos < os {
                    seq![SegV { text: sx.text.take(os - pos), style: sx.style }]
                } else {
                    seq![]
                };
                let post: Seq<SegV<S>> = if seg_end > oe {
                    seq![SegV { text: sx.text.skip(oe - pos), style: sx.style }]
                } else {
                    seq![]
                };
                assert(o1 =~= o0 + pre);
                assert(o2 == o1 + chunk_pieces(cv, a as int, b as int, true));
                assert(segs_v(out@) =~= o2 + post);
                assert(segs_v(out@) =~= o0 + (pre + chunk_pieces(cv, a as int, b as int, true) + post));
            }
        }
        proof {
            let w = sv.skip(i as int);
            assert(w[0] == sx);
            assert(w.drop_first() =~= sv.skip(i + 1));
            assert(sv.take(i + 1) =~= sv.take(i as int) + seq![sx]);
        }
        pos = seg_end;
        i += 1;
    }
    proof {
        assert(sv.skip(i as int) =~= Seq::<SegV<S>>::empty());
        assert(sv.take(i as int) =~= sv);
        assert(segs_v(out@) + Seq::<SegV<S>>::empty() =~= segs_v(out@));
    }
    let c = col as u128;
    let consumed: u128 = if pos <= c {
        0
    } else if pos - c >= n {
        n
    } else {
        pos - c
    };
    push_pieces(&mut out, &ch, consumed, n, false);
    out
}

/// The style of the first cursor at display column `col`, if any.
pub open spec fn cursor_style_at<S>(cc: Seq<(usize, S)>, col: int) -> Option<S>
    decreases cc.len(),
{
    if cc.len() == 0 {
        None
    } else if cc[0].0 == col {
        Some(cc[0].1)
    } else {
        cursor_style_at(cc.drop_first(), col)
    }
}

/// The layers of a tab drawn at `col` in a run of style `st`: a cursor's style where a
/// cursor stands, else the tab style over the run's.
pub open spec fn tab_layers<S>(st: Seq<S>, tab: S, cc: Seq<(usize, S)>, col: int) -> Seq<S> {
    match cursor_style_at(cc, col) {
        Some(c) => seq![c],
        None => st.push(tab),
    }
}

/// The view a viewport gives: `h` columns scrolled off to the left, `w` wide; a tab
/// drawn as `unit` in style `tab`; cursors at display columns `cc`.
pub struct Viewport<S> {
    pub h: int,
    pub w: int,
    pub unit: Seq<char>,
    pub tab: S,
    pub cc: Seq<(usize, S)>,
}

/// Walking the graphemes `gs[k..]` of a run of style `st` from display column `col`,
/// with the characters `vis` kept and not yet emitted: the spans emitted, the kept
/// characters left, and the column reached. A grapheme left of the viewport is
/// skipped; at the viewport's right edge the walk stops; a tab is emitted as a span of
/// its own.
pub open spec fn gscan<S>(gs: Seq<Seq<char>>, k: int, col: int, vis: Seq<char>, st: Seq<S>, vp: Viewport<S>) -> (
    Seq<SegV<S>>,
    Seq<char>,
    int,
)
    decreases gs.len() - k,
{
    if k >= gs.len() || k < 0 {
        (seq![], vis, col)
    } else {
        let g = gs[k];
        if g == seq!['\t'] {
            let uw = vp.unit.len() as int;
            if col + uw <= vp.h {
                gscan(gs, k + 1, col + uw, vis, st, vp)
            } else if col >= vp.h + vp.w {
                (seq![], vis, col)
            } else {
                let rest = gscan(gs, k + 1, col + uw, seq![], st, vp);
                let pre = if vis.len() > 0 {
                    seq![SegV { text: vis, style: st }]
                } else {
                    seq![]
                };
                (pre + seq![SegV { text: vp.unit, style: tab_layers(st, vp.tab, vp.cc, col) }] + rest.0, rest.1, rest.2)
            }
        } else {
            let gw = grapheme_width(g);
            if col + gw <= vp.h {
                gscan(gs, k + 1, col + gw, vis, st, vp)
            } else if col >= vp.h + vp.w {
                (seq![], vis, col)
            } else {
                gscan(gs, k + 1, col + gw, vis + g, st, vp)
            }
        }
    }
}

/// The spans that the runs `v` give in the viewport, the first starting at display
/// column `col`.
pub open spec fn spans_from<S>(v: Seq<SegV<S>>, col: int, vp: Viewport<S>) -> Seq<SegV<S>>
    decreases v.len(),
{
    if v.len() == 0 || col >= vp.h + vp.w {
        seq![]
    } else {
        let r = gscan(graphemes(v[0].text), 0, col, seq![], v[0].style, vp);
        r.0 + (if r.1.len() > 0 {
            seq![SegV { text: r.1, style: v[0].style }]
        } else {
            seq![]
        }) + spans_from(v.drop_first(), r.2, vp)
    }
}

/// The first cursor at display column `col`.
fn find_cursor_style<S: Copy>(cc: &Vec<(usize, S)>, col: u128) -> (r: Option<S>)
    ensures
        r == cursor_style_at(cc@, col as int),
{
    let mut i: usize = 0;
    proof {
        assert(cc@.skip(0) =~= cc@);
    }
    while i < cc.len()
        invariant
            i <= cc@.len(),
            cursor_style_at(cc@, col as int) == cursor_style_at(cc@.skip(i as int), col as int),
        decreases cc@.len() - i,
    {
        proof {
            assert(cc@.skip(i as int)[0] == cc@[i as int]);
            assert(cc@.skip(i as int).drop_first() =~= cc@.skip(i + 1));
        }
        if cc[i].0 as u128 == col {
            return Some(cc[i].1);
        }
        i += 1;
    }
    proof {
        assert(cc@.skip(i as int) =~= Seq::<(usize, S)>::empty());
    }
    None
}

/// The spans of the runs within the viewport: `h_scroll` columns scrolled off to the
/// left and `width` columns wide, a tab drawn as `unit` in style `tab_style` (or, where a
/// cursor stands, in the cursor's style).
pub fn into_spans<S: Copy>(
    v: &Vec<Seg<S>>,
    h_scroll: usize,
    width: usize,
    unit: &Vec<char>,
    tab_style: S,
    cc: &Vec<(usize, S)>,
) -> (r: Vec<Seg<S>>)
    ensures
        segs_v(r@) == spans_from(
            segs_v(v@),
            0,
            Viewport { h: h_scroll as int, w: width as int, unit: unit@, tab: tab_style, cc: cc@ },
        ),
{
    let ghost vp = Viewport { h: h_scroll as int, w: width as int, unit: unit@, tab: tab_style, cc: cc@ };
    let ghost sv = segs_v(v@);
    let limit: u128 = h_scroll as u128 + width as u128;
    let uw = unit.len();
    let mut spans: Vec<Seg<S>> = Vec::new();
    let mut col: u128 = 0;
    let mut i: usize = 0;
    proof {
        assert(sv.skip(0) =~= sv);
    }
    while i < v.len()
        invariant
            i <= v@.len(),
            sv == segs_v(v@),
            limit == h_scroll + width,
            uw == unit@.len(),
            vp == (Viewport { h: h_scroll as int, w: width as int, unit: unit@, tab: tab_style, cc: cc@ }),
            col <= h_scroll + width + usize::MAX,
            segs_v(spans@) + spans_from(sv.skip(i as int), col as int, vp) == spans_from(sv, 0, vp),
        decreases v@.len() - i,
    {
        let ghost w0 = sv.skip(i as int);
        proof {
            assert(w0[0] == v@[i as int].v());
            assert(w0.drop_first() =~= sv.skip(i + 1));
        }
        if col >= limit {
            proof {
                assert(spans_from(w0, col as int, vp) =~= Seq::<SegV<S>>::empty());
                assert(segs_v(spans@) + Seq::<SegV<S>>::empty() =~= segs_v(spans@));
            }
            return spans;
        }
        let seg = &v[i];
        let text = string_of(&seg.text);
        let gs = graphemes_of(text.as_str());
        let ghost gv = graphemes(seg.text@);
        let ghost st0 = seg.style@;
        let ghost s0 = segs_v(spans@);
        let ghost col0 = col as int;
        let mut visible: Vec<char> = Vec::new();
        let mut k: usize = 0;
        while k < gs.len()
            invariant
                k <= gs@.len(),
                gs@.map_values(|g: String| g@) == gv,
                st0 == seg.style@,
                limit == h_scroll + width,
                uw == unit@.len(),
                vp == (Viewport { h: h_scroll as int, w: width as int, unit: unit@, tab: tab_style, cc: cc@ }),
                col <= h_scroll + width + usize::MAX,
                s0.len() <= spans@.len(),
                segs_v(spans@).take(s0.len() as int) == s0,
                ({
                    let whole = gscan(gv, 0, col0, seq![], st0, vp);
                    let r = gscan(gv, k as int, col as int, visible@, st0, vp);
                    &&& whole.1 == r.1
                    &&& whole.2 == r.2
                    &&& whole.0 == segs_v(spans@).skip(s0.len() as int) + r.0
                }),
            ensures
                s0.len() <= spans@.len(),
                segs_v(spans@).take(s0.len() as int) == s0,
                col <= h_scroll + width + usize::MAX,
                ({
                    let whole = gscan(gv, 0, col0, seq![], st0, vp);
                    &&& whole.1 == visible@
                    &&& whole.2 == col
                    &&& whole.0 == segs_v(spans@).skip(s0.len() as int)
                }),
            decreases gs@.len() - k,
        {
            let g = gs[k].as_str();
            proof {
                assert(gv[k as int] == g@);
            }
            let gc = chars_of(g);
            let ghost e0 = segs_v(spans@).skip(s0.len() as int);
            if is_tab_exec(&gc) {
                if col + uw as u128 <= h_scroll as u128 {
                    col = col + uw as u128;
                    k += 1;
                    continue;
                }
                if col >= limit {
                    break;
                }
                let ghost vis0 = visible@;
                let ghost p0 = segs_v(spans@);
                if visible.len() > 0 {
                    let t = slice_chars(&visible, 0, visible.len());
                    spans.push(Seg { text: t, style: stack(&seg.style, &Vec::new()) });
                    visible = Vec::new();
                    proof {
                        assert(vis0.subrange(0, vis0.len() as int) =~= vis0);
                        assert(st0 + Seq::<S>::empty() =~= st0);
                    }
                }
                let ghost pre: Seq<SegV<S>> = if vis0.len() > 0 {
                    seq![SegV { text: vis0, style: st0 }]
                } else {
                    seq![]
                };
                proof {
                    assert(segs_v(spans@) =~= p0 + pre);
                }
                let ghost p1 = segs_v(spans@);
                let st = match find_cursor_style(cc, col) {
                    Some(c) => {
                        let mut l: Vec<S> = Vec::new();
                        l.push(c);
                        proof {
                            assert(l@ =~= seq![c]);
                        }
                        l
                    },
                    None => {
                        let mut l: Vec<S> = Vec::new();
                        l.push(tab_style);
                        proof {
                            assert(l@ =~= seq![tab_style]);
                            assert(st0 + seq![tab_style] =~= st0.push(tab_style));
                        }
                        stack(&seg.style, &l)
                    },
                };
                spans.push(Seg { text: slice_chars(unit, 0, uw), style: st });
                let ghost tabseg = SegV { text: unit@, style: tab_layers(st0, tab_style, cc@, col as int) };
                proof {
                    assert(unit@.subrange(0, uw as int) =~= unit@);
                    assert(segs_v(spans@) =~= p1.push(tabseg));
                    assert(segs_v(spans@).take(s0.len() as int) =~= s0);
                    assert(segs_v(spans@).skip(s0.len() as int) =~= e0 + (pre + seq![tabseg]));
                    assert(visible@ =~= Seq::<char>::empty());
                }
                col = col + uw as u128;
            } else {
                let gw = grapheme_display_width(g);
                if col + gw as u128 <= h_scroll as u128 {
                    col = col + gw as u128;
                    k += 1;
                    continue;
                }
                if col >= limit {
                    break;
                }
                let ghost pv = visible@;
                let mut j: usize = 0;
                while j < gc.len()
                    invariant
                        j <= gc@.len(),
                        visible@ == pv + gc@.take(j as int),
                    decreases gc@.len() - j,
                {
                    visible.push(gc[j]);
                    proof {
                        assert(visible@ =~= pv + gc@.take(j + 1));
                    }
                    j += 1;
                }
                proof {
                    assert(gc@.take(j as int) =~= gc@);
                }
                col = col + gw as u128;
            }
            k += 1;
        }
        let ghost sp0 = segs_v(spans@);
        let ghost whole = gscan(gv, 0, col0, seq![], st0, vp);
        if visible.len() > 0 {
            let t = slice_chars(&visible, 0, visible.len());
            spans.push(Seg { text: t, style: stack(&seg.style, &Vec::new()) });
            proof {
                assert(visible@.subrange(0, visible@.len() as int) =~= visible@);
                assert(st0 + Seq::<S>::empty() =~= st0);
            }
        }
        proof {
            let flush: Seq<SegV<S>> = if whole.1.len() > 0 {
                seq![SegV { text: whole.1, style: st0 }]
            } else {
                seq![]
            };
            assert(segs_v(spans@) =~= sp0 + flush);
            assert(sp0 =~= s0 + whole.0) by {
                assert(sp0 =~= sp0.take(s0.len() as int) + sp0.skip(s0.len() as int));
            }
            assert(sv.skip(i as int)[0].text == seg.text@);
            assert(spans_from(w0, col0, vp) == whole.0 + flush + spans_from(sv.skip(i + 1), col as int, vp));
            assert(segs_v(spans@) + spans_from(sv.skip(i + 1), col as int, vp) =~= s0 + spans_from(w0, col0, vp));
        }
        i += 1;
    }
    proof {
        assert(sv.skip(i as int) =~= Seq::<SegV<S>>::empty());
        assert(segs_v(spans@) + Seq::<SegV<S>>::empty() =~= segs_v(spans@));
    }
    spans
}

/// The display width of the first `n` graphemes of `gs` (all of them when there are
/// fewer), a tab being `tab` columns wide.
pub open spec fn prefix_width(gs: Seq<Seq<char>>, n: int, tab: int) -> int
    decreases n,
{
    if n <= 0 || gs.len() == 0 {
        0
    } else if n > gs.len() {
        prefix_width(gs, gs.len() as int, tab)
    } else {
        prefix_width(gs, n - 1, tab) + cell_width(gs[n - 1], tab)
    }
}

proof fn lemma_prefix_width_nonneg(gs: Seq<Seq<char>>, n: int, tab: int)
    requires
        0 <= n <= gs.len(),
        tab >= 0,
    ensures
        prefix_width(gs, n, tab) >= 0,
    decreases n,
{
    if n > 0 {
        lemma_prefix_width_nonneg(gs, n - 1, tab);
    }
}

pub proof fn lemma_prefix_width_mono(gs: Seq<Seq<char>>, a: int, b: int, tab: int)
    requires
        0 <= a <= b <= gs.len(),
        tab >= 0,
    ensures
        0 <= prefix_width(gs, a, tab) <= prefix_width(gs, b, tab),
    decreases b,
{
    if b > a {
        lemma_prefix_width_mono(gs, a, b - 1, tab);
        assert(cell_width(gs[b - 1], tab) >= 0);
    } else {
        lemma_prefix_width_nonneg(gs, a, tab);
    }
}

/// The display column of the grapheme numbered `char_col` in `line`: the widths of the
/// graphemes before it, a tab being as wide as `unit`.
pub fn char_col_to_display_col(line: &Vec<char>, char_col: usize, unit: &Vec<char>) -> (r: usize)
    requires
        prefix_width(graphemes(line@), char_col as int, unit@.len() as int) <= usize::MAX,
    ensures
        r as int == prefix_width(graphemes(line@), char_col as int, unit@.len() as int),
{
    let tab_w = unit.len();
    let text = string_of(line);
    let gs = graphemes_of(text.as_str());
    let ghost gv = graphemes(line@);
    let ghost target = prefix_width(gv, char_col as int, tab_w as int);
    let mut display_col: usize = 0;
    let mut i: usize = 0;
    proof {
        let m = if char_col < gv.len() { char_col as int } else { gv.len() as int };
        assert(prefix_width(gv, char_col as int, tab_w as int) == prefix_width(gv, m, tab_w as int));
        assert(gs@.map_values(|g: String| g@).len() == gs@.len());
    }
    while i < gs.len()
        invariant
            i <= gs@.len(),
            gs@.map_values(|g: String| g@) == gv,
            gs@.len() == gv.len(),
            tab_w == unit@.len(),
            target == prefix_width(gv, char_col as int, tab_w as int),
            target <= usize::MAX,
            i <= char_col,
            display_col == prefix_width(gv, i as int, tab_w as int),
            target == prefix_width(gv, if char_col < gv.len() { char_col as int } else { gv.len() as int }, tab_w as int),
        ensures
            i >= char_col || i >= gs@.len(),
            i <= gs@.len(),
            i <= char_col,
            gs@.len() == gv.len(),
            target <= usize::MAX,
            display_col == prefix_width(gv, i as int, tab_w as int),
            target == prefix_width(gv, if char_col < gv.len() { char_col as int } else { gv.len() as int }, tab_w as int),
        decreases gs@.len() - i,
    {
        if i >= char_col {
            break;
        }
        let g = gs[i].as_str();
        proof {
            assert(gv[i as int] == g@);
            let m = if char_col < gv.len() { char_col as int } else { gv.len() as int };
            lemma_prefix_width_mono(gv, i + 1, m, tab_w as int);
        }
        let gc = chars_of(g);
        if is_tab_exec(&gc) {
            display_col = display_col + tab_w;
        } else {
            display_col = display_col + grapheme_display_width(g);
        }
        i += 1;
    }
    proof {
        if i < char_col {
            assert(i == gv.len());
        }
    }
    display_col
}

/// A chunk of virtual text as drawn: its characters, its style and its priority.
pub struct TextChunk<S> {
    pub text: Vec<char>,
    pub style: S,
    pub priority: i32,
}

/// What a chunk is: its characters, its style and its priority.
pub struct TextChunkV<S> {
    pub text: Seq<char>,
    pub style: S,
    pub priority: i32,
}

impl<S> TextChunk<S> {
    pub open spec fn v(&self) -> TextChunkV<S> {
        TextChunkV { text: self.text@, style: self.style, priority: self.priority }
    }
}

pub open spec fn text_chunks_v<S>(cs: Seq<TextChunk<S>>) -> Seq<TextChunkV<S>> {
    Seq::new(cs.len(), |i: int| cs[i].v())
}

pub open spec fn chunk_keys<S>(cs: Seq<TextChunkV<S>>) -> Seq<int> {
    Seq::new(cs.len(), |i: int| cs[i].priority as int)
}

/// The spans of the first `n` chunks of `cs`, taken in `order`.
pub open spec fn picked_spans<S>(cs: Seq<TextChunkV<S>>, order: Seq<int>, n: int) -> Seq<SegV<S>>
    decreases n,
{
    if n <= 0 {
        seq![]
    } else {
        picked_spans(cs, order, n - 1).push(SegV { text: cs[order[n - 1]].text, style: seq![cs[order[n - 1]].style] })
    }
}

/// The spans of the chunks in order of priority.
pub open spec fn by_priority<S>(cs: Seq<TextChunkV<S>>) -> Seq<SegV<S>> {
    picked_spans(cs, stable_sort(chunk_keys(cs), cs.len() as int), cs.len() as int)
}

/// `n` spaces.
pub open spec fn spaces(n: int) -> Seq<char> {
    Seq::new(n as nat, |i: int| ' ')
}

/// The spans of a line followed by its end-of-line chunks and then its right-aligned
/// chunks, padded with spaces so that they end at column `width` when they fit.
pub open spec fn with_eol_and_right<S>(
    spans: Seq<SegV<S>>,
    eol: Seq<TextChunkV<S>>,
    right: Seq<TextChunkV<S>>,
    width: int,
) -> Seq<SegV<S>> {
    let a = spans + by_priority(eol);
    if right.len() == 0 {
        a
    } else {
        let r = by_priority(right);
        let cur = total_len(a);
        let rl = total_len(r);
        (if cur + rl < width {
            a.push(SegV { text: spaces(width - cur - rl), style: seq![] })
        } else {
            a
        }) + r
    }
}

/// Pushes the spans of the chunks, in order of priority.
fn push_by_priority<S: Copy>(out: &mut Vec<Seg<S>>, cs: &Vec<TextChunk<S>>)
    ensures
        segs_v(final(out)@) == segs_v(old(out)@) + by_priority(text_chunks_v(cs@)),
{
    let mut keys: Vec<i128> = Vec::new();
    let mut i: usize = 0;
    while i < cs.len()
        invariant
            i <= cs@.len(),
            keys@.len() == i,
            ints(keys@) == chunk_keys(text_chunks_v(cs@)).take(i as int),
        decreases cs@.len() - i,
    {
        let ghost pk = keys@;
        keys.push(cs[i].priority as i128);
        proof {
            assert(keys@ == pk.push(cs@[i as int].priority as i128));
            assert forall|j: int| 0 <= j < i + 1 implies #[trigger] ints(keys@)[j] == chunk_keys(text_chunks_v(cs@)).take(i + 1)[j] by {
                if j < i {
                    assert(ints(pk)[j] == chunk_keys(text_chunks_v(cs@)).take(i as int)[j]);
                }
            }
            assert(ints(keys@) =~= chunk_keys(text_chunks_v(cs@)).take(i + 1));
        }
        i += 1;
    }
    proof {
        assert(chunk_keys(text_chunks_v(cs@)).take(i as int) =~= chunk_keys(text_chunks_v(cs@)));
    }
    let order = stable_order(&keys);
    let ghost ord = idxs(order@);
    let ghost o = segs_v(out@);
    let mut k: usize = 0;
    while k < order.len()
        invariant
            k <= order@.len(),
            order@.len() == cs@.len(),
            keys@.len() == cs@.len(),
            forall|t: int| 0 <= t < order@.len() ==> #[trigger] order@[t] < keys@.len(),
            ord == idxs(order@),
            segs_v(out@) == o + picked_spans(text_chunks_v(cs@), ord, k as int),
        decreases order@.len() - k,
    {
        let c = &cs[order[k]];
        let mut st: Vec<S> = Vec::new();
        st.push(c.style);
        let ghost prev = segs_v(out@);
        out.push(Seg { text: slice_chars(&c.text, 0, c.text.len()), style: st });
        proof {
            assert(c.text@.subrange(0, c.text@.len() as int) =~= c.text@);
            assert(st@ =~= seq![c.style]);
            assert(segs_v(out@) =~= prev.push(SegV { text: c.text@, style: seq![c.style] }));
        }
        k += 1;
    }
}

/// Appends a line's end-of-line chunks, then its right-aligned chunks after enough
/// spaces to end them at column `width`.
pub fn append_eol_and_right_align<S: Copy>(
    spans: &mut Vec<Seg<S>>,
    eol: &Vec<TextChunk<S>>,
    right: &Vec<TextChunk<S>>,
    width: usize,
)
    ensures
        segs_v(final(spans)@) == with_eol_and_right(
            segs_v(old(spans)@),
            text_chunks_v(eol@),
            text_chunks_v(right@),
            width as int,
        ),
{
    push_by_priority(spans, eol);
    if right.len() > 0 {
        let ghost a = segs_v(spans@);
        let mut rs: Vec<Seg<S>> = Vec::new();
        push_by_priority(&mut rs, right);
        proof {
            assert(segs_v(rs@) =~= by_priority(text_chunks_v(right@)));
            lemma_total_len_nonneg(segs_v(rs@));
            lemma_total_len_nonneg(a);
        }
        let cur = runs_len(spans);
        let rl = runs_len(&rs);
        proof {
            lemma_runs_fit(spans);
        }
        if cur < width as u128 && rl < width as u128 - cur {
            let pad = (width as u128 - cur - rl) as usize;
            let mut t: Vec<char> = Vec::new();
            let mut j: usize = 0;
            while j < pad
                invariant
                    j <= pad,
                    t@ == spaces(j as int),
                decreases pad - j,
            {
                t.push(' ');
                proof {
                    assert(t@ =~= spaces(j + 1));
                }
                j += 1;
            }
            spans.push(Seg { text: t, style: Vec::new() });
            proof {
                assert(segs_v(spans@) =~= a.push(SegV { text: spaces(width - cur - rl), style: seq![] }));
            }
        }
        let ghost b = segs_v(spans@);
        push_copies(spans, &rs, 0, rs.len());
        proof {
            assert(segs_v(rs@).subrange(0, rs@.len() as int) =~= segs_v(rs@));
        }
    }
}

/// Walking the graphemes `gs[k..]` of a line with no marks from display column `col`,
/// `vis` kept and not yet emitted: the spans, plain text in the default style and tabs
/// in the tab style; a line break ends the line.
pub open spec fn plain_scan<S>(gs: Seq<Seq<char>>, k: int, col: int, vis: Seq<char>, h: int, w: int, unit: Seq<char>, tab: S) -> Seq<SegV<S>>
    decreases gs.len() - k,
{
    let flush: Seq<SegV<S>> = if vis.len() > 0 {
        seq![SegV { text: vis, style: seq![] }]
    } else {
        seq![]
    };
    if k >= gs.len() || k < 0 {
        flush
    } else {
        let g = gs[k];
        if g == seq!['\t'] {
            let uw = unit.len() as int;
            if col + uw <= h {
                plain_scan(gs, k + 1, col + uw, vis, h, w, unit, tab)
            } else if col >= h + w {
                flush
            } else {
                flush + seq![SegV { text: unit, style: seq![tab] }] + plain_scan(gs, k + 1, col + uw, seq![], h, w, unit, tab)
            }
        } else if is_line_break(g) {
            flush
        } else {
            let gw = grapheme_width(g);
            if col + gw <= h {
                plain_scan(gs, k + 1, col + gw, vis, h, w, unit, tab)
            } else if col >= h + w {
                flush
            } else {
                plain_scan(gs, k + 1, col + gw, vis + g, h, w, unit, tab)
            }
        }
    }
}

/// The spans of a line with no marks, within a viewport `h_scroll` columns scrolled
/// off to the left and `width` wide, a tab drawn as `unit` in style `tab_style`.
pub fn render_plain_line<S: Copy>(line: &Vec<char>, h_scroll: usize, width: usize, unit: &Vec<char>, tab_style: S) -> (r: Vec<Seg<S>>)
    ensures
        segs_v(r@) == plain_scan(graphemes(line@), 0, 0, seq![], h_scroll as int, width as int, unit@, tab_style),
{
    let text = string_of(line);
    let gs = graphemes_of(text.as_str());
    let ghost gv = graphemes(line@);
    let ghost whole = plain_scan(gv, 0, 0, seq![], h_scroll as int, width as int, unit@, tab_style);
    let uw = unit.len();
    let limit: u128 = h_scroll as u128 + width as u128;
    let mut spans: Vec<Seg<S>> = Vec::new();
    let mut visible: Vec<char> = Vec::new();
    let mut col: u128 = 0;
    let mut k: usize = 0;
    while k < gs.len()
        invariant
            k <= gs@.len(),
            gs@.map_values(|g: String| g@) == gv,
            limit == h_scroll + width,
            uw == unit@.len(),
            col <= h_scroll + width + usize::MAX,
            whole == segs_v(spans@) + plain_scan(gv, k as int, col as int, visible@, h_scroll as int, width as int, unit@, tab_style),
        ensures
            whole == segs_v(spans@) + (if visible@.len() > 0 {
                seq![SegV { text: visible@, style: Seq::<S>::empty() }]
            } else {
                Seq::<SegV<S>>::empty()
            }),
        decreases gs@.len() - k,
    {
        let g = gs[k].as_str();
        proof {
            assert(gv[k as int] == g@);
        }
        let gc = chars_of(g);
        let ghost flush: Seq<SegV<S>> = if visible@.len() > 0 {
            seq![SegV { text: visible@, style: seq![] }]
        } else {
            seq![]
        };
        if is_tab_exec(&gc) {
            if col + uw as u128 <= h_scroll as u128 {
                col = col + uw as u128;
                k += 1;
                continue;
            }
            if col >= limit {
                break;
            }
            let ghost p0 = segs_v(spans@);
            if visible.len() > 0 {
                spans.push(Seg { text: slice_chars(&visible, 0, visible.len()), style: Vec::new() });
                proof {
                    assert(visible@.subrange(0, visible@.len() as int) =~= visible@);
                }
                visible = Vec::new();
            }
            let mut st: Vec<S> = Vec::new();
            st.push(tab_style);
            spans.push(Seg { text: slice_chars(unit, 0, uw), style: st });
            proof {
                assert(unit@.subrange(0, uw as int) =~= unit@);
                assert(st@ =~= seq![tab_style]);
                assert(segs_v(spans@) =~= p0 + flush + seq![SegV { text: unit@, style: seq![tab_style] }]);
                assert(visible@ =~= Seq::<char>::empty());
            }
            col = col + uw as u128;
        } else if is_line_break_exec(&gc) {
            break;
        } else {
            let gw = grapheme_display_width(g);
            if col + gw as u128 <= h_scroll as u128 {
                col = col + gw as u128;
                k += 1;
                continue;
            }
            if col >= limit {
                break;
            }
            let ghost pv = visible@;
            let mut j: usize = 0;
            while j < gc.len()
                invariant
                    j <= gc@.len(),
                    visible@ == pv + gc@.take(j as int),
                decreases gc@.len() - j,
            {
                visible.push(gc[j]);
                proof {
                    assert(visible@ =~= pv + gc@.take(j + 1));
                }
                j += 1;
            }
            proof {
                assert(gc@.take(j as int) =~= gc@);
            }
            col = col + gw as u128;
        }
        k += 1;
    }
    let ghost sp0 = segs_v(spans@);
    if visible.len() > 0 {
        spans.push(Seg { text: slice_chars(&visible, 0, visible.len()), style: Vec::new() });
        proof {
            assert(visible@.subrange(0, visible@.len() as int) =~= visible@);
        }
    }
    proof {
        assert(segs_v(spans@) =~= whole);
    }
    spans
}

} // verus!
