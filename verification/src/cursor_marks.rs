//! The marks that draw a buffer's cursors and selections.

use vstd::prelude::*;
use crate::buffer::TextBuffer;
use crate::cursor::Cursor;
use crate::decor::{CursorShape, ExtmarkKind};
use crate::extmark::{Extmark, ExtmarkAdjustment, ExtmarkBuilder, ExtmarkGravity};
use crate::text::{owned, push_char};

verus! {

/// The namespace of the caret marks.
pub open spec fn cursor_ns() -> Seq<char> {
    "inner::cursor"@
}

/// The namespace of the selection marks.
pub open spec fn selection_ns() -> Seq<char> {
    "inner::selection"@
}

/// The caret's shape in a mode: a blinking bar while inserting, else a block.
pub open spec fn shape_for_mode(mode: char) -> CursorShape {
    if mode == 'i' {
        CursorShape::BlinkingBar
    } else {
        CursorShape::Block
    }
}

/// The marks the cursors `cs` are drawn with, in order: for each cursor its caret
/// (drawn as a caret for the primary one, as a highlight for the others), then its
/// selection when that is not empty. Each is a namespace, a byte range and a kind.
pub open spec fn cursor_plans<S, W>(cs: Seq<Cursor>, primary: int, shape: CursorShape, cst: S, sst: S) -> Seq<
    (Seq<char>, int, int, Option<ExtmarkKind<S, W>>),
>
    decreases cs.len(),
{
    if cs.len() == 0 {
        seq![]
    } else {
        let k = cs.len() - 1;
        let c = cs.last();
        let caret = c.caret() as int;
        let kind = if k == primary {
            ExtmarkKind::Cursor { style: cst, shape }
        } else {
            ExtmarkKind::Highlight { style: cst }
        };
        let sel: Seq<(Seq<char>, int, int, Option<ExtmarkKind<S, W>>)> = if c.sel_start != c.sel_end {
            seq![(selection_ns(), c.sel_start as int, c.sel_end as int, Some(ExtmarkKind::Highlight { style: sst }))]
        } else {
            seq![]
        };
        cursor_plans(cs.drop_last(), primary, shape, cst, sst) + seq![(cursor_ns(), caret, caret + 1, Some(kind))]
            + sel
    }
}

/// Mark `e` is plan `p`, added with id `id` at file version `v`.
pub open spec fn made_by_plan<S, W>(
    e: Extmark<Option<ExtmarkKind<S, W>>>,
    p: (Seq<char>, int, int, Option<ExtmarkKind<S, W>>),
    id: int,
    v: u128,
) -> bool {
    &&& e.id == id
    &&& e.file_version == v
    &&& e.namespace@ == p.0
    &&& e.byte_range.start == p.1
    &&& e.byte_range.end == p.2
    &&& e.kind == p.3
    &&& e.gravity == ExtmarkGravity::Right
    &&& e.adjustment == ExtmarkAdjustment::Track
    &&& !e.expand_on_insert
}

proof fn lemma_plans_len<S, W>(cs: Seq<Cursor>, primary: int, shape: CursorShape, cst: S, sst: S)
    ensures
        cursor_plans::<S, W>(cs, primary, shape, cst, sst).len() <= 2 * cs.len(),
    decreases cs.len(),
{
    if cs.len() > 0 {
        lemma_plans_len::<S, W>(cs.drop_last(), primary, shape, cst, sst);
    }
}

/// Replaces the marks that draw the cursors of `buf`: the old caret and selection
/// marks go, and each cursor gets its caret mark (in `cursor_style`, with the shape
/// of `mode`) and, for a non-empty selection, a selection mark in `sel_style`. The
/// other marks, the text and the cursors stay as they were.
pub fn render_cursors_and_selections<S: Copy, W>(
    buf: &mut TextBuffer<ExtmarkKind<S, W>>,
    mode: char,
    cursor_style: S,
    sel_style: S,
)
    requires
        old(buf).renderer.wf(),
        forall|k: int| 0 <= k < old(buf).cursors@.len() ==> (#[trigger] old(buf).cursors@[k]).caret() < usize::MAX,
        old(buf).renderer.next_id() + 2 * old(buf).cursors@.len() <= u64::MAX,
    ensures
        ({
            let kept = old(buf).renderer.marks().filter(
                |e: Extmark<Option<ExtmarkKind<S, W>>>| e.namespace@ != cursor_ns(),
            ).filter(|e: Extmark<Option<ExtmarkKind<S, W>>>| e.namespace@ != selection_ns());
            let plans = cursor_plans::<S, W>(
                old(buf).cursors@,
                old(buf).primary_cursor as int,
                shape_for_mode(mode),
                cursor_style,
                sel_style,
            );
            &&& final(buf).renderer.wf()
            &&& final(buf).renderer.marks().len() == kept.len() + plans.len()
            &&& final(buf).renderer.marks().take(kept.len() as int) == kept
            &&& forall|i: int| 0 <= i < plans.len() ==> made_by_plan(
                #[trigger] final(buf).renderer.marks()[kept.len() + i],
                plans[i],
                old(buf).renderer.next_id() + i,
                old(buf).version,
            )
            &&& final(buf).renderer.next_id() == old(buf).renderer.next_id() + plans.len()
            &&& final(buf).renderer.priorities() == old(buf).renderer.priorities()
            &&& final(buf).model() == old(buf).model()
        }),
{
    buf.renderer.clear_extmark_ns("inner::cursor");
    buf.renderer.clear_extmark_ns("inner::selection");
    let ghost kept = buf.renderer.marks();
    proof {
        assert((|e: Extmark<Option<ExtmarkKind<S, W>>>| e.namespace@ != "inner::cursor"@) =~= (|e: Extmark<Option<ExtmarkKind<S, W>>>| e.namespace@ != cursor_ns()));
        assert((|e: Extmark<Option<ExtmarkKind<S, W>>>| e.namespace@ != "inner::selection"@) =~= (|e: Extmark<Option<ExtmarkKind<S, W>>>| e.namespace@ != selection_ns()));
    }
    let ghost cs = buf.cursors@;
    let ghost id0 = buf.renderer.next_id();
    let shape = if mode == 'i' {
        CursorShape::BlinkingBar
    } else {
        CursorShape::Block
    };
    let primary = buf.primary_cursor;
    let n = buf.cursors.len();
    let mut i: usize = 0;
    while i < n
        invariant
            n == cs.len(),
            i <= n,
            buf.cursors@ == cs,
            buf.primary_cursor == primary,
            buf.model() == old(buf).model(),
            buf.version == old(buf).version,
            shape == shape_for_mode(mode),
            cs == old(buf).cursors@,
            primary == old(buf).primary_cursor,
            id0 == old(buf).renderer.next_id(),
            id0 + 2 * cs.len() <= u64::MAX,
            forall|k: int| 0 <= k < cs.len() ==> (#[trigger] cs[k]).caret() < usize::MAX,
            buf.renderer.wf(),
            buf.renderer.priorities() == old(buf).renderer.priorities(),
            ({
                let plans = cursor_plans::<S, W>(cs.take(i as int), primary as int, shape, cursor_style, sel_style);
                &&& buf.renderer.marks().len() == kept.len() + plans.len()
                &&& buf.renderer.marks().take(kept.len() as int) == kept
                &&& buf.renderer.next_id() == id0 + plans.len()
                &&& forall|j: int| 0 <= j < plans.len() ==> made_by_plan(
                    #[trigger] buf.renderer.marks()[kept.len() + j],
                    plans[j],
                    id0 + j,
                    buf.version,
                )
            }),
        decreases n - i,
    {
        let c = buf.cursors[i];
        let caret = c.get_cursor_byte();
        let ghost before = buf.renderer.marks();
        let ghost prev = cursor_plans::<S, W>(cs.take(i as int), primary as int, shape, cursor_style, sel_style);
        proof {
            assert(cs.take(i + 1).drop_last() =~= cs.take(i as int));
            assert(cs.take(i + 1).last() == c);
            lemma_plans_len::<S, W>(cs.take(i as int), primary as int, shape, cursor_style, sel_style);
            assert(cs[i as int] == c);
        }
        let kind = if i == primary {
            ExtmarkKind::Cursor { style: cursor_style, shape }
        } else {
            ExtmarkKind::Highlight { style: cursor_style }
        };
        buf.add_extmark(ExtmarkBuilder::new("inner::cursor", caret).with_kind(kind));
        proof {
            let m = buf.renderer.marks();
            assert(m.drop_last() == before);
            assert forall|j: int| 0 <= j < prev.len() implies made_by_plan(
                #[trigger] m[kept.len() + j],
                prev[j],
                id0 + j,
                buf.version,
            ) by {
                assert(m[kept.len() + j] == before[kept.len() + j]);
            }
            assert(m.take(kept.len() as int) =~= before.take(kept.len() as int));
        }
        if c.sel_start != c.sel_end {
            let ghost before2 = buf.renderer.marks();
            buf.add_extmark(
                ExtmarkBuilder::new_range("inner::selection", c.sel_start..c.sel_end).with_kind(
                    ExtmarkKind::Highlight { style: sel_style },
                ),
            );
            proof {
                let m = buf.renderer.marks();
                assert(m.drop_last() == before2);
                assert forall|j: int| 0 <= j < prev.len() + 1 implies #[trigger] m[kept.len() + j]
                    == before2[kept.len() + j] by {}
                assert(m.take(kept.len() as int) =~= before2.take(kept.len() as int));
            }
        }
        proof {
            let plans = cursor_plans::<S, W>(cs.take(i + 1), primary as int, shape, cursor_style, sel_style);
            let m = buf.renderer.marks();
            assert forall|j: int| 0 <= j < plans.len() implies made_by_plan(
                #[trigger] m[kept.len() + j],
                plans[j],
                id0 + j,
                buf.version,
            ) by {
                if j < prev.len() {
                    assert(plans[j] == prev[j]);
                }
            }
        }
        i += 1;
    }
    proof {
        assert(cs.take(n as int) =~= cs);
    }
}

/// The theme keys tried, in order, for the caret's style with the mode stack `modes`
/// (bottom first): `ui.cursor.` followed by the modes joined with `.`, then with the
/// bottom mode dropped, and so on, and last `ui.cursor` itself.
pub open spec fn cursor_theme_keys(modes: Seq<char>) -> Seq<Seq<char>> {
    Seq::new(modes.len() + 1, |i: int| if i < modes.len() {
        "ui.cursor"@ + dotted(modes.skip(i))
    } else {
        "ui.cursor"@
    })
}

/// Each char of `cs` preceded by a `.`.
pub open spec fn dotted(cs: Seq<char>) -> Seq<char>
    decreases cs.len(),
{
    if cs.len() == 0 {
        seq![]
    } else {
        dotted(cs.drop_last()) + seq!['.', cs.last()]
    }
}

/// The theme keys for the caret's style, most specific first (see
/// `cursor_theme_keys`); the first that the theme holds gives the style.
pub fn cursor_style_keys(modes: &Vec<char>) -> (r: Vec<String>)
    ensures
        r@.map_values(|s: String| s@) == cursor_theme_keys(modes@),
{
    let mut r: Vec<String> = Vec::new();
    let n = modes.len();
    let mut i: usize = 0;
    while i < n
        invariant
            n == modes@.len(),
            i <= n,
            r@.map_values(|s: String| s@) == cursor_theme_keys(modes@).take(i as int),
        decreases n - i,
    {
        let mut key = owned("ui.cursor");
        let mut k: usize = i;
        while k < n
            invariant
                i <= k <= n,
                n == modes@.len(),
                key@ == "ui.cursor"@ + dotted(modes@.subrange(i as int, k as int)),
            decreases n - k,
        {
            push_char(&mut key, '.');
            push_char(&mut key, modes[k]);
            proof {
                let t = modes@.subrange(i as int, k + 1);
                assert(t.drop_last() =~= modes@.subrange(i as int, k as int));
                assert(key@ =~= "ui.cursor"@ + dotted(t));
            }
            k += 1;
        }
        proof {
            assert(modes@.subrange(i as int, n as int) =~= modes@.skip(i as int));
        }
        let ghost old_r = r@;
        let ghost kv = key@;
        r.push(key);
        proof {
            let keys = cursor_theme_keys(modes@);
            assert(keys[i as int] == kv);
            assert(r@.map_values(|s: String| s@) =~= old_r.map_values(|s: String| s@).push(kv));
            assert(keys.take(i as int).push(kv) =~= keys.take(i + 1));
        }
        i += 1;
    }
    let last = owned("ui.cursor");
    let ghost old_r = r@;
    r.push(last);
    proof {
        let keys = cursor_theme_keys(modes@);
        assert(keys[n as int] == "ui.cursor"@);
        assert(r@.map_values(|s: String| s@) =~= old_r.map_values(|s: String| s@).push("ui.cursor"@));
        assert(keys.take(n as int).push("ui.cursor"@) =~= keys);
    }
    r
}

} // verus!
