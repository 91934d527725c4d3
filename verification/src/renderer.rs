//! The extmarks of a buffer, and the scroll state it is drawn with.
//!
//! Marks are kept in the order in which they entered their start position: a mark
//! goes last when it is added and when its start moves. A query lists the marks that
//! meet a byte range ordered by the priority of their namespace, then by start, then
//! in that order.

use vstd::prelude::*;
use crate::extmark::{Extmark, ExtmarkBuilder, adjust_mark_range, built_from, mark_adjusted, offset_ok};
use crate::keyed::{keyed_insert, keyed_get, keyed_map, sorted_keys};
use crate::text::owned;

verus! {

/// An edit, as `((line, column), byte)` of its start, of the end of the replaced text,
/// and of the end of the new text.
pub type ByteChange = [((usize, usize), usize); 3];

/// No two marks share an id.
pub open spec fn distinct_ids<K>(ms: Seq<Extmark<K>>) -> bool {
    forall|i: int, j: int| 0 <= i < ms.len() && 0 <= j < ms.len() && i != j ==> (#[trigger] ms[i]).id
        != (#[trigger] ms[j]).id
}

/// Both ends of the mark are valid offsets.
pub open spec fn mark_offsets_ok<K>(e: Extmark<K>) -> bool {
    offset_ok(e.byte_range.start as int) && offset_ok(e.byte_range.end as int)
}

/// The mark meets the byte range `start..end` as a query sees it: it starts before
/// `end` and ends at or after `start`.
pub open spec fn meets<K>(e: Extmark<K>, start: int, end: int) -> bool {
    e.byte_range.start < end && e.byte_range.end >= start
}

/// Lexicographic order on `(priority, start, position)`.
pub open spec fn key_lt(a: (int, int, int), b: (int, int, int)) -> bool {
    a.0 < b.0 || (a.0 == b.0 && (a.1 < b.1 || (a.1 == b.1 && a.2 < b.2)))
}

/// Which marks a removal takes away.
pub enum Removal<'a> {
    /// The marks of a namespace
    Namespace(&'a String),
    /// The mark with an id
    Id(u64),
    /// The marks of a namespace that overlap `start..end`
    NamespaceRange(&'a String, usize, usize),
}

/// Whether the removal takes `e` away.
pub open spec fn removes<K>(r: Removal, e: Extmark<K>) -> bool {
    match r {
        Removal::Namespace(ns) => e.namespace@ == ns@,
        Removal::Id(id) => e.id == id,
        Removal::NamespaceRange(ns, start, end) => e.namespace@ == ns@ && e.byte_range.start < end
            && e.byte_range.end > start,
    }
}

fn removes_exec<K>(r: &Removal, e: &Extmark<K>) -> (b: bool)
    ensures
        b == removes(*r, *e),
{
    match r {
        Removal::Namespace(ns) => e.namespace == **ns,
        Removal::Id(id) => e.id == *id,
        Removal::NamespaceRange(ns, start, end) => e.namespace == **ns && e.byte_range.start < *end
            && e.byte_range.end > *start,
    }
}

/// What an edit does to one mark: marks newer than the edit are left alone; the others
/// are adjusted (see `adjust_mark_range`), or dropped.
pub open spec fn edit_outcome<K>(e: Extmark<K>, fv: u128, es: int, oe: int, ne: int) -> Option<
    Extmark<K>,
> {
    if e.file_version > fv {
        Some(e)
    } else {
        match mark_adjusted(&e, es, oe, ne) {
            None => None,
            Some(p) => Some(
                Extmark {
                    byte_range: core::ops::Range { start: p.0 as usize, end: p.1 as usize },
                    ..e
                },
            ),
        }
    }
}

/// The mark keeps its place in the order: it was left alone, or its start did not move.
pub open spec fn stays<K>(e: Extmark<K>, fv: u128, es: int, oe: int, ne: int) -> Option<Extmark<K>> {
    match edit_outcome(e, fv, es, oe, ne) {
        Some(x) => if x.byte_range.start == e.byte_range.start {
            Some(x)
        } else {
            None
        },
        None => None,
    }
}

/// The mark's start moved: it goes last.
pub open spec fn moves<K>(e: Extmark<K>, fv: u128, es: int, oe: int, ne: int) -> Option<Extmark<K>> {
    match edit_outcome(e, fv, es, oe, ne) {
        Some(x) => if x.byte_range.start != e.byte_range.start {
            Some(x)
        } else {
            None
        },
        None => None,
    }
}

/// The marks after one edit: those that kept their place, in order, then those whose
/// start moved, in order.
pub open spec fn marks_after_edit<K>(ms: Seq<Extmark<K>>, fv: u128, es: int, oe: int, ne: int) -> Seq<
    Extmark<K>,
> {
    ms.filter_map(|e: Extmark<K>| stays(e, fv, es, oe, ne)) + ms.filter_map(
        |e: Extmark<K>| moves(e, fv, es, oe, ne),
    )
}

/// The marks, and every edit, stay within valid offsets while the edits are applied in
/// turn.
pub open spec fn edits_ok<K>(ms: Seq<Extmark<K>>, fv: u128, changes: Seq<ByteChange>) -> bool
    decreases changes.len(),
{
    changes.len() == 0 || {
        let c = changes[0];
        &&& forall|i: int| 0 <= i < ms.len() ==> mark_offsets_ok(#[trigger] ms[i])
        &&& offset_ok(c[0].1 as int)
        &&& offset_ok(c[1].1 as int)
        &&& offset_ok(c[2].1 as int)
        &&& edits_ok(
            marks_after_edit(ms, fv, c[0].1 as int, c[1].1 as int, c[2].1 as int),
            fv,
            changes.drop_first(),
        )
    }
}

/// The marks after the edits were applied in turn.
pub open spec fn marks_after_edits<K>(ms: Seq<Extmark<K>>, fv: u128, changes: Seq<ByteChange>) -> Seq<
    Extmark<K>,
>
    decreases changes.len(),
{
    if changes.len() == 0 {
        ms
    } else {
        let c = changes[0];
        marks_after_edits(
            marks_after_edit(ms, fv, c[0].1 as int, c[1].1 as int, c[2].1 as int),
            fv,
            changes.drop_first(),
        )
    }
}

/// The extmarks of a buffer and the scroll state it is drawn with.
pub struct BufferRenderer<K> {
    /// The marks, in the order described above
    pub marks: Vec<Extmark<Option<K>>>,
    /// The id the next mark gets
    pub next_id: u64,
    /// Priority per namespace; marks are drawn in ascending priority (higher on top),
    /// and a namespace not listed has priority 0.
    pub namespace_priorities: Vec<(String, i32)>,
    /// The byte based scroll of the window
    pub byte_scroll: usize,
    /// The visual scroll: where drawn items are offset from the byte scroll
    pub visual_scroll: usize,
    /// The horizontal scroll of the lines
    pub h_scroll: usize,
    /// Set when the view was scrolled, so that the cursor is clamped into the viewport
    /// rather than the view following the cursor
    pub cursor_drag: bool,
}

impl<K> BufferRenderer<K> {
    /// The marks, in the order described above.
    pub open spec fn marks(&self) -> Seq<Extmark<Option<K>>> {
        self.marks@
    }

    /// The id the next mark gets.
    pub open spec fn next_id(&self) -> u64 {
        self.next_id
    }

    /// The priorities set per namespace.
    pub open spec fn priorities(&self) -> Map<Seq<char>, i32> {
        keyed_map(self.namespace_priorities@)
    }

    /// The priority of a namespace: 0 unless one was set.
    pub open spec fn priority_of(&self, ns: Seq<char>) -> int {
        if self.priorities().dom().contains(ns) {
            self.priorities()[ns] as int
        } else {
            0
        }
    }

    /// Ids are distinct and below the next id.
    pub open spec fn wf(&self) -> bool {
        &&& distinct_ids(self.marks@)
        &&& forall|i: int| 0 <= i < self.marks@.len() ==> (#[trigger] self.marks@[i]).id < self.next_id
        &&& sorted_keys(self.namespace_priorities@)
    }

    /// The order key of the mark at position `i`.
    pub open spec fn query_key(&self, i: int) -> (int, int, int) {
        (self.priority_of(self.marks()[i].namespace@), self.marks()[i].byte_range.start as int, i)
    }

    /// No marks, no priorities, no scroll.
    pub fn new() -> (r: Self)
        ensures
            r.wf(),
            r.marks().len() == 0,
            r.next_id() == 0,
            r.priorities() == Map::<Seq<char>, i32>::empty(),
            r.byte_scroll == 0,
            r.visual_scroll == 0,
            r.h_scroll == 0,
            !r.cursor_drag,
    {
        let r = BufferRenderer {
            marks: Vec::new(),
            next_id: 0,
            namespace_priorities: Vec::new(),
            byte_scroll: 0,
            visual_scroll: 0,
            h_scroll: 0,
            cursor_drag: false,
        };
        assert(keyed_map(r.namespace_priorities@) =~= Map::<Seq<char>, i32>::empty());
        r
    }

    /// Adds the mark `builder` describes, stamped with `file_version` and the next id,
    /// which it returns.
    pub fn add_extmark(&mut self, file_version: u128, builder: ExtmarkBuilder<K>) -> (id: u64)
        requires
            old(self).wf(),
            old(self).next_id() < u64::MAX,
        ensures
            final(self).wf(),
            id == old(self).next_id(),
            final(self).next_id() == id + 1,
            final(self).marks().len() == old(self).marks().len() + 1,
            final(self).marks().drop_last() == old(self).marks(),
            built_from(final(self).marks().last(), builder, id, file_version),
            final(self).priorities() == old(self).priorities(),
            final(self).byte_scroll == old(self).byte_scroll,
            final(self).visual_scroll == old(self).visual_scroll,
            final(self).h_scroll == old(self).h_scroll,
            final(self).cursor_drag == old(self).cursor_drag,
    {
        let id = self.next_id;
        self.next_id = self.next_id + 1;
        let ext = builder.build(id, file_version);
        self.marks.push(ext);
        assert(self.marks@.drop_last() =~= old(self).marks@);
        id
    }

    /// Removes, in place, the marks that `r` takes away.
    fn remove_where(&mut self, r: Removal)
        requires
            old(self).wf(),
        ensures
            final(self).wf(),
            final(self).marks() == old(self).marks().filter(|e: Extmark<Option<K>>| !removes(r, e)),
            final(self).next_id() == old(self).next_id(),
            final(self).priorities() == old(self).priorities(),
            final(self).byte_scroll == old(self).byte_scroll,
            final(self).visual_scroll == old(self).visual_scroll,
            final(self).h_scroll == old(self).h_scroll,
            final(self).cursor_drag == old(self).cursor_drag,
    {
        let ghost orig = self.marks@;
        let ghost keep = |e: Extmark<Option<K>>| !removes(r, e);
        let mut i: usize = 0;
        let ghost mut j: int = 0;
        proof {
            reveal(Seq::filter);
            assert(orig.take(0).filter(keep) =~= Seq::<Extmark<Option<K>>>::empty());
            assert(orig.skip(0) =~= orig);
        }
        while i < self.marks.len()
            invariant
                0 <= j <= orig.len(),
                self.marks@ =~= orig.take(j).filter(keep) + orig.skip(j),
                i == orig.take(j).filter(keep).len(),
                keep == (|e: Extmark<Option<K>>| !removes(r, e)),
                self.next_id == old(self).next_id,
                self.namespace_priorities == old(self).namespace_priorities,
                self.byte_scroll == old(self).byte_scroll,
                self.visual_scroll == old(self).visual_scroll,
                self.h_scroll == old(self).h_scroll,
                self.cursor_drag == old(self).cursor_drag,
                orig == old(self).marks@,
            decreases self.marks@.len() - i,
        {
            let ghost fj = orig.take(j).filter(keep);
            proof {
                assert(orig.skip(j).len() == orig.len() - j);
                assert(j < orig.len());
                assert(orig.take(j + 1).drop_last() =~= orig.take(j));
                assert(orig.take(j + 1).last() == orig[j]);
                assert(orig.skip(j) =~= seq![orig[j]] + orig.skip(j + 1));
                assert(self.marks@[i as int] == orig[j]);
            }
            if removes_exec(&r, &self.marks[i]) {
                self.marks.remove(i);
                proof {
                    reveal(Seq::filter);
                    assert(orig.take(j + 1).filter(keep) == fj);
                    assert(self.marks@ =~= fj + orig.skip(j + 1));
                }
            } else {
                i += 1;
                proof {
                    reveal(Seq::filter);
                    assert(orig.take(j + 1).filter(keep) == fj.push(orig[j]));
                    assert(self.marks@ =~= fj.push(orig[j]) + orig.skip(j + 1));
                }
            }
            proof {
                j = j + 1;
            }
        }
        proof {
            assert(orig.take(j) =~= orig);
            let f = self.marks@;
            assert forall|a: int, b: int| 0 <= a < f.len() && 0 <= b < f.len() && a != b implies (
            #[trigger] f[a]).id != (#[trigger] f[b]).id by {
                if a < b {
                    lemma_filter_distinct_positions(orig, keep, a, b);
                    let (x, y) = choose|x: int, y: int|
                        0 <= x < y < orig.len() && orig[x] == f[a] && orig[y] == f[b];
                    assert(orig[x].id != orig[y].id);
                } else {
                    lemma_filter_distinct_positions(orig, keep, b, a);
                    let (x, y) = choose|x: int, y: int|
                        0 <= x < y < orig.len() && orig[x] == f[b] && orig[y] == f[a];
                    assert(orig[x].id != orig[y].id);
                }
            }
            assert forall|a: int| 0 <= a < f.len() implies (#[trigger] f[a]).id < self.next_id by {
                lemma_filter_origin(orig, keep, a);
                let x = choose|x: int| 0 <= x < orig.len() && orig[x] == f[a];
                assert(orig[x].id < self.next_id);
            }
        }
    }

    /// Removes every mark of the namespace.
    pub fn clear_extmark_ns(&mut self, ns: &str)
        requires
            old(self).wf(),
        ensures
            final(self).wf(),
            final(self).marks() == old(self).marks().filter(|e: Extmark<Option<K>>| e.namespace@ != ns@),
            final(self).next_id() == old(self).next_id(),
            final(self).priorities() == old(self).priorities(),
            final(self).byte_scroll == old(self).byte_scroll,
            final(self).visual_scroll == old(self).visual_scroll,
            final(self).h_scroll == old(self).h_scroll,
            final(self).cursor_drag == old(self).cursor_drag,
    {
        let name = owned(ns);
        self.remove_where(Removal::Namespace(&name));
        assert((|e: Extmark<Option<K>>| !removes(Removal::Namespace(&name), e)) =~= (|e: Extmark<Option<K>>| e.namespace@ != ns@));
    }

    /// Removes the mark with this id; whether there was one.
    pub fn remove_extmark(&mut self, id: u64) -> (found: bool)
        requires
            old(self).wf(),
        ensures
            final(self).wf(),
            found == exists|i: int| 0 <= i < old(self).marks().len() && (#[trigger] old(self).marks()[i]).id == id,
            final(self).marks() == old(self).marks().filter(|e: Extmark<Option<K>>| e.id != id),
            final(self).next_id() == old(self).next_id(),
            final(self).priorities() == old(self).priorities(),
            final(self).byte_scroll == old(self).byte_scroll,
            final(self).visual_scroll == old(self).visual_scroll,
            final(self).h_scroll == old(self).h_scroll,
            final(self).cursor_drag == old(self).cursor_drag,
    {
        let mut found = false;
        let mut i: usize = 0;
        while i < self.marks.len()
            invariant
                i <= self.marks@.len(),
                found == exists|k: int| 0 <= k < i && (#[trigger] self.marks@[k]).id == id,
            decreases self.marks@.len() - i,
        {
            if self.marks[i].id == id {
                found = true;
            }
            i += 1;
        }
        self.remove_where(Removal::Id(id));
        assert((|e: Extmark<Option<K>>| !removes(Removal::Id(id), e)) =~= (|e: Extmark<Option<K>>| e.id != id));
        found
    }

    /// Removes the marks of the namespace that overlap the byte range.
    pub fn remove_extmarks_in_range(&mut self, namespace: &str, range: &core::ops::Range<usize>)
        requires
            old(self).wf(),
        ensures
            final(self).wf(),
            final(self).marks() == old(self).marks().filter(
                |e: Extmark<Option<K>>|
                    !(e.namespace@ == namespace@ && e.byte_range.start < range.end && e.byte_range.end
                        > range.start),
            ),
            final(self).next_id() == old(self).next_id(),
            final(self).priorities() == old(self).priorities(),
            final(self).byte_scroll == old(self).byte_scroll,
            final(self).visual_scroll == old(self).visual_scroll,
            final(self).h_scroll == old(self).h_scroll,
            final(self).cursor_drag == old(self).cursor_drag,
    {
        let name = owned(namespace);
        self.remove_where(Removal::NamespaceRange(&name, range.start, range.end));
        assert((|e: Extmark<Option<K>>| !removes(Removal::NamespaceRange(&name, range.start, range.end), e)) =~= (
        |e: Extmark<Option<K>>|
            !(e.namespace@ == namespace@ && e.byte_range.start < range.end && e.byte_range.end
                > range.start)));
    }

    /// Sets the priority of a namespace.
    pub fn set_namespace_priority(&mut self, ns: &str, priority: i32)
        requires
            old(self).wf(),
        ensures
            final(self).wf(),
            final(self).priorities() == old(self).priorities().insert(ns@, priority),
            final(self).marks() == old(self).marks(),
            final(self).next_id() == old(self).next_id(),
            final(self).byte_scroll == old(self).byte_scroll,
            final(self).visual_scroll == old(self).visual_scroll,
            final(self).h_scroll == old(self).h_scroll,
            final(self).cursor_drag == old(self).cursor_drag,
    {
        keyed_insert(&mut self.namespace_priorities, owned(ns), priority);
    }

    /// The priority of a namespace: 0 unless one was set.
    pub fn ns_priority(&self, ns: &str) -> (p: i32)
        requires
            self.wf(),
        ensures
            p as int == self.priority_of(ns@),
    {
        match keyed_get(&self.namespace_priorities, ns) {
            Some(p) => p,
            None => 0,
        }
    }
}

/// The mark order key as integers.
pub open spec fn key_of(k: (i32, usize, usize)) -> (int, int, int) {
    (k.0 as int, k.1 as int, k.2 as int)
}

/// `idx` lists exactly the positions of the marks that meet `start..end`, in the order
/// of their keys.
pub open spec fn query_order<K>(rd: &BufferRenderer<K>, start: int, end: int, idx: Seq<int>) -> bool {
    &&& forall|j: int| 0 <= j < idx.len() ==> 0 <= #[trigger] idx[j] < rd.marks().len() && meets(rd.marks()[idx[j]], start, end)
    &&& forall|x: int| 0 <= x < rd.marks().len() && meets(#[trigger] rd.marks()[x], start, end) ==> idx.contains(x)
    &&& forall|a: int, b: int| 0 <= a < b < idx.len() ==> key_lt(rd.query_key(#[trigger] idx[a]), rd.query_key(#[trigger] idx[b]))
}

/// `r` holds the marks that meet `start..end`, ordered by the priority of their
/// namespace, then by start, then by their place in the order of marks.
pub open spec fn query_result<K>(rd: &BufferRenderer<K>, start: int, end: int, r: Seq<&Extmark<Option<K>>>) -> bool {
    exists|idx: Seq<int>| #[trigger] query_order(rd, start, end, idx) && idx.len() == r.len() && forall|j: int|
        0 <= j < r.len() ==> *r[j] == rd.marks()[idx[j]]
}

fn key_less(a: (i32, usize, usize), b: (i32, usize, usize)) -> (r: bool)
    ensures
        r == key_lt(key_of(a), key_of(b)),
{
    a.0 < b.0 || (a.0 == b.0 && (a.1 < b.1 || (a.1 == b.1 && a.2 < b.2)))
}

/// Inserts `k` into the strictly increasing `keys`, keeping them so.
fn insert_sorted(keys: &mut Vec<(i32, usize, usize)>, k: (i32, usize, usize))
    requires
        forall|a: int, b: int| 0 <= a < b < old(keys)@.len() ==> key_lt(key_of(#[trigger] old(keys)@[a]), key_of(#[trigger] old(keys)@[b])),
        forall|a: int| 0 <= a < old(keys)@.len() ==> (#[trigger] old(keys)@[a]).2 < k.2,
    ensures
        forall|a: int, b: int| 0 <= a < b < final(keys)@.len() ==> key_lt(key_of(#[trigger] final(keys)@[a]), key_of(#[trigger] final(keys)@[b])),
        final(keys)@.len() == old(keys)@.len() + 1,
        forall|x: (i32, usize, usize)| #[trigger] final(keys)@.contains(x) <==> (old(keys)@.contains(x) || x == k),
{
    let ghost old_keys = keys@;
    let mut p: usize = 0;
    while p < keys.len()
        invariant
            p <= keys@.len(),
            keys@ == old_keys,
            forall|a: int| 0 <= a < old_keys.len() ==> (#[trigger] old_keys[a]).2 < k.2,
            forall|t: int| 0 <= t < p ==> key_lt(key_of(#[trigger] keys@[t]), key_of(k)),
        ensures
            p <= keys@.len(),
            keys@ == old_keys,
            forall|t: int| 0 <= t < p ==> key_lt(key_of(#[trigger] keys@[t]), key_of(k)),
            p < keys@.len() ==> key_lt(key_of(k), key_of(keys@[p as int])),
        decreases keys@.len() - p,
    {
        if key_less(k, keys[p]) {
            break;
        }
        proof {
            assert(keys@[p as int].2 < k.2);
        }
        p += 1;
    }
    keys.insert(p, k);
    proof {
        let nk = keys@;
        assert(nk == old_keys.insert(p as int, k));
        assert forall|a: int, b: int| 0 <= a < b < nk.len() implies key_lt(key_of(#[trigger] nk[a]), key_of(#[trigger] nk[b])) by {
            if b < p {
            } else if b == p {
            } else if a < p {
                assert(nk[b] == old_keys[b - 1]);
                if b - 1 > p {
                    assert(key_lt(key_of(old_keys[p as int]), key_of(old_keys[b - 1])));
                }
            } else if a == p {
                assert(nk[b] == old_keys[b - 1]);
                if b - 1 > p {
                    assert(key_lt(key_of(old_keys[p as int]), key_of(old_keys[b - 1])));
                }
            } else {
                assert(key_lt(key_of(old_keys[a - 1]), key_of(old_keys[b - 1])));
            }
        }
        assert forall|x: (i32, usize, usize)| #[trigger] nk.contains(x) <==> (old_keys.contains(x) || x == k) by {
            if nk.contains(x) {
                let t = choose|t: int| 0 <= t < nk.len() && nk[t] == x;
                if t < p {
                    assert(old_keys[t] == x);
                } else if t > p {
                    assert(old_keys[t - 1] == x);
                }
            }
            if old_keys.contains(x) {
                let t = choose|t: int| 0 <= t < old_keys.len() && old_keys[t] == x;
                if t < p {
                    assert(nk[t] == x);
                } else {
                    assert(nk[t + 1] == x);
                }
            }
            if x == k {
                assert(nk[p as int] == x);
            }
        }
    }
}

impl<K> BufferRenderer<K> {
    /// The marks that meet the byte range `range` (starting before its end and ending at
    /// or after its start), ordered by the priority of their namespace, then by start,
    /// then in the order of marks.
    pub fn query_extmarks(&self, range: core::ops::Range<usize>) -> (r: Vec<&Extmark<Option<K>>>)
        requires
            self.wf(),
        ensures
            query_result(self, range.start as int, range.end as int, r@),
    {
        let mut keys: Vec<(i32, usize, usize)> = Vec::new();
        let mut i: usize = 0;
        while i < self.marks.len()
            invariant
                self.wf(),
                i <= self.marks@.len(),
                forall|a: int, b: int| 0 <= a < b < keys@.len() ==> key_lt(key_of(#[trigger] keys@[a]), key_of(#[trigger] keys@[b])),
                forall|a: int| 0 <= a < keys@.len() ==> {
                    let k = #[trigger] keys@[a];
                    &&& k.2 < i
                    &&& meets(self.marks@[k.2 as int], range.start as int, range.end as int)
                    &&& key_of(k) == self.query_key(k.2 as int)
                },
                forall|x: int| 0 <= x < i && meets(#[trigger] self.marks@[x], range.start as int, range.end as int)
                    ==> exists|a: int| 0 <= a < keys@.len() && (#[trigger] keys@[a]).2 == x,
            decreases self.marks@.len() - i,
        {
            let e = &self.marks[i];
            if e.byte_range.start < range.end && e.byte_range.end >= range.start {
                let p = self.ns_priority(e.namespace.as_str());
                let ghost before = keys@;
                insert_sorted(&mut keys, (p, e.byte_range.start, i));
                proof {
                    assert forall|a: int| 0 <= a < keys@.len() implies {
                        let k = #[trigger] keys@[a];
                        &&& k.2 < i + 1
                        &&& meets(self.marks@[k.2 as int], range.start as int, range.end as int)
                        &&& key_of(k) == self.query_key(k.2 as int)
                    } by {
                        assert(keys@.contains(keys@[a]));
                        if keys@[a] != (p, e.byte_range.start, i) {
                            assert(before.contains(keys@[a]));
                            let t = choose|t: int| 0 <= t < before.len() && before[t] == keys@[a];
                            assert(before[t] == keys@[a]);
                        }
                    }
                    assert forall|x: int| 0 <= x < i + 1 && meets(#[trigger] self.marks@[x], range.start as int, range.end as int)
                        implies exists|a: int| 0 <= a < keys@.len() && (#[trigger] keys@[a]).2 == x by {
                        if x == i {
                            assert(keys@.contains((p, e.byte_range.start, i)));
                            let t = choose|t: int| 0 <= t < keys@.len() && keys@[t] == (p, e.byte_range.start, i);
                            assert(keys@[t].2 == x);
                        } else {
                            let a = choose|a: int| 0 <= a < before.len() && (#[trigger] before[a]).2 == x;
                            assert(before.contains(before[a]));
                            assert(keys@.contains(before[a]));
                            let t = choose|t: int| 0 <= t < keys@.len() && keys@[t] == before[a];
                            assert(keys@[t].2 == x);
                        }
                    }
                }
            }
            i += 1;
        }
        let mut out: Vec<&Extmark<Option<K>>> = Vec::new();
        let mut t: usize = 0;
        while t < keys.len()
            invariant
                t <= keys@.len(),
                out@.len() == t,
                forall|a: int| 0 <= a < keys@.len() ==> (#[trigger] keys@[a]).2 < self.marks@.len(),
                forall|a: int| 0 <= a < t ==> *out@[a] == self.marks@[(#[trigger] keys@[a]).2 as int],
            decreases keys@.len() - t,
        {
            out.push(&self.marks[keys[t].2]);
            t += 1;
        }
        proof {
            let idx = keys@.map_values(|k: (i32, usize, usize)| k.2 as int);
            assert forall|x: int| 0 <= x < self.marks@.len() && meets(#[trigger] self.marks@[x], range.start as int, range.end as int)
                implies idx.contains(x) by {
                let a = choose|a: int| 0 <= a < keys@.len() && (#[trigger] keys@[a]).2 == x;
                assert(idx[a] == x);
            }
            assert forall|a: int, b: int| 0 <= a < b < idx.len() implies key_lt(self.query_key(#[trigger] idx[a]), self.query_key(#[trigger] idx[b])) by {
                assert(key_lt(key_of(keys@[a]), key_of(keys@[b])));
            }
            assert(query_order(self, range.start as int, range.end as int, idx));
        }
        out
    }
}

impl<K> BufferRenderer<K> {
    /// Adjusts the marks for one edit, which replaced bytes `edit_start..old_end` by
    /// `new_end - edit_start` new bytes: marks made after `file_version` are left alone,
    /// the others follow the edit (see `adjust_mark_range`) or are dropped; a mark whose
    /// start moved goes last.
    pub fn adjust_extmarks_for_edit(&mut self, file_version: u128, edit_start: usize, old_end: usize, new_end: usize)
        requires
            old(self).wf(),
            forall|i: int| 0 <= i < old(self).marks().len() ==> mark_offsets_ok(#[trigger] old(self).marks()[i]),
            offset_ok(edit_start as int),
            offset_ok(old_end as int),
            offset_ok(new_end as int),
        ensures
            final(self).wf(),
            final(self).marks() == marks_after_edit(old(self).marks(), file_version, edit_start as int, old_end as int, new_end as int),
            final(self).next_id() == old(self).next_id(),
            final(self).priorities() == old(self).priorities(),
            final(self).byte_scroll == old(self).byte_scroll,
            final(self).visual_scroll == old(self).visual_scroll,
            final(self).h_scroll == old(self).h_scroll,
            final(self).cursor_drag == old(self).cursor_drag,
    {
        let ghost orig = self.marks@;
        let ghost es = edit_start as int;
        let ghost oe = old_end as int;
        let ghost ne = new_end as int;
        let ghost stay_f = |e: Extmark<Option<K>>| stays(e, file_version, es, oe, ne);
        let ghost move_f = |e: Extmark<Option<K>>| moves(e, file_version, es, oe, ne);
        let mut moved: Vec<Extmark<Option<K>>> = Vec::new();
        let mut i: usize = 0;
        let ghost mut j: int = 0;
        proof {
            assert(orig.take(0) =~= Seq::<Extmark<Option<K>>>::empty());
            assert(orig.skip(0) =~= orig);
            assert forall|x: int| 0 <= x < orig.len() implies mark_offsets_ok(#[trigger] orig[x]) by {
                assert(old(self).marks()[x] == orig[x]);
            }
        }
        while i < self.marks.len()
            invariant
                0 <= j <= orig.len(),
                orig == old(self).marks@,
                forall|x: int| 0 <= x < orig.len() ==> mark_offsets_ok(#[trigger] orig[x]),
                offset_ok(edit_start as int),
                offset_ok(old_end as int),
                offset_ok(new_end as int),
                es == edit_start as int,
                oe == old_end as int,
                ne == new_end as int,
                stay_f == (|e: Extmark<Option<K>>| stays(e, file_version, es, oe, ne)),
                move_f == (|e: Extmark<Option<K>>| moves(e, file_version, es, oe, ne)),
                self.marks@ =~= orig.take(j).filter_map(stay_f) + orig.skip(j),
                moved@ =~= orig.take(j).filter_map(move_f),
                i == orig.take(j).filter_map(stay_f).len(),
                distinct_ids(self.marks@),
                distinct_ids(moved@),
                forall|a: int, b: int| 0 <= a < self.marks@.len() && 0 <= b < moved@.len() ==> (#[trigger] self.marks@[a]).id != (#[trigger] moved@[b]).id,
                forall|a: int| 0 <= a < self.marks@.len() ==> (#[trigger] self.marks@[a]).id < self.next_id,
                forall|a: int| 0 <= a < moved@.len() ==> (#[trigger] moved@[a]).id < self.next_id,
                self.next_id == old(self).next_id,
                self.namespace_priorities == old(self).namespace_priorities,
                self.byte_scroll == old(self).byte_scroll,
                self.visual_scroll == old(self).visual_scroll,
                self.h_scroll == old(self).h_scroll,
                self.cursor_drag == old(self).cursor_drag,
            decreases self.marks@.len() - i,
        {
            let ghost fs = orig.take(j).filter_map(stay_f);
            let ghost fm = orig.take(j).filter_map(move_f);
            proof {
                assert(orig.skip(j).len() == orig.len() - j);
                assert(orig.take(j + 1).drop_last() =~= orig.take(j));
                assert(orig.take(j + 1).last() == orig[j]);
                assert(orig.skip(j) =~= seq![orig[j]] + orig.skip(j + 1));
                assert(self.marks@[i as int] == orig[j]);
            }
            let ghost cur = self.marks@;
            if self.marks[i].file_version > file_version {
                proof {
                    assert(orig.take(j + 1).filter_map(stay_f) == fs.push(orig[j]));
                    assert(orig.take(j + 1).filter_map(move_f) == fm);
                }
                i += 1;
            } else {
                match adjust_mark_range(&self.marks[i], edit_start, old_end, new_end) {
                    None => {
                        self.marks.remove(i);
                        proof {
                            assert(orig.take(j + 1).filter_map(stay_f) == fs);
                            assert(orig.take(j + 1).filter_map(move_f) == fm);
                            assert forall|a: int, b: int| 0 <= a < self.marks@.len() && 0 <= b < self.marks@.len() && a != b
                                implies (#[trigger] self.marks@[a]).id != (#[trigger] self.marks@[b]).id by {
                                let a0 = if a < i { a } else { a + 1 };
                                let b0 = if b < i { b } else { b + 1 };
                                assert(self.marks@[a] == cur[a0] && self.marks@[b] == cur[b0]);
                            }
                            assert forall|a: int, b: int| 0 <= a < self.marks@.len() && 0 <= b < moved@.len()
                                implies (#[trigger] self.marks@[a]).id != (#[trigger] moved@[b]).id by {
                                let a0 = if a < i { a } else { a + 1 };
                                assert(self.marks@[a] == cur[a0]);
                            }
                            assert forall|a: int| 0 <= a < self.marks@.len() implies (#[trigger] self.marks@[a]).id < self.next_id by {
                                let a0 = if a < i { a } else { a + 1 };
                                assert(self.marks@[a] == cur[a0]);
                            }
                        }
                    },
                    Some(r) => {
                        let old_start = self.marks[i].byte_range.start;
                        let new_start = r.start;
                        let mut e = self.marks.remove(i);
                        e.byte_range = r;
                        if new_start != old_start {
                            moved.push(e);
                            proof {
                                assert(orig.take(j + 1).filter_map(stay_f) == fs);
                                assert(orig.take(j + 1).filter_map(move_f) == fm.push(e));
                                assert forall|a: int, b: int| 0 <= a < self.marks@.len() && 0 <= b < self.marks@.len() && a != b
                                    implies (#[trigger] self.marks@[a]).id != (#[trigger] self.marks@[b]).id by {
                                    let a0 = if a < i { a } else { a + 1 };
                                    let b0 = if b < i { b } else { b + 1 };
                                    assert(self.marks@[a] == cur[a0] && self.marks@[b] == cur[b0]);
                                }
                                assert forall|a: int, b: int| 0 <= a < moved@.len() && 0 <= b < moved@.len() && a != b
                                    implies (#[trigger] moved@[a]).id != (#[trigger] moved@[b]).id by {
                                    if a == moved@.len() - 1 {
                                        assert(moved@[b] == fm[b]);
                                    } else if b == moved@.len() - 1 {
                                        assert(moved@[a] == fm[a]);
                                    } else {
                                        assert(moved@[a] == fm[a] && moved@[b] == fm[b]);
                                    }
                                }
                                assert forall|a: int, b: int| 0 <= a < self.marks@.len() && 0 <= b < moved@.len()
                                    implies (#[trigger] self.marks@[a]).id != (#[trigger] moved@[b]).id by {
                                    let a0 = if a < i { a } else { a + 1 };
                                    assert(self.marks@[a] == cur[a0]);
                                    if b == moved@.len() - 1 {
                                        assert(moved@[b].id == cur[i as int].id);
                                    } else {
                                        assert(moved@[b] == fm[b]);
                                    }
                                }
                                assert forall|a: int| 0 <= a < self.marks@.len() implies (#[trigger] self.marks@[a]).id < self.next_id by {
                                    let a0 = if a < i { a } else { a + 1 };
                                    assert(self.marks@[a] == cur[a0]);
                                }
                                assert forall|a: int| 0 <= a < moved@.len() implies (#[trigger] moved@[a]).id < self.next_id by {
                                    if a < moved@.len() - 1 {
                                        assert(moved@[a] == fm[a]);
                                    }
                                }
                            }
                        } else {
                            self.marks.insert(i, e);
                            proof {
                                assert(self.marks@ =~= cur.update(i as int, e));
                                assert(orig.take(j + 1).filter_map(stay_f) == fs.push(e));
                                assert(orig.take(j + 1).filter_map(move_f) == fm);
                                assert forall|a: int, b: int| 0 <= a < self.marks@.len() && 0 <= b < self.marks@.len() && a != b
                                    implies (#[trigger] self.marks@[a]).id != (#[trigger] self.marks@[b]).id by {
                                    assert(cur[a].id != cur[b].id);
                                }
                                assert forall|a: int, b: int| 0 <= a < self.marks@.len() && 0 <= b < moved@.len()
                                    implies (#[trigger] self.marks@[a]).id != (#[trigger] moved@[b]).id by {
                                    assert(cur[a].id != moved@[b].id);
                                }
                                assert forall|a: int| 0 <= a < self.marks@.len() implies (#[trigger] self.marks@[a]).id < self.next_id by {
                                    assert(cur[a].id < self.next_id);
                                }
                            }
                            i += 1;
                        }
                    },
                }
            }
            proof {
                j = j + 1;
            }
        }
        proof {
            assert(orig.take(j) =~= orig);
        }
        let ghost kept = self.marks@;
        let ghost mv = moved@;
        self.marks.append(&mut moved);
        proof {
            let f = self.marks@;
            assert(f =~= kept + mv);
            assert forall|a: int, b: int| 0 <= a < f.len() && 0 <= b < f.len() && a != b implies (#[trigger] f[a]).id != (#[trigger] f[b]).id by {
                if a < kept.len() && b < kept.len() {
                    assert(kept[a].id != kept[b].id);
                } else if a < kept.len() {
                    assert(f[b] == mv[b - kept.len()]);
                    assert(kept[a].id != mv[b - kept.len()].id);
                } else if b < kept.len() {
                    assert(f[a] == mv[a - kept.len()]);
                    assert(kept[b].id != mv[a - kept.len()].id);
                } else {
                    assert(mv[a - kept.len()].id != mv[b - kept.len()].id);
                }
            }
            assert forall|a: int| 0 <= a < f.len() implies (#[trigger] f[a]).id < self.next_id by {
                if a < kept.len() {
                    assert(f[a] == kept[a]);
                } else {
                    assert(f[a] == mv[a - kept.len()]);
                }
            }
        }
    }
}

fn reversed_vec<T>(mut v: Vec<T>) -> (r: Vec<T>)
    ensures
        r@ == v@.reverse(),
{
    let ghost orig = v@;
    let mut r: Vec<T> = Vec::new();
    while v.len() > 0
        invariant
            v@ == orig.take(orig.len() - r@.len()),
            r@.len() <= orig.len(),
            forall|j: int| 0 <= j < r@.len() ==> #[trigger] r@[j] == orig[orig.len() - 1 - j],
        decreases v@.len(),
    {
        let a = v.pop().unwrap();
        r.push(a);
        assert(v@ =~= orig.take(orig.len() - r@.len()));
    }
    assert(r@ =~= orig.reverse());
    r
}

impl<K> BufferRenderer<K> {
    /// Adjusts the marks for each edit in turn.
    pub fn process_byte_changes(&mut self, file_version: u128, byte_changes: &[ByteChange])
        requires
            old(self).wf(),
            edits_ok(old(self).marks(), file_version, byte_changes@),
        ensures
            final(self).wf(),
            final(self).marks() == marks_after_edits(old(self).marks(), file_version, byte_changes@),
            final(self).next_id() == old(self).next_id(),
            final(self).priorities() == old(self).priorities(),
            final(self).byte_scroll == old(self).byte_scroll,
            final(self).visual_scroll == old(self).visual_scroll,
            final(self).h_scroll == old(self).h_scroll,
            final(self).cursor_drag == old(self).cursor_drag,
    {
        let mut k: usize = 0;
        proof {
            assert(byte_changes@.skip(0) =~= byte_changes@);
        }
        while k < byte_changes.len()
            invariant
                self.wf(),
                k <= byte_changes@.len(),
                edits_ok(self.marks(), file_version, byte_changes@.skip(k as int)),
                marks_after_edits(self.marks(), file_version, byte_changes@.skip(k as int))
                    == marks_after_edits(old(self).marks(), file_version, byte_changes@),
                self.next_id == old(self).next_id,
                self.priorities() == old(self).priorities(),
                self.byte_scroll == old(self).byte_scroll,
                self.visual_scroll == old(self).visual_scroll,
                self.h_scroll == old(self).h_scroll,
                self.cursor_drag == old(self).cursor_drag,
            decreases byte_changes@.len() - k,
        {
            let change = byte_changes[k];
            proof {
                let rest = byte_changes@.skip(k as int);
                assert(rest[0] == change);
                assert(rest.drop_first() =~= byte_changes@.skip(k + 1));
            }
            self.adjust_extmarks_for_edit(file_version, change[0].1, change[1].1, change[2].1);
            k += 1;
        }
        proof {
            assert(byte_changes@.skip(k as int) =~= Seq::<ByteChange>::empty());
        }
    }

    /// Changes the mark with this id: sets its kind when one is given, and its range
    /// when one is given (the mark goes last when its start moves). Whether there was
    /// such a mark.
    pub fn update_extmark(&mut self, id: u64, kind: Option<K>, byte_range: Option<core::ops::Range<usize>>) -> (found: bool)
        requires
            old(self).wf(),
        ensures
            final(self).wf(),
            found == exists|i: int| 0 <= i < old(self).marks().len() && (#[trigger] old(self).marks()[i]).id == id,
            !found ==> final(self).marks() == old(self).marks(),
            forall|i: int| 0 <= i < old(self).marks().len() && (#[trigger] old(self).marks()[i]).id == id ==> {
                let e = old(self).marks()[i];
                let e2 = Extmark {
                    kind: match kind {
                        Some(k) => Some(k),
                        None => e.kind,
                    },
                    byte_range: match byte_range {
                        Some(r) => r,
                        None => e.byte_range,
                    },
                    ..e
                };
                if byte_range matches Some(r) && r.start != e.byte_range.start {
                    final(self).marks() == old(self).marks().remove(i).push(e2)
                } else {
                    final(self).marks() == old(self).marks().update(i, e2)
                }
            },
            final(self).next_id() == old(self).next_id(),
            final(self).priorities() == old(self).priorities(),
            final(self).byte_scroll == old(self).byte_scroll,
            final(self).visual_scroll == old(self).visual_scroll,
            final(self).h_scroll == old(self).h_scroll,
            final(self).cursor_drag == old(self).cursor_drag,
    {
        let mut i: usize = 0;
        while i < self.marks.len()
            invariant
                i <= self.marks@.len(),
                self.marks@ == old(self).marks@,
                forall|k: int| 0 <= k < i ==> (#[trigger] self.marks@[k]).id != id,
            ensures
                i <= self.marks@.len(),
                self.marks@ == old(self).marks@,
                forall|k: int| 0 <= k < i ==> (#[trigger] self.marks@[k]).id != id,
                i < self.marks@.len() ==> self.marks@[i as int].id == id,
            decreases self.marks@.len() - i,
        {
            if self.marks[i].id == id {
                break;
            }
            i += 1;
        }
        if i == self.marks.len() {
            return false;
        }
        let ghost cur = self.marks@;
        let mut e = self.marks.remove(i);
        let ghost e_old = e;
        match kind {
            Some(k) => {
                e.kind = Some(k);
            },
            None => {},
        }
        let mut goes_last = false;
        match byte_range {
            Some(r) => {
                goes_last = r.start != e.byte_range.start;
                e.byte_range = r;
            },
            None => {},
        }
        if goes_last {
            self.marks.push(e);
        } else {
            self.marks.insert(i, e);
        }
        proof {
            let f = self.marks@;
            assert forall|x: int| 0 <= x < cur.len() && (#[trigger] cur[x]).id == id implies x == i by {
                if x != i {
                    assert(cur[x].id != cur[i as int].id);
                }
            }
            if goes_last {
                assert(f =~= cur.remove(i as int).push(e));
                assert forall|a: int, b: int| 0 <= a < f.len() && 0 <= b < f.len() && a != b implies (#[trigger] f[a]).id != (#[trigger] f[b]).id by {
                    let a0 = if a == f.len() - 1 { i as int } else if a < i { a } else { a + 1 };
                    let b0 = if b == f.len() - 1 { i as int } else if b < i { b } else { b + 1 };
                    assert(f[a].id == cur[a0].id && f[b].id == cur[b0].id);
                }
                assert forall|a: int| 0 <= a < f.len() implies (#[trigger] f[a]).id < self.next_id by {
                    let a0 = if a == f.len() - 1 { i as int } else if a < i { a } else { a + 1 };
                    assert(f[a].id == cur[a0].id);
                }
            } else {
                assert(f =~= cur.update(i as int, e));
                assert forall|a: int, b: int| 0 <= a < f.len() && 0 <= b < f.len() && a != b implies (#[trigger] f[a]).id != (#[trigger] f[b]).id by {
                    assert(f[a].id == cur[a].id && f[b].id == cur[b].id);
                }
                assert forall|a: int| 0 <= a < f.len() implies (#[trigger] f[a]).id < self.next_id by {
                    assert(f[a].id == cur[a].id);
                }
            }
        }
        true
    }

    /// Replaces every mark of the namespace by the marks the builders describe, which
    /// get the next ids, in order; returns those ids.
    pub fn set_namespace(&mut self, file_version: u128, ns: &str, marks: Vec<ExtmarkBuilder<K>>) -> (ids: Vec<u64>)
        requires
            old(self).wf(),
            old(self).next_id() + marks@.len() <= u64::MAX,
        ensures
            final(self).wf(),
            ({
                let kept = old(self).marks().filter(|e: Extmark<Option<K>>| e.namespace@ != ns@);
                let n = marks@.len();
                &&& final(self).marks().len() == kept.len() + n
                &&& final(self).marks().take(kept.len() as int) == kept
                &&& ids@.len() == n
                &&& forall|k: int| 0 <= k < n ==> #[trigger] ids@[k] == old(self).next_id() + k
                    && built_from(final(self).marks()[kept.len() + k], marks@[k], ids@[k], file_version)
                &&& final(self).next_id() == old(self).next_id() + n
            }),
            final(self).priorities() == old(self).priorities(),
            final(self).byte_scroll == old(self).byte_scroll,
            final(self).visual_scroll == old(self).visual_scroll,
            final(self).h_scroll == old(self).h_scroll,
            final(self).cursor_drag == old(self).cursor_drag,
    {
        self.clear_extmark_ns(ns);
        let ghost kept = self.marks@;
        let ghost builders = marks@;
        let ghost n = marks@.len();
        let ghost first = self.next_id;
        let mut rest = reversed_vec(marks);
        let mut ids: Vec<u64> = Vec::new();
        while rest.len() > 0
            invariant
                self.wf(),
                rest@.len() <= n,
                n == builders.len(),
                first + n <= u64::MAX,
                forall|j: int| 0 <= j < rest@.len() ==> #[trigger] rest@[j] == builders[n - 1 - j],
                ids@.len() == n - rest@.len(),
                self.next_id == first + ids@.len(),
                self.marks@.len() == kept.len() + ids@.len(),
                self.marks@.take(kept.len() as int) == kept,
                forall|k: int| 0 <= k < ids@.len() ==> #[trigger] ids@[k] == first + k
                    && built_from(self.marks@[kept.len() + k], builders[k], ids@[k], file_version),
                self.priorities() == old(self).priorities(),
                self.byte_scroll == old(self).byte_scroll,
                self.visual_scroll == old(self).visual_scroll,
                self.h_scroll == old(self).h_scroll,
                self.cursor_drag == old(self).cursor_drag,
            decreases rest@.len(),
        {
            let b = rest.pop().unwrap();
            let ghost before = self.marks@;
            let id = self.add_extmark(file_version, b);
            ids.push(id);
            proof {
                assert(self.marks@.take(kept.len() as int) =~= before.take(kept.len() as int));
                assert forall|k: int| 0 <= k < ids@.len() implies #[trigger] ids@[k] == first + k
                    && built_from(self.marks@[kept.len() + k], builders[k], ids@[k], file_version) by {
                    if k < ids@.len() - 1 {
                        assert(self.marks@[kept.len() + k] == before[kept.len() + k]);
                    }
                }
            }
        }
        ids
    }
}

/// Removing a mark right after adding it gives back the marks from before: a new mark
/// has an id no other mark has.
pub proof fn lemma_add_then_remove<K>(ms: Seq<Extmark<Option<K>>>, e: Extmark<Option<K>>)
    requires
        forall|i: int| 0 <= i < ms.len() ==> (#[trigger] ms[i]).id < e.id,
    ensures
        ms.push(e).filter(|x: Extmark<Option<K>>| x.id != e.id) == ms,
{
    let p = |x: Extmark<Option<K>>| x.id != e.id;
    reveal(Seq::filter);
    assert(ms.push(e).drop_last() =~= ms);
    lemma_filter_keeps_all(ms, p);
}

/// Filtering with a predicate that every element meets changes nothing.
pub proof fn lemma_filter_keeps_all<A>(s: Seq<A>, p: spec_fn(A) -> bool)
    requires
        forall|i: int| 0 <= i < s.len() ==> p(#[trigger] s[i]),
    ensures
        s.filter(p) == s,
    decreases s.len(),
{
    reveal(Seq::filter);
    if s.len() > 0 {
        lemma_filter_keeps_all(s.drop_last(), p);
        assert(s.drop_last().push(s.last()) =~= s);
    } else {
        assert(s =~= Seq::<A>::empty());
    }
}

/// Every element of a filtered sequence comes from the original.
pub proof fn lemma_filter_origin<A>(s: Seq<A>, p: spec_fn(A) -> bool, a: int)
    requires
        0 <= a < s.filter(p).len(),
    ensures
        exists|x: int| 0 <= x < s.len() && s[x] == s.filter(p)[a],
    decreases s.len(),
{
    reveal(Seq::filter);
    let rest = s.drop_last().filter(p);
    if p(s.last()) && a == rest.len() {
        assert(s[s.len() - 1] == s.filter(p)[a]);
    } else {
        assert(s.filter(p)[a] == rest[a]);
        lemma_filter_origin(s.drop_last(), p, a);
        let x = choose|x: int| 0 <= x < s.drop_last().len() && s.drop_last()[x] == rest[a];
        assert(s[x] == s.filter(p)[a]);
    }
}

/// Distinct positions of a filtered sequence come from distinct positions of the
/// original, in the same order.
pub proof fn lemma_filter_distinct_positions<A>(s: Seq<A>, p: spec_fn(A) -> bool, a: int, b: int)
    requires
        0 <= a < b < s.filter(p).len(),
    ensures
        exists|x: int, y: int|
            0 <= x < y < s.len() && s[x] == s.filter(p)[a] && s[y] == s.filter(p)[b],
    decreases s.len(),
{
    reveal(Seq::filter);
    let rest = s.drop_last().filter(p);
    if p(s.last()) && b == rest.len() {
        lemma_filter_origin(s.drop_last(), p, a);
        let x = choose|x: int| 0 <= x < s.drop_last().len() && s.drop_last()[x] == rest[a];
        assert(s[x] == s.filter(p)[a]);
        assert(s[s.len() - 1] == s.filter(p)[b]);
    } else {
        assert(s.filter(p)[a] == rest[a]);
        assert(s.filter(p)[b] == rest[b]);
        lemma_filter_distinct_positions(s.drop_last(), p, a, b);
        let (x, y) = choose|x: int, y: int|
            0 <= x < y < s.drop_last().len() && s.drop_last()[x] == rest[a] && s.drop_last()[y]
                == rest[b];
        assert(s[x] == s.filter(p)[a] && s[y] == s.filter(p)[b]);
    }
}

} // verus!
