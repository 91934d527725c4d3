//! Extmarks: byte ranges anchored in a buffer that follow the text as it is edited.

use vstd::prelude::*;

verus! {

/// Determines how an extmark moves when text is inserted exactly at its start.
#[derive(Clone, Copy, Debug, PartialEq, Eq, Structural)]
pub enum ExtmarkGravity {
    /// When text is inserted at the extmark position, the mark moves right
    Right,
    /// When text is inserted at the extmark position, the mark stays in place
    Left,
}

impl ExtmarkGravity {
    /// The default gravity, `Right`.
    pub fn default() -> (g: ExtmarkGravity)
        ensures
            g == ExtmarkGravity::Right,
    {
        ExtmarkGravity::Right
    }
}

/// Controls whether the extmark should adjust to text changes.
#[derive(Clone, Copy, Debug, PartialEq, Eq, Structural)]
pub enum ExtmarkAdjustment {
    /// Extmark moves with text edits
    Track,
    /// Extmark stays at its original byte position regardless of edits
    Fixed,
    /// Extmark is deleted when text in its range is deleted
    DeleteOnDelete,
}

impl ExtmarkAdjustment {
    /// The default adjustment, `Track`.
    pub fn default() -> (a: ExtmarkAdjustment)
        ensures
            a == ExtmarkAdjustment::Track,
    {
        ExtmarkAdjustment::Track
    }
}

/// An anchored "mark" in a buffer, carrying a decoration of type `K`.
pub struct Extmark<K> {
    /// The file version for which the extmark was registered
    pub file_version: u128,
    /// Unique identifier for programmatic reference and removal
    pub id: u64,
    /// Shared identifier marking relationships to other extmarks for removal
    pub namespace: String,
    /// Half-open byte range `[start, end)`
    pub byte_range: core::ops::Range<usize>,
    /// The decoration applied at this mark
    pub kind: K,
    pub gravity: ExtmarkGravity,
    pub adjustment: ExtmarkAdjustment,
    /// Whether the extmark should expand when text is inserted into its range
    pub expand_on_insert: bool,
}

/// `e` is what `b.build(id, file_version)` gives.
pub open spec fn built_from<K>(e: Extmark<Option<K>>, b: ExtmarkBuilder<K>, id: u64, file_version: u128) -> bool {
    &&& e.id == id
    &&& e.file_version == file_version
    &&& e.namespace@ == b.spec_namespace()
    &&& e.byte_range == b.spec_range()
    &&& e.kind == b.spec_kind()
    &&& e.gravity == b.spec_gravity()
    &&& e.adjustment == b.spec_adjustment()
    &&& e.expand_on_insert == b.spec_expand()
}

/// Builds an extmark step by step; `build` stamps it with an id and a file version.
pub struct ExtmarkBuilder<K> {
    namespace: String,
    byte_range: core::ops::Range<usize>,
    kind: Option<K>,
    gravity: ExtmarkGravity,
    adjustment: ExtmarkAdjustment,
    expand_on_insert: bool,
}

impl<K> ExtmarkBuilder<K> {
    pub closed spec fn spec_namespace(&self) -> Seq<char> {
        self.namespace@
    }

    pub closed spec fn spec_range(&self) -> core::ops::Range<usize> {
        self.byte_range
    }

    pub closed spec fn spec_kind(&self) -> Option<K> {
        self.kind
    }

    pub closed spec fn spec_gravity(&self) -> ExtmarkGravity {
        self.gravity
    }

    pub closed spec fn spec_adjustment(&self) -> ExtmarkAdjustment {
        self.adjustment
    }

    pub closed spec fn spec_expand(&self) -> bool {
        self.expand_on_insert
    }

    /// A mark over the one byte at `byte`, in namespace `ns`, with no kind yet, right
    /// gravity, tracking edits, and not expanding.
    pub fn new(ns: &str, byte: usize) -> (b: Self)
        requires
            byte < usize::MAX,
        ensures
            b.spec_namespace() == ns@,
            b.spec_range().start == byte,
            b.spec_range().end == byte + 1,
            b.spec_kind() is None,
            b.spec_gravity() == ExtmarkGravity::Right,
            b.spec_adjustment() == ExtmarkAdjustment::Track,
            !b.spec_expand(),
    {
        ExtmarkBuilder {
            namespace: crate::text::owned(ns),
            byte_range: byte..byte + 1,
            kind: None,
            gravity: ExtmarkGravity::default(),
            adjustment: ExtmarkAdjustment::default(),
            expand_on_insert: false,
        }
    }

    /// A mark over `byte_range`, in namespace `ns`, otherwise as `new` makes it.
    pub fn new_range(ns: &str, byte_range: core::ops::Range<usize>) -> (b: Self)
        ensures
            b.spec_namespace() == ns@,
            b.spec_range() == byte_range,
            b.spec_kind() is None,
            b.spec_gravity() == ExtmarkGravity::Right,
            b.spec_adjustment() == ExtmarkAdjustment::Track,
            !b.spec_expand(),
    {
        ExtmarkBuilder {
            namespace: crate::text::owned(ns),
            byte_range,
            kind: None,
            gravity: ExtmarkGravity::default(),
            adjustment: ExtmarkAdjustment::default(),
            expand_on_insert: false,
        }
    }

    /// Sets the decoration.
    pub fn with_kind(self, kind: K) -> (b: Self)
        ensures
            b.spec_kind() == Some(kind),
            b.spec_namespace() == self.spec_namespace(),
            b.spec_range() == self.spec_range(),
            b.spec_gravity() == self.spec_gravity(),
            b.spec_adjustment() == self.spec_adjustment(),
            b.spec_expand() == self.spec_expand(),
    {
        ExtmarkBuilder { kind: Some(kind), ..self }
    }

    /// Sets the gravity.
    pub fn with_gravity(self, gravity: ExtmarkGravity) -> (b: Self)
        ensures
            b.spec_gravity() == gravity,
            b.spec_namespace() == self.spec_namespace(),
            b.spec_range() == self.spec_range(),
            b.spec_kind() == self.spec_kind(),
            b.spec_adjustment() == self.spec_adjustment(),
            b.spec_expand() == self.spec_expand(),
    {
        ExtmarkBuilder { gravity, ..self }
    }

    /// Sets how the mark follows edits.
    pub fn with_adjustment(self, adjustment: ExtmarkAdjustment) -> (b: Self)
        ensures
            b.spec_adjustment() == adjustment,
            b.spec_namespace() == self.spec_namespace(),
            b.spec_range() == self.spec_range(),
            b.spec_kind() == self.spec_kind(),
            b.spec_gravity() == self.spec_gravity(),
            b.spec_expand() == self.spec_expand(),
    {
        ExtmarkBuilder { adjustment, ..self }
    }

    /// Sets whether insertions inside the mark expand it.
    pub fn with_expand_on_insert(self, expand: bool) -> (b: Self)
        ensures
            b.spec_expand() == expand,
            b.spec_namespace() == self.spec_namespace(),
            b.spec_range() == self.spec_range(),
            b.spec_kind() == self.spec_kind(),
            b.spec_gravity() == self.spec_gravity(),
            b.spec_adjustment() == self.spec_adjustment(),
    {
        ExtmarkBuilder { expand_on_insert: expand, ..self }
    }

    /// The extmark with this id and file version. Its kind is the one set, `None` where
    /// none was (the decoration drawn for it is then the default highlight).
    pub fn build(self, id: u64, file_version: u128) -> (e: Extmark<Option<K>>)
        ensures
            built_from(e, self, id, file_version),
    {
        Extmark {
            file_version,
            id,
            namespace: self.namespace,
            byte_range: self.byte_range,
            kind: self.kind,
            gravity: self.gravity,
            adjustment: self.adjustment,
            expand_on_insert: self.expand_on_insert,
        }
    }
}

/// The largest byte offset that an edit or a mark may mention: offsets index an
/// allocation, whose size never exceeds `isize::MAX`.
pub open spec fn offset_ok(x: int) -> bool {
    0 <= x <= isize::MAX
}

/// `pos + delta`, floored at zero.
pub open spec fn shifted(pos: int, delta: int) -> int {
    if pos + delta < 0 {
        0
    } else {
        pos + delta
    }
}

pub open spec fn max_int(a: int, b: int) -> int {
    if a >= b {
        a
    } else {
        b
    }
}

pub open spec fn min_int(a: int, b: int) -> int {
    if a <= b {
        a
    } else {
        b
    }
}

/// `a - b`, floored at zero (unsigned saturating subtraction).
pub open spec fn sat_sub(a: int, b: int) -> int {
    if a >= b {
        a - b
    } else {
        0
    }
}

/// The range of a mark whose edit begins exactly at its start; gravity decides.
pub open spec fn range_at_start(
    ms: int,
    me: int,
    gravity: ExtmarkGravity,
    expand: bool,
    inserted: int,
    deleted: int,
) -> (int, int) {
    let delta = inserted - deleted;
    match gravity {
        ExtmarkGravity::Right => (shifted(ms, delta), shifted(me, delta)),
        ExtmarkGravity::Left => {
            if expand && inserted > 0 {
                (ms, max_int(shifted(me, delta), ms))
            } else if deleted > 0 {
                (ms, sat_sub(me, min_int(deleted, sat_sub(me, ms))))
            } else {
                (ms, me)
            }
        },
    }
}

/// The range `[ms, me)` of a mark after the edit that replaces `[es, oe)` by
/// `ne - es` new bytes; `None` when the mark is deleted.
///
/// The cases, in the order in which they are tested: the edit lies after the mark
/// (no change); the mark is `Fixed` (no change); the edit lies before the mark (both
/// ends shift); a pure insertion at the mark's start (gravity); the edit contains
/// the mark (collapse, or deletion for `DeleteOnDelete`); the edit overlaps the
/// mark's start; the edit overlaps the mark's end; the edit begins at the mark's
/// start; the edit lies strictly inside the mark.
pub open spec fn adjusted_range(
    ms: int,
    me: int,
    gravity: ExtmarkGravity,
    adjustment: ExtmarkAdjustment,
    expand: bool,
    es: int,
    oe: int,
    ne: int,
) -> Option<(int, int)> {
    let deleted = sat_sub(oe, es);
    let inserted = sat_sub(ne, es);
    let delta = inserted - deleted;
    if es >= me {
        Some((ms, me))
    } else if adjustment == ExtmarkAdjustment::Fixed {
        Some((ms, me))
    } else if oe < ms || (oe == ms && deleted > 0) {
        Some((shifted(ms, delta), shifted(me, delta)))
    } else if es == ms && deleted == 0 {
        Some(range_at_start(ms, me, gravity, expand, inserted, deleted))
    } else if es <= ms && oe >= me {
        if adjustment == ExtmarkAdjustment::DeleteOnDelete {
            None
        } else {
            Some((es + inserted, es + inserted))
        }
    } else if es < ms && oe < me {
        if adjustment == ExtmarkAdjustment::DeleteOnDelete {
            None
        } else {
            let new_start = es + inserted;
            Some((new_start, max_int(me - sat_sub(oe, ms), new_start)))
        }
    } else if es > ms && oe >= me {
        if deleted > 0 {
            Some((ms, max_int(es + inserted, ms)))
        } else {
            Some((ms, shifted(me, delta)))
        }
    } else if es == ms {
        Some(range_at_start(ms, me, gravity, expand, inserted, deleted))
    } else if expand || deleted == 0 {
        Some((ms, max_int(shifted(me, delta), ms)))
    } else {
        Some((ms, max_int(sat_sub(me, deleted), ms)))
    }
}

/// The spec of `adjust_mark_range` for a given mark.
pub open spec fn mark_adjusted<K>(mark: &Extmark<K>, es: int, oe: int, ne: int) -> Option<(int, int)> {
    adjusted_range(
        mark.byte_range.start as int,
        mark.byte_range.end as int,
        mark.gravity,
        mark.adjustment,
        mark.expand_on_insert,
        es,
        oe,
        ne,
    )
}

/// Whether an exec range holds the given spec pair.
pub open spec fn range_is(r: core::ops::Range<usize>, p: (int, int)) -> bool {
    r.start as int == p.0 && r.end as int == p.1
}

/// `pos + (inserted - deleted)`, floored at zero.
fn shift(pos: usize, inserted: usize, deleted: usize) -> (r: usize)
    requires
        offset_ok(pos as int),
        offset_ok(inserted as int),
    ensures
        r as int == shifted(pos as int, inserted - deleted),
{
    if pos + inserted >= deleted {
        pos + inserted - deleted
    } else {
        0
    }
}

fn adjust_at_start<K>(mark: &Extmark<K>, inserted: usize, deleted: usize) -> (r:
    core::ops::Range<usize>)
    requires
        offset_ok(mark.byte_range.start as int),
        offset_ok(mark.byte_range.end as int),
        offset_ok(inserted as int),
    ensures
        range_is(
            r,
            range_at_start(
                mark.byte_range.start as int,
                mark.byte_range.end as int,
                mark.gravity,
                mark.expand_on_insert,
                inserted as int,
                deleted as int,
            ),
        ),
{
    let ms = mark.byte_range.start;
    let me = mark.byte_range.end;
    match mark.gravity {
        ExtmarkGravity::Right => shift(ms, inserted, deleted)..shift(me, inserted, deleted),
        ExtmarkGravity::Left => {
            if mark.expand_on_insert && inserted > 0 {
                let e = shift(me, inserted, deleted);
                ms..(if e >= ms {
                    e
                } else {
                    ms
                })
            } else if deleted > 0 {
                let span = me.saturating_sub(ms);
                let in_range = if deleted <= span {
                    deleted
                } else {
                    span
                };
                ms..me.saturating_sub(in_range)
            } else {
                ms..me
            }
        },
    }
}

/// Computes the new byte range of `mark` after the edit that replaces bytes
/// `[edit_start, old_end)` by `new_end - edit_start` new bytes, or `None` when the
/// mark is to be deleted.
pub fn adjust_mark_range<K>(
    mark: &Extmark<K>,
    edit_start: usize,
    old_end: usize,
    new_end: usize,
) -> (r: Option<core::ops::Range<usize>>)
    requires
        offset_ok(mark.byte_range.start as int),
        offset_ok(mark.byte_range.end as int),
        offset_ok(edit_start as int),
        offset_ok(old_end as int),
        offset_ok(new_end as int),
    ensures
        match mark_adjusted(mark, edit_start as int, old_end as int, new_end as int) {
            None => r is None,
            Some(p) => r is Some && range_is(r->0, p),
        },
{
    let deleted = old_end.saturating_sub(edit_start);
    let inserted = new_end.saturating_sub(edit_start);
    let ms = mark.byte_range.start;
    let me = mark.byte_range.end;

    // the edit is entirely after the mark
    if edit_start >= me {
        return Some(ms..me);
    }
    // fixed marks never move
    if mark.adjustment == ExtmarkAdjustment::Fixed {
        return Some(ms..me);
    }
    // the edit is entirely before the mark
    if old_end < ms || (old_end == ms && deleted > 0) {
        return Some(shift(ms, inserted, deleted)..shift(me, inserted, deleted));
    }
    // pure insertion at the mark's start: gravity decides
    if edit_start == ms && deleted == 0 {
        return Some(adjust_at_start(mark, inserted, deleted));
    }
    // the edit contains the mark: collapse or delete
    if edit_start <= ms && old_end >= me {
        if mark.adjustment == ExtmarkAdjustment::DeleteOnDelete {
            return None;
        }
        let point = edit_start + inserted;
        return Some(point..point);
    }
    // the edit overlaps the mark's start but not its end
    if edit_start < ms && old_end < me {
        if mark.adjustment == ExtmarkAdjustment::DeleteOnDelete {
            return None;
        }
        let new_start = edit_start + inserted;
        let deleted_before_start = old_end.saturating_sub(ms);
        let e = me - deleted_before_start;
        return Some(new_start..(if e >= new_start {
            e
        } else {
            new_start
        }));
    }
    // the edit overlaps the mark's end but not its start
    if edit_start > ms && old_end >= me {
        if deleted > 0 {
            let e = edit_start + inserted;
            return Some(ms..(if e >= ms {
                e
            } else {
                ms
            }));
        } else {
            return Some(ms..shift(me, inserted, deleted));
        }
    }
    // the edit begins at the mark's start
    if edit_start == ms {
        return Some(adjust_at_start(mark, inserted, deleted));
    }
    // the edit lies strictly inside the mark
    if mark.expand_on_insert || deleted == 0 {
        let e = shift(me, inserted, deleted);
        Some(ms..(if e >= ms {
            e
        } else {
            ms
        }))
    } else {
        let e = me.saturating_sub(deleted);
        Some(ms..(if e >= ms {
            e
        } else {
            ms
        }))
    }
}

/// An adjusted mark is still a well-formed range: when the mark starts no later than
/// it ends, so does its adjusted range.
pub proof fn lemma_adjusted_range_ordered(
    ms: int,
    me: int,
    gravity: ExtmarkGravity,
    adjustment: ExtmarkAdjustment,
    expand: bool,
    es: int,
    oe: int,
    ne: int,
)
    requires
        0 <= ms <= me,
        0 <= es,
        0 <= oe,
        0 <= ne,
    ensures
        adjusted_range(ms, me, gravity, adjustment, expand, es, oe, ne) matches Some(p)
            ==> 0 <= p.0 <= p.1,
{
}

/// An edit that neither deletes nor inserts anything leaves every well-formed mark
/// where it was.
pub proof fn lemma_empty_edit_is_identity(
    ms: int,
    me: int,
    gravity: ExtmarkGravity,
    adjustment: ExtmarkAdjustment,
    expand: bool,
    es: int,
)
    requires
        0 <= ms <= me,
        0 <= es,
    ensures
        adjusted_range(ms, me, gravity, adjustment, expand, es, es, es) == Some((ms, me)),
{
}

/// Only a `DeleteOnDelete` mark is ever deleted by an edit, and only an edit that
/// deletes something reaches the mark's start.
pub proof fn lemma_only_delete_on_delete_marks_vanish(
    ms: int,
    me: int,
    gravity: ExtmarkGravity,
    adjustment: ExtmarkAdjustment,
    expand: bool,
    es: int,
    oe: int,
    ne: int,
)
    requires
        0 <= ms <= me,
        0 <= es,
        0 <= oe,
        0 <= ne,
    ensures
        adjusted_range(ms, me, gravity, adjustment, expand, es, oe, ne) is None
            ==> adjustment == ExtmarkAdjustment::DeleteOnDelete && oe > es && es < me,
{
}

} // verus!
