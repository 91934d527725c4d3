//! Split panes: moving the focus between the panes, resizing the focused one, merging
//! a closed pane's buffers, and dropping all splits.
//!
//! The panes are seen in the order of the split tree's leaves, each with the direction
//! of the split that holds it; the tree's own operations (splitting a pane, finding the
//! neighbour in a direction, removing a pane) stay with the tree.

use vstd::prelude::*;
use crate::editor_commands::SplitResizeDir;

verus! {

/// The direction of a split.
#[derive(Clone, Copy, Debug, PartialEq, Eq, Structural)]
pub enum SplitDir {
    Vertical,
    Horizontal,
}

/// A pane: its id, the buffers it lists (when each pane has its own list), the one it
/// shows, its size and its bufferline scroll.
pub struct SplitPane {
    pub id: u64,
    pub buffer_indices: Vec<usize>,
    pub selected_local: usize,
    pub size: u16,
    pub tab_scroll: usize,
}

/// The panes in the order of the tree's leaves, with the direction of the split each
/// sits in (none for a lone pane), the focused pane's id, and whether each pane has
/// its own list of buffers.
pub struct SplitModel {
    pub leaves: Vec<SplitPane>,
    pub parent_dirs: Vec<Option<SplitDir>>,
    pub focused_id: u64,
    pub unique_buffers: bool,
}

impl SplitModel {
    /// One split direction per pane, and no two panes with the same id.
    pub open spec fn wf(&self) -> bool {
        &&& self.parent_dirs@.len() == self.leaves@.len()
        &&& forall|i: int, j: int|
            0 <= i < j < self.leaves@.len() ==> (#[trigger] self.leaves@[i]).id != (#[trigger] self.leaves@[j]).id
    }
}

/// The commands on the panes that this model decides.
#[derive(Clone, Copy, Debug)]
pub enum SplitCommand {
    /// `split_focus`: focuses the pane at the given leaf index.
    FocusPane(usize),
    /// `split_next`: focuses the next pane, wrapping around.
    FocusNext,
    /// `split_prev`: focuses the previous pane, wrapping around.
    FocusPrev,
    /// `split_resize`: resizes the focused pane along `dir`; nothing when the pane's
    /// split runs the other way.
    ResizeSplit { dir: SplitResizeDir, amount: i16 },
}

/// The index of the first leaf of `ls[k..]` with id `id`.
pub open spec fn leaf_of_from(ls: Seq<SplitPane>, id: u64, k: int) -> Option<int>
    decreases ls.len() - k,
{
    if k < 0 || k >= ls.len() {
        None
    } else if ls[k].id == id {
        Some(k)
    } else {
        leaf_of_from(ls, id, k + 1)
    }
}

/// The index of the focused leaf.
pub open spec fn focused_leaf(s: &SplitModel) -> Option<int> {
    leaf_of_from(s.leaves@, s.focused_id, 0)
}

/// The buffer a pane shows: its selected index itself when the panes share the buffer
/// list, else the entry of its own list at that index.
pub open spec fn pane_buffer(unique: bool, p: &SplitPane) -> Option<usize> {
    if !unique {
        Some(p.selected_local)
    } else if p.selected_local < p.buffer_indices@.len() {
        Some(p.buffer_indices@[p.selected_local as int])
    } else {
        None
    }
}

proof fn lemma_leaf_of_from(ls: Seq<SplitPane>, id: u64, k: int)
    requires
        0 <= k,
    ensures
        leaf_of_from(ls, id, k) matches Some(j) ==> k <= j < ls.len() && ls[j].id == id,
    decreases ls.len() - k,
{
    if k < ls.len() && ls[k].id != id {
        lemma_leaf_of_from(ls, id, k + 1);
    }
}

fn focused_leaf_exec(s: &SplitModel) -> (r: Option<usize>)
    ensures
        r is None <==> focused_leaf(s) is None,
        r matches Some(k) ==> k < s.leaves@.len() && focused_leaf(s) == Some(k as int),
{
    proof {
        lemma_leaf_of_from(s.leaves@, s.focused_id, 0);
    }
    let mut k: usize = 0;
    while k < s.leaves.len()
        invariant
            k <= s.leaves@.len(),
            focused_leaf(s) == leaf_of_from(s.leaves@, s.focused_id, k as int),
        decreases s.leaves@.len() - k,
    {
        if s.leaves[k].id == s.focused_id {
            return Some(k);
        }
        k += 1;
    }
    None
}

/// The buffer pane `p` shows.
pub fn pane_global_idx(unique: bool, p: &SplitPane) -> (r: Option<usize>)
    ensures
        r == pane_buffer(unique, p),
{
    if !unique {
        Some(p.selected_local)
    } else if p.selected_local < p.buffer_indices.len() {
        Some(p.buffer_indices[p.selected_local])
    } else {
        None
    }
}

/// The leaf a focus move lands on: the given one, or the next or previous one
/// (wrapping around) from the focused one (the first when no leaf is focused).
pub open spec fn focus_target(cmd: SplitCommand, cur: int, count: int) -> Option<int> {
    match cmd {
        SplitCommand::FocusPane(n) => if n < count {
            Some(n as int)
        } else {
            None
        },
        SplitCommand::FocusNext => if count == 0 {
            None
        } else {
            Some((cur + 1) % count)
        },
        SplitCommand::FocusPrev => if count == 0 {
            None
        } else {
            Some((cur + count - 1) % count)
        },
        _ => None,
    }
}

/// The size a resize gives: the old size (as an `i16`) plus the amount, at least 1.
pub open spec fn resized(size: u16, amount: i16) -> u16 {
    let x = (size as i16) + amount;
    (if x < 1 {
        1
    } else {
        x
    }) as u16
}

/// Whether the split that holds the focused pane runs along `dir`.
pub open spec fn axis_matches(parent: Option<SplitDir>, dir: SplitResizeDir) -> bool {
    (parent == Some(SplitDir::Vertical) && dir == SplitResizeDir::Vertical) || (parent == Some(
        SplitDir::Horizontal,
    ) && dir == SplitResizeDir::Horizontal)
}

/// The panes are the same but for the focused id and the size of pane `j`.
pub open spec fn same_panes_but_size(a: &SplitModel, b: &SplitModel, j: int) -> bool {
    &&& a.leaves@.len() == b.leaves@.len()
    &&& forall|i: int|
        0 <= i < a.leaves@.len() ==> {
            &&& (#[trigger] b.leaves@[i]).id == a.leaves@[i].id
            &&& b.leaves@[i].buffer_indices == a.leaves@[i].buffer_indices
            &&& b.leaves@[i].selected_local == a.leaves@[i].selected_local
            &&& b.leaves@[i].tab_scroll == a.leaves@[i].tab_scroll
            &&& (i != j ==> b.leaves@[i].size == a.leaves@[i].size)
        }
    &&& b.parent_dirs == a.parent_dirs
    &&& b.unique_buffers == a.unique_buffers
}

impl SplitCommand {
    /// Applies the command to the panes `s`; returns whether it succeeded and the buffer
    /// to select, that of the newly focused pane.
    ///
    /// - Focus moves fail when there is no such pane (or no pane at all); otherwise the
    ///   target pane (see `focus_target`) becomes the focused one.
    /// - A resize fails when the focused pane's split runs the other way (or no pane
    ///   is focused); otherwise the focused pane's size becomes `resized`.
    pub fn apply(&self, s: &mut SplitModel) -> (r: (bool, Option<usize>))
        requires
            old(s).wf(),
            *self matches SplitCommand::ResizeSplit { amount, .. } ==> (focused_leaf(&*old(s)) matches Some(
                j,
            ) ==> i16::MIN <= (old(s).leaves@[j].size as i16) + amount <= i16::MAX),
        ensures
            final(s).wf(),
            match *self {
                SplitCommand::ResizeSplit { dir, amount } => match focused_leaf(&*old(s)) {
                    Some(j) => if axis_matches(old(s).parent_dirs@[j], dir) {
                        &&& r == (true, None::<usize>)
                        &&& final(s).focused_id == old(s).focused_id
                        &&& same_panes_but_size(&*old(s), &*final(s), j)
                        &&& final(s).leaves@[j].size == resized(old(s).leaves@[j].size, amount)
                    } else {
                        r == (false, None::<usize>) && final(s).focused_id == old(s).focused_id
                            && same_panes_but_size(&*old(s), &*final(s), -1)
                    },
                    None => r == (false, None::<usize>) && final(s).focused_id == old(s).focused_id
                        && same_panes_but_size(&*old(s), &*final(s), -1),
                },
                _ => {
                    let cur = match focused_leaf(&*old(s)) {
                        Some(j) => j,
                        None => 0,
                    };
                    &&& same_panes_but_size(&*old(s), &*final(s), -1)
                    &&& match focus_target(*self, cur, old(s).leaves@.len() as int) {
                        Some(t) => {
                            &&& r.0
                            &&& r.1 == pane_buffer(old(s).unique_buffers, &old(s).leaves@[t])
                            &&& final(s).focused_id == old(s).leaves@[t].id
                        },
                        None => !r.0 && r.1 is None && final(s).focused_id == old(s).focused_id,
                    }
                },
            },
    {
        let count = s.leaves.len();
        match *self {
            SplitCommand::ResizeSplit { dir, amount } => {
                match focused_leaf_exec(s) {
                    None => (false, None),
                    Some(j) => {
                        let pd = s.parent_dirs[j];
                        let ok = match (pd, dir) {
                            (Some(SplitDir::Vertical), SplitResizeDir::Vertical) => true,
                            (Some(SplitDir::Horizontal), SplitResizeDir::Horizontal) => true,
                            _ => false,
                        };
                        if !ok {
                            return (false, None);
                        }
                        let ghost before = s.leaves@;
                        let old_size = s.leaves[j].size;
                        let x: i16 = (#[verifier::truncate] (old_size as i16)) + amount;
                        let y: i16 = if x < 1 {
                            1
                        } else {
                            x
                        };
                        let new_size: u16 = #[verifier::truncate] (y as u16);
                        let mut p = s.leaves.remove(j);
                        p.size = new_size;
                        s.leaves.insert(j, p);
                        proof {
                            assert forall|i: int| 0 <= i < before.len() && i != j implies #[trigger] s.leaves@[i]
                                == before[i] by {
                                if i < j {
                                    assert(s.leaves@[i] == before[i]);
                                }
                            }
                        }
                        (true, None)
                    },
                }
            },
            _ => {
                let cur = match focused_leaf_exec(s) {
                    Some(j) => j,
                    None => 0,
                };
                let target: Option<usize> = match *self {
                    SplitCommand::FocusPane(n) => if n < count {
                        Some(n)
                    } else {
                        None
                    },
                    SplitCommand::FocusNext => if count == 0 {
                        None
                    } else {
                        Some((cur + 1) % count)
                    },
                    SplitCommand::FocusPrev => if count == 0 {
                        None
                    } else {
                        proof {
                            assert((cur + count - 1) % (count as int) == if cur == 0 {
                                count - 1
                            } else {
                                cur - 1
                            }) by (nonlinear_arith)
                                requires
                                    0 <= cur < count,
                            ;
                        }
                        Some(if cur == 0 {
                            count - 1
                        } else {
                            cur - 1
                        })
                    },
                    _ => None,
                };
                match target {
                    None => (false, None),
                    Some(t) => {
                        let b = pane_global_idx(s.unique_buffers, &s.leaves[t]);
                        s.focused_id = s.leaves[t].id;
                        (true, b)
                    },
                }
            },
        }
    }
}

/// `a` with the entries of `b` that it lacks appended, in order.
pub open spec fn merged_indices(a: Seq<usize>, b: Seq<usize>) -> Seq<usize>
    decreases b.len(),
{
    if b.len() == 0 {
        a
    } else {
        let m = merged_indices(a, b.drop_last());
        if m.contains(b.last()) {
            m
        } else {
            m.push(b.last())
        }
    }
}

fn contains_usize(v: &Vec<usize>, x: usize) -> (r: bool)
    ensures
        r == v@.contains(x),
{
    let mut i: usize = 0;
    while i < v.len()
        invariant
            i <= v@.len(),
            forall|j: int| 0 <= j < i ==> v@[j] != x,
        decreases v@.len() - i,
    {
        if v[i] == x {
            assert(v@[i as int] == x);
            return true;
        }
        i += 1;
    }
    false
}

/// Appends to `a` the entries of `b` it lacks, in order.
fn merge_into(a: &mut Vec<usize>, b: &Vec<usize>)
    ensures
        final(a)@ == merged_indices(old(a)@, b@),
{
    let ghost a0 = a@;
    let mut i: usize = 0;
    while i < b.len()
        invariant
            i <= b@.len(),
            a@ == merged_indices(a0, b@.take(i as int)),
        decreases b@.len() - i,
    {
        proof {
            assert(b@.take(i + 1).drop_last() =~= b@.take(i as int));
            assert(b@.take(i + 1).last() == b@[i as int]);
        }
        if !contains_usize(a, b[i]) {
            a.push(b[i]);
        }
        i += 1;
    }
    assert(b@.take(i as int) =~= b@);
}

impl SplitModel {
    /// After the tree removed the focused pane `removed` (and focused its neighbour):
    /// with its own buffer lists, the newly focused pane takes on the buffers of the
    /// removed one that it lacks. Returns the buffer to select, that of the focused
    /// pane.
    pub fn merge_closed(&mut self, removed: &SplitPane) -> (r: Option<usize>)
        requires
            old(self).wf(),
        ensures
            final(self).wf(),
            final(self).focused_id == old(self).focused_id,
            final(self).unique_buffers == old(self).unique_buffers,
            final(self).parent_dirs == old(self).parent_dirs,
            final(self).leaves@.len() == old(self).leaves@.len(),
            match focused_leaf(&*old(self)) {
                Some(j) => {
                    let p = old(self).leaves@[j];
                    let q = final(self).leaves@[j];
                    &&& q.buffer_indices@ == if old(self).unique_buffers {
                        merged_indices(p.buffer_indices@, removed.buffer_indices@)
                    } else {
                        p.buffer_indices@
                    }
                    &&& q.id == p.id && q.selected_local == p.selected_local && q.size == p.size
                        && q.tab_scroll == p.tab_scroll
                    &&& forall|i: int| 0 <= i < old(self).leaves@.len() && i != j ==> (#[trigger] final(self).leaves@[i]) == old(self).leaves@[i]
                    &&& r == pane_buffer(old(self).unique_buffers, &q)
                },
                None => final(self).leaves@ == old(self).leaves@ && r is None,
            },
    {
        match focused_leaf_exec(self) {
            None => None,
            Some(j) => {
                let ghost before = self.leaves@;
                if self.unique_buffers {
                    let mut p = self.leaves.remove(j);
                    merge_into(&mut p.buffer_indices, &removed.buffer_indices);
                    self.leaves.insert(j, p);
                    proof {
                        assert forall|i: int| 0 <= i < before.len() && i != j implies #[trigger] self.leaves@[i]
                            == before[i] by {
                            if i < j {
                                assert(self.leaves@[i] == before[i]);
                            }
                        }
                    }
                }
                pane_global_idx(self.unique_buffers, &self.leaves[j])
            },
        }
    }

    /// Closes every pane but one, which lists the buffers of all panes (each once, in
    /// the order of the panes; with a shared list, all `buffer_count` buffers), keeps
    /// the focused pane's selection (clamped into the list, 0 when no pane is focused),
    /// and takes the id `new_id`, allotted by the caller. Returns the buffer to select.
    pub fn drop_splits(&mut self, buffer_count: usize, new_id: u64) -> (r: Option<usize>)
        ensures
            final(self).wf(),
            final(self).leaves@.len() == 1,
            final(self).parent_dirs@ == seq![None::<SplitDir>],
            final(self).focused_id == new_id,
            final(self).unique_buffers == old(self).unique_buffers,
            ({
                let p = final(self).leaves@[0];
                let merged = if old(self).unique_buffers {
                    all_buffers(old(self).leaves@, old(self).leaves@.len() as int)
                } else {
                    Seq::new(buffer_count as nat, |i: int| i as usize)
                };
                let sel = match focused_leaf(&*old(self)) {
                    Some(j) => old(self).leaves@[j].selected_local as int,
                    None => 0,
                };
                let last = if merged.len() == 0 {
                    0
                } else {
                    merged.len() - 1
                };
                &&& p.id == new_id
                &&& p.buffer_indices@ == merged
                &&& p.selected_local == if sel < last {
                    sel
                } else {
                    last
                }
                &&& p.size == 0
                &&& p.tab_scroll == 0
                &&& r == pane_buffer(old(self).unique_buffers, &p)
            }),
    {
        let mut merged: Vec<usize> = Vec::new();
        if !self.unique_buffers {
            let mut i: usize = 0;
            while i < buffer_count
                invariant
                    i <= buffer_count,
                    merged@ == Seq::new(i as nat, |k: int| k as usize),
                decreases buffer_count - i,
            {
                merged.push(i);
                assert(merged@ =~= Seq::new((i + 1) as nat, |k: int| k as usize));
                i += 1;
            }
        } else {
            let mut k: usize = 0;
            while k < self.leaves.len()
                invariant
                    k <= self.leaves@.len(),
                    merged@ == all_buffers(self.leaves@, k as int),
                decreases self.leaves@.len() - k,
            {
                merge_into(&mut merged, &self.leaves[k].buffer_indices);
                k += 1;
            }
        }
        let sel = match focused_leaf_exec(self) {
            Some(j) => self.leaves[j].selected_local,
            None => 0,
        };
        let last = if merged.len() == 0 {
            0
        } else {
            merged.len() - 1
        };
        let selected_local = if sel < last {
            sel
        } else {
            last
        };
        let pane = SplitPane { id: new_id, buffer_indices: merged, selected_local, size: 0, tab_scroll: 0 };
        let b = pane_global_idx(self.unique_buffers, &pane);
        self.leaves = vec![pane];
        self.parent_dirs = vec![None];
        self.focused_id = new_id;
        b
    }
}

/// The buffers of the first `k` panes, each once, in order.
pub open spec fn all_buffers(ls: Seq<SplitPane>, k: int) -> Seq<usize>
    decreases k,
{
    if k <= 0 {
        seq![]
    } else {
        merged_indices(all_buffers(ls, k - 1), ls[k - 1].buffer_indices@)
    }
}

/// `x` modulo `n`, in `0..n`, as `isize::rem_euclid` gives it.
fn rem_euclid_exec(x: i128, n: u64) -> (r: u64)
    requires
        n > 0,
        x > i128::MIN,
    ensures
        r as int == x as int % n as int,
        r < n,
{
    if x >= 0 {
        let r = (x as u128 % n as u128) as u64;
        r
    } else {
        let m = ((-x) as u128 % n as u128) as u64;
        proof {
            let xi = x as int;
            let ni = n as int;
            let mi = m as int;
            assert(mi == (-xi) % ni);
            vstd::arithmetic::div_mod::lemma_fundamental_div_mod(-xi, ni);
            let q = (-xi) / ni;
            assert(-xi == ni * q + mi);
            assert(ni * q == q * ni) by (nonlinear_arith);
            if mi == 0 {
                assert((-q) * ni == -(q * ni)) by (nonlinear_arith);
                vstd::arithmetic::div_mod::lemma_fundamental_div_mod_converse(xi, ni, -q, 0);
            } else {
                assert((-q - 1) * ni == -(q * ni) - ni) by (nonlinear_arith);
                vstd::arithmetic::div_mod::lemma_fundamental_div_mod_converse(xi, ni, -q - 1, ni - mi);
            }
        }
        if m == 0 {
            0
        } else {
            n - m
        }
    }
}

/// What `bm offset` makes of the focused pane's selection: moved by `offset` among `n`
/// entries, wrapping around.
pub open spec fn switched(sel: int, offset: int, n: int) -> int {
    (sel + offset) % n
}

impl SplitModel {
    /// `bm offset` (switch buffer): the focused pane shows the buffer `offset` places
    /// away, wrapping around: among all `buffer_count` buffers when the panes share the
    /// list, else among the pane's own. Fails when there is nothing to switch to;
    /// without a focused pane it succeeds and changes nothing. Returns the buffer to
    /// select.
    pub fn switch_buffer(&mut self, offset: isize, buffer_count: usize) -> (r: (bool, Option<usize>))
        requires
            old(self).wf(),
            focused_leaf(&*old(self)) matches Some(j) ==> old(self).leaves@[j].selected_local <= isize::MAX
                && isize::MIN <= old(self).leaves@[j].selected_local + offset <= isize::MAX,
            buffer_count <= isize::MAX,
        ensures
            final(self).wf(),
            final(self).focused_id == old(self).focused_id,
            final(self).unique_buffers == old(self).unique_buffers,
            final(self).parent_dirs == old(self).parent_dirs,
            final(self).leaves@.len() == old(self).leaves@.len(),
            match focused_leaf(&*old(self)) {
                None => if !old(self).unique_buffers && buffer_count == 0 {
                    !r.0 && r.1 is None && final(self).leaves@ == old(self).leaves@
                } else {
                    r.0 && r.1 is None && final(self).leaves@ == old(self).leaves@
                },
                Some(j) => {
                    let p = old(self).leaves@[j];
                    let n = if old(self).unique_buffers {
                        p.buffer_indices@.len() as int
                    } else {
                        buffer_count as int
                    };
                    if n == 0 {
                        !r.0 && r.1 is None && final(self).leaves@ == old(self).leaves@
                    } else {
                        let q = final(self).leaves@[j];
                        let new_local = switched(p.selected_local as int, offset as int, n);
                        &&& r.0
                        &&& q.selected_local == new_local
                        &&& q.id == p.id && q.buffer_indices == p.buffer_indices && q.size == p.size
                            && q.tab_scroll == p.tab_scroll
                        &&& forall|i: int| 0 <= i < old(self).leaves@.len() && i != j ==> (#[trigger] final(self).leaves@[i]) == old(self).leaves@[i]
                        &&& r.1 == Some(if old(self).unique_buffers {
                            p.buffer_indices@[new_local]
                        } else {
                            new_local as usize
                        })
                    }
                },
            },
    {
        if !self.unique_buffers && buffer_count == 0 {
            return (false, None);
        }
        match focused_leaf_exec(self) {
            None => (true, None),
            Some(j) => {
                let n: usize = if self.unique_buffers {
                    self.leaves[j].buffer_indices.len()
                } else {
                    buffer_count
                };
                if n == 0 {
                    return (false, None);
                }
                let ghost before = self.leaves@;
                let x: i128 = self.leaves[j].selected_local as i128 + offset as i128;
                let nl = rem_euclid_exec(x, n as u64) as usize;
                let mut p = self.leaves.remove(j);
                p.selected_local = nl;
                let b = if self.unique_buffers {
                    p.buffer_indices[nl]
                } else {
                    nl
                };
                self.leaves.insert(j, p);
                proof {
                    assert forall|i: int| 0 <= i < before.len() && i != j implies #[trigger] self.leaves@[i]
                        == before[i] by {
                        if i < j {
                            assert(self.leaves@[i] == before[i]);
                        }
                    }
                }
                (true, Some(b))
            },
        }
    }
}

/// In a model whose ids are distinct, the pane with the id of leaf `t` is leaf `t`.
proof fn lemma_leaf_of_id(s: &SplitModel, t: int)
    requires
        s.wf(),
        0 <= t < s.leaves@.len(),
    ensures
        leaf_of_from(s.leaves@, s.leaves@[t].id, 0) == Some(t),
{
    lemma_leaf_of_prefix(s.leaves@, s.leaves@[t].id, 0, t);
}

proof fn lemma_leaf_of_prefix(ls: Seq<SplitPane>, id: u64, k: int, t: int)
    requires
        0 <= k <= t < ls.len(),
        ls[t].id == id,
        forall|i: int| 0 <= i < t ==> (#[trigger] ls[i]).id != id,
    ensures
        leaf_of_from(ls, id, k) == Some(t),
    decreases t - k,
{
    if k < t {
        lemma_leaf_of_prefix(ls, id, k + 1, t);
    }
}

/// Focusing the next pane and then the previous one comes back to the pane focused at
/// first: `a` is the model before, `b` after `FocusNext`, `c` after `FocusPrev` (each
/// as `SplitCommand::apply` leaves it).
pub proof fn lemma_focus_next_then_prev(a: SplitModel, b: SplitModel, c: SplitModel)
    requires
        a.wf(),
        focused_leaf(&a) is Some,
        same_panes_but_size(&a, &b, -1),
        b.focused_id == a.leaves@[focus_target(SplitCommand::FocusNext, focused_leaf(&a)->0, a.leaves@.len() as int)->0].id,
        same_panes_but_size(&b, &c, -1),
        c.focused_id == b.leaves@[focus_target(
            SplitCommand::FocusPrev,
            match focused_leaf(&b) {
                Some(j) => j,
                None => 0,
            },
            b.leaves@.len() as int,
        )->0].id,
    ensures
        c.focused_id == a.focused_id,
{
    let n = a.leaves@.len() as int;
    let k = focused_leaf(&a)->0;
    lemma_leaf_of_from(a.leaves@, a.focused_id, 0);
    let t = (k + 1) % n;
    assert(0 <= t < n) by (nonlinear_arith)
        requires
            0 <= k < n,
            t == (k + 1) % n,
    ;
    assert(b.leaves@[t].id == a.leaves@[t].id);
    assert(b.wf()) by {
        assert forall|i: int, j: int| 0 <= i < j < b.leaves@.len() implies (#[trigger] b.leaves@[i]).id
            != (#[trigger] b.leaves@[j]).id by {
            assert(b.leaves@[i].id == a.leaves@[i].id);
            assert(b.leaves@[j].id == a.leaves@[j].id);
            assert(a.leaves@[i].id != a.leaves@[j].id);
        }
    }
    lemma_leaf_of_id(&b, t);
    assert(focused_leaf(&b) == Some(t));
    assert((t + n - 1) % n == k) by (nonlinear_arith)
        requires
            0 <= k < n,
            t == (k + 1) % n,
    {
        if k + 1 < n {
            assert(t == k + 1);
        } else {
            assert(k + 1 == n);
            assert(t == 0);
        }
    }
    assert(c.focused_id == b.leaves@[k].id);
    assert(b.leaves@[k].id == a.leaves@[k].id);
}

} // verus!
