//! The list of open buffers: which one is selected, their shortened paths, and the
//! bufferline that shows them as tabs.

use vstd::prelude::*;
use crate::text::{chars_of, chars_eq, string_of, owned, append_str};
use crate::scroll::{str_width, width_of};

verus! {

/// `s` split at each `/`, as `str::split('/')` does: always at least one part.
pub open spec fn split_slash(s: Seq<char>) -> Seq<Seq<char>>
    decreases s.len(),
{
    if s.len() == 0 {
        seq![Seq::<char>::empty()]
    } else {
        let rest = split_slash(s.drop_first());
        if s[0] == '/' {
            seq![Seq::<char>::empty()] + rest
        } else {
            rest.update(0, seq![s[0]] + rest[0])
        }
    }
}

pub proof fn lemma_split_nonempty(s: Seq<char>)
    ensures
        split_slash(s).len() >= 1,
    decreases s.len(),
{
    if s.len() > 0 {
        lemma_split_nonempty(s.drop_first());
    }
}

/// `s` holds no `/`.
pub open spec fn no_slash(s: Seq<char>) -> bool {
    forall|k: int| 0 <= k < s.len() ==> s[k] != '/'
}

/// The index of the last `/` in `s`, or -1.
spec fn last_slash(s: Seq<char>) -> int
    decreases s.len(),
{
    if s.len() == 0 {
        -1
    } else if s.last() == '/' {
        s.len() - 1
    } else {
        last_slash(s.drop_last())
    }
}

proof fn lemma_last_slash(s: Seq<char>)
    ensures
        last_slash(s) == -1 ==> no_slash(s),
        last_slash(s) != -1 ==> 0 <= last_slash(s) < s.len() && s[last_slash(s)] == '/' && no_slash(
            s.skip(last_slash(s) + 1),
        ),
    decreases s.len(),
{
    if s.len() > 0 {
        lemma_last_slash(s.drop_last());
        if s.last() != '/' {
            let k = last_slash(s);
            if k == -1 {
                let d = s.drop_last();
                assert forall|m: int| 0 <= m < s.len() implies #[trigger] s[m] != '/' by {
                    if m < s.len() - 1 {
                        assert(s[m] == d[m]);
                    }
                }
            }
            if k != -1 {
                let t = s.skip(k + 1);
                let t0 = s.drop_last().skip(k + 1);
                assert forall|m: int| 0 <= m < t.len() implies #[trigger] t[m] != '/' by {
                    if m < t.len() - 1 {
                        assert(t[m] == t0[m]);
                    }
                }
            }
        }
    }
}

proof fn lemma_split_no_slash(s: Seq<char>)
    requires
        no_slash(s),
    ensures
        split_slash(s) == seq![s],
    decreases s.len(),
{
    if s.len() > 0 {
        let t = s.drop_first();
        assert forall|m: int| 0 <= m < t.len() implies #[trigger] t[m] != '/' by {
            assert(t[m] == s[m + 1]);
        }
        lemma_split_no_slash(t);
        assert(s[0] != '/');
        assert(seq![s[0]] + t =~= s);
        assert(seq![t].update(0, seq![s[0]] + t) =~= seq![s]);
    } else {
        assert(s =~= Seq::<char>::empty());
    }
}

/// Splitting around a `/` splits each side.
proof fn lemma_split_concat(a: Seq<char>, b: Seq<char>)
    ensures
        split_slash(a + seq!['/'] + b) == split_slash(a) + split_slash(b),
    decreases a.len(),
{
    let s = a + seq!['/'] + b;
    if a.len() == 0 {
        assert(s.drop_first() =~= b);
        assert(seq![Seq::<char>::empty()] + split_slash(b) =~= split_slash(a) + split_slash(b));
    } else {
        assert(s.drop_first() =~= a.drop_first() + seq!['/'] + b);
        lemma_split_concat(a.drop_first(), b);
        lemma_split_nonempty(a.drop_first());
        if a[0] == '/' {
            assert(split_slash(s) =~= split_slash(a) + split_slash(b));
        } else {
            let ra = split_slash(a.drop_first());
            let rest = ra + split_slash(b);
            assert(rest.update(0, seq![a[0]] + rest[0]) =~= ra.update(0, seq![a[0]] + ra[0]) + split_slash(b));
        }
    }
}

proof fn lemma_split_parts_no_slash(s: Seq<char>)
    ensures
        forall|k: int| 0 <= k < split_slash(s).len() ==> no_slash(#[trigger] split_slash(s)[k]),
    decreases s.len(),
{
    if s.len() > 0 {
        lemma_split_parts_no_slash(s.drop_first());
        lemma_split_nonempty(s.drop_first());
        let rest = split_slash(s.drop_first());
        if s[0] != '/' {
            assert forall|k: int| 0 <= k < split_slash(s).len() implies no_slash(#[trigger] split_slash(s)[k]) by {
                if k == 0 {
                    let p = seq![s[0]] + rest[0];
                    assert(no_slash(rest[0]));
                    assert forall|m: int| 0 <= m < p.len() implies p[m] != '/' by {
                        if m > 0 {
                            assert(p[m] == rest[0][m - 1]);
                        }
                    }
                } else {
                    assert(split_slash(s)[k] == rest[k]);
                }
            }
        } else {
            assert forall|k: int| 0 <= k < split_slash(s).len() implies no_slash(#[trigger] split_slash(s)[k]) by {
                if k > 0 {
                    assert(split_slash(s)[k] == rest[k - 1]);
                }
            }
        }
    }
}

/// Splitting what was joined gives back the parts.
proof fn lemma_split_join(parts: Seq<Seq<char>>)
    requires
        parts.len() >= 1,
        forall|k: int| 0 <= k < parts.len() ==> no_slash(#[trigger] parts[k]),
    ensures
        split_slash(join_slash(parts)) == parts,
    decreases parts.len(),
{
    if parts.len() == 1 {
        lemma_split_no_slash(parts[0]);
        assert(seq![parts[0]] =~= parts);
    } else {
        let dl = parts.drop_last();
        assert forall|k: int| 0 <= k < dl.len() implies no_slash(#[trigger] dl[k]) by {
            assert(dl[k] == parts[k]);
        }
        lemma_split_join(dl);
        lemma_split_concat(join_slash(dl), parts.last());
        lemma_split_no_slash(parts.last());
        assert(dl + seq![parts.last()] =~= parts);
    }
}

/// Joining the parts of a path gives back the path.
proof fn lemma_join_split(s: Seq<char>)
    ensures
        join_slash(split_slash(s)) == s,
    decreases s.len(),
{
    lemma_last_slash(s);
    let k = last_slash(s);
    if k == -1 {
        lemma_split_no_slash(s);
    } else {
        let a = s.take(k);
        let b = s.skip(k + 1);
        assert(a + seq!['/'] + b =~= s);
        lemma_split_concat(a, b);
        lemma_split_no_slash(b);
        lemma_split_nonempty(a);
        lemma_join_split(a);
        let sp = split_slash(a) + seq![b];
        assert(sp.drop_last() =~= split_slash(a));
    }
}

/// Shortening a path to `d >= 1` components keeps `min(d, n)` of its `n` parts.
proof fn lemma_trunc_parts(p: Seq<char>, d: int)
    requires
        d >= 1,
    ensures
        split_slash(trunc(p, d)).len() == if d >= split_slash(p).len() {
            split_slash(p).len() as int
        } else {
            d
        },
        d >= split_slash(p).len() ==> trunc(p, d) == p,
{
    let parts = split_slash(p);
    lemma_split_nonempty(p);
    lemma_split_parts_no_slash(p);
    let from = if d >= parts.len() { 0 } else { parts.len() - d };
    let tail = parts.skip(from);
    assert forall|k: int| 0 <= k < tail.len() implies no_slash(#[trigger] tail[k]) by {
        assert(tail[k] == parts[k + from]);
    }
    lemma_split_join(tail);
    if d >= parts.len() {
        assert(tail =~= parts);
        lemma_join_split(p);
    }
}

proof fn lemma_depth_from(ps: Seq<Seq<char>>, i: int, d: int)
    requires
        0 <= i < ps.len(),
        1 <= d,
    ensures
        d <= depth_from(ps, i, d),
        depth_from(ps, i, d) <= if d >= split_slash(ps[i]).len() {
            d
        } else {
            split_slash(ps[i]).len() as int
        },
        unique_at(ps, i, depth_from(ps, i, d)) || depth_from(ps, i, d) >= split_slash(ps[i]).len(),
    decreases split_slash(ps[i]).len() - d,
{
    if !(unique_at(ps, i, d) || d >= split_slash(ps[i]).len()) {
        lemma_depth_from(ps, i, d + 1);
    }
}

/// Distinct paths keep distinct shortened paths: no two tabs show the same name
/// unless they name the same file.
pub proof fn lemma_short_paths_distinct(ps: Seq<Seq<char>>, i: int, j: int)
    requires
        0 <= i < ps.len(),
        0 <= j < ps.len(),
        i != j,
        ps[i] != ps[j],
    ensures
        short_path(ps, i) != short_path(ps, j),
{
    lemma_split_nonempty(ps[i]);
    lemma_split_nonempty(ps[j]);
    lemma_depth_from(ps, i, 1);
    lemma_depth_from(ps, j, 1);
    let di = depth_from(ps, i, 1);
    let dj = depth_from(ps, j, 1);
    lemma_trunc_parts(ps[i], di);
    lemma_trunc_parts(ps[j], dj);
    if short_path(ps, i) == short_path(ps, j) {
        assert(di == dj);
        if unique_at(ps, i, di) {
            assert(trunc(ps[j], di) != trunc(ps[i], di));
        } else if unique_at(ps, j, dj) {
            assert(trunc(ps[i], dj) != trunc(ps[j], dj));
        } else {
            assert(short_path(ps, i) == ps[i]);
            assert(short_path(ps, j) == ps[j]);
        }
    }
}

/// The parts joined with `/` between them.
pub open spec fn join_slash(parts: Seq<Seq<char>>) -> Seq<char>
    decreases parts.len(),
{
    if parts.len() == 0 {
        seq![]
    } else if parts.len() == 1 {
        parts[0]
    } else {
        join_slash(parts.drop_last()) + seq!['/'] + parts.last()
    }
}

/// The last `d` components of path `p` (all of them when it has fewer), joined.
pub open spec fn trunc(p: Seq<char>, d: int) -> Seq<char> {
    let parts = split_slash(p);
    join_slash(parts.skip(if d >= parts.len() { 0 } else { parts.len() - d }))
}

/// Path `i` shortened to `d` components tells it apart from every other path.
pub open spec fn unique_at(ps: Seq<Seq<char>>, i: int, d: int) -> bool {
    forall|j: int| 0 <= j < ps.len() && j != i ==> trunc(ps[j], d) != trunc(ps[i], d)
}

/// The fewest components, from `d` on, that tell path `i` apart, or all of them.
pub open spec fn depth_from(ps: Seq<Seq<char>>, i: int, d: int) -> int
    decreases split_slash(ps[i]).len() - d,
{
    if d < 1 || unique_at(ps, i, d) || d >= split_slash(ps[i]).len() {
        d
    } else {
        depth_from(ps, i, d + 1)
    }
}

/// Path `i` shortened to the fewest trailing components that tell it apart from the
/// other paths (or kept whole).
pub open spec fn short_path(ps: Seq<Seq<char>>, i: int) -> Seq<char> {
    trunc(ps[i], depth_from(ps, i, 1))
}

/// The components of a path.
fn split_exec(s: &Vec<char>) -> (r: Vec<Vec<char>>)
    ensures
        r@.len() == split_slash(s@).len(),
        forall|k: int| 0 <= k < r@.len() ==> (#[trigger] r@[k])@ == split_slash(s@)[k],
{
    let mut parts: Vec<Vec<char>> = Vec::new();
    let mut cur: Vec<char> = Vec::new();
    let mut i: usize = s.len();
    // walk from the end, so that each step matches the definition's recursion
    proof {
        assert(s@.skip(s@.len() as int) =~= Seq::<char>::empty());
    }
    let mut rev: Vec<Vec<char>> = Vec::new();
    let ghost done = s@.skip(i as int);
    while i > 0
        invariant
            i <= s@.len(),
            ({
                let sp = split_slash(s@.skip(i as int));
                &&& rev@.len() + 1 == sp.len()
                &&& cur@ == sp[0]
                &&& forall|k: int| 0 <= k < rev@.len() ==> (#[trigger] rev@[k])@ == sp[sp.len() - 1 - k]
            }),
        decreases i,
    {
        let c = s[i - 1];
        proof {
            assert(s@.skip(i - 1).drop_first() =~= s@.skip(i as int));
            assert(s@.skip(i - 1)[0] == c);
        }
        if c == '/' {
            let finished = cur;
            rev.push(finished);
            cur = Vec::new();
        } else {
            let mut nc: Vec<char> = Vec::new();
            nc.push(c);
            let mut t: usize = 0;
            while t < cur.len()
                invariant
                    t <= cur@.len(),
                    nc@ == seq![c] + cur@.take(t as int),
                decreases cur@.len() - t,
            {
                nc.push(cur[t]);
                proof {
                    assert(nc@ =~= seq![c] + cur@.take(t + 1));
                }
                t += 1;
            }
            proof {
                assert(cur@.take(t as int) =~= cur@);
            }
            cur = nc;
        }
        i -= 1;
    }
    proof {
        assert(s@.skip(0) =~= s@);
    }
    parts.push(cur);
    let mut k: usize = rev.len();
    while k > 0
        invariant
            k <= rev@.len(),
            ({
                let sp = split_slash(s@);
                &&& rev@.len() + 1 == sp.len()
                &&& parts@.len() == rev@.len() - k + 1
                &&& forall|x: int| 0 <= x < rev@.len() ==> (#[trigger] rev@[x])@ == sp[sp.len() - 1 - x]
                &&& forall|x: int| 0 <= x < parts@.len() ==> (#[trigger] parts@[x])@ == sp[x]
            }),
        decreases k,
    {
        let p = slice_all(&rev[k - 1]);
        parts.push(p);
        k -= 1;
    }
    parts
}

fn slice_all(v: &Vec<char>) -> (r: Vec<char>)
    ensures
        r@ == v@,
{
    let mut r: Vec<char> = Vec::new();
    let mut i: usize = 0;
    while i < v.len()
        invariant
            i <= v@.len(),
            r@ == v@.take(i as int),
        decreases v@.len() - i,
    {
        r.push(v[i]);
        proof {
            assert(r@ =~= v@.take(i + 1));
        }
        i += 1;
    }
    proof {
        assert(v@.take(i as int) =~= v@);
    }
    r
}

/// The last `d` components of a path (given by its components), joined with `/`.
fn trunc_exec(parts: &Vec<Vec<char>>, d: usize) -> (r: Vec<char>)
    requires
        parts@.len() >= 1,
    ensures
        r@ == join_slash(
            Seq::new(parts@.len() as nat, |k: int| parts@[k]@).skip(
                if d >= parts@.len() {
                    0
                } else {
                    parts@.len() - d
                },
            ),
        ),
{
    let ghost pv = Seq::new(parts@.len() as nat, |k: int| parts@[k]@);
    let from = if d >= parts.len() { 0 } else { parts.len() - d };
    let ghost tail = pv.skip(from as int);
    let mut r: Vec<char> = Vec::new();
    let mut k: usize = from;
    proof {
        assert(tail.take(0) =~= Seq::<Seq<char>>::empty());
    }
    while k < parts.len()
        invariant
            from <= k <= parts@.len(),
            pv == Seq::new(parts@.len() as nat, |x: int| parts@[x]@),
            tail == pv.skip(from as int),
            r@ == join_slash(tail.take(k - from)),
        decreases parts@.len() - k,
    {
        let ghost before = r@;
        if k > from {
            r.push('/');
        }
        let part = &parts[k];
        let mut t: usize = 0;
        let ghost mid = r@;
        while t < part.len()
            invariant
                t <= part@.len(),
                r@ == mid + part@.take(t as int),
            decreases part@.len() - t,
        {
            r.push(part[t]);
            proof {
                assert(r@ =~= mid + part@.take(t + 1));
            }
            t += 1;
        }
        proof {
            assert(part@.take(t as int) =~= part@);
            let tk = tail.take(k + 1 - from);
            assert(tk.drop_last() =~= tail.take(k - from));
            assert(tk.last() == part@);
            if k > from {
                assert(r@ =~= before + seq!['/'] + part@);
            } else {
                assert(tk =~= seq![part@]);
                assert(r@ =~= part@);
            }
        }
        k += 1;
    }
    proof {
        assert(tail.take(k - from) =~= tail);
    }
    r
}

/// Each path shortened to the fewest trailing components that tell it apart from
/// every other path (or kept whole).
pub fn get_unique_paths(paths: &Vec<String>) -> (r: Vec<String>)
    ensures
        r@.len() == paths@.len(),
        forall|i: int| 0 <= i < paths@.len() ==> (#[trigger] r@[i])@ == short_path(
            Seq::new(paths@.len() as nat, |k: int| paths@[k]@),
            i,
        ),
{
    let ghost ps = Seq::new(paths@.len() as nat, |k: int| paths@[k]@);
    let mut comps: Vec<Vec<Vec<char>>> = Vec::new();
    let mut i: usize = 0;
    while i < paths.len()
        invariant
            i <= paths@.len(),
            ps == Seq::new(paths@.len() as nat, |k: int| paths@[k]@),
            comps@.len() == i,
            forall|k: int|
                0 <= k < i ==> (#[trigger] comps@[k])@.len() == split_slash(ps[k]).len() && forall|x: int|
                    0 <= x < comps@[k]@.len() ==> (#[trigger] comps@[k]@[x])@ == split_slash(ps[k])[x],
        decreases paths@.len() - i,
    {
        let cv = chars_of(paths[i].as_str());
        let parts = split_exec(&cv);
        comps.push(parts);
        i += 1;
    }
    let mut out: Vec<String> = Vec::new();
    let mut i: usize = 0;
    while i < paths.len()
        invariant
            i <= paths@.len(),
            comps@.len() == paths@.len(),
            ps == Seq::new(paths@.len() as nat, |k: int| paths@[k]@),
            forall|k: int|
                0 <= k < paths@.len() ==> (#[trigger] comps@[k])@.len() == split_slash(ps[k]).len() && forall|x: int|
                    0 <= x < comps@[k]@.len() ==> (#[trigger] comps@[k]@[x])@ == split_slash(ps[k])[x],
            out@.len() == i,
            forall|k: int| 0 <= k < i ==> (#[trigger] out@[k])@ == short_path(ps, k),
        decreases paths@.len() - i,
    {
        proof {
            lemma_split_nonempty(ps[i as int]);
        }
        let n = comps[i].len();
        let mut depth: usize = 1;
        let mut result: Vec<char> = Vec::new();
        loop
            invariant
                1 <= depth <= n,
                n == split_slash(ps[i as int]).len(),
                i < paths@.len(),
                comps@.len() == paths@.len(),
                ps == Seq::new(paths@.len() as nat, |k: int| paths@[k]@),
                forall|k: int|
                    0 <= k < paths@.len() ==> (#[trigger] comps@[k])@.len() == split_slash(ps[k]).len() && forall|x: int|
                        0 <= x < comps@[k]@.len() ==> (#[trigger] comps@[k]@[x])@ == split_slash(ps[k])[x],
                depth_from(ps, i as int, 1) == depth_from(ps, i as int, depth as int),
            ensures
                result@ == short_path(ps, i as int),
            decreases n - depth,
        {
            let mine = trunc_exec(&comps[i], depth);
            proof {
                assert(Seq::new(comps@[i as int]@.len() as nat, |k: int| comps@[i as int]@[k]@) =~= split_slash(ps[i as int]));
                assert(mine@ == trunc(ps[i as int], depth as int));
            }
            let mut unique = true;
            let mut j: usize = 0;
            while j < paths.len()
                invariant
                    j <= paths@.len(),
                    i < paths@.len(),
                    comps@.len() == paths@.len(),
                    ps == Seq::new(paths@.len() as nat, |k: int| paths@[k]@),
                    forall|k: int|
                        0 <= k < paths@.len() ==> (#[trigger] comps@[k])@.len() == split_slash(ps[k]).len() && forall|x: int|
                            0 <= x < comps@[k]@.len() ==> (#[trigger] comps@[k]@[x])@ == split_slash(ps[k])[x],
                    mine@ == trunc(ps[i as int], depth as int),
                    unique == (forall|k: int| 0 <= k < j && k != i ==> trunc(ps[k], depth as int) != trunc(ps[i as int], depth as int)),
                decreases paths@.len() - j,
            {
                if j != i {
                    proof {
                        lemma_split_nonempty(ps[j as int]);
                    }
                    let other = trunc_exec(&comps[j], depth);
                    proof {
                        assert(Seq::new(comps@[j as int]@.len() as nat, |k: int| comps@[j as int]@[k]@) =~= split_slash(ps[j as int]));
                        assert(other@ == trunc(ps[j as int], depth as int));
                    }
                    if chars_eq(other.as_slice(), mine.as_slice()) {
                        unique = false;
                    }
                }
                j += 1;
            }
            if unique || depth >= n {
                proof {
                    assert(unique == unique_at(ps, i as int, depth as int));
                }
                result = mine;
                break;
            }
            proof {
                assert(!unique_at(ps, i as int, depth as int));
            }
            depth += 1;
        }
        out.push(string_of(result.as_slice()));
        i += 1;
    }
    out
}

/// The open buffers, of type `B`: the one selected, how far the bufferline is
/// scrolled, and each buffer's shortened path.
pub struct Buffers<B> {
    pub selected_buffer: usize,
    pub tab_scroll: usize,
    pub buffers: Vec<B>,
    pub buffer_paths: Vec<String>,
}

/// `x` clamped to `[lo, hi]`.
pub open spec fn clamp(x: int, lo: int, hi: int) -> int {
    if x < lo {
        lo
    } else if x > hi {
        hi
    } else {
        x
    }
}

/// `a + d` within `[0, usize::MAX]`.
pub open spec fn sat_add_signed(a: int, d: int) -> int {
    clamp(a + d, 0, usize::MAX as int)
}

impl<B> Buffers<B> {
    /// No buffer yet, the first selected, no scroll.
    pub fn new() -> (r: Buffers<B>)
        ensures
            r.selected_buffer == 0,
            r.tab_scroll == 0,
            r.buffers@.len() == 0,
            r.buffer_paths@.len() == 0,
    {
        Buffers { selected_buffer: 0, tab_scroll: 0, buffers: Vec::new(), buffer_paths: Vec::new() }
    }

    /// Moves the selection by `dist` buffers, staying within the list.
    pub fn change_buffer(&mut self, dist: isize)
        requires
            old(self).buffers@.len() > 0,
        ensures
            final(self).selected_buffer == clamp(
                sat_add_signed(old(self).selected_buffer as int, dist as int),
                0,
                old(self).buffers@.len() - 1,
            ),
            final(self).buffers == old(self).buffers,
            final(self).buffer_paths == old(self).buffer_paths,
            final(self).tab_scroll == old(self).tab_scroll,
    {
        let moved: usize = if dist >= 0 {
            let d = dist as usize;
            if self.selected_buffer > usize::MAX - d { usize::MAX } else { self.selected_buffer + d }
        } else {
            let d = (0 - (dist as i128)) as usize;
            if self.selected_buffer < d { 0 } else { self.selected_buffer - d }
        };
        let last = self.buffers.len() - 1;
        self.selected_buffer = if moved > last { last } else { moved };
    }

    /// Selects buffer `id`, or the last one where there are fewer.
    pub fn set_selected_buffer(&mut self, id: usize)
        requires
            old(self).buffers@.len() > 0,
        ensures
            final(self).selected_buffer == clamp(id as int, 0, old(self).buffers@.len() - 1),
            final(self).buffers == old(self).buffers,
            final(self).buffer_paths == old(self).buffer_paths,
            final(self).tab_scroll == old(self).tab_scroll,
    {
        let last = self.buffers.len() - 1;
        self.selected_buffer = if id > last { last } else { id };
    }

    /// Closes buffer `idx` and hands it back; where none is left, `scratch` takes its
    /// place. The selection stays within the list.
    pub fn close_buffer(&mut self, idx: usize, scratch: B) -> (removed: B)
        requires
            idx < old(self).buffers@.len(),
        ensures
            removed == old(self).buffers@[idx as int],
            final(self).buffers@ == if old(self).buffers@.len() == 1 {
                seq![scratch]
            } else {
                old(self).buffers@.remove(idx as int)
            },
            final(self).selected_buffer == clamp(old(self).selected_buffer as int, 0, final(self).buffers@.len() - 1),
            final(self).buffer_paths == old(self).buffer_paths,
            final(self).tab_scroll == old(self).tab_scroll,
    {
        let removed = self.buffers.remove(idx);
        if self.buffers.len() == 0 {
            self.buffers.push(scratch);
        }
        self.change_buffer(0);
        removed
    }

    /// Adds a buffer at the end and selects it; its index.
    pub fn push_buffer(&mut self, b: B) -> (id: usize)
        requires
            old(self).buffers@.len() < usize::MAX,
        ensures
            final(self).buffers@ == old(self).buffers@.push(b),
            id == old(self).buffers@.len(),
            final(self).selected_buffer == id,
            final(self).buffer_paths == old(self).buffer_paths,
            final(self).tab_scroll == old(self).tab_scroll,
    {
        self.buffers.push(b);
        let id = self.buffers.len() - 1;
        self.set_selected_buffer(id);
        id
    }

    /// The shortened path of buffer `idx`, if it has one.
    pub fn unique_path_of(&self, idx: usize) -> (r: Option<String>)
        ensures
            match r {
                Some(p) => idx < self.buffer_paths@.len() && p@ == self.buffer_paths@[idx as int]@,
                None => idx >= self.buffer_paths@.len(),
            },
    {
        if idx < self.buffer_paths.len() {
            Some(self.buffer_paths[idx].clone())
        } else {
            None
        }
    }

    /// Sets the shortened paths from the buffers' titles.
    pub fn update_paths(&mut self, titles: &Vec<String>)
        ensures
            final(self).buffer_paths@.len() == titles@.len(),
            forall|i: int|
                0 <= i < titles@.len() ==> (#[trigger] final(self).buffer_paths@[i])@ == short_path(
                    Seq::new(titles@.len() as nat, |k: int| titles@[k]@),
                    i,
                ),
            final(self).buffers == old(self).buffers,
            final(self).selected_buffer == old(self).selected_buffer,
            final(self).tab_scroll == old(self).tab_scroll,
    {
        self.buffer_paths = get_unique_paths(titles);
    }
}

/// The sum of the first `n` widths.
pub open spec fn sum_widths(ws: Seq<int>, n: int) -> int
    decreases n,
{
    if n <= 0 {
        0
    } else {
        sum_widths(ws, n - 1) + ws[n - 1]
    }
}

/// The bufferline's scroll that shows the selected tab: scrolled right until the tab
/// ends in view, left to its start when it starts before the view, none when all tabs
/// fit, and never past the last tab.
pub open spec fn next_tab_scroll(ws: Seq<int>, sel: int, ts: int, vw: int) -> int {
    let start = sum_widths(ws, sel);
    let end = start + ws[sel];
    let ts1 = if end > ts + vw {
        if end > vw {
            end - vw
        } else {
            0
        }
    } else {
        ts
    };
    let ts2 = if start < ts {
        start
    } else {
        ts1
    };
    let total = sum_widths(ws, ws.len() as int);
    if total < vw {
        0
    } else if ts2 < total - vw {
        ts2
    } else {
        total - vw
    }
}

/// The width of a tab: its path's display width and six cells of padding.
pub open spec fn tab_widths(paths: Seq<String>) -> Seq<int> {
    Seq::new(paths.len(), |i: int| str_width(paths[i]@) as int + 6)
}

proof fn lemma_sum_widths_nonneg(ws: Seq<int>, a: int)
    requires
        0 <= a <= ws.len(),
        forall|i: int| 0 <= i < ws.len() ==> ws[i] >= 0,
    ensures
        0 <= sum_widths(ws, a),
    decreases a,
{
    if a > 0 {
        lemma_sum_widths_nonneg(ws, a - 1);
    }
}

proof fn lemma_sum_widths_mono(ws: Seq<int>, a: int, b: int)
    requires
        0 <= a <= b <= ws.len(),
        forall|i: int| 0 <= i < ws.len() ==> ws[i] >= 0,
    ensures
        0 <= sum_widths(ws, a) <= sum_widths(ws, b),
    decreases b,
{
    if b > a {
        lemma_sum_widths_mono(ws, a, b - 1);
    } else {
        lemma_sum_widths_nonneg(ws, a);
    }
}

/// Tabs that start at or past the view's right edge show nothing.
proof fn lemma_parts_past_view(
    paths: Seq<Seq<char>>,
    dirty: Seq<bool>,
    disp: Seq<usize>,
    active: int,
    ts: int,
    w: int,
    k: int,
    off: int,
)
    requires
        off >= ts + w,
    ensures
        tab_parts(paths, dirty, disp, active, ts, w, k, off) == Seq::<(usize, Seq<char>, bool)>::empty(),
    decreases disp.len() - k,
{
    if k < disp.len() && k >= 0 {
        let g = disp[k] as int;
        if g >= paths.len() || g >= dirty.len() {
            lemma_parts_past_view(paths, dirty, disp, active, ts, w, k + 1, off);
        } else {
            let t = tab_title(paths[g], dirty[g]);
            lemma_parts_past_view(paths, dirty, disp, active, ts, w, k + 1, off + t.len());
        }
    }
}

/// The text of a tab: its path and a `*` when its buffer has unsaved changes.
pub open spec fn tab_title(path: Seq<char>, dirty: bool) -> Seq<char> {
    "   "@ + path + " "@ + (if dirty {
        "*"@
    } else {
        " "@
    }) + " "@
}

/// The parts of the tabs `disp[k..]` that the bufferline shows, the first tab starting
/// at column `off`: each one's column in the view, its visible text, and whether it is
/// the active one. A tab whose buffer has no path or no state is left out.
pub open spec fn tab_parts(
    paths: Seq<Seq<char>>,
    dirty: Seq<bool>,
    disp: Seq<usize>,
    active: int,
    ts: int,
    w: int,
    k: int,
    off: int,
) -> Seq<(usize, Seq<char>, bool)>
    decreases disp.len() - k,
{
    if k >= disp.len() || k < 0 {
        seq![]
    } else {
        let g = disp[k] as int;
        if g >= paths.len() || g >= dirty.len() {
            tab_parts(paths, dirty, disp, active, ts, w, k + 1, off)
        } else {
            let t = tab_title(paths[g], dirty[g]);
            let tw = t.len() as int;
            let os = if ts > off {
                ts
            } else {
                off
            };
            let oe = if ts + w < off + tw {
                ts + w
            } else {
                off + tw
            };
            (if os < oe {
                seq![((os - ts) as usize, t.subrange(os - off, oe - off), k == active)]
            } else {
                seq![]
            }) + tab_parts(paths, dirty, disp, active, ts, w, k + 1, off + tw)
        }
    }
}

impl<B> Buffers<B> {
    /// Scrolls the bufferline, `view_width` wide, to show the selected tab (no change
    /// in the unlikely case that the tabs are wider in all than a `usize` counts).
    pub fn update_bufferline_scroll(&mut self, view_width: usize)
        requires
            old(self).buffers@.len() > 0 ==> old(self).selected_buffer < old(self).buffer_paths@.len(),
        ensures
            old(self).buffers@.len() == 0 ==> final(self).tab_scroll == 0,
            old(self).buffers@.len() > 0 && sum_widths(tab_widths(old(self).buffer_paths@), old(self).buffer_paths@.len() as int) <= usize::MAX
                ==> final(self).tab_scroll == next_tab_scroll(
                tab_widths(old(self).buffer_paths@),
                old(self).selected_buffer as int,
                old(self).tab_scroll as int,
                view_width as int,
            ),
            old(self).buffers@.len() > 0 && sum_widths(tab_widths(old(self).buffer_paths@), old(self).buffer_paths@.len() as int) > usize::MAX
                ==> final(self).tab_scroll == old(self).tab_scroll,
            final(self).buffers == old(self).buffers,
            final(self).buffer_paths == old(self).buffer_paths,
            final(self).selected_buffer == old(self).selected_buffer,
    {
        if self.buffers.len() == 0 {
            self.tab_scroll = 0;
            return;
        }
        let ghost ws = tab_widths(self.buffer_paths@);
        let n = self.buffer_paths.len();
        let sel = self.selected_buffer;
        let mut total: u128 = 0;
        let mut start: u128 = 0;
        let mut i: usize = 0;
        while i < n
            invariant
                i <= n,
                self.buffers@.len() > 0,
                self.buffers == old(self).buffers,
                self.buffer_paths == old(self).buffer_paths,
                self.selected_buffer == old(self).selected_buffer,
                self.tab_scroll == old(self).tab_scroll,
                n == self.buffer_paths@.len(),
                sel < n,
                ws == tab_widths(self.buffer_paths@),
                total == sum_widths(ws, i as int),
                total <= usize::MAX,
                i > sel ==> start == sum_widths(ws, sel as int),
            decreases n - i,
        {
            let w = width_of(self.buffer_paths[i].as_str()) as u128 + 6;
            if i == sel {
                start = total;
            }
            total = total + w;
            if total > usize::MAX as u128 {
                proof {
                    assert(total == sum_widths(ws, i + 1));
                    assert forall|x: int| 0 <= x < ws.len() implies ws[x] >= 0 by {}
                    lemma_sum_widths_mono(ws, i + 1, n as int);
                }
                return;
            }
            i += 1;
        }
        proof {
            assert forall|x: int| 0 <= x < ws.len() implies ws[x] >= 0 by {}
            lemma_sum_widths_mono(ws, sel + 1, n as int);
            lemma_sum_widths_mono(ws, sel as int, n as int);
        }
        let end = start + width_of(self.buffer_paths[sel].as_str()) as u128 + 6;
        let vw = view_width as u128;
        let ts = self.tab_scroll as u128;
        let ts1 = if end > ts + vw {
            if end > vw { end - vw } else { 0 }
        } else {
            ts
        };
        let ts2 = if start < ts { start } else { ts1 };
        let r = if total < vw {
            0
        } else if ts2 < total - vw {
            ts2
        } else {
            total - vw
        };
        self.tab_scroll = r as usize;
    }

    /// The parts of the tabs `displayed` (indices of buffers) that the bufferline shows,
    /// scrolled `tab_scroll` and `width` wide: each one's column in the view, its visible
    /// text, and whether it is the tab numbered `active` among those displayed.
    pub fn bufferline_parts(&self, dirty: &Vec<bool>, displayed: &Vec<usize>, active: usize, tab_scroll: usize, width: usize) -> (r: Vec<(usize, String, bool)>)
        ensures
            r@.len() == tab_parts(
                Seq::new(self.buffer_paths@.len(), |i: int| self.buffer_paths@[i]@),
                dirty@,
                displayed@,
                active as int,
                tab_scroll as int,
                width as int,
                0,
                0,
            ).len(),
            forall|j: int| 0 <= j < r@.len() ==> {
                let e = tab_parts(
                    Seq::new(self.buffer_paths@.len(), |i: int| self.buffer_paths@[i]@),
                    dirty@,
                    displayed@,
                    active as int,
                    tab_scroll as int,
                    width as int,
                    0,
                    0,
                )[j];
                &&& (#[trigger] r@[j]).0 == e.0
                &&& r@[j].1@ == e.1
                &&& r@[j].2 == e.2
            },
    {
        let ghost pv = Seq::new(self.buffer_paths@.len(), |i: int| self.buffer_paths@[i]@);
        let ghost whole = tab_parts(pv, dirty@, displayed@, active as int, tab_scroll as int, width as int, 0, 0);
        let ghost done: Seq<(usize, Seq<char>, bool)> = seq![];
        let mut out: Vec<(usize, String, bool)> = Vec::new();
        let mut off: u128 = 0;
        let mut k: usize = 0;
        let ts = tab_scroll as u128;
        let vend = tab_scroll as u128 + width as u128;
        while k < displayed.len()
            invariant
                k <= displayed@.len(),
                pv == Seq::new(self.buffer_paths@.len(), |i: int| self.buffer_paths@[i]@),
                ts == tab_scroll,
                vend == tab_scroll + width,
                off <= vend + usize::MAX + 6,
                whole == done + tab_parts(pv, dirty@, displayed@, active as int, tab_scroll as int, width as int, k as int, off as int),
                out@.len() == done.len(),
                forall|j: int| 0 <= j < out@.len() ==> {
                    &&& (#[trigger] out@[j]).0 == done[j].0
                    &&& out@[j].1@ == done[j].1
                    &&& out@[j].2 == done[j].2
                },
            ensures
                whole == done,
                out@.len() == done.len(),
                forall|j: int| 0 <= j < out@.len() ==> {
                    &&& (#[trigger] out@[j]).0 == done[j].0
                    &&& out@[j].1@ == done[j].1
                    &&& out@[j].2 == done[j].2
                },
            decreases displayed@.len() - k,
        {
            if off >= vend {
                proof {
                    lemma_parts_past_view(pv, dirty@, displayed@, active as int, tab_scroll as int, width as int, k as int, off as int);
                    assert(whole =~= done);
                    done = whole;
                }
                break;
            }
            let g = displayed[k];
            if g >= self.buffer_paths.len() || g >= dirty.len() {
                k += 1;
                continue;
            }
            let mut t = owned("   ");
            append_str(&mut t, self.buffer_paths[g].as_str());
            append_str(&mut t, " ");
            if dirty[g] {
                append_str(&mut t, "*");
            } else {
                append_str(&mut t, " ");
            }
            append_str(&mut t, " ");
            let tc = chars_of(t.as_str());
            proof {
                assert(tc@ =~= tab_title(pv[g as int], dirty@[g as int]));
                assert(tc.len() == tc@.len());
            }
            let tw = tc.len() as u128;
            let os = if ts > off { ts } else { off };
            let oe = if vend < off + tw { vend } else { off + tw };
            let ghost item: Seq<(usize, Seq<char>, bool)> = if os < oe {
                seq![((os - ts) as usize, tc@.subrange(os - off, oe - off), k == active)]
            } else {
                seq![]
            };
            if os < oe {
                let vis = crate::line_render::slice_chars(&tc, (os - off) as usize, (oe - off) as usize);
                out.push(((os - ts) as usize, string_of(vis.as_slice()), k == active));
            }
            proof {
                assert(whole == (done + item) + tab_parts(pv, dirty@, displayed@, active as int, tab_scroll as int, width as int, k + 1, off + tw));
                done = done + item;
            }
            off = off + tw;
            k += 1;
        }
        out
    }
}

} // verus!
