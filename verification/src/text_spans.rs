//! Splitting text as `str` does: into lines, around whitespace, and trimming it.
//!
//! The functions work on spans `start..end` of a vector of chars and state their
//! results over the char sequence, as `str::lines`, `str::trim` and
//! `str::split_whitespace` define them (whitespace being `char::is_whitespace`).

use vstd::prelude::*;
use crate::indent::{char_is_whitespace, is_ws};

verus! {

/// The index of the first `c` in `s`, or its length.
pub open spec fn find_char(s: Seq<char>, c: char) -> int
    decreases s.len(),
{
    if s.len() == 0 {
        0
    } else if s[0] == c {
        0
    } else {
        1 + find_char(s.drop_first(), c)
    }
}

/// A line without the `\r` of a `\r\n` ending.
pub open spec fn strip_cr(l: Seq<char>) -> Seq<char> {
    if l.len() > 0 && l.last() == '\r' {
        l.drop_last()
    } else {
        l
    }
}

/// The lines of `s` as `str::lines` yields them: split at `\n`, a `\r` before it
/// dropped, and no empty line after a final `\n`.
pub open spec fn std_lines(s: Seq<char>) -> Seq<Seq<char>>
    decreases s.len(),
{
    if s.len() == 0 {
        seq![]
    } else {
        proof {
            lemma_find_char_bounds(s, '\n');
        }
        let k = find_char(s, '\n');
        if k >= s.len() {
            seq![s]
        } else {
            seq![strip_cr(s.take(k))] + std_lines(s.skip(k + 1))
        }
    }
}

/// `s` without its leading whitespace.
pub open spec fn trim_start(s: Seq<char>) -> Seq<char>
    decreases s.len(),
{
    if s.len() > 0 && is_ws(s[0]) {
        trim_start(s.drop_first())
    } else {
        s
    }
}

/// `s` without its trailing whitespace.
pub open spec fn trim_end(s: Seq<char>) -> Seq<char>
    decreases s.len(),
{
    if s.len() > 0 && is_ws(s.last()) {
        trim_end(s.drop_last())
    } else {
        s
    }
}

/// `s` without leading or trailing whitespace.
pub open spec fn trim(s: Seq<char>) -> Seq<char> {
    trim_end(trim_start(s))
}

/// The index of the first whitespace char in `s`, or its length.
pub open spec fn find_ws(s: Seq<char>) -> int
    decreases s.len(),
{
    if s.len() == 0 {
        0
    } else if is_ws(s[0]) {
        0
    } else {
        1 + find_ws(s.drop_first())
    }
}

/// The words of `s` as `str::split_whitespace` yields them.
pub open spec fn words(s: Seq<char>) -> Seq<Seq<char>>
    decreases s.len(),
{
    let t = trim_start(s);
    if t.len() == 0 {
        seq![]
    } else {
        proof {
            lemma_trim_start_len(s);
        }
        let k = find_ws(t);
        if k <= 0 || k > t.len() {
            seq![t]
        } else {
            seq![t.take(k)] + words(t.skip(k))
        }
    }
}

pub proof fn lemma_find_char_bounds(s: Seq<char>, c: char)
    ensures
        0 <= find_char(s, c) <= s.len(),
        find_char(s, c) < s.len() ==> s[find_char(s, c)] == c,
        forall|j: int| 0 <= j < find_char(s, c) ==> s[j] != c,
    decreases s.len(),
{
    if s.len() > 0 && s[0] != c {
        lemma_find_char_bounds(s.drop_first(), c);
        assert forall|j: int| 0 <= j < find_char(s, c) implies s[j] != c by {
            if j > 0 {
                assert(s[j] == s.drop_first()[j - 1]);
            }
        }
    }
}

pub proof fn lemma_trim_start_len(s: Seq<char>)
    ensures
        trim_start(s).len() <= s.len(),
        trim_start(s) == s.skip(s.len() - trim_start(s).len()),
    decreases s.len(),
{
    if s.len() > 0 && is_ws(s[0]) {
        lemma_trim_start_len(s.drop_first());
        assert(s.drop_first().skip(s.drop_first().len() - trim_start(s.drop_first()).len()) =~= s.skip(
            s.len() - trim_start(s).len(),
        ));
    } else {
        assert(s.skip(0) =~= s);
    }
}

pub proof fn lemma_find_ws_bounds(s: Seq<char>)
    ensures
        0 <= find_ws(s) <= s.len(),
        find_ws(s) < s.len() ==> is_ws(s[find_ws(s)]),
        forall|j: int| 0 <= j < find_ws(s) ==> !is_ws(s[j]),
    decreases s.len(),
{
    if s.len() > 0 && !is_ws(s[0]) {
        lemma_find_ws_bounds(s.drop_first());
        assert forall|j: int| 0 <= j < find_ws(s) implies !is_ws(s[j]) by {
            if j > 0 {
                assert(s[j] == s.drop_first()[j - 1]);
            }
        }
    }
}

/// The first index from `start` on, before `end`, that holds `c` (`end` if none).
pub fn find_char_in(v: &Vec<char>, start: usize, end: usize, c: char) -> (r: usize)
    requires
        start <= end <= v@.len(),
    ensures
        start <= r <= end,
        r - start == find_char(v@.subrange(start as int, end as int), c),
{
    let mut i = start;
    while i < end
        invariant
            start <= i <= end,
            end <= v@.len(),
            find_char(v@.subrange(i as int, end as int), c) + (i - start) == find_char(
                v@.subrange(start as int, end as int),
                c,
            ),
        decreases end - i,
    {
        if v[i] == c {
            return i;
        }
        assert(v@.subrange(i as int, end as int).drop_first() =~= v@.subrange(i + 1, end as int));
        i += 1;
    }
    i
}

/// The span of `v[start..end]` with leading whitespace dropped.
pub fn trim_start_span(v: &Vec<char>, start: usize, end: usize) -> (r: usize)
    requires
        start <= end <= v@.len(),
    ensures
        start <= r <= end,
        trim_start(v@.subrange(start as int, end as int)) == v@.subrange(r as int, end as int),
        r < end ==> !is_ws(v@[r as int]),
{
    let mut i = start;
    while i < end && char_is_whitespace(v[i])
        invariant
            start <= i <= end,
            end <= v@.len(),
            trim_start(v@.subrange(start as int, end as int)) == trim_start(v@.subrange(i as int, end as int)),
        ensures
            start <= i <= end,
            trim_start(v@.subrange(start as int, end as int)) == trim_start(v@.subrange(i as int, end as int)),
            i < end ==> !is_ws(v@[i as int]),
        decreases end - i,
    {
        assert(v@.subrange(i as int, end as int).drop_first() =~= v@.subrange(i + 1, end as int));
        i += 1;
    }
    i
}

/// The span of `v[start..end]` with trailing whitespace dropped.
pub fn trim_end_span(v: &Vec<char>, start: usize, end: usize) -> (r: usize)
    requires
        start <= end <= v@.len(),
    ensures
        start <= r <= end,
        trim_end(v@.subrange(start as int, end as int)) == v@.subrange(start as int, r as int),
{
    let mut j = end;
    while j > start && char_is_whitespace(v[j - 1])
        invariant
            start <= j <= end,
            end <= v@.len(),
            trim_end(v@.subrange(start as int, end as int)) == trim_end(v@.subrange(start as int, j as int)),
        decreases j - start,
    {
        assert(v@.subrange(start as int, j as int).drop_last() =~= v@.subrange(start as int, j - 1));
        j -= 1;
    }
    j
}

/// The span of `v[start..end]` with leading and trailing whitespace dropped.
pub fn trim_span(v: &Vec<char>, start: usize, end: usize) -> (r: (usize, usize))
    requires
        start <= end <= v@.len(),
    ensures
        start <= r.0 <= r.1 <= end,
        trim(v@.subrange(start as int, end as int)) == v@.subrange(r.0 as int, r.1 as int),
{
    let a = trim_start_span(v, start, end);
    let b = trim_end_span(v, a, end);
    (a, b)
}

/// The spans of the lines of `v[start..end]`, as `str::lines` yields them.
pub fn line_spans(v: &Vec<char>) -> (r: Vec<(usize, usize)>)
    ensures
        r@.len() == std_lines(v@).len(),
        forall|i: int| 0 <= i < r@.len() ==> {
            let (a, b) = #[trigger] r@[i];
            a <= b <= v@.len() && v@.subrange(a as int, b as int) == std_lines(v@)[i]
        },
{
    let mut r: Vec<(usize, usize)> = Vec::new();
    let mut pos: usize = 0;
    let n = v.len();
    proof {
        assert(v@.skip(0) =~= v@);
    }
    while pos < n
        invariant
            pos <= n,
            n == v@.len(),
            forall|i: int| 0 <= i < r@.len() ==> (#[trigger] r@[i]).0 <= r@[i].1 <= v@.len(),
            r@.map_values(|p: (usize, usize)| v@.subrange(p.0 as int, p.1 as int)) + std_lines(v@.skip(pos as int))
                == std_lines(v@),
        decreases n - pos,
    {
        let k = find_char_in(v, pos, n, '\n');
        let ghost rest = v@.skip(pos as int);
        proof {
            assert(v@.subrange(pos as int, n as int) =~= rest);
            lemma_find_char_bounds(rest, '\n');
        }
        if k == n {
            r.push((pos, n));
            proof {
                assert(std_lines(rest) == seq![rest]);
                assert(v@.skip(n as int) =~= Seq::<char>::empty());
                assert(r@.map_values(|p: (usize, usize)| v@.subrange(p.0 as int, p.1 as int)) =~= r@.drop_last().map_values(
                    |p: (usize, usize)| v@.subrange(p.0 as int, p.1 as int),
                ).push(rest));
            }
            pos = n;
        } else {
            let end = if k > pos && v[k - 1] == '\r' {
                k - 1
            } else {
                k
            };
            r.push((pos, end));
            proof {
                let kk = (k - pos) as int;
                assert(rest.take(kk) =~= v@.subrange(pos as int, k as int));
                assert(strip_cr(rest.take(kk)) =~= v@.subrange(pos as int, end as int));
                assert(rest.skip(kk + 1) =~= v@.skip(k + 1));
                assert(r@.map_values(|p: (usize, usize)| v@.subrange(p.0 as int, p.1 as int)) =~= r@.drop_last().map_values(
                    |p: (usize, usize)| v@.subrange(p.0 as int, p.1 as int),
                ).push(v@.subrange(pos as int, end as int)));
            }
            pos = k + 1;
        }
    }
    proof {
        assert(v@.skip(pos as int) =~= Seq::<char>::empty());
        let f = r@.map_values(|p: (usize, usize)| v@.subrange(p.0 as int, p.1 as int));
        assert(f =~= std_lines(v@));
        assert forall|i: int| 0 <= i < r@.len() implies {
            let (a, b) = #[trigger] r@[i];
            a <= b <= v@.len() && v@.subrange(a as int, b as int) == std_lines(v@)[i]
        } by {
            assert(f[i] == v@.subrange(r@[i].0 as int, r@[i].1 as int));
        }
    }
    r
}

/// The spans of the words of `v[start..end]`, as `str::split_whitespace` yields them.
pub fn word_spans(v: &Vec<char>, start: usize, end: usize) -> (r: Vec<(usize, usize)>)
    requires
        start <= end <= v@.len(),
    ensures
        r@.map_values(|p: (usize, usize)| v@.subrange(p.0 as int, p.1 as int)) == words(
            v@.subrange(start as int, end as int),
        ),
        forall|i: int| 0 <= i < r@.len() ==> (#[trigger] r@[i]).0 <= r@[i].1 <= v@.len(),
{
    let mut r: Vec<(usize, usize)> = Vec::new();
    let mut pos = start;
    while pos < end
        invariant
            start <= pos <= end,
            end <= v@.len(),
            r@.map_values(|p: (usize, usize)| v@.subrange(p.0 as int, p.1 as int)) + words(
                v@.subrange(pos as int, end as int),
            ) == words(v@.subrange(start as int, end as int)),
            forall|i: int| 0 <= i < r@.len() ==> (#[trigger] r@[i]).0 <= r@[i].1 <= v@.len(),
        decreases end - pos,
    {
        let a = trim_start_span(v, pos, end);
        if a == end {
            proof {
                assert(v@.subrange(a as int, end as int) =~= Seq::<char>::empty());
                assert(words(v@.subrange(pos as int, end as int)) =~= Seq::<Seq<char>>::empty());
                assert(v@.subrange(end as int, end as int) =~= Seq::<char>::empty());
            }
            pos = end;
        } else {
            let mut b = a;
            while b < end && !char_is_whitespace(v[b])
                invariant
                    a <= b <= end,
                    end <= v@.len(),
                    forall|j: int| a <= j < b ==> !is_ws(v@[j]),
                decreases end - b,
            {
                b += 1;
            }
            proof {
                let t = v@.subrange(a as int, end as int);
                lemma_find_ws_bounds(t);
                let k = find_ws(t);
                assert(!is_ws(t[0]));
                if k < b - a {
                    assert(is_ws(t[k]));
                    assert(t[k] == v@[a + k]);
                }
                if k > b - a {
                    assert(t[b - a] == v@[b as int]);
                    assert(b < end);
                }
                assert(k == b - a);
                assert(t.take(k) =~= v@.subrange(a as int, b as int));
                assert(t.skip(k) =~= v@.subrange(b as int, end as int));
            }
            r.push((a, b));
            proof {
                assert(r@.map_values(|p: (usize, usize)| v@.subrange(p.0 as int, p.1 as int)) =~= r@.drop_last().map_values(
                    |p: (usize, usize)| v@.subrange(p.0 as int, p.1 as int),
                ).push(v@.subrange(a as int, b as int)));
            }
            pos = b;
        }
    }
    proof {
        assert(v@.subrange(pos as int, end as int) =~= Seq::<char>::empty());
        assert(words(v@.subrange(pos as int, end as int)) =~= Seq::<Seq<char>>::empty());
    }
    r
}

} // verus!
