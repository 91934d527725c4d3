//! Fuzzy ranking of names against a search term, and highlighting of the matched
//! characters.

use vstd::prelude::*;
use crate::text::{chars_of, push_char};

verus! {

/// What `str::to_lowercase` makes of a string.
pub uninterp spec fn lowercase(s: Seq<char>) -> Seq<char>;

/// `str::to_lowercase`: the lowercase equivalent of `s`. Each character maps to one
/// or more characters, so the result is never shorter than `s`; the mapping itself
/// (Unicode's lowercase tables) is left unstated.
#[verifier::external_body]
pub(crate) fn to_lower(s: &str) -> (r: String)
    ensures
        r@ == lowercase(s@),
        r@.len() >= s@.len(),
{
    s.to_lowercase()
}

/// Greedy in-order matching of `r[i..]` against `t[k..]`: the score sums the gaps
/// between consecutive matched characters (and before the first); `None` when `r`
/// is not matched completely.
pub open spec fn rank_scan(r: Seq<char>, t: Seq<char>, k: int, i: int, score: int, dist: int) -> Option<
    int,
>
    decreases t.len() - k,
{
    if k < 0 || k >= t.len() || i < 0 || i >= r.len() {
        if i >= r.len() {
            Some(score)
        } else {
            None
        }
    } else if t[k] == r[i] {
        if i + 1 >= r.len() {
            Some(score + dist)
        } else {
            rank_scan(r, t, k + 1, i + 1, score + dist, 0)
        }
    } else {
        rank_scan(r, t, k + 1, i, score, dist + 1)
    }
}

/// The rank of already lowercased `text` against lowercased `ranker`.
pub open spec fn rank_of(ranker: Seq<char>, text: Seq<char>) -> Option<int> {
    rank_scan(ranker, text, 0, 0, 0, 0)
}

proof fn lemma_rank_scan_bound(r: Seq<char>, t: Seq<char>, k: int, i: int, score: int, dist: int)
    requires
        0 <= k <= t.len(),
        0 <= i,
        0 <= score,
        0 <= dist,
        score + dist <= k,
    ensures
        rank_scan(r, t, k, i, score, dist) matches Some(s) ==> 0 <= s <= t.len(),
    decreases t.len() - k,
{
    if k < t.len() && i < r.len() {
        if t[k] == r[i] {
            if i + 1 < r.len() {
                lemma_rank_scan_bound(r, t, k + 1, i + 1, score + dist, 0);
            }
        } else {
            lemma_rank_scan_bound(r, t, k + 1, i, score, dist + 1);
        }
    }
}

/// The result a rank comes out as: the score when it fits an `i32`, else nothing.
pub open spec fn rank_result(s: Option<int>) -> Option<i32> {
    match s {
        Some(x) => if x <= i32::MAX {
            Some(x as i32)
        } else {
            None
        },
        None => None,
    }
}

proof fn lemma_scan_append(r: Seq<char>, t: Seq<char>, u: Seq<char>, k: int, i: int, score: int, dist: int)
    requires
        0 <= k,
        0 <= i,
        rank_scan(r, t, k, i, score, dist) is Some,
    ensures
        rank_scan(r, t + u, k, i, score, dist) == rank_scan(r, t, k, i, score, dist),
    decreases t.len() - k,
{
    if k < t.len() && i < r.len() {
        assert((t + u)[k] == t[k]);
        if t[k] == r[i] {
            if i + 1 < r.len() {
                lemma_scan_append(r, t, u, k + 1, i + 1, score + dist, 0);
            }
        } else {
            lemma_scan_append(r, t, u, k + 1, i, score, dist + 1);
        }
    }
}

/// Text after the last matched character does not count: once the ranker is matched
/// in `t`, appending anything to `t` leaves the rank as it was.
pub proof fn lemma_rank_ignores_tail(ranker: Seq<char>, t: Seq<char>, u: Seq<char>)
    requires
        rank_of(ranker, t) is Some,
    ensures
        rank_of(ranker, t + u) == rank_of(ranker, t),
{
    lemma_scan_append(ranker, t, u, 0, 0, 0, 0);
}

proof fn lemma_scan_exact(r: Seq<char>, k: int)
    requires
        0 <= k < r.len(),
    ensures
        rank_scan(r, r, k, k, 0, 0) == Some(0int),
    decreases r.len() - k,
{
    if k + 1 < r.len() {
        lemma_scan_exact(r, k + 1);
    }
}

/// Text that is the ranker itself ranks best, with score `0`.
pub proof fn lemma_rank_exact(ranker: Seq<char>)
    requires
        ranker.len() > 0,
    ensures
        rank_of(ranker, ranker) == Some(0int),
{
    lemma_scan_exact(ranker, 0);
}

proof fn lemma_scan_offset(r: Seq<char>, t: Seq<char>, k: int, i: int, s1: int, d1: int, s2: int, d2: int)
    requires
        0 <= k,
        0 <= i < r.len(),
    ensures
        match (rank_scan(r, t, k, i, s1, d1), rank_scan(r, t, k, i, s2, d2)) {
            (Some(a), Some(b)) => b - a == (s2 + d2) - (s1 + d1),
            (None, None) => true,
            _ => false,
        },
    decreases t.len() - k,
{
    if k < t.len() {
        if t[k] == r[i] {
            if i + 1 < r.len() {
                lemma_scan_offset(r, t, k + 1, i + 1, s1 + d1, 0, s2 + d2, 0);
            }
        } else {
            lemma_scan_offset(r, t, k + 1, i, s1, d1 + 1, s2, d2 + 1);
        }
    }
}

proof fn lemma_scan_shift(r: Seq<char>, u: Seq<char>, t: Seq<char>, k: int, i: int, score: int, dist: int)
    requires
        0 <= k,
        0 <= i,
    ensures
        rank_scan(r, u + t, u.len() + k, i, score, dist) == rank_scan(r, t, k, i, score, dist),
    decreases t.len() - k,
{
    if k < t.len() && i < r.len() {
        assert((u + t)[u.len() + k] == t[k]);
        if t[k] == r[i] {
            if i + 1 < r.len() {
                lemma_scan_shift(r, u, t, k + 1, i + 1, score + dist, 0);
            }
        } else {
            lemma_scan_shift(r, u, t, k + 1, i, score, dist + 1);
        }
    }
}

proof fn lemma_scan_skip(r: Seq<char>, u: Seq<char>, t: Seq<char>, k: int)
    requires
        r.len() > 0,
        0 <= k <= u.len(),
        forall|j: int| 0 <= j < u.len() ==> u[j] != r[0],
    ensures
        rank_scan(r, u + t, k, 0, 0, k) == rank_scan(r, u + t, u.len() as int, 0, 0, u.len() as int),
    decreases u.len() - k,
{
    if k < u.len() {
        assert((u + t)[k] == u[k]);
        lemma_scan_skip(r, u, t, k + 1);
    }
}

/// Each character skipped before the first match costs one: putting characters that
/// are not the ranker's first in front of the text adds their number to the score,
/// and a text that does not rank stays unranked.
pub proof fn lemma_rank_skipped_prefix(ranker: Seq<char>, u: Seq<char>, t: Seq<char>)
    requires
        ranker.len() > 0,
        forall|j: int| 0 <= j < u.len() ==> u[j] != ranker[0],
    ensures
        match (rank_of(ranker, u + t), rank_of(ranker, t)) {
            (Some(a), Some(b)) => a == b + u.len(),
            (None, None) => true,
            _ => false,
        },
{
    lemma_scan_skip(ranker, u, t, 0);
    lemma_scan_shift(ranker, u, t, 0, 0, 0, u.len() as int);
    lemma_scan_offset(ranker, t, 0, 0, 0, 0, 0, u.len() as int);
}

proof fn lemma_scan_missing(r: Seq<char>, t: Seq<char>, k: int, i: int, j: int, score: int, dist: int)
    requires
        0 <= k,
        0 <= i <= j < r.len(),
        !t.contains(r[j]),
    ensures
        rank_scan(r, t, k, i, score, dist) is None,
    decreases t.len() - k,
{
    if k < t.len() {
        if t[k] == r[i] {
            if i == j {
                assert(t.contains(r[j]));
            }
            lemma_scan_missing(r, t, k + 1, i + 1, j, score + dist, 0);
        } else {
            lemma_scan_missing(r, t, k + 1, i, j, score, dist + 1);
        }
    }
}

/// Text that lacks a character of the ranker does not rank.
pub proof fn lemma_rank_needs_every_char(ranker: Seq<char>, t: Seq<char>, j: int)
    requires
        0 <= j < ranker.len(),
        !t.contains(ranker[j]),
    ensures
        rank_of(ranker, t) is None,
{
    lemma_scan_missing(ranker, t, 0, 0, j, 0, 0);
}

/// `idx` places `r[i..]` in order among the chars of `t` from `k` on.
pub open spec fn embeds(r: Seq<char>, t: Seq<char>, i: int, k: int, idx: Seq<int>) -> bool {
    &&& idx.len() == r.len()
    &&& forall|q: int| i <= q < r.len() ==> k <= #[trigger] idx[q] < t.len() && t[idx[q]] == r[q]
    &&& forall|q1: int, q2: int| i <= q1 < q2 < r.len() ==> #[trigger] idx[q1] < #[trigger] idx[q2]
}

proof fn lemma_scan_complete(r: Seq<char>, t: Seq<char>, k: int, i: int, score: int, dist: int, idx: Seq<int>)
    requires
        0 <= k,
        0 <= i < r.len(),
        embeds(r, t, i, k, idx),
    ensures
        rank_scan(r, t, k, i, score, dist) is Some,
    decreases t.len() - k,
{
    assert(k <= idx[i] < t.len());
    if t[k] == r[i] {
        if i + 1 < r.len() {
            assert forall|q: int| i + 1 <= q < r.len() implies k + 1 <= #[trigger] idx[q] < t.len() && t[idx[q]] == r[q] by {
                assert(idx[i] < idx[q]);
            }
            lemma_scan_complete(r, t, k + 1, i + 1, score + dist, 0, idx);
        }
    } else {
        assert(idx[i] != k);
        assert forall|q: int| i <= q < r.len() implies k + 1 <= #[trigger] idx[q] < t.len() && t[idx[q]] == r[q] by {
            if q > i {
                assert(idx[i] < idx[q]);
            }
        }
        lemma_scan_complete(r, t, k + 1, i, score, dist + 1, idx);
    }
}

proof fn lemma_scan_sound(r: Seq<char>, t: Seq<char>, k: int, i: int, score: int, dist: int) -> (idx: Seq<int>)
    requires
        0 <= k,
        0 <= i < r.len(),
        rank_scan(r, t, k, i, score, dist) is Some,
    ensures
        embeds(r, t, i, k, idx),
    decreases t.len() - k,
{
    if t[k] == r[i] {
        if i + 1 < r.len() {
            let rest = lemma_scan_sound(r, t, k + 1, i + 1, score + dist, 0);
            let idx = rest.update(i, k);
            assert forall|q1: int, q2: int| i <= q1 < q2 < r.len() implies #[trigger] idx[q1] < #[trigger] idx[q2] by {
                if q1 > i {
                    assert(rest[q1] < rest[q2]);
                } else {
                    assert(k + 1 <= rest[q2]);
                }
            }
            idx
        } else {
            Seq::new(r.len(), |q: int| k)
        }
    } else {
        lemma_scan_sound(r, t, k + 1, i, score, dist + 1)
    }
}

/// A text ranks exactly when the ranker's characters occur in it in order.
pub proof fn lemma_rank_iff_in_order(ranker: Seq<char>, t: Seq<char>)
    requires
        ranker.len() > 0,
    ensures
        rank_of(ranker, t) is Some <==> exists|idx: Seq<int>| embeds(ranker, t, 0, 0, idx),
{
    if rank_of(ranker, t) is Some {
        let idx = lemma_scan_sound(ranker, t, 0, 0, 0, 0);
        assert(embeds(ranker, t, 0, 0, idx));
    }
    if exists|idx: Seq<int>| embeds(ranker, t, 0, 0, idx) {
        let idx = choose|idx: Seq<int>| embeds(ranker, t, 0, 0, idx);
        lemma_scan_complete(ranker, t, 0, 0, 0, 0, idx);
    }
}

/// Ranks lowercased `text` against lowercased `ranker` (lower is better).
pub fn rank_lowered(ranker: &[char], text: &[char]) -> (r: Option<i32>)
    requires
        ranker@.len() > 0,
    ensures
        r == rank_result(rank_of(ranker@, text@)),
{
    let mut score: usize = 0;
    let mut distance: usize = 0;
    let mut i: usize = 0;
    let mut k: usize = 0;
    proof {
        lemma_rank_scan_bound(ranker@, text@, 0, 0, 0, 0);
    }
    while k < text.len()
        invariant
            k <= text@.len(),
            i < ranker@.len(),
            score + distance <= k,
            rank_of(ranker@, text@) == rank_scan(
                ranker@,
                text@,
                k as int,
                i as int,
                score as int,
                distance as int,
            ),
        decreases text@.len() - k,
    {
        if text[k] == ranker[i] {
            score = score + distance;
            i += 1;
            distance = 0;
            if i >= ranker.len() {
                if score <= 0x7fff_ffff {
                    return Some(score as i32);
                } else {
                    return None;
                }
            }
        } else {
            distance = distance + 1;
        }
        k += 1;
    }
    None
}

/// Fuzzy-ranks `text` against `ranker`: `Some(score)` when every character of
/// `ranker` occurs in `text` in order (case-insensitively), where the score sums the
/// skipped characters between matches (lower is better); `None` when they do not.
/// An empty `ranker` scores 0 against anything. A score too large for an `i32` (more
/// than `i32::MAX` characters skipped) also gives `None`.
pub fn rank(ranker: &str, text: &str) -> (r: Option<i32>)
    ensures
        ranker@.len() == 0 ==> r == Some(0i32),
        ranker@.len() > 0 && text@.len() == 0 ==> r is None,
        ranker@.len() > 0 && text@.len() > 0 ==> r == rank_result(
            rank_of(lowercase(ranker@), lowercase(text@)),
        ),
{
    if ranker.is_empty() {
        return Some(0);
    }
    if text.is_empty() {
        return None;
    }
    let rl = to_lower(ranker);
    let tl = to_lower(text);
    let rv = chars_of(rl.as_str());
    let tv = chars_of(tl.as_str());
    rank_lowered(rv.as_slice(), tv.as_slice())
}

/// Splits `text` into runs, marking the characters matched in order by `search`:
/// each character of `lower` (the lowercased text) that equals the next unmatched
/// character of `search` is highlighted; runs alternate between highlighted and not.
/// The characters themselves come from `text`, position by position.
pub open spec fn marks(lower: Seq<char>, search: Seq<char>, i: int, si: int) -> Seq<bool>
    decreases lower.len() - i,
{
    if i < 0 || i >= lower.len() {
        Seq::empty()
    } else if si < search.len() && lower[i] == search[si] {
        seq![true] + marks(lower, search, i + 1, si + 1)
    } else {
        seq![false] + marks(lower, search, i + 1, si)
    }
}

/// The runs of equal marks of `text[..]`: `(characters, highlighted)`, in order.
pub open spec fn runs(text: Seq<char>, m: Seq<bool>) -> Seq<(Seq<char>, bool)>
    decreases m.len(),
{
    if m.len() == 0 {
        Seq::empty()
    } else {
        let prev = runs(text, m.drop_last());
        let c = text[m.len() - 1];
        let h = m.last();
        if prev.len() > 0 && prev.last().1 == h {
            prev.drop_last().push((prev.last().0.push(c), h))
        } else {
            prev.push((seq![c], h))
        }
    }
}

/// The views of a list of runs.
pub open spec fn runs_view(v: Seq<(String, bool)>) -> Seq<(Seq<char>, bool)> {
    v.map_values(|p: (String, bool)| (p.0@, p.1))
}

proof fn lemma_marks_len(lower: Seq<char>, search: Seq<char>, i: int, si: int)
    requires
        0 <= i <= lower.len(),
    ensures
        marks(lower, search, i, si).len() == lower.len() - i,
    decreases lower.len() - i,
{
    if i < lower.len() {
        lemma_marks_len(lower, search, i + 1, if si < search.len() && lower[i] == search[si] {
            si + 1
        } else {
            si
        });
    }
}

proof fn lemma_marks_step(lower: Seq<char>, search: Seq<char>, i: int, si: int)
    requires
        0 <= i < lower.len(),
    ensures
        marks(lower, search, i, si)[0] == (si < search.len() && lower[i] == search[si]),
        marks(lower, search, i, si).skip(1) == marks(
            lower,
            search,
            i + 1,
            if si < search.len() && lower[i] == search[si] {
                si + 1
            } else {
                si
            },
        ),
{
    let m = marks(lower, search, i, si);
    if si < search.len() && lower[i] == search[si] {
        assert((seq![true] + marks(lower, search, i + 1, si + 1)).skip(1) =~= marks(
            lower,
            search,
            i + 1,
            si + 1,
        ));
    } else {
        assert((seq![false] + marks(lower, search, i + 1, si)).skip(1) =~= marks(
            lower,
            search,
            i + 1,
            si,
        ));
    }
}

/// The highlighted runs of `text`, given its lowercase form and the lowercased search
/// term; an empty search yields the whole text as one plain run.
pub fn highlight_runs(text: &[char], lower: &[char], search: &[char]) -> (r: Vec<(String, bool)>)
    requires
        lower@.len() <= text@.len(),
    ensures
        search@.len() == 0 ==> runs_view(r@) == seq![(text@, false)],
        search@.len() > 0 ==> runs_view(r@) == runs(text@, marks(lower@, search@, 0, 0)),
{
    if search.len() == 0 {
        let mut s = String::new();
        let mut k: usize = 0;
        while k < text.len()
            invariant
                k <= text@.len(),
                s@ == text@.subrange(0, k as int),
            decreases text@.len() - k,
        {
            push_char(&mut s, text[k]);
            assert(s@ =~= text@.subrange(0, k + 1));
            k += 1;
        }
        assert(s@ =~= text@);
        let mut r: Vec<(String, bool)> = Vec::new();
        r.push((s, false));
        assert(runs_view(r@) =~= seq![(text@, false)]);
        return r;
    }
    let ghost m_all = marks(lower@, search@, 0, 0);
    proof {
        lemma_marks_len(lower@, search@, 0, 0);
    }
    let mut result: Vec<(String, bool)> = Vec::new();
    let mut current = String::new();
    let mut current_h = false;
    let mut si: usize = 0;
    let mut i: usize = 0;
    assert(m_all.subrange(0, 0) =~= Seq::<bool>::empty());
    while i < lower.len()
        invariant
            i <= lower@.len(),
            lower@.len() <= text@.len(),
            si <= search@.len(),
            m_all == marks(lower@, search@, 0, 0),
            m_all.len() == lower@.len(),
            m_all.skip(i as int) == marks(lower@, search@, i as int, si as int),
            // the finished runs, followed by the run in progress (when not empty)
            (if current@.len() > 0 {
                runs_view(result@).push((current@, current_h))
            } else {
                runs_view(result@)
            }) == runs(text@, m_all.subrange(0, i as int)),
            current@.len() == 0 ==> i == 0,
            i == 0 ==> result@.len() == 0 && current@.len() == 0,
            i > 0 ==> current@.len() > 0,
            result@.len() > 0 ==> result@.last().1 != current_h,
        decreases lower@.len() - i,
    {
        proof {
            lemma_marks_step(lower@, search@, i as int, si as int);
            assert(m_all.skip(i as int)[0] == m_all[i as int]);
            assert(m_all.skip(i as int).skip(1) =~= m_all.skip(i + 1));
            assert(m_all.subrange(0, i + 1).drop_last() =~= m_all.subrange(0, i as int));
        }
        let h = si < search.len() && lower[i] == search[si];
        if h {
            si += 1;
        }
        let ghost rv0 = runs_view(result@);
        let ghost cur0 = current@;
        let ghost ch0 = current_h;
        let ghost c = text@[i as int];
        proof {
            let sub = m_all.subrange(0, i + 1);
            assert(sub.len() == i + 1);
            assert(sub.last() == h);
            assert(runs(text@, sub) == {
                let prev = runs(text@, sub.drop_last());
                if prev.len() > 0 && prev.last().1 == h {
                    prev.drop_last().push((prev.last().0.push(c), h))
                } else {
                    prev.push((seq![c], h))
                }
            });
        }
        if !current.as_str().is_empty() && current_h != h {
            let finished = current;
            result.push((finished, current_h));
            current = String::new();
            push_char(&mut current, text[i]);
            current_h = h;
            proof {
                assert(runs_view(result@) =~= rv0.push((cur0, ch0)));
                assert(current@ =~= seq![c]);
                let prev = rv0.push((cur0, ch0));
                assert(prev.last().1 != h);
            }
        } else {
            push_char(&mut current, text[i]);
            current_h = h;
            proof {
                assert(runs_view(result@) == rv0);
                if cur0.len() > 0 {
                    let prev = rv0.push((cur0, ch0));
                    assert(prev.drop_last() =~= rv0);
                    assert(prev.last() == (cur0, ch0));
                } else {
                    assert(rv0.len() == 0);
                    assert(current@ =~= seq![c]);
                }
            }
        }
        i += 1;
    }
    if !current.as_str().is_empty() {
        result.push((current, current_h));
    }
    assert(m_all.subrange(0, lower@.len() as int) =~= m_all);
    proof {
        assert(runs_view(result@) == runs(text@, m_all));
    }
    result
}

/// Highlights the characters of `text` matched in order by `search`, compared
/// case-insensitively; `None` when lowercasing lengthens `text` (a character whose
/// lowercase form is several characters), where the characters cannot be matched up
/// position by position.
pub fn highlight_matches(text: &str, search: &str) -> (r: Option<Vec<(String, bool)>>)
    ensures
        search@.len() == 0 ==> (r matches Some(v) && runs_view(v@) == seq![(text@, false)]),
        search@.len() > 0 ==> if lowercase(text@).len() > text@.len() {
            r is None
        } else {
            (r matches Some(v) && runs_view(v@) == runs(
                text@,
                marks(lowercase(text@), lowercase(search@), 0, 0),
            ))
        },
{
    let tv = chars_of(text);
    if search.is_empty() {
        let empty: Vec<char> = Vec::new();
        return Some(highlight_runs(tv.as_slice(), empty.as_slice(), empty.as_slice()));
    }
    let tl = to_lower(text);
    let sl = to_lower(search);
    let lv = chars_of(tl.as_str());
    let sv = chars_of(sl.as_str());
    if lv.len() > tv.len() {
        return None;
    }
    Some(highlight_runs(tv.as_slice(), lv.as_slice(), sv.as_slice()))
}

} // verus!
