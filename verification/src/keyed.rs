//! A map from strings to values, held as a vector of pairs sorted by key.
//!
//! Keys are ordered as `str` orders them: character by character, by code point
//! (the order of their UTF-8 bytes), a proper prefix first.

use vstd::prelude::*;
use crate::text::chars_of;

verus! {

/// `a` comes strictly before `b`.
pub open spec fn lex_lt(a: Seq<char>, b: Seq<char>) -> bool
    decreases a.len(),
{
    if a.len() == 0 {
        b.len() > 0
    } else if b.len() == 0 {
        false
    } else if a[0] != b[0] {
        (a[0] as u32) < (b[0] as u32)
    } else {
        lex_lt(a.skip(1), b.skip(1))
    }
}

pub proof fn lemma_lex_irreflexive(a: Seq<char>)
    ensures
        !lex_lt(a, a),
    decreases a.len(),
{
    if a.len() > 0 {
        lemma_lex_irreflexive(a.skip(1));
    }
}

proof fn lemma_char_u32_injective(x: char, y: char)
    ensures
        (x as u32) == (y as u32) ==> x == y,
{
    assert((x as u32) == (y as u32) ==> x == y);
}

pub proof fn lemma_lex_total(a: Seq<char>, b: Seq<char>)
    ensures
        lex_lt(a, b) || lex_lt(b, a) || a == b,
    decreases a.len(),
{
    if a.len() > 0 && b.len() > 0 {
        if a[0] == b[0] {
            lemma_lex_total(a.skip(1), b.skip(1));
            if a.skip(1) == b.skip(1) {
                assert(a =~= seq![a[0]] + a.skip(1));
                assert(b =~= seq![b[0]] + b.skip(1));
            }
        } else {
            lemma_char_u32_injective(a[0], b[0]);
        }
    } else if a.len() == 0 && b.len() == 0 {
        assert(a =~= b);
    }
}

pub proof fn lemma_lex_transitive(a: Seq<char>, b: Seq<char>, c: Seq<char>)
    requires
        lex_lt(a, b),
        lex_lt(b, c),
    ensures
        lex_lt(a, c),
    decreases a.len(),
{
    if a.len() > 0 && a[0] == b[0] && b[0] == c[0] {
        lemma_lex_transitive(a.skip(1), b.skip(1), c.skip(1));
    }
}

/// Whether `a` comes strictly before `b`.
pub fn lex_less(a: &[char], b: &[char]) -> (r: bool)
    ensures
        r == lex_lt(a@, b@),
{
    let mut i: usize = 0;
    assert(a@.skip(0) =~= a@);
    assert(b@.skip(0) =~= b@);
    while i < a.len() && i < b.len() && a[i] == b[i]
        invariant
            i <= a@.len(),
            i <= b@.len(),
            lex_lt(a@, b@) == lex_lt(a@.skip(i as int), b@.skip(i as int)),
        decreases a@.len() - i,
    {
        assert(a@.skip(i as int).skip(1) =~= a@.skip(i + 1));
        assert(b@.skip(i as int).skip(1) =~= b@.skip(i + 1));
        i += 1;
    }
    if i == a.len() {
        i < b.len()
    } else if i == b.len() {
        false
    } else {
        (a[i] as u32) < (b[i] as u32)
    }
}

/// The keys are strictly increasing.
pub open spec fn sorted_keys<V>(v: Seq<(String, V)>) -> bool {
    forall|i: int, j: int| 0 <= i < j < v.len() ==> lex_lt(#[trigger] v[i].0@, #[trigger] v[j].0@)
}

pub open spec fn has_key<V>(v: Seq<(String, V)>, k: Seq<char>) -> bool {
    exists|i: int| 0 <= i < v.len() && #[trigger] v[i].0@ == k
}

/// The value held at key `k`.
pub open spec fn value_at<V>(v: Seq<(String, V)>, k: Seq<char>) -> V {
    v[choose|i: int| 0 <= i < v.len() && #[trigger] v[i].0@ == k].1
}

/// The pairs as a map from key to value.
pub open spec fn keyed_map<V>(v: Seq<(String, V)>) -> Map<Seq<char>, V> {
    Map::new(|k: Seq<char>| has_key(v, k), |k: Seq<char>| value_at(v, k))
}

proof fn lemma_sorted_unique<V>(v: Seq<(String, V)>, i: int, j: int)
    requires
        sorted_keys(v),
        0 <= i < v.len(),
        0 <= j < v.len(),
        v[i].0@ == v[j].0@,
    ensures
        i == j,
{
    if i < j {
        lemma_lex_irreflexive(v[i].0@);
        assert(lex_lt(v[i].0@, v[j].0@));
    } else if j < i {
        lemma_lex_irreflexive(v[i].0@);
        assert(lex_lt(v[j].0@, v[i].0@));
    }
}

/// The value at a position is the value of its key.
pub proof fn lemma_value_at_index<V>(v: Seq<(String, V)>, i: int)
    requires
        sorted_keys(v),
        0 <= i < v.len(),
    ensures
        has_key(v, v[i].0@),
        value_at(v, v[i].0@) == v[i].1,
{
    let j = choose|j: int| 0 <= j < v.len() && #[trigger] v[j].0@ == v[i].0@;
    lemma_sorted_unique(v, i, j);
}

/// Sets `key` to `val`, keeping the keys sorted.
pub fn keyed_insert<V>(v: &mut Vec<(String, V)>, key: String, val: V)
    requires
        sorted_keys(old(v)@),
    ensures
        sorted_keys(final(v)@),
        keyed_map(final(v)@) == keyed_map(old(v)@).insert(key@, val),
{
    let kv = chars_of(key.as_str());
    let ghost old_v = v@;
    let mut p: usize = 0;
    while p < v.len()
        invariant
            p <= v@.len(),
            v@ == old_v,
            kv@ == key@,
            sorted_keys(old_v),
            forall|t: int| 0 <= t < p ==> lex_lt(#[trigger] old_v[t].0@, key@),
        ensures
            p <= v@.len(),
            v@ == old_v,
            forall|t: int| 0 <= t < p ==> lex_lt(#[trigger] old_v[t].0@, key@),
            p < v@.len() ==> !lex_lt(old_v[p as int].0@, key@),
        decreases v@.len() - p,
    {
        let cur = chars_of(v[p].0.as_str());
        if !lex_less(cur.as_slice(), kv.as_slice()) {
            break;
        }
        p += 1;
    }
    let replace = if p < v.len() {
        let cur = chars_of(v[p].0.as_str());
        !lex_less(kv.as_slice(), cur.as_slice())
    } else {
        false
    };
    if replace {
        proof {
            lemma_lex_total(old_v[p as int].0@, key@);
            assert(old_v[p as int].0@ == key@);
        }
        v.set(p, (key, val));
        proof {
            let nv = v@;
            assert forall|i: int, j: int| 0 <= i < j < nv.len() implies lex_lt(
                #[trigger] nv[i].0@,
                #[trigger] nv[j].0@,
            ) by {
                assert(old_v[i].0@ == nv[i].0@ || i == p);
                assert(old_v[j].0@ == nv[j].0@ || j == p);
                assert(lex_lt(old_v[i].0@, old_v[j].0@));
            }
            assert forall|k: Seq<char>| #[trigger]
                keyed_map(nv).dom().contains(k) == keyed_map(old_v).insert(key@, val).dom().contains(
                    k,
                ) by {
                if has_key(nv, k) {
                    let i = choose|i: int| 0 <= i < nv.len() && #[trigger] nv[i].0@ == k;
                    assert(old_v[i].0@ == k);
                }
                if has_key(old_v, k) {
                    let i = choose|i: int| 0 <= i < old_v.len() && #[trigger] old_v[i].0@ == k;
                    assert(nv[i].0@ == k);
                }
                if k == key@ {
                    assert(nv[p as int].0@ == k);
                }
            }
            assert forall|k: Seq<char>| #[trigger] keyed_map(nv).dom().contains(k) implies keyed_map(
                nv,
            )[k] == keyed_map(old_v).insert(key@, val)[k] by {
                let i = choose|i: int| 0 <= i < nv.len() && #[trigger] nv[i].0@ == k;
                lemma_value_at_index(nv, i);
                if i != p {
                    assert(old_v[i] == nv[i]);
                    lemma_value_at_index(old_v, i);
                }
            }
            assert(keyed_map(nv) =~= keyed_map(old_v).insert(key@, val));
        }
    } else {
        proof {
            if p < old_v.len() {
                lemma_lex_total(old_v[p as int].0@, key@);
            }
        }
        v.insert(p, (key, val));
        proof {
            let nv = v@;
            assert(nv == old_v.insert(p as int, (key, val)));
            assert forall|i: int, j: int| 0 <= i < j < nv.len() implies lex_lt(
                #[trigger] nv[i].0@,
                #[trigger] nv[j].0@,
            ) by {
                if j < p {
                    assert(lex_lt(old_v[i].0@, old_v[j].0@));
                } else if j == p {
                } else if i < p {
                    // old_v[i] < key < old_v[p] <= old_v[j - 1]
                    assert(nv[j] == old_v[j - 1]);
                    if j - 1 > p {
                        assert(lex_lt(old_v[p as int].0@, old_v[j - 1].0@));
                        lemma_lex_transitive(key@, old_v[p as int].0@, old_v[j - 1].0@);
                    }
                    lemma_lex_transitive(old_v[i].0@, key@, old_v[j - 1].0@);
                } else if i == p {
                    assert(nv[j] == old_v[j - 1]);
                    if j - 1 > p {
                        assert(lex_lt(old_v[p as int].0@, old_v[j - 1].0@));
                        lemma_lex_transitive(key@, old_v[p as int].0@, old_v[j - 1].0@);
                    }
                } else {
                    assert(lex_lt(old_v[i - 1].0@, old_v[j - 1].0@));
                }
            }
            assert forall|k: Seq<char>| #[trigger]
                keyed_map(nv).dom().contains(k) == keyed_map(old_v).insert(key@, val).dom().contains(
                    k,
                ) by {
                if has_key(nv, k) {
                    let i = choose|i: int| 0 <= i < nv.len() && #[trigger] nv[i].0@ == k;
                    if i < p {
                        assert(old_v[i].0@ == k);
                    } else if i > p {
                        assert(old_v[i - 1].0@ == k);
                    }
                }
                if has_key(old_v, k) {
                    let i = choose|i: int| 0 <= i < old_v.len() && #[trigger] old_v[i].0@ == k;
                    if i < p {
                        assert(nv[i].0@ == k);
                    } else {
                        assert(nv[i + 1].0@ == k);
                    }
                }
                if k == key@ {
                    assert(nv[p as int].0@ == k);
                }
            }
            assert forall|k: Seq<char>| #[trigger] keyed_map(nv).dom().contains(k) implies keyed_map(
                nv,
            )[k] == keyed_map(old_v).insert(key@, val)[k] by {
                let i = choose|i: int| 0 <= i < nv.len() && #[trigger] nv[i].0@ == k;
                lemma_value_at_index(nv, i);
                lemma_lex_irreflexive(key@);
                if i < p {
                    assert(old_v[i] == nv[i]);
                    lemma_value_at_index(old_v, i);
                    assert(lex_lt(old_v[i].0@, key@));
                    assert(k != key@);
                } else if i > p {
                    assert(old_v[i - 1] == nv[i]);
                    lemma_value_at_index(old_v, i - 1);
                    assert(lex_lt(key@, old_v[p as int].0@));
                    if i - 1 > p {
                        assert(lex_lt(old_v[p as int].0@, old_v[i - 1].0@));
                        lemma_lex_transitive(key@, old_v[p as int].0@, old_v[i - 1].0@);
                    }
                    assert(k != key@);
                }
            }
            assert(keyed_map(nv) =~= keyed_map(old_v).insert(key@, val));
        }
    }
}

/// The value at `key`, if the key is present.
pub fn keyed_get<V: Copy>(v: &Vec<(String, V)>, key: &str) -> (r: Option<V>)
    requires
        sorted_keys(v@),
    ensures
        r == if keyed_map(v@).dom().contains(key@) {
            Some(keyed_map(v@)[key@])
        } else {
            None::<V>
        },
{
    let kv = chars_of(key);
    let mut i: usize = 0;
    while i < v.len()
        invariant
            i <= v@.len(),
            kv@ == key@,
            sorted_keys(v@),
            forall|j: int| 0 <= j < i ==> (#[trigger] v@[j]).0@ != key@,
        decreases v@.len() - i,
    {
        let cur = chars_of(v[i].0.as_str());
        if crate::text::chars_eq(cur.as_slice(), kv.as_slice()) {
            proof {
                lemma_value_at_index(v@, i as int);
            }
            return Some(v[i].1);
        }
        i += 1;
    }
    proof {
        if has_key(v@, key@) {
            let j = choose|j: int| 0 <= j < v@.len() && #[trigger] v@[j].0@ == key@;
            assert(v@[j].0@ != key@);
        }
    }
    None
}

} // verus!
