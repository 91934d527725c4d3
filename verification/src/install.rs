//! Choosing what to install: the versions offered are the repository's tags, read
//! from the output of `git ls-remote --tags`, after the master branch.

use vstd::prelude::*;
use crate::text::{chars_of, find_sub, find_sub_exec, lemma_find_sub, owned, string_of};
use crate::text_spans::{line_spans, std_lines};

verus! {

/// The marker before a tag's name in `ls-remote` output.
pub open spec fn tags_marker() -> Seq<char> {
    seq!['r', 'e', 'f', 's', '/', 't', 'a', 'g', 's', '/']
}

/// The tag a line of `git ls-remote --tags` names: what follows the first
/// `refs/tags/`, up to a second one if there is one, as `split("refs/tags/").nth(1)`
/// gives it.
pub open spec fn tag_of_line(line: Seq<char>) -> Option<Seq<char>> {
    let m = tags_marker();
    match find_sub(line, m, 0) {
        None => None,
        Some(p) => {
            let start = p + m.len();
            match find_sub(line, m, start) {
                Some(q) => Some(line.subrange(start, q)),
                None => Some(line.subrange(start, line.len() as int)),
            }
        },
    }
}

fn sub_string(v: &Vec<char>, a: usize, b: usize) -> (r: String)
    requires
        a <= b <= v@.len(),
    ensures
        r@ == v@.subrange(a as int, b as int),
{
    let mut t: Vec<char> = Vec::new();
    let mut i: usize = a;
    while i < b
        invariant
            a <= i <= b <= v@.len(),
            t@ == v@.subrange(a as int, i as int),
        decreases b - i,
    {
        t.push(v[i]);
        assert(t@ =~= v@.subrange(a as int, i + 1));
        i += 1;
    }
    string_of(t.as_slice())
}

/// The tag a line of `git ls-remote --tags` names (see `tag_of_line`).
pub fn tag_from_ref_line(line: &Vec<char>) -> (r: Option<String>)
    ensures
        match tag_of_line(line@) {
            Some(t) => r matches Some(x) && x@ == t,
            None => r is None,
        },
{
    let m = vec!['r', 'e', 'f', 's', '/', 't', 'a', 'g', 's', '/'];
    assert(m@ =~= tags_marker());
    proof {
        lemma_find_sub(line@, m@, 0);
    }
    let n = line.len();
    match find_sub_exec(line, &m, 0) {
        None => None,
        Some(p) => {
            proof {
                let i = find_sub(line@, m@, 0).unwrap();
                assert(i == p && p + m@.len() <= line@.len());
            }
            let start = p + m.len();
            proof {
                lemma_find_sub(line@, m@, start as int);
            }
            match find_sub_exec(line, &m, start) {
                Some(q) => {
                    proof {
                        let i = find_sub(line@, m@, start as int).unwrap();
                        assert(i == q && start <= q && q + m@.len() <= line@.len());
                    }
                    Some(sub_string(line, start, q))
                },
                None => Some(sub_string(line, start, n)),
            }
        },
    }
}

/// The versions offered for install: the master branch first, then the tag of each
/// line of the `ls-remote` output that names one, in order.
pub open spec fn version_choices(output: Seq<char>) -> Seq<Seq<char>> {
    seq!["git (master branch)"@] + tags_of_lines(std_lines(output))
}

/// The tags the lines name, in order.
pub open spec fn tags_of_lines(ls: Seq<Seq<char>>) -> Seq<Seq<char>>
    decreases ls.len(),
{
    if ls.len() == 0 {
        seq![]
    } else {
        let rest = tags_of_lines(ls.drop_last());
        match tag_of_line(ls.last()) {
            Some(t) => rest.push(t),
            None => rest,
        }
    }
}

/// The versions offered for install, read from the output of `git ls-remote --tags`
/// (see `version_choices`).
pub fn versions_from_ls_remote(output: &str) -> (r: Vec<String>)
    ensures
        r@.map_values(|s: String| s@) == version_choices(output@),
{
    let v = chars_of(output);
    let spans = line_spans(&v);
    let ghost ls = std_lines(v@);
    let mut tags: Vec<String> = Vec::new();
    let mut i: usize = 0;
    while i < spans.len()
        invariant
            spans@.len() == ls.len(),
            ls == std_lines(v@),
            forall|j: int| 0 <= j < spans@.len() ==> {
                let (a, b) = #[trigger] spans@[j];
                a <= b <= v@.len() && v@.subrange(a as int, b as int) == ls[j]
            },
            i <= spans@.len(),
            tags@.map_values(|s: String| s@) == tags_of_lines(ls.take(i as int)),
        decreases spans@.len() - i,
    {
        let (a, b) = spans[i];
        let mut line: Vec<char> = Vec::new();
        let mut k: usize = a;
        while k < b
            invariant
                a <= k <= b <= v@.len(),
                line@ == v@.subrange(a as int, k as int),
            decreases b - k,
        {
            line.push(v[k]);
            assert(line@ =~= v@.subrange(a as int, k + 1));
            k += 1;
        }
        proof {
            assert(line@ == ls[i as int]);
            assert(ls.take(i + 1).drop_last() =~= ls.take(i as int));
            assert(ls.take(i + 1).last() == ls[i as int]);
        }
        let ghost old_tags = tags@;
        match tag_from_ref_line(&line) {
            Some(t) => {
                let ghost tv = t@;
                tags.push(t);
                assert(tags@.map_values(|s: String| s@) =~= old_tags.map_values(|s: String| s@).push(tv));
            },
            None => {},
        }
        i += 1;
    }
    assert(ls.take(spans@.len() as int) =~= ls);
    let mut r: Vec<String> = Vec::new();
    r.push(owned("git (master branch)"));
    let mut j: usize = 0;
    while j < tags.len()
        invariant
            j <= tags@.len(),
            r@.map_values(|s: String| s@) == seq!["git (master branch)"@] + tags@.map_values(|s: String| s@).take(
                j as int,
            ),
        decreases tags@.len() - j,
    {
        let ghost old_r = r@;
        r.push(tags[j].clone());
        assert(r@.map_values(|s: String| s@) =~= old_r.map_values(|s: String| s@).push(tags@[j as int]@));
        assert(seq!["git (master branch)"@] + tags@.map_values(|s: String| s@).take(j + 1) =~= (seq![
            "git (master branch)"@,
        ] + tags@.map_values(|s: String| s@).take(j as int)).push(tags@[j as int]@));
        j += 1;
    }
    assert(tags@.map_values(|s: String| s@).take(j as int) =~= tags@.map_values(|s: String| s@));
    r
}

} // verus!
