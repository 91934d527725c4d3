//! Regular-expression search over the text of a rope, with `regex_cursor`.

use vstd::prelude::*;
use crate::rope::rope_chars;
use crate::scroll::utf8_len;
use regex_cursor::engines::meta::Regex;
use ropey::Rope;

verus! {

#[verifier::external_type_specification]
#[verifier::external_body]
pub struct ExRegex(Regex);

/// Whether `Regex::new` builds a regex from the pattern.
pub uninterp spec fn regex_builds(pattern: Seq<char>) -> bool;

/// The leftmost match of the pattern in the text, as byte offsets `(start, end)` into
/// the text's UTF-8 encoding, as `Regex::search` finds it.
pub uninterp spec fn regex_first(pattern: Seq<char>, text: Seq<char>) -> Option<(int, int)>;

/// The successive non-overlapping leftmost matches of the pattern in the text, as
/// `Regex::find_iter` yields them.
pub uninterp spec fn regex_all(pattern: Seq<char>, text: Seq<char>) -> Seq<(int, int)>;

/// A compiled regex, with the pattern it was built from.
pub struct CompiledRegex {
    pattern: String,
    re: Regex,
}

impl CompiledRegex {
    /// The pattern the regex was built from.
    pub closed spec fn pattern(&self) -> Seq<char> {
        self.pattern@
    }
}

/// `Regex::new`: builds the regex of `pattern` with the default configuration, or fails
/// when the pattern does not parse or cannot be compiled.
#[verifier::external_body]
pub(crate) fn regex_new(pattern: String) -> (r: Option<CompiledRegex>)
    ensures
        r is Some == regex_builds(pattern@),
        r matches Some(c) ==> c.pattern() == pattern@,
{
    match Regex::new(&pattern) {
        Ok(re) => Some(CompiledRegex { pattern, re }),
        Err(_) => None,
    }
}

/// `Regex::search` over the chars `start..end` of the rope: the leftmost match, as byte
/// offsets into that slice's encoding, which lie within it.
#[verifier::external_body]
pub(crate) fn regex_search(re: &CompiledRegex, rope: &Rope, start: usize, end: usize) -> (m: Option<(usize, usize)>)
    requires
        start <= end <= rope_chars(*rope).len(),
    ensures
        m matches Some(x) ==> regex_first(re.pattern(), rope_chars(*rope).subrange(start as int, end as int))
            == Some((x.0 as int, x.1 as int)),
        m is None ==> regex_first(re.pattern(), rope_chars(*rope).subrange(start as int, end as int)) is None,
        m matches Some(x) ==> x.0 <= x.1 <= utf8_len(rope_chars(*rope).subrange(start as int, end as int)),
{
    let input = regex_cursor::Input::new(regex_cursor::RopeyCursor::new(rope.slice(start..end)));
    re.re.search(input).map(|x| (x.start(), x.end()))
}

/// `Regex::find_iter` over the chars `start..end` of the rope: the successive
/// non-overlapping matches, as byte offsets into that slice's encoding, which lie
/// within it.
#[verifier::external_body]
pub(crate) fn regex_find_all(re: &CompiledRegex, rope: &Rope, start: usize, end: usize) -> (ms: Vec<(usize, usize)>)
    requires
        start <= end <= rope_chars(*rope).len(),
    ensures
        ms@.len() == regex_all(re.pattern(), rope_chars(*rope).subrange(start as int, end as int)).len(),
        forall|i: int| 0 <= i < ms@.len() ==> (#[trigger] ms@[i]).0 as int == regex_all(re.pattern(), rope_chars(*rope).subrange(start as int, end as int))[i].0
            && ms@[i].1 as int == regex_all(re.pattern(), rope_chars(*rope).subrange(start as int, end as int))[i].1
            && ms@[i].0 <= ms@[i].1 <= utf8_len(rope_chars(*rope).subrange(start as int, end as int)),
{
    let input = regex_cursor::Input::new(regex_cursor::RopeyCursor::new(rope.slice(start..end)));
    re.re.find_iter(input).map(|x| (x.start(), x.end())).collect()
}

} // verus!
