//! Where the editor keeps its session files and its tree-sitter grammars.

use vstd::prelude::*;
use crate::keyed::{keyed_insert, keyed_map, sorted_keys, lex_less, lex_lt};
use crate::text::{append_str, chars_of, owned, push_char, chars_eq};

verus! {

/// The directory holding session files, under the user's data directory.
pub fn sessions_dir(data_dir: &str) -> (r: String)
    ensures
        r@ == data_dir@ + "/kerbin/sessions"@,
{
    let mut s = owned(data_dir);
    append_str(&mut s, "/kerbin/sessions");
    s
}

fn session_file(sessions: &str, session_id: &str, ext: &str) -> (r: String)
    ensures
        r@ == sessions@ + "/"@ + session_id@ + ext@,
{
    let mut s = owned(sessions);
    append_str(&mut s, "/");
    append_str(&mut s, session_id);
    append_str(&mut s, ext);
    s
}

/// The file holding the process id of a session.
pub fn session_pid_path(sessions: &str, session_id: &str) -> (r: String)
    ensures
        r@ == sessions@ + "/"@ + session_id@ + ".pid"@,
{
    session_file(sessions, session_id, ".pid")
}

/// The file holding the name of a session.
pub fn session_name_path(sessions: &str, session_id: &str) -> (r: String)
    ensures
        r@ == sessions@ + "/"@ + session_id@ + ".name"@,
{
    session_file(sessions, session_id, ".name")
}

/// The queue a session reads commands from.
pub fn session_queue_path(sessions: &str, session_id: &str) -> (r: String)
    ensures
        r@ == sessions@ + "/"@ + session_id@ + ".in"@,
{
    session_file(sessions, session_id, ".in")
}

/// `s` with every `-` replaced by `_`.
pub open spec fn underscored(s: Seq<char>) -> Seq<char> {
    s.map_values(|c: char| if c == '-' { '_' } else { c })
}

pub(crate) fn underscored_exec(s: &str) -> (r: String)
    ensures
        r@ == underscored(s@),
{
    let v = chars_of(s);
    let mut r = String::new();
    let mut i: usize = 0;
    while i < v.len()
        invariant
            i <= v@.len(),
            r@ == underscored(v@.subrange(0, i as int)),
        decreases v@.len() - i,
    {
        push_char(&mut r, if v[i] == '-' { '_' } else { v[i] });
        assert(underscored(v@.subrange(0, i + 1)) =~= underscored(v@.subrange(0, i as int)).push(
            if v@[i as int] == '-' { '_' } else { v@[i as int] },
        ));
        i += 1;
    }
    assert(v@.subrange(0, v@.len() as int) =~= v@);
    r
}

/// Where tree-sitter grammars live, and which grammar serves which file extension.
pub struct GrammarManager {
    /// The directory holding one `tree-sitter-<name>` directory per grammar
    pub base_path: String,
    /// File extension to grammar name, sorted by extension
    pub extension_map: Vec<(String, String)>,
}

impl GrammarManager {
    /// A manager for the grammars under `runtime/grammars`, with no extensions known.
    pub fn new() -> (g: GrammarManager)
        ensures
            g.base_path@ == "runtime/grammars"@,
            g.extension_map@.len() == 0,
    {
        GrammarManager { base_path: owned("runtime/grammars"), extension_map: Vec::new() }
    }

    /// The extensions known, as a map to grammar names.
    pub open spec fn extensions(&self) -> Map<Seq<char>, Seq<char>> {
        keyed_map(self.extension_map@).map_values(|n: String| n@)
    }

    /// Registers `ext` as served by the grammar `lang`.
    pub fn register_extension(&mut self, ext: &str, lang: &str)
        requires
            sorted_keys(old(self).extension_map@),
        ensures
            sorted_keys(final(self).extension_map@),
            final(self).extensions() == old(self).extensions().insert(ext@, lang@),
            final(self).base_path == old(self).base_path,
    {
        let ghost before = self.extension_map@;
        let l = owned(lang);
        let ghost lv = l;
        keyed_insert(&mut self.extension_map, owned(ext), l);
        assert(keyed_map(self.extension_map@) == keyed_map(before).insert(ext@, lv));
        assert(self.extensions() =~= keyed_map(before).map_values(|n: String| n@).insert(ext@, lang@));
    }

    /// The name of the grammar registered for `extension`.
    pub fn language_for_ext(&self, extension: &str) -> (r: Option<String>)
        requires
            sorted_keys(self.extension_map@),
        ensures
            match r {
                Some(n) => self.extensions().dom().contains(extension@) && n@ == self.extensions()[extension@],
                None => !self.extensions().dom().contains(extension@),
            },
    {
        let ev = chars_of(extension);
        let mut i: usize = 0;
        while i < self.extension_map.len()
            invariant
                i <= self.extension_map@.len(),
                ev@ == extension@,
                sorted_keys(self.extension_map@),
                forall|t: int| 0 <= t < i ==> #[trigger] self.extension_map@[t].0@ != extension@,
            decreases self.extension_map@.len() - i,
        {
            let kv = chars_of(self.extension_map[i].0.as_str());
            if chars_eq(kv.as_slice(), ev.as_slice()) {
                proof {
                    crate::keyed::lemma_value_at_index(self.extension_map@, i as int);
                }
                return Some(self.extension_map[i].1.clone());
            }
            i += 1;
        }
        None
    }

    /// The directory of grammar `name`: `<base>/tree-sitter-<name>`.
    pub fn grammar_dir(&self, name: &str) -> (r: String)
        ensures
            r@ == self.base_path@ + "/tree-sitter-"@ + name@,
    {
        let mut s = self.base_path.clone();
        append_str(&mut s, "/tree-sitter-");
        append_str(&mut s, name);
        s
    }

    /// The shared library of grammar `name`: `<dir>/<name with '-' as '_'>.so`.
    pub fn library_path(&self, name: &str) -> (r: String)
        ensures
            r@ == self.base_path@ + "/tree-sitter-"@ + name@ + "/"@ + underscored(name@) + ".so"@,
    {
        let mut s = self.grammar_dir(name);
        append_str(&mut s, "/");
        let u = underscored_exec(name);
        append_str(&mut s, u.as_str());
        append_str(&mut s, ".so");
        s
    }

    /// The highlight query file of grammar `name`.
    pub fn query_path(&self, name: &str) -> (r: String)
        ensures
            r@ == self.base_path@ + "/tree-sitter-"@ + name@ + "/queries/highlights.scm"@,
    {
        let mut s = self.grammar_dir(name);
        append_str(&mut s, "/queries/highlights.scm");
        s
    }
}

/// The symbol a grammar library exports its language under: `tree_sitter_<name>`,
/// NUL-terminated.
pub fn language_symbol(name: &str) -> (r: String)
    ensures
        r@ == "tree_sitter_"@ + name@ + seq!['\0'],
{
    let mut s = owned("tree_sitter_");
    append_str(&mut s, name);
    push_char(&mut s, '\0');
    s
}

/// The suffix of the files holding session names.
pub open spec fn name_suffix() -> Seq<char> {
    seq!['.', 'n', 'a', 'm', 'e']
}

/// The session a `<id>.name` file belongs to: its name without the suffix.
pub fn name_file_session(filename: &str) -> (r: Option<String>)
    ensures
        ({
            let f = filename@;
            if f.len() >= 5 && f.skip(f.len() - 5) == name_suffix() {
                r matches Some(id) && id@ == f.take(f.len() - 5)
            } else {
                r is None
            }
        }),
{
    let cs = chars_of(filename);
    let n = cs.len();
    if n < 5 {
        return None;
    }
    let suf = vec!['.', 'n', 'a', 'm', 'e'];
    let mut tail: Vec<char> = Vec::new();
    let mut i: usize = n - 5;
    while i < n
        invariant
            n == cs@.len(),
            n >= 5,
            n - 5 <= i <= n,
            tail@ == cs@.subrange(n - 5, i as int),
        decreases n - i,
    {
        tail.push(cs[i]);
        assert(tail@ =~= cs@.subrange(n - 5, i + 1));
        i += 1;
    }
    assert(tail@ =~= cs@.skip(n - 5));
    assert(suf@ =~= name_suffix());
    if !chars_eq(tail.as_slice(), suf.as_slice()) {
        return None;
    }
    let mut id: Vec<char> = Vec::new();
    let mut j: usize = 0;
    while j < n - 5
        invariant
            n == cs@.len(),
            n >= 5,
            j <= n - 5,
            id@ == cs@.take(j as int),
        decreases n - 5 - j,
    {
        id.push(cs[j]);
        assert(id@ =~= cs@.take(j + 1));
        j += 1;
    }
    Some(crate::text::string_of(id.as_slice()))
}

/// The first of the named sessions `named` (an id and the stored name) whose stored
/// name, trimmed, is `input`.
pub open spec fn session_named(named: Seq<(Seq<char>, Seq<char>)>, input: Seq<char>) -> Option<Seq<char>>
    decreases named.len(),
{
    if named.len() == 0 {
        None
    } else if crate::text_spans::trim(named[0].1) == input {
        Some(named[0].0)
    } else {
        session_named(named.drop_first(), input)
    }
}

/// Resolves a session given as an id or a name: the input itself when a session of
/// that id exists (`id_exists`), else the id of the first named session (`named`:
/// each session id with the name stored for it) whose name is the input, else the
/// input unchanged.
pub fn resolve_session_from(input: &str, id_exists: bool, named: &Vec<(String, String)>) -> (r: String)
    ensures
        r@ == if id_exists {
            input@
        } else {
            match session_named(named@.map_values(|p: (String, String)| (p.0@, p.1@)), input@) {
                Some(id) => id,
                None => input@,
            }
        },
{
    if id_exists {
        return owned(input);
    }
    let ghost nv = named@.map_values(|p: (String, String)| (p.0@, p.1@));
    let iv = chars_of(input);
    let mut k: usize = 0;
    assert(nv.skip(0) =~= nv);
    while k < named.len()
        invariant
            k <= named@.len(),
            nv == named@.map_values(|p: (String, String)| (p.0@, p.1@)),
            iv@ == input@,
            !id_exists,
            session_named(nv, input@) == session_named(nv.skip(k as int), input@),
        decreases named@.len() - k,
    {
        proof {
            assert(nv.skip(k as int)[0] == nv[k as int]);
            assert(nv.skip(k as int).drop_first() =~= nv.skip(k + 1));
        }
        let stored = chars_of(named[k].1.as_str());
        let (a, b) = crate::text_spans::trim_span(&stored, 0, stored.len());
        let mut t: Vec<char> = Vec::new();
        let mut q: usize = a;
        while q < b
            invariant
                a <= q <= b <= stored@.len(),
                t@ == stored@.subrange(a as int, q as int),
            decreases b - q,
        {
            t.push(stored[q]);
            assert(t@ =~= stored@.subrange(a as int, q + 1));
            q += 1;
        }
        assert(stored@.subrange(0, stored@.len() as int) =~= stored@);
        proof {
            assert(nv[k as int] == (named@[k as int].0@, named@[k as int].1@));
            assert(crate::text_spans::trim(nv[k as int].1) == t@);
        }
        if chars_eq(t.as_slice(), iv.as_slice()) {
            return named[k].0.clone();
        }
        k += 1;
    }
    owned(input)
}

} // verus!
