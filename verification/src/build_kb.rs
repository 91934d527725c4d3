//! The plugin manifest (`build.kb`) and the config crate generated from it.
//!
//! Each non-blank line (after a `#` comment is cut off) declares a plugin:
//! `plugin core <name>`, `plugin git <name> <url>` or `plugin path <dir>`; the name of
//! a path plugin is the package name in `<dir>/Cargo.toml`.

use vstd::prelude::*;
use crate::paths::underscored;
use crate::text::{append_str, owned, push_char};
use crate::text_spans::{
    find_char, find_char_in, line_spans, std_lines, trim, trim_span, word_spans, words,
};

verus! {

/// Where a plugin comes from.
pub enum PluginSource {
    Core,
    Git(String),
    Path(String),
}

/// A plugin the manifest declares.
pub struct Plugin {
    pub name: String,
    /// The name as a Rust identifier: `-` replaced by `_`
    pub rust_name: String,
    pub source: PluginSource,
}

/// A line of the manifest that could not be understood.
pub struct ParseError {
    /// The line, counted from 1
    pub line: usize,
    pub message: String,
}

/// The source of a plugin, in chars.
pub enum SourceView {
    Core,
    Git(Seq<char>),
    Path(Seq<char>),
}

/// A plugin, in chars.
pub struct PluginView {
    pub name: Seq<char>,
    pub rust_name: Seq<char>,
    pub source: SourceView,
}

/// A parse error, in chars.
pub struct ErrorView {
    pub line: int,
    pub message: Seq<char>,
}

pub open spec fn source_view(s: PluginSource) -> SourceView {
    match s {
        PluginSource::Core => SourceView::Core,
        PluginSource::Git(u) => SourceView::Git(u@),
        PluginSource::Path(p) => SourceView::Path(p@),
    }
}

pub open spec fn plugin_view(p: Plugin) -> PluginView {
    PluginView { name: p.name@, rust_name: p.rust_name@, source: source_view(p.source) }
}

pub open spec fn error_view(e: ParseError) -> ErrorView {
    ErrorView { line: e.line as int, message: e.message@ }
}

/// What one line of the manifest declares.
pub enum LineOutcome {
    Skip,
    Plugin(PluginView),
    /// A path plugin in the given directory, whose name its `Cargo.toml` gives
    Path(Seq<char>),
    Error(Seq<char>),
}

/// The path of `Cargo.toml` inside directory `dir`, as `Path::join` makes it on Unix:
/// the file name alone for an empty directory, else the directory and the file name
/// with one `/` between them.
pub open spec fn manifest_of(dir: Seq<char>) -> Seq<char> {
    if dir.len() == 0 {
        "Cargo.toml"@
    } else if dir.last() == '/' {
        dir + "Cargo.toml"@
    } else {
        dir + "/Cargo.toml"@
    }
}

/// The path of the `Cargo.toml` of a path plugin in `dir`.
pub fn manifest_location(dir: &str) -> (r: String)
    ensures
        r@ == manifest_of(dir@),
{
    let cs = crate::text::chars_of(dir);
    if cs.len() == 0 {
        owned("Cargo.toml")
    } else if cs[cs.len() - 1] == '/' {
        let mut r = owned(dir);
        append_str(&mut r, "Cargo.toml");
        r
    } else {
        let mut r = owned(dir);
        append_str(&mut r, "/Cargo.toml");
        r
    }
}

/// The plugin the words of a declaration name, with `-` replaced by `_` in its Rust
/// name.
pub open spec fn named(name: Seq<char>, source: SourceView) -> PluginView {
    PluginView { name, rust_name: underscored(name), source }
}

/// What a line declares.
pub open spec fn line_outcome(line: Seq<char>) -> LineOutcome {
    let t = trim(line.take(find_char(line, '#')));
    let ws = words(t);
    if t.len() == 0 || ws.len() == 0 {
        LineOutcome::Skip
    } else if ws[0] != "plugin"@ {
        LineOutcome::Error("unexpected token '"@ + ws[0] + "'; expected 'plugin'"@)
    } else if ws.len() < 3 {
        LineOutcome::Error("plugin declaration requires a type and name (e.g. 'plugin core kerbin-lsp')"@)
    } else if ws[1] == "core"@ {
        LineOutcome::Plugin(named(ws[2], SourceView::Core))
    } else if ws[1] == "git"@ {
        if ws.len() < 4 {
            LineOutcome::Error("git plugin requires: plugin git <name> <url>"@)
        } else {
            LineOutcome::Plugin(named(ws[2], SourceView::Git(ws[3])))
        }
    } else if ws[1] == "path"@ {
        LineOutcome::Path(ws[2])
    } else {
        LineOutcome::Error("unknown plugin type '"@ + ws[1] + "'; expected 'core', 'git', or 'path'"@)
    }
}

/// `s` without leading or trailing `"`.
pub open spec fn trim_quotes(s: Seq<char>) -> Seq<char>
    decreases s.len(),
{
    if s.len() > 0 && s[0] == '"' {
        trim_quotes(s.drop_first())
    } else if s.len() > 0 && s.last() == '"' {
        trim_quotes(s.drop_last())
    } else {
        s
    }
}

/// The value of a `name = "..."` line of the `[package]` table: the text after `name`,
/// `=` and whitespace, without quotes; `None` when the line is not such a line or the
/// value is empty.
pub open spec fn name_value(t: Seq<char>) -> Option<Seq<char>> {
    if t.len() >= 4 && t.take(4) == seq!['n', 'a', 'm', 'e'] {
        let rest = crate::text_spans::trim_start(t.skip(4));
        if rest.len() > 0 && rest[0] == '=' {
            let v = trim_quotes(trim(rest.skip(1)));
            if v.len() > 0 {
                Some(v)
            } else {
                None
            }
        } else {
            None
        }
    } else {
        None
    }
}

/// Scanning the trimmed lines from `i` on, inside `[package]` or not: the package name.
pub open spec fn name_scan(ls: Seq<Seq<char>>, i: int, in_package: bool) -> Option<Seq<char>>
    decreases ls.len() - i,
{
    if i < 0 || i >= ls.len() {
        None
    } else {
        let t = trim(ls[i]);
        if t == "[package]"@ {
            name_scan(ls, i + 1, true)
        } else if in_package && t.len() > 0 && t[0] == '[' {
            None
        } else if in_package && name_value(t) is Some {
            name_value(t)
        } else {
            name_scan(ls, i + 1, in_package)
        }
    }
}

/// The package name a `Cargo.toml` gives: the first `name = "..."` of its `[package]`
/// table (before the next table).
pub open spec fn cargo_name(content: Seq<char>) -> Option<Seq<char>> {
    name_scan(std_lines(content), 0, false)
}

/// What a path plugin in `dir` comes to, given how reading its `Cargo.toml` went.
pub open spec fn path_outcome(dir: Seq<char>, read: Result<Seq<char>, Seq<char>>) -> Result<PluginView, Seq<char>> {
    match read {
        Ok(content) => match cargo_name(content) {
            Some(name) => Ok(named(name, SourceView::Path(dir))),
            None => Err("could not find package name in '"@ + manifest_of(dir) + "'"@),
        },
        Err(e) => Err("cannot read '"@ + manifest_of(dir) + "': "@ + e),
    }
}

/// The plugins and errors of lines `i..` (numbered from 1), the path plugins among
/// them resolved with the reads from `k` on.
pub open spec fn parse_lines(ls: Seq<Seq<char>>, i: int, reads: Seq<Result<Seq<char>, Seq<char>>>, k: int) -> (Seq<PluginView>, Seq<ErrorView>)
    decreases ls.len() - i,
{
    if i < 0 || i >= ls.len() {
        (seq![], seq![])
    } else {
        match line_outcome(ls[i]) {
            LineOutcome::Skip => parse_lines(ls, i + 1, reads, k),
            LineOutcome::Plugin(p) => {
                let rest = parse_lines(ls, i + 1, reads, k);
                (seq![p] + rest.0, rest.1)
            },
            LineOutcome::Error(m) => {
                let rest = parse_lines(ls, i + 1, reads, k);
                (rest.0, seq![ErrorView { line: i + 1, message: m }] + rest.1)
            },
            LineOutcome::Path(dir) => {
                let rest = parse_lines(ls, i + 1, reads, k + 1);
                match path_outcome(dir, reads[k]) {
                    Ok(p) => (seq![p] + rest.0, rest.1),
                    Err(m) => (rest.0, seq![ErrorView { line: i + 1, message: m }] + rest.1),
                }
            },
        }
    }
}

/// The directories of the path plugins of lines `i..`, in order.
pub open spec fn path_dirs(ls: Seq<Seq<char>>, i: int) -> Seq<Seq<char>>
    decreases ls.len() - i,
{
    if i < 0 || i >= ls.len() {
        seq![]
    } else {
        match line_outcome(ls[i]) {
            LineOutcome::Path(dir) => seq![dir] + path_dirs(ls, i + 1),
            _ => path_dirs(ls, i + 1),
        }
    }
}

fn span_string(v: &Vec<char>, a: usize, b: usize) -> (r: String)
    requires
        a <= b <= v@.len(),
    ensures
        r@ == v@.subrange(a as int, b as int),
{
    let mut r = String::new();
    let mut i = a;
    while i < b
        invariant
            a <= i <= b,
            b <= v@.len(),
            r@ == v@.subrange(a as int, i as int),
        decreases b - i,
    {
        push_char(&mut r, v[i]);
        i += 1;
        assert(r@ =~= v@.subrange(a as int, i as int));
    }
    r
}

fn span_eq(v: &Vec<char>, a: usize, b: usize, lit: &str) -> (r: bool)
    requires
        a <= b <= v@.len(),
    ensures
        r == (v@.subrange(a as int, b as int) == lit@),
{
    let l = crate::text::chars_of(lit);
    if b - a != l.len() {
        return false;
    }
    let mut i: usize = 0;
    while i < l.len()
        invariant
            i <= l@.len(),
            l@ == lit@,
            b - a == l@.len(),
            a <= b <= v@.len(),
            forall|j: int| 0 <= j < i ==> v@[a + j] == l@[j],
        decreases l@.len() - i,
    {
        if v[a + i] != l[i] {
            assert(v@.subrange(a as int, b as int)[i as int] != lit@[i as int]);
            return false;
        }
        i += 1;
    }
    assert(v@.subrange(a as int, b as int) =~= lit@);
    true
}

/// The words of the line `v[a..b]`, its `#` comment cut off, as spans.
fn line_words(v: &Vec<char>, a: usize, b: usize) -> (r: Vec<(usize, usize)>)
    requires
        a <= b <= v@.len(),
    ensures
        forall|i: int| 0 <= i < r@.len() ==> (#[trigger] r@[i]).0 <= r@[i].1 <= v@.len(),
        r@.map_values(|p: (usize, usize)| v@.subrange(p.0 as int, p.1 as int)) == words(
            trim(v@.subrange(a as int, b as int).take(find_char(v@.subrange(a as int, b as int), '#'))),
        ),
{
    let h = find_char_in(v, a, b, '#');
    let (ta, tb) = trim_span(v, a, h);
    proof {
        assert(v@.subrange(a as int, b as int).take(h - a) =~= v@.subrange(a as int, h as int));
    }
    word_spans(v, ta, tb)
}

/// The span of `v[x..y]` without leading or trailing `"`.
fn trim_quotes_span(v: &Vec<char>, x: usize, y: usize) -> (r: (usize, usize))
    requires
        x <= y <= v@.len(),
    ensures
        x <= r.0 <= r.1 <= y,
        trim_quotes(v@.subrange(x as int, y as int)) == v@.subrange(r.0 as int, r.1 as int),
{
    let mut a = x;
    while a < y && v[a] == '"'
        invariant
            x <= a <= y,
            y <= v@.len(),
            trim_quotes(v@.subrange(x as int, y as int)) == trim_quotes(v@.subrange(a as int, y as int)),
        decreases y - a,
    {
        assert(v@.subrange(a as int, y as int).drop_first() =~= v@.subrange(a + 1, y as int));
        a += 1;
    }
    let mut b = y;
    while b > a && v[b - 1] == '"'
        invariant
            x <= a <= b <= y,
            y <= v@.len(),
            a < b ==> v@[a as int] != '"',
            a == y || v@[a as int] != '"',
            trim_quotes(v@.subrange(x as int, y as int)) == trim_quotes(v@.subrange(a as int, b as int)),
        decreases b - a,
    {
        assert(v@.subrange(a as int, b as int).drop_last() =~= v@.subrange(a as int, b - 1));
        assert(v@.subrange(a as int, b as int)[0] == v@[a as int]);
        b -= 1;
    }
    proof {
        if a < b {
            assert(v@.subrange(a as int, b as int)[0] == v@[a as int]);
            assert(v@.subrange(a as int, b as int).last() == v@[b - 1]);
        }
    }
    (a, b)
}

/// `name_value` of the span `v[ta..tb]`, as a span.
fn name_value_span(v: &Vec<char>, ta: usize, tb: usize) -> (r: Option<(usize, usize)>)
    requires
        ta <= tb <= v@.len(),
    ensures
        match r {
            Some(p) => p.0 <= p.1 <= v@.len() && name_value(v@.subrange(ta as int, tb as int)) == Some(
                v@.subrange(p.0 as int, p.1 as int),
            ),
            None => name_value(v@.subrange(ta as int, tb as int)) is None,
        },
{
    let ghost t = v@.subrange(ta as int, tb as int);
    if tb - ta < 4 {
        return None;
    }
    if !(v[ta] == 'n' && v[ta + 1] == 'a' && v[ta + 2] == 'm' && v[ta + 3] == 'e') {
        proof {
            if t.take(4) == seq!['n', 'a', 'm', 'e'] {
                assert(t.take(4)[0] == v@[ta as int]);
                assert(t.take(4)[1] == v@[ta + 1]);
                assert(t.take(4)[2] == v@[ta + 2]);
                assert(t.take(4)[3] == v@[ta + 3]);
            }
        }
        return None;
    }
    proof {
        assert(t.take(4) =~= seq!['n', 'a', 'm', 'e']);
        assert(t.skip(4) =~= v@.subrange(ta + 4, tb as int));
    }
    let rest = crate::text_spans::trim_start_span(v, ta + 4, tb);
    if rest < tb && v[rest] == '=' {
        let (x, y) = trim_span(v, rest + 1, tb);
        proof {
            assert(v@.subrange(rest as int, tb as int).skip(1) =~= v@.subrange(rest + 1, tb as int));
            assert(v@.subrange(rest as int, tb as int)[0] == v@[rest as int]);
        }
        let (qa, qb) = trim_quotes_span(v, x, y);
        if qa < qb {
            Some((qa, qb))
        } else {
            proof {
                assert(v@.subrange(qa as int, qb as int).len() == 0);
            }
            None
        }
    } else {
        proof {
            if rest < tb {
                assert(v@.subrange(rest as int, tb as int)[0] == v@[rest as int]);
            }
        }
        None
    }
}

/// The package name a `Cargo.toml` gives: the first `name = "..."` of its `[package]`
/// table, before the next table.
pub fn extract_cargo_name(content: &str) -> (r: Option<String>)
    ensures
        match r {
            Some(n) => cargo_name(content@) == Some(n@),
            None => cargo_name(content@) is None,
        },
{
    let v = crate::text::chars_of(content);
    let spans = line_spans(&v);
    let ghost ls = std_lines(v@);
    let mut in_package = false;
    let mut i: usize = 0;
    while i < spans.len()
        invariant
            v@ == content@,
            ls == std_lines(v@),
            spans@.len() == ls.len(),
            forall|j: int| 0 <= j < spans@.len() ==> {
                let (a, b) = #[trigger] spans@[j];
                a <= b <= v@.len() && v@.subrange(a as int, b as int) == ls[j]
            },
            i <= spans@.len(),
            name_scan(ls, i as int, in_package) == name_scan(ls, 0, false),
        decreases spans@.len() - i,
    {
        let (a, b) = spans[i];
        let (ta, tb) = trim_span(&v, a, b);
        if span_eq(&v, ta, tb, "[package]") {
            in_package = true;
        } else if in_package && ta < tb && v[ta] == '[' {
            proof {
                assert(v@.subrange(ta as int, tb as int)[0] == v@[ta as int]);
            }
            return None;
        } else if in_package {
            proof {
                if ta < tb {
                    assert(v@.subrange(ta as int, tb as int)[0] == v@[ta as int]);
                }
            }
            match name_value_span(&v, ta, tb) {
                Some((x, y)) => {
                    return Some(span_string(&v, x, y));
                },
                None => {},
            }
        } else {
            proof {
                if ta < tb {
                    assert(v@.subrange(ta as int, tb as int)[0] == v@[ta as int]);
                }
            }
        }
        i += 1;
    }
    None
}

/// How reading a manifest went, in chars.
pub open spec fn read_view(r: Result<String, String>) -> Result<Seq<char>, Seq<char>> {
    match r {
        Ok(c) => Ok(c@),
        Err(e) => Err(e@),
    }
}

/// The directories of the path plugins the manifest declares, in order: the caller
/// reads each one's `Cargo.toml` (see `manifest_location`) before `parse`.
pub fn path_plugin_dirs(content: &str) -> (r: Vec<String>)
    ensures
        r@.map_values(|d: String| d@) == path_dirs(std_lines(content@), 0),
{
    let v = crate::text::chars_of(content);
    let spans = line_spans(&v);
    let ghost ls = std_lines(v@);
    let mut r: Vec<String> = Vec::new();
    let mut i: usize = 0;
    while i < spans.len()
        invariant
            v@ == content@,
            ls == std_lines(v@),
            spans@.len() == ls.len(),
            forall|j: int| 0 <= j < spans@.len() ==> {
                let (a, b) = #[trigger] spans@[j];
                a <= b <= v@.len() && v@.subrange(a as int, b as int) == ls[j]
            },
            i <= spans@.len(),
            r@.map_values(|d: String| d@) + path_dirs(ls, i as int) == path_dirs(ls, 0),
        decreases spans@.len() - i,
    {
        let (a, b) = spans[i];
        let ws = line_words(&v, a, b);
        let ghost wv = ws@.map_values(|p: (usize, usize)| v@.subrange(p.0 as int, p.1 as int));
        proof {
            assert(ls[i as int] == v@.subrange(a as int, b as int));
        }
        if ws.len() >= 3 && span_eq(&v, ws[0].0, ws[0].1, "plugin") && !span_eq(&v, ws[1].0, ws[1].1, "core")
            && !span_eq(&v, ws[1].0, ws[1].1, "git") && span_eq(&v, ws[1].0, ws[1].1, "path") {
            proof {
                assert(wv[0] == v@.subrange(ws@[0].0 as int, ws@[0].1 as int));
                assert(wv[1] == v@.subrange(ws@[1].0 as int, ws@[1].1 as int));
                assert(wv[2] == v@.subrange(ws@[2].0 as int, ws@[2].1 as int));
                assert(line_outcome(ls[i as int]) == LineOutcome::Path(wv[2]));
            }
            let d = span_string(&v, ws[2].0, ws[2].1);
            r.push(d);
            proof {
                assert(r@.map_values(|d: String| d@) =~= r@.drop_last().map_values(|d: String| d@).push(wv[2]));
            }
        } else {
            proof {
                if ws@.len() >= 1 {
                    assert(wv[0] == v@.subrange(ws@[0].0 as int, ws@[0].1 as int));
                }
                if ws@.len() >= 2 {
                    assert(wv[1] == v@.subrange(ws@[1].0 as int, ws@[1].1 as int));
                }
                assert(!(line_outcome(ls[i as int]) is Path));
            }
        }
        i += 1;
    }
    proof {
        assert(path_dirs(ls, i as int) =~= Seq::<Seq<char>>::empty());
    }
    r
}

fn message2(a: &str, mid: &String, b: &str) -> (r: String)
    ensures
        r@ == a@ + mid@ + b@,
{
    let mut m = owned(a);
    append_str(&mut m, mid.as_str());
    append_str(&mut m, b);
    m
}

/// Parses the manifest. `manifests` holds, for each path plugin in order (see
/// `path_plugin_dirs`), how reading its `Cargo.toml` went: the content, or the error.
/// The plugins when every line is understood, all the errors otherwise.
pub fn parse(content: &str, manifests: &[Result<String, String>]) -> (r: Result<Vec<Plugin>, Vec<ParseError>>)
    requires
        manifests@.len() == path_dirs(std_lines(content@), 0).len(),
    ensures
        ({
            let (ps, es) = parse_lines(std_lines(content@), 0, manifests@.map_values(|m: Result<String, String>| read_view(m)), 0);
            match r {
                Ok(v) => es.len() == 0 && v@.map_values(|p: Plugin| plugin_view(p)) == ps,
                Err(e) => es.len() > 0 && e@.map_values(|x: ParseError| error_view(x)) == es,
            }
        }),
{
    let v = crate::text::chars_of(content);
    let spans = line_spans(&v);
    let ghost ls = std_lines(v@);
    let ghost reads = manifests@.map_values(|m: Result<String, String>| read_view(m));
    let ghost total = parse_lines(ls, 0, reads, 0);
    let mut plugins: Vec<Plugin> = Vec::new();
    let mut errors: Vec<ParseError> = Vec::new();
    let mut k: usize = 0;
    let mut i: usize = 0;
    while i < spans.len()
        invariant
            v@ == content@,
            ls == std_lines(v@),
            reads == manifests@.map_values(|m: Result<String, String>| read_view(m)),
            total == parse_lines(ls, 0, reads, 0),
            spans@.len() == ls.len(),
            forall|j: int| 0 <= j < spans@.len() ==> {
                let (a, b) = #[trigger] spans@[j];
                a <= b <= v@.len() && v@.subrange(a as int, b as int) == ls[j]
            },
            i <= spans@.len(),
            k + path_dirs(ls, i as int).len() == path_dirs(ls, 0).len(),
            manifests@.len() == path_dirs(ls, 0).len(),
            plugins@.map_values(|p: Plugin| plugin_view(p)) + parse_lines(ls, i as int, reads, k as int).0 == total.0,
            errors@.map_values(|x: ParseError| error_view(x)) + parse_lines(ls, i as int, reads, k as int).1 == total.1,
        decreases spans@.len() - i,
    {
        let (a, b) = spans[i];
        let ws = line_words(&v, a, b);
        let ghost wv = ws@.map_values(|p: (usize, usize)| v@.subrange(p.0 as int, p.1 as int));
        let ghost pv = plugins@.map_values(|p: Plugin| plugin_view(p));
        let ghost ev = errors@.map_values(|x: ParseError| error_view(x));
        let ghost rest = parse_lines(ls, i + 1, reads, k as int);
        proof {
            assert(ls[i as int] == v@.subrange(a as int, b as int));
            if ws@.len() >= 1 {
                assert(wv[0] == v@.subrange(ws@[0].0 as int, ws@[0].1 as int));
            }
            if ws@.len() >= 2 {
                assert(wv[1] == v@.subrange(ws@[1].0 as int, ws@[1].1 as int));
            }
            if ws@.len() >= 3 {
                assert(wv[2] == v@.subrange(ws@[2].0 as int, ws@[2].1 as int));
            }
            if ws@.len() >= 4 {
                assert(wv[3] == v@.subrange(ws@[3].0 as int, ws@[3].1 as int));
            }
        }
        let line = i + 1;
        if ws.len() == 0 {
            proof {
                assert(line_outcome(ls[i as int]) == LineOutcome::Skip);
            }
        } else if !span_eq(&v, ws[0].0, ws[0].1, "plugin") {
            let w0 = span_string(&v, ws[0].0, ws[0].1);
            let m = message2("unexpected token '", &w0, "'; expected 'plugin'");
            errors.push(ParseError { line, message: m });
            proof {
                assert(errors@.map_values(|x: ParseError| error_view(x)) =~= ev.push(ErrorView { line: i + 1, message: m@ }));
            }
        } else if ws.len() < 3 {
            let m = owned("plugin declaration requires a type and name (e.g. 'plugin core kerbin-lsp')");
            errors.push(ParseError { line, message: m });
            proof {
                assert(errors@.map_values(|x: ParseError| error_view(x)) =~= ev.push(ErrorView { line: i + 1, message: m@ }));
            }
        } else if span_eq(&v, ws[1].0, ws[1].1, "core") {
            let name = span_string(&v, ws[2].0, ws[2].1);
            let rust_name = crate::paths::underscored_exec(name.as_str());
            let p = Plugin { name, rust_name, source: PluginSource::Core };
            let ghost pvw = plugin_view(p);
            plugins.push(p);
            proof {
                assert(plugins@.map_values(|p: Plugin| plugin_view(p)) =~= pv.push(pvw));
            }
        } else if span_eq(&v, ws[1].0, ws[1].1, "git") {
            if ws.len() < 4 {
                let m = owned("git plugin requires: plugin git <name> <url>");
                errors.push(ParseError { line, message: m });
                proof {
                    assert(errors@.map_values(|x: ParseError| error_view(x)) =~= ev.push(ErrorView { line: i + 1, message: m@ }));
                }
            } else {
                let name = span_string(&v, ws[2].0, ws[2].1);
                let url = span_string(&v, ws[3].0, ws[3].1);
                let rust_name = crate::paths::underscored_exec(name.as_str());
                let p = Plugin { name, rust_name, source: PluginSource::Git(url) };
                let ghost pvw = plugin_view(p);
                plugins.push(p);
                proof {
                    assert(plugins@.map_values(|p: Plugin| plugin_view(p)) =~= pv.push(pvw));
                }
            }
        } else if span_eq(&v, ws[1].0, ws[1].1, "path") {
            proof {
                assert(line_outcome(ls[i as int]) == LineOutcome::Path(wv[2]));
                assert(path_dirs(ls, i as int) == seq![wv[2]] + path_dirs(ls, i + 1));
            }
            let dir = span_string(&v, ws[2].0, ws[2].1);
            let loc = manifest_location(dir.as_str());
            let ghost rest2 = parse_lines(ls, i + 1, reads, k + 1);
            match &manifests[k] {
                Ok(text) => {
                    match extract_cargo_name(text.as_str()) {
                        Some(name) => {
                            let rust_name = crate::paths::underscored_exec(name.as_str());
                            let p = Plugin { name, rust_name, source: PluginSource::Path(dir) };
                            let ghost pvw = plugin_view(p);
                            plugins.push(p);
                            proof {
                                assert(reads[k as int] == read_view(manifests@[k as int]));
                                assert(plugins@.map_values(|p: Plugin| plugin_view(p)) =~= pv.push(pvw));
                            }
                        },
                        None => {
                            let m = message2("could not find package name in '", &loc, "'");
                            errors.push(ParseError { line, message: m });
                            proof {
                                assert(reads[k as int] == read_view(manifests@[k as int]));
                                assert(errors@.map_values(|x: ParseError| error_view(x)) =~= ev.push(ErrorView { line: i + 1, message: m@ }));
                            }
                        },
                    }
                },
                Err(e) => {
                    let mut m = message2("cannot read '", &loc, "': ");
                    append_str(&mut m, e.as_str());
                    errors.push(ParseError { line, message: m });
                    proof {
                        assert(reads[k as int] == read_view(manifests@[k as int]));
                        assert(errors@.map_values(|x: ParseError| error_view(x)) =~= ev.push(ErrorView { line: i + 1, message: m@ }));
                    }
                },
            }
            k += 1;
        } else {
            let w1 = span_string(&v, ws[1].0, ws[1].1);
            let m = message2("unknown plugin type '", &w1, "'; expected 'core', 'git', or 'path'");
            errors.push(ParseError { line, message: m });
            proof {
                assert(errors@.map_values(|x: ParseError| error_view(x)) =~= ev.push(ErrorView { line: i + 1, message: m@ }));
            }
        }
        i += 1;
    }
    proof {
        assert(parse_lines(ls, i as int, reads, k as int).0 =~= Seq::<PluginView>::empty());
        assert(plugins@.map_values(|p: Plugin| plugin_view(p)) =~= total.0);
        assert(errors@.map_values(|x: ParseError| error_view(x)) =~= total.1);
    }
    if errors.len() == 0 {
        Ok(plugins)
    } else {
        Err(errors)
    }
}

/// The first lines of the generated `lib.rs`, before the plugin calls.
pub open spec fn lib_rs_head() -> Seq<char> {
    "// AUTO-GENERATED by booster from build.kb — do not edit manually\n"@ + "use kerbin_core::State;\n"@ + "\n"@
        + "pub async fn init(state: &mut State) {\n"@
}

/// The calls of the plugins' `init`, one line each.
pub open spec fn init_calls(ps: Seq<PluginView>) -> Seq<char>
    decreases ps.len(),
{
    if ps.len() == 0 {
        seq![]
    } else {
        init_calls(ps.drop_last()) + "    "@ + ps.last().rust_name + "::init(state).await;\n"@
    }
}

/// The `lib.rs` of the config crate: an `init` that calls each plugin's `init` in turn.
pub fn generate_lib_rs(plugins: &[Plugin]) -> (r: String)
    ensures
        r@ == lib_rs_head() + init_calls(plugins@.map_values(|p: Plugin| plugin_view(p))) + "}\n"@,
{
    let mut lib = owned("// AUTO-GENERATED by booster from build.kb — do not edit manually\n");
    append_str(&mut lib, "use kerbin_core::State;\n");
    append_str(&mut lib, "\n");
    append_str(&mut lib, "pub async fn init(state: &mut State) {\n");
    let ghost pv = plugins@.map_values(|p: Plugin| plugin_view(p));
    let mut i: usize = 0;
    while i < plugins.len()
        invariant
            i <= plugins@.len(),
            pv == plugins@.map_values(|p: Plugin| plugin_view(p)),
            lib@ == lib_rs_head() + init_calls(pv.take(i as int)),
        decreases plugins@.len() - i,
    {
        append_str(&mut lib, "    ");
        append_str(&mut lib, plugins[i].rust_name.as_str());
        append_str(&mut lib, "::init(state).await;\n");
        proof {
            assert(pv.take(i + 1).drop_last() =~= pv.take(i as int));
            assert(pv.take(i + 1).last() == plugin_view(plugins@[i as int]));
        }
        i += 1;
    }
    proof {
        assert(pv.take(i as int) =~= pv);
    }
    append_str(&mut lib, "}\n");
    lib
}

/// The dependency line of one plugin, whose path (for a core or path plugin) is `path`.
pub open spec fn dependency_line(p: PluginView, path: Seq<char>) -> Seq<char> {
    match p.source {
        SourceView::Git(url) => p.name + " = { git = \""@ + url + "\" }\n"@,
        _ => p.name + " = { path = \""@ + path + "\" }\n"@,
    }
}

/// The dependency lines of the plugins.
pub open spec fn dependency_lines(ps: Seq<PluginView>, paths: Seq<Seq<char>>) -> Seq<char>
    decreases ps.len(),
{
    if ps.len() == 0 {
        seq![]
    } else {
        dependency_lines(ps.drop_last(), paths) + dependency_line(ps.last(), paths[ps.len() - 1])
    }
}

/// The head of the generated `Cargo.toml`, up to the `kerbin-core` dependency at
/// `core_path`.
pub open spec fn cargo_toml_head(core_path: Seq<char>) -> Seq<char> {
    "[package]\n"@ + "name = \"config\"\n"@ + "version = \"0.0.0\"\n"@ + "edition = \"2024\"\n"@
        + "\n[dependencies]\n"@ + "kerbin-core = { path = \""@ + core_path + "\" }\n"@
}

/// The `Cargo.toml` of the config crate: `kerbin-core` at `core_path`, then each plugin
/// (a core or path plugin at its entry of `plugin_paths`, a git plugin by its url), and
/// a `[workspace]` table of its own.
pub fn generate_cargo_toml(plugins: &[Plugin], core_path: &str, plugin_paths: &[String]) -> (r: String)
    requires
        plugin_paths@.len() == plugins@.len(),
    ensures
        r@ == cargo_toml_head(core_path@) + dependency_lines(
            plugins@.map_values(|p: Plugin| plugin_view(p)),
            plugin_paths@.map_values(|s: String| s@),
        ) + "\n[workspace]\n"@,
{
    let mut toml = owned("[package]\n");
    append_str(&mut toml, "name = \"config\"\n");
    append_str(&mut toml, "version = \"0.0.0\"\n");
    append_str(&mut toml, "edition = \"2024\"\n");
    append_str(&mut toml, "\n[dependencies]\n");
    append_str(&mut toml, "kerbin-core = { path = \"");
    append_str(&mut toml, core_path);
    append_str(&mut toml, "\" }\n");
    let ghost pv = plugins@.map_values(|p: Plugin| plugin_view(p));
    let ghost paths = plugin_paths@.map_values(|s: String| s@);
    let mut i: usize = 0;
    while i < plugins.len()
        invariant
            i <= plugins@.len(),
            plugin_paths@.len() == plugins@.len(),
            pv == plugins@.map_values(|p: Plugin| plugin_view(p)),
            paths == plugin_paths@.map_values(|s: String| s@),
            toml@ == cargo_toml_head(core_path@) + dependency_lines(pv.take(i as int), paths),
        decreases plugins@.len() - i,
    {
        let p = &plugins[i];
        append_str(&mut toml, p.name.as_str());
        match &p.source {
            PluginSource::Git(url) => {
                append_str(&mut toml, " = { git = \"");
                append_str(&mut toml, url.as_str());
                append_str(&mut toml, "\" }\n");
            },
            _ => {
                append_str(&mut toml, " = { path = \"");
                append_str(&mut toml, plugin_paths[i].as_str());
                append_str(&mut toml, "\" }\n");
            },
        }
        proof {
            assert(pv.take(i + 1).drop_last() =~= pv.take(i as int));
            assert(pv.take(i + 1).last() == plugin_view(plugins@[i as int]));
            assert(pv.take(i + 1).len() == i + 1);
            assert(paths[i as int] == plugin_paths@[i as int]@);
        }
        i += 1;
    }
    proof {
        assert(pv.take(i as int) =~= pv);
    }
    append_str(&mut toml, "\n[workspace]\n");
    toml
}

/// The components of the path from directory `from` to `to` (both given as components
/// of canonical paths): up out of what they do not share, then down into `to`.
pub open spec fn relative(from: Seq<Seq<char>>, to: Seq<Seq<char>>, common: int) -> Seq<Seq<char>> {
    Seq::new((from.len() - common) as nat, |i: int| ".."@) + to.skip(common)
}

/// The number of leading components two paths share.
pub open spec fn common_prefix(a: Seq<Seq<char>>, b: Seq<Seq<char>>) -> int
    decreases a.len(),
{
    if a.len() == 0 || b.len() == 0 || a[0] != b[0] {
        0
    } else {
        1 + common_prefix(a.drop_first(), b.drop_first())
    }
}

/// The components of the relative path from directory `from` to `to`.
pub fn relative_components(from: &[String], to: &[String]) -> (r: Vec<String>)
    ensures
        ({
            let f = from@.map_values(|s: String| s@);
            let t = to@.map_values(|s: String| s@);
            r@.map_values(|s: String| s@) == relative(f, t, common_prefix(f, t))
        }),
{
    let ghost f = from@.map_values(|s: String| s@);
    let ghost t = to@.map_values(|s: String| s@);
    let mut common: usize = 0;
    proof {
        assert(f.skip(0) =~= f);
        assert(t.skip(0) =~= t);
    }
    while common < from.len() && common < to.len() && from[common] == to[common]
        invariant
            common <= from@.len(),
            common <= to@.len(),
            f == from@.map_values(|s: String| s@),
            t == to@.map_values(|s: String| s@),
            common_prefix(f, t) == common + common_prefix(f.skip(common as int), t.skip(common as int)),
        decreases from@.len() - common,
    {
        proof {
            assert(f.skip(common as int).drop_first() =~= f.skip(common + 1));
            assert(t.skip(common as int).drop_first() =~= t.skip(common + 1));
            assert(f.skip(common as int)[0] == from@[common as int]@);
            assert(t.skip(common as int)[0] == to@[common as int]@);
        }
        common += 1;
    }
    proof {
        if common < from@.len() && common < to@.len() {
            assert(f.skip(common as int)[0] == from@[common as int]@);
            assert(t.skip(common as int)[0] == to@[common as int]@);
        }
        assert(common_prefix(f.skip(common as int), t.skip(common as int)) == 0);
    }
    let ghost rel = relative(f, t, common as int);
    let mut r: Vec<String> = Vec::new();
    let mut i: usize = common;
    while i < from.len()
        invariant
            common <= i <= from@.len(),
            common <= to@.len(),
            f == from@.map_values(|s: String| s@),
            t == to@.map_values(|s: String| s@),
            rel == relative(f, t, common as int),
            r@.len() == i - common,
            forall|k: int| 0 <= k < r@.len() ==> #[trigger] r@[k]@ == rel[k],
        decreases from@.len() - i,
    {
        let up = owned("..");
        r.push(up);
        i += 1;
    }
    let mut j: usize = common;
    while j < to.len()
        invariant
            common <= j <= to@.len(),
            common <= from@.len(),
            f == from@.map_values(|s: String| s@),
            t == to@.map_values(|s: String| s@),
            rel == relative(f, t, common as int),
            r@.len() == from@.len() - common + (j - common),
            forall|k: int| 0 <= k < r@.len() ==> #[trigger] r@[k]@ == rel[k],
        decreases to@.len() - j,
    {
        let down = to[j].clone();
        proof {
            assert(down@ == t[j as int]);
            assert(rel[r@.len() as int] == t.skip(common as int)[j - common]);
        }
        r.push(down);
        j += 1;
    }
    proof {
        assert(r@.map_values(|s: String| s@) =~= rel);
    }
    r
}

/// A path written from the root (`/...`), which `Path::is_absolute` holds of on Unix.
pub open spec fn is_absolute_path(d: Seq<char>) -> bool {
    d.len() > 0 && d[0] == '/'
}

/// A directory that must be made relative to the generated crate before it is written
/// into `Cargo.toml`.
pub enum RelativeTarget {
    /// The core plugin of that name, under the build directory's `plugins`
    CorePlugin(String),
    /// An absolute plugin directory
    Absolute(String),
}

/// What must be made relative for plugin `p`: nothing for a git plugin or a relative
/// path plugin, which is written as given.
pub fn relative_target(p: &Plugin) -> (r: Option<RelativeTarget>)
    ensures
        match source_view(p.source) {
            SourceView::Core => r matches Some(RelativeTarget::CorePlugin(n)) && n@ == p.name@,
            SourceView::Git(_) => r is None,
            SourceView::Path(d) => if is_absolute_path(d) {
                r matches Some(RelativeTarget::Absolute(x)) && x@ == d
            } else {
                r is None
            },
        },
{
    match &p.source {
        PluginSource::Core => Some(RelativeTarget::CorePlugin(p.name.clone())),
        PluginSource::Git(_) => None,
        PluginSource::Path(d) => {
            let cs = crate::text::chars_of(d.as_str());
            if cs.len() > 0 && cs[0] == '/' {
                Some(RelativeTarget::Absolute(d.clone()))
            } else {
                None
            }
        },
    }
}

/// The path written for plugin `p`, given the relative form `rel` of its target (see
/// `relative_target`; unused where there is none).
pub open spec fn plugin_path_of(p: PluginView, rel: Seq<char>) -> Seq<char> {
    match p.source {
        SourceView::Core => rel,
        SourceView::Git(_) => seq![],
        SourceView::Path(d) => if is_absolute_path(d) {
            rel
        } else {
            d
        },
    }
}

/// The path of each plugin's crate as the generated crate sees it: a relative path
/// plugin's directory as written, the relative forms `rel` (one per plugin, made by
/// the caller from `relative_target`) for core plugins and absolute directories, and
/// nothing for git plugins.
pub fn plugin_paths(plugins: &[Plugin], rel: &[String]) -> (r: Vec<String>)
    requires
        rel@.len() == plugins@.len(),
    ensures
        r@.len() == plugins@.len(),
        forall|i: int| 0 <= i < plugins@.len() ==> (#[trigger] r@[i])@ == plugin_path_of(
            plugin_view(plugins@[i]),
            rel@[i]@,
        ),
{
    let mut r: Vec<String> = Vec::new();
    let mut i: usize = 0;
    while i < plugins.len()
        invariant
            i <= plugins@.len(),
            rel@.len() == plugins@.len(),
            r@.len() == i,
            forall|j: int| 0 <= j < i ==> (#[trigger] r@[j])@ == plugin_path_of(plugin_view(plugins@[j]), rel@[j]@),
        decreases plugins@.len() - i,
    {
        let path = match &plugins[i].source {
            PluginSource::Core => rel[i].clone(),
            PluginSource::Git(_) => String::new(),
            PluginSource::Path(d) => {
                let cs = crate::text::chars_of(d.as_str());
                if cs.len() > 0 && cs[0] == '/' {
                    rel[i].clone()
                } else {
                    d.clone()
                }
            },
        };
        r.push(path);
        i += 1;
    }
    r
}

} // verus!
