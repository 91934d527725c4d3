//! `.kb` config files: which of their lines are commands, and the errors loading one
//! reports.

use vstd::prelude::*;
use crate::text::{append_str, chars_of, owned};
use crate::text_spans::{line_spans, std_lines, trim, trim_span};

verus! {

/// What `Debug` writes for a `str`: the text in double quotes, with quotes,
/// backslashes, control and other unprintable characters escaped.
pub uninterp spec fn str_debug(s: Seq<char>) -> Seq<char>;

/// `format!("{:?}", s)`: `Debug` of a `str`. The escaping rests on Unicode tables
/// of the standard library, so the result is named by `str_debug` and not spelled out.
#[verifier::external_body]
fn debug_of_str(s: &str) -> (r: String)
    ensures
        r@ == str_debug(s@),
{
    format!("{:?}", s)
}

/// An error met while loading a `.kb` file: the file, the line, and what went wrong.
pub struct KbLoadError {
    pub path: String,
    pub line: String,
    pub message: String,
}

impl KbLoadError {
    /// The error for a line that names no known command.
    pub fn unrecognized(path: String, line: String) -> (e: KbLoadError)
        ensures
            e.path == path,
            e.line == line,
            e.message@ == "unrecognized command"@,
    {
        KbLoadError { path, line, message: owned("unrecognized command") }
    }

    /// How the error is shown: `path: message`, or `path: "line": message` with the
    /// line quoted and escaped as `Debug` writes a `str`, when there is a line.
    pub fn report(&self) -> (r: String)
        ensures
            r@ == (if self.line@.len() == 0 {
                self.path@ + ": "@ + self.message@
            } else {
                self.path@ + ": "@ + str_debug(self.line@) + ": "@ + self.message@
            }),
    {
        let mut out = String::new();
        append_str(&mut out, self.path.as_str());
        append_str(&mut out, ": ");
        if !self.line.as_str().is_empty() {
            let quoted = debug_of_str(self.line.as_str());
            append_str(&mut out, quoted.as_str());
            append_str(&mut out, ": ");
        }
        append_str(&mut out, self.message.as_str());
        out
    }
}

/// Whether a trimmed line holds a command: it is neither empty nor a `#` comment.
pub open spec fn is_command_line(l: Seq<char>) -> bool {
    l.len() > 0 && l[0] != '#'
}

/// The command lines of a `.kb` file's text, each trimmed, in order.
pub open spec fn command_lines_of(s: Seq<char>) -> Seq<Seq<char>> {
    std_lines(s).map_values(|l: Seq<char>| trim(l)).filter(|l: Seq<char>| is_command_line(l))
}

/// The lines of `content` that a `.kb` file runs as commands: every line (as
/// `str::lines` splits them) trimmed, with empty lines and `#` comments left out.
pub fn command_lines(content: &str) -> (r: Vec<String>)
    ensures
        r@.map_values(|x: String| x@) == command_lines_of(content@),
{
    let v = chars_of(content);
    let spans = line_spans(&v);
    let ghost ls = std_lines(v@);
    let ghost tl = ls.map_values(|l: Seq<char>| trim(l));
    let mut r: Vec<String> = Vec::new();
    let mut i: usize = 0;
    while i < spans.len()
        invariant
            spans@.len() == ls.len(),
            ls == std_lines(v@),
            tl == ls.map_values(|l: Seq<char>| trim(l)),
            forall|j: int| 0 <= j < spans@.len() ==> {
                let (a, b) = #[trigger] spans@[j];
                a <= b <= v@.len() && v@.subrange(a as int, b as int) == ls[j]
            },
            i <= spans@.len(),
            r@.map_values(|x: String| x@) == tl.take(i as int).filter(|l: Seq<char>| is_command_line(l)),
        decreases spans@.len() - i,
    {
        let (a, b) = spans[i];
        let (x, y) = trim_span(&v, a, b);
        let ghost t = v@.subrange(x as int, y as int);
        proof {
            assert(ls[i as int] == v@.subrange(a as int, b as int));
            assert(t == tl[i as int]);
            let f = |l: Seq<char>| is_command_line(l);
            assert(tl.take(i as int).push(tl[i as int]) =~= tl.take(i + 1));
            tl.take(i as int).lemma_filter_push(tl[i as int], f);
        }
        let ghost old_r = r@;
        if x < y && v[x] != '#' {
            let mut line: Vec<char> = Vec::new();
            let mut k: usize = x;
            while k < y
                invariant
                    x <= k <= y <= v@.len(),
                    line@ == v@.subrange(x as int, k as int),
                decreases y - k,
            {
                line.push(v[k]);
                assert(line@ =~= v@.subrange(x as int, k + 1));
                k += 1;
            }
            let s = crate::text::string_of(line.as_slice());
            r.push(s);
            proof {
                assert(r@.map_values(|z: String| z@) =~= old_r.map_values(|z: String| z@).push(t));
            }
        }
        i += 1;
    }
    proof {
        assert(tl.take(spans@.len() as int) =~= tl);
    }
    r
}

} // verus!
