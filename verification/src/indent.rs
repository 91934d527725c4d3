//! Indentation styles, and detecting the style a text uses.

use vstd::prelude::*;
use crate::text::{chars_of, push_char};

verus! {

/// How a buffer indents: with tabs, or with a number of spaces.
#[derive(Debug, Clone, Copy, PartialEq, Eq, Structural)]
pub enum IndentStyle {
    Tabs,
    Spaces(usize),
}

/// Whether `c` has the Unicode `White_Space` property, as `char::is_whitespace`
/// tells: tab to carriage return, space, U+0085, U+00A0, U+1680, U+2000 to U+200A,
/// U+2028, U+2029, U+202F, U+205F and U+3000.
pub open spec fn is_ws(c: char) -> bool {
    let x = c as u32;
    ||| 0x9 <= x <= 0xD
    ||| x == 0x20
    ||| x == 0x85
    ||| x == 0xA0
    ||| x == 0x1680
    ||| 0x2000 <= x <= 0x200A
    ||| x == 0x2028
    ||| x == 0x2029
    ||| x == 0x202F
    ||| x == 0x205F
    ||| x == 0x3000
}

/// Whether `c` is whitespace (see `is_ws`).
pub(crate) fn char_is_whitespace(c: char) -> (r: bool)
    ensures
        r == is_ws(c),
{
    let x = c as u32;
    (0x9 <= x && x <= 0xD) || x == 0x20 || x == 0x85 || x == 0xA0 || x == 0x1680 || (0x2000 <= x && x <= 0x200A)
        || x == 0x2028 || x == 0x2029 || x == 0x202F || x == 0x205F || x == 0x3000
}

impl IndentStyle {
    /// Four spaces.
    pub fn default() -> (s: IndentStyle)
        ensures
            s == IndentStyle::Spaces(4),
    {
        IndentStyle::Spaces(4)
    }

    /// The text one level of indentation inserts: a tab, or the spaces.
    pub fn tab_string(&self) -> (r: String)
        ensures
            r@ == match *self {
                IndentStyle::Tabs => seq!['\t'],
                IndentStyle::Spaces(n) => Seq::new(n as nat, |i: int| ' '),
            },
    {
        let mut s = String::new();
        match self {
            IndentStyle::Tabs => {
                push_char(&mut s, '\t');
                assert(s@ =~= seq!['\t']);
            },
            IndentStyle::Spaces(n) => {
                let mut k: usize = 0;
                while k < *n
                    invariant
                        k <= *n,
                        s@ =~= Seq::new(k as nat, |i: int| ' '),
                    decreases *n - k,
                {
                    push_char(&mut s, ' ');
                    k += 1;
                }
            },
        }
        s
    }

    /// The width of one level of indentation, in columns: 4 for a tab.
    pub fn tab_width(&self) -> (r: usize)
        ensures
            r == match *self {
                IndentStyle::Tabs => 4,
                IndentStyle::Spaces(n) => n,
            },
    {
        match self {
            IndentStyle::Tabs => 4,
            IndentStyle::Spaces(n) => *n,
        }
    }
}

/// `line` without its trailing `\n` and `\r` characters.
pub open spec fn trim_breaks(line: Seq<char>) -> Seq<char>
    decreases line.len(),
{
    if line.len() > 0 && (line.last() == '\n' || line.last() == '\r') {
        trim_breaks(line.drop_last())
    } else {
        line
    }
}

/// The number of spaces `line` starts with.
pub open spec fn leading_spaces(line: Seq<char>) -> int
    decreases line.len(),
{
    if line.len() > 0 && line[0] == ' ' {
        1 + leading_spaces(line.drop_first())
    } else {
        0
    }
}

pub open spec fn blank(line: Seq<char>) -> bool {
    forall|i: int| 0 <= i < line.len() ==> is_ws(#[trigger] line[i])
}

/// Counting indentation steps over `lines[k..]`: `counts[d]` is how often a line is
/// indented `d` spaces deeper (1 to 8) than the last non-blank line before it.
pub open spec fn step_counts(lines: Seq<Seq<char>>, k: int, prev: int, counts: Seq<int>) -> Seq<int>
    decreases lines.len() - k,
{
    if k < 0 || k >= lines.len() {
        counts
    } else {
        let t = trim_breaks(lines[k]);
        if blank(t) {
            step_counts(lines, k + 1, prev, counts)
        } else {
            let ind = leading_spaces(t);
            let counts2 = if ind > prev && ind - prev <= 8 {
                counts.update(ind - prev, counts[ind - prev] + 1)
            } else {
                counts
            };
            step_counts(lines, k + 1, ind, counts2)
        }
    }
}

/// The step in `1..=8` counted most often (the last such when several tie), if any
/// was counted at all.
pub open spec fn best_step(counts: Seq<int>, d: int, best: int) -> int
    decreases 9 - d,
{
    if d < 1 || d > 8 {
        best
    } else if best == 0 || counts[d] >= counts[best] {
        best_step(counts, d + 1, d)
    } else {
        best_step(counts, d + 1, best)
    }
}

/// The indentation style of `lines`: tabs when some line starts with a tab, otherwise
/// spaces, as many as the most frequent indentation step, or `default_spaces` when
/// no line is indented deeper than the one before.
pub open spec fn detected_style(lines: Seq<Seq<char>>, default_spaces: usize) -> IndentStyle {
    if exists|i: int| 0 <= i < lines.len() && (#[trigger] lines[i]).len() > 0 && lines[i][0] == '\t' {
        IndentStyle::Tabs
    } else {
        let counts = step_counts(lines, 0, 0, Seq::new(9, |i: int| 0));
        let b = best_step(counts, 1, 0);
        if b >= 1 && counts[b] > 0 {
            IndentStyle::Spaces(b as usize)
        } else {
            IndentStyle::Spaces(default_spaces)
        }
    }
}

proof fn lemma_step_counts_len(lines: Seq<Seq<char>>, k: int, prev: int, counts: Seq<int>)
    requires
        counts.len() == 9,
    ensures
        step_counts(lines, k, prev, counts).len() == 9,
    decreases lines.len() - k,
{
    if 0 <= k < lines.len() {
        let t = trim_breaks(lines[k]);
        if blank(t) {
            lemma_step_counts_len(lines, k + 1, prev, counts);
        } else {
            let ind = leading_spaces(t);
            let counts2 = if ind > prev && ind - prev <= 8 {
                counts.update(ind - prev, counts[ind - prev] + 1)
            } else {
                counts
            };
            lemma_step_counts_len(lines, k + 1, ind, counts2);
        }
    }
}

proof fn lemma_best_step_range(counts: Seq<int>, d: int, best: int)
    requires
        1 <= d <= 9,
        0 <= best < d,
        d == 1 ==> best == 0,
        d > 1 ==> best >= 1,
    ensures
        1 <= best_step(counts, d, best) <= 8,
    decreases 9 - d,
{
    if d <= 8 {
        if best == 0 || counts[d] >= counts[best] {
            lemma_best_step_range(counts, d + 1, d);
        } else {
            lemma_best_step_range(counts, d + 1, best);
        }
    }
}

/// The characters of `line` without trailing line breaks, and whether they are all
/// whitespace.
fn trimmed_len(line: &Vec<char>) -> (r: usize)
    ensures
        r <= line@.len(),
        line@.subrange(0, r as int) == trim_breaks(line@),
{
    let mut n = line.len();
    assert(line@.subrange(0, n as int) =~= line@);
    while n > 0 && (line[n - 1] == '\n' || line[n - 1] == '\r')
        invariant
            n <= line@.len(),
            trim_breaks(line@) == trim_breaks(line@.subrange(0, n as int)),
        decreases n,
    {
        assert(line@.subrange(0, n as int).drop_last() =~= line@.subrange(0, n - 1));
        n -= 1;
    }
    n
}

/// Detects the indentation style of a text given by its lines.
pub fn detect_indent_lines(lines: &[String], default_spaces: usize) -> (r: IndentStyle)
    ensures
        r == detected_style(lines@.map_values(|s: String| s@), default_spaces),
{
    let ghost ls = lines@.map_values(|s: String| s@);
    let mut i: usize = 0;
    while i < lines.len()
        invariant
            i <= lines@.len(),
            ls == lines@.map_values(|s: String| s@),
            forall|j: int| 0 <= j < i ==> !((#[trigger] ls[j]).len() > 0 && ls[j][0] == '\t'),
        decreases lines@.len() - i,
    {
        let v = chars_of(lines[i].as_str());
        assert(ls[i as int] == v@);
        if v.len() > 0 && v[0] == '\t' {
            return IndentStyle::Tabs;
        }
        i += 1;
    }
    let mut counts: Vec<usize> = vec![0, 0, 0, 0, 0, 0, 0, 0, 0];
    let ghost zero = Seq::new(9, |j: int| 0int);
    let mut prev: usize = 0;
    let mut k: usize = 0;
    assert(counts@.map_values(|x: usize| x as int) =~= zero);
    while k < lines.len()
        invariant
            k <= lines@.len(),
            ls == lines@.map_values(|s: String| s@),
            counts@.len() == 9,
            forall|j: int| 0 <= j < 9 ==> counts@[j] <= k,
            step_counts(ls, 0, 0, zero) == step_counts(
                ls,
                k as int,
                prev as int,
                counts@.map_values(|x: usize| x as int),
            ),
        decreases lines@.len() - k,
    {
        let v = chars_of(lines[k].as_str());
        assert(ls[k as int] == v@);
        let n = trimmed_len(&v);
        let ghost t = trim_breaks(v@);
        let mut all_ws = true;
        let mut j: usize = 0;
        while j < n
            invariant
                j <= n,
                n <= v@.len(),
                t == v@.subrange(0, n as int),
                all_ws == (forall|q: int| 0 <= q < j ==> is_ws(#[trigger] t[q])),
            decreases n - j,
        {
            assert(t[j as int] == v@[j as int]);
            let w = char_is_whitespace(v[j]);
            if !w {
                all_ws = false;
            }
            assert(all_ws == (forall|q: int| 0 <= q < j + 1 ==> is_ws(#[trigger] t[q]))) by {
                if !w {
                    assert(!is_ws(t[j as int]));
                }
            }
            j += 1;
        }
        if all_ws {
            k += 1;
            continue;
        }
        let mut ind: usize = 0;
        assert(t.skip(0) =~= t);
        while ind < n && v[ind] == ' '
            invariant
                ind <= n,
                n <= v@.len(),
                t == v@.subrange(0, n as int),
                leading_spaces(t) == ind + leading_spaces(t.skip(ind as int)),
            decreases n - ind,
        {
            assert(t.skip(ind as int).drop_first() =~= t.skip(ind + 1));
            ind += 1;
        }
        assert(leading_spaces(t) == ind);
        let ghost before = counts@.map_values(|x: usize| x as int);
        if ind > prev && ind - prev <= 8 {
            let d = ind - prev;
            counts.set(d, counts[d] + 1);
            assert(counts@.map_values(|x: usize| x as int) =~= before.update(d as int, before[d as int] + 1));
        }
        prev = ind;
        k += 1;
    }
    let ghost fc = counts@.map_values(|x: usize| x as int);
    assert(fc == step_counts(ls, 0, 0, zero));
    let mut best: usize = 0;
    let mut d: usize = 1;
    while d <= 8
        invariant
            1 <= d <= 9,
            best < d,
            d == 1 ==> best == 0,
            d > 1 ==> best >= 1,
            counts@.len() == 9,
            fc == counts@.map_values(|x: usize| x as int),
            best_step(fc, 1, 0) == best_step(fc, d as int, best as int),
        decreases 9 - d,
    {
        if best == 0 || counts[d] >= counts[best] {
            best = d;
        }
        d += 1;
    }
    proof {
        lemma_best_step_range(fc, 1, 0);
    }
    if best >= 1 && counts[best] > 0 {
        IndentStyle::Spaces(best)
    } else {
        IndentStyle::Spaces(default_spaces)
    }
}

} // verus!
