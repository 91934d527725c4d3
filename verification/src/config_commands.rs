//! The configuration commands of `.kb` files that this library decides: core
//! settings, command prefixes, debounce events, statusline modes and mouse triggers.

use vstd::prelude::*;
use crate::command_lang::{tokens_to_mode_chars, tokens_to_strings, word_initial_chars, word_initials, word_texts, Token};
use crate::debounce::DebounceEvent;
use crate::keybind::{all_digits, dec_value, lemma_dec_value_grows};
use crate::command_info::join_comma;
use crate::keyed::{
    keyed_insert, keyed_map, lemma_lex_irreflexive, lemma_lex_transitive, lemma_value_at_index, lex_lt, sorted_keys,
};
use crate::text::{append_str, chars_of, find_sub, find_sub_exec, owned, str_chars_eq};

verus! {

/// What `str::parse` makes of `s` for an unsigned type whose largest value is `max`:
/// an optional `+` and at least one decimal digit, worth at most `max`.
pub open spec fn parse_uint(s: Seq<char>, max: int) -> Option<int> {
    let ds = if s.len() > 0 && s[0] == '+' {
        s.drop_first()
    } else {
        s
    };
    if ds.len() > 0 && all_digits(ds) && dec_value(ds) <= max {
        Some(dec_value(ds))
    } else {
        None
    }
}

/// Reads an unsigned decimal number no larger than `max`.
fn parse_uint_exec(s: &[char], max: u64) -> (r: Option<u64>)
    ensures
        match parse_uint(s@, max as int) {
            Some(v) => r matches Some(x) && x as int == v && x <= max,
            None => r is None,
        },
{
    let start: usize = if s.len() > 0 && s[0] == '+' {
        1
    } else {
        0
    };
    let ghost ds = if s@.len() > 0 && s@[0] == '+' {
        s@.drop_first()
    } else {
        s@
    };
    assert(ds =~= s@.skip(start as int));
    if start >= s.len() {
        return None;
    }
    let mut acc: u128 = 0;
    let mut i: usize = start;
    while i < s.len()
        invariant
            start <= i <= s@.len(),
            ds == s@.skip(start as int),
            ds == (if s@.len() > 0 && s@[0] == '+' {
                s@.drop_first()
            } else {
                s@
            }),
            ds.len() > 0,
            acc <= max,
            acc == dec_value(ds.take(i - start)),
            all_digits(ds.take(i - start)),
        decreases s@.len() - i,
    {
        let c = s[i];
        proof {
            assert(ds[i - start] == c);
            assert(ds.take(i - start + 1).drop_last() =~= ds.take(i - start));
            assert(ds.take(i - start + 1).last() == c);
        }
        if !('0' <= c && c <= '9') {
            proof {
                assert(!('0' <= ds[i - start] <= '9'));
                assert(!all_digits(ds));
            }
            return None;
        }
        let d = ((c as u32) - ('0' as u32)) as u128;
        let next = acc * 10 + d;
        proof {
            assert forall|j: int| 0 <= j < ds.take(i - start + 1).len() implies '0' <= #[trigger] ds.take(
                i - start + 1,
            )[j] <= '9' by {
                if j < i - start {
                    assert(ds.take(i - start + 1)[j] == ds.take(i - start)[j]);
                }
            }
        }
        if next > max as u128 {
            proof {
                assert(dec_value(ds.take(i - start + 1)) == next);
                if all_digits(ds) {
                    lemma_dec_value_grows(ds, i - start + 1);
                }
            }
            return None;
        }
        acc = next;
        i += 1;
    }
    proof {
        assert(ds.take(i - start) =~= ds);
    }
    Some(acc as u64)
}

/// A core editor setting.
#[derive(Debug)]
pub enum CoreSetting {
    Framerate(u64),
    /// Whether auto-pairing is on (the interceptor that does it is added or removed).
    AutoPairs(bool),
    TabDisplayUnit(String),
    DefaultTabUnit(usize),
    UniqueSplitBuffers(bool),
    /// A number that did not read: the setting stays as it was.
    Unchanged,
}

/// `enable` or `disable`.
pub open spec fn switch_of(v: Seq<char>) -> Option<bool> {
    if v == "enable"@ {
        Some(true)
    } else if v == "disable"@ {
        Some(false)
    } else {
        None
    }
}

/// The outcome of `core key value`: the setting it makes, or the message logged.
pub open spec fn core_result(key: Seq<char>, value: Seq<char>) -> Result<CoreSettingV, Seq<char>> {
    if key == "framerate"@ {
        match parse_uint(value, u64::MAX as int) {
            Some(n) => Ok(CoreSettingV::Framerate(n as u64)),
            None => Ok(CoreSettingV::Unchanged),
        }
    } else if key == "auto_pairs"@ {
        match switch_of(value) {
            Some(b) => Ok(CoreSettingV::AutoPairs(b)),
            None => Err("Expected `enable` or `disable`, found: "@ + value),
        }
    } else if key == "tab_display_unit"@ {
        Ok(CoreSettingV::TabDisplayUnit(value))
    } else if key == "default_tab_unit"@ {
        match parse_uint(value, usize::MAX as int) {
            Some(n) => Ok(CoreSettingV::DefaultTabUnit(n as usize)),
            None => Ok(CoreSettingV::Unchanged),
        }
    } else if key == "unique_split_buffers"@ {
        match switch_of(value) {
            Some(b) => Ok(CoreSettingV::UniqueSplitBuffers(b)),
            None => Err("Expected `enable` or `disable`, found: "@ + value),
        }
    } else {
        Err("Unknown key for core config: "@ + key)
    }
}

/// A core setting as contracts see it.
pub enum CoreSettingV {
    Framerate(u64),
    AutoPairs(bool),
    TabDisplayUnit(Seq<char>),
    DefaultTabUnit(usize),
    UniqueSplitBuffers(bool),
    Unchanged,
}

impl CoreSetting {
    pub open spec fn v(&self) -> CoreSettingV {
        match self {
            CoreSetting::Framerate(n) => CoreSettingV::Framerate(*n),
            CoreSetting::AutoPairs(b) => CoreSettingV::AutoPairs(*b),
            CoreSetting::TabDisplayUnit(s) => CoreSettingV::TabDisplayUnit(s@),
            CoreSetting::DefaultTabUnit(n) => CoreSettingV::DefaultTabUnit(*n),
            CoreSetting::UniqueSplitBuffers(b) => CoreSettingV::UniqueSplitBuffers(*b),
            CoreSetting::Unchanged => CoreSettingV::Unchanged,
        }
    }
}

fn switch_exec(v: &[char]) -> (r: Option<bool>)
    ensures
        r == switch_of(v@),
{
    if str_chars_eq(v, "enable") {
        Some(true)
    } else if str_chars_eq(v, "disable") {
        Some(false)
    } else {
        None
    }
}

/// `core key value`: sets `framerate` or `default_tab_unit` to a number (a value
/// that is no number leaves them as they were), turns `auto_pairs` or
/// `unique_split_buffers` on or off (`enable` or `disable`), or sets
/// `tab_display_unit` to the text; any other key, or switch value, is an error with
/// the message to log.
pub fn core_setting(key: &str, value: &str) -> (r: Result<CoreSetting, String>)
    ensures
        match core_result(key@, value@) {
            Ok(s) => r matches Ok(x) && x.v() == s,
            Err(m) => r matches Err(e) && e@ == m,
        },
{
    let k = chars_of(key);
    let v = chars_of(value);
    if str_chars_eq(k.as_slice(), "framerate") {
        match parse_uint_exec(v.as_slice(), u64::MAX) {
            Some(n) => Ok(CoreSetting::Framerate(n)),
            None => Ok(CoreSetting::Unchanged),
        }
    } else if str_chars_eq(k.as_slice(), "auto_pairs") {
        match switch_exec(v.as_slice()) {
            Some(b) => Ok(CoreSetting::AutoPairs(b)),
            None => {
                let mut m = owned("Expected `enable` or `disable`, found: ");
                append_str(&mut m, value);
                Err(m)
            },
        }
    } else if str_chars_eq(k.as_slice(), "tab_display_unit") {
        Ok(CoreSetting::TabDisplayUnit(owned(value)))
    } else if str_chars_eq(k.as_slice(), "default_tab_unit") {
        let umax: u64 = usize::MAX as u64;
        assert(umax as int == usize::MAX as int);
        match parse_uint_exec(v.as_slice(), umax) {
            Some(n) => {
                proof {
                    assert(n <= umax);
                }
                Ok(CoreSetting::DefaultTabUnit(n as usize))
            },
            None => Ok(CoreSetting::Unchanged),
        }
    } else if str_chars_eq(k.as_slice(), "unique_split_buffers") {
        match switch_exec(v.as_slice()) {
            Some(b) => Ok(CoreSetting::UniqueSplitBuffers(b)),
            None => {
                let mut m = owned("Expected `enable` or `disable`, found: ");
                append_str(&mut m, value);
                Err(m)
            },
        }
    } else {
        let mut m = owned("Unknown key for core config: ");
        append_str(&mut m, key);
        Err(m)
    }
}

/// A command prefix: in the given modes, commands (only those listed when
/// `listed_only`, else all but those listed) get `prefix_cmd` put before them.
pub struct CommandPrefix {
    pub modes: Vec<char>,
    pub prefix_cmd: String,
    pub listed_only: bool,
    pub list: Vec<String>,
}

/// `prefix cmd --modes [..]` with a list of commands that the prefix applies to
/// (`only`) or does not apply to (`except`): the prefix for the modes the words name
/// (their first chars); `only` wins when both are given, and with neither the prefix
/// applies to every command.
pub fn prefix_from(
    cmd: &str,
    modes: &Vec<Token>,
    only: &Option<Vec<Token>>,
    except: &Option<Vec<Token>>,
) -> (p: CommandPrefix)
    ensures
        p.modes@ == word_initials(modes@),
        p.prefix_cmd@ == cmd@,
        p.listed_only == only is Some,
        p.list@.map_values(|s: String| s@) == match only {
            Some(inc) => word_texts(inc@),
            None => match except {
                Some(exc) => word_texts(exc@),
                None => seq![],
            },
        },
{
    let mode_chars = word_initial_chars(modes.as_slice());
    let (inc, list) = match only {
        Some(i) => (true, tokens_to_strings(i.as_slice())),
        None => match except {
            Some(e) => (false, tokens_to_strings(e.as_slice())),
            None => {
                let empty: Vec<String> = Vec::new();
                assert(empty@.map_values(|s: String| s@) =~= Seq::<Seq<char>>::empty());
                (false, empty)
            },
        },
    };
    CommandPrefix { modes: mode_chars, prefix_cmd: owned(cmd), listed_only: inc, list }
}

/// `debounce_event [..] --min_ms n --modes [..] --ignore_modes [..]
/// --ignore_with_template [..]`: the event names and templates are the words, the
/// modes the words' first chars.
pub fn debounce_event_from(
    events: &Vec<Token>,
    min_ms: u64,
    modes: &Option<Vec<Token>>,
    ignore_modes: &Option<Vec<Token>>,
    ignore_with_template: &Option<Vec<Token>>,
) -> (e: DebounceEvent)
    ensures
        e.events@.map_values(|s: String| s@) == word_texts(events@),
        e.min_ms == min_ms,
        e.modes@ == match modes {
            Some(ts) => word_initials(ts@),
            None => seq![],
        },
        e.ignore_modes@ == match ignore_modes {
            Some(ts) => word_initials(ts@),
            None => seq![],
        },
        e.ignore_with_template@.map_values(|s: String| s@) == match ignore_with_template {
            Some(ts) => word_texts(ts@),
            None => seq![],
        },
{
    let iwt = match ignore_with_template {
        Some(ts) => tokens_to_strings(ts.as_slice()),
        None => {
            let empty: Vec<String> = Vec::new();
            assert(empty@.map_values(|s: String| s@) =~= Seq::<Seq<char>>::empty());
            empty
        },
    };
    DebounceEvent {
        events: tokens_to_strings(events.as_slice()),
        min_ms,
        modes: tokens_to_mode_chars(modes),
        ignore_modes: tokens_to_mode_chars(ignore_modes),
        ignore_with_template: iwt,
    }
}

/// How the statusline shows a mode.
pub struct ModeConfig {
    pub long_name: Option<String>,
    pub theme_key: Option<String>,
}

/// `statusline mode --long_name n --theme_key k`: the mode (the first char of `mode`)
/// and how it is shown; nothing for an empty mode.
pub fn statusline_mode(mode: &str, long_name: &Option<String>, theme_key: &Option<String>) -> (r: Option<
    (char, ModeConfig),
>)
    ensures
        mode@.len() == 0 ==> r is None,
        mode@.len() > 0 ==> (r matches Some(x) && x.0 == mode@[0] && x.1.long_name == *long_name
            && x.1.theme_key == *theme_key),
{
    let cs = chars_of(mode);
    if cs.len() == 0 {
        return None;
    }
    let ln = match long_name {
        Some(s) => Some(s.clone()),
        None => None,
    };
    let tk = match theme_key {
        Some(s) => Some(s.clone()),
        None => None,
    };
    Some((cs[0], ModeConfig { long_name: ln, theme_key: tk }))
}

/// A mouse event a command can be bound to.
#[derive(Clone, Copy, Debug, PartialEq, Eq, Structural)]
pub enum MouseTrigger {
    LeftDown,
    LeftUp,
    RightDown,
    RightUp,
    MiddleDown,
    ScrollUp,
    ScrollDown,
}

/// The trigger a `mouse_bind` event name stands for.
pub open spec fn mouse_trigger_of(name: Seq<char>) -> Option<MouseTrigger> {
    if name == "left-down"@ {
        Some(MouseTrigger::LeftDown)
    } else if name == "left-up"@ {
        Some(MouseTrigger::LeftUp)
    } else if name == "right-down"@ {
        Some(MouseTrigger::RightDown)
    } else if name == "right-up"@ {
        Some(MouseTrigger::RightUp)
    } else if name == "middle"@ {
        Some(MouseTrigger::MiddleDown)
    } else if name == "scroll-up"@ {
        Some(MouseTrigger::ScrollUp)
    } else if name == "scroll-down"@ {
        Some(MouseTrigger::ScrollDown)
    } else {
        None
    }
}

/// The trigger a `mouse_bind` event name stands for (`left-down`, `left-up`,
/// `right-down`, `right-up`, `middle`, `scroll-up`, `scroll-down`); `None` for
/// anything else, which the command refuses.
pub fn mouse_trigger(name: &str) -> (r: Option<MouseTrigger>)
    ensures
        r == mouse_trigger_of(name@),
{
    let c = chars_of(name);
    let n = c.as_slice();
    if str_chars_eq(n, "left-down") {
        Some(MouseTrigger::LeftDown)
    } else if str_chars_eq(n, "left-up") {
        Some(MouseTrigger::LeftUp)
    } else if str_chars_eq(n, "right-down") {
        Some(MouseTrigger::RightDown)
    } else if str_chars_eq(n, "right-up") {
        Some(MouseTrigger::RightUp)
    } else if str_chars_eq(n, "middle") {
        Some(MouseTrigger::MiddleDown)
    } else if str_chars_eq(n, "scroll-up") {
        Some(MouseTrigger::ScrollUp)
    } else if str_chars_eq(n, "scroll-down") {
        Some(MouseTrigger::ScrollDown)
    } else {
        None
    }
}

/// The style a `theme` entry asks for: with no `--fg`, `--bg`, `--underline` or
/// `--attrs`, the value alone is the foreground color (the simple form); otherwise
/// those flags give the colors and attributes and the value is not used.
pub open spec fn theme_style_names(
    fg: Option<Seq<char>>,
    bg: Option<Seq<char>>,
    underline: Option<Seq<char>>,
    attrs: Option<Seq<Seq<char>>>,
    value: Option<Seq<char>>,
) -> (Option<Seq<char>>, Option<Seq<char>>, Option<Seq<char>>, Seq<Seq<char>>) {
    if fg is None && bg is None && underline is None && attrs is None {
        (value, None, None, seq![])
    } else {
        (fg, bg, underline, match attrs {
            Some(a) => a,
            None => seq![],
        })
    }
}

fn clone_opt(s: &Option<String>) -> (r: Option<String>)
    ensures
        crate::theme::opt_view(r) == crate::theme::opt_view(*s),
{
    match s {
        Some(x) => Some(x.clone()),
        None => None,
    }
}

/// The unresolved style of a `theme key` entry (see `theme_style_names`).
pub fn theme_entry_style(
    fg: &Option<String>,
    bg: &Option<String>,
    underline: &Option<String>,
    attrs: &Option<Vec<String>>,
    value: &Option<String>,
) -> (st: crate::theme::UnresolvedStyle)
    ensures
        st.names() == theme_style_names(
            crate::theme::opt_view(*fg),
            crate::theme::opt_view(*bg),
            crate::theme::opt_view(*underline),
            match attrs {
                Some(a) => Some(a@.map_values(|x: String| x@)),
                None => None,
            },
            crate::theme::opt_view(*value),
        ),
{
    if fg.is_none() && bg.is_none() && underline.is_none() && attrs.is_none() {
        let empty: Vec<String> = Vec::new();
        assert(empty@.map_values(|x: String| x@) =~= Seq::<Seq<char>>::empty());
        crate::theme::UnresolvedStyle { fg: clone_opt(value), bg: None, underline: None, attrs: empty }
    } else {
        let a: Vec<String> = match attrs {
            Some(v) => {
                let mut out: Vec<String> = Vec::new();
                let mut i: usize = 0;
                while i < v.len()
                    invariant
                        i <= v@.len(),
                        out@.map_values(|x: String| x@) == v@.map_values(|x: String| x@).take(i as int),
                    decreases v@.len() - i,
                {
                    let ghost old_out = out@;
                    out.push(v[i].clone());
                    proof {
                        assert(out@.map_values(|x: String| x@) =~= old_out.map_values(|x: String| x@).push(v@[i as int]@));
                        assert(out@.map_values(|x: String| x@) =~= v@.map_values(|x: String| x@).take(i + 1));
                    }
                    i += 1;
                }
                assert(v@.map_values(|x: String| x@).take(i as int) =~= v@.map_values(|x: String| x@));
                out
            },
            None => {
                let empty: Vec<String> = Vec::new();
                assert(empty@.map_values(|x: String| x@) =~= Seq::<Seq<char>>::empty());
                empty
            },
        };
        crate::theme::UnresolvedStyle { fg: clone_opt(fg), bg: clone_opt(bg), underline: clone_opt(underline), attrs: a }
    }
}

/// The names as strings of characters.
pub open spec fn name_views(v: Seq<String>) -> Seq<Seq<char>> {
    v.map_values(|s: String| s@)
}

/// The names joined by `, `.
pub fn join_names(names: &Vec<String>) -> (r: String)
    ensures
        r@ == join_comma(name_views(names@)),
{
    let mut out = String::new();
    let n = names.len();
    let mut k: usize = 0;
    while k < n
        invariant
            k <= n,
            n == names@.len(),
            out@ == join_comma(name_views(names@).take(k as int)),
        decreases n - k,
    {
        let ghost t = name_views(names@).take(k + 1);
        proof {
            assert(t.drop_last() =~= name_views(names@).take(k as int));
            assert(t.last() == names@[k as int]@);
        }
        if k > 0 {
            append_str(&mut out, ", ");
        }
        append_str(&mut out, names[k].as_str());
        proof {
            if k == 0 {
                assert(out@ =~= t[0]);
            } else {
                assert(out@ =~= join_comma(t.drop_last()) + ", "@ + t.last());
            }
        }
        k += 1;
    }
    proof {
        assert(name_views(names@).take(n as int) =~= name_views(names@));
    }
    out
}

/// `name` contains one of the filter's strings.
pub open spec fn passes_filter(name: Seq<char>, filter: Seq<Seq<char>>) -> bool {
    exists|j: int| 0 <= j < filter.len() && find_sub(name, #[trigger] filter[j], 0) is Some
}

fn passes_filter_exec(name: &String, filter: &Vec<String>) -> (r: bool)
    ensures
        r == passes_filter(name@, name_views(filter@)),
{
    let nv = chars_of(name.as_str());
    let n = filter.len();
    let mut j: usize = 0;
    while j < n
        invariant
            j <= n,
            n == filter@.len(),
            nv@ == name@,
            forall|q: int| 0 <= q < j ==> find_sub(name@, #[trigger] name_views(filter@)[q], 0) is None,
        decreases n - j,
    {
        let fv = chars_of(filter[j].as_str());
        if find_sub_exec(&nv, &fv, 0).is_some() {
            assert(name_views(filter@)[j as int] == fv@);
            return true;
        }
        j += 1;
    }
    false
}

/// The keys are strictly increasing.
pub open spec fn strictly_sorted(ks: Seq<Seq<char>>) -> bool {
    forall|i: int, j: int| 0 <= i < j < ks.len() ==> lex_lt(#[trigger] ks[i], #[trigger] ks[j])
}

/// Two strictly increasing sequences that hold the same strings are equal.
pub proof fn lemma_strictly_sorted_unique(a: Seq<Seq<char>>, b: Seq<Seq<char>>)
    requires
        strictly_sorted(a),
        strictly_sorted(b),
        forall|k: Seq<char>| a.contains(k) <==> b.contains(k),
    ensures
        a == b,
    decreases a.len(),
{
    if a.len() == 0 {
        if b.len() > 0 {
            assert(b.contains(b[0]));
        }
        assert(a =~= b);
    } else {
        assert(a.contains(a[0]));
        assert(b.contains(a[0]));
        assert(b.contains(b[0]));
        assert(a.contains(b[0]));
        if a[0] != b[0] {
            let p = choose|p: int| 0 <= p < a.len() && a[p] == b[0];
            let q = choose|q: int| 0 <= q < b.len() && b[q] == a[0];
            assert(p > 0 && q > 0);
            assert(lex_lt(a[0], a[p]));
            assert(lex_lt(b[0], b[q]));
            lemma_lex_transitive(a[0], b[0], a[0]);
            lemma_lex_irreflexive(a[0]);
        }
        let a1 = a.drop_first();
        let b1 = b.drop_first();
        assert forall|k: Seq<char>| a1.contains(k) <==> b1.contains(k) by {
            if a1.contains(k) {
                let p = choose|p: int| 0 <= p < a1.len() && a1[p] == k;
                assert(a[p + 1] == k && lex_lt(a[0], a[p + 1]));
                lemma_lex_irreflexive(k);
                assert(a.contains(k));
                let q = choose|q: int| 0 <= q < b.len() && b[q] == k;
                assert(q != 0);
                assert(b1[q - 1] == k);
            }
            if b1.contains(k) {
                let p = choose|p: int| 0 <= p < b1.len() && b1[p] == k;
                assert(b[p + 1] == k && lex_lt(b[0], b[p + 1]));
                lemma_lex_irreflexive(k);
                assert(b.contains(k));
                let q = choose|q: int| 0 <= q < a.len() && a[q] == k;
                assert(q != 0);
                assert(a1[q - 1] == k);
            }
        }
        assert forall|i: int, j: int| 0 <= i < j < a1.len() implies lex_lt(#[trigger] a1[i], #[trigger] a1[j]) by {
            assert(a1[i] == a[i + 1] && a1[j] == a[j + 1]);
        }
        assert forall|i: int, j: int| 0 <= i < j < b1.len() implies lex_lt(#[trigger] b1[i], #[trigger] b1[j]) by {
            assert(b1[i] == b[i + 1] && b1[j] == b[j + 1]);
        }
        lemma_strictly_sorted_unique(a1, b1);
        assert(a =~= seq![a[0]] + a1);
        assert(b =~= seq![b[0]] + b1);
    }
}

/// The template listing of `list-templates`: with no filter, every name in the
/// order given, joined by `, `; with a filter, the names that contain one of its
/// strings, sorted, joined by `, `. (A strictly increasing sequence is fixed by
/// the set it holds, so the second clause names one string.)
pub fn list_templates(names: &Vec<String>, filter: &Vec<String>) -> (r: String)
    ensures
        filter@.len() == 0 ==> r@ == join_comma(name_views(names@)),
        filter@.len() > 0 ==> exists|ks: Seq<Seq<char>>|
            {
                &&& strictly_sorted(ks)
                &&& forall|k: Seq<char>| #[trigger] ks.contains(k) <==> (name_views(names@).contains(k)
                    && passes_filter(k, name_views(filter@)))
                &&& r@ == join_comma(ks)
            },
{
    if filter.len() == 0 {
        return join_names(names);
    }
    let ghost nv = name_views(names@);
    let ghost fv = name_views(filter@);
    let mut acc: Vec<(String, ())> = Vec::new();
    let n = names.len();
    let mut i: usize = 0;
    while i < n
        invariant
            i <= n,
            n == names@.len(),
            nv == name_views(names@),
            fv == name_views(filter@),
            sorted_keys(acc@),
            forall|k: Seq<char>| #[trigger] keyed_map(acc@).dom().contains(k) <==> (nv.take(i as int).contains(k)
                && passes_filter(k, fv)),
        decreases n - i,
    {
        let ghost before = acc@;
        if passes_filter_exec(&names[i], filter) {
            keyed_insert(&mut acc, names[i].clone(), ());
        }
        proof {
            assert forall|k: Seq<char>| #[trigger] keyed_map(acc@).dom().contains(k) <==> (nv.take(i + 1).contains(k)
                && passes_filter(k, fv)) by {
                if nv.take(i + 1).contains(k) && !nv.take(i as int).contains(k) {
                    let w = choose|w: int| 0 <= w < i + 1 && #[trigger] nv.take(i + 1)[w] == k;
                    assert(w == i);
                }
                if nv.take(i as int).contains(k) {
                    let w = choose|w: int| 0 <= w < i && #[trigger] nv.take(i as int)[w] == k;
                    assert(nv.take(i + 1)[w] == k);
                }
                if k == nv[i as int] {
                    assert(nv.take(i + 1)[i as int] == k);
                }
            }
        }
        i += 1;
    }
    proof {
        assert(nv.take(n as int) =~= nv);
    }
    let mut keys: Vec<String> = Vec::new();
    let m = acc.len();
    let mut j: usize = 0;
    while j < m
        invariant
            j <= m,
            m == acc@.len(),
            keys@.len() == j,
            forall|q: int| 0 <= q < j ==> #[trigger] keys@[q]@ == acc@[q].0@,
        decreases m - j,
    {
        keys.push(acc[j].0.clone());
        j += 1;
    }
    let r = join_names(&keys);
    proof {
        let ks = name_views(keys@);
        assert forall|a: int, b: int| 0 <= a < b < ks.len() implies lex_lt(#[trigger] ks[a], #[trigger] ks[b]) by {
            assert(ks[a] == acc@[a].0@ && ks[b] == acc@[b].0@);
        }
        assert forall|k: Seq<char>| #[trigger] ks.contains(k) <==> (nv.contains(k) && passes_filter(k, fv)) by {
            if ks.contains(k) {
                let w = choose|w: int| 0 <= w < ks.len() && #[trigger] ks[w] == k;
                assert(ks[w] == acc@[w].0@);
                lemma_value_at_index(acc@, w);
                assert(keyed_map(acc@).dom().contains(k));
            }
            if keyed_map(acc@).dom().contains(k) {
                let w = choose|w: int| 0 <= w < acc@.len() && #[trigger] acc@[w].0@ == k;
                assert(ks[w] == k);
            }
        }
        assert(strictly_sorted(ks));
    }
    r
}

} // verus!
