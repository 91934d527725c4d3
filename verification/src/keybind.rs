//! Key bindings written as text, such as `ctrl-s`, `alt-shift-f5` or `up`.

use vstd::prelude::*;
use crate::ranking::{lowercase, to_lower};
use crate::text::{append_str, chars_of, owned, str_chars_eq, string_of};

verus! {

/// A key.
#[derive(Clone, Copy, Debug, PartialEq, Eq, Structural)]
pub enum KeyCode {
    Backspace,
    Enter,
    Left,
    Right,
    Up,
    Down,
    Home,
    End,
    PageUp,
    PageDown,
    Tab,
    BackTab,
    Delete,
    Insert,
    Esc,
    Char(char),
    F(u8),
}

/// The modifier keys held with a key.
#[derive(Clone, Copy, Debug, PartialEq, Eq, Structural)]
pub struct KeyModifiers {
    pub shift: bool,
    pub control: bool,
    pub alt: bool,
    pub super_key: bool,
    pub hyper: bool,
    pub meta: bool,
}

/// A key with its modifiers.
#[derive(Clone, Copy, Debug, PartialEq, Eq, Structural)]
pub struct KeyBind {
    pub code: KeyCode,
    pub modifiers: KeyModifiers,
}

/// No modifier.
pub open spec fn no_modifiers() -> KeyModifiers {
    KeyModifiers { shift: false, control: false, alt: false, super_key: false, hyper: false, meta: false }
}

/// `s` split at each `sep`, as `str::split` does: always at least one part.
pub open spec fn split_on(s: Seq<char>, sep: char) -> Seq<Seq<char>>
    decreases s.len(),
{
    if s.len() == 0 {
        seq![Seq::<char>::empty()]
    } else {
        let rest = split_on(s.drop_last(), sep);
        if s.last() == sep {
            rest.push(Seq::<char>::empty())
        } else {
            rest.update(rest.len() - 1, rest.last().push(s.last()))
        }
    }
}

proof fn lemma_split_on_nonempty(s: Seq<char>, sep: char)
    ensures
        split_on(s, sep).len() >= 1,
    decreases s.len(),
{
    if s.len() > 0 {
        lemma_split_on_nonempty(s.drop_last(), sep);
    }
}

/// The parts of `s` between the `sep`s.
fn split_exec(s: &Vec<char>, sep: char) -> (r: Vec<Vec<char>>)
    ensures
        r@.len() == split_on(s@, sep).len(),
        forall|k: int| 0 <= k < r@.len() ==> (#[trigger] r@[k])@ == split_on(s@, sep)[k],
{
    let mut done: Vec<Vec<char>> = Vec::new();
    let mut cur: Vec<char> = Vec::new();
    let mut i: usize = 0;
    proof {
        assert(s@.take(0) =~= Seq::<char>::empty());
    }
    while i < s.len()
        invariant
            i <= s@.len(),
            ({
                let sp = split_on(s@.take(i as int), sep);
                &&& done@.len() + 1 == sp.len()
                &&& cur@ == sp.last()
                &&& forall|k: int| 0 <= k < done@.len() ==> (#[trigger] done@[k])@ == sp[k]
            }),
        decreases s@.len() - i,
    {
        let c = s[i];
        proof {
            assert(s@.take(i + 1).drop_last() =~= s@.take(i as int));
            assert(s@.take(i + 1).last() == c);
            lemma_split_on_nonempty(s@.take(i as int), sep);
        }
        if c == sep {
            let finished = cur;
            done.push(finished);
            cur = Vec::new();
            proof {
                let sp = split_on(s@.take(i as int), sep);
                assert forall|k: int| 0 <= k < done@.len() implies (#[trigger] done@[k])@ == split_on(
                    s@.take(i + 1),
                    sep,
                )[k] by {
                    if k < done@.len() - 1 {
                        assert(done@[k]@ == sp[k]);
                    }
                }
                assert(cur@ =~= Seq::<char>::empty());
            }
        } else {
            cur.push(c);
        }
        i += 1;
    }
    proof {
        assert(s@.take(s@.len() as int) =~= s@);
    }
    done.push(cur);
    done
}

/// The modifier a (lowercase) modifier name adds.
pub open spec fn add_modifier(m: KeyModifiers, name: Seq<char>) -> Option<KeyModifiers> {
    if name == "ctrl"@ || name == "control"@ {
        Some(KeyModifiers { control: true, ..m })
    } else if name == "alt"@ {
        Some(KeyModifiers { alt: true, ..m })
    } else if name == "shift"@ {
        Some(KeyModifiers { shift: true, ..m })
    } else if name == "super"@ {
        Some(KeyModifiers { super_key: true, ..m })
    } else if name == "hyper"@ {
        Some(KeyModifiers { hyper: true, ..m })
    } else if name == "meta"@ {
        Some(KeyModifiers { meta: true, ..m })
    } else {
        None
    }
}

fn add_modifier_exec(m: KeyModifiers, name: &[char]) -> (r: Option<KeyModifiers>)
    ensures
        r == add_modifier(m, name@),
{
    if str_chars_eq(name, "ctrl") || str_chars_eq(name, "control") {
        Some(KeyModifiers { control: true, ..m })
    } else if str_chars_eq(name, "alt") {
        Some(KeyModifiers { alt: true, ..m })
    } else if str_chars_eq(name, "shift") {
        Some(KeyModifiers { shift: true, ..m })
    } else if str_chars_eq(name, "super") {
        Some(KeyModifiers { super_key: true, ..m })
    } else if str_chars_eq(name, "hyper") {
        Some(KeyModifiers { hyper: true, ..m })
    } else if str_chars_eq(name, "meta") {
        Some(KeyModifiers { meta: true, ..m })
    } else {
        None
    }
}

/// The modifiers the parts name, from `acc` on, or the message for the first part that
/// names none.
pub open spec fn modifiers_result(parts: Seq<Seq<char>>, acc: KeyModifiers) -> Result<KeyModifiers, Seq<char>>
    decreases parts.len(),
{
    if parts.len() == 0 {
        Ok(acc)
    } else {
        match add_modifier(acc, lowercase(parts[0])) {
            Some(m) => modifiers_result(parts.drop_first(), m),
            None => Err("Unknown modifier: "@ + parts[0]),
        }
    }
}

/// The key a (lowercase) key name stands for.
pub open spec fn named_key(s: Seq<char>) -> Option<KeyCode> {
    if s == "backspace"@ {
        Some(KeyCode::Backspace)
    } else if s == "enter"@ {
        Some(KeyCode::Enter)
    } else if s == "left"@ {
        Some(KeyCode::Left)
    } else if s == "right"@ {
        Some(KeyCode::Right)
    } else if s == "up"@ {
        Some(KeyCode::Up)
    } else if s == "down"@ {
        Some(KeyCode::Down)
    } else if s == "home"@ {
        Some(KeyCode::Home)
    } else if s == "end"@ {
        Some(KeyCode::End)
    } else if s == "pageup"@ {
        Some(KeyCode::PageUp)
    } else if s == "pagedown"@ {
        Some(KeyCode::PageDown)
    } else if s == "tab"@ {
        Some(KeyCode::Tab)
    } else if s == "backtab"@ {
        Some(KeyCode::BackTab)
    } else if s == "delete"@ {
        Some(KeyCode::Delete)
    } else if s == "insert"@ {
        Some(KeyCode::Insert)
    } else if s == "esc"@ {
        Some(KeyCode::Esc)
    } else if s == "space"@ {
        Some(KeyCode::Char(' '))
    } else {
        None
    }
}

fn named_key_exec(s: &[char]) -> (r: Option<KeyCode>)
    ensures
        r == named_key(s@),
{
    if str_chars_eq(s, "backspace") {
        Some(KeyCode::Backspace)
    } else if str_chars_eq(s, "enter") {
        Some(KeyCode::Enter)
    } else if str_chars_eq(s, "left") {
        Some(KeyCode::Left)
    } else if str_chars_eq(s, "right") {
        Some(KeyCode::Right)
    } else if str_chars_eq(s, "up") {
        Some(KeyCode::Up)
    } else if str_chars_eq(s, "down") {
        Some(KeyCode::Down)
    } else if str_chars_eq(s, "home") {
        Some(KeyCode::Home)
    } else if str_chars_eq(s, "end") {
        Some(KeyCode::End)
    } else if str_chars_eq(s, "pageup") {
        Some(KeyCode::PageUp)
    } else if str_chars_eq(s, "pagedown") {
        Some(KeyCode::PageDown)
    } else if str_chars_eq(s, "tab") {
        Some(KeyCode::Tab)
    } else if str_chars_eq(s, "backtab") {
        Some(KeyCode::BackTab)
    } else if str_chars_eq(s, "delete") {
        Some(KeyCode::Delete)
    } else if str_chars_eq(s, "insert") {
        Some(KeyCode::Insert)
    } else if str_chars_eq(s, "esc") {
        Some(KeyCode::Esc)
    } else if str_chars_eq(s, "space") {
        Some(KeyCode::Char(' '))
    } else {
        None
    }
}

/// Every char of `ds` is a decimal digit.
pub open spec fn all_digits(ds: Seq<char>) -> bool {
    forall|i: int| 0 <= i < ds.len() ==> '0' <= #[trigger] ds[i] <= '9'
}

/// The number the decimal digits `ds` write.
pub open spec fn dec_value(ds: Seq<char>) -> int
    decreases ds.len(),
{
    if ds.len() == 0 {
        0
    } else {
        10 * dec_value(ds.drop_last()) + (ds.last() as int - '0' as int)
    }
}

/// What `str::parse::<u8>` makes of `s`: an optional `+` and at least one decimal
/// digit, worth at most 255.
pub open spec fn parse_u8(s: Seq<char>) -> Option<u8> {
    let ds = if s.len() > 0 && s[0] == '+' {
        s.drop_first()
    } else {
        s
    };
    if ds.len() > 0 && all_digits(ds) && dec_value(ds) <= 255 {
        Some(dec_value(ds) as u8)
    } else {
        None
    }
}

pub(crate) proof fn lemma_dec_value_grows(ds: Seq<char>, i: int)
    requires
        0 <= i <= ds.len(),
        all_digits(ds),
    ensures
        0 <= dec_value(ds.take(i)) <= dec_value(ds),
    decreases ds.len() - i,
{
    if i < ds.len() {
        lemma_dec_value_grows(ds, i + 1);
        assert(ds.take(i + 1).drop_last() =~= ds.take(i));
        assert('0' <= ds[i] <= '9');
    } else {
        assert(ds.take(i) =~= ds);
        lemma_dec_nonneg(ds);
    }
}

pub(crate) proof fn lemma_dec_nonneg(ds: Seq<char>)
    requires
        all_digits(ds),
    ensures
        dec_value(ds) >= 0,
    decreases ds.len(),
{
    if ds.len() > 0 {
        assert(all_digits(ds.drop_last())) by {
            assert forall|i: int| 0 <= i < ds.drop_last().len() implies '0' <= #[trigger] ds.drop_last()[i] <= '9' by {
                assert(ds.drop_last()[i] == ds[i]);
            }
        }
        lemma_dec_nonneg(ds.drop_last());
        assert('0' <= ds[ds.len() - 1] <= '9');
    }
}

fn parse_u8_exec(s: &[char]) -> (r: Option<u8>)
    ensures
        r == parse_u8(s@),
{
    let start: usize = if s.len() > 0 && s[0] == '+' {
        1
    } else {
        0
    };
    let ghost ds = if s@.len() > 0 && s@[0] == '+' {
        s@.drop_first()
    } else {
        s@
    };
    assert(ds =~= s@.skip(start as int));
    if start >= s.len() {
        return None;
    }
    let mut acc: u32 = 0;
    let mut i: usize = start;
    while i < s.len()
        invariant
            start <= i <= s@.len(),
            ds == s@.skip(start as int),
            ds == (if s@.len() > 0 && s@[0] == '+' {
                s@.drop_first()
            } else {
                s@
            }),
            ds.len() > 0,
            acc <= 255,
            acc == dec_value(ds.take(i - start)),
            all_digits(ds.take(i - start)),
        decreases s@.len() - i,
    {
        let c = s[i];
        proof {
            assert(ds[i - start] == c);
            assert(ds.take(i - start + 1).drop_last() =~= ds.take(i - start));
            assert(ds.take(i - start + 1).last() == c);
        }
        if !('0' <= c && c <= '9') {
            proof {
                assert(!('0' <= ds[i - start] <= '9'));
                assert(!all_digits(ds));
            }
            return None;
        }
        let d = (c as u32) - ('0' as u32);
        let next = acc * 10 + d;
        if next > 255 {
            proof {
                assert forall|j: int| 0 <= j < ds.take(i - start + 1).len() implies '0' <= #[trigger] ds.take(
                    i - start + 1,
                )[j] <= '9' by {
                    if j < i - start {
                        assert(ds.take(i - start + 1)[j] == ds.take(i - start)[j]);
                    }
                }
                assert(dec_value(ds.take(i - start + 1)) == next);
                if all_digits(ds) {
                    lemma_dec_value_grows(ds, i - start + 1);
                }
            }
            return None;
        }
        acc = next;
        proof {
            assert forall|j: int| 0 <= j < ds.take(i - start + 1).len() implies '0' <= #[trigger] ds.take(
                i - start + 1,
            )[j] <= '9' by {
                if j < i - start {
                    assert(ds.take(i - start + 1)[j] == ds.take(i - start)[j]);
                }
            }
        }
        i += 1;
    }
    proof {
        assert(ds.take(i - start) =~= ds);
    }
    Some(acc as u8)
}

/// The key that lowercase `s` names: a key name, `f` and a number for a function key
/// (anything longer than `f` that starts with it), or a single char; else the message
/// saying why not.
pub open spec fn key_result(s: Seq<char>) -> Result<KeyCode, Seq<char>> {
    match named_key(s) {
        Some(k) => Ok(k),
        None => if s.len() > 1 && s[0] == 'f' {
            match parse_u8(s.drop_first()) {
                Some(n) => Ok(KeyCode::F(n)),
                None => Err("Invalid F-key: "@ + s),
            }
        } else if s.len() == 1 {
            Ok(KeyCode::Char(s[0]))
        } else {
            Err("Unknown key: "@ + s)
        },
    }
}

/// What a key binding's text means: the parts between `-`s, all but the last naming
/// modifiers (`ctrl` or `control`, `alt`, `shift`, `super`, `hyper`, `meta`, in any
/// case) and the last naming the key.
pub open spec fn keybind_result(value: Seq<char>) -> Result<KeyBind, Seq<char>> {
    let parts = split_on(value, '-');
    let key = lowercase(parts.last());
    match modifiers_result(parts.drop_last(), no_modifiers()) {
        Err(e) => Err(e),
        Ok(m) => match key_result(key) {
            Err(e) => Err(e),
            Ok(code) => Ok(KeyBind { code, modifiers: m }),
        },
    }
}

/// The parts joined back together with `sep` between them.
pub open spec fn joined_with(parts: Seq<Seq<char>>, sep: char) -> Seq<char>
    decreases parts.len(),
{
    if parts.len() <= 1 {
        if parts.len() == 1 {
            parts[0]
        } else {
            seq![]
        }
    } else {
        joined_with(parts.drop_last(), sep).push(sep) + parts.last()
    }
}

proof fn lemma_joined_push_char(parts: Seq<Seq<char>>, sep: char, c: char)
    requires
        parts.len() >= 1,
    ensures
        joined_with(parts.update(parts.len() - 1, parts.last().push(c)), sep) == joined_with(parts, sep).push(c),
{
    let q = parts.update(parts.len() - 1, parts.last().push(c));
    if parts.len() > 1 {
        assert(q.drop_last() =~= parts.drop_last());
        assert(joined_with(q, sep) =~= joined_with(parts, sep).push(c));
    }
}

/// Splitting at `sep` cuts the text into pieces that hold no `sep` and that give the
/// text back when joined with `sep`.
pub proof fn lemma_split_on_parts(s: Seq<char>, sep: char)
    ensures
        split_on(s, sep).len() >= 1,
        joined_with(split_on(s, sep), sep) == s,
        forall|i: int| 0 <= i < split_on(s, sep).len() ==> !(#[trigger] split_on(s, sep)[i]).contains(sep),
    decreases s.len(),
{
    lemma_split_on_nonempty(s, sep);
    if s.len() > 0 {
        let rest = split_on(s.drop_last(), sep);
        lemma_split_on_parts(s.drop_last(), sep);
        if s.last() == sep {
            let q = rest.push(Seq::<char>::empty());
            assert(q.drop_last() =~= rest);
            assert(joined_with(q, sep) =~= s);
            assert forall|i: int| 0 <= i < q.len() implies !(#[trigger] q[i]).contains(sep) by {
                if i < rest.len() {
                    assert(q[i] == rest[i]);
                }
            }
        } else {
            let q = rest.update(rest.len() - 1, rest.last().push(s.last()));
            lemma_joined_push_char(rest, sep, s.last());
            assert(s =~= s.drop_last().push(s.last()));
            assert forall|i: int| 0 <= i < q.len() implies !(#[trigger] q[i]).contains(sep) by {
                if i < rest.len() - 1 {
                    assert(q[i] == rest[i]);
                } else {
                    let l = rest.last();
                    assert(!rest[rest.len() - 1].contains(sep));
                    if q[i].contains(sep) {
                        let j = choose|j: int| 0 <= j < q[i].len() && q[i][j] == sep;
                        if j < l.len() {
                            assert(l[j] == sep);
                            assert(l.contains(sep));
                        }
                    }
                }
            }
        }
    }
}

/// The key names: each stands for its own key.
pub proof fn lemma_key_names()
    ensures
        key_result("backspace"@) == Ok::<KeyCode, Seq<char>>(KeyCode::Backspace),
        key_result("enter"@) == Ok::<KeyCode, Seq<char>>(KeyCode::Enter),
        key_result("left"@) == Ok::<KeyCode, Seq<char>>(KeyCode::Left),
        key_result("right"@) == Ok::<KeyCode, Seq<char>>(KeyCode::Right),
        key_result("up"@) == Ok::<KeyCode, Seq<char>>(KeyCode::Up),
        key_result("down"@) == Ok::<KeyCode, Seq<char>>(KeyCode::Down),
        key_result("home"@) == Ok::<KeyCode, Seq<char>>(KeyCode::Home),
        key_result("end"@) == Ok::<KeyCode, Seq<char>>(KeyCode::End),
        key_result("pageup"@) == Ok::<KeyCode, Seq<char>>(KeyCode::PageUp),
        key_result("pagedown"@) == Ok::<KeyCode, Seq<char>>(KeyCode::PageDown),
        key_result("tab"@) == Ok::<KeyCode, Seq<char>>(KeyCode::Tab),
        key_result("backtab"@) == Ok::<KeyCode, Seq<char>>(KeyCode::BackTab),
        key_result("delete"@) == Ok::<KeyCode, Seq<char>>(KeyCode::Delete),
        key_result("insert"@) == Ok::<KeyCode, Seq<char>>(KeyCode::Insert),
        key_result("esc"@) == Ok::<KeyCode, Seq<char>>(KeyCode::Esc),
        key_result("space"@) == Ok::<KeyCode, Seq<char>>(KeyCode::Char(' ')),
{
    reveal_strlit("backspace");
    reveal_strlit("enter");
    reveal_strlit("left");
    reveal_strlit("right");
    reveal_strlit("up");
    reveal_strlit("down");
    reveal_strlit("home");
    reveal_strlit("end");
    reveal_strlit("pageup");
    reveal_strlit("pagedown");
    reveal_strlit("tab");
    reveal_strlit("backtab");
    reveal_strlit("delete");
    reveal_strlit("insert");
    reveal_strlit("esc");
    reveal_strlit("space");
    assert("backspace"@.len() == 9 && "backspace"@[0] == 'b' && "backspace"@[1] == 'a');
    assert("enter"@.len() == 5 && "enter"@[0] == 'e' && "enter"@[1] == 'n');
    assert("left"@.len() == 4 && "left"@[0] == 'l' && "left"@[1] == 'e');
    assert("right"@.len() == 5 && "right"@[0] == 'r' && "right"@[1] == 'i');
    assert("up"@.len() == 2 && "up"@[0] == 'u' && "up"@[1] == 'p');
    assert("down"@.len() == 4 && "down"@[0] == 'd' && "down"@[1] == 'o');
    assert("home"@.len() == 4 && "home"@[0] == 'h' && "home"@[1] == 'o');
    assert("end"@.len() == 3 && "end"@[0] == 'e' && "end"@[1] == 'n');
    assert("pageup"@.len() == 6 && "pageup"@[0] == 'p' && "pageup"@[1] == 'a');
    assert("pagedown"@.len() == 8 && "pagedown"@[0] == 'p' && "pagedown"@[1] == 'a');
    assert("tab"@.len() == 3 && "tab"@[0] == 't' && "tab"@[1] == 'a');
    assert("backtab"@.len() == 7 && "backtab"@[0] == 'b' && "backtab"@[1] == 'a');
    assert("delete"@.len() == 6 && "delete"@[0] == 'd' && "delete"@[1] == 'e');
    assert("insert"@.len() == 6 && "insert"@[0] == 'i' && "insert"@[1] == 'n');
    assert("esc"@.len() == 3 && "esc"@[0] == 'e' && "esc"@[1] == 's');
    assert("space"@.len() == 5 && "space"@[0] == 's' && "space"@[1] == 'p');
}

/// A single character that is not a key name stands for itself.
pub proof fn lemma_single_char_key(c: char)
    ensures
        key_result(seq![c]) == Ok::<KeyCode, Seq<char>>(KeyCode::Char(c)),
{
    reveal_strlit("backspace");
    reveal_strlit("enter");
    reveal_strlit("left");
    reveal_strlit("right");
    reveal_strlit("up");
    reveal_strlit("down");
    reveal_strlit("home");
    reveal_strlit("end");
    reveal_strlit("pageup");
    reveal_strlit("pagedown");
    reveal_strlit("tab");
    reveal_strlit("backtab");
    reveal_strlit("delete");
    reveal_strlit("insert");
    reveal_strlit("esc");
    reveal_strlit("space");
}

/// `f` and a decimal number up to 255 is that function key: `f5` is F5, `f12` is
/// F12.
pub proof fn lemma_function_keys(d1: char, d2: char)
    requires
        '0' <= d1 <= '9',
        '0' <= d2 <= '9',
    ensures
        key_result(seq!['f', d1]) == Ok::<KeyCode, Seq<char>>(KeyCode::F((d1 as int - '0' as int) as u8)),
        key_result(seq!['f', d1, d2]) == Ok::<KeyCode, Seq<char>>(
            KeyCode::F((10 * (d1 as int - '0' as int) + (d2 as int - '0' as int)) as u8),
        ),
{
    reveal_strlit("backspace");
    reveal_strlit("enter");
    reveal_strlit("left");
    reveal_strlit("right");
    reveal_strlit("up");
    reveal_strlit("down");
    reveal_strlit("home");
    reveal_strlit("end");
    reveal_strlit("pageup");
    reveal_strlit("pagedown");
    reveal_strlit("tab");
    reveal_strlit("backtab");
    reveal_strlit("delete");
    reveal_strlit("insert");
    reveal_strlit("esc");
    reveal_strlit("space");
    let a = seq![d1];
    let b = seq![d1, d2];
    assert(seq!['f', d1].drop_first() =~= a);
    assert(seq!['f', d1, d2].drop_first() =~= b);
    assert(a.drop_last() =~= Seq::<char>::empty());
    assert(b.drop_last() =~= a);
    assert(a.last() == d1 && b.last() == d2);
    assert(dec_value(Seq::<char>::empty()) == 0);
    assert(dec_value(a) == d1 as int - '0' as int);
    assert(dec_value(b) == 10 * (d1 as int - '0' as int) + (d2 as int - '0' as int));
}

/// The modifier names, each adding its own modifier and keeping the others.
pub proof fn lemma_modifier_names(m: KeyModifiers)
    ensures
        add_modifier(m, "ctrl"@) == Some(KeyModifiers { control: true, ..m }),
        add_modifier(m, "control"@) == Some(KeyModifiers { control: true, ..m }),
        add_modifier(m, "alt"@) == Some(KeyModifiers { alt: true, ..m }),
        add_modifier(m, "shift"@) == Some(KeyModifiers { shift: true, ..m }),
        add_modifier(m, "super"@) == Some(KeyModifiers { super_key: true, ..m }),
        add_modifier(m, "hyper"@) == Some(KeyModifiers { hyper: true, ..m }),
        add_modifier(m, "meta"@) == Some(KeyModifiers { meta: true, ..m }),
{
    reveal_strlit("ctrl");
    reveal_strlit("control");
    reveal_strlit("alt");
    reveal_strlit("shift");
    reveal_strlit("super");
    reveal_strlit("hyper");
    reveal_strlit("meta");
    assert("ctrl"@.len() == 4 && "control"@.len() == 7 && "alt"@.len() == 3 && "shift"@.len() == 5);
    assert("super"@.len() == 5 && "hyper"@.len() == 5 && "meta"@.len() == 4);
    assert("super"@[0] != "shift"@[0] || "super"@[1] != "shift"@[1]);
    assert("hyper"@[0] != "shift"@[0] && "hyper"@[0] != "super"@[0]);
    assert("meta"@[0] != "ctrl"@[0]);
}

/// A binding whose modifiers all parse has the key its last part names (in any
/// case), held with those modifiers: `ctrl-PageUp` is page-up with control.
pub proof fn lemma_binding_key(value: Seq<char>, m: KeyModifiers, code: KeyCode)
    requires
        modifiers_result(split_on(value, '-').drop_last(), no_modifiers()) == Ok::<KeyModifiers, Seq<char>>(m),
        key_result(lowercase(split_on(value, '-').last())) == Ok::<KeyCode, Seq<char>>(code),
    ensures
        keybind_result(value) == Ok::<KeyBind, Seq<char>>(KeyBind { code, modifiers: m }),
{
}

/// All chars of `v` but the first.
fn tail_of(v: &Vec<char>) -> (r: Vec<char>)
    requires
        v@.len() > 0,
    ensures
        r@ == v@.drop_first(),
{
    let mut rest: Vec<char> = Vec::new();
    let mut j: usize = 1;
    while j < v.len()
        invariant
            1 <= j <= v@.len(),
            rest@ == v@.subrange(1, j as int),
        decreases v@.len() - j,
    {
        rest.push(v[j]);
        proof {
            assert(rest@ =~= v@.subrange(1, j + 1));
        }
        j += 1;
    }
    proof {
        assert(v@.subrange(1, v@.len() as int) =~= v@.drop_first());
    }
    rest
}

impl KeyBind {
    /// Reads a key binding such as `ctrl-s`, `alt-shift-f5` or `up`; the error says
    /// which modifier or key was not understood.
    pub fn parse(value: &str) -> (r: Result<KeyBind, String>)
        ensures
            match keybind_result(value@) {
                Ok(k) => r == Ok::<KeyBind, String>(k),
                Err(m) => r matches Err(e) && e@ == m,
            },
    {
        let v = chars_of(value);
        let parts = split_exec(&v, '-');
        proof {
            lemma_split_on_nonempty(v@, '-');
        }
        let ghost ps = split_on(v@, '-');
        let n = parts.len();
        let mut mods = KeyModifiers { shift: false, control: false, alt: false, super_key: false, hyper: false, meta: false };
        let mut i: usize = 0;
        proof {
            assert(ps.drop_last().skip(0) =~= ps.drop_last());
        }
        while i + 1 < n
            invariant
                n == ps.len(),
                ps == split_on(value@, '-'),
                n >= 1,
                i + 1 <= n,
                parts@.len() == n,
                forall|k: int| 0 <= k < n ==> (#[trigger] parts@[k])@ == ps[k],
                modifiers_result(ps.drop_last(), no_modifiers()) == modifiers_result(ps.drop_last().skip(i as int), mods),
            decreases n - i,
        {
            let part = string_of(parts[i].as_slice());
            let l = to_lower(part.as_str());
            let lc = chars_of(l.as_str());
            proof {
                assert(ps.drop_last().skip(i as int)[0] == ps[i as int]);
                assert(ps.drop_last().skip(i as int).drop_first() =~= ps.drop_last().skip(i + 1));
            }
            match add_modifier_exec(mods, lc.as_slice()) {
                Some(m) => {
                    mods = m;
                },
                None => {
                    let mut msg = owned("Unknown modifier: ");
                    append_str(&mut msg, part.as_str());
                    return Err(msg);
                },
            }
            i += 1;
        }
        proof {
            assert(ps.drop_last().skip(i as int) =~= Seq::<Seq<char>>::empty());
        }
        let last = string_of(parts[n - 1].as_slice());
        let key = to_lower(last.as_str());
        let kc = chars_of(key.as_str());
        let code = match named_key_exec(kc.as_slice()) {
            Some(k) => k,
            None => {
                if kc.len() > 1 && kc[0] == 'f' {
                    let rest = tail_of(&kc);
                    match parse_u8_exec(rest.as_slice()) {
                        Some(num) => KeyCode::F(num),
                        None => {
                            let mut msg = owned("Invalid F-key: ");
                            append_str(&mut msg, key.as_str());
                            return Err(msg);
                        },
                    }
                } else if kc.len() == 1 {
                    KeyCode::Char(kc[0])
                } else {
                    let mut msg = owned("Unknown key: ");
                    append_str(&mut msg, key.as_str());
                    return Err(msg);
                }
            },
        };
        Ok(KeyBind { code, modifiers: mods })
    }
}

} // verus!
