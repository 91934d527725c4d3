//! Parsing a command's tokens into its name, positional arguments and flags.

use vstd::prelude::*;
use crate::keyed::{keyed_insert, keyed_map, sorted_keys};
use crate::text::chars_of;

verus! {

/// A token of the command language.
#[derive(Debug)]
pub enum Token {
    /// A bare word
    Word(String),
    /// A bracketed list of tokens
    List(Vec<Token>),
    /// A `%name` variable reference
    Variable(String),
}

broadcast use vstd::std_specs::vec::axiom_vec_decreases_to_view;

/// Whether `b` is a copy of `a`: the same shape, with equal text.
pub open spec fn token_copy(a: Token, b: Token) -> bool
    decreases a,
{
    match a {
        Token::Word(x) => b is Word && x@ == b->Word_0@,
        Token::Variable(x) => b is Variable && x@ == b->Variable_0@,
        Token::List(xs) => b is List && xs@.len() == b->List_0@.len() && forall|i: int|
            0 <= i < xs@.len() ==> token_copy(xs@[i], #[trigger] b->List_0@[i]),
    }
}

pub open spec fn token_copy_at(xs: Seq<Token>, ys: Seq<Token>, i: int) -> bool {
    0 <= i < xs.len() && token_copy(xs[i], ys[i])
}

impl Token {
    /// A copy of this token.
    pub fn duplicate(&self) -> (r: Token)
        ensures
            token_copy(*self, r),
        decreases self,
    {
        match self {
            Token::Word(s) => {
                let c = s.clone();
                let r = Token::Word(c);
                assert(token_copy(*self, r));
                r
            },
            Token::Variable(s) => {
                let c = s.clone();
                let r = Token::Variable(c);
                assert(token_copy(*self, r));
                r
            },
            Token::List(xs) => {
                let mut ys: Vec<Token> = Vec::new();
                let mut i: usize = 0;
                while i < xs.len()
                    invariant
                        *self == Token::List(*xs),
                        i <= xs@.len(),
                        ys@.len() == i,
                        forall|j: int| 0 <= j < i ==> #[trigger] token_copy_at(xs@, ys@, j),
                    decreases xs@.len() - i,
                {
                    proof {
                        vstd::std_specs::vec::axiom_vec_decreases_to_view(*xs);
                        assert(*self == Token::List(*xs));
                        assert(decreases_to!(*self => (*self)->List_0));
                        assert(decreases_to!(xs@ => xs@[i as int]));
                        assert(decreases_to!(*self => xs@[i as int]));
                    }
                    let t = xs[i].duplicate();
                    let ghost old_ys = ys@;
                    ys.push(t);
                    assert forall|j: int| 0 <= j < i + 1 implies #[trigger] token_copy_at(
                        xs@,
                        ys@,
                        j,
                    ) by {
                        if j < i {
                            assert(token_copy_at(xs@, old_ys, j));
                            assert(ys@[j] == old_ys[j]);
                        }
                    }
                    i += 1;
                }
                let ghost yv = ys@;
                let r = Token::List(ys);
                assert(r->List_0@ == yv);
                assert forall|j: int| 0 <= j < xs@.len() implies token_copy(
                    xs@[j],
                    #[trigger] r->List_0@[j],
                ) by {
                    assert(token_copy_at(xs@, yv, j));
                }
                assert(token_copy(*self, r));
                r
            },
        }
    }
}

/// A command as read from its tokens: the name, the positional arguments, and the
/// `--flag` arguments with their values.
pub struct CommandState {
    pub name: String,
    pub positional: Vec<Token>,
    /// Flags sorted by name; a flag given twice keeps its last value.
    pub flags: Vec<(String, Option<Token>)>,
}

pub open spec fn starts_with_flag_marker(s: Seq<char>) -> bool {
    s.len() >= 2 && s[0] == '-' && s[1] == '-'
}

/// Whether the token after a flag at `i` is the flag's value: a word that is not
/// itself a flag, or a list.
pub open spec fn flag_has_value(val: Seq<Token>, i: int) -> bool {
    i + 1 < val.len() && match val[i + 1] {
        Token::Word(v) => !starts_with_flag_marker(v@),
        Token::List(_) => true,
        _ => false,
    }
}

/// Reading tokens `val[i..]`: `pos` collects the positions of positional arguments,
/// `flags` maps each flag name to the position of its value, if any.
pub open spec fn scan(val: Seq<Token>, i: int, pos: Seq<int>, flags: Map<Seq<char>, Option<int>>) -> (
    Seq<int>,
    Map<Seq<char>, Option<int>>,
)
    decreases val.len() - i,
{
    if i < 0 || i >= val.len() {
        (pos, flags)
    } else if val[i] is Word && starts_with_flag_marker(val[i]->Word_0@) {
        if flag_has_value(val, i) {
            scan(val, i + 2, pos, flags.insert(val[i]->Word_0@, Some(i + 1)))
        } else {
            scan(val, i + 1, pos, flags.insert(val[i]->Word_0@, None))
        }
    } else {
        scan(val, i + 1, pos.push(i), flags)
    }
}

/// The positions of the positional arguments and the flags of a command's tokens.
pub open spec fn command_layout(val: Seq<Token>) -> (Seq<int>, Map<Seq<char>, Option<int>>) {
    scan(val, 1, Seq::empty(), Map::empty())
}

/// Whether the flag values `fv` are copies of the tokens at the recorded positions.
pub open spec fn flags_copied(val: Seq<Token>, m: Map<Seq<char>, Option<int>>, fv: Map<Seq<char>, Option<Token>>) -> bool {
    &&& fv.dom() == m.dom()
    &&& forall|k: Seq<char>|
        #[trigger] m.dom().contains(k) ==> match (m[k], fv[k]) {
            (None, None) => true,
            (Some(p), Some(t)) => 0 <= p < val.len() && token_copy(val[p], t),
            _ => false,
        }
}

impl CommandState {
    /// Whether this state is what reading `val` yields.
    pub open spec fn reads(&self, val: Seq<Token>) -> bool {
        let (pos, m) = command_layout(val);
        &&& val.len() > 0 && val[0] is Word && self.name@ == val[0]->Word_0@
        &&& self.positional@.len() == pos.len()
        &&& forall|j: int|
            0 <= j < pos.len() ==> 0 <= #[trigger] pos[j] < val.len() && token_copy(
                val[pos[j]],
                self.positional@[j],
            )
        &&& sorted_keys(self.flags@)
        &&& flags_copied(val, m, keyed_map(self.flags@))
    }

    /// Reads a command from its tokens: the first token, a word, names it; a word
    /// starting with `--` is a flag, whose value is the next token when that is a
    /// non-flag word or a list; every other token is positional. `None` when the
    /// first token is not a word.
    pub fn parse(val: &[Token]) -> (r: Option<CommandState>)
        ensures
            match r {
                Some(cs) => cs.reads(val@),
                None => val@.len() == 0 || !(val@[0] is Word),
            },
    {
        if val.len() == 0 {
            return None;
        }
        let name = match &val[0] {
            Token::Word(s) => s.clone(),
            _ => {
                return None;
            },
        };
        let mut positional: Vec<Token> = Vec::new();
        let mut flags: Vec<(String, Option<Token>)> = Vec::new();
        let ghost mut pos: Seq<int> = Seq::empty();
        let ghost mut m: Map<Seq<char>, Option<int>> = Map::empty();
        let mut i: usize = 1;
        assert(keyed_map(flags@) =~= Map::<Seq<char>, Option<Token>>::empty());
        while i < val.len()
            invariant
                1 <= i <= val@.len(),
                command_layout(val@) == scan(val@, i as int, pos, m),
                positional@.len() == pos.len(),
                forall|j: int|
                    0 <= j < pos.len() ==> 0 <= #[trigger] pos[j] < i && token_copy(
                        val@[pos[j]],
                        positional@[j],
                    ),
                sorted_keys(flags@),
                forall|k: Seq<char>|
                    #[trigger] m.dom().contains(k) ==> (m[k] matches Some(p) ==> 0 <= p < i),
                flags_copied(val@, m, keyed_map(flags@)),
            decreases val@.len() - i,
        {
            let mut is_flag = false;
            if let Token::Word(s) = &val[i] {
                let sv = chars_of(s.as_str());
                if sv.len() >= 2 && sv[0] == '-' && sv[1] == '-' {
                    is_flag = true;
                    let has_value = if i + 1 < val.len() {
                        match &val[i + 1] {
                            Token::Word(v) => {
                                let vv = chars_of(v.as_str());
                                !(vv.len() >= 2 && vv[0] == '-' && vv[1] == '-')
                            },
                            Token::List(_) => true,
                            _ => false,
                        }
                    } else {
                        false
                    };
                    if has_value {
                        let t = val[i + 1].duplicate();
                        keyed_insert(&mut flags, s.clone(), Some(t));
                        proof {
                            m = m.insert(s@, Some(i + 1));
                        }
                        i += 2;
                    } else {
                        keyed_insert(&mut flags, s.clone(), None);
                        proof {
                            m = m.insert(s@, None);
                        }
                        i += 1;
                    }
                }
            }
            if !is_flag {
                positional.push(val[i].duplicate());
                proof {
                    pos = pos.push(i as int);
                }
                i += 1;
            }
        }
        Some(CommandState { name, positional, flags })
    }
}

/// A flag followed by a bracketed list takes the list as its value: reading
/// `name --flag [..]` gives no positional argument and the flag holding a copy of the
/// list.
pub proof fn lemma_flag_takes_list(cs: CommandState, name: String, flag: String, items: Vec<Token>)
    requires
        flag@.len() >= 2 && flag@[0] == '-' && flag@[1] == '-',
        cs.reads(seq![Token::Word(name), Token::Word(flag), Token::List(items)]),
    ensures
        cs.positional@.len() == 0,
        keyed_map(cs.flags@).dom() == set![flag@],
        keyed_map(cs.flags@)[flag@] matches Some(t) && token_copy(Token::List(items), t),
{
    let val = seq![Token::Word(name), Token::Word(flag), Token::List(items)];
    reveal_with_fuel(scan, 3);
    assert(flag_has_value(val, 1));
    let m = Map::<Seq<char>, Option<int>>::empty().insert(flag@, Some(2int));
    assert(command_layout(val) == (Seq::<int>::empty(), m));
    assert(m.dom().contains(flag@));
    assert(keyed_map(cs.flags@).dom() =~= set![flag@]);
}

/// A flag followed by a word that is not a flag takes the word as its value.
pub proof fn lemma_flag_takes_word(cs: CommandState, name: String, flag: String, word: String)
    requires
        flag@.len() >= 2 && flag@[0] == '-' && flag@[1] == '-',
        !(word@.len() >= 2 && word@[0] == '-' && word@[1] == '-'),
        cs.reads(seq![Token::Word(name), Token::Word(flag), Token::Word(word)]),
    ensures
        cs.positional@.len() == 0,
        keyed_map(cs.flags@).dom() == set![flag@],
        keyed_map(cs.flags@)[flag@] matches Some(t) && (t matches Token::Word(w) && w@ == word@),
{
    let val = seq![Token::Word(name), Token::Word(flag), Token::Word(word)];
    reveal_with_fuel(scan, 3);
    assert(flag_has_value(val, 1));
    let m = Map::<Seq<char>, Option<int>>::empty().insert(flag@, Some(2int));
    assert(command_layout(val) == (Seq::<int>::empty(), m));
    assert(m.dom().contains(flag@));
    assert(keyed_map(cs.flags@).dom() =~= set![flag@]);
}

/// A flag followed by another flag, or by nothing, has no value.
pub proof fn lemma_flag_before_flag(cs: CommandState, name: String, f: String, g: String)
    requires
        f@.len() >= 2 && f@[0] == '-' && f@[1] == '-',
        g@.len() >= 2 && g@[0] == '-' && g@[1] == '-',
        f@ != g@,
        cs.reads(seq![Token::Word(name), Token::Word(f), Token::Word(g)]),
    ensures
        cs.positional@.len() == 0,
        keyed_map(cs.flags@).dom() == set![f@, g@],
        keyed_map(cs.flags@)[f@] is None,
        keyed_map(cs.flags@)[g@] is None,
{
    let val = seq![Token::Word(name), Token::Word(f), Token::Word(g)];
    reveal_with_fuel(scan, 3);
    assert(!flag_has_value(val, 1));
    assert(!flag_has_value(val, 2));
    let m = Map::<Seq<char>, Option<int>>::empty().insert(f@, None).insert(g@, None);
    assert(command_layout(val) == (Seq::<int>::empty(), m));
    assert(m.dom().contains(f@) && m.dom().contains(g@));
    assert(keyed_map(cs.flags@).dom() =~= set![f@, g@]);
}

/// Tokens other than flags and their values are positional, in order: reading
/// `name a [..]` gives copies of both as positional arguments and no flag.
pub proof fn lemma_positional_tokens(cs: CommandState, name: String, word: String, items: Vec<Token>)
    requires
        !(word@.len() >= 2 && word@[0] == '-' && word@[1] == '-'),
        cs.reads(seq![Token::Word(name), Token::Word(word), Token::List(items)]),
    ensures
        cs.positional@.len() == 2,
        cs.positional@[0] matches Token::Word(w) && w@ == word@,
        token_copy(Token::List(items), cs.positional@[1]),
        keyed_map(cs.flags@).dom() == Set::<Seq<char>>::empty(),
{
    let val = seq![Token::Word(name), Token::Word(word), Token::List(items)];
    reveal_with_fuel(scan, 3);
    assert(command_layout(val) == (seq![1int, 2int], Map::<Seq<char>, Option<int>>::empty()));
    assert(keyed_map(cs.flags@).dom() =~= Set::<Seq<char>>::empty());
}

/// A flag given twice keeps the value it was given last.
pub proof fn lemma_flag_last_value_wins(cs: CommandState, name: String, flag: String, v1: String, v2: String)
    requires
        flag@.len() >= 2 && flag@[0] == '-' && flag@[1] == '-',
        !(v1@.len() >= 2 && v1@[0] == '-' && v1@[1] == '-'),
        !(v2@.len() >= 2 && v2@[0] == '-' && v2@[1] == '-'),
        cs.reads(seq![Token::Word(name), Token::Word(flag), Token::Word(v1), Token::Word(flag), Token::Word(v2)]),
    ensures
        cs.positional@.len() == 0,
        keyed_map(cs.flags@).dom() == set![flag@],
        keyed_map(cs.flags@)[flag@] matches Some(t) && (t matches Token::Word(w) && w@ == v2@),
{
    let val = seq![Token::Word(name), Token::Word(flag), Token::Word(v1), Token::Word(flag), Token::Word(v2)];
    reveal_with_fuel(scan, 4);
    assert(flag_has_value(val, 1));
    assert(flag_has_value(val, 3));
    let m1 = Map::<Seq<char>, Option<int>>::empty().insert(flag@, Some(2int));
    let m = m1.insert(flag@, Some(4int));
    assert(scan(val, 3, Seq::<int>::empty(), m1) == (Seq::<int>::empty(), m));
    assert(command_layout(val) == (Seq::<int>::empty(), m));
    assert(m.dom().contains(flag@));
    assert(m =~= Map::<Seq<char>, Option<int>>::empty().insert(flag@, Some(4int)));
    assert(keyed_map(cs.flags@).dom() =~= set![flag@]);
}

/// The text of each word token of `ts`, in order; other tokens are left out.
pub open spec fn word_texts(ts: Seq<Token>) -> Seq<Seq<char>>
    decreases ts.len(),
{
    if ts.len() == 0 {
        seq![]
    } else {
        let rest = word_texts(ts.drop_last());
        match ts.last() {
            Token::Word(w) => rest.push(w@),
            _ => rest,
        }
    }
}

/// The first char of each word token of `ts` that has one, in order.
pub open spec fn word_initials(ts: Seq<Token>) -> Seq<char>
    decreases ts.len(),
{
    if ts.len() == 0 {
        seq![]
    } else {
        let rest = word_initials(ts.drop_last());
        match ts.last() {
            Token::Word(w) => if w@.len() > 0 {
                rest.push(w@[0])
            } else {
                rest
            },
            _ => rest,
        }
    }
}

/// The words among `tokens`, as strings.
pub fn tokens_to_strings(tokens: &[Token]) -> (r: Vec<String>)
    ensures
        r@.map_values(|x: String| x@) == word_texts(tokens@),
{
    let mut r: Vec<String> = Vec::new();
    let mut i: usize = 0;
    while i < tokens.len()
        invariant
            i <= tokens@.len(),
            r@.map_values(|x: String| x@) == word_texts(tokens@.take(i as int)),
        decreases tokens@.len() - i,
    {
        proof {
            assert(tokens@.take(i + 1).drop_last() =~= tokens@.take(i as int));
            assert(tokens@.take(i + 1).last() == tokens@[i as int]);
        }
        let ghost old_r = r@;
        match &tokens[i] {
            Token::Word(w) => {
                let c = w.clone();
                r.push(c);
                proof {
                    assert(r@.map_values(|x: String| x@) =~= old_r.map_values(|x: String| x@).push(w@));
                }
            },
            _ => {},
        }
        i += 1;
    }
    proof {
        assert(tokens@.take(tokens@.len() as int) =~= tokens@);
    }
    r
}

/// The first char of each word of `ts` that has one.
pub fn word_initial_chars(ts: &[Token]) -> (r: Vec<char>)
    ensures
        r@ == word_initials(ts@),
{
    let mut r: Vec<char> = Vec::new();
    let mut i: usize = 0;
    while i < ts.len()
        invariant
            i <= ts@.len(),
            r@ == word_initials(ts@.take(i as int)),
        decreases ts@.len() - i,
    {
        proof {
            assert(ts@.take(i + 1).drop_last() =~= ts@.take(i as int));
            assert(ts@.take(i + 1).last() == ts@[i as int]);
        }
        match &ts[i] {
            Token::Word(w) => {
                let cs = chars_of(w.as_str());
                if cs.len() > 0 {
                    r.push(cs[0]);
                }
            },
            _ => {},
        }
        i += 1;
    }
    proof {
        assert(ts@.take(ts@.len() as int) =~= ts@);
    }
    r
}

/// The modes a list of tokens names: the first char of each word, none when absent.
pub fn tokens_to_mode_chars(tokens: &Option<Vec<Token>>) -> (r: Vec<char>)
    ensures
        r@ == match tokens {
            Some(ts) => word_initials(ts@),
            None => seq![],
        },
{
    match tokens {
        None => Vec::new(),
        Some(ts) => word_initial_chars(ts.as_slice()),
    }
}

} // verus!
