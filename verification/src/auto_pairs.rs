//! Auto-pairing of brackets and quotes while typing.

use vstd::prelude::*;
use crate::text::chars_of;

verus! {

/// An opening character and the character that closes it.
#[derive(Clone, Copy, Debug, PartialEq, Eq, Structural)]
pub struct BracketPair {
    pub open: char,
    pub close: char,
}

/// The bracket pairs the editor completes.
pub struct AutoPairs {
    pub pairs: Vec<BracketPair>,
}

/// The index of the first pair of `ps[k..]` opened (or, when `by_close`, closed) by `c`.
pub open spec fn find_pair_from(ps: Seq<BracketPair>, c: char, by_close: bool, k: int) -> Option<int>
    decreases ps.len() - k,
{
    if k < 0 || k >= ps.len() {
        None
    } else if (if by_close {
        ps[k].close
    } else {
        ps[k].open
    }) == c {
        Some(k)
    } else {
        find_pair_from(ps, c, by_close, k + 1)
    }
}

/// The first pair opened by `c`.
pub open spec fn pair_opened_by(ps: Seq<BracketPair>, c: char) -> Option<BracketPair> {
    match find_pair_from(ps, c, false, 0) {
        Some(k) => Some(ps[k]),
        None => None,
    }
}

/// The first pair closed by `c`.
pub open spec fn pair_closed_by(ps: Seq<BracketPair>, c: char) -> Option<BracketPair> {
    match find_pair_from(ps, c, true, 0) {
        Some(k) => Some(ps[k]),
        None => None,
    }
}

/// The pairs not opened by `c`, in order.
pub open spec fn without_open(ps: Seq<BracketPair>, c: char) -> Seq<BracketPair> {
    ps.filter(|p: BracketPair| p.open != c)
}

proof fn lemma_find_pair_range(ps: Seq<BracketPair>, c: char, by_close: bool, k: int)
    requires
        0 <= k,
    ensures
        find_pair_from(ps, c, by_close, k) matches Some(j) ==> k <= j < ps.len() && (if by_close {
            ps[j].close
        } else {
            ps[j].open
        }) == c,
        find_pair_from(ps, c, by_close, k) is None ==> forall|j: int|
            k <= j < ps.len() ==> (if by_close {
                (#[trigger] ps[j]).close
            } else {
                ps[j].open
            }) != c,
    decreases ps.len() - k,
{
    if k < ps.len() {
        lemma_find_pair_range(ps, c, by_close, k + 1);
    }
}

impl AutoPairs {
    /// The default pairs: `()`, `[]`, `{}`, `<>`, `""` and `''`.
    pub fn default() -> (a: AutoPairs)
        ensures
            a.pairs@ == seq![
                BracketPair { open: '(', close: ')' },
                BracketPair { open: '[', close: ']' },
                BracketPair { open: '{', close: '}' },
                BracketPair { open: '<', close: '>' },
                BracketPair { open: '"', close: '"' },
                BracketPair { open: '\'', close: '\'' },
            ],
    {
        let pairs = vec![
            BracketPair { open: '(', close: ')' },
            BracketPair { open: '[', close: ']' },
            BracketPair { open: '{', close: '}' },
            BracketPair { open: '<', close: '>' },
            BracketPair { open: '"', close: '"' },
            BracketPair { open: '\'', close: '\'' },
        ];
        AutoPairs { pairs }
    }

    /// Removes every pair opened by `open`.
    pub fn remove_pair(&mut self, open: char)
        ensures
            final(self).pairs@ == without_open(old(self).pairs@, open),
    {
        let ghost ps = self.pairs@;
        let mut kept: Vec<BracketPair> = Vec::new();
        let mut i: usize = 0;
        while i < self.pairs.len()
            invariant
                self.pairs@ == ps,
                i <= ps.len(),
                kept@ == without_open(ps.subrange(0, i as int), open),
            decreases ps.len() - i,
        {
            let p = self.pairs[i];
            if p.open != open {
                kept.push(p);
            }
            proof {
                let f = |q: BracketPair| q.open != open;
                assert(ps.subrange(0, i as int).push(p) =~= ps.subrange(0, i + 1));
                ps.subrange(0, i as int).lemma_filter_push(p, f);
            }
            i += 1;
        }
        assert(ps.subrange(0, ps.len() as int) =~= ps);
        self.pairs = kept;
    }

    /// Sets the closing character for `open`, replacing any pair it already opened;
    /// the new pair comes last.
    pub fn add_pair(&mut self, open: char, close: char)
        ensures
            final(self).pairs@ == without_open(old(self).pairs@, open).push(
                BracketPair { open, close },
            ),
    {
        self.remove_pair(open);
        self.pairs.push(BracketPair { open, close });
    }

    /// The first pair opened by `c`.
    pub fn find_by_open(&self, c: char) -> (r: Option<&BracketPair>)
        ensures
            match pair_opened_by(self.pairs@, c) {
                Some(p) => r matches Some(q) && *q == p,
                None => r is None,
            },
    {
        let mut k: usize = 0;
        while k < self.pairs.len()
            invariant
                k <= self.pairs@.len(),
                find_pair_from(self.pairs@, c, false, 0) == find_pair_from(
                    self.pairs@,
                    c,
                    false,
                    k as int,
                ),
            decreases self.pairs@.len() - k,
        {
            if self.pairs[k].open == c {
                return Some(&self.pairs[k]);
            }
            k += 1;
        }
        None
    }

    /// The first pair closed by `c`.
    pub fn find_by_close(&self, c: char) -> (r: Option<&BracketPair>)
        ensures
            match pair_closed_by(self.pairs@, c) {
                Some(p) => r matches Some(q) && *q == p,
                None => r is None,
            },
    {
        let mut k: usize = 0;
        while k < self.pairs.len()
            invariant
                k <= self.pairs@.len(),
                find_pair_from(self.pairs@, c, true, 0) == find_pair_from(
                    self.pairs@,
                    c,
                    true,
                    k as int,
                ),
            decreases self.pairs@.len() - k,
        {
            if self.pairs[k].close == c {
                return Some(&self.pairs[k]);
            }
            k += 1;
        }
        None
    }
}

/// After `add_pair(open, close)`, `open` opens exactly the new pair.
pub proof fn lemma_add_then_find(ps: Seq<BracketPair>, open: char, close: char)
    ensures
        pair_opened_by(without_open(ps, open).push(BracketPair { open, close }), open) == Some(
            BracketPair { open, close },
        ),
{
    let f = |p: BracketPair| p.open != open;
    let kept = without_open(ps, open);
    let all = kept.push(BracketPair { open, close });
    assert forall|j: int| 0 <= j < kept.len() implies #[trigger] kept[j].open != open by {
        ps.lemma_filter_pred(f, j);
    }
    lemma_find_pair_range(all, open, false, 0);
    if let Some(j) = find_pair_from(all, open, false, 0) {
        if j < kept.len() {
            assert(all[j] == kept[j]);
            assert(kept[j].open != open);
        }
    } else {
        assert(all[kept.len() as int].open == open);
    }
}

/// After `remove_pair(open)`, `open` opens no pair.
pub proof fn lemma_remove_then_find(ps: Seq<BracketPair>, open: char)
    ensures
        pair_opened_by(without_open(ps, open), open) is None,
{
    let f = |p: BracketPair| p.open != open;
    let kept = without_open(ps, open);
    lemma_find_pair_range(kept, open, false, 0);
    if let Some(j) = find_pair_from(kept, open, false, 0) {
        ps.lemma_filter_pred(f, j);
        assert(kept[j].open != open);
    }
}

/// What typing a character does when pairs are completed.
#[derive(Debug, Clone, Copy, PartialEq, Eq, Structural)]
pub enum PairAction {
    /// Type the character as usual
    Allow,
    /// Move over the closing character that is already there, instead of typing it
    SkipOver,
    /// Type the character, then insert this closing character after it
    InsertCloser(char),
}

/// What typing `c` does, given the character at the cursor.
pub open spec fn pair_action(ps: Seq<BracketPair>, c: char, at_cursor: Option<char>) -> PairAction {
    match pair_opened_by(ps, c) {
        Some(p) => if p.open == p.close && at_cursor == Some(c) {
            PairAction::SkipOver
        } else {
            PairAction::InsertCloser(p.close)
        },
        None => if pair_closed_by(ps, c) is Some && at_cursor == Some(c) {
            PairAction::SkipOver
        } else {
            PairAction::Allow
        },
    }
}

impl AutoPairs {
    /// Decides what appending `text` does: only a single typed character that does not
    /// extend the selection is ever paired; an opener gets its closer inserted after it
    /// (a symmetric quote skips over the same quote at the cursor instead), and a closer
    /// skips over the same closer at the cursor.
    pub fn intercept(&self, text: &str, extend: bool, char_at_cursor: Option<char>) -> (r:
        PairAction)
        ensures
            r == if !extend && text@.len() == 1 {
                pair_action(self.pairs@, text@[0], char_at_cursor)
            } else {
                PairAction::Allow
            },
    {
        if extend {
            return PairAction::Allow;
        }
        let tv = chars_of(text);
        if tv.len() != 1 {
            return PairAction::Allow;
        }
        let c = tv[0];
        if let Some(pair) = self.find_by_open(c) {
            if pair.open == pair.close && char_at_cursor == Some(c) {
                return PairAction::SkipOver;
            }
            return PairAction::InsertCloser(pair.close);
        }
        if self.find_by_close(c).is_some() && char_at_cursor == Some(c) {
            return PairAction::SkipOver;
        }
        PairAction::Allow
    }
}

/// The commands that change the pairs: `auto-pairs-add` and `auto-pairs-remove`.
#[derive(Clone, Copy, Debug)]
pub enum AutoPairsCommand {
    Add { open: char, close: char },
    Remove { open: char },
}

impl AutoPairsCommand {
    /// Applies the command to `pairs`; it always succeeds.
    pub fn apply(&self, pairs: &mut AutoPairs) -> (ok: bool)
        ensures
            ok,
            match *self {
                AutoPairsCommand::Add { open, close } => final(pairs).pairs@ == without_open(
                    old(pairs).pairs@,
                    open,
                ).push(BracketPair { open, close }),
                AutoPairsCommand::Remove { open } => final(pairs).pairs@ == without_open(
                    old(pairs).pairs@,
                    open,
                ),
            },
    {
        match *self {
            AutoPairsCommand::Add { open, close } => {
                pairs.add_pair(open, close);
                true
            },
            AutoPairsCommand::Remove { open } => {
                pairs.remove_pair(open);
                true
            },
        }
    }
}

} // verus!
