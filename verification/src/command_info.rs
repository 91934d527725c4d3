//! What a command tells about itself: its names, arguments and description, and the
//! suggestion line the command palette shows for it.

use vstd::prelude::*;
use crate::ranking::{highlight_matches, lowercase, marks, runs, runs_view};
use crate::text::{append_str, owned};

verus! {

/// The names (the first is the primary one), the arguments (name and type) and the
/// description lines of a command.
pub struct CommandInfo {
    pub valid_names: Vec<String>,
    pub args: Vec<(String, String)>,
    pub desc: Vec<String>,
}

/// What a piece of a suggestion line shows, which decides its style.
#[derive(Clone, Copy, Debug, PartialEq, Eq, Structural)]
pub enum SuggestionPart {
    /// The primary name; `autocomplete` when accepting the suggestion completes it.
    Name { autocomplete: bool },
    /// Characters of the primary name matched by the search.
    Match,
    /// Unstyled text.
    Plain,
    Bracket,
    Alias,
    ArgName,
    ArgSeparator,
    ArgType,
}

/// The pieces of a line, as contracts see them.
pub open spec fn piece_views(v: Seq<(String, SuggestionPart)>) -> Seq<(Seq<char>, SuggestionPart)> {
    v.map_values(|p: (String, SuggestionPart)| (p.0@, p.1))
}

/// The primary name's runs, matched ones marked as matches.
pub open spec fn name_pieces(rs: Seq<(Seq<char>, bool)>, auto: bool) -> Seq<(Seq<char>, SuggestionPart)> {
    rs.map_values(|r: (Seq<char>, bool)| (r.0, if r.1 {
        SuggestionPart::Match
    } else {
        SuggestionPart::Name { autocomplete: auto }
    }))
}

/// The names joined by `, `.
pub open spec fn join_comma(ns: Seq<Seq<char>>) -> Seq<char>
    decreases ns.len(),
{
    if ns.len() == 0 {
        seq![]
    } else if ns.len() == 1 {
        ns[0]
    } else {
        join_comma(ns.drop_last()) + ", "@ + ns.last()
    }
}

/// The aliases, in brackets, when there are any.
pub open spec fn alias_pieces(names: Seq<Seq<char>>) -> Seq<(Seq<char>, SuggestionPart)> {
    if names.len() >= 2 {
        seq![
            ("("@, SuggestionPart::Bracket),
            (join_comma(names.drop_first()), SuggestionPart::Alias),
            (") "@, SuggestionPart::Bracket),
        ]
    } else {
        seq![]
    }
}

/// The first `i` arguments, each as `name:type`, separated by spaces.
pub open spec fn arg_pieces(args: Seq<(Seq<char>, Seq<char>)>, i: int) -> Seq<(Seq<char>, SuggestionPart)>
    decreases i,
{
    if i <= 0 {
        seq![]
    } else {
        let a = args[i - 1];
        let sep: Seq<(Seq<char>, SuggestionPart)> = if i - 1 < args.len() - 1 {
            seq![(" "@, SuggestionPart::Plain)]
        } else {
            seq![]
        };
        arg_pieces(args, i - 1) + seq![
            (a.0, SuggestionPart::ArgName),
            (":"@, SuggestionPart::ArgSeparator),
            (a.1, SuggestionPart::ArgType),
        ] + sep
    }
}

/// A suggestion line: the primary name's runs, a space, the aliases, the arguments.
pub open spec fn suggestion(
    names: Seq<Seq<char>>,
    args: Seq<(Seq<char>, Seq<char>)>,
    auto: bool,
    rs: Seq<(Seq<char>, bool)>,
) -> Seq<(Seq<char>, SuggestionPart)> {
    name_pieces(rs, auto) + seq![(" "@, SuggestionPart::Plain)] + alias_pieces(names) + arg_pieces(
        args,
        args.len() as int,
    )
}

impl CommandInfo {
    /// The names as contracts see them.
    pub open spec fn names_v(&self) -> Seq<Seq<char>> {
        self.valid_names@.map_values(|s: String| s@)
    }

    /// The arguments as contracts see them.
    pub open spec fn args_v(&self) -> Seq<(Seq<char>, Seq<char>)> {
        self.args@.map_values(|a: (String, String)| (a.0@, a.1@))
    }

    pub fn new(names: Vec<String>, args: Vec<(String, String)>, desc: Vec<String>) -> (c: CommandInfo)
        ensures
            c.valid_names == names,
            c.args == args,
            c.desc == desc,
    {
        CommandInfo { valid_names: names, args, desc }
    }

    /// Whether `name` is one of the command's names.
    pub fn check_name(&self, name: &str) -> (r: bool)
        ensures
            r == self.names_v().contains(name@),
    {
        let target = owned(name);
        let mut i: usize = 0;
        while i < self.valid_names.len()
            invariant
                i <= self.valid_names@.len(),
                target@ == name@,
                forall|j: int| 0 <= j < i ==> self.valid_names@[j]@ != name@,
            decreases self.valid_names@.len() - i,
        {
            if self.valid_names[i].eq(&target) {
                assert(self.names_v()[i as int] == name@);
                return true;
            }
            i += 1;
        }
        assert forall|j: int| 0 <= j < self.names_v().len() implies self.names_v()[j] != name@ by {
            assert(self.names_v()[j] == self.valid_names@[j]@);
        }
        false
    }

    /// The description lines, or `None` when there are none.
    pub fn desc_lines(&self) -> (r: Option<Vec<String>>)
        ensures
            self.desc@.len() == 0 ==> r is None,
            self.desc@.len() > 0 ==> (r matches Some(v) && v@.map_values(|s: String| s@) == self.desc@.map_values(
                |s: String| s@,
            )),
    {
        if self.desc.len() == 0 {
            return None;
        }
        let mut v: Vec<String> = Vec::new();
        let mut i: usize = 0;
        while i < self.desc.len()
            invariant
                i <= self.desc@.len(),
                v@.map_values(|s: String| s@) == self.desc@.map_values(|s: String| s@).take(i as int),
            decreases self.desc@.len() - i,
        {
            let ghost old_v = v@;
            v.push(self.desc[i].clone());
            proof {
                assert(v@ == old_v.push(self.desc@[i as int]));
                assert(v@.map_values(|s: String| s@) =~= old_v.map_values(|s: String| s@).push(self.desc@[i as int]@));
                assert(v@.map_values(|s: String| s@) =~= self.desc@.map_values(|s: String| s@).take(i + 1));
            }
            i += 1;
        }
        proof {
            assert(self.desc@.map_values(|s: String| s@).take(i as int) =~= self.desc@.map_values(|s: String| s@));
        }
        Some(v)
    }

    /// The suggestion line for the command, with the characters of the primary name that
    /// the search term matches (in order, ignoring case) marked. `None` when lowercasing
    /// the primary name lengthens it, where its characters cannot be matched up.
    pub fn as_suggestion_with_search(&self, will_autocomplete: bool, search_term: &str) -> (r: Option<
        Vec<(String, SuggestionPart)>,
    >)
        requires
            self.valid_names@.len() > 0,
        ensures
            ({
                let name = self.valid_names@[0]@;
                let rs = if search_term@.len() == 0 {
                    seq![(name, false)]
                } else {
                    runs(name, marks(lowercase(name), lowercase(search_term@), 0, 0))
                };
                &&& r is None <==> (search_term@.len() > 0 && lowercase(name).len() > name.len())
                &&& r matches Some(v) ==> piece_views(v@) == suggestion(self.names_v(), self.args_v(), will_autocomplete, rs)
            }),
    {
        let hl = match highlight_matches(self.valid_names[0].as_str(), search_term) {
            Some(h) => h,
            None => return None,
        };
        let ghost rs = runs_view(hl@);
        let mut out: Vec<(String, SuggestionPart)> = Vec::new();
        let mut i: usize = 0;
        while i < hl.len()
            invariant
                i <= hl@.len(),
                rs == runs_view(hl@),
                piece_views(out@) == name_pieces(rs.take(i as int), will_autocomplete),
            decreases hl@.len() - i,
        {
            let (t, m) = (hl[i].0.clone(), hl[i].1);
            let part = if m {
                SuggestionPart::Match
            } else {
                SuggestionPart::Name { autocomplete: will_autocomplete }
            };
            let ghost old_out = out@;
            out.push((t, part));
            proof {
                assert(rs.take(i + 1) =~= rs.take(i as int).push(rs[i as int]));
                assert(piece_views(out@) =~= piece_views(old_out).push((rs[i as int].0, part)));
                assert(name_pieces(rs.take(i + 1), will_autocomplete) =~= name_pieces(rs.take(i as int), will_autocomplete).push(
                    (rs[i as int].0, part),
                ));
            }
            i += 1;
        }
        proof {
            assert(rs.take(i as int) =~= rs);
        }
        let ghost head = piece_views(out@);
        out.push((owned(" "), SuggestionPart::Plain));
        proof {
            assert(piece_views(out@) =~= head + seq![(" "@, SuggestionPart::Plain)]);
        }
        let ghost head2 = piece_views(out@);
        let n = self.valid_names.len();
        if n >= 2 {
            let mut joined = String::new();
            let mut k: usize = 1;
            let ghost ns = self.names_v();
            while k < n
                invariant
                    1 <= k <= n,
                    n == self.valid_names@.len(),
                    ns == self.names_v(),
                    joined@ == join_comma(ns.drop_first().take(k - 1)),
                decreases n - k,
            {
                let ghost t = ns.drop_first().take(k as int);
                proof {
                    assert(t.drop_last() =~= ns.drop_first().take(k - 1));
                    assert(t.last() == self.valid_names@[k as int]@);
                }
                if k > 1 {
                    append_str(&mut joined, ", ");
                }
                append_str(&mut joined, self.valid_names[k].as_str());
                proof {
                    if k == 1 {
                        assert(joined@ =~= t[0]);
                    } else {
                        assert(joined@ =~= join_comma(t.drop_last()) + ", "@ + t.last());
                    }
                }
                k += 1;
            }
            proof {
                assert(ns.drop_first().take(n - 1) =~= ns.drop_first());
            }
            out.push((owned("("), SuggestionPart::Bracket));
            out.push((joined, SuggestionPart::Alias));
            out.push((owned(") "), SuggestionPart::Bracket));
            proof {
                assert(piece_views(out@) =~= head2 + alias_pieces(self.names_v()));
            }
        } else {
            proof {
                assert(head2 + alias_pieces(self.names_v()) =~= head2);
            }
        }
        let ghost head3 = piece_views(out@);
        let ghost av = self.args_v();
        let na = self.args.len();
        let mut a: usize = 0;
        while a < na
            invariant
                a <= na,
                na == self.args@.len(),
                av == self.args_v(),
                piece_views(out@) == head3 + arg_pieces(av, a as int),
            decreases na - a,
        {
            let ghost before = piece_views(out@);
            out.push((self.args[a].0.clone(), SuggestionPart::ArgName));
            out.push((owned(":"), SuggestionPart::ArgSeparator));
            out.push((self.args[a].1.clone(), SuggestionPart::ArgType));
            if a < na - 1 {
                out.push((owned(" "), SuggestionPart::Plain));
            }
            proof {
                assert(av[a as int] == (self.args@[a as int].0@, self.args@[a as int].1@));
                let p3 = seq![
                    (av[a as int].0, SuggestionPart::ArgName),
                    (":"@, SuggestionPart::ArgSeparator),
                    (av[a as int].1, SuggestionPart::ArgType),
                ];
                let sep: Seq<(Seq<char>, SuggestionPart)> = if a < av.len() - 1 {
                    seq![(" "@, SuggestionPart::Plain)]
                } else {
                    seq![]
                };
                assert(piece_views(out@) =~= before + p3 + sep);
                assert(arg_pieces(av, a + 1) == arg_pieces(av, a as int) + p3 + sep);
                assert(piece_views(out@) =~= head3 + arg_pieces(av, a + 1));
            }
            a += 1;
        }
        Some(out)
    }

    /// The suggestion line for the command, with nothing searched.
    pub fn as_suggestion(&self, will_autocomplete: bool) -> (r: Vec<(String, SuggestionPart)>)
        requires
            self.valid_names@.len() > 0,
        ensures
            piece_views(r@) == suggestion(
                self.names_v(),
                self.args_v(),
                will_autocomplete,
                seq![(self.valid_names@[0]@, false)],
            ),
    {
        proof {
            reveal_strlit("");
        }
        match self.as_suggestion_with_search(will_autocomplete, "") {
            Some(v) => v,
            None => Vec::new(),
        }
    }
}

} // verus!
