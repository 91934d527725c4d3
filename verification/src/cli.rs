//! A small command-line argument parser: flags, valued arguments, combined short
//! flags and nested subcommands, described by a `Help` tree.

use vstd::prelude::*;
use crate::text::{append_str, chars_eq, chars_of, owned, push_char, str_chars_eq, string_of};

verus! {

/// Help information for a single flag or argument.
#[derive(Debug, Clone)]
pub struct ArgumentHelp {
    pub name: String,
    pub short: Option<char>,
    pub long: Option<String>,
    pub description: String,
    pub takes_value: bool,
}

/// Help information for a subcommand.
#[derive(Debug)]
pub struct CommandHelp {
    pub name: String,
    pub description: String,
    pub help: Help,
}

/// Complete help information for a command or subcommand.
#[derive(Debug)]
pub struct Help {
    pub description: Option<String>,
    pub arguments: Vec<ArgumentHelp>,
    pub subcommands: Vec<CommandHelp>,
}

/// The result of parsing the command line arguments.
///
/// `flags` maps each flag that was given to its value (`None` for a boolean flag);
/// no name occurs in it twice.
#[derive(Debug)]
pub struct CliResult {
    pub name: String,
    pub flags: Vec<(String, Option<String>)>,
    pub subcommand: Option<Box<CliResult>>,
    pub help: Option<Help>,
}

/// Why parsing stopped.
#[derive(Debug, Clone)]
pub enum CliErrorKind {
    /// `--help` or `-h` was given where help is available.
    HelpRequested,
    /// A long flag that the command does not know.
    UnexpectedLong(String),
    /// A long argument without its value.
    MissingLongValue(String),
    /// A short argument without its value.
    MissingShortValue(char),
    /// A short flag that the command does not know.
    UnexpectedShort(char),
    /// A short argument that takes a value, inside a group of combined short flags.
    ShortNeedsValue(char),
    /// A word that names no subcommand.
    UnrecognizedSubcommand(String),
}

/// A parse error, with the command (program name and subcommand path) at which it
/// occurred and that command's help, for printing.
#[derive(Debug)]
pub struct CliError {
    pub kind: CliErrorKind,
    pub command: String,
    pub help: Option<Help>,
}

// ---------------------------------------------------------------------------
// Models
// ---------------------------------------------------------------------------

pub open spec fn opt_view(o: Option<String>) -> Option<Seq<char>> {
    match o {
        Some(s) => Some(s@),
        None => None,
    }
}

/// The flags as a map from name to value.
pub open spec fn flags_map(v: Seq<(String, Option<String>)>) -> Map<Seq<char>, Option<Seq<char>>>
    decreases v.len(),
{
    if v.len() == 0 {
        Map::empty()
    } else {
        flags_map(v.drop_last()).insert(v.last().0@, opt_view(v.last().1))
    }
}

pub open spec fn keys_distinct(v: Seq<(String, Option<String>)>) -> bool {
    forall|i: int, j: int| 0 <= i < j < v.len() ==> v[i].0@ != v[j].0@
}

/// A parsed command: its name, its flags and the subcommand that followed it.
pub struct ParsedSpec {
    pub name: Seq<char>,
    pub flags: Map<Seq<char>, Option<Seq<char>>>,
    pub sub: Option<Box<ParsedSpec>>,
}

pub enum ErrorKindSpec {
    HelpRequested,
    UnexpectedLong(Seq<char>),
    MissingLongValue(Seq<char>),
    MissingShortValue(char),
    UnexpectedShort(char),
    ShortNeedsValue(char),
    UnrecognizedSubcommand(Seq<char>),
}

pub struct ErrorSpec {
    pub kind: ErrorKindSpec,
    pub command: Seq<char>,
}

impl CliErrorKind {
    pub open spec fn spec_kind(&self) -> ErrorKindSpec {
        match self {
            CliErrorKind::HelpRequested => ErrorKindSpec::HelpRequested,
            CliErrorKind::UnexpectedLong(s) => ErrorKindSpec::UnexpectedLong(s@),
            CliErrorKind::MissingLongValue(s) => ErrorKindSpec::MissingLongValue(s@),
            CliErrorKind::MissingShortValue(c) => ErrorKindSpec::MissingShortValue(*c),
            CliErrorKind::UnexpectedShort(c) => ErrorKindSpec::UnexpectedShort(*c),
            CliErrorKind::ShortNeedsValue(c) => ErrorKindSpec::ShortNeedsValue(*c),
            CliErrorKind::UnrecognizedSubcommand(s) => ErrorKindSpec::UnrecognizedSubcommand(s@),
        }
    }
}

impl CliError {
    pub open spec fn spec_error(&self) -> ErrorSpec {
        ErrorSpec { kind: self.kind.spec_kind(), command: self.command@ }
    }
}

impl CliResult {
    /// The parsed command tree that this result holds.
    pub open spec fn parsed(&self) -> ParsedSpec
        decreases self,
    {
        ParsedSpec {
            name: self.name@,
            flags: flags_map(self.flags@),
            sub: match &self.subcommand {
                Some(b) => Some(Box::new((**b).parsed())),
                None => None,
            },
        }
    }

    /// Every level of the result keeps its flag names distinct.
    pub open spec fn well_formed(&self) -> bool
        decreases self,
    {
        &&& keys_distinct(self.flags@)
        &&& match &self.subcommand {
            Some(b) => (**b).well_formed(),
            None => true,
        }
    }
}

/// Whether argument `a` answers to `flag`: by its short name when `flag` is a single
/// character, or by its long name.
pub open spec fn arg_matches(a: ArgumentHelp, flag: Seq<char>) -> bool {
    ||| (flag.len() == 1 && a.short == Some(flag[0]))
    ||| (a.long matches Some(l) && l@ == flag)
}

/// The index of the first argument of `args[k..]` that answers to `flag`.
pub open spec fn find_arg_from(args: Seq<ArgumentHelp>, flag: Seq<char>, k: int) -> Option<int>
    decreases args.len() - k,
{
    if k < 0 || k >= args.len() {
        None
    } else if arg_matches(args[k], flag) {
        Some(k)
    } else {
        find_arg_from(args, flag, k + 1)
    }
}

pub open spec fn find_arg(args: Seq<ArgumentHelp>, flag: Seq<char>) -> Option<int> {
    find_arg_from(args, flag, 0)
}

proof fn lemma_find_arg_range(args: Seq<ArgumentHelp>, flag: Seq<char>, k: int)
    requires
        0 <= k,
    ensures
        find_arg_from(args, flag, k) matches Some(j) ==> k <= j < args.len() && arg_matches(
            args[j],
            flag,
        ),
    decreases args.len() - k,
{
    if k < args.len() && !arg_matches(args[k], flag) {
        lemma_find_arg_range(args, flag, k + 1);
    }
}

proof fn lemma_find_sub_range(subs: Seq<CommandHelp>, name: Seq<char>, k: int)
    requires
        0 <= k,
    ensures
        find_sub_from(subs, name, k) matches Some(j) ==> k <= j < subs.len() && subs[j].name@
            == name,
    decreases subs.len() - k,
{
    if k < subs.len() && subs[k].name@ != name {
        lemma_find_sub_range(subs, name, k + 1);
    }
}

/// The argument of `help` that answers to `flag`, if any.
pub open spec fn lookup(help: Option<Help>, flag: Seq<char>) -> Option<ArgumentHelp> {
    match help {
        None => None,
        Some(h) => match find_arg(h.arguments@, flag) {
            Some(k) => Some(h.arguments@[k]),
            None => None,
        },
    }
}

/// Whether some argument with short name `c` takes a value.
pub open spec fn short_takes_value(help: Option<Help>, c: char) -> bool {
    match help {
        None => false,
        Some(h) => exists|i: int|
            0 <= i < h.arguments@.len() && #[trigger] h.arguments@[i].short == Some(c)
                && h.arguments@[i].takes_value,
    }
}

/// The index of the first subcommand of `subs[k..]` named `name`.
pub open spec fn find_sub_from(subs: Seq<CommandHelp>, name: Seq<char>, k: int) -> Option<int>
    decreases subs.len() - k,
{
    if k < 0 || k >= subs.len() {
        None
    } else if subs[k].name@ == name {
        Some(k)
    } else {
        find_sub_from(subs, name, k + 1)
    }
}

/// `s` without its leading `--` pairs.
pub open spec fn strip_dash_pairs(s: Seq<char>) -> Seq<char>
    decreases s.len(),
{
    if s.len() >= 2 && s[0] == '-' && s[1] == '-' {
        strip_dash_pairs(s.skip(2))
    } else {
        s
    }
}

pub open spec fn starts_with_dash(s: Seq<char>) -> bool {
    s.len() > 0 && s[0] == '-'
}

pub open spec fn starts_with_two_dashes(s: Seq<char>) -> bool {
    s.len() >= 2 && s[0] == '-' && s[1] == '-'
}

/// Whether a value follows at `args[i + 1]`: there is one, and it does not look like a
/// flag.
pub open spec fn value_follows(args: Seq<Seq<char>>, i: int) -> bool {
    i + 1 < args.len() && !starts_with_dash(args[i + 1])
}

/// The boolean short flags of a group such as `-abc`, from position `k` on.
pub open spec fn short_group(
    help: Option<Help>,
    fc: Seq<char>,
    k: int,
    flags: Map<Seq<char>, Option<Seq<char>>>,
) -> Result<Map<Seq<char>, Option<Seq<char>>>, ErrorKindSpec>
    decreases fc.len() - k,
{
    if k < 0 || k >= fc.len() {
        Ok(flags)
    } else {
        let c = fc[k];
        match lookup(help, seq![c]) {
            None => Err(ErrorKindSpec::UnexpectedShort(c)),
            Some(a) => if short_takes_value(help, c) {
                Err(ErrorKindSpec::ShortNeedsValue(c))
            } else {
                short_group(help, fc, k + 1, flags.insert(a.name@, None))
            },
        }
    }
}

/// What parsing `args[i..]` yields for the command `name` with help `help` (the
/// command path so far is `cmd`), given the flags already read.
pub open spec fn parse_from(
    args: Seq<Seq<char>>,
    i: int,
    name: Seq<char>,
    help: Option<Help>,
    cmd: Seq<char>,
    flags: Map<Seq<char>, Option<Seq<char>>>,
) -> Result<ParsedSpec, ErrorSpec>
    decreases args.len() - i,
{
    if i < 0 || i >= args.len() {
        Ok(ParsedSpec { name, flags, sub: None })
    } else {
        let arg = args[i];
        if help is Some && (arg == "--help"@ || arg == "-h"@) {
            Err(ErrorSpec { kind: ErrorKindSpec::HelpRequested, command: cmd })
        } else if starts_with_two_dashes(arg) {
            let fname = strip_dash_pairs(arg);
            match lookup(help, fname) {
                None => Err(ErrorSpec { kind: ErrorKindSpec::UnexpectedLong(fname), command: cmd }),
                Some(a) => if a.takes_value {
                    if value_follows(args, i) {
                        parse_from(args, i + 2, name, help, cmd, flags.insert(a.name@, Some(args[i + 1])))
                    } else {
                        Err(ErrorSpec { kind: ErrorKindSpec::MissingLongValue(fname), command: cmd })
                    }
                } else {
                    parse_from(args, i + 1, name, help, cmd, flags.insert(a.name@, None))
                },
            }
        } else if arg.len() > 1 && starts_with_dash(arg) {
            let fc = arg.skip(1);
            if fc.len() == 1 && lookup(help, fc) is Some && lookup(
                help,
                fc,
            )->0.takes_value {
                if value_follows(args, i) {
                    parse_from(
                        args,
                        i + 2,
                        name,
                        help,
                        cmd,
                        flags.insert(lookup(help, fc)->0.name@, Some(args[i + 1])),
                    )
                } else {
                    Err(ErrorSpec { kind: ErrorKindSpec::MissingShortValue(fc[0]), command: cmd })
                }
            } else {
                match short_group(help, fc, 0, flags) {
                    Ok(f2) => parse_from(args, i + 1, name, help, cmd, f2),
                    Err(k) => Err(ErrorSpec { kind: k, command: cmd }),
                }
            }
        } else {
            match help {
                None => Err(
                    ErrorSpec { kind: ErrorKindSpec::UnrecognizedSubcommand(arg), command: cmd },
                ),
                Some(h) => match find_sub_from(h.subcommands@, arg, 0) {
                    None => Err(
                        ErrorSpec { kind: ErrorKindSpec::UnrecognizedSubcommand(arg), command: cmd },
                    ),
                    Some(k) => match parse_from(
                        args.skip(i + 1),
                        0,
                        arg,
                        Some(h.subcommands@[k].help),
                        cmd + " "@ + arg,
                        Map::empty(),
                    ) {
                        Ok(p) => Ok(ParsedSpec { name, flags, sub: Some(Box::new(p)) }),
                        Err(e) => Err(e),
                    },
                },
            }
        }
    }
}

/// The views of a list of argument strings.
pub open spec fn arg_views(args: Seq<String>) -> Seq<Seq<char>> {
    args.map_values(|s: String| s@)
}

// ---------------------------------------------------------------------------
// Help builders
// ---------------------------------------------------------------------------

pub open spec fn arg_is(
    a: ArgumentHelp,
    name: Seq<char>,
    short: Option<char>,
    long: Option<Seq<char>>,
    desc: Seq<char>,
    takes_value: bool,
) -> bool {
    &&& a.name@ == name
    &&& a.short == short
    &&& opt_view(a.long) == long
    &&& a.description@ == desc
    &&& a.takes_value == takes_value
}

impl ArgumentHelp {
    /// A copy of this argument's help.
    pub fn duplicate(&self) -> (r: ArgumentHelp)
        ensures
            r == *self,
    {
        ArgumentHelp {
            name: self.name.clone(),
            short: self.short,
            long: match &self.long {
                Some(l) => Some(l.clone()),
                None => None,
            },
            description: self.description.clone(),
            takes_value: self.takes_value,
        }
    }
}

impl Help {
    /// A copy of this help, with its subcommands' help copied in turn.
    pub fn duplicate(&self) -> (r: Help)
        ensures
            r.description == self.description,
            r.arguments@ == self.arguments@,
            r.subcommands@.len() == self.subcommands@.len(),
        decreases self,
    {
        let mut arguments: Vec<ArgumentHelp> = Vec::new();
        let mut k: usize = 0;
        while k < self.arguments.len()
            invariant
                k <= self.arguments@.len(),
                arguments@ == self.arguments@.subrange(0, k as int),
            decreases self.arguments@.len() - k,
        {
            arguments.push(self.arguments[k].duplicate());
            assert(arguments@ =~= self.arguments@.subrange(0, k + 1));
            k += 1;
        }
        assert(arguments@ =~= self.arguments@);
        let mut subcommands: Vec<CommandHelp> = Vec::new();
        let mut k: usize = 0;
        while k < self.subcommands.len()
            invariant
                k <= self.subcommands@.len(),
                subcommands@.len() == k,
            decreases self.subcommands@.len() - k,
        {
            let sub = &self.subcommands[k];
            proof {
                assert(decreases_to!(self => sub.help)) by {
                    assert(decreases_to!(self => self.subcommands));
                    vstd::std_specs::vec::axiom_vec_decreases_to_view(self.subcommands);
                    assert(decreases_to!(self.subcommands@ => self.subcommands@[k as int]));
                };
            }
            subcommands.push(
                CommandHelp {
                    name: sub.name.clone(),
                    description: sub.description.clone(),
                    help: sub.help.duplicate(),
                },
            );
            k += 1;
        }
        Help {
            description: match &self.description {
                Some(d) => Some(d.clone()),
                None => None,
            },
            arguments,
            subcommands,
        }
    }

    /// Whether `r` is `self` with one more argument, `a`.
    pub open spec fn with_argument(self, r: Help, pred: spec_fn(ArgumentHelp) -> bool) -> bool {
        &&& r.description == self.description
        &&& r.subcommands == self.subcommands
        &&& r.arguments@.len() == self.arguments@.len() + 1
        &&& r.arguments@.drop_last() == self.arguments@
        &&& pred(r.arguments@.last())
    }

    /// Creates a new help with no description, arguments or subcommands.
    pub fn new() -> (h: Help)
        ensures
            h.description is None,
            h.arguments@.len() == 0,
            h.subcommands@.len() == 0,
    {
        Help { description: None, arguments: Vec::new(), subcommands: Vec::new() }
    }

    /// Adds a description to the command.
    pub fn description(self, desc: &str) -> (h: Help)
        ensures
            opt_view(h.description) == Some(desc@),
            h.arguments == self.arguments,
            h.subcommands == self.subcommands,
    {
        Help { description: Some(owned(desc)), arguments: self.arguments, subcommands: self.subcommands }
    }

    fn push_argument(
        self,
        name: &str,
        short: Option<char>,
        long: Option<&str>,
        desc: &str,
        takes_value: bool,
    ) -> (h: Help)
        ensures
            self.with_argument(
                h,
                |a: ArgumentHelp|
                    arg_is(
                        a,
                        name@,
                        short,
                        match long {
                            Some(l) => Some(l@),
                            None => None,
                        },
                        desc@,
                        takes_value,
                    ),
            ),
    {
        let mut arguments = self.arguments;
        let long_owned = match long {
            Some(l) => Some(owned(l)),
            None => None,
        };
        arguments.push(
            ArgumentHelp {
                name: owned(name),
                short,
                long: long_owned,
                description: owned(desc),
                takes_value,
            },
        );
        let h = Help { description: self.description, arguments, subcommands: self.subcommands };
        assert(h.arguments@.drop_last() =~= self.arguments@);
        h
    }

    /// Registers a boolean flag with only a short name.
    pub fn flag_short(self, name: &str, short: char, desc: &str) -> (h: Help)
        ensures
            self.with_argument(
                h,
                |a: ArgumentHelp| arg_is(a, name@, Some(short), None, desc@, false),
            ),
    {
        self.push_argument(name, Some(short), None, desc, false)
    }

    /// Registers a boolean flag with only a long name.
    pub fn flag_long(self, name: &str, long: &str, desc: &str) -> (h: Help)
        ensures
            self.with_argument(
                h,
                |a: ArgumentHelp| arg_is(a, name@, None, Some(long@), desc@, false),
            ),
    {
        self.push_argument(name, None, Some(long), desc, false)
    }

    /// Registers a boolean flag with both a short and a long name.
    pub fn flag_full(self, name: &str, short: char, long: &str, desc: &str) -> (h: Help)
        ensures
            self.with_argument(
                h,
                |a: ArgumentHelp| arg_is(a, name@, Some(short), Some(long@), desc@, false),
            ),
    {
        self.push_argument(name, Some(short), Some(long), desc, false)
    }

    /// Registers an argument that takes a value, with only a short name.
    pub fn arg_short(self, name: &str, short: char, desc: &str) -> (h: Help)
        ensures
            self.with_argument(
                h,
                |a: ArgumentHelp| arg_is(a, name@, Some(short), None, desc@, true),
            ),
    {
        self.push_argument(name, Some(short), None, desc, true)
    }

    /// Registers an argument that takes a value, with only a long name.
    pub fn arg_long(self, name: &str, long: &str, desc: &str) -> (h: Help)
        ensures
            self.with_argument(
                h,
                |a: ArgumentHelp| arg_is(a, name@, None, Some(long@), desc@, true),
            ),
    {
        self.push_argument(name, None, Some(long), desc, true)
    }

    /// Registers an argument that takes a value, with both a short and a long name.
    pub fn arg_full(self, name: &str, short: char, long: &str, desc: &str) -> (h: Help)
        ensures
            self.with_argument(
                h,
                |a: ArgumentHelp| arg_is(a, name@, Some(short), Some(long@), desc@, true),
            ),
    {
        self.push_argument(name, Some(short), Some(long), desc, true)
    }

    /// Registers a subcommand.
    pub fn subcommand(self, name: &str, desc: &str, help: Help) -> (h: Help)
        ensures
            h.description == self.description,
            h.arguments == self.arguments,
            h.subcommands@.len() == self.subcommands@.len() + 1,
            h.subcommands@.drop_last() == self.subcommands@,
            h.subcommands@.last().name@ == name@,
            h.subcommands@.last().description@ == desc@,
            h.subcommands@.last().help == help,
    {
        let mut subcommands = self.subcommands;
        subcommands.push(CommandHelp { name: owned(name), description: owned(desc), help });
        let h = Help { description: self.description, arguments: self.arguments, subcommands };
        assert(h.subcommands@.drop_last() =~= self.subcommands@);
        h
    }

    /// The index of the argument answering to `flag`.
    fn find_argument_index(&self, flag: &[char]) -> (r: Option<usize>)
        ensures
            match r {
                Some(i) => i < self.arguments@.len() && find_arg(self.arguments@, flag@) == Some(
                    i as int,
                ),
                None => find_arg(self.arguments@, flag@) is None,
            },
    {
        let mut k: usize = 0;
        while k < self.arguments.len()
            invariant
                k <= self.arguments@.len(),
                find_arg(self.arguments@, flag@) == find_arg_from(self.arguments@, flag@, k as int),
            decreases self.arguments@.len() - k,
        {
            let a = &self.arguments[k];
            let mut hit = false;
            if flag.len() == 1 {
                if let Some(c) = a.short {
                    if c == flag[0] {
                        hit = true;
                    }
                }
            }
            if !hit {
                if let Some(l) = &a.long {
                    let lv = chars_of(l.as_str());
                    if chars_eq(lv.as_slice(), flag) {
                        hit = true;
                    }
                }
            }
            assert(hit == arg_matches(self.arguments@[k as int], flag@));
            if hit {
                return Some(k);
            }
            k += 1;
        }
        None
    }

    /// The argument answering to `flag`: by short name when `flag` is a single
    /// character, or by long name; the first such argument.
    pub fn find_argument(&self, flag: &str) -> (r: Option<&ArgumentHelp>)
        ensures
            match find_arg(self.arguments@, flag@) {
                Some(k) => r matches Some(a) && *a == self.arguments@[k],
                None => r is None,
            },
    {
        let fv = chars_of(flag);
        proof {
            lemma_find_arg_range(self.arguments@, flag@, 0);
        }
        let fs = fv.as_slice();
        assert(fs@ == flag@);
        match self.find_argument_index(fs) {
            Some(k) => {
                let a: &ArgumentHelp = &self.arguments[k];
                Some(a)
            },
            None => None,
        }
    }

    /// Whether some argument with short name `flag_char` takes a value.
    pub fn short_flag_takes_value(&self, flag_char: char) -> (r: bool)
        ensures
            r == short_takes_value(Some(*self), flag_char),
    {
        let mut k: usize = 0;
        while k < self.arguments.len()
            invariant
                k <= self.arguments@.len(),
                forall|i: int|
                    0 <= i < k ==> !(#[trigger] self.arguments@[i].short == Some(flag_char)
                        && self.arguments@[i].takes_value),
            decreases self.arguments@.len() - k,
        {
            if self.arguments[k].short == Some(flag_char) && self.arguments[k].takes_value {
                return true;
            }
            k += 1;
        }
        false
    }

    /// The index of the first subcommand named `name`.
    fn find_subcommand_index(&self, name: &[char]) -> (r: Option<usize>)
        ensures
            match r {
                Some(i) => i < self.subcommands@.len() && find_sub_from(self.subcommands@, name@, 0)
                    == Some(i as int),
                None => find_sub_from(self.subcommands@, name@, 0) is None,
            },
    {
        let mut k: usize = 0;
        while k < self.subcommands.len()
            invariant
                k <= self.subcommands@.len(),
                find_sub_from(self.subcommands@, name@, 0) == find_sub_from(
                    self.subcommands@,
                    name@,
                    k as int,
                ),
            decreases self.subcommands@.len() - k,
        {
            let sv = chars_of(self.subcommands[k].name.as_str());
            if chars_eq(sv.as_slice(), name) {
                return Some(k);
            }
            k += 1;
        }
        None
    }
}

// ---------------------------------------------------------------------------
// Flags
// ---------------------------------------------------------------------------

proof fn lemma_flags_map_update(v: Seq<(String, Option<String>)>, j: int, e: (String, Option<String>))
    requires
        0 <= j < v.len(),
        keys_distinct(v),
        v[j].0@ == e.0@,
    ensures
        flags_map(v.update(j, e)) == flags_map(v).insert(e.0@, opt_view(e.1)),
        keys_distinct(v.update(j, e)),
    decreases v.len(),
{
    let w = v.update(j, e);
    if j == v.len() - 1 {
        assert(w.drop_last() =~= v.drop_last());
        lemma_flags_map_not_key(v.drop_last(), e.0@);
        assert(flags_map(w) =~= flags_map(v).insert(e.0@, opt_view(e.1)));
    } else {
        lemma_flags_map_update(v.drop_last(), j, e);
        assert(w.drop_last() =~= v.drop_last().update(j, e));
        assert(v.last().0@ != e.0@);
        assert(flags_map(w) =~= flags_map(v).insert(e.0@, opt_view(e.1)));
    }
}

proof fn lemma_flags_map_not_key(v: Seq<(String, Option<String>)>, k: Seq<char>)
    requires
        keys_distinct(v),
    ensures
        flags_map(v).dom().contains(k) <==> exists|i: int| 0 <= i < v.len() && #[trigger] v[i].0@ == k,
    decreases v.len(),
{
    if v.len() > 0 {
        lemma_flags_map_not_key(v.drop_last(), k);
        if flags_map(v).dom().contains(k) && k != v.last().0@ {
            let i = choose|i: int| 0 <= i < v.drop_last().len() && #[trigger] v.drop_last()[i].0@ == k;
            assert(v[i].0@ == k);
        }
        if exists|i: int| 0 <= i < v.len() && #[trigger] v[i].0@ == k {
            let i = choose|i: int| 0 <= i < v.len() && #[trigger] v[i].0@ == k;
            if i < v.len() - 1 {
                assert(v.drop_last()[i].0@ == k);
            }
        }
    }
}

/// The value at `key` in the flags, found by scanning.
proof fn lemma_flags_map_at(v: Seq<(String, Option<String>)>, j: int)
    requires
        keys_distinct(v),
        0 <= j < v.len(),
    ensures
        flags_map(v).dom().contains(v[j].0@),
        flags_map(v)[v[j].0@] == opt_view(v[j].1),
    decreases v.len(),
{
    if j < v.len() - 1 {
        lemma_flags_map_at(v.drop_last(), j);
        assert(v.drop_last()[j] == v[j]);
    }
}

/// Sets `key` to `value` in the flags, keeping names distinct.
fn insert_flag(flags: &mut Vec<(String, Option<String>)>, key: String, value: Option<String>)
    requires
        keys_distinct(old(flags)@),
    ensures
        keys_distinct(final(flags)@),
        flags_map(final(flags)@) == flags_map(old(flags)@).insert(key@, opt_view(value)),
{
    let kv = chars_of(key.as_str());
    let mut j: usize = 0;
    while j < flags.len()
        invariant
            j <= flags@.len(),
            kv@ == key@,
            flags@ == old(flags)@,
            keys_distinct(flags@),
            forall|t: int| 0 <= t < j ==> #[trigger] flags@[t].0@ != key@,
        decreases flags@.len() - j,
    {
        let fv = chars_of(flags[j].0.as_str());
        if chars_eq(fv.as_slice(), kv.as_slice()) {
            let ghost before = flags@;
            let e = (key, value);
            proof {
                lemma_flags_map_update(before, j as int, e);
            }
            flags.set(j, e);
            return;
        }
        j += 1;
    }
    let ghost before = flags@;
    flags.push((key, value));
    assert(flags@.drop_last() =~= before);
}

impl CliResult {
    /// The name of the immediate subcommand, if any.
    pub fn subcommand_name(&self) -> (r: Option<&str>)
        ensures
            match self.subcommand {
                Some(b) => r matches Some(s) && s@ == b.name@,
                None => r is None,
            },
    {
        match &self.subcommand {
            Some(s) => Some(s.name.as_str()),
            None => None,
        }
    }

    /// The first node named `name` in the chain of nested subcommands below this
    /// command (this command itself excluded).
    pub open spec fn sub_named(&self, name: Seq<char>) -> Option<CliResult>
        decreases self,
    {
        match &self.subcommand {
            Some(b) => if b.name@ == name {
                Some(**b)
            } else {
                (**b).sub_named(name)
            },
            None => None,
        }
    }

    /// The first subcommand, along the chain of nested subcommands, named `name`.
    pub fn get_subcommand(&self, name: &str) -> (r: Option<&CliResult>)
        ensures
            match self.sub_named(name@) {
                Some(p) => r matches Some(c) && *c == p,
                None => r is None,
            },
            match find_in_chain(self.parsed().sub, name@) {
                Some(p) => r matches Some(c) && c.parsed() == p,
                None => r is None,
            },
        decreases self,
    {
        match &self.subcommand {
            Some(sub) => {
                let sv = chars_of(sub.name.as_str());
                if str_chars_eq(sv.as_slice(), name) {
                    return Some(sub);
                }
                sub.get_subcommand(name)
            },
            None => None,
        }
    }

    /// Whether the flag is present, with or without a value.
    pub fn has_flag(&self, flag: &str) -> (r: bool)
        requires
            keys_distinct(self.flags@),
        ensures
            r == flags_map(self.flags@).dom().contains(flag@),
    {
        self.flag_index(flag).is_some()
    }

    fn flag_index(&self, flag: &str) -> (r: Option<usize>)
        requires
            keys_distinct(self.flags@),
        ensures
            match r {
                Some(j) => j < self.flags@.len() && self.flags@[j as int].0@ == flag@
                    && flags_map(self.flags@).dom().contains(flag@) && flags_map(self.flags@)[flag@]
                    == opt_view(self.flags@[j as int].1),
                None => !flags_map(self.flags@).dom().contains(flag@),
            },
    {
        let fv = chars_of(flag);
        let mut j: usize = 0;
        while j < self.flags.len()
            invariant
                j <= self.flags@.len(),
                fv@ == flag@,
                keys_distinct(self.flags@),
                forall|t: int| 0 <= t < j ==> #[trigger] self.flags@[t].0@ != flag@,
            decreases self.flags@.len() - j,
        {
            let kv = chars_of(self.flags[j].0.as_str());
            if chars_eq(kv.as_slice(), fv.as_slice()) {
                proof {
                    lemma_flags_map_at(self.flags@, j as int);
                }
                return Some(j);
            }
            j += 1;
        }
        proof {
            lemma_flags_map_not_key(self.flags@, flag@);
        }
        None
    }

    /// Whether the flag is present without a value.
    pub fn get_bool(&self, flag: &str) -> (r: bool)
        requires
            keys_distinct(self.flags@),
        ensures
            r == (flags_map(self.flags@).dom().contains(flag@) && flags_map(self.flags@)[flag@]
                is None),
    {
        match self.flag_index(flag) {
            Some(j) => self.flags[j].1.is_none(),
            None => false,
        }
    }

    /// The flag's value, if the flag is present with one.
    pub fn get_value(&self, flag: &str) -> (r: Option<&str>)
        requires
            keys_distinct(self.flags@),
        ensures
            match r {
                Some(v) => flags_map(self.flags@).dom().contains(flag@) && flags_map(
                    self.flags@,
                )[flag@] == Some(v@),
                None => !flags_map(self.flags@).dom().contains(flag@) || flags_map(
                    self.flags@,
                )[flag@] is None,
            },
    {
        match self.flag_index(flag) {
            Some(j) => match &self.flags[j].1 {
                Some(v) => Some(v.as_str()),
                None => None,
            },
            None => None,
        }
    }

    /// The flag's value, or `default` when it has none.
    pub fn get_value_or(&self, flag: &str, default: &str) -> (r: String)
        requires
            keys_distinct(self.flags@),
        ensures
            if flags_map(self.flags@).dom().contains(flag@) && flags_map(self.flags@)[flag@] is Some {
                r@ == flags_map(self.flags@)[flag@]->0
            } else {
                r@ == default@
            },
    {
        match self.get_value(flag) {
            Some(v) => owned(v),
            None => owned(default),
        }
    }

    /// The names of all flags that were given.
    pub fn flag_names(&self) -> (r: Vec<&str>)
        requires
            keys_distinct(self.flags@),
        ensures
            r@.len() == self.flags@.len(),
            forall|i: int| 0 <= i < r@.len() ==> (#[trigger] r@[i])@ == self.flags@[i].0@,
            forall|k: Seq<char>|
                flags_map(self.flags@).dom().contains(k) <==> exists|i: int|
                    0 <= i < r@.len() && (#[trigger] r@[i])@ == k,
    {
        let mut r: Vec<&str> = Vec::new();
        let mut j: usize = 0;
        while j < self.flags.len()
            invariant
                j <= self.flags@.len(),
                r@.len() == j,
                forall|i: int| 0 <= i < j ==> (#[trigger] r@[i])@ == self.flags@[i].0@,
            decreases self.flags@.len() - j,
        {
            r.push(self.flags[j].0.as_str());
            j += 1;
        }
        assert forall|k: Seq<char>|
            flags_map(self.flags@).dom().contains(k) <==> exists|i: int|
                0 <= i < r@.len() && (#[trigger] r@[i])@ == k by {
            lemma_flags_map_not_key(self.flags@, k);
            if exists|i: int| 0 <= i < self.flags@.len() && #[trigger] self.flags@[i].0@ == k {
                let i = choose|i: int| 0 <= i < self.flags@.len() && #[trigger] self.flags@[i].0@ == k;
                assert(r@[i]@ == k);
            }
        }
        r
    }
}

/// The first parsed command, along a chain of nested subcommands, named `name`.
pub open spec fn find_in_chain(p: Option<Box<ParsedSpec>>, name: Seq<char>) -> Option<ParsedSpec>
    decreases p,
{
    match p {
        None => None,
        Some(b) => if b.name == name {
            Some(*b)
        } else {
            find_in_chain(b.sub, name)
        },
    }
}


/// The parsed form of an optional subcommand result.
pub open spec fn sub_parsed(s: Option<Box<CliResult>>) -> Option<Box<ParsedSpec>> {
    match s {
        Some(b) => Some(Box::new((*b).parsed())),
        None => None,
    }
}

pub open spec fn sub_well_formed(s: Option<Box<CliResult>>) -> bool {
    match s {
        Some(b) => (*b).well_formed(),
        None => true,
    }
}

/// `s` without its leading `--` pairs, as the index at which the rest starts.
fn dash_pairs_end(a: &Vec<char>) -> (p: usize)
    ensures
        p <= a@.len(),
        strip_dash_pairs(a@) == a@.skip(p as int),
{
    let mut p: usize = 0;
    assert(a@.skip(0) =~= a@);
    while a.len() >= 2 && p <= a.len() - 2 && a[p] == '-' && a[p + 1] == '-'
        invariant
            p <= a@.len(),
            strip_dash_pairs(a@) == strip_dash_pairs(a@.skip(p as int)),
        decreases a@.len() - p,
    {
        assert(a@.skip(p as int).skip(2) =~= a@.skip(p + 2));
        p += 2;
    }
    p
}

/// The characters `a[from..]`.
fn chars_from(a: &Vec<char>, from: usize) -> (r: Vec<char>)
    requires
        from <= a@.len(),
    ensures
        r@ == a@.skip(from as int),
{
    let mut r: Vec<char> = Vec::new();
    let mut k: usize = from;
    while k < a.len()
        invariant
            from <= k <= a@.len(),
            r@ == a@.subrange(from as int, k as int),
        decreases a@.len() - k,
    {
        r.push(a[k]);
        assert(r@ =~= a@.subrange(from as int, k + 1));
        k += 1;
    }
    assert(r@ =~= a@.skip(from as int));
    r
}

fn help_copy(help: Option<&Help>) -> (r: Option<Help>)
    ensures
        r is Some <==> help is Some,
{
    match help {
        Some(h) => Some(h.duplicate()),
        None => None,
    }
}

fn error_at(kind: CliErrorKind, cmd: &String, help: Option<&Help>) -> (r: CliError)
    ensures
        r.kind == kind,
        r.command@ == cmd@,
{
    CliError { kind, command: cmd.clone(), help: help_copy(help) }
}

/// Whether a value follows `args[i]`.
fn value_follows_exec(args: &[String], i: usize) -> (r: bool)
    requires
        i < args@.len(),
    ensures
        r == (i + 1 < args@.len() && !starts_with_dash(args@[i + 1]@)),
{
    if i < args.len() - 1 {
        let next = chars_of(args[i + 1].as_str());
        !(next.len() > 0 && next[0] == '-')
    } else {
        false
    }
}

/// Parses the arguments `args[start..]` for one command level; returns its flags and
/// the subcommand that followed.
fn parse_level(
    args: &[String],
    start: usize,
    name: &Vec<char>,
    help: Option<&Help>,
    cmd: &String,
) -> (r: Result<(Vec<(String, Option<String>)>, Option<Box<CliResult>>), CliError>)
    requires
        start <= args@.len(),
    ensures
        match parse_from(
            arg_views(args@).skip(start as int),
            0,
            name@,
            match help {
                Some(h) => Some(*h),
                None => None,
            },
            cmd@,
            Map::empty(),
        ) {
            Ok(p) => r matches Ok(res) && keys_distinct(res.0@) && sub_well_formed(res.1) && p
                == (ParsedSpec { name: name@, flags: flags_map(res.0@), sub: sub_parsed(res.1) }),
            Err(e) => r matches Err(err) && err.spec_error() == e,
        },
    decreases args@.len() - start,
{
    let ghost sa = arg_views(args@).skip(start as int);
    let ghost hs: Option<Help> = match help {
        Some(h) => Some(*h),
        None => None,
    };
    let mut flags: Vec<(String, Option<String>)> = Vec::new();
    let mut sub: Option<Box<CliResult>> = None;
    let mut i: usize = start;
    assert(flags_map(flags@) =~= Map::empty());
    while i < args.len()
        invariant_except_break
            parse_from(sa, 0, name@, hs, cmd@, Map::empty()) == parse_from(
                sa,
                i - start,
                name@,
                hs,
                cmd@,
                flags_map(flags@),
            ),
            sub is None,
        invariant
            start <= i <= args@.len(),
            sa == arg_views(args@).skip(start as int),
            sa.len() == args@.len() - start,
            hs == match help {
                Some(h) => Some(*h),
                None => None,
            },
            keys_distinct(flags@),
            sub_well_formed(sub),
        ensures
            parse_from(sa, 0, name@, hs, cmd@, Map::empty()) == Ok::<ParsedSpec, ErrorSpec>(
                ParsedSpec { name: name@, flags: flags_map(flags@), sub: sub_parsed(sub) },
            ),
        decreases args@.len() - i,
    {
        let ghost fm = flags_map(flags@);
        let ghost k = i - start;
        assert(sa[k as int] == args@[i as int]@);
        let a = chars_of(args[i].as_str());
        if help.is_some() && (str_chars_eq(a.as_slice(), "--help") || str_chars_eq(
            a.as_slice(),
            "-h",
        )) {
            return Err(error_at(CliErrorKind::HelpRequested, cmd, help));
        }
        if a.len() >= 2 && a[0] == '-' && a[1] == '-' {
            let p = dash_pairs_end(&a);
            let fname = chars_from(&a, p);
            let found = match help {
                Some(h) => h.find_argument_index(fname.as_slice()),
                None => None,
            };
            match found {
                None => {
                    return Err(
                        error_at(
                            CliErrorKind::UnexpectedLong(string_of(fname.as_slice())),
                            cmd,
                            help,
                        ),
                    );
                },
                Some(ai) => {
                    let h = help.unwrap();
                    if h.arguments[ai].takes_value {
                        if value_follows_exec(args, i) {
                            assert(sa[k + 1] == args@[i + 1]@);
                            insert_flag(
                                &mut flags,
                                h.arguments[ai].name.clone(),
                                Some(args[i + 1].clone()),
                            );
                            i += 2;
                        } else {
                            return Err(
                                error_at(
                                    CliErrorKind::MissingLongValue(string_of(fname.as_slice())),
                                    cmd,
                                    help,
                                ),
                            );
                        }
                    } else {
                        insert_flag(&mut flags, h.arguments[ai].name.clone(), None);
                        i += 1;
                    }
                },
            }
        } else if a.len() > 1 && a[0] == '-' {
            let fc = chars_from(&a, 1);
            let mut single_done = false;
            if fc.len() == 1 {
                if let Some(h) = help {
                    if let Some(ai) = h.find_argument_index(fc.as_slice()) {
                        if h.arguments[ai].takes_value {
                            if value_follows_exec(args, i) {
                                assert(sa[k + 1] == args@[i + 1]@);
                                insert_flag(
                                    &mut flags,
                                    h.arguments[ai].name.clone(),
                                    Some(args[i + 1].clone()),
                                );
                                i += 2;
                                single_done = true;
                            } else {
                                return Err(
                                    error_at(CliErrorKind::MissingShortValue(fc[0]), cmd, help),
                                );
                            }
                        }
                    }
                }
            }
            if !single_done {
                assert(fc@ == sa[k as int].skip(1));
                assert(!(fc@.len() == 1 && lookup(hs, fc@) is Some
                    && lookup(hs, fc@)->0.takes_value));
                let mut t: usize = 0;
                while t < fc.len()
                    invariant
                        t <= fc@.len(),
                        keys_distinct(flags@),
                        sa == arg_views(args@).skip(start as int),
                        parse_from(sa, 0, name@, hs, cmd@, Map::empty()) == match short_group(
                            hs,
                            fc@,
                            t as int,
                            flags_map(flags@),
                        ) {
                            Ok(f2) => parse_from(sa, k + 1, name@, hs, cmd@, f2),
                            Err(kk) => Err(ErrorSpec { kind: kk, command: cmd@ }),
                        },
                        hs == match help {
                            Some(h) => Some(*h),
                            None => None,
                        },
                    decreases fc@.len() - t,
                {
                    let c = fc[t];
                    let one = vec![c];
                    assert(one@ =~= seq![c]);
                    let found = match help {
                        Some(h) => h.find_argument_index(one.as_slice()),
                        None => None,
                    };
                    match found {
                        None => {
                            return Err(error_at(CliErrorKind::UnexpectedShort(c), cmd, help));
                        },
                        Some(ai) => {
                            let h = help.unwrap();
                            if h.short_flag_takes_value(c) {
                                return Err(error_at(CliErrorKind::ShortNeedsValue(c), cmd, help));
                            }
                            insert_flag(&mut flags, h.arguments[ai].name.clone(), None);
                        },
                    }
                    t += 1;
                }
                i += 1;
            }
        } else {
            let found = match help {
                Some(h) => h.find_subcommand_index(a.as_slice()),
                None => None,
            };
            match found {
                None => {
                    return Err(
                        error_at(
                            CliErrorKind::UnrecognizedSubcommand(string_of(a.as_slice())),
                            cmd,
                            help,
                        ),
                    );
                },
                Some(si) => {
                    let h = help.unwrap();
                    let mut new_cmd = cmd.clone();
                    append_str(&mut new_cmd, " ");
                    append_str(&mut new_cmd, args[i].as_str());
                    let sub_help: &Help = &h.subcommands[si].help;
                    assert(sa.skip(k + 1) =~= arg_views(args@).skip(i + 1));
                    match parse_level(args, i + 1, &a, Some(sub_help), &new_cmd) {
                        Ok(res) => {
                            let (sub_flags, sub_sub) = res;
                            sub = Some(
                                Box::new(
                                    CliResult {
                                        name: string_of(a.as_slice()),
                                        flags: sub_flags,
                                        subcommand: sub_sub,
                                        help: Some(sub_help.duplicate()),
                                    },
                                ),
                            );
                            break ;
                        },
                        Err(e) => {
                            return Err(e);
                        },
                    }
                },
            }
        }
    }
    Ok((flags, sub))
}

impl CliResult {
    /// Parses `args` for the command `name`, whose command path (for messages) is
    /// `full_command`, against `help`.
    pub fn parse_args(args: &[String], name: String, help: Option<Help>, full_command: &str) -> (r:
        Result<CliResult, CliError>)
        ensures
            match parse_from(arg_views(args@), 0, name@, help, full_command@, Map::empty()) {
                Ok(p) => r matches Ok(c) && c.parsed() == p && c.well_formed() && c.help == help,
                Err(e) => r matches Err(err) && err.spec_error() == e,
            },
    {
        let nv = chars_of(name.as_str());
        let cmd = owned(full_command);
        assert(arg_views(args@).skip(0) =~= arg_views(args@));
        match parse_level(args, 0, &nv, help.as_ref(), &cmd) {
            Ok(res) => {
                let (flags, subcommand) = res;
                Ok(CliResult { name, flags, subcommand, help })
            },
            Err(e) => Err(e),
        }
    }
}


/// The text of an error message, as the command line shows it.
pub open spec fn message_of(k: ErrorKindSpec) -> Seq<char> {
    match k {
        ErrorKindSpec::HelpRequested => "Help requested"@,
        ErrorKindSpec::UnexpectedLong(n) => "error: unexpected argument '--"@ + n + "' found"@,
        ErrorKindSpec::MissingLongValue(n) => "error: argument '--"@ + n
            + "' requires a value but none was supplied"@,
        ErrorKindSpec::MissingShortValue(c) => "error: argument '-"@ + seq![c]
            + "' requires a value but none was supplied"@,
        ErrorKindSpec::UnexpectedShort(c) => "error: unexpected argument '-"@ + seq![c]
            + "' found"@,
        ErrorKindSpec::ShortNeedsValue(c) => "error: flag '-"@ + seq![c]
            + "' requires a value and cannot be combined with other short flags."@,
        ErrorKindSpec::UnrecognizedSubcommand(n) => "error: unrecognized subcommand '"@ + n
            + "'"@,
    }
}

impl CliError {
    /// The error message.
    pub fn message(&self) -> (r: String)
        ensures
            r@ == message_of(self.kind.spec_kind()),
    {
        let mut m = String::new();
        match &self.kind {
            CliErrorKind::HelpRequested => {
                append_str(&mut m, "Help requested");
            },
            CliErrorKind::UnexpectedLong(n) => {
                append_str(&mut m, "error: unexpected argument '--");
                append_str(&mut m, n.as_str());
                append_str(&mut m, "' found");
            },
            CliErrorKind::MissingLongValue(n) => {
                append_str(&mut m, "error: argument '--");
                append_str(&mut m, n.as_str());
                append_str(&mut m, "' requires a value but none was supplied");
            },
            CliErrorKind::MissingShortValue(c) => {
                append_str(&mut m, "error: argument '-");
                push_char(&mut m, *c);
                append_str(&mut m, "' requires a value but none was supplied");
            },
            CliErrorKind::UnexpectedShort(c) => {
                append_str(&mut m, "error: unexpected argument '-");
                push_char(&mut m, *c);
                append_str(&mut m, "' found");
            },
            CliErrorKind::ShortNeedsValue(c) => {
                append_str(&mut m, "error: flag '-");
                push_char(&mut m, *c);
                append_str(
                    &mut m,
                    "' requires a value and cannot be combined with other short flags.",
                );
            },
            CliErrorKind::UnrecognizedSubcommand(n) => {
                append_str(&mut m, "error: unrecognized subcommand '");
                append_str(&mut m, n.as_str());
                append_str(&mut m, "'");
            },
        }
        assert(m@ =~= message_of(self.kind.spec_kind()));
        m
    }
}

/// The part of `s` after the last `sep` (all of `s` when it holds none).
pub open spec fn after_last(s: Seq<char>, sep: char) -> Seq<char>
    decreases s.len(),
{
    if s.len() == 0 {
        s
    } else if s.last() == sep {
        Seq::empty()
    } else {
        after_last(s.drop_last(), sep).push(s.last())
    }
}

/// The name a program is known by: the last component of the path it was invoked
/// by, split at `/` and then at `\`; "program" when there is none.
pub open spec fn program_name_of(arg0: Option<Seq<char>>) -> Seq<char> {
    match arg0 {
        Some(p) => after_last(after_last(p, '/'), '\\'),
        None => "program"@,
    }
}

fn after_last_exec(s: &Vec<char>, sep: char) -> (r: Vec<char>)
    ensures
        r@ == after_last(s@, sep),
{
    let mut from: usize = 0;
    let mut j: usize = 0;
    while j < s.len()
        invariant
            j <= s@.len(),
            from <= j,
            after_last(s@.subrange(0, j as int), sep) == s@.subrange(from as int, j as int),
        decreases s@.len() - j,
    {
        assert(s@.subrange(0, j + 1).drop_last() =~= s@.subrange(0, j as int));
        if s[j] == sep {
            from = j + 1;
            assert(s@.subrange(from as int, j + 1) =~= Seq::<char>::empty());
        } else {
            assert(s@.subrange(from as int, j + 1) =~= s@.subrange(from as int, j as int).push(s@[j as int]));
        }
        j += 1;
    }
    assert(s@.subrange(0, s@.len() as int) =~= s@);
    chars_from(s, from)
}

/// The program name for the argument list's first element.
pub fn program_name(arg0: Option<&str>) -> (r: String)
    ensures
        r@ == program_name_of(
            match arg0 {
                Some(a) => Some(a@),
                None => None,
            },
        ),
{
    match arg0 {
        Some(a) => {
            let v = chars_of(a);
            let v1 = after_last_exec(&v, '/');
            let v2 = after_last_exec(&v1, '\\');
            string_of(v2.as_slice())
        },
        None => owned("program"),
    }
}

impl CliResult {
    /// Parses a whole argument list: its first element is the program, the rest the
    /// arguments of the top-level command described by `help`.
    pub fn from_args_with_help(args: &[String], help: Help) -> (r: Result<CliResult, CliError>)
        requires
            args@.len() >= 1,
        ensures
            ({
                let pname = program_name_of(Some(args@[0]@));
                match parse_from(
                    arg_views(args@).skip(1),
                    0,
                    pname,
                    Some(help),
                    pname,
                    Map::empty(),
                ) {
                    Ok(p) => r matches Ok(c) && c.parsed() == p && c.well_formed() && c.help == Some(
                        help,
                    ),
                    Err(e) => r matches Err(err) && err.spec_error() == e,
                }
            }),
    {
        let pname = program_name(Some(args[0].as_str()));
        let nv = chars_of(pname.as_str());
        let help = Some(help);
        match parse_level(args, 1, &nv, help.as_ref(), &pname) {
            Ok(res) => {
                let (flags, subcommand) = res;
                Ok(CliResult { name: pname, flags, subcommand, help })
            },
            Err(e) => Err(e),
        }
    }
}

} // verus!
