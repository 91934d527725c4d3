//! The help screen of a command line: usage, description, options and commands.

use vstd::prelude::*;
use crate::cli::{ArgumentHelp, CliResult, CommandHelp, Help};
use crate::text::{append_str, chars_of, push_char};

verus! {

/// `n` spaces (none when `n` is not positive).
pub open spec fn spaces(n: int) -> Seq<char> {
    Seq::new(if n > 0 { n as nat } else { 0 }, |i: int| ' ')
}

/// `s` padded with spaces to 30 chars, as `{:30}` does.
pub open spec fn pad30(s: Seq<char>) -> Seq<char> {
    s + spaces(30 - s.len())
}

/// How an option is written in the help: `-s`, `--long` or both (`-s, --long`), the
/// name when it has neither, followed by ` <VALUE>` when it takes a value.
pub open spec fn arg_label(a: ArgumentHelp) -> Seq<char> {
    let sh: Seq<char> = match a.short {
        Some(c) => seq!['-', c],
        None => seq![],
    };
    let lo: Seq<char> = match a.long {
        Some(l) => "--"@ + l@,
        None => seq![],
    };
    let joined = if a.short is Some && a.long is Some {
        sh + ", "@ + lo
    } else {
        sh + lo
    };
    let base = if a.short is None && a.long is None {
        a.name@
    } else {
        joined
    };
    if a.takes_value {
        base + " <VALUE>"@
    } else {
        base
    }
}

/// The lines of the first `k` options.
pub open spec fn option_rows(args: Seq<ArgumentHelp>, prefix: Seq<char>, k: int) -> Seq<char>
    decreases k,
{
    if k <= 0 {
        seq![]
    } else {
        option_rows(args, prefix, k - 1) + prefix + "  "@ + pad30(arg_label(args[k - 1])) + " "@
            + args[k - 1].description@ + "\n"@
    }
}

/// The lines of the first `k` subcommands.
pub open spec fn command_rows(subs: Seq<CommandHelp>, prefix: Seq<char>, k: int) -> Seq<char>
    decreases k,
{
    if k <= 0 {
        seq![]
    } else {
        command_rows(subs, prefix, k - 1) + prefix + "  "@ + pad30(subs[k - 1].name@) + " "@
            + subs[k - 1].description@ + "\n"@
    }
}

/// The help screen of `h` for program `prog`, indented by `indent` levels of two spaces:
/// the usage line and an empty line; the description and an empty line; the options,
/// one per line, and an empty line; the subcommands, one per line, an empty line and a
/// pointer to their own help. Each part but the usage only when there is something in
/// it.
pub open spec fn help_text_of(h: Help, prog: Seq<char>, indent: int) -> Seq<char> {
    let prefix = spaces(2 * indent);
    let usage = prefix + "Usage: "@ + prog + " [OPTIONS] [COMMAND]\n"@ + "\n"@;
    let desc = match h.description {
        Some(d) => prefix + d@ + "\n"@ + "\n"@,
        None => seq![],
    };
    let opts = if h.arguments@.len() > 0 {
        prefix + "Options:\n"@ + option_rows(h.arguments@, prefix, h.arguments@.len() as int) + "\n"@
    } else {
        seq![]
    };
    let cmds = if h.subcommands@.len() > 0 {
        prefix + "Commands:\n"@ + command_rows(h.subcommands@, prefix, h.subcommands@.len() as int) + "\n"@
            + prefix + "Use '"@ + prog + " <COMMAND> --help' for more information on a specific command.\n"@
    } else {
        seq![]
    };
    usage + desc + opts + cmds
}

/// Appends `s` padded to 30 chars.
fn push_pad30(out: &mut String, s: &str)
    ensures
        final(out)@ == old(out)@ + pad30(s@),
{
    append_str(out, s);
    let n = chars_of(s).len();
    let mut k: usize = n;
    while k < 30
        invariant
            n == s@.len(),
            n <= k,
            k <= 30 || k == n,
            out@ == old(out)@ + s@ + spaces(k - n),
        decreases 30 - k,
    {
        push_char(out, ' ');
        proof {
            assert(out@ =~= old(out)@ + s@ + spaces(k + 1 - n));
        }
        k += 1;
    }
    proof {
        assert(spaces(k - n) =~= spaces(30 - n));
    }
}

/// Appends the label of option `a`.
fn push_label(out: &mut String, a: &ArgumentHelp)
    ensures
        final(out)@ == old(out)@ + arg_label(*a),
{
    let mut l = String::new();
    match a.short {
        Some(c) => {
            push_char(&mut l, '-');
            push_char(&mut l, c);
        },
        None => {},
    }
    match &a.long {
        Some(lo) => {
            if a.short.is_some() {
                append_str(&mut l, ", ");
            }
            append_str(&mut l, "--");
            append_str(&mut l, lo.as_str());
        },
        None => {},
    }
    if a.short.is_none() && a.long.is_none() {
        append_str(&mut l, a.name.as_str());
    }
    if a.takes_value {
        append_str(&mut l, " <VALUE>");
    }
    proof {
        let sh: Seq<char> = match a.short {
            Some(c) => seq!['-', c],
            None => seq![],
        };
        let lo: Seq<char> = match &a.long {
            Some(x) => "--"@ + x@,
            None => seq![],
        };
        let joined = if a.short is Some && a.long is Some {
            sh + ", "@ + lo
        } else {
            sh + lo
        };
        let base = if a.short is None && a.long is None {
            a.name@
        } else {
            joined
        };
        if a.takes_value {
            assert(l@ =~= base + " <VALUE>"@);
        } else {
            assert(l@ =~= base);
        }
    }
    append_str(out, l.as_str());
}

impl Help {
    /// The help screen for program `program_name`, indented by `indent` levels of two
    /// spaces (see `help_text_of`).
    pub fn help_text(&self, program_name: &str, indent: usize) -> (r: String)
        requires
            2 * indent <= isize::MAX,
        ensures
            r@ == help_text_of(*self, program_name@, indent as int),
    {
        let mut prefix = String::new();
        let mut i: usize = 0;
        while i < indent
            invariant
                i <= indent,
                prefix@ == spaces(2 * i),
            decreases indent - i,
        {
            push_char(&mut prefix, ' ');
            push_char(&mut prefix, ' ');
            assert(prefix@ =~= spaces(2 * (i + 1)));
            i += 1;
        }
        let ghost pv = prefix@;
        let p = prefix.as_str();
        let mut out = String::new();
        append_str(&mut out, p);
        append_str(&mut out, "Usage: ");
        append_str(&mut out, program_name);
        append_str(&mut out, " [OPTIONS] [COMMAND]\n");
        append_str(&mut out, "\n");
        let ghost usage = out@;
        assert(usage =~= pv + "Usage: "@ + program_name@ + " [OPTIONS] [COMMAND]\n"@ + "\n"@);
        match &self.description {
            Some(d) => {
                append_str(&mut out, p);
                append_str(&mut out, d.as_str());
                append_str(&mut out, "\n");
                append_str(&mut out, "\n");
                assert(out@ =~= usage + (pv + d@ + "\n"@ + "\n"@));
            },
            None => {
                assert(out@ =~= usage + Seq::<char>::empty());
            },
        }
        let ghost after_desc = out@;
        let na = self.arguments.len();
        if na > 0 {
            append_str(&mut out, p);
            append_str(&mut out, "Options:\n");
            let ghost head = out@;
            let mut k: usize = 0;
            while k < na
                invariant
                    k <= na,
                    na == self.arguments@.len(),
                    pv == prefix@,
                    p@ == pv,
                    out@ == head + option_rows(self.arguments@, pv, k as int),
                decreases na - k,
            {
                let a = &self.arguments[k];
                let mut lab = String::new();
                push_label(&mut lab, a);
                append_str(&mut out, p);
                append_str(&mut out, "  ");
                push_pad30(&mut out, lab.as_str());
                append_str(&mut out, " ");
                append_str(&mut out, a.description.as_str());
                append_str(&mut out, "\n");
                assert(out@ =~= head + option_rows(self.arguments@, pv, k + 1));
                k += 1;
            }
            append_str(&mut out, "\n");
            assert(out@ =~= after_desc + (pv + "Options:\n"@ + option_rows(self.arguments@, pv, na as int) + "\n"@));
        } else {
            assert(out@ =~= after_desc + Seq::<char>::empty());
        }
        let ghost after_opts = out@;
        let ns = self.subcommands.len();
        if ns > 0 {
            append_str(&mut out, p);
            append_str(&mut out, "Commands:\n");
            let ghost head = out@;
            let mut k: usize = 0;
            while k < ns
                invariant
                    k <= ns,
                    ns == self.subcommands@.len(),
                    pv == prefix@,
                    p@ == pv,
                    out@ == head + command_rows(self.subcommands@, pv, k as int),
                decreases ns - k,
            {
                let sc = &self.subcommands[k];
                append_str(&mut out, p);
                append_str(&mut out, "  ");
                push_pad30(&mut out, sc.name.as_str());
                append_str(&mut out, " ");
                append_str(&mut out, sc.description.as_str());
                append_str(&mut out, "\n");
                assert(out@ =~= head + command_rows(self.subcommands@, pv, k + 1));
                k += 1;
            }
            append_str(&mut out, "\n");
            append_str(&mut out, p);
            append_str(&mut out, "Use '");
            append_str(&mut out, program_name);
            append_str(&mut out, " <COMMAND> --help' for more information on a specific command.\n");
            assert(out@ =~= after_opts + (pv + "Commands:\n"@ + command_rows(self.subcommands@, pv, ns as int)
                + "\n"@ + pv + "Use '"@ + program_name@
                + " <COMMAND> --help' for more information on a specific command.\n"@));
        } else {
            assert(out@ =~= after_opts + Seq::<char>::empty());
        }
        out
    }
}

/// What asking for help shows for a parsed command: its help screen, or a line saying
/// it has none.
pub open spec fn result_help_text(r: CliResult) -> Seq<char> {
    match r.help {
        Some(h) => help_text_of(h, r.name@, 0),
        None => "No help available for command: "@ + r.name@ + "\n"@,
    }
}

impl CliResult {
    /// The help screen of the command, or a line saying there is none.
    pub fn help_text(&self) -> (t: String)
        ensures
            t@ == result_help_text(*self),
    {
        match &self.help {
            Some(h) => h.help_text(self.name.as_str(), 0),
            None => {
                let mut t = String::new();
                append_str(&mut t, "No help available for command: ");
                append_str(&mut t, self.name.as_str());
                append_str(&mut t, "\n");
                t
            },
        }
    }
}

} // verus!
