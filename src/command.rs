use vstd::prelude::*;

use crate::flag::{flag_help, push_char, Flag};
use crate::state::StateBox;

verus! {

/// A node of a command tree.
pub struct Command {
    pub name: String,
    pub about: String,
    pub version: String,
    pub flags: Vec<Flag>,
    pub subcommands: Vec<Command>,
    /// The store that the command's handlers share during one run.
    pub states: StateBox,
    pub man: String,
}

/// One invocation of a flag's handler: the flag's position among the
/// command's flags and the value it captured.
pub struct Call {
    pub flag: usize,
    pub value: Option<String>,
}

/// How the resolution of an argument list ends.
pub enum Ending {
    /// `-h` or `--help` was met: print the help text and stop.
    Help,
    /// `--name` names no flag of the command.
    UnknownFlag(String),
    /// A character of a short cluster names no flag; the cluster is given
    /// without its leading `-`.
    UnknownShorthandFlag(char, String),
    /// A second breakpoint flag was met: a fault of the command's declaration.
    MultipleBreakpoints,
    /// Exactly one breakpoint flag was met: its handler runs in place of the
    /// command's own.
    Breakpoint(Call),
    /// No breakpoint flag was met: the command's own handler runs.
    Default,
}

/// The handler calls made while scanning, in order, and how the scan ended.
pub struct Dispatch {
    pub calls: Vec<Call>,
    pub ending: Ending,
}

pub struct CallModel {
    pub flag: int,
    pub value: Option<Seq<char>>,
}

pub enum EndingModel {
    Help,
    UnknownFlag(Seq<char>),
    UnknownShorthandFlag(char, Seq<char>),
    MultipleBreakpoints,
    Breakpoint(CallModel),
    Default,
}

pub struct DispatchModel {
    pub calls: Seq<CallModel>,
    pub ending: EndingModel,
}

pub open spec fn opt_view(o: Option<String>) -> Option<Seq<char>> {
    match o {
        Some(s) => Some(s@),
        None => None,
    }
}

impl View for Call {
    type V = CallModel;

    open spec fn view(&self) -> CallModel {
        CallModel { flag: self.flag as int, value: opt_view(self.value) }
    }
}

impl View for Ending {
    type V = EndingModel;

    open spec fn view(&self) -> EndingModel {
        match self {
            Ending::Help => EndingModel::Help,
            Ending::UnknownFlag(s) => EndingModel::UnknownFlag(s@),
            Ending::UnknownShorthandFlag(c, s) => EndingModel::UnknownShorthandFlag(*c, s@),
            Ending::MultipleBreakpoints => EndingModel::MultipleBreakpoints,
            Ending::Breakpoint(c) => EndingModel::Breakpoint(c@),
            Ending::Default => EndingModel::Default,
        }
    }
}

pub open spec fn calls_view(calls: Seq<Call>) -> Seq<CallModel> {
    calls.map_values(|c: Call| c@)
}

pub open spec fn opt_call_view(c: Option<Call>) -> Option<CallModel> {
    match c {
        Some(c) => Some(c@),
        None => None,
    }
}

impl View for Dispatch {
    type V = DispatchModel;

    open spec fn view(&self) -> DispatchModel {
        DispatchModel { calls: calls_view(self.calls@), ending: self.ending@ }
    }
}

/// The argument tokens as character sequences.
pub open spec fn tokens(args: Seq<String>) -> Seq<Seq<char>> {
    args.map_values(|s: String| s@)
}

pub open spec fn help_name() -> Seq<char> {
    seq!['h', 'e', 'l', 'p']
}

/// A token of the form `--name`.
pub open spec fn is_long(tok: Seq<char>) -> bool {
    tok.len() >= 2 && tok[0] == '-' && tok[1] == '-'
}

/// A token of the form `-chars` that is not long.
pub open spec fn is_short(tok: Seq<char>) -> bool {
    !is_long(tok) && tok.len() >= 1 && tok[0] == '-'
}

/// `j` is the first flag whose long name is `name`.
pub open spec fn long_match(flags: Seq<Flag>, name: Seq<char>, j: int) -> bool {
    &&& 0 <= j < flags.len()
    &&& flags[j].long@ == name
    &&& forall|i: int| 0 <= i < j ==> flags[i].long@ != name
}

/// `j` is the first flag whose short name is `c`.
pub open spec fn short_match(flags: Seq<Flag>, c: char, j: int) -> bool {
    &&& 0 <= j < flags.len()
    &&& flags[j].short == c
    &&& forall|i: int| 0 <= i < j ==> flags[i].short != c
}

/// The value that flag `j`, met just before token `next`, captures.
pub open spec fn value_at(flags: Seq<Flag>, toks: Seq<Seq<char>>, j: int, next: int) -> Option<
    Seq<char>,
> {
    if flags[j].consumer && next < toks.len() {
        Some(toks[next])
    } else {
        None
    }
}

/// The token at which the scan goes on after flag `j` was met just before
/// token `next`.
pub open spec fn after_value(flags: Seq<Flag>, toks: Seq<Seq<char>>, j: int, next: int) -> int {
    if flags[j].consumer && next < toks.len() {
        next + 1
    } else {
        next
    }
}

pub open spec fn finish(calls: Seq<CallModel>, bp: Option<CallModel>) -> DispatchModel {
    match bp {
        Some(c) => DispatchModel { calls, ending: EndingModel::Breakpoint(c) },
        None => DispatchModel { calls, ending: EndingModel::Default },
    }
}

pub open spec fn stop(calls: Seq<CallModel>, ending: EndingModel) -> DispatchModel {
    DispatchModel { calls, ending }
}

/// Resolution of the tokens from `pos` on, with the calls made so far and the
/// breakpoint recorded so far.
pub open spec fn scan(
    flags: Seq<Flag>,
    toks: Seq<Seq<char>>,
    pos: int,
    calls: Seq<CallModel>,
    bp: Option<CallModel>,
) -> DispatchModel
    decreases toks.len() - pos, 0int,
{
    if pos < 0 || pos >= toks.len() {
        finish(calls, bp)
    } else if is_long(toks[pos]) {
        let name = toks[pos].subrange(2, toks[pos].len() as int);
        if name == help_name() {
            stop(calls, EndingModel::Help)
        } else if exists|j: int| long_match(flags, name, j) {
            let j = choose|j: int| long_match(flags, name, j);
            let call = CallModel { flag: j, value: value_at(flags, toks, j, pos + 1) };
            let next = after_value(flags, toks, j, pos + 1);
            if flags[j].breakpoint {
                if bp is Some {
                    stop(calls, EndingModel::MultipleBreakpoints)
                } else {
                    scan(flags, toks, next, calls, Some(call))
                }
            } else {
                scan(flags, toks, next, calls.push(call), bp)
            }
        } else {
            stop(calls, EndingModel::UnknownFlag(name))
        }
    } else if is_short(toks[pos]) {
        scan_short(flags, toks, pos, 1, pos + 1, calls, bp)
    } else {
        scan(flags, toks, pos + 1, calls, bp)
    }
}

/// Resolution of the characters of the short cluster `toks[t]` from `k` on,
/// with the scan to go on at token `pos` once the cluster is done.
pub open spec fn scan_short(
    flags: Seq<Flag>,
    toks: Seq<Seq<char>>,
    t: int,
    k: int,
    pos: int,
    calls: Seq<CallModel>,
    bp: Option<CallModel>,
) -> DispatchModel
    decreases toks.len() - pos, toks[t].len() - k + 1,
{
    if t < 0 || t >= pos || pos > toks.len() || k < 0 || k > toks[t].len() {
        finish(calls, bp)
    } else if k == toks[t].len() {
        scan(flags, toks, pos, calls, bp)
    } else {
        let c = toks[t][k];
        if c == 'h' {
            stop(calls, EndingModel::Help)
        } else if exists|j: int| short_match(flags, c, j) {
            let j = choose|j: int| short_match(flags, c, j);
            let call = CallModel { flag: j, value: value_at(flags, toks, j, pos) };
            let next = after_value(flags, toks, j, pos);
            if flags[j].breakpoint {
                if bp is Some {
                    stop(calls, EndingModel::MultipleBreakpoints)
                } else {
                    scan_short(flags, toks, t, k + 1, next, calls, Some(call))
                }
            } else {
                scan_short(flags, toks, t, k + 1, next, calls.push(call), bp)
            }
        } else {
            stop(
                calls,
                EndingModel::UnknownShorthandFlag(c, toks[t].subrange(1, toks[t].len() as int)),
            )
        }
    }
}

/// The resolution of a whole argument list against a command's flags.
pub open spec fn dispatch(flags: Seq<Flag>, toks: Seq<Seq<char>>) -> DispatchModel {
    scan(flags, toks, 0, seq![], None)
}

/// The one-line summary of a command in its parent's help text.
pub open spec fn micro_help_text(c: Command) -> Seq<char> {
    c.name@ + "\t"@ + c.about@
}

/// One help line per flag, in declaration order.
pub open spec fn flag_lines(flags: Seq<Flag>) -> Seq<char>
    decreases flags.len(),
{
    if flags.len() == 0 {
        Seq::empty()
    } else {
        flag_lines(flags.drop_last()) + "  "@ + flag_help(flags.last()) + "\n"@
    }
}

/// One summary line per subcommand, in declaration order.
pub open spec fn command_lines(subs: Seq<Command>) -> Seq<char>
    decreases subs.len(),
{
    if subs.len() == 0 {
        Seq::empty()
    } else {
        command_lines(subs.drop_last()) + "  "@ + micro_help_text(subs.last()) + "\n"@
    }
}

/// The Usage section: a `[flags]` line where flags are declared, a
/// `[command]` line where subcommands are.
pub open spec fn usage_section(c: Command) -> Seq<char> {
    "Usage:\n"@ + (if c.flags@.len() > 0 {
        "  "@ + c.name@ + " [flags]\n"@
    } else {
        Seq::empty()
    }) + (if c.subcommands@.len() > 0 {
        "  "@ + c.name@ + " [command]\n"@
    } else {
        Seq::empty()
    })
}

/// The Available Commands section, present only where subcommands are declared.
pub open spec fn commands_section(c: Command) -> Seq<char> {
    if c.subcommands@.len() > 0 {
        "\nAvailable Commands:\n"@ + command_lines(c.subcommands@)
    } else {
        Seq::empty()
    }
}

/// The Flags section, which always ends with the built-in help flag.
pub open spec fn flags_section(c: Command) -> Seq<char> {
    "\nFlags:\n"@ + flag_lines(c.flags@) + "  -h, --help\thelp for "@ + c.name@ + "\n"@
}

/// The full help text of a command.
pub open spec fn help_text(c: Command) -> Seq<char> {
    c.version@ + "\n"@ + usage_section(c) + commands_section(c) + flags_section(c) + "\n"@
        + "Use "@ + c.name@ + " [command] --help for more information about a command."@
}

/// The error line for a long flag that no declared flag matches.
pub open spec fn unknown_flag_error(name: Seq<char>) -> Seq<char> {
    "unknown flag: '"@ + name + "'"@
}

/// The error line for a short flag that no declared flag matches, with the
/// cluster it stood in.
pub open spec fn unknown_shorthand_error(c: char, rest: Seq<char>) -> Seq<char> {
    "unknown shorthand flag: '"@ + seq![c] + "' in -"@ + rest
}

/// What is shown for an input error: the error, the help text, and the
/// error again.
pub open spec fn failure_text(c: Command, error: Seq<char>) -> Seq<char> {
    "Error: "@ + error + "\n"@ + help_text(c) + "\n\n"@ + error
}

/// The first flag whose long name is `name`.
fn find_long(flags: &Vec<Flag>, name: &String) -> (r: Option<usize>)
    ensures
        match r {
            Some(j) => long_match(flags@, name@, j as int),
            None => forall|i: int| 0 <= i < flags@.len() ==> flags@[i].long@ != name@,
        },
{
    let mut i: usize = 0;
    while i < flags.len()
        invariant
            i <= flags@.len(),
            forall|m: int| 0 <= m < i ==> flags@[m].long@ != name@,
        decreases flags.len() - i,
    {
        if flags[i].long == *name {
            return Some(i);
        }
        i += 1;
    }
    None
}

/// The first flag whose short name is `c`.
fn find_short(flags: &Vec<Flag>, c: char) -> (r: Option<usize>)
    ensures
        match r {
            Some(j) => short_match(flags@, c, j as int),
            None => forall|i: int| 0 <= i < flags@.len() ==> flags@[i].short != c,
        },
{
    let mut i: usize = 0;
    while i < flags.len()
        invariant
            i <= flags@.len(),
            forall|m: int| 0 <= m < i ==> flags@[m].short != c,
        decreases flags.len() - i,
    {
        if flags[i].short == c {
            return Some(i);
        }
        i += 1;
    }
    None
}

proof fn lemma_long_match_unique(flags: Seq<Flag>, name: Seq<char>, a: int, b: int)
    requires
        long_match(flags, name, a),
        long_match(flags, name, b),
    ensures
        a == b,
{
    if a < b {
        assert(flags[a].long@ != name);
    } else if b < a {
        assert(flags[b].long@ != name);
    }
}

proof fn lemma_short_match_unique(flags: Seq<Flag>, c: char, a: int, b: int)
    requires
        short_match(flags, c, a),
        short_match(flags, c, b),
    ensures
        a == b,
{
    if a < b {
        assert(flags[a].short != c);
    } else if b < a {
        assert(flags[b].short != c);
    }
}

/// The value that flag `j` captures when the token after it is `next`.
fn take_value(args: &[String], flag: &Flag, next: usize) -> (r: Option<String>)
    ensures
        opt_view(r) == (if flag.consumer && next < args@.len() {
            Some(args@[next as int]@)
        } else {
            None
        }),
{
    if flag.consumer && next < args.len() {
        Some(args[next].clone())
    } else {
        None
    }
}

impl Command {
    /// The help text: version line, Usage, Available Commands, Flags and a
    /// closing hint.
    pub fn help(&self) -> (r: String)
        ensures
            r@ == help_text(*self),
    {
        let mut help = String::from_str(self.version.as_str());
        help.append("\n");
        help.append("Usage:\n");
        if self.flags.len() > 0 {
            help.append("  ");
            help.append(self.name.as_str());
            help.append(" [flags]\n");
        }
        if self.subcommands.len() > 0 {
            help.append("  ");
            help.append(self.name.as_str());
            help.append(" [command]\n");
        }
        assert(help@ =~= self.version@ + "\n"@ + usage_section(*self));
        if self.subcommands.len() > 0 {
            help.append("\nAvailable Commands:\n");
            let ghost start = help@;
            let mut i: usize = 0;
            assert(self.subcommands@.subrange(0, 0) =~= Seq::<Command>::empty());
            while i < self.subcommands.len()
                invariant
                    i <= self.subcommands@.len(),
                    help@ =~= start + command_lines(self.subcommands@.subrange(0, i as int)),
                decreases self.subcommands.len() - i,
            {
                let line = self.subcommands[i].micro_help();
                help.append("  ");
                help.append(line.as_str());
                help.append("\n");
                let ghost done = self.subcommands@.subrange(0, i as int + 1);
                assert(done.drop_last() =~= self.subcommands@.subrange(0, i as int));
                i += 1;
            }
            assert(self.subcommands@.subrange(0, i as int) =~= self.subcommands@);
        }
        assert(help@ =~= self.version@ + "\n"@ + usage_section(*self) + commands_section(*self));
        let ghost start = help@;
        help.append("\nFlags:\n");
        let ghost head = help@;
        let mut i: usize = 0;
        assert(self.flags@.subrange(0, 0) =~= Seq::<Flag>::empty());
        while i < self.flags.len()
            invariant
                i <= self.flags@.len(),
                help@ =~= head + flag_lines(self.flags@.subrange(0, i as int)),
            decreases self.flags.len() - i,
        {
            let line = self.flags[i].help();
            help.append("  ");
            help.append(line.as_str());
            help.append("\n");
            let ghost done = self.flags@.subrange(0, i as int + 1);
            assert(done.drop_last() =~= self.flags@.subrange(0, i as int));
            i += 1;
        }
        assert(self.flags@.subrange(0, i as int) =~= self.flags@);
        help.append("  -h, --help\thelp for ");
        help.append(self.name.as_str());
        help.append("\n");
        assert(help@ =~= start + flags_section(*self));
        help.append("\n");
        help.append("Use ");
        help.append(self.name.as_str());
        help.append(" [command] --help for more information about a command.");
        help
    }

    /// The text shown where the resolution ended in an input error; nothing
    /// for any other ending.
    pub fn failure_report(&self, ending: &Ending) -> (r: Option<String>)
        ensures
            r matches Some(t) ==> match ending@ {
                EndingModel::UnknownFlag(name) => t@ == failure_text(*self, unknown_flag_error(name)),
                EndingModel::UnknownShorthandFlag(ch, rest) => t@ == failure_text(
                    *self,
                    unknown_shorthand_error(ch, rest),
                ),
                _ => false,
            },
            r is None <==> !(ending is UnknownFlag || ending is UnknownShorthandFlag),
    {
        let error = match ending {
            Ending::UnknownFlag(name) => {
                let mut e = String::from_str("unknown flag: '");
                e.append(name.as_str());
                e.append("'");
                e
            },
            Ending::UnknownShorthandFlag(c, rest) => {
                let mut e = String::from_str("unknown shorthand flag: '");
                push_char(&mut e, *c);
                e.append("' in -");
                e.append(rest.as_str());
                proof {
                    assert(e@ =~= unknown_shorthand_error(*c, rest@));
                }
                e
            },
            _ => {
                return None;
            },
        };
        let mut text = String::from_str("Error: ");
        text.append(error.as_str());
        text.append("\n");
        let help = self.help();
        text.append(help.as_str());
        text.append("\n\n");
        text.append(error.as_str());
        Some(text)
    }

    /// The one-line summary shown in a parent's help text: `{name}\t{about}`.
    pub fn micro_help(&self) -> (r: String)
        ensures
            r@ == micro_help_text(*self),
    {
        let mut help = String::from_str(self.name.as_str());
        help.append("\t");
        help.append(self.about.as_str());
        help
    }

    /// Resolves `args` against the command's flags in one pass: the calls of
    /// non-breakpoint handlers in the order met, and how the pass ended.
    pub fn run(&self, args: &[String]) -> (d: Dispatch)
        ensures
            d@ == dispatch(self.flags@, tokens(args@)),
    {
        let ghost fl = self.flags@;
        let ghost toks = tokens(args@);
        let mut calls: Vec<Call> = Vec::new();
        let mut bp: Option<Call> = None;
        let mut pos: usize = 0;
        assert(calls_view(calls@) =~= seq![]);
        while pos < args.len()
            invariant
                fl == self.flags@,
                toks == tokens(args@),
                toks.len() == args@.len(),
                forall|i: int| 0 <= i < toks.len() ==> toks[i] == #[trigger] args@[i]@,
                pos <= args@.len(),
                dispatch(fl, toks) == scan(fl, toks, pos as int, calls_view(calls@), opt_call_view(bp)),
            decreases args.len() - pos,
        {
            let tok = args[pos].as_str();
            let n = tok.unicode_len();
            assert(toks[pos as int] == tok@);
            if n >= 2 && tok.get_char(0) == '-' && tok.get_char(1) == '-' {
                let name = String::from_str(tok.substring_char(2, n));
                let help = String::from_str("help");
                proof {
                    reveal_strlit("help");
                    assert(help@ =~= help_name());
                    assert(is_long(toks[pos as int]));
                    assert(name@ == toks[pos as int].subrange(2, toks[pos as int].len() as int));
                }
                if name == help {
                    return Dispatch { calls, ending: Ending::Help };
                }
                match find_long(&self.flags, &name) {
                    None => {
                        return Dispatch { calls, ending: Ending::UnknownFlag(name) };
                    },
                    Some(j) => {
                        proof {
                            let jj = choose|j: int| long_match(fl, name@, j);
                            lemma_long_match_unique(fl, name@, j as int, jj);
                        }
                        let value = take_value(args, &self.flags[j], pos + 1);
                        let next = if self.flags[j].consumer && pos + 1 < args.len() {
                            pos + 2
                        } else {
                            pos + 1
                        };
                        let call = Call { flag: j, value };
                        proof {
                            assert(call@ == CallModel {
                                flag: j as int,
                                value: value_at(fl, toks, j as int, pos as int + 1),
                            });
                            assert(next == after_value(fl, toks, j as int, pos as int + 1));
                        }
                        if self.flags[j].breakpoint {
                            if bp.is_some() {
                                return Dispatch { calls, ending: Ending::MultipleBreakpoints };
                            }
                            bp = Some(call);
                        } else {
                            let ghost before = calls@;
                            calls.push(call);
                            assert(calls_view(calls@) =~= calls_view(before).push(call@));
                        }
                        pos = next;
                    },
                }
            } else if n >= 1 && tok.get_char(0) == '-' {
                let mut k: usize = 1;
                let mut next: usize = pos + 1;
                while k < n
                    invariant
                        fl == self.flags@,
                        toks == tokens(args@),
                        toks.len() == args@.len(),
                        forall|i: int| 0 <= i < toks.len() ==> toks[i] == #[trigger] args@[i]@,
                forall|i: int| 0 <= i < toks.len() ==> toks[i] == #[trigger] args@[i]@,
                        toks[pos as int] == tok@,
                        n == tok@.len(),
                        pos < next <= args@.len(),
                        1 <= k <= n,
                        dispatch(fl, toks) == scan_short(
                            fl,
                            toks,
                            pos as int,
                            k as int,
                            next as int,
                            calls_view(calls@),
                            opt_call_view(bp),
                        ),
                    decreases n - k,
                {
                    let c = tok.get_char(k);
                    if c == 'h' {
                        return Dispatch { calls, ending: Ending::Help };
                    }
                    match find_short(&self.flags, c) {
                        None => {
                            let rest = String::from_str(tok.substring_char(1, n));
                            return Dispatch {
                                calls,
                                ending: Ending::UnknownShorthandFlag(c, rest),
                            };
                        },
                        Some(j) => {
                            proof {
                                let jj = choose|j: int| short_match(fl, c, j);
                                lemma_short_match_unique(fl, c, j as int, jj);
                            }
                            let value = take_value(args, &self.flags[j], next);
                            let after = if self.flags[j].consumer && next < args.len() {
                                next + 1
                            } else {
                                next
                            };
                            let call = Call { flag: j, value };
                            proof {
                                assert(call@ == CallModel {
                                    flag: j as int,
                                    value: value_at(fl, toks, j as int, next as int),
                                });
                                assert(after == after_value(fl, toks, j as int, next as int));
                            }
                            if self.flags[j].breakpoint {
                                if bp.is_some() {
                                    return Dispatch { calls, ending: Ending::MultipleBreakpoints };
                                }
                                bp = Some(call);
                            } else {
                                let ghost before = calls@;
                                calls.push(call);
                                assert(calls_view(calls@) =~= calls_view(before).push(call@));
                            }
                            next = after;
                        },
                    }
                    k += 1;
                }
                assert(toks[pos as int].len() == k);
                pos = next;
            } else {
                pos += 1;
            }
        }
        match bp {
            Some(c) => Dispatch { calls, ending: Ending::Breakpoint(c) },
            None => Dispatch { calls, ending: Ending::Default },
        }
    }
}


/// A command that declares neither flags nor subcommands shows no
/// `[flags]` or `[command]` line under Usage, and no Available Commands.
pub proof fn law_bare_usage(c: Command)
    requires
        c.flags@.len() == 0,
        c.subcommands@.len() == 0,
    ensures
        usage_section(c) == "Usage:\n"@,
        commands_section(c) == Seq::<char>::empty(),
{
    assert(usage_section(c) =~= "Usage:\n"@);
}

/// Token `tok` is `--long` for flag `j`, the first flag with that long name,
/// and the name is not the reserved `help`.
pub open spec fn long_token(flags: Seq<Flag>, tok: Seq<char>, j: int) -> bool {
    &&& long_match(flags, flags[j].long@, j)
    &&& flags[j].long@ != help_name()
    &&& tok == seq!['-', '-'] + flags[j].long@
}

proof fn lemma_long_token(flags: Seq<Flag>, tok: Seq<char>, j: int)
    requires
        long_token(flags, tok, j),
    ensures
        is_long(tok),
        tok.subrange(2, tok.len() as int) == flags[j].long@,
        exists|i: int| long_match(flags, flags[j].long@, i),
        (choose|i: int| long_match(flags, flags[j].long@, i)) == j,
{
    assert(tok.subrange(2, tok.len() as int) =~= flags[j].long@);
    let i = choose|i: int| long_match(flags, flags[j].long@, i);
    lemma_long_match_unique(flags, flags[j].long@, i, j);
}

/// A consumer flag met in long form captures the token right after it, or
/// nothing where it is the last token; the scan then goes on past what it
/// captured.
pub proof fn law_long_consumer_value(
    flags: Seq<Flag>,
    toks: Seq<Seq<char>>,
    pos: int,
    calls: Seq<CallModel>,
    bp: Option<CallModel>,
    j: int,
)
    requires
        0 <= pos < toks.len(),
        long_token(flags, toks[pos], j),
        flags[j].consumer,
    ensures
        ({
            let call = CallModel {
                flag: j,
                value: if pos + 1 < toks.len() {
                    Some(toks[pos + 1])
                } else {
                    None
                },
            };
            let next = if pos + 1 < toks.len() {
                pos + 2
            } else {
                pos + 1
            };
            scan(flags, toks, pos, calls, bp) == if flags[j].breakpoint {
                if bp is Some {
                    stop(calls, EndingModel::MultipleBreakpoints)
                } else {
                    scan(flags, toks, next, calls, Some(call))
                }
            } else {
                scan(flags, toks, next, calls.push(call), bp)
            }
        }),
{
    lemma_long_token(flags, toks[pos], j);
}

/// Every token from `pos` on names, in long form, a flag that takes no value.
pub open spec fn plain_long_tokens(flags: Seq<Flag>, toks: Seq<Seq<char>>, pos: int) -> bool {
    forall|i: int| pos <= i < toks.len() ==> #[trigger] plain_long_token(flags, toks[i])
}

/// Token `tok` names, in long form, a flag that takes no value.
pub open spec fn plain_long_token(flags: Seq<Flag>, tok: Seq<char>) -> bool {
    exists|j: int| #[trigger] long_token(flags, tok, j) && !flags[j].consumer
}

/// Token `i` names, in long form, a breakpoint flag.
pub open spec fn breakpoint_token(flags: Seq<Flag>, toks: Seq<Seq<char>>, i: int) -> bool {
    exists|j: int| #[trigger] long_token(flags, toks[i], j) && flags[j].breakpoint
}

proof fn lemma_plain_long_tokens_tail(flags: Seq<Flag>, toks: Seq<Seq<char>>, pos: int)
    requires
        plain_long_tokens(flags, toks, pos),
    ensures
        plain_long_tokens(flags, toks, pos + 1),
{
    assert forall|i: int| pos + 1 <= i < toks.len() implies #[trigger] plain_long_token(
        flags,
        toks[i],
    ) by {
        assert(pos <= i);
    }
}

proof fn lemma_second_breakpoint(
    flags: Seq<Flag>,
    toks: Seq<Seq<char>>,
    pos: int,
    b: int,
    calls: Seq<CallModel>,
    bp: Option<CallModel>,
)
    requires
        0 <= pos <= b < toks.len(),
        bp is Some,
        plain_long_tokens(flags, toks, pos),
        breakpoint_token(flags, toks, b),
    ensures
        scan(flags, toks, pos, calls, bp).ending == EndingModel::MultipleBreakpoints,
    decreases b - pos,
{
    assert(plain_long_token(flags, toks[pos]));
    let j = choose|j: int| long_token(flags, toks[pos], j) && !flags[j].consumer;
    lemma_long_token(flags, toks[pos], j);
    if flags[j].breakpoint {
    } else {
        if pos == b {
            let jb = choose|jb: int| long_token(flags, toks[b], jb) && flags[jb].breakpoint;
            lemma_long_token(flags, toks[b], jb);
            lemma_long_match_unique(flags, flags[j].long@, j, jb);
        } else {
            let call = CallModel { flag: j, value: value_at(flags, toks, j, pos + 1) };
            lemma_plain_long_tokens_tail(flags, toks, pos);
            lemma_second_breakpoint(flags, toks, pos + 1, b, calls.push(call), bp);
        }
    }
}

proof fn lemma_two_breakpoints(
    flags: Seq<Flag>,
    toks: Seq<Seq<char>>,
    pos: int,
    a: int,
    b: int,
    calls: Seq<CallModel>,
    bp: Option<CallModel>,
)
    requires
        0 <= pos <= a < b < toks.len(),
        plain_long_tokens(flags, toks, pos),
        breakpoint_token(flags, toks, a),
        breakpoint_token(flags, toks, b),
    ensures
        scan(flags, toks, pos, calls, bp).ending == EndingModel::MultipleBreakpoints,
    decreases a - pos,
{
    assert(plain_long_token(flags, toks[pos]));
    let j = choose|j: int| long_token(flags, toks[pos], j) && !flags[j].consumer;
    lemma_long_token(flags, toks[pos], j);
    let call = CallModel { flag: j, value: value_at(flags, toks, j, pos + 1) };
    if flags[j].breakpoint {
        if bp is None {
            lemma_plain_long_tokens_tail(flags, toks, pos);
            lemma_second_breakpoint(flags, toks, pos + 1, b, calls, Some(call));
        }
    } else {
        if pos == a {
            let ja = choose|ja: int| long_token(flags, toks[a], ja) && flags[ja].breakpoint;
            lemma_long_token(flags, toks[a], ja);
            lemma_long_match_unique(flags, flags[j].long@, j, ja);
        } else {
            lemma_plain_long_tokens_tail(flags, toks, pos);
            lemma_two_breakpoints(flags, toks, pos + 1, a, b, calls.push(call), bp);
        }
    }
}

/// Where every token names a declared flag that takes no value, in long
/// form, and two of them name breakpoint flags, the resolution ends in
/// `MultipleBreakpoints`: neither a breakpoint handler nor the command's own
/// handler runs.
pub proof fn law_multiple_breakpoints(flags: Seq<Flag>, toks: Seq<Seq<char>>, a: int, b: int)
    requires
        0 <= a < b < toks.len(),
        plain_long_tokens(flags, toks, 0),
        breakpoint_token(flags, toks, a),
        breakpoint_token(flags, toks, b),
    ensures
        dispatch(flags, toks).ending == EndingModel::MultipleBreakpoints,
{
    lemma_two_breakpoints(flags, toks, 0, a, b, seq![], None);
}

} // verus!
