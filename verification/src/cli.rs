//! The command line: legacy commands and their aliases, the configuration
//! file, `name=value` overrides and the arguments passed through to the
//! application, and the embedded reference printed by `--help`.
use vstd::prelude::*;

use crate::error::{owned, Error};
use crate::syntax::{property_split, split_property};
use crate::text::{
    append_str, chars_eq_str, chars_of, contains_char, lower, parse_u32, parse_u32_spec, slice,
    starts_with, starts_with_str, string_of, to_lower,
};

verus! {

#[derive(Debug, Clone, Copy, PartialEq, Eq, Structural)]
pub enum LegacyCommand {
    Console,
    Service,
    Start,
    Pause,
    Resume,
    Stop,
    Install,
    InstallStart,
    Remove,
    ControlCode(u32),
    Dump,
    HeapDump,
    Query { silent: bool },
    Version,
    Help,
}

impl LegacyCommand {
    /// Every command reads the configuration except `--version` and `--help`.
    pub fn needs_configuration(&self) -> (r: bool)
        ensures
            r == !(*self is Version || *self is Help),
    {
        match self {
            LegacyCommand::Version | LegacyCommand::Help => false,
            _ => true,
        }
    }
}

/// A parsed command line.
#[derive(Debug, Clone, PartialEq, Eq)]
pub struct Cli {
    pub command: LegacyCommand,
    pub configuration: String,
    pub overrides: Vec<String>,
    pub application_args: Vec<String>,
}

/// The command an argument names, ASCII case-insensitively; `Err` with the
/// message for a malformed control code.
pub open spec fn command_of(arg: Seq<char>) -> Result<Option<LegacyCommand>, Seq<char>> {
    let l = lower(arg);
    if l == "-c"@ || l == "--console"@ {
        Ok(Some(LegacyCommand::Console))
    } else if l == "-s"@ || l == "--service"@ {
        Ok(Some(LegacyCommand::Service))
    } else if l == "-t"@ || l == "--start"@ {
        Ok(Some(LegacyCommand::Start))
    } else if l == "-a"@ || l == "--pause"@ {
        Ok(Some(LegacyCommand::Pause))
    } else if l == "-e"@ || l == "--resume"@ {
        Ok(Some(LegacyCommand::Resume))
    } else if l == "-p"@ || l == "--stop"@ {
        Ok(Some(LegacyCommand::Stop))
    } else if l == "-i"@ || l == "--install"@ {
        Ok(Some(LegacyCommand::Install))
    } else if l == "-it"@ || l == "--installstart"@ {
        Ok(Some(LegacyCommand::InstallStart))
    } else if l == "-r"@ || l == "--remove"@ {
        Ok(Some(LegacyCommand::Remove))
    } else if l == "-d"@ || l == "--dump"@ {
        Ok(Some(LegacyCommand::Dump))
    } else if l == "--heapdump"@ {
        Ok(Some(LegacyCommand::HeapDump))
    } else if l == "-q"@ || l == "--query"@ {
        Ok(Some(LegacyCommand::Query { silent: false }))
    } else if l == "-qs"@ || l == "--querysilent"@ {
        Ok(Some(LegacyCommand::Query { silent: true }))
    } else if l == "-v"@ || l == "--version"@ {
        Ok(Some(LegacyCommand::Version))
    } else if l == "-?"@ || l == "--help"@ || l == "-h"@ {
        Ok(Some(LegacyCommand::Help))
    } else {
        let code = if starts_with(l, "-l="@) {
            Some(l.skip(3))
        } else if starts_with(l, "--controlcode="@) {
            Some(l.skip(14))
        } else {
            None
        };
        match code {
            None => Ok(None),
            Some(c) => match parse_u32_spec(c) {
                Some(n) => Ok(Some(LegacyCommand::ControlCode(n))),
                None => Err("invalid control code: "@ + c),
            },
        }
    }
}

/// Each documented command word, in any ASCII case, names its own
/// command: `-c`/`--console`, `-s`/`--service`, `-t`/`--start`,
/// `-a`/`--pause`, `-e`/`--resume`, `-p`/`--stop`, `-i`/`--install`,
/// `-it`/`--installstart`, `-r`/`--remove`, `-d`/`--dump`, `--heapdump`,
/// `-q`/`--query`, `-qs`/`--querysilent`, `-v`/`--version`, and
/// `-?`/`-h`/`--help`; `-l=N` and `--controlcode=N` send control code `N`.
pub proof fn lemma_command_words(arg: Seq<char>, n: u32)
    ensures
        (lower(arg) == "-c"@ || lower(arg) == "--console"@) ==> command_of(arg) == Ok::<Option<LegacyCommand>, Seq<char>>(Some(LegacyCommand::Console)),
        (lower(arg) == "-s"@ || lower(arg) == "--service"@) ==> command_of(arg) == Ok::<Option<LegacyCommand>, Seq<char>>(Some(LegacyCommand::Service)),
        (lower(arg) == "-t"@ || lower(arg) == "--start"@) ==> command_of(arg) == Ok::<Option<LegacyCommand>, Seq<char>>(Some(LegacyCommand::Start)),
        (lower(arg) == "-a"@ || lower(arg) == "--pause"@) ==> command_of(arg) == Ok::<Option<LegacyCommand>, Seq<char>>(Some(LegacyCommand::Pause)),
        (lower(arg) == "-e"@ || lower(arg) == "--resume"@) ==> command_of(arg) == Ok::<Option<LegacyCommand>, Seq<char>>(Some(LegacyCommand::Resume)),
        (lower(arg) == "-p"@ || lower(arg) == "--stop"@) ==> command_of(arg) == Ok::<Option<LegacyCommand>, Seq<char>>(Some(LegacyCommand::Stop)),
        (lower(arg) == "-i"@ || lower(arg) == "--install"@) ==> command_of(arg) == Ok::<Option<LegacyCommand>, Seq<char>>(Some(LegacyCommand::Install)),
        (lower(arg) == "-it"@ || lower(arg) == "--installstart"@) ==> command_of(arg) == Ok::<Option<LegacyCommand>, Seq<char>>(Some(LegacyCommand::InstallStart)),
        (lower(arg) == "-r"@ || lower(arg) == "--remove"@) ==> command_of(arg) == Ok::<Option<LegacyCommand>, Seq<char>>(Some(LegacyCommand::Remove)),
        (lower(arg) == "-d"@ || lower(arg) == "--dump"@) ==> command_of(arg) == Ok::<Option<LegacyCommand>, Seq<char>>(Some(LegacyCommand::Dump)),
        lower(arg) == "--heapdump"@ ==> command_of(arg) == Ok::<Option<LegacyCommand>, Seq<char>>(Some(LegacyCommand::HeapDump)),
        (lower(arg) == "-q"@ || lower(arg) == "--query"@) ==> command_of(arg) == Ok::<Option<LegacyCommand>, Seq<char>>(Some(LegacyCommand::Query { silent: false })),
        (lower(arg) == "-qs"@ || lower(arg) == "--querysilent"@) ==> command_of(arg) == Ok::<Option<LegacyCommand>, Seq<char>>(Some(LegacyCommand::Query { silent: true })),
        (lower(arg) == "-v"@ || lower(arg) == "--version"@) ==> command_of(arg) == Ok::<Option<LegacyCommand>, Seq<char>>(Some(LegacyCommand::Version)),
        (lower(arg) == "-?"@ || lower(arg) == "-h"@ || lower(arg) == "--help"@) ==> command_of(arg) == Ok::<Option<LegacyCommand>, Seq<char>>(Some(LegacyCommand::Help)),
        (starts_with(lower(arg), "-l="@) && parse_u32_spec(lower(arg).skip(3)) == Some(n)) ==> command_of(arg) == Ok::<Option<LegacyCommand>, Seq<char>>(Some(LegacyCommand::ControlCode(n))),
{
    reveal_strlit("-c");
    reveal_strlit("--console");
    reveal_strlit("-s");
    reveal_strlit("--service");
    reveal_strlit("-t");
    reveal_strlit("--start");
    reveal_strlit("-a");
    reveal_strlit("--pause");
    reveal_strlit("-e");
    reveal_strlit("--resume");
    reveal_strlit("-p");
    reveal_strlit("--stop");
    reveal_strlit("-i");
    reveal_strlit("--install");
    reveal_strlit("-it");
    reveal_strlit("--installstart");
    reveal_strlit("-r");
    reveal_strlit("--remove");
    reveal_strlit("-d");
    reveal_strlit("--dump");
    reveal_strlit("--heapdump");
    reveal_strlit("-q");
    reveal_strlit("--query");
    reveal_strlit("-qs");
    reveal_strlit("--querysilent");
    reveal_strlit("-v");
    reveal_strlit("--version");
    reveal_strlit("-?");
    reveal_strlit("-h");
    reveal_strlit("--help");
    reveal_strlit("-l=");
    reveal_strlit("--controlcode=");
    assert("-c"@[1] == 'c');
    assert("--console"@[2] == 'c' && "--console"@[3] == 'o');
    assert("-s"@[1] == 's');
    assert("--service"@[2] == 's' && "--service"@[3] == 'e');
    assert("-t"@[1] == 't');
    assert("--start"@[2] == 's' && "--start"@[3] == 't');
    assert("-a"@[1] == 'a');
    assert("--pause"@[2] == 'p' && "--pause"@[3] == 'a');
    assert("-e"@[1] == 'e');
    assert("--resume"@[2] == 'r' && "--resume"@[3] == 'e' && "--resume"@[4] == 's');
    assert("-p"@[1] == 'p');
    assert("--stop"@[2] == 's' && "--stop"@[3] == 't');
    assert("-i"@[1] == 'i');
    assert("--install"@[2] == 'i' && "--install"@[3] == 'n');
    assert("-it"@[1] == 'i' && "-it"@[2] == 't');
    assert("--installstart"@[2] == 'i' && "--installstart"@[3] == 'n');
    assert("-r"@[1] == 'r');
    assert("--remove"@[2] == 'r' && "--remove"@[3] == 'e' && "--remove"@[4] == 'm');
    assert("-d"@[1] == 'd');
    assert("--dump"@[2] == 'd' && "--dump"@[3] == 'u');
    assert("--heapdump"@[2] == 'h' && "--heapdump"@[3] == 'e');
    assert("-q"@[1] == 'q');
    assert("--query"@[2] == 'q' && "--query"@[3] == 'u');
    assert("-qs"@[1] == 'q' && "-qs"@[2] == 's');
    assert("--querysilent"@[2] == 'q' && "--querysilent"@[3] == 'u');
    assert("-v"@[1] == 'v');
    assert("--version"@[2] == 'v' && "--version"@[3] == 'e');
    assert("-?"@[1] == '?');
    assert("-h"@[1] == 'h');
    assert("--help"@[2] == 'h' && "--help"@[3] == 'e');
}

pub fn parse_command(argument: &str) -> (r: Result<Option<LegacyCommand>, Error>)
    ensures
        match command_of(argument@) {
            Ok(c) => r == Ok::<Option<LegacyCommand>, Error>(c),
            Err(m) => r matches Err(Error::Cli(e)) && e@ == m,
        },
{
    let cs = chars_of(argument);
    let l = to_lower(&cs);
    let named = |a: &str, b: &str| -> (x: bool)
        ensures
            x == (l@ == a@ || l@ == b@),
        { chars_eq_str(&l, a) || chars_eq_str(&l, b) };
    if named("-c", "--console") {
        Ok(Some(LegacyCommand::Console))
    } else if named("-s", "--service") {
        Ok(Some(LegacyCommand::Service))
    } else if named("-t", "--start") {
        Ok(Some(LegacyCommand::Start))
    } else if named("-a", "--pause") {
        Ok(Some(LegacyCommand::Pause))
    } else if named("-e", "--resume") {
        Ok(Some(LegacyCommand::Resume))
    } else if named("-p", "--stop") {
        Ok(Some(LegacyCommand::Stop))
    } else if named("-i", "--install") {
        Ok(Some(LegacyCommand::Install))
    } else if named("-it", "--installstart") {
        Ok(Some(LegacyCommand::InstallStart))
    } else if named("-r", "--remove") {
        Ok(Some(LegacyCommand::Remove))
    } else if named("-d", "--dump") {
        Ok(Some(LegacyCommand::Dump))
    } else if chars_eq_str(&l, "--heapdump") {
        Ok(Some(LegacyCommand::HeapDump))
    } else if named("-q", "--query") {
        Ok(Some(LegacyCommand::Query { silent: false }))
    } else if named("-qs", "--querysilent") {
        Ok(Some(LegacyCommand::Query { silent: true }))
    } else if named("-v", "--version") {
        Ok(Some(LegacyCommand::Version))
    } else if named("-?", "--help") || chars_eq_str(&l, "-h") {
        Ok(Some(LegacyCommand::Help))
    } else {
        proof {
            reveal_strlit("-l=");
            reveal_strlit("--controlcode=");
        }
        let code = if starts_with_str(&l, "-l=") {
            let c = slice(&l, 3, l.len());
            assert(c@ =~= l@.skip(3));
            Some(c)
        } else if starts_with_str(&l, "--controlcode=") {
            let c = slice(&l, 14, l.len());
            assert(c@ =~= l@.skip(14));
            Some(c)
        } else {
            None
        };
        match code {
            None => Ok(None),
            Some(c) => match parse_u32(&c) {
                Some(n) => Ok(Some(LegacyCommand::ControlCode(n))),
                None => {
                    let mut m = chars_of("invalid control code: ");
                    crate::text::append(&mut m, &c);
                    Err(Error::Cli(string_of(&m)))
                },
            },
        }
    }
}

pub open spec fn has_equals(s: Seq<char>) -> bool {
    s.contains('=')
}

/// Index of the first `--`, or the number of arguments.
pub open spec fn separator_index(args: Seq<Seq<char>>) -> int
    decreases args.len(),
{
    if args.len() == 0 {
        0
    } else if args[0] == "--"@ {
        0
    } else {
        1 + separator_index(args.drop_first())
    }
}

/// The model of a command line: command, configuration file, overrides and
/// application arguments.
pub type CliModel = (LegacyCommand, Seq<char>, Seq<Seq<char>>, Seq<Seq<char>>);

/// How a command line is read:
///
/// 1. arguments after the first `--` go to the application;
/// 2. the first argument may name a command (otherwise the command is
///    console, and an unknown argument starting with `-` is an error);
/// 3. unless the command is `--version` or `--help`, the next argument
///    names the configuration file when it holds no `=`; without an
///    explicit command a `name=value` there is an error;
/// 4. every remaining argument must be a `name=value` override.
pub open spec fn parsed_cli(args: Seq<Seq<char>>) -> Result<CliModel, Seq<char>> {
    let sep = separator_index(args);
    let wrapper = args.take(sep);
    let application = if sep < args.len() {
        args.skip(sep + 1)
    } else {
        Seq::empty()
    };
    match cli_head(wrapper) {
        Err(m) => Err(m),
        Ok((command, cursor, explicit)) => match cli_configuration(wrapper, command, cursor, explicit) {
            Err(m) => Err(m),
            Ok((configuration, start)) => {
                let overrides = wrapper.skip(start);
                match first_without_equals(overrides) {
                    Some(i) => Err("expected a name=value property, found: "@ + overrides[i]),
                    None => Ok((command, configuration, overrides, application)),
                }
            },
        },
    }
}

/// The command: named by the first argument, or console.
pub open spec fn cli_head(wrapper: Seq<Seq<char>>) -> Result<(LegacyCommand, int, bool), Seq<char>> {
    if wrapper.len() == 0 {
        Ok((LegacyCommand::Console, 0, false))
    } else {
        match command_of(wrapper[0]) {
            Err(m) => Err(m),
            Ok(Some(c)) => Ok((c, 1, true)),
            Ok(None) => if starts_with(wrapper[0], "-"@) {
                Err("unknown command: "@ + wrapper[0])
            } else {
                Ok((LegacyCommand::Console, 0, false))
            },
        }
    }
}

/// The configuration file and the position of the first override.
pub open spec fn cli_configuration(wrapper: Seq<Seq<char>>, command: LegacyCommand, cursor: int, explicit: bool) -> Result<(Seq<char>, int), Seq<char>> {
    let needs = !(command is Version || command is Help);
    if needs && cursor < wrapper.len() {
        if !has_equals(wrapper[cursor]) {
            Ok((wrapper[cursor], cursor + 1))
        } else if !explicit {
            Err("missing configuration file"@)
        } else {
            Ok(("wrapper.conf"@, cursor))
        }
    } else {
        Ok(("wrapper.conf"@, cursor))
    }
}

/// The first argument without `=`.
pub open spec fn first_without_equals(os: Seq<Seq<char>>) -> Option<int>
    decreases os.len(),
{
    if os.len() == 0 {
        None
    } else if !has_equals(os[0]) {
        Some(0)
    } else {
        match first_without_equals(os.drop_first()) {
            Some(i) => Some(i + 1),
            None => None,
        }
    }
}

proof fn lemma_first_without_equals(os: Seq<Seq<char>>, k: int)
    requires
        0 <= k <= os.len(),
        forall|j: int| 0 <= j < k ==> has_equals(#[trigger] os[j]),
        k == os.len() || !has_equals(os[k]),
    ensures
        first_without_equals(os) == if k < os.len() {
            Some(k)
        } else {
            None::<int>
        },
    decreases k,
{
    if k > 0 {
        let rest = os.drop_first();
        assert forall|j: int| 0 <= j < k - 1 implies has_equals(#[trigger] rest[j]) by {
            assert(rest[j] == os[j + 1]);
        }
        if k < os.len() {
            assert(rest[k - 1] == os[k]);
        }
        lemma_first_without_equals(rest, k - 1);
    }
}

pub open spec fn texts(v: Seq<String>) -> Seq<Seq<char>> {
    v.map_values(|s: String| s@)
}

proof fn lemma_all_have_equals(os: Seq<Seq<char>>)
    ensures
        first_without_equals(os) is None <==> forall|j: int| 0 <= j < os.len() ==> has_equals(
            #[trigger] os[j],
        ),
    decreases os.len(),
{
    if os.len() > 0 {
        let rest = os.drop_first();
        lemma_all_have_equals(rest);
        if first_without_equals(os) is None {
            assert forall|j: int| 0 <= j < os.len() implies has_equals(#[trigger] os[j]) by {
                if j > 0 {
                    assert(os[j] == rest[j - 1]);
                }
            }
        }
        if forall|j: int| 0 <= j < os.len() ==> has_equals(#[trigger] os[j]) {
            assert forall|j: int| 0 <= j < rest.len() implies has_equals(#[trigger] rest[j]) by {
                assert(rest[j] == os[j + 1]);
            }
        }
    }
}

/// The arguments before the first `--`.
pub open spec fn wrapper_args(args: Seq<Seq<char>>) -> Seq<Seq<char>> {
    args.take(separator_index(args))
}

/// How many leading wrapper arguments are taken as the command and the
/// configuration file: the command when the first argument names one, then
/// the next argument when the command reads a configuration and that
/// argument has no `=`.
pub open spec fn consumed(w: Seq<Seq<char>>) -> int {
    let (command, head) = if w.len() > 0 && command_of(w[0]) is Ok && command_of(w[0])->Ok_0 is Some {
        (command_of(w[0])->Ok_0->Some_0, 1int)
    } else {
        (LegacyCommand::Console, 0int)
    };
    let needs = !(command is Version || command is Help);
    if needs && head < w.len() && !has_equals(w[head]) {
        head + 1
    } else {
        head
    }
}

/// The ways a command line is refused, all as `Error::Cli` by
/// `Cli::parse`: a malformed control code in the first argument; a first
/// argument that starts with `-` but names no command; a first argument
/// with `=` where the configuration file belongs; and an argument after the
/// command and configuration (before `--`) that is no `name=value`. The
/// command line is accepted exactly when none of these holds.
pub proof fn lemma_cli_parse_errors(args: Seq<Seq<char>>)
    ensures
        ({
            let w = wrapper_args(args);
            let bad_code = w.len() > 0 && command_of(w[0]) is Err;
            let unknown = w.len() > 0 && command_of(w[0]) == Ok::<Option<LegacyCommand>, Seq<char>>(None)
                && starts_with(w[0], "-"@);
            let misplaced = w.len() > 0 && command_of(w[0]) == Ok::<Option<LegacyCommand>, Seq<char>>(None)
                && !starts_with(w[0], "-"@) && has_equals(w[0]);
            &&& bad_code ==> parsed_cli(args) == Err::<CliModel, Seq<char>>(command_of(w[0])->Err_0)
            &&& unknown ==> parsed_cli(args) == Err::<CliModel, Seq<char>>("unknown command: "@ + w[0])
            &&& misplaced ==> parsed_cli(args) == Err::<CliModel, Seq<char>>("missing configuration file"@)
            &&& (parsed_cli(args) is Ok <==> !bad_code && !unknown && !misplaced && forall|i: int|
                consumed(w) <= i < w.len() ==> has_equals(#[trigger] w[i]))
        }),
{
    let w = wrapper_args(args);
    let start = consumed(w);
    if 0 <= start <= w.len() {
        let os = w.skip(start);
        lemma_all_have_equals(os);
        assert((forall|j: int| 0 <= j < os.len() ==> has_equals(#[trigger] os[j])) <==> (forall|i: int|
            start <= i < w.len() ==> has_equals(#[trigger] w[i]))) by {
            if forall|j: int| 0 <= j < os.len() ==> has_equals(#[trigger] os[j]) {
                assert forall|i: int| start <= i < w.len() implies has_equals(#[trigger] w[i]) by {
                    assert(w[i] == os[i - start]);
                }
            }
            if forall|i: int| start <= i < w.len() ==> has_equals(#[trigger] w[i]) {
                assert forall|j: int| 0 <= j < os.len() implies has_equals(#[trigger] os[j]) by {
                    assert(os[j] == w[j + start]);
                }
            }
        }
    }
}

proof fn lemma_separator(args: Seq<Seq<char>>, k: int)
    requires
        0 <= k <= args.len(),
        forall|j: int| 0 <= j < k ==> args[j] != "--"@,
        k == args.len() || args[k] == "--"@,
    ensures
        separator_index(args) == k,
    decreases k,
{
    if k > 0 {
        lemma_separator(args.drop_first(), k - 1);
    }
}

fn copy_texts(v: &[String], start: usize, end: usize) -> (r: Vec<String>)
    requires
        start <= end <= v.len(),
    ensures
        texts(r@) == texts(v@).subrange(start as int, end as int),
{
    let mut out: Vec<String> = Vec::new();
    let mut i: usize = start;
    while i < end
        invariant
            start <= i <= end <= v.len(),
            texts(out@) == texts(v@).subrange(start as int, i as int),
        decreases end - i,
    {
        let ghost before = out@;
        out.push(v[i].clone());
        proof {
            assert(texts(out@) =~= texts(before).push(v@[i as int]@));
            assert(texts(v@).subrange(start as int, i + 1) =~= texts(v@).subrange(start as int, i as int).push(
                texts(v@)[i as int],
            ));
        }
        i += 1;
    }
    out
}

impl Cli {
    /// Reads a command line (without the program name).
    pub fn parse(arguments: Vec<String>) -> (r: Result<Cli, Error>)
        ensures
            match parsed_cli(texts(arguments@)) {
                Ok((command, configuration, overrides, application)) => r matches Ok(c) && c.command
                    == command && c.configuration@ == configuration && texts(c.overrides@) == overrides
                    && texts(c.application_args@) == application,
                Err(m) => r matches Err(Error::Cli(e)) && e@ == m,
            },
    {
        let ghost args = texts(arguments@);
        let mut sep: usize = 0;
        while sep < arguments.len() && !chars_eq_str(&chars_of(arguments[sep].as_str()), "--")
            invariant
                sep <= arguments.len(),
                args == texts(arguments@),
                forall|j: int| 0 <= j < sep ==> args[j] != "--"@,
            decreases arguments.len() - sep,
        {
            assert(args[sep as int] == arguments@[sep as int]@);
            sep += 1;
        }
        proof {
            if sep < arguments.len() {
                assert(args[sep as int] == arguments@[sep as int]@);
            }
            lemma_separator(args, sep as int);
        }
        let application = if sep < arguments.len() {
            let a = copy_texts(&arguments, sep + 1, arguments.len());
            assert(texts(a@) =~= args.skip(sep + 1));
            a
        } else {
            Vec::new()
        };
        let ghost wrapper = args.take(sep as int);
        let mut cursor: usize = 0;
        let mut explicit = false;
        let command = if sep > 0 {
            assert(wrapper[0] == arguments@[0]@);
            assert(wrapper.len() > 0);
            match parse_command(arguments[0].as_str()) {
                Err(e) => return Err(e),
                Ok(Some(c)) => {
                    cursor = 1;
                    explicit = true;
                    c
                },
                Ok(None) => {
                    let first = chars_of(arguments[0].as_str());
                    if starts_with_str(&first, "-") {
                        let mut m = chars_of("unknown command: ");
                        append_str(&mut m, arguments[0].as_str());
                        return Err(Error::Cli(string_of(&m)));
                    }
                    LegacyCommand::Console
                },
            }
        } else {
            LegacyCommand::Console
        };
        assert(cli_head(wrapper) == Ok::<(LegacyCommand, int, bool), Seq<char>>((command, cursor as int, explicit)));
        let ghost head_cursor = cursor as int;
        let mut configuration = owned("wrapper.conf");
        proof {
            reveal_strlit("wrapper.conf");
        }
        if command.needs_configuration() && cursor < sep {
            assert(wrapper[cursor as int] == arguments@[cursor as int]@);
            let candidate = chars_of(arguments[cursor].as_str());
            if !contains_char(&candidate, '=') {
                configuration = arguments[cursor].clone();
                cursor += 1;
            } else if !explicit {
                return Err(Error::Cli(owned("missing configuration file")));
            }
        }
        assert(cli_configuration(wrapper, command, head_cursor, explicit) == Ok::<(Seq<char>, int), Seq<char>>(
            (configuration@, cursor as int),
        ));
        let ghost overrides_spec = wrapper.skip(cursor as int);
        let mut k: usize = cursor;
        while k < sep
            invariant
                cursor <= k <= sep <= arguments.len(),
                args == texts(arguments@),
                wrapper == args.take(sep as int),
                overrides_spec == wrapper.skip(cursor as int),
                separator_index(args) == sep,
                cli_head(wrapper) == Ok::<(LegacyCommand, int, bool), Seq<char>>((command, head_cursor, explicit)),
                cli_configuration(wrapper, command, head_cursor, explicit) == Ok::<(Seq<char>, int), Seq<char>>(
                    (configuration@, cursor as int),
                ),
                forall|j: int| 0 <= j < k - cursor ==> has_equals(#[trigger] overrides_spec[j]),
            decreases sep - k,
        {
            assert(overrides_spec[k - cursor] == arguments@[k as int]@);
            let text = chars_of(arguments[k].as_str());
            if !contains_char(&text, '=') {
                let mut m = chars_of("expected a name=value property, found: ");
                append_str(&mut m, arguments[k].as_str());
                proof {
                    let i = (k - cursor) as int;
                    assert(!has_equals(overrides_spec[i]));
                    lemma_first_without_equals(overrides_spec, i);
                }
                return Err(Error::Cli(string_of(&m)));
            }
            k += 1;
        }
        proof {
            lemma_first_without_equals(overrides_spec, overrides_spec.len() as int);
        }
        let overrides = copy_texts(&arguments, cursor, sep);
        assert(texts(overrides@) =~= overrides_spec);
        Ok(Cli { command, configuration, overrides, application_args: application })
    }

    /// The configuration file: as given when absolute, otherwise in the
    /// executable's directory.
    pub fn resolve_configuration(&self, executable_directory: &str) -> (r: String)
        ensures
            r@ == if crate::paths::absolute(self.configuration@) {
                self.configuration@
            } else {
                crate::paths::joined(executable_directory@, self.configuration@)
            },
    {
        if crate::paths::is_absolute(self.configuration.as_str()) {
            self.configuration.clone()
        } else {
            crate::paths::join(executable_directory, self.configuration.as_str())
        }
    }
}

/// Whether an override sets the service password: its name, the trimmed
/// text before the first `=`, as the configuration reads it.
pub open spec fn sets_password(o: Seq<char>) -> bool {
    match property_split(o) {
        Some((n, _)) => n == "wrapper.ntservice.password"@,
        None => false,
    }
}

/// The overrides other than those that set `wrapper.ntservice.password`.
pub open spec fn without_password(os: Seq<Seq<char>>) -> Seq<Seq<char>>
    decreases os.len(),
{
    if os.len() == 0 {
        Seq::empty()
    } else {
        let prev = without_password(os.drop_last());
        if sets_password(os.last()) {
            prev
        } else {
            prev.push(os.last())
        }
    }
}

/// The arguments stored in the `ImagePath` of an installed service: the
/// hidden service command, the configuration, the overrides except the
/// service password, and the application arguments after `--`.
pub open spec fn launch_arguments(cli: Cli) -> Seq<Seq<char>> {
    seq!["-s"@, cli.configuration@] + without_password(texts(cli.overrides@)) + if cli.application_args@.len() > 0 {
        seq!["--"@] + texts(cli.application_args@)
    } else {
        Seq::empty()
    }
}

pub fn installed_launch_arguments(cli: &Cli) -> (r: Vec<String>)
    ensures
        texts(r@) == launch_arguments(*cli),
{
    let mut out: Vec<String> = Vec::new();
    out.push(owned("-s"));
    out.push(cli.configuration.clone());
    let ghost os = texts(cli.overrides@);
    let mut i: usize = 0;
    assert(texts(out@) =~= seq!["-s"@, cli.configuration@]);
    assert(os.take(0) =~= Seq::<Seq<char>>::empty());
    while i < cli.overrides.len()
        invariant
            i <= cli.overrides.len(),
            os == texts(cli.overrides@),
            texts(out@) == seq!["-s"@, cli.configuration@] + without_password(os.take(i as int)),
        decreases cli.overrides.len() - i,
    {
        proof {
            assert(os.take(i + 1).drop_last() =~= os.take(i as int));
            assert(os.take(i + 1).last() == os[i as int]);
            assert(os[i as int] == cli.overrides@[i as int]@);
        }
        let text = chars_of(cli.overrides[i].as_str());
        let ghost before = out@;
        let password = match split_property(&text) {
            Some((name, _)) => chars_eq_str(&name, "wrapper.ntservice.password"),
            None => false,
        };
        if !password {
            out.push(cli.overrides[i].clone());
            assert(texts(out@) =~= texts(before).push(os[i as int]));
        }
        assert(texts(out@) =~= seq!["-s"@, cli.configuration@] + without_password(os.take(i + 1)));
        i += 1;
    }
    assert(os.take(cli.overrides.len() as int) =~= os);
    if cli.application_args.len() > 0 {
        let ghost before = texts(out@);
        out.push(owned("--"));
        let mut k: usize = 0;
        while k < cli.application_args.len()
            invariant
                k <= cli.application_args.len(),
                texts(out@) == before + seq!["--"@] + texts(cli.application_args@).take(k as int),
            decreases cli.application_args.len() - k,
        {
            let ghost b = out@;
            out.push(cli.application_args[k].clone());
            proof {
                assert(texts(out@) =~= texts(b).push(cli.application_args@[k as int]@));
                assert(texts(cli.application_args@).take(k + 1) =~= texts(cli.application_args@).take(
                    k as int,
                ).push(cli.application_args@[k as int]@));
            }
            k += 1;
        }
        assert(texts(cli.application_args@).take(cli.application_args.len() as int) =~= texts(
            cli.application_args@,
        ));
    } else {
        assert(texts(out@) =~= texts(out@) + Seq::<Seq<char>>::empty());
    }
    out
}

/// The command and property reference printed by `--help`.
pub const HELP: &'static str = "Usage:
  wrapper.exe <command> <configuration file> [name=value ...] [-- <application args>]
  wrapper.exe <configuration file> [name=value ...] [-- <application args>]
  wrapper.exe <command>            (the configuration defaults to wrapper.conf)
  wrapper.exe                      (the same as -c wrapper.conf)

Commands:
  -c, --console           Run the Java application in this console
  -s, --service           Run as a Windows service (used by the service manager)
  -t, --start             Start the installed service
  -a, --pause             Pause the service when it is pausable
  -e, --resume            Resume a paused service
  -p, --stop              Stop the installed service
  -i, --install           Install the service described by the configuration
  -it, --installstart     Install the service, then start it
  -r, --remove            Stop and remove the service
  -l=<code>, --controlcode=<code>
                          Send a user control code (128 to 255) to the service
  -d, --dump              Ask the running service for a thread dump
  --heapdump              Ask the running service for an HPROF heap dump
  -q, --query             Print the service state; the exit code is a status mask
  -qs, --querysilent      Return the status mask without printing
  -v, --version           Print the product banner
  -?, -h, --help          Print this reference; no configuration is read
  --                      Pass the remaining arguments to the Java application

Status mask: 1 installed, 2 running, 4 interactive, 8 automatic start,
16 manual start, 32 disabled, 64 paused.

Configuration syntax:
  name=value              A property; a # starts a comment, ## is a literal #
  set.NAME=value          Define an environment variable for the file and the JVM
  set.default.NAME=value  Define it only when it is not already defined
  %NAME%                  Expand an environment variable inside a value
  #include <file>         Read another file; missing optional files are skipped
  #include.required <file> and #include.debug <file>
  #encoding=<charset>     Encoding of the file, on its first line
  Relative paths are resolved from the directory of wrapper.exe.
  name=value arguments on the command line override the file.

Java launch:
  wrapper.java.command                 Java executable
  wrapper.java.command.loglevel        Level at which the command line is logged
  wrapper.java.mainclass               Main class: a bundled launcher or your own class
  wrapper.java.classpath.<n>           Classpath entries, from 1 upwards (dir/* allowed)
  wrapper.java.library.path.<n>        java.library.path entries
  wrapper.java.additional.<n>          Extra JVM options
  wrapper.java.additional.auto_bits    Accepted for compatibility
  wrapper.java.initmemory              Initial heap in megabytes
  wrapper.java.maxmemory               Maximum heap in megabytes
  wrapper.app.parameter.<n>            Arguments of the application
  wrapper.working.dir                  Working directory of the JVM
  wrapper.ignore_sequence_gaps         Keep reading numbered properties past a gap
  wrapper.native_library               Accepted; no native library is loaded

Bundled launchers (package io.github.jayyanez.jss.bridge):
  SimpleApp       Runs the main method of the class named by the first parameter
  StartStopApp    Runs a start class and, on stop, the main method of a stop class
  JarApp          Runs the main class named in the manifest of a JAR
  ServiceListener Interface for applications that handle start, stop and controls

Supervision:
  wrapper.startup.timeout              Seconds for the application to report started
  wrapper.startup.delay                Seconds to wait before the first launch
  wrapper.startup.delay.console        The same, in console mode
  wrapper.startup.delay.service        The same, as a service
  wrapper.shutdown.timeout             Seconds for the JVM to stop
  wrapper.ping.interval                Seconds between pings
  wrapper.ping.timeout                 Seconds without an answer before a restart
  wrapper.cpu.timeout                  Accepted for compatibility
  wrapper.restart.delay                Seconds between a JVM exit and the next launch
  wrapper.disable_restarts             Never restart the JVM
  wrapper.disable_restarts.automatic   Never restart after a failure
  wrapper.max_failed_invocations       Failed launches in a row before giving up
  wrapper.successful_invocation_time   Seconds after which a launch counts as successful
  wrapper.on_exit.<n>                  SHUTDOWN, RESTART or PAUSE for exit code n
  wrapper.on_exit.default              The same, for every other exit code
  wrapper.request_thread_dump_on_failed_jvm_exit        Dump threads before killing a hung JVM
  wrapper.request_thread_dump_on_failed_jvm_exit.delay  Seconds to wait after that dump
  wrapper.filter.trigger.<n>           Text that triggers filter n in the JVM output
  wrapper.filter.action.<n>            NONE, DEBUG, DUMP, GC, RESTART, SHUTDOWN, PAUSE, RESUME
  wrapper.filter.allow_wildcards.<n>   Treat * and ? in the trigger as wildcards
  wrapper.filter.message.<n>           Message logged when filter n matches
  wrapper.pausable                     The service can be paused
  wrapper.pausable.stop_jvm            Stop the JVM while paused
  wrapper.pause_on_startup             Start in the paused state
  wrapper.debug                        Debug logging and -Dwrapper.debug=TRUE
  wrapper.disable_console_input        Passed to the bridge
  wrapper.listener.force_stop          Passed to the bridge
  wrapper.use_system_time              Passed to the bridge
  wrapper.disable_shutdown_hook        Passed to the bridge

Files and channel:
  wrapper.pidfile                      File that holds the PID of wrapper.exe
  wrapper.pidfile.strict               Refuse to start when that file exists
  wrapper.java.pidfile                 File that holds the PID of the JVM
  wrapper.java.idfile                  File that holds the number of the JVM invocation
  wrapper.port                         Port of the control channel
  wrapper.port.min, wrapper.port.max   Port range of the control channel
  wrapper.jvm.port                     Port of the JVM side of the channel
  wrapper.jvm.port.min, wrapper.jvm.port.max  Port range of the JVM side
  wrapper.internal.namedpipe           Accepted for compatibility
  wrapper.license.*                    Accepted and ignored

Logging:
  wrapper.logfile                      Log file
  wrapper.logfile.format               Columns: L level, P source, D thread, T time,
                                       Z time with milliseconds, U uptime, M message
  wrapper.logfile.loglevel             Lowest level written to the file
  wrapper.logfile.rollmode             SIZE, WRAPPER, JVM, SIZE_OR_WRAPPER, SIZE_OR_JVM, NONE
  wrapper.logfile.maxsize              Size at which the file rolls over (k, m, g)
  wrapper.logfile.maxfiles             Rolled files to keep; 0 keeps all
  wrapper.console.format               Columns of console records
  wrapper.console.loglevel             Lowest level shown on the console
  wrapper.console.flush                Flush the console after each record
  wrapper.console.title                Title of the console window
  wrapper.console.title.windows        The same, on Windows
  wrapper.syslog.loglevel              Lowest level sent to the event log

Windows service:
  wrapper.ntservice.name               Service name
  wrapper.ntservice.displayname        Display name
  wrapper.ntservice.description        Description
  wrapper.ntservice.starttype          AUTO_START, DEMAND_START or DISABLED
  wrapper.ntservice.dependency.<n>     Services (or +groups) to start first
  wrapper.ntservice.account            Account to run as
  wrapper.ntservice.password           Its password; never stored in the command line
  wrapper.ntservice.interactive        Interact with the desktop
  wrapper.ntservice.generate_console   Allocate a hidden console
  wrapper.ntservice.pausable           The service can be paused
  wrapper.ntservice.pausable.stop_jvm  Stop the JVM while paused
  wrapper.thread_dump_control_code     Control code that requests a thread dump

Java Service Steward extensions:
  jss.threaddump.method                AUTO, BREAK or JCMD
  jss.threaddump.timeout               Seconds for a jcmd thread dump
  jss.heapdump.control_code            Control code that requests a heap dump (254)
  jss.heapdump.directory               Directory of heap dumps
  jss.heapdump.timeout                 Seconds for a heap dump
  jss.java.job_object                  Place the JVM in a job object
";

/// The output of `--help`: the version text, an empty line, the reference.
pub fn help_text() -> (r: String)
    ensures
        r@ == crate::banner() + "\n"@ + crate::PRODUCT_DESCRIPTION@ + "\n"@ + crate::CONFIG_FORMAT_NOTE@
            + "\n"@ + "\n"@ + HELP@,
{
    let v = crate::version_text();
    let mut out = chars_of(v.as_str());
    append_str(&mut out, "\n");
    append_str(&mut out, HELP);
    string_of(&out)
}

} // verus!
