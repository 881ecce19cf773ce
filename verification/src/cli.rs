//! The command line: what the arguments ask for, and the shell integration.

use vstd::prelude::*;
use vstd::string::StringExecFns;
use crate::text::{
    join, joined, lemma_parse_zero_padded, parse_u64, parse_usize, parsed_unsigned, same_text, views,
    zero_padded,
};

verus! {

/// What the command line asks for.
#[derive(Debug)]
pub enum CliCommand {
    /// No arguments: show the usage and fail.
    Usage,
    /// `-h` or `--help`: show the usage.
    Help,
    /// `-l` or `--last`: show the last run and its output.
    Last,
    /// `-n [N]`: list the last `n` runs.
    List { n: usize },
    /// `-s ID` or `--show ID`: show the run with this id; `None` when the id is
    /// missing or not a number, which is an error.
    Show { id: Option<u64> },
    /// `init [SHELL]`: print the shell integration for this shell.
    Init { shell: String },
    /// `--exec WORDS...`: run the command line made of the words, recording it.
    Exec { line: String },
    /// `--mcp`: serve MCP on standard input and output.
    Mcp,
    /// Anything else: the arguments are a command to run and record.
    Run,
}

/// A parsed number that fits in `u64`, as one.
pub open spec fn to_u64(v: Option<nat>) -> Option<u64> {
    match v {
        Some(n) => Some(n as u64),
        None => None,
    }
}

/// The second argument, if there is one.
pub open spec fn second(args: Seq<String>) -> Option<Seq<char>> {
    if args.len() > 1 {
        Some(args[1]@)
    } else {
        None
    }
}

/// The number of runs that `-n` lists: the second argument read as a `usize`,
/// or 10 when it is missing or not one.
pub open spec fn list_count(args: Seq<String>) -> usize {
    match second(args) {
        Some(a) => match parsed_unsigned(a, usize::MAX as nat) {
            Some(v) => v as usize,
            None => 10,
        },
        None => 10,
    }
}

/// The id that `-s` asks for: the second argument read as a `u64`.
pub open spec fn show_id(args: Seq<String>) -> Option<u64> {
    match second(args) {
        Some(a) => to_u64(parsed_unsigned(a, u64::MAX as nat)),
        None => None,
    }
}

/// `-s ID` / `--show ID` reads every id: written in decimal, with or without
/// leading zeros, any `u64` is the id asked for.
pub proof fn lemma_show_reads_every_id(args: Seq<String>, v: u64, width: nat)
    requires
        args.len() >= 2,
        args[1]@ == zero_padded(v as nat, width),
    ensures
        show_id(args) == Some(v),
{
    lemma_parse_zero_padded(v, width);
}

/// `-n N` reads every count: written in decimal, with or without leading
/// zeros, any `usize` is the number of runs listed.
pub proof fn lemma_list_reads_every_count(args: Seq<String>, n: usize, width: nat)
    requires
        args.len() >= 2,
        args[1]@ == zero_padded(n as nat, width),
    ensures
        list_count(args) == n,
{
    lemma_parse_zero_padded(n as u64, width);
}

/// The first argument is one of the options (not a command to run).
pub open spec fn is_option(a: Seq<char>) -> bool {
    ||| a == "-l"@
    ||| a == "--last"@
    ||| a == "-n"@
    ||| a == "-s"@
    ||| a == "--show"@
    ||| a == "-h"@
    ||| a == "--help"@
    ||| a == "init"@
    ||| a == "--exec"@
    ||| a == "--mcp"@
}

proof fn lemma_options_distinct()
    ensures
        "-l"@ != "-n"@,
        "-l"@ != "-s"@,
        "-l"@ != "-h"@,
        "-n"@ != "-s"@,
        "-n"@ != "-h"@,
        "-s"@ != "-h"@,
        "--last"@ != "--show"@,
        "--last"@ != "--help"@,
        "--last"@ != "--exec"@,
        "--show"@ != "--help"@,
        "--show"@ != "--exec"@,
        "--help"@ != "--exec"@,
        "-l"@.len() == 2,
        "-n"@.len() == 2,
        "-s"@.len() == 2,
        "-h"@.len() == 2,
        "--last"@.len() == 6,
        "--show"@.len() == 6,
        "--help"@.len() == 6,
        "--exec"@.len() == 6,
        "init"@.len() == 4,
        "--mcp"@.len() == 5,
{
    reveal_strlit("-l");
    reveal_strlit("-n");
    reveal_strlit("-s");
    reveal_strlit("-h");
    reveal_strlit("--last");
    reveal_strlit("--show");
    reveal_strlit("--help");
    reveal_strlit("--exec");
    reveal_strlit("init");
    reveal_strlit("--mcp");
    assert("-l"@[1] != "-n"@[1]);
    assert("-l"@[1] != "-s"@[1]);
    assert("-l"@[1] != "-h"@[1]);
    assert("-n"@[1] != "-s"@[1]);
    assert("-n"@[1] != "-h"@[1]);
    assert("-s"@[1] != "-h"@[1]);
    assert("--last"@[2] != "--show"@[2]);
    assert("--last"@[2] != "--help"@[2]);
    assert("--last"@[2] != "--exec"@[2]);
    assert("--show"@[2] != "--help"@[2]);
    assert("--show"@[2] != "--exec"@[2]);
    assert("--help"@[2] != "--exec"@[2]);
}

/// Reads the command line `args` (without the program name).
pub fn parse_args(args: &[String]) -> (r: CliCommand)
    ensures
        args@.len() == 0 ==> r is Usage,
        args@.len() > 0 ==> {
            let a = args@[0]@;
            &&& (a == "-l"@ || a == "--last"@) ==> r is Last
            &&& a == "-n"@ ==> r == CliCommand::List { n: list_count(args@) }
            &&& (a == "-s"@ || a == "--show"@) ==> r == CliCommand::Show { id: show_id(args@) }
            &&& (a == "-h"@ || a == "--help"@) ==> r is Help
            &&& a == "init"@ ==> (r matches CliCommand::Init { shell } && shell@ == match second(
                args@,
            ) {
                Some(s) => s,
                None => "bash"@,
            })
            &&& a == "--exec"@ ==> (r matches CliCommand::Exec { line } && line@ == joined(
                views(args@.drop_first()),
                " "@,
            ))
            &&& a == "--mcp"@ ==> r is Mcp
            &&& !is_option(a) ==> r is Run
        },
{
    proof {
        lemma_options_distinct();
    }
    if args.len() == 0 {
        return CliCommand::Usage;
    }
    let a = args[0].as_str();
    if same_text(a, "-l") || same_text(a, "--last") {
        CliCommand::Last
    } else if same_text(a, "-n") {
        let n: usize = if args.len() > 1 {
            match parse_usize(args[1].as_str()) {
                Some(v) => v,
                None => 10,
            }
        } else {
            10
        };
        CliCommand::List { n }
    } else if same_text(a, "-s") || same_text(a, "--show") {
        let id = if args.len() > 1 {
            parse_u64(args[1].as_str())
        } else {
            None
        };
        CliCommand::Show { id }
    } else if same_text(a, "-h") || same_text(a, "--help") {
        CliCommand::Help
    } else if same_text(a, "init") {
        let shell = if args.len() > 1 {
            args[1].clone()
        } else {
            "bash".to_owned()
        };
        CliCommand::Init { shell }
    } else if same_text(a, "--exec") {
        let mut words: Vec<String> = Vec::new();
        let mut i: usize = 1;
        while i < args.len()
            invariant
                1 <= i <= args.len(),
                words@ == args@.subrange(1, i as int),
            decreases args.len() - i,
        {
            words.push(args[i].clone());
            i = i + 1;
            assert(words@ =~= args@.subrange(1, i as int));
        }
        assert(args@.drop_first() =~= args@.subrange(1, args@.len() as int));
        CliCommand::Exec { line: join(words.as_slice(), " ") }
    } else if same_text(a, "--mcp") {
        CliCommand::Mcp
    } else {
        CliCommand::Run
    }
}

/// The text of the function `rec` for bash and zsh: it runs its arguments,
/// as one command line, through `bin --exec`.
pub open spec fn posix_integration(bin: Seq<char>) -> Seq<char> {
    "rec() {\n  local cmd\n  cmd=\"$*\"\n  "@ + bin + " --exec \"$cmd\"\n}"@
}

/// The text of the function `rec` for fish.
pub open spec fn fish_integration(bin: Seq<char>) -> Seq<char> {
    "function rec\n  set -l cmd (string join \" \" $argv)\n  "@ + bin + " --exec \"$cmd\"\nend"@
}

/// The shell integration that `init` prints for `shell`, where `bin` is the
/// path of this program: the function `rec` for bash, zsh and fish; `None`
/// for any other shell, which is an error.
pub fn shell_integration(shell: &str, bin: &str) -> (r: Option<String>)
    ensures
        (shell@ == "bash"@ || shell@ == "zsh"@) ==> (r matches Some(t) && t@ == posix_integration(
            bin@,
        )),
        shell@ == "fish"@ ==> (r matches Some(t) && t@ == fish_integration(bin@)),
        shell@ != "bash"@ && shell@ != "zsh"@ && shell@ != "fish"@ ==> r is None,
{
    proof {
        reveal_strlit("bash");
        reveal_strlit("zsh");
        reveal_strlit("fish");
        assert("bash"@.len() == 4);
        assert("zsh"@.len() == 3);
        assert("fish"@.len() == 4);
        assert("bash"@[0] != "fish"@[0]);
    }
    if same_text(shell, "bash") || same_text(shell, "zsh") {
        let mut t = "rec() {\n  local cmd\n  cmd=\"$*\"\n  ".to_owned();
        t.append(bin);
        t.append(" --exec \"$cmd\"\n}");
        Some(t)
    } else if same_text(shell, "fish") {
        let mut t = "function rec\n  set -l cmd (string join \" \" $argv)\n  ".to_owned();
        t.append(bin);
        t.append(" --exec \"$cmd\"\nend");
        Some(t)
    } else {
        None
    }
}

} // verus!
