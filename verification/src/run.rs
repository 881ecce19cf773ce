//! Running a command: what is run, and what is recorded of the run.

use vstd::prelude::*;
use vstd::string::StringExecFns;
use crate::storage::{RunEntry, Timestamp};
use crate::text::{is_blank, is_blank_text, join, joined, views};

verus! {

/// A process to start: the program, its arguments, and the command line that
/// is recorded for it.
#[derive(Debug)]
pub struct Invocation {
    pub program: String,
    pub args: Vec<String>,
    pub cmd: String,
}

/// The exit code recorded for a run: the process's exit code, or -1 when it
/// has none (it was ended by a signal).
pub open spec fn recorded_exit(code: Option<i32>) -> i32 {
    match code {
        Some(c) => c,
        None => -1i32,
    }
}

impl Invocation {
    /// Running the words of `command` directly: the first is the program, the
    /// rest its arguments, and the words joined by single spaces are recorded.
    pub fn direct(command: &[String]) -> (r: Invocation)
        requires
            command@.len() > 0,
        ensures
            r.program == command@[0],
            r.args@ == command@.drop_first(),
            r.cmd@ == joined(views(command@), " "@),
    {
        let mut args: Vec<String> = Vec::new();
        let mut i: usize = 1;
        while i < command.len()
            invariant
                1 <= i <= command.len(),
                args@ == command@.subrange(1, i as int),
            decreases command.len() - i,
        {
            args.push(command[i].clone());
            i = i + 1;
            assert(args@ =~= command@.subrange(1, i as int));
        }
        assert(command@.drop_first() =~= command@.subrange(1, command@.len() as int));
        Invocation { program: command[0].clone(), args, cmd: join(command, " ") }
    }

    /// Running the command line `line`: through the shell, `sh -c line`, so
    /// that pipes and quoting in it work, when it holds a command; when it is
    /// blank, `line` itself as the program, which cannot be started (as it
    /// would be run directly). `line` itself is recorded.
    pub fn through_shell(line: &str) -> (r: Invocation)
        ensures
            !is_blank_text(line@) ==> {
                &&& r.program@ == "sh"@
                &&& r.args@.len() == 2
                &&& r.args@[0]@ == "-c"@
                &&& r.args@[1]@ == line@
            },
            is_blank_text(line@) ==> r.program@ == line@ && r.args@.len() == 0,
            r.cmd@ == line@,
    {
        if is_blank(line) {
            return Invocation { program: line.to_owned(), args: Vec::new(), cmd: line.to_owned() };
        }
        let mut args: Vec<String> = Vec::new();
        args.push("-c".to_owned());
        args.push(line.to_owned());
        Invocation { program: "sh".to_owned(), args, cmd: line.to_owned() }
    }
}

/// The exit code recorded for a run is the process's own exit code, unchanged,
/// whatever it is; -1 is recorded only for a process without one.
pub proof fn lemma_recorded_exit_is_the_code(code: Option<i32>)
    ensures
        code matches Some(c) ==> recorded_exit(code) == c,
        code is None ==> recorded_exit(code) == -1,
        recorded_exit(code) == -1 ==> code is None || code == Some(-1i32),
{
}

impl RunEntry {
    /// The record of run `id` of the command line `cmd`, which ended at `at`
    /// with the exit code `code` (`None` when it has none).
    pub fn record(id: u64, cmd: String, code: Option<i32>, at: Timestamp) -> (r: RunEntry)
        ensures
            r.id == id,
            r.cmd == cmd,
            r.exit == recorded_exit(code),
            code matches Some(c) ==> r.exit == c,
            code is None ==> r.exit == -1,
            r.at == at,
    {
        let exit = match code {
            Some(c) => c,
            None => -1,
        };
        RunEntry { id, cmd, exit, at }
    }
}

/// What is saved as a run's log: everything it wrote to standard output,
/// followed by everything it wrote to standard error.
pub fn combined_output(stdout: &[u8], stderr: &[u8]) -> (r: Vec<u8>)
    ensures
        r@ == stdout@ + stderr@,
{
    let mut r: Vec<u8> = Vec::new();
    let mut i: usize = 0;
    while i < stdout.len()
        invariant
            i <= stdout.len(),
            r@ == stdout@.take(i as int),
        decreases stdout.len() - i,
    {
        r.push(stdout[i]);
        i = i + 1;
        assert(r@ =~= stdout@.take(i as int));
    }
    let mut j: usize = 0;
    while j < stderr.len()
        invariant
            j <= stderr.len(),
            r@ == stdout@ + stderr@.take(j as int),
        decreases stderr.len() - j,
    {
        r.push(stderr[j]);
        j = j + 1;
        assert(r@ =~= stdout@ + stderr@.take(j as int));
    }
    assert(stdout@.take(stdout@.len() as int) =~= stdout@);
    assert(stderr@.take(stderr@.len() as int) =~= stderr@);
    r
}

} // verus!
