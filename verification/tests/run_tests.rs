use recap::run::{combined_output, Invocation};
use recap::storage::{RunEntry, Timestamp};

#[test]
fn direct_invocation_splits_program_and_args() {
    let words = vec!["ls".to_string(), "-la".to_string(), "/tmp".to_string()];
    let inv = Invocation::direct(&words);
    assert_eq!(inv.program, "ls");
    assert_eq!(inv.args, vec!["-la".to_string(), "/tmp".to_string()]);
    assert_eq!(inv.cmd, "ls -la /tmp");
    let single = Invocation::direct(&["pwd".to_string()]);
    assert_eq!(single.program, "pwd");
    assert!(single.args.is_empty());
    assert_eq!(single.cmd, "pwd");
}

#[test]
fn shell_invocation_runs_line_through_sh() {
    let inv = Invocation::through_shell("curl -s https://example.com | jq .");
    assert_eq!(inv.program, "sh");
    assert_eq!(inv.args, vec!["-c".to_string(), "curl -s https://example.com | jq .".to_string()]);
    assert_eq!(inv.cmd, "curl -s https://example.com | jq .");
}

#[test]
fn blank_line_is_run_directly() {
    let inv = Invocation::through_shell("");
    assert_eq!(inv.program, "");
    assert!(inv.args.is_empty());
    assert_eq!(inv.cmd, "");
    let spaces = Invocation::through_shell("  ");
    assert_eq!(spaces.program, "  ");
    assert!(spaces.args.is_empty());
    assert_eq!(spaces.cmd, "  ");
}

#[test]
fn record_keeps_exit_code_or_minus_one() {
    let at = Timestamp { secs: 10, nanos: 5 };
    let e = RunEntry::record(4, "make".to_string(), Some(2), at);
    assert_eq!(e, RunEntry { id: 4, cmd: "make".to_string(), exit: 2, at });
    let killed = RunEntry::record(5, "sleep 9".to_string(), None, at);
    assert_eq!(killed.exit, -1);
}

#[test]
fn combined_output_is_stdout_then_stderr() {
    assert_eq!(combined_output(b"out\n", b"err\n"), b"out\nerr\n".to_vec());
    assert_eq!(combined_output(b"", b""), Vec::<u8>::new());
}
