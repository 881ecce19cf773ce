use recap::cli::{parse_args, shell_integration, CliCommand};

fn args(words: &[&str]) -> Vec<String> {
    words.iter().map(|w| w.to_string()).collect()
}

#[test]
fn no_arguments_shows_usage() {
    assert!(matches!(parse_args(&[]), CliCommand::Usage));
}

#[test]
fn options_are_recognised() {
    assert!(matches!(parse_args(&args(&["-l"])), CliCommand::Last));
    assert!(matches!(parse_args(&args(&["--last"])), CliCommand::Last));
    assert!(matches!(parse_args(&args(&["-h"])), CliCommand::Help));
    assert!(matches!(parse_args(&args(&["--help"])), CliCommand::Help));
    assert!(matches!(parse_args(&args(&["--mcp"])), CliCommand::Mcp));
    assert!(matches!(parse_args(&args(&["ls", "-la"])), CliCommand::Run));
    assert!(matches!(parse_args(&args(&["-x"])), CliCommand::Run));
}

#[test]
fn list_count_defaults_to_ten() {
    assert!(matches!(parse_args(&args(&["-n"])), CliCommand::List { n: 10 }));
    assert!(matches!(parse_args(&args(&["-n", "20"])), CliCommand::List { n: 20 }));
    assert!(matches!(parse_args(&args(&["-n", "abc"])), CliCommand::List { n: 10 }));
    assert!(matches!(parse_args(&args(&["-n", "-3"])), CliCommand::List { n: 10 }));
}

#[test]
fn show_needs_an_id() {
    assert!(matches!(parse_args(&args(&["-s", "3"])), CliCommand::Show { id: Some(3) }));
    assert!(matches!(parse_args(&args(&["--show", "007"])), CliCommand::Show { id: Some(7) }));
    assert!(matches!(parse_args(&args(&["-s"])), CliCommand::Show { id: None }));
    assert!(matches!(parse_args(&args(&["-s", "x"])), CliCommand::Show { id: None }));
}

#[test]
fn init_defaults_to_bash() {
    match parse_args(&args(&["init"])) {
        CliCommand::Init { shell } => assert_eq!(shell, "bash"),
        other => panic!("{:?}", other),
    }
    match parse_args(&args(&["init", "fish"])) {
        CliCommand::Init { shell } => assert_eq!(shell, "fish"),
        other => panic!("{:?}", other),
    }
}

#[test]
fn exec_joins_the_rest() {
    match parse_args(&args(&["--exec", "ls -la", "|", "wc"])) {
        CliCommand::Exec { line } => assert_eq!(line, "ls -la | wc"),
        other => panic!("{:?}", other),
    }
    match parse_args(&args(&["--exec"])) {
        CliCommand::Exec { line } => assert_eq!(line, ""),
        other => panic!("{:?}", other),
    }
}

#[test]
fn shell_integration_defines_rec() {
    let bash = shell_integration("bash", "/usr/bin/recap").unwrap();
    assert_eq!(bash, "rec() {\n  local cmd\n  cmd=\"$*\"\n  /usr/bin/recap --exec \"$cmd\"\n}");
    assert_eq!(shell_integration("zsh", "/usr/bin/recap").unwrap(), bash);
    assert_eq!(
        shell_integration("fish", "recap").unwrap(),
        "function rec\n  set -l cmd (string join \" \" $argv)\n  recap --exec \"$cmd\"\nend"
    );
    assert_eq!(shell_integration("powershell", "recap"), None);
}
