use cli_wrapped::shell::{Shell, ShellError, ShellType};

fn lines_of(raw: &[&str]) -> Vec<String> {
    raw.iter().map(|s| s.to_string()).collect()
}

#[test]
fn round_trip_known_repetitions() {
    let lines = lines_of(&["ls", "ls", "ls", "cd /tmp", "cd /tmp", "pwd"]);
    let mut shell = Shell::from(ShellType::Bash);

    let inv = shell.invocation_frequency(&lines);
    assert_eq!(inv.get("ls"), 3);
    assert_eq!(inv.get("cd /tmp"), 2);
    assert_eq!(inv.get("pwd"), 1);
    assert_eq!(inv.len(), 3);

    let cmd = shell.command_frequency(&lines);
    assert_eq!(cmd.get("ls"), 3);
    assert_eq!(cmd.get("cd"), 2);
    assert_eq!(cmd.get("pwd"), 1);
    assert_eq!(cmd.len(), 3);
}

#[test]
fn invocation_count_equals_line_count() {
    let lines = lines_of(&["ls", "pwd", "pwd", "echo done"]);
    let mut shell = Shell::from(ShellType::Zsh);
    assert_eq!(shell.invocation_count, None);
    shell.invocation_frequency(&lines);
    assert_eq!(shell.invocation_count, Some(4));
}

#[test]
fn command_frequency_leaves_the_cached_count_alone() {
    let lines = lines_of(&["ls", "pwd"]);
    let shell = Shell::from(ShellType::Bash);
    shell.command_frequency(&lines);
    assert_eq!(shell.invocation_count, None);
}

#[test]
fn commands_ran_counts_and_caches() {
    let lines = lines_of(&["a", "b", "c"]);
    let mut shell = Shell::from(ShellType::Bash);
    let n = shell.commands_ran(&lines);
    assert_eq!(n, 3);
    assert_eq!(shell.invocation_count, Some(3));
}

#[test]
fn scenario_assignment_prefix_is_filtered() {
    let lines = lines_of(&["echo hi", "echo hi", "FOO=1 echo bye"]);
    let mut shell = Shell::from(ShellType::Bash);

    let inv = shell.invocation_frequency(&lines);
    assert_eq!(inv.get("echo hi"), 2);
    assert_eq!(inv.get("FOO=1 echo bye"), 1);
    assert_eq!(inv.len(), 2);

    let cmd = shell.command_frequency(&lines);
    assert_eq!(cmd.get("echo"), 3);
    assert_eq!(cmd.len(), 1);
}

#[test]
fn assignment_only_line_counts_as_invocation_only() {
    let lines = lines_of(&["FOO=bar"]);
    let mut shell = Shell::from(ShellType::Bash);

    let cmd = shell.command_frequency(&lines);
    assert_eq!(cmd.len(), 0);
    assert_eq!(cmd.get("FOO=bar"), 0);

    let inv = shell.invocation_frequency(&lines);
    assert_eq!(inv.get("FOO=bar"), 1);
    assert_eq!(shell.invocation_count, Some(1));
}

#[test]
fn command_counts_sum_to_classified_lines() {
    // five lines yield a command token, one (the bare assignment) does not
    let lines = lines_of(&["ls", "ls", "cd /tmp", "X=1", "X=1 make", "pwd"]);
    let shell = Shell::from(ShellType::Bash);
    let cmd = shell.command_frequency(&lines);
    let total: usize = cmd.entries().iter().map(|e| e.1).sum();
    assert_eq!(total, 5);
}

#[test]
fn top_commands_and_invocations_ranks_by_count() {
    let lines = lines_of(&["ls", "ls", "ls", "pwd", "pwd", "cd /tmp"]);
    let mut shell = Shell::from(ShellType::Bash);
    let (commands, invocations) = shell.top_commands_and_invocations(&lines);
    assert_eq!(commands, vec!["ls".to_string(), "pwd".to_string(), "cd".to_string()]);
    assert_eq!(invocations, vec!["ls".to_string(), "pwd".to_string(), "cd /tmp".to_string()]);
    assert_eq!(shell.invocation_count, Some(6));
}

#[test]
fn from_custom_remembers_the_path() {
    let shell = Shell::from_custom("/tmp/my_history");
    assert_eq!(shell.invocation_count, None);
    let path = shell.history_path().unwrap();
    assert_eq!(path, "/tmp/my_history".to_string());
}

#[test]
fn history_file_names_per_shell() {
    assert_eq!(ShellType::Bash.history_file_name(), ".bash_history");
    assert_eq!(ShellType::Zsh.history_file_name(), ".zsh_history");
    assert_eq!(ShellType::Bash.name(), "bash");
    assert_eq!(ShellType::Zsh.name(), "zsh");
}

#[test]
fn standard_history_path_is_under_home() {
    match ShellType::Bash.find_history_path() {
        Ok(p) => assert!(p.ends_with("/.bash_history")),
        Err(e) => assert!(e == ShellError::FindError || e == ShellError::InvalidUTF8),
    }
}

#[test]
fn open_failure_is_the_open_error_kind() {
    let e = cli_wrapped::shell::open_failure_error("/no/such/history");
    assert_eq!(e, ShellError::OpenError("/no/such/history".to_string()));
    assert_ne!(e, ShellError::FindError);
    assert_ne!(e, ShellError::ReadError);
    assert_eq!(
        e.message(),
        "failed to open the history file `/no/such/history`".to_string()
    );
}

#[test]
fn error_messages_name_the_failure() {
    assert_eq!(
        ShellError::FindError.message(),
        "failed to find the home directory".to_string()
    );
    assert_eq!(
        ShellError::InvalidUTF8.message(),
        "filename contains invalid UTF-8".to_string()
    );
    assert_eq!(ShellError::ReadError.message(), "failed to read a line".to_string());
    assert_eq!(
        ShellError::ParseError("h".to_string()).message(),
        "failed to parse the history file `h`".to_string()
    );
    assert_eq!(
        ShellError::CountError.message(),
        "for some reason, the command count failed".to_string()
    );
}
