use cli_wrapped::classify::command_of_line;
use cli_wrapped::freq::FrequencyTable;

#[test]
fn plain_command_is_its_own_token() {
    assert_eq!(command_of_line("ls"), Some("ls".to_string()));
    assert_eq!(command_of_line("ls -la /tmp"), Some("ls".to_string()));
}

#[test]
fn assignment_prefixes_are_skipped() {
    assert_eq!(command_of_line("FOO=bar cmd arg"), Some("cmd".to_string()));
    assert_eq!(command_of_line("A=1 B=2 make test"), Some("make".to_string()));
}

#[test]
fn assignment_only_lines_have_no_command() {
    assert_eq!(command_of_line("FOO=bar"), None);
    assert_eq!(command_of_line("A=1 B=2"), None);
}

#[test]
fn blank_lines_have_no_command() {
    assert_eq!(command_of_line(""), None);
    assert_eq!(command_of_line("   "), None);
}

#[test]
fn leading_spaces_are_skipped() {
    assert_eq!(command_of_line("  ls -l"), Some("ls".to_string()));
}

#[test]
fn pipelines_are_not_interpreted() {
    // the split is on spaces only: the first token wins, `|` and `&&` are
    // ordinary arguments
    assert_eq!(command_of_line("ls | wc -l"), Some("ls".to_string()));
    assert_eq!(command_of_line("make && make test"), Some("make".to_string()));
}

#[test]
fn table_counts_each_increment() {
    let mut t = FrequencyTable::new();
    assert_eq!(t.len(), 0);
    t.increment("ls".to_string());
    t.increment("ls".to_string());
    t.increment("pwd".to_string());
    assert_eq!(t.get("ls"), 2);
    assert_eq!(t.get("pwd"), 1);
    assert_eq!(t.get("cd"), 0);
    assert_eq!(t.len(), 2);
}

#[test]
fn top_n_is_capped_and_sorted() {
    let mut t = FrequencyTable::new();
    for _ in 0..3 {
        t.increment("a".to_string());
    }
    for _ in 0..5 {
        t.increment("b".to_string());
    }
    t.increment("c".to_string());

    let top2 = t.top_n(2);
    assert_eq!(top2, vec!["b".to_string(), "a".to_string()]);

    // fewer distinct keys than asked for: all of them, sorted
    let all = t.top_n(10);
    assert_eq!(all.len(), 3);
    assert_eq!(all, vec!["b".to_string(), "a".to_string(), "c".to_string()]);

    let none = t.top_n(0);
    assert_eq!(none.len(), 0);
}

#[test]
fn entries_list_the_table() {
    let mut t = FrequencyTable::new();
    t.increment("ls".to_string());
    t.increment("pwd".to_string());
    t.increment("ls".to_string());
    let entries = t.entries();
    assert_eq!(entries, vec![("ls".to_string(), 2), ("pwd".to_string(), 1)]);
}
