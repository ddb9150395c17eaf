use riscbot::command::{is_cmd, matches_cmd, Exec, Invocation};

#[test]
fn plain_command_matches() {
    assert_eq!(matches_cmd("/ping"), Some("ping"));
    assert_eq!(matches_cmd("/exec ls -la"), Some("exec"));
    assert_eq!(matches_cmd("  /Help  "), Some("Help"));
    assert_eq!(matches_cmd("/stats\nmore lines"), Some("stats"));
}

#[test]
fn command_for_this_bot_matches() {
    assert_eq!(matches_cmd("/ping@riscbot"), Some("ping"));
    assert_eq!(matches_cmd("/ping@riscbot now"), Some("ping"));
}

#[test]
fn command_for_another_bot_does_not_match() {
    assert_eq!(matches_cmd("/ping@otherbot"), None);
    assert_eq!(matches_cmd("/ping@RiscBot"), None);
    assert_eq!(matches_cmd("/ping@"), None);
}

#[test]
fn non_commands_do_not_match() {
    assert_eq!(matches_cmd("hello"), None);
    assert_eq!(matches_cmd("/"), None);
    assert_eq!(matches_cmd(""), None);
    assert_eq!(matches_cmd("/ping-pong"), None);
    assert_eq!(matches_cmd("/ping@riscbot-x"), None);
    assert_eq!(matches_cmd("x /ping"), None);
}

#[test]
fn exec_argument_follows_first_space() {
    assert_eq!(Exec::command_argument("/exec echo Hello!"), "echo Hello!");
    assert_eq!(Exec::command_argument("/exec    ls  -l "), "ls  -l ");
    assert_eq!(Exec::command_argument("/exec"), "");
    assert_eq!(Exec::command_argument("/exec\tls"), "");
}

#[test]
fn blank_exec_asks_for_help() {
    assert!(matches!(Exec::invocation("/exec"), Invocation::Help));
    assert!(matches!(Exec::invocation("/exec    "), Invocation::Help));
    match Exec::invocation("/exec uname -a") {
        Invocation::Run(cmd) => assert_eq!(cmd, "uname -a"),
        Invocation::Help => panic!("expected a command"),
    }
}

#[test]
fn blank_text() {
    assert!(Exec::is_blank(""));
    assert!(Exec::is_blank(" \t\n"));
    assert!(!Exec::is_blank(" a "));
}

#[test]
fn command_names_compare_without_ascii_case() {
    assert!(is_cmd("exec", "exec"));
    assert!(is_cmd("exec", " EXEC "));
    assert!(is_cmd("exec", "eXeC"));
    assert!(!is_cmd("exec", "exe"));
    assert!(!is_cmd("exec", "execs"));
    assert!(!is_cmd("ping", "exec"));
}
