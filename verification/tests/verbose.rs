use graft::invocation::Invocation;
use graft::verbose::{enabled, flags, level, quote, trace, Verbosity};

#[test]
fn plain_args_stay_unquoted() {
    assert_eq!(quote("docker"), "docker");
    assert_eq!(quote("ssh://user@host:22"), "ssh://user@host:22");
}

#[test]
fn args_with_specials_are_quoted() {
    assert_eq!(quote("a b"), "'a b'");
    assert_eq!(quote(""), "''");
}

#[test]
fn level_is_what_was_set() {
    let mut v = Verbosity { level: 0 };
    assert!(!enabled(&v));
    graft::verbose::set(&mut v, 2);
    assert_eq!(level(&v), 2);
    assert!(enabled(&v));
}

#[test]
fn ssh_gets_at_most_three_flags() {
    assert_eq!(flags(&Verbosity { level: 1 }), "-v");
    assert_eq!(flags(&Verbosity { level: 3 }), "-vvv");
    assert_eq!(flags(&Verbosity { level: 9 }), "-vvv");
}

#[test]
fn trace_shows_the_command_as_a_shell_reads_it() {
    let cmd = Invocation {
        program: "docker".to_string(),
        args: vec!["exec".to_string(), "my box".to_string(), "it's".to_string()],
        dir: None,
        env: vec![],
        stdin_null: false,
    };
    assert_eq!(trace(&Verbosity { level: 0 }, &cmd), None);
    let line = trace(&Verbosity { level: 1 }, &cmd).unwrap();
    assert!(line.ends_with("docker exec 'my box' 'it'\\''s'"), "got {line}");
}

#[test]
fn trace_shows_variables_first() {
    let cmd = Invocation {
        program: "docker".to_string(),
        args: vec![],
        dir: None,
        env: vec![("A".to_string(), "x y".to_string()), ("B".to_string(), "1".to_string())],
        stdin_null: false,
    };
    assert_eq!(trace(&Verbosity { level: 1 }, &cmd).unwrap(), "[graft] $ A='x y' B=1 docker");
}
