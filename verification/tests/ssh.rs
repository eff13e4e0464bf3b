use graft::runtime::Runtime;
use graft::ssh::{base_command, control_path, script_command, split};
use graft::verbose::Verbosity;
use std::collections::hash_map::DefaultHasher;
use std::hash::{Hash, Hasher};

fn runtime(level: u8) -> Runtime {
    Runtime { verbosity: Verbosity { level }, temp_dir: "/tmp".to_string(), pid: 7 }
}

#[test]
fn plain_alias_and_user_host_pass_through() {
    assert_eq!(split("myhost"), ("myhost".into(), None));
    assert_eq!(split("user@host"), ("user@host".into(), None));
}

#[test]
fn trailing_port_is_extracted() {
    assert_eq!(split("host:2222"), ("host".into(), Some(2222)));
    assert_eq!(split("user@host:2222"), ("user@host".into(), Some(2222)));
}

#[test]
fn ssh_url_prefix_is_stripped() {
    assert_eq!(split("ssh://user@host:2222"), ("user@host".into(), Some(2222)));
    assert_eq!(split("ssh://host"), ("host".into(), None));
}

#[test]
fn bare_ipv6_is_not_misread_as_port() {
    assert_eq!(split("fe80::1"), ("fe80::1".into(), None));
    assert_eq!(split("user@fe80::1"), ("user@fe80::1".into(), None));
}

#[test]
fn bracketed_ipv6_with_port() {
    assert_eq!(split("[fe80::1]:2222"), ("fe80::1".into(), Some(2222)));
    assert_eq!(split("user@[fe80::1]:2222"), ("user@fe80::1".into(), Some(2222)));
    assert_eq!(split("[fe80::1]"), ("fe80::1".into(), None));
}

#[test]
fn non_numeric_suffix_is_not_a_port() {
    assert_eq!(split("host:notaport"), ("host:notaport".into(), None));
}

#[test]
fn port_beyond_the_range_is_kept_in_the_name() {
    assert_eq!(split("host:65536"), ("host:65536".into(), None));
    assert_eq!(split("host:65535"), ("host".into(), Some(65535)));
    assert_eq!(split(":22"), (":22".into(), None));
    assert_eq!(split("[fe80::1"), ("[fe80::1".into(), None));
}

#[test]
fn control_socket_is_keyed_by_the_hash_of_the_destination() {
    for dest in ["host", "user@host:2222", "", "größe"] {
        let mut hasher = DefaultHasher::new();
        dest.hash(&mut hasher);
        assert_eq!(
            control_path(&runtime(0), dest),
            format!("/tmp/graft-ssh/{:x}.sock", hasher.finish())
        );
    }
    assert_ne!(control_path(&runtime(0), "a"), control_path(&runtime(0), "b"));
}

#[test]
fn base_command_carries_port_multiplexing_and_verbosity() {
    let rt = runtime(2);
    let (cmd, dest) = base_command("user@host:2222", &rt);
    assert_eq!(dest, "user@host");
    assert_eq!(cmd.program, "ssh");
    assert_eq!(
        cmd.args,
        vec![
            "-p".to_string(),
            "2222".to_string(),
            "-o".to_string(),
            "ControlMaster=auto".to_string(),
            "-o".to_string(),
            "ControlPersist=10m".to_string(),
            "-o".to_string(),
            format!("ControlPath={}", control_path(&rt, "user@host:2222")),
            "-vv".to_string(),
        ]
    );
    assert!(!cmd.stdin_null);
    assert_eq!(cmd.dir, None);
}

#[test]
fn script_goes_behind_the_destination() {
    let cmd = script_command("host", "uname -a", &runtime(0));
    let n = cmd.args.len();
    assert_eq!(&cmd.args[n - 2..], &["host".to_string(), "uname -a".to_string()]);
}
