use graft::container::{configured, enter, pty_denied, pty_probe, sanitize, Session};
use graft::invocation::{Ended, Failure, Output};
use graft::runtime::Runtime;
use graft::verbose::Verbosity;

fn runtime(level: u8) -> Runtime {
    Runtime { verbosity: Verbosity { level }, temp_dir: "/tmp".to_string(), pid: 7 }
}

fn output(stdout: &str, stderr: &str) -> Output {
    Output {
        ended: Ended::Exited(Some(255)),
        status: "exit status: 255".to_string(),
        stdout: stdout.as_bytes().to_vec(),
        stderr: stderr.as_bytes().to_vec(),
    }
}

#[test]
fn keeps_alphanumeric() {
    assert_eq!(sanitize("abc123DEF"), "abc123DEF");
}

#[test]
fn replaces_punctuation() {
    // container ids/names with '.'/':' would be rejected by tmux as-is.
    assert_eq!(sanitize("svc.dev_1:tag/x"), "svc-dev-1-tag-x");
}

#[test]
fn session_opens_a_login_shell_in_tmux() {
    let e = enter("c", "graft-x", "/w", &None, Some("me"), "/bin/bash", "tmux", false, &runtime(0));
    let line = "docker exec -it -u 'me' --workdir '/w' 'c' '/bin/bash' -l";
    assert_eq!(e.note, "[graft] entering c");
    assert_eq!(e.trace, None);
    match e.session.unwrap() {
        Session::Tmux { create, configure, attach } => {
            assert_eq!(create.args, ["new-session", "-d", "-s", "graft-x", line]);
            assert_eq!(configure.args, ["set-option", "-t", "graft-x", "default-command", line]);
            assert_eq!(attach.command.args, ["attach-session", "-t", "graft-x"]);
        }
        other => panic!("got {other:?}"),
    }
    let e = enter("c", "graft-x", "/w", &None, None, "sh", "tmux", true, &runtime(0));
    match e.session.unwrap() {
        Session::Tmux { attach, .. } => {
            assert_eq!(attach.command.args, ["switch-client", "-t", "graft-x"]);
            assert_eq!(
                attach.failure,
                Failure::Message("tmux switch-client -t graft-x failed".to_string())
            );
        }
        other => panic!("got {other:?}"),
    }
}

#[test]
fn remote_session_goes_through_ssh_with_a_terminal() {
    let host = Some("user@host:2222".to_string());
    let e = enter("c", "s", "/w", &host, None, "sh", "none", false, &runtime(4));
    let line = "ssh -tt -p 2222 -vvv 'user@host' 'docker exec -it --workdir '\\''/w'\\'' '\\''c'\\'' '\\''sh'\\'' -l'";
    assert_eq!(e.trace, Some(format!("[graft] $ {line}")));
    match e.session.unwrap() {
        Session::Direct(job) => {
            assert_eq!(job.command.program, "sh");
            assert_eq!(job.command.args, ["-c", line]);
            assert_eq!(
                job.judge(Ended::Exited(Some(1))),
                Err(Failure::Message("session exited with failure".to_string()))
            );
        }
        other => panic!("got {other:?}"),
    }
}

#[test]
fn unknown_multiplexer_is_refused() {
    let e = enter("c", "s", "/w", &None, None, "sh", "screen", false, &runtime(0));
    assert_eq!(e.session, Err(Failure::UnknownMultiplexer("screen".to_string())));
}

#[test]
fn only_a_missing_tmux_counts_when_it_is_configured() {
    assert_eq!(configured(Ended::Exited(Some(1))), Ok(()));
    assert_eq!(
        configured(Ended::NotStarted("gone".to_string())),
        Err(Failure::Spawn { context: String::new(), cause: "gone".to_string() })
    );
}

#[test]
fn terminal_is_probed_only_after_a_fast_remote_failure() {
    let host = Some("host".to_string());
    assert_eq!(pty_probe(&None, true, 10, &runtime(0)), None);
    assert_eq!(pty_probe(&host, false, 10, &runtime(0)), None);
    assert_eq!(pty_probe(&host, true, 2000, &runtime(0)), None);
    let probe = pty_probe(&host, true, 1999, &runtime(0)).unwrap();
    let n = probe.args.len();
    assert_eq!(&probe.args[n - 5..], &["-tt", "-o", "BatchMode=yes", "host", "tty"]);
    assert!(pty_denied(&output("", "Pseudo-terminal allocation request failed on channel 0")));
    assert!(pty_denied(&output("not a tty\n", "")));
    assert!(!pty_denied(&output("/dev/pts/1\n", "")));
}
