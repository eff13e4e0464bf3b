use graft::docker::{
    command, mounts, piped, remote_script, sanitize_key, shell_quote, Docker, Fetch, Transfer,
};
use graft::invocation::{captured, within, Ended, Failure, Output};
use graft::runtime::Runtime;
use graft::verbose::Verbosity;

fn runtime() -> Runtime {
    Runtime { verbosity: Verbosity { level: 0 }, temp_dir: "/tmp".to_string(), pid: 7 }
}

fn local() -> Docker {
    Docker::new(&None, &runtime())
}

fn remote() -> Docker {
    Docker::new(&Some("host".to_string()), &runtime())
}

fn strings(items: &[&str]) -> Vec<String> {
    items.iter().map(|s| s.to_string()).collect()
}

fn output(code: Option<i32>, stdout: &[u8], stderr: &[u8]) -> Output {
    Output {
        ended: Ended::Exited(code),
        status: "exit status".to_string(),
        stdout: stdout.to_vec(),
        stderr: stderr.to_vec(),
    }
}

#[test]
fn quotes_plain() {
    assert_eq!(shell_quote("abc"), "'abc'");
}

#[test]
fn quotes_specials_literally() {
    assert_eq!(shell_quote("a b; rm -rf /"), "'a b; rm -rf /'");
    assert_eq!(shell_quote("$(whoami)"), "'$(whoami)'");
}

#[test]
fn escapes_embedded_single_quote() {
    assert_eq!(shell_quote("a'b"), "'a'\\''b'");
}

#[test]
fn remote_script_quotes_each_arg() {
    assert_eq!(
        remote_script(&["exec", "my container", "sh"]),
        "docker 'exec' 'my container' 'sh'"
    );
}

#[test]
fn command_runs_locally_or_over_ssh() {
    let c = command(&None, &["ps", "-a"], &runtime());
    assert_eq!((c.program.as_str(), c.args, c.stdin_null), ("docker", strings(&["ps", "-a"]), false));
    let c = command(&Some("host".to_string()), &["ps", "-a"], &runtime());
    assert_eq!(c.program, "ssh");
    assert_eq!(c.args.last().unwrap(), "docker 'ps' '-a'");
    assert!(c.stdin_null);
}

#[test]
fn exec_runs_as_the_default_user_or_as_root() {
    let d = local();
    assert_eq!(d.exec("c", &["ls", "/"]).command.args, strings(&["exec", "c", "ls", "/"]));
    assert_eq!(
        d.exec_root("c", &["ls"]).command.args,
        strings(&["exec", "-u", "0", "c", "ls"])
    );
    assert_eq!(
        d.exec_capture_as("c", Some("me"), &["id"]).command.args,
        strings(&["exec", "-u", "me", "c", "id"])
    );
    assert_eq!(
        d.exec_capture_as("c", None, &["id"]).command.args,
        strings(&["exec", "c", "id"])
    );
    assert_eq!(d.exec_capture("c", &["id"]), d.exec("c", &["id"]));
}

#[test]
fn exec_in_sets_directory_and_variables() {
    let env = [("A".to_string(), "1".to_string()), ("B".to_string(), "x y".to_string())];
    let job = local().exec_in("c", Some("/w"), &env, &["true"], true);
    assert_eq!(
        job.command.args,
        strings(&["exec", "-u", "0", "--workdir", "/w", "-e", "A=1", "-e", "B=x y", "c", "true"])
    );
    let job = local().exec_in("c", None, &[], &["true"], false);
    assert_eq!(job.command.args, strings(&["exec", "c", "true"]));
}

#[test]
fn tests_inside_the_container() {
    let d = local();
    assert_eq!(d.file_exists("c", "/f").args, strings(&["exec", "c", "test", "-f", "/f"]));
    assert_eq!(d.path_exists("c", "/f").args, strings(&["exec", "c", "test", "-e", "/f"]));
    assert_eq!(
        d.has_command("c", "git").args,
        strings(&["exec", "c", "sh", "-c", "command -v 'git' >/dev/null 2>&1"])
    );
    assert_eq!(
        d.mkdir_p("c", &["/a", "/b"]).command.args,
        strings(&["exec", "-u", "0", "c", "mkdir", "-p", "/a", "/b"])
    );
}

#[test]
fn markers_are_written_where_they_are_looked_for() {
    let d = local();
    assert_eq!(sanitize_key("feature.ghcr.io/x/node:1"), "feature.ghcr.io_x_node_1");
    assert_eq!(
        d.task_done("c", "a/b").args,
        strings(&["exec", "c", "test", "-e", "/opt/graft/state/a_b"])
    );
    assert_eq!(
        d.mark_task_done("c", "a/b").command.args,
        strings(&[
            "exec",
            "-u",
            "0",
            "c",
            "sh",
            "-c",
            "mkdir -p /opt/graft/state && : > '/opt/graft/state/a_b'"
        ])
    );
}

#[test]
fn job_tells_what_its_end_amounts_to() {
    assert_eq!(local().exec("c", &["ls"]).judge(Ended::Exited(Some(0))), Ok(()));
    assert_eq!(
        local().exec("c", &["ls"]).judge(Ended::Exited(Some(2))),
        Err(Failure::Exec { argv: strings(&["ls"]), stderr: None })
    );
    assert_eq!(
        local().exec("c", &["ls"]).judge(Ended::Exited(None)),
        Err(Failure::Exec { argv: strings(&["ls"]), stderr: None })
    );
    assert_eq!(
        local().exec("c", &["ls"]).judge(Ended::NotStarted("no docker".to_string())),
        Err(Failure::Spawn {
            context: "spawning docker exec".to_string(),
            cause: "no docker".to_string()
        })
    );
}

#[test]
fn captured_output_is_text_or_a_failure() {
    let job = || local().exec_capture("c", &["id"]);
    assert_eq!(captured(job(), output(Some(0), b"me\n", b"")), Ok("me\n".to_string()));
    assert_eq!(captured(job(), output(Some(0), b"\xff", b"")), Err(Failure::NotUtf8));
    assert_eq!(
        captured(job(), output(Some(1), b"", b" bad \xff \n")),
        Err(Failure::Exec { argv: strings(&["id"]), stderr: Some("bad \u{fffd}".to_string()) })
    );
}

#[test]
fn context_is_put_round_a_failure() {
    assert_eq!(
        within("docker run", Failure::Message("docker run failed".to_string())),
        Failure::Chain(strings(&["docker run", "docker run failed"]))
    );
    assert_eq!(
        within(
            "outer",
            Failure::Spawn { context: "inner".to_string(), cause: "gone".to_string() }
        ),
        Failure::Chain(strings(&["outer", "inner", "gone"]))
    );
    assert_eq!(
        within("outer", Failure::Chain(strings(&["a", "b"]))),
        Failure::Chain(strings(&["outer", "a", "b"]))
    );
    assert_eq!(within("outer", Failure::NotUtf8), Failure::NotUtf8);
}

#[test]
fn copy_in_is_direct_packed_or_streamed() {
    match local().cp("/src", "c", "/dst", true) {
        Transfer::Direct(job) => {
            assert_eq!(job.command.args, strings(&["cp", "/src", "c:/dst"]));
            assert_eq!(
                job.failure,
                Failure::Message("docker cp failed: /src -> c:/dst".to_string())
            );
        }
        other => panic!("got {other:?}"),
    }
    match remote().cp("/src", "c", "/dst", true) {
        Transfer::Packed { prepare, pack, unpack } => {
            assert_eq!(
                prepare.command.args.last().unwrap(),
                "docker 'exec' '-u' '0' 'c' 'mkdir' '-p' '/dst'"
            );
            assert_eq!(pack.command.args, strings(&["-C", "/src", "-cf", "-", "."]));
            assert_eq!(unpack.command.args.last().unwrap(), "docker 'cp' '-' 'c:/dst'");
        }
        other => panic!("got {other:?}"),
    }
    match remote().cp("/src", "c", "/dst", false) {
        Transfer::Streamed { file, sink } => {
            assert_eq!(file, "/src");
            assert_eq!(
                sink.command.args.last().unwrap(),
                "docker 'exec' '-u' '0' '-i' 'c' 'sh' '-c' 'cat > '\\''/dst'\\'''"
            );
        }
        other => panic!("got {other:?}"),
    }
}

#[test]
fn copy_out_is_direct_or_unpacked() {
    match local().cp_out("c", "/etc/hosts", "/tmp/x") {
        Fetch::Direct(job) => {
            assert_eq!(job.command.args, strings(&["cp", "c:/etc/hosts", "/tmp/x"]));
        }
        other => panic!("got {other:?}"),
    }
    match remote().cp_out("c", "/etc/hosts", "/tmp/x") {
        Fetch::Unpacked { source, unpack, staging, entry, dest, dest_parent } => {
            assert_eq!(source.command.args.last().unwrap(), "docker 'cp' 'c:/etc/hosts' '-'");
            assert_eq!(unpack.command.args, strings(&["-xf", "-", "-C", "/tmp/graft-cpout-7"]));
            assert_eq!(staging, "/tmp/graft-cpout-7");
            assert_eq!(entry, "/tmp/graft-cpout-7/hosts");
            assert_eq!(dest, "/tmp/x");
            assert_eq!(dest_parent, Some("/tmp".to_string()));
        }
        other => panic!("got {other:?}"),
    }
}

#[test]
fn pipe_tells_the_first_failure() {
    let a = || local().exec("c", &["a"]);
    let b = || local().exec("c", &["b"]);
    let ok = || Ended::Exited(Some(0));
    let bad = || Ended::Exited(Some(1));
    assert_eq!(piped(a(), ok(), b(), ok()), Ok(()));
    assert_eq!(
        piped(a(), bad(), b(), bad()),
        Err(Failure::Exec { argv: strings(&["a"]), stderr: None })
    );
    assert_eq!(
        piped(a(), ok(), b(), bad()),
        Err(Failure::Exec { argv: strings(&["b"]), stderr: None })
    );
    assert_eq!(
        piped(a(), bad(), b(), Ended::NotStarted("gone".to_string())),
        Err(Failure::Spawn {
            context: "spawning docker exec".to_string(),
            cause: "gone".to_string()
        })
    );
}

#[test]
fn mounts_are_the_full_lines_of_an_inspection() {
    let q = local().inspect_mounts("c");
    assert_eq!(
        q.args,
        strings(&["inspect", "--format", "{{range .Mounts}}{{.Destination}}\n{{end}}", "c"])
    );
    assert_eq!(mounts(&output(Some(0), b"/a\n\n /b \n", b"")), strings(&["/a", "/b"]));
    assert!(mounts(&output(Some(1), b"/a\n", b"")).is_empty());
}
