use graft::config::{Config, GitConfig, Injectable, SessionConfig};
use graft::inject::{file_stem, graft as begin, resolve_home, Next, Turn};
use graft::invocation::{Ended, Failure, Output};
use graft::runtime::Runtime;
use graft::script::Step;
use graft::verbose::Verbosity;

fn runtime() -> Runtime {
    Runtime { verbosity: Verbosity { level: 0 }, temp_dir: "/tmp".to_string(), pid: 7 }
}

fn output(code: i32, stdout: &str) -> Output {
    Output {
        ended: Ended::Exited(Some(code)),
        status: format!("exit status: {code}"),
        stdout: stdout.as_bytes().to_vec(),
        stderr: vec![],
    }
}

fn item(name: &str) -> Injectable {
    Injectable {
        name: name.to_string(),
        binary: None,
        config: None,
        target_binary: None,
        target_config: None,
        skip_if_exists: true,
        copy_deps: true,
    }
}

fn config(inject: Vec<Injectable>) -> Config {
    Config {
        inject,
        session: SessionConfig::default(),
        git: GitConfig { safe_directories: vec![] },
        aliases: vec![],
    }
}

fn query(turn: &Turn) -> Vec<String> {
    match &turn.next {
        Next::Run(c) => c.args.clone(),
        other => panic!("got {other:?}"),
    }
}

fn said(turn: &Turn) -> Vec<String> {
    turn.steps
        .iter()
        .filter_map(|s| match s {
            Step::Say(line) => Some(line.clone()),
            _ => None,
        })
        .collect()
}

#[test]
fn takes_basename() {
    assert_eq!(file_stem("/usr/local/bin/nvim"), "nvim");
    assert_eq!(file_stem("nvim"), "nvim");
}

#[test]
fn falls_back_when_no_basename() {
    assert_eq!(file_stem("/"), "graft");
}

#[test]
fn resolve_home_expands_tilde() {
    assert_eq!(resolve_home("~/.config/nvim", "/home/vscode"), "/home/vscode/.config/nvim");
    assert_eq!(resolve_home("~", "/home/vscode"), "/home/vscode");
    assert_eq!(resolve_home("/usr/local/bin/nvim", "/home/vscode"), "/usr/local/bin/nvim");
}

#[test]
fn resolve_home_strips_trailing_slash_from_home() {
    assert_eq!(resolve_home("~/.config", "/root/"), "/root/.config");
}

#[test]
fn other_tildes_are_no_home() {
    assert_eq!(resolve_home("~user/x", "/root"), "~user/x");
    assert_eq!(resolve_home("a/~", "/root"), "a/~");
}

#[test]
fn home_may_be_the_root() {
    assert_eq!(resolve_home("~", "/"), "/");
    assert_eq!(resolve_home("~/.config", "/"), "/.config");
    assert_eq!(resolve_home("~", "/root/"), "/root");
}

#[test]
fn empty_configuration_only_keeps_the_path() {
    let (mut g, first) = begin("c", &None, config(vec![]), &runtime());
    assert_eq!(first.steps.len(), 1);
    assert_eq!(query(&first), ["exec", "c", "sh", "-c", "echo $HOME"]);
    let turn = g.step(output(0, "/home/me\n"));
    assert_eq!(g.home, "/home/me");
    assert_eq!(query(&turn), ["exec", "c", "printenv", "PATH"]);
    let turn = g.step(output(0, "/bin:/usr/bin\n"));
    assert_eq!(turn.next, Next::Done);
    assert_eq!(
        turn.steps[0],
        Step::WriteTemp {
            temp: "/tmp/graft-path.sh".to_string(),
            contents: "export PATH='/bin:/usr/bin'\n".to_string(),
            context: String::new()
        }
    );
    assert_eq!(turn.steps.len(), 3);
    match &turn.steps[1] {
        Step::Run(job) => assert_eq!(
            job.command.args,
            ["exec", "-u", "0", "c", "mkdir", "-p", "/etc/profile.d"]
        ),
        other => panic!("got {other:?}"),
    }
}

#[test]
fn home_defaults_to_that_of_root() {
    let (mut g, _) = begin("c", &None, config(vec![]), &runtime());
    g.step(output(1, "/home/me\n"));
    assert_eq!(g.home, "/root");
    let (mut g, _) = begin("c", &None, config(vec![]), &runtime());
    g.step(output(0, " \n"));
    assert_eq!(g.home, "/root");
}

#[test]
fn what_is_there_is_skipped() {
    let mut tool = item("nvim");
    tool.binary = Some("/usr/bin/nvim".to_string());
    tool.config = Some("/home/me/.config/nvim".to_string());
    let (mut g, _) = begin("c", &None, config(vec![tool]), &runtime());
    let turn = g.step(output(0, "/root\n"));
    assert_eq!(query(&turn), ["exec", "c", "test", "-f", "/opt/graft/bin/nvim"]);
    let turn = g.step(output(0, ""));
    assert_eq!(said(&turn), ["[graft] nvim already exists, skipping"]);
    assert_eq!(turn.steps.len(), 1);
    assert_eq!(query(&turn), ["exec", "c", "test", "-e", "/root/.config/nvim"]);
    let turn = g.step(output(0, ""));
    assert_eq!(said(&turn), ["[graft] nvim config already present, skipping"]);
    assert_eq!(turn.steps.len(), 1);
}

#[test]
fn missing_libraries_are_copied_and_the_binary_is_patched() {
    let mut tool = item("nvim");
    tool.binary = Some("/usr/bin/nvim".to_string());
    let (mut g, _) = begin("c", &None, config(vec![tool]), &runtime());
    g.step(output(0, "/root\n"));
    let turn = g.step(output(1, ""));
    assert_eq!(query(&turn), ["/usr/bin/nvim"]);
    let turn = g.step(output(0, "libc.so.6 => /lib/libc.so.6 (0)\n/lib64/ld.so (0)\n"));
    assert_eq!(
        query(&turn).last().unwrap(),
        "test -f '/opt/graft/lib/libc.so.6' || printf '%s\\n' 'libc.so.6'; test -f '/opt/graft/lib/ld.so' || printf '%s\\n' 'ld.so'"
    );
    let turn = g.step(output(0, "ld.so\n"));
    assert_eq!(
        said(&turn),
        ["[graft] copying 1 missing deps for nvim", "[graft] injecting nvim binary"]
    );
    assert_eq!(
        turn.steps[1],
        Step::CopyResolved {
            source: "/lib64/ld.so".to_string(),
            container: "c".to_string(),
            dest: "/opt/graft/lib/ld.so".to_string()
        }
    );
    assert!(turn.steps.iter().any(|s| match s {
        Step::RunQuiet(job) => {
            job.command.program == "patchelf"
                && job.command.args
                    == [
                        "--set-interpreter",
                        "/graft/ld.so",
                        "--force-rpath",
                        "--set-rpath",
                        "/opt/graft/lib",
                        "/tmp/graft-patched-nvim",
                    ]
        }
        _ => false,
    }));
    assert!(turn.steps.iter().any(|s| match s {
        Step::WriteTemp { contents, .. } => {
            contents == "#!/bin/sh\nexec /opt/graft/bin/nvim \"$@\"\n"
        }
        _ => false,
    }));
    assert_eq!(query(&turn), ["exec", "c", "printenv", "PATH"]);
    let commands: Vec<Vec<String>> = turn
        .steps
        .iter()
        .filter_map(|s| match s {
            Step::Run(job) => Some(job.command.args.clone()),
            _ => None,
        })
        .collect();
    assert_eq!(
        commands,
        [
            vec!["exec", "-u", "0", "c", "cp", "/opt/graft/lib/ld.so", "/graft/ld.so"],
            vec!["exec", "-u", "0", "c", "chmod", "+x", "/opt/graft/bin/nvim"],
            vec!["exec", "-u", "0", "c", "mkdir", "-p", "/usr/local/bin"],
            vec!["exec", "-u", "0", "c", "chmod", "+x", "/usr/local/bin/nvim"],
        ]
    );
}

#[test]
fn listing_that_fails_ends_the_graft() {
    let mut tool = item("x");
    tool.binary = Some("/x".to_string());
    tool.skip_if_exists = false;
    let (mut g, _) = begin("c", &None, config(vec![tool]), &runtime());
    g.step(output(0, "/root\n"));
    let turn = g.step(output(1, ""));
    assert_eq!(turn.next, Next::Fail(Failure::Message("ldd failed on /x: ".to_string())));
}

#[test]
fn configuration_replaces_what_is_there() {
    let mut tool = item("x");
    tool.config = Some("/cfg".to_string());
    tool.target_config = Some("/etc/x/conf".to_string());
    tool.skip_if_exists = false;
    let (mut g, _) = begin("c", &None, config(vec![tool]), &runtime());
    let turn = g.step(output(0, "/root\n"));
    assert_eq!(said(&turn), ["[graft] injecting x config → /etc/x/conf"]);
    match (&turn.steps[1], &turn.steps[2]) {
        (Step::Run(parent), Step::Run(remove)) => {
            assert_eq!(parent.command.args, ["exec", "-u", "0", "c", "mkdir", "-p", "/etc/x"]);
            assert_eq!(remove.command.args, ["exec", "c", "rm", "-rf", "/etc/x/conf"]);
        }
        other => panic!("got {other:?}"),
    }
}

#[test]
fn git_is_told_what_to_trust() {
    let mut cfg = config(vec![]);
    cfg.git.safe_directories = vec!["*".to_string()];
    let (mut g, _) = begin("c", &None, cfg, &runtime());
    g.step(output(0, "/root\n"));
    let turn = g.step(output(1, ""));
    assert_eq!(turn.steps.len(), 0);
    assert_eq!(query(&turn).last().unwrap(), "command -v 'git' >/dev/null 2>&1");
    let turn = g.step(output(0, ""));
    assert_eq!(said(&turn), ["[graft] marking 1 git safe.directory"]);
    match &turn.steps[1] {
        Step::Run(job) => assert_eq!(
            job.command.args.last().unwrap(),
            "git config --global --get-all safe.directory 2>/dev/null | grep -qxF '*' || git config --global --add safe.directory '*'"
        ),
        other => panic!("got {other:?}"),
    }
}

#[test]
fn missing_git_is_warned_about() {
    let mut cfg = config(vec![]);
    cfg.git.safe_directories = vec!["/a".to_string(), "/b".to_string()];
    let (mut g, _) = begin("c", &None, cfg, &runtime());
    g.step(output(0, "/root\n"));
    g.step(output(0, "\n"));
    let turn = g.step(output(1, ""));
    assert_eq!(
        turn.steps,
        vec![Step::Warn(
            "[graft] warning: git not found in container; skipping safe.directory setup".to_string()
        )]
    );
    assert_eq!(turn.next, Next::Done);
}

#[test]
fn aliases_are_sorted_and_quoted() {
    let mut cfg = config(vec![]);
    cfg.aliases = vec![
        ("ll".to_string(), "ls -la".to_string()),
        ("g".to_string(), "git 'x'".to_string()),
    ];
    let (mut g, _) = begin("c", &None, cfg, &runtime());
    g.step(output(0, "/root\n"));
    let turn = g.step(output(0, ""));
    match &turn.steps[0] {
        Step::WriteTemp { contents, .. } => assert_eq!(
            contents,
            "# Generated by graft — do not edit\nalias g='git '\\''x'\\'''\nalias ll='ls -la'\n"
        ),
        other => panic!("got {other:?}"),
    }
    assert_eq!(said(&turn), ["[graft] installed 2 aliases"]);
}
