use graft::devcontainer::config::{
    load_spec, Backend, BuildConfig, Cmd, ComposeBackend, ContainerBackend, DevcontainerConfig,
    ImageSource, OneCmd, Spec,
};
use graft::devcontainer::hash::{
    fnv1a, hash_inputs, normalize_for_hash, remote_hash, remote_hash_script, scope, Input, Scope,
    FNV_OFFSET,
};
use graft::devcontainer::hooks::{all_succeeded, hook_failed, run_in_container, run_on_host};
use graft::devcontainer::lookup::{
    config_text, find_config, folder_config, probed, ssh_find_and_read_config,
};
use graft::devcontainer::naming::{container_name, session_name};
use graft::devcontainer::ports::{parse_forward_entry, parse_forward_ports};
use graft::devcontainer::run::{build_run_args, mount_to_arg};
use graft::devcontainer::start::{start, stop, stored_hash, Event, Next, Starting, Turn};
use graft::devcontainer::vars::{
    env_profile, exec_env, normalize_env_value, quote_env_value, substitute_vars,
};
use graft::devcontainer::workdir::{
    choose_workdir, confirm, confirmed, discover_workdirs, select_workdir, Choice,
};
use graft::docker::{Docker, Fetch};
use graft::features::{CreateFlags, Plan};
use graft::forward::PortForward;
use graft::invocation::{Ended, Failure, Output};
use graft::json::{Json, JsonKind};
use graft::runtime::Runtime;
use graft::script::Step;
use graft::verbose::Verbosity;
use serde_json::Value;

fn convert(v: &Value) -> Json {
    let kind = match v {
        Value::Null => JsonKind::Null,
        Value::Bool(b) => JsonKind::Bool(*b),
        Value::Number(n) => JsonKind::Number(n.as_u64()),
        Value::String(s) => JsonKind::Text(s.clone()),
        Value::Array(a) => JsonKind::Array(a.iter().map(convert).collect()),
        Value::Object(o) => {
            JsonKind::Object(o.iter().map(|(k, v)| (k.clone(), convert(v))).collect())
        }
    };
    Json { text: v.to_string(), kind }
}

fn json(s: &str) -> Json {
    convert(&serde_json::from_str::<Value>(s).unwrap())
}

fn array(s: &str) -> Vec<Json> {
    match json(s).kind {
        JsonKind::Array(a) => a,
        other => panic!("got {other:?}"),
    }
}

fn strings(items: &[&str]) -> Vec<String> {
    items.iter().map(|s| s.to_string()).collect()
}

fn pair(k: &str, v: &str) -> (String, String) {
    (k.to_string(), v.to_string())
}

fn runtime() -> Runtime {
    Runtime { verbosity: Verbosity { level: 0 }, temp_dir: "/tmp".to_string(), pid: 7 }
}

fn output(code: i32, stdout: &str) -> Output {
    Output {
        ended: Ended::Exited(Some(code)),
        status: format!("exit status: {code}"),
        stdout: stdout.as_bytes().to_vec(),
        stderr: b" oops \n".to_vec(),
    }
}

fn no_env() -> Vec<(String, String)> {
    vec![]
}

fn empty() -> DevcontainerConfig {
    DevcontainerConfig {
        name: None,
        docker_compose_file: None,
        service: None,
        image: None,
        build: None,
        docker_file: None,
        context: None,
        run_args: None,
        workspace_mount: None,
        mounts: None,
        workspace_folder: None,
        forward_ports: None,
        features: None,
        override_feature_install_order: None,
        container_env: None,
        remote_env: None,
        initialize_command: None,
        on_create_command: None,
        update_content_command: None,
        post_create_command: None,
        post_start_command: None,
        post_attach_command: None,
    }
}

fn load(config: DevcontainerConfig) -> Result<Spec, Failure> {
    load_spec(
        config,
        "/home/me/proj/.devcontainer/devcontainer.json",
        "/home/me/proj",
        &None,
        &no_env(),
    )
}

fn image() -> DevcontainerConfig {
    let mut c = empty();
    c.image = Some("debian".to_string());
    c
}

fn compose() -> DevcontainerConfig {
    let mut c = empty();
    c.docker_compose_file = Some(json("[\"a.yml\", 1, \"../b.yml\"]"));
    c.service = Some("dev".to_string());
    c
}

fn run_args(turn: &Turn) -> Vec<String> {
    match &turn.next {
        Next::Run(c) => c.args.clone(),
        other => panic!("got {other:?}"),
    }
}

fn jobs(steps: &[Step]) -> Vec<Vec<String>> {
    steps
        .iter()
        .filter_map(|s| match s {
            Step::Run(j) => Some(j.command.args.clone()),
            Step::RunWithin { job, .. } => Some(job.command.args.clone()),
            Step::Try(c) => Some(c.args.clone()),
            _ => None,
        })
        .collect()
}

#[test]
fn substitute_vars_resolves_workspace_and_env() {
    let p = "/home/me/proj";
    let path = "/usr/local/bin:/usr/bin:/bin".to_string();
    let env = vec![("PATH".to_string(), path.clone())];
    assert_eq!(
        substitute_vars("${localWorkspaceFolder}/x", p, &env).unwrap(),
        "/home/me/proj/x"
    );
    assert_eq!(substitute_vars("${localWorkspaceFolderBasename}", p, &env).unwrap(), "proj");
    assert_eq!(substitute_vars("${localEnv:PATH}", p, &env).unwrap(), path);
}

#[test]
fn unset_and_unfinished_references() {
    assert_eq!(substitute_vars("a${localEnv:NONE}b", "/p", &no_env()).unwrap(), "ab");
    assert_eq!(substitute_vars("a${localEnv:NONE", "/p", &no_env()).unwrap(), "a${localEnv:NONE");
    assert_eq!(substitute_vars("[${localWorkspaceFolderBasename}]", "/", &no_env()).unwrap(), "[]");
    let env = vec![pair("A", "${localEnv:B}"), pair("B", "deep")];
    assert_eq!(substitute_vars("${localEnv:A}", "/p", &env).unwrap(), "deep");
}

#[test]
fn expanded_text_stays_as_it_is() {
    let env = vec![pair("A", "x ${B} }")];
    let once = substitute_vars("${localEnv:A}/${localWorkspaceFolder}", "/p", &env).unwrap();
    assert_eq!(once, "x ${B} }//p");
    assert_eq!(substitute_vars(&once, "/p", &env).unwrap(), once);
    assert_eq!(substitute_vars("plain $HOME {}", "/p", &env).unwrap(), "plain $HOME {}");
}

#[test]
fn container_references_are_left_to_the_container() {
    assert_eq!(
        normalize_env_value("${containerEnv:PATH}:${localWorkspaceFolder}", "/p", &no_env()).unwrap(),
        "${PATH}:/p"
    );
}

#[test]
fn quote_env_value_quotes_literals_but_expands_vars() {
    // Plain literals with spaces/metacharacters get single-quoted whole.
    assert_eq!(quote_env_value("code --wait"), "'code --wait'");
    assert_eq!(quote_env_value("a;b&&c"), "'a;b&&c'");
    assert_eq!(quote_env_value("it's"), "'it'\\''s'");
    // ${VAR} references stay bare so the login shell still expands them
    // (normalize_env_value rewrites ${containerEnv:X} to ${X}).
    assert_eq!(quote_env_value("${PATH}"), "${PATH}");
    assert_eq!(quote_env_value("${PATH}:/foo"), "${PATH}':/foo'");
    assert_eq!(quote_env_value("${A} ${B}"), "${A}' '${B}");
    assert_eq!(quote_env_value("pre ${X} post"), "'pre '${X}' post'");
    // A dangling ${ with no closing brace is treated as a literal.
    assert_eq!(quote_env_value("a${b"), "'a${b'");
}

#[test]
fn profile_exports_all_and_hooks_get_the_literal_ones() {
    let env = vec![pair("A", "x y"), pair("P", "${PATH}:/foo")];
    assert_eq!(
        env_profile(&env),
        "printf '%s\\n' 'export A='\\''x y'\\''' 'export P=${PATH}'\\'':/foo'\\''' > /etc/profile.d/graft-env.sh"
    );
    assert_eq!(exec_env(&env), vec![pair("A", "x y")]);
}

#[test]
fn hash_normalization_ignores_comments_and_formatting() {
    let dc = "devcontainer.json";
    let pretty = normalize_for_hash(dc, br#"{ /* hi */ "a": 1, "b": 2 } // x"#.to_vec());
    let compact = normalize_for_hash(dc, br#"{"b":2,"a":1}"#.to_vec());
    assert_eq!(pretty, compact, "comments/whitespace/key-order must not affect the hash");
}

#[test]
fn hash_normalization_keeps_value_changes() {
    let dc = "devcontainer.json";
    let a = normalize_for_hash(dc, br#"{"a":1}"#.to_vec());
    let b = normalize_for_hash(dc, br#"{"a":2}"#.to_vec());
    assert_ne!(a, b);
}

#[test]
fn hash_leaves_non_json_bytes_untouched() {
    let bytes = b"FROM debian\n// not a comment in a Dockerfile\n".to_vec();
    assert_eq!(normalize_for_hash("Dockerfile", bytes.clone()), bytes);
}

#[test]
fn canonical_form_is_compact_and_sorted() {
    let got = normalize_for_hash("/p/.devcontainer.json", b"{ \"b\": [1, 2], // x\n \"a\": null }".to_vec());
    assert_eq!(got, b"{\"a\":null,\"b\":[1,2]}".to_vec());
    // what does not parse is hashed as it is
    let broken = b"{ \"a\": ".to_vec();
    assert_eq!(normalize_for_hash("/p/devcontainer.json", broken.clone()), broken);
}

#[test]
fn container_name_is_stable_and_path_scoped() {
    let a = container_name("/home/me/proj");
    assert_eq!(a, container_name("/home/me/proj"));
    assert!(a.starts_with("graft-proj-"), "got {a}");
    // same basename, different path → different name (no collision)
    assert_ne!(a, container_name("/elsewhere/proj"));
}

#[test]
fn session_name_prefers_devcontainer_label() {
    let p = "/home/me/proj";
    // The devcontainer's `name` wins and is sanitized for tmux.
    let s = session_name(Some("My App (dev)"), "proj", p);
    assert!(s.starts_with("graft-My-App--dev-"), "got {s}");
    // Falls back to the basename when there's no name.
    assert!(session_name(None, "proj", p).starts_with("graft-proj-"));
    // Same label, different path → different session (no collision).
    assert_ne!(
        session_name(Some("app"), "proj", "/a/proj"),
        session_name(Some("app"), "proj", "/b/proj"),
    );
    // An all-punctuation label degrades to a usable placeholder.
    assert!(session_name(Some("***"), "proj", p).starts_with("graft-workspace-"));
}

#[test]
fn names_end_in_the_hash_of_the_path() {
    assert_eq!(fnv1a(b"", FNV_OFFSET), 0xcbf2_9ce4_8422_2325);
    assert_eq!(fnv1a(b"a", FNV_OFFSET), 0xaf63_dc4c_8601_ec8c);
    assert_eq!(fnv1a(b"foobar", FNV_OFFSET), 0x8594_4171_f739_67e8);
    assert_eq!(container_name("/home/me/proj"), "graft-proj-4e117e");
    assert_eq!(container_name("/"), "graft-workspace-0189fe");
    assert_eq!(session_name(Some("My App (dev)"), "proj", "/home/me/proj"), "graft-My-App--dev-4e117e");
}

#[test]
fn forward_ports_parse_all_spec_forms() {
    let values = array("[3000, \"4000\", \"3000:8080\", \"db:5432\", \"9000/tcp\", false]");
    let parsed = parse_forward_ports(&Some(values));
    assert_eq!(
        parsed,
        vec![
            PortForward::same(3000),
            PortForward::same(4000),
            PortForward { local: 3000, host: None, port: 8080 },
            PortForward { local: 5432, host: Some("db".into()), port: 5432 },
            PortForward::same(9000),
        ]
    );
}

#[test]
fn forward_entries_out_of_range_are_dropped() {
    assert!(parse_forward_ports(&Some(array("[65536, -1, 1.5, \"65536\", \"x\", \"db:x\"]"))).is_empty());
    assert!(parse_forward_ports(&None).is_empty());
    assert_eq!(parse_forward_entry("a:b:1"), None);
    // a prefix of digits alone is never a host
    assert_eq!(parse_forward_entry("70000:8080"), None);
    assert_eq!(
        parse_forward_entry("7db:80"),
        Some(PortForward { local: 80, host: Some("7db".to_string()), port: 80 })
    );
    assert_eq!(parse_forward_entry("+80"), Some(PortForward::same(80)));
}

#[test]
fn mount_to_arg_handles_string_and_object() {
    let p = "/home/me/proj";
    assert_eq!(
        mount_to_arg(&json("\"type=bind,source=/a,target=/b\""), p, &no_env()).unwrap().unwrap(),
        "type=bind,source=/a,target=/b"
    );
    let obj = json("{\"type\": \"volume\", \"source\": \"vol\", \"target\": \"/data\"}");
    assert_eq!(
        mount_to_arg(&obj, p, &no_env()).unwrap().unwrap(),
        "type=volume,source=vol,target=/data"
    );
}

#[test]
fn other_mounts_are_dropped() {
    assert_eq!(mount_to_arg(&json("{}"), "/p", &no_env()), Some(None));
    assert_eq!(mount_to_arg(&json("7"), "/p", &no_env()), Some(None));
}

#[test]
fn run_arguments_mount_the_workspace() {
    assert_eq!(
        build_run_args(&None, &None, &None, "/p", "/w", &no_env()).unwrap(),
        strings(&["-v", "/p:/w", "-w", "/w"])
    );
    assert_eq!(
        build_run_args(
            &Some(strings(&["--net", "${localWorkspaceFolderBasename}"])),
            &Some("source=${localWorkspaceFolder},target=/w".to_string()),
            &Some(array("[\"source=a,target=b\", {}, null]")),
            "/p",
            "/w",
            &no_env()
        )
        .unwrap(),
        strings(&[
            "--mount",
            "source=/p,target=/w",
            "-w",
            "/w",
            "--mount",
            "source=a,target=b",
            "--net",
            "p"
        ])
    );
}

#[test]
fn hash_covers_names_and_contents() {
    let input = |name: &str, bytes: &[u8]| Input {
        name: name.to_string(),
        path: format!("/p/.devcontainer/{name}"),
        bytes: bytes.to_vec(),
    };
    assert_eq!(hash_inputs(vec![]), "cbf29ce484222325");
    let a = hash_inputs(vec![
        input("devcontainer.json", b"{ \"a\": 1 }"),
        input("Dockerfile", b"FROM x\n"),
    ]);
    assert_eq!(a, "d55ca05c81840ef3");
    let b = hash_inputs(vec![
        input("Dockerfile", b"FROM x\n"),
        input("devcontainer.json", b"{\"a\":1} // same"),
    ]);
    assert_eq!(a, b);
    let c = hash_inputs(vec![
        input("Dockerfile", b"FROM x\n\n"),
        input("devcontainer.json", b"{\"a\":1}"),
    ]);
    assert_ne!(a, c);
}

#[test]
fn whole_directory_is_hashed_if_it_is_the_usual_one() {
    assert_eq!(
        scope("/p/.devcontainer/devcontainer.json", &strings(&["/x"])),
        Scope::Tree("/p/.devcontainer".to_string())
    );
    assert_eq!(
        scope("/p/.devcontainer.json", &strings(&["/x"])),
        Scope::Files(strings(&["/p/.devcontainer.json", "/x"]))
    );
}

#[test]
fn remote_hash_covers_the_other_files_and_the_configuration() {
    assert_eq!(
        remote_hash_script("/p q/.devcontainer/devcontainer.json", &strings(&["/x"])),
        "find '/p q/.devcontainer' '/x' -type f 2>/dev/null | LC_ALL=C grep -vxF -e '/p q/.devcontainer/devcontainer.json' | sort | xargs sha256sum 2>/dev/null | sha256sum"
    );
    let path = "/p/.devcontainer/devcontainer.json";
    let hash = |config: &str, out: &Output| remote_hash("h", path, config.as_bytes().to_vec(), out);
    let own = format!("{:016x}", fnv1a(b"{\"a\":1}", FNV_OFFSET));
    assert_eq!(hash("{\"a\":1}", &output(0, "abc  -\n")), Ok(format!("abc-{own}")));
    assert_eq!(hash("{ \"a\": 1 } // same", &output(0, "abc  -\n")), Ok(format!("abc-{own}")));
    assert_eq!(hash("{\"a\":1}", &output(0, "\n")), Ok(format!("0-{own}")));
    assert_ne!(hash("{\"a\":2}", &output(0, "abc  -\n")), Ok(format!("abc-{own}")));
    assert_eq!(
        hash("{}", &output(3, "")),
        Err(Failure::Message(
            "hashing devcontainer inputs on h failed (exit status: 3): oops".to_string()
        ))
    );
}

#[test]
fn lookup_follows_the_usual_order() {
    let nested = "/p/.devcontainer/devcontainer.json".to_string();
    assert_eq!(find_config("/p", true, true, &vec![]), Ok((nested, None)));
    assert_eq!(
        find_config("/p", false, true, &strings(&["a"])),
        Ok(("/p/.devcontainer.json".to_string(), None))
    );
    assert_eq!(
        find_config("/p", false, false, &strings(&["b", "a"])),
        Ok((
            folder_config("/p", "a"),
            Some("[graft] multiple devcontainer configs found, using /p/.devcontainer/a/devcontainer.json".to_string())
        ))
    );
    assert_eq!(
        find_config("/p", false, false, &vec![]),
        Err(Failure::Message(
            "no devcontainer config found in /p (looked for .devcontainer/devcontainer.json, .devcontainer.json, and .devcontainer/*/devcontainer.json)".to_string()
        ))
    );
}

#[test]
fn remote_probe_tells_a_missing_configuration_from_a_failed_connection() {
    let cmd = ssh_find_and_read_config("h", "/p", &runtime());
    assert_eq!(
        cmd.args.last().unwrap(),
        "sh -c 'for f in '\\''/p/.devcontainer/devcontainer.json'\\'' '\\''/p/.devcontainer.json'\\'' '\\''/p/.devcontainer'\\''/*/devcontainer.json; do [ -f \"$f\" ] && { printf '\\''%s\\0'\\'' \"$f\"; cat \"$f\"; exit 0; }; done; exit 1'"
    );
    assert_eq!(
        probed("h", "/p", &output(0, "/p/x.json\0{\0}")),
        Ok(("/p/x.json".to_string(), b"{\0}".to_vec()))
    );
    assert_eq!(
        probed("h", "/p", &output(0, "nothing")),
        Err(Failure::Message("unexpected output from remote config probe".to_string()))
    );
    assert_eq!(
        probed("h", "/p", &output(1, "")),
        Err(Failure::Message(
            "no devcontainer config found in /p on h (looked for .devcontainer/devcontainer.json, .devcontainer.json, and .devcontainer/*/devcontainer.json)".to_string()
        ))
    );
    assert_eq!(
        probed("h", "/p", &output(255, "")),
        Err(Failure::Message("ssh to h failed (exit status: 255): oops".to_string()))
    );
    assert_eq!(config_text(&b"{}".to_vec()), Ok("{}".to_string()));
    assert!(config_text(&b"\xff".to_vec()).is_err());
}

#[test]
fn image_is_run_as_a_container() {
    let mut c = image();
    c.name = Some("App".to_string());
    c.container_env = Some(vec![pair("A", "1"), pair("B", "${containerEnv:A}")]);
    c.remote_env = Some(vec![pair("A", "2")]);
    c.forward_ports = Some(array("[80]"));
    c.features = Some(vec![
        ("f".to_string(), json("{\"v\": 1}")),
        ("g".to_string(), json("\"latest\"")),
    ]);
    let spec = load(c).unwrap();
    assert_eq!(spec.base_dir, "/home/me/proj/.devcontainer");
    assert_eq!(spec.workspace_folder, "/workspaces/proj");
    assert_eq!(spec.session_name, "graft-App-4e117e");
    assert_eq!(spec.env, vec![pair("A", "2"), pair("B", "${A}")]);
    assert_eq!(spec.forward_ports, vec![PortForward::same(80)]);
    assert_eq!(spec.features[0].options, vec![("v".to_string(), json("1"))]);
    assert!(spec.features[1].options.is_empty());
    assert!(spec.hash_extra.is_empty());
    assert_eq!(
        spec.backend,
        Backend::Container(ContainerBackend {
            remote: None,
            name: "graft-proj-4e117e".to_string(),
            source: ImageSource::Image("debian".to_string()),
            run_args: strings(&["-v", "/home/me/proj:/workspaces/proj", "-w", "/workspaces/proj"]),
        })
    );
}

#[test]
fn build_settings_prefer_the_build_section() {
    let mut c = empty();
    c.docker_file = Some("Old".to_string());
    c.context = Some("..".to_string());
    c.workspace_folder = Some("${localWorkspaceFolder}".to_string());
    c.build = Some(BuildConfig {
        dockerfile: Some("New".to_string()),
        context: None,
        target: Some("dev".to_string()),
        args: vec![pair("K", "v")],
    });
    let spec = load(c).unwrap();
    assert_eq!(spec.workspace_folder, "/home/me/proj");
    match spec.backend {
        Backend::Container(b) => assert_eq!(
            b.source,
            ImageSource::Build {
                context: "/home/me/proj/.devcontainer/..".to_string(),
                dockerfile: Some("New".to_string()),
                target: Some("dev".to_string()),
                args: vec![pair("K", "v")],
                tag: "graft-proj-4e117e-img".to_string(),
            }
        ),
        other => panic!("got {other:?}"),
    }
}

#[test]
fn compose_wins_over_an_image() {
    let mut c = compose();
    c.image = Some("debian".to_string());
    let spec = load(c).unwrap();
    assert_eq!(
        spec.hash_extra,
        strings(&["/home/me/proj/.devcontainer/a.yml", "/home/me/proj/.devcontainer/../b.yml"])
    );
    assert_eq!(
        spec.backend,
        Backend::Compose(ComposeBackend {
            remote: None,
            dir: "/home/me/proj/.devcontainer".to_string(),
            files: strings(&["a.yml", "../b.yml"]),
            service: "dev".to_string(),
            project: "graft-proj-4e117e".to_string(),
        })
    );
}

#[test]
fn incomplete_configurations_are_refused() {
    let message = |s: &str| Err(Failure::Message(s.to_string()));
    assert_eq!(
        load(empty()),
        message("devcontainer.json must set one of: dockerComposeFile, image, build, or dockerFile")
    );
    let mut c = compose();
    c.service = None;
    assert_eq!(load(c), message("devcontainer.json with dockerComposeFile is missing 'service'"));
    let mut c = compose();
    c.docker_compose_file = Some(json("7"));
    assert_eq!(load(c), message("unexpected dockerComposeFile format"));
}

#[test]
fn hook_runs_each_command_in_the_workspace() {
    let docker = Docker::new(&None, &runtime());
    let cmd = Cmd::Named(vec![
        ("a".to_string(), OneCmd::Shell("make all".to_string())),
        ("b".to_string(), OneCmd::Exec(strings(&["echo", "hi"]))),
    ]);
    let hook = run_in_container(&docker, "c", "/w", &vec![pair("K", "v")], "postCreateCommand", &cmd);
    assert_eq!(hook.note, "[graft] postCreateCommand");
    assert_eq!(hook.parts[0].note, Some("[graft]   a".to_string()));
    assert_eq!(
        hook.parts[0].job.command.args,
        ["exec", "--workdir", "/w", "-e", "K=v", "c", "sh", "-c", "make all"]
    );
    assert_eq!(
        hook.parts[1].job.command.args,
        ["exec", "--workdir", "/w", "-e", "K=v", "c", "echo", "hi"]
    );
    assert!(all_succeeded(&vec![true, true]));
    assert!(!all_succeeded(&vec![true, false]));
    assert_eq!(hook_failed("x", "boom"), "[graft] x failed (continuing): boom");
}

#[test]
fn host_command_runs_where_the_project_is() {
    let steps = run_on_host("/d", "initializeCommand", &Cmd::Shell("ls".to_string()), &None, &runtime());
    assert_eq!(steps[0], Step::Say("[graft] initializeCommand (host)".to_string()));
    match &steps[1] {
        Step::RunQuiet(job) => {
            assert_eq!((job.command.program.as_str(), job.command.dir.as_deref()), ("sh", Some("/d")));
            assert_eq!(job.failure, Failure::Message("initializeCommand failed".to_string()));
        }
        other => panic!("got {other:?}"),
    }
    let cmd = Cmd::Exec(strings(&["echo", "a b"]));
    let steps = run_on_host("/d", "x", &cmd, &Some("h".to_string()), &runtime());
    assert_eq!(jobs(&steps)[0].last().unwrap(), "cd '/d' && 'echo' 'a b'");
    assert_eq!(run_on_host("/d", "x", &Cmd::Exec(vec![]), &None, &runtime()).len(), 1);
}

#[test]
fn candidates_are_sorted_without_repetition() {
    assert_eq!(
        discover_workdirs(&output(0, "/z\n/a\n"), &output(0, "/m\n/a\n\n")),
        strings(&["/a", "/m", "/z"])
    );
    // a place that is missing fails the listing, which tells of the other
    assert_eq!(
        discover_workdirs(&output(0, "/b\n/a\n/b\n"), &output(1, "/workspaces/x\n")),
        strings(&["/a", "/b", "/workspaces/x"])
    );
    // a listing that is not UTF-8 adds nothing
    let mut garbled = output(0, "");
    garbled.stdout = b"/workspaces/x\n/workspaces/\xff\n".to_vec();
    assert_eq!(discover_workdirs(&output(0, "/z\n"), &garbled), strings(&["/z"]));
    let mut gone = output(0, "/m\n");
    gone.ended = Ended::NotStarted("no docker".to_string());
    assert_eq!(discover_workdirs(&output(1, "/z\n"), &gone), strings(&[]));
}

#[test]
fn directory_is_chosen_by_number_or_path() {
    let c = strings(&["/a", "/b"]);
    let take = |s: &str| Choice::Take(s.to_string());
    assert_eq!(choose_workdir(&c, Some("2\n")), take("/b"));
    assert_eq!(choose_workdir(&c, Some(" /x \n")), take("/x"));
    assert_eq!(choose_workdir(&c, Some("\n")), take("/"));
    assert_eq!(choose_workdir(&c, None), take("/"));
    assert_eq!(
        choose_workdir(&c, Some("3")),
        Choice::Again("[graft] Enter a number between 1 and 2 or an absolute path.".to_string())
    );
    assert_eq!(
        choose_workdir(&c, Some("x")),
        Choice::Again(
            "[graft] Enter a number from the list or an absolute path starting with '/'.".to_string()
        )
    );
    let q = select_workdir("/w", &c, true);
    assert!(q.ask);
    assert_eq!(q.lines[2], "  1) /a");
    assert!(!select_workdir("/w", &c, false).ask);
    assert!(!select_workdir("/w", &vec![], true).ask);
}

#[test]
fn only_yes_confirms() {
    assert!(confirmed(" Y\n") && confirmed("yes"));
    assert!(!confirmed("") && !confirmed("yeah"));
    assert!(confirm("ok?", true).ask);
    assert!(!confirm("ok?", false).ask);
}

#[test]
fn backend_finds_its_container() {
    let spec = load(image()).unwrap();
    assert_eq!(
        spec.backend.existing(&runtime()).args,
        ["ps", "-aq", "--filter", "name=^graft-proj-4e117e$"]
    );
    assert_eq!(spec.backend.existing_id(&output(1, "\n id \n")), Ok(Some("id".to_string())));
    assert_eq!(spec.backend.existing_id(&output(0, "")), Ok(None));
    let spec = load(compose()).unwrap();
    assert_eq!(
        spec.backend.existing(&runtime()).args,
        [
            "compose",
            "-p",
            "graft-proj-4e117e",
            "-f",
            "a.yml",
            "-f",
            "../b.yml",
            "ps",
            "-a",
            "-q",
            "dev"
        ]
    );
    assert_eq!(spec.backend.existing_id(&output(0, "id\n")), Ok(Some("id".to_string())));
    assert_eq!(
        spec.backend.existing_id(&output(1, "")),
        Err(Failure::Message("docker compose ps failed: oops".to_string()))
    );
    assert_eq!(
        spec.backend.found(&output(0, "")),
        Err(Failure::Message("could not find running container for service 'dev'".to_string()))
    );
}

#[test]
fn compose_layers_the_flags_over_the_project() {
    let spec = load(compose()).unwrap();
    let mut flags = CreateFlags::default();
    flags.init = true;
    let up = spec.backend.up(true, &flags, false, &runtime());
    let temp = "/tmp/graft-compose-override-7.yml";
    assert_eq!(
        up.steps[0],
        Step::WriteTemp {
            temp: temp.to_string(),
            contents: "services:\n  dev:\n    init: true\n".to_string(),
            context: "writing compose override".to_string()
        }
    );
    assert_eq!(
        jobs(&up.steps)[0],
        [
            "compose",
            "-p",
            "graft-proj-4e117e",
            "-f",
            "a.yml",
            "-f",
            "../b.yml",
            "-f",
            temp,
            "up",
            "-d",
            "--build",
            "--force-recreate"
        ]
    );
}

#[test]
fn container_is_kept_or_made_anew() {
    let spec = load(image()).unwrap();
    let flags = CreateFlags::default();
    let name = "graft-proj-4e117e";
    let up = spec.backend.up(false, &flags, true, &runtime());
    assert_eq!(jobs(&up.steps), vec![strings(&["start", name])]);
    let up = spec.backend.up(true, &flags, true, &runtime());
    assert_eq!(
        jobs(&up.steps),
        vec![
            strings(&["rm", "-f", name]),
            strings(&[
                "run",
                "-d",
                "--name",
                name,
                "-v",
                "/home/me/proj:/workspaces/proj",
                "-w",
                "/workspaces/proj",
                "debian",
                "sleep",
                "infinity"
            ])
        ]
    );
}

#[test]
fn first_start_makes_the_container_and_records_the_hash() {
    let mut c = image();
    c.on_create_command = Some(Cmd::Shell("make".to_string()));
    c.container_env = Some(vec![pair("A", "1")]);
    let spec = load(c).unwrap();
    let (mut s, turn) = start(spec, "h1".to_string(), false, &None, &runtime());
    assert_eq!(run_args(&turn)[0], "ps");
    // no container: no features are asked for, and the container is made
    let turn = s.step(Event::Ran(output(0, "")));
    assert_eq!(run_args(&turn)[0], "ps");
    let turn = s.step(Event::Ran(output(0, "")));
    let done = jobs(&turn.steps);
    assert_eq!(done[0][0], "run");
    assert_eq!(done[1].last().unwrap(), "mkdir -p /opt/graft && printf %s 'h1' > /opt/graft/devcontainer.hash");
    assert!(done[2].last().unwrap().ends_with("> /etc/profile.d/graft-env.sh"));
    // the create hook has not run yet
    assert_eq!(run_args(&turn).last().unwrap(), "/opt/graft/state/onCreate");
    let turn = s.step(Event::Ran(output(1, "")));
    match &turn.next {
        Next::Hook(h) => assert_eq!(h.label, "onCreateCommand"),
        other => panic!("got {other:?}"),
    }
    let turn = s.step(Event::HookDone(true));
    assert!(jobs(&turn.steps)[0].last().unwrap().ends_with("'/opt/graft/state/onCreate'"));
    assert_eq!(run_args(&turn).last().unwrap(), "/workspaces/proj");
    let turn = s.step(Event::Ran(output(0, "")));
    assert_eq!(turn.next, Next::Done);
    let started = s.finish().unwrap();
    assert_eq!(started.container, "graft-proj-4e117e");
    assert_eq!(started.workdir, "/workspaces/proj");
    assert_eq!(started.env, vec![pair("A", "1")]);
    assert_eq!(started.run_post_attach(&None, &runtime()), None);
}

/// A start that waits for whether the create hook has run.
fn before_hook() -> Starting {
    let mut c = image();
    c.on_create_command = Some(Cmd::Shell("make".to_string()));
    let (mut s, _) = start(load(c).unwrap(), "h1".to_string(), false, &None, &runtime());
    s.step(Event::Ran(output(0, "")));
    s.step(Event::Ran(output(0, "")));
    s
}

#[test]
fn failing_initialize_command_is_told_and_the_container_comes_up() {
    let mut c = image();
    c.initialize_command = Some(Cmd::Shell("make".to_string()));
    let begun = |c: DevcontainerConfig| {
        let (mut s, _) = start(load(c).unwrap(), "h".to_string(), false, &None, &runtime());
        let turn = s.step(Event::Ran(output(0, "")));
        (s, turn)
    };
    let (mut s, turn) = begun(c);
    match &turn.next {
        Next::OnHost(steps) => {
            assert_eq!(steps[0], Step::Say("[graft] initializeCommand (host)".to_string()));
        }
        other => panic!("got {other:?}"),
    }
    let turn = s.step(Event::Initialized(Err("initializeCommand failed".to_string())));
    assert_eq!(
        turn.prepare,
        vec![Step::Warn(
            "[graft] initializeCommand failed (continuing): initializeCommand failed".to_string()
        )]
    );
    assert_eq!(run_args(&turn)[0], "ps");
    let turn = s.step(Event::Ran(output(0, "")));
    assert_eq!(jobs(&turn.steps)[0][0], "run");
    s.step(Event::Ran(output(0, "")));
    assert_eq!(s.finish().unwrap().container, "graft-proj-4e117e");

    let mut c = image();
    c.initialize_command = Some(Cmd::Shell("make".to_string()));
    let (mut s, _) = begun(c);
    let turn = s.step(Event::Initialized(Ok(())));
    assert!(turn.prepare.is_empty());
    assert_eq!(run_args(&turn)[0], "ps");
}

#[test]
fn create_hook_that_has_run_is_skipped() {
    let mut s = before_hook();
    let turn = s.step(Event::Ran(output(0, "")));
    assert!(turn.steps.is_empty());
    assert_eq!(run_args(&turn).last().unwrap(), "/workspaces/proj");
}

#[test]
fn create_hook_that_fails_is_not_recorded() {
    let mut s = before_hook();
    s.step(Event::Ran(output(1, "")));
    let turn = s.step(Event::HookDone(false));
    assert!(turn.steps.is_empty());
    assert_eq!(run_args(&turn).last().unwrap(), "/workspaces/proj");
}

fn drifted() -> (Starting, Turn) {
    let (mut s, _) = start(load(image()).unwrap(), "new".to_string(), false, &None, &runtime());
    let turn = s.step(Event::Ran(output(0, "old-id\n")));
    match &turn.next {
        Next::ReadHash { fetch, temp } => {
            assert_eq!(temp, "/tmp/graft-dchash-old-id");
            assert!(matches!(fetch, Fetch::Direct(_)));
        }
        other => panic!("got {other:?}"),
    }
    let turn = s.step(Event::HashRead(Some("old\n".to_string())));
    (s, turn)
}

#[test]
fn changed_configuration_is_asked_about() {
    let (mut s, turn) = drifted();
    assert!(matches!(turn.next, Next::Confirm(_)));
    s.step(Event::Confirmed(true));
    let turn = s.step(Event::Ran(output(0, "old-id\n")));
    assert_eq!(jobs(&turn.steps)[0][0], "rm");
    assert_eq!(jobs(&turn.steps)[1][0], "run");

    let (mut s, _) = drifted();
    s.step(Event::Confirmed(false));
    let turn = s.step(Event::Ran(output(0, "old-id\n")));
    assert_eq!(jobs(&turn.steps), vec![strings(&["start", "graft-proj-4e117e"])]);
}

#[test]
fn unchanged_configuration_is_started_at_once() {
    let (mut s, _) = start(load(image()).unwrap(), "h".to_string(), false, &None, &runtime());
    s.step(Event::Ran(output(0, "id\n")));
    let turn = s.step(Event::HashRead(Some(" h\n".to_string())));
    assert_eq!(run_args(&turn)[0], "ps");
    assert_eq!(stored_hash(&Some(" h\n".to_string())), Some("h".to_string()));
    assert_eq!(stored_hash(&Some(" \n".to_string())), None);
    assert_eq!(stored_hash(&None), None);
    let out = output(0, "abc  -\n");
    let remote = remote_hash("h", "/p/.devcontainer.json", b"{}".to_vec(), &out).unwrap();
    assert_eq!(stored_hash(&Some(remote.clone())), Some(remote));
}

#[test]
fn missing_features_are_fetched_for_a_container_that_is_kept() {
    let mut c = image();
    c.features = Some(vec![("./f".to_string(), json("{}"))]);
    let (mut s, _) = start(load(c).unwrap(), "h".to_string(), false, &None, &runtime());
    s.step(Event::Ran(output(0, "id\n")));
    s.step(Event::HashRead(Some("h".to_string())));
    let turn = s.step(Event::Ran(output(0, "id\n")));
    assert!(matches!(&turn.next, Next::Probe(p) if p.len() == 1));
    let turn = s.step(Event::Probed(vec![Ended::Exited(Some(1))]));
    assert!(matches!(&turn.next, Next::Fetch(f) if f.features.len() == 1));
    // nothing could be fetched: the start goes on to the workspace
    let turn = s.step(Event::Planned(Plan::empty()));
    assert!(matches!(turn.next, Next::Run(_) | Next::Install(_)));
}

#[test]
fn missing_workspace_is_chosen() {
    let (mut s, _) = start(load(image()).unwrap(), "h".to_string(), true, &None, &runtime());
    // a forced build asks neither for the hash nor the user
    let turn = s.step(Event::Ran(output(0, "id\n")));
    assert_eq!(run_args(&turn)[0], "ps");
    s.step(Event::Ran(output(0, "id\n")));
    let turn = s.step(Event::Ran(output(1, "")));
    assert_eq!(run_args(&turn)[0], "inspect");
    s.step(Event::Ran(output(0, "/m\n")));
    let turn = s.step(Event::Ran(output(0, "/workspaces/x\n")));
    assert_eq!(
        turn.next,
        Next::Choose {
            configured: "/workspaces/proj".to_string(),
            candidates: strings(&["/m", "/workspaces/x"])
        }
    );
    assert_eq!(s.step(Event::Chosen("/m".to_string())).next, Next::Done);
    assert_eq!(s.finish().unwrap().workdir, "/m");
}

#[test]
fn start_fails_when_the_daemon_cannot_be_asked() {
    let (mut s, _) = start(load(compose()).unwrap(), "h".to_string(), false, &None, &runtime());
    let turn = s.step(Event::Ran(output(1, "")));
    assert_eq!(
        turn.next,
        Next::Fail(Failure::Message("docker compose ps failed: oops".to_string()))
    );
    assert_eq!(s.finish(), None);
}

#[test]
fn stop_keeps_the_container() {
    let spec = load(image()).unwrap();
    let steps = stop(&spec, &None, &output(0, "id\n"), &runtime()).unwrap();
    assert_eq!(steps[0], Step::Say("[graft] stopping id".to_string()));
    assert_eq!(jobs(&steps), vec![strings(&["stop", "id"])]);
    assert_eq!(
        stop(&spec, &None, &output(0, ""), &runtime()).unwrap(),
        vec![Step::Say("[graft] no container exists for this devcontainer".to_string())]
    );
}
