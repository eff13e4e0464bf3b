use graft::docker::Docker;
use graft::features::{
    build_env, env_name, fetch_failed, install, install_probes, is_local_ref, matches_ref,
    meta_path, order, parse_mount, resolve, validate_options, warn_unsupported,
    CreateFlags, FeatureMeta, FeatureMount, FeatureRequest, OptionSpec, Plan, Resolved, Settled,
    Source,
};
use graft::invocation::{Ended, Failure};
use graft::json::{Json, JsonKind};
use graft::runtime::Runtime;
use graft::script::Step;
use graft::verbose::Verbosity;
use serde_json::Value;

fn convert(v: &Value) -> Json {
    let kind = match v {
        Value::Null => JsonKind::Null,
        Value::Bool(b) => JsonKind::Bool(*b),
        Value::Number(n) => JsonKind::Number(n.as_u64()),
        Value::String(s) => JsonKind::Text(s.clone()),
        Value::Array(a) => JsonKind::Array(a.iter().map(convert).collect()),
        Value::Object(o) => {
            JsonKind::Object(o.iter().map(|(k, v)| (k.clone(), convert(v))).collect())
        }
    };
    Json { text: v.to_string(), kind }
}

fn json(s: &str) -> Json {
    convert(&serde_json::from_str::<Value>(s).unwrap())
}

fn strings(items: &[&str]) -> Vec<String> {
    items.iter().map(|s| s.to_string()).collect()
}

fn runtime() -> Runtime {
    Runtime { verbosity: Verbosity { level: 0 }, temp_dir: "/tmp".to_string(), pid: 7 }
}

fn meta(id: &str, installs_after: &[&str]) -> FeatureMeta {
    FeatureMeta {
        id: id.to_string(),
        options: vec![],
        installs_after: strings(installs_after),
        container_env: vec![],
        mounts: vec![],
        privileged: false,
        cap_add: vec![],
        security_opt: vec![],
        init: false,
        entrypoint: None,
    }
}

fn resolved(reference: &str, id: &str, installs_after: &[&str]) -> Resolved {
    Resolved {
        reference: reference.to_string(),
        options: vec![],
        meta: meta(id, installs_after),
        dir: String::new(),
    }
}

fn request(reference: &str) -> FeatureRequest {
    FeatureRequest { reference: reference.to_string(), options: vec![] }
}

#[test]
fn env_name_uppercases_and_sanitizes() {
    assert_eq!(env_name("nodeGypDependencies"), "NODEGYPDEPENDENCIES");
    assert_eq!(env_name("install-yarn"), "INSTALL_YARN");
    assert_eq!(env_name("a.b"), "A_B");
}

#[test]
fn stringify_each_kind() {
    assert_eq!(graft::features::stringify(&json("\"lts\"")), "lts"); // no surrounding quotes
    assert_eq!(graft::features::stringify(&json("true")), "true");
    assert_eq!(graft::features::stringify(&json("20")), "20");
    assert_eq!(graft::features::stringify(&json("null")), "");
}

#[test]
fn stringify_keeps_the_notation_of_collections() {
    assert_eq!(graft::features::stringify(&json("[1, \"a\"]")), "[1,\"a\"]");
    assert_eq!(graft::features::stringify(&json("false")), "false");
}

#[test]
fn distinguishes_local_refs() {
    assert!(is_local_ref("./my-feature"));
    assert!(is_local_ref("../shared/feat"));
    assert!(is_local_ref("/abs/feat"));
    assert!(!is_local_ref("ghcr.io/devcontainers/features/node:1"));
}

#[test]
fn matches_ref_by_ref_tag_and_id() {
    let r = resolved("ghcr.io/devcontainers/features/node:1", "node", &[]);
    assert!(matches_ref("ghcr.io/devcontainers/features/node:1", &r));
    assert!(matches_ref("ghcr.io/devcontainers/features/node", &r)); // tag stripped
    assert!(matches_ref("node", &r)); // by id
    assert!(!matches_ref("ghcr.io/devcontainers/features/go", &r));
}

#[test]
fn registry_port_is_no_tag() {
    let r = resolved("localhost:5000/y/node", "node", &[]);
    assert!(!matches_ref("localhost:5000/x/go", &r));
    assert!(matches_ref("localhost:5000/y/node:2", &r));
    assert!(matches_ref("localhost:5000/z/node", &r)); // by id
}

#[test]
fn order_puts_installs_after_dependency_first() {
    // node installsAfter common-utils; input deliberately in the wrong order.
    let v = vec![
        resolved("ghcr.io/x/node:1", "node", &["ghcr.io/x/common-utils"]),
        resolved("ghcr.io/x/common-utils:1", "common-utils", &[]),
    ];
    let ids: Vec<_> = order(v, &vec![]).into_iter().map(|r| r.meta.id).collect();
    assert_eq!(ids, vec!["common-utils", "node"]);
}

#[test]
fn order_respects_override_then_reference() {
    let v = vec![
        resolved("ghcr.io/x/a:1", "a", &[]),
        resolved("ghcr.io/x/b:1", "b", &[]),
    ];
    let ids: Vec<_> = order(v, &vec!["ghcr.io/x/b".to_string()])
        .into_iter()
        .map(|r| r.meta.id)
        .collect();
    assert_eq!(ids, vec!["b", "a"]); // b promoted by override order
}

#[test]
fn order_keeps_equal_references_as_they_came() {
    let v = vec![resolved("x", "one", &[]), resolved("a", "two", &[]), resolved("x", "three", &[])];
    let ids: Vec<_> = order(v, &vec![]).into_iter().map(|r| r.meta.id).collect();
    assert_eq!(ids, vec!["two", "one", "three"]);
}

#[test]
fn parse_mount_string_and_object() {
    let m = parse_mount(&json("\"type=bind,source=/a,target=/b\"")).unwrap();
    assert_eq!(
        (m.source.as_str(), m.target.as_str(), m.kind.as_deref()),
        ("/a", "/b", Some("bind"))
    );
    let m = parse_mount(&json("{\"source\": \"vol\", \"target\": \"/d\"}")).unwrap();
    assert_eq!((m.source.as_str(), m.target.as_str(), m.kind), ("vol", "/d", None));
    assert!(parse_mount(&json("\"source=/a\"")).is_none()); // missing target
}

#[test]
fn parse_mount_takes_the_last_of_several() {
    let m = parse_mount(&json("\"src=/a, source =/b,dst=/c,destination=/d,ro\"")).unwrap();
    assert_eq!((m.source.as_str(), m.target.as_str(), m.kind), ("/b", "/d", None));
    assert!(parse_mount(&json("7")).is_none());
    assert!(parse_mount(&json("{\"source\": 1, \"target\": \"/d\"}")).is_none());
}

#[test]
fn create_flags_render_run_args_and_compose() {
    let flags = CreateFlags {
        mounts: vec![FeatureMount {
            source: "v".into(),
            target: "/d".into(),
            kind: Some("volume".into()),
        }],
        privileged: true,
        cap_add: vec!["SYS_PTRACE".into()],
        security_opt: vec![],
        init: true,
    };
    let args = flags.run_args();
    assert!(args.contains(&"--privileged".to_string()));
    assert!(args.contains(&"--init".to_string()));
    assert!(args.contains(&"--cap-add".to_string()) && args.contains(&"SYS_PTRACE".to_string()));
    assert!(args.iter().any(|a| a == "type=volume,source=v,target=/d"));

    let ov = flags.compose_override("dev");
    assert!(ov.starts_with("services:\n  dev:\n"));
    assert!(ov.contains("privileged: true"));
    assert!(ov.contains("init: true"));
    assert!(ov.contains("- SYS_PTRACE"));
    assert!(ov.contains("\"v:/d\""));
}

#[test]
fn create_flags_render_exactly() {
    let flags = CreateFlags {
        mounts: vec![FeatureMount { source: "v".into(), target: "/d".into(), kind: None }],
        privileged: false,
        cap_add: strings(&["A", "B"]),
        security_opt: strings(&["seccomp=unconfined"]),
        init: true,
    };
    assert_eq!(
        flags.run_args(),
        strings(&[
            "--init",
            "--cap-add",
            "A",
            "--cap-add",
            "B",
            "--security-opt",
            "seccomp=unconfined",
            "--mount",
            "source=v,target=/d"
        ])
    );
    assert_eq!(
        flags.compose_override("dev"),
        "services:\n  dev:\n    init: true\n    cap_add:\n      - A\n      - B\n    security_opt:\n      - seccomp=unconfined\n    volumes:\n      - \"v:/d\"\n"
    );
    assert!(!flags.is_empty());
}

#[test]
fn create_flags_empty_is_empty() {
    assert!(CreateFlags::default().is_empty());
}

#[test]
fn empty_flags_give_no_arguments() {
    assert!(CreateFlags::default().run_args().is_empty());
}

#[test]
fn order_does_not_hang_on_cycle() {
    let v = vec![
        resolved("ghcr.io/x/a:1", "a", &["ghcr.io/x/b"]),
        resolved("ghcr.io/x/b:1", "b", &["ghcr.io/x/a"]),
    ];
    assert_eq!(order(v, &vec![]).len(), 2); // both emitted, no panic/hang
}

#[test]
fn plan_collects_the_flags_of_all_features() {
    let mut a = resolved("a", "a", &[]);
    a.meta.privileged = true;
    a.meta.cap_add = strings(&["X"]);
    a.meta.mounts = vec![json("\"source=s,target=t\""), json("1")];
    let mut b = resolved("b", "b", &[]);
    b.meta.init = true;
    b.meta.cap_add = strings(&["Y"]);
    let flags = Plan { resolved: vec![a, b], work: None }.create_flags();
    assert_eq!(
        flags,
        CreateFlags {
            mounts: vec![FeatureMount { source: "s".into(), target: "t".into(), kind: None }],
            privileged: true,
            cap_add: strings(&["X", "Y"]),
            security_opt: vec![],
            init: true,
        }
    );
}

#[test]
fn options_become_variables_with_defaults() {
    let mut r = resolved("x", "x", &[]);
    r.meta.options = vec![
        ("nodeVersion".to_string(), OptionSpec { default: json("\"lts\""), enum_values: None }),
        ("yarn".to_string(), OptionSpec { default: json("true"), enum_values: None }),
    ];
    r.options = vec![("yarn".to_string(), json("false")), ("other".to_string(), json("1"))];
    let env = build_env(&r);
    let pair = |k: &str, v: &str| (k.to_string(), v.to_string());
    assert_eq!(
        env,
        vec![
            pair("NODEVERSION", "lts"),
            pair("YARN", "false"),
            pair("_REMOTE_USER", "root"),
            pair("_REMOTE_USER_HOME", "/root"),
            pair("_CONTAINER_USER", "root"),
            pair("_CONTAINER_USER_HOME", "/root"),
        ]
    );
}

#[test]
fn undeclared_values_are_warned_about() {
    let mut r = resolved("ref", "x", &[]);
    r.meta.options = vec![(
        "v".to_string(),
        OptionSpec {
            default: json("1"),
            enum_values: Some(vec![json("1"), json("\"two\""), json("[1,{\"a\":2}]")]),
        },
    )];
    r.options = vec![("v".to_string(), json("\"two\""))];
    assert!(validate_options(&r).is_empty());
    r.options = vec![("v".to_string(), json("[1, {\"a\": 2}]"))];
    assert!(validate_options(&r).is_empty());
    r.options = vec![("v".to_string(), json("\"three\"")), ("w".to_string(), json("1"))];
    assert_eq!(
        validate_options(&r),
        vec!["[graft] warning: feature ref option v=\"three\" is not one of its declared values"]
    );
    assert_eq!(warn_unsupported(&r), None);
    r.meta.entrypoint = Some("/init".to_string());
    assert_eq!(
        warn_unsupported(&r).unwrap(),
        "[graft] warning: feature ref declares an entrypoint, which graft can't apply (the container runs `sleep infinity`); ignoring it"
    );
}

#[test]
fn features_are_fetched_from_disk_or_pulled() {
    assert_eq!(resolve("/p", vec![], &runtime()), None);
    let f = resolve("/p/.devcontainer", vec![request("./f")], &runtime()).unwrap();
    assert_eq!(f.probe, None);
    assert_eq!(f.tasks[0].source, Source::Local("/p/.devcontainer/./f".to_string()));

    let f = resolve("/p", vec![request("/abs"), request("ghcr.io/x/y:1")], &runtime()).unwrap();
    let (probe, warning) = f.probe.as_ref().unwrap();
    assert_eq!((probe.program.as_str(), probe.args.as_slice()), ("oras", &strings(&["version"])[..]));
    assert_eq!(
        warning,
        "[graft] warning: devcontainer features need `oras` (https://oras.land); skipping 2 feature(s)"
    );
    assert_eq!(f.work, "/tmp/graft-features-7");
    assert_eq!(f.tasks[1].note, "[graft] fetching feature ghcr.io/x/y:1");
    match &f.tasks[1].source {
        Source::Artifact(p) => {
            assert_eq!(p.job.command.args, strings(&["pull", "ghcr.io/x/y:1"]));
            assert_eq!(p.job.command.dir, Some("/tmp/graft-features-7/1".to_string()));
            assert_eq!(p.content, "/tmp/graft-features-7/1/content");
            let entries = vec![("d".to_string(), false), ("layer".to_string(), true)];
            assert_eq!(
                p.extract(&entries).unwrap().command.args,
                strings(&["xf", "layer", "-C", "/tmp/graft-features-7/1/content"])
            );
            assert_eq!(
                p.extract(&vec![]),
                Err(Failure::Message(
                    "oras pull produced no artifact for ghcr.io/x/y:1".to_string()
                ))
            );
        }
        other => panic!("got {other:?}"),
    }
    assert_eq!(meta_path("/d"), "/d/devcontainer-feature.json");
    assert_eq!(
        fetch_failed("r", "boom"),
        "[graft] feature r could not be fetched (skipping): boom"
    );
    let plan = f.finish(
        vec![None, Some((meta("y", &[]), "/tmp/y".to_string()))],
        &vec![],
    );
    assert_eq!(plan.resolved.len(), 1);
    assert_eq!(plan.resolved[0].reference, "ghcr.io/x/y:1");
    assert_eq!(plan.work, Some("/tmp/graft-features-7".to_string()));
}

#[test]
fn installation_records_success_and_goes_on_after_failure() {
    let docker = Docker::new(&None, &runtime());
    assert_eq!(Plan::empty().install(&docker, "c"), None);
    let mut a = resolved("a", "ida", &[]);
    a.dir = "/tmp/a".to_string();
    a.meta.container_env = vec![("P".to_string(), "1".to_string())];
    let mut b = resolved("b", "idb", &[]);
    b.meta.container_env =
        vec![("A".to_string(), "${P}".to_string()), ("P".to_string(), "2".to_string())];
    let plan = Plan { resolved: vec![a, b], work: None };
    let i = plan.install(&docker, "c").unwrap();
    assert_eq!(
        i.prepare.command.args,
        strings(&["exec", "-u", "0", "c", "mkdir", "-p", "/tmp/graft-features"])
    );
    assert_eq!(i.stages.len(), 2);
    assert_eq!(
        i.stages[0].steps[1],
        Step::CopyIn {
            source: "/tmp/a".to_string(),
            container: "c".to_string(),
            dest: "/tmp/graft-features/ida".to_string()
        }
    );
    let mut stages = i.stages.into_iter();
    match stages.next().unwrap().settle(Ok(())) {
        Settled::Mark(job) => {
            assert!(job.command.args.last().unwrap().ends_with("'/opt/graft/state/feature.a'"));
        }
        other => panic!("got {other:?}"),
    }
    assert_eq!(
        stages.next().unwrap().settle(Err("boom".to_string())),
        Settled::Warn("[graft] feature b install failed (continuing): boom".to_string())
    );
    let profile = |installed: &Vec<bool>| plan.profile(&runtime(), "c", installed);
    assert_eq!(profile(&vec![false, false]), None);
    match &profile(&vec![true, true]).unwrap()[0] {
        Step::WriteTemp { temp, contents, .. } => {
            assert_eq!(temp, "/tmp/graft-profile-7");
            assert_eq!(
                contents,
                "# generated by graft from devcontainer feature containerEnv\nexport A=${P}\nexport P=2\n"
            );
        }
        other => panic!("got {other:?}"),
    }
}

#[test]
fn only_unmarked_features_are_installed_again() {
    let docker = Docker::new(&None, &runtime());
    let features = vec![request("a"), request("b")];
    let probes = install_probes(&docker, "c", &features);
    assert_eq!(probes[1].args.last().unwrap(), "/opt/graft/state/feature.b");
    let ended = vec![Ended::Exited(Some(0)), Ended::Exited(Some(1))];
    assert_eq!(install(features, &ended), vec![request("b")]);
    let all = vec![Ended::Exited(Some(0)), Ended::Exited(Some(0))];
    assert!(install(vec![request("a"), request("b")], &all).is_empty());
}
