use graft::forward::{
    compose_service_matches, is_loopback_hex, log_failed, log_path, parse_proc_net_tcp, run_daemon,
    spawn_daemon, wanted, Action, Daemon, Event, PortForward, Turn,
};
use graft::invocation::{Ended, Output};
use graft::runtime::Runtime;
use graft::verbose::Verbosity;
use std::collections::HashSet;

fn runtime() -> Runtime {
    Runtime { verbosity: Verbosity { level: 0 }, temp_dir: "/tmp".to_string(), pid: 7 }
}

fn ran(stdout: &str) -> Event {
    Event::Ran(Output {
        ended: Ended::Exited(Some(0)),
        status: "exit status: 0".to_string(),
        stdout: stdout.as_bytes().to_vec(),
        stderr: vec![],
    })
}

fn failed() -> Event {
    Event::Ran(Output {
        ended: Ended::Exited(Some(1)),
        status: "exit status: 1".to_string(),
        stdout: vec![],
        stderr: vec![],
    })
}

fn last_arg(turn: &Turn) -> &str {
    match &turn.action {
        Action::Run(c) => c.args.last().unwrap(),
        other => panic!("got {other:?}"),
    }
}

fn db() -> PortForward {
    PortForward { local: 5432, host: Some("db".into()), port: 5432 }
}

/// A daemon that has found its container to run.
fn running(statics: Vec<PortForward>, remote: Option<String>) -> Daemon {
    let (mut d, _) = run_daemon("c", &remote, statics, &runtime());
    d.step(ran("\n172.17.0.2\n"));
    d
}

#[test]
fn parses_ipv4_listen_ports() {
    let data = "\
  sl  local_address rem_address   st tx_queue rx_queue tr tm->when retrnsmt   uid
   0: 00000000:1F90 00000000:0000 0A 00000000:00000000 00:00000000 00000000     0
   1: 00000000:0050 00000000:0000 0A 00000000:00000000 00:00000000 00000000     0
   2: 0F02000A:C4E2 0202000A:1F90 01 00000000:00000000 00:00000000 00000000  1000
";
    let ports = parse_proc_net_tcp(data);
    assert!(ports.contains(&8080), "0x1F90 = 8080");
    assert!(ports.contains(&80), "0x0050 = 80");
    assert!(!ports.contains(&50402), "ESTABLISHED, not LISTEN");
}

#[test]
fn parses_ipv6_listen_ports() {
    let data = "\
  sl  local_address                         remote_address                        st
   0: 00000000000000000000000000000000:1F90 00000000000000000000000000000000:0000 0A
";
    let ports = parse_proc_net_tcp(data);
    assert!(ports.contains(&8080));
}

#[test]
fn ignores_port_zero() {
    let data = "  sl local rem st\n   0: 00000000:0000 00000000:0000 0A\n";
    assert!(parse_proc_net_tcp(data).is_empty());
}

#[test]
fn skips_loopback_listeners() {
    // 127.0.0.1:8080 (v4), 127.0.0.11:53 (docker DNS), ::1:9090 (v6) must
    // all be skipped; 0.0.0.0:8081 and [::]:9091 must be kept.
    let data = "\
  sl  local_address rem_address   st
   0: 0100007F:1F90 00000000:0000 0A
   1: 0B00007F:0035 00000000:0000 0A
   2: 00000000:1F91 00000000:0000 0A
   3: 00000000000000000000000001000000:2382 00000000000000000000000000000000:0000 0A
   4: 00000000000000000000000000000000:2383 00000000000000000000000000000000:0000 0A
";
    let ports = parse_proc_net_tcp(data);
    assert_eq!(ports, HashSet::from([8081, 9091]));
}

#[test]
fn loopback_is_the_low_byte_of_the_address() {
    assert!(is_loopback_hex("0100007F"));
    assert!(is_loopback_hex("0100007f"));
    assert!(!is_loopback_hex("7F000001"));
    assert!(!is_loopback_hex("zz00007F"));
    assert!(!is_loopback_hex("7F"));
    assert!(!is_loopback_hex("00000000000000000000000000000000"));
    // ::ffff:127.0.0.1 and ::ffff:10.0.0.1
    assert!(is_loopback_hex("0000000000000000FFFF00000100007F"));
    assert!(is_loopback_hex("0000000000000000ffff00000100007f"));
    assert!(!is_loopback_hex("0000000000000000FFFF00000100000A"));
    let data = "0: 0000000000000000FFFF00000100007F:1F90 00000000000000000000000000000000:0000 0A\n";
    assert!(parse_proc_net_tcp(data).is_empty());
}

#[test]
fn port_forward_encode_decode_roundtrip() {
    for f in [
        PortForward::same(8080),
        PortForward { local: 3000, host: None, port: 8080 },
        PortForward { local: 5432, host: Some("db".into()), port: 5432 },
    ] {
        assert_eq!(PortForward::decode(&f.encode()), Some(f));
    }
    assert_eq!(PortForward::decode("garbage"), None);
    assert_eq!(PortForward::decode("1:2:3:4"), None);
}

#[test]
fn encoding_is_plain_text() {
    assert_eq!(PortForward::same(80).encode(), "80:80");
    assert_eq!(db().encode(), "5432:db:5432");
    assert_eq!(PortForward::decode("65536:1"), None);
    assert_eq!(PortForward::decode("1:x"), None);
}

#[test]
fn compose_naming_matches_service() {
    assert!(compose_service_matches("myproj-db-1", "db"));
    assert!(compose_service_matches("myproj_db_1", "db"));
    assert!(compose_service_matches("my-proj-db-12", "db"));
    assert!(!compose_service_matches("myproj-database-1", "db"));
    assert!(!compose_service_matches("myproj-db", "db"));
    assert!(!compose_service_matches("db", "db"));
}

#[test]
fn log_is_named_after_the_short_id() {
    let dir = Some("/data".to_string());
    assert_eq!(log_path("0123456789abcdef", &dir), "/data/graft/forward-0123456789ab.log");
    assert_eq!(log_path("short", &dir), "/data/graft/forward-short.log");
    assert_eq!(log_path("short", &None), ".local/share/graft/forward-short.log");
    // the twelfth byte falls inside a character
    assert_eq!(log_path("0123456789aé", &dir), "/data/graft/forward-0123456789aé.log");
    assert_eq!(log_path("0123456789éz", &dir), "/data/graft/forward-0123456789é.log");
    assert_eq!(
        log_failed("/l", "denied"),
        "[graft] could not open forward log /l: denied"
    );
}

#[test]
fn daemon_is_spawned_with_remote_verbosity_and_ports() {
    let mut rt = runtime();
    rt.verbosity.level = 2;
    let l = spawn_daemon(
        "/bin/graft",
        "c",
        &Some("host".to_string()),
        &vec![PortForward::same(80), db()],
        &Some("/data".to_string()),
        &rt,
    );
    assert_eq!(l.command.program, "/bin/graft");
    assert_eq!(
        l.command.args,
        ["--remote", "host", "-v", "-v", "_forward", "c", "--port", "80:80", "--port", "5432:db:5432"]
    );
    assert!(l.command.stdin_null);
    assert_eq!(l.log_dir, Some("/data/graft".to_string()));
    assert_eq!(l.note, "[graft] port forwarding log: /data/graft/forward-c.log");
}

#[test]
fn declared_forward_wins_over_a_listening_port() {
    let mapped = PortForward { local: 8080, host: None, port: 80 };
    let w = wanted(&HashSet::from([8080, 22]), &vec![mapped.copy(), db()]);
    assert_eq!(w, vec![PortForward::same(22), db(), mapped]);
    let later = PortForward { local: 8080, host: None, port: 81 };
    let w = wanted(&HashSet::new(), &vec![PortForward::same(8080), later.copy()]);
    assert_eq!(w, vec![later]);
}

#[test]
fn daemon_ends_without_an_address_or_a_running_container() {
    let (mut d, first) = run_daemon("c", &None, vec![], &runtime());
    match first {
        Action::Run(c) => assert_eq!(c.args.last().unwrap(), "c"),
        other => panic!("got {other:?}"),
    }
    let turn = d.step(ran("\n"));
    assert_eq!(turn.action, Action::Stop);
    assert_eq!(
        turn.log,
        ["[graft forward] could not determine container IP — port forwarding disabled"]
    );
    let mut d = running(vec![], None);
    let turn = d.step(ran("false\n"));
    assert_eq!(turn.action, Action::Stop);
    assert_eq!(turn.log, ["[graft forward] container stopped, exiting"]);
}

#[test]
fn daemon_forwards_listening_ports_and_retires_dead_ones() {
    let mut d = running(vec![], None);
    let turn = d.step(ran(" true \n"));
    assert_eq!(last_arg(&turn), "cat /proc/net/tcp /proc/net/tcp6 2>/dev/null");
    let socket = "h\n 0: 00000000:1F90 00000000:0000 0A\n";
    assert_eq!(d.step(ran(socket)).action, Action::Survey(vec![]));
    let turn = d.step(Event::Alive(vec![]));
    assert_eq!(
        turn.action,
        Action::Start { local: 8080, target: "172.17.0.2:8080".to_string(), tunnel: None }
    );
    assert_eq!(
        turn.log,
        ["[graft forward] port 8080 — proxy 0.0.0.0:8080 → 172.17.0.2:8080"]
    );
    let turn = d.step(Event::Started(true));
    assert_eq!(turn.log, ["[graft forward] forwarding port 8080"]);
    assert_eq!(turn.action, Action::Sleep);
    assert_eq!(d.active, vec![8080]);

    // next round: alive and wanted, so it is kept
    d.step(Event::Woke);
    d.step(ran("true"));
    assert_eq!(d.step(ran(socket)).action, Action::Survey(vec![8080]));
    let turn = d.step(Event::Alive(vec![true]));
    assert_eq!((turn.log.len(), turn.action), (0, Action::Sleep));

    // next round: it died, so it is started anew
    d.step(Event::Woke);
    d.step(ran("true"));
    d.step(ran(socket));
    let turn = d.step(Event::Alive(vec![false]));
    assert_eq!(turn.log[0], "[graft forward] stopped forwarding port 8080");
    assert!(matches!(turn.action, Action::Start { local: 8080, .. }));
    // a failure to start is told once
    assert_eq!(
        d.step(Event::Started(false)).log,
        ["[graft forward] could not forward port 8080"]
    );
    d.step(Event::Woke);
    d.step(ran("true"));
    d.step(ran(socket));
    d.step(Event::Alive(vec![]));
    assert!(d.step(Event::Started(false)).log.is_empty());
}

#[test]
fn daemon_resolves_hosts_by_name_service_first() {
    let mut d = running(vec![db()], Some("host".to_string()));
    d.step(ran("true"));
    d.step(ran(""));
    let turn = d.step(Event::Alive(vec![]));
    assert_eq!(last_arg(&turn), "docker 'exec' 'c' 'getent' 'hosts' 'db'");
    let turn = d.step(ran("::1 db\n10.0.0.5  db db.net\n\n"));
    assert_eq!(turn.action, Action::Parse(vec!["::1".to_string(), "10.0.0.5".to_string()]));
    let turn = d.step(Event::Parsed(vec![
        ("::1".to_string(), false),
        ("10.0.0.5".to_string(), true),
    ]));
    assert_eq!(turn.log[0], "[graft forward] resolved db → 10.0.0.5");
    assert_eq!(turn.log[1], "[graft forward] port 5432 — ssh -L 5432:10.0.0.5:5432 host");
    match turn.action {
        Action::Start { local, target, tunnel } => {
            assert_eq!((local, target.as_str()), (5432, "10.0.0.5:5432"));
            let args = tunnel.unwrap().args;
            let n = args.len();
            assert_eq!(
                &args[n - 8..],
                &[
                    "-N",
                    "-o",
                    "BatchMode=yes",
                    "-o",
                    "ExitOnForwardFailure=yes",
                    "-L",
                    "5432:10.0.0.5:5432",
                    "host"
                ]
            );
        }
        other => panic!("got {other:?}"),
    }
}

#[test]
fn daemon_falls_back_to_the_networks_and_warns_once() {
    let mut d = running(vec![db()], None);
    d.step(ran("true"));
    d.step(ran(""));
    d.step(Event::Alive(vec![]));
    let turn = d.step(failed());
    assert_eq!(last_arg(&turn), "c");
    let turn = d.step(ran("neta\nnetb\n"));
    assert_eq!(last_arg(&turn), "neta");
    let turn = d.step(ran("other 10.0.0.9/16\n"));
    assert_eq!(last_arg(&turn), "netb");
    let turn = d.step(ran("proj-db-1 10.0.0.7/16\n"));
    assert_eq!(turn.log[0], "[graft forward] resolved db → 10.0.0.7");
    assert!(matches!(turn.action, Action::Start { .. }));

    let mut d = running(vec![db()], None);
    for round in 0..2 {
        d.step(ran("true"));
        d.step(ran(""));
        d.step(Event::Alive(vec![]));
        d.step(failed());
        let turn = d.step(failed());
        assert_eq!(turn.action, Action::Sleep);
        assert_eq!(turn.log.len(), if round == 0 { 1 } else { 0 });
        d.step(Event::Woke);
    }
}

#[test]
fn unexpected_event_ends_the_daemon() {
    let mut d = running(vec![], None);
    assert_eq!(d.step(Event::Woke).action, Action::Stop);
}
