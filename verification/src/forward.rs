//! Port forwards: what is forwarded where, and the daemon that keeps it up.
use std::collections::HashSet;
use vstd::prelude::*;
use vstd::std_specs::hash::*;
use vstd::utf8::*;

use crate::devcontainer::naming;
use crate::devcontainer::naming::lower_text;
use crate::docker;
use crate::docker::command_line;
use crate::invocation;
use crate::invocation::{args4, args5, push, Ended, Invocation, Output};
use crate::lists;
use crate::lists::{has_port, has_text, without_port, without_text};
use crate::num;
use crate::num::{decimal, parse_port};
use crate::path;
use crate::runtime::Runtime;
use crate::ssh;
use crate::table;
use crate::text;
use crate::text::{cat, cat3, cat4, cat5, same};

verus! {

broadcast use vstd::std_specs::hash::group_hash_axioms;

/// One port forward: local port `local` on the host tunnels to port `port` of a
/// target on the container network — the primary container itself when `host`
/// is `None`, or a named host (compose service, container name, network alias)
/// otherwise.
#[derive(Debug, PartialEq, Eq)]
pub struct PortForward {
    pub local: u16,
    pub host: Option<String>,
    pub port: u16,
}

/// What a [`PortForward`] says.
pub struct PortForwardView {
    pub local: u16,
    pub host: Option<Seq<char>>,
    pub port: u16,
}

impl DeepView for PortForward {
    type V = PortForwardView;

    open spec fn deep_view(&self) -> PortForwardView {
        PortForwardView { local: self.local, host: self.host.deep_view(), port: self.port }
    }
}

impl PortForwardView {
    /// A port of the primary container under its own number.
    pub open spec fn same(port: u16) -> Self {
        PortForwardView { local: port, host: None, port }
    }

    /// The forward as text.
    pub open spec fn encode(self) -> Seq<char> {
        match self.host {
            Some(h) => num::dec(self.local as nat) + ":"@ + h + ":"@ + num::dec(self.port as nat),
            None => num::dec(self.local as nat) + ":"@ + num::dec(self.port as nat),
        }
    }

    /// A forward between two ports, where both are known.
    pub open spec fn between(
        local: Option<u16>,
        host: Option<Seq<char>>,
        port: Option<u16>,
    ) -> Option<Self> {
        match (local, port) {
            (Some(local), Some(port)) => Some(PortForwardView { local, host, port }),
            _ => None,
        }
    }

    /// The forward that a text denotes.
    pub open spec fn decode(s: Seq<char>) -> Option<Self> {
        let parts = text::split_spec(s, ':');
        if parts.len() == 2 {
            Self::between(num::port_spec(parts[0]), None, num::port_spec(parts[1]))
        } else if parts.len() == 3 {
            Self::between(num::port_spec(parts[0]), Some(parts[1]), num::port_spec(parts[2]))
        } else {
            None
        }
    }
}

impl PortForward {
    /// Local port == target port on the primary container (the common case).
    pub fn same(port: u16) -> (r: Self)
        ensures
            r.deep_view() == PortForwardView::same(port),
    {
        PortForward { local: port, host: None, port }
    }

    /// A copy.
    pub fn copy(&self) -> (r: Self)
        ensures
            r == *self,
    {
        PortForward { local: self.local, host: self.host.clone(), port: self.port }
    }

    /// Serialized form for the internal `graft _forward --port` flag.
    pub fn encode(&self) -> (r: String)
        ensures
            r@ == self.deep_view().encode(),
    {
        let local = decimal(self.local as u64);
        let port = decimal(self.port as u64);
        match &self.host {
            Some(h) => cat5(local.as_str(), ":", h.as_str(), ":", port.as_str()),
            None => cat3(local.as_str(), ":", port.as_str()),
        }
    }

    /// Reads the serialized form.
    pub fn decode(s: &str) -> (r: Option<Self>)
        ensures
            r.deep_view() == PortForwardView::decode(s@),
    {
        let parts = text::split(s, ':');
        let ghost pieces = text::split_spec(s@, ':');
        assert(parts.deep_view() == pieces);
        if parts.len() == 2 {
            let l: &str = parts[0];
            let p: &str = parts[1];
            assert(pieces[0] == l@ && pieces[1] == p@);
            match (parse_port(l), parse_port(p)) {
                (Some(local), Some(port)) => Some(PortForward { local, host: None, port }),
                _ => None,
            }
        } else if parts.len() == 3 {
            let l: &str = parts[0];
            let h: &str = parts[1];
            let p: &str = parts[2];
            assert(pieces[0] == l@ && pieces[1] == h@ && pieces[2] == p@);
            match (parse_port(l), parse_port(p)) {
                (Some(local), Some(port)) => Some(
                    PortForward { local, host: Some(h.to_string()), port },
                ),
                _ => None,
            }
        } else {
            None
        }
    }
}

/// A text up to a separator that it does not hold is the first piece.
proof fn lemma_split_front(a: Seq<char>, b: Seq<char>, c: char)
    requires
        forall|i: int| 0 <= i < a.len() ==> a[i] != c,
    ensures
        text::split_spec(a + seq![c] + b, c) == seq![a] + text::split_spec(b, c),
{
    let s = a + seq![c] + b;
    text::lemma_index(s, c, 0);
    let i = a.len() as int;
    assert(s[i] == c);
    assert(text::index_spec(s, c) == Some(i)) by {
        let k = text::index_spec(s, c)->0;
        if k < i {
            assert(s[k] == a[k]);
        }
    }
    assert(s.take(i) =~= a);
    assert(s.skip(i + 1) =~= b);
}

/// A text without the separator is one piece.
proof fn lemma_split_whole(a: Seq<char>, c: char)
    requires
        forall|i: int| 0 <= i < a.len() ==> a[i] != c,
    ensures
        text::split_spec(a, c) == seq![a],
{
    text::lemma_index(a, c, 0);
}

/// What was serialized is read back, where the host holds no colon (which the
/// host of a declared forward never does).
pub proof fn encoded_forward_decodes(f: PortForwardView)
    requires
        f.host matches Some(h) ==> forall|i: int| 0 <= i < h.len() ==> h[i] != ':',
    ensures
        PortForwardView::decode(f.encode()) == Some(f),
{
    reveal_strlit(":");
    assert(":"@ =~= seq![':']);
    let l = num::dec(f.local as nat);
    let p = num::dec(f.port as nat);
    num::lemma_decimal_digits(f.local as nat);
    num::lemma_decimal_digits(f.port as nat);
    num::lemma_decimal_roundtrip(f.local as nat, 65535);
    num::lemma_decimal_roundtrip(f.port as nat, 65535);
    lemma_split_whole(p, ':');
    match f.host {
        Some(h) => {
            lemma_split_front(h, p, ':');
            lemma_split_front(l, h + seq![':'] + p, ':');
            assert(f.encode() =~= l + seq![':'] + (h + seq![':'] + p));
            assert(seq![l] + (seq![h] + seq![p]) =~= seq![l, h, p]);
        },
        None => {
            lemma_split_front(l, p, ':');
            assert(f.encode() =~= l + seq![':'] + p);
            assert(seq![l] + seq![p] =~= seq![l, p]);
        },
    }
}

// ── the daemon's start ────────────────────────────────────────────────────────

/// The number of leading characters, from `k` on, that take twelve bytes.
pub open spec fn twelve_bytes(s: Seq<char>, k: int) -> Option<int>
    decreases s.len() + 1 - k,
{
    if k < 0 || k > s.len() {
        None
    } else if encode_utf8(s.take(k)).len() == 12 {
        Some(k)
    } else {
        twelve_bytes(s, k + 1)
    }
}

/// The short form of a container's id: its first twelve bytes, where a character
/// ends there.
pub open spec fn short_id(container: Seq<char>) -> Seq<char> {
    match twelve_bytes(container, 0) {
        Some(k) => container.take(k),
        None => container,
    }
}

/// The log of a container's daemon, under the user's data directory.
pub open spec fn log_path_spec(container: Seq<char>, data_dir: Option<Seq<char>>) -> Seq<char> {
    path::join_spec(
        path::join_spec(
            match data_dir {
                Some(d) => d,
                None => ".local/share"@,
            },
            "graft"@,
        ),
        "forward-"@ + short_id(container) + ".log"@,
    )
}

/// The log of a container's daemon, under the user's data directory.
pub fn log_path(container: &str, data_dir: &Option<String>) -> (r: String)
    ensures
        r@ == log_path_spec(container@, data_dir.deep_view()),
{
    let n: usize = container.unicode_len();
    let mut short = container;
    let mut k: usize = 0;
    loop
        invariant_except_break
            k <= n,
            twelve_bytes(container@, 0) == twelve_bytes(container@, k as int),
            short@ == container@,
        invariant
            n == container@.len(),
        ensures
            short@ == short_id(container@),
        decreases n - k,
    {
        let head = text::take(container, k);
        let bytes = head.as_bytes();
        if bytes.len() == 12 {
            short = head;
            break;
        }
        if k == n {
            break;
        }
        k += 1;
    }
    let base = match data_dir {
        Some(d) => d.as_str(),
        None => ".local/share",
    };
    let dir = path::join(base, "graft");
    path::join(dir.as_str(), cat3("forward-", short, ".log").as_str())
}

/// `-v` as often as the level says.
pub open spec fn level_args(level: nat) -> Seq<Seq<char>> {
    Seq::new(level, |i: int| "-v"@)
}

/// `--port` and the serialized form of each forward.
pub open spec fn port_options(forwards: Seq<PortForwardView>) -> Seq<Seq<char>>
    decreases forwards.len(),
{
    if forwards.len() == 0 {
        seq![]
    } else {
        port_options(forwards.drop_last()) + seq!["--port"@, forwards.last().encode()]
    }
}

/// The command that starts the daemon: this program itself, with the remote and
/// the verbosity handed on.
pub open spec fn daemon_spec(
    exe: Seq<char>,
    container: Seq<char>,
    remote: Option<Seq<char>>,
    forwards: Seq<PortForwardView>,
    level: u8,
) -> invocation::InvocationView {
    invocation::InvocationView::plain(
        exe,
        docker::option_args("--remote"@, remote) + level_args(level as nat) + seq![
            "_forward"@,
            container,
        ] + port_options(forwards),
    ).closed()
}

/// The start of a daemon that manages port forwarding for a container. It is
/// detached and outlives the calling process; its output is dropped, and its
/// error output goes to the log.
#[derive(Debug, PartialEq, Eq)]
pub struct Launch {
    pub log: String,
    /// The directory of the log, to be made first.
    pub log_dir: Option<String>,
    /// Told to the user once the log is open.
    pub note: String,
    pub command: Invocation,
}

/// Describes the start of a detached `graft _forward` daemon that manages port
/// forwarding for `container`.
pub fn spawn_daemon(
    exe: &str,
    container: &str,
    remote: &Option<String>,
    static_ports: &Vec<PortForward>,
    data_dir: &Option<String>,
    rt: &Runtime,
) -> (r: Launch)
    ensures
        r.log@ == log_path_spec(container@, data_dir.deep_view()),
        r.log_dir.deep_view() == path::parent_spec(r.log@),
        r.note@ == "[graft] port forwarding log: "@ + r.log@,
        r.command.deep_view() == daemon_spec(
            exe@,
            container@,
            remote.deep_view(),
            static_ports.deep_view(),
            rt.verbosity.level,
        ),
{
    let log = log_path(container, data_dir);
    let mut args: Vec<String> = Vec::new();
    if let Some(r) = remote {
        push(&mut args, "--remote");
        push(&mut args, r.as_str());
    }
    let ghost head = docker::option_args("--remote"@, remote.deep_view());
    assert(args.deep_view() =~= head);
    let level: u8 = rt.verbosity.level;
    for i in 0..level
        invariant
            args.deep_view() == head + level_args(i as nat),
    {
        push(&mut args, "-v");
        assert(args.deep_view() =~= head + level_args((i + 1) as nat));
    }
    push(&mut args, "_forward");
    push(&mut args, container);
    let ghost front = args.deep_view();
    let ghost all = static_ports.deep_view();
    assert(front + port_options(all.take(0)) =~= front);
    for i in 0..static_ports.len()
        invariant
            all == static_ports.deep_view(),
            args.deep_view() == front + port_options(all.take(i as int)),
    {
        assert(all.take(i + 1).drop_last() =~= all.take(i as int));
        push(&mut args, "--port");
        push(&mut args, static_ports[i].encode().as_str());
        assert(args.deep_view() =~= front + port_options(all.take(i + 1)));
    }
    assert(all.take(all.len() as int) =~= all);
    let ghost told = args.deep_view();
    let mut command = Invocation::new(exe, args);
    command.stdin_null = true;
    assert(told =~= daemon_spec(
        exe@,
        container@,
        remote.deep_view(),
        all,
        level,
    ).args);
    let log_dir = match path::parent(log.as_str()) {
        Some(p) => Some(p.to_string()),
        None => None,
    };
    let note = cat("[graft] port forwarding log: ", log.as_str());
    Launch { log, log_dir, note, command }
}

/// What is told when the log cannot be opened.
pub fn log_failed(log: &str, error: &str) -> (r: String)
    ensures
        r@ == "[graft] could not open forward log "@ + log@ + ": "@ + error@,
{
    cat4("[graft] could not open forward log ", log, ": ", error)
}

// ── listening ports ───────────────────────────────────────────────────────────

/// A hexadecimal IPv4 address, which is one little-endian number, is within
/// 127.0.0.0/8.
pub open spec fn is_loopback_v4(addr: Seq<char>) -> bool {
    match num::number(addr, 16, u32::MAX as nat) {
        Some(v) => v % 256 == 127,
        None => false,
    }
}

/// A hexadecimal IPv6 address maps an IPv4 one (::ffff:a.b.c.d) that is a
/// loopback address.
pub open spec fn is_mapped_loopback(addr: Seq<char>) -> bool {
    addr.len() == 32 && naming::lower_spec(addr.take(24)) == "0000000000000000ffff0000"@ && addr[24]
        != '+' && is_loopback_v4(addr.skip(24))
}

/// A hexadecimal address of /proc/net/tcp or tcp6 is a loopback address: an IPv4
/// address within 127.0.0.0/8, the IPv6 address ::1, or an IPv6 address that
/// maps such an IPv4 one.
pub open spec fn is_loopback(addr: Seq<char>) -> bool {
    if addr.len() == 8 {
        is_loopback_v4(addr)
    } else {
        addr == "00000000000000000000000001000000"@ || is_mapped_loopback(addr)
    }
}

fn loopback_v4(addr: &str) -> (r: bool)
    ensures
        r == is_loopback_v4(addr@),
{
    match num::parse(addr, 16, u32::MAX as u64) {
        Some(v) => v % 256 == 127,
        None => false,
    }
}

/// True if a /proc/net/tcp{,6} hex address is a loopback address.
pub fn is_loopback_hex(addr: &str) -> (r: bool)
    ensures
        r == is_loopback(addr@),
{
    let n: usize = addr.unicode_len();
    if n == 8 {
        return loopback_v4(addr);
    }
    if same(addr, "00000000000000000000000001000000") {
        return true;
    }
    n == 32 && same(
        lower_text(text::take(addr, 24)).as_str(),
        "0000000000000000ffff0000",
    ) && addr.get_char(24) != '+' && loopback_v4(text::skip(addr, 24))
}

/// The port that a line of /proc/net/tcp or tcp6 shows to be listened on, but
/// for port zero and for listeners that only the loopback interface reaches.
pub open spec fn listening_port(line: Seq<char>) -> Option<u16> {
    let cols = text::words_spec(line);
    if cols.len() >= 4 && cols[3] == "0A"@ {
        let parts = text::split_spec(cols[1], ':');
        if parts.len() >= 2 && !is_loopback(parts[0]) {
            match num::number(parts[1], 16, 65535) {
                Some(n) => if n > 0 {
                    Some(n as u16)
                } else {
                    None
                },
                None => None,
            }
        } else {
            None
        }
    } else {
        None
    }
}

/// The ports that /proc/net/tcp or tcp6 show to be listened on.
pub open spec fn listening_ports(data: Seq<char>) -> Set<u16> {
    ports_of(text::lines_spec(data))
}

/// The ports that lines show to be listened on.
pub open spec fn ports_of(lines: Seq<Seq<char>>) -> Set<u16> {
    Set::new(
        |p: u16|
            exists|i: int| 0 <= i < lines.len() && listening_port(#[trigger] lines[i]) == Some(p),
    )
}

fn port_of_line(line: &str) -> (r: Option<u16>)
    ensures
        r == listening_port(line@),
{
    let cols = text::words(line);
    let ghost all = text::words_spec(line@);
    if cols.len() < 4 {
        return None;
    }
    let state: &str = cols[3];
    let local: &str = cols[1];
    assert(all[3] == state@ && all[1] == local@);
    if !same(state, "0A") {
        return None;
    }
    let parts = text::split(local, ':');
    let ghost pieces = text::split_spec(local@, ':');
    assert(parts.deep_view() == pieces);
    if parts.len() < 2 {
        return None;
    }
    let addr: &str = parts[0];
    let hex: &str = parts[1];
    assert(pieces[0] == addr@ && pieces[1] == hex@);
    if is_loopback_hex(addr) {
        return None;
    }
    match num::parse(hex, 16, 65535) {
        Some(port) => if port > 0 {
            Some(port as u16)
        } else {
            None
        },
        None => None,
    }
}

/// Reads /proc/net/tcp or tcp6: a header line, then one connection per line. The
/// port is the hexadecimal number behind the colon of the local address, and the
/// state `0A` means listening. Listeners on a loopback address are skipped: they
/// are unreachable from outside the container.
pub fn parse_proc_net_tcp(data: &str) -> (r: HashSet<u16>)
    ensures
        r@ == listening_ports(data@),
{
    let mut ports: HashSet<u16> = HashSet::new();
    let lines = text::lines(data);
    let ghost all = text::lines_spec(data@);
    assert(ports@ =~= ports_of(all.take(0)));
    for i in 0..lines.len()
        invariant
            lines.deep_view() == all,
            ports@ == ports_of(all.take(i as int)),
    {
        let line: &str = lines[i];
        assert(all[i as int] == line@);
        let ghost before = ports@;
        let found = port_of_line(line);
        if let Some(p) = found {
            ports.insert(p);
        }
        proof {
            let then_all = all.take(i + 1);
            assert forall|p: u16| ports@.contains(p) == ports_of(then_all).contains(p) by {
                if before.contains(p) {
                    let j = choose|j: int|
                        0 <= j < all.take(i as int).len() && listening_port(
                            #[trigger] all.take(i as int)[j],
                        ) == Some(p);
                    assert(then_all[j] == all.take(i as int)[j]);
                }
                assert(then_all[i as int] == line@);
                if ports_of(then_all).contains(p) {
                    let j = choose|j: int|
                        0 <= j < then_all.len() && listening_port(#[trigger] then_all[j])
                            == Some(p);
                    if j < i {
                        assert(all.take(i as int)[j] == then_all[j]);
                    }
                }
            }
            assert(ports@ =~= ports_of(then_all));
        }
    }
    assert(all.take(all.len() as int) =~= all);
    ports
}

/// The last declared forward with a local port.
pub open spec fn declared(forwards: Seq<PortForwardView>, local: u16) -> Option<PortForwardView>
    decreases forwards.len(),
{
    if forwards.len() == 0 {
        None
    } else if forwards.last().local == local {
        Some(forwards.last())
    } else {
        declared(forwards.drop_last(), local)
    }
}

/// The forward that is wanted on a local port: the declared one, or else the
/// port itself where the container listens on it.
pub open spec fn wanted_at(
    listening: Set<u16>,
    forwards: Seq<PortForwardView>,
    local: u16,
) -> Option<PortForwardView> {
    match declared(forwards, local) {
        Some(f) => Some(f),
        None => if listening.contains(local) {
            Some(PortForwardView::same(local))
        } else {
            None
        },
    }
}

/// The wanted forwards with a local port below `n`, by local port.
pub open spec fn wanted_below(listening: Set<u16>, forwards: Seq<PortForwardView>, n: int) -> Seq<
    PortForwardView,
>
    decreases n,
{
    if n <= 0 {
        seq![]
    } else {
        let rest = wanted_below(listening, forwards, n - 1);
        match wanted_at(listening, forwards, (n - 1) as u16) {
            Some(f) => rest.push(f),
            None => rest,
        }
    }
}

/// The wanted forwards by local port.
pub open spec fn wanted_spec(listening: Set<u16>, forwards: Seq<PortForwardView>) -> Seq<
    PortForwardView,
> {
    wanted_below(listening, forwards, 65536)
}

fn declared_at(forwards: &Vec<PortForward>, local: u16) -> (r: Option<PortForward>)
    ensures
        r.deep_view() == declared(forwards.deep_view(), local),
{
    let ghost all = forwards.deep_view();
    let mut i: usize = forwards.len();
    assert(all.take(i as int) =~= all);
    while i > 0
        invariant
            i <= forwards@.len(),
            all == forwards.deep_view(),
            declared(all, local) == declared(all.take(i as int), local),
        decreases i,
    {
        assert(all.take(i as int).drop_last() =~= all.take(i - 1));
        i -= 1;
        if forwards[i].local == local {
            return Some(forwards[i].copy());
        }
    }
    None
}

/// The wanted forwards by local port: every listening port under its own number,
/// and every declared forward, which wins a collision.
pub fn wanted(listening: &HashSet<u16>, forwards: &Vec<PortForward>) -> (r: Vec<PortForward>)
    ensures
        r.deep_view() == wanted_spec(listening@, forwards.deep_view()),
{
    let mut out: Vec<PortForward> = Vec::new();
    assert(out.deep_view() =~= wanted_below(listening@, forwards.deep_view(), 0));
    let mut n: u32 = 0;
    while n < 65536
        invariant
            n <= 65536,
            out.deep_view() == wanted_below(listening@, forwards.deep_view(), n as int),
        decreases 65536 - n,
    {
        let local: u16 = n as u16;
        let ghost before = out.deep_view();
        let next = match declared_at(forwards, local) {
            Some(f) => Some(f),
            None => if listening.contains(&local) {
                Some(PortForward::same(local))
            } else {
                None
            },
        };
        assert(next.deep_view() == wanted_at(listening@, forwards.deep_view(), local));
        if let Some(f) = next {
            out.push(f);
            assert(out.deep_view() =~= before.push(f.deep_view()));
        }
        n += 1;
    }
    out
}

// ── reading what docker tells ─────────────────────────────────────────────────

/// What a docker command wrote, if it succeeded.
pub open spec fn stdout_spec(out: Output) -> Option<Seq<char>> {
    if out.ended.succeeded() {
        Some(text::utf8_lossy(out.stdout@))
    } else {
        None
    }
}

fn docker_stdout(out: &Output) -> (r: Option<String>)
    ensures
        r.deep_view() == stdout_spec(*out),
{
    if out.ended.success() {
        Some(text::lossy(&out.stdout))
    } else {
        None
    }
}

/// The first address that an inspection of a container told.
pub open spec fn container_ip_spec(out: Output) -> Option<Seq<char>> {
    if out.ended is NotStarted {
        None
    } else {
        text::first_spec(text::full_lines_spec(text::utf8_lossy(out.stdout@)))
    }
}

/// The first address that an inspection of a container told.
pub fn container_ip(out: &Output) -> (r: Option<String>)
    ensures
        r.deep_view() == container_ip_spec(*out),
{
    match out.ended {
        Ended::NotStarted(_) => None,
        Ended::Exited(_) => text::first(&text::full_lines(text::lossy(&out.stdout).as_str())),
    }
}

/// An inspection of a container told that it runs.
pub open spec fn running_spec(out: Output) -> bool {
    out.ended !is NotStarted && text::trim_spec(text::utf8_lossy(out.stdout@)) == "true"@
}

/// Whether an inspection of a container told that it runs.
pub fn running(out: &Output) -> (r: bool)
    ensures
        r == running_spec(*out),
{
    match out.ended {
        Ended::NotStarted(_) => false,
        Ended::Exited(_) => same(text::trim(text::lossy(&out.stdout).as_str()), "true"),
    }
}

/// The ports that a look at a container's sockets told to be listened on.
pub open spec fn polled_spec(out: Output) -> Set<u16> {
    if out.ended is NotStarted {
        Set::empty()
    } else {
        listening_ports(text::utf8_lossy(out.stdout@))
    }
}

fn polled(out: &Output) -> (r: HashSet<u16>)
    ensures
        r@ == polled_spec(*out),
{
    match out.ended {
        Ended::NotStarted(_) => HashSet::new(),
        Ended::Exited(_) => parse_proc_net_tcp(text::lossy(&out.stdout).as_str()),
    }
}

/// The first word of each line that has one.
pub open spec fn first_words(lines: Seq<Seq<char>>) -> Seq<Seq<char>>
    decreases lines.len(),
{
    if lines.len() == 0 {
        seq![]
    } else {
        let rest = first_words(lines.drop_last());
        let words = text::words_spec(lines.last());
        if words.len() > 0 {
            rest.push(words[0])
        } else {
            rest
        }
    }
}

/// What may be addresses in the output of `getent hosts`.
fn host_words(out: &str) -> (r: Vec<String>)
    ensures
        r.deep_view() == first_words(text::lines_spec(out@)),
{
    let lines = text::lines(out);
    let ghost all = text::lines_spec(out@);
    let mut v: Vec<String> = Vec::new();
    assert(v.deep_view() =~= first_words(all.take(0)));
    for i in 0..lines.len()
        invariant
            lines.deep_view() == all,
            v.deep_view() == first_words(all.take(i as int)),
    {
        assert(all.take(i + 1).drop_last() =~= all.take(i as int));
        let line: &str = lines[i];
        assert(all[i as int] == line@);
        let words = text::words(line);
        assert(words.deep_view().len() == words@.len());
        if words.len() > 0 {
            let word: &str = words[0];
            assert(words.deep_view()[0] == word@);
            push(&mut v, word);
        }
    }
    assert(all.take(all.len() as int) =~= all);
    v
}

/// The first of the addresses that is an IPv4 one (told by its mark).
pub open spec fn first_marked(addrs: Seq<(Seq<char>, bool)>) -> Option<Seq<char>>
    decreases addrs.len(),
{
    if addrs.len() == 0 {
        None
    } else if addrs[0].1 {
        Some(addrs[0].0)
    } else {
        first_marked(addrs.skip(1))
    }
}

/// The address to use: the first IPv4 one, or else the first.
pub open spec fn preferred_spec(addrs: Seq<(Seq<char>, bool)>) -> Option<Seq<char>> {
    match first_marked(addrs) {
        Some(a) => Some(a),
        None => if addrs.len() > 0 {
            Some(addrs[0].0)
        } else {
            None
        },
    }
}

fn preferred(addrs: &Vec<(String, bool)>) -> (r: Option<String>)
    ensures
        r.deep_view() == preferred_spec(addrs.deep_view()),
{
    let ghost all = addrs.deep_view();
    assert(all.skip(0) =~= all);
    for i in 0..addrs.len()
        invariant
            all == addrs.deep_view(),
            first_marked(all) == first_marked(all.skip(i as int)),
    {
        assert(all.skip(i as int)[0] == addrs@[i as int].deep_view());
        assert(all.skip(i as int).skip(1) =~= all.skip(i + 1));
        if addrs[i].1 {
            return Some(addrs[i].0.clone());
        }
    }
    if addrs.len() > 0 {
        assert(all[0] == addrs@[0].deep_view());
        Some(addrs[0].0.clone())
    } else {
        None
    }
}

/// A container's name is made of a project, the service and a number, with the
/// given separator between them.
pub open spec fn named_by(name: Seq<char>, service: Seq<char>, sep: char) -> bool {
    match text::rindex_spec(name, sep) {
        Some(i) => {
            let stem = name.take(i);
            let index = name.skip(i + 1);
            &&& index.len() > 0
            &&& forall|k: int| 0 <= k < index.len() ==> text::is_digit(#[trigger] index[k])
            &&& service.is_suffix_of(stem)
            &&& stem.len() > service.len()
            &&& stem[stem.len() - service.len() - 1] == sep
        },
        None => false,
    }
}

fn named_with(name: &str, service: &str, sep: char) -> (r: bool)
    ensures
        r == named_by(name@, service@, sep),
{
    let at: usize = match text::rindex_of(name, sep) {
        Some(i) => i,
        None => {
            return false;
        },
    };
    let stem = text::take(name, at);
    let index = text::chars(text::skip(name, at + 1));
    if index.len() == 0 {
        return false;
    }
    for k in 0..index.len()
        invariant
            forall|j: int| 0 <= j < k ==> text::is_digit(#[trigger] index@[j]),
            index@ == name@.skip(at + 1),
            text::rindex_spec(name@, sep) == Some(at as int),
    {
        if !('0' <= index[k] && index[k] <= '9') {
            assert(!text::is_digit(name@.skip(at + 1)[k as int]));
            return false;
        }
    }
    if !text::ends_with(stem, service) {
        return false;
    }
    let s = text::chars(stem);
    let n: usize = service.unicode_len();
    s.len() > n && s[s.len() - n - 1] == sep
}

/// A container's name follows the compose convention for a service.
pub open spec fn serves(name: Seq<char>, service: Seq<char>) -> bool {
    named_by(name, service, '-') || named_by(name, service, '_')
}

/// True if `name` follows the compose container naming convention
/// `<project>-<service>-<index>` (or the legacy underscore form) for `service`.
pub fn compose_service_matches(name: &str, service: &str) -> (r: bool)
    ensures
        r == serves(name@, service@),
{
    named_with(name, service, '-') || named_with(name, service, '_')
}

/// The address of the first container on a network that is the host or serves
/// it, without its prefix length.
pub open spec fn member_ip(lines: Seq<Seq<char>>, host: Seq<char>) -> Option<Seq<char>>
    decreases lines.len(),
{
    if lines.len() == 0 {
        None
    } else {
        let cols = text::words_spec(lines[0]);
        if cols.len() >= 2 && (cols[0] == host || serves(cols[0], host)) {
            Some(text::split_spec(cols[1], '/')[0])
        } else {
            member_ip(lines.skip(1), host)
        }
    }
}

fn ip_of_member(listing: &str, host: &str) -> (r: Option<String>)
    ensures
        r.deep_view() == member_ip(text::lines_spec(listing@), host@),
{
    let lines = text::lines(listing);
    let ghost all = text::lines_spec(listing@);
    assert(all.skip(0) =~= all);
    for i in 0..lines.len()
        invariant
            lines.deep_view() == all,
            all == text::lines_spec(listing@),
            member_ip(all, host@) == member_ip(all.skip(i as int), host@),
    {
        assert(all.skip(i as int).skip(1) =~= all.skip(i + 1));
        let line: &str = lines[i];
        assert(all.skip(i as int)[0] == line@);
        let cols = text::words(line);
        let ghost words = text::words_spec(line@);
        assert(cols.deep_view().len() == cols@.len());
        if cols.len() >= 2 {
            let name: &str = cols[0];
            let addr: &str = cols[1];
            assert(words[0] == name@ && words[1] == addr@);
            if same(name, host) || compose_service_matches(name, host) {
                let parts = text::split(addr, '/');
                let ip: &str = parts[0];
                assert(text::split_spec(addr@, '/')[0] == ip@);
                assert(member_ip(all.skip(i as int), host@) == Some(ip@));
                return Some(ip.to_string());
            }
        }
    }
    None
}

// ── the daemon ────────────────────────────────────────────────────────────────

/// What the daemon waits for.
#[derive(Debug, PartialEq, Eq)]
pub enum Phase {
    /// The address of the container.
    Locating,
    /// Whether the container runs.
    Checking,
    /// The sockets of the container.
    Polling,
    /// Which forwarders live.
    Surveying,
    /// What the container's own name service tells of a host.
    Asking,
    /// Which of the told words are addresses.
    Parsing,
    /// The networks of the container.
    Networks,
    /// The containers on the first of these networks.
    Members(Vec<String>),
    /// A forwarder that is being started.
    Starting,
    /// The next round.
    Sleeping,
    /// Nothing any more.
    Stopped,
}

/// What a [`Phase`] says.
pub enum PhaseView {
    Locating,
    Checking,
    Polling,
    Surveying,
    Asking,
    Parsing,
    Networks,
    Members(Seq<Seq<char>>),
    Starting,
    Sleeping,
    Stopped,
}

impl DeepView for Phase {
    type V = PhaseView;

    open spec fn deep_view(&self) -> PhaseView {
        match self {
            Phase::Locating => PhaseView::Locating,
            Phase::Checking => PhaseView::Checking,
            Phase::Polling => PhaseView::Polling,
            Phase::Surveying => PhaseView::Surveying,
            Phase::Asking => PhaseView::Asking,
            Phase::Parsing => PhaseView::Parsing,
            Phase::Networks => PhaseView::Networks,
            Phase::Members(nets) => PhaseView::Members(nets.deep_view()),
            Phase::Starting => PhaseView::Starting,
            Phase::Sleeping => PhaseView::Sleeping,
            Phase::Stopped => PhaseView::Stopped,
        }
    }
}

/// What happened outside.
#[derive(Debug, PartialEq, Eq)]
pub enum Event {
    /// A command was run.
    Ran(Output),
    /// The forwarders that were asked about live or not, in the same order.
    Alive(Vec<bool>),
    /// The words that are addresses, each in its canonical form and with whether
    /// it is an IPv4 address.
    Parsed(Vec<(String, bool)>),
    /// A forwarder was started or not.
    Started(bool),
    /// The pause is over.
    Woke,
}

/// What an [`Event`] says.
pub enum EventView {
    Ran(Output),
    Alive(Seq<bool>),
    Parsed(Seq<(Seq<char>, bool)>),
    Started(bool),
    Woke,
}

impl DeepView for Event {
    type V = EventView;

    open spec fn deep_view(&self) -> EventView {
        match self {
            Event::Ran(out) => EventView::Ran(*out),
            Event::Alive(flags) => EventView::Alive(flags@),
            Event::Parsed(addrs) => EventView::Parsed(addrs.deep_view()),
            Event::Started(ok) => EventView::Started(*ok),
            Event::Woke => EventView::Woke,
        }
    }
}

/// What is to be done outside.
#[derive(Debug, PartialEq, Eq)]
pub enum Action {
    /// Run a command for its output.
    Run(Invocation),
    /// Tell which of the forwarders on these local ports live.
    Survey(Vec<u16>),
    /// Tell which of these words are addresses.
    Parse(Vec<String>),
    /// Start a forwarder from a local port to `ip:port` as reachable from the
    /// docker host: the tunnel, or a proxy where there is none.
    Start { local: u16, target: String, tunnel: Option<Invocation> },
    /// Wait two seconds.
    Sleep,
    /// End.
    Stop,
}

/// What an [`Action`] says.
#[verifier::ext_equal]
pub enum ActionView {
    Run(invocation::InvocationView),
    Survey(Seq<u16>),
    Parse(Seq<Seq<char>>),
    Start { local: u16, target: Seq<char>, tunnel: Option<invocation::InvocationView> },
    Sleep,
    Stop,
}

impl DeepView for Action {
    type V = ActionView;

    open spec fn deep_view(&self) -> ActionView {
        match self {
            Action::Run(command) => ActionView::Run(command.deep_view()),
            Action::Survey(ports) => ActionView::Survey(ports@),
            Action::Parse(words) => ActionView::Parse(words.deep_view()),
            Action::Start { local, target, tunnel } => ActionView::Start {
                local: *local,
                target: target@,
                tunnel: tunnel.deep_view(),
            },
            Action::Sleep => ActionView::Sleep,
            Action::Stop => ActionView::Stop,
        }
    }
}

/// The lines to log, then what to do.
#[derive(Debug, PartialEq, Eq)]
pub struct Turn {
    pub log: Vec<String>,
    pub action: Action,
}

/// What a [`Turn`] says.
pub struct TurnView {
    pub log: Seq<Seq<char>>,
    pub action: ActionView,
}

impl DeepView for Turn {
    type V = TurnView;

    open spec fn deep_view(&self) -> TurnView {
        TurnView { log: self.log.deep_view(), action: self.action.deep_view() }
    }
}

/// The daemon that keeps the forwards of a container up.
#[derive(Debug, PartialEq, Eq)]
pub struct Daemon {
    pub container: String,
    pub remote: Option<String>,
    pub static_ports: Vec<PortForward>,
    pub runtime: Runtime,
    /// The address of the container.
    pub ip: String,
    /// The local ports that have a forwarder.
    pub active: Vec<u16>,
    /// The local ports whose forwarder failed to start and was warned about.
    pub failed: Vec<u16>,
    /// The hosts that do not resolve and were warned about.
    pub unresolved: Vec<String>,
    /// The addresses of the hosts that were resolved.
    pub resolved: Vec<(String, String)>,
    /// The forwards that this round wants.
    pub wanted: Vec<PortForward>,
    /// The one of them that is dealt with.
    pub at: usize,
    pub phase: Phase,
}

/// What a [`Daemon`] says.
#[verifier::ext_equal]
pub struct DaemonView {
    pub container: Seq<char>,
    pub remote: Option<String>,
    pub static_ports: Seq<PortForwardView>,
    pub runtime: Runtime,
    pub ip: Seq<char>,
    pub active: Seq<u16>,
    pub failed: Seq<u16>,
    pub unresolved: Seq<Seq<char>>,
    pub resolved: Seq<table::Entry>,
    pub wanted: Seq<PortForwardView>,
    pub at: int,
    pub phase: PhaseView,
}

impl DeepView for Daemon {
    type V = DaemonView;

    open spec fn deep_view(&self) -> DaemonView {
        DaemonView {
            container: self.container@,
            remote: self.remote,
            static_ports: self.static_ports.deep_view(),
            runtime: self.runtime,
            ip: self.ip@,
            active: self.active@,
            failed: self.failed@,
            unresolved: self.unresolved.deep_view(),
            resolved: self.resolved.deep_view(),
            wanted: self.wanted.deep_view(),
            at: self.at as int,
            phase: self.phase.deep_view(),
        }
    }
}

/// The local ports that keep their forwarder: those that are still wanted and
/// whose forwarder lives.
pub open spec fn kept(active: Seq<u16>, alive: Seq<bool>, wanted: Seq<PortForwardView>) -> Seq<u16>
    decreases active.len(),
{
    if active.len() == 0 {
        seq![]
    } else {
        let rest = kept(active.drop_last(), alive, wanted);
        if keeps(active, alive, wanted, active.len() - 1) {
            rest.push(active.last())
        } else {
            rest
        }
    }
}

/// The local port at a position keeps its forwarder.
pub open spec fn keeps(
    active: Seq<u16>,
    alive: Seq<bool>,
    wanted: Seq<PortForwardView>,
    i: int,
) -> bool {
    is_wanted(wanted, active[i]) && i < alive.len() && alive[i]
}

/// A local port is wanted.
pub open spec fn is_wanted(wanted: Seq<PortForwardView>, local: u16) -> bool {
    exists|k: int| 0 <= k < wanted.len() && (#[trigger] wanted[k]).local == local
}

/// What is told of the forwarders that go.
pub open spec fn stop_lines(
    active: Seq<u16>,
    alive: Seq<bool>,
    wanted: Seq<PortForwardView>,
) -> Seq<Seq<char>>
    decreases active.len(),
{
    if active.len() == 0 {
        seq![]
    } else {
        let rest = stop_lines(active.drop_last(), alive, wanted);
        if keeps(active, alive, wanted, active.len() - 1) {
            rest
        } else {
            rest.push(
                "[graft forward] stopped forwarding port "@ + num::dec(active.last() as nat),
            )
        }
    }
}

/// A turn of the daemon.
pub open spec fn turn(d: DaemonView, log: Seq<Seq<char>>, action: ActionView) -> (
    DaemonView,
    TurnView,
) {
    (d, TurnView { log, action })
}

impl DaemonView {
    /// A docker command that the daemon has run.
    pub open spec fn command(self, args: Seq<Seq<char>>) -> ActionView {
        ActionView::Run(docker::command_spec(self.remote, args, self.runtime))
    }

    /// Asks for the container's address.
    pub open spec fn locate(self) -> ActionView {
        self.command(
            seq![
                "inspect"@,
                "--format"@,
                "{{range .NetworkSettings.Networks}}{{.IPAddress}}\n{{end}}"@,
                self.container,
            ],
        )
    }

    /// Asks whether the container runs.
    pub open spec fn check(self) -> ActionView {
        self.command(seq!["inspect"@, "--format"@, "{{.State.Running}}"@, self.container])
    }

    /// Asks for the container's sockets.
    pub open spec fn poll(self) -> ActionView {
        self.command(
            seq![
                "exec"@,
                self.container,
                "sh"@,
                "-c"@,
                "cat /proc/net/tcp /proc/net/tcp6 2>/dev/null"@,
            ],
        )
    }

    /// Asks the container's own name service for a host.
    pub open spec fn ask(self, host: Seq<char>) -> ActionView {
        self.command(seq!["exec"@, self.container, "getent"@, "hosts"@, host])
    }

    /// Asks for the container's networks.
    pub open spec fn networks(self) -> ActionView {
        self.command(
            seq![
                "inspect"@,
                "--format"@,
                "{{range $k, $v := .NetworkSettings.Networks}}{{$k}}\n{{end}}"@,
                self.container,
            ],
        )
    }

    /// Asks for the containers on a network.
    pub open spec fn members(self, net: Seq<char>) -> ActionView {
        self.command(
            seq![
                "network"@,
                "inspect"@,
                "--format"@,
                "{{range .Containers}}{{.Name}} {{.IPv4Address}}\n{{end}}"@,
                net,
            ],
        )
    }

    /// The tunnel from a local port to a target as the remote reaches it.
    pub open spec fn tunnel(self, local: u16, target: Seq<char>) -> Option<
        invocation::InvocationView,
    > {
        match self.remote {
            Some(r) => Some(
                ssh::base_spec(r@, self.runtime).with(
                    seq![
                        "-N"@,
                        "-o"@,
                        "BatchMode=yes"@,
                        "-o"@,
                        "ExitOnForwardFailure=yes"@,
                        "-L"@,
                        num::dec(local as nat) + ":"@ + target,
                        ssh::split_spec(r@).0,
                    ],
                ).closed(),
            ),
            None => None,
        }
    }

    /// Starts the forwarder that is dealt with, to an address.
    pub open spec fn launch(self, ip: Seq<char>, log: Seq<Seq<char>>) -> (Self, TurnView) {
        let f = self.wanted[self.at];
        let local = num::dec(f.local as nat);
        let target = ip + ":"@ + num::dec(f.port as nat);
        let line = match self.remote {
            Some(r) => "[graft forward] port "@ + local + " — ssh -L "@ + local + ":"@ + target
                + " "@ + r@,
            None => "[graft forward] port "@ + local + " — proxy 0.0.0.0:"@ + local + " → "@
                + target,
        };
        turn(
            DaemonView { phase: PhaseView::Starting, ..self },
            log.push(line),
            ActionView::Start { local: f.local, target, tunnel: self.tunnel(f.local, target) },
        )
    }

    /// Goes on to the next wanted forward that has no forwarder.
    pub open spec fn advance(self, log: Seq<Seq<char>>) -> (Self, TurnView)
        decreases self.wanted.len() - self.at,
    {
        if self.at < 0 || self.at >= self.wanted.len() {
            turn(DaemonView { phase: PhaseView::Sleeping, ..self }, log, ActionView::Sleep)
        } else if self.active.contains(self.wanted[self.at].local) {
            DaemonView { at: self.at + 1, ..self }.advance(log)
        } else {
            match self.wanted[self.at].host {
                None => self.launch(self.ip, log),
                Some(h) => match table::get(self.resolved, h) {
                    Some(ip) => self.launch(ip, log),
                    None => turn(
                        DaemonView { phase: PhaseView::Asking, ..self },
                        log,
                        self.ask(h),
                    ),
                },
            }
        }
    }

    /// The host that is dealt with.
    pub open spec fn host(self) -> Seq<char> {
        match self.wanted[self.at].host {
            Some(h) => h,
            None => seq![],
        }
    }

    /// The host that is dealt with has an address.
    pub open spec fn found(self, ip: Seq<char>) -> (Self, TurnView) {
        let h = self.host();
        DaemonView {
            resolved: table::insert_spec(self.resolved, h, ip),
            unresolved: lists::without(self.unresolved, h),
            ..self
        }.launch(ip, seq!["[graft forward] resolved "@ + h + " → "@ + ip])
    }

    /// The host that is dealt with has none: that is told once.
    pub open spec fn not_found(self) -> (Self, TurnView) {
        let h = self.host();
        if self.unresolved.contains(h) {
            DaemonView { at: self.at + 1, ..self }.advance(seq![])
        } else {
            DaemonView {
                at: self.at + 1,
                unresolved: self.unresolved.push(h),
                ..self
            }.advance(
                seq![
                    "[graft forward] cannot resolve '"@ + h
                        + "' on the container network (service not up yet?) — will keep trying"@,
                ],
            )
        }
    }

    /// Looks for the host among the containers on the first of some networks.
    pub open spec fn look(self, nets: Seq<Seq<char>>) -> (Self, TurnView) {
        if nets.len() == 0 {
            self.not_found()
        } else {
            turn(
                DaemonView { phase: PhaseView::Members(nets), ..self },
                seq![],
                self.members(nets[0]),
            )
        }
    }

    /// The daemon ends.
    pub open spec fn stop(self, log: Seq<Seq<char>>) -> (Self, TurnView) {
        turn(DaemonView { phase: PhaseView::Stopped, ..self }, log, ActionView::Stop)
    }

    /// The output of a command has come.
    pub open spec fn on_output(self, out: Output) -> (Self, TurnView) {
        let inside = 0 <= self.at < self.wanted.len();
        match self.phase {
            PhaseView::Locating => match container_ip_spec(out) {
                Some(ip) => {
                    let d = DaemonView { ip, phase: PhaseView::Checking, ..self };
                    turn(d, seq!["[graft forward] container IP: "@ + ip], d.check())
                },
                None => self.stop(
                    seq![
                        "[graft forward] could not determine container IP — port forwarding disabled"@,
                    ],
                ),
            },
            PhaseView::Checking => if running_spec(out) {
                turn(DaemonView { phase: PhaseView::Polling, ..self }, seq![], self.poll())
            } else {
                self.stop(seq!["[graft forward] container stopped, exiting"@])
            },
            PhaseView::Polling => turn(
                DaemonView {
                    wanted: wanted_spec(polled_spec(out), self.static_ports),
                    at: 0,
                    phase: PhaseView::Surveying,
                    ..self
                },
                seq![],
                ActionView::Survey(self.active),
            ),
            PhaseView::Asking if inside => match stdout_spec(out) {
                Some(s) => turn(
                    DaemonView { phase: PhaseView::Parsing, ..self },
                    seq![],
                    ActionView::Parse(first_words(text::lines_spec(s))),
                ),
                None => turn(
                    DaemonView { phase: PhaseView::Networks, ..self },
                    seq![],
                    self.networks(),
                ),
            },
            PhaseView::Networks if inside => match stdout_spec(out) {
                Some(s) => self.look(text::full_lines_spec(s)),
                None => self.not_found(),
            },
            PhaseView::Members(nets) if inside && nets.len() > 0 => match stdout_spec(out) {
                Some(s) => match member_ip(text::lines_spec(s), self.host()) {
                    Some(ip) => self.found(ip),
                    None => self.look(nets.skip(1)),
                },
                None => self.not_found(),
            },
            _ => self.stop(seq![]),
        }
    }

    /// What follows an event: the next state, what is logged, and what to do. An
    /// event that was not waited for ends the daemon.
    pub open spec fn next(self, event: EventView) -> (Self, TurnView) {
        let inside = 0 <= self.at < self.wanted.len();
        match event {
            EventView::Ran(out) => self.on_output(out),
            EventView::Alive(alive) => if self.phase is Surveying {
                DaemonView {
                    active: kept(self.active, alive, self.wanted),
                    ..self
                }.advance(stop_lines(self.active, alive, self.wanted))
            } else {
                self.stop(seq![])
            },
            EventView::Parsed(addrs) => if self.phase is Parsing && inside {
                match preferred_spec(addrs) {
                    Some(ip) => self.found(ip),
                    None => turn(
                        DaemonView { phase: PhaseView::Networks, ..self },
                        seq![],
                        self.networks(),
                    ),
                }
            } else {
                self.stop(seq![])
            },
            EventView::Started(ok) => if self.phase is Starting && inside {
                let local = self.wanted[self.at].local;
                if ok {
                    DaemonView {
                        active: self.active.push(local),
                        failed: lists::without(self.failed, local),
                        at: self.at + 1,
                        ..self
                    }.advance(seq!["[graft forward] forwarding port "@ + num::dec(local as nat)])
                } else if self.failed.contains(local) {
                    DaemonView { at: self.at + 1, ..self }.advance(seq![])
                } else {
                    DaemonView {
                        failed: self.failed.push(local),
                        at: self.at + 1,
                        ..self
                    }.advance(
                        seq!["[graft forward] could not forward port "@ + num::dec(local as nat)],
                    )
                }
            } else {
                self.stop(seq![])
            },
            EventView::Woke => if self.phase is Sleeping {
                turn(DaemonView { phase: PhaseView::Checking, ..self }, seq![], self.check())
            } else {
                self.stop(seq![])
            },
        }
    }
}

fn no_lines() -> (r: Vec<String>)
    ensures
        r.deep_view() == Seq::<Seq<char>>::empty(),
{
    let v: Vec<String> = Vec::new();
    assert(v.deep_view() =~= seq![]);
    v
}

fn one_line(s: String) -> (r: Vec<String>)
    ensures
        r.deep_view() == seq![s@],
{
    let mut v = no_lines();
    push(&mut v, s.as_str());
    assert(v.deep_view() =~= seq![s@]);
    v
}

fn listed(wanted: &Vec<PortForward>, local: u16) -> (r: bool)
    ensures
        r == is_wanted(wanted.deep_view(), local),
{
    let ghost all = wanted.deep_view();
    for k in 0..wanted.len()
        invariant
            all == wanted.deep_view(),
            forall|j: int| 0 <= j < k ==> (#[trigger] all[j]).local != local,
    {
        assert(all[k as int].local == wanted@[k as int].local);
        if wanted[k].local == local {
            return true;
        }
    }
    false
}

impl Daemon {
    fn command(&self, args: Vec<String>) -> (r: Action)
        ensures
            r.deep_view() == self.deep_view().command(args.deep_view()),
    {
        Action::Run(command_line(&self.remote, args, &self.runtime))
    }

    fn check(&self) -> (r: Action)
        ensures
            r.deep_view() == self.deep_view().check(),
    {
        self.command(
            args4("inspect", "--format", "{{.State.Running}}", self.container.as_str()),
        )
    }

    fn networks(&self) -> (r: Action)
        ensures
            r.deep_view() == self.deep_view().networks(),
    {
        self.command(
            args4(
                "inspect",
                "--format",
                "{{range $k, $v := .NetworkSettings.Networks}}{{$k}}\n{{end}}",
                self.container.as_str(),
            ),
        )
    }

    fn tunnel(&self, local: u16, target: &str) -> (r: Option<Invocation>)
        ensures
            r.deep_view() == self.deep_view().tunnel(local, target@),
    {
        match &self.remote {
            Some(r) => {
                let (mut cmd, dest) = ssh::base_command(r.as_str(), &self.runtime);
                cmd.arg("-N");
                cmd.arg("-o");
                cmd.arg("BatchMode=yes");
                cmd.arg("-o");
                cmd.arg("ExitOnForwardFailure=yes");
                cmd.arg("-L");
                cmd.arg(cat3(decimal(local as u64).as_str(), ":", target).as_str());
                cmd.arg(dest.as_str());
                cmd.stdin_null = true;
                assert(cmd.deep_view().args =~= self.deep_view().tunnel(local, target@)->0.args);
                Some(cmd)
            },
            None => None,
        }
    }

    fn launch(&mut self, ip: &str, log: Vec<String>) -> (r: Turn)
        requires
            old(self).at < old(self).wanted@.len(),
        ensures
            (final(self).deep_view(), r.deep_view()) == old(self).deep_view().launch(
                ip@,
                log.deep_view(),
            ),
    {
        let mut log = log;
        let f = &self.wanted[self.at];
        assert(self.deep_view().wanted[self.at as int] == f.deep_view());
        let local: u16 = f.local;
        let number = decimal(local as u64);
        let target = cat3(ip, ":", decimal(f.port as u64).as_str());
        match &self.remote {
            Some(r) => {
                let mut line = cat5(
                    "[graft forward] port ",
                    number.as_str(),
                    " — ssh -L ",
                    number.as_str(),
                    ":",
                );
                line.append(target.as_str());
                line.append(" ");
                line.append(r.as_str());
                push(&mut log, line.as_str());
            },
            None => {
                let mut line = cat5(
                    "[graft forward] port ",
                    number.as_str(),
                    " — proxy 0.0.0.0:",
                    number.as_str(),
                    " → ",
                );
                line.append(target.as_str());
                push(&mut log, line.as_str());
            },
        }
        let tunnel = self.tunnel(local, target.as_str());
        self.phase = Phase::Starting;
        Turn { log, action: Action::Start { local, target, tunnel } }
    }

    fn advance(&mut self, log: Vec<String>) -> (r: Turn)
        ensures
            (final(self).deep_view(), r.deep_view()) == old(self).deep_view().advance(
                log.deep_view(),
            ),
    {
        let ghost before = self.deep_view();
        while self.at < self.wanted.len()
            invariant
                before == old(self).deep_view(),
                self.deep_view().advance(log.deep_view()) == before.advance(log.deep_view()),
            decreases self.wanted@.len() - self.at,
        {
            let ghost now = self.deep_view();
            let f = &self.wanted[self.at];
            assert(now.wanted[self.at as int] == f.deep_view());
            if !has_port(&self.active, f.local) {
                let known: Option<String> = match &f.host {
                    None => Some(self.ip.clone()),
                    Some(h) => match table::find(&self.resolved, h.as_str()) {
                        Some(ip) => Some(ip.to_string()),
                        None => None,
                    },
                };
                return match known {
                    Some(ip) => self.launch(ip.as_str(), log),
                    None => {
                        let h = match &f.host {
                            Some(h) => h.as_str(),
                            None => "",
                        };
                        let action = self.command(
                            args5("exec", self.container.as_str(), "getent", "hosts", h),
                        );
                        self.phase = Phase::Asking;
                        Turn { log, action }
                    },
                };
            }
            self.at += 1;
            assert(self.deep_view() =~= DaemonView { at: now.at + 1, ..now });
        }
        self.phase = Phase::Sleeping;
        Turn { log, action: Action::Sleep }
    }

    fn host(&self) -> (r: String)
        requires
            self.at < self.wanted@.len(),
        ensures
            r@ == self.deep_view().host(),
    {
        assert(self.deep_view().wanted[self.at as int] == self.wanted@[self.at as int].deep_view());
        match &self.wanted[self.at].host {
            Some(h) => h.clone(),
            None => String::new(),
        }
    }

    fn found(&mut self, ip: &str) -> (r: Turn)
        requires
            old(self).at < old(self).wanted@.len(),
        ensures
            (final(self).deep_view(), r.deep_view()) == old(self).deep_view().found(ip@),
    {
        let ghost before = self.deep_view();
        let h = self.host();
        let log = one_line(cat4("[graft forward] resolved ", h.as_str(), " → ", ip));
        table::insert(&mut self.resolved, h.as_str(), ip);
        self.unresolved = without_text(&self.unresolved, h.as_str());
        assert(self.deep_view() =~= DaemonView {
            resolved: table::insert_spec(before.resolved, h@, ip@),
            unresolved: lists::without(before.unresolved, h@),
            ..before
        });
        self.launch(ip, log)
    }

    fn not_found(&mut self) -> (r: Turn)
        requires
            old(self).at < old(self).wanted@.len(),
        ensures
            (final(self).deep_view(), r.deep_view()) == old(self).deep_view().not_found(),
    {
        let ghost before = self.deep_view();
        let h = self.host();
        let mut log = no_lines();
        if !has_text(&self.unresolved, h.as_str()) {
            push(&mut self.unresolved, h.as_str());
            log =
            one_line(
                cat3(
                    "[graft forward] cannot resolve '",
                    h.as_str(),
                    "' on the container network (service not up yet?) — will keep trying",
                ),
            );
        }
        assert(self.wanted.len() == self.wanted@.len());
        self.at += 1;
        assert(before.unresolved.contains(h@) ==> self.deep_view() =~= DaemonView {
            at: before.at + 1,
            ..before
        });
        assert(!before.unresolved.contains(h@) ==> self.deep_view() =~= DaemonView {
            at: before.at + 1,
            unresolved: before.unresolved.push(h@),
            ..before
        });
        self.advance(log)
    }

    fn look(&mut self, nets: Vec<String>) -> (r: Turn)
        requires
            old(self).at < old(self).wanted@.len(),
        ensures
            (final(self).deep_view(), r.deep_view()) == old(self).deep_view().look(
                nets.deep_view(),
            ),
    {
        assert(nets.deep_view().len() == nets@.len());
        if nets.len() == 0 {
            return self.not_found();
        }
        assert(nets.deep_view()[0] == nets@[0]@);
        let action = self.command(
            args5(
                "network",
                "inspect",
                "--format",
                "{{range .Containers}}{{.Name}} {{.IPv4Address}}\n{{end}}",
                nets[0].as_str(),
            ),
        );
        self.phase = Phase::Members(nets);
        Turn { log: no_lines(), action }
    }

    fn stop(&mut self, log: Vec<String>) -> (r: Turn)
        ensures
            (final(self).deep_view(), r.deep_view()) == old(self).deep_view().stop(
                log.deep_view(),
            ),
    {
        self.phase = Phase::Stopped;
        Turn { log, action: Action::Stop }
    }
}

impl Daemon {
    /// A daemon that is to be started: it asks for the container's address first.
    pub open spec fn fresh(
        container: Seq<char>,
        remote: Option<String>,
        static_ports: Seq<PortForwardView>,
        runtime: Runtime,
    ) -> DaemonView {
        DaemonView {
            container,
            remote,
            static_ports,
            runtime,
            ip: seq![],
            active: seq![],
            failed: seq![],
            unresolved: seq![],
            resolved: seq![],
            wanted: seq![],
            at: 0,
            phase: PhaseView::Locating,
        }
    }

    #[verifier::rlimit(60)]
    #[verifier::spinoff_prover]
    fn on_output(&mut self, out: Output) -> (r: Turn)
        ensures
            (final(self).deep_view(), r.deep_view()) == old(self).deep_view().on_output(out),
    {
        let inside = self.at < self.wanted.len();
        match &self.phase {
            Phase::Locating => match container_ip(&out) {
                Some(ip) => {
                    let log = one_line(cat("[graft forward] container IP: ", ip.as_str()));
                    self.ip = ip;
                    self.phase = Phase::Checking;
                    Turn { log, action: self.check() }
                },
                None => self.stop(
                    one_line(
                        "[graft forward] could not determine container IP — port forwarding disabled".to_string(),
                    ),
                ),
            },
            Phase::Checking => {
                if running(&out) {
                    let action = self.command(
                        args5(
                            "exec",
                            self.container.as_str(),
                            "sh",
                            "-c",
                            "cat /proc/net/tcp /proc/net/tcp6 2>/dev/null",
                        ),
                    );
                    self.phase = Phase::Polling;
                    Turn { log: no_lines(), action }
                } else {
                    self.stop(
                        one_line("[graft forward] container stopped, exiting".to_string()),
                    )
                }
            },
            Phase::Polling => {
                self.wanted = wanted(&polled(&out), &self.static_ports);
                self.at = 0;
                self.phase = Phase::Surveying;
                let mut ports: Vec<u16> = Vec::new();
                for i in 0..self.active.len()
                    invariant
                        ports@ == self.active@.take(i as int),
                {
                    ports.push(self.active[i]);
                    assert(ports@ =~= self.active@.take(i + 1));
                }
                assert(ports@ =~= self.active@);
                Turn { log: no_lines(), action: Action::Survey(ports) }
            },
            Phase::Asking if inside => match docker_stdout(&out) {
                Some(s) => {
                    let words = host_words(s.as_str());
                    self.phase = Phase::Parsing;
                    Turn { log: no_lines(), action: Action::Parse(words) }
                },
                None => {
                    let action = self.networks();
                    self.phase = Phase::Networks;
                    Turn { log: no_lines(), action }
                },
            },
            Phase::Networks if inside => match docker_stdout(&out) {
                Some(s) => {
                    let nets = text::full_lines(s.as_str());
                    self.look(nets)
                },
                None => self.not_found(),
            },
            Phase::Members(nets) if inside && nets.len() > 0 => match docker_stdout(&out) {
                Some(s) => match ip_of_member(s.as_str(), self.host().as_str()) {
                    Some(ip) => self.found(ip.as_str()),
                    None => {
                        let rest = tail(nets);
                        self.look(rest)
                    },
                },
                None => self.not_found(),
            },
            _ => self.stop(no_lines()),
        }
    }

    fn on_survey(&mut self, alive: Vec<bool>) -> (r: Turn)
        ensures
            (final(self).deep_view(), r.deep_view()) == (DaemonView {
                active: kept(old(self).active@, alive@, old(self).deep_view().wanted),
                ..old(self).deep_view()
            }).advance(stop_lines(old(self).active@, alive@, old(self).deep_view().wanted)),
    {
        let ghost before = self.deep_view();
        let ghost all = self.active@;
        let mut rest: Vec<u16> = Vec::new();
        let mut log = no_lines();
        for i in 0..self.active.len()
            invariant
                before == self.deep_view(),
                all == self.active@,
                rest@ == kept(all.take(i as int), alive@, before.wanted),
                log.deep_view() == stop_lines(all.take(i as int), alive@, before.wanted),
        {
            assert(all.take(i + 1).drop_last() =~= all.take(i as int));
            let local: u16 = self.active[i];
            if listed(&self.wanted, local) && i < alive.len() && alive[i] {
                rest.push(local);
            } else {
                push(
                    &mut log,
                    cat(
                        "[graft forward] stopped forwarding port ",
                        decimal(local as u64).as_str(),
                    ).as_str(),
                );
            }
        }
        assert(all.take(all.len() as int) =~= all);
        self.active = rest;
        self.advance(log)
    }

    fn on_started(&mut self, ok: bool) -> (r: Turn)
        requires
            old(self).at < old(self).wanted@.len(),
            old(self).phase is Starting,
        ensures
            (final(self).deep_view(), r.deep_view()) == old(self).deep_view().next(
                EventView::Started(ok),
            ),
    {
        let ghost before = self.deep_view();
        assert(before.wanted[self.at as int] == self.wanted@[self.at as int].deep_view());
        assert(self.wanted.len() == self.wanted@.len());
        let local: u16 = self.wanted[self.at].local;
        let mut log = no_lines();
        if ok {
            log =
            one_line(
                cat("[graft forward] forwarding port ", decimal(local as u64).as_str()),
            );
            self.active.push(local);
            self.failed = without_port(&self.failed, local);
        } else if !has_port(&self.failed, local) {
            self.failed.push(local);
            log =
            one_line(
                cat("[graft forward] could not forward port ", decimal(local as u64).as_str()),
            );
        }
        self.at += 1;
        self.advance(log)
    }

    /// What follows an event: what is logged, and what to do.
    pub fn step(&mut self, event: Event) -> (r: Turn)
        ensures
            (final(self).deep_view(), r.deep_view()) == old(self).deep_view().next(
                event.deep_view(),
            ),
    {
        let inside = self.at < self.wanted.len();
        match event {
            Event::Ran(out) => self.on_output(out),
            Event::Alive(alive) => match &self.phase {
                Phase::Surveying => self.on_survey(alive),
                _ => self.stop(no_lines()),
            },
            Event::Parsed(addrs) => match &self.phase {
                Phase::Parsing if inside => match preferred(&addrs) {
                    Some(ip) => self.found(ip.as_str()),
                    None => {
                        let action = self.networks();
                        self.phase = Phase::Networks;
                        Turn { log: no_lines(), action }
                    },
                },
                _ => self.stop(no_lines()),
            },
            Event::Started(ok) => match &self.phase {
                Phase::Starting if inside => self.on_started(ok),
                _ => self.stop(no_lines()),
            },
            Event::Woke => match &self.phase {
                Phase::Sleeping => {
                    let action = self.check();
                    self.phase = Phase::Checking;
                    Turn { log: no_lines(), action }
                },
                _ => self.stop(no_lines()),
            },
        }
    }
}

fn tail(items: &Vec<String>) -> (r: Vec<String>)
    requires
        items@.len() > 0,
    ensures
        r.deep_view() == items.deep_view().skip(1),
{
    let ghost all = items.deep_view();
    let mut out = no_lines();
    for i in 1..items.len()
        invariant
            all == items.deep_view(),
            out.deep_view() == all.subrange(1, i as int),
    {
        push(&mut out, items[i].as_str());
        assert(out.deep_view() =~= all.subrange(1, i + 1));
    }
    assert(out.deep_view() =~= all.skip(1));
    out
}

/// Port-forwarding daemon. Forwards declared in `forwardPorts` are set up
/// eagerly, from startup — connections just fail until the service listens. On
/// top of that, the daemon looks every two seconds which ports the container
/// listens on, and maintains one forwarder per listening port: a proxy for a
/// local docker, an ssh tunnel for a remote one. It ends when the container
/// stops.
pub fn run_daemon(
    container: &str,
    remote: &Option<String>,
    static_ports: Vec<PortForward>,
    rt: &Runtime,
) -> (r: (Daemon, Action))
    ensures
        r.0.deep_view() == Daemon::fresh(container@, *remote, static_ports.deep_view(), *rt),
        r.1.deep_view() == r.0.deep_view().locate(),
{
    let resolved: Vec<(String, String)> = Vec::new();
    let wanted: Vec<PortForward> = Vec::new();
    assert(resolved.deep_view() =~= seq![]);
    assert(wanted.deep_view() =~= seq![]);
    let d = Daemon {
        container: container.to_string(),
        remote: remote.clone(),
        static_ports,
        runtime: rt.copy(),
        ip: String::new(),
        active: Vec::new(),
        failed: Vec::new(),
        unresolved: no_lines(),
        resolved,
        wanted,
        at: 0,
        phase: Phase::Locating,
    };
    let action = d.command(
        args4(
            "inspect",
            "--format",
            "{{range .NetworkSettings.Networks}}{{.IPAddress}}\n{{end}}",
            container,
        ),
    );
    (d, action)
}

// ── laws ──────────────────────────────────────────────────────────────────────

/// Neither port zero nor a listener that only the loopback interface reaches is
/// ever forwarded.
pub proof fn hidden_listeners_are_skipped(line: Seq<char>)
    ensures
        listening_port(line) != Some(0u16),
        ({
            let cols = text::words_spec(line);
            cols.len() >= 2 && is_loopback(text::split_spec(cols[1], ':')[0])
        }) ==> listening_port(line) is None,
{
}

/// Only sockets in the state `0A` count as listening.
pub proof fn only_listening_sockets_count(line: Seq<char>)
    requires
        text::words_spec(line).len() < 4 || text::words_spec(line)[3] != "0A"@,
    ensures
        listening_port(line) is None,
{
}

/// The wanted forwards, by local port: each local port at most once, and on each
/// exactly the forward that is wanted there.
pub proof fn wanted_forwards_are_exact(
    listening: Set<u16>,
    forwards: Seq<PortForwardView>,
    n: int,
)
    requires
        0 <= n <= 65536,
    ensures
        ({
            let w = wanted_below(listening, forwards, n);
            &&& forall|i: int, j: int| 0 <= i < j < w.len() ==> w[i].local < w[j].local
            &&& forall|i: int|
                0 <= i < w.len() ==> {
                    &&& (#[trigger] w[i]).local < n
                    &&& wanted_at(listening, forwards, w[i].local) == Some(w[i])
                }
            &&& forall|local: u16|
                local < n && (#[trigger] wanted_at(listening, forwards, local)) is Some
                    ==> is_wanted(w, local)
        }),
    decreases n,
{
    if n > 0 {
        wanted_forwards_are_exact(listening, forwards, n - 1);
        let rest = wanted_below(listening, forwards, n - 1);
        let w = wanted_below(listening, forwards, n);
        let last = (n - 1) as u16;
        lemma_declared(forwards, last);
        if let Some(f) = wanted_at(listening, forwards, last) {
            assert(f.local == last);
            assert(w[rest.len() as int].local == last);
        }
        assert forall|local: u16|
            local < n && (#[trigger] wanted_at(listening, forwards, local)) is Some implies is_wanted(
            w,
            local,
        ) by {
            if local < n - 1 {
                assert(is_wanted(rest, local));
                let k = choose|k: int| 0 <= k < rest.len() && (#[trigger] rest[k]).local == local;
                assert(w[k] == rest[k]);
            }
        }
    }
}

proof fn lemma_declared(forwards: Seq<PortForwardView>, local: u16)
    ensures
        declared(forwards, local) matches Some(f) ==> f.local == local,
        (exists|i: int| 0 <= i < forwards.len() && (#[trigger] forwards[i]).local == local)
            ==> declared(forwards, local) is Some,
    decreases forwards.len(),
{
    if forwards.len() > 0 {
        lemma_declared(forwards.drop_last(), local);
        if exists|i: int| 0 <= i < forwards.len() && (#[trigger] forwards[i]).local == local {
            let i = choose|i: int|
                0 <= i < forwards.len() && (#[trigger] forwards[i]).local == local;
            if i < forwards.len() - 1 {
                assert(forwards.drop_last()[i].local == local);
            }
        }
    }
}

/// A declared forward is wanted whatever the container listens on, and wins over
/// a listening port with the same number.
pub proof fn declared_forwards_are_always_wanted(
    listening: Set<u16>,
    forwards: Seq<PortForwardView>,
    i: int,
)
    requires
        0 <= i < forwards.len(),
    ensures
        is_wanted(wanted_spec(listening, forwards), forwards[i].local),
        wanted_at(listening, forwards, forwards[i].local) == declared(
            forwards,
            forwards[i].local,
        ),
{
    lemma_declared(forwards, forwards[i].local);
    wanted_forwards_are_exact(listening, forwards, 65536);
}

/// A forwarder goes exactly when its port is no longer wanted or it died.
pub proof fn forwarders_are_kept_iff_wanted_and_alive(
    active: Seq<u16>,
    alive: Seq<bool>,
    wanted: Seq<PortForwardView>,
    local: u16,
)
    ensures
        kept(active, alive, wanted).contains(local) <==> exists|i: int|
            0 <= i < active.len() && active[i] == local && #[trigger] keeps(
                active,
                alive,
                wanted,
                i,
            ),
        kept(active, alive, wanted).len() + stop_lines(active, alive, wanted).len()
            == active.len(),
    decreases active.len(),
{
    if active.len() > 0 {
        let init = active.drop_last();
        let n = active.len() - 1;
        forwarders_are_kept_iff_wanted_and_alive(init, alive, wanted, local);
        let rest = kept(init, alive, wanted);
        let all = kept(active, alive, wanted);
        assert forall|i: int| 0 <= i < n implies keeps(active, alive, wanted, i) == keeps(
            init,
            alive,
            wanted,
            i,
        ) by {}
        if all.contains(local) {
            let k = choose|k: int| 0 <= k < all.len() && all[k] == local;
            if k < rest.len() {
                assert(rest[k] == local);
                assert(rest.contains(local));
                let i = choose|i: int|
                    0 <= i < init.len() && init[i] == local && #[trigger] keeps(
                        init,
                        alive,
                        wanted,
                        i,
                    );
                assert(keeps(active, alive, wanted, i));
            } else {
                assert(keeps(active, alive, wanted, n));
            }
        }
        if exists|i: int|
            0 <= i < active.len() && active[i] == local && #[trigger] keeps(
                active,
                alive,
                wanted,
                i,
            ) {
            let i = choose|i: int|
                0 <= i < active.len() && active[i] == local && #[trigger] keeps(
                    active,
                    alive,
                    wanted,
                    i,
                );
            if i < n {
                assert(init[i] == local && keeps(init, alive, wanted, i));
                let k = choose|k: int| 0 <= k < rest.len() && rest[k] == local;
                assert(all[k] == local);
            } else {
                assert(all[rest.len() as int] == local);
            }
        }
    }
}

/// No wanted forward is passed over unless it has a forwarder, and the daemon
/// pauses only when all have been dealt with. A round starts with the first, so
/// one that could not be had is tried again in the next round.
pub proof fn no_wanted_forward_is_passed_over(d: DaemonView, log: Seq<Seq<char>>)
    requires
        0 <= d.at <= d.wanted.len(),
    ensures
        ({
            let (e, turn) = d.advance(log);
            &&& d.at <= e.at <= d.wanted.len()
            &&& e.wanted == d.wanted
            &&& e.active == d.active
            &&& forall|j: int|
                d.at <= j < e.at ==> d.active.contains((#[trigger] d.wanted[j]).local)
            &&& turn.action is Sleep <==> e.at == d.wanted.len()
            &&& e.at < d.wanted.len() ==> !d.active.contains(d.wanted[e.at].local)
        }),
        forall|out: Output|
            d.phase is Polling ==> (#[trigger] d.next(EventView::Ran(out))).0.at == 0,
    decreases d.wanted.len() - d.at,
{
    if d.at < d.wanted.len() && d.active.contains(d.wanted[d.at].local) {
        no_wanted_forward_is_passed_over(DaemonView { at: d.at + 1, ..d }, log);
    }
}

/// The daemon ends when the container stops, and goes on while it runs.
pub proof fn daemon_ends_with_its_container(d: DaemonView, out: Output)
    requires
        d.phase is Checking,
    ensures
        d.next(EventView::Ran(out)).1.action is Stop <==> !running_spec(out),
{
}

/// A host that does not resolve is warned about once: nothing is told of one
/// that is known not to, and one that was told of is known from then on.
pub proof fn unresolved_host_is_told_once(d: DaemonView)
    requires
        0 <= d.at < d.wanted.len(),
    ensures
        d.not_found().0.unresolved.contains(d.host()),
        d.unresolved.contains(d.host()) ==> d.not_found().0.unresolved == d.unresolved
            && d.not_found() == (DaemonView { at: d.at + 1, ..d }).advance(seq![]),
{
    let h = d.host();
    lemma_advance_keeps(DaemonView { at: d.at + 1, ..d }, seq![]);
    let told = d.unresolved.push(h);
    assert(told[told.len() - 1] == h);
    lemma_advance_keeps(
        DaemonView { at: d.at + 1, unresolved: told, ..d },
        seq![
            "[graft forward] cannot resolve '"@ + h
                + "' on the container network (service not up yet?) — will keep trying"@,
        ],
    );
}

proof fn lemma_advance_keeps(d: DaemonView, log: Seq<Seq<char>>)
    ensures
        d.advance(log).0.unresolved == d.unresolved,
    decreases d.wanted.len() - d.at,
{
    if 0 <= d.at < d.wanted.len() && d.active.contains(d.wanted[d.at].local) {
        lemma_advance_keeps(DaemonView { at: d.at + 1, ..d }, log);
    }
}

/// The daemon deals with a wanted forward that has no forwarder.
pub open spec fn dealing(phase: PhaseView) -> bool {
    phase is Asking || phase is Parsing || phase is Networks || phase is Members
        || phase is Starting
}

/// What holds of the daemon between events: no local port has two forwarders,
/// and a forward that is being set up has none yet.
pub open spec fn orderly(d: DaemonView) -> bool {
    &&& d.active.no_duplicates()
    &&& dealing(d.phase) ==> 0 <= d.at < d.wanted.len() && !d.active.contains(d.wanted[d.at].local)
}

proof fn lemma_advance_orderly(d: DaemonView, log: Seq<Seq<char>>)
    requires
        d.active.no_duplicates(),
        0 <= d.at,
    ensures
        orderly(d.advance(log).0),
        d.advance(log).0.active == d.active,
    decreases d.wanted.len() - d.at,
{
    if d.at < d.wanted.len() && d.active.contains(d.wanted[d.at].local) {
        lemma_advance_orderly(DaemonView { at: d.at + 1, ..d }, log);
    }
}

proof fn lemma_kept_distinct(active: Seq<u16>, alive: Seq<bool>, wanted: Seq<PortForwardView>)
    requires
        active.no_duplicates(),
    ensures
        kept(active, alive, wanted).no_duplicates(),
    decreases active.len(),
{
    if active.len() > 0 {
        let init = active.drop_last();
        assert(init.no_duplicates());
        lemma_kept_distinct(init, alive, wanted);
        forwarders_are_kept_iff_wanted_and_alive(init, alive, wanted, active.last());
        let rest = kept(init, alive, wanted);
        assert(!rest.contains(active.last())) by {
            if rest.contains(active.last()) {
                let i = choose|i: int|
                    0 <= i < init.len() && init[i] == active.last() && #[trigger] keeps(
                        init,
                        alive,
                        wanted,
                        i,
                    );
                assert(active[i] == active[active.len() - 1]);
            }
        }
    }
}

/// Whatever happens, no local port ever gets two forwarders: a new daemon is
/// orderly, and stays so.
pub proof fn one_forwarder_per_local_port(d: DaemonView, event: EventView)
    requires
        orderly(d),
    ensures
        orderly(d.next(event).0),
{
    let local = d.wanted[d.at].local;
    match event {
        EventView::Alive(alive) => {
            if d.phase is Surveying && d.at >= 0 {
                lemma_kept_distinct(d.active, alive, d.wanted);
                lemma_advance_orderly(
                    DaemonView { active: kept(d.active, alive, d.wanted), ..d },
                    stop_lines(d.active, alive, d.wanted),
                );
            } else if d.phase is Surveying {
                lemma_kept_distinct(d.active, alive, d.wanted);
            }
        },
        EventView::Started(ok) => {
            if d.phase is Starting {
                let line = num::dec(local as nat);
                if ok {
                    let active = d.active.push(local);
                    assert(active.no_duplicates());
                    lemma_advance_orderly(
                        DaemonView {
                            active,
                            failed: lists::without(d.failed, local),
                            at: d.at + 1,
                            ..d
                        },
                        seq!["[graft forward] forwarding port "@ + line],
                    );
                } else {
                    lemma_advance_orderly(DaemonView { at: d.at + 1, ..d }, seq![]);
                    lemma_advance_orderly(
                        DaemonView { failed: d.failed.push(local), at: d.at + 1, ..d },
                        seq!["[graft forward] could not forward port "@ + line],
                    );
                }
            }
        },
        EventView::Ran(_) => {
            if dealing(d.phase) {
                let h = d.host();
                lemma_advance_orderly(DaemonView { at: d.at + 1, ..d }, seq![]);
                lemma_advance_orderly(
                    DaemonView { at: d.at + 1, unresolved: d.unresolved.push(h), ..d },
                    seq![
                        "[graft forward] cannot resolve '"@ + h
                            + "' on the container network (service not up yet?) — will keep trying"@,
                    ],
                );
            }
        },
        _ => {},
    }
}

/// A host is asked for only where the forward that is dealt with names one.
pub open spec fn asks_for_hosts(d: DaemonView) -> bool {
    &&& 0 <= d.at
    &&& d.phase is Asking || d.phase is Parsing || d.phase is Networks || d.phase is Members
        ==> d.at < d.wanted.len() && d.wanted[d.at].host is Some
}

/// The address that a forward goes to: that of the container, or the one that
/// its host was resolved to.
pub open spec fn address_of(d: DaemonView, f: PortForwardView) -> Option<Seq<char>> {
    match f.host {
        None => Some(d.ip),
        Some(h) => table::get(d.resolved, h),
    }
}

/// A text is an address, a colon and a text that reads as a port.
pub open spec fn is_endpoint(target: Seq<char>, ip: Seq<char>, port: u16) -> bool {
    &&& target.len() > ip.len()
    &&& target.take(ip.len() as int) == ip
    &&& target[ip.len() as int] == ':'
    &&& num::port_spec(target.skip(ip.len() as int + 1)) == Some(port)
}

/// A command is ssh to a destination that does nothing but tunnel from a local
/// port to a target.
pub open spec fn tunnels(
    c: invocation::InvocationView,
    dest: Seq<char>,
    local: u16,
    target: Seq<char>,
    rt: Runtime,
) -> bool {
    let n = c.args.len() as int;
    &&& c.program == "ssh"@
    &&& n >= 8
    &&& c.args.take(n - 8) == ssh::base_spec(dest, rt).args
    &&& c.args[n - 8] == "-N"@
    &&& c.args[n - 7] == "-o"@ && c.args[n - 6] == "BatchMode=yes"@
    &&& c.args[n - 5] == "-o"@ && c.args[n - 4] == "ExitOnForwardFailure=yes"@
    &&& c.args[n - 3] == "-L"@
    &&& text::index_spec(c.args[n - 2], ':') matches Some(i) && {
        &&& num::port_spec(c.args[n - 2].take(i)) == Some(local)
        &&& c.args[n - 2].skip(i + 1) == target
    }
    &&& c.args.last() == ssh::split_spec(dest).0
    &&& c.stdin_null
}

/// A forwarder is started for the forward that is dealt with.
pub open spec fn forwards_as_wanted(d: DaemonView, action: ActionView) -> bool {
    action matches ActionView::Start { local, target, tunnel } ==> {
        &&& 0 <= d.at < d.wanted.len()
        &&& local == d.wanted[d.at].local
        &&& address_of(d, d.wanted[d.at]) matches Some(ip) && is_endpoint(
            target,
            ip,
            d.wanted[d.at].port,
        )
        &&& match d.remote {
            None => tunnel is None,
            Some(r) => tunnel matches Some(c) && tunnels(
                c,
                r@,
                d.wanted[d.at].local,
                target,
                d.runtime,
            ),
        }
    }
}

proof fn lemma_launch(d: DaemonView, ip: Seq<char>, log: Seq<Seq<char>>)
    requires
        0 <= d.at < d.wanted.len(),
        address_of(d, d.wanted[d.at]) == Some(ip),
    ensures
        forwards_as_wanted(d.launch(ip, log).0, d.launch(ip, log).1.action),
{
    let f = d.wanted[d.at];
    let port = num::dec(f.port as nat);
    let target = ip + ":"@ + port;
    reveal_strlit(":");
    num::lemma_decimal_roundtrip(f.port as nat, 65535);
    assert(target.take(ip.len() as int) =~= ip);
    assert(target.skip(ip.len() as int + 1) =~= port);
    if let Some(r) = d.remote {
        let c = d.tunnel(f.local, target)->0;
        let base = ssh::base_spec(r@, d.runtime);
        let n = c.args.len() as int;
        let local = num::dec(f.local as nat);
        let l = local + ":"@ + target;
        assert(c.args.take(n - 8) =~= base.args);
        assert(c.args[n - 2] == l);
        num::lemma_decimal_digits(f.local as nat);
        num::lemma_decimal_roundtrip(f.local as nat, 65535);
        let i = local.len() as int;
        assert(l[i] == ':');
        text::lemma_index(l, ':', 0);
        assert forall|j: int| 0 <= j < i implies l[j] != ':' by {
            assert(l[j] == local[j]);
        }
        assert(text::index_spec(l, ':') == Some(i));
        assert(l.take(i) =~= local);
        assert(l.skip(i + 1) =~= target);
    }
}

/// The daemon goes on with the same container, forwards and addresses.
spec fn same_daemon(d: DaemonView, e: DaemonView) -> bool {
    &&& e.container == d.container
    &&& e.remote == d.remote
    &&& e.runtime == d.runtime
    &&& e.static_ports == d.static_ports
    &&& e.ip == d.ip
}

proof fn lemma_advance_goes(d: DaemonView, log: Seq<Seq<char>>)
    requires
        0 <= d.at,
    ensures
        asks_for_hosts(d.advance(log).0),
        forwards_as_wanted(d.advance(log).0, d.advance(log).1.action),
        same_daemon(d, d.advance(log).0),
    decreases d.wanted.len() - d.at,
{
    if d.at < d.wanted.len() {
        let f = d.wanted[d.at];
        if d.active.contains(f.local) {
            lemma_advance_goes(DaemonView { at: d.at + 1, ..d }, log);
        } else {
            if let Some(ip) = address_of(d, f) {
                lemma_launch(d, ip, log);
            }
        }
    }
}

proof fn lemma_set_is_got(t: Seq<table::Entry>, k: Seq<char>, v: Seq<char>)
    ensures
        table::get(table::insert_spec(t, k, v), k) == Some(v),
    decreases t.len(),
{
    let r = table::insert_spec(t, k, v);
    if t.len() > 0 && t[0].0 != k && !text::text_lt(k, t[0].0) {
        lemma_set_is_got(t.skip(1), k, v);
        assert(r.skip(1) =~= table::insert_spec(t.skip(1), k, v));
    }
}

proof fn lemma_found(d: DaemonView, ip: Seq<char>)
    requires
        0 <= d.at < d.wanted.len(),
        d.wanted[d.at].host is Some,
    ensures
        asks_for_hosts(d.found(ip).0),
        forwards_as_wanted(d.found(ip).0, d.found(ip).1.action),
        same_daemon(d, d.found(ip).0),
        d.found(ip).0.wanted == d.wanted,
        d.found(ip).0.at == d.at,
        address_of(d.found(ip).0, d.wanted[d.at]) == Some(ip),
        d.found(ip).1.action is Start,
{
    let h = d.host();
    let e = DaemonView {
        resolved: table::insert_spec(d.resolved, h, ip),
        unresolved: lists::without(d.unresolved, h),
        ..d
    };
    lemma_set_is_got(d.resolved, h, ip);
    lemma_launch(e, ip, seq!["[graft forward] resolved "@ + h + " → "@ + ip]);
}

proof fn lemma_not_found(d: DaemonView)
    requires
        0 <= d.at < d.wanted.len(),
    ensures
        asks_for_hosts(d.not_found().0),
        forwards_as_wanted(d.not_found().0, d.not_found().1.action),
        same_daemon(d, d.not_found().0),
{
    let h = d.host();
    lemma_advance_goes(DaemonView { at: d.at + 1, ..d }, seq![]);
    lemma_advance_goes(
        DaemonView { at: d.at + 1, unresolved: d.unresolved.push(h), ..d },
        seq![
            "[graft forward] cannot resolve '"@ + h
                + "' on the container network (service not up yet?) — will keep trying"@,
        ],
    );
}

/// Whatever happens, a forwarder that is started goes from the local port of the
/// forward that is dealt with to its target port, at the address of the
/// container or of the host that the forward names; with a remote, through a
/// tunnel between exactly these. A new daemon asks for no host, and one that asks
/// for hosts only where they are named goes on so.
pub proof fn forwarders_go_where_they_are_wanted(d: DaemonView, event: EventView)
    requires
        asks_for_hosts(d),
    ensures
        asks_for_hosts(d.next(event).0),
        forwards_as_wanted(d.next(event).0, d.next(event).1.action),
{
    lemma_event(d, event);
}

proof fn lemma_event(d: DaemonView, event: EventView)
    requires
        asks_for_hosts(d),
    ensures
        asks_for_hosts(d.next(event).0),
        forwards_as_wanted(d.next(event).0, d.next(event).1.action),
        d.phase !is Locating ==> same_daemon(d, d.next(event).0),
{
    match event {
        EventView::Ran(out) => {
            if 0 <= d.at < d.wanted.len() {
                match d.phase {
                    PhaseView::Networks => {
                        lemma_not_found(d);
                    },
                    PhaseView::Members(nets) => {
                        lemma_not_found(d);
                        if let Some(s) = stdout_spec(out) {
                            if let Some(ip) = member_ip(text::lines_spec(s), d.host()) {
                                lemma_found(d, ip);
                            }
                        }
                    },
                    _ => {},
                }
            }
        },
        EventView::Alive(alive) => {
            lemma_advance_goes(
                DaemonView { active: kept(d.active, alive, d.wanted), ..d },
                stop_lines(d.active, alive, d.wanted),
            );
        },
        EventView::Parsed(addrs) => {
            if let Some(ip) = preferred_spec(addrs) {
                if d.phase is Parsing {
                    lemma_found(d, ip);
                }
            }
        },
        EventView::Started(ok) => {
            if d.phase is Starting && d.at < d.wanted.len() {
                let local = d.wanted[d.at].local;
                let line = num::dec(local as nat);
                lemma_advance_goes(
                    DaemonView {
                        active: d.active.push(local),
                        failed: lists::without(d.failed, local),
                        at: d.at + 1,
                        ..d
                    },
                    seq!["[graft forward] forwarding port "@ + line],
                );
                lemma_advance_goes(DaemonView { at: d.at + 1, ..d }, seq![]);
                lemma_advance_goes(
                    DaemonView { failed: d.failed.push(local), at: d.at + 1, ..d },
                    seq!["[graft forward] could not forward port "@ + line],
                );
            }
        },
        EventView::Woke => {},
    }
}

/// The daemon stays with the container, the remote and the declared forwards that
/// it was started for, and with the address that the inspection of the container
/// told first.
pub proof fn daemon_stays_with_its_container(d: DaemonView, event: EventView)
    requires
        asks_for_hosts(d),
    ensures
        ({
            let e = d.next(event).0;
            &&& e.container == d.container
            &&& e.remote == d.remote
            &&& e.static_ports == d.static_ports
            &&& d.phase !is Locating ==> e.ip == d.ip
            &&& d.phase is Locating && e.phase !is Stopped ==> (event matches EventView::Ran(out)
                && container_ip_spec(out) == Some(e.ip))
        }),
{
    lemma_event(d, event);
}

/// What the daemon has docker run in the order of a round: whether the container
/// runs, then its sockets. A host is looked for in the container's own name
/// service, and where that fails on each of the container's networks.
pub proof fn daemon_asks_about_its_container(d: DaemonView, out: Output)
    ensures
        d.locate() == ActionView::Run(
            docker::command_spec(
                d.remote,
                seq![
                    "inspect"@,
                    "--format"@,
                    "{{range .NetworkSettings.Networks}}{{.IPAddress}}\n{{end}}"@,
                    d.container,
                ],
                d.runtime,
            ),
        ),
        d.phase is Locating && container_ip_spec(out) is Some ==> d.next(
            EventView::Ran(out),
        ).1.action == ActionView::Run(
            docker::command_spec(
                d.remote,
                seq!["inspect"@, "--format"@, "{{.State.Running}}"@, d.container],
                d.runtime,
            ),
        ),
        d.phase is Sleeping ==> d.next(EventView::Woke).1.action == ActionView::Run(
            docker::command_spec(
                d.remote,
                seq!["inspect"@, "--format"@, "{{.State.Running}}"@, d.container],
                d.runtime,
            ),
        ),
        d.phase is Checking && running_spec(out) ==> d.next(EventView::Ran(out)).1.action
            == ActionView::Run(
            docker::command_spec(
                d.remote,
                seq![
                    "exec"@,
                    d.container,
                    "sh"@,
                    "-c"@,
                    "cat /proc/net/tcp /proc/net/tcp6 2>/dev/null"@,
                ],
                d.runtime,
            ),
        ),
        d.phase is Polling ==> d.next(EventView::Ran(out)).1.action == ActionView::Survey(d.active),
        d.phase is Asking && 0 <= d.at < d.wanted.len() && !out.ended.succeeded() ==> d.next(
            EventView::Ran(out),
        ).1.action == ActionView::Run(
            docker::command_spec(
                d.remote,
                seq![
                    "inspect"@,
                    "--format"@,
                    "{{range $k, $v := .NetworkSettings.Networks}}{{$k}}\n{{end}}"@,
                    d.container,
                ],
                d.runtime,
            ),
        ),
{
}

/// The networks of the container are looked through one after the other, from
/// the first to the last, until the host is found on one.
pub proof fn networks_are_looked_through_in_order(d: DaemonView, nets: Seq<Seq<char>>, out: Output)
    requires
        0 <= d.at < d.wanted.len(),
        d.wanted[d.at].host is Some,
        d.phase == PhaseView::Members(nets),
        nets.len() > 0,
        out.ended.succeeded(),
    ensures
        ({
            let (e, turn) = d.next(EventView::Ran(out));
            match member_ip(text::lines_spec(text::utf8_lossy(out.stdout@)), d.host()) {
                Some(ip) => turn.action is Start && address_of(e, d.wanted[d.at]) == Some(ip),
                None => nets.len() > 1 ==> {
                    &&& e.phase == PhaseView::Members(nets.skip(1))
                    &&& turn.action == ActionView::Run(
                        docker::command_spec(
                            d.remote,
                            seq![
                                "network"@,
                                "inspect"@,
                                "--format"@,
                                "{{range .Containers}}{{.Name}} {{.IPv4Address}}\n{{end}}"@,
                                nets[1],
                            ],
                            d.runtime,
                        ),
                    )
                },
            }
        }),
{
    if let Some(ip) = member_ip(text::lines_spec(text::utf8_lossy(out.stdout@)), d.host()) {
        lemma_found(d, ip);
    }
}

/// A host gets the address of the first line that tells of it: by its own name,
/// or by a compose name of its service.
pub proof fn member_is_named_by_its_line(lines: Seq<Seq<char>>, host: Seq<char>)
    ensures
        match member_ip(lines, host) {
            Some(ip) => exists|i: int|
                {
                    let cols = text::words_spec(#[trigger] lines[i]);
                    &&& 0 <= i < lines.len()
                    &&& cols.len() >= 2
                    &&& cols[0] == host || serves(cols[0], host)
                    &&& ip == text::split_spec(cols[1], '/')[0]
                    &&& forall|j: int| 0 <= j < i ==> !tells_of(#[trigger] lines[j], host)
                },
            None => forall|j: int| 0 <= j < lines.len() ==> !tells_of(#[trigger] lines[j], host),
        },
    decreases lines.len(),
{
    if lines.len() > 0 {
        let rest = lines.skip(1);
        if tells_of(lines[0], host) {
            assert(member_ip(lines, host) is Some);
        } else {
            member_is_named_by_its_line(rest, host);
            assert forall|j: int| 0 < j < lines.len() implies lines[j] == rest[j - 1] by {}
            if let Some(ip) = member_ip(rest, host) {
                let i = choose|i: int|
                    {
                        let cols = text::words_spec(#[trigger] rest[i]);
                        &&& 0 <= i < rest.len()
                        &&& cols.len() >= 2
                        &&& cols[0] == host || serves(cols[0], host)
                        &&& ip == text::split_spec(cols[1], '/')[0]
                        &&& forall|j: int| 0 <= j < i ==> !tells_of(#[trigger] rest[j], host)
                    };
                assert(lines[i + 1] == rest[i]);
                assert forall|j: int| 0 <= j < i + 1 implies !tells_of(
                    #[trigger] lines[j],
                    host,
                ) by {
                    if j > 0 {
                        assert(lines[j] == rest[j - 1]);
                    }
                }
            } else {
                assert forall|j: int| 0 <= j < lines.len() implies !tells_of(
                    #[trigger] lines[j],
                    host,
                ) by {
                    if j > 0 {
                        assert(lines[j] == rest[j - 1]);
                    }
                }
            }
        }
    }
}

/// A line of a network's listing tells of a host.
pub open spec fn tells_of(line: Seq<char>, host: Seq<char>) -> bool {
    let cols = text::words_spec(line);
    cols.len() >= 2 && (cols[0] == host || serves(cols[0], host))
}

/// Of the addresses of a host the first IPv4 one is used, and the first of all
/// only where there is none.
pub proof fn ipv4_addresses_are_preferred(addrs: Seq<(Seq<char>, bool)>)
    ensures
        preferred_spec(addrs) is None <==> addrs.len() == 0,
        preferred_spec(addrs) matches Some(a) ==> exists|i: int|
            {
                &&& 0 <= i < addrs.len()
                &&& (#[trigger] addrs[i]).0 == a
                &&& forall|j: int| 0 <= j < i ==> !(#[trigger] addrs[j]).1
                &&& addrs[i].1 || i == 0 && forall|j: int|
                    0 <= j < addrs.len() ==> !(#[trigger] addrs[j]).1
            },
{
    lemma_first_marked(addrs);
    if addrs.len() > 0 && first_marked(addrs) is None {
        assert(addrs[0].0 == preferred_spec(addrs)->0);
    }
}

proof fn lemma_first_marked(addrs: Seq<(Seq<char>, bool)>)
    ensures
        match first_marked(addrs) {
            Some(a) => exists|i: int|
                {
                    &&& 0 <= i < addrs.len()
                    &&& (#[trigger] addrs[i]) == (a, true)
                    &&& forall|j: int| 0 <= j < i ==> !(#[trigger] addrs[j]).1
                },
            None => forall|j: int| 0 <= j < addrs.len() ==> !(#[trigger] addrs[j]).1,
        },
    decreases addrs.len(),
{
    if addrs.len() > 0 {
        let rest = addrs.skip(1);
        if addrs[0].1 {
            assert(addrs[0] == (addrs[0].0, true));
        } else {
            lemma_first_marked(rest);
            if let Some(a) = first_marked(rest) {
                let i = choose|i: int|
                    {
                        &&& 0 <= i < rest.len()
                        &&& (#[trigger] rest[i]) == (a, true)
                        &&& forall|j: int| 0 <= j < i ==> !(#[trigger] rest[j]).1
                    };
                assert(addrs[i + 1] == (a, true));
                assert forall|j: int| 0 <= j < i + 1 implies !(#[trigger] addrs[j]).1 by {
                    if j > 0 {
                        assert(addrs[j] == rest[j - 1]);
                    }
                }
            } else {
                assert forall|j: int| 0 <= j < addrs.len() implies !(#[trigger] addrs[j]).1 by {
                    if j > 0 {
                        assert(addrs[j] == rest[j - 1]);
                    }
                }
            }
        }
    }
}

/// A forwarder counts as active exactly once it was started; one that failed to
/// start is told of once and does not.
pub proof fn only_started_forwarders_are_active(d: DaemonView, ok: bool)
    requires
        d.phase is Starting,
        0 <= d.at < d.wanted.len(),
    ensures
        d.next(EventView::Started(ok)).0.active == if ok {
            d.active.push(d.wanted[d.at].local)
        } else {
            d.active
        },
{
    let local = d.wanted[d.at].local;
    let line = num::dec(local as nat);
    lemma_advance_active(
        DaemonView {
            active: d.active.push(local),
            failed: lists::without(d.failed, local),
            at: d.at + 1,
            ..d
        },
        seq!["[graft forward] forwarding port "@ + line],
    );
    lemma_advance_active(DaemonView { at: d.at + 1, ..d }, seq![]);
    lemma_advance_active(
        DaemonView { failed: d.failed.push(local), at: d.at + 1, ..d },
        seq!["[graft forward] could not forward port "@ + line],
    );
}

proof fn lemma_advance_active(d: DaemonView, log: Seq<Seq<char>>)
    ensures
        d.advance(log).0.active == d.active,
    decreases d.wanted.len() - d.at,
{
    if 0 <= d.at < d.wanted.len() && d.active.contains(d.wanted[d.at].local) {
        lemma_advance_active(DaemonView { at: d.at + 1, ..d }, log);
    }
}

/// Of several forwards that are declared for the same local port, the last
/// counts.
pub proof fn last_declared_forward_counts(forwards: Seq<PortForwardView>, i: int)
    requires
        0 <= i < forwards.len(),
        forall|j: int|
            i < j < forwards.len() ==> (#[trigger] forwards[j]).local != forwards[i].local,
    ensures
        declared(forwards, forwards[i].local) == Some(forwards[i]),
        forall|listening: Set<u16>| #[trigger]
            wanted_at(listening, forwards, forwards[i].local) == Some(forwards[i]),
    decreases forwards.len(),
{
    if i < forwards.len() - 1 {
        let init = forwards.drop_last();
        assert forall|j: int| i < j < init.len() implies (#[trigger] init[j]).local
            != init[i].local by {
            assert(init[j] == forwards[j]);
        }
        last_declared_forward_counts(init, i);
        assert(forwards[forwards.len() - 1].local != forwards[i].local);
    }
}

/// A port that the container listens on is forwarded under its own number, unless
/// another forward is declared for it; what neither is declared nor listened on
/// is not forwarded.
pub proof fn listening_ports_are_forwarded(
    listening: Set<u16>,
    forwards: Seq<PortForwardView>,
    local: u16,
)
    requires
        forall|i: int| 0 <= i < forwards.len() ==> (#[trigger] forwards[i]).local != local,
    ensures
        wanted_at(listening, forwards, local) == (if listening.contains(local) {
            Some(PortForwardView { local, host: None, port: local })
        } else {
            None
        }),
    decreases forwards.len(),
{
    if forwards.len() > 0 {
        let init = forwards.drop_last();
        assert forall|i: int| 0 <= i < init.len() implies (#[trigger] init[i]).local != local by {
            assert(init[i] == forwards[i]);
        }
        listening_ports_are_forwarded(listening, init, local);
        assert(forwards[forwards.len() - 1].local != local);
    }
}

proof fn lemma_port_options(forwards: Seq<PortForwardView>, i: int)
    requires
        0 <= i < forwards.len(),
    ensures
        port_options(forwards).len() == 2 * forwards.len(),
        port_options(forwards)[2 * i] == "--port"@,
        port_options(forwards)[2 * i + 1] == forwards[i].encode(),
    decreases forwards.len(),
{
    let init = forwards.drop_last();
    if init.len() > 0 {
        lemma_port_options(
            init,
            if i < init.len() {
                i
            } else {
                0
            },
        );
    } else {
        assert(port_options(init).len() == 0);
    }
}

/// The daemon is started as this program with the same remote, for the container,
/// and with every declared forward, none of which is changed on the way.
pub proof fn daemon_is_started_for_its_container(
    exe: Seq<char>,
    container: Seq<char>,
    remote: Option<Seq<char>>,
    forwards: Seq<PortForwardView>,
    level: u8,
    i: int,
)
    requires
        0 <= i < forwards.len(),
        forwards[i].host matches Some(h) ==> forall|k: int| 0 <= k < h.len() ==> h[k] != ':',
    ensures
        ({
            let c = daemon_spec(exe, container, remote, forwards, level);
            let at: int = level + if remote is Some {
                2int
            } else {
                0int
            };
            &&& c.program == exe
            &&& c.args.len() == at + 2 + 2 * forwards.len()
            &&& remote matches Some(r) ==> c.args[0] == "--remote"@ && c.args[1] == r
            &&& c.args[at] == "_forward"@
            &&& c.args[at + 1] == container
            &&& c.args[at + 2 + 2 * i] == "--port"@
            &&& PortForwardView::decode(c.args[at + 3 + 2 * i]) == Some(forwards[i])
        }),
{
    lemma_port_options(forwards, i);
    encoded_forward_decodes(forwards[i]);
    let c = daemon_spec(exe, container, remote, forwards, level);
    let at: int = level + if remote is Some {
        2int
    } else {
        0int
    };
    assert(c.args[at + 2 + 2 * i] == port_options(forwards)[2 * i]);
    assert(c.args[at + 3 + 2 * i] == port_options(forwards)[2 * i + 1]);
}

proof fn lemma_advance_passes(d: DaemonView, log: Seq<Seq<char>>)
    requires
        0 <= d.at,
    ensures
        ({
            let (e, turn) = d.advance(log);
            &&& e.wanted == d.wanted
            &&& e.active == d.active
            &&& d.at <= e.at
            &&& turn.action is Sleep ==> e.at >= e.wanted.len()
            &&& turn.action !is Stop
            &&& forall|j: int|
                d.at <= j < e.at && j < e.wanted.len() ==> e.active.contains(
                    (#[trigger] e.wanted[j]).local,
                )
        }),
    decreases d.wanted.len() - d.at,
{
    if d.at < d.wanted.len() && d.active.contains(d.wanted[d.at].local) {
        lemma_advance_passes(DaemonView { at: d.at + 1, ..d }, log);
    }
}

/// One forward that cannot be had does not keep the others from being set up:
/// whether its host is not found or its forwarder does not start, the daemon goes
/// on with the forwards behind it, passes over none of them that has no
/// forwarder, and pauses only behind the last.
pub proof fn one_failure_does_not_stop_the_others(d: DaemonView, event: EventView)
    requires
        asks_for_hosts(d),
        dealing(d.phase),
        0 <= d.at < d.wanted.len(),
    ensures
        ({
            let (e, turn) = d.next(event);
            e.phase is Stopped || {
                &&& e.wanted == d.wanted
                &&& d.at <= e.at
                &&& turn.action is Sleep ==> e.at >= e.wanted.len()
                &&& forall|j: int|
                    d.at < j < e.at && j < e.wanted.len() ==> e.active.contains(
                        (#[trigger] e.wanted[j]).local,
                    )
            }
        }),
        d.phase is Starting ==> d.next(EventView::Started(false)).1.action !is Stop,
        d.phase is Networks ==> forall|out: Output|
            !out.ended.succeeded() ==> (#[trigger] d.next(EventView::Ran(out))).1.action !is Stop,
{
    let h = d.host();
    let local = d.wanted[d.at].local;
    let line = num::dec(local as nat);
    lemma_advance_passes(DaemonView { at: d.at + 1, ..d }, seq![]);
    lemma_advance_passes(
        DaemonView { at: d.at + 1, unresolved: d.unresolved.push(h), ..d },
        seq![
            "[graft forward] cannot resolve '"@ + h
                + "' on the container network (service not up yet?) — will keep trying"@,
        ],
    );
    lemma_advance_passes(
        DaemonView { failed: d.failed.push(local), at: d.at + 1, ..d },
        seq!["[graft forward] could not forward port "@ + line],
    );
    lemma_advance_passes(
        DaemonView {
            active: d.active.push(local),
            failed: lists::without(d.failed, local),
            at: d.at + 1,
            ..d
        },
        seq!["[graft forward] forwarding port "@ + line],
    );
}

/// What is told when a forwarder is started is where it goes: the last line ends
/// in the target, or with a remote in the remote behind the tunnel's ends.
pub proof fn forwarder_is_told_with_its_target(d: DaemonView, ip: Seq<char>, log: Seq<Seq<char>>)
    requires
        0 <= d.at < d.wanted.len(),
    ensures
        ({
            let turn = d.launch(ip, log).1;
            let f = d.wanted[d.at];
            let target = ip + ":"@ + num::dec(f.port as nat);
            &&& turn.log.len() == log.len() + 1
            &&& d.remote is None ==> target.is_suffix_of(turn.log.last())
            &&& d.remote matches Some(r) ==> (num::dec(f.local as nat) + ":"@ + target + " "@
                + r@).is_suffix_of(turn.log.last())
        }),
{
    let turn = d.launch(ip, log).1;
    let f = d.wanted[d.at];
    let local = num::dec(f.local as nat);
    let target = ip + ":"@ + num::dec(f.port as nat);
    let line = turn.log.last();
    match d.remote {
        None => {
            assert(line.subrange(line.len() - target.len(), line.len() as int) =~= target);
        },
        Some(r) => {
            let end = local + ":"@ + target + " "@ + r@;
            assert(line.subrange(line.len() - end.len(), line.len() as int) =~= end);
        },
    }
}

/// A host that was found, and a port whose forwarder was started, are warned
/// about again should they be lost later.
pub proof fn recovered_forwards_are_forgotten_as_failed(d: DaemonView, ip: Seq<char>)
    requires
        0 <= d.at < d.wanted.len(),
    ensures
        !d.found(ip).0.unresolved.contains(d.host()),
        d.phase is Starting ==> !d.next(EventView::Started(true)).0.failed.contains(
            d.wanted[d.at].local,
        ),
{
    let local = d.wanted[d.at].local;
    lists::lemma_without(d.unresolved, d.host(), d.host());
    lists::lemma_without(d.failed, local, local);
    lemma_advance_failed(
        DaemonView {
            active: d.active.push(local),
            failed: lists::without(d.failed, local),
            at: d.at + 1,
            ..d
        },
        seq!["[graft forward] forwarding port "@ + num::dec(local as nat)],
    );
}

proof fn lemma_advance_failed(d: DaemonView, log: Seq<Seq<char>>)
    ensures
        d.advance(log).0.failed == d.failed,
    decreases d.wanted.len() - d.at,
{
    if 0 <= d.at < d.wanted.len() && d.active.contains(d.wanted[d.at].local) {
        lemma_advance_failed(DaemonView { at: d.at + 1, ..d }, log);
    }
}

/// A listening socket on an address that is no loopback address shows its port,
/// which is in hexadecimal.
pub proof fn listening_socket_shows_its_port(line: Seq<char>, addr: Seq<char>, port: u16)
    requires
        text::words_spec(line).len() >= 4,
        text::words_spec(line)[1] == addr + ":"@ + num::hex(port as nat),
        text::words_spec(line)[3] == "0A"@,
        forall|i: int| 0 <= i < addr.len() ==> addr[i] != ':',
        !is_loopback(addr),
        port > 0,
    ensures
        listening_port(line) == Some(port),
{
    reveal_strlit(":");
    let digits = num::hex(port as nat);
    naming::lemma_hex_chars(port as nat);
    num::lemma_digits_value(port as nat, 16);
    assert forall|i: int| 0 <= i < digits.len() implies digits[i] != ':' by {
        assert(text::is_alnum(digits[i]));
    }
    assert(digits[0] != '+') by {
        assert(text::is_alnum(digits[0]));
    }
    assert(addr + ":"@ + digits =~= addr + seq![':'] + digits);
    lemma_split_front(addr, digits, ':');
    lemma_split_whole(digits, ':');
    let parts = text::split_spec(addr + ":"@ + digits, ':');
    assert(parts =~= seq![addr, digits]);
}

/// A container that compose names after a project, a service and a number serves
/// the service, with either separator.
pub proof fn compose_names_serve_their_service(
    project: Seq<char>,
    service: Seq<char>,
    n: nat,
    sep: char,
)
    requires
        sep == '-' || sep == '_',
    ensures
        serves(project + seq![sep] + service + seq![sep] + num::dec(n), service),
{
    let stem = project + seq![sep] + service;
    let index = num::dec(n);
    let name = stem + seq![sep] + index;
    num::lemma_decimal_digits(n);
    let k = stem.len() as int;
    assert(name[k] == sep);
    assert forall|j: int| k < j < name.len() implies name[j] != sep by {
        assert(name[j] == index[j - k - 1]);
    }
    text::lemma_rindex(name, sep);
    assert(text::rindex_spec(name, sep) == Some(k));
    assert(name.take(k) =~= stem);
    assert(name.skip(k + 1) =~= index);
    assert(stem.subrange(stem.len() - service.len(), stem.len() as int) =~= service);
    assert(stem[stem.len() - service.len() - 1] == sep);
    assert(named_by(name, service, sep));
}

/// What the container's name service tells is read by lines: the first word of
/// each may be an address.
pub proof fn told_addresses_are_first_words(lines: Seq<Seq<char>>, w: Seq<char>)
    ensures
        first_words(lines).contains(w) <==> exists|i: int|
            0 <= i < lines.len() && text::words_spec(#[trigger] lines[i]).len() > 0
                && text::words_spec(lines[i])[0] == w,
    decreases lines.len(),
{
    if lines.len() > 0 {
        let init = lines.drop_last();
        told_addresses_are_first_words(init, w);
        let rest = first_words(init);
        let all = first_words(lines);
        let words = text::words_spec(lines.last());
        assert(lines[lines.len() - 1] == lines.last());
        assert forall|i: int| 0 <= i < init.len() implies init[i] == #[trigger] lines[i] by {}
        assert forall|i: int| 0 <= i < init.len() implies #[trigger] init[i] == lines[i] by {}
        if words.len() > 0 {
            assert(all[rest.len() as int] == words[0]);
            if rest.contains(w) {
                let i = choose|i: int| 0 <= i < rest.len() && rest[i] == w;
                assert(all[i] == w);
            }
            if all.contains(w) {
                let i = choose|i: int| 0 <= i < all.len() && all[i] == w;
                if i < rest.len() {
                    assert(rest[i] == w);
                }
            }
        }
    }
}

/// Where the name service answers, the words that may be addresses are sorted
/// out; an answer without any leads to the networks.
pub proof fn answers_of_the_name_service_are_read(d: DaemonView, out: Output)
    requires
        d.phase is Asking,
        0 <= d.at < d.wanted.len(),
        out.ended.succeeded(),
    ensures
        d.next(EventView::Ran(out)).0.phase is Parsing,
        d.next(EventView::Ran(out)).1.action == ActionView::Parse(
            first_words(text::lines_spec(text::utf8_lossy(out.stdout@))),
        ),
        ({
            let e = d.next(EventView::Ran(out)).0;
            &&& e.next(EventView::Parsed(seq![])).0.phase is Networks
            &&& e.next(EventView::Parsed(seq![])).1.action == d.networks()
        }),
{
}

/// A host that was not found is asked for again in the next round: it has no
/// address until one was told, and a forward to a host without one is gone on
/// with by asking the container's name service.
pub proof fn unresolved_host_is_asked_for_again(d: DaemonView, log: Seq<Seq<char>>, h: Seq<char>)
    requires
        0 <= d.at < d.wanted.len(),
        d.wanted[d.at].host == Some(h),
    ensures
        d.not_found().0.resolved == d.resolved,
        !d.active.contains(d.wanted[d.at].local) && table::get(d.resolved, h) is None ==> {
            let (e, turn) = d.advance(log);
            &&& e.phase is Asking
            &&& e.at == d.at
            &&& turn.action == ActionView::Run(
                docker::command_spec(
                    d.remote,
                    seq!["exec"@, d.container, "getent"@, "hosts"@, h],
                    d.runtime,
                ),
            )
        },
{
    lemma_advance_resolved(DaemonView { at: d.at + 1, ..d }, seq![]);
    lemma_advance_resolved(
        DaemonView { at: d.at + 1, unresolved: d.unresolved.push(h), ..d },
        seq![
            "[graft forward] cannot resolve '"@ + h
                + "' on the container network (service not up yet?) — will keep trying"@,
        ],
    );
}

proof fn lemma_advance_resolved(d: DaemonView, log: Seq<Seq<char>>)
    ensures
        d.advance(log).0.resolved == d.resolved,
    decreases d.wanted.len() - d.at,
{
    if 0 <= d.at < d.wanted.len() && d.active.contains(d.wanted[d.at].local) {
        lemma_advance_resolved(DaemonView { at: d.at + 1, ..d }, log);
    }
}

} // verus!
