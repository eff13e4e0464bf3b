//! Destinations of `--remote`, and the ssh commands that reach them.
use std::collections::hash_map::DefaultHasher;
use std::hash::Hasher;
use vstd::prelude::*;
use vstd::std_specs::hash::*;

use crate::invocation;
use crate::invocation::{push, push_strs, Invocation};
use crate::num;
use crate::num::{decimal, hexadecimal, parse_port};
use crate::path;
use crate::runtime::Runtime;
use crate::text;
use crate::text::{cat, index_of, rindex_of, skip, starts_with, take};
use crate::verbose;

verus! {

/// A destination without the `ssh://` that it may start with.
pub open spec fn without_scheme(remote: Seq<char>) -> Seq<char> {
    if "ssh://"@.is_prefix_of(remote) {
        remote.skip("ssh://"@.len() as int)
    } else {
        remote
    }
}

/// Where the host starts: behind the last `@`.
pub open spec fn host_start(dest: Seq<char>) -> int {
    match text::rindex_spec(dest, '@') {
        Some(i) => i + 1,
        None => 0,
    }
}

/// The port that a `:port` behind a bracketed address names.
pub open spec fn trailing_port(s: Seq<char>) -> Option<u16> {
    if s.len() > 0 && s[0] == ':' {
        num::port_spec(s.skip(1))
    } else {
        None
    }
}

/// The ssh destination and the port that a `--remote` destination denotes.
pub open spec fn split_spec(remote: Seq<char>) -> (Seq<char>, Option<u16>) {
    let dest = without_scheme(remote);
    let user = dest.take(host_start(dest));
    let host = dest.skip(host_start(dest));
    if host.len() > 0 && host[0] == '[' {
        let rest = host.skip(1);
        match text::index_spec(rest, ']') {
            Some(end) => (user + rest.take(end), trailing_port(rest.skip(end + 1))),
            None => (dest, None),
        }
    } else {
        match text::rindex_spec(host, ':') {
            Some(i) => if 0 < i && text::index_spec(host.take(i), ':') is None && num::port_spec(
                host.skip(i + 1),
            ) is Some {
                (user + host.take(i), num::port_spec(host.skip(i + 1)))
            } else {
                (dest, None)
            },
            None => (dest, None),
        }
    }
}

/// Splits a `--remote` destination into the ssh destination and an optional
/// port. Accepted forms: a `~/.ssh/config` Host alias, `user@host`,
/// `user@host:port`, `[v6addr]:port`, and any of those with an `ssh://`
/// prefix. A bare IPv6 address (more than one `:` and no brackets) is left
/// untouched rather than misread as host:port.
pub fn split(remote: &str) -> (r: (String, Option<u16>))
    ensures
        (r.0@, r.1) == split_spec(remote@),
{
    proof {
        reveal_strlit("ssh://");
    }
    let dest = if starts_with(remote, "ssh://") {
        skip(remote, 6)
    } else {
        remote
    };
    let start: usize = match rindex_of(dest, '@') {
        Some(i) => i + 1,
        None => 0,
    };
    let user = take(dest, start);
    let host = skip(dest, start);
    if !host.is_empty() && host.get_char(0) == '[' {
        let rest = skip(host, 1);
        return match index_of(rest, ']') {
            Some(end) => {
                let behind = skip(rest, end + 1);
                let port = if !behind.is_empty() && behind.get_char(0) == ':' {
                    parse_port(skip(behind, 1))
                } else {
                    None
                };
                (cat(user, take(rest, end)), port)
            },
            None => (dest.to_string(), None),
        };
    }
    if let Some(i) = rindex_of(host, ':') {
        let name = take(host, i);
        if i > 0 && index_of(name, ':').is_none() {
            if let Some(port) = parse_port(skip(host, i + 1)) {
                return (cat(user, name), Some(port));
            }
        }
    }
    (dest.to_string(), None)
}

/// The number that tells the control sockets of destinations apart: a hash of
/// the text as the standard library hashes it, closed by an `0xff` byte.
pub open spec fn control_hash(remote: Seq<char>) -> u64 {
    DefaultHasher::spec_finish(seq![vstd::utf8::encode_utf8(remote), seq![0xffu8]])
}

/// The directory of the control sockets.
pub open spec fn control_dir_spec(temp_dir: Seq<char>) -> Seq<char> {
    path::join_spec(temp_dir, "graft-ssh"@)
}

/// The directory of the control sockets.
pub fn control_dir(rt: &Runtime) -> (r: String)
    ensures
        r@ == control_dir_spec(rt.temp_dir@),
{
    path::join(rt.temp_dir.as_str(), "graft-ssh")
}

/// The control socket of a destination.
pub open spec fn control_path_spec(temp_dir: Seq<char>, remote: Seq<char>) -> Seq<char> {
    path::join_spec(
        control_dir_spec(temp_dir),
        num::hex(control_hash(remote) as nat) + ".sock"@,
    )
}

/// Socket used to multiplex every ssh invocation against the same `--remote`
/// destination over one already authenticated connection, keyed by the
/// destination as given, so that distinct hosts and ports get distinct sockets.
pub fn control_path(rt: &Runtime, remote: &str) -> (r: String)
    ensures
        r@ == control_path_spec(rt.temp_dir@, remote@),
{
    let mut hasher = DefaultHasher::new();
    hasher.write(remote.as_bytes());
    let end: [u8; 1] = [0xff];
    hasher.write(&end);
    assert(end@ =~= seq![0xffu8]);
    assert(hasher@ =~= seq![vstd::utf8::encode_utf8(remote@), seq![0xffu8]]);
    let name = cat(hexadecimal(hasher.finish()).as_str(), ".sock");
    path::join(control_dir(rt).as_str(), name.as_str())
}

/// The options that name a port.
pub open spec fn port_args(port: Option<u16>) -> Seq<Seq<char>> {
    match port {
        Some(p) => seq!["-p"@, num::dec(p as nat)],
        None => seq![],
    }
}

/// The options that a verbosity adds.
pub open spec fn verbose_args(level: u8) -> Seq<Seq<char>> {
    if level > 0 {
        seq![verbose::flags_spec(level)]
    } else {
        seq![]
    }
}

/// The ssh command for a destination, up to and without the destination.
pub open spec fn base_spec(remote: Seq<char>, rt: Runtime) -> invocation::InvocationView {
    invocation::InvocationView::plain(
        "ssh"@,
        port_args(split_spec(remote).1) + seq![
            "-o"@,
            "ControlMaster=auto"@,
            "-o"@,
            "ControlPersist=10m"@,
            "-o"@,
            "ControlPath="@ + control_path_spec(rt.temp_dir@, remote),
        ] + verbose_args(rt.verbosity.level),
    )
}

/// Builds an `ssh` command for the remote with the port (from a `host:port`
/// destination), connection multiplexing and the verbosity applied, and
/// returns the destination separately: ssh options must precede it, so callers
/// add their own options first, then the destination, then the remote command.
pub fn base_command(remote: &str, rt: &Runtime) -> (r: (Invocation, String))
    ensures
        r.0.deep_view() == base_spec(remote@, *rt),
        r.1@ == split_spec(remote@).0,
{
    let (dest, port) = split(remote);
    let mut args: Vec<String> = Vec::new();
    if let Some(p) = port {
        push(&mut args, "-p");
        push(&mut args, decimal(p as u64).as_str());
    }
    assert(args.deep_view() =~= port_args(port));
    push_strs(&mut args, &["-o", "ControlMaster=auto", "-o", "ControlPersist=10m"]);
    push(&mut args, "-o");
    push(&mut args, cat("ControlPath=", control_path(rt, remote).as_str()).as_str());
    if verbose::enabled(&rt.verbosity) {
        push(&mut args, verbose::flags(&rt.verbosity).as_str());
    }
    assert(args.deep_view() =~= base_spec(remote@, *rt).args);
    (Invocation::new("ssh", args), dest)
}

/// An ssh command that has the destination run a script.
pub open spec fn script_spec(
    remote: Seq<char>,
    script: Seq<char>,
    rt: Runtime,
) -> invocation::InvocationView {
    base_spec(remote, rt).with(seq![split_spec(remote).0, script])
}

/// An ssh command that has the destination run a script.
pub fn script_command(remote: &str, script: &str, rt: &Runtime) -> (r: Invocation)
    ensures
        r.deep_view() == script_spec(remote@, script@, *rt),
{
    let (mut cmd, dest) = base_command(remote, rt);
    cmd.arg(dest.as_str());
    cmd.arg(script);
    assert(cmd.deep_view().args =~= script_spec(remote@, script@, *rt).args);
    cmd
}

// ── laws ──────────────────────────────────────────────────────────────────────

/// A host with more than one colon and no bracket, such as a bare IPv6
/// address, is left untouched.
pub proof fn bare_ipv6_is_untouched(remote: Seq<char>, i: int, j: int)
    requires
        ({
            let dest = without_scheme(remote);
            let host = dest.skip(host_start(dest));
            &&& 0 <= i < j < host.len()
            &&& host[i] == ':'
            &&& host[j] == ':'
            &&& host[0] != '['
        }),
    ensures
        split_spec(remote) == (without_scheme(remote), None::<u16>),
{
    let dest = without_scheme(remote);
    let host = dest.skip(host_start(dest));
    text::lemma_rindex(host, ':');
    let k = text::rindex_spec(host, ':')->0;
    text::lemma_index(host.take(k), ':', 0);
    if text::index_spec(host.take(k), ':') is None {
        assert(host.take(k)[i] == ':');
    }
}

/// A destination that names no port comes back as it was given, but for its
/// scheme and for the brackets round an address.
pub proof fn destination_without_port_is_kept(remote: Seq<char>)
    requires
        split_spec(remote).1 is None,
        ({
            let dest = without_scheme(remote);
            let host = dest.skip(host_start(dest));
            host.len() == 0 || host[0] != '['
        }),
    ensures
        split_spec(remote).0 == without_scheme(remote),
{
}

/// `user@host:port` is taken apart, with or without a scheme: a name without
/// colons that is not bracketed, behind any user, keeps its text, and the port
/// that follows it is read.
pub proof fn port_is_extracted(remote: Seq<char>, user: Seq<char>, name: Seq<char>, port: u16)
    requires
        without_scheme(remote) == user + name + ":"@ + num::dec(port as nat),
        user.len() == 0 || user.last() == '@',
        name.len() > 0,
        name[0] != '[',
        forall|i: int| 0 <= i < name.len() ==> name[i] != ':' && name[i] != '@',
    ensures
        split_spec(remote) == (user + name, Some(port)),
{
    let dest = without_scheme(remote);
    let host = name + ":"@ + num::dec(port as nat);
    assert(dest =~= user + host);
    lemma_name_and_port(name, port);
    lemma_host(user, host);
}

/// A name and a port behind a colon are taken apart.
proof fn lemma_name_and_port(name: Seq<char>, port: u16)
    requires
        name.len() > 0,
        forall|i: int| 0 <= i < name.len() ==> name[i] != ':' && name[i] != '@',
    ensures
        ({
            let host = name + ":"@ + num::dec(port as nat);
            let k = name.len() as int;
            &&& host.len() > k
            &&& host[0] == name[0]
            &&& forall|j: int| 0 <= j < host.len() ==> host[j] != '@'
            &&& text::rindex_spec(host, ':') == Some(k)
            &&& host.take(k) == name
            &&& text::index_spec(name, ':') is None
            &&& num::port_spec(host.skip(k + 1)) == Some(port)
        }),
{
    reveal_strlit(":");
    let digits = num::dec(port as nat);
    num::lemma_decimal_digits(port as nat);
    num::lemma_decimal_roundtrip(port as nat, 65535);
    let host = name + ":"@ + digits;
    let k = name.len() as int;
    assert forall|j: int| 0 <= j < host.len() implies host[j] != '@' by {
        if j < k {
            assert(host[j] == name[j]);
        } else if j > k {
            assert(host[j] == digits[j - k - 1]);
        }
    }
    assert(host[k] == ':');
    assert forall|j: int| k < j < host.len() implies host[j] != ':' by {
        assert(host[j] == digits[j - k - 1]);
    }
    text::lemma_rindex(host, ':');
    assert(host.take(k) =~= name);
    text::lemma_index(name, ':', 0);
    assert(host.skip(k + 1) =~= digits);
}

/// A bracketed address, with or without a scheme and a port, loses its brackets
/// and keeps its text, behind any user.
pub proof fn brackets_are_taken_off(
    remote: Seq<char>,
    user: Seq<char>,
    addr: Seq<char>,
    port: Option<u16>,
)
    requires
        without_scheme(remote) == user + "["@ + addr + "]"@ + (match port {
            Some(p) => ":"@ + num::dec(p as nat),
            None => seq![],
        }),
        user.len() == 0 || user.last() == '@',
        forall|i: int| 0 <= i < addr.len() ==> addr[i] != ']' && addr[i] != '@',
    ensures
        split_spec(remote) == (user + addr, port),
{
    reveal_strlit(":");
    reveal_strlit("[");
    reveal_strlit("]");
    assert(":"@ =~= seq![':']);
    assert("["@ =~= seq!['[']);
    assert("]"@ =~= seq![']']);
    let tail = match port {
        Some(p) => ":"@ + num::dec(p as nat),
        None => seq![],
    };
    let dest = without_scheme(remote);
    let host = "["@ + addr + "]"@ + tail;
    assert(dest =~= user + host);
    if let Some(p) = port {
        num::lemma_decimal_digits(p as nat);
        num::lemma_decimal_roundtrip(p as nat, 65535);
        assert(tail.skip(1) =~= num::dec(p as nat));
        assert forall|j: int| 0 <= j < tail.len() implies tail[j] != '@' by {
            if j > 0 {
                assert(tail[j] == num::dec(p as nat)[j - 1]);
            }
        }
    }
    let n = addr.len() as int;
    assert forall|j: int| 0 <= j < host.len() implies host[j] != '@' by {
        if 0 < j <= n {
            assert(host[j] == addr[j - 1]);
        } else if j > n + 1 {
            assert(host[j] == tail[j - n - 2]);
        }
    }
    lemma_host(user, host);
    let rest = host.skip(1);
    assert(rest =~= addr + "]"@ + tail);
    text::lemma_index(rest, ']', 0);
    assert(rest[n] == ']');
    assert(text::index_spec(rest, ']') == Some(n)) by {
        assert forall|j: int| 0 <= j < n implies rest[j] != ']' by {
            assert(rest[j] == addr[j]);
        }
    }
    assert(rest.take(n) =~= addr);
    assert(rest.skip(n + 1) =~= tail);
}

/// The host stands behind the user.
proof fn lemma_host(user: Seq<char>, host: Seq<char>)
    requires
        user.len() == 0 || user.last() == '@',
        forall|j: int| 0 <= j < host.len() ==> host[j] != '@',
    ensures
        host_start(user + host) == user.len(),
        (user + host).take(user.len() as int) == user,
        (user + host).skip(user.len() as int) == host,
{
    let dest = user + host;
    let n = user.len() as int;
    text::lemma_rindex(dest, '@');
    assert forall|j: int| n <= j < dest.len() implies dest[j] != '@' by {
        assert(dest[j] == host[j - n]);
    }
    if n > 0 {
        assert(dest[n - 1] == user.last());
    }
    assert(dest.take(n) =~= user);
    assert(dest.skip(n) =~= host);
}

/// A script is run at the destination: it is the last argument, behind the
/// destination, and what precedes them are options, of which the port comes
/// first, where the destination names one.
pub proof fn script_is_run_at_the_destination(remote: Seq<char>, script: Seq<char>, rt: Runtime)
    ensures
        ({
            let c = script_spec(remote, script, rt);
            let n = c.args.len() as int;
            let (dest, port) = split_spec(remote);
            &&& c.program == "ssh"@
            &&& n >= 8
            &&& c.args[n - 1] == script
            &&& c.args[n - 2] == dest
            &&& match port {
                Some(p) => c.args[0] == "-p"@ && num::port_spec(c.args[1]) == Some(p) && c.args[2]
                    == "-o"@,
                None => c.args[0] == "-o"@,
            }
        }),
{
    if let Some(p) = split_spec(remote).1 {
        num::lemma_decimal_roundtrip(p as nat, 65535);
    }
}

/// Commands for the same destination share one connection: they name the same
/// control socket, whatever script they run.
pub proof fn connection_is_shared(remote: Seq<char>, a: Seq<char>, b: Seq<char>, rt: Runtime)
    ensures
        script_spec(remote, a, rt).args.drop_last() == script_spec(
            remote,
            b,
            rt,
        ).args.drop_last(),
        script_spec(remote, a, rt).args.contains(
            "ControlPath="@ + control_path_spec(rt.temp_dir@, remote),
        ),
        script_spec(remote, a, rt).args.contains("ControlMaster=auto"@),
{
    let x = script_spec(remote, a, rt).args;
    let y = script_spec(remote, b, rt).args;
    assert(x.drop_last() =~= y.drop_last());
    let k: int = if split_spec(remote).1 is Some {
        2
    } else {
        0
    };
    assert(x[k + 1] == "ControlMaster=auto"@);
    assert(x[k + 5] == "ControlPath="@ + control_path_spec(rt.temp_dir@, remote));
}

} // verus!
