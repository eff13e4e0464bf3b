//! Forwarded ports in devcontainer.json.
use vstd::prelude::*;

use crate::forward;
use crate::forward::PortForward;
use crate::json::{Json, JsonKind};
use crate::num;
use crate::num::parse_port;
use crate::text;

verus! {

/// The forward of a port of the primary container.
pub open spec fn same_port(port: Option<u16>) -> Option<forward::PortForwardView> {
    match port {
        Some(p) => Some(forward::PortForwardView::same(p)),
        None => None,
    }
}

/// A text made of digits alone.
pub open spec fn is_numeric(s: Seq<char>) -> bool {
    s.len() > 0 && forall|i: int| 0 <= i < s.len() ==> text::is_digit(#[trigger] s[i])
}

/// The forward that an entry of text denotes: a port, `local:port`, or
/// `host:port`, in each case whatever follows a slash. A prefix of digits alone
/// is a local port and never a host, so one that is too large denotes nothing.
pub open spec fn forward_entry_spec(entry: Seq<char>) -> Option<forward::PortForwardView> {
    let s = text::split_spec(entry, '/')[0];
    match text::index_spec(s, ':') {
        None => same_port(num::port_spec(s)),
        Some(i) => match num::port_spec(s.skip(i + 1)) {
            Some(port) => match num::port_spec(s.take(i)) {
                Some(local) => Some(forward::PortForwardView { local, host: None, port }),
                None => if is_numeric(s.take(i)) {
                    None
                } else {
                    Some(
                        forward::PortForwardView { local: port, host: Some(s.take(i)), port },
                    )
                },
            },
            None => None,
        },
    }
}

fn numeric(s: &str) -> (r: bool)
    ensures
        r == is_numeric(s@),
{
    let v = text::chars(s);
    for i in 0..v.len()
        invariant
            v@ == s@,
            forall|j: int| 0 <= j < i ==> text::is_digit(#[trigger] s@[j]),
    {
        if !('0' <= v[i] && v[i] <= '9') {
            assert(!text::is_digit(s@[i as int]));
            return false;
        }
    }
    v.len() > 0
}

/// The forward that an entry of text denotes.
pub fn parse_forward_entry(entry: &str) -> (r: Option<PortForward>)
    ensures
        r.deep_view() == forward_entry_spec(entry@),
{
    let parts = text::split(entry, '/');
    let s: &str = parts[0];
    assert(parts.deep_view()[0] == s@);
    match text::index_of(s, ':') {
        None => match parse_port(s) {
            Some(p) => Some(PortForward::same(p)),
            None => None,
        },
        Some(i) => {
            let prefix = text::take(s, i);
            match parse_port(text::skip(s, i + 1)) {
                Some(port) => match parse_port(prefix) {
                    Some(local) => Some(PortForward { local, host: None, port }),
                    None => if numeric(prefix) {
                        None
                    } else {
                        Some(PortForward { local: port, host: Some(prefix.to_string()), port })
                    },
                },
                None => None,
            }
        },
    }
}

/// The forward that an entry denotes: a number that is a port, or a text.
pub open spec fn forward_value_spec(v: Json) -> Option<forward::PortForwardView> {
    match v.kind {
        JsonKind::Number(Some(n)) => if n <= 65535 {
            Some(forward::PortForwardView::same(n as u16))
        } else {
            None
        },
        JsonKind::Text(s) => forward_entry_spec(s@),
        _ => None,
    }
}

/// The forwards that entries denote; entries that denote none are left out.
pub open spec fn forward_ports_spec(values: Seq<Json>) -> Seq<forward::PortForwardView>
    decreases values.len(),
{
    if values.len() == 0 {
        seq![]
    } else {
        let rest = forward_ports_spec(values.drop_last());
        match forward_value_spec(values.last()) {
            Some(f) => rest.push(f),
            None => rest,
        }
    }
}

/// The entries that there are.
pub open spec fn listed(values: Option<Vec<Json>>) -> Seq<Json> {
    match values {
        Some(v) => v@,
        None => seq![],
    }
}

fn forward_value(v: &Json) -> (r: Option<PortForward>)
    ensures
        r.deep_view() == forward_value_spec(*v),
{
    match &v.kind {
        JsonKind::Number(Some(n)) => if *n <= 65535 {
            Some(PortForward::same(*n as u16))
        } else {
            None
        },
        JsonKind::Text(s) => parse_forward_entry(s.as_str()),
        _ => None,
    }
}

/// Parses forwardPorts entries. An entry is an integer (a port of the primary
/// container) or a "host:port" string, where host is another host on the
/// container network — typically a compose service ("db:5432"). A numeric prefix
/// ("3000:8080") is read as local port and container port, since a purely
/// numeric hostname is never meaningful; one that is no port is left out. A "/proto" suffix is tolerated and
/// ignored (TCP only).
pub fn parse_forward_ports(values: &Option<Vec<Json>>) -> (r: Vec<PortForward>)
    ensures
        r.deep_view() == forward_ports_spec(listed(*values)),
{
    let mut out: Vec<PortForward> = Vec::new();
    assert(out.deep_view() =~= forward_ports_spec(seq![]));
    if let Some(v) = values {
        let ghost all = v@;
        assert(all.take(0) =~= seq![]);
        for i in 0..v.len()
            invariant
                all == v@,
                out.deep_view() == forward_ports_spec(all.take(i as int)),
        {
            assert(all.take(i + 1).drop_last() =~= all.take(i as int));
            let ghost before = out.deep_view();
            if let Some(f) = forward_value(&v[i]) {
                out.push(f);
                assert(out.deep_view() =~= before.push(f.deep_view()));
            }
        }
        assert(all.take(all.len() as int) =~= all);
    }
    out
}

/// The host of a declared forward holds no colon, so that the forward can be
/// handed to the daemon as text.
pub proof fn declared_hosts_hold_no_colon(entry: Seq<char>)
    ensures
        forward_entry_spec(entry) matches Some(f) ==> (f.host matches Some(h) ==> forall|i: int|
            0 <= i < h.len() ==> h[i] != ':'),
{
    let s = text::split_spec(entry, '/')[0];
    text::lemma_index(s, ':', 0);
}

/// No declared host is made of digits alone.
pub proof fn declared_hosts_are_not_numeric(values: Seq<Json>, k: int)
    requires
        0 <= k < forward_ports_spec(values).len(),
    ensures
        forward_ports_spec(values)[k].host matches Some(h) ==> !is_numeric(h),
    decreases values.len(),
{
    if k < forward_ports_spec(values.drop_last()).len() {
        declared_hosts_are_not_numeric(values.drop_last(), k);
    }
}

/// Every declared forward survives being handed to the daemon as text.
pub proof fn declared_forwards_survive_as_text(values: Seq<Json>, k: int)
    requires
        0 <= k < forward_ports_spec(values).len(),
    ensures
        forward::PortForwardView::decode(forward_ports_spec(values)[k].encode()) == Some(
            forward_ports_spec(values)[k],
        ),
    decreases values.len(),
{
    let rest = forward_ports_spec(values.drop_last());
    if k < rest.len() {
        declared_forwards_survive_as_text(values.drop_last(), k);
    } else {
        match values.last().kind {
            JsonKind::Text(s) => declared_hosts_hold_no_colon(s@),
            _ => {},
        }
        forward::encoded_forward_decodes(forward_ports_spec(values)[k]);
    }
}

/// A number alone is a port of the primary container, under its own number; two
/// are a local port and a port of the primary container; a name and a number are
/// a port of another host, under its own number.
pub proof fn entries_mean_what_they_say(host: Seq<char>, a: u16, b: u16)
    requires
        !is_numeric(host),
        num::port_spec(host) is None,
        forall|i: int| 0 <= i < host.len() ==> host[i] != ':' && host[i] != '/',
    ensures
        forward_entry_spec(num::dec(a as nat)) == Some(
            forward::PortForwardView { local: a, host: None, port: a },
        ),
        forward_entry_spec(num::dec(a as nat) + ":"@ + num::dec(b as nat)) == Some(
            forward::PortForwardView { local: a, host: None, port: b },
        ),
        forward_entry_spec(host + ":"@ + num::dec(b as nat)) == Some(
            forward::PortForwardView { local: b, host: Some(host), port: b },
        ),
{
    reveal_strlit(":");
    let x = num::dec(a as nat);
    let y = num::dec(b as nat);
    num::lemma_decimal_digits(a as nat);
    num::lemma_decimal_digits(b as nat);
    num::lemma_decimal_roundtrip(a as nat, 65535);
    num::lemma_decimal_roundtrip(b as nat, 65535);
    lemma_no_slash(x);
    text::lemma_index(x, ':', 0);
    lemma_pair(x, y);
    lemma_pair(host, y);
}

proof fn lemma_no_slash(s: Seq<char>)
    requires
        forall|i: int| 0 <= i < s.len() ==> s[i] != '/',
    ensures
        text::split_spec(s, '/')[0] == s,
{
    text::lemma_index(s, '/', 0);
}

proof fn lemma_pair(x: Seq<char>, y: Seq<char>)
    requires
        forall|i: int| 0 <= i < x.len() ==> x[i] != ':' && x[i] != '/',
        forall|i: int| 0 <= i < y.len() ==> y[i] != '/',
    ensures
        ({
            let s = x + ":"@ + y;
            &&& text::split_spec(s, '/')[0] == s
            &&& text::index_spec(s, ':') == Some(x.len() as int)
            &&& s.take(x.len() as int) == x
            &&& s.skip(x.len() as int + 1) == y
        }),
{
    reveal_strlit(":");
    let s = x + ":"@ + y;
    let n = x.len() as int;
    assert forall|i: int| 0 <= i < s.len() implies s[i] != '/' by {
        if i < n {
            assert(s[i] == x[i]);
        } else if i > n {
            assert(s[i] == y[i - n - 1]);
        }
    }
    lemma_no_slash(s);
    assert forall|i: int| 0 <= i < n implies s[i] != ':' by {
        assert(s[i] == x[i]);
    }
    assert(s[n] == ':');
    text::lemma_index(s, ':', 0);
    assert(text::index_spec(s, ':') == Some(n));
    assert(s.take(n) =~= x);
    assert(s.skip(n + 1) =~= y);
}

/// Every entry that denotes a forward is forwarded, and nothing else is.
pub proof fn every_entry_is_forwarded(values: Seq<Json>, f: forward::PortForwardView)
    ensures
        forward_ports_spec(values).contains(f) <==> exists|i: int|
            0 <= i < values.len() && forward_value_spec(#[trigger] values[i]) == Some(f),
    decreases values.len(),
{
    if values.len() > 0 {
        let init = values.drop_last();
        every_entry_is_forwarded(init, f);
        let rest = forward_ports_spec(init);
        let all = forward_ports_spec(values);
        assert(values[values.len() - 1] == values.last());
        assert forall|i: int| 0 <= i < init.len() implies init[i] == #[trigger] values[i] by {}
        assert forall|i: int| 0 <= i < init.len() implies #[trigger] init[i] == values[i] by {}
        if let Some(last) = forward_value_spec(values.last()) {
            assert(all[rest.len() as int] == last);
            if rest.contains(f) {
                let i = choose|i: int| 0 <= i < rest.len() && rest[i] == f;
                assert(all[i] == f);
            }
            if all.contains(f) {
                let i = choose|i: int| 0 <= i < all.len() && all[i] == f;
                if i < rest.len() {
                    assert(rest[i] == f);
                }
            }
        }
    }
}

} // verus!
