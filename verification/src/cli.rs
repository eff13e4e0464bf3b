//! The command line, as plain values.
use vstd::prelude::*;

use crate::forward;
use crate::forward::PortForward;
use crate::text::cat;

verus! {

/// What the user asked for.
#[derive(Debug, PartialEq, Eq)]
pub struct Cli {
    /// SSH remote to operate on; the docker CLI is run on the remote host over
    /// SSH, so no local docker CLI is needed — only an ssh client.
    pub remote: Option<String>,
    /// How often `--verbose` was given.
    pub verbose: u8,
    pub command: Command,
}

/// What is to be done.
#[derive(Debug, PartialEq, Eq)]
pub enum Command {
    /// Start a devcontainer and graft in.
    Up {
        /// Project path containing the devcontainer config
        /// (defaults to current directory)
        path: Option<String>,
        /// Force-rebuild images and recreate the container from scratch
        build: bool,
    },
    /// Stop a project's devcontainer.
    Down {
        /// Project path containing the devcontainer config
        /// (defaults to current directory)
        path: Option<String>,
    },
    /// Graft into an already-running container.
    Exec {
        /// Container name or ID
        container: String,
    },
    /// Internal: port-forwarding daemon spawned by `graft up`.
    Forward {
        container: String,
        /// Forwards as serialized by `PortForward::encode`
        port: Vec<String>,
    },
}

/// The session name for a container that is entered by its name.
pub fn exec_session(container: &str) -> (r: String)
    ensures
        r@ == "graft-"@ + container@,
{
    cat("graft-", container)
}

/// The forwards that texts denote; texts that denote none are left out.
pub open spec fn forwards_spec(ports: Seq<Seq<char>>) -> Seq<forward::PortForwardView>
    decreases ports.len(),
{
    if ports.len() == 0 {
        seq![]
    } else {
        let rest = forwards_spec(ports.drop_last());
        match forward::PortForwardView::decode(ports.last()) {
            Some(f) => rest.push(f),
            None => rest,
        }
    }
}

/// The forwards that texts denote; texts that denote none are left out.
pub fn forwards(ports: &Vec<String>) -> (r: Vec<PortForward>)
    ensures
        r.deep_view() == forwards_spec(ports.deep_view()),
{
    let mut out: Vec<PortForward> = Vec::new();
    let ghost all = ports.deep_view();
    assert(out.deep_view() =~= forwards_spec(all.take(0)));
    for i in 0..ports.len()
        invariant
            all == ports.deep_view(),
            out.deep_view() == forwards_spec(all.take(i as int)),
    {
        assert(all.take(i + 1).drop_last() =~= all.take(i as int));
        let ghost before = out.deep_view();
        if let Some(f) = PortForward::decode(ports[i].as_str()) {
            out.push(f);
            assert(out.deep_view() =~= before.push(f.deep_view()));
        }
    }
    assert(all.take(all.len() as int) =~= all);
    out
}

/// What a daemon's command line hands over, the daemon gets: serialized
/// forwards come back one for one.
pub proof fn daemon_gets_the_declared_forwards(fs: Seq<forward::PortForwardView>)
    requires
        forall|k: int|
            #![trigger fs[k]]
            0 <= k < fs.len() ==> (fs[k].host matches Some(h) ==> forall|i: int|
                0 <= i < h.len() ==> h[i] != ':'),
    ensures
        forwards_spec(fs.map_values(|f: forward::PortForwardView| f.encode())) == fs,
    decreases fs.len(),
{
    let texts = fs.map_values(|f: forward::PortForwardView| f.encode());
    if fs.len() == 0 {
        assert(texts =~= seq![]);
        assert(fs =~= seq![]);
    } else {
        let init = fs.drop_last();
        assert(texts.drop_last() =~= init.map_values(
            |f: forward::PortForwardView| f.encode(),
        ));
        assert forall|k: int| #![trigger init[k]] 0 <= k < init.len() implies (
        init[k].host matches Some(h) ==> forall|i: int| 0 <= i < h.len() ==> h[i] != ':') by {
            assert(init[k] == fs[k]);
        }
        daemon_gets_the_declared_forwards(init);
        assert(fs[fs.len() - 1] == fs.last());
        forward::encoded_forward_decodes(fs.last());
        assert(init.push(fs.last()) =~= fs);
    }
}

} // verus!
