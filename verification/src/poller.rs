//! Turning the answer of a node's `/stats` endpoint into a cluster snapshot.
use vstd::prelude::*;
use crate::cluster::{NodeEntry, NodeSnapshot};
use crate::model::NodeStats;
use crate::text::{chars_of, rsplit_once, rsplit_once_chars, push_char, string_of};

verus! {

/// What polling one node produced.
pub enum PollResult {
    /// The node answered with its stats.
    Stats(NodeStats),
    /// The node answered, but not with stats; the error text.
    BadPayload(String),
    /// The node could not be reached; the error text.
    Unreachable(String),
}

/// The node's rpc-server endpoint as seen from the host: the host part of the node's
/// address with the port the node reported.
pub open spec fn rewritten_endpoint(addr: Seq<char>, ep: Seq<char>) -> Option<Seq<char>> {
    match (rsplit_once(addr, ':'), rsplit_once(ep, ':')) {
        (Some((host, _)), Some((_, port))) => Some(host + ":"@ + port),
        _ => None,
    }
}

/// Rewrites the host of an rpc endpoint to the address the node was polled at.
pub fn rewrite_rpc_endpoint(addr: &str, ep: &str) -> (r: Option<String>)
    ensures
        crate::cluster::opt_string_view(r) == rewritten_endpoint(addr@, ep@),
{
    let a = chars_of(addr);
    let e = chars_of(ep);
    match (rsplit_once_chars(&a, ':'), rsplit_once_chars(&e, ':')) {
        (Some((host, _)), Some((_, port))) => {
            let mut s = string_of(&host);
            s.append(":");
            s.append(string_of(&port).as_str());
            Some(s)
        },
        _ => None,
    }
}

/// The endpoint a snapshot carries for reported stats.
pub open spec fn snapshot_endpoint(addr: Seq<char>, reported: Option<String>) -> Option<Seq<char>> {
    match reported {
        Some(ep) => match rewritten_endpoint(addr, ep@) {
            Some(r) => Some(r),
            None => Some(ep@),
        },
        None => None,
    }
}

/// The snapshot of one polled node. Reported stats make the node reachable, with its rpc
/// endpoint pointed at the polled address; a bad answer is reachable with an error; no
/// answer is unreachable with an error.
pub fn snapshot_from_poll(node: &NodeEntry, result: PollResult) -> (s: NodeSnapshot)
    ensures
        s.entry == *node,
        match result {
            PollResult::Stats(st) => {
                &&& s.reachable
                &&& s.error is None
                &&& s.stats matches Some(got) && {
                    &&& crate::cluster::opt_string_view(got.rpc_endpoint) == snapshot_endpoint(
                        node.addr@,
                        st.rpc_endpoint,
                    )
                    &&& got.name == st.name && got.role == st.role
                    &&& got.ram_total_mib == st.ram_total_mib && got.ram_free_mib == st.ram_free_mib
                    &&& got.cpu_logical == st.cpu_logical && got.devices == st.devices
                    &&& got.binary_version == st.binary_version && got.running == st.running
                    &&& got.sampled_at_unix == st.sampled_at_unix
                }
            },
            PollResult::BadPayload(e) => s.reachable && s.stats is None && s.error == Some(e),
            PollResult::Unreachable(e) => !s.reachable && s.stats is None && s.error == Some(e),
        },
{
    match result {
        PollResult::Stats(mut stats) => {
            let rewritten = match &stats.rpc_endpoint {
                Some(ep) => rewrite_rpc_endpoint(node.addr.as_str(), ep.as_str()),
                None => None,
            };
            if let Some(r) = rewritten {
                stats.rpc_endpoint = Some(r);
            }
            NodeSnapshot { entry: node.clone(), stats: Some(stats), reachable: true, error: None }
        },
        PollResult::BadPayload(e) => NodeSnapshot {
            entry: node.clone(),
            stats: None,
            reachable: true,
            error: Some(e),
        },
        PollResult::Unreachable(e) => NodeSnapshot {
            entry: node.clone(),
            stats: None,
            reachable: false,
            error: Some(e),
        },
    }
}

} // verus!
