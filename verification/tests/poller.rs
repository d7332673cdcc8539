use airpcez::cluster::NodeEntry;
use airpcez::model::{NodeStats, Role};
use airpcez::poller::{rewrite_rpc_endpoint, snapshot_from_poll, PollResult};

fn stats(ep: Option<&str>) -> NodeStats {
    NodeStats {
        name: "w".into(),
        role: Role::Worker,
        ram_total_mib: 8,
        ram_free_mib: 4,
        cpu_logical: 2,
        devices: vec![],
        rpc_endpoint: ep.map(|e| e.into()),
        binary_version: None,
        running: true,
        sampled_at_unix: 9,
    }
}

#[test]
fn endpoint_host_becomes_the_polled_address() {
    assert_eq!(rewrite_rpc_endpoint("192.168.0.24:8675", "0.0.0.0:50052"), Some("192.168.0.24:50052".to_string()));
    assert_eq!(rewrite_rpc_endpoint("no-port", "0.0.0.0:50052"), None);
    assert_eq!(rewrite_rpc_endpoint("h:1", "bare"), None);
}

#[test]
fn snapshots_for_each_poll_result() {
    let node = NodeEntry { name: "w".into(), addr: "10.0.0.5:8675".into() };
    let s = snapshot_from_poll(&node, PollResult::Stats(stats(Some("0.0.0.0:50052"))));
    assert!(s.reachable && s.error.is_none());
    assert_eq!(s.stats.as_ref().unwrap().rpc_endpoint.as_deref(), Some("10.0.0.5:50052"));
    assert_eq!(s.entry, node);
    let kept = snapshot_from_poll(&NodeEntry { name: "x".into(), addr: "noport".into() }, PollResult::Stats(stats(Some("0.0.0.0:50052"))));
    assert_eq!(kept.stats.unwrap().rpc_endpoint.as_deref(), Some("0.0.0.0:50052"));
    let bad = snapshot_from_poll(&node, PollResult::BadPayload("bad json".into()));
    assert!(bad.reachable && bad.stats.is_none());
    assert_eq!(bad.error.as_deref(), Some("bad json"));
    let down = snapshot_from_poll(&node, PollResult::Unreachable("refused".into()));
    assert!(!down.reachable && down.stats.is_none());
    assert_eq!(down.error.as_deref(), Some("refused"));
}
