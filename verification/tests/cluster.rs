use airpcez::cluster::{
    cluster_memory_totals, cluster_totals_checked, version_warnings, ClusterStatus, MemoryTotals, NodeEntry, NodeSnapshot,
};
use airpcez::model::{DeviceKind, DeviceStats, NodeStats, Role};

fn snap(name: &str, ver: Option<&str>, reachable: bool) -> NodeSnapshot {
    let stats = if reachable {
        Some(NodeStats {
            name: name.into(),
            role: Role::Worker,
            ram_total_mib: 1,
            ram_free_mib: 1,
            cpu_logical: 1,
            devices: vec![],
            rpc_endpoint: None,
            binary_version: ver.map(|v| v.into()),
            running: false,
            sampled_at_unix: 0,
        })
    } else {
        None
    };
    NodeSnapshot {
        entry: NodeEntry { name: name.into(), addr: format!("{name}:8675") },
        stats,
        reachable,
        error: None,
    }
}

fn node(name: &str, reachable: bool, ram_t: u64, ram_f: u64, devs: Vec<DeviceStats>) -> NodeSnapshot {
    let stats = if reachable {
        Some(NodeStats {
            name: name.into(),
            role: Role::Worker,
            ram_total_mib: ram_t,
            ram_free_mib: ram_f,
            cpu_logical: 1,
            devices: devs,
            rpc_endpoint: None,
            binary_version: None,
            running: false,
            sampled_at_unix: 0,
        })
    } else {
        None
    };
    NodeSnapshot {
        entry: NodeEntry { name: name.into(), addr: format!("{name}:8675") },
        stats,
        reachable,
        error: None,
    }
}

fn dev(kind: DeviceKind, vt: u64, vf: u64, reliable: bool) -> DeviceStats {
    DeviceStats { name: "d".into(), kind, vram_total_mib: vt, vram_free_mib: vf, reliable }
}

#[test]
fn version_warnings_flags_mismatches_only() {
    let nodes = vec![
        snap("a", Some("b9789"), true),
        snap("b", Some("b9000"), true),
        snap("c", None, true),
        snap("d", Some("b9000"), false),
    ];
    let w = version_warnings(Some("b9789"), &nodes);
    assert_eq!(w.len(), 1);
    assert!(w[0].contains("b") && w[0].contains("b9000") && w[0].contains("b9789"));
}

#[test]
fn totals_dedup_unified_skip_unreliable_and_unreachable() {
    let cs = ClusterStatus {
        nodes: vec![
            node("apple", true, 16384, 8000, vec![dev(DeviceKind::Metal, 12288, 6000, true)]),
            node("nvidia", true, 32000, 20000, vec![dev(DeviceKind::Cuda, 8192, 7000, true)]),
            node("bad-vram", true, 16000, 4000, vec![dev(DeviceKind::Cuda, 8192, 9_999_999, false)]),
            node("offline", false, 99999, 99999, vec![]),
        ],
        warnings: vec![],
    };
    let t = cluster_memory_totals(&cs);
    assert_eq!(t.ram_total_mib, 16384 + 32000 + 16000);
    assert_eq!(t.ram_free_mib, 8000 + 20000 + 4000);
    assert_eq!(t.vram_total_mib, 12288 + 8192);
    assert_eq!(t.vram_free_mib, 6000 + 7000);
    assert_eq!(t.pool_total_mib, (16384 + 32000 + 16000) + 8192);
    assert_eq!(t.pool_free_mib, (8000 + 20000 + 4000) + 7000);
}

#[test]
fn totals_empty_cluster_is_zero() {
    let cs = ClusterStatus { nodes: vec![], warnings: vec![] };
    assert_eq!(cluster_memory_totals(&cs), MemoryTotals::default());
}

#[test]
fn version_warnings_none_without_host_version() {
    let nodes = vec![snap("b", Some("b9000"), true)];
    assert!(version_warnings(None, &nodes).is_empty());
}

#[test]
fn version_warnings_one_per_mismatching_node() {
    let nodes = vec![
        snap("x", Some("b1"), true),
        snap("y", Some("b2"), true),
        snap("z", Some("b3"), true),
    ];
    let w = version_warnings(Some("b2"), &nodes);
    assert_eq!(w.len(), 2);
    assert!(w[0].contains("b1") && w[1].contains("b3"));
}

#[test]
fn totals_cpu_device_is_not_vram() {
    let cs = ClusterStatus {
        nodes: vec![node("cpu", true, 1000, 500, vec![dev(DeviceKind::Cpu, 4000, 3000, true)])],
        warnings: vec![],
    };
    let t = cluster_memory_totals(&cs);
    assert_eq!(t.vram_total_mib, 0);
    assert_eq!(t.pool_total_mib, 1000);
    assert_eq!(t.pool_free_mib, 500);
}

#[test]
fn totals_other_kind_vram_counts_as_discrete() {
    let cs = ClusterStatus {
        nodes: vec![node("amd", true, 1000, 500, vec![dev(DeviceKind::Other, 4000, 3000, true)])],
        warnings: vec![],
    };
    let t = cluster_memory_totals(&cs);
    assert_eq!(t.vram_total_mib, 4000);
    assert_eq!(t.pool_total_mib, 5000);
    assert_eq!(t.pool_free_mib, 3500);
}

#[test]
fn checked_totals_match_or_refuse_overflow() {
    let cs = ClusterStatus {
        nodes: vec![
            node("apple", true, 16384, 8000, vec![dev(DeviceKind::Metal, 12288, 6000, true)]),
            node("nvidia", true, 32000, 20000, vec![dev(DeviceKind::Cuda, 8192, 7000, true)]),
        ],
        warnings: vec![],
    };
    assert_eq!(cluster_totals_checked(&cs), Some(cluster_memory_totals(&cs)));
    let huge = ClusterStatus {
        nodes: vec![
            node("a", true, u64::MAX, 1, vec![]),
            node("b", true, 1, 1, vec![dev(DeviceKind::Cuda, 8192, 7000, true)]),
        ],
        warnings: vec![],
    };
    assert_eq!(cluster_totals_checked(&huge), None);
    let two_gpus = ClusterStatus {
        nodes: vec![node("g", true, 1, 1, vec![dev(DeviceKind::Metal, u64::MAX, 1, true), dev(DeviceKind::Metal, 1, 1, true)])],
        warnings: vec![],
    };
    assert_eq!(cluster_totals_checked(&two_gpus), None);
}
