use airpcez::model::{DeviceKind, NodeStats, Role};
use airpcez::stats::{local_sample, metal_device, page_size_from, MockStatsProvider, StatsProvider};

#[test]
fn mock_provider_returns_its_stats() {
    let stats = NodeStats {
        name: "n".into(),
        role: Role::Worker,
        ram_total_mib: 8,
        ram_free_mib: 4,
        cpu_logical: 4,
        devices: vec![],
        rpc_endpoint: None,
        binary_version: None,
        running: false,
        sampled_at_unix: 0,
    };
    let p = MockStatsProvider { stats: stats.clone() };
    assert_eq!(p.sample(), stats);
}

#[test]
fn local_sample_converts_bytes_to_mib() {
    let s = local_sample("box".into(), Role::Host, 17_179_869_184 + 1_048_575, 1_048_576, Some(9000), 12, vec![], 42);
    assert_eq!(s.ram_total_mib, 16384);
    assert_eq!(s.ram_free_mib, 9000);
    let t = local_sample("box".into(), Role::Worker, 0, 3 * 1_048_576 + 5, None, 1, vec![], 0);
    assert_eq!(t.ram_free_mib, 3);
    assert_eq!(s.cpu_logical, 12);
    assert_eq!(s.role, Role::Host);
    assert_eq!(s.sampled_at_unix, 42);
    assert!(s.rpc_endpoint.is_none() && s.binary_version.is_none() && !s.running);
}

#[test]
fn metal_device_caps_free_at_total() {
    let d = metal_device(12288, 20000);
    assert_eq!(d.name, "MTL0");
    assert_eq!(d.kind, DeviceKind::Metal);
    assert_eq!(d.vram_free_mib, 12288);
    assert!(d.reliable);
    let e = metal_device(12288, 5000);
    assert_eq!(e.vram_free_mib, 5000);
    let z = metal_device(0, 5000);
    assert_eq!(z.vram_free_mib, 0);
    assert!(!z.reliable);
}

#[test]
fn page_size_parses_or_defaults() {
    assert_eq!(page_size_from(Some("4096\n")), 4096);
    assert_eq!(page_size_from(Some("garbage")), 16384);
    assert_eq!(page_size_from(None), 16384);
}
