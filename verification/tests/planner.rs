use airpcez::cluster::{ClusterStatus, NodeEntry, NodeSnapshot};
use airpcez::model::{DeviceKind, DeviceStats, NodeStats, Role};
use airpcez::planner::{kv_mib, plan_in_range_check, ratio_string, suggest_plan, Fit, ModelMeta};

fn node(name: &str, ram_free: u64, devices: Vec<DeviceStats>) -> NodeSnapshot {
    NodeSnapshot {
        entry: NodeEntry { name: name.into(), addr: format!("{name}:8675") },
        stats: Some(NodeStats {
            name: name.into(),
            role: Role::Worker,
            ram_total_mib: ram_free + 4000,
            ram_free_mib: ram_free,
            cpu_logical: 8,
            devices,
            rpc_endpoint: None,
            binary_version: Some("b9789".into()),
            running: false,
            sampled_at_unix: 0,
        }),
        reachable: true,
        error: None,
    }
}

fn gpu(name: &str, kind: DeviceKind, total: u64, free: u64, reliable: bool) -> DeviceStats {
    DeviceStats { name: name.into(), kind, vram_total_mib: total, vram_free_mib: free, reliable }
}

fn host(name: &str, ram_free: u64, devices: Vec<DeviceStats>) -> NodeSnapshot {
    let mut s = node(name, ram_free, devices);
    if let Some(st) = s.stats.as_mut() {
        st.role = Role::Host;
    }
    s
}

fn cpu_worker(name: &str, ram_free: u64, ep: &str) -> NodeSnapshot {
    let mut s = node(name, ram_free, vec![]);
    if let Some(st) = s.stats.as_mut() {
        st.rpc_endpoint = Some(ep.into());
    }
    s
}

#[test]
fn plan_fits_small_model_on_one_gpu() {
    let cluster = ClusterStatus {
        nodes: vec![node("mac", 8000, vec![gpu("MTL0", DeviceKind::Metal, 12000, 11000, true)])],
        warnings: vec![],
    };
    let meta = ModelMeta { total_mib: 6000, n_layers: 32, is_moe: false };
    let p = suggest_plan(&cluster, &meta, 4096);
    assert_eq!(p.fit.fit, Fit::Fits);
    assert_eq!(p.ngl, 32);
    assert!(p.exclude_notes.is_empty());
}

#[test]
fn plan_excludes_bogus_vram_and_sizes_to_real_free_70b() {
    let cluster = ClusterStatus {
        nodes: vec![
            node("linux-2080", 28000, vec![gpu("Vulkan0", DeviceKind::Cuda, 8438, 17_592_186_044_362, false)]),
            node("m2", 13000, vec![gpu("MTL0", DeviceKind::Metal, 12000, 12000, true)]),
            node("m1", 13000, vec![gpu("MTL0", DeviceKind::Metal, 11000, 10900, true)]),
        ],
        warnings: vec![],
    };
    let meta = ModelMeta { total_mib: 42_000, n_layers: 80, is_moe: false };
    let p = suggest_plan(&cluster, &meta, 4096);
    assert_eq!(p.exclude_notes.len(), 1);
    assert!(p.exclude_notes[0].contains("Vulkan0"));
    assert!(p.gpu_pool_mib > 18_000 && p.gpu_pool_mib < 22_000);
    assert!(p.ngl > 25 && p.ngl < 50);
    assert_eq!(p.tensor_split.as_deref().unwrap().split(',').count(), 2);
    assert!(matches!(p.fit.fit, Fit::Fits | Fit::Tight));
}

#[test]
fn kv_scales_with_layers_and_ctx() {
    assert_eq!(kv_mib(0, 8192), 0);
    let a = kv_mib(80, 4096);
    let b = kv_mib(80, 8192);
    let c = kv_mib(40, 8192);
    assert!(a > 0 && b > a && b > c);
}

#[test]
fn ratio_reduces_to_small_ints() {
    assert_eq!(ratio_string(&[7300, 11200, 10900]).as_deref(), Some("7,11,11"));
    assert_eq!(ratio_string(&[8000]).as_deref(), Some("8"));
    assert_eq!(ratio_string(&[]), None);
    assert_eq!(ratio_string(&[0, 0]), None);
}

#[test]
fn moe_partial_cpu_offload_when_gpu_short() {
    let cluster = ClusterStatus {
        nodes: vec![node("box", 40000, vec![gpu("CUDA0", DeviceKind::Cuda, 8192, 8000, true)])],
        warnings: vec![],
    };
    let meta = ModelMeta { total_mib: 21000, n_layers: 48, is_moe: true };
    let p = suggest_plan(&cluster, &meta, 8192);
    assert_eq!(p.ngl, 48, "MoE keeps every layer's attention on GPU (-ngl = n_layers)");
    let n: u32 = p
        .cpu_moe
        .as_deref()
        .expect("cpu_moe set for MoE")
        .parse()
        .expect("cpu_moe is a partial layer count, not all/off");
    assert!(n > 0 && n < 48, "partial offload expected, got {n}");
    assert!(n >= 20, "GPU holds little here, so most expert layers offload: {n}");
    assert!(p.no_mmap, "--no-mmap recommended when experts live on CPU");
}

#[test]
fn moe_no_offload_when_gpu_roomy() {
    let cluster = ClusterStatus {
        nodes: vec![node("box", 40000, vec![gpu("CUDA0", DeviceKind::Cuda, 30000, 28000, true)])],
        warnings: vec![],
    };
    let meta = ModelMeta { total_mib: 21000, n_layers: 48, is_moe: true };
    let p = suggest_plan(&cluster, &meta, 8192);
    assert_eq!(p.cpu_moe.as_deref(), Some("off"));
    assert!(!p.no_mmap);
    assert_eq!(p.ngl, 48);
}

#[test]
fn moe_offloads_when_gpu_margin_thin() {
    let cluster = ClusterStatus {
        nodes: vec![node("box", 40000, vec![gpu("CUDA0", DeviceKind::Cuda, 24576, 22500, true)])],
        warnings: vec![],
    };
    let meta = ModelMeta { total_mib: 21000, n_layers: 48, is_moe: true };
    let p = suggest_plan(&cluster, &meta, 8192);
    assert_eq!(p.ngl, 48);
    let n: u32 = p
        .cpu_moe
        .as_deref()
        .expect("cpu_moe set")
        .parse()
        .expect("thin GPU margin must offload a partial --n-cpu-moe, not 'off'");
    assert!(n > 0 && n < 48, "expected a small partial offload, got {n}");
    assert!(p.no_mmap, "--no-mmap recommended when experts live on CPU");
}

#[test]
fn dense_offloads_layers_when_gpu_margin_thin() {
    let cluster = ClusterStatus {
        nodes: vec![node("box", 40000, vec![gpu("CUDA0", DeviceKind::Cuda, 24576, 22500, true)])],
        warnings: vec![],
    };
    let meta = ModelMeta { total_mib: 21000, n_layers: 48, is_moe: false };
    let p = suggest_plan(&cluster, &meta, 8192);
    assert!(p.cpu_moe.is_none(), "dense models use -ngl only, not --cpu-moe");
    assert!(p.ngl > 0 && p.ngl < 48, "thin GPU margin must keep layers on CPU, got ngl={}", p.ngl);
}

#[test]
fn recommends_flash_attn_and_roomiest_host() {
    let cluster = ClusterStatus {
        nodes: vec![
            node("small-mac", 16000, vec![gpu("MTL0", DeviceKind::Metal, 12000, 10000, true)]),
            host("big-box", 64000, vec![gpu("CUDA0", DeviceKind::Cuda, 8192, 8000, true)]),
        ],
        warnings: vec![],
    };
    let meta = ModelMeta { total_mib: 21000, n_layers: 48, is_moe: true };
    let p = suggest_plan(&cluster, &meta, 8192);
    assert_eq!(p.flash_attn.as_deref(), Some("on"));
    let hint = p.host_hint.expect("host hint present");
    assert!(hint.contains("big-box"), "should recommend the highest-RAM node: {hint}");
}

#[test]
fn host_hint_prefers_gpu_host_never_cpu_only_node() {
    let cluster = ClusterStatus {
        nodes: vec![
            host("gpu-host", 30000, vec![gpu("CUDA0", DeviceKind::Cuda, 8192, 7500, true)]),
            cpu_worker("cpu-box", 31000, "192.168.0.111:50052"),
        ],
        warnings: vec![],
    };
    let meta = ModelMeta { total_mib: 6000, n_layers: 32, is_moe: false };
    let p = suggest_plan(&cluster, &meta, 4096);
    let hint = p.host_hint.expect("host hint present");
    assert!(hint.contains("gpu-host"), "must recommend the GPU host: {hint}");
    assert!(!hint.contains("cpu-box"), "must never recommend the CPU-only node: {hint}");
}

#[test]
fn cpu_only_node_excluded_from_primary_pool() {
    let cluster = ClusterStatus {
        nodes: vec![
            host("gpu-host", 20000, vec![gpu("CUDA0", DeviceKind::Cuda, 8192, 8000, true)]),
            cpu_worker("cpu-box", 31000, "192.168.0.111:50052"),
        ],
        warnings: vec![],
    };
    let meta = ModelMeta { total_mib: 6000, n_layers: 32, is_moe: false };
    let p = suggest_plan(&cluster, &meta, 4096);
    assert_eq!(p.fit.fit, Fit::Fits);
    assert_eq!(p.cpu_pool_mib, 20000 - 2048, "cpu_pool_mib is the host's CPU only");
    assert_eq!(p.remote_cpu_pool_mib, 31000 - 2048, "CPU node tracked as a separate tier");
    assert!(p.rpc_cpu_nodes.is_empty(), "CPU node not engaged when model fits GPU+host");
}

#[test]
fn tier3_engages_only_on_overflow_and_wires_cpu_node() {
    let cluster = ClusterStatus {
        nodes: vec![
            host("gpu-host", 10000, vec![gpu("CUDA0", DeviceKind::Cuda, 8192, 8000, true)]),
            cpu_worker("cpu-box", 33000, "192.168.0.111:50052"),
        ],
        warnings: vec![],
    };
    let meta = ModelMeta { total_mib: 20000, n_layers: 40, is_moe: false };
    let p = suggest_plan(&cluster, &meta, 4096);
    assert_eq!(p.fit.fit, Fit::Tight);
    assert!(p.fit.detail.contains("RPC"), "verdict names the RPC CPU spillover: {}", p.fit.detail);
    assert_eq!(p.rpc_cpu_nodes, vec!["192.168.0.111:50052".to_string()]);
}

#[test]
fn tier3_dense_appends_remote_share_and_raises_ngl() {
    let cluster = ClusterStatus {
        nodes: vec![
            host("gpu-host", 10000, vec![gpu("CUDA0", DeviceKind::Cuda, 8192, 8000, true)]),
            cpu_worker("cpu-box", 33000, "192.168.0.111:50052"),
        ],
        warnings: vec![],
    };
    let meta = ModelMeta { total_mib: 20000, n_layers: 40, is_moe: false };
    let p = suggest_plan(&cluster, &meta, 4096);
    assert_eq!(p.tensor_split.as_deref().unwrap().split(',').count(), 2);
    assert_eq!(p.rpc_cpu_nodes, vec!["192.168.0.111:50052".to_string()]);
    assert!(p.no_mmap, "offloaded weights -> --no-mmap");
    let gpu_only_ngl = ((8000u64 - 1024) * 10 / 11 / (20000 / 40)) as u32;
    assert!(p.ngl > gpu_only_ngl && p.ngl <= 40, "ngl={} gpu_only={}", p.ngl, gpu_only_ngl);
}

#[test]
fn tier3_moe_does_not_autoroute() {
    let cluster = ClusterStatus {
        nodes: vec![
            host("gpu-host", 10000, vec![gpu("CUDA0", DeviceKind::Cuda, 8192, 8000, true)]),
            cpu_worker("cpu-box", 33000, "192.168.0.111:50052"),
        ],
        warnings: vec![],
    };
    let meta = ModelMeta { total_mib: 20000, n_layers: 40, is_moe: true };
    let p = suggest_plan(&cluster, &meta, 4096);
    assert!(p.rpc_cpu_nodes.is_empty(), "MoE overflow is reported, not auto-wired");
    assert_eq!(p.tensor_split.as_deref().unwrap().split(',').count(), 1, "no appended CPU share for MoE");
}

#[test]
fn wont_fit_beyond_all_three_tiers() {
    let cluster = ClusterStatus {
        nodes: vec![
            host("gpu-host", 10000, vec![gpu("CUDA0", DeviceKind::Cuda, 8192, 8000, true)]),
            cpu_worker("cpu-box", 12000, "192.168.0.111:50052"),
        ],
        warnings: vec![],
    };
    let meta = ModelMeta { total_mib: 90000, n_layers: 80, is_moe: false };
    let p = suggest_plan(&cluster, &meta, 4096);
    assert_eq!(p.fit.fit, Fit::WontFit);
    assert!(p.rpc_cpu_nodes.is_empty(), "no wiring when even CPU nodes can't make it fit");
}

#[test]
fn kv_mib_exact_values() {
    assert_eq!(kv_mib(80, 4096), 40);
    assert_eq!(kv_mib(80, 8192), 80);
    assert_eq!(kv_mib(1, 8191), 0);
}

#[test]
fn empty_cluster_plans_nothing_on_gpu() {
    let cluster = ClusterStatus { nodes: vec![], warnings: vec![] };
    let meta = ModelMeta { total_mib: 6000, n_layers: 32, is_moe: false };
    let p = suggest_plan(&cluster, &meta, 4096);
    assert_eq!(p.gpu_pool_mib, 0);
    assert_eq!(p.cpu_pool_mib, 0);
    assert_eq!(p.fit.fit, Fit::WontFit);
    assert!(p.host_hint.is_none());
}

#[test]
fn unreachable_node_adds_nothing() {
    let mut off = node("off", 64000, vec![gpu("CUDA0", DeviceKind::Cuda, 24000, 23000, true)]);
    off.reachable = false;
    let cluster = ClusterStatus { nodes: vec![off], warnings: vec![] };
    let meta = ModelMeta { total_mib: 6000, n_layers: 32, is_moe: false };
    let p = suggest_plan(&cluster, &meta, 4096);
    assert_eq!(p.gpu_pool_mib, 0);
    assert!(p.exclude_notes.is_empty());
}

#[test]
fn plan_range_check_accepts_ordinary_and_refuses_overflow() {
    let ok = ClusterStatus {
        nodes: vec![node("box", 40000, vec![gpu("CUDA0", DeviceKind::Cuda, 24576, 22500, true)])],
        warnings: vec![],
    };
    let meta = ModelMeta { total_mib: 21000, n_layers: 48, is_moe: false };
    assert!(plan_in_range_check(&ok, &meta, 8192));
    let huge = ClusterStatus {
        nodes: vec![
            node("a", 1, vec![gpu("G0", DeviceKind::Cuda, u64::MAX, u64::MAX - 1, true)]),
            node("b", 1, vec![gpu("G1", DeviceKind::Cuda, u64::MAX, u64::MAX - 1, true)]),
        ],
        warnings: vec![],
    };
    assert!(!plan_in_range_check(&huge, &meta, 8192));
    let big_model = ModelMeta { total_mib: u64::MAX, n_layers: 1, is_moe: true };
    assert!(!plan_in_range_check(&ok, &big_model, 8192));
}

#[test]
fn ratio_pieces_one_per_part() {
    let r = ratio_string(&[7300, 0, 511, 512, 1536]).unwrap();
    let pieces: Vec<&str> = r.split(',').collect();
    assert_eq!(pieces, vec!["7", "1", "1", "1", "2"]);
}
