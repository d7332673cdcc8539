use airpcez::cluster::{ClusterStatus, NodeEntry, NodeSnapshot};
use airpcez::config::Config;
use airpcez::flags::{CpuMoe, ModelRef};
use airpcez::model::{DeviceKind, DeviceStats, NodeStats, Role};
use airpcez::planner::ModelMeta;
use airpcez::profile::Profile;
use airpcez::server::{
    add_node, build_launch_spec, choose_gguf, cluster_with_self, effective_cache_dir, health_report,
    hf_cache_dirname, hf_model_ref, launch_model_choice, launch_request_from_profile, llama_server_binary,
    merge_config, model_path_outcome, normalize_node_addr, openai_url, parse_cpu_moe, pick_gguf,
    plan_for_cluster, prepare_profile, remove_node, resolve_launch_model, rpc_endpoints_of, save_profile, split_hf_ref, worker_autostart_spec,
    worker_start_spec, LaunchRequest, ModelChoice,
};

fn empty_request() -> LaunchRequest {
    LaunchRequest {
        model_hf: None,
        model_path: None,
        ngl: None,
        tensor_split: None,
        main_gpu: None,
        device: None,
        cpu_moe: None,
        ctx: None,
        hf_cache_dir: None,
        no_mmap: None,
        flash_attn: None,
        threads: None,
        threads_batch: None,
        cache_type_k: None,
        cache_type_v: None,
    }
}

fn stats(name: &str, version: Option<&str>, ep: Option<&str>) -> NodeStats {
    NodeStats {
        name: name.into(),
        role: Role::Host,
        ram_total_mib: 16000,
        ram_free_mib: 9000,
        cpu_logical: 8,
        devices: vec![DeviceStats {
            name: "MTL0".into(),
            kind: DeviceKind::Metal,
            vram_total_mib: 12000,
            vram_free_mib: 11000,
            reliable: true,
        }],
        rpc_endpoint: ep.map(|e| e.into()),
        binary_version: version.map(|v| v.into()),
        running: false,
        sampled_at_unix: 0,
    }
}

fn polled(name: &str, version: Option<&str>, ep: Option<&str>) -> NodeSnapshot {
    NodeSnapshot {
        entry: NodeEntry { name: name.into(), addr: format!("{name}:8675") },
        stats: Some(stats(name, version, ep)),
        reachable: true,
        error: None,
    }
}

#[test]
fn pick_gguf_prefers_first_shard_then_sole_file() {
    assert_eq!(pick_gguf(vec!["a.txt".into(), "model.gguf".into()], None).as_deref(), Some("model.gguf"));
    assert_eq!(
        pick_gguf(
            vec![
                "m-00002-of-00003.gguf".into(),
                "m-00001-of-00003.gguf".into(),
                "m-00003-of-00003.gguf".into(),
            ],
            None
        )
        .as_deref(),
        Some("m-00001-of-00003.gguf")
    );
    assert_eq!(pick_gguf(vec!["q4.gguf".into(), "q8.gguf".into()], None), None);
    assert_eq!(pick_gguf(vec!["readme.md".into()], None), None);
}

#[test]
fn pick_gguf_narrows_by_quant() {
    let files = vec!["Qwen3.6-35B-A3B-Q4_K_M.gguf".to_string(), "Qwen3.6-35B-A3B-Q8_0.gguf".to_string()];
    assert_eq!(pick_gguf(files.clone(), None), None);
    assert_eq!(pick_gguf(files, Some("Q4_K_M")).as_deref(), Some("Qwen3.6-35B-A3B-Q4_K_M.gguf"));
}

#[test]
fn hf_repo_maps_to_cache_dirname() {
    assert_eq!(hf_cache_dirname("unsloth/Qwen3.6-35B-A3B-GGUF"), "models--unsloth--Qwen3.6-35B-A3B-GGUF");
}

#[test]
fn normalize_node_addr_appends_default_port() {
    assert_eq!(normalize_node_addr("192.168.0.83"), "192.168.0.83:8675");
    assert_eq!(normalize_node_addr("  192.168.0.83 "), "192.168.0.83:8675");
    assert_eq!(normalize_node_addr("192.168.0.83:9000"), "192.168.0.83:9000");
    assert_eq!(normalize_node_addr("worker.local"), "worker.local:8675");
}

#[test]
fn launch_spec_wires_perf_flags() {
    let req = LaunchRequest {
        model_hf: Some("repo:Q4_K_M".into()),
        model_path: None,
        ngl: Some(99),
        tensor_split: None,
        main_gpu: None,
        device: None,
        cpu_moe: Some("all".into()),
        ctx: Some(8192),
        hf_cache_dir: None,
        no_mmap: Some(true),
        flash_attn: Some("on".into()),
        threads: Some(8),
        threads_batch: Some(4),
        cache_type_k: Some("q8_0".into()),
        cache_type_v: Some("q8_0".into()),
    };
    let model = ModelRef::Hf("repo:Q4_K_M".into());
    let spec = build_launch_spec(&req, &model, "llama-server", 8080, &[]);
    let a = spec.args.join(" ");
    assert!(a.contains("--no-mmap"), "argv: {a}");
    assert!(a.contains("-fa on"), "argv: {a}");
    assert!(a.contains("--threads 8"), "argv: {a}");
    assert!(a.contains("--threads-batch 4"), "argv: {a}");
    assert!(a.contains("--cache-type-k q8_0"), "argv: {a}");
    assert!(a.contains("--cache-type-v q8_0"), "argv: {a}");
}

#[test]
fn profile_maps_to_launch_request() {
    let mut p = Profile { name: "x".into(), model: "unsloth/Q:Q4_K_M".into(), ..Default::default() };
    p.ngl = Some(99);
    p.cpu_moe = Some("16".into());
    p.no_mmap = true;
    p.flash_attn = Some("on".into());
    p.ctx = Some(8192);
    let req = launch_request_from_profile(&p);
    assert_eq!(req.model_hf.as_deref(), Some("unsloth/Q:Q4_K_M"));
    assert!(req.model_path.is_none());
    assert_eq!(req.ngl, Some(99));
    assert_eq!(req.cpu_moe.as_deref(), Some("16"));
    assert_eq!(req.no_mmap, Some(true));
    assert_eq!(req.flash_attn.as_deref(), Some("on"));
    assert_eq!(req.ctx, Some(8192));

    let mut q = Profile { name: "y".into(), model: "/mnt/m.gguf".into(), ..Default::default() };
    q.ctx = Some(4096);
    let r2 = launch_request_from_profile(&q);
    assert!(r2.model_hf.is_none());
    assert_eq!(r2.model_path.as_deref(), Some("/mnt/m.gguf"));
    assert_eq!(r2.ctx, Some(4096));
}

#[test]
fn pick_gguf_compares_in_lowercase() {
    assert_eq!(pick_gguf(vec!["MODEL.GGUF".into(), "notes.txt".into()], None).as_deref(), Some("MODEL.GGUF"));
    let files = vec!["m-q4_k_m.gguf".to_string(), "m-q8_0.gguf".to_string()];
    assert_eq!(pick_gguf(files, Some("Q8_0")).as_deref(), Some("m-q8_0.gguf"));
}

#[test]
fn pick_gguf_unmatched_quant_keeps_all_candidates() {
    let files = vec!["only.gguf".to_string()];
    assert_eq!(pick_gguf(files, Some("Q2_K")).as_deref(), Some("only.gguf"));
}

#[test]
fn choose_gguf_uses_the_given_lowercase_forms() {
    let files = vec![("Weird.BIN".to_string(), "x.gguf".to_string()), ("b.gguf".to_string(), "b.bin".to_string())];
    assert_eq!(choose_gguf(&files, None).as_deref(), Some("Weird.BIN"));
    let shards = vec![
        ("a-00002-of-00002.gguf".to_string(), "a-00002-of-00002.gguf".to_string()),
        ("a-00001-of-00002.gguf".to_string(), "a-00001-of-00002.gguf".to_string()),
    ];
    assert_eq!(choose_gguf(&shards, Some("zzz")).as_deref(), Some("a-00001-of-00002.gguf"));
}

#[test]
fn split_hf_ref_at_last_colon() {
    assert_eq!(split_hf_ref("unsloth/Foo-GGUF:Q4_K_M"), ("unsloth/Foo-GGUF".to_string(), Some("Q4_K_M".to_string())));
    assert_eq!(split_hf_ref("a:b:c"), ("a:b".to_string(), Some("c".to_string())));
    assert_eq!(split_hf_ref("unsloth/Foo-GGUF"), ("unsloth/Foo-GGUF".to_string(), None));
}

#[test]
fn cpu_moe_text_choices() {
    assert!(matches!(parse_cpu_moe(Some("all")), CpuMoe::All));
    assert!(matches!(parse_cpu_moe(Some("off")), CpuMoe::Off));
    assert!(matches!(parse_cpu_moe(None), CpuMoe::Off));
    assert!(matches!(parse_cpu_moe(Some("16")), CpuMoe::NLayers(16)));
    assert!(matches!(parse_cpu_moe(Some("+7")), CpuMoe::NLayers(7)));
    assert!(matches!(parse_cpu_moe(Some("-1")), CpuMoe::Off));
    assert!(matches!(parse_cpu_moe(Some("4294967296")), CpuMoe::Off));
    assert!(matches!(parse_cpu_moe(Some("ALL")), CpuMoe::Off));
}

#[test]
fn launch_spec_full_argv_on_all_interfaces() {
    let mut req = empty_request();
    req.ngl = Some(40);
    req.cpu_moe = Some("12".into());
    req.tensor_split = Some("1,1".into());
    let model = ModelRef::Local("/m.gguf".into());
    let eps = vec!["10.0.0.2:50052".to_string()];
    let spec = build_launch_spec(&req, &model, "/llama/llama-server", 8081, &eps);
    assert_eq!(spec.program, "/llama/llama-server");
    assert_eq!(
        spec.args,
        vec![
            "-m", "/m.gguf", "--rpc", "10.0.0.2:50052", "-ngl", "40", "--tensor-split", "1,1",
            "--n-cpu-moe", "12", "--host", "0.0.0.0", "--port", "8081",
        ]
    );
}

#[test]
fn profile_model_path_detection() {
    for (m, is_path) in [("./rel/m", true), ("/abs", true), ("x.gguf", true), ("org/repo:Q4", false), ("", false)] {
        let p = Profile { name: "n".into(), model: m.into(), ..Default::default() };
        let r = launch_request_from_profile(&p);
        assert_eq!(r.model_path.is_some(), is_path, "{m}");
        assert_eq!(r.model_hf.is_some(), !is_path, "{m}");
    }
}

#[test]
fn launch_model_choice_prefers_hf_then_path() {
    let mut req = empty_request();
    req.model_hf = Some("  org/repo:Q4  ".into());
    req.model_path = Some("/m.gguf".into());
    assert!(matches!(launch_model_choice(&req), Ok(ModelChoice::Hf(h)) if h == "org/repo:Q4"));
    req.model_hf = Some("   ".into());
    assert!(matches!(launch_model_choice(&req), Ok(ModelChoice::Path(p)) if p == "/m.gguf"));
    req.model_path = Some("".into());
    assert!(matches!(launch_model_choice(&req), Err(e) if e == "model_hf or model_path required"));
    req.model_hf = None;
    req.model_path = None;
    assert!(matches!(launch_model_choice(&req), Err(e) if e == "model_hf or model_path required"));
}

#[test]
fn model_path_outcomes() {
    assert_eq!(model_path_outcome("/m.gguf", true, true, None), Ok("/m.gguf".to_string()));
    assert_eq!(model_path_outcome("/nope", false, false, None), Err("model path does not exist: /nope".to_string()));
    assert_eq!(model_path_outcome("/dir", false, true, Some("/dir/a.gguf".into())), Ok("/dir/a.gguf".to_string()));
    assert_eq!(
        model_path_outcome("/dir", false, true, None),
        Err("no single .gguf in /dir — point at the exact .gguf file (none, or several quants)".to_string())
    );
}

#[test]
fn hf_model_ref_prefers_cached_file() {
    assert!(matches!(hf_model_ref("r:Q4".into(), Some("/c/m.gguf".into())), ModelRef::Local(p) if p == "/c/m.gguf"));
    assert!(matches!(hf_model_ref("r:Q4".into(), None), ModelRef::Hf(h) if h == "r:Q4"));
}

#[test]
fn cache_dir_request_overrides_config() {
    assert_eq!(effective_cache_dir(&Some(" /req ".into()), &Some("/cfg".into())), Some("/req".to_string()));
    assert_eq!(effective_cache_dir(&Some("  ".into()), &Some("/cfg".into())), Some("/cfg".to_string()));
    assert_eq!(effective_cache_dir(&None, &None), None);
}

#[test]
fn binary_and_url_formats() {
    assert_eq!(llama_server_binary(&Some("/llama".into())), "/llama/llama-server");
    assert_eq!(llama_server_binary(&None), "llama-server");
    assert_eq!(openai_url(8080), "http://localhost:8080/v1");
}

#[test]
fn endpoints_only_from_nodes_that_report_one() {
    let mut down = polled("down", None, Some("x:1"));
    down.stats = None;
    let nodes = vec![polled("a", None, Some("10.0.0.1:50052")), polled("b", None, None), down, polled("c", None, Some("10.0.0.3:50052"))];
    assert_eq!(rpc_endpoints_of(&nodes), vec!["10.0.0.1:50052".to_string(), "10.0.0.3:50052".to_string()]);
}

#[test]
fn health_verdicts() {
    assert_eq!(health_report(Some(200)), (true, "model ready".to_string()));
    assert_eq!(health_report(Some(503)), (false, "loading model (HTTP 503)".to_string()));
    assert_eq!(health_report(None), (false, "starting — llama-server not responding yet".to_string()));
    assert!(health_report(Some(204)).0);
    assert!(!health_report(Some(302)).0);
}

#[test]
fn worker_start_uses_request_device_then_config_filter() {
    let mut c = Config::defaults_for_host(Some("w".into()));
    let s = worker_start_spec("echo", 50052, Some("CUDA1".into()), &c, true);
    assert_eq!(s.program, "echo");
    assert_eq!(s.args, vec!["-H", "0.0.0.0", "-p", "50052", "-d", "CUDA1"]);
    let t = worker_start_spec("echo", 50052, None, &c, true);
    assert_eq!(t.args, vec!["-H", "0.0.0.0", "-p", "50052", "-d", "MTL0"]);
    let u = worker_start_spec("echo", 50052, None, &c, false);
    assert_eq!(u.args, vec!["-H", "0.0.0.0", "-p", "50052"]);
    c.rpc_device = Some("CUDA0".into());
    let v = worker_start_spec("echo", 50052, None, &c, true);
    assert_eq!(v.args, vec!["-H", "0.0.0.0", "-p", "50052", "-d", "CUDA0"]);
}

#[test]
fn worker_autostart_runs_configured_binary() {
    let mut c = Config::defaults_for_host(Some("w".into()));
    c.llama_dir = Some("/llama/bin/".into());
    c.rpc_port = 50099;
    let s = worker_autostart_spec(&c);
    assert_eq!(s.program, "/llama/bin/rpc-server");
    assert_eq!(s.args, vec!["-H", "0.0.0.0", "-p", "50099"]);
}

#[test]
fn settings_save_keeps_nodes_and_blank_name() {
    let mut current = Config::defaults_for_host(Some("box".into()));
    current.nodes.push(NodeEntry { name: "w".into(), addr: "10.0.0.2:8675".into() });
    let mut submitted = Config::defaults_for_host(Some("  ".into()));
    submitted.llama_port = 9999;
    let (merged, restart) = merge_config(&current, submitted, 8675);
    assert_eq!(merged.llama_port, 9999);
    assert_eq!(merged.node_name, "box");
    assert_eq!(merged.nodes.len(), 1);
    assert!(!restart);
    let mut renamed = Config::defaults_for_host(Some("new".into()));
    renamed.ui_port = 9000;
    let (m2, restart2) = merge_config(&current, renamed, 8675);
    assert_eq!(m2.node_name, "new");
    assert_eq!(m2.nodes[0].addr, "10.0.0.2:8675");
    assert!(restart2);
}

#[test]
fn profile_save_rules() {
    let blank = Profile { name: "   ".into(), ..Default::default() };
    assert_eq!(prepare_profile(blank, 5).err(), Some("profile name required".to_string()));
    let p = Profile { name: "Best Networked".into(), model: "m".into(), ..Default::default() };
    let q = prepare_profile(p, 77).unwrap();
    assert_eq!(q.id, "best-networked");
    assert_eq!(q.updated_at, 77);
    assert_eq!(q.model, "m");
    let keep = Profile { id: "mine".into(), name: "X".into(), ..Default::default() };
    assert_eq!(prepare_profile(keep, 1).unwrap().id, "mine");
}

#[test]
fn node_list_add_and_remove() {
    let mut nodes: Vec<NodeEntry> = Vec::new();
    add_node(&mut nodes, NodeEntry { name: "a".into(), addr: " 192.168.0.9 ".into() });
    assert_eq!(nodes.len(), 1);
    assert_eq!(nodes[0].addr, "192.168.0.9:8675");
    add_node(&mut nodes, NodeEntry { name: "again".into(), addr: "192.168.0.9:8675".into() });
    assert_eq!(nodes.len(), 1);
    assert_eq!(nodes[0].name, "a");
    add_node(&mut nodes, NodeEntry { name: "b".into(), addr: "10.0.0.1:9000".into() });
    assert_eq!(nodes.len(), 2);
    remove_node(&mut nodes, "192.168.0.9");
    assert_eq!(nodes.len(), 1);
    assert_eq!(nodes[0].addr, "10.0.0.1:9000");
    remove_node(&mut nodes, "nowhere");
    assert_eq!(nodes.len(), 1);
}

#[test]
fn removing_the_listed_address_removes_it() {
    let mut nodes: Vec<NodeEntry> = Vec::new();
    add_node(&mut nodes, NodeEntry { name: "a".into(), addr: "worker.local".into() });
    let listed = nodes[0].addr.clone();
    assert_eq!(normalize_node_addr(&listed), listed);
    remove_node(&mut nodes, &listed);
    assert!(nodes.is_empty());
}

#[test]
fn cluster_report_puts_self_first_with_warnings() {
    let polled_status = ClusterStatus {
        nodes: vec![polled("w1", Some("b9000"), None), polled("w2", Some("b9789"), None)],
        warnings: vec![],
    };
    let c = cluster_with_self(stats("host", Some("b9789"), None), polled_status);
    assert_eq!(c.nodes.len(), 3);
    assert_eq!(c.nodes[0].entry.addr, "self");
    assert_eq!(c.nodes[0].entry.name, "host");
    assert!(c.nodes[0].reachable && c.nodes[0].error.is_none());
    assert_eq!(c.nodes[1].entry.name, "w1");
    assert_eq!(c.warnings.len(), 1);
    assert!(c.warnings[0].contains("w1"));
}

#[test]
fn plan_for_cluster_carries_warnings() {
    let c = cluster_with_self(
        stats("host", Some("b9789"), None),
        ClusterStatus { nodes: vec![polled("w1", Some("b1"), None)], warnings: vec![] },
    );
    let meta = ModelMeta { total_mib: 6000, n_layers: 32, is_moe: false };
    let p = plan_for_cluster(c, &meta, 4096).expect("plan");
    assert_eq!(p.warnings.len(), 1);
    assert_eq!(p.flash_attn.as_deref(), Some("on"));
    let big = ModelMeta { total_mib: u64::MAX, n_layers: 1, is_moe: false };
    let c2 = cluster_with_self(stats("host", None, None), ClusterStatus { nodes: vec![], warnings: vec![] });
    assert!(plan_for_cluster(c2, &big, 4096).is_none());
}

#[test]
fn resolving_the_launch_model() {
    let mut req = empty_request();
    req.model_hf = Some(" org/repo:Q4 ".into());
    req.model_path = Some("/m.gguf".into());
    let cached = resolve_launch_model(
        &req,
        Some("/hf".into()),
        |c: String, h: String| if c == "/hf" && h == "org/repo:Q4" { Some("/hf/x.gguf".to_string()) } else { None },
        |_p: String| Err("unused".to_string()),
    );
    assert!(matches!(cached, Ok(ModelRef::Local(x)) if x == "/hf/x.gguf"));
    let download = resolve_launch_model(&req, Some("/hf".into()), |_c: String, _h: String| None, |_p: String| Err("unused".to_string()));
    assert!(matches!(download, Ok(ModelRef::Hf(h)) if h == "org/repo:Q4"));
    let no_cache = resolve_launch_model(&req, None, |_c: String, _h: String| Some("x".to_string()), |_p: String| Err("unused".to_string()));
    assert!(matches!(no_cache, Ok(ModelRef::Hf(h)) if h == "org/repo:Q4"));
    req.model_hf = None;
    req.model_path = Some("  /dir ".into());
    let path = resolve_launch_model(&req, None, |_c: String, _h: String| None, |p: String| Ok(format!("{p}/a.gguf")));
    assert!(matches!(path, Ok(ModelRef::Local(x)) if x == "/dir/a.gguf"));
    let missing = resolve_launch_model(&req, None, |_c: String, _h: String| None, |p: String| Err(format!("model path does not exist: {p}")));
    assert!(matches!(missing, Err(e) if e == "model path does not exist: /dir"));
    req.model_path = None;
    let neither = resolve_launch_model(&req, None, |_c: String, _h: String| None, |_p: String| Err("unused".to_string()));
    assert!(matches!(neither, Err(e) if e == "model_hf or model_path required"));
}

#[test]
fn saving_profiles_into_the_store() {
    let mut store = airpcez::profile::ProfileStore::default();
    let blank = Profile { name: "  ".into(), model: "m".into(), ..Default::default() };
    assert_eq!(save_profile(&mut store, blank, 1), Err("profile name required".to_string()));
    assert!(store.profiles.is_empty());
    let p = Profile { name: "Best Networked".into(), model: "repo:Q4_K_M".into(), ngl: Some(99), ..Default::default() };
    assert_eq!(save_profile(&mut store, p, 5), Ok(()));
    let got = store.get("best-networked").expect("stored under its slug");
    assert_eq!(got.ngl, Some(99));
    assert_eq!(got.updated_at, 5);
    let again = Profile { id: "best-networked".into(), name: "Renamed".into(), ..Default::default() };
    assert_eq!(save_profile(&mut store, again, 6), Ok(()));
    assert_eq!(store.profiles.len(), 1);
    assert_eq!(store.profiles[0].name, "Renamed");
}
