use airpcez::flags::{llama_server_spec, rpc_server_spec, CpuMoe, LlamaServerOpts, ModelRef};

fn opts<'a>(
    binary: &'a str,
    model: &'a ModelRef,
    eps: &'a [String],
    cpu_moe: &'a CpuMoe,
) -> LlamaServerOpts<'a> {
    LlamaServerOpts {
        binary,
        model,
        rpc_endpoints: eps,
        ngl: None,
        tensor_split: None,
        main_gpu: None,
        device: None,
        cpu_moe,
        ctx: None,
        no_mmap: false,
        flash_attn: None,
        threads: None,
        threads_batch: None,
        cache_type_k: None,
        cache_type_v: None,
        host: "0.0.0.0",
        port: 8080,
    }
}

#[test]
fn builds_rpc_server_argv_with_device_pin() {
    let spec = rpc_server_spec("/opt/llama/rpc-server", "0.0.0.0", 50052, Some("MTL0"));
    assert_eq!(spec.program, "/opt/llama/rpc-server");
    assert_eq!(spec.args, vec!["-H", "0.0.0.0", "-p", "50052", "-d", "MTL0"]);
}

#[test]
fn omits_device_flag_when_none() {
    let spec = rpc_server_spec("rpc-server", "0.0.0.0", 50052, None);
    assert_eq!(spec.args, vec!["-H", "0.0.0.0", "-p", "50052"]);
}

#[test]
fn builds_moe_solo_argv() {
    let model = ModelRef::Hf("unsloth/Qwen3.6-35B-A3B-GGUF:Q4_K_M".into());
    let mut o = opts("/llama/llama-server", &model, &[], &CpuMoe::All);
    o.ngl = Some(99);
    o.ctx = Some(8192);
    let spec = llama_server_spec(&o);
    assert_eq!(spec.program, "/llama/llama-server");
    assert_eq!(
        spec.args,
        vec![
            "-hf",
            "unsloth/Qwen3.6-35B-A3B-GGUF:Q4_K_M",
            "-ngl",
            "99",
            "--cpu-moe",
            "-c",
            "8192",
            "--host",
            "0.0.0.0",
            "--port",
            "8080",
        ]
    );
}

#[test]
fn builds_cluster_dense_argv() {
    let model = ModelRef::Local("/mnt/ssd/m.gguf".into());
    let eps = vec!["192.168.0.125:50052".to_string(), "192.168.0.83:50052".to_string()];
    let mut o = opts("llama-server", &model, &eps, &CpuMoe::Off);
    o.ngl = Some(40);
    o.tensor_split = Some("0,12,11");
    o.main_gpu = Some(1);
    o.device = Some("RPC0,RPC1");
    o.ctx = Some(4096);
    let spec = llama_server_spec(&o);
    assert_eq!(
        spec.args,
        vec![
            "-m",
            "/mnt/ssd/m.gguf",
            "--rpc",
            "192.168.0.125:50052,192.168.0.83:50052",
            "-ngl",
            "40",
            "--tensor-split",
            "0,12,11",
            "--main-gpu",
            "1",
            "--device",
            "RPC0,RPC1",
            "-c",
            "4096",
            "--host",
            "0.0.0.0",
            "--port",
            "8080",
        ]
    );
}

#[test]
fn builds_n_cpu_moe_argv() {
    let model = ModelRef::Hf("repo:Q4_K_M".into());
    let mut o = opts("llama-server", &model, &[], &CpuMoe::NLayers(32));
    o.ngl = Some(99);
    o.host = "127.0.0.1";
    let spec = llama_server_spec(&o);
    assert_eq!(
        spec.args,
        vec!["-hf", "repo:Q4_K_M", "-ngl", "99", "--n-cpu-moe", "32", "--host", "127.0.0.1", "--port", "8080"]
    );
}

#[test]
fn perf_flags_follow_context_in_order() {
    let model = ModelRef::Local("/m.gguf".into());
    let mut o = opts("llama-server", &model, &[], &CpuMoe::Off);
    o.ctx = Some(2048);
    o.no_mmap = true;
    o.flash_attn = Some("on");
    o.threads = Some(8);
    o.threads_batch = Some(4);
    o.cache_type_k = Some("q8_0");
    o.cache_type_v = Some("q4_0");
    o.port = 9090;
    let spec = llama_server_spec(&o);
    assert_eq!(
        spec.args,
        vec![
            "-m", "/m.gguf", "-c", "2048", "--no-mmap", "-fa", "on", "--threads", "8",
            "--threads-batch", "4", "--cache-type-k", "q8_0", "--cache-type-v", "q4_0", "--host",
            "0.0.0.0", "--port", "9090",
        ]
    );
}

#[test]
fn single_rpc_endpoint_is_not_joined() {
    let model = ModelRef::Hf("r".into());
    let eps = vec!["10.0.0.1:50052".to_string()];
    let o = opts("llama-server", &model, &eps, &CpuMoe::Off);
    let spec = llama_server_spec(&o);
    assert_eq!(spec.args, vec!["-hf", "r", "--rpc", "10.0.0.1:50052", "--host", "0.0.0.0", "--port", "8080"]);
}
