//! Command lines for `llama-server` and `rpc-server`.
use vstd::prelude::*;
use crate::process::ProcSpec;
use crate::cluster::opt_str_view;
use crate::text::{decimal, decimal_string, join, join_strings, owned, string_views};

verus! {

/// Which model `llama-server` loads: a Hugging Face reference or a local file.
pub enum ModelRef {
    Hf(String),
    Local(String),
}

/// Whether MoE expert weights stay on the CPU: none, all, or those of the first N layers.
pub enum CpuMoe {
    Off,
    All,
    NLayers(u32),
}

/// Everything that shapes a `llama-server` command line.
pub struct LlamaServerOpts<'a> {
    pub binary: &'a str,
    pub model: &'a ModelRef,
    pub rpc_endpoints: &'a [String],
    pub ngl: Option<u32>,
    pub tensor_split: Option<&'a str>,
    pub main_gpu: Option<u32>,
    pub device: Option<&'a str>,
    pub cpu_moe: &'a CpuMoe,
    pub ctx: Option<u32>,
    pub no_mmap: bool,
    pub flash_attn: Option<&'a str>,
    pub threads: Option<u32>,
    pub threads_batch: Option<u32>,
    pub cache_type_k: Option<&'a str>,
    pub cache_type_v: Option<&'a str>,
    pub host: &'a str,
    pub port: u16,
}

/// `flag value` when a value is given, nothing otherwise.
pub open spec fn text_flag(flag: Seq<char>, v: Option<Seq<char>>) -> Seq<Seq<char>> {
    match v {
        Some(x) => seq![flag, x],
        None => Seq::empty(),
    }
}

/// `flag number` when a number is given, nothing otherwise.
pub open spec fn number_flag(flag: Seq<char>, v: Option<u32>) -> Seq<Seq<char>> {
    match v {
        Some(n) => seq![flag, decimal(n as nat)],
        None => Seq::empty(),
    }
}

/// `-hf <ref>` or `-m <path>`.
pub open spec fn model_args(m: ModelRef) -> Seq<Seq<char>> {
    match m {
        ModelRef::Hf(v) => seq!["-hf"@, v@],
        ModelRef::Local(p) => seq!["-m"@, p@],
    }
}

/// `--rpc a,b,...` when there are endpoints.
pub open spec fn rpc_args(eps: Seq<Seq<char>>) -> Seq<Seq<char>> {
    if eps.len() == 0 {
        Seq::empty()
    } else {
        seq!["--rpc"@, join(eps, ","@)]
    }
}

/// The MoE offload flags.
pub open spec fn cpu_moe_args(c: CpuMoe) -> Seq<Seq<char>> {
    match c {
        CpuMoe::Off => Seq::empty(),
        CpuMoe::All => seq!["--cpu-moe"@],
        CpuMoe::NLayers(n) => seq!["--n-cpu-moe"@, decimal(n as nat)],
    }
}

/// The `llama-server` argument vector, in order, for options given as plain values.
pub open spec fn llama_args_of(
    model: ModelRef,
    eps: Seq<Seq<char>>,
    ngl: Option<u32>,
    tensor_split: Option<Seq<char>>,
    main_gpu: Option<u32>,
    device: Option<Seq<char>>,
    cpu_moe: CpuMoe,
    ctx: Option<u32>,
    no_mmap: bool,
    flash_attn: Option<Seq<char>>,
    threads: Option<u32>,
    threads_batch: Option<u32>,
    cache_type_k: Option<Seq<char>>,
    cache_type_v: Option<Seq<char>>,
    host: Seq<char>,
    port: u16,
) -> Seq<Seq<char>> {
    model_args(model) + rpc_args(eps) + number_flag("-ngl"@, ngl) + text_flag(
        "--tensor-split"@,
        tensor_split,
    ) + number_flag("--main-gpu"@, main_gpu) + text_flag("--device"@, device) + cpu_moe_args(
        cpu_moe,
    ) + number_flag("-c"@, ctx) + (if no_mmap {
        seq!["--no-mmap"@]
    } else {
        Seq::empty()
    }) + text_flag("-fa"@, flash_attn) + number_flag("--threads"@, threads) + number_flag(
        "--threads-batch"@,
        threads_batch,
    ) + text_flag("--cache-type-k"@, cache_type_k) + text_flag("--cache-type-v"@, cache_type_v)
        + seq!["--host"@, host, "--port"@, decimal(port as nat)]
}

/// The full `llama-server` argument vector, in order.
pub open spec fn llama_server_args(o: LlamaServerOpts) -> Seq<Seq<char>> {
    llama_args_of(
        *o.model,
        string_views(o.rpc_endpoints@),
        o.ngl,
        opt_str_view(o.tensor_split),
        o.main_gpu,
        opt_str_view(o.device),
        *o.cpu_moe,
        o.ctx,
        o.no_mmap,
        opt_str_view(o.flash_attn),
        o.threads,
        o.threads_batch,
        opt_str_view(o.cache_type_k),
        opt_str_view(o.cache_type_v),
        o.host@,
        o.port,
    )
}

/// Appends one argument.
fn push_arg(args: &mut Vec<String>, a: String)
    ensures
        string_views(final(args)@) == string_views(old(args)@).push(a@),
{
    let ghost before = args@;
    args.push(a);
    assert(string_views(args@) =~= string_views(before).push(a@));
}

/// Appends `flag value` when a value is given.
fn push_text_flag(args: &mut Vec<String>, flag: &str, v: Option<&str>)
    ensures
        string_views(final(args)@) == string_views(old(args)@) + text_flag(flag@, opt_str_view(v)),
{
    if let Some(x) = v {
        push_arg(args, owned(flag));
        push_arg(args, owned(x));
        assert(string_views(final(args)@) =~= string_views(old(args)@) + text_flag(flag@, opt_str_view(v)));
    } else {
        assert(string_views(final(args)@) =~= string_views(old(args)@) + text_flag(flag@, opt_str_view(v)));
    }
}

/// Appends `flag number` when a number is given.
fn push_number_flag(args: &mut Vec<String>, flag: &str, v: Option<u32>)
    ensures
        string_views(final(args)@) == string_views(old(args)@) + number_flag(flag@, v),
{
    if let Some(n) = v {
        push_arg(args, owned(flag));
        push_arg(args, decimal_string(n as u64));
        assert(string_views(final(args)@) =~= string_views(old(args)@) + number_flag(flag@, v));
    } else {
        assert(string_views(final(args)@) =~= string_views(old(args)@) + number_flag(flag@, v));
    }
}

/// The `llama-server` command for the given options.
pub fn llama_server_spec(opts: &LlamaServerOpts) -> (spec: ProcSpec)
    ensures
        spec.program@ == opts.binary@,
        string_views(spec.args@) == llama_server_args(*opts),
{
    let mut args: Vec<String> = Vec::new();
    match opts.model {
        ModelRef::Hf(v) => {
            push_arg(&mut args, owned("-hf"));
            push_arg(&mut args, v.clone());
        },
        ModelRef::Local(p) => {
            push_arg(&mut args, owned("-m"));
            push_arg(&mut args, p.clone());
        },
    }
    assert(string_views(args@) =~= model_args(*opts.model));
    let ghost a0 = string_views(args@);
    if opts.rpc_endpoints.len() > 0 {
        push_arg(&mut args, owned("--rpc"));
        push_arg(&mut args, join_strings(opts.rpc_endpoints, ","));
    }
    assert(string_views(args@) =~= a0 + rpc_args(string_views(opts.rpc_endpoints@)));
    push_number_flag(&mut args, "-ngl", opts.ngl);
    push_text_flag(&mut args, "--tensor-split", opts.tensor_split);
    push_number_flag(&mut args, "--main-gpu", opts.main_gpu);
    push_text_flag(&mut args, "--device", opts.device);
    let ghost a1 = string_views(args@);
    match opts.cpu_moe {
        CpuMoe::Off => {},
        CpuMoe::All => push_arg(&mut args, owned("--cpu-moe")),
        CpuMoe::NLayers(n) => {
            push_arg(&mut args, owned("--n-cpu-moe"));
            push_arg(&mut args, decimal_string(*n as u64));
        },
    }
    assert(string_views(args@) =~= a1 + cpu_moe_args(*opts.cpu_moe));
    push_number_flag(&mut args, "-c", opts.ctx);
    let ghost a2 = string_views(args@);
    if opts.no_mmap {
        push_arg(&mut args, owned("--no-mmap"));
    }
    assert(string_views(args@) =~= a2 + (if opts.no_mmap {
        seq!["--no-mmap"@]
    } else {
        Seq::empty()
    }));
    push_text_flag(&mut args, "-fa", opts.flash_attn);
    push_number_flag(&mut args, "--threads", opts.threads);
    push_number_flag(&mut args, "--threads-batch", opts.threads_batch);
    push_text_flag(&mut args, "--cache-type-k", opts.cache_type_k);
    push_text_flag(&mut args, "--cache-type-v", opts.cache_type_v);
    let ghost a3 = string_views(args@);
    push_arg(&mut args, owned("--host"));
    push_arg(&mut args, owned(opts.host));
    push_arg(&mut args, owned("--port"));
    push_arg(&mut args, decimal_string(opts.port as u64));
    assert(string_views(args@) =~= a3 + seq!["--host"@, opts.host@, "--port"@, decimal(opts.port as nat)]);
    assert(string_views(args@) =~= llama_server_args(*opts));
    ProcSpec { program: owned(opts.binary), args }
}

/// The full `rpc-server` argument vector.
pub open spec fn rpc_server_args(host: Seq<char>, port: u16, device: Option<&str>) -> Seq<Seq<char>> {
    seq!["-H"@, host, "-p"@, decimal(port as nat)] + text_flag("-d"@, opt_str_view(device))
}

/// The `rpc-server` command: listen on `host:port`, optionally pinned to one device.
pub fn rpc_server_spec(binary: &str, host: &str, port: u16, device: Option<&str>) -> (spec: ProcSpec)
    ensures
        spec.program@ == binary@,
        string_views(spec.args@) == rpc_server_args(host@, port, device),
{
    let mut args: Vec<String> = Vec::new();
    push_arg(&mut args, owned("-H"));
    push_arg(&mut args, owned(host));
    push_arg(&mut args, owned("-p"));
    push_arg(&mut args, decimal_string(port as u64));
    push_text_flag(&mut args, "-d", device);
    assert(string_views(args@) =~= rpc_server_args(host@, port, device));
    ProcSpec { program: owned(binary), args }
}

} // verus!
