//! The launch planner: sizes `-ngl`, tensor split and MoE offload to the cluster's real
//! memory, and gives a fit verdict across three memory tiers.
use vstd::prelude::*;
use crate::cluster::{counted, seq_sum, lemma_seq_sum_le, lemma_seq_sum_prefix, lemma_seq_sum_step, ClusterStatus, NodeSnapshot};
use crate::model::{DeviceKind, DeviceStats, NodeStats, Role};
use crate::text::{decimal, decimal_string, join, join_strings, owned, split_on, string_views};

verus! {

/// Size and shape of a model.
#[derive(Clone, PartialEq, Debug)]
pub struct ModelMeta {
    pub total_mib: u64,
    pub n_layers: u32,
    pub is_moe: bool,
}

/// How well a model fits the cluster.
#[derive(Clone, Copy, PartialEq, Eq, Debug, Structural)]
pub enum Fit {
    Fits,
    Tight,
    WontFit,
}

/// A fit verdict and its explanation.
#[derive(Clone, PartialEq, Debug)]
pub struct FitVerdict {
    pub fit: Fit,
    pub detail: String,
}

/// A suggested launch configuration.
#[derive(Clone, PartialEq, Debug)]
pub struct Plan {
    pub ngl: u32,
    pub tensor_split: Option<String>,
    pub cpu_moe: Option<String>,
    pub exclude_notes: Vec<String>,
    pub fit: FitVerdict,
    pub gpu_pool_mib: u64,
    pub cpu_pool_mib: u64,
    pub warnings: Vec<String>,
    /// Recommended flash-attention setting for the launch (e.g. "on").
    pub flash_attn: Option<String>,
    /// Recommend `--no-mmap` (true when weights are offloaded to CPU).
    pub no_mmap: bool,
    /// Which node to run llama-server on, and why.
    pub host_hint: Option<String>,
    /// Tier-3 capacity: reclaimable RAM (MiB) of CPU-only worker nodes, usable via RPC.
    pub remote_cpu_pool_mib: u64,
    /// rpc-server endpoints of CPU-only nodes engaged as last-resort CPU spillover.
    pub rpc_cpu_nodes: Vec<String>,
}

/// MiB kept free on every GPU.
pub const GPU_HEADROOM_MIB: u64 = 1024;

/// MiB kept free on every CPU.
pub const CPU_HEADROOM_MIB: u64 = 2048;

/// Rough KV-cache size: ~0.125 MiB per layer per 1024 context tokens.
pub open spec fn spec_kv_mib(n_layers: u32, ctx: u32) -> u64 {
    ((n_layers as int * ctx as int) / 8192) as u64
}

/// Rough KV-cache size for the fit check. A heuristic, deliberately rough: it trends
/// low at long contexts because it ignores GQA ratios and quantized-KV savings.
pub fn kv_mib(n_layers: u32, ctx: u32) -> (k: u64)
    ensures
        k == spec_kv_mib(n_layers, ctx),
{
    assert((n_layers as u64) * (ctx as u64) <= u64::MAX) by (nonlinear_arith)
        requires n_layers <= u32::MAX, ctx <= u32::MAX;
    (n_layers as u64 * ctx as u64) / 8192
}

/// `a - b`, or 0 when `b > a`.
pub open spec fn sat_sub(a: u64, b: u64) -> u64 {
    if a >= b {
        (a - b) as u64
    } else {
        0
    }
}

/// A part rounded to the nearest GiB, at least 1.
pub open spec fn ratio_part(p: u64) -> nat {
    let g = (p as int + 512) / 1024;
    if g >= 1 {
        g as nat
    } else {
        1
    }
}

/// Whether every part is zero (true for no parts at all).
pub open spec fn all_zero(parts: Seq<u64>) -> bool {
    forall|i: int| 0 <= i < parts.len() ==> parts[i] == 0
}

/// The tensor-split ratio of the parts: each rounded to the nearest GiB (at least 1),
/// comma-separated; none when every part is zero.
pub open spec fn spec_ratio(parts: Seq<u64>) -> Option<Seq<char>> {
    if all_zero(parts) {
        None
    } else {
        Some(join(parts.map_values(|p: u64| decimal(ratio_part(p))), ","@))
    }
}

/// Reduce MiB values to a small comma-separated ratio for `--tensor-split`.
pub fn ratio_string(parts: &[u64]) -> (r: Option<String>)
    requires
        forall|i: int| 0 <= i < parts@.len() ==> parts@[i] <= u64::MAX - 512,
    ensures
        crate::cluster::opt_string_view(r) == spec_ratio(parts@),
{
    let mut any_nonzero = false;
    let mut strs: Vec<String> = Vec::new();
    let mut i: usize = 0;
    while i < parts.len()
        invariant
            i <= parts@.len(),
            forall|k: int| 0 <= k < parts@.len() ==> parts@[k] <= u64::MAX - 512,
            any_nonzero == !all_zero(parts@.take(i as int)),
            string_views(strs@) =~= parts@.take(i as int).map_values(|p: u64| decimal(ratio_part(p))),
        decreases parts.len() - i,
    {
        let p = parts[i];
        let g = (p + 512) / 1024;
        let g1: u64 = if g >= 1 { g } else { 1 };
        let ghost before = strs@;
        strs.push(decimal_string(g1));
        assert(string_views(strs@) =~= string_views(before).push(decimal(ratio_part(p))));
        assert(parts@.take(i + 1) =~= parts@.take(i as int).push(p));
        if p != 0 {
            any_nonzero = true;
            assert(parts@.take(i + 1)[i as int] != 0);
        }
        i = i + 1;
    }
    assert(parts@.take(parts@.len() as int) =~= parts@);
    if !any_nonzero {
        None
    } else {
        Some(join_strings(&strs, ","))
    }
}

// ---------------------------------------------------------------------------
// Tier 1: the GPU pool across all reachable nodes
// ---------------------------------------------------------------------------

/// A device whose VRAM the planner uses: a reliable reading of a real device.
pub open spec fn gpu_ok(d: DeviceStats) -> bool {
    d.reliable && d.vram_total_mib > 0
}

/// What a usable device contributes: its free VRAM minus the GPU headroom.
pub open spec fn usable(d: DeviceStats) -> u64 {
    sat_sub(d.vram_free_mib, GPU_HEADROOM_MIB)
}

/// One usable GPU: `node/device` and its usable MiB.
pub open spec fn gpu_entry(node: Seq<char>, d: DeviceStats) -> (Seq<char>, u64) {
    (node + "/"@ + d.name@, usable(d))
}

/// The note that calls out an unreliable device.
pub open spec fn exclude_note(node: Seq<char>, d: DeviceStats) -> Seq<char> {
    node + "/"@ + d.name@ + ": unreliable VRAM reading ("@ + decimal(d.vram_free_mib as nat)
        + " MiB) — exclude this device"@
}

/// The usable GPUs among `ds`, in order.
pub open spec fn device_entries(node: Seq<char>, ds: Seq<DeviceStats>) -> Seq<(Seq<char>, u64)>
    decreases ds.len(),
{
    if ds.len() == 0 {
        Seq::empty()
    } else {
        device_entries(node, ds.drop_last()) + (if gpu_ok(ds.last()) {
            seq![gpu_entry(node, ds.last())]
        } else {
            Seq::empty()
        })
    }
}

/// The notes for the unreliable devices among `ds`, in order.
pub open spec fn device_notes(node: Seq<char>, ds: Seq<DeviceStats>) -> Seq<Seq<char>>
    decreases ds.len(),
{
    if ds.len() == 0 {
        Seq::empty()
    } else {
        device_notes(node, ds.drop_last()) + (if !ds.last().reliable {
            seq![exclude_note(node, ds.last())]
        } else {
            Seq::empty()
        })
    }
}

/// The usable GPUs of one polled node.
pub open spec fn node_entries(n: NodeSnapshot) -> Seq<(Seq<char>, u64)> {
    if counted(n) {
        device_entries(n.entry.name@, n.stats->0.devices@)
    } else {
        Seq::empty()
    }
}

/// The exclusion notes of one polled node.
pub open spec fn node_notes(n: NodeSnapshot) -> Seq<Seq<char>> {
    if counted(n) {
        device_notes(n.entry.name@, n.stats->0.devices@)
    } else {
        Seq::empty()
    }
}

/// The usable GPUs of the cluster, node by node.
pub open spec fn gpu_entries(nodes: Seq<NodeSnapshot>) -> Seq<(Seq<char>, u64)>
    decreases nodes.len(),
{
    if nodes.len() == 0 {
        Seq::empty()
    } else {
        gpu_entries(nodes.drop_last()) + node_entries(nodes.last())
    }
}

/// The exclusion notes of the cluster, node by node.
pub open spec fn exclude_notes(nodes: Seq<NodeSnapshot>) -> Seq<Seq<char>>
    decreases nodes.len(),
{
    if nodes.len() == 0 {
        Seq::empty()
    } else {
        exclude_notes(nodes.drop_last()) + node_notes(nodes.last())
    }
}

/// The per-GPU shares that feed `--tensor-split`.
pub open spec fn gpu_splits(nodes: Seq<NodeSnapshot>) -> Seq<u64> {
    gpu_entries(nodes).map_values(|e: (Seq<char>, u64)| e.1)
}

/// The usable VRAM a device adds to the pool.
pub open spec fn device_pool_term(d: DeviceStats) -> int {
    if gpu_ok(d) {
        usable(d) as int
    } else {
        0
    }
}

/// The usable VRAM of one polled node.
pub open spec fn node_gpu_pool(n: NodeSnapshot) -> int {
    if counted(n) {
        seq_sum(n.stats->0.devices@, |d: DeviceStats| device_pool_term(d))
    } else {
        0
    }
}

/// Tier 1: the usable VRAM of every reliable GPU on every reachable node.
pub open spec fn gpu_pool(nodes: Seq<NodeSnapshot>) -> int {
    seq_sum(nodes, |n: NodeSnapshot| node_gpu_pool(n))
}

/// The best entry seen after `e`: the first entry with the most usable MiB wins.
pub open spec fn roomier(best: Option<(Seq<char>, u64)>, e: (Seq<char>, u64)) -> Option<
    (Seq<char>, u64),
> {
    match best {
        Some(b) => if e.1 > b.1 {
            Some(e)
        } else {
            best
        },
        None => Some(e),
    }
}

/// The roomiest GPU among the entries (the earliest among equals).
pub open spec fn roomiest_of(es: Seq<(Seq<char>, u64)>) -> Option<(Seq<char>, u64)>
    decreases es.len(),
{
    if es.len() == 0 {
        None
    } else {
        roomier(roomiest_of(es.drop_last()), es.last())
    }
}

/// Every pool term is non-negative.
pub proof fn lemma_pool_terms_nonneg()
    ensures
        forall|d: DeviceStats| #[trigger] device_pool_term(d) >= 0,
        forall|n: NodeSnapshot| #[trigger] node_gpu_pool(n) >= 0,
{
    assert forall|n: NodeSnapshot| #[trigger] node_gpu_pool(n) >= 0 by {
        if counted(n) {
            lemma_seq_sum_prefix(n.stats->0.devices@, |d: DeviceStats| device_pool_term(d), 0);
        }
    }
}

/// The result of the GPU tier scan.
pub struct GpuTier {
    pub pool: u64,
    pub splits: Vec<u64>,
    pub notes: Vec<String>,
    pub roomiest: Option<(String, u64)>,
}

/// The view of an optional roomiest GPU.
pub open spec fn roomiest_view(r: Option<(String, u64)>) -> Option<(Seq<char>, u64)> {
    match r {
        Some((n, m)) => Some((n@, m)),
        None => None,
    }
}

/// Scans every reachable node's devices: sums the usable VRAM of reliable GPUs, lists
/// their shares, notes the unreliable ones and finds the roomiest GPU.
fn scan_gpus(nodes: &Vec<NodeSnapshot>) -> (t: GpuTier)
    requires
        gpu_pool(nodes@) <= u64::MAX,
    ensures
        t.pool == gpu_pool(nodes@),
        t.splits@ == gpu_splits(nodes@),
        string_views(t.notes@) == exclude_notes(nodes@),
        roomiest_view(t.roomiest) == roomiest_of(gpu_entries(nodes@)),
{
    let ghost fnode = |n: NodeSnapshot| node_gpu_pool(n);
    let ghost fdev = |d: DeviceStats| device_pool_term(d);
    let mut pool: u64 = 0;
    let mut splits: Vec<u64> = Vec::new();
    let mut notes: Vec<String> = Vec::new();
    let mut roomiest: Option<(String, u64)> = None;
    let mut i: usize = 0;
    proof {
        lemma_pool_terms_nonneg();
    }
    assert(nodes@.take(0) =~= Seq::<NodeSnapshot>::empty());
    assert(splits@ =~= gpu_splits(nodes@.take(0)));
    assert(string_views(notes@) =~= exclude_notes(nodes@.take(0)));
    while i < nodes.len()
        invariant
            i <= nodes@.len(),
            gpu_pool(nodes@) <= u64::MAX,
            fnode == (|n: NodeSnapshot| node_gpu_pool(n)),
            fdev == (|d: DeviceStats| device_pool_term(d)),
            forall|d: DeviceStats| #[trigger] device_pool_term(d) >= 0,
            forall|n: NodeSnapshot| #[trigger] node_gpu_pool(n) >= 0,
            pool == seq_sum(nodes@.take(i as int), fnode),
            splits@ == gpu_splits(nodes@.take(i as int)),
            string_views(notes@) == exclude_notes(nodes@.take(i as int)),
            roomiest_view(roomiest) == roomiest_of(gpu_entries(nodes@.take(i as int))),
        decreases nodes.len() - i,
    {
        let n = &nodes[i];
        let ghost before_nodes = nodes@.take(i as int);
        assert(nodes@.take(i + 1).drop_last() =~= before_nodes);
        proof {
            lemma_seq_sum_step(nodes@, fnode, i as int);
            lemma_seq_sum_prefix(nodes@, fnode, i + 1);
        }
        if n.reachable {
            if let Some(st) = &n.stats {
                let ghost ds = st.devices@;
                let ghost name = n.entry.name@;
                let ghost base_entries = gpu_entries(before_nodes);
                let ghost base_notes = exclude_notes(before_nodes);
                let ghost base_pool = pool as int;
                let mut j: usize = 0;
                assert(ds.take(0) =~= Seq::<DeviceStats>::empty());
                assert(base_entries + device_entries(name, ds.take(0)) =~= base_entries);
                assert(base_notes + device_notes(name, ds.take(0)) =~= base_notes);
                while j < st.devices.len()
                    invariant
                        ds == st.devices@,
                        name == n.entry.name@,
                        j <= ds.len(),
                        fdev == (|d: DeviceStats| device_pool_term(d)),
                        forall|d: DeviceStats| #[trigger] device_pool_term(d) >= 0,
                        base_pool + seq_sum(ds, fdev) <= u64::MAX,
                        pool == base_pool + seq_sum(ds.take(j as int), fdev),
                        splits@ == (base_entries + device_entries(name, ds.take(j as int))).map_values(
                            |e: (Seq<char>, u64)| e.1,
                        ),
                        string_views(notes@) == base_notes + device_notes(name, ds.take(j as int)),
                        roomiest_view(roomiest) == roomiest_of(
                            base_entries + device_entries(name, ds.take(j as int)),
                        ),
                    decreases ds.len() - j,
                {
                    let d = &st.devices[j];
                    let ghost prev = base_entries + device_entries(name, ds.take(j as int));
                    assert(ds.take(j + 1).drop_last() =~= ds.take(j as int));
                    assert(ds.take(j + 1).last() == ds[j as int]);
                    proof {
                        lemma_seq_sum_step(ds, fdev, j as int);
                        lemma_seq_sum_prefix(ds, fdev, j + 1);
                    }
                    if d.reliable && d.vram_total_mib > 0 {
                        let u: u64 = if d.vram_free_mib >= GPU_HEADROOM_MIB {
                            d.vram_free_mib - GPU_HEADROOM_MIB
                        } else {
                            0
                        };
                        pool = pool + u;
                        splits.push(u);
                        let mut label = n.entry.name.clone();
                        label.append("/");
                        label.append(d.name.as_str());
                        let ghost e = gpu_entry(name, *d);
                        assert(label@ == e.0);
                        let ghost next = prev.push(e);
                        assert(base_entries + device_entries(name, ds.take(j + 1)) =~= next);
                        assert(next.drop_last() =~= prev);
                        let better = match &roomiest {
                            Some((_, best)) => u > *best,
                            None => true,
                        };
                        if better {
                            roomiest = Some((label, u));
                        }
                        assert(splits@ =~= next.map_values(|e: (Seq<char>, u64)| e.1));
                    } else {
                        assert(base_entries + device_entries(name, ds.take(j + 1)) =~= prev);
                    }
                    let ghost notes_before = notes@;
                    if !d.reliable {
                        let mut note = n.entry.name.clone();
                        note.append("/");
                        note.append(d.name.as_str());
                        note.append(": unreliable VRAM reading (");
                        note.append(decimal_string(d.vram_free_mib).as_str());
                        note.append(" MiB) — exclude this device");
                        notes.push(note);
                        assert(string_views(notes@) =~= string_views(notes_before).push(
                            exclude_note(name, *d),
                        ));
                    }
                    assert(string_views(notes@) =~= base_notes + device_notes(name, ds.take(j + 1)));
                    j = j + 1;
                }
                assert(ds.take(ds.len() as int) =~= ds);
                assert(gpu_entries(nodes@.take(i + 1)) =~= base_entries + device_entries(name, ds));
                assert(exclude_notes(nodes@.take(i + 1)) =~= base_notes + device_notes(name, ds));
            } else {
                assert(gpu_entries(nodes@.take(i + 1)) =~= gpu_entries(before_nodes));
                assert(exclude_notes(nodes@.take(i + 1)) =~= exclude_notes(before_nodes));
            }
        } else {
            assert(gpu_entries(nodes@.take(i + 1)) =~= gpu_entries(before_nodes));
            assert(exclude_notes(nodes@.take(i + 1)) =~= exclude_notes(before_nodes));
        }
        i = i + 1;
    }
    assert(nodes@.take(nodes@.len() as int) =~= nodes@);
    GpuTier { pool, splits, notes, roomiest }
}

// ---------------------------------------------------------------------------
// The host node and Tier 2: the host's own CPU memory
// ---------------------------------------------------------------------------

/// The index of the first node satisfying `p`, or -1.
pub open spec fn first_where(nodes: Seq<NodeSnapshot>, p: spec_fn(NodeSnapshot) -> bool) -> int
    decreases nodes.len(),
{
    if nodes.len() == 0 {
        -1
    } else {
        let k = first_where(nodes.drop_last(), p);
        if k >= 0 {
            k
        } else if p(nodes.last()) {
            nodes.len() - 1
        } else {
            -1
        }
    }
}

/// A reachable node that reports the Host role.
pub open spec fn is_host_node(n: NodeSnapshot) -> bool {
    n.reachable && n.stats is Some && n.stats->0.role == Role::Host
}

/// The node that will run llama-server: the first reachable Host-role node, else the
/// first reachable node; -1 when no node is reachable.
pub open spec fn host_index(nodes: Seq<NodeSnapshot>) -> int {
    let h = first_where(nodes, |n: NodeSnapshot| is_host_node(n));
    if h >= 0 {
        h
    } else {
        first_where(nodes, |n: NodeSnapshot| n.reachable)
    }
}

/// The stats of the host node, if it has any.
pub open spec fn host_stats(nodes: Seq<NodeSnapshot>) -> Option<NodeStats> {
    let h = host_index(nodes);
    if h >= 0 {
        nodes[h].stats
    } else {
        None
    }
}

/// The host's Metal carve-out: free VRAM of its reliable Metal devices.
pub open spec fn host_unified(s: NodeStats) -> int {
    seq_sum(
        s.devices@,
        |d: DeviceStats|
            if d.reliable && d.kind == DeviceKind::Metal {
                d.vram_free_mib as int
            } else {
                0
            },
    )
}

/// Tier 2: the host's reclaimable RAM minus the CPU headroom and its Metal carve-out.
pub open spec fn host_cpu(nodes: Seq<NodeSnapshot>) -> u64 {
    match host_stats(nodes) {
        Some(s) => sat_sub(s.ram_free_mib, (CPU_HEADROOM_MIB + host_unified(s)) as u64),
        None => 0,
    }
}

/// `first_where` finds the first match.
pub proof fn lemma_first_where(nodes: Seq<NodeSnapshot>, p: spec_fn(NodeSnapshot) -> bool)
    ensures
        -1 <= first_where(nodes, p) < nodes.len(),
        first_where(nodes, p) >= 0 ==> p(nodes[first_where(nodes, p)]),
        forall|j: int|
            0 <= j < nodes.len() && (first_where(nodes, p) < 0 || j < first_where(nodes, p))
                ==> !p(#[trigger] nodes[j]),
    decreases nodes.len(),
{
    if nodes.len() > 0 {
        let t = nodes.drop_last();
        lemma_first_where(t, p);
        assert forall|j: int|
            0 <= j < nodes.len() && (first_where(nodes, p) < 0 || j < first_where(nodes, p)) implies !p(
            #[trigger] nodes[j]) by {
            if j < nodes.len() - 1 {
                assert(t[j] == nodes[j]);
            }
        }
        if first_where(t, p) >= 0 {
            assert(t[first_where(t, p)] == nodes[first_where(t, p)]);
        }
    }
}

/// Once a prefix has a match, longer prefixes find the same first match.
pub proof fn lemma_first_where_stable(nodes: Seq<NodeSnapshot>, m: int, p: spec_fn(NodeSnapshot) -> bool)
    requires
        0 <= m <= nodes.len(),
        first_where(nodes.take(m), p) >= 0,
    ensures
        first_where(nodes, p) == first_where(nodes.take(m), p),
    decreases nodes.len(),
{
    if m == nodes.len() {
        assert(nodes.take(m) =~= nodes);
    } else {
        assert(nodes.drop_last().take(m) =~= nodes.take(m));
        lemma_first_where_stable(nodes.drop_last(), m, p);
    }
}

/// The index of the first reachable Host-role node.
fn find_host_role(nodes: &Vec<NodeSnapshot>) -> (r: Option<usize>)
    ensures
        r matches Some(k) ==> k as int == first_where(nodes@, |n: NodeSnapshot| is_host_node(n)),
        r is None ==> first_where(nodes@, |n: NodeSnapshot| is_host_node(n)) == -1,
{
    let ghost p = |n: NodeSnapshot| is_host_node(n);
    let mut i: usize = 0;
    assert(nodes@.take(0) =~= Seq::<NodeSnapshot>::empty());
    while i < nodes.len()
        invariant
            i <= nodes@.len(),
            p == (|n: NodeSnapshot| is_host_node(n)),
            first_where(nodes@.take(i as int), p) == -1,
        decreases nodes.len() - i,
    {
        assert(nodes@.take(i + 1).drop_last() =~= nodes@.take(i as int));
        let n = &nodes[i];
        let is_host = n.reachable && match &n.stats {
            Some(s) => s.role == Role::Host,
            None => false,
        };
        if is_host {
            proof {
                lemma_first_where_stable(nodes@, i + 1, p);
            }
            return Some(i);
        }
        i = i + 1;
    }
    assert(nodes@.take(nodes@.len() as int) =~= nodes@);
    None
}

/// The index of the first reachable node.
fn find_reachable(nodes: &Vec<NodeSnapshot>) -> (r: Option<usize>)
    ensures
        r matches Some(k) ==> k as int == first_where(nodes@, |n: NodeSnapshot| n.reachable),
        r is None ==> first_where(nodes@, |n: NodeSnapshot| n.reachable) == -1,
{
    let ghost p = |n: NodeSnapshot| n.reachable;
    let mut i: usize = 0;
    assert(nodes@.take(0) =~= Seq::<NodeSnapshot>::empty());
    while i < nodes.len()
        invariant
            i <= nodes@.len(),
            p == (|n: NodeSnapshot| n.reachable),
            first_where(nodes@.take(i as int), p) == -1,
        decreases nodes.len() - i,
    {
        assert(nodes@.take(i + 1).drop_last() =~= nodes@.take(i as int));
        if nodes[i].reachable {
            proof {
                lemma_first_where_stable(nodes@, i + 1, p);
            }
            return Some(i);
        }
        i = i + 1;
    }
    assert(nodes@.take(nodes@.len() as int) =~= nodes@);
    None
}

/// The host node's index.
fn find_host(nodes: &Vec<NodeSnapshot>) -> (r: Option<usize>)
    ensures
        r matches Some(k) ==> k as int == host_index(nodes@) && k < nodes@.len(),
        r is None ==> host_index(nodes@) == -1,
{
    proof {
        lemma_first_where(nodes@, |n: NodeSnapshot| is_host_node(n));
        lemma_first_where(nodes@, |n: NodeSnapshot| n.reachable);
    }
    match find_host_role(nodes) {
        Some(k) => Some(k),
        None => find_reachable(nodes),
    }
}

/// The sum of the host's Metal carve-out.
fn unified_free(s: &NodeStats) -> (u: u64)
    requires
        host_unified(*s) <= u64::MAX,
    ensures
        u == host_unified(*s),
{
    let ghost f = |d: DeviceStats|
        if d.reliable && d.kind == DeviceKind::Metal {
            d.vram_free_mib as int
        } else {
            0
        };
    let mut u: u64 = 0;
    let mut j: usize = 0;
    assert(s.devices@.take(0) =~= Seq::<DeviceStats>::empty());
    while j < s.devices.len()
        invariant
            j <= s.devices@.len(),
            f == (|d: DeviceStats|
                if d.reliable && d.kind == DeviceKind::Metal {
                    d.vram_free_mib as int
                } else {
                    0
                }),
            seq_sum(s.devices@, f) <= u64::MAX,
            u == seq_sum(s.devices@.take(j as int), f),
        decreases s.devices.len() - j,
    {
        proof {
            lemma_seq_sum_step(s.devices@, f, j as int);
            lemma_seq_sum_prefix(s.devices@, f, j + 1);
        }
        let d = &s.devices[j];
        if d.reliable && d.kind == DeviceKind::Metal {
            u = u + d.vram_free_mib;
        }
        j = j + 1;
    }
    assert(s.devices@.take(s.devices@.len() as int) =~= s.devices@);
    u
}

// ---------------------------------------------------------------------------
// Tier 3: CPU-only worker nodes
// ---------------------------------------------------------------------------

/// Whether a node has a usable GPU.
pub open spec fn has_gpu(s: NodeStats) -> bool {
    exists|k: int| 0 <= k < s.devices@.len() && gpu_ok(#[trigger] s.devices@[k])
}

/// Node `i` is a CPU-only worker: reachable, not the host, with stats and no usable GPU.
pub open spec fn is_cpu_node(nodes: Seq<NodeSnapshot>, h: int, i: int) -> bool {
    nodes[i].reachable && i != h && nodes[i].stats is Some && !has_gpu(nodes[i].stats->0)
}

/// The reclaimable RAM of the CPU-only workers among the first `k` nodes.
pub open spec fn remote_cpu_upto(nodes: Seq<NodeSnapshot>, h: int, k: int) -> int
    decreases k,
{
    if k <= 0 {
        0
    } else {
        remote_cpu_upto(nodes, h, k - 1) + (if is_cpu_node(nodes, h, k - 1) {
            sat_sub(nodes[k - 1].stats->0.ram_free_mib, CPU_HEADROOM_MIB) as int
        } else {
            0
        })
    }
}

/// The rpc-server endpoints of the CPU-only workers among the first `k` nodes.
pub open spec fn cpu_endpoints_upto(nodes: Seq<NodeSnapshot>, h: int, k: int) -> Seq<Seq<char>>
    decreases k,
{
    if k <= 0 {
        Seq::empty()
    } else {
        cpu_endpoints_upto(nodes, h, k - 1) + (if is_cpu_node(nodes, h, k - 1)
            && nodes[k - 1].stats->0.rpc_endpoint is Some {
            seq![nodes[k - 1].stats->0.rpc_endpoint->0@]
        } else {
            Seq::empty()
        })
    }
}

/// Tier 3: the reclaimable RAM (minus CPU headroom) of every CPU-only worker.
pub open spec fn remote_cpu(nodes: Seq<NodeSnapshot>) -> int {
    remote_cpu_upto(nodes, host_index(nodes), nodes.len() as int)
}

/// The rpc-server endpoints of the CPU-only workers.
pub open spec fn cpu_node_endpoints(nodes: Seq<NodeSnapshot>) -> Seq<Seq<char>> {
    cpu_endpoints_upto(nodes, host_index(nodes), nodes.len() as int)
}

/// The remote CPU sum only grows with more nodes.
pub proof fn lemma_remote_cpu_monotone(nodes: Seq<NodeSnapshot>, h: int, i: int, k: int)
    requires
        0 <= i <= k,
    ensures
        0 <= remote_cpu_upto(nodes, h, i) <= remote_cpu_upto(nodes, h, k),
    decreases k,
{
    if k > i {
        lemma_remote_cpu_monotone(nodes, h, i, k - 1);
    } else if i > 0 {
        lemma_remote_cpu_monotone(nodes, h, i - 1, i - 1);
    }
}

/// Whether a node's stats list a usable GPU.
fn any_gpu(s: &NodeStats) -> (b: bool)
    ensures
        b == has_gpu(*s),
{
    let mut j: usize = 0;
    while j < s.devices.len()
        invariant
            j <= s.devices@.len(),
            forall|k: int| 0 <= k < j ==> !gpu_ok(#[trigger] s.devices@[k]),
        decreases s.devices.len() - j,
    {
        if s.devices[j].reliable && s.devices[j].vram_total_mib > 0 {
            assert(gpu_ok(s.devices@[j as int]));
            return true;
        }
        j = j + 1;
    }
    false
}

/// Scans the CPU-only workers: their reclaimable RAM and their endpoints.
fn scan_cpu_nodes(nodes: &Vec<NodeSnapshot>, host: Option<usize>) -> (r: (u64, Vec<String>))
    requires
        host matches Some(k) ==> k as int == host_index(nodes@),
        host is None ==> host_index(nodes@) == -1,
        remote_cpu(nodes@) <= u64::MAX,
    ensures
        r.0 == remote_cpu(nodes@),
        string_views(r.1@) == cpu_node_endpoints(nodes@),
{
    let ghost h = host_index(nodes@);
    let mut total: u64 = 0;
    let mut eps: Vec<String> = Vec::new();
    let mut i: usize = 0;
    assert(string_views(eps@) =~= Seq::<Seq<char>>::empty());
    while i < nodes.len()
        invariant
            i <= nodes@.len(),
            h == host_index(nodes@),
            host matches Some(k) ==> k as int == h,
            host is None ==> h == -1,
            remote_cpu_upto(nodes@, h, nodes@.len() as int) <= u64::MAX,
            total == remote_cpu_upto(nodes@, h, i as int),
            string_views(eps@) == cpu_endpoints_upto(nodes@, h, i as int),
        decreases nodes.len() - i,
    {
        proof {
            lemma_remote_cpu_monotone(nodes@, h, i + 1, nodes@.len() as int);
        }
        let n = &nodes[i];
        let is_host = match host {
            Some(k) => k == i,
            None => false,
        };
        let ghost before = eps@;
        if n.reachable && !is_host {
            if let Some(st) = &n.stats {
                if !any_gpu(st) {
                    let free = if st.ram_free_mib >= CPU_HEADROOM_MIB {
                        st.ram_free_mib - CPU_HEADROOM_MIB
                    } else {
                        0
                    };
                    total = total + free;
                    if let Some(ep) = &st.rpc_endpoint {
                        eps.push(ep.clone());
                        assert(string_views(eps@) =~= string_views(before).push(ep@));
                    }
                }
            }
        }
        i = i + 1;
        assert(string_views(eps@) =~= cpu_endpoints_upto(nodes@, h, i as int));
    }
    (total, eps)
}

// ---------------------------------------------------------------------------
// Layer packing and the fit verdict
// ---------------------------------------------------------------------------

/// MiB per layer: total size over the layer count (at least 1 layer), at least 1.
pub open spec fn per_layer(meta: ModelMeta) -> u64 {
    let nl: u64 = if meta.n_layers >= 1 {
        meta.n_layers as u64
    } else {
        1
    };
    let q = meta.total_mib / nl;
    if q >= 1 {
        q
    } else {
        1
    }
}

/// `a / b` rounded up.
pub open spec fn ceil_div(a: u64, b: u64) -> u64 {
    if a % b != 0 {
        (a / b + 1) as u64
    } else {
        a / b
    }
}

/// The GPU need of a MoE model: its weights plus a ~10% margin for KV/compute.
pub open spec fn moe_gpu_need(meta: ModelMeta) -> u64 {
    (meta.total_mib + meta.total_mib / 10) as u64
}

/// What a MoE model lacks on the GPUs.
pub open spec fn moe_shortfall(meta: ModelMeta, pool: u64) -> u64 {
    sat_sub(moe_gpu_need(meta), pool)
}

/// The expert layers a MoE model offloads to CPU to cover the shortfall.
pub open spec fn moe_offload(meta: ModelMeta, pool: u64) -> u64 {
    let n = ceil_div(moe_shortfall(meta, pool), per_layer(meta));
    if n <= meta.n_layers as u64 {
        n
    } else {
        meta.n_layers as u64
    }
}

/// `--n-cpu-moe` for a MoE model ("off", "all", or a layer count); none for dense.
pub open spec fn plan_cpu_moe(meta: ModelMeta, pool: u64) -> Option<Seq<char>> {
    if !meta.is_moe {
        None
    } else if moe_shortfall(meta, pool) == 0 {
        Some("off"@)
    } else if moe_offload(meta, pool) >= meta.n_layers as u64 {
        Some("all"@)
    } else {
        Some(decimal(moe_offload(meta, pool) as nat))
    }
}

/// Dense `-ngl`: the layers that fit in the GPU pool with ~10% spare, at most all.
pub open spec fn dense_ngl(meta: ModelMeta, pool: u64) -> u32 {
    let fit = ((pool as int * 10 / 11) / per_layer(meta) as int) as u32;
    if fit <= meta.n_layers {
        fit
    } else {
        meta.n_layers
    }
}

/// `-ngl` before any tier-3 spill: every layer for MoE (attention stays on GPU).
pub open spec fn packed_ngl(meta: ModelMeta, pool: u64) -> u32 {
    if meta.is_moe {
        meta.n_layers
    } else {
        dense_ngl(meta, pool)
    }
}

/// Memory the model needs: weights plus KV cache.
pub open spec fn required_mib(meta: ModelMeta, ctx: u32) -> int {
    meta.total_mib as int + spec_kv_mib(meta.n_layers, ctx) as int
}

/// Tiers 1 and 2 together.
pub open spec fn primary_mib(nodes: Seq<NodeSnapshot>) -> int {
    gpu_pool(nodes) + host_cpu(nodes) as int
}

/// The planner's branches, in the order it tries them.
pub enum Outcome {
    /// Fits GPU + host CPU with ~10% to spare.
    Fits,
    /// Fits GPU + host CPU, but with under 10% to spare.
    TightPrimary,
    /// A MoE model that would need the CPU nodes; reported, not wired.
    TightMoe,
    /// A dense model whose overflow is wired onto the CPU nodes over RPC.
    TightDense,
    /// More than all three tiers hold.
    WontFit,
}

/// Which branch the planner takes.
pub open spec fn outcome(nodes: Seq<NodeSnapshot>, meta: ModelMeta, ctx: u32) -> Outcome {
    let required = required_mib(meta, ctx);
    let primary = primary_mib(nodes);
    if required + required / 10 <= primary {
        Outcome::Fits
    } else if required <= primary {
        Outcome::TightPrimary
    } else if required <= primary + remote_cpu(nodes) {
        if meta.is_moe {
            Outcome::TightMoe
        } else {
            Outcome::TightDense
        }
    } else {
        Outcome::WontFit
    }
}

/// The fit level of each branch.
pub open spec fn outcome_fit(o: Outcome) -> Fit {
    match o {
        Outcome::Fits => Fit::Fits,
        Outcome::WontFit => Fit::WontFit,
        _ => Fit::Tight,
    }
}

/// `a + b` capped at `u32::MAX`.
pub open spec fn sat_add32(a: u32, b: u32) -> u32 {
    if a as int + b as int <= u32::MAX {
        (a + b) as u32
    } else {
        u32::MAX
    }
}

/// The layers a tier-3 dense spill puts on the CPU nodes: what GPU and host CPU can't
/// hold, at least 1.
pub open spec fn remote_layers(nodes: Seq<NodeSnapshot>, meta: ModelMeta) -> u32 {
    let gpu_layers = dense_ngl(meta, gpu_pool(nodes) as u64);
    let host_cpu_layers = (host_cpu(nodes) / per_layer(meta)) as u32;
    let rest = sat_add32(gpu_layers, host_cpu_layers);
    if meta.n_layers > rest && meta.n_layers - rest >= 1 {
        (meta.n_layers - rest) as u32
    } else {
        1
    }
}

/// The tensor-split share of each CPU node in a tier-3 dense spill.
pub open spec fn remote_share(nodes: Seq<NodeSnapshot>, meta: ModelMeta) -> u64 {
    let n = cpu_node_endpoints(nodes).len();
    let n_cpu: int = if n >= 1 {
        n as int
    } else {
        1
    };
    ((remote_layers(nodes, meta) as int * per_layer(meta) as int) / n_cpu) as u64
}

/// The final `-ngl`.
pub open spec fn plan_ngl(nodes: Seq<NodeSnapshot>, meta: ModelMeta, ctx: u32) -> u32 {
    let packed = packed_ngl(meta, gpu_pool(nodes) as u64);
    if outcome(nodes, meta, ctx) is TightDense {
        let raised = sat_add32(packed, remote_layers(nodes, meta));
        if raised <= meta.n_layers {
            raised
        } else {
            meta.n_layers
        }
    } else {
        packed
    }
}

/// The final split shares: one per usable GPU, plus one per CPU node in a tier-3 dense spill.
pub open spec fn plan_splits(nodes: Seq<NodeSnapshot>, meta: ModelMeta, ctx: u32) -> Seq<u64> {
    if outcome(nodes, meta, ctx) is TightDense {
        gpu_splits(nodes) + Seq::new(
            cpu_node_endpoints(nodes).len(),
            |i: int| remote_share(nodes, meta),
        )
    } else {
        gpu_splits(nodes)
    }
}

/// `--no-mmap` is recommended whenever weights live on CPU: MoE experts offloaded, or a
/// tier-3 dense spill.
pub open spec fn plan_no_mmap(nodes: Seq<NodeSnapshot>, meta: ModelMeta, ctx: u32) -> bool {
    (meta.is_moe && moe_shortfall(meta, gpu_pool(nodes) as u64) != 0) || outcome(
        nodes,
        meta,
        ctx,
    ) is TightDense
}

/// The CPU nodes engaged over RPC: only in a tier-3 dense spill.
pub open spec fn plan_rpc_cpu_nodes(nodes: Seq<NodeSnapshot>, meta: ModelMeta, ctx: u32) -> Seq<
    Seq<char>,
> {
    if outcome(nodes, meta, ctx) is TightDense {
        cpu_node_endpoints(nodes)
    } else {
        Seq::empty()
    }
}

/// The tail of each fit explanation: the GPU with the most usable memory, if any.
pub open spec fn roomiest_suffix(nodes: Seq<NodeSnapshot>) -> Seq<char> {
    match roomiest_of(gpu_entries(nodes)) {
        Some((name, mib)) => " — roomiest GPU "@ + name + " "@ + decimal(mib as nat) + " MiB"@,
        None => " — no reliable GPU detected"@,
    }
}

/// The verdict when the model fits with room to spare.
pub open spec fn fits_text(headroom: nat, pool: nat, hc: nat, suffix: Seq<char>) -> Seq<char> {
    "fits — ~"@ + decimal(headroom) + " MiB headroom on "@ + decimal(pool) + " MiB GPU + "@
        + decimal(hc) + " MiB host CPU"@ + suffix
}

/// The verdict when the model fits GPU + host CPU with little to spare.
pub open spec fn tight_text(required: nat, primary: nat, pool: nat, hc: nat, suffix: Seq<char>) -> Seq<
    char,
> {
    "tight — needs "@ + decimal(required) + " MiB; GPU + host CPU is "@ + decimal(primary) + " MiB ("@
        + decimal(pool) + " GPU + "@ + decimal(hc) + " host CPU)"@ + suffix
}

/// The verdict when a MoE model would need the CPU nodes.
pub open spec fn moe_spill_text(over: nat, suffix: Seq<char>) -> Seq<char> {
    "tight — overflow needs CPU-node spillover, but MoE experts can't be auto-routed to a remote CPU (+"@
        + decimal(over) + " MiB); use a smaller quant or add host RAM"@ + suffix
}

/// The verdict when a dense model spills onto the CPU nodes.
pub open spec fn dense_spill_text(
    layers: nat,
    spill: nat,
    pool: nat,
    hc: nat,
    remote: nat,
    suffix: Seq<char>,
) -> Seq<char> {
    "tight — "@ + decimal(layers) + " layers (+"@ + decimal(spill)
        + " MiB) spill to CPU node(s) via RPC (slow last resort); "@ + decimal(pool) + " GPU + "@
        + decimal(hc) + " host CPU + "@ + decimal(remote) + " remote CPU"@ + suffix
}

/// The verdict when even the CPU nodes are not enough.
pub open spec fn wont_fit_text(required: nat, all: nat, suffix: Seq<char>) -> Seq<char> {
    "won't fit — needs "@ + decimal(required) + " MiB but GPU + host + CPU nodes is only "@ + decimal(
        all,
    ) + " MiB; use a smaller quant"@ + suffix
}

/// The verdict text of each branch.
pub open spec fn plan_detail(nodes: Seq<NodeSnapshot>, meta: ModelMeta, ctx: u32) -> Seq<char> {
    let required = required_mib(meta, ctx);
    let primary = primary_mib(nodes);
    let pool = gpu_pool(nodes) as nat;
    let hc = host_cpu(nodes) as nat;
    let suffix = roomiest_suffix(nodes);
    match outcome(nodes, meta, ctx) {
        Outcome::Fits => fits_text((primary - required) as nat, pool, hc, suffix),
        Outcome::TightPrimary => tight_text(required as nat, primary as nat, pool, hc, suffix),
        Outcome::TightMoe => moe_spill_text((required - primary) as nat, suffix),
        Outcome::TightDense => {
            let rl = remote_layers(nodes, meta);
            dense_spill_text(
                rl as nat,
                (rl as int * per_layer(meta) as int) as nat,
                pool,
                hc,
                remote_cpu(nodes) as nat,
                suffix,
            )
        },
        Outcome::WontFit => wont_fit_text(
            required as nat,
            (primary + remote_cpu(nodes)) as nat,
            suffix,
        ),
    }
}

/// The hint for a host with a GPU.
pub open spec fn gpu_host_text(name: Seq<char>, ram_free: u64) -> Seq<char> {
    "run llama-server on '"@ + name + "' (the host) — "@ + decimal(ram_free as nat)
        + " MiB free RAM + local GPU"@
}

/// The hint for a host without a GPU.
pub open spec fn cpu_host_text(name: Seq<char>, best: Seq<char>) -> Seq<char> {
    "host '"@ + name + "' has no GPU — run llama-server on a GPU node ("@ + best
        + ") for GPU acceleration"@
}

/// Where to run llama-server: confirm a GPU host, or warn that the host has no GPU.
pub open spec fn plan_host_hint(nodes: Seq<NodeSnapshot>) -> Option<Seq<char>> {
    match host_stats(nodes) {
        None => None,
        Some(s) => if has_gpu(s) {
            Some(gpu_host_text(s.name@, s.ram_free_mib))
        } else {
            Some(
                cpu_host_text(
                    s.name@,
                    match roomiest_of(gpu_entries(nodes)) {
                        Some((name, _)) => name,
                        None => "a GPU node"@,
                    },
                ),
            )
        },
    }
}

/// The inputs on which the planner's arithmetic stays within `u64`.
pub open spec fn plan_in_range(nodes: Seq<NodeSnapshot>, meta: ModelMeta, ctx: u32) -> bool {
    let required = required_mib(meta, ctx);
    let primary = primary_mib(nodes);
    &&& gpu_pool(nodes) <= u64::MAX
    &&& (host_stats(nodes) matches Some(s) ==> CPU_HEADROOM_MIB + host_unified(s) <= u64::MAX)
    &&& remote_cpu(nodes) <= u64::MAX
    &&& (meta.is_moe ==> meta.total_mib + meta.total_mib / 10 <= u64::MAX)
    &&& (!meta.is_moe ==> gpu_pool(nodes) * 10 <= u64::MAX)
    &&& required <= u64::MAX
    &&& primary <= u64::MAX
    &&& required + required / 10 <= u64::MAX
    &&& (required > primary ==> primary + remote_cpu(nodes) <= u64::MAX)
}

/// The GPU pool, when it fits in a `u64`.
fn gpu_pool_capped(nodes: &Vec<NodeSnapshot>) -> (r: Option<u64>)
    ensures
        r matches Some(p) ==> p == gpu_pool(nodes@),
        r is None ==> gpu_pool(nodes@) > u64::MAX,
{
    let ghost fnode = |n: NodeSnapshot| node_gpu_pool(n);
    let ghost fdev = |d: DeviceStats| device_pool_term(d);
    proof {
        lemma_pool_terms_nonneg();
    }
    let mut pool: u64 = 0;
    let mut i: usize = 0;
    assert(nodes@.take(0) =~= Seq::<NodeSnapshot>::empty());
    while i < nodes.len()
        invariant
            i <= nodes@.len(),
            fnode == (|n: NodeSnapshot| node_gpu_pool(n)),
            fdev == (|d: DeviceStats| device_pool_term(d)),
            forall|d: DeviceStats| #[trigger] device_pool_term(d) >= 0,
            forall|n: NodeSnapshot| #[trigger] node_gpu_pool(n) >= 0,
            pool == seq_sum(nodes@.take(i as int), fnode),
        decreases nodes.len() - i,
    {
        proof {
            lemma_seq_sum_step(nodes@, fnode, i as int);
            lemma_seq_sum_prefix(nodes@, fnode, i + 1);
        }
        let n = &nodes[i];
        if n.reachable {
            if let Some(st) = &n.stats {
                let ghost ds = st.devices@;
                let ghost base = pool as int;
                assert(fnode(nodes@[i as int]) == seq_sum(ds, fdev));
                let mut j: usize = 0;
                assert(ds.take(0) =~= Seq::<DeviceStats>::empty());
                while j < st.devices.len()
                    invariant
                        ds == st.devices@,
                        j <= ds.len(),
                        fdev == (|d: DeviceStats| device_pool_term(d)),
                        forall|d: DeviceStats| #[trigger] device_pool_term(d) >= 0,
                        pool == base + seq_sum(ds.take(j as int), fdev),
                        base + seq_sum(ds, fdev) <= gpu_pool(nodes@),
                    decreases ds.len() - j,
                {
                    proof {
                        lemma_seq_sum_step(ds, fdev, j as int);
                        lemma_seq_sum_prefix(ds, fdev, j + 1);
                    }
                    let d = &st.devices[j];
                    if d.reliable && d.vram_total_mib > 0 {
                        let u: u64 = if d.vram_free_mib >= GPU_HEADROOM_MIB {
                            d.vram_free_mib - GPU_HEADROOM_MIB
                        } else {
                            0
                        };
                        if pool > u64::MAX - u {
                            return None;
                        }
                        pool = pool + u;
                    }
                    j = j + 1;
                }
                assert(ds.take(ds.len() as int) =~= ds);
            }
        }
        i = i + 1;
    }
    assert(nodes@.take(nodes@.len() as int) =~= nodes@);
    Some(pool)
}

/// The host's Metal carve-out, when it fits in a `u64`.
fn host_unified_capped(s: &NodeStats) -> (r: Option<u64>)
    ensures
        r matches Some(u) ==> u == host_unified(*s),
        r is None ==> host_unified(*s) > u64::MAX,
{
    let ghost f = |d: DeviceStats|
        if d.reliable && d.kind == DeviceKind::Metal {
            d.vram_free_mib as int
        } else {
            0
        };
    let mut u: u64 = 0;
    let mut j: usize = 0;
    assert(s.devices@.take(0) =~= Seq::<DeviceStats>::empty());
    while j < s.devices.len()
        invariant
            j <= s.devices@.len(),
            f == (|d: DeviceStats|
                if d.reliable && d.kind == DeviceKind::Metal {
                    d.vram_free_mib as int
                } else {
                    0
                }),
            u == seq_sum(s.devices@.take(j as int), f),
            host_unified(*s) == seq_sum(s.devices@, f),
        decreases s.devices.len() - j,
    {
        proof {
            lemma_seq_sum_step(s.devices@, f, j as int);
            lemma_seq_sum_prefix(s.devices@, f, j + 1);
        }
        let d = &s.devices[j];
        if d.reliable && d.kind == DeviceKind::Metal {
            if u > u64::MAX - d.vram_free_mib {
                return None;
            }
            u = u + d.vram_free_mib;
        }
        j = j + 1;
    }
    assert(s.devices@.take(s.devices@.len() as int) =~= s.devices@);
    Some(u)
}

/// The reclaimable RAM of the CPU-only workers, when it fits in a `u64`.
fn remote_cpu_capped(nodes: &Vec<NodeSnapshot>, host: Option<usize>) -> (r: Option<u64>)
    requires
        host matches Some(k) ==> k as int == host_index(nodes@),
        host is None ==> host_index(nodes@) == -1,
    ensures
        r matches Some(t) ==> t == remote_cpu(nodes@),
        r is None ==> remote_cpu(nodes@) > u64::MAX,
{
    let ghost h = host_index(nodes@);
    let mut total: u64 = 0;
    let mut i: usize = 0;
    while i < nodes.len()
        invariant
            i <= nodes@.len(),
            h == host_index(nodes@),
            host matches Some(k) ==> k as int == h,
            host is None ==> h == -1,
            total == remote_cpu_upto(nodes@, h, i as int),
        decreases nodes.len() - i,
    {
        proof {
            lemma_remote_cpu_monotone(nodes@, h, i + 1, nodes@.len() as int);
        }
        let n = &nodes[i];
        let is_host = match host {
            Some(k) => k == i,
            None => false,
        };
        if n.reachable && !is_host {
            if let Some(st) = &n.stats {
                if !any_gpu(st) {
                    let free = if st.ram_free_mib >= CPU_HEADROOM_MIB {
                        st.ram_free_mib - CPU_HEADROOM_MIB
                    } else {
                        0
                    };
                    if total > u64::MAX - free {
                        return None;
                    }
                    total = total + free;
                }
            }
        }
        i = i + 1;
    }
    Some(total)
}

/// Whether the planner's arithmetic stays within `u64` on these inputs.
pub fn plan_in_range_check(cluster: &ClusterStatus, meta: &ModelMeta, ctx: u32) -> (b: bool)
    ensures
        b == plan_in_range(cluster.nodes@, *meta, ctx),
{
    let nodes = &cluster.nodes;
    let pool = match gpu_pool_capped(nodes) {
        Some(p) => p,
        None => {
            return false;
        },
    };
    let host = find_host(nodes);
    let mut hc: u64 = 0;
    if let Some(k) = host {
        if let Some(s) = &nodes[k].stats {
            let u = match host_unified_capped(s) {
                Some(u) => u,
                None => {
                    return false;
                },
            };
            if u > u64::MAX - CPU_HEADROOM_MIB {
                return false;
            }
            let reserve = CPU_HEADROOM_MIB + u;
            hc = if s.ram_free_mib >= reserve {
                s.ram_free_mib - reserve
            } else {
                0
            };
        }
    }
    assert(hc == host_cpu(nodes@));
    let remote = match remote_cpu_capped(nodes, host) {
        Some(t) => t,
        None => {
            return false;
        },
    };
    if meta.is_moe {
        if meta.total_mib > u64::MAX - meta.total_mib / 10 {
            return false;
        }
    } else if pool > u64::MAX / 10 {
        return false;
    }
    let kv = kv_mib(meta.n_layers, ctx);
    if meta.total_mib > u64::MAX - kv {
        return false;
    }
    let required = meta.total_mib + kv;
    if pool > u64::MAX - hc {
        return false;
    }
    let primary = pool + hc;
    if required > u64::MAX - required / 10 {
        return false;
    }
    if required > primary && primary > u64::MAX - remote {
        return false;
    }
    true
}

/// Every GPU share leaves room for rounding to GiB.
pub proof fn lemma_gpu_splits_bounded(nodes: Seq<NodeSnapshot>)
    ensures
        forall|i: int|
            0 <= i < gpu_splits(nodes).len() ==> gpu_splits(nodes)[i] <= u64::MAX - GPU_HEADROOM_MIB,
    decreases nodes.len(),
{
    if nodes.len() > 0 {
        lemma_gpu_splits_bounded(nodes.drop_last());
        let n = nodes.last();
        if counted(n) {
            lemma_device_entries_bounded(n.entry.name@, n.stats->0.devices@);
        }
        assert forall|i: int| 0 <= i < gpu_splits(nodes).len() implies gpu_splits(nodes)[i] <= u64::MAX
            - GPU_HEADROOM_MIB by {
            let a = gpu_entries(nodes.drop_last());
            if i < a.len() {
                assert(gpu_entries(nodes)[i] == a[i]);
                assert(gpu_splits(nodes.drop_last())[i] == a[i].1);
            } else {
                assert(gpu_entries(nodes)[i] == node_entries(n)[i - a.len()]);
            }
        }
    }
}

/// Every usable GPU's share leaves room for rounding to GiB.
pub proof fn lemma_device_entries_bounded(node: Seq<char>, ds: Seq<DeviceStats>)
    ensures
        forall|i: int|
            0 <= i < device_entries(node, ds).len() ==> device_entries(node, ds)[i].1 <= u64::MAX
                - GPU_HEADROOM_MIB,
    decreases ds.len(),
{
    if ds.len() > 0 {
        lemma_device_entries_bounded(node, ds.drop_last());
        assert forall|i: int| 0 <= i < device_entries(node, ds).len() implies device_entries(
            node,
            ds,
        )[i].1 <= u64::MAX - GPU_HEADROOM_MIB by {
            let a = device_entries(node, ds.drop_last());
            if i < a.len() {
                assert(device_entries(node, ds)[i] == a[i]);
            }
        }
    }
}

/// Appends the decimal spelling of `n` to `s`.
fn append_number(s: &mut String, n: u64)
    ensures
        final(s)@ == old(s)@ + decimal(n as nat),
{
    let d = decimal_string(n);
    s.append(d.as_str());
}

/// The closing phrase of every verdict.
fn suffix_text(roomiest: &Option<(String, u64)>) -> (s: String)
    ensures
        s@ == (match roomiest_view(*roomiest) {
            Some((name, mib)) => " — roomiest GPU "@ + name + " "@ + decimal(mib as nat) + " MiB"@,
            None => " — no reliable GPU detected"@,
        }),
{
    match roomiest {
        Some((name, mib)) => {
            let mut s = owned(" — roomiest GPU ");
            s.append(name.as_str());
            s.append(" ");
            append_number(&mut s, *mib);
            s.append(" MiB");
            s
        },
        None => owned(" — no reliable GPU detected"),
    }
}

/// A shared bound used for the tier-3 share.
proof fn lemma_share_bound(total: u64, n_layers: u32, rl: u32, pl: u64)
    requires
        pl == (if total / (if n_layers >= 1 { n_layers as u64 } else { 1u64 }) >= 1 {
            total / (if n_layers >= 1 { n_layers as u64 } else { 1u64 })
        } else {
            1u64
        }),
        1 <= rl,
        rl <= (if n_layers >= 1 { n_layers as int } else { 1 }),
        total as int + total as int / 10 <= u64::MAX,
    ensures
        rl as int * pl as int <= u64::MAX - 512,
{
    let nl: u64 = if n_layers >= 1 { n_layers as u64 } else { 1 };
    if total / nl >= 1 {
        assert(rl as int * (total / nl) as int <= nl as int * (total / nl) as int) by (nonlinear_arith)
            requires rl as int <= nl as int, total / nl >= 1;
        assert(nl as int * (total / nl) as int <= total as int) by (nonlinear_arith)
            requires nl >= 1;
    } else {
        assert(rl as int <= u32::MAX as int);
    }
}

fn fits_detail(headroom: u64, pool: u64, hc: u64, suffix: &str) -> (d: String)
    ensures
        d@ == fits_text(headroom as nat, pool as nat, hc as nat, suffix@),
{
    let mut d = owned("fits — ~");
    append_number(&mut d, headroom);
    d.append(" MiB headroom on ");
    append_number(&mut d, pool);
    d.append(" MiB GPU + ");
    append_number(&mut d, hc);
    d.append(" MiB host CPU");
    d.append(suffix);
    assert(d@ =~= fits_text(headroom as nat, pool as nat, hc as nat, suffix@));
    d
}

fn tight_detail(required: u64, primary: u64, pool: u64, hc: u64, suffix: &str) -> (d: String)
    ensures
        d@ == tight_text(required as nat, primary as nat, pool as nat, hc as nat, suffix@),
{
    let mut d = owned("tight — needs ");
    append_number(&mut d, required);
    d.append(" MiB; GPU + host CPU is ");
    append_number(&mut d, primary);
    d.append(" MiB (");
    append_number(&mut d, pool);
    d.append(" GPU + ");
    append_number(&mut d, hc);
    d.append(" host CPU)");
    d.append(suffix);
    assert(d@ =~= tight_text(required as nat, primary as nat, pool as nat, hc as nat, suffix@));
    d
}

fn moe_spill_detail(over: u64, suffix: &str) -> (d: String)
    ensures
        d@ == moe_spill_text(over as nat, suffix@),
{
    let mut d = owned(
        "tight — overflow needs CPU-node spillover, but MoE experts can't be auto-routed to a remote CPU (+",
    );
    append_number(&mut d, over);
    d.append(" MiB); use a smaller quant or add host RAM");
    d.append(suffix);
    assert(d@ =~= moe_spill_text(over as nat, suffix@));
    d
}

fn dense_spill_detail(layers: u64, spill: u64, pool: u64, hc: u64, remote: u64, suffix: &str) -> (d:
    String)
    ensures
        d@ == dense_spill_text(
            layers as nat,
            spill as nat,
            pool as nat,
            hc as nat,
            remote as nat,
            suffix@,
        ),
{
    let mut d = owned("tight — ");
    append_number(&mut d, layers);
    d.append(" layers (+");
    append_number(&mut d, spill);
    d.append(" MiB) spill to CPU node(s) via RPC (slow last resort); ");
    append_number(&mut d, pool);
    d.append(" GPU + ");
    append_number(&mut d, hc);
    d.append(" host CPU + ");
    append_number(&mut d, remote);
    d.append(" remote CPU");
    d.append(suffix);
    assert(d@ =~= dense_spill_text(
        layers as nat,
        spill as nat,
        pool as nat,
        hc as nat,
        remote as nat,
        suffix@,
    ));
    d
}

fn wont_fit_detail(required: u64, all: u64, suffix: &str) -> (d: String)
    ensures
        d@ == wont_fit_text(required as nat, all as nat, suffix@),
{
    let mut d = owned("won't fit — needs ");
    append_number(&mut d, required);
    d.append(" MiB but GPU + host + CPU nodes is only ");
    append_number(&mut d, all);
    d.append(" MiB; use a smaller quant");
    d.append(suffix);
    assert(d@ =~= wont_fit_text(required as nat, all as nat, suffix@));
    d
}

/// Tier 2 for the host found by `find_host`.
fn host_cpu_of(nodes: &Vec<NodeSnapshot>, host: Option<usize>) -> (h: u64)
    requires
        host matches Some(k) ==> k as int == host_index(nodes@) && k < nodes@.len(),
        host is None ==> host_index(nodes@) == -1,
        host_stats(nodes@) matches Some(s) ==> CPU_HEADROOM_MIB + host_unified(s) <= u64::MAX,
    ensures
        h == host_cpu(nodes@),
{
    if let Some(k) = host {
        if let Some(s) = &nodes[k].stats {
            let u = unified_free(s);
            let reserve = CPU_HEADROOM_MIB + u;
            return if s.ram_free_mib >= reserve {
                s.ram_free_mib - reserve
            } else {
                0
            };
        }
    }
    0
}

/// MiB per layer.
fn per_layer_of(meta: &ModelMeta) -> (pl: u64)
    ensures
        pl == per_layer(*meta),
        pl >= 1,
{
    let nl: u64 = if meta.n_layers >= 1 {
        meta.n_layers as u64
    } else {
        1
    };
    let q = meta.total_mib / nl;
    if q >= 1 {
        q
    } else {
        1
    }
}

/// Layer packing for tiers 1-2: `-ngl`, `--n-cpu-moe` and `--no-mmap`.
fn pack_layers(meta: &ModelMeta, pool: u64, pl: u64) -> (r: (u32, Option<String>, bool))
    requires
        pl == per_layer(*meta),
        pl >= 1,
        meta.is_moe ==> meta.total_mib + meta.total_mib / 10 <= u64::MAX,
        !meta.is_moe ==> pool * 10 <= u64::MAX,
    ensures
        r.0 == packed_ngl(*meta, pool),
        crate::cluster::opt_string_view(r.1) == plan_cpu_moe(*meta, pool),
        r.2 == (meta.is_moe && moe_shortfall(*meta, pool) != 0),
{
    if meta.is_moe {
        let need = meta.total_mib + meta.total_mib / 10;
        let shortfall = if need >= pool {
            need - pool
        } else {
            0
        };
        if shortfall == 0 {
            (meta.n_layers, Some(owned("off")), false)
        } else {
            let whole = shortfall / pl;
            let c: u64 = if shortfall % pl != 0 {
                assert(whole < u64::MAX) by (nonlinear_arith)
                    requires
                        whole == shortfall / pl,
                        pl >= 1,
                        shortfall % pl != 0,
                ;
                whole + 1
            } else {
                whole
            };
            let n: u64 = if c <= meta.n_layers as u64 {
                c
            } else {
                meta.n_layers as u64
            };
            let s = if n >= meta.n_layers as u64 {
                owned("all")
            } else {
                decimal_string(n)
            };
            (meta.n_layers, Some(s), true)
        }
    } else {
        let fit: u32 = (pool * 10 / 11 / pl) as u32;
        let ngl = if fit <= meta.n_layers {
            fit
        } else {
            meta.n_layers
        };
        (ngl, None, false)
    }
}

/// The host hint for the host found by `find_host`.
fn host_hint_of(nodes: &Vec<NodeSnapshot>, host: Option<usize>, roomiest: &Option<(String, u64)>) -> (r:
    Option<String>)
    requires
        host matches Some(k) ==> k as int == host_index(nodes@) && k < nodes@.len(),
        host is None ==> host_index(nodes@) == -1,
        roomiest_view(*roomiest) == roomiest_of(gpu_entries(nodes@)),
    ensures
        crate::cluster::opt_string_view(r) == plan_host_hint(nodes@),
{
    if let Some(k) = host {
        if let Some(s) = &nodes[k].stats {
            let mut hint = String::new();
            if any_gpu(s) {
                hint.append("run llama-server on '");
                hint.append(s.name.as_str());
                hint.append("' (the host) — ");
                append_number(&mut hint, s.ram_free_mib);
                hint.append(" MiB free RAM + local GPU");
                assert(hint@ =~= gpu_host_text(s.name@, s.ram_free_mib));
            } else {
                hint.append("host '");
                hint.append(s.name.as_str());
                hint.append("' has no GPU — run llama-server on a GPU node (");
                match roomiest {
                    Some((name, _)) => hint.append(name.as_str()),
                    None => hint.append("a GPU node"),
                }
                hint.append(") for GPU acceleration");
                assert(hint@ =~= cpu_host_text(
                    s.name@,
                    match roomiest_of(gpu_entries(nodes@)) {
                        Some((name, _)) => name,
                        None => "a GPU node"@,
                    },
                ));
            }
            return Some(hint);
        }
    }
    None
}

/// A tier-3 dense spill: the layers sent to the CPU nodes, each node's split share, and
/// the raised `-ngl`.
fn dense_spill(meta: &ModelMeta, pl: u64, gpu_layers: u32, hc: u64, n_eps: usize) -> (r: (u32, u64, u32))
    requires
        pl == per_layer(*meta),
        pl >= 1,
        meta.total_mib as int + meta.total_mib as int / 10 <= u64::MAX,
    ensures
        r.0 as int == {
            let rest = sat_add32(gpu_layers, (hc / pl) as u32);
            if meta.n_layers > rest && meta.n_layers - rest >= 1 {
                meta.n_layers - rest
            } else {
                1
            }
        },
        r.0 as int * pl as int <= u64::MAX - 512,
        r.1 as int == (r.0 as int * pl as int) / (if n_eps >= 1 {
            n_eps as int
        } else {
            1
        }),
        r.1 <= u64::MAX - 512,
        r.2 == (if sat_add32(gpu_layers, r.0) <= meta.n_layers {
            sat_add32(gpu_layers, r.0)
        } else {
            meta.n_layers
        }),
{
    let host_cpu_layers = (hc / pl) as u32;
    let rest = gpu_layers.saturating_add(host_cpu_layers);
    let rl: u32 = if meta.n_layers > rest && meta.n_layers - rest >= 1 {
        meta.n_layers - rest
    } else {
        1
    };
    proof {
        lemma_share_bound(meta.total_mib, meta.n_layers, rl, pl);
    }
    let n_cpu: u64 = if n_eps >= 1 {
        n_eps as u64
    } else {
        1
    };
    let share = rl as u64 * pl / n_cpu;
    assert(share <= rl as int * pl as int) by (nonlinear_arith)
        requires
            share as int == (rl as int * pl as int) / n_cpu as int,
            n_cpu >= 1,
            rl as int * pl as int >= 0,
    ;
    let raised = gpu_layers.saturating_add(rl);
    let ngl = if raised <= meta.n_layers {
        raised
    } else {
        meta.n_layers
    };
    (rl, share, ngl)
}

/// Heuristic launch planner. Never trusts a device flagged `reliable == false`
/// (e.g. the Vulkan overflow); reserves per-tier headroom; sizes `-ngl` to the real
/// reliable GPU pool and gives the fit verdict against GPU + host CPU memory, engaging
/// CPU-only nodes over RPC only when a dense model overflows both.
#[verifier::rlimit(40)]
pub fn suggest_plan(cluster: &ClusterStatus, meta: &ModelMeta, ctx: u32) -> (p: Plan)
    requires
        plan_in_range(cluster.nodes@, *meta, ctx),
    ensures
        p.ngl == plan_ngl(cluster.nodes@, *meta, ctx),
        crate::cluster::opt_string_view(p.tensor_split) == spec_ratio(
            plan_splits(cluster.nodes@, *meta, ctx),
        ),
        crate::cluster::opt_string_view(p.cpu_moe) == plan_cpu_moe(
            *meta,
            gpu_pool(cluster.nodes@) as u64,
        ),
        string_views(p.exclude_notes@) == exclude_notes(cluster.nodes@),
        p.fit.fit == outcome_fit(outcome(cluster.nodes@, *meta, ctx)),
        p.fit.detail@ == plan_detail(cluster.nodes@, *meta, ctx),
        p.gpu_pool_mib == gpu_pool(cluster.nodes@),
        p.cpu_pool_mib == host_cpu(cluster.nodes@),
        p.warnings@.len() == 0,
        crate::cluster::opt_string_view(p.flash_attn) == Some("on"@),
        p.no_mmap == plan_no_mmap(cluster.nodes@, *meta, ctx),
        crate::cluster::opt_string_view(p.host_hint) == plan_host_hint(cluster.nodes@),
        p.remote_cpu_pool_mib == remote_cpu(cluster.nodes@),
        string_views(p.rpc_cpu_nodes@) == plan_rpc_cpu_nodes(cluster.nodes@, *meta, ctx),
{
    let nodes = &cluster.nodes;
    let ghost ns = nodes@;
    let host = find_host(nodes);
    let tier = scan_gpus(nodes);
    let pool = tier.pool;
    proof {
        lemma_gpu_splits_bounded(ns);
    }
    let hc = host_cpu_of(nodes, host);
    let (remote, cpu_eps) = scan_cpu_nodes(nodes, host);
    let pl = per_layer_of(meta);
    let (packed, cpu_moe, packed_no_mmap) = pack_layers(meta, pool, pl);
    let mut splits: Vec<u64> = tier.splits;
    let mut ngl = packed;
    let mut no_mmap = packed_no_mmap;

    let kv = kv_mib(meta.n_layers, ctx);
    let required = meta.total_mib + kv;
    let primary = pool + hc;
    let suffix = suffix_text(&tier.roomiest);
    let mut rpc_cpu_nodes: Vec<String> = Vec::new();
    let fit: Fit;
    let detail: String;
    if required + required / 10 <= primary {
        fit = Fit::Fits;
        detail = fits_detail(primary - required, pool, hc, suffix.as_str());
    } else if required <= primary {
        fit = Fit::Tight;
        detail = tight_detail(required, primary, pool, hc, suffix.as_str());
    } else if required <= primary + remote {
        fit = Fit::Tight;
        if meta.is_moe {
            // MoE experts spill to host CPU via --n-cpu-moe, which can't target a remote
            // CPU device, so a MoE that overflows GPU + host is reported, not auto-wired.
            detail = moe_spill_detail(required - primary, suffix.as_str());
        } else {
            // Dense: route the overflow onto the CPU node(s) over RPC. Host CPU (tier 2)
            // fills first; only the remainder becomes remote-CPU (tier 3) layers.
            let n_eps = cpu_eps.len();
            let (rl, share, raised) = dense_spill(meta, pl, packed, hc, n_eps);
            let ghost base = splits@;
            let mut k: usize = 0;
            while k < n_eps
                invariant
                    k <= n_eps,
                    splits@ == base + Seq::new(k as nat, |i: int| share),
                decreases n_eps - k,
            {
                splits.push(share);
                k = k + 1;
                assert(splits@ =~= base + Seq::new(k as nat, |i: int| share));
            }
            rpc_cpu_nodes = cpu_eps;
            ngl = raised;
            no_mmap = true;
            detail = dense_spill_detail(rl as u64, rl as u64 * pl, pool, hc, remote, suffix.as_str());
        }
    } else {
        fit = Fit::WontFit;
        detail = wont_fit_detail(required, primary + remote, suffix.as_str());
    }
    assert(splits@ =~= plan_splits(ns, *meta, ctx));
    assert forall|i: int| 0 <= i < splits@.len() implies splits@[i] <= u64::MAX - 512 by {
        if i < gpu_splits(ns).len() {
            assert(splits@[i] == gpu_splits(ns)[i]);
        }
    }
    let tensor_split = ratio_string(&splits);
    let host_hint = host_hint_of(nodes, host, &tier.roomiest);
    assert(string_views(rpc_cpu_nodes@) =~= plan_rpc_cpu_nodes(ns, *meta, ctx));
    Plan {
        ngl,
        tensor_split,
        cpu_moe,
        exclude_notes: tier.notes,
        fit: FitVerdict { fit, detail },
        gpu_pool_mib: pool,
        cpu_pool_mib: hc,
        remote_cpu_pool_mib: remote,
        rpc_cpu_nodes,
        warnings: Vec::new(),
        flash_attn: Some(owned("on")),
        no_mmap,
        host_hint,
    }
}

// ---------------------------------------------------------------------------
// Laws of the planner
// ---------------------------------------------------------------------------

/// `-ngl` never exceeds the model's layer count.
pub proof fn law_ngl_at_most_layers(nodes: Seq<NodeSnapshot>, meta: ModelMeta, ctx: u32)
    ensures
        plan_ngl(nodes, meta, ctx) <= meta.n_layers,
{
}

/// A MoE model keeps every layer's attention on the GPU (`-ngl` = layer count) and always
/// gets a `--n-cpu-moe` setting; a dense model never does.
pub proof fn law_moe_keeps_all_layers(nodes: Seq<NodeSnapshot>, meta: ModelMeta, ctx: u32)
    ensures
        meta.is_moe ==> plan_ngl(nodes, meta, ctx) == meta.n_layers,
        plan_cpu_moe(meta, gpu_pool(nodes) as u64) is Some <==> meta.is_moe,
{
}

/// When a MoE model is short on GPU memory it offloads between one and all of its
/// expert layers, never none.
pub proof fn law_moe_offload_nonzero(meta: ModelMeta, pool: u64)
    requires
        meta.is_moe,
        meta.n_layers >= 1,
        moe_shortfall(meta, pool) != 0,
    ensures
        1 <= moe_offload(meta, pool) <= meta.n_layers,
        plan_cpu_moe(meta, pool) != Some("off"@),
{
    let sf = moe_shortfall(meta, pool);
    let pl = per_layer(meta);
    assert(pl >= 1);
    if sf % pl == 0 {
        assert(sf / pl >= 1) by (nonlinear_arith)
            requires sf >= 1, pl >= 1, sf % pl == 0;
    } else {
        assert(sf / pl < u64::MAX) by (nonlinear_arith)
            requires pl >= 1, sf % pl != 0;
        assert(ceil_div(sf, pl) == sf / pl + 1);
    }
    assert(ceil_div(sf, pl) >= 1);
    if moe_offload(meta, pool) >= meta.n_layers as u64 {
        reveal_strlit("all");
        reveal_strlit("off");
        assert("all"@ != "off"@) by {
            assert("all"@[0] != "off"@[0]);
        }
    } else {
        reveal_strlit("off");
        let n = moe_offload(meta, pool) as nat;
        lemma_decimal_not_off(n);
    }
}

/// A number's spelling is never "off".
proof fn lemma_decimal_not_off(n: nat)
    ensures
        decimal(n) != "off"@,
{
    reveal_strlit("off");
    lemma_decimal_last_is_digit(n);
    if decimal(n) == "off"@ {
        assert(decimal(n).last() == 'f');
    }
}

/// The last character of a number's spelling is a digit.
proof fn lemma_decimal_last_is_digit(n: nat)
    ensures
        decimal(n).len() >= 1,
        crate::text::is_digit(decimal(n).last()),
    decreases n,
{
    if n >= 10 {
        lemma_decimal_last_is_digit(n / 10);
    }
}

/// CPU-only nodes are wired over RPC only for a dense model that overflows GPU + host
/// CPU but fits with the CPU nodes; the verdict is then "tight".
pub proof fn law_cpu_nodes_only_on_dense_overflow(nodes: Seq<NodeSnapshot>, meta: ModelMeta, ctx: u32)
    ensures
        plan_rpc_cpu_nodes(nodes, meta, ctx).len() > 0 ==> {
            &&& !meta.is_moe
            &&& required_mib(meta, ctx) > primary_mib(nodes)
            &&& required_mib(meta, ctx) <= primary_mib(nodes) + remote_cpu(nodes)
            &&& outcome_fit(outcome(nodes, meta, ctx)) == Fit::Tight
        },
{
}

/// The verdict is "fits" exactly when GPU + host CPU hold the need plus ~10%, and "won't
/// fit" exactly when all three tiers together hold less than the need.
pub proof fn law_fit_thresholds(nodes: Seq<NodeSnapshot>, meta: ModelMeta, ctx: u32)
    ensures
        (outcome_fit(outcome(nodes, meta, ctx)) == Fit::Fits) == (required_mib(meta, ctx)
            + required_mib(meta, ctx) / 10 <= primary_mib(nodes)),
        (outcome_fit(outcome(nodes, meta, ctx)) == Fit::WontFit) == (required_mib(meta, ctx)
            > primary_mib(nodes) + remote_cpu(nodes)),
{
    lemma_remote_cpu_monotone(nodes, host_index(nodes), 0, nodes.len() as int);
}

/// A device with an unreliable reading adds nothing to the GPU pool, the split or the
/// roomiest-GPU choice; it only earns an exclusion note.
pub proof fn law_unreliable_device_ignored(node: Seq<char>, ds: Seq<DeviceStats>, d: DeviceStats)
    requires
        !d.reliable,
    ensures
        seq_sum(ds.push(d), |x: DeviceStats| device_pool_term(x)) == seq_sum(
            ds,
            |x: DeviceStats| device_pool_term(x),
        ),
        device_entries(node, ds.push(d)) == device_entries(node, ds),
        device_notes(node, ds.push(d)) == device_notes(node, ds).push(exclude_note(node, d)),
{
    assert(ds.push(d).drop_last() =~= ds);
    assert(device_entries(node, ds.push(d)) =~= device_entries(node, ds));
}

/// A CPU-only node adds nothing to the GPU pool, and the host is never a CPU-only node.
pub proof fn law_cpu_nodes_outside_gpu_pool(nodes: Seq<NodeSnapshot>, i: int)
    requires
        0 <= i < nodes.len(),
    ensures
        is_cpu_node(nodes, host_index(nodes), i) ==> node_gpu_pool(nodes[i]) == 0,
        !is_cpu_node(nodes, host_index(nodes), host_index(nodes)),
{
    if is_cpu_node(nodes, host_index(nodes), i) {
        let ds = nodes[i].stats->0.devices@;
        lemma_no_gpu_sum_zero(ds);
    }
}

/// Devices without a usable GPU sum to an empty pool.
proof fn lemma_no_gpu_sum_zero(ds: Seq<DeviceStats>)
    requires
        forall|k: int| 0 <= k < ds.len() ==> !gpu_ok(#[trigger] ds[k]),
    ensures
        seq_sum(ds, |x: DeviceStats| device_pool_term(x)) == 0,
    decreases ds.len(),
{
    if ds.len() > 0 {
        let t = ds.drop_last();
        assert forall|k: int| 0 <= k < t.len() implies !gpu_ok(#[trigger] t[k]) by {
            assert(t[k] == ds[k]);
        }
        lemma_no_gpu_sum_zero(t);
    }
}

/// The GPU shares that feed `--tensor-split` add up to the GPU pool.
pub proof fn law_splits_sum_to_pool(nodes: Seq<NodeSnapshot>)
    ensures
        seq_sum(gpu_splits(nodes), |x: u64| x as int) == gpu_pool(nodes),
    decreases nodes.len(),
{
    lemma_entries_sum_map(gpu_entries(nodes));
    lemma_entries_sum_pool(nodes);
}

/// The sum of the usable MiB of some GPU entries.
pub open spec fn entries_sum(es: Seq<(Seq<char>, u64)>) -> int {
    seq_sum(es, |e: (Seq<char>, u64)| e.1 as int)
}

/// Summing the shares equals summing the entries.
proof fn lemma_entries_sum_map(es: Seq<(Seq<char>, u64)>)
    ensures
        seq_sum(es.map_values(|e: (Seq<char>, u64)| e.1), |x: u64| x as int) == entries_sum(es),
    decreases es.len(),
{
    if es.len() > 0 {
        lemma_entries_sum_map(es.drop_last());
        assert(es.map_values(|e: (Seq<char>, u64)| e.1).drop_last() =~= es.drop_last().map_values(
            |e: (Seq<char>, u64)| e.1,
        ));
    }
}

/// The entry sum of a concatenation.
proof fn lemma_entries_sum_concat(a: Seq<(Seq<char>, u64)>, b: Seq<(Seq<char>, u64)>)
    ensures
        entries_sum(a + b) == entries_sum(a) + entries_sum(b),
    decreases b.len(),
{
    if b.len() == 0 {
        assert(a + b =~= a);
    } else {
        lemma_entries_sum_concat(a, b.drop_last());
        assert((a + b).drop_last() =~= a + b.drop_last());
    }
}

/// The usable GPUs of a device list sum to its pool.
proof fn lemma_device_entries_sum(node: Seq<char>, ds: Seq<DeviceStats>)
    ensures
        entries_sum(device_entries(node, ds)) == seq_sum(ds, |d: DeviceStats| device_pool_term(d)),
    decreases ds.len(),
{
    if ds.len() > 0 {
        lemma_device_entries_sum(node, ds.drop_last());
        let tail = if gpu_ok(ds.last()) {
            seq![gpu_entry(node, ds.last())]
        } else {
            Seq::empty()
        };
        lemma_entries_sum_concat(device_entries(node, ds.drop_last()), tail);
        if gpu_ok(ds.last()) {
            assert(tail.drop_last() =~= Seq::<(Seq<char>, u64)>::empty());
            assert(entries_sum(tail.drop_last()) == 0);
            assert(entries_sum(tail) == usable(ds.last()) as int);
        } else {
            assert(entries_sum(tail) == 0);
        }
        assert(seq_sum(ds, |d: DeviceStats| device_pool_term(d)) == seq_sum(
            ds.drop_last(),
            |d: DeviceStats| device_pool_term(d),
        ) + device_pool_term(ds.last()));
    }
}

/// The usable GPUs of the cluster sum to the GPU pool.
proof fn lemma_entries_sum_pool(nodes: Seq<NodeSnapshot>)
    ensures
        entries_sum(gpu_entries(nodes)) == gpu_pool(nodes),
    decreases nodes.len(),
{
    if nodes.len() > 0 {
        lemma_entries_sum_pool(nodes.drop_last());
        let n = nodes.last();
        lemma_entries_sum_concat(gpu_entries(nodes.drop_last()), node_entries(n));
        if counted(n) {
            lemma_device_entries_sum(n.entry.name@, n.stats->0.devices@);
        }
    }
}

/// The roomiest GPU is one of the GPUs it was chosen from.
proof fn lemma_roomiest_listed(es: Seq<(Seq<char>, u64)>)
    ensures
        roomiest_of(es) matches Some(e) ==> es.contains(e),
    decreases es.len(),
{
    if es.len() > 0 {
        let t = es.drop_last();
        lemma_roomiest_listed(t);
        if let Some(b) = roomiest_of(t) {
            let k = choose|k: int| 0 <= k < t.len() && t[k] == b;
            assert(es[k] == t[k]);
        }
        assert(es[es.len() - 1] == es.last());
    }
}

/// Where to run llama-server: a hint exactly when there is a host node; a host with a GPU
/// is confirmed by name; a host without one is pointed at the roomiest usable GPU, which is
/// always a listed, reliable GPU, never a node without one.
pub proof fn law_host_hint_points_at_gpus(nodes: Seq<NodeSnapshot>)
    ensures
        plan_host_hint(nodes) is Some <==> host_stats(nodes) is Some,
        host_stats(nodes) matches Some(s) ==> (has_gpu(s) ==> plan_host_hint(nodes) == Some(
            gpu_host_text(s.name@, s.ram_free_mib),
        )),
        roomiest_of(gpu_entries(nodes)) matches Some(e) ==> gpu_entries(nodes).contains(e),
{
    lemma_roomiest_listed(gpu_entries(nodes));
}

/// The usable VRAM of one polled node, written out: free VRAM minus the 1024 MiB GPU
/// headroom (at least 0) of every reliable device with a non-zero total.
pub open spec fn usable_vram_of(n: NodeSnapshot) -> int {
    if counted(n) {
        seq_sum(
            n.stats->0.devices@,
            |d: DeviceStats|
                if d.reliable && d.vram_total_mib > 0 {
                    sat_sub(d.vram_free_mib, 1024) as int
                } else {
                    0
                },
        )
    } else {
        0
    }
}

/// The number of unreliable devices of one polled node.
pub open spec fn unreliable_count(n: NodeSnapshot) -> int {
    if counted(n) {
        seq_sum(n.stats->0.devices@, |d: DeviceStats| if !d.reliable { 1int } else { 0int })
    } else {
        0
    }
}

/// One note per unreliable device.
proof fn lemma_device_notes_len(node: Seq<char>, ds: Seq<DeviceStats>)
    ensures
        device_notes(node, ds).len() == seq_sum(ds, |d: DeviceStats| if !d.reliable { 1int } else { 0int }),
    decreases ds.len(),
{
    if ds.len() > 0 {
        lemma_device_notes_len(node, ds.drop_last());
    }
}

/// The GPU pool is the sum, over the reachable nodes with stats, of each reliable
/// device's free VRAM minus 1024 MiB (at least 0); devices with an unreliable reading or
/// no VRAM add nothing. There is exactly one exclusion note per unreliable device.
pub proof fn law_gpu_pool_and_notes(nodes: Seq<NodeSnapshot>)
    ensures
        gpu_pool(nodes) == seq_sum(nodes, |n: NodeSnapshot| usable_vram_of(n)),
        exclude_notes(nodes).len() == seq_sum(nodes, |n: NodeSnapshot| unreliable_count(n)),
    decreases nodes.len(),
{
    let f = |n: NodeSnapshot| node_gpu_pool(n);
    let g = |n: NodeSnapshot| usable_vram_of(n);
    assert forall|n: NodeSnapshot| #[trigger] f(n) == g(n) by {
        if counted(n) {
            let ds = n.stats->0.devices@;
            let a = |d: DeviceStats| device_pool_term(d);
            let b = |d: DeviceStats|
                if d.reliable && d.vram_total_mib > 0 {
                    sat_sub(d.vram_free_mib, 1024) as int
                } else {
                    0
                };
            assert forall|d: DeviceStats| #[trigger] a(d) <= b(d) && b(d) <= a(d) by {}
            lemma_seq_sum_le(ds, a, b);
            lemma_seq_sum_le(ds, b, a);
        }
    }
    lemma_seq_sum_le(nodes, f, g);
    lemma_seq_sum_le(nodes, g, f);
    if nodes.len() > 0 {
        law_gpu_pool_and_notes(nodes.drop_last());
        let n = nodes.last();
        if counted(n) {
            lemma_device_notes_len(n.entry.name@, n.stats->0.devices@);
        }
    }
}

/// Every character of a number's spelling is a digit.
proof fn lemma_decimal_all_digits(n: nat)
    ensures
        forall|i: int| 0 <= i < decimal(n).len() ==> crate::text::is_digit(#[trigger] decimal(n)[i]),
    decreases n,
{
    if n >= 10 {
        lemma_decimal_all_digits(n / 10);
        let d = decimal(n / 10);
        assert forall|i: int| 0 <= i < decimal(n).len() implies crate::text::is_digit(
            #[trigger] decimal(n)[i],
        ) by {
            if i < d.len() {
                assert(decimal(n)[i] == d[i]);
            }
        }
    }
}

/// The tensor-split ratio is absent exactly when every part is zero; otherwise splitting
/// it at ',' gives one piece per part, each the decimal of max(1, (part + 512) / 1024).
pub proof fn law_ratio_pieces(parts: Seq<u64>)
    ensures
        spec_ratio(parts) is None <==> all_zero(parts),
        spec_ratio(parts) matches Some(r) ==> {
            &&& split_on(r, ',').len() == parts.len()
            &&& forall|i: int|
                0 <= i < parts.len() ==> #[trigger] split_on(r, ',')[i] == decimal(
                    if (parts[i] + 512) / 1024 >= 1 {
                        ((parts[i] + 512) / 1024) as nat
                    } else {
                        1
                    },
                )
        },
{
    if !all_zero(parts) {
        reveal_strlit(",");
        let ds = parts.map_values(|p: u64| decimal(ratio_part(p)));
        assert(parts.len() >= 1);
        assert forall|i: int| 0 <= i < ds.len() implies !(#[trigger] ds[i]).contains(',') by {
            lemma_decimal_all_digits(ratio_part(parts[i]));
            if ds[i].contains(',') {
                let j = choose|j: int| 0 <= j < ds[i].len() && ds[i][j] == ',';
                assert(crate::text::is_digit(decimal(ratio_part(parts[i]))[j]));
            }
        }
        assert(","@ =~= seq![',']);
        crate::text::lemma_split_join(ds, ',');
    }
}

/// A sum of non-negative terms is at least each of its terms.
proof fn lemma_seq_sum_ge_term<A>(s: Seq<A>, f: spec_fn(A) -> int, k: int)
    requires
        0 <= k < s.len(),
        forall|x: A| #[trigger] f(x) >= 0,
    ensures
        seq_sum(s, f) >= f(s[k]),
    decreases s.len(),
{
    lemma_seq_sum_prefix(s.drop_last(), f, 0);
    if k < s.len() - 1 {
        lemma_seq_sum_ge_term(s.drop_last(), f, k);
        assert(s.drop_last()[k] == s[k]);
    } else {
        assert(s.take(0).len() == 0);
        assert(s[k] == s.last());
    }
}

/// A sum of terms that are all zero is zero.
proof fn lemma_seq_sum_all_zero<A>(s: Seq<A>, f: spec_fn(A) -> int)
    requires
        forall|k: int| 0 <= k < s.len() ==> f(#[trigger] s[k]) == 0,
    ensures
        seq_sum(s, f) == 0,
    decreases s.len(),
{
    if s.len() > 0 {
        let t = s.drop_last();
        assert forall|k: int| 0 <= k < t.len() implies f(#[trigger] t[k]) == 0 by {
            assert(t[k] == s[k]);
        }
        lemma_seq_sum_all_zero(t, f);
        assert(s[s.len() - 1] == s.last());
    }
}

/// Tier 2, the host's CPU memory, keeps the 2048 MiB CPU headroom and the memory its
/// Metal GPU carves out of RAM off the table: it never exceeds the host's free RAM minus
/// 2048 MiB; with a reliable Metal device of free VRAM v it is either 0 or leaves at
/// least 2048 + v of the host's free RAM untouched; with no reliable Metal device it is
/// exactly the free RAM minus 2048 (at least 0); without a host it is 0.
pub proof fn law_host_cpu_excludes_unified_memory(nodes: Seq<NodeSnapshot>)
    requires
        host_stats(nodes) matches Some(s) ==> CPU_HEADROOM_MIB + host_unified(s) <= u64::MAX,
    ensures
        host_stats(nodes) is None ==> host_cpu(nodes) == 0,
        host_stats(nodes) matches Some(s) ==> {
            &&& host_cpu(nodes) <= sat_sub(s.ram_free_mib, 2048)
            &&& forall|k: int|
                0 <= k < s.devices@.len() && (#[trigger] s.devices@[k]).reliable && s.devices@[k].kind
                    == DeviceKind::Metal ==> host_cpu(nodes) == 0 || host_cpu(nodes) + 2048
                    + s.devices@[k].vram_free_mib <= s.ram_free_mib
            &&& (forall|k: int|
                0 <= k < s.devices@.len() ==> !((#[trigger] s.devices@[k]).reliable && s.devices@[k].kind
                    == DeviceKind::Metal)) ==> host_cpu(nodes) == sat_sub(s.ram_free_mib, 2048)
        },
{
    if let Some(s) = host_stats(nodes) {
        let f = |d: DeviceStats|
            if d.reliable && d.kind == DeviceKind::Metal {
                d.vram_free_mib as int
            } else {
                0
            };
        lemma_seq_sum_prefix(s.devices@, f, 0);
        assert(s.devices@.take(0).len() == 0);
        assert(host_unified(s) >= 0);
        assert forall|k: int|
            0 <= k < s.devices@.len() && (#[trigger] s.devices@[k]).reliable && s.devices@[k].kind
                == DeviceKind::Metal implies host_cpu(nodes) == 0 || host_cpu(nodes) + 2048
            + s.devices@[k].vram_free_mib <= s.ram_free_mib by {
            lemma_seq_sum_ge_term(s.devices@, f, k);
        }
        if forall|k: int|
            0 <= k < s.devices@.len() ==> !((#[trigger] s.devices@[k]).reliable && s.devices@[k].kind
                == DeviceKind::Metal) {
            lemma_seq_sum_all_zero(s.devices@, f);
        }
    }
}

/// The roomiest GPU is a listed GPU with the most usable memory, and the earliest listed
/// one among equals.
pub proof fn law_roomiest_is_largest(es: Seq<(Seq<char>, u64)>)
    ensures
        es.len() == 0 <==> roomiest_of(es) is None,
        roomiest_of(es) matches Some(e) ==> {
            &&& forall|k: int| 0 <= k < es.len() ==> (#[trigger] es[k]).1 <= e.1
            &&& exists|j: int|
                0 <= j < es.len() && #[trigger] es[j] == e && forall|k: int| 0 <= k < j ==> (
                    #[trigger] es[k]).1 < e.1
        },
    decreases es.len(),
{
    if es.len() > 0 {
        let t = es.drop_last();
        law_roomiest_is_largest(t);
        let last = es.last();
        assert(es[es.len() - 1] == last);
        match roomiest_of(t) {
            None => {
                assert(t.len() == 0);
                assert(roomiest_of(es) == Some(last));
                assert(es[0] == last);
            },
            Some(b) => {
                let j = choose|j: int|
                    0 <= j < t.len() && #[trigger] t[j] == b && forall|k: int| 0 <= k < j ==> (
                        #[trigger] t[k]).1 < b.1;
                if last.1 > b.1 {
                    assert(roomiest_of(es) == Some(last));
                    assert forall|k: int| 0 <= k < es.len() implies (#[trigger] es[k]).1 <= last.1 by {
                        if k < t.len() {
                            assert(es[k] == t[k]);
                        }
                    }
                    assert forall|k: int| 0 <= k < es.len() - 1 implies (#[trigger] es[k]).1 < last.1 by {
                        assert(es[k] == t[k]);
                    }
                } else {
                    assert(roomiest_of(es) == Some(b));
                    assert forall|k: int| 0 <= k < es.len() implies (#[trigger] es[k]).1 <= b.1 by {
                        if k < t.len() {
                            assert(es[k] == t[k]);
                        }
                    }
                    assert(es[j] == t[j]);
                    assert forall|k: int| 0 <= k < j implies (#[trigger] es[k]).1 < b.1 by {
                        assert(es[k] == t[k]);
                    }
                }
            },
        }
    }
}

/// A tier-3 dense spill, when a dense model outgrows the GPUs plus the host's CPU but fits
/// with the CPU nodes. With the layer size pl (the model over its layer count, at least
/// 1 MiB), g GPU layers (those that fit in 10/11 of the GPU pool, at most all) and
/// h = host CPU / pl layers on the host's CPU (kept to the `u32` range as the launch
/// arguments are): the host's CPU is filled before the CPU
/// nodes, which get the remaining n - g - h layers (at least 1); `-ngl` covers the GPU
/// and remote layers (at most n); every CPU node is wired, and the split holds one share
/// per usable GPU followed by one per wired CPU node, each an even part of the remote
/// layers' size.
pub proof fn law_dense_spill_fills_host_cpu_first(nodes: Seq<NodeSnapshot>, meta: ModelMeta, ctx: u32)
    requires
        !meta.is_moe,
        required_mib(meta, ctx) > primary_mib(nodes),
        required_mib(meta, ctx) <= primary_mib(nodes) + remote_cpu(nodes),
        gpu_pool(nodes) <= u64::MAX,
    ensures
        ({
            let n = meta.n_layers as int;
            let nl: int = if n >= 1 { n } else { 1 };
            let pl: int = if meta.total_mib as int / nl >= 1 { meta.total_mib as int / nl } else { 1 };
            let fit = (((gpu_pool(nodes) * 10 / 11) / pl) as u32) as int;
            let g: int = if fit <= n { fit } else { n };
            let h: int = ((host_cpu(nodes) as int / pl) as u32) as int;
            let remote: int = if n > g + h { n - g - h } else { 1 };
            let cpus = cpu_node_endpoints(nodes).len() as int;
            let share = (remote * pl) / (if cpus >= 1 { cpus } else { 1 });
            &&& plan_ngl(nodes, meta, ctx) as int == (if g + remote <= n { g + remote } else { n })
            &&& plan_rpc_cpu_nodes(nodes, meta, ctx) == cpu_node_endpoints(nodes)
            &&& plan_splits(nodes, meta, ctx).len() == gpu_splits(nodes).len() + plan_rpc_cpu_nodes(
                nodes,
                meta,
                ctx,
            ).len()
            &&& plan_splits(nodes, meta, ctx).take(gpu_splits(nodes).len() as int) == gpu_splits(nodes)
            &&& forall|i: int|
                gpu_splits(nodes).len() <= i < plan_splits(nodes, meta, ctx).len() ==> #[trigger] plan_splits(
                    nodes,
                    meta,
                    ctx,
                )[i] == share
        }),
{
    let n = meta.n_layers as int;
    let nl: int = if n >= 1 { n } else { 1 };
    let pl = per_layer(meta);
    assert(pl as int == (if meta.total_mib as int / nl >= 1 { meta.total_mib as int / nl } else { 1 }));
    assert(outcome(nodes, meta, ctx) is TightDense);
    lemma_pool_terms_nonneg();
    lemma_seq_sum_prefix(nodes, |x: NodeSnapshot| node_gpu_pool(x), 0);
    assert(nodes.take(0).len() == 0);
    let pool = gpu_pool(nodes) as u64;
    assert(pool as int == gpu_pool(nodes));
    let fit = (((gpu_pool(nodes) * 10 / 11) / pl as int) as u32) as int;
    let g: int = if fit <= n { fit } else { n };
    assert(dense_ngl(meta, pool) as int == g);
    assert(packed_ngl(meta, pool) == dense_ngl(meta, pool));
    let h: int = ((host_cpu(nodes) as int / pl as int) as u32) as int;
    let remote: int = if n > g + h { n - g - h } else { 1 };
    let hl = (host_cpu(nodes) / per_layer(meta)) as u32;
    let gl = dense_ngl(meta, pool);
    let rest = sat_add32(gl, hl);
    assert(hl as int == h);
    if g + h <= u32::MAX {
        assert(rest as int == g + h);
    } else {
        assert(rest == u32::MAX);
    }
    assert(remote_layers(nodes, meta) as int == remote);
    assert(plan_ngl(nodes, meta, ctx) as int == (if g + remote <= n { g + remote } else { n }));
    let cpus = cpu_node_endpoints(nodes).len() as int;
    let ncpu: int = if cpus >= 1 { cpus } else { 1 };
    let pli = pl as int;
    assert(1 <= remote <= nl);
    assert(remote * pli <= u64::MAX) by (nonlinear_arith)
        requires
            1 <= remote <= nl,
            nl >= 1,
            pli == (if meta.total_mib as int / nl >= 1 { meta.total_mib as int / nl } else { 1 }),
            nl <= u32::MAX,
            meta.total_mib <= u64::MAX,
    {
        if meta.total_mib as int / nl >= 1 {
            assert(nl * (meta.total_mib as int / nl) <= meta.total_mib);
            assert(remote * pli <= nl * pli);
        } else {
            assert(remote * pli <= u32::MAX);
        }
    }
    assert((remote * pli) / ncpu <= u64::MAX) by (nonlinear_arith)
        requires
            remote * pli <= u64::MAX,
            remote * pli >= 0,
            ncpu >= 1,
    ;
    assert(remote_share(nodes, meta) as int == (remote * pli) / ncpu);
    let gs = gpu_splits(nodes);
    let ps = plan_splits(nodes, meta, ctx);
    assert(ps.take(gs.len() as int) =~= gs);
}

/// The node chosen to run llama-server: the first reachable node with stats whose role is
/// Host; when there is none, the first reachable node; when no node is reachable, none.
pub proof fn law_host_choice(nodes: Seq<NodeSnapshot>)
    ensures
        ({
            let h = host_index(nodes);
            let some_host = exists|i: int|
                0 <= i < nodes.len() && (#[trigger] nodes[i]).reachable && nodes[i].stats is Some
                    && nodes[i].stats->0.role == Role::Host;
            &&& -1 <= h < nodes.len()
            &&& h == -1 <==> (forall|i: int| 0 <= i < nodes.len() ==> !(#[trigger] nodes[i]).reachable)
            &&& h >= 0 ==> nodes[h].reachable
            &&& some_host ==> (h >= 0 && nodes[h].stats is Some && nodes[h].stats->0.role == Role::Host
                && forall|i: int|
                0 <= i < h ==> !((#[trigger] nodes[i]).reachable && nodes[i].stats is Some
                    && nodes[i].stats->0.role == Role::Host))
            &&& !some_host ==> forall|i: int| 0 <= i < h ==> !(#[trigger] nodes[i]).reachable
        }),
{
    let ph = |n: NodeSnapshot| is_host_node(n);
    let pr = |n: NodeSnapshot| n.reachable;
    lemma_first_where(nodes, ph);
    lemma_first_where(nodes, pr);
    let some_host = exists|i: int|
        0 <= i < nodes.len() && (#[trigger] nodes[i]).reachable && nodes[i].stats is Some
            && nodes[i].stats->0.role == Role::Host;
    if some_host {
        let i = choose|i: int|
            0 <= i < nodes.len() && (#[trigger] nodes[i]).reachable && nodes[i].stats is Some
                && nodes[i].stats->0.role == Role::Host;
        assert(ph(nodes[i]));
    } else {
        assert forall|i: int| 0 <= i < nodes.len() implies !ph(#[trigger] nodes[i]) by {}
    }
    if first_where(nodes, pr) < 0 {
        assert forall|i: int| 0 <= i < nodes.len() implies !(#[trigger] nodes[i]).reachable by {
            assert(!pr(nodes[i]));
        }
    }
    if first_where(nodes, ph) >= 0 {
        assert(ph(nodes[first_where(nodes, ph)]));
    }
    if (forall|i: int| 0 <= i < nodes.len() ==> !(#[trigger] nodes[i]).reachable) {
        if first_where(nodes, ph) >= 0 {
            assert(ph(nodes[first_where(nodes, ph)]));
        }
        if first_where(nodes, pr) >= 0 {
            assert(pr(nodes[first_where(nodes, pr)]));
        }
    }
}

/// The MoE expert offload is the fewest whole layers that cover the GPU shortfall, at
/// most every layer: when it is below the layer count, that many layers hold the
/// shortfall and one fewer would not.
pub proof fn law_moe_offload_covers_shortfall(meta: ModelMeta, pool: u64)
    requires
        meta.total_mib + meta.total_mib / 10 <= u64::MAX,
    ensures
        ({
            let nl: int = if meta.n_layers >= 1 { meta.n_layers as int } else { 1 };
            let pl: int = if meta.total_mib as int / nl >= 1 { meta.total_mib as int / nl } else { 1 };
            let need = meta.total_mib as int + meta.total_mib as int / 10;
            let short: int = if need > pool { need - pool } else { 0 };
            let off = moe_offload(meta, pool) as int;
            &&& off <= meta.n_layers
            &&& off < meta.n_layers ==> off * pl >= short && (off == 0 || (off - 1) * pl < short)
        }),
{
    let nl: int = if meta.n_layers >= 1 { meta.n_layers as int } else { 1 };
    let pl = per_layer(meta) as int;
    let sf = moe_shortfall(meta, pool) as int;
    let c = ceil_div(moe_shortfall(meta, pool), per_layer(meta)) as int;
    assert(pl >= 1);
    let a = moe_shortfall(meta, pool);
    let b = per_layer(meta);
    assert(a % b == sf % pl);
    assert(a / b == sf / pl);
    if a % b != 0 {
        if a == 0 {
            assert(a % b == 0) by (nonlinear_arith)
                requires
                    a == 0,
                    b >= 1,
            ;
        }
        assert(b >= 2);
        assert(a / b < a) by (nonlinear_arith)
            requires
                b >= 2,
                a >= 1,
        ;
    }
    assert(c * pl >= sf && (c == 0 || (c - 1) * pl < sf)) by (nonlinear_arith)
        requires
            pl >= 1,
            sf >= 0,
            c == (if sf % pl != 0 { sf / pl + 1 } else { sf / pl }),
    ;
}

/// The KV-cache estimate is an eighth of a MiB per layer per 1024 context tokens, rounded
/// down: 8192 times it never exceeds layers times context, and one more would.
pub proof fn law_kv_estimate(n_layers: u32, ctx: u32)
    ensures
        (spec_kv_mib(n_layers, ctx) as int) * 8192 <= (n_layers as int) * (ctx as int),
        (n_layers as int) * (ctx as int) < ((spec_kv_mib(n_layers, ctx) as int) + 1) * 8192,
{
    let p = n_layers as int * ctx as int;
    assert(0 <= p <= u32::MAX as int * u32::MAX as int) by (nonlinear_arith)
        requires
            p == n_layers as int * ctx as int,
    ;
    assert(p / 8192 <= u64::MAX);
    assert((p / 8192) * 8192 <= p < (p / 8192 + 1) * 8192) by (nonlinear_arith)
        requires
            p >= 0,
    ;
}

/// With no CPU-only workers among the first `k` nodes, they add nothing to tier 3.
proof fn lemma_remote_cpu_none(nodes: Seq<NodeSnapshot>, h: int, k: int)
    requires
        k <= nodes.len(),
        forall|i: int| 0 <= i < k ==> !#[trigger] is_cpu_node(nodes, h, i),
    ensures
        remote_cpu_upto(nodes, h, k) == 0,
    decreases k,
{
    if k > 0 {
        lemma_remote_cpu_none(nodes, h, k - 1);
    }
}

/// Tier 3 counts the free RAM, minus the 2048 MiB CPU headroom (at least 0), of every
/// reachable worker other than the host that reports stats and has no reliable GPU with
/// VRAM; it is 0 when there is no such worker.
pub proof fn law_remote_cpu_counts_cpu_only_workers(nodes: Seq<NodeSnapshot>)
    ensures
        forall|i: int|
            0 <= i < nodes.len() && (#[trigger] nodes[i]).reachable && i != host_index(nodes)
                && nodes[i].stats is Some && (forall|k: int|
                0 <= k < nodes[i].stats->0.devices@.len() ==> !(nodes[i].stats->0.devices@[k].reliable
                    && nodes[i].stats->0.devices@[k].vram_total_mib > 0)) ==> remote_cpu(nodes) >= sat_sub(
                nodes[i].stats->0.ram_free_mib,
                2048,
            ),
        (forall|i: int|
            0 <= i < nodes.len() && (#[trigger] nodes[i]).reachable && i != host_index(nodes)
                ==> nodes[i].stats is None || exists|k: int|
                0 <= k < nodes[i].stats->0.devices@.len() && nodes[i].stats->0.devices@[k].reliable
                    && nodes[i].stats->0.devices@[k].vram_total_mib > 0) ==> remote_cpu(nodes) == 0,
{
    let h = host_index(nodes);
    let n = nodes.len() as int;
    assert forall|i: int|
        0 <= i < nodes.len() && (#[trigger] nodes[i]).reachable && i != host_index(nodes)
            && nodes[i].stats is Some && (forall|k: int|
            0 <= k < nodes[i].stats->0.devices@.len() ==> !(nodes[i].stats->0.devices@[k].reliable
                && nodes[i].stats->0.devices@[k].vram_total_mib > 0)) implies remote_cpu(nodes) >= sat_sub(
        nodes[i].stats->0.ram_free_mib,
        2048,
    ) by {
        assert(!has_gpu(nodes[i].stats->0)) by {
            if has_gpu(nodes[i].stats->0) {
                let k = choose|k: int|
                    0 <= k < nodes[i].stats->0.devices@.len() && gpu_ok(
                        #[trigger] nodes[i].stats->0.devices@[k],
                    );
            }
        }
        assert(is_cpu_node(nodes, h, i));
        lemma_remote_cpu_monotone(nodes, h, i + 1, n);
        lemma_remote_cpu_monotone(nodes, h, 0, i);
        assert(remote_cpu_upto(nodes, h, i + 1) == remote_cpu_upto(nodes, h, i) + sat_sub(
            nodes[i].stats->0.ram_free_mib,
            CPU_HEADROOM_MIB,
        ) as int);
    }
    if (forall|i: int|
        0 <= i < nodes.len() && (#[trigger] nodes[i]).reachable && i != host_index(nodes)
            ==> nodes[i].stats is None || exists|k: int|
            0 <= k < nodes[i].stats->0.devices@.len() && nodes[i].stats->0.devices@[k].reliable
                && nodes[i].stats->0.devices@[k].vram_total_mib > 0) {
        assert forall|i: int| 0 <= i < n implies !#[trigger] is_cpu_node(nodes, h, i) by {
            if is_cpu_node(nodes, h, i) {
                assert(nodes[i].reachable && i != h);
                let k = choose|k: int|
                    0 <= k < nodes[i].stats->0.devices@.len() && nodes[i].stats->0.devices@[k].reliable
                        && nodes[i].stats->0.devices@[k].vram_total_mib > 0;
                assert(gpu_ok(nodes[i].stats->0.devices@[k]));
            }
        }
        lemma_remote_cpu_none(nodes, h, n);
    }
}

} // verus!
