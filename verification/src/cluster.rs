//! The cluster as the host sees it: polled nodes, memory totals and version checks.
use vstd::prelude::*;
use crate::model::{DeviceKind, DeviceStats, NodeStats};
use crate::text::{contains_seq, occurs_at, owned, same_text, string_views};

verus! {

/// A configured cluster member: a display name and the address its stats are polled at.
#[derive(PartialEq, Debug)]
pub struct NodeEntry {
    pub name: String,
    pub addr: String,
}

impl Clone for NodeEntry {
    fn clone(&self) -> (r: Self)
        ensures
            r == *self,
    {
        NodeEntry { name: self.name.clone(), addr: self.addr.clone() }
    }
}

/// The result of polling one node.
#[derive(Clone, PartialEq, Debug)]
pub struct NodeSnapshot {
    pub entry: NodeEntry,
    pub stats: Option<NodeStats>,
    pub reachable: bool,
    pub error: Option<String>,
}

/// Every polled node, plus warnings about the cluster as a whole.
#[derive(Clone, PartialEq, Debug)]
pub struct ClusterStatus {
    pub nodes: Vec<NodeSnapshot>,
    pub warnings: Vec<String>,
}

/// Aggregate cluster memory. `pool_*` de-duplicates unified memory: an Apple-Silicon
/// node's Metal VRAM is carved from its system RAM, so it is counted once (in RAM),
/// while a discrete GPU's VRAM (Cuda/Other) is a separate pool and is added on top.
#[derive(Clone, Copy, PartialEq, Eq, Debug, Structural)]
pub struct MemoryTotals {
    pub ram_total_mib: u64,
    pub ram_free_mib: u64,
    pub vram_total_mib: u64,
    pub vram_free_mib: u64,
    pub pool_total_mib: u64,
    pub pool_free_mib: u64,
}

impl Default for MemoryTotals {
    fn default() -> (t: Self)
        ensures
            t == (MemoryTotals {
                ram_total_mib: 0,
                ram_free_mib: 0,
                vram_total_mib: 0,
                vram_free_mib: 0,
                pool_total_mib: 0,
                pool_free_mib: 0,
            }),
    {
        MemoryTotals {
            ram_total_mib: 0,
            ram_free_mib: 0,
            vram_total_mib: 0,
            vram_free_mib: 0,
            pool_total_mib: 0,
            pool_free_mib: 0,
        }
    }
}

/// The `/cluster` response: the cluster status plus its computed totals.
#[derive(Clone, PartialEq, Debug)]
pub struct ClusterResponse {
    pub status: ClusterStatus,
    pub totals: MemoryTotals,
}

// ---------------------------------------------------------------------------
// Memory totals
// ---------------------------------------------------------------------------

/// The sum of `f` over `s`.
pub open spec fn seq_sum<A>(s: Seq<A>, f: spec_fn(A) -> int) -> int
    decreases s.len(),
{
    if s.len() == 0 {
        0
    } else {
        seq_sum(s.drop_last(), f) + f(s.last())
    }
}

/// A node counts toward the totals when it answered and reported stats.
pub open spec fn counted(n: NodeSnapshot) -> bool {
    n.reachable && n.stats is Some
}

/// A device's VRAM counts when its reading is reliable and it is not a CPU device.
pub open spec fn counts_as_vram(d: DeviceStats) -> bool {
    d.reliable && d.kind != DeviceKind::Cpu
}

/// Discrete VRAM (not Metal, whose memory is already inside RAM) joins the pool.
pub open spec fn counts_in_pool(d: DeviceStats) -> bool {
    counts_as_vram(d) && d.kind != DeviceKind::Metal
}

/// Total VRAM of the counted devices of one node.
pub open spec fn node_vram_total(n: NodeSnapshot) -> int {
    if counted(n) {
        seq_sum(
            n.stats->0.devices@,
            |d: DeviceStats|
                if counts_as_vram(d) {
                    d.vram_total_mib as int
                } else {
                    0
                },
        )
    } else {
        0
    }
}

/// Free VRAM of the counted devices of one node.
pub open spec fn node_vram_free(n: NodeSnapshot) -> int {
    if counted(n) {
        seq_sum(
            n.stats->0.devices@,
            |d: DeviceStats|
                if counts_as_vram(d) {
                    d.vram_free_mib as int
                } else {
                    0
                },
        )
    } else {
        0
    }
}

/// Total discrete VRAM of one node.
pub open spec fn node_discrete_total(n: NodeSnapshot) -> int {
    if counted(n) {
        seq_sum(
            n.stats->0.devices@,
            |d: DeviceStats|
                if counts_in_pool(d) {
                    d.vram_total_mib as int
                } else {
                    0
                },
        )
    } else {
        0
    }
}

/// Free discrete VRAM of one node.
pub open spec fn node_discrete_free(n: NodeSnapshot) -> int {
    if counted(n) {
        seq_sum(
            n.stats->0.devices@,
            |d: DeviceStats|
                if counts_in_pool(d) {
                    d.vram_free_mib as int
                } else {
                    0
                },
        )
    } else {
        0
    }
}

/// Total RAM of one node.
pub open spec fn node_ram_total(n: NodeSnapshot) -> int {
    if counted(n) {
        n.stats->0.ram_total_mib as int
    } else {
        0
    }
}

/// Free RAM of one node.
pub open spec fn node_ram_free(n: NodeSnapshot) -> int {
    if counted(n) {
        n.stats->0.ram_free_mib as int
    } else {
        0
    }
}

/// Sum of total RAM over the counted nodes.
pub open spec fn ram_total_of(nodes: Seq<NodeSnapshot>) -> int {
    seq_sum(nodes, |n: NodeSnapshot| node_ram_total(n))
}

/// Sum of free RAM over the counted nodes.
pub open spec fn ram_free_of(nodes: Seq<NodeSnapshot>) -> int {
    seq_sum(nodes, |n: NodeSnapshot| node_ram_free(n))
}

/// Sum of total VRAM over the counted devices of the counted nodes.
pub open spec fn vram_total_of(nodes: Seq<NodeSnapshot>) -> int {
    seq_sum(nodes, |n: NodeSnapshot| node_vram_total(n))
}

/// Sum of free VRAM over the counted devices of the counted nodes.
pub open spec fn vram_free_of(nodes: Seq<NodeSnapshot>) -> int {
    seq_sum(nodes, |n: NodeSnapshot| node_vram_free(n))
}

/// RAM plus discrete VRAM, total.
pub open spec fn pool_total_of(nodes: Seq<NodeSnapshot>) -> int {
    seq_sum(nodes, |n: NodeSnapshot| node_ram_total(n) + node_discrete_total(n))
}

/// RAM plus discrete VRAM, free.
pub open spec fn pool_free_of(nodes: Seq<NodeSnapshot>) -> int {
    seq_sum(nodes, |n: NodeSnapshot| node_ram_free(n) + node_discrete_free(n))
}

/// The totals fit their `u64` fields.
pub open spec fn totals_fit(nodes: Seq<NodeSnapshot>) -> bool {
    &&& vram_total_of(nodes) <= u64::MAX
    &&& vram_free_of(nodes) <= u64::MAX
    &&& pool_total_of(nodes) <= u64::MAX
    &&& pool_free_of(nodes) <= u64::MAX
}

/// The memory totals of a cluster.
pub open spec fn spec_totals(nodes: Seq<NodeSnapshot>) -> MemoryTotals {
    MemoryTotals {
        ram_total_mib: ram_total_of(nodes) as u64,
        ram_free_mib: ram_free_of(nodes) as u64,
        vram_total_mib: vram_total_of(nodes) as u64,
        vram_free_mib: vram_free_of(nodes) as u64,
        pool_total_mib: pool_total_of(nodes) as u64,
        pool_free_mib: pool_free_of(nodes) as u64,
    }
}

/// A sum of non-negative terms bounds the sum of any prefix.
pub proof fn lemma_seq_sum_prefix<A>(s: Seq<A>, f: spec_fn(A) -> int, i: int)
    requires
        0 <= i <= s.len(),
        forall|x: A| #[trigger] f(x) >= 0,
    ensures
        0 <= seq_sum(s.take(i), f) <= seq_sum(s, f),
    decreases s.len(),
{
    if i < s.len() {
        assert(s.drop_last().take(i) =~= s.take(i));
        lemma_seq_sum_prefix(s.drop_last(), f, i);
    } else {
        assert(s.take(i) =~= s);
    }
    if i == 0 {
        assert(s.take(i).len() == 0);
    } else {
        lemma_seq_sum_prefix(s.take(i).drop_last(), f, i - 1);
        assert(s.take(i).drop_last().take(i - 1) =~= s.take(i).drop_last());
    }
}

/// Pointwise smaller terms give a smaller sum.
pub proof fn lemma_seq_sum_le<A>(s: Seq<A>, f: spec_fn(A) -> int, g: spec_fn(A) -> int)
    requires
        forall|x: A| #[trigger] f(x) <= g(x),
    ensures
        seq_sum(s, f) <= seq_sum(s, g),
    decreases s.len(),
{
    if s.len() > 0 {
        lemma_seq_sum_le(s.drop_last(), f, g);
    }
}

/// Adding one more element to the prefix adds its term.
pub proof fn lemma_seq_sum_step<A>(s: Seq<A>, f: spec_fn(A) -> int, i: int)
    requires
        0 <= i < s.len(),
    ensures
        seq_sum(s.take(i + 1), f) == seq_sum(s.take(i), f) + f(s[i]),
{
    assert(s.take(i + 1).drop_last() =~= s.take(i));
}

/// Totals of one node's devices, as a tuple (vram total, vram free, discrete total,
/// discrete free).
fn device_totals(devices: &Vec<DeviceStats>) -> (r: (u64, u64, u64, u64))
    requires
        seq_sum(devices@, |d: DeviceStats| if counts_as_vram(d) { d.vram_total_mib as int } else { 0 }) <= u64::MAX,
        seq_sum(devices@, |d: DeviceStats| if counts_as_vram(d) { d.vram_free_mib as int } else { 0 }) <= u64::MAX,
        seq_sum(devices@, |d: DeviceStats| if counts_in_pool(d) { d.vram_total_mib as int } else { 0 }) <= u64::MAX,
        seq_sum(devices@, |d: DeviceStats| if counts_in_pool(d) { d.vram_free_mib as int } else { 0 }) <= u64::MAX,
    ensures
        r.0 == seq_sum(devices@, |d: DeviceStats| if counts_as_vram(d) { d.vram_total_mib as int } else { 0 }),
        r.1 == seq_sum(devices@, |d: DeviceStats| if counts_as_vram(d) { d.vram_free_mib as int } else { 0 }),
        r.2 == seq_sum(devices@, |d: DeviceStats| if counts_in_pool(d) { d.vram_total_mib as int } else { 0 }),
        r.3 == seq_sum(devices@, |d: DeviceStats| if counts_in_pool(d) { d.vram_free_mib as int } else { 0 }),
{
    let ghost ft = |d: DeviceStats| if counts_as_vram(d) { d.vram_total_mib as int } else { 0 };
    let ghost ff = |d: DeviceStats| if counts_as_vram(d) { d.vram_free_mib as int } else { 0 };
    let ghost pt = |d: DeviceStats| if counts_in_pool(d) { d.vram_total_mib as int } else { 0 };
    let ghost pf = |d: DeviceStats| if counts_in_pool(d) { d.vram_free_mib as int } else { 0 };
    let mut vt: u64 = 0;
    let mut vf: u64 = 0;
    let mut dt: u64 = 0;
    let mut df: u64 = 0;
    let mut j: usize = 0;
    assert(devices@.take(0) =~= Seq::<DeviceStats>::empty());
    while j < devices.len()
        invariant
            j <= devices@.len(),
            seq_sum(devices@, ft) <= u64::MAX,
            seq_sum(devices@, ff) <= u64::MAX,
            seq_sum(devices@, pt) <= u64::MAX,
            seq_sum(devices@, pf) <= u64::MAX,
            forall|d: DeviceStats| #[trigger] ft(d) >= 0,
            forall|d: DeviceStats| #[trigger] ff(d) >= 0,
            forall|d: DeviceStats| #[trigger] pt(d) >= 0,
            forall|d: DeviceStats| #[trigger] pf(d) >= 0,
            ft == (|d: DeviceStats| if counts_as_vram(d) { d.vram_total_mib as int } else { 0 }),
            ff == (|d: DeviceStats| if counts_as_vram(d) { d.vram_free_mib as int } else { 0 }),
            pt == (|d: DeviceStats| if counts_in_pool(d) { d.vram_total_mib as int } else { 0 }),
            pf == (|d: DeviceStats| if counts_in_pool(d) { d.vram_free_mib as int } else { 0 }),
            vt == seq_sum(devices@.take(j as int), ft),
            vf == seq_sum(devices@.take(j as int), ff),
            dt == seq_sum(devices@.take(j as int), pt),
            df == seq_sum(devices@.take(j as int), pf),
        decreases devices.len() - j,
    {
        let d = &devices[j];
        proof {
            lemma_seq_sum_step(devices@, ft, j as int);
            lemma_seq_sum_step(devices@, ff, j as int);
            lemma_seq_sum_step(devices@, pt, j as int);
            lemma_seq_sum_step(devices@, pf, j as int);
            lemma_seq_sum_prefix(devices@, ft, j + 1);
            lemma_seq_sum_prefix(devices@, ff, j + 1);
            lemma_seq_sum_prefix(devices@, pt, j + 1);
            lemma_seq_sum_prefix(devices@, pf, j + 1);
        }
        if d.reliable && d.kind != DeviceKind::Cpu {
            vt = vt + d.vram_total_mib;
            vf = vf + d.vram_free_mib;
            if d.kind != DeviceKind::Metal {
                dt = dt + d.vram_total_mib;
                df = df + d.vram_free_mib;
            }
        }
        j = j + 1;
    }
    assert(devices@.take(devices@.len() as int) =~= devices@);
    (vt, vf, dt, df)
}

/// Sum memory across reachable nodes that have stats (the host's "self" node included).
/// VRAM/Pool skip devices flagged unreliable. Pool adds only discrete GPU VRAM
/// (`kind != Metal && kind != Cpu`); `Metal` is unified and already inside RAM.
pub fn cluster_memory_totals(status: &ClusterStatus) -> (t: MemoryTotals)
    requires
        totals_fit(status.nodes@),
    ensures
        t == spec_totals(status.nodes@),
{
    let ghost nodes = status.nodes@;
    let ghost frt = |n: NodeSnapshot| node_ram_total(n);
    let ghost frf = |n: NodeSnapshot| node_ram_free(n);
    let ghost fvt = |n: NodeSnapshot| node_vram_total(n);
    let ghost fvf = |n: NodeSnapshot| node_vram_free(n);
    let ghost fpt = |n: NodeSnapshot| node_ram_total(n) + node_discrete_total(n);
    let ghost fpf = |n: NodeSnapshot| node_ram_free(n) + node_discrete_free(n);
    let mut t = MemoryTotals::default();
    let mut i: usize = 0;
    assert(nodes.take(0) =~= Seq::<NodeSnapshot>::empty());
    while i < status.nodes.len()
        invariant
            nodes == status.nodes@,
            i <= nodes.len(),
            totals_fit(nodes),
            frt == (|n: NodeSnapshot| node_ram_total(n)),
            frf == (|n: NodeSnapshot| node_ram_free(n)),
            fvt == (|n: NodeSnapshot| node_vram_total(n)),
            fvf == (|n: NodeSnapshot| node_vram_free(n)),
            fpt == (|n: NodeSnapshot| node_ram_total(n) + node_discrete_total(n)),
            fpf == (|n: NodeSnapshot| node_ram_free(n) + node_discrete_free(n)),
            t.ram_total_mib == seq_sum(nodes.take(i as int), frt),
            t.ram_free_mib == seq_sum(nodes.take(i as int), frf),
            t.vram_total_mib == seq_sum(nodes.take(i as int), fvt),
            t.vram_free_mib == seq_sum(nodes.take(i as int), fvf),
            t.pool_total_mib == seq_sum(nodes.take(i as int), fpt),
            t.pool_free_mib == seq_sum(nodes.take(i as int), fpf),
        decreases nodes.len() - i,
    {
        let n = &status.nodes[i];
        proof {
            lemma_seq_sum_step(nodes, frt, i as int);
            lemma_seq_sum_step(nodes, frf, i as int);
            lemma_seq_sum_step(nodes, fvt, i as int);
            lemma_seq_sum_step(nodes, fvf, i as int);
            lemma_seq_sum_step(nodes, fpt, i as int);
            lemma_seq_sum_step(nodes, fpf, i as int);
            lemma_nonneg_node_terms();
            lemma_seq_sum_prefix(nodes, frt, i + 1);
            lemma_seq_sum_prefix(nodes, frf, i + 1);
            lemma_seq_sum_prefix(nodes, fvt, i + 1);
            lemma_seq_sum_prefix(nodes, fvf, i + 1);
            lemma_seq_sum_prefix(nodes, fpt, i + 1);
            lemma_seq_sum_prefix(nodes, fpf, i + 1);
            lemma_seq_sum_le(nodes.take(i + 1), frt, fpt);
            lemma_seq_sum_le(nodes.take(i + 1), frf, fpf);
        }
        if n.reachable {
            if let Some(s) = &n.stats {
                let (vt, vf, dt, df) = device_totals(&s.devices);
                t.ram_total_mib = t.ram_total_mib + s.ram_total_mib;
                t.ram_free_mib = t.ram_free_mib + s.ram_free_mib;
                t.pool_total_mib = t.pool_total_mib + s.ram_total_mib + dt;
                t.pool_free_mib = t.pool_free_mib + s.ram_free_mib + df;
                t.vram_total_mib = t.vram_total_mib + vt;
                t.vram_free_mib = t.vram_free_mib + vf;
            }
        }
        i = i + 1;
    }
    assert(nodes.take(nodes.len() as int) =~= nodes);
    t
}

/// One node's device sums (vram total, vram free, discrete total, discrete free), when
/// each fits in a `u64`; none when one does not.
fn device_totals_checked(devices: &Vec<DeviceStats>) -> (r: Option<(u64, u64, u64, u64)>)
    ensures
        r matches Some(t) ==> {
            &&& t.0 == seq_sum(devices@, |d: DeviceStats| if counts_as_vram(d) { d.vram_total_mib as int } else { 0 })
            &&& t.1 == seq_sum(devices@, |d: DeviceStats| if counts_as_vram(d) { d.vram_free_mib as int } else { 0 })
            &&& t.2 == seq_sum(devices@, |d: DeviceStats| if counts_in_pool(d) { d.vram_total_mib as int } else { 0 })
            &&& t.3 == seq_sum(devices@, |d: DeviceStats| if counts_in_pool(d) { d.vram_free_mib as int } else { 0 })
        },
        r is None ==> {
            ||| seq_sum(devices@, |d: DeviceStats| if counts_as_vram(d) { d.vram_total_mib as int } else { 0 }) > u64::MAX
            ||| seq_sum(devices@, |d: DeviceStats| if counts_as_vram(d) { d.vram_free_mib as int } else { 0 }) > u64::MAX
        },
{
    let ghost ft = |d: DeviceStats| if counts_as_vram(d) { d.vram_total_mib as int } else { 0 };
    let ghost ff = |d: DeviceStats| if counts_as_vram(d) { d.vram_free_mib as int } else { 0 };
    let ghost pt = |d: DeviceStats| if counts_in_pool(d) { d.vram_total_mib as int } else { 0 };
    let ghost pf = |d: DeviceStats| if counts_in_pool(d) { d.vram_free_mib as int } else { 0 };
    let mut vt: u64 = 0;
    let mut vf: u64 = 0;
    let mut dt: u64 = 0;
    let mut df: u64 = 0;
    let mut j: usize = 0;
    assert(devices@.take(0) =~= Seq::<DeviceStats>::empty());
    while j < devices.len()
        invariant
            j <= devices@.len(),
            forall|d: DeviceStats| #[trigger] ft(d) >= 0,
            forall|d: DeviceStats| #[trigger] ff(d) >= 0,
            forall|d: DeviceStats| #[trigger] pt(d) >= 0,
            forall|d: DeviceStats| #[trigger] pf(d) >= 0,
            forall|d: DeviceStats| #[trigger] pt(d) <= ft(d),
            forall|d: DeviceStats| #[trigger] pf(d) <= ff(d),
            ft == (|d: DeviceStats| if counts_as_vram(d) { d.vram_total_mib as int } else { 0 }),
            ff == (|d: DeviceStats| if counts_as_vram(d) { d.vram_free_mib as int } else { 0 }),
            pt == (|d: DeviceStats| if counts_in_pool(d) { d.vram_total_mib as int } else { 0 }),
            pf == (|d: DeviceStats| if counts_in_pool(d) { d.vram_free_mib as int } else { 0 }),
            vt == seq_sum(devices@.take(j as int), ft),
            vf == seq_sum(devices@.take(j as int), ff),
            dt == seq_sum(devices@.take(j as int), pt),
            df == seq_sum(devices@.take(j as int), pf),
            dt <= vt,
            df <= vf,
        decreases devices.len() - j,
    {
        let d = &devices[j];
        proof {
            lemma_seq_sum_step(devices@, ft, j as int);
            lemma_seq_sum_step(devices@, ff, j as int);
            lemma_seq_sum_step(devices@, pt, j as int);
            lemma_seq_sum_step(devices@, pf, j as int);
            lemma_seq_sum_prefix(devices@, ft, j + 1);
            lemma_seq_sum_prefix(devices@, ff, j + 1);
        }
        if d.reliable && d.kind != DeviceKind::Cpu {
            if vt > u64::MAX - d.vram_total_mib || vf > u64::MAX - d.vram_free_mib {
                return None;
            }
            vt = vt + d.vram_total_mib;
            vf = vf + d.vram_free_mib;
            if d.kind != DeviceKind::Metal {
                dt = dt + d.vram_total_mib;
                df = df + d.vram_free_mib;
            }
        }
        j = j + 1;
    }
    assert(devices@.take(devices@.len() as int) =~= devices@);
    Some((vt, vf, dt, df))
}

/// The memory totals of a cluster, when they fit their `u64` fields; none otherwise.
pub fn cluster_totals_checked(status: &ClusterStatus) -> (r: Option<MemoryTotals>)
    ensures
        r is None <==> !totals_fit(status.nodes@),
        r matches Some(t) ==> t == spec_totals(status.nodes@),
{
    let ghost nodes = status.nodes@;
    let ghost frt = |n: NodeSnapshot| node_ram_total(n);
    let ghost frf = |n: NodeSnapshot| node_ram_free(n);
    let ghost fvt = |n: NodeSnapshot| node_vram_total(n);
    let ghost fvf = |n: NodeSnapshot| node_vram_free(n);
    let ghost fpt = |n: NodeSnapshot| node_ram_total(n) + node_discrete_total(n);
    let ghost fpf = |n: NodeSnapshot| node_ram_free(n) + node_discrete_free(n);
    let mut vt: u64 = 0;
    let mut vf: u64 = 0;
    let mut pt: u64 = 0;
    let mut pf: u64 = 0;
    let mut i: usize = 0;
    proof {
        lemma_nonneg_node_terms();
    }
    assert(nodes.take(0) =~= Seq::<NodeSnapshot>::empty());
    while i < status.nodes.len()
        invariant
            nodes == status.nodes@,
            i <= nodes.len(),
            forall|n: NodeSnapshot| node_ram_total(n) >= 0,
            forall|n: NodeSnapshot| node_ram_free(n) >= 0,
            forall|n: NodeSnapshot| #[trigger] node_vram_total(n) >= 0,
            forall|n: NodeSnapshot| #[trigger] node_vram_free(n) >= 0,
            forall|n: NodeSnapshot| #[trigger] node_discrete_total(n) >= 0,
            forall|n: NodeSnapshot| #[trigger] node_discrete_free(n) >= 0,
            fvt == (|n: NodeSnapshot| node_vram_total(n)),
            fvf == (|n: NodeSnapshot| node_vram_free(n)),
            fpt == (|n: NodeSnapshot| node_ram_total(n) + node_discrete_total(n)),
            fpf == (|n: NodeSnapshot| node_ram_free(n) + node_discrete_free(n)),
            vt == seq_sum(nodes.take(i as int), fvt),
            vf == seq_sum(nodes.take(i as int), fvf),
            pt == seq_sum(nodes.take(i as int), fpt),
            pf == seq_sum(nodes.take(i as int), fpf),
        decreases nodes.len() - i,
    {
        let n = &status.nodes[i];
        proof {
            lemma_seq_sum_step(nodes, fvt, i as int);
            lemma_seq_sum_step(nodes, fvf, i as int);
            lemma_seq_sum_step(nodes, fpt, i as int);
            lemma_seq_sum_step(nodes, fpf, i as int);
            lemma_seq_sum_prefix(nodes, fvt, i + 1);
            lemma_seq_sum_prefix(nodes, fvf, i + 1);
            lemma_seq_sum_prefix(nodes, fpt, i + 1);
            lemma_seq_sum_prefix(nodes, fpf, i + 1);
        }
        if n.reachable {
            if let Some(s) = &n.stats {
                let (dvt, dvf, ddt, ddf) = match device_totals_checked(&s.devices) {
                    Some(t) => t,
                    None => {
                        return None;
                    },
                };
                if vt > u64::MAX - dvt || vf > u64::MAX - dvf {
                    return None;
                }
                if s.ram_total_mib > u64::MAX - ddt || pt > u64::MAX - (s.ram_total_mib + ddt) {
                    return None;
                }
                if s.ram_free_mib > u64::MAX - ddf || pf > u64::MAX - (s.ram_free_mib + ddf) {
                    return None;
                }
                vt = vt + dvt;
                vf = vf + dvf;
                pt = pt + (s.ram_total_mib + ddt);
                pf = pf + (s.ram_free_mib + ddf);
            }
        }
        i = i + 1;
    }
    assert(nodes.take(nodes.len() as int) =~= nodes);
    Some(cluster_memory_totals(status))
}

/// Every per-node and per-device term of the totals is non-negative.
pub proof fn lemma_nonneg_node_terms()
    ensures
        forall|n: NodeSnapshot| node_ram_total(n) >= 0,
        forall|n: NodeSnapshot| node_ram_free(n) >= 0,
        forall|n: NodeSnapshot| #[trigger] node_vram_total(n) >= 0,
        forall|n: NodeSnapshot| #[trigger] node_vram_free(n) >= 0,
        forall|n: NodeSnapshot| #[trigger] node_discrete_total(n) >= 0,
        forall|n: NodeSnapshot| #[trigger] node_discrete_free(n) >= 0,
{
    assert forall|n: NodeSnapshot| #[trigger] node_vram_total(n) >= 0 by {
        if counted(n) {
            let f = |d: DeviceStats| if counts_as_vram(d) { d.vram_total_mib as int } else { 0 };
            lemma_seq_sum_prefix(n.stats->0.devices@, f, 0);
        }
    }
    assert forall|n: NodeSnapshot| #[trigger] node_vram_free(n) >= 0 by {
        if counted(n) {
            let f = |d: DeviceStats| if counts_as_vram(d) { d.vram_free_mib as int } else { 0 };
            lemma_seq_sum_prefix(n.stats->0.devices@, f, 0);
        }
    }
    assert forall|n: NodeSnapshot| #[trigger] node_discrete_total(n) >= 0 by {
        if counted(n) {
            let f = |d: DeviceStats| if counts_in_pool(d) { d.vram_total_mib as int } else { 0 };
            lemma_seq_sum_prefix(n.stats->0.devices@, f, 0);
        }
    }
    assert forall|n: NodeSnapshot| #[trigger] node_discrete_free(n) >= 0 by {
        if counted(n) {
            let f = |d: DeviceStats| if counts_in_pool(d) { d.vram_free_mib as int } else { 0 };
            lemma_seq_sum_prefix(n.stats->0.devices@, f, 0);
        }
    }
}

// ---------------------------------------------------------------------------
// Version checks
// ---------------------------------------------------------------------------

/// The warning for a node named `name` running version `v` when the host runs `host`.
pub open spec fn version_warning_text(name: Seq<char>, v: Seq<char>, host: Seq<char>) -> Seq<char> {
    name + " runs llama.cpp "@ + v + " but host runs "@ + host + " — RPC may fail"@
}

/// The warning one node earns: it answered, reports a version, and that version differs
/// from the host's.
pub open spec fn node_version_warning(n: NodeSnapshot, host: Seq<char>) -> Option<Seq<char>> {
    if n.reachable && n.stats is Some && n.stats->0.binary_version is Some
        && n.stats->0.binary_version->0@ != host {
        Some(version_warning_text(n.entry.name@, n.stats->0.binary_version->0@, host))
    } else {
        None
    }
}

/// The warnings of the nodes, in node order.
pub open spec fn warnings_for(nodes: Seq<NodeSnapshot>, host: Seq<char>) -> Seq<Seq<char>>
    decreases nodes.len(),
{
    if nodes.len() == 0 {
        Seq::empty()
    } else {
        let prev = warnings_for(nodes.drop_last(), host);
        match node_version_warning(nodes.last(), host) {
            Some(w) => prev.push(w),
            None => prev,
        }
    }
}

/// No host version known: no warnings; else one warning per mismatching node.
pub open spec fn spec_version_warnings(host: Option<Seq<char>>, nodes: Seq<NodeSnapshot>) -> Seq<
    Seq<char>,
> {
    match host {
        Some(h) => warnings_for(nodes, h),
        None => Seq::empty(),
    }
}

/// The view of an optional string slice.
pub open spec fn opt_str_view(o: Option<&str>) -> Option<Seq<char>> {
    match o {
        Some(s) => Some(s@),
        None => None,
    }
}

/// The view of an optional string.
pub open spec fn opt_string_view(o: Option<String>) -> Option<Seq<char>> {
    match o {
        Some(s) => Some(s@),
        None => None,
    }
}

/// One warning per reachable node whose binary version differs from the host's.
/// Mismatched llama.cpp versions are the most common silent RPC failure.
pub fn version_warnings(host_version: Option<&str>, nodes: &[NodeSnapshot]) -> (w: Vec<String>)
    ensures
        string_views(w@) == spec_version_warnings(opt_str_view(host_version), nodes@),
{
    let mut out: Vec<String> = Vec::new();
    let host = match host_version {
        Some(h) => h,
        None => {
            assert(string_views(out@) =~= Seq::<Seq<char>>::empty());
            return out;
        },
    };
    let mut i: usize = 0;
    assert(nodes@.take(0) =~= Seq::<NodeSnapshot>::empty());
    assert(string_views(out@) =~= Seq::<Seq<char>>::empty());
    while i < nodes.len()
        invariant
            i <= nodes@.len(),
            string_views(out@) == warnings_for(nodes@.take(i as int), host@),
        decreases nodes.len() - i,
    {
        let n = &nodes[i];
        assert(nodes@.take(i + 1).drop_last() =~= nodes@.take(i as int));
        let ghost before = out@;
        if n.reachable {
            if let Some(s) = &n.stats {
                if let Some(v) = &s.binary_version {
                    if !same_text(v.as_str(), host) {
                        let mut msg = n.entry.name.clone();
                        msg.append(" runs llama.cpp ");
                        msg.append(v.as_str());
                        msg.append(" but host runs ");
                        msg.append(host);
                        msg.append(" — RPC may fail");
                        out.push(msg);
                        assert(string_views(out@) =~= string_views(before).push(msg@));
                    }
                }
            }
        }
        i = i + 1;
    }
    assert(nodes@.take(nodes@.len() as int) =~= nodes@);
    out
}

/// A node that is unreachable, reports no version, or matches the host adds no warning.
pub proof fn law_only_mismatches_warn(nodes: Seq<NodeSnapshot>, n: NodeSnapshot, host: Seq<char>)
    requires
        !n.reachable || n.stats is None || n.stats->0.binary_version is None
            || n.stats->0.binary_version->0@ == host,
    ensures
        warnings_for(nodes.push(n), host) == warnings_for(nodes, host),
{
    assert(nodes.push(n).drop_last() =~= nodes);
}

/// There are never more warnings than nodes.
pub proof fn law_warnings_bounded(nodes: Seq<NodeSnapshot>, host: Seq<char>)
    ensures
        warnings_for(nodes, host).len() <= nodes.len(),
    decreases nodes.len(),
{
    if nodes.len() > 0 {
        law_warnings_bounded(nodes.drop_last(), host);
    }
}

/// A node that did not answer, or answered without stats, adds nothing to any total.
pub proof fn law_uncounted_node_adds_nothing(nodes: Seq<NodeSnapshot>, n: NodeSnapshot)
    requires
        !counted(n),
    ensures
        spec_totals(nodes.push(n)) == spec_totals(nodes),
{
    assert(nodes.push(n).drop_last() =~= nodes);
}

/// The pool holds all the RAM, and the RAM and the discrete VRAM of a node are counted in
/// it once each: a Metal GPU's memory, already inside RAM, is never added again.
pub proof fn law_pool_is_ram_plus_discrete(nodes: Seq<NodeSnapshot>)
    ensures
        pool_total_of(nodes) == ram_total_of(nodes) + seq_sum(nodes, |n: NodeSnapshot| node_discrete_total(n)),
        pool_free_of(nodes) == ram_free_of(nodes) + seq_sum(nodes, |n: NodeSnapshot| node_discrete_free(n)),
        ram_total_of(nodes) <= pool_total_of(nodes),
        ram_free_of(nodes) <= pool_free_of(nodes),
    decreases nodes.len(),
{
    lemma_nonneg_node_terms();
    if nodes.len() > 0 {
        law_pool_is_ram_plus_discrete(nodes.drop_last());
    }
}

/// A node whose devices are all Metal adds exactly its RAM to the pool.
pub proof fn law_metal_node_pools_only_ram(n: NodeSnapshot)
    requires
        counted(n),
        forall|k: int| 0 <= k < n.stats->0.devices@.len() ==> (#[trigger] n.stats->0.devices@[k]).kind
            == DeviceKind::Metal,
    ensures
        node_discrete_total(n) == 0,
        node_discrete_free(n) == 0,
{
    let ds = n.stats->0.devices@;
    lemma_metal_devices_not_pooled(ds);
}

/// Metal devices add nothing to the discrete sums.
proof fn lemma_metal_devices_not_pooled(ds: Seq<DeviceStats>)
    requires
        forall|k: int| 0 <= k < ds.len() ==> (#[trigger] ds[k]).kind == DeviceKind::Metal,
    ensures
        seq_sum(ds, |d: DeviceStats| if counts_in_pool(d) { d.vram_total_mib as int } else { 0 }) == 0,
        seq_sum(ds, |d: DeviceStats| if counts_in_pool(d) { d.vram_free_mib as int } else { 0 }) == 0,
    decreases ds.len(),
{
    if ds.len() > 0 {
        let t = ds.drop_last();
        assert forall|k: int| 0 <= k < t.len() implies (#[trigger] t[k]).kind == DeviceKind::Metal by {
            assert(t[k] == ds[k]);
        }
        lemma_metal_devices_not_pooled(t);
        assert(ds[ds.len() - 1] == ds.last());
    }
}

/// The reachable nodes that report a version other than `host`, in node order.
pub open spec fn mismatching_nodes(nodes: Seq<NodeSnapshot>, host: Seq<char>) -> Seq<NodeSnapshot>
    decreases nodes.len(),
{
    if nodes.len() == 0 {
        Seq::empty()
    } else {
        mismatching_nodes(nodes.drop_last(), host) + (if node_version_warning(nodes.last(), host) is Some {
            seq![nodes.last()]
        } else {
            Seq::empty()
        })
    }
}

/// With a host version there is exactly one warning per reachable node that reports a
/// different version, in node order, and it names the node, its version and the host's.
pub proof fn law_one_warning_per_mismatch(nodes: Seq<NodeSnapshot>, host: Seq<char>)
    ensures
        warnings_for(nodes, host).len() == mismatching_nodes(nodes, host).len(),
        forall|i: int|
            0 <= i < mismatching_nodes(nodes, host).len() ==> {
                let n = #[trigger] mismatching_nodes(nodes, host)[i];
                &&& n.reachable
                &&& n.stats matches Some(st) && st.binary_version matches Some(v) && v@ != host
                    && warnings_for(nodes, host)[i] == version_warning_text(n.entry.name@, v@, host)
            },
    decreases nodes.len(),
{
    if nodes.len() > 0 {
        let t = nodes.drop_last();
        law_one_warning_per_mismatch(t, host);
        let m = mismatching_nodes(nodes, host);
        let mt = mismatching_nodes(t, host);
        let w = warnings_for(nodes, host);
        let wt = warnings_for(t, host);
        assert forall|i: int| 0 <= i < m.len() implies {
            let n = #[trigger] m[i];
            &&& n.reachable
            &&& n.stats matches Some(st) && st.binary_version matches Some(v) && v@ != host
                && w[i] == version_warning_text(n.entry.name@, v@, host)
        } by {
            if i < mt.len() {
                assert(m[i] == mt[i]);
                assert(w[i] == wt[i]);
            } else {
                assert(m[i] == nodes.last());
            }
        }
    }
}

/// A version warning names the node, the node's version and the host's version.
pub proof fn law_warning_names_both_versions(name: Seq<char>, v: Seq<char>, host: Seq<char>)
    ensures
        contains_seq(version_warning_text(name, v, host), name),
        contains_seq(version_warning_text(name, v, host), v),
        contains_seq(version_warning_text(name, v, host), host),
{
    let t = version_warning_text(name, v, host);
    let a = name + " runs llama.cpp "@;
    let b = a + v + " but host runs "@;
    assert(t.subrange(0, name.len() as int) =~= name);
    assert(occurs_at(t, name, 0));
    assert(t.subrange(a.len() as int, (a.len() + v.len()) as int) =~= v);
    assert(occurs_at(t, v, a.len() as int));
    assert(t.subrange(b.len() as int, (b.len() + host.len()) as int) =~= host);
    assert(occurs_at(t, host, b.len() as int));
}

} // verus!
