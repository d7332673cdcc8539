//! Sources of node statistics.
use vstd::prelude::*;
use crate::model::{is_vram_reliable, same_stats, vram_reliable, DeviceKind, DeviceStats, NodeStats, Role};
use crate::text::{chars_of, owned, parse_decimal, parse_unsigned, trim, trim_chars};

verus! {

/// Something that can sample this node's statistics.
pub trait StatsProvider: Send + Sync {
    fn sample(&self) -> NodeStats;
}

/// A provider that always reports the same fixed sample.
pub struct MockStatsProvider {
    pub stats: NodeStats,
}

impl StatsProvider for MockStatsProvider {
    fn sample(&self) -> (r: NodeStats)
        ensures
            same_stats(r, self.stats),
    {
        self.stats.clone()
    }
}

/// Bytes in one MiB.
pub const MIB: u64 = 1048576;

/// A local sample from the machine's readings: total memory in MiB (rounded down); free
/// memory is the reclaimable figure when one was read, else the available memory in MiB;
/// no rpc endpoint, no binary version, nothing running.
pub fn local_sample(
    name: String,
    role: Role,
    total_memory_bytes: u64,
    available_memory_bytes: u64,
    reclaimable_mib: Option<u64>,
    cpu_logical: u32,
    devices: Vec<DeviceStats>,
    now_unix: u64,
) -> (s: NodeStats)
    ensures
        s.name == name && s.role == role,
        s.ram_total_mib == total_memory_bytes / MIB,
        s.ram_free_mib == match reclaimable_mib {
            Some(m) => m,
            None => available_memory_bytes / MIB,
        },
        s.cpu_logical == cpu_logical,
        s.devices@ == devices@,
        s.rpc_endpoint is None && s.binary_version is None && !s.running,
        s.sampled_at_unix == now_unix,
{
    let free = match reclaimable_mib {
        Some(m) => m,
        None => available_memory_bytes / MIB,
    };
    NodeStats {
        name,
        role,
        ram_total_mib: total_memory_bytes / MIB,
        ram_free_mib: free,
        cpu_logical,
        devices,
        rpc_endpoint: None,
        binary_version: None,
        running: false,
        sampled_at_unix: now_unix,
    }
}

/// The Apple-Silicon GPU ("MTL0"): unified memory, so its free VRAM is the machine's
/// free RAM, capped at its total.
pub fn metal_device(total_mib: u64, free_ram_mib: u64) -> (d: DeviceStats)
    ensures
        d.name@ == "MTL0"@,
        d.kind == DeviceKind::Metal,
        d.vram_total_mib == total_mib,
        d.vram_free_mib == if free_ram_mib <= total_mib { free_ram_mib } else { total_mib },
        d.reliable == is_vram_reliable(d.vram_total_mib, d.vram_free_mib),
{
    let free = if free_ram_mib <= total_mib { free_ram_mib } else { total_mib };
    DeviceStats {
        name: owned("MTL0"),
        kind: DeviceKind::Metal,
        vram_total_mib: total_mib,
        vram_free_mib: free,
        reliable: vram_reliable(total_mib, free),
    }
}

/// The page size `sysctl -n hw.pagesize` printed, or 16384 when it printed nothing
/// usable.
pub open spec fn page_size_of(out: Option<Seq<char>>) -> u64 {
    match out {
        Some(o) => match parse_unsigned(trim(o), u64::MAX as nat) {
            Some(n) => n as u64,
            None => 16384,
        },
        None => 16384,
    }
}

/// Reads the page size from `sysctl` output.
pub fn page_size_from(out: Option<&str>) -> (p: u64)
    ensures
        p == page_size_of(crate::cluster::opt_str_view(out)),
{
    match out {
        Some(o) => {
            let cs = chars_of(o);
            let t = trim_chars(&cs);
            match parse_decimal(&t, u64::MAX) {
                Some(n) => n,
                None => 16384,
            }
        },
        None => 16384,
    }
}

} // verus!
