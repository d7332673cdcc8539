//! Node and device statistics reported by each cluster member.
use vstd::prelude::*;

verus! {

/// A VRAM reading is trustworthy only if total is non-zero and free <= total.
/// Drivers (e.g. some Vulkan setups) can report an overflowed "free" value far
/// larger than physical memory; such a reading is unreliable.
pub open spec fn is_vram_reliable(total_mib: u64, free_mib: u64) -> bool {
    total_mib > 0 && free_mib <= total_mib
}

/// Whether a VRAM reading can be trusted.
pub fn vram_reliable(total_mib: u64, free_mib: u64) -> (b: bool)
    ensures
        b == is_vram_reliable(total_mib, free_mib),
{
    total_mib > 0 && free_mib <= total_mib
}

/// What a node does in the cluster.
#[derive(Clone, Copy, PartialEq, Eq, Debug, Structural)]
pub enum Role {
    Worker,
    Host,
}

/// The kind of compute device.
#[derive(Clone, Copy, PartialEq, Eq, Debug, Structural)]
pub enum DeviceKind {
    Cuda,
    Metal,
    Cpu,
    Other,
}

/// One compute device of a node.
#[derive(PartialEq, Eq, Debug)]
pub struct DeviceStats {
    pub name: String,
    pub kind: DeviceKind,
    pub vram_total_mib: u64,
    pub vram_free_mib: u64,
    pub reliable: bool,
}

impl Clone for DeviceStats {
    fn clone(&self) -> (r: Self)
        ensures
            r == *self,
    {
        DeviceStats {
            name: self.name.clone(),
            kind: self.kind,
            vram_total_mib: self.vram_total_mib,
            vram_free_mib: self.vram_free_mib,
            reliable: self.reliable,
        }
    }
}

/// A sample of one node's memory, devices and launcher state.
#[derive(PartialEq, Eq, Debug)]
pub struct NodeStats {
    pub name: String,
    pub role: Role,
    pub ram_total_mib: u64,
    pub ram_free_mib: u64,
    pub cpu_logical: u32,
    pub devices: Vec<DeviceStats>,
    pub rpc_endpoint: Option<String>,
    pub binary_version: Option<String>,
    pub running: bool,
    pub sampled_at_unix: u64,
}

/// `a` and `b` hold the same sample (the device lists hold equal devices in order).
pub open spec fn same_stats(a: NodeStats, b: NodeStats) -> bool {
    &&& a.name == b.name
    &&& a.role == b.role
    &&& a.ram_total_mib == b.ram_total_mib
    &&& a.ram_free_mib == b.ram_free_mib
    &&& a.cpu_logical == b.cpu_logical
    &&& a.devices@ == b.devices@
    &&& a.rpc_endpoint == b.rpc_endpoint
    &&& a.binary_version == b.binary_version
    &&& a.running == b.running
    &&& a.sampled_at_unix == b.sampled_at_unix
}

impl Clone for NodeStats {
    fn clone(&self) -> (r: Self)
        ensures
            same_stats(r, *self),
    {
        let devices = self.devices.clone();
        assert forall|i: int| 0 <= i < devices@.len() implies devices@[i] == self.devices@[i] by {
            assert(cloned(self.devices[i], devices[i]));
        }
        assert(devices@ =~= self.devices@);
        let rpc_endpoint = self.rpc_endpoint.clone();
        let binary_version = self.binary_version.clone();
        assert(rpc_endpoint == self.rpc_endpoint);
        assert(binary_version == self.binary_version);
        NodeStats {
            name: self.name.clone(),
            role: self.role,
            ram_total_mib: self.ram_total_mib,
            ram_free_mib: self.ram_free_mib,
            cpu_logical: self.cpu_logical,
            devices,
            rpc_endpoint,
            binary_version,
            running: self.running,
            sampled_at_unix: self.sampled_at_unix,
        }
    }
}

} // verus!
