//! The cluster as the management interface shows it.

use vstd::prelude::*;

verus! {

#[derive(Debug, Clone)]
pub struct Cluster {
    pub id: u128,
    pub name: String,
    pub nodes: Vec<u128>,
    pub leader_id: Option<u128>,
    pub created_at: i64,
}

#[derive(Debug, Clone)]
pub struct ClusterInfo {
    pub cluster: Cluster,
    pub node_count: usize,
    pub total_resources: ClusterResources,
}

/// Capacities summed over the nodes of a cluster; sizes in bytes.
#[derive(Debug, Clone, Copy, PartialEq, Eq, Structural)]
pub struct ClusterResources {
    pub total_cpu_cores: u32,
    pub total_memory: u64,
    pub total_disk: u64,
}

#[derive(Debug, Clone)]
pub struct ClusterStatusResponse {
    pub cluster: ClusterInfo,
}

} // verus!
