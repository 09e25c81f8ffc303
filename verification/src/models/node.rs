//! Nodes.

use vstd::prelude::*;

verus! {

#[derive(Debug, Clone)]
pub struct Node {
    pub id: u128,
    pub name: String,
    pub address: String,
    pub port: u16,
    pub status: NodeStatus,
    pub cluster_id: Option<u128>,
    pub resources: NodeResources,
    pub joined_at: i64,
    pub last_seen: i64,
}

#[derive(Debug, Clone, Copy, PartialEq, Eq, Structural)]
pub enum NodeStatus {
    Online,
    Offline,
    Joining,
    Leaving,
}

/// What a node declares of itself; sizes in bytes.
#[derive(Debug, Clone, Copy, PartialEq, Eq, Structural)]
pub struct NodeResources {
    pub cpu_cores: u32,
    pub memory_total: u64,
    pub memory_used: u64,
    pub disk_total: u64,
    pub disk_used: u64,
}

#[derive(Debug, Clone)]
pub struct NodeListResponse {
    pub nodes: Vec<Node>,
}

#[derive(Debug, Clone)]
pub struct JoinClusterRequest {
    pub cluster_name: String,
    pub node_address: String,
    pub node_port: u16,
}

} // verus!
