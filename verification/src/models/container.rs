//! Containers.

use vstd::prelude::*;

verus! {

#[derive(Debug, Clone)]
pub struct Container {
    pub id: u128,
    pub name: String,
    pub status: ContainerStatus,
    pub template: String,
    pub node_id: Option<u128>,
    pub created_at: i64,
    pub updated_at: i64,
    pub config: ContainerConfig,
}

#[derive(Debug, Clone, Copy, PartialEq, Eq, Structural)]
pub enum ContainerStatus {
    Stopped,
    Starting,
    Running,
    Stopping,
    Frozen,
    Error,
}

/// The limits and devices of a container; sizes in bytes.
#[derive(Debug, Clone)]
pub struct ContainerConfig {
    pub cpu_limit: Option<u32>,
    pub memory_limit: Option<u64>,
    pub disk_limit: Option<u64>,
    pub network_interfaces: Vec<ContainerNetworkInterface>,
    pub rootfs_path: String,
    pub environment: Vec<(String, String)>,
}

#[derive(Debug, Clone)]
pub struct ContainerNetworkInterface {
    pub name: String,
    pub bridge: String,
    pub ipv4: Option<String>,
    pub ipv6: Option<String>,
    pub mac: Option<String>,
}

#[derive(Debug, Clone)]
pub struct CreateContainerRequest {
    pub name: String,
    pub template: String,
    pub config: ContainerConfig,
}

#[derive(Debug, Clone)]
pub struct ContainerResponse {
    pub container: Container,
}

#[derive(Debug, Clone)]
pub struct ContainerListResponse {
    pub containers: Vec<Container>,
}

} // verus!
