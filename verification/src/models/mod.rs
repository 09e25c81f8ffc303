//! The plain data of the management plane. Identifiers are opaque 128-bit
//! values; points in time are milliseconds since the Unix epoch.

pub mod cluster;
pub mod container;
pub mod network;
pub mod node;
pub mod storage;

pub use cluster::{Cluster, ClusterInfo, ClusterResources, ClusterStatusResponse};
pub use container::{
    Container, ContainerConfig, ContainerListResponse, ContainerNetworkInterface, ContainerResponse,
    ContainerStatus, CreateContainerRequest,
};
pub use network::{
    Bridge, CreateBridgeRequest, InterfaceStatus, InterfaceType, NetworkInterface, NetworkListResponse,
};
pub use node::{JoinClusterRequest, Node, NodeListResponse, NodeResources, NodeStatus};
pub use storage::{CreateStoragePoolRequest, StoragePool, StoragePoolListResponse, StorageType, Volume};
