//! Network interfaces and bridges.

use vstd::prelude::*;

verus! {

#[derive(Debug, Clone)]
pub struct NetworkInterface {
    pub name: String,
    pub interface_type: InterfaceType,
    pub status: InterfaceStatus,
    pub ip_addresses: Vec<String>,
    pub mac_address: Option<String>,
}

#[derive(Debug, Clone, Copy, PartialEq, Eq, Structural)]
pub enum InterfaceType {
    Bridge,
    Physical,
    Vlan,
    Veth,
}

#[derive(Debug, Clone, Copy, PartialEq, Eq, Structural)]
pub enum InterfaceStatus {
    Up,
    Down,
    Unknown,
}

#[derive(Debug, Clone)]
pub struct Bridge {
    pub name: String,
    pub interfaces: Vec<String>,
    pub ip_address: Option<String>,
    pub stp_enabled: bool,
}

#[derive(Debug, Clone)]
pub struct NetworkListResponse {
    pub interfaces: Vec<NetworkInterface>,
}

#[derive(Debug, Clone)]
pub struct CreateBridgeRequest {
    pub name: String,
    pub ip_address: Option<String>,
    pub stp_enabled: bool,
}

} // verus!
