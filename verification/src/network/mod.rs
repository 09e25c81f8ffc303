//! What the service knows of the network: the commands that manage
//! bridges, VLANs and the firewall, and what those commands print.

pub mod bridge;
pub mod error;
pub mod firewall;
pub mod vlan;

pub use bridge::BridgeManager;
pub use error::NetworkError;
pub use firewall::FirewallManager;
pub use vlan::VlanManager;
