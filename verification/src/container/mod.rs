//! What the service knows of containers: their configuration files, the
//! commands that manage them and what those commands print.

pub mod config;
pub mod container;
pub mod error;
pub mod lxc;
pub mod snapshot;

pub use config::LxcConfig;
pub use container::ContainerManager;
pub use error::ContainerError;
pub use lxc::LxcCommand;
pub use snapshot::{Snapshot, SnapshotManager};
