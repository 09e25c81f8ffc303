//! What the service knows of storage: the records of pools and volumes.

pub mod error;
pub mod pools;

pub use error::StorageError;
pub use pools::{LocalStorageManager, SharedStorageManager, VolumeManager};
