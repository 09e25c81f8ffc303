//! Pools and volumes.

use vstd::prelude::*;

verus! {

/// A storage pool; sizes in bytes.
#[derive(Debug, Clone)]
pub struct StoragePool {
    pub id: u128,
    pub name: String,
    pub storage_type: StorageType,
    pub path: String,
    pub total_size: u64,
    pub used_size: u64,
    pub available_size: u64,
    pub created_at: i64,
}

#[derive(Debug, Clone, Copy, PartialEq, Eq, Structural)]
pub enum StorageType {
    Local,
    Nfs,
    Cifs,
}

/// A volume of a pool; sizes in bytes.
#[derive(Debug, Clone)]
pub struct Volume {
    pub id: u128,
    pub name: String,
    pub pool_id: u128,
    pub size: u64,
    pub used: u64,
    pub created_at: i64,
}

#[derive(Debug, Clone)]
pub struct StoragePoolListResponse {
    pub pools: Vec<StoragePool>,
}

#[derive(Debug, Clone)]
pub struct CreateStoragePoolRequest {
    pub name: String,
    pub storage_type: StorageType,
    pub path: String,
}

} // verus!
