//! Records of pools and volumes.

use crate::models::storage::{StoragePool, StorageType, Volume};
use crate::sys::{is_random_id, new_id, now_millis};
use vstd::prelude::*;
use vstd::string::*;

verus! {

/// Keeps pools in directories of this machine.
#[derive(Debug, Clone, Copy, PartialEq, Eq, Structural)]
pub struct LocalStorageManager;

/// Keeps pools on file servers.
#[derive(Debug, Clone, Copy, PartialEq, Eq, Structural)]
pub struct SharedStorageManager;

/// Keeps volumes in pools.
#[derive(Debug, Clone, Copy, PartialEq, Eq, Structural)]
pub struct VolumeManager;

/// The size that stands for a local pool until the file system is asked:
/// a hundred gigabytes.
pub const ASSUMED_TOTAL_SIZE: u64 = 100_000_000_000;

/// What is left of `total` when `used` is taken; nothing where more is
/// used than there is.
pub open spec fn left_of(total: u64, used: u64) -> u64 {
    if total >= used {
        (total - used) as u64
    } else {
        0
    }
}

/// A local pool in the directory `path`, of which `used_size` bytes are
/// taken.
pub open spec fn is_local_pool(pool: StoragePool, name: Seq<char>, path: Seq<char>, used_size: u64) -> bool {
    &&& pool.name@ == name
    &&& pool.storage_type == StorageType::Local
    &&& pool.path@ == path
    &&& pool.total_size == ASSUMED_TOTAL_SIZE
    &&& pool.used_size == used_size
    &&& pool.available_size == left_of(ASSUMED_TOTAL_SIZE, used_size)
}

/// A pool on a file server, at `path`, of which no size is known yet.
pub open spec fn is_shared_pool(pool: StoragePool, name: Seq<char>, kind: StorageType, path: Seq<char>) -> bool {
    &&& pool.name@ == name
    &&& pool.storage_type == kind
    &&& pool.path@ == path
    &&& pool.total_size == 0
    &&& pool.used_size == 0
    &&& pool.available_size == 0
}

impl LocalStorageManager {
    /// The record of the local pool `name` in the directory `path`, of
    /// which `used_size` bytes are taken, with the given identifier and time.
    pub fn pool_with(id: u128, now: i64, name: &str, path: &str, used_size: u64) -> (pool: StoragePool)
        ensures
            pool.id == id,
            pool.created_at == now,
            is_local_pool(pool, name@, path@, used_size),
    {
        StoragePool {
            id,
            name: String::from_str(name),
            storage_type: StorageType::Local,
            path: String::from_str(path),
            total_size: ASSUMED_TOTAL_SIZE,
            used_size,
            available_size: if ASSUMED_TOTAL_SIZE >= used_size {
                ASSUMED_TOTAL_SIZE - used_size
            } else {
                0
            },
            created_at: now,
        }
    }

    /// The record of a local pool, with a fresh identifier and the present
    /// time.
    pub fn create_pool(name: &str, path: &str, used_size: u64) -> (pool: StoragePool)
        ensures
            is_random_id(pool.id),
            is_local_pool(pool, name@, path@, used_size),
    {
        LocalStorageManager::pool_with(new_id(), now_millis(), name, path, used_size)
    }
}

impl SharedStorageManager {
    /// The record of the NFS pool `name` that `server` exports at `path`,
    /// with the given identifier and time.
    pub fn nfs_pool_with(id: u128, now: i64, name: &str, server: &str, path: &str) -> (pool: StoragePool)
        ensures
            pool.id == id,
            pool.created_at == now,
            is_shared_pool(pool, name@, StorageType::Nfs, server@ + ":"@ + path@),
    {
        let mut place = String::from_str(server);
        place.append(":");
        place.append(path);
        StoragePool {
            id,
            name: String::from_str(name),
            storage_type: StorageType::Nfs,
            path: place,
            total_size: 0,
            used_size: 0,
            available_size: 0,
            created_at: now,
        }
    }

    /// The record of an NFS pool, with a fresh identifier and the present
    /// time.
    pub fn create_nfs_pool(name: &str, server: &str, path: &str) -> (pool: StoragePool)
        ensures
            is_random_id(pool.id),
            is_shared_pool(pool, name@, StorageType::Nfs, server@ + ":"@ + path@),
    {
        SharedStorageManager::nfs_pool_with(new_id(), now_millis(), name, server, path)
    }

    /// The record of the CIFS pool `name` that is the share `share` of
    /// `server`, with the given identifier and time.
    pub fn cifs_pool_with(id: u128, now: i64, name: &str, server: &str, share: &str) -> (pool: StoragePool)
        ensures
            pool.id == id,
            pool.created_at == now,
            is_shared_pool(pool, name@, StorageType::Cifs, "//"@ + server@ + "/"@ + share@),
    {
        let mut place = String::from_str("//");
        place.append(server);
        place.append("/");
        place.append(share);
        StoragePool {
            id,
            name: String::from_str(name),
            storage_type: StorageType::Cifs,
            path: place,
            total_size: 0,
            used_size: 0,
            available_size: 0,
            created_at: now,
        }
    }

    /// The record of a CIFS pool, with a fresh identifier and the present
    /// time. The name of the user plays no part yet.
    pub fn create_cifs_pool(name: &str, server: &str, share: &str, _username: Option<&str>) -> (pool:
        StoragePool)
        ensures
            is_random_id(pool.id),
            is_shared_pool(pool, name@, StorageType::Cifs, "//"@ + server@ + "/"@ + share@),
    {
        SharedStorageManager::cifs_pool_with(new_id(), now_millis(), name, server, share)
    }
}

impl VolumeManager {
    /// Where the volume `name` of the pool at `pool_path` is kept.
    pub fn volume_path(pool_path: &str, name: &str) -> (path: String)
        ensures
            path@ == pool_path@ + "/"@ + name@,
    {
        let mut path = String::from_str(pool_path);
        path.append("/");
        path.append(name);
        path
    }

    /// The record of the volume `name` with the given identifiers, sizes
    /// and time.
    pub fn volume_with(id: u128, pool_id: u128, now: i64, name: &str, size: u64, used: u64) -> (volume: Volume)
        ensures
            volume.id == id,
            volume.name@ == name@,
            volume.pool_id == pool_id,
            volume.size == size,
            volume.used == used,
            volume.created_at == now,
    {
        Volume { id, name: String::from_str(name), pool_id, size, used, created_at: now }
    }

    /// The record of a new volume of `size` bytes, of which nothing is
    /// used, with fresh identifiers and the present time.
    pub fn create_volume(name: &str, size: u64) -> (volume: Volume)
        ensures
            is_random_id(volume.id),
            is_random_id(volume.pool_id),
            volume.name@ == name@,
            volume.size == size,
            volume.used == 0,
    {
        VolumeManager::volume_with(new_id(), new_id(), now_millis(), name, size, 0)
    }

    /// The record of a volume that was found with `used` bytes in it, with
    /// fresh identifiers and the present time; its size is not known.
    pub fn get_volume(name: &str, used: u64) -> (volume: Volume)
        ensures
            is_random_id(volume.id),
            is_random_id(volume.pool_id),
            volume.name@ == name@,
            volume.size == 0,
            volume.used == used,
    {
        VolumeManager::volume_with(new_id(), new_id(), now_millis(), name, 0, used)
    }
}

} // verus!
