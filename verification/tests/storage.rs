use arm_hypervisor::cluster::ClusterError;
use arm_hypervisor::models::{CreateStoragePoolRequest, StorageType};
use arm_hypervisor::storage::{LocalStorageManager, SharedStorageManager, StorageError, VolumeManager};

#[test]
fn test_storage_pool_creation_request_validation() {
    let request = CreateStoragePoolRequest {
        name: "test-pool".to_string(),
        storage_type: StorageType::Local,
        path: "/var/lib/storage/test-pool".to_string(),
    };

    assert_eq!(request.name, "test-pool");
    assert_eq!(request.storage_type, StorageType::Local);
    assert!(request.path.starts_with("/var/lib/storage"));
}

#[test]
fn test_storage_pool_name_validation() {
    let valid_names = vec!["pool1", "storage-pool", "test123", "vm-storage"];
    for name in valid_names {
        assert!(is_valid_pool_name(name), "Pool name '{}' should be valid", name);
    }

    let invalid_names = vec![
        "",
        "Pool1",
        "pool_name",
        "pool name",
        "pool.",
        ".pool",
        "pool-name-that-is-way-too-long-for-storage-pools-and-exceeds-reasonable-limits",
    ];
    for name in invalid_names {
        assert!(!is_valid_pool_name(name), "Pool name '{}' should be invalid", name);
    }
}

#[test]
fn test_storage_path_validation() {
    let valid_paths = vec!["/var/lib/storage", "/mnt/storage", "/opt/storage/pools"];
    for path in valid_paths {
        assert!(is_valid_storage_path(path), "Storage path '{}' should be valid", path);
    }

    let invalid_paths = vec![
        "",
        "relative/path",
        "/tmp", // tmp is usually not suitable for storage
        "/proc/something",
        "/sys/something",
    ];
    for path in invalid_paths {
        assert!(!is_valid_storage_path(path), "Storage path '{}' should be invalid", path);
    }
}

#[test]
fn test_nfs_path_parsing() {
    let valid_nfs_paths =
        vec!["192.168.1.100:/exports/storage", "storage.example.com:/data", "nfs-server:/var/nfs/storage"];

    for path in valid_nfs_paths {
        let parsed = parse_nfs_path(path);
        assert!(parsed.is_some(), "NFS path '{}' should parse correctly", path);
        let (server, export) = parsed.unwrap();
        assert!(!server.is_empty());
        assert!(!export.is_empty());
        assert!(export.starts_with('/'));
    }

    let invalid_nfs_paths = vec!["invalid-path", "/local/path", "server-only", ":export-only"];

    for path in invalid_nfs_paths {
        let parsed = parse_nfs_path(path);
        assert!(parsed.is_none(), "NFS path '{}' should not parse", path);
    }
}

#[test]
fn test_cifs_path_parsing() {
    let valid_cifs_paths = vec!["//192.168.1.100/share", "//server.example.com/storage", "//fileserver/data"];

    for path in valid_cifs_paths {
        let parsed = parse_cifs_path(path);
        assert!(parsed.is_some(), "CIFS path '{}' should parse correctly", path);
        let (server, share) = parsed.unwrap();
        assert!(!server.is_empty());
        assert!(!share.is_empty());
    }

    let invalid_cifs_paths = vec!["invalid-path", "/local/path", "//server-only", "//server/"];

    for path in invalid_cifs_paths {
        let parsed = parse_cifs_path(path);
        assert!(parsed.is_none(), "CIFS path '{}' should not parse", path);
    }
}

// Helper functions for validation
fn is_valid_pool_name(name: &str) -> bool {
    if name.is_empty() || name.len() > 32 {
        return false;
    }

    // Must start with letter or number
    if !name.chars().next().unwrap_or('_').is_ascii_alphanumeric() {
        return false;
    }

    // Can only contain lowercase letters, numbers, and hyphens
    name.chars().all(|c| c.is_ascii_lowercase() || c.is_ascii_digit() || c == '-')
}

fn is_valid_storage_path(path: &str) -> bool {
    if path.is_empty() {
        return false;
    }

    // Must be absolute path
    if !path.starts_with('/') {
        return false;
    }

    // Avoid problematic paths
    let forbidden_prefixes = ["/tmp", "/proc", "/sys", "/dev"];
    for prefix in &forbidden_prefixes {
        if path.starts_with(prefix) {
            return false;
        }
    }

    true
}

fn parse_nfs_path(path: &str) -> Option<(String, String)> {
    if let Some(colon_pos) = path.find(':') {
        let server = path[..colon_pos].to_string();
        let export = path[colon_pos + 1..].to_string();

        if !server.is_empty() && !export.is_empty() && export.starts_with('/') {
            return Some((server, export));
        }
    }
    None
}

fn parse_cifs_path(path: &str) -> Option<(String, String)> {
    if let Some(path_without_prefix) = path.strip_prefix("//") {
        if let Some(slash_pos) = path_without_prefix.find('/') {
            let server = path_without_prefix[..slash_pos].to_string();
            let share = path_without_prefix[slash_pos + 1..].to_string();

            if !server.is_empty() && !share.is_empty() {
                return Some((server, share));
            }
        }
    }
    None
}

#[test]
fn pools_are_recorded() {
    let local = LocalStorageManager::pool_with(1, 2, "p", "/srv/p", 30_000_000_000);
    assert_eq!((local.id, local.created_at), (1, 2));
    assert_eq!(local.name, "p");
    assert_eq!(local.storage_type, StorageType::Local);
    assert_eq!(local.path, "/srv/p");
    assert_eq!(local.total_size, 100_000_000_000);
    assert_eq!(local.used_size, 30_000_000_000);
    assert_eq!(local.available_size, 70_000_000_000);
    let over = LocalStorageManager::create_pool("p", "/srv/p", 100_000_000_001);
    assert_eq!(over.available_size, 0);
    assert_eq!(over.used_size, 100_000_000_001);
    let nfs = SharedStorageManager::create_nfs_pool("n", "filer", "/exports/a");
    assert_eq!(nfs.path, "filer:/exports/a");
    assert_eq!(nfs.storage_type, StorageType::Nfs);
    assert_eq!((nfs.total_size, nfs.used_size, nfs.available_size), (0, 0, 0));
    let cifs = SharedStorageManager::create_cifs_pool("c", "filer", "share", Some("me"));
    assert_eq!(cifs.path, "//filer/share");
    assert_eq!(cifs.storage_type, StorageType::Cifs);
    assert_eq!(SharedStorageManager::nfs_pool_with(5, 6, "n", "s", "/p").id, 5);
    assert_eq!(SharedStorageManager::cifs_pool_with(5, 6, "n", "s", "p").created_at, 6);
    assert_ne!(nfs.id, cifs.id);
}

#[test]
fn volumes_are_recorded() {
    assert_eq!(VolumeManager::volume_path("/srv/p", "v1"), "/srv/p/v1");
    let made = VolumeManager::create_volume("v1", 4096);
    assert_eq!((made.name.as_str(), made.size, made.used), ("v1", 4096, 0));
    assert_ne!(made.id, made.pool_id);
    let found = VolumeManager::get_volume("v1", 77);
    assert_eq!((found.size, found.used), (0, 77));
    let exact = VolumeManager::volume_with(1, 2, 3, "v", 4, 5);
    assert_eq!((exact.id, exact.pool_id, exact.created_at, exact.size, exact.used), (1, 2, 3, 4, 5));
}

#[test]
fn storage_and_cluster_errors_are_rendered() {
    assert_eq!(StorageError::PoolNotFound("p".to_string()).message(), "Storage pool not found: p");
    assert_eq!(StorageError::VolumeNotFound("v".to_string()).message(), "Volume not found: v");
    assert_eq!(StorageError::OperationFailed("x".to_string()).message(), "Storage operation failed: x");
    assert_eq!(
        StorageError::InsufficientSpace(1024, 0).message(),
        "Insufficient space: requested 1024, available 0"
    );
    assert_eq!(StorageError::Io("x".to_string()).message(), "IO error: x");
    assert_eq!(ClusterError::NodeNotFound("n".to_string()).message(), "Node not found: n");
    assert_eq!(ClusterError::OperationFailed("x".to_string()).message(), "Cluster operation failed: x");
    assert_eq!(ClusterError::Network("x".to_string()).message(), "Network error: x");
    assert_eq!(ClusterError::Consensus("x".to_string()).message(), "Consensus error: x");
    assert_eq!(ClusterError::Io("x".to_string()).message(), "IO error: x");
}

#[test]
fn fresh_pools_and_volumes_carry_random_identifiers() {
    let shaped = |id: u128| (id >> 76) & 0xf == 4 && (id >> 62) & 0x3 == 2;
    assert!(shaped(LocalStorageManager::create_pool("p", "/srv/p", 1).id));
    assert!(shaped(SharedStorageManager::create_nfs_pool("n", "filer", "/a").id));
    assert!(shaped(SharedStorageManager::create_cifs_pool("c", "filer", "share", None).id));
    let made = VolumeManager::create_volume("v", 1);
    assert!(shaped(made.id) && shaped(made.pool_id));
    let found = VolumeManager::get_volume("v", 1);
    assert!(shaped(found.id) && shaped(found.pool_id));
}
