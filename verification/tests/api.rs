use arm_hypervisor::api::audit::AuditFilter;
use arm_hypervisor::api::config::{add_missing_files, parse_port};
use arm_hypervisor::api::handlers::{split_cifs_path, split_nfs_path};
use arm_hypervisor::api::middleware::Header;
use arm_hypervisor::api::observability::{
    add_metric, add_number, count_statuses, health_report, health_status, overall_health,
    render_prometheus,
    skip_system_checks, used_of, ContainerCounts, DiskUse, LoadText, MemoryUse, SystemReport,
};
use arm_hypervisor::api::rbac::holds_permission;
use arm_hypervisor::api::request_tracing::{correlation_id, resolve_id};
use arm_hypervisor::api::{
    AppConfig, AuditAction, AuditLogBuilder, AuditLogger, AuditResult, ConfigFormat, CreateUserRequest,
    EnvSettings, MetricsCollector, Permission, RequestLogging, RequestTracing, Role, SecurityHeaders,
    SimpleCors, TlsConfig, UpdateUserRequest, User, UserStore,
};
use arm_hypervisor::models::ContainerStatus;

fn user(name: &str, role: Role, custom: Vec<Permission>, enabled: bool) -> User {
    User {
        id: 1,
        username: name.to_string(),
        email: None,
        role,
        custom_permissions: custom,
        enabled,
        created_at: 0,
        updated_at: 0,
    }
}

#[test]
fn test_middleware_creation() {
    let _logging = RequestLogging;
    let _cors = SimpleCors;
    let _security = SecurityHeaders;
}

#[test]
fn middleware_headers() {
    let pairs = |headers: Vec<Header>| -> Vec<(String, String)> {
        headers.into_iter().map(|h| (h.name, h.value)).collect()
    };
    assert_eq!(
        pairs(SimpleCors::headers()),
        vec![("access-control-allow-origin".to_string(), "*".to_string())]
    );
    assert_eq!(
        pairs(SecurityHeaders::headers()),
        vec![
            ("x-content-type-options".to_string(), "nosniff".to_string()),
            ("x-frame-options".to_string(), "DENY".to_string()),
        ]
    );
    assert_eq!(RequestLogging::line("GET", "/health"), "Request: GET /health");
}

#[test]
fn test_admin_has_all_permissions() {
    let admin_role = Role::Admin;
    assert!(admin_role.has_permission(&Permission::ContainerCreate));
    assert!(admin_role.has_permission(&Permission::SystemAdmin));
    assert!(admin_role.has_permission(&Permission::ClusterWrite));
}

#[test]
fn test_viewer_has_limited_permissions() {
    let viewer_role = Role::Viewer;
    assert!(viewer_role.has_permission(&Permission::ContainerRead));
    assert!(!viewer_role.has_permission(&Permission::ContainerCreate));
    assert!(!viewer_role.has_permission(&Permission::SystemAdmin));
}

#[test]
fn test_operator_permissions() {
    let operator_role = Role::Operator;
    assert!(operator_role.has_permission(&Permission::ContainerRead));
    assert!(operator_role.has_permission(&Permission::ContainerStart));
    assert!(!operator_role.has_permission(&Permission::ContainerCreate));
    assert!(!operator_role.has_permission(&Permission::SystemAdmin));
}

#[test]
fn role_permissions_are_listed_in_order() {
    assert_eq!(Role::Admin.permissions().len(), 20);
    assert_eq!(Role::Admin.permissions()[0], Permission::ContainerCreate);
    assert_eq!(Role::Admin.permissions()[19], Permission::SystemAdmin);
    assert_eq!(
        Role::Operator.permissions(),
        vec![
            Permission::ContainerRead,
            Permission::ContainerStart,
            Permission::ContainerStop,
            Permission::ContainerSnapshot,
            Permission::ClusterRead,
            Permission::StorageRead,
            Permission::NetworkRead,
            Permission::SystemRead,
        ]
    );
    assert_eq!(
        Role::Viewer.permissions(),
        vec![
            Permission::ContainerRead,
            Permission::ClusterRead,
            Permission::StorageRead,
            Permission::NetworkRead,
            Permission::SystemRead,
        ]
    );
    assert!(Role::Custom("auditor".to_string()).permissions().is_empty());
    assert!(!Role::Custom("auditor".to_string()).has_permission(&Permission::SystemRead));
    assert!(holds_permission(&vec![Permission::ClusterJoin], &Permission::ClusterJoin));
    assert!(!holds_permission(&vec![], &Permission::ClusterJoin));
}

#[test]
fn test_user_has_permission() {
    let user = user("testuser", Role::Viewer, vec![Permission::ContainerStart], true);
    assert!(user.has_permission(&Permission::ContainerRead));
    assert!(user.has_permission(&Permission::ContainerStart)); // from custom permissions
    assert!(!user.has_permission(&Permission::ContainerCreate));
}

#[test]
fn test_disabled_user_has_no_permissions() {
    let user = user("testuser", Role::Admin, vec![], false);
    assert!(!user.has_permission(&Permission::ContainerRead));
    assert!(!user.has_permission(&Permission::SystemAdmin));
}

#[test]
fn any_and_all_permissions() {
    let u = user("u", Role::Viewer, vec![Permission::ContainerStart], true);
    assert!(u.has_any_permission(&[Permission::SystemAdmin, Permission::ContainerStart]));
    assert!(!u.has_any_permission(&[Permission::SystemAdmin, Permission::ContainerCreate]));
    assert!(!u.has_any_permission(&[]));
    assert!(u.has_all_permissions(&[Permission::ContainerRead, Permission::ContainerStart]));
    assert!(!u.has_all_permissions(&[Permission::ContainerRead, Permission::SystemAdmin]));
    assert!(u.has_all_permissions(&[]));
    let off = user("u", Role::Admin, vec![], false);
    assert!(!off.has_any_permission(&[Permission::ContainerRead]));
    assert!(off.has_all_permissions(&[]));
}

#[test]
fn test_user_store() {
    let mut store = UserStore::new();

    // Default admin should exist
    assert!(store.get_user("admin").is_some());

    // Add a new user
    let user = user("testuser", Role::Viewer, vec![], true);
    store.add_user(user);

    assert!(store.get_user("testuser").is_some());
    assert_eq!(store.list_users().len(), 2);

    // Cannot delete admin
    assert!(store.delete_user("admin").is_err());

    // Can delete other users
    assert!(store.delete_user("testuser").is_ok());
    assert_eq!(store.list_users().len(), 1);
}

#[test]
fn user_store_keeps_one_user_per_name() {
    let mut store = UserStore::with_admin(77, 1234);
    let admin = store.get_user("admin").unwrap();
    assert_eq!(admin.id, 77);
    assert_eq!(admin.email.as_deref(), Some("admin@example.com"));
    assert_eq!(admin.role, Role::Admin);
    assert!(admin.enabled);
    assert_eq!(admin.created_at, 1234);
    assert_eq!(admin.updated_at, 1234);
    assert_eq!(store.delete_user("admin"), Err("Cannot delete admin user"));
    assert_eq!(store.delete_user("nobody"), Err("User not found"));
    assert_eq!(store.update_user("nobody", user("nobody", Role::Viewer, vec![], true)), Err("User not found"));
    store.add_user(user("a", Role::Viewer, vec![], true));
    store.add_user(user("b", Role::Viewer, vec![], true));
    store.add_user(user("a", Role::Operator, vec![], true));
    assert_eq!(store.list_users().len(), 3);
    assert_eq!(store.get_user("a").unwrap().role, Role::Operator);
    // the key is the name that was asked for, whatever the user is called
    assert_eq!(store.update_user("b", user("renamed", Role::Admin, vec![], false)), Ok(()));
    assert_eq!(store.get_user("b").unwrap().username, "renamed");
    assert!(store.get_user("renamed").is_none());
    assert_eq!(store.delete_user("a"), Ok(()));
    assert!(store.get_user("a").is_none());
    assert_eq!(store.get_user("b").unwrap().role, Role::Admin);
    let names: Vec<&str> = store.list_users().iter().map(|u| u.username.as_str()).collect();
    assert_eq!(names, vec!["admin", "renamed"]);
    let fresh = UserStore::new();
    let id = fresh.get_user("admin").unwrap().id;
    assert_eq!((id >> 76) & 0xf, 4);
    assert_eq!((id >> 62) & 0x3, 2);
}

#[test]
fn users_are_created_and_updated_by_requests() {
    let created = CreateUserRequest { username: "x".to_string(), email: None, role: Role::Operator }
        .into_user_with(5, 100);
    assert_eq!(created.id, 5);
    assert_eq!(created.username, "x");
    assert_eq!(created.role, Role::Operator);
    assert!(created.enabled);
    assert!(created.custom_permissions.is_empty());
    assert_eq!((created.created_at, created.updated_at), (100, 100));
    let mut u = created;
    UpdateUserRequest { email: Some("e@x".to_string()), role: None, enabled: Some(false) }.apply_at(&mut u, 200);
    assert_eq!(u.email.as_deref(), Some("e@x"));
    assert_eq!(u.role, Role::Operator);
    assert!(!u.enabled);
    assert_eq!((u.created_at, u.updated_at), (100, 200));
    UpdateUserRequest { email: None, role: Some(Role::Viewer), enabled: None }.apply_at(&mut u, 300);
    assert_eq!(u.email.as_deref(), Some("e@x"));
    assert_eq!(u.role, Role::Viewer);
    assert!(!u.enabled);
    UpdateUserRequest { email: None, role: None, enabled: None }.apply(&mut u);
    assert!(u.updated_at > 300);
    let now = CreateUserRequest { username: "y".to_string(), email: None, role: Role::Admin }.into_user();
    assert_eq!(now.created_at, now.updated_at);
}

#[test]
fn test_audit_logger() {
    let mut logger = AuditLogger::new(100);

    // Log a successful action using builder
    let log = AuditLogger::builder()
        .user("admin".to_string())
        .action(AuditAction::ContainerCreated)
        .resource_type("container".to_string())
        .resource_id("test-container".to_string())
        .result(AuditResult::Success)
        .ip_address("192.168.1.100".to_string())
        .details("Created alpine container".to_string())
        .build()
        .unwrap();
    logger.log_entry(log);

    assert_eq!(logger.count(), 1);

    // Log a failed action
    let log = AuditLogger::builder()
        .user("user1".to_string())
        .action(AuditAction::ContainerDeleted)
        .resource_type("container".to_string())
        .resource_id("test-container".to_string())
        .result(AuditResult::Failure("Permission denied".to_string()))
        .ip_address("192.168.1.101".to_string())
        .build()
        .unwrap();
    logger.log_entry(log);

    assert_eq!(logger.count(), 2);

    // Get all logs
    let all_logs = logger.get_logs(None, None, None, None);
    assert_eq!(all_logs.len(), 2);

    // Filter by user
    let admin_logs = logger.get_logs(Some("admin".to_string()), None, None, None);
    assert_eq!(admin_logs.len(), 1);
    assert_eq!(admin_logs[0].user, Some("admin".to_string()));

    // Filter by resource type
    let container_logs = logger.get_logs(None, None, Some("container".to_string()), None);
    assert_eq!(container_logs.len(), 2);

    // Limit results
    let limited = logger.get_logs(None, None, None, Some(1));
    assert_eq!(limited.len(), 1);
}

#[test]
fn test_max_logs() {
    let mut logger = AuditLogger::new(5);

    // Add 10 logs
    for i in 0..10 {
        let log = AuditLogger::builder()
            .user(format!("user{}", i))
            .action(AuditAction::UserLogin)
            .resource_type("user".to_string())
            .result(AuditResult::Success)
            .build()
            .unwrap();
        logger.log_entry(log);
    }

    // Should only keep the last 5
    assert_eq!(logger.count(), 5);
}

#[test]
fn test_audit_log_builder() {
    let log = AuditLogger::builder()
        .user("admin".to_string())
        .action(AuditAction::ContainerCreated)
        .resource_type("container".to_string())
        .result(AuditResult::Success)
        .build();

    assert!(log.is_ok());
    let log = log.unwrap();
    assert_eq!(log.user, Some("admin".to_string()));
}

#[test]
fn test_audit_log_builder_missing_required() {
    // Missing action
    let log = AuditLogger::builder()
        .user("admin".to_string())
        .resource_type("container".to_string())
        .result(AuditResult::Success)
        .build();

    assert!(log.is_err());
}

#[test]
fn audit_builder_names_what_is_missing() {
    let full = || {
        AuditLogBuilder::new()
            .action(AuditAction::UserLogin)
            .resource_type("user".to_string())
            .result(AuditResult::Success)
    };
    assert_eq!(AuditLogBuilder::new().build_with(1, 2).err(), Some("Action is required"));
    assert_eq!(
        AuditLogBuilder::new().action(AuditAction::UserLogin).build_with(1, 2).err(),
        Some("Resource type is required")
    );
    assert_eq!(
        AuditLogBuilder::new()
            .action(AuditAction::UserLogin)
            .resource_type("user".to_string())
            .build_with(1, 2)
            .err(),
        Some("Result is required")
    );
    assert_eq!(
        AuditLogBuilder::new().result(AuditResult::Success).build().err(),
        Some("Action is required")
    );
    let log = full().correlation_id(9).resource_id("r".to_string()).build_with(5, 6).unwrap();
    assert_eq!((log.id, log.timestamp), (5, 6));
    assert_eq!(log.action, AuditAction::UserLogin);
    assert_eq!(log.resource_type, "user");
    assert_eq!(log.resource_id.as_deref(), Some("r"));
    assert_eq!(log.correlation_id, Some(9));
    assert_eq!(log.user, None);
    assert_eq!(log.details, None);
    let copy = log.clone();
    assert_eq!((copy.id, copy.timestamp, copy.resource_type), (5, 6, "user".to_string()));
}

#[test]
fn audit_logs_come_latest_first() {
    let mut logger = AuditLogger::new(4);
    let record = |id: u128, time: i64, user: &str, action: AuditAction, kind: &str| {
        AuditLogBuilder::new()
            .user(user.to_string())
            .action(action)
            .resource_type(kind.to_string())
            .result(AuditResult::Success)
            .build_with(id, time)
            .unwrap()
    };
    logger.log_entry(record(1, 50, "a", AuditAction::UserLogin, "user"));
    logger.log_entry(record(2, 10, "b", AuditAction::UserLogin, "user"));
    logger.log_entry(record(3, 50, "a", AuditAction::BridgeCreated, "bridge"));
    logger.log_entry(record(4, 70, "b", AuditAction::UserLogout, "user"));
    let ids = |logs: Vec<arm_hypervisor::api::AuditLog>| -> Vec<u128> { logs.iter().map(|l| l.id).collect() };
    // records of the same time keep their order
    assert_eq!(ids(logger.get_logs(None, None, None, None)), vec![4, 1, 3, 2]);
    assert_eq!(ids(logger.get_logs(None, None, None, Some(2))), vec![4, 1]);
    assert_eq!(ids(logger.get_logs(None, None, None, Some(0))), Vec::<u128>::new());
    assert_eq!(ids(logger.get_logs(None, None, None, Some(9))), vec![4, 1, 3, 2]);
    assert_eq!(ids(logger.get_logs(Some("a".to_string()), None, None, None)), vec![1, 3]);
    assert_eq!(ids(logger.get_logs(None, Some(AuditAction::UserLogin), None, None)), vec![1, 2]);
    assert_eq!(ids(logger.get_logs(None, None, Some("bridge".to_string()), None)), vec![3]);
    assert_eq!(
        ids(logger.get_logs(Some("b".to_string()), Some(AuditAction::UserLogin), Some("user".to_string()), None)),
        vec![2]
    );
    assert!(logger.get_logs(Some("nobody".to_string()), None, None, None).is_empty());
    // the earliest is dropped when there is one too many
    logger.log_entry(record(5, 5, "c", AuditAction::UserLogin, "user"));
    assert_eq!(logger.count(), 4);
    assert_eq!(ids(logger.get_logs(None, None, None, None)), vec![4, 3, 2, 5]);
    let mut none = AuditLogger::new(0);
    none.log_entry(record(1, 1, "a", AuditAction::UserLogin, "user"));
    assert_eq!(none.count(), 0);
    assert_eq!(AuditLogger::default().count(), 0);
    let _ = AuditFilter { user: None, action: None, resource_type: None };
}

#[test]
fn test_default_config() {
    let mut config = AppConfig::default();
    assert_eq!(config.server.host, "0.0.0.0");
    assert_eq!(config.server.port, 8080);

    // Default config has auth enabled but no JWT secret, which should fail validation
    assert!(config.validate(true, true).is_err());

    // Adding a valid JWT secret should make it pass
    config.security.jwt_secret =
        Some("a-very-long-secure-jwt-secret-that-is-at-least-32-characters".to_string());
    assert!(config.validate(true, true).is_ok());
}

#[test]
fn test_config_validation() {
    let mut config = AppConfig::default();
    // Add valid JWT secret for auth
    config.security.jwt_secret =
        Some("a-very-long-secure-jwt-secret-that-is-at-least-32-characters".to_string());

    // Test invalid server config
    config.server.host = "".to_string();
    assert!(config.validate(true, true).is_err());

    // Fix and test valid config
    config.server.host = "localhost".to_string();
    assert!(config.validate(true, true).is_ok());
}

#[test]
fn test_env_config_override() {
    let mut config = AppConfig::default();
    config.apply_env(EnvSettings {
        server_host: Some("127.0.0.1".to_string()),
        server_port: Some("9090".to_string()),
        database_url: None,
        cluster_node_name: None,
        cluster_bind_address: None,
        cluster_bind_port: None,
        log_level: None,
        jwt_secret: None,
        auth_enabled: None,
    });
    assert_eq!(config.server.host, "127.0.0.1");
    assert_eq!(config.server.port, 9090);
}

#[test]
fn test_jwt_secret_validation() {
    let mut config = AppConfig::default();
    config.security.auth_enabled = true;

    // Test with no JWT secret
    config.security.jwt_secret = None;
    assert!(config.validate(true, true).is_err());

    // Test with weak JWT secret
    config.security.jwt_secret =
        Some("your-super-secret-jwt-key-change-this-in-production".to_string());
    let result = config.validate(true, true);
    assert!(result.is_err());
    if let Err(errors) = result {
        assert!(errors.iter().any(|e| e.contains("CRITICAL SECURITY ERROR")));
    }

    // Test with short JWT secret
    config.security.jwt_secret = Some("short".to_string());
    let result = config.validate(true, true);
    assert!(result.is_err());
    if let Err(errors) = result {
        assert!(errors.iter().any(|e| e.contains("at least 32 characters")));
    }

    // Test with valid JWT secret
    config.security.jwt_secret =
        Some("a-very-long-and-secure-jwt-secret-key-that-is-definitely-not-weak".to_string());
    assert!(config.validate(true, true).is_ok());
}

#[test]
fn default_config_values() {
    let c = AppConfig::with_host(3, "box".to_string());
    assert_eq!(c.server.workers, Some(3));
    assert_eq!(c.server.max_connections, Some(1000));
    assert_eq!(c.server.keepalive, Some(30));
    assert_eq!(c.server.client_timeout, Some(60));
    assert!(c.server.tls.is_none());
    assert_eq!(c.database.url, "sqlite:///var/lib/arm-hypervisor/database.db");
    assert_eq!(c.database.max_connections, Some(10));
    assert_eq!(c.database.idle_timeout, Some(600));
    assert_eq!(c.cluster.node_name, "box");
    assert_eq!(c.cluster.bind_port, 7946);
    assert_eq!(c.cluster.election_timeout, Some(5000));
    assert_eq!(c.cluster.heartbeat_interval, Some(1000));
    assert_eq!(c.storage.base_path, "/var/lib/arm-hypervisor/storage");
    assert_eq!(c.storage.pool_configs.len(), 1);
    assert_eq!(c.storage.pool_configs[0].path, "/var/lib/arm-hypervisor/storage/default");
    assert_eq!(c.network.default_bridge, "lxcbr0");
    assert_eq!(c.network.dns_servers, vec!["8.8.8.8", "8.8.4.4"]);
    assert_eq!(c.logging.level, "info");
    assert_eq!(c.logging.max_size.as_deref(), Some("100MB"));
    assert!(c.security.auth_enabled);
    assert_eq!(c.security.jwt_expiry, Some(86400));
    assert_eq!(c.security.cors_origins, vec!["*"]);
    assert!(c.security.allows_any_origin());
    assert_eq!(c.security.rate_limit.unwrap().requests_per_minute, 60);
    let here = AppConfig::default();
    assert!(here.server.workers.is_some());
}

#[test]
fn every_problem_of_a_config_is_reported_in_order() {
    let mut c = AppConfig::with_host(1, "".to_string());
    c.server.host = "".to_string();
    c.server.port = 0;
    c.database.url = "".to_string();
    c.cluster.bind_address = "".to_string();
    c.storage.default_pool = "".to_string();
    c.storage.pool_configs.clear();
    c.network.default_bridge = "".to_string();
    c.logging.level = "loud".to_string();
    c.security.jwt_secret = Some("secret".to_string());
    c.server.tls = Some(TlsConfig {
        cert_file: "/etc/cert.pem".to_string(),
        key_file: "/etc/key.pem".to_string(),
        ca_file: None,
    });
    let errors = c.validate(false, false).unwrap_err();
    assert_eq!(
        errors,
        vec![
            "Server host cannot be empty",
            "Server port must be greater than 0",
            "Database URL cannot be empty",
            "Cluster node name cannot be empty",
            "Cluster bind address cannot be empty",
            "Default storage pool name cannot be empty",
            "At least one storage pool configuration is required",
            "Default bridge name cannot be empty",
            "Invalid log level: loud",
            "CRITICAL SECURITY ERROR: JWT secret is using a default or weak value. Change it immediately!",
            "JWT secret must be at least 32 characters long for security",
            "TLS certificate file not found: \"/etc/cert.pem\"",
            "TLS key file not found: \"/etc/key.pem\"",
        ]
    );
    let errors = c.validate(true, false).unwrap_err();
    assert_eq!(errors.last().unwrap(), "TLS key file not found: \"/etc/key.pem\"");
    assert_eq!(errors.len(), 12);
    c.security.auth_enabled = false;
    assert_eq!(c.validate(true, true).unwrap_err().len(), 9);
    c.security.auth_enabled = true;
    c.security.jwt_secret = None;
    assert!(c
        .validate(true, true)
        .unwrap_err()
        .contains(&"JWT secret is required when authentication is enabled".to_string()));
    // 32 bytes are enough, 31 are not
    let mut ok = AppConfig::with_host(1, "n".to_string());
    ok.security.jwt_secret = Some("x".repeat(32));
    assert!(ok.validate(false, false).is_ok());
    ok.security.jwt_secret = Some("x".repeat(31));
    assert_eq!(
        ok.validate(false, false).unwrap_err(),
        vec!["JWT secret must be at least 32 characters long for security"]
    );
    ok.security.cors_origins = vec!["https://a".to_string()];
    assert!(!ok.security.allows_any_origin());
}

#[test]
fn a_file_overrides_what_it_names() {
    let mut base = AppConfig::with_host(4, "base".to_string());
    base.security.jwt_secret = Some("from-env".to_string());
    let mut file = AppConfig::with_host(9, "file".to_string());
    file.server.host = "10.0.0.1".to_string();
    file.server.port = 443;
    file.server.workers = None;
    file.server.keepalive = Some(5);
    file.database.url = "postgres://db".to_string();
    file.database.max_connections = None;
    file.logging.level = "debug".to_string();
    file.logging.format = None;
    file.logging.rotate = Some(false);
    file.security.auth_enabled = false;
    file.security.jwt_secret = None;
    file.security.rate_limit = None;
    file.security.api_keys = vec!["k".to_string()];
    file.network.default_bridge = "br9".to_string();
    base.merge_with_file(file);
    assert_eq!(base.server.host, "10.0.0.1");
    assert_eq!(base.server.port, 443);
    assert_eq!(base.server.workers, Some(4));
    assert_eq!(base.server.keepalive, Some(5));
    assert_eq!(base.database.url, "postgres://db");
    assert_eq!(base.database.max_connections, Some(10));
    assert_eq!(base.cluster.node_name, "file");
    assert_eq!(base.network.default_bridge, "br9");
    assert_eq!(base.logging.level, "debug");
    assert_eq!(base.logging.format.as_deref(), Some("json"));
    assert_eq!(base.logging.rotate, Some(false));
    assert!(!base.security.auth_enabled);
    assert_eq!(base.security.jwt_secret.as_deref(), Some("from-env"));
    assert_eq!(base.security.rate_limit.unwrap().burst_size, 10);
    assert_eq!(base.security.api_keys, vec!["k"]);
}

#[test]
fn the_environment_overrides_what_it_sets() {
    let mut c = AppConfig::with_host(1, "n".to_string());
    c.apply_env(EnvSettings {
        server_host: None,
        server_port: Some("not-a-port".to_string()),
        database_url: Some("sqlite://x".to_string()),
        cluster_node_name: Some("edge".to_string()),
        cluster_bind_address: Some("::".to_string()),
        cluster_bind_port: Some("+81".to_string()),
        log_level: Some("warn".to_string()),
        jwt_secret: Some("s".to_string()),
        auth_enabled: Some("false".to_string()),
    });
    assert_eq!(c.server.host, "0.0.0.0");
    assert_eq!(c.server.port, 8080);
    assert_eq!(c.database.url, "sqlite://x");
    assert_eq!(c.cluster.node_name, "edge");
    assert_eq!(c.cluster.bind_address, "::");
    assert_eq!(c.cluster.bind_port, 81);
    assert_eq!(c.logging.level, "warn");
    assert_eq!(c.security.jwt_secret.as_deref(), Some("s"));
    assert!(!c.security.auth_enabled);
    let mut on = AppConfig::with_host(1, "n".to_string());
    on.security.auth_enabled = false;
    let mut env = EnvSettings {
        server_host: None,
        server_port: None,
        database_url: None,
        cluster_node_name: None,
        cluster_bind_address: None,
        cluster_bind_port: None,
        log_level: None,
        jwt_secret: None,
        auth_enabled: None,
    };
    on.apply_env(env.clone());
    assert!(!on.security.auth_enabled);
    env.auth_enabled = Some("maybe".to_string());
    on.apply_env(env);
    assert!(on.security.auth_enabled);
}

#[test]
fn ports_are_read_as_the_standard_library_reads_them() {
    for text in ["0", "1", "80", "+80", "0080", "65535", "+65535", "000065535"] {
        assert_eq!(parse_port(text), text.parse::<u16>().ok(), "{}", text);
        assert!(parse_port(text).is_some());
    }
    for text in ["", "+", "-1", "65536", "99999", "8 0", " 80", "80 ", "8o", "++1", "1+", "0x50", "٣"] {
        assert_eq!(parse_port(text), text.parse::<u16>().ok(), "{}", text);
        assert_eq!(parse_port(text), None);
    }
    assert_eq!(parse_port("9090"), Some(9090));
}

#[test]
fn the_format_of_a_file_follows_its_name() {
    assert_eq!(ConfigFormat::for_path("/etc/arm-hypervisor/config.toml"), ConfigFormat::Toml);
    assert_eq!(ConfigFormat::for_path("./config.yaml"), ConfigFormat::Yaml);
    assert_eq!(ConfigFormat::for_path("config.yml"), ConfigFormat::Yaml);
    assert_eq!(ConfigFormat::for_path("config.json"), ConfigFormat::Json);
    assert_eq!(ConfigFormat::for_path("config"), ConfigFormat::Json);
    assert_eq!(ConfigFormat::for_path("toml"), ConfigFormat::Json);
    assert_eq!(ConfigFormat::for_path(".toml"), ConfigFormat::Toml);
    assert_eq!(ConfigFormat::for_path("a.toml.bak"), ConfigFormat::Json);
}

#[test]
fn metrics_count_and_wrap() {
    let mut m = MetricsCollector::started_at(10_000);
    assert_eq!((m.http_requests_total, m.http_errors_total, m.start_time), (0, 0, 10_000));
    m.record_request();
    m.record_request();
    m.record_error();
    assert_eq!((m.http_requests_total, m.http_errors_total), (2, 1));
    m.http_requests_total = u64::MAX;
    m.record_request();
    assert_eq!(m.http_requests_total, 0);
    m.http_errors_total = u64::MAX;
    m.record_error();
    assert_eq!(m.http_errors_total, 0);
    assert_eq!(m.uptime_seconds_at(10_000), 0);
    assert_eq!(m.uptime_seconds_at(10_999), 0);
    assert_eq!(m.uptime_seconds_at(11_000), 1);
    assert_eq!(m.uptime_seconds_at(75_500), 65);
    assert_eq!(m.uptime_seconds_at(9_000), 0);
    assert_eq!(MetricsCollector::started_at(i64::MIN).uptime_seconds_at(i64::MAX), u64::MAX / 1000);
    let now = MetricsCollector::new();
    assert_eq!((now.http_requests_total, now.http_errors_total), (0, 0));
    assert!(now.get_uptime_seconds() < 60);
}

#[test]
fn requests_are_traced() {
    let mut tracing = RequestTracing::new(MetricsCollector::started_at(0));
    let given = "550e8400-e29b-41d4-a716-446655440000";
    assert_eq!(tracing.begin(Some(given)), 0x550e8400_e29b_41d4_a716_446655440000);
    assert_eq!(correlation_id(Some("550E8400E29B41D4A716446655440000")), 0x550e8400_e29b_41d4_a716_446655440000);
    let fresh = tracing.begin(Some("not an id"));
    assert_eq!((fresh >> 76) & 0xf, 4);
    assert_eq!((fresh >> 62) & 0x3, 2);
    let other = tracing.begin(None);
    assert_ne!(fresh, other);
    assert_eq!(tracing.metrics.http_requests_total, 3);
    assert_eq!(resolve_id(Some(5)), 5);
    assert!(!tracing.finish(Some(200)));
    assert!(!tracing.finish(Some(302)));
    assert!(!tracing.finish(Some(399)));
    assert!(tracing.finish(Some(400)));
    assert!(tracing.finish(Some(404)));
    assert!(tracing.finish(Some(500)));
    assert!(tracing.finish(Some(599)));
    assert!(!tracing.finish(Some(600)));
    assert!(tracing.finish(None));
    assert_eq!(tracing.metrics.http_errors_total, 5);
    assert_eq!(tracing.metrics.http_requests_total, 3);
}

#[test]
fn system_checks_can_be_skipped() {
    for v in ["1", "true", "True", "TRUE"] {
        assert!(skip_system_checks(Some(v)));
    }
    for v in ["0", "false", "tRUE", "yes", "", " true"] {
        assert!(!skip_system_checks(Some(v)));
    }
    assert!(!skip_system_checks(None));
    assert!(overall_health(true, true));
    assert!(!overall_health(true, false));
    assert!(!overall_health(false, true));
    assert_eq!(health_status(true), 200);
    assert_eq!(health_status(false), 503);
    assert_eq!(used_of(10, 3), 7);
    assert_eq!(used_of(3, 10), 0);
}

#[test]
fn containers_are_counted_by_status() {
    let statuses = vec![
        Some(ContainerStatus::Running),
        Some(ContainerStatus::Stopped),
        None,
        Some(ContainerStatus::Running),
        Some(ContainerStatus::Frozen),
        Some(ContainerStatus::Error),
        None,
    ];
    assert_eq!(
        count_statuses(&statuses, true),
        ContainerCounts { total: 7, running: 2, stopped: 1, error: 3 }
    );
    assert_eq!(
        count_statuses(&statuses, false),
        ContainerCounts { total: 7, running: 2, stopped: 1, error: 1 }
    );
    assert_eq!(count_statuses(&vec![], true), ContainerCounts { total: 0, running: 0, stopped: 0, error: 0 });
}

#[test]
fn prometheus_text_is_three_lines_a_metric() {
    let mut out = String::from("x\n");
    add_metric(&mut out, "n", "some help", "gauge", "1.5");
    assert_eq!(out, "x\n# HELP n some help\n# TYPE n gauge\nn 1.5\n");
    let mut out = String::new();
    add_number(&mut out, "c", "h", "counter", 18446744073709551615);
    assert_eq!(out, "# HELP c h\n# TYPE c counter\nc 18446744073709551615\n");
    let mut collector = MetricsCollector::started_at(0);
    collector.record_request();
    collector.record_request();
    collector.record_error();
    let bare = SystemReport { load: None, memory: None, disk: None, cpu_count: 4, containers: None, bridges: None };
    assert_eq!(
        render_prometheus(&collector, 65, &bare),
        "# HELP arm_hypervisor_http_requests_total Total HTTP requests received\n\
         # TYPE arm_hypervisor_http_requests_total counter\n\
         arm_hypervisor_http_requests_total 2\n\
         # HELP arm_hypervisor_http_errors_total Total HTTP errors\n\
         # TYPE arm_hypervisor_http_errors_total counter\n\
         arm_hypervisor_http_errors_total 1\n\
         # HELP arm_hypervisor_uptime_seconds Server uptime in seconds\n\
         # TYPE arm_hypervisor_uptime_seconds gauge\n\
         arm_hypervisor_uptime_seconds 65\n\
         # HELP arm_hypervisor_cpu_count Number of CPU cores\n\
         # TYPE arm_hypervisor_cpu_count gauge\n\
         arm_hypervisor_cpu_count 4\n"
    );
    let full = SystemReport {
        load: Some(LoadText { one: "0.5".to_string(), five: "0.25".to_string(), fifteen: "0.1".to_string() }),
        memory: Some(MemoryUse { total: 1000, free: 400, avail: 600 }),
        disk: Some(DiskUse { total: 5000, free: 100 }),
        cpu_count: 8,
        containers: Some(ContainerCounts { total: 3, running: 2, stopped: 1, error: 0 }),
        bridges: Some(2),
    };
    let text = render_prometheus(&collector, 0, &full);
    let values: Vec<&str> = text.lines().filter(|l| !l.starts_with('#')).collect();
    assert_eq!(
        values,
        vec![
            "arm_hypervisor_http_requests_total 2",
            "arm_hypervisor_http_errors_total 1",
            "arm_hypervisor_uptime_seconds 0",
            "arm_hypervisor_system_load_1min 0.5",
            "arm_hypervisor_system_load_5min 0.25",
            "arm_hypervisor_system_load_15min 0.1",
            "arm_hypervisor_memory_total_kb 1000",
            "arm_hypervisor_memory_free_kb 400",
            "arm_hypervisor_memory_available_kb 600",
            "arm_hypervisor_disk_total_kb 5000",
            "arm_hypervisor_disk_free_kb 100",
            "arm_hypervisor_cpu_count 8",
            "arm_hypervisor_containers_total 3",
            "arm_hypervisor_containers_running 2",
            "arm_hypervisor_containers_stopped 1",
            "arm_hypervisor_containers_error 0",
            "arm_hypervisor_bridges_total 2",
        ]
    );
    assert_eq!(text.lines().count(), 17 * 3);
    assert!(text.contains("# HELP arm_hypervisor_system_load_15min System load average (15 minutes)\n"));
    assert!(text.contains("# TYPE arm_hypervisor_containers_error gauge\n"));
}

#[test]
fn storage_paths_are_split_as_the_service_splits_them() {
    let pair = |a: &str, b: &str| Some((a.to_string(), b.to_string()));
    assert_eq!(split_nfs_path("192.168.1.100:/exports/storage"), pair("192.168.1.100", "/exports/storage"));
    assert_eq!(split_nfs_path(":x"), pair("", "x"));
    assert_eq!(split_nfs_path("x:"), pair("x", ""));
    assert_eq!(split_nfs_path("no-colon"), None);
    assert_eq!(split_nfs_path("a:b:c"), None);
    assert_eq!(split_nfs_path(""), None);
    assert_eq!(split_cifs_path("//server/share"), pair("server", "share"));
    assert_eq!(split_cifs_path("////server/share"), pair("server", "share"));
    assert_eq!(split_cifs_path("///server/share"), None);
    assert_eq!(split_cifs_path("//server/"), pair("server", ""));
    assert_eq!(split_cifs_path("//server"), None);
    assert_eq!(split_cifs_path("//a/b/c"), None);
    assert_eq!(split_cifs_path("/server/share"), None);
    assert_eq!(split_cifs_path("server/share"), None);
    assert_eq!(split_cifs_path("//"), None);
    // the same as splitting with the standard library
    for path in ["//a/b", "////a/b", "//a//b", "//a", "///a/b", "//a/b/"] {
        let rest = path.trim_start_matches("//");
        let parts: Vec<&str> = rest.split('/').collect();
        let expected = if path.starts_with("//") && parts.len() == 2 {
            pair(parts[0], parts[1])
        } else {
            None
        };
        assert_eq!(split_cifs_path(path), expected, "{}", path);
    }
}

fn is_version_four(id: u128) -> bool {
    (id >> 76) & 0xf == 4 && (id >> 62) & 0x3 == 2
}

#[test]
fn a_fresh_builder_holds_nothing() {
    for b in [AuditLogger::builder(), AuditLogBuilder::new()] {
        assert!(b.user.is_none());
        assert!(b.action.is_none());
        assert!(b.resource_type.is_none());
        assert!(b.resource_id.is_none());
        assert!(b.result.is_none());
        assert!(b.ip_address.is_none());
        assert!(b.correlation_id.is_none());
        assert!(b.details.is_none());
        assert_eq!(b.build().err(), Some("Action is required"));
    }
}

#[test]
fn fresh_records_carry_random_identifiers() {
    let log = AuditLogger::builder()
        .action(AuditAction::UserLogin)
        .resource_type("session".to_string())
        .result(AuditResult::Success)
        .build()
        .unwrap();
    assert!(is_version_four(log.id));
    let made = CreateUserRequest { username: "z".to_string(), email: None, role: Role::Viewer }.into_user();
    assert!(is_version_four(made.id));
    let store = UserStore::new();
    assert!(is_version_four(store.get_user("admin").unwrap().id));
    assert_eq!(store.get_user("admin").unwrap().created_at, store.get_user("admin").unwrap().updated_at);
}

#[test]
fn a_new_collector_has_counted_nothing() {
    let before = MetricsCollector::started_at(0).start_time;
    let collector = MetricsCollector::new();
    assert_eq!(collector.http_requests_total, 0);
    assert_eq!(collector.http_errors_total, 0);
    assert!(collector.start_time > before);
    assert_eq!(collector.uptime_seconds_at(collector.start_time + 5_999), 5);
}

#[test]
fn the_heartbeat_must_be_shorter_than_the_election_timeout() {
    let mut config = AppConfig::default();
    config.security.jwt_secret =
        Some("a-very-long-secure-jwt-secret-that-is-at-least-32-characters".to_string());
    assert!(config.validate(true, true).is_ok());
    let message = "Cluster heartbeat interval must be shorter than the election timeout".to_string();
    for (heartbeat, timeout) in [(5000, 5000), (5001, 5000), (1, 0), (u64::MAX, 1)] {
        config.cluster.heartbeat_interval = Some(heartbeat);
        config.cluster.election_timeout = Some(timeout);
        assert_eq!(config.validate(true, true), Err(vec![message.clone()]));
    }
    for (heartbeat, timeout) in [(Some(4999), Some(5000)), (None, Some(1)), (Some(9), None), (None, None)] {
        config.cluster.heartbeat_interval = heartbeat;
        config.cluster.election_timeout = timeout;
        assert!(config.validate(true, true).is_ok());
    }
    // it is reported in the order of the sections
    config.cluster.heartbeat_interval = Some(2);
    config.cluster.election_timeout = Some(1);
    config.cluster.bind_address = String::new();
    config.storage.default_pool = String::new();
    assert_eq!(
        config.validate(true, true),
        Err(vec![
            "Cluster bind address cannot be empty".to_string(),
            message,
            "Default storage pool name cannot be empty".to_string(),
        ])
    );
}

#[test]
fn the_health_report_counts_skipped_checks_as_well() {
    for skip in [false, true] {
        for container in [false, true] {
            for network in [false, true] {
                let (healthy, container_well, network_well) = health_report(skip, container, network);
                assert_eq!(healthy, skip || (container && network));
                assert_eq!(container_well, skip || container);
                assert_eq!(network_well, skip || network);
                assert_eq!(health_status(healthy), if healthy { 200 } else { 503 });
            }
        }
    }
    assert_eq!(health_report(false, true, false), (false, true, false));
    assert_eq!(health_report(true, false, false), (true, true, true));
}

#[test]
fn paths_in_messages_are_shown_with_escapes() {
    let mut config = AppConfig::default();
    config.security.jwt_secret =
        Some("a-very-long-secure-jwt-secret-that-is-at-least-32-characters".to_string());
    config.server.tls = Some(TlsConfig {
        cert_file: "/etc/my \"own\" cert.pem".to_string(),
        key_file: "C:\\keys\\key\t1.pem".to_string(),
        ca_file: None,
    });
    assert_eq!(
        config.validate(false, false),
        Err(vec![
            "TLS certificate file not found: \"/etc/my \\\"own\\\" cert.pem\"".to_string(),
            "TLS key file not found: \"C:\\\\keys\\\\key\\t1.pem\"".to_string(),
        ])
    );
    assert!(config.validate(true, true).is_ok());
}

#[test]
fn missing_files_are_named_certificate_first() {
    let mut errors = vec!["before".to_string()];
    add_missing_files(&mut errors, "<cert>", "<key>", true, true);
    assert_eq!(errors, vec!["before"]);
    add_missing_files(&mut errors, "<cert>", "<key>", false, true);
    assert_eq!(errors, vec!["before", "TLS certificate file not found: <cert>"]);
    add_missing_files(&mut errors, "<cert>", "<key>", true, false);
    assert_eq!(errors.last().unwrap(), "TLS key file not found: <key>");
    let mut both = Vec::new();
    add_missing_files(&mut both, "a", "", false, false);
    assert_eq!(both, vec!["TLS certificate file not found: a", "TLS key file not found: "]);
}
