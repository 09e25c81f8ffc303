//! The rules of the management interface: who may do what, what is
//! recorded, how the service is configured and what it reports of itself.

pub mod audit;
pub mod config;
pub mod handlers;
pub mod middleware;
pub mod observability;
pub mod rbac;
pub mod request_tracing;

pub use audit::{AuditAction, AuditLog, AuditLogBuilder, AuditLogger, AuditResult};
pub use config::{
    AppConfig, ClusterConfig, ConfigFormat, DatabaseConfig, EnvSettings, LoggingConfig, NetworkConfig, PoolConfig,
    RateLimitConfig, SecurityConfig, ServerConfig, StorageConfig, TlsConfig,
};
pub use handlers::{
    AuditLogQuery, CloneFromSnapshotRequest, CreateSnapshotRequest, CreateUserRequest, RestoreSnapshotRequest,
    UpdateUserRequest,
};
pub use middleware::{RequestLogging, SecurityHeaders, SimpleCors};
pub use observability::MetricsCollector;
pub use rbac::{Permission, Role, User, UserStore};
pub use request_tracing::RequestTracing;
