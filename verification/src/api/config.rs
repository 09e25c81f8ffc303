//! The configuration of the service: its defaults, how a file and the
//! environment change it, and the rules it is held against.

use crate::sys::{cpu_count, host_name, show_path, shown_path};
use crate::text::{ends_with, equal, has_suffix, texts};
use vstd::prelude::*;
use vstd::string::*;
use vstd::utf8::*;

verus! {

/// The configuration of the service.
#[derive(Debug, Clone)]
pub struct AppConfig {
    pub server: ServerConfig,
    pub database: DatabaseConfig,
    pub cluster: ClusterConfig,
    pub storage: StorageConfig,
    pub network: NetworkConfig,
    pub logging: LoggingConfig,
    pub security: SecurityConfig,
}

#[derive(Debug, Clone)]
pub struct ServerConfig {
    pub host: String,
    pub port: u16,
    pub workers: Option<usize>,
    pub max_connections: Option<usize>,
    pub keepalive: Option<u64>,
    pub client_timeout: Option<u64>,
    pub tls: Option<TlsConfig>,
}

/// Where the certificate and the key of the server are; paths of files.
#[derive(Debug, Clone)]
pub struct TlsConfig {
    pub cert_file: String,
    pub key_file: String,
    pub ca_file: Option<String>,
}

#[derive(Debug, Clone)]
pub struct DatabaseConfig {
    pub url: String,
    pub max_connections: Option<u32>,
    pub min_connections: Option<u32>,
    pub acquire_timeout: Option<u64>,
    pub idle_timeout: Option<u64>,
}

/// How this node takes part in the cluster; times in milliseconds.
#[derive(Debug, Clone)]
pub struct ClusterConfig {
    pub node_id: Option<String>,
    pub node_name: String,
    pub bind_address: String,
    pub bind_port: u16,
    pub advertise_address: Option<String>,
    pub join_addresses: Vec<String>,
    pub election_timeout: Option<u64>,
    pub heartbeat_interval: Option<u64>,
}

#[derive(Debug, Clone)]
pub struct StorageConfig {
    pub base_path: String,
    pub default_pool: String,
    pub pool_configs: Vec<PoolConfig>,
}

/// One storage pool; its options are pairs of a name and a value.
#[derive(Debug, Clone)]
pub struct PoolConfig {
    pub name: String,
    pub storage_type: String,
    pub path: String,
    pub options: Vec<(String, String)>,
}

#[derive(Debug, Clone)]
pub struct NetworkConfig {
    pub default_bridge: String,
    pub bridge_prefix: String,
    pub ip_range: String,
    pub dns_servers: Vec<String>,
    pub firewall_enabled: bool,
}

#[derive(Debug, Clone)]
pub struct LoggingConfig {
    pub level: String,
    pub format: Option<String>,
    pub file: Option<String>,
    pub rotate: Option<bool>,
    pub max_files: Option<u32>,
    pub max_size: Option<String>,
}

#[derive(Debug, Clone)]
pub struct SecurityConfig {
    pub auth_enabled: bool,
    pub jwt_secret: Option<String>,
    pub jwt_expiry: Option<u64>,
    pub api_keys: Vec<String>,
    pub cors_origins: Vec<String>,
    pub rate_limit: Option<RateLimitConfig>,
}

#[derive(Debug, Clone, Copy, PartialEq, Eq, Structural)]
pub struct RateLimitConfig {
    pub requests_per_minute: u32,
    pub burst_size: u32,
}

/// The formats a configuration file can be written in.
#[derive(Debug, Clone, Copy, PartialEq, Eq, Structural)]
pub enum ConfigFormat {
    Toml,
    Yaml,
    Json,
}

/// The format of the file at `path`, by the ending of its name: TOML for
/// `.toml`, YAML for `.yaml` and `.yml`, JSON for everything else.
pub open spec fn format_of(path: Seq<char>) -> ConfigFormat {
    if has_suffix(path, ".toml"@) {
        ConfigFormat::Toml
    } else if has_suffix(path, ".yaml"@) || has_suffix(path, ".yml"@) {
        ConfigFormat::Yaml
    } else {
        ConfigFormat::Json
    }
}

impl ConfigFormat {
    /// The format of the file at `path`.
    pub fn for_path(path: &str) -> (format: ConfigFormat)
        ensures
            format == format_of(path@),
    {
        if ends_with(path, ".toml") {
            ConfigFormat::Toml
        } else if ends_with(path, ".yaml") || ends_with(path, ".yml") {
            ConfigFormat::Yaml
        } else {
            ConfigFormat::Json
        }
    }
}

/// `first` where it holds a value, else `second`.
pub open spec fn or_else<T>(first: Option<T>, second: Option<T>) -> Option<T> {
    if first is Some {
        first
    } else {
        second
    }
}

/// What a file changes in a configuration: where the file must name a
/// value, that value; where it may, its value if it names one.
pub open spec fn merged(base: AppConfig, file: AppConfig) -> AppConfig {
    AppConfig {
        server: ServerConfig {
            host: file.server.host,
            port: file.server.port,
            workers: or_else(file.server.workers, base.server.workers),
            max_connections: or_else(file.server.max_connections, base.server.max_connections),
            keepalive: or_else(file.server.keepalive, base.server.keepalive),
            client_timeout: or_else(file.server.client_timeout, base.server.client_timeout),
            tls: or_else(file.server.tls, base.server.tls),
        },
        database: DatabaseConfig {
            url: file.database.url,
            max_connections: or_else(file.database.max_connections, base.database.max_connections),
            min_connections: or_else(file.database.min_connections, base.database.min_connections),
            acquire_timeout: or_else(file.database.acquire_timeout, base.database.acquire_timeout),
            idle_timeout: or_else(file.database.idle_timeout, base.database.idle_timeout),
        },
        cluster: file.cluster,
        storage: file.storage,
        network: file.network,
        logging: LoggingConfig {
            level: file.logging.level,
            format: or_else(file.logging.format, base.logging.format),
            file: or_else(file.logging.file, base.logging.file),
            rotate: or_else(file.logging.rotate, base.logging.rotate),
            max_files: or_else(file.logging.max_files, base.logging.max_files),
            max_size: or_else(file.logging.max_size, base.logging.max_size),
        },
        security: SecurityConfig {
            auth_enabled: file.security.auth_enabled,
            jwt_secret: or_else(file.security.jwt_secret, base.security.jwt_secret),
            jwt_expiry: or_else(file.security.jwt_expiry, base.security.jwt_expiry),
            api_keys: file.security.api_keys,
            cors_origins: file.security.cors_origins,
            rate_limit: or_else(file.security.rate_limit, base.security.rate_limit),
        },
    }
}

/// What the environment may say about the configuration; each setting as
/// the text it was given as.
#[derive(Debug, Clone)]
pub struct EnvSettings {
    pub server_host: Option<String>,
    pub server_port: Option<String>,
    pub database_url: Option<String>,
    pub cluster_node_name: Option<String>,
    pub cluster_bind_address: Option<String>,
    pub cluster_bind_port: Option<String>,
    pub log_level: Option<String>,
    pub jwt_secret: Option<String>,
    pub auth_enabled: Option<String>,
}

/// The value of a run of decimal digits; `None` where a character is no
/// digit or the value passes 65535.
pub open spec fn digits_value(s: Seq<char>) -> Option<int>
    decreases s.len(),
{
    if s.len() == 0 {
        Some(0)
    } else {
        let c = s.last() as u32;
        match digits_value(s.drop_last()) {
            Some(v) => if 0x30 <= c <= 0x39 && v * 10 + (c - 0x30) <= 65535 {
                Some(v * 10 + (c - 0x30))
            } else {
                None
            },
            None => None,
        }
    }
}

/// The port that `s` names: decimal digits, at least one, after at most
/// one plus sign, with a value of at most 65535.
pub open spec fn port_of(s: Seq<char>) -> Option<u16> {
    let digits = if s.len() > 0 && s[0] == '+' {
        s.skip(1)
    } else {
        s
    };
    if digits.len() == 0 {
        None
    } else {
        match digits_value(digits) {
            Some(v) => Some(v as u16),
            None => None,
        }
    }
}

/// Reads a port.
pub fn parse_port(text: &str) -> (port: Option<u16>)
    ensures
        port == port_of(text@),
{
    let chars = crate::text::chars_of(text);
    let n = chars.len();
    let start: usize = if n > 0 && chars[0] == '+' {
        1
    } else {
        0
    };
    if start == n {
        return None;
    }
    let ghost digits = chars@.skip(start as int);
    let mut value: u32 = 0;
    let mut i: usize = start;
    assert(digits.take(0) =~= Seq::<char>::empty());
    while i < n
        invariant
            start <= i <= n,
            n == chars@.len(),
            chars@ == text@,
            start == 0 || (start == 1 && chars@[0] == '+'),
            start == 1 || !(chars@[0] == '+'),
            digits == chars@.skip(start as int),
            value <= 65535,
            digits_value(digits.take(i - start)) == Some(value as int),
        decreases n - i,
    {
        let c = chars[i] as u32;
        proof {
            let next = digits.take(i + 1 - start);
            assert(next.drop_last() =~= digits.take(i - start));
            assert(next.last() == chars@[i as int]);
        }
        if c < 0x30 || c > 0x39 || value * 10 + (c - 0x30) > 65535 {
            proof {
                lemma_digits_fail(digits, i + 1 - start);
                assert(chars@.skip(0) =~= chars@);
            }
            return None;
        }
        value = value * 10 + (c - 0x30);
        i = i + 1;
    }
    assert(digits.take(n - start) =~= digits);
    assert(chars@.skip(0) =~= chars@);
    Some(value as u16)
}

/// Digits that cannot be read up to some point cannot be read as a whole.
pub proof fn lemma_digits_fail(s: Seq<char>, upto: int)
    requires
        0 <= upto <= s.len(),
        digits_value(s.take(upto)) is None,
    ensures
        digits_value(s) is None,
    decreases s.len() - upto,
{
    if upto < s.len() {
        assert(s.take(upto + 1).drop_last() =~= s.take(upto));
        lemma_digits_fail(s, upto + 1);
    } else {
        assert(s.take(upto) =~= s);
    }
}

/// What the environment changes in a configuration: every setting that
/// is given replaces the value it names; a port that cannot be read is left
/// out; authentication is on unless the setting is `false`.
pub open spec fn with_env(base: AppConfig, env: EnvSettings) -> AppConfig {
    AppConfig {
        server: ServerConfig {
            host: match env.server_host {
                Some(h) => h,
                None => base.server.host,
            },
            port: match env.server_port {
                Some(p) => match port_of(p@) {
                    Some(n) => n,
                    None => base.server.port,
                },
                None => base.server.port,
            },
            ..base.server
        },
        database: DatabaseConfig {
            url: match env.database_url {
                Some(u) => u,
                None => base.database.url,
            },
            ..base.database
        },
        cluster: ClusterConfig {
            node_name: match env.cluster_node_name {
                Some(n) => n,
                None => base.cluster.node_name,
            },
            bind_address: match env.cluster_bind_address {
                Some(a) => a,
                None => base.cluster.bind_address,
            },
            bind_port: match env.cluster_bind_port {
                Some(p) => match port_of(p@) {
                    Some(n) => n,
                    None => base.cluster.bind_port,
                },
                None => base.cluster.bind_port,
            },
            ..base.cluster
        },
        logging: LoggingConfig {
            level: match env.log_level {
                Some(l) => l,
                None => base.logging.level,
            },
            ..base.logging
        },
        security: SecurityConfig {
            jwt_secret: match env.jwt_secret {
                Some(s) => Some(s),
                None => base.security.jwt_secret,
            },
            auth_enabled: match env.auth_enabled {
                Some(a) => a@ != "false"@,
                None => base.security.auth_enabled,
            },
            ..base.security
        },
        ..base
    }
}

/// The configuration a service starts from on a machine with `workers`
/// processors and the name `node_name`.
pub open spec fn is_default(c: AppConfig, workers: usize, node_name: Seq<char>) -> bool {
    &&& c.server.host@ == "0.0.0.0"@
    &&& c.server.port == 8080
    &&& c.server.workers == Some(workers)
    &&& c.server.max_connections == Some(1000usize)
    &&& c.server.keepalive == Some(30u64)
    &&& c.server.client_timeout == Some(60u64)
    &&& c.server.tls is None
    &&& c.database.url@ == "sqlite:///var/lib/arm-hypervisor/database.db"@
    &&& c.database.max_connections == Some(10u32)
    &&& c.database.min_connections == Some(1u32)
    &&& c.database.acquire_timeout == Some(30u64)
    &&& c.database.idle_timeout == Some(600u64)
    &&& c.cluster.node_id is None
    &&& c.cluster.node_name@ == node_name
    &&& c.cluster.bind_address@ == "0.0.0.0"@
    &&& c.cluster.bind_port == 7946
    &&& c.cluster.advertise_address is None
    &&& c.cluster.join_addresses@.len() == 0
    &&& c.cluster.election_timeout == Some(5000u64)
    &&& c.cluster.heartbeat_interval == Some(1000u64)
    &&& c.storage.base_path@ == "/var/lib/arm-hypervisor/storage"@
    &&& c.storage.default_pool@ == "default"@
    &&& c.storage.pool_configs@.len() == 1
    &&& c.storage.pool_configs@[0].name@ == "default"@
    &&& c.storage.pool_configs@[0].storage_type@ == "local"@
    &&& c.storage.pool_configs@[0].path@ == "/var/lib/arm-hypervisor/storage/default"@
    &&& c.storage.pool_configs@[0].options@.len() == 0
    &&& c.network.default_bridge@ == "lxcbr0"@
    &&& c.network.bridge_prefix@ == "hvbr"@
    &&& c.network.ip_range@ == "192.168.100.0/24"@
    &&& texts(c.network.dns_servers@) == seq!["8.8.8.8"@, "8.8.4.4"@]
    &&& c.network.firewall_enabled
    &&& c.logging.level@ == "info"@
    &&& c.logging.format matches Some(f) && f@ == "json"@
    &&& c.logging.file matches Some(f) && f@ == "/var/log/arm-hypervisor/hypervisor.log"@
    &&& c.logging.rotate == Some(true)
    &&& c.logging.max_files == Some(10u32)
    &&& c.logging.max_size matches Some(m) && m@ == "100MB"@
    &&& c.security.auth_enabled
    &&& c.security.jwt_secret is None
    &&& c.security.jwt_expiry == Some(86400u64)
    &&& c.security.api_keys@.len() == 0
    &&& texts(c.security.cors_origins@) == seq!["*"@]
    &&& c.security.rate_limit == Some(RateLimitConfig { requests_per_minute: 60, burst_size: 10 })
}

impl Default for AppConfig {
    /// The configuration a service starts from on this machine: see
    /// [`is_default`], with the number of processors and the host name of
    /// the machine.
    fn default() -> (config: AppConfig)
        ensures
            exists|workers: usize, node_name: Seq<char>| #[trigger] is_default(config, workers, node_name),
    {
        let workers = cpu_count();
        let node_name = host_name();
        let ghost name = node_name@;
        let config = AppConfig::with_host(workers, node_name);
        assert(is_default(config, workers, name));
        config
    }
}

impl AppConfig {
    /// The configuration a service starts from on a machine with `workers`
    /// processors and the name `node_name`.
    pub fn with_host(workers: usize, node_name: String) -> (config: AppConfig)
        ensures
            is_default(config, workers, node_name@),
    {
        let mut pool_configs: Vec<PoolConfig> = Vec::new();
        pool_configs.push(
            PoolConfig {
                name: String::from_str("default"),
                storage_type: String::from_str("local"),
                path: String::from_str("/var/lib/arm-hypervisor/storage/default"),
                options: Vec::new(),
            },
        );
        let mut dns_servers: Vec<String> = Vec::new();
        dns_servers.push(String::from_str("8.8.8.8"));
        dns_servers.push(String::from_str("8.8.4.4"));
        assert(texts(dns_servers@) =~= seq!["8.8.8.8"@, "8.8.4.4"@]);
        let mut cors_origins: Vec<String> = Vec::new();
        cors_origins.push(String::from_str("*"));
        assert(texts(cors_origins@) =~= seq!["*"@]);
        AppConfig {
            server: ServerConfig {
                host: String::from_str("0.0.0.0"),
                port: 8080,
                workers: Some(workers),
                max_connections: Some(1000),
                keepalive: Some(30),
                client_timeout: Some(60),
                tls: None,
            },
            database: DatabaseConfig {
                url: String::from_str("sqlite:///var/lib/arm-hypervisor/database.db"),
                max_connections: Some(10),
                min_connections: Some(1),
                acquire_timeout: Some(30),
                idle_timeout: Some(600),
            },
            cluster: ClusterConfig {
                node_id: None,
                node_name,
                bind_address: String::from_str("0.0.0.0"),
                bind_port: 7946,
                advertise_address: None,
                join_addresses: Vec::new(),
                election_timeout: Some(5000),
                heartbeat_interval: Some(1000),
            },
            storage: StorageConfig {
                base_path: String::from_str("/var/lib/arm-hypervisor/storage"),
                default_pool: String::from_str("default"),
                pool_configs,
            },
            network: NetworkConfig {
                default_bridge: String::from_str("lxcbr0"),
                bridge_prefix: String::from_str("hvbr"),
                ip_range: String::from_str("192.168.100.0/24"),
                dns_servers,
                firewall_enabled: true,
            },
            logging: LoggingConfig {
                level: String::from_str("info"),
                format: Some(String::from_str("json")),
                file: Some(String::from_str("/var/log/arm-hypervisor/hypervisor.log")),
                rotate: Some(true),
                max_files: Some(10),
                max_size: Some(String::from_str("100MB")),
            },
            security: SecurityConfig {
                auth_enabled: true,
                jwt_secret: None,
                jwt_expiry: Some(86400),
                api_keys: Vec::new(),
                cors_origins,
                rate_limit: Some(RateLimitConfig { requests_per_minute: 60, burst_size: 10 }),
            },
        }
    }

    /// Takes in what the environment says: see [`with_env`].
    pub fn apply_env(&mut self, env: EnvSettings)
        ensures
            *final(self) == with_env(*old(self), env),
    {
        match env.server_host {
            Some(h) => {
                self.server.host = h;
            },
            None => {},
        }
        match env.server_port {
            Some(p) => match parse_port(p.as_str()) {
                Some(n) => {
                    self.server.port = n;
                },
                None => {},
            },
            None => {},
        }
        match env.database_url {
            Some(u) => {
                self.database.url = u;
            },
            None => {},
        }
        match env.cluster_node_name {
            Some(n) => {
                self.cluster.node_name = n;
            },
            None => {},
        }
        match env.cluster_bind_address {
            Some(a) => {
                self.cluster.bind_address = a;
            },
            None => {},
        }
        match env.cluster_bind_port {
            Some(p) => match parse_port(p.as_str()) {
                Some(n) => {
                    self.cluster.bind_port = n;
                },
                None => {},
            },
            None => {},
        }
        match env.log_level {
            Some(l) => {
                self.logging.level = l;
            },
            None => {},
        }
        match env.jwt_secret {
            Some(s) => {
                self.security.jwt_secret = Some(s);
            },
            None => {},
        }
        match env.auth_enabled {
            Some(a) => {
                self.security.auth_enabled = !equal(a.as_str(), "false");
            },
            None => {},
        }
    }

    /// Takes in the configuration read from a file: see [`merged`].
    pub fn merge_with_file(&mut self, file_config: AppConfig)
        ensures
            *final(self) == merged(*old(self), file_config),
    {
        let mut base = file_config;
        core::mem::swap(self, &mut base);
        fill(&mut self.server.workers, base.server.workers);
        fill(&mut self.server.max_connections, base.server.max_connections);
        fill(&mut self.server.keepalive, base.server.keepalive);
        fill(&mut self.server.client_timeout, base.server.client_timeout);
        fill(&mut self.server.tls, base.server.tls);
        fill(&mut self.database.max_connections, base.database.max_connections);
        fill(&mut self.database.min_connections, base.database.min_connections);
        fill(&mut self.database.acquire_timeout, base.database.acquire_timeout);
        fill(&mut self.database.idle_timeout, base.database.idle_timeout);
        fill(&mut self.logging.format, base.logging.format);
        fill(&mut self.logging.file, base.logging.file);
        fill(&mut self.logging.rotate, base.logging.rotate);
        fill(&mut self.logging.max_files, base.logging.max_files);
        fill(&mut self.logging.max_size, base.logging.max_size);
        fill(&mut self.security.jwt_secret, base.security.jwt_secret);
        fill(&mut self.security.jwt_expiry, base.security.jwt_expiry);
        fill(&mut self.security.rate_limit, base.security.rate_limit);
    }
}

/// Gives `target` the value of `fallback` where it holds none.
fn fill<T>(target: &mut Option<T>, fallback: Option<T>)
    ensures
        *final(target) == or_else(*old(target), fallback),
{
    if target.is_none() {
        *target = fallback;
    }
}

/// One message where `failed`, none where not.
pub open spec fn when(failed: bool, message: Seq<char>) -> Seq<Seq<char>> {
    if failed {
        seq![message]
    } else {
        Seq::empty()
    }
}

/// Whether `level` names a level of logging.
pub open spec fn is_log_level(level: Seq<char>) -> bool {
    level == "trace"@ || level == "debug"@ || level == "info"@ || level == "warn"@ || level == "error"@
}

/// Whether `secret` is one of the secrets that everybody knows.
pub open spec fn is_weak_secret(secret: Seq<char>) -> bool {
    secret == "your-super-secret-jwt-key-change-this-in-production"@ || secret == "secret"@ || secret
        == "changeme"@ || secret == "password"@ || secret == "12345678"@
}

/// What is wrong with the secret that signs tokens, where authentication
/// is on: it is missing, known to everybody, or shorter than 32 bytes.
pub open spec fn secret_problems(security: SecurityConfig) -> Seq<Seq<char>> {
    if !security.auth_enabled {
        Seq::empty()
    } else {
        match security.jwt_secret {
            Some(secret) => when(
                is_weak_secret(secret@),
                "CRITICAL SECURITY ERROR: JWT secret is using a default or weak value. Change it immediately!"@,
            ) + when(
                encode_utf8(secret@).len() < 32,
                "JWT secret must be at least 32 characters long for security"@,
            ),
            None => seq!["JWT secret is required when authentication is enabled"@],
        }
    }
}

/// The messages for the files of the certificate and the key that were
/// not found; `cert_shown` and `key_shown` are their paths as a message
/// shows them.
pub open spec fn tls_messages(cert_shown: Seq<char>, key_shown: Seq<char>, cert_found: bool, key_found: bool) -> Seq<
    Seq<char>,
> {
    when(!cert_found, "TLS certificate file not found: "@ + cert_shown) + when(
        !key_found,
        "TLS key file not found: "@ + key_shown,
    )
}

/// What is wrong with the files of the certificate and the key, where
/// they are configured: one that was not found is named, its path shown as
/// [`shown_path`] writes it.
pub open spec fn tls_problems(tls: Option<TlsConfig>, cert_found: bool, key_found: bool) -> Seq<Seq<char>> {
    match tls {
        Some(t) => tls_messages(shown_path(t.cert_file@), shown_path(t.key_file@), cert_found, key_found),
        None => Seq::empty(),
    }
}

/// Whether the heartbeat of the cluster is not shorter than the time after
/// which a node stands for election, where both are set: followers would
/// then stand for election under a healthy leader.
pub open spec fn heartbeat_too_slow(cluster: ClusterConfig) -> bool {
    match (cluster.heartbeat_interval, cluster.election_timeout) {
        (Some(heartbeat), Some(timeout)) => heartbeat >= timeout,
        _ => false,
    }
}

/// Everything that is wrong with a configuration, in the order of its
/// sections.
pub open spec fn problems(c: AppConfig, cert_found: bool, key_found: bool) -> Seq<Seq<char>> {
    when(c.server.host@.len() == 0, "Server host cannot be empty"@) + when(
        c.server.port == 0,
        "Server port must be greater than 0"@,
    ) + when(c.database.url@.len() == 0, "Database URL cannot be empty"@) + when(
        c.cluster.node_name@.len() == 0,
        "Cluster node name cannot be empty"@,
    ) + when(c.cluster.bind_address@.len() == 0, "Cluster bind address cannot be empty"@) + when(
        heartbeat_too_slow(c.cluster),
        "Cluster heartbeat interval must be shorter than the election timeout"@,
    ) + when(c.storage.default_pool@.len() == 0, "Default storage pool name cannot be empty"@) + when(c.storage.pool_configs@.len() == 0, "At least one storage pool configuration is required"@)
        + when(c.network.default_bridge@.len() == 0, "Default bridge name cannot be empty"@) + when(
        !is_log_level(c.logging.level@),
        "Invalid log level: "@ + c.logging.level@,
    ) + secret_problems(c.security) + tls_problems(c.server.tls, cert_found, key_found)
}

/// Adds `message` to `errors` where `failed`.
fn note(errors: &mut Vec<String>, failed: bool, message: String)
    ensures
        texts(final(errors)@) == texts(old(errors)@) + when(failed, message@),
{
    let ghost before = texts(errors@);
    if failed {
        errors.push(message);
        assert(texts(errors@) =~= before + seq![message@]);
    } else {
        assert(texts(errors@) =~= before + Seq::<Seq<char>>::empty());
    }
}

/// `head`, `middle` and `tail` in a row.
fn joined(head: &str, middle: &str, tail: &str) -> (text: String)
    ensures
        text@ == head@ + middle@ + tail@,
{
    let mut text = String::from_str(head);
    text.append(middle);
    text.append(tail);
    text
}

impl SecurityConfig {
    /// Adds to `errors` what is wrong with the secret that signs tokens.
    fn check_secret(&self, errors: &mut Vec<String>)
        ensures
            texts(final(errors)@) == texts(old(errors)@) + secret_problems(*self),
    {
        let ghost before = texts(errors@);
        if self.auth_enabled {
            match &self.jwt_secret {
                Some(secret) => {
                    let s = secret.as_str();
                    let weak = equal(s, "your-super-secret-jwt-key-change-this-in-production") || equal(
                        s,
                        "secret",
                    ) || equal(s, "changeme") || equal(s, "password") || equal(s, "12345678");
                    note(
                        errors,
                        weak,
                        String::from_str(
                            "CRITICAL SECURITY ERROR: JWT secret is using a default or weak value. Change it immediately!",
                        ),
                    );
                    let bytes = s.as_bytes();
                    note(
                        errors,
                        bytes.len() < 32,
                        String::from_str("JWT secret must be at least 32 characters long for security"),
                    );
                    assert(texts(errors@) =~= before + secret_problems(*self));
                },
                None => {
                    note(
                        errors,
                        true,
                        String::from_str("JWT secret is required when authentication is enabled"),
                    );
                },
            }
        } else {
            assert(texts(errors@) =~= before + secret_problems(*self));
        }
    }

    /// Whether requests from every origin are let in.
    pub fn allows_any_origin(&self) -> (open: bool)
        ensures
            open == texts(self.cors_origins@).contains("*"@),
    {
        crate::text::list_contains(&self.cors_origins, "*")
    }
}

/// Adds to `errors` a message for each of the two files that was not
/// found: first the certificate, then the key. `cert_shown` and `key_shown`
/// are their paths as a message shows them.
pub fn add_missing_files(
    errors: &mut Vec<String>,
    cert_shown: &str,
    key_shown: &str,
    cert_found: bool,
    key_found: bool,
)
    ensures
        texts(final(errors)@) == texts(old(errors)@) + tls_messages(cert_shown@, key_shown@, cert_found, key_found),
{
    let ghost before = texts(errors@);
    note(errors, !cert_found, joined("TLS certificate file not found: ", cert_shown, ""));
    note(errors, !key_found, joined("TLS key file not found: ", key_shown, ""));
    proof {
        reveal_strlit("");
        assert("TLS certificate file not found: "@ + cert_shown@ + ""@ =~= "TLS certificate file not found: "@
            + cert_shown@);
        assert("TLS key file not found: "@ + key_shown@ + ""@ =~= "TLS key file not found: "@ + key_shown@);
        assert(texts(errors@) =~= before + tls_messages(cert_shown@, key_shown@, cert_found, key_found));
    }
}

impl AppConfig {
    /// Adds to `errors` what is wrong with the files of the certificate and
    /// the key.
    fn check_tls(&self, errors: &mut Vec<String>, cert_found: bool, key_found: bool)
        ensures
            texts(final(errors)@) == texts(old(errors)@) + tls_problems(self.server.tls, cert_found, key_found),
    {
        let ghost before = texts(errors@);
        match &self.server.tls {
            Some(t) => {
                let cert_shown = show_path(t.cert_file.as_str());
                let key_shown = show_path(t.key_file.as_str());
                add_missing_files(errors, cert_shown.as_str(), key_shown.as_str(), cert_found, key_found);
            },
            None => {
                assert(texts(errors@) =~= before + tls_problems(self.server.tls, cert_found, key_found));
            },
        }
    }

    /// Adds to `errors` what is wrong outside the security section.
    fn check_sections(&self, errors: &mut Vec<String>)
        requires
            old(errors)@.len() == 0,
        ensures
            texts(final(errors)@) + secret_problems(self.security) + tls_problems(
                self.server.tls,
                true,
                true,
            ) == problems(*self, true, true),
    {
        note(errors, self.server.host.as_str().is_empty(), String::from_str("Server host cannot be empty"));
        note(errors, self.server.port == 0, String::from_str("Server port must be greater than 0"));
        note(errors, self.database.url.as_str().is_empty(), String::from_str("Database URL cannot be empty"));
        note(
            errors,
            self.cluster.node_name.as_str().is_empty(),
            String::from_str("Cluster node name cannot be empty"),
        );
        note(
            errors,
            self.cluster.bind_address.as_str().is_empty(),
            String::from_str("Cluster bind address cannot be empty"),
        );
        let too_slow = match (self.cluster.heartbeat_interval, self.cluster.election_timeout) {
            (Some(heartbeat), Some(timeout)) => heartbeat >= timeout,
            _ => false,
        };
        note(
            errors,
            too_slow,
            String::from_str("Cluster heartbeat interval must be shorter than the election timeout"),
        );
        note(
            errors,
            self.storage.default_pool.as_str().is_empty(),
            String::from_str("Default storage pool name cannot be empty"),
        );
        note(
            errors,
            self.storage.pool_configs.len() == 0,
            String::from_str("At least one storage pool configuration is required"),
        );
        note(
            errors,
            self.network.default_bridge.as_str().is_empty(),
            String::from_str("Default bridge name cannot be empty"),
        );
        let level = self.logging.level.as_str();
        let known = equal(level, "trace") || equal(level, "debug") || equal(level, "info") || equal(
            level,
            "warn",
        ) || equal(level, "error");
        note(errors, !known, joined("Invalid log level: ", level, ""));
        proof {
            assert("Invalid log level: "@ + level@ + ""@ =~= "Invalid log level: "@ + level@) by {
                reveal_strlit("");
            }
            assert(texts(errors@) + secret_problems(self.security) + tls_problems(self.server.tls, true, true)
                =~= problems(*self, true, true));
        }
    }

    /// Holds the configuration against its rules. `cert_found` and
    /// `key_found` say whether the files of the certificate and the key are
    /// there; they matter only where the configuration names such files.
    /// All that is wrong is reported, in the order of the sections.
    pub fn validate(&self, cert_found: bool, key_found: bool) -> (outcome: Result<(), Vec<String>>)
        ensures
            outcome is Ok <==> problems(*self, cert_found, key_found).len() == 0,
            outcome matches Err(errors) ==> texts(errors@) == problems(*self, cert_found, key_found),
    {
        let mut errors: Vec<String> = Vec::new();
        self.check_sections(&mut errors);
        let ghost sections = texts(errors@);
        self.security.check_secret(&mut errors);
        self.check_tls(&mut errors, cert_found, key_found);
        proof {
            lemma_problems_split(*self, cert_found, key_found);
            assert(texts(errors@) =~= problems(*self, cert_found, key_found));
        }
        if errors.len() == 0 {
            Ok(())
        } else {
            Err(errors)
        }
    }
}

/// The problems of a configuration are those of its sections, then of the
/// secret, then of the files.
pub proof fn lemma_problems_split(c: AppConfig, cert_found: bool, key_found: bool)
    ensures
        problems(c, cert_found, key_found).subrange(
            0,
            problems(c, true, true).len() - secret_problems(c.security).len(),
        ) + secret_problems(c.security) + tls_problems(c.server.tls, cert_found, key_found) == problems(
            c,
            cert_found,
            key_found,
        ),
        problems(c, true, true).subrange(
            0,
            problems(c, true, true).len() - secret_problems(c.security).len(),
        ) == problems(c, cert_found, key_found).subrange(
            0,
            problems(c, true, true).len() - secret_problems(c.security).len(),
        ),
{
    assert(tls_problems(c.server.tls, true, true) =~= Seq::<Seq<char>>::empty());
    let n = problems(c, true, true).len() - secret_problems(c.security).len();
    assert(problems(c, cert_found, key_found).subrange(0, n) + secret_problems(c.security) + tls_problems(
        c.server.tls,
        cert_found,
        key_found,
    ) =~= problems(c, cert_found, key_found));
    assert(problems(c, true, true).subrange(0, n) =~= problems(c, cert_found, key_found).subrange(0, n));
}

} // verus!
