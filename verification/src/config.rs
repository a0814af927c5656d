//! Configuration types for the orchestrator and their validation rules.
//!
//! Time intervals are carried as whole seconds and the rebalance threshold as
//! thousandths, so that every validation rule and every decision derived from
//! the configuration is exact integer arithmetic.

use vstd::prelude::*;
use vstd::string::StringExecFns;

use crate::text::{ascii_lower, dec_str, str_eq_ignore_ascii_case, u64_to_string};

verus! {

/// Configuration errors raised while loading or validating settings.
#[derive(Debug, Clone)]
pub enum ConfigError {
    /// Configuration file not found.
    FileNotFound(String),
    /// Invalid configuration value.
    InvalidValue(String),
    /// Missing required configuration.
    MissingRequired(String),
    /// Configuration parsing error.
    ParseError(String),
    /// Environment variable error.
    EnvError(String),
    /// Validation error.
    ValidationError(String),
}

impl ConfigError {
    /// A human-readable description of the error.
    pub fn message(&self) -> (m: String)
        ensures
            m@ == match self {
                ConfigError::FileNotFound(s) => "Configuration file not found: "@ + s@,
                ConfigError::InvalidValue(s) => "Invalid configuration: "@ + s@,
                ConfigError::MissingRequired(s) => "Missing required configuration: "@ + s@,
                ConfigError::ParseError(s) => "Failed to parse configuration: "@ + s@,
                ConfigError::EnvError(s) => "Environment variable error: "@ + s@,
                ConfigError::ValidationError(s) => "Configuration validation failed: "@ + s@,
            },
    {
        match self {
            ConfigError::FileNotFound(s) => {
                let mut m = "Configuration file not found: ".to_owned();
                m.append(s.as_str());
                m
            },
            ConfigError::InvalidValue(s) => {
                let mut m = "Invalid configuration: ".to_owned();
                m.append(s.as_str());
                m
            },
            ConfigError::MissingRequired(s) => {
                let mut m = "Missing required configuration: ".to_owned();
                m.append(s.as_str());
                m
            },
            ConfigError::ParseError(s) => {
                let mut m = "Failed to parse configuration: ".to_owned();
                m.append(s.as_str());
                m
            },
            ConfigError::EnvError(s) => {
                let mut m = "Environment variable error: ".to_owned();
                m.append(s.as_str());
                m
            },
            ConfigError::ValidationError(s) => {
                let mut m = "Configuration validation failed: ".to_owned();
                m.append(s.as_str());
                m
            },
        }
    }
}

/// API server configuration.
#[derive(Debug, Clone)]
pub struct ApiConfig {
    /// Host address to bind to.
    pub host: String,
    /// Port number to listen on.
    pub port: u16,
    /// Enable CORS.
    pub cors_enabled: bool,
    /// API rate limit (requests per minute).
    pub rate_limit: u32,
}

/// Default for CORS support.
pub fn default_cors() -> (b: bool)
    ensures
        b == true,
{
    true
}

/// Default API rate limit.
pub fn default_rate_limit() -> (r: u32)
    ensures
        r == 100,
{
    100
}

impl ApiConfig {
    /// All validation rules for the API server settings.
    pub open spec fn valid(&self) -> bool {
        &&& self.host@.len() > 0
        &&& self.port > 0
        &&& self.rate_limit > 0
    }

    /// Validate API configuration.
    pub fn validate(&self) -> (r: Result<(), String>)
        ensures
            r is Ok <==> self.valid(),
            self.host@.len() == 0 ==> (r matches Err(m) && m@ == "host cannot be empty"@),
            self.host@.len() > 0 && self.port == 0 ==> (r matches Err(m) && m@
                == "port must be greater than 0"@),
            self.host@.len() > 0 && self.port > 0 && self.rate_limit == 0 ==> (r matches Err(m)
                && m@ == "rate_limit must be greater than 0"@),
    {
        if self.host.as_str().is_empty() {
            return Err("host cannot be empty".to_owned());
        }
        if self.port == 0 {
            return Err("port must be greater than 0".to_owned());
        }
        if self.rate_limit == 0 {
            return Err("rate_limit must be greater than 0".to_owned());
        }
        Ok(())
    }

    /// The socket address for binding, `host:port`.
    pub fn socket_addr(&self) -> (s: String)
        ensures
            s@ == self.host@ + ":"@ + dec_str(self.port as nat),
    {
        let mut s = self.host.clone();
        s.append(":");
        let port = u64_to_string(self.port as u64);
        s.append(port.as_str());
        s
    }
}

impl Default for ApiConfig {
    /// The stock API settings: bind everywhere on port 3000.
    fn default() -> (c: Self)
        ensures
            c.host@ == "0.0.0.0"@,
            c.port == 3000,
            c.cors_enabled == true,
            c.rate_limit == 100,
    {
        ApiConfig {
            host: "0.0.0.0".to_owned(),
            port: 3000,
            cors_enabled: true,
            rate_limit: 100,
        }
    }
}

/// Configuration for the block cache service.
#[derive(Debug, Clone)]
pub struct BlockCacheConfig {
    /// TTL for cached blocks in seconds.
    pub block_ttl: u64,
    /// TTL for the latest block number in seconds.
    pub latest_block_ttl: u64,
    /// Key prefix for cache entries.
    pub key_prefix: String,
}

impl BlockCacheConfig {
    /// All validation rules for the cache settings.
    pub open spec fn valid(&self) -> bool {
        &&& self.block_ttl > 0
        &&& self.latest_block_ttl > 0
        &&& self.key_prefix@.len() > 0
    }

    /// Validate block cache configuration.
    pub fn validate(&self) -> (r: Result<(), String>)
        ensures
            r is Ok <==> self.valid(),
            self.block_ttl == 0 ==> (r matches Err(m) && m@
                == "block_ttl must be greater than 0"@),
            self.block_ttl > 0 && self.latest_block_ttl == 0 ==> (r matches Err(m) && m@
                == "latest_block_ttl must be greater than 0"@),
            self.block_ttl > 0 && self.latest_block_ttl > 0 && self.key_prefix@.len() == 0 ==> (
            r matches Err(m) && m@ == "key_prefix cannot be empty"@),
    {
        if self.block_ttl == 0 {
            return Err("block_ttl must be greater than 0".to_owned());
        }
        if self.latest_block_ttl == 0 {
            return Err("latest_block_ttl must be greater than 0".to_owned());
        }
        if self.key_prefix.as_str().is_empty() {
            return Err("key_prefix cannot be empty".to_owned());
        }
        Ok(())
    }
}

impl Default for BlockCacheConfig {
    /// One minute for block batches, five seconds for the latest height.
    fn default() -> (c: Self)
        ensures
            c.block_ttl == 60,
            c.latest_block_ttl == 5,
            c.key_prefix@ == "oz_cache"@,
    {
        BlockCacheConfig {
            block_ttl: 60,
            latest_block_ttl: 5,
            key_prefix: "oz_cache".to_owned(),
        }
    }
}

/// Shared block watcher configuration.
#[derive(Debug, Clone)]
pub struct SharedBlockWatcherConfig {
    /// Channel buffer size for block events.
    pub channel_buffer_size: usize,
    /// Maximum blocks to fetch per iteration.
    pub max_blocks_per_fetch: u64,
    /// Block fetch retry attempts.
    pub retry_attempts: u32,
    /// Retry delay in milliseconds.
    pub retry_delay_ms: u64,
}

impl SharedBlockWatcherConfig {
    /// All validation rules for the watcher settings.
    pub open spec fn valid(&self) -> bool {
        &&& self.channel_buffer_size > 0
        &&& self.max_blocks_per_fetch > 0
        &&& self.retry_attempts > 0
        &&& self.retry_delay_ms > 0
    }

    /// Validate block watcher configuration.
    pub fn validate(&self) -> (r: Result<(), String>)
        ensures
            r is Ok <==> self.valid(),
            self.channel_buffer_size == 0 ==> (r matches Err(m) && m@
                == "channel_buffer_size must be greater than 0"@),
            self.channel_buffer_size > 0 && self.max_blocks_per_fetch == 0 ==> (r matches Err(m)
                && m@ == "max_blocks_per_fetch must be greater than 0"@),
            self.channel_buffer_size > 0 && self.max_blocks_per_fetch > 0 && self.retry_attempts
                == 0 ==> (r matches Err(m) && m@ == "retry_attempts must be greater than 0"@),
            self.channel_buffer_size > 0 && self.max_blocks_per_fetch > 0 && self.retry_attempts
                > 0 && self.retry_delay_ms == 0 ==> (r matches Err(m) && m@
                == "retry_delay_ms must be greater than 0"@),
    {
        if self.channel_buffer_size == 0 {
            return Err("channel_buffer_size must be greater than 0".to_owned());
        }
        if self.max_blocks_per_fetch == 0 {
            return Err("max_blocks_per_fetch must be greater than 0".to_owned());
        }
        if self.retry_attempts == 0 {
            return Err("retry_attempts must be greater than 0".to_owned());
        }
        if self.retry_delay_ms == 0 {
            return Err("retry_delay_ms must be greater than 0".to_owned());
        }
        Ok(())
    }
}

impl Default for SharedBlockWatcherConfig {
    /// Buffer a thousand events, fetch up to a hundred blocks, retry three
    /// times starting from one second.
    fn default() -> (c: Self)
        ensures
            c.channel_buffer_size == 1000,
            c.max_blocks_per_fetch == 100,
            c.retry_attempts == 3,
            c.retry_delay_ms == 1000,
    {
        SharedBlockWatcherConfig {
            channel_buffer_size: 1000,
            max_blocks_per_fetch: 100,
            retry_attempts: 3,
            retry_delay_ms: 1000,
        }
    }
}

/// Load balancing strategy.
#[derive(Debug, Clone, Copy, PartialEq, Eq, Structural)]
pub enum LoadBalancingStrategy {
    /// Round-robin distribution.
    RoundRobin,
    /// Least loaded worker first.
    LeastLoaded,
    /// Hash partitioning with tenant affinity.
    ConsistentHashing,
    /// Activity-based distribution.
    ActivityBased,
}

impl Default for LoadBalancingStrategy {
    /// Affinity-preserving hashing is the stock strategy.
    fn default() -> (s: Self)
        ensures
            s == LoadBalancingStrategy::ConsistentHashing,
    {
        LoadBalancingStrategy::ConsistentHashing
    }
}

/// Load balancer configuration.
#[derive(Debug, Clone)]
pub struct LoadBalancerConfig {
    /// Load balancing strategy.
    pub strategy: LoadBalancingStrategy,
    /// Maximum tenants per worker.
    pub max_tenants_per_worker: usize,
    /// Rebalance threshold in thousandths (0 to 1000 stands for 0.0 to 1.0).
    pub rebalance_threshold_milli: u32,
    /// Minimum interval between rebalances, in seconds.
    pub min_rebalance_interval_secs: u64,
}

impl LoadBalancerConfig {
    /// All validation rules for the balancer settings.
    pub open spec fn valid(&self) -> bool {
        &&& self.max_tenants_per_worker > 0
        &&& self.rebalance_threshold_milli <= 1000
        &&& self.min_rebalance_interval_secs >= 60
    }

    /// Validate load balancer configuration.
    pub fn validate(&self) -> (r: Result<(), String>)
        ensures
            r is Ok <==> self.valid(),
            self.max_tenants_per_worker == 0 ==> (r matches Err(m) && m@
                == "max_tenants_per_worker must be greater than 0"@),
            self.max_tenants_per_worker > 0 && self.rebalance_threshold_milli > 1000 ==> (
            r matches Err(m) && m@ == "rebalance_threshold must be between 0.0 and 1.0"@),
            self.max_tenants_per_worker > 0 && self.rebalance_threshold_milli <= 1000
                && self.min_rebalance_interval_secs < 60 ==> (r matches Err(m) && m@
                == "min_rebalance_interval must be at least 60 seconds"@),
    {
        if self.max_tenants_per_worker == 0 {
            return Err("max_tenants_per_worker must be greater than 0".to_owned());
        }
        if self.rebalance_threshold_milli > 1000 {
            return Err("rebalance_threshold must be between 0.0 and 1.0".to_owned());
        }
        if self.min_rebalance_interval_secs < 60 {
            return Err("min_rebalance_interval must be at least 60 seconds".to_owned());
        }
        Ok(())
    }
}

impl Default for LoadBalancerConfig {
    /// Hashing strategy, fifty tenants per worker, a twenty percent imbalance
    /// threshold and five minutes between rebalances.
    fn default() -> (c: Self)
        ensures
            c.strategy == LoadBalancingStrategy::ConsistentHashing,
            c.max_tenants_per_worker == 50,
            c.rebalance_threshold_milli == 200,
            c.min_rebalance_interval_secs == 300,
    {
        LoadBalancerConfig {
            strategy: LoadBalancingStrategy::ConsistentHashing,
            max_tenants_per_worker: 50,
            rebalance_threshold_milli: 200,
            min_rebalance_interval_secs: 300,
        }
    }
}

/// Worker configuration.
#[derive(Debug, Clone)]
pub struct WorkerConfig {
    /// Maximum number of tenants per worker.
    pub max_tenants_per_worker: usize,
    /// Worker health check interval, in seconds.
    pub health_check_interval_secs: u64,
    /// Tenant configuration reload interval, in seconds.
    pub tenant_reload_interval_secs: u64,
}

impl WorkerConfig {
    /// All validation rules for the worker settings.
    pub open spec fn valid(&self) -> bool {
        &&& self.max_tenants_per_worker > 0
        &&& self.health_check_interval_secs >= 5
        &&& self.tenant_reload_interval_secs >= 30
    }

    /// Validate worker configuration.
    pub fn validate(&self) -> (r: Result<(), String>)
        ensures
            r is Ok <==> self.valid(),
            self.max_tenants_per_worker == 0 ==> (r matches Err(m) && m@
                == "max_tenants_per_worker must be greater than 0"@),
            self.max_tenants_per_worker > 0 && self.health_check_interval_secs < 5 ==> (
            r matches Err(m) && m@ == "health_check_interval must be at least 5 seconds"@),
            self.max_tenants_per_worker > 0 && self.health_check_interval_secs >= 5
                && self.tenant_reload_interval_secs < 30 ==> (r matches Err(m) && m@
                == "tenant_reload_interval must be at least 30 seconds"@),
    {
        if self.max_tenants_per_worker == 0 {
            return Err("max_tenants_per_worker must be greater than 0".to_owned());
        }
        if self.health_check_interval_secs < 5 {
            return Err("health_check_interval must be at least 5 seconds".to_owned());
        }
        if self.tenant_reload_interval_secs < 30 {
            return Err("tenant_reload_interval must be at least 30 seconds".to_owned());
        }
        Ok(())
    }
}

impl Default for WorkerConfig {
    /// Fifty tenants per worker, health checks every thirty seconds and
    /// configuration reloads every five minutes.
    fn default() -> (c: Self)
        ensures
            c.max_tenants_per_worker == 50,
            c.health_check_interval_secs == 30,
            c.tenant_reload_interval_secs == 300,
    {
        WorkerConfig {
            max_tenants_per_worker: 50,
            health_check_interval_secs: 30,
            tenant_reload_interval_secs: 300,
        }
    }
}

/// Service mode for the orchestrator process.
#[derive(Debug, Clone, Copy, PartialEq, Eq, Structural)]
pub enum ServiceMode {
    /// Run as a monitor worker processing tenant configurations.
    Worker,
    /// Run as a shared block watcher fetching blocks for all workers.
    BlockWatcher,
    /// Run the management API server.
    Api,
    /// Run all services.
    All,
}

/// Default service mode.
pub fn default_service_mode() -> (m: ServiceMode)
    ensures
        m == ServiceMode::Worker,
{
    ServiceMode::Worker
}

impl Default for ServiceMode {
    /// Worker mode is the stock mode.
    fn default() -> (m: Self)
        ensures
            m == ServiceMode::Worker,
    {
        ServiceMode::Worker
    }
}

/// The mode that a given string names, compared without regard to ASCII case,
/// or nothing if it names none.
pub open spec fn spec_parse_mode(s: Seq<char>) -> Option<ServiceMode> {
    if ascii_lower(s) == "worker"@ {
        Some(ServiceMode::Worker)
    } else if ascii_lower(s) == "block-watcher"@ || ascii_lower(s) == "blockwatcher"@ {
        Some(ServiceMode::BlockWatcher)
    } else if ascii_lower(s) == "api"@ {
        Some(ServiceMode::Api)
    } else if ascii_lower(s) == "all"@ {
        Some(ServiceMode::All)
    } else {
        None
    }
}

impl ServiceMode {
    /// The canonical name of the mode.
    pub fn mode_str(&self) -> (s: String)
        ensures
            s@ == match self {
                ServiceMode::Worker => "worker"@,
                ServiceMode::BlockWatcher => "block-watcher"@,
                ServiceMode::Api => "api"@,
                ServiceMode::All => "all"@,
            },
    {
        match self {
            ServiceMode::Worker => "worker".to_owned(),
            ServiceMode::BlockWatcher => "block-watcher".to_owned(),
            ServiceMode::Api => "api".to_owned(),
            ServiceMode::All => "all".to_owned(),
        }
    }

    /// Parse a mode name, accepting any ASCII capitalisation.
    pub fn parse_mode(s: &str) -> (r: Result<ServiceMode, String>)
        ensures
            match r {
                Ok(m) => spec_parse_mode(s@) == Some(m),
                Err(e) => spec_parse_mode(s@) is None && e@ == "Invalid service mode: "@ + s@,
            },
    {
        if str_eq_ignore_ascii_case(s, "worker") {
            proof {
                lemma_lower_literal_is_self();
            }
            Ok(ServiceMode::Worker)
        } else if str_eq_ignore_ascii_case(s, "block-watcher") || str_eq_ignore_ascii_case(
            s,
            "blockwatcher",
        ) {
            proof {
                lemma_lower_literal_is_self();
            }
            Ok(ServiceMode::BlockWatcher)
        } else if str_eq_ignore_ascii_case(s, "api") {
            proof {
                lemma_lower_literal_is_self();
            }
            Ok(ServiceMode::Api)
        } else if str_eq_ignore_ascii_case(s, "all") {
            proof {
                lemma_lower_literal_is_self();
            }
            Ok(ServiceMode::All)
        } else {
            proof {
                lemma_lower_literal_is_self();
            }
            let mut e = "Invalid service mode: ".to_owned();
            e.append(s);
            Err(e)
        }
    }
}

/// The recognised mode names are already lower case, so folding them is the
/// identity; this lets a case-insensitive match against them stand for a
/// match of the folded input.
proof fn lemma_lower_literal_is_self()
    ensures
        ascii_lower("worker"@) == "worker"@,
        ascii_lower("block-watcher"@) == "block-watcher"@,
        ascii_lower("blockwatcher"@) == "blockwatcher"@,
        ascii_lower("api"@) == "api"@,
        ascii_lower("all"@) == "all"@,
{
    reveal_strlit("worker");
    reveal_strlit("block-watcher");
    reveal_strlit("blockwatcher");
    reveal_strlit("api");
    reveal_strlit("all");
    assert(ascii_lower("worker"@) =~= "worker"@);
    assert(ascii_lower("block-watcher"@) =~= "block-watcher"@);
    assert(ascii_lower("blockwatcher"@) =~= "blockwatcher"@);
    assert(ascii_lower("api"@) =~= "api"@);
    assert(ascii_lower("all"@) =~= "all"@);
}

/// Main orchestrator configuration.
#[derive(Debug, Clone)]
pub struct OrchestratorConfig {
    /// Database connection URL.
    pub database_url: String,
    /// Cache server connection URL.
    pub redis_url: String,
    /// Service mode.
    pub service_mode: ServiceMode,
    /// Worker configuration.
    pub worker: WorkerConfig,
    /// Block cache configuration.
    pub block_cache: BlockCacheConfig,
    /// Load balancer configuration.
    pub load_balancer: LoadBalancerConfig,
    /// Shared block watcher configuration.
    pub block_watcher: SharedBlockWatcherConfig,
    /// API server configuration.
    pub api: ApiConfig,
}

impl OrchestratorConfig {
    /// All validation rules, the sub-configurations' included: invalid
    /// values in any section fail startup.
    pub open spec fn valid(&self) -> bool {
        &&& self.database_url@.len() > 0
        &&& self.redis_url@.len() > 0
        &&& self.worker.valid()
        &&& self.load_balancer.valid()
        &&& self.block_watcher.valid()
        &&& self.block_cache.valid()
        &&& self.api.valid()
    }

    /// Validate the whole configuration; sub-configurations are checked in
    /// the order worker, load balancer, block watcher, block cache, API,
    /// and the first failure is reported.
    pub fn validate(&self) -> (r: Result<(), String>)
        ensures
            r is Ok <==> self.valid(),
            self.database_url@.len() == 0 ==> (r matches Err(m) && m@
                == "Database URL is required"@),
            self.database_url@.len() > 0 && self.redis_url@.len() == 0 ==> (r matches Err(m)
                && m@ == "Redis URL is required"@),
    {
        if self.database_url.as_str().is_empty() {
            return Err("Database URL is required".to_owned());
        }
        if self.redis_url.as_str().is_empty() {
            return Err("Redis URL is required".to_owned());
        }
        match self.worker.validate() {
            Ok(()) => (),
            Err(m) => {
                return Err(m);
            },
        }
        match self.load_balancer.validate() {
            Ok(()) => (),
            Err(m) => {
                return Err(m);
            },
        }
        match self.block_watcher.validate() {
            Ok(()) => (),
            Err(m) => {
                return Err(m);
            },
        }
        match self.block_cache.validate() {
            Ok(()) => (),
            Err(m) => {
                return Err(m);
            },
        }
        match self.api.validate() {
            Ok(()) => (),
            Err(m) => {
                return Err(m);
            },
        }
        Ok(())
    }
}

} // verus!
