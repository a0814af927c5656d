//! Configuration validation, metrics formulas and assignment records.

use oz_monitor_orchestrator::assignment::{AssignmentReason, TenantAssignment, WorkerAssignment};
use oz_monitor_orchestrator::config::{
    default_cors, default_rate_limit, default_service_mode, ApiConfig, BlockCacheConfig,
    ConfigError, LoadBalancerConfig, LoadBalancingStrategy, OrchestratorConfig, ServiceMode,
    SharedBlockWatcherConfig, WorkerConfig,
};
use oz_monitor_orchestrator::metrics::{SystemMetrics, TenantMetrics, WorkerMetrics};
use oz_monitor_orchestrator::tenant::{TenantInfo, TenantPriority, TenantStatus};

fn base_config() -> OrchestratorConfig {
    OrchestratorConfig {
        database_url: "postgresql://test".to_string(),
        redis_url: "redis://test".to_string(),
        service_mode: ServiceMode::Worker,
        worker: Default::default(),
        block_cache: Default::default(),
        load_balancer: Default::default(),
        block_watcher: Default::default(),
        api: Default::default(),
    }
}

#[test]
fn test_default_config() {
    let config = base_config();
    assert_eq!(config.validate(), Ok(()));
}

#[test]
fn test_invalid_config() {
    let mut config = base_config();
    config.database_url = "".to_string();
    assert!(config.validate().is_err());
}

#[test]
fn validate_reports_first_failure() {
    let mut config = base_config();
    config.redis_url = String::new();
    assert_eq!(config.validate(), Err("Redis URL is required".to_string()));

    let mut config = base_config();
    config.worker.max_tenants_per_worker = 0;
    assert_eq!(
        config.validate(),
        Err("max_tenants_per_worker must be greater than 0".to_string())
    );

    let mut config = base_config();
    config.load_balancer.rebalance_threshold_milli = 1001;
    assert_eq!(
        config.validate(),
        Err("rebalance_threshold must be between 0.0 and 1.0".to_string())
    );

    let mut config = base_config();
    config.block_watcher.retry_delay_ms = 0;
    assert_eq!(
        config.validate(),
        Err("retry_delay_ms must be greater than 0".to_string())
    );

    // invalid cache and api sections fail startup too
    let mut config = base_config();
    config.block_cache.block_ttl = 0;
    assert_eq!(
        config.validate(),
        Err("block_ttl must be greater than 0".to_string())
    );

    let mut config = base_config();
    config.api.rate_limit = 0;
    assert_eq!(
        config.validate(),
        Err("rate_limit must be greater than 0".to_string())
    );
}

#[test]
fn sub_config_defaults_and_limits() {
    assert!(default_cors());
    assert_eq!(default_rate_limit(), 100);
    assert_eq!(default_service_mode(), ServiceMode::Worker);

    let api = ApiConfig::default();
    assert_eq!(api.port, 3000);
    assert_eq!(api.socket_addr(), "0.0.0.0:3000".to_string());
    let bad_api = ApiConfig { host: String::new(), ..ApiConfig::default() };
    assert_eq!(bad_api.validate(), Err("host cannot be empty".to_string()));

    let cache = BlockCacheConfig::default();
    assert_eq!(cache.block_ttl, 60);
    assert_eq!(cache.latest_block_ttl, 5);
    assert!(cache.validate().is_ok());
    let bad_cache = BlockCacheConfig { key_prefix: String::new(), ..BlockCacheConfig::default() };
    assert_eq!(bad_cache.validate(), Err("key_prefix cannot be empty".to_string()));

    let watcher = SharedBlockWatcherConfig::default();
    assert_eq!(watcher.channel_buffer_size, 1000);
    assert_eq!(watcher.max_blocks_per_fetch, 100);
    assert_eq!(watcher.retry_attempts, 3);

    let lb = LoadBalancerConfig::default();
    assert_eq!(lb.strategy, LoadBalancingStrategy::ConsistentHashing);
    assert_eq!(lb.min_rebalance_interval_secs, 300);
    let short = LoadBalancerConfig { min_rebalance_interval_secs: 59, ..LoadBalancerConfig::default() };
    assert_eq!(
        short.validate(),
        Err("min_rebalance_interval must be at least 60 seconds".to_string())
    );

    let worker = WorkerConfig::default();
    assert_eq!(worker.health_check_interval_secs, 30);
    let hasty = WorkerConfig { health_check_interval_secs: 4, ..WorkerConfig::default() };
    assert_eq!(
        hasty.validate(),
        Err("health_check_interval must be at least 5 seconds".to_string())
    );
}

#[test]
fn service_mode_names_round_trip() {
    assert_eq!(ServiceMode::parse_mode("worker"), Ok(ServiceMode::Worker));
    assert_eq!(ServiceMode::parse_mode("BLOCK-WATCHER"), Ok(ServiceMode::BlockWatcher));
    assert_eq!(ServiceMode::parse_mode("BlockWatcher"), Ok(ServiceMode::BlockWatcher));
    assert_eq!(ServiceMode::parse_mode("api"), Ok(ServiceMode::Api));
    assert_eq!(ServiceMode::parse_mode("All"), Ok(ServiceMode::All));
    assert_eq!(
        ServiceMode::parse_mode("other"),
        Err("Invalid service mode: other".to_string())
    );
    assert_eq!(ServiceMode::BlockWatcher.mode_str(), "block-watcher".to_string());
}

fn tenant_metrics(id: u128, rpc: u32, complexity: u32, matches: u32) -> TenantMetrics {
    TenantMetrics {
        tenant_id: id,
        monitors_count: 1,
        avg_rpc_calls_per_minute: rpc,
        avg_filter_complexity: complexity,
        total_matches_last_hour: matches,
        notifications_sent_last_hour: 0,
        last_active: 0,
        collected_at: 0,
    }
}

#[test]
fn activity_score_formula() {
    // 0.4 * 50/100 + 0.3 * 5/10 + 0.3 * 500/1000 = 0.5, in ten-thousandths
    assert_eq!(tenant_metrics(1, 50, 5, 500).activity_score(), 5000);
    // every component clamps at its cap
    assert_eq!(tenant_metrics(1, 1000, 100, 100_000).activity_score(), 10000);
    assert_eq!(tenant_metrics(1, 0, 0, 0).activity_score(), 0);
}

#[test]
fn activity_score_is_monotone_componentwise() {
    let low = tenant_metrics(1, 10, 2, 50);
    let high = tenant_metrics(1, 20, 4, 60);
    assert!(low.activity_score() <= high.activity_score());
}

fn worker_metrics(id: &str, tenants: u32, cpu: u32, mem: u32, errors: u32) -> WorkerMetrics {
    WorkerMetrics {
        worker_id: id.to_string(),
        tenant_count: tenants,
        cpu_usage: cpu,
        memory_usage: mem,
        rpc_rate: 0,
        avg_processing_time_ms: 0,
        errors_last_hour: errors,
        uptime_seconds: 0,
        collected_at: 0,
    }
}

#[test]
fn load_score_and_health() {
    // 0.4 * 50/100 + 0.4 * 25/100 + 0.2 * 25/50 = 0.4, in ten-thousandths
    assert_eq!(worker_metrics("w", 25, 50, 25, 0).load_score(), 4000);
    // the load score clamps at 1.0
    assert_eq!(worker_metrics("w", 100, 100, 100, 0).load_score(), 10000);
    assert!(worker_metrics("w", 0, 89, 89, 9).is_healthy());
    assert!(!worker_metrics("w", 0, 90, 10, 0).is_healthy());
    assert!(!worker_metrics("w", 0, 10, 10, 10).is_healthy());
}

#[test]
fn system_health_score_deductions() {
    let mut m = SystemMetrics {
        active_workers: 1,
        active_tenants: 61,
        total_monitors: 0,
        total_rpc_rate: 0,
        cache_hit_rate_milli: 400,
        avg_block_lag: 120,
        total_matches_last_hour: 0,
        health_score: 0,
        collected_at: 0,
    };
    // 100 - 20 (lag over 100) - 20 (hit rate under 0.5) - 15 (over 60 per worker)
    m.calculate_health_score();
    assert_eq!(m.health_score, 45);
    assert!(!m.is_healthy());

    m.avg_block_lag = 60;
    m.cache_hit_rate_milli = 600;
    m.active_tenants = 60;
    m.calculate_health_score();
    assert_eq!(m.health_score, 80);
    assert!(m.is_healthy());
}

#[test]
fn tenant_priority_and_status() {
    assert_eq!(TenantPriority::default(), TenantPriority::Normal);
    let t = TenantInfo {
        id: 7,
        name: "t".to_string(),
        status: TenantStatus::Trial,
        priority: TenantPriority::Critical,
        max_monitors: 10,
        max_rpc_requests_per_minute: 100,
        created_at: 0,
        last_active_at: 0,
    };
    assert!(t.is_active());
    assert_eq!(t.priority_value(), 4);
    let s = TenantInfo { status: TenantStatus::Suspended, ..t };
    assert!(!s.is_active());
}

#[test]
fn assignment_records_and_versions() {
    let a = TenantAssignment::new(9, "w1".to_string(), AssignmentReason::Initial, 1000);
    assert_eq!(a.version, 1);
    assert_eq!(a.assigned_at, 1000);
    let b = a.reassign("w2".to_string(), AssignmentReason::Manual, 2000);
    assert_eq!(b.version, 2);
    assert_eq!(b.worker_id, "w2".to_string());
    assert_eq!(b.tenant_id, 9);
    assert!(matches!(b.reason, AssignmentReason::Manual));
}

#[test]
fn worker_assignment_tenant_list() {
    let mut w = WorkerAssignment::new("w".to_string(), 0);
    w.add_tenant(1, 10);
    w.add_tenant(2, 20);
    w.add_tenant(1, 30);
    assert_eq!(w.tenant_count(), 2);
    assert_eq!(w.updated_at, 20);
    assert!(w.has_capacity(3));
    assert!(!w.has_capacity(2));
    assert!(w.remove_tenant(1, 40));
    assert!(!w.remove_tenant(1, 50));
    assert_eq!(w.tenant_count(), 1);
    assert_eq!(w.updated_at, 40);
}

#[test]
fn config_error_messages() {
    let e = ConfigError::FileNotFound("config.yaml".to_string());
    assert_eq!(e.message(), "Configuration file not found: config.yaml".to_string());
    let e = ConfigError::ValidationError("bad".to_string());
    assert_eq!(e.message(), "Configuration validation failed: bad".to_string());
}
