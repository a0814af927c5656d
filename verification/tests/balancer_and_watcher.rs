//! The load balancer's strategies and rebalance, and the shared block
//! watcher's scan discipline.

use std::collections::hash_map::DefaultHasher;
use std::hash::{Hash, Hasher};

use oz_monitor_orchestrator::assignment::AssignmentReason;
use oz_monitor_orchestrator::balancer::{BalancerError, LoadBalancer};
use oz_monitor_orchestrator::config::{LoadBalancerConfig, LoadBalancingStrategy, SharedBlockWatcherConfig};
use oz_monitor_orchestrator::hashing::{canonical_id_string, str_hash64, tenant_hash64};
use oz_monitor_orchestrator::metrics::{TenantMetrics, WorkerMetrics};
use oz_monitor_orchestrator::watcher::{
    calculate_sleep_duration, make_block_event, plan_block_range, retry_delay_ms, BlockChainType,
    Network, SharedBlockWatcher,
};

fn lb_config(strategy: LoadBalancingStrategy) -> LoadBalancerConfig {
    LoadBalancerConfig {
        strategy,
        max_tenants_per_worker: 50,
        rebalance_threshold_milli: 200,
        min_rebalance_interval_secs: 300,
    }
}

fn tenant_metrics(id: u128, rpc: u32, complexity: u32, matches: u32) -> TenantMetrics {
    TenantMetrics {
        tenant_id: id,
        monitors_count: 1,
        avg_rpc_calls_per_minute: rpc,
        avg_filter_complexity: complexity,
        total_matches_last_hour: matches,
        notifications_sent_last_hour: 0,
        last_active: 0,
        collected_at: 0,
    }
}

#[test]
fn round_robin_picks_smallest_count() {
    let mut lb = LoadBalancer::new(lb_config(LoadBalancingStrategy::RoundRobin), 0);
    assert_eq!(lb.assign_tenant(1, 0), Err(BalancerError::NoWorkersAvailable));
    lb.add_worker("a".to_string(), 0);
    lb.add_worker("b".to_string(), 0);
    let w1 = lb.assign_tenant(1, 1).unwrap();
    let w2 = lb.assign_tenant(2, 2).unwrap();
    // the first assignment bumps one worker, so the second goes to the other
    assert_ne!(w1, w2);
    assert_eq!(lb.get_worker_for_tenant(1), Some(w1.clone()));
    assert_eq!(lb.get_worker_for_tenant(3), None);
    // the registry is sorted, so the first tie goes to "a"
    assert_eq!(w1, "a".to_string());
}

#[test]
fn least_loaded_uses_cpu_mem_and_count() {
    let mut lb = LoadBalancer::new(lb_config(LoadBalancingStrategy::LeastLoaded), 0);
    lb.add_worker("a".to_string(), 0);
    lb.add_worker("b".to_string(), 0);
    lb.update_worker_load(WorkerMetrics {
        worker_id: "a".to_string(),
        tenant_count: 0,
        cpu_usage: 80,
        memory_usage: 80,
        rpc_rate: 0,
        avg_processing_time_ms: 0,
        errors_last_hour: 0,
        uptime_seconds: 0,
        collected_at: 0,
    });
    let w = lb.assign_tenant(5, 1).unwrap();
    assert_eq!(w, "b".to_string());
    let entry = lb.assignments.iter().find(|a| a.tenant_id == 5).unwrap();
    assert!(matches!(entry.reason, AssignmentReason::LoadRebalance));
}

#[test]
fn consistent_hashing_is_stable_and_survives_removal() {
    let mut lb = LoadBalancer::new(lb_config(LoadBalancingStrategy::ConsistentHashing), 0);
    lb.add_worker("a".to_string(), 0);
    lb.add_worker("b".to_string(), 0);
    lb.add_worker("c".to_string(), 0);
    let t: u128 = 0x1234_5678_9abc_def0_1122_3344_5566_7788;
    let w1 = lb.assign_tenant(t, 1).unwrap();
    // the same worker set gives the same answer
    let w2 = lb.assign_tenant(t, 2).unwrap();
    assert_eq!(w1, w2);
    // after the worker goes away, the pick is deterministic among the rest
    lb.remove_worker(w1.as_str());
    let w3 = lb.assign_tenant(t, 3).unwrap();
    assert_ne!(w3, w1);
    let w4 = lb.assign_tenant(t, 4).unwrap();
    assert_eq!(w3, w4);
}

#[test]
fn rebalance_splits_high_activity_tenants() {
    let mut lb = LoadBalancer::new(lb_config(LoadBalancingStrategy::ActivityBased), 0);
    lb.add_worker("a".to_string(), 0);
    lb.add_worker("b".to_string(), 0);
    // activity scores 0.9, 0.8, 0.2, 0.1 in ten-thousandths
    lb.update_tenant_metrics(tenant_metrics(1, 75, 10, 1000)); // 9000
    lb.update_tenant_metrics(tenant_metrics(2, 50, 10, 1000)); // 8000
    lb.update_tenant_metrics(tenant_metrics(3, 50, 0, 0)); // 2000
    lb.update_tenant_metrics(tenant_metrics(4, 25, 0, 0)); // 1000
    for t in 1u128..=4 {
        lb.assign_tenant(t, 5).unwrap();
    }
    let dist = lb.rebalance(400);
    assert_eq!(dist.len(), 2);
    assert_eq!(dist[0].0, "a".to_string());
    assert_eq!(dist[1].0, "b".to_string());
    // the two high-activity tenants are split one per worker
    let high_on_a = dist[0].1.iter().filter(|t| **t == 1 || **t == 2).count();
    let high_on_b = dist[1].1.iter().filter(|t| **t == 1 || **t == 2).count();
    assert_eq!(high_on_a, 1);
    assert_eq!(high_on_b, 1);
    // each worker ends with two tenants
    assert_eq!(dist[0].1.len(), 2);
    assert_eq!(dist[1].1.len(), 2);
    // the greedy deal: 0.9 to a, 0.8 to b, then 0.2 to b, 0.1 to a
    assert_eq!(dist[0].1, vec![1, 4]);
    assert_eq!(dist[1].1, vec![2, 3]);
    // every entry carries the rebalance reason and a bumped version
    assert_eq!(lb.assignments.len(), 4);
    for a in lb.assignments.iter() {
        assert!(matches!(a.reason, AssignmentReason::LoadRebalance));
        assert_eq!(a.version, 2);
        assert_eq!(a.assigned_at, 400);
    }
    assert_eq!(lb.last_rebalance, 400);
}

#[test]
fn rebalance_pacing_and_imbalance_rule() {
    let mut lb = LoadBalancer::new(lb_config(LoadBalancingStrategy::RoundRobin), 1000);
    lb.add_worker("a".to_string(), 0);
    lb.add_worker("b".to_string(), 0);
    lb.update_worker_load(WorkerMetrics {
        worker_id: "a".to_string(),
        tenant_count: 10,
        cpu_usage: 0,
        memory_usage: 0,
        rpc_rate: 0,
        avg_processing_time_ms: 0,
        errors_last_hour: 0,
        uptime_seconds: 0,
        collected_at: 0,
    });
    // imbalanced, but the minimum interval has not passed
    assert!(!lb.needs_rebalancing_at(1299));
    // the interval has passed and (10 - 0) / 5 exceeds 0.2
    assert!(lb.needs_rebalancing_at(1300));
    // balanced counts never trigger
    lb.update_worker_load(WorkerMetrics {
        worker_id: "b".to_string(),
        tenant_count: 10,
        cpu_usage: 0,
        memory_usage: 0,
        rpc_rate: 0,
        avg_processing_time_ms: 0,
        errors_last_hour: 0,
        uptime_seconds: 0,
        collected_at: 0,
    });
    assert!(!lb.needs_rebalancing_at(5000));
}

#[test]
fn remove_worker_reports_orphans() {
    let mut lb = LoadBalancer::new(lb_config(LoadBalancingStrategy::RoundRobin), 0);
    lb.add_worker("a".to_string(), 0);
    let w = lb.assign_tenant(1, 1).unwrap();
    assert_eq!(w, "a".to_string());
    lb.assign_tenant(2, 2).unwrap();
    let orphans = lb.remove_worker("a");
    assert_eq!(orphans, vec![1, 2]);
    assert!(lb.assignments.is_empty());
    assert!(lb.get_worker_assignments("a").is_empty());
}

#[test]
fn canonical_id_matches_uuid_form() {
    let t: u128 = 0x0011_2233_4455_6677_8899_aabb_ccdd_eeff;
    let ours = canonical_id_string(t);
    let theirs = uuid::Uuid::from_u128(t).to_string();
    assert_eq!(ours, theirs);
    assert_eq!(ours, "00112233-4455-6677-8899-aabbccddeeff".to_string());
}

#[test]
fn tenant_hash_is_the_hash_of_the_canonical_string() {
    let t: u128 = 42;
    let direct = tenant_hash64(t);
    let mut h = DefaultHasher::new();
    uuid::Uuid::from_u128(t).to_string().hash(&mut h);
    assert_eq!(direct, h.finish());
    assert_eq!(direct, tenant_hash64(t));
    assert_eq!(str_hash64("abc"), str_hash64("abc"));
    assert_ne!(str_hash64("abc"), str_hash64("abd"));
}

fn network(slug: &str, kind: BlockChainType, conf: u64) -> Network {
    Network {
        slug: slug.to_string(),
        network_type: kind,
        confirmation_blocks: conf,
        rpc_urls: vec!["http://localhost:8545".to_string()],
        cron_schedule: String::new(),
    }
}

#[test]
fn watcher_cold_start_emits_latest_confirmed_only() {
    let mut w = SharedBlockWatcher::new(SharedBlockWatcherConfig::default());
    w.add_network(network("eth", BlockChainType::Evm, 2));
    assert_eq!(w.last_processed("eth"), Some(0));
    // latest = 100, two confirmations: the first iteration plans [98..98]
    let range = plan_block_range(0, 100, 2, 100).unwrap();
    assert_eq!(range, (98, 98));
    let event = make_block_event(network("eth", BlockChainType::Evm, 2), range.0, range.1, 7);
    assert_eq!(event.blocks, vec![98]);
    w.record_processed("eth", range.1);
    assert_eq!(w.last_processed("eth"), Some(98));
}

#[test]
fn watcher_advances_contiguously_and_bounded() {
    // continuing from cursor 98 with latest = 105 and a batch cap of 3
    let first = plan_block_range(98, 105, 2, 3).unwrap();
    assert_eq!(first, (99, 101));
    let second = plan_block_range(101, 105, 2, 3).unwrap();
    assert_eq!(second, (102, 103));
    // no gap and no overlap between consecutive successful iterations
    assert_eq!(second.0, first.1 + 1);
    // nothing to do when the chain has not advanced
    assert_eq!(plan_block_range(103, 105, 2, 3), None);
    let event = make_block_event(network("eth", BlockChainType::Evm, 2), first.0, first.1, 0);
    assert_eq!(event.blocks, vec![99, 100, 101]);
}

#[test]
fn retry_backoff_is_pure_exponential() {
    assert_eq!(retry_delay_ms(10, 1), 10);
    assert_eq!(retry_delay_ms(10, 2), 20);
    assert_eq!(retry_delay_ms(10, 3), 40);
    // two failures wait at least 10 + 20 = 30 in all
    assert!(retry_delay_ms(10, 1) + retry_delay_ms(10, 2) >= 30);
    assert_eq!(retry_delay_ms(1000, 1), 1000);
}

#[test]
fn scan_lease_is_single_writer() {
    let mut w = SharedBlockWatcher::new(SharedBlockWatcherConfig::default());
    w.add_network(network("eth", BlockChainType::Evm, 2));
    w.add_network(network("xlm", BlockChainType::Stellar, 0));
    // re-adding a known slug is a no-op
    w.add_network(network("eth", BlockChainType::Evm, 9));
    assert_eq!(w.networks.len(), 2);
    let to_start = w.networks_to_start();
    assert_eq!(to_start, vec!["eth".to_string(), "xlm".to_string()]);
    assert!(w.begin_scan("eth"));
    // a second lease for the same slug is refused while the first runs
    assert!(!w.begin_scan("eth"));
    assert!(w.begin_scan("xlm"));
    assert_eq!(w.networks_to_start(), Vec::<String>::new());
    w.end_scan("eth");
    assert!(w.begin_scan("eth"));
    // unknown slugs are never started
    assert!(!w.begin_scan("nope"));
    w.remove_network("xlm");
    assert_eq!(w.networks.len(), 1);
    assert!(!w.begin_scan("xlm"));
}

#[test]
fn sleep_intervals_by_chain_kind() {
    assert_eq!(calculate_sleep_duration(&network("a", BlockChainType::Evm, 0)), 15);
    assert_eq!(calculate_sleep_duration(&network("b", BlockChainType::Stellar, 0)), 5);
    assert_eq!(calculate_sleep_duration(&network("c", BlockChainType::Other, 0)), 30);
}

#[test]
fn rebalance_pacing_holds_against_the_clock() {
    // with the stamp at the far end of time, no clock reading is late enough
    let mut lb = LoadBalancer::new(lb_config(LoadBalancingStrategy::RoundRobin), u64::MAX);
    lb.add_worker("a".to_string(), 0);
    lb.add_worker("b".to_string(), 0);
    assert!(!lb.needs_rebalancing());
}
