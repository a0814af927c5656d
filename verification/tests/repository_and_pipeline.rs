//! The repository views' round trip, the pipeline decisions and the worker
//! pool registry.

use oz_monitor_orchestrator::cache::cache_read_or_miss;
use oz_monitor_orchestrator::config::{BlockCacheConfig, WorkerConfig};
use oz_monitor_orchestrator::model::{Monitor, MonitorAddress, Trigger};
use oz_monitor_orchestrator::repository::{
    MonitorRow, NetworkRow, TenantAwareMonitorRepository, TenantAwareNetworkRepository,
    TenantAwareTriggerRepository, TriggerRow,
};
use oz_monitor_orchestrator::services::{
    conditions_verdict, extract_stellar_contract_address, monitor_for_address,
    normalize_script_name, trigger_variables, BlockWrapper, ConditionOutcome, OzMonitorServices,
    ScriptRow, StellarOperation,
};
use oz_monitor_orchestrator::watcher::{make_block_event, BlockChainType, Network};
use oz_monitor_orchestrator::worker_pool::{
    consumer_continues, MonitorWorker, MonitorWorkerPool, RecvOutcome, WorkerStatus,
};

fn monitor(name: &str, networks: &[&str], addresses: &[&str]) -> Monitor {
    Monitor {
        name: name.to_string(),
        networks: networks.iter().map(|s| s.to_string()).collect(),
        addresses: addresses
            .iter()
            .map(|a| MonitorAddress { address: a.to_string(), contract_spec: None })
            .collect(),
        triggers: vec![],
        trigger_conditions: vec![],
    }
}

fn monitor_row(tenant: u128, m: Monitor, active: bool) -> MonitorRow {
    MonitorRow { tenant_id: tenant, monitor_id: format!("m-{}", m.name), monitor: m, is_active: active }
}

#[test]
fn monitor_repository_round_trip() {
    let rows = vec![
        monitor_row(1, monitor("transfers", &["eth"], &["0xAAA"]), true),
        monitor_row(2, monitor("other-tenant", &["eth"], &["0xBBB"]), true),
        monitor_row(1, monitor("dormant", &["eth"], &["0xCCC"]), false),
    ];
    let repo = TenantAwareMonitorRepository::new(rows, vec![1]);
    let all = repo.get_all();
    // only tenant 1's active rows are visible
    assert_eq!(all.len(), 1);
    assert_eq!(all[0].0, "transfers".to_string());
    assert_eq!(all[0].1.addresses[0].address, "0xAAA".to_string());
    let got = repo.get("transfers").unwrap();
    assert_eq!(got.networks, vec!["eth".to_string()]);
    assert!(repo.get("other-tenant").is_none());
    assert!(repo.get("dormant").is_none());
}

#[test]
fn monitor_repository_last_row_wins_and_filter_updates() {
    let rows = vec![
        monitor_row(1, monitor("m", &["eth"], &["0x1"]), true),
        monitor_row(1, monitor("m", &["xlm"], &["0x2"]), true),
    ];
    let mut repo = TenantAwareMonitorRepository::new(rows, vec![1]);
    let all = repo.get_all();
    assert_eq!(all.len(), 1);
    // the later persisted row shadows the earlier one
    assert_eq!(all[0].1.networks, vec!["xlm".to_string()]);
    assert_eq!(repo.get("m").unwrap().networks, vec!["xlm".to_string()]);
    repo.update_tenant_filter(vec![9]);
    assert!(repo.get_all().is_empty());
}

#[test]
fn network_and_trigger_repositories_round_trip() {
    let net = Network {
        slug: "eth".to_string(),
        network_type: BlockChainType::Evm,
        confirmation_blocks: 2,
        rpc_urls: vec!["http://localhost:8545".to_string()],
        cron_schedule: String::new(),
    };
    let nrepo = TenantAwareNetworkRepository::new(
        vec![NetworkRow { tenant_id: 1, network_id: "n-1".to_string(), network: net, is_active: true }],
        vec![1],
    );
    let nets = nrepo.get_all();
    assert_eq!(nets.len(), 1);
    assert_eq!(nets[0].0, "eth".to_string());
    assert_eq!(nrepo.get("eth").unwrap().confirmation_blocks, 2);

    let trepo = TenantAwareTriggerRepository::new(
        vec![
            TriggerRow {
                tenant_id: 1,
                trigger_id: "t-1".to_string(),
                monitor_id: "m-1".to_string(),
                trigger: Trigger {
                    name: "notify".to_string(),
                    trigger_type: "webhook".to_string(),
                    configuration: "{}".to_string(),
                },
                is_active: true,
            },
            TriggerRow {
                tenant_id: 1,
                trigger_id: "t-2".to_string(),
                monitor_id: "m-2".to_string(),
                trigger: Trigger {
                    name: "page".to_string(),
                    trigger_type: "webhook".to_string(),
                    configuration: "{}".to_string(),
                },
                is_active: true,
            },
        ],
        vec![1],
    );
    assert_eq!(trepo.get_all().len(), 2);
    assert_eq!(trepo.get("notify").unwrap().trigger_type, "webhook".to_string());
    let for_monitor = trepo.get_by_monitor_id("m-2");
    assert_eq!(for_monitor.len(), 1);
    assert_eq!(for_monitor[0].name, "page".to_string());
}

#[test]
fn conditions_fail_open() {
    // no conditions: every raw match is included
    assert!(conditions_verdict(&vec![]));
    // all satisfied: included
    assert!(conditions_verdict(&vec![ConditionOutcome::Satisfied, ConditionOutcome::Satisfied]));
    // a rejection excludes
    assert!(!conditions_verdict(&vec![ConditionOutcome::Satisfied, ConditionOutcome::Rejected]));
    // a missing or broken script includes the match by default
    assert!(conditions_verdict(&vec![ConditionOutcome::Failed, ConditionOutcome::Rejected]));
    assert!(conditions_verdict(&vec![ConditionOutcome::Satisfied, ConditionOutcome::Failed]));
}

#[test]
fn stellar_subject_address_extraction() {
    let configured = vec![MonitorAddress { address: "CABC".to_string(), contract_spec: None }];
    let ops = vec![
        StellarOperation { op_type: "payment".to_string(), contract_id: None },
        StellarOperation {
            op_type: "invokeHostFunction".to_string(),
            contract_id: Some("CDEF".to_string()),
        },
    ];
    // a configured address wins
    assert_eq!(
        extract_stellar_contract_address(&configured, &ops).unwrap(),
        "CABC".to_string()
    );
    // otherwise the first host-function invocation's contract
    assert_eq!(
        extract_stellar_contract_address(&vec![], &ops).unwrap(),
        "CDEF".to_string()
    );
    // with neither, the match is dropped
    assert!(extract_stellar_contract_address(&vec![], &vec![]).is_err());
}

#[test]
fn monitor_lookup_ignores_ascii_case() {
    let monitors = vec![
        ("m1".to_string(), monitor("m1", &["eth"], &["0xAbCd"])),
        ("m2".to_string(), monitor("m2", &["eth"], &["0xFFFF"])),
    ];
    // the stored and looked-up spellings differ only in case
    assert_eq!(monitor_for_address(&monitors, "0XABCD"), Some(0));
    assert_eq!(monitor_for_address(&monitors, "0xffff"), Some(1));
    assert_eq!(monitor_for_address(&monitors, "0x0000"), None);
}

#[test]
fn trigger_variable_seeding() {
    let vars = trigger_variables("transfers", "eth");
    assert_eq!(vars.len(), 2);
    assert_eq!(vars[0], ("monitor_name".to_string(), "transfers".to_string()));
    assert_eq!(vars[1], ("network".to_string(), "eth".to_string()));
}

#[test]
fn tenant_context_caches_monitors_and_reload_clears() {
    let mrepo = TenantAwareMonitorRepository::new(
        vec![monitor_row(1, monitor("m", &["eth"], &["0x1"]), true)],
        vec![1],
    );
    let nrepo = TenantAwareNetworkRepository::new(vec![], vec![1]);
    let trepo = TenantAwareTriggerRepository::new(vec![], vec![1]);
    let mut services = OzMonitorServices::new(mrepo, nrepo, trepo, vec![], vec![1]);
    let ctx = services.get_tenant_context(1);
    assert_eq!(ctx.tenant_id, 1);
    assert_eq!(ctx.monitors.len(), 1);
    assert_eq!(services.monitor_cache.len(), 1);
    // a second build hits the cache
    let ctx2 = services.get_tenant_context(1);
    assert_eq!(ctx2.monitors.len(), 1);
    assert_eq!(services.monitor_cache.len(), 1);
    // reloading the tenant drops its memoized monitors
    services.reload_configurations(&vec![1]);
    assert!(services.monitor_cache.is_empty());
    assert_eq!(services.tenant_filter(), &vec![1]);
    // the context's network lookup is by slug
    let by_net = ctx.get_monitors_for_network("eth");
    assert_eq!(by_net.len(), 1);
    assert!(ctx.get_monitors_for_network("xlm").is_empty());
    assert!(ctx.get_monitor("m").is_ok());
    assert!(ctx.get_monitor("absent").is_err());
}

#[test]
fn block_wrapper_heights() {
    assert_eq!(BlockWrapper::Ethereum(7).height(), 7);
    assert_eq!(BlockWrapper::Stellar(9).height(), 9);
}

#[test]
fn cache_keys_are_stable() {
    let cfg = BlockCacheConfig::default();
    assert_eq!(
        cfg.block_cache_key("eth", 5, Some(9)),
        "oz_cache:blocks:eth:5:9".to_string()
    );
    assert_eq!(cfg.block_cache_key("eth", 5, None), "oz_cache:blocks:eth:5".to_string());
    assert_eq!(cfg.latest_block_cache_key("eth"), "oz_cache:latest:eth".to_string());
    // a failed read counts as a miss
    assert_eq!(cache_read_or_miss::<u64>(Ok(Some(7))), Some(7));
    assert_eq!(cache_read_or_miss::<u64>(Ok(None)), None);
    assert_eq!(cache_read_or_miss::<u64>(Err("down".to_string())), None);
}

#[test]
fn worker_lifecycle_and_event_plan() {
    let mut w = MonitorWorker::new("w1".to_string(), WorkerConfig::default());
    assert!(matches!(w.status, WorkerStatus::Starting));
    w.assign_tenants(vec![10, 20]);
    assert!(w.begin_start());
    assert!(matches!(w.status, WorkerStatus::Running));
    w.begin_reload();
    assert!(matches!(w.status, WorkerStatus::Reloading));
    w.end_reload();
    let net = Network {
        slug: "eth".to_string(),
        network_type: BlockChainType::Evm,
        confirmation_blocks: 0,
        rpc_urls: vec![],
        cron_schedule: String::new(),
    };
    let event = make_block_event(net, 5, 6, 0);
    let work = w.plan_event(&event);
    assert_eq!(work, vec![(10, 5), (20, 5), (10, 6), (20, 6)]);
    w.record_error("boom".to_string());
    assert!(matches!(w.status, WorkerStatus::Error(ref m) if m == "boom"));
    w.mark_stopped();
    assert!(matches!(w.status, WorkerStatus::Stopped));
    // an idle worker reports nothing to do
    let mut idle = MonitorWorker::new("w2".to_string(), WorkerConfig::default());
    assert!(!idle.begin_start());
}

#[test]
fn consumer_survives_lag_but_not_closure() {
    assert!(consumer_continues(&RecvOutcome::Event));
    assert!(consumer_continues(&RecvOutcome::Lagged(12)));
    assert!(!consumer_continues(&RecvOutcome::Closed));
}

#[test]
fn pool_registry_operations() {
    let mut pool = MonitorWorkerPool::new(WorkerConfig::default());
    pool.create_worker("w1".to_string(), vec![1, 2]).unwrap();
    pool.create_worker("w2".to_string(), vec![]).unwrap();
    assert!(pool.create_worker("w1".to_string(), vec![]).is_err());
    assert!(matches!(pool.get_worker_status("w1"), Some(WorkerStatus::Starting)));
    assert!(pool.get_worker_status("w9").is_none());
    let listed = pool.list_workers();
    assert_eq!(listed.len(), 2);
    assert_eq!(listed[0].0, "w1".to_string());
    assert_eq!(listed[0].2, 2);
    pool.reassign_tenants("w1", vec![3]).unwrap();
    assert_eq!(pool.list_workers()[0].2, 1);
    assert!(pool.reassign_tenants("w9", vec![]).is_err());
    pool.remove_worker("w1").unwrap();
    assert!(pool.get_worker_status("w1").is_none());
    assert!(pool.remove_worker("w1").is_err());
}

#[test]
fn active_networks_are_the_union_of_monitor_networks() {
    let mrepo = TenantAwareMonitorRepository::new(
        vec![
            monitor_row(1, monitor("m1", &["eth", "xlm"], &["0x1"]), true),
            monitor_row(1, monitor("m2", &["eth"], &["0x2"]), true),
            monitor_row(2, monitor("m3", &["dot"], &["0x3"]), true),
        ],
        vec![1],
    );
    let nrepo = TenantAwareNetworkRepository::new(vec![], vec![1]);
    let trepo = TenantAwareTriggerRepository::new(vec![], vec![1]);
    let services = OzMonitorServices::new(mrepo, nrepo, trepo, vec![], vec![1]);
    let slugs = services.get_active_networks();
    // the other tenant's network is not scanned, and "eth" appears once
    assert_eq!(slugs, vec!["eth".to_string(), "xlm".to_string()]);
}

#[test]
fn script_store_lookup_is_filtered_and_fail_open_feeds_the_verdict() {
    let mrepo = TenantAwareMonitorRepository::new(vec![], vec![1]);
    let nrepo = TenantAwareNetworkRepository::new(vec![], vec![1]);
    let trepo = TenantAwareTriggerRepository::new(vec![], vec![1]);
    let scripts = vec![
        ScriptRow {
            tenant_id: 2,
            name: "guard".to_string(),
            content: "other tenant".to_string(),
            is_active: true,
        },
        ScriptRow {
            tenant_id: 1,
            name: "guard".to_string(),
            content: "return true".to_string(),
            is_active: true,
        },
    ];
    let services = OzMonitorServices::new(mrepo, nrepo, trepo, scripts, vec![1]);
    // the first visible row wins; the other tenant's script is invisible
    assert_eq!(
        services.load_script_from_database("guard").unwrap(),
        "return true".to_string()
    );
    // a script missing from the store resolves to an error, and treating
    // that error as the condition's failure keeps the match (fail open)
    assert!(services.load_script_from_database("absent").is_err());
    assert!(conditions_verdict(&vec![ConditionOutcome::Failed]));
}

#[test]
fn script_references_resolve_to_stored_names() {
    // a path-style reference is reduced to its basename without extensions
    assert_eq!(normalize_script_name("scripts/guard.py"), "guard".to_string());
    assert_eq!(normalize_script_name("a/b/clean.sh"), "clean".to_string());
    // the extensions are trimmed repeatedly and in a fixed order
    assert_eq!(normalize_script_name("dir/x.js.py"), "x".to_string());
    assert_eq!(normalize_script_name("dir/x.py.js"), "x.py".to_string());
    // a bare name passes through, extension and all
    assert_eq!(normalize_script_name("guard.py"), "guard.py".to_string());
    assert_eq!(normalize_script_name("guard"), "guard".to_string());
    // a reference ending in the separator reduces to nothing
    assert_eq!(normalize_script_name("scripts/"), "".to_string());

    let mrepo = TenantAwareMonitorRepository::new(vec![], vec![1]);
    let nrepo = TenantAwareNetworkRepository::new(vec![], vec![1]);
    let trepo = TenantAwareTriggerRepository::new(vec![], vec![1]);
    let scripts = vec![ScriptRow {
        tenant_id: 1,
        name: "guard".to_string(),
        content: "return true".to_string(),
        is_active: true,
    }];
    let services = OzMonitorServices::new(mrepo, nrepo, trepo, scripts, vec![1]);
    // the store holds bare names; a path-style reference still finds them
    assert_eq!(
        services.load_script_from_database("scripts/guard.py").unwrap(),
        "return true".to_string()
    );
}

#[test]
fn reassigning_an_absent_worker_changes_nothing() {
    let mut pool = MonitorWorkerPool::new(WorkerConfig::default());
    pool.create_worker("w1".to_string(), vec![1]).unwrap();
    assert!(pool.reassign_tenants("ghost", vec![2]).is_err());
    assert_eq!(pool.list_workers()[0].2, 1);
}
