//! The monitoring service layer: per-tenant configuration contexts with a
//! lazy monitor cache, the decisions of the block processing pipeline, and
//! trigger-condition gating.
//!
//! The external filter engine, script executors and trigger dispatch are
//! collaborators the application calls; their outputs come back into these
//! functions as plain values. What is decided here — which monitor a match
//! belongs to, whether its conditions admit it, what the subject address of
//! a Stellar match is, which configuration a tenant sees — is verified.

use vstd::prelude::*;

use crate::model::{Monitor, MonitorAddress, Trigger};
use crate::repository::{
    contains_tenant, copy_monitor, monitor_map_of, monitor_view, network_map_of, trigger_map_of,
    TenantAwareMonitorRepository, TenantAwareNetworkRepository, TenantAwareTriggerRepository,
};
use crate::text::{
    after_last_slash, ascii_lower, lemma_after_last_slash_at, str_eq_ignore_ascii_case,
    string_eq_str, trim_suffix3, trim_suffix_rep,
};
use crate::watcher::Network;

verus! {

/// Service-layer errors.
#[derive(Debug, Clone)]
pub enum ServiceError {
    /// Repository error.
    Repository(String),
    /// Configuration error.
    Configuration(String),
    /// Worker not found.
    WorkerNotFound(String),
    /// Tenant not found.
    TenantNotFound(u128),
    /// Monitor not found.
    MonitorNotFound(String),
    /// Script not found in the store.
    ScriptNotFound(String),
    /// Resource limit exceeded.
    ResourceLimitExceeded(String),
    /// Service unavailable.
    ServiceUnavailable(String),
    /// Invalid state.
    InvalidState(String),
    /// Communication error.
    CommunicationError(String),
    /// Cache error.
    CacheError(String),
    /// Block processing error.
    BlockProcessingError(String),
    /// Load balancing error.
    LoadBalancingError(String),
}

/// What evaluating one trigger condition came to.
#[derive(Debug, Clone, Copy, PartialEq, Eq, Structural)]
pub enum ConditionOutcome {
    /// The script ran and returned truthy.
    Satisfied,
    /// The script ran and returned falsy.
    Rejected,
    /// The script could not be loaded or errored while running.
    Failed,
}

/// Whether a match passes its conditions, evaluated in order: a rejection
/// excludes it, a failure includes it (fail-open), and a match with no
/// condition left is included.
pub open spec fn spec_conditions_verdict(os: Seq<ConditionOutcome>) -> bool
    decreases os.len(),
{
    if os.len() == 0 {
        true
    } else {
        match os[0] {
            ConditionOutcome::Satisfied => spec_conditions_verdict(os.skip(1)),
            ConditionOutcome::Rejected => false,
            ConditionOutcome::Failed => true,
        }
    }
}

/// Decide whether a match is included, given its conditions' outcomes in
/// evaluation order. A script that cannot be loaded or that errors includes
/// the match by default: a match must not be silently dropped because a
/// condition script is broken.
pub fn conditions_verdict(outcomes: &Vec<ConditionOutcome>) -> (included: bool)
    ensures
        included == spec_conditions_verdict(outcomes@),
{
    let mut i: usize = 0;
    proof {
        assert(outcomes@.skip(0) =~= outcomes@);
    }
    while i < outcomes.len()
        invariant
            i <= outcomes@.len(),
            spec_conditions_verdict(outcomes@) == spec_conditions_verdict(
                outcomes@.skip(i as int),
            ),
        decreases outcomes@.len() - i,
    {
        proof {
            assert(outcomes@.skip(i as int)[0] == outcomes@[i as int]);
            assert(outcomes@.skip(i as int).skip(1) =~= outcomes@.skip(i + 1));
        }
        match outcomes[i] {
            ConditionOutcome::Satisfied => {
                i = i + 1;
            },
            ConditionOutcome::Rejected => {
                return false;
            },
            ConditionOutcome::Failed => {
                return true;
            },
        }
    }
    true
}

/// One operation of a Stellar transaction envelope, reduced to what the
/// pipeline reads: its type tag and the contract it invokes, if any.
#[derive(Debug, Clone)]
pub struct StellarOperation {
    /// The operation's type tag.
    pub op_type: String,
    /// The invoked contract's identifier, when the operation carries one.
    pub contract_id: Option<String>,
}

/// The operation names a host-function invocation and carries a contract.
pub open spec fn op_carries_contract(o: StellarOperation) -> bool {
    o.op_type@ == "invokeHostFunction"@ && o.contract_id is Some
}

/// The subject address of a Stellar match: the first address configured on
/// the matched monitor when there is one, else the contract invoked by the
/// first host-function operation of the transaction envelope; with neither
/// present the match cannot be attributed and is dropped.
#[verifier::rlimit(100)]
pub fn extract_stellar_contract_address(
    monitor_addresses: &Vec<MonitorAddress>,
    operations: &Vec<StellarOperation>,
) -> (r: Result<String, ServiceError>)
    ensures
        monitor_addresses@.len() > 0 ==> r is Ok,
        r is Ok ==> monitor_addresses@.len() == 0 || (r->Ok_0)@
            == monitor_addresses@[0].address@,
        monitor_addresses@.len() == 0 ==> match r {
            Ok(a) => exists|i: int|
                0 <= i < operations@.len() && op_carries_contract(#[trigger] operations@[i])
                    && (operations@[i].contract_id matches Some(c) && a@ == c@) && (forall|j: int|
                    0 <= j < i ==> !op_carries_contract(#[trigger] operations@[j])),
            Err(_) => forall|i: int|
                0 <= i < operations@.len() ==> !op_carries_contract(#[trigger] operations@[i]),
        },
{
    if monitor_addresses.len() > 0 {
        let out = monitor_addresses[0].address.clone();
        proof {
            assert(out@ == monitor_addresses@[0].address@);
        }
        return Ok(out);
    }
    proof {
        assert(monitor_addresses@.len() == 0);
    }
    let mut i: usize = 0;
    while i < operations.len()
        invariant
            i <= operations@.len(),
            monitor_addresses@.len() == 0,
            forall|j: int| 0 <= j < i ==> !op_carries_contract(#[trigger] operations@[j]),
        decreases operations@.len() - i,
    {
        let op = &operations[i];
        if string_eq_str(&op.op_type, "invokeHostFunction") {
            match &op.contract_id {
                Some(c) => {
                    let out = c.clone();
                    proof {
                        assert(op_carries_contract(operations@[i as int]));
                        assert(operations@[i as int].contract_id matches Some(cc) && out@ == cc@);
                        assert(exists|x: int|
                            0 <= x < operations@.len() && op_carries_contract(
                                #[trigger] operations@[x],
                            ) && (operations@[x].contract_id matches Some(cc) && out@ == cc@) && (
                            forall|j: int|
                                0 <= j < x ==> !op_carries_contract(#[trigger] operations@[j])));
                    }
                    return Ok(out);
                },
                None => {},
            }
        }
        i = i + 1;
    }
    Err(
        ServiceError::BlockProcessingError(
            "Could not extract contract address from Stellar transaction".to_owned(),
        ),
    )
}

/// The monitor watches this address, compared without regard to ASCII case.
pub open spec fn monitor_watches_address(m: Monitor, subject: Seq<char>) -> bool {
    exists|a: int|
        0 <= a < m.addresses@.len() && ascii_lower((#[trigger] m.addresses@[a]).address@)
            == ascii_lower(subject)
}

/// Whether a monitor's configured addresses contain the subject address.
pub fn monitor_has_address(m: &Monitor, subject: &str) -> (r: bool)
    ensures
        r == monitor_watches_address(*m, subject@),
{
    let mut a: usize = 0;
    while a < m.addresses.len()
        invariant
            a <= m.addresses@.len(),
            forall|j: int|
                0 <= j < a ==> ascii_lower((#[trigger] m.addresses@[j]).address@) != ascii_lower(
                    subject@,
                ),
        decreases m.addresses@.len() - a,
    {
        if str_eq_ignore_ascii_case(m.addresses[a].address.as_str(), subject) {
            proof {
                assert(ascii_lower(m.addresses@[a as int].address@) == ascii_lower(subject@));
            }
            return true;
        }
        a = a + 1;
    }
    false
}

/// The first monitor entry whose addresses contain the subject address.
pub fn monitor_for_address(monitors: &Vec<(String, Monitor)>, subject: &str) -> (r: Option<usize>)
    ensures
        match r {
            Some(k) => k < monitors@.len() && monitor_watches_address(
                monitors@[k as int].1,
                subject@,
            ) && (forall|k2: int|
                0 <= k2 < k ==> !monitor_watches_address(
                    (#[trigger] monitors@[k2]).1,
                    subject@,
                )),
            None => forall|k2: int|
                0 <= k2 < monitors@.len() ==> !monitor_watches_address(
                    (#[trigger] monitors@[k2]).1,
                    subject@,
                ),
        },
{
    let mut k: usize = 0;
    while k < monitors.len()
        invariant
            k <= monitors@.len(),
            forall|k2: int|
                0 <= k2 < k ==> !monitor_watches_address((#[trigger] monitors@[k2]).1, subject@),
        decreases monitors@.len() - k,
    {
        if monitor_has_address(&monitors[k].1, subject) {
            return Some(k);
        }
        k = k + 1;
    }
    None
}

/// The variable map seeded for trigger execution: the monitor's name and
/// the network the match came from.
pub fn trigger_variables(monitor_name: &str, network_slug: &str) -> (vars: Vec<(String, String)>)
    ensures
        vars@.len() == 2,
        vars@[0].0@ == "monitor_name"@,
        vars@[0].1@ == monitor_name@,
        vars@[1].0@ == "network"@,
        vars@[1].1@ == network_slug@,
{
    let mut vars: Vec<(String, String)> = Vec::new();
    vars.push(("monitor_name".to_owned(), monitor_name.to_owned()));
    vars.push(("network".to_owned(), network_slug.to_owned()));
    vars
}

/// A match attributed to a tenant and one of its monitors. The match payload
/// itself is carried opaquely for the trigger layer.
#[derive(Debug, Clone)]
pub struct TenantMonitorMatch {
    /// The tenant whose monitor matched.
    pub tenant_id: u128,
    /// The matching monitor's name.
    pub monitor_name: String,
    /// The raw match, serialized by the filter engine.
    pub monitor_match: String,
}

/// A block handed to the pipeline, by chain kind; the pipeline reads only
/// its height, the payload staying with the caller.
#[derive(Debug, Clone, Copy, PartialEq, Eq, Structural)]
pub enum BlockWrapper {
    /// An EVM block at this height.
    Ethereum(u64),
    /// A Stellar ledger at this height.
    Stellar(u64),
}

impl BlockWrapper {
    /// The wrapped block's height.
    pub fn height(&self) -> (h: u64)
        ensures
            h == match *self {
                BlockWrapper::Ethereum(x) => x,
                BlockWrapper::Stellar(x) => x,
            },
    {
        match self {
            BlockWrapper::Ethereum(x) => *x,
            BlockWrapper::Stellar(x) => *x,
        }
    }
}

/// The monitor lists this network slug.
pub open spec fn monitor_lists_network(m: Monitor, slug: Seq<char>) -> bool {
    exists|x: int| 0 <= x < m.networks@.len() && (#[trigger] m.networks@[x])@ == slug
}

/// Whether a slug occurs in a list of network slugs.
pub fn slugs_contain(v: &Vec<String>, slug: &str) -> (r: bool)
    ensures
        r == exists|x: int| 0 <= x < v@.len() && (#[trigger] v@[x])@ == slug@,
{
    let mut x: usize = 0;
    while x < v.len()
        invariant
            x <= v@.len(),
            forall|j: int| 0 <= j < x ==> (#[trigger] v@[j])@ != slug@,
        decreases v@.len() - x,
    {
        if string_eq_str(&v[x], slug) {
            proof {
                assert((v@[x as int])@ == slug@);
            }
            return true;
        }
        x = x + 1;
    }
    false
}

/// Tenant-specific monitor context: the tenant's monitors, networks and
/// triggers, each keyed by name.
pub struct TenantMonitorContext {
    /// The tenant the context belongs to.
    pub tenant_id: u128,
    /// The tenant's monitors, by name.
    pub monitors: Vec<(String, Monitor)>,
    /// The tenant's networks, by slug.
    pub networks: Vec<(String, Network)>,
    /// The tenant's triggers, by name.
    pub triggers: Vec<(String, Trigger)>,
}

impl TenantMonitorContext {
    /// The monitors configured for a network, in context order.
    pub fn get_monitors_for_network(&self, network_slug: &str) -> (r: Vec<(String, Monitor)>)
        ensures
            r@.len() == self.monitors@.filter(
                |p: (String, Monitor)| monitor_lists_network(p.1, network_slug@),
            ).len(),
            forall|k: int|
                0 <= k < r@.len() ==> (#[trigger] r@[k]).0@ == self.monitors@.filter(
                    |p: (String, Monitor)| monitor_lists_network(p.1, network_slug@),
                )[k].0@ && monitor_view(r@[k].1) == monitor_view(
                    self.monitors@.filter(
                        |p: (String, Monitor)| monitor_lists_network(p.1, network_slug@),
                    )[k].1,
                ),
    {
        let ghost ms = self.monitors@;
        let mut r: Vec<(String, Monitor)> = Vec::new();
        let mut i: usize = 0;
        proof {
            reveal(Seq::filter);
            assert(ms.take(0) =~= Seq::<(String, Monitor)>::empty());
        }
        while i < self.monitors.len()
            invariant
                i <= ms.len(),
                ms == self.monitors@,
                r@.len() == ms.take(i as int).filter(
                    |p: (String, Monitor)| monitor_lists_network(p.1, network_slug@),
                ).len(),
                forall|k: int|
                    0 <= k < r@.len() ==> (#[trigger] r@[k]).0@ == ms.take(i as int).filter(
                        |p: (String, Monitor)| monitor_lists_network(p.1, network_slug@),
                    )[k].0@ && monitor_view(r@[k].1) == monitor_view(
                        ms.take(i as int).filter(
                            |p: (String, Monitor)| monitor_lists_network(p.1, network_slug@),
                        )[k].1,
                    ),
            decreases ms.len() - i,
        {
            proof {
                reveal(Seq::filter);
                assert(ms.take(i + 1).drop_last() =~= ms.take(i as int));
                assert(ms.take(i + 1).last() == ms[i as int]);
            }
            let p = &self.monitors[i];
            if slugs_contain(&p.1.networks, network_slug) {
                proof {
                    assert(monitor_lists_network(ms[i as int].1, network_slug@));
                }
                r.push((p.0.clone(), copy_monitor(&p.1)));
            } else {
                proof {
                    assert(!monitor_lists_network(ms[i as int].1, network_slug@));
                }
            }
            i = i + 1;
        }
        proof {
            assert(ms.take(ms.len() as int) =~= ms);
        }
        r
    }

    /// The first monitor entry with this name.
    pub fn get_monitor(&self, name: &str) -> (r: Result<Monitor, ServiceError>)
        ensures
            match r {
                Ok(m) => exists|k: int|
                    0 <= k < self.monitors@.len() && (#[trigger] self.monitors@[k]).0@ == name@
                        && monitor_view(self.monitors@[k].1) == monitor_view(m) && (forall|k2: int|
                        0 <= k2 < k ==> (#[trigger] self.monitors@[k2]).0@ != name@),
                Err(_) => forall|k: int|
                    0 <= k < self.monitors@.len() ==> (#[trigger] self.monitors@[k]).0@ != name@,
            },
    {
        let mut k: usize = 0;
        while k < self.monitors.len()
            invariant
                k <= self.monitors@.len(),
                forall|k2: int| 0 <= k2 < k ==> (#[trigger] self.monitors@[k2]).0@ != name@,
            decreases self.monitors@.len() - k,
        {
            if string_eq_str(&self.monitors[k].0, name) {
                proof {
                    assert((self.monitors@[k as int]).0@ == name@);
                }
                return Ok(copy_monitor(&self.monitors[k].1));
            }
            k = k + 1;
        }
        let mut msg = "Monitor not found: ".to_owned();
        msg.append(name);
        Err(ServiceError::MonitorNotFound(msg))
    }
}

/// A persisted trigger-condition script row.
#[derive(Debug, Clone)]
pub struct ScriptRow {
    /// The owning tenant.
    pub tenant_id: u128,
    /// The script's name, what condition references resolve to.
    pub name: String,
    /// The script's content.
    pub content: String,
    /// Whether the row is active.
    pub is_active: bool,
}

/// A script row is visible when active and owned by a tenant in the filter.
pub open spec fn script_row_visible(row: ScriptRow, filter: Seq<u128>) -> bool {
    row.is_active && filter.contains(row.tenant_id)
}

/// Two monitor tables carry the same content, entry for entry.
pub open spec fn monitor_entries_eqv(a: Seq<(String, Monitor)>, b: Seq<(String, Monitor)>) -> bool {
    &&& a.len() == b.len()
    &&& forall|k: int|
        0 <= k < a.len() ==> (#[trigger] a[k]).0@ == (#[trigger] b[k]).0@ && monitor_view(a[k].1)
            == monitor_view(b[k].1)
}

/// Copy a monitor table, preserving its content.
fn copy_monitor_entries(v: &Vec<(String, Monitor)>) -> (r: Vec<(String, Monitor)>)
    ensures
        monitor_entries_eqv(r@, v@),
{
    let mut r: Vec<(String, Monitor)> = Vec::new();
    let mut i: usize = 0;
    while i < v.len()
        invariant
            i <= v@.len(),
            r@.len() == i,
            forall|k: int|
                0 <= k < i ==> (#[trigger] r@[k]).0@ == (#[trigger] v@[k]).0@ && monitor_view(
                    r@[k].1,
                ) == monitor_view(v@[k].1),
        decreases v@.len() - i,
    {
        r.push((v[i].0.clone(), copy_monitor(&v[i].1)));
        i = i + 1;
    }
    r
}

/// The monitoring services for a set of tenants: the three repository views,
/// the script store, and the per-tenant caches.
pub struct OzMonitorServices {
    /// Monitor repository view.
    pub monitor_repo: TenantAwareMonitorRepository,
    /// Network repository view.
    pub network_repo: TenantAwareNetworkRepository,
    /// Trigger repository view.
    pub trigger_repo: TenantAwareTriggerRepository,
    /// Snapshot of the persisted trigger-condition scripts.
    pub script_rows: Vec<ScriptRow>,
    /// Monitors memoized per tenant, filled lazily, cleared by reloads.
    pub monitor_cache: Vec<(u128, Vec<(String, Monitor)>)>,
    /// Script contents memoized by reference.
    pub trigger_script_cache: Vec<(String, String)>,
    /// Contract interface specs memoized by network and address.
    pub contract_spec_cache: Vec<(String, String)>,
    /// The tenants this instance serves.
    pub tenant_ids: Vec<u128>,
}

/// There is a cache entry for this tenant.
pub open spec fn has_cached_monitors(c: Seq<(u128, Vec<(String, Monitor)>)>, t: u128) -> bool {
    exists|i: int| 0 <= i < c.len() && (#[trigger] c[i]).0 == t
}

impl OzMonitorServices {
    /// Services over repository views and a script store, with cold caches.
    pub fn new(
        monitor_repo: TenantAwareMonitorRepository,
        network_repo: TenantAwareNetworkRepository,
        trigger_repo: TenantAwareTriggerRepository,
        script_rows: Vec<ScriptRow>,
        tenant_ids: Vec<u128>,
    ) -> (s: Self)
        ensures
            s.monitor_repo == monitor_repo,
            s.network_repo == network_repo,
            s.trigger_repo == trigger_repo,
            s.script_rows == script_rows,
            s.tenant_ids == tenant_ids,
            s.monitor_cache@.len() == 0,
            s.trigger_script_cache@.len() == 0,
            s.contract_spec_cache@.len() == 0,
    {
        OzMonitorServices {
            monitor_repo,
            network_repo,
            trigger_repo,
            script_rows,
            monitor_cache: Vec::new(),
            trigger_script_cache: Vec::new(),
            contract_spec_cache: Vec::new(),
            tenant_ids,
        }
    }

    /// The tenants this instance serves.
    pub fn tenant_filter(&self) -> (r: &Vec<u128>)
        ensures
            r == &self.tenant_ids,
    {
        &self.tenant_ids
    }

    /// The index of the monitor cache entry for a tenant, if one exists.
    fn find_cached(&self, tenant_id: u128) -> (r: Option<usize>)
        ensures
            match r {
                Some(i) => i < self.monitor_cache@.len() && self.monitor_cache@[i as int].0
                    == tenant_id,
                None => !has_cached_monitors(self.monitor_cache@, tenant_id),
            },
    {
        let mut i: usize = 0;
        while i < self.monitor_cache.len()
            invariant
                i <= self.monitor_cache@.len(),
                forall|j: int| 0 <= j < i ==> (#[trigger] self.monitor_cache@[j]).0 != tenant_id,
            decreases self.monitor_cache@.len() - i,
        {
            if self.monitor_cache[i].0 == tenant_id {
                return Some(i);
            }
            i = i + 1;
        }
        None
    }

    /// Build the tenant's context: monitors from the cache when present and
    /// loaded (and then memoized) otherwise; networks and triggers are
    /// always refreshed through the repositories, whose filters narrow to
    /// this tenant.
    pub fn get_tenant_context(&mut self, tenant_id: u128) -> (ctx: TenantMonitorContext)
        ensures
            ctx.tenant_id == tenant_id,
            // networks and triggers reflect the repositories under this tenant
            network_map_of(final(self).network_repo.rows@, final(self).network_repo.tenant_filter@, ctx.networks@),
            trigger_map_of(final(self).trigger_repo.rows@, final(self).trigger_repo.tenant_filter@, ctx.triggers@),
            final(self).network_repo.rows == old(self).network_repo.rows,
            final(self).network_repo.tenant_filter@ == seq![tenant_id],
            final(self).trigger_repo.rows == old(self).trigger_repo.rows,
            final(self).trigger_repo.tenant_filter@ == seq![tenant_id],
            // monitors come from the cache on a hit, else from the repository
            has_cached_monitors(old(self).monitor_cache@, tenant_id) ==> (exists|i: int|
                0 <= i < old(self).monitor_cache@.len() && (#[trigger] old(self).monitor_cache@[i]).0
                    == tenant_id && monitor_entries_eqv(ctx.monitors@, old(self).monitor_cache@[i].1@))
                && final(self).monitor_cache == old(self).monitor_cache && final(self).monitor_repo
                == old(self).monitor_repo,
            !has_cached_monitors(old(self).monitor_cache@, tenant_id) ==> monitor_map_of(
                old(self).monitor_repo.rows@,
                seq![tenant_id],
                ctx.monitors@,
            ) && final(self).monitor_repo.rows == old(self).monitor_repo.rows
                && final(self).monitor_repo.tenant_filter@ == seq![tenant_id]
                && final(self).monitor_cache@.len() == old(self).monitor_cache@.len() + 1
                && final(self).monitor_cache@[final(self).monitor_cache@.len() - 1].0 == tenant_id
                && monitor_entries_eqv(
                final(self).monitor_cache@[final(self).monitor_cache@.len() - 1].1@,
                ctx.monitors@,
            ) && (forall|i: int|
                0 <= i < old(self).monitor_cache@.len() ==> final(self).monitor_cache@[i] == old(self).monitor_cache@[i]),
            final(self).script_rows == old(self).script_rows,
            final(self).trigger_script_cache == old(self).trigger_script_cache,
            final(self).contract_spec_cache == old(self).contract_spec_cache,
            final(self).tenant_ids == old(self).tenant_ids,
    {
        let mut single: Vec<u128> = Vec::new();
        single.push(tenant_id);
        proof {
            assert(single@ =~= seq![tenant_id]);
        }
        let mut single2: Vec<u128> = Vec::new();
        single2.push(tenant_id);
        self.network_repo.update_tenant_filter(single);
        let networks = self.network_repo.get_all();
        self.trigger_repo.update_tenant_filter(single2);
        let triggers = self.trigger_repo.get_all();
        let monitors: Vec<(String, Monitor)> = match self.find_cached(tenant_id) {
            Some(i) => {
                proof {
                    assert(has_cached_monitors(self.monitor_cache@, tenant_id));
                }
                copy_monitor_entries(&self.monitor_cache[i].1)
            },
            None => {
                let mut single3: Vec<u128> = Vec::new();
                single3.push(tenant_id);
                proof {
                    assert(single3@ =~= seq![tenant_id]);
                }
                self.monitor_repo.update_tenant_filter(single3);
                let loaded = self.monitor_repo.get_all();
                let memo = copy_monitor_entries(&loaded);
                self.monitor_cache.push((tenant_id, memo));
                loaded
            },
        };
        TenantMonitorContext { tenant_id, monitors, networks, triggers }
    }

    /// Reload configuration for the given tenants: their memoized monitors
    /// are dropped, and the repository filters are reset to the list, so the
    /// next context builds read fresh rows.
    pub fn reload_configurations(&mut self, tenant_ids: &Vec<u128>)
        ensures
            final(self).monitor_cache@ == old(self).monitor_cache@.filter(
                |e: (u128, Vec<(String, Monitor)>)| !tenant_ids@.contains(e.0),
            ),
            final(self).monitor_repo.rows == old(self).monitor_repo.rows,
            final(self).monitor_repo.tenant_filter@ == tenant_ids@,
            final(self).network_repo.rows == old(self).network_repo.rows,
            final(self).network_repo.tenant_filter@ == tenant_ids@,
            final(self).trigger_repo.rows == old(self).trigger_repo.rows,
            final(self).trigger_repo.tenant_filter@ == tenant_ids@,
            final(self).script_rows == old(self).script_rows,
            final(self).trigger_script_cache == old(self).trigger_script_cache,
            final(self).contract_spec_cache == old(self).contract_spec_cache,
            final(self).tenant_ids == old(self).tenant_ids,
    {
        let ghost olds = self.monitor_cache@;
        let mut i: usize = 0;
        let ghost mut j: int = 0;
        proof {
            reveal(Seq::filter);
            assert(olds.take(0) =~= Seq::<(u128, Vec<(String, Monitor)>)>::empty());
            assert(olds.skip(0) =~= olds);
            assert(self.monitor_cache@ =~= olds.take(0).filter(
                |e: (u128, Vec<(String, Monitor)>)| !tenant_ids@.contains(e.0),
            ) + olds.skip(0));
        }
        while i < self.monitor_cache.len()
            invariant
                0 <= j <= olds.len(),
                i as int == olds.take(j).filter(
                    |e: (u128, Vec<(String, Monitor)>)| !tenant_ids@.contains(e.0),
                ).len(),
                self.monitor_cache@ == olds.take(j).filter(
                    |e: (u128, Vec<(String, Monitor)>)| !tenant_ids@.contains(e.0),
                ) + olds.skip(j),
                *self == (OzMonitorServices { monitor_cache: self.monitor_cache, ..*old(self) }),
            decreases olds.len() - j,
        {
            proof {
                reveal(Seq::filter);
                assert(olds.take(j + 1).drop_last() =~= olds.take(j));
                assert(olds.take(j + 1).last() == olds[j]);
                assert(self.monitor_cache@[i as int] == olds.skip(j)[0]);
                assert(olds.skip(j)[0] == olds[j]);
                assert(olds.skip(j).skip(1) =~= olds.skip(j + 1));
            }
            if contains_tenant(tenant_ids, self.monitor_cache[i].0) {
                self.monitor_cache.remove(i);
                proof {
                    assert(self.monitor_cache@ =~= olds.take(j + 1).filter(
                        |e: (u128, Vec<(String, Monitor)>)| !tenant_ids@.contains(e.0),
                    ) + olds.skip(j + 1));
                }
            } else {
                i = i + 1;
                proof {
                    assert(self.monitor_cache@ =~= olds.take(j + 1).filter(
                        |e: (u128, Vec<(String, Monitor)>)| !tenant_ids@.contains(e.0),
                    ) + olds.skip(j + 1));
                }
            }
            proof {
                j = j + 1;
            }
        }
        proof {
            assert(olds.skip(olds.len() as int).len() == 0);
            assert(olds.take(olds.len() as int) =~= olds);
            assert(self.monitor_cache@ =~= olds.filter(
                |e: (u128, Vec<(String, Monitor)>)| !tenant_ids@.contains(e.0),
            ));
        }
        self.monitor_repo.update_tenant_filter(clone_tenants(tenant_ids));
        self.network_repo.update_tenant_filter(clone_tenants(tenant_ids));
        self.trigger_repo.update_tenant_filter(clone_tenants(tenant_ids));
    }
}

/// Some entry's monitor lists this slug.
pub open spec fn slug_from_entries(entries: Seq<(String, Monitor)>, slug: String) -> bool {
    exists|e: int, x: int|
        0 <= e < entries.len() && 0 <= x < entries[e].1.networks@.len() && (
        #[trigger] entries[e].1.networks@[x])@ == slug@
}

/// The slug list carries this name.
pub open spec fn slug_listed(slugs: Seq<String>, s: Seq<char>) -> bool {
    exists|k: int| 0 <= k < slugs.len() && (#[trigger] slugs[k])@ == s
}

/// `slugs` is exactly the union of the network lists of `entries`, each
/// slug once.
pub open spec fn slug_union_of(entries: Seq<(String, Monitor)>, slugs: Seq<String>) -> bool {
    &&& forall|k1: int, k2: int|
        0 <= k1 < k2 < slugs.len() ==> (#[trigger] slugs[k1])@ != (#[trigger] slugs[k2])@
    &&& forall|k: int| 0 <= k < slugs.len() ==> slug_from_entries(entries, #[trigger] slugs[k])
    &&& forall|e: int, x: int|
        0 <= e < entries.len() && 0 <= x < entries[e].1.networks@.len() ==> slug_listed(
            slugs,
            (#[trigger] entries[e].1.networks@[x])@,
        )
}

impl OzMonitorServices {
    /// The network slugs that some monitor visible through the current
    /// filter applies to: the networks worth scanning, each named once.
    #[verifier::rlimit(100)]
    pub fn get_active_networks(&self) -> (slugs: Vec<String>)
        ensures
            exists|entries: Seq<(String, Monitor)>|
                monitor_map_of(
                    self.monitor_repo.rows@,
                    self.monitor_repo.tenant_filter@,
                    entries,
                ) && slug_union_of(entries, slugs@),
    {
        let entries = self.monitor_repo.get_all();
        let ghost es = entries@;
        let mut slugs: Vec<String> = Vec::new();
        let mut e: usize = 0;
        while e < entries.len()
            invariant
                e <= es.len(),
                es == entries@,
                forall|k1: int, k2: int|
                    0 <= k1 < k2 < slugs@.len() ==> (#[trigger] slugs@[k1])@ != (
                    #[trigger] slugs@[k2])@,
                forall|k: int|
                    0 <= k < slugs@.len() ==> slug_from_entries(es, #[trigger] slugs@[k]),
                forall|e2: int, x: int|
                    0 <= e2 < e && 0 <= x < es[e2].1.networks@.len() ==> slug_listed(
                        slugs@,
                        (#[trigger] es[e2].1.networks@[x])@,
                    ),
            decreases es.len() - e,
        {
            let nets = &entries[e].1.networks;
            let mut x: usize = 0;
            while x < nets.len()
                invariant
                    x <= nets@.len(),
                    e < es.len(),
                    es == entries@,
                    nets@ == es[e as int].1.networks@,
                    forall|k1: int, k2: int|
                        0 <= k1 < k2 < slugs@.len() ==> (#[trigger] slugs@[k1])@ != (
                        #[trigger] slugs@[k2])@,
                    forall|k: int|
                        0 <= k < slugs@.len() ==> slug_from_entries(es, #[trigger] slugs@[k]),
                    forall|e2: int, x2: int|
                        0 <= e2 < e && 0 <= x2 < es[e2].1.networks@.len() ==> slug_listed(
                            slugs@,
                            (#[trigger] es[e2].1.networks@[x2])@,
                        ),
                    forall|x2: int|
                        0 <= x2 < x ==> slug_listed(slugs@, (#[trigger] nets@[x2])@),
                decreases nets@.len() - x,
            {
                let ghost pre = slugs@;
                if !slugs_contain(&slugs, nets[x].as_str()) {
                    slugs.push(nets[x].clone());
                    proof {
                        assert(slugs@[slugs@.len() - 1]@ == nets@[x as int]@);
                        assert forall|k1: int, k2: int|
                            0 <= k1 < k2 < slugs@.len() implies (#[trigger] slugs@[k1])@ != (
                        #[trigger] slugs@[k2])@ by {
                            if k2 == slugs@.len() - 1 {
                                assert(slugs@[k1] == pre[k1]);
                            } else {
                                assert(slugs@[k1] == pre[k1]);
                                assert(slugs@[k2] == pre[k2]);
                            }
                        }
                        assert forall|k: int| 0 <= k < slugs@.len() implies slug_from_entries(
                            es,
                            #[trigger] slugs@[k],
                        ) by {
                            if k < pre.len() {
                                assert(slugs@[k] == pre[k]);
                            } else {
                                assert(0 <= e < es.len() && 0 <= x < es[e as int].1.networks@.len()
                                    && es[e as int].1.networks@[x as int]@ == slugs@[k]@);
                            }
                        }
                    }
                }
                proof {
                    assert forall|k: int| 0 <= k < pre.len() implies slugs@[k] == pre[k] by {}
                    assert forall|x2: int| 0 <= x2 < x + 1 implies slug_listed(
                        slugs@,
                        (#[trigger] nets@[x2])@,
                    ) by {
                        if x2 < x {
                            let k = choose|k: int|
                                0 <= k < pre.len() && (#[trigger] pre[k])@ == nets@[x2]@;
                            assert(slugs@[k]@ == nets@[x2]@);
                        } else {
                            if slugs@.len() == pre.len() {
                                let k = choose|k: int|
                                    0 <= k < pre.len() && (#[trigger] pre[k])@
                                        == nets@[x as int]@;
                                assert(slugs@[k]@ == nets@[x as int]@);
                            } else {
                                assert(slugs@[slugs@.len() - 1]@ == nets@[x as int]@);
                            }
                        }
                    }
                    assert forall|e2: int, x2: int|
                        0 <= e2 < e && 0 <= x2 < es[e2].1.networks@.len() implies slug_listed(
                        slugs@,
                        (#[trigger] es[e2].1.networks@[x2])@,
                    ) by {
                        let k = choose|k: int|
                            0 <= k < pre.len() && (#[trigger] pre[k])@
                                == es[e2].1.networks@[x2]@;
                        assert(slugs@[k]@ == es[e2].1.networks@[x2]@);
                    }
                }
                x = x + 1;
            }
            proof {
                assert forall|x2: int|
                    0 <= x2 < es[e as int].1.networks@.len() implies slug_listed(
                    slugs@,
                    (#[trigger] es[e as int].1.networks@[x2])@,
                ) by {
                    assert(slug_listed(slugs@, nets@[x2]@));
                }
            }
            e = e + 1;
        }
        proof {
            assert(slug_union_of(es, slugs@));
            assert(monitor_map_of(self.monitor_repo.rows@, self.monitor_repo.tenant_filter@, es)
                && slug_union_of(es, slugs@));
        }
        slugs
    }

    /// The content of the first active script row whose name the reference
    /// resolves to, owned by a served tenant, or an error naming the script.
    /// The caller resolving a condition treats the error as the script's
    /// failure and keeps the match.
    pub fn load_script_from_database(&self, script_name: &str) -> (r: Result<String, ServiceError>)
        ensures
            match r {
                Ok(content) => exists|i: int|
                    0 <= i < self.script_rows@.len() && script_row_visible(
                        #[trigger] self.script_rows@[i],
                        self.tenant_ids@,
                    ) && self.script_rows@[i].name@ == spec_script_name(script_name@)
                        && self.script_rows@[i].content@ == content@ && (forall|j: int|
                        0 <= j < i ==> !(script_row_visible(
                            #[trigger] self.script_rows@[j],
                            self.tenant_ids@,
                        ) && self.script_rows@[j].name@ == spec_script_name(script_name@))),
                Err(_) => forall|i: int|
                    0 <= i < self.script_rows@.len() ==> !(script_row_visible(
                        #[trigger] self.script_rows@[i],
                        self.tenant_ids@,
                    ) && self.script_rows@[i].name@ == spec_script_name(script_name@)),
            },
    {
        let name = normalize_script_name(script_name);
        let mut i: usize = 0;
        while i < self.script_rows.len()
            invariant
                name@ == spec_script_name(script_name@),
                i <= self.script_rows@.len(),
                forall|j: int|
                    0 <= j < i ==> !(script_row_visible(
                        #[trigger] self.script_rows@[j],
                        self.tenant_ids@,
                    ) && self.script_rows@[j].name@ == spec_script_name(script_name@)),
            decreases self.script_rows@.len() - i,
        {
            let row = &self.script_rows[i];
            if row.is_active && contains_tenant(&self.tenant_ids, row.tenant_id) {
                if string_eq_str(&row.name, name.as_str()) {
                    return Ok(row.content.clone());
                }
            }
            i = i + 1;
        }
        let mut msg = "Script not found in the store: ".to_owned();
        msg.append(name.as_str());
        Err(ServiceError::ScriptNotFound(msg))
    }
}

/// The script name a condition reference resolves to: a path-style
/// reference is reduced to what follows its last separator, with trailing
/// `.py`, `.js` and `.sh` repetitions trimmed in that order; a bare name
/// passes through untouched.
pub open spec fn spec_script_name(s: Seq<char>) -> Seq<char> {
    if s.contains('/') {
        trim_suffix_rep(
            trim_suffix_rep(trim_suffix_rep(after_last_slash(s), ".py"@), ".js"@),
            ".sh"@,
        )
    } else {
        s
    }
}

/// Resolve a condition's script reference to the stored script name.
pub fn normalize_script_name(script_name: &str) -> (r: String)
    ensures
        r@ == spec_script_name(script_name@),
{
    let n = script_name.unicode_len();
    let mut i: usize = 0;
    let mut last: usize = 0;
    let mut found = false;
    while i < n
        invariant
            i <= n,
            n == script_name@.len(),
            found ==> last < i && script_name@[last as int] == '/' && (forall|j: int|
                last < j < i ==> script_name@[j] != '/'),
            !found ==> forall|j: int| 0 <= j < i ==> script_name@[j] != '/',
        decreases n - i,
    {
        if script_name.get_char(i) == '/' {
            found = true;
            last = i;
        }
        i = i + 1;
    }
    if !found {
        proof {
            if script_name@.contains('/') {
                let j = choose|j: int|
                    0 <= j < script_name@.len() && script_name@[j] == '/';
            }
        }
        return script_name.to_owned();
    }
    proof {
        assert(script_name@[last as int] == '/');
        assert(script_name@.contains('/'));
        lemma_after_last_slash_at(script_name@, last as int);
    }
    let base = script_name.substring_char(last + 1, n);
    proof {
        assert(base@ =~= after_last_slash(script_name@));
        reveal_strlit(".py");
        reveal_strlit(".js");
        reveal_strlit(".sh");
        assert(seq!['.', 'p', 'y'] =~= ".py"@);
        assert(seq!['.', 'j', 's'] =~= ".js"@);
        assert(seq!['.', 's', 'h'] =~= ".sh"@);
    }
    let t1 = trim_suffix3(base, '.', 'p', 'y');
    let t2 = trim_suffix3(t1.as_str(), '.', 'j', 's');
    trim_suffix3(t2.as_str(), '.', 's', 'h')
}

/// Copy a list of tenant identifiers.
fn clone_tenants(v: &Vec<u128>) -> (r: Vec<u128>)
    ensures
        r@ == v@,
{
    let mut r: Vec<u128> = Vec::new();
    let mut i: usize = 0;
    while i < v.len()
        invariant
            i <= v@.len(),
            r@ == v@.take(i as int),
        decreases v@.len() - i,
    {
        r.push(v[i]);
        proof {
            assert(r@ =~= v@.take(i + 1));
        }
        i = i + 1;
    }
    proof {
        assert(v@.take(v@.len() as int) =~= v@);
    }
    r
}

} // verus!
