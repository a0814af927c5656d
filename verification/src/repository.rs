//! The tenant-aware repository views: monitors, networks and triggers read
//! through a held tenant filter.
//!
//! Each repository holds a snapshot of the store's rows as plain records.
//! Reads see exactly the active rows whose tenant is in the filter; a map
//! read keys records by name, the last visible row winning. The filter is
//! replaced atomically. The surrounding application loads rows from the
//! relational store and refreshes the snapshot.

use vstd::prelude::*;

use crate::model::{Monitor, MonitorAddress, Trigger, TriggerCondition};
use crate::text::string_eq_str;
use crate::watcher::Network;

verus! {

/// Repository-level errors.
#[derive(Debug, Clone)]
pub enum RepositoryError {
    /// Database connection error.
    ConnectionError(String),
    /// Query execution failed.
    QueryError(String),
    /// Entity not found: entity type and identifier.
    NotFound(String, String),
    /// Tenant not found.
    TenantNotFound(u128),
    /// Serialization or deserialization error.
    SerializationError(String),
    /// Transaction failed.
    TransactionError(String),
    /// Constraint violation.
    ConstraintViolation(String),
}

/// The mathematical content of a trigger condition.
pub open spec fn cond_view(c: TriggerCondition) -> (Seq<char>, Seq<char>, u32, Option<
    Seq<Seq<char>>,
>) {
    (
        c.script_path@,
        c.language@,
        c.timeout_ms,
        match c.arguments {
            Some(v) => Some(v@.map_values(|s: String| s@)),
            None => None,
        },
    )
}

/// The mathematical content of a watched address.
pub open spec fn addr_view(a: MonitorAddress) -> (Seq<char>, Option<Seq<char>>) {
    (
        a.address@,
        match a.contract_spec {
            Some(s) => Some(s@),
            None => None,
        },
    )
}

/// The mathematical content of a monitor record.
pub open spec fn monitor_view(m: Monitor) -> (
    Seq<char>,
    Seq<Seq<char>>,
    Seq<(Seq<char>, Option<Seq<char>>)>,
    Seq<Seq<char>>,
    Seq<(Seq<char>, Seq<char>, u32, Option<Seq<Seq<char>>>)>,
) {
    (
        m.name@,
        m.networks@.map_values(|s: String| s@),
        m.addresses@.map_values(|a: MonitorAddress| addr_view(a)),
        m.triggers@.map_values(|s: String| s@),
        m.trigger_conditions@.map_values(|c: TriggerCondition| cond_view(c)),
    )
}

/// The mathematical content of a network record.
pub open spec fn network_view(n: Network) -> (
    Seq<char>,
    crate::watcher::BlockChainType,
    u64,
    Seq<Seq<char>>,
    Seq<char>,
) {
    (
        n.slug@,
        n.network_type,
        n.confirmation_blocks,
        n.rpc_urls@.map_values(|s: String| s@),
        n.cron_schedule@,
    )
}

/// The mathematical content of a trigger record.
pub open spec fn trigger_view(t: Trigger) -> (Seq<char>, Seq<char>, Seq<char>) {
    (t.name@, t.trigger_type@, t.configuration@)
}

/// Copy a vector of strings, preserving its contents.
pub fn clone_strings(v: &Vec<String>) -> (r: Vec<String>)
    ensures
        r@ == v@,
{
    let mut r: Vec<String> = Vec::new();
    let mut i: usize = 0;
    while i < v.len()
        invariant
            i <= v@.len(),
            r@ == v@.take(i as int),
        decreases v@.len() - i,
    {
        r.push(v[i].clone());
        proof {
            assert(r@ =~= v@.take(i + 1));
        }
        i = i + 1;
    }
    proof {
        assert(v@.take(v@.len() as int) =~= v@);
    }
    r
}

/// Copy an optional string.
fn clone_opt_string(v: &Option<String>) -> (r: Option<String>)
    ensures
        match r {
            Some(s) => v matches Some(s0) && s@ == s0@,
            None => v is None,
        },
{
    match v {
        Some(s) => Some(s.clone()),
        None => None,
    }
}

/// Copy a monitor record, preserving its content.
pub fn copy_monitor(m: &Monitor) -> (r: Monitor)
    ensures
        monitor_view(r) == monitor_view(*m),
{
    let mut addresses: Vec<MonitorAddress> = Vec::new();
    let mut i: usize = 0;
    while i < m.addresses.len()
        invariant
            i <= m.addresses@.len(),
            addresses@.len() == i,
            addresses@.map_values(|a: MonitorAddress| addr_view(a)) == m.addresses@.take(
                i as int,
            ).map_values(|a: MonitorAddress| addr_view(a)),
        decreases m.addresses@.len() - i,
    {
        let a = &m.addresses[i];
        let copied = MonitorAddress {
            address: a.address.clone(),
            contract_spec: clone_opt_string(&a.contract_spec),
        };
        proof {
            assert(copied.address@ == m.addresses@[i as int].address@);
            assert(addr_view(copied).1 == addr_view(m.addresses@[i as int]).1);
            assert(addr_view(copied) == addr_view(m.addresses@[i as int]));
        }
        let ghost olda = addresses@;
        addresses.push(copied);
        proof {
            assert(addresses@ == olda.push(copied));
            assert(olda.len() == i as int);
            assert forall|k: int| 0 <= k < i + 1 implies addr_view(#[trigger] addresses@[k])
                == addr_view(m.addresses@.take(i + 1)[k]) by {
                if k < i {
                    assert(addresses@[k] == olda[k]);
                    assert(olda.map_values(|a: MonitorAddress| addr_view(a))[k] == m.addresses@.take(
                        i as int,
                    ).map_values(|a: MonitorAddress| addr_view(a))[k]);
                    assert(m.addresses@.take(i + 1)[k] == m.addresses@.take(i as int)[k]);
                } else {
                    assert(addresses@[k] == copied);
                    assert(m.addresses@.take(i + 1)[k] == m.addresses@[i as int]);
                }
            }
            assert(addresses@.map_values(|a: MonitorAddress| addr_view(a)) =~= m.addresses@.take(
                i + 1,
            ).map_values(|a: MonitorAddress| addr_view(a)));
        }
        i = i + 1;
    }
    let mut conditions: Vec<TriggerCondition> = Vec::new();
    let mut j: usize = 0;
    while j < m.trigger_conditions.len()
        invariant
            j <= m.trigger_conditions@.len(),
            conditions@.len() == j,
            conditions@.map_values(|c: TriggerCondition| cond_view(c))
                == m.trigger_conditions@.take(j as int).map_values(
                |c: TriggerCondition| cond_view(c),
            ),
        decreases m.trigger_conditions@.len() - j,
    {
        let c = &m.trigger_conditions[j];
        let args = match &c.arguments {
            Some(v) => Some(clone_strings(v)),
            None => None,
        };
        let copied = TriggerCondition {
            script_path: c.script_path.clone(),
            language: c.language.clone(),
            timeout_ms: c.timeout_ms,
            arguments: args,
        };
        proof {
            assert(copied.script_path@ == m.trigger_conditions@[j as int].script_path@);
            assert(copied.language@ == m.trigger_conditions@[j as int].language@);
            assert(cond_view(copied).3 == cond_view(m.trigger_conditions@[j as int]).3);
            assert(cond_view(copied) == cond_view(m.trigger_conditions@[j as int]));
        }
        let ghost oldc = conditions@;
        conditions.push(copied);
        proof {
            assert(conditions@ == oldc.push(copied));
            assert(oldc.len() == j as int);
            assert forall|k: int| 0 <= k < j + 1 implies cond_view(#[trigger] conditions@[k])
                == cond_view(m.trigger_conditions@.take(j + 1)[k]) by {
                if k < j {
                    assert(conditions@[k] == oldc[k]);
                    assert(oldc.map_values(|c: TriggerCondition| cond_view(c))[k]
                        == m.trigger_conditions@.take(j as int).map_values(
                        |c: TriggerCondition| cond_view(c),
                    )[k]);
                    assert(m.trigger_conditions@.take(j + 1)[k] == m.trigger_conditions@.take(
                        j as int,
                    )[k]);
                } else {
                    assert(conditions@[k] == copied);
                    assert(m.trigger_conditions@.take(j + 1)[k]
                        == m.trigger_conditions@[j as int]);
                }
            }
            assert(conditions@.map_values(|c: TriggerCondition| cond_view(c))
                =~= m.trigger_conditions@.take(j + 1).map_values(
                |c: TriggerCondition| cond_view(c),
            ));
        }
        j = j + 1;
    }
    proof {
        assert(m.addresses@.take(m.addresses@.len() as int) =~= m.addresses@);
        assert(m.trigger_conditions@.take(m.trigger_conditions@.len() as int)
            =~= m.trigger_conditions@);
    }
    Monitor {
        name: m.name.clone(),
        networks: clone_strings(&m.networks),
        addresses,
        triggers: clone_strings(&m.triggers),
        trigger_conditions: conditions,
    }
}

/// Copy a network record, preserving its content.
pub fn copy_network(n: &Network) -> (r: Network)
    ensures
        network_view(r) == network_view(*n),
{
    Network {
        slug: n.slug.clone(),
        network_type: n.network_type,
        confirmation_blocks: n.confirmation_blocks,
        rpc_urls: clone_strings(&n.rpc_urls),
        cron_schedule: n.cron_schedule.clone(),
    }
}

/// Copy a trigger record, preserving its content.
pub fn copy_trigger(t: &Trigger) -> (r: Trigger)
    ensures
        trigger_view(r) == trigger_view(*t),
{
    Trigger {
        name: t.name.clone(),
        trigger_type: t.trigger_type.clone(),
        configuration: t.configuration.clone(),
    }
}

/// A persisted monitor row.
#[derive(Debug, Clone)]
pub struct MonitorRow {
    /// The owning tenant.
    pub tenant_id: u128,
    /// External monitor identifier.
    pub monitor_id: String,
    /// The monitor record, its name agreeing with the row's name.
    pub monitor: Monitor,
    /// Whether the row is active.
    pub is_active: bool,
}

/// A persisted network row.
#[derive(Debug, Clone)]
pub struct NetworkRow {
    /// The owning tenant.
    pub tenant_id: u128,
    /// External network identifier.
    pub network_id: String,
    /// The network record.
    pub network: Network,
    /// Whether the row is active.
    pub is_active: bool,
}

/// A persisted trigger row.
#[derive(Debug, Clone)]
pub struct TriggerRow {
    /// The owning tenant.
    pub tenant_id: u128,
    /// External trigger identifier.
    pub trigger_id: String,
    /// The external identifier of the monitor the trigger belongs to.
    pub monitor_id: String,
    /// The trigger record.
    pub trigger: Trigger,
    /// Whether the row is active.
    pub is_active: bool,
}

/// A row is visible through a filter when it is active and its tenant is in
/// the filter.
pub open spec fn monitor_row_visible(row: MonitorRow, filter: Seq<u128>) -> bool {
    row.is_active && filter.contains(row.tenant_id)
}

/// See `monitor_row_visible`.
pub open spec fn network_row_visible(row: NetworkRow, filter: Seq<u128>) -> bool {
    row.is_active && filter.contains(row.tenant_id)
}

/// See `monitor_row_visible`.
pub open spec fn trigger_row_visible(row: TriggerRow, filter: Seq<u128>) -> bool {
    row.is_active && filter.contains(row.tenant_id)
}

/// The entry carries the last visible row bearing its name: some visible row
/// has the entry's name and record, and no later visible row reuses the name.
pub open spec fn monitor_entry_resolved(
    rows: Seq<MonitorRow>,
    filter: Seq<u128>,
    entry: (String, Monitor),
) -> bool {
    exists|r: int|
        0 <= r < rows.len() && monitor_row_visible(#[trigger] rows[r], filter)
            && rows[r].monitor.name@ == entry.0@ && monitor_view(rows[r].monitor) == monitor_view(
            entry.1,
        ) && (forall|r2: int|
            r < r2 < rows.len() && monitor_row_visible(#[trigger] rows[r2], filter)
                ==> rows[r2].monitor.name@ != entry.0@)
}

/// `entries` is the name-keyed view of the visible monitor rows: names are
/// distinct, every entry carries the last visible row bearing its name, and
/// every visible row's name appears.
pub open spec fn monitor_map_of(
    rows: Seq<MonitorRow>,
    filter: Seq<u128>,
    entries: Seq<(String, Monitor)>,
) -> bool {
    &&& forall|k: int|
        0 <= k < entries.len() ==> monitor_entry_resolved(rows, filter, #[trigger] entries[k])
    &&& forall|r: int|
        0 <= r < rows.len() && monitor_row_visible(#[trigger] rows[r], filter) ==> exists|k: int|
            0 <= k < entries.len() && (#[trigger] entries[k]).0@ == rows[r].monitor.name@
    &&& forall|k1: int, k2: int|
        0 <= k1 < k2 < entries.len() ==> (#[trigger] entries[k1]).0@ != (#[trigger] entries[k2]).0@
}

/// Tenant-aware monitor repository.
pub struct TenantAwareMonitorRepository {
    /// Snapshot of the persisted monitor rows, in store order.
    pub rows: Vec<MonitorRow>,
    /// The tenant filter reads go through.
    pub tenant_filter: Vec<u128>,
}

impl TenantAwareMonitorRepository {
    /// A repository over a row snapshot and an initial tenant filter.
    pub fn new(rows: Vec<MonitorRow>, tenant_filter: Vec<u128>) -> (repo: Self)
        ensures
            repo.rows == rows,
            repo.tenant_filter == tenant_filter,
    {
        TenantAwareMonitorRepository { rows, tenant_filter }
    }

    /// Replace the tenant filter atomically.
    pub fn update_tenant_filter(&mut self, tenant_filter: Vec<u128>)
        ensures
            final(self).rows == old(self).rows,
            final(self).tenant_filter == tenant_filter,
    {
        self.tenant_filter = tenant_filter;
    }

    /// All monitors visible through the filter, keyed by name, the last
    /// visible row winning. Together with `new` this is the round trip: a
    /// persisted row that is active, in the filter, and the last to bear
    /// its name comes back under that name with the same logical record.
    #[verifier::rlimit(100)]
    pub fn get_all(&self) -> (entries: Vec<(String, Monitor)>)
        ensures
            monitor_map_of(self.rows@, self.tenant_filter@, entries@),
    {
        let ghost rows = self.rows@;
        let ghost filter = self.tenant_filter@;
        let mut entries: Vec<(String, Monitor)> = Vec::new();
        let ghost mut wit: Seq<int> = Seq::empty();
        let mut i: usize = self.rows.len();
        while i > 0
            invariant
                i <= self.rows@.len(),
                rows == self.rows@,
                filter == self.tenant_filter@,
                wit.len() == entries@.len(),
                // each collected entry carries the visible row it came from
                forall|k: int|
                    0 <= k < entries@.len() ==> i <= #[trigger] wit[k] < rows.len(),
                forall|k: int|
                    0 <= k < entries@.len() ==> monitor_row_visible(rows[#[trigger] wit[k]], filter),
                forall|k: int|
                    0 <= k < entries@.len() ==> rows[wit[k]].monitor.name@ == (#[trigger] entries@[k]).0@
                        && monitor_view(rows[wit[k]].monitor) == monitor_view(entries@[k].1),
                // and that row is the last visible one bearing the name
                forall|k: int, r2: int|
                    0 <= k < entries@.len() && wit[k] < r2 < rows.len() && monitor_row_visible(
                        #[trigger] rows[r2],
                        filter,
                    ) ==> rows[r2].monitor.name@ != (#[trigger] entries@[k]).0@,
                // every visible row in the processed suffix has its name collected
                forall|r: int|
                    i <= r < rows.len() && monitor_row_visible(#[trigger] rows[r], filter)
                        ==> exists|k: int|
                        0 <= k < entries@.len() && (#[trigger] entries@[k]).0@
                            == rows[r].monitor.name@,
                forall|k1: int, k2: int|
                    0 <= k1 < k2 < entries@.len() ==> (#[trigger] entries@[k1]).0@
                        != (#[trigger] entries@[k2]).0@,
            decreases i,
        {
            i = i - 1;
            let ghost pre = entries@;
            let row = &self.rows[i];
            if row.is_active && contains_tenant(&self.tenant_filter, row.tenant_id) {
                if !entries_contain_name(&entries, row.monitor.name.as_str()) {
                    let copied = copy_monitor(&row.monitor);
                    proof {
                        assert(copied.name@ == rows[i as int].monitor.name@);
                    }
                    entries.push((row.monitor.name.clone(), copied));
                    proof {
                        wit = wit.push(i as int);
                        assert(entries@[entries@.len() - 1].0@ == rows[i as int].monitor.name@);
                        assert forall|k: int| 0 <= k < pre.len() implies entries@[k] == pre[k] by {}
                        // no visible row after this one reuses the name: its
                        // name would already have been collected
                        assert forall|r2: int|
                            i < r2 < rows.len() && monitor_row_visible(
                                #[trigger] rows[r2],
                                filter,
                            ) implies rows[r2].monitor.name@ != rows[i as int].monitor.name@ by {
                            let k0 = choose|k0: int|
                                0 <= k0 < pre.len() && (#[trigger] pre[k0]).0@
                                    == rows[r2].monitor.name@;
                        }
                    }
                }
            }
            proof {
                // every visible row of the new suffix still has its name collected
                assert forall|r: int|
                    i <= r < rows.len() && monitor_row_visible(#[trigger] rows[r], filter)
                        implies exists|k: int|
                        0 <= k < entries@.len() && (#[trigger] entries@[k]).0@
                            == rows[r].monitor.name@ by {
                    if r == i {
                        if entries@.len() == pre.len() {
                            let k0 = choose|k0: int|
                                0 <= k0 < pre.len() && (#[trigger] pre[k0]).0@
                                    == rows[i as int].monitor.name@;
                            assert(entries@[k0] == pre[k0]);
                        } else {
                            assert(entries@[entries@.len() - 1].0@
                                == rows[i as int].monitor.name@);
                        }
                    } else {
                        let k0 = choose|k0: int|
                            0 <= k0 < pre.len() && (#[trigger] pre[k0]).0@
                                == rows[r].monitor.name@;
                        assert(entries@[k0] == pre[k0]);
                    }
                }
            }
        }
        proof {
            assert forall|k: int| 0 <= k < entries@.len() implies monitor_entry_resolved(
                rows,
                filter,
                #[trigger] entries@[k],
            ) by {
                let r = wit[k];
                assert forall|r2: int|
                    r < r2 < rows.len() && monitor_row_visible(#[trigger] rows[r2], filter)
                        implies rows[r2].monitor.name@ != entries@[k].0@ by {}
                assert(0 <= r < rows.len() && monitor_row_visible(rows[r], filter)
                    && rows[r].monitor.name@ == entries@[k].0@ && monitor_view(rows[r].monitor)
                    == monitor_view(entries@[k].1) && (forall|r2: int|
                    r < r2 < rows.len() && monitor_row_visible(#[trigger] rows[r2], filter)
                        ==> rows[r2].monitor.name@ != entries@[k].0@));
            }
        }
        entries
    }

    /// The last visible monitor row bearing this name, if any.
    pub fn get(&self, name: &str) -> (r: Option<Monitor>)
        ensures
            match r {
                Some(m) => exists|ri: int|
                    0 <= ri < self.rows@.len() && monitor_row_visible(
                        #[trigger] self.rows@[ri],
                        self.tenant_filter@,
                    ) && self.rows@[ri].monitor.name@ == name@ && monitor_view(
                        self.rows@[ri].monitor,
                    ) == monitor_view(m) && (forall|r2: int|
                        ri < r2 < self.rows@.len() && monitor_row_visible(
                            #[trigger] self.rows@[r2],
                            self.tenant_filter@,
                        ) ==> self.rows@[r2].monitor.name@ != name@),
                None => forall|ri: int|
                    0 <= ri < self.rows@.len() && monitor_row_visible(
                        #[trigger] self.rows@[ri],
                        self.tenant_filter@,
                    ) ==> self.rows@[ri].monitor.name@ != name@,
            },
    {
        let mut i: usize = self.rows.len();
        while i > 0
            invariant
                i <= self.rows@.len(),
                forall|r2: int|
                    i <= r2 < self.rows@.len() && monitor_row_visible(
                        #[trigger] self.rows@[r2],
                        self.tenant_filter@,
                    ) ==> self.rows@[r2].monitor.name@ != name@,
            decreases i,
        {
            i = i - 1;
            let row = &self.rows[i];
            if row.is_active && contains_tenant(&self.tenant_filter, row.tenant_id) {
                if string_eq_str(&row.monitor.name, name) {
                    return Some(copy_monitor(&row.monitor));
                }
            }
        }
        None
    }
}

/// The entry carries the last visible row bearing its name: some visible row
/// has the entry's name and record, and no later visible row reuses the name.
pub open spec fn network_entry_resolved(
    rows: Seq<NetworkRow>,
    filter: Seq<u128>,
    entry: (String, Network),
) -> bool {
    exists|r: int|
        0 <= r < rows.len() && network_row_visible(#[trigger] rows[r], filter)
            && rows[r].network.slug@ == entry.0@ && network_view(rows[r].network) == network_view(
            entry.1,
        ) && (forall|r2: int|
            r < r2 < rows.len() && network_row_visible(#[trigger] rows[r2], filter)
                ==> rows[r2].network.slug@ != entry.0@)
}

/// `entries` is the name-keyed view of the visible rows: names are
/// distinct, every entry carries the last visible row bearing its name, and
/// every visible row's name appears.
pub open spec fn network_map_of(
    rows: Seq<NetworkRow>,
    filter: Seq<u128>,
    entries: Seq<(String, Network)>,
) -> bool {
    &&& forall|k: int|
        0 <= k < entries.len() ==> network_entry_resolved(rows, filter, #[trigger] entries[k])
    &&& forall|r: int|
        0 <= r < rows.len() && network_row_visible(#[trigger] rows[r], filter) ==> exists|k: int|
            0 <= k < entries.len() && (#[trigger] entries[k]).0@ == rows[r].network.slug@
    &&& forall|k1: int, k2: int|
        0 <= k1 < k2 < entries.len() ==> (#[trigger] entries[k1]).0@ != (#[trigger] entries[k2]).0@
}

/// Tenant-aware network repository.
pub struct TenantAwareNetworkRepository {
    /// Snapshot of the persisted rows, in store order.
    pub rows: Vec<NetworkRow>,
    /// The tenant filter reads go through.
    pub tenant_filter: Vec<u128>,
}

impl TenantAwareNetworkRepository {
    /// A repository over a row snapshot and an initial tenant filter.
    pub fn new(rows: Vec<NetworkRow>, tenant_filter: Vec<u128>) -> (repo: Self)
        ensures
            repo.rows == rows,
            repo.tenant_filter == tenant_filter,
    {
        TenantAwareNetworkRepository { rows, tenant_filter }
    }

    /// Replace the tenant filter atomically.
    pub fn update_tenant_filter(&mut self, tenant_filter: Vec<u128>)
        ensures
            final(self).rows == old(self).rows,
            final(self).tenant_filter == tenant_filter,
    {
        self.tenant_filter = tenant_filter;
    }

    /// All networks visible through the filter, keyed by slug, the last
    /// visible row winning. Together with `new` this is the round trip: a
    /// persisted row that is active, in the filter, and the last to bear
    /// its name comes back under that name with the same logical record.
    #[verifier::rlimit(100)]
    pub fn get_all(&self) -> (entries: Vec<(String, Network)>)
        ensures
            network_map_of(self.rows@, self.tenant_filter@, entries@),
    {
        let ghost rows = self.rows@;
        let ghost filter = self.tenant_filter@;
        let mut entries: Vec<(String, Network)> = Vec::new();
        let ghost mut wit: Seq<int> = Seq::empty();
        let mut i: usize = self.rows.len();
        while i > 0
            invariant
                i <= self.rows@.len(),
                rows == self.rows@,
                filter == self.tenant_filter@,
                wit.len() == entries@.len(),
                // each collected entry carries the visible row it came from
                forall|k: int|
                    0 <= k < entries@.len() ==> i <= #[trigger] wit[k] < rows.len(),
                forall|k: int|
                    0 <= k < entries@.len() ==> network_row_visible(rows[#[trigger] wit[k]], filter),
                forall|k: int|
                    0 <= k < entries@.len() ==> rows[wit[k]].network.slug@ == (#[trigger] entries@[k]).0@
                        && network_view(rows[wit[k]].network) == network_view(entries@[k].1),
                // and that row is the last visible one bearing the name
                forall|k: int, r2: int|
                    0 <= k < entries@.len() && wit[k] < r2 < rows.len() && network_row_visible(
                        #[trigger] rows[r2],
                        filter,
                    ) ==> rows[r2].network.slug@ != (#[trigger] entries@[k]).0@,
                // every visible row in the processed suffix has its name collected
                forall|r: int|
                    i <= r < rows.len() && network_row_visible(#[trigger] rows[r], filter)
                        ==> exists|k: int|
                        0 <= k < entries@.len() && (#[trigger] entries@[k]).0@
                            == rows[r].network.slug@,
                forall|k1: int, k2: int|
                    0 <= k1 < k2 < entries@.len() ==> (#[trigger] entries@[k1]).0@
                        != (#[trigger] entries@[k2]).0@,
            decreases i,
        {
            i = i - 1;
            let ghost pre = entries@;
            let row = &self.rows[i];
            if row.is_active && contains_tenant(&self.tenant_filter, row.tenant_id) {
                if !entries_contain_slug(&entries, row.network.slug.as_str()) {
                    let copied = copy_network(&row.network);
                    proof {
                        assert(copied.slug@ == rows[i as int].network.slug@);
                    }
                    entries.push((row.network.slug.clone(), copied));
                    proof {
                        wit = wit.push(i as int);
                        assert(entries@[entries@.len() - 1].0@ == rows[i as int].network.slug@);
                        assert forall|k: int| 0 <= k < pre.len() implies entries@[k] == pre[k] by {}
                        // no visible row after this one reuses the name: its
                        // name would already have been collected
                        assert forall|r2: int|
                            i < r2 < rows.len() && network_row_visible(
                                #[trigger] rows[r2],
                                filter,
                            ) implies rows[r2].network.slug@ != rows[i as int].network.slug@ by {
                            let k0 = choose|k0: int|
                                0 <= k0 < pre.len() && (#[trigger] pre[k0]).0@
                                    == rows[r2].network.slug@;
                        }
                    }
                }
            }
            proof {
                // every visible row of the new suffix still has its name collected
                assert forall|r: int|
                    i <= r < rows.len() && network_row_visible(#[trigger] rows[r], filter)
                        implies exists|k: int|
                        0 <= k < entries@.len() && (#[trigger] entries@[k]).0@
                            == rows[r].network.slug@ by {
                    if r == i {
                        if entries@.len() == pre.len() {
                            let k0 = choose|k0: int|
                                0 <= k0 < pre.len() && (#[trigger] pre[k0]).0@
                                    == rows[i as int].network.slug@;
                            assert(entries@[k0] == pre[k0]);
                        } else {
                            assert(entries@[entries@.len() - 1].0@
                                == rows[i as int].network.slug@);
                        }
                    } else {
                        let k0 = choose|k0: int|
                            0 <= k0 < pre.len() && (#[trigger] pre[k0]).0@
                                == rows[r].network.slug@;
                        assert(entries@[k0] == pre[k0]);
                    }
                }
            }
        }
        proof {
            assert forall|k: int| 0 <= k < entries@.len() implies network_entry_resolved(
                rows,
                filter,
                #[trigger] entries@[k],
            ) by {
                let r = wit[k];
                assert forall|r2: int|
                    r < r2 < rows.len() && network_row_visible(#[trigger] rows[r2], filter)
                        implies rows[r2].network.slug@ != entries@[k].0@ by {}
                assert(0 <= r < rows.len() && network_row_visible(rows[r], filter)
                    && rows[r].network.slug@ == entries@[k].0@ && network_view(rows[r].network)
                    == network_view(entries@[k].1) && (forall|r2: int|
                    r < r2 < rows.len() && network_row_visible(#[trigger] rows[r2], filter)
                        ==> rows[r2].network.slug@ != entries@[k].0@));
            }
        }
        entries
    }

    /// The last visible row bearing this name, if any.
    pub fn get(&self, name: &str) -> (r: Option<Network>)
        ensures
            match r {
                Some(m) => exists|ri: int|
                    0 <= ri < self.rows@.len() && network_row_visible(
                        #[trigger] self.rows@[ri],
                        self.tenant_filter@,
                    ) && self.rows@[ri].network.slug@ == name@ && network_view(
                        self.rows@[ri].network,
                    ) == network_view(m) && (forall|r2: int|
                        ri < r2 < self.rows@.len() && network_row_visible(
                            #[trigger] self.rows@[r2],
                            self.tenant_filter@,
                        ) ==> self.rows@[r2].network.slug@ != name@),
                None => forall|ri: int|
                    0 <= ri < self.rows@.len() && network_row_visible(
                        #[trigger] self.rows@[ri],
                        self.tenant_filter@,
                    ) ==> self.rows@[ri].network.slug@ != name@,
            },
    {
        let mut i: usize = self.rows.len();
        while i > 0
            invariant
                i <= self.rows@.len(),
                forall|r2: int|
                    i <= r2 < self.rows@.len() && network_row_visible(
                        #[trigger] self.rows@[r2],
                        self.tenant_filter@,
                    ) ==> self.rows@[r2].network.slug@ != name@,
            decreases i,
        {
            i = i - 1;
            let row = &self.rows[i];
            if row.is_active && contains_tenant(&self.tenant_filter, row.tenant_id) {
                if string_eq_str(&row.network.slug, name) {
                    return Some(copy_network(&row.network));
                }
            }
        }
        None
    }
}

/// The entry carries the last visible row bearing its name: some visible row
/// has the entry's name and record, and no later visible row reuses the name.
pub open spec fn trigger_entry_resolved(
    rows: Seq<TriggerRow>,
    filter: Seq<u128>,
    entry: (String, Trigger),
) -> bool {
    exists|r: int|
        0 <= r < rows.len() && trigger_row_visible(#[trigger] rows[r], filter)
            && rows[r].trigger.name@ == entry.0@ && trigger_view(rows[r].trigger) == trigger_view(
            entry.1,
        ) && (forall|r2: int|
            r < r2 < rows.len() && trigger_row_visible(#[trigger] rows[r2], filter)
                ==> rows[r2].trigger.name@ != entry.0@)
}

/// `entries` is the name-keyed view of the visible rows: names are
/// distinct, every entry carries the last visible row bearing its name, and
/// every visible row's name appears.
pub open spec fn trigger_map_of(
    rows: Seq<TriggerRow>,
    filter: Seq<u128>,
    entries: Seq<(String, Trigger)>,
) -> bool {
    &&& forall|k: int|
        0 <= k < entries.len() ==> trigger_entry_resolved(rows, filter, #[trigger] entries[k])
    &&& forall|r: int|
        0 <= r < rows.len() && trigger_row_visible(#[trigger] rows[r], filter) ==> exists|k: int|
            0 <= k < entries.len() && (#[trigger] entries[k]).0@ == rows[r].trigger.name@
    &&& forall|k1: int, k2: int|
        0 <= k1 < k2 < entries.len() ==> (#[trigger] entries[k1]).0@ != (#[trigger] entries[k2]).0@
}

/// Tenant-aware trigger repository.
pub struct TenantAwareTriggerRepository {
    /// Snapshot of the persisted rows, in store order.
    pub rows: Vec<TriggerRow>,
    /// The tenant filter reads go through.
    pub tenant_filter: Vec<u128>,
}

impl TenantAwareTriggerRepository {
    /// A repository over a row snapshot and an initial tenant filter.
    pub fn new(rows: Vec<TriggerRow>, tenant_filter: Vec<u128>) -> (repo: Self)
        ensures
            repo.rows == rows,
            repo.tenant_filter == tenant_filter,
    {
        TenantAwareTriggerRepository { rows, tenant_filter }
    }

    /// Replace the tenant filter atomically.
    pub fn update_tenant_filter(&mut self, tenant_filter: Vec<u128>)
        ensures
            final(self).rows == old(self).rows,
            final(self).tenant_filter == tenant_filter,
    {
        self.tenant_filter = tenant_filter;
    }

    /// All triggers visible through the filter, keyed by name, the last
    /// visible row winning. Together with `new` this is the round trip: a
    /// persisted row that is active, in the filter, and the last to bear
    /// its name comes back under that name with the same logical record.
    #[verifier::rlimit(100)]
    pub fn get_all(&self) -> (entries: Vec<(String, Trigger)>)
        ensures
            trigger_map_of(self.rows@, self.tenant_filter@, entries@),
    {
        let ghost rows = self.rows@;
        let ghost filter = self.tenant_filter@;
        let mut entries: Vec<(String, Trigger)> = Vec::new();
        let ghost mut wit: Seq<int> = Seq::empty();
        let mut i: usize = self.rows.len();
        while i > 0
            invariant
                i <= self.rows@.len(),
                rows == self.rows@,
                filter == self.tenant_filter@,
                wit.len() == entries@.len(),
                // each collected entry carries the visible row it came from
                forall|k: int|
                    0 <= k < entries@.len() ==> i <= #[trigger] wit[k] < rows.len(),
                forall|k: int|
                    0 <= k < entries@.len() ==> trigger_row_visible(rows[#[trigger] wit[k]], filter),
                forall|k: int|
                    0 <= k < entries@.len() ==> rows[wit[k]].trigger.name@ == (#[trigger] entries@[k]).0@
                        && trigger_view(rows[wit[k]].trigger) == trigger_view(entries@[k].1),
                // and that row is the last visible one bearing the name
                forall|k: int, r2: int|
                    0 <= k < entries@.len() && wit[k] < r2 < rows.len() && trigger_row_visible(
                        #[trigger] rows[r2],
                        filter,
                    ) ==> rows[r2].trigger.name@ != (#[trigger] entries@[k]).0@,
                // every visible row in the processed suffix has its name collected
                forall|r: int|
                    i <= r < rows.len() && trigger_row_visible(#[trigger] rows[r], filter)
                        ==> exists|k: int|
                        0 <= k < entries@.len() && (#[trigger] entries@[k]).0@
                            == rows[r].trigger.name@,
                forall|k1: int, k2: int|
                    0 <= k1 < k2 < entries@.len() ==> (#[trigger] entries@[k1]).0@
                        != (#[trigger] entries@[k2]).0@,
            decreases i,
        {
            i = i - 1;
            let ghost pre = entries@;
            let row = &self.rows[i];
            if row.is_active && contains_tenant(&self.tenant_filter, row.tenant_id) {
                if !entries_contain_trigger_name(&entries, row.trigger.name.as_str()) {
                    let copied = copy_trigger(&row.trigger);
                    proof {
                        assert(copied.name@ == rows[i as int].trigger.name@);
                    }
                    entries.push((row.trigger.name.clone(), copied));
                    proof {
                        wit = wit.push(i as int);
                        assert(entries@[entries@.len() - 1].0@ == rows[i as int].trigger.name@);
                        assert forall|k: int| 0 <= k < pre.len() implies entries@[k] == pre[k] by {}
                        // no visible row after this one reuses the name: its
                        // name would already have been collected
                        assert forall|r2: int|
                            i < r2 < rows.len() && trigger_row_visible(
                                #[trigger] rows[r2],
                                filter,
                            ) implies rows[r2].trigger.name@ != rows[i as int].trigger.name@ by {
                            let k0 = choose|k0: int|
                                0 <= k0 < pre.len() && (#[trigger] pre[k0]).0@
                                    == rows[r2].trigger.name@;
                        }
                    }
                }
            }
            proof {
                // every visible row of the new suffix still has its name collected
                assert forall|r: int|
                    i <= r < rows.len() && trigger_row_visible(#[trigger] rows[r], filter)
                        implies exists|k: int|
                        0 <= k < entries@.len() && (#[trigger] entries@[k]).0@
                            == rows[r].trigger.name@ by {
                    if r == i {
                        if entries@.len() == pre.len() {
                            let k0 = choose|k0: int|
                                0 <= k0 < pre.len() && (#[trigger] pre[k0]).0@
                                    == rows[i as int].trigger.name@;
                            assert(entries@[k0] == pre[k0]);
                        } else {
                            assert(entries@[entries@.len() - 1].0@
                                == rows[i as int].trigger.name@);
                        }
                    } else {
                        let k0 = choose|k0: int|
                            0 <= k0 < pre.len() && (#[trigger] pre[k0]).0@
                                == rows[r].trigger.name@;
                        assert(entries@[k0] == pre[k0]);
                    }
                }
            }
        }
        proof {
            assert forall|k: int| 0 <= k < entries@.len() implies trigger_entry_resolved(
                rows,
                filter,
                #[trigger] entries@[k],
            ) by {
                let r = wit[k];
                assert forall|r2: int|
                    r < r2 < rows.len() && trigger_row_visible(#[trigger] rows[r2], filter)
                        implies rows[r2].trigger.name@ != entries@[k].0@ by {}
                assert(0 <= r < rows.len() && trigger_row_visible(rows[r], filter)
                    && rows[r].trigger.name@ == entries@[k].0@ && trigger_view(rows[r].trigger)
                    == trigger_view(entries@[k].1) && (forall|r2: int|
                    r < r2 < rows.len() && trigger_row_visible(#[trigger] rows[r2], filter)
                        ==> rows[r2].trigger.name@ != entries@[k].0@));
            }
        }
        entries
    }

    /// The last visible row bearing this name, if any.
    pub fn get(&self, name: &str) -> (r: Option<Trigger>)
        ensures
            match r {
                Some(m) => exists|ri: int|
                    0 <= ri < self.rows@.len() && trigger_row_visible(
                        #[trigger] self.rows@[ri],
                        self.tenant_filter@,
                    ) && self.rows@[ri].trigger.name@ == name@ && trigger_view(
                        self.rows@[ri].trigger,
                    ) == trigger_view(m) && (forall|r2: int|
                        ri < r2 < self.rows@.len() && trigger_row_visible(
                            #[trigger] self.rows@[r2],
                            self.tenant_filter@,
                        ) ==> self.rows@[r2].trigger.name@ != name@),
                None => forall|ri: int|
                    0 <= ri < self.rows@.len() && trigger_row_visible(
                        #[trigger] self.rows@[ri],
                        self.tenant_filter@,
                    ) ==> self.rows@[ri].trigger.name@ != name@,
            },
    {
        let mut i: usize = self.rows.len();
        while i > 0
            invariant
                i <= self.rows@.len(),
                forall|r2: int|
                    i <= r2 < self.rows@.len() && trigger_row_visible(
                        #[trigger] self.rows@[r2],
                        self.tenant_filter@,
                    ) ==> self.rows@[r2].trigger.name@ != name@,
            decreases i,
        {
            i = i - 1;
            let row = &self.rows[i];
            if row.is_active && contains_tenant(&self.tenant_filter, row.tenant_id) {
                if string_eq_str(&row.trigger.name, name) {
                    return Some(copy_trigger(&row.trigger));
                }
            }
        }
        None
    }

    /// The visible triggers bound to a monitor's external identifier, in
    /// store order.
    pub fn get_by_monitor_id(&self, monitor_id: &str) -> (r: Vec<Trigger>)
        ensures
            r@.len() == self.rows@.filter(
                |row: TriggerRow| trigger_row_visible(row, self.tenant_filter@) && row.monitor_id@
                    == monitor_id@,
            ).len(),
            forall|k: int|
                0 <= k < r@.len() ==> trigger_view(#[trigger] r@[k]) == trigger_view(
                    self.rows@.filter(
                        |row: TriggerRow| trigger_row_visible(row, self.tenant_filter@)
                            && row.monitor_id@ == monitor_id@,
                    )[k].trigger,
                ),
    {
        let ghost rows = self.rows@;
        let ghost filter = self.tenant_filter@;
        let mut r: Vec<Trigger> = Vec::new();
        let mut i: usize = 0;
        proof {
            reveal(Seq::filter);
            assert(rows.take(0) =~= Seq::<TriggerRow>::empty());
        }
        while i < self.rows.len()
            invariant
                i <= rows.len(),
                rows == self.rows@,
                filter == self.tenant_filter@,
                r@.len() == rows.take(i as int).filter(
                    |row: TriggerRow| trigger_row_visible(row, filter) && row.monitor_id@
                        == monitor_id@,
                ).len(),
                forall|k: int|
                    0 <= k < r@.len() ==> trigger_view(#[trigger] r@[k]) == trigger_view(
                        rows.take(i as int).filter(
                            |row: TriggerRow| trigger_row_visible(row, filter) && row.monitor_id@
                                == monitor_id@,
                        )[k].trigger,
                    ),
            decreases rows.len() - i,
        {
            proof {
                reveal(Seq::filter);
                assert(rows.take(i + 1).drop_last() =~= rows.take(i as int));
                assert(rows.take(i + 1).last() == rows[i as int]);
            }
            let row = &self.rows[i];
            if row.is_active && contains_tenant(&self.tenant_filter, row.tenant_id)
                && string_eq_str(&row.monitor_id, monitor_id) {
                r.push(copy_trigger(&row.trigger));
            }
            i = i + 1;
        }
        proof {
            assert(rows.take(rows.len() as int) =~= rows);
        }
        r
    }
}

/// Whether a slug already occurs among collected entries.
fn entries_contain_slug(entries: &Vec<(String, Network)>, name: &str) -> (r: bool)
    ensures
        r == exists|k: int| 0 <= k < entries@.len() && (#[trigger] entries@[k]).0@ == name@,
{
    let mut k: usize = 0;
    while k < entries.len()
        invariant
            k <= entries@.len(),
            forall|k0: int| 0 <= k0 < k ==> (#[trigger] entries@[k0]).0@ != name@,
        decreases entries@.len() - k,
    {
        if string_eq_str(&entries[k].0, name) {
            proof {
                assert((entries@[k as int]).0@ == name@);
            }
            return true;
        }
        k = k + 1;
    }
    false
}

/// Whether a trigger name already occurs among collected entries.
fn entries_contain_trigger_name(entries: &Vec<(String, Trigger)>, name: &str) -> (r: bool)
    ensures
        r == exists|k: int| 0 <= k < entries@.len() && (#[trigger] entries@[k]).0@ == name@,
{
    let mut k: usize = 0;
    while k < entries.len()
        invariant
            k <= entries@.len(),
            forall|k0: int| 0 <= k0 < k ==> (#[trigger] entries@[k0]).0@ != name@,
        decreases entries@.len() - k,
    {
        if string_eq_str(&entries[k].0, name) {
            proof {
                assert((entries@[k as int]).0@ == name@);
            }
            return true;
        }
        k = k + 1;
    }
    false
}

/// Whether a name already occurs among collected entries.
fn entries_contain_name(entries: &Vec<(String, Monitor)>, name: &str) -> (r: bool)
    ensures
        r == exists|k: int| 0 <= k < entries@.len() && (#[trigger] entries@[k]).0@ == name@,
{
    let mut k: usize = 0;
    while k < entries.len()
        invariant
            k <= entries@.len(),
            forall|k0: int| 0 <= k0 < k ==> (#[trigger] entries@[k0]).0@ != name@,
        decreases entries@.len() - k,
    {
        if string_eq_str(&entries[k].0, name) {
            proof {
                assert((entries@[k as int]).0@ == name@);
            }
            return true;
        }
        k = k + 1;
    }
    false
}

/// Whether a tenant identifier occurs in a filter.
pub fn contains_tenant(filter: &Vec<u128>, t: u128) -> (r: bool)
    ensures
        r == filter@.contains(t),
{
    let mut i: usize = 0;
    while i < filter.len()
        invariant
            i <= filter@.len(),
            forall|j: int| 0 <= j < i ==> filter@[j] != t,
        decreases filter@.len() - i,
    {
        if filter[i] == t {
            proof {
                assert(filter@.contains(filter@[i as int]));
            }
            return true;
        }
        i = i + 1;
    }
    proof {
        if filter@.contains(t) {
            let j = choose|j: int| 0 <= j < filter@.len() && filter@[j] == t;
        }
    }
    false
}

} // verus!
