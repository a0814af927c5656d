//! Assignment records for the tenant-to-worker mapping.
//!
//! Timestamps are whole seconds supplied by the caller, so that every
//! contract states exactly which record a constructor builds.

use vstd::prelude::*;

verus! {

/// Reason for a tenant assignment.
#[derive(Debug, Clone, Copy, PartialEq, Eq, Structural)]
pub enum AssignmentReason {
    /// Initial assignment.
    Initial,
    /// Rebalancing due to load.
    LoadRebalance,
    /// Worker failure.
    WorkerFailure,
    /// Manual reassignment.
    Manual,
    /// Scaling event (up or down).
    Scaling,
    /// Priority-based reassignment.
    PriorityChange,
}

/// Tenant assignment to a worker.
#[derive(Debug, Clone)]
pub struct TenantAssignment {
    /// Tenant identifier.
    pub tenant_id: u128,
    /// Assigned worker identifier.
    pub worker_id: String,
    /// Assignment timestamp, in seconds.
    pub assigned_at: u64,
    /// Assignment version, for tracking reassignments.
    pub version: u32,
    /// Assignment reason.
    pub reason: AssignmentReason,
}

impl TenantAssignment {
    /// Create a first assignment of a tenant, at version 1.
    pub fn new(tenant_id: u128, worker_id: String, reason: AssignmentReason, now: u64) -> (a: Self)
        ensures
            a.tenant_id == tenant_id,
            a.worker_id@ == worker_id@,
            a.assigned_at == now,
            a.version == 1,
            a.reason == reason,
    {
        TenantAssignment { tenant_id, worker_id, assigned_at: now, version: 1, reason }
    }

    /// Create a reassignment of the same tenant: the version is incremented,
    /// the worker and reason replaced, the timestamp refreshed.
    pub fn reassign(&self, new_worker_id: String, reason: AssignmentReason, now: u64) -> (a: Self)
        requires
            self.version < u32::MAX,
        ensures
            a.tenant_id == self.tenant_id,
            a.worker_id@ == new_worker_id@,
            a.assigned_at == now,
            a.version == self.version + 1,
            a.reason == reason,
    {
        TenantAssignment {
            tenant_id: self.tenant_id,
            worker_id: new_worker_id,
            assigned_at: now,
            version: self.version + 1,
            reason,
        }
    }
}

/// Worker assignment summary.
#[derive(Debug, Clone)]
pub struct WorkerAssignment {
    /// Worker identifier.
    pub worker_id: String,
    /// List of assigned tenant identifiers, without duplicates.
    pub tenant_ids: Vec<u128>,
    /// Total load score (0 to 10000 for 0.0 to 1.0).
    pub load_score: u32,
    /// Number of high-priority tenants.
    pub high_priority_count: u32,
    /// Last updated timestamp, in seconds.
    pub updated_at: u64,
}

impl WorkerAssignment {
    /// Create an empty summary for a worker.
    pub fn new(worker_id: String, now: u64) -> (w: Self)
        ensures
            w.worker_id@ == worker_id@,
            w.tenant_ids@ == Seq::<u128>::empty(),
            w.load_score == 0,
            w.high_priority_count == 0,
            w.updated_at == now,
    {
        WorkerAssignment {
            worker_id,
            tenant_ids: Vec::new(),
            load_score: 0,
            high_priority_count: 0,
            updated_at: now,
        }
    }

    /// Add a tenant to this worker; a tenant already present is left alone
    /// and the timestamp is then not touched.
    pub fn add_tenant(&mut self, tenant_id: u128, now: u64)
        ensures
            old(self).tenant_ids@.contains(tenant_id) ==> *final(self) == *old(self),
            !old(self).tenant_ids@.contains(tenant_id) ==> final(self).tenant_ids@ == old(
                self,
            ).tenant_ids@.push(tenant_id) && final(self).updated_at == now && *final(self) == (
            WorkerAssignment {
                tenant_ids: final(self).tenant_ids,
                updated_at: now,
                ..*old(self)
            }),
    {
        let mut i: usize = 0;
        while i < self.tenant_ids.len()
            invariant
                i <= self.tenant_ids.len(),
                forall|j: int| 0 <= j < i ==> self.tenant_ids@[j] != tenant_id,
                *self == *old(self),
            decreases self.tenant_ids.len() - i,
        {
            if self.tenant_ids[i] == tenant_id {
                return ;
            }
            i = i + 1;
        }
        self.tenant_ids.push(tenant_id);
        self.updated_at = now;
    }

    /// Remove a tenant from this worker; returns whether it was present, and
    /// refreshes the timestamp only if it was.
    pub fn remove_tenant(&mut self, tenant_id: u128, now: u64) -> (removed: bool)
        ensures
            removed == old(self).tenant_ids@.contains(tenant_id),
            final(self).tenant_ids@ == old(self).tenant_ids@.filter(|t: u128| t != tenant_id),
            final(self).updated_at == if removed {
                now
            } else {
                old(self).updated_at
            },
            *final(self) == (WorkerAssignment {
                tenant_ids: final(self).tenant_ids,
                updated_at: final(self).updated_at,
                ..*old(self)
            }),
    {
        let initial_len = self.tenant_ids.len();
        let mut kept: Vec<u128> = Vec::new();
        let mut i: usize = 0;
        while i < self.tenant_ids.len()
            invariant
                i <= self.tenant_ids.len(),
                kept@ == self.tenant_ids@.take(i as int).filter(|t: u128| t != tenant_id),
                *self == *old(self),
            decreases self.tenant_ids.len() - i,
        {
            proof {
                let s = self.tenant_ids@;
                assert(s.take(i + 1).drop_last() =~= s.take(i as int));
                assert(s.take(i + 1).last() == s[i as int]);
                reveal(Seq::filter);
            }
            let t = self.tenant_ids[i];
            if t != tenant_id {
                kept.push(t);
            }
            i = i + 1;
        }
        proof {
            assert(self.tenant_ids@.take(self.tenant_ids@.len() as int) == self.tenant_ids@);
        }
        let removed = kept.len() < initial_len;
        proof {
            lemma_filter_len_and_membership(self.tenant_ids@, tenant_id);
        }
        self.tenant_ids = kept;
        if removed {
            self.updated_at = now;
        }
        removed
    }

    /// The number of tenants bound to this worker.
    pub fn tenant_count(&self) -> (n: usize)
        ensures
            n == self.tenant_ids@.len(),
    {
        self.tenant_ids.len()
    }

    /// Whether the worker can take one more tenant under the given cap.
    pub fn has_capacity(&self, max_tenants: usize) -> (b: bool)
        ensures
            b == (self.tenant_ids@.len() < max_tenants),
    {
        self.tenant_ids.len() < max_tenants
    }
}

/// Filtering the occurrences of `x` out of a sequence shortens it exactly
/// when `x` occurs in it.
proof fn lemma_filter_len_and_membership(s: Seq<u128>, x: u128)
    ensures
        (s.filter(|t: u128| t != x).len() < s.len()) == s.contains(x),
    decreases s.len(),
{
    reveal(Seq::filter);
    if s.len() == 0 {
    } else {
        lemma_filter_len_and_membership(s.drop_last(), x);
        assert(s == s.drop_last().push(s.last()));
        if s.last() == x {
            assert(s.contains(x));
        } else {
            if s.contains(x) {
                let i = choose|i: int| 0 <= i < s.len() && s[i] == x;
                assert(s.drop_last()[i] == x);
                assert(s.drop_last().contains(x));
            } else {
                if s.drop_last().contains(x) {
                    let i = choose|i: int| 0 <= i < s.drop_last().len() && s.drop_last()[i] == x;
                    assert(s[i] == x);
                }
            }
        }
    }
}

} // verus!
