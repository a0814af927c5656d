//! Workers and the worker pool: each worker holds its assigned tenants and
//! a lifecycle status; the pool is the registry of workers.
//!
//! The long-running tasks — health reporting, periodic reloads, the event
//! consumer — live in the surrounding application; the functions here are
//! the state transitions and decisions those tasks make.

use vstd::prelude::*;

use crate::config::WorkerConfig;
use crate::services::ServiceError;
use crate::text::string_eq_str;
use crate::watcher::BlockEvent;

verus! {

/// A worker's lifecycle status.
#[derive(Debug, Clone)]
pub enum WorkerStatus {
    /// Created, not yet running.
    Starting,
    /// Consuming block events.
    Running,
    /// Reloading tenant configuration.
    Reloading,
    /// Asked to stop.
    Stopping,
    /// No longer consuming events.
    Stopped,
    /// Failed with this message.
    Error(String),
}

/// Copy a status value.
pub fn clone_status(s: &WorkerStatus) -> (r: WorkerStatus)
    ensures
        r == *s,
{
    match s {
        WorkerStatus::Starting => WorkerStatus::Starting,
        WorkerStatus::Running => WorkerStatus::Running,
        WorkerStatus::Reloading => WorkerStatus::Reloading,
        WorkerStatus::Stopping => WorkerStatus::Stopping,
        WorkerStatus::Stopped => WorkerStatus::Stopped,
        WorkerStatus::Error(m) => WorkerStatus::Error(m.clone()),
    }
}

/// What a receive on the block event subscription came to.
#[derive(Debug, Clone, Copy, PartialEq, Eq, Structural)]
pub enum RecvOutcome {
    /// An event arrived.
    Event,
    /// The receiver lagged and skipped this many messages.
    Lagged(u64),
    /// The channel closed.
    Closed,
}

/// Whether the event consumer keeps running after a receive: lag is logged
/// and survived; only a closed channel stops the consumer.
pub fn consumer_continues(outcome: &RecvOutcome) -> (r: bool)
    ensures
        r == !(*outcome == RecvOutcome::Closed),
{
    match outcome {
        RecvOutcome::Closed => false,
        _ => true,
    }
}

/// An individual monitor worker.
pub struct MonitorWorker {
    /// The worker's identifier.
    pub id: String,
    /// The tenants currently bound to this worker.
    pub assigned_tenants: Vec<u128>,
    /// The worker's lifecycle status.
    pub status: WorkerStatus,
    /// The worker's configuration.
    pub config: WorkerConfig,
}

impl MonitorWorker {
    /// A fresh worker with no tenants, in the starting state.
    pub fn new(id: String, config: WorkerConfig) -> (w: Self)
        ensures
            w.id@ == id@,
            w.assigned_tenants@.len() == 0,
            w.status == WorkerStatus::Starting,
            w.config == config,
    {
        MonitorWorker { id, assigned_tenants: Vec::new(), status: WorkerStatus::Starting, config }
    }

    /// Replace the worker's tenant list; safe at any time.
    pub fn assign_tenants(&mut self, tenant_ids: Vec<u128>)
        ensures
            final(self).assigned_tenants == tenant_ids,
            *final(self) == (MonitorWorker { assigned_tenants: tenant_ids, ..*old(self) }),
    {
        self.assigned_tenants = tenant_ids;
    }

    /// Enter the running state. The result says whether there is anything
    /// to do: a worker without tenants stays registered but idle.
    pub fn begin_start(&mut self) -> (has_tenants: bool)
        ensures
            has_tenants == (old(self).assigned_tenants@.len() > 0),
            *final(self) == (MonitorWorker { status: WorkerStatus::Running, ..*old(self) }),
    {
        self.status = WorkerStatus::Running;
        self.assigned_tenants.len() > 0
    }

    /// Enter the reloading state for a configuration refresh.
    pub fn begin_reload(&mut self)
        ensures
            *final(self) == (MonitorWorker { status: WorkerStatus::Reloading, ..*old(self) }),
    {
        self.status = WorkerStatus::Reloading;
    }

    /// Return to the running state after a reload.
    pub fn end_reload(&mut self)
        ensures
            *final(self) == (MonitorWorker { status: WorkerStatus::Running, ..*old(self) }),
    {
        self.status = WorkerStatus::Running;
    }

    /// Record a processing failure; the consumer carries on.
    pub fn record_error(&mut self, message: String)
        ensures
            *final(self) == (MonitorWorker {
                status: WorkerStatus::Error(final(self).status->Error_0),
                ..*old(self)
            }),
            final(self).status matches WorkerStatus::Error(m) && m@ == message@,
    {
        self.status = WorkerStatus::Error(message);
    }

    /// Enter the stopped state: one of the worker's tasks has terminated.
    pub fn mark_stopped(&mut self)
        ensures
            *final(self) == (MonitorWorker { status: WorkerStatus::Stopped, ..*old(self) }),
    {
        self.status = WorkerStatus::Stopped;
    }

    /// The work a block event implies for this worker: each block paired
    /// with each assigned tenant, blocks outermost, in order. A worker with
    /// no tenants has nothing to do.
    pub fn plan_event(&self, event: &BlockEvent) -> (work: Vec<(u128, u64)>)
        requires
            event.blocks@.len() * self.assigned_tenants@.len() <= usize::MAX,
        ensures
            work@.len() == event.blocks@.len() * self.assigned_tenants@.len(),
            forall|b: int, t: int|
                0 <= b < event.blocks@.len() && 0 <= t < self.assigned_tenants@.len()
                    ==> #[trigger] work@[b * self.assigned_tenants@.len() + t] == (
                self.assigned_tenants@[t], event.blocks@[b]),
    {
        let tcount = self.assigned_tenants.len();
        let mut work: Vec<(u128, u64)> = Vec::new();
        let mut b: usize = 0;
        while b < event.blocks.len()
            invariant
                b <= event.blocks@.len(),
                tcount == self.assigned_tenants@.len(),
                event.blocks@.len() * tcount <= usize::MAX,
                work@.len() == b * tcount,
                work@.len() <= usize::MAX,
                forall|b2: int, t: int|
                    0 <= b2 < b && 0 <= t < tcount ==> #[trigger] work@[b2 * tcount + t] == (
                    self.assigned_tenants@[t], event.blocks@[b2]),
            decreases event.blocks@.len() - b,
        {
            let height = event.blocks[b];
            let mut t: usize = 0;
            proof {
                assert(b * tcount + tcount == (b + 1) * tcount) by (nonlinear_arith);
                vstd::arithmetic::mul::lemma_mul_inequality(
                    b + 1,
                    event.blocks@.len() as int,
                    tcount as int,
                );
                assert((b + 1) * tcount <= usize::MAX);
            }
            while t < tcount
                invariant
                    t <= tcount,
                    b < event.blocks@.len(),
                    height == event.blocks@[b as int],
                    tcount == self.assigned_tenants@.len(),
                    work@.len() == b * tcount + t,
                    b * tcount + tcount <= usize::MAX,
                    forall|b2: int, t2: int|
                        0 <= b2 < b && 0 <= t2 < tcount ==> #[trigger] work@[b2 * tcount + t2] == (
                        self.assigned_tenants@[t2], event.blocks@[b2]),
                    forall|t2: int|
                        0 <= t2 < t ==> #[trigger] work@[b * tcount + t2] == (
                        self.assigned_tenants@[t2], event.blocks@[b as int]),
                decreases tcount - t,
            {
                proof {
                    assert forall|b2: int, t2: int|
                        0 <= b2 < b && 0 <= t2 < tcount implies #[trigger] (b2 * tcount + t2) < b
                        * tcount + t by {
                        vstd::arithmetic::mul::lemma_mul_inequality(b2 + 1, b as int, tcount as int);
                        assert((b2 + 1) * tcount == b2 * tcount + tcount) by (nonlinear_arith);
                    }
                }
                work.push((self.assigned_tenants[t], height));
                t = t + 1;
            }
            b = b + 1;
            proof {
                assert(work@.len() == b * tcount) by (nonlinear_arith)
                    requires
                        work@.len() == (b - 1) * tcount + tcount,
                ;
            }
        }
        proof {
            assert(work@.len() == event.blocks@.len() * tcount);
        }
        work
    }
}

/// There is a registered worker with this identifier.
pub open spec fn pool_has_worker(ws: Seq<MonitorWorker>, id: Seq<char>) -> bool {
    exists|i: int| 0 <= i < ws.len() && (#[trigger] ws[i]).id@ == id
}

/// No two registered workers share an identifier.
pub open spec fn pool_workers_distinct(ws: Seq<MonitorWorker>) -> bool {
    forall|i: int, j: int|
        0 <= i < j < ws.len() ==> (#[trigger] ws[i]).id@ != (#[trigger] ws[j]).id@
}

/// The worker pool: the registry of workers.
pub struct MonitorWorkerPool {
    /// The registered workers, one entry per identifier.
    pub workers: Vec<MonitorWorker>,
    /// The configuration new workers start under.
    pub config: WorkerConfig,
}

impl MonitorWorkerPool {
    /// The pool's structural invariant.
    pub open spec fn wf(&self) -> bool {
        pool_workers_distinct(self.workers@)
    }

    /// An empty pool.
    pub fn new(config: WorkerConfig) -> (p: Self)
        ensures
            p.wf(),
            p.workers@.len() == 0,
            p.config == config,
    {
        MonitorWorkerPool { workers: Vec::new(), config }
    }

    /// The index of the worker with this identifier, if registered.
    fn find_worker(&self, worker_id: &str) -> (r: Option<usize>)
        ensures
            match r {
                Some(i) => i < self.workers@.len() && self.workers@[i as int].id@ == worker_id@,
                None => !pool_has_worker(self.workers@, worker_id@),
            },
    {
        let mut i: usize = 0;
        while i < self.workers.len()
            invariant
                i <= self.workers@.len(),
                forall|j: int| 0 <= j < i ==> (#[trigger] self.workers@[j]).id@ != worker_id@,
            decreases self.workers@.len() - i,
        {
            if string_eq_str(&self.workers[i].id, worker_id) {
                return Some(i);
            }
            i = i + 1;
        }
        None
    }

    /// Register a new worker under the pool's configuration, bound to these
    /// tenants, in the starting state; the application then spawns its
    /// tasks. Re-using a registered identifier is refused.
    pub fn create_worker(&mut self, worker_id: String, tenant_ids: Vec<u128>) -> (r: Result<
        (),
        ServiceError,
    >)
        requires
            old(self).wf(),
        ensures
            final(self).wf(),
            final(self).config == old(self).config,
            match r {
                Ok(_) => !pool_has_worker(old(self).workers@, worker_id@) && final(self).workers@
                    == old(self).workers@.push(final(self).workers@[final(self).workers@.len() - 1])
                    && final(self).workers@[final(self).workers@.len() - 1].id@ == worker_id@
                    && final(self).workers@[final(self).workers@.len() - 1].assigned_tenants
                    == tenant_ids && final(self).workers@[final(self).workers@.len() - 1].status
                    == WorkerStatus::Starting,
                Err(_) => pool_has_worker(old(self).workers@, worker_id@) && *final(self) == *old(self),
            },
    {
        match self.find_worker(worker_id.as_str()) {
            Some(i) => {
                proof {
                    assert(pool_has_worker(self.workers@, worker_id@));
                }
                let mut msg = "Worker already registered: ".to_owned();
                msg.append(worker_id.as_str());
                Err(ServiceError::InvalidState(msg))
            },
            None => {
                let mut worker = MonitorWorker::new(
                    worker_id,
                    WorkerConfig {
                        max_tenants_per_worker: self.config.max_tenants_per_worker,
                        health_check_interval_secs: self.config.health_check_interval_secs,
                        tenant_reload_interval_secs: self.config.tenant_reload_interval_secs,
                    },
                );
                worker.assign_tenants(tenant_ids);
                let ghost olds = self.workers@;
                self.workers.push(worker);
                proof {
                    assert forall|a: int, b: int| 0 <= a < b < self.workers@.len() implies (
                    #[trigger] self.workers@[a]).id@ != (#[trigger] self.workers@[b]).id@ by {
                        if b < self.workers@.len() - 1 {
                            assert(self.workers@[a] == olds[a]);
                            assert(self.workers@[b] == olds[b]);
                        } else {
                            assert(self.workers@[a] == olds[a]);
                            assert(olds[a].id@ != self.workers@[b].id@);
                        }
                    }
                }
                Ok(())
            },
        }
    }

    /// The status of a registered worker.
    pub fn get_worker_status(&self, worker_id: &str) -> (r: Option<WorkerStatus>)
        ensures
            match r {
                Some(st) => exists|i: int|
                    0 <= i < self.workers@.len() && (#[trigger] self.workers@[i]).id@ == worker_id@
                        && self.workers@[i].status == st,
                None => !pool_has_worker(self.workers@, worker_id@),
            },
    {
        match self.find_worker(worker_id) {
            Some(i) => {
                let st = clone_status(&self.workers[i].status);
                proof {
                    assert((self.workers@[i as int]).id@ == worker_id@);
                }
                Some(st)
            },
            None => None,
        }
    }

    /// Every worker's identifier, status and tenant count, in registry
    /// order.
    pub fn list_workers(&self) -> (r: Vec<(String, WorkerStatus, usize)>)
        ensures
            r@.len() == self.workers@.len(),
            forall|i: int|
                0 <= i < r@.len() ==> (#[trigger] r@[i]).0@ == self.workers@[i].id@ && r@[i].1
                    == self.workers@[i].status && r@[i].2
                    == self.workers@[i].assigned_tenants@.len(),
    {
        let mut r: Vec<(String, WorkerStatus, usize)> = Vec::new();
        let mut i: usize = 0;
        while i < self.workers.len()
            invariant
                i <= self.workers@.len(),
                r@.len() == i,
                forall|j: int|
                    0 <= j < i ==> (#[trigger] r@[j]).0@ == self.workers@[j].id@ && r@[j].1
                        == self.workers@[j].status && r@[j].2
                        == self.workers@[j].assigned_tenants@.len(),
            decreases self.workers@.len() - i,
        {
            let w = &self.workers[i];
            r.push((w.id.clone(), clone_status(&w.status), w.assigned_tenants.len()));
            i = i + 1;
        }
        r
    }

    /// Rebind a registered worker to these tenants; the caller also reloads
    /// the monitoring services' configuration for them.
    pub fn reassign_tenants(&mut self, worker_id: &str, tenant_ids: Vec<u128>) -> (r: Result<
        (),
        ServiceError,
    >)
        requires
            old(self).wf(),
        ensures
            final(self).wf(),
            final(self).config == old(self).config,
            match r {
                Ok(_) => pool_has_worker(old(self).workers@, worker_id@) && final(self).workers@.len()
                    == old(self).workers@.len() && (forall|j: int|
                    0 <= j < final(self).workers@.len() && (#[trigger] final(self).workers@[j]).id@
                        != worker_id@ ==> final(self).workers@[j] == old(self).workers@[j]) && (
                forall|j: int|
                    0 <= j < final(self).workers@.len() && (#[trigger] final(self).workers@[j]).id@
                        == worker_id@ ==> final(self).workers@[j] == (MonitorWorker {
                        assigned_tenants: final(self).workers@[j].assigned_tenants,
                        ..old(self).workers@[j]
                    }) && final(self).workers@[j].assigned_tenants == tenant_ids),
                Err(_) => !pool_has_worker(old(self).workers@, worker_id@) && *final(self) == *old(self),
            },
    {
        match self.find_worker(worker_id) {
            Some(i) => {
                let ghost olds = self.workers@;
                proof {
                    assert(olds.contains(olds[i as int]));
                    assert(pool_has_worker(olds, worker_id@));
                }
                let mut w = self.workers.remove(i);
                w.assign_tenants(tenant_ids);
                self.workers.insert(i, w);
                proof {
                    assert(self.workers@ =~= olds.update(
                        i as int,
                        (MonitorWorker {
                            assigned_tenants: self.workers@[i as int].assigned_tenants,
                            ..olds[i as int]
                        }),
                    ));
                    assert forall|a: int, b: int| 0 <= a < b < self.workers@.len() implies (
                    #[trigger] self.workers@[a]).id@ != (#[trigger] self.workers@[b]).id@ by {
                        assert(olds[a].id@ != olds[b].id@);
                        if a != i {
                            assert(self.workers@[a] == olds[a]);
                        }
                        if b != i {
                            assert(self.workers@[b] == olds[b]);
                        }
                    }
                    assert forall|j: int|
                        0 <= j < self.workers@.len() && (#[trigger] self.workers@[j]).id@
                            == worker_id@ implies j == i by {
                        assert(self.workers@[i as int].id@ == worker_id@);
                    }
                }
                Ok(())
            },
            None => {
                let mut msg = "Worker not found: ".to_owned();
                msg.append(worker_id);
                Err(ServiceError::WorkerNotFound(msg))
            },
        }
    }

    /// Ask a worker to stop and drop it from the registry; its tasks see
    /// the stopping state and wind down.
    pub fn remove_worker(&mut self, worker_id: &str) -> (r: Result<(), ServiceError>)
        requires
            old(self).wf(),
        ensures
            final(self).wf(),
            final(self).config == old(self).config,
            !pool_has_worker(final(self).workers@, worker_id@),
            match r {
                Ok(_) => pool_has_worker(old(self).workers@, worker_id@) && (forall|
                    x: MonitorWorker,
                |
                    #[trigger] final(self).workers@.contains(x) ==> old(self).workers@.contains(x)
                        && x.id@ != worker_id@) && (forall|x: MonitorWorker|
                    #[trigger] old(self).workers@.contains(x) && x.id@ != worker_id@ ==> final(self).workers@.contains(x)),
                Err(_) => !pool_has_worker(old(self).workers@, worker_id@) && *final(self) == *old(self),
            },
    {
        match self.find_worker(worker_id) {
            Some(i) => {
                let ghost olds = self.workers@;
                let mut w = self.workers.remove(i);
                w.status = WorkerStatus::Stopping;
                proof {
                    assert(olds.contains(olds[i as int]));
                    assert(pool_has_worker(olds, worker_id@));
                    let news = self.workers@;
                    assert forall|x: MonitorWorker| #[trigger]
                        news.contains(x) implies olds.contains(x) && x.id@ != worker_id@ by {
                        let j = choose|j: int| 0 <= j < news.len() && news[j] == x;
                        if j < i {
                            assert(olds[j] == x);
                            assert(olds[j].id@ != olds[i as int].id@);
                        } else {
                            assert(olds[j + 1] == x);
                            assert(olds[i as int].id@ != olds[j + 1].id@);
                        }
                    }
                    assert forall|x: MonitorWorker|
                        #[trigger] olds.contains(x) && x.id@ != worker_id@ implies news.contains(
                        x,
                    ) by {
                        let j = choose|j: int| 0 <= j < olds.len() && olds[j] == x;
                        if j < i {
                            assert(news[j] == x);
                        } else {
                            assert(j != i);
                            assert(news[j - 1] == x);
                        }
                    }
                    if pool_has_worker(news, worker_id@) {
                        let j = choose|j: int|
                            0 <= j < news.len() && (#[trigger] news[j]).id@ == worker_id@;
                        assert(news.contains(news[j]));
                    }
                }
                Ok(())
            },
            None => {
                proof {
                    if pool_has_worker(self.workers@, worker_id@) {
                        let j = choose|j: int|
                            0 <= j < self.workers@.len() && (#[trigger] self.workers@[j]).id@
                                == worker_id@;
                    }
                }
                let mut msg = "Worker not found: ".to_owned();
                msg.append(worker_id);
                Err(ServiceError::WorkerNotFound(msg))
            },
        }
    }
}

} // verus!
