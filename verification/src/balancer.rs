//! The tenant-to-worker load balancer: worker registry, assignment table,
//! affinity map, metrics tables and the rebalance policy.
//!
//! The registry is kept sorted by worker identifier, so that the hash
//! partitioning strategy indexes into the sorted list of worker identifiers
//! as the assignment contract asks, and round-robin ties break in a fixed
//! order. All tables are association vectors with distinct keys; the tenant
//! assignment table in particular holds at most one entry per tenant.

use vstd::prelude::*;

use crate::assignment::{AssignmentReason, TenantAssignment};
use crate::config::{LoadBalancerConfig, LoadBalancingStrategy};
use crate::hashing::{canonical_id, hash64_of, tenant_hash64};
use crate::metrics::{spec_activity_score, TenantMetrics, WorkerMetrics};
use crate::tables::lemma_filter_distinct_by;
use crate::text::{
    bytes_le, lemma_bytes_le_total, lemma_bytes_le_trans, str_bytes, str_le, string_eq_str,
};

verus! {

/// Errors the balancer can raise.
#[derive(Debug, Clone, Copy, PartialEq, Eq, Structural)]
pub enum BalancerError {
    /// No worker is registered, so no assignment can be made.
    NoWorkersAvailable,
}

/// There is a worker with this identifier in the registry.
pub open spec fn has_worker(ws: Seq<WorkerMetrics>, id: Seq<char>) -> bool {
    exists|i: int| 0 <= i < ws.len() && (#[trigger] ws[i]).worker_id@ == id
}

/// No two registry entries share a worker identifier.
pub open spec fn workers_distinct(ws: Seq<WorkerMetrics>) -> bool {
    forall|i: int, j: int|
        0 <= i < j < ws.len() ==> (#[trigger] ws[i]).worker_id@ != (#[trigger] ws[j]).worker_id@
}

/// The registry is sorted by worker identifier (UTF-8 byte order).
pub open spec fn workers_sorted(ws: Seq<WorkerMetrics>) -> bool {
    forall|i: int, j: int|
        0 <= i < j < ws.len() ==> bytes_le(
            str_bytes((#[trigger] ws[i]).worker_id@),
            str_bytes((#[trigger] ws[j]).worker_id@),
        )
}

/// There is an assignment entry for this tenant.
pub open spec fn has_assignment(s: Seq<TenantAssignment>, t: u128) -> bool {
    exists|i: int| 0 <= i < s.len() && (#[trigger] s[i]).tenant_id == t
}

/// No two assignment entries share a tenant.
pub open spec fn assignments_distinct(s: Seq<TenantAssignment>) -> bool {
    forall|i: int, j: int|
        0 <= i < j < s.len() ==> (#[trigger] s[i]).tenant_id != (#[trigger] s[j]).tenant_id
}

/// There is a metrics entry for this tenant.
pub open spec fn has_metrics(s: Seq<TenantMetrics>, t: u128) -> bool {
    exists|i: int| 0 <= i < s.len() && (#[trigger] s[i]).tenant_id == t
}

/// No two metrics entries share a tenant.
pub open spec fn metrics_distinct(s: Seq<TenantMetrics>) -> bool {
    forall|i: int, j: int|
        0 <= i < j < s.len() ==> (#[trigger] s[i]).tenant_id != (#[trigger] s[j]).tenant_id
}

/// There is an affinity entry for this tenant.
pub open spec fn has_affinity(s: Seq<(u128, String)>, t: u128) -> bool {
    exists|i: int| 0 <= i < s.len() && (#[trigger] s[i]).0 == t
}

/// No two affinity entries share a tenant.
pub open spec fn affinity_distinct(s: Seq<(u128, String)>) -> bool {
    forall|i: int, j: int| 0 <= i < j < s.len() ==> (#[trigger] s[i]).0 != (#[trigger] s[j]).0
}

/// A fresh registry record for a newly added worker: everything zero but for
/// the identifier and the collection time.
pub open spec fn fresh_worker_fields(w: WorkerMetrics, id: Seq<char>, now: u64) -> bool {
    &&& w.worker_id@ == id
    &&& w.tenant_count == 0
    &&& w.cpu_usage == 0
    &&& w.memory_usage == 0
    &&& w.rpc_rate == 0
    &&& w.avg_processing_time_ms == 0
    &&& w.errors_last_hour == 0
    &&& w.uptime_seconds == 0
    &&& w.collected_at == now
}

/// Saturating increment, used for version bumps and tenant counts.
pub open spec fn bump32(v: u32) -> u32 {
    if v < u32::MAX {
        (v + 1) as u32
    } else {
        v
    }
}

/// `i` indexes the first registry entry minimising the tenant count.
pub open spec fn first_min_by_count(ws: Seq<WorkerMetrics>, i: int) -> bool {
    &&& 0 <= i < ws.len()
    &&& forall|j: int|
        0 <= j < ws.len() ==> (#[trigger] ws[j]).tenant_count >= ws[i].tenant_count
    &&& forall|j: int| 0 <= j < i ==> (#[trigger] ws[j]).tenant_count > ws[i].tenant_count
}

/// The scalar the least-loaded strategy minimises:
/// `100 * cpu + 100 * mem + tenant_count`.
pub open spec fn spec_load_key(w: WorkerMetrics) -> int {
    100 * w.cpu_usage + 100 * w.memory_usage + w.tenant_count
}

/// `i` indexes the first registry entry minimising the load key.
pub open spec fn first_min_by_load(ws: Seq<WorkerMetrics>, i: int) -> bool {
    &&& 0 <= i < ws.len()
    &&& forall|j: int| 0 <= j < ws.len() ==> spec_load_key(#[trigger] ws[j]) >= spec_load_key(ws[i])
    &&& forall|j: int| 0 <= j < i ==> spec_load_key(#[trigger] ws[j]) > spec_load_key(ws[i])
}

/// The worker the hash partition picks: the tenant's 64-bit hash, taken
/// modulo the registry size, indexes the sorted list of worker identifiers.
pub open spec fn hash_pick(ws: Seq<WorkerMetrics>, t: u128) -> Seq<char> {
    ws[hash64_of(canonical_id(t)) as int % ws.len() as int].worker_id@
}

/// The tenant has an affinity entry pointing at a registered worker.
pub open spec fn affinity_hit(aff: Seq<(u128, String)>, ws: Seq<WorkerMetrics>, t: u128) -> bool {
    exists|i: int|
        0 <= i < aff.len() && (#[trigger] aff[i]).0 == t && has_worker(ws, aff[i].1@)
}

/// What the hashing strategy returns: the affinity worker while it is
/// registered, else the hash partition over the sorted registry.
pub open spec fn spec_ch_ok(lb: LoadBalancer, t: u128, w: Seq<char>) -> bool {
    if affinity_hit(lb.affinity@, lb.workers@, t) {
        exists|i: int|
            0 <= i < lb.affinity@.len() && (#[trigger] lb.affinity@[i]).0 == t && lb.affinity@[i].1@
                == w && has_worker(lb.workers@, w)
    } else {
        lb.workers@.len() > 0 && w == hash_pick(lb.workers@, t)
    }
}

/// The tenant has a metrics entry whose activity score crosses the
/// high-activity line (0.7 of the unit interval).
pub open spec fn high_activity(ms: Seq<TenantMetrics>, t: u128) -> bool {
    exists|i: int|
        0 <= i < ms.len() && (#[trigger] ms[i]).tenant_id == t && spec_activity_score(ms[i]) > 7000
}

/// What the activity strategy returns: high-activity tenants go to the
/// least-loaded worker, the rest through the hashing strategy.
pub open spec fn spec_ab_ok(lb: LoadBalancer, t: u128, w: Seq<char>) -> bool {
    if high_activity(lb.tenant_metrics@, t) {
        exists|i: int|
            first_min_by_load(lb.workers@, i) && (#[trigger] lb.workers@[i]).worker_id@ == w
    } else {
        spec_ch_ok(lb, t, w)
    }
}

/// What the configured strategy returns for a tenant.
pub open spec fn spec_strategy_ok(lb: LoadBalancer, t: u128, w: Seq<char>) -> bool {
    match lb.config.strategy {
        LoadBalancingStrategy::RoundRobin => exists|i: int|
            first_min_by_count(lb.workers@, i) && (#[trigger] lb.workers@[i]).worker_id@ == w,
        LoadBalancingStrategy::LeastLoaded => exists|i: int|
            first_min_by_load(lb.workers@, i) && (#[trigger] lb.workers@[i]).worker_id@ == w,
        LoadBalancingStrategy::ConsistentHashing => spec_ch_ok(lb, t, w),
        LoadBalancingStrategy::ActivityBased => spec_ab_ok(lb, t, w),
    }
}

/// The reason recorded for an assignment made under a strategy.
pub open spec fn spec_assign_reason(s: LoadBalancingStrategy) -> AssignmentReason {
    match s {
        LoadBalancingStrategy::RoundRobin => AssignmentReason::Initial,
        LoadBalancingStrategy::LeastLoaded => AssignmentReason::LoadRebalance,
        LoadBalancingStrategy::ConsistentHashing => AssignmentReason::Initial,
        LoadBalancingStrategy::ActivityBased => AssignmentReason::LoadRebalance,
    }
}

/// The index of the assignment entry for a tenant, where one exists.
pub open spec fn assignment_index(s: Seq<TenantAssignment>, t: u128) -> int {
    choose|i: int| 0 <= i < s.len() && (#[trigger] s[i]).tenant_id == t
}

/// The version the next assignment of a tenant carries: one more than the
/// current entry's (saturating), or 1 for a first assignment.
pub open spec fn spec_next_version(s: Seq<TenantAssignment>, t: u128) -> u32 {
    if has_assignment(s, t) {
        bump32(s[assignment_index(s, t)].version)
    } else {
        1
    }
}

/// The sum of the registered workers' tenant counts.
pub open spec fn sum_tc(ws: Seq<WorkerMetrics>) -> int
    decreases ws.len(),
{
    if ws.len() == 0 {
        0
    } else {
        sum_tc(ws.drop_last()) + ws.last().tenant_count
    }
}

/// The largest tenant count among the registered workers (0 when none).
pub open spec fn max_tc(ws: Seq<WorkerMetrics>) -> int
    decreases ws.len(),
{
    if ws.len() == 0 {
        0
    } else if ws.len() == 1 {
        ws[0].tenant_count as int
    } else {
        let m = max_tc(ws.drop_last());
        if ws.last().tenant_count > m {
            ws.last().tenant_count as int
        } else {
            m
        }
    }
}

/// The smallest tenant count among the registered workers (0 when none).
pub open spec fn min_tc(ws: Seq<WorkerMetrics>) -> int
    decreases ws.len(),
{
    if ws.len() == 0 {
        0
    } else if ws.len() == 1 {
        ws[0].tenant_count as int
    } else {
        let m = min_tc(ws.drop_last());
        if ws.last().tenant_count < m {
            ws.last().tenant_count as int
        } else {
            m
        }
    }
}

/// Whether the tenant counts are spread too unevenly: with at least two
/// workers, the exact rational condition `(max - min) / avg > threshold`
/// written without division as `1000 * n * (max - min) > threshold * sum`.
pub open spec fn spec_imbalanced(ws: Seq<WorkerMetrics>, threshold_milli: u32) -> bool {
    &&& ws.len() >= 2
    &&& 1000 * ws.len() * (max_tc(ws) - min_tc(ws)) > threshold_milli * sum_tc(ws)
}

/// Whether a rebalance is due: the minimum interval has passed since the
/// last one, and the registry is imbalanced.
pub open spec fn spec_needs_rebalancing(lb: LoadBalancer, now: u64) -> bool {
    &&& now >= lb.last_rebalance + lb.config.min_rebalance_interval_secs
    &&& spec_imbalanced(lb.workers@, lb.config.rebalance_threshold_milli)
}

/// A tenant metrics record reduced to what the rebalance works on: the
/// tenant and its activity score.
pub open spec fn metric_pair(m: TenantMetrics) -> (u128, u32) {
    (m.tenant_id, spec_activity_score(m) as u32)
}

/// The high-activity bucket: tenants scoring above 0.7, in table order.
pub open spec fn spec_high_bucket(ms: Seq<TenantMetrics>) -> Seq<(u128, u32)> {
    ms.filter(|m: TenantMetrics| spec_activity_score(m) > 7000).map_values(
        |m: TenantMetrics| metric_pair(m),
    )
}

/// The medium-activity bucket: tenants scoring above 0.3 and at most 0.7.
pub open spec fn spec_medium_bucket(ms: Seq<TenantMetrics>) -> Seq<(u128, u32)> {
    ms.filter(
        |m: TenantMetrics| 3000 < spec_activity_score(m) && spec_activity_score(m) <= 7000,
    ).map_values(|m: TenantMetrics| metric_pair(m))
}

/// The low-activity bucket: tenants scoring at most 0.3.
pub open spec fn spec_low_bucket(ms: Seq<TenantMetrics>) -> Seq<(u128, u32)> {
    ms.filter(|m: TenantMetrics| spec_activity_score(m) <= 3000).map_values(
        |m: TenantMetrics| metric_pair(m),
    )
}

/// Scores are non-increasing along the sequence.
pub open spec fn scores_sorted_desc(s: Seq<(u128, u32)>) -> bool {
    forall|i: int, j: int| 0 <= i < j < s.len() ==> (#[trigger] s[i]).1 >= (#[trigger] s[j]).1
}

/// The index of the first smallest accumulator.
pub open spec fn first_min_acc(accs: Seq<int>) -> int
    decreases accs.len(),
{
    if accs.len() <= 1 {
        0
    } else {
        let r = first_min_acc(accs.drop_last());
        if accs.last() < accs[r] {
            accs.len() - 1
        } else {
            r
        }
    }
}

/// The accumulators as mathematical integers.
pub open spec fn accs_int(s: Seq<u128>) -> Seq<int> {
    s.map_values(|x: u128| x as int)
}

/// The worker index the greedy distribution picks for each tenant in turn:
/// always the first worker with the smallest accumulated score, whose
/// accumulator then grows by the tenant's score.
pub open spec fn greedy_choices(ts: Seq<(u128, u32)>, accs: Seq<int>) -> Seq<int>
    decreases ts.len(),
{
    if ts.len() == 0 {
        Seq::empty()
    } else {
        let i = first_min_acc(accs);
        seq![i] + greedy_choices(ts.skip(1), accs.update(i, accs[i] + ts[0].1))
    }
}

/// The tenants routed to worker `w`, in arrival order.
pub open spec fn picked_tenants(ts: Seq<(u128, u32)>, choices: Seq<int>, w: int) -> Seq<u128>
    decreases ts.len(),
{
    if ts.len() == 0 {
        Seq::empty()
    } else {
        let rest = picked_tenants(ts.skip(1), choices.skip(1), w);
        if choices.len() > 0 && choices[0] == w {
            seq![ts[0].0] + rest
        } else {
            rest
        }
    }
}

/// Routing one more tenant extends exactly the chosen worker's list.
proof fn lemma_picked_push(ts: Seq<(u128, u32)>, cs: Seq<int>, x: (u128, u32), c: int, w: int)
    requires
        ts.len() == cs.len(),
    ensures
        picked_tenants(ts.push(x), cs.push(c), w) == picked_tenants(ts, cs, w) + (if c == w {
            seq![x.0]
        } else {
            Seq::empty()
        }),
    decreases ts.len(),
{
    if ts.len() == 0 {
        assert(ts.push(x).skip(1) =~= Seq::<(u128, u32)>::empty());
        assert(cs.push(c).skip(1) =~= Seq::<int>::empty());
        assert(picked_tenants(Seq::<(u128, u32)>::empty(), Seq::<int>::empty(), w)
            == Seq::<u128>::empty());
        assert(picked_tenants(ts, cs, w) == Seq::<u128>::empty());
        if c == w {
            assert(picked_tenants(ts.push(x), cs.push(c), w) =~= picked_tenants(ts, cs, w)
                + seq![x.0]);
        } else {
            assert(picked_tenants(ts.push(x), cs.push(c), w) =~= picked_tenants(ts, cs, w)
                + Seq::<u128>::empty());
        }
    } else {
        assert(ts.push(x).skip(1) =~= ts.skip(1).push(x));
        assert(cs.push(c).skip(1) =~= cs.skip(1).push(c));
        lemma_picked_push(ts.skip(1), cs.skip(1), x, c, w);
        assert(ts.push(x)[0] == ts[0]);
        assert(cs.push(c)[0] == cs[0]);
        if cs[0] == w {
            assert(picked_tenants(ts.push(x), cs.push(c), w) =~= picked_tenants(ts, cs, w) + (
            if c == w {
                seq![x.0]
            } else {
                Seq::<u128>::empty()
            }));
        } else {
            assert(picked_tenants(ts.push(x), cs.push(c), w) =~= picked_tenants(ts, cs, w) + (
            if c == w {
                seq![x.0]
            } else {
                Seq::<u128>::empty()
            }));
        }
    }
}

/// Extending a prefix by one element grows each bucket by the element's
/// pair exactly when the element's score falls in the bucket's band.
proof fn lemma_bucket_step(ms: Seq<TenantMetrics>, i: int)
    requires
        0 <= i < ms.len(),
    ensures
        spec_high_bucket(ms.take(i + 1)) == (if spec_activity_score(ms[i]) > 7000 {
            spec_high_bucket(ms.take(i)).push(metric_pair(ms[i]))
        } else {
            spec_high_bucket(ms.take(i))
        }),
        spec_medium_bucket(ms.take(i + 1)) == (if 3000 < spec_activity_score(ms[i])
            && spec_activity_score(ms[i]) <= 7000 {
            spec_medium_bucket(ms.take(i)).push(metric_pair(ms[i]))
        } else {
            spec_medium_bucket(ms.take(i))
        }),
        spec_low_bucket(ms.take(i + 1)) == (if spec_activity_score(ms[i]) <= 3000 {
            spec_low_bucket(ms.take(i)).push(metric_pair(ms[i]))
        } else {
            spec_low_bucket(ms.take(i))
        }),
{
    reveal(Seq::filter);
    assert(ms.take(i + 1).drop_last() =~= ms.take(i));
    assert(ms.take(i + 1).last() == ms[i]);
    let hp = |m: TenantMetrics| spec_activity_score(m) > 7000;
    let mp = |m: TenantMetrics| 3000 < spec_activity_score(m) && spec_activity_score(m) <= 7000;
    let lp = |m: TenantMetrics| spec_activity_score(m) <= 3000;
    let pf = |m: TenantMetrics| metric_pair(m);
    if hp(ms[i]) {
        assert(ms.take(i + 1).filter(hp).map_values(pf) =~= ms.take(i).filter(hp).map_values(
            pf,
        ).push(metric_pair(ms[i])));
    } else {
        assert(ms.take(i + 1).filter(hp).map_values(pf) =~= ms.take(i).filter(hp).map_values(pf));
    }
    if mp(ms[i]) {
        assert(ms.take(i + 1).filter(mp).map_values(pf) =~= ms.take(i).filter(mp).map_values(
            pf,
        ).push(metric_pair(ms[i])));
    } else {
        assert(ms.take(i + 1).filter(mp).map_values(pf) =~= ms.take(i).filter(mp).map_values(pf));
    }
    if lp(ms[i]) {
        assert(ms.take(i + 1).filter(lp).map_values(pf) =~= ms.take(i).filter(lp).map_values(
            pf,
        ).push(metric_pair(ms[i])));
    } else {
        assert(ms.take(i + 1).filter(lp).map_values(pf) =~= ms.take(i).filter(lp).map_values(pf));
    }
}

/// Sort tenant-score pairs by descending score with a stable insertion
/// sort; the result is a permutation of the input.
fn sort_desc(input: &Vec<(u128, u32)>) -> (out: Vec<(u128, u32)>)
    ensures
        scores_sorted_desc(out@),
        out@.to_multiset() == input@.to_multiset(),
        forall|x: (u128, u32)| #[trigger] out@.contains(x) ==> input@.contains(x),
{
    let mut out: Vec<(u128, u32)> = Vec::new();
    let mut i: usize = 0;
    proof {
        broadcast use vstd::seq_lib::group_to_multiset_ensures;

        assert(input@.take(0) =~= Seq::<(u128, u32)>::empty());
        assert(out@.to_multiset() =~= input@.take(0).to_multiset());
    }
    while i < input.len()
        invariant
            i <= input@.len(),
            scores_sorted_desc(out@),
            out@.to_multiset() == input@.take(i as int).to_multiset(),
            forall|x: (u128, u32)| #[trigger] out@.contains(x) ==> input@.take(i as int).contains(
                x,
            ),
        decreases input@.len() - i,
    {
        let x = input[i];
        let mut p: usize = 0;
        while p < out.len() && out[p].1 >= x.1
            invariant
                p <= out@.len(),
                forall|q: int| 0 <= q < p ==> (#[trigger] out@[q]).1 >= x.1,
            decreases out@.len() - p,
        {
            p = p + 1;
        }
        let ghost olds = out@;
        out.insert(p, x);
        proof {
            broadcast use vstd::seq_lib::group_to_multiset_ensures;

            let news = out@;
            olds.insert_ensures(p as int, x);
            assert forall|a: int, b: int| 0 <= a < b < news.len() implies (#[trigger] news[a]).1
                >= (#[trigger] news[b]).1 by {
                if a < p && b < p {
                } else if a < p && b == p {
                } else if a == p && b > p {
                    assert(news[b] == olds[b - 1]);
                    if b - 1 == p {
                        assert(olds[p as int].1 < x.1);
                    } else {
                        assert(olds[p as int].1 >= olds[b - 1].1);
                        assert(olds[p as int].1 < x.1);
                    }
                } else if a < p && b > p {
                } else if a > p && b > p {
                }
            }
            crate::tables::lemma_insert_to_multiset(olds, p as int, x);
            assert(input@.take(i + 1).drop_last() =~= input@.take(i as int));
            assert(input@.take(i + 1) =~= input@.take(i as int).push(input@[i as int]));
            assert(news.to_multiset() =~= input@.take(i + 1).to_multiset());
            assert forall|y: (u128, u32)| #[trigger] news.contains(y) implies input@.take(
                i + 1,
            ).contains(y) by {
                if y == x {
                    assert(input@.take(i + 1)[i as int] == y);
                } else {
                    let k = choose|k: int| 0 <= k < news.len() && news[k] == y;
                    if k < p {
                        assert(olds[k] == y);
                    } else {
                        assert(k != p);
                        assert(olds[k - 1] == y);
                    }
                    assert(olds.contains(y));
                    assert(input@.take(i as int).contains(y));
                    let q = choose|q: int|
                        0 <= q < input@.take(i as int).len() && input@.take(i as int)[q] == y;
                    assert(input@.take(i + 1)[q] == y);
                }
            }
        }
        i = i + 1;
    }
    proof {
        assert(input@.take(input@.len() as int) =~= input@);
    }
    out
}

/// The first index of the smallest accumulator, as executable code.
fn argmin_acc(accs: &Vec<u128>) -> (b: usize)
    requires
        accs@.len() > 0,
    ensures
        b < accs@.len(),
        b as int == first_min_acc(accs_int(accs@)),
{
    let mut best: usize = 0;
    let mut k: usize = 1;
    proof {
        assert(accs_int(accs@).take(1).drop_last() =~= accs_int(accs@).take(0));
        assert(accs_int(accs@).take(1).len() == 1);
        assert(first_min_acc(accs_int(accs@).take(1)) == 0);
    }
    while k < accs.len()
        invariant
            1 <= k <= accs@.len(),
            best < k,
            best as int == first_min_acc(accs_int(accs@).take(k as int)),
        decreases accs@.len() - k,
    {
        proof {
            assert(accs_int(accs@).take(k + 1).drop_last() =~= accs_int(accs@).take(k as int));
            assert(accs_int(accs@).take(k + 1).last() == accs_int(accs@)[k as int]);
            assert(accs_int(accs@)[k as int] == accs@[k as int] as int);
            assert(accs_int(accs@).take(k as int)[best as int] == accs@[best as int] as int);
        }
        if accs[k] < accs[best] {
            best = k;
        }
        k = k + 1;
    }
    proof {
        assert(accs_int(accs@).take(accs@.len() as int) =~= accs_int(accs@));
    }
    best
}

/// What a completed rebalance looks like: three sorted permutations of the
/// activity buckets, dealt greedily over zeroed accumulators; the returned
/// distribution lists exactly the tenants each worker was dealt, and every
/// new assignment entry binds a dealt tenant to its dealt worker.
pub open spec fn rebalance_witness(
    lb: LoadBalancer,
    dist: Seq<(String, Vec<u128>)>,
    asg: Seq<TenantAssignment>,
    sh: Seq<(u128, u32)>,
    sm: Seq<(u128, u32)>,
    sl: Seq<(u128, u32)>,
    now: u64,
) -> bool {
    let n = lb.workers@.len() as int;
    let order = sh + sm + sl;
    let choices = greedy_choices(order, Seq::new(n as nat, |x: int| 0int));
    &&& scores_sorted_desc(sh)
    &&& sh.to_multiset() == spec_high_bucket(lb.tenant_metrics@).to_multiset()
    &&& scores_sorted_desc(sm)
    &&& sm.to_multiset() == spec_medium_bucket(lb.tenant_metrics@).to_multiset()
    &&& scores_sorted_desc(sl)
    &&& sl.to_multiset() == spec_low_bucket(lb.tenant_metrics@).to_multiset()
    &&& forall|w: int|
        0 <= w < n ==> (#[trigger] dist[w]).1@ == picked_tenants(order, choices, w)
    &&& forall|x: int| 0 <= x < order.len() ==> has_assignment(asg, (#[trigger] order[x]).0)
    &&& forall|k: int|
        0 <= k < asg.len() ==> exists|jx: int|
            0 <= jx < order.len() && (#[trigger] order[jx]).0 == (#[trigger] asg[k]).tenant_id
                && asg[k].worker_id@ == lb.workers@[choices[jx]].worker_id@
}

/// Every bucket entry's tenant has a metrics entry.
proof fn lemma_bucket_entry_has_metrics(ms: Seq<TenantMetrics>, x: (u128, u32))
    requires
        spec_high_bucket(ms).contains(x) || spec_medium_bucket(ms).contains(x) || spec_low_bucket(
            ms,
        ).contains(x),
    ensures
        has_metrics(ms, x.0),
{
    let pf = |m: TenantMetrics| metric_pair(m);
    if spec_high_bucket(ms).contains(x) {
        let f = ms.filter(|m: TenantMetrics| spec_activity_score(m) > 7000);
        let k = choose|k: int| 0 <= k < f.map_values(pf).len() && f.map_values(pf)[k] == x;
        assert(f.contains(f[k]));
        crate::tables::lemma_filter_membership(
            ms,
            |m: TenantMetrics| spec_activity_score(m) > 7000,
        );
        assert(ms.contains(f[k]));
        let q = choose|q: int| 0 <= q < ms.len() && ms[q] == f[k];
    } else if spec_medium_bucket(ms).contains(x) {
        let f = ms.filter(
            |m: TenantMetrics| 3000 < spec_activity_score(m) && spec_activity_score(m) <= 7000,
        );
        let k = choose|k: int| 0 <= k < f.map_values(pf).len() && f.map_values(pf)[k] == x;
        assert(f.contains(f[k]));
        crate::tables::lemma_filter_membership(
            ms,
            |m: TenantMetrics| 3000 < spec_activity_score(m) && spec_activity_score(m) <= 7000,
        );
        assert(ms.contains(f[k]));
        let q = choose|q: int| 0 <= q < ms.len() && ms[q] == f[k];
    } else {
        let f = ms.filter(|m: TenantMetrics| spec_activity_score(m) <= 3000);
        let k = choose|k: int| 0 <= k < f.map_values(pf).len() && f.map_values(pf)[k] == x;
        assert(f.contains(f[k]));
        crate::tables::lemma_filter_membership(
            ms,
            |m: TenantMetrics| spec_activity_score(m) <= 3000,
        );
        assert(ms.contains(f[k]));
        let q = choose|q: int| 0 <= q < ms.len() && ms[q] == f[k];
    }
}

/// Every metrics entry lands in the bucket its activity score selects.
proof fn lemma_metric_lands_in_bucket(ms: Seq<TenantMetrics>, m: TenantMetrics)
    requires
        ms.contains(m),
    ensures
        spec_activity_score(m) > 7000 ==> spec_high_bucket(ms).contains(metric_pair(m)),
        3000 < spec_activity_score(m) <= 7000 ==> spec_medium_bucket(ms).contains(metric_pair(m)),
        spec_activity_score(m) <= 3000 ==> spec_low_bucket(ms).contains(metric_pair(m)),
{
    let idx = choose|idx: int| 0 <= idx < ms.len() && ms[idx] == m;
    let pf = |mm: TenantMetrics| metric_pair(mm);
    if spec_activity_score(m) > 7000 {
        let pred = |mm: TenantMetrics| spec_activity_score(mm) > 7000;
        ms.lemma_filter_contains(pred, idx);
        let f = ms.filter(pred);
        let k = choose|k: int| 0 <= k < f.len() && f[k] == m;
        assert(f.map_values(pf)[k] == metric_pair(m));
    } else if 3000 < spec_activity_score(m) {
        let pred = |mm: TenantMetrics| 3000 < spec_activity_score(mm) && spec_activity_score(mm)
            <= 7000;
        ms.lemma_filter_contains(pred, idx);
        let f = ms.filter(pred);
        let k = choose|k: int| 0 <= k < f.len() && f[k] == m;
        assert(f.map_values(pf)[k] == metric_pair(m));
    } else {
        let pred = |mm: TenantMetrics| spec_activity_score(mm) <= 3000;
        ms.lemma_filter_contains(pred, idx);
        let f = ms.filter(pred);
        let k = choose|k: int| 0 <= k < f.len() && f[k] == m;
        assert(f.map_values(pf)[k] == metric_pair(m));
    }
}

/// The load balancer service.
pub struct LoadBalancer {
    /// Worker registry, sorted by worker identifier, one entry per worker.
    pub workers: Vec<WorkerMetrics>,
    /// Current assignments, one entry per tenant.
    pub assignments: Vec<TenantAssignment>,
    /// Tenant metrics table, one entry per tenant.
    pub tenant_metrics: Vec<TenantMetrics>,
    /// Tenant-to-worker affinity, one entry per tenant.
    pub affinity: Vec<(u128, String)>,
    /// The balancer's configuration.
    pub config: LoadBalancerConfig,
    /// When the last rebalance finished, in seconds.
    pub last_rebalance: u64,
}

impl LoadBalancer {
    /// The balancer's structural invariant: valid configuration, one entry
    /// per key in every table, registry sorted by worker identifier.
    pub open spec fn wf(&self) -> bool {
        &&& self.config.valid()
        &&& workers_distinct(self.workers@)
        &&& workers_sorted(self.workers@)
        &&& assignments_distinct(self.assignments@)
        &&& metrics_distinct(self.tenant_metrics@)
        &&& affinity_distinct(self.affinity@)
    }

    /// A balancer with no workers, assignments, metrics or affinities.
    pub fn new(config: LoadBalancerConfig, now: u64) -> (lb: Self)
        requires
            config.valid(),
        ensures
            lb.wf(),
            lb.workers@.len() == 0,
            lb.assignments@.len() == 0,
            lb.tenant_metrics@.len() == 0,
            lb.affinity@.len() == 0,
            lb.config == config,
            lb.last_rebalance == now,
    {
        LoadBalancer {
            workers: Vec::new(),
            assignments: Vec::new(),
            tenant_metrics: Vec::new(),
            affinity: Vec::new(),
            config,
            last_rebalance: now,
        }
    }

    /// The index of the registry entry for this identifier, if any.
    fn find_worker(&self, worker_id: &str) -> (r: Option<usize>)
        ensures
            match r {
                Some(i) => i < self.workers@.len() && self.workers@[i as int].worker_id@
                    == worker_id@,
                None => !has_worker(self.workers@, worker_id@),
            },
    {
        let mut i: usize = 0;
        while i < self.workers.len()
            invariant
                i <= self.workers@.len(),
                forall|j: int| 0 <= j < i ==> (#[trigger] self.workers@[j]).worker_id@ != worker_id@,
            decreases self.workers@.len() - i,
        {
            if string_eq_str(&self.workers[i].worker_id, worker_id) {
                return Some(i);
            }
            i = i + 1;
        }
        None
    }

    /// Register a worker under fresh, zeroed metrics. Re-registering an
    /// existing identifier resets its record; no tenant is reassigned.
    pub fn add_worker(&mut self, worker_id: String, now: u64)
        requires
            old(self).wf(),
        ensures
            final(self).wf(),
            has_worker(final(self).workers@, worker_id@),
            // the record under this identifier is fresh
            forall|w: WorkerMetrics|
                #[trigger] final(self).workers@.contains(w) && w.worker_id@ == worker_id@
                    ==> fresh_worker_fields(w, worker_id@, now),
            // every other record is carried over unchanged, both ways
            forall|w: WorkerMetrics|
                #[trigger] final(self).workers@.contains(w) && w.worker_id@ != worker_id@ ==> old(self).workers@.contains(w),
            forall|w: WorkerMetrics|
                #[trigger] old(self).workers@.contains(w) && w.worker_id@ != worker_id@ ==> final(self).workers@.contains(w),
            final(self).workers@.len() == old(self).workers@.len() + (if has_worker(
                old(self).workers@,
                worker_id@,
            ) {
                0int
            } else {
                1int
            }),
            final(self).assignments == old(self).assignments,
            final(self).tenant_metrics == old(self).tenant_metrics,
            final(self).affinity == old(self).affinity,
            final(self).config == old(self).config,
            final(self).last_rebalance == old(self).last_rebalance,
    {
        let fresh = WorkerMetrics {
            worker_id,
            tenant_count: 0,
            cpu_usage: 0,
            memory_usage: 0,
            rpc_rate: 0,
            avg_processing_time_ms: 0,
            errors_last_hour: 0,
            uptime_seconds: 0,
            collected_at: now,
        };
        self.put_worker(fresh);
    }

    /// Update worker load metrics: the record under the identifier is
    /// replaced whole, or added if the worker is unknown.
    pub fn update_worker_load(&mut self, metrics: WorkerMetrics)
        requires
            old(self).wf(),
        ensures
            final(self).wf(),
            has_worker(final(self).workers@, metrics.worker_id@),
            forall|w: WorkerMetrics|
                #[trigger] final(self).workers@.contains(w) && w.worker_id@ == metrics.worker_id@
                    ==> w == metrics,
            forall|w: WorkerMetrics|
                #[trigger] final(self).workers@.contains(w) && w.worker_id@ != metrics.worker_id@
                    ==> old(self).workers@.contains(w),
            forall|w: WorkerMetrics|
                #[trigger] old(self).workers@.contains(w) && w.worker_id@ != metrics.worker_id@
                    ==> final(self).workers@.contains(w),
            final(self).workers@.len() == old(self).workers@.len() + (if has_worker(
                old(self).workers@,
                metrics.worker_id@,
            ) {
                0int
            } else {
                1int
            }),
            final(self).assignments == old(self).assignments,
            final(self).tenant_metrics == old(self).tenant_metrics,
            final(self).affinity == old(self).affinity,
            final(self).config == old(self).config,
            final(self).last_rebalance == old(self).last_rebalance,
    {
        self.put_worker(metrics);
    }

    /// Place a record in the registry: overwrite the entry with the same
    /// identifier, or insert at the position that keeps the registry sorted.
    fn put_worker(&mut self, w: WorkerMetrics)
        requires
            old(self).wf(),
        ensures
            final(self).wf(),
            has_worker(final(self).workers@, w.worker_id@),
            forall|x: WorkerMetrics|
                #[trigger] final(self).workers@.contains(x) && x.worker_id@ == w.worker_id@ ==> x
                    == w,
            forall|x: WorkerMetrics|
                #[trigger] final(self).workers@.contains(x) && x.worker_id@ != w.worker_id@ ==> old(self).workers@.contains(x),
            forall|x: WorkerMetrics|
                #[trigger] old(self).workers@.contains(x) && x.worker_id@ != w.worker_id@ ==> final(self).workers@.contains(x),
            final(self).workers@.len() == old(self).workers@.len() + (if has_worker(
                old(self).workers@,
                w.worker_id@,
            ) {
                0int
            } else {
                1int
            }),
            final(self).assignments == old(self).assignments,
            final(self).tenant_metrics == old(self).tenant_metrics,
            final(self).affinity == old(self).affinity,
            final(self).config == old(self).config,
            final(self).last_rebalance == old(self).last_rebalance,
    {
        match self.find_worker(w.worker_id.as_str()) {
            Some(i) => {
                let ghost olds = self.workers@;
                self.workers.set(i, w);
                proof {
                    assert forall|x: WorkerMetrics|
                        #[trigger] self.workers@.contains(x) && x.worker_id@ != w.worker_id@
                            implies olds.contains(x) by {
                        let j = choose|j: int|
                            0 <= j < self.workers@.len() && self.workers@[j] == x;
                        assert(olds[j] == x);
                    }
                    assert forall|x: WorkerMetrics|
                        #[trigger] olds.contains(x) && x.worker_id@ != w.worker_id@ implies self
                            .workers@.contains(x) by {
                        let j = choose|j: int| 0 <= j < olds.len() && olds[j] == x;
                        assert(self.workers@[j] == x);
                    }
                    assert forall|x: WorkerMetrics|
                        #[trigger] self.workers@.contains(x) && x.worker_id@ == w.worker_id@
                            implies x == w by {
                        let j = choose|j: int|
                            0 <= j < self.workers@.len() && self.workers@[j] == x;
                        if j != i {
                            assert(olds[j] == x);
                            assert(olds[i as int].worker_id@ == w.worker_id@);
                        }
                    }
                    assert(self.workers@[i as int] == w);
                    assert(has_worker(self.workers@, w.worker_id@));
                }
            },
            None => {
                let ghost olds = self.workers@;
                // find the sorted insertion point
                let mut p: usize = 0;
                while p < self.workers.len() && str_le(
                    self.workers[p].worker_id.as_str(),
                    w.worker_id.as_str(),
                )
                    invariant
                        p <= self.workers@.len(),
                        self.workers@ == olds,
                        forall|j: int|
                            0 <= j < p ==> bytes_le(
                                str_bytes((#[trigger] self.workers@[j]).worker_id@),
                                str_bytes(w.worker_id@),
                            ),
                    decreases self.workers@.len() - p,
                {
                    p = p + 1;
                }
                proof {
                    if p < self.workers@.len() {
                        lemma_bytes_le_total(
                            str_bytes(self.workers@[p as int].worker_id@),
                            str_bytes(w.worker_id@),
                        );
                        assert(bytes_le(
                            str_bytes(w.worker_id@),
                            str_bytes(self.workers@[p as int].worker_id@),
                        ));
                    }
                }
                self.workers.insert(p, w);
                proof {
                    let news = self.workers@;
                    assert(news == olds.insert(p as int, w));
                    assert forall|j: int| 0 <= j < news.len() implies news[j] == (if j < p {
                        olds[j]
                    } else if j == p {
                        w
                    } else {
                        olds[j - 1]
                    }) by {
                        olds.insert_ensures(p as int, w);
                    }
                    // sortedness of the extended registry
                    assert forall|i: int, j: int| 0 <= i < j < news.len() implies bytes_le(
                        str_bytes(news[i].worker_id@),
                        str_bytes(news[j].worker_id@),
                    ) by {
                        if i < p && j < p {
                        } else if i == p && j > p {
                            if j - 1 > p {
                                lemma_bytes_le_trans(
                                    str_bytes(w.worker_id@),
                                    str_bytes(olds[p as int].worker_id@),
                                    str_bytes(olds[j - 1].worker_id@),
                                );
                            }
                        } else if i < p && j == p {
                        } else if i < p && j > p {
                        } else if i > p && j > p {
                        }
                    }
                    // distinctness: the new identifier was absent
                    assert forall|i: int, j: int| 0 <= i < j < news.len() implies news[i].worker_id@
                        != news[j].worker_id@ by {
                        if i == p {
                            assert(olds[j - 1].worker_id@ != w.worker_id@);
                        } else if j == p {
                            assert(olds[i].worker_id@ != w.worker_id@);
                        }
                    }
                    // membership both ways
                    assert forall|x: WorkerMetrics|
                        #[trigger] news.contains(x) && x.worker_id@ != w.worker_id@ implies olds
                            .contains(x) by {
                        let j = choose|j: int| 0 <= j < news.len() && news[j] == x;
                        if j < p {
                            assert(olds[j] == x);
                        } else {
                            assert(olds[j - 1] == x);
                        }
                    }
                    assert forall|x: WorkerMetrics| #[trigger]
                        olds.contains(x) implies news.contains(x) by {
                        let j = choose|j: int| 0 <= j < olds.len() && olds[j] == x;
                        if j < p {
                            assert(news[j] == x);
                        } else {
                            assert(news[j + 1] == x);
                        }
                    }
                    assert forall|x: WorkerMetrics|
                        #[trigger] news.contains(x) && x.worker_id@ == w.worker_id@ implies x
                            == w by {
                        let j = choose|j: int| 0 <= j < news.len() && news[j] == x;
                        if j < p {
                            assert(olds[j] == x);
                        } else if j > p {
                            assert(olds[j - 1] == x);
                        }
                    }
                    assert(news[p as int] == w);
                    assert(has_worker(news, w.worker_id@));
                }
            },
        }
    }

    /// Look up the worker a tenant is currently assigned to.
    pub fn get_worker_for_tenant(&self, tenant_id: u128) -> (r: Option<String>)
        ensures
            match r {
                Some(w) => exists|i: int|
                    0 <= i < self.assignments@.len() && (#[trigger] self.assignments@[i]).tenant_id
                        == tenant_id && self.assignments@[i].worker_id@ == w@,
                None => !has_assignment(self.assignments@, tenant_id),
            },
    {
        let mut i: usize = 0;
        while i < self.assignments.len()
            invariant
                i <= self.assignments@.len(),
                forall|j: int|
                    0 <= j < i ==> (#[trigger] self.assignments@[j]).tenant_id != tenant_id,
            decreases self.assignments@.len() - i,
        {
            if self.assignments[i].tenant_id == tenant_id {
                return Some(self.assignments[i].worker_id.clone());
            }
            i = i + 1;
        }
        None
    }

    /// Update tenant metrics: the record under the tenant is replaced whole,
    /// or added if the tenant is unknown.
    pub fn update_tenant_metrics(&mut self, metrics: TenantMetrics)
        requires
            old(self).wf(),
        ensures
            final(self).wf(),
            has_metrics(final(self).tenant_metrics@, metrics.tenant_id),
            forall|m: TenantMetrics|
                #[trigger] final(self).tenant_metrics@.contains(m) && m.tenant_id
                    == metrics.tenant_id ==> m == metrics,
            forall|m: TenantMetrics|
                #[trigger] final(self).tenant_metrics@.contains(m) && m.tenant_id
                    != metrics.tenant_id ==> old(self).tenant_metrics@.contains(m),
            forall|m: TenantMetrics|
                #[trigger] old(self).tenant_metrics@.contains(m) && m.tenant_id
                    != metrics.tenant_id ==> final(self).tenant_metrics@.contains(m),
            final(self).tenant_metrics@.len() == old(self).tenant_metrics@.len() + (if has_metrics(
                old(self).tenant_metrics@,
                metrics.tenant_id,
            ) {
                0int
            } else {
                1int
            }),
            final(self).workers == old(self).workers,
            final(self).assignments == old(self).assignments,
            final(self).affinity == old(self).affinity,
            final(self).config == old(self).config,
            final(self).last_rebalance == old(self).last_rebalance,
    {
        let ghost olds = self.tenant_metrics@;
        let mut i: usize = 0;
        while i < self.tenant_metrics.len()
            invariant
                i <= self.tenant_metrics@.len(),
                old(self).wf(),
                *self == *old(self),
                olds == old(self).tenant_metrics@,
                forall|j: int|
                    0 <= j < i ==> (#[trigger] olds[j]).tenant_id != metrics.tenant_id,
            decreases self.tenant_metrics@.len() - i,
        {
            if self.tenant_metrics[i].tenant_id == metrics.tenant_id {
                self.tenant_metrics.set(i, metrics);
                proof {
                    assert(self.tenant_metrics@[i as int].tenant_id == olds[i as int].tenant_id);
                    assert forall|m: TenantMetrics|
                        #[trigger] self.tenant_metrics@.contains(m) && m.tenant_id
                            != olds[i as int].tenant_id implies olds.contains(m) by {
                        let j = choose|j: int|
                            0 <= j < self.tenant_metrics@.len() && self.tenant_metrics@[j] == m;
                        assert(olds[j] == m);
                    }
                    assert forall|m: TenantMetrics|
                        #[trigger] olds.contains(m) && m.tenant_id != olds[i as int].tenant_id
                            implies self.tenant_metrics@.contains(m) by {
                        let j = choose|j: int| 0 <= j < olds.len() && olds[j] == m;
                        assert(self.tenant_metrics@[j] == m);
                    }
                    assert forall|m: TenantMetrics|
                        #[trigger] self.tenant_metrics@.contains(m) && m.tenant_id
                            == olds[i as int].tenant_id implies m == metrics by {
                        let j = choose|j: int|
                            0 <= j < self.tenant_metrics@.len() && self.tenant_metrics@[j] == m;
                        if j != i {
                            assert(olds[j] == m);
                        }
                    }
                    assert(self.tenant_metrics@[i as int] == metrics);
                    assert forall|a: int, b: int|
                        0 <= a < b < self.tenant_metrics@.len() implies (#[trigger] self
                        .tenant_metrics@[a]).tenant_id != (#[trigger] self
                        .tenant_metrics@[b]).tenant_id by {
                        assert(olds[a].tenant_id != olds[b].tenant_id);
                        if a != i {
                            assert(self.tenant_metrics@[a] == olds[a]);
                        }
                        if b != i {
                            assert(self.tenant_metrics@[b] == olds[b]);
                        }
                    }
                }
                return ;
            }
            i = i + 1;
        }
        self.tenant_metrics.push(metrics);
        proof {
            let news = self.tenant_metrics@;
            assert(news[news.len() - 1] == metrics);
            assert forall|m: TenantMetrics|
                #[trigger] news.contains(m) && m.tenant_id != metrics.tenant_id implies olds
                    .contains(m) by {
                let j = choose|j: int| 0 <= j < news.len() && news[j] == m;
                assert(olds[j] == m);
            }
            assert forall|m: TenantMetrics|
                #[trigger] news.contains(m) && m.tenant_id == metrics.tenant_id implies m
                    == metrics by {
                let j = choose|j: int| 0 <= j < news.len() && news[j] == m;
                if j < news.len() - 1 {
                    assert(olds[j] == m);
                }
            }
            assert forall|m: TenantMetrics| #[trigger] olds.contains(m) implies news.contains(
                m,
            ) by {
                let j = choose|j: int| 0 <= j < olds.len() && olds[j] == m;
                assert(news[j] == m);
            }
            assert forall|a: int, b: int| 0 <= a < b < news.len() implies (#[trigger] news[a]).tenant_id
                != (#[trigger] news[b]).tenant_id by {
                if b == news.len() - 1 {
                    assert(news[a] == olds[a]);
                } else {
                    assert(news[a] == olds[a]);
                    assert(news[b] == olds[b]);
                }
            }
        }
    }

    /// Remove a worker: its registry record and affinity entries go, its
    /// assignments are dropped, and the orphaned tenants are returned for
    /// the caller to reassign.
    pub fn remove_worker(&mut self, worker_id: &str) -> (orphans: Vec<u128>)
        requires
            old(self).wf(),
        ensures
            final(self).wf(),
            !has_worker(final(self).workers@, worker_id@),
            forall|x: WorkerMetrics|
                #[trigger] final(self).workers@.contains(x) ==> old(self).workers@.contains(x)
                    && x.worker_id@ != worker_id@,
            forall|x: WorkerMetrics|
                #[trigger] old(self).workers@.contains(x) && x.worker_id@ != worker_id@ ==> final(self).workers@.contains(x),
            final(self).affinity@ == old(self).affinity@.filter(
                |p: (u128, String)| p.1@ != worker_id@,
            ),
            final(self).assignments@ == old(self).assignments@.filter(
                |a: TenantAssignment| a.worker_id@ != worker_id@,
            ),
            orphans@ == old(self).assignments@.filter(
                |a: TenantAssignment| a.worker_id@ == worker_id@,
            ).map_values(|a: TenantAssignment| a.tenant_id),
            final(self).tenant_metrics == old(self).tenant_metrics,
            final(self).config == old(self).config,
            final(self).last_rebalance == old(self).last_rebalance,
    {
        // drop the registry record, if there is one
        match self.find_worker(worker_id) {
            Some(i) => {
                let ghost olds = self.workers@;
                self.workers.remove(i);
                proof {
                    let news = self.workers@;
                    assert forall|x: WorkerMetrics| #[trigger]
                        news.contains(x) implies olds.contains(x) && x.worker_id@ != worker_id@ by {
                        let j = choose|j: int| 0 <= j < news.len() && news[j] == x;
                        if j < i {
                            assert(olds[j] == x);
                            assert(olds[j].worker_id@ != olds[i as int].worker_id@);
                        } else {
                            assert(olds[j + 1] == x);
                            assert(olds[i as int].worker_id@ != olds[j + 1].worker_id@);
                        }
                    }
                    assert forall|x: WorkerMetrics|
                        #[trigger] olds.contains(x) && x.worker_id@ != worker_id@ implies news
                            .contains(x) by {
                        let j = choose|j: int| 0 <= j < olds.len() && olds[j] == x;
                        if j < i {
                            assert(news[j] == x);
                        } else {
                            assert(j != i);
                            assert(news[j - 1] == x);
                        }
                    }
                    assert(workers_distinct(news));
                    assert(workers_sorted(news));
                    if has_worker(news, worker_id@) {
                        let j = choose|j: int|
                            0 <= j < news.len() && (#[trigger] news[j]).worker_id@ == worker_id@;
                        assert(news.contains(news[j]));
                    }
                }
            },
            None => {
                proof {
                    assert forall|x: WorkerMetrics| #[trigger]
                        self.workers@.contains(x) implies x.worker_id@ != worker_id@ by {
                        let j = choose|j: int|
                            0 <= j < self.workers@.len() && self.workers@[j] == x;
                    }
                }
            },
        }
        // drop affinity entries that point at the worker
        let ghost oldaff = self.affinity@;
        let mut kept_aff: Vec<(u128, String)> = Vec::new();
        let mut i: usize = 0;
        while i < self.affinity.len()
            invariant
                i <= self.affinity@.len(),
                self.affinity@ == oldaff,
                kept_aff@ == oldaff.take(i as int).filter(|p: (u128, String)| p.1@ != worker_id@),
            decreases self.affinity@.len() - i,
        {
            proof {
                assert(oldaff.take(i + 1).drop_last() =~= oldaff.take(i as int));
                assert(oldaff.take(i + 1).last() == oldaff[i as int]);
                reveal(Seq::filter);
            }
            if !string_eq_str(&self.affinity[i].1, worker_id) {
                let t = self.affinity[i].0;
                let w = self.affinity[i].1.clone();
                kept_aff.push((t, w));
                proof {
                    assert((t, w) == oldaff[i as int]);
                }
            }
            i = i + 1;
        }
        proof {
            assert(oldaff.take(oldaff.len() as int) =~= oldaff);
            lemma_filter_distinct_by(
                oldaff,
                |p: (u128, String)| p.1@ != worker_id@,
                |p: (u128, String)| p.0,
            );
        }
        self.affinity = kept_aff;
        // drop the worker's assignments, collecting the orphaned tenants
        let ghost oldasg = self.assignments@;
        let mut kept_asg: Vec<TenantAssignment> = Vec::new();
        let mut orphans: Vec<u128> = Vec::new();
        let mut i: usize = 0;
        while i < self.assignments.len()
            invariant
                i <= self.assignments@.len(),
                self.assignments@ == oldasg,
                kept_asg@ == oldasg.take(i as int).filter(
                    |a: TenantAssignment| a.worker_id@ != worker_id@,
                ),
                orphans@ == oldasg.take(i as int).filter(
                    |a: TenantAssignment| a.worker_id@ == worker_id@,
                ).map_values(|a: TenantAssignment| a.tenant_id),
            decreases self.assignments@.len() - i,
        {
            proof {
                assert(oldasg.take(i + 1).drop_last() =~= oldasg.take(i as int));
                assert(oldasg.take(i + 1).last() == oldasg[i as int]);
                reveal(Seq::filter);
            }
            let a = &self.assignments[i];
            if string_eq_str(&a.worker_id, worker_id) {
                orphans.push(a.tenant_id);
                proof {
                    let keptf = oldasg.take(i + 1).filter(
                        |a: TenantAssignment| a.worker_id@ == worker_id@,
                    );
                    assert(keptf.map_values(|a: TenantAssignment| a.tenant_id) =~= keptf.drop_last(
                    ).map_values(|a: TenantAssignment| a.tenant_id).push(oldasg[i as int].tenant_id));
                }
            } else {
                let copied = TenantAssignment {
                    tenant_id: a.tenant_id,
                    worker_id: a.worker_id.clone(),
                    assigned_at: a.assigned_at,
                    version: a.version,
                    reason: a.reason,
                };
                proof {
                    assert(copied == oldasg[i as int]);
                }
                kept_asg.push(copied);
            }
            i = i + 1;
        }
        proof {
            assert(oldasg.take(oldasg.len() as int) =~= oldasg);
            lemma_filter_distinct_by(
                oldasg,
                |a: TenantAssignment| a.worker_id@ != worker_id@,
                |a: TenantAssignment| a.tenant_id,
            );
        }
        self.assignments = kept_asg;
        orphans
    }

    /// The tenants currently bound to a worker, in table order.
    pub fn get_worker_assignments(&self, worker_id: &str) -> (tenants: Vec<u128>)
        ensures
            tenants@ == self.assignments@.filter(|a: TenantAssignment| a.worker_id@ == worker_id@).map_values(|a: TenantAssignment| a.tenant_id),
    {
        let mut tenants: Vec<u128> = Vec::new();
        let mut i: usize = 0;
        while i < self.assignments.len()
            invariant
                i <= self.assignments@.len(),
                tenants@ == self.assignments@.take(i as int).filter(
                    |a: TenantAssignment| a.worker_id@ == worker_id@,
                ).map_values(|a: TenantAssignment| a.tenant_id),
            decreases self.assignments@.len() - i,
        {
            proof {
                let s = self.assignments@;
                assert(s.take(i + 1).drop_last() =~= s.take(i as int));
                assert(s.take(i + 1).last() == s[i as int]);
                reveal(Seq::filter);
            }
            if string_eq_str(&self.assignments[i].worker_id, worker_id) {
                tenants.push(self.assignments[i].tenant_id);
                proof {
                    let keptf = self.assignments@.take(i + 1).filter(
                        |a: TenantAssignment| a.worker_id@ == worker_id@,
                    );
                    assert(keptf.map_values(|a: TenantAssignment| a.tenant_id) =~= keptf.drop_last(
                    ).map_values(|a: TenantAssignment| a.tenant_id).push(
                        self.assignments@[i as int].tenant_id,
                    ));
                }
            }
            i = i + 1;
        }
        proof {
            assert(self.assignments@.take(self.assignments@.len() as int) =~= self.assignments@);
        }
        tenants
    }

    /// Whether a rebalance is due at the given time: at least the minimum
    /// interval has passed since the last one, and with two or more workers
    /// the tenant counts are imbalanced beyond the threshold.
    pub fn needs_rebalancing_at(&self, now: u64) -> (b: bool)
        requires
            self.wf(),
        ensures
            b == spec_needs_rebalancing(*self, now),
    {
        if now < self.last_rebalance {
            return false;
        }
        if now - self.last_rebalance < self.config.min_rebalance_interval_secs {
            return false;
        }
        if self.workers.len() < 2 {
            return false;
        }
        let ws_len = self.workers.len();
        let mut mx: u32 = self.workers[0].tenant_count;
        let mut mn: u32 = self.workers[0].tenant_count;
        let mut sum: u128 = self.workers[0].tenant_count as u128;
        let mut k: usize = 1;
        proof {
            assert(self.workers@.take(1).drop_last() =~= self.workers@.take(0));
            assert(self.workers@.take(1).len() == 1);
            assert(self.workers@.take(1)[0] == self.workers@[0]);
            assert(self.workers@.take(0).len() == 0);
            assert(sum_tc(self.workers@.take(0)) == 0);
            assert(self.workers@.take(1).last() == self.workers@[0]);
            assert(sum_tc(self.workers@.take(1)) == self.workers@[0].tenant_count as int);
        }
        while k < ws_len
            invariant
                1 <= k <= ws_len,
                ws_len == self.workers@.len(),
                self.wf(),
                mx == max_tc(self.workers@.take(k as int)),
                mn == min_tc(self.workers@.take(k as int)),
                sum == sum_tc(self.workers@.take(k as int)),
                sum <= k * 0xFFFF_FFFFu128,
            decreases ws_len - k,
        {
            let tc = self.workers[k].tenant_count;
            proof {
                assert(self.workers@.take(k + 1).drop_last() =~= self.workers@.take(k as int));
                assert(self.workers@.take(k + 1).last() == self.workers@[k as int]);
            }
            if tc > mx {
                mx = tc;
            }
            if tc < mn {
                mn = tc;
            }
            sum = sum + (tc as u128);
            k = k + 1;
        }
        proof {
            assert(self.workers@.take(ws_len as int) =~= self.workers@);
        }
        let diff: u32 = mx - mn;
        proof {
            vstd::arithmetic::mul::lemma_mul_upper_bound(
                1000 * (ws_len as int),
                1000 * 0xFFFF_FFFF_FFFF_FFFFint,
                diff as int,
                0xFFFF_FFFFint,
            );
            assert(sum <= 0xFFFF_FFFF_FFFF_FFFFint * 0xFFFF_FFFFint);
            vstd::arithmetic::mul::lemma_mul_upper_bound(
                self.config.rebalance_threshold_milli as int,
                1000,
                sum as int,
                0xFFFF_FFFF_FFFF_FFFFint * 0xFFFF_FFFFint,
            );
        }
        let lhs: u128 = 1000u128 * (ws_len as u128) * (diff as u128);
        let rhs: u128 = (self.config.rebalance_threshold_milli as u128) * sum;
        lhs > rhs
    }

    /// Whether a rebalance is due now. The imbalance test is the exact
    /// rational comparison `(max - min) / avg > threshold` over the
    /// registered workers' tenant counts.
    pub fn needs_rebalancing(&self) -> (b: bool)
        requires
            self.wf(),
        ensures
            b ==> self.workers@.len() >= 2,
            exists|n: u64| b == spec_needs_rebalancing(*self, n),
    {
        let now = crate::clock::now_seconds();
        self.needs_rebalancing_at(now)
    }

    /// Rebalance tenants across workers whole-fleet.
    ///
    /// Tenants with metrics are split into high (above 0.7), medium (above
    /// 0.3) and low activity buckets, each sorted by descending score, and
    /// dealt in that order, each to the worker whose accumulated score is
    /// currently smallest. The assignments table is replaced wholesale:
    /// every entry carries reason `LoadRebalance`, the given timestamp and a
    /// bumped version, and `last_rebalance` is stamped. With no workers
    /// registered nothing changes and the distribution comes back empty.
    #[verifier::rlimit(100)]
    pub fn rebalance(&mut self, now: u64) -> (dist: Vec<(String, Vec<u128>)>)
        requires
            old(self).wf(),
        ensures
            final(self).wf(),
            old(self).workers@.len() == 0 ==> dist@.len() == 0 && *final(self) == *old(self),
            old(self).workers@.len() > 0 ==> final(self).last_rebalance == now
                && final(self).workers == old(self).workers
                && final(self).tenant_metrics == old(self).tenant_metrics
                && final(self).affinity == old(self).affinity
                && final(self).config == old(self).config
                && dist@.len() == old(self).workers@.len()
                && (forall|w: int|
                    0 <= w < dist@.len() ==> (#[trigger] dist@[w]).0@ == old(self).workers@[w].worker_id@)
                && (forall|k: int|
                    0 <= k < final(self).assignments@.len() ==> (#[trigger] final(self).assignments@[k]).reason == AssignmentReason::LoadRebalance
                        && final(self).assignments@[k].assigned_at == now
                        && final(self).assignments@[k].version == spec_next_version(
                        old(self).assignments@,
                        final(self).assignments@[k].tenant_id,
                    ) && has_metrics(old(self).tenant_metrics@, final(self).assignments@[k].tenant_id))
                && (forall|m: TenantMetrics|
                    #[trigger] old(self).tenant_metrics@.contains(m) ==> has_assignment(
                        final(self).assignments@,
                        m.tenant_id,
                    ))
                && (exists|sh: Seq<(u128, u32)>, sm: Seq<(u128, u32)>, sl: Seq<(u128, u32)>|
                    rebalance_witness(*old(self), dist@, final(self).assignments@, sh, sm, sl, now)),
    {
        if self.workers.len() == 0 {
            return Vec::new();
        }
        let n = self.workers.len();
        // split the tenants into activity buckets
        let mut high: Vec<(u128, u32)> = Vec::new();
        let mut medium: Vec<(u128, u32)> = Vec::new();
        let mut low: Vec<(u128, u32)> = Vec::new();
        let mut i: usize = 0;
        proof {
            reveal(Seq::filter);
            assert(self.tenant_metrics@.take(0) =~= Seq::<TenantMetrics>::empty());
            assert(spec_high_bucket(self.tenant_metrics@.take(0)) =~= Seq::<(u128, u32)>::empty());
            assert(spec_medium_bucket(self.tenant_metrics@.take(0)) =~= Seq::<(u128, u32)>::empty());
            assert(spec_low_bucket(self.tenant_metrics@.take(0)) =~= Seq::<(u128, u32)>::empty());
        }
        while i < self.tenant_metrics.len()
            invariant
                i <= self.tenant_metrics@.len(),
                old(self).wf(),
                *self == *old(self),
                high@ == spec_high_bucket(self.tenant_metrics@.take(i as int)),
                medium@ == spec_medium_bucket(self.tenant_metrics@.take(i as int)),
                low@ == spec_low_bucket(self.tenant_metrics@.take(i as int)),
                forall|x: int| 0 <= x < high@.len() ==> (#[trigger] high@[x]).1 <= 10000,
                forall|x: int| 0 <= x < medium@.len() ==> (#[trigger] medium@[x]).1 <= 10000,
                forall|x: int| 0 <= x < low@.len() ==> (#[trigger] low@[x]).1 <= 10000,
            decreases self.tenant_metrics@.len() - i,
        {
            let tid = self.tenant_metrics[i].tenant_id;
            let s = self.tenant_metrics[i].activity_score();
            proof {
                lemma_bucket_step(self.tenant_metrics@, i as int);
                assert((tid, s) == metric_pair(self.tenant_metrics@[i as int]));
            }
            if s > 7000 {
                high.push((tid, s));
            } else if s > 3000 {
                medium.push((tid, s));
            } else {
                low.push((tid, s));
            }
            i = i + 1;
        }
        proof {
            assert(self.tenant_metrics@.take(self.tenant_metrics@.len() as int)
                =~= self.tenant_metrics@);
        }
        // sort each bucket by descending score
        let sh = sort_desc(&high);
        let sm = sort_desc(&medium);
        let sl = sort_desc(&low);
        let ghost gsh = sh@;
        let ghost gsm = sm@;
        let ghost gsl = sl@;
        // concatenate into the dealing order: high, then medium, then low
        let mut order: Vec<(u128, u32)> = sh;
        let mut sm_tail = sm;
        let mut sl_tail = sl;
        order.append(&mut sm_tail);
        order.append(&mut sl_tail);
        let ghost gorder = order@;
        proof {
            assert(gorder == gsh + gsm + gsl);
            assert forall|x: int| 0 <= x < gorder.len() implies (#[trigger] gorder[x]).1
                <= 10000 by {
                if x < gsh.len() {
                    assert(gsh.contains(gsh[x]));
                    assert(high@.contains(gsh[x]));
                    let q = choose|q: int| 0 <= q < high@.len() && high@[q] == gsh[x];
                } else if x < gsh.len() + gsm.len() {
                    assert(gsm.contains(gsm[x - gsh.len()]));
                    assert(medium@.contains(gsm[x - gsh.len()]));
                    let q = choose|q: int|
                        0 <= q < medium@.len() && medium@[q] == gsm[x - gsh.len()];
                } else {
                    assert(gsl.contains(gsl[x - gsh.len() - gsm.len()]));
                    assert(low@.contains(gsl[x - gsh.len() - gsm.len()]));
                    let q = choose|q: int|
                        0 <= q < low@.len() && low@[q] == gsl[x - gsh.len() - gsm.len()];
                }
            }
            assert forall|x: int| 0 <= x < gorder.len() implies has_metrics(
                self.tenant_metrics@,
                (#[trigger] gorder[x]).0,
            ) by {
                if x < gsh.len() {
                    assert(gsh.contains(gsh[x]));
                    assert(high@.contains(gsh[x]));
                    lemma_bucket_entry_has_metrics(self.tenant_metrics@, gsh[x]);
                } else if x < gsh.len() + gsm.len() {
                    assert(gsm.contains(gsm[x - gsh.len()]));
                    assert(medium@.contains(gsm[x - gsh.len()]));
                    lemma_bucket_entry_has_metrics(self.tenant_metrics@, gorder[x]);
                } else {
                    assert(gsl.contains(gsl[x - gsh.len() - gsm.len()]));
                    assert(low@.contains(gsl[x - gsh.len() - gsm.len()]));
                    lemma_bucket_entry_has_metrics(self.tenant_metrics@, gorder[x]);
                }
            }
        }
        // zeroed accumulators, one per worker
        let mut accs: Vec<u128> = Vec::new();
        let mut z: usize = 0;
        while z < n
            invariant
                z <= n,
                accs@.len() == z,
                forall|x: int| 0 <= x < z ==> accs@[x] == 0,
            decreases n - z,
        {
            accs.push(0);
            z = z + 1;
        }
        let ghost zeros = Seq::new(n as nat, |x: int| 0int);
        proof {
            assert(accs_int(accs@) =~= zeros);
        }
        // deal each tenant to the first worker with the smallest accumulator
        let mut choices_vec: Vec<usize> = Vec::new();
        let ghost mut gch: Seq<int> = Seq::empty();
        let mut j: usize = 0;
        proof {
            assert(gorder.skip(0) =~= gorder);
            assert(Seq::empty() + greedy_choices(gorder, zeros) =~= greedy_choices(gorder, zeros));
        }
        while j < order.len()
            invariant
                j <= order@.len(),
                order@ == gorder,
                n > 0,
                choices_vec@.len() == j,
                gch.len() == j,
                forall|x: int| 0 <= x < j ==> #[trigger] gch[x] == choices_vec@[x] as int,
                forall|x: int| 0 <= x < j ==> 0 <= #[trigger] gch[x] < n,
                accs@.len() == n,
                forall|x: int| 0 <= x < n ==> (#[trigger] accs@[x]) <= j * 10000,
                forall|x: int| 0 <= x < gorder.len() ==> (#[trigger] gorder[x]).1 <= 10000,
                greedy_choices(gorder, zeros) == gch + greedy_choices(
                    gorder.skip(j as int),
                    accs_int(accs@),
                ),
            decreases order@.len() - j,
        {
            let b = argmin_acc(&accs);
            let ghost oldaccs = accs@;
            let score = order[j].1;
            let new_acc = accs[b] + (score as u128);
            accs.set(b, new_acc);
            choices_vec.push(b);
            proof {
                let rem = gorder.skip(j as int);
                assert(rem[0] == gorder[j as int]);
                assert(rem.skip(1) =~= gorder.skip(j + 1));
                assert(accs_int(accs@) =~= accs_int(oldaccs).update(
                    b as int,
                    accs_int(oldaccs)[b as int] + rem[0].1,
                ));
                assert(greedy_choices(rem, accs_int(oldaccs)) == seq![b as int] + greedy_choices(
                    gorder.skip(j + 1),
                    accs_int(accs@),
                ));
                assert(gch + (seq![b as int] + greedy_choices(gorder.skip(j + 1), accs_int(accs@)))
                    =~= gch.push(b as int) + greedy_choices(gorder.skip(j + 1), accs_int(accs@)));
                gch = gch.push(b as int);
            }
            j = j + 1;
        }
        proof {
            assert(gorder.skip(gorder.len() as int).len() == 0);
            assert(greedy_choices(gorder.skip(gorder.len() as int), accs_int(accs@))
                == Seq::<int>::empty());
            assert(gch + Seq::<int>::empty() =~= gch);
            assert(gch == greedy_choices(gorder, zeros));
        }
        // read the distribution off the choices, one worker at a time
        let mut dist: Vec<(String, Vec<u128>)> = Vec::new();
        let mut w: usize = 0;
        while w < n
            invariant
                w <= n,
                *self == *old(self),
                n == self.workers@.len(),
                order@ == gorder,
                choices_vec@.len() == gorder.len(),
                gch.len() == gorder.len(),
                forall|x: int| 0 <= x < gorder.len() ==> #[trigger] gch[x] == choices_vec@[x] as int,
                dist@.len() == w,
                forall|x: int|
                    0 <= x < w ==> (#[trigger] dist@[x]).0@ == self.workers@[x].worker_id@
                        && dist@[x].1@ == picked_tenants(gorder, gch, x),
            decreases n - w,
        {
            let mut tens: Vec<u128> = Vec::new();
            let mut jj: usize = 0;
            proof {
                assert(gorder.take(0) =~= Seq::<(u128, u32)>::empty());
                assert(gch.take(0) =~= Seq::<int>::empty());
                assert(picked_tenants(gorder.take(0), gch.take(0), w as int)
                    == Seq::<u128>::empty());
            }
            while jj < order.len()
                invariant
                    jj <= order@.len(),
                    order@ == gorder,
                    w < n,
                    choices_vec@.len() == gorder.len(),
                    gch.len() == gorder.len(),
                    forall|x: int| 0 <= x < gorder.len() ==> #[trigger] gch[x] == choices_vec@[x] as int,
                    tens@ == picked_tenants(gorder.take(jj as int), gch.take(jj as int), w as int),
                decreases order@.len() - jj,
            {
                proof {
                    assert(gorder.take(jj + 1) =~= gorder.take(jj as int).push(gorder[jj as int]));
                    assert(gch.take(jj + 1) =~= gch.take(jj as int).push(gch[jj as int]));
                    lemma_picked_push(
                        gorder.take(jj as int),
                        gch.take(jj as int),
                        gorder[jj as int],
                        gch[jj as int],
                        w as int,
                    );
                }
                if choices_vec[jj] == w {
                    tens.push(order[jj].0);
                } else {
                    proof {
                        assert(tens@ + Seq::<u128>::empty() =~= tens@);
                    }
                }
                jj = jj + 1;
            }
            proof {
                assert(gorder.take(gorder.len() as int) =~= gorder);
                assert(gch.take(gch.len() as int) =~= gch);
            }
            dist.push((self.workers[w].worker_id.clone(), tens));
            w = w + 1;
        }
        // rebuild the assignments table from the dealt order
        let mut new_asg: Vec<TenantAssignment> = Vec::new();
        let mut j2: usize = 0;
        while j2 < order.len()
            invariant
                j2 <= order@.len(),
                old(self).wf(),
                *self == *old(self),
                n == self.workers@.len(),
                order@ == gorder,
                choices_vec@.len() == gorder.len(),
                gch.len() == gorder.len(),
                forall|x: int| 0 <= x < gorder.len() ==> #[trigger] gch[x] == choices_vec@[x] as int,
                forall|x: int| 0 <= x < gorder.len() ==> 0 <= #[trigger] gch[x] < n,
                forall|x: int|
                    0 <= x < gorder.len() ==> has_metrics(
                        self.tenant_metrics@,
                        (#[trigger] gorder[x]).0,
                    ),
                assignments_distinct(new_asg@),
                forall|x: int|
                    0 <= x < j2 ==> has_assignment(new_asg@, (#[trigger] gorder[x]).0),
                forall|k: int|
                    0 <= k < new_asg@.len() ==> (#[trigger] new_asg@[k]).reason
                        == AssignmentReason::LoadRebalance && new_asg@[k].assigned_at == now
                        && new_asg@[k].version == spec_next_version(
                        old(self).assignments@,
                        new_asg@[k].tenant_id,
                    ) && has_metrics(old(self).tenant_metrics@, new_asg@[k].tenant_id) && (
                    exists|jx: int|
                        0 <= jx < gorder.len() && (#[trigger] gorder[jx]).0
                            == new_asg@[k].tenant_id && new_asg@[k].worker_id@
                            == old(self).workers@[gch[jx]].worker_id@),
            decreases order@.len() - j2,
        {
            let t = order[j2].0;
            let wi = choices_vec[j2];
            proof {
                assert(gch[j2 as int] == choices_vec@[j2 as int] as int);
                assert(wi < n);
            }
            let version: u32 = match self.find_assignment(t) {
                Some(ai) => {
                    let v = self.assignments[ai].version;
                    proof {
                        let ci = assignment_index(self.assignments@, t);
                        assert(self.assignments@[ci].tenant_id == t);
                        assert(ci == ai);
                    }
                    if v < u32::MAX {
                        v + 1
                    } else {
                        v
                    }
                },
                None => 1,
            };
            let rec = TenantAssignment {
                tenant_id: t,
                worker_id: self.workers[wi].worker_id.clone(),
                assigned_at: now,
                version,
                reason: AssignmentReason::LoadRebalance,
            };
            let ghost oldasg = new_asg@;
            vec_put_assignment(&mut new_asg, rec);
            proof {
                assert forall|x: int| 0 <= x < j2 + 1 implies has_assignment(
                    new_asg@,
                    (#[trigger] gorder[x]).0,
                ) by {
                    if gorder[x].0 == t {
                        let k = choose|k: int|
                            0 <= k < new_asg@.len() && (#[trigger] new_asg@[k]).tenant_id == t;
                    } else {
                        assert(has_assignment(oldasg, gorder[x].0));
                        let k = choose|k: int|
                            0 <= k < oldasg.len() && (#[trigger] oldasg[k]).tenant_id
                                == gorder[x].0;
                        assert(oldasg.contains(oldasg[k]));
                        assert(new_asg@.contains(oldasg[k]));
                        let k2 = choose|k2: int|
                            0 <= k2 < new_asg@.len() && new_asg@[k2] == oldasg[k];
                    }
                }
                assert forall|k: int| 0 <= k < new_asg@.len() implies (#[trigger] new_asg@[k]).reason
                    == AssignmentReason::LoadRebalance && new_asg@[k].assigned_at == now
                    && new_asg@[k].version == spec_next_version(
                    old(self).assignments@,
                    new_asg@[k].tenant_id,
                ) && has_metrics(old(self).tenant_metrics@, new_asg@[k].tenant_id) && (
                exists|jx: int|
                    0 <= jx < gorder.len() && (#[trigger] gorder[jx]).0 == new_asg@[k].tenant_id
                        && new_asg@[k].worker_id@
                        == old(self).workers@[gch[jx]].worker_id@) by {
                    let a = new_asg@[k];
                    assert(new_asg@.contains(a));
                    if a.tenant_id == rec.tenant_id {
                        assert(a == rec);
                        assert(gorder[j2 as int].0 == a.tenant_id);
                        assert(gch[j2 as int] == wi as int);
                        assert(a.worker_id@ == old(self).workers@[gch[j2 as int]].worker_id@);
                    } else {
                        assert(oldasg.contains(a));
                        let k0 = choose|k0: int| 0 <= k0 < oldasg.len() && oldasg[k0] == a;
                    }
                }
            }
            j2 = j2 + 1;
        }
        // install the new table and stamp the rebalance time
        self.assignments = new_asg;
        self.last_rebalance = now;
        let ghost fin = *self;
        proof {
            assert(fin.wf());
            assert forall|m: TenantMetrics|
                #[trigger] old(self).tenant_metrics@.contains(m) implies has_assignment(
                fin.assignments@,
                m.tenant_id,
            ) by {
                lemma_metric_lands_in_bucket(old(self).tenant_metrics@, m);
                broadcast use vstd::seq_lib::group_to_multiset_ensures;

                if spec_activity_score(m) > 7000 {
                    assert(spec_high_bucket(old(self).tenant_metrics@).contains(metric_pair(m)));
                    assert(gsh.to_multiset().count(metric_pair(m)) > 0);
                    assert(gsh.contains(metric_pair(m)));
                    let x = choose|x: int| 0 <= x < gsh.len() && gsh[x] == metric_pair(m);
                    assert(gorder[x] == metric_pair(m));
                } else if spec_activity_score(m) > 3000 {
                    assert(spec_medium_bucket(old(self).tenant_metrics@).contains(metric_pair(m)));
                    assert(gsm.to_multiset().count(metric_pair(m)) > 0);
                    assert(gsm.contains(metric_pair(m)));
                    let x = choose|x: int| 0 <= x < gsm.len() && gsm[x] == metric_pair(m);
                    assert(gorder[gsh.len() + x] == metric_pair(m));
                } else {
                    assert(spec_low_bucket(old(self).tenant_metrics@).contains(metric_pair(m)));
                    assert(gsl.to_multiset().count(metric_pair(m)) > 0);
                    assert(gsl.contains(metric_pair(m)));
                    let x = choose|x: int| 0 <= x < gsl.len() && gsl[x] == metric_pair(m);
                    assert(gorder[gsh.len() + gsm.len() + x] == metric_pair(m));
                }
            }
            assert(rebalance_witness(*old(self), dist@, fin.assignments@, gsh, gsm, gsl, now));
        }
        dist
    }

    /// The index of the assignment entry for this tenant, if any.
    fn find_assignment(&self, tenant_id: u128) -> (r: Option<usize>)
        ensures
            match r {
                Some(i) => i < self.assignments@.len() && self.assignments@[i as int].tenant_id
                    == tenant_id,
                None => !has_assignment(self.assignments@, tenant_id),
            },
    {
        let mut i: usize = 0;
        while i < self.assignments.len()
            invariant
                i <= self.assignments@.len(),
                forall|j: int|
                    0 <= j < i ==> (#[trigger] self.assignments@[j]).tenant_id != tenant_id,
            decreases self.assignments@.len() - i,
        {
            if self.assignments[i].tenant_id == tenant_id {
                return Some(i);
            }
            i = i + 1;
        }
        None
    }

    /// The index of the metrics entry for this tenant, if any.
    fn find_metrics(&self, tenant_id: u128) -> (r: Option<usize>)
        ensures
            match r {
                Some(i) => i < self.tenant_metrics@.len() && self.tenant_metrics@[i as int].tenant_id
                    == tenant_id,
                None => !has_metrics(self.tenant_metrics@, tenant_id),
            },
    {
        let mut i: usize = 0;
        while i < self.tenant_metrics.len()
            invariant
                i <= self.tenant_metrics@.len(),
                forall|j: int|
                    0 <= j < i ==> (#[trigger] self.tenant_metrics@[j]).tenant_id != tenant_id,
            decreases self.tenant_metrics@.len() - i,
        {
            if self.tenant_metrics[i].tenant_id == tenant_id {
                return Some(i);
            }
            i = i + 1;
        }
        None
    }

    /// The index of the affinity entry for this tenant, if any.
    fn find_affinity(&self, tenant_id: u128) -> (r: Option<usize>)
        ensures
            match r {
                Some(i) => i < self.affinity@.len() && self.affinity@[i as int].0 == tenant_id,
                None => !has_affinity(self.affinity@, tenant_id),
            },
    {
        let mut i: usize = 0;
        while i < self.affinity.len()
            invariant
                i <= self.affinity@.len(),
                forall|j: int| 0 <= j < i ==> (#[trigger] self.affinity@[j]).0 != tenant_id,
            decreases self.affinity@.len() - i,
        {
            if self.affinity[i].0 == tenant_id {
                return Some(i);
            }
            i = i + 1;
        }
        None
    }

    /// Round-robin: the first worker with the smallest tenant count.
    fn round_robin_assignment(&self) -> (r: Result<String, BalancerError>)
        ensures
            match r {
                Ok(w) => exists|i: int|
                    first_min_by_count(self.workers@, i) && (#[trigger] self.workers@[i]).worker_id@
                        == w@,
                Err(e) => self.workers@.len() == 0 && e == BalancerError::NoWorkersAvailable,
            },
    {
        if self.workers.len() == 0 {
            return Err(BalancerError::NoWorkersAvailable);
        }
        let mut best: usize = 0;
        let mut k: usize = 1;
        while k < self.workers.len()
            invariant
                0 <= best < k <= self.workers@.len(),
                forall|j: int|
                    0 <= j < k ==> (#[trigger] self.workers@[j]).tenant_count
                        >= self.workers@[best as int].tenant_count,
                forall|j: int|
                    0 <= j < best ==> (#[trigger] self.workers@[j]).tenant_count
                        > self.workers@[best as int].tenant_count,
            decreases self.workers@.len() - k,
        {
            if self.workers[k].tenant_count < self.workers[best].tenant_count {
                best = k;
            }
            k = k + 1;
        }
        proof {
            assert(first_min_by_count(self.workers@, best as int));
        }
        Ok(self.workers[best].worker_id.clone())
    }

    /// Least loaded: the first worker with the smallest load key.
    fn least_loaded_assignment(&self) -> (r: Result<String, BalancerError>)
        ensures
            match r {
                Ok(w) => exists|i: int|
                    first_min_by_load(self.workers@, i) && (#[trigger] self.workers@[i]).worker_id@
                        == w@,
                Err(e) => self.workers@.len() == 0 && e == BalancerError::NoWorkersAvailable,
            },
    {
        if self.workers.len() == 0 {
            return Err(BalancerError::NoWorkersAvailable);
        }
        let mut best: usize = 0;
        let mut best_key: u64 = load_key(&self.workers[0]);
        let mut k: usize = 1;
        while k < self.workers.len()
            invariant
                0 <= best < k <= self.workers@.len(),
                best_key == spec_load_key(self.workers@[best as int]),
                forall|j: int|
                    0 <= j < k ==> spec_load_key(#[trigger] self.workers@[j]) >= spec_load_key(
                        self.workers@[best as int],
                    ),
                forall|j: int|
                    0 <= j < best ==> spec_load_key(#[trigger] self.workers@[j]) > spec_load_key(
                        self.workers@[best as int],
                    ),
            decreases self.workers@.len() - k,
        {
            let key = load_key(&self.workers[k]);
            if key < best_key {
                best = k;
                best_key = key;
            }
            k = k + 1;
        }
        proof {
            assert(first_min_by_load(self.workers@, best as int));
        }
        Ok(self.workers[best].worker_id.clone())
    }

    /// Hash partition with affinity: a remembered, still registered worker
    /// wins; otherwise the tenant's hash indexes the sorted registry.
    fn consistent_hash_assignment(&self, tenant_id: u128) -> (r: Result<String, BalancerError>)
        requires
            self.wf(),
        ensures
            match r {
                Ok(w) => spec_ch_ok(*self, tenant_id, w@),
                Err(e) => self.workers@.len() == 0 && e == BalancerError::NoWorkersAvailable,
            },
    {
        match self.find_affinity(tenant_id) {
            Some(i) => {
                match self.find_worker(self.affinity[i].1.as_str()) {
                    Some(wi) => {
                        proof {
                            assert(self.workers@.contains(self.workers@[wi as int]));
                            assert(has_worker(self.workers@, self.affinity@[i as int].1@));
                        }
                        return Ok(self.affinity[i].1.clone());
                    },
                    None => {
                        proof {
                            if affinity_hit(self.affinity@, self.workers@, tenant_id) {
                                let k = choose|k: int|
                                    0 <= k < self.affinity@.len() && (#[trigger] self
                                        .affinity@[k]).0 == tenant_id && has_worker(
                                        self.workers@,
                                        self.affinity@[k].1@,
                                    );
                                assert(k == i);
                            }
                        }
                    },
                }
            },
            None => {},
        }
        if self.workers.len() == 0 {
            return Err(BalancerError::NoWorkersAvailable);
        }
        let h = tenant_hash64(tenant_id);
        let idx = (h % (self.workers.len() as u64)) as usize;
        Ok(self.workers[idx].worker_id.clone())
    }

    /// Activity-based: high-activity tenants go where there is headroom,
    /// the rest keep their affinity.
    fn activity_based_assignment(&self, tenant_id: u128) -> (r: Result<String, BalancerError>)
        requires
            self.wf(),
        ensures
            match r {
                Ok(w) => spec_ab_ok(*self, tenant_id, w@),
                Err(e) => self.workers@.len() == 0 && e == BalancerError::NoWorkersAvailable,
            },
    {
        match self.find_metrics(tenant_id) {
            Some(i) => {
                if self.tenant_metrics[i].activity_score() > 7000 {
                    proof {
                        assert(high_activity(self.tenant_metrics@, tenant_id));
                    }
                    return self.least_loaded_assignment();
                }
                proof {
                    if high_activity(self.tenant_metrics@, tenant_id) {
                        let k = choose|k: int|
                            0 <= k < self.tenant_metrics@.len() && (#[trigger] self
                                .tenant_metrics@[k]).tenant_id == tenant_id && spec_activity_score(
                                self.tenant_metrics@[k],
                            ) > 7000;
                        assert(k == i);
                    }
                }
                self.consistent_hash_assignment(tenant_id)
            },
            None => {
                proof {
                    if high_activity(self.tenant_metrics@, tenant_id) {
                        let k = choose|k: int|
                            0 <= k < self.tenant_metrics@.len() && (#[trigger] self
                                .tenant_metrics@[k]).tenant_id == tenant_id && spec_activity_score(
                                self.tenant_metrics@[k],
                            ) > 7000;
                        assert(has_metrics(self.tenant_metrics@, tenant_id));
                    }
                }
                self.consistent_hash_assignment(tenant_id)
            },
        }
    }

    /// Assign a tenant to a worker chosen by the configured strategy.
    ///
    /// On success the assignment table gains or replaces the tenant's entry
    /// (version bumped on replacement), the affinity map remembers the
    /// choice, and the chosen worker's tenant count rises by one. With no
    /// workers registered nothing changes and `NoWorkersAvailable` comes
    /// back.
    pub fn assign_tenant(&mut self, tenant_id: u128, now: u64) -> (r: Result<String, BalancerError>)
        requires
            old(self).wf(),
        ensures
            final(self).wf(),
            match r {
                Ok(w) => {
                    &&& spec_strategy_ok(*old(self), tenant_id, w@)
                    &&& has_worker(old(self).workers@, w@)
                    // the tenant's entry now binds it to the chosen worker
                    &&& has_assignment(final(self).assignments@, tenant_id)
                    &&& forall|k: int|
                        0 <= k < final(self).assignments@.len() && (#[trigger] final(self).assignments@[k]).tenant_id == tenant_id
                            ==> final(self).assignments@[k].worker_id@ == w@
                            && final(self).assignments@[k].assigned_at == now
                            && final(self).assignments@[k].reason == spec_assign_reason(old(self).config.strategy)
                            && final(self).assignments@[k].version == spec_next_version(old(self).assignments@, tenant_id)
                    // other tenants' entries are untouched
                    &&& forall|a: TenantAssignment|
                        #[trigger] final(self).assignments@.contains(a) && a.tenant_id != tenant_id
                            ==> old(self).assignments@.contains(a)
                    &&& forall|a: TenantAssignment|
                        #[trigger] old(self).assignments@.contains(a) && a.tenant_id != tenant_id
                            ==> final(self).assignments@.contains(a)
                    &&& final(self).assignments@.len() == old(self).assignments@.len() + (
                    if has_assignment(old(self).assignments@, tenant_id) {
                        0int
                    } else {
                        1int
                    })
                    // the affinity map remembers the choice
                    &&& has_affinity(final(self).affinity@, tenant_id)
                    &&& forall|k: int|
                        0 <= k < final(self).affinity@.len() && (#[trigger] final(self).affinity@[k]).0 == tenant_id
                            ==> final(self).affinity@[k].1@ == w@
                    &&& forall|p: (u128, String)|
                        #[trigger] final(self).affinity@.contains(p) && p.0 != tenant_id
                            ==> old(self).affinity@.contains(p)
                    &&& forall|p: (u128, String)|
                        #[trigger] old(self).affinity@.contains(p) && p.0 != tenant_id
                            ==> final(self).affinity@.contains(p)
                    // the chosen worker's tenant count rises by one
                    &&& final(self).workers@.len() == old(self).workers@.len()
                    &&& forall|k: int|
                        0 <= k < final(self).workers@.len() ==> #[trigger] final(self).workers@[k]
                            == (if old(self).workers@[k].worker_id@ == w@ {
                            WorkerMetrics {
                                worker_id: final(self).workers@[k].worker_id,
                                tenant_count: bump32(old(self).workers@[k].tenant_count),
                                ..old(self).workers@[k]
                            }
                        } else {
                            old(self).workers@[k]
                        })
                    &&& forall|k: int|
                        0 <= k < final(self).workers@.len() ==> (#[trigger] final(self).workers@[k]).worker_id@
                            == old(self).workers@[k].worker_id@
                },
                Err(e) => {
                    &&& e == BalancerError::NoWorkersAvailable
                    &&& old(self).workers@.len() == 0
                    &&& *final(self) == *old(self)
                },
            },
            final(self).tenant_metrics == old(self).tenant_metrics,
            final(self).config == old(self).config,
            final(self).last_rebalance == old(self).last_rebalance,
    {
        let picked_res = match self.config.strategy {
            LoadBalancingStrategy::RoundRobin => self.round_robin_assignment(),
            LoadBalancingStrategy::LeastLoaded => self.least_loaded_assignment(),
            LoadBalancingStrategy::ConsistentHashing => self.consistent_hash_assignment(tenant_id),
            LoadBalancingStrategy::ActivityBased => self.activity_based_assignment(tenant_id),
        };
        let picked = match picked_res {
            Ok(w) => w,
            Err(e) => {
                return Err(e);
            },
        };
        proof {
            // every strategy picks a registered worker
            if self.workers@.len() > 0 {
                match self.config.strategy {
                    LoadBalancingStrategy::ConsistentHashing => {
                        lemma_ch_registered(*self, tenant_id, picked@);
                    },
                    LoadBalancingStrategy::ActivityBased => {
                        lemma_ab_registered(*self, tenant_id, picked@);
                    },
                    _ => {},
                }
            } else {
                assert(false);
            }
        }
        let reason = match self.config.strategy {
            LoadBalancingStrategy::RoundRobin => AssignmentReason::Initial,
            LoadBalancingStrategy::LeastLoaded => AssignmentReason::LoadRebalance,
            LoadBalancingStrategy::ConsistentHashing => AssignmentReason::Initial,
            LoadBalancingStrategy::ActivityBased => AssignmentReason::LoadRebalance,
        };
        let version: u32 = match self.find_assignment(tenant_id) {
            Some(i) => {
                let v = self.assignments[i].version;
                proof {
                    let ci = assignment_index(self.assignments@, tenant_id);
                    assert(self.assignments@[ci].tenant_id == tenant_id);
                    assert(ci == i);
                }
                if v < u32::MAX {
                    v + 1
                } else {
                    v
                }
            },
            None => 1,
        };
        let record = TenantAssignment {
            tenant_id,
            worker_id: picked.clone(),
            assigned_at: now,
            version,
            reason,
        };
        vec_put_assignment(&mut self.assignments, record);
        vec_put_affinity(&mut self.affinity, tenant_id, picked.clone());
        match self.find_worker(picked.as_str()) {
            Some(wi) => {
                let ghost olds = self.workers@;
                let old_w = &self.workers[wi];
                let bumped = WorkerMetrics {
                    worker_id: old_w.worker_id.clone(),
                    tenant_count: if old_w.tenant_count < u32::MAX {
                        old_w.tenant_count + 1
                    } else {
                        old_w.tenant_count
                    },
                    cpu_usage: old_w.cpu_usage,
                    memory_usage: old_w.memory_usage,
                    rpc_rate: old_w.rpc_rate,
                    avg_processing_time_ms: old_w.avg_processing_time_ms,
                    errors_last_hour: old_w.errors_last_hour,
                    uptime_seconds: old_w.uptime_seconds,
                    collected_at: old_w.collected_at,
                };
                self.workers.set(wi, bumped);
                proof {
                    assert forall|k: int| 0 <= k < self.workers@.len() implies (#[trigger] self
                        .workers@[k]).worker_id@ == olds[k].worker_id@ by {}
                    assert(workers_distinct(self.workers@));
                    assert(workers_sorted(self.workers@));
                }
            },
            None => {
                proof {
                    assert(false);
                }
            },
        }
        Ok(picked)
    }
}

/// Assignment uniqueness: for every tenant, the assignments table of a
/// well-formed balancer holds at most one entry — any two indices carrying
/// the same tenant are the same index.
pub proof fn lemma_assignment_unique(lb: LoadBalancer, i: int, j: int)
    requires
        lb.wf(),
        0 <= i < lb.assignments@.len(),
        0 <= j < lb.assignments@.len(),
        lb.assignments@[i].tenant_id == lb.assignments@[j].tenant_id,
    ensures
        i == j,
{
}

/// Rebalance pacing: a rebalance stamps `last_rebalance` with its time, and
/// the pacing check admits the next one only once at least the configured minimum
/// interval has passed, so two admitted rebalances are at least that far apart.
pub proof fn lemma_rebalance_pacing(lb: LoadBalancer, t2: u64)
    requires
        spec_needs_rebalancing(lb, t2),
    ensures
        t2 - lb.last_rebalance >= lb.config.min_rebalance_interval_secs,
{
}

/// The hashing strategy only returns registered workers.
proof fn lemma_ch_registered(lb: LoadBalancer, t: u128, w: Seq<char>)
    requires
        lb.workers@.len() > 0,
        spec_ch_ok(lb, t, w),
    ensures
        has_worker(lb.workers@, w),
{
    if !affinity_hit(lb.affinity@, lb.workers@, t) {
        let h = hash64_of(canonical_id(t)) as int % lb.workers@.len() as int;
        assert(lb.workers@[h].worker_id@ == w);
    }
}

/// The activity strategy only returns registered workers.
proof fn lemma_ab_registered(lb: LoadBalancer, t: u128, w: Seq<char>)
    requires
        lb.workers@.len() > 0,
        spec_ab_ok(lb, t, w),
    ensures
        has_worker(lb.workers@, w),
{
    if high_activity(lb.tenant_metrics@, t) {
        let i = choose|i: int|
            first_min_by_load(lb.workers@, i) && (#[trigger] lb.workers@[i]).worker_id@ == w;
        assert(lb.workers@[i].worker_id@ == w);
    } else {
        lemma_ch_registered(lb, t, w);
    }
}

/// The load key a worker record carries, as executable arithmetic.
fn load_key(w: &WorkerMetrics) -> (k: u64)
    ensures
        k == spec_load_key(*w),
{
    100 * (w.cpu_usage as u64) + 100 * (w.memory_usage as u64) + (w.tenant_count as u64)
}

/// Replace or add the entry with this record's tenant in an assignment
/// table, keeping keys distinct.
fn vec_put_assignment(v: &mut Vec<TenantAssignment>, a: TenantAssignment)
    requires
        assignments_distinct(old(v)@),
    ensures
        assignments_distinct(final(v)@),
        has_assignment(final(v)@, a.tenant_id),
        forall|x: TenantAssignment|
            #[trigger] final(v)@.contains(x) && x.tenant_id == a.tenant_id ==> x == a,
        forall|x: TenantAssignment|
            #[trigger] final(v)@.contains(x) && x.tenant_id != a.tenant_id ==> old(v)@.contains(x),
        forall|x: TenantAssignment|
            #[trigger] old(v)@.contains(x) && x.tenant_id != a.tenant_id ==> final(v)@.contains(x),
        forall|k: int|
            0 <= k < final(v)@.len() && (#[trigger] final(v)@[k]).tenant_id == a.tenant_id ==> final(v)@[k] == a,
        final(v)@.len() == old(v)@.len() + (if has_assignment(old(v)@, a.tenant_id) {
            0int
        } else {
            1int
        }),
{
    let ghost olds = v@;
    let mut i: usize = 0;
    while i < v.len()
        invariant
            i <= v@.len(),
            v@ == olds,
            olds == old(v)@,
            assignments_distinct(olds),
            forall|j: int| 0 <= j < i ==> (#[trigger] olds[j]).tenant_id != a.tenant_id,
        decreases v@.len() - i,
    {
        if v[i].tenant_id == a.tenant_id {
            v.set(i, a);
            proof {
                let news = v@;
                assert(news[i as int] == a);
                assert forall|x: TenantAssignment|
                    #[trigger] news.contains(x) && x.tenant_id != a.tenant_id implies olds.contains(
                    x,
                ) by {
                    let j = choose|j: int| 0 <= j < news.len() && news[j] == x;
                    assert(olds[j] == x);
                }
                assert forall|x: TenantAssignment|
                    #[trigger] olds.contains(x) && x.tenant_id != a.tenant_id implies news.contains(
                    x,
                ) by {
                    let j = choose|j: int| 0 <= j < olds.len() && olds[j] == x;
                    assert(olds[i as int].tenant_id == a.tenant_id);
                    assert(news[j] == x);
                }
                assert forall|x: TenantAssignment|
                    #[trigger] news.contains(x) && x.tenant_id == a.tenant_id implies x == a by {
                    let j = choose|j: int| 0 <= j < news.len() && news[j] == x;
                    if j != i {
                        assert(olds[j] == x);
                        assert(olds[i as int].tenant_id == a.tenant_id);
                    }
                }
                assert forall|b: int, c: int| 0 <= b < c < news.len() implies (#[trigger] news[b]).tenant_id
                    != (#[trigger] news[c]).tenant_id by {
                    assert(olds[b].tenant_id != olds[c].tenant_id);
                    if b != i {
                        assert(news[b] == olds[b]);
                    }
                    if c != i {
                        assert(news[c] == olds[c]);
                    }
                }
            }
            return ;
        }
        i = i + 1;
    }
    v.push(a);
    proof {
        let news = v@;
        assert(news[news.len() - 1] == a);
        assert forall|x: TenantAssignment|
            #[trigger] news.contains(x) && x.tenant_id != a.tenant_id implies olds.contains(x) by {
            let j = choose|j: int| 0 <= j < news.len() && news[j] == x;
            assert(olds[j] == x);
        }
        assert forall|x: TenantAssignment| #[trigger] olds.contains(x) implies news.contains(x) by {
            let j = choose|j: int| 0 <= j < olds.len() && olds[j] == x;
            assert(news[j] == x);
        }
        assert forall|x: TenantAssignment|
            #[trigger] news.contains(x) && x.tenant_id == a.tenant_id implies x == a by {
            let j = choose|j: int| 0 <= j < news.len() && news[j] == x;
            if j < news.len() - 1 {
                assert(olds[j] == x);
            }
        }
        assert forall|b: int, c: int| 0 <= b < c < news.len() implies (#[trigger] news[b]).tenant_id
            != (#[trigger] news[c]).tenant_id by {
            if c == news.len() - 1 {
                assert(news[b] == olds[b]);
            } else {
                assert(news[b] == olds[b]);
                assert(news[c] == olds[c]);
            }
        }
    }
}

/// Replace or add the affinity entry for a tenant, keeping keys distinct.
fn vec_put_affinity(v: &mut Vec<(u128, String)>, t: u128, w: String)
    requires
        affinity_distinct(old(v)@),
    ensures
        affinity_distinct(final(v)@),
        has_affinity(final(v)@, t),
        forall|k: int|
            0 <= k < final(v)@.len() && (#[trigger] final(v)@[k]).0 == t ==> final(v)@[k].1@ == w@,
        forall|p: (u128, String)|
            #[trigger] final(v)@.contains(p) && p.0 != t ==> old(v)@.contains(p),
        forall|p: (u128, String)|
            #[trigger] old(v)@.contains(p) && p.0 != t ==> final(v)@.contains(p),
        final(v)@.len() == old(v)@.len() + (if has_affinity(old(v)@, t) {
            0int
        } else {
            1int
        }),
{
    let ghost olds = v@;
    let ghost wview = w@;
    let mut i: usize = 0;
    while i < v.len()
        invariant
            i <= v@.len(),
            v@ == olds,
            olds == old(v)@,
            w@ == wview,
            affinity_distinct(olds),
            forall|j: int| 0 <= j < i ==> (#[trigger] olds[j]).0 != t,
        decreases v@.len() - i,
    {
        if v[i].0 == t {
            v.set(i, (t, w));
            proof {
                let news = v@;
                assert(news[i as int].0 == t && news[i as int].1@ == wview);
                assert forall|p: (u128, String)|
                    #[trigger] news.contains(p) && p.0 != t implies olds.contains(p) by {
                    let j = choose|j: int| 0 <= j < news.len() && news[j] == p;
                    assert(olds[j] == p);
                }
                assert forall|p: (u128, String)|
                    #[trigger] olds.contains(p) && p.0 != t implies news.contains(p) by {
                    let j = choose|j: int| 0 <= j < olds.len() && olds[j] == p;
                    assert(olds[i as int].0 == t);
                    assert(news[j] == p);
                }
                assert forall|k: int| 0 <= k < news.len() && (#[trigger] news[k]).0 == t implies news[k].1@
                    == wview by {
                    if k != i {
                        assert(olds[k] == news[k]);
                        assert(olds[i as int].0 == t);
                    }
                }
                assert forall|b: int, c: int| 0 <= b < c < news.len() implies (#[trigger] news[b]).0
                    != (#[trigger] news[c]).0 by {
                    assert(olds[b].0 != olds[c].0);
                    if b != i {
                        assert(news[b] == olds[b]);
                    }
                    if c != i {
                        assert(news[c] == olds[c]);
                    }
                }
            }
            return ;
        }
        i = i + 1;
    }
    v.push((t, w));
    proof {
        let news = v@;
        assert(news[news.len() - 1].0 == t && news[news.len() - 1].1@ == wview);
        assert forall|p: (u128, String)|
            #[trigger] news.contains(p) && p.0 != t implies olds.contains(p) by {
            let j = choose|j: int| 0 <= j < news.len() && news[j] == p;
            assert(olds[j] == p);
        }
        assert forall|p: (u128, String)| #[trigger] olds.contains(p) implies news.contains(p) by {
            let j = choose|j: int| 0 <= j < olds.len() && olds[j] == p;
            assert(news[j] == p);
        }
        assert forall|k: int| 0 <= k < news.len() && (#[trigger] news[k]).0 == t implies news[k].1@
            == wview by {
            if k < news.len() - 1 {
                assert(olds[k] == news[k]);
            }
        }
        assert forall|b: int, c: int| 0 <= b < c < news.len() implies (#[trigger] news[b]).0
            != (#[trigger] news[c]).0 by {
            if c == news.len() - 1 {
                assert(news[b] == olds[b]);
            } else {
                assert(news[b] == olds[b]);
                assert(news[c] == olds[c]);
            }
        }
    }
}

} // verus!
