//! Metrics records for tenants, workers and the whole system.
//!
//! Scores are exact fixed-point integers: activity and load scores range over
//! 0..=10000 (ten-thousandths stand for the unit interval), percentages over
//! 0..=100, and rates are whole units. This keeps every derived quantity free
//! of rounding so that the balancer's decisions are fully specified.

use vstd::prelude::*;

verus! {

/// `x` capped from above at `c`.
pub open spec fn cap(x: int, c: int) -> int {
    if x > c {
        c
    } else {
        x
    }
}

/// Tenant activity metrics.
#[derive(Debug, Clone)]
pub struct TenantMetrics {
    /// Tenant identifier.
    pub tenant_id: u128,
    /// Number of active monitors.
    pub monitors_count: u32,
    /// Average RPC calls per minute.
    pub avg_rpc_calls_per_minute: u32,
    /// Average filter complexity score.
    pub avg_filter_complexity: u32,
    /// Total matches in the last hour.
    pub total_matches_last_hour: u32,
    /// Total notifications sent in the last hour.
    pub notifications_sent_last_hour: u32,
    /// Last activity timestamp, in seconds.
    pub last_active: u64,
    /// Metrics collection timestamp, in seconds.
    pub collected_at: u64,
}

/// The activity score in ten-thousandths of the unit interval:
/// `0.4 * min(1, rpc/100) + 0.3 * min(1, complexity/10) + 0.3 * min(1, matches/1000)`.
pub open spec fn spec_activity_score(m: TenantMetrics) -> int {
    40 * cap(m.avg_rpc_calls_per_minute as int, 100) + 300 * cap(
        m.avg_filter_complexity as int,
        10,
    ) + 3 * cap(m.total_matches_last_hour as int, 1000)
}

impl TenantMetrics {
    /// Calculate the activity score (0 to 10000 for 0.0 to 1.0).
    pub fn activity_score(&self) -> (s: u32)
        ensures
            s == spec_activity_score(*self),
            s <= 10000,
    {
        let rpc = if self.avg_rpc_calls_per_minute > 100 {
            100
        } else {
            self.avg_rpc_calls_per_minute
        };
        let complexity = if self.avg_filter_complexity > 10 {
            10
        } else {
            self.avg_filter_complexity
        };
        let matches = if self.total_matches_last_hour > 1000 {
            1000
        } else {
            self.total_matches_last_hour
        };
        40 * rpc + 300 * complexity + 3 * matches
    }
}

/// If one tenant's raw metrics are at most another's component-wise, its
/// activity score is at most the other's.
pub proof fn lemma_activity_score_monotone(m1: TenantMetrics, m2: TenantMetrics)
    requires
        m1.avg_rpc_calls_per_minute <= m2.avg_rpc_calls_per_minute,
        m1.avg_filter_complexity <= m2.avg_filter_complexity,
        m1.total_matches_last_hour <= m2.total_matches_last_hour,
    ensures
        spec_activity_score(m1) <= spec_activity_score(m2),
{
}

/// Worker performance metrics.
#[derive(Debug, Clone)]
pub struct WorkerMetrics {
    /// Worker identifier.
    pub worker_id: String,
    /// Number of assigned tenants.
    pub tenant_count: u32,
    /// CPU usage percentage (0 to 100).
    pub cpu_usage: u32,
    /// Memory usage percentage (0 to 100).
    pub memory_usage: u32,
    /// RPC calls per second.
    pub rpc_rate: u32,
    /// Average block processing time in milliseconds.
    pub avg_processing_time_ms: u32,
    /// Number of errors in the last hour.
    pub errors_last_hour: u32,
    /// Worker uptime in seconds.
    pub uptime_seconds: u64,
    /// Metrics collection timestamp, in seconds.
    pub collected_at: u64,
}

/// The load score in ten-thousandths of the unit interval:
/// `min(1, 0.4 * cpu/100 + 0.4 * mem/100 + 0.2 * min(1, tenants/50))`.
pub open spec fn spec_load_score(m: WorkerMetrics) -> int {
    cap(
        40 * m.cpu_usage as int + 40 * m.memory_usage as int + 40 * cap(m.tenant_count as int, 50),
        10000,
    )
}

/// A worker is healthy when CPU and memory stay under ninety percent and it
/// saw fewer than ten errors in the last hour.
pub open spec fn spec_worker_healthy(m: WorkerMetrics) -> bool {
    m.cpu_usage < 90 && m.memory_usage < 90 && m.errors_last_hour < 10
}

impl WorkerMetrics {
    /// Calculate the worker load score (0 to 10000 for 0.0 to 1.0).
    pub fn load_score(&self) -> (s: u32)
        ensures
            s == spec_load_score(*self),
            s <= 10000,
    {
        let tenants = if self.tenant_count > 50 {
            50
        } else {
            self.tenant_count
        };
        let raw: u64 = 40 * (self.cpu_usage as u64) + 40 * (self.memory_usage as u64) + 40 * (
        tenants as u64);
        if raw > 10000 {
            10000
        } else {
            raw as u32
        }
    }

    /// Check if the worker is healthy.
    pub fn is_healthy(&self) -> (h: bool)
        ensures
            h == spec_worker_healthy(*self),
    {
        self.cpu_usage < 90 && self.memory_usage < 90 && self.errors_last_hour < 10
    }
}

/// System-wide metrics.
#[derive(Debug, Clone)]
pub struct SystemMetrics {
    /// Total active workers.
    pub active_workers: u32,
    /// Total active tenants.
    pub active_tenants: u32,
    /// Total monitors being processed.
    pub total_monitors: u32,
    /// System-wide RPC rate, calls per second.
    pub total_rpc_rate: u32,
    /// Cache hit rate in thousandths (0 to 1000 for 0.0 to 1.0).
    pub cache_hit_rate_milli: u32,
    /// Average block lag per network, in blocks.
    pub avg_block_lag: u32,
    /// Total matches in the last hour.
    pub total_matches_last_hour: u32,
    /// System health score (0 to 100).
    pub health_score: u32,
    /// Metrics collection timestamp, in seconds.
    pub collected_at: u64,
}

/// The health score: start from 100 and deduct for block lag, a poor cache
/// hit rate, and too many tenants per worker.
pub open spec fn spec_health_score(m: SystemMetrics) -> int {
    let lag_penalty: int = if m.avg_block_lag > 100 {
        20
    } else if m.avg_block_lag > 50 {
        10
    } else {
        0
    };
    let cache_penalty: int = if m.cache_hit_rate_milli < 500 {
        20
    } else if m.cache_hit_rate_milli < 700 {
        10
    } else {
        0
    };
    let crowd_penalty: int = if m.active_tenants > 60 * cap_below(m.active_workers as int, 1) {
        15
    } else {
        0
    };
    100 - lag_penalty - cache_penalty - crowd_penalty
}

/// `x` raised from below to at least `c`.
pub open spec fn cap_below(x: int, c: int) -> int {
    if x < c {
        c
    } else {
        x
    }
}

impl SystemMetrics {
    /// Check if the system is healthy.
    pub fn is_healthy(&self) -> (h: bool)
        ensures
            h == (self.health_score >= 70),
    {
        self.health_score >= 70
    }

    /// Recompute the health score from the other fields; nothing else
    /// changes.
    pub fn calculate_health_score(&mut self)
        ensures
            final(self).health_score == spec_health_score(*old(self)),
            *final(self) == (SystemMetrics { health_score: final(self).health_score, ..*old(self) }),
    {
        let mut score: u32 = 100;
        if self.avg_block_lag > 100 {
            score = score - 20;
        } else if self.avg_block_lag > 50 {
            score = score - 10;
        }
        if self.cache_hit_rate_milli < 500 {
            score = score - 20;
        } else if self.cache_hit_rate_milli < 700 {
            score = score - 10;
        }
        let workers_floor: u32 = if self.active_workers < 1 {
            1
        } else {
            self.active_workers
        };
        // Deduct when the ratio of tenants to workers exceeds sixty,
        // compared exactly as active_tenants > 60 * workers.
        if (self.active_tenants as u64) > 60 * (workers_floor as u64) {
            score = score - 15;
        }
        self.health_score = score;
    }
}

} // verus!
