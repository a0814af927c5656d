//! Tenant records: identity, status and priority.

use vstd::prelude::*;

verus! {

/// Tenant status.
#[derive(Debug, Clone, Copy, PartialEq, Eq, Structural)]
pub enum TenantStatus {
    /// Tenant is active and can process monitors.
    Active,
    /// Tenant is suspended, for instance for non-payment.
    Suspended,
    /// Tenant is in trial period.
    Trial,
    /// Tenant is inactive.
    Inactive,
}

/// Tenant priority level.
#[derive(Debug, Clone, Copy, PartialEq, Eq, Structural)]
pub enum TenantPriority {
    /// Highest priority, for instance enterprise customers.
    Critical,
    /// High priority.
    High,
    /// Normal priority (default).
    Normal,
    /// Low priority, for instance the free tier.
    Low,
}

impl Default for TenantPriority {
    /// Normal priority is the stock level.
    fn default() -> (p: Self)
        ensures
            p == TenantPriority::Normal,
    {
        TenantPriority::Normal
    }
}

/// Tenant information.
#[derive(Debug, Clone)]
pub struct TenantInfo {
    /// Unique tenant identifier.
    pub id: u128,
    /// Tenant name.
    pub name: String,
    /// Tenant status.
    pub status: TenantStatus,
    /// Tenant priority.
    pub priority: TenantPriority,
    /// Maximum monitors allowed.
    pub max_monitors: usize,
    /// Maximum RPC requests per minute.
    pub max_rpc_requests_per_minute: u32,
    /// Creation timestamp, in seconds.
    pub created_at: u64,
    /// Last activity timestamp, in seconds.
    pub last_active_at: u64,
}

/// The numeric rank of a priority, 4 for the most urgent down to 1.
pub open spec fn spec_priority_value(p: TenantPriority) -> u8 {
    match p {
        TenantPriority::Critical => 4,
        TenantPriority::High => 3,
        TenantPriority::Normal => 2,
        TenantPriority::Low => 1,
    }
}

impl TenantInfo {
    /// A tenant processes monitors while active or in trial.
    pub fn is_active(&self) -> (b: bool)
        ensures
            b == (self.status == TenantStatus::Active || self.status == TenantStatus::Trial),
    {
        match self.status {
            TenantStatus::Active => true,
            TenantStatus::Trial => true,
            _ => false,
        }
    }

    /// Get the priority as a numeric value.
    pub fn priority_value(&self) -> (v: u8)
        ensures
            v == spec_priority_value(self.priority),
    {
        match self.priority {
            TenantPriority::Critical => 4,
            TenantPriority::High => 3,
            TenantPriority::Normal => 2,
            TenantPriority::Low => 1,
        }
    }
}

/// Validation errors over the model records.
#[derive(Debug, Clone)]
pub enum ModelError {
    /// Invalid tenant identifier.
    InvalidTenantId(u128),
    /// Invalid worker identifier.
    InvalidWorkerId(String),
    /// Invalid metric value: field name and offending value.
    InvalidMetric(String, String),
    /// Invalid priority value.
    InvalidPriority(u8),
    /// Invalid status name.
    InvalidStatus(String),
    /// Other validation failure.
    ValidationError(String),
}

} // verus!
