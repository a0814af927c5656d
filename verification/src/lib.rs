//! Multi-tenant orchestrator core for blockchain monitoring.
//!
//! The crate verifies the logic that the orchestrator is built around: the
//! shared block watcher's scan planning and cursor discipline, the tenant to
//! worker load balancer, the repository view that filters configuration by
//! tenant, the monitor match pipeline decisions, and the worker pool state.
//! I/O (database, cache, RPC, channels) lives in the surrounding application,
//! which feeds plain values into these functions and carries their results out.

pub mod assignment;
pub mod balancer;
pub mod cache;
pub mod clock;
pub mod config;
pub mod hashing;
pub mod metrics;
pub mod model;
pub mod repository;
pub mod services;
pub mod tables;
pub mod tenant;
pub mod watcher;
pub mod worker_pool;
pub mod text;
