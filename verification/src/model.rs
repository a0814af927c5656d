//! The canonical monitor, trigger and script records that tenants author.

use vstd::prelude::*;

verus! {

/// An executable predicate that decides whether a match stands.
#[derive(Debug, Clone)]
pub struct TriggerCondition {
    /// Reference resolving to the script's content.
    pub script_path: String,
    /// Language tag the executor factory dispatches on.
    pub language: String,
    /// Per-condition execution timeout in milliseconds.
    pub timeout_ms: u32,
    /// Optional argument list handed to the script.
    pub arguments: Option<Vec<String>>,
}

/// A watched address, optionally carrying a contract interface spec.
#[derive(Debug, Clone)]
pub struct MonitorAddress {
    /// The address being watched.
    pub address: String,
    /// The contract interface spec, as an opaque blob, if one is attached.
    pub contract_spec: Option<String>,
}

/// A tenant-authored declaration of what to watch and how.
#[derive(Debug, Clone)]
pub struct Monitor {
    /// Monitor name, unique per tenant.
    pub name: String,
    /// Slugs of the networks the monitor applies to.
    pub networks: Vec<String>,
    /// Watched addresses.
    pub addresses: Vec<MonitorAddress>,
    /// Names of the triggers to run on a match.
    pub triggers: Vec<String>,
    /// Conditions gating each match; empty means every match passes.
    pub trigger_conditions: Vec<TriggerCondition>,
}

/// A tenant-authored action to perform when a monitor matches.
#[derive(Debug, Clone)]
pub struct Trigger {
    /// Trigger name, unique per tenant.
    pub name: String,
    /// Type tag.
    pub trigger_type: String,
    /// Opaque configuration blob.
    pub configuration: String,
}

} // verus!
