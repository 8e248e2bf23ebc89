//! Configuration of the queue-worker and external triggers.

use vstd::prelude::*;

verus! {

/// Configuration for the queue-worker trigger.
pub struct WorkerTriggerConfig {
    /// Component ID to invoke.
    pub component: String,
}

/// Configuration for an externally hosted trigger.
pub struct ExternalTriggerConfig {
    /// Component ID to invoke.
    pub component: String,
    /// Trigger-specific settings, as key-value pairs.
    pub settings: Vec<(String, String)>,
}

} // verus!
