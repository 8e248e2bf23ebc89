//! Host-side resource and streaming bridge layer for a sandboxed
//! component-execution runtime.
//!
//! The library exposes external resources (blob containers, key-value
//! stores, connections) to untrusted guest code through opaque handles,
//! gated by per-component capability checks, and reconciles host-native
//! asynchronous primitives with the guest's cooperative, poll-driven
//! consumption model.
//!
//! The mechanisms, leaves first: [`table`] holds the capacity-bounded
//! handle arena; [`gate`] the memoized per-component capability gate;
//! [`manager`] the label-to-backend delegation; [`bridge`] the
//! poll-protocol state machines; [`transfer`] the block-commit upload
//! and ranged download; [`memory_store`] the in-memory backend; and
//! [`dispatch`] composes them into the guest-facing operation set.

pub mod assoc;
pub mod azure_store;
pub mod bridge;
pub mod cli;
pub mod dispatch;
pub mod errors;
pub mod http_config;
pub mod llm;
pub mod locked;
pub mod gate;
pub mod manager;
pub mod memory_store;
pub mod pg;
pub mod postgres_values;
pub mod rdbms_values;
pub mod schema;
pub mod sqlite_config;
pub mod sqlite_values;
pub mod table;
pub mod trigger_config;
pub mod transfer;

pub use errors::Error;
