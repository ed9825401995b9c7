//! Sakur4 core: a cache-coherent context manager for long agent sessions.
//!
//! The crate holds the decisions: where an eviction boundary may fall so that an
//! inference server's cached prefix survives, which episodes leave the live window
//! and in what order, when a summary is stale and must not be believed, and how a
//! turn's context spend is accounted for. Storage, HTTP and scheduling live in the
//! application around it, which hands plain values in and carries decisions out.

pub mod cache;
pub mod consolidate;
pub mod embed;
pub mod engine;
pub mod error;
pub mod evict;
pub mod ids;
pub mod json;
pub mod lines;
pub mod llama;
pub mod memory;
pub mod order;
pub mod prompt;
pub mod provider_cache;
pub mod recall;
pub mod receipt;
pub mod summary;
pub mod text;
pub mod tokens;

use vstd::prelude::*;

verus! {

/// The revision of the tool protocol the gateway speaks.
pub const MCP_PROTOCOL_VERSION: &'static str = "2026-07-28";

/// The storage schema this build reads and writes.
pub const SCHEMA_VERSION: i64 = 1;

} // verus!
