//! Exporter core for an identity-vault command-line service: parses the
//! tool's key-value, table and JSON outputs into typed records, aggregates
//! them into labelled gauge samples, and renders the registry in the
//! text exposition format.

use vstd::prelude::*;

pub mod text;
pub mod registry;
pub mod render;
pub mod utils;
pub mod json;
pub mod aggregate;
pub mod metrics_collector;
pub mod op;

verus! {

/// Errors raised while turning command output into records.
#[derive(Clone, Copy, Debug, PartialEq, Eq, Structural)]
pub enum ParseError {
    /// A parser could not locate an expected delimiter.
    MalformedRecord,
    /// Typed deserialization failed: a required field is missing or has
    /// the wrong type.
    SchemaMismatch,
}

} // verus!
