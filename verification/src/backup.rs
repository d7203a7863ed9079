//! What a backup holds.
use vstd::prelude::*;

verus! {

/// What a backup was made of, and when.
#[derive(Debug, Clone, Copy, PartialEq, Eq, Structural)]
pub struct BackupManifest {
    pub ledger_schema_version: i64,
    pub projection_version: i64,
    pub include_projection: bool,
    pub include_cache: bool,
    pub created_at: i64,
}

} // verus!
