//! Forward-only migrations: which steps a database of some version needs.
use vstd::prelude::*;

use crate::error::{fails_with, BrainError, BrainErrorView};

verus! {

/// What a migration step does besides its schema text.
#[derive(Debug, Clone, Copy, PartialEq, Eq, Structural)]
pub enum MigrationWork {
    /// Nothing more.
    SchemaOnly,
    /// Afterwards the core predicates are seeded.
    SeedPredicates,
    /// The vector extension is registered first.
    RegisterVectors,
    /// The vector extension is registered, the single-precision entity vectors
    /// are read before the schema changes and written back quantized.
    QuantizeVectors,
    /// Afterwards the full-text indexes of every space are rebuilt.
    RebuildIndexes,
}

/// One migration step: the version that it leads to, and its work.
#[derive(Debug, Clone, Copy, PartialEq, Eq, Structural)]
pub struct MigrationStep {
    pub version: i64,
    pub work: MigrationWork,
}

/// The work of the step to a version of the ledger.
pub open spec fn ledger_work(version: int) -> MigrationWork {
    if version == 2 {
        MigrationWork::SeedPredicates
    } else if version == 5 {
        MigrationWork::RegisterVectors
    } else if version == 12 {
        MigrationWork::QuantizeVectors
    } else if version == 13 {
        MigrationWork::RebuildIndexes
    } else {
        MigrationWork::SchemaOnly
    }
}

fn work_of(version: i64) -> (r: MigrationWork)
    ensures
        r == ledger_work(version as int),
{
    if version == 2 {
        MigrationWork::SeedPredicates
    } else if version == 5 {
        MigrationWork::RegisterVectors
    } else if version == 12 {
        MigrationWork::QuantizeVectors
    } else if version == 13 {
        MigrationWork::RebuildIndexes
    } else {
        MigrationWork::SchemaOnly
    }
}

/// The first version that a database lacks.
pub open spec fn first_missing(current: i64) -> int {
    if current < 1 {
        1
    } else {
        current + 1
    }
}

/// The versions that a database must still be taken to, in order; a database
/// that is newer than the latest version is an error.
pub fn pending_versions(current: i64, latest: i64) -> (r: Result<Vec<i64>, BrainError>)
    requires
        1 <= latest < i64::MAX,
    ensures
        if current > latest {
            fails_with(r, BrainErrorView::Migration { found: current, expected: latest })
        } else {
            r is Ok && r->Ok_0@ == Seq::new(
                (latest + 1 - first_missing(current)) as nat,
                |i: int| (first_missing(current) + i) as i64,
            )
        },
{
    if current > latest {
        return Err(BrainError::Migration { found: current, expected: latest });
    }
    let start: i64 = if current < 1 {
        1
    } else {
        current + 1
    };
    let mut out: Vec<i64> = Vec::new();
    let mut v: i64 = start;
    while v <= latest
        invariant
            1 <= start <= v <= latest + 1,
            latest < i64::MAX,
            out@.len() == v - start,
            forall|i: int| 0 <= i < out@.len() ==> #[trigger] out@[i] == start + i,
        decreases latest + 1 - v,
    {
        out.push(v);
        v = v + 1;
    }
    assert(out@ =~= Seq::new(
        (latest + 1 - first_missing(current)) as nat,
        |i: int| (first_missing(current) + i) as i64,
    ));
    Ok(out)
}

/// The steps that take a ledger of some version to the current schema, in
/// order. Each is done only where the ledger is older than its version.
pub fn run(current: i64) -> (r: Result<Vec<MigrationStep>, BrainError>)
    ensures
        if current > crate::schema::LEDGER_SCHEMA_VERSION {
            fails_with(
                r,
                BrainErrorView::Migration {
                    found: current,
                    expected: crate::schema::LEDGER_SCHEMA_VERSION,
                },
            )
        } else {
            r is Ok && r->Ok_0@ == ledger_steps(current)
        },
{
    let versions = match pending_versions(current, crate::schema::LEDGER_SCHEMA_VERSION) {
        Ok(v) => v,
        Err(e) => {
            return Err(e);
        },
    };
    let mut out: Vec<MigrationStep> = Vec::new();
    let mut i: usize = 0;
    while i < versions.len()
        invariant
            i <= versions.len(),
            out@.len() == i,
            forall|k: int|
                0 <= k < i ==> #[trigger] out@[k] == (MigrationStep {
                    version: versions@[k],
                    work: ledger_work(versions@[k] as int),
                }),
        decreases versions.len() - i,
    {
        out.push(MigrationStep { version: versions[i], work: work_of(versions[i]) });
        i = i + 1;
    }
    assert(out@ =~= ledger_steps(current));
    Ok(out)
}

/// The steps from a version to the current schema.
pub open spec fn ledger_steps(current: i64) -> Seq<MigrationStep> {
    Seq::new(
        (crate::schema::LEDGER_SCHEMA_VERSION + 1 - first_missing(current)) as nat,
        |i: int|
            MigrationStep {
                version: (first_missing(current) + i) as i64,
                work: ledger_work(first_missing(current) + i),
            },
    )
}

/// A fresh ledger is taken through every version to the current one; one that
/// is current needs nothing.
pub proof fn law_migration_ends_at_current(current: i64)
    requires
        current <= crate::schema::LEDGER_SCHEMA_VERSION,
    ensures
        current < crate::schema::LEDGER_SCHEMA_VERSION ==> ledger_steps(current).len() > 0
            && ledger_steps(current).last().version == crate::schema::LEDGER_SCHEMA_VERSION,
        current == crate::schema::LEDGER_SCHEMA_VERSION ==> ledger_steps(current).len() == 0,
        forall|i: int|
            0 <= i < ledger_steps(current).len() ==> current < (#[trigger] ledger_steps(
                current,
            )[i]).version,
{
}

} // verus!
