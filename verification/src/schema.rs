//! Schema versions and connection settings.
use vstd::prelude::*;

verus! {

/// The schema version that every migration leads up to.
pub const LEDGER_SCHEMA_VERSION: i64 = 13;

/// The version of the projection.
pub const PROJECTION_VERSION: i64 = 1;

/// The settings that every connection gets, in order.
pub fn pragmas() -> (r: [&'static str; 4])
    ensures
        r@ == seq![
            "PRAGMA journal_mode=WAL;",
            "PRAGMA foreign_keys=ON;",
            "PRAGMA busy_timeout=5000;",
            "PRAGMA synchronous=NORMAL;",
        ],
{
    let r: [&'static str; 4] = [
        "PRAGMA journal_mode=WAL;",
        "PRAGMA foreign_keys=ON;",
        "PRAGMA busy_timeout=5000;",
        "PRAGMA synchronous=NORMAL;",
    ];
    assert(r@ =~= seq![
        "PRAGMA journal_mode=WAL;",
        "PRAGMA foreign_keys=ON;",
        "PRAGMA busy_timeout=5000;",
        "PRAGMA synchronous=NORMAL;",
    ]);
    r
}

} // verus!
