//! Key-value settings of the store.
use vstd::prelude::*;

use crate::documents::{meta_value, meta_written, read_meta, write_meta};
use crate::schema::{LEDGER_SCHEMA_VERSION, PROJECTION_VERSION};
use crate::tables::{MetaRowView, Tables, TablesView};
use crate::text::{int_text, show_i64};

verus! {

/// The value of a key.
pub fn get(db: &Tables, key: &str) -> (r: Option<String>)
    ensures
        r.deep_view() == meta_value(db.deep_view().meta, key@),
{
    read_meta(&db.meta, key)
}

/// Gives a key a value.
pub fn set(db: &mut Tables, key: &str, value: &str)
    ensures
        final(db).deep_view() == (TablesView {
            meta: meta_written(old(db).deep_view().meta, key@, value@),
            ..old(db).deep_view()
        }),
{
    write_meta(&mut db.meta, key, value);
}

/// The settings with a key set unless it has a value.
pub open spec fn with_default(
    meta: Seq<MetaRowView>,
    key: Seq<char>,
    value: Seq<char>,
) -> Seq<MetaRowView> {
    if meta_value(meta, key) is Some {
        meta
    } else {
        meta_written(meta, key, value)
    }
}

/// Records the schema versions unless they are on record.
pub fn ensure_schema_versions(db: &mut Tables)
    ensures
        final(db).deep_view() == (TablesView {
            meta: with_default(
                with_default(
                    old(db).deep_view().meta,
                    "ledger_schema_version"@,
                    int_text(LEDGER_SCHEMA_VERSION as int),
                ),
                "projection_version"@,
                int_text(PROJECTION_VERSION as int),
            ),
            ..old(db).deep_view()
        }),
{
    if get(db, "ledger_schema_version").is_none() {
        set(db, "ledger_schema_version", show_i64(LEDGER_SCHEMA_VERSION).as_str());
    }
    if get(db, "projection_version").is_none() {
        set(db, "projection_version", show_i64(PROJECTION_VERSION).as_str());
    }
}

} // verus!
