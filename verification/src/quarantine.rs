//! Quarantine: extraction failures on record.
//!
//! Invalid claims that exhaust the repair loop are filed here, never silently
//! dropped.
use vstd::prelude::*;

use crate::rows::{dup_rows, find, order, ordered, select, some_where};
use crate::tables::{
    EpisodeRow, EpisodeRowView, ExtractionFailure, ExtractionFailureView, Tables, TablesView,
};
use crate::text::str_eq;
use crate::time::Timestamp;

verus! {

/// The greatest failure id, or zero where there is none.
pub open spec fn top_failure_id(rows: Seq<ExtractionFailureView>) -> int
    decreases rows.len(),
{
    if rows.len() == 0 {
        0
    } else {
        let top = top_failure_id(rows.drop_last());
        if rows.last().id > top {
            rows.last().id as int
        } else {
            top
        }
    }
}

/// Whether there is an id left for one more failure.
pub open spec fn failures_fit(rows: Seq<ExtractionFailureView>) -> bool {
    forall|i: int| 0 <= i < rows.len() ==> (#[trigger] rows[i]).id < i64::MAX
}

fn next_failure_id(rows: &Vec<ExtractionFailure>) -> (r: i64)
    requires
        failures_fit(rows.deep_view()),
    ensures
        r == top_failure_id(rows.deep_view()) + 1,
{
    let ghost all = rows.deep_view();
    let mut top: i64 = 0;
    let mut i: usize = 0;
    while i < rows.len()
        invariant
            i <= rows.len(),
            all == rows.deep_view(),
            failures_fit(all),
            top == top_failure_id(all.take(i as int)),
            0 <= top < i64::MAX,
        decreases rows.len() - i,
    {
        proof {
            assert(all.take(i + 1).drop_last() =~= all.take(i as int));
            assert(all.take(i + 1).last() == all[i as int]);
            assert(all[i as int].id < i64::MAX);
        }
        if rows[i].id > top {
            top = rows[i].id;
        }
        i = i + 1;
    }
    assert(all.take(i as int) =~= all);
    top + 1
}

/// Record an extraction failure. Returns its id, which no failure had.
pub fn record_failure(
    db: &mut Tables,
    episode_id: &str,
    extractor_id: &str,
    raw_response: &str,
    errors_json: &str,
    now: Timestamp,
) -> (r: i64)
    requires
        failures_fit(old(db).deep_view().failures),
    ensures
        r == top_failure_id(old(db).deep_view().failures) + 1,
        final(db).deep_view() == (TablesView {
            failures: old(db).deep_view().failures.push(
                ExtractionFailureView {
                    id: r,
                    episode_id: episode_id@,
                    extractor_id: extractor_id@,
                    raw_response: raw_response@,
                    errors_json: errors_json@,
                    created_at: now,
                },
            ),
            ..old(db).deep_view()
        }),
{
    let id: i64 = next_failure_id(&db.failures);
    let row = ExtractionFailure {
        id,
        episode_id: episode_id.to_owned(),
        extractor_id: extractor_id.to_owned(),
        raw_response: raw_response.to_owned(),
        errors_json: errors_json.to_owned(),
        created_at: now,
    };
    let ghost before = db.failures.deep_view();
    let ghost added = row.deep_view();
    db.failures.push(row);
    assert(db.failures.deep_view() =~= before.push(added));
    id
}

/// Selects the failures of the episodes of a space.
pub open spec fn failed_in(
    db: TablesView,
    space: Seq<char>,
) -> spec_fn(ExtractionFailureView) -> bool {
    |f: ExtractionFailureView| some_where(db.episodes, is_episode_in(f.episode_id, space))
}

/// Selects an episode of a space by id.
pub open spec fn is_episode_in(id: Seq<char>, space: Seq<char>) -> spec_fn(EpisodeRowView) -> bool {
    |e: EpisodeRowView| e.id == id && e.space == space
}

/// The order of failures: the most recent first.
pub open spec fn by_latest_failure() -> spec_fn(
    ExtractionFailureView,
    ExtractionFailureView,
) -> bool {
    |a: ExtractionFailureView, b: ExtractionFailureView| a.created_at.0 >= b.created_at.0
}

/// List extraction failures, most recent first, of one space where one is given.
pub fn list_failures(db: &Tables, space: Option<&str>) -> (r: Vec<ExtractionFailure>)
    ensures
        r.deep_view() == ordered(
            match space {
                Some(s) => db.deep_view().failures.filter(failed_in(db.deep_view(), s@)),
                None => db.deep_view().failures,
            },
            by_latest_failure(),
        ),
{
    let ghost view = db.deep_view();
    let found = match space {
        None => dup_rows(&db.failures),
        Some(s) => select(
            &db.failures,
            |f: &ExtractionFailure| -> (b: bool)
                ensures
                    b == failed_in(view, s@)(f.deep_view())
                {
                    let hit = find(
                        &db.episodes,
                        |e: &EpisodeRow| -> (b: bool)
                            ensures
                                b == is_episode_in(f.episode_id@, s@)(e.deep_view())
                            {
                                str_eq(e.id.as_str(), f.episode_id.as_str()) && str_eq(
                                    e.space.as_str(),
                                    s,
                                )
                            },
                        Ghost(is_episode_in(f.episode_id@, s@)),
                    );
                    hit.is_some()
                },
            Ghost(failed_in(view, s@)),
        ),
    };
    order(
        found,
        |a: &ExtractionFailure, b: &ExtractionFailure| -> (le: bool)
            ensures
                le == by_latest_failure()(a.deep_view(), b.deep_view())
            { a.created_at.0 >= b.created_at.0 },
        Ghost(by_latest_failure()),
    )
}

} // verus!
