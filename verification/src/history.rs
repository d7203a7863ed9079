//! Why a replay of the ledger gives the projection back, whatever happened.
use vstd::prelude::*;

use crate::extraction::{
    inherited_trust, is_response, primary_episode, with_ingested, with_response,
};
use crate::knowledge::{
    assertion_has_id, entity_has_id, entity_id_of, statement_has_id,
};
use crate::ledger::{
    content_of, entity_in, episode_has_id, episode_in, has_content, with_space, SourceRefView,
};
use crate::parting::{
    is_local, lemma_claims_parts, lemma_filter_within, lemma_filters_commute, lemma_found_within,
    lemma_projected_parts, lemma_same_filter, lemma_unredacted_parts, names_at_home,
    other_assertion, other_belief, other_entity, other_key, other_mention, other_merge,
    other_statement, rows_of, without, Rows,
};
use crate::rebuild::{
    after_folds, declared, entry_step, extracted, followed, lemma_claims_keep_predicates,
    lemma_extracts_over, lemma_first_stays, lemma_folds_over, lemma_found, lemma_predicates_stay,
    lemma_projection_keeps_ledger, lemma_projects_over, lemma_refolds_over, over, projected,
    replayed, response_of, run_of, scoped, unredacted, with_entry, Entry, Extracted, Outside,
};
use crate::redaction::{
    after_redaction, after_replay, asserted_by, assertion_id_of, asserts_any, blanked, closure_of,
    episode_closure, episode_id_of, extracted_from, extracted_from_any, groups_to_refold,
    is_live_among, is_nothing, lemma_all_kept, lemma_kept, lemma_none_kept, lemma_picked, purged,
    recorded, redaction_has_id, refolds_after, refolds_after_replay, refolds_for, space_assertions,
    space_entities, space_episodes, space_statements, statement_id_of, statement_in, tombstone,
    RedactTargetView, RefoldView,
};
use crate::reproject::{
    cleared, declaration_step, declaration_steps, extraction_step, extraction_steps,
    is_replayed_declaration, is_replayed_extraction, is_replayed_primary, merged, projected_steps,
    rebuild_step, redaction_steps, replay_steps, space_id_of, step_time, with_source,
    ReplayStepView,
};
use crate::rows::{
    distinct, first_where, lemma_first_where, lemma_updated_filter, some_where, updated,
};
use crate::tables::{
    AssertionView, BeliefView, EntityKeyView, EntityMergeView, EntityView, EpisodeRowView,
    ExtractionRowView, MentionView, StatementView, TablesView, TrustTier,
};
use crate::time::Timestamp;

verus! {

/// What a step reads of the ledger is on record: the text of a declaration, or
/// the episode of a response.
pub open spec fn on_record(db: TablesView, step: ReplayStepView, o: Outside) -> bool {
    match step {
        ReplayStepView::Declaration { space, content, at: _ } => some_where(
            db.episodes,
            has_content(space, (o.hash)(content)),
        ),
        ReplayStepView::Extraction { space, episode, .. } => some_where(
            db.episodes,
            |e: EpisodeRowView| e.id == episode && e.space == space,
        ),
        _ => true,
    }
}

/// Whether two ledgers tell a step the same.
pub open spec fn same_record(
    a: TablesView,
    b: TablesView,
    step: ReplayStepView,
    o: Outside,
) -> bool {
    &&& on_record(a, step, o)
    &&& on_record(b, step, o)
    &&& match step {
        ReplayStepView::Declaration { space, content, at: _ } => {
            let p = has_content(space, (o.hash)(content));
            first_where(a.episodes, p)->Some_0.id == first_where(b.episodes, p)->Some_0.id
        },
        ReplayStepView::Extraction { episode, .. } => {
            let p = episode_has_id(episode);
            inherited_trust(first_where(a.episodes, p)->Some_0) == inherited_trust(
                first_where(b.episodes, p)->Some_0,
            )
        },
        _ => true,
    }
}

/// Whether a step that replays the redaction of an episode finds nothing that the
/// episode asserts.
pub open spec fn is_calm(db: TablesView, step: ReplayStepView, o: Outside) -> bool {
    step matches ReplayStepView::Redaction { target_json, .. } ==> (o.target)(
        target_json,
    ) matches Some(RedactTargetView::Episode { id }) ==> !some_where(
        db.assertions,
        asserted_by(id),
    )
}

/// Whether each step is so when its turn comes.
pub open spec fn calm(db: TablesView, steps: Seq<ReplayStepView>, o: Outside) -> bool
    decreases steps.len(),
{
    steps.len() == 0 || {
        &&& calm(db, steps.drop_last(), o)
        &&& is_calm(replayed(db, steps.drop_last(), o)->Some_0, steps.last(), o)
    }
}

/// Replaying the redaction of an entity reads and writes the projection alone.
proof fn lemma_unredacted_over(
    ledger: TablesView,
    p: TablesView,
    space: Seq<char>,
    entity: Seq<char>,
    predicate: Option<Seq<char>>,
    at: Timestamp,
    o: Outside,
)
    ensures
        ({
            let t = scoped(space, entity, predicate);
            unredacted(over(ledger, p), t, at, o) == match unredacted(p, t, at, o) {
                Some(q) => Some(over(ledger, q)),
                None => None,
            }
        }),
{
    let t = scoped(space, entity, predicate);
    let a = over(ledger, p);
    assert(closure_of(a, t) == closure_of(p, t));
    assert(after_replay(a, t) =~= over(ledger, after_replay(p, t)));
    let r = after_replay(p, t);
    assert(groups_to_refold(over(ledger, r), t) == groups_to_refold(r, t));
    let (s, pairs) = groups_to_refold(r, t);
    lemma_refolds_over(ledger, r, s, pairs, at);
    if let Ok(refolds) = refolds_after_replay(p, t, at) {
        lemma_folds_over(ledger, r, refolds, o);
    }
}

/// Replaying the redaction of an episode that asserts nothing, or of a space,
/// changes nothing.
pub proof fn lemma_nothing_to_redact(db: TablesView, t: RedactTargetView, at: Timestamp, o: Outside)
    requires
        t matches RedactTargetView::Episode { id } ==> !some_where(db.assertions, asserted_by(id)),
        t is Episode || t is Space,
    ensures
        unredacted(db, t, at, o) == Some(db),
{
    if let RedactTargetView::Episode { id } = t {
        assert forall|i: int| 0 <= i < db.assertions.len() implies !asserted_by(id)(
            #[trigger] db.assertions[i],
        ) by {}
        lemma_none_kept(db.assertions, asserted_by(id));
        assert(closure_of(db, t).assertions.len() == 0);
    }
    assert(after_folds(db, Seq::<RefoldView>::empty(), o) =~= db);
}

/// A step does the same over every ledger that tells it the same.
proof fn lemma_step_over(
    a: TablesView,
    b: TablesView,
    p: TablesView,
    step: ReplayStepView,
    o: Outside,
)
    requires
        same_record(a, b, step, o),
        is_calm(p, step, o),
    ensures
        followed(over(b, p), step, o) == match followed(over(a, p), step, o) {
            Some(q) => Some(over(b, q)),
            None => None,
        },
        followed(over(a, p), step, o) matches Some(q) ==> over(a, q) == q,
{
    let x = over(a, p);
    let y = over(b, p);
    match step {
        ReplayStepView::Declaration { space, content, at } => {
            let e = Entry { space, decl: (o.read)(content), content, at };
            let q = has_content(space, (o.hash)(content));
            assert(with_entry(x, e, o) == x);
            assert(with_entry(y, e, o) == y);
            let run = run_of(x, e, o);
            assert(run_of(y, e, o) == run);
            lemma_projects_over(a, p, run, o);
            lemma_projects_over(b, p, run, o);
            if let Some(z) = projected(p, run, o) {
                assert(over(b, over(a, z)) =~= over(b, z));
                assert(over(a, over(a, z)) =~= over(a, z));
            }
        },
        ReplayStepView::Extraction { space, episode, extractor, raw, content, at, cached } => {
            let both = |e: EpisodeRowView| e.id == episode && e.space == space;
            let q = episode_has_id(episode);
            assert(some_where(a.episodes, q)) by {
                let i = choose|i: int| 0 <= i < a.episodes.len() && both(#[trigger] a.episodes[i]);
                assert(q(a.episodes[i]));
            }
            assert(some_where(b.episodes, q)) by {
                let i = choose|i: int| 0 <= i < b.episodes.len() && both(#[trigger] b.episodes[i]);
                assert(q(b.episodes[i]));
            }
            lemma_first_stays(a.episodes, a.episodes, q);
            lemma_first_stays(b.episodes, b.episodes, q);
            let z = Extracted {
                space,
                episode,
                extractor,
                raw,
                content,
                at,
                trust: inherited_trust(first_where(a.episodes, q)->Some_0),
            };
            lemma_extracts_over(a, p, z, o);
            lemma_extracts_over(b, p, z, o);
            if let Some(w) = extracted(p, z, o) {
                assert(over(b, over(a, w)) =~= over(b, w));
                assert(over(a, over(a, w)) =~= over(a, w));
            }
        },
        ReplayStepView::Redaction { target_json, at } => {
            assert(over(b, x) =~= y);
            assert(over(a, x) =~= x);
            match (o.target)(target_json) {
                None => {},
                Some(t) => match t {
                    RedactTargetView::Episode { id } => {
                        lemma_nothing_to_redact(x, t, at, o);
                        lemma_nothing_to_redact(y, t, at, o);
                    },
                    RedactTargetView::Space { id } => {
                        lemma_nothing_to_redact(x, t, at, o);
                        lemma_nothing_to_redact(y, t, at, o);
                    },
                    RedactTargetView::Entity { space, entity_id } => {
                        assert(t == scoped(space, entity_id, None));
                        lemma_unredacted_over(a, p, space, entity_id, None, at, o);
                        lemma_unredacted_over(b, p, space, entity_id, None, at, o);
                        if let Some(w) = unredacted(p, t, at, o) {
                            assert(over(b, over(a, w)) =~= over(b, w));
                            assert(over(a, over(a, w)) =~= over(a, w));
                        }
                    },
                    RedactTargetView::PredicateScoped { space, entity_id, predicate } => {
                        let only = Some(predicate);
                        assert(t == scoped(space, entity_id, only));
                        lemma_unredacted_over(a, p, space, entity_id, only, at, o);
                        lemma_unredacted_over(b, p, space, entity_id, only, at, o);
                        if let Some(w) = unredacted(p, t, at, o) {
                            assert(over(b, over(a, w)) =~= over(b, w));
                            assert(over(a, over(a, w)) =~= over(a, w));
                        }
                    },
                },
            }
        },
        ReplayStepView::Rebuild { space } => {
            assert(over(b, x) =~= y);
            assert(over(a, x) =~= x);
        },
    }
}

/// Steps do the same over every ledger that tells them the same.
proof fn lemma_walk_over(
    a: TablesView,
    b: TablesView,
    p: TablesView,
    steps: Seq<ReplayStepView>,
    o: Outside,
)
    requires
        forall|i: int| 0 <= i < steps.len() ==> same_record(a, b, #[trigger] steps[i], o),
        replayed(over(a, p), steps, o) is Some,
        calm(over(a, p), steps, o),
    ensures
        ({
            let q = replayed(over(a, p), steps, o)->Some_0;
            &&& over(a, q) == q
            &&& replayed(over(b, p), steps, o) == Some(over(b, q))
            &&& calm(over(b, p), steps, o)
        }),
    decreases steps.len(),
{
    if steps.len() == 0 {
        assert(over(a, over(a, p)) =~= over(a, p));
        assert(over(b, over(a, p)) =~= over(b, p));
    } else {
        let init = steps.drop_last();
        assert forall|i: int| 0 <= i < init.len() implies same_record(a, b, #[trigger] init[i], o) by {
            assert(init[i] == steps[i]);
        }
        lemma_walk_over(a, b, p, init, o);
        let before = replayed(over(a, p), init, o)->Some_0;
        assert(steps.last() == steps[steps.len() - 1]);
        lemma_step_over(a, b, before, steps.last(), o);
        let q = replayed(over(a, p), steps, o)->Some_0;
        assert(followed(before, steps.last(), o) == Some(q));
        assert(over(b, before).assertions == before.assertions);
    }
}

/// Whether, as steps are followed, those that are kept do without some rows just
/// what they do with them, and the others write those rows alone.
pub open spec fn parted(
    db: TablesView,
    steps: Seq<ReplayStepView>,
    keep: spec_fn(ReplayStepView) -> bool,
    r: Rows,
    o: Outside,
) -> bool
    decreases steps.len(),
{
    steps.len() == 0 || {
        let before = replayed(db, steps.drop_last(), o)->Some_0;
        let after = replayed(db, steps, o)->Some_0;
        &&& parted(db, steps.drop_last(), keep, r, o)
        &&& if keep(steps.last()) {
            followed(without(before, r), steps.last(), o) == Some(without(after, r))
        } else {
            without(after, r) == without(before, r)
        }
    }
}

/// Following the kept steps alone gives everything but the rows that they do
/// without.
proof fn lemma_parted_walk(
    db: TablesView,
    steps: Seq<ReplayStepView>,
    keep: spec_fn(ReplayStepView) -> bool,
    r: Rows,
    o: Outside,
)
    requires
        without(db, r) == db,
        replayed(db, steps, o) is Some,
        calm(db, steps, o),
        parted(db, steps, keep, r, o),
    ensures
        replayed(db, steps.filter(keep), o) == Some(
            without(replayed(db, steps, o)->Some_0, r),
        ),
        calm(db, steps.filter(keep), o),
    decreases steps.len(),
{
    if steps.len() == 0 {
        reveal(Seq::filter);
        assert(steps.filter(keep) =~= steps);
    } else {
        let init = steps.drop_last();
        let last = steps.last();
        lemma_parted_walk(db, init, keep, r, o);
        let before = replayed(db, init, o)->Some_0;
        assert(steps =~= init.push(last));
        init.lemma_filter_push(last, keep);
        if keep(last) {
            let kept = steps.filter(keep);
            assert(kept.drop_last() =~= init.filter(keep));
            assert(kept.last() == last);
            if let ReplayStepView::Redaction { target_json, at } = last {
                if let Some(RedactTargetView::Episode { id }) = (o.target)(target_json) {
                    lemma_kept(before.assertions, other_assertion(r));
                    let seen = without(before, r).assertions;
                    if some_where(seen, asserted_by(id)) {
                        let i = choose|i: int|
                            0 <= i < seen.len() && asserted_by(id)(#[trigger] seen[i]);
                        assert(before.assertions.contains(seen[i]));
                        let k = choose|k: int|
                            0 <= k < before.assertions.len() && before.assertions[k] == seen[i];
                        assert(asserted_by(id)(before.assertions[k]));
                    }
                }
            }
        }
    }
}

/// Whether steps are in the order of their times.
pub open spec fn in_order(steps: Seq<ReplayStepView>) -> bool {
    forall|i: int, j: int|
        0 <= i < j < steps.len() ==> step_time(#[trigger] steps[i]) <= step_time(
            #[trigger] steps[j],
        )
}

/// Whether the clock never ran backwards for what is on record.
pub open spec fn in_time(db: TablesView) -> bool {
    &&& in_order(declaration_steps(db))
    &&& in_order(extraction_steps(db))
    &&& in_order(redaction_steps(db))
}

/// Two lists in one hold the steps of both.
proof fn lemma_merged_members(a: Seq<ReplayStepView>, b: Seq<ReplayStepView>)
    ensures
        forall|i: int|
            0 <= i < merged(a, b).len() ==> a.contains(#[trigger] merged(a, b)[i]) || b.contains(
                merged(a, b)[i],
            ),
    decreases a.len() + b.len(),
{
    let m = merged(a, b);
    if a.len() == 0 {
        assert forall|i: int| 0 <= i < m.len() implies b.contains(#[trigger] m[i]) by {}
    } else if b.len() == 0 {
        assert forall|i: int| 0 <= i < m.len() implies a.contains(#[trigger] m[i]) by {}
    } else if step_time(a.last()) > step_time(b.last()) {
        let init = a.drop_last();
        lemma_merged_members(init, b);
        let n = merged(init, b);
        assert forall|i: int| 0 <= i < m.len() implies a.contains(#[trigger] m[i]) || b.contains(
            m[i],
        ) by {
            if i < n.len() {
                assert(m[i] == n[i]);
                if init.contains(n[i]) {
                    let k = choose|k: int| 0 <= k < init.len() && init[k] == n[i];
                    assert(a[k] == n[i]);
                }
            } else {
                assert(m[i] == a[a.len() - 1]);
            }
        }
    } else {
        let init = b.drop_last();
        lemma_merged_members(a, init);
        let n = merged(a, init);
        assert forall|i: int| 0 <= i < m.len() implies a.contains(#[trigger] m[i]) || b.contains(
            m[i],
        ) by {
            if i < n.len() {
                assert(m[i] == n[i]);
                if init.contains(n[i]) {
                    let k = choose|k: int| 0 <= k < init.len() && init[k] == n[i];
                    assert(b[k] == n[i]);
                }
            } else {
                assert(m[i] == b[b.len() - 1]);
            }
        }
    }
}

/// No step of an ordered list is later than its last.
proof fn lemma_last_is_latest(a: Seq<ReplayStepView>, x: ReplayStepView)
    requires
        in_order(a),
        a.contains(x),
    ensures
        step_time(x) <= step_time(a.last()),
{
    let k = choose|k: int| 0 <= k < a.len() && a[k] == x;
    if k < a.len() - 1 {
        assert(step_time(a[k]) <= step_time(a[a.len() - 1]));
    }
}

/// The first steps of an ordered list are in order.
proof fn lemma_init_in_order(a: Seq<ReplayStepView>)
    requires
        in_order(a),
        a.len() > 0,
    ensures
        in_order(a.drop_last()),
{
    let init = a.drop_last();
    assert forall|i: int, j: int| 0 <= i < j < init.len() implies step_time(#[trigger] init[i])
        <= step_time(#[trigger] init[j]) by {
        assert(step_time(a[i]) <= step_time(a[j]));
    }
}

/// Two ordered lists in one are in order.
proof fn lemma_merged_in_order(a: Seq<ReplayStepView>, b: Seq<ReplayStepView>)
    requires
        in_order(a),
        in_order(b),
    ensures
        in_order(merged(a, b)),
    decreases a.len() + b.len(),
{
    if a.len() > 0 && b.len() > 0 {
        let m = merged(a, b);
        let first: bool = step_time(a.last()) > step_time(b.last());
        let (x, y) = if first {
            (a.drop_last(), b)
        } else {
            (a, b.drop_last())
        };
        if first {
            lemma_init_in_order(a);
        } else {
            lemma_init_in_order(b);
        }
        lemma_merged_in_order(x, y);
        lemma_merged_members(x, y);
        let n = merged(x, y);
        assert forall|i: int, j: int| 0 <= i < j < m.len() implies step_time(#[trigger] m[i])
            <= step_time(#[trigger] m[j]) by {
            if j < n.len() {
                assert(step_time(n[i]) <= step_time(n[j]));
            } else {
                assert(m[i] == n[i]);
                if x.contains(n[i]) {
                    let k = choose|k: int| 0 <= k < x.len() && x[k] == n[i];
                    assert(a[k] == n[i]);
                    assert(a.contains(n[i]));
                    lemma_last_is_latest(a, n[i]);
                } else {
                    let k = choose|k: int| 0 <= k < y.len() && y[k] == n[i];
                    assert(b[k] == n[i]);
                    assert(b.contains(n[i]));
                    lemma_last_is_latest(b, n[i]);
                }
            }
        }
    }
}

/// Selecting from two ordered lists in one is selecting from each.
proof fn lemma_merged_filter(
    a: Seq<ReplayStepView>,
    b: Seq<ReplayStepView>,
    keep: spec_fn(ReplayStepView) -> bool,
)
    requires
        in_order(a),
        in_order(b),
    ensures
        merged(a.filter(keep), b.filter(keep)) == merged(a, b).filter(keep),
    decreases a.len() + b.len(),
{
    if a.len() == 0 {
        reveal(Seq::filter);
        assert(a.filter(keep).len() == 0);
    } else if b.len() == 0 {
        reveal(Seq::filter);
        assert(b.filter(keep).len() == 0);
        assert(merged(a.filter(keep), b.filter(keep)) =~= a.filter(keep));
    } else if step_time(a.last()) > step_time(b.last()) {
        let init = a.drop_last();
        let x = a.last();
        lemma_init_in_order(a);
        lemma_merged_filter(init, b, keep);
        assert(a =~= init.push(x));
        init.lemma_filter_push(x, keep);
        merged(init, b).lemma_filter_push(x, keep);
        if keep(x) {
            let left = b.filter(keep);
            if left.len() > 0 {
                lemma_kept(b, keep);
                assert(b.contains(left[left.len() - 1]));
                lemma_last_is_latest(b, left.last());
            }
            lemma_merge_first(init.filter(keep), left, x);
        }
    } else {
        let init = b.drop_last();
        let x = b.last();
        lemma_init_in_order(b);
        lemma_merged_filter(a, init, keep);
        assert(b =~= init.push(x));
        init.lemma_filter_push(x, keep);
        merged(a, init).lemma_filter_push(x, keep);
        if keep(x) {
            let left = a.filter(keep);
            if left.len() > 0 {
                lemma_kept(a, keep);
                assert(a.contains(left[left.len() - 1]));
                lemma_last_is_latest(a, left.last());
            }
            lemma_merge_second(left, init.filter(keep), x);
        }
    }
}

/// A step of the first list that is later than the second list comes last.
proof fn lemma_merge_first(a: Seq<ReplayStepView>, b: Seq<ReplayStepView>, x: ReplayStepView)
    requires
        b.len() == 0 || step_time(b.last()) < step_time(x),
    ensures
        merged(a.push(x), b) == merged(a, b).push(x),
{
    assert(a.push(x).drop_last() =~= a);
    if b.len() == 0 {
        assert(merged(a, b) =~= a);
    }
}

/// A step of the second list that is no earlier than the first list comes last.
proof fn lemma_merge_second(a: Seq<ReplayStepView>, b: Seq<ReplayStepView>, x: ReplayStepView)
    requires
        a.len() == 0 || step_time(a.last()) <= step_time(x),
    ensures
        merged(a, b.push(x)) == merged(a, b).push(x),
{
    assert(b.push(x).drop_last() =~= b);
}

/// The last of two lists in one is the last of one of them.
proof fn lemma_merge_last(a: Seq<ReplayStepView>, b: Seq<ReplayStepView>)
    requires
        merged(a, b).len() > 0,
    ensures
        (a.len() > 0 && merged(a, b).last() == a.last()) || (b.len() > 0 && merged(a, b).last()
            == b.last()),
{
}

/// Whether a time is later than the last of some steps.
pub open spec fn after_all(steps: Seq<ReplayStepView>, at: Timestamp) -> bool {
    steps.len() == 0 || step_time(steps.last()) < at.0
}

/// Whether a time is no earlier than the last of some steps.
pub open spec fn not_before(steps: Seq<ReplayStepView>, at: Timestamp) -> bool {
    steps.len() == 0 || step_time(steps.last()) <= at.0
}

/// Where steps are taken off two of three ordered lists, and one that is no
/// earlier is put behind the third, the steps in one are those that are kept,
/// with the new one behind them.
proof fn lemma_steps_taken_off(
    d: Seq<ReplayStepView>,
    x: Seq<ReplayStepView>,
    r: Seq<ReplayStepView>,
    keep: spec_fn(ReplayStepView) -> bool,
    step: ReplayStepView,
)
    requires
        in_order(d),
        in_order(x),
        in_order(r),
        forall|i: int| 0 <= i < r.len() ==> keep(#[trigger] r[i]),
        d.len() == 0 || step_time(d.last()) <= step_time(step),
        x.len() == 0 || step_time(x.last()) <= step_time(step),
    ensures
        merged(merged(d.filter(keep), x.filter(keep)), r.push(step)) == merged(
            merged(d, x),
            r,
        ).filter(keep).push(step),
{
    lemma_merged_filter(d, x, keep);
    lemma_merged_in_order(d, x);
    let m = merged(d, x);
    lemma_merged_filter(m, r, keep);
    lemma_all_kept(r, keep);
    let left = m.filter(keep);
    if left.len() > 0 {
        lemma_kept(m, keep);
        assert(m.contains(left[left.len() - 1]));
        lemma_last_is_latest(m, left.last());
        lemma_merge_last(d, x);
    }
    lemma_merge_second(left, r, step);
}

/// Selecting mapped rows is mapping selected ones.
proof fn lemma_map_filter<V, W>(s: Seq<V>, f: spec_fn(V) -> W, k: spec_fn(W) -> bool)
    ensures
        s.map_values(f).filter(k) == s.filter(|v: V| k(f(v))).map_values(f),
    decreases s.len(),
{
    reveal(Seq::filter);
    let p = |v: V| k(f(v));
    if s.len() == 0 {
        assert(s.map_values(f).filter(k) =~= s.filter(p).map_values(f));
    } else {
        let init = s.drop_last();
        lemma_map_filter(init, f, k);
        assert(s.map_values(f).drop_last() =~= init.map_values(f));
        assert(s.map_values(f).last() == f(s.last()));
        if p(s.last()) {
            assert(init.filter(p).push(s.last()).map_values(f) =~= init.filter(p).map_values(
                f,
            ).push(f(s.last())));
        }
    }
}

/// Whether each live declaration is the one on record under its own hash.
pub open spec fn declared_rows(db: TablesView, o: Outside) -> bool {
    forall|i: int|
        0 <= i < db.episodes.len() && is_replayed_declaration()(#[trigger] db.episodes[i]) ==> {
            let e = db.episodes[i];
            &&& e.content_hash == (o.hash)(content_of(e))
            &&& first_where(db.episodes, has_content(e.space, e.content_hash)) == Some(e)
        }
}

/// What is replayed is on record.
proof fn lemma_steps_on_record(db: TablesView, o: Outside)
    requires
        declared_rows(db, o),
    ensures
        forall|i: int|
            0 <= i < projected_steps(db).len() ==> on_record(
                db,
                #[trigger] projected_steps(db)[i],
                o,
            ),
{
    let d = declaration_steps(db);
    let x = extraction_steps(db);
    let r = redaction_steps(db);
    let steps = projected_steps(db);
    lemma_merged_members(d, x);
    lemma_merged_members(merged(d, x), r);
    assert forall|i: int| 0 <= i < steps.len() implies on_record(db, #[trigger] steps[i], o) by {
        let step = steps[i];
        if r.contains(step) {
        } else {
            let k = choose|k: int| 0 <= k < merged(d, x).len() && merged(d, x)[k] == step;
            assert(merged(d, x)[k] == step);
            if d.contains(step) {
                let j = choose|j: int| 0 <= j < d.len() && d[j] == step;
                lemma_declaration_row(db, j);
                let e = db.episodes.filter(is_replayed_declaration())[j];
                let n = choose|n: int| 0 <= n < db.episodes.len() && db.episodes[n] == e;
                assert(is_replayed_declaration()(db.episodes[n]));
                assert(has_content(e.space, (o.hash)(content_of(e)))(db.episodes[n]));
            } else {
                let j = choose|j: int| 0 <= j < x.len() && x[j] == step;
                lemma_extraction_row(db, j);
                let row = db.extractions.filter(is_replayed_extraction(db))[j];
                let e = with_source(db)(row).0;
                let n = choose|n: int| 0 <= n < db.episodes.len() && db.episodes[n] == e;
                let both = |w: EpisodeRowView| w.id == e.id && w.space == e.space;
                assert(both(db.episodes[n]));
            }
        }
    }
}

/// The row that a declaration to replay comes from.
proof fn lemma_declaration_row(db: TablesView, j: int)
    requires
        0 <= j < declaration_steps(db).len(),
    ensures
        ({
            let e = db.episodes.filter(is_replayed_declaration())[j];
            &&& declaration_steps(db)[j] == declaration_step()(e)
            &&& is_replayed_declaration()(e)
            &&& exists|n: int| 0 <= n < db.episodes.len() && db.episodes[n] == e
        }),
{
    let p = is_replayed_declaration();
    lemma_kept(db.episodes, p);
    let e = db.episodes.filter(p)[j];
    assert(p(db.episodes.filter(p)[j]));
    assert(db.episodes.contains(e));
}

/// The rows that a response to replay comes from.
proof fn lemma_extraction_row(db: TablesView, j: int)
    requires
        0 <= j < extraction_steps(db).len(),
    ensures
        ({
            let row = db.extractions.filter(is_replayed_extraction(db))[j];
            let e = with_source(db)(row).0;
            &&& extraction_steps(db)[j] == extraction_step()((e, row))
            &&& is_replayed_primary(row.episode_id)(e)
            &&& exists|n: int| 0 <= n < db.episodes.len() && db.episodes[n] == e
        }),
{
    let p = is_replayed_extraction(db);
    lemma_kept(db.extractions, p);
    let row = db.extractions.filter(p)[j];
    assert(p(db.extractions.filter(p)[j]));
    let q = is_replayed_primary(row.episode_id);
    lemma_first_stays(db.episodes, db.episodes, q);
    lemma_found(db.episodes, q);
}

/// Selects the steps that stay when a space is purged: all but the declarations
/// and responses of the space.
pub open spec fn stays_without(space: Seq<char>) -> spec_fn(ReplayStepView) -> bool {
    |step: ReplayStepView|
        match step {
            ReplayStepView::Declaration { space: s, .. } => s != space,
            ReplayStepView::Extraction { space: s, .. } => s != space,
            _ => true,
        }
}

/// Whether every episode is at home in its space.
pub open spec fn episodes_at_home(
    db: TablesView,
    home: spec_fn(Seq<char>) -> Seq<char>,
) -> bool {
    forall|i: int|
        0 <= i < db.episodes.len() ==> home((#[trigger] db.episodes[i]).id) == db.episodes[i].space
}

/// A step of one space does without the rows of another what it does with them;
/// one of that other space writes its rows alone.
proof fn lemma_step_parts(
    db: TablesView,
    step: ReplayStepView,
    o: Outside,
    home: spec_fn(Seq<char>) -> Seq<char>,
    s: Seq<char>,
)
    requires
        is_local(db, home),
        names_at_home(o, home),
        followed(db, step, o) is Some,
        on_record(db, step, o),
        is_calm(db, step, o),
    ensures
        ({
            let after = followed(db, step, o)->Some_0;
            let r = rows_of(home, s);
            &&& is_local(after, home)
            &&& if stays_without(s)(step) {
                followed(without(db, r), step, o) == Some(without(after, r))
            } else {
                without(after, r) == without(db, r)
            }
        }),
{
    let r = rows_of(home, s);
    let seen = without(db, r);
    match step {
        ReplayStepView::Declaration { space, content, at } => {
            let e = Entry { space, decl: (o.read)(content), content, at };
            assert(with_entry(db, e, o) == db);
            assert(with_entry(seen, e, o) == seen);
            let run = run_of(db, e, o);
            assert(run_of(seen, e, o) == run);
            lemma_projected_parts(db, run, o, home, s);
        },
        ReplayStepView::Extraction { space, episode, extractor, raw, content, at, cached } => {
            let z = Extracted {
                space,
                episode,
                extractor,
                raw,
                content,
                at,
                trust: inherited_trust(
                    first_where(db.episodes, episode_has_id(episode))->Some_0,
                ),
            };
            let claims = (o.claims)(raw, content)->Some_0;
            lemma_claims_parts(db, z, claims, o, home, s);
        },
        ReplayStepView::Redaction { target_json, at } => match (o.target)(target_json) {
            None => {},
            Some(t) => match t {
                RedactTargetView::Episode { id } => {
                    lemma_nothing_to_redact(db, t, at, o);
                    lemma_fewer_assert(db, r, id);
                    lemma_nothing_to_redact(seen, t, at, o);
                },
                RedactTargetView::Space { id } => {
                    lemma_nothing_to_redact(db, t, at, o);
                    lemma_nothing_to_redact(seen, t, at, o);
                },
                RedactTargetView::Entity { space, entity_id } => {
                    assert(t == scoped(space, entity_id, None));
                    lemma_unredacted_parts(db, space, entity_id, None, at, o, home, s);
                },
                RedactTargetView::PredicateScoped { space, entity_id, predicate } => {
                    assert(t == scoped(space, entity_id, Some(predicate)));
                    lemma_unredacted_parts(
                        db,
                        space,
                        entity_id,
                        Some(predicate),
                        at,
                        o,
                        home,
                        s,
                    );
                },
            },
        },
        ReplayStepView::Rebuild { space } => {},
    }
}

/// What an episode does not assert it does not assert among fewer rows.
pub proof fn lemma_fewer_assert(db: TablesView, r: Rows, id: Seq<char>)
    requires
        !some_where(db.assertions, asserted_by(id)),
    ensures
        !some_where(without(db, r).assertions, asserted_by(id)),
{
    let seen = without(db, r).assertions;
    lemma_kept(db.assertions, other_assertion(r));
    if some_where(seen, asserted_by(id)) {
        let i = choose|i: int| 0 <= i < seen.len() && asserted_by(id)(#[trigger] seen[i]);
        assert(db.assertions.contains(seen[i]));
        let k = choose|k: int| 0 <= k < db.assertions.len() && db.assertions[k] == seen[i];
        assert(asserted_by(id)(db.assertions[k]));
    }
}

/// Steps part by space.
proof fn lemma_walk_parts(
    db: TablesView,
    steps: Seq<ReplayStepView>,
    o: Outside,
    home: spec_fn(Seq<char>) -> Seq<char>,
    s: Seq<char>,
)
    requires
        is_local(db, home),
        names_at_home(o, home),
        forall|i: int| 0 <= i < steps.len() ==> on_record(db, #[trigger] steps[i], o),
        replayed(db, steps, o) is Some,
        calm(db, steps, o),
    ensures
        is_local(replayed(db, steps, o)->Some_0, home),
        parted(db, steps, stays_without(s), rows_of(home, s), o),
    decreases steps.len(),
{
    if steps.len() > 0 {
        let init = steps.drop_last();
        assert forall|i: int| 0 <= i < init.len() implies on_record(db, #[trigger] init[i], o)
            && same_record(db, db, init[i], o) by {
            assert(init[i] == steps[i]);
        }
        lemma_walk_parts(db, init, o, home, s);
        let before = replayed(db, init, o)->Some_0;
        assert(over(db, db) =~= db);
        lemma_walk_over(db, db, db, init, o);
        assert(before.episodes == db.episodes);
        assert(steps.last() == steps[steps.len() - 1]);
        assert(on_record(before, steps.last(), o));
        lemma_step_parts(before, steps.last(), o, home, s);
    }
}

/// What a purge leaves of what is known is what is not at home in the space.
proof fn lemma_purge_leaves(
    db: TablesView,
    s: Seq<char>,
    home: spec_fn(Seq<char>) -> Seq<char>,
)
    requires
        is_local(db, home),
    ensures
        ({
            let after = purged(db, s);
            over(after, without(db, rows_of(home, s))) == after
        }),
{
    let r = rows_of(home, s);
    let after = purged(db, s);
    let statements = space_statements(db, s);
    let assertions = space_assertions(db, s);
    let entities = space_entities(db, s);
    assert forall|id: Seq<char>| #[trigger] some_where(
        db.entities,
        entity_has_id(id),
    ) implies entities.contains(id) == (home(id) == s) by {
        let p = entity_has_id(id);
        let of = entity_in(s);
        let n = choose|n: int| 0 <= n < db.entities.len() && p(#[trigger] db.entities[n]);
        if home(id) == s {
            lemma_picked(
                db.entities,
                of,
                entity_id_of(),
                db.entities[n],
            );
        }
        if entities.contains(id) {
            let k = choose|k: int| 0 <= k < entities.len() && entities[k] == id;
            lemma_kept(db.entities, of);
            let e = db.entities.filter(of)[k];
            assert(of(db.entities.filter(of)[k]));
            assert(db.entities.contains(e));
            let m = choose|m: int| 0 <= m < db.entities.len() && db.entities[m] == e;
            assert(home(db.entities[m].id) == db.entities[m].space);
        }
    }
    assert forall|id: Seq<char>| #[trigger] some_where(
        db.statements,
        statement_has_id(id),
    ) implies statements.contains(id) == (home(id) == s) by {
        let p = statement_has_id(id);
        let of = statement_in(s);
        let n = choose|n: int| 0 <= n < db.statements.len() && p(#[trigger] db.statements[n]);
        if home(id) == s {
            lemma_picked(
                db.statements,
                of,
                statement_id_of(),
                db.statements[n],
            );
        }
        if statements.contains(id) {
            let k = choose|k: int| 0 <= k < statements.len() && statements[k] == id;
            lemma_kept(db.statements, of);
            let e = db.statements.filter(of)[k];
            assert(of(db.statements.filter(of)[k]));
            assert(db.statements.contains(e));
            let m = choose|m: int| 0 <= m < db.statements.len() && db.statements[m] == e;
            assert(home(db.statements[m].id) == db.statements[m].space);
        }
    }
    let any = asserts_any(statements);
    assert forall|id: Seq<char>| #[trigger] some_where(
        db.assertions,
        assertion_has_id(id),
    ) implies assertions.contains(id) == (home(id) == s) by {
        let p = assertion_has_id(id);
        let n = choose|n: int| 0 <= n < db.assertions.len() && p(#[trigger] db.assertions[n]);
        let a = db.assertions[n];
        assert(home(a.statement) == home(a.id));
        if home(id) == s {
            assert(some_where(db.statements, statement_has_id(a.statement)));
            assert(any(a));
            lemma_picked(
                db.assertions,
                any,
                assertion_id_of(),
                a,
            );
        }
        if assertions.contains(id) {
            let k = choose|k: int| 0 <= k < assertions.len() && assertions[k] == id;
            lemma_kept(db.assertions, any);
            let e = db.assertions.filter(any)[k];
            assert(any(db.assertions.filter(any)[k]));
            assert(db.assertions.contains(e));
            let m = choose|m: int| 0 <= m < db.assertions.len() && db.assertions[m] == e;
            assert(home(db.assertions[m].statement) == home(db.assertions[m].id));
            assert(some_where(db.statements, statement_has_id(e.statement)));
        }
    }
    lemma_same_filter(db.entities, |e: EntityView| e.space != s, other_entity(r));
    lemma_same_filter(db.keys, |k: EntityKeyView| k.space != s, other_key(r));
    lemma_same_filter(db.statements, |x: StatementView| x.space != s, other_statement(r));
    let keep_g = |m: EntityMergeView| !(entities.contains(m.loser) || entities.contains(m.winner));
    assert forall|i: int| 0 <= i < db.merges.len() implies keep_g(#[trigger] db.merges[i])
        == other_merge(r)(db.merges[i]) by {
        let m = db.merges[i];
        assert(some_where(db.entities, entity_has_id(m.loser)));
        assert(some_where(db.entities, entity_has_id(m.winner)));
    }
    lemma_same_filter(db.merges, keep_g, other_merge(r));
    let keep_a = |a: AssertionView| !statements.contains(a.statement);
    assert forall|i: int| 0 <= i < db.assertions.len() implies keep_a(#[trigger] db.assertions[i])
        == other_assertion(r)(db.assertions[i]) by {
        let a = db.assertions[i];
        assert(some_where(db.statements, statement_has_id(a.statement)));
    }
    lemma_same_filter(db.assertions, keep_a, other_assertion(r));
    let keep_m = |m: MentionView| !assertions.contains(m.assertion);
    assert forall|i: int| 0 <= i < db.mentions.len() implies keep_m(#[trigger] db.mentions[i])
        == other_mention(r)(db.mentions[i]) by {
        let m = db.mentions[i];
        assert(some_where(db.assertions, assertion_has_id(m.assertion)));
    }
    lemma_same_filter(db.mentions, keep_m, other_mention(r));
    let keep_b = |b: BeliefView| !statements.contains(b.statement);
    assert forall|i: int| 0 <= i < db.beliefs.len() implies keep_b(#[trigger] db.beliefs[i])
        == other_belief(r)(db.beliefs[i]) by {
        let b = db.beliefs[i];
        assert(some_where(db.statements, statement_has_id(b.statement)));
    }
    lemma_same_filter(db.beliefs, keep_b, other_belief(r));
    assert(over(after, without(db, r)) =~= after);
}

/// What a purge leaves of the record: the steps of the space are gone.
proof fn lemma_purge_record(
    db: TablesView,
    s: Seq<char>,
    home: spec_fn(Seq<char>) -> Seq<char>,
)
    requires
        episodes_at_home(db, home),
    ensures
        ({
            let after = purged(db, s);
            &&& declaration_steps(after) == declaration_steps(db).filter(stays_without(s))
            &&& extraction_steps(after) == extraction_steps(db).filter(stays_without(s))
        }),
{
    let after = purged(db, s);
    let keep = stays_without(s);
    let live = is_replayed_declaration();
    let out = |e: EpisodeRowView| e.space != s;
    lemma_filters_commute(db.episodes, out, live);
    lemma_map_filter(db.episodes.filter(live), declaration_step(), keep);
    let kept = |e: EpisodeRowView| keep(declaration_step()(e));
    lemma_same_filter(db.episodes.filter(live), kept, out);
    // The responses.
    let ids = space_episodes(db, s);
    let here = is_replayed_extraction(db);
    let there = is_replayed_extraction(after);
    let left = |x: ExtractionRowView| !ids.contains(x.episode_id);
    let f = with_source(db);
    let g = with_source(after);
    let stay = |x: ExtractionRowView| keep(extraction_step()(f(x)));
    lemma_kept(db.episodes, out);
    assert forall|i: int| 0 <= i < db.extractions.len() implies ({
        let x = #[trigger] db.extractions[i];
        &&& (left(x) && there(x)) == (here(x) && stay(x))
        &&& left(x) && there(x) ==> f(x) == g(x)
    }) by {
        let x = db.extractions[i];
        let p = is_replayed_primary(x.episode_id);
        if here(x) {
            lemma_first_stays(db.episodes, db.episodes, p);
            lemma_found(db.episodes, p);
            let e = first_where(db.episodes, p)->Some_0;
            let n = choose|n: int| 0 <= n < db.episodes.len() && db.episodes[n] == e;
            assert(home(db.episodes[n].id) == db.episodes[n].space);
            if e.space == s {
                lemma_picked(
                    db.episodes,
                    episode_in(s),
                    episode_id_of(),
                    e,
                );
                assert(ids.contains(x.episode_id));
            } else {
                if ids.contains(x.episode_id) {
                    let k = choose|k: int| 0 <= k < ids.len() && ids[k] == x.episode_id;
                    lemma_kept(db.episodes, episode_in(s));
                    let w = db.episodes.filter(episode_in(s))[k];
                    assert(episode_in(s)(db.episodes.filter(episode_in(s))[k]));
                    assert(db.episodes.contains(w));
                    let m = choose|m: int| 0 <= m < db.episodes.len() && db.episodes[m] == w;
                    assert(home(db.episodes[m].id) == db.episodes[m].space);
                }
                assert forall|m: int| 0 <= m < db.episodes.len() && p(
                    #[trigger] db.episodes[m],
                ) implies out(db.episodes[m]) by {}
                lemma_filter_within(db.episodes, out, p);
                lemma_found_within(db.episodes, out, p);
            }
        } else if there(x) {
            let k = choose|k: int| 0 <= k < after.episodes.len() && p(
                #[trigger] after.episodes[k],
            );
            assert(db.episodes.contains(after.episodes[k]));
            let m = choose|m: int| 0 <= m < db.episodes.len() && db.episodes[m]
                == after.episodes[k];
            assert(p(db.episodes[m]));
        }
    }
    lemma_select_both(db.extractions, left, there, here, stay);
    let pairs = db.extractions.filter(here).map_values(f);
    lemma_map_filter(pairs, extraction_step(), keep);
    let kept_pair = |q: (EpisodeRowView, ExtractionRowView)| keep(extraction_step()(q));
    lemma_map_filter(db.extractions.filter(here), f, kept_pair);
    lemma_same_filter(
        db.extractions.filter(here),
        |x: ExtractionRowView| kept_pair(f(x)),
        stay,
    );
    let rows = after.extractions.filter(there);
    assert(rows == db.extractions.filter(here).filter(stay));
    assert forall|i: int| 0 <= i < rows.len() implies f(#[trigger] rows[i]) == g(rows[i]) by {
        lemma_kept(db.extractions, left);
        lemma_kept(after.extractions, there);
        let x = rows[i];
        assert(there(rows[i]));
        assert(after.extractions.contains(x));
        let k = choose|k: int| 0 <= k < after.extractions.len() && after.extractions[k] == x;
        assert(left(after.extractions[k]));
        assert(db.extractions.contains(after.extractions[k]));
        let n = choose|n: int| 0 <= n < db.extractions.len() && db.extractions[n] == x;
        assert(db.extractions[n] == x);
    }
    assert(rows.map_values(g) =~= rows.map_values(f));
}

/// Two pairs of selections that agree on the rows select the same.
proof fn lemma_select_both<V>(
    s: Seq<V>,
    a: spec_fn(V) -> bool,
    b: spec_fn(V) -> bool,
    c: spec_fn(V) -> bool,
    d: spec_fn(V) -> bool,
)
    requires
        forall|i: int|
            0 <= i < s.len() ==> (a(#[trigger] s[i]) && b(s[i])) == (c(s[i]) && d(s[i])),
    ensures
        s.filter(a).filter(b) == s.filter(c).filter(d),
    decreases s.len(),
{
    reveal(Seq::filter);
    if s.len() > 0 {
        let init = s.drop_last();
        assert forall|i: int| 0 <= i < init.len() implies (a(#[trigger] init[i]) && b(init[i]))
            == (c(init[i]) && d(init[i])) by {
            assert(init[i] == s[i]);
        }
        lemma_select_both(init, a, b, c, d);
        assert(s.last() == s[s.len() - 1]);
        let x = init.filter(a);
        let y = init.filter(c);
        if a(s.last()) {
            assert(x.push(s.last()).drop_last() =~= x);
        }
        if c(s.last()) {
            assert(y.push(s.last()).drop_last() =~= y);
        }
    }
}

/// What happens to a store.
pub enum Event {
    /// A space is opened.
    Opened { id: Seq<char>, name: Seq<char>, at: Timestamp },
    /// A declaration is made.
    Declared(Entry),
    /// An episode is taken in.
    Ingested {
        space: Seq<char>,
        content: Seq<char>,
        source: SourceRefView,
        trust: TrustTier,
        at: Timestamp,
        id: Seq<char>,
    },
    /// A response about a primary episode is cached, and projected as of the time
    /// at which the episode was taken in.
    Responded(ExtractionRowView),
    /// An entity is redacted, under one predicate where one is given.
    Redacted {
        space: Seq<char>,
        entity: Seq<char>,
        predicate: Option<Seq<char>>,
        target_json: Seq<char>,
        rid: Seq<char>,
        reason: Seq<char>,
        actor: Seq<char>,
        at: Timestamp,
    },
    /// An episode is redacted.
    EpisodeRedacted {
        id: Seq<char>,
        target_json: Seq<char>,
        rid: Seq<char>,
        reason: Seq<char>,
        actor: Seq<char>,
        at: Timestamp,
    },
    /// A space is purged.
    Purged {
        space: Seq<char>,
        target_json: Seq<char>,
        rid: Seq<char>,
        reason: Seq<char>,
        actor: Seq<char>,
        at: Timestamp,
    },
}

/// The tables after a redaction, its groups folded again; `None` where there is
/// nothing to redact, or where it fails.
pub open spec fn redacted(
    db: TablesView,
    t: RedactTargetView,
    target_json: Seq<char>,
    rid: Seq<char>,
    reason: Seq<char>,
    actor: Seq<char>,
    at: Timestamp,
    o: Outside,
) -> Option<TablesView> {
    if is_nothing(closure_of(db, t)) {
        None
    } else {
        match refolds_after(db, t, target_json, rid, reason, actor, at) {
            Err(_) => None,
            Ok(refolds) => Some(
                after_folds(
                    after_redaction(db, t, target_json, rid, reason, actor, at),
                    refolds,
                    o,
                ),
            ),
        }
    }
}

/// The tables after an event; `None` where it changes nothing, because it is
/// refused or finds nothing.
pub open spec fn after_event(db: TablesView, event: Event, o: Outside) -> Option<TablesView> {
    match event {
        Event::Opened { id, name, at } => Some(with_space(db, id, name, at)),
        Event::Declared(e) => declared(db, e, o),
        Event::Ingested { space, content, source, trust, at, id } => Some(
            with_ingested(
                db,
                primary_episode(space, content, source, trust, at),
                id,
                (o.hash)(content),
            ),
        ),
        Event::Responded(row) => match first_where(
            db.episodes,
            is_replayed_primary(row.episode_id),
        ) {
            None => None,
            Some(e) => extracted(with_response(db, row), response_of(db, e, row), o),
        },
        Event::Redacted { space, entity, predicate, target_json, rid, reason, actor, at } =>
            redacted(
                db,
                scoped(space, entity, predicate),
                target_json,
                rid,
                reason,
                actor,
                at,
                o,
            ),
        Event::EpisodeRedacted { id, target_json, rid, reason, actor, at } => redacted(
            db,
            RedactTargetView::Episode { id },
            target_json,
            rid,
            reason,
            actor,
            at,
            o,
        ),
        Event::Purged { space, target_json, rid, reason, actor, at } => Some(
            after_redaction(
                db,
                RedactTargetView::Space { id: space },
                target_json,
                rid,
                reason,
                actor,
                at,
            ),
        ),
    }
}

/// The tables after events, one after the other.
pub open spec fn history(db: TablesView, events: Seq<Event>, o: Outside) -> TablesView
    decreases events.len(),
{
    if events.len() == 0 {
        db
    } else {
        let before = history(db, events.drop_last(), o);
        match after_event(before, events.last(), o) {
            Some(after) => after,
            None => before,
        }
    }
}

/// Whether the text of an event reads as what it was written for.
pub open spec fn reads_back(event: Event, o: Outside) -> bool {
    match event {
        Event::Declared(e) => (o.read)(e.content) == e.decl,
        Event::Redacted { space, entity, predicate, target_json, .. } => (o.target)(target_json)
            == Some(scoped(space, entity, predicate)),
        Event::EpisodeRedacted { id, target_json, .. } => (o.target)(target_json) == Some(
            RedactTargetView::Episode { id },
        ),
        Event::Purged { space, target_json, .. } => (o.target)(target_json) == Some(
            RedactTargetView::Space { id: space },
        ),
        _ => true,
    }
}

/// Whether a store is new: nothing is in its ledger, and nothing is known.
pub open spec fn is_new(db: TablesView) -> bool {
    &&& db.episodes.len() == 0
    &&& db.extractions.len() == 0
    &&& db.redactions.len() == 0
    &&& db == cleared(db)
}

/// Whether a redaction can be told from its record: its id is new, and it is no
/// earlier than what was projected.
pub open spec fn is_told(db: TablesView, rid: Seq<char>, at: Timestamp) -> bool {
    &&& !some_where(db.redactions, redaction_has_id(rid))
    &&& not_before(declaration_steps(db), at)
    &&& not_before(extraction_steps(db), at)
}

/// Selects the steps that stay when an episode is redacted: all but its
/// declaration and the responses about it.
pub open spec fn stays_beside(
    db: TablesView,
    id: Seq<char>,
    o: Outside,
) -> spec_fn(ReplayStepView) -> bool {
    |step: ReplayStepView|
        match step {
            ReplayStepView::Declaration { space, content, .. } => first_where(
                db.episodes,
                has_content(space, (o.hash)(content)),
            )->Some_0.id != id,
            ReplayStepView::Extraction { episode, .. } => episode != id,
            _ => true,
        }
}

/// Whether nothing rests on what an episode projected. There are rows that are
/// the episode's own: its steps write no others; every other step does without
/// them just what it does with them; and redacting the episode takes them out,
/// and leaves the rest as it is. `law_lone_episode_stands_alone` shows it of an
/// episode whose statements are alone in their groups.
pub open spec fn stands_alone(
    db: TablesView,
    id: Seq<char>,
    after: TablesView,
    o: Outside,
) -> bool {
    exists|own: Rows|
        #![trigger without(db, own)]
        {
            &&& parted(cleared(db), projected_steps(db), stays_beside(db, id, o), own, o)
            &&& over(after, without(db, own)) == after
        }
}

/// Whether an event can be told from the record that it leaves: it is not on
/// record already, and the clock did not run backwards from what was projected
/// by other kinds of events. At the same instant declarations come before
/// responses, and those before redactions. What takes steps off the record must
/// find it in the order of time, and nothing may rest on a redacted episode.
pub open spec fn is_timely(db: TablesView, event: Event, o: Outside) -> bool {
    match event {
        Event::Opened { .. } => true,
        Event::Declared(e) => {
            &&& !some_where(db.episodes, has_content(e.space, (o.hash)(e.content)))
            &&& after_all(extraction_steps(db), e.at)
            &&& after_all(redaction_steps(db), e.at)
        },
        Event::Ingested { id, .. } => forall|i: int|
            0 <= i < db.extractions.len() && (#[trigger] db.extractions[i]).episode_id == id
                ==> is_replayed_extraction(db)(db.extractions[i]),
        Event::Responded(row) => {
            &&& !some_where(db.extractions, is_response(row.episode_id, row.extractor_id))
            &&& not_before(declaration_steps(db), row.created_at)
            &&& after_all(redaction_steps(db), row.created_at)
        },
        Event::Redacted { rid, at, .. } => is_told(db, rid, at),
        Event::EpisodeRedacted { id, rid, at, .. } => {
            &&& is_told(db, rid, at)
            &&& in_time(db)
            &&& stands_alone(db, id, after_event(db, event, o)->Some_0, o)
        },
        Event::Purged { space, rid, at, .. } => is_nothing(
            closure_of(db, RedactTargetView::Space { id: space }),
        ) || (is_told(db, rid, at) && in_time(db)),
    }
}

/// Whether every event that changed something can be told from its record.
pub open spec fn all_timely(db: TablesView, events: Seq<Event>, o: Outside) -> bool
    decreases events.len(),
{
    events.len() == 0 || {
        let before = history(db, events.drop_last(), o);
        &&& all_timely(db, events.drop_last(), o)
        &&& after_event(before, events.last(), o) is Some ==> is_timely(before, events.last(), o)
    }
}

/// Whether an episode that is taken in is at home in its space.
pub open spec fn ingested_at_home(
    event: Event,
    home: spec_fn(Seq<char>) -> Seq<char>,
) -> bool {
    event matches Event::Ingested { space, id, .. } ==> home(id) == space
}

/// Whether following what is on record gives what is known.
pub open spec fn is_rebuilt(db: TablesView, o: Outside) -> bool {
    &&& replayed(cleared(db), projected_steps(db), o) == Some(db)
    &&& calm(cleared(db), projected_steps(db), o)
    &&& declared_rows(db, o)
}

/// Over a ledger that holds more, what was on record gives what was known.
proof fn lemma_more_on_record(db: TablesView, after: TablesView, o: Outside)
    requires
        is_rebuilt(db, o),
        db.episodes.is_prefix_of(after.episodes),
        after.predicates == db.predicates,
    ensures
        replayed(cleared(after), projected_steps(db), o) == Some(over(after, db)),
        calm(cleared(after), projected_steps(db), o),
{
    let steps = projected_steps(db);
    let start = cleared(db);
    lemma_steps_on_record(db, o);
    assert forall|i: int| 0 <= i < steps.len() implies same_record(
        start,
        after,
        #[trigger] steps[i],
        o,
    ) by {
        assert(on_record(db, steps[i], o));
        match steps[i] {
            ReplayStepView::Declaration { space, content, at } => {
                lemma_first_stays(
                    db.episodes,
                    after.episodes,
                    has_content(space, (o.hash)(content)),
                );
            },
            ReplayStepView::Extraction { space, episode, .. } => {
                let both = |e: EpisodeRowView| e.id == episode && e.space == space;
                let n = choose|n: int| 0 <= n < db.episodes.len() && both(
                    #[trigger] db.episodes[n],
                );
                assert(episode_has_id(episode)(db.episodes[n]));
                lemma_first_stays(db.episodes, after.episodes, episode_has_id(episode));
                lemma_first_stays(db.episodes, after.episodes, both);
            },
            _ => {},
        }
    }
    assert(over(start, start) =~= start);
    lemma_walk_over(start, after, start, steps, o);
    assert(over(after, start) =~= cleared(after));
}

/// One step more on record, that does what happened, and the record still gives
/// what is known.
proof fn lemma_one_step_more(
    db: TablesView,
    after: TablesView,
    step: ReplayStepView,
    o: Outside,
)
    requires
        is_rebuilt(db, o),
        db.episodes.is_prefix_of(after.episodes),
        after.predicates == db.predicates,
        projected_steps(after) == projected_steps(db).push(step),
        followed(over(after, db), step, o) == Some(after),
        is_calm(db, step, o),
        declared_rows(after, o),
    ensures
        is_rebuilt(after, o),
{
    let steps = projected_steps(db);
    lemma_more_on_record(db, after, o);
    assert(steps.push(step).drop_last() =~= steps);
    assert(steps.push(step).last() == step);
}

/// A new row of the ledger leaves each live declaration the one under its hash.
proof fn lemma_declared_rows_stay(db: TablesView, after: TablesView, o: Outside)
    requires
        declared_rows(db, o),
        db.episodes.is_prefix_of(after.episodes),
        forall|i: int|
            db.episodes.len() <= i < after.episodes.len() && is_replayed_declaration()(
                #[trigger] after.episodes[i],
            ) ==> {
                let e = after.episodes[i];
                &&& e.content_hash == (o.hash)(content_of(e))
                &&& first_where(after.episodes, has_content(e.space, e.content_hash)) == Some(e)
            },
    ensures
        declared_rows(after, o),
{
    assert forall|i: int|
        0 <= i < after.episodes.len() && is_replayed_declaration()(
            #[trigger] after.episodes[i],
        ) implies ({
        let e = after.episodes[i];
        &&& e.content_hash == (o.hash)(content_of(e))
        &&& first_where(after.episodes, has_content(e.space, e.content_hash)) == Some(e)
    }) by {
        if i < db.episodes.len() {
            let e = db.episodes[i];
            assert(after.episodes[i] == e);
            lemma_first_stays(
                db.episodes,
                after.episodes,
                has_content(e.space, e.content_hash),
            );
        }
    }
}

/// More episodes leave the responses to replay as they are, where they are not
/// of a response whose episode is gone.
proof fn lemma_extractions_stay(a: TablesView, b: TablesView)
    requires
        a.episodes.is_prefix_of(b.episodes),
        a.extractions == b.extractions,
        forall|i: int|
            0 <= i < a.extractions.len() && is_replayed_extraction(b)(
                #[trigger] a.extractions[i],
            ) ==> is_replayed_extraction(a)(a.extractions[i]),
    ensures
        extraction_steps(b) == extraction_steps(a),
{
    let here = is_replayed_extraction(a);
    let there = is_replayed_extraction(b);
    let f = with_source(a);
    let g = with_source(b);
    assert forall|i: int| 0 <= i < a.extractions.len() implies here(
        #[trigger] a.extractions[i],
    ) == there(a.extractions[i]) && (here(a.extractions[i]) ==> f(a.extractions[i]) == g(
        a.extractions[i],
    )) by {
        if here(a.extractions[i]) {
            lemma_first_stays(
                a.episodes,
                b.episodes,
                is_replayed_primary(a.extractions[i].episode_id),
            );
        }
    }
    lemma_same_filter(a.extractions, here, there);
    let rows = a.extractions.filter(here);
    lemma_kept(a.extractions, here);
    assert forall|i: int| 0 <= i < rows.len() implies f(#[trigger] rows[i]) == g(rows[i]) by {
        assert(here(rows[i]));
        assert(a.extractions.contains(rows[i]));
        let n = choose|n: int| 0 <= n < a.extractions.len() && a.extractions[n] == rows[i];
        assert(a.extractions[n] == rows[i]);
    }
    assert(rows.map_values(f) =~= rows.map_values(g));
}

/// A declaration can be told from its record.
proof fn lemma_declaration_rebuilt(db: TablesView, e: Entry, o: Outside)
    requires
        is_rebuilt(db, o),
        declared(db, e, o) is Some,
        (o.read)(e.content) == e.decl,
        is_timely(db, Event::Declared(e), o),
    ensures
        is_rebuilt(declared(db, e, o)->Some_0, o),
        db.episodes.is_prefix_of(declared(db, e, o)->Some_0.episodes),
        forall|i: int|
            db.episodes.len() <= i < declared(db, e, o)->Some_0.episodes.len() ==> (
            #[trigger] declared(db, e, o)->Some_0.episodes[i]).id == (o.episode)(
                e.space,
                e.content,
                e.at,
            ) && declared(db, e, o)->Some_0.episodes[i].space == e.space,
{
    let after = declared(db, e, o)->Some_0;
    let with = with_entry(db, e, o);
    let run = run_of(db, e, o);
    let step = entry_step(e);
    let p = has_content(e.space, (o.hash)(e.content));
    lemma_projection_keeps_ledger(with, run, o);
    lemma_predicates_stay(with, run, o);
    let row = with.episodes.last();
    let n = db.episodes.len() as int;
    assert(with.episodes =~= db.episodes.push(row));
    assert(p(with.episodes[n]));
    lemma_first_where(with.episodes, p, n);
    let live = is_replayed_declaration();
    assert(live(row));
    assert(content_of(row) == e.content);
    lemma_declared_rows_stay(db, after, o);
    // The record gains one step.
    db.episodes.lemma_filter_push(row, live);
    assert(declaration_steps(after) =~= declaration_steps(db).push(step));
    reveal_strlit("primary");
    reveal_strlit("declaration");
    assert("primary"@.len() != "declaration"@.len());
    assert forall|i: int|
        0 <= i < db.extractions.len() && is_replayed_extraction(after)(
            #[trigger] db.extractions[i],
        ) implies is_replayed_extraction(db)(db.extractions[i]) by {
        let q = is_replayed_primary(db.extractions[i].episode_id);
        let k = choose|k: int| 0 <= k < after.episodes.len() && q(#[trigger] after.episodes[k]);
        assert(k < n);
        assert(q(db.episodes[k]));
    }
    lemma_extractions_stay(db, after);
    let d = declaration_steps(db);
    let x = extraction_steps(db);
    lemma_merge_first(d, x, step);
    lemma_merge_first(merged(d, x), redaction_steps(db), step);
    // And the step does what the declaration did.
    let start = over(after, db);
    assert(run_of(start, e, o) == run);
    assert(with_entry(start, e, o) == start);
    lemma_projects_over(after, db, run, o);
    assert(with =~= over(with, db));
    lemma_projects_over(with, db, run, o);
    let q = projected(db, run, o)->Some_0;
    assert(after == over(with, q));
    assert(over(after, q) =~= after);
    lemma_one_step_more(db, after, step, o);
}

/// Taking an episode in leaves the record of what was projected.
proof fn lemma_ingest_rebuilt(db: TablesView, event: Event, o: Outside)
    requires
        event is Ingested,
        is_rebuilt(db, o),
        is_timely(db, event, o),
    ensures
        is_rebuilt(after_event(db, event, o)->Some_0, o),
        db.episodes.is_prefix_of(after_event(db, event, o)->Some_0.episodes),
        forall|i: int|
            db.episodes.len() <= i < after_event(db, event, o)->Some_0.episodes.len() ==> (
            #[trigger] after_event(db, event, o)->Some_0.episodes[i]).id == event->Ingested_id
                && after_event(db, event, o)->Some_0.episodes[i].space == event->Ingested_space,
{
    if let Event::Ingested { space, content, source, trust, at, id } = event {
        let after = after_event(db, event, o)->Some_0;
        let p = has_content(space, (o.hash)(content));
        let live = is_replayed_declaration();
        reveal_strlit("primary");
        reveal_strlit("declaration");
        assert("primary"@.len() != "declaration"@.len());
        if some_where(db.episodes, p) {
            assert(after.episodes == db.episodes);
        } else {
            let row = after.episodes.last();
            assert(after.episodes =~= db.episodes.push(row));
            assert(!live(row));
            assert(row.id == id);
            db.episodes.lemma_filter_push(row, live);
        }
        assert(db.episodes.is_prefix_of(after.episodes));
        assert(declaration_steps(after) == declaration_steps(db));
        assert forall|i: int|
            0 <= i < db.extractions.len() && is_replayed_extraction(after)(
                #[trigger] db.extractions[i],
            ) implies is_replayed_extraction(db)(db.extractions[i]) by {
            let x = db.extractions[i];
            let q = is_replayed_primary(x.episode_id);
            let k = choose|k: int| 0 <= k < after.episodes.len() && q(
                #[trigger] after.episodes[k],
            );
            if k < db.episodes.len() {
                assert(q(db.episodes[k]));
            }
        }
        lemma_extractions_stay(db, after);
        lemma_declared_rows_stay(db, after, o);
        assert(projected_steps(after) == projected_steps(db));
        lemma_more_on_record(db, after, o);
        assert(over(after, db) =~= after);
    }
}

/// A response can be told from its record.
proof fn lemma_response_rebuilt(db: TablesView, row: ExtractionRowView, o: Outside)
    requires
        is_rebuilt(db, o),
        after_event(db, Event::Responded(row), o) is Some,
        is_timely(db, Event::Responded(row), o),
    ensures
        is_rebuilt(after_event(db, Event::Responded(row), o)->Some_0, o),
        after_event(db, Event::Responded(row), o)->Some_0.episodes == db.episodes,
{
    let after = after_event(db, Event::Responded(row), o)->Some_0;
    let p = is_replayed_primary(row.episode_id);
    let e = first_where(db.episodes, p)->Some_0;
    let step = extraction_step()((e, row));
    let x = response_of(db, e, row);
    let cached = with_response(db, row);
    lemma_extracts_over(cached, cached, x, o);
    assert(over(cached, cached) =~= cached);
    lemma_claims_keep_predicates(cached, x, (o.claims)(x.raw, x.content)->Some_0, o);
    assert(over(cached, after) == after);
    // The record gains one step.
    let taken = is_response(row.episode_id, row.extractor_id);
    lemma_all_kept(db.extractions, |y: ExtractionRowView| !taken(y));
    assert(after.extractions =~= db.extractions.push(row));
    assert(after.episodes == db.episodes);
    let here = is_replayed_extraction(db);
    let there = is_replayed_extraction(after);
    assert(here == there);
    assert(with_source(db) == with_source(after));
    lemma_first_stays(db.episodes, db.episodes, p);
    assert(there(row));
    db.extractions.lemma_filter_push(row, there);
    assert(extraction_steps(after) =~= extraction_steps(db).push(step));
    assert(declaration_steps(after) == declaration_steps(db));
    let d = declaration_steps(db);
    let xs = extraction_steps(db);
    lemma_merge_second(d, xs, step);
    lemma_merge_first(merged(d, xs), redaction_steps(db), step);
    // And the step does what the response did.
    let q = episode_has_id(row.episode_id);
    lemma_found(db.episodes, p);
    let i = choose|i: int| 0 <= i < db.episodes.len() && db.episodes[i] == e;
    assert(q(db.episodes[i]));
    lemma_first_stays(db.episodes, db.episodes, q);
    assert(db.episodes.is_prefix_of(after.episodes));
    lemma_extracts_over(cached, db, x, o);
    assert(over(cached, db) =~= cached);
    lemma_extracts_over(after, db, x, o);
    let y = extracted(db, x, o)->Some_0;
    assert(after == over(cached, y));
    assert(over(after, y) =~= after);
    assert(declared_rows(after, o));
    lemma_one_step_more(db, after, step, o);
}

/// The redaction of an entity can be told from its record.
proof fn lemma_redaction_rebuilt(db: TablesView, event: Event, o: Outside)
    requires
        event is Redacted,
        is_rebuilt(db, o),
        after_event(db, event, o) is Some,
        reads_back(event, o),
        is_timely(db, event, o),
    ensures
        is_rebuilt(after_event(db, event, o)->Some_0, o),
        after_event(db, event, o)->Some_0.episodes == db.episodes,
{
    if let Event::Redacted { space, entity, predicate, target_json, rid, reason, actor, at } =
        event {
        let after = after_event(db, event, o)->Some_0;
        let t = scoped(space, entity, predicate);
        let step = ReplayStepView::Redaction { target_json, at };
        let c = closure_of(db, t);
        let r = after_redaction(db, t, target_json, rid, reason, actor, at);
        assert(c.episodes.len() == 0);
        assert(c.extractions.len() == 0);
        assert(r.episodes =~= db.episodes);
        assert(r.extractions =~= db.extractions);
        assert(after.episodes == db.episodes);
        assert(db.episodes.is_prefix_of(after.episodes));
        assert(is_replayed_extraction(after) == is_replayed_extraction(db));
        assert(with_source(after) == with_source(db));
        assert(redaction_steps(after) =~= redaction_steps(db).push(step));
        let d = declaration_steps(db);
        let x = extraction_steps(db);
        let m = merged(d, x);
        if m.len() > 0 {
            lemma_merge_last(d, x);
        }
        lemma_merge_second(m, redaction_steps(db), step);
        let start = over(after, db);
        assert(closure_of(start, t) == c);
        let again = after_replay(start, t);
        assert(again =~= over(after, r));
        assert(groups_to_refold(again, t) == groups_to_refold(r, t));
        let (s, pairs) = groups_to_refold(r, t);
        lemma_refolds_over(after, r, s, pairs, at);
        let refolds = refolds_for(r, s, pairs, at)->Ok_0;
        lemma_folds_over(after, r, refolds, o);
        assert(over(after, after_folds(r, refolds, o)) =~= after);
        assert(declared_rows(after, o));
        lemma_one_step_more(db, after, step, o);
    }
}

/// Where steps are taken off the record and a redaction is put behind them, and
/// the steps that stay find the same in the ledger, following what is left gives
/// everything but the rows that went with the steps.
proof fn lemma_fewer_steps(
    db: TablesView,
    after: TablesView,
    keep: spec_fn(ReplayStepView) -> bool,
    r: Rows,
    step: ReplayStepView,
    o: Outside,
)
    requires
        is_rebuilt(db, o),
        after.predicates == db.predicates,
        parted(cleared(db), projected_steps(db), keep, r, o),
        projected_steps(after) == projected_steps(db).filter(keep).push(step),
        forall|i: int|
            0 <= i < projected_steps(db).len() && keep(#[trigger] projected_steps(db)[i])
                ==> same_record(cleared(db), after, projected_steps(db)[i], o),
        over(after, without(db, r)) == after,
        followed(after, step, o) == Some(after),
        is_calm(after, step, o),
        declared_rows(after, o),
    ensures
        is_rebuilt(after, o),
{
    let start = cleared(db);
    let steps = projected_steps(db);
    let kept = steps.filter(keep);
    assert(without(start, r) =~= start) by {
        reveal(Seq::filter);
        assert(start.entities.filter(other_entity(r)) =~= start.entities);
        assert(start.keys.filter(other_key(r)) =~= start.keys);
        assert(start.merges.filter(other_merge(r)) =~= start.merges);
        assert(start.statements.filter(other_statement(r)) =~= start.statements);
        assert(start.assertions.filter(other_assertion(r)) =~= start.assertions);
        assert(start.mentions.filter(other_mention(r)) =~= start.mentions);
        assert(start.beliefs.filter(other_belief(r)) =~= start.beliefs);
    }
    lemma_parted_walk(start, steps, keep, r, o);
    lemma_kept(steps, keep);
    assert forall|i: int| 0 <= i < kept.len() implies same_record(
        start,
        after,
        #[trigger] kept[i],
        o,
    ) by {
        assert(keep(kept[i]));
        assert(steps.contains(kept[i]));
        let k = choose|k: int| 0 <= k < steps.len() && steps[k] == kept[i];
        assert(keep(steps[k]));
    }
    assert(over(start, start) =~= start);
    lemma_walk_over(start, after, start, kept, o);
    assert(over(after, start) =~= cleared(after));
    assert(kept.push(step).drop_last() =~= kept);
    assert(kept.push(step).last() == step);
}

/// The purge of a space can be told from its record.
proof fn lemma_purge_rebuilt(
    db: TablesView,
    event: Event,
    o: Outside,
    home: spec_fn(Seq<char>) -> Seq<char>,
)
    requires
        event is Purged,
        is_rebuilt(db, o),
        reads_back(event, o),
        is_timely(db, event, o),
        names_at_home(o, home),
        episodes_at_home(db, home),
    ensures
        is_rebuilt(after_event(db, event, o)->Some_0, o),
        episodes_at_home(after_event(db, event, o)->Some_0, home),
{
    if let Event::Purged { space, target_json, rid, reason, actor, at } = event {
        let after = after_event(db, event, o)->Some_0;
        let t = RedactTargetView::Space { id: space };
        if is_nothing(closure_of(db, t)) {
            assert(after.episodes == db.episodes);
            assert(is_replayed_extraction(after) == is_replayed_extraction(db));
            assert(with_source(after) == with_source(db));
            assert(projected_steps(after) == projected_steps(db));
            assert(db.episodes.is_prefix_of(after.episodes));
            lemma_more_on_record(db, after, o);
            assert(over(after, db) =~= after);
        } else {
            let noted = recorded(db, target_json, rid, reason, actor, at);
            let step = ReplayStepView::Redaction { target_json, at };
            let keep = stays_without(space);
            let r = rows_of(home, space);
            let start = cleared(db);
            let steps = projected_steps(db);
            let out = |e: EpisodeRowView| e.space != space;
            lemma_steps_on_record(db, o);
            assert forall|i: int| 0 <= i < steps.len() implies on_record(
                start,
                #[trigger] steps[i],
                o,
            ) by {
                assert(on_record(db, steps[i], o));
            }
            lemma_walk_parts(start, steps, o, home, space);
            assert(is_local(noted, home));
            lemma_purge_leaves(noted, space, home);
            assert(over(after, without(db, r)) =~= over(after, without(noted, r)));
            lemma_purge_record(noted, space, home);
            assert(is_replayed_extraction(noted) == is_replayed_extraction(db));
            assert(with_source(noted) == with_source(db));
            assert(declaration_steps(noted) == declaration_steps(db));
            assert(extraction_steps(noted) == extraction_steps(db));
            let reds = redaction_steps(db);
            assert(redaction_steps(after) =~= reds.push(step));
            assert forall|i: int| 0 <= i < reds.len() implies keep(#[trigger] reds[i]) by {}
            lemma_steps_taken_off(declaration_steps(db), extraction_steps(db), reds, keep, step);
            lemma_kept(db.episodes, out);
            assert forall|i: int| 0 <= i < steps.len() && keep(
                #[trigger] steps[i],
            ) implies same_record(start, after, steps[i], o) by {
                assert(on_record(db, steps[i], o));
                match steps[i] {
                    ReplayStepView::Declaration { space: s, content, at: _ } => {
                        let p = has_content(s, (o.hash)(content));
                        lemma_filter_within(db.episodes, out, p);
                        lemma_found_within(db.episodes, out, p);
                    },
                    ReplayStepView::Extraction { space: s, episode, .. } => {
                        let both = |e: EpisodeRowView| e.id == episode && e.space == s;
                        let p = episode_has_id(episode);
                        let n = choose|n: int| 0 <= n < db.episodes.len() && both(
                            #[trigger] db.episodes[n],
                        );
                        assert(home(db.episodes[n].id) == s);
                        assert forall|m: int| 0 <= m < db.episodes.len() && p(
                            #[trigger] db.episodes[m],
                        ) implies out(db.episodes[m]) by {}
                        lemma_filter_within(db.episodes, out, p);
                        lemma_found_within(db.episodes, out, both);
                    },
                    _ => {},
                }
            }
            lemma_nothing_to_redact(after, t, at, o);
            assert forall|i: int|
                0 <= i < after.episodes.len() && is_replayed_declaration()(
                    #[trigger] after.episodes[i],
                ) implies ({
                let e = after.episodes[i];
                &&& e.content_hash == (o.hash)(content_of(e))
                &&& first_where(after.episodes, has_content(e.space, e.content_hash)) == Some(e)
            }) by {
                let e = after.episodes[i];
                assert(out(after.episodes[i]));
                assert(db.episodes.contains(e));
                let k = choose|k: int| 0 <= k < db.episodes.len() && db.episodes[k] == e;
                assert(is_replayed_declaration()(db.episodes[k]));
                lemma_filter_within(
                    db.episodes,
                    out,
                    has_content(e.space, e.content_hash),
                );
            }
            assert forall|i: int| 0 <= i < after.episodes.len() implies home(
                (#[trigger] after.episodes[i]).id,
            ) == after.episodes[i].space by {
                let e = after.episodes[i];
                assert(db.episodes.contains(e));
                let k = choose|k: int| 0 <= k < db.episodes.len() && db.episodes[k] == e;
                assert(home(db.episodes[k].id) == db.episodes[k].space);
            }
            lemma_fewer_steps(db, after, keep, r, step, o);
        }
    }
}

/// The first of updated rows is the first of the rows, updated, where the update
/// changes nothing that is looked at.
proof fn lemma_first_updated<V>(
    s: Seq<V>,
    p: spec_fn(V) -> bool,
    g: spec_fn(V) -> V,
    q: spec_fn(V) -> bool,
)
    requires
        forall|v: V| q(#[trigger] g(v)) == q(v),
    ensures
        some_where(updated(s, p, g), q) == some_where(s, q),
        first_where(s, q) matches Some(v) ==> first_where(updated(s, p, g), q) == Some(
            if p(v) {
                g(v)
            } else {
                v
            },
        ),
{
    let u = updated(s, p, g);
    lemma_updated_filter(s, p, g, q);
    if some_where(s, q) {
        let i = choose|i: int| 0 <= i < s.len() && q(#[trigger] s[i]);
        assert(q(u[i]));
    }
    if some_where(u, q) {
        let i = choose|i: int| 0 <= i < u.len() && q(#[trigger] u[i]);
        assert(q(s[i]));
    }
}

/// What the redaction of an episode leaves of the record: its steps are gone.
proof fn lemma_episode_record(
    db: TablesView,
    after: TablesView,
    id: Seq<char>,
    at: Timestamp,
    o: Outside,
)
    requires
        declared_rows(db, o),
        after.episodes == updated(db.episodes, is_live_among(seq![id]), tombstone(at)),
        after.extractions == updated(
            db.extractions,
            extracted_from_any(episode_closure(db, id).extractions),
            blanked(),
        ),
    ensures
        declaration_steps(after) == declaration_steps(db).filter(stays_beside(db, id, o)),
        extraction_steps(after) == extraction_steps(db).filter(stays_beside(db, id, o)),
        declared_rows(after, o),
{
    let keep = stays_beside(db, id, o);
    let hit = is_live_among(seq![id]);
    let stone = tombstone(at);
    let live = is_replayed_declaration();
    assert(seq![id][0] == id);
    assert(forall|e: EpisodeRowView| hit(e) == (e.id == id && e.redacted_at is None)) by {
        assert forall|e: EpisodeRowView| hit(e) == (e.id == id && e.redacted_at is None) by {
            if e.id == id {
                assert(seq![id].contains(id));
            }
        }
    }
    // The declarations.
    let apart = |e: EpisodeRowView| e.id != id;
    lemma_live_updated(db.episodes, hit, stone, live, apart);
    lemma_map_filter(db.episodes.filter(live), declaration_step(), keep);
    let kept = |e: EpisodeRowView| keep(declaration_step()(e));
    let rows = db.episodes.filter(live);
    lemma_kept(db.episodes, live);
    assert forall|i: int| 0 <= i < rows.len() implies kept(#[trigger] rows[i]) == apart(rows[i]) by {
        assert(live(rows[i]));
        assert(db.episodes.contains(rows[i]));
        let n = choose|n: int| 0 <= n < db.episodes.len() && db.episodes[n] == rows[i];
        assert(live(db.episodes[n]));
    }
    lemma_same_filter(rows, kept, apart);
    // The responses.
    let here = is_replayed_extraction(db);
    let there = is_replayed_extraction(after);
    let f = with_source(db);
    let g = with_source(after);
    let ids = episode_closure(db, id).extractions;
    let blank = extracted_from_any(ids);
    let other = |x: ExtractionRowView| x.episode_id != id;
    assert forall|x: ExtractionRowView| #[trigger] blank(x) implies x.episode_id == id by {
        let k = choose|k: int| 0 <= k < ids.len() && ids[k] == x.episode_id;
        let from = extracted_from(id);
        lemma_kept(db.extractions, from);
        assert(from(db.extractions.filter(from)[k]));
    }
    assert forall|x: ExtractionRowView| #[trigger] there(x) == (here(x) && other(x)) && (there(x)
        ==> f(x) == g(x)) by {
        let p = is_replayed_primary(x.episode_id);
        if x.episode_id == id {
            if there(x) {
                let k = choose|k: int| 0 <= k < after.episodes.len() && p(
                    #[trigger] after.episodes[k],
                );
                assert(db.episodes[k].id == id);
                assert(hit(db.episodes[k]) || db.episodes[k].redacted_at is Some);
            }
        } else {
            assert forall|k: int| 0 <= k < db.episodes.len() implies p(
                #[trigger] after.episodes[k],
            ) == p(db.episodes[k]) && (p(db.episodes[k]) ==> after.episodes[k]
                == db.episodes[k]) by {}
            if here(x) {
                let k = choose|k: int| 0 <= k < db.episodes.len() && p(#[trigger] db.episodes[k]);
                assert(p(after.episodes[k]));
            }
            if there(x) {
                let k = choose|k: int| 0 <= k < after.episodes.len() && p(
                    #[trigger] after.episodes[k],
                );
                assert(p(db.episodes[k]));
            }
            lemma_same_selected(db.episodes, after.episodes, p);
        }
    }
    let left = db.extractions.filter(here).filter(other);
    lemma_select_both(after.extractions, |x: ExtractionRowView| true, there, here, other);
    lemma_all_kept(after.extractions, |x: ExtractionRowView| true);
    assert(after.extractions.filter(there) == after.extractions.filter(here).filter(other));
    lemma_unseen_rows(db.extractions, blank, blanked(), here, other);
    assert(after.extractions.filter(there) == left);
    let stay = |x: ExtractionRowView| keep(extraction_step()(f(x)));
    let pairs = db.extractions.filter(here).map_values(f);
    lemma_map_filter(pairs, extraction_step(), keep);
    let kept_pair = |q: (EpisodeRowView, ExtractionRowView)| keep(extraction_step()(q));
    lemma_map_filter(db.extractions.filter(here), f, kept_pair);
    let mine = db.extractions.filter(here);
    lemma_kept(db.extractions, here);
    assert forall|i: int| 0 <= i < mine.len() implies kept_pair(f(#[trigger] mine[i])) == other(
        mine[i],
    ) by {
        assert(here(mine[i]));
        let p = is_replayed_primary(mine[i].episode_id);
        lemma_first_stays(db.episodes, db.episodes, p);
        lemma_found(db.episodes, p);
    }
    lemma_same_filter(mine, |x: ExtractionRowView| kept_pair(f(x)), other);
    lemma_kept(mine, other);
    assert forall|i: int| 0 <= i < left.len() implies f(#[trigger] left[i]) == g(left[i]) by {
        assert(other(left[i]));
        assert(mine.contains(left[i]));
        let n = choose|n: int| 0 <= n < mine.len() && mine[n] == left[i];
        assert(here(mine[n]));
        assert(there(left[i]));
    }
    assert(left.map_values(f) =~= left.map_values(g));
    // The live declarations that are left.
    assert forall|i: int|
        0 <= i < after.episodes.len() && live(#[trigger] after.episodes[i]) implies ({
        let e = after.episodes[i];
        &&& e.content_hash == (o.hash)(content_of(e))
        &&& first_where(after.episodes, has_content(e.space, e.content_hash)) == Some(e)
    }) by {
        let e = db.episodes[i];
        assert(!hit(e));
        assert(after.episodes[i] == e);
        assert(live(db.episodes[i]));
        let q = has_content(e.space, e.content_hash);
        lemma_first_updated(db.episodes, hit, stone, q);
    }
}

/// Two tables whose selected rows stand at the same places are alike in them.
proof fn lemma_same_selected<V>(a: Seq<V>, b: Seq<V>, p: spec_fn(V) -> bool)
    requires
        a.len() == b.len(),
        forall|k: int|
            0 <= k < a.len() ==> p(#[trigger] b[k]) == p(a[k]) && (p(a[k]) ==> b[k] == a[k]),
    ensures
        a.filter(p) == b.filter(p),
    decreases a.len(),
{
    reveal(Seq::filter);
    if a.len() > 0 {
        let x = a.drop_last();
        let y = b.drop_last();
        assert forall|k: int| 0 <= k < x.len() implies p(#[trigger] y[k]) == p(x[k]) && (p(x[k])
            ==> y[k] == x[k]) by {
            assert(b[k] == y[k]);
            assert(a[k] == x[k]);
        }
        lemma_same_selected(x, y, p);
        assert(b[b.len() - 1] == b.last());
    }
}

/// Where an update takes rows out of a selection, the selection is left with the
/// others.
proof fn lemma_live_updated<V>(
    s: Seq<V>,
    p: spec_fn(V) -> bool,
    g: spec_fn(V) -> V,
    live: spec_fn(V) -> bool,
    apart: spec_fn(V) -> bool,
)
    requires
        forall|i: int|
            0 <= i < s.len() ==> if p(#[trigger] s[i]) {
                !live(g(s[i])) && !apart(s[i])
            } else {
                live(s[i]) ==> apart(s[i])
            },
    ensures
        updated(s, p, g).filter(live) == s.filter(live).filter(apart),
    decreases s.len(),
{
    reveal(Seq::filter);
    if s.len() == 0 {
        assert(updated(s, p, g) =~= s);
    } else {
        let init = s.drop_last();
        assert forall|i: int| 0 <= i < init.len() implies if p(#[trigger] init[i]) {
            !live(g(init[i])) && !apart(init[i])
        } else {
            live(init[i]) ==> apart(init[i])
        } by {
            assert(init[i] == s[i]);
        }
        lemma_live_updated(init, p, g, live, apart);
        assert(updated(s, p, g).drop_last() =~= updated(init, p, g));
        assert(s[s.len() - 1] == s.last());
        let head = init.filter(live);
        if live(s.last()) {
            assert(head.push(s.last()).drop_last() =~= head);
        }
    }
}

/// An update of rows that two selections do not keep leaves what they keep.
proof fn lemma_unseen_rows<V>(
    s: Seq<V>,
    p: spec_fn(V) -> bool,
    g: spec_fn(V) -> V,
    a: spec_fn(V) -> bool,
    b: spec_fn(V) -> bool,
)
    requires
        forall|i: int| 0 <= i < s.len() && p(#[trigger] s[i]) ==> !b(s[i]) && !b(g(s[i])),
    ensures
        updated(s, p, g).filter(a).filter(b) == s.filter(a).filter(b),
    decreases s.len(),
{
    reveal(Seq::filter);
    if s.len() == 0 {
        assert(updated(s, p, g) =~= s);
    } else {
        let init = s.drop_last();
        assert forall|i: int| 0 <= i < init.len() && p(#[trigger] init[i]) implies !b(init[i])
            && !b(g(init[i])) by {
            assert(init[i] == s[i]);
        }
        lemma_unseen_rows(init, p, g, a, b);
        let u = updated(s, p, g);
        assert(u.drop_last() =~= updated(init, p, g));
        assert(s[s.len() - 1] == s.last());
        let x = init.filter(a);
        let y = updated(init, p, g).filter(a);
        if a(s.last()) {
            assert(x.push(s.last()).drop_last() =~= x);
        }
        if a(u.last()) {
            assert(y.push(u.last()).drop_last() =~= y);
        }
    }
}

/// The redaction of an episode on which nothing rests can be told from its record.
proof fn lemma_episode_rebuilt(db: TablesView, event: Event, o: Outside)
    requires
        event is EpisodeRedacted,
        is_rebuilt(db, o),
        after_event(db, event, o) is Some,
        reads_back(event, o),
        is_timely(db, event, o),
    ensures
        is_rebuilt(after_event(db, event, o)->Some_0, o),
        ({
            let after = after_event(db, event, o)->Some_0;
            &&& after.episodes.len() == db.episodes.len()
            &&& forall|i: int|
                0 <= i < db.episodes.len() ==> (#[trigger] after.episodes[i]).id
                    == db.episodes[i].id && after.episodes[i].space == db.episodes[i].space
        }),
{
    if let Event::EpisodeRedacted { id, target_json, rid, reason, actor, at } = event {
        let after = after_event(db, event, o)->Some_0;
        let t = RedactTargetView::Episode { id };
        let c = episode_closure(db, id);
        let step = ReplayStepView::Redaction { target_json, at };
        let keep = stays_beside(db, id, o);
        let steps = projected_steps(db);
        let start = cleared(db);
        let hit = is_live_among(seq![id]);
        let stone = tombstone(at);
        let own = choose|own: Rows|
            #![trigger without(db, own)]
            {
                &&& parted(start, steps, keep, own, o)
                &&& over(after, without(db, own)) == after
            };
        assert(after.episodes == updated(db.episodes, hit, stone));
        lemma_episode_record(db, after, id, at, o);
        let reds = redaction_steps(db);
        assert(redaction_steps(after) =~= reds.push(step));
        assert forall|i: int| 0 <= i < reds.len() implies keep(#[trigger] reds[i]) by {}
        lemma_steps_taken_off(declaration_steps(db), extraction_steps(db), reds, keep, step);
        lemma_steps_on_record(db, o);
        assert forall|i: int| 0 <= i < steps.len() && keep(#[trigger] steps[i]) implies same_record(
            start,
            after,
            steps[i],
            o,
        ) by {
            assert(on_record(db, steps[i], o));
            match steps[i] {
                ReplayStepView::Declaration { space, content, at: _ } => {
                    let p = has_content(space, (o.hash)(content));
                    lemma_first_stays(db.episodes, db.episodes, p);
                    lemma_first_updated(db.episodes, hit, stone, p);
                },
                ReplayStepView::Extraction { space, episode, .. } => {
                    let both = |e: EpisodeRowView| e.id == episode && e.space == space;
                    let p = episode_has_id(episode);
                    let n = choose|n: int| 0 <= n < db.episodes.len() && both(
                        #[trigger] db.episodes[n],
                    );
                    assert(p(db.episodes[n]));
                    lemma_first_stays(db.episodes, db.episodes, p);
                    lemma_first_updated(db.episodes, hit, stone, p);
                    lemma_first_updated(db.episodes, hit, stone, both);
                },
                _ => {},
            }
        }
        // The episode asserts nothing any more.
        let gone = |a: AssertionView| !c.assertions.contains(a.id);
        assert(after.assertions == db.assertions.filter(gone));
        lemma_kept(db.assertions, gone);
        if some_where(after.assertions, asserted_by(id)) {
            let i = choose|i: int| 0 <= i < after.assertions.len() && asserted_by(id)(
                #[trigger] after.assertions[i],
            );
            let a = after.assertions[i];
            assert(gone(after.assertions[i]));
            assert(db.assertions.contains(a));
            lemma_picked(db.assertions, asserted_by(id), assertion_id_of(), a);
        }
        lemma_nothing_to_redact(after, t, at, o);
        lemma_fewer_steps(db, after, keep, own, step, o);
    }
}

/// Whether a history holds a purge of a space.
pub open spec fn has_purge(events: Seq<Event>) -> bool {
    exists|i: int| 0 <= i < events.len() && (#[trigger] events[i]) is Purged
}

/// Whatever happens, the record gives what is known.
proof fn lemma_history_rebuilt(
    db: TablesView,
    events: Seq<Event>,
    o: Outside,
    home: spec_fn(Seq<char>) -> Seq<char>,
    purging: bool,
)
    requires
        is_new(db),
        forall|i: int| 0 <= i < events.len() ==> reads_back(#[trigger] events[i], o),
        all_timely(db, events, o),
        has_purge(events) ==> purging,
        purging ==> names_at_home(o, home),
        purging ==> forall|i: int|
            0 <= i < events.len() ==> ingested_at_home(#[trigger] events[i], home),
    ensures
        is_rebuilt(history(db, events, o), o),
        purging ==> episodes_at_home(history(db, events, o), home),
    decreases events.len(),
{
    if events.len() == 0 {
        reveal(Seq::filter);
        assert(declaration_steps(db) =~= Seq::empty());
        assert(extraction_steps(db) =~= Seq::empty());
        assert(redaction_steps(db) =~= Seq::empty());
        assert(projected_steps(db) =~= Seq::empty());
    } else {
        let init = events.drop_last();
        let event = events.last();
        assert(event == events[events.len() - 1]);
        assert forall|i: int| 0 <= i < init.len() implies reads_back(#[trigger] init[i], o) by {
            assert(init[i] == events[i]);
        }
        assert forall|i: int|
            0 <= i < init.len() && purging implies ingested_at_home(#[trigger] init[i], home) by {
            assert(init[i] == events[i]);
        }
        if has_purge(init) {
            let i = choose|i: int| 0 <= i < init.len() && (#[trigger] init[i]) is Purged;
            assert(events[i] is Purged);
        }
        lemma_history_rebuilt(db, init, o, home, purging);
        let before = history(db, init, o);
        if after_event(before, event, o) is Some {
            let after = after_event(before, event, o)->Some_0;
            match event {
                Event::Opened { id, name, at } => {
                    assert(after.episodes == before.episodes);
                    assert(is_replayed_extraction(after) == is_replayed_extraction(before));
                    assert(with_source(after) == with_source(before));
                    assert(projected_steps(after) == projected_steps(before));
                    assert(before.episodes.is_prefix_of(after.episodes));
                    lemma_more_on_record(before, after, o);
                    assert(over(after, before) =~= after);
                },
                Event::Declared(e) => {
                    lemma_declaration_rebuilt(before, e, o);
                    lemma_still_at_home(before, after, home);
                },
                Event::Ingested { .. } => {
                    lemma_ingest_rebuilt(before, event, o);
                    lemma_still_at_home(before, after, home);
                },
                Event::Responded(row) => {
                    lemma_response_rebuilt(before, row, o);
                },
                Event::Redacted { .. } => {
                    lemma_redaction_rebuilt(before, event, o);
                },
                Event::EpisodeRedacted { .. } => {
                    lemma_episode_rebuilt(before, event, o);
                    assert(purging ==> episodes_at_home(after, home)) by {
                        if purging {
                            assert forall|i: int| 0 <= i < after.episodes.len() implies home(
                                (#[trigger] after.episodes[i]).id,
                            ) == after.episodes[i].space by {
                                assert(home(before.episodes[i].id) == before.episodes[i].space);
                            }
                        }
                    }
                },
                Event::Purged { .. } => {
                    lemma_purge_rebuilt(before, event, o, home);
                },
            }
        }
    }
}

/// Episodes stay at home when more come that are.
proof fn lemma_still_at_home(
    db: TablesView,
    after: TablesView,
    home: spec_fn(Seq<char>) -> Seq<char>,
)
    requires
        db.episodes.is_prefix_of(after.episodes),
    ensures
        episodes_at_home(db, home) && (forall|i: int|
            db.episodes.len() <= i < after.episodes.len() ==> home(
                (#[trigger] after.episodes[i]).id,
            ) == after.episodes[i].space) ==> episodes_at_home(after, home),
{
    if episodes_at_home(db, home) && (forall|i: int|
        db.episodes.len() <= i < after.episodes.len() ==> home((#[trigger] after.episodes[i]).id)
            == after.episodes[i].space) {
        assert forall|i: int| 0 <= i < after.episodes.len() implies home(
            (#[trigger] after.episodes[i]).id,
        ) == after.episodes[i].space by {
            if i < db.episodes.len() {
                assert(after.episodes[i] == db.episodes[i]);
                assert(home(db.episodes[i].id) == db.episodes[i].space);
            }
        }
    }
}

/// Rebuild steps leave what is known as it is.
proof fn lemma_rebuilds(
    db: TablesView,
    steps: Seq<ReplayStepView>,
    spaces: Seq<Seq<char>>,
    o: Outside,
)
    requires
        replayed(db, steps, o) is Some,
    ensures
        replayed(db, steps + spaces.map_values(rebuild_step()), o) == replayed(db, steps, o),
    decreases spaces.len(),
{
    let more = spaces.map_values(rebuild_step());
    if spaces.len() == 0 {
        assert(steps + more =~= steps);
    } else {
        lemma_rebuilds(db, steps, spaces.drop_last(), o);
        let all = steps + more;
        assert(all.drop_last() =~= steps + spaces.drop_last().map_values(rebuild_step()));
        assert(all.last() == rebuild_step()(spaces.last()));
    }
}

/// A replay rebuilds the projection exactly. Whatever happened to a new store —
/// spaces opened and purged, declarations, episodes, responses, and redactions of
/// entities and of episodes, in any order — following the steps that a
/// reprojection hands out, from the cleared projection, gives the very tables
/// that were there before.
///
/// What was projected must be told from its record: the same text declared
/// again, and a response that replaces another, leave no record of their own, and
/// the record has the order of events by their times. Nothing may rest on an
/// episode that is redacted. Where a space is purged, the ids that are named in
/// one space are none of another: `home` is the space of an id.
pub proof fn law_replay_rebuilds_the_projection(
    db: TablesView,
    events: Seq<Event>,
    o: Outside,
    home: spec_fn(Seq<char>) -> Seq<char>,
)
    requires
        is_new(db),
        forall|i: int| 0 <= i < events.len() ==> reads_back(#[trigger] events[i], o),
        all_timely(db, events, o),
        has_purge(events) ==> names_at_home(o, home),
        has_purge(events) ==> forall|i: int|
            0 <= i < events.len() ==> ingested_at_home(#[trigger] events[i], home),
    ensures
        ({
            let end = history(db, events, o);
            replayed(cleared(end), replay_steps(end), o) == Some(end)
        }),
{
    let end = history(db, events, o);
    lemma_history_rebuilt(db, events, o, home, has_purge(events));
    let spaces = distinct(end.spaces.map_values(space_id_of()));
    lemma_rebuilds(cleared(end), projected_steps(end), spaces, o);
}

} // verus!
