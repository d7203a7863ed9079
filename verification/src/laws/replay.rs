//! What is replayed when the projection is built again.
use vstd::prelude::*;

use crate::extraction::inherited_trust;
use crate::ledger::content_of;
use crate::reproject::{
    cleared, declaration_step, declaration_steps, extraction_step, extraction_steps,
    is_replayed_declaration, is_replayed_extraction, is_replayed_primary, merged, projected_steps,
    rebuild_step, redaction_steps, replay_steps, space_id_of, step_time, with_source,
    ReplayStepView,
};
use crate::rows::{
    distinct, first_where, lemma_both_contain, lemma_distinct, lemma_first_is, lemma_got,
    lemma_selected,
};
use crate::tables::{EpisodeRowView, ExtractionRowView, TablesView};

verus! {

/// Building again starts from an empty projection, and leaves the ledger alone.
pub proof fn law_projection_is_emptied_first(db: TablesView)
    ensures
        ({
            let after = cleared(db);
            &&& after.beliefs.len() == 0
            &&& after.mentions.len() == 0
            &&& after.assertions.len() == 0
            &&& after.statements.len() == 0
            &&& after.merges.len() == 0
            &&& after.keys.len() == 0
            &&& after.entities.len() == 0
            &&& after.episodes == db.episodes
            &&& after.extractions == db.extractions
            &&& after.redactions == db.redactions
            &&& after.spaces == db.spaces
            &&& after.predicates == db.predicates
        }),
{
}

/// The declarations that are replayed are the episodes of that kind that were not
/// redacted, each with its space, its content and the time it was ingested.
pub proof fn law_declarations_are_replayed(db: TablesView)
    ensures
        forall|s: ReplayStepView| #[trigger]
            declaration_steps(db).contains(s) <==> exists|i: int|
                0 <= i < db.episodes.len() && (#[trigger] db.episodes[i]).kind == "declaration"@
                    && db.episodes[i].redacted_at is None
                        && (s matches ReplayStepView::Declaration {
                    space,
                    content,
                    at,
                } && space == db.episodes[i].space && content == content_of(db.episodes[i]) && at
                    == db.episodes[i].ingested_at),
{
    let p = is_replayed_declaration();
    lemma_got(db.episodes, p, declaration_step());
    assert forall|s: ReplayStepView| #[trigger]
        declaration_steps(db).contains(s) <==> exists|i: int|
            0 <= i < db.episodes.len() && (#[trigger] db.episodes[i]).kind == "declaration"@
                && db.episodes[i].redacted_at is None && (s matches ReplayStepView::Declaration {
                space,
                content,
                at,
            } && space == db.episodes[i].space && content == content_of(db.episodes[i]) && at
                == db.episodes[i].ingested_at) by {
        if declaration_steps(db).contains(s) {
            let i = choose|i: int|
                0 <= i < db.episodes.len() && p(#[trigger] db.episodes[i]) && declaration_step()(
                    db.episodes[i],
                ) == s;
            assert(db.episodes[i].kind == "declaration"@);
        }
        if exists|i: int| 0 <= i < db.episodes.len() && is_declared(#[trigger] db.episodes[i], s) {
            let i = choose|i: int|
                0 <= i < db.episodes.len() && is_declared(#[trigger] db.episodes[i], s);
            assert(p(db.episodes[i]) && declaration_step()(db.episodes[i]) == s);
        }
        if exists|i: int|
            0 <= i < db.episodes.len() && (#[trigger] db.episodes[i]).kind == "declaration"@
                && db.episodes[i].redacted_at is None && (s matches ReplayStepView::Declaration {
                space,
                content,
                at,
            } && space == db.episodes[i].space && content == content_of(db.episodes[i]) && at
                == db.episodes[i].ingested_at) {
            let i = choose|i: int|
                0 <= i < db.episodes.len() && (#[trigger] db.episodes[i]).kind == "declaration"@
                    && db.episodes[i].redacted_at is None
                        && (s matches ReplayStepView::Declaration {
                    space,
                    content,
                    at,
                } && space == db.episodes[i].space && content == content_of(db.episodes[i]) && at
                    == db.episodes[i].ingested_at);
            assert(is_declared(db.episodes[i], s));
        }
    }
}

/// Whether a step is that of a declaration that was not redacted.
spec fn is_declared(e: EpisodeRowView, s: ReplayStepView) -> bool {
    e.kind == "declaration"@ && e.redacted_at is None && (s matches ReplayStepView::Declaration {
        space,
        content,
        at,
    } && space == e.space && content == content_of(e) && at == e.ingested_at)
}

/// Whether a step replays a cached response over its episode.
pub open spec fn is_step_of(e: EpisodeRowView, x: ExtractionRowView, s: ReplayStepView) -> bool {
    s matches ReplayStepView::Extraction { space, episode, extractor, raw, content, at, cached }
        && {
        &&& e.kind == "primary"@
        &&& e.redacted_at is None
        &&& e.id == x.episode_id
        &&& space == e.space
        &&& episode == e.id
        &&& extractor == x.extractor_id
        &&& raw == x.raw_response
        &&& content == content_of(e)
        &&& at == e.ingested_at
        &&& cached == x.created_at
    }
}

/// Every step that replays a response is of a cached response and its episode, which
/// is a primary one and was not redacted; and every such response is replayed.
pub proof fn law_responses_are_replayed(db: TablesView)
    ensures
        forall|s: ReplayStepView| #[trigger]
            extraction_steps(db).contains(s) ==> exists|i: int, k: int|
                #![trigger db.episodes[i], db.extractions[k]]
                0 <= i < db.episodes.len() && 0 <= k < db.extractions.len() && is_step_of(
                    db.episodes[i],
                    db.extractions[k],
                    s,
                ),
        forall|k: int|
            0 <= k < db.extractions.len() && (exists|i: int|
                0 <= i < db.episodes.len() && (#[trigger] db.episodes[i]).id
                    == db.extractions[k].episode_id && db.episodes[i].kind == "primary"@
                    && db.episodes[i].redacted_at is None) ==> exists|s: ReplayStepView| #[trigger]
                extraction_steps(db).contains(s) && is_replay_of(s, #[trigger] db.extractions[k]),
{
    let p = is_replayed_extraction(db);
    let rows = db.extractions.filter(p);
    lemma_selected(db.extractions, p);
    let steps = extraction_steps(db);
    assert forall|s: ReplayStepView| #[trigger] steps.contains(s) implies exists|i: int, k: int|
        #![trigger db.episodes[i], db.extractions[k]]
        0 <= i < db.episodes.len() && 0 <= k < db.extractions.len() && is_step_of(
            db.episodes[i],
            db.extractions[k],
            s,
        ) by {
        let n = choose|n: int| 0 <= n < steps.len() && steps[n] == s;
        let x = rows[n];
        assert(p(rows[n]) && db.extractions.contains(x));
        let k = choose|k: int| 0 <= k < db.extractions.len() && db.extractions[k] == x;
        let q = is_replayed_primary(x.episode_id);
        lemma_first_is(db.episodes, q);
        let m = choose|m: int| 0 <= m < db.episodes.len() && q(#[trigger] db.episodes[m]);
        let e = first_where(db.episodes, q)->Some_0;
        let i = choose|i: int| 0 <= i < db.episodes.len() && db.episodes[i] == e;
        assert(is_step_of(db.episodes[i], db.extractions[k], s));
    }
    assert forall|k: int|
        0 <= k < db.extractions.len() && (exists|i: int|
            0 <= i < db.episodes.len() && (#[trigger] db.episodes[i]).id
                == db.extractions[k].episode_id && db.episodes[i].kind == "primary"@
                && db.episodes[i].redacted_at is None) implies exists|s: ReplayStepView| #[trigger]
        steps.contains(s) && is_replay_of(s, #[trigger] db.extractions[k]) by {
        let x = db.extractions[k];
        let i = choose|i: int|
            0 <= i < db.episodes.len() && (#[trigger] db.episodes[i]).id == x.episode_id
                && db.episodes[i].kind == "primary"@ && db.episodes[i].redacted_at is None;
        assert(is_replayed_primary(x.episode_id)(db.episodes[i]));
        assert(p(x));
        assert(db.extractions.contains(x));
        assert(rows.contains(x));
        let n = choose|n: int| 0 <= n < rows.len() && rows[n] == x;
        lemma_first_is(db.episodes, is_replayed_primary(x.episode_id));
        assert(steps[n] == extraction_step()(with_source(db)(x)));
        assert(steps.contains(steps[n]) && is_replay_of(steps[n], x));
    }
}

/// Whether a step replays a cached response.
pub open spec fn is_replay_of(s: ReplayStepView, x: ExtractionRowView) -> bool {
    s matches ReplayStepView::Extraction { episode, extractor, raw, cached, .. } && episode
        == x.episode_id && extractor == x.extractor_id && raw == x.raw_response && cached
        == x.created_at
}

/// The redactions that are replayed are those on record, each with its target and
/// its time.
pub proof fn law_redactions_are_replayed(db: TablesView)
    ensures
        redaction_steps(db).len() == db.redactions.len(),
        forall|i: int|
            0 <= i < db.redactions.len() ==> #[trigger] redaction_steps(db)[i]
                == (ReplayStepView::Redaction {
                target_json: db.redactions[i].target_json,
                at: db.redactions[i].redacted_at,
            }),
{
}

/// Whether steps stand in the order of their times.
pub open spec fn is_timed(steps: Seq<ReplayStepView>) -> bool {
    forall|i: int, j: int|
        0 <= i < j < steps.len() ==> step_time(#[trigger] steps[i])
            <= step_time(#[trigger] steps[j])
}

/// A step stands at the time at which what it replays was recorded: a response at
/// the time it was cached.
pub proof fn law_steps_stand_at_their_times(s: ReplayStepView)
    ensures
        s matches ReplayStepView::Declaration { at, .. } ==> step_time(s) == at.0,
        s matches ReplayStepView::Extraction { cached, .. } ==> step_time(s) == cached.0,
        s matches ReplayStepView::Redaction { at, .. } ==> step_time(s) == at.0,
{
}

/// Two lists of steps in the order of their times merge into one in that order, with
/// the steps of both; of two at one time that of the first list comes first.
pub proof fn law_steps_merge_by_time(a: Seq<ReplayStepView>, b: Seq<ReplayStepView>)
    ensures
        merged(a, b).len() == a.len() + b.len(),
        forall|s: ReplayStepView| #[trigger]
            merged(a, b).contains(s) <==> a.contains(s) || b.contains(s),
        is_timed(a) && is_timed(b) ==> is_timed(merged(a, b)),
    decreases a.len() + b.len(),
{
    let m = merged(a, b);
    if a.len() == 0 || b.len() == 0 {
    } else if step_time(a.last()) > step_time(b.last()) {
        law_steps_merge_by_time(a.drop_last(), b);
        lemma_pushed(a.drop_last(), b, a, b, merged(a.drop_last(), b), a.last());
    } else {
        law_steps_merge_by_time(a, b.drop_last());
        lemma_pushed(a, b.drop_last(), a, b, merged(a, b.drop_last()), b.last());
    }
}

/// One more step at the end of a merged list.
proof fn lemma_pushed(
    s: Seq<ReplayStepView>,
    t: Seq<ReplayStepView>,
    a: Seq<ReplayStepView>,
    b: Seq<ReplayStepView>,
    m: Seq<ReplayStepView>,
    x: ReplayStepView,
)
    requires
        a.len() > 0,
        b.len() > 0,
        (s == a.drop_last() && t == b && x == a.last()) || (s == a && t == b.drop_last() && x
            == b.last()),
        step_time(a.last()) <= step_time(x),
        step_time(b.last()) <= step_time(x),
        forall|v: ReplayStepView| #[trigger] m.contains(v) <==> s.contains(v) || t.contains(v),
        is_timed(s) && is_timed(t) ==> is_timed(m),
    ensures
        forall|v: ReplayStepView| #[trigger]
            m.push(x).contains(v) <==> a.contains(v) || b.contains(v),
        is_timed(a) && is_timed(b) ==> is_timed(m.push(x)),
{
    assert forall|v: ReplayStepView| #[trigger] m.push(x).contains(v) <==> a.contains(v)
        || b.contains(v) by {
        lemma_both_contain(m, seq![x], v);
        assert(m + seq![x] =~= m.push(x));
        assert(seq![x][0] == x);
        if s == a {
            lemma_both_contain(t, seq![x], v);
            assert(t + seq![x] =~= b);
        } else {
            lemma_both_contain(s, seq![x], v);
            assert(s + seq![x] =~= a);
        }
    }
    if is_timed(a) && is_timed(b) {
        assert(is_timed(s) && is_timed(t));
        assert forall|i: int, j: int| 0 <= i < j < m.push(x).len() implies step_time(
            #[trigger] m.push(x)[i],
        ) <= step_time(#[trigger] m.push(x)[j]) by {
            if j < m.len() {
                assert(step_time(m[i]) <= step_time(m[j]));
            } else {
                assert(m.contains(m[i]));
                if s.contains(m[i]) {
                    let k = choose|k: int| 0 <= k < s.len() && s[k] == m[i];
                    assert(a[k] == m[i]);
                    if k < a.len() - 1 {
                        assert(step_time(a[k]) <= step_time(a[a.len() - 1]));
                    }
                } else {
                    let k = choose|k: int| 0 <= k < t.len() && t[k] == m[i];
                    assert(b[k] == m[i]);
                    if k < b.len() - 1 {
                        assert(step_time(b[k]) <= step_time(b[b.len() - 1]));
                    }
                }
            }
        }
    }
}

/// A replay holds every declaration, response and redaction, and at its end a
/// rebuild of each space, once.
pub proof fn law_replay_holds_the_ledger(db: TablesView)
    ensures
        forall|s: ReplayStepView|
            !(s is Rebuild) ==> (#[trigger] replay_steps(db).contains(s) <==> declaration_steps(
                db,
            ).contains(s) || extraction_steps(db).contains(s) || redaction_steps(db).contains(s)),
        forall|id: Seq<char>|
            replay_steps(db).contains(#[trigger] rebuild_of(id)) <==> exists|i: int|
                0 <= i < db.spaces.len() && (#[trigger] db.spaces[i]).id == id,
        is_timed(declaration_steps(db)) && is_timed(extraction_steps(db)) && is_timed(
            redaction_steps(db),
        ) ==> is_timed(projected_steps(db)),
        forall|i: int|
            0 <= i < projected_steps(db).len() ==> #[trigger] replay_steps(db)[i]
                == projected_steps(db)[i],
{
    let d = declaration_steps(db);
    let e = extraction_steps(db);
    let r = redaction_steps(db);
    law_steps_merge_by_time(d, e);
    law_steps_merge_by_time(merged(d, e), r);
    let ids = db.spaces.map_values(space_id_of());
    let once = distinct(ids);
    lemma_distinct(ids);
    let tail = once.map_values(rebuild_step());
    let all = replay_steps(db);
    law_declarations_are_replayed(db);
    law_responses_are_replayed(db);
    assert forall|s: ReplayStepView| !(s is Rebuild) implies (#[trigger] all.contains(s)
        <==> d.contains(s) || e.contains(s) || r.contains(s)) by {
        lemma_both_contain(projected_steps(db), tail, s);
        assert(merged(d, e).contains(s) <==> d.contains(s) || e.contains(s));
        if tail.contains(s) {
            let k = choose|k: int| 0 <= k < tail.len() && tail[k] == s;
        }
    }
    assert forall|id: Seq<char>| all.contains(#[trigger] rebuild_of(id)) <==> exists|i: int|
        0 <= i < db.spaces.len() && (#[trigger] db.spaces[i]).id == id by {
        let s = rebuild_of(id);
        lemma_both_contain(projected_steps(db), tail, s);
        assert(merged(d, e).contains(s) <==> d.contains(s) || e.contains(s));
        if r.contains(s) {
            let k = choose|k: int| 0 <= k < r.len() && r[k] == s;
        }
        if tail.contains(s) {
            let k = choose|k: int| 0 <= k < tail.len() && tail[k] == s;
            assert(once[k] == id);
            assert(once.contains(id));
            assert(ids.contains(id));
            let i = choose|i: int| 0 <= i < ids.len() && ids[i] == id;
            assert(db.spaces[i].id == id);
        }
        if exists|i: int| 0 <= i < db.spaces.len() && (#[trigger] db.spaces[i]).id == id {
            let i = choose|i: int| 0 <= i < db.spaces.len() && (#[trigger] db.spaces[i]).id == id;
            assert(ids[i] == id);
            assert(ids.contains(id));
            assert(once.contains(id));
            let k = choose|k: int| 0 <= k < once.len() && once[k] == id;
            assert(tail[k] == s);
        }
    }
}

/// The step that rebuilds a space.
pub open spec fn rebuild_of(id: Seq<char>) -> ReplayStepView {
    ReplayStepView::Rebuild { space: id }
}

/// Trust is inherited from the episode as it is named there; what names none is not
/// trusted.
pub proof fn law_trust_is_inherited(e: EpisodeRowView)
    ensures
        inherited_trust(e) is Trusted <==> e.trust == "trusted"@,
        inherited_trust(e) is SemiTrusted <==> e.trust == "semi_trusted"@,
{
    reveal_strlit("trusted");
    reveal_strlit("semi_trusted");
    assert("trusted"@.len() == 7 && "semi_trusted"@.len() == 12);
}

} // verus!
