//! Reprojection: drop all projection tables and replay the ledger.
//!
//! Replaying asks for resolutions and folds that are computed outside, so the
//! work is handed out as steps, in the order in which things were projected: by
//! when a declaration was ingested, when a response was cached, and when a
//! redaction was executed. What is resolved and folded depends on what is known
//! already, so no other order gives the projection back. Each step is carried
//! out with the functions of `project`, `extraction`, `redaction`, `index_ops`
//! and `communities`.
use vstd::prelude::*;

use crate::ledger::{content_of, read_content};
use crate::redaction::unique_texts;
use crate::rows::{distinct, find, first_where, map_rows, select, some_where, Row};
use crate::tables::{
    AssertionView, BeliefView, EntityKeyView, EntityMergeView, EntityView, EpisodeRow,
    EpisodeRowView, ExtractionRow, ExtractionRowView, MentionView, RedactionRow, RedactionRowView,
    SpaceEntry, SpaceEntryView, StatementView, Tables, TablesView,
};
use crate::text::str_eq;
use crate::time::Timestamp;

verus! {

/// One step of a replay.
#[derive(Debug)]
pub enum ReplayStep {
    /// Project a declaration, with the time it was ingested as the transaction
    /// time.
    Declaration { space: String, content: String, at: Timestamp },
    /// Project the cached response of an extractor, with the time its episode was
    /// ingested as the transaction time; `cached` is when the response was cached.
    Extraction {
        space: String,
        episode: String,
        extractor: String,
        raw: String,
        content: String,
        at: Timestamp,
        cached: Timestamp,
    },
    /// Take out again what a recorded redaction took out.
    Redaction { target_json: String, at: Timestamp },
    /// Rebuild the indexes and the communities of a space.
    Rebuild { space: String },
}

/// [`ReplayStep`] as a mathematical value.
#[verifier::ext_equal]
pub enum ReplayStepView {
    Declaration { space: Seq<char>, content: Seq<char>, at: Timestamp },
    Extraction {
        space: Seq<char>,
        episode: Seq<char>,
        extractor: Seq<char>,
        raw: Seq<char>,
        content: Seq<char>,
        at: Timestamp,
        cached: Timestamp,
    },
    Redaction { target_json: Seq<char>, at: Timestamp },
    Rebuild { space: Seq<char> },
}

impl DeepView for ReplayStep {
    type V = ReplayStepView;

    open spec fn deep_view(&self) -> ReplayStepView {
        match self {
            ReplayStep::Declaration { space, content, at } => ReplayStepView::Declaration {
                space: space@,
                content: content@,
                at: *at,
            },
            ReplayStep::Extraction { space, episode, extractor, raw, content, at, cached } =>
                ReplayStepView::Extraction {
                    space: space@,
                    episode: episode@,
                    extractor: extractor@,
                    raw: raw@,
                    content: content@,
                    at: *at,
                    cached: *cached,
                },
            ReplayStep::Redaction { target_json, at } => ReplayStepView::Redaction {
                target_json: target_json@,
                at: *at,
            },
            ReplayStep::Rebuild { space } => ReplayStepView::Rebuild { space: space@ },
        }
    }
}

/// The tables with no projection.
pub open spec fn cleared(db: TablesView) -> TablesView {
    TablesView {
        beliefs: Seq::empty(),
        mentions: Seq::empty(),
        assertions: Seq::empty(),
        statements: Seq::empty(),
        merges: Seq::empty(),
        keys: Seq::empty(),
        entities: Seq::empty(),
        ..db
    }
}

/// Selects the declarations that are replayed.
pub open spec fn is_replayed_declaration() -> spec_fn(EpisodeRowView) -> bool {
    |e: EpisodeRowView| e.kind == "declaration"@ && e.redacted_at is None
}

/// The step that replays a declaration.
pub open spec fn declaration_step() -> spec_fn(EpisodeRowView) -> ReplayStepView {
    |e: EpisodeRowView|
        ReplayStepView::Declaration { space: e.space, content: content_of(e), at: e.ingested_at }
}

/// The declarations to replay, in the order of the ledger.
pub open spec fn declaration_steps(db: TablesView) -> Seq<ReplayStepView> {
    db.episodes.filter(is_replayed_declaration()).map_values(declaration_step())
}

/// Selects the episode of an extraction, where it is replayed.
pub open spec fn is_replayed_primary(id: Seq<char>) -> spec_fn(EpisodeRowView) -> bool {
    |e: EpisodeRowView| e.id == id && e.kind == "primary"@ && e.redacted_at is None
}

/// Selects the extractions that are replayed.
pub open spec fn is_replayed_extraction(db: TablesView) -> spec_fn(ExtractionRowView) -> bool {
    |x: ExtractionRowView| some_where(db.episodes, is_replayed_primary(x.episode_id))
}

/// An extraction beside its episode.
pub open spec fn with_source(db: TablesView) -> spec_fn(ExtractionRowView) -> (
    EpisodeRowView,
    ExtractionRowView,
) {
    |x: ExtractionRowView|
        (first_where(db.episodes, is_replayed_primary(x.episode_id))->Some_0, x)
}

/// The step that replays an extraction.
pub open spec fn extraction_step() -> spec_fn(
    (EpisodeRowView, ExtractionRowView),
) -> ReplayStepView {
    |p: (EpisodeRowView, ExtractionRowView)|
        ReplayStepView::Extraction {
            space: p.0.space,
            episode: p.0.id,
            extractor: p.1.extractor_id,
            raw: p.1.raw_response,
            content: content_of(p.0),
            at: p.0.ingested_at,
            cached: p.1.created_at,
        }
}

/// The extractions to replay, in the order of the cache.
pub open spec fn extraction_steps(db: TablesView) -> Seq<ReplayStepView> {
    db.extractions.filter(is_replayed_extraction(db)).map_values(with_source(db)).map_values(
        extraction_step(),
    )
}

/// The step that replays a redaction.
pub open spec fn redaction_step() -> spec_fn(RedactionRowView) -> ReplayStepView {
    |r: RedactionRowView| ReplayStepView::Redaction { target_json: r.target_json, at: r.redacted_at }
}

/// The redactions to replay, in the order of their record.
pub open spec fn redaction_steps(db: TablesView) -> Seq<ReplayStepView> {
    db.redactions.map_values(redaction_step())
}

/// When what a step replays was projected.
pub open spec fn step_time(step: ReplayStepView) -> int {
    match step {
        ReplayStepView::Declaration { at, .. } => at.0 as int,
        ReplayStepView::Extraction { cached, .. } => cached.0 as int,
        ReplayStepView::Redaction { at, .. } => at.0 as int,
        ReplayStepView::Rebuild { .. } => 0,
    }
}

/// Two lists of steps in one, by time, each list in its own order. At the same
/// time the steps of the first list come first.
pub open spec fn merged(a: Seq<ReplayStepView>, b: Seq<ReplayStepView>) -> Seq<ReplayStepView>
    decreases a.len() + b.len(),
{
    if a.len() == 0 {
        b
    } else if b.len() == 0 {
        a
    } else if step_time(a.last()) > step_time(b.last()) {
        merged(a.drop_last(), b).push(a.last())
    } else {
        merged(a, b.drop_last()).push(b.last())
    }
}

/// What was projected, in the order in which it was projected: declarations,
/// extractions and redactions by time.
pub open spec fn projected_steps(db: TablesView) -> Seq<ReplayStepView> {
    merged(merged(declaration_steps(db), extraction_steps(db)), redaction_steps(db))
}

/// The id of a space.
pub open spec fn space_id_of() -> spec_fn(SpaceEntryView) -> Seq<char> {
    |s: SpaceEntryView| s.id
}

/// The step that rebuilds a space.
pub open spec fn rebuild_step() -> spec_fn(Seq<char>) -> ReplayStepView {
    |s: Seq<char>| ReplayStepView::Rebuild { space: s }
}

/// The steps of a replay: what was projected, in the order in which it was
/// projected, then the rebuild of every space.
pub open spec fn replay_steps(db: TablesView) -> Seq<ReplayStepView> {
    projected_steps(db) + distinct(db.spaces.map_values(space_id_of())).map_values(rebuild_step())
}

fn time_of(step: &ReplayStep) -> (r: i64)
    ensures
        r == step_time(step.deep_view()),
{
    match step {
        ReplayStep::Declaration { space: _, content: _, at } => at.0,
        ReplayStep::Extraction {
            space: _,
            episode: _,
            extractor: _,
            raw: _,
            content: _,
            at: _,
            cached,
        } => cached.0,
        ReplayStep::Redaction { target_json: _, at } => at.0,
        ReplayStep::Rebuild { space: _ } => 0,
    }
}

fn merge(first: Vec<ReplayStep>, second: Vec<ReplayStep>) -> (r: Vec<ReplayStep>)
    ensures
        r.deep_view() == merged(first.deep_view(), second.deep_view()),
{
    let ghost all = merged(first.deep_view(), second.deep_view());
    let mut a = first;
    let mut b = second;
    let mut back: Vec<ReplayStep> = Vec::new();
    assert(back.deep_view().reverse() =~= Seq::empty());
    assert(merged(a.deep_view(), b.deep_view()) + back.deep_view().reverse() =~= all);
    while a.len() > 0 && b.len() > 0
        invariant
            merged(a.deep_view(), b.deep_view()) + back.deep_view().reverse() == all,
        decreases a.len() + b.len(),
    {
        let ghost va = a.deep_view();
        let ghost vb = b.deep_view();
        let ghost before = back.deep_view();
        assert(va.last() == a[a.len() - 1].deep_view());
        assert(vb.last() == b[b.len() - 1].deep_view());
        let later: bool = time_of(&a[a.len() - 1]) > time_of(&b[b.len() - 1]);
        let taken = if later {
            a.pop()
        } else {
            b.pop()
        };
        if let Some(step) = taken {
            let ghost x = step.deep_view();
            back.push(step);
            proof {
                assert(back.deep_view() =~= before.push(x));
                assert(back.deep_view().reverse() =~= seq![x] + before.reverse());
                if later {
                    assert(a.deep_view() =~= va.drop_last());
                } else {
                    assert(b.deep_view() =~= vb.drop_last());
                }
                assert(merged(a.deep_view(), b.deep_view()) + (seq![x] + before.reverse())
                    =~= merged(a.deep_view(), b.deep_view()).push(x) + before.reverse());
            }
        }
    }
    let mut out = if a.len() == 0 {
        b
    } else {
        a
    };
    assert(out.deep_view() + back.deep_view().reverse() =~= all);
    while back.len() > 0
        invariant
            out.deep_view() + back.deep_view().reverse() == all,
        decreases back.len(),
    {
        let ghost before = back.deep_view();
        let ghost so_far = out.deep_view();
        if let Some(step) = back.pop() {
            let ghost x = step.deep_view();
            out.push(step);
            proof {
                assert(back.deep_view() =~= before.drop_last());
                assert(before.last() == x);
                assert(before.reverse() =~= seq![x] + back.deep_view().reverse());
                assert(out.deep_view() =~= so_far.push(x));
                assert(so_far + (seq![x] + back.deep_view().reverse()) =~= out.deep_view()
                    + back.deep_view().reverse());
            }
        }
    }
    assert(out.deep_view() + back.deep_view().reverse() =~= out.deep_view());
    out
}

fn clear_projection(db: &mut Tables)
    ensures
        final(db).deep_view() == cleared(old(db).deep_view()),
{
    db.beliefs = Vec::new();
    db.mentions = Vec::new();
    db.assertions = Vec::new();
    db.statements = Vec::new();
    db.merges = Vec::new();
    db.keys = Vec::new();
    db.entities = Vec::new();
    proof {
        assert(db.beliefs.deep_view() =~= Seq::<BeliefView>::empty());
        assert(db.mentions.deep_view() =~= Seq::<MentionView>::empty());
        assert(db.assertions.deep_view() =~= Seq::<AssertionView>::empty());
        assert(db.statements.deep_view() =~= Seq::<StatementView>::empty());
        assert(db.merges.deep_view() =~= Seq::<EntityMergeView>::empty());
        assert(db.keys.deep_view() =~= Seq::<EntityKeyView>::empty());
        assert(db.entities.deep_view() =~= Seq::<EntityView>::empty());
    }
}

fn list_declarations(db: &Tables) -> (r: Vec<ReplayStep>)
    ensures
        r.deep_view() == declaration_steps(db.deep_view()),
{
    let found = select(
        &db.episodes,
        |e: &EpisodeRow| -> (b: bool)
            ensures
                b == is_replayed_declaration()(e.deep_view())
            { str_eq(e.kind.as_str(), "declaration") && e.redacted_at.is_none() },
        Ghost(is_replayed_declaration()),
    );
    map_rows(
        &found,
        |e: &EpisodeRow| -> (s: ReplayStep)
            ensures
                s.deep_view() == declaration_step()(e.deep_view())
            {
                ReplayStep::Declaration {
                    space: e.space.clone(),
                    content: read_content(e),
                    at: e.ingested_at,
                }
            },
        Ghost(declaration_step()),
    )
}

fn find_primary(db: &Tables, id: &str) -> (r: Option<usize>)
    ensures
        match r {
            Some(i) => i < db.episodes.len() && first_where(
                db.deep_view().episodes,
                is_replayed_primary(id@),
            ) == Some(db.episodes[i as int].deep_view()),
            None => !some_where(db.deep_view().episodes, is_replayed_primary(id@)),
        },
        r is Some == some_where(db.deep_view().episodes, is_replayed_primary(id@)),
{
    find(
        &db.episodes,
        |e: &EpisodeRow| -> (b: bool)
            ensures
                b == is_replayed_primary(id@)(e.deep_view())
            {
                str_eq(e.id.as_str(), id) && str_eq(e.kind.as_str(), "primary")
                    && e.redacted_at.is_none()
            },
        Ghost(is_replayed_primary(id@)),
    )
}

fn list_extractions(db: &Tables) -> (r: Vec<ReplayStep>)
    ensures
        r.deep_view() == extraction_steps(db.deep_view()),
{
    let ghost view = db.deep_view();
    let ghost p = is_replayed_extraction(view);
    let ghost f = with_source(view);
    let kept = select(
        &db.extractions,
        |x: &ExtractionRow| -> (b: bool)
            ensures
                b == p(x.deep_view())
            { find_primary(db, x.episode_id.as_str()).is_some() },
        Ghost(p),
    );
    let ghost all = kept.deep_view();
    let mut pairs: Vec<(EpisodeRow, ExtractionRow)> = Vec::new();
    let mut i: usize = 0;
    assert(pairs.deep_view() =~= all.take(0).map_values(f));
    while i < kept.len()
        invariant
            i <= kept.len(),
            view == db.deep_view(),
            p == is_replayed_extraction(view),
            f == with_source(view),
            all == kept.deep_view(),
            all == view.extractions.filter(p),
            pairs.deep_view() == all.take(i as int).map_values(f),
        decreases kept.len() - i,
    {
        let ghost before = pairs.deep_view();
        let ghost x = all[i as int];
        proof {
            view.extractions.lemma_filter_pred(p, i as int);
            assert(x == kept[i as int].deep_view());
        }
        if let Some(k) = find_primary(db, kept[i].episode_id.as_str()) {
            pairs.push((db.episodes[k].dup(), kept[i].dup()));
            proof {
                assert(pairs.deep_view() =~= before.push(f(x)));
                assert(all.take(i + 1).map_values(f) =~= all.take(i as int).map_values(f).push(
                    f(x),
                ));
            }
        }
        i = i + 1;
    }
    assert(all.take(i as int) =~= all);
    map_rows(
        &pairs,
        |q: &(EpisodeRow, ExtractionRow)| -> (s: ReplayStep)
            ensures
                s.deep_view() == extraction_step()(q.deep_view())
            {
                ReplayStep::Extraction {
                    space: q.0.space.clone(),
                    episode: q.0.id.clone(),
                    extractor: q.1.extractor_id.clone(),
                    raw: q.1.raw_response.clone(),
                    content: read_content(&q.0),
                    at: q.0.ingested_at,
                    cached: q.1.created_at,
                }
            },
        Ghost(extraction_step()),
    )
}

/// Drop all projection tables, and say how to replay the ledger: declarations,
/// cached extractions and recorded redactions in the order in which they were
/// projected, then the rebuild of every space.
pub fn reproject(db: &mut Tables) -> (r: Vec<ReplayStep>)
    ensures
        r.deep_view() == replay_steps(old(db).deep_view()),
        final(db).deep_view() == cleared(old(db).deep_view()),
{
    let declarations = list_declarations(db);
    let extractions = list_extractions(db);
    let redactions = map_rows(
        &db.redactions,
        |x: &RedactionRow| -> (s: ReplayStep)
            ensures
                s.deep_view() == redaction_step()(x.deep_view())
            { ReplayStep::Redaction { target_json: x.target_json.clone(), at: x.redacted_at } },
        Ghost(redaction_step()),
    );
    let mut steps = merge(merge(declarations, extractions), redactions);
    let spaces = unique_texts(
        map_rows(
            &db.spaces,
            |s: &SpaceEntry| -> (i: String)
                ensures
                    i.deep_view() == space_id_of()(s.deep_view())
                { s.id.clone() },
            Ghost(space_id_of()),
        ),
    );
    let mut rebuilds = map_rows(
        &spaces,
        |s: &String| -> (t: ReplayStep)
            ensures
                t.deep_view() == rebuild_step()(s.deep_view())
            { ReplayStep::Rebuild { space: s.clone() } },
        Ghost(rebuild_step()),
    );
    let ghost a = steps.deep_view();
    let ghost b = rebuilds.deep_view();
    steps.append(&mut rebuilds);
    assert(steps.deep_view() =~= a + b);
    clear_projection(db);
    steps
}

/// What is replayed depends on the ledger alone: on the episodes, the cached
/// extractions, the recorded redactions and the spaces. So reprojecting once
/// more replays the same steps, from the same empty projection.
pub proof fn law_replay_depends_on_the_ledger_alone(a: TablesView, b: TablesView)
    requires
        a.episodes == b.episodes,
        a.extractions == b.extractions,
        a.redactions == b.redactions,
        a.spaces == b.spaces,
    ensures
        replay_steps(a) == replay_steps(b),
        replay_steps(cleared(a)) == replay_steps(a),
        cleared(cleared(a)) == cleared(a),
{
    assert(is_replayed_extraction(a) == is_replayed_extraction(b));
    assert(with_source(a) == with_source(b));
    assert(is_replayed_extraction(cleared(a)) == is_replayed_extraction(a));
    assert(with_source(cleared(a)) == with_source(a));
}

/// A redacted episode is never replayed, neither as a declaration nor through
/// an extraction.
pub proof fn law_redacted_episodes_are_not_replayed(db: TablesView, id: Seq<char>)
    requires
        forall|i: int|
            0 <= i < db.episodes.len() && (#[trigger] db.episodes[i]).id == id
                ==> db.episodes[i].redacted_at is Some,
    ensures
        forall|i: int|
            0 <= i < db.episodes.filter(is_replayed_declaration()).len() ==> (
            #[trigger] db.episodes.filter(is_replayed_declaration())[i]).id != id,
        forall|i: int|
            0 <= i < db.extractions.filter(is_replayed_extraction(db)).len() ==> (
            #[trigger] db.extractions.filter(is_replayed_extraction(db))[i]).episode_id != id,
{
    let d = is_replayed_declaration();
    let x = is_replayed_extraction(db);
    assert forall|i: int| 0 <= i < db.episodes.filter(d).len() implies (
    #[trigger] db.episodes.filter(d)[i]).id != id by {
        db.episodes.lemma_filter_pred(d, i);
        let e = db.episodes.filter(d)[i];
        db.episodes.lemma_filter_contains_rev(d, e);
        let k = choose|k: int| 0 <= k < db.episodes.len() && db.episodes[k] == e;
        assert(db.episodes[k].redacted_at is None);
    }
    assert forall|i: int| 0 <= i < db.extractions.filter(x).len() implies (
    #[trigger] db.extractions.filter(x)[i]).episode_id != id by {
        db.extractions.lemma_filter_pred(x, i);
        let row = db.extractions.filter(x)[i];
        assert(some_where(db.episodes, is_replayed_primary(row.episode_id)));
        let k = choose|k: int|
            0 <= k < db.episodes.len() && is_replayed_primary(row.episode_id)(db.episodes[k]);
        assert(db.episodes[k].id == row.episode_id && db.episodes[k].redacted_at is None);
    }
}

} // verus!
