//! What a redaction lists, takes out, keeps and folds again.
use vstd::prelude::*;

use crate::knowledge::{asserts, entity_id_of, statement_group};
use crate::laws::knowledge::law_group_holds_what_is_asserted;
use crate::ledger::{entity_in, episode_has_id, episode_in, source_in};
use crate::redaction::{
    after_redaction, after_replay, asserted_besides, asserted_by, asserted_elsewhere,
    asserted_only_by, assertion_id_of, asserts_any, closure_of, entity_closure, episode_closure,
    episode_id_of, extracted_from, extracted_from_any, extraction_episode, groups_to_refold,
    involves, is_nothing, loses_all, mention_id_of, mentioned_in, pair_of, recorded,
    redaction_has_id, refolds_after, refolds_after_replay, refolds_for, space_assertions,
    space_entities, space_episodes, space_sources, space_statements, statement_id_of, statement_in,
    statement_of, RedactTargetView,
};
use crate::registry::predicate_named;
use crate::rows::{
    distinct, first_where, lemma_distinct, lemma_first_is, lemma_got, lemma_selected, some_where,
};
use crate::tables::{
    AssertionView, BeliefView, ChunkRowView, CommunityRowView, EntityKeyView, EntityMergeView,
    EntityVectorRowView, EntityView, EpisodeLinkView, EpisodeRowView, ExtractionFailureView,
    ExtractionRowView, FtsRowView, MentionView, ObjectView, PolicyRowView, SourceRowView,
    SpaceEntryView, StatementView, TablesView, VectorRowView,
};
use crate::time::Timestamp;

verus! {

/// What the redaction of an entity lists, wholly or under one predicate: the
/// assertions of every statement in the space that has the entity as its subject
/// or as its object; those statements that are asserted at all; and the mentions
/// of those assertions. It lists no episode and no response.
pub proof fn law_entity_closure_holds_what_names_it(
    db: TablesView,
    space: Seq<char>,
    entity: Seq<char>,
    predicate: Option<Seq<char>>,
    target: RedactTargetView,
)
    requires
        target == match predicate {
            None => RedactTargetView::Entity { space, entity_id: entity },
            Some(p) => RedactTargetView::PredicateScoped { space, entity_id: entity, predicate: p },
        },
    ensures
        ({
            let c = closure_of(db, target);
            &&& c.episodes.len() == 0
            &&& c.extractions.len() == 0
            &&& c.summaries.len() == 0
            &&& forall|id: Seq<char>| #[trigger]
                c.assertions.contains(id) <==> exists|i: int, j: int|
                    0 <= i < db.assertions.len() && 0 <= j < db.statements.len()
                        && (#[trigger] db.assertions[i]).id == id && db.assertions[i].statement
                        == (#[trigger] db.statements[j]).id && db.statements[j].space == space && (
                    db.statements[j].subject == entity || db.statements[j].object
                        == ObjectView::Entity(entity)) && (predicate is Some
                        ==> db.statements[j].predicate == predicate->Some_0)
            &&& forall|id: Seq<char>| #[trigger]
                c.statements.contains(id) <==> exists|i: int, j: int|
                    0 <= i < db.assertions.len() && 0 <= j < db.statements.len() && (
                    #[trigger] db.assertions[i]).statement == id && (#[trigger] db.statements[j]).id
                        == id && db.statements[j].space == space && (db.statements[j].subject
                        == entity || db.statements[j].object == ObjectView::Entity(entity)) && (
                    predicate is Some ==> db.statements[j].predicate == predicate->Some_0)
            &&& forall|id: Seq<char>| #[trigger]
                c.mentions.contains(id) <==> exists|i: int|
                    0 <= i < db.mentions.len() && (#[trigger] db.mentions[i]).id == id
                        && c.assertions.contains(db.mentions[i].assertion)
        }),
{
    let c = closure_of(db, target);
    assert(c == entity_closure(db, space, entity, predicate));
    let p = involves(space, entity, predicate);
    let sts = db.statements.filter(p).map_values(statement_id_of());
    lemma_got(db.statements, p, statement_id_of());
    lemma_got(db.assertions, asserts_any(sts), assertion_id_of());
    lemma_got(db.mentions, mentioned_in(c.assertions), mention_id_of());
    let lost = loses_all(db.assertions, c.assertions);
    lemma_selected(sts, lost);
    assert forall|id: Seq<char>| #[trigger] c.assertions.contains(id) <==> exists|i: int, j: int|
        0 <= i < db.assertions.len() && 0 <= j < db.statements.len()
            && (#[trigger] db.assertions[i]).id == id && db.assertions[i].statement
            == (#[trigger] db.statements[j]).id && db.statements[j].space == space && (
        db.statements[j].subject == entity || db.statements[j].object == ObjectView::Entity(entity))
            && (predicate is Some ==> db.statements[j].predicate == predicate->Some_0) by {
        if c.assertions.contains(id) {
            let i = choose|i: int|
                0 <= i < db.assertions.len() && asserts_any(sts)(#[trigger] db.assertions[i])
                    && assertion_id_of()(db.assertions[i]) == id;
            assert(sts.contains(db.assertions[i].statement));
            let j = choose|j: int|
                0 <= j < db.statements.len() && p(#[trigger] db.statements[j])
                    && statement_id_of()(db.statements[j]) == db.assertions[i].statement;
            assert(db.assertions[i].id == id && db.statements[j].space == space);
        }
        if exists|i: int, j: int|
            0 <= i < db.assertions.len() && 0 <= j < db.statements.len()
                && (#[trigger] db.assertions[i]).id == id && db.assertions[i].statement
                == (#[trigger] db.statements[j]).id && db.statements[j].space == space && (
            db.statements[j].subject == entity || db.statements[j].object
                == ObjectView::Entity(entity)) && (predicate is Some
                ==> db.statements[j].predicate == predicate->Some_0) {
            let (i, j) = choose|i: int, j: int|
                0 <= i < db.assertions.len() && 0 <= j < db.statements.len()
                    && (#[trigger] db.assertions[i]).id == id && db.assertions[i].statement
                    == (#[trigger] db.statements[j]).id && db.statements[j].space == space && (
                db.statements[j].subject == entity || db.statements[j].object
                    == ObjectView::Entity(entity)) && (predicate is Some
                    ==> db.statements[j].predicate == predicate->Some_0);
            assert(p(db.statements[j]));
            assert(sts.contains(db.statements[j].id));
            assert(asserts_any(sts)(db.assertions[i]));
        }
    }
    assert forall|id: Seq<char>| #[trigger] c.statements.contains(id) <==> exists|i: int, j: int|
        0 <= i < db.assertions.len() && 0 <= j < db.statements.len() && (
        #[trigger] db.assertions[i]).statement == id && (#[trigger] db.statements[j]).id == id
            && db.statements[j].space == space && (db.statements[j].subject == entity
            || db.statements[j].object == ObjectView::Entity(entity)) && (predicate is Some
            ==> db.statements[j].predicate == predicate->Some_0) by {
        if c.statements.contains(id) {
            assert(sts.contains(id) && lost(id));
            let i = choose|i: int|
                0 <= i < db.assertions.len() && asserts(id)(#[trigger] db.assertions[i]);
            let j = choose|j: int|
                0 <= j < db.statements.len() && p(#[trigger] db.statements[j])
                    && statement_id_of()(db.statements[j]) == id;
            assert(db.assertions[i].statement == id && db.statements[j].id == id);
        }
        if exists|i: int, j: int|
            0 <= i < db.assertions.len() && 0 <= j < db.statements.len() && (
            #[trigger] db.assertions[i]).statement == id && (#[trigger] db.statements[j]).id == id
                && db.statements[j].space == space && (db.statements[j].subject == entity
                || db.statements[j].object == ObjectView::Entity(entity)) && (predicate is Some
                ==> db.statements[j].predicate == predicate->Some_0) {
            let (i, j) = choose|i: int, j: int|
                0 <= i < db.assertions.len() && 0 <= j < db.statements.len() && (
                #[trigger] db.assertions[i]).statement == id && (#[trigger] db.statements[j]).id
                    == id && db.statements[j].space == space && (db.statements[j].subject == entity
                    || db.statements[j].object == ObjectView::Entity(entity)) && (predicate is Some
                    ==> db.statements[j].predicate == predicate->Some_0);
            assert(p(db.statements[j]));
            assert(sts.contains(id));
            assert(asserts(id)(db.assertions[i]));
            assert(!some_where(db.assertions, asserted_besides(id, c.assertions))) by {
                if some_where(db.assertions, asserted_besides(id, c.assertions)) {
                    let k = choose|k: int|
                        0 <= k < db.assertions.len() && asserted_besides(id, c.assertions)(
                            #[trigger] db.assertions[k],
                        );
                    assert(asserts_any(sts)(db.assertions[k]));
                    assert(c.assertions.contains(assertion_id_of()(db.assertions[k])));
                }
            }
            assert(lost(id));
        }
    }
    assert forall|id: Seq<char>| #[trigger] c.mentions.contains(id) <==> exists|i: int|
        0 <= i < db.mentions.len() && (#[trigger] db.mentions[i]).id == id && c.assertions.contains(
            db.mentions[i].assertion,
        ) by {
        let m = mentioned_in(c.assertions);
        if c.mentions.contains(id) {
            let i = choose|i: int|
                0 <= i < db.mentions.len() && m(#[trigger] db.mentions[i])
                    && mention_id_of()(db.mentions[i]) == id;
            assert(db.mentions[i].id == id);
        }
        if exists|i: int|
            0 <= i < db.mentions.len() && (#[trigger] db.mentions[i]).id == id
                && c.assertions.contains(db.mentions[i].assertion) {
            let i = choose|i: int|
                0 <= i < db.mentions.len() && (#[trigger] db.mentions[i]).id == id
                    && c.assertions.contains(db.mentions[i].assertion);
            assert(m(db.mentions[i]));
        }
    }
}

/// What the redaction of an episode lists: the episode; every assertion that it
/// made; every statement that it asserts and no other episode does; the mentions
/// of those assertions; and the episode of each of its responses.
pub proof fn law_episode_closure_holds_what_it_asserted(db: TablesView, id: Seq<char>)
    ensures
        ({
            let c = closure_of(db, RedactTargetView::Episode { id });
            &&& c.episodes =~= seq![id]
            &&& c.summaries.len() == 0
            &&& forall|x: Seq<char>| #[trigger]
                c.assertions.contains(x) <==> exists|i: int|
                    0 <= i < db.assertions.len() && (#[trigger] db.assertions[i]).id == x
                        && db.assertions[i].episode == id
            &&& c.statements.no_duplicates()
            &&& forall|x: Seq<char>| #[trigger]
                c.statements.contains(x) <==> (exists|i: int|
                    0 <= i < db.assertions.len() && (#[trigger] db.assertions[i]).statement == x
                        && db.assertions[i].episode == id) && (forall|i: int|
                    0 <= i < db.assertions.len() && (#[trigger] db.assertions[i]).statement == x
                        ==> db.assertions[i].episode == id)
            &&& forall|x: Seq<char>| #[trigger]
                c.mentions.contains(x) <==> exists|i: int|
                    0 <= i < db.mentions.len() && (#[trigger] db.mentions[i]).id == x
                        && c.assertions.contains(db.mentions[i].assertion)
            &&& forall|x: Seq<char>| #[trigger]
                c.extractions.contains(x) <==> x == id && exists|i: int|
                    0 <= i < db.extractions.len() && (#[trigger] db.extractions[i]).episode_id == id
        }),
{
    let c = episode_closure(db, id);
    let only = asserted_only_by(db.assertions, id);
    lemma_got(db.assertions, asserted_by(id), assertion_id_of());
    lemma_got(db.assertions, only, statement_of());
    lemma_got(db.mentions, mentioned_in(c.assertions), mention_id_of());
    lemma_got(db.extractions, extracted_from(id), extraction_episode());
    lemma_distinct(db.assertions.filter(only).map_values(statement_of()));
    assert forall|x: Seq<char>| #[trigger] c.assertions.contains(x) <==> exists|i: int|
        0 <= i < db.assertions.len() && (#[trigger] db.assertions[i]).id == x
            && db.assertions[i].episode == id by {
        if exists|i: int|
            0 <= i < db.assertions.len() && (#[trigger] db.assertions[i]).id == x
                && db.assertions[i].episode == id {
            let i = choose|i: int|
                0 <= i < db.assertions.len() && (#[trigger] db.assertions[i]).id == x
                    && db.assertions[i].episode == id;
            assert(asserted_by(id)(db.assertions[i]));
        }
    }
    assert forall|x: Seq<char>| #[trigger] c.statements.contains(x) <==> (exists|i: int|
        0 <= i < db.assertions.len() && (#[trigger] db.assertions[i]).statement == x
            && db.assertions[i].episode == id) && (forall|i: int|
        0 <= i < db.assertions.len() && (#[trigger] db.assertions[i]).statement == x
            ==> db.assertions[i].episode == id) by {
        let other = asserted_elsewhere(x, id);
        if c.statements.contains(x) {
            let i = choose|i: int|
                0 <= i < db.assertions.len() && only(#[trigger] db.assertions[i])
                    && statement_of()(db.assertions[i]) == x;
            assert(!some_where(db.assertions, other));
            assert forall|k: int|
                0 <= k < db.assertions.len() && (#[trigger] db.assertions[k]).statement
                    == x implies db.assertions[k].episode == id by {
                assert(!other(db.assertions[k]));
            }
            assert(db.assertions[i].statement == x && db.assertions[i].episode == id);
        }
        if (exists|i: int|
            0 <= i < db.assertions.len() && (#[trigger] db.assertions[i]).statement == x
                && db.assertions[i].episode == id) && (forall|i: int|
            0 <= i < db.assertions.len() && (#[trigger] db.assertions[i]).statement == x
                ==> db.assertions[i].episode == id) {
            let i = choose|i: int|
                0 <= i < db.assertions.len() && (#[trigger] db.assertions[i]).statement == x
                    && db.assertions[i].episode == id;
            assert(!some_where(db.assertions, other)) by {
                if some_where(db.assertions, other) {
                    let k = choose|k: int|
                        0 <= k < db.assertions.len() && other(#[trigger] db.assertions[k]);
                    assert(db.assertions[k].statement == x);
                }
            }
            assert(only(db.assertions[i]));
        }
    }
    assert forall|x: Seq<char>| #[trigger] c.mentions.contains(x) <==> exists|i: int|
        0 <= i < db.mentions.len() && (#[trigger] db.mentions[i]).id == x && c.assertions.contains(
            db.mentions[i].assertion,
        ) by {
        if exists|i: int|
            0 <= i < db.mentions.len() && (#[trigger] db.mentions[i]).id == x
                && c.assertions.contains(db.mentions[i].assertion) {
            let i = choose|i: int|
                0 <= i < db.mentions.len() && (#[trigger] db.mentions[i]).id == x
                    && c.assertions.contains(db.mentions[i].assertion);
            assert(mentioned_in(c.assertions)(db.mentions[i]));
        }
    }
    assert forall|x: Seq<char>| #[trigger] c.extractions.contains(x) <==> x == id && exists|i: int|
        0 <= i < db.extractions.len() && (#[trigger] db.extractions[i]).episode_id == id by {
        if exists|i: int|
            0 <= i < db.extractions.len() && (#[trigger] db.extractions[i]).episode_id == id {
            let i = choose|i: int|
                0 <= i < db.extractions.len() && (#[trigger] db.extractions[i]).episode_id == id;
            assert(extracted_from(id)(db.extractions[i]));
            assert(extraction_episode()(db.extractions[i]) == id);
        }
    }
}

/// What a redaction of an episode or an entity leaves: the assertions whose ids it
/// did not list, the mentions of other assertions, and the statements, with their
/// beliefs, that it did not list. Entities, keys, merges and predicates stay.
pub proof fn law_redaction_takes_what_it_lists(
    db: TablesView,
    target: RedactTargetView,
    target_json: Seq<char>,
    rid: Seq<char>,
    reason: Seq<char>,
    actor: Seq<char>,
    now: Timestamp,
)
    requires
        !(target is Space),
    ensures
        ({
            let c = closure_of(db, target);
            let after = after_redaction(db, target, target_json, rid, reason, actor, now);
            &&& forall|a: AssertionView| #[trigger]
                after.assertions.contains(a) <==> db.assertions.contains(a)
                    && !c.assertions.contains(a.id)
            &&& forall|m: MentionView| #[trigger]
                after.mentions.contains(m) <==> db.mentions.contains(m) && !c.assertions.contains(
                    m.assertion,
                )
            &&& forall|s: StatementView| #[trigger]
                after.statements.contains(s) <==> db.statements.contains(s)
                    && !c.statements.contains(s.id)
            &&& forall|b: BeliefView| #[trigger]
                after.beliefs.contains(b) <==> db.beliefs.contains(b) && !c.statements.contains(
                    b.statement,
                )
            &&& after.entities == db.entities
            &&& after.keys == db.keys
            &&& after.merges == db.merges
            &&& after.predicates == db.predicates
            &&& after.spaces == db.spaces
        }),
{
    let c = closure_of(db, target);
    lemma_selected(db.assertions, |a: AssertionView| !c.assertions.contains(a.id));
    lemma_selected(db.mentions, |m: MentionView| !c.assertions.contains(m.assertion));
    lemma_selected(db.statements, |s: StatementView| !c.statements.contains(s.id));
    lemma_selected(db.beliefs, |b: BeliefView| !c.statements.contains(b.statement));
    if is_nothing(c) {
        match target {
            RedactTargetView::Episode { id } => {
                law_episode_closure_holds_what_it_asserted(db, id);
            },
            RedactTargetView::Entity { space, entity_id } => {
                law_entity_closure_holds_what_names_it(db, space, entity_id, None, target);
                lemma_nothing_listed(db, space, entity_id, None, target);
            },
            RedactTargetView::PredicateScoped { space, entity_id, predicate } => {
                lemma_nothing_listed(db, space, entity_id, Some(predicate), target);
            },
            RedactTargetView::Space { id } => {},
        }
    }
}

/// Where no assertion is listed, no statement is.
proof fn lemma_nothing_listed(
    db: TablesView,
    space: Seq<char>,
    entity: Seq<char>,
    predicate: Option<Seq<char>>,
    target: RedactTargetView,
)
    requires
        target == match predicate {
            None => RedactTargetView::Entity { space, entity_id: entity },
            Some(p) => RedactTargetView::PredicateScoped { space, entity_id: entity, predicate: p },
        },
        closure_of(db, target).assertions.len() == 0,
    ensures
        closure_of(db, target).statements.len() == 0,
{
    let c = closure_of(db, target);
    law_entity_closure_holds_what_names_it(db, space, entity, predicate, target);
    if c.statements.len() > 0 {
        let id = c.statements[0];
        assert(c.statements.contains(id));
        let (i, j) = choose|i: int, j: int|
            0 <= i < db.assertions.len() && 0 <= j < db.statements.len() && (
            #[trigger] db.assertions[i]).statement == id && (#[trigger] db.statements[j]).id == id
                && db.statements[j].space == space && (db.statements[j].subject == entity
                || db.statements[j].object == ObjectView::Entity(entity)) && (predicate is Some
                ==> db.statements[j].predicate == predicate->Some_0);
        assert(c.assertions.contains(db.assertions[i].id));
    }
}

/// After an entity was redacted, wholly or under one predicate, nothing asserts a
/// statement in the space that has it as subject or as object; assertions of other
/// statements stay.
pub proof fn law_nothing_names_a_redacted_entity(
    db: TablesView,
    space: Seq<char>,
    entity: Seq<char>,
    predicate: Option<Seq<char>>,
    target: RedactTargetView,
    target_json: Seq<char>,
    rid: Seq<char>,
    reason: Seq<char>,
    actor: Seq<char>,
    now: Timestamp,
)
    requires
        target == match predicate {
            None => RedactTargetView::Entity { space, entity_id: entity },
            Some(p) => RedactTargetView::PredicateScoped { space, entity_id: entity, predicate: p },
        },
    ensures
        ({
            let after = after_redaction(db, target, target_json, rid, reason, actor, now);
            &&& forall|i: int, j: int|
                0 <= i < after.assertions.len() && 0 <= j < db.statements.len() && (
                #[trigger] after.assertions[i]).statement == (#[trigger] db.statements[j]).id
                    && db.statements[j].space == space && (predicate is Some
                    ==> db.statements[j].predicate == predicate->Some_0)
                    ==> db.statements[j].subject != entity && db.statements[j].object
                    != ObjectView::Entity(entity)
            &&& forall|i: int|
                #![trigger db.assertions[i]]
                0 <= i < db.assertions.len() && (forall|k: int, j: int|
                    0 <= k < db.assertions.len() && 0 <= j < db.statements.len()
                        && #[trigger] db.assertions[k].id == db.assertions[i].id
                        && db.assertions[k].statement == #[trigger] db.statements[j].id
                        ==> db.statements[j].space != space || (db.statements[j].subject != entity
                        && db.statements[j].object != ObjectView::Entity(entity)) || (
                    predicate is Some && db.statements[j].predicate != predicate->Some_0))
                    ==> after.assertions.contains(db.assertions[i])
        }),
{
    let c = closure_of(db, target);
    let after = after_redaction(db, target, target_json, rid, reason, actor, now);
    law_entity_closure_holds_what_names_it(db, space, entity, predicate, target);
    law_redaction_takes_what_it_lists(db, target, target_json, rid, reason, actor, now);
    assert forall|i: int, j: int|
        0 <= i < after.assertions.len() && 0 <= j < db.statements.len() && (
        #[trigger] after.assertions[i]).statement == (#[trigger] db.statements[j]).id
            && db.statements[j].space == space && (predicate is Some ==> db.statements[j].predicate
            == predicate->Some_0) implies db.statements[j].subject != entity
        && db.statements[j].object != ObjectView::Entity(entity) by {
        let a = after.assertions[i];
        assert(after.assertions.contains(a));
        let k = choose|k: int| 0 <= k < db.assertions.len() && db.assertions[k] == a;
        if db.statements[j].subject == entity || db.statements[j].object == ObjectView::Entity(
            entity,
        ) {
            assert(db.assertions[k].id == a.id && db.assertions[k].statement
                == db.statements[j].id);
            assert(c.assertions.contains(a.id));
        }
    }
    assert forall|i: int|
        #![trigger db.assertions[i]]
        0 <= i < db.assertions.len() && (forall|k: int, j: int|
            0 <= k < db.assertions.len() && 0 <= j < db.statements.len()
                && #[trigger] db.assertions[k].id == db.assertions[i].id
                && db.assertions[k].statement == #[trigger] db.statements[j].id
                ==> db.statements[j].space != space || (db.statements[j].subject != entity
                && db.statements[j].object != ObjectView::Entity(entity)) || (predicate is Some
                && db.statements[j].predicate != predicate->Some_0)) implies
        after.assertions.contains(db.assertions[i]) by {
        let id = db.assertions[i].id;
        if c.assertions.contains(id) {
            let (k, j) = choose|k: int, j: int|
                0 <= k < db.assertions.len() && 0 <= j < db.statements.len()
                    && (#[trigger] db.assertions[k]).id == id && db.assertions[k].statement
                    == (#[trigger] db.statements[j]).id && db.statements[j].space == space && (
                db.statements[j].subject == entity || db.statements[j].object
                    == ObjectView::Entity(entity)) && (predicate is Some
                    ==> db.statements[j].predicate == predicate->Some_0);
            assert(db.assertions[k].id == db.assertions[i].id);
            assert(db.statements[j].id == db.assertions[k].statement);
        }
    }
}

/// What the redaction of an episode or an entity does to the ledger. A live
/// episode that it lists keeps its row: what it says is gone, compacted or not,
/// and it is marked as redacted now. The responses about a listed episode lose
/// their text. All else of the ledger stays as it is, row by row.
pub proof fn law_redaction_leaves_tombstones(
    db: TablesView,
    target: RedactTargetView,
    target_json: Seq<char>,
    rid: Seq<char>,
    reason: Seq<char>,
    actor: Seq<char>,
    now: Timestamp,
)
    requires
        !(target is Space),
    ensures
        ({
            let after = after_redaction(db, target, target_json, rid, reason, actor, now);
            &&& after.episodes.len() == db.episodes.len()
            &&& after.extractions.len() == db.extractions.len()
            &&& forall|i: int|
                #![trigger after.episodes[i]]
                #![trigger db.episodes[i]]
                0 <= i < db.episodes.len() ==> {
                    let e = db.episodes[i];
                    let f = after.episodes[i];
                    if target == (RedactTargetView::Episode { id: e.id }) && e.redacted_at is None {
                        &&& f.content == "[redacted]"@
                        &&& f.content_compacted is None
                        &&& f.redacted_at == Some(now)
                        &&& f.id == e.id
                        &&& f.space == e.space
                        &&& f.seq == e.seq
                        &&& f.content_hash == e.content_hash
                        &&& f.kind == e.kind
                        &&& f.trust == e.trust
                        &&& f.source_kind == e.source_kind
                        &&& f.source_ref == e.source_ref
                        &&& f.occurred_at == e.occurred_at
                        &&& f.ingested_at == e.ingested_at
                    } else {
                        f == e
                    }
                }
            &&& forall|i: int|
                #![trigger after.extractions[i]]
                #![trigger db.extractions[i]]
                0 <= i < db.extractions.len() ==> {
                    let x = db.extractions[i];
                    let y = after.extractions[i];
                    if target == (RedactTargetView::Episode { id: x.episode_id }) {
                        &&& y.raw_response == "[redacted]"@
                        &&& y.episode_id == x.episode_id
                        &&& y.extractor_id == x.extractor_id
                        &&& y.response_hash == x.response_hash
                        &&& y.created_at == x.created_at
                    } else {
                        y == x
                    }
                }
            &&& after.failures == db.failures
            &&& after.links == db.links
            &&& after.sources == db.sources
            &&& after.policies == db.policies
            &&& after.tokens == db.tokens
        }),
{
    let c = closure_of(db, target);
    let after = after_redaction(db, target, target_json, rid, reason, actor, now);
    match target {
        RedactTargetView::Episode { id } => {
            law_episode_closure_holds_what_it_asserted(db, id);
            assert forall|i: int| 0 <= i < db.episodes.len() implies (c.episodes.contains(
                (#[trigger] db.episodes[i]).id,
            ) <==> db.episodes[i].id == id) by {
                assert(c.episodes[0] == id);
            }
            assert forall|i: int| 0 <= i < db.extractions.len() implies (c.extractions.contains(
                (#[trigger] db.extractions[i]).episode_id,
            ) <==> db.extractions[i].episode_id == id) by {}
        },
        RedactTargetView::Entity { space, entity_id } => {
            law_entity_closure_holds_what_names_it(db, space, entity_id, None, target);
        },
        RedactTargetView::PredicateScoped { space, entity_id, predicate } => {
            law_entity_closure_holds_what_names_it(
                db,
                space,
                entity_id,
                Some(predicate),
                target,
            );
        },
        RedactTargetView::Space { id } => {},
    }
}

/// What the purge of a space lists: its episodes, its statements and their
/// assertions and mentions, and those of its episodes that have responses.
pub proof fn law_space_closure_holds_its_rows(db: TablesView, space: Seq<char>)
    ensures
        ({
            let c = closure_of(db, RedactTargetView::Space { id: space });
            &&& forall|x: Seq<char>| #[trigger]
                c.episodes.contains(x) <==> exists|i: int|
                    0 <= i < db.episodes.len() && (#[trigger] db.episodes[i]).id == x
                        && db.episodes[i].space == space
            &&& forall|x: Seq<char>| #[trigger]
                c.statements.contains(x) <==> exists|i: int|
                    0 <= i < db.statements.len() && (#[trigger] db.statements[i]).id == x
                        && db.statements[i].space == space
            &&& forall|x: Seq<char>| #[trigger]
                c.assertions.contains(x) <==> exists|i: int|
                    0 <= i < db.assertions.len() && (#[trigger] db.assertions[i]).id == x
                        && c.statements.contains(db.assertions[i].statement)
            &&& forall|x: Seq<char>| #[trigger]
                c.mentions.contains(x) <==> exists|i: int|
                    0 <= i < db.mentions.len() && (#[trigger] db.mentions[i]).id == x
                        && c.assertions.contains(db.mentions[i].assertion)
            &&& forall|x: Seq<char>| #[trigger]
                c.extractions.contains(x) <==> c.episodes.contains(x) && exists|i: int|
                    0 <= i < db.extractions.len() && (#[trigger] db.extractions[i]).episode_id == x
            &&& c.summaries.len() == 0
        }),
{
    let c = closure_of(db, RedactTargetView::Space { id: space });
    lemma_got(db.episodes, episode_in(space), episode_id_of());
    lemma_got(db.statements, statement_in(space), statement_id_of());
    lemma_got(db.assertions, asserts_any(c.statements), assertion_id_of());
    lemma_got(db.mentions, mentioned_in(c.assertions), mention_id_of());
    lemma_got(db.extractions, extracted_from_any(c.episodes), extraction_episode());
    lemma_distinct(
        db.extractions.filter(extracted_from_any(c.episodes)).map_values(extraction_episode()),
    );
    assert forall|x: Seq<char>| #[trigger] c.episodes.contains(x) <==> exists|i: int|
        0 <= i < db.episodes.len() && (#[trigger] db.episodes[i]).id == x && db.episodes[i].space
            == space by {
        if exists|i: int|
            0 <= i < db.episodes.len() && (#[trigger] db.episodes[i]).id == x
                && db.episodes[i].space == space {
            let i = choose|i: int|
                0 <= i < db.episodes.len() && (#[trigger] db.episodes[i]).id == x
                    && db.episodes[i].space == space;
            assert(episode_in(space)(db.episodes[i]));
        }
    }
    assert forall|x: Seq<char>| #[trigger] c.statements.contains(x) <==> exists|i: int|
        0 <= i < db.statements.len() && (#[trigger] db.statements[i]).id == x
            && db.statements[i].space == space by {
        if exists|i: int|
            0 <= i < db.statements.len() && (#[trigger] db.statements[i]).id == x
                && db.statements[i].space == space {
            let i = choose|i: int|
                0 <= i < db.statements.len() && (#[trigger] db.statements[i]).id == x
                    && db.statements[i].space == space;
            assert(statement_in(space)(db.statements[i]));
        }
    }
    assert forall|x: Seq<char>| #[trigger] c.assertions.contains(x) <==> exists|i: int|
        0 <= i < db.assertions.len() && (#[trigger] db.assertions[i]).id == x
            && c.statements.contains(db.assertions[i].statement) by {
        if exists|i: int|
            0 <= i < db.assertions.len() && (#[trigger] db.assertions[i]).id == x
                && c.statements.contains(db.assertions[i].statement) {
            let i = choose|i: int|
                0 <= i < db.assertions.len() && (#[trigger] db.assertions[i]).id == x
                    && c.statements.contains(db.assertions[i].statement);
            assert(asserts_any(c.statements)(db.assertions[i]));
        }
    }
    assert forall|x: Seq<char>| #[trigger] c.mentions.contains(x) <==> exists|i: int|
        0 <= i < db.mentions.len() && (#[trigger] db.mentions[i]).id == x && c.assertions.contains(
            db.mentions[i].assertion,
        ) by {
        if exists|i: int|
            0 <= i < db.mentions.len() && (#[trigger] db.mentions[i]).id == x
                && c.assertions.contains(db.mentions[i].assertion) {
            let i = choose|i: int|
                0 <= i < db.mentions.len() && (#[trigger] db.mentions[i]).id == x
                    && c.assertions.contains(db.mentions[i].assertion);
            assert(mentioned_in(c.assertions)(db.mentions[i]));
        }
    }
    assert forall|x: Seq<char>| #[trigger] c.extractions.contains(x) <==> c.episodes.contains(x)
        && exists|i: int|
        0 <= i < db.extractions.len() && (#[trigger] db.extractions[i]).episode_id == x by {
        if c.episodes.contains(x) && exists|i: int|
            0 <= i < db.extractions.len() && (#[trigger] db.extractions[i]).episode_id == x {
            let i = choose|i: int|
                0 <= i < db.extractions.len() && (#[trigger] db.extractions[i]).episode_id == x;
            assert(extracted_from_any(c.episodes)(db.extractions[i]));
        }
    }
}

/// What is left after a space that holds an episode was purged, table by table:
/// the rows that are not of the space, and do not hang on a row of it.
pub proof fn law_purge_by_rows(
    db: TablesView,
    space: Seq<char>,
    target_json: Seq<char>,
    rid: Seq<char>,
    reason: Seq<char>,
    actor: Seq<char>,
    now: Timestamp,
)
    requires
        exists|i: int| 0 <= i < db.episodes.len() && (#[trigger] db.episodes[i]).space == space,
    ensures
        ({
            let target = RedactTargetView::Space { id: space };
            let after = after_redaction(db, target, target_json, rid, reason, actor, now);
            &&& forall|s: SpaceEntryView| #[trigger]
                after.spaces.contains(s) <==> db.spaces.contains(s) && s.id != space
            &&& forall|e: EpisodeRowView| #[trigger]
                after.episodes.contains(e) <==> db.episodes.contains(e) && e.space != space
            &&& forall|s: SourceRowView| #[trigger]
                after.sources.contains(s) <==> db.sources.contains(s) && s.space != space
            &&& forall|e: EntityView| #[trigger]
                after.entities.contains(e) <==> db.entities.contains(e) && e.space != space
            &&& forall|k: EntityKeyView| #[trigger]
                after.keys.contains(k) <==> db.keys.contains(k) && k.space != space
            &&& forall|s: StatementView| #[trigger]
                after.statements.contains(s) <==> db.statements.contains(s) && s.space != space
            &&& forall|c: CommunityRowView| #[trigger]
                after.communities.contains(c) <==> db.communities.contains(c) && c.space != space
            &&& forall|c: ChunkRowView| #[trigger]
                after.chunks.contains(c) <==> db.chunks.contains(c) && c.space != space
            &&& forall|f: FtsRowView| #[trigger]
                after.fts_word.contains(f) <==> db.fts_word.contains(f) && f.space != space
            &&& forall|f: FtsRowView| #[trigger]
                after.fts_ngram.contains(f) <==> db.fts_ngram.contains(f) && f.space != space
            &&& forall|v: VectorRowView| #[trigger]
                after.tfidf_vectors.contains(v) <==> db.tfidf_vectors.contains(v) && v.space
                    != space
            &&& forall|a: AssertionView| #[trigger]
                after.assertions.contains(a) <==> db.assertions.contains(a) && forall|j: int|
                    0 <= j < db.statements.len() && (#[trigger] db.statements[j]).id == a.statement
                        ==> db.statements[j].space != space
            &&& forall|b: BeliefView| #[trigger]
                after.beliefs.contains(b) <==> db.beliefs.contains(b) && forall|j: int|
                    0 <= j < db.statements.len() && (#[trigger] db.statements[j]).id == b.statement
                        ==> db.statements[j].space != space
            &&& forall|m: MentionView| #[trigger]
                after.mentions.contains(m) <==> db.mentions.contains(m) && forall|i: int, j: int|
                    #![trigger db.assertions[i], db.statements[j]]
                    0 <= i < db.assertions.len() && 0 <= j < db.statements.len()
                        && db.assertions[i].id == m.assertion && db.statements[j].id
                        == db.assertions[i].statement ==> db.statements[j].space != space
            &&& forall|x: ExtractionRowView| #[trigger]
                after.extractions.contains(x) <==> db.extractions.contains(x) && forall|j: int|
                    0 <= j < db.episodes.len() && (#[trigger] db.episodes[j]).id == x.episode_id
                        ==> db.episodes[j].space != space
            &&& forall|x: ExtractionFailureView| #[trigger]
                after.failures.contains(x) <==> db.failures.contains(x) && forall|j: int|
                    0 <= j < db.episodes.len() && (#[trigger] db.episodes[j]).id == x.episode_id
                        ==> db.episodes[j].space != space
            &&& forall|l: EpisodeLinkView| #[trigger]
                after.links.contains(l) <==> db.links.contains(l) && forall|j: int|
                    0 <= j < db.episodes.len() && ((#[trigger] db.episodes[j]).id == l.from_episode
                        || db.episodes[j].id == l.to_episode) ==> db.episodes[j].space != space
            &&& forall|m: EntityMergeView| #[trigger]
                after.merges.contains(m) <==> db.merges.contains(m) && forall|j: int|
                    0 <= j < db.entities.len() && ((#[trigger] db.entities[j]).id == m.loser
                        || db.entities[j].id == m.winner) ==> db.entities[j].space != space
            &&& forall|v: EntityVectorRowView| #[trigger]
                after.entity_vectors.contains(v) <==> db.entity_vectors.contains(v) && forall|
                    j: int,
                |
                    0 <= j < db.entities.len() && (#[trigger] db.entities[j]).id == v.entity_id
                        ==> db.entities[j].space != space
            &&& forall|p: PolicyRowView| #[trigger]
                after.policies.contains(p) <==> db.policies.contains(p) && forall|j: int|
                    0 <= j < db.sources.len() && (#[trigger] db.sources[j]).id == p.source_id
                        ==> db.sources[j].space != space
            &&& after.predicates == db.predicates
            &&& after.tokens == db.tokens
            &&& after.meta == db.meta
        }),
{
    let target = RedactTargetView::Space { id: space };
    let c = closure_of(db, target);
    let after = after_redaction(db, target, target_json, rid, reason, actor, now);
    law_space_closure_holds_its_rows(db, space);
    let i = choose|i: int| 0 <= i < db.episodes.len() && (#[trigger] db.episodes[i]).space == space;
    assert(c.episodes.contains(db.episodes[i].id));
    assert(c.episodes.len() > 0);
    let episodes = space_episodes(db, space);
    let statements = space_statements(db, space);
    let assertions = space_assertions(db, space);
    let entities = space_entities(db, space);
    let sources = space_sources(db, space);
    assert(c.episodes == episodes && c.statements == statements && c.assertions == assertions);
    lemma_got(db.entities, entity_in(space), entity_id_of());
    lemma_got(db.sources, source_in(space), |s: SourceRowView| s.id);
    lemma_selected(db.spaces, |s: SpaceEntryView| s.id != space);
    lemma_selected(db.episodes, |e: EpisodeRowView| e.space != space);
    lemma_selected(db.sources, |s: SourceRowView| s.space != space);
    lemma_selected(db.entities, |e: EntityView| e.space != space);
    lemma_selected(db.keys, |k: EntityKeyView| k.space != space);
    lemma_selected(db.statements, |s: StatementView| s.space != space);
    lemma_selected(db.communities, |c: CommunityRowView| c.space != space);
    lemma_selected(db.chunks, |c: ChunkRowView| c.space != space);
    lemma_selected(db.fts_word, |f: FtsRowView| f.space != space);
    lemma_selected(db.fts_ngram, |f: FtsRowView| f.space != space);
    lemma_selected(db.tfidf_vectors, |v: VectorRowView| v.space != space);
    lemma_selected(db.assertions, |a: AssertionView| !statements.contains(a.statement));
    lemma_selected(db.beliefs, |b: BeliefView| !statements.contains(b.statement));
    lemma_selected(db.mentions, |m: MentionView| !assertions.contains(m.assertion));
    lemma_selected(db.extractions, |x: ExtractionRowView| !episodes.contains(x.episode_id));
    lemma_selected(db.failures, |f: ExtractionFailureView| !episodes.contains(f.episode_id));
    lemma_selected(
        db.links,
        |l: EpisodeLinkView|
            !(episodes.contains(l.from_episode) || episodes.contains(l.to_episode)),
    );
    lemma_selected(
        db.merges,
        |m: EntityMergeView| !(entities.contains(m.loser) || entities.contains(m.winner)),
    );
    lemma_selected(db.entity_vectors, |v: EntityVectorRowView| !entities.contains(v.entity_id));
    lemma_selected(db.policies, |p: PolicyRowView| !sources.contains(p.source_id));
    assert forall|id: Seq<char>| #[trigger] entities.contains(id) <==> exists|j: int|
        0 <= j < db.entities.len() && (#[trigger] db.entities[j]).id == id && db.entities[j].space
            == space by {
        if exists|j: int|
            0 <= j < db.entities.len() && (#[trigger] db.entities[j]).id == id
                && db.entities[j].space == space {
            let j = choose|j: int|
                0 <= j < db.entities.len() && (#[trigger] db.entities[j]).id == id
                    && db.entities[j].space == space;
            assert(entity_in(space)(db.entities[j]));
        }
    }
    assert forall|id: Seq<char>| #[trigger] sources.contains(id) <==> exists|j: int|
        0 <= j < db.sources.len() && (#[trigger] db.sources[j]).id == id && db.sources[j].space
            == space by {
        if exists|j: int|
            0 <= j < db.sources.len() && (#[trigger] db.sources[j]).id == id && db.sources[j].space
                == space {
            let j = choose|j: int|
                0 <= j < db.sources.len() && (#[trigger] db.sources[j]).id == id
                    && db.sources[j].space == space;
            assert(source_in(space)(db.sources[j]));
        }
    }
    assert forall|m: MentionView| #[trigger] after.mentions.contains(m) <==> db.mentions.contains(m)
        && forall|i: int, j: int|
        #![trigger db.assertions[i], db.statements[j]]
        0 <= i < db.assertions.len() && 0 <= j < db.statements.len() && db.assertions[i].id
            == m.assertion && db.statements[j].id == db.assertions[i].statement
            ==> db.statements[j].space != space by {
        let kept = |m: MentionView| !assertions.contains(m.assertion);
        assert(after.mentions == db.mentions.filter(kept));
        assert(db.mentions.filter(kept).contains(m) <==> db.mentions.contains(m) && kept(m));
        if assertions.contains(m.assertion) {
            assert(c.assertions.contains(m.assertion));
            let i = choose|i: int|
                0 <= i < db.assertions.len() && (#[trigger] db.assertions[i]).id == m.assertion
                    && c.statements.contains(db.assertions[i].statement);
            assert(c.statements.contains(db.assertions[i].statement));
            let j = choose|j: int|
                0 <= j < db.statements.len() && (#[trigger] db.statements[j]).id
                    == db.assertions[i].statement && db.statements[j].space == space;
            assert(db.assertions[i].id == m.assertion && db.statements[j].space == space);
        } else {
            assert forall|i: int, j: int|
                #![trigger db.assertions[i], db.statements[j]]
                0 <= i < db.assertions.len() && 0 <= j < db.statements.len() && db.assertions[i].id
                    == m.assertion && db.statements[j].id
                    == db.assertions[i].statement implies db.statements[j].space != space by {
                if db.statements[j].space == space {
                    assert(c.statements.contains(db.statements[j].id));
                    assert(c.assertions.contains(db.assertions[i].id));
                }
            }
        }
    }
}

/// The groups that are to be folded again: for each pair of a subject and a
/// predicate with a group, one, as of the time; and no others.
proof fn lemma_refolds(
    db: TablesView,
    space: Seq<char>,
    pairs: Seq<(Seq<char>, Seq<char>)>,
    at: Timestamp,
)
    ensures
        refolds_for(db, space, pairs, at) matches Ok(refolds) ==> {
            &&& forall|k: int|
                0 <= k < refolds.len() ==> {
                    let r = #[trigger] refolds[k];
                    &&& r.space == space
                    &&& r.at == at
                    &&& pairs.contains((r.subject, r.predicate))
                    &&& r.group == statement_group(db, space, r.subject, r.predicate)
                    &&& r.group.len() > 0
                    &&& first_where(db.predicates, predicate_named(r.predicate)) matches Some(p)
                        && p.def_json == r.def_json
                }
            &&& forall|i: int|
                0 <= i < pairs.len() && statement_group(
                    db,
                    space,
                    (#[trigger] pairs[i]).0,
                    pairs[i].1,
                ).len() > 0 ==> exists|k: int|
                    0 <= k < refolds.len() && (#[trigger] refolds[k]).subject == pairs[i].0
                        && refolds[k].predicate == pairs[i].1
        },
    decreases pairs.len(),
{
    if pairs.len() > 0 {
        let init = pairs.drop_last();
        lemma_refolds(db, space, init, at);
        if let Ok(refolds) = refolds_for(db, space, pairs, at) {
            let done = refolds_for(db, space, init, at)->Ok_0;
            assert forall|k: int| 0 <= k < refolds.len() implies ({
                let r = #[trigger] refolds[k];
                &&& r.space == space
                &&& r.at == at
                &&& pairs.contains((r.subject, r.predicate))
                &&& r.group == statement_group(db, space, r.subject, r.predicate)
                &&& r.group.len() > 0
                &&& first_where(db.predicates, predicate_named(r.predicate)) matches Some(p)
                    && p.def_json == r.def_json
            }) by {
                if k < done.len() {
                    let r = done[k];
                    assert(refolds[k] == r);
                    let n = choose|n: int|
                        0 <= n < init.len() && init[n] == (r.subject, r.predicate);
                    assert(pairs[n] == (r.subject, r.predicate));
                } else {
                    assert(pairs[pairs.len() - 1] == (refolds[k].subject, refolds[k].predicate));
                }
            }
            assert forall|i: int|
                0 <= i < pairs.len() && statement_group(
                    db,
                    space,
                    (#[trigger] pairs[i]).0,
                    pairs[i].1,
                ).len() > 0 implies exists|k: int|
                0 <= k < refolds.len() && (#[trigger] refolds[k]).subject == pairs[i].0
                    && refolds[k].predicate == pairs[i].1 by {
                if i < init.len() {
                    assert(init[i] == pairs[i]);
                    let k = choose|k: int|
                        0 <= k < done.len() && (#[trigger] done[k]).subject == pairs[i].0
                            && done[k].predicate == pairs[i].1;
                    assert(refolds[k] == done[k]);
                } else {
                    assert(refolds[refolds.len() - 1].subject == pairs[i].0);
                }
            }
        }
    }
}

/// After an entity was redacted, the groups that still hold a statement with it as
/// subject or object are folded again, each as of the time of the redaction, with
/// all that is asserted in the group; and no other groups are.
pub proof fn law_groups_of_a_redacted_entity_are_folded_again(
    db: TablesView,
    space: Seq<char>,
    entity: Seq<char>,
    predicate: Option<Seq<char>>,
    target: RedactTargetView,
    at: Timestamp,
)
    requires
        target == match predicate {
            None => RedactTargetView::Entity { space, entity_id: entity },
            Some(p) => RedactTargetView::PredicateScoped { space, entity_id: entity, predicate: p },
        },
    ensures
        ({
            let (home, pairs) = groups_to_refold(db, target);
            refolds_for(db, home, pairs, at) matches Ok(refolds) ==> {
                &&& forall|k: int|
                    0 <= k < refolds.len() ==> {
                        let r = #[trigger] refolds[k];
                        &&& r.space == space
                        &&& r.at == at
                        &&& exists|j: int|
                            0 <= j < db.statements.len() && (#[trigger] db.statements[j]).space
                                == space && db.statements[j].subject == r.subject
                                && db.statements[j].predicate == r.predicate && (
                            db.statements[j].subject == entity || db.statements[j].object
                                == ObjectView::Entity(entity)) && (predicate is Some
                                ==> r.predicate == predicate->Some_0)
                        &&& r.group == statement_group(db, space, r.subject, r.predicate)
                        &&& exists|n: int|
                            0 <= n < db.predicates.len() && (#[trigger] db.predicates[n]).name
                                == r.predicate && db.predicates[n].def_json == r.def_json
                    }
                &&& forall|j: int, i: int|
                    #![trigger db.statements[j], db.assertions[i]]
                    0 <= j < db.statements.len() && 0 <= i < db.assertions.len()
                        && db.statements[j].space == space && (db.statements[j].subject == entity
                        || db.statements[j].object == ObjectView::Entity(entity)) && (
                    predicate is Some ==> db.statements[j].predicate == predicate->Some_0)
                        && db.assertions[i].statement == db.statements[j].id ==> exists|k: int|
                        0 <= k < refolds.len() && (#[trigger] refolds[k]).subject
                            == db.statements[j].subject && refolds[k].predicate
                            == db.statements[j].predicate
            }
        }),
{
    let p = involves(space, entity, predicate);
    let (home, pairs) = groups_to_refold(db, target);
    let listed = db.statements.filter(p).map_values(pair_of());
    assert(home == space && pairs == distinct(listed));
    lemma_got(db.statements, p, pair_of());
    lemma_distinct(listed);
    lemma_refolds(db, space, pairs, at);
    if let Ok(refolds) = refolds_for(db, home, pairs, at) {
        assert forall|k: int| 0 <= k < refolds.len() implies ({
            let r = #[trigger] refolds[k];
            &&& exists|j: int|
                0 <= j < db.statements.len() && (#[trigger] db.statements[j]).space == space
                    && db.statements[j].subject == r.subject && db.statements[j].predicate
                    == r.predicate && (db.statements[j].subject == entity
                    || db.statements[j].object == ObjectView::Entity(entity)) && (predicate is Some
                    ==> r.predicate == predicate->Some_0)
            &&& exists|n: int|
                0 <= n < db.predicates.len() && (#[trigger] db.predicates[n]).name == r.predicate
                    && db.predicates[n].def_json == r.def_json
        }) by {
            let r = refolds[k];
            assert(listed.contains((r.subject, r.predicate)));
            let j = choose|j: int|
                0 <= j < db.statements.len() && p(#[trigger] db.statements[j]) && pair_of()(
                    db.statements[j],
                ) == (r.subject, r.predicate);
            assert(db.statements[j].space == space);
            lemma_first_is(db.predicates, predicate_named(r.predicate));
            let row = first_where(db.predicates, predicate_named(r.predicate))->Some_0;
            let n = choose|n: int| 0 <= n < db.predicates.len() && db.predicates[n] == row;
            assert(db.predicates[n].name == r.predicate);
        }
        assert forall|j: int, i: int|
            #![trigger db.statements[j], db.assertions[i]]
            0 <= j < db.statements.len() && 0 <= i < db.assertions.len() && db.statements[j].space
                == space && (db.statements[j].subject == entity || db.statements[j].object
                == ObjectView::Entity(entity)) && (predicate is Some ==> db.statements[j].predicate
                == predicate->Some_0) && db.assertions[i].statement
                == db.statements[j].id implies exists|k: int|
            0 <= k < refolds.len() && (#[trigger] refolds[k]).subject == db.statements[j].subject
                && refolds[k].predicate == db.statements[j].predicate by {
            let s = db.statements[j];
            assert(p(s));
            assert(pair_of()(s) == (s.subject, s.predicate));
            assert(listed.contains((s.subject, s.predicate)));
            assert(pairs.contains((s.subject, s.predicate)));
            let n = choose|n: int| 0 <= n < pairs.len() && pairs[n] == (s.subject, s.predicate);
            law_group_holds_what_is_asserted(db, space, s.subject, s.predicate);
            assert(statement_group(db, space, pairs[n].0, pairs[n].1).len() > 0);
        }
    }
}

/// After an episode was redacted, every group of its space that is still asserted
/// is folded again, as of the time of the redaction.
pub proof fn law_groups_of_a_redacted_episode_are_folded_again(
    db: TablesView,
    e: EpisodeRowView,
    at: Timestamp,
)
    requires
        first_where(db.episodes, episode_has_id(e.id)) == Some(e),
    ensures
        ({
            let (home, pairs) = groups_to_refold(db, RedactTargetView::Episode { id: e.id });
            refolds_for(db, home, pairs, at) matches Ok(refolds) ==> {
                &&& forall|k: int|
                    0 <= k < refolds.len() ==> {
                        let r = #[trigger] refolds[k];
                        &&& r.space == e.space
                        &&& r.at == at
                        &&& r.group == statement_group(db, e.space, r.subject, r.predicate)
                        &&& r.group.len() > 0
                    }
                &&& forall|j: int, i: int|
                    #![trigger db.statements[j], db.assertions[i]]
                    0 <= j < db.statements.len() && 0 <= i < db.assertions.len()
                        && db.statements[j].space == e.space && db.assertions[i].statement
                        == db.statements[j].id ==> exists|k: int|
                        0 <= k < refolds.len() && (#[trigger] refolds[k]).subject
                            == db.statements[j].subject && refolds[k].predicate
                            == db.statements[j].predicate
            }
        }),
{
    let p = statement_in(e.space);
    let (home, pairs) = groups_to_refold(db, RedactTargetView::Episode { id: e.id });
    let listed = db.statements.filter(p).map_values(pair_of());
    assert(home == e.space && pairs == distinct(listed));
    lemma_got(db.statements, p, pair_of());
    lemma_distinct(listed);
    lemma_refolds(db, e.space, pairs, at);
    if let Ok(refolds) = refolds_for(db, home, pairs, at) {
        assert forall|j: int, i: int|
            #![trigger db.statements[j], db.assertions[i]]
            0 <= j < db.statements.len() && 0 <= i < db.assertions.len() && db.statements[j].space
                == e.space && db.assertions[i].statement == db.statements[j].id implies exists|
            k: int,
        |
            0 <= k < refolds.len() && (#[trigger] refolds[k]).subject == db.statements[j].subject
                && refolds[k].predicate == db.statements[j].predicate by {
            let s = db.statements[j];
            assert(p(s));
            assert(pair_of()(s) == (s.subject, s.predicate));
            assert(listed.contains((s.subject, s.predicate)));
            assert(pairs.contains((s.subject, s.predicate)));
            let n = choose|n: int| 0 <= n < pairs.len() && pairs[n] == (s.subject, s.predicate);
            law_group_holds_what_is_asserted(db, e.space, s.subject, s.predicate);
            assert(statement_group(db, e.space, pairs[n].0, pairs[n].1).len() > 0);
        }
    }
}

/// A redaction folds the groups that are left after it, as of its time; where it
/// finds nothing it folds nothing. Its replay does the same, and takes out of what
/// is known what the redaction took out.
pub proof fn law_redaction_and_replay_fold_what_is_left(
    db: TablesView,
    target: RedactTargetView,
    target_json: Seq<char>,
    rid: Seq<char>,
    reason: Seq<char>,
    actor: Seq<char>,
    at: Timestamp,
)
    requires
        !(target is Space),
    ensures
        ({
            let c = closure_of(db, target);
            let after = after_redaction(db, target, target_json, rid, reason, actor, at);
            let again = after_replay(db, target);
            &&& c.assertions.len() > 0 ==> {
                &&& refolds_after(db, target, target_json, rid, reason, actor, at) == ({
                    let (space, pairs) = groups_to_refold(after, target);
                    refolds_for(after, space, pairs, at)
                })
                &&& refolds_after_replay(db, target, at) == ({
                    let (space, pairs) = groups_to_refold(again, target);
                    refolds_for(again, space, pairs, at)
                })
            }
            &&& again.assertions == after.assertions
            &&& again.mentions == after.mentions
            &&& c.assertions.len() > 0 ==> again.statements == after.statements && again.beliefs
                == after.beliefs
            &&& again.episodes == db.episodes
            &&& again.audit == db.audit
            &&& again.redactions == db.redactions
        }),
{
    let c = closure_of(db, target);
    let after = after_redaction(db, target, target_json, rid, reason, actor, at);
    if c.assertions.len() == 0 {
        crate::redaction::lemma_all_kept(
            db.assertions,
            |a: AssertionView| !c.assertions.contains(a.id),
        );
        crate::redaction::lemma_all_kept(
            db.mentions,
            |m: MentionView| !c.assertions.contains(m.assertion),
        );
    }
}

/// A redaction leaves an entry of who did it, when, of what and why; and under its id
/// a record of the same, unless one is there already.
pub proof fn law_redaction_is_on_record(
    db: TablesView,
    target_json: Seq<char>,
    rid: Seq<char>,
    reason: Seq<char>,
    actor: Seq<char>,
    now: Timestamp,
)
    ensures
        ({
            let after = recorded(db, target_json, rid, reason, actor, now);
            let e = after.audit.last();
            &&& after.audit == db.audit.push(e)
            &&& e.ts == now
            &&& e.actor == actor
            &&& e.operation == "redact"@
            &&& e.target == Some(target_json)
            &&& e.detail_json == Some(reason)
            &&& (forall|i: int|
                0 <= i < db.redactions.len() ==> (#[trigger] db.redactions[i]).id != rid) ==> {
                let r = after.redactions.last();
                &&& after.redactions == db.redactions.push(r)
                &&& r.id == rid
                &&& r.target_json == target_json
                &&& r.reason == reason
                &&& r.actor == actor
                &&& r.redacted_at == now
            }
            &&& (exists|i: int|
                0 <= i < db.redactions.len() && (#[trigger] db.redactions[i]).id == rid)
                ==> after.redactions == db.redactions
            &&& after.episodes == db.episodes
            &&& after.statements == db.statements
            &&& after.entities == db.entities
        }),
{
    let p = redaction_has_id(rid);
    if exists|i: int| 0 <= i < db.redactions.len() && (#[trigger] db.redactions[i]).id == rid {
        let i = choose|i: int|
            0 <= i < db.redactions.len() && (#[trigger] db.redactions[i]).id == rid;
        assert(p(db.redactions[i]));
    } else {
        assert forall|i: int| 0 <= i < db.redactions.len() implies !p(
            #[trigger] db.redactions[i],
        ) by {}
    }
}

} // verus!
