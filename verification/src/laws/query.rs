//! What is asked of beliefs, contradictions, the graph and the facts of candidates.
use vstd::prelude::*;

use crate::knowledge::{beliefs_of, entity_id_of, is_live_in};
use crate::laws::knowledge::law_beliefs_of_a_statement;
use crate::query::{
    beliefs_of_all, edge_of, entity_beliefs, is_contradicted, is_contradiction, is_edge,
    is_entity_in, is_outside, is_surface, is_valid_at, leads_to, merge_group, merged_into, mergers,
    newcomers, salience_of, statements_about, statements_about_any, target_of, traversed, EdgeView,
    ONE, TargetIdView,
};
use crate::redaction::{statement_id_of, statement_in};
use crate::rows::{
    first_where, lemma_both_contain, lemma_distinct, lemma_first_is, lemma_got, lemma_selected,
    some_where,
};
use crate::tables::{BeliefView, EntityView, ObjectView, StatementView, TablesView};
use crate::time::Timestamp;
use crate::timeline::is_about;

verus! {

/// The ids that merge into a group are those of entities that point into it.
proof fn lemma_mergers(entities: Seq<EntityView>, group: Seq<Seq<char>>)
    ensures
        forall|id: Seq<char>| #[trigger]
            mergers(entities, group).contains(id) ==> exists|k: int, g: int|
                #![trigger entities[k], group[g]]
                0 <= k < entities.len() && 0 <= g < group.len() && entities[k].id == id
                    && entities[k].merged_into == Some(group[g]),
    decreases group.len(),
{
    if group.len() > 0 {
        let init = group.drop_last();
        let w = group.last();
        lemma_mergers(entities, init);
        let p = merged_into(w);
        lemma_got(entities, p, entity_id_of());
        let before = mergers(entities, init);
        let more = entities.filter(p).map_values(entity_id_of());
        assert forall|id: Seq<char>| #[trigger] mergers(entities, group).contains(id) implies
            exists|k: int, g: int|
            #![trigger entities[k], group[g]]
            0 <= k < entities.len() && 0 <= g < group.len() && entities[k].id == id
                && entities[k].merged_into == Some(group[g]) by {
            let n = choose|n: int| 0 <= n < (before + more).len() && (before + more)[n] == id;
            if n < before.len() {
                assert(before.contains(before[n]));
                let (k, g) = choose|k: int, g: int|
                    #![trigger entities[k], init[g]]
                    0 <= k < entities.len() && 0 <= g < init.len() && entities[k].id == id
                        && entities[k].merged_into == Some(init[g]);
                assert(entities[k].id == id && group[g] == init[g]);
            } else {
                assert(more[n - before.len()] == id);
                assert(more.contains(id));
                let k = choose|k: int|
                    0 <= k < entities.len() && p(#[trigger] entities[k]) && entity_id_of()(
                        entities[k],
                    ) == id;
                assert(entities[k].id == id && group[group.len() - 1] == w);
            }
        }
    }
}

/// Whether merges lead from one id to another, in however many steps.
pub open spec fn leads(entities: Seq<EntityView>, id: Seq<char>, entity: Seq<char>) -> bool {
    exists|n: nat| leads_to(entities, id, entity, n)
}

/// Following merges leads from every id of a merge group to the entity.
proof fn lemma_group_leads(entities: Seq<EntityView>, group: Seq<Seq<char>>, entity: Seq<char>)
    requires
        forall|g: int| 0 <= g < group.len() ==> leads(entities, #[trigger] group[g], entity),
    ensures
        forall|id: Seq<char>| #[trigger]
            merge_group(entities, group).contains(id) ==> leads(entities, id, entity),
    decreases
            (if group.len() > entities.len() + 1 {
                0
            } else {
                entities.len() + 2 - group.len()
            }),
{
    let new = newcomers(entities, group);
    if new.len() == 0 || group.len() > entities.len() + 1 {
        assert forall|id: Seq<char>| #[trigger]
            merge_group(entities, group).contains(id) implies leads(entities, id, entity) by {
            let g = choose|g: int| 0 <= g < group.len() && group[g] == id;
            assert(leads(entities, group[g], entity));
        }
    } else {
        let more = group + new;
        lemma_mergers(entities, group);
        let out = mergers(entities, group).filter(is_outside(group));
        lemma_selected(mergers(entities, group), is_outside(group));
        lemma_distinct(out);
        assert forall|g: int| 0 <= g < more.len() implies leads(
            entities,
            #[trigger] more[g],
            entity,
        ) by {
            if g < group.len() {
                assert(more[g] == group[g]);
            } else {
                let id = new[g - group.len()];
                assert(more[g] == id);
                assert(new.contains(id));
                assert(out.contains(id));
                assert(mergers(entities, group).contains(id));
                let (k, h) = choose|k: int, h: int|
                    #![trigger entities[k], group[h]]
                    0 <= k < entities.len() && 0 <= h < group.len() && entities[k].id == id
                        && entities[k].merged_into == Some(group[h]);
                assert(leads(entities, group[h], entity));
                let n = choose|n: nat| leads_to(entities, group[h], entity, n);
                assert(entities[k].merged_into is Some);
                assert(leads_to(entities, entities[k].merged_into->Some_0, entity, n));
                assert(leads_to(entities, id, entity, n + 1));
            }
        }
        lemma_group_leads(entities, more, entity);
        assert(merge_group(entities, group) == merge_group(entities, more));
    }
}

/// A merge group holds the ids from which merges lead to the entity, and no
/// others.
pub proof fn law_merge_group_is_what_leads_there(
    entities: Seq<EntityView>,
    entity: Seq<char>,
    id: Seq<char>,
)
    ensures
        merge_group(entities, seq![entity]).contains(id) <==> leads(entities, id, entity),
{
    let group = seq![entity];
    assert forall|g: int| 0 <= g < group.len() implies leads(
        entities,
        #[trigger] group[g],
        entity,
    ) by {
        assert(leads_to(entities, group[g], entity, 0));
    }
    lemma_group_leads(entities, group, entity);
    if leads(entities, id, entity) {
        let n = choose|n: nat| leads_to(entities, id, entity, n);
        crate::query::law_merge_group_is_complete(entities, id, entity, n);
    }
}

/// The statements about a subject are those of the space that have it as subject.
pub proof fn law_statements_about_a_subject(
    statements: Seq<StatementView>,
    space: Seq<char>,
    entity: Seq<char>,
)
    ensures
        forall|id: Seq<char>| #[trigger]
            statements_about(statements, space, entity).contains(id) <==> exists|j: int|
                0 <= j < statements.len() && (#[trigger] statements[j]).id == id
                    && statements[j].space == space && statements[j].subject == entity,
{
    lemma_got(statements, is_about(space, entity), statement_id_of());
    assert forall|id: Seq<char>| (exists|j: int|
        0 <= j < statements.len() && (#[trigger] statements[j]).id == id && statements[j].space
            == space && statements[j].subject == entity) implies #[trigger] statements_about(
        statements,
        space,
        entity,
    ).contains(id) by {
        let j = choose|j: int|
            0 <= j < statements.len() && (#[trigger] statements[j]).id == id && statements[j].space
                == space && statements[j].subject == entity;
        assert(is_about(space, entity)(statements[j]));
    }
}

/// The statements about some subjects.
proof fn lemma_about_any(
    statements: Seq<StatementView>,
    space: Seq<char>,
    entities: Seq<Seq<char>>,
)
    ensures
        forall|id: Seq<char>| #[trigger]
            statements_about_any(statements, space, entities).contains(id) <==> exists|j: int|
                0 <= j < statements.len() && (#[trigger] statements[j]).id == id
                    && statements[j].space == space && entities.contains(statements[j].subject),
    decreases entities.len(),
{
    if entities.len() > 0 {
        let init = entities.drop_last();
        let last = entities.last();
        lemma_about_any(statements, space, init);
        law_statements_about_a_subject(statements, space, last);
        let before = statements_about_any(statements, space, init);
        let more = statements_about(statements, space, last);
        assert(entities =~= init.push(last));
        assert forall|id: Seq<char>| #[trigger]
            statements_about_any(statements, space, entities).contains(id) <==> exists|j: int|
            0 <= j < statements.len() && (#[trigger] statements[j]).id == id && statements[j].space
                == space && entities.contains(statements[j].subject) by {
            lemma_both_contain(before, more, id);
            if before.contains(id) {
                let j = choose|j: int|
                    0 <= j < statements.len() && (#[trigger] statements[j]).id == id
                        && statements[j].space == space && init.contains(statements[j].subject);
                let k = choose|k: int| 0 <= k < init.len() && init[k] == statements[j].subject;
                assert(entities[k] == statements[j].subject);
            }
            if more.contains(id) {
                let j = choose|j: int|
                    0 <= j < statements.len() && (#[trigger] statements[j]).id == id
                        && statements[j].space == space && statements[j].subject == last;
                assert(entities[entities.len() - 1] == last);
            }
            if exists|j: int|
                0 <= j < statements.len() && (#[trigger] statements[j]).id == id
                    && statements[j].space == space && entities.contains(statements[j].subject) {
                let j = choose|j: int|
                    0 <= j < statements.len() && (#[trigger] statements[j]).id == id
                        && statements[j].space == space && entities.contains(
                        statements[j].subject,
                    );
                let k = choose|k: int|
                    0 <= k < entities.len() && entities[k] == statements[j].subject;
                if k < init.len() {
                    assert(init[k] == statements[j].subject);
                    assert(init.contains(statements[j].subject));
                    assert(before.contains(id));
                } else {
                    assert(more.contains(id));
                }
            }
        }
    }
}

/// The beliefs of some statements.
proof fn lemma_beliefs_of_all(beliefs: Seq<BeliefView>, statements: Seq<Seq<char>>)
    ensures
        forall|b: BeliefView| #[trigger]
            beliefs_of_all(beliefs, statements).contains(b) <==> beliefs.contains(b)
                && statements.contains(b.statement),
    decreases statements.len(),
{
    if statements.len() > 0 {
        let init = statements.drop_last();
        let last = statements.last();
        lemma_beliefs_of_all(beliefs, init);
        law_beliefs_of_a_statement(beliefs, last);
        assert(statements =~= init.push(last));
        assert forall|b: BeliefView| #[trigger]
            beliefs_of_all(beliefs, statements).contains(b) <==> beliefs.contains(b)
                && statements.contains(b.statement) by {
            lemma_both_contain(beliefs_of_all(beliefs, init), beliefs_of(beliefs, last), b);
            if statements.contains(b.statement) {
                let k = choose|k: int| 0 <= k < statements.len() && statements[k] == b.statement;
                if k < init.len() {
                    assert(init[k] == b.statement);
                }
            }
            if init.contains(b.statement) {
                let k = choose|k: int| 0 <= k < init.len() && init[k] == b.statement;
                assert(statements[k] == b.statement);
            }
            assert(statements[statements.len() - 1] == last);
        }
    }
}

/// The beliefs about an entity are those of the statements of the space whose
/// subject is the entity, or was merged into it in however many steps.
pub proof fn law_beliefs_about_an_entity(db: TablesView, space: Seq<char>, entity: Seq<char>)
    ensures
        forall|b: BeliefView| #[trigger]
            entity_beliefs(db, space, entity).contains(b) <==> db.beliefs.contains(b) && exists|
                j: int,
            |
                0 <= j < db.statements.len() && (#[trigger] db.statements[j]).id == b.statement
                    && db.statements[j].space == space && leads(
                    db.entities,
                    db.statements[j].subject,
                    entity,
                ),
{
    let group = merge_group(db.entities, seq![entity]);
    let sts = statements_about_any(db.statements, space, group);
    lemma_about_any(db.statements, space, group);
    lemma_beliefs_of_all(db.beliefs, sts);
    assert forall|b: BeliefView| #[trigger] entity_beliefs(db, space, entity).contains(b)
        <==> db.beliefs.contains(b) && exists|j: int|
        0 <= j < db.statements.len() && (#[trigger] db.statements[j]).id == b.statement
            && db.statements[j].space == space && leads(
            db.entities,
            db.statements[j].subject,
            entity,
        ) by {
        if sts.contains(b.statement) {
            let j = choose|j: int|
                0 <= j < db.statements.len() && (#[trigger] db.statements[j]).id == b.statement
                    && db.statements[j].space == space && group.contains(db.statements[j].subject);
            law_merge_group_is_what_leads_there(db.entities, entity, db.statements[j].subject);
        }
        if exists|j: int|
            0 <= j < db.statements.len() && (#[trigger] db.statements[j]).id == b.statement
                && db.statements[j].space == space && leads(
                db.entities,
                db.statements[j].subject,
                entity,
            ) {
            let j = choose|j: int|
                0 <= j < db.statements.len() && (#[trigger] db.statements[j]).id == b.statement
                    && db.statements[j].space == space && leads(
                    db.entities,
                    db.statements[j].subject,
                    entity,
                );
            law_merge_group_is_what_leads_there(db.entities, entity, db.statements[j].subject);
            assert(sts.contains(b.statement));
        }
    }
}

/// What was believed of an entity at a time: the beliefs about it that had begun by
/// then and had not ended before; all of them, and no others. Without a time, all
/// beliefs about it.
pub proof fn law_beliefs_as_of_hold_at_the_time(
    db: TablesView,
    space: Seq<char>,
    entity: Seq<char>,
    at: Option<Timestamp>,
)
    ensures
        ({
            let r = entity_beliefs(db, space, entity).filter(is_valid_at(at));
            &&& forall|i: int|
                0 <= i < r.len() ==> (at matches Some(t) ==> (#[trigger] r[i]).valid_from.0 <= t.0
                    && t.0 <= r[i].valid_to.0)
            &&& forall|b: BeliefView| #[trigger]
                r.contains(b) <==> entity_beliefs(db, space, entity).contains(b) && (
                at matches Some(t) ==> b.valid_from.0 <= t.0 && t.0 <= b.valid_to.0)
            &&& at is None ==> r == entity_beliefs(db, space, entity)
        }),
{
    let all = entity_beliefs(db, space, entity);
    lemma_selected(all, is_valid_at(at));
    assert forall|i: int| 0 <= i < all.filter(is_valid_at(at)).len() implies (at matches Some(t)
        ==> (#[trigger] all.filter(is_valid_at(at))[i]).valid_from.0 <= t.0 && t.0 <= all.filter(
        is_valid_at(at),
    )[i].valid_to.0) by {
        assert(is_valid_at(at)(all.filter(is_valid_at(at))[i]));
    }
    if at is None {
        crate::redaction::lemma_all_kept(all, is_valid_at(at));
    }
}

/// The contradictions of a space are its statements that are believed to be
/// contradicted.
pub proof fn law_contradictions_are_contradicted(db: TablesView, space: Seq<char>)
    ensures
        forall|s: StatementView| #[trigger]
            db.statements.filter(is_contradiction(db, space)).contains(s)
                <==> db.statements.contains(s) && s.space == space && exists|k: int|
                0 <= k < db.beliefs.len() && (#[trigger] db.beliefs[k]).statement == s.id
                    && db.beliefs[k].status == "contradicted"@,
{
    let p = is_contradiction(db, space);
    lemma_selected(db.statements, p);
    assert forall|s: StatementView| #[trigger] db.statements.filter(p).contains(s)
        <==> db.statements.contains(s) && s.space == space && exists|k: int|
        0 <= k < db.beliefs.len() && (#[trigger] db.beliefs[k]).statement == s.id
            && db.beliefs[k].status == "contradicted"@ by {
        let q = is_contradicted(s.id);
        if some_where(db.beliefs, q) {
            let k = choose|k: int| 0 <= k < db.beliefs.len() && q(#[trigger] db.beliefs[k]);
            assert(db.beliefs[k].statement == s.id);
        }
        if exists|k: int|
            0 <= k < db.beliefs.len() && (#[trigger] db.beliefs[k]).statement == s.id
                && db.beliefs[k].status == "contradicted"@ {
            let k = choose|k: int|
                0 <= k < db.beliefs.len() && (#[trigger] db.beliefs[k]).statement == s.id
                    && db.beliefs[k].status == "contradicted"@;
            assert(q(db.beliefs[k]));
        }
    }
}

/// What the statistics of a space count: its episodes, its entities that are not
/// merged away, and its statements.
pub proof fn law_statistics_count_the_space(db: TablesView, space: Seq<char>)
    ensures
        db.episodes.filter(crate::ledger::episode_in(space)).len() == db.episodes.filter(
            |e: crate::tables::EpisodeRowView| e.space == space,
        ).len(),
        db.entities.filter(is_live_in(space)).len() == db.entities.filter(
            |e: EntityView| e.space == space && e.merged_into is None,
        ).len(),
        db.statements.filter(statement_in(space)).len() == db.statements.filter(
            |s: StatementView| s.space == space,
        ).len(),
{
    crate::parting::lemma_same_filter(
        db.episodes,
        crate::ledger::episode_in(space),
        |e: crate::tables::EpisodeRowView| e.space == space,
    );
    crate::parting::lemma_same_filter(
        db.entities,
        is_live_in(space),
        |e: EntityView| e.space == space && e.merged_into is None,
    );
    crate::parting::lemma_same_filter(
        db.statements,
        statement_in(space),
        |s: StatementView| s.space == space,
    );
}

/// The graph of a space has an edge for each of its statements between entities,
/// from the subject to the object, and no others.
pub proof fn law_edges_join_entities(db: TablesView, space: Seq<char>)
    ensures
        forall|e: EdgeView| #[trigger]
            db.statements.filter(is_edge(space)).map_values(edge_of()).contains(e) <==> exists|
                j: int,
            |
                0 <= j < db.statements.len() && (#[trigger] db.statements[j]).space == space
                    && db.statements[j].object == ObjectView::Entity(e.object)
                    && db.statements[j].subject == e.subject && db.statements[j].predicate
                    == e.predicate && db.statements[j].id == e.statement,
{
    lemma_got(db.statements, is_edge(space), edge_of());
    assert forall|e: EdgeView| #[trigger]
        db.statements.filter(is_edge(space)).map_values(edge_of()).contains(e) <==> exists|j: int|
        0 <= j < db.statements.len() && (#[trigger] db.statements[j]).space == space
            && db.statements[j].object == ObjectView::Entity(e.object) && db.statements[j].subject
            == e.subject && db.statements[j].predicate == e.predicate && db.statements[j].id
            == e.statement by {
        if exists|j: int|
            0 <= j < db.statements.len() && (#[trigger] db.statements[j]).space == space
                && db.statements[j].object == ObjectView::Entity(e.object)
                && db.statements[j].subject == e.subject && db.statements[j].predicate
                == e.predicate && db.statements[j].id == e.statement {
            let j = choose|j: int|
                0 <= j < db.statements.len() && (#[trigger] db.statements[j]).space == space
                    && db.statements[j].object == ObjectView::Entity(e.object)
                    && db.statements[j].subject == e.subject && db.statements[j].predicate
                    == e.predicate && db.statements[j].id == e.statement;
            assert(is_edge(space)(db.statements[j]));
            assert(edge_of()(db.statements[j]) == e);
        }
    }
}

/// The salience of an entity is that of a row with its id in the space.
pub proof fn law_salience_is_of_the_entity(
    entities: Seq<EntityView>,
    space: Seq<char>,
    id: Seq<char>,
)
    ensures
        match salience_of(entities, space, id) {
            Some(v) => exists|i: int|
                0 <= i < entities.len() && (#[trigger] entities[i]).id == id && entities[i].space
                    == space && entities[i].salience == v,
            None => forall|i: int|
                0 <= i < entities.len() && (#[trigger] entities[i]).id == id ==> entities[i].space
                    != space,
        },
{
    let p = is_entity_in(space, id);
    lemma_first_is(entities, p);
    match first_where(entities, p) {
        Some(e) => {
            let i = choose|i: int| 0 <= i < entities.len() && entities[i] == e;
            assert(entities[i].id == id);
        },
        None => {
            assert forall|i: int| 0 <= i < entities.len() && (#[trigger] entities[i]).id
                == id implies entities[i].space != space by {
                assert(!p(entities[i]));
            }
        },
    }
}

/// A walk reports each entity that it reached, at its depth, with its salience, or
/// the neutral one where the entity is not of the space.
pub proof fn law_walk_reports_what_it_reached(
    db: TablesView,
    space: Seq<char>,
    reached: Seq<(Seq<char>, u32)>,
)
    ensures
        ({
            let r = reached.map_values(traversed(db, space));
            &&& r.len() == reached.len()
            &&& forall|i: int|
                0 <= i < r.len() ==> (#[trigger] r[i]).entity == reached[i].0 && r[i].depth
                    == reached[i].1 && match salience_of(db.entities, space, reached[i].0) {
                    Some(v) => r[i].salience == v,
                    None => r[i].salience == ONE,
                }
        }),
{
}

/// An entity is looked up by its type and its surface form in the space.
pub proof fn law_entity_is_looked_up_by_surface(
    db: TablesView,
    space: Seq<char>,
    ty: Seq<char>,
    surface: Seq<char>,
)
    ensures
        match first_where(db.keys, is_surface(space, ty, surface)) {
            Some(k) => db.keys.contains(k) && k.space == space && k.ty == ty && k.surface
                == surface,
            None => forall|i: int|
                0 <= i < db.keys.len() && (#[trigger] db.keys[i]).space == space && db.keys[i].ty
                    == ty ==> db.keys[i].surface != surface,
        },
{
    let p = is_surface(space, ty, surface);
    lemma_first_is(db.keys, p);
    if first_where(db.keys, p) is None {
        assert forall|i: int|
            0 <= i < db.keys.len() && (#[trigger] db.keys[i]).space == space && db.keys[i].ty
                == ty implies db.keys[i].surface != surface by {
            assert(!p(db.keys[i]));
        }
    }
}

/// A row of an index names a statement, an entity or, by any other kind, an
/// episode.
pub proof fn law_index_rows_name_their_targets(kind: Seq<char>, id: Seq<char>)
    ensures
        kind == "statement"@ ==> target_of(kind, id) == (TargetIdView::Statement { id }),
        kind == "entity"@ ==> target_of(kind, id) == (TargetIdView::Entity { id }),
        kind != "statement"@ && kind != "entity"@ ==> target_of(kind, id)
            == (TargetIdView::Episode { id }),
{
    reveal_strlit("statement");
    reveal_strlit("entity");
    assert("statement"@.len() != "entity"@.len());
}

} // verus!
