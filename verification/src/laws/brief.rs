//! What the briefs of an entity, of a space and of a topic tell.
use vstd::prelude::*;

use crate::brief::{
    aliases_of, belief_row, belief_rows, brief_surface, by_claim, by_dispute, by_name,
    by_statement_id, by_surface, by_weight, contradiction_of, counts_in, entity_briefed, episode_of,
    has_rival, is_alias, is_disputed, is_link_of, is_rival, is_side, is_source, is_topical,
    is_touching_statement, keys_of, near, neighbour, neighbours_of, once_each, pair_le,
    predicate_count, predicate_of, side_episodes, sources_of, space_link, speaks_of, topic_link,
    topic_links, touches, unrepeated, BeliefRowView, ContradictionDataView, EntityLinkRowView,
    NeighbourDataView,
};
use crate::error::BrainErrorView;
use crate::index_ops::{key_surface, names, shown_literal, surface_form};
use crate::json::{as_nat, json_parsed, member, JsonView};
use crate::knowledge::{asserts, entity_has_id, key_has_id, resolved, statement_has_id};
use crate::ledger::by_seq;
use crate::query::entity_beliefs;
use crate::redaction::statement_id_of;
use crate::rows::{
    distinct, first_n, first_where, in_order, is_order, lemma_distinct, lemma_first_is, lemma_got,
    lemma_ordered_in_order, lemma_ordered_members, lemma_selected, lemma_tried, ordered, some_where,
    tried,
};
use crate::tables::{
    BeliefView, EntityKeyView, EntityView, EpisodeRowView, ObjectView, Polarity, StatementView,
    TablesView,
};
use crate::text::{by_text, occurs_in, text_le};

verus! {

/// The statements near an entity: those of the space with it as subject or object,
/// in the order of their ids.
pub proof fn law_statements_near_an_entity(db: TablesView, space: Seq<char>, entity: Seq<char>)
    ensures
        ({
            let r = near(db, space, entity);
            &&& forall|s: StatementView| #[trigger]
                r.contains(s) <==> db.statements.contains(s) && s.space == space && (s.subject
                    == entity || s.object == ObjectView::Entity(entity))
            &&& forall|i: int, j: int|
                0 <= i < j < r.len() ==> text_le((#[trigger] r[i]).id, (#[trigger] r[j]).id)
        }),
{
    let p = touches(space, entity);
    let leq = by_statement_id();
    let r = near(db, space, entity);
    assert(is_order(leq)) by {
        assert forall|a: StatementView, b: StatementView| #[trigger] leq(a, b) || leq(b, a) by {
            crate::text::lemma_text_total(a.id, b.id);
        }
        assert forall|a: StatementView, b: StatementView, c: StatementView| #[trigger] leq(a, b)
            && #[trigger] leq(b, c) implies leq(a, c) by {
            crate::text::lemma_text_transitive(a.id, b.id, c.id);
        }
    }
    lemma_selected(db.statements, p);
    lemma_ordered_members(db.statements.filter(p), leq);
    lemma_ordered_in_order(db.statements.filter(p), leq);
    assert forall|s: StatementView| #[trigger] r.contains(s) <==> db.statements.contains(s)
        && s.space == space && (s.subject == entity || s.object == ObjectView::Entity(entity)) by {
        assert(db.statements.filter(p).contains(s) <==> db.statements.contains(s) && p(s));
    }
    assert forall|i: int, j: int| 0 <= i < j < r.len() implies text_le(
        (#[trigger] r[i]).id,
        (#[trigger] r[j]).id,
    ) by {
        assert(leq(r[i], r[j]));
    }
}

/// The keys of an entity are those that name it, in the order of their surfaces.
pub proof fn law_keys_of_an_entity(db: TablesView, entity: Seq<char>)
    ensures
        ({
            let r = keys_of(db, entity);
            &&& forall|k: EntityKeyView| #[trigger]
                r.contains(k) <==> db.keys.contains(k) && k.entity == entity
            &&& forall|i: int, j: int|
                0 <= i < j < r.len() ==> text_le(
                    (#[trigger] r[i]).surface,
                    (#[trigger] r[j]).surface,
                )
        }),
{
    let p = names(entity);
    let leq = by_surface();
    let r = keys_of(db, entity);
    assert(is_order(leq)) by {
        assert forall|a: EntityKeyView, b: EntityKeyView| #[trigger] leq(a, b) || leq(b, a) by {
            crate::text::lemma_text_total(a.surface, b.surface);
        }
        assert forall|a: EntityKeyView, b: EntityKeyView, c: EntityKeyView| #[trigger] leq(a, b)
            && #[trigger] leq(b, c) implies leq(a, c) by {
            crate::text::lemma_text_transitive(a.surface, b.surface, c.surface);
        }
    }
    lemma_selected(db.keys, p);
    lemma_ordered_members(db.keys.filter(p), leq);
    lemma_ordered_in_order(db.keys.filter(p), leq);
    assert forall|k: EntityKeyView| #[trigger] r.contains(k) <==> db.keys.contains(k) && k.entity
        == entity by {
        assert(db.keys.filter(p).contains(k) <==> db.keys.contains(k) && p(k));
    }
    assert forall|i: int, j: int| 0 <= i < j < r.len() implies text_le(
        (#[trigger] r[i]).surface,
        (#[trigger] r[j]).surface,
    ) by {
        assert(leq(r[i], r[j]));
    }
}

/// A brief names an entity by the surface of its canonical key, where that is among
/// its keys, else by the first of its keys, else not at all; and it lists as
/// aliases the other surfaces of its keys, each once, in order.
pub proof fn law_brief_names_the_entity(e: EntityView, keys: Seq<EntityKeyView>)
    ensures
        ({
            let s = brief_surface(e, keys);
            let a = aliases_of(s, keys);
            &&& e.canonical_key is Some && (exists|k: int|
                0 <= k < keys.len() && (#[trigger] keys[k]).id == e.canonical_key->Some_0)
                ==> exists|k: int|
                0 <= k < keys.len() && (#[trigger] keys[k]).id == e.canonical_key->Some_0
                    && keys[k].surface == s
            &&& (e.canonical_key is None || forall|k: int|
                0 <= k < keys.len() ==> (#[trigger] keys[k]).id != e.canonical_key->Some_0)
                ==> s == if keys.len() > 0 {
                keys[0].surface
            } else {
                Seq::<char>::empty()
            }
            &&& forall|x: Seq<char>| #[trigger]
                a.contains(x) <==> x != s && exists|k: int|
                    0 <= k < keys.len() && (#[trigger] keys[k]).surface == x
            &&& a.no_duplicates()
        }),
{
    let s = brief_surface(e, keys);
    if let Some(id) = e.canonical_key {
        let p = key_has_id(id);
        lemma_first_is(keys, p);
        if first_where(keys, p) is Some {
            let row = first_where(keys, p)->Some_0;
            let k = choose|k: int| 0 <= k < keys.len() && keys[k] == row;
            assert(keys[k].id == id);
        }
        if exists|k: int| 0 <= k < keys.len() && (#[trigger] keys[k]).id == id {
            let k = choose|k: int| 0 <= k < keys.len() && (#[trigger] keys[k]).id == id;
            assert(p(keys[k]));
        }
    }
    let q = is_alias(s);
    let all = keys.filter(q).map_values(key_surface());
    lemma_got(keys, q, key_surface());
    lemma_ordered_members(all, by_text());
    lemma_distinct(ordered(all, by_text()));
    let a = aliases_of(s, keys);
    assert forall|x: Seq<char>| #[trigger] a.contains(x) <==> x != s && exists|k: int|
        0 <= k < keys.len() && (#[trigger] keys[k]).surface == x by {
        assert(a.contains(x) <==> ordered(all, by_text()).contains(x));
        assert(ordered(all, by_text()).contains(x) <==> all.contains(x));
        if x != s && exists|k: int| 0 <= k < keys.len() && (#[trigger] keys[k]).surface == x {
            let k = choose|k: int| 0 <= k < keys.len() && (#[trigger] keys[k]).surface == x;
            assert(q(keys[k]) && key_surface()(keys[k]) == x);
        }
    }
}

/// The support of a belief is read of three members, each a number that fits.
pub proof fn law_support_is_read_of_its_members(parsed: Result<JsonView, Seq<char>>)
    ensures
        match counts_in(parsed) {
            Some(c) => parsed matches Ok(v) && {
                &&& member(v, "affirm_count"@) matches Some(m) && as_nat(m) matches Some(n) && n
                    == c.affirm
                &&& member(v, "deny_count"@) matches Some(m) && as_nat(m) matches Some(n) && n
                    == c.deny
                &&& member(v, "distinct_episodes"@) matches Some(m) && as_nat(m) matches Some(n)
                    && n == c.episodes
            },
            None => parsed matches Ok(v) ==> {
                ||| !is_count(v, "affirm_count"@)
                ||| !is_count(v, "deny_count"@)
                ||| !is_count(v, "distinct_episodes"@)
            },
        },
{
}

/// Whether a member of an object is a number that fits.
pub open spec fn is_count(v: JsonView, key: Seq<char>) -> bool {
    member(v, key) matches Some(m) && as_nat(m) matches Some(n) && n <= u32::MAX
}

/// The row of a belief tells its statement, with its predicate and what its object
/// is shown as; when it holds, how sure it is, what supports it and its status. A
/// belief of another statement has no row.
pub proof fn law_belief_row_tells_the_belief(
    db: TablesView,
    statements: Seq<StatementView>,
    literals: Seq<(Seq<char>, Seq<char>)>,
    b: BeliefView,
)
    ensures
        match belief_row(db, statements, literals)(b) {
            Ok(Some(r)) => {
                &&& r.statement_id == b.statement
                &&& r.valid_from == b.valid_from
                &&& r.valid_to == b.valid_to
                &&& r.confidence == b.confidence
                &&& r.status == b.status
                &&& counts_in(json_parsed(b.support_json)) matches Some(c) && r.affirm == c.affirm
                    && r.deny == c.deny && r.episodes == c.episodes
                &&& exists|i: int|
                    0 <= i < statements.len() && (#[trigger] statements[i]).id == b.statement
                        && r.predicate == statements[i].predicate && match statements[i].object {
                        ObjectView::Entity(o) => r.object_entity == Some(o) && surface_form(db, o)
                            == Ok::<Seq<char>, BrainErrorView>(r.object),
                        ObjectView::Literal(json) => r.object_entity is None && r.object
                            == shown_literal(literals, json),
                    }
            },
            Ok(None) => forall|i: int|
                0 <= i < statements.len() ==> (#[trigger] statements[i]).id != b.statement,
            Err(e) => exists|i: int|
                0 <= i < statements.len() && (#[trigger] statements[i]).id == b.statement && (
                counts_in(json_parsed(b.support_json)) is None || (
                statements[i].object matches ObjectView::Entity(o) && surface_form(db, o) is Err)),
        },
{
    let p = statement_has_id(b.statement);
    lemma_first_is(statements, p);
    match first_where(statements, p) {
        Some(s) => {
            let i = choose|i: int| 0 <= i < statements.len() && statements[i] == s;
            assert(statements[i].id == b.statement);
        },
        None => {
            assert forall|i: int| 0 <= i < statements.len() implies (#[trigger] statements[i]).id
                != b.statement by {
                assert(!p(statements[i]));
            }
        },
    }
}

/// The rows of a brief's beliefs are the rows of the beliefs about the entity.
pub proof fn law_brief_tells_every_belief(
    db: TablesView,
    space: Seq<char>,
    entity: Seq<char>,
    literals: Seq<(Seq<char>, Seq<char>)>,
)
    ensures
        belief_rows(db, space, entity, literals) matches Ok(rows) ==> forall|r: BeliefRowView|
            #[trigger]
            rows.contains(r) <==> exists|i: int|
                0 <= i < entity_beliefs(db, space, entity).len() && belief_row(
                    db,
                    near(db, space, entity),
                    literals,
                )(#[trigger] entity_beliefs(db, space, entity)[i]) == Ok::<
                    Option<BeliefRowView>,
                    BrainErrorView,
                >(Some(r)),
{
    lemma_tried(
        entity_beliefs(db, space, entity),
        belief_row(db, near(db, space, entity), literals),
    );
}

/// A neighbour of an entity is the other side of a statement between entities: the
/// object where the entity is the subject, and the subject where it is the object.
pub proof fn law_neighbour_is_the_other_side(
    db: TablesView,
    entity: Seq<char>,
    s: StatementView,
)
    ensures
        match neighbour(db, entity)(s) {
            Ok(Some(n)) => s.object matches ObjectView::Entity(o) && {
                &&& n.predicate == s.predicate
                &&& s.subject == entity ==> n.entity == o && n.direction == "out"@
                &&& s.subject != entity ==> o == entity && n.entity == s.subject && n.direction
                    == "in"@
                &&& surface_form(db, n.entity) == Ok::<Seq<char>, BrainErrorView>(n.surface)
            },
            Ok(None) => s.object is Literal || (s.subject != entity && s.object
                != ObjectView::Entity(entity)),
            Err(_) => s.object is Entity,
        },
{
}

/// The order of links by name is an order.
proof fn lemma_name_order()
    ensures
        is_order(by_name()),
{
    let leq = by_name();
    assert forall|a: NeighbourDataView, b: NeighbourDataView| #[trigger] leq(a, b) || leq(b, a) by {
        crate::text::lemma_text_total(a.surface, b.surface);
        crate::text::lemma_text_total(a.predicate, b.predicate);
        crate::text::lemma_text_total(a.direction, b.direction);
    }
    assert forall|a: NeighbourDataView, b: NeighbourDataView, c: NeighbourDataView| #[trigger]
        leq(a, b) && #[trigger] leq(b, c) implies leq(a, c) by {
        lemma_chain(a.surface, b.surface, c.surface);
        lemma_chain(a.predicate, b.predicate, c.predicate);
        lemma_chain(a.direction, b.direction, c.direction);
    }
}

/// Texts in order: what follows of two steps.
proof fn lemma_chain(a: Seq<char>, b: Seq<char>, c: Seq<char>)
    ensures
        text_le(a, b) && text_le(b, c) ==> text_le(a, c),
        text_le(a, b) && text_le(b, a) ==> a == b,
        text_le(b, c) && text_le(c, b) ==> b == c,
        text_le(a, c) && text_le(c, a) ==> a == c,
{
    if text_le(a, b) && text_le(b, c) {
        crate::text::lemma_text_transitive(a, b, c);
    }
    if text_le(a, b) && text_le(b, a) {
        crate::text::lemma_text_antisymmetric(a, b);
    }
    if text_le(b, c) && text_le(c, b) {
        crate::text::lemma_text_antisymmetric(b, c);
    }
    if text_le(a, c) && text_le(c, a) {
        crate::text::lemma_text_antisymmetric(a, c);
    }
}

/// Dropping repeated links: what is left is of the list, and of each link some row
/// is left.
pub proof fn law_repeated_links_are_dropped(s: Seq<NeighbourDataView>)
    ensures
        ({
            let r = unrepeated(s);
            &&& forall|n: NeighbourDataView| #[trigger] r.contains(n) ==> s.contains(n)
            &&& forall|n: NeighbourDataView| #[trigger] s.contains(n) ==> is_told(r, n)
        }),
    decreases s.len(),
{
    if s.len() > 0 {
        let init = s.drop_last();
        let last = s.last();
        law_repeated_links_are_dropped(init);
        let before = unrepeated(init);
        let r = unrepeated(s);
        assert(s =~= init.push(last));
        assert(r == before || r == before.push(last));
        assert forall|n: NeighbourDataView| #[trigger] r.contains(n) implies s.contains(n) by {
            let k = choose|k: int| 0 <= k < r.len() && r[k] == n;
            if k < before.len() {
                assert(before[k] == n);
                assert(before.contains(n));
                let i = choose|i: int| 0 <= i < init.len() && init[i] == n;
                assert(s[i] == n);
            } else {
                assert(s[s.len() - 1] == n);
            }
        }
        assert forall|n: NeighbourDataView| #[trigger] s.contains(n) implies is_told(r, n) by {
            let i = choose|i: int| 0 <= i < s.len() && s[i] == n;
            if i < init.len() {
                assert(init[i] == n);
                assert(init.contains(n));
                let k = choose|k: int| 0 <= k < before.len()
                    && is_same_link(#[trigger] before[k], n);
                assert(r[k] == before[k]);
            } else {
                assert(is_same_link(r[r.len() - 1], n));
            }
        }
    }
}

/// No link in a list without repeats is that of the row just before it.
pub proof fn law_no_link_repeats(s: Seq<NeighbourDataView>, i: int)
    requires
        0 < i < unrepeated(s).len(),
    ensures
        !is_same_link(unrepeated(s)[i - 1], unrepeated(s)[i]),
    decreases s.len(),
{
    if s.len() > 0 {
        let before = unrepeated(s.drop_last());
        if i < before.len() {
            law_no_link_repeats(s.drop_last(), i);
        }
    }
}

/// Whether two links are of one entity, by one predicate and in one direction.
pub open spec fn is_same_link(a: NeighbourDataView, b: NeighbourDataView) -> bool {
    a.entity == b.entity && a.predicate == b.predicate && a.direction == b.direction
}

/// Whether a list has the link of a row.
pub open spec fn is_told(r: Seq<NeighbourDataView>, n: NeighbourDataView) -> bool {
    exists|k: int| 0 <= k < r.len() && is_same_link(#[trigger] r[k], n)
}

/// The neighbours in a brief: every other side of a statement near the entity is
/// there, and nothing else.
pub proof fn law_brief_tells_every_neighbour(
    db: TablesView,
    space: Seq<char>,
    entity: Seq<char>,
)
    ensures
        neighbours_of(db, space, entity) matches Ok(r) ==> {
            &&& forall|k: int|
                0 <= k < r.len() ==> is_neighbour(db, space, entity, #[trigger] r[k])
            &&& forall|n: NeighbourDataView| #[trigger]
                is_neighbour(db, space, entity, n) ==> is_told(r, n)
        },
{
    let g = neighbour(db, entity);
    let sts = near(db, space, entity);
    lemma_tried(sts, g);
    if let Ok(v) = tried(sts, g) {
        let sorted = ordered(v, by_name());
        lemma_ordered_members(v, by_name());
        law_repeated_links_are_dropped(sorted);
        let r = unrepeated(sorted);
        assert forall|k: int| 0 <= k < r.len() implies is_neighbour(
            db,
            space,
            entity,
            #[trigger] r[k],
        ) by {
            assert(r.contains(r[k]));
            assert(sorted.contains(r[k]));
            assert(v.contains(r[k]));
        }
        assert forall|n: NeighbourDataView| #[trigger]
            is_neighbour(db, space, entity, n) implies is_told(r, n) by {
            assert(v.contains(n));
            assert(sorted.contains(n));
        }
    }
}

/// Whether a link is that of a statement near an entity.
pub open spec fn is_neighbour(
    db: TablesView,
    space: Seq<char>,
    entity: Seq<char>,
    n: NeighbourDataView,
) -> bool {
    exists|i: int|
        0 <= i < near(db, space, entity).len() && neighbour(db, entity)(
            #[trigger] near(db, space, entity)[i],
        ) == Ok::<Option<NeighbourDataView>, BrainErrorView>(Some(n))
}

/// The sources of a brief: the episodes with an assertion of a statement of the
/// space that has the entity as subject or object, in the order of their numbers,
/// each with its kind and when it occurred.
pub proof fn law_sources_speak_of_the_entity(
    db: TablesView,
    space: Seq<char>,
    entity: Seq<char>,
)
    ensures
        ({
            let rows = ordered(db.episodes.filter(is_source(db, space, entity)), by_seq());
            let r = sources_of(db, space, entity);
            &&& r.len() == rows.len()
            &&& forall|i: int|
                0 <= i < r.len() ==> (#[trigger] r[i]).episode == rows[i].id && r[i].kind
                    == rows[i].source_kind && r[i].occurred_at == rows[i].occurred_at
            &&& forall|i: int, j: int|
                0 <= i < j < rows.len() ==> (#[trigger] rows[i]).seq <= (#[trigger] rows[j]).seq
            &&& forall|e: EpisodeRowView| #[trigger]
                rows.contains(e) <==> db.episodes.contains(e) && speaks_in(db, space, entity, e.id)
        }),
{
    let p = is_source(db, space, entity);
    let leq = by_seq();
    let rows = ordered(db.episodes.filter(p), leq);
    assert(is_order(leq));
    lemma_selected(db.episodes, p);
    lemma_ordered_members(db.episodes.filter(p), leq);
    lemma_ordered_in_order(db.episodes.filter(p), leq);
    assert forall|i: int, j: int| 0 <= i < j < rows.len() implies (#[trigger] rows[i]).seq <= (
    #[trigger] rows[j]).seq by {
        assert(leq(rows[i], rows[j]));
    }
    assert forall|e: EpisodeRowView| #[trigger] rows.contains(e) <==> db.episodes.contains(e)
        && speaks_in(db, space, entity, e.id) by {
        assert(db.episodes.filter(p).contains(e) <==> db.episodes.contains(e) && p(e));
        let q = speaks_of(db, space, entity, e.id);
        if some_where(db.assertions, q) {
            let k = choose|k: int| 0 <= k < db.assertions.len() && q(#[trigger] db.assertions[k]);
            let t = is_touching_statement(space, entity, db.assertions[k].statement);
            let j = choose|j: int| 0 <= j < db.statements.len() && t(#[trigger] db.statements[j]);
            assert(db.assertions[k].episode == e.id && db.statements[j].space == space);
        }
        if speaks_in(db, space, entity, e.id) {
            let (k, j) = choose|k: int, j: int|
                #![trigger db.assertions[k], db.statements[j]]
                0 <= k < db.assertions.len() && 0 <= j < db.statements.len()
                    && db.assertions[k].episode == e.id && db.assertions[k].statement
                    == db.statements[j].id && db.statements[j].space == space && (
                db.statements[j].subject == entity || db.statements[j].object
                    == ObjectView::Entity(entity));
            assert(is_touching_statement(space, entity, db.assertions[k].statement)(
                db.statements[j],
            ));
            assert(q(db.assertions[k]));
        }
    }
}

/// Whether an episode asserts a statement of a space that has an entity as subject
/// or object.
pub open spec fn speaks_in(
    db: TablesView,
    space: Seq<char>,
    entity: Seq<char>,
    episode: Seq<char>,
) -> bool {
    exists|k: int, j: int|
        #![trigger db.assertions[k], db.statements[j]]
        0 <= k < db.assertions.len() && 0 <= j < db.statements.len() && db.assertions[k].episode
            == episode && db.assertions[k].statement == db.statements[j].id
            && db.statements[j].space == space && (db.statements[j].subject == entity
            || db.statements[j].object == ObjectView::Entity(entity))
}

/// The episodes on one side of a statement are those that assert it with that
/// polarity, each once.
pub proof fn law_sides_are_taken_by_polarity(
    db: TablesView,
    statement: Seq<char>,
    side: Polarity,
)
    ensures
        ({
            let r = side_episodes(db, statement, side);
            &&& r.no_duplicates()
            &&& forall|id: Seq<char>| #[trigger]
                r.contains(id) <==> exists|k: int|
                    0 <= k < db.assertions.len() && (#[trigger] db.assertions[k]).statement
                        == statement && db.assertions[k].polarity == side
                        && db.assertions[k].episode == id
        }),
{
    let own = db.assertions.filter(asserts(statement));
    let all = own.filter(is_side(side)).map_values(episode_of());
    lemma_selected(db.assertions, asserts(statement));
    lemma_got(own, is_side(side), episode_of());
    lemma_ordered_members(all, by_text());
    lemma_distinct(ordered(all, by_text()));
    let r = side_episodes(db, statement, side);
    assert forall|id: Seq<char>| #[trigger] r.contains(id) <==> exists|k: int|
        0 <= k < db.assertions.len() && (#[trigger] db.assertions[k]).statement == statement
            && db.assertions[k].polarity == side && db.assertions[k].episode == id by {
        assert(r.contains(id) <==> ordered(all, by_text()).contains(id));
        assert(ordered(all, by_text()).contains(id) <==> all.contains(id));
        if all.contains(id) {
            let i = choose|i: int|
                0 <= i < own.len() && is_side(side)(#[trigger] own[i]) && episode_of()(own[i])
                    == id;
            assert(own.contains(own[i]));
            let k = choose|k: int| 0 <= k < db.assertions.len() && db.assertions[k] == own[i];
            assert(db.assertions[k].statement == statement);
        }
        if exists|k: int|
            0 <= k < db.assertions.len() && (#[trigger] db.assertions[k]).statement == statement
                && db.assertions[k].polarity == side && db.assertions[k].episode == id {
            let k = choose|k: int|
                0 <= k < db.assertions.len() && (#[trigger] db.assertions[k]).statement == statement
                    && db.assertions[k].polarity == side && db.assertions[k].episode == id;
            assert(db.assertions.contains(db.assertions[k]));
            assert(own.contains(db.assertions[k]));
            let i = choose|i: int| 0 <= i < own.len() && own[i] == db.assertions[k];
            assert(is_side(side)(own[i]) && episode_of()(own[i]) == id);
        }
    }
}

/// The contradictions in a brief are of its beliefs that are contradicted: with
/// their predicate and object, and the episodes on both sides.
pub proof fn law_brief_tells_both_sides(db: TablesView, beliefs: Seq<BeliefRowView>)
    ensures
        ({
            let r = ordered(
                beliefs.filter(is_disputed()).map_values(contradiction_of(db)),
                by_dispute(),
            );
            forall|c: ContradictionDataView| #[trigger]
                r.contains(c) <==> exists|i: int|
                    0 <= i < beliefs.len() && (#[trigger] beliefs[i]).status == "contradicted"@
                        && c.predicate == beliefs[i].predicate && c.object == beliefs[i].object
                        && c.affirm_episodes == side_episodes(
                        db,
                        beliefs[i].statement_id,
                        Polarity::Affirm,
                    ) && c.deny_episodes == side_episodes(
                        db,
                        beliefs[i].statement_id,
                        Polarity::Deny,
                    )
        }),
{
    let all = beliefs.filter(is_disputed()).map_values(contradiction_of(db));
    let r = ordered(all, by_dispute());
    lemma_got(beliefs, is_disputed(), contradiction_of(db));
    lemma_ordered_members(all, by_dispute());
    assert forall|c: ContradictionDataView| #[trigger] r.contains(c) <==> exists|i: int|
        0 <= i < beliefs.len() && (#[trigger] beliefs[i]).status == "contradicted"@ && c.predicate
            == beliefs[i].predicate && c.object == beliefs[i].object && c.affirm_episodes
            == side_episodes(db, beliefs[i].statement_id, Polarity::Affirm) && c.deny_episodes
            == side_episodes(db, beliefs[i].statement_id, Polarity::Deny) by {
        assert(r.contains(c) <==> all.contains(c));
        if exists|i: int|
            0 <= i < beliefs.len() && (#[trigger] beliefs[i]).status == "contradicted"@
                && c.predicate == beliefs[i].predicate && c.object == beliefs[i].object
                && c.affirm_episodes == side_episodes(
                db,
                beliefs[i].statement_id,
                Polarity::Affirm,
            ) && c.deny_episodes == side_episodes(db, beliefs[i].statement_id, Polarity::Deny) {
            let i = choose|i: int|
                0 <= i < beliefs.len() && (#[trigger] beliefs[i]).status == "contradicted"@
                    && c.predicate == beliefs[i].predicate && c.object == beliefs[i].object
                    && c.affirm_episodes == side_episodes(
                    db,
                    beliefs[i].statement_id,
                    Polarity::Affirm,
                ) && c.deny_episodes == side_episodes(
                    db,
                    beliefs[i].statement_id,
                    Polarity::Deny,
                );
            assert(is_disputed()(beliefs[i]));
            assert(contradiction_of(db)(beliefs[i]) == c);
        }
    }
}

/// A brief is of the entity that the id leads to, and fails where it leads to none;
/// what it holds is what the parts of it are.
pub proof fn law_brief_is_of_the_resolved_entity(
    db: TablesView,
    space: Seq<char>,
    entity: Seq<char>,
    literals: Seq<(Seq<char>, Seq<char>)>,
)
    ensures
        entity_briefed(db, space, entity, literals) matches Ok(b) ==> {
            &&& resolved(db.entities, seq![entity]) matches Ok(id) && {
                &&& b.entity.id == id
                &&& db.entities.contains(b.entity)
                &&& b.canonical_surface == brief_surface(b.entity, keys_of(db, id))
                &&& b.aliases == aliases_of(b.canonical_surface, keys_of(db, id))
                &&& belief_rows(db, space, id, literals) matches Ok(rows) && b.beliefs.len()
                    == rows.len() && forall|r: BeliefRowView| #[trigger]
                    b.beliefs.contains(r) <==> rows.contains(r)
                &&& neighbours_of(db, space, id) == Ok::<Seq<NeighbourDataView>, BrainErrorView>(
                    b.neighbours,
                )
                &&& b.sources == sources_of(db, space, id)
            }
        },
        resolved(db.entities, seq![entity]) is Err ==> entity_briefed(
            db,
            space,
            entity,
            literals,
        ) is Err,
{
    if let Ok(id) = resolved(db.entities, seq![entity]) {
        lemma_first_is(db.entities, entity_has_id(id));
        if let Ok(rows) = belief_rows(db, space, id, literals) {
            lemma_ordered_members(rows, by_claim());
        }
    }
}

/// A statement has a rival where another statement of the space has the same
/// subject and predicate; the contradictions of a space brief count these.
pub proof fn law_rivals_share_subject_and_predicate(db: TablesView, space: Seq<char>)
    ensures
        ({
            let r = distinct(
                db.statements.filter(has_rival(db, space)).map_values(statement_id_of()),
            );
            &&& r.no_duplicates()
            &&& forall|id: Seq<char>| #[trigger]
                r.contains(id) <==> exists|i: int, j: int|
                    #![trigger db.statements[i], db.statements[j]]
                    0 <= i < db.statements.len() && 0 <= j < db.statements.len()
                        && db.statements[i].id == id && db.statements[i].space == space
                        && db.statements[j].space == space && db.statements[j].subject
                        == db.statements[i].subject && db.statements[j].predicate
                        == db.statements[i].predicate && db.statements[j].id != id
        }),
{
    let p = has_rival(db, space);
    let all = db.statements.filter(p).map_values(statement_id_of());
    lemma_got(db.statements, p, statement_id_of());
    lemma_distinct(all);
    let r = distinct(all);
    assert forall|id: Seq<char>| #[trigger] r.contains(id) <==> exists|i: int, j: int|
        #![trigger db.statements[i], db.statements[j]]
        0 <= i < db.statements.len() && 0 <= j < db.statements.len() && db.statements[i].id == id
            && db.statements[i].space == space && db.statements[j].space == space
            && db.statements[j].subject == db.statements[i].subject && db.statements[j].predicate
            == db.statements[i].predicate && db.statements[j].id != id by {
        assert(r.contains(id) <==> all.contains(id));
        if all.contains(id) {
            let i = choose|i: int|
                0 <= i < db.statements.len() && p(#[trigger] db.statements[i])
                    && statement_id_of()(db.statements[i]) == id;
            let q = is_rival(db.statements[i]);
            let j = choose|j: int| 0 <= j < db.statements.len() && q(#[trigger] db.statements[j]);
            assert(db.statements[i].id == id && db.statements[j].space == space);
        }
        if exists|i: int, j: int|
            #![trigger db.statements[i], db.statements[j]]
            0 <= i < db.statements.len() && 0 <= j < db.statements.len() && db.statements[i].id
                == id && db.statements[i].space == space && db.statements[j].space == space
                && db.statements[j].subject == db.statements[i].subject
                && db.statements[j].predicate == db.statements[i].predicate && db.statements[j].id
                != id {
            let (i, j) = choose|i: int, j: int|
                #![trigger db.statements[i], db.statements[j]]
                0 <= i < db.statements.len() && 0 <= j < db.statements.len() && db.statements[i].id
                    == id && db.statements[i].space == space && db.statements[j].space == space
                    && db.statements[j].subject == db.statements[i].subject
                    && db.statements[j].predicate == db.statements[i].predicate
                    && db.statements[j].id != id;
            assert(is_rival(db.statements[i])(db.statements[j]));
            assert(p(db.statements[i]));
        }
    }
}

/// The weight of an entity counts the predicates of the statements of the space
/// that have it as subject or object, each once.
pub proof fn law_weight_counts_predicates(db: TablesView, space: Seq<char>, entity: Seq<char>)
    ensures
        ({
            let r = distinct(
                db.statements.filter(touches(space, entity)).map_values(predicate_of()),
            );
            &&& predicate_count(db, space, entity) == r.len()
            &&& r.no_duplicates()
            &&& forall|p: Seq<char>| #[trigger]
                r.contains(p) <==> exists|i: int|
                    0 <= i < db.statements.len() && (#[trigger] db.statements[i]).predicate == p
                        && db.statements[i].space == space && (db.statements[i].subject == entity
                        || db.statements[i].object == ObjectView::Entity(entity))
        }),
{
    let q = touches(space, entity);
    let all = db.statements.filter(q).map_values(predicate_of());
    lemma_got(db.statements, q, predicate_of());
    lemma_distinct(all);
    let r = distinct(all);
    assert forall|p: Seq<char>| #[trigger] r.contains(p) <==> exists|i: int|
        0 <= i < db.statements.len() && (#[trigger] db.statements[i]).predicate == p
            && db.statements[i].space == space && (db.statements[i].subject == entity
            || db.statements[i].object == ObjectView::Entity(entity)) by {
        assert(r.contains(p) <==> all.contains(p));
        if exists|i: int|
            0 <= i < db.statements.len() && (#[trigger] db.statements[i]).predicate == p
                && db.statements[i].space == space && (db.statements[i].subject == entity
                || db.statements[i].object == ObjectView::Entity(entity)) {
            let i = choose|i: int|
                0 <= i < db.statements.len() && (#[trigger] db.statements[i]).predicate == p
                    && db.statements[i].space == space && (db.statements[i].subject == entity
                    || db.statements[i].object == ObjectView::Entity(entity));
            assert(q(db.statements[i]) && predicate_of()(db.statements[i]) == p);
        }
    }
}

/// Links are listed heaviest first, and those of one weight by name.
pub proof fn law_links_are_listed_heaviest_first(links: Seq<EntityLinkRowView>, limit: nat)
    ensures
        ({
            let r = first_n(ordered(links, by_weight()), limit);
            &&& r.len() == if limit < links.len() {
                limit
            } else {
                links.len()
            }
            &&& forall|i: int| 0 <= i < r.len() ==> links.contains(#[trigger] r[i])
            &&& forall|i: int, j: int|
                0 <= i < j < r.len() ==> (#[trigger] r[i]).predicate_count > (
                #[trigger] r[j]).predicate_count || (r[i].predicate_count == r[j].predicate_count
                    && text_le(r[i].surface, r[j].surface))
            &&& forall|l: EntityLinkRowView, i: int|
                #![trigger links.contains(l), r[i]]
                links.contains(l) && !r.contains(l) && 0 <= i < r.len() ==> r[i].predicate_count
                    >= l.predicate_count
        }),
{
    let leq = by_weight();
    let all = ordered(links, leq);
    let r = first_n(all, limit);
    assert(is_order(leq)) by {
        assert forall|a: EntityLinkRowView, b: EntityLinkRowView| #[trigger] leq(a, b) || leq(
            b,
            a,
        ) by {
            crate::text::lemma_text_total(a.surface, b.surface);
        }
        assert forall|a: EntityLinkRowView, b: EntityLinkRowView, c: EntityLinkRowView| #[trigger]
            leq(a, b) && #[trigger] leq(b, c) implies leq(a, c) by {
            lemma_chain(a.surface, b.surface, c.surface);
        }
    }
    lemma_ordered_members(links, leq);
    lemma_ordered_in_order(links, leq);
    assert forall|i: int| 0 <= i < r.len() implies links.contains(#[trigger] r[i]) by {
        assert(all[i] == r[i]);
        assert(all.contains(all[i]));
    }
    assert forall|i: int, j: int| 0 <= i < j < r.len() implies (#[trigger] r[i]).predicate_count > (
    #[trigger] r[j]).predicate_count || (r[i].predicate_count == r[j].predicate_count && text_le(
        r[i].surface,
        r[j].surface,
    )) by {
        assert(leq(all[i], all[j]));
    }
    assert forall|l: EntityLinkRowView, i: int|
        #![trigger links.contains(l), r[i]]
        links.contains(l) && !r.contains(l) && 0 <= i < r.len() implies r[i].predicate_count
        >= l.predicate_count by {
        assert(all.contains(l));
        let k = choose|k: int| 0 <= k < all.len() && all[k] == l;
        if k < r.len() {
            assert(r[k] == l);
        }
        assert(leq(all[i], all[k]));
    }
}

/// A link in a space brief names the entity by the first of its keys, or by its id.
pub proof fn law_link_names_the_entity(db: TablesView, space: Seq<char>, e: EntityView)
    ensures
        ({
            let l = space_link(db, space)(e);
            let keys = keys_of(db, e.id);
            &&& l.entity_id == e.id
            &&& keys.len() > 0 ==> l.surface == keys[0].surface
            &&& keys.len() == 0 ==> l.surface == e.id
            &&& predicate_count(db, space, e.id) <= usize::MAX ==> l.predicate_count
                == predicate_count(db, space, e.id)
        }),
{
}

/// A key is topical where it is of the space, holds the topic in its lowered
/// surface, and names an entity that is there and not merged away.
pub proof fn law_topical_keys_hold_the_topic(
    db: TablesView,
    space: Seq<char>,
    topic: Seq<char>,
    k: EntityKeyView,
    lowered: Seq<char>,
)
    ensures
        is_topical(db, space, topic)((k, lowered)) ==> k.space == space && occurs_in(lowered, topic)
            && exists|i: int|
            0 <= i < db.entities.len() && (#[trigger] db.entities[i]).id == k.entity
                && db.entities[i].merged_into is None,
        k.space == space && occurs_in(lowered, topic) && (exists|i: int|
            0 <= i < db.entities.len() && (#[trigger] db.entities[i]).id == k.entity) && (forall|
            i: int,
        |
            0 <= i < db.entities.len() && (#[trigger] db.entities[i]).id == k.entity
                ==> db.entities[i].merged_into is None) ==> is_topical(db, space, topic)(
            (k, lowered),
        ),
        ({
            let l = topic_link(db, space)((k, lowered));
            l.entity_id == k.entity && l.surface == k.surface
        }),
{
    let p = entity_has_id(k.entity);
    lemma_first_is(db.entities, p);
    if first_where(db.entities, p) is Some {
        let e = first_where(db.entities, p)->Some_0;
        let i = choose|i: int| 0 <= i < db.entities.len() && db.entities[i] == e;
        assert(db.entities[i].id == k.entity);
    }
    if exists|i: int| 0 <= i < db.entities.len() && (#[trigger] db.entities[i]).id == k.entity {
        let i = choose|i: int|
            0 <= i < db.entities.len() && (#[trigger] db.entities[i]).id == k.entity;
        assert(p(db.entities[i]));
    }
}

/// Keeping links once each: the first link of every entity is kept, and no other.
pub proof fn law_entities_are_linked_once(s: Seq<EntityLinkRowView>)
    ensures
        ({
            let r = once_each(s);
            &&& forall|i: int, j: int|
                0 <= i < j < r.len() ==> (#[trigger] r[i]).entity_id != (#[trigger] r[j]).entity_id
            &&& forall|l: EntityLinkRowView| #[trigger]
                r.contains(l) <==> exists|i: int|
                    0 <= i < s.len() && #[trigger] s[i] == l && forall|j: int|
                        0 <= j < i ==> (#[trigger] s[j]).entity_id != l.entity_id
        }),
    decreases s.len(),
{
    if s.len() > 0 {
        let init = s.drop_last();
        let last = s.last();
        let n = s.len() - 1;
        assert(last == s[n]);
        law_entities_are_linked_once(init);
        let before = once_each(init);
        let r = once_each(s);
        let p = is_link_of(last.entity_id);
        assert forall|i: int, j: int| 0 <= i < j < r.len() implies (#[trigger] r[i]).entity_id != (
        #[trigger] r[j]).entity_id by {
            assert(r[i] == before[i]);
            if j < before.len() {
                assert(r[j] == before[j]);
            } else {
                assert(!p(before[i]));
            }
        }
        assert(some_where(before, p) <==> exists|j: int|
            0 <= j < n && (#[trigger] s[j]).entity_id == last.entity_id) by {
            if some_where(before, p) {
                let k = choose|k: int| 0 <= k < before.len() && p(#[trigger] before[k]);
                assert(before.contains(before[k]));
                let i = choose|i: int|
                    0 <= i < init.len() && #[trigger] init[i] == before[k] && forall|j: int|
                        0 <= j < i ==> (#[trigger] init[j]).entity_id != before[k].entity_id;
                assert(s[i] == init[i]);
            }
            if exists|j: int| 0 <= j < n && (#[trigger] s[j]).entity_id == last.entity_id {
                let same = is_link_of(last.entity_id);
                lemma_first_is(init, same);
                let j = choose|j: int| 0 <= j < n && (#[trigger] s[j]).entity_id == last.entity_id;
                assert(same(init[j]));
                let x = first_where(init, same)->Some_0;
                let i = choose|i: int|
                    0 <= i < init.len() && #[trigger] init[i] == x && forall|j: int|
                        0 <= j < i ==> !same(#[trigger] init[j]);
                assert forall|j: int| 0 <= j < i implies (#[trigger] init[j]).entity_id
                    != x.entity_id by {
                    assert(!same(init[j]));
                }
                assert(before.contains(x));
                let k = choose|k: int| 0 <= k < before.len() && before[k] == x;
                assert(p(before[k]));
            }
        }
        assert forall|l: EntityLinkRowView| #[trigger] r.contains(l) <==> exists|i: int|
            0 <= i < s.len() && #[trigger] s[i] == l && forall|j: int|
                0 <= j < i ==> (#[trigger] s[j]).entity_id != l.entity_id by {
            if before.contains(l) {
                let k = choose|k: int| 0 <= k < before.len() && before[k] == l;
                assert(r[k] == l);
                let i = choose|i: int|
                    0 <= i < init.len() && #[trigger] init[i] == l && forall|j: int|
                        0 <= j < i ==> (#[trigger] init[j]).entity_id != l.entity_id;
                assert(s[i] == l);
                assert forall|j: int| 0 <= j < i implies (#[trigger] s[j]).entity_id
                    != l.entity_id by {
                    assert(init[j] == s[j]);
                }
            }
            if r.contains(l) && !before.contains(l) {
                let k = choose|k: int| 0 <= k < r.len() && r[k] == l;
                if k < before.len() {
                    assert(before[k] == l);
                    assert(before.contains(l));
                }
                assert(l == last);
                assert(s[n] == l);
            }
            if exists|i: int|
                0 <= i < s.len() && #[trigger] s[i] == l && forall|j: int|
                    0 <= j < i ==> (#[trigger] s[j]).entity_id != l.entity_id {
                let i = choose|i: int|
                    0 <= i < s.len() && #[trigger] s[i] == l && forall|j: int|
                        0 <= j < i ==> (#[trigger] s[j]).entity_id != l.entity_id;
                if i < n {
                    assert(init[i] == l);
                    assert forall|j: int| 0 <= j < i implies (#[trigger] init[j]).entity_id
                        != l.entity_id by {
                        assert(init[j] == s[j]);
                    }
                    assert(before.contains(l));
                } else {
                    assert(r[before.len() as int] == l);
                }
            }
        }
    }
}

/// Whether a link is of a key that holds a topic.
pub open spec fn is_link_of_topic(
    db: TablesView,
    space: Seq<char>,
    topic: Seq<char>,
    keys: Seq<(EntityKeyView, Seq<char>)>,
    l: EntityLinkRowView,
) -> bool {
    exists|k: int|
        0 <= k < keys.len() && is_topical(db, space, topic)(#[trigger] keys[k])
            && keys[k].0.entity == l.entity_id && keys[k].0.surface == l.surface
}

/// The links of a topic are of entities whose key holds it, each entity once, and
/// no more than asked for.
pub proof fn law_topic_links_hold_the_topic(
    db: TablesView,
    space: Seq<char>,
    topic: Seq<char>,
    keys: Seq<(EntityKeyView, Seq<char>)>,
    limit: nat,
)
    ensures
        ({
            let r = topic_links(db, space, topic, keys, limit);
            &&& r.len() <= limit
            &&& forall|i: int, j: int|
                0 <= i < j < r.len() ==> (#[trigger] r[i]).entity_id != (#[trigger] r[j]).entity_id
            &&& forall|i: int|
                0 <= i < r.len() ==> is_link_of_topic(db, space, topic, keys, #[trigger] r[i])
        }),
{
    let p = is_topical(db, space, topic);
    let g = topic_link(db, space);
    let all = keys.filter(p).map_values(g);
    let sorted = ordered(all, by_weight());
    let front = first_n(sorted, 2 * limit);
    let once = once_each(front);
    let r = topic_links(db, space, topic, keys, limit);
    lemma_got(keys, p, g);
    lemma_ordered_members(all, by_weight());
    law_entities_are_linked_once(front);
    assert forall|i: int, j: int| 0 <= i < j < r.len() implies (#[trigger] r[i]).entity_id != (
    #[trigger] r[j]).entity_id by {
        assert(once[i].entity_id != once[j].entity_id);
    }
    assert(r.len() <= limit);
    assert forall|i: int| 0 <= i < r.len() implies is_link_of_topic(
        db,
        space,
        topic,
        keys,
        #[trigger] r[i],
    ) by {
        assert(once[i] == r[i]);
        assert(once.contains(r[i]));
        let m = choose|m: int|
            0 <= m < front.len() && #[trigger] front[m] == r[i] && forall|j: int|
                0 <= j < m ==> (#[trigger] front[j]).entity_id != r[i].entity_id;
        assert(sorted[m] == r[i]);
        assert(sorted.contains(r[i]));
        assert(all.contains(r[i]));
        let k = choose|k: int| 0 <= k < keys.len() && p(#[trigger] keys[k]) && g(keys[k]) == r[i];
        assert(keys[k].0.entity == r[i].entity_id);
    }
}

/// Pairs of texts are in order by the first, and by the second where that is the same.
proof fn lemma_pair_order(
    a: Seq<char>,
    x: Seq<char>,
    b: Seq<char>,
    y: Seq<char>,
    c: Seq<char>,
    z: Seq<char>,
)
    ensures
        pair_le(a, x, b, y) || pair_le(b, y, a, x),
        pair_le(a, x, b, y) && pair_le(b, y, c, z) ==> pair_le(a, x, c, z),
{
    crate::text::lemma_text_total(a, b);
    crate::text::lemma_text_total(x, y);
    lemma_chain(a, b, c);
    lemma_chain(x, y, z);
}

/// A brief lists its beliefs by predicate, and those of one predicate by object.
pub proof fn law_beliefs_of_a_brief_are_in_order(rows: Seq<BeliefRowView>)
    ensures
        ({
            let r = ordered(rows, by_claim());
            forall|i: int, j: int|
                0 <= i < j < r.len() ==> ((#[trigger] r[i]).predicate == (#[trigger] r[j]).predicate
                    && text_le(r[i].object, r[j].object)) || (r[i].predicate != r[j].predicate
                    && text_le(r[i].predicate, r[j].predicate))
        }),
{
    let leq = by_claim();
    assert(is_order(leq)) by {
        assert forall|a: BeliefRowView, b: BeliefRowView| #[trigger] leq(a, b) || leq(b, a) by {
            lemma_pair_order(
                a.predicate,
                a.object,
                b.predicate,
                b.object,
                b.predicate,
                b.object,
            );
        }
        assert forall|a: BeliefRowView, b: BeliefRowView, c: BeliefRowView| #[trigger] leq(a, b)
            && #[trigger] leq(b, c) implies leq(a, c) by {
            lemma_pair_order(
                a.predicate,
                a.object,
                b.predicate,
                b.object,
                c.predicate,
                c.object,
            );
        }
    }
    lemma_ordered_in_order(rows, leq);
    let r = ordered(rows, leq);
    assert forall|i: int, j: int| 0 <= i < j < r.len() implies ((#[trigger] r[i]).predicate == (
    #[trigger] r[j]).predicate && text_le(r[i].object, r[j].object)) || (r[i].predicate
        != r[j].predicate && text_le(r[i].predicate, r[j].predicate)) by {
        assert(leq(r[i], r[j]));
    }
}

/// A brief lists its contradictions by predicate, and those of one predicate by
/// object.
pub proof fn law_contradictions_of_a_brief_are_in_order(rows: Seq<ContradictionDataView>)
    ensures
        ({
            let r = ordered(rows, by_dispute());
            forall|i: int, j: int|
                0 <= i < j < r.len() ==> ((#[trigger] r[i]).predicate == (#[trigger] r[j]).predicate
                    && text_le(r[i].object, r[j].object)) || (r[i].predicate != r[j].predicate
                    && text_le(r[i].predicate, r[j].predicate))
        }),
{
    let leq = by_dispute();
    assert(is_order(leq)) by {
        assert forall|a: ContradictionDataView, b: ContradictionDataView| #[trigger] leq(a, b)
            || leq(b, a) by {
            lemma_pair_order(
                a.predicate,
                a.object,
                b.predicate,
                b.object,
                b.predicate,
                b.object,
            );
        }
        assert forall|a: ContradictionDataView, b: ContradictionDataView, c: ContradictionDataView|
            #[trigger]
            leq(a, b) && #[trigger] leq(b, c) implies leq(a, c) by {
            lemma_pair_order(
                a.predicate,
                a.object,
                b.predicate,
                b.object,
                c.predicate,
                c.object,
            );
        }
    }
    lemma_ordered_in_order(rows, leq);
    let r = ordered(rows, leq);
    assert forall|i: int, j: int| 0 <= i < j < r.len() implies ((#[trigger] r[i]).predicate == (
    #[trigger] r[j]).predicate && text_le(r[i].object, r[j].object)) || (r[i].predicate
        != r[j].predicate && text_le(r[i].predicate, r[j].predicate)) by {
        assert(leq(r[i], r[j]));
    }
}

/// The neighbours in a brief are in the order of their surfaces.
pub proof fn law_neighbours_are_in_order(db: TablesView, space: Seq<char>, entity: Seq<char>)
    ensures
        neighbours_of(db, space, entity) matches Ok(r) ==> forall|i: int, j: int|
            0 <= i < j < r.len() ==> text_le(
                (#[trigger] r[i]).surface,
                (#[trigger] r[j]).surface,
            ),
{
    let g = neighbour(db, entity);
    if let Ok(v) = tried(near(db, space, entity), g) {
        lemma_name_order();
        lemma_ordered_in_order(v, by_name());
        let sorted = ordered(v, by_name());
        lemma_unrepeated_order(sorted);
        let r = unrepeated(sorted);
        assert forall|i: int, j: int| 0 <= i < j < r.len() implies text_le(
            (#[trigger] r[i]).surface,
            (#[trigger] r[j]).surface,
        ) by {
            assert(by_name()(r[i], r[j]));
            crate::text::lemma_text_total(r[i].surface, r[i].surface);
        }
    }
}

/// Dropping repeats keeps the order.
proof fn lemma_unrepeated_order(s: Seq<NeighbourDataView>)
    requires
        in_order(s, by_name()),
    ensures
        in_order(unrepeated(s), by_name()),
    decreases s.len(),
{
    if s.len() > 0 {
        let init = s.drop_last();
        let last = s.last();
        let leq = by_name();
        assert(in_order(init, leq)) by {
            assert forall|i: int, j: int| 0 <= i < j < init.len() implies leq(
                #[trigger] init[i],
                #[trigger] init[j],
            ) by {
                assert(leq(s[i], s[j]));
            }
        }
        lemma_unrepeated_order(init);
        law_repeated_links_are_dropped(init);
        let before = unrepeated(init);
        let r = unrepeated(s);
        assert forall|i: int, j: int| 0 <= i < j < r.len() implies leq(
            #[trigger] r[i],
            #[trigger] r[j],
        ) by {
            if j < before.len() {
                assert(leq(before[i], before[j]));
            } else {
                assert(before.contains(before[i]));
                assert(init.contains(before[i]));
                let k = choose|k: int| 0 <= k < init.len() && init[k] == before[i];
                assert(leq(s[k], s[s.len() - 1]));
            }
        }
    }
}

} // verus!
