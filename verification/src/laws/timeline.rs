//! When what was believed, and what changed between two times.
use vstd::prelude::*;

use crate::index_ops::{shown_literal, surface_form};
use crate::knowledge::{asserts, statement_has_id};
use crate::rows::{
    first_where, is_order, lemma_first_is, lemma_got, lemma_ordered_in_order, lemma_ordered_members,
    lemma_selected, ordered,
};
use crate::tables::{AssertionView, BeliefView, ObjectView, TablesView};
use crate::text::text_le;
use crate::time::Timestamp;
use crate::timeline::{
    believed_at, believed_within, by_statement, by_valid_from, changes, displayed, last_entry,
    latest_record, law_changes_are_listed_in_order, lists, statement_about, timeline_entry, Change,
    TimelineEntryView,
};

verus! {

/// The latest record is the greatest time of the assertions, and one of them.
pub proof fn law_latest_record_is_the_greatest(assertions: Seq<AssertionView>)
    ensures
        forall|i: int|
            0 <= i < assertions.len() ==> (#[trigger] assertions[i]).recorded_at.0
                <= latest_record(assertions).0,
        assertions.len() > 0 ==> exists|i: int|
            0 <= i < assertions.len() && (#[trigger] assertions[i]).recorded_at == latest_record(
                assertions,
            ),
        assertions.len() == 0 ==> latest_record(assertions).0 == 0,
    decreases assertions.len(),
{
    if assertions.len() == 1 {
        assert(assertions[0].recorded_at == latest_record(assertions));
    } else if assertions.len() > 1 {
        let init = assertions.drop_last();
        law_latest_record_is_the_greatest(init);
        let n = assertions.len() - 1;
        assert forall|i: int| 0 <= i < assertions.len() implies (
        #[trigger] assertions[i]).recorded_at.0 <= latest_record(assertions).0 by {
            if i < n {
                assert(init[i] == assertions[i]);
            }
        }
        if assertions[n].recorded_at.0 > latest_record(init).0 {
            assert(assertions[n].recorded_at == latest_record(assertions));
        } else {
            let i = choose|i: int|
                0 <= i < init.len() && (#[trigger] init[i]).recorded_at == latest_record(init);
            assert(assertions[i].recorded_at == latest_record(assertions));
        }
    }
}

/// What an entry of the timeline tells: the statement of a belief, with its
/// predicate and object; from when to when it is believed, and with what status;
/// and when it was last recorded.
pub proof fn law_entry_tells_the_belief(db: TablesView, b: BeliefView)
    requires
        exists|j: int|
            0 <= j < db.statements.len() && (#[trigger] db.statements[j]).id == b.statement,
    ensures
        ({
            let e = timeline_entry(db)(b);
            &&& e.statement_id == b.statement
            &&& e.valid_from == b.valid_from
            &&& e.valid_to == b.valid_to
            &&& e.status == b.status
            &&& exists|j: int|
                0 <= j < db.statements.len() && (#[trigger] db.statements[j]).id == b.statement
                    && e.predicate == db.statements[j].predicate && match db.statements[j].object {
                    ObjectView::Entity(o) => e.object_entity == Some(o) && e.object_repr == o,
                    ObjectView::Literal(o) => e.object_entity is None && e.object_repr == o,
                }
            &&& forall|k: int|
                0 <= k < db.assertions.len() && (#[trigger] db.assertions[k]).statement
                    == b.statement ==> db.assertions[k].recorded_at.0 <= e.recorded_at.0
            &&& (exists|k: int|
                0 <= k < db.assertions.len() && (#[trigger] db.assertions[k]).statement
                    == b.statement) ==> exists|k: int|
                0 <= k < db.assertions.len() && (#[trigger] db.assertions[k]).statement
                    == b.statement && db.assertions[k].recorded_at == e.recorded_at
        }),
{
    let p = statement_has_id(b.statement);
    lemma_first_is(db.statements, p);
    let w = choose|j: int|
        0 <= j < db.statements.len() && (#[trigger] db.statements[j]).id == b.statement;
    assert(p(db.statements[w]));
    let s = first_where(db.statements, p)->Some_0;
    let j = choose|j: int| 0 <= j < db.statements.len() && db.statements[j] == s;
    assert(db.statements[j].id == b.statement);
    let own = db.assertions.filter(asserts(b.statement));
    lemma_selected(db.assertions, asserts(b.statement));
    law_latest_record_is_the_greatest(own);
    let e = timeline_entry(db)(b);
    assert forall|k: int|
        0 <= k < db.assertions.len() && (#[trigger] db.assertions[k]).statement
            == b.statement implies db.assertions[k].recorded_at.0 <= e.recorded_at.0 && own.len()
        > 0 by {
        assert(db.assertions.contains(db.assertions[k]));
        assert(own.contains(db.assertions[k]));
        let n = choose|n: int| 0 <= n < own.len() && own[n] == db.assertions[k];
        assert(own[n].recorded_at.0 <= latest_record(own).0);
    }
    if own.len() > 0 {
        let n = choose|n: int| 0 <= n < own.len() && (#[trigger] own[n]).recorded_at
            == latest_record(own);
        assert(own.contains(own[n]));
        let k = choose|k: int| 0 <= k < db.assertions.len() && db.assertions[k] == own[n];
        assert(db.assertions[k].statement == b.statement);
    }
}

/// Whether a statement of an id is of a space and has an entity as its subject.
pub open spec fn is_subject_of(
    db: TablesView,
    id: Seq<char>,
    space: Seq<char>,
    entity: Seq<char>,
) -> bool {
    exists|j: int|
        0 <= j < db.statements.len() && (#[trigger] db.statements[j]).id == id
            && db.statements[j].space == space && db.statements[j].subject == entity
}

/// Whether all statements of an id, of which there are some, are of a space and
/// have an entity as their subject.
pub open spec fn is_sole_subject_of(
    db: TablesView,
    id: Seq<char>,
    space: Seq<char>,
    entity: Seq<char>,
) -> bool {
    &&& is_subject_of(db, id, space, entity)
    &&& forall|j: int|
        0 <= j < db.statements.len() && (#[trigger] db.statements[j]).id == id
            ==> db.statements[j].space == space && db.statements[j].subject == entity
}

/// Whether a belief is about an entity: of a statement whose first row has the
/// entity as subject, in the space.
proof fn lemma_about(db: TablesView, id: Seq<char>, space: Seq<char>, entity: Seq<char>)
    ensures
        statement_about(db.statements, id, space, entity) ==> is_subject_of(db, id, space, entity),
        is_sole_subject_of(db, id, space, entity) ==> statement_about(
            db.statements,
            id,
            space,
            entity,
        ),
{
    let p = statement_has_id(id);
    lemma_first_is(db.statements, p);
    if first_where(db.statements, p) is Some {
        let s = first_where(db.statements, p)->Some_0;
        let j = choose|j: int| 0 <= j < db.statements.len() && db.statements[j] == s;
        assert(db.statements[j].id == id);
    }
    if exists|j: int| 0 <= j < db.statements.len() && (#[trigger] db.statements[j]).id == id {
        let j = choose|j: int|
            0 <= j < db.statements.len() && (#[trigger] db.statements[j]).id == id;
        assert(p(db.statements[j]));
    }
}

/// What a list of entries within some times holds: the entry of each belief about
/// the entity that was held at some time between them, and no others.
pub proof fn law_entries_overlap_the_times(
    db: TablesView,
    space: Seq<char>,
    entity: Seq<char>,
    from: int,
    to: int,
)
    ensures
        ({
            let r = db.beliefs.filter(believed_within(db, space, entity, from, to)).map_values(
                timeline_entry(db),
            );
            &&& forall|e: TimelineEntryView| #[trigger]
                r.contains(e) ==> exists|k: int|
                    0 <= k < db.beliefs.len() && e == timeline_entry(db)(
                        #[trigger] db.beliefs[k],
                    ) && db.beliefs[k].valid_from.0 <= to && db.beliefs[k].valid_to.0 >= from
                        && is_subject_of(db, db.beliefs[k].statement, space, entity)
            &&& forall|k: int|
                0 <= k < db.beliefs.len() && (#[trigger] db.beliefs[k]).valid_from.0 <= to
                    && db.beliefs[k].valid_to.0 >= from && is_sole_subject_of(
                    db,
                    db.beliefs[k].statement,
                    space,
                    entity,
                ) ==> r.contains(
                    timeline_entry(db)(db.beliefs[k]),
                )
        }),
{
    let p = believed_within(db, space, entity, from, to);
    let g = timeline_entry(db);
    let r = db.beliefs.filter(p).map_values(g);
    lemma_got(db.beliefs, p, g);
    assert forall|e: TimelineEntryView| #[trigger] r.contains(e) implies exists|k: int|
        0 <= k < db.beliefs.len() && e == timeline_entry(db)(#[trigger] db.beliefs[k])
            && db.beliefs[k].valid_from.0 <= to && db.beliefs[k].valid_to.0 >= from
                && is_subject_of(
            db,
            db.beliefs[k].statement,
            space,
            entity,
        ) by {
        let k = choose|k: int|
            0 <= k < db.beliefs.len() && p(#[trigger] db.beliefs[k]) && g(db.beliefs[k]) == e;
        lemma_about(db, db.beliefs[k].statement, space, entity);
    }
    assert forall|k: int|
        0 <= k < db.beliefs.len() && (#[trigger] db.beliefs[k]).valid_from.0 <= to
            && db.beliefs[k].valid_to.0 >= from && is_sole_subject_of(
            db,
            db.beliefs[k].statement,
            space,
            entity,
        ) implies r.contains(timeline_entry(db)(db.beliefs[k])) by {
        lemma_about(db, db.beliefs[k].statement, space, entity);
        assert(p(db.beliefs[k]));
    }
}

/// The timeline of an entity has those entries in the order in which the beliefs
/// begin. An entry shows its object by the surface form of the entity, where it
/// has one, or by the text of the literal; all else of it stays.
pub proof fn law_timeline_is_in_order(
    db: TablesView,
    entries: Seq<TimelineEntryView>,
    literals: Seq<(Seq<char>, Seq<char>)>,
)
    ensures
        ({
            let sorted = ordered(entries, by_valid_from());
            let r = sorted.map_values(displayed(db, literals));
            &&& r.len() == entries.len()
            &&& forall|i: int, j: int|
                0 <= i < j < r.len() ==> (#[trigger] r[i]).valid_from.0 <= (
                #[trigger] r[j]).valid_from.0
            &&& forall|e: TimelineEntryView| #[trigger] sorted.contains(e) <==> entries.contains(e)
            &&& forall|i: int|
                0 <= i < r.len() ==> {
                    let e = sorted[i];
                    let d = #[trigger] r[i];
                    &&& d == (TimelineEntryView { object_repr: d.object_repr, ..e })
                    &&& match e.object_entity {
                        Some(id) => d.object_repr == match surface_form(db, id) {
                            Ok(surface) => surface,
                            Err(_) => e.object_repr,
                        },
                        None => d.object_repr == shown_literal(literals, e.object_repr),
                    }
                }
        }),
{
    let leq = by_valid_from();
    let sorted = ordered(entries, leq);
    let r = sorted.map_values(displayed(db, literals));
    assert(is_order(leq));
    lemma_ordered_members(entries, leq);
    lemma_ordered_in_order(entries, leq);
    assert forall|i: int, j: int| 0 <= i < j < r.len() implies (#[trigger] r[i]).valid_from.0 <= (
    #[trigger] r[j]).valid_from.0 by {
        assert(leq(sorted[i], sorted[j]));
    }
}

/// What was believed of an entity at a time: an entry for each belief about it that
/// had begun by then and had not ended before, and no others.
pub proof fn law_believed_at_a_time(
    db: TablesView,
    space: Seq<char>,
    entity: Seq<char>,
    at: Timestamp,
)
    ensures
        ({
            let r = believed_at(db, space, entity, at);
            &&& forall|e: TimelineEntryView| #[trigger]
                r.contains(e) ==> exists|k: int|
                    0 <= k < db.beliefs.len() && e == timeline_entry(db)(
                        #[trigger] db.beliefs[k],
                    ) && db.beliefs[k].valid_from.0 <= at.0 && at.0 <= db.beliefs[k].valid_to.0
                        && is_subject_of(db, db.beliefs[k].statement, space, entity)
            &&& forall|k: int|
                0 <= k < db.beliefs.len() && (#[trigger] db.beliefs[k]).valid_from.0 <= at.0
                    && at.0 <= db.beliefs[k].valid_to.0 && is_sole_subject_of(
                    db,
                    db.beliefs[k].statement,
                    space,
                    entity,
                ) ==> r.contains(
                    timeline_entry(db)(db.beliefs[k]),
                )
        }),
{
    let t = at.0 as int;
    let plain = db.beliefs.filter(believed_within(db, space, entity, t, t)).map_values(
        timeline_entry(db),
    );
    let r = believed_at(db, space, entity, at);
    law_entries_overlap_the_times(db, space, entity, t, t);
    lemma_ordered_members(plain, by_statement());
    assert forall|e: TimelineEntryView| #[trigger] r.contains(e) implies exists|k: int|
        0 <= k < db.beliefs.len() && e == timeline_entry(db)(#[trigger] db.beliefs[k])
            && db.beliefs[k].valid_from.0 <= at.0 && at.0 <= db.beliefs[k].valid_to.0
                && is_subject_of(
            db,
            db.beliefs[k].statement,
            space,
            entity,
        ) by {
        assert(plain.contains(e));
    }
}

/// The last entry of a statement: one of its entries, and none of them comes after
/// it.
proof fn lemma_last(entries: Seq<TimelineEntryView>, id: Seq<char>)
    ensures
        match last_entry(entries, id) {
            Some(e) => exists|i: int|
                0 <= i < entries.len() && #[trigger] entries[i] == e && e.statement_id == id
                    && forall|j: int|
                    i < j < entries.len() ==> (#[trigger] entries[j]).statement_id != id,
            None => forall|i: int|
                0 <= i < entries.len() ==> (#[trigger] entries[i]).statement_id != id,
        },
    decreases entries.len(),
{
    if entries.len() > 0 {
        let n = entries.len() - 1;
        if entries[n].statement_id == id {
            assert(entries[n] == entries.last());
        } else {
            let init = entries.drop_last();
            lemma_last(init, id);
            match last_entry(init, id) {
                Some(e) => {
                    let i = choose|i: int|
                        0 <= i < init.len() && #[trigger] init[i] == e && e.statement_id == id
                            && forall|j: int|
                            i < j < init.len() ==> (#[trigger] init[j]).statement_id != id;
                    assert(entries[i] == e);
                    assert forall|j: int| i < j < entries.len() implies (
                    #[trigger] entries[j]).statement_id != id by {
                        if j < n {
                            assert(init[j] == entries[j]);
                        }
                    }
                },
                None => {
                    assert forall|i: int| 0 <= i < entries.len() implies (
                    #[trigger] entries[i]).statement_id != id by {
                        if i < n {
                            assert(init[i] == entries[i]);
                        }
                    }
                },
            }
        }
    }
}

/// What a diff lists. A statement is added where it has an entry after and none
/// before, removed the other way round, and changed where its last entries on
/// both sides differ in their status or in when they begin.
pub proof fn law_diff_tells_what_changed(
    before: Seq<TimelineEntryView>,
    after: Seq<TimelineEntryView>,
    id: Seq<char>,
)
    ensures
        lists(changes(before, after, after, Change::Added), id) <==> (forall|i: int|
            0 <= i < before.len() ==> (#[trigger] before[i]).statement_id != id) && (exists|i: int|
            0 <= i < after.len() && (#[trigger] after[i]).statement_id == id),
        lists(changes(before, after, before, Change::Removed), id) <==> (exists|i: int|
            0 <= i < before.len() && (#[trigger] before[i]).statement_id == id) && (forall|i: int|
            0 <= i < after.len() ==> (#[trigger] after[i]).statement_id != id),
        lists(changes(before, after, after, Change::Changed), id) <==> exists|i: int, j: int|
            #![trigger before[i], after[j]]
            0 <= i < before.len() && 0 <= j < after.len() && before[i].statement_id == id
                && after[j].statement_id == id && (forall|k: int|
                i < k < before.len() ==> (#[trigger] before[k]).statement_id != id) && (forall|
                k: int,
            |
                j < k < after.len() ==> (#[trigger] after[k]).statement_id != id) && (
            before[i].status != after[j].status || before[i].valid_from != after[j].valid_from),
{
    law_changes_are_listed_in_order(before, after, after, Change::Added);
    law_changes_are_listed_in_order(before, after, before, Change::Removed);
    law_changes_are_listed_in_order(before, after, after, Change::Changed);
    lemma_last(before, id);
    lemma_last(after, id);
    if last_entry(before, id) is Some && last_entry(after, id) is Some {
        let a = last_entry(before, id)->Some_0;
        let b = last_entry(after, id)->Some_0;
        let i = choose|i: int|
            0 <= i < before.len() && #[trigger] before[i] == a && a.statement_id == id && forall|
                j: int,
            |
                i < j < before.len() ==> (#[trigger] before[j]).statement_id != id;
        let j = choose|j: int|
            0 <= j < after.len() && #[trigger] after[j] == b && b.statement_id == id && forall|
                k: int,
            |
                j < k < after.len() ==> (#[trigger] after[k]).statement_id != id;
        assert(before[i].statement_id == id && after[j].statement_id == id);
        assert forall|m: int, n: int|
            #![trigger before[m], after[n]]
            0 <= m < before.len() && 0 <= n < after.len() && before[m].statement_id == id
                && after[n].statement_id == id && (forall|k: int|
                m < k < before.len() ==> (#[trigger] before[k]).statement_id != id) && (forall|
                k: int,
            |
                n < k < after.len() ==> (#[trigger] after[k]).statement_id != id) implies m == i
            && n == j by {
            if m < i {
                assert(before[i].statement_id != id);
            }
            if i < m {
                assert(before[m].statement_id != id);
            }
            if n < j {
                assert(after[j].statement_id != id);
            }
            if j < n {
                assert(after[n].statement_id != id);
            }
        }
    }
}

/// What was believed at a time is told in the order of the statements.
pub proof fn law_beliefs_at_a_time_are_in_order(
    db: TablesView,
    space: Seq<char>,
    entity: Seq<char>,
    at: Timestamp,
)
    ensures
        ({
            let r = believed_at(db, space, entity, at);
            forall|i: int, j: int|
                0 <= i < j < r.len() ==> text_le(
                    (#[trigger] r[i]).statement_id,
                    (#[trigger] r[j]).statement_id,
                )
        }),
{
    let leq = by_statement();
    let p = believed_within(db, space, entity, at.0 as int, at.0 as int);
    let rows = db.beliefs.filter(p).map_values(timeline_entry(db));
    assert(is_order(leq)) by {
        assert forall|a: TimelineEntryView, b: TimelineEntryView| #[trigger] leq(a, b)
            || leq(b, a) by {
            crate::text::lemma_text_total(a.statement_id, b.statement_id);
        }
        assert forall|a: TimelineEntryView, b: TimelineEntryView, c: TimelineEntryView| #[trigger]
            leq(a, b) && #[trigger] leq(b, c) implies leq(a, c) by {
            crate::text::lemma_text_transitive(a.statement_id, b.statement_id, c.statement_id);
        }
    }
    lemma_ordered_in_order(rows, leq);
    let r = believed_at(db, space, entity, at);
    assert(r == ordered(rows, leq));
    assert forall|i: int, j: int| 0 <= i < j < r.len() implies text_le(
        (#[trigger] r[i]).statement_id,
        (#[trigger] r[j]).statement_id,
    ) by {
        assert(leq(r[i], r[j]));
    }
}

/// A statement is listed where some entry is of it.
pub proof fn law_statement_is_listed_by_an_entry(
    entries: Seq<TimelineEntryView>,
    next: TimelineEntryView,
    id: Seq<char>,
)
    ensures
        lists(entries.push(next), id) <==> lists(entries, id) || next.statement_id == id,
        !lists(Seq::<TimelineEntryView>::empty(), id),
{
    let all = entries.push(next);
    if lists(entries, id) {
        let i = choose|i: int|
            0 <= i < entries.len() && (#[trigger] entries[i]).statement_id == id;
        assert(all[i].statement_id == id);
    }
    if next.statement_id == id {
        assert(all[entries.len() as int].statement_id == id);
    }
    if lists(all, id) {
        let i = choose|i: int| 0 <= i < all.len() && (#[trigger] all[i]).statement_id == id;
        if i < entries.len() {
            assert(entries[i].statement_id == id);
        }
    }
}

} // verus!
