//! What is read and written of entities, keys, merges, statements, assertions and
//! beliefs.
use vstd::prelude::*;

use crate::knowledge::{
    assertion_has_id, asserts, beliefs_of, believes, believes_any, by_latest_decision, by_newest,
    by_start, entity_has_id, entry_for, is_belief_at, is_group_member, is_key_named, is_key_of_type,
    is_live_in, is_merge_in, is_supported, key_has_id, mention_has_id, merge_has_id, merged_away,
    put_beliefs, replaced_beliefs, statement_group, statement_has_id,
};
use crate::rows::{
    first_n, first_where, is_order, lemma_first_is, lemma_ordered_in_order, lemma_ordered_members,
    lemma_selected, lemma_top, or_ignore, ordered, updated,
};
use crate::tables::{
    AssertionView, BeliefView, EntityKeyView, EntityMergeView, EntityView, MentionView,
    StatementView, TablesView,
};

verus! {

/// A row is put in under its id: where a row has the id already, the table stays
/// as it is, else the row comes last.
pub proof fn law_rows_are_told_by_their_ids(
    db: TablesView,
    e: EntityView,
    k: EntityKeyView,
    m: EntityMergeView,
    s: StatementView,
    a: AssertionView,
    n: MentionView,
)
    ensures
        or_ignore(db.entities, entity_has_id(e.id), e) == if exists|i: int|
            0 <= i < db.entities.len() && (#[trigger] db.entities[i]).id == e.id {
            db.entities
        } else {
            db.entities.push(e)
        },
        or_ignore(db.keys, key_has_id(k.id), k) == if exists|i: int|
            0 <= i < db.keys.len() && (#[trigger] db.keys[i]).id == k.id {
            db.keys
        } else {
            db.keys.push(k)
        },
        or_ignore(db.merges, merge_has_id(m.id), m) == if exists|i: int|
            0 <= i < db.merges.len() && (#[trigger] db.merges[i]).id == m.id {
            db.merges
        } else {
            db.merges.push(m)
        },
        or_ignore(db.statements, statement_has_id(s.id), s) == if exists|i: int|
            0 <= i < db.statements.len() && (#[trigger] db.statements[i]).id == s.id {
            db.statements
        } else {
            db.statements.push(s)
        },
        or_ignore(db.assertions, assertion_has_id(a.id), a) == if exists|i: int|
            0 <= i < db.assertions.len() && (#[trigger] db.assertions[i]).id == a.id {
            db.assertions
        } else {
            db.assertions.push(a)
        },
        or_ignore(db.mentions, mention_has_id(n.id), n) == if exists|i: int|
            0 <= i < db.mentions.len() && (#[trigger] db.mentions[i]).id == n.id {
            db.mentions
        } else {
            db.mentions.push(n)
        },
{
    if exists|i: int| 0 <= i < db.entities.len() && (#[trigger] db.entities[i]).id == e.id {
        let i = choose|i: int| 0 <= i < db.entities.len() && (#[trigger] db.entities[i]).id == e.id;
        assert(entity_has_id(e.id)(db.entities[i]));
    }
    if exists|i: int| 0 <= i < db.keys.len() && (#[trigger] db.keys[i]).id == k.id {
        let i = choose|i: int| 0 <= i < db.keys.len() && (#[trigger] db.keys[i]).id == k.id;
        assert(key_has_id(k.id)(db.keys[i]));
    }
    if exists|i: int| 0 <= i < db.merges.len() && (#[trigger] db.merges[i]).id == m.id {
        let i = choose|i: int| 0 <= i < db.merges.len() && (#[trigger] db.merges[i]).id == m.id;
        assert(merge_has_id(m.id)(db.merges[i]));
    }
    if exists|i: int| 0 <= i < db.statements.len() && (#[trigger] db.statements[i]).id == s.id {
        let i = choose|i: int|
            0 <= i < db.statements.len() && (#[trigger] db.statements[i]).id == s.id;
        assert(statement_has_id(s.id)(db.statements[i]));
    }
    if exists|i: int| 0 <= i < db.assertions.len() && (#[trigger] db.assertions[i]).id == a.id {
        let i = choose|i: int|
            0 <= i < db.assertions.len() && (#[trigger] db.assertions[i]).id == a.id;
        assert(assertion_has_id(a.id)(db.assertions[i]));
    }
    if exists|i: int| 0 <= i < db.mentions.len() && (#[trigger] db.mentions[i]).id == n.id {
        let i = choose|i: int| 0 <= i < db.mentions.len() && (#[trigger] db.mentions[i]).id == n.id;
        assert(mention_has_id(n.id)(db.mentions[i]));
    }
}

/// An entity is got by its id, and by nothing else.
pub proof fn law_entity_is_got_by_id(db: TablesView, id: Seq<char>)
    ensures
        match first_where(db.entities, entity_has_id(id)) {
            Some(e) => e.id == id && db.entities.contains(e),
            None => forall|i: int| 0 <= i < db.entities.len()
                ==> (#[trigger] db.entities[i]).id != id,
        },
{
    lemma_first_is(db.entities, entity_has_id(id));
    assert forall|i: int|
        first_where(db.entities, entity_has_id(id)) is None && 0 <= i < db.entities.len() implies (
    #[trigger] db.entities[i]).id != id by {
        assert(!entity_has_id(id)(db.entities[i]));
    }
}

/// The entities of a space are listed newest first: those of the space that are
/// not merged away, no more than asked for, and none left out is newer than one
/// that is listed.
pub proof fn law_entities_are_listed_newest_first(db: TablesView, space: Seq<char>, limit: nat)
    ensures
        ({
            let r = first_n(ordered(db.entities.filter(is_live_in(space)), by_newest()), limit);
            &&& r.len() <= limit
            &&& forall|i: int|
                0 <= i < r.len() ==> (#[trigger] r[i]).space == space && r[i].merged_into is None
                    && db.entities.contains(r[i])
            &&& forall|i: int, j: int|
                0 <= i < j < r.len() ==> (#[trigger] r[i]).created_at.0 >= (
                #[trigger] r[j]).created_at.0
            &&& forall|e: EntityView|
                #![trigger db.entities.contains(e)]
                db.entities.contains(e) && e.space == space && e.merged_into is None && !r.contains(
                    e,
                ) ==> r.len() == limit && forall|i: int|
                    0 <= i < r.len() ==> (#[trigger] r[i]).created_at.0 >= e.created_at.0
        }),
{
    let leq = by_newest();
    assert(is_order(leq));
    lemma_top(db.entities, is_live_in(space), leq, limit);
    let r = first_n(ordered(db.entities.filter(is_live_in(space)), leq), limit);
    assert forall|e: EntityView|
        #![trigger db.entities.contains(e)]
        db.entities.contains(e) && e.space == space && e.merged_into is None && !r.contains(
            e,
        ) implies r.len() == limit && forall|i: int|
        0 <= i < r.len() ==> (#[trigger] r[i]).created_at.0 >= e.created_at.0 by {
        assert(is_live_in(space)(e));
        assert forall|i: int| 0 <= i < r.len() implies (#[trigger] r[i]).created_at.0
            >= e.created_at.0 by {
            assert(leq(r[i], e));
        }
    }
    assert forall|i: int, j: int| 0 <= i < j < r.len() implies (#[trigger] r[i]).created_at.0 >= (
    #[trigger] r[j]).created_at.0 by {
        assert(leq(r[i], r[j]));
    }
    assert forall|i: int| 0 <= i < r.len() implies (#[trigger] r[i]).space == space
        && r[i].merged_into is None && db.entities.contains(r[i]) by {
        assert(is_live_in(space)(r[i]));
    }
}

/// Keys are found by their space, their type and, where asked for, their
/// normalized form; all that match are found.
pub proof fn law_keys_are_found(
    db: TablesView,
    space: Seq<char>,
    ty: Seq<char>,
    normalized: Seq<char>,
)
    ensures
        forall|k: EntityKeyView| #[trigger]
            db.keys.filter(is_key_of_type(space, ty)).contains(k) <==> db.keys.contains(k)
                && k.space == space && k.ty == ty,
        forall|k: EntityKeyView| #[trigger]
            db.keys.filter(is_key_named(space, ty, normalized)).contains(k) <==> db.keys.contains(k)
                && k.space == space && k.ty == ty && k.normalized == normalized,
{
    lemma_selected(db.keys, is_key_of_type(space, ty));
    lemma_selected(db.keys, is_key_named(space, ty, normalized));
}

/// Merging one entity into another points the loser, and no other, at the winner,
/// and changes nothing else of it.
pub proof fn law_merge_points_the_loser_at_the_winner(
    entities: Seq<EntityView>,
    loser: Seq<char>,
    winner: Seq<char>,
)
    ensures
        ({
            let after = updated(entities, entity_has_id(loser), merged_away(winner));
            &&& after.len() == entities.len()
            &&& forall|i: int|
                #![trigger after[i]]
                0 <= i < entities.len() ==> {
                    let e = entities[i];
                    let f = after[i];
                    &&& f.merged_into == if e.id == loser {
                        Some(winner)
                    } else {
                        e.merged_into
                    }
                    &&& f.id == e.id
                    &&& f.space == e.space
                    &&& f.ty == e.ty
                    &&& f.canonical_key == e.canonical_key
                    &&& f.created_at == e.created_at
                    &&& f.salience == e.salience
                    &&& f.last_activity == e.last_activity
                }
        }),
{
}

/// The merges of a space are those whose loser is an entity of the space, the
/// latest decision first; all of them are listed.
pub proof fn law_merges_are_listed_latest_first(db: TablesView, space: Seq<char>)
    ensures
        ({
            let r = ordered(db.merges.filter(is_merge_in(db, space)), by_latest_decision());
            &&& forall|m: EntityMergeView| #[trigger]
                r.contains(m) <==> db.merges.contains(m) && exists|i: int|
                    0 <= i < db.entities.len() && (#[trigger] db.entities[i]).id == m.loser
                        && db.entities[i].space == space
            &&& forall|i: int, j: int|
                0 <= i < j < r.len() ==> (#[trigger] r[i]).decided_at.0 >= (
                #[trigger] r[j]).decided_at.0
        }),
{
    let p = is_merge_in(db, space);
    let leq = by_latest_decision();
    let r = ordered(db.merges.filter(p), leq);
    assert(is_order(leq));
    lemma_selected(db.merges, p);
    lemma_ordered_members(db.merges.filter(p), leq);
    lemma_ordered_in_order(db.merges.filter(p), leq);
    assert forall|i: int, j: int| 0 <= i < j < r.len() implies (#[trigger] r[i]).decided_at.0 >= (
    #[trigger] r[j]).decided_at.0 by {
        assert(leq(r[i], r[j]));
    }
    assert forall|m: EntityMergeView| #[trigger] r.contains(m) <==> db.merges.contains(m)
        && exists|i: int|
        0 <= i < db.entities.len() && (#[trigger] db.entities[i]).id == m.loser
            && db.entities[i].space == space by {
        let q = |e: EntityView| e.id == m.loser && e.space == space;
        assert(db.merges.filter(p).contains(m) <==> db.merges.contains(m) && p(m));
        if exists|i: int|
            0 <= i < db.entities.len() && (#[trigger] db.entities[i]).id == m.loser
                && db.entities[i].space == space {
            let i = choose|i: int|
                0 <= i < db.entities.len() && (#[trigger] db.entities[i]).id == m.loser
                    && db.entities[i].space == space;
            assert(q(db.entities[i]));
        }
    }
}

/// A group holds the statements of a space with one subject and predicate that are
/// asserted, each with all its assertions.
pub proof fn law_group_holds_what_is_asserted(
    db: TablesView,
    space: Seq<char>,
    subject: Seq<char>,
    predicate: Seq<char>,
)
    ensures
        ({
            let g = statement_group(db, space, subject, predicate);
            &&& forall|i: int|
                0 <= i < g.len() ==> {
                    let s = (#[trigger] g[i]).statement;
                    &&& db.statements.contains(s)
                    &&& s.space == space
                    &&& s.subject == subject
                    &&& s.predicate == predicate
                    &&& g[i].assertions.len() > 0
                    &&& forall|a: AssertionView| #[trigger]
                        g[i].assertions.contains(a) <==> db.assertions.contains(a) && a.statement
                            == s.id
                }
            &&& forall|j: int, k: int|
                #![trigger db.statements[j], db.assertions[k]]
                0 <= j < db.statements.len() && 0 <= k < db.assertions.len()
                    && db.statements[j].space == space && db.statements[j].subject == subject
                    && db.statements[j].predicate == predicate && db.assertions[k].statement
                    == db.statements[j].id ==> exists|i: int|
                    0 <= i < g.len() && (#[trigger] g[i]).statement == db.statements[j]
        }),
{
    let p = is_group_member(space, subject, predicate);
    let members = db.statements.filter(p);
    let entries = members.map_values(entry_for(db));
    let g = statement_group(db, space, subject, predicate);
    lemma_selected(db.statements, p);
    lemma_selected(entries, is_supported());
    assert forall|i: int| 0 <= i < g.len() implies ({
        let s = (#[trigger] g[i]).statement;
        &&& db.statements.contains(s)
        &&& s.space == space
        &&& s.subject == subject
        &&& s.predicate == predicate
        &&& g[i].assertions.len() > 0
        &&& forall|a: AssertionView| #[trigger]
            g[i].assertions.contains(a) <==> db.assertions.contains(a) && a.statement == s.id
    }) by {
        assert(entries.contains(g[i]) && is_supported()(g[i]));
        let k = choose|k: int| 0 <= k < entries.len() && entries[k] == g[i];
        assert(p(members[k]) && db.statements.contains(members[k]));
        assert(g[i] == entry_for(db)(members[k]));
        lemma_selected(db.assertions, asserts(members[k].id));
    }
    assert forall|j: int, k: int|
        #![trigger db.statements[j], db.assertions[k]]
        0 <= j < db.statements.len() && 0 <= k < db.assertions.len() && db.statements[j].space
            == space && db.statements[j].subject == subject && db.statements[j].predicate
            == predicate && db.assertions[k].statement == db.statements[j].id implies exists|i: int|
        0 <= i < g.len() && (#[trigger] g[i]).statement == db.statements[j] by {
        let s = db.statements[j];
        let a = db.assertions[k];
        assert(p(s) && db.statements.contains(s));
        assert(members.contains(s));
        let n = choose|n: int| 0 <= n < members.len() && members[n] == s;
        let e = entries[n];
        assert(e == entry_for(db)(s));
        lemma_selected(db.assertions, asserts(s.id));
        assert(db.assertions.contains(a) && asserts(s.id)(a));
        assert(e.assertions.contains(a));
        assert(is_supported()(e));
        assert(entries.contains(e));
        assert(g.contains(e));
        let i = choose|i: int| 0 <= i < g.len() && g[i] == e;
        assert(g[i].statement == s);
    }
}

/// The assertions of a statement are those that name it.
pub proof fn law_assertions_of_a_statement(db: TablesView, id: Seq<char>)
    ensures
        forall|a: AssertionView| #[trigger]
            db.assertions.filter(asserts(id)).contains(a) <==> db.assertions.contains(a)
                && a.statement == id,
{
    lemma_selected(db.assertions, asserts(id));
}

/// The beliefs of a statement are those that name it, in the order in which they
/// begin.
pub proof fn law_beliefs_of_a_statement(beliefs: Seq<BeliefView>, id: Seq<char>)
    ensures
        ({
            let r = beliefs_of(beliefs, id);
            &&& forall|b: BeliefView| #[trigger]
                r.contains(b) <==> beliefs.contains(b) && b.statement == id
            &&& forall|i: int, j: int|
                0 <= i < j < r.len() ==> (#[trigger] r[i]).valid_from.0 <= (
                #[trigger] r[j]).valid_from.0
        }),
{
    let leq = by_start();
    let r = beliefs_of(beliefs, id);
    assert(is_order(leq));
    lemma_selected(beliefs, believes(id));
    lemma_ordered_members(beliefs.filter(believes(id)), leq);
    lemma_ordered_in_order(beliefs.filter(believes(id)), leq);
    assert forall|b: BeliefView| #[trigger] r.contains(b) <==> beliefs.contains(b) && b.statement
        == id by {
        assert(beliefs.filter(believes(id)).contains(b) <==> beliefs.contains(b) && believes(id)(
            b,
        ));
    }
    assert forall|i: int, j: int| 0 <= i < j < r.len() implies (#[trigger] r[i]).valid_from.0 <= (
    #[trigger] r[j]).valid_from.0 by {
        assert(leq(r[i], r[j]));
    }
}

/// What putting beliefs in leaves: the new ones, unless a later one is about the
/// same statement from the same time, and the old ones that no new one displaces
/// so.
proof fn lemma_put_rows(beliefs: Seq<BeliefView>, new: Seq<BeliefView>)
    ensures
        forall|b: BeliefView| #[trigger]
            put_beliefs(beliefs, new).contains(b) <==> (exists|i: int|
                0 <= i < new.len() && #[trigger] new[i] == b && forall|j: int|
                    i < j < new.len() ==> (#[trigger] new[j]).statement != b.statement
                        || new[j].valid_from != b.valid_from) || (beliefs.contains(b) && forall|
                j: int,
            |
                0 <= j < new.len() ==> (#[trigger] new[j]).statement != b.statement
                    || new[j].valid_from != b.valid_from),
    decreases new.len(),
{
    if new.len() > 0 {
        let init = new.drop_last();
        let last = new.last();
        let before = put_beliefs(beliefs, init);
        lemma_put_rows(beliefs, init);
        let gone = |x: BeliefView| !is_belief_at(last)(x);
        lemma_selected(before, gone);
        let after = put_beliefs(beliefs, new);
        assert(after == before.filter(gone).push(last));
        assert(new[new.len() - 1] == last);
        assert forall|b: BeliefView| #[trigger] after.contains(b) <==> (exists|i: int|
            0 <= i < new.len() && #[trigger] new[i] == b && forall|j: int|
                i < j < new.len() ==> (#[trigger] new[j]).statement != b.statement
                    || new[j].valid_from != b.valid_from) || (beliefs.contains(b) && forall|j: int|
            0 <= j < new.len() ==> (#[trigger] new[j]).statement != b.statement
                || new[j].valid_from != b.valid_from) by {
            assert(before.filter(gone).contains(b) <==> before.contains(b) && gone(b));
            if after.contains(b) {
                let n = choose|n: int| 0 <= n < after.len() && after[n] == b;
                if n < before.filter(gone).len() {
                    assert(before.filter(gone)[n] == b);
                    assert(before.filter(gone).contains(b));
                    if exists|i: int|
                        0 <= i < init.len() && #[trigger] init[i] == b && forall|j: int|
                            i < j < init.len() ==> (#[trigger] init[j]).statement != b.statement
                                || init[j].valid_from != b.valid_from {
                        let i = choose|i: int|
                            0 <= i < init.len() && #[trigger] init[i] == b && forall|j: int|
                                i < j < init.len() ==> (#[trigger] init[j]).statement
                                    != b.statement || init[j].valid_from != b.valid_from;
                        assert(new[i] == b);
                        assert forall|j: int| i < j < new.len() implies (
                        #[trigger] new[j]).statement != b.statement || new[j].valid_from
                            != b.valid_from by {
                            if j < init.len() {
                                assert(init[j] == new[j]);
                            }
                        }
                    } else {
                        assert forall|j: int| 0 <= j < new.len() implies (
                        #[trigger] new[j]).statement != b.statement || new[j].valid_from
                            != b.valid_from by {
                            if j < init.len() {
                                assert(init[j] == new[j]);
                            }
                        }
                    }
                } else {
                    assert(new[new.len() - 1] == b);
                }
            }
            if exists|i: int|
                0 <= i < new.len() && #[trigger] new[i] == b && forall|j: int|
                    i < j < new.len() ==> (#[trigger] new[j]).statement != b.statement
                        || new[j].valid_from != b.valid_from {
                let i = choose|i: int|
                    0 <= i < new.len() && #[trigger] new[i] == b && forall|j: int|
                        i < j < new.len() ==> (#[trigger] new[j]).statement != b.statement
                            || new[j].valid_from != b.valid_from;
                if i == new.len() - 1 {
                    assert(after[after.len() - 1] == b);
                } else {
                    assert(init[i] == b);
                    assert forall|j: int| i < j < init.len() implies (
                    #[trigger] init[j]).statement != b.statement || init[j].valid_from
                        != b.valid_from by {
                        assert(init[j] == new[j]);
                    }
                    assert(before.contains(b));
                    assert(gone(b));
                    let n = choose|n: int|
                        0 <= n < before.filter(gone).len() && before.filter(gone)[n] == b;
                    assert(after[n] == b);
                }
            }
            if beliefs.contains(b) && forall|j: int|
                0 <= j < new.len() ==> (#[trigger] new[j]).statement != b.statement
                    || new[j].valid_from != b.valid_from {
                assert forall|j: int| 0 <= j < init.len() implies (#[trigger] init[j]).statement
                    != b.statement || init[j].valid_from != b.valid_from by {
                    assert(init[j] == new[j]);
                }
                assert(before.contains(b));
                assert(gone(b));
                let n = choose|n: int|
                    0 <= n < before.filter(gone).len() && before.filter(gone)[n] == b;
                assert(after[n] == b);
            }
        }
    }
}

/// Replacing beliefs: none of the old beliefs of the statements is left, unless it
/// is among the new ones; the beliefs of other statements stay, unless a new one
/// displaces them; and of the new ones about one statement from one time the last
/// one counts.
pub proof fn law_beliefs_are_replaced(
    beliefs: Seq<BeliefView>,
    ids: Seq<Seq<char>>,
    new: Seq<BeliefView>,
)
    ensures
        forall|b: BeliefView| #[trigger]
            replaced_beliefs(beliefs, ids, new).contains(b) <==> (exists|i: int|
                0 <= i < new.len() && #[trigger] new[i] == b && forall|j: int|
                    i < j < new.len() ==> (#[trigger] new[j]).statement != b.statement
                        || new[j].valid_from != b.valid_from) || (beliefs.contains(b)
                && !ids.contains(b.statement) && forall|j: int|
                0 <= j < new.len() ==> (#[trigger] new[j]).statement != b.statement
                    || new[j].valid_from != b.valid_from),
{
    let kept = |b: BeliefView| !believes_any(ids)(b);
    lemma_selected(beliefs, kept);
    lemma_put_rows(beliefs.filter(kept), new);
    assert forall|b: BeliefView| beliefs.filter(kept).contains(b)
        <==> #[trigger] beliefs.contains(b)
        && !ids.contains(b.statement) by {
        assert(beliefs.filter(kept).contains(b) <==> beliefs.contains(b) && kept(b));
    }
}

} // verus!
