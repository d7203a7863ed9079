//! What the indexes hold, and what they are asked with.
use vstd::prelude::*;

use crate::error::BrainErrorView;
use crate::index_ops::{
    by_entity_id, canonical_surface, chunk_input, chunk_row_has_id, embedding_text, embeds,
    entity_indexed, episode_index_row, episode_mentions, index_rows, is_activity, is_assertion_in,
    is_entity_row, is_live_episode, is_searchable, is_shown, is_subject_statement, is_vector,
    key_in, key_surface, last_activity_of, literal_text, mentioned_in_episode, names, names_in,
    refreshed, reindexed, rendered, shown_literal, statement_rows, surface_form, surface_row,
    vector_text, vector_texts, with_aliases, with_chunks, with_embeddings, with_episode_index,
    with_vectors, VectorTextView,
};
use crate::knowledge::{entity_has_id, is_live_in, key_has_id};
use crate::laws::consolidation::lemma_text_order;
use crate::laws::timeline::law_latest_record_is_the_greatest;
use crate::ledger::{by_seq, entity_in};
use crate::project::TypedValueView;
use crate::query::mention_surface;
use crate::redaction::statement_in;
use crate::rows::{
    distinct, first_where, is_order, lemma_both_contain, lemma_distinct, lemma_first_is, lemma_got,
    lemma_ordered_in_order, lemma_ordered_members, lemma_replaced, lemma_selected, ordered,
    some_where, updated,
};
use crate::tables::{
    AssertionView, ChunkRowView, EntityKeyView, EntityVectorRowView, EntityView, EpisodeRowView,
    FtsRowView, ObjectView, StatementView, TablesView, VectorRowView,
};
use crate::text::{by_text, text_le};

verus! {

/// Vectors are kept by their target in the space: a new one takes the place of the
/// one that is there, and of two new ones the last counts.
pub proof fn law_vectors_are_replaced_by_target(rows: Seq<VectorRowView>, new: Seq<VectorRowView>)
    ensures
        forall|v: VectorRowView| #[trigger]
            with_vectors(rows, new).contains(v) <==> (exists|i: int|
                0 <= i < new.len() && #[trigger] new[i] == v && forall|j: int|
                    i < j < new.len() ==> ((#[trigger] new[j]).space != v.space
                        || new[j].target_kind
                    != v.target_kind || new[j].target_id != v.target_id)) || (rows.contains(v)
                        && forall|j: int|
                0 <= j < new.len() ==> ((#[trigger] new[j]).space != v.space || new[j].target_kind
                    != v.target_kind || new[j].target_id != v.target_id)),
    decreases new.len(),
{
    if new.len() > 0 {
        let init = new.drop_last();
        let last = new.last();
        let n = new.len() - 1;
        assert(last == new[n]);
        law_vectors_are_replaced_by_target(rows, init);
        let before = with_vectors(rows, init);
        lemma_replaced(before, is_vector(last), last);
        assert forall|v: VectorRowView| #[trigger] with_vectors(rows, new).contains(v)
            <==> (exists|i: int|
            0 <= i < new.len() && #[trigger] new[i] == v && forall|j: int|
                i < j < new.len() ==> ((#[trigger] new[j]).space != v.space || new[j].target_kind
                    != v.target_kind || new[j].target_id != v.target_id)) || (rows.contains(v)
                        && forall|j: int|
            0 <= j < new.len() ==> ((#[trigger] new[j]).space != v.space || new[j].target_kind
                    != v.target_kind || new[j].target_id != v.target_id)) by {
            if exists|i: int|
                0 <= i < init.len() && #[trigger] init[i] == v && forall|j: int|
                    i < j < init.len() ==> ((#[trigger] init[j]).space != v.space
                        || init[j].target_kind
                    != v.target_kind || init[j].target_id != v.target_id) {
                let i = choose|i: int|
                    0 <= i < init.len() && #[trigger] init[i] == v && forall|j: int|
                        i < j < init.len() ==> ((#[trigger] init[j]).space != v.space
                            || init[j].target_kind
                    != v.target_kind || init[j].target_id != v.target_id);
                assert(new[i] == v);
                if (last.space != v.space || last.target_kind
                    != v.target_kind || last.target_id != v.target_id) {
                    assert forall|j: int| i < j < new.len()
                        implies ((#[trigger] new[j]).space != v.space || new[j].target_kind
                    != v.target_kind || new[j].target_id != v.target_id) by {
                        if j < n {
                            assert(init[j] == new[j]);
                        }
                    }
                }
            }
            if exists|i: int|
                0 <= i < new.len() && #[trigger] new[i] == v && forall|j: int|
                    i < j < new.len() ==> ((#[trigger] new[j]).space != v.space
                        || new[j].target_kind
                    != v.target_kind || new[j].target_id != v.target_id) {
                let i = choose|i: int|
                    0 <= i < new.len() && #[trigger] new[i] == v && forall|j: int|
                        i < j < new.len() ==> ((#[trigger] new[j]).space != v.space
                            || new[j].target_kind
                    != v.target_kind || new[j].target_id != v.target_id);
                if i < n {
                    assert(init[i] == v);
                    assert((new[n].space != v.space || new[n].target_kind
                    != v.target_kind || new[n].target_id != v.target_id));
                    assert forall|j: int| i < j < init.len()
                        implies ((#[trigger] init[j]).space != v.space || init[j].target_kind
                    != v.target_kind || init[j].target_id != v.target_id) by {
                        assert(init[j] == new[j]);
                    }
                }
            }
            if (last.space != v.space || last.target_kind
                    != v.target_kind || last.target_id != v.target_id) {
                if forall|j: int| 0 <= j < init.len() ==> ((#[trigger] init[j]).space != v.space
                    || init[j].target_kind
                    != v.target_kind || init[j].target_id != v.target_id) {
                    assert forall|j: int| 0 <= j < new.len()
                        implies ((#[trigger] new[j]).space != v.space || new[j].target_kind
                    != v.target_kind || new[j].target_id != v.target_id) by {
                        if j < n {
                            assert(init[j] == new[j]);
                        }
                    }
                }
            }
            if forall|j: int| 0 <= j < new.len() ==> ((#[trigger] new[j]).space != v.space
                || new[j].target_kind
                    != v.target_kind || new[j].target_id != v.target_id) {
                assert((new[n].space != v.space || new[n].target_kind
                    != v.target_kind || new[n].target_id != v.target_id));
                assert forall|j: int| 0 <= j < init.len()
                    implies ((#[trigger] init[j]).space != v.space || init[j].target_kind
                    != v.target_kind || init[j].target_id != v.target_id) by {
                    assert(init[j] == new[j]);
                }
            }
        }
    }
}

/// Chunks are kept by their ids: a new one takes the place of the one that is there,
/// and of two new ones the last counts.
pub proof fn law_chunks_are_replaced_by_id(rows: Seq<ChunkRowView>, new: Seq<ChunkRowView>)
    ensures
        forall|v: ChunkRowView| #[trigger]
            with_chunks(rows, new).contains(v) <==> (exists|i: int|
                0 <= i < new.len() && #[trigger] new[i] == v && forall|j: int|
                    i < j < new.len() ==> (#[trigger] new[j]).id != v.id) || (rows.contains(v)
                        && forall|j: int|
                0 <= j < new.len() ==> (#[trigger] new[j]).id != v.id),
    decreases new.len(),
{
    if new.len() > 0 {
        let init = new.drop_last();
        let last = new.last();
        let n = new.len() - 1;
        assert(last == new[n]);
        law_chunks_are_replaced_by_id(rows, init);
        let before = with_chunks(rows, init);
        lemma_replaced(before, chunk_row_has_id(last.id), last);
        assert forall|v: ChunkRowView| #[trigger] with_chunks(rows, new).contains(v)
            <==> (exists|i: int|
            0 <= i < new.len() && #[trigger] new[i] == v && forall|j: int|
                i < j < new.len() ==> (#[trigger] new[j]).id != v.id) || (rows.contains(v)
                    && forall|j: int|
            0 <= j < new.len() ==> (#[trigger] new[j]).id != v.id) by {
            if exists|i: int|
                0 <= i < init.len() && #[trigger] init[i] == v && forall|j: int|
                    i < j < init.len() ==> (#[trigger] init[j]).id != v.id {
                let i = choose|i: int|
                    0 <= i < init.len() && #[trigger] init[i] == v && forall|j: int|
                        i < j < init.len() ==> (#[trigger] init[j]).id != v.id;
                assert(new[i] == v);
                if last.id != v.id {
                    assert forall|j: int| i < j < new.len()
                        implies (#[trigger] new[j]).id != v.id by {
                        if j < n {
                            assert(init[j] == new[j]);
                        }
                    }
                }
            }
            if exists|i: int|
                0 <= i < new.len() && #[trigger] new[i] == v && forall|j: int|
                    i < j < new.len() ==> (#[trigger] new[j]).id != v.id {
                let i = choose|i: int|
                    0 <= i < new.len() && #[trigger] new[i] == v && forall|j: int|
                        i < j < new.len() ==> (#[trigger] new[j]).id != v.id;
                if i < n {
                    assert(init[i] == v);
                    assert(new[n].id != v.id);
                    assert forall|j: int| i < j < init.len()
                        implies (#[trigger] init[j]).id != v.id by {
                        assert(init[j] == new[j]);
                    }
                }
            }
            if last.id != v.id {
                if forall|j: int| 0 <= j < init.len() ==> (#[trigger] init[j]).id != v.id {
                    assert forall|j: int| 0 <= j < new.len()
                        implies (#[trigger] new[j]).id != v.id by {
                        if j < n {
                            assert(init[j] == new[j]);
                        }
                    }
                }
            }
            if forall|j: int| 0 <= j < new.len() ==> (#[trigger] new[j]).id != v.id {
                assert(new[n].id != v.id);
                assert forall|j: int| 0 <= j < init.len()
                    implies (#[trigger] init[j]).id != v.id by {
                    assert(init[j] == new[j]);
                }
            }
        }
    }
}

/// Embeddings are kept by their entity: a new one takes the place of the one that is
/// there, and of two new ones the last counts.
pub proof fn law_embeddings_are_replaced_by_entity(
    rows: Seq<EntityVectorRowView>,
    new: Seq<EntityVectorRowView>,
)
    ensures
        forall|v: EntityVectorRowView| #[trigger]
            with_embeddings(rows, new).contains(v) <==> (exists|i: int|
                0 <= i < new.len() && #[trigger] new[i] == v && forall|j: int|
                    i < j < new.len() ==> (#[trigger] new[j]).entity_id != v.entity_id)
                        || (rows.contains(v) && forall|j: int|
                0 <= j < new.len() ==> (#[trigger] new[j]).entity_id != v.entity_id),
    decreases new.len(),
{
    if new.len() > 0 {
        let init = new.drop_last();
        let last = new.last();
        let n = new.len() - 1;
        assert(last == new[n]);
        law_embeddings_are_replaced_by_entity(rows, init);
        let before = with_embeddings(rows, init);
        lemma_replaced(before, embeds(last.entity_id), last);
        assert forall|v: EntityVectorRowView| #[trigger]
            with_embeddings(rows, new).contains(v) <==> (exists|i: int|
            0 <= i < new.len() && #[trigger] new[i] == v && forall|j: int|
                i < j < new.len() ==> (#[trigger] new[j]).entity_id != v.entity_id)
                    || (rows.contains(v) && forall|j: int|
            0 <= j < new.len() ==> (#[trigger] new[j]).entity_id != v.entity_id) by {
            if exists|i: int|
                0 <= i < init.len() && #[trigger] init[i] == v && forall|j: int|
                    i < j < init.len() ==> (#[trigger] init[j]).entity_id != v.entity_id {
                let i = choose|i: int|
                    0 <= i < init.len() && #[trigger] init[i] == v && forall|j: int|
                        i < j < init.len() ==> (#[trigger] init[j]).entity_id != v.entity_id;
                assert(new[i] == v);
                if last.entity_id != v.entity_id {
                    assert forall|j: int| i < j < new.len()
                        implies (#[trigger] new[j]).entity_id != v.entity_id by {
                        if j < n {
                            assert(init[j] == new[j]);
                        }
                    }
                }
            }
            if exists|i: int|
                0 <= i < new.len() && #[trigger] new[i] == v && forall|j: int|
                    i < j < new.len() ==> (#[trigger] new[j]).entity_id != v.entity_id {
                let i = choose|i: int|
                    0 <= i < new.len() && #[trigger] new[i] == v && forall|j: int|
                        i < j < new.len() ==> (#[trigger] new[j]).entity_id != v.entity_id;
                if i < n {
                    assert(init[i] == v);
                    assert(new[n].entity_id != v.entity_id);
                    assert forall|j: int| i < j < init.len()
                        implies (#[trigger] init[j]).entity_id != v.entity_id by {
                        assert(init[j] == new[j]);
                    }
                }
            }
            if last.entity_id != v.entity_id {
                if forall|j: int| 0 <= j < init.len()
                    ==> (#[trigger] init[j]).entity_id != v.entity_id {
                    assert forall|j: int| 0 <= j < new.len()
                        implies (#[trigger] new[j]).entity_id != v.entity_id by {
                        if j < n {
                            assert(init[j] == new[j]);
                        }
                    }
                }
            }
            if forall|j: int| 0 <= j < new.len() ==> (#[trigger] new[j]).entity_id != v.entity_id {
                assert(new[n].entity_id != v.entity_id);
                assert forall|j: int| 0 <= j < init.len()
                    implies (#[trigger] init[j]).entity_id != v.entity_id by {
                    assert(init[j] == new[j]);
                }
            }
        }
    }
}

/// An episode that is taken in is found in both indexes, by what it says.
pub proof fn law_episode_is_indexed(
    db: TablesView,
    space: Seq<char>,
    id: Seq<char>,
    content: Seq<char>,
)
    ensures
        ({
            let after = with_episode_index(db, space, id, content);
            let w = after.fts_word.last();
            let n = after.fts_ngram.last();
            &&& after.fts_word.len() == db.fts_word.len() + 1
            &&& after.fts_word.drop_last() == db.fts_word
            &&& after.fts_ngram.len() == db.fts_ngram.len() + 1
            &&& after.fts_ngram.drop_last() == db.fts_ngram
            &&& w == n
            &&& w.body == content
            &&& w.space == space
            &&& w.target_kind == "episode"@
            &&& w.target_id == id
            &&& after == (TablesView {
                fts_word: after.fts_word,
                fts_ngram: after.fts_ngram,
                ..db
            })
        }),
{
    let after = with_episode_index(db, space, id, content);
    assert(after.fts_word.drop_last() =~= db.fts_word);
    assert(after.fts_ngram.drop_last() =~= db.fts_ngram);
}

/// A literal is shown by the text that was given for it, or as it is stored.
pub proof fn law_literal_is_shown(literals: Seq<(Seq<char>, Seq<char>)>, json: Seq<char>)
    ensures
        (exists|i: int| 0 <= i < literals.len() && (#[trigger] literals[i]).0 == json) ==> exists|
            i: int,
        |
            0 <= i < literals.len() && (#[trigger] literals[i]).0 == json && shown_literal(
                literals,
                json,
            ) == literals[i].1,
        (forall|i: int| 0 <= i < literals.len() ==> (#[trigger] literals[i]).0 != json)
            ==> shown_literal(literals, json) == json,
{
    let at = is_shown(json);
    lemma_first_is(literals, at);
    if first_where(literals, at) is Some {
        let x = first_where(literals, at)->Some_0;
        let i = choose|i: int| 0 <= i < literals.len() && literals[i] == x;
        assert(literals[i].0 == json);
    } else {
        assert forall|i: int| 0 <= i < literals.len() implies (#[trigger] literals[i]).0
            != json by {
            assert(!at(literals[i]));
        }
    }
}

/// What a typed value is shown as.
pub proof fn law_values_are_shown_by_kind(v: TypedValueView, number: Seq<char>)
    ensures
        match v {
            TypedValueView::Text(s) => literal_text(v, number) == s,
            TypedValueView::Date(s) => literal_text(v, number) == s,
            TypedValueView::DateTime(s) => literal_text(v, number) == s,
            TypedValueView::Enum(s) => literal_text(v, number) == s,
            TypedValueView::Number(_) => literal_text(v, number) == number,
            TypedValueView::Quantity { unit, .. } => literal_text(v, number) == number + " "@
                + unit,
            TypedValueView::Bool(b) => literal_text(v, number) == if b {
                "true"@
            } else {
                "false"@
            },
        },
{
}

/// An entity is shown by the surface of its canonical key, where it has one and
/// the key is there; by that of a key that names it, where it has none; and else
/// by its id. An entity that is not there cannot be shown.
pub proof fn law_entity_is_shown_by_its_key(db: TablesView, id: Seq<char>)
    ensures
        match surface_form(db, id) {
            Err(e) => e is Storage && forall|i: int|
                0 <= i < db.entities.len() ==> (#[trigger] db.entities[i]).id != id,
            Ok(s) => exists|i: int|
                0 <= i < db.entities.len() && (#[trigger] db.entities[i]).id == id && match
                    db.entities[i].canonical_key {
                    Some(key) => is_surface_of(db, s, id, |k: EntityKeyView| k.id == key),
                    None => is_surface_of(db, s, id, |k: EntityKeyView| k.entity == id),
                },
        },
{
    let p = entity_has_id(id);
    lemma_first_is(db.entities, p);
    match first_where(db.entities, p) {
        None => {
            assert forall|i: int| 0 <= i < db.entities.len() implies (#[trigger] db.entities[i]).id
                != id by {
                assert(!p(db.entities[i]));
            }
        },
        Some(e) => {
            let i = choose|i: int| 0 <= i < db.entities.len() && db.entities[i] == e;
            assert(db.entities[i].id == id);
            match e.canonical_key {
                Some(key) => {
                    lemma_surface(
                        db,
                        id,
                        key_has_id(key),
                        |k: EntityKeyView| k.id == key,
                    );
                },
                None => {
                    lemma_surface(db, id, names(id), |k: EntityKeyView| k.entity == id);
                },
            }
        },
    }
}

/// Whether a text is the surface of a key that satisfies a condition, or where none
/// does the id.
pub open spec fn is_surface_of(
    db: TablesView,
    s: Seq<char>,
    id: Seq<char>,
    p: spec_fn(EntityKeyView) -> bool,
) -> bool {
    if exists|k: int| 0 <= k < db.keys.len() && p(#[trigger] db.keys[k]) {
        exists|k: int| 0 <= k < db.keys.len() && p(#[trigger] db.keys[k]) && db.keys[k].surface == s
    } else {
        s == id
    }
}

/// The surface of the first key that satisfies a condition.
proof fn lemma_surface(
    db: TablesView,
    id: Seq<char>,
    p: spec_fn(EntityKeyView) -> bool,
    q: spec_fn(EntityKeyView) -> bool,
)
    requires
        forall|k: EntityKeyView| #[trigger] p(k) == q(k),
    ensures
        is_surface_of(
            db,
            match first_where(db.keys, p) {
                Some(k) => k.surface,
                None => id,
            },
            id,
            q,
        ),
{
    lemma_first_is(db.keys, p);
    match first_where(db.keys, p) {
        Some(k) => {
            let n = choose|n: int| 0 <= n < db.keys.len() && db.keys[n] == k;
            assert(p(db.keys[n]) && q(db.keys[n]));
        },
        None => {
            assert forall|n: int| 0 <= n < db.keys.len() implies !q(#[trigger] db.keys[n]) by {
                assert(!p(db.keys[n]));
            }
        },
    }
}

/// A statement reads as its subject, its predicate and its object: the entities by
/// what they are shown as, a literal by its text. It cannot be read where an
/// entity of it cannot be shown.
pub proof fn law_statement_reads_as_a_sentence(
    db: TablesView,
    s: StatementView,
    literals: Seq<(Seq<char>, Seq<char>)>,
)
    ensures
        rendered(db, s, literals) is Ok <==> surface_form(db, s.subject) is Ok && (
        s.object matches ObjectView::Entity(o) ==> surface_form(db, o) is Ok),
        rendered(db, s, literals) matches Ok(text) ==> text == surface_form(db, s.subject)->Ok_0
            + " "@ + s.predicate + " "@ + match s.object {
            ObjectView::Entity(o) => surface_form(db, o)->Ok_0,
            ObjectView::Literal(json) => shown_literal(literals, json),
        },
{
}

/// The rows of statements in an index: one each, in their order, with what it reads
/// as.
proof fn lemma_statement_rows(
    db: TablesView,
    space: Seq<char>,
    statements: Seq<StatementView>,
    literals: Seq<(Seq<char>, Seq<char>)>,
)
    ensures
        statement_rows(db, space, statements, literals) matches Ok(rows) ==> {
            &&& rows.len() == statements.len()
            &&& forall|i: int|
                0 <= i < rows.len() ==> (#[trigger] rows[i]).space == space && rows[i].target_kind
                    == "statement"@ && rows[i].target_id == statements[i].id && rendered(
                    db,
                    statements[i],
                    literals,
                ) == Ok::<Seq<char>, BrainErrorView>(rows[i].body)
        },
        statement_rows(db, space, statements, literals) is Err ==> exists|i: int|
            0 <= i < statements.len() && rendered(db, #[trigger] statements[i], literals) is Err,
    decreases statements.len(),
{
    if statements.len() > 0 {
        let init = statements.drop_last();
        lemma_statement_rows(db, space, init, literals);
        let n = statements.len() - 1;
        if let Ok(rows) = statement_rows(db, space, statements, literals) {
            let before = statement_rows(db, space, init, literals)->Ok_0;
            assert forall|i: int| 0 <= i < rows.len() implies (#[trigger] rows[i]).space == space
                && rows[i].target_kind == "statement"@ && rows[i].target_id == statements[i].id
                && rendered(db, statements[i], literals) == Ok::<Seq<char>, BrainErrorView>(
                rows[i].body,
            ) by {
                if i < n {
                    assert(rows[i] == before[i]);
                    assert(init[i] == statements[i]);
                }
            }
        } else if statement_rows(db, space, init, literals) is Err {
            let i = choose|i: int|
                0 <= i < init.len() && rendered(db, #[trigger] init[i], literals) is Err;
            assert(statements[i] == init[i]);
        } else {
            assert(rendered(db, statements[n], literals) is Err);
        }
    }
}

/// What the indexes of a space hold after they were rebuilt: a row for each live
/// episode of it that is no declaration, by its content; one for each statement,
/// by what it reads as; one for each key, by its surface; and no others. The rows
/// of other spaces stay.
pub proof fn law_rebuilt_index_holds_the_space(
    db: TablesView,
    space: Seq<char>,
    literals: Seq<(Seq<char>, Seq<char>)>,
    f: FtsRowView,
)
    requires
        index_rows(db, space, literals) is Ok,
    ensures
        ({
            let after = reindexed(db, space, index_rows(db, space, literals)->Ok_0);
            let new = {
                ||| f.target_kind == "episode"@ && exists|i: int|
                    0 <= i < db.episodes.len() && (#[trigger] db.episodes[i]).space == space
                        && db.episodes[i].redacted_at is None && db.episodes[i].kind
                        != "declaration"@ && db.episodes[i].id == f.target_id
                        && db.episodes[i].content == f.body
                ||| f.target_kind == "statement"@ && exists|i: int|
                    0 <= i < db.statements.len() && (#[trigger] db.statements[i]).space == space
                        && db.statements[i].id == f.target_id && rendered(
                        db,
                        db.statements[i],
                        literals,
                    ) == Ok::<Seq<char>, BrainErrorView>(f.body)
                ||| f.target_kind == "entity"@ && exists|i: int|
                    0 <= i < db.keys.len() && (#[trigger] db.keys[i]).space == space
                        && db.keys[i].entity == f.target_id && db.keys[i].surface == f.body
            };
            &&& after.fts_word.contains(f) <==> (f.space != space && db.fts_word.contains(f)) || (
            f.space == space && new)
            &&& after.fts_ngram.contains(f) <==> (f.space != space && db.fts_ngram.contains(f)) || (
            f.space == space && new)
        }),
{
    let rows = index_rows(db, space, literals)->Ok_0;
    let kept = |f: FtsRowView| f.space != space;
    lemma_selected(db.fts_word, kept);
    lemma_selected(db.fts_ngram, kept);
    lemma_both_contain(db.fts_word.filter(kept), rows, f);
    lemma_both_contain(db.fts_ngram.filter(kept), rows, f);
    let own = db.statements.filter(statement_in(space));
    let eps = db.episodes.filter(is_searchable(space)).map_values(episode_index_row(space));
    let sts = statement_rows(db, space, own, literals)->Ok_0;
    let kys = db.keys.filter(key_in(space)).map_values(surface_row(space));
    lemma_statement_rows(db, space, own, literals);
    lemma_both_contain(eps + sts, kys, f);
    lemma_both_contain(eps, sts, f);
    lemma_got(db.episodes, is_searchable(space), episode_index_row(space));
    lemma_got(db.keys, key_in(space), surface_row(space));
    lemma_selected(db.statements, statement_in(space));
    if sts.contains(f) {
        let i = choose|i: int| 0 <= i < sts.len() && sts[i] == f;
        assert(own.contains(own[i]));
        let j = choose|j: int| 0 <= j < db.statements.len() && db.statements[j] == own[i];
        assert(db.statements[j].space == space);
    }
    if f.space == space {
        if f.target_kind == "episode"@ && exists|i: int|
            0 <= i < db.episodes.len() && (#[trigger] db.episodes[i]).space == space
                && db.episodes[i].redacted_at is None && db.episodes[i].kind != "declaration"@
                && db.episodes[i].id == f.target_id && db.episodes[i].content == f.body {
            let i = choose|i: int|
                0 <= i < db.episodes.len() && (#[trigger] db.episodes[i]).space == space
                    && db.episodes[i].redacted_at is None && db.episodes[i].kind != "declaration"@
                    && db.episodes[i].id == f.target_id && db.episodes[i].content == f.body;
            assert(is_searchable(space)(db.episodes[i]));
            assert(episode_index_row(space)(db.episodes[i]) == f);
        }
        if f.target_kind == "statement"@ && exists|i: int|
            0 <= i < db.statements.len() && (#[trigger] db.statements[i]).space == space
                && db.statements[i].id == f.target_id && rendered(
                db,
                db.statements[i],
                literals,
            ) == Ok::<Seq<char>, BrainErrorView>(f.body) {
            let i = choose|i: int|
                0 <= i < db.statements.len() && (#[trigger] db.statements[i]).space == space
                    && db.statements[i].id == f.target_id && rendered(
                    db,
                    db.statements[i],
                    literals,
                ) == Ok::<Seq<char>, BrainErrorView>(f.body);
            assert(db.statements.contains(db.statements[i]));
            assert(own.contains(db.statements[i]));
            let k = choose|k: int| 0 <= k < own.len() && own[k] == db.statements[i];
            assert(sts[k] == f);
        }
        if f.target_kind == "entity"@ && exists|i: int|
            0 <= i < db.keys.len() && (#[trigger] db.keys[i]).space == space && db.keys[i].entity
                == f.target_id && db.keys[i].surface == f.body {
            let i = choose|i: int|
                0 <= i < db.keys.len() && (#[trigger] db.keys[i]).space == space
                    && db.keys[i].entity == f.target_id && db.keys[i].surface == f.body;
            assert(key_in(space)(db.keys[i]));
            assert(surface_row(space)(db.keys[i]) == f);
        }
    }
}

/// Indexing an entity again: its rows in the space are those of its keys there,
/// and all other rows stay.
pub proof fn law_indexed_entity_has_its_keys(
    index: Seq<FtsRowView>,
    keys: Seq<EntityKeyView>,
    space: Seq<char>,
    id: Seq<char>,
    f: FtsRowView,
)
    ensures
        entity_indexed(index, keys, space, id).contains(f) <==> if f.space == space && f.target_kind
            == "entity"@ && f.target_id == id {
            exists|i: int|
                0 <= i < keys.len() && (#[trigger] keys[i]).space == space && keys[i].entity == id
                    && keys[i].surface == f.body
        } else {
            index.contains(f)
        },
{
    let kept = |f: FtsRowView| !is_entity_row(space, id)(f);
    let new = keys.filter(names_in(space, id)).map_values(surface_row(space));
    lemma_selected(index, kept);
    lemma_got(keys, names_in(space, id), surface_row(space));
    lemma_both_contain(index.filter(kept), new, f);
    if exists|i: int|
        0 <= i < keys.len() && (#[trigger] keys[i]).space == space && keys[i].entity == id
            && keys[i].surface == f.body {
        let i = choose|i: int|
            0 <= i < keys.len() && (#[trigger] keys[i]).space == space && keys[i].entity == id
                && keys[i].surface == f.body;
        assert(names_in(space, id)(keys[i]));
        if f.space == space && f.target_kind == "entity"@ && f.target_id == id {
            assert(surface_row(space)(keys[i]) == f);
        }
    }
}

/// The last activity of an entity is the latest record of an assertion about a
/// statement of the space with it as subject; without one it has none.
pub proof fn law_activity_is_the_latest_assertion(
    db: TablesView,
    space: Seq<char>,
    entity: Seq<char>,
)
    ensures
        match last_activity_of(db, space, entity) {
            Some(t) => {
                &&& exists|k: int|
                    0 <= k < db.assertions.len() && is_about_subject(
                        db,
                        #[trigger] db.assertions[k],
                        space,
                        entity,
                    ) && db.assertions[k].recorded_at == t
                &&& forall|k: int|
                    0 <= k < db.assertions.len() && is_about_subject(
                        db,
                        #[trigger] db.assertions[k],
                        space,
                        entity,
                    ) ==> db.assertions[k].recorded_at.0 <= t.0
            },
            None => forall|k: int|
                0 <= k < db.assertions.len() ==> !is_about_subject(
                    db,
                    #[trigger] db.assertions[k],
                    space,
                    entity,
                ),
        },
{
    let p = is_activity(db, space, entity);
    let found = db.assertions.filter(p);
    lemma_selected(db.assertions, p);
    law_latest_record_is_the_greatest(found);
    assert forall|k: int| 0 <= k < db.assertions.len() implies p(#[trigger] db.assertions[k])
        == is_about_subject(db, db.assertions[k], space, entity) by {
        let a = db.assertions[k];
        let q = is_subject_statement(space, entity, a.statement);
        if is_about_subject(db, a, space, entity) {
            let j = choose|j: int|
                0 <= j < db.statements.len() && (#[trigger] db.statements[j]).id == a.statement
                    && db.statements[j].space == space && db.statements[j].subject == entity;
            assert(q(db.statements[j]));
        }
        if some_where(db.statements, q) {
            let j = choose|j: int| 0 <= j < db.statements.len() && q(#[trigger] db.statements[j]);
            assert(db.statements[j].id == a.statement);
        }
    }
    assert forall|k: int|
        0 <= k < db.assertions.len() && is_about_subject(
            db,
            #[trigger] db.assertions[k],
            space,
            entity,
        ) implies found.len() > 0 && db.assertions[k].recorded_at.0
        <= crate::timeline::latest_record(found).0 by {
        assert(db.assertions.contains(db.assertions[k]) && p(db.assertions[k]));
        assert(found.contains(db.assertions[k]));
        let n = choose|n: int| 0 <= n < found.len() && found[n] == db.assertions[k];
        assert(found[n].recorded_at.0 <= crate::timeline::latest_record(found).0);
    }
    if found.len() > 0 {
        let n = choose|n: int|
            0 <= n < found.len() && (#[trigger] found[n]).recorded_at
                == crate::timeline::latest_record(found);
        assert(found.contains(found[n]));
        let k = choose|k: int| 0 <= k < db.assertions.len() && db.assertions[k] == found[n];
        assert(p(db.assertions[k]));
    }
}

/// Whether an assertion is about a statement of a space with an entity as subject.
pub open spec fn is_about_subject(
    db: TablesView,
    a: AssertionView,
    space: Seq<char>,
    entity: Seq<char>,
) -> bool {
    exists|j: int|
        0 <= j < db.statements.len() && (#[trigger] db.statements[j]).id == a.statement
            && db.statements[j].space == space && db.statements[j].subject == entity
}

/// Refreshing activity sets it on the entities of the space, and changes nothing
/// else.
pub proof fn law_activity_is_refreshed(db: TablesView, space: Seq<char>)
    ensures
        ({
            let after = updated(db.entities, entity_in(space), refreshed(db, space));
            &&& after.len() == db.entities.len()
            &&& forall|i: int|
                #![trigger after[i]]
                0 <= i < db.entities.len() ==> after[i] == (EntityView {
                    last_activity: if db.entities[i].space == space {
                        last_activity_of(db, space, db.entities[i].id)
                    } else {
                        db.entities[i].last_activity
                    },
                    ..db.entities[i]
                })
        }),
{
}

/// What lexical vectors are made of: the content of each live episode of the space
/// that is no declaration, and what each statement of it reads as.
pub proof fn law_vector_texts_are_of_the_space(
    db: TablesView,
    space: Seq<char>,
    literals: Seq<(Seq<char>, Seq<char>)>,
    v: VectorTextView,
)
    requires
        vector_texts(db, space, literals) is Ok,
    ensures
        vector_texts(db, space, literals)->Ok_0.contains(v) <==> {
            ||| v.target_kind == "episode"@ && exists|i: int|
                0 <= i < db.episodes.len() && (#[trigger] db.episodes[i]).space == space
                    && db.episodes[i].redacted_at is None && db.episodes[i].kind != "declaration"@
                    && db.episodes[i].id == v.target_id && db.episodes[i].content == v.text
            ||| v.target_kind == "statement"@ && exists|i: int|
                0 <= i < db.statements.len() && (#[trigger] db.statements[i]).space == space
                    && db.statements[i].id == v.target_id && rendered(
                    db,
                    db.statements[i],
                    literals,
                ) == Ok::<Seq<char>, BrainErrorView>(v.text)
        },
{
    let own = db.statements.filter(statement_in(space));
    let eps = db.episodes.filter(is_searchable(space)).map_values(episode_index_row(space));
    let sts = statement_rows(db, space, own, literals)->Ok_0;
    let all = eps + sts;
    let texts = all.map_values(vector_text());
    lemma_statement_rows(db, space, own, literals);
    lemma_got(db.episodes, is_searchable(space), episode_index_row(space));
    lemma_selected(db.statements, statement_in(space));
    if texts.contains(v) {
        let i = choose|i: int| 0 <= i < texts.len() && texts[i] == v;
        if i < eps.len() {
            assert(all[i] == eps[i]);
            assert(eps.contains(eps[i]));
        } else {
            let n = i - eps.len();
            assert(all[i] == sts[n]);
            assert(own.contains(own[n]));
            let j = choose|j: int| 0 <= j < db.statements.len() && db.statements[j] == own[n];
            assert(db.statements[j].space == space);
        }
    }
    if v.target_kind == "episode"@ && exists|i: int|
        0 <= i < db.episodes.len() && (#[trigger] db.episodes[i]).space == space
            && db.episodes[i].redacted_at is None && db.episodes[i].kind != "declaration"@
            && db.episodes[i].id == v.target_id && db.episodes[i].content == v.text {
        let i = choose|i: int|
            0 <= i < db.episodes.len() && (#[trigger] db.episodes[i]).space == space
                && db.episodes[i].redacted_at is None && db.episodes[i].kind != "declaration"@
                && db.episodes[i].id == v.target_id && db.episodes[i].content == v.text;
        assert(is_searchable(space)(db.episodes[i]));
        let row = episode_index_row(space)(db.episodes[i]);
        assert(eps.contains(row));
        let k = choose|k: int| 0 <= k < eps.len() && eps[k] == row;
        assert(all[k] == row);
        assert(texts[k] == v);
    }
    if v.target_kind == "statement"@ && exists|i: int|
        0 <= i < db.statements.len() && (#[trigger] db.statements[i]).space == space
            && db.statements[i].id == v.target_id && rendered(db, db.statements[i], literals)
            == Ok::<Seq<char>, BrainErrorView>(v.text) {
        let i = choose|i: int|
            0 <= i < db.statements.len() && (#[trigger] db.statements[i]).space == space
                && db.statements[i].id == v.target_id && rendered(db, db.statements[i], literals)
                == Ok::<Seq<char>, BrainErrorView>(v.text);
        assert(db.statements.contains(db.statements[i]));
        assert(own.contains(db.statements[i]));
        let k = choose|k: int| 0 <= k < own.len() && own[k] == db.statements[i];
        assert(sts[k].target_id == v.target_id);
        assert(all[eps.len() + k] == sts[k]);
        assert(texts[eps.len() + k] == v);
    }
}

/// What chunks are made of: every live episode of the space, in the order of its
/// number, with what it says, when and of what kind, and the names in it.
pub proof fn law_chunks_are_made_of_live_episodes(db: TablesView, space: Seq<char>)
    ensures
        ({
            let rows = ordered(db.episodes.filter(is_live_episode(space)), by_seq());
            let r = rows.map_values(chunk_input(db, space));
            &&& r.len() == rows.len()
            &&& forall|e: EpisodeRowView| #[trigger]
                rows.contains(e) <==> db.episodes.contains(e) && e.space == space
                    && e.redacted_at is None
            &&& forall|i: int, j: int|
                0 <= i < j < rows.len() ==> (#[trigger] rows[i]).seq <= (#[trigger] rows[j]).seq
            &&& forall|i: int|
                0 <= i < r.len() ==> (#[trigger] r[i]).episode_id == rows[i].id && r[i].content
                    == rows[i].content && r[i].occurred_at == rows[i].occurred_at
                    && r[i].source_kind == rows[i].source_kind && r[i].mentions == episode_mentions(
                    db,
                    space,
                    rows[i].id,
                )
        }),
{
    let p = is_live_episode(space);
    let leq = by_seq();
    let rows = ordered(db.episodes.filter(p), leq);
    assert(is_order(leq));
    lemma_selected(db.episodes, p);
    lemma_ordered_members(db.episodes.filter(p), leq);
    lemma_ordered_in_order(db.episodes.filter(p), leq);
    assert forall|e: EpisodeRowView| #[trigger] rows.contains(e) <==> db.episodes.contains(e)
        && e.space == space && e.redacted_at is None by {
        assert(db.episodes.filter(p).contains(e) <==> db.episodes.contains(e) && p(e));
    }
    assert forall|i: int, j: int| 0 <= i < j < rows.len() implies (#[trigger] rows[i]).seq <= (
    #[trigger] rows[j]).seq by {
        assert(leq(rows[i], rows[j]));
    }
}

/// The names in an episode: the surfaces of the mentions in its assertions of
/// statements of the space, each once, in their order.
pub proof fn law_names_in_an_episode(
    db: TablesView,
    space: Seq<char>,
    episode: Seq<char>,
    name: Seq<char>,
)
    ensures
        episode_mentions(db, space, episode).contains(name) <==> exists|i: int, k: int, j: int|
            #![trigger db.mentions[i], db.assertions[k], db.statements[j]]
            0 <= i < db.mentions.len() && 0 <= k < db.assertions.len() && 0 <= j
                < db.statements.len() && db.mentions[i].surface == name && db.mentions[i].assertion
                == db.assertions[k].id && db.assertions[k].episode == episode
                && db.assertions[k].statement == db.statements[j].id && db.statements[j].space
                == space,
        forall|a: int, b: int|
            0 <= a < b < episode_mentions(db, space, episode).len() ==> text_le(
                #[trigger] episode_mentions(db, space, episode)[a],
                #[trigger] episode_mentions(db, space, episode)[b],
            ),
{
    let p = mentioned_in_episode(db, space, episode);
    let all = db.mentions.filter(p).map_values(mention_surface());
    let r = episode_mentions(db, space, episode);
    lemma_got(db.mentions, p, mention_surface());
    lemma_distinct(all);
    lemma_text_order();
    lemma_ordered_members(distinct(all), by_text());
    lemma_ordered_in_order(distinct(all), by_text());
    assert forall|a: int, b: int| 0 <= a < b < r.len() implies text_le(
        #[trigger] r[a],
        #[trigger] r[b],
    ) by {
        assert(by_text()(r[a], r[b]));
    }
    assert(r.contains(name) <==> distinct(all).contains(name));
    assert(distinct(all).contains(name) <==> all.contains(name));
    if all.contains(name) {
        let i = choose|i: int|
            0 <= i < db.mentions.len() && p(#[trigger] db.mentions[i]) && mention_surface()(
                db.mentions[i],
            ) == name;
        let q = is_assertion_in(db, space, episode, db.mentions[i].assertion);
        let k = choose|k: int| 0 <= k < db.assertions.len() && q(#[trigger] db.assertions[k]);
        let t = crate::explain::is_statement(space, db.assertions[k].statement);
        let j = choose|j: int| 0 <= j < db.statements.len() && t(#[trigger] db.statements[j]);
        assert(db.mentions[i].surface == name && db.assertions[k].episode == episode
            && db.statements[j].space == space);
    }
    if exists|i: int, k: int, j: int|
        #![trigger db.mentions[i], db.assertions[k], db.statements[j]]
        0 <= i < db.mentions.len() && 0 <= k < db.assertions.len() && 0 <= j < db.statements.len()
            && db.mentions[i].surface == name && db.mentions[i].assertion == db.assertions[k].id
            && db.assertions[k].episode == episode && db.assertions[k].statement
            == db.statements[j].id && db.statements[j].space == space {
        let (i, k, j) = choose|i: int, k: int, j: int|
            #![trigger db.mentions[i], db.assertions[k], db.statements[j]]
            0 <= i < db.mentions.len() && 0 <= k < db.assertions.len() && 0 <= j
                < db.statements.len() && db.mentions[i].surface == name && db.mentions[i].assertion
                == db.assertions[k].id && db.assertions[k].episode == episode
                && db.assertions[k].statement == db.statements[j].id && db.statements[j].space
                == space;
        assert(crate::explain::is_statement(space, db.assertions[k].statement)(db.statements[j]));
        assert(is_assertion_in(db, space, episode, db.mentions[i].assertion)(db.assertions[k]));
        assert(p(db.mentions[i]));
    }
}

/// What entities are embedded by: every entity of the space that is not merged
/// away, in the order of ids; its type and canonical name, and then its other
/// names.
pub proof fn law_entities_are_embedded_by_their_names(db: TablesView, space: Seq<char>)
    ensures
        ({
            let rows = ordered(db.entities.filter(is_live_in(space)), by_entity_id());
            let r = rows.map_values(embedding_text(db, space));
            &&& r.len() == rows.len()
            &&& forall|e: EntityView| #[trigger]
                rows.contains(e) <==> db.entities.contains(e) && e.space == space
                    && e.merged_into is None
            &&& forall|i: int, j: int|
                0 <= i < j < rows.len()
                    ==> text_le((#[trigger] rows[i]).id, (#[trigger] rows[j]).id)
            &&& forall|i: int|
                0 <= i < r.len() ==> (#[trigger] r[i]).0 == rows[i].id && r[i].1 == with_aliases(
                    rows[i].ty + ": "@ + canonical_surface(db, rows[i]),
                    canonical_surface(db, rows[i]),
                    db.keys.filter(names_in(space, rows[i].id)).map_values(key_surface()),
                )
        }),
{
    let p = is_live_in(space);
    let leq = by_entity_id();
    let rows = ordered(db.entities.filter(p), leq);
    assert(is_order(leq)) by {
        assert forall|a: EntityView, b: EntityView| #[trigger] leq(a, b) || leq(b, a) by {
            crate::text::lemma_text_total(a.id, b.id);
        }
        assert forall|a: EntityView, b: EntityView, c: EntityView| #[trigger] leq(a, b)
            && #[trigger] leq(b, c) implies leq(a, c) by {
            crate::text::lemma_text_transitive(a.id, b.id, c.id);
        }
    }
    lemma_selected(db.entities, p);
    lemma_ordered_members(db.entities.filter(p), leq);
    lemma_ordered_in_order(db.entities.filter(p), leq);
    assert forall|e: EntityView| #[trigger] rows.contains(e) <==> db.entities.contains(e)
        && e.space == space && e.merged_into is None by {
        assert(db.entities.filter(p).contains(e) <==> db.entities.contains(e) && p(e));
    }
    assert forall|i: int, j: int| 0 <= i < j < rows.len() implies text_le(
        (#[trigger] rows[i]).id,
        (#[trigger] rows[j]).id,
    ) by {
        assert(leq(rows[i], rows[j]));
    }
}

/// The other names of an entity are added one by one; the canonical one is not
/// said again.
pub proof fn law_aliases_follow_the_name(
    text: Seq<char>,
    canonical: Seq<char>,
    aliases: Seq<Seq<char>>,
    alias: Seq<char>,
)
    ensures
        with_aliases(text, canonical, Seq::empty()) == text,
        with_aliases(text, canonical, aliases.push(alias)) == if alias == canonical {
            with_aliases(text, canonical, aliases)
        } else {
            with_aliases(text, canonical, aliases) + " alias "@ + alias
        },
{
    assert(aliases.push(alias).drop_last() =~= aliases);
}

/// The canonical name of an entity is the surface of its canonical key, or nothing.
pub proof fn law_canonical_name_is_of_the_key(db: TablesView, e: EntityView)
    ensures
        match e.canonical_key {
            Some(id) => (exists|k: int| 0 <= k < db.keys.len() && (#[trigger] db.keys[k]).id == id)
                ==> exists|k: int|
                0 <= k < db.keys.len() && (#[trigger] db.keys[k]).id == id && db.keys[k].surface
                    == canonical_surface(db, e),
            None => canonical_surface(db, e).len() == 0,
        },
        e.canonical_key matches Some(id) ==> (forall|k: int|
            0 <= k < db.keys.len() ==> (#[trigger] db.keys[k]).id != id) ==> canonical_surface(
            db,
            e,
        ).len() == 0,
{
    if let Some(id) = e.canonical_key {
        let p = key_has_id(id);
        lemma_first_is(db.keys, p);
        if first_where(db.keys, p) is Some {
            let row = first_where(db.keys, p)->Some_0;
            let k = choose|k: int| 0 <= k < db.keys.len() && db.keys[k] == row;
            assert(db.keys[k].id == id);
        } else {
            assert forall|k: int| 0 <= k < db.keys.len() implies (#[trigger] db.keys[k]).id
                != id by {
                assert(!p(db.keys[k]));
            }
        }
    }
}

} // verus!
