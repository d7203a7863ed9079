//! The search indexes: full-text rows, chunks and activity, each a function of
//! the projection.
use vstd::prelude::*;

use crate::communities::sorted_texts;
use crate::error::{bool_text, fails_with, BrainError, BrainErrorView};
use crate::knowledge::{entity_has_id, is_live_in, key_has_id};
use crate::ledger::{by_seq, entity_in};
use crate::project::{TypedValue, TypedValueView};
use crate::redaction::{statement_in, unique_texts};
use crate::rows::{
    delete, distinct, dup_rows, find, first_where, insert_or_replace, map_rows, or_replace, order,
    ordered, pick, select, some_where, update, updated, Row,
};
use crate::tables::{
    Assertion, AssertionView, ChunkRow, ChunkRowView, Entity, EntityKey, EntityKeyView,
    EntityVectorRow, EntityVectorRowView, EntityView, EpisodeRow, EpisodeRowView, FtsRow,
    FtsRowView, Mention, MentionView, Object, ObjectView, Statement, StatementView, Tables,
    TablesView, VectorRow, VectorRowView,
};
use crate::text::{by_text, cat3, cat5, str_eq, str_le, text_le};
use crate::time::Timestamp;

verus! {

/// The index row of an episode's text.
pub open spec fn episode_fts_row(
    space: Seq<char>,
    episode_id: Seq<char>,
    content: Seq<char>,
) -> FtsRowView {
    FtsRowView { body: content, space, target_kind: "episode"@, target_id: episode_id }
}

/// The tables with an episode's text in both full-text indexes.
pub open spec fn with_episode_index(
    db: TablesView,
    space: Seq<char>,
    episode_id: Seq<char>,
    content: Seq<char>,
) -> TablesView {
    let row = episode_fts_row(space, episode_id, content);
    TablesView { fts_word: db.fts_word.push(row), fts_ngram: db.fts_ngram.push(row), ..db }
}

pub(crate) fn push_both(
    db: &mut Tables,
    body: &str,
    space: &str,
    kind: &str,
    target: &str,
)
    ensures
        ({
            let row = FtsRowView { body: body@, space: space@, target_kind: kind@, target_id: target@ };
            final(db).deep_view() == (TablesView {
                fts_word: old(db).deep_view().fts_word.push(row),
                fts_ngram: old(db).deep_view().fts_ngram.push(row),
                ..old(db).deep_view()
            })
        }),
{
    let ghost words = db.fts_word.deep_view();
    let ghost ngrams = db.fts_ngram.deep_view();
    let ghost row = FtsRowView { body: body@, space: space@, target_kind: kind@, target_id: target@ };
    db.fts_word.push(
        FtsRow {
            body: body.to_owned(),
            space: space.to_owned(),
            target_kind: kind.to_owned(),
            target_id: target.to_owned(),
        },
    );
    db.fts_ngram.push(
        FtsRow {
            body: body.to_owned(),
            space: space.to_owned(),
            target_kind: kind.to_owned(),
            target_id: target.to_owned(),
        },
    );
    assert(db.fts_word.deep_view() =~= words.push(row));
    assert(db.fts_ngram.deep_view() =~= ngrams.push(row));
}

/// Incrementally index a single episode body into both full-text indexes.
pub fn index_episode_fts(db: &mut Tables, space: &str, episode_id: &str, content: &str)
    ensures
        final(db).deep_view() == with_episode_index(
            old(db).deep_view(),
            space@,
            episode_id@,
            content@,
        ),
{
    push_both(db, content, space, "episode", episode_id);
}

/// Selects the shown text of a literal.
pub open spec fn is_shown(json: Seq<char>) -> spec_fn((Seq<char>, Seq<char>)) -> bool {
    |p: (Seq<char>, Seq<char>)| p.0 == json
}

/// Literals with the texts that are shown for them: pairs of a literal's JSON
/// text and its shown text.
pub open spec fn shown_literal(literals: Seq<(Seq<char>, Seq<char>)>, json: Seq<char>) -> Seq<char> {
    match first_where(literals, is_shown(json)) {
        Some(p) => p.1,
        None => json,
    }
}

/// The text that is shown for a literal, or its JSON text where none is given.
pub(crate) fn show_literal(literals: &Vec<(String, String)>, json: &str) -> (r: String)
    ensures
        r@ == shown_literal(literals.deep_view(), json@),
{
    match find(
        literals,
        |p: &(String, String)| -> (b: bool)
            ensures
                b == is_shown(json@)(p.deep_view())
            { str_eq(p.0.as_str(), json) },
        Ghost(is_shown(json@)),
    ) {
        Some(i) => {
            assert(literals.deep_view()[i as int] == literals[i as int].deep_view());
            literals[i].1.clone()
        },
        None => json.to_owned(),
    }
}

/// The text that is shown for a literal. `number` is what is shown for its
/// number, where it has one.
pub open spec fn literal_text(v: TypedValueView, number: Seq<char>) -> Seq<char> {
    match v {
        TypedValueView::Text(s) => s,
        TypedValueView::Date(s) => s,
        TypedValueView::DateTime(s) => s,
        TypedValueView::Enum(s) => s,
        TypedValueView::Number(_) => number,
        TypedValueView::Quantity { value: _, unit } => number + " "@ + unit,
        TypedValueView::Bool(b) => bool_text(b),
    }
}

/// The text that is shown for a literal.
pub fn literal_repr(v: &TypedValue, number: &str) -> (r: String)
    ensures
        r@ == literal_text(v.deep_view(), number@),
{
    match v {
        TypedValue::Text(s) => s.clone(),
        TypedValue::Date(s) => s.clone(),
        TypedValue::DateTime(s) => s.clone(),
        TypedValue::Enum(s) => s.clone(),
        TypedValue::Number(_) => number.to_owned(),
        TypedValue::Quantity { value: _, unit } => cat3(number, " ", unit.as_str()),
        TypedValue::Bool(b) => if *b {
            "true".to_owned()
        } else {
            "false".to_owned()
        },
    }
}

/// Selects the keys of an entity.
pub open spec fn names(entity: Seq<char>) -> spec_fn(EntityKeyView) -> bool {
    |k: EntityKeyView| k.entity == entity
}

/// The surface form of an entity: that of its canonical key, else that of its
/// first key, else its id. An entity that is not there is an error.
pub open spec fn surface_form(db: TablesView, entity: Seq<char>) -> Result<
    Seq<char>,
    BrainErrorView,
> {
    match first_where(db.entities, entity_has_id(entity)) {
        None => Err(BrainErrorView::Storage("Query returned no rows"@)),
        Some(e) => {
            let key = match e.canonical_key {
                Some(id) => first_where(db.keys, key_has_id(id)),
                None => first_where(db.keys, names(entity)),
            };
            match key {
                Some(k) => Ok(k.surface),
                None => Ok(entity),
            }
        },
    }
}

/// The surface form of an entity.
pub fn entity_surface(db: &Tables, entity_id: &str) -> (r: Result<String, BrainError>)
    ensures
        match surface_form(db.deep_view(), entity_id@) {
            Ok(s) => r is Ok && r->Ok_0@ == s,
            Err(e) => fails_with(r, e),
        },
{
    let i: usize = match find(
        &db.entities,
        |e: &Entity| -> (b: bool)
            ensures
                b == entity_has_id(entity_id@)(e.deep_view())
            { str_eq(e.id.as_str(), entity_id) },
        Ghost(entity_has_id(entity_id@)),
    ) {
        Some(i) => i,
        None => {
            return Err(BrainError::Storage("Query returned no rows".to_owned()));
        },
    };
    assert(db.deep_view().entities[i as int] == db.entities[i as int].deep_view());
    let found = match &db.entities[i].canonical_key {
        Some(id) => find(
            &db.keys,
            |k: &EntityKey| -> (b: bool)
                ensures
                    b == key_has_id(id@)(k.deep_view())
                { str_eq(k.id.as_str(), id.as_str()) },
            Ghost(key_has_id(id@)),
        ),
        None => find(
            &db.keys,
            |k: &EntityKey| -> (b: bool)
                ensures
                    b == names(entity_id@)(k.deep_view())
                { str_eq(k.entity.as_str(), entity_id) },
            Ghost(names(entity_id@)),
        ),
    };
    match found {
        Some(k) => {
            assert(db.deep_view().keys[k as int] == db.keys[k as int].deep_view());
            Ok(db.keys[k].surface.clone())
        },
        None => Ok(entity_id.to_owned()),
    }
}

/// A statement as a searchable text: subject, predicate and object.
pub open spec fn rendered(
    db: TablesView,
    s: StatementView,
    literals: Seq<(Seq<char>, Seq<char>)>,
) -> Result<Seq<char>, BrainErrorView> {
    match surface_form(db, s.subject) {
        Err(e) => Err(e),
        Ok(subject) => match s.object {
            ObjectView::Literal(json) => Ok(
                subject + " "@ + s.predicate + " "@ + shown_literal(literals, json),
            ),
            ObjectView::Entity(id) => match surface_form(db, id) {
                Err(e) => Err(e),
                Ok(object) => Ok(subject + " "@ + s.predicate + " "@ + object),
            },
        },
    }
}

/// Render a statement as a searchable text.
pub fn render_statement(
    db: &Tables,
    s: &Statement,
    literals: &Vec<(String, String)>,
) -> (r: Result<String, BrainError>)
    ensures
        match rendered(db.deep_view(), s.deep_view(), literals.deep_view()) {
            Ok(t) => r is Ok && r->Ok_0@ == t,
            Err(e) => fails_with(r, e),
        },
{
    let subject = match entity_surface(db, s.subject.as_str()) {
        Ok(t) => t,
        Err(e) => {
            return Err(e);
        },
    };
    let object = match &s.object {
        Object::Literal(json) => show_literal(literals, json.as_str()),
        Object::Entity(id) => match entity_surface(db, id.as_str()) {
            Ok(t) => t,
            Err(e) => {
                return Err(e);
            },
        },
    };
    Ok(cat5(subject.as_str(), " ", s.predicate.as_str(), " ", object.as_str()))
}

/// Selects the index rows of an entity in a space.
pub open spec fn is_entity_row(space: Seq<char>, id: Seq<char>) -> spec_fn(FtsRowView) -> bool {
    |f: FtsRowView| f.space == space && f.target_kind == "entity"@ && f.target_id == id
}

/// Selects the keys of an entity in a space.
pub open spec fn names_in(space: Seq<char>, entity: Seq<char>) -> spec_fn(EntityKeyView) -> bool {
    |k: EntityKeyView| k.space == space && k.entity == entity
}

/// The index row of a surface form.
pub open spec fn surface_row(space: Seq<char>) -> spec_fn(EntityKeyView) -> FtsRowView {
    |k: EntityKeyView|
        FtsRowView { body: k.surface, space, target_kind: "entity"@, target_id: k.entity }
}

/// An index with the rows of an entity made anew from its keys.
pub open spec fn entity_indexed(
    index: Seq<FtsRowView>,
    keys: Seq<EntityKeyView>,
    space: Seq<char>,
    id: Seq<char>,
) -> Seq<FtsRowView> {
    index.filter(|f: FtsRowView| !is_entity_row(space, id)(f)) + keys.filter(
        names_in(space, id),
    ).map_values(surface_row(space))
}

/// An index with the rows of entities made anew, one after the other.
pub open spec fn entities_indexed(
    index: Seq<FtsRowView>,
    keys: Seq<EntityKeyView>,
    space: Seq<char>,
    ids: Seq<Seq<char>>,
) -> Seq<FtsRowView>
    decreases ids.len(),
{
    if ids.len() == 0 {
        index
    } else {
        entity_indexed(
            entities_indexed(index, keys, space, ids.drop_last()),
            keys,
            space,
            ids.last(),
        )
    }
}

fn reindex_entity(index: &mut Vec<FtsRow>, keys: &Vec<EntityKey>, space: &str, id: &str)
    ensures
        final(index).deep_view() == entity_indexed(
            old(index).deep_view(),
            keys.deep_view(),
            space@,
            id@,
        ),
{
    delete(
        index,
        |f: &FtsRow| -> (gone: bool)
            ensures
                gone == is_entity_row(space@, id@)(f.deep_view())
            {
                str_eq(f.space.as_str(), space) && str_eq(f.target_kind.as_str(), "entity")
                    && str_eq(f.target_id.as_str(), id)
            },
        Ghost(|f: FtsRowView| !is_entity_row(space@, id@)(f)),
    );
    let mut rows = pick(
        keys,
        |k: &EntityKey| -> (b: bool)
            ensures
                b == names_in(space@, id@)(k.deep_view())
            { str_eq(k.space.as_str(), space) && str_eq(k.entity.as_str(), id) },
        |k: &EntityKey| -> (f: FtsRow)
            ensures
                f.deep_view() == surface_row(space@)(k.deep_view())
            {
                FtsRow {
                    body: k.surface.clone(),
                    space: space.to_owned(),
                    target_kind: "entity".to_owned(),
                    target_id: k.entity.clone(),
                }
            },
        Ghost(names_in(space@, id@)),
        Ghost(surface_row(space@)),
    );
    let ghost a = index.deep_view();
    let ghost b = rows.deep_view();
    index.append(&mut rows);
    assert(index.deep_view() =~= a + b);
}

/// Incrementally refresh the entity-surface rows of both full-text indexes for
/// the given entities. Idempotent: the rows of each are made anew from its
/// keys.
pub fn index_entities_fts(db: &mut Tables, space: &str, entity_ids: &Vec<String>)
    ensures
        final(db).deep_view() == (TablesView {
            fts_word: entities_indexed(
                old(db).deep_view().fts_word,
                old(db).deep_view().keys,
                space@,
                entity_ids.deep_view(),
            ),
            fts_ngram: entities_indexed(
                old(db).deep_view().fts_ngram,
                old(db).deep_view().keys,
                space@,
                entity_ids.deep_view(),
            ),
            ..old(db).deep_view()
        }),
{
    let ghost first = db.deep_view();
    let ghost all = entity_ids.deep_view();
    let mut i: usize = 0;
    assert(all.take(0) =~= Seq::empty());
    while i < entity_ids.len()
        invariant
            i <= entity_ids.len(),
            all == entity_ids.deep_view(),
            db.deep_view() == (TablesView {
                fts_word: entities_indexed(
                    first.fts_word,
                    first.keys,
                    space@,
                    all.take(i as int),
                ),
                fts_ngram: entities_indexed(
                    first.fts_ngram,
                    first.keys,
                    space@,
                    all.take(i as int),
                ),
                ..first
            }),
        decreases entity_ids.len() - i,
    {
        proof {
            assert(all.take(i + 1).drop_last() =~= all.take(i as int));
            assert(all.take(i + 1).last() == all[i as int]);
        }
        reindex_entity(&mut db.fts_word, &db.keys, space, entity_ids[i].as_str());
        reindex_entity(&mut db.fts_ngram, &db.keys, space, entity_ids[i].as_str());
        i = i + 1;
    }
    assert(all.take(i as int) =~= all);
}

/// Selects the episodes that are searched: live, and with human text.
pub open spec fn is_searchable(space: Seq<char>) -> spec_fn(EpisodeRowView) -> bool {
    |e: EpisodeRowView|
        e.space == space && e.redacted_at is None && e.kind != "declaration"@
}

/// The index row of an episode.
pub open spec fn episode_index_row(space: Seq<char>) -> spec_fn(EpisodeRowView) -> FtsRowView {
    |e: EpisodeRowView| episode_fts_row(space, e.id, e.content)
}

/// The index rows of statements, or what is wrong with the first that cannot be
/// rendered.
pub open spec fn statement_rows(
    db: TablesView,
    space: Seq<char>,
    statements: Seq<StatementView>,
    literals: Seq<(Seq<char>, Seq<char>)>,
) -> Result<Seq<FtsRowView>, BrainErrorView>
    decreases statements.len(),
{
    if statements.len() == 0 {
        Ok(Seq::empty())
    } else {
        match statement_rows(db, space, statements.drop_last(), literals) {
            Err(e) => Err(e),
            Ok(rows) => match rendered(db, statements.last(), literals) {
                Err(e) => Err(e),
                Ok(body) => Ok(
                    rows.push(
                        FtsRowView {
                            body,
                            space,
                            target_kind: "statement"@,
                            target_id: statements.last().id,
                        },
                    ),
                ),
            },
        }
    }
}

/// An error among the first statements is the error of all.
proof fn lemma_statement_row_error(
    db: TablesView,
    space: Seq<char>,
    statements: Seq<StatementView>,
    literals: Seq<(Seq<char>, Seq<char>)>,
    k: int,
)
    requires
        0 <= k <= statements.len(),
        statement_rows(db, space, statements.take(k), literals) is Err,
    ensures
        statement_rows(db, space, statements, literals) == statement_rows(
            db,
            space,
            statements.take(k),
            literals,
        ),
    decreases statements.len() - k,
{
    if k == statements.len() {
        assert(statements.take(k) =~= statements);
    } else {
        assert(statements.take(k + 1).drop_last() =~= statements.take(k));
        lemma_statement_row_error(db, space, statements, literals, k + 1);
    }
}

/// Selects the keys of a space.
pub open spec fn key_in(space: Seq<char>) -> spec_fn(EntityKeyView) -> bool {
    |k: EntityKeyView| k.space == space
}

/// Everything that a full-text index holds for a space: live episodes, rendered
/// statements and surface forms.
pub open spec fn index_rows(
    db: TablesView,
    space: Seq<char>,
    literals: Seq<(Seq<char>, Seq<char>)>,
) -> Result<Seq<FtsRowView>, BrainErrorView> {
    match statement_rows(db, space, db.statements.filter(statement_in(space)), literals) {
        Err(e) => Err(e),
        Ok(statements) => Ok(
            db.episodes.filter(is_searchable(space)).map_values(episode_index_row(space))
                + statements + db.keys.filter(key_in(space)).map_values(surface_row(space)),
        ),
    }
}

fn list_statement_rows(
    db: &Tables,
    space: &str,
    literals: &Vec<(String, String)>,
) -> (r: Result<Vec<FtsRow>, BrainError>)
    ensures
        match statement_rows(
            db.deep_view(),
            space@,
            db.deep_view().statements.filter(statement_in(space@)),
            literals.deep_view(),
        ) {
            Ok(v) => r is Ok && r->Ok_0.deep_view() == v,
            Err(e) => fails_with(r, e),
        },
{
    let statements = select(
        &db.statements,
        |s: &Statement| -> (b: bool)
            ensures
                b == statement_in(space@)(s.deep_view())
            { str_eq(s.space.as_str(), space) },
        Ghost(statement_in(space@)),
    );
    let ghost all = statements.deep_view();
    let ghost view = db.deep_view();
    let ghost lits = literals.deep_view();
    let mut out: Vec<FtsRow> = Vec::new();
    let mut i: usize = 0;
    assert(all.take(0) =~= Seq::empty());
    assert(out.deep_view() =~= Seq::<FtsRowView>::empty());
    while i < statements.len()
        invariant
            i <= statements.len(),
            view == db.deep_view(),
            lits == literals.deep_view(),
            all == statements.deep_view(),
            all == view.statements.filter(statement_in(space@)),
            statement_rows(view, space@, all.take(i as int), lits) == Ok::<
                Seq<FtsRowView>,
                BrainErrorView,
            >(out.deep_view()),
        decreases statements.len() - i,
    {
        let ghost before = out.deep_view();
        proof {
            assert(all.take(i + 1).drop_last() =~= all.take(i as int));
            assert(all.take(i + 1).last() == all[i as int]);
            assert(all[i as int] == statements[i as int].deep_view());
        }
        match render_statement(db, &statements[i], literals) {
            Err(e) => {
                proof {
                    lemma_statement_row_error(view, space@, all, lits, i + 1);
                }
                return Err(e);
            },
            Ok(body) => {
                let row = FtsRow {
                    body,
                    space: space.to_owned(),
                    target_kind: "statement".to_owned(),
                    target_id: statements[i].id.clone(),
                };
                let ghost added = row.deep_view();
                out.push(row);
                assert(out.deep_view() =~= before.push(added));
            },
        }
        i = i + 1;
    }
    assert(all.take(i as int) =~= all);
    Ok(out)
}

/// The tables with both full-text indexes of a space made anew.
pub open spec fn reindexed(db: TablesView, space: Seq<char>, rows: Seq<FtsRowView>) -> TablesView {
    TablesView {
        fts_word: db.fts_word.filter(|f: FtsRowView| f.space != space) + rows,
        fts_ngram: db.fts_ngram.filter(|f: FtsRowView| f.space != space) + rows,
        ..db
    }
}

fn replace_index(index: &mut Vec<FtsRow>, space: &str, rows: &Vec<FtsRow>)
    ensures
        final(index).deep_view() == old(index).deep_view().filter(
            |f: FtsRowView| f.space != space@,
        ) + rows.deep_view(),
{
    delete(
        index,
        |f: &FtsRow| -> (gone: bool)
            ensures
                gone == (f.deep_view().space == space@)
            { str_eq(f.space.as_str(), space) },
        Ghost(|f: FtsRowView| f.space != space@),
    );
    let mut more = dup_rows(rows);
    let ghost a = index.deep_view();
    let ghost b = more.deep_view();
    index.append(&mut more);
    assert(index.deep_view() =~= a + b);
}

/// Drop and rebuild all full-text content for a space, in both indexes.
/// Declaration episodes carry machine-readable text and are left out. On an
/// error nothing changes.
pub fn rebuild_fts(db: &mut Tables, space: &str, literals: &Vec<(String, String)>) -> (r: Result<
    (),
    BrainError,
>)
    ensures
        match index_rows(old(db).deep_view(), space@, literals.deep_view()) {
            Err(e) => fails_with(r, e) && final(db).deep_view() == old(db).deep_view(),
            Ok(rows) => r is Ok && final(db).deep_view() == reindexed(
                old(db).deep_view(),
                space@,
                rows,
            ),
        },
{
    let mut rendered = match list_statement_rows(db, space, literals) {
        Ok(v) => v,
        Err(e) => {
            return Err(e);
        },
    };
    let mut rows = pick(
        &db.episodes,
        |e: &EpisodeRow| -> (b: bool)
            ensures
                b == is_searchable(space@)(e.deep_view())
            {
                str_eq(e.space.as_str(), space) && e.redacted_at.is_none() && !str_eq(
                    e.kind.as_str(),
                    "declaration",
                )
            },
        |e: &EpisodeRow| -> (f: FtsRow)
            ensures
                f.deep_view() == episode_index_row(space@)(e.deep_view())
            {
                FtsRow {
                    body: e.content.clone(),
                    space: space.to_owned(),
                    target_kind: "episode".to_owned(),
                    target_id: e.id.clone(),
                }
            },
        Ghost(is_searchable(space@)),
        Ghost(episode_index_row(space@)),
    );
    let mut surfaces = pick(
        &db.keys,
        |k: &EntityKey| -> (b: bool)
            ensures
                b == key_in(space@)(k.deep_view())
            { str_eq(k.space.as_str(), space) },
        |k: &EntityKey| -> (f: FtsRow)
            ensures
                f.deep_view() == surface_row(space@)(k.deep_view())
            {
                FtsRow {
                    body: k.surface.clone(),
                    space: space.to_owned(),
                    target_kind: "entity".to_owned(),
                    target_id: k.entity.clone(),
                }
            },
        Ghost(key_in(space@)),
        Ghost(surface_row(space@)),
    );
    let ghost a = rows.deep_view();
    let ghost b = rendered.deep_view();
    let ghost c = surfaces.deep_view();
    rows.append(&mut rendered);
    rows.append(&mut surfaces);
    assert(rows.deep_view() =~= a + b + c);
    replace_index(&mut db.fts_word, space, &rows);
    replace_index(&mut db.fts_ngram, space, &rows);
    Ok(())
}

/// Rebuilding the indexes of a space twice is rebuilding them once.
pub proof fn law_rebuild_is_idempotent(
    db: TablesView,
    space: Seq<char>,
    literals: Seq<(Seq<char>, Seq<char>)>,
    rows: Seq<FtsRowView>,
)
    requires
        index_rows(db, space, literals) == Ok::<Seq<FtsRowView>, BrainErrorView>(rows),
    ensures
        index_rows(reindexed(db, space, rows), space, literals) == Ok::<
            Seq<FtsRowView>,
            BrainErrorView,
        >(rows),
        reindexed(reindexed(db, space, rows), space, rows) == reindexed(db, space, rows),
{
    let after = reindexed(db, space, rows);
    lemma_statement_rows_frame(
        db,
        after,
        space,
        db.statements.filter(statement_in(space)),
        literals,
    );
    lemma_rows_in_space(db, space, literals, rows);
    lemma_reindex_again(db, space, rows);
}

/// Putting the same rows of a space into the indexes again changes nothing.
proof fn lemma_reindex_again(db: TablesView, space: Seq<char>, rows: Seq<FtsRowView>)
    requires
        forall|i: int| 0 <= i < rows.len() ==> (#[trigger] rows[i]).space == space,
    ensures
        reindexed(reindexed(db, space, rows), space, rows) == reindexed(db, space, rows),
{
    let keep = |f: FtsRowView| f.space != space;
    assert(forall|i: int| 0 <= i < rows.len() ==> !keep(#[trigger] rows[i]));
    lemma_replace_again(db.fts_word, rows, keep);
    lemma_replace_again(db.fts_ngram, rows, keep);
}

/// Rendering depends on entities and keys alone.
proof fn lemma_statement_rows_frame(
    db: TablesView,
    after: TablesView,
    space: Seq<char>,
    statements: Seq<StatementView>,
    literals: Seq<(Seq<char>, Seq<char>)>,
)
    requires
        after.entities == db.entities,
        after.keys == db.keys,
    ensures
        statement_rows(after, space, statements, literals) == statement_rows(
            db,
            space,
            statements,
            literals,
        ),
    decreases statements.len(),
{
    if statements.len() > 0 {
        lemma_statement_rows_frame(db, after, space, statements.drop_last(), literals);
    }
}

proof fn lemma_statement_rows_space(
    db: TablesView,
    space: Seq<char>,
    statements: Seq<StatementView>,
    literals: Seq<(Seq<char>, Seq<char>)>,
)
    ensures
        statement_rows(db, space, statements, literals) matches Ok(rows) ==> forall|i: int|
            0 <= i < rows.len() ==> (#[trigger] rows[i]).space == space,
    decreases statements.len(),
{
    if statements.len() > 0 {
        lemma_statement_rows_space(db, space, statements.drop_last(), literals);
    }
}

proof fn lemma_rows_in_space(
    db: TablesView,
    space: Seq<char>,
    literals: Seq<(Seq<char>, Seq<char>)>,
    rows: Seq<FtsRowView>,
)
    requires
        index_rows(db, space, literals) == Ok::<Seq<FtsRowView>, BrainErrorView>(rows),
    ensures
        forall|i: int| 0 <= i < rows.len() ==> (#[trigger] rows[i]).space == space,
{
    lemma_statement_rows_space(db, space, db.statements.filter(statement_in(space)), literals);
}

/// Dropping the rows that were added, and adding them again, changes nothing.
proof fn lemma_replace_again(
    index: Seq<FtsRowView>,
    rows: Seq<FtsRowView>,
    keep: spec_fn(FtsRowView) -> bool,
)
    requires
        forall|i: int| 0 <= i < rows.len() ==> !keep(#[trigger] rows[i]),
    ensures
        (index.filter(keep) + rows).filter(keep) == index.filter(keep),
{
    Seq::filter_distributes_over_add(index.filter(keep), rows, keep);
    assert(rows.all(|f: FtsRowView| !keep(f)));
    rows.lemma_all_neg_filter_empty(keep);
    assert(index.filter(keep).filter(keep) =~= index.filter(keep)) by {
        crate::redaction::lemma_filter_twice(index, keep, keep);
    }
    assert(index.filter(keep) + rows.filter(keep) =~= index.filter(keep));
}

/// Selects the statements about a subject in a space, by id.
pub open spec fn is_subject_statement(
    space: Seq<char>,
    entity: Seq<char>,
    statement: Seq<char>,
) -> spec_fn(StatementView) -> bool {
    |s: StatementView| s.id == statement && s.space == space && s.subject == entity
}

/// Selects the assertions about a subject in a space.
pub open spec fn is_activity(
    db: TablesView,
    space: Seq<char>,
    entity: Seq<char>,
) -> spec_fn(AssertionView) -> bool {
    |a: AssertionView|
        some_where(db.statements, is_subject_statement(space, entity, a.statement))
}

/// The time an entity was last active: when the latest assertion about it was
/// recorded.
pub open spec fn last_activity_of(
    db: TablesView,
    space: Seq<char>,
    entity: Seq<char>,
) -> Option<Timestamp> {
    let found = db.assertions.filter(is_activity(db, space, entity));
    if found.len() == 0 {
        None
    } else {
        Some(crate::timeline::latest_record(found))
    }
}

/// An entity with its last activity brought up to date.
pub open spec fn refreshed(db: TablesView, space: Seq<char>) -> spec_fn(EntityView) -> EntityView {
    |e: EntityView| EntityView { last_activity: last_activity_of(db, space, e.id), ..e }
}

/// Rebuild the last activity of every entity of a space.
pub fn rebuild_salience(db: &mut Tables, space: &str)
    ensures
        final(db).deep_view() == (TablesView {
            entities: updated(
                old(db).deep_view().entities,
                entity_in(space@),
                refreshed(old(db).deep_view(), space@),
            ),
            ..old(db).deep_view()
        }),
{
    let ghost view = db.deep_view();
    let statements = dup_rows(&db.statements);
    let assertions = dup_rows(&db.assertions);
    let _n: usize = update(
        &mut db.entities,
        |e: &Entity| -> (b: bool)
            ensures
                b == entity_in(space@)(e.deep_view())
            { str_eq(e.space.as_str(), space) },
        |e: &Entity| -> (y: Entity)
            ensures
                y.deep_view() == refreshed(view, space@)(e.deep_view())
            {
                let found = select(
                    &assertions,
                    |a: &Assertion| -> (b: bool)
                        ensures
                            b == is_activity(view, space@, e.id@)(a.deep_view())
                        {
                            let hit = find(
                                &statements,
                                |s: &Statement| -> (b: bool)
                                    ensures
                                        b == is_subject_statement(
                                            space@,
                                            e.id@,
                                            a.statement@,
                                        )(s.deep_view())
                                    {
                                        str_eq(s.id.as_str(), a.statement.as_str()) && str_eq(
                                            s.space.as_str(),
                                            space,
                                        ) && str_eq(s.subject.as_str(), e.id.as_str())
                                    },
                                Ghost(is_subject_statement(space@, e.id@, a.statement@)),
                            );
                            hit.is_some()
                        },
                    Ghost(is_activity(view, space@, e.id@)),
                );
                assert(found.deep_view().len() == found.len());
                let mut y = e.dup();
                y.last_activity = if found.len() == 0 {
                    None
                } else {
                    Some(crate::timeline::latest_of(&found))
                };
                y
            },
        Ghost(entity_in(space@)),
        Ghost(refreshed(view, space@)),
    );
}

/// A text that is turned into a lexical vector, and what it stands for.
#[derive(Debug)]
pub struct VectorText {
    pub target_kind: String,
    pub target_id: String,
    pub text: String,
}

/// [`VectorText`] as a mathematical value.
#[verifier::ext_equal]
pub struct VectorTextView {
    pub target_kind: Seq<char>,
    pub target_id: Seq<char>,
    pub text: Seq<char>,
}

impl DeepView for VectorText {
    type V = VectorTextView;

    open spec fn deep_view(&self) -> VectorTextView {
        VectorTextView {
            target_kind: self.target_kind@,
            target_id: self.target_id@,
            text: self.text@,
        }
    }
}

/// What an index row gives to the vectors.
pub open spec fn vector_text() -> spec_fn(FtsRowView) -> VectorTextView {
    |f: FtsRowView|
        VectorTextView { target_kind: f.target_kind, target_id: f.target_id, text: f.body }
}

/// The texts that are turned into lexical vectors: live episodes and rendered
/// statements.
pub open spec fn vector_texts(
    db: TablesView,
    space: Seq<char>,
    literals: Seq<(Seq<char>, Seq<char>)>,
) -> Result<Seq<VectorTextView>, BrainErrorView> {
    match statement_rows(db, space, db.statements.filter(statement_in(space)), literals) {
        Err(e) => Err(e),
        Ok(statements) => Ok(
            (db.episodes.filter(is_searchable(space)).map_values(episode_index_row(space))
                + statements).map_values(vector_text()),
        ),
    }
}

/// The texts that the lexical vectors of a space are made from.
pub fn tfidf_texts(db: &Tables, space: &str, literals: &Vec<(String, String)>) -> (r: Result<
    Vec<VectorText>,
    BrainError,
>)
    ensures
        match vector_texts(db.deep_view(), space@, literals.deep_view()) {
            Ok(v) => r is Ok && r->Ok_0.deep_view() == v,
            Err(e) => fails_with(r, e),
        },
{
    let mut rendered = match list_statement_rows(db, space, literals) {
        Ok(v) => v,
        Err(e) => {
            return Err(e);
        },
    };
    let mut rows = pick(
        &db.episodes,
        |e: &EpisodeRow| -> (b: bool)
            ensures
                b == is_searchable(space@)(e.deep_view())
            {
                str_eq(e.space.as_str(), space) && e.redacted_at.is_none() && !str_eq(
                    e.kind.as_str(),
                    "declaration",
                )
            },
        |e: &EpisodeRow| -> (f: FtsRow)
            ensures
                f.deep_view() == episode_index_row(space@)(e.deep_view())
            {
                FtsRow {
                    body: e.content.clone(),
                    space: space.to_owned(),
                    target_kind: "episode".to_owned(),
                    target_id: e.id.clone(),
                }
            },
        Ghost(is_searchable(space@)),
        Ghost(episode_index_row(space@)),
    );
    let ghost a = rows.deep_view();
    let ghost b = rendered.deep_view();
    rows.append(&mut rendered);
    assert(rows.deep_view() =~= a + b);
    Ok(
        map_rows(
            &rows,
            |f: &FtsRow| -> (v: VectorText)
                ensures
                    v.deep_view() == vector_text()(f.deep_view())
                {
                    VectorText {
                        target_kind: f.target_kind.clone(),
                        target_id: f.target_id.clone(),
                        text: f.body.clone(),
                    }
                },
            Ghost(vector_text()),
        ),
    )
}

/// Selects the vector of a target in a space.
pub open spec fn is_vector(v: VectorRowView) -> spec_fn(VectorRowView) -> bool {
    |x: VectorRowView|
        x.space == v.space && x.target_kind == v.target_kind && x.target_id == v.target_id
}

/// Vectors with others put in, each in the place of the one of its target.
pub open spec fn with_vectors(rows: Seq<VectorRowView>, new: Seq<VectorRowView>) -> Seq<
    VectorRowView,
>
    decreases new.len(),
{
    if new.len() == 0 {
        rows
    } else {
        or_replace(with_vectors(rows, new.drop_last()), is_vector(new.last()), new.last())
    }
}

/// Replaces the lexical vectors of a space.
pub fn rebuild_tfidf(db: &mut Tables, space: &str, vectors: &Vec<VectorRow>)
    ensures
        final(db).deep_view() == (TablesView {
            tfidf_vectors: with_vectors(
                old(db).deep_view().tfidf_vectors.filter(|v: VectorRowView| v.space != space@),
                vectors.deep_view(),
            ),
            ..old(db).deep_view()
        }),
{
    let ghost first = db.deep_view();
    let ghost all = vectors.deep_view();
    delete(
        &mut db.tfidf_vectors,
        |v: &VectorRow| -> (gone: bool)
            ensures
                gone == (v.deep_view().space == space@)
            { str_eq(v.space.as_str(), space) },
        Ghost(|v: VectorRowView| v.space != space@),
    );
    let ghost kept = db.tfidf_vectors.deep_view();
    let mut i: usize = 0;
    assert(all.take(0) =~= Seq::empty());
    while i < vectors.len()
        invariant
            i <= vectors.len(),
            all == vectors.deep_view(),
            db.deep_view() == (TablesView {
                tfidf_vectors: with_vectors(kept, all.take(i as int)),
                ..first
            }),
        decreases vectors.len() - i,
    {
        let ghost v = all[i as int];
        proof {
            assert(all.take(i + 1).drop_last() =~= all.take(i as int));
            assert(all.take(i + 1).last() == v);
            assert(v == vectors[i as int].deep_view());
        }
        insert_or_replace(
            &mut db.tfidf_vectors,
            vectors[i].dup(),
            |x: &VectorRow| -> (same: bool)
                ensures
                    same == is_vector(v)(x.deep_view())
                {
                    str_eq(x.space.as_str(), vectors[i].space.as_str()) && str_eq(
                        x.target_kind.as_str(),
                        vectors[i].target_kind.as_str(),
                    ) && str_eq(x.target_id.as_str(), vectors[i].target_id.as_str())
                },
            Ghost(is_vector(v)),
        );
        i = i + 1;
    }
    assert(all.take(i as int) =~= all);
}

/// An episode that is split into chunks, with the surfaces that are mentioned
/// in it.
#[derive(Debug)]
pub struct ChunkInput {
    pub episode_id: String,
    pub content: String,
    pub occurred_at: Timestamp,
    pub source_kind: String,
    pub mentions: Vec<String>,
}

/// [`ChunkInput`] as a mathematical value.
#[verifier::ext_equal]
pub struct ChunkInputView {
    pub episode_id: Seq<char>,
    pub content: Seq<char>,
    pub occurred_at: Timestamp,
    pub source_kind: Seq<char>,
    pub mentions: Seq<Seq<char>>,
}

impl DeepView for ChunkInput {
    type V = ChunkInputView;

    open spec fn deep_view(&self) -> ChunkInputView {
        ChunkInputView {
            episode_id: self.episode_id@,
            content: self.content@,
            occurred_at: self.occurred_at,
            source_kind: self.source_kind@,
            mentions: self.mentions.deep_view(),
        }
    }
}

/// Selects the live episodes of a space.
pub open spec fn is_live_episode(space: Seq<char>) -> spec_fn(EpisodeRowView) -> bool {
    |e: EpisodeRowView| e.space == space && e.redacted_at is None
}

/// Selects an assertion of an episode by id, where its statement is in the
/// space.
pub open spec fn is_assertion_in(
    db: TablesView,
    space: Seq<char>,
    episode: Seq<char>,
    assertion: Seq<char>,
) -> spec_fn(AssertionView) -> bool {
    |a: AssertionView|
        a.id == assertion && a.episode == episode && some_where(
            db.statements,
            crate::explain::is_statement(space, a.statement),
        )
}

/// Selects the mentions in an episode's assertions about a space.
pub open spec fn mentioned_in_episode(
    db: TablesView,
    space: Seq<char>,
    episode: Seq<char>,
) -> spec_fn(MentionView) -> bool {
    |m: MentionView|
        some_where(db.assertions, is_assertion_in(db, space, episode, m.assertion))
}

/// The surfaces that are mentioned in an episode, in order, each once.
pub open spec fn episode_mentions(
    db: TablesView,
    space: Seq<char>,
    episode: Seq<char>,
) -> Seq<Seq<char>> {
    ordered(
        distinct(
            db.mentions.filter(mentioned_in_episode(db, space, episode)).map_values(
                crate::query::mention_surface(),
            ),
        ),
        by_text(),
    )
}

/// An episode as it is split into chunks.
pub open spec fn chunk_input(
    db: TablesView,
    space: Seq<char>,
) -> spec_fn(EpisodeRowView) -> ChunkInputView {
    |e: EpisodeRowView|
        ChunkInputView {
            episode_id: e.id,
            content: e.content,
            occurred_at: e.occurred_at,
            source_kind: e.source_kind,
            mentions: episode_mentions(db, space, e.id),
        }
}

fn mentions_of(db: &Tables, space: &str, episode: &str) -> (r: Vec<String>)
    ensures
        r.deep_view() == episode_mentions(db.deep_view(), space@, episode@),
{
    let ghost view = db.deep_view();
    sorted_texts(
        unique_texts(
            pick(
                &db.mentions,
                |m: &Mention| -> (b: bool)
                    ensures
                        b == mentioned_in_episode(view, space@, episode@)(m.deep_view())
                    {
                        let hit = find(
                            &db.assertions,
                            |a: &Assertion| -> (b: bool)
                                ensures
                                    b == is_assertion_in(
                                        view,
                                        space@,
                                        episode@,
                                        m.assertion@,
                                    )(a.deep_view())
                                {
                                    let statement = find(
                                        &db.statements,
                                        |s: &Statement| -> (b: bool)
                                            ensures
                                                b == crate::explain::is_statement(
                                                    space@,
                                                    a.statement@,
                                                )(s.deep_view())
                                            {
                                                str_eq(s.space.as_str(), space) && str_eq(
                                                    s.id.as_str(),
                                                    a.statement.as_str(),
                                                )
                                            },
                                        Ghost(
                                            crate::explain::is_statement(space@, a.statement@),
                                        ),
                                    );
                                    str_eq(a.id.as_str(), m.assertion.as_str()) && str_eq(
                                        a.episode.as_str(),
                                        episode,
                                    ) && statement.is_some()
                                },
                            Ghost(is_assertion_in(view, space@, episode@, m.assertion@)),
                        );
                        hit.is_some()
                    },
                |m: &Mention| -> (s: String)
                    ensures
                        s.deep_view() == crate::query::mention_surface()(m.deep_view())
                    { m.surface.clone() },
                Ghost(mentioned_in_episode(view, space@, episode@)),
                Ghost(crate::query::mention_surface()),
            ),
        ),
    )
}

/// The live episodes of a space as they are split into chunks, by sequence
/// number.
pub fn chunk_inputs(db: &Tables, space: &str) -> (r: Vec<ChunkInput>)
    ensures
        r.deep_view() == ordered(
            db.deep_view().episodes.filter(is_live_episode(space@)),
            by_seq(),
        ).map_values(chunk_input(db.deep_view(), space@)),
{
    let ghost view = db.deep_view();
    let live = order(
        select(
            &db.episodes,
            |e: &EpisodeRow| -> (b: bool)
                ensures
                    b == is_live_episode(space@)(e.deep_view())
                { str_eq(e.space.as_str(), space) && e.redacted_at.is_none() },
            Ghost(is_live_episode(space@)),
        ),
        |a: &EpisodeRow, b: &EpisodeRow| -> (le: bool)
            ensures
                le == by_seq()(a.deep_view(), b.deep_view())
            { a.seq <= b.seq },
        Ghost(by_seq()),
    );
    map_rows(
        &live,
        |e: &EpisodeRow| -> (c: ChunkInput)
            ensures
                c.deep_view() == chunk_input(view, space@)(e.deep_view())
            {
                ChunkInput {
                    episode_id: e.id.clone(),
                    content: e.content.clone(),
                    occurred_at: e.occurred_at,
                    source_kind: e.source_kind.clone(),
                    mentions: mentions_of(db, space, e.id.as_str()),
                }
            },
        Ghost(chunk_input(view, space@)),
    )
}

/// Selects the chunk with the given id.
pub open spec fn chunk_row_has_id(id: Seq<char>) -> spec_fn(ChunkRowView) -> bool {
    |c: ChunkRowView| c.id == id
}

/// Chunks with others put in, each in the place of the one with its id.
pub open spec fn with_chunks(rows: Seq<ChunkRowView>, new: Seq<ChunkRowView>) -> Seq<ChunkRowView>
    decreases new.len(),
{
    if new.len() == 0 {
        rows
    } else {
        or_replace(
            with_chunks(rows, new.drop_last()),
            chunk_row_has_id(new.last().id),
            new.last(),
        )
    }
}

/// Replaces the chunks of a space.
pub fn rebuild_chunks(db: &mut Tables, space: &str, chunks: &Vec<ChunkRow>)
    ensures
        final(db).deep_view() == (TablesView {
            chunks: with_chunks(
                old(db).deep_view().chunks.filter(|c: ChunkRowView| c.space != space@),
                chunks.deep_view(),
            ),
            ..old(db).deep_view()
        }),
{
    let ghost first = db.deep_view();
    let ghost all = chunks.deep_view();
    delete(
        &mut db.chunks,
        |c: &ChunkRow| -> (gone: bool)
            ensures
                gone == (c.deep_view().space == space@)
            { str_eq(c.space.as_str(), space) },
        Ghost(|c: ChunkRowView| c.space != space@),
    );
    let ghost kept = db.chunks.deep_view();
    let mut i: usize = 0;
    assert(all.take(0) =~= Seq::empty());
    while i < chunks.len()
        invariant
            i <= chunks.len(),
            all == chunks.deep_view(),
            db.deep_view() == (TablesView {
                chunks: with_chunks(kept, all.take(i as int)),
                ..first
            }),
        decreases chunks.len() - i,
    {
        let ghost id = all[i as int].id;
        proof {
            assert(all.take(i + 1).drop_last() =~= all.take(i as int));
            assert(all.take(i + 1).last() == all[i as int]);
            assert(all[i as int] == chunks[i as int].deep_view());
        }
        insert_or_replace(
            &mut db.chunks,
            chunks[i].dup(),
            |x: &ChunkRow| -> (same: bool)
                ensures
                    same == chunk_row_has_id(id)(x.deep_view())
                { str_eq(x.id.as_str(), chunks[i].id.as_str()) },
            Ghost(chunk_row_has_id(id)),
        );
        i = i + 1;
    }
    assert(all.take(i as int) =~= all);
}

/// The order of entities: by id.
pub open spec fn by_entity_id() -> spec_fn(EntityView, EntityView) -> bool {
    |a: EntityView, b: EntityView| text_le(a.id, b.id)
}

/// The surface of an entity's canonical key, or nothing.
pub open spec fn canonical_surface(db: TablesView, e: EntityView) -> Seq<char> {
    match e.canonical_key {
        Some(id) => match first_where(db.keys, key_has_id(id)) {
            Some(k) => k.surface,
            None => Seq::empty(),
        },
        None => Seq::empty(),
    }
}

/// A text with each alias that differs from the canonical surface added.
pub open spec fn with_aliases(
    text: Seq<char>,
    canonical: Seq<char>,
    aliases: Seq<Seq<char>>,
) -> Seq<char>
    decreases aliases.len(),
{
    if aliases.len() == 0 {
        text
    } else {
        let before = with_aliases(text, canonical, aliases.drop_last());
        if aliases.last() == canonical {
            before
        } else {
            before + " alias "@ + aliases.last()
        }
    }
}

/// The surface of a key.
pub open spec fn key_surface() -> spec_fn(EntityKeyView) -> Seq<char> {
    |k: EntityKeyView| k.surface
}

/// The id of an entity, and the text that is embedded for it: its type, its
/// canonical surface and its aliases.
pub open spec fn embedding_text(
    db: TablesView,
    space: Seq<char>,
) -> spec_fn(EntityView) -> (Seq<char>, Seq<char>) {
    |e: EntityView|
        {
            let canonical = canonical_surface(db, e);
            (
                e.id,
                with_aliases(
                    e.ty + ": "@ + canonical,
                    canonical,
                    db.keys.filter(names_in(space, e.id)).map_values(key_surface()),
                ),
            )
        }
}

fn make_embedding_text(db: &Tables, space: &str, e: &Entity) -> (r: (String, String))
    ensures
        r.deep_view() == embedding_text(db.deep_view(), space@)(e.deep_view()),
{
    let canonical = match &e.canonical_key {
        Some(id) => match find(
            &db.keys,
            |k: &EntityKey| -> (b: bool)
                ensures
                    b == key_has_id(id@)(k.deep_view())
                { str_eq(k.id.as_str(), id.as_str()) },
            Ghost(key_has_id(id@)),
        ) {
            Some(i) => {
                assert(db.deep_view().keys[i as int] == db.keys[i as int].deep_view());
                db.keys[i].surface.clone()
            },
            None => String::new(),
        },
        None => String::new(),
    };
    let aliases = pick(
        &db.keys,
        |k: &EntityKey| -> (b: bool)
            ensures
                b == names_in(space@, e.id@)(k.deep_view())
            { str_eq(k.space.as_str(), space) && str_eq(k.entity.as_str(), e.id.as_str()) },
        |k: &EntityKey| -> (s: String)
            ensures
                s.deep_view() == key_surface()(k.deep_view())
            { k.surface.clone() },
        Ghost(names_in(space@, e.id@)),
        Ghost(key_surface()),
    );
    let ghost all = aliases.deep_view();
    let mut text = cat3(e.ty.as_str(), ": ", canonical.as_str());
    let ghost first = text@;
    let mut i: usize = 0;
    assert(all.take(0) =~= Seq::empty());
    while i < aliases.len()
        invariant
            i <= aliases.len(),
            all == aliases.deep_view(),
            text@ == with_aliases(first, canonical@, all.take(i as int)),
        decreases aliases.len() - i,
    {
        proof {
            assert(all.take(i + 1).drop_last() =~= all.take(i as int));
            assert(all.take(i + 1).last() == all[i as int]);
        }
        if !str_eq(aliases[i].as_str(), canonical.as_str()) {
            text.push_str(" alias ");
            text.push_str(aliases[i].as_str());
        }
        i = i + 1;
    }
    assert(all.take(i as int) =~= all);
    (e.id.clone(), text)
}

/// Collect entity embedding texts for a space, by entity.
pub fn entity_embedding_texts(db: &Tables, space: &str) -> (r: Vec<(String, String)>)
    ensures
        r.deep_view() == ordered(
            db.deep_view().entities.filter(is_live_in(space@)),
            by_entity_id(),
        ).map_values(embedding_text(db.deep_view(), space@)),
{
    let ghost view = db.deep_view();
    let live = order(
        select(
            &db.entities,
            |e: &Entity| -> (b: bool)
                ensures
                    b == is_live_in(space@)(e.deep_view())
                { str_eq(e.space.as_str(), space) && e.merged_into.is_none() },
            Ghost(is_live_in(space@)),
        ),
        |a: &Entity, b: &Entity| -> (le: bool)
            ensures
                le == by_entity_id()(a.deep_view(), b.deep_view())
            { str_le(a.id.as_str(), b.id.as_str()) },
        Ghost(by_entity_id()),
    );
    map_rows(
        &live,
        |e: &Entity| -> (p: (String, String))
            ensures
                p.deep_view() == embedding_text(view, space@)(e.deep_view())
            { make_embedding_text(db, space, e) },
        Ghost(embedding_text(view, space@)),
    )
}

/// Selects the dense vector of an entity.
pub open spec fn embeds(entity: Seq<char>) -> spec_fn(EntityVectorRowView) -> bool {
    |v: EntityVectorRowView| v.entity_id == entity
}

/// Dense vectors with others put in, each in the place of the one of its
/// entity.
pub open spec fn with_embeddings(
    rows: Seq<EntityVectorRowView>,
    new: Seq<EntityVectorRowView>,
) -> Seq<EntityVectorRowView>
    decreases new.len(),
{
    if new.len() == 0 {
        rows
    } else {
        or_replace(
            with_embeddings(rows, new.drop_last()),
            embeds(new.last().entity_id),
            new.last(),
        )
    }
}

/// Upsert quantized entity embeddings. Returns how many were given.
pub fn upsert_entity_embeddings(db: &mut Tables, items: &Vec<EntityVectorRow>) -> (r: usize)
    ensures
        r == items.len(),
        final(db).deep_view() == (TablesView {
            entity_vectors: with_embeddings(
                old(db).deep_view().entity_vectors,
                items.deep_view(),
            ),
            ..old(db).deep_view()
        }),
{
    let ghost first = db.deep_view();
    let ghost all = items.deep_view();
    let mut i: usize = 0;
    assert(all.take(0) =~= Seq::empty());
    while i < items.len()
        invariant
            i <= items.len(),
            all == items.deep_view(),
            db.deep_view() == (TablesView {
                entity_vectors: with_embeddings(first.entity_vectors, all.take(i as int)),
                ..first
            }),
        decreases items.len() - i,
    {
        let ghost id = all[i as int].entity_id;
        proof {
            assert(all.take(i + 1).drop_last() =~= all.take(i as int));
            assert(all.take(i + 1).last() == all[i as int]);
            assert(all[i as int] == items[i as int].deep_view());
        }
        insert_or_replace(
            &mut db.entity_vectors,
            items[i].dup(),
            |v: &EntityVectorRow| -> (same: bool)
                ensures
                    same == embeds(id)(v.deep_view())
                { str_eq(v.entity_id.as_str(), items[i].entity_id.as_str()) },
            Ghost(embeds(id)),
        );
        i = i + 1;
    }
    assert(all.take(i as int) =~= all);
    items.len()
}

/// Refreshing the rows of an entity twice is refreshing them once.
pub proof fn law_entity_indexing_is_idempotent(
    index: Seq<FtsRowView>,
    keys: Seq<EntityKeyView>,
    space: Seq<char>,
    id: Seq<char>,
)
    ensures
        entity_indexed(entity_indexed(index, keys, space, id), keys, space, id) == entity_indexed(
            index,
            keys,
            space,
            id,
        ),
{
    let keep = |f: FtsRowView| !is_entity_row(space, id)(f);
    let rows = keys.filter(names_in(space, id)).map_values(surface_row(space));
    assert forall|i: int| 0 <= i < rows.len() implies !keep(#[trigger] rows[i]) by {
        keys.lemma_filter_pred(names_in(space, id), i);
    }
    lemma_replace_again(index, rows, keep);
}

} // verus!
