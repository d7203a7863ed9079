//! Entities, keys, merges, statements, assertions, mentions and beliefs.
use vstd::prelude::*;

use crate::error::{fails_with, BrainError, BrainErrorView};
use crate::rows::{
    delete, find, first_n, first_where, holds, insert_or_ignore, insert_or_replace, limited,
    or_ignore, or_replace, order, ordered, select, some_where, update, updated, Row,
};
use crate::tables::{
    Assertion, AssertionView, Belief, BeliefView, Entity, EntityKey, EntityKeyView, EntityMerge,
    EntityMergeView, EntityView, Mention, MentionView, Statement, StatementView, Tables, TablesView,
};
use crate::text::{cat2, cat4, str_eq};

verus! {

/// Selects the entity with the given id.
pub open spec fn entity_has_id(id: Seq<char>) -> spec_fn(EntityView) -> bool {
    |e: EntityView| e.id == id
}

/// Inserts an entity unless its id is taken.
pub fn insert_entity(db: &mut Tables, e: &Entity)
    ensures
        final(db).deep_view() == (TablesView {
            entities: or_ignore(
                old(db).deep_view().entities,
                entity_has_id(e.id@),
                e.deep_view(),
            ),
            ..old(db).deep_view()
        }),
{
    let _new: bool = insert_or_ignore(
        &mut db.entities,
        e.dup(),
        |x: &Entity| -> (b: bool)
            ensures
                b == entity_has_id(e.id@)(x.deep_view())
            { str_eq(x.id.as_str(), e.id.as_str()) },
        Ghost(entity_has_id(e.id@)),
    );
}

fn find_entity(db: &Tables, id: &str) -> (r: Option<usize>)
    ensures
        match r {
            Some(i) => i < db.entities.len() && first_where(
                db.deep_view().entities,
                entity_has_id(id@),
            ) == Some(db.entities[i as int].deep_view()),
            None => first_where(db.deep_view().entities, entity_has_id(id@)) is None,
        },
        r is Some == some_where(db.deep_view().entities, entity_has_id(id@)),
{
    let r = find(
        &db.entities,
        |x: &Entity| -> (b: bool)
            ensures
                b == entity_has_id(id@)(x.deep_view())
            { str_eq(x.id.as_str(), id) },
        Ghost(entity_has_id(id@)),
    );
    r
}

/// The entity with the given id.
pub fn get_entity(db: &Tables, id: &str) -> (r: Option<Entity>)
    ensures
        r.deep_view() == first_where(db.deep_view().entities, entity_has_id(id@)),
{
    match find_entity(db, id) {
        Some(i) => Some(db.entities[i].dup()),
        None => None,
    }
}

/// Where following merges leads from the end of `path`, which holds every id
/// passed so far: to the entity that was not merged away; to an error where an
/// id has no row, or where a merge leads back to an id that was passed.
///
/// The ids passed are distinct, and all but the last have rows, so a path is
/// at most one longer than the table.
pub open spec fn resolved(entities: Seq<EntityView>, path: Seq<Seq<char>>) -> Result<
    Seq<char>,
    BrainErrorView,
>
    decreases entities.len() + 2 - path.len(),
{
    if path.len() > entities.len() + 1 {
        Ok(path.last())
    } else {
        match first_where(entities, entity_has_id(path.last())) {
            None => Err(BrainErrorView::NotFound("entity "@ + path.last())),
            Some(e) => match e.merged_into {
                None => Ok(path.last()),
                Some(target) => if path.contains(target) {
                    Err(
                        BrainErrorView::Corruption(
                            "merge cycle: "@ + path.last() + " → "@ + target,
                        ),
                    )
                } else {
                    resolved(entities, path.push(target))
                },
            },
        }
    }
}

/// Whether `path` is a walk along merges: distinct ids, each but the first the
/// one that the id before it was merged into.
pub open spec fn is_merge_path(entities: Seq<EntityView>, path: Seq<Seq<char>>) -> bool {
    &&& path.len() > 0
    &&& path.no_duplicates()
    &&& forall|i: int|
        0 <= i < path.len() - 1 ==> merged_to(entities, #[trigger] path[i]) == Some(path[i + 1])
}

/// The id that an entity was merged into.
pub open spec fn merged_to(entities: Seq<EntityView>, id: Seq<char>) -> Option<Seq<char>> {
    match first_where(entities, entity_has_id(id)) {
        Some(e) => e.merged_into,
        None => None,
    }
}

/// The id of an entity.
pub open spec fn entity_id_of() -> spec_fn(EntityView) -> Seq<char> {
    |e: EntityView| e.id
}

proof fn lemma_has_row(entities: Seq<EntityView>, id: Seq<char>)
    requires
        first_where(entities, entity_has_id(id)) is Some,
    ensures
        entities.map_values(entity_id_of()).contains(id),
        first_where(entities, entity_has_id(id))->Some_0.id == id,
{
    let p = entity_has_id(id);
    let kept = entities.filter(p);
    entities.lemma_filter_pred(p, 0);
    entities.lemma_filter_contains_rev(p, kept[0]);
    let i = choose|i: int| 0 <= i < entities.len() && entities[i] == kept[0];
    assert(entities.map_values(entity_id_of())[i] == id);
}

proof fn lemma_path_fits(entities: Seq<EntityView>, path: Seq<Seq<char>>)
    requires
        is_merge_path(entities, path),
    ensures
        path.len() <= entities.len() + 1,
{
    let init = path.drop_last();
    let ids = entities.map_values(entity_id_of());
    assert forall|i: int| 0 <= i < init.len() implies ids.contains(#[trigger] init[i]) by {
        assert(merged_to(entities, path[i]) is Some);
        lemma_has_row(entities, path[i]);
    }
    crate::rows::lemma_distinct_within(init, ids);
}

/// Follow the merge chain to the ultimate winner.
pub fn resolve_entity(db: &Tables, id: &str) -> (r: Result<String, BrainError>)
    ensures
        match resolved(db.deep_view().entities, seq![id@]) {
            Ok(w) => r is Ok && r->Ok_0@ == w,
            Err(e) => fails_with(r, e),
        },
{
    let ghost entities = db.deep_view().entities;
    let mut current: String = id.to_owned();
    let mut visited: Vec<String> = Vec::new();
    visited.push(current.clone());
    assert(visited.deep_view() =~= seq![id@]);
    loop
        invariant
            entities == db.deep_view().entities,
            is_merge_path(entities, visited.deep_view()),
            visited.deep_view().last() == current@,
            resolved(entities, visited.deep_view()) == resolved(entities, seq![id@]),
        decreases entities.len() + 2 - visited.len(),
    {
        let ghost path = visited.deep_view();
        proof {
            lemma_path_fits(entities, path);
        }
        let target = match find_entity(db, current.as_str()) {
            None => {
                return Err(BrainError::NotFound(cat2("entity ", current.as_str())));
            },
            Some(i) => match &db.entities[i].merged_into {
                None => {
                    return Ok(current);
                },
                Some(t) => t.clone(),
            },
        };
        if holds(&visited, target.as_str()) {
            return Err(
                BrainError::Corruption(
                    cat4("merge cycle: ", current.as_str(), " → ", target.as_str()),
                ),
            );
        }
        visited.push(target.clone());
        proof {
            assert(visited.deep_view() =~= path.push(target@));
            let grown = path.push(target@);
            assert forall|i: int| 0 <= i < grown.len() - 1 implies merged_to(
                entities,
                #[trigger] grown[i],
            ) == Some(grown[i + 1]) by {
                if i < path.len() - 1 {
                    assert(merged_to(entities, path[i]) == Some(path[i + 1]));
                }
            }
            lemma_path_fits(entities, grown);
        }
        current = target;
    }
}

proof fn lemma_resolved(entities: Seq<EntityView>, path: Seq<Seq<char>>)
    requires
        is_merge_path(entities, path),
    ensures
        resolved(entities, path) matches Ok(w) ==> first_where(
            entities,
            entity_has_id(w),
        ) matches Some(e) && e.merged_into is None,
    decreases entities.len() + 2 - path.len(),
{
    lemma_path_fits(entities, path);
    match first_where(entities, entity_has_id(path.last())) {
        None => {},
        Some(e) => match e.merged_into {
            None => {},
            Some(target) => if !path.contains(target) {
                let grown = path.push(target);
                assert forall|i: int| 0 <= i < grown.len() - 1 implies merged_to(
                    entities,
                    #[trigger] grown[i],
                ) == Some(grown[i + 1]) by {
                    if i < path.len() - 1 {
                        assert(merged_to(entities, path[i]) == Some(path[i + 1]));
                    }
                }
                lemma_resolved(entities, grown);
            },
        },
    }
}

/// The winner that merges lead to was not merged away itself, so following
/// merges from it stays with it.
pub proof fn law_resolution_is_final(entities: Seq<EntityView>, id: Seq<char>)
    ensures
        resolved(entities, seq![id]) matches Ok(w) ==> {
            &&& first_where(entities, entity_has_id(w)) matches Some(e) && e.merged_into is None
            &&& resolved(entities, seq![w]) == Ok::<Seq<char>, BrainErrorView>(w)
        },
{
    lemma_resolved(entities, seq![id]);
    match resolved(entities, seq![id]) {
        Ok(w) => {
            assert(seq![w].last() == w);
            assert(seq![w].len() == 1);
        },
        Err(_) => {},
    }
}

/// Selects the live entities of a space.
pub open spec fn is_live_in(space: Seq<char>) -> spec_fn(EntityView) -> bool {
    |e: EntityView| e.space == space && e.merged_into is None
}

/// The order of entities: the newest first.
pub open spec fn by_newest() -> spec_fn(EntityView, EntityView) -> bool {
    |a: EntityView, b: EntityView| a.created_at.0 >= b.created_at.0
}

/// List entities in a space (not merged-away), newest-first, up to `limit`.
pub fn list_entities(db: &Tables, space: &str, limit: usize) -> (r: Vec<Entity>)
    ensures
        r.deep_view() == first_n(
            ordered(db.deep_view().entities.filter(is_live_in(space@)), by_newest()),
            limit as nat,
        ),
{
    let live = select(
        &db.entities,
        |e: &Entity| -> (b: bool)
            ensures
                b == is_live_in(space@)(e.deep_view())
            { str_eq(e.space.as_str(), space) && e.merged_into.is_none() },
        Ghost(is_live_in(space@)),
    );
    limited(
        order(
            live,
            |a: &Entity, b: &Entity| -> (le: bool)
                ensures
                    le == by_newest()(a.deep_view(), b.deep_view())
                { a.created_at.0 >= b.created_at.0 },
            Ghost(by_newest()),
        ),
        limit,
    )
}

/// Selects the key with the given id.
pub open spec fn key_has_id(id: Seq<char>) -> spec_fn(EntityKeyView) -> bool {
    |k: EntityKeyView| k.id == id
}

/// Inserts a key unless its id is taken. Says whether it was inserted.
pub fn insert_entity_key(db: &mut Tables, k: &EntityKey) -> (r: bool)
    ensures
        final(db).deep_view() == (TablesView {
            keys: or_ignore(old(db).deep_view().keys, key_has_id(k.id@), k.deep_view()),
            ..old(db).deep_view()
        }),
        r == !some_where(old(db).deep_view().keys, key_has_id(k.id@)),
{
    insert_or_ignore(
        &mut db.keys,
        k.dup(),
        |x: &EntityKey| -> (b: bool)
            ensures
                b == key_has_id(k.id@)(x.deep_view())
            { str_eq(x.id.as_str(), k.id.as_str()) },
        Ghost(key_has_id(k.id@)),
    )
}

/// Selects the keys of a type and normalized name in a space.
pub open spec fn is_key_named(
    space: Seq<char>,
    ty: Seq<char>,
    normalized: Seq<char>,
) -> spec_fn(EntityKeyView) -> bool {
    |k: EntityKeyView| k.space == space && k.ty == ty && k.normalized == normalized
}

/// Find entity keys by normalized name + type (exact match).
pub fn find_keys_exact(db: &Tables, space: &str, ty: &str, normalized: &str) -> (r: Vec<EntityKey>)
    ensures
        r.deep_view() == db.deep_view().keys.filter(is_key_named(space@, ty@, normalized@)),
{
    select(
        &db.keys,
        |k: &EntityKey| -> (b: bool)
            ensures
                b == is_key_named(space@, ty@, normalized@)(k.deep_view())
            {
                str_eq(k.space.as_str(), space) && str_eq(k.ty.as_str(), ty) && str_eq(
                    k.normalized.as_str(),
                    normalized,
                )
            },
        Ghost(is_key_named(space@, ty@, normalized@)),
    )
}

/// Selects the keys of a type in a space.
pub open spec fn is_key_of_type(
    space: Seq<char>,
    ty: Seq<char>,
) -> spec_fn(EntityKeyView) -> bool {
    |k: EntityKeyView| k.space == space && k.ty == ty
}

/// Get all keys for an entity type in a space (lexical candidate blocking).
pub fn find_keys_for_type(db: &Tables, space: &str, ty: &str) -> (r: Vec<EntityKey>)
    ensures
        r.deep_view() == db.deep_view().keys.filter(is_key_of_type(space@, ty@)),
{
    select(
        &db.keys,
        |k: &EntityKey| -> (b: bool)
            ensures
                b == is_key_of_type(space@, ty@)(k.deep_view())
            { str_eq(k.space.as_str(), space) && str_eq(k.ty.as_str(), ty) },
        Ghost(is_key_of_type(space@, ty@)),
    )
}

/// Selects the merge with the given id.
pub open spec fn merge_has_id(id: Seq<char>) -> spec_fn(EntityMergeView) -> bool {
    |m: EntityMergeView| m.id == id
}

/// Inserts a merge record unless its id is taken.
pub fn insert_merge(db: &mut Tables, m: &EntityMerge)
    ensures
        final(db).deep_view() == (TablesView {
            merges: or_ignore(old(db).deep_view().merges, merge_has_id(m.id@), m.deep_view()),
            ..old(db).deep_view()
        }),
{
    let _new: bool = insert_or_ignore(
        &mut db.merges,
        m.dup(),
        |x: &EntityMerge| -> (b: bool)
            ensures
                b == merge_has_id(m.id@)(x.deep_view())
            { str_eq(x.id.as_str(), m.id.as_str()) },
        Ghost(merge_has_id(m.id@)),
    );
}

/// An entity with the id it was merged into.
pub open spec fn merged_away(winner: Seq<char>) -> spec_fn(EntityView) -> EntityView {
    |e: EntityView| EntityView { merged_into: Some(winner), ..e }
}

/// Points an entity at the one it was merged into.
pub fn set_merged_into(db: &mut Tables, loser: &str, winner: &str)
    ensures
        final(db).deep_view() == (TablesView {
            entities: updated(
                old(db).deep_view().entities,
                entity_has_id(loser@),
                merged_away(winner@),
            ),
            ..old(db).deep_view()
        }),
{
    let _n: usize = update(
        &mut db.entities,
        |e: &Entity| -> (b: bool)
            ensures
                b == entity_has_id(loser@)(e.deep_view())
            { str_eq(e.id.as_str(), loser) },
        |e: &Entity| -> (y: Entity)
            ensures
                y.deep_view() == merged_away(winner@)(e.deep_view())
            {
                let mut y = e.dup();
                y.merged_into = Some(winner.to_owned());
                y
            },
        Ghost(entity_has_id(loser@)),
        Ghost(merged_away(winner@)),
    );
}

/// Selects the merges whose loser is an entity of the space.
pub open spec fn is_merge_in(db: TablesView, space: Seq<char>) -> spec_fn(EntityMergeView) -> bool {
    |m: EntityMergeView|
        some_where(db.entities, |e: EntityView| e.id == m.loser && e.space == space)
}

/// The order of merges: the most recent first.
pub open spec fn by_latest_decision() -> spec_fn(EntityMergeView, EntityMergeView) -> bool {
    |a: EntityMergeView, b: EntityMergeView| a.decided_at.0 >= b.decided_at.0
}

/// List merge records for entities in a space, most recent first.
pub fn list_merges(db: &Tables, space: &str) -> (r: Vec<EntityMerge>)
    ensures
        r.deep_view() == ordered(
            db.deep_view().merges.filter(is_merge_in(db.deep_view(), space@)),
            by_latest_decision(),
        ),
{
    let ghost view = db.deep_view();
    let found = select(
        &db.merges,
        |m: &EntityMerge| -> (b: bool)
            ensures
                b == is_merge_in(view, space@)(m.deep_view())
            {
                let ghost loser = m.loser@;
                let hit = find(
                    &db.entities,
                    |e: &Entity| -> (b: bool)
                        ensures
                            b == (e.deep_view().id == loser && e.deep_view().space == space@)
                        {
                            str_eq(e.id.as_str(), m.loser.as_str()) && str_eq(
                                e.space.as_str(),
                                space,
                            )
                        },
                    Ghost(|e: EntityView| e.id == loser && e.space == space@),
                );
                hit.is_some()
            },
        Ghost(is_merge_in(view, space@)),
    );
    order(
        found,
        |a: &EntityMerge, b: &EntityMerge| -> (le: bool)
            ensures
                le == by_latest_decision()(a.deep_view(), b.deep_view())
            { a.decided_at.0 >= b.decided_at.0 },
        Ghost(by_latest_decision()),
    )
}

/// Selects the statement with the given id.
pub open spec fn statement_has_id(id: Seq<char>) -> spec_fn(StatementView) -> bool {
    |s: StatementView| s.id == id
}

/// Inserts a statement unless its id is taken.
pub fn insert_statement(db: &mut Tables, s: &Statement)
    ensures
        final(db).deep_view() == (TablesView {
            statements: or_ignore(
                old(db).deep_view().statements,
                statement_has_id(s.id@),
                s.deep_view(),
            ),
            ..old(db).deep_view()
        }),
{
    let _new: bool = insert_or_ignore(
        &mut db.statements,
        s.dup(),
        |x: &Statement| -> (b: bool)
            ensures
                b == statement_has_id(s.id@)(x.deep_view())
            { str_eq(x.id.as_str(), s.id.as_str()) },
        Ghost(statement_has_id(s.id@)),
    );
}

/// A statement with the assertions that were made of it.
#[derive(Debug)]
pub struct StatementEntry {
    pub statement: Statement,
    pub assertions: Vec<Assertion>,
}

/// [`StatementEntry`] as a mathematical value.
#[verifier::ext_equal]
pub struct StatementEntryView {
    pub statement: StatementView,
    pub assertions: Seq<AssertionView>,
}

impl DeepView for StatementEntry {
    type V = StatementEntryView;

    open spec fn deep_view(&self) -> StatementEntryView {
        StatementEntryView {
            statement: self.statement.deep_view(),
            assertions: self.assertions.deep_view(),
        }
    }
}

/// Selects the statements about one subject and predicate in a space.
pub open spec fn is_group_member(
    space: Seq<char>,
    subject: Seq<char>,
    predicate: Seq<char>,
) -> spec_fn(StatementView) -> bool {
    |s: StatementView| s.space == space && s.subject == subject && s.predicate == predicate
}

/// Selects the assertions of a statement.
pub open spec fn asserts(statement: Seq<char>) -> spec_fn(AssertionView) -> bool {
    |a: AssertionView| a.statement == statement
}

/// A statement with its assertions.
pub open spec fn entry_for(db: TablesView) -> spec_fn(StatementView) -> StatementEntryView {
    |s: StatementView|
        StatementEntryView { statement: s, assertions: db.assertions.filter(asserts(s.id)) }
}

/// Selects the entries that hold an assertion.
pub open spec fn is_supported() -> spec_fn(StatementEntryView) -> bool {
    |e: StatementEntryView| e.assertions.len() > 0
}

/// The statements about one subject and predicate that still have assertions,
/// with those assertions.
pub open spec fn statement_group(
    db: TablesView,
    space: Seq<char>,
    subject: Seq<char>,
    predicate: Seq<char>,
) -> Seq<StatementEntryView> {
    db.statements.filter(is_group_member(space, subject, predicate)).map_values(
        entry_for(db),
    ).filter(is_supported())
}

/// Load all statements + their assertions for a (subject, predicate) group.
pub fn get_statement_group(db: &Tables, space: &str, subject: &str, predicate: &str) -> (r: Vec<
    StatementEntry,
>)
    ensures
        r.deep_view() == statement_group(db.deep_view(), space@, subject@, predicate@),
{
    let ghost view = db.deep_view();
    let statements = select(
        &db.statements,
        |s: &Statement| -> (b: bool)
            ensures
                b == is_group_member(space@, subject@, predicate@)(s.deep_view())
            {
                str_eq(s.space.as_str(), space) && str_eq(s.subject.as_str(), subject) && str_eq(
                    s.predicate.as_str(),
                    predicate,
                )
            },
        Ghost(is_group_member(space@, subject@, predicate@)),
    );
    let ghost all = statements.deep_view().map_values(entry_for(view));
    let mut out: Vec<StatementEntry> = Vec::new();
    let mut i: usize = 0;
    proof {
        reveal(Seq::filter);
        assert(out.deep_view() =~= all.take(0).filter(is_supported()));
    }
    while i < statements.len()
        invariant
            i <= statements.len(),
            view == db.deep_view(),
            all == statements.deep_view().map_values(entry_for(view)),
            out.deep_view() == all.take(i as int).filter(is_supported()),
        decreases statements.len() - i,
    {
        let ghost before = out.deep_view();
        let assertions = get_assertions_for_statement(db, statements[i].id.as_str());
        let ghost entry = all[i as int];
        proof {
            assert(entry == entry_for(view)(statements[i as int].deep_view()));
            assert(assertions.deep_view() == entry.assertions);
            assert(all.take(i + 1) =~= all.take(i as int).push(entry));
            all.take(i as int).lemma_filter_push(entry, is_supported());
        }
        if assertions.len() > 0 {
            out.push(StatementEntry { statement: statements[i].dup(), assertions });
            assert(out.deep_view() =~= before.push(entry));
        }
        i = i + 1;
    }
    assert(all.take(i as int) =~= all);
    out
}

/// Selects the assertion with the given id.
pub open spec fn assertion_has_id(id: Seq<char>) -> spec_fn(AssertionView) -> bool {
    |a: AssertionView| a.id == id
}

/// Inserts an assertion unless its id is taken.
pub fn insert_assertion(db: &mut Tables, a: &Assertion)
    ensures
        final(db).deep_view() == (TablesView {
            assertions: or_ignore(
                old(db).deep_view().assertions,
                assertion_has_id(a.id@),
                a.deep_view(),
            ),
            ..old(db).deep_view()
        }),
{
    let _new: bool = insert_or_ignore(
        &mut db.assertions,
        a.dup(),
        |x: &Assertion| -> (b: bool)
            ensures
                b == assertion_has_id(a.id@)(x.deep_view())
            { str_eq(x.id.as_str(), a.id.as_str()) },
        Ghost(assertion_has_id(a.id@)),
    );
}

/// The assertions of a statement.
pub fn get_assertions_for_statement(db: &Tables, statement_id: &str) -> (r: Vec<Assertion>)
    ensures
        r.deep_view() == db.deep_view().assertions.filter(asserts(statement_id@)),
{
    select(
        &db.assertions,
        |a: &Assertion| -> (b: bool)
            ensures
                b == asserts(statement_id@)(a.deep_view())
            { str_eq(a.statement.as_str(), statement_id) },
        Ghost(asserts(statement_id@)),
    )
}

/// Selects the mention with the given id.
pub open spec fn mention_has_id(id: Seq<char>) -> spec_fn(MentionView) -> bool {
    |m: MentionView| m.id == id
}

/// Inserts a mention unless its id is taken.
pub fn insert_mention(db: &mut Tables, m: &Mention)
    ensures
        final(db).deep_view() == (TablesView {
            mentions: or_ignore(
                old(db).deep_view().mentions,
                mention_has_id(m.id@),
                m.deep_view(),
            ),
            ..old(db).deep_view()
        }),
{
    let _new: bool = insert_or_ignore(
        &mut db.mentions,
        m.dup(),
        |x: &Mention| -> (b: bool)
            ensures
                b == mention_has_id(m.id@)(x.deep_view())
            { str_eq(x.id.as_str(), m.id.as_str()) },
        Ghost(mention_has_id(m.id@)),
    );
}

/// Selects the beliefs of the listed statements.
pub open spec fn believes_any(ids: Seq<Seq<char>>) -> spec_fn(BeliefView) -> bool {
    |b: BeliefView| ids.contains(b.statement)
}

/// Selects the belief of a statement that starts at a time.
pub open spec fn is_belief_at(b: BeliefView) -> spec_fn(BeliefView) -> bool {
    |x: BeliefView| x.statement == b.statement && x.valid_from == b.valid_from
}

/// The beliefs once each of `new` was put in the place of the one with its
/// statement and start.
pub open spec fn put_beliefs(beliefs: Seq<BeliefView>, new: Seq<BeliefView>) -> Seq<BeliefView>
    decreases new.len(),
{
    if new.len() == 0 {
        beliefs
    } else {
        or_replace(put_beliefs(beliefs, new.drop_last()), is_belief_at(new.last()), new.last())
    }
}

/// The beliefs once those of the listed statements were replaced.
pub open spec fn replaced_beliefs(
    beliefs: Seq<BeliefView>,
    ids: Seq<Seq<char>>,
    new: Seq<BeliefView>,
) -> Seq<BeliefView> {
    put_beliefs(beliefs.filter(|b: BeliefView| !believes_any(ids)(b)), new)
}

/// Replace all beliefs for a set of statements with new beliefs.
pub fn replace_beliefs(db: &mut Tables, statement_ids: &Vec<String>, beliefs: &Vec<Belief>)
    ensures
        final(db).deep_view() == (TablesView {
            beliefs: replaced_beliefs(
                old(db).deep_view().beliefs,
                statement_ids.deep_view(),
                beliefs.deep_view(),
            ),
            ..old(db).deep_view()
        }),
{
    let ghost first = old(db).deep_view();
    let ghost ids = statement_ids.deep_view();
    let ghost new = beliefs.deep_view();
    delete(
        &mut db.beliefs,
        |b: &Belief| -> (gone: bool)
            ensures
                gone == believes_any(ids)(b.deep_view())
            { holds(statement_ids, b.statement.as_str()) },
        Ghost(|b: BeliefView| !believes_any(ids)(b)),
    );
    let ghost kept = db.beliefs.deep_view();
    let mut i: usize = 0;
    while i < beliefs.len()
        invariant
            i <= beliefs.len(),
            new == beliefs.deep_view(),
            db.deep_view() == (TablesView {
                beliefs: put_beliefs(kept, new.take(i as int)),
                ..first
            }),
        decreases beliefs.len() - i,
    {
        let ghost b = new[i as int];
        proof {
            assert(new.take(i + 1).drop_last() =~= new.take(i as int));
            assert(new.take(i + 1).last() == b);
        }
        insert_or_replace(
            &mut db.beliefs,
            beliefs[i].dup(),
            |x: &Belief| -> (same: bool)
                ensures
                    same == is_belief_at(b)(x.deep_view())
                {
                    str_eq(x.statement.as_str(), beliefs[i].statement.as_str())
                        && x.valid_from.0 == beliefs[i].valid_from.0
                },
            Ghost(is_belief_at(b)),
        );
        i = i + 1;
    }
    assert(new.take(i as int) =~= new);
}

/// Selects the beliefs of a statement.
pub open spec fn believes(statement: Seq<char>) -> spec_fn(BeliefView) -> bool {
    |b: BeliefView| b.statement == statement
}

/// The order of beliefs: by the start of their validity.
pub open spec fn by_start() -> spec_fn(BeliefView, BeliefView) -> bool {
    |a: BeliefView, b: BeliefView| a.valid_from.0 <= b.valid_from.0
}

/// The beliefs of a statement, by the start of their validity.
pub open spec fn beliefs_of(beliefs: Seq<BeliefView>, statement: Seq<char>) -> Seq<BeliefView> {
    ordered(beliefs.filter(believes(statement)), by_start())
}

/// The beliefs of a statement, by the start of their validity.
pub fn get_beliefs_for_statement(db: &Tables, statement_id: &str) -> (r: Vec<Belief>)
    ensures
        r.deep_view() == beliefs_of(db.deep_view().beliefs, statement_id@),
{
    let found = select(
        &db.beliefs,
        |b: &Belief| -> (hit: bool)
            ensures
                hit == believes(statement_id@)(b.deep_view())
            { str_eq(b.statement.as_str(), statement_id) },
        Ghost(believes(statement_id@)),
    );
    order(
        found,
        |a: &Belief, b: &Belief| -> (le: bool)
            ensures
                le == by_start()(a.deep_view(), b.deep_view())
            { a.valid_from.0 <= b.valid_from.0 },
        Ghost(by_start()),
    )
}

} // verus!
