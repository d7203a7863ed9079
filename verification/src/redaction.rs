//! Redaction: the only true delete.
//!
//! Redaction resolves the closure of what is affected, writes an audit entry
//! before acting, tombstones content, deletes assertions, mentions and
//! statements, and records the operation so that it can be replayed. Beliefs of
//! the statements that lost some of their assertions are folded again: the
//! groups to fold are handed out, and what was folded is handed back to
//! [`apply_refolds`].
use vstd::prelude::*;

use crate::error::{fails_with, BrainError, BrainErrorView};
use crate::consolidation::community_in;
use crate::index_ops::key_in;
use crate::knowledge::{
    asserts, believes, entity_id_of, get_statement_group, replace_beliefs, replaced_beliefs,
    statement_group, StatementEntry, StatementEntryView,
};
use crate::ledger::{entity_in, episode_has_id, episode_in, source_in, space_has_id};
use crate::registry::{load_predicate, predicate_named};
use crate::rows::{
    dedupe, delete, distinct, find, first_where, holds, insert_or_ignore, map_rows, or_ignore,
    pick, select, some_where, update, updated, Row,
};
use crate::security::{audit_fits, with_audit, write_audit};
use crate::tables::{
    Assertion, AssertionView, Belief, BeliefView, ChunkRow, ChunkRowView, CommunityRow,
    CommunityRowView, Entity, EntityKey, EntityKeyView, EntityMerge, EntityMergeView,
    EntityVectorRow, EntityVectorRowView, EntityView, EpisodeLink, EpisodeLinkView, EpisodeRow,
    EpisodeRowView, ExtractionFailure, ExtractionFailureView, ExtractionRow, ExtractionRowView,
    FtsRow, FtsRowView, Mention, MentionView, Object, ObjectView, PolicyRow, PolicyRowView,
    RedactionRow, RedactionRowView, SourceRow, SourceRowView, SpaceEntry, SpaceEntryView,
    Statement, StatementView, Tables, TablesView, VectorRow, VectorRowView,
};
use crate::text::{cat2, str_eq};
use crate::time::Timestamp;

verus! {

/// What is to be redacted.
#[derive(Debug)]
pub enum RedactTarget {
    Episode { id: String },
    Entity { space: String, entity_id: String },
    PredicateScoped { space: String, entity_id: String, predicate: String },
    Space { id: String },
}

/// [`RedactTarget`] as a mathematical value.
#[verifier::ext_equal]
pub enum RedactTargetView {
    Episode { id: Seq<char> },
    Entity { space: Seq<char>, entity_id: Seq<char> },
    PredicateScoped { space: Seq<char>, entity_id: Seq<char>, predicate: Seq<char> },
    Space { id: Seq<char> },
}

impl DeepView for RedactTarget {
    type V = RedactTargetView;

    open spec fn deep_view(&self) -> RedactTargetView {
        match self {
            RedactTarget::Episode { id } => RedactTargetView::Episode { id: id@ },
            RedactTarget::Entity { space, entity_id } => RedactTargetView::Entity {
                space: space@,
                entity_id: entity_id@,
            },
            RedactTarget::PredicateScoped { space, entity_id, predicate } =>
                RedactTargetView::PredicateScoped {
                    space: space@,
                    entity_id: entity_id@,
                    predicate: predicate@,
                },
            RedactTarget::Space { id } => RedactTargetView::Space { id: id@ },
        }
    }
}

impl Row for RedactTarget {
    fn dup(&self) -> (r: Self) {
        match self {
            RedactTarget::Episode { id } => RedactTarget::Episode { id: id.clone() },
            RedactTarget::Entity { space, entity_id } => RedactTarget::Entity {
                space: space.clone(),
                entity_id: entity_id.clone(),
            },
            RedactTarget::PredicateScoped { space, entity_id, predicate } =>
                RedactTarget::PredicateScoped {
                    space: space.clone(),
                    entity_id: entity_id.clone(),
                    predicate: predicate.clone(),
                },
            RedactTarget::Space { id } => RedactTarget::Space { id: id.clone() },
        }
    }
}

impl Clone for RedactTarget {
    fn clone(&self) -> (r: Self)
        ensures
            r.deep_view() == self.deep_view(),
    {
        self.dup()
    }
}

/// The ids of everything that a redaction affects.
#[derive(Debug)]
pub struct RedactionClosure {
    pub episodes: Vec<String>,
    pub assertions: Vec<String>,
    pub statements: Vec<String>,
    pub mentions: Vec<String>,
    pub extractions: Vec<String>,
    pub summaries: Vec<String>,
}

/// [`RedactionClosure`] as a mathematical value.
#[verifier::ext_equal]
pub struct RedactionClosureView {
    pub episodes: Seq<Seq<char>>,
    pub assertions: Seq<Seq<char>>,
    pub statements: Seq<Seq<char>>,
    pub mentions: Seq<Seq<char>>,
    pub extractions: Seq<Seq<char>>,
    pub summaries: Seq<Seq<char>>,
}

impl DeepView for RedactionClosure {
    type V = RedactionClosureView;

    open spec fn deep_view(&self) -> RedactionClosureView {
        RedactionClosureView {
            episodes: self.episodes.deep_view(),
            assertions: self.assertions.deep_view(),
            statements: self.statements.deep_view(),
            mentions: self.mentions.deep_view(),
            extractions: self.extractions.deep_view(),
            summaries: self.summaries.deep_view(),
        }
    }
}

impl RedactionClosureView {
    /// Nothing is affected.
    pub open spec fn nothing() -> Self {
        RedactionClosureView {
            episodes: Seq::empty(),
            assertions: Seq::empty(),
            statements: Seq::empty(),
            mentions: Seq::empty(),
            extractions: Seq::empty(),
            summaries: Seq::empty(),
        }
    }
}

/// An empty list of texts.
fn no_texts() -> (r: Vec<String>)
    ensures
        r.deep_view() == Seq::<Seq<char>>::empty(),
{
    let r: Vec<String> = Vec::new();
    assert(r.deep_view() =~= Seq::<Seq<char>>::empty());
    r
}

/// Selects the assertions that an episode made.
pub open spec fn asserted_by(episode: Seq<char>) -> spec_fn(AssertionView) -> bool {
    |a: AssertionView| a.episode == episode
}

/// The id of an assertion.
pub open spec fn assertion_id_of() -> spec_fn(AssertionView) -> Seq<char> {
    |a: AssertionView| a.id
}

/// Selects the mentions in the listed assertions.
pub open spec fn mentioned_in(assertions: Seq<Seq<char>>) -> spec_fn(MentionView) -> bool {
    |m: MentionView| assertions.contains(m.assertion)
}

/// The id of a mention.
pub open spec fn mention_id_of() -> spec_fn(MentionView) -> Seq<char> {
    |m: MentionView| m.id
}

/// Selects the assertions of an episode whose statement no other episode
/// asserts.
pub open spec fn asserted_only_by(
    assertions: Seq<AssertionView>,
    episode: Seq<char>,
) -> spec_fn(AssertionView) -> bool {
    |a: AssertionView|
        a.episode == episode && !some_where(
            assertions,
            asserted_elsewhere(a.statement, episode),
        )
}

/// Selects the assertions of a statement by another episode.
pub open spec fn asserted_elsewhere(
    statement: Seq<char>,
    episode: Seq<char>,
) -> spec_fn(AssertionView) -> bool {
    |b: AssertionView| b.statement == statement && b.episode != episode
}

/// The statement of an assertion.
pub open spec fn statement_of() -> spec_fn(AssertionView) -> Seq<char> {
    |a: AssertionView| a.statement
}

/// Selects the cached responses for an episode.
pub open spec fn extracted_from(episode: Seq<char>) -> spec_fn(ExtractionRowView) -> bool {
    |x: ExtractionRowView| x.episode_id == episode
}

/// The episode of a cached response.
pub open spec fn extraction_episode() -> spec_fn(ExtractionRowView) -> Seq<char> {
    |x: ExtractionRowView| x.episode_id
}

/// What redacting an episode affects: the episode, its assertions with their
/// mentions, the statements that no other episode asserts, and its cached
/// responses.
pub open spec fn episode_closure(db: TablesView, id: Seq<char>) -> RedactionClosureView {
    let assertions = db.assertions.filter(asserted_by(id)).map_values(assertion_id_of());
    RedactionClosureView {
        episodes: seq![id],
        assertions,
        statements: distinct(
            db.assertions.filter(asserted_only_by(db.assertions, id)).map_values(statement_of()),
        ),
        mentions: db.mentions.filter(mentioned_in(assertions)).map_values(mention_id_of()),
        extractions: db.extractions.filter(extracted_from(id)).map_values(extraction_episode()),
        summaries: Seq::empty(),
    }
}

/// Selects the statements in a space that have an entity as subject or object,
/// under one predicate where one is given.
pub open spec fn involves(
    space: Seq<char>,
    entity: Seq<char>,
    predicate: Option<Seq<char>>,
) -> spec_fn(StatementView) -> bool {
    |s: StatementView|
        s.space == space && (s.subject == entity || s.object == ObjectView::Entity(entity))
            && match predicate {
            Some(p) => s.predicate == p,
            None => true,
        }
}

/// The id of a statement.
pub open spec fn statement_id_of() -> spec_fn(StatementView) -> Seq<char> {
    |s: StatementView| s.id
}

/// Selects the assertions of the listed statements.
pub open spec fn asserts_any(statements: Seq<Seq<char>>) -> spec_fn(AssertionView) -> bool {
    |a: AssertionView| statements.contains(a.statement)
}

/// Selects the statements that have assertions, all of them listed.
pub open spec fn loses_all(
    assertions: Seq<AssertionView>,
    listed: Seq<Seq<char>>,
) -> spec_fn(Seq<char>) -> bool {
    |statement: Seq<char>|
        some_where(assertions, crate::knowledge::asserts(statement)) && !some_where(
            assertions,
            asserted_besides(statement, listed),
        )
}

/// Selects the assertions of a statement that are not listed.
pub open spec fn asserted_besides(
    statement: Seq<char>,
    listed: Seq<Seq<char>>,
) -> spec_fn(AssertionView) -> bool {
    |a: AssertionView| a.statement == statement && !listed.contains(a.id)
}

/// What redacting an entity affects: the assertions of the statements that
/// involve it, with their mentions, and those of the statements that thereby
/// lose all their assertions. Episodes stay.
pub open spec fn entity_closure(
    db: TablesView,
    space: Seq<char>,
    entity: Seq<char>,
    predicate: Option<Seq<char>>,
) -> RedactionClosureView {
    let statements = db.statements.filter(involves(space, entity, predicate)).map_values(
        statement_id_of(),
    );
    let assertions = db.assertions.filter(asserts_any(statements)).map_values(assertion_id_of());
    RedactionClosureView {
        episodes: Seq::empty(),
        assertions,
        statements: statements.filter(loses_all(db.assertions, assertions)),
        mentions: db.mentions.filter(mentioned_in(assertions)).map_values(mention_id_of()),
        extractions: Seq::empty(),
        summaries: Seq::empty(),
    }
}

/// Selects the statements of a space.
pub open spec fn statement_in(space: Seq<char>) -> spec_fn(StatementView) -> bool {
    |s: StatementView| s.space == space
}

/// The ids of the statements of a space.
pub open spec fn space_statements(db: TablesView, space: Seq<char>) -> Seq<Seq<char>> {
    db.statements.filter(statement_in(space)).map_values(statement_id_of())
}

/// The ids of the assertions of the statements of a space.
pub open spec fn space_assertions(db: TablesView, space: Seq<char>) -> Seq<Seq<char>> {
    db.assertions.filter(asserts_any(space_statements(db, space))).map_values(assertion_id_of())
}

/// The id of an episode.
pub open spec fn episode_id_of() -> spec_fn(EpisodeRowView) -> Seq<char> {
    |e: EpisodeRowView| e.id
}

/// The ids of the episodes of a space.
pub open spec fn space_episodes(db: TablesView, space: Seq<char>) -> Seq<Seq<char>> {
    db.episodes.filter(episode_in(space)).map_values(episode_id_of())
}

/// Selects the cached responses for the listed episodes.
pub open spec fn extracted_from_any(
    episodes: Seq<Seq<char>>,
) -> spec_fn(ExtractionRowView) -> bool {
    |x: ExtractionRowView| episodes.contains(x.episode_id)
}

/// What redacting a space affects: every episode in the space and every
/// derived row.
pub open spec fn space_closure(db: TablesView, space: Seq<char>) -> RedactionClosureView {
    RedactionClosureView {
        episodes: space_episodes(db, space),
        assertions: space_assertions(db, space),
        statements: space_statements(db, space),
        mentions: db.mentions.filter(mentioned_in(space_assertions(db, space))).map_values(
            mention_id_of(),
        ),
        extractions: distinct(
            db.extractions.filter(extracted_from_any(space_episodes(db, space))).map_values(
                extraction_episode(),
            ),
        ),
        summaries: Seq::empty(),
    }
}

/// What redacting a target affects.
pub open spec fn closure_of(db: TablesView, target: RedactTargetView) -> RedactionClosureView {
    match target {
        RedactTargetView::Episode { id } => episode_closure(db, id),
        RedactTargetView::Entity { space, entity_id } => entity_closure(
            db,
            space,
            entity_id,
            None,
        ),
        RedactTargetView::PredicateScoped { space, entity_id, predicate } => entity_closure(
            db,
            space,
            entity_id,
            Some(predicate),
        ),
        RedactTargetView::Space { id } => space_closure(db, id),
    }
}

fn mentions_in(db: &Tables, assertions: &Vec<String>) -> (r: Vec<String>)
    ensures
        r.deep_view() == db.deep_view().mentions.filter(
            mentioned_in(assertions.deep_view()),
        ).map_values(mention_id_of()),
{
    let ghost ids = assertions.deep_view();
    pick(
        &db.mentions,
        |m: &Mention| -> (b: bool)
            ensures
                b == mentioned_in(ids)(m.deep_view())
            { holds(assertions, m.assertion.as_str()) },
        |m: &Mention| -> (s: String)
            ensures
                s.deep_view() == mention_id_of()(m.deep_view())
            { m.id.clone() },
        Ghost(mentioned_in(ids)),
        Ghost(mention_id_of()),
    )
}

fn assertions_of(db: &Tables, statements: &Vec<String>) -> (r: Vec<String>)
    ensures
        r.deep_view() == db.deep_view().assertions.filter(
            asserts_any(statements.deep_view()),
        ).map_values(assertion_id_of()),
{
    let ghost ids = statements.deep_view();
    pick(
        &db.assertions,
        |a: &Assertion| -> (b: bool)
            ensures
                b == asserts_any(ids)(a.deep_view())
            { holds(statements, a.statement.as_str()) },
        |a: &Assertion| -> (s: String)
            ensures
                s.deep_view() == assertion_id_of()(a.deep_view())
            { a.id.clone() },
        Ghost(asserts_any(ids)),
        Ghost(assertion_id_of()),
    )
}

pub(crate) fn unique_texts(v: Vec<String>) -> (r: Vec<String>)
    ensures
        r.deep_view() == distinct(v.deep_view()),
{
    dedupe(
        v,
        |x: &String, y: &String| -> (b: bool)
            ensures
                b == (x.deep_view() == y.deep_view())
            { str_eq(x.as_str(), y.as_str()) },
    )
}

fn resolve_episode_closure(db: &Tables, episode_id: &str) -> (r: RedactionClosure)
    ensures
        r.deep_view() == episode_closure(db.deep_view(), episode_id@),
{
    let ghost view = db.deep_view();
    let assertions = pick(
        &db.assertions,
        |a: &Assertion| -> (b: bool)
            ensures
                b == asserted_by(episode_id@)(a.deep_view())
            { str_eq(a.episode.as_str(), episode_id) },
        |a: &Assertion| -> (s: String)
            ensures
                s.deep_view() == assertion_id_of()(a.deep_view())
            { a.id.clone() },
        Ghost(asserted_by(episode_id@)),
        Ghost(assertion_id_of()),
    );
    let mentions = mentions_in(db, &assertions);
    let statements = find_unsupported_for_episode(db, episode_id);
    let extractions = pick(
        &db.extractions,
        |x: &ExtractionRow| -> (b: bool)
            ensures
                b == extracted_from(episode_id@)(x.deep_view())
            { str_eq(x.episode_id.as_str(), episode_id) },
        |x: &ExtractionRow| -> (s: String)
            ensures
                s.deep_view() == extraction_episode()(x.deep_view())
            { x.episode_id.clone() },
        Ghost(extracted_from(episode_id@)),
        Ghost(extraction_episode()),
    );
    let mut episodes: Vec<String> = Vec::new();
    episodes.push(episode_id.to_owned());
    assert(episodes.deep_view() =~= seq![episode_id@]);
    RedactionClosure { episodes, assertions, statements, mentions, extractions, summaries: no_texts() }
}

/// The statements that have all their assertions from one episode.
fn find_unsupported_for_episode(db: &Tables, episode_id: &str) -> (r: Vec<String>)
    ensures
        r.deep_view() == distinct(
            db.deep_view().assertions.filter(
                asserted_only_by(db.deep_view().assertions, episode_id@),
            ).map_values(statement_of()),
        ),
{
    let ghost all = db.deep_view().assertions;
    let found = pick(
        &db.assertions,
        |a: &Assertion| -> (b: bool)
            ensures
                b == asserted_only_by(all, episode_id@)(a.deep_view())
            {
                let elsewhere = find(
                    &db.assertions,
                    |x: &Assertion| -> (b: bool)
                        ensures
                            b == asserted_elsewhere(a.statement@, episode_id@)(x.deep_view())
                        {
                            str_eq(x.statement.as_str(), a.statement.as_str()) && !str_eq(
                                x.episode.as_str(),
                                episode_id,
                            )
                        },
                    Ghost(asserted_elsewhere(a.statement@, episode_id@)),
                );
                str_eq(a.episode.as_str(), episode_id) && elsewhere.is_none()
            },
        |a: &Assertion| -> (s: String)
            ensures
                s.deep_view() == statement_of()(a.deep_view())
            { a.statement.clone() },
        Ghost(asserted_only_by(all, episode_id@)),
        Ghost(statement_of()),
    );
    unique_texts(found)
}

fn is_object_entity(o: &Object, entity: &str) -> (r: bool)
    ensures
        r == (o.deep_view() == ObjectView::Entity(entity@)),
{
    match o {
        Object::Entity(e) => str_eq(e.as_str(), entity),
        Object::Literal(_) => false,
    }
}

fn is_involved(s: &Statement, space: &str, entity_id: &str, predicate: Option<&str>) -> (r: bool)
    ensures
        r == involves(
            space@,
            entity_id@,
            match predicate {
                Some(p) => Some(p@),
                None => None,
            },
        )(s.deep_view()),
{
    str_eq(s.space.as_str(), space) && (str_eq(s.subject.as_str(), entity_id)
        || is_object_entity(&s.object, entity_id)) && match predicate {
        Some(p) => str_eq(s.predicate.as_str(), p),
        None => true,
    }
}

/// The view of an optional text slice.
pub open spec fn opt_view(o: Option<&str>) -> Option<Seq<char>> {
    match o {
        Some(s) => Some(s@),
        None => None,
    }
}

fn resolve_entity_closure(
    db: &Tables,
    space: &str,
    entity_id: &str,
    predicate: Option<&str>,
) -> (r: RedactionClosure)
    ensures
        r.deep_view() == entity_closure(db.deep_view(), space@, entity_id@, opt_view(predicate)),
{
    let ghost pred = opt_view(predicate);
    let statements = pick(
        &db.statements,
        |s: &Statement| -> (b: bool)
            ensures
                b == involves(space@, entity_id@, pred)(s.deep_view())
            { is_involved(s, space, entity_id, predicate) },
        |s: &Statement| -> (i: String)
            ensures
                i.deep_view() == statement_id_of()(s.deep_view())
            { s.id.clone() },
        Ghost(involves(space@, entity_id@, pred)),
        Ghost(statement_id_of()),
    );
    let assertions = assertions_of(db, &statements);
    let mentions = mentions_in(db, &assertions);
    let unsupported = find_unsupported_statements(db, &statements, &assertions);
    RedactionClosure {
        episodes: no_texts(),
        assertions,
        statements: unsupported,
        mentions,
        extractions: no_texts(),
        summaries: no_texts(),
    }
}

/// Of the listed statements, those that have assertions, all of them listed.
fn find_unsupported_statements(
    db: &Tables,
    statements: &Vec<String>,
    deleted: &Vec<String>,
) -> (r: Vec<String>)
    ensures
        r.deep_view() == statements.deep_view().filter(
            loses_all(db.deep_view().assertions, deleted.deep_view()),
        ),
{
    let ghost all = db.deep_view().assertions;
    let ghost listed = deleted.deep_view();
    select(
        statements,
        |sid: &String| -> (b: bool)
            ensures
                b == loses_all(all, listed)(sid.deep_view())
            {
                let any = find(
                    &db.assertions,
                    |a: &Assertion| -> (b: bool)
                        ensures
                            b == crate::knowledge::asserts(sid@)(a.deep_view())
                        { str_eq(a.statement.as_str(), sid.as_str()) },
                    Ghost(crate::knowledge::asserts(sid@)),
                );
                let kept = find(
                    &db.assertions,
                    |a: &Assertion| -> (b: bool)
                        ensures
                            b == asserted_besides(sid@, listed)(a.deep_view())
                        {
                            str_eq(a.statement.as_str(), sid.as_str()) && !holds(
                                deleted,
                                a.id.as_str(),
                            )
                        },
                    Ghost(asserted_besides(sid@, listed)),
                );
                any.is_some() && kept.is_none()
            },
        Ghost(loses_all(all, listed)),
    )
}

fn statements_in(db: &Tables, space: &str) -> (r: Vec<String>)
    ensures
        r.deep_view() == space_statements(db.deep_view(), space@),
{
    pick(
        &db.statements,
        |s: &Statement| -> (b: bool)
            ensures
                b == statement_in(space@)(s.deep_view())
            { str_eq(s.space.as_str(), space) },
        |s: &Statement| -> (i: String)
            ensures
                i.deep_view() == statement_id_of()(s.deep_view())
            { s.id.clone() },
        Ghost(statement_in(space@)),
        Ghost(statement_id_of()),
    )
}

fn episodes_in(db: &Tables, space: &str) -> (r: Vec<String>)
    ensures
        r.deep_view() == space_episodes(db.deep_view(), space@),
{
    pick(
        &db.episodes,
        |e: &EpisodeRow| -> (b: bool)
            ensures
                b == episode_in(space@)(e.deep_view())
            { str_eq(e.space.as_str(), space) },
        |e: &EpisodeRow| -> (i: String)
            ensures
                i.deep_view() == episode_id_of()(e.deep_view())
            { e.id.clone() },
        Ghost(episode_in(space@)),
        Ghost(episode_id_of()),
    )
}

fn resolve_space_closure(db: &Tables, space: &str) -> (r: RedactionClosure)
    ensures
        r.deep_view() == space_closure(db.deep_view(), space@),
{
    let episodes = episodes_in(db, space);
    let statements = statements_in(db, space);
    let assertions = assertions_of(db, &statements);
    let mentions = mentions_in(db, &assertions);
    let ghost ids = episodes.deep_view();
    let extractions = unique_texts(
        pick(
            &db.extractions,
            |x: &ExtractionRow| -> (b: bool)
                ensures
                    b == extracted_from_any(ids)(x.deep_view())
                { holds(&episodes, x.episode_id.as_str()) },
            |x: &ExtractionRow| -> (s: String)
                ensures
                    s.deep_view() == extraction_episode()(x.deep_view())
                { x.episode_id.clone() },
            Ghost(extracted_from_any(ids)),
            Ghost(extraction_episode()),
        ),
    );
    RedactionClosure { episodes, assertions, statements, mentions, extractions, summaries: no_texts() }
}

/// Resolve the closure of objects affected by redacting `target`. The tables
/// are only read, so this serves a dry run.
pub fn resolve_closure(db: &Tables, target: &RedactTarget) -> (r: RedactionClosure)
    ensures
        r.deep_view() == closure_of(db.deep_view(), target.deep_view()),
{
    match target {
        RedactTarget::Episode { id } => resolve_episode_closure(db, id.as_str()),
        RedactTarget::Entity { space, entity_id } => resolve_entity_closure(
            db,
            space.as_str(),
            entity_id.as_str(),
            None,
        ),
        RedactTarget::PredicateScoped { space, entity_id, predicate } => resolve_entity_closure(
            db,
            space.as_str(),
            entity_id.as_str(),
            Some(predicate.as_str()),
        ),
        RedactTarget::Space { id } => resolve_space_closure(db, id.as_str()),
    }
}

/// Selects the rows of a full-text index for a space.
pub open spec fn indexed_in(space: Seq<char>) -> spec_fn(FtsRowView) -> bool {
    |f: FtsRowView| f.space == space
}

/// The ids of the entities of a space.
pub open spec fn space_entities(db: TablesView, space: Seq<char>) -> Seq<Seq<char>> {
    db.entities.filter(entity_in(space)).map_values(entity_id_of())
}

/// The ids of the sources of a space.
pub open spec fn space_sources(db: TablesView, space: Seq<char>) -> Seq<Seq<char>> {
    db.sources.filter(source_in(space)).map_values(|s: SourceRowView| s.id)
}

/// The tables without a space: nothing that belongs to it, or that was derived
/// from what belongs to it, is left.
pub open spec fn purged(db: TablesView, space: Seq<char>) -> TablesView {
    let episodes = space_episodes(db, space);
    let statements = space_statements(db, space);
    let assertions = space_assertions(db, space);
    let entities = space_entities(db, space);
    let sources = space_sources(db, space);
    TablesView {
        fts_word: db.fts_word.filter(|f: FtsRowView| f.space != space),
        fts_ngram: db.fts_ngram.filter(|f: FtsRowView| f.space != space),
        tfidf_vectors: db.tfidf_vectors.filter(|v: VectorRowView| v.space != space),
        entity_vectors: db.entity_vectors.filter(
            |v: EntityVectorRowView| !entities.contains(v.entity_id),
        ),
        communities: db.communities.filter(|c: CommunityRowView| c.space != space),
        chunks: db.chunks.filter(|c: ChunkRowView| c.space != space),
        failures: db.failures.filter(
            |f: ExtractionFailureView| !episodes.contains(f.episode_id),
        ),
        extractions: db.extractions.filter(
            |x: ExtractionRowView| !episodes.contains(x.episode_id),
        ),
        links: db.links.filter(
            |l: EpisodeLinkView|
                !(episodes.contains(l.from_episode) || episodes.contains(l.to_episode)),
        ),
        mentions: db.mentions.filter(|m: MentionView| !assertions.contains(m.assertion)),
        assertions: db.assertions.filter(|a: AssertionView| !statements.contains(a.statement)),
        beliefs: db.beliefs.filter(|b: BeliefView| !statements.contains(b.statement)),
        statements: db.statements.filter(|s: StatementView| s.space != space),
        merges: db.merges.filter(
            |m: EntityMergeView| !(entities.contains(m.loser) || entities.contains(m.winner)),
        ),
        keys: db.keys.filter(|k: EntityKeyView| k.space != space),
        entities: db.entities.filter(|e: EntityView| e.space != space),
        policies: db.policies.filter(|p: PolicyRowView| !sources.contains(p.source_id)),
        sources: db.sources.filter(|s: SourceRowView| s.space != space),
        episodes: db.episodes.filter(|e: EpisodeRowView| e.space != space),
        spaces: db.spaces.filter(|s: SpaceEntryView| s.id != space),
        ..db
    }
}

/// The tables with a redaction on record: an entry in the audit log, then one
/// among the redactions unless its id is taken.
pub open spec fn recorded(
    db: TablesView,
    target_json: Seq<char>,
    rid: Seq<char>,
    reason: Seq<char>,
    actor: Seq<char>,
    now: Timestamp,
) -> TablesView {
    let audited = with_audit(db, actor, None, "redact"@, Some(target_json), Some(reason), now);
    TablesView {
        redactions: or_ignore(
            audited.redactions,
            redaction_has_id(rid),
            RedactionRowView { id: rid, target_json, reason, actor, redacted_at: now },
        ),
        ..audited
    }
}

/// Selects the recorded redaction with the given id.
pub open spec fn redaction_has_id(id: Seq<char>) -> spec_fn(RedactionRowView) -> bool {
    |r: RedactionRowView| r.id == id
}

fn record_redaction(
    db: &mut Tables,
    target_json: &str,
    rid: &str,
    reason: &str,
    actor: &str,
    now: Timestamp,
)
    requires
        audit_fits(old(db).deep_view().audit),
    ensures
        final(db).deep_view() == recorded(
            old(db).deep_view(),
            target_json@,
            rid@,
            reason@,
            actor@,
            now,
        ),
{
    write_audit(
        db,
        actor,
        None,
        "redact",
        Some(target_json.to_owned()),
        Some(reason.to_owned()),
        now,
    );
    let row = RedactionRow {
        id: rid.to_owned(),
        target_json: target_json.to_owned(),
        reason: reason.to_owned(),
        actor: actor.to_owned(),
        redacted_at: now,
    };
    let _new: bool = insert_or_ignore(
        &mut db.redactions,
        row,
        |r: &RedactionRow| -> (b: bool)
            ensures
                b == redaction_has_id(rid@)(r.deep_view())
            { str_eq(r.id.as_str(), rid) },
        Ghost(redaction_has_id(rid@)),
    );
}

/// Deletes everything that belongs to a space, children before parents.
fn purge_space_rows(db: &mut Tables, space: &str)
    ensures
        final(db).deep_view() == purged(old(db).deep_view(), space@),
{
    let episodes = episodes_in(db, space);
    let statements = statements_in(db, space);
    let assertions = assertions_of(db, &statements);
    let entities = pick(
        &db.entities,
        |e: &Entity| -> (b: bool)
            ensures
                b == entity_in(space@)(e.deep_view())
            { str_eq(e.space.as_str(), space) },
        |e: &Entity| -> (i: String)
            ensures
                i.deep_view() == entity_id_of()(e.deep_view())
            { e.id.clone() },
        Ghost(entity_in(space@)),
        Ghost(entity_id_of()),
    );
    let sources = pick(
        &db.sources,
        |s: &SourceRow| -> (b: bool)
            ensures
                b == source_in(space@)(s.deep_view())
            { str_eq(s.space.as_str(), space) },
        |s: &SourceRow| -> (i: String)
            ensures
                i.deep_view() == s.deep_view().id
            { s.id.clone() },
        Ghost(source_in(space@)),
        Ghost(|s: SourceRowView| s.id),
    );
    let ghost eps = episodes.deep_view();
    let ghost sts = statements.deep_view();
    let ghost ass = assertions.deep_view();
    let ghost ents = entities.deep_view();
    let ghost srcs = sources.deep_view();
    delete(
        &mut db.fts_word,
        |v: &FtsRow| -> (gone: bool)
            ensures
                gone == (v.deep_view().space == space@)
            { str_eq(v.space.as_str(), space) },
        Ghost(|v: FtsRowView| v.space != space@),
    );
    delete(
        &mut db.fts_ngram,
        |v: &FtsRow| -> (gone: bool)
            ensures
                gone == (v.deep_view().space == space@)
            { str_eq(v.space.as_str(), space) },
        Ghost(|v: FtsRowView| v.space != space@),
    );
    delete(
        &mut db.tfidf_vectors,
        |v: &VectorRow| -> (gone: bool)
            ensures
                gone == (v.deep_view().space == space@)
            { str_eq(v.space.as_str(), space) },
        Ghost(|v: VectorRowView| v.space != space@),
    );
    delete(
        &mut db.entity_vectors,
        |v: &EntityVectorRow| -> (gone: bool)
            ensures
                gone == (ents.contains(v.deep_view().entity_id))
            { holds(&entities, v.entity_id.as_str()) },
        Ghost(|v: EntityVectorRowView| !ents.contains(v.entity_id)),
    );
    delete(
        &mut db.communities,
        |v: &CommunityRow| -> (gone: bool)
            ensures
                gone == (v.deep_view().space == space@)
            { str_eq(v.space.as_str(), space) },
        Ghost(|v: CommunityRowView| v.space != space@),
    );
    delete(
        &mut db.chunks,
        |v: &ChunkRow| -> (gone: bool)
            ensures
                gone == (v.deep_view().space == space@)
            { str_eq(v.space.as_str(), space) },
        Ghost(|v: ChunkRowView| v.space != space@),
    );
    delete(
        &mut db.failures,
        |v: &ExtractionFailure| -> (gone: bool)
            ensures
                gone == (eps.contains(v.deep_view().episode_id))
            { holds(&episodes, v.episode_id.as_str()) },
        Ghost(|v: ExtractionFailureView| !eps.contains(v.episode_id)),
    );
    delete(
        &mut db.extractions,
        |v: &ExtractionRow| -> (gone: bool)
            ensures
                gone == (eps.contains(v.deep_view().episode_id))
            { holds(&episodes, v.episode_id.as_str()) },
        Ghost(|v: ExtractionRowView| !eps.contains(v.episode_id)),
    );
    delete(
        &mut db.links,
        |v: &EpisodeLink| -> (gone: bool)
            ensures
                gone == ((eps.contains(v.deep_view().from_episode) || eps.contains(v.deep_view().to_episode)))
            { holds(&episodes, v.from_episode.as_str()) || holds(&episodes, v.to_episode.as_str()) },
        Ghost(|v: EpisodeLinkView| !(eps.contains(v.from_episode) || eps.contains(v.to_episode))),
    );
    delete(
        &mut db.mentions,
        |v: &Mention| -> (gone: bool)
            ensures
                gone == (ass.contains(v.deep_view().assertion))
            { holds(&assertions, v.assertion.as_str()) },
        Ghost(|v: MentionView| !ass.contains(v.assertion)),
    );
    delete(
        &mut db.assertions,
        |v: &Assertion| -> (gone: bool)
            ensures
                gone == (sts.contains(v.deep_view().statement))
            { holds(&statements, v.statement.as_str()) },
        Ghost(|v: AssertionView| !sts.contains(v.statement)),
    );
    delete(
        &mut db.beliefs,
        |v: &Belief| -> (gone: bool)
            ensures
                gone == (sts.contains(v.deep_view().statement))
            { holds(&statements, v.statement.as_str()) },
        Ghost(|v: BeliefView| !sts.contains(v.statement)),
    );
    delete(
        &mut db.statements,
        |v: &Statement| -> (gone: bool)
            ensures
                gone == (v.deep_view().space == space@)
            { str_eq(v.space.as_str(), space) },
        Ghost(|v: StatementView| v.space != space@),
    );
    delete(
        &mut db.merges,
        |v: &EntityMerge| -> (gone: bool)
            ensures
                gone == ((ents.contains(v.deep_view().loser) || ents.contains(v.deep_view().winner)))
            { holds(&entities, v.loser.as_str()) || holds(&entities, v.winner.as_str()) },
        Ghost(|v: EntityMergeView| !(ents.contains(v.loser) || ents.contains(v.winner))),
    );
    delete(
        &mut db.keys,
        |v: &EntityKey| -> (gone: bool)
            ensures
                gone == (v.deep_view().space == space@)
            { str_eq(v.space.as_str(), space) },
        Ghost(|v: EntityKeyView| v.space != space@),
    );
    delete(
        &mut db.entities,
        |v: &Entity| -> (gone: bool)
            ensures
                gone == (v.deep_view().space == space@)
            { str_eq(v.space.as_str(), space) },
        Ghost(|v: EntityView| v.space != space@),
    );
    delete(
        &mut db.policies,
        |v: &PolicyRow| -> (gone: bool)
            ensures
                gone == (srcs.contains(v.deep_view().source_id))
            { holds(&sources, v.source_id.as_str()) },
        Ghost(|v: PolicyRowView| !srcs.contains(v.source_id)),
    );
    delete(
        &mut db.sources,
        |v: &SourceRow| -> (gone: bool)
            ensures
                gone == (v.deep_view().space == space@)
            { str_eq(v.space.as_str(), space) },
        Ghost(|v: SourceRowView| v.space != space@),
    );
    delete(
        &mut db.episodes,
        |v: &EpisodeRow| -> (gone: bool)
            ensures
                gone == (v.deep_view().space == space@)
            { str_eq(v.space.as_str(), space) },
        Ghost(|v: EpisodeRowView| v.space != space@),
    );
    delete(
        &mut db.spaces,
        |v: &SpaceEntry| -> (gone: bool)
            ensures
                gone == (v.deep_view().id == space@)
            { str_eq(v.id.as_str(), space) },
        Ghost(|v: SpaceEntryView| v.id != space@),
    );
    assert(db.deep_view() =~= purged(old(db).deep_view(), space@));
}

/// A redaction as far as it was carried out.
pub struct Redaction {
    /// What was affected.
    pub closure: RedactionClosure,
    /// How many belief groups are folded again.
    pub beliefs_refolded: usize,
    /// The groups to fold.
    pub refolds: Vec<Refold>,
}

/// A group of statements whose beliefs are to be folded again.
pub struct Refold {
    pub space: String,
    pub subject: String,
    pub predicate: String,
    /// The definition of the predicate, as JSON text.
    pub def_json: String,
    /// The statements of the group that have assertions.
    pub group: Vec<StatementEntry>,
    /// The time as of which to fold.
    pub at: Timestamp,
}

/// [`Refold`] as a mathematical value.
#[verifier::ext_equal]
pub struct RefoldView {
    pub space: Seq<char>,
    pub subject: Seq<char>,
    pub predicate: Seq<char>,
    pub def_json: Seq<char>,
    pub group: Seq<StatementEntryView>,
    pub at: Timestamp,
}

impl DeepView for Refold {
    type V = RefoldView;

    open spec fn deep_view(&self) -> RefoldView {
        RefoldView {
            space: self.space@,
            subject: self.subject@,
            predicate: self.predicate@,
            def_json: self.def_json@,
            group: self.group.deep_view(),
            at: self.at,
        }
    }
}

/// The subject and predicate of a statement.
pub open spec fn pair_of() -> spec_fn(StatementView) -> (Seq<char>, Seq<char>) {
    |s: StatementView| (s.subject, s.predicate)
}

/// The subjects and predicates whose groups a redaction may have changed, and
/// the space they are in: those of the statements that still involve the
/// entity; for an episode, those of every statement in its space.
pub open spec fn groups_to_refold(db: TablesView, target: RedactTargetView) -> (
    Seq<char>,
    Seq<(Seq<char>, Seq<char>)>,
) {
    match target {
        RedactTargetView::Episode { id } => match first_where(db.episodes, episode_has_id(id)) {
            Some(e) => (
                e.space,
                distinct(db.statements.filter(statement_in(e.space)).map_values(pair_of())),
            ),
            None => (Seq::empty(), Seq::empty()),
        },
        RedactTargetView::Entity { space, entity_id } => (
            space,
            distinct(
                db.statements.filter(involves(space, entity_id, None)).map_values(pair_of()),
            ),
        ),
        RedactTargetView::PredicateScoped { space, entity_id, predicate } => (
            space,
            distinct(
                db.statements.filter(involves(space, entity_id, Some(predicate))).map_values(
                    pair_of(),
                ),
            ),
        ),
        RedactTargetView::Space { id: _ } => (Seq::empty(), Seq::empty()),
    }
}

/// The refolds of groups as of a time, in order: groups without assertions are
/// passed over, and a group whose predicate is not registered is an error.
pub open spec fn refolds_for(
    db: TablesView,
    space: Seq<char>,
    pairs: Seq<(Seq<char>, Seq<char>)>,
    at: Timestamp,
) -> Result<Seq<RefoldView>, BrainErrorView>
    decreases pairs.len(),
{
    if pairs.len() == 0 {
        Ok(Seq::empty())
    } else {
        match refolds_for(db, space, pairs.drop_last(), at) {
            Err(e) => Err(e),
            Ok(done) => {
                let (subject, predicate) = pairs.last();
                let group = statement_group(db, space, subject, predicate);
                if group.len() == 0 {
                    Ok(done)
                } else {
                    match first_where(db.predicates, predicate_named(predicate)) {
                        None => Err(
                            BrainErrorView::Invalid("unknown predicate: "@ + predicate),
                        ),
                        Some(p) => Ok(
                            done.push(
                                RefoldView {
                                    space,
                                    subject,
                                    predicate,
                                    def_json: p.def_json,
                                    group,
                                    at,
                                },
                            ),
                        ),
                    }
                }
            },
        }
    }
}

fn collect_refolds(
    db: &Tables,
    space: &str,
    pairs: &Vec<(String, String)>,
    at: Timestamp,
) -> (r: Result<Vec<Refold>, BrainError>)
    ensures
        match refolds_for(db.deep_view(), space@, pairs.deep_view(), at) {
            Ok(v) => r is Ok && r->Ok_0.deep_view() == v,
            Err(e) => fails_with(r, e),
        },
{
    let ghost view = db.deep_view();
    let ghost all = pairs.deep_view();
    let mut out: Vec<Refold> = Vec::new();
    let mut i: usize = 0;
    assert(out.deep_view() =~= Seq::<RefoldView>::empty());
    assert(all.take(0) =~= Seq::empty());
    while i < pairs.len()
        invariant
            i <= pairs.len(),
            view == db.deep_view(),
            all == pairs.deep_view(),
            refolds_for(view, space@, all.take(i as int), at) == Ok::<
                Seq<RefoldView>,
                BrainErrorView,
            >(out.deep_view()),
        decreases pairs.len() - i,
    {
        let ghost before = out.deep_view();
        proof {
            assert(all.take(i + 1).drop_last() =~= all.take(i as int));
            assert(all.take(i + 1).last() == all[i as int]);
            assert(all[i as int] == (pairs[i as int].0@, pairs[i as int].1@));
        }
        let group = get_statement_group(db, space, pairs[i].0.as_str(), pairs[i].1.as_str());
        assert(group.deep_view().len() == group.len());
        if group.len() > 0 {
            match load_predicate(db, pairs[i].1.as_str()) {
                None => {
                    proof {
                        lemma_refold_error(view, space@, all, at, i + 1);
                    }
                    return Err(
                        BrainError::Invalid(cat2("unknown predicate: ", pairs[i].1.as_str())),
                    );
                },
                Some(p) => {
                    let refold = Refold {
                        space: space.to_owned(),
                        subject: pairs[i].0.clone(),
                        predicate: pairs[i].1.clone(),
                        def_json: p.def_json,
                        group,
                        at,
                    };
                    let ghost added = refold.deep_view();
                    out.push(refold);
                    assert(out.deep_view() =~= before.push(added));
                },
            }
        }
        i = i + 1;
    }
    assert(all.take(i as int) =~= all);
    Ok(out)
}

/// An error among the first groups is the error of all.
proof fn lemma_refold_error(
    db: TablesView,
    space: Seq<char>,
    pairs: Seq<(Seq<char>, Seq<char>)>,
    at: Timestamp,
    k: int,
)
    requires
        0 <= k <= pairs.len(),
        refolds_for(db, space, pairs.take(k), at) is Err,
    ensures
        refolds_for(db, space, pairs, at) == refolds_for(db, space, pairs.take(k), at),
    decreases pairs.len() - k,
{
    if k == pairs.len() {
        assert(pairs.take(k) =~= pairs);
    } else {
        assert(pairs.take(k + 1).drop_last() =~= pairs.take(k));
        lemma_refold_error(db, space, pairs, at, k + 1);
    }
}

fn pairs_where(db: &Tables, space: &str, entity: Option<&str>, predicate: Option<&str>) -> (r: Vec<
    (String, String),
>)
    ensures
        r.deep_view() == distinct(
            db.deep_view().statements.filter(
                match entity {
                    Some(e) => involves(space@, e@, opt_view(predicate)),
                    None => statement_in(space@),
                },
            ).map_values(pair_of()),
        ),
{
    let ghost p = match entity {
        Some(e) => involves(space@, e@, opt_view(predicate)),
        None => statement_in(space@),
    };
    let all = pick(
        &db.statements,
        |s: &Statement| -> (b: bool)
            ensures
                b == p(s.deep_view())
            {
                match entity {
                    Some(e) => is_involved(s, space, e, predicate),
                    None => str_eq(s.space.as_str(), space),
                }
            },
        |s: &Statement| -> (i: (String, String))
            ensures
                i.deep_view() == pair_of()(s.deep_view())
            { (s.subject.clone(), s.predicate.clone()) },
        Ghost(p),
        Ghost(pair_of()),
    );
    dedupe(
        all,
        |x: &(String, String), y: &(String, String)| -> (b: bool)
            ensures
                b == (x.deep_view() == y.deep_view())
            { str_eq(x.0.as_str(), y.0.as_str()) && str_eq(x.1.as_str(), y.1.as_str()) },
    )
}

/// The groups whose beliefs are to be folded again.
fn refold_affected(db: &Tables, target: &RedactTarget, at: Timestamp) -> (r: Result<
    Vec<Refold>,
    BrainError,
>)
    ensures
        ({
            let (space, pairs) = groups_to_refold(db.deep_view(), target.deep_view());
            match refolds_for(db.deep_view(), space, pairs, at) {
                Ok(v) => r is Ok && r->Ok_0.deep_view() == v,
                Err(e) => fails_with(r, e),
            }
        }),
{
    match target {
        RedactTarget::Episode { id } => match find(
            &db.episodes,
            |e: &EpisodeRow| -> (b: bool)
                ensures
                    b == episode_has_id(id@)(e.deep_view())
                { str_eq(e.id.as_str(), id.as_str()) },
            Ghost(episode_has_id(id@)),
        ) {
            Some(i) => {
                assert(db.deep_view().episodes[i as int] == db.episodes[i as int].deep_view());
                let space = db.episodes[i].space.clone();
                let pairs = pairs_where(db, space.as_str(), None, None);
                collect_refolds(db, space.as_str(), &pairs, at)
            },
            None => {
                let none: Vec<Refold> = Vec::new();
                assert(none.deep_view() =~= Seq::<RefoldView>::empty());
                Ok(none)
            },
        },
        RedactTarget::Entity { space, entity_id } => {
            let pairs = pairs_where(db, space.as_str(), Some(entity_id.as_str()), None);
            collect_refolds(db, space.as_str(), &pairs, at)
        },
        RedactTarget::PredicateScoped { space, entity_id, predicate } => {
            let pairs = pairs_where(
                db,
                space.as_str(),
                Some(entity_id.as_str()),
                Some(predicate.as_str()),
            );
            collect_refolds(db, space.as_str(), &pairs, at)
        },
        RedactTarget::Space { id: _ } => {
            let none: Vec<Refold> = Vec::new();
            assert(none.deep_view() =~= Seq::<RefoldView>::empty());
            Ok(none)
        },
    }
}

/// Selects the listed episodes that are not redacted yet.
pub open spec fn is_live_among(ids: Seq<Seq<char>>) -> spec_fn(EpisodeRowView) -> bool {
    |e: EpisodeRowView| ids.contains(e.id) && e.redacted_at is None
}

/// An episode with its content gone, compacted or not.
pub open spec fn tombstone(now: Timestamp) -> spec_fn(EpisodeRowView) -> EpisodeRowView {
    |e: EpisodeRowView|
        EpisodeRowView {
            content: "[redacted]"@,
            content_compacted: None,
            redacted_at: Some(now),
            ..e
        }
}

/// A cached response with its text gone.
pub open spec fn blanked() -> spec_fn(ExtractionRowView) -> ExtractionRowView {
    |x: ExtractionRowView| ExtractionRowView { raw_response: "[redacted]"@, ..x }
}

/// The tables with the episodes and cached responses of a closure tombstoned.
pub open spec fn tombstoned(
    db: TablesView,
    c: RedactionClosureView,
    now: Timestamp,
) -> TablesView {
    TablesView {
        episodes: updated(db.episodes, is_live_among(c.episodes), tombstone(now)),
        extractions: updated(db.extractions, extracted_from_any(c.extractions), blanked()),
        ..db
    }
}

/// The tables without the assertions of a closure, their mentions, and the
/// statements that are left unsupported.
pub open spec fn without_closure(db: TablesView, c: RedactionClosureView) -> TablesView {
    TablesView {
        mentions: db.mentions.filter(|m: MentionView| !c.assertions.contains(m.assertion)),
        assertions: db.assertions.filter(|a: AssertionView| !c.assertions.contains(a.id)),
        beliefs: db.beliefs.filter(|b: BeliefView| !c.statements.contains(b.statement)),
        statements: db.statements.filter(|s: StatementView| !c.statements.contains(s.id)),
        ..db
    }
}

fn delete_closure(db: &mut Tables, c: &RedactionClosure)
    ensures
        final(db).deep_view() == without_closure(old(db).deep_view(), c.deep_view()),
{
    let ghost ass = c.assertions.deep_view();
    let ghost sts = c.statements.deep_view();
    delete(
        &mut db.mentions,
        |m: &Mention| -> (gone: bool)
            ensures
                gone == ass.contains(m.deep_view().assertion)
            { holds(&c.assertions, m.assertion.as_str()) },
        Ghost(|m: MentionView| !ass.contains(m.assertion)),
    );
    delete(
        &mut db.assertions,
        |a: &Assertion| -> (gone: bool)
            ensures
                gone == ass.contains(a.deep_view().id)
            { holds(&c.assertions, a.id.as_str()) },
        Ghost(|a: AssertionView| !ass.contains(a.id)),
    );
    delete(
        &mut db.beliefs,
        |b: &Belief| -> (gone: bool)
            ensures
                gone == sts.contains(b.deep_view().statement)
            { holds(&c.statements, b.statement.as_str()) },
        Ghost(|b: BeliefView| !sts.contains(b.statement)),
    );
    delete(
        &mut db.statements,
        |s: &Statement| -> (gone: bool)
            ensures
                gone == sts.contains(s.deep_view().id)
            { holds(&c.statements, s.id.as_str()) },
        Ghost(|s: StatementView| !sts.contains(s.id)),
    );
    assert(db.deep_view() =~= without_closure(old(db).deep_view(), c.deep_view()));
}

fn tombstone_closure(db: &mut Tables, c: &RedactionClosure, now: Timestamp)
    ensures
        final(db).deep_view() == tombstoned(old(db).deep_view(), c.deep_view(), now),
{
    let ghost eps = c.episodes.deep_view();
    let ghost exs = c.extractions.deep_view();
    let _n: usize = update(
        &mut db.episodes,
        |e: &EpisodeRow| -> (b: bool)
            ensures
                b == is_live_among(eps)(e.deep_view())
            { holds(&c.episodes, e.id.as_str()) && e.redacted_at.is_none() },
        |e: &EpisodeRow| -> (y: EpisodeRow)
            ensures
                y.deep_view() == tombstone(now)(e.deep_view())
            {
                let mut y = e.dup();
                y.content = "[redacted]".to_owned();
                y.content_compacted = None;
                y.redacted_at = Some(now);
                y
            },
        Ghost(is_live_among(eps)),
        Ghost(tombstone(now)),
    );
    let _m: usize = update(
        &mut db.extractions,
        |x: &ExtractionRow| -> (b: bool)
            ensures
                b == extracted_from_any(exs)(x.deep_view())
            { holds(&c.extractions, x.episode_id.as_str()) },
        |x: &ExtractionRow| -> (y: ExtractionRow)
            ensures
                y.deep_view() == blanked()(x.deep_view())
            {
                let mut y = x.dup();
                y.raw_response = "[redacted]".to_owned();
                y
            },
        Ghost(extracted_from_any(exs)),
        Ghost(blanked()),
    );
}

/// Whether a closure holds nothing to redact.
pub open spec fn is_nothing(c: RedactionClosureView) -> bool {
    c.assertions.len() == 0 && c.episodes.len() == 0
}

/// The tables after a redaction, before any belief is folded again.
///
/// A target that affects nothing leaves the tables alone, but for a space,
/// whose own row goes. Otherwise the redaction is recorded first; a space is
/// purged; any other target is tombstoned and what it affects is deleted.
pub open spec fn after_redaction(
    db: TablesView,
    target: RedactTargetView,
    target_json: Seq<char>,
    rid: Seq<char>,
    reason: Seq<char>,
    actor: Seq<char>,
    now: Timestamp,
) -> TablesView {
    let c = closure_of(db, target);
    match target {
        RedactTargetView::Space { id } => if is_nothing(c) {
            TablesView { spaces: db.spaces.filter(|s: SpaceEntryView| s.id != id), ..db }
        } else {
            purged(recorded(db, target_json, rid, reason, actor, now), id)
        },
        _ => if is_nothing(c) {
            db
        } else {
            without_closure(
                tombstoned(recorded(db, target_json, rid, reason, actor, now), c, now),
                c,
            )
        },
    }
}

/// The refolds that a redaction leaves to be done.
pub open spec fn refolds_after(
    db: TablesView,
    target: RedactTargetView,
    target_json: Seq<char>,
    rid: Seq<char>,
    reason: Seq<char>,
    actor: Seq<char>,
    now: Timestamp,
) -> Result<Seq<RefoldView>, BrainErrorView> {
    if is_nothing(closure_of(db, target)) {
        Ok(Seq::empty())
    } else {
        let after = after_redaction(db, target, target_json, rid, reason, actor, now);
        let (space, pairs) = groups_to_refold(after, target);
        refolds_for(after, space, pairs, now)
    }
}

/// Execute a redaction. The audit entry and the redaction record come first,
/// then tombstones and deletes. `target_json` is the JSON text of the target
/// and `rid` the id of the record.
///
/// Where a group that must be folded again has an unregistered predicate, the
/// redaction fails and nothing is changed.
pub fn execute_redaction(
    db: &mut Tables,
    target: &RedactTarget,
    target_json: &str,
    rid: &str,
    reason: &str,
    actor: &str,
    now: Timestamp,
) -> (r: Result<Redaction, BrainError>)
    requires
        audit_fits(old(db).deep_view().audit),
    ensures
        ({
            let first = old(db).deep_view();
            let t = target.deep_view();
            match refolds_after(first, t, target_json@, rid@, reason@, actor@, now) {
                Err(e) => fails_with(r, e) && final(db).deep_view() == first,
                Ok(refolds) => {
                    &&& r matches Ok(done)
                    &&& done.closure.deep_view() == closure_of(first, t)
                    &&& done.refolds.deep_view() == refolds
                    &&& done.beliefs_refolded == if t is Episode {
                        0
                    } else {
                        refolds.len()
                    }
                    &&& final(db).deep_view() == after_redaction(
                        first,
                        t,
                        target_json@,
                        rid@,
                        reason@,
                        actor@,
                        now,
                    )
                },
            }
        }),
{
    let ghost first = db.deep_view();
    let closure = resolve_closure(db, target);
    assert(closure.deep_view().assertions.len() == closure.assertions.len());
    assert(closure.deep_view().episodes.len() == closure.episodes.len());
    let none: Vec<Refold> = Vec::new();
    assert(none.deep_view() =~= Seq::<RefoldView>::empty());
    let nothing: bool = closure.assertions.len() == 0 && closure.episodes.len() == 0;
    if let RedactTarget::Space { id } = target {
        if nothing {
            delete(
                &mut db.spaces,
                |s: &SpaceEntry| -> (gone: bool)
                    ensures
                        gone == (s.deep_view().id == id@)
                    { str_eq(s.id.as_str(), id.as_str()) },
                Ghost(|s: SpaceEntryView| s.id != id@),
            );
        } else {
            record_redaction(db, target_json, rid, reason, actor, now);
            purge_space_rows(db, id.as_str());
        }
        return Ok(Redaction { closure, beliefs_refolded: 0, refolds: none });
    }
    if nothing {
        return Ok(Redaction { closure, beliefs_refolded: 0, refolds: none });
    }
    let mut work = db.dup();
    record_redaction(&mut work, target_json, rid, reason, actor, now);
    tombstone_closure(&mut work, &closure, now);
    delete_closure(&mut work, &closure);
    let refolds = match refold_affected(&work, target, now) {
        Ok(v) => v,
        Err(e) => {
            return Err(e);
        },
    };
    assert(refolds.deep_view().len() == refolds.len());
    let count: usize = match target {
        RedactTarget::Episode { id: _ } => 0,
        _ => refolds.len(),
    };
    *db = work;
    Ok(Redaction { closure, beliefs_refolded: count, refolds })
}

/// The tables after the replay of a redaction: what the target affects is
/// deleted. A space never replays: a live space of that id came back after the
/// purge.
pub open spec fn after_replay(db: TablesView, target: RedactTargetView) -> TablesView {
    let c = closure_of(db, target);
    if target is Space || c.assertions.len() == 0 {
        db
    } else {
        without_closure(db, c)
    }
}

/// The refolds that a replay leaves to be done, as of the time of the redaction.
pub open spec fn refolds_after_replay(
    db: TablesView,
    target: RedactTargetView,
    at: Timestamp,
) -> Result<Seq<RefoldView>, BrainErrorView> {
    if target is Space || closure_of(db, target).assertions.len() == 0 {
        Ok(Seq::empty())
    } else {
        let after = after_replay(db, target);
        let (space, pairs) = groups_to_refold(after, target);
        refolds_for(after, space, pairs, at)
    }
}

/// Replay a redaction that was executed at a time. Neither tombstones nor the
/// audit log are touched: they were written when the redaction was executed.
pub fn apply_replay(db: &mut Tables, target: &RedactTarget, at: Timestamp) -> (r: Result<
    Vec<Refold>,
    BrainError,
>)
    ensures
        ({
            let first = old(db).deep_view();
            let t = target.deep_view();
            match refolds_after_replay(first, t, at) {
                Err(e) => fails_with(r, e) && final(db).deep_view() == first,
                Ok(refolds) => r is Ok && r->Ok_0.deep_view() == refolds
                    && final(db).deep_view() == after_replay(first, t),
            }
        }),
{
    let none: Vec<Refold> = Vec::new();
    assert(none.deep_view() =~= Seq::<RefoldView>::empty());
    if let RedactTarget::Space { id: _ } = target {
        return Ok(none);
    }
    let closure = resolve_closure(db, target);
    assert(closure.deep_view().assertions.len() == closure.assertions.len());
    if closure.assertions.len() == 0 {
        return Ok(none);
    }
    let mut work = db.dup();
    delete_closure(&mut work, &closure);
    match refold_affected(&work, target, at) {
        Ok(v) => {
            *db = work;
            Ok(v)
        },
        Err(e) => Err(e),
    }
}

/// The ids of the statements of a group.
pub open spec fn group_ids(group: Seq<StatementEntryView>) -> Seq<Seq<char>> {
    group.map_values(entry_id())
}

/// The id of the statement of an entry.
pub open spec fn entry_id() -> spec_fn(StatementEntryView) -> Seq<char> {
    |e: StatementEntryView| e.statement.id
}

/// The ids of the statements of a group.
pub(crate) fn ids_of_group(group: &Vec<StatementEntry>) -> (r: Vec<String>)
    ensures
        r.deep_view() == group_ids(group.deep_view()),
{
    map_rows(
        group,
        |e: &StatementEntry| -> (s: String)
            ensures
                s.deep_view() == entry_id()(e.deep_view())
            { e.statement.id.clone() },
        Ghost(entry_id()),
    )
}

/// The beliefs once those of each refolded group were replaced by what its
/// fold gave.
pub open spec fn refolded(
    beliefs: Seq<BeliefView>,
    refolds: Seq<RefoldView>,
    folded: Seq<Seq<BeliefView>>,
) -> Seq<BeliefView>
    decreases refolds.len(),
{
    if refolds.len() == 0 {
        beliefs
    } else {
        replaced_beliefs(
            refolded(beliefs, refolds.drop_last(), folded.drop_last()),
            group_ids(refolds.last().group),
            folded.last(),
        )
    }
}

/// Puts the folded beliefs of each group in the place of the old ones.
pub fn apply_refolds(db: &mut Tables, refolds: &Vec<Refold>, folded: &Vec<Vec<Belief>>)
    requires
        refolds.len() == folded.len(),
    ensures
        final(db).deep_view() == (TablesView {
            beliefs: refolded(
                old(db).deep_view().beliefs,
                refolds.deep_view(),
                folded.deep_view(),
            ),
            ..old(db).deep_view()
        }),
{
    let ghost first = old(db).deep_view();
    let ghost rs = refolds.deep_view();
    let ghost fs = folded.deep_view();
    let mut i: usize = 0;
    while i < refolds.len()
        invariant
            i <= refolds.len(),
            refolds.len() == folded.len(),
            rs == refolds.deep_view(),
            fs == folded.deep_view(),
            db.deep_view() == (TablesView {
                beliefs: refolded(first.beliefs, rs.take(i as int), fs.take(i as int)),
                ..first
            }),
        decreases refolds.len() - i,
    {
        proof {
            assert(rs.take(i + 1).drop_last() =~= rs.take(i as int));
            assert(fs.take(i + 1).drop_last() =~= fs.take(i as int));
            assert(rs.take(i + 1).last() == rs[i as int]);
            assert(fs.take(i + 1).last() == fs[i as int]);
            assert(rs[i as int] == refolds[i as int].deep_view());
            assert(fs[i as int] == folded[i as int].deep_view());
        }
        let ids = ids_of_group(&refolds[i].group);
        replace_beliefs(db, &ids, &folded[i]);
        i = i + 1;
    }
    assert(rs.take(i as int) =~= rs);
    assert(fs.take(i as int) =~= fs);
}

/// A kept row is one of the old rows and meets the condition.
pub proof fn lemma_kept<V>(s: Seq<V>, q: spec_fn(V) -> bool)
    ensures
        forall|i: int|
            0 <= i < s.filter(q).len() ==> q(#[trigger] s.filter(q)[i]) && s.contains(
                s.filter(q)[i],
            ),
{
    assert forall|i: int| 0 <= i < s.filter(q).len() implies q(#[trigger] s.filter(q)[i])
        && s.contains(s.filter(q)[i]) by {
        s.lemma_filter_pred(q, i);
        assert(s.filter(q).contains(s.filter(q)[i]));
        s.lemma_filter_contains_rev(q, s.filter(q)[i]);
    }
}

/// What is mapped from a selected row is in the mapped selection.
pub proof fn lemma_picked<V, U>(s: Seq<V>, q: spec_fn(V) -> bool, g: spec_fn(V) -> U, v: V)
    requires
        s.contains(v),
        q(v),
    ensures
        s.filter(q).map_values(g).contains(g(v)),
{
    let i = choose|i: int| 0 <= i < s.len() && s[i] == v;
    s.lemma_filter_contains(q, i);
    let k = choose|k: int| 0 <= k < s.filter(q).len() && s.filter(q)[k] == v;
    assert(s.filter(q).map_values(g)[k] == g(v));
}

/// A selection is empty where no row meets its condition.
pub proof fn lemma_none_kept<V>(s: Seq<V>, q: spec_fn(V) -> bool)
    requires
        forall|i: int| 0 <= i < s.len() ==> !q(#[trigger] s[i]),
    ensures
        s.filter(q).len() == 0,
{
    assert(s.all(|v: V| !q(v)));
    s.lemma_all_neg_filter_empty(q);
}

/// A selection is the whole table where every row meets its condition.
pub proof fn lemma_all_kept<V>(s: Seq<V>, q: spec_fn(V) -> bool)
    requires
        forall|i: int| 0 <= i < s.len() ==> q(#[trigger] s[i]),
    ensures
        s.filter(q) == s,
    decreases s.len(),
{
    reveal(Seq::filter);
    if s.len() > 0 {
        assert(q(s[s.len() - 1]));
        assert forall|i: int| 0 <= i < s.drop_last().len() implies q(
            #[trigger] s.drop_last()[i],
        ) by {
            assert(q(s[i]));
        }
        lemma_all_kept(s.drop_last(), q);
        assert(s =~= s.drop_last().push(s.last()));
    }
}

/// A redaction that finds something to redact leaves exactly one new audit
/// entry, which names the target, the reason and the actor; one that finds
/// nothing leaves none.
pub proof fn law_redaction_is_audited(
    db: TablesView,
    target: RedactTargetView,
    target_json: Seq<char>,
    rid: Seq<char>,
    reason: Seq<char>,
    actor: Seq<char>,
    now: Timestamp,
)
    ensures
        ({
            let after = after_redaction(db, target, target_json, rid, reason, actor, now);
            if is_nothing(closure_of(db, target)) {
                after.audit == db.audit && after.redactions == db.redactions
            } else {
                &&& after.audit == db.audit.push(after.audit.last())
                &&& after.audit.last().operation == "redact"@
                &&& after.audit.last().target == Some(target_json)
                &&& after.audit.last().detail_json == Some(reason)
                &&& after.audit.last().actor == actor
                &&& after.audit.last().ts == now
            }
        }),
{
}

/// After an episode was redacted, no assertion of it is left, its content is
/// gone, compacted or not, and redacting it again finds no assertion.
pub proof fn law_redacted_episode_asserts_nothing(
    db: TablesView,
    id: Seq<char>,
    target_json: Seq<char>,
    rid: Seq<char>,
    reason: Seq<char>,
    actor: Seq<char>,
    now: Timestamp,
)
    ensures
        ({
            let target = RedactTargetView::Episode { id };
            let after = after_redaction(db, target, target_json, rid, reason, actor, now);
            &&& forall|i: int|
                0 <= i < after.assertions.len() ==> (#[trigger] after.assertions[i]).episode != id
            &&& forall|i: int|
                0 <= i < after.episodes.len() && (#[trigger] after.episodes[i]).id == id ==> {
                    &&& after.episodes[i].redacted_at is Some
                    &&& db.episodes[i].redacted_at is None ==> after.episodes[i].content
                        == "[redacted]"@ && after.episodes[i].content_compacted is None
                }
            &&& closure_of(after, target).assertions.len() == 0
            &&& closure_of(after, target).mentions.len() == 0
            &&& closure_of(after, target).statements.len() == 0
        }),
{
    let target = RedactTargetView::Episode { id };
    let c = closure_of(db, target);
    let after = after_redaction(db, target, target_json, rid, reason, actor, now);
    let q = |a: AssertionView| !c.assertions.contains(a.id);
    lemma_kept(db.assertions, q);
    assert forall|i: int| 0 <= i < after.assertions.len() implies (
    #[trigger] after.assertions[i]).episode != id by {
        let a = after.assertions[i];
        assert(after.assertions == db.assertions.filter(q));
        assert(q(a) && db.assertions.contains(a));
        if a.episode == id {
            lemma_picked(db.assertions, asserted_by(id), assertion_id_of(), a);
        }
    }
    assert(c.episodes.contains(id)) by {
        assert(c.episodes[0] == id);
    }
    lemma_none_kept(after.assertions, asserted_by(id));
    lemma_none_kept(after.assertions, asserted_only_by(after.assertions, id));
    let c2 = closure_of(after, target);
    assert(c2.assertions.len() == 0);
    assert forall|i: int| 0 <= i < after.mentions.len() implies !mentioned_in(c2.assertions)(
        #[trigger] after.mentions[i],
    ) by {}
    lemma_none_kept(after.mentions, mentioned_in(c2.assertions));
    crate::rows::lemma_distinct(
        after.assertions.filter(asserted_only_by(after.assertions, id)).map_values(statement_of()),
    );
}

/// After an entity was redacted, wholly or under one predicate, no assertion is
/// left of any statement that involved it so, and redacting it again finds
/// nothing.
pub proof fn law_redacted_entity_is_unasserted(
    db: TablesView,
    space: Seq<char>,
    entity: Seq<char>,
    predicate: Option<Seq<char>>,
    target: RedactTargetView,
    target_json: Seq<char>,
    rid: Seq<char>,
    reason: Seq<char>,
    actor: Seq<char>,
    now: Timestamp,
)
    requires
        target == match predicate {
            None => RedactTargetView::Entity { space, entity_id: entity },
            Some(p) => RedactTargetView::PredicateScoped { space, entity_id: entity, predicate: p },
        },
    ensures
        ({
            let after = after_redaction(db, target, target_json, rid, reason, actor, now);
            let involved = db.statements.filter(involves(space, entity, predicate)).map_values(
                statement_id_of(),
            );
            &&& forall|i: int|
                0 <= i < after.assertions.len() ==> !involved.contains(
                    (#[trigger] after.assertions[i]).statement,
                )
            &&& is_nothing(closure_of(after, target))
        }),
{
    let c = closure_of(db, target);
    let after = after_redaction(db, target, target_json, rid, reason, actor, now);
    let involved = db.statements.filter(involves(space, entity, predicate)).map_values(
        statement_id_of(),
    );
    let q = |a: AssertionView| !c.assertions.contains(a.id);
    let keep = |s: StatementView| !c.statements.contains(s.id);
    if is_nothing(c) {
        lemma_all_kept(db.assertions, q);
        let listed = c.assertions;
        lemma_kept(involved, loses_all(db.assertions, listed));
        if c.statements.len() > 0 {
            let sid = c.statements[0];
            assert(loses_all(db.assertions, listed)(sid));
            let k = choose|k: int|
                0 <= k < db.assertions.len() && crate::knowledge::asserts(sid)(db.assertions[k]);
            assert(asserted_besides(sid, listed)(db.assertions[k]));
        }
        lemma_all_kept(db.statements, keep);
    }
    assert(after.assertions == db.assertions.filter(q));
    lemma_kept(db.assertions, q);
    assert forall|i: int| 0 <= i < after.assertions.len() implies !involved.contains(
        (#[trigger] after.assertions[i]).statement,
    ) by {
        let a = after.assertions[i];
        assert(q(a) && db.assertions.contains(a));
        if involved.contains(a.statement) {
            lemma_picked(db.assertions, asserts_any(involved), assertion_id_of(), a);
        }
    }
    assert(after.statements == db.statements.filter(keep));
    lemma_kept(db.statements, keep);
    let involved2 = after.statements.filter(involves(space, entity, predicate)).map_values(
        statement_id_of(),
    );
    lemma_kept(after.statements, involves(space, entity, predicate));
    assert forall|i: int| 0 <= i < after.assertions.len() implies !asserts_any(involved2)(
        #[trigger] after.assertions[i],
    ) by {
        let a = after.assertions[i];
        if involved2.contains(a.statement) {
            let k = choose|k: int| 0 <= k < involved2.len() && involved2[k] == a.statement;
            let s = after.statements.filter(involves(space, entity, predicate))[k];
            assert(involves(space, entity, predicate)(s) && after.statements.contains(s));
            let m = choose|m: int| 0 <= m < after.statements.len() && after.statements[m] == s;
            assert(db.statements.contains(after.statements[m]));
            lemma_picked(
                db.statements,
                involves(space, entity, predicate),
                statement_id_of(),
                s,
            );
        }
    }
    lemma_none_kept(after.assertions, asserts_any(involved2));
}

/// A purged space leaves no row of its own in any table: no space, episode,
/// source, entity, key, statement, community, chunk or index row, and nothing
/// that hangs on one of its episodes, statements or entities.
pub proof fn law_purge_leaves_nothing(db: TablesView, space: Seq<char>)
    ensures
        ({
            let after = purged(db, space);
            &&& !some_where(after.spaces, |s: SpaceEntryView| s.id == space)
            &&& !some_where(after.episodes, episode_in(space))
            &&& !some_where(after.sources, source_in(space))
            &&& !some_where(after.entities, entity_in(space))
            &&& !some_where(after.keys, |k: EntityKeyView| k.space == space)
            &&& !some_where(after.statements, statement_in(space))
            &&& !some_where(after.communities, |c: CommunityRowView| c.space == space)
            &&& !some_where(after.chunks, |c: ChunkRowView| c.space == space)
            &&& !some_where(after.fts_word, indexed_in(space))
            &&& !some_where(after.fts_ngram, indexed_in(space))
            &&& !some_where(after.tfidf_vectors, |v: VectorRowView| v.space == space)
            &&& !some_where(after.assertions, asserts_any(space_statements(db, space)))
            &&& !some_where(after.mentions, mentioned_in(space_assertions(db, space)))
            &&& !some_where(
                after.beliefs,
                |b: BeliefView| space_statements(db, space).contains(b.statement),
            )
            &&& !some_where(after.extractions, extracted_from_any(space_episodes(db, space)))
            &&& space_closure(after, space) == RedactionClosureView::nothing()
        }),
{
    let after = purged(db, space);
    let episodes = space_episodes(db, space);
    let statements = space_statements(db, space);
    let assertions = space_assertions(db, space);
    lemma_kept(db.spaces, |s: SpaceEntryView| s.id != space);
    lemma_kept(db.episodes, |e: EpisodeRowView| e.space != space);
    lemma_kept(db.sources, |s: SourceRowView| s.space != space);
    lemma_kept(db.entities, |e: EntityView| e.space != space);
    lemma_kept(db.keys, |k: EntityKeyView| k.space != space);
    lemma_kept(db.statements, |s: StatementView| s.space != space);
    lemma_kept(db.communities, |c: CommunityRowView| c.space != space);
    lemma_kept(db.chunks, |c: ChunkRowView| c.space != space);
    lemma_kept(db.fts_word, |f: FtsRowView| f.space != space);
    lemma_kept(db.fts_ngram, |f: FtsRowView| f.space != space);
    lemma_kept(db.tfidf_vectors, |v: VectorRowView| v.space != space);
    lemma_kept(db.assertions, |a: AssertionView| !statements.contains(a.statement));
    lemma_kept(db.mentions, |m: MentionView| !assertions.contains(m.assertion));
    lemma_kept(db.beliefs, |b: BeliefView| !statements.contains(b.statement));
    lemma_kept(db.extractions, |x: ExtractionRowView| !episodes.contains(x.episode_id));
    lemma_none_kept(after.episodes, episode_in(space));
    lemma_none_kept(after.statements, statement_in(space));
    let c = space_closure(after, space);
    assert(c.episodes =~= Seq::empty());
    assert(c.statements =~= Seq::empty());
    assert forall|i: int| 0 <= i < after.assertions.len() implies !asserts_any(c.statements)(
        #[trigger] after.assertions[i],
    ) by {}
    lemma_none_kept(after.assertions, asserts_any(c.statements));
    assert(c.assertions =~= Seq::empty());
    assert forall|i: int| 0 <= i < after.mentions.len() implies !mentioned_in(c.assertions)(
        #[trigger] after.mentions[i],
    ) by {}
    lemma_none_kept(after.mentions, mentioned_in(c.assertions));
    assert(c.mentions =~= Seq::empty());
    assert forall|i: int| 0 <= i < after.extractions.len() implies !extracted_from_any(
        c.episodes,
    )(#[trigger] after.extractions[i]) by {}
    lemma_none_kept(after.extractions, extracted_from_any(c.episodes));
    assert(after.extractions.filter(extracted_from_any(c.episodes)).map_values(
        extraction_episode(),
    ) =~= Seq::empty());
    assert(c.extractions =~= Seq::empty());
    assert(c =~= RedactionClosureView::nothing());
}

/// Selects the chunks of a space.
pub open spec fn chunk_in(space: Seq<char>) -> spec_fn(ChunkRowView) -> bool {
    |c: ChunkRowView| c.space == space
}

/// Selects the lexical vectors of a space.
pub open spec fn vector_in(space: Seq<char>) -> spec_fn(VectorRowView) -> bool {
    |v: VectorRowView| v.space == space
}

/// Selects the mentions in an assertion.
pub open spec fn mentioned_by(assertion: Seq<char>) -> spec_fn(MentionView) -> bool {
    |m: MentionView| m.assertion == assertion
}

/// Purging a space keeps every row of every other space, and whatever hangs on
/// the statements, assertions and episodes of other spaces.
pub proof fn law_purge_spares_other_spaces(db: TablesView, space: Seq<char>, other: Seq<char>)
    requires
        other != space,
    ensures
        ({
            let after = purged(db, space);
            &&& after.spaces.filter(space_has_id(other)) == db.spaces.filter(space_has_id(other))
            &&& after.episodes.filter(episode_in(other)) == db.episodes.filter(episode_in(other))
            &&& after.entities.filter(entity_in(other)) == db.entities.filter(entity_in(other))
            &&& after.statements.filter(statement_in(other)) == db.statements.filter(
                statement_in(other),
            )
            &&& after.sources.filter(source_in(other)) == db.sources.filter(source_in(other))
            &&& after.fts_word.filter(indexed_in(other)) == db.fts_word.filter(indexed_in(other))
            &&& after.fts_ngram.filter(indexed_in(other)) == db.fts_ngram.filter(indexed_in(other))
            &&& after.keys.filter(key_in(other)) == db.keys.filter(key_in(other))
            &&& after.chunks.filter(chunk_in(other)) == db.chunks.filter(chunk_in(other))
            &&& after.communities.filter(community_in(other)) == db.communities.filter(
                community_in(other),
            )
            &&& after.tfidf_vectors.filter(vector_in(other)) == db.tfidf_vectors.filter(
                vector_in(other),
            )
            &&& forall|id: Seq<char>|
                !space_statements(db, space).contains(id) ==> #[trigger] after.assertions.filter(
                    asserts(id),
                ) == db.assertions.filter(asserts(id))
            &&& forall|id: Seq<char>|
                !space_assertions(db, space).contains(id) ==> #[trigger] after.mentions.filter(
                    mentioned_by(id),
                ) == db.mentions.filter(mentioned_by(id))
            &&& forall|id: Seq<char>|
                !space_statements(db, space).contains(id) ==> #[trigger] after.beliefs.filter(
                    believes(id),
                ) == db.beliefs.filter(believes(id))
            &&& forall|id: Seq<char>|
                !space_episodes(db, space).contains(id) ==> #[trigger] after.extractions.filter(
                    extracted_from(id),
                ) == db.extractions.filter(extracted_from(id))
        }),
{
    let statements = space_statements(db, space);
    let assertions = space_assertions(db, space);
    let episodes = space_episodes(db, space);
    let after = purged(db, space);
    assert forall|id: Seq<char>| !statements.contains(id) implies #[trigger] after.assertions.filter(
        asserts(id),
    ) == db.assertions.filter(asserts(id)) by {
        lemma_filter_twice(
            db.assertions,
            |a: AssertionView| !statements.contains(a.statement),
            asserts(id),
        );
    }
    assert forall|id: Seq<char>| !assertions.contains(id) implies #[trigger] after.mentions.filter(
        mentioned_by(id),
    ) == db.mentions.filter(mentioned_by(id)) by {
        lemma_filter_twice(
            db.mentions,
            |m: MentionView| !assertions.contains(m.assertion),
            mentioned_by(id),
        );
    }
    assert forall|id: Seq<char>| !statements.contains(id) implies #[trigger] after.beliefs.filter(
        believes(id),
    ) == db.beliefs.filter(believes(id)) by {
        lemma_filter_twice(
            db.beliefs,
            |b: BeliefView| !statements.contains(b.statement),
            believes(id),
        );
    }
    assert forall|id: Seq<char>| !episodes.contains(id) implies #[trigger] after.extractions.filter(
        extracted_from(id),
    ) == db.extractions.filter(extracted_from(id)) by {
        lemma_filter_twice(
            db.extractions,
            |x: ExtractionRowView| !episodes.contains(x.episode_id),
            extracted_from(id),
        );
    }
    lemma_filter_twice(db.keys, |k: EntityKeyView| k.space != space, key_in(other));
    lemma_filter_twice(db.chunks, |c: ChunkRowView| c.space != space, chunk_in(other));
    lemma_filter_twice(
        db.communities,
        |c: CommunityRowView| c.space != space,
        community_in(other),
    );
    lemma_filter_twice(
        db.tfidf_vectors,
        |v: VectorRowView| v.space != space,
        vector_in(other),
    );
    lemma_filter_twice(db.spaces, |s: SpaceEntryView| s.id != space, space_has_id(other));
    lemma_filter_twice(db.episodes, |e: EpisodeRowView| e.space != space, episode_in(other));
    lemma_filter_twice(db.entities, |e: EntityView| e.space != space, entity_in(other));
    lemma_filter_twice(db.statements, |s: StatementView| s.space != space, statement_in(other));
    lemma_filter_twice(db.sources, |s: SourceRowView| s.space != space, source_in(other));
    lemma_filter_twice(db.fts_word, |f: FtsRowView| f.space != space, indexed_in(other));
    lemma_filter_twice(db.fts_ngram, |f: FtsRowView| f.space != space, indexed_in(other));
}

/// Selecting from a selection that kept all the selected rows.
pub proof fn lemma_filter_twice<V>(s: Seq<V>, p: spec_fn(V) -> bool, q: spec_fn(V) -> bool)
    requires
        forall|v: V| #[trigger] q(v) ==> p(v),
    ensures
        s.filter(p).filter(q) == s.filter(q),
    decreases s.len(),
{
    reveal(Seq::filter);
    if s.len() > 0 {
        lemma_filter_twice(s.drop_last(), p, q);
        let head = s.drop_last().filter(p);
        if p(s.last()) {
            assert(head.push(s.last()).drop_last() =~= head);
        }
    }
}

/// Purging a space twice is purging it once: the second call finds nothing,
/// and leaves every table as the first left it, the audit log included.
pub proof fn law_space_purge_is_idempotent(
    db: TablesView,
    space: Seq<char>,
    target_json: Seq<char>,
    rid: Seq<char>,
    reason: Seq<char>,
    actor: Seq<char>,
    now: Timestamp,
    rid2: Seq<char>,
    later: Timestamp,
)
    ensures
        ({
            let target = RedactTargetView::Space { id: space };
            let once = after_redaction(db, target, target_json, rid, reason, actor, now);
            &&& is_nothing(closure_of(once, target))
            &&& after_redaction(once, target, target_json, rid2, reason, actor, later) == once
        }),
{
    let target = RedactTargetView::Space { id: space };
    let once = after_redaction(db, target, target_json, rid, reason, actor, now);
    let keep = |s: SpaceEntryView| s.id != space;
    lemma_kept(db.spaces, keep);
    lemma_all_kept(db.spaces.filter(keep), keep);
    if !is_nothing(closure_of(db, target)) {
        law_purge_leaves_nothing(
            recorded(db, target_json, rid, reason, actor, now),
            space,
        );
    }
    assert(once.spaces.filter(keep) == once.spaces);
    assert(after_redaction(once, target, target_json, rid2, reason, actor, later) =~= once);
}

/// Purging a space that holds something is a full, recorded delete. The audit log
/// gains one entry and the record of redactions one row, unless its id is taken;
/// no row of the space is left, and the rows of every other space are as they
/// were; and purging it again finds nothing and changes nothing, not even the
/// audit log.
pub proof fn law_space_purge(
    db: TablesView,
    space: Seq<char>,
    target_json: Seq<char>,
    rid: Seq<char>,
    reason: Seq<char>,
    actor: Seq<char>,
    now: Timestamp,
    rid2: Seq<char>,
    later: Timestamp,
    other: Seq<char>,
)
    requires
        some_where(db.episodes, episode_in(space)),
        other != space,
    ensures
        ({
            let target = RedactTargetView::Space { id: space };
            let after = after_redaction(db, target, target_json, rid, reason, actor, now);
            let row = RedactionRowView { id: rid, target_json, reason, actor, redacted_at: now };
            &&& after.audit == db.audit.push(after.audit.last())
            &&& after.audit.last().target == Some(target_json)
            &&& after.redactions == if some_where(db.redactions, redaction_has_id(rid)) {
                db.redactions
            } else {
                db.redactions.push(row)
            }
            &&& !some_where(after.spaces, |s: SpaceEntryView| s.id == space)
            &&& !some_where(after.episodes, episode_in(space))
            &&& !some_where(after.sources, source_in(space))
            &&& !some_where(after.entities, entity_in(space))
            &&& !some_where(after.keys, |k: EntityKeyView| k.space == space)
            &&& !some_where(after.statements, statement_in(space))
            &&& !some_where(after.communities, |c: CommunityRowView| c.space == space)
            &&& !some_where(after.chunks, |c: ChunkRowView| c.space == space)
            &&& !some_where(after.assertions, asserts_any(space_statements(db, space)))
            &&& !some_where(after.mentions, mentioned_in(space_assertions(db, space)))
            &&& !some_where(
                after.beliefs,
                |b: BeliefView| space_statements(db, space).contains(b.statement),
            )
            &&& after.spaces.filter(space_has_id(other)) == db.spaces.filter(space_has_id(other))
            &&& after.episodes.filter(episode_in(other)) == db.episodes.filter(episode_in(other))
            &&& after.entities.filter(entity_in(other)) == db.entities.filter(entity_in(other))
            &&& after.statements.filter(statement_in(other)) == db.statements.filter(
                statement_in(other),
            )
            &&& after.sources.filter(source_in(other)) == db.sources.filter(source_in(other))
            &&& closure_of(after, target) == RedactionClosureView::nothing()
            &&& after_redaction(after, target, target_json, rid2, reason, actor, later) == after
        }),
{
    let target = RedactTargetView::Space { id: space };
    let noted = recorded(db, target_json, rid, reason, actor, now);
    let i = choose|i: int| 0 <= i < db.episodes.len() && episode_in(space)(db.episodes[i]);
    db.episodes.lemma_filter_contains(episode_in(space), i);
    assert(db.episodes.filter(episode_in(space)).contains(db.episodes[i]));
    assert(closure_of(db, target).episodes.len() > 0);
    law_purge_leaves_nothing(noted, space);
    law_purge_spares_other_spaces(noted, space, other);
    law_space_purge_is_idempotent(
        db,
        space,
        target_json,
        rid,
        reason,
        actor,
        now,
        rid2,
        later,
    );
}

/// A redacted space never comes back to harm a space that was added again
/// under its id: replaying its redaction changes nothing.
pub proof fn law_space_redaction_never_replays(db: TablesView, space: Seq<char>, at: Timestamp)
    ensures
        after_replay(db, RedactTargetView::Space { id: space }) == db,
        refolds_after_replay(db, RedactTargetView::Space { id: space }, at) == Ok::<
            Seq<RefoldView>,
            BrainErrorView,
        >(Seq::empty()),
{
}

} // verus!
