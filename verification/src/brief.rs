//! Brief data: everything that is needed to render an entity page, a space page
//! or a topic page. Only fetches; nothing is rendered here.
use vstd::prelude::*;

use crate::communities::sorted_texts;
use crate::error::{fails_with, BrainError, BrainErrorView};
use crate::index_ops::{
    entity_surface, is_live_episode, names, show_literal, shown_literal, surface_form,
};
use crate::json::{as_nat, json_parsed, member, parse_json, Json, JsonView};
use crate::knowledge::{
    asserts, entity_has_id, get_assertions_for_statement, get_entity, is_live_in, key_has_id,
    resolve_entity, resolved, statement_has_id,
};
use crate::query::{beliefs_for_entity, entity_beliefs};
use crate::redaction::{statement_id_of, statement_in, unique_texts};
use crate::rows::{
    count, distinct, find, first_n, first_where, limited, map_rows, order, ordered, pick, select,
    some_where, tried, try_map, Row,
};
use crate::security::dup_texts;
use crate::tables::{
    dup_text, Assertion, AssertionView, Belief, BeliefView, Entity, EntityKey, EntityKeyView,
    EntityView, EpisodeRow, EpisodeRowView, Object, ObjectView, Polarity, Statement, StatementView,
    Tables, TablesView,
};
use crate::text::{cat4, contains_text, occurs_in, str_eq, str_le, text_le};
use crate::time::Timestamp;
use crate::timeline::{
    believed_within, by_valid_from, displayed, object_entity, timeline, timeline_entry,
    TimelineEntry, TimelineEntryView,
};

verus! {

/// Everything needed to render the brief of an entity.
#[derive(Debug)]
pub struct EntityBriefData {
    pub entity: Entity,
    pub canonical_surface: String,
    pub aliases: Vec<String>,
    pub beliefs: Vec<BeliefRow>,
    pub neighbours: Vec<NeighbourData>,
    pub timeline: Vec<TimelineEntry>,
    pub sources: Vec<SourceData>,
    pub contradictions: Vec<ContradictionData>,
}

/// [`EntityBriefData`] as a mathematical value.
#[verifier::ext_equal]
pub struct EntityBriefDataView {
    pub entity: EntityView,
    pub canonical_surface: Seq<char>,
    pub aliases: Seq<Seq<char>>,
    pub beliefs: Seq<BeliefRowView>,
    pub neighbours: Seq<NeighbourDataView>,
    pub timeline: Seq<TimelineEntryView>,
    pub sources: Seq<SourceDataView>,
    pub contradictions: Seq<ContradictionDataView>,
}

impl DeepView for EntityBriefData {
    type V = EntityBriefDataView;

    open spec fn deep_view(&self) -> EntityBriefDataView {
        EntityBriefDataView {
            entity: self.entity.deep_view(),
            canonical_surface: self.canonical_surface@,
            aliases: self.aliases.deep_view(),
            beliefs: self.beliefs.deep_view(),
            neighbours: self.neighbours.deep_view(),
            timeline: self.timeline.deep_view(),
            sources: self.sources.deep_view(),
            contradictions: self.contradictions.deep_view(),
        }
    }
}

/// A current belief joined with its statement, with the object as it is shown.
/// 
/// `confidence` holds the bit pattern of a single-precision number.
#[derive(Debug)]
pub struct BeliefRow {
    pub statement_id: String,
    pub predicate: String,
    pub object: String,
    pub object_entity: Option<String>,
    pub valid_from: Timestamp,
    pub valid_to: Timestamp,
    pub confidence: u32,
    pub affirm: u32,
    pub deny: u32,
    pub episodes: u32,
    pub status: String,
}

/// [`BeliefRow`] as a mathematical value.
#[verifier::ext_equal]
pub struct BeliefRowView {
    pub statement_id: Seq<char>,
    pub predicate: Seq<char>,
    pub object: Seq<char>,
    pub object_entity: Option<Seq<char>>,
    pub valid_from: Timestamp,
    pub valid_to: Timestamp,
    pub confidence: u32,
    pub affirm: u32,
    pub deny: u32,
    pub episodes: u32,
    pub status: Seq<char>,
}

impl DeepView for BeliefRow {
    type V = BeliefRowView;

    open spec fn deep_view(&self) -> BeliefRowView {
        BeliefRowView {
            statement_id: self.statement_id@,
            predicate: self.predicate@,
            object: self.object@,
            object_entity: self.object_entity.deep_view(),
            valid_from: self.valid_from,
            valid_to: self.valid_to,
            confidence: self.confidence,
            affirm: self.affirm,
            deny: self.deny,
            episodes: self.episodes,
            status: self.status@,
        }
    }
}

impl Row for BeliefRow {
    fn dup(&self) -> (r: Self) {
        BeliefRow {
            statement_id: self.statement_id.clone(),
            predicate: self.predicate.clone(),
            object: self.object.clone(),
            object_entity: dup_text(&self.object_entity),
            valid_from: self.valid_from,
            valid_to: self.valid_to,
            confidence: self.confidence,
            affirm: self.affirm,
            deny: self.deny,
            episodes: self.episodes,
            status: self.status.clone(),
        }
    }
}

impl Clone for BeliefRow {
    fn clone(&self) -> (r: Self)
        ensures
            r.deep_view() == self.deep_view(),
    {
        self.dup()
    }
}

/// An entity that a statement links to the entity of a brief.
#[derive(Debug)]
pub struct NeighbourData {
    pub surface: String,
    pub entity: String,
    pub predicate: String,
    /// `out` = this entity is the subject; `in` = this entity is the object.
    pub direction: String,
}

/// [`NeighbourData`] as a mathematical value.
#[verifier::ext_equal]
pub struct NeighbourDataView {
    pub surface: Seq<char>,
    pub entity: Seq<char>,
    pub predicate: Seq<char>,
    pub direction: Seq<char>,
}

impl DeepView for NeighbourData {
    type V = NeighbourDataView;

    open spec fn deep_view(&self) -> NeighbourDataView {
        NeighbourDataView {
            surface: self.surface@,
            entity: self.entity@,
            predicate: self.predicate@,
            direction: self.direction@,
        }
    }
}

impl Row for NeighbourData {
    fn dup(&self) -> (r: Self) {
        NeighbourData {
            surface: self.surface.clone(),
            entity: self.entity.clone(),
            predicate: self.predicate.clone(),
            direction: self.direction.clone(),
        }
    }
}

impl Clone for NeighbourData {
    fn clone(&self) -> (r: Self)
        ensures
            r.deep_view() == self.deep_view(),
    {
        self.dup()
    }
}

/// An episode that speaks of the entity of a brief.
#[derive(Debug)]
pub struct SourceData {
    pub episode: String,
    pub kind: String,
    pub occurred_at: Timestamp,
}

/// [`SourceData`] as a mathematical value.
#[verifier::ext_equal]
pub struct SourceDataView {
    pub episode: Seq<char>,
    pub kind: Seq<char>,
    pub occurred_at: Timestamp,
}

impl DeepView for SourceData {
    type V = SourceDataView;

    open spec fn deep_view(&self) -> SourceDataView {
        SourceDataView {
            episode: self.episode@,
            kind: self.kind@,
            occurred_at: self.occurred_at,
        }
    }
}

impl Row for SourceData {
    fn dup(&self) -> (r: Self) {
        SourceData {
            episode: self.episode.clone(),
            kind: self.kind.clone(),
            occurred_at: self.occurred_at,
        }
    }
}

impl Clone for SourceData {
    fn clone(&self) -> (r: Self)
        ensures
            r.deep_view() == self.deep_view(),
    {
        self.dup()
    }
}

/// A contradicted belief, with the episodes on either side.
#[derive(Debug)]
pub struct ContradictionData {
    pub predicate: String,
    pub object: String,
    pub affirm_episodes: Vec<String>,
    pub deny_episodes: Vec<String>,
}

/// [`ContradictionData`] as a mathematical value.
#[verifier::ext_equal]
pub struct ContradictionDataView {
    pub predicate: Seq<char>,
    pub object: Seq<char>,
    pub affirm_episodes: Seq<Seq<char>>,
    pub deny_episodes: Seq<Seq<char>>,
}

impl DeepView for ContradictionData {
    type V = ContradictionDataView;

    open spec fn deep_view(&self) -> ContradictionDataView {
        ContradictionDataView {
            predicate: self.predicate@,
            object: self.object@,
            affirm_episodes: self.affirm_episodes.deep_view(),
            deny_episodes: self.deny_episodes.deep_view(),
        }
    }
}

impl Row for ContradictionData {
    fn dup(&self) -> (r: Self) {
        ContradictionData {
            predicate: self.predicate.clone(),
            object: self.object.clone(),
            affirm_episodes: dup_texts(&self.affirm_episodes),
            deny_episodes: dup_texts(&self.deny_episodes),
        }
    }
}

impl Clone for ContradictionData {
    fn clone(&self) -> (r: Self)
        ensures
            r.deep_view() == self.deep_view(),
    {
        self.dup()
    }
}

/// One entity rendered as a followable link in the space/topic brief list.
#[derive(Debug)]
pub struct EntityLinkRow {
    pub surface: String,
    pub entity_id: String,
    pub predicate_count: usize,
}

/// [`EntityLinkRow`] as a mathematical value.
#[verifier::ext_equal]
pub struct EntityLinkRowView {
    pub surface: Seq<char>,
    pub entity_id: Seq<char>,
    pub predicate_count: usize,
}

impl DeepView for EntityLinkRow {
    type V = EntityLinkRowView;

    open spec fn deep_view(&self) -> EntityLinkRowView {
        EntityLinkRowView {
            surface: self.surface@,
            entity_id: self.entity_id@,
            predicate_count: self.predicate_count,
        }
    }
}

impl Row for EntityLinkRow {
    fn dup(&self) -> (r: Self) {
        EntityLinkRow {
            surface: self.surface.clone(),
            entity_id: self.entity_id.clone(),
            predicate_count: self.predicate_count,
        }
    }
}

impl Clone for EntityLinkRow {
    fn clone(&self) -> (r: Self)
        ensures
            r.deep_view() == self.deep_view(),
    {
        self.dup()
    }
}

/// The order of pairs of texts: by the first, and where those are equal by the
/// second.
pub open spec fn pair_le(a: Seq<char>, x: Seq<char>, b: Seq<char>, y: Seq<char>) -> bool {
    if a == b {
        text_le(x, y)
    } else {
        text_le(a, b)
    }
}

fn pair_in_order(a: &str, x: &str, b: &str, y: &str) -> (r: bool)
    ensures
        r == pair_le(a@, x@, b@, y@),
{
    if str_eq(a, b) {
        str_le(x, y)
    } else {
        str_le(a, b)
    }
}

/// Selects the statements that have an entity as their subject or object.
pub open spec fn touches(space: Seq<char>, entity: Seq<char>) -> spec_fn(StatementView) -> bool {
    |s: StatementView|
        s.space == space && (s.subject == entity || object_entity(s.object) == Some(entity))
}

fn is_touching(s: &Statement, space: &str, entity: &str) -> (b: bool)
    ensures
        b == touches(space@, entity@)(s.deep_view()),
{
    str_eq(s.space.as_str(), space) && (str_eq(s.subject.as_str(), entity) || match &s.object {
        Object::Entity(id) => str_eq(id.as_str(), entity),
        Object::Literal(_) => false,
    })
}

/// The order of statements: by id.
pub open spec fn by_statement_id() -> spec_fn(StatementView, StatementView) -> bool {
    |a: StatementView, b: StatementView| text_le(a.id, b.id)
}

/// The statements about an entity, on either side, by id.
pub open spec fn near(db: TablesView, space: Seq<char>, entity: Seq<char>) -> Seq<StatementView> {
    ordered(db.statements.filter(touches(space, entity)), by_statement_id())
}

fn load_statements(db: &Tables, space: &str, entity_id: &str) -> (r: Vec<Statement>)
    ensures
        r.deep_view() == near(db.deep_view(), space@, entity_id@),
{
    order(
        select(
            &db.statements,
            |s: &Statement| -> (b: bool)
                ensures
                    b == touches(space@, entity_id@)(s.deep_view())
                { is_touching(s, space, entity_id) },
            Ghost(touches(space@, entity_id@)),
        ),
        |a: &Statement, b: &Statement| -> (le: bool)
            ensures
                le == by_statement_id()(a.deep_view(), b.deep_view())
            { str_le(a.id.as_str(), b.id.as_str()) },
        Ghost(by_statement_id()),
    )
}

/// The order of keys: by surface form.
pub open spec fn by_surface() -> spec_fn(EntityKeyView, EntityKeyView) -> bool {
    |a: EntityKeyView, b: EntityKeyView| text_le(a.surface, b.surface)
}

/// The keys of an entity, by surface form.
pub open spec fn keys_of(db: TablesView, entity: Seq<char>) -> Seq<EntityKeyView> {
    ordered(db.keys.filter(names(entity)), by_surface())
}

fn load_keys(db: &Tables, entity_id: &str) -> (r: Vec<EntityKey>)
    ensures
        r.deep_view() == keys_of(db.deep_view(), entity_id@),
{
    order(
        select(
            &db.keys,
            |k: &EntityKey| -> (b: bool)
                ensures
                    b == names(entity_id@)(k.deep_view())
                { str_eq(k.entity.as_str(), entity_id) },
            Ghost(names(entity_id@)),
        ),
        |a: &EntityKey, b: &EntityKey| -> (le: bool)
            ensures
                le == by_surface()(a.deep_view(), b.deep_view())
            { str_le(a.surface.as_str(), b.surface.as_str()) },
        Ghost(by_surface()),
    )
}

/// The surface form of the canonical key among some keys.
pub open spec fn canonical_of(e: EntityView, keys: Seq<EntityKeyView>) -> Option<Seq<char>> {
    match e.canonical_key {
        None => None,
        Some(id) => match first_where(keys, key_has_id(id)) {
            Some(k) => Some(k.surface),
            None => None,
        },
    }
}

fn canonical_key_surface(entity: &Entity, keys: &Vec<EntityKey>) -> (r: Option<String>)
    ensures
        r.deep_view() == canonical_of(entity.deep_view(), keys.deep_view()),
{
    match &entity.canonical_key {
        None => None,
        Some(id) => match find(
            keys,
            |k: &EntityKey| -> (b: bool)
                ensures
                    b == key_has_id(id@)(k.deep_view())
                { str_eq(k.id.as_str(), id.as_str()) },
            Ghost(key_has_id(id@)),
        ) {
            Some(i) => {
                assert(keys.deep_view()[i as int] == keys[i as int].deep_view());
                Some(keys[i].surface.clone())
            },
            None => None,
        },
    }
}

/// The name that a brief gives an entity: the surface of its canonical key, else
/// its first surface, else nothing.
pub open spec fn brief_surface(e: EntityView, keys: Seq<EntityKeyView>) -> Seq<char> {
    match canonical_of(e, keys) {
        Some(s) => s,
        None => if keys.len() > 0 {
            keys[0].surface
        } else {
            Seq::empty()
        },
    }
}

/// Selects the keys with another surface form than the given one.
pub open spec fn is_alias(canonical: Seq<char>) -> spec_fn(EntityKeyView) -> bool {
    |k: EntityKeyView| k.surface != canonical
}

/// The other surface forms of an entity, in order, each once.
pub open spec fn aliases_of(canonical: Seq<char>, keys: Seq<EntityKeyView>) -> Seq<Seq<char>> {
    distinct(
        ordered(
            keys.filter(is_alias(canonical)).map_values(crate::index_ops::key_surface()),
            crate::text::by_text(),
        ),
    )
}

fn list_aliases(canonical: &str, keys: &Vec<EntityKey>) -> (r: Vec<String>)
    ensures
        r.deep_view() == aliases_of(canonical@, keys.deep_view()),
{
    unique_texts(
        sorted_texts(
            pick(
                keys,
                |k: &EntityKey| -> (b: bool)
                    ensures
                        b == is_alias(canonical@)(k.deep_view())
                    { !str_eq(k.surface.as_str(), canonical) },
                |k: &EntityKey| -> (s: String)
                    ensures
                        s.deep_view() == crate::index_ops::key_surface()(k.deep_view())
                    { k.surface.clone() },
                Ghost(is_alias(canonical@)),
                Ghost(crate::index_ops::key_surface()),
            ),
        ),
    )
}

/// What the evidence for a belief amounts to.
#[derive(Debug, Clone, Copy, PartialEq, Eq, Structural)]
pub struct SupportCounts {
    pub affirm: u32,
    pub deny: u32,
    pub episodes: u32,
}

/// A natural member of a support record that fits `u32`.
pub open spec fn count_member(v: JsonView, key: Seq<char>) -> Option<u32> {
    match member(v, key) {
        Some(m) => match as_nat(m) {
            Some(n) => if n <= u32::MAX {
                Some(n as u32)
            } else {
                None
            },
            None => None,
        },
        None => None,
    }
}

/// The counts in a support record, or `None` where it is not one.
pub open spec fn counts_in(parsed: Result<JsonView, Seq<char>>) -> Option<SupportCounts> {
    match parsed {
        Err(_) => None,
        Ok(v) => match (
            count_member(v, "affirm_count"@),
            count_member(v, "deny_count"@),
            count_member(v, "distinct_episodes"@),
        ) {
            (Some(affirm), Some(deny), Some(episodes)) => Some(
                SupportCounts { affirm, deny, episodes },
            ),
            _ => None,
        },
    }
}

fn read_count(v: &Json, key: &str) -> (r: Option<u32>)
    ensures
        r == count_member(v.deep_view(), key@),
{
    match v.get(key) {
        Some(m) => match m.as_u64() {
            Some(n) => if n <= 0xffff_ffff {
                Some(n as u32)
            } else {
                None
            },
            None => None,
        },
        None => None,
    }
}

/// The counts in a support record that was read from its JSON text.
pub fn support_counts(parsed: &Result<Json, String>) -> (r: Option<SupportCounts>)
    ensures
        r == counts_in(crate::json::parse_view(*parsed)),
{
    match parsed {
        Err(_) => None,
        Ok(v) => match (
            read_count(v, "affirm_count"),
            read_count(v, "deny_count"),
            read_count(v, "distinct_episodes"),
        ) {
            (Some(affirm), Some(deny), Some(episodes)) => Some(
                SupportCounts { affirm, deny, episodes },
            ),
            _ => None,
        },
    }
}

/// The object of a statement as it is shown.
pub open spec fn shown_object(
    db: TablesView,
    o: ObjectView,
    literals: Seq<(Seq<char>, Seq<char>)>,
) -> Result<Seq<char>, BrainErrorView> {
    match o {
        ObjectView::Entity(id) => surface_form(db, id),
        ObjectView::Literal(json) => Ok(shown_literal(literals, json)),
    }
}

fn show_object(db: &Tables, o: &Object, literals: &Vec<(String, String)>) -> (r: Result<
    String,
    BrainError,
>)
    ensures
        match shown_object(db.deep_view(), o.deep_view(), literals.deep_view()) {
            Ok(t) => r is Ok && r->Ok_0@ == t,
            Err(e) => fails_with(r, e),
        },
{
    match o {
        Object::Entity(id) => entity_surface(db, id.as_str()),
        Object::Literal(json) => Ok(show_literal(literals, json.as_str())),
    }
}

/// The row of a belief, or nothing where its statement is not among those of
/// the entity. A belief whose support record cannot be read is an error.
pub open spec fn belief_row(
    db: TablesView,
    statements: Seq<StatementView>,
    literals: Seq<(Seq<char>, Seq<char>)>,
) -> spec_fn(BeliefView) -> Result<Option<BeliefRowView>, BrainErrorView> {
    |b: BeliefView|
        match first_where(statements, statement_has_id(b.statement)) {
            None => Ok(None),
            Some(s) => match shown_object(db, s.object, literals) {
                Err(e) => Err(e),
                Ok(object) => match counts_in(json_parsed(b.support_json)) {
                    None => Err(
                        BrainErrorView::Corruption("support of statement "@ + b.statement),
                    ),
                    Some(c) => Ok(
                        Some(
                            BeliefRowView {
                                statement_id: b.statement,
                                predicate: s.predicate,
                                object,
                                object_entity: object_entity(s.object),
                                valid_from: b.valid_from,
                                valid_to: b.valid_to,
                                confidence: b.confidence,
                                affirm: c.affirm,
                                deny: c.deny,
                                episodes: c.episodes,
                                status: b.status,
                            },
                        ),
                    ),
                },
            },
        }
}

fn make_belief_row(
    db: &Tables,
    statements: &Vec<Statement>,
    literals: &Vec<(String, String)>,
    b: &Belief,
) -> (r: Result<Option<BeliefRow>, BrainError>)
    ensures
        crate::rows::attempt_view(r) == belief_row(
            db.deep_view(),
            statements.deep_view(),
            literals.deep_view(),
        )(b.deep_view()),
{
    let i: usize = match find(
        statements,
        |s: &Statement| -> (hit: bool)
            ensures
                hit == statement_has_id(b.statement@)(s.deep_view())
            { str_eq(s.id.as_str(), b.statement.as_str()) },
        Ghost(statement_has_id(b.statement@)),
    ) {
        Some(i) => i,
        None => {
            return Ok(None);
        },
    };
    let s = &statements[i];
    assert(statements.deep_view()[i as int] == s.deep_view());
    let object = match show_object(db, &s.object, literals) {
        Ok(t) => t,
        Err(e) => {
            return Err(e);
        },
    };
    let entity = match &s.object {
        Object::Entity(id) => Some(id.clone()),
        Object::Literal(_) => None,
    };
    let parsed = parse_json(b.support_json.as_str());
    match support_counts(&parsed) {
        None => Err(
            BrainError::Corruption(
                crate::text::cat2("support of statement ", b.statement.as_str()),
            ),
        ),
        Some(c) => Ok(
            Some(
                BeliefRow {
                    statement_id: b.statement.clone(),
                    predicate: s.predicate.clone(),
                    object,
                    object_entity: entity,
                    valid_from: b.valid_from,
                    valid_to: b.valid_to,
                    confidence: b.confidence,
                    affirm: c.affirm,
                    deny: c.deny,
                    episodes: c.episodes,
                    status: b.status.clone(),
                },
            ),
        ),
    }
}

/// The order of belief rows: by predicate and object.
pub open spec fn by_claim() -> spec_fn(BeliefRowView, BeliefRowView) -> bool {
    |a: BeliefRowView, b: BeliefRowView| pair_le(a.predicate, a.object, b.predicate, b.object)
}

/// The rows of the beliefs about an entity, unordered.
pub open spec fn belief_rows(
    db: TablesView,
    space: Seq<char>,
    entity: Seq<char>,
    literals: Seq<(Seq<char>, Seq<char>)>,
) -> Result<Seq<BeliefRowView>, BrainErrorView> {
    tried(
        entity_beliefs(db, space, entity),
        belief_row(db, near(db, space, entity), literals),
    )
}

fn load_belief_rows(
    db: &Tables,
    space: &str,
    entity_id: &str,
    statements: &Vec<Statement>,
    literals: &Vec<(String, String)>,
) -> (r: Result<Vec<BeliefRow>, BrainError>)
    requires
        statements.deep_view() == near(db.deep_view(), space@, entity_id@),
    ensures
        match belief_rows(db.deep_view(), space@, entity_id@, literals.deep_view()) {
            Ok(v) => r is Ok && r->Ok_0.deep_view() == ordered(v, by_claim()),
            Err(e) => fails_with(r, e),
        },
{
    let beliefs = beliefs_for_entity(db, space, entity_id);
    let ghost g = belief_row(db.deep_view(), statements.deep_view(), literals.deep_view());
    match try_map(
        &beliefs,
        |b: &Belief| -> (u: Result<Option<BeliefRow>, BrainError>)
            ensures
                crate::rows::attempt_view(u) == g(b.deep_view())
            { make_belief_row(db, statements, literals, b) },
        Ghost(g),
    ) {
        Err(e) => Err(e),
        Ok(rows) => Ok(
            order(
                rows,
                |a: &BeliefRow, b: &BeliefRow| -> (le: bool)
                    ensures
                        le == by_claim()(a.deep_view(), b.deep_view())
                    {
                        pair_in_order(
                            a.predicate.as_str(),
                            a.object.as_str(),
                            b.predicate.as_str(),
                            b.object.as_str(),
                        )
                    },
                Ghost(by_claim()),
            ),
        ),
    }
}

/// The neighbour that a statement links to an entity.
pub open spec fn neighbour(
    db: TablesView,
    entity: Seq<char>,
) -> spec_fn(StatementView) -> Result<Option<NeighbourDataView>, BrainErrorView> {
    |s: StatementView|
        match s.object {
            ObjectView::Literal(_) => Ok(None),
            ObjectView::Entity(id) => {
                let other = if s.subject == entity {
                    id
                } else {
                    s.subject
                };
                let direction = if s.subject == entity {
                    "out"@
                } else {
                    "in"@
                };
                if s.subject != entity && id != entity {
                    Ok(None)
                } else {
                    match surface_form(db, other) {
                        Err(e) => Err(e),
                        Ok(surface) => Ok(
                            Some(
                                NeighbourDataView {
                                    surface,
                                    entity: other,
                                    predicate: s.predicate,
                                    direction,
                                },
                            ),
                        ),
                    }
                }
            },
        }
}

fn make_neighbour(db: &Tables, entity_id: &str, s: &Statement) -> (r: Result<
    Option<NeighbourData>,
    BrainError,
>)
    ensures
        crate::rows::attempt_view(r) == neighbour(db.deep_view(), entity_id@)(s.deep_view()),
{
    match &s.object {
        Object::Literal(_) => Ok(None),
        Object::Entity(id) => {
            let out: bool = str_eq(s.subject.as_str(), entity_id);
            if !out && !str_eq(id.as_str(), entity_id) {
                return Ok(None);
            }
            let other = if out {
                id.clone()
            } else {
                s.subject.clone()
            };
            let direction = if out {
                "out".to_owned()
            } else {
                "in".to_owned()
            };
            match entity_surface(db, other.as_str()) {
                Err(e) => Err(e),
                Ok(surface) => Ok(
                    Some(
                        NeighbourData {
                            surface,
                            entity: other,
                            predicate: s.predicate.clone(),
                            direction,
                        },
                    ),
                ),
            }
        },
    }
}

/// The order of neighbours: by surface, predicate and direction.
pub open spec fn by_name() -> spec_fn(NeighbourDataView, NeighbourDataView) -> bool {
    |a: NeighbourDataView, b: NeighbourDataView|
        if a.surface == b.surface {
            pair_le(a.predicate, a.direction, b.predicate, b.direction)
        } else {
            text_le(a.surface, b.surface)
        }
}

/// Whether two neighbours stand for the same link.
pub open spec fn same_link(a: NeighbourDataView, b: NeighbourDataView) -> bool {
    a.entity == b.entity && a.predicate == b.predicate && a.direction == b.direction
}

/// Neighbours without those that repeat the link just before them.
pub open spec fn unrepeated(s: Seq<NeighbourDataView>) -> Seq<NeighbourDataView>
    decreases s.len(),
{
    if s.len() == 0 {
        Seq::empty()
    } else {
        let before = unrepeated(s.drop_last());
        if before.len() > 0 && same_link(s.last(), before.last()) {
            before
        } else {
            before.push(s.last())
        }
    }
}

/// The neighbours of an entity, or the error of the first link whose other end
/// is not there.
pub open spec fn neighbours_of(
    db: TablesView,
    space: Seq<char>,
    entity: Seq<char>,
) -> Result<Seq<NeighbourDataView>, BrainErrorView> {
    match tried(near(db, space, entity), neighbour(db, entity)) {
        Err(e) => Err(e),
        Ok(v) => Ok(unrepeated(ordered(v, by_name()))),
    }
}

fn drop_repeated(links: Vec<NeighbourData>) -> (r: Vec<NeighbourData>)
    ensures
        r.deep_view() == unrepeated(links.deep_view()),
{
    let ghost all = links.deep_view();
    let mut out: Vec<NeighbourData> = Vec::new();
    let mut i: usize = 0;
    assert(all.take(0) =~= Seq::empty());
    assert(out.deep_view() =~= Seq::<NeighbourDataView>::empty());
    while i < links.len()
        invariant
            i <= links.len(),
            all == links.deep_view(),
            out.deep_view() == unrepeated(all.take(i as int)),
        decreases links.len() - i,
    {
        let ghost before = out.deep_view();
        proof {
            assert(all.take(i + 1).drop_last() =~= all.take(i as int));
            assert(all.take(i + 1).last() == all[i as int]);
            assert(all[i as int] == links[i as int].deep_view());
        }
        let repeats = if out.len() > 0 {
            let last = &out[out.len() - 1];
            assert(before.last() == last.deep_view());
            str_eq(links[i].entity.as_str(), last.entity.as_str()) && str_eq(
                links[i].predicate.as_str(),
                last.predicate.as_str(),
            ) && str_eq(links[i].direction.as_str(), last.direction.as_str())
        } else {
            false
        };
        if !repeats {
            out.push(links[i].dup());
            assert(out.deep_view() =~= before.push(all[i as int]));
        }
        i = i + 1;
    }
    assert(all.take(i as int) =~= all);
    out
}

fn build_neighbours(
    db: &Tables,
    statements: &Vec<Statement>,
    space: &str,
    entity_id: &str,
) -> (r: Result<Vec<NeighbourData>, BrainError>)
    requires
        statements.deep_view() == near(db.deep_view(), space@, entity_id@),
    ensures
        match neighbours_of(db.deep_view(), space@, entity_id@) {
            Ok(v) => r is Ok && r->Ok_0.deep_view() == v,
            Err(e) => fails_with(r, e),
        },
{
    let ghost g = neighbour(db.deep_view(), entity_id@);
    match try_map(
        statements,
        |s: &Statement| -> (u: Result<Option<NeighbourData>, BrainError>)
            ensures
                crate::rows::attempt_view(u) == g(s.deep_view())
            { make_neighbour(db, entity_id, s) },
        Ghost(g),
    ) {
        Err(e) => Err(e),
        Ok(links) => {
            let sorted = order(
                links,
                |a: &NeighbourData, b: &NeighbourData| -> (le: bool)
                    ensures
                        le == by_name()(a.deep_view(), b.deep_view())
                    {
                        if str_eq(a.surface.as_str(), b.surface.as_str()) {
                            pair_in_order(
                                a.predicate.as_str(),
                                a.direction.as_str(),
                                b.predicate.as_str(),
                                b.direction.as_str(),
                            )
                        } else {
                            str_le(a.surface.as_str(), b.surface.as_str())
                        }
                    },
                Ghost(by_name()),
            );
            Ok(drop_repeated(sorted))
        },
    }
}

/// Canonical surface for an entity id (the display name used in links).
pub fn surface_of(db: &Tables, entity_id: &str) -> (r: Result<String, BrainError>)
    ensures
        match surface_form(db.deep_view(), entity_id@) {
            Ok(s) => r is Ok && r->Ok_0@ == s,
            Err(e) => fails_with(r, e),
        },
{
    entity_surface(db, entity_id)
}

/// Selects a statement by id, where it touches an entity.
pub open spec fn is_touching_statement(
    space: Seq<char>,
    entity: Seq<char>,
    id: Seq<char>,
) -> spec_fn(StatementView) -> bool {
    |s: StatementView| s.id == id && touches(space, entity)(s)
}

/// Selects the assertions of an episode about an entity.
pub open spec fn speaks_of(
    db: TablesView,
    space: Seq<char>,
    entity: Seq<char>,
    episode: Seq<char>,
) -> spec_fn(AssertionView) -> bool {
    |a: AssertionView|
        a.episode == episode && some_where(
            db.statements,
            is_touching_statement(space, entity, a.statement),
        )
}

/// Selects the episodes that speak of an entity.
pub open spec fn is_source(
    db: TablesView,
    space: Seq<char>,
    entity: Seq<char>,
) -> spec_fn(EpisodeRowView) -> bool {
    |e: EpisodeRowView| some_where(db.assertions, speaks_of(db, space, entity, e.id))
}

/// What is shown of an episode.
pub open spec fn source_data() -> spec_fn(EpisodeRowView) -> SourceDataView {
    |e: EpisodeRowView|
        SourceDataView { episode: e.id, kind: e.source_kind, occurred_at: e.occurred_at }
}

/// The episodes that speak of an entity, in the order of the ledger.
pub open spec fn sources_of(db: TablesView, space: Seq<char>, entity: Seq<char>) -> Seq<
    SourceDataView,
> {
    ordered(
        db.episodes.filter(is_source(db, space, entity)),
        crate::ledger::by_seq(),
    ).map_values(source_data())
}

fn load_sources(db: &Tables, space: &str, entity_id: &str) -> (r: Vec<SourceData>)
    ensures
        r.deep_view() == sources_of(db.deep_view(), space@, entity_id@),
{
    let ghost view = db.deep_view();
    let ghost p = is_source(view, space@, entity_id@);
    let found = order(
        select(
            &db.episodes,
            |e: &EpisodeRow| -> (b: bool)
                ensures
                    b == p(e.deep_view())
                {
                    let hit = find(
                        &db.assertions,
                        |a: &Assertion| -> (b: bool)
                            ensures
                                b == speaks_of(view, space@, entity_id@, e.id@)(a.deep_view())
                            {
                                let statement = find(
                                    &db.statements,
                                    |s: &Statement| -> (b: bool)
                                        ensures
                                            b == is_touching_statement(
                                                space@,
                                                entity_id@,
                                                a.statement@,
                                            )(s.deep_view())
                                        {
                                            str_eq(s.id.as_str(), a.statement.as_str())
                                                && is_touching(s, space, entity_id)
                                        },
                                    Ghost(
                                        is_touching_statement(space@, entity_id@, a.statement@),
                                    ),
                                );
                                str_eq(a.episode.as_str(), e.id.as_str()) && statement.is_some()
                            },
                        Ghost(speaks_of(view, space@, entity_id@, e.id@)),
                    );
                    hit.is_some()
                },
            Ghost(p),
        ),
        |a: &EpisodeRow, b: &EpisodeRow| -> (le: bool)
            ensures
                le == crate::ledger::by_seq()(a.deep_view(), b.deep_view())
            { a.seq <= b.seq },
        Ghost(crate::ledger::by_seq()),
    );
    map_rows(
        &found,
        |e: &EpisodeRow| -> (s: SourceData)
            ensures
                s.deep_view() == source_data()(e.deep_view())
            {
                SourceData {
                    episode: e.id.clone(),
                    kind: e.source_kind.clone(),
                    occurred_at: e.occurred_at,
                }
            },
        Ghost(source_data()),
    )
}

/// Selects the assertions of one side.
pub open spec fn is_side(side: Polarity) -> spec_fn(AssertionView) -> bool {
    |a: AssertionView| a.polarity == side
}

/// The episode of an assertion.
pub open spec fn episode_of() -> spec_fn(AssertionView) -> Seq<char> {
    |a: AssertionView| a.episode
}

/// The episodes on one side of a statement, in order, each once.
pub open spec fn side_episodes(db: TablesView, statement: Seq<char>, side: Polarity) -> Seq<
    Seq<char>,
> {
    distinct(
        ordered(
            db.assertions.filter(asserts(statement)).filter(is_side(side)).map_values(
                episode_of(),
            ),
            crate::text::by_text(),
        ),
    )
}

fn list_side(assertions: &Vec<Assertion>, side: Polarity) -> (r: Vec<String>)
    ensures
        r.deep_view() == distinct(
            ordered(
                assertions.deep_view().filter(is_side(side)).map_values(episode_of()),
                crate::text::by_text(),
            ),
        ),
{
    unique_texts(
        sorted_texts(
            pick(
                assertions,
                |a: &Assertion| -> (b: bool)
                    ensures
                        b == is_side(side)(a.deep_view())
                    { a.polarity == side },
                |a: &Assertion| -> (s: String)
                    ensures
                        s.deep_view() == episode_of()(a.deep_view())
                    { a.episode.clone() },
                Ghost(is_side(side)),
                Ghost(episode_of()),
            ),
        ),
    )
}

/// The contradiction that a belief row stands for.
pub open spec fn contradiction_of(db: TablesView) -> spec_fn(
    BeliefRowView,
) -> ContradictionDataView {
    |b: BeliefRowView|
        ContradictionDataView {
            predicate: b.predicate,
            object: b.object,
            affirm_episodes: side_episodes(db, b.statement_id, Polarity::Affirm),
            deny_episodes: side_episodes(db, b.statement_id, Polarity::Deny),
        }
}

/// Selects the contradicted belief rows.
pub open spec fn is_disputed() -> spec_fn(BeliefRowView) -> bool {
    |b: BeliefRowView| b.status == "contradicted"@
}

/// The order of contradictions: by predicate and object.
pub open spec fn by_dispute() -> spec_fn(ContradictionDataView, ContradictionDataView) -> bool {
    |a: ContradictionDataView, b: ContradictionDataView|
        pair_le(a.predicate, a.object, b.predicate, b.object)
}

fn load_contradictions(db: &Tables, beliefs: &Vec<BeliefRow>) -> (r: Vec<ContradictionData>)
    ensures
        r.deep_view() == ordered(
            beliefs.deep_view().filter(is_disputed()).map_values(
                contradiction_of(db.deep_view()),
            ),
            by_dispute(),
        ),
{
    let ghost view = db.deep_view();
    order(
        pick(
            beliefs,
            |b: &BeliefRow| -> (hit: bool)
                ensures
                    hit == is_disputed()(b.deep_view())
                { str_eq(b.status.as_str(), "contradicted") },
            |b: &BeliefRow| -> (c: ContradictionData)
                ensures
                    c.deep_view() == contradiction_of(view)(b.deep_view())
                {
                    let assertions = get_assertions_for_statement(db, b.statement_id.as_str());
                    ContradictionData {
                        predicate: b.predicate.clone(),
                        object: b.object.clone(),
                        affirm_episodes: list_side(&assertions, Polarity::Affirm),
                        deny_episodes: list_side(&assertions, Polarity::Deny),
                    }
                },
            Ghost(is_disputed()),
            Ghost(contradiction_of(view)),
        ),
        |a: &ContradictionData, b: &ContradictionData| -> (le: bool)
            ensures
                le == by_dispute()(a.deep_view(), b.deep_view())
            {
                pair_in_order(
                    a.predicate.as_str(),
                    a.object.as_str(),
                    b.predicate.as_str(),
                    b.object.as_str(),
                )
            },
        Ghost(by_dispute()),
    )
}

/// The brief of an entity that was not merged away.
pub open spec fn brief_of(
    db: TablesView,
    space: Seq<char>,
    e: EntityView,
    id: Seq<char>,
    literals: Seq<(Seq<char>, Seq<char>)>,
) -> Result<EntityBriefDataView, BrainErrorView> {
    let keys = keys_of(db, id);
    let surface = brief_surface(e, keys);
    match (belief_rows(db, space, id, literals), neighbours_of(db, space, id)) {
        (Err(e), _) => Err(e),
        (Ok(_), Err(e)) => Err(e),
        (Ok(rows), Ok(neighbours)) => {
            let beliefs = ordered(rows, by_claim());
            Ok(
                EntityBriefDataView {
                    entity: e,
                    canonical_surface: surface,
                    aliases: aliases_of(surface, keys),
                    beliefs,
                    neighbours,
                    timeline: ordered(
                        db.beliefs.filter(
                            believed_within(db, space, id, i64::MIN as int, i64::MAX as int),
                        ).map_values(timeline_entry(db)),
                        by_valid_from(),
                    ).map_values(displayed(db, literals)),
                    sources: sources_of(db, space, id),
                    contradictions: ordered(
                        beliefs.filter(is_disputed()).map_values(contradiction_of(db)),
                        by_dispute(),
                    ),
                },
            )
        },
    }
}

/// The brief of an entity, under whatever id it was merged from.
pub open spec fn entity_briefed(
    db: TablesView,
    space: Seq<char>,
    entity: Seq<char>,
    literals: Seq<(Seq<char>, Seq<char>)>,
) -> Result<EntityBriefDataView, BrainErrorView> {
    match resolved(db.entities, seq![entity]) {
        Err(e) => Err(e),
        Ok(id) => match first_where(db.entities, entity_has_id(id)) {
            None => Err(
                BrainErrorView::NotFound("entity "@ + id + " not found in space "@ + space),
            ),
            Some(e) => brief_of(db, space, e, id, literals),
        },
    }
}

/// Fetch the data for an entity brief. Follows the merge chain so a merged-away
/// id renders as its ultimate winner. `literals` gives the texts that are shown
/// for literals.
pub fn entity_brief(
    db: &Tables,
    space: &str,
    entity_id: &str,
    literals: &Vec<(String, String)>,
) -> (r: Result<EntityBriefData, BrainError>)
    ensures
        match entity_briefed(db.deep_view(), space@, entity_id@, literals.deep_view()) {
            Ok(v) => r is Ok && r->Ok_0.deep_view() == v,
            Err(e) => fails_with(r, e),
        },
{
    let id = match resolve_entity(db, entity_id) {
        Ok(id) => id,
        Err(e) => {
            return Err(e);
        },
    };
    let entity = match get_entity(db, id.as_str()) {
        Some(e) => e,
        None => {
            return Err(
                BrainError::NotFound(cat4("entity ", id.as_str(), " not found in space ", space)),
            );
        },
    };
    let keys = load_keys(db, id.as_str());
    assert(keys.deep_view().len() == keys.len());
    let canonical_surface = match canonical_key_surface(&entity, &keys) {
        Some(s) => s,
        None => if keys.len() > 0 {
            assert(keys.deep_view()[0] == keys[0].deep_view());
            keys[0].surface.clone()
        } else {
            String::new()
        },
    };
    let aliases = list_aliases(canonical_surface.as_str(), &keys);
    let statements = load_statements(db, space, id.as_str());
    let beliefs = match load_belief_rows(db, space, id.as_str(), &statements, literals) {
        Ok(v) => v,
        Err(e) => {
            return Err(e);
        },
    };
    let neighbours = match build_neighbours(db, &statements, space, id.as_str()) {
        Ok(v) => v,
        Err(e) => {
            return Err(e);
        },
    };
    let shown = timeline(db, space, id.as_str(), None, None, literals);
    let sources = load_sources(db, space, id.as_str());
    let contradictions = load_contradictions(db, &beliefs);
    Ok(
        EntityBriefData {
            entity,
            canonical_surface,
            aliases,
            beliefs,
            neighbours,
            timeline: shown,
            sources,
            contradictions,
        },
    )
}

/// A merged-away entity has the brief of its ultimate winner.
pub proof fn law_brief_follows_merges(
    db: TablesView,
    space: Seq<char>,
    entity: Seq<char>,
    winner: Seq<char>,
    literals: Seq<(Seq<char>, Seq<char>)>,
)
    requires
        resolved(db.entities, seq![entity]) == Ok::<Seq<char>, BrainErrorView>(winner),
    ensures
        entity_briefed(db, space, entity, literals) == entity_briefed(db, space, winner, literals),
{
    crate::knowledge::law_resolution_is_final(db.entities, entity);
}

/// Everything needed to render the brief of a space.
#[derive(Debug)]
pub struct SpaceBriefData {
    pub space_name: String,
    pub stats: SpaceCounts,
    pub top_entities: Vec<EntityLinkRow>,
}

/// Counts surfaced on a space brief.
#[derive(Debug, Clone, Copy, PartialEq, Eq, Structural)]
pub struct SpaceCounts {
    pub episodes: usize,
    pub entities: usize,
    pub statements: usize,
    pub contradictions: usize,
}

/// Everything needed to render the brief of a topic.
#[derive(Debug)]
pub struct TopicBriefData {
    pub topic: String,
    pub matched_entities: Vec<EntityLinkRow>,
}

/// Selects the other statements with the subject and predicate of one.
pub open spec fn is_rival(s: StatementView) -> spec_fn(StatementView) -> bool {
    |t: StatementView|
        t.space == s.space && t.subject == s.subject && t.predicate == s.predicate && t.id != s.id
}

/// Selects the statements of a space that say something else of the same
/// subject and predicate as another.
pub open spec fn has_rival(db: TablesView, space: Seq<char>) -> spec_fn(StatementView) -> bool {
    |s: StatementView| s.space == space && some_where(db.statements, is_rival(s))
}

/// The predicate of a statement.
pub open spec fn predicate_of() -> spec_fn(StatementView) -> Seq<char> {
    |s: StatementView| s.predicate
}

/// How many predicates link an entity.
pub open spec fn predicate_count(db: TablesView, space: Seq<char>, entity: Seq<char>) -> nat {
    distinct(db.statements.filter(touches(space, entity)).map_values(predicate_of())).len()
}

fn count_predicates(db: &Tables, space: &str, entity_id: &str) -> (r: usize)
    ensures
        r == predicate_count(db.deep_view(), space@, entity_id@),
{
    let found = unique_texts(
        pick(
            &db.statements,
            |s: &Statement| -> (b: bool)
                ensures
                    b == touches(space@, entity_id@)(s.deep_view())
                { is_touching(s, space, entity_id) },
            |s: &Statement| -> (p: String)
                ensures
                    p.deep_view() == predicate_of()(s.deep_view())
                { s.predicate.clone() },
            Ghost(touches(space@, entity_id@)),
            Ghost(predicate_of()),
        ),
    );
    assert(found.deep_view().len() == found.len());
    found.len()
}

/// The link of an entity with a surface form.
pub open spec fn link(
    db: TablesView,
    space: Seq<char>,
    entity: Seq<char>,
    surface: Seq<char>,
) -> EntityLinkRowView {
    EntityLinkRowView {
        surface,
        entity_id: entity,
        predicate_count: predicate_count(db, space, entity) as usize,
    }
}

/// The link of an entity under its first surface form, or its id.
pub open spec fn space_link(
    db: TablesView,
    space: Seq<char>,
) -> spec_fn(EntityView) -> EntityLinkRowView {
    |e: EntityView|
        link(
            db,
            space,
            e.id,
            if keys_of(db, e.id).len() > 0 {
                keys_of(db, e.id)[0].surface
            } else {
                e.id
            },
        )
}

/// The order of links: the most linked first, then by surface form.
pub open spec fn by_weight() -> spec_fn(EntityLinkRowView, EntityLinkRowView) -> bool {
    |a: EntityLinkRowView, b: EntityLinkRowView|
        if a.predicate_count == b.predicate_count {
            text_le(a.surface, b.surface)
        } else {
            a.predicate_count > b.predicate_count
        }
}

fn by_weight_order(links: Vec<EntityLinkRow>) -> (r: Vec<EntityLinkRow>)
    ensures
        r.deep_view() == ordered(links.deep_view(), by_weight()),
{
    order(
        links,
        |a: &EntityLinkRow, b: &EntityLinkRow| -> (le: bool)
            ensures
                le == by_weight()(a.deep_view(), b.deep_view())
            {
                if a.predicate_count == b.predicate_count {
                    str_le(a.surface.as_str(), b.surface.as_str())
                } else {
                    a.predicate_count > b.predicate_count
                }
            },
        Ghost(by_weight()),
    )
}

fn count_space(db: &Tables, space: &str) -> (r: SpaceCounts)
    ensures
        r.episodes == db.deep_view().episodes.filter(is_live_episode(space@)).len(),
        r.entities == db.deep_view().entities.filter(is_live_in(space@)).len(),
        r.statements == db.deep_view().statements.filter(statement_in(space@)).len(),
        r.contradictions == distinct(
            db.deep_view().statements.filter(has_rival(db.deep_view(), space@)).map_values(
                statement_id_of(),
            ),
        ).len(),
{
    let ghost view = db.deep_view();
    let episodes: usize = count(
        &db.episodes,
        |e: &EpisodeRow| -> (b: bool)
            ensures
                b == is_live_episode(space@)(e.deep_view())
            { str_eq(e.space.as_str(), space) && e.redacted_at.is_none() },
        Ghost(is_live_episode(space@)),
    );
    let entities: usize = count(
        &db.entities,
        |e: &Entity| -> (b: bool)
            ensures
                b == is_live_in(space@)(e.deep_view())
            { str_eq(e.space.as_str(), space) && e.merged_into.is_none() },
        Ghost(is_live_in(space@)),
    );
    let statements: usize = count(
        &db.statements,
        |s: &Statement| -> (b: bool)
            ensures
                b == statement_in(space@)(s.deep_view())
            { str_eq(s.space.as_str(), space) },
        Ghost(statement_in(space@)),
    );
    let rivals = unique_texts(
        pick(
            &db.statements,
            |s: &Statement| -> (b: bool)
                ensures
                    b == has_rival(view, space@)(s.deep_view())
                {
                    let other = find(
                        &db.statements,
                        |t: &Statement| -> (b: bool)
                            ensures
                                b == is_rival(s.deep_view())(t.deep_view())
                            {
                                str_eq(t.space.as_str(), s.space.as_str()) && str_eq(
                                    t.subject.as_str(),
                                    s.subject.as_str(),
                                ) && str_eq(t.predicate.as_str(), s.predicate.as_str())
                                    && !str_eq(t.id.as_str(), s.id.as_str())
                            },
                        Ghost(is_rival(s.deep_view())),
                    );
                    str_eq(s.space.as_str(), space) && other.is_some()
                },
            |s: &Statement| -> (i: String)
                ensures
                    i.deep_view() == statement_id_of()(s.deep_view())
                { s.id.clone() },
            Ghost(has_rival(view, space@)),
            Ghost(statement_id_of()),
        ),
    );
    assert(rivals.deep_view().len() == rivals.len());
    SpaceCounts { episodes, entities, statements, contradictions: rivals.len() }
}

/// Fetch the data for a space brief. `limit` caps the top-entities list.
pub fn space_brief(db: &Tables, space: &str, limit: usize) -> (r: SpaceBriefData)
    ensures
        r.space_name@ == space@,
        r.stats.episodes == db.deep_view().episodes.filter(is_live_episode(space@)).len(),
        r.stats.entities == db.deep_view().entities.filter(is_live_in(space@)).len(),
        r.stats.statements == db.deep_view().statements.filter(statement_in(space@)).len(),
        r.stats.contradictions == distinct(
            db.deep_view().statements.filter(has_rival(db.deep_view(), space@)).map_values(
                statement_id_of(),
            ),
        ).len(),
        r.top_entities.deep_view() == first_n(
            ordered(
                db.deep_view().entities.filter(is_live_in(space@)).map_values(
                    space_link(db.deep_view(), space@),
                ),
                by_weight(),
            ),
            limit as nat,
        ),
{
    let ghost view = db.deep_view();
    let links = pick(
        &db.entities,
        |e: &Entity| -> (b: bool)
            ensures
                b == is_live_in(space@)(e.deep_view())
            { str_eq(e.space.as_str(), space) && e.merged_into.is_none() },
        |e: &Entity| -> (l: EntityLinkRow)
            ensures
                l.deep_view() == space_link(view, space@)(e.deep_view())
            {
                let keys = load_keys(db, e.id.as_str());
                assert(keys.deep_view().len() == keys.len());
                let surface = if keys.len() > 0 {
                    assert(keys.deep_view()[0] == keys[0].deep_view());
                    keys[0].surface.clone()
                } else {
                    e.id.clone()
                };
                EntityLinkRow {
                    surface,
                    entity_id: e.id.clone(),
                    predicate_count: count_predicates(db, space, e.id.as_str()),
                }
            },
        Ghost(is_live_in(space@)),
        Ghost(space_link(view, space@)),
    );
    SpaceBriefData {
        space_name: space.to_owned(),
        stats: count_space(db, space),
        top_entities: limited(by_weight_order(links), limit),
    }
}

/// A text in lower case, as `str::to_lowercase` gives it.
pub uninterp spec fn lowercase(text: Seq<char>) -> Seq<char>;

/// `str::to_lowercase`: a function of the text alone.
#[verifier::external_body]
fn to_lowercase(text: &str) -> (r: String)
    ensures
        r@ == lowercase(text@),
{
    text.to_lowercase()
}

/// Selects, among keys with their surfaces in lower case, those of live entities
/// of a space that hold a topic.
pub open spec fn is_topical(
    db: TablesView,
    space: Seq<char>,
    topic: Seq<char>,
) -> spec_fn((EntityKeyView, Seq<char>)) -> bool {
    |p: (EntityKeyView, Seq<char>)|
        p.0.space == space && occurs_in(p.1, topic) && match first_where(
            db.entities,
            entity_has_id(p.0.entity),
        ) {
            Some(e) => e.merged_into is None,
            None => false,
        }
}

/// The link of an entity under the surface form of a key.
pub open spec fn topic_link(
    db: TablesView,
    space: Seq<char>,
) -> spec_fn((EntityKeyView, Seq<char>)) -> EntityLinkRowView {
    |p: (EntityKeyView, Seq<char>)| link(db, space, p.0.entity, p.0.surface)
}

/// Links without those of an entity that stands earlier.
pub open spec fn once_each(s: Seq<EntityLinkRowView>) -> Seq<EntityLinkRowView>
    decreases s.len(),
{
    if s.len() == 0 {
        Seq::empty()
    } else {
        let before = once_each(s.drop_last());
        if some_where(before, is_link_of(s.last().entity_id)) {
            before
        } else {
            before.push(s.last())
        }
    }
}

/// Selects the link of an entity.
pub open spec fn is_link_of(entity: Seq<char>) -> spec_fn(EntityLinkRowView) -> bool {
    |l: EntityLinkRowView| l.entity_id == entity
}

/// The entities that match a topic, each once under its weightiest match, out of
/// the first matches.
pub open spec fn topic_links(
    db: TablesView,
    space: Seq<char>,
    topic: Seq<char>,
    keys: Seq<(EntityKeyView, Seq<char>)>,
    limit: nat,
) -> Seq<EntityLinkRowView> {
    first_n(
        once_each(
            first_n(
                ordered(
                    keys.filter(is_topical(db, space, topic)).map_values(topic_link(db, space)),
                    by_weight(),
                ),
                2 * limit,
            ),
        ),
        limit,
    )
}

fn keep_once(links: Vec<EntityLinkRow>) -> (r: Vec<EntityLinkRow>)
    ensures
        r.deep_view() == once_each(links.deep_view()),
{
    let ghost all = links.deep_view();
    let mut out: Vec<EntityLinkRow> = Vec::new();
    let mut i: usize = 0;
    assert(all.take(0) =~= Seq::empty());
    assert(out.deep_view() =~= Seq::<EntityLinkRowView>::empty());
    while i < links.len()
        invariant
            i <= links.len(),
            all == links.deep_view(),
            out.deep_view() == once_each(all.take(i as int)),
        decreases links.len() - i,
    {
        let ghost before = out.deep_view();
        let ghost id = all[i as int].entity_id;
        proof {
            assert(all.take(i + 1).drop_last() =~= all.take(i as int));
            assert(all.take(i + 1).last() == all[i as int]);
            assert(all[i as int] == links[i as int].deep_view());
        }
        let seen = find(
            &out,
            |l: &EntityLinkRow| -> (b: bool)
                ensures
                    b == is_link_of(id)(l.deep_view())
                { str_eq(l.entity_id.as_str(), links[i].entity_id.as_str()) },
            Ghost(is_link_of(id)),
        );
        if seen.is_none() {
            out.push(links[i].dup());
            assert(out.deep_view() =~= before.push(all[i as int]));
        }
        i = i + 1;
    }
    assert(all.take(i as int) =~= all);
    out
}

/// The entities of a space that match a topic. The topic and, beside each key,
/// its surface form are given in lower case.
pub fn topic_matches(
    db: &Tables,
    space: &str,
    topic: &str,
    keys: &Vec<(EntityKey, String)>,
    limit: usize,
) -> (r: Vec<EntityLinkRow>)
    ensures
        r.deep_view() == topic_links(
            db.deep_view(),
            space@,
            topic@,
            keys.deep_view(),
            limit as nat,
        ),
{
    let ghost view = db.deep_view();
    let links = pick(
        keys,
        |p: &(EntityKey, String)| -> (b: bool)
            ensures
                b == is_topical(view, space@, topic@)(p.deep_view())
            {
                let live = match get_entity(db, p.0.entity.as_str()) {
                    Some(e) => e.merged_into.is_none(),
                    None => false,
                };
                str_eq(p.0.space.as_str(), space) && contains_text(p.1.as_str(), topic) && live
            },
        |p: &(EntityKey, String)| -> (l: EntityLinkRow)
            ensures
                l.deep_view() == topic_link(view, space@)(p.deep_view())
            {
                EntityLinkRow {
                    surface: p.0.surface.clone(),
                    entity_id: p.0.entity.clone(),
                    predicate_count: count_predicates(db, space, p.0.entity.as_str()),
                }
            },
        Ghost(is_topical(view, space@, topic@)),
        Ghost(topic_link(view, space@)),
    );
    let sorted = by_weight_order(links);
    let ghost all = sorted.deep_view();
    let twice: usize = if limit < sorted.len() {
        if limit <= sorted.len() - limit {
            2 * limit
        } else {
            sorted.len()
        }
    } else {
        sorted.len()
    };
    let head = limited(sorted, twice);
    assert(head.deep_view() =~= first_n(all, 2 * limit as nat));
    limited(keep_once(head), limit)
}

/// A key with its surface form in lower case.
pub open spec fn lowered() -> spec_fn(EntityKeyView) -> (EntityKeyView, Seq<char>) {
    |k: EntityKeyView| (k, lowercase(k.surface))
}

/// Fetch the data for a topic brief. Matches entity keys whose surface contains
/// the topic, whatever the case of letters; each entity is listed once. `limit`
/// caps the match list.
pub fn topic_brief(db: &Tables, space: &str, topic: &str, limit: usize) -> (r: TopicBriefData)
    ensures
        r.topic@ == topic@,
        r.matched_entities.deep_view() == topic_links(
            db.deep_view(),
            space@,
            lowercase(topic@),
            db.deep_view().keys.map_values(lowered()),
            limit as nat,
        ),
{
    let low = to_lowercase(topic);
    let keys = map_rows(
        &db.keys,
        |k: &EntityKey| -> (p: (EntityKey, String))
            ensures
                p.deep_view() == lowered()(k.deep_view())
            { (k.dup(), to_lowercase(k.surface.as_str())) },
        Ghost(lowered()),
    );
    TopicBriefData {
        topic: topic.to_owned(),
        matched_entities: topic_matches(db, space, low.as_str(), &keys, limit),
    }
}

} // verus!
