//! From a declaration to what is believed.
//!
//! A declaration becomes an episode; its entities are resolved, its statement,
//! assertion and mentions are written, and the beliefs of the affected group
//! are folded again. Resolving, naming and folding are answered from outside:
//! each stage of the work asks its question, and takes the answer to the next
//! stage. All of it belongs in one transaction.
use vstd::prelude::*;

use crate::error::{fails_with, BrainError, BrainErrorView};
use crate::knowledge::{
    assertion_has_id, entity_has_id, find_keys_for_type, get_statement_group, insert_assertion,
    insert_entity, insert_entity_key, insert_mention, insert_merge, insert_statement,
    is_key_of_type, key_has_id, mention_has_id, merge_has_id, merged_away, set_merged_into,
    statement_group, statement_has_id,
};
use crate::ledger::{
    episode_after, insert_episode, seqs_fit, with_episode, Episode, EpisodeKind, EpisodeView,
    SourceRef, SourceRefView,
};
use crate::redaction::{Refold, RefoldView};
use crate::registry::{load_predicate, predicate_named};
use crate::rows::{first_where, or_ignore, update, updated, Row};
use crate::tables::{
    Assertion, AssertionView, Entity, EntityKey, EntityKeyView, EntityMerge, EntityMergeView,
    EntityView, KeyOrigin, Mention, MentionRole, MentionView, MergeDecision, MergeDecisionView,
    Object, ObjectView, Polarity, ResolutionMethod, ResolutionMethodView, Statement, StatementView,
    Tables, TablesView, TrustTier,
};
use crate::text::{cat2, cat3, str_eq};
use crate::time::Timestamp;

verus! {

/// A reference to an entity by surface form + type.
#[derive(Debug)]
pub struct EntityRef {
    pub surface: String,
    pub ty: String,
}

/// [`EntityRef`] as a mathematical value.
#[verifier::ext_equal]
pub struct EntityRefView {
    pub surface: Seq<char>,
    pub ty: Seq<char>,
}

impl DeepView for EntityRef {
    type V = EntityRefView;

    open spec fn deep_view(&self) -> EntityRefView {
        EntityRefView {
            surface: self.surface@,
            ty: self.ty@,
        }
    }
}

impl Row for EntityRef {
    fn dup(&self) -> (r: Self) {
        EntityRef {
            surface: self.surface.clone(),
            ty: self.ty.clone(),
        }
    }
}

impl Clone for EntityRef {
    fn clone(&self) -> (r: Self)
        ensures
            r.deep_view() == self.deep_view(),
    {
        self.dup()
    }
}

/// The object of a declaration statement.
#[derive(Debug)]
pub enum DeclObject {
    Entity { surface: String, ty: String },
    Literal { literal_type: String, value: String },
}

/// [`DeclObject`] as a mathematical value.
#[verifier::ext_equal]
pub enum DeclObjectView {
    Entity { surface: Seq<char>, ty: Seq<char> },
    Literal { literal_type: Seq<char>, value: Seq<char> },
}

impl DeepView for DeclObject {
    type V = DeclObjectView;

    open spec fn deep_view(&self) -> DeclObjectView {
        match self {
            DeclObject::Entity { surface, ty } => DeclObjectView::Entity {
                surface: surface@,
                ty: ty@,
            },
            DeclObject::Literal { literal_type, value } => DeclObjectView::Literal {
                literal_type: literal_type@,
                value: value@,
            },
        }
    }
}

impl Row for DeclObject {
    fn dup(&self) -> (r: Self) {
        match self {
            DeclObject::Entity { surface, ty } => DeclObject::Entity {
                surface: surface.clone(),
                ty: ty.clone(),
            },
            DeclObject::Literal { literal_type, value } => DeclObject::Literal {
                literal_type: literal_type.clone(),
                value: value.clone(),
            },
        }
    }
}

impl Clone for DeclObject {
    fn clone(&self) -> (r: Self)
        ensures
            r.deep_view() == self.deep_view(),
    {
        self.dup()
    }
}

/// A declaration operation, the content of a declaration episode.
#[derive(Debug)]
pub enum Declaration {
    AddStatement {
        subject: EntityRef,
        predicate: String,
        object: DeclObject,
        polarity: String,
        valid_from: i64,
        valid_to: i64,
    },
    Merge { loser: EntityRef, winner: EntityRef },
    Retract { subject: EntityRef, predicate: String, object: DeclObject, episode: String },
}

/// [`Declaration`] as a mathematical value.
#[verifier::ext_equal]
pub enum DeclarationView {
    AddStatement {
        subject: EntityRefView,
        predicate: Seq<char>,
        object: DeclObjectView,
        polarity: Seq<char>,
        valid_from: i64,
        valid_to: i64,
    },
    Merge { loser: EntityRefView, winner: EntityRefView },
    Retract {
        subject: EntityRefView,
        predicate: Seq<char>,
        object: DeclObjectView,
        episode: Seq<char>,
    },
}

impl DeepView for Declaration {
    type V = DeclarationView;

    open spec fn deep_view(&self) -> DeclarationView {
        match self {
            Declaration::AddStatement {
                subject,
                predicate,
                object,
                polarity,
                valid_from,
                valid_to,
            } => DeclarationView::AddStatement {
                subject: subject.deep_view(),
                predicate: predicate@,
                object: object.deep_view(),
                polarity: polarity@,
                valid_from: *valid_from,
                valid_to: *valid_to,
            },
            Declaration::Merge { loser, winner } => DeclarationView::Merge {
                loser: loser.deep_view(),
                winner: winner.deep_view(),
            },
            Declaration::Retract { subject, predicate, object, episode } =>
                DeclarationView::Retract {
                    subject: subject.deep_view(),
                    predicate: predicate@,
                    object: object.deep_view(),
                    episode: episode@,
                },
        }
    }
}

impl Row for Declaration {
    fn dup(&self) -> (r: Self) {
        match self {
            Declaration::AddStatement {
                subject,
                predicate,
                object,
                polarity,
                valid_from,
                valid_to,
            } => Declaration::AddStatement {
                subject: subject.dup(),
                predicate: predicate.clone(),
                object: object.dup(),
                polarity: polarity.clone(),
                valid_from: *valid_from,
                valid_to: *valid_to,
            },
            Declaration::Merge { loser, winner } => Declaration::Merge {
                loser: loser.dup(),
                winner: winner.dup(),
            },
            Declaration::Retract { subject, predicate, object, episode } => Declaration::Retract {
                subject: subject.dup(),
                predicate: predicate.clone(),
                object: object.dup(),
                episode: episode.clone(),
            },
        }
    }
}

impl Clone for Declaration {
    fn clone(&self) -> (r: Self)
        ensures
            r.deep_view() == self.deep_view(),
    {
        self.dup()
    }
}

/// What resolving a surface form decided.
#[derive(Debug)]
pub enum Decision {
    Link { entity: String, method: ResolutionMethod },
    New { method: ResolutionMethod },
    Candidate { existing: String },
}

/// [`Decision`] as a mathematical value.
#[verifier::ext_equal]
pub enum DecisionView {
    Link { entity: Seq<char>, method: ResolutionMethodView },
    New { method: ResolutionMethodView },
    Candidate { existing: Seq<char> },
}

impl DeepView for Decision {
    type V = DecisionView;

    open spec fn deep_view(&self) -> DecisionView {
        match self {
            Decision::Link { entity, method } => DecisionView::Link {
                entity: entity@,
                method: method.deep_view(),
            },
            Decision::New { method } => DecisionView::New { method: method.deep_view() },
            Decision::Candidate { existing } => DecisionView::Candidate { existing: existing@ },
        }
    }
}

impl Row for Decision {
    fn dup(&self) -> (r: Self) {
        match self {
            Decision::Link { entity, method } => Decision::Link {
                entity: entity.clone(),
                method: method.dup(),
            },
            Decision::New { method } => Decision::New { method: method.dup() },
            Decision::Candidate { existing } => Decision::Candidate { existing: existing.clone() },
        }
    }
}

impl Clone for Decision {
    fn clone(&self) -> (r: Self)
        ensures
            r.deep_view() == self.deep_view(),
    {
        self.dup()
    }
}

/// The polarity that a declaration has where none is given.
pub fn default_polarity() -> (r: String)
    ensures
        r@ == "affirm"@,
{
    "affirm".to_owned()
}

/// The polarity of a name.
pub open spec fn polarity_of(name: Seq<char>) -> Option<Polarity> {
    if name == "affirm"@ {
        Some(Polarity::Affirm)
    } else if name == "deny"@ {
        Some(Polarity::Deny)
    } else {
        None
    }
}

fn read_polarity(name: &str) -> (r: Option<Polarity>)
    ensures
        r == polarity_of(name@),
{
    if str_eq(name, "affirm") {
        Some(Polarity::Affirm)
    } else if str_eq(name, "deny") {
        Some(Polarity::Deny)
    } else {
        None
    }
}

/// The answer to the question which entity a surface form names: its
/// normalized form, the decision, the id that a new entity gets, and the id of
/// the key that the surface form gets.
#[derive(Debug)]
pub struct Resolution {
    pub normalized: String,
    pub decision: Decision,
    pub new_entity: String,
    pub key_id: String,
}

/// [`Resolution`] as a mathematical value.
#[verifier::ext_equal]
pub struct ResolutionView {
    pub normalized: Seq<char>,
    pub decision: DecisionView,
    pub new_entity: Seq<char>,
    pub key_id: Seq<char>,
}

impl DeepView for Resolution {
    type V = ResolutionView;

    open spec fn deep_view(&self) -> ResolutionView {
        ResolutionView {
            normalized: self.normalized@,
            decision: self.decision.deep_view(),
            new_entity: self.new_entity@,
            key_id: self.key_id@,
        }
    }
}

impl ResolutionView {
    /// The entity that the surface form names.
    pub open spec fn entity(self) -> Seq<char> {
        match self.decision {
            DecisionView::Link { entity, method: _ } => entity,
            _ => self.new_entity,
        }
    }

    /// How it came to name it. A mere candidate for a merge counts as new.
    pub open spec fn method(self) -> ResolutionMethodView {
        match self.decision {
            DecisionView::Link { entity: _, method } => method,
            DecisionView::New { method } => method,
            DecisionView::Candidate { existing: _ } => ResolutionMethodView::New,
        }
    }
}

/// The salience of an entity that has none yet: the bit pattern of one.
pub const SALIENCE_DEFAULT: u64 = 4607182418800017408;

/// The row of a new entity.
pub open spec fn new_entity_row(
    id: Seq<char>,
    space: Seq<char>,
    ty: Seq<char>,
    now: Timestamp,
) -> EntityView {
    EntityView {
        id,
        space,
        ty,
        canonical_key: None,
        created_at: now,
        merged_into: None,
        salience: SALIENCE_DEFAULT,
        last_activity: None,
    }
}

/// The key under which a resolved surface form is kept.
pub open spec fn resolution_key(
    space: Seq<char>,
    eref: EntityRefView,
    res: ResolutionView,
) -> EntityKeyView {
    EntityKeyView {
        id: res.key_id,
        space,
        entity: res.entity(),
        ty: eref.ty,
        normalized: res.normalized,
        surface: eref.surface,
        origin: KeyOrigin::UserDeclared,
    }
}

/// The tables once a surface form was resolved: a new entity where the form is
/// not linked to one, and the form among the keys.
pub open spec fn with_resolution(
    db: TablesView,
    space: Seq<char>,
    eref: EntityRefView,
    res: ResolutionView,
    now: Timestamp,
) -> TablesView {
    let entities = if res.decision is Link {
        db.entities
    } else {
        or_ignore(
            db.entities,
            entity_has_id(res.new_entity),
            new_entity_row(res.new_entity, space, eref.ty, now),
        )
    };
    TablesView {
        entities,
        keys: or_ignore(db.keys, key_has_id(res.key_id), resolution_key(space, eref, res)),
        ..db
    }
}

/// Resolve or create an entity from a surface form + type, as `res` decided.
/// Returns the entity's id and how the mention came to name it.
pub fn resolve_or_create(
    db: &mut Tables,
    space: &str,
    eref: &EntityRef,
    res: &Resolution,
    now: Timestamp,
) -> (r: (String, ResolutionMethod))
    ensures
        r.0@ == res.deep_view().entity(),
        r.1.deep_view() == res.deep_view().method(),
        final(db).deep_view() == with_resolution(
            old(db).deep_view(),
            space@,
            eref.deep_view(),
            res.deep_view(),
            now,
        ),
{
    let (entity, method) = match &res.decision {
        Decision::Link { entity, method } => (entity.clone(), method.dup()),
        Decision::New { method } => (res.new_entity.clone(), method.dup()),
        Decision::Candidate { existing: _ } => (res.new_entity.clone(), ResolutionMethod::New),
    };
    let linked: bool = match &res.decision {
        Decision::Link { entity: _, method: _ } => true,
        _ => false,
    };
    if !linked {
        insert_entity(
            db,
            &Entity {
                id: res.new_entity.clone(),
                space: space.to_owned(),
                ty: eref.ty.clone(),
                canonical_key: None,
                created_at: now,
                merged_into: None,
                salience: SALIENCE_DEFAULT,
                last_activity: None,
            },
        );
    }
    let _new: bool = insert_entity_key(
        db,
        &EntityKey {
            id: res.key_id.clone(),
            space: space.to_owned(),
            entity: entity.clone(),
            ty: eref.ty.clone(),
            normalized: res.normalized.clone(),
            surface: eref.surface.clone(),
            origin: KeyOrigin::UserDeclared,
        },
    );
    (entity, method)
}

/// A literal value with its type. Numbers are bit patterns of double-precision
/// numbers.
#[derive(Debug)]
pub enum TypedValue {
    Text(String),
    Date(String),
    DateTime(String),
    Enum(String),
    Number(u64),
    Quantity { value: u64, unit: String },
    Bool(bool),
}

/// [`TypedValue`] as a mathematical value.
#[verifier::ext_equal]
pub enum TypedValueView {
    Text(Seq<char>),
    Date(Seq<char>),
    DateTime(Seq<char>),
    Enum(Seq<char>),
    Number(u64),
    Quantity { value: u64, unit: Seq<char> },
    Bool(bool),
}

impl DeepView for TypedValue {
    type V = TypedValueView;

    open spec fn deep_view(&self) -> TypedValueView {
        match self {
            TypedValue::Text(s) => TypedValueView::Text(s@),
            TypedValue::Date(s) => TypedValueView::Date(s@),
            TypedValue::DateTime(s) => TypedValueView::DateTime(s@),
            TypedValue::Enum(s) => TypedValueView::Enum(s@),
            TypedValue::Number(n) => TypedValueView::Number(*n),
            TypedValue::Quantity { value, unit } => TypedValueView::Quantity {
                value: *value,
                unit: unit@,
            },
            TypedValue::Bool(b) => TypedValueView::Bool(*b),
        }
    }
}

/// What reading a text as a number gave: the bit pattern of the number, or what
/// is wrong with the text.
pub open spec fn number_view(n: Result<u64, String>) -> Result<u64, Seq<char>> {
    match n {
        Ok(bits) => Ok(bits),
        Err(e) => Err(e@),
    }
}

/// The literal of a type name and a text. `number` is what reading the text as
/// a number gave, `label` what is said before what is wrong. A type name that
/// is not known is an error, or plain text where `lenient`.
pub open spec fn literal_of(
    lt: Seq<char>,
    value: Seq<char>,
    number: Result<u64, Seq<char>>,
    label: Seq<char>,
    lenient: bool,
) -> Result<TypedValueView, BrainErrorView> {
    if lt == "text"@ {
        Ok(TypedValueView::Text(value))
    } else if lt == "date"@ {
        Ok(TypedValueView::Date(value))
    } else if lt == "datetime"@ {
        Ok(TypedValueView::DateTime(value))
    } else if lt == "number"@ {
        match number {
            Ok(bits) => Ok(TypedValueView::Number(bits)),
            Err(e) => Err(BrainErrorView::Invalid("number"@ + label + e)),
        }
    } else if lt == "bool"@ {
        if value == "true"@ {
            Ok(TypedValueView::Bool(true))
        } else if value == "false"@ {
            Ok(TypedValueView::Bool(false))
        } else {
            Err(
                BrainErrorView::Invalid(
                    "bool"@ + label + "provided string was not `true` or `false`"@,
                ),
            )
        }
    } else if lenient {
        Ok(TypedValueView::Text(value))
    } else {
        Err(BrainErrorView::Invalid("unknown literal type: "@ + lt))
    }
}

pub(crate) fn read_literal(
    lt: &str,
    value: &str,
    number: &Result<u64, String>,
    label: &str,
    lenient: bool,
) -> (r: Result<TypedValue, BrainError>)
    ensures
        match literal_of(lt@, value@, number_view(*number), label@, lenient) {
            Ok(v) => r is Ok && r->Ok_0.deep_view() == v,
            Err(e) => fails_with(r, e),
        },
{
    if str_eq(lt, "text") {
        Ok(TypedValue::Text(value.to_owned()))
    } else if str_eq(lt, "date") {
        Ok(TypedValue::Date(value.to_owned()))
    } else if str_eq(lt, "datetime") {
        Ok(TypedValue::DateTime(value.to_owned()))
    } else if str_eq(lt, "number") {
        match number {
            Ok(bits) => Ok(TypedValue::Number(*bits)),
            Err(e) => Err(BrainError::Invalid(cat3("number", label, e.as_str()))),
        }
    } else if str_eq(lt, "bool") {
        if str_eq(value, "true") {
            Ok(TypedValue::Bool(true))
        } else if str_eq(value, "false") {
            Ok(TypedValue::Bool(false))
        } else {
            Err(
                BrainError::Invalid(
                    cat3("bool", label, "provided string was not `true` or `false`"),
                ),
            )
        }
    } else if lenient {
        Ok(TypedValue::Text(value.to_owned()))
    } else {
        Err(BrainError::Invalid(cat2("unknown literal type: ", lt)))
    }
}

/// The literal of a declared type name and text; `number` is what reading the
/// text as a number gave.
pub fn parse_literal(lt: &str, value: &str, number: &Result<u64, String>) -> (r: Result<
    TypedValue,
    BrainError,
>)
    ensures
        match literal_of(lt@, value@, number_view(*number), ": "@, false) {
            Ok(v) => r is Ok && r->Ok_0.deep_view() == v,
            Err(e) => fails_with(r, e),
        },
{
    read_literal(lt, value, number, ": ", false)
}

/// The question which entity a surface form names: the form, the space, where
/// it stands, and the keys that could match.
pub struct ResolveQuestion {
    pub space: String,
    pub eref: EntityRef,
    pub episode: String,
    pub span_start: u32,
    pub candidates: Vec<EntityKey>,
}

/// [`ResolveQuestion`] as a mathematical value.
#[verifier::ext_equal]
pub struct ResolveQuestionView {
    pub space: Seq<char>,
    pub eref: EntityRefView,
    pub episode: Seq<char>,
    pub span_start: u32,
    pub candidates: Seq<EntityKeyView>,
}

impl DeepView for ResolveQuestion {
    type V = ResolveQuestionView;

    open spec fn deep_view(&self) -> ResolveQuestionView {
        ResolveQuestionView {
            space: self.space@,
            eref: self.eref.deep_view(),
            episode: self.episode@,
            span_start: self.span_start,
            candidates: self.candidates.deep_view(),
        }
    }
}

/// The question for a surface form: every key of its type in the space is a
/// candidate.
pub open spec fn resolve_question(
    db: TablesView,
    space: Seq<char>,
    eref: EntityRefView,
    episode: Seq<char>,
    span_start: u32,
) -> ResolveQuestionView {
    ResolveQuestionView {
        space,
        eref,
        episode,
        span_start,
        candidates: db.keys.filter(is_key_of_type(space, eref.ty)),
    }
}

pub(crate) fn ask_resolution(
    db: &Tables,
    space: &str,
    eref: &EntityRef,
    episode: &str,
    span_start: u32,
) -> (r: ResolveQuestion)
    ensures
        r.deep_view() == resolve_question(
            db.deep_view(),
            space@,
            eref.deep_view(),
            episode@,
            span_start,
        ),
{
    ResolveQuestion {
        space: space.to_owned(),
        eref: eref.dup(),
        episode: episode.to_owned(),
        span_start,
        candidates: find_keys_for_type(db, space, eref.ty.as_str()),
    }
}

/// A statement with one assertion of it and the mentions in it.
pub struct AssertionPlan {
    pub statement: Statement,
    pub assertion: Assertion,
    pub subject_mention: Mention,
    pub object_mention: Option<Mention>,
}

/// [`AssertionPlan`] as a mathematical value.
#[verifier::ext_equal]
pub struct AssertionPlanView {
    pub statement: StatementView,
    pub assertion: AssertionView,
    pub subject_mention: MentionView,
    pub object_mention: Option<MentionView>,
}

impl DeepView for AssertionPlan {
    type V = AssertionPlanView;

    open spec fn deep_view(&self) -> AssertionPlanView {
        AssertionPlanView {
            statement: self.statement.deep_view(),
            assertion: self.assertion.deep_view(),
            subject_mention: self.subject_mention.deep_view(),
            object_mention: self.object_mention.deep_view(),
        }
    }
}

/// The tables with a statement, its assertion and its mentions written, each
/// unless its id is taken.
pub open spec fn with_assertion(db: TablesView, plan: AssertionPlanView) -> TablesView {
    let mentions = or_ignore(
        db.mentions,
        mention_has_id(plan.subject_mention.id),
        plan.subject_mention,
    );
    TablesView {
        statements: or_ignore(
            db.statements,
            statement_has_id(plan.statement.id),
            plan.statement,
        ),
        assertions: or_ignore(
            db.assertions,
            assertion_has_id(plan.assertion.id),
            plan.assertion,
        ),
        mentions: match plan.object_mention {
            Some(m) => or_ignore(mentions, mention_has_id(m.id), m),
            None => mentions,
        },
        ..db
    }
}

pub(crate) fn write_assertion(db: &mut Tables, plan: &AssertionPlan)
    ensures
        final(db).deep_view() == with_assertion(old(db).deep_view(), plan.deep_view()),
{
    insert_statement(db, &plan.statement);
    insert_assertion(db, &plan.assertion);
    insert_mention(db, &plan.subject_mention);
    match &plan.object_mention {
        Some(m) => insert_mention(db, m),
        None => {},
    }
}

/// Writing the same assertion again changes nothing.
pub proof fn law_writing_an_assertion_is_idempotent(db: TablesView, plan: AssertionPlanView)
    ensures
        with_assertion(with_assertion(db, plan), plan) == with_assertion(db, plan),
{
    let once = with_assertion(db, plan);
    let twice = with_assertion(once, plan);
    lemma_taken(db.statements, statement_has_id(plan.statement.id), plan.statement);
    lemma_taken(db.assertions, assertion_has_id(plan.assertion.id), plan.assertion);
    let subject = mention_has_id(plan.subject_mention.id);
    lemma_taken(db.mentions, subject, plan.subject_mention);
    let mentions = or_ignore(db.mentions, subject, plan.subject_mention);
    match plan.object_mention {
        Some(m) => {
            lemma_taken(mentions, mention_has_id(m.id), m);
            crate::rows::lemma_or_ignore_keeps(mentions, subject, mention_has_id(m.id), m);
        },
        None => {},
    }
    assert(twice =~= once);
}

/// A row that was put in, or that was there, is there.
proof fn lemma_taken<V>(s: Seq<V>, p: spec_fn(V) -> bool, x: V)
    requires
        p(x),
    ensures
        crate::rows::some_where(or_ignore(s, p, x), p),
{
    if !crate::rows::some_where(s, p) {
        assert(or_ignore(s, p, x)[s.len() as int] == x);
    }
}

/// The group to fold again after its statements changed, where its predicate is
/// registered.
pub open spec fn refold_of(
    db: TablesView,
    space: Seq<char>,
    subject: Seq<char>,
    predicate: Seq<char>,
    at: Timestamp,
) -> Option<RefoldView> {
    match first_where(db.predicates, predicate_named(predicate)) {
        None => None,
        Some(p) => Some(
            RefoldView {
                space,
                subject,
                predicate,
                def_json: p.def_json,
                group: statement_group(db, space, subject, predicate),
                at,
            },
        ),
    }
}

pub(crate) fn ask_fold(
    db: &Tables,
    space: &str,
    subject: &str,
    predicate: &str,
    at: Timestamp,
) -> (r: Option<Refold>)
    ensures
        r.deep_view() == refold_of(db.deep_view(), space@, subject@, predicate@, at),
{
    match load_predicate(db, predicate) {
        None => None,
        Some(p) => Some(
            Refold {
                space: space.to_owned(),
                subject: subject.to_owned(),
                predicate: predicate.to_owned(),
                def_json: p.def_json,
                group: get_statement_group(db, space, subject, predicate),
                at,
            },
        ),
    }
}

/// A declaration whose episode is written, and whose first entity is to be
/// resolved.
pub struct DeclarationRun {
    pub space: String,
    pub episode: String,
    pub now: Timestamp,
    pub decl: Declaration,
}

/// [`DeclarationRun`] as a mathematical value.
#[verifier::ext_equal]
pub struct DeclarationRunView {
    pub space: Seq<char>,
    pub episode: Seq<char>,
    pub now: Timestamp,
    pub decl: DeclarationView,
}

impl DeepView for DeclarationRun {
    type V = DeclarationRunView;

    open spec fn deep_view(&self) -> DeclarationRunView {
        DeclarationRunView {
            space: self.space@,
            episode: self.episode@,
            now: self.now,
            decl: self.decl.deep_view(),
        }
    }
}

/// The episode of a declaration, before it has its identity.
pub open spec fn declaration_episode(
    space: Seq<char>,
    content: Seq<char>,
    now: Timestamp,
) -> EpisodeView {
    EpisodeView {
        id: Seq::empty(),
        space,
        seq: 0,
        content_hash: Seq::new(32, |i: int| 0u8),
        content,
        source: SourceRefView::Declaration,
        trust: TrustTier::Trusted,
        kind: EpisodeKind::Declaration,
        occurred_at: now,
        ingested_at: now,
        redacted_at: None,
    }
}

/// What is wrong with the polarity of a declaration.
pub open spec fn polarity_error(decl: DeclarationView) -> Option<BrainErrorView> {
    match decl {
        DeclarationView::AddStatement {
            subject: _,
            predicate: _,
            object: _,
            polarity,
            valid_from: _,
            valid_to: _,
        } => if polarity_of(polarity) is None {
            Some(BrainErrorView::Invalid("polarity: "@ + polarity))
        } else {
            None
        },
        _ => None,
    }
}

/// What is wrong with the other side of a declaration; `number` is what reading
/// the text of a literal as a number gave.
pub open spec fn object_error(
    other: DeclObjectView,
    number: Result<u64, Seq<char>>,
) -> Option<BrainErrorView> {
    match other {
        DeclObjectView::Entity { surface: _, ty: _ } => None,
        DeclObjectView::Literal { literal_type, value } => match literal_of(
            literal_type,
            value,
            number,
            ": "@,
            false,
        ) {
            Ok(_) => None,
            Err(e) => Some(e),
        },
    }
}

/// What is wrong with the predicate of a declared statement: it must be
/// registered.
pub open spec fn predicate_error(db: TablesView, decl: DeclarationView) -> Option<BrainErrorView> {
    match decl {
        DeclarationView::AddStatement {
            subject: _,
            predicate,
            object: _,
            polarity: _,
            valid_from: _,
            valid_to: _,
        } => if first_where(db.predicates, predicate_named(predicate)) is None {
            Some(BrainErrorView::Invalid("unknown predicate: "@ + predicate))
        } else {
            None
        },
        _ => None,
    }
}

/// What is wrong with a declaration, before anything is written: its polarity,
/// its literal, or its predicate.
pub open spec fn declaration_error(
    db: TablesView,
    decl: DeclarationView,
    number: Result<u64, Seq<char>>,
) -> Option<BrainErrorView> {
    if polarity_error(decl) is Some {
        polarity_error(decl)
    } else if object_error(decl.other_side(), number) is Some {
        object_error(decl.other_side(), number)
    } else {
        predicate_error(db, decl)
    }
}

/// Begins to project a declaration: writes its episode, unless the space holds
/// the content already. `content` is the declaration's canonical text, `hash`
/// its content hash and `id` the id of its episode; `number` is what reading the
/// text of a literal object as a number gave. `now` is the transaction time.
///
/// A declaration that cannot be projected is refused before anything is written.
pub fn project_declaration(
    db: &mut Tables,
    space: &str,
    decl: &Declaration,
    content: &str,
    hash: [u8; 32],
    id: String,
    number: &Result<u64, String>,
    now: Timestamp,
) -> (r: Result<DeclarationRun, BrainError>)
    requires
        seqs_fit(old(db).deep_view().episodes),
    ensures
        match declaration_error(old(db).deep_view(), decl.deep_view(), number_view(*number)) {
            Some(e) => fails_with(r, e) && final(db).deep_view() == old(db).deep_view(),
            None => {
                &&& r is Ok
                &&& r->Ok_0.deep_view() == (DeclarationRunView {
                    space: space@,
                    episode: episode_after(
                        old(db).deep_view(),
                        declaration_episode(space@, content@, now),
                        id@,
                        hash@,
                    ).id,
                    now,
                    decl: decl.deep_view(),
                })
                &&& final(db).deep_view() == with_episode(
                    old(db).deep_view(),
                    declaration_episode(space@, content@, now),
                    id@,
                    hash@,
                )
            },
        },
{
    match decl {
        Declaration::AddStatement {
            subject: _,
            predicate: _,
            object: _,
            polarity,
            valid_from: _,
            valid_to: _,
        } => {
            if read_polarity(polarity.as_str()).is_none() {
                return Err(BrainError::Invalid(cat2("polarity: ", polarity.as_str())));
            }
        },
        _ => {},
    }
    match check_object(decl, number) {
        Err(e) => {
            return Err(e);
        },
        Ok(_) => {},
    }
    match decl {
        Declaration::AddStatement {
            subject: _,
            predicate,
            object: _,
            polarity: _,
            valid_from: _,
            valid_to: _,
        } => {
            if load_predicate(db, predicate.as_str()).is_none() {
                return Err(BrainError::Invalid(cat2("unknown predicate: ", predicate.as_str())));
            }
        },
        _ => {},
    }
    let zero: [u8; 32] = [0u8; 32];
    let mut episode = Episode {
        id: String::new(),
        space: space.to_owned(),
        seq: 0,
        content_hash: zero,
        content: content.to_owned(),
        source: SourceRef::Declaration,
        trust: TrustTier::Trusted,
        kind: EpisodeKind::Declaration,
        occurred_at: now,
        ingested_at: now,
        redacted_at: None,
    };
    proof {
        assert(zero@ =~= Seq::new(32, |i: int| 0u8));
        assert(episode.deep_view() =~= declaration_episode(space@, content@, now));
    }
    insert_episode(db, &mut episode, id, hash);
    Ok(DeclarationRun { space: space.to_owned(), episode: episode.id, now, decl: decl.dup() })
}

fn check_object(decl: &Declaration, number: &Result<u64, String>) -> (r: Result<(), BrainError>)
    ensures
        match object_error(decl.deep_view().other_side(), number_view(*number)) {
            Some(e) => fails_with(r, e),
            None => r is Ok,
        },
{
    let object = match decl {
        Declaration::AddStatement {
            subject: _,
            predicate: _,
            object,
            polarity: _,
            valid_from: _,
            valid_to: _,
        } => object,
        Declaration::Merge { loser: _, winner: _ } => {
            return Ok(());
        },
        Declaration::Retract { subject: _, predicate: _, object, episode: _ } => object,
    };
    match object {
        DeclObject::Entity { surface: _, ty: _ } => Ok(()),
        DeclObject::Literal { literal_type, value } => match parse_literal(
            literal_type.as_str(),
            value.as_str(),
            number,
        ) {
            Ok(_) => Ok(()),
            Err(e) => Err(e),
        },
    }
}

impl DeclarationView {
    /// The first entity of a declaration: its subject, or the loser of a merge.
    pub open spec fn first_entity(self) -> EntityRefView {
        match self {
            DeclarationView::AddStatement {
                subject,
                predicate: _,
                object: _,
                polarity: _,
                valid_from: _,
                valid_to: _,
            } => subject,
            DeclarationView::Merge { loser, winner: _ } => loser,
            DeclarationView::Retract { subject, predicate: _, object: _, episode: _ } => subject,
        }
    }

    /// The other side of a declaration: its object, or the winner of a merge.
    pub open spec fn other_side(self) -> DeclObjectView {
        match self {
            DeclarationView::AddStatement {
                subject: _,
                predicate: _,
                object,
                polarity: _,
                valid_from: _,
                valid_to: _,
            } => object,
            DeclarationView::Merge { loser: _, winner } => DeclObjectView::Entity {
                surface: winner.surface,
                ty: winner.ty,
            },
            DeclarationView::Retract { subject: _, predicate: _, object, episode: _ } => object,
        }
    }

    /// Where the other side is taken to stand in the text of the declaration.
    pub open spec fn other_span(self) -> u32 {
        if self is Merge {
            200
        } else {
            100
        }
    }
}

impl DeclarationRun {
    fn first_entity(&self) -> (r: EntityRef)
        ensures
            r.deep_view() == self.deep_view().decl.first_entity(),
    {
        match &self.decl {
            Declaration::AddStatement {
                subject,
                predicate: _,
                object: _,
                polarity: _,
                valid_from: _,
                valid_to: _,
            } => subject.dup(),
            Declaration::Merge { loser, winner: _ } => loser.dup(),
            Declaration::Retract { subject, predicate: _, object: _, episode: _ } => subject.dup(),
        }
    }

    fn other_side(&self) -> (r: DeclObject)
        ensures
            r.deep_view() == self.deep_view().decl.other_side(),
    {
        match &self.decl {
            Declaration::AddStatement {
                subject: _,
                predicate: _,
                object,
                polarity: _,
                valid_from: _,
                valid_to: _,
            } => object.dup(),
            Declaration::Merge { loser: _, winner } => DeclObject::Entity {
                surface: winner.surface.clone(),
                ty: winner.ty.clone(),
            },
            Declaration::Retract { subject: _, predicate: _, object, episode: _ } => object.dup(),
        }
    }

    /// Which entity is the first one?
    pub fn ask_first(&self, db: &Tables) -> (r: ResolveQuestion)
        ensures
            r.deep_view() == resolve_question(
                db.deep_view(),
                self.deep_view().space,
                self.deep_view().decl.first_entity(),
                self.deep_view().episode,
                0,
            ),
    {
        ask_resolution(
            db,
            self.space.as_str(),
            &self.first_entity(),
            self.episode.as_str(),
            0,
        )
    }

    /// Takes the answer which entity is the first one.
    pub fn first_resolved(self, db: &mut Tables, res: &Resolution) -> (r: FirstResolved)
        ensures
            r.deep_view() == (FirstResolvedView {
                run: self.deep_view(),
                entity: res.deep_view().entity(),
                method: res.deep_view().method(),
            }),
            final(db).deep_view() == with_resolution(
                old(db).deep_view(),
                self.deep_view().space,
                self.deep_view().decl.first_entity(),
                res.deep_view(),
                self.deep_view().now,
            ),
    {
        let (entity, method) = resolve_or_create(
            db,
            self.space.as_str(),
            &self.first_entity(),
            res,
            self.now,
        );
        FirstResolved { run: self, entity, method }
    }
}

/// A declaration whose first entity is resolved.
pub struct FirstResolved {
    pub run: DeclarationRun,
    pub entity: String,
    pub method: ResolutionMethod,
}

/// [`FirstResolved`] as a mathematical value.
#[verifier::ext_equal]
pub struct FirstResolvedView {
    pub run: DeclarationRunView,
    pub entity: Seq<char>,
    pub method: ResolutionMethodView,
}

impl DeepView for FirstResolved {
    type V = FirstResolvedView;

    open spec fn deep_view(&self) -> FirstResolvedView {
        FirstResolvedView {
            run: self.run.deep_view(),
            entity: self.entity@,
            method: self.method.deep_view(),
        }
    }
}

/// What is to be known of the other side: which entity it names, or what number
/// a literal's text stands for.
pub enum OtherQuestion {
    Entity(ResolveQuestion),
    Literal { literal_type: String, value: String },
}

/// The answer to an [`OtherQuestion`].
pub enum OtherAnswer {
    Entity(Resolution),
    Literal { number: Result<u64, String> },
}

/// The resolved other side: an entity and how it was found, or a literal.
pub enum OtherSide {
    Entity { id: String, method: ResolutionMethod, surface: String, ty: String },
    Literal(TypedValue),
}

/// [`OtherSide`] as a mathematical value.
#[verifier::ext_equal]
pub enum OtherSideView {
    Entity { id: Seq<char>, method: ResolutionMethodView, surface: Seq<char>, ty: Seq<char> },
    Literal(TypedValueView),
}

impl DeepView for OtherSide {
    type V = OtherSideView;

    open spec fn deep_view(&self) -> OtherSideView {
        match self {
            OtherSide::Entity { id, method, surface, ty } => OtherSideView::Entity {
                id: id@,
                method: method.deep_view(),
                surface: surface@,
                ty: ty@,
            },
            OtherSide::Literal(v) => OtherSideView::Literal(v.deep_view()),
        }
    }
}

impl FirstResolvedView {
    /// Whether an answer fits the question about the other side.
    pub open spec fn takes(self, answer: OtherAnswer) -> bool {
        self.run.decl.other_side() is Entity <==> answer is Entity
    }
}

impl FirstResolved {
    /// What is to be known of the other side?
    pub fn ask_other(&self, db: &Tables) -> (r: OtherQuestion)
        ensures
            ({
                let run = self.deep_view().run;
                match run.decl.other_side() {
                    DeclObjectView::Entity { surface, ty } => r matches OtherQuestion::Entity(q)
                        && q.deep_view() == resolve_question(
                        db.deep_view(),
                        run.space,
                        EntityRefView { surface, ty },
                        run.episode,
                        run.decl.other_span(),
                    ),
                    DeclObjectView::Literal { literal_type, value } => r matches
                        OtherQuestion::Literal { literal_type: t, value: v } && t@ == literal_type
                        && v@ == value,
                }
            }),
    {
        match self.run.other_side() {
            DeclObject::Entity { surface, ty } => {
                let span: u32 = match &self.run.decl {
                    Declaration::Merge { loser: _, winner: _ } => 200,
                    _ => 100,
                };
                OtherQuestion::Entity(
                    ask_resolution(
                        db,
                        self.run.space.as_str(),
                        &EntityRef { surface, ty },
                        self.run.episode.as_str(),
                        span,
                    ),
                )
            },
            DeclObject::Literal { literal_type, value } => OtherQuestion::Literal {
                literal_type,
                value,
            },
        }
    }

    /// Takes the answer about the other side. A literal that cannot be read is
    /// an error.
    pub fn other_resolved(self, db: &mut Tables, answer: &OtherAnswer) -> (r: Result<
        BothResolved,
        BrainError,
    >)
        requires
            self.deep_view().takes(*answer),
        ensures
            ({
                let run = self.deep_view().run;
                match (run.decl.other_side(), *answer) {
                    (
                        DeclObjectView::Entity { surface, ty },
                        OtherAnswer::Entity(res),
                    ) => {
                        &&& r is Ok
                        &&& r->Ok_0.deep_view() == (BothResolvedView {
                            first: self.deep_view(),
                            other: OtherSideView::Entity {
                                id: res.deep_view().entity(),
                                method: res.deep_view().method(),
                                surface,
                                ty,
                            },
                        })
                        &&& final(db).deep_view() == with_resolution(
                            old(db).deep_view(),
                            run.space,
                            EntityRefView { surface, ty },
                            res.deep_view(),
                            run.now,
                        )
                    },
                    (
                        DeclObjectView::Literal { literal_type, value },
                        OtherAnswer::Literal { number },
                    ) => {
                        &&& final(db).deep_view() == old(db).deep_view()
                        &&& match literal_of(
                            literal_type,
                            value,
                            number_view(number),
                            ": "@,
                            false,
                        ) {
                            Ok(v) => r is Ok && r->Ok_0.deep_view() == (BothResolvedView {
                                first: self.deep_view(),
                                other: OtherSideView::Literal(v),
                            }),
                            Err(e) => fails_with(r, e),
                        }
                    },
                    _ => false,
                }
            }),
    {
        match (self.run.other_side(), answer) {
            (DeclObject::Entity { surface, ty }, OtherAnswer::Entity(res)) => {
                let eref = EntityRef { surface, ty };
                let (id, method) = resolve_or_create(
                    db,
                    self.run.space.as_str(),
                    &eref,
                    res,
                    self.run.now,
                );
                let EntityRef { surface, ty } = eref;
                Ok(
                    BothResolved {
                        first: self,
                        other: OtherSide::Entity { id, method, surface, ty },
                    },
                )
            },
            (DeclObject::Literal { literal_type, value }, OtherAnswer::Literal { number }) => {
                match parse_literal(literal_type.as_str(), value.as_str(), number) {
                    Ok(v) => Ok(BothResolved { first: self, other: OtherSide::Literal(v) }),
                    Err(e) => Err(e),
                }
            },
            _ => {
                assert(false);
                Err(BrainError::Invalid(String::new()))
            },
        }
    }
}

/// A declaration with both sides resolved, whose rows are to be named.
pub struct BothResolved {
    pub first: FirstResolved,
    pub other: OtherSide,
}

/// [`BothResolved`] as a mathematical value.
#[verifier::ext_equal]
pub struct BothResolvedView {
    pub first: FirstResolvedView,
    pub other: OtherSideView,
}

impl DeepView for BothResolved {
    type V = BothResolvedView;

    open spec fn deep_view(&self) -> BothResolvedView {
        BothResolvedView { first: self.first.deep_view(), other: self.other.deep_view() }
    }
}

/// The names of the rows that a declaration writes: the JSON text of a literal
/// object, and the ids of the statement, the assertion, its mentions and the
/// merge. Those that the declaration has no use for are ignored.
pub struct Names {
    pub literal_json: String,
    pub statement: String,
    pub assertion: String,
    pub subject_mention: String,
    pub object_mention: String,
    pub merge: String,
}

/// [`Names`] as a mathematical value.
#[verifier::ext_equal]
pub struct NamesView {
    pub literal_json: Seq<char>,
    pub statement: Seq<char>,
    pub assertion: Seq<char>,
    pub subject_mention: Seq<char>,
    pub object_mention: Seq<char>,
    pub merge: Seq<char>,
}

impl DeepView for Names {
    type V = NamesView;

    open spec fn deep_view(&self) -> NamesView {
        NamesView {
            literal_json: self.literal_json@,
            statement: self.statement@,
            assertion: self.assertion@,
            subject_mention: self.subject_mention@,
            object_mention: self.object_mention@,
            merge: self.merge@,
        }
    }
}

/// The confidence of what a user declares: the bit pattern of one.
pub const CERTAIN: u32 = 1065353216;

/// The bytes of a text.
pub open spec fn byte_len(s: Seq<char>) -> nat {
    vstd::utf8::encode_utf8(s).len()
}

/// The object of a statement whose other side is resolved.
pub open spec fn object_of(other: OtherSideView, names: NamesView) -> ObjectView {
    match other {
        OtherSideView::Entity { id, method: _, surface: _, ty: _ } => ObjectView::Entity(id),
        OtherSideView::Literal(_) => ObjectView::Literal(names.literal_json),
    }
}

/// What a declared statement writes.
pub open spec fn declared_plan(
    both: BothResolvedView,
    predicate: Seq<char>,
    polarity: Polarity,
    valid_from: i64,
    valid_to: i64,
    names: NamesView,
) -> AssertionPlanView {
    let run = both.first.run;
    let surface = run.decl.first_entity().surface;
    AssertionPlanView {
        statement: StatementView {
            id: names.statement,
            space: run.space,
            subject: both.first.entity,
            predicate,
            object: object_of(both.other, names),
        },
        assertion: AssertionView {
            id: names.assertion,
            statement: names.statement,
            episode: run.episode,
            extractor: None,
            polarity,
            claimed_from: Timestamp(valid_from),
            claimed_to: Timestamp(valid_to),
            confidence: CERTAIN,
            recorded_at: run.now,
            retracted_at: None,
            trust: TrustTier::Trusted,
        },
        subject_mention: MentionView {
            id: names.subject_mention,
            assertion: names.assertion,
            role: MentionRole::Subject,
            surface,
            span_start: 0,
            span_end: byte_len(surface) as u32,
            resolved_to: Some(both.first.entity),
            method: both.first.method,
        },
        object_mention: match both.other {
            OtherSideView::Entity { id, method, surface, ty } => Some(
                MentionView {
                    id: names.object_mention,
                    assertion: names.assertion,
                    role: MentionRole::Object,
                    surface,
                    span_start: 100,
                    span_end: (100 + byte_len(ty)) as u32,
                    resolved_to: Some(id),
                    method,
                },
            ),
            OtherSideView::Literal(_) => None,
        },
    }
}

/// Whether the spans of the mentions can be written.
pub open spec fn spans_fit(both: BothResolvedView) -> bool {
    &&& byte_len(both.first.run.decl.first_entity().surface) <= u32::MAX
    &&& match both.other {
        OtherSideView::Entity { id: _, method: _, surface: _, ty } => 100 + byte_len(ty)
            <= u32::MAX,
        OtherSideView::Literal(_) => true,
    }
}

/// Selects the assertions of a statement that stand.
pub open spec fn stands(statement: Seq<char>) -> spec_fn(AssertionView) -> bool {
    |a: AssertionView| a.statement == statement && a.retracted_at is None
}

/// An assertion retracted at a time.
pub open spec fn retracted(now: Timestamp) -> spec_fn(AssertionView) -> AssertionView {
    |a: AssertionView| AssertionView { retracted_at: Some(now), ..a }
}

/// The tables after a declaration's rows were written.
pub open spec fn after_naming(
    db: TablesView,
    both: BothResolvedView,
    names: NamesView,
) -> TablesView {
    let run = both.first.run;
    match run.decl {
        DeclarationView::AddStatement {
            subject: _,
            predicate,
            object: _,
            polarity,
            valid_from,
            valid_to,
        } => with_assertion(
            db,
            declared_plan(
                both,
                predicate,
                polarity_of(polarity)->Some_0,
                valid_from,
                valid_to,
                names,
            ),
        ),
        DeclarationView::Merge { loser: _, winner: _ } => TablesView {
            merges: or_ignore(
                db.merges,
                merge_has_id(names.merge),
                EntityMergeView {
                    id: names.merge,
                    loser: both.first.entity,
                    winner: both.other->Entity_id,
                    decided_by: MergeDecisionView::User,
                    provenance: run.episode,
                    decided_at: run.now,
                    undone_at: None,
                },
            ),
            entities: updated(
                db.entities,
                entity_has_id(both.first.entity),
                merged_away(both.other->Entity_id),
            ),
            ..db
        },
        DeclarationView::Retract { subject: _, predicate: _, object: _, episode: _ } => TablesView {
            assertions: updated(db.assertions, stands(names.statement), retracted(run.now)),
            ..db
        },
    }
}

impl BothResolvedView {
    /// Whether this stage was reached by the stages before it.
    pub open spec fn reachable(self) -> bool {
        &&& polarity_error(self.first.run.decl) is None
        &&& self.first.run.decl is Merge ==> self.other is Entity
    }
}

impl BothResolved {
    /// Writes the rows of the declaration under their names, and hands out the
    /// group that is to be folded again.
    ///
    /// A statement under a predicate that is not registered is an error, and
    /// nothing is written. A merge folds nothing. A retraction retracts every
    /// assertion of the statement, whatever episode made it, and folds where
    /// the predicate is registered.
    pub fn named(&self, db: &mut Tables, names: &Names) -> (r: Result<Option<Refold>, BrainError>)
        requires
            self.deep_view().reachable(),
            spans_fit(self.deep_view()),
        ensures
            ({
                let first = old(db).deep_view();
                let both = self.deep_view();
                let run = both.first.run;
                let after = after_naming(first, both, names.deep_view());
                match run.decl {
                    DeclarationView::AddStatement {
                        subject: _,
                        predicate,
                        object: _,
                        polarity: _,
                        valid_from: _,
                        valid_to: _,
                    } => match refold_of(
                        after,
                        run.space,
                        both.first.entity,
                        predicate,
                        run.now,
                    ) {
                        None => fails_with(
                            r,
                            BrainErrorView::Invalid("unknown predicate: "@ + predicate),
                        ) && final(db).deep_view() == first,
                        Some(refold) => r matches Ok(Some(got)) && got.deep_view() == refold
                            && final(db).deep_view() == after,
                    },
                    DeclarationView::Merge { loser: _, winner: _ } => r matches Ok(None)
                        && final(db).deep_view() == after,
                    DeclarationView::Retract { subject: _, predicate, object: _, episode: _ } => {
                        &&& r is Ok
                        &&& r->Ok_0.deep_view() == refold_of(
                            after,
                            run.space,
                            both.first.entity,
                            predicate,
                            run.now,
                        )
                        &&& final(db).deep_view() == after
                    },
                }
            }),
    {
        match &self.first.run.decl {
            Declaration::AddStatement {
                subject,
                predicate,
                object: _,
                polarity,
                valid_from,
                valid_to,
            } => {
                let pol = match read_polarity(polarity.as_str()) {
                    Some(p) => p,
                    None => Polarity::Affirm,
                };
                let plan = self.declared(
                    subject,
                    predicate.as_str(),
                    pol,
                    *valid_from,
                    *valid_to,
                    names,
                );
                if load_predicate(db, predicate.as_str()).is_none() {
                    return Err(
                        BrainError::Invalid(cat2("unknown predicate: ", predicate.as_str())),
                    );
                }
                write_assertion(db, &plan);
                let refold = ask_fold(
                    db,
                    self.first.run.space.as_str(),
                    self.first.entity.as_str(),
                    predicate.as_str(),
                    self.first.run.now,
                );
                Ok(refold)
            },
            Declaration::Merge { loser: _, winner: _ } => {
                let winner = match &self.other {
                    OtherSide::Entity { id, method: _, surface: _, ty: _ } => id.clone(),
                    OtherSide::Literal(_) => String::new(),
                };
                insert_merge(
                    db,
                    &EntityMerge {
                        id: names.merge.clone(),
                        loser: self.first.entity.clone(),
                        winner: winner.clone(),
                        decided_by: MergeDecision::User,
                        provenance: self.first.run.episode.clone(),
                        decided_at: self.first.run.now,
                        undone_at: None,
                    },
                );
                set_merged_into(db, self.first.entity.as_str(), winner.as_str());
                Ok(None)
            },
            Declaration::Retract { subject: _, predicate, object: _, episode: _ } => {
                let now = self.first.run.now;
                let _n: usize = update(
                    &mut db.assertions,
                    |a: &Assertion| -> (b: bool)
                        ensures
                            b == stands(names.statement@)(a.deep_view())
                        {
                            str_eq(a.statement.as_str(), names.statement.as_str())
                                && a.retracted_at.is_none()
                        },
                    |a: &Assertion| -> (y: Assertion)
                        ensures
                            y.deep_view() == retracted(now)(a.deep_view())
                        {
                            let mut y = a.dup();
                            y.retracted_at = Some(now);
                            y
                        },
                    Ghost(stands(names.statement@)),
                    Ghost(retracted(now)),
                );
                let refold = ask_fold(
                    db,
                    self.first.run.space.as_str(),
                    self.first.entity.as_str(),
                    predicate.as_str(),
                    self.first.run.now,
                );
                Ok(refold)
            },
        }
    }

    fn declared(
        &self,
        subject: &EntityRef,
        predicate: &str,
        polarity: Polarity,
        valid_from: i64,
        valid_to: i64,
        names: &Names,
    ) -> (r: AssertionPlan)
        requires
            spans_fit(self.deep_view()),
            subject.deep_view() == self.deep_view().first.run.decl.first_entity(),
        ensures
            r.deep_view() == declared_plan(
                self.deep_view(),
                predicate@,
                polarity,
                valid_from,
                valid_to,
                names.deep_view(),
            ),
    {
        let run = &self.first.run;
        let object = match &self.other {
            OtherSide::Entity { id, method: _, surface: _, ty: _ } => Object::Entity(id.clone()),
            OtherSide::Literal(_) => Object::Literal(names.literal_json.clone()),
        };
        let object_mention = match &self.other {
            OtherSide::Entity { id, method, surface, ty } => Some(
                Mention {
                    id: names.object_mention.clone(),
                    assertion: names.assertion.clone(),
                    role: MentionRole::Object,
                    surface: surface.clone(),
                    span_start: 100,
                    span_end: 100 + ty.as_str().len() as u32,
                    resolved_to: Some(id.clone()),
                    method: method.dup(),
                },
            ),
            OtherSide::Literal(_) => None,
        };
        AssertionPlan {
            statement: Statement {
                id: names.statement.clone(),
                space: run.space.clone(),
                subject: self.first.entity.clone(),
                predicate: predicate.to_owned(),
                object,
            },
            assertion: Assertion {
                id: names.assertion.clone(),
                statement: names.statement.clone(),
                episode: run.episode.clone(),
                extractor: None,
                polarity,
                claimed_from: Timestamp(valid_from),
                claimed_to: Timestamp(valid_to),
                confidence: CERTAIN,
                recorded_at: run.now,
                retracted_at: None,
                trust: TrustTier::Trusted,
            },
            subject_mention: Mention {
                id: names.subject_mention.clone(),
                assertion: names.assertion.clone(),
                role: MentionRole::Subject,
                surface: subject.surface.clone(),
                span_start: 0,
                span_end: subject.surface.as_str().len() as u32,
                resolved_to: Some(self.first.entity.clone()),
                method: self.first.method.dup(),
            },
            object_mention,
        }
    }
}

/// After a retraction no assertion of the statement stands, and those of every
/// other statement are as they were.
pub proof fn law_retraction_is_universal(
    db: TablesView,
    both: BothResolvedView,
    names: NamesView,
)
    requires
        both.first.run.decl is Retract,
    ensures
        ({
            let after = after_naming(db, both, names);
            &&& after.assertions.len() == db.assertions.len()
            &&& forall|i: int|
                0 <= i < after.assertions.len() ==> {
                    let a = #[trigger] after.assertions[i];
                    if a.statement == names.statement {
                        a.retracted_at is Some
                    } else {
                        a == db.assertions[i]
                    }
                }
        }),
{
}

} // verus!
