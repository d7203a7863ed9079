//! The rows that the store holds, each with its value as a mathematical
//! record, and the set of tables they stand in.
use vstd::prelude::*;

use crate::rows::{dup_rows, Row};
use crate::security::{Scope, ScopeView};
use crate::time::Timestamp;

verus! {

/// Where a surface form of an entity came from.
#[derive(Debug, Clone, Copy, PartialEq, Eq, Structural)]
pub enum KeyOrigin {
    UserDeclared,
    Extracted,
}

/// Whether an assertion affirms or denies its statement.
#[derive(Debug, Clone, Copy, PartialEq, Eq, Structural)]
pub enum Polarity {
    Affirm,
    Deny,
}

/// Which side of its statement a mention names.
#[derive(Debug, Clone, Copy, PartialEq, Eq, Structural)]
pub enum MentionRole {
    Subject,
    Object,
}

/// How far the evidence of a source is trusted.
#[derive(Debug, Clone, Copy, PartialEq, Eq, Structural)]
pub enum TrustTier {
    Trusted,
    SemiTrusted,
    Untrusted,
}

/// How a mention came to name its entity.
#[derive(Debug)]
pub enum ResolutionMethod {
    /// The mention made the entity.
    New,
    /// Another method, by its stored name.
    Named(String),
}

/// [`ResolutionMethod`] as a mathematical value.
#[verifier::ext_equal]
pub enum ResolutionMethodView {
    New,
    Named(Seq<char>),
}

impl DeepView for ResolutionMethod {
    type V = ResolutionMethodView;

    open spec fn deep_view(&self) -> ResolutionMethodView {
        match self {
            ResolutionMethod::New => ResolutionMethodView::New,
            ResolutionMethod::Named(s) => ResolutionMethodView::Named(s@),
        }
    }
}

impl Row for ResolutionMethod {
    fn dup(&self) -> (r: Self) {
        match self {
            ResolutionMethod::New => ResolutionMethod::New,
            ResolutionMethod::Named(s) => ResolutionMethod::Named(s.clone()),
        }
    }
}

impl Clone for ResolutionMethod {
    fn clone(&self) -> (r: Self)
        ensures
            r.deep_view() == self.deep_view(),
    {
        self.dup()
    }
}

/// Who decided a merge.
#[derive(Debug)]
pub enum MergeDecision {
    User,
    /// Another decider, by its stored name, with the bit pattern of its score.
    Named { decided_by: String, score: Option<u64> },
}

/// [`MergeDecision`] as a mathematical value.
#[verifier::ext_equal]
pub enum MergeDecisionView {
    User,
    Named { decided_by: Seq<char>, score: Option<u64> },
}

impl DeepView for MergeDecision {
    type V = MergeDecisionView;

    open spec fn deep_view(&self) -> MergeDecisionView {
        match self {
            MergeDecision::User => MergeDecisionView::User,
            MergeDecision::Named { decided_by, score } => MergeDecisionView::Named {
                decided_by: decided_by@,
                score: *score,
            },
        }
    }
}

impl Row for MergeDecision {
    fn dup(&self) -> (r: Self) {
        match self {
            MergeDecision::User => MergeDecision::User,
            MergeDecision::Named { decided_by, score } => MergeDecision::Named {
                decided_by: decided_by.clone(),
                score: *score,
            },
        }
    }
}

impl Clone for MergeDecision {
    fn clone(&self) -> (r: Self)
        ensures
            r.deep_view() == self.deep_view(),
    {
        self.dup()
    }
}

/// The object of a statement: an entity, or the JSON text of a literal.
#[derive(Debug)]
pub enum Object {
    Entity(String),
    Literal(String),
}

/// [`Object`] as a mathematical value.
#[verifier::ext_equal]
pub enum ObjectView {
    Entity(Seq<char>),
    Literal(Seq<char>),
}

impl DeepView for Object {
    type V = ObjectView;

    open spec fn deep_view(&self) -> ObjectView {
        match self {
            Object::Entity(s) => ObjectView::Entity(s@),
            Object::Literal(s) => ObjectView::Literal(s@),
        }
    }
}

impl Row for Object {
    fn dup(&self) -> (r: Self) {
        match self {
            Object::Entity(s) => Object::Entity(s.clone()),
            Object::Literal(s) => Object::Literal(s.clone()),
        }
    }
}

impl Clone for Object {
    fn clone(&self) -> (r: Self)
        ensures
            r.deep_view() == self.deep_view(),
    {
        self.dup()
    }
}

/// A copy of an optional text.
pub(crate) fn dup_text(t: &Option<String>) -> (r: Option<String>)
    ensures
        r.deep_view() == t.deep_view(),
{
    match t {
        Some(s) => Some(s.clone()),
        None => None,
    }
}

/// The bytes of an optional byte string.
pub open spec fn blob_view(b: Option<Vec<u8>>) -> Option<Seq<u8>> {
    match b {
        Some(v) => Some(v@),
        None => None,
    }
}

/// A copy of a byte string.
pub(crate) fn dup_bytes(b: &Vec<u8>) -> (r: Vec<u8>)
    ensures
        r@ == b@,
{
    let r = b.clone();
    assert(r@ =~= b@);
    r
}

/// A copy of an optional byte string.
pub(crate) fn dup_blob(b: &Option<Vec<u8>>) -> (r: Option<Vec<u8>>)
    ensures
        blob_view(r) == blob_view(*b),
{
    match b {
        Some(v) => Some(dup_bytes(v)),
        None => None,
    }
}

/// A row of `spaces`.
#[derive(Debug)]
pub struct SpaceEntry {
    pub id: String,
    pub name: String,
    pub created_at: i64,
}

/// [`SpaceEntry`] as a mathematical value.
#[verifier::ext_equal]
pub struct SpaceEntryView {
    pub id: Seq<char>,
    pub name: Seq<char>,
    pub created_at: i64,
}

impl DeepView for SpaceEntry {
    type V = SpaceEntryView;

    open spec fn deep_view(&self) -> SpaceEntryView {
        SpaceEntryView {
            id: self.id@,
            name: self.name@,
            created_at: self.created_at,
        }
    }
}

impl Row for SpaceEntry {
    fn dup(&self) -> (r: Self) {
        SpaceEntry {
            id: self.id.clone(),
            name: self.name.clone(),
            created_at: self.created_at,
        }
    }
}

impl Clone for SpaceEntry {
    fn clone(&self) -> (r: Self)
        ensures
            r.deep_view() == self.deep_view(),
    {
        self.dup()
    }
}

/// A row of `episodes`: one immutable piece of evidence.
/// 
/// Texts that the ledger stores for enumerations (`source_kind`, `trust`,
/// `kind`) are kept as stored; `ledger` reads them.
#[derive(Debug)]
pub struct EpisodeRow {
    pub id: String,
    pub space: String,
    pub seq: i64,
    pub content_hash: Vec<u8>,
    pub content: String,
    pub source_kind: String,
    pub source_ref: Option<String>,
    pub trust: String,
    pub kind: String,
    pub occurred_at: Timestamp,
    pub ingested_at: Timestamp,
    pub redacted_at: Option<Timestamp>,
    pub source_id: Option<String>,
    pub occurrence_id: Option<String>,
    pub accepted_at: Option<Timestamp>,
    pub principal: Option<String>,
    pub claims_json: Option<String>,
    pub content_compacted: Option<Vec<u8>>,
    pub compacted_at: Option<Timestamp>,
    pub uncertainty_json: Option<String>,
}

/// [`EpisodeRow`] as a mathematical value.
#[verifier::ext_equal]
pub struct EpisodeRowView {
    pub id: Seq<char>,
    pub space: Seq<char>,
    pub seq: i64,
    pub content_hash: Seq<u8>,
    pub content: Seq<char>,
    pub source_kind: Seq<char>,
    pub source_ref: Option<Seq<char>>,
    pub trust: Seq<char>,
    pub kind: Seq<char>,
    pub occurred_at: Timestamp,
    pub ingested_at: Timestamp,
    pub redacted_at: Option<Timestamp>,
    pub source_id: Option<Seq<char>>,
    pub occurrence_id: Option<Seq<char>>,
    pub accepted_at: Option<Timestamp>,
    pub principal: Option<Seq<char>>,
    pub claims_json: Option<Seq<char>>,
    pub content_compacted: Option<Seq<u8>>,
    pub compacted_at: Option<Timestamp>,
    pub uncertainty_json: Option<Seq<char>>,
}

impl DeepView for EpisodeRow {
    type V = EpisodeRowView;

    open spec fn deep_view(&self) -> EpisodeRowView {
        EpisodeRowView {
            id: self.id@,
            space: self.space@,
            seq: self.seq,
            content_hash: self.content_hash@,
            content: self.content@,
            source_kind: self.source_kind@,
            source_ref: self.source_ref.deep_view(),
            trust: self.trust@,
            kind: self.kind@,
            occurred_at: self.occurred_at,
            ingested_at: self.ingested_at,
            redacted_at: self.redacted_at,
            source_id: self.source_id.deep_view(),
            occurrence_id: self.occurrence_id.deep_view(),
            accepted_at: self.accepted_at,
            principal: self.principal.deep_view(),
            claims_json: self.claims_json.deep_view(),
            content_compacted: blob_view(self.content_compacted),
            compacted_at: self.compacted_at,
            uncertainty_json: self.uncertainty_json.deep_view(),
        }
    }
}

impl Row for EpisodeRow {
    fn dup(&self) -> (r: Self) {
        EpisodeRow {
            id: self.id.clone(),
            space: self.space.clone(),
            seq: self.seq,
            content_hash: dup_bytes(&self.content_hash),
            content: self.content.clone(),
            source_kind: self.source_kind.clone(),
            source_ref: dup_text(&self.source_ref),
            trust: self.trust.clone(),
            kind: self.kind.clone(),
            occurred_at: self.occurred_at,
            ingested_at: self.ingested_at,
            redacted_at: self.redacted_at,
            source_id: dup_text(&self.source_id),
            occurrence_id: dup_text(&self.occurrence_id),
            accepted_at: self.accepted_at,
            principal: dup_text(&self.principal),
            claims_json: dup_text(&self.claims_json),
            content_compacted: dup_blob(&self.content_compacted),
            compacted_at: self.compacted_at,
            uncertainty_json: dup_text(&self.uncertainty_json),
        }
    }
}

impl Clone for EpisodeRow {
    fn clone(&self) -> (r: Self)
        ensures
            r.deep_view() == self.deep_view(),
    {
        self.dup()
    }
}

/// A row of `extractions`: the cached raw response of one extractor for one
/// episode.
#[derive(Debug)]
pub struct ExtractionRow {
    pub episode_id: String,
    pub extractor_id: String,
    pub response_hash: Vec<u8>,
    pub raw_response: String,
    pub created_at: Timestamp,
}

/// [`ExtractionRow`] as a mathematical value.
#[verifier::ext_equal]
pub struct ExtractionRowView {
    pub episode_id: Seq<char>,
    pub extractor_id: Seq<char>,
    pub response_hash: Seq<u8>,
    pub raw_response: Seq<char>,
    pub created_at: Timestamp,
}

impl DeepView for ExtractionRow {
    type V = ExtractionRowView;

    open spec fn deep_view(&self) -> ExtractionRowView {
        ExtractionRowView {
            episode_id: self.episode_id@,
            extractor_id: self.extractor_id@,
            response_hash: self.response_hash@,
            raw_response: self.raw_response@,
            created_at: self.created_at,
        }
    }
}

impl Row for ExtractionRow {
    fn dup(&self) -> (r: Self) {
        ExtractionRow {
            episode_id: self.episode_id.clone(),
            extractor_id: self.extractor_id.clone(),
            response_hash: dup_bytes(&self.response_hash),
            raw_response: self.raw_response.clone(),
            created_at: self.created_at,
        }
    }
}

impl Clone for ExtractionRow {
    fn clone(&self) -> (r: Self)
        ensures
            r.deep_view() == self.deep_view(),
    {
        self.dup()
    }
}

/// A row of `extraction_failures`: a response whose claims stayed invalid
/// after every repair.
#[derive(Debug)]
pub struct ExtractionFailure {
    pub id: i64,
    pub episode_id: String,
    pub extractor_id: String,
    pub raw_response: String,
    pub errors_json: String,
    pub created_at: Timestamp,
}

/// [`ExtractionFailure`] as a mathematical value.
#[verifier::ext_equal]
pub struct ExtractionFailureView {
    pub id: i64,
    pub episode_id: Seq<char>,
    pub extractor_id: Seq<char>,
    pub raw_response: Seq<char>,
    pub errors_json: Seq<char>,
    pub created_at: Timestamp,
}

impl DeepView for ExtractionFailure {
    type V = ExtractionFailureView;

    open spec fn deep_view(&self) -> ExtractionFailureView {
        ExtractionFailureView {
            id: self.id,
            episode_id: self.episode_id@,
            extractor_id: self.extractor_id@,
            raw_response: self.raw_response@,
            errors_json: self.errors_json@,
            created_at: self.created_at,
        }
    }
}

impl Row for ExtractionFailure {
    fn dup(&self) -> (r: Self) {
        ExtractionFailure {
            id: self.id,
            episode_id: self.episode_id.clone(),
            extractor_id: self.extractor_id.clone(),
            raw_response: self.raw_response.clone(),
            errors_json: self.errors_json.clone(),
            created_at: self.created_at,
        }
    }
}

impl Clone for ExtractionFailure {
    fn clone(&self) -> (r: Self)
        ensures
            r.deep_view() == self.deep_view(),
    {
        self.dup()
    }
}

/// A row of `summaries`: a cached summary text.
#[derive(Debug)]
pub struct SummaryRow {
    pub scope_kind: String,
    pub member_set_hash: Vec<u8>,
    pub extractor_id: String,
    pub text: String,
    pub created_at: Timestamp,
}

/// [`SummaryRow`] as a mathematical value.
#[verifier::ext_equal]
pub struct SummaryRowView {
    pub scope_kind: Seq<char>,
    pub member_set_hash: Seq<u8>,
    pub extractor_id: Seq<char>,
    pub text: Seq<char>,
    pub created_at: Timestamp,
}

impl DeepView for SummaryRow {
    type V = SummaryRowView;

    open spec fn deep_view(&self) -> SummaryRowView {
        SummaryRowView {
            scope_kind: self.scope_kind@,
            member_set_hash: self.member_set_hash@,
            extractor_id: self.extractor_id@,
            text: self.text@,
            created_at: self.created_at,
        }
    }
}

impl Row for SummaryRow {
    fn dup(&self) -> (r: Self) {
        SummaryRow {
            scope_kind: self.scope_kind.clone(),
            member_set_hash: dup_bytes(&self.member_set_hash),
            extractor_id: self.extractor_id.clone(),
            text: self.text.clone(),
            created_at: self.created_at,
        }
    }
}

impl Clone for SummaryRow {
    fn clone(&self) -> (r: Self)
        ensures
            r.deep_view() == self.deep_view(),
    {
        self.dup()
    }
}

/// A row of `episode_links`.
#[derive(Debug)]
pub struct EpisodeLink {
    pub from_episode: String,
    pub to_episode: String,
    pub rel: String,
}

/// [`EpisodeLink`] as a mathematical value.
#[verifier::ext_equal]
pub struct EpisodeLinkView {
    pub from_episode: Seq<char>,
    pub to_episode: Seq<char>,
    pub rel: Seq<char>,
}

impl DeepView for EpisodeLink {
    type V = EpisodeLinkView;

    open spec fn deep_view(&self) -> EpisodeLinkView {
        EpisodeLinkView {
            from_episode: self.from_episode@,
            to_episode: self.to_episode@,
            rel: self.rel@,
        }
    }
}

impl Row for EpisodeLink {
    fn dup(&self) -> (r: Self) {
        EpisodeLink {
            from_episode: self.from_episode.clone(),
            to_episode: self.to_episode.clone(),
            rel: self.rel.clone(),
        }
    }
}

impl Clone for EpisodeLink {
    fn clone(&self) -> (r: Self)
        ensures
            r.deep_view() == self.deep_view(),
    {
        self.dup()
    }
}

/// A row of `entities`.
/// 
/// `salience` holds the bit pattern of a double-precision number.
#[derive(Debug)]
pub struct Entity {
    pub id: String,
    pub space: String,
    pub ty: String,
    pub canonical_key: Option<String>,
    pub created_at: Timestamp,
    pub merged_into: Option<String>,
    pub salience: u64,
    pub last_activity: Option<Timestamp>,
}

/// [`Entity`] as a mathematical value.
#[verifier::ext_equal]
pub struct EntityView {
    pub id: Seq<char>,
    pub space: Seq<char>,
    pub ty: Seq<char>,
    pub canonical_key: Option<Seq<char>>,
    pub created_at: Timestamp,
    pub merged_into: Option<Seq<char>>,
    pub salience: u64,
    pub last_activity: Option<Timestamp>,
}

impl DeepView for Entity {
    type V = EntityView;

    open spec fn deep_view(&self) -> EntityView {
        EntityView {
            id: self.id@,
            space: self.space@,
            ty: self.ty@,
            canonical_key: self.canonical_key.deep_view(),
            created_at: self.created_at,
            merged_into: self.merged_into.deep_view(),
            salience: self.salience,
            last_activity: self.last_activity,
        }
    }
}

impl Row for Entity {
    fn dup(&self) -> (r: Self) {
        Entity {
            id: self.id.clone(),
            space: self.space.clone(),
            ty: self.ty.clone(),
            canonical_key: dup_text(&self.canonical_key),
            created_at: self.created_at,
            merged_into: dup_text(&self.merged_into),
            salience: self.salience,
            last_activity: self.last_activity,
        }
    }
}

impl Clone for Entity {
    fn clone(&self) -> (r: Self)
        ensures
            r.deep_view() == self.deep_view(),
    {
        self.dup()
    }
}

/// A row of `entity_keys`: a surface form under which an entity is found.
#[derive(Debug)]
pub struct EntityKey {
    pub id: String,
    pub space: String,
    pub entity: String,
    pub ty: String,
    pub normalized: String,
    pub surface: String,
    pub origin: KeyOrigin,
}

/// [`EntityKey`] as a mathematical value.
#[verifier::ext_equal]
pub struct EntityKeyView {
    pub id: Seq<char>,
    pub space: Seq<char>,
    pub entity: Seq<char>,
    pub ty: Seq<char>,
    pub normalized: Seq<char>,
    pub surface: Seq<char>,
    pub origin: KeyOrigin,
}

impl DeepView for EntityKey {
    type V = EntityKeyView;

    open spec fn deep_view(&self) -> EntityKeyView {
        EntityKeyView {
            id: self.id@,
            space: self.space@,
            entity: self.entity@,
            ty: self.ty@,
            normalized: self.normalized@,
            surface: self.surface@,
            origin: self.origin,
        }
    }
}

impl Row for EntityKey {
    fn dup(&self) -> (r: Self) {
        EntityKey {
            id: self.id.clone(),
            space: self.space.clone(),
            entity: self.entity.clone(),
            ty: self.ty.clone(),
            normalized: self.normalized.clone(),
            surface: self.surface.clone(),
            origin: self.origin,
        }
    }
}

impl Clone for EntityKey {
    fn clone(&self) -> (r: Self)
        ensures
            r.deep_view() == self.deep_view(),
    {
        self.dup()
    }
}

/// A row of `entity_merges`.
#[derive(Debug)]
pub struct EntityMerge {
    pub id: String,
    pub loser: String,
    pub winner: String,
    pub decided_by: MergeDecision,
    pub provenance: String,
    pub decided_at: Timestamp,
    pub undone_at: Option<Timestamp>,
}

/// [`EntityMerge`] as a mathematical value.
#[verifier::ext_equal]
pub struct EntityMergeView {
    pub id: Seq<char>,
    pub loser: Seq<char>,
    pub winner: Seq<char>,
    pub decided_by: MergeDecisionView,
    pub provenance: Seq<char>,
    pub decided_at: Timestamp,
    pub undone_at: Option<Timestamp>,
}

impl DeepView for EntityMerge {
    type V = EntityMergeView;

    open spec fn deep_view(&self) -> EntityMergeView {
        EntityMergeView {
            id: self.id@,
            loser: self.loser@,
            winner: self.winner@,
            decided_by: self.decided_by.deep_view(),
            provenance: self.provenance@,
            decided_at: self.decided_at,
            undone_at: self.undone_at,
        }
    }
}

impl Row for EntityMerge {
    fn dup(&self) -> (r: Self) {
        EntityMerge {
            id: self.id.clone(),
            loser: self.loser.clone(),
            winner: self.winner.clone(),
            decided_by: self.decided_by.dup(),
            provenance: self.provenance.clone(),
            decided_at: self.decided_at,
            undone_at: self.undone_at,
        }
    }
}

impl Clone for EntityMerge {
    fn clone(&self) -> (r: Self)
        ensures
            r.deep_view() == self.deep_view(),
    {
        self.dup()
    }
}

/// A row of `statements`: subject, predicate and object, with no truth value.
#[derive(Debug)]
pub struct Statement {
    pub id: String,
    pub space: String,
    pub subject: String,
    pub predicate: String,
    pub object: Object,
}

/// [`Statement`] as a mathematical value.
#[verifier::ext_equal]
pub struct StatementView {
    pub id: Seq<char>,
    pub space: Seq<char>,
    pub subject: Seq<char>,
    pub predicate: Seq<char>,
    pub object: ObjectView,
}

impl DeepView for Statement {
    type V = StatementView;

    open spec fn deep_view(&self) -> StatementView {
        StatementView {
            id: self.id@,
            space: self.space@,
            subject: self.subject@,
            predicate: self.predicate@,
            object: self.object.deep_view(),
        }
    }
}

impl Row for Statement {
    fn dup(&self) -> (r: Self) {
        Statement {
            id: self.id.clone(),
            space: self.space.clone(),
            subject: self.subject.clone(),
            predicate: self.predicate.clone(),
            object: self.object.dup(),
        }
    }
}

impl Clone for Statement {
    fn clone(&self) -> (r: Self)
        ensures
            r.deep_view() == self.deep_view(),
    {
        self.dup()
    }
}

/// A row of `assertions`: one episode affirming or denying one statement.
/// 
/// `confidence` holds the bit pattern of a single-precision number.
#[derive(Debug)]
pub struct Assertion {
    pub id: String,
    pub statement: String,
    pub episode: String,
    pub extractor: Option<String>,
    pub polarity: Polarity,
    pub claimed_from: Timestamp,
    pub claimed_to: Timestamp,
    pub confidence: u32,
    pub recorded_at: Timestamp,
    pub retracted_at: Option<Timestamp>,
    /// The trust tier of its episode.
    pub trust: TrustTier,
}

/// [`Assertion`] as a mathematical value.
#[verifier::ext_equal]
pub struct AssertionView {
    pub id: Seq<char>,
    pub statement: Seq<char>,
    pub episode: Seq<char>,
    pub extractor: Option<Seq<char>>,
    pub polarity: Polarity,
    pub claimed_from: Timestamp,
    pub claimed_to: Timestamp,
    pub confidence: u32,
    pub recorded_at: Timestamp,
    pub retracted_at: Option<Timestamp>,
    pub trust: TrustTier,
}

impl DeepView for Assertion {
    type V = AssertionView;

    open spec fn deep_view(&self) -> AssertionView {
        AssertionView {
            id: self.id@,
            statement: self.statement@,
            episode: self.episode@,
            extractor: self.extractor.deep_view(),
            polarity: self.polarity,
            claimed_from: self.claimed_from,
            claimed_to: self.claimed_to,
            confidence: self.confidence,
            recorded_at: self.recorded_at,
            retracted_at: self.retracted_at,
            trust: self.trust,
        }
    }
}

impl Row for Assertion {
    fn dup(&self) -> (r: Self) {
        Assertion {
            id: self.id.clone(),
            statement: self.statement.clone(),
            episode: self.episode.clone(),
            extractor: dup_text(&self.extractor),
            polarity: self.polarity,
            claimed_from: self.claimed_from,
            claimed_to: self.claimed_to,
            confidence: self.confidence,
            recorded_at: self.recorded_at,
            retracted_at: self.retracted_at,
            trust: self.trust,
        }
    }
}

impl Clone for Assertion {
    fn clone(&self) -> (r: Self)
        ensures
            r.deep_view() == self.deep_view(),
    {
        self.dup()
    }
}

/// A row of `mentions`: where an assertion names an entity.
#[derive(Debug)]
pub struct Mention {
    pub id: String,
    pub assertion: String,
    pub role: MentionRole,
    pub surface: String,
    pub span_start: u32,
    pub span_end: u32,
    pub resolved_to: Option<String>,
    pub method: ResolutionMethod,
}

/// [`Mention`] as a mathematical value.
#[verifier::ext_equal]
pub struct MentionView {
    pub id: Seq<char>,
    pub assertion: Seq<char>,
    pub role: MentionRole,
    pub surface: Seq<char>,
    pub span_start: u32,
    pub span_end: u32,
    pub resolved_to: Option<Seq<char>>,
    pub method: ResolutionMethodView,
}

impl DeepView for Mention {
    type V = MentionView;

    open spec fn deep_view(&self) -> MentionView {
        MentionView {
            id: self.id@,
            assertion: self.assertion@,
            role: self.role,
            surface: self.surface@,
            span_start: self.span_start,
            span_end: self.span_end,
            resolved_to: self.resolved_to.deep_view(),
            method: self.method.deep_view(),
        }
    }
}

impl Row for Mention {
    fn dup(&self) -> (r: Self) {
        Mention {
            id: self.id.clone(),
            assertion: self.assertion.clone(),
            role: self.role,
            surface: self.surface.clone(),
            span_start: self.span_start,
            span_end: self.span_end,
            resolved_to: dup_text(&self.resolved_to),
            method: self.method.dup(),
        }
    }
}

impl Clone for Mention {
    fn clone(&self) -> (r: Self)
        ensures
            r.deep_view() == self.deep_view(),
    {
        self.dup()
    }
}

/// A row of `beliefs`: what the assertions of one statement amount to over one
/// validity interval.
/// 
/// `confidence` holds the bit pattern of a single-precision number;
/// `support_json` is the canonical JSON text of the support record.
#[derive(Debug)]
pub struct Belief {
    pub statement: String,
    pub valid_from: Timestamp,
    pub valid_to: Timestamp,
    pub status: String,
    pub confidence: u32,
    pub support_json: String,
}

/// [`Belief`] as a mathematical value.
#[verifier::ext_equal]
pub struct BeliefView {
    pub statement: Seq<char>,
    pub valid_from: Timestamp,
    pub valid_to: Timestamp,
    pub status: Seq<char>,
    pub confidence: u32,
    pub support_json: Seq<char>,
}

impl DeepView for Belief {
    type V = BeliefView;

    open spec fn deep_view(&self) -> BeliefView {
        BeliefView {
            statement: self.statement@,
            valid_from: self.valid_from,
            valid_to: self.valid_to,
            status: self.status@,
            confidence: self.confidence,
            support_json: self.support_json@,
        }
    }
}

impl Row for Belief {
    fn dup(&self) -> (r: Self) {
        Belief {
            statement: self.statement.clone(),
            valid_from: self.valid_from,
            valid_to: self.valid_to,
            status: self.status.clone(),
            confidence: self.confidence,
            support_json: self.support_json.clone(),
        }
    }
}

impl Clone for Belief {
    fn clone(&self) -> (r: Self)
        ensures
            r.deep_view() == self.deep_view(),
    {
        self.dup()
    }
}

/// A row of `predicates`: a registered predicate and its definition as JSON.
#[derive(Debug)]
pub struct PredicateRow {
    pub name: String,
    pub major_version: i64,
    pub minor_version: i64,
    pub def_json: String,
}

/// [`PredicateRow`] as a mathematical value.
#[verifier::ext_equal]
pub struct PredicateRowView {
    pub name: Seq<char>,
    pub major_version: i64,
    pub minor_version: i64,
    pub def_json: Seq<char>,
}

impl DeepView for PredicateRow {
    type V = PredicateRowView;

    open spec fn deep_view(&self) -> PredicateRowView {
        PredicateRowView {
            name: self.name@,
            major_version: self.major_version,
            minor_version: self.minor_version,
            def_json: self.def_json@,
        }
    }
}

impl Row for PredicateRow {
    fn dup(&self) -> (r: Self) {
        PredicateRow {
            name: self.name.clone(),
            major_version: self.major_version,
            minor_version: self.minor_version,
            def_json: self.def_json.clone(),
        }
    }
}

impl Clone for PredicateRow {
    fn clone(&self) -> (r: Self)
        ensures
            r.deep_view() == self.deep_view(),
    {
        self.dup()
    }
}

/// A row of `redactions`.
#[derive(Debug)]
pub struct RedactionRow {
    pub id: String,
    pub target_json: String,
    pub reason: String,
    pub actor: String,
    pub redacted_at: Timestamp,
}

/// [`RedactionRow`] as a mathematical value.
#[verifier::ext_equal]
pub struct RedactionRowView {
    pub id: Seq<char>,
    pub target_json: Seq<char>,
    pub reason: Seq<char>,
    pub actor: Seq<char>,
    pub redacted_at: Timestamp,
}

impl DeepView for RedactionRow {
    type V = RedactionRowView;

    open spec fn deep_view(&self) -> RedactionRowView {
        RedactionRowView {
            id: self.id@,
            target_json: self.target_json@,
            reason: self.reason@,
            actor: self.actor@,
            redacted_at: self.redacted_at,
        }
    }
}

impl Row for RedactionRow {
    fn dup(&self) -> (r: Self) {
        RedactionRow {
            id: self.id.clone(),
            target_json: self.target_json.clone(),
            reason: self.reason.clone(),
            actor: self.actor.clone(),
            redacted_at: self.redacted_at,
        }
    }
}

impl Clone for RedactionRow {
    fn clone(&self) -> (r: Self)
        ensures
            r.deep_view() == self.deep_view(),
    {
        self.dup()
    }
}

/// A row from the audit log.
#[derive(Debug)]
pub struct AuditRow {
    pub id: i64,
    pub ts: Timestamp,
    pub actor: String,
    pub scope: Option<String>,
    pub operation: String,
    pub target: Option<String>,
    pub detail_json: Option<String>,
}

/// [`AuditRow`] as a mathematical value.
#[verifier::ext_equal]
pub struct AuditRowView {
    pub id: i64,
    pub ts: Timestamp,
    pub actor: Seq<char>,
    pub scope: Option<Seq<char>>,
    pub operation: Seq<char>,
    pub target: Option<Seq<char>>,
    pub detail_json: Option<Seq<char>>,
}

impl DeepView for AuditRow {
    type V = AuditRowView;

    open spec fn deep_view(&self) -> AuditRowView {
        AuditRowView {
            id: self.id,
            ts: self.ts,
            actor: self.actor@,
            scope: self.scope.deep_view(),
            operation: self.operation@,
            target: self.target.deep_view(),
            detail_json: self.detail_json.deep_view(),
        }
    }
}

impl Row for AuditRow {
    fn dup(&self) -> (r: Self) {
        AuditRow {
            id: self.id,
            ts: self.ts,
            actor: self.actor.clone(),
            scope: dup_text(&self.scope),
            operation: self.operation.clone(),
            target: dup_text(&self.target),
            detail_json: dup_text(&self.detail_json),
        }
    }
}

impl Clone for AuditRow {
    fn clone(&self) -> (r: Self)
        ensures
            r.deep_view() == self.deep_view(),
    {
        self.dup()
    }
}

/// A row of `tokens`.
#[derive(Debug)]
pub struct TokenRow {
    pub id: String,
    pub token_hash: String,
    pub scope: Scope,
    pub issued_at: Timestamp,
    pub issued_by: String,
    pub revoked_at: Option<Timestamp>,
    pub label: Option<String>,
}

/// [`TokenRow`] as a mathematical value.
#[verifier::ext_equal]
pub struct TokenRowView {
    pub id: Seq<char>,
    pub token_hash: Seq<char>,
    pub scope: ScopeView,
    pub issued_at: Timestamp,
    pub issued_by: Seq<char>,
    pub revoked_at: Option<Timestamp>,
    pub label: Option<Seq<char>>,
}

impl DeepView for TokenRow {
    type V = TokenRowView;

    open spec fn deep_view(&self) -> TokenRowView {
        TokenRowView {
            id: self.id@,
            token_hash: self.token_hash@,
            scope: self.scope.deep_view(),
            issued_at: self.issued_at,
            issued_by: self.issued_by@,
            revoked_at: self.revoked_at,
            label: self.label.deep_view(),
        }
    }
}

impl Row for TokenRow {
    fn dup(&self) -> (r: Self) {
        TokenRow {
            id: self.id.clone(),
            token_hash: self.token_hash.clone(),
            scope: self.scope.dup(),
            issued_at: self.issued_at,
            issued_by: self.issued_by.clone(),
            revoked_at: self.revoked_at,
            label: dup_text(&self.label),
        }
    }
}

impl Clone for TokenRow {
    fn clone(&self) -> (r: Self)
        ensures
            r.deep_view() == self.deep_view(),
    {
        self.dup()
    }
}

/// A registered source row.
#[derive(Debug)]
pub struct SourceRow {
    pub id: String,
    pub space: String,
    pub name: String,
    pub kind: String,
    pub mode: String,
    pub claims_json: String,
    pub created_at: Timestamp,
}

/// [`SourceRow`] as a mathematical value.
#[verifier::ext_equal]
pub struct SourceRowView {
    pub id: Seq<char>,
    pub space: Seq<char>,
    pub name: Seq<char>,
    pub kind: Seq<char>,
    pub mode: Seq<char>,
    pub claims_json: Seq<char>,
    pub created_at: Timestamp,
}

impl DeepView for SourceRow {
    type V = SourceRowView;

    open spec fn deep_view(&self) -> SourceRowView {
        SourceRowView {
            id: self.id@,
            space: self.space@,
            name: self.name@,
            kind: self.kind@,
            mode: self.mode@,
            claims_json: self.claims_json@,
            created_at: self.created_at,
        }
    }
}

impl Row for SourceRow {
    fn dup(&self) -> (r: Self) {
        SourceRow {
            id: self.id.clone(),
            space: self.space.clone(),
            name: self.name.clone(),
            kind: self.kind.clone(),
            mode: self.mode.clone(),
            claims_json: self.claims_json.clone(),
            created_at: self.created_at,
        }
    }
}

impl Clone for SourceRow {
    fn clone(&self) -> (r: Self)
        ensures
            r.deep_view() == self.deep_view(),
    {
        self.dup()
    }
}

/// A source trust policy row.
#[derive(Debug)]
pub struct PolicyRow {
    pub id: String,
    pub source_id: String,
    pub trust: TrustTier,
    pub effective_from: Timestamp,
    pub effective_to: Option<Timestamp>,
    pub declaration_ep: String,
    pub created_at: Timestamp,
}

/// [`PolicyRow`] as a mathematical value.
#[verifier::ext_equal]
pub struct PolicyRowView {
    pub id: Seq<char>,
    pub source_id: Seq<char>,
    pub trust: TrustTier,
    pub effective_from: Timestamp,
    pub effective_to: Option<Timestamp>,
    pub declaration_ep: Seq<char>,
    pub created_at: Timestamp,
}

impl DeepView for PolicyRow {
    type V = PolicyRowView;

    open spec fn deep_view(&self) -> PolicyRowView {
        PolicyRowView {
            id: self.id@,
            source_id: self.source_id@,
            trust: self.trust,
            effective_from: self.effective_from,
            effective_to: self.effective_to,
            declaration_ep: self.declaration_ep@,
            created_at: self.created_at,
        }
    }
}

impl Row for PolicyRow {
    fn dup(&self) -> (r: Self) {
        PolicyRow {
            id: self.id.clone(),
            source_id: self.source_id.clone(),
            trust: self.trust,
            effective_from: self.effective_from,
            effective_to: self.effective_to,
            declaration_ep: self.declaration_ep.clone(),
            created_at: self.created_at,
        }
    }
}

impl Clone for PolicyRow {
    fn clone(&self) -> (r: Self)
        ensures
            r.deep_view() == self.deep_view(),
    {
        self.dup()
    }
}

/// A row of `communities`: the label of one entity.
#[derive(Debug)]
pub struct CommunityRow {
    pub id: String,
    pub space: String,
    pub label: i64,
}

/// [`CommunityRow`] as a mathematical value.
#[verifier::ext_equal]
pub struct CommunityRowView {
    pub id: Seq<char>,
    pub space: Seq<char>,
    pub label: i64,
}

impl DeepView for CommunityRow {
    type V = CommunityRowView;

    open spec fn deep_view(&self) -> CommunityRowView {
        CommunityRowView {
            id: self.id@,
            space: self.space@,
            label: self.label,
        }
    }
}

impl Row for CommunityRow {
    fn dup(&self) -> (r: Self) {
        CommunityRow {
            id: self.id.clone(),
            space: self.space.clone(),
            label: self.label,
        }
    }
}

impl Clone for CommunityRow {
    fn clone(&self) -> (r: Self)
        ensures
            r.deep_view() == self.deep_view(),
    {
        self.dup()
    }
}

/// A row of `chunks`: a byte span of an episode.
#[derive(Debug)]
pub struct ChunkRow {
    pub id: String,
    pub space: String,
    pub episode_id: String,
    pub ordinal: i64,
    pub span_start: i64,
    pub span_end: i64,
    pub context: String,
}

/// [`ChunkRow`] as a mathematical value.
#[verifier::ext_equal]
pub struct ChunkRowView {
    pub id: Seq<char>,
    pub space: Seq<char>,
    pub episode_id: Seq<char>,
    pub ordinal: i64,
    pub span_start: i64,
    pub span_end: i64,
    pub context: Seq<char>,
}

impl DeepView for ChunkRow {
    type V = ChunkRowView;

    open spec fn deep_view(&self) -> ChunkRowView {
        ChunkRowView {
            id: self.id@,
            space: self.space@,
            episode_id: self.episode_id@,
            ordinal: self.ordinal,
            span_start: self.span_start,
            span_end: self.span_end,
            context: self.context@,
        }
    }
}

impl Row for ChunkRow {
    fn dup(&self) -> (r: Self) {
        ChunkRow {
            id: self.id.clone(),
            space: self.space.clone(),
            episode_id: self.episode_id.clone(),
            ordinal: self.ordinal,
            span_start: self.span_start,
            span_end: self.span_end,
            context: self.context.clone(),
        }
    }
}

impl Clone for ChunkRow {
    fn clone(&self) -> (r: Self)
        ensures
            r.deep_view() == self.deep_view(),
    {
        self.dup()
    }
}

/// A row of a full-text index.
#[derive(Debug)]
pub struct FtsRow {
    pub body: String,
    pub space: String,
    pub target_kind: String,
    pub target_id: String,
}

/// [`FtsRow`] as a mathematical value.
#[verifier::ext_equal]
pub struct FtsRowView {
    pub body: Seq<char>,
    pub space: Seq<char>,
    pub target_kind: Seq<char>,
    pub target_id: Seq<char>,
}

impl DeepView for FtsRow {
    type V = FtsRowView;

    open spec fn deep_view(&self) -> FtsRowView {
        FtsRowView {
            body: self.body@,
            space: self.space@,
            target_kind: self.target_kind@,
            target_id: self.target_id@,
        }
    }
}

impl Row for FtsRow {
    fn dup(&self) -> (r: Self) {
        FtsRow {
            body: self.body.clone(),
            space: self.space.clone(),
            target_kind: self.target_kind.clone(),
            target_id: self.target_id.clone(),
        }
    }
}

impl Clone for FtsRow {
    fn clone(&self) -> (r: Self)
        ensures
            r.deep_view() == self.deep_view(),
    {
        self.dup()
    }
}

/// A row of `tfidf_vectors`.
#[derive(Debug)]
pub struct VectorRow {
    pub space: String,
    pub target_kind: String,
    pub target_id: String,
    pub vector: Vec<u8>,
}

/// [`VectorRow`] as a mathematical value.
#[verifier::ext_equal]
pub struct VectorRowView {
    pub space: Seq<char>,
    pub target_kind: Seq<char>,
    pub target_id: Seq<char>,
    pub vector: Seq<u8>,
}

impl DeepView for VectorRow {
    type V = VectorRowView;

    open spec fn deep_view(&self) -> VectorRowView {
        VectorRowView {
            space: self.space@,
            target_kind: self.target_kind@,
            target_id: self.target_id@,
            vector: self.vector@,
        }
    }
}

impl Row for VectorRow {
    fn dup(&self) -> (r: Self) {
        VectorRow {
            space: self.space.clone(),
            target_kind: self.target_kind.clone(),
            target_id: self.target_id.clone(),
            vector: dup_bytes(&self.vector),
        }
    }
}

impl Clone for VectorRow {
    fn clone(&self) -> (r: Self)
        ensures
            r.deep_view() == self.deep_view(),
    {
        self.dup()
    }
}

/// A row of `entity_vectors`.
#[derive(Debug)]
pub struct EntityVectorRow {
    pub entity_id: String,
    pub embedding: Vec<u8>,
}

/// [`EntityVectorRow`] as a mathematical value.
#[verifier::ext_equal]
pub struct EntityVectorRowView {
    pub entity_id: Seq<char>,
    pub embedding: Seq<u8>,
}

impl DeepView for EntityVectorRow {
    type V = EntityVectorRowView;

    open spec fn deep_view(&self) -> EntityVectorRowView {
        EntityVectorRowView {
            entity_id: self.entity_id@,
            embedding: self.embedding@,
        }
    }
}

impl Row for EntityVectorRow {
    fn dup(&self) -> (r: Self) {
        EntityVectorRow {
            entity_id: self.entity_id.clone(),
            embedding: dup_bytes(&self.embedding),
        }
    }
}

impl Clone for EntityVectorRow {
    fn clone(&self) -> (r: Self)
        ensures
            r.deep_view() == self.deep_view(),
    {
        self.dup()
    }
}

/// A row of `consolidation_checkpoints`.
#[derive(Debug)]
pub struct CheckpointRow {
    pub cluster_hash: String,
    pub extractor_id: String,
    pub status: String,
    pub started_at: Timestamp,
    pub completed_at: Option<Timestamp>,
}

/// [`CheckpointRow`] as a mathematical value.
#[verifier::ext_equal]
pub struct CheckpointRowView {
    pub cluster_hash: Seq<char>,
    pub extractor_id: Seq<char>,
    pub status: Seq<char>,
    pub started_at: Timestamp,
    pub completed_at: Option<Timestamp>,
}

impl DeepView for CheckpointRow {
    type V = CheckpointRowView;

    open spec fn deep_view(&self) -> CheckpointRowView {
        CheckpointRowView {
            cluster_hash: self.cluster_hash@,
            extractor_id: self.extractor_id@,
            status: self.status@,
            started_at: self.started_at,
            completed_at: self.completed_at,
        }
    }
}

impl Row for CheckpointRow {
    fn dup(&self) -> (r: Self) {
        CheckpointRow {
            cluster_hash: self.cluster_hash.clone(),
            extractor_id: self.extractor_id.clone(),
            status: self.status.clone(),
            started_at: self.started_at,
            completed_at: self.completed_at,
        }
    }
}

impl Clone for CheckpointRow {
    fn clone(&self) -> (r: Self)
        ensures
            r.deep_view() == self.deep_view(),
    {
        self.dup()
    }
}

/// A row of `meta`.
#[derive(Debug)]
pub struct MetaRow {
    pub key: String,
    pub value: String,
}

/// [`MetaRow`] as a mathematical value.
#[verifier::ext_equal]
pub struct MetaRowView {
    pub key: Seq<char>,
    pub value: Seq<char>,
}

impl DeepView for MetaRow {
    type V = MetaRowView;

    open spec fn deep_view(&self) -> MetaRowView {
        MetaRowView {
            key: self.key@,
            value: self.value@,
        }
    }
}

impl Row for MetaRow {
    fn dup(&self) -> (r: Self) {
        MetaRow {
            key: self.key.clone(),
            value: self.value.clone(),
        }
    }
}

impl Clone for MetaRow {
    fn clone(&self) -> (r: Self)
        ensures
            r.deep_view() == self.deep_view(),
    {
        self.dup()
    }
}

/// The tables of the store, in insertion order.
pub struct Tables {
    /// Spaces.
    pub spaces: Vec<SpaceEntry>,
    /// The ledger.
    pub episodes: Vec<EpisodeRow>,
    /// Cached extraction responses.
    pub extractions: Vec<ExtractionRow>,
    /// Quarantined extraction responses.
    pub failures: Vec<ExtractionFailure>,
    /// Cached summaries.
    pub summaries: Vec<SummaryRow>,
    /// Links between episodes.
    pub links: Vec<EpisodeLink>,
    /// Entities.
    pub entities: Vec<Entity>,
    /// Surface forms of entities.
    pub keys: Vec<EntityKey>,
    /// Merge decisions.
    pub merges: Vec<EntityMerge>,
    /// Statements.
    pub statements: Vec<Statement>,
    /// Assertions.
    pub assertions: Vec<Assertion>,
    /// Mentions.
    pub mentions: Vec<Mention>,
    /// Beliefs.
    pub beliefs: Vec<Belief>,
    /// Registered predicates.
    pub predicates: Vec<PredicateRow>,
    /// Recorded redactions.
    pub redactions: Vec<RedactionRow>,
    /// The audit log.
    pub audit: Vec<AuditRow>,
    /// Access tokens.
    pub tokens: Vec<TokenRow>,
    /// Registered sources.
    pub sources: Vec<SourceRow>,
    /// Trust policies of sources.
    pub policies: Vec<PolicyRow>,
    /// Community labels.
    pub communities: Vec<CommunityRow>,
    /// Episode chunks.
    pub chunks: Vec<ChunkRow>,
    /// Word index.
    pub fts_word: Vec<FtsRow>,
    /// Trigram index.
    pub fts_ngram: Vec<FtsRow>,
    /// Lexical vectors.
    pub tfidf_vectors: Vec<VectorRow>,
    /// Dense entity vectors.
    pub entity_vectors: Vec<EntityVectorRow>,
    /// Consolidation checkpoints.
    pub checkpoints: Vec<CheckpointRow>,
    /// Key-value settings.
    pub meta: Vec<MetaRow>,
}

/// [`Tables`] as mathematical tables.
#[verifier::ext_equal]
pub struct TablesView {
    pub spaces: Seq<SpaceEntryView>,
    pub episodes: Seq<EpisodeRowView>,
    pub extractions: Seq<ExtractionRowView>,
    pub failures: Seq<ExtractionFailureView>,
    pub summaries: Seq<SummaryRowView>,
    pub links: Seq<EpisodeLinkView>,
    pub entities: Seq<EntityView>,
    pub keys: Seq<EntityKeyView>,
    pub merges: Seq<EntityMergeView>,
    pub statements: Seq<StatementView>,
    pub assertions: Seq<AssertionView>,
    pub mentions: Seq<MentionView>,
    pub beliefs: Seq<BeliefView>,
    pub predicates: Seq<PredicateRowView>,
    pub redactions: Seq<RedactionRowView>,
    pub audit: Seq<AuditRowView>,
    pub tokens: Seq<TokenRowView>,
    pub sources: Seq<SourceRowView>,
    pub policies: Seq<PolicyRowView>,
    pub communities: Seq<CommunityRowView>,
    pub chunks: Seq<ChunkRowView>,
    pub fts_word: Seq<FtsRowView>,
    pub fts_ngram: Seq<FtsRowView>,
    pub tfidf_vectors: Seq<VectorRowView>,
    pub entity_vectors: Seq<EntityVectorRowView>,
    pub checkpoints: Seq<CheckpointRowView>,
    pub meta: Seq<MetaRowView>,
}

impl DeepView for Tables {
    type V = TablesView;

    open spec fn deep_view(&self) -> TablesView {
        TablesView {
            spaces: self.spaces.deep_view(),
            episodes: self.episodes.deep_view(),
            extractions: self.extractions.deep_view(),
            failures: self.failures.deep_view(),
            summaries: self.summaries.deep_view(),
            links: self.links.deep_view(),
            entities: self.entities.deep_view(),
            keys: self.keys.deep_view(),
            merges: self.merges.deep_view(),
            statements: self.statements.deep_view(),
            assertions: self.assertions.deep_view(),
            mentions: self.mentions.deep_view(),
            beliefs: self.beliefs.deep_view(),
            predicates: self.predicates.deep_view(),
            redactions: self.redactions.deep_view(),
            audit: self.audit.deep_view(),
            tokens: self.tokens.deep_view(),
            sources: self.sources.deep_view(),
            policies: self.policies.deep_view(),
            communities: self.communities.deep_view(),
            chunks: self.chunks.deep_view(),
            fts_word: self.fts_word.deep_view(),
            fts_ngram: self.fts_ngram.deep_view(),
            tfidf_vectors: self.tfidf_vectors.deep_view(),
            entity_vectors: self.entity_vectors.deep_view(),
            checkpoints: self.checkpoints.deep_view(),
            meta: self.meta.deep_view(),
        }
    }
}

impl Tables {
    /// No rows in any table.
    pub fn new() -> (r: Self)
        ensures
            r.deep_view().spaces == Seq::<SpaceEntryView>::empty(),
            r.deep_view().episodes == Seq::<EpisodeRowView>::empty(),
            r.deep_view().extractions == Seq::<ExtractionRowView>::empty(),
            r.deep_view().failures == Seq::<ExtractionFailureView>::empty(),
            r.deep_view().summaries == Seq::<SummaryRowView>::empty(),
            r.deep_view().links == Seq::<EpisodeLinkView>::empty(),
            r.deep_view().entities == Seq::<EntityView>::empty(),
            r.deep_view().keys == Seq::<EntityKeyView>::empty(),
            r.deep_view().merges == Seq::<EntityMergeView>::empty(),
            r.deep_view().statements == Seq::<StatementView>::empty(),
            r.deep_view().assertions == Seq::<AssertionView>::empty(),
            r.deep_view().mentions == Seq::<MentionView>::empty(),
            r.deep_view().beliefs == Seq::<BeliefView>::empty(),
            r.deep_view().predicates == Seq::<PredicateRowView>::empty(),
            r.deep_view().redactions == Seq::<RedactionRowView>::empty(),
            r.deep_view().audit == Seq::<AuditRowView>::empty(),
            r.deep_view().tokens == Seq::<TokenRowView>::empty(),
            r.deep_view().sources == Seq::<SourceRowView>::empty(),
            r.deep_view().policies == Seq::<PolicyRowView>::empty(),
            r.deep_view().communities == Seq::<CommunityRowView>::empty(),
            r.deep_view().chunks == Seq::<ChunkRowView>::empty(),
            r.deep_view().fts_word == Seq::<FtsRowView>::empty(),
            r.deep_view().fts_ngram == Seq::<FtsRowView>::empty(),
            r.deep_view().tfidf_vectors == Seq::<VectorRowView>::empty(),
            r.deep_view().entity_vectors == Seq::<EntityVectorRowView>::empty(),
            r.deep_view().checkpoints == Seq::<CheckpointRowView>::empty(),
            r.deep_view().meta == Seq::<MetaRowView>::empty(),
    {
        let r = Tables {
            spaces: Vec::new(),
            episodes: Vec::new(),
            extractions: Vec::new(),
            failures: Vec::new(),
            summaries: Vec::new(),
            links: Vec::new(),
            entities: Vec::new(),
            keys: Vec::new(),
            merges: Vec::new(),
            statements: Vec::new(),
            assertions: Vec::new(),
            mentions: Vec::new(),
            beliefs: Vec::new(),
            predicates: Vec::new(),
            redactions: Vec::new(),
            audit: Vec::new(),
            tokens: Vec::new(),
            sources: Vec::new(),
            policies: Vec::new(),
            communities: Vec::new(),
            chunks: Vec::new(),
            fts_word: Vec::new(),
            fts_ngram: Vec::new(),
            tfidf_vectors: Vec::new(),
            entity_vectors: Vec::new(),
            checkpoints: Vec::new(),
            meta: Vec::new(),
        };
        proof {
            assert(r.spaces.deep_view() =~= Seq::<SpaceEntryView>::empty());
            assert(r.episodes.deep_view() =~= Seq::<EpisodeRowView>::empty());
            assert(r.extractions.deep_view() =~= Seq::<ExtractionRowView>::empty());
            assert(r.failures.deep_view() =~= Seq::<ExtractionFailureView>::empty());
            assert(r.summaries.deep_view() =~= Seq::<SummaryRowView>::empty());
            assert(r.links.deep_view() =~= Seq::<EpisodeLinkView>::empty());
            assert(r.entities.deep_view() =~= Seq::<EntityView>::empty());
            assert(r.keys.deep_view() =~= Seq::<EntityKeyView>::empty());
            assert(r.merges.deep_view() =~= Seq::<EntityMergeView>::empty());
            assert(r.statements.deep_view() =~= Seq::<StatementView>::empty());
            assert(r.assertions.deep_view() =~= Seq::<AssertionView>::empty());
            assert(r.mentions.deep_view() =~= Seq::<MentionView>::empty());
            assert(r.beliefs.deep_view() =~= Seq::<BeliefView>::empty());
            assert(r.predicates.deep_view() =~= Seq::<PredicateRowView>::empty());
            assert(r.redactions.deep_view() =~= Seq::<RedactionRowView>::empty());
            assert(r.audit.deep_view() =~= Seq::<AuditRowView>::empty());
            assert(r.tokens.deep_view() =~= Seq::<TokenRowView>::empty());
            assert(r.sources.deep_view() =~= Seq::<SourceRowView>::empty());
            assert(r.policies.deep_view() =~= Seq::<PolicyRowView>::empty());
            assert(r.communities.deep_view() =~= Seq::<CommunityRowView>::empty());
            assert(r.chunks.deep_view() =~= Seq::<ChunkRowView>::empty());
            assert(r.fts_word.deep_view() =~= Seq::<FtsRowView>::empty());
            assert(r.fts_ngram.deep_view() =~= Seq::<FtsRowView>::empty());
            assert(r.tfidf_vectors.deep_view() =~= Seq::<VectorRowView>::empty());
            assert(r.entity_vectors.deep_view() =~= Seq::<EntityVectorRowView>::empty());
            assert(r.checkpoints.deep_view() =~= Seq::<CheckpointRowView>::empty());
            assert(r.meta.deep_view() =~= Seq::<MetaRowView>::empty());
        }
        r
    }
}

impl Row for Tables {
    fn dup(&self) -> (r: Self) {
        Tables {
            spaces: dup_rows(&self.spaces),
            episodes: dup_rows(&self.episodes),
            extractions: dup_rows(&self.extractions),
            failures: dup_rows(&self.failures),
            summaries: dup_rows(&self.summaries),
            links: dup_rows(&self.links),
            entities: dup_rows(&self.entities),
            keys: dup_rows(&self.keys),
            merges: dup_rows(&self.merges),
            statements: dup_rows(&self.statements),
            assertions: dup_rows(&self.assertions),
            mentions: dup_rows(&self.mentions),
            beliefs: dup_rows(&self.beliefs),
            predicates: dup_rows(&self.predicates),
            redactions: dup_rows(&self.redactions),
            audit: dup_rows(&self.audit),
            tokens: dup_rows(&self.tokens),
            sources: dup_rows(&self.sources),
            policies: dup_rows(&self.policies),
            communities: dup_rows(&self.communities),
            chunks: dup_rows(&self.chunks),
            fts_word: dup_rows(&self.fts_word),
            fts_ngram: dup_rows(&self.fts_ngram),
            tfidf_vectors: dup_rows(&self.tfidf_vectors),
            entity_vectors: dup_rows(&self.entity_vectors),
            checkpoints: dup_rows(&self.checkpoints),
            meta: dup_rows(&self.meta),
        }
    }
}

} // verus!
