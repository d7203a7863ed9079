//! Extraction: the response cache, the backlog, and the projection of claims.
use vstd::prelude::*;

use crate::error::{fails_with, BrainError, BrainErrorView};
use crate::index_ops::{index_episode_fts, with_episode_index};
use crate::ledger::{
    by_seq, episode_after, episode_has_id, event_inserted, insert_episode, insert_event, seqs_fit,
    trust_of, with_episode, Episode, EpisodeKind, EpisodeView, IngestAttachment, SourceRef,
    SourceRefView,
};
use crate::project::{
    ask_fold, ask_resolution, literal_of, number_view, object_of, read_literal, refold_of,
    resolve_or_create, resolve_question, with_assertion, with_resolution, write_assertion,
    AssertionPlan, AssertionPlanView, EntityRef, EntityRefView, Names, NamesView, OtherAnswer,
    OtherQuestion, OtherSide, OtherSideView, Resolution, ResolveQuestion, TypedValue,
};
use crate::redaction::{episode_id_of, unique_texts, Refold};
use crate::rows::{
    count, delete, distinct, find, first_where, insert_or_replace, map_rows, or_replace, order,
    ordered, pick, select, some_where, Row,
};
use crate::tables::{
    Assertion, AssertionView, EpisodeRow, EpisodeRowView, ExtractionFailure, ExtractionFailureView,
    ExtractionRow, ExtractionRowView, Mention, MentionRole, MentionView, Object, Polarity,
    ResolutionMethod, ResolutionMethodView, Statement, StatementView, Tables, TablesView,
    TrustTier,
};
use crate::text::str_eq;
use crate::time::{TIME_MAX, TIME_MIN, Timestamp};

verus! {

/// Where a claim names an entity.
#[derive(Debug)]
pub struct ClaimMention {
    pub surface: String,
    pub entity_type: String,
    pub span_start: u32,
    pub span_end: u32,
}

/// [`ClaimMention`] as a mathematical value.
#[verifier::ext_equal]
pub struct ClaimMentionView {
    pub surface: Seq<char>,
    pub entity_type: Seq<char>,
    pub span_start: u32,
    pub span_end: u32,
}

impl DeepView for ClaimMention {
    type V = ClaimMentionView;

    open spec fn deep_view(&self) -> ClaimMentionView {
        ClaimMentionView {
            surface: self.surface@,
            entity_type: self.entity_type@,
            span_start: self.span_start,
            span_end: self.span_end,
        }
    }
}

impl Row for ClaimMention {
    fn dup(&self) -> (r: Self) {
        ClaimMention {
            surface: self.surface.clone(),
            entity_type: self.entity_type.clone(),
            span_start: self.span_start,
            span_end: self.span_end,
        }
    }
}

impl Clone for ClaimMention {
    fn clone(&self) -> (r: Self)
        ensures
            r.deep_view() == self.deep_view(),
    {
        self.dup()
    }
}

/// The object of a claim.
#[derive(Debug)]
pub enum ClaimObject {
    Entity { mention: ClaimMention },
    Literal { literal_type: String, value: String },
}

/// [`ClaimObject`] as a mathematical value.
#[verifier::ext_equal]
pub enum ClaimObjectView {
    Entity { mention: ClaimMentionView },
    Literal { literal_type: Seq<char>, value: Seq<char> },
}

impl DeepView for ClaimObject {
    type V = ClaimObjectView;

    open spec fn deep_view(&self) -> ClaimObjectView {
        match self {
            ClaimObject::Entity { mention } => ClaimObjectView::Entity {
                mention: mention.deep_view(),
            },
            ClaimObject::Literal { literal_type, value } => ClaimObjectView::Literal {
                literal_type: literal_type@,
                value: value@,
            },
        }
    }
}

impl Row for ClaimObject {
    fn dup(&self) -> (r: Self) {
        match self {
            ClaimObject::Entity { mention } => ClaimObject::Entity { mention: mention.dup() },
            ClaimObject::Literal { literal_type, value } => ClaimObject::Literal {
                literal_type: literal_type.clone(),
                value: value.clone(),
            },
        }
    }
}

impl Clone for ClaimObject {
    fn clone(&self) -> (r: Self)
        ensures
            r.deep_view() == self.deep_view(),
    {
        self.dup()
    }
}

/// A claim that an extractor read from an episode.
/// 
/// `confidence` holds the bit pattern of a single-precision number.
#[derive(Debug)]
pub struct Claim {
    pub subject: ClaimMention,
    pub predicate: String,
    pub object: ClaimObject,
    pub polarity: Polarity,
    pub valid_from: Option<i64>,
    pub valid_to: Option<i64>,
    pub confidence: u32,
}

/// [`Claim`] as a mathematical value.
#[verifier::ext_equal]
pub struct ClaimView {
    pub subject: ClaimMentionView,
    pub predicate: Seq<char>,
    pub object: ClaimObjectView,
    pub polarity: Polarity,
    pub valid_from: Option<i64>,
    pub valid_to: Option<i64>,
    pub confidence: u32,
}

impl DeepView for Claim {
    type V = ClaimView;

    open spec fn deep_view(&self) -> ClaimView {
        ClaimView {
            subject: self.subject.deep_view(),
            predicate: self.predicate@,
            object: self.object.deep_view(),
            polarity: self.polarity,
            valid_from: self.valid_from,
            valid_to: self.valid_to,
            confidence: self.confidence,
        }
    }
}

impl Row for Claim {
    fn dup(&self) -> (r: Self) {
        Claim {
            subject: self.subject.dup(),
            predicate: self.predicate.clone(),
            object: self.object.dup(),
            polarity: self.polarity,
            valid_from: self.valid_from,
            valid_to: self.valid_to,
            confidence: self.confidence,
        }
    }
}

impl Clone for Claim {
    fn clone(&self) -> (r: Self)
        ensures
            r.deep_view() == self.deep_view(),
    {
        self.dup()
    }
}

/// Selects the cached response of an extractor for an episode.
pub open spec fn is_response(
    episode: Seq<char>,
    extractor: Seq<char>,
) -> spec_fn(ExtractionRowView) -> bool {
    |x: ExtractionRowView| x.episode_id == episode && x.extractor_id == extractor
}

/// Selects the failures of an extractor for an episode.
pub open spec fn is_failure(
    episode: Seq<char>,
    extractor: Seq<char>,
) -> spec_fn(ExtractionFailureView) -> bool {
    |f: ExtractionFailureView| f.episode_id == episode && f.extractor_id == extractor
}

/// The tables once a response is cached: it takes the place of the one that was
/// there, and consumes the failures of its episode and extractor.
pub open spec fn with_response(db: TablesView, row: ExtractionRowView) -> TablesView {
    TablesView {
        extractions: or_replace(
            db.extractions,
            is_response(row.episode_id, row.extractor_id),
            row,
        ),
        failures: db.failures.filter(
            |f: ExtractionFailureView| !is_failure(row.episode_id, row.extractor_id)(f),
        ),
        ..db
    }
}

/// Cache a raw response for an episode and an extractor, with its content hash.
/// Failures are a retry queue, not an archive: success consumes them.
pub fn cache_response(
    db: &mut Tables,
    episode_id: &str,
    extractor_id: &str,
    raw_response: &str,
    response_hash: Vec<u8>,
    now: Timestamp,
)
    ensures
        final(db).deep_view() == with_response(
            old(db).deep_view(),
            ExtractionRowView {
                episode_id: episode_id@,
                extractor_id: extractor_id@,
                response_hash: response_hash@,
                raw_response: raw_response@,
                created_at: now,
            },
        ),
{
    let row = ExtractionRow {
        episode_id: episode_id.to_owned(),
        extractor_id: extractor_id.to_owned(),
        response_hash,
        raw_response: raw_response.to_owned(),
        created_at: now,
    };
    insert_or_replace(
        &mut db.extractions,
        row,
        |x: &ExtractionRow| -> (b: bool)
            ensures
                b == is_response(episode_id@, extractor_id@)(x.deep_view())
            {
                str_eq(x.episode_id.as_str(), episode_id) && str_eq(
                    x.extractor_id.as_str(),
                    extractor_id,
                )
            },
        Ghost(is_response(episode_id@, extractor_id@)),
    );
    delete(
        &mut db.failures,
        |f: &ExtractionFailure| -> (gone: bool)
            ensures
                gone == is_failure(episode_id@, extractor_id@)(f.deep_view())
            {
                str_eq(f.episode_id.as_str(), episode_id) && str_eq(
                    f.extractor_id.as_str(),
                    extractor_id,
                )
            },
        Ghost(|f: ExtractionFailureView| !is_failure(episode_id@, extractor_id@)(f)),
    );
}

/// The cached response of an extractor for an episode.
pub open spec fn cached(
    extractions: Seq<ExtractionRowView>,
    episode: Seq<char>,
    extractor: Seq<char>,
) -> Option<Seq<char>> {
    match first_where(extractions, is_response(episode, extractor)) {
        Some(x) => Some(x.raw_response),
        None => None,
    }
}

/// Get a cached response.
pub fn get_cached_response(db: &Tables, episode_id: &str, extractor_id: &str) -> (r: Option<String>)
    ensures
        r.deep_view() == cached(db.deep_view().extractions, episode_id@, extractor_id@),
{
    match find(
        &db.extractions,
        |x: &ExtractionRow| -> (b: bool)
            ensures
                b == is_response(episode_id@, extractor_id@)(x.deep_view())
            {
                str_eq(x.episode_id.as_str(), episode_id) && str_eq(
                    x.extractor_id.as_str(),
                    extractor_id,
                )
            },
        Ghost(is_response(episode_id@, extractor_id@)),
    ) {
        Some(i) => {
            assert(db.deep_view().extractions[i as int] == db.extractions[i as int].deep_view());
            Some(db.extractions[i].raw_response.clone())
        },
        None => None,
    }
}

/// A response that was cached is what the cache gives back, it is the only one
/// of its episode and extractor, none of their failures is left, and every
/// other response and failure is as it was.
pub proof fn law_cache_reads_back(db: TablesView, row: ExtractionRowView)
    ensures
        ({
            let after = with_response(db, row);
            &&& cached(after.extractions, row.episode_id, row.extractor_id) == Some(
                row.raw_response,
            )
            &&& !some_where(after.failures, is_failure(row.episode_id, row.extractor_id))
            &&& forall|ep: Seq<char>, ex: Seq<char>|
                ep != row.episode_id || ex != row.extractor_id ==> #[trigger] cached(
                    after.extractions,
                    ep,
                    ex,
                ) == cached(db.extractions, ep, ex)
        }),
{
    let p = is_response(row.episode_id, row.extractor_id);
    let q = |x: ExtractionRowView| !p(x);
    let kept = db.extractions.filter(q);
    let after = with_response(db, row);
    assert(after.extractions == kept.push(row));
    assert forall|j: int| 0 <= j < kept.len() implies !p(#[trigger] after.extractions[j]) by {
        db.extractions.lemma_filter_pred(q, j);
    }
    crate::rows::lemma_first_where(after.extractions, p, kept.len() as int);
    let g = |f: ExtractionFailureView| !is_failure(row.episode_id, row.extractor_id)(f);
    assert forall|j: int| 0 <= j < after.failures.len() implies !is_failure(
        row.episode_id,
        row.extractor_id,
    )(#[trigger] after.failures[j]) by {
        db.failures.lemma_filter_pred(g, j);
    }
    assert forall|ep: Seq<char>, ex: Seq<char>|
        ep != row.episode_id || ex != row.extractor_id implies #[trigger] cached(
        after.extractions,
        ep,
        ex,
    ) == cached(db.extractions, ep, ex) by {
        let r = is_response(ep, ex);
        kept.lemma_filter_push(row, r);
        crate::redaction::lemma_filter_twice(db.extractions, q, r);
    }
}

/// Outcome counts for one extraction run window. `accepted` counts cached
/// responses, `failure_rows` failures, `rejected_episodes` the episodes that
/// have a failure.
#[derive(Debug, Clone, Copy, PartialEq, Eq, Structural)]
pub struct ExtractionRunCounts {
    pub accepted: u64,
    pub rejected_episodes: u64,
    pub failure_rows: u64,
}

/// Selects the responses cached in a window of time, ends included.
pub open spec fn cached_within(
    since: Timestamp,
    until: Timestamp,
) -> spec_fn(ExtractionRowView) -> bool {
    |x: ExtractionRowView| since.0 <= x.created_at.0 <= until.0
}

/// Selects the failures in a window of time, ends included.
pub open spec fn failed_within(
    since: Timestamp,
    until: Timestamp,
) -> spec_fn(ExtractionFailureView) -> bool {
    |f: ExtractionFailureView| since.0 <= f.created_at.0 <= until.0
}

/// The episode of a failure.
pub open spec fn failure_episode() -> spec_fn(ExtractionFailureView) -> Seq<char> {
    |f: ExtractionFailureView| f.episode_id
}

/// Summarize extraction outcomes recorded from `since` to `until`, across all
/// extractors.
pub fn extraction_run_counts(db: &Tables, since: Timestamp, until: Timestamp) -> (r:
    ExtractionRunCounts)
    ensures
        r.accepted == db.deep_view().extractions.filter(cached_within(since, until)).len(),
        r.failure_rows == db.deep_view().failures.filter(failed_within(since, until)).len(),
        r.rejected_episodes == distinct(
            db.deep_view().failures.filter(failed_within(since, until)).map_values(
                failure_episode(),
            ),
        ).len(),
{
    let accepted: usize = count(
        &db.extractions,
        |x: &ExtractionRow| -> (b: bool)
            ensures
                b == cached_within(since, until)(x.deep_view())
            { since.0 <= x.created_at.0 && x.created_at.0 <= until.0 },
        Ghost(cached_within(since, until)),
    );
    let failed = pick(
        &db.failures,
        |f: &ExtractionFailure| -> (b: bool)
            ensures
                b == failed_within(since, until)(f.deep_view())
            { since.0 <= f.created_at.0 && f.created_at.0 <= until.0 },
        |f: &ExtractionFailure| -> (s: String)
            ensures
                s.deep_view() == failure_episode()(f.deep_view())
            { f.episode_id.clone() },
        Ghost(failed_within(since, until)),
        Ghost(failure_episode()),
    );
    let rows: usize = failed.len();
    assert(failed.deep_view().len() == rows);
    let episodes = unique_texts(failed);
    assert(episodes.deep_view().len() == episodes.len());
    ExtractionRunCounts {
        accepted: accepted as u64,
        rejected_episodes: episodes.len() as u64,
        failure_rows: rows as u64,
    }
}

/// Selects the failures of an extractor for an episode that are no older than
/// the cutoff. The end of time as a cutoff selects none.
pub open spec fn is_recent_failure(
    episode: Seq<char>,
    extractor: Seq<char>,
    cutoff: Timestamp,
) -> spec_fn(ExtractionFailureView) -> bool {
    |f: ExtractionFailureView|
        cutoff.0 != TIME_MAX && f.episode_id == episode && f.extractor_id == extractor
            && f.created_at.0 >= cutoff.0
}

/// Selects the episodes that await an extractor: primary, no document, not
/// redacted, without a cached response and without a recent failure.
pub open spec fn is_backlog(
    db: TablesView,
    space: Seq<char>,
    extractor: Seq<char>,
    cutoff: Timestamp,
) -> spec_fn(EpisodeRowView) -> bool {
    |e: EpisodeRowView|
        e.space == space && e.kind == "primary"@ && e.source_kind != "document"@ && e.source_kind
            != "document_revision"@ && e.redacted_at is None && !some_where(
            db.extractions,
            is_response(e.id, extractor),
        ) && !some_where(db.failures, is_recent_failure(e.id, extractor, cutoff))
}

/// The backlog of an extractor in a space, by sequence number.
///
/// `failure_cutoff` is the retry cooldown: an episode with a failure at or
/// after it is left out. The end of time ignores failures entirely.
pub fn uncached_memory_episodes(
    db: &Tables,
    space: &str,
    extractor_id: &str,
    failure_cutoff: Timestamp,
) -> (r: Vec<String>)
    ensures
        r.deep_view() == ordered(
            db.deep_view().episodes.filter(
                is_backlog(db.deep_view(), space@, extractor_id@, failure_cutoff),
            ),
            by_seq(),
        ).map_values(episode_id_of()),
{
    let ghost view = db.deep_view();
    let found = select(
        &db.episodes,
        |e: &EpisodeRow| -> (b: bool)
            ensures
                b == is_backlog(view, space@, extractor_id@, failure_cutoff)(e.deep_view())
            {
                let response = find(
                    &db.extractions,
                    |x: &ExtractionRow| -> (b: bool)
                        ensures
                            b == is_response(e.id@, extractor_id@)(x.deep_view())
                        {
                            str_eq(x.episode_id.as_str(), e.id.as_str()) && str_eq(
                                x.extractor_id.as_str(),
                                extractor_id,
                            )
                        },
                    Ghost(is_response(e.id@, extractor_id@)),
                );
                let failure = find(
                    &db.failures,
                    |f: &ExtractionFailure| -> (b: bool)
                        ensures
                            b == is_recent_failure(e.id@, extractor_id@, failure_cutoff)(
                                f.deep_view(),
                            )
                        {
                            failure_cutoff.0 != TIME_MAX && str_eq(
                                f.episode_id.as_str(),
                                e.id.as_str(),
                            ) && str_eq(f.extractor_id.as_str(), extractor_id) && f.created_at.0
                                >= failure_cutoff.0
                        },
                    Ghost(is_recent_failure(e.id@, extractor_id@, failure_cutoff)),
                );
                str_eq(e.space.as_str(), space) && str_eq(e.kind.as_str(), "primary") && !str_eq(
                    e.source_kind.as_str(),
                    "document",
                ) && !str_eq(e.source_kind.as_str(), "document_revision")
                    && e.redacted_at.is_none() && response.is_none() && failure.is_none()
            },
        Ghost(is_backlog(view, space@, extractor_id@, failure_cutoff)),
    );
    let sorted = order(
        found,
        |a: &EpisodeRow, b: &EpisodeRow| -> (le: bool)
            ensures
                le == by_seq()(a.deep_view(), b.deep_view())
            { a.seq <= b.seq },
        Ghost(by_seq()),
    );
    map_rows(
        &sorted,
        |e: &EpisodeRow| -> (s: String)
            ensures
                s.deep_view() == episode_id_of()(e.deep_view())
            { e.id.clone() },
        Ghost(episode_id_of()),
    )
}

/// Once a response was cached for an episode, the episode is no longer in the
/// extractor's backlog.
pub proof fn law_cached_episode_leaves_backlog(
    db: TablesView,
    row: ExtractionRowView,
    space: Seq<char>,
    cutoff: Timestamp,
    e: EpisodeRowView,
)
    requires
        e.id == row.episode_id,
    ensures
        !is_backlog(with_response(db, row), space, row.extractor_id, cutoff)(e),
{
    let after = with_response(db, row);
    let p = is_response(row.episode_id, row.extractor_id);
    let kept = db.extractions.filter(|x: ExtractionRowView| !p(x));
    assert(after.extractions[kept.len() as int] == row);
    assert(p(after.extractions[kept.len() as int]));
}

/// The literal of a claimed type name and text. Names that are not known are
/// kept as text.
pub fn parse_claim_literal(lt: &str, value: &str, number: &Result<u64, String>) -> (r: Result<
    TypedValue,
    BrainError,
>)
    ensures
        match literal_of(lt@, value@, number_view(*number), " literal: "@, true) {
            Ok(v) => r is Ok && r->Ok_0.deep_view() == v,
            Err(e) => fails_with(r, e),
        },
{
    read_literal(lt, value, number, " literal: ", true)
}

/// A run over the valid claims of one extraction. What one claim writes, the
/// next one sees.
pub struct ExtractionRun {
    pub space: String,
    pub episode: String,
    pub extractor: String,
    pub claims: Vec<Claim>,
    pub now: Timestamp,
    /// What every assertion of the run inherits from its episode.
    pub trust: TrustTier,
    /// How many claims were handed out.
    pub done: usize,
}

/// The trust tier that is stored for an episode. A tier that cannot be read is
/// not trusted.
pub open spec fn inherited_trust(episode: EpisodeRowView) -> TrustTier {
    match trust_of(episode.trust) {
        Some(t) => t,
        None => TrustTier::Untrusted,
    }
}

/// The trust tier that is stored for an episode, which its assertions inherit.
pub fn stored_trust(episode: &EpisodeRow) -> (r: TrustTier)
    ensures
        r == inherited_trust(episode.deep_view()),
{
    match TrustTier::parse_db(episode.trust.as_str()) {
        Some(t) => t,
        None => TrustTier::Untrusted,
    }
}

/// Begins to project the claims of an extraction. An episode that is not in the
/// ledger is an error.
pub fn project_extraction(
    db: &Tables,
    space: &str,
    episode_id: &str,
    extractor_id: &str,
    claims: Vec<Claim>,
    now: Timestamp,
) -> (r: Result<ExtractionRun, BrainError>)
    ensures
        match first_where(db.deep_view().episodes, episode_has_id(episode_id@)) {
            Some(e) => {
                &&& r matches Ok(run)
                &&& run.space@ == space@
                &&& run.episode@ == episode_id@
                &&& run.extractor@ == extractor_id@
                &&& run.claims@ == claims@
                &&& run.now == now
                &&& run.trust == inherited_trust(e)
                &&& run.done == 0
            },
            None => fails_with(r, BrainErrorView::Storage("Query returned no rows"@)),
        },
{
    let found = find(
        &db.episodes,
        |e: &EpisodeRow| -> (b: bool)
            ensures
                b == episode_has_id(episode_id@)(e.deep_view())
            { str_eq(e.id.as_str(), episode_id) },
        Ghost(episode_has_id(episode_id@)),
    );
    match found {
        None => Err(BrainError::Storage("Query returned no rows".to_owned())),
        Some(i) => {
            assert(db.deep_view().episodes[i as int] == db.episodes[i as int].deep_view());
            let trust = stored_trust(&db.episodes[i]);
            Ok(
                ExtractionRun {
                    space: space.to_owned(),
                    episode: episode_id.to_owned(),
                    extractor: extractor_id.to_owned(),
                    claims,
                    now,
                    trust,
                    done: 0,
                },
            )
        },
    }
}

impl ExtractionRun {
    /// The next claim to project, in order; none after the last.
    pub fn next_claim(&mut self) -> (r: Option<ClaimRun>)
        requires
            old(self).done <= old(self).claims@.len(),
        ensures
            final(self).claims@ == old(self).claims@,
            final(self).space@ == old(self).space@,
            final(self).episode@ == old(self).episode@,
            final(self).extractor@ == old(self).extractor@,
            final(self).now == old(self).now,
            final(self).trust == old(self).trust,
            match r {
                Some(c) => old(self).done < old(self).claims@.len() && final(self).done == old(
                    self,
                ).done + 1 && c.deep_view() == (ClaimRunView {
                    space: old(self).space@,
                    episode: old(self).episode@,
                    extractor: old(self).extractor@,
                    claim: old(self).claims@[old(self).done as int].deep_view(),
                    now: old(self).now,
                    trust: old(self).trust,
                }),
                None => old(self).done == old(self).claims@.len() && final(self).done == old(
                    self,
                ).done,
            },
    {
        if self.done < self.claims.len() {
            let claim = self.claims[self.done].dup();
            self.done = self.done + 1;
            Some(
                ClaimRun {
                    space: self.space.clone(),
                    episode: self.episode.clone(),
                    extractor: self.extractor.clone(),
                    claim,
                    now: self.now,
                    trust: self.trust,
                },
            )
        } else {
            None
        }
    }
}

/// A claim whose subject is to be resolved.
pub struct ClaimRun {
    pub space: String,
    pub episode: String,
    pub extractor: String,
    pub claim: Claim,
    pub now: Timestamp,
    pub trust: TrustTier,
}

/// [`ClaimRun`] as a mathematical value.
#[verifier::ext_equal]
pub struct ClaimRunView {
    pub space: Seq<char>,
    pub episode: Seq<char>,
    pub extractor: Seq<char>,
    pub claim: ClaimView,
    pub now: Timestamp,
    pub trust: TrustTier,
}

impl DeepView for ClaimRun {
    type V = ClaimRunView;

    open spec fn deep_view(&self) -> ClaimRunView {
        ClaimRunView {
            space: self.space@,
            episode: self.episode@,
            extractor: self.extractor@,
            claim: self.claim.deep_view(),
            now: self.now,
            trust: self.trust,
        }
    }
}

/// The reference that a mention makes.
pub open spec fn mention_ref(m: ClaimMentionView) -> EntityRefView {
    EntityRefView { surface: m.surface, ty: m.entity_type }
}

fn ref_of(m: &ClaimMention) -> (r: EntityRef)
    ensures
        r.deep_view() == mention_ref(m.deep_view()),
{
    EntityRef { surface: m.surface.clone(), ty: m.entity_type.clone() }
}

impl ClaimRun {
    /// Which entity is the subject?
    pub fn ask_subject(&self, db: &Tables) -> (r: ResolveQuestion)
        ensures
            r.deep_view() == resolve_question(
                db.deep_view(),
                self.deep_view().space,
                mention_ref(self.deep_view().claim.subject),
                self.deep_view().episode,
                self.deep_view().claim.subject.span_start,
            ),
    {
        ask_resolution(
            db,
            self.space.as_str(),
            &ref_of(&self.claim.subject),
            self.episode.as_str(),
            self.claim.subject.span_start,
        )
    }

    /// Takes the answer which entity is the subject.
    pub fn subject_resolved(self, db: &mut Tables, res: &Resolution) -> (r: ClaimSubject)
        ensures
            r.deep_view() == (ClaimSubjectView {
                run: self.deep_view(),
                entity: res.deep_view().entity(),
                method: res.deep_view().method(),
            }),
            final(db).deep_view() == with_resolution(
                old(db).deep_view(),
                self.deep_view().space,
                mention_ref(self.deep_view().claim.subject),
                res.deep_view(),
                self.deep_view().now,
            ),
    {
        let (entity, method) = resolve_or_create(
            db,
            self.space.as_str(),
            &ref_of(&self.claim.subject),
            res,
            self.now,
        );
        ClaimSubject { run: self, entity, method }
    }
}

/// A claim whose subject is resolved.
pub struct ClaimSubject {
    pub run: ClaimRun,
    pub entity: String,
    pub method: ResolutionMethod,
}

/// [`ClaimSubject`] as a mathematical value.
#[verifier::ext_equal]
pub struct ClaimSubjectView {
    pub run: ClaimRunView,
    pub entity: Seq<char>,
    pub method: ResolutionMethodView,
}

impl DeepView for ClaimSubject {
    type V = ClaimSubjectView;

    open spec fn deep_view(&self) -> ClaimSubjectView {
        ClaimSubjectView {
            run: self.run.deep_view(),
            entity: self.entity@,
            method: self.method.deep_view(),
        }
    }
}

impl ClaimSubject {
    /// What is to be known of the object?
    pub fn ask_object(&self, db: &Tables) -> (r: OtherQuestion)
        ensures
            ({
                let run = self.deep_view().run;
                match run.claim.object {
                    ClaimObjectView::Entity { mention } => r matches OtherQuestion::Entity(q)
                        && q.deep_view() == resolve_question(
                        db.deep_view(),
                        run.space,
                        mention_ref(mention),
                        run.episode,
                        mention.span_start,
                    ),
                    ClaimObjectView::Literal { literal_type, value } => r matches
                        OtherQuestion::Literal { literal_type: t, value: v } && t@ == literal_type
                        && v@ == value,
                }
            }),
    {
        match &self.run.claim.object {
            ClaimObject::Entity { mention } => OtherQuestion::Entity(
                ask_resolution(
                    db,
                    self.run.space.as_str(),
                    &ref_of(mention),
                    self.run.episode.as_str(),
                    mention.span_start,
                ),
            ),
            ClaimObject::Literal { literal_type, value } => OtherQuestion::Literal {
                literal_type: literal_type.clone(),
                value: value.clone(),
            },
        }
    }

    /// Takes the answer about the object. A literal that cannot be read is an
    /// error.
    pub fn object_resolved(self, db: &mut Tables, answer: &OtherAnswer) -> (r: Result<
        ClaimBoth,
        BrainError,
    >)
        requires
            self.deep_view().run.claim.object is Entity <==> answer is Entity,
        ensures
            ({
                let run = self.deep_view().run;
                match (run.claim.object, *answer) {
                    (ClaimObjectView::Entity { mention }, OtherAnswer::Entity(res)) => {
                        &&& r is Ok
                        &&& r->Ok_0.deep_view() == (ClaimBothView {
                            subject: self.deep_view(),
                            object: OtherSideView::Entity {
                                id: res.deep_view().entity(),
                                method: res.deep_view().method(),
                                surface: mention.surface,
                                ty: mention.entity_type,
                            },
                        })
                        &&& final(db).deep_view() == with_resolution(
                            old(db).deep_view(),
                            run.space,
                            mention_ref(mention),
                            res.deep_view(),
                            run.now,
                        )
                    },
                    (
                        ClaimObjectView::Literal { literal_type, value },
                        OtherAnswer::Literal { number },
                    ) => {
                        &&& final(db).deep_view() == old(db).deep_view()
                        &&& match literal_of(
                            literal_type,
                            value,
                            number_view(number),
                            " literal: "@,
                            true,
                        ) {
                            Ok(v) => r is Ok && r->Ok_0.deep_view() == (ClaimBothView {
                                subject: self.deep_view(),
                                object: OtherSideView::Literal(v),
                            }),
                            Err(e) => fails_with(r, e),
                        }
                    },
                    _ => false,
                }
            }),
    {
        match (self.run.claim.object.dup(), answer) {
            (ClaimObject::Entity { mention }, OtherAnswer::Entity(res)) => {
                let (id, method) = resolve_or_create(
                    db,
                    self.run.space.as_str(),
                    &ref_of(&mention),
                    res,
                    self.run.now,
                );
                Ok(
                    ClaimBoth {
                        subject: self,
                        object: OtherSide::Entity {
                            id,
                            method,
                            surface: mention.surface,
                            ty: mention.entity_type,
                        },
                    },
                )
            },
            (ClaimObject::Literal { literal_type, value }, OtherAnswer::Literal { number }) => {
                match parse_claim_literal(literal_type.as_str(), value.as_str(), number) {
                    Ok(v) => Ok(ClaimBoth { subject: self, object: OtherSide::Literal(v) }),
                    Err(e) => Err(e),
                }
            },
            _ => {
                assert(false);
                Err(BrainError::Invalid(String::new()))
            },
        }
    }
}

/// A claim with both sides resolved, whose rows are to be named.
pub struct ClaimBoth {
    pub subject: ClaimSubject,
    pub object: OtherSide,
}

/// [`ClaimBoth`] as a mathematical value.
#[verifier::ext_equal]
pub struct ClaimBothView {
    pub subject: ClaimSubjectView,
    pub object: OtherSideView,
}

impl DeepView for ClaimBoth {
    type V = ClaimBothView;

    open spec fn deep_view(&self) -> ClaimBothView {
        ClaimBothView { subject: self.subject.deep_view(), object: self.object.deep_view() }
    }
}

/// The time that a claim gives, or the sentinel where it gives none.
pub open spec fn claimed(t: Option<i64>, open_end: i64) -> Timestamp {
    match t {
        Some(m) => Timestamp(m),
        None => Timestamp(open_end),
    }
}

/// What a claim writes.
pub open spec fn claimed_plan(both: ClaimBothView, names: NamesView) -> AssertionPlanView {
    let run = both.subject.run;
    let claim = run.claim;
    AssertionPlanView {
        statement: StatementView {
            id: names.statement,
            space: run.space,
            subject: both.subject.entity,
            predicate: claim.predicate,
            object: object_of(both.object, names),
        },
        assertion: AssertionView {
            id: names.assertion,
            statement: names.statement,
            episode: run.episode,
            extractor: Some(run.extractor),
            polarity: claim.polarity,
            claimed_from: claimed(claim.valid_from, TIME_MIN),
            claimed_to: claimed(claim.valid_to, TIME_MAX),
            confidence: claim.confidence,
            recorded_at: run.now,
            retracted_at: None,
            trust: run.trust,
        },
        subject_mention: MentionView {
            id: names.subject_mention,
            assertion: names.assertion,
            role: MentionRole::Subject,
            surface: claim.subject.surface,
            span_start: claim.subject.span_start,
            span_end: claim.subject.span_end,
            resolved_to: Some(both.subject.entity),
            method: both.subject.method,
        },
        object_mention: match (both.object, claim.object) {
            (
                OtherSideView::Entity { id, method, surface, ty: _ },
                ClaimObjectView::Entity { mention },
            ) => Some(
                MentionView {
                    id: names.object_mention,
                    assertion: names.assertion,
                    role: MentionRole::Object,
                    surface,
                    span_start: mention.span_start,
                    span_end: mention.span_end,
                    resolved_to: Some(id),
                    method,
                },
            ),
            _ => None,
        },
    }
}

impl ClaimBoth {
    /// Writes the rows of the claim under their names, and hands out the group
    /// that is to be folded again, where the predicate is registered.
    pub fn named(&self, db: &mut Tables, names: &Names) -> (r: Option<Refold>)
        ensures
            ({
                let both = self.deep_view();
                let after = with_assertion(
                    old(db).deep_view(),
                    claimed_plan(both, names.deep_view()),
                );
                &&& final(db).deep_view() == after
                &&& r.deep_view() == refold_of(
                    after,
                    both.subject.run.space,
                    both.subject.entity,
                    both.subject.run.claim.predicate,
                    both.subject.run.now,
                )
            }),
    {
        let run = &self.subject.run;
        let claim = &run.claim;
        let object = match &self.object {
            OtherSide::Entity { id, method: _, surface: _, ty: _ } => Object::Entity(id.clone()),
            OtherSide::Literal(_) => Object::Literal(names.literal_json.clone()),
        };
        let object_mention = match (&self.object, &claim.object) {
            (
                OtherSide::Entity { id, method, surface, ty: _ },
                ClaimObject::Entity { mention },
            ) => Some(
                Mention {
                    id: names.object_mention.clone(),
                    assertion: names.assertion.clone(),
                    role: MentionRole::Object,
                    surface: surface.clone(),
                    span_start: mention.span_start,
                    span_end: mention.span_end,
                    resolved_to: Some(id.clone()),
                    method: method.dup(),
                },
            ),
            _ => None,
        };
        let plan = AssertionPlan {
            statement: Statement {
                id: names.statement.clone(),
                space: run.space.clone(),
                subject: self.subject.entity.clone(),
                predicate: claim.predicate.clone(),
                object,
            },
            assertion: Assertion {
                id: names.assertion.clone(),
                statement: names.statement.clone(),
                episode: run.episode.clone(),
                extractor: Some(run.extractor.clone()),
                polarity: claim.polarity,
                claimed_from: match claim.valid_from {
                    Some(m) => Timestamp(m),
                    None => Timestamp(TIME_MIN),
                },
                claimed_to: match claim.valid_to {
                    Some(m) => Timestamp(m),
                    None => Timestamp(TIME_MAX),
                },
                confidence: claim.confidence,
                recorded_at: run.now,
                retracted_at: None,
                trust: run.trust,
            },
            subject_mention: Mention {
                id: names.subject_mention.clone(),
                assertion: names.assertion.clone(),
                role: MentionRole::Subject,
                surface: claim.subject.surface.clone(),
                span_start: claim.subject.span_start,
                span_end: claim.subject.span_end,
                resolved_to: Some(self.subject.entity.clone()),
                method: self.subject.method.dup(),
            },
            object_mention,
        };
        assert(plan.deep_view() =~= claimed_plan(self.deep_view(), names.deep_view()));
        write_assertion(db, &plan);
        ask_fold(
            db,
            run.space.as_str(),
            self.subject.entity.as_str(),
            claim.predicate.as_str(),
            run.now,
        )
    }
}

/// An episode as it is taken in, before it has its identity.
pub open spec fn primary_episode(
    space: Seq<char>,
    content: Seq<char>,
    source: SourceRefView,
    trust: TrustTier,
    now: Timestamp,
) -> EpisodeView {
    EpisodeView {
        id: Seq::empty(),
        space,
        seq: 0,
        content_hash: Seq::new(32, |i: int| 0u8),
        content,
        source,
        trust,
        kind: EpisodeKind::Primary,
        occurred_at: now,
        ingested_at: now,
        redacted_at: None,
    }
}

fn make_primary(
    space: &str,
    content: &str,
    source: SourceRef,
    trust: TrustTier,
    now: Timestamp,
) -> (r: Episode)
    ensures
        r.deep_view() == primary_episode(space@, content@, source.deep_view(), trust, now),
{
    let zero: [u8; 32] = [0u8; 32];
    assert(zero@ =~= Seq::new(32, |i: int| 0u8));
    Episode {
        id: String::new(),
        space: space.to_owned(),
        seq: 0,
        content_hash: zero,
        content: content.to_owned(),
        source,
        trust,
        kind: EpisodeKind::Primary,
        occurred_at: now,
        ingested_at: now,
        redacted_at: None,
    }
}

/// The id that an episode has once it was taken in.
pub open spec fn ingested_id(
    db: TablesView,
    e: EpisodeView,
    id: Seq<char>,
    hash: Seq<u8>,
) -> Seq<char> {
    episode_after(db, e, id, hash).id
}

/// The tables once an episode was taken in and indexed.
pub open spec fn with_ingested(
    db: TablesView,
    e: EpisodeView,
    id: Seq<char>,
    hash: Seq<u8>,
) -> TablesView {
    with_episode_index(
        with_episode(db, e, id, hash),
        e.space,
        ingested_id(db, e, id, hash),
        e.content,
    )
}

/// Ensure an episode exists, under its id and content hash, and index it for
/// lexical search. Returns its id: that of the row that already holds the content,
/// where there is one.
pub fn ingest_episode(
    db: &mut Tables,
    space: &str,
    content: &str,
    source: SourceRef,
    trust: TrustTier,
    now: Timestamp,
    id: String,
    hash: [u8; 32],
) -> (r: String)
    requires
        seqs_fit(old(db).deep_view().episodes),
    ensures
        r@ == ingested_id(
            old(db).deep_view(),
            primary_episode(space@, content@, source.deep_view(), trust, now),
            id@,
            hash@,
        ),
        final(db).deep_view() == with_ingested(
            old(db).deep_view(),
            primary_episode(space@, content@, source.deep_view(), trust, now),
            id@,
            hash@,
        ),
{
    let mut episode = make_primary(space, content, source, trust, now);
    insert_episode(db, &mut episode, id, hash);
    index_episode_fts(
        db,
        episode.space.as_str(),
        episode.id.as_str(),
        episode.content.as_str(),
    );
    episode.id
}

/// Event-identity variant of [`ingest_episode`]: an occurrence that is there
/// with other content is a conflict, and changes nothing.
pub fn ingest_event(
    db: &mut Tables,
    space: &str,
    content: &str,
    source: SourceRef,
    trust: TrustTier,
    attachment: Option<&IngestAttachment>,
    now: Timestamp,
    id: String,
    hash: [u8; 32],
) -> (r: Result<String, BrainError>)
    requires
        seqs_fit(old(db).deep_view().episodes),
    ensures
        ({
            let e = primary_episode(space@, content@, source.deep_view(), trust, now);
            match attachment {
                None => r is Ok && r->Ok_0@ == ingested_id(old(db).deep_view(), e, id@, hash@)
                    && final(db).deep_view() == with_ingested(
                    old(db).deep_view(),
                    e,
                    id@,
                    hash@,
                ),
                Some(att) => exists|mid: TablesView, e2: EpisodeView, s: Result<(), BrainError>|
                    {
                        &&& #[trigger] event_inserted(
                            old(db).deep_view(),
                            mid,
                            e,
                            e2,
                            att.deep_view(),
                            id@,
                            hash@,
                            s,
                        )
                        &&& match s {
                            Ok(_) => r is Ok && r->Ok_0@ == e2.id && final(db).deep_view()
                                == with_episode_index(mid, space@, e2.id, content@),
                            Err(err) => r == Err::<String, BrainError>(err)
                                && final(db).deep_view() == mid,
                        }
                    },
            }
        }),
{
    let mut episode = make_primary(space, content, source, trust, now);
    let ghost e = episode.deep_view();
    let ghost first = db.deep_view();
    let inserted = insert_event(db, &mut episode, attachment, id, hash);
    let ghost mid = db.deep_view();
    let ghost e2 = episode.deep_view();
    proof {
        if attachment is Some {
            assert(event_inserted(
                first,
                mid,
                e,
                e2,
                attachment->Some_0.deep_view(),
                id@,
                hash@,
                inserted,
            ));
        }
    }
    match inserted {
        Err(err) => Err(err),
        Ok(_) => {
            assert(episode.space@ == space@);
            assert(episode.content@ == content@);
            index_episode_fts(
                db,
                episode.space.as_str(),
                episode.id.as_str(),
                episode.content.as_str(),
            );
            Ok(episode.id)
        },
    }
}

} // verus!
