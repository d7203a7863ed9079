//! What following the steps of a replay does, and why projecting a response twice
//! is projecting it once.
//!
//! What is computed outside — resolutions, numbers, names, folds, hashes, ids,
//! and what a declaration's text is read as — is taken as a set of functions:
//! the same question always gets the same answer.
use vstd::prelude::*;

use crate::extraction::{
    claimed_plan, inherited_trust, mention_ref, ClaimBothView, ClaimObjectView, ClaimRunView,
    ClaimSubjectView, ClaimView,
};
use crate::knowledge::{assertion_has_id, mention_has_id, statement_has_id};
use crate::ledger::{content_of, episode_after, episode_has_id, with_episode};
use crate::project::{
    after_naming, declaration_episode, declaration_error, literal_of, refold_of, resolve_question,
    with_assertion, with_resolution, AssertionPlanView, BothResolvedView, DeclObjectView,
    DeclarationRunView, DeclarationView, EntityRefView, FirstResolvedView, NamesView, OtherSideView,
    ResolutionView, ResolveQuestionView,
};
use crate::redaction::{
    after_replay, refolded, refolds_after_replay, refolds_for, RedactTargetView, RefoldView,
};
use crate::reproject::ReplayStepView;
use crate::rows::{first_where, or_ignore, some_where};
use crate::tables::{
    BeliefView, EpisodeRowView, ExtractionRowView, TablesView, TrustTier,
};
use crate::time::{TIME_MAX, TIME_MIN, Timestamp};

verus! {

/// The answers that come from outside.
pub struct Outside {
    /// Which entity a surface form names.
    pub resolve: spec_fn(ResolveQuestionView) -> ResolutionView,
    /// What reading a text as a number gives.
    pub number: spec_fn(Seq<char>) -> Result<u64, Seq<char>>,
    /// The ids of what a declaration writes.
    pub name: spec_fn(BothResolvedView) -> NamesView,
    /// The ids of what a claim writes.
    pub name_claim: spec_fn(ClaimBothView) -> NamesView,
    /// The beliefs of a group, as of its time.
    pub fold: spec_fn(RefoldView) -> Seq<BeliefView>,
    /// The hash of a text.
    pub hash: spec_fn(Seq<char>) -> Seq<u8>,
    /// The id of the episode of a declaration.
    pub episode: spec_fn(Seq<char>, Seq<char>, Timestamp) -> Seq<char>,
    /// What the text of a declaration is read as.
    pub read: spec_fn(Seq<char>) -> DeclarationView,
    /// The valid claims of a response about a text; none where it cannot be read.
    pub claims: spec_fn(Seq<char>, Seq<char>) -> Option<Seq<ClaimView>>,
    /// What the text of a redaction's target is read as.
    pub target: spec_fn(Seq<char>) -> Option<RedactTargetView>,
}

/// A declaration: the space it was made in, what it says, its text, and when it
/// was made.
pub struct Entry {
    pub space: Seq<char>,
    pub decl: DeclarationView,
    pub content: Seq<char>,
    pub at: Timestamp,
}

/// The tables of one projection over the other tables of another store.
pub open spec fn over(ledger: TablesView, projection: TablesView) -> TablesView {
    TablesView {
        entities: projection.entities,
        keys: projection.keys,
        merges: projection.merges,
        statements: projection.statements,
        assertions: projection.assertions,
        mentions: projection.mentions,
        beliefs: projection.beliefs,
        predicates: projection.predicates,
        ..ledger
    }
}

/// The tables with both sides of a declaration resolved, and the resolved sides.
pub open spec fn resolved_sides(db: TablesView, run: DeclarationRunView, o: Outside) -> Option<
    (TablesView, BothResolvedView),
> {
    let subject = run.decl.first_entity();
    let res = (o.resolve)(resolve_question(db, run.space, subject, run.episode, 0));
    let first = FirstResolvedView { run, entity: res.entity(), method: res.method() };
    let db1 = with_resolution(db, run.space, subject, res, run.now);
    match run.decl.other_side() {
        DeclObjectView::Entity { surface, ty } => {
            let eref = EntityRefView { surface, ty };
            let other = (o.resolve)(
                resolve_question(db1, run.space, eref, run.episode, run.decl.other_span()),
            );
            Some(
                (
                    with_resolution(db1, run.space, eref, other, run.now),
                    BothResolvedView {
                        first,
                        other: OtherSideView::Entity {
                            id: other.entity(),
                            method: other.method(),
                            surface,
                            ty,
                        },
                    },
                ),
            )
        },
        DeclObjectView::Literal { literal_type, value } => match literal_of(
            literal_type,
            value,
            (o.number)(value),
            ": "@,
            false,
        ) {
            Ok(v) => Some((db1, BothResolvedView { first, other: OtherSideView::Literal(v) })),
            Err(_) => None,
        },
    }
}

/// The predicate whose group is folded again, and whether it must be registered.
pub open spec fn folded_predicate(decl: DeclarationView) -> Option<(Seq<char>, bool)> {
    match decl {
        DeclarationView::AddStatement { predicate, .. } => Some((predicate, true)),
        DeclarationView::Merge { .. } => None,
        DeclarationView::Retract { predicate, .. } => Some((predicate, false)),
    }
}

/// What reading the literal object of a declaration as a number gives.
pub open spec fn number_of(decl: DeclarationView, o: Outside) -> Result<u64, Seq<char>> {
    match decl.other_side() {
        DeclObjectView::Entity { surface, ty: _ } => (o.number)(surface),
        DeclObjectView::Literal { literal_type: _, value } => (o.number)(value),
    }
}

/// The tables with groups folded again.
pub open spec fn after_folds(db: TablesView, refolds: Seq<RefoldView>, o: Outside) -> TablesView {
    TablesView {
        beliefs: refolded(db.beliefs, refolds, refolds.map_values(o.fold)),
        ..db
    }
}

/// The tables after a declaration was projected, its episode apart; `None` where
/// it is refused.
pub open spec fn projected(db: TablesView, run: DeclarationRunView, o: Outside) -> Option<
    TablesView,
> {
    if declaration_error(db, run.decl, number_of(run.decl, o)) is Some {
        None
    } else {
        match resolved_sides(db, run, o) {
            None => None,
            Some((db2, both)) => {
                let after = after_naming(db2, both, (o.name)(both));
                match folded_predicate(run.decl) {
                    None => Some(after),
                    Some((predicate, needed)) => match refold_of(
                        after,
                        run.space,
                        both.first.entity,
                        predicate,
                        run.now,
                    ) {
                        None => if needed {
                            None
                        } else {
                            Some(after)
                        },
                        Some(refold) => Some(after_folds(after, seq![refold], o)),
                    },
                }
            },
        }
    }
}

/// The run of a declaration: under the id of the episode that holds its text,
/// where there is one already.
pub open spec fn run_of(db: TablesView, e: Entry, o: Outside) -> DeclarationRunView {
    DeclarationRunView {
        space: e.space,
        episode: episode_after(
            db,
            declaration_episode(e.space, e.content, e.at),
            (o.episode)(e.space, e.content, e.at),
            (o.hash)(e.content),
        ).id,
        now: e.at,
        decl: e.decl,
    }
}

/// The tables with the episode of a declaration.
pub open spec fn with_entry(db: TablesView, e: Entry, o: Outside) -> TablesView {
    with_episode(
        db,
        declaration_episode(e.space, e.content, e.at),
        (o.episode)(e.space, e.content, e.at),
        (o.hash)(e.content),
    )
}

/// The tables after a declaration: its episode is written, and it is projected;
/// `None` where it is refused.
pub open spec fn declared(db: TablesView, e: Entry, o: Outside) -> Option<TablesView> {
    projected(with_entry(db, e, o), run_of(db, e, o), o)
}

/// The tables with both sides of a claim resolved, and the resolved sides; `None`
/// where a literal cannot be read.
pub open spec fn claim_sides(db: TablesView, run: ClaimRunView, o: Outside) -> Option<
    (TablesView, ClaimBothView),
> {
    let subject = mention_ref(run.claim.subject);
    let res = (o.resolve)(
        resolve_question(db, run.space, subject, run.episode, run.claim.subject.span_start),
    );
    let first = ClaimSubjectView { run, entity: res.entity(), method: res.method() };
    let db1 = with_resolution(db, run.space, subject, res, run.now);
    match run.claim.object {
        ClaimObjectView::Entity { mention } => {
            let eref = mention_ref(mention);
            let other = (o.resolve)(
                resolve_question(db1, run.space, eref, run.episode, mention.span_start),
            );
            Some(
                (
                    with_resolution(db1, run.space, eref, other, run.now),
                    ClaimBothView {
                        subject: first,
                        object: OtherSideView::Entity {
                            id: other.entity(),
                            method: other.method(),
                            surface: mention.surface,
                            ty: mention.entity_type,
                        },
                    },
                ),
            )
        },
        ClaimObjectView::Literal { literal_type, value } => match literal_of(
            literal_type,
            value,
            (o.number)(value),
            " literal: "@,
            true,
        ) {
            Ok(v) => Some(
                (db1, ClaimBothView { subject: first, object: OtherSideView::Literal(v) }),
            ),
            Err(_) => None,
        },
    }
}

/// The tables after one claim was projected; `None` where it is refused.
pub open spec fn claimed_one(db: TablesView, run: ClaimRunView, o: Outside) -> Option<TablesView> {
    match claim_sides(db, run, o) {
        None => None,
        Some((db2, both)) => {
            let after = with_assertion(db2, claimed_plan(both, (o.name_claim)(both)));
            match refold_of(
                after,
                run.space,
                both.subject.entity,
                run.claim.predicate,
                run.now,
            ) {
                None => Some(after),
                Some(refold) => Some(after_folds(after, seq![refold], o)),
            }
        },
    }
}

/// The tables after claims of a response were projected, one after the other.
pub open spec fn claimed_all(
    db: TablesView,
    x: Extracted,
    claims: Seq<ClaimView>,
    o: Outside,
) -> Option<TablesView>
    decreases claims.len(),
{
    if claims.len() == 0 {
        Some(db)
    } else {
        match claimed_all(db, x, claims.drop_last(), o) {
            None => None,
            Some(before) => claimed_one(before, claim_run(x, claims.last()), o),
        }
    }
}

/// A response to project: the space and the id of its episode, the extractor,
/// the response, what the episode says, the time to project it as of, and the
/// trust that its assertions inherit.
pub struct Extracted {
    pub space: Seq<char>,
    pub episode: Seq<char>,
    pub extractor: Seq<char>,
    pub raw: Seq<char>,
    pub content: Seq<char>,
    pub at: Timestamp,
    pub trust: TrustTier,
}

/// The tables after a response was projected; `None` where it cannot be read or a
/// claim is refused.
pub open spec fn extracted(db: TablesView, x: Extracted, o: Outside) -> Option<TablesView> {
    match (o.claims)(x.raw, x.content) {
        None => None,
        Some(claims) => claimed_all(db, x, claims, o),
    }
}

/// The tables after a redaction was replayed; `None` where it fails.
pub open spec fn unredacted(
    db: TablesView,
    target: RedactTargetView,
    at: Timestamp,
    o: Outside,
) -> Option<TablesView> {
    match refolds_after_replay(db, target, at) {
        Err(_) => None,
        Ok(refolds) => Some(after_folds(after_replay(db, target), refolds, o)),
    }
}

/// The tables after one step of a replay; `None` where it fails. The rebuild of
/// a space leaves the ledger and what is known as they are, and what it does to
/// the indexes is not followed. A redaction whose target cannot be read is passed
/// over.
pub open spec fn followed(db: TablesView, step: ReplayStepView, o: Outside) -> Option<TablesView> {
    match step {
        ReplayStepView::Declaration { space, content, at } => declared(
            db,
            Entry { space, decl: (o.read)(content), content, at },
            o,
        ),
        ReplayStepView::Extraction { space, episode, extractor, raw, content, at, cached: _ } =>
            match first_where(db.episodes, episode_has_id(episode)) {
                None => None,
                Some(e) => extracted(
                    db,
                    Extracted {
                        space,
                        episode,
                        extractor,
                        raw,
                        content,
                        at,
                        trust: inherited_trust(e),
                    },
                    o,
                ),
            },
        ReplayStepView::Redaction { target_json, at } => match (o.target)(target_json) {
            Some(target) => unredacted(db, target, at, o),
            None => Some(db),
        },
        ReplayStepView::Rebuild { space: _ } => Some(db),
    }
}

/// The tables after steps of a replay, one after the other.
pub open spec fn replayed(db: TablesView, steps: Seq<ReplayStepView>, o: Outside) -> Option<
    TablesView,
>
    decreases steps.len(),
{
    if steps.len() == 0 {
        Some(db)
    } else {
        match replayed(db, steps.drop_last(), o) {
            None => None,
            Some(before) => followed(before, steps.last(), o),
        }
    }
}

/// The target of the redaction of an entity.
pub open spec fn scoped(
    space: Seq<char>,
    entity: Seq<char>,
    predicate: Option<Seq<char>>,
) -> RedactTargetView {
    match predicate {
        None => RedactTargetView::Entity { space, entity_id: entity },
        Some(p) => RedactTargetView::PredicateScoped { space, entity_id: entity, predicate: p },
    }
}

/// The response to project, of a row of the cache and the row of its episode.
pub open spec fn response_of(db: TablesView, e: EpisodeRowView, row: ExtractionRowView) -> Extracted {
    Extracted {
        space: e.space,
        episode: row.episode_id,
        extractor: row.extractor_id,
        raw: row.raw_response,
        content: content_of(e),
        at: e.ingested_at,
        trust: inherited_trust(
            first_where(db.episodes, episode_has_id(row.episode_id))->Some_0,
        ),
    }
}

/// The step that replays a declaration.
pub open spec fn entry_step(e: Entry) -> ReplayStepView {
    ReplayStepView::Declaration { space: e.space, content: e.content, at: e.at }
}

/// Projecting reads and writes the projection alone.
pub proof fn lemma_projects_over(ledger: TablesView, p: TablesView, run: DeclarationRunView, o: Outside)
    ensures
        projected(over(ledger, p), run, o) == match projected(p, run, o) {
            Some(q) => Some(over(ledger, q)),
            None => None,
        },
{
    let a = over(ledger, p);
    lemma_sides_over(ledger, p, run, o);
    if declaration_error(p, run.decl, number_of(run.decl, o)) is None {
        match resolved_sides(p, run, o) {
            None => {},
            Some((p2, both)) => {
                let names = (o.name)(both);
                lemma_naming_over(ledger, p2, both, names);
                let after = after_naming(p2, both, names);
                match folded_predicate(run.decl) {
                    None => {},
                    Some((predicate, needed)) => {
                        assert(refold_of(
                            over(ledger, after),
                            run.space,
                            both.first.entity,
                            predicate,
                            run.now,
                        ) == refold_of(after, run.space, both.first.entity, predicate, run.now));
                        match refold_of(after, run.space, both.first.entity, predicate, run.now) {
                            None => {},
                            Some(refold) => {
                                lemma_folds_over(ledger, after, seq![refold], o);
                            },
                        }
                    },
                }
            },
        }
    }
}

proof fn lemma_sides_over(ledger: TablesView, p: TablesView, run: DeclarationRunView, o: Outside)
    ensures
        resolved_sides(over(ledger, p), run, o) == match resolved_sides(p, run, o) {
            Some((q, both)) => Some((over(ledger, q), both)),
            None => None,
        },
{
    let a = over(ledger, p);
    let subject = run.decl.first_entity();
    let res = (o.resolve)(resolve_question(p, run.space, subject, run.episode, 0));
    assert(resolve_question(a, run.space, subject, run.episode, 0) == resolve_question(
        p,
        run.space,
        subject,
        run.episode,
        0,
    ));
    let p1 = with_resolution(p, run.space, subject, res, run.now);
    assert(with_resolution(a, run.space, subject, res, run.now) == over(ledger, p1));
    match run.decl.other_side() {
        DeclObjectView::Entity { surface, ty } => {
            let eref = EntityRefView { surface, ty };
            let span = run.decl.other_span();
            assert(resolve_question(over(ledger, p1), run.space, eref, run.episode, span)
                == resolve_question(p1, run.space, eref, run.episode, span));
            let other = (o.resolve)(resolve_question(p1, run.space, eref, run.episode, span));
            assert(with_resolution(over(ledger, p1), run.space, eref, other, run.now) == over(
                ledger,
                with_resolution(p1, run.space, eref, other, run.now),
            ));
        },
        DeclObjectView::Literal { literal_type, value } => {},
    }
}

proof fn lemma_naming_over(
    ledger: TablesView,
    p: TablesView,
    both: BothResolvedView,
    names: NamesView,
)
    ensures
        after_naming(over(ledger, p), both, names) == over(ledger, after_naming(p, both, names)),
{
    assert(after_naming(over(ledger, p), both, names) =~= over(
        ledger,
        after_naming(p, both, names),
    ));
}

/// Projecting leaves the ledger as it was.
pub proof fn lemma_projection_keeps_ledger(db: TablesView, run: DeclarationRunView, o: Outside)
    ensures
        projected(db, run, o) matches Some(q) ==> over(db, q) == q,
{
    lemma_projects_over(db, db, run, o);
    assert(over(db, db) =~= db);
}

/// Folding reads and writes beliefs alone.
pub proof fn lemma_folds_over(
    ledger: TablesView,
    p: TablesView,
    refolds: Seq<RefoldView>,
    o: Outside,
)
    ensures
        after_folds(over(ledger, p), refolds, o) == over(ledger, after_folds(p, refolds, o)),
{
    assert(after_folds(over(ledger, p), refolds, o) =~= over(
        ledger,
        after_folds(p, refolds, o),
    ));
}

/// Projecting a claim reads and writes the projection alone.
proof fn lemma_claim_over(ledger: TablesView, p: TablesView, run: ClaimRunView, o: Outside)
    ensures
        claimed_one(over(ledger, p), run, o) == match claimed_one(p, run, o) {
            Some(q) => Some(over(ledger, q)),
            None => None,
        },
{
    let a = over(ledger, p);
    let subject = mention_ref(run.claim.subject);
    let span = run.claim.subject.span_start;
    assert(resolve_question(a, run.space, subject, run.episode, span) == resolve_question(
        p,
        run.space,
        subject,
        run.episode,
        span,
    ));
    let res = (o.resolve)(resolve_question(p, run.space, subject, run.episode, span));
    let p1 = with_resolution(p, run.space, subject, res, run.now);
    assert(with_resolution(a, run.space, subject, res, run.now) == over(ledger, p1));
    match run.claim.object {
        ClaimObjectView::Entity { mention } => {
            let eref = mention_ref(mention);
            assert(resolve_question(
                over(ledger, p1),
                run.space,
                eref,
                run.episode,
                mention.span_start,
            ) == resolve_question(p1, run.space, eref, run.episode, mention.span_start));
            let other = (o.resolve)(
                resolve_question(p1, run.space, eref, run.episode, mention.span_start),
            );
            assert(with_resolution(over(ledger, p1), run.space, eref, other, run.now) == over(
                ledger,
                with_resolution(p1, run.space, eref, other, run.now),
            ));
        },
        ClaimObjectView::Literal { literal_type, value } => {},
    }
    match claim_sides(p, run, o) {
        None => {},
        Some((p2, both)) => {
            let plan = claimed_plan(both, (o.name_claim)(both));
            let after = with_assertion(p2, plan);
            assert(with_assertion(over(ledger, p2), plan) =~= over(ledger, after));
            let predicate = run.claim.predicate;
            let subject = both.subject.entity;
            assert(refold_of(over(ledger, after), run.space, subject, predicate, run.now)
                == refold_of(after, run.space, subject, predicate, run.now));
            match refold_of(after, run.space, subject, predicate, run.now) {
                None => {},
                Some(refold) => {
                    lemma_folds_over(ledger, after, seq![refold], o);
                },
            }
        },
    }
}

/// Projecting claims reads and writes the projection alone.
proof fn lemma_claims_over(
    ledger: TablesView,
    p: TablesView,
    x: Extracted,
    claims: Seq<ClaimView>,
    o: Outside,
)
    ensures
        claimed_all(over(ledger, p), x, claims, o) == match claimed_all(p, x, claims, o) {
            Some(q) => Some(over(ledger, q)),
            None => None,
        },
    decreases claims.len(),
{
    if claims.len() > 0 {
        lemma_claims_over(ledger, p, x, claims.drop_last(), o);
        match claimed_all(p, x, claims.drop_last(), o) {
            None => {},
            Some(before) => {
                lemma_claim_over(ledger, before, claim_run(x, claims.last()), o);
            },
        }
    }
}

/// Projecting a response reads and writes the projection alone.
pub proof fn lemma_extracts_over(ledger: TablesView, p: TablesView, x: Extracted, o: Outside)
    ensures
        extracted(over(ledger, p), x, o) == match extracted(p, x, o) {
            Some(q) => Some(over(ledger, q)),
            None => None,
        },
{
    match (o.claims)(x.raw, x.content) {
        None => {},
        Some(claims) => {
            lemma_claims_over(ledger, p, x, claims, o);
        },
    }
}

/// Projecting a claim registers no predicate.
pub proof fn lemma_claims_keep_predicates(
    db: TablesView,
    x: Extracted,
    claims: Seq<ClaimView>,
    o: Outside,
)
    ensures
        claimed_all(db, x, claims, o) matches Some(q) ==> q.predicates == db.predicates,
    decreases claims.len(),
{
    if claims.len() > 0 {
        lemma_claims_keep_predicates(db, x, claims.drop_last(), o);
    }
}

/// The groups to fold again are read from the projection alone.
pub proof fn lemma_refolds_over(
    ledger: TablesView,
    p: TablesView,
    space: Seq<char>,
    pairs: Seq<(Seq<char>, Seq<char>)>,
    at: Timestamp,
)
    ensures
        refolds_for(over(ledger, p), space, pairs, at) == refolds_for(p, space, pairs, at),
    decreases pairs.len(),
{
    if pairs.len() > 0 {
        lemma_refolds_over(ledger, p, space, pairs.drop_last(), at);
        let (subject, predicate) = pairs.last();
        assert(crate::knowledge::statement_group(over(ledger, p), space, subject, predicate)
            == crate::knowledge::statement_group(p, space, subject, predicate));
    }
}

/// Projecting registers no predicate.
pub proof fn lemma_predicates_stay(db: TablesView, run: DeclarationRunView, o: Outside)
    ensures
        projected(db, run, o) matches Some(q) ==> q.predicates == db.predicates,
{
}

/// What is found first stays found first when more rows come.
pub proof fn lemma_first_stays<V>(s: Seq<V>, t: Seq<V>, p: spec_fn(V) -> bool)
    requires
        s.is_prefix_of(t),
        some_where(s, p) || first_where(s, p) is Some,
    ensures
        first_where(s, p) is Some,
        first_where(t, p) == first_where(s, p),
        some_where(t, p),
        p(first_where(s, p)->Some_0),
{
    if some_where(s, p) {
        let i = choose|i: int| 0 <= i < s.len() && p(s[i]);
        s.lemma_filter_contains(p, i);
        assert(s.filter(p).contains(s[i]));
    }
    let rest = t.skip(s.len() as int);
    assert(t =~= s + rest);
    Seq::filter_distributes_over_add(s, rest, p);
    assert(t.filter(p)[0] == s.filter(p)[0]);
    lemma_found(s, p);
    let k = choose|k: int| 0 <= k < s.len() && s[k] == first_where(s, p)->Some_0;
    assert(p(t[k]));
}

/// What is found first is there and meets the condition.
pub proof fn lemma_found<V>(s: Seq<V>, p: spec_fn(V) -> bool)
    requires
        first_where(s, p) is Some,
    ensures
        exists|i: int| 0 <= i < s.len() && s[i] == first_where(s, p)->Some_0,
        p(first_where(s, p)->Some_0),
{
    s.lemma_filter_pred(p, 0);
    assert(s.filter(p).contains(s.filter(p)[0]));
    s.lemma_filter_contains_rev(p, s.filter(p)[0]);
}

/// A claim of a response, as it is projected.
pub open spec fn claim_run(x: Extracted, claim: ClaimView) -> ClaimRunView {
    ClaimRunView {
        space: x.space,
        episode: x.episode,
        extractor: x.extractor,
        claim,
        now: x.at,
        trust: x.trust,
    }
}

/// What a claim writes, as its mentions resolve in the tables.
pub open spec fn plan_of(db: TablesView, run: ClaimRunView, o: Outside) -> AssertionPlanView {
    let both = claim_sides(db, run, o)->Some_0.1;
    claimed_plan(both, (o.name_claim)(both))
}

/// What the claims of a response write, one after the other.
pub open spec fn plans_of(
    db: TablesView,
    x: Extracted,
    claims: Seq<ClaimView>,
    o: Outside,
) -> Seq<AssertionPlanView>
    decreases claims.len(),
{
    if claims.len() == 0 {
        Seq::empty()
    } else {
        let before = claimed_all(db, x, claims.drop_last(), o)->Some_0;
        plans_of(db, x, claims.drop_last(), o).push(
            plan_of(before, claim_run(x, claims.last()), o),
        )
    }
}

/// Whether the rows of a plan are there.
pub open spec fn holds_plan(db: TablesView, plan: AssertionPlanView) -> bool {
    &&& some_where(db.statements, statement_has_id(plan.statement.id))
    &&& some_where(db.assertions, assertion_has_id(plan.assertion.id))
    &&& some_where(db.mentions, mention_has_id(plan.subject_mention.id))
    &&& plan.object_mention matches Some(m) ==> some_where(db.mentions, mention_has_id(m.id))
}

/// A row that was put in, or was there, stays when another is put in.
pub proof fn lemma_still_there<V>(s: Seq<V>, p: spec_fn(V) -> bool, q: spec_fn(V) -> bool, x: V)
    requires
        some_where(s, p) || (p == q && q(x)),
    ensures
        some_where(or_ignore(s, q, x), p),
{
    if some_where(s, p) {
        let i = choose|i: int| 0 <= i < s.len() && p(s[i]);
        assert(or_ignore(s, q, x)[i] == s[i]);
    } else {
        assert(or_ignore(s, q, x)[s.len() as int] == x);
    }
}

/// A claim writes the rows of its plan, and keeps those of every other.
proof fn lemma_claim_writes(db: TablesView, run: ClaimRunView, o: Outside, other: AssertionPlanView)
    requires
        claimed_one(db, run, o) is Some,
    ensures
        ({
            let after = claimed_one(db, run, o)->Some_0;
            let plan = plan_of(db, run, o);
            &&& holds_plan(after, plan)
            &&& holds_plan(db, other) ==> holds_plan(after, other)
            &&& holds_plan(db, plan) ==> after.statements == db.statements && after.assertions
                == db.assertions && after.mentions == db.mentions
        }),
{
    let (db2, both) = claim_sides(db, run, o)->Some_0;
    let plan = plan_of(db, run, o);
    assert(db2.statements == db.statements && db2.assertions == db.assertions && db2.mentions
        == db.mentions);
    let st = statement_has_id(plan.statement.id);
    let at = assertion_has_id(plan.assertion.id);
    let sm = mention_has_id(plan.subject_mention.id);
    lemma_still_there(db.statements, st, st, plan.statement);
    lemma_still_there(db.assertions, at, at, plan.assertion);
    lemma_still_there(db.mentions, sm, sm, plan.subject_mention);
    let mentions = or_ignore(db.mentions, sm, plan.subject_mention);
    if plan.object_mention is Some {
        let m = plan.object_mention->Some_0;
        let om = mention_has_id(m.id);
        lemma_still_there(mentions, om, om, m);
        lemma_still_there(mentions, sm, om, m);
    }
    if holds_plan(db, other) {
        lemma_still_there(
            db.statements,
            statement_has_id(other.statement.id),
            st,
            plan.statement,
        );
        lemma_still_there(
            db.assertions,
            assertion_has_id(other.assertion.id),
            at,
            plan.assertion,
        );
        let q = mention_has_id(other.subject_mention.id);
        lemma_still_there(db.mentions, q, sm, plan.subject_mention);
        if plan.object_mention is Some {
            let m = plan.object_mention->Some_0;
            lemma_still_there(mentions, q, mention_has_id(m.id), m);
        }
        if other.object_mention is Some {
            let r = mention_has_id(other.object_mention->Some_0.id);
            lemma_still_there(db.mentions, r, sm, plan.subject_mention);
            if plan.object_mention is Some {
                let m = plan.object_mention->Some_0;
                lemma_still_there(mentions, r, mention_has_id(m.id), m);
            }
        }
    }
}

/// Whether the literal of a claim can be read, no matter what the tables hold.
proof fn lemma_claims_succeed(
    db: TablesView,
    other: TablesView,
    x: Extracted,
    claims: Seq<ClaimView>,
    o: Outside,
)
    requires
        claimed_all(db, x, claims, o) is Some,
    ensures
        claimed_all(other, x, claims, o) is Some,
    decreases claims.len(),
{
    if claims.len() > 0 {
        lemma_claims_succeed(db, other, x, claims.drop_last(), o);
        let before = claimed_all(db, x, claims.drop_last(), o)->Some_0;
        assert(claimed_one(before, claim_run(x, claims.last()), o) is Some);
    }
}

/// Once a response was projected, the rows of every one of its claims are there,
/// and each assertion says what its claim says: with its polarity and confidence,
/// over the time it gives or all time, as of the run, with the trust of the
/// episode.
pub proof fn law_every_claim_is_asserted(
    db: TablesView,
    x: Extracted,
    claims: Seq<ClaimView>,
    o: Outside,
)
    requires
        claimed_all(db, x, claims, o) is Some,
    ensures
        ({
            let after = claimed_all(db, x, claims, o)->Some_0;
            let plans = plans_of(db, x, claims, o);
            &&& plans.len() == claims.len()
            &&& forall|i: int| 0 <= i < plans.len() ==> holds_plan(after, #[trigger] plans[i])
            &&& forall|i: int|
                0 <= i < plans.len() ==> {
                    let a = (#[trigger] plans[i]).assertion;
                    &&& a.polarity == claims[i].polarity
                    &&& a.confidence == claims[i].confidence
                    &&& claims[i].valid_from matches Some(f) ==> a.claimed_from.0 == f
                    &&& claims[i].valid_from is None ==> a.claimed_from.0 == TIME_MIN
                    &&& claims[i].valid_to matches Some(t) ==> a.claimed_to.0 == t
                    &&& claims[i].valid_to is None ==> a.claimed_to.0 == TIME_MAX
                    &&& a.episode == x.episode
                    &&& a.extractor == Some(x.extractor)
                    &&& a.recorded_at == x.at
                    &&& a.retracted_at is None
                    &&& a.trust == x.trust
                }
        }),
    decreases claims.len(),
{
    if claims.len() > 0 {
        let init = claims.drop_last();
        law_every_claim_is_asserted(db, x, init, o);
        let before = claimed_all(db, x, init, o)->Some_0;
        let run = claim_run(x, claims.last());
        let after = claimed_all(db, x, claims, o)->Some_0;
        let earlier = plans_of(db, x, init, o);
        let plans = plans_of(db, x, claims, o);
        assert(after == claimed_one(before, run, o)->Some_0);
        lemma_claim_writes(before, run, o, plan_of(before, run, o));
        assert forall|i: int| 0 <= i < plans.len() implies holds_plan(after, #[trigger] plans[i]) by {
            if i < earlier.len() {
                assert(plans[i] == earlier[i]);
                lemma_claim_writes(before, run, o, earlier[i]);
            }
        }
        assert forall|i: int| 0 <= i < plans.len() implies ({
            let a = (#[trigger] plans[i]).assertion;
            &&& a.polarity == claims[i].polarity
            &&& a.confidence == claims[i].confidence
            &&& claims[i].valid_from matches Some(f) ==> a.claimed_from.0 == f
            &&& claims[i].valid_from is None ==> a.claimed_from.0 == TIME_MIN
            &&& claims[i].valid_to matches Some(t) ==> a.claimed_to.0 == t
            &&& claims[i].valid_to is None ==> a.claimed_to.0 == TIME_MAX
            &&& a.episode == x.episode
            &&& a.extractor == Some(x.extractor)
            &&& a.recorded_at == x.at
            &&& a.retracted_at is None
            &&& a.trust == x.trust
        }) by {
            if i < earlier.len() {
                assert(plans[i] == earlier[i]);
                assert(init[i] == claims[i]);
            } else {
                assert(plans[i] == plan_of(before, run, o));
            }
        }
    }
}

/// Claims whose rows are all there add none.
proof fn lemma_claims_add_nothing(
    db: TablesView,
    x: Extracted,
    claims: Seq<ClaimView>,
    o: Outside,
)
    requires
        claimed_all(db, x, claims, o) is Some,
        forall|i: int|
            0 <= i < claims.len() ==> holds_plan(db, #[trigger] plans_of(db, x, claims, o)[i]),
    ensures
        ({
            let after = claimed_all(db, x, claims, o)->Some_0;
            &&& after.statements == db.statements
            &&& after.assertions == db.assertions
            &&& after.mentions == db.mentions
        }),
    decreases claims.len(),
{
    if claims.len() > 0 {
        let init = claims.drop_last();
        let earlier = plans_of(db, x, init, o);
        let plans = plans_of(db, x, claims, o);
        law_every_claim_is_asserted(db, x, init, o);
        assert forall|i: int| 0 <= i < init.len() implies holds_plan(
            db,
            #[trigger] plans_of(db, x, init, o)[i],
        ) by {
            assert(plans[i] == earlier[i]);
        }
        lemma_claims_add_nothing(db, x, init, o);
        let before = claimed_all(db, x, init, o)->Some_0;
        let run = claim_run(x, claims.last());
        assert(plans[claims.len() - 1] == plan_of(before, run, o));
        assert(holds_plan(db, plans[claims.len() - 1]));
        assert(holds_plan(before, plan_of(before, run, o)));
        lemma_claim_writes(before, run, o, plan_of(before, run, o));
    }
}

/// Whether two plans write rows under the same ids.
pub open spec fn same_ids(a: AssertionPlanView, b: AssertionPlanView) -> bool {
    &&& a.statement.id == b.statement.id
    &&& a.assertion.id == b.assertion.id
    &&& a.subject_mention.id == b.subject_mention.id
    &&& match (a.object_mention, b.object_mention) {
        (Some(m), Some(n)) => m.id == n.id,
        (None, None) => true,
        _ => false,
    }
}

/// Projecting a response again adds no statement, assertion or mention, and
/// succeeds where it succeeded, wherever its claims get the same ids again. Ids
/// are derived from what they name, so they do: a mention that made a new entity
/// the first time is linked to it the second time, and names the same rows.
pub proof fn law_extraction_is_idempotent(
    db: TablesView,
    x: Extracted,
    claims: Seq<ClaimView>,
    o: Outside,
    after: TablesView,
)
    requires
        claimed_all(db, x, claims, o) == Some(after),
        forall|i: int|
            0 <= i < claims.len() ==> same_ids(
                #[trigger] plans_of(after, x, claims, o)[i],
                plans_of(db, x, claims, o)[i],
            ),
    ensures
        ({
            &&& claimed_all(after, x, claims, o) matches Some(again)
            &&& again.statements == after.statements
            &&& again.assertions == after.assertions
            &&& again.mentions == after.mentions
        }),
{
    law_every_claim_is_asserted(db, x, claims, o);
    lemma_claims_succeed(db, after, x, claims, o);
    let plans = plans_of(db, x, claims, o);
    assert forall|i: int| 0 <= i < claims.len() implies holds_plan(
        after,
        #[trigger] plans_of(after, x, claims, o)[i],
    ) by {
        assert(holds_plan(after, plans[i]));
        assert(same_ids(plans_of(after, x, claims, o)[i], plans[i]));
    }
    lemma_claims_add_nothing(after, x, claims, o);
}

} // verus!
