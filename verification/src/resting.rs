//! When nothing rests on what an episode projected.
//!
//! An episode that names what is known already, and asserts statements that are
//! alone in their groups, leaves rows that no other step of a replay reads.
use vstd::prelude::*;

use crate::extraction::{
    claimed_plan, inherited_trust, mention_ref, ClaimObjectView, ClaimRunView, ClaimView,
};
use crate::history::{
    after_event, is_calm, lemma_fewer_assert, lemma_nothing_to_redact, on_record, parted,
    stands_alone, stays_beside, Event,
};
use crate::knowledge::{
    entity_has_id, is_group_member, is_key_of_type, key_has_id, merge_has_id, merged_away,
    statement_group,
};
use crate::ledger::episode_has_id;
use crate::parting::{
    entity_apart, folds_its_group, group_apart, groups_side, lemma_cut_apart, lemma_filter_within,
    lemma_folds_apart, lemma_group_apart, lemma_group_members, lemma_plan_apart, lemma_put_filter,
    lemma_refolds_apart, lemma_same_filter, merged_tables, other_assertion, other_belief,
    other_entity, other_key, other_mention, other_merge, other_statement, plan_sides,
    statement_apart, without, Rows,
};
use crate::project::{
    after_naming, declared_plan, new_entity_row, polarity_of, refold_of, resolution_key,
    resolve_question, retracted, stands, with_assertion, with_resolution, DeclObjectView,
    DeclarationRunView, DeclarationView, EntityRefView, ResolutionView,
};
use crate::rebuild::{
    after_folds, claim_run, claim_sides, claimed_all, claimed_one, folded_predicate, followed, over,
    projected, replayed, resolved_sides, run_of, scoped, unredacted, with_entry, Entry, Extracted,
    Outside,
};
use crate::redaction::{
    closure_of, entity_closure, episode_closure, groups_to_refold, involves, lemma_all_kept,
    lemma_kept, refolds_for, without_closure, RedactTargetView, RedactionClosureView, RefoldView,
};
use crate::reproject::{cleared, projected_steps, ReplayStepView};
use crate::rows::{first_where, lemma_updated_filter};
use crate::tables::{
    AssertionView, BeliefView, EntityMergeView, MentionView, MergeDecisionView, StatementView,
    TablesView,
};
use crate::time::Timestamp;

verus! {

/// Whether some rows are statements and assertions, with what goes with them.
pub open spec fn only_claims(r: Rows) -> bool {
    forall|id: Seq<char>|
        #![trigger (r.entities)(id)]
        #![trigger (r.keys)(id)]
        #![trigger (r.merges)(id)]
        !(r.entities)(id) && !(r.keys)(id) && !(r.merges)(id)
}

/// Whether a declaration writes none of some rows, and folds a group that none of
/// them is in.
pub open spec fn run_apart(db: TablesView, run: DeclarationRunView, r: Rows, o: Outside) -> bool {
    let (db2, both) = resolved_sides(db, run, o)->Some_0;
    let names = (o.name)(both);
    &&& run.decl matches DeclarationView::AddStatement {
        predicate,
        polarity,
        valid_from,
        valid_to,
        ..
    } ==> plan_sides(
        db2,
        declared_plan(
            both,
            predicate,
            polarity_of(polarity)->Some_0,
            valid_from,
            valid_to,
            names,
        ),
        r,
        false,
    )
    &&& folded_predicate(run.decl) matches Some((predicate, _)) ==> group_apart(
        after_naming(db2, both, names),
        run.space,
        both.first.entity,
        predicate,
        r,
    )
}

/// Whether a declaration adds a statement about what is known already, writes
/// some rows alone, and folds a group that holds no others.
pub open spec fn run_own(db: TablesView, run: DeclarationRunView, r: Rows, o: Outside) -> bool {
    let (db2, both) = resolved_sides(db, run, o)->Some_0;
    let names = (o.name)(both);
    &&& db2 == db
    &&& run.decl matches DeclarationView::AddStatement {
        predicate,
        polarity,
        valid_from,
        valid_to,
        ..
    } && {
        &&& plan_sides(
            db,
            declared_plan(
                both,
                predicate,
                polarity_of(polarity)->Some_0,
                valid_from,
                valid_to,
                names,
            ),
            r,
            true,
        )
        &&& group_own(
            after_naming(db, both, names),
            run.space,
            both.first.entity,
            predicate,
            r,
        )
    }
}

/// Whether a group holds statements among some rows alone.
pub open spec fn group_own(
    db: TablesView,
    space: Seq<char>,
    subject: Seq<char>,
    predicate: Seq<char>,
    r: Rows,
) -> bool {
    forall|i: int|
        0 <= i < db.statements.len() && is_group_member(space, subject, predicate)(
            #[trigger] db.statements[i],
        ) ==> (r.statements)(db.statements[i].id)
}

/// Whether a claim writes none of some rows, and folds a group that none of them
/// is in.
pub open spec fn claim_apart(db: TablesView, run: ClaimRunView, r: Rows, o: Outside) -> bool {
    let (db2, both) = claim_sides(db, run, o)->Some_0;
    let plan = claimed_plan(both, (o.name_claim)(both));
    &&& plan_sides(db2, plan, r, false)
    &&& group_apart(
        with_assertion(db2, plan),
        run.space,
        both.subject.entity,
        run.claim.predicate,
        r,
    )
}

/// Whether a claim is about what is known already, writes some rows alone, and
/// folds a group that holds no others.
pub open spec fn claim_own(db: TablesView, run: ClaimRunView, r: Rows, o: Outside) -> bool {
    let (db2, both) = claim_sides(db, run, o)->Some_0;
    let plan = claimed_plan(both, (o.name_claim)(both));
    &&& db2 == db
    &&& plan_sides(db, plan, r, true)
    &&& group_own(
        with_assertion(db, plan),
        run.space,
        both.subject.entity,
        run.claim.predicate,
        r,
    )
}

/// Whether each claim of a response keeps apart from some rows, or writes them
/// alone, when its turn comes.
pub open spec fn claims_side(
    db: TablesView,
    x: Extracted,
    claims: Seq<ClaimView>,
    r: Rows,
    own: bool,
    o: Outside,
) -> bool
    decreases claims.len(),
{
    claims.len() == 0 || {
        let before = claimed_all(db, x, claims.drop_last(), o)->Some_0;
        let run = claim_run(x, claims.last());
        &&& claims_side(db, x, claims.drop_last(), r, own, o)
        &&& if own {
            claim_own(before, run, r, o)
        } else {
            claim_apart(before, run, r, o)
        }
    }
}

/// Whether the redaction of an entity takes none of some rows out, and folds
/// groups that none of them is in.
pub open spec fn cut_apart(
    db: TablesView,
    space: Seq<char>,
    entity: Seq<char>,
    predicate: Option<Seq<char>>,
    r: Rows,
) -> bool {
    let cut = without_closure(db, entity_closure(db, space, entity, predicate));
    let pairs = groups_to_refold(cut, scoped(space, entity, predicate)).1;
    &&& entity_apart(db, space, entity, predicate, r)
    &&& forall|i: int|
        0 <= i < pairs.len() ==> group_apart(cut, space, (#[trigger] pairs[i]).0, pairs[i].1, r)
}

/// Whether a step of a replay keeps apart from some rows, or writes them alone.
pub open spec fn step_side(
    db: TablesView,
    step: ReplayStepView,
    r: Rows,
    own: bool,
    o: Outside,
) -> bool {
    match step {
        ReplayStepView::Declaration { space, content, at } => {
            let run = run_of(db, Entry { space, decl: (o.read)(content), content, at }, o);
            if own {
                run_own(db, run, r, o)
            } else {
                run_apart(db, run, r, o)
            }
        },
        ReplayStepView::Extraction { space, episode, extractor, raw, content, at, cached: _ } => {
            let trust = inherited_trust(
                first_where(db.episodes, episode_has_id(episode))->Some_0,
            );
            let x = Extracted { space, episode, extractor, raw, content, at, trust };
            claims_side(db, x, (o.claims)(raw, content)->Some_0, r, own, o)
        },
        ReplayStepView::Redaction { target_json, at: _ } => !own && match (o.target)(
            target_json,
        ) {
            Some(RedactTargetView::Entity { space, entity_id }) => cut_apart(
                db,
                space,
                entity_id,
                None,
                r,
            ),
            Some(RedactTargetView::PredicateScoped { space, entity_id, predicate }) => cut_apart(
                db,
                space,
                entity_id,
                Some(predicate),
                r,
            ),
            _ => is_calm(db, step, o),
        },
        ReplayStepView::Rebuild { space: _ } => true,
    }
}

/// Whether each step finds what it reads of the ledger there, and keeps apart from
/// some rows, or writes them alone where it is not kept, when its turn comes.
pub open spec fn sides(
    db: TablesView,
    steps: Seq<ReplayStepView>,
    keep: spec_fn(ReplayStepView) -> bool,
    r: Rows,
    o: Outside,
) -> bool
    decreases steps.len(),
{
    steps.len() == 0 || {
        let before = replayed(db, steps.drop_last(), o)->Some_0;
        &&& sides(db, steps.drop_last(), keep, r, o)
        &&& on_record(before, steps.last(), o)
        &&& step_side(before, steps.last(), r, !keep(steps.last()), o)
    }
}

/// The keys are all there without statements and assertions, and a resolution
/// does the same.
proof fn lemma_resolution_apart(
    db: TablesView,
    space: Seq<char>,
    eref: EntityRefView,
    res: ResolutionView,
    now: Timestamp,
    episode: Seq<char>,
    span: u32,
    r: Rows,
)
    requires
        only_claims(r),
    ensures
        resolve_question(without(db, r), space, eref, episode, span) == resolve_question(
            db,
            space,
            eref,
            episode,
            span,
        ),
        without(with_resolution(db, space, eref, res, now), r) == with_resolution(
            without(db, r),
            space,
            eref,
            res,
            now,
        ),
{
    let after = with_resolution(db, space, eref, res, now);
    lemma_filter_within(db.keys, other_key(r), is_key_of_type(space, eref.ty));
    lemma_put_filter(
        db.entities,
        entity_has_id(res.new_entity),
        new_entity_row(res.new_entity, space, eref.ty, now),
        other_entity(r),
    );
    lemma_put_filter(
        db.keys,
        key_has_id(res.key_id),
        resolution_key(space, eref, res),
        other_key(r),
    );
    assert(without(after, r) =~= with_resolution(without(db, r), space, eref, res, now));
}

/// Folding a group, seen without rows that are none of it, or all of it.
proof fn lemma_refold_apart(
    db: TablesView,
    space: Seq<char>,
    subject: Seq<char>,
    predicate: Seq<char>,
    at: Timestamp,
    r: Rows,
    own: bool,
    o: Outside,
)
    requires
        folds_its_group(o),
        if own {
            group_own(db, space, subject, predicate, r)
        } else {
            group_apart(db, space, subject, predicate, r)
        },
    ensures
        !own ==> refold_of(without(db, r), space, subject, predicate, at) == refold_of(
            db,
            space,
            subject,
            predicate,
            at,
        ),
        refold_of(db, space, subject, predicate, at) matches Some(refold) ==> without(
            after_folds(db, seq![refold], o),
            r,
        ) == if own {
            without(db, r)
        } else {
            after_folds(without(db, r), seq![refold], o)
        },
{
    let group = statement_group(db, space, subject, predicate);
    if !own {
        lemma_group_apart(db, space, subject, predicate, r);
    }
    if let Some(refold) = refold_of(db, space, subject, predicate, at) {
        let one = seq![refold];
        lemma_group_members(db, space, subject, predicate);
        assert forall|j: int, i: int| 0 <= j < one.len() && 0 <= i < one[j].group.len() implies (
        r.statements)((#[trigger] one[j].group[i]).statement.id) == own by {
            let st = group[i].statement;
            assert(db.statements.contains(st));
            let k = choose|k: int| 0 <= k < db.statements.len() && db.statements[k] == st;
            assert(is_group_member(space, subject, predicate)(db.statements[k]));
            if !own {
                assert(statement_apart(db, db.statements[k].id, r));
            }
        }
        assert(groups_side(one, r, own));
        lemma_folds_apart(db, one, o, r, own);
    }
}

/// A declaration that keeps apart from some rows does without them what it does
/// with them; one of their own writes them alone.
proof fn lemma_run_apart(
    db: TablesView,
    run: DeclarationRunView,
    r: Rows,
    own: bool,
    o: Outside,
)
    requires
        only_claims(r),
        folds_its_group(o),
        projected(db, run, o) is Some,
        if own {
            run_own(db, run, r, o)
        } else {
            run_apart(db, run, r, o)
        },
    ensures
        ({
            let after = projected(db, run, o)->Some_0;
            if own {
                without(after, r) == without(db, r)
            } else {
                projected(without(db, r), run, o) == Some(without(after, r))
            }
        }),
{
    let seen = without(db, r);
    let subject = run.decl.first_entity();
    let res = (o.resolve)(resolve_question(db, run.space, subject, run.episode, 0));
    lemma_resolution_apart(db, run.space, subject, res, run.now, run.episode, 0, r);
    let db1 = with_resolution(db, run.space, subject, res, run.now);
    if let DeclObjectView::Entity { surface, ty } = run.decl.other_side() {
        let eref = EntityRefView { surface, ty };
        let span = run.decl.other_span();
        let other = (o.resolve)(resolve_question(db1, run.space, eref, run.episode, span));
        lemma_resolution_apart(db1, run.space, eref, other, run.now, run.episode, span, r);
    }
    let (db2, both) = resolved_sides(db, run, o)->Some_0;
    let seen2 = without(db2, r);
    assert(both.first.run == run);
    assert(resolved_sides(seen, run, o) == Some((seen2, both)));
    let names = (o.name)(both);
    let named = after_naming(db2, both, names);
    match run.decl {
        DeclarationView::AddStatement {
            subject: _,
            predicate,
            object: _,
            polarity,
            valid_from,
            valid_to,
        } => {
            let plan = declared_plan(
                both,
                predicate,
                polarity_of(polarity)->Some_0,
                valid_from,
                valid_to,
                names,
            );
            lemma_plan_apart(db2, plan, r, own);
        },
        DeclarationView::Merge { loser: _, winner: _ } => {
            let row = EntityMergeView {
                id: names.merge,
                loser: both.first.entity,
                winner: both.other->Entity_id,
                decided_by: MergeDecisionView::User,
                provenance: run.episode,
                decided_at: run.now,
                undone_at: None,
            };
            let is_loser = entity_has_id(row.loser);
            let away = merged_away(row.winner);
            lemma_put_filter(db2.merges, merge_has_id(row.id), row, other_merge(r));
            lemma_updated_filter(db2.entities, is_loser, away, other_entity(r));
            assert(named =~= merged_tables(db2, row));
            assert(after_naming(seen2, both, names) =~= merged_tables(seen2, row));
            assert(without(named, r) =~= merged_tables(seen2, row));
        },
        DeclarationView::Retract { .. } => {
            lemma_updated_filter(
                db2.assertions,
                stands(names.statement),
                retracted(run.now),
                other_assertion(r),
            );
            assert(without(named, r) =~= after_naming(seen2, both, names));
        },
    }
    assert(own ==> without(named, r) == seen);
    assert(!own ==> without(named, r) == after_naming(seen2, both, names));
    if let Some((predicate, _)) = folded_predicate(run.decl) {
        lemma_refold_apart(
            named,
            run.space,
            both.first.entity,
            predicate,
            run.now,
            r,
            own,
            o,
        );
    }
}

/// A claim that keeps apart from some rows does without them what it does with
/// them; one of their own writes them alone.
proof fn lemma_claim_apart(db: TablesView, run: ClaimRunView, r: Rows, own: bool, o: Outside)
    requires
        only_claims(r),
        folds_its_group(o),
        claimed_one(db, run, o) is Some,
        if own {
            claim_own(db, run, r, o)
        } else {
            claim_apart(db, run, r, o)
        },
    ensures
        ({
            let after = claimed_one(db, run, o)->Some_0;
            if own {
                without(after, r) == without(db, r)
            } else {
                claimed_one(without(db, r), run, o) == Some(without(after, r))
            }
        }),
{
    let seen = without(db, r);
    let eref = mention_ref(run.claim.subject);
    let span = run.claim.subject.span_start;
    let res = (o.resolve)(resolve_question(db, run.space, eref, run.episode, span));
    lemma_resolution_apart(db, run.space, eref, res, run.now, run.episode, span, r);
    let db1 = with_resolution(db, run.space, eref, res, run.now);
    if let ClaimObjectView::Entity { mention } = run.claim.object {
        let oref = mention_ref(mention);
        let at = mention.span_start;
        let other = (o.resolve)(resolve_question(db1, run.space, oref, run.episode, at));
        lemma_resolution_apart(db1, run.space, oref, other, run.now, run.episode, at, r);
    }
    let (db2, both) = claim_sides(db, run, o)->Some_0;
    assert(claim_sides(seen, run, o) == Some((without(db2, r), both)));
    let plan = claimed_plan(both, (o.name_claim)(both));
    lemma_plan_apart(db2, plan, r, own);
    lemma_refold_apart(
        with_assertion(db2, plan),
        run.space,
        both.subject.entity,
        run.claim.predicate,
        run.now,
        r,
        own,
        o,
    );
}

/// Claims of a response that keep apart from some rows, or are all of their own.
proof fn lemma_claims_apart(
    db: TablesView,
    x: Extracted,
    claims: Seq<ClaimView>,
    r: Rows,
    own: bool,
    o: Outside,
)
    requires
        only_claims(r),
        folds_its_group(o),
        claimed_all(db, x, claims, o) is Some,
        claims_side(db, x, claims, r, own, o),
    ensures
        ({
            let after = claimed_all(db, x, claims, o)->Some_0;
            if own {
                without(after, r) == without(db, r)
            } else {
                claimed_all(without(db, r), x, claims, o) == Some(without(after, r))
            }
        }),
    decreases claims.len(),
{
    if claims.len() > 0 {
        let init = claims.drop_last();
        lemma_claims_apart(db, x, init, r, own, o);
        let before = claimed_all(db, x, init, o)->Some_0;
        lemma_claim_apart(before, claim_run(x, claims.last()), r, own, o);
    }
}

/// The redaction of an entity that keeps apart from some rows does without them
/// what it does with them.
proof fn lemma_unredacted_apart(
    db: TablesView,
    space: Seq<char>,
    entity: Seq<char>,
    predicate: Option<Seq<char>>,
    at: Timestamp,
    r: Rows,
    o: Outside,
)
    requires
        folds_its_group(o),
        cut_apart(db, space, entity, predicate, r),
        unredacted(db, scoped(space, entity, predicate), at, o) is Some,
    ensures
        ({
            let t = scoped(space, entity, predicate);
            unredacted(without(db, r), t, at, o) == Some(
                without(unredacted(db, t, at, o)->Some_0, r),
            )
        }),
{
    let t = scoped(space, entity, predicate);
    let seen = without(db, r);
    let c = entity_closure(db, space, entity, predicate);
    assert(closure_of(db, t) == c);
    assert(closure_of(seen, t) == entity_closure(seen, space, entity, predicate));
    let none = Seq::<RefoldView>::empty();
    assert(after_folds(db, none, o) =~= db);
    assert(after_folds(seen, none, o) =~= seen);
    lemma_cut_apart(db, space, entity, predicate, r);
    if c.assertions.len() > 0 {
        let cut = without_closure(db, c);
        let pairs = groups_to_refold(cut, t).1;
        assert(groups_to_refold(cut, t).0 == space);
        let refolds = refolds_for(cut, space, pairs, at)->Ok_0;
        let p = involves(space, entity, predicate);
        lemma_kept(db.statements, |x: StatementView| !c.statements.contains(x.id));
        assert forall|i: int| 0 <= i < cut.statements.len() && p(
            #[trigger] cut.statements[i],
        ) implies other_statement(r)(cut.statements[i]) by {
            let x = cut.statements[i];
            assert(db.statements.contains(x));
            let j = choose|j: int| 0 <= j < db.statements.len() && db.statements[j] == x;
            assert(p(db.statements[j]));
            assert(statement_apart(db, db.statements[j].id, r));
        }
        lemma_filter_within(cut.statements, other_statement(r), p);
        assert(groups_to_refold(without(cut, r), t) == groups_to_refold(cut, t));
        lemma_refolds_apart(cut, space, pairs, at, r);
        lemma_refolds_side(cut, space, pairs, at, r);
        lemma_folds_apart(cut, refolds, o, r, false);
    }
}

/// Groups that some rows are none of hold none of them.
proof fn lemma_refolds_side(
    db: TablesView,
    space: Seq<char>,
    pairs: Seq<(Seq<char>, Seq<char>)>,
    at: Timestamp,
    r: Rows,
)
    requires
        refolds_for(db, space, pairs, at) is Ok,
        forall|i: int|
            0 <= i < pairs.len() ==> group_apart(db, space, (#[trigger] pairs[i]).0, pairs[i].1, r),
    ensures
        groups_side(refolds_for(db, space, pairs, at)->Ok_0, r, false),
    decreases pairs.len(),
{
    if pairs.len() > 0 {
        let init = pairs.drop_last();
        assert forall|i: int| 0 <= i < init.len() implies group_apart(
            db,
            space,
            (#[trigger] init[i]).0,
            init[i].1,
            r,
        ) by {
            assert(init[i] == pairs[i]);
        }
        lemma_refolds_side(db, space, init, at, r);
        let done = refolds_for(db, space, init, at)->Ok_0;
        let all = refolds_for(db, space, pairs, at)->Ok_0;
        let (subject, predicate) = pairs.last();
        assert(pairs.last() == pairs[pairs.len() - 1]);
        assert(group_apart(db, space, subject, predicate, r));
        lemma_group_members(db, space, subject, predicate);
        assert forall|j: int, i: int| 0 <= j < all.len() && 0 <= i < all[j].group.len() implies !(
        r.statements)((#[trigger] all[j].group[i]).statement.id) by {
            if j < done.len() {
                assert(done[j] == all[j]);
                assert(!(r.statements)(done[j].group[i].statement.id));
            } else {
                let st = statement_group(db, space, subject, predicate)[i].statement;
                assert(db.statements.contains(st));
                let k = choose|k: int| 0 <= k < db.statements.len() && db.statements[k] == st;
                assert(statement_apart(db, db.statements[k].id, r));
            }
        }
    }
}

/// A step that keeps apart from some rows does without them what it does with
/// them; one of their own writes them alone.
proof fn lemma_step_apart(db: TablesView, step: ReplayStepView, r: Rows, own: bool, o: Outside)
    requires
        only_claims(r),
        folds_its_group(o),
        followed(db, step, o) is Some,
        on_record(db, step, o),
        step_side(db, step, r, own, o),
    ensures
        ({
            let after = followed(db, step, o)->Some_0;
            if own {
                without(after, r) == without(db, r)
            } else {
                followed(without(db, r), step, o) == Some(without(after, r))
            }
        }),
{
    let seen = without(db, r);
    match step {
        ReplayStepView::Declaration { space, content, at } => {
            let e = Entry { space, decl: (o.read)(content), content, at };
            assert(with_entry(db, e, o) == db);
            assert(with_entry(seen, e, o) == seen);
            let run = run_of(db, e, o);
            assert(run_of(seen, e, o) == run);
            lemma_run_apart(db, run, r, own, o);
        },
        ReplayStepView::Extraction { space, episode, extractor, raw, content, at, cached: _ } => {
            let trust = inherited_trust(
                first_where(db.episodes, episode_has_id(episode))->Some_0,
            );
            let x = Extracted { space, episode, extractor, raw, content, at, trust };
            lemma_claims_apart(db, x, (o.claims)(raw, content)->Some_0, r, own, o);
        },
        ReplayStepView::Redaction { target_json, at } => match (o.target)(target_json) {
            None => {},
            Some(t) => match t {
                RedactTargetView::Episode { id } => {
                    lemma_nothing_to_redact(db, t, at, o);
                    lemma_fewer_assert(db, r, id);
                    lemma_nothing_to_redact(seen, t, at, o);
                },
                RedactTargetView::Space { id } => {
                    lemma_nothing_to_redact(db, t, at, o);
                    lemma_nothing_to_redact(seen, t, at, o);
                },
                RedactTargetView::Entity { space, entity_id } => {
                    assert(t == scoped(space, entity_id, None));
                    lemma_unredacted_apart(db, space, entity_id, None, at, r, o);
                },
                RedactTargetView::PredicateScoped { space, entity_id, predicate } => {
                    assert(t == scoped(space, entity_id, Some(predicate)));
                    lemma_unredacted_apart(db, space, entity_id, Some(predicate), at, r, o);
                },
            },
        },
        ReplayStepView::Rebuild { space: _ } => {},
    }
}

/// Nothing rests on rows that no other step reads or writes. Where some steps of
/// a replay assert about what is known already, in groups of their own, and every
/// other step names, folds and takes out other statements and assertions, the
/// others do without the rows of the former just what they do with them.
pub proof fn law_rows_of_their_own_bear_nothing(
    db: TablesView,
    steps: Seq<ReplayStepView>,
    keep: spec_fn(ReplayStepView) -> bool,
    r: Rows,
    o: Outside,
)
    requires
        only_claims(r),
        folds_its_group(o),
        replayed(db, steps, o) is Some,
        sides(db, steps, keep, r, o),
    ensures
        parted(db, steps, keep, r, o),
    decreases steps.len(),
{
    if steps.len() > 0 {
        let init = steps.drop_last();
        law_rows_of_their_own_bear_nothing(db, init, keep, r, o);
        let before = replayed(db, init, o)->Some_0;
        lemma_step_apart(before, steps.last(), r, !keep(steps.last()), o);
    }
}

/// The statements and assertions that a redaction takes out.
pub open spec fn rows_redacted(c: RedactionClosureView) -> Rows {
    Rows {
        entities: |id: Seq<char>| false,
        keys: |id: Seq<char>| false,
        merges: |id: Seq<char>| false,
        statements: |id: Seq<char>| c.statements.contains(id),
        assertions: |id: Seq<char>| c.assertions.contains(id),
    }
}

/// An episode stands alone where it names what is known already, what it asserts
/// is alone in its groups, no other step of the replay touches that, and folding
/// the groups that are left again changes no belief.
pub proof fn law_lone_episode_stands_alone(
    db: TablesView,
    id: Seq<char>,
    target_json: Seq<char>,
    rid: Seq<char>,
    reason: Seq<char>,
    actor: Seq<char>,
    at: Timestamp,
    o: Outside,
)
    requires
        ({
            let event = Event::EpisodeRedacted { id, target_json, rid, reason, actor, at };
            let c = episode_closure(db, id);
            let steps = projected_steps(db);
            let keep = stays_beside(db, id, o);
            &&& folds_its_group(o)
            &&& replayed(cleared(db), steps, o) is Some
            &&& sides(cleared(db), steps, keep, rows_redacted(c), o)
            &&& after_event(db, event, o) is Some
            &&& after_event(db, event, o)->Some_0.beliefs == without_closure(db, c).beliefs
        }),
    ensures
        stands_alone(
            db,
            id,
            after_event(
                db,
                Event::EpisodeRedacted { id, target_json, rid, reason, actor, at },
                o,
            )->Some_0,
            o,
        ),
{
    let event = Event::EpisodeRedacted { id, target_json, rid, reason, actor, at };
    let after = after_event(db, event, o)->Some_0;
    let c = episode_closure(db, id);
    let own = rows_redacted(c);
    law_rows_of_their_own_bear_nothing(
        cleared(db),
        projected_steps(db),
        stays_beside(db, id, o),
        own,
        o,
    );
    let left = without(db, own);
    lemma_all_kept(db.entities, other_entity(own));
    lemma_all_kept(db.keys, other_key(own));
    lemma_all_kept(db.merges, other_merge(own));
    let cut = without_closure(db, c);
    lemma_same_filter(
        db.mentions,
        other_mention(own),
        |m: MentionView| !c.assertions.contains(m.assertion),
    );
    lemma_same_filter(
        db.assertions,
        other_assertion(own),
        |a: AssertionView| !c.assertions.contains(a.id),
    );
    lemma_same_filter(
        db.beliefs,
        other_belief(own),
        |b: BeliefView| !c.statements.contains(b.statement),
    );
    lemma_same_filter(
        db.statements,
        other_statement(own),
        |x: StatementView| !c.statements.contains(x.id),
    );
    assert(left =~= cut);
    assert(over(after, left) =~= after);
}

} // verus!
