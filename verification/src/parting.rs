//! What is done in one space does not touch what is known in another.
//!
//! Ids are derived from what they name, so that an id of one space is none of
//! another: there is a space that every id is at home in.
use vstd::prelude::*;

use crate::extraction::{
    claimed_plan, mention_ref, ClaimBothView, ClaimObjectView, ClaimRunView, ClaimView,
};
use crate::knowledge::{
    assertion_has_id, asserts, believes_any, entity_has_id, entry_for, is_belief_at,
    is_group_member, is_key_of_type, is_supported, key_has_id, mention_has_id, merge_has_id,
    merged_away, put_beliefs, replaced_beliefs, statement_group, statement_has_id,
};
use crate::project::{
    after_naming, declared_plan, polarity_of, refold_of, resolution_key, resolve_question,
    retracted, stands, with_assertion, with_resolution, new_entity_row, AssertionPlanView,
    BothResolvedView, DeclObjectView, DeclarationRunView, DeclarationView, EntityRefView,
    OtherSideView, ResolutionView, ResolveQuestionView,
};
use crate::rebuild::{
    after_folds, claim_run, claim_sides, claimed_all, claimed_one, folded_predicate,
    lemma_still_there, projected, resolved_sides, scoped, unredacted, Extracted, Outside,
};
use crate::redaction::{
    asserted_besides, asserts_any, closure_of, entity_closure, group_ids, groups_to_refold,
    involves, lemma_all_kept, lemma_kept, lemma_none_kept, loses_all, refolds_for, statement_id_of,
    without_closure, RefoldView,
};
use crate::rows::{lemma_updated_filter, or_ignore, or_replace, some_where, updated};
use crate::tables::{
    AssertionView, BeliefView, EntityKeyView, EntityMergeView, EntityView, MentionView,
    MergeDecisionView, StatementView, TablesView,
};
use crate::time::Timestamp;

verus! {

/// Some rows of what is known, by the ids of entities, keys, merges, statements
/// and assertions. Mentions go with their assertion, beliefs with their statement.
pub struct Rows {
    pub entities: spec_fn(Seq<char>) -> bool,
    pub keys: spec_fn(Seq<char>) -> bool,
    pub merges: spec_fn(Seq<char>) -> bool,
    pub statements: spec_fn(Seq<char>) -> bool,
    pub assertions: spec_fn(Seq<char>) -> bool,
}

/// Selects the entities that are not among some rows.
pub open spec fn other_entity(r: Rows) -> spec_fn(EntityView) -> bool {
    |e: EntityView| !(r.entities)(e.id)
}

/// Selects the keys that are not among some rows.
pub open spec fn other_key(r: Rows) -> spec_fn(EntityKeyView) -> bool {
    |k: EntityKeyView| !(r.keys)(k.id)
}

/// Selects the merges that are not among some rows.
pub open spec fn other_merge(r: Rows) -> spec_fn(EntityMergeView) -> bool {
    |m: EntityMergeView| !(r.merges)(m.id)
}

/// Selects the statements that are not among some rows.
pub open spec fn other_statement(r: Rows) -> spec_fn(StatementView) -> bool {
    |s: StatementView| !(r.statements)(s.id)
}

/// Selects the assertions that are not among some rows.
pub open spec fn other_assertion(r: Rows) -> spec_fn(AssertionView) -> bool {
    |a: AssertionView| !(r.assertions)(a.id)
}

/// Selects the mentions that are not among some rows.
pub open spec fn other_mention(r: Rows) -> spec_fn(MentionView) -> bool {
    |m: MentionView| !(r.assertions)(m.assertion)
}

/// Selects the beliefs that are not among some rows.
pub open spec fn other_belief(r: Rows) -> spec_fn(BeliefView) -> bool {
    |b: BeliefView| !(r.statements)(b.statement)
}

/// The tables without some rows of what is known.
pub open spec fn without(db: TablesView, r: Rows) -> TablesView {
    TablesView {
        entities: db.entities.filter(other_entity(r)),
        keys: db.keys.filter(other_key(r)),
        merges: db.merges.filter(other_merge(r)),
        statements: db.statements.filter(other_statement(r)),
        assertions: db.assertions.filter(other_assertion(r)),
        mentions: db.mentions.filter(other_mention(r)),
        beliefs: db.beliefs.filter(other_belief(r)),
        ..db
    }
}

/// The rows whose ids are at home in a space.
pub open spec fn rows_of(home: spec_fn(Seq<char>) -> Seq<char>, space: Seq<char>) -> Rows {
    Rows {
        entities: |id: Seq<char>| home(id) == space,
        keys: |id: Seq<char>| home(id) == space,
        merges: |id: Seq<char>| home(id) == space,
        statements: |id: Seq<char>| home(id) == space,
        assertions: |id: Seq<char>| home(id) == space,
    }
}

/// Whether every row of what is known is at home in its space, and what it rests
/// on is there: the entity of a key, both sides of a merge, the statement of an
/// assertion and of a belief, the assertion of a mention.
pub open spec fn is_local(db: TablesView, home: spec_fn(Seq<char>) -> Seq<char>) -> bool {
    &&& forall|i: int|
        0 <= i < db.entities.len() ==> home((#[trigger] db.entities[i]).id) == db.entities[i].space
    &&& forall|i: int|
        0 <= i < db.keys.len() ==> {
            let k = #[trigger] db.keys[i];
            &&& home(k.id) == k.space
            &&& home(k.entity) == k.space
            &&& some_where(db.entities, entity_has_id(k.entity))
        }
    &&& forall|i: int|
        0 <= i < db.merges.len() ==> {
            let m = #[trigger] db.merges[i];
            &&& home(m.loser) == home(m.id)
            &&& home(m.winner) == home(m.id)
            &&& some_where(db.entities, entity_has_id(m.loser))
            &&& some_where(db.entities, entity_has_id(m.winner))
        }
    &&& forall|i: int|
        0 <= i < db.statements.len() ==> home((#[trigger] db.statements[i]).id)
            == db.statements[i].space
    &&& forall|i: int|
        0 <= i < db.assertions.len() ==> {
            let a = #[trigger] db.assertions[i];
            &&& home(a.statement) == home(a.id)
            &&& some_where(db.statements, statement_has_id(a.statement))
        }
    &&& forall|i: int|
        0 <= i < db.mentions.len() ==> {
            let m = #[trigger] db.mentions[i];
            &&& home(m.assertion) == home(m.id)
            &&& some_where(db.assertions, assertion_has_id(m.assertion))
        }
    &&& forall|i: int|
        0 <= i < db.beliefs.len() ==> some_where(
            db.statements,
            statement_has_id((#[trigger] db.beliefs[i]).statement),
        )
}

/// Whether the candidates of a question are at home in its space.
pub open spec fn asks_at_home(
    q: ResolveQuestionView,
    home: spec_fn(Seq<char>) -> Seq<char>,
) -> bool {
    forall|i: int|
        0 <= i < q.candidates.len() ==> home((#[trigger] q.candidates[i]).entity) == q.space
}

/// Whether the other side of a statement is at home in a space.
pub open spec fn other_at_home(
    other: OtherSideView,
    space: Seq<char>,
    home: spec_fn(Seq<char>) -> Seq<char>,
) -> bool {
    other matches OtherSideView::Entity { id, .. } ==> home(id) == space
}

/// Whether a fold gives beliefs of the statements of its group.
pub open spec fn folds_its_group(o: Outside) -> bool {
    forall|r: RefoldView, i: int|
        0 <= i < (o.fold)(r).len() ==> group_ids(r.group).contains(
            (#[trigger] (o.fold)(r)[i]).statement,
        )
}

/// Whether what is named in a space is at home in it: new entities and keys; a
/// link leads to the entity of a candidate; statements, assertions, mentions and
/// merges; a fold gives beliefs of the statements of its group; and the episodes
/// of declarations.
pub open spec fn names_at_home(o: Outside, home: spec_fn(Seq<char>) -> Seq<char>) -> bool {
    &&& forall|q: ResolveQuestionView|
        asks_at_home(q, home) ==> {
            let r = #[trigger] (o.resolve)(q);
            &&& home(r.new_entity) == q.space
            &&& home(r.key_id) == q.space
            &&& r.decision is Link ==> exists|i: int|
                0 <= i < q.candidates.len() && (#[trigger] q.candidates[i]).entity == r.entity()
        }
    &&& forall|b: BothResolvedView|
        home(b.first.entity) == b.first.run.space && other_at_home(
            b.other,
            b.first.run.space,
            home,
        ) ==> {
            let n = #[trigger] (o.name)(b);
            &&& home(n.statement) == b.first.run.space
            &&& home(n.assertion) == b.first.run.space
            &&& home(n.subject_mention) == b.first.run.space
            &&& home(n.object_mention) == b.first.run.space
            &&& home(n.merge) == b.first.run.space
        }
    &&& forall|b: ClaimBothView|
        home(b.subject.entity) == b.subject.run.space && other_at_home(
            b.object,
            b.subject.run.space,
            home,
        ) ==> {
            let n = #[trigger] (o.name_claim)(b);
            &&& home(n.statement) == b.subject.run.space
            &&& home(n.assertion) == b.subject.run.space
            &&& home(n.subject_mention) == b.subject.run.space
            &&& home(n.object_mention) == b.subject.run.space
        }
    &&& folds_its_group(o)
    &&& forall|space: Seq<char>, content: Seq<char>, at: Timestamp|
        home(#[trigger] (o.episode)(space, content, at)) == space
}

/// Selecting from a selection that kept all the selected rows that are there.
pub proof fn lemma_filter_within<V>(s: Seq<V>, p: spec_fn(V) -> bool, q: spec_fn(V) -> bool)
    requires
        forall|i: int| 0 <= i < s.len() && q(#[trigger] s[i]) ==> p(s[i]),
    ensures
        s.filter(p).filter(q) == s.filter(q),
    decreases s.len(),
{
    reveal(Seq::filter);
    if s.len() > 0 {
        let init = s.drop_last();
        assert forall|i: int| 0 <= i < init.len() && q(#[trigger] init[i]) implies p(init[i]) by {
            assert(init[i] == s[i]);
        }
        lemma_filter_within(init, p, q);
        assert(s.last() == s[s.len() - 1]);
        let head = init.filter(p);
        if p(s.last()) {
            assert(head.push(s.last()).drop_last() =~= head);
        }
    }
}

/// Two conditions that agree on the rows select the same.
pub proof fn lemma_same_filter<V>(s: Seq<V>, p: spec_fn(V) -> bool, q: spec_fn(V) -> bool)
    requires
        forall|i: int| 0 <= i < s.len() ==> p(#[trigger] s[i]) == q(s[i]),
    ensures
        s.filter(p) == s.filter(q),
    decreases s.len(),
{
    reveal(Seq::filter);
    if s.len() > 0 {
        let init = s.drop_last();
        assert forall|i: int| 0 <= i < init.len() implies p(#[trigger] init[i]) == q(init[i]) by {
            assert(init[i] == s[i]);
        }
        lemma_same_filter(init, p, q);
        assert(s.last() == s[s.len() - 1]);
    }
}

/// The order of two selections does not matter.
pub proof fn lemma_filters_commute<V>(s: Seq<V>, p: spec_fn(V) -> bool, q: spec_fn(V) -> bool)
    ensures
        s.filter(p).filter(q) == s.filter(q).filter(p),
    decreases s.len(),
{
    reveal(Seq::filter);
    if s.len() > 0 {
        let init = s.drop_last();
        lemma_filters_commute(init, p, q);
        let a = init.filter(p);
        let b = init.filter(q);
        if p(s.last()) {
            assert(a.push(s.last()).drop_last() =~= a);
        }
        if q(s.last()) {
            assert(b.push(s.last()).drop_last() =~= b);
        }
    }
}

/// Putting a row in, seen through a selection.
pub proof fn lemma_put_filter<V>(
    s: Seq<V>,
    p: spec_fn(V) -> bool,
    x: V,
    q: spec_fn(V) -> bool,
)
    requires
        forall|i: int| 0 <= i < s.len() && p(#[trigger] s[i]) ==> q(s[i]) == q(x),
    ensures
        or_ignore(s, p, x).filter(q) == if q(x) {
            or_ignore(s.filter(q), p, x)
        } else {
            s.filter(q)
        },
{
    lemma_kept(s, q);
    if some_where(s, p) {
        if q(x) {
            let i = choose|i: int| 0 <= i < s.len() && p(#[trigger] s[i]);
            s.lemma_filter_contains(q, i);
            assert(s.filter(q).contains(s[i]));
            let k = choose|k: int| 0 <= k < s.filter(q).len() && s.filter(q)[k] == s[i];
            assert(p(s.filter(q)[k]));
        }
    } else {
        s.lemma_filter_push(x, q);
        assert(!some_where(s.filter(q), p)) by {
            if some_where(s.filter(q), p) {
                let k = choose|k: int| 0 <= k < s.filter(q).len() && p(#[trigger] s.filter(q)[k]);
                assert(s.contains(s.filter(q)[k]));
                let i = choose|i: int| 0 <= i < s.len() && s[i] == s.filter(q)[k];
                assert(p(s[i]));
            }
        }
    }
}

/// Putting rows that a selection does not see changes nothing that it sees.
pub proof fn lemma_unseen_update<V>(
    s: Seq<V>,
    p: spec_fn(V) -> bool,
    g: spec_fn(V) -> V,
    q: spec_fn(V) -> bool,
)
    requires
        forall|v: V| q(#[trigger] g(v)) == q(v),
        forall|i: int| 0 <= i < s.len() && p(#[trigger] s[i]) ==> !q(s[i]),
    ensures
        updated(s, p, g).filter(q) == s.filter(q),
{
    lemma_updated_filter(s, p, g, q);
    lemma_kept(s, q);
    assert forall|i: int| 0 <= i < s.filter(q).len() implies !p(#[trigger] s.filter(q)[i]) by {
        let v = s.filter(q)[i];
        assert(s.contains(v));
        let k = choose|k: int| 0 <= k < s.len() && s[k] == v;
        assert(s[k] == v);
    }
    assert(updated(s.filter(q), p, g) =~= s.filter(q));
}

/// A row that is there stays there in what is put in.
pub proof fn lemma_put_keeps<V>(s: Seq<V>, p: spec_fn(V) -> bool, q: spec_fn(V) -> bool, x: V)
    requires
        some_where(s, p),
    ensures
        some_where(or_ignore(s, q, x), p),
{
    lemma_still_there(s, p, q, x);
}

/// Resolving a surface form keeps to its space.
proof fn lemma_resolution_parts(
    db: TablesView,
    space: Seq<char>,
    eref: EntityRefView,
    res: ResolutionView,
    now: Timestamp,
    home: spec_fn(Seq<char>) -> Seq<char>,
    s: Seq<char>,
)
    requires
        is_local(db, home),
        home(res.new_entity) == space,
        home(res.key_id) == space,
        home(res.entity()) == space,
        res.decision is Link ==> some_where(db.entities, entity_has_id(res.entity())),
    ensures
        ({
            let after = with_resolution(db, space, eref, res, now);
            let r = rows_of(home, s);
            &&& is_local(after, home)
            &&& some_where(after.entities, entity_has_id(res.entity()))
            &&& forall|id: Seq<char>| #[trigger]
                some_where(db.entities, entity_has_id(id)) ==> some_where(
                    after.entities,
                    entity_has_id(id),
                )
            &&& without(after, r) == if space == s {
                without(db, r)
            } else {
                with_resolution(without(db, r), space, eref, res, now)
            }
        }),
{
    let after = with_resolution(db, space, eref, res, now);
    let r = rows_of(home, s);
    let row = new_entity_row(res.new_entity, space, eref.ty, now);
    let is_new = entity_has_id(res.new_entity);
    let key = resolution_key(space, eref, res);
    let is_key = key_has_id(res.key_id);
    lemma_put_filter(db.entities, is_new, row, other_entity(r));
    lemma_put_filter(db.keys, is_key, key, other_key(r));
    lemma_still_there(db.entities, is_new, is_new, row);
    assert forall|id: Seq<char>| #[trigger] some_where(db.entities, entity_has_id(id)) implies
        some_where(after.entities, entity_has_id(id)) by {
        lemma_put_keeps(db.entities, entity_has_id(id), is_new, row);
    }
    assert(some_where(after.entities, entity_has_id(res.entity())));
    assert forall|i: int| 0 <= i < after.keys.len() implies ({
        let k = #[trigger] after.keys[i];
        &&& home(k.id) == k.space
        &&& home(k.entity) == k.space
        &&& some_where(after.entities, entity_has_id(k.entity))
    }) by {
        if i < db.keys.len() {
            assert(after.keys[i] == db.keys[i]);
        }
    }
    assert forall|i: int| 0 <= i < after.merges.len() implies ({
        let m = #[trigger] after.merges[i];
        &&& home(m.loser) == home(m.id)
        &&& home(m.winner) == home(m.id)
        &&& some_where(after.entities, entity_has_id(m.loser))
        &&& some_where(after.entities, entity_has_id(m.winner))
    }) by {
        assert(after.merges[i] == db.merges[i]);
    }
    assert(is_local(after, home));
    if space == s {
        assert(without(after, r) =~= without(db, r));
    } else {
        assert(without(after, r) =~= with_resolution(without(db, r), space, eref, res, now));
    }
}

/// A question in one space is asked of the keys of that space.
proof fn lemma_question_parts(
    db: TablesView,
    space: Seq<char>,
    eref: EntityRefView,
    episode: Seq<char>,
    span: u32,
    home: spec_fn(Seq<char>) -> Seq<char>,
    s: Seq<char>,
    o: Outside,
)
    requires
        is_local(db, home),
        names_at_home(o, home),
    ensures
        ({
            let q = resolve_question(db, space, eref, episode, span);
            let res = (o.resolve)(q);
            &&& space != s ==> resolve_question(
                without(db, rows_of(home, s)),
                space,
                eref,
                episode,
                span,
            ) == q
            &&& home(res.new_entity) == space
            &&& home(res.key_id) == space
            &&& home(res.entity()) == space
            &&& res.decision is Link ==> some_where(db.entities, entity_has_id(res.entity()))
        }),
{
    let of = is_key_of_type(space, eref.ty);
    let q = resolve_question(db, space, eref, episode, span);
    let res = (o.resolve)(q);
    lemma_kept(db.keys, of);
    assert forall|i: int| 0 <= i < q.candidates.len() implies home(
        (#[trigger] q.candidates[i]).entity,
    ) == q.space && some_where(db.entities, entity_has_id(q.candidates[i].entity)) by {
        let k = q.candidates[i];
        assert(db.keys.contains(k));
        let j = choose|j: int| 0 <= j < db.keys.len() && db.keys[j] == k;
        assert(db.keys[j] == k);
    }
    assert(asks_at_home(q, home));
    if res.decision is Link {
        let i = choose|i: int|
            0 <= i < q.candidates.len() && (#[trigger] q.candidates[i]).entity == res.entity();
        assert(home(q.candidates[i].entity) == q.space);
    }
    if space != s {
        let r = rows_of(home, s);
        assert forall|i: int| 0 <= i < db.keys.len() && of(#[trigger] db.keys[i]) implies other_key(
            r,
        )(db.keys[i]) by {}
        lemma_filter_within(db.keys, other_key(r), of);
        assert(resolve_question(without(db, r), space, eref, episode, span) =~= q);
    }
}

/// Whether the rows of a plan hang together and are at home in a space.
pub open spec fn plan_at_home(
    plan: AssertionPlanView,
    space: Seq<char>,
    home: spec_fn(Seq<char>) -> Seq<char>,
) -> bool {
    &&& plan.statement.space == space
    &&& home(plan.statement.id) == space
    &&& plan.assertion.statement == plan.statement.id
    &&& home(plan.assertion.id) == space
    &&& plan.subject_mention.assertion == plan.assertion.id
    &&& home(plan.subject_mention.id) == space
    &&& plan.object_mention matches Some(m) ==> m.assertion == plan.assertion.id && home(m.id)
        == space
}

/// Whether the rows of a plan are all among some rows, or none of them is; and so
/// are the mentions whose ids it gives again.
pub open spec fn plan_sides(
    db: TablesView,
    plan: AssertionPlanView,
    r: Rows,
    own: bool,
) -> bool {
    &&& (r.statements)(plan.statement.id) == own
    &&& (r.assertions)(plan.assertion.id) == own
    &&& forall|i: int|
        0 <= i < db.mentions.len() && (#[trigger] db.mentions[i]).id == plan.subject_mention.id
            ==> (r.assertions)(db.mentions[i].assertion) == own
    &&& plan.object_mention matches Some(m) ==> forall|i: int|
        0 <= i < db.mentions.len() && (#[trigger] db.mentions[i]).id == m.id ==> (r.assertions)(
            db.mentions[i].assertion,
        ) == own
}

/// Writing an assertion, seen without some rows.
pub proof fn lemma_plan_apart(db: TablesView, plan: AssertionPlanView, r: Rows, own: bool)
    requires
        plan_sides(db, plan, r, own),
        plan.subject_mention.assertion == plan.assertion.id,
        plan.object_mention matches Some(m) ==> m.assertion == plan.assertion.id,
    ensures
        without(with_assertion(db, plan), r) == if own {
            without(db, r)
        } else {
            with_assertion(without(db, r), plan)
        },
{
    let after = with_assertion(db, plan);
    let sm = mention_has_id(plan.subject_mention.id);
    let mentions = or_ignore(db.mentions, sm, plan.subject_mention);
    lemma_put_filter(
        db.statements,
        statement_has_id(plan.statement.id),
        plan.statement,
        other_statement(r),
    );
    lemma_put_filter(
        db.assertions,
        assertion_has_id(plan.assertion.id),
        plan.assertion,
        other_assertion(r),
    );
    lemma_put_filter(db.mentions, sm, plan.subject_mention, other_mention(r));
    if plan.object_mention is Some {
        let m = plan.object_mention->Some_0;
        assert forall|i: int|
            0 <= i < mentions.len() && mention_has_id(m.id)(
                #[trigger] mentions[i],
            ) implies other_mention(r)(mentions[i]) == other_mention(r)(m) by {
            if i < db.mentions.len() {
                assert(mentions[i] == db.mentions[i]);
            }
        }
        lemma_put_filter(mentions, mention_has_id(m.id), m, other_mention(r));
    }
    if own {
        assert(without(after, r) =~= without(db, r));
    } else {
        assert(without(after, r) =~= with_assertion(without(db, r), plan));
    }
}

/// Writing an assertion keeps to its space.
proof fn lemma_plan_parts(
    db: TablesView,
    plan: AssertionPlanView,
    space: Seq<char>,
    home: spec_fn(Seq<char>) -> Seq<char>,
    s: Seq<char>,
)
    requires
        is_local(db, home),
        plan_at_home(plan, space, home),
    ensures
        ({
            let after = with_assertion(db, plan);
            let r = rows_of(home, s);
            &&& is_local(after, home)
            &&& without(after, r) == if space == s {
                without(db, r)
            } else {
                with_assertion(without(db, r), plan)
            }
        }),
{
    let after = with_assertion(db, plan);
    let r = rows_of(home, s);
    let st = statement_has_id(plan.statement.id);
    let at = assertion_has_id(plan.assertion.id);
    assert(plan_sides(db, plan, r, space == s));
    lemma_plan_apart(db, plan, r, space == s);
    lemma_still_there(db.statements, st, st, plan.statement);
    lemma_still_there(db.assertions, at, at, plan.assertion);
    assert forall|i: int| 0 <= i < after.assertions.len() implies ({
        let a = #[trigger] after.assertions[i];
        &&& home(a.statement) == home(a.id)
        &&& some_where(after.statements, statement_has_id(a.statement))
    }) by {
        if i < db.assertions.len() {
            assert(after.assertions[i] == db.assertions[i]);
            lemma_put_keeps(
                db.statements,
                statement_has_id(db.assertions[i].statement),
                st,
                plan.statement,
            );
        }
    }
    assert forall|i: int| 0 <= i < after.mentions.len() implies ({
        let m = #[trigger] after.mentions[i];
        &&& home(m.assertion) == home(m.id)
        &&& some_where(after.assertions, assertion_has_id(m.assertion))
    }) by {
        if i < db.mentions.len() {
            assert(after.mentions[i] == db.mentions[i]);
            lemma_put_keeps(
                db.assertions,
                assertion_has_id(db.mentions[i].assertion),
                at,
                plan.assertion,
            );
        } else {
            assert(after.mentions[i].assertion == plan.assertion.id);
        }
    }
    assert forall|i: int| 0 <= i < after.beliefs.len() implies some_where(
        after.statements,
        statement_has_id((#[trigger] after.beliefs[i]).statement),
    ) by {
        assert(after.beliefs[i] == db.beliefs[i]);
        lemma_put_keeps(
            db.statements,
            statement_has_id(db.beliefs[i].statement),
            st,
            plan.statement,
        );
    }
}

/// Updating rows without touching their ids keeps every id.
proof fn lemma_update_keeps_ids(
    s: Seq<EntityView>,
    p: spec_fn(EntityView) -> bool,
    winner: Seq<char>,
    id: Seq<char>,
)
    requires
        some_where(s, entity_has_id(id)),
    ensures
        some_where(updated(s, p, merged_away(winner)), entity_has_id(id)),
{
    let i = choose|i: int| 0 <= i < s.len() && entity_has_id(id)(#[trigger] s[i]);
    assert(entity_has_id(id)(updated(s, p, merged_away(winner))[i]));
}

/// Merging two entities keeps to their space.
proof fn lemma_merge_parts(
    db: TablesView,
    row: EntityMergeView,
    space: Seq<char>,
    home: spec_fn(Seq<char>) -> Seq<char>,
    s: Seq<char>,
)
    requires
        is_local(db, home),
        home(row.id) == space,
        home(row.loser) == space,
        home(row.winner) == space,
        some_where(db.entities, entity_has_id(row.loser)),
        some_where(db.entities, entity_has_id(row.winner)),
    ensures
        ({
            let after = merged_tables(db, row);
            let r = rows_of(home, s);
            &&& is_local(after, home)
            &&& without(after, r) == if space == s {
                without(db, r)
            } else {
                merged_tables(without(db, r), row)
            }
        }),
{
    let after = merged_tables(db, row);
    let r = rows_of(home, s);
    let is_loser = entity_has_id(row.loser);
    let away = merged_away(row.winner);
    lemma_put_filter(db.merges, merge_has_id(row.id), row, other_merge(r));
    assert forall|id: Seq<char>| #[trigger] some_where(db.entities, entity_has_id(id)) implies
        some_where(after.entities, entity_has_id(id)) by {
        lemma_update_keeps_ids(db.entities, is_loser, row.winner, id);
    }
    assert forall|i: int| 0 <= i < after.entities.len() implies home(
        (#[trigger] after.entities[i]).id,
    ) == after.entities[i].space by {
        assert(home(db.entities[i].id) == db.entities[i].space);
    }
    assert forall|i: int| 0 <= i < after.keys.len() implies ({
        let k = #[trigger] after.keys[i];
        &&& home(k.id) == k.space
        &&& home(k.entity) == k.space
        &&& some_where(after.entities, entity_has_id(k.entity))
    }) by {
        assert(after.keys[i] == db.keys[i]);
    }
    assert forall|i: int| 0 <= i < after.merges.len() implies ({
        let m = #[trigger] after.merges[i];
        &&& home(m.loser) == home(m.id)
        &&& home(m.winner) == home(m.id)
        &&& some_where(after.entities, entity_has_id(m.loser))
        &&& some_where(after.entities, entity_has_id(m.winner))
    }) by {
        if i < db.merges.len() {
            assert(after.merges[i] == db.merges[i]);
        }
    }
    if space == s {
        assert forall|i: int| 0 <= i < db.entities.len() && is_loser(
            #[trigger] db.entities[i],
        ) implies !other_entity(r)(db.entities[i]) by {}
        lemma_unseen_update(db.entities, is_loser, away, other_entity(r));
        assert(without(after, r) =~= without(db, r));
    } else {
        lemma_updated_filter(db.entities, is_loser, away, other_entity(r));
        assert(without(after, r) =~= merged_tables(without(db, r), row));
    }
}

/// The tables with a merge, and its loser pointed at its winner.
pub open spec fn merged_tables(db: TablesView, row: EntityMergeView) -> TablesView {
    TablesView {
        merges: or_ignore(db.merges, merge_has_id(row.id), row),
        entities: updated(db.entities, entity_has_id(row.loser), merged_away(row.winner)),
        ..db
    }
}

/// Retracting a statement keeps to its space.
proof fn lemma_retraction_parts(
    db: TablesView,
    statement: Seq<char>,
    now: Timestamp,
    home: spec_fn(Seq<char>) -> Seq<char>,
    s: Seq<char>,
)
    requires
        is_local(db, home),
    ensures
        ({
            let after = TablesView {
                assertions: updated(db.assertions, stands(statement), retracted(now)),
                ..db
            };
            let r = rows_of(home, s);
            let seen = without(db, r);
            &&& is_local(after, home)
            &&& without(after, r) == if home(statement) == s {
                seen
            } else {
                TablesView {
                    assertions: updated(seen.assertions, stands(statement), retracted(now)),
                    ..seen
                }
            }
        }),
{
    let after = TablesView {
        assertions: updated(db.assertions, stands(statement), retracted(now)),
        ..db
    };
    let r = rows_of(home, s);
    assert forall|i: int| 0 <= i < after.assertions.len() implies ({
        let a = #[trigger] after.assertions[i];
        &&& home(a.statement) == home(a.id)
        &&& some_where(after.statements, statement_has_id(a.statement))
    }) by {
        let b = db.assertions[i];
        assert(home(b.statement) == home(b.id));
    }
    assert forall|i: int| 0 <= i < after.mentions.len() implies ({
        let m = #[trigger] after.mentions[i];
        &&& home(m.assertion) == home(m.id)
        &&& some_where(after.assertions, assertion_has_id(m.assertion))
    }) by {
        let m = db.mentions[i];
        let p = assertion_has_id(m.assertion);
        let k = choose|k: int| 0 <= k < db.assertions.len() && p(#[trigger] db.assertions[k]);
        assert(p(after.assertions[k]));
    }
    if home(statement) == s {
        assert forall|i: int| 0 <= i < db.assertions.len() && stands(statement)(
            #[trigger] db.assertions[i],
        ) implies !other_assertion(r)(db.assertions[i]) by {}
        lemma_unseen_update(db.assertions, stands(statement), retracted(now), other_assertion(r));
        assert(without(after, r) =~= without(db, r));
    } else {
        lemma_updated_filter(
            db.assertions,
            stands(statement),
            retracted(now),
            other_assertion(r),
        );
    }
}

/// The statements of a group are of its space, and there.
pub proof fn lemma_group_members(
    db: TablesView,
    space: Seq<char>,
    subject: Seq<char>,
    predicate: Seq<char>,
)
    ensures
        forall|i: int|
            0 <= i < statement_group(db, space, subject, predicate).len() ==> {
                let st = (#[trigger] statement_group(db, space, subject, predicate)[i]).statement;
                db.statements.contains(st) && st.space == space && is_group_member(
                    space,
                    subject,
                    predicate,
                )(st)
            },
{
    let p = is_group_member(space, subject, predicate);
    let members = db.statements.filter(p);
    let entries = members.map_values(entry_for(db));
    let group = statement_group(db, space, subject, predicate);
    lemma_kept(db.statements, p);
    lemma_kept(entries, is_supported());
    assert forall|i: int| 0 <= i < group.len() implies ({
        let st = (#[trigger] group[i]).statement;
        db.statements.contains(st) && st.space == space && is_group_member(
                    space,
                    subject,
                    predicate,
                )(st)
    }) by {
        assert(entries.contains(group[i]));
        let k = choose|k: int| 0 <= k < entries.len() && entries[k] == group[i];
        assert(members[k] == group[i].statement);
        assert(p(members[k]));
    }
}

/// Whether some rows are none of a group: neither its statements nor assertions
/// of them.
pub open spec fn group_apart(
    db: TablesView,
    space: Seq<char>,
    subject: Seq<char>,
    predicate: Seq<char>,
    r: Rows,
) -> bool {
    forall|i: int|
        0 <= i < db.statements.len() && is_group_member(space, subject, predicate)(
            #[trigger] db.statements[i],
        ) ==> statement_apart(db, db.statements[i].id, r)
}

/// Whether some rows are neither a statement nor assertions of it.
pub open spec fn statement_apart(db: TablesView, id: Seq<char>, r: Rows) -> bool {
    &&& !(r.statements)(id)
    &&& forall|k: int|
        0 <= k < db.assertions.len() && (#[trigger] db.assertions[k]).statement == id
            ==> !(r.assertions)(db.assertions[k].id)
}

/// A group is read without the rows that are none of it.
pub proof fn lemma_group_apart(
    db: TablesView,
    space: Seq<char>,
    subject: Seq<char>,
    predicate: Seq<char>,
    r: Rows,
)
    requires
        group_apart(db, space, subject, predicate, r),
    ensures
        statement_group(without(db, r), space, subject, predicate) == statement_group(
            db,
            space,
            subject,
            predicate,
        ),
{
    let seen = without(db, r);
    let p = is_group_member(space, subject, predicate);
    assert forall|i: int| 0 <= i < db.statements.len() && p(
        #[trigger] db.statements[i],
    ) implies other_statement(r)(db.statements[i]) by {
        assert(statement_apart(db, db.statements[i].id, r));
    }
    lemma_filter_within(db.statements, other_statement(r), p);
    let members = db.statements.filter(p);
    lemma_kept(db.statements, p);
    assert forall|i: int| 0 <= i < members.len() implies entry_for(seen)(#[trigger] members[i])
        == entry_for(db)(members[i]) by {
        let st = members[i];
        assert(p(members[i]));
        assert(db.statements.contains(st));
        let j = choose|j: int| 0 <= j < db.statements.len() && db.statements[j] == st;
        assert(statement_apart(db, db.statements[j].id, r));
        let of = asserts(st.id);
        assert forall|k: int| 0 <= k < db.assertions.len() && of(
            #[trigger] db.assertions[k],
        ) implies other_assertion(r)(db.assertions[k]) by {}
        lemma_filter_within(db.assertions, other_assertion(r), of);
    }
    assert(members.map_values(entry_for(seen)) =~= members.map_values(entry_for(db)));
}

/// A group of one space is apart from the rows of another.
proof fn lemma_group_parts(
    db: TablesView,
    space: Seq<char>,
    subject: Seq<char>,
    predicate: Seq<char>,
    home: spec_fn(Seq<char>) -> Seq<char>,
    s: Seq<char>,
)
    requires
        is_local(db, home),
        space != s,
    ensures
        group_apart(db, space, subject, predicate, rows_of(home, s)),
        statement_group(without(db, rows_of(home, s)), space, subject, predicate)
            == statement_group(db, space, subject, predicate),
{
    let r = rows_of(home, s);
    assert forall|i: int|
        0 <= i < db.statements.len() && is_group_member(space, subject, predicate)(
            #[trigger] db.statements[i],
        ) implies statement_apart(db, db.statements[i].id, r) by {
        let id = db.statements[i].id;
        assert(home(id) == space);
        assert forall|k: int|
            0 <= k < db.assertions.len() && (#[trigger] db.assertions[k]).statement
                == id implies !(r.assertions)(db.assertions[k].id) by {}
    }
    lemma_group_apart(db, space, subject, predicate, r);
}

/// Putting beliefs in, seen without some rows that all or none of them are among.
proof fn lemma_put_beliefs_apart(
    beliefs: Seq<BeliefView>,
    new: Seq<BeliefView>,
    r: Rows,
    own: bool,
)
    requires
        forall|i: int| 0 <= i < new.len() ==> (r.statements)((#[trigger] new[i]).statement) == own,
    ensures
        ({
            let q = other_belief(r);
            put_beliefs(beliefs, new).filter(q) == if own {
                beliefs.filter(q)
            } else {
                put_beliefs(beliefs.filter(q), new)
            }
        }),
    decreases new.len(),
{
    let q = other_belief(r);
    if new.len() > 0 {
        let init = new.drop_last();
        let b = new.last();
        assert(b == new[new.len() - 1]);
        assert forall|i: int| 0 <= i < init.len() implies (r.statements)(
            (#[trigger] init[i]).statement,
        ) == own by {
            assert(init[i] == new[i]);
        }
        lemma_put_beliefs_apart(beliefs, init, r, own);
        let before = put_beliefs(beliefs, init);
        let gone = |x: BeliefView| !is_belief_at(b)(x);
        assert(or_replace(before, is_belief_at(b), b) == before.filter(gone).push(b));
        before.filter(gone).lemma_filter_push(b, q);
        lemma_filters_commute(before, gone, q);
        if own {
            let seen = before.filter(q);
            lemma_kept(before, q);
            assert forall|i: int| 0 <= i < seen.len() implies gone(#[trigger] seen[i]) by {
                assert(q(seen[i]));
            }
            lemma_all_kept(seen, gone);
        } else {
            let seen = put_beliefs(beliefs.filter(q), init);
            assert(or_replace(seen, is_belief_at(b), b) == seen.filter(gone).push(b));
        }
    }
}

/// Whether the statements of groups are all among some rows, or none of them is.
pub open spec fn groups_side(refolds: Seq<RefoldView>, r: Rows, own: bool) -> bool {
    forall|j: int, i: int|
        0 <= j < refolds.len() && 0 <= i < refolds[j].group.len() ==> (r.statements)(
            (#[trigger] refolds[j].group[i]).statement.id,
        ) == own
}

/// Folding groups, seen without some rows.
pub proof fn lemma_folds_apart(
    db: TablesView,
    refolds: Seq<RefoldView>,
    o: Outside,
    r: Rows,
    own: bool,
)
    requires
        folds_its_group(o),
        groups_side(refolds, r, own),
    ensures
        without(after_folds(db, refolds, o), r) == if own {
            without(db, r)
        } else {
            after_folds(without(db, r), refolds, o)
        },
    decreases refolds.len(),
{
    let q = other_belief(r);
    if refolds.len() == 0 {
        assert(after_folds(db, refolds, o) =~= db);
        assert(after_folds(without(db, r), refolds, o) =~= without(db, r));
    } else {
        let init = refolds.drop_last();
        let last = refolds.last();
        let n = refolds.len() - 1;
        assert forall|j: int, i: int|
            0 <= j < init.len() && 0 <= i < init[j].group.len() implies (r.statements)(
            (#[trigger] init[j].group[i]).statement.id,
        ) == own by {
            assert((r.statements)(refolds[j].group[i].statement.id) == own);
        }
        lemma_folds_apart(db, init, o, r, own);
        let before = after_folds(db, init, o);
        let after = after_folds(db, refolds, o);
        let folds = refolds.map_values(o.fold);
        assert(folds.drop_last() =~= init.map_values(o.fold));
        let ids = group_ids(last.group);
        let new = (o.fold)(last);
        assert(folds.last() == new);
        assert(after.beliefs == replaced_beliefs(before.beliefs, ids, new));
        assert forall|i: int| 0 <= i < ids.len() implies (r.statements)(#[trigger] ids[i])
            == own by {
            assert(ids[i] == refolds[n].group[i].statement.id);
        }
        assert forall|i: int| 0 <= i < new.len() implies (r.statements)(
            (#[trigger] new[i]).statement,
        ) == own by {
            assert(ids.contains((o.fold)(last)[i].statement));
            let k = choose|k: int| 0 <= k < ids.len() && ids[k] == new[i].statement;
            assert((r.statements)(ids[k]) == own);
        }
        let gone = |b: BeliefView| !believes_any(ids)(b);
        let left = before.beliefs.filter(gone);
        lemma_put_beliefs_apart(left, new, r, own);
        lemma_filters_commute(before.beliefs, gone, q);
        if own {
            let seen = before.beliefs.filter(q);
            lemma_kept(before.beliefs, q);
            assert forall|i: int| 0 <= i < seen.len() implies gone(#[trigger] seen[i]) by {
                assert(q(seen[i]));
                if ids.contains(seen[i].statement) {
                    let k = choose|k: int| 0 <= k < ids.len() && ids[k] == seen[i].statement;
                    assert((r.statements)(ids[k]) == own);
                }
            }
            lemma_all_kept(seen, gone);
            assert(without(after, r) =~= without(db, r));
        } else {
            let seen = without(db, r);
            assert(after_folds(seen, refolds, o).beliefs == replaced_beliefs(
                after_folds(seen, init, o).beliefs,
                ids,
                new,
            ));
            assert(without(after, r) =~= after_folds(seen, refolds, o));
        }
    }
}

/// Whether groups are of one space, and their statements there.
pub open spec fn groups_at_home(
    db: TablesView,
    refolds: Seq<RefoldView>,
    space: Seq<char>,
    home: spec_fn(Seq<char>) -> Seq<char>,
) -> bool {
    forall|j: int, i: int|
        0 <= j < refolds.len() && 0 <= i < refolds[j].group.len() ==> {
            let id = (#[trigger] refolds[j].group[i]).statement.id;
            home(id) == space && some_where(db.statements, statement_has_id(id))
        }
}

/// Folding groups of one space keeps to it.
proof fn lemma_folds_parts(
    db: TablesView,
    refolds: Seq<RefoldView>,
    o: Outside,
    space: Seq<char>,
    home: spec_fn(Seq<char>) -> Seq<char>,
    s: Seq<char>,
)
    requires
        is_local(db, home),
        names_at_home(o, home),
        groups_at_home(db, refolds, space, home),
    ensures
        ({
            let after = after_folds(db, refolds, o);
            let r = rows_of(home, s);
            &&& is_local(after, home)
            &&& without(after, r) == if space == s {
                without(db, r)
            } else {
                after_folds(without(db, r), refolds, o)
            }
        }),
    decreases refolds.len(),
{
    let r = rows_of(home, s);
    assert forall|j: int, i: int|
        0 <= j < refolds.len() && 0 <= i < refolds[j].group.len() implies (r.statements)(
        (#[trigger] refolds[j].group[i]).statement.id,
    ) == (space == s) by {
        assert(home(refolds[j].group[i].statement.id) == space);
    }
    lemma_folds_apart(db, refolds, o, r, space == s);
    if refolds.len() == 0 {
        assert(after_folds(db, refolds, o) =~= db);
    } else {
        let init = refolds.drop_last();
        let last = refolds.last();
        let n = refolds.len() - 1;
        assert forall|j: int, i: int|
            0 <= j < init.len() && 0 <= i < init[j].group.len() implies ({
            let id = (#[trigger] init[j].group[i]).statement.id;
            home(id) == space && some_where(db.statements, statement_has_id(id))
        }) by {
            let id = refolds[j].group[i].statement.id;
            assert(home(id) == space);
        }
        lemma_folds_parts(db, init, o, space, home, s);
        let before = after_folds(db, init, o);
        let after = after_folds(db, refolds, o);
        let folds = refolds.map_values(o.fold);
        assert(folds.drop_last() =~= init.map_values(o.fold));
        let ids = group_ids(last.group);
        let new = (o.fold)(last);
        assert(folds.last() == new);
        assert(after.beliefs == replaced_beliefs(before.beliefs, ids, new));
        assert forall|i: int| 0 <= i < ids.len() implies home(#[trigger] ids[i]) == space
            && some_where(db.statements, statement_has_id(ids[i])) by {
            let id = refolds[n].group[i].statement.id;
            assert(ids[i] == id);
        }
        assert forall|i: int| 0 <= i < new.len() implies home((#[trigger] new[i]).statement)
            == space && some_where(db.statements, statement_has_id(new[i].statement)) by {
            assert(ids.contains((o.fold)(last)[i].statement));
            let k = choose|k: int| 0 <= k < ids.len() && ids[k] == new[i].statement;
            assert(home(ids[k]) == space);
        }
        let gone = |b: BeliefView| !believes_any(ids)(b);
        let left = before.beliefs.filter(gone);
        lemma_kept(before.beliefs, gone);
        lemma_put_members(left, new);
        assert forall|i: int| 0 <= i < after.beliefs.len() implies some_where(
            after.statements,
            statement_has_id((#[trigger] after.beliefs[i]).statement),
        ) by {
            let b = after.beliefs[i];
            if left.contains(b) {
                assert(before.beliefs.contains(b));
                let k = choose|k: int| 0 <= k < before.beliefs.len() && before.beliefs[k] == b;
                assert(some_where(before.statements, statement_has_id(before.beliefs[k].statement)));
            } else {
                assert(new.contains(b));
                let k = choose|k: int| 0 <= k < new.len() && new[k] == b;
                assert(home(new[k].statement) == space);
            }
        }
        assert(is_local(after, home));
    }
}

/// Beliefs that were put in are old or new.
proof fn lemma_put_members(beliefs: Seq<BeliefView>, new: Seq<BeliefView>)
    ensures
        forall|i: int|
            0 <= i < put_beliefs(beliefs, new).len() ==> beliefs.contains(
                #[trigger] put_beliefs(beliefs, new)[i],
            ) || new.contains(put_beliefs(beliefs, new)[i]),
    decreases new.len(),
{
    let all = put_beliefs(beliefs, new);
    if new.len() == 0 {
        assert forall|i: int| 0 <= i < all.len() implies beliefs.contains(#[trigger] all[i]) by {}
    } else {
        let init = new.drop_last();
        let b = new.last();
        lemma_put_members(beliefs, init);
        let before = put_beliefs(beliefs, init);
        let gone = |x: BeliefView| !is_belief_at(b)(x);
        assert(all == before.filter(gone).push(b));
        lemma_kept(before, gone);
        assert forall|i: int| 0 <= i < all.len() implies beliefs.contains(#[trigger] all[i])
            || new.contains(all[i]) by {
            if i < before.filter(gone).len() {
                let x = before.filter(gone)[i];
                assert(before.contains(x));
                let k = choose|k: int| 0 <= k < before.len() && before[k] == x;
                if init.contains(before[k]) {
                    let j = choose|j: int| 0 <= j < init.len() && init[j] == x;
                    assert(new[j] == x);
                }
            } else {
                assert(new[new.len() - 1] == b);
            }
        }
    }
}

/// Resolving both sides of a declaration keeps to its space.
proof fn lemma_sides_parts(
    db: TablesView,
    run: DeclarationRunView,
    o: Outside,
    home: spec_fn(Seq<char>) -> Seq<char>,
    s: Seq<char>,
)
    requires
        is_local(db, home),
        names_at_home(o, home),
        resolved_sides(db, run, o) is Some,
    ensures
        ({
            let (db2, both) = resolved_sides(db, run, o)->Some_0;
            let r = rows_of(home, s);
            &&& is_local(db2, home)
            &&& both.first.run == run
            &&& home(both.first.entity) == run.space
            &&& other_at_home(both.other, run.space, home)
            &&& some_where(db2.entities, entity_has_id(both.first.entity))
            &&& both.other matches OtherSideView::Entity { id, .. } ==> some_where(
                db2.entities,
                entity_has_id(id),
            )
            &&& run.space == s ==> without(db2, r) == without(db, r)
            &&& run.space != s ==> resolved_sides(without(db, r), run, o) == Some(
                (without(db2, r), both),
            )
        }),
{
    let r = rows_of(home, s);
    let subject = run.decl.first_entity();
    lemma_question_parts(db, run.space, subject, run.episode, 0, home, s, o);
    let res = (o.resolve)(resolve_question(db, run.space, subject, run.episode, 0));
    lemma_resolution_parts(db, run.space, subject, res, run.now, home, s);
    let db1 = with_resolution(db, run.space, subject, res, run.now);
    match run.decl.other_side() {
        DeclObjectView::Entity { surface, ty } => {
            let eref = EntityRefView { surface, ty };
            let span = run.decl.other_span();
            lemma_question_parts(db1, run.space, eref, run.episode, span, home, s, o);
            let other = (o.resolve)(resolve_question(db1, run.space, eref, run.episode, span));
            lemma_resolution_parts(db1, run.space, eref, other, run.now, home, s);
            assert(some_where(db1.entities, entity_has_id(res.entity())));
        },
        DeclObjectView::Literal { literal_type, value } => {},
    }
}

/// The group of a subject and predicate is at home.
proof fn lemma_refold_at_home(
    db: TablesView,
    refold: RefoldView,
    space: Seq<char>,
    subject: Seq<char>,
    predicate: Seq<char>,
    home: spec_fn(Seq<char>) -> Seq<char>,
)
    requires
        is_local(db, home),
        refold.group == statement_group(db, space, subject, predicate),
    ensures
        groups_at_home(db, seq![refold], space, home),
{
    lemma_group_members(db, space, subject, predicate);
    let one = seq![refold];
    assert forall|j: int, i: int| 0 <= j < one.len() && 0 <= i < one[j].group.len() implies ({
        let id = (#[trigger] one[j].group[i]).statement.id;
        home(id) == space && some_where(db.statements, statement_has_id(id))
    }) by {
        let st = statement_group(db, space, subject, predicate)[i].statement;
        assert(db.statements.contains(st) && st.space == space);
        let k = choose|k: int| 0 <= k < db.statements.len() && db.statements[k] == st;
        assert(home(db.statements[k].id) == db.statements[k].space);
        assert(statement_has_id(st.id)(db.statements[k]));
    }
}

/// Projecting a declaration keeps to its space.
pub proof fn lemma_projected_parts(
    db: TablesView,
    run: DeclarationRunView,
    o: Outside,
    home: spec_fn(Seq<char>) -> Seq<char>,
    s: Seq<char>,
)
    requires
        is_local(db, home),
        names_at_home(o, home),
        projected(db, run, o) is Some,
    ensures
        ({
            let after = projected(db, run, o)->Some_0;
            let r = rows_of(home, s);
            &&& is_local(after, home)
            &&& run.space == s ==> without(after, r) == without(db, r)
            &&& run.space != s ==> projected(without(db, r), run, o) == Some(without(after, r))
        }),
{
    let r = rows_of(home, s);
    let seen = without(db, r);
    lemma_sides_parts(db, run, o, home, s);
    let (db2, both) = resolved_sides(db, run, o)->Some_0;
    let names = (o.name)(both);
    let named = after_naming(db2, both, names);
    let seen2 = without(db2, r);
    match run.decl {
        DeclarationView::AddStatement {
            subject,
            predicate,
            object,
            polarity,
            valid_from,
            valid_to,
        } => {
            let plan = declared_plan(
                both,
                predicate,
                polarity_of(polarity)->Some_0,
                valid_from,
                valid_to,
                names,
            );
            lemma_plan_parts(db2, plan, run.space, home, s);
        },
        DeclarationView::Merge { loser, winner } => {
            let row = EntityMergeView {
                id: names.merge,
                loser: both.first.entity,
                winner: both.other->Entity_id,
                decided_by: MergeDecisionView::User,
                provenance: run.episode,
                decided_at: run.now,
                undone_at: None,
            };
            lemma_merge_parts(db2, row, run.space, home, s);
            assert(named =~= merged_tables(db2, row));
            assert(after_naming(seen2, both, names) =~= merged_tables(seen2, row));
        },
        DeclarationView::Retract { subject, predicate, object, episode } => {
            lemma_retraction_parts(db2, names.statement, run.now, home, s);
        },
    }
    assert(is_local(named, home));
    assert(run.space == s ==> without(named, r) == seen);
    assert(run.space != s ==> without(named, r) == after_naming(seen2, both, names));
    if let Some((predicate, needed)) = folded_predicate(run.decl) {
        let subject = both.first.entity;
        if let Some(refold) = refold_of(named, run.space, subject, predicate, run.now) {
            lemma_refold_at_home(named, refold, run.space, subject, predicate, home);
            lemma_folds_parts(named, seq![refold], o, run.space, home, s);
        }
        if run.space != s {
            lemma_group_parts(named, run.space, subject, predicate, home, s);
            assert(refold_of(without(named, r), run.space, subject, predicate, run.now)
                == refold_of(named, run.space, subject, predicate, run.now));
        }
    }
}

/// Projecting a claim keeps to its space.
proof fn lemma_claim_parts(
    db: TablesView,
    run: ClaimRunView,
    o: Outside,
    home: spec_fn(Seq<char>) -> Seq<char>,
    s: Seq<char>,
)
    requires
        is_local(db, home),
        names_at_home(o, home),
        claimed_one(db, run, o) is Some,
    ensures
        ({
            let after = claimed_one(db, run, o)->Some_0;
            let r = rows_of(home, s);
            &&& is_local(after, home)
            &&& run.space == s ==> without(after, r) == without(db, r)
            &&& run.space != s ==> claimed_one(without(db, r), run, o) == Some(without(after, r))
        }),
{
    let r = rows_of(home, s);
    let seen = without(db, r);
    let eref = mention_ref(run.claim.subject);
    let span = run.claim.subject.span_start;
    lemma_question_parts(db, run.space, eref, run.episode, span, home, s, o);
    let res = (o.resolve)(resolve_question(db, run.space, eref, run.episode, span));
    lemma_resolution_parts(db, run.space, eref, res, run.now, home, s);
    let db1 = with_resolution(db, run.space, eref, res, run.now);
    match run.claim.object {
        ClaimObjectView::Entity { mention } => {
            let oref = mention_ref(mention);
            let at = mention.span_start;
            lemma_question_parts(db1, run.space, oref, run.episode, at, home, s, o);
            let other = (o.resolve)(resolve_question(db1, run.space, oref, run.episode, at));
            lemma_resolution_parts(db1, run.space, oref, other, run.now, home, s);
        },
        ClaimObjectView::Literal { literal_type, value } => {},
    }
    let (db2, both) = claim_sides(db, run, o)->Some_0;
    let seen2 = without(db2, r);
    assert(is_local(db2, home));
    assert(run.space == s ==> seen2 == seen);
    assert(run.space != s ==> claim_sides(seen, run, o) == Some((seen2, both)));
    let plan = claimed_plan(both, (o.name_claim)(both));
    lemma_plan_parts(db2, plan, run.space, home, s);
    let named = with_assertion(db2, plan);
    let subject = both.subject.entity;
    let predicate = run.claim.predicate;
    if let Some(refold) = refold_of(named, run.space, subject, predicate, run.now) {
        lemma_refold_at_home(named, refold, run.space, subject, predicate, home);
        lemma_folds_parts(named, seq![refold], o, run.space, home, s);
    }
    if run.space != s {
        lemma_group_parts(named, run.space, subject, predicate, home, s);
        assert(refold_of(without(named, r), run.space, subject, predicate, run.now) == refold_of(
            named,
            run.space,
            subject,
            predicate,
            run.now,
        ));
    }
}

/// Projecting the claims of a response keeps to its space.
pub proof fn lemma_claims_parts(
    db: TablesView,
    x: Extracted,
    claims: Seq<ClaimView>,
    o: Outside,
    home: spec_fn(Seq<char>) -> Seq<char>,
    s: Seq<char>,
)
    requires
        is_local(db, home),
        names_at_home(o, home),
        claimed_all(db, x, claims, o) is Some,
    ensures
        ({
            let after = claimed_all(db, x, claims, o)->Some_0;
            let r = rows_of(home, s);
            &&& is_local(after, home)
            &&& x.space == s ==> without(after, r) == without(db, r)
            &&& x.space != s ==> claimed_all(without(db, r), x, claims, o) == Some(
                without(after, r),
            )
        }),
    decreases claims.len(),
{
    if claims.len() > 0 {
        lemma_claims_parts(db, x, claims.drop_last(), o, home, s);
        let before = claimed_all(db, x, claims.drop_last(), o)->Some_0;
        lemma_claim_parts(before, claim_run(x, claims.last()), o, home, s);
    }
}

/// What a selection keeps is found in it.
pub proof fn lemma_found_within<V>(s: Seq<V>, q: spec_fn(V) -> bool, p: spec_fn(V) -> bool)
    requires
        forall|i: int| 0 <= i < s.len() && p(#[trigger] s[i]) ==> q(s[i]),
    ensures
        some_where(s.filter(q), p) == some_where(s, p),
{
    lemma_kept(s, q);
    if some_where(s, p) {
        let i = choose|i: int| 0 <= i < s.len() && p(#[trigger] s[i]);
        s.lemma_filter_contains(q, i);
        assert(s.filter(q).contains(s[i]));
        let k = choose|k: int| 0 <= k < s.filter(q).len() && s.filter(q)[k] == s[i];
        assert(p(s.filter(q)[k]));
    }
    if some_where(s.filter(q), p) {
        let k = choose|k: int| 0 <= k < s.filter(q).len() && p(#[trigger] s.filter(q)[k]);
        assert(s.contains(s.filter(q)[k]));
        let i = choose|i: int| 0 <= i < s.len() && s[i] == s.filter(q)[k];
        assert(p(s[i]));
    }
}

/// Groups of a space are at home in it.
proof fn lemma_refolds_at_home(
    db: TablesView,
    space: Seq<char>,
    pairs: Seq<(Seq<char>, Seq<char>)>,
    at: Timestamp,
    home: spec_fn(Seq<char>) -> Seq<char>,
)
    requires
        is_local(db, home),
        refolds_for(db, space, pairs, at) is Ok,
    ensures
        groups_at_home(db, refolds_for(db, space, pairs, at)->Ok_0, space, home),
    decreases pairs.len(),
{
    if pairs.len() > 0 {
        lemma_refolds_at_home(db, space, pairs.drop_last(), at, home);
        let done = refolds_for(db, space, pairs.drop_last(), at)->Ok_0;
        let all = refolds_for(db, space, pairs, at)->Ok_0;
        let (subject, predicate) = pairs.last();
        if all.len() > done.len() {
            lemma_refold_at_home(db, all.last(), space, subject, predicate, home);
            let one = seq![all.last()];
            assert forall|j: int, i: int|
                0 <= j < all.len() && 0 <= i < all[j].group.len() implies ({
                let id = (#[trigger] all[j].group[i]).statement.id;
                home(id) == space && some_where(db.statements, statement_has_id(id))
            }) by {
                if j < done.len() {
                    assert(all[j] == done[j]);
                    let id = done[j].group[i].statement.id;
                    assert(home(id) == space);
                } else {
                    let id = one[0].group[i].statement.id;
                    assert(home(id) == space);
                }
            }
        }
    }
}

/// Groups are read without the rows that are none of them.
pub proof fn lemma_refolds_apart(
    db: TablesView,
    space: Seq<char>,
    pairs: Seq<(Seq<char>, Seq<char>)>,
    at: Timestamp,
    r: Rows,
)
    requires
        forall|i: int|
            0 <= i < pairs.len() ==> group_apart(
                db,
                space,
                (#[trigger] pairs[i]).0,
                pairs[i].1,
                r,
            ),
    ensures
        refolds_for(without(db, r), space, pairs, at) == refolds_for(db, space, pairs, at),
    decreases pairs.len(),
{
    if pairs.len() > 0 {
        let init = pairs.drop_last();
        assert forall|i: int| 0 <= i < init.len() implies group_apart(
            db,
            space,
            (#[trigger] init[i]).0,
            init[i].1,
            r,
        ) by {
            assert(init[i] == pairs[i]);
        }
        lemma_refolds_apart(db, space, init, at, r);
        assert(pairs.last() == pairs[pairs.len() - 1]);
        lemma_group_apart(db, space, pairs.last().0, pairs.last().1, r);
    }
}

/// Whether some rows are none of the statements that involve an entity, nor
/// assertions of them.
pub open spec fn entity_apart(
    db: TablesView,
    space: Seq<char>,
    entity: Seq<char>,
    predicate: Option<Seq<char>>,
    r: Rows,
) -> bool {
    forall|i: int|
        0 <= i < db.statements.len() && involves(space, entity, predicate)(
            #[trigger] db.statements[i],
        ) ==> statement_apart(db, db.statements[i].id, r)
}

/// Taking out what the redaction of an entity affects does the same to the rest
/// without rows that are none of it.
pub proof fn lemma_cut_apart(
    db: TablesView,
    space: Seq<char>,
    entity: Seq<char>,
    predicate: Option<Seq<char>>,
    r: Rows,
)
    requires
        entity_apart(db, space, entity, predicate, r),
    ensures
        ({
            let c = entity_closure(db, space, entity, predicate);
            let seen = without(db, r);
            let d = entity_closure(seen, space, entity, predicate);
            &&& d.assertions == c.assertions
            &&& without(without_closure(db, c), r) == without_closure(seen, d)
        }),
{
    let c = entity_closure(db, space, entity, predicate);
    let cut = without_closure(db, c);
    let seen = without(db, r);
    let d = entity_closure(seen, space, entity, predicate);
    let p = involves(space, entity, predicate);
    let rows = db.statements.filter(p);
    let sts = rows.map_values(statement_id_of());
    let any = asserts_any(sts);
    lemma_kept(db.statements, p);
    assert forall|i: int| 0 <= i < sts.len() implies statement_apart(db, #[trigger] sts[i], r) by {
        assert(p(rows[i]));
        assert(db.statements.contains(rows[i]));
        let j = choose|j: int| 0 <= j < db.statements.len() && db.statements[j] == rows[i];
        assert(p(db.statements[j]));
    }
    assert forall|i: int| 0 <= i < db.statements.len() && p(
        #[trigger] db.statements[i],
    ) implies other_statement(r)(db.statements[i]) by {
        assert(statement_apart(db, db.statements[i].id, r));
    }
    lemma_filter_within(db.statements, other_statement(r), p);
    assert forall|i: int| 0 <= i < db.assertions.len() && any(
        #[trigger] db.assertions[i],
    ) implies other_assertion(r)(db.assertions[i]) by {
        let a = db.assertions[i];
        let k = choose|k: int| 0 <= k < sts.len() && sts[k] == a.statement;
        assert(statement_apart(db, sts[k], r));
    }
    lemma_filter_within(db.assertions, other_assertion(r), any);
    assert(d.assertions == c.assertions);
    let lost = loses_all(db.assertions, c.assertions);
    let lost_seen = loses_all(seen.assertions, c.assertions);
    assert forall|i: int| 0 <= i < sts.len() implies lost_seen(#[trigger] sts[i]) == lost(
        sts[i],
    ) by {
        let st = sts[i];
        assert(statement_apart(db, sts[i], r));
        assert forall|k: int| 0 <= k < db.assertions.len() && asserts(st)(
            #[trigger] db.assertions[k],
        ) implies other_assertion(r)(db.assertions[k]) by {}
        lemma_found_within(db.assertions, other_assertion(r), asserts(st));
        let besides = asserted_besides(st, c.assertions);
        assert forall|k: int| 0 <= k < db.assertions.len() && besides(
            #[trigger] db.assertions[k],
        ) implies other_assertion(r)(db.assertions[k]) by {}
        lemma_found_within(db.assertions, other_assertion(r), besides);
    }
    lemma_same_filter(sts, lost_seen, lost);
    assert(d.statements == c.statements);
    lemma_filters_commute(
        db.mentions,
        |m: MentionView| !c.assertions.contains(m.assertion),
        other_mention(r),
    );
    lemma_filters_commute(
        db.assertions,
        |a: AssertionView| !c.assertions.contains(a.id),
        other_assertion(r),
    );
    lemma_filters_commute(
        db.beliefs,
        |b: BeliefView| !c.statements.contains(b.statement),
        other_belief(r),
    );
    lemma_filters_commute(
        db.statements,
        |x: StatementView| !c.statements.contains(x.id),
        other_statement(r),
    );
    assert(without(cut, r) =~= without_closure(seen, d));
}

/// Taking out what the redaction of an entity affects leaves the rest hanging
/// together, and keeps to the entity's space.
proof fn lemma_cut_parts(
    db: TablesView,
    space: Seq<char>,
    entity: Seq<char>,
    predicate: Option<Seq<char>>,
    home: spec_fn(Seq<char>) -> Seq<char>,
    s: Seq<char>,
)
    requires
        is_local(db, home),
    ensures
        ({
            let c = entity_closure(db, space, entity, predicate);
            let cut = without_closure(db, c);
            let r = rows_of(home, s);
            let seen = without(db, r);
            let d = entity_closure(seen, space, entity, predicate);
            &&& is_local(cut, home)
            &&& space == s ==> without(cut, r) == seen && d.assertions.len() == 0
            &&& space != s ==> d.assertions == c.assertions && without(cut, r) == without_closure(
                seen,
                d,
            )
        }),
{
    let c = entity_closure(db, space, entity, predicate);
    let cut = without_closure(db, c);
    let r = rows_of(home, s);
    let seen = without(db, r);
    let d = entity_closure(seen, space, entity, predicate);
    let p = involves(space, entity, predicate);
    let rows = db.statements.filter(p);
    let sts = rows.map_values(statement_id_of());
    let any = asserts_any(sts);
    lemma_kept(db.statements, p);
    lemma_kept(db.assertions, any);
    assert forall|i: int| 0 <= i < sts.len() implies home(#[trigger] sts[i]) == space by {
        assert(db.statements.contains(rows[i]));
        let j = choose|j: int| 0 <= j < db.statements.len() && db.statements[j] == rows[i];
        assert(home(db.statements[j].id) == db.statements[j].space);
        assert(p(rows[i]));
    }
    assert forall|id: Seq<char>| #[trigger] c.assertions.contains(id) implies home(id) == space by {
        let i = choose|i: int| 0 <= i < c.assertions.len() && c.assertions[i] == id;
        let a = db.assertions.filter(any)[i];
        assert(db.assertions.contains(a));
        let j = choose|j: int| 0 <= j < db.assertions.len() && db.assertions[j] == a;
        assert(home(db.assertions[j].statement) == home(db.assertions[j].id));
        assert(any(a));
        let k = choose|k: int| 0 <= k < sts.len() && sts[k] == a.statement;
        assert(home(sts[k]) == space);
    }
    let lost = loses_all(db.assertions, c.assertions);
    lemma_kept(sts, lost);
    assert forall|id: Seq<char>| #[trigger] c.statements.contains(id) implies home(id) == space
        && lost(id) by {
        let i = choose|i: int| 0 <= i < c.statements.len() && c.statements[i] == id;
        assert(sts.contains(c.statements[i]));
        let k = choose|k: int| 0 <= k < sts.len() && sts[k] == id;
        assert(home(sts[k]) == space);
    }
    let keep_m = |m: MentionView| !c.assertions.contains(m.assertion);
    let keep_a = |a: AssertionView| !c.assertions.contains(a.id);
    let keep_b = |b: BeliefView| !c.statements.contains(b.statement);
    let keep_s = |x: StatementView| !c.statements.contains(x.id);
    lemma_kept(db.mentions, keep_m);
    lemma_kept(db.assertions, keep_a);
    lemma_kept(db.beliefs, keep_b);
    lemma_kept(db.statements, keep_s);
    assert forall|i: int| 0 <= i < cut.assertions.len() implies ({
        let a = #[trigger] cut.assertions[i];
        &&& home(a.statement) == home(a.id)
        &&& some_where(cut.statements, statement_has_id(a.statement))
    }) by {
        let a = cut.assertions[i];
        assert(db.assertions.contains(a));
        let j = choose|j: int| 0 <= j < db.assertions.len() && db.assertions[j] == a;
        assert(home(db.assertions[j].statement) == home(db.assertions[j].id));
        assert(asserted_besides(a.statement, c.assertions)(db.assertions[j]));
        assert(!c.statements.contains(a.statement));
        lemma_found_within(db.statements, keep_s, statement_has_id(a.statement));
    }
    assert forall|i: int| 0 <= i < cut.mentions.len() implies ({
        let m = #[trigger] cut.mentions[i];
        &&& home(m.assertion) == home(m.id)
        &&& some_where(cut.assertions, assertion_has_id(m.assertion))
    }) by {
        let m = cut.mentions[i];
        assert(db.mentions.contains(m));
        let j = choose|j: int| 0 <= j < db.mentions.len() && db.mentions[j] == m;
        assert(home(db.mentions[j].assertion) == home(db.mentions[j].id));
        lemma_found_within(db.assertions, keep_a, assertion_has_id(m.assertion));
    }
    assert forall|i: int| 0 <= i < cut.beliefs.len() implies some_where(
        cut.statements,
        statement_has_id((#[trigger] cut.beliefs[i]).statement),
    ) by {
        let b = cut.beliefs[i];
        assert(db.beliefs.contains(b));
        let j = choose|j: int| 0 <= j < db.beliefs.len() && db.beliefs[j] == b;
        assert(some_where(db.statements, statement_has_id(db.beliefs[j].statement)));
        lemma_found_within(db.statements, keep_s, statement_has_id(b.statement));
    }
    assert forall|i: int| 0 <= i < cut.statements.len() implies home(
        (#[trigger] cut.statements[i]).id,
    ) == cut.statements[i].space by {
        let x = cut.statements[i];
        assert(db.statements.contains(x));
        let j = choose|j: int| 0 <= j < db.statements.len() && db.statements[j] == x;
        assert(home(db.statements[j].id) == db.statements[j].space);
    }
    assert(is_local(cut, home));
    if space == s {
        lemma_filter_within(db.mentions, keep_m, other_mention(r));
        lemma_filter_within(db.assertions, keep_a, other_assertion(r));
        lemma_filter_within(db.beliefs, keep_b, other_belief(r));
        lemma_filter_within(db.statements, keep_s, other_statement(r));
        assert(without(cut, r) =~= seen);
        lemma_kept(db.statements, other_statement(r));
        assert forall|i: int| 0 <= i < seen.statements.len() implies !p(
            #[trigger] seen.statements[i],
        ) by {
            let x = seen.statements[i];
            assert(db.statements.contains(x));
            let j = choose|j: int| 0 <= j < db.statements.len() && db.statements[j] == x;
            assert(home(db.statements[j].id) == db.statements[j].space);
            assert(other_statement(r)(x));
        }
        lemma_none_kept(seen.statements, p);
        let none = seen.statements.filter(p).map_values(statement_id_of());
        assert(none.len() == 0);
        assert forall|i: int| 0 <= i < seen.assertions.len() implies !asserts_any(none)(
            #[trigger] seen.assertions[i],
        ) by {}
        lemma_none_kept(seen.assertions, asserts_any(none));
    } else {
        assert forall|i: int| 0 <= i < db.statements.len() && p(
            #[trigger] db.statements[i],
        ) implies statement_apart(db, db.statements[i].id, r) by {
            let id = db.statements[i].id;
            assert(home(id) == space);
            assert forall|k: int|
                0 <= k < db.assertions.len() && (#[trigger] db.assertions[k]).statement
                    == id implies !(r.assertions)(db.assertions[k].id) by {}
        }
        lemma_cut_apart(db, space, entity, predicate, r);
    }
}

/// Replaying the redaction of an entity keeps to the entity's space; where the
/// rows of the space are gone, it does nothing.
pub proof fn lemma_unredacted_parts(
    db: TablesView,
    space: Seq<char>,
    entity: Seq<char>,
    predicate: Option<Seq<char>>,
    at: Timestamp,
    o: Outside,
    home: spec_fn(Seq<char>) -> Seq<char>,
    s: Seq<char>,
)
    requires
        is_local(db, home),
        names_at_home(o, home),
        unredacted(db, scoped(space, entity, predicate), at, o) is Some,
    ensures
        ({
            let t = scoped(space, entity, predicate);
            let after = unredacted(db, t, at, o)->Some_0;
            let r = rows_of(home, s);
            &&& is_local(after, home)
            &&& space == s ==> without(after, r) == without(db, r)
            &&& unredacted(without(db, r), t, at, o) == Some(without(after, r))
        }),
{
    let t = scoped(space, entity, predicate);
    let r = rows_of(home, s);
    let seen = without(db, r);
    let c = entity_closure(db, space, entity, predicate);
    assert(closure_of(db, t) == c);
    assert(closure_of(seen, t) == entity_closure(seen, space, entity, predicate));
    let none = Seq::<RefoldView>::empty();
    assert(after_folds(db, none, o) =~= db);
    assert(after_folds(seen, none, o) =~= seen);
    lemma_cut_parts(db, space, entity, predicate, home, s);
    if c.assertions.len() > 0 {
        let cut = without_closure(db, c);
        let (_, pairs) = groups_to_refold(cut, t);
        assert(groups_to_refold(cut, t).0 == space);
        let refolds = refolds_for(cut, space, pairs, at)->Ok_0;
        lemma_refolds_at_home(cut, space, pairs, at, home);
        lemma_folds_parts(cut, refolds, o, space, home, s);
        if space != s {
            let p = involves(space, entity, predicate);
            assert forall|i: int| 0 <= i < cut.statements.len() && p(
                #[trigger] cut.statements[i],
            ) implies other_statement(r)(cut.statements[i]) by {}
            lemma_filter_within(cut.statements, other_statement(r), p);
            assert(groups_to_refold(without(cut, r), t) == groups_to_refold(cut, t));
            assert forall|i: int| 0 <= i < pairs.len() implies group_apart(
                cut,
                space,
                (#[trigger] pairs[i]).0,
                pairs[i].1,
                r,
            ) by {
                lemma_group_parts(cut, space, pairs[i].0, pairs[i].1, home, s);
            }
            lemma_refolds_apart(cut, space, pairs, at, r);
        }
    }
}

} // verus!
