//! Read queries: beliefs, contradictions, counts, graph edges, and the
//! candidates of a hybrid search with the facts that ranking needs.
//!
//! Searching the full-text and vector indexes, walking the graph and the final
//! ranking happen outside; what they find comes in, and what they need goes
//! out, as plain values.
use vstd::prelude::*;

use crate::communities::{community_members, members_of, sorted_texts};
use crate::documents::EMBEDDING_DIM;
use crate::error::{fails_with, BrainError, BrainErrorView};
use crate::explain::by_latest_validity;
use crate::json::{json_parsed, parse_json, text_member, Json};
use crate::knowledge::{asserts, beliefs_of, believes, get_beliefs_for_statement, is_live_in};
use crate::ledger::episode_in;
use crate::parse::{split_first, split_once};
use crate::redaction::{statement_id_of, statement_in, unique_texts};
use crate::rows::{
    count, distinct, find, first_where, holds, map_rows, order, ordered, pick, select, some_where,
    Row,
};
use crate::tables::{
    Assertion, AssertionView, Belief, BeliefView, Entity, EntityKey, EntityKeyView, EntityView,
    EpisodeRow, EpisodeRowView, Mention, MentionRole, MentionView, Object, ObjectView, Statement,
    StatementView, Tables, TablesView,
};
use crate::text::{by_text, cat4, match_query, nat_text, phrases, show_u64, str_eq, words};
use crate::time::{TIME_MAX, TIME_MIN, Timestamp};
use crate::timeline::is_about;

verus! {

/// What a search finds.
#[derive(Debug)]
pub enum TargetId {
    Episode { id: String },
    Statement { id: String },
    Entity { id: String },
}

/// [`TargetId`] as a mathematical value.
#[verifier::ext_equal]
pub enum TargetIdView {
    Episode { id: Seq<char> },
    Statement { id: Seq<char> },
    Entity { id: Seq<char> },
}

impl DeepView for TargetId {
    type V = TargetIdView;

    open spec fn deep_view(&self) -> TargetIdView {
        match self {
            TargetId::Episode { id } => TargetIdView::Episode { id: id@ },
            TargetId::Statement { id } => TargetIdView::Statement { id: id@ },
            TargetId::Entity { id } => TargetIdView::Entity { id: id@ },
        }
    }
}

impl Row for TargetId {
    fn dup(&self) -> (r: Self) {
        match self {
            TargetId::Episode { id } => TargetId::Episode { id: id.clone() },
            TargetId::Statement { id } => TargetId::Statement { id: id.clone() },
            TargetId::Entity { id } => TargetId::Entity { id: id.clone() },
        }
    }
}

impl Clone for TargetId {
    fn clone(&self) -> (r: Self)
        ensures
            r.deep_view() == self.deep_view(),
    {
        self.dup()
    }
}

/// How a query searches.
#[derive(Debug, Clone, Copy, PartialEq, Eq, Structural)]
pub enum QueryMode {
    Hybrid,
    Lexical,
    LexicalVector,
    Dense,
    Graph,
    Community,
}

/// Which full-text index to search.
#[derive(Debug, Clone, Copy, PartialEq, Eq, Structural)]
pub enum FtsIndex {
    Word,
    Ngram,
}

/// Something that was found, with its score as the bit pattern of a
/// double-precision number.
#[derive(Debug)]
pub struct SearchHit {
    pub target: TargetId,
    pub score: u64,
}

/// [`SearchHit`] as a mathematical value.
#[verifier::ext_equal]
pub struct SearchHitView {
    pub target: TargetIdView,
    pub score: u64,
}

impl DeepView for SearchHit {
    type V = SearchHitView;

    open spec fn deep_view(&self) -> SearchHitView {
        SearchHitView {
            target: self.target.deep_view(),
            score: self.score,
        }
    }
}

impl Row for SearchHit {
    fn dup(&self) -> (r: Self) {
        SearchHit {
            target: self.target.dup(),
            score: self.score,
        }
    }
}

impl Clone for SearchHit {
    fn clone(&self) -> (r: Self)
        ensures
            r.deep_view() == self.deep_view(),
    {
        self.dup()
    }
}

/// An edge of the entity graph, and the statement it comes from.
#[derive(Debug)]
pub struct Edge {
    pub subject: String,
    pub object: String,
    pub predicate: String,
    pub statement: String,
}

/// [`Edge`] as a mathematical value.
#[verifier::ext_equal]
pub struct EdgeView {
    pub subject: Seq<char>,
    pub object: Seq<char>,
    pub predicate: Seq<char>,
    pub statement: Seq<char>,
}

impl DeepView for Edge {
    type V = EdgeView;

    open spec fn deep_view(&self) -> EdgeView {
        EdgeView {
            subject: self.subject@,
            object: self.object@,
            predicate: self.predicate@,
            statement: self.statement@,
        }
    }
}

impl Row for Edge {
    fn dup(&self) -> (r: Self) {
        Edge {
            subject: self.subject.clone(),
            object: self.object.clone(),
            predicate: self.predicate.clone(),
            statement: self.statement.clone(),
        }
    }
}

impl Clone for Edge {
    fn clone(&self) -> (r: Self)
        ensures
            r.deep_view() == self.deep_view(),
    {
        self.dup()
    }
}

/// An entity that a traversal reached.
/// 
/// `salience` holds the bit pattern of a double-precision number.
#[derive(Debug)]
pub struct TraversalNode {
    pub entity: String,
    pub depth: u32,
    pub salience: u64,
}

/// [`TraversalNode`] as a mathematical value.
#[verifier::ext_equal]
pub struct TraversalNodeView {
    pub entity: Seq<char>,
    pub depth: u32,
    pub salience: u64,
}

impl DeepView for TraversalNode {
    type V = TraversalNodeView;

    open spec fn deep_view(&self) -> TraversalNodeView {
        TraversalNodeView {
            entity: self.entity@,
            depth: self.depth,
            salience: self.salience,
        }
    }
}

impl Row for TraversalNode {
    fn dup(&self) -> (r: Self) {
        TraversalNode {
            entity: self.entity.clone(),
            depth: self.depth,
            salience: self.salience,
        }
    }
}

impl Clone for TraversalNode {
    fn clone(&self) -> (r: Self)
        ensures
            r.deep_view() == self.deep_view(),
    {
        self.dup()
    }
}

/// What ranking needs to know of a target.
/// 
/// `confidence` and `salience` hold bit patterns of numbers.
#[derive(Debug)]
pub struct TargetFacts {
    pub target: TargetId,
    pub confidence: u32,
    pub valid_from: Timestamp,
    pub valid_to: Timestamp,
    pub recorded_at: Timestamp,
    pub retracted_at: Option<Timestamp>,
    pub status: String,
    pub predicate: String,
    pub salience: u64,
    pub distinct_episodes: u32,
}

/// [`TargetFacts`] as a mathematical value.
#[verifier::ext_equal]
pub struct TargetFactsView {
    pub target: TargetIdView,
    pub confidence: u32,
    pub valid_from: Timestamp,
    pub valid_to: Timestamp,
    pub recorded_at: Timestamp,
    pub retracted_at: Option<Timestamp>,
    pub status: Seq<char>,
    pub predicate: Seq<char>,
    pub salience: u64,
    pub distinct_episodes: u32,
}

impl DeepView for TargetFacts {
    type V = TargetFactsView;

    open spec fn deep_view(&self) -> TargetFactsView {
        TargetFactsView {
            target: self.target.deep_view(),
            confidence: self.confidence,
            valid_from: self.valid_from,
            valid_to: self.valid_to,
            recorded_at: self.recorded_at,
            retracted_at: self.retracted_at,
            status: self.status@,
            predicate: self.predicate@,
            salience: self.salience,
            distinct_episodes: self.distinct_episodes,
        }
    }
}

impl Row for TargetFacts {
    fn dup(&self) -> (r: Self) {
        TargetFacts {
            target: self.target.dup(),
            confidence: self.confidence,
            valid_from: self.valid_from,
            valid_to: self.valid_to,
            recorded_at: self.recorded_at,
            retracted_at: self.retracted_at,
            status: self.status.clone(),
            predicate: self.predicate.clone(),
            salience: self.salience,
            distinct_episodes: self.distinct_episodes,
        }
    }
}

impl Clone for TargetFacts {
    fn clone(&self) -> (r: Self)
        ensures
            r.deep_view() == self.deep_view(),
    {
        self.dup()
    }
}

/// The entities that were merged into one of a group, in the order of the group
/// and then of the table.
pub open spec fn mergers(entities: Seq<EntityView>, group: Seq<Seq<char>>) -> Seq<Seq<char>>
    decreases group.len(),
{
    if group.len() == 0 {
        Seq::empty()
    } else {
        mergers(entities, group.drop_last()) + entities.filter(
            merged_into(group.last()),
        ).map_values(crate::knowledge::entity_id_of())
    }
}

/// Selects the entities that were merged into one.
pub open spec fn merged_into(winner: Seq<char>) -> spec_fn(EntityView) -> bool {
    |e: EntityView| e.merged_into == Some(winner)
}

/// Selects what is not in a group.
pub open spec fn is_outside(group: Seq<Seq<char>>) -> spec_fn(Seq<char>) -> bool {
    |id: Seq<char>| !group.contains(id)
}

/// The entities that a group gains in one round.
pub open spec fn newcomers(entities: Seq<EntityView>, group: Seq<Seq<char>>) -> Seq<Seq<char>> {
    distinct(mergers(entities, group).filter(is_outside(group)))
}

/// A group with everything that was merged into it, directly or through others,
/// round by round. All but its first member are ids of the table, so it ends.
pub open spec fn merge_group(entities: Seq<EntityView>, group: Seq<Seq<char>>) -> Seq<Seq<char>>
    decreases
            (if group.len() > entities.len() + 1 {
                0
            } else {
                entities.len() + 2 - group.len()
            }),
{
    let new = newcomers(entities, group);
    if new.len() == 0 || group.len() > entities.len() + 1 {
        group
    } else {
        merge_group(entities, group + new)
    }
}

/// Whether a group holds one entity first, and distinct ids of the table.
pub open spec fn is_group(entities: Seq<EntityView>, group: Seq<Seq<char>>) -> bool {
    &&& group.len() > 0
    &&& group.no_duplicates()
    &&& forall|i: int|
        1 <= i < group.len() ==> entities.map_values(
            crate::knowledge::entity_id_of(),
        ).contains(#[trigger] group[i])
}

proof fn lemma_mergers(entities: Seq<EntityView>, group: Seq<Seq<char>>, id: Seq<char>)
    ensures
        mergers(entities, group).contains(id) ==> entities.map_values(
            crate::knowledge::entity_id_of(),
        ).contains(id),
        mergers(entities, group).contains(id) <==> exists|k: int, m: int|
            0 <= k < entities.len() && 0 <= m < group.len() && (#[trigger] entities[k]).id == id
                && entities[k].merged_into == Some(#[trigger] group[m]),
    decreases group.len(),
{
    let ids = entities.map_values(crate::knowledge::entity_id_of());
    if group.len() > 0 {
        let init = group.drop_last();
        lemma_mergers(entities, init, id);
        let p = merged_into(group.last());
        let part = entities.filter(p);
        let got = part.map_values(crate::knowledge::entity_id_of());
        lemma_concat(mergers(entities, init), got, id);
        if got.contains(id) {
            let i = choose|i: int| 0 <= i < got.len() && got[i] == id;
            entities.lemma_filter_pred(p, i);
            assert(part.contains(part[i]));
            entities.lemma_filter_contains_rev(p, part[i]);
            let k = choose|k: int| 0 <= k < entities.len() && entities[k] == part[i];
            assert(ids[k] == id);
            let m = group.len() - 1;
            assert(entities[k].id == id && entities[k].merged_into == Some(group[m]));
        }
        if mergers(entities, init).contains(id) {
            let (k, m) = choose|k: int, m: int|
                0 <= k < entities.len() && 0 <= m < init.len() && (#[trigger] entities[k]).id == id
                    && entities[k].merged_into == Some(#[trigger] init[m]);
            assert(entities[k].merged_into == Some(group[m]));
        }
        if exists|k: int, m: int|
            0 <= k < entities.len() && 0 <= m < group.len() && (#[trigger] entities[k]).id == id
                && entities[k].merged_into == Some(#[trigger] group[m]) {
            let (k, m) = choose|k: int, m: int|
                0 <= k < entities.len() && 0 <= m < group.len() && (#[trigger] entities[k]).id
                    == id && entities[k].merged_into == Some(#[trigger] group[m]);
            if m < group.len() - 1 {
                assert(init[m] == group[m]);
            } else {
                entities.lemma_filter_contains(p, k);
                let i = choose|i: int| 0 <= i < part.len() && part[i] == entities[k];
                assert(got[i] == id);
            }
        }
    }
}

proof fn lemma_concat<V>(a: Seq<V>, b: Seq<V>, v: V)
    ensures
        (a + b).contains(v) <==> a.contains(v) || b.contains(v),
{
    if a.contains(v) {
        let i = choose|i: int| 0 <= i < a.len() && a[i] == v;
        assert((a + b)[i] == v);
    }
    if b.contains(v) {
        let i = choose|i: int| 0 <= i < b.len() && b[i] == v;
        assert((a + b)[a.len() + i] == v);
    }
    if (a + b).contains(v) {
        let i = choose|i: int| 0 <= i < (a + b).len() && (a + b)[i] == v;
        if i < a.len() {
            assert(a[i] == v);
        } else {
            assert(b[i - a.len()] == v);
        }
    }
}

proof fn lemma_kept_outside<V>(s: Seq<V>, q: spec_fn(V) -> bool, v: V)
    ensures
        s.filter(q).contains(v) <==> s.contains(v) && q(v),
{
    if s.filter(q).contains(v) {
        let i = choose|i: int| 0 <= i < s.filter(q).len() && s.filter(q)[i] == v;
        s.lemma_filter_pred(q, i);
        s.lemma_filter_contains_rev(q, v);
    }
    if s.contains(v) && q(v) {
        let i = choose|i: int| 0 <= i < s.len() && s[i] == v;
        s.lemma_filter_contains(q, i);
    }
}

proof fn lemma_newcomers(entities: Seq<EntityView>, group: Seq<Seq<char>>)
    ensures
        newcomers(entities, group).no_duplicates(),
        forall|id: Seq<char>| #[trigger]
            newcomers(entities, group).contains(id) <==> mergers(entities, group).contains(id)
                && !group.contains(id),
{
    let all = mergers(entities, group);
    let q = is_outside(group);
    crate::rows::lemma_distinct(all.filter(q));
    assert forall|id: Seq<char>| #[trigger]
        newcomers(entities, group).contains(id) <==> all.contains(id) && !group.contains(id) by {
        lemma_kept_outside(all, q, id);
    }
}

proof fn lemma_group_grows(entities: Seq<EntityView>, group: Seq<Seq<char>>)
    requires
        is_group(entities, group),
    ensures
        is_group(entities, group + newcomers(entities, group)),
        group.len() <= entities.len() + 1,
{
    let ids = entities.map_values(crate::knowledge::entity_id_of());
    let new = newcomers(entities, group);
    lemma_newcomers(entities, group);
    let grown = group + new;
    assert forall|i: int, j: int| 0 <= i < grown.len() && 0 <= j < grown.len() && i != j implies grown[i]
        != grown[j] by {
        if i < group.len() && j >= group.len() {
            assert(new.contains(new[j - group.len()]));
            assert(group.contains(group[i]));
        } else if i >= group.len() && j < group.len() {
            assert(new.contains(new[i - group.len()]));
            assert(group.contains(group[j]));
        }
    }
    assert forall|i: int| 1 <= i < grown.len() implies ids.contains(#[trigger] grown[i]) by {
        if i >= group.len() {
            assert(new.contains(new[i - group.len()]));
            lemma_mergers(entities, group, grown[i]);
        } else {
            assert(ids.contains(group[i]));
        }
    }
    let tail = group.drop_first();
    assert forall|i: int| 0 <= i < tail.len() implies ids.contains(#[trigger] tail[i]) by {
        assert(tail[i] == group[i + 1]);
    }
    crate::rows::lemma_distinct_within(tail, ids);
}

fn collect_newcomers(db: &Tables, group: &Vec<String>) -> (r: Vec<String>)
    ensures
        r.deep_view() == newcomers(db.deep_view().entities, group.deep_view()),
{
    let ghost entities = db.deep_view().entities;
    let ghost all = group.deep_view();
    let mut found: Vec<String> = Vec::new();
    let mut i: usize = 0;
    assert(all.take(0) =~= Seq::empty());
    assert(found.deep_view() =~= Seq::<Seq<char>>::empty());
    while i < group.len()
        invariant
            i <= group.len(),
            entities == db.deep_view().entities,
            all == group.deep_view(),
            found.deep_view() == mergers(entities, all.take(i as int)),
        decreases group.len() - i,
    {
        let ghost winner = all[i as int];
        proof {
            assert(all.take(i + 1).drop_last() =~= all.take(i as int));
            assert(all.take(i + 1).last() == winner);
        }
        let part = pick(
            &db.entities,
            |e: &Entity| -> (b: bool)
                ensures
                    b == merged_into(winner)(e.deep_view())
                { crate::ledger::is_text(&e.merged_into, group[i].as_str()) },
            |e: &Entity| -> (s: String)
                ensures
                    s.deep_view() == crate::knowledge::entity_id_of()(e.deep_view())
                { e.id.clone() },
            Ghost(merged_into(winner)),
            Ghost(crate::knowledge::entity_id_of()),
        );
        extend_texts(&mut found, &part);
        i = i + 1;
    }
    assert(all.take(i as int) =~= all);
    let outside = select(
        &found,
        |id: &String| -> (b: bool)
            ensures
                b == is_outside(all)(id.deep_view())
            { !holds(group, id.as_str()) },
        Ghost(is_outside(all)),
    );
    unique_texts(outside)
}

/// Adds texts at the end.
pub(crate) fn extend_texts(out: &mut Vec<String>, items: &Vec<String>)
    ensures
        final(out).deep_view() == old(out).deep_view() + items.deep_view(),
{
    let ghost before = out.deep_view();
    let ghost all = items.deep_view();
    let mut i: usize = 0;
    assert(out.deep_view() =~= before + all.take(0));
    while i < items.len()
        invariant
            i <= items.len(),
            all == items.deep_view(),
            out.deep_view() == before + all.take(i as int),
        decreases items.len() - i,
    {
        let ghost done = out.deep_view();
        out.push(items[i].clone());
        i = i + 1;
        assert(out.deep_view() =~= done.push(all[i - 1]));
        assert(out.deep_view() =~= before + all.take(i as int));
    }
    assert(all.take(i as int) =~= all);
}

/// Collect all entity ids in the merge group of `entity` (the entity itself
/// plus all entities that merged into it, transitively).
pub fn collect_merge_group(db: &Tables, entity: &str) -> (r: Vec<String>)
    ensures
        r.deep_view() == merge_group(db.deep_view().entities, seq![entity@]),
{
    let ghost entities = db.deep_view().entities;
    let mut group: Vec<String> = Vec::new();
    group.push(entity.to_owned());
    assert(group.deep_view() =~= seq![entity@]);
    loop
        invariant
            entities == db.deep_view().entities,
            is_group(entities, group.deep_view()),
            merge_group(entities, group.deep_view()) == merge_group(entities, seq![entity@]),
        decreases entities.len() + 2 - group.len(),
    {
        proof {
            lemma_group_grows(entities, group.deep_view());
        }
        let found = collect_newcomers(db, &group);
        assert(found.deep_view().len() == found.len());
        if found.len() == 0 {
            return group;
        }
        extend_texts(&mut group, &found);
        proof {
            lemma_group_grows(entities, group.deep_view());
        }
    }
}

/// Whether following merges from an id leads to an entity: in no step, or from
/// the entity that the id was merged into.
pub open spec fn leads_to(
    entities: Seq<EntityView>,
    id: Seq<char>,
    entity: Seq<char>,
    steps: nat,
) -> bool
    decreases steps,
{
    id == entity || (steps > 0 && exists|k: int|
        0 <= k < entities.len() && (#[trigger] entities[k]).id == id
            && entities[k].merged_into is Some && leads_to(
            entities,
            entities[k].merged_into->Some_0,
            entity,
            (steps - 1) as nat,
        ))
}

proof fn lemma_group_holds(
    entities: Seq<EntityView>,
    group: Seq<Seq<char>>,
    id: Seq<char>,
    entity: Seq<char>,
    steps: nat,
)
    requires
        is_group(entities, group),
        group.contains(entity),
        leads_to(entities, id, entity, steps),
    ensures
        merge_group(entities, group).contains(id),
    decreases entities.len() + 2 - group.len(),
{
    lemma_group_grows(entities, group);
    lemma_newcomers(entities, group);
    let new = newcomers(entities, group);
    if new.len() == 0 {
        lemma_closed_group(entities, group, id, entity, steps);
    } else {
        lemma_group_grows(entities, group + new);
        lemma_concat(group, new, entity);
        lemma_group_holds(entities, group + new, id, entity, steps);
    }
}

proof fn lemma_closed_group(
    entities: Seq<EntityView>,
    group: Seq<Seq<char>>,
    id: Seq<char>,
    entity: Seq<char>,
    steps: nat,
)
    requires
        newcomers(entities, group).len() == 0,
        group.contains(entity),
        leads_to(entities, id, entity, steps),
    ensures
        group.contains(id),
    decreases steps,
{
    if id != entity {
        let k = choose|k: int|
            0 <= k < entities.len() && (#[trigger] entities[k]).id == id
                && entities[k].merged_into is Some && leads_to(
                entities,
                entities[k].merged_into->Some_0,
                entity,
                (steps - 1) as nat,
            );
        let next = entities[k].merged_into->Some_0;
        lemma_closed_group(entities, group, next, entity, (steps - 1) as nat);
        let m = choose|m: int| 0 <= m < group.len() && group[m] == next;
        assert(entities[k].merged_into == Some(group[m]));
        lemma_mergers(entities, group, id);
        lemma_newcomers(entities, group);
        if !group.contains(id) {
            assert(newcomers(entities, group).contains(id));
        }
    }
}

/// The merge group of an entity holds every id from which merges lead to the
/// entity, in however many steps.
pub proof fn law_merge_group_is_complete(
    entities: Seq<EntityView>,
    id: Seq<char>,
    entity: Seq<char>,
    steps: nat,
)
    requires
        leads_to(entities, id, entity, steps),
    ensures
        merge_group(entities, seq![entity]).contains(id),
{
    let group = seq![entity];
    assert(group[0] == entity);
    assert(group.contains(entity));
    lemma_group_holds(entities, group, id, entity, steps);
}

/// The ids of the statements about a subject.
pub open spec fn statements_about(
    statements: Seq<StatementView>,
    space: Seq<char>,
    entity: Seq<char>,
) -> Seq<Seq<char>> {
    statements.filter(is_about(space, entity)).map_values(statement_id_of())
}

/// The ids of the statements about a subject.
pub fn statement_ids_for_subject(db: &Tables, space: &str, entity: &str) -> (r: Vec<String>)
    ensures
        r.deep_view() == statements_about(db.deep_view().statements, space@, entity@),
{
    pick(
        &db.statements,
        |s: &Statement| -> (b: bool)
            ensures
                b == is_about(space@, entity@)(s.deep_view())
            { str_eq(s.space.as_str(), space) && str_eq(s.subject.as_str(), entity) },
        |s: &Statement| -> (i: String)
            ensures
                i.deep_view() == statement_id_of()(s.deep_view())
            { s.id.clone() },
        Ghost(is_about(space@, entity@)),
        Ghost(statement_id_of()),
    )
}

/// The beliefs of statements, one statement after the other.
pub open spec fn beliefs_of_all(beliefs: Seq<BeliefView>, statements: Seq<Seq<char>>) -> Seq<
    BeliefView,
>
    decreases statements.len(),
{
    if statements.len() == 0 {
        Seq::empty()
    } else {
        beliefs_of_all(beliefs, statements.drop_last()) + beliefs_of(beliefs, statements.last())
    }
}

/// The statements about any of some subjects, one subject after the other.
pub open spec fn statements_about_any(
    statements: Seq<StatementView>,
    space: Seq<char>,
    entities: Seq<Seq<char>>,
) -> Seq<Seq<char>>
    decreases entities.len(),
{
    if entities.len() == 0 {
        Seq::empty()
    } else {
        statements_about_any(statements, space, entities.drop_last()) + statements_about(
            statements,
            space,
            entities.last(),
        )
    }
}

/// The current beliefs about an entity and what was merged into it.
pub open spec fn entity_beliefs(db: TablesView, space: Seq<char>, entity: Seq<char>) -> Seq<
    BeliefView,
> {
    beliefs_of_all(
        db.beliefs,
        statements_about_any(
            db.statements,
            space,
            merge_group(db.entities, seq![entity]),
        ),
    )
}

/// Current beliefs where `entity` is the subject (follows merge chain).
pub fn beliefs_for_entity(db: &Tables, space: &str, entity: &str) -> (r: Vec<Belief>)
    ensures
        r.deep_view() == entity_beliefs(db.deep_view(), space@, entity@),
{
    let group = collect_merge_group(db, entity);
    let ghost members = group.deep_view();
    let mut statements: Vec<String> = Vec::new();
    let mut i: usize = 0;
    assert(members.take(0) =~= Seq::empty());
    assert(statements.deep_view() =~= Seq::<Seq<char>>::empty());
    while i < group.len()
        invariant
            i <= group.len(),
            members == group.deep_view(),
            statements.deep_view() == statements_about_any(
                db.deep_view().statements,
                space@,
                members.take(i as int),
            ),
        decreases group.len() - i,
    {
        proof {
            assert(members.take(i + 1).drop_last() =~= members.take(i as int));
            assert(members.take(i + 1).last() == members[i as int]);
        }
        let ids = statement_ids_for_subject(db, space, group[i].as_str());
        extend_texts(&mut statements, &ids);
        i = i + 1;
    }
    assert(members.take(i as int) =~= members);
    let ghost all = statements.deep_view();
    let mut out: Vec<Belief> = Vec::new();
    let mut k: usize = 0;
    assert(all.take(0) =~= Seq::empty());
    assert(out.deep_view() =~= Seq::<BeliefView>::empty());
    while k < statements.len()
        invariant
            k <= statements.len(),
            all == statements.deep_view(),
            out.deep_view() == beliefs_of_all(db.deep_view().beliefs, all.take(k as int)),
        decreases statements.len() - k,
    {
        proof {
            assert(all.take(k + 1).drop_last() =~= all.take(k as int));
            assert(all.take(k + 1).last() == all[k as int]);
        }
        let mut found = get_beliefs_for_statement(db, statements[k].as_str());
        let ghost before = out.deep_view();
        let ghost added = found.deep_view();
        out.append(&mut found);
        assert(out.deep_view() =~= before + added);
        k = k + 1;
    }
    assert(all.take(k as int) =~= all);
    out
}

/// Selects the beliefs that are valid at a time, or all where none is given.
pub open spec fn is_valid_at(at: Option<Timestamp>) -> spec_fn(BeliefView) -> bool {
    |b: BeliefView|
        match at {
            Some(t) => b.valid_from.0 <= t.0 <= b.valid_to.0,
            None => true,
        }
}

/// Beliefs as of a point in valid time. Where none is given, all valid times.
/// The point in transaction time is not taken into account.
pub fn beliefs_as_of(
    db: &Tables,
    space: &str,
    entity: &str,
    valid_at: Option<Timestamp>,
    _transaction_at: Option<Timestamp>,
) -> (r: Vec<Belief>)
    ensures
        r.deep_view() == entity_beliefs(db.deep_view(), space@, entity@).filter(
            is_valid_at(valid_at),
        ),
{
    let all = beliefs_for_entity(db, space, entity);
    select(
        &all,
        |b: &Belief| -> (keep: bool)
            ensures
                keep == is_valid_at(valid_at)(b.deep_view())
            {
                match valid_at {
                    Some(t) => b.valid_from.0 <= t.0 && t.0 <= b.valid_to.0,
                    None => true,
                }
            },
        Ghost(is_valid_at(valid_at)),
    )
}

/// Selects the contradicted beliefs of a statement.
pub open spec fn is_contradicted(statement: Seq<char>) -> spec_fn(BeliefView) -> bool {
    |b: BeliefView| b.statement == statement && b.status == "contradicted"@
}

/// Selects the statements of a space that have a contradicted belief.
pub open spec fn is_contradiction(
    db: TablesView,
    space: Seq<char>,
) -> spec_fn(StatementView) -> bool {
    |s: StatementView| s.space == space && some_where(db.beliefs, is_contradicted(s.id))
}

/// All contradicted statements in a space.
pub fn contradictions(db: &Tables, space: &str) -> (r: Vec<Statement>)
    ensures
        r.deep_view() == db.deep_view().statements.filter(
            is_contradiction(db.deep_view(), space@),
        ),
{
    let ghost view = db.deep_view();
    select(
        &db.statements,
        |s: &Statement| -> (b: bool)
            ensures
                b == is_contradiction(view, space@)(s.deep_view())
            {
                let found = find(
                    &db.beliefs,
                    |b: &Belief| -> (hit: bool)
                        ensures
                            hit == is_contradicted(s.id@)(b.deep_view())
                        {
                            str_eq(b.statement.as_str(), s.id.as_str()) && str_eq(
                                b.status.as_str(),
                                "contradicted",
                            )
                        },
                    Ghost(is_contradicted(s.id@)),
                );
                str_eq(s.space.as_str(), space) && found.is_some()
            },
        Ghost(is_contradiction(view, space@)),
    )
}

/// Aggregate counts for a space.
#[derive(Debug, Clone, Copy, PartialEq, Eq, Structural)]
pub struct SpaceStats {
    pub episodes: usize,
    pub entities: usize,
    pub statements: usize,
    pub contradictions: usize,
}

/// Aggregate counts for a space: episodes, entities (excluding merged-away),
/// statements, and contradicted statements.
pub fn space_stats(db: &Tables, space: &str) -> (r: SpaceStats)
    ensures
        r.episodes == db.deep_view().episodes.filter(episode_in(space@)).len(),
        r.entities == db.deep_view().entities.filter(is_live_in(space@)).len(),
        r.statements == db.deep_view().statements.filter(statement_in(space@)).len(),
        r.contradictions == db.deep_view().statements.filter(
            is_contradiction(db.deep_view(), space@),
        ).len(),
{
    let episodes: usize = count(
        &db.episodes,
        |e: &EpisodeRow| -> (b: bool)
            ensures
                b == episode_in(space@)(e.deep_view())
            { str_eq(e.space.as_str(), space) },
        Ghost(episode_in(space@)),
    );
    let entities: usize = count(
        &db.entities,
        |e: &Entity| -> (b: bool)
            ensures
                b == is_live_in(space@)(e.deep_view())
            { str_eq(e.space.as_str(), space) && e.merged_into.is_none() },
        Ghost(is_live_in(space@)),
    );
    let statements: usize = count(
        &db.statements,
        |s: &Statement| -> (b: bool)
            ensures
                b == statement_in(space@)(s.deep_view())
            { str_eq(s.space.as_str(), space) },
        Ghost(statement_in(space@)),
    );
    let found = contradictions(db, space);
    assert(found.deep_view().len() == found.len());
    SpaceStats { episodes, entities, statements, contradictions: found.len() }
}

/// Selects the statements of a space whose object is an entity.
pub open spec fn is_edge(space: Seq<char>) -> spec_fn(StatementView) -> bool {
    |s: StatementView| s.space == space && s.object is Entity
}

/// The edge of a statement.
pub open spec fn edge_of() -> spec_fn(StatementView) -> EdgeView {
    |s: StatementView|
        EdgeView {
            subject: s.subject,
            object: s.object->Entity_0,
            predicate: s.predicate,
            statement: s.id,
        }
}

/// The edges of the entity graph of a space. Only entity-typed objects produce
/// edges.
pub fn load_adjacency(db: &Tables, space: &str) -> (r: Vec<Edge>)
    ensures
        r.deep_view() == db.deep_view().statements.filter(is_edge(space@)).map_values(edge_of()),
{
    let found = select(
        &db.statements,
        |s: &Statement| -> (b: bool)
            ensures
                b == is_edge(space@)(s.deep_view())
            {
                let entity: bool = match &s.object {
                    Object::Entity(_) => true,
                    Object::Literal(_) => false,
                };
                str_eq(s.space.as_str(), space) && entity
            },
        Ghost(is_edge(space@)),
    );
    let ghost all = found.deep_view();
    let mut out: Vec<Edge> = Vec::new();
    let mut i: usize = 0;
    assert(out.deep_view() =~= all.take(0).map_values(edge_of()));
    while i < found.len()
        invariant
            i <= found.len(),
            all == found.deep_view(),
            all == db.deep_view().statements.filter(is_edge(space@)),
            out.deep_view() == all.take(i as int).map_values(edge_of()),
        decreases found.len() - i,
    {
        let ghost before = out.deep_view();
        let s = &found[i];
        proof {
            db.deep_view().statements.lemma_filter_pred(is_edge(space@), i as int);
            assert(all[i as int] == s.deep_view());
        }
        let object = match &s.object {
            Object::Entity(e) => e.clone(),
            Object::Literal(l) => l.clone(),
        };
        out.push(
            Edge {
                subject: s.subject.clone(),
                object,
                predicate: s.predicate.clone(),
                statement: s.id.clone(),
            },
        );
        proof {
            assert(out.deep_view() =~= before.push(edge_of()(all[i as int])));
            assert(all.take(i + 1).map_values(edge_of()) =~= all.take(i as int).map_values(
                edge_of(),
            ).push(edge_of()(all[i as int])));
        }
        i = i + 1;
    }
    assert(all.take(i as int) =~= all);
    out
}

/// Selects an entity of a space by id.
pub open spec fn is_entity_in(space: Seq<char>, id: Seq<char>) -> spec_fn(EntityView) -> bool {
    |e: EntityView| e.id == id && e.space == space
}

/// The salience of an entity of a space, where it is there.
pub open spec fn salience_of(
    entities: Seq<EntityView>,
    space: Seq<char>,
    id: Seq<char>,
) -> Option<u64> {
    match first_where(entities, is_entity_in(space, id)) {
        Some(e) => Some(e.salience),
        None => None,
    }
}

fn read_salience(db: &Tables, space: &str, id: &str) -> (r: Option<u64>)
    ensures
        r == salience_of(db.deep_view().entities, space@, id@),
{
    match find(
        &db.entities,
        |e: &Entity| -> (b: bool)
            ensures
                b == is_entity_in(space@, id@)(e.deep_view())
            { str_eq(e.id.as_str(), id) && str_eq(e.space.as_str(), space) },
        Ghost(is_entity_in(space@, id@)),
    ) {
        Some(i) => {
            assert(db.deep_view().entities[i as int] == db.entities[i as int].deep_view());
            Some(db.entities[i].salience)
        },
        None => None,
    }
}

/// The bit pattern of one.
pub const ONE: u64 = 4607182418800017408;

/// The bit pattern of a half.
pub const HALF: u64 = 4602678819172646912;

/// The bit pattern of four tenths.
pub const FOUR_TENTHS: u64 = 4600877379321698714;

/// The bit pattern of one in single precision.
pub const ONE_SINGLE: u32 = 1065353216;

/// An entity that was reached, with its salience, or one where it has none.
pub open spec fn traversed(
    db: TablesView,
    space: Seq<char>,
) -> spec_fn((Seq<char>, u32)) -> TraversalNodeView {
    |n: (Seq<char>, u32)|
        TraversalNodeView {
            entity: n.0,
            depth: n.1,
            salience: match salience_of(db.entities, space, n.0) {
                Some(s) => s,
                None => ONE,
            },
        }
}

/// The entities that a walk over the graph reached, each with its depth and
/// salience.
pub fn traverse(db: &Tables, space: &str, reached: &Vec<(String, u32)>) -> (r: Vec<TraversalNode>)
    ensures
        r.deep_view() == reached.deep_view().map_values(traversed(db.deep_view(), space@)),
{
    let ghost view = db.deep_view();
    map_rows(
        reached,
        |n: &(String, u32)| -> (t: TraversalNode)
            ensures
                t.deep_view() == traversed(view, space@)(n.deep_view())
            {
                let salience: u64 = match read_salience(db, space, n.0.as_str()) {
                    Some(s) => s,
                    None => ONE,
                };
                TraversalNode { entity: n.0.clone(), depth: n.1, salience }
            },
        Ghost(traversed(view, space@)),
    )
}

/// Selects the key of a surface form and type in a space.
pub open spec fn is_surface(
    space: Seq<char>,
    ty: Seq<char>,
    surface: Seq<char>,
) -> spec_fn(EntityKeyView) -> bool {
    |k: EntityKeyView| k.space == space && k.ty == ty && k.surface == surface
}

/// Look up a previously-resolved entity by surface form + type.
pub fn resolve_entity_id(db: &Tables, space: &str, ty: &str, surface: &str) -> (r: Option<String>)
    ensures
        r.deep_view() == match first_where(
            db.deep_view().keys,
            is_surface(space@, ty@, surface@),
        ) {
            Some(k) => Some(k.entity),
            None => None,
        },
{
    match find(
        &db.keys,
        |k: &EntityKey| -> (b: bool)
            ensures
                b == is_surface(space@, ty@, surface@)(k.deep_view())
            {
                str_eq(k.space.as_str(), space) && str_eq(k.ty.as_str(), ty) && str_eq(
                    k.surface.as_str(),
                    surface,
                )
            },
        Ghost(is_surface(space@, ty@, surface@)),
    ) {
        Some(i) => {
            assert(db.deep_view().keys[i as int] == db.keys[i as int].deep_view());
            Some(db.keys[i].entity.clone())
        },
        None => None,
    }
}

/// The name of the table of a full-text index.
pub fn fts_table(index: FtsIndex) -> (r: &'static str)
    ensures
        r@ == match index {
            FtsIndex::Word => "fts_word"@,
            FtsIndex::Ngram => "fts_ngram"@,
        },
{
    match index {
        FtsIndex::Word => "fts_word",
        FtsIndex::Ngram => "fts_ngram",
    }
}

/// The full-text query of a search text, or none where there is nothing to
/// search for.
pub fn fts_query(query_text: &str) -> (r: Option<String>)
    ensures
        r.deep_view() == if phrases(words(query_text@)).len() == 0 {
            None
        } else {
            Some(phrases(words(query_text@)))
        },
{
    let q = match_query(query_text);
    if q.as_str().is_empty() {
        None
    } else {
        Some(q)
    }
}

/// The target of an index row.
pub open spec fn target_of(kind: Seq<char>, id: Seq<char>) -> TargetIdView {
    if kind == "statement"@ {
        TargetIdView::Statement { id }
    } else if kind == "entity"@ {
        TargetIdView::Entity { id }
    } else {
        TargetIdView::Episode { id }
    }
}

/// The target that an index row names by kind and id.
pub fn fts_target(kind: &str, id: String) -> (r: TargetId)
    ensures
        r.deep_view() == target_of(kind@, id@),
{
    if str_eq(kind, "statement") {
        TargetId::Statement { id }
    } else if str_eq(kind, "entity") {
        TargetId::Entity { id }
    } else {
        TargetId::Episode { id }
    }
}

/// The target that a key of the vector index names: its kind and its id with a
/// colon between them. A key without a colon is the id of an episode.
pub open spec fn key_target(key: Seq<char>) -> TargetIdView {
    match split_first(key, ":"@) {
        Some((kind, id)) => target_of(kind, id),
        None => TargetIdView::Episode { id: key },
    }
}

/// The target that a key of the vector index names.
pub fn vector_target(key: &str) -> (r: TargetId)
    ensures
        r.deep_view() == key_target(key@),
{
    match split_once(key, ":") {
        Some((kind, id)) => fts_target(kind.as_str(), id),
        None => TargetId::Episode { id: key.to_owned() },
    }
}

/// The texts that the lexical vectors of a space are weighted by: those of its
/// live episodes.
pub fn tfidf_corpus(db: &Tables, space: &str) -> (r: Vec<String>)
    ensures
        r.deep_view() == db.deep_view().episodes.filter(
            crate::index_ops::is_live_episode(space@),
        ).map_values(episode_content()),
{
    pick(
        &db.episodes,
        |e: &EpisodeRow| -> (b: bool)
            ensures
                b == crate::index_ops::is_live_episode(space@)(e.deep_view())
            { str_eq(e.space.as_str(), space) && e.redacted_at.is_none() },
        |e: &EpisodeRow| -> (s: String)
            ensures
                s.deep_view() == episode_content()(e.deep_view())
            { e.content.clone() },
        Ghost(crate::index_ops::is_live_episode(space@)),
        Ghost(episode_content()),
    )
}

/// The text of an episode.
pub open spec fn episode_content() -> spec_fn(EpisodeRowView) -> Seq<char> {
    |e: EpisodeRowView| e.content
}

/// What is wrong with what an embedder gave for a query, by the size of its first
/// vector.
pub open spec fn embedding_error(first: Option<usize>) -> Option<Seq<char>> {
    match first {
        None => Some("embedder returned no vectors"@),
        Some(n) => if n == EMBEDDING_DIM {
            None
        } else {
            Some(
                "embedder dim "@ + nat_text(n as nat) + " != table dim "@ + nat_text(
                    EMBEDDING_DIM as nat,
                ),
            )
        },
    }
}

/// Checks what an embedder gave for a query: there must be a vector, and it must
/// have the size of the table's.
pub fn check_embedding(first: Option<usize>) -> (r: Result<(), BrainError>)
    ensures
        match embedding_error(first) {
            None => r is Ok,
            Some(m) => fails_with(r, BrainErrorView::Config(m)),
        },
{
    match first {
        None => Err(BrainError::Config("embedder returned no vectors".to_owned())),
        Some(n) => {
            if n == EMBEDDING_DIM {
                return Ok(());
            }
            let have = show_u64(n as u64);
            let want = show_u64(EMBEDDING_DIM as u64);
            Err(
                BrainError::Config(
                    cat4("embedder dim ", have.as_str(), " != table dim ", want.as_str()),
                ),
            )
        },
    }
}

/// The surface of an object in a list of triples: that of its mention, else the
/// text of its literal, else nothing.
pub open spec fn object_surface(
    mentions: Seq<MentionView>,
    assertion: Seq<char>,
    object: ObjectView,
) -> Seq<Seq<char>> {
    let named = mentions.filter(names_object(assertion)).map_values(mention_surface());
    if named.len() > 0 {
        named
    } else {
        seq![
            match object {
                ObjectView::Literal(json) => literal_value(json),
                ObjectView::Entity(_) => Seq::empty(),
            },
        ]
    }
}

/// The text under `value` in the JSON text of a literal.
pub open spec fn literal_value(json: Seq<char>) -> Seq<char> {
    match json_parsed(json) {
        Ok(v) => match text_member(v, "value"@) {
            Some(s) => s,
            None => Seq::empty(),
        },
        Err(_) => Seq::empty(),
    }
}

/// The text under `value` in a parsed literal.
pub fn value_text(parsed: &Result<Json, String>) -> (r: String)
    ensures
        r@ == match crate::json::parse_view(*parsed) {
            Ok(v) => match text_member(v, "value"@) {
                Some(s) => s,
                None => Seq::empty(),
            },
            Err(_) => Seq::empty(),
        },
{
    match parsed {
        Ok(j) => match j.str_of("value") {
            Some(s) => s.to_owned(),
            None => String::new(),
        },
        Err(_) => String::new(),
    }
}

/// Selects the mentions of the object in an assertion.
pub open spec fn names_object(assertion: Seq<char>) -> spec_fn(MentionView) -> bool {
    |m: MentionView| m.assertion == assertion && m.role == MentionRole::Object
}

/// The surface of a mention.
pub open spec fn mention_surface() -> spec_fn(MentionView) -> Seq<char> {
    |m: MentionView| m.surface
}

/// A predicate with the surfaces of a subject and an object.
pub open spec fn triple(
    predicate: Seq<char>,
    subject: Seq<char>,
) -> spec_fn(Seq<char>) -> (Seq<char>, Seq<char>, Seq<char>) {
    |object: Seq<char>| (predicate, subject, object)
}

/// The triples of subjects with objects: every subject with every object.
pub open spec fn triples_of(
    predicate: Seq<char>,
    subjects: Seq<Seq<char>>,
    objects: Seq<Seq<char>>,
) -> Seq<(Seq<char>, Seq<char>, Seq<char>)>
    decreases subjects.len(),
{
    if subjects.len() == 0 {
        Seq::empty()
    } else {
        triples_of(predicate, subjects.drop_last(), objects) + objects.map_values(
            triple(predicate, subjects.last()),
        )
    }
}

/// The triples of assertions, one after the other.
pub open spec fn all_triples(
    db: TablesView,
    space: Seq<char>,
    assertions: Seq<AssertionView>,
) -> Seq<(Seq<char>, Seq<char>, Seq<char>)>
    decreases assertions.len(),
{
    if assertions.len() == 0 {
        Seq::empty()
    } else {
        let before = all_triples(db, space, assertions.drop_last());
        let a = assertions.last();
        match first_where(db.statements, crate::explain::is_statement(space, a.statement)) {
            None => before,
            Some(s) => before + triples_of(
                s.predicate,
                db.mentions.filter(crate::explain::names_subject(a.id)).map_values(
                    mention_surface(),
                ),
                object_surface(db.mentions, a.id, s.object),
            ),
        }
    }
}

fn surfaces(db: &Tables, assertion: &str, role: MentionRole) -> (r: Vec<String>)
    ensures
        r.deep_view() == db.deep_view().mentions.filter(
            match role {
                MentionRole::Subject => crate::explain::names_subject(assertion@),
                MentionRole::Object => names_object(assertion@),
            },
        ).map_values(mention_surface()),
{
    let ghost p = match role {
        MentionRole::Subject => crate::explain::names_subject(assertion@),
        MentionRole::Object => names_object(assertion@),
    };
    pick(
        &db.mentions,
        |m: &Mention| -> (b: bool)
            ensures
                b == p(m.deep_view())
            { str_eq(m.assertion.as_str(), assertion) && m.role == role },
        |m: &Mention| -> (s: String)
            ensures
                s.deep_view() == mention_surface()(m.deep_view())
            { m.surface.clone() },
        Ghost(p),
        Ghost(mention_surface()),
    )
}

fn push_triples(
    out: &mut Vec<(String, String, String)>,
    predicate: &str,
    subjects: &Vec<String>,
    objects: &Vec<String>,
)
    ensures
        final(out).deep_view() == old(out).deep_view() + triples_of(
            predicate@,
            subjects.deep_view(),
            objects.deep_view(),
        ),
{
    let ghost first = out.deep_view();
    let ghost subs = subjects.deep_view();
    let ghost objs = objects.deep_view();
    let mut i: usize = 0;
    assert(subs.take(0) =~= Seq::empty());
    assert(out.deep_view() =~= first + triples_of(predicate@, subs.take(0), objs));
    while i < subjects.len()
        invariant
            i <= subjects.len(),
            subs == subjects.deep_view(),
            objs == objects.deep_view(),
            out.deep_view() == first + triples_of(predicate@, subs.take(i as int), objs),
        decreases subjects.len() - i,
    {
        let ghost done = triples_of(predicate@, subs.take(i as int), objs);
        let ghost g = triple(predicate@, subs[i as int]);
        proof {
            assert(subs.take(i + 1).drop_last() =~= subs.take(i as int));
            assert(subs.take(i + 1).last() == subs[i as int]);
        }
        let mut k: usize = 0;
        assert(out.deep_view() =~= first + (done + objs.take(0).map_values(g)));
        while k < objects.len()
            invariant
                i < subjects.len(),
                k <= objects.len(),
                subs == subjects.deep_view(),
                objs == objects.deep_view(),
                g == triple(predicate@, subs[i as int]),
                out.deep_view() == first + (done + objs.take(k as int).map_values(g)),
            decreases objects.len() - k,
        {
            let ghost before = out.deep_view();
            out.push((predicate.to_owned(), subjects[i].clone(), objects[k].clone()));
            k = k + 1;
            proof {
                assert(out.deep_view() =~= before.push(g(objs[k - 1])));
                assert(out.deep_view() =~= first + (done + objs.take(k as int).map_values(g)));
            }
        }
        assert(objs.take(k as int) =~= objs);
        i = i + 1;
    }
    assert(subs.take(i as int) =~= subs);
}

/// Extract all (predicate, subject surface, object surface) triples from a
/// space's current projection.
pub fn debug_triples(db: &Tables, space: &str) -> (r: Vec<(String, String, String)>)
    ensures
        r.deep_view() == all_triples(db.deep_view(), space@, db.deep_view().assertions),
{
    let ghost view = db.deep_view();
    let ghost all = view.assertions;
    let mut out: Vec<(String, String, String)> = Vec::new();
    let mut i: usize = 0;
    assert(all.take(0) =~= Seq::empty());
    assert(out.deep_view() =~= Seq::<(Seq<char>, Seq<char>, Seq<char>)>::empty());
    while i < db.assertions.len()
        invariant
            i <= db.assertions.len(),
            view == db.deep_view(),
            all == view.assertions,
            out.deep_view() == all_triples(view, space@, all.take(i as int)),
        decreases db.assertions.len() - i,
    {
        let a = &db.assertions[i];
        proof {
            assert(all.take(i + 1).drop_last() =~= all.take(i as int));
            assert(all.take(i + 1).last() == all[i as int]);
            assert(all[i as int] == a.deep_view());
        }
        match find(
            &db.statements,
            |s: &Statement| -> (b: bool)
                ensures
                    b == crate::explain::is_statement(space@, a.statement@)(s.deep_view())
                {
                    str_eq(s.space.as_str(), space) && str_eq(
                        s.id.as_str(),
                        a.statement.as_str(),
                    )
                },
            Ghost(crate::explain::is_statement(space@, a.statement@)),
        ) {
            Some(k) => {
                let s = &db.statements[k];
                assert(view.statements[k as int] == s.deep_view());
                let subjects = surfaces(db, a.id.as_str(), MentionRole::Subject);
                let mut objects = surfaces(db, a.id.as_str(), MentionRole::Object);
                assert(objects.deep_view().len() == objects.len());
                if objects.len() == 0 {
                    let text = match &s.object {
                        Object::Literal(json) => value_text(&parse_json(json.as_str())),
                        Object::Entity(_) => String::new(),
                    };
                    let ghost t = text@;
                    objects = Vec::new();
                    objects.push(text);
                    assert(objects.deep_view() =~= seq![t]);
                }
                push_triples(&mut out, s.predicate.as_str(), &subjects, &objects);
            },
            None => {},
        }
        i = i + 1;
    }
    assert(all.take(i as int) =~= all);
    out
}

/// A search request.
#[derive(Debug)]
pub struct Query {
    pub text: String,
    pub mode: QueryMode,
    pub space: String,
    pub as_of: Option<Timestamp>,
    pub limit: usize,
    /// The bit pattern of the least confidence.
    pub min_confidence: u32,
}

/// What the searches outside found for a query.
pub struct SearchResults {
    /// Hits of the word index.
    pub word: Vec<SearchHit>,
    /// Hits of the trigram index.
    pub ngram: Vec<SearchHit>,
    /// Hits of the lexical vectors.
    pub lexical_vector: Vec<SearchHit>,
    /// Hits of the dense vectors; none where no embedder is configured.
    pub dense: Option<Vec<SearchHit>>,
    /// Hits of the word index up to half the limit: where expansion starts.
    pub seeds: Vec<SearchHit>,
    /// Entities that a walk over the graph reached from the seeds.
    pub reached: Vec<String>,
}

/// Where the hits of a channel come from.
#[derive(Debug, Clone, Copy, PartialEq, Eq, Structural)]
pub enum RankChannel {
    LexicalWord,
    LexicalNgram,
    Vector,
    GraphExpand { top_k: u32, depth: u32 },
    CommunityExpand { top_k: u32 },
}

/// The hits of one channel, best first. Its number is its position among the
/// channels.
pub struct ChannelResult {
    pub channel: RankChannel,
    pub hits: Vec<SearchHit>,
}

/// [`ChannelResult`] as a mathematical value.
#[verifier::ext_equal]
pub struct ChannelResultView {
    pub channel: RankChannel,
    pub hits: Seq<SearchHitView>,
}

impl DeepView for ChannelResult {
    type V = ChannelResultView;

    open spec fn deep_view(&self) -> ChannelResultView {
        ChannelResultView { channel: self.channel, hits: self.hits.deep_view() }
    }
}

/// What ranking works on: the channels that ran, and the facts of every
/// candidate.
pub struct RetrievalInput {
    pub channels: Vec<ChannelResult>,
    pub facts: Vec<TargetFacts>,
}

/// Selects the hits that are entities.
pub open spec fn is_entity_hit() -> spec_fn(SearchHitView) -> bool {
    |h: SearchHitView| h.target is Entity
}

/// The id of what was found.
pub open spec fn hit_id() -> spec_fn(SearchHitView) -> Seq<char> {
    |h: SearchHitView|
        match h.target {
            TargetIdView::Episode { id } => id,
            TargetIdView::Statement { id } => id,
            TargetIdView::Entity { id } => id,
        }
}

/// The entities among hits, in order.
pub open spec fn entity_seeds(hits: Seq<SearchHitView>) -> Seq<Seq<char>> {
    hits.filter(is_entity_hit()).map_values(hit_id())
}

fn id_of_hit(h: &SearchHit) -> (r: String)
    ensures
        r@ == hit_id()(h.deep_view()),
{
    match &h.target {
        TargetId::Episode { id } => id.clone(),
        TargetId::Statement { id } => id.clone(),
        TargetId::Entity { id } => id.clone(),
    }
}

fn hits_entity(h: &SearchHit) -> (r: bool)
    ensures
        r == is_entity_hit()(h.deep_view()),
{
    match &h.target {
        TargetId::Entity { id: _ } => true,
        _ => false,
    }
}

/// Where a walk over the graph starts and how far it goes.
#[derive(Debug)]
pub struct GraphWalk {
    pub start: Vec<String>,
    pub max_depth: u32,
    pub max_nodes: u32,
}

/// The walk that a graph channel asks for: from the entities among the seeds,
/// two steps, over at most twice as many nodes as the query has a limit for, as
/// a 32-bit number. None where there is no entity to start from.
pub fn graph_walk(seeds: &Vec<SearchHit>, limit: usize) -> (r: Option<GraphWalk>)
    requires
        2 * limit <= usize::MAX,
    ensures
        match r {
            None => entity_seeds(seeds.deep_view()).len() == 0,
            Some(w) => entity_seeds(seeds.deep_view()).len() > 0 && w.start.deep_view()
                == entity_seeds(seeds.deep_view()) && w.max_depth == 2 && w.max_nodes == (2
                * limit) % 0x1_0000_0000,
        },
{
    let start = seed_ids(seeds);
    assert(start.deep_view().len() == start.len());
    if start.len() == 0 {
        None
    } else {
        let nodes: u64 = (2 * limit) as u64 % 0x1_0000_0000;
        Some(GraphWalk { start, max_depth: 2, max_nodes: nodes as u32 })
    }
}

/// Which kind of ranking a query asks for.
#[derive(Debug, Clone, Copy, PartialEq, Eq, Structural)]
pub enum RankPreset {
    Hybrid,
    Lexical,
    Semantic,
    Graph,
    Community,
}

/// How what was found is to be ranked and filtered.
#[derive(Debug, Clone, Copy, PartialEq, Eq, Structural)]
pub struct RetrievalSpec {
    pub preset: RankPreset,
    pub as_of: Option<Timestamp>,
    /// The bit pattern of the least confidence, where the query sets one.
    pub min_confidence: Option<u32>,
    pub limit: usize,
}

/// Whether the bit pattern of a single-precision number is one above zero.
pub open spec fn is_positive(bits: u32) -> bool {
    0 < bits <= 0x7f80_0000
}

/// The ranking that a mode stands for.
pub open spec fn preset_of(mode: QueryMode) -> RankPreset {
    match mode {
        QueryMode::Hybrid => RankPreset::Hybrid,
        QueryMode::Lexical => RankPreset::Lexical,
        QueryMode::LexicalVector => RankPreset::Lexical,
        QueryMode::Dense => RankPreset::Semantic,
        QueryMode::Graph => RankPreset::Graph,
        QueryMode::Community => RankPreset::Community,
    }
}

/// How what a query finds is to be ranked and filtered. A least confidence counts
/// where it is above zero, and on the graph in any case.
pub fn retrieval_spec(q: &Query) -> (r: RetrievalSpec)
    ensures
        r.preset == preset_of(q.mode),
        r.as_of == q.as_of,
        r.min_confidence == if is_positive(q.min_confidence) || q.mode == QueryMode::Graph {
            Some(q.min_confidence)
        } else {
            None
        },
        r.limit == q.limit,
{
    let preset = match q.mode {
        QueryMode::Hybrid => RankPreset::Hybrid,
        QueryMode::Lexical => RankPreset::Lexical,
        QueryMode::LexicalVector => RankPreset::Lexical,
        QueryMode::Dense => RankPreset::Semantic,
        QueryMode::Graph => RankPreset::Graph,
        QueryMode::Community => RankPreset::Community,
    };
    let positive: bool = 0 < q.min_confidence && q.min_confidence <= 0x7f80_0000;
    let min_confidence = if positive || q.mode == QueryMode::Graph {
        Some(q.min_confidence)
    } else {
        None
    };
    RetrievalSpec { preset, as_of: q.as_of, min_confidence, limit: q.limit }
}

fn seed_ids(seeds: &Vec<SearchHit>) -> (r: Vec<String>)
    ensures
        r.deep_view() == entity_seeds(seeds.deep_view()),
{
    pick(
        seeds,
        |h: &SearchHit| -> (b: bool)
            ensures
                b == is_entity_hit()(h.deep_view())
            { hits_entity(h) },
        |h: &SearchHit| -> (s: String)
            ensures
                s.deep_view() == hit_id()(h.deep_view())
            { id_of_hit(h) },
        Ghost(is_entity_hit()),
        Ghost(hit_id()),
    )
}

/// A hit on an entity with a fixed score.
pub open spec fn entity_hit(score: u64) -> spec_fn(Seq<char>) -> SearchHitView {
    |id: Seq<char>| SearchHitView { target: TargetIdView::Entity { id }, score }
}

/// The hits of an expansion: what it added, with a fixed score, then the seeds
/// with their own.
pub open spec fn expanded(
    added: Seq<Seq<char>>,
    score: u64,
    seeds: Seq<SearchHitView>,
) -> Seq<SearchHitView> {
    added.map_values(entity_hit(score)) + seeds.filter(is_entity_hit())
}

/// The members of the communities of seeds, one seed after the other.
pub open spec fn community_of_all(
    db: TablesView,
    space: Seq<char>,
    seeds: Seq<Seq<char>>,
) -> Seq<Seq<char>>
    decreases seeds.len(),
{
    if seeds.len() == 0 {
        Seq::empty()
    } else {
        community_of_all(db, space, seeds.drop_last()) + members_of(
            db.communities,
            space,
            seeds.last(),
        )
    }
}

/// The entities that a walk reached besides the seeds.
pub open spec fn graph_added(reached: Seq<Seq<char>>, seeds: Seq<Seq<char>>) -> Seq<Seq<char>> {
    reached.filter(is_outside(seeds))
}

/// The entities that share a community with a seed, besides the seeds, each
/// once.
pub open spec fn community_added(
    db: TablesView,
    space: Seq<char>,
    seeds: Seq<Seq<char>>,
) -> Seq<Seq<char>> {
    distinct(community_of_all(db, space, seeds).filter(is_outside(seeds)))
}

fn expand(added: &Vec<String>, score: u64, seeds: &Vec<SearchHit>) -> (r: Vec<SearchHit>)
    ensures
        r.deep_view() == expanded(added.deep_view(), score, seeds.deep_view()),
{
    let mut out = map_rows(
        added,
        |id: &String| -> (h: SearchHit)
            ensures
                h.deep_view() == entity_hit(score)(id.deep_view())
            { SearchHit { target: TargetId::Entity { id: id.clone() }, score } },
        Ghost(entity_hit(score)),
    );
    let mut own = select(
        seeds,
        |h: &SearchHit| -> (b: bool)
            ensures
                b == is_entity_hit()(h.deep_view())
            { hits_entity(h) },
        Ghost(is_entity_hit()),
    );
    let ghost a = out.deep_view();
    let ghost b = own.deep_view();
    out.append(&mut own);
    assert(out.deep_view() =~= a + b);
    out
}

fn community_newcomers(db: &Tables, space: &str, seeds: &Vec<String>) -> (r: Vec<String>)
    ensures
        r.deep_view() == community_added(db.deep_view(), space@, seeds.deep_view()),
{
    let ghost view = db.deep_view();
    let ghost all = seeds.deep_view();
    let mut found: Vec<String> = Vec::new();
    let mut i: usize = 0;
    assert(all.take(0) =~= Seq::empty());
    assert(found.deep_view() =~= Seq::<Seq<char>>::empty());
    while i < seeds.len()
        invariant
            i <= seeds.len(),
            view == db.deep_view(),
            all == seeds.deep_view(),
            found.deep_view() == community_of_all(view, space@, all.take(i as int)),
        decreases seeds.len() - i,
    {
        proof {
            assert(all.take(i + 1).drop_last() =~= all.take(i as int));
            assert(all.take(i + 1).last() == all[i as int]);
        }
        let members = community_members(db, space, seeds[i].as_str());
        extend_texts(&mut found, &members);
        i = i + 1;
    }
    assert(all.take(i as int) =~= all);
    unique_texts(
        select(
            &found,
            |id: &String| -> (b: bool)
                ensures
                    b == is_outside(all)(id.deep_view())
                { !holds(seeds, id.as_str()) },
            Ghost(is_outside(all)),
        ),
    )
}

/// Whether a mode searches the full-text indexes.
pub open spec fn runs_lexical(mode: QueryMode) -> bool {
    mode == QueryMode::Hybrid || mode == QueryMode::Lexical || mode == QueryMode::LexicalVector
}

/// Which searches a mode asks for.
#[derive(Debug, Clone, Copy, PartialEq, Eq, Structural)]
pub struct Searches {
    /// Both full-text indexes.
    pub lexical: bool,
    pub lexical_vector: bool,
    /// The dense vectors, where there is an embedder.
    pub dense: bool,
    /// The seeds of an expansion.
    pub seeds: bool,
    /// The walk from the seeds.
    pub walk: bool,
}

/// The searches that a mode asks for. No other search need run, and no embedder
/// need be called for a mode without dense vectors.
pub open spec fn searches_of(mode: QueryMode) -> Searches {
    Searches {
        lexical: runs_lexical(mode),
        lexical_vector: mode == QueryMode::Hybrid || mode == QueryMode::LexicalVector,
        dense: mode == QueryMode::Hybrid || mode == QueryMode::Dense,
        seeds: mode == QueryMode::Hybrid || mode == QueryMode::Graph || mode
            == QueryMode::Community,
        walk: mode == QueryMode::Hybrid || mode == QueryMode::Graph,
    }
}

/// The searches that a mode asks for.
pub fn searches(mode: QueryMode) -> (r: Searches)
    ensures
        r == searches_of(mode),
{
    let hybrid: bool = mode == QueryMode::Hybrid;
    Searches {
        lexical: hybrid || mode == QueryMode::Lexical || mode == QueryMode::LexicalVector,
        lexical_vector: hybrid || mode == QueryMode::LexicalVector,
        dense: hybrid || mode == QueryMode::Dense,
        seeds: hybrid || mode == QueryMode::Graph || mode == QueryMode::Community,
        walk: hybrid || mode == QueryMode::Graph,
    }
}

/// The channels of a query depend on nothing but the searches that its mode asks
/// for.
pub proof fn law_only_its_searches_matter(
    db: TablesView,
    mode: QueryMode,
    space: Seq<char>,
    a: SearchResults,
    b: SearchResults,
)
    requires
        searches_of(mode).lexical ==> a.word.deep_view() == b.word.deep_view()
            && a.ngram.deep_view() == b.ngram.deep_view(),
        searches_of(mode).lexical_vector ==> a.lexical_vector.deep_view()
            == b.lexical_vector.deep_view(),
        searches_of(mode).dense ==> a.dense.deep_view() == b.dense.deep_view(),
        searches_of(mode).seeds ==> a.seeds.deep_view() == b.seeds.deep_view(),
        searches_of(mode).walk ==> a.reached.deep_view() == b.reached.deep_view(),
    ensures
        channels_of(db, mode, space, a) == channels_of(db, mode, space, b),
{
}

/// The channels of a query, in order: words and trigrams; lexical vectors;
/// dense vectors; the graph around the seeds; the communities of the seeds. An
/// expansion without seeds does not run.
pub open spec fn channels_of(
    db: TablesView,
    mode: QueryMode,
    space: Seq<char>,
    found: SearchResults,
) -> Seq<ChannelResultView> {
    let seeds = found.seeds.deep_view();
    let ids = entity_seeds(seeds);
    let lexical = if runs_lexical(mode) {
        seq![
            ChannelResultView {
                channel: RankChannel::LexicalWord,
                hits: found.word.deep_view(),
            },
            ChannelResultView {
                channel: RankChannel::LexicalNgram,
                hits: found.ngram.deep_view(),
            },
        ]
    } else {
        Seq::empty()
    };
    let vector = if mode == QueryMode::Hybrid || mode == QueryMode::LexicalVector {
        seq![
            ChannelResultView {
                channel: RankChannel::Vector,
                hits: found.lexical_vector.deep_view(),
            },
        ]
    } else {
        Seq::empty()
    };
    let dense = match found.dense {
        Some(hits) if mode == QueryMode::Hybrid || mode == QueryMode::Dense => seq![
            ChannelResultView { channel: RankChannel::Vector, hits: hits.deep_view() },
        ],
        _ => Seq::empty(),
    };
    let graph = if (mode == QueryMode::Hybrid || mode == QueryMode::Graph) && ids.len() > 0 {
        seq![
            ChannelResultView {
                channel: RankChannel::GraphExpand { top_k: 5, depth: 2 },
                hits: expanded(graph_added(found.reached.deep_view(), ids), HALF, seeds),
            },
        ]
    } else {
        Seq::empty()
    };
    let community = if (mode == QueryMode::Hybrid || mode == QueryMode::Community) && ids.len()
        > 0 {
        seq![
            ChannelResultView {
                channel: RankChannel::CommunityExpand { top_k: 5 },
                hits: expanded(community_added(db, space, ids), FOUR_TENTHS, seeds),
            },
        ]
    } else {
        Seq::empty()
    };
    lexical + vector + dense + graph + community
}

/// The hits of all channels, one channel after the other.
pub open spec fn all_hits(channels: Seq<ChannelResultView>) -> Seq<SearchHitView>
    decreases channels.len(),
{
    if channels.len() == 0 {
        Seq::empty()
    } else {
        all_hits(channels.drop_last()) + channels.last().hits
    }
}

/// A kind of target.
#[derive(Debug, Clone, Copy, PartialEq, Eq, Structural)]
pub enum TargetKind {
    Statement,
    Entity,
    Episode,
}

/// Selects the hits of one kind.
pub open spec fn is_kind(kind: TargetKind) -> spec_fn(SearchHitView) -> bool {
    |h: SearchHitView|
        match kind {
            TargetKind::Statement => h.target is Statement,
            TargetKind::Entity => h.target is Entity,
            TargetKind::Episode => h.target is Episode,
        }
}

/// The ids of the candidates of one kind, by id, each once.
pub open spec fn candidates(hits: Seq<SearchHitView>, kind: TargetKind) -> Seq<Seq<char>> {
    ordered(distinct(hits.filter(is_kind(kind)).map_values(hit_id())), by_text())
}

/// The latest time at which one of some assertions was retracted.
pub open spec fn latest_retraction(assertions: Seq<AssertionView>) -> Option<Timestamp>
    decreases assertions.len(),
{
    if assertions.len() == 0 {
        None
    } else {
        match (latest_retraction(assertions.drop_last()), assertions.last().retracted_at) {
            (Some(a), Some(b)) => if b.0 > a.0 {
                Some(b)
            } else {
                Some(a)
            },
            (None, Some(b)) => Some(b),
            (before, None) => before,
        }
    }
}

/// The facts of a statement: those of its belief with the latest start, or of
/// no belief at all.
pub open spec fn statement_facts(
    db: TablesView,
    space: Seq<char>,
    entities: Seq<Seq<char>>,
) -> spec_fn(Seq<char>) -> TargetFactsView {
    |id: Seq<char>|
        {
            let s = first_where(db.statements, crate::explain::is_statement(space, id))->Some_0;
            let found = ordered(db.beliefs.filter(believes(id)), by_latest_validity());
            let assertions = db.assertions.filter(asserts(id));
            TargetFactsView {
                target: TargetIdView::Statement { id },
                confidence: if found.len() > 0 {
                    found[0].confidence
                } else {
                    0
                },
                valid_from: if found.len() > 0 {
                    found[0].valid_from
                } else {
                    Timestamp(TIME_MIN)
                },
                valid_to: if found.len() > 0 {
                    found[0].valid_to
                } else {
                    Timestamp(TIME_MAX)
                },
                recorded_at: crate::timeline::latest_record(assertions),
                retracted_at: latest_retraction(assertions),
                status: if found.len() > 0 {
                    found[0].status
                } else {
                    "active"@
                },
                predicate: s.predicate,
                salience: match salience_of(db.entities, space, id) {
                    Some(v) if entities.contains(id) => v,
                    _ => HALF,
                },
                distinct_episodes: 1,
            }
        }
}

/// The facts of a target that beliefs say nothing of: certain, at all times.
pub open spec fn plain_facts(target: TargetIdView, salience: u64) -> TargetFactsView {
    TargetFactsView {
        target,
        confidence: ONE_SINGLE,
        valid_from: Timestamp(TIME_MIN),
        valid_to: Timestamp(TIME_MAX),
        recorded_at: Timestamp(TIME_MIN),
        retracted_at: None,
        status: "active"@,
        predicate: Seq::empty(),
        salience,
        distinct_episodes: 0,
    }
}

/// The facts of an entity.
pub open spec fn entity_facts(
    db: TablesView,
    space: Seq<char>,
) -> spec_fn(Seq<char>) -> TargetFactsView {
    |id: Seq<char>|
        plain_facts(
            TargetIdView::Entity { id },
            salience_of(db.entities, space, id)->Some_0,
        )
}

/// The facts of an episode.
pub open spec fn episode_facts() -> spec_fn(Seq<char>) -> TargetFactsView {
    |id: Seq<char>| plain_facts(TargetIdView::Episode { id }, ONE)
}

/// Selects the statements of a space by id.
pub open spec fn is_known_statement(
    db: TablesView,
    space: Seq<char>,
) -> spec_fn(Seq<char>) -> bool {
    |id: Seq<char>| some_where(db.statements, crate::explain::is_statement(space, id))
}

/// Selects the entities of a space by id.
pub open spec fn is_known_entity(db: TablesView, space: Seq<char>) -> spec_fn(Seq<char>) -> bool {
    |id: Seq<char>| salience_of(db.entities, space, id) is Some
}

/// The facts of every candidate that is known: statements, then entities, then
/// episodes, each by id.
pub open spec fn facts_of(db: TablesView, space: Seq<char>, hits: Seq<SearchHitView>) -> Seq<
    TargetFactsView,
> {
    let entities = candidates(hits, TargetKind::Entity);
    candidates(hits, TargetKind::Statement).filter(is_known_statement(db, space)).map_values(
        statement_facts(db, space, entities),
    ) + entities.filter(is_known_entity(db, space)).map_values(entity_facts(db, space))
        + candidates(hits, TargetKind::Episode).map_values(episode_facts())
}

fn collect_hits(channels: &Vec<ChannelResult>) -> (r: Vec<SearchHit>)
    ensures
        r.deep_view() == all_hits(channels.deep_view()),
{
    let ghost all = channels.deep_view();
    let mut out: Vec<SearchHit> = Vec::new();
    let mut i: usize = 0;
    assert(all.take(0) =~= Seq::empty());
    assert(out.deep_view() =~= Seq::<SearchHitView>::empty());
    while i < channels.len()
        invariant
            i <= channels.len(),
            all == channels.deep_view(),
            out.deep_view() == all_hits(all.take(i as int)),
        decreases channels.len() - i,
    {
        proof {
            assert(all.take(i + 1).drop_last() =~= all.take(i as int));
            assert(all.take(i + 1).last() == all[i as int]);
            assert(all[i as int] == channels[i as int].deep_view());
        }
        let ghost before = out.deep_view();
        let mut more = crate::rows::dup_rows(&channels[i].hits);
        let ghost added = more.deep_view();
        out.append(&mut more);
        assert(out.deep_view() =~= before + added);
        i = i + 1;
    }
    assert(all.take(i as int) =~= all);
    out
}

fn candidate_ids(hits: &Vec<SearchHit>, kind: TargetKind) -> (r: Vec<String>)
    ensures
        r.deep_view() == candidates(hits.deep_view(), kind),
{
    sorted_texts(
        unique_texts(
            pick(
                hits,
                |h: &SearchHit| -> (b: bool)
                    ensures
                        b == is_kind(kind)(h.deep_view())
                    {
                        match (&h.target, kind) {
                            (TargetId::Statement { id: _ }, TargetKind::Statement) => true,
                            (TargetId::Entity { id: _ }, TargetKind::Entity) => true,
                            (TargetId::Episode { id: _ }, TargetKind::Episode) => true,
                            _ => false,
                        }
                    },
                |h: &SearchHit| -> (s: String)
                    ensures
                        s.deep_view() == hit_id()(h.deep_view())
                    { id_of_hit(h) },
                Ghost(is_kind(kind)),
                Ghost(hit_id()),
            ),
        ),
    )
}

fn retraction_of(assertions: &Vec<Assertion>) -> (r: Option<Timestamp>)
    ensures
        r == latest_retraction(assertions.deep_view()),
{
    let ghost all = assertions.deep_view();
    let mut best: Option<Timestamp> = None;
    let mut i: usize = 0;
    while i < assertions.len()
        invariant
            i <= assertions.len(),
            all == assertions.deep_view(),
            best == latest_retraction(all.take(i as int)),
        decreases assertions.len() - i,
    {
        proof {
            assert(all.take(i + 1).drop_last() =~= all.take(i as int));
            assert(all.take(i + 1).last() == all[i as int]);
            assert(all[i as int] == assertions[i as int].deep_view());
        }
        match (best, assertions[i].retracted_at) {
            (Some(a), Some(b)) => {
                if b.0 > a.0 {
                    best = Some(b);
                }
            },
            (None, Some(b)) => {
                best = Some(b);
            },
            (_, None) => {},
        }
        i = i + 1;
    }
    assert(all.take(i as int) =~= all);
    best
}

fn make_statement_facts(
    db: &Tables,
    space: &str,
    id: &str,
    entities: &Vec<String>,
) -> (r: Option<TargetFacts>)
    ensures
        match r {
            Some(f) => is_known_statement(db.deep_view(), space@)(id@) && f.deep_view()
                == statement_facts(db.deep_view(), space@, entities.deep_view())(id@),
            None => !is_known_statement(db.deep_view(), space@)(id@),
        },
{
    let i: usize = match find(
        &db.statements,
        |s: &Statement| -> (b: bool)
            ensures
                b == crate::explain::is_statement(space@, id@)(s.deep_view())
            { str_eq(s.space.as_str(), space) && str_eq(s.id.as_str(), id) },
        Ghost(crate::explain::is_statement(space@, id@)),
    ) {
        Some(i) => i,
        None => {
            return None;
        },
    };
    assert(db.deep_view().statements[i as int] == db.statements[i as int].deep_view());
    let found = order(
        select(
            &db.beliefs,
            |b: &Belief| -> (hit: bool)
                ensures
                    hit == believes(id@)(b.deep_view())
                { str_eq(b.statement.as_str(), id) },
            Ghost(believes(id@)),
        ),
        |a: &Belief, b: &Belief| -> (le: bool)
            ensures
                le == by_latest_validity()(a.deep_view(), b.deep_view())
            { a.valid_from.0 >= b.valid_from.0 },
        Ghost(by_latest_validity()),
    );
    assert(found.deep_view().len() == found.len());
    let assertions = crate::knowledge::get_assertions_for_statement(db, id);
    let salience: u64 = match read_salience(db, space, id) {
        Some(v) => if holds(entities, id) {
            v
        } else {
            HALF
        },
        None => HALF,
    };
    let mut confidence: u32 = 0;
    let mut valid_from: Timestamp = Timestamp(TIME_MIN);
    let mut valid_to: Timestamp = Timestamp(TIME_MAX);
    let mut status: String = "active".to_owned();
    if found.len() > 0 {
        assert(found.deep_view()[0] == found[0].deep_view());
        confidence = found[0].confidence;
        valid_from = found[0].valid_from;
        valid_to = found[0].valid_to;
        status = found[0].status.clone();
    }
    Some(
        TargetFacts {
            target: TargetId::Statement { id: id.to_owned() },
            confidence,
            valid_from,
            valid_to,
            recorded_at: crate::timeline::latest_of(&assertions),
            retracted_at: retraction_of(&assertions),
            status,
            predicate: db.statements[i].predicate.clone(),
            salience,
            distinct_episodes: 1,
        },
    )
}

fn make_plain_facts(target: TargetId, salience: u64) -> (r: TargetFacts)
    ensures
        r.deep_view() == plain_facts(target.deep_view(), salience),
{
    TargetFacts {
        target,
        confidence: ONE_SINGLE,
        valid_from: Timestamp(TIME_MIN),
        valid_to: Timestamp(TIME_MAX),
        recorded_at: Timestamp(TIME_MIN),
        retracted_at: None,
        status: "active".to_owned(),
        predicate: String::new(),
        salience,
        distinct_episodes: 0,
    }
}

/// Fetch the facts for every candidate the channels emitted.
fn fetch_facts_for_candidates(
    db: &Tables,
    space: &str,
    channels: &Vec<ChannelResult>,
) -> (r: Vec<TargetFacts>)
    ensures
        r.deep_view() == facts_of(db.deep_view(), space@, all_hits(channels.deep_view())),
{
    let ghost view = db.deep_view();
    let hits = collect_hits(channels);
    let statements = candidate_ids(&hits, TargetKind::Statement);
    let entities = candidate_ids(&hits, TargetKind::Entity);
    let episodes = candidate_ids(&hits, TargetKind::Episode);
    let ghost sts = statements.deep_view();
    let ghost ents = entities.deep_view();
    let ghost sp = is_known_statement(view, space@);
    let ghost sf = statement_facts(view, space@, ents);
    let mut out: Vec<TargetFacts> = Vec::new();
    let mut i: usize = 0;
    proof {
        reveal(Seq::filter);
        assert(out.deep_view() =~= sts.take(0).filter(sp).map_values(sf));
    }
    while i < statements.len()
        invariant
            i <= statements.len(),
            view == db.deep_view(),
            sts == statements.deep_view(),
            ents == entities.deep_view(),
            sp == is_known_statement(view, space@),
            sf == statement_facts(view, space@, ents),
            out.deep_view() == sts.take(i as int).filter(sp).map_values(sf),
        decreases statements.len() - i,
    {
        let ghost before = out.deep_view();
        let ghost id = sts[i as int];
        let ghost kept = sts.take(i as int).filter(sp);
        proof {
            assert(sts.take(i + 1) =~= sts.take(i as int).push(id));
            sts.take(i as int).lemma_filter_push(id, sp);
        }
        match make_statement_facts(db, space, statements[i].as_str(), &entities) {
            Some(f) => {
                out.push(f);
                assert(out.deep_view() =~= before.push(sf(id)));
                assert(kept.push(id).map_values(sf) =~= kept.map_values(sf).push(sf(id)));
            },
            None => {},
        }
        i = i + 1;
    }
    assert(sts.take(i as int) =~= sts);
    let ghost first = out.deep_view();
    let ghost ep = is_known_entity(view, space@);
    let ghost ef = entity_facts(view, space@);
    let mut k: usize = 0;
    proof {
        reveal(Seq::filter);
        assert(out.deep_view() =~= first + ents.take(0).filter(ep).map_values(ef));
    }
    while k < entities.len()
        invariant
            k <= entities.len(),
            view == db.deep_view(),
            ents == entities.deep_view(),
            ep == is_known_entity(view, space@),
            ef == entity_facts(view, space@),
            out.deep_view() == first + ents.take(k as int).filter(ep).map_values(ef),
        decreases entities.len() - k,
    {
        let ghost before = out.deep_view();
        let ghost id = ents[k as int];
        let ghost kept = ents.take(k as int).filter(ep);
        proof {
            assert(ents.take(k + 1) =~= ents.take(k as int).push(id));
            ents.take(k as int).lemma_filter_push(id, ep);
        }
        match read_salience(db, space, entities[k].as_str()) {
            Some(s) => {
                out.push(make_plain_facts(TargetId::Entity { id: entities[k].clone() }, s));
                proof {
                    assert(out.deep_view() =~= before.push(ef(id)));
                    assert(kept.push(id).map_values(ef) =~= kept.map_values(ef).push(ef(id)));
                    assert(out.deep_view() =~= first + kept.push(id).map_values(ef));
                }
            },
            None => {},
        }
        k = k + 1;
    }
    assert(ents.take(k as int) =~= ents);
    let ghost second = out.deep_view();
    let mut last = map_rows(
        &episodes,
        |id: &String| -> (f: TargetFacts)
            ensures
                f.deep_view() == episode_facts()(id.deep_view())
            { make_plain_facts(TargetId::Episode { id: id.clone() }, ONE) },
        Ghost(episode_facts()),
    );
    let ghost third = last.deep_view();
    out.append(&mut last);
    assert(out.deep_view() =~= second + third);
    out
}

/// What is said where a dense search is asked for and no embedder is there.
pub open spec fn no_embedder() -> Seq<char> {
    "QueryMode::Dense requires a configured embedder; none is available (run `oxibrain model pull` and configure the embed port)"@
}

fn push_channel(out: &mut Vec<ChannelResult>, channel: RankChannel, hits: Vec<SearchHit>)
    ensures
        final(out).deep_view() == old(out).deep_view().push(
            ChannelResultView { channel, hits: hits.deep_view() },
        ),
{
    let ghost before = out.deep_view();
    let ghost h = hits.deep_view();
    out.push(ChannelResult { channel, hits });
    assert(out.deep_view() =~= before.push(ChannelResultView { channel, hits: h }));
}

/// Hybrid (or mode-specific) query: puts what the searches found into the
/// channels of the query's mode, and fetches the facts of every candidate for
/// ranking.
///
/// A dense search without an embedder is an error, never a silent lexical
/// substitute.
pub fn hybrid_query(db: &Tables, q: &Query, found: &SearchResults) -> (r: Result<
    RetrievalInput,
    BrainError,
>)
    ensures
        if q.mode == QueryMode::Dense && found.dense is None {
            fails_with(r, BrainErrorView::Config(no_embedder()))
        } else {
            let channels = channels_of(db.deep_view(), q.mode, q.space@, *found);
            &&& r matches Ok(input)
            &&& input.channels.deep_view() == channels
            &&& input.facts.deep_view() == facts_of(
                db.deep_view(),
                q.space@,
                all_hits(channels),
            )
        },
{
    let hybrid: bool = match q.mode {
        QueryMode::Hybrid => true,
        _ => false,
    };
    if q.mode == QueryMode::Dense && found.dense.is_none() {
        return Err(
            BrainError::Config(
                "QueryMode::Dense requires a configured embedder; none is available (run `oxibrain model pull` and configure the embed port)".to_owned(),
            ),
        );
    }
    let seeds = seed_ids(&found.seeds);
    let ghost ids = seeds.deep_view();
    assert(ids.len() == seeds.len());
    let mut channels: Vec<ChannelResult> = Vec::new();
    assert(channels.deep_view() =~= Seq::<ChannelResultView>::empty());
    if hybrid || q.mode == QueryMode::Lexical || q.mode == QueryMode::LexicalVector {
        push_channel(
            &mut channels,
            RankChannel::LexicalWord,
            crate::rows::dup_rows(&found.word),
        );
        push_channel(
            &mut channels,
            RankChannel::LexicalNgram,
            crate::rows::dup_rows(&found.ngram),
        );
    }
    if hybrid || q.mode == QueryMode::LexicalVector {
        push_channel(
            &mut channels,
            RankChannel::Vector,
            crate::rows::dup_rows(&found.lexical_vector),
        );
    }
    match &found.dense {
        Some(hits) => {
            if hybrid || q.mode == QueryMode::Dense {
                push_channel(
                    &mut channels,
                    RankChannel::Vector,
                    crate::rows::dup_rows(hits),
                );
            }
        },
        None => {},
    }
    if (hybrid || q.mode == QueryMode::Graph) && seeds.len() > 0 {
        let added = select(
            &found.reached,
            |id: &String| -> (b: bool)
                ensures
                    b == is_outside(ids)(id.deep_view())
                { !holds(&seeds, id.as_str()) },
            Ghost(is_outside(ids)),
        );
        let hits = expand(&added, HALF, &found.seeds);
        push_channel(&mut channels, RankChannel::GraphExpand { top_k: 5, depth: 2 }, hits);
    }
    if (hybrid || q.mode == QueryMode::Community) && seeds.len() > 0 {
        let added = community_newcomers(db, q.space.as_str(), &seeds);
        let hits = expand(&added, FOUR_TENTHS, &found.seeds);
        push_channel(&mut channels, RankChannel::CommunityExpand { top_k: 5 }, hits);
    }
    assert(channels.deep_view() =~= channels_of(db.deep_view(), q.mode, q.space@, *found));
    let facts = fetch_facts_for_candidates(db, q.space.as_str(), &channels);
    Ok(RetrievalInput { channels, facts })
}

} // verus!
