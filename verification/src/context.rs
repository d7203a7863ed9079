//! Context assembly: what is packed for an agent within a token budget.
use vstd::prelude::*;

use crate::error::{fails_with, BrainError, BrainErrorView};
use crate::explain::{by_latest_validity, is_statement};
use crate::knowledge::believes;
use crate::query::{TargetId, TargetIdView};
use crate::rows::{
    attempt_view, find, first_n, first_where, limited, order, ordered, select, tried, try_map,
};
use crate::tables::{Belief, EpisodeRow, EpisodeRowView, Object, Statement, Tables, TablesView};
use crate::text::{nat_text, show_u64, str_eq};
use crate::timeline::object_repr;
use crate::tokenizer::TokenizerPort;

verus! {

/// Hints that broaden context assembly.
#[derive(Debug)]
pub struct RecallHints {
    /// First query in this session — widen to more recent episodes.
    pub is_session_start: bool,
    /// Topic changed from prior query — widen neighborhood.
    pub topic_changed: bool,
    /// Recent query texts (for salience boost of entities mentioned repeatedly).
    pub recent_queries: Vec<String>,
}

impl Default for RecallHints {
    fn default() -> (r: Self)
        ensures
            !r.is_session_start,
            !r.topic_changed,
            r.recent_queries@.len() == 0,
    {
        RecallHints { is_session_start: false, topic_changed: false, recent_queries: Vec::new() }
    }
}

/// What a layer of context holds.
#[derive(Debug, Clone, Copy, PartialEq, Eq, Structural)]
pub enum LayerKind {
    HighSalienceBeliefs,
    RecentEpisodes,
}

/// A part of the context, with the ids of what it was made from.
#[derive(Debug)]
pub struct ContextLayer {
    pub kind: LayerKind,
    pub text: String,
    pub estimated_tokens: usize,
    pub provenance: Vec<String>,
}

/// [`ContextLayer`] as a mathematical value.
#[verifier::ext_equal]
pub struct ContextLayerView {
    pub kind: LayerKind,
    pub text: Seq<char>,
    pub estimated_tokens: nat,
    pub provenance: Seq<Seq<char>>,
}

impl DeepView for ContextLayer {
    type V = ContextLayerView;

    open spec fn deep_view(&self) -> ContextLayerView {
        ContextLayerView {
            kind: self.kind,
            text: self.text@,
            estimated_tokens: self.estimated_tokens as nat,
            provenance: self.provenance.deep_view(),
        }
    }
}

/// The layers that were packed, and what they cost.
#[derive(Debug)]
pub struct ContextResult {
    pub layers: Vec<ContextLayer>,
    pub total_tokens: usize,
    pub max_tokens: usize,
    pub truncated: bool,
}

/// [`ContextResult`] as a mathematical value.
#[verifier::ext_equal]
pub struct ContextResultView {
    pub layers: Seq<ContextLayerView>,
    pub total_tokens: nat,
    pub max_tokens: nat,
    pub truncated: bool,
}

impl DeepView for ContextResult {
    type V = ContextResultView;

    open spec fn deep_view(&self) -> ContextResultView {
        ContextResultView {
            layers: self.layers.deep_view(),
            total_tokens: self.total_tokens as nat,
            max_tokens: self.max_tokens as nat,
            truncated: self.truncated,
        }
    }
}

/// Selects the text of a confidence.
pub open spec fn shows(bits: u32) -> spec_fn((u32, Seq<char>)) -> bool {
    |p: (u32, Seq<char>)| p.0 == bits
}

/// Confidences with the texts that are shown for them: pairs of a bit pattern
/// and its text. One that is not there is shown as its bit pattern.
pub open spec fn shown_confidence(texts: Seq<(u32, Seq<char>)>, bits: u32) -> Seq<char> {
    match first_where(texts, shows(bits)) {
        Some(p) => p.1,
        None => nat_text(bits as nat),
    }
}

fn show_confidence(texts: &Vec<(u32, String)>, bits: u32) -> (r: String)
    ensures
        r@ == shown_confidence(texts.deep_view(), bits),
{
    match find(
        texts,
        |p: &(u32, String)| -> (b: bool)
            ensures
                b == shows(bits)(p.deep_view())
            { p.0 == bits },
        Ghost(shows(bits)),
    ) {
        Some(i) => {
            assert(texts.deep_view()[i as int] == texts[i as int].deep_view());
            assert(texts[i as int].deep_view().1 == texts[i as int].1@);
            texts[i].1.clone()
        },
        None => show_u64(bits as u64),
    }
}

/// The line of a belief.
pub open spec fn belief_line(
    predicate: Seq<char>,
    object: Seq<char>,
    status: Seq<char>,
    confidence: Seq<char>,
) -> Seq<char> {
    "... "@ + predicate + " "@ + object + " (status="@ + status + ", confidence="@ + confidence
        + ")"@
}

/// The line of a statement's current belief: the one with the latest start. A
/// statement that is not in the space, or that has no belief, is an error.
pub open spec fn rendered_belief(
    db: TablesView,
    space: Seq<char>,
    id: Seq<char>,
    texts: Seq<(u32, Seq<char>)>,
) -> Result<Seq<char>, BrainErrorView> {
    match first_where(db.statements, is_statement(space, id)) {
        None => Err(BrainErrorView::Storage("Query returned no rows"@)),
        Some(s) => {
            let beliefs = ordered(db.beliefs.filter(believes(id)), by_latest_validity());
            if beliefs.len() == 0 {
                Err(
                    BrainErrorView::Storage(
                        "Invalid column type Null at index: 3, name: status"@,
                    ),
                )
            } else {
                Ok(
                    belief_line(
                        s.predicate,
                        object_repr(s.object),
                        beliefs[0].status,
                        shown_confidence(texts, beliefs[0].confidence),
                    ),
                )
            }
        },
    }
}

fn render_belief(db: &Tables, space: &str, statement_id: &str, texts: &Vec<(u32, String)>) -> (r:
    Result<String, BrainError>)
    ensures
        match rendered_belief(db.deep_view(), space@, statement_id@, texts.deep_view()) {
            Ok(t) => r is Ok && r->Ok_0@ == t,
            Err(e) => fails_with(r, e),
        },
{
    let i: usize = match find(
        &db.statements,
        |s: &Statement| -> (b: bool)
            ensures
                b == is_statement(space@, statement_id@)(s.deep_view())
            { str_eq(s.space.as_str(), space) && str_eq(s.id.as_str(), statement_id) },
        Ghost(is_statement(space@, statement_id@)),
    ) {
        Some(i) => i,
        None => {
            return Err(BrainError::Storage("Query returned no rows".to_owned()));
        },
    };
    assert(db.deep_view().statements[i as int] == db.statements[i as int].deep_view());
    let beliefs = order(
        select(
            &db.beliefs,
            |b: &Belief| -> (hit: bool)
                ensures
                    hit == believes(statement_id@)(b.deep_view())
                { str_eq(b.statement.as_str(), statement_id) },
            Ghost(believes(statement_id@)),
        ),
        |a: &Belief, b: &Belief| -> (le: bool)
            ensures
                le == by_latest_validity()(a.deep_view(), b.deep_view())
            { a.valid_from.0 >= b.valid_from.0 },
        Ghost(by_latest_validity()),
    );
    assert(beliefs.deep_view().len() == beliefs.len());
    if beliefs.len() == 0 {
        return Err(
            BrainError::Storage("Invalid column type Null at index: 3, name: status".to_owned()),
        );
    }
    assert(beliefs.deep_view()[0] == beliefs[0].deep_view());
    let confidence = show_confidence(texts, beliefs[0].confidence);
    let object = match &db.statements[i].object {
        Object::Entity(s) => s.clone(),
        Object::Literal(s) => s.clone(),
    };
    let mut line = String::new();
    line.push_str("... ");
    line.push_str(db.statements[i].predicate.as_str());
    line.push_str(" ");
    line.push_str(object.as_str());
    line.push_str(" (status=");
    line.push_str(beliefs[0].status.as_str());
    line.push_str(", confidence=");
    line.push_str(confidence.as_str());
    line.push_str(")");
    assert(line@ =~= belief_line(
        db.statements[i as int].predicate@,
        object@,
        beliefs[0].status@,
        confidence@,
    ));
    Ok(line)
}

/// The statement that a ranked target stands for, with the line of its belief.
pub open spec fn ranked_line(
    db: TablesView,
    space: Seq<char>,
    texts: Seq<(u32, Seq<char>)>,
) -> spec_fn(TargetIdView) -> Result<Option<(Seq<char>, Seq<char>)>, BrainErrorView> {
    |t: TargetIdView|
        match t {
            TargetIdView::Statement { id } => match rendered_belief(db, space, id, texts) {
                Err(e) => Err(e),
                Ok(line) => Ok(Some((id, line))),
            },
            _ => Ok(None),
        }
}

/// Lines one below the other.
pub open spec fn lines_text(lines: Seq<(Seq<char>, Seq<char>)>) -> Seq<char>
    decreases lines.len(),
{
    if lines.len() == 0 {
        Seq::empty()
    } else {
        lines_text(lines.drop_last()) + lines.last().1 + "\n"@
    }
}

/// The id of each line.
pub open spec fn line_ids(lines: Seq<(Seq<char>, Seq<char>)>) -> Seq<Seq<char>> {
    lines.map_values(|l: (Seq<char>, Seq<char>)| l.0)
}

/// Selects the episodes that can be recalled: live, with text.
pub open spec fn is_recallable(space: Seq<char>) -> spec_fn(EpisodeRowView) -> bool {
    |e: EpisodeRowView| e.space == space && e.redacted_at is None && e.content.len() > 0
}

/// The order of episodes: the latest ingested first.
pub open spec fn by_latest_ingest() -> spec_fn(EpisodeRowView, EpisodeRowView) -> bool {
    |a: EpisodeRowView, b: EpisodeRowView| a.ingested_at.0 >= b.ingested_at.0
}

/// How many recent episodes are looked at.
pub open spec fn recent_limit(hints: Option<RecallHints>) -> nat {
    match hints {
        Some(h) => if h.is_session_start || h.topic_changed {
            20
        } else {
            5
        },
        None => 5,
    }
}

/// Episodes packed one after the other.
pub struct Packed {
    pub text: Seq<char>,
    pub ids: Seq<Seq<char>>,
    pub total: nat,
    pub truncated: bool,
}

/// What is packed of episodes, on top of what was spent before: episodes in
/// order, up to the first that does not fit what is left of the budget.
pub open spec fn packed<T: TokenizerPort>(
    t: T,
    episodes: Seq<EpisodeRowView>,
    budget: nat,
    spent: nat,
) -> Packed
    decreases episodes.len(),
{
    if episodes.len() == 0 {
        Packed { text: Seq::empty(), ids: Seq::empty(), total: spent, truncated: false }
    } else {
        let before = packed(t, episodes.drop_last(), budget, spent);
        let e = episodes.last();
        let left = if budget > before.total {
            (budget - before.total) as nat
        } else {
            0
        };
        if before.truncated {
            before
        } else if t.tokens(e.content) > left {
            Packed { truncated: true, ..before }
        } else {
            Packed {
                text: before.text + e.content + "\n"@,
                ids: before.ids.push(e.id),
                total: before.total + t.tokens(e.content),
                truncated: false,
            }
        }
    }
}

/// Packing that stopped stays as it is.
proof fn lemma_packed_stops<T: TokenizerPort>(
    t: T,
    episodes: Seq<EpisodeRowView>,
    budget: nat,
    spent: nat,
    k: int,
)
    requires
        0 <= k <= episodes.len(),
        packed(t, episodes.take(k), budget, spent).truncated,
    ensures
        packed(t, episodes, budget, spent) == packed(t, episodes.take(k), budget, spent),
    decreases episodes.len() - k,
{
    if k == episodes.len() {
        assert(episodes.take(k) =~= episodes);
    } else {
        assert(episodes.take(k + 1).drop_last() =~= episodes.take(k));
        lemma_packed_stops(t, episodes, budget, spent, k + 1);
    }
}

/// The lines that are kept: lines in order, up to the first with which the text
/// would cost more than the budget.
pub open spec fn kept_lines<T: TokenizerPort>(
    t: T,
    lines: Seq<(Seq<char>, Seq<char>)>,
    budget: nat,
) -> Seq<(Seq<char>, Seq<char>)>
    decreases lines.len(),
{
    if lines.len() == 0 {
        lines
    } else {
        let before = kept_lines(t, lines.drop_last(), budget);
        if before.len() + 1 == lines.len() && t.tokens(lines_text(lines)) <= budget {
            lines
        } else {
            before
        }
    }
}

/// Kept lines are the first ones, and cost no more than the budget.
proof fn lemma_kept_lines<T: TokenizerPort>(
    t: T,
    lines: Seq<(Seq<char>, Seq<char>)>,
    budget: nat,
)
    ensures
        kept_lines(t, lines, budget).len() <= lines.len(),
        kept_lines(t, lines, budget) == lines.take(kept_lines(t, lines, budget).len() as int),
        belief_cost(t, kept_lines(t, lines, budget)) <= budget,
    decreases lines.len(),
{
    if lines.len() > 0 {
        lemma_kept_lines(t, lines.drop_last(), budget);
        let n = kept_lines(t, lines.drop_last(), budget).len() as int;
        assert(lines.drop_last().take(n) =~= lines.take(n));
    }
    assert(lines.take(lines.len() as int) =~= lines);
}

/// Once a line does not fit, no later line is kept.
proof fn lemma_lines_stop<T: TokenizerPort>(
    t: T,
    lines: Seq<(Seq<char>, Seq<char>)>,
    budget: nat,
    k: int,
)
    requires
        0 <= k <= lines.len(),
        kept_lines(t, lines.take(k), budget).len() < k,
    ensures
        kept_lines(t, lines, budget) == kept_lines(t, lines.take(k), budget),
    decreases lines.len() - k,
{
    if k == lines.len() {
        assert(lines.take(k) =~= lines);
    } else {
        assert(lines.take(k + 1).drop_last() =~= lines.take(k));
        lemma_lines_stop(t, lines, budget, k + 1);
    }
}

/// The layer of the ranked beliefs, where there is one.
pub open spec fn belief_layer<T: TokenizerPort>(
    t: T,
    lines: Seq<(Seq<char>, Seq<char>)>,
) -> Seq<ContextLayerView> {
    if lines_text(lines).len() == 0 {
        Seq::empty()
    } else {
        seq![
            ContextLayerView {
                kind: LayerKind::HighSalienceBeliefs,
                text: lines_text(lines),
                estimated_tokens: t.tokens(lines_text(lines)),
                provenance: line_ids(lines),
            },
        ]
    }
}

/// The layer of the recent episodes, where there is one.
pub open spec fn episode_layer<T: TokenizerPort>(t: T, p: Packed) -> Seq<ContextLayerView> {
    if p.text.len() == 0 {
        Seq::empty()
    } else {
        seq![
            ContextLayerView {
                kind: LayerKind::RecentEpisodes,
                text: p.text,
                estimated_tokens: t.tokens(p.text),
                provenance: p.ids,
            },
        ]
    }
}

/// What the beliefs cost.
pub open spec fn belief_cost<T: TokenizerPort>(t: T, lines: Seq<(Seq<char>, Seq<char>)>) -> nat {
    if lines_text(lines).len() == 0 {
        0
    } else {
        t.tokens(lines_text(lines))
    }
}

/// The episodes that are looked at.
pub open spec fn recent_episodes(
    db: TablesView,
    space: Seq<char>,
    hints: Option<RecallHints>,
) -> Seq<EpisodeRowView> {
    first_n(
        ordered(db.episodes.filter(is_recallable(space)), by_latest_ingest()),
        recent_limit(hints),
    )
}

/// The context that is assembled from ranked targets.
pub open spec fn assembled<T: TokenizerPort>(
    db: TablesView,
    space: Seq<char>,
    ranking: Seq<TargetIdView>,
    texts: Seq<(u32, Seq<char>)>,
    budget: nat,
    hints: Option<RecallHints>,
    t: T,
) -> Result<ContextResultView, BrainErrorView> {
    match tried(ranking, ranked_line(db, space, texts)) {
        Err(e) => Err(e),
        Ok(lines) => {
            let kept = kept_lines(t, lines, budget);
            let p = packed(t, recent_episodes(db, space, hints), budget, belief_cost(t, kept));
            Ok(
                ContextResultView {
                    layers: belief_layer(t, kept) + episode_layer(t, p),
                    total_tokens: p.total,
                    max_tokens: budget,
                    truncated: p.truncated || kept.len() < lines.len(),
                },
            )
        },
    }
}

fn pack_lines<T: TokenizerPort>(
    tokenizer: &T,
    lines: &Vec<(String, String)>,
    budget: usize,
) -> (r: (String, Vec<String>, usize, bool))
    ensures
        ({
            let kept = kept_lines(*tokenizer, lines.deep_view(), budget as nat);
            &&& r.0@ == lines_text(kept)
            &&& r.1.deep_view() == line_ids(kept)
            &&& r.2 == belief_cost(*tokenizer, kept)
            &&& r.3 == (kept.len() < lines.len())
        }),
{
    let ghost all = lines.deep_view();
    let mut text = String::new();
    let mut ids: Vec<String> = Vec::new();
    let mut spent: usize = 0;
    let mut i: usize = 0;
    assert(all.take(0) =~= Seq::empty());
    assert(ids.deep_view() =~= line_ids(all.take(0)));
    while i < lines.len()
        invariant
            i <= lines.len(),
            all == lines.deep_view(),
            kept_lines(*tokenizer, all.take(i as int), budget as nat) == all.take(i as int),
            text@ == lines_text(all.take(i as int)),
            ids.deep_view() == line_ids(all.take(i as int)),
            spent == belief_cost(*tokenizer, all.take(i as int)),
        decreases lines.len() - i,
    {
        let ghost before = ids.deep_view();
        proof {
            assert(all.take(i + 1).drop_last() =~= all.take(i as int));
            assert(all.take(i + 1).last() == all[i as int]);
            assert(all[i as int] == lines[i as int].deep_view());
        }
        let mut longer = text.clone();
        longer.push_str(lines[i].1.as_str());
        longer.push_str("\n");
        let cost: usize = tokenizer.count(longer.as_str());
        if cost > budget {
            proof {
                lemma_lines_stop(*tokenizer, all, budget as nat, i + 1);
            }
            return (text, ids, spent, true);
        }
        text = longer;
        spent = cost;
        ids.push(lines[i].0.clone());
        proof {
            reveal_strlit("\n");
            assert(ids.deep_view() =~= before.push(all[i as int].0));
            assert(line_ids(all.take(i + 1)) =~= line_ids(all.take(i as int)).push(
                all[i as int].0,
            ));
        }
        i = i + 1;
    }
    assert(all.take(i as int) =~= all);
    (text, ids, spent, false)
}

fn list_recent(db: &Tables, space: &str, hints: &Option<RecallHints>) -> (r: Vec<EpisodeRow>)
    ensures
        r.deep_view() == recent_episodes(db.deep_view(), space@, *hints),
{
    let n: usize = match hints {
        Some(h) => if h.is_session_start || h.topic_changed {
            20
        } else {
            5
        },
        None => 5,
    };
    limited(
        order(
            select(
                &db.episodes,
                |e: &EpisodeRow| -> (b: bool)
                    ensures
                        b == is_recallable(space@)(e.deep_view())
                    {
                        proof {
                            reveal_strlit("");
                            assert(e.content@.len() == 0 ==> e.content@ =~= ""@);
                        }
                        str_eq(e.space.as_str(), space) && e.redacted_at.is_none() && !str_eq(
                            e.content.as_str(),
                            "",
                        )
                    },
                Ghost(is_recallable(space@)),
            ),
            |a: &EpisodeRow, b: &EpisodeRow| -> (le: bool)
                ensures
                    le == by_latest_ingest()(a.deep_view(), b.deep_view())
                { a.ingested_at.0 >= b.ingested_at.0 },
            Ghost(by_latest_ingest()),
        ),
        n,
    )
}

fn pack_episodes<T: TokenizerPort>(
    tokenizer: &T,
    recent: &Vec<EpisodeRow>,
    budget: usize,
    spent: usize,
) -> (r: (String, Vec<String>, usize, bool))
    ensures
        ({
            let p = packed(*tokenizer, recent.deep_view(), budget as nat, spent as nat);
            r.0@ == p.text && r.1.deep_view() == p.ids && r.2 == p.total && r.3 == p.truncated
        }),
{
    let ghost all = recent.deep_view();
    let mut text = String::new();
    let mut ids: Vec<String> = Vec::new();
    let mut total: usize = spent;
    let mut i: usize = 0;
    assert(all.take(0) =~= Seq::empty());
    assert(ids.deep_view() =~= Seq::<Seq<char>>::empty());
    while i < recent.len()
        invariant
            i <= recent.len(),
            all == recent.deep_view(),
            text@ == packed(*tokenizer, all.take(i as int), budget as nat, spent as nat).text,
            ids.deep_view() == packed(
                *tokenizer,
                all.take(i as int),
                budget as nat,
                spent as nat,
            ).ids,
            total == packed(*tokenizer, all.take(i as int), budget as nat, spent as nat).total,
            !packed(*tokenizer, all.take(i as int), budget as nat, spent as nat).truncated,
        decreases recent.len() - i,
    {
        let ghost before = ids.deep_view();
        proof {
            assert(all.take(i + 1).drop_last() =~= all.take(i as int));
            assert(all.take(i + 1).last() == all[i as int]);
            assert(all[i as int] == recent[i as int].deep_view());
        }
        let left: usize = if budget > total {
            budget - total
        } else {
            0
        };
        let cost: usize = tokenizer.count(recent[i].content.as_str());
        if cost > left {
            proof {
                lemma_packed_stops(*tokenizer, all, budget as nat, spent as nat, i + 1);
            }
            return (text, ids, total, true);
        }
        text.push_str(recent[i].content.as_str());
        text.push_str("\n");
        ids.push(recent[i].id.clone());
        assert(ids.deep_view() =~= before.push(all[i as int].id));
        total = total + cost;
        i = i + 1;
    }
    assert(all.take(i as int) =~= all);
    (text, ids, total, false)
}

/// Pack context for a query to a token budget. `ranking` is what the query
/// found, best first; `texts` gives the texts that are shown for confidences.
/// When `hints` is provided, the layer composition adapts.
pub fn assemble_context<T: TokenizerPort>(
    db: &Tables,
    space: &str,
    ranking: &Vec<TargetId>,
    texts: &Vec<(u32, String)>,
    budget: usize,
    hints: &Option<RecallHints>,
    tokenizer: &T,
) -> (r: Result<ContextResult, BrainError>)
    ensures
        match assembled(
            db.deep_view(),
            space@,
            ranking.deep_view(),
            texts.deep_view(),
            budget as nat,
            *hints,
            *tokenizer,
        ) {
            Ok(v) => r is Ok && r->Ok_0.deep_view() == v,
            Err(e) => fails_with(r, e),
        },
        r matches Ok(c) ==> c.total_tokens <= budget,
{
    let ghost g = ranked_line(db.deep_view(), space@, texts.deep_view());
    let lines = match try_map(
        ranking,
        |t: &TargetId| -> (u: Result<Option<(String, String)>, BrainError>)
            ensures
                attempt_view(u) == g(t.deep_view())
            {
                match t {
                    TargetId::Statement { id } => match render_belief(
                        db,
                        space,
                        id.as_str(),
                        texts,
                    ) {
                        Err(e) => Err(e),
                        Ok(line) => Ok(Some((id.clone(), line))),
                    },
                    _ => Ok(None),
                }
            },
        Ghost(g),
    ) {
        Ok(v) => v,
        Err(e) => {
            return Err(e);
        },
    };
    let mut layers: Vec<ContextLayer> = Vec::new();
    let (text, ids, spent, cut) = pack_lines(tokenizer, &lines, budget);
    let ghost kept = kept_lines(*tokenizer, lines.deep_view(), budget as nat);
    proof {
        reveal_strlit("");
        assert(""@ =~= Seq::<char>::empty());
        lemma_kept_lines(*tokenizer, lines.deep_view(), budget as nat);
        law_packing_keeps_to_budget(
            *tokenizer,
            recent_episodes(db.deep_view(), space@, *hints),
            budget as nat,
            spent as nat,
        );
    }
    assert(text@.len() == 0 ==> text@ =~= ""@);
    if !str_eq(text.as_str(), "") {
        layers.push(
            ContextLayer {
                kind: LayerKind::HighSalienceBeliefs,
                text,
                estimated_tokens: spent,
                provenance: ids,
            },
        );
    }
    assert(layers.deep_view() =~= belief_layer(*tokenizer, kept));
    let recent = list_recent(db, space, hints);
    let (episodes, packed_ids, total, truncated) = pack_episodes(
        tokenizer,
        &recent,
        budget,
        spent,
    );
    let ghost first = layers.deep_view();
    assert(episodes@.len() == 0 ==> episodes@ =~= ""@);
    if !str_eq(episodes.as_str(), "") {
        let estimated: usize = tokenizer.count(episodes.as_str());
        layers.push(
            ContextLayer {
                kind: LayerKind::RecentEpisodes,
                text: episodes,
                estimated_tokens: estimated,
                provenance: packed_ids,
            },
        );
    }
    proof {
        let p = packed(
            *tokenizer,
            recent.deep_view(),
            budget as nat,
            belief_cost(*tokenizer, kept),
        );
        assert(layers.deep_view() =~= first + episode_layer(*tokenizer, p));
    }
    Ok(
        ContextResult {
            layers,
            total_tokens: total,
            max_tokens: budget,
            truncated: truncated || cut,
        },
    )
}

/// Recent episodes never spend more than what is left of the budget: packing
/// on top of what fits the budget ends within it.
pub proof fn law_packing_keeps_to_budget<T: TokenizerPort>(
    t: T,
    episodes: Seq<EpisodeRowView>,
    budget: nat,
    spent: nat,
)
    ensures
        packed(t, episodes, budget, spent).total <= if spent > budget {
            spent
        } else {
            budget
        },
        packed(t, episodes, budget, spent).total >= spent,
    decreases episodes.len(),
{
    if episodes.len() > 0 {
        law_packing_keeps_to_budget(t, episodes.drop_last(), budget, spent);
    }
}

} // verus!
