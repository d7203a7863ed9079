//! What summaries are asked for with, and how sure the beliefs behind them are.
use vstd::prelude::*;

use crate::consolidation::{CommunityGroup, EpisodeCluster};
use crate::error::{fails_with, BrainError, BrainErrorView};
use crate::knowledge::{entity_has_id, get_entity};
use crate::query::{beliefs_for_entity, entity_beliefs};
use crate::rows::{
    attempt_view, count, find, first_where, holds, map_rows, select, some_where, tried, try_map,
};
use crate::tables::{
    Assertion, AssertionView, Belief, BeliefView, EpisodeRow, EpisodeRowView, Statement,
    StatementView, Tables, TablesView,
};
use crate::text::{cat5, str_eq};
use crate::time::Timestamp;

verus! {

/// Texts one after the other.
pub open spec fn concatenated(texts: Seq<Seq<char>>) -> Seq<char>
    decreases texts.len(),
{
    if texts.len() == 0 {
        Seq::empty()
    } else {
        concatenated(texts.drop_last()) + texts.last()
    }
}

/// Texts with a separator between them.
pub open spec fn joined(texts: Seq<Seq<char>>, separator: Seq<char>) -> Seq<char>
    decreases texts.len(),
{
    if texts.len() == 0 {
        Seq::empty()
    } else if texts.len() == 1 {
        texts[0]
    } else {
        joined(texts.drop_last(), separator) + separator + texts.last()
    }
}

fn concat_after(head: &str, texts: &Vec<String>) -> (r: String)
    ensures
        r@ == head@ + concatenated(texts.deep_view()),
{
    let ghost all = texts.deep_view();
    let mut out: String = head.to_owned();
    let mut i: usize = 0;
    assert(all.take(0) =~= Seq::empty());
    assert(out@ =~= head@ + concatenated(all.take(0)));
    while i < texts.len()
        invariant
            i <= texts.len(),
            all == texts.deep_view(),
            out@ == head@ + concatenated(all.take(i as int)),
        decreases texts.len() - i,
    {
        proof {
            assert(all.take(i + 1).drop_last() =~= all.take(i as int));
            assert(all.take(i + 1).last() == all[i as int]);
        }
        out.push_str(texts[i].as_str());
        assert(out@ =~= head@ + concatenated(all.take(i + 1)));
        i = i + 1;
    }
    assert(all.take(i as int) =~= all);
    out
}

/// Joins texts with a separator.
pub(crate) fn join_texts(texts: &Vec<String>, separator: &str) -> (r: String)
    ensures
        r@ == joined(texts.deep_view(), separator@),
{
    let ghost all = texts.deep_view();
    if texts.len() == 0 {
        let r = String::new();
        assert(r@ =~= Seq::<char>::empty());
        return r;
    }
    let mut out: String = texts[0].clone();
    let mut i: usize = 1;
    assert(all.take(1)[0] == all[0]);
    while i < texts.len()
        invariant
            1 <= i <= texts.len(),
            all == texts.deep_view(),
            out@ == joined(all.take(i as int), separator@),
        decreases texts.len() - i,
    {
        proof {
            assert(all.take(i + 1).drop_last() =~= all.take(i as int));
            assert(all.take(i + 1).last() == all[i as int]);
        }
        out.push_str(separator);
        out.push_str(texts[i].as_str());
        i = i + 1;
    }
    assert(all.take(i as int) =~= all);
    out
}

/// Selects an episode of a space by id.
pub open spec fn is_episode(space: Seq<char>, id: Seq<char>) -> spec_fn(EpisodeRowView) -> bool {
    |e: EpisodeRowView| e.id == id && e.space == space
}

/// The part of a prompt that quotes an episode.
pub open spec fn episode_part(
    db: TablesView,
    space: Seq<char>,
) -> spec_fn(Seq<char>) -> Result<Option<Seq<char>>, BrainErrorView> {
    |id: Seq<char>|
        match first_where(db.episodes, is_episode(space, id)) {
            None => Err(BrainErrorView::Storage("Query returned no rows"@)),
            Some(e) => Ok(Some("--- Episode "@ + id + " ---\n"@ + e.content + "\n\n"@)),
        }
}

fn quote_episode(db: &Tables, space: &str, id: &str) -> (r: Result<Option<String>, BrainError>)
    ensures
        attempt_view(r) == episode_part(db.deep_view(), space@)(id@),
{
    match find(
        &db.episodes,
        |e: &EpisodeRow| -> (b: bool)
            ensures
                b == is_episode(space@, id@)(e.deep_view())
            { str_eq(e.id.as_str(), id) && str_eq(e.space.as_str(), space) },
        Ghost(is_episode(space@, id@)),
    ) {
        None => Err(BrainError::Storage("Query returned no rows".to_owned())),
        Some(i) => {
            assert(db.deep_view().episodes[i as int] == db.episodes[i as int].deep_view());
            Ok(
                Some(
                    cat5("--- Episode ", id, " ---\n", db.episodes[i].content.as_str(), "\n\n"),
                ),
            )
        },
    }
}

/// What the prompt for a cluster begins with.
pub open spec fn cluster_heading() -> Seq<char> {
    "Summarize the following related episodes into a concise thematic summary. Focus on key entities, relationships, and decisions.\n\n"@
}

/// Build the prompt for summarizing a cluster: a heading, then the text of each
/// episode. An episode that is not in the space is an error.
pub fn build_consolidation_prompt(db: &Tables, space: &str, cluster: &EpisodeCluster) -> (r: Result<
    String,
    BrainError,
>)
    ensures
        match tried(cluster.episode_ids.deep_view(), episode_part(db.deep_view(), space@)) {
            Ok(parts) => r is Ok && r->Ok_0@ == cluster_heading() + concatenated(parts),
            Err(e) => fails_with(r, e),
        },
{
    let ghost g = episode_part(db.deep_view(), space@);
    match try_map(
        &cluster.episode_ids,
        |id: &String| -> (u: Result<Option<String>, BrainError>)
            ensures
                attempt_view(u) == g(id.deep_view())
            { quote_episode(db, space, id.as_str()) },
        Ghost(g),
    ) {
        Err(e) => Err(e),
        Ok(parts) => Ok(
            concat_after(
                "Summarize the following related episodes into a concise thematic summary. Focus on key entities, relationships, and decisions.\n\n",
                &parts,
            ),
        ),
    }
}

/// Selects the text that is shown for a belief: pairs of a status and a
/// confidence, and the text.
pub open spec fn shows_belief(
    status: Seq<char>,
    confidence: u32,
) -> spec_fn((Seq<char>, u32, Seq<char>)) -> bool {
    |t: (Seq<char>, u32, Seq<char>)| t.0 == status && t.1 == confidence
}

/// The text that is shown for a belief, or its status where none is given.
pub open spec fn shown_belief(
    texts: Seq<(Seq<char>, u32, Seq<char>)>,
) -> spec_fn(BeliefView) -> Seq<char> {
    |b: BeliefView|
        match first_where(texts, shows_belief(b.status, b.confidence)) {
            Some(t) => t.2,
            None => b.status,
        }
}

fn show_belief(texts: &Vec<(String, u32, String)>, b: &Belief) -> (r: String)
    ensures
        r@ == shown_belief(texts.deep_view())(b.deep_view()),
{
    match find(
        texts,
        |t: &(String, u32, String)| -> (hit: bool)
            ensures
                hit == shows_belief(b.status@, b.confidence)(t.deep_view())
            { str_eq(t.0.as_str(), b.status.as_str()) && t.1 == b.confidence },
        Ghost(shows_belief(b.status@, b.confidence)),
    ) {
        Some(i) => {
            assert(texts.deep_view()[i as int] == texts[i as int].deep_view());
            texts[i].2.clone()
        },
        None => b.status.clone(),
    }
}

/// The part of a prompt that lists an entity with its beliefs.
pub open spec fn entity_part(
    db: TablesView,
    space: Seq<char>,
    texts: Seq<(Seq<char>, u32, Seq<char>)>,
) -> spec_fn(Seq<char>) -> Seq<char> {
    |id: Seq<char>|
        "- "@ + id + " ("@ + (match first_where(db.entities, entity_has_id(id)) {
            Some(e) => e.ty,
            None => "Unknown"@,
        }) + "): "@ + joined(
            entity_beliefs(db, space, id).map_values(shown_belief(texts)),
            ", "@,
        ) + "\n"@
}

fn list_entity(db: &Tables, space: &str, texts: &Vec<(String, u32, String)>, id: &str) -> (r:
    String)
    ensures
        r@ == entity_part(db.deep_view(), space@, texts.deep_view())(id@),
{
    let ty = match get_entity(db, id) {
        Some(e) => e.ty,
        None => "Unknown".to_owned(),
    };
    let beliefs = beliefs_for_entity(db, space, id);
    let ghost g = shown_belief(texts.deep_view());
    let shown = map_rows(
        &beliefs,
        |b: &Belief| -> (s: String)
            ensures
                s.deep_view() == g(b.deep_view())
            { show_belief(texts, b) },
        Ghost(g),
    );
    let list = join_texts(&shown, ", ");
    let mut out = cat5("- ", id, " (", ty.as_str(), "): ");
    out.push_str(list.as_str());
    out.push_str("\n");
    out
}

/// Build the prompt for summarizing a community's entities and beliefs. `texts`
/// gives the texts that are shown for beliefs.
pub fn build_community_prompt(
    db: &Tables,
    space: &str,
    group: &CommunityGroup,
    texts: &Vec<(String, u32, String)>,
) -> (r: String)
    ensures
        r@ == "Summarize the key themes and relationships among these entities:\n\n"@
            + concatenated(
            group.entity_ids.deep_view().map_values(
                entity_part(db.deep_view(), space@, texts.deep_view()),
            ),
        ),
{
    let ghost g = entity_part(db.deep_view(), space@, texts.deep_view());
    let parts = map_rows(
        &group.entity_ids,
        |id: &String| -> (s: String)
            ensures
                s.deep_view() == g(id.deep_view())
            { list_entity(db, space, texts, id.as_str()) },
        Ghost(g),
    );
    concat_after(
        "Summarize the key themes and relationships among these entities:\n\n",
        &parts,
    )
}

/// What a readable support record says.
#[derive(Debug, Clone, Copy, PartialEq, Eq, Structural)]
pub struct SupportFacts {
    pub distinct_episodes: u32,
    /// Whether evidence from an untrusted source is part of it.
    pub untrusted: bool,
}

impl DeepView for SupportFacts {
    type V = SupportFacts;

    open spec fn deep_view(&self) -> SupportFacts {
        *self
    }
}

/// Belief statistics for a set of entities, for uncertainty.
#[derive(Debug, Clone, Copy, PartialEq, Eq, Structural)]
pub struct BeliefStats {
    pub total_beliefs: usize,
    pub contradicted_beliefs: usize,
    pub single_source_beliefs: usize,
    pub untrusted_beliefs: usize,
    /// When the newest supporting episode was ingested.
    pub newest_episode: Option<Timestamp>,
}

/// Selects a statement by id, where its subject is one of some entities.
pub open spec fn is_about_any(
    space: Seq<char>,
    entities: Seq<Seq<char>>,
    id: Seq<char>,
) -> spec_fn(StatementView) -> bool {
    |s: StatementView| s.id == id && s.space == space && entities.contains(s.subject)
}

fn speaks_about(db: &Tables, space: &str, entity_ids: &Vec<String>, statement: &str) -> (r: bool)
    ensures
        r == some_where(
            db.deep_view().statements,
            is_about_any(space@, entity_ids.deep_view(), statement@),
        ),
{
    let hit = find(
        &db.statements,
        |s: &Statement| -> (b: bool)
            ensures
                b == is_about_any(space@, entity_ids.deep_view(), statement@)(s.deep_view())
            {
                str_eq(s.id.as_str(), statement) && str_eq(s.space.as_str(), space) && holds(
                    entity_ids,
                    s.subject.as_str(),
                )
            },
        Ghost(is_about_any(space@, entity_ids.deep_view(), statement@)),
    );
    hit.is_some()
}

/// Selects the beliefs that are counted: those about the entities that were not
/// withdrawn.
pub open spec fn is_counted(
    db: TablesView,
    space: Seq<char>,
    entities: Seq<Seq<char>>,
) -> spec_fn(BeliefView) -> bool {
    |b: BeliefView|
        some_where(db.statements, is_about_any(space, entities, b.statement)) && (b.status
            == "active"@ || b.status == "superseded"@ || b.status == "contradicted"@)
}

/// Selects the contradicted beliefs.
pub open spec fn is_disputed() -> spec_fn(BeliefView) -> bool {
    |b: BeliefView| b.status == "contradicted"@
}

/// Selects the facts of a support record.
pub open spec fn reads(json: Seq<char>) -> spec_fn((Seq<char>, SupportFacts)) -> bool {
    |p: (Seq<char>, SupportFacts)| p.0 == json
}

/// Selects the beliefs with at most one supporting episode, among those whose
/// support record is readable.
pub open spec fn is_single(supports: Seq<(Seq<char>, SupportFacts)>) -> spec_fn(BeliefView) -> bool {
    |b: BeliefView|
        first_where(supports, reads(b.support_json)) matches Some(p) && p.1.distinct_episodes <= 1
}

/// Selects the beliefs with evidence from an untrusted source, among those whose
/// support record is readable.
pub open spec fn is_untrusted(supports: Seq<(Seq<char>, SupportFacts)>) -> spec_fn(
    BeliefView,
) -> bool {
    |b: BeliefView|
        first_where(supports, reads(b.support_json)) matches Some(p) && p.1.untrusted
}

fn facts_for(supports: &Vec<(String, SupportFacts)>, json: &str) -> (r: Option<SupportFacts>)
    ensures
        match first_where(supports.deep_view(), reads(json@)) {
            Some(p) => r == Some(p.1),
            None => r is None,
        },
{
    match find(
        supports,
        |p: &(String, SupportFacts)| -> (b: bool)
            ensures
                b == reads(json@)(p.deep_view())
            { str_eq(p.0.as_str(), json) },
        Ghost(reads(json@)),
    ) {
        Some(i) => {
            assert(supports.deep_view()[i as int] == supports[i as int].deep_view());
            Some(supports[i].1)
        },
        None => None,
    }
}

/// Selects the assertions of an episode about the entities.
pub open spec fn supports_any(
    db: TablesView,
    space: Seq<char>,
    entities: Seq<Seq<char>>,
    episode: Seq<char>,
) -> spec_fn(AssertionView) -> bool {
    |a: AssertionView|
        a.episode == episode && some_where(
            db.statements,
            is_about_any(space, entities, a.statement),
        )
}

/// Selects the episodes that support statements about the entities.
pub open spec fn is_supporting(
    db: TablesView,
    space: Seq<char>,
    entities: Seq<Seq<char>>,
) -> spec_fn(EpisodeRowView) -> bool {
    |e: EpisodeRowView| some_where(db.assertions, supports_any(db, space, entities, e.id))
}

/// The latest time at which one of some episodes was ingested.
pub open spec fn latest_ingest(episodes: Seq<EpisodeRowView>) -> Option<Timestamp>
    decreases episodes.len(),
{
    if episodes.len() == 0 {
        None
    } else {
        let last = episodes.last().ingested_at;
        match latest_ingest(episodes.drop_last()) {
            Some(t) => if last.0 > t.0 {
                Some(last)
            } else {
                Some(t)
            },
            None => Some(last),
        }
    }
}

fn newest(episodes: &Vec<EpisodeRow>) -> (r: Option<Timestamp>)
    ensures
        r == latest_ingest(episodes.deep_view()),
{
    let ghost all = episodes.deep_view();
    let mut best: Option<Timestamp> = None;
    let mut i: usize = 0;
    assert(all.take(0) =~= Seq::empty());
    while i < episodes.len()
        invariant
            i <= episodes.len(),
            all == episodes.deep_view(),
            best == latest_ingest(all.take(i as int)),
        decreases episodes.len() - i,
    {
        proof {
            assert(all.take(i + 1).drop_last() =~= all.take(i as int));
            assert(all.take(i + 1).last() == all[i as int]);
            assert(all[i as int] == episodes[i as int].deep_view());
        }
        let at: Timestamp = episodes[i].ingested_at;
        best = match best {
            Some(t) => if at.0 > t.0 {
                Some(at)
            } else {
                Some(t)
            },
            None => Some(at),
        };
        i = i + 1;
    }
    assert(all.take(i as int) =~= all);
    best
}

/// Compute belief statistics for a set of entities. `supports` gives what each
/// readable support record says; a record that is not there cannot be read. No
/// entities give no beliefs.
pub fn belief_stats_for_entities(
    db: &Tables,
    space: &str,
    entity_ids: &Vec<String>,
    supports: &Vec<(String, SupportFacts)>,
) -> (r: BeliefStats)
    ensures
        ({
            let counted = db.deep_view().beliefs.filter(
                is_counted(db.deep_view(), space@, entity_ids.deep_view()),
            );
            &&& r.total_beliefs == counted.len()
            &&& r.contradicted_beliefs == counted.filter(is_disputed()).len()
            &&& r.single_source_beliefs == counted.filter(is_single(supports.deep_view())).len()
            &&& r.untrusted_beliefs == counted.filter(is_untrusted(supports.deep_view())).len()
            &&& r.newest_episode == latest_ingest(
                db.deep_view().episodes.filter(
                    is_supporting(db.deep_view(), space@, entity_ids.deep_view()),
                ),
            )
        }),
{
    let ghost view = db.deep_view();
    let ghost ids = entity_ids.deep_view();
    let counted = select(
        &db.beliefs,
        |b: &Belief| -> (hit: bool)
            ensures
                hit == is_counted(view, space@, ids)(b.deep_view())
            {
                speaks_about(db, space, entity_ids, b.statement.as_str()) && (str_eq(
                    b.status.as_str(),
                    "active",
                ) || str_eq(b.status.as_str(), "superseded") || str_eq(
                    b.status.as_str(),
                    "contradicted",
                ))
            },
        Ghost(is_counted(view, space@, ids)),
    );
    assert(counted.deep_view().len() == counted.len());
    let contradicted: usize = count(
        &counted,
        |b: &Belief| -> (hit: bool)
            ensures
                hit == is_disputed()(b.deep_view())
            { str_eq(b.status.as_str(), "contradicted") },
        Ghost(is_disputed()),
    );
    let ghost read = supports.deep_view();
    let single: usize = count(
        &counted,
        |b: &Belief| -> (hit: bool)
            ensures
                hit == is_single(read)(b.deep_view())
            {
                match facts_for(supports, b.support_json.as_str()) {
                    Some(f) => f.distinct_episodes <= 1,
                    None => false,
                }
            },
        Ghost(is_single(read)),
    );
    let untrusted: usize = count(
        &counted,
        |b: &Belief| -> (hit: bool)
            ensures
                hit == is_untrusted(read)(b.deep_view())
            {
                match facts_for(supports, b.support_json.as_str()) {
                    Some(f) => f.untrusted,
                    None => false,
                }
            },
        Ghost(is_untrusted(read)),
    );
    let supporting = select(
        &db.episodes,
        |e: &EpisodeRow| -> (b: bool)
            ensures
                b == is_supporting(view, space@, ids)(e.deep_view())
            {
                let hit = find(
                    &db.assertions,
                    |a: &Assertion| -> (b: bool)
                        ensures
                            b == supports_any(view, space@, ids, e.id@)(a.deep_view())
                        {
                            str_eq(a.episode.as_str(), e.id.as_str()) && speaks_about(
                                db,
                                space,
                                entity_ids,
                                a.statement.as_str(),
                            )
                        },
                    Ghost(supports_any(view, space@, ids, e.id@)),
                );
                hit.is_some()
            },
        Ghost(is_supporting(view, space@, ids)),
    );
    BeliefStats {
        total_beliefs: counted.len(),
        contradicted_beliefs: contradicted,
        single_source_beliefs: single,
        untrusted_beliefs: untrusted,
        newest_episode: newest(&supporting),
    }
}

} // verus!
