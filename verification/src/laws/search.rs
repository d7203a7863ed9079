//! What a search over the channels looks at, and the facts of what it found.
use vstd::prelude::*;

use crate::communities::members_of;
use crate::documents::EMBEDDING_DIM;
use crate::explain::{by_latest_validity, is_statement, names_subject};
use crate::knowledge::{asserts, believes};
use crate::laws::query::law_salience_is_of_the_entity;
use crate::laws::reading::law_text_is_split_at_the_first;
use crate::laws::recall::law_latest_belief_comes_first;
use crate::laws::timeline::law_latest_record_is_the_greatest;
use crate::query::{
    all_hits, all_triples, candidates, channels_of, community_added, community_of_all,
    embedding_error, entity_facts, entity_seeds, episode_facts, expanded, facts_of, graph_added,
    hit_id, is_entity_hit, is_kind, is_known_entity, is_known_statement, is_outside, is_positive,
    key_target, latest_retraction, literal_value, mention_surface, names_object, object_surface,
    preset_of, searches_of, statement_facts, triple, triples_of, ChannelResultView, FOUR_TENTHS,
    HALF, ONE, ONE_SINGLE, QueryMode, RankChannel, SearchHitView, SearchResults, TargetFactsView,
    TargetIdView, TargetKind,
};
use crate::rows::{
    distinct, first_where, lemma_both_contain, lemma_distinct, lemma_first_is, lemma_got,
    lemma_ordered_members, lemma_selected, ordered, some_where,
};
use crate::tables::{AssertionView, BeliefView, MentionView, ObjectView, TablesView};
use crate::text::by_text;
use crate::time::{TIME_MAX, TIME_MIN};

verus! {

/// The latest retraction of assertions is the greatest time at which one was
/// retracted, and there is none where none was.
pub proof fn law_latest_retraction_is_the_greatest(assertions: Seq<AssertionView>)
    ensures
        latest_retraction(assertions) is Some <==> exists|i: int|
            0 <= i < assertions.len() && (#[trigger] assertions[i]).retracted_at is Some,
        latest_retraction(assertions) matches Some(t) ==> {
            &&& exists|i: int|
                0 <= i < assertions.len() && (#[trigger] assertions[i]).retracted_at == Some(t)
            &&& forall|i: int|
                0 <= i < assertions.len() ==> ((#[trigger] assertions[i]).retracted_at matches Some(
                    u,
                ) ==> u.0 <= t.0)
        },
    decreases assertions.len(),
{
    if assertions.len() > 0 {
        let init = assertions.drop_last();
        let n = assertions.len() - 1;
        law_latest_retraction_is_the_greatest(init);
        assert(assertions[n] == assertions.last());
        assert forall|i: int| 0 <= i < n implies #[trigger] assertions[i] == init[i] by {}
        if let Some(t) = latest_retraction(init) {
            let i = choose|i: int|
                0 <= i < init.len() && (#[trigger] init[i]).retracted_at == Some(t);
            assert(assertions[i].retracted_at == Some(t));
        }
    }
}

/// The facts of a statement are those of its belief with the latest start: how sure
/// it is, when it holds and its status. With no belief it is active, unsure and
/// holds at all times. The time of record and of retraction are the latest of its
/// assertions.
pub proof fn law_facts_of_a_statement(
    db: TablesView,
    space: Seq<char>,
    entities: Seq<Seq<char>>,
    id: Seq<char>,
)
    ensures
        ({
            let f = statement_facts(db, space, entities)(id);
            &&& f.target == TargetIdView::Statement { id }
            &&& f.distinct_episodes == 1
            &&& (exists|i: int| 0 <= i < db.beliefs.len()
                && (#[trigger] db.beliefs[i]).statement == id)
                ==> exists|i: int|
                0 <= i < db.beliefs.len() && tells(#[trigger] db.beliefs[i], f) && is_latest_of(
                    db.beliefs,
                    db.beliefs[i],
                    id,
                )
            &&& (forall|i: int|
                0 <= i < db.beliefs.len() ==> (#[trigger] db.beliefs[i]).statement != id) ==> {
                &&& f.confidence == 0
                &&& f.valid_from.0 == TIME_MIN
                &&& f.valid_to.0 == TIME_MAX
                &&& f.status == "active"@
            }
            &&& forall|i: int|
                0 <= i < db.assertions.len() && (#[trigger] db.assertions[i]).statement == id ==> {
                    &&& db.assertions[i].recorded_at.0 <= f.recorded_at.0
                    &&& db.assertions[i].retracted_at matches Some(t)
                        ==> f.retracted_at matches Some(
                        u,
                    ) && t.0 <= u.0
                }
            &&& (exists|i: int|
                0 <= i < db.statements.len() && (#[trigger] db.statements[i]).id == id
                    && db.statements[i].space == space) ==> exists|i: int|
                0 <= i < db.statements.len() && (#[trigger] db.statements[i]).id == id
                    && db.statements[i].space == space && db.statements[i].predicate == f.predicate
        }),
{
    let f = statement_facts(db, space, entities)(id);
    let found = ordered(db.beliefs.filter(believes(id)), by_latest_validity());
    let own = db.assertions.filter(asserts(id));
    law_latest_belief_comes_first(db.beliefs, id);
    if found.len() > 0 {
        let i = choose|i: int| 0 <= i < db.beliefs.len() && db.beliefs[i] == found[0];
        assert(tells(db.beliefs[i], f) && is_latest_of(db.beliefs, db.beliefs[i], id));
    }
    law_latest_record_is_the_greatest(own);
    law_latest_retraction_is_the_greatest(own);
    lemma_selected(db.assertions, asserts(id));
    assert forall|i: int|
        0 <= i < db.assertions.len() && (#[trigger] db.assertions[i]).statement == id implies {
        &&& db.assertions[i].recorded_at.0 <= f.recorded_at.0
        &&& db.assertions[i].retracted_at matches Some(t) ==> f.retracted_at matches Some(u) && t.0
            <= u.0
    } by {
        assert(db.assertions.contains(db.assertions[i]));
        assert(own.contains(db.assertions[i]));
        let k = choose|k: int| 0 <= k < own.len() && own[k] == db.assertions[i];
        assert(own[k].recorded_at.0 <= f.recorded_at.0);
        assert(own[k].retracted_at matches Some(t) ==> f.retracted_at is Some);
    }
    let p = is_statement(space, id);
    lemma_first_is(db.statements, p);
    if exists|i: int|
        0 <= i < db.statements.len() && (#[trigger] db.statements[i]).id == id
            && db.statements[i].space == space {
        let i = choose|i: int|
            0 <= i < db.statements.len() && (#[trigger] db.statements[i]).id == id
                && db.statements[i].space == space;
        assert(p(db.statements[i]));
        let s = first_where(db.statements, p)->Some_0;
        let j = choose|j: int| 0 <= j < db.statements.len() && db.statements[j] == s;
        assert(db.statements[j].id == id);
    }
}

/// Whether facts are those of a belief.
pub open spec fn tells(b: BeliefView, f: TargetFactsView) -> bool {
    f.confidence == b.confidence && f.valid_from == b.valid_from && f.valid_to == b.valid_to
        && f.status == b.status
}

/// Whether a belief of a statement is one with the latest start.
pub open spec fn is_latest_of(beliefs: Seq<BeliefView>, b: BeliefView, id: Seq<char>) -> bool {
    b.statement == id && forall|j: int|
        0 <= j < beliefs.len() && (#[trigger] beliefs[j]).statement == id
            ==> beliefs[j].valid_from.0
            <= b.valid_from.0
}

/// The salience in the facts of a statement is its own only where the same id is
/// also hit as an entity of the space; else it is one half.
pub proof fn law_salience_of_a_statement(
    db: TablesView,
    space: Seq<char>,
    entities: Seq<Seq<char>>,
    id: Seq<char>,
)
    ensures
        ({
            let f = statement_facts(db, space, entities)(id);
            &&& !entities.contains(id) ==> f.salience == HALF
            &&& (forall|i: int|
                0 <= i < db.entities.len() && (#[trigger] db.entities[i]).id == id
                    ==> db.entities[i].space != space) ==> f.salience == HALF
            &&& entities.contains(id) && (exists|i: int|
                0 <= i < db.entities.len() && (#[trigger] db.entities[i]).id == id
                    && db.entities[i].space == space) ==> exists|i: int|
                0 <= i < db.entities.len() && (#[trigger] db.entities[i]).id == id
                    && db.entities[i].space == space && db.entities[i].salience == f.salience
        }),
{
    law_salience_is_of_the_entity(db.entities, space, id);
}

/// An entity and an episode that are hit are told as active, sure and holding at
/// all times; the entity with its salience, the episode with full salience.
pub proof fn law_facts_of_entities_and_episodes(db: TablesView, space: Seq<char>, id: Seq<char>)
    ensures
        ({
            let f = entity_facts(db, space)(id);
            &&& f.target == TargetIdView::Entity { id }
            &&& is_known_entity(db, space)(id) ==> exists|i: int|
                0 <= i < db.entities.len() && (#[trigger] db.entities[i]).id == id
                    && db.entities[i].space == space && db.entities[i].salience == f.salience
            &&& is_plain(f)
        }),
        ({
            let f = episode_facts()(id);
            &&& f.target == TargetIdView::Episode { id }
            &&& f.salience == ONE
            &&& is_plain(f)
        }),
{
    law_salience_is_of_the_entity(db.entities, space, id);
}

/// Whether facts are those of what no belief tells of.
pub open spec fn is_plain(f: TargetFactsView) -> bool {
    &&& f.confidence == ONE_SINGLE
    &&& f.valid_from.0 == TIME_MIN
    &&& f.valid_to.0 == TIME_MAX
    &&& f.recorded_at.0 == TIME_MIN
    &&& f.retracted_at is None
    &&& f.status == "active"@
    &&& f.predicate.len() == 0
    &&& f.distinct_episodes == 0
}

/// The candidates of a kind are the ids of the hits of that kind, each once.
pub proof fn law_candidates_are_what_was_hit(hits: Seq<SearchHitView>, id: Seq<char>)
    ensures
        candidates(hits, TargetKind::Statement).contains(id) <==> is_hit(
            hits,
            TargetIdView::Statement { id },
        ),
        candidates(hits, TargetKind::Entity).contains(id) <==> is_hit(
            hits,
            TargetIdView::Entity { id },
        ),
        candidates(hits, TargetKind::Episode).contains(id) <==> is_hit(
            hits,
            TargetIdView::Episode { id },
        ),
{
    lemma_candidates(hits, TargetKind::Statement, TargetIdView::Statement { id }, id);
    lemma_candidates(hits, TargetKind::Entity, TargetIdView::Entity { id }, id);
    lemma_candidates(hits, TargetKind::Episode, TargetIdView::Episode { id }, id);
}

/// Whether a target is among hits.
pub open spec fn is_hit(hits: Seq<SearchHitView>, target: TargetIdView) -> bool {
    exists|i: int| 0 <= i < hits.len() && (#[trigger] hits[i]).target == target
}

/// The candidates of one kind.
proof fn lemma_candidates(
    hits: Seq<SearchHitView>,
    kind: TargetKind,
    target: TargetIdView,
    id: Seq<char>,
)
    requires
        target == match kind {
            TargetKind::Statement => TargetIdView::Statement { id },
            TargetKind::Entity => TargetIdView::Entity { id },
            TargetKind::Episode => TargetIdView::Episode { id },
        },
    ensures
        candidates(hits, kind).contains(id) <==> is_hit(hits, target),
{
    let all = hits.filter(is_kind(kind)).map_values(hit_id());
    lemma_got(hits, is_kind(kind), hit_id());
    lemma_distinct(all);
    lemma_ordered_members(distinct(all), by_text());
    assert(candidates(hits, kind).contains(id) <==> distinct(all).contains(id));
    assert(distinct(all).contains(id) <==> all.contains(id));
    if is_hit(hits, target) {
        let i = choose|i: int| 0 <= i < hits.len() && (#[trigger] hits[i]).target == target;
        assert(is_kind(kind)(hits[i]) && hit_id()(hits[i]) == id);
    }
    if all.contains(id) {
        let i = choose|i: int|
            0 <= i < hits.len() && is_kind(kind)(#[trigger] hits[i]) && hit_id()(hits[i]) == id;
        assert(hits[i].target == target);
    }
}

/// Facts are told of what was hit: of a statement or an entity only where it is of
/// the space, and of every episode.
pub proof fn law_facts_are_of_what_was_hit(
    db: TablesView,
    space: Seq<char>,
    hits: Seq<SearchHitView>,
    id: Seq<char>,
)
    ensures
        is_told(facts_of(db, space, hits), TargetIdView::Statement { id }) <==> is_hit(
            hits,
            TargetIdView::Statement { id },
        ) && exists|i: int|
            0 <= i < db.statements.len() && (#[trigger] db.statements[i]).id == id
                && db.statements[i].space == space,
        is_told(facts_of(db, space, hits), TargetIdView::Entity { id }) <==> is_hit(
            hits,
            TargetIdView::Entity { id },
        ) && exists|i: int|
            0 <= i < db.entities.len() && (#[trigger] db.entities[i]).id == id
                && db.entities[i].space == space,
        is_told(facts_of(db, space, hits), TargetIdView::Episode { id }) <==> is_hit(
            hits,
            TargetIdView::Episode { id },
        ),
{
    let entities = candidates(hits, TargetKind::Entity);
    let sts = candidates(hits, TargetKind::Statement);
    let eps = candidates(hits, TargetKind::Episode);
    let pa = is_known_statement(db, space);
    let pb = is_known_entity(db, space);
    let a = sts.filter(pa).map_values(statement_facts(db, space, entities));
    let b = entities.filter(pb).map_values(entity_facts(db, space));
    let c = eps.map_values(episode_facts());
    let all = facts_of(db, space, hits);
    assert(all == a + b + c);
    law_candidates_are_what_was_hit(hits, id);
    lemma_selected(sts, pa);
    lemma_selected(entities, pb);
    law_salience_is_of_the_entity(db.entities, space, id);
    let st = TargetIdView::Statement { id };
    let en = TargetIdView::Entity { id };
    let ep = TargetIdView::Episode { id };
    assert(pa(id) <==> exists|i: int|
        0 <= i < db.statements.len() && (#[trigger] db.statements[i]).id == id
            && db.statements[i].space == space) by {
        let p = is_statement(space, id);
        if exists|i: int|
            0 <= i < db.statements.len() && (#[trigger] db.statements[i]).id == id
                && db.statements[i].space == space {
            let i = choose|i: int|
                0 <= i < db.statements.len() && (#[trigger] db.statements[i]).id == id
                    && db.statements[i].space == space;
            assert(p(db.statements[i]));
        }
        if some_where(db.statements, p) {
            let i = choose|i: int| 0 <= i < db.statements.len() && p(#[trigger] db.statements[i]);
            assert(db.statements[i].id == id);
        }
    }
    if is_told(all, st) {
        let k = choose|k: int| 0 <= k < all.len() && (#[trigger] all[k]).target == st;
        lemma_part(a, b, c, k);
        assert(a[k].target == TargetIdView::Statement { id: sts.filter(pa)[k] });
        assert(sts.filter(pa).contains(sts.filter(pa)[k]));
    }
    if sts.contains(id) && pa(id) {
        assert(sts.filter(pa).contains(id));
        let k = choose|k: int| 0 <= k < sts.filter(pa).len() && sts.filter(pa)[k] == id;
        assert(all[k].target == st);
    }
    if is_told(all, en) {
        let k = choose|k: int| 0 <= k < all.len() && (#[trigger] all[k]).target == en;
        lemma_part(a, b, c, k);
        let j = k - a.len();
        assert(b[j].target == TargetIdView::Entity { id: entities.filter(pb)[j] });
        assert(entities.filter(pb).contains(entities.filter(pb)[j]));
    }
    if entities.contains(id) && pb(id) {
        assert(entities.filter(pb).contains(id));
        let j = choose|j: int|
            0 <= j < entities.filter(pb).len() && entities.filter(pb)[j] == id;
        assert(all[a.len() + j].target == en);
    }
    if is_told(all, ep) {
        let k = choose|k: int| 0 <= k < all.len() && (#[trigger] all[k]).target == ep;
        lemma_part(a, b, c, k);
        let j = k - a.len() - b.len();
        assert(c[j].target == TargetIdView::Episode { id: eps[j] });
        assert(eps.contains(eps[j]));
    }
    if eps.contains(id) {
        let j = choose|j: int| 0 <= j < eps.len() && eps[j] == id;
        assert(all[a.len() + b.len() + j].target == ep);
    }
}

/// Where a row of three lists in a row stands.
proof fn lemma_part<V>(a: Seq<V>, b: Seq<V>, c: Seq<V>, k: int)
    requires
        0 <= k < (a + b + c).len(),
    ensures
        k < a.len() ==> (a + b + c)[k] == a[k],
        a.len() <= k < a.len() + b.len() ==> (a + b + c)[k] == b[k - a.len()],
        a.len() + b.len() <= k ==> (a + b + c)[k] == c[k - a.len() - b.len()],
{
}

/// Whether facts are told of a target.
pub open spec fn is_told(facts: Seq<TargetFactsView>, target: TargetIdView) -> bool {
    exists|k: int| 0 <= k < facts.len() && (#[trigger] facts[k]).target == target
}

/// The hits over channels are the hits of each.
pub proof fn law_hits_are_those_of_the_channels(channels: Seq<ChannelResultView>)
    ensures
        forall|h: SearchHitView| #[trigger]
            all_hits(channels).contains(h) <==> exists|i: int|
                0 <= i < channels.len() && (#[trigger] channels[i]).hits.contains(h),
    decreases channels.len(),
{
    if channels.len() > 0 {
        let init = channels.drop_last();
        let last = channels.last();
        let n = channels.len() - 1;
        law_hits_are_those_of_the_channels(init);
        assert(channels[n] == last);
        let before = all_hits(init);
        let all = all_hits(channels);
        assert forall|h: SearchHitView| #[trigger] all.contains(h) <==> exists|i: int|
            0 <= i < channels.len() && (#[trigger] channels[i]).hits.contains(h) by {
            lemma_both_contain(before, last.hits, h);
            if before.contains(h) {
                let i = choose|i: int| 0 <= i < init.len() && (#[trigger] init[i]).hits.contains(h);
                assert(channels[i].hits.contains(h));
            }
            if last.hits.contains(h) {
                assert(channels[n].hits.contains(h));
            }
            if exists|i: int| 0 <= i < channels.len() && (#[trigger] channels[i]).hits.contains(h) {
                let i = choose|i: int|
                    0 <= i < channels.len() && (#[trigger] channels[i]).hits.contains(h);
                if i < n {
                    assert(init[i].hits.contains(h));
                }
            }
        }
    }
}

/// The seeds of an expansion are the entities that were hit.
pub proof fn law_seeds_are_the_entities_hit(hits: Seq<SearchHitView>, id: Seq<char>)
    ensures
        entity_seeds(hits).contains(id) <==> is_hit(hits, TargetIdView::Entity { id }),
{
    lemma_got(hits, is_entity_hit(), hit_id());
    if is_hit(hits, TargetIdView::Entity { id }) {
        let i = choose|i: int|
            0 <= i < hits.len() && (#[trigger] hits[i]).target == TargetIdView::Entity { id };
        assert(is_entity_hit()(hits[i]) && hit_id()(hits[i]) == id);
    }
    if entity_seeds(hits).contains(id) {
        let i = choose|i: int|
            0 <= i < hits.len() && is_entity_hit()(#[trigger] hits[i]) && hit_id()(hits[i]) == id;
        assert(hits[i].target == TargetIdView::Entity { id });
    }
}

/// An expansion holds the added entities, each with the score of the expansion,
/// before the entities it started from, with the scores they had.
pub proof fn law_expansion_holds_added_and_seeds(
    added: Seq<Seq<char>>,
    score: u64,
    seeds: Seq<SearchHitView>,
)
    ensures
        ({
            let r = expanded(added, score, seeds);
            &&& r.len() >= added.len()
            &&& forall|i: int|
                0 <= i < added.len() ==> (#[trigger] r[i]).target == TargetIdView::Entity {
                    id: added[i],
                } && r[i].score == score
            &&& forall|i: int|
                added.len() <= i < r.len() ==> (#[trigger] r[i]).target is Entity && seeds.contains(
                    r[i],
                )
            &&& forall|h: SearchHitView| #[trigger]
                seeds.contains(h) && h.target is Entity ==> r.contains(h)
        }),
{
    let kept = seeds.filter(is_entity_hit());
    let r = expanded(added, score, seeds);
    lemma_selected(seeds, is_entity_hit());
    assert forall|i: int| added.len() <= i < r.len() implies (#[trigger] r[i]).target is Entity
        && seeds.contains(r[i]) by {
        assert(r[i] == kept[i - added.len()]);
    }
    assert forall|h: SearchHitView| #[trigger]
        seeds.contains(h) && h.target is Entity implies r.contains(h) by {
        assert(kept.contains(h));
        let k = choose|k: int| 0 <= k < kept.len() && kept[k] == h;
        assert(r[added.len() + k] == h);
    }
}

/// The walk adds what it reached outside the seeds.
pub proof fn law_walk_adds_what_is_new(reached: Seq<Seq<char>>, seeds: Seq<Seq<char>>)
    ensures
        forall|id: Seq<char>| #[trigger]
            graph_added(reached, seeds).contains(id) <==> reached.contains(id) && !seeds.contains(
                id,
            ),
{
    lemma_selected(reached, is_outside(seeds));
}

/// The communities add, once each, the entities outside the seeds that share the
/// community of a seed.
pub proof fn law_communities_add_what_is_new(
    db: TablesView,
    space: Seq<char>,
    seeds: Seq<Seq<char>>,
)
    ensures
        community_added(db, space, seeds).no_duplicates(),
        forall|id: Seq<char>| #[trigger]
            community_added(db, space, seeds).contains(id) <==> !seeds.contains(id)
                && exists|i: int|
                0 <= i < seeds.len() && members_of(
                    db.communities,
                    space,
                    #[trigger] seeds[i],
                ).contains(id),
{
    let all = community_of_all(db, space, seeds);
    let p = is_outside(seeds);
    lemma_communities(db, space, seeds);
    lemma_selected(all, p);
    lemma_distinct(all.filter(p));
    assert forall|id: Seq<char>| #[trigger]
        community_added(db, space, seeds).contains(id) <==> !seeds.contains(id) && exists|i: int|
            0 <= i < seeds.len() && members_of(db.communities, space, #[trigger] seeds[i]).contains(
                id,
            ) by {
        assert(all.filter(p).contains(id) <==> all.contains(id) && p(id));
    }
}

/// The members of the communities of all seeds.
proof fn lemma_communities(db: TablesView, space: Seq<char>, seeds: Seq<Seq<char>>)
    ensures
        forall|id: Seq<char>| #[trigger]
            community_of_all(db, space, seeds).contains(id) <==> exists|i: int|
                0 <= i < seeds.len() && members_of(
                    db.communities,
                    space,
                    #[trigger] seeds[i],
                ).contains(id),
    decreases seeds.len(),
{
    if seeds.len() > 0 {
        let init = seeds.drop_last();
        let last = seeds.last();
        let n = seeds.len() - 1;
        lemma_communities(db, space, init);
        let before = community_of_all(db, space, init);
        let own = members_of(db.communities, space, last);
        assert(seeds[n] == last);
        assert forall|id: Seq<char>| #[trigger]
            community_of_all(db, space, seeds).contains(id) <==> exists|i: int|
                0 <= i < seeds.len() && members_of(
                    db.communities,
                    space,
                    #[trigger] seeds[i],
                ).contains(id) by {
            lemma_both_contain(before, own, id);
            if before.contains(id) {
                let i = choose|i: int|
                    0 <= i < init.len() && members_of(
                        db.communities,
                        space,
                        #[trigger] init[i],
                    ).contains(id);
                assert(members_of(db.communities, space, seeds[i]).contains(id));
            }
            if own.contains(id) {
                assert(members_of(db.communities, space, seeds[n]).contains(id));
            }
            if exists|i: int|
                0 <= i < seeds.len() && members_of(
                    db.communities,
                    space,
                    #[trigger] seeds[i],
                ).contains(id) {
                let i = choose|i: int|
                    0 <= i < seeds.len() && members_of(
                        db.communities,
                        space,
                        #[trigger] seeds[i],
                    ).contains(id);
                if i < n {
                    assert(members_of(db.communities, space, init[i]).contains(id));
                }
            }
        }
    }
}

/// The hybrid mode makes every search; each of the others makes its own alone. A
/// walk goes from seeds, so no mode walks without looking for them.
pub proof fn law_mode_chooses_its_searches(mode: QueryMode)
    ensures
        ({
            let s = searches_of(mode);
            &&& s.lexical <==> mode is Hybrid || mode is Lexical || mode is LexicalVector
            &&& s.lexical_vector <==> mode is Hybrid || mode is LexicalVector
            &&& s.dense <==> mode is Hybrid || mode is Dense
            &&& s.walk <==> mode is Hybrid || mode is Graph
            &&& s.seeds <==> mode is Hybrid || mode is Graph || mode is Community
            &&& s.walk ==> s.seeds
        }),
{
}

/// The weights are those of the mode: the two lexical modes share theirs, and no
/// other two do.
pub proof fn law_mode_chooses_its_weights(a: QueryMode, b: QueryMode)
    ensures
        preset_of(a) is Hybrid <==> a is Hybrid,
        preset_of(a) is Lexical <==> a is Lexical || a is LexicalVector,
        preset_of(a) is Semantic <==> a is Dense,
        preset_of(a) is Graph <==> a is Graph,
        preset_of(a) is Community <==> a is Community,
        preset_of(a) == preset_of(b) ==> a == b || (preset_of(a) is Lexical && preset_of(
            b,
        ) is Lexical),
{
}

/// The channels are those of the searches of the mode, with what each found; the
/// expansions only where some entity was hit.
pub proof fn law_channels_follow_the_searches(
    db: TablesView,
    mode: QueryMode,
    space: Seq<char>,
    found: SearchResults,
)
    ensures
        ({
            let r = channels_of(db, mode, space, found);
            let s = searches_of(mode);
            let seeds = found.seeds.deep_view();
            let ids = entity_seeds(seeds);
            let word = ChannelResultView {
                channel: RankChannel::LexicalWord,
                hits: found.word.deep_view(),
            };
            let ngram = ChannelResultView {
                channel: RankChannel::LexicalNgram,
                hits: found.ngram.deep_view(),
            };
            let vector = ChannelResultView {
                channel: RankChannel::Vector,
                hits: found.lexical_vector.deep_view(),
            };
            &&& s.lexical ==> r.contains(word) && r.contains(ngram)
            &&& !s.lexical ==> !has_channel(r, RankChannel::LexicalWord) && !has_channel(
                r,
                RankChannel::LexicalNgram,
            )
            &&& s.lexical_vector ==> r.contains(vector)
            &&& s.dense && found.dense is Some ==> r.contains(
                ChannelResultView {
                    channel: RankChannel::Vector,
                    hits: found.dense->Some_0.deep_view(),
                },
            )
            &&& !s.lexical_vector && (!s.dense || found.dense is None) ==> !has_channel(
                r,
                RankChannel::Vector,
            )
            &&& s.walk && ids.len() > 0 ==> r.contains(
                ChannelResultView {
                    channel: RankChannel::GraphExpand { top_k: 5, depth: 2 },
                    hits: expanded(graph_added(found.reached.deep_view(), ids), HALF, seeds),
                },
            )
            &&& (mode is Hybrid || mode is Community) && ids.len() > 0 ==> r.contains(
                ChannelResultView {
                    channel: RankChannel::CommunityExpand { top_k: 5 },
                    hits: expanded(community_added(db, space, ids), FOUR_TENTHS, seeds),
                },
            )
            &&& forall|k: int|
                0 <= k < r.len() ==> ((#[trigger] r[k]).channel is GraphExpand ==> s.walk
                    && ids.len() > 0) && (r[k].channel is CommunityExpand ==> (mode is Hybrid
                    || mode is Community) && ids.len() > 0)
            &&& r.len() <= 6
        }),
{
    let r = channels_of(db, mode, space, found);
    let ids = entity_seeds(found.seeds.deep_view());
    let a: int = if searches_of(mode).lexical {
        2
    } else {
        0
    };
    let b: int = if searches_of(mode).lexical_vector {
        a + 1
    } else {
        a
    };
    let c: int = if searches_of(mode).dense && found.dense is Some {
        b + 1
    } else {
        b
    };
    let d: int = if searches_of(mode).walk && ids.len() > 0 {
        c + 1
    } else {
        c
    };
    if searches_of(mode).lexical {
        assert(r[0].channel is LexicalWord && r[1].channel is LexicalNgram);
    }
    if searches_of(mode).lexical_vector {
        assert(r[a].hits == found.lexical_vector.deep_view());
    }
    if searches_of(mode).dense && found.dense is Some {
        assert(r[b].channel is Vector);
    }
    if searches_of(mode).walk && ids.len() > 0 {
        assert(r[c].channel is GraphExpand);
    }
    if (mode is Hybrid || mode is Community) && ids.len() > 0 {
        assert(r[d].channel is CommunityExpand);
    }
}

/// Whether a channel is among results.
pub open spec fn has_channel(r: Seq<ChannelResultView>, channel: RankChannel) -> bool {
    exists|k: int| 0 <= k < r.len() && (#[trigger] r[k]).channel == channel
}

/// An embedding is taken where it has as many numbers as the table; else the error
/// is not empty.
pub proof fn law_embedding_fits_the_table(first: Option<usize>)
    ensures
        embedding_error(first) is None <==> first == Some(EMBEDDING_DIM),
        EMBEDDING_DIM == 1024,
{
}

/// The surfaces of an object are those that the assertion mentions it by; where it
/// mentions none, the value of a literal, or nothing.
pub proof fn law_object_is_told_as_mentioned(
    mentions: Seq<MentionView>,
    assertion: Seq<char>,
    object: ObjectView,
)
    ensures
        ({
            let r = object_surface(mentions, assertion, object);
            &&& r.len() > 0
            &&& (exists|i: int| 0 <= i < mentions.len()
                && is_object_in(#[trigger] mentions[i], assertion))
                ==> forall|x: Seq<char>| #[trigger]
                r.contains(x) <==> exists|i: int|
                    0 <= i < mentions.len() && is_object_in(#[trigger] mentions[i], assertion)
                        && mentions[i].surface == x
            &&& (forall|i: int|
                0 <= i < mentions.len() ==> !is_object_in(#[trigger] mentions[i], assertion)) ==> {
                &&& r.len() == 1
                &&& object is Entity ==> r[0].len() == 0
                &&& object matches ObjectView::Literal(json) ==> r[0] == literal_value(json)
            }
        }),
{
    let p = names_object(assertion);
    let named = mentions.filter(p).map_values(mention_surface());
    lemma_got(mentions, p, mention_surface());
    lemma_selected(mentions, p);
    if exists|i: int| 0 <= i < mentions.len() && is_object_in(#[trigger] mentions[i], assertion) {
        let i = choose|i: int|
            0 <= i < mentions.len() && is_object_in(#[trigger] mentions[i], assertion);
        assert(p(mentions[i]));
        assert(named.contains(mentions[i].surface)) by {
            assert(mention_surface()(mentions[i]) == mentions[i].surface);
        }
        let r = object_surface(mentions, assertion, object);
        assert forall|x: Seq<char>| #[trigger] r.contains(x) <==> exists|i: int|
            0 <= i < mentions.len() && is_object_in(#[trigger] mentions[i], assertion)
                && mentions[i].surface == x by {
            if r.contains(x) {
                let i = choose|i: int|
                    0 <= i < mentions.len() && p(#[trigger] mentions[i]) && mention_surface()(
                        mentions[i],
                    ) == x;
                assert(is_object_in(mentions[i], assertion) && mentions[i].surface == x);
            }
            if exists|i: int|
                0 <= i < mentions.len() && is_object_in(#[trigger] mentions[i], assertion)
                    && mentions[i].surface == x {
                let i = choose|i: int|
                    0 <= i < mentions.len() && is_object_in(#[trigger] mentions[i], assertion)
                        && mentions[i].surface == x;
                assert(p(mentions[i]) && mention_surface()(mentions[i]) == x);
            }
        }
    } else if named.len() > 0 {
        assert(named.contains(named[0]));
        let i = choose|i: int|
            0 <= i < mentions.len() && p(#[trigger] mentions[i]) && mention_surface()(mentions[i])
                == named[0];
        assert(is_object_in(mentions[i], assertion));
    }
}

/// Whether a mention is of the object of an assertion.
pub open spec fn is_object_in(m: MentionView, assertion: Seq<char>) -> bool {
    m.assertion == assertion && m.role is Object
}

/// The triples of an assertion pair every subject with every object.
pub proof fn law_triples_pair_all(
    predicate: Seq<char>,
    subjects: Seq<Seq<char>>,
    objects: Seq<Seq<char>>,
)
    ensures
        forall|t: (Seq<char>, Seq<char>, Seq<char>)| #[trigger]
            triples_of(predicate, subjects, objects).contains(t) <==> t.0 == predicate
                && subjects.contains(t.1) && objects.contains(t.2),
    decreases subjects.len(),
{
    if subjects.len() > 0 {
        let init = subjects.drop_last();
        let last = subjects.last();
        law_triples_pair_all(predicate, init, objects);
        let before = triples_of(predicate, init, objects);
        let own = objects.map_values(triple(predicate, last));
        assert(subjects =~= init.push(last));
        assert forall|t: (Seq<char>, Seq<char>, Seq<char>)| #[trigger]
            triples_of(predicate, subjects, objects).contains(t) <==> t.0 == predicate
                && subjects.contains(t.1) && objects.contains(t.2) by {
            lemma_both_contain(before, own, t);
            lemma_both_contain(init, seq![last], t.1);
            assert(init + seq![last] =~= subjects);
            assert(seq![last].contains(t.1) <==> t.1 == last) by {
                assert(seq![last][0] == last);
            }
            if own.contains(t) {
                let k = choose|k: int| 0 <= k < own.len() && own[k] == t;
                assert(objects[k] == t.2);
            }
            if t.0 == predicate && t.1 == last && objects.contains(t.2) {
                let k = choose|k: int| 0 <= k < objects.len() && objects[k] == t.2;
                assert(own[k] == t);
            }
        }
    }
}

/// The key of an index row names the kind and the id of its target; one that names
/// no kind is that of an episode.
pub proof fn law_keys_name_their_targets(key: Seq<char>)
    ensures
        key_target(key) matches TargetIdView::Statement { id } ==> key == "statement"@ + ":"@ + id,
        key_target(key) matches TargetIdView::Entity { id } ==> key == "entity"@ + ":"@ + id,
        key_target(key) matches TargetIdView::Episode { id } ==> key == id
            || exists|kind: Seq<char>|
            key == #[trigger] (kind + ":"@) + id && kind != "statement"@ && kind != "entity"@,
{
    law_text_is_split_at_the_first(key, ":"@);
    if let Some((kind, id)) = crate::parse::split_first(key, ":"@) {
        assert(key == (kind + ":"@) + id);
    }
}

/// The triples told are those of the assertions of statements of the space: with its
/// predicate, a surface of its subject and one of its object.
pub proof fn law_triples_are_of_the_assertions(
    db: TablesView,
    space: Seq<char>,
    assertions: Seq<AssertionView>,
)
    ensures
        forall|t: (Seq<char>, Seq<char>, Seq<char>)| #[trigger]
            all_triples(db, space, assertions).contains(t) <==> exists|i: int|
                0 <= i < assertions.len() && is_triple_of(db, space, #[trigger] assertions[i], t),
    decreases assertions.len(),
{
    if assertions.len() > 0 {
        let init = assertions.drop_last();
        let a = assertions.last();
        let n = assertions.len() - 1;
        law_triples_are_of_the_assertions(db, space, init);
        assert(assertions[n] == a);
        let before = all_triples(db, space, init);
        let r = all_triples(db, space, assertions);
        assert forall|t: (Seq<char>, Seq<char>, Seq<char>)| #[trigger]
            r.contains(t) <==> exists|i: int|
                0 <= i < assertions.len()
                    && is_triple_of(db, space, #[trigger] assertions[i], t) by {
            if let Some(s) = first_where(db.statements, is_statement(space, a.statement)) {
                let subjects = db.mentions.filter(names_subject(a.id)).map_values(
                    mention_surface(),
                );
                let objects = object_surface(db.mentions, a.id, s.object);
                law_triples_pair_all(s.predicate, subjects, objects);
                lemma_both_contain(before, triples_of(s.predicate, subjects, objects), t);
            }
            if before.contains(t) {
                let i = choose|i: int|
                    0 <= i < init.len() && is_triple_of(db, space, #[trigger] init[i], t);
                assert(is_triple_of(db, space, assertions[i], t));
            }
            if is_triple_of(db, space, a, t) {
                assert(is_triple_of(db, space, assertions[n], t));
            }
            if exists|i: int|
                0 <= i < assertions.len() && is_triple_of(db, space, #[trigger] assertions[i], t) {
                let i = choose|i: int|
                    0 <= i < assertions.len()
                        && is_triple_of(db, space, #[trigger] assertions[i], t);
                if i < n {
                    assert(is_triple_of(db, space, init[i], t));
                }
            }
        }
    }
}

/// Whether a triple is told by an assertion.
pub open spec fn is_triple_of(
    db: TablesView,
    space: Seq<char>,
    a: AssertionView,
    t: (Seq<char>, Seq<char>, Seq<char>),
) -> bool {
    first_where(db.statements, is_statement(space, a.statement)) matches Some(s) && t.0
        == s.predicate && db.mentions.filter(names_subject(a.id)).map_values(
        mention_surface(),
    ).contains(t.1) && object_surface(db.mentions, a.id, s.object).contains(t.2)
}

/// A least confidence counts where its bits are those of a number above zero: the
/// sign is clear, some bit is set, and it is not what is no number.
pub proof fn law_positive_confidence_counts(bits: u32)
    ensures
        is_positive(bits) <==> bits >> 31 == 0 && bits != 0 && !((bits >> 23) & 0xff == 0xff && bits
            & 0x7f_ffff != 0),
{
    assert((0 < bits && bits <= 0x7f80_0000) <==> bits >> 31 == 0 && bits != 0 && !((bits >> 23)
        & 0xff == 0xff && bits & 0x7f_ffff != 0)) by (bit_vector);
}

} // verus!
