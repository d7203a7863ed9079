//! Communities, clusters, summaries and checkpoints.
use vstd::prelude::*;

use crate::communities::{has_label, labelled, labels, labels_in, member_id, members_of};
use crate::consolidation::{
    asserting_episode, begun, by_label, checkpoint_hash, cites_any, cluster_key, community_in,
    completed, connected, derived_episode, done_hashes, episode_touches, grouped, in_some_cluster,
    involves_any, is_checkpoint, is_cluster, is_clustering, is_completed, is_link, is_pending,
    is_primary, is_shared, is_summary, is_touching, is_walk, known_entities, linked, marks,
    primary_in, related, shared_entities, statement_entities, summary_of, touched_by_both, touches,
    touching, with_summary, with_uncertainty, CommunityGroupView, EpisodeClusterView,
};
use crate::ledger::{EpisodeKind, SourceRefView};
use crate::rows::{
    distinct, first_where, is_order, lemma_both_contain, lemma_distinct, lemma_first_is, lemma_got,
    lemma_ordered_in_order, lemma_ordered_members, lemma_replaced, lemma_selected, ordered,
    some_where, updated,
};
use crate::tables::{
    CheckpointRowView, CommunityRowView, EpisodeLinkView, EpisodeRowView, ObjectView, StatementView,
    SummaryRowView, TablesView, TrustTier,
};
use crate::text::{by_text, text_le};
use crate::time::Timestamp;

verus! {

/// The order of texts is an order.
pub proof fn lemma_text_order()
    ensures
        is_order(by_text()),
{
    let leq = by_text();
    assert forall|a: Seq<char>, b: Seq<char>| #[trigger] leq(a, b) || leq(b, a) by {
        crate::text::lemma_text_total(a, b);
    }
    assert forall|a: Seq<char>, b: Seq<char>, c: Seq<char>| #[trigger] leq(a, b) && #[trigger] leq(
        b,
        c,
    ) implies leq(a, c) by {
        crate::text::lemma_text_transitive(a, b, c);
    }
}

/// Assigning communities: an entity has the label of its last assignment, in the
/// space; a row of an entity that is not assigned stays.
pub proof fn law_communities_are_assigned(
    rows: Seq<CommunityRowView>,
    space: Seq<char>,
    assigned: Seq<(Seq<char>, i64)>,
)
    ensures
        forall|c: CommunityRowView| #[trigger]
            labelled(rows, space, assigned).contains(c) <==> (c.space == space && exists|i: int|
                0 <= i < assigned.len() && #[trigger] assigned[i] == (c.id, c.label) && forall|
                    j: int,
                |
                    i < j < assigned.len() ==> (#[trigger] assigned[j]).0 != c.id) || (
            rows.contains(c) && forall|j: int|
                0 <= j < assigned.len() ==> (#[trigger] assigned[j]).0 != c.id),
    decreases assigned.len(),
{
    if assigned.len() > 0 {
        let init = assigned.drop_last();
        let last = assigned.last();
        let n = assigned.len() - 1;
        assert(last == assigned[n]);
        law_communities_are_assigned(rows, space, init);
        let before = labelled(rows, space, init);
        let row = CommunityRowView { id: last.0, space, label: last.1 };
        lemma_replaced(before, labels(last.0), row);
        assert forall|c: CommunityRowView| #[trigger] labelled(rows, space, assigned).contains(c)
            <==> (c.space == space && exists|i: int|
            0 <= i < assigned.len() && #[trigger] assigned[i] == (c.id, c.label) && forall|j: int|
                i < j < assigned.len() ==> (#[trigger] assigned[j]).0 != c.id) || (rows.contains(c)
            && forall|j: int|
            0 <= j < assigned.len() ==> (#[trigger] assigned[j]).0 != c.id) by {
            if c.id == last.0 {
                assert(assigned[n].0 == c.id);
                if c.space == space && exists|i: int|
                    0 <= i < assigned.len() && #[trigger] assigned[i] == (c.id, c.label) && forall|
                        j: int,
                    |
                        i < j < assigned.len() ==> (#[trigger] assigned[j]).0 != c.id {
                    let i = choose|i: int|
                        0 <= i < assigned.len() && #[trigger] assigned[i] == (c.id, c.label)
                            && forall|j: int|
                            i < j < assigned.len() ==> (#[trigger] assigned[j]).0 != c.id;
                    if i < n {
                        assert(assigned[n].0 != c.id);
                    }
                    assert(c == row);
                }
                if c == row {
                    assert(assigned[n] == (c.id, c.label));
                }
            } else {
                assert(labelled(rows, space, assigned).contains(c) <==> before.contains(c));
                if c.space == space && exists|i: int|
                    0 <= i < init.len() && #[trigger] init[i] == (c.id, c.label) && forall|j: int|
                        i < j < init.len() ==> (#[trigger] init[j]).0 != c.id {
                    let i = choose|i: int|
                        0 <= i < init.len() && #[trigger] init[i] == (c.id, c.label) && forall|
                            j: int,
                        |
                            i < j < init.len() ==> (#[trigger] init[j]).0 != c.id;
                    assert(assigned[i] == (c.id, c.label));
                    assert forall|j: int| i < j < assigned.len() implies (#[trigger] assigned[j]).0
                        != c.id by {
                        if j < n {
                            assert(init[j] == assigned[j]);
                        }
                    }
                }
                if c.space == space && exists|i: int|
                    0 <= i < assigned.len() && #[trigger] assigned[i] == (c.id, c.label) && forall|
                        j: int,
                    |
                        i < j < assigned.len() ==> (#[trigger] assigned[j]).0 != c.id {
                    let i = choose|i: int|
                        0 <= i < assigned.len() && #[trigger] assigned[i] == (c.id, c.label)
                            && forall|j: int|
                            i < j < assigned.len() ==> (#[trigger] assigned[j]).0 != c.id;
                    assert(init[i] == (c.id, c.label));
                    assert forall|j: int| i < j < init.len() implies (#[trigger] init[j]).0
                        != c.id by {
                        assert(init[j] == assigned[j]);
                    }
                }
                if forall|j: int| 0 <= j < init.len() ==> (#[trigger] init[j]).0 != c.id {
                    assert forall|j: int| 0 <= j < assigned.len() implies (
                    #[trigger] assigned[j]).0 != c.id by {
                        if j < n {
                            assert(init[j] == assigned[j]);
                        }
                    }
                }
                if forall|j: int| 0 <= j < assigned.len() ==> (#[trigger] assigned[j]).0 != c.id {
                    assert forall|j: int| 0 <= j < init.len() implies (#[trigger] init[j]).0
                        != c.id by {
                        assert(init[j] == assigned[j]);
                    }
                }
            }
        }
    }
}

/// The members of an entity's community are the entities of the space with the same
/// label, in the order of their ids; an entity without a community has none.
pub proof fn law_community_shares_its_label(
    rows: Seq<CommunityRowView>,
    space: Seq<char>,
    entity: Seq<char>,
)
    ensures
        ({
            let r = members_of(rows, space, entity);
            &&& forall|i: int, j: int|
                0 <= i < j < r.len() ==> text_le(#[trigger] r[i], #[trigger] r[j])
            &&& (forall|k: int|
                0 <= k < rows.len() && (#[trigger] rows[k]).id == entity ==> rows[k].space != space)
                ==> r.len() == 0
            &&& forall|k: int|
                0 <= k < rows.len() && (#[trigger] rows[k]).id == entity && rows[k].space == space
                    && (forall|l: int|
                    0 <= l < rows.len() && (#[trigger] rows[l]).id == entity && rows[l].space
                        == space ==> rows[l].label == rows[k].label) ==> forall|id: Seq<char>|
                    #[trigger]
                    r.contains(id) <==> exists|l: int|
                        0 <= l < rows.len() && (#[trigger] rows[l]).id == id && rows[l].space
                            == space && rows[l].label == rows[k].label
        }),
{
    let p = labels_in(entity, space);
    let r = members_of(rows, space, entity);
    lemma_first_is(rows, p);
    lemma_text_order();
    if first_where(rows, p) is Some {
        let c = first_where(rows, p)->Some_0;
        let f = choose|f: int| 0 <= f < rows.len() && rows[f] == c;
        let q = has_label(space, c.label);
        let ids = rows.filter(q).map_values(member_id());
        lemma_got(rows, q, member_id());
        lemma_ordered_members(ids, by_text());
        lemma_ordered_in_order(ids, by_text());
        assert(rows[f].id == entity && rows[f].space == space);
        assert forall|i: int, j: int| 0 <= i < j < r.len() implies text_le(
            #[trigger] r[i],
            #[trigger] r[j],
        ) by {
            assert(by_text()(r[i], r[j]));
        }
        assert forall|k: int|
            0 <= k < rows.len() && (#[trigger] rows[k]).id == entity && rows[k].space == space && (
            forall|l: int|
                0 <= l < rows.len() && (#[trigger] rows[l]).id == entity && rows[l].space == space
                    ==> rows[l].label == rows[k].label) implies forall|id: Seq<char>| #[trigger]
            r.contains(id) <==> exists|l: int|
                0 <= l < rows.len() && (#[trigger] rows[l]).id == id && rows[l].space == space
                    && rows[l].label == rows[k].label by {
            assert(rows[f].label == rows[k].label);
            assert forall|id: Seq<char>| #[trigger] r.contains(id) <==> exists|l: int|
                0 <= l < rows.len() && (#[trigger] rows[l]).id == id && rows[l].space == space
                    && rows[l].label == rows[k].label by {
                assert(r.contains(id) <==> ids.contains(id));
                if exists|l: int|
                    0 <= l < rows.len() && (#[trigger] rows[l]).id == id && rows[l].space == space
                        && rows[l].label == rows[k].label {
                    let l = choose|l: int|
                        0 <= l < rows.len() && (#[trigger] rows[l]).id == id && rows[l].space
                            == space && rows[l].label == rows[k].label;
                    assert(q(rows[l]) && member_id()(rows[l]) == id);
                }
            }
        }
    } else {
        assert forall|k: int| 0 <= k < rows.len() && (#[trigger] rows[k]).id == entity implies
            rows[k].space != space by {
            assert(!p(rows[k]));
        }
    }
}

/// A summary takes the place of any other of the same kind, members and extractor,
/// and is read by all three.
pub proof fn law_summary_is_kept_by_its_members(
    summaries: Seq<SummaryRowView>,
    row: SummaryRowView,
)
    ensures
        forall|s: SummaryRowView| #[trigger]
            with_summary(summaries, row).contains(s) <==> s == row || (summaries.contains(s) && (
            s.scope_kind != row.scope_kind || s.member_set_hash != row.member_set_hash
                || s.extractor_id != row.extractor_id)),
        match summary_of(summaries, row.scope_kind, row.member_set_hash, row.extractor_id) {
            Some(text) => exists|i: int|
                0 <= i < summaries.len() && (#[trigger] summaries[i]).scope_kind == row.scope_kind
                    && summaries[i].member_set_hash == row.member_set_hash
                    && summaries[i].extractor_id == row.extractor_id && summaries[i].text == text,
            None => forall|i: int|
                0 <= i < summaries.len() && (#[trigger] summaries[i]).scope_kind == row.scope_kind
                    && summaries[i].member_set_hash == row.member_set_hash
                    ==> summaries[i].extractor_id != row.extractor_id,
        },
{
    let p = is_summary(row.scope_kind, row.member_set_hash, row.extractor_id);
    lemma_replaced(summaries, p, row);
    lemma_first_is(summaries, p);
    match first_where(summaries, p) {
        Some(s) => {
            let i = choose|i: int| 0 <= i < summaries.len() && summaries[i] == s;
            assert(summaries[i].scope_kind == row.scope_kind);
        },
        None => {
            assert forall|i: int|
                0 <= i < summaries.len() && (#[trigger] summaries[i]).scope_kind == row.scope_kind
                    && summaries[i].member_set_hash
                    == row.member_set_hash implies summaries[i].extractor_id
                != row.extractor_id by {
                assert(!p(summaries[i]));
            }
        },
    }
}

/// A derived episode holds its text in its space, tells what it is derived of, and
/// is made and ingested now.
pub proof fn law_derived_episode_tells_its_origin(
    space: Seq<char>,
    text: Seq<char>,
    of: Seq<char>,
    now: Timestamp,
)
    ensures
        ({
            let e = derived_episode(space, text, of, now);
            &&& e.space == space
            &&& e.content == text
            &&& e.source == (SourceRefView::Derived { of })
            &&& e.trust == TrustTier::Trusted
            &&& e.kind == EpisodeKind::Derived
            &&& e.occurred_at == now
            &&& e.ingested_at == now
            &&& e.redacted_at is None
        }),
{
}

/// A derived episode is linked to each of its sources, once; all links that are
/// there stay, and no others are made.
pub proof fn law_derived_episode_is_linked(
    links: Seq<EpisodeLinkView>,
    from: Seq<char>,
    sources: Seq<Seq<char>>,
)
    ensures
        forall|l: EpisodeLinkView| #[trigger]
            linked(links, from, sources).contains(l) <==> links.contains(l) || (l.from_episode
                == from && l.rel == "summarizes"@ && sources.contains(l.to_episode)),
    decreases sources.len(),
{
    if sources.len() > 0 {
        let init = sources.drop_last();
        let last = sources.last();
        law_derived_episode_is_linked(links, from, init);
        let before = linked(links, from, init);
        let x = EpisodeLinkView { from_episode: from, to_episode: last, rel: "summarizes"@ };
        let after = linked(links, from, sources);
        assert(sources =~= init.push(last));
        assert forall|l: EpisodeLinkView| #[trigger] after.contains(l) <==> links.contains(l) || (
        l.from_episode == from && l.rel == "summarizes"@ && sources.contains(l.to_episode)) by {
            if some_where(before, is_link(x)) {
                let i = choose|i: int| 0 <= i < before.len() && is_link(x)(#[trigger] before[i]);
                assert(before[i] == x);
                assert(before.contains(x));
            } else {
                assert(after == before.push(x));
                assert(after[before.len() as int] == x);
                if before.contains(l) {
                    let i = choose|i: int| 0 <= i < before.len() && before[i] == l;
                    assert(after[i] == l);
                }
                if after.contains(l) {
                    let i = choose|i: int| 0 <= i < after.len() && after[i] == l;
                    if i < before.len() {
                        assert(before[i] == l);
                    }
                }
            }
            if init.contains(l.to_episode) {
                let i = choose|i: int| 0 <= i < init.len() && init[i] == l.to_episode;
                assert(sources[i] == l.to_episode);
            }
            assert(sources[sources.len() - 1] == last);
            if sources.contains(l.to_episode) && l.to_episode != last {
                let i = choose|i: int| 0 <= i < sources.len() && sources[i] == l.to_episode;
                assert(init[i] == l.to_episode);
            }
            if l.from_episode == from && l.rel == "summarizes"@ && l.to_episode == last {
                assert(l == x);
            }
        }
    }
}

/// Uncertainty is noted on the episode of the id alone, and changes nothing else of
/// it.
pub proof fn law_uncertainty_is_noted(
    episodes: Seq<EpisodeRowView>,
    id: Seq<char>,
    json: Seq<char>,
)
    ensures
        ({
            let after = updated(
                episodes,
                crate::ledger::episode_has_id(id),
                with_uncertainty(json),
            );
            &&& after.len() == episodes.len()
            &&& forall|i: int|
                #![trigger after[i]]
                0 <= i < episodes.len() ==> after[i] == (EpisodeRowView {
                    uncertainty_json: if episodes[i].id == id {
                        Some(json)
                    } else {
                        episodes[i].uncertainty_json
                    },
                    ..episodes[i]
                })
        }),
{
}

/// Work on a cluster that is begun is in progress since now, in place of what the
/// extractor had begun on it before.
pub proof fn law_checkpoint_is_begun(
    rows: Seq<CheckpointRowView>,
    hash: Seq<char>,
    extractor: Seq<char>,
    now: Timestamp,
)
    ensures
        forall|c: CheckpointRowView| #[trigger]
            begun(rows, hash, extractor, now).contains(c) <==> (c.cluster_hash == hash
                && c.extractor_id == extractor && c.status == "in_progress"@ && c.started_at == now
                && c.completed_at is None) || (rows.contains(c) && (c.cluster_hash != hash
                || c.extractor_id != extractor)),
{
    let row = CheckpointRowView {
        cluster_hash: hash,
        extractor_id: extractor,
        status: "in_progress"@,
        started_at: now,
        completed_at: None,
    };
    lemma_replaced(rows, is_checkpoint(hash, extractor), row);
}

/// Work that is completed is marked so as of now, on its cluster alone.
pub proof fn law_checkpoint_is_completed(
    rows: Seq<CheckpointRowView>,
    hash: Seq<char>,
    now: Timestamp,
)
    ensures
        ({
            let after = updated(rows, marks(hash), completed(now));
            &&& after.len() == rows.len()
            &&& forall|i: int|
                #![trigger after[i]]
                0 <= i < rows.len() ==> if rows[i].cluster_hash == hash {
                    &&& after[i].status == "completed"@
                    &&& after[i].completed_at == Some(now)
                    &&& after[i].cluster_hash == hash
                    &&& after[i].extractor_id == rows[i].extractor_id
                    &&& after[i].started_at == rows[i].started_at
                } else {
                    after[i] == rows[i]
                }
        }),
{
}

/// The clusters that an extractor is done with are those that it completed; and a
/// cluster is pending where it is not among them.
pub proof fn law_completed_clusters_are_done(
    rows: Seq<CheckpointRowView>,
    extractor: Seq<char>,
    clusters: Seq<EpisodeClusterView>,
)
    ensures
        forall|h: Seq<char>| #[trigger]
            done_hashes(rows, extractor).contains(h) <==> exists|i: int|
                0 <= i < rows.len() && (#[trigger] rows[i]).cluster_hash == h
                    && rows[i].extractor_id == extractor && rows[i].status == "completed"@,
        forall|c: EpisodeClusterView| #[trigger]
            clusters.filter(is_pending(done_hashes(rows, extractor))).contains(c)
                <==> clusters.contains(c) && !done_hashes(rows, extractor).contains(
                cluster_key(c.episode_ids),
            ),
{
    let p = is_completed(extractor);
    let all = rows.filter(p).map_values(checkpoint_hash());
    lemma_got(rows, p, checkpoint_hash());
    lemma_distinct(all);
    lemma_selected(clusters, is_pending(done_hashes(rows, extractor)));
    assert forall|h: Seq<char>| #[trigger] done_hashes(rows, extractor).contains(h) <==> exists|
        i: int,
    |
        0 <= i < rows.len() && (#[trigger] rows[i]).cluster_hash == h && rows[i].extractor_id
            == extractor && rows[i].status == "completed"@ by {
        assert(done_hashes(rows, extractor).contains(h) <==> all.contains(h));
        if exists|i: int|
            0 <= i < rows.len() && (#[trigger] rows[i]).cluster_hash == h && rows[i].extractor_id
                == extractor && rows[i].status == "completed"@ {
            let i = choose|i: int|
                0 <= i < rows.len() && (#[trigger] rows[i]).cluster_hash == h
                    && rows[i].extractor_id == extractor && rows[i].status == "completed"@;
            assert(p(rows[i]) && checkpoint_hash()(rows[i]) == h);
        }
    }
}

/// Whether an episode asserts a statement with one of some entities as subject or
/// as object.
pub open spec fn mentions_one_of(
    db: TablesView,
    statement: Seq<char>,
    entities: Seq<Seq<char>>,
) -> bool {
    exists|j: int|
        0 <= j < db.statements.len() && (#[trigger] db.statements[j]).id == statement && (
        entities.contains(db.statements[j].subject) || (db.statements[j].object is Entity
            && entities.contains(db.statements[j].object->Entity_0)))
}

/// A statement involves some entities as subject or object.
proof fn lemma_involves_any(db: TablesView, statement: Seq<char>, entities: Seq<Seq<char>>)
    ensures
        some_where(db.statements, involves_any(statement, entities)) <==> mentions_one_of(
            db,
            statement,
            entities,
        ),
{
    let p = involves_any(statement, entities);
    if some_where(db.statements, p) {
        let j = choose|j: int| 0 <= j < db.statements.len() && p(#[trigger] db.statements[j]);
        assert(db.statements[j].id == statement);
    }
    if mentions_one_of(db, statement, entities) {
        let j = choose|j: int|
            0 <= j < db.statements.len() && (#[trigger] db.statements[j]).id == statement && (
            entities.contains(db.statements[j].subject) || (db.statements[j].object is Entity
                && entities.contains(db.statements[j].object->Entity_0)));
        assert(p(db.statements[j]));
    }
}

/// Whether an id is that of a primary episode of the space.
proof fn lemma_primary(db: TablesView, space: Seq<char>, id: Seq<char>)
    ensures
        primary_in(db, space, id) <==> exists|i: int|
            0 <= i < db.episodes.len() && (#[trigger] db.episodes[i]).id == id
                && db.episodes[i].space == space && db.episodes[i].kind == "primary"@,
{
    let p = is_primary(space, id);
    if exists|i: int|
        0 <= i < db.episodes.len() && (#[trigger] db.episodes[i]).id == id && db.episodes[i].space
            == space && db.episodes[i].kind == "primary"@ {
        let i = choose|i: int|
            0 <= i < db.episodes.len() && (#[trigger] db.episodes[i]).id == id
                && db.episodes[i].space == space && db.episodes[i].kind == "primary"@;
        assert(p(db.episodes[i]));
    }
}

/// A primary episode of a space is a row with its id, in the space, of that kind.
pub proof fn law_primary_episodes_are_told_by_kind(
    db: TablesView,
    space: Seq<char>,
    id: Seq<char>,
)
    ensures
        primary_in(db, space, id) <==> exists|i: int|
            0 <= i < db.episodes.len() && (#[trigger] db.episodes[i]).id == id
                && db.episodes[i].space == space && db.episodes[i].kind == "primary"@,
{
    lemma_primary(db, space, id);
}

/// The episodes about some entities: the primary episodes of the space that assert
/// a statement with one of them as subject or object, each once, in the order of
/// their ids.
pub proof fn law_episodes_about_entities(
    db: TablesView,
    space: Seq<char>,
    entities: Seq<Seq<char>>,
)
    ensures
        ({
            let r = ordered(
                distinct(
                    db.assertions.filter(cites_any(db, space, entities)).map_values(
                        asserting_episode(),
                    ),
                ),
                by_text(),
            );
            &&& forall|id: Seq<char>| #[trigger]
                r.contains(id) <==> primary_in(db, space, id) && exists|k: int|
                    0 <= k < db.assertions.len() && (#[trigger] db.assertions[k]).episode == id
                        && mentions_one_of(db, db.assertions[k].statement, entities)
            &&& forall|i: int, j: int|
                0 <= i < j < r.len() ==> text_le(#[trigger] r[i], #[trigger] r[j])
        }),
{
    let p = cites_any(db, space, entities);
    let all = db.assertions.filter(p).map_values(asserting_episode());
    let r = ordered(distinct(all), by_text());
    lemma_got(db.assertions, p, asserting_episode());
    lemma_distinct(all);
    lemma_text_order();
    lemma_ordered_members(distinct(all), by_text());
    lemma_ordered_in_order(distinct(all), by_text());
    assert forall|i: int, j: int| 0 <= i < j < r.len() implies text_le(
        #[trigger] r[i],
        #[trigger] r[j],
    ) by {
        assert(by_text()(r[i], r[j]));
    }
    assert forall|id: Seq<char>| #[trigger] r.contains(id) <==> primary_in(db, space, id) && exists|
        k: int,
    |
        0 <= k < db.assertions.len() && (#[trigger] db.assertions[k]).episode == id
            && mentions_one_of(db, db.assertions[k].statement, entities) by {
        assert(r.contains(id) <==> distinct(all).contains(id));
        assert(distinct(all).contains(id) <==> all.contains(id));
        if all.contains(id) {
            let k = choose|k: int|
                0 <= k < db.assertions.len() && p(#[trigger] db.assertions[k])
                    && asserting_episode()(db.assertions[k]) == id;
            lemma_involves_any(db, db.assertions[k].statement, entities);
        }
        if primary_in(db, space, id) && exists|k: int|
            0 <= k < db.assertions.len() && (#[trigger] db.assertions[k]).episode == id
                && mentions_one_of(db, db.assertions[k].statement, entities) {
            let k = choose|k: int|
                0 <= k < db.assertions.len() && (#[trigger] db.assertions[k]).episode == id
                    && mentions_one_of(db, db.assertions[k].statement, entities);
            lemma_involves_any(db, db.assertions[k].statement, entities);
            assert(p(db.assertions[k]));
        }
    }
}

/// An episode touches an entity where it asserts a statement with the entity as
/// subject or object.
pub proof fn law_episode_touches_what_it_asserts_of(
    db: TablesView,
    episode: Seq<char>,
    entity: Seq<char>,
)
    ensures
        episode_touches(db, episode, entity) <==> exists|k: int, j: int|
            #![trigger db.assertions[k], db.statements[j]]
            0 <= k < db.assertions.len() && 0 <= j < db.statements.len() && db.assertions[k].episode
                == episode && db.statements[j].id == db.assertions[k].statement && (
            db.statements[j].subject == entity || db.statements[j].object == ObjectView::Entity(
                entity,
            )),
{
    let p = touches(db, episode, entity);
    let one = seq![entity];
    assert(one[0] == entity);
    assert forall|e: Seq<char>| one.contains(e) <==> e == entity by {}
    if some_where(db.assertions, p) {
        let k = choose|k: int| 0 <= k < db.assertions.len() && p(#[trigger] db.assertions[k]);
        let st = db.assertions[k].statement;
        let q = involves_any(st, one);
        let j = choose|j: int| 0 <= j < db.statements.len() && q(#[trigger] db.statements[j]);
        assert(db.assertions[k].episode == episode && db.statements[j].id == st);
    }
    if exists|k: int, j: int|
        #![trigger db.assertions[k], db.statements[j]]
        0 <= k < db.assertions.len() && 0 <= j < db.statements.len() && db.assertions[k].episode
            == episode && db.statements[j].id == db.assertions[k].statement && (
        db.statements[j].subject == entity || db.statements[j].object == ObjectView::Entity(
            entity,
        )) {
        let (k, j) = choose|k: int, j: int|
            #![trigger db.assertions[k], db.statements[j]]
            0 <= k < db.assertions.len() && 0 <= j < db.statements.len() && db.assertions[k].episode
                == episode && db.statements[j].id == db.assertions[k].statement && (
            db.statements[j].subject == entity || db.statements[j].object == ObjectView::Entity(
                entity,
            ));
        assert(involves_any(db.assertions[k].statement, one)(db.statements[j]));
        assert(p(db.assertions[k]));
    }
}

/// The entities of statements.
proof fn lemma_statement_entities(statements: Seq<StatementView>)
    ensures
        forall|e: Seq<char>| #[trigger]
            statement_entities(statements).contains(e) <==> exists|j: int|
                0 <= j < statements.len() && ((#[trigger] statements[j]).subject == e
                    || statements[j].object == ObjectView::Entity(e)),
    decreases statements.len(),
{
    if statements.len() > 0 {
        let init = statements.drop_last();
        let last = statements.last();
        let n = statements.len() - 1;
        lemma_statement_entities(init);
        let before = statement_entities(init);
        let after = statement_entities(statements);
        assert forall|e: Seq<char>| #[trigger] after.contains(e) <==> exists|j: int|
            0 <= j < statements.len() && ((#[trigger] statements[j]).subject == e
                || statements[j].object == ObjectView::Entity(e)) by {
            let more = match last.object {
                ObjectView::Entity(o) => seq![last.subject, o],
                ObjectView::Literal(_) => seq![last.subject],
            };
            assert(after =~= before + more);
            lemma_both_contain(before, more, e);
            assert(more[0] == last.subject);
            if last.object is Entity {
                assert(more[1] == last.object->Entity_0);
            }
            if before.contains(e) {
                let j = choose|j: int|
                    0 <= j < init.len() && ((#[trigger] init[j]).subject == e || init[j].object
                        == ObjectView::Entity(e));
                assert(statements[j] == init[j]);
            }
            if more.contains(e) {
                assert(statements[n].subject == e || statements[n].object == ObjectView::Entity(e));
            }
            if exists|j: int|
                0 <= j < statements.len() && ((#[trigger] statements[j]).subject == e
                    || statements[j].object == ObjectView::Entity(e)) {
                let j = choose|j: int|
                    0 <= j < statements.len() && ((#[trigger] statements[j]).subject == e
                        || statements[j].object == ObjectView::Entity(e));
                if j < n {
                    assert(init[j] == statements[j]);
                    assert(before.contains(e));
                }
            }
        }
    }
}

/// The entities that are known are the subjects and objects of statements, each
/// once, in the order of their ids.
pub proof fn law_known_entities_are_named_by_statements(db: TablesView)
    ensures
        forall|e: Seq<char>| #[trigger]
            known_entities(db).contains(e) <==> exists|j: int|
                0 <= j < db.statements.len() && ((#[trigger] db.statements[j]).subject == e
                    || db.statements[j].object == ObjectView::Entity(e)),
        forall|i: int, j: int|
            0 <= i < j < known_entities(db).len() ==> text_le(
                #[trigger] known_entities(db)[i],
                #[trigger] known_entities(db)[j],
            ),
{
    let all = statement_entities(db.statements);
    lemma_statement_entities(db.statements);
    lemma_distinct(all);
    lemma_text_order();
    lemma_ordered_members(distinct(all), by_text());
    lemma_ordered_in_order(distinct(all), by_text());
    let r = known_entities(db);
    assert forall|e: Seq<char>| #[trigger] r.contains(e) <==> all.contains(e) by {
        assert(distinct(all).contains(e) <==> all.contains(e));
    }
    assert forall|i: int, j: int| 0 <= i < j < r.len() implies text_le(
        #[trigger] r[i],
        #[trigger] r[j],
    ) by {
        assert(by_text()(r[i], r[j]));
    }
}

/// The entities that episodes share: the known entities that at least two of the
/// primary episodes of the space among them touch.
pub proof fn law_shared_entities_are_touched_twice(
    db: TablesView,
    space: Seq<char>,
    episodes: Seq<Seq<char>>,
)
    ensures
        forall|e: Seq<char>| #[trigger]
            shared_entities(db, space, episodes).contains(e) <==> known_entities(db).contains(e)
                && exists|a: Seq<char>, b: Seq<char>|
                #![trigger episode_touches(db, a, e), episode_touches(db, b, e)]
                a != b && episodes.contains(a) && episodes.contains(b) && primary_in(db, space, a)
                    && primary_in(db, space, b) && episode_touches(db, a, e) && episode_touches(
                    db,
                    b,
                    e,
                ),
{
    lemma_selected(known_entities(db), is_shared(db, space, episodes));
    assert forall|e: Seq<char>| #[trigger] shared_entities(db, space, episodes).contains(e)
        <==> known_entities(db).contains(e) && exists|a: Seq<char>, b: Seq<char>|
        #![trigger episode_touches(db, a, e), episode_touches(db, b, e)]
        a != b && episodes.contains(a) && episodes.contains(b) && primary_in(db, space, a)
            && primary_in(db, space, b) && episode_touches(db, a, e) && episode_touches(
            db,
            b,
            e,
        ) by {
        let p = is_touching(db, space, e);
        let t = touching(db, space, episodes, e);
        lemma_distinct(episodes);
        lemma_selected(distinct(episodes), p);
        crate::redaction::lemma_kept(distinct(episodes), p);
        if t.len() >= 2 {
            let a = t[0];
            let b = t[1];
            assert(p(t[0]) && p(t[1]));
            assert(t.contains(a) && t.contains(b));
            lemma_selection_distinct(distinct(episodes), p);
            assert(a != b);
            assert(episode_touches(db, a, e) && episode_touches(db, b, e));
        }
        if exists|a: Seq<char>, b: Seq<char>|
            #![trigger episode_touches(db, a, e), episode_touches(db, b, e)]
            a != b && episodes.contains(a) && episodes.contains(b) && primary_in(db, space, a)
                && primary_in(db, space, b) && episode_touches(db, a, e) && episode_touches(
                db,
                b,
                e,
            ) {
            let (a, b) = choose|a: Seq<char>, b: Seq<char>|
                #![trigger episode_touches(db, a, e), episode_touches(db, b, e)]
                a != b && episodes.contains(a) && episodes.contains(b) && primary_in(db, space, a)
                    && primary_in(db, space, b) && episode_touches(db, a, e) && episode_touches(
                    db,
                    b,
                    e,
                );
            assert(p(a) && p(b));
            assert(t.contains(a) && t.contains(b));
            let i = choose|i: int| 0 <= i < t.len() && t[i] == a;
            let j = choose|j: int| 0 <= j < t.len() && t[j] == b;
            assert(i != j);
        }
    }
}

/// A selection from a list without repetition has none.
pub proof fn lemma_selection_distinct<V>(s: Seq<V>, p: spec_fn(V) -> bool)
    requires
        s.no_duplicates(),
    ensures
        s.filter(p).no_duplicates(),
    decreases s.len(),
{
    reveal(Seq::filter);
    if s.len() > 0 {
        let init = s.drop_last();
        lemma_selection_distinct(init, p);
        lemma_selected(init, p);
        let head = init.filter(p);
        if p(s.last()) {
            assert(!head.contains(s.last())) by {
                if head.contains(s.last()) {
                    assert(init.contains(s.last()));
                    let i = choose|i: int| 0 <= i < init.len() && init[i] == s.last();
                    assert(s[i] == s[s.len() - 1]);
                }
            }
        }
    }
}

/// Two episodes are related where both are primary episodes of the space, they
/// differ, and both touch at least two entities that they share.
pub proof fn law_related_episodes_share_two_entities(
    db: TablesView,
    space: Seq<char>,
    a: Seq<char>,
    b: Seq<char>,
)
    ensures
        related(db, space, a, b) <==> a != b && primary_in(db, space, a) && primary_in(db, space, b)
            && exists|e: Seq<char>, f: Seq<char>|
            #![trigger episode_touches(db, a, e), episode_touches(db, b, f)]
            e != f && episode_touches(db, a, e) && episode_touches(db, b, e) && episode_touches(
                db,
                a,
                f,
            ) && episode_touches(db, b, f),
        related(db, space, a, b) == related(db, space, b, a),
{
    lemma_related(db, space, a, b);
    lemma_related(db, space, b, a);
}

/// Whether two episodes are related.
proof fn lemma_related(db: TablesView, space: Seq<char>, a: Seq<char>, b: Seq<char>)
    ensures
        related(db, space, a, b) <==> a != b && primary_in(db, space, a) && primary_in(db, space, b)
            && exists|e: Seq<char>, f: Seq<char>|
            #![trigger episode_touches(db, a, e), episode_touches(db, b, f)]
            e != f && episode_touches(db, a, e) && episode_touches(db, b, e) && episode_touches(
                db,
                a,
                f,
            ) && episode_touches(db, b, f),
{
    let p = touched_by_both(db, a, b);
    let known = known_entities(db);
    let both = known.filter(p);
    lemma_selected(known, p);
    law_known_entities_are_named_by_statements(db);
    lemma_distinct(statement_entities(db.statements));
    lemma_no_duplicates_ordered(distinct(statement_entities(db.statements)));
    lemma_selection_distinct(known, p);
    if both.len() >= 2 {
        let e = both[0];
        let f = both[1];
        assert(p(both[0]) && p(both[1]));
        assert(e != f);
        assert(episode_touches(db, a, e) && episode_touches(db, b, f));
    }
    if exists|e: Seq<char>, f: Seq<char>|
        #![trigger episode_touches(db, a, e), episode_touches(db, b, f)]
        e != f && episode_touches(db, a, e) && episode_touches(db, b, e)
            && episode_touches(db, a, f)
            && episode_touches(db, b, f) {
        let (e, f) = choose|e: Seq<char>, f: Seq<char>|
            #![trigger episode_touches(db, a, e), episode_touches(db, b, f)]
            e != f && episode_touches(db, a, e) && episode_touches(db, b, e) && episode_touches(
                db,
                a,
                f,
            ) && episode_touches(db, b, f);
        lemma_touched_is_known(db, a, e);
        lemma_touched_is_known(db, a, f);
        assert(both.contains(e) && both.contains(f));
        let i = choose|i: int| 0 <= i < both.len() && both[i] == e;
        let j = choose|j: int| 0 <= j < both.len() && both[j] == f;
        assert(i != j);
    }
}

/// An entity that an episode touches is known.
proof fn lemma_touched_is_known(db: TablesView, episode: Seq<char>, entity: Seq<char>)
    requires
        episode_touches(db, episode, entity),
    ensures
        known_entities(db).contains(entity),
{
    law_episode_touches_what_it_asserts_of(db, episode, entity);
    law_known_entities_are_named_by_statements(db);
    let (k, j) = choose|k: int, j: int|
        #![trigger db.assertions[k], db.statements[j]]
        0 <= k < db.assertions.len() && 0 <= j < db.statements.len() && db.assertions[k].episode
            == episode && db.statements[j].id == db.assertions[k].statement && (
        db.statements[j].subject == entity || db.statements[j].object == ObjectView::Entity(
            entity,
        ));
    assert(db.statements[j].subject == entity || db.statements[j].object == ObjectView::Entity(
        entity,
    ));
}

/// Ordering a list without repetition makes none.
pub proof fn lemma_no_duplicates_ordered(s: Seq<Seq<char>>)
    requires
        s.no_duplicates(),
    ensures
        ordered(s, by_text()).no_duplicates(),
{
    let r = ordered(s, by_text());
    crate::rows::lemma_ordered_same_rows(s, by_text());
    s.lemma_multiset_has_no_duplicates();
    r.lemma_multiset_has_no_duplicates_conv();
}

/// The groups of labelled rows in the order of their labels: each group holds the
/// ids of the rows with its label, and each row is in the group of its label.
pub proof fn law_groups_share_a_label(rows: Seq<CommunityRowView>)
    requires
        forall|i: int| 0 <= i < rows.len() ==> (#[trigger] rows[i]).label >= 0,
        forall|i: int, j: int|
            0 <= i < j < rows.len() ==> (#[trigger] rows[i]).label <= (#[trigger] rows[j]).label,
    ensures
        ({
            let g = grouped(rows);
            &&& forall|k: int, l: int|
                0 <= k < l < g.len() ==> (#[trigger] g[k]).label < (#[trigger] g[l]).label
            &&& rows.len() > 0 ==> g.len() > 0 && g.last().label == rows.last().label
            &&& forall|k: int, id: Seq<char>|
                0 <= k < g.len() ==> (#[trigger] g[k].entity_ids.contains(id) <==> is_labelled(
                    rows,
                    id,
                    g[k].label as int,
                ))
            &&& forall|i: int|
                0 <= i < rows.len() ==> has_group(g, (#[trigger] rows[i]).label as int)
        }),
    decreases rows.len(),
{
    let g = grouped(rows);
    if rows.len() > 0 {
        let init = rows.drop_last();
        let n = rows.len() - 1;
        let row = rows.last();
        assert(row == rows[n]);
        assert forall|i: int| 0 <= i < init.len() implies (#[trigger] init[i]).label >= 0 by {
            assert(init[i] == rows[i]);
        }
        assert forall|i: int, j: int| 0 <= i < j < init.len() implies (#[trigger] init[i]).label
            <= (#[trigger] init[j]).label by {
            assert(init[i] == rows[i] && init[j] == rows[j]);
        }
        law_groups_share_a_label(init);
        let before = grouped(init);
        if init.len() > 0 {
            assert(init.last() == rows[n - 1]);
            assert(rows[n - 1].label <= rows[n].label);
        } else {
            assert(before.len() == 0);
        }
        let same = before.len() > 0 && before.last().label == row.label as u64;
        assert forall|k: int, l: int| 0 <= k < l < g.len() implies (#[trigger] g[k]).label < (
        #[trigger] g[l]).label by {
            if same {
                assert(g[k].label == before[k].label && g[l].label == before[l].label);
            } else if l < before.len() {
                assert(g[k] == before[k] && g[l] == before[l]);
            } else {
                assert(g[k] == before[k]);
                if k < before.len() - 1 {
                    assert(before[k].label < before[before.len() - 1].label);
                }
            }
        }
        assert forall|k: int, id: Seq<char>| 0 <= k < g.len() implies (
        #[trigger] g[k].entity_ids.contains(id) <==> is_labelled(rows, id, g[k].label as int)) by {
            lemma_labelled_more(rows, id, g[k].label as int);
            if same && k == before.len() - 1 {
                let ids = before[k].entity_ids;
                assert(g[k].entity_ids == ids.push(row.id));
                assert(before[k].entity_ids.contains(id) <==> is_labelled(
                    init,
                    id,
                    before[k].label as int,
                ));
                lemma_pushed(ids, row.id, id);
            } else if k < before.len() {
                assert(g[k] == before[k]);
                assert(before[k].entity_ids.contains(id) <==> is_labelled(
                    init,
                    id,
                    before[k].label as int,
                ));
                if same {
                    assert(before[k].label < before[before.len() - 1].label);
                } else {
                    if k < before.len() - 1 {
                        assert(before[k].label < before[before.len() - 1].label);
                    }
                }
            } else {
                assert(g[k].entity_ids =~= seq![row.id]);
                assert(g[k].entity_ids[0] == row.id);
                if is_labelled(init, id, row.label as int) {
                    let i = choose|i: int|
                        0 <= i < init.len() && (#[trigger] init[i]).id == id && init[i].label
                            == row.label;
                    assert(init[i].label <= init.last().label) by {
                        if i < init.len() - 1 {
                            assert(init[i].label <= init[init.len() - 1].label);
                        }
                    }
                }
            }
        }
        assert forall|i: int| 0 <= i < rows.len() implies has_group(
            g,
            (#[trigger] rows[i]).label as int,
        ) by {
            if i < n {
                assert(init[i] == rows[i]);
                assert(has_group(before, init[i].label as int));
                let k = choose|k: int|
                    0 <= k < before.len() && (#[trigger] before[k]).label == init[i].label;
                assert(g[k].label == before[k].label);
            } else {
                assert(g[g.len() - 1].label == row.label);
            }
        }
    }
}

/// Whether a row of an id has a label.
pub open spec fn is_labelled(rows: Seq<CommunityRowView>, id: Seq<char>, label: int) -> bool {
    exists|i: int|
        0 <= i < rows.len() && (#[trigger] rows[i]).id == id && rows[i].label == label
}

/// Whether there is a group of a label.
pub open spec fn has_group(groups: Seq<CommunityGroupView>, label: int) -> bool {
    exists|k: int| 0 <= k < groups.len() && (#[trigger] groups[k]).label == label
}

/// One row more has its own label.
proof fn lemma_labelled_more(rows: Seq<CommunityRowView>, id: Seq<char>, label: int)
    requires
        rows.len() > 0,
    ensures
        is_labelled(rows, id, label) <==> is_labelled(rows.drop_last(), id, label) || (
        rows.last().id == id && rows.last().label == label),
{
    let init = rows.drop_last();
    if is_labelled(rows, id, label) {
        let i = choose|i: int|
            0 <= i < rows.len() && (#[trigger] rows[i]).id == id && rows[i].label == label;
        if i < init.len() {
            assert(init[i] == rows[i]);
        }
    }
    if is_labelled(init, id, label) {
        let i = choose|i: int|
            0 <= i < init.len() && (#[trigger] init[i]).id == id && init[i].label == label;
        assert(rows[i] == init[i]);
    }
    assert(rows[rows.len() - 1] == rows.last());
}

/// What a list with one more holds.
proof fn lemma_pushed<V>(s: Seq<V>, x: V, v: V)
    ensures
        s.push(x).contains(v) <==> s.contains(v) || v == x,
{
    lemma_both_contain(s, seq![x], v);
    assert(s.push(x) =~= s + seq![x]);
    assert(seq![x][0] == x);
}

/// The rows of a space's communities, by label and then by id.
pub proof fn law_communities_are_ordered_by_label(
    rows: Seq<CommunityRowView>,
    space: Seq<char>,
)
    ensures
        ({
            let r = ordered(rows.filter(community_in(space)), by_label());
            &&& forall|c: CommunityRowView| #[trigger]
                r.contains(c) <==> rows.contains(c) && c.space == space
            &&& forall|i: int, j: int|
                0 <= i < j < r.len() ==> (#[trigger] r[i]).label < (#[trigger] r[j]).label || (
                r[i].label == r[j].label && text_le(r[i].id, r[j].id))
        }),
{
    let p = community_in(space);
    let leq = by_label();
    let r = ordered(rows.filter(p), leq);
    assert(is_order(leq)) by {
        assert forall|a: CommunityRowView, b: CommunityRowView| #[trigger] leq(a, b) || leq(
            b,
            a,
        ) by {
            crate::text::lemma_text_total(a.id, b.id);
        }
        assert forall|a: CommunityRowView, b: CommunityRowView, c: CommunityRowView| #[trigger]
            leq(a, b) && #[trigger] leq(b, c) implies leq(a, c) by {
            if a.label == b.label && b.label == c.label {
                crate::text::lemma_text_transitive(a.id, b.id, c.id);
            }
        }
    }
    lemma_selected(rows, p);
    lemma_ordered_members(rows.filter(p), leq);
    lemma_ordered_in_order(rows.filter(p), leq);
    assert forall|c: CommunityRowView| #[trigger] r.contains(c) <==> rows.contains(c) && c.space
        == space by {
        assert(rows.filter(p).contains(c) <==> rows.contains(c) && p(c));
    }
    assert forall|i: int, j: int| 0 <= i < j < r.len() implies (#[trigger] r[i]).label < (
    #[trigger] r[j]).label || (r[i].label == r[j].label && text_le(r[i].id, r[j].id)) by {
        assert(leq(r[i], r[j]));
    }
}

/// A cluster holds at least two episodes, without shared entities of its own; two
/// related episodes are in the same cluster; and a cluster holds no episode that
/// is related to none.
pub proof fn law_clusters_hold_related_episodes(
    db: TablesView,
    space: Seq<char>,
    clusters: Seq<EpisodeClusterView>,
)
    requires
        is_clustering(db, space, clusters),
    ensures
        forall|k: int|
            0 <= k < clusters.len() ==> (#[trigger] clusters[k]).episode_ids.len() >= 2
                && clusters[k].shared_entities.len() == 0
                && clusters[k].episode_ids.no_duplicates(),
        forall|a: Seq<char>, b: Seq<char>| #[trigger]
            related(db, space, a, b) ==> exists|k: int|
                0 <= k < clusters.len() && (#[trigger] clusters[k]).episode_ids.contains(a)
                    && clusters[k].episode_ids.contains(b),
        forall|k: int, b: Seq<char>|
            0 <= k < clusters.len() && #[trigger] clusters[k].episode_ids.contains(b) ==> exists|
                a: Seq<char>,
            | #[trigger]
                related(db, space, a, b) || related(db, space, b, a),
{
    assert forall|k: int| 0 <= k < clusters.len() implies (#[trigger] clusters[k]).episode_ids.len()
        >= 2 && clusters[k].shared_entities.len() == 0
        && clusters[k].episode_ids.no_duplicates() by {
        assert(is_cluster(db, space, clusters[k]));
    }
    assert forall|a: Seq<char>, b: Seq<char>| #[trigger] related(db, space, a, b) implies exists|
        k: int,
    |
        0 <= k < clusters.len() && (#[trigger] clusters[k]).episode_ids.contains(a)
            && clusters[k].episode_ids.contains(b) by {
        assert(in_some_cluster(clusters, a));
        let k = choose|k: int|
            0 <= k < clusters.len() && (#[trigger] clusters[k]).episode_ids.contains(a);
        assert(is_cluster(db, space, clusters[k]));
        let first = clusters[k].episode_ids[0];
        assert(connected(db, space, first, a));
        let walk = choose|walk: Seq<Seq<char>>|
            #[trigger] is_walk(db, space, walk) && walk[0] == first && walk.last() == a;
        let more = walk.push(b);
        assert(is_walk(db, space, more)) by {
            assert forall|i: int| 0 <= i < more.len() - 1 implies related(
                db,
                space,
                #[trigger] more[i],
                more[i + 1],
            ) by {
                if i < walk.len() - 1 {
                    assert(more[i] == walk[i] && more[i + 1] == walk[i + 1]);
                    assert(related(db, space, walk[i], walk[i + 1]));
                }
            }
        }
        assert(more[0] == first && more.last() == b);
        assert(connected(db, space, first, b));
    }
    assert forall|k: int, b: Seq<char>|
        0 <= k < clusters.len() && #[trigger] clusters[k].episode_ids.contains(b) implies exists|
        a: Seq<char>,
    | #[trigger]
        related(db, space, a, b) || related(db, space, b, a) by {
        assert(is_cluster(db, space, clusters[k]));
        let ids = clusters[k].episode_ids;
        let first = ids[0];
        if b == first {
            let c = ids[1];
            assert(ids.contains(c));
            assert(c != first);
            assert(connected(db, space, first, c));
            let walk = choose|walk: Seq<Seq<char>>|
                #[trigger] is_walk(db, space, walk) && walk[0] == first && walk.last() == c;
            assert(walk.len() >= 2);
            assert(related(db, space, walk[0], walk[0int + 1]));
            law_related_episodes_share_two_entities(db, space, walk[0], walk[1]);
            assert(related(db, space, walk[1], b));
        } else {
            assert(connected(db, space, first, b));
            let walk = choose|walk: Seq<Seq<char>>|
                #[trigger] is_walk(db, space, walk) && walk[0] == first && walk.last() == b;
            assert(walk.len() >= 2);
            let n = walk.len() - 2;
            assert(related(db, space, walk[n], walk[n + 1]));
        }
    }
}

/// No two clusters start with the same episode, and clusters are listed in the order
/// of their first episodes.
pub proof fn law_clusters_are_apart(
    db: TablesView,
    space: Seq<char>,
    clusters: Seq<EpisodeClusterView>,
    i: int,
    j: int,
)
    requires
        is_clustering(db, space, clusters),
        0 <= i < j < clusters.len(),
    ensures
        clusters[i].episode_ids[0] != clusters[j].episode_ids[0],
        text_le(clusters[i].episode_ids[0], clusters[j].episode_ids[0]),
{
}

} // verus!
