//! Lifecycle: salience decay and compaction of cold episodes.
use vstd::prelude::*;
use vstd::utf8::encode_utf8;

use crate::knowledge::entity_has_id;
use crate::ledger::{content_of, entity_in, episode_has_id, episode_read};
use crate::reproject::{
    declaration_step, declaration_steps, extraction_step, extraction_steps,
    is_replayed_declaration, is_replayed_extraction, is_replayed_primary, replay_steps,
    with_source,
};
use crate::rows::{lemma_updated_filter, pick, some_where, update, updated, Row};
use crate::tables::{
    Entity, EntityView, EpisodeRow, EpisodeRowView, ExtractionRowView, Tables, TablesView,
};
use crate::text::str_eq;
use crate::time::Timestamp;

verus! {

/// An entity's id and the time it was last active, or `now` where it never was.
pub open spec fn decay_input(now: Timestamp) -> spec_fn(EntityView) -> (Seq<char>, Timestamp) {
    |e: EntityView|
        (
            e.id,
            match e.last_activity {
                Some(t) => t,
                None => now,
            },
        )
}

/// The entities of a space with the times from which their salience decays.
pub fn decay_inputs(db: &Tables, space: &str, now: Timestamp) -> (r: Vec<(String, Timestamp)>)
    ensures
        r.deep_view() == db.deep_view().entities.filter(entity_in(space@)).map_values(
            decay_input(now),
        ),
{
    pick(
        &db.entities,
        |e: &Entity| -> (b: bool)
            ensures
                b == entity_in(space@)(e.deep_view())
            { str_eq(e.space.as_str(), space) },
        |e: &Entity| -> (p: (String, Timestamp))
            ensures
                p.deep_view() == decay_input(now)(e.deep_view())
            {
                let last = match e.last_activity {
                    Some(t) => t,
                    None => now,
                };
                (e.id.clone(), last)
            },
        Ghost(entity_in(space@)),
        Ghost(decay_input(now)),
    )
}

/// An entity with a new salience.
pub open spec fn with_salience(bits: u64) -> spec_fn(EntityView) -> EntityView {
    |e: EntityView| EntityView { salience: bits, ..e }
}

/// The entities once each given id has its new salience.
pub open spec fn decayed(entities: Seq<EntityView>, values: Seq<(Seq<char>, u64)>) -> Seq<
    EntityView,
>
    decreases values.len(),
{
    if values.len() == 0 {
        entities
    } else {
        updated(
            decayed(entities, values.drop_last()),
            entity_has_id(values.last().0),
            with_salience(values.last().1),
        )
    }
}

/// Writes the new salience of entities, as bit patterns. Returns how many were
/// given.
pub fn apply_decay(db: &mut Tables, values: &Vec<(String, u64)>) -> (r: usize)
    ensures
        r == values.len(),
        final(db).deep_view() == (TablesView {
            entities: decayed(old(db).deep_view().entities, values.deep_view()),
            ..old(db).deep_view()
        }),
{
    let ghost first = db.deep_view();
    let ghost all = values.deep_view();
    let mut i: usize = 0;
    assert(all.take(0) =~= Seq::empty());
    while i < values.len()
        invariant
            i <= values.len(),
            all == values.deep_view(),
            db.deep_view() == (TablesView {
                entities: decayed(first.entities, all.take(i as int)),
                ..first
            }),
        decreases values.len() - i,
    {
        let ghost id = all[i as int].0;
        let bits: u64 = values[i].1;
        proof {
            assert(all.take(i + 1).drop_last() =~= all.take(i as int));
            assert(all.take(i + 1).last() == all[i as int]);
            assert(all[i as int] == values[i as int].deep_view());
        }
        let _n: usize = update(
            &mut db.entities,
            |e: &Entity| -> (b: bool)
                ensures
                    b == entity_has_id(id)(e.deep_view())
                { str_eq(e.id.as_str(), values[i].0.as_str()) },
            |e: &Entity| -> (y: Entity)
                ensures
                    y.deep_view() == with_salience(bits)(e.deep_view())
                {
                    let mut y = e.dup();
                    y.salience = bits;
                    y
                },
            Ghost(entity_has_id(id)),
            Ghost(with_salience(bits)),
        );
        i = i + 1;
    }
    assert(all.take(i as int) =~= all);
    values.len()
}

/// Selects the episodes of a space that are older than a cutoff, hold text in
/// line, and were not compacted.
pub open spec fn is_cold(space: Seq<char>, cutoff: int) -> spec_fn(EpisodeRowView) -> bool {
    |e: EpisodeRowView|
        e.space == space && e.compacted_at is None && e.ingested_at.0 < cutoff && e.content.len()
            > 0
}

/// An episode with its text moved into the compacted column.
pub open spec fn compacted(now: Timestamp) -> spec_fn(EpisodeRowView) -> EpisodeRowView {
    |e: EpisodeRowView|
        EpisodeRowView {
            content_compacted: Some(encode_utf8(e.content)),
            compacted_at: Some(now),
            content: Seq::empty(),
            ..e
        }
}

/// The time before which an episode is cold.
pub open spec fn cutoff_of(now: Timestamp, min_age_days: u32) -> int {
    now.0 - min_age_days * 86_400_000
}

/// Compact cold episodes: move their text into the compacted column. Returns
/// how many were compacted.
pub fn compact_episodes(
    db: &mut Tables,
    space: &str,
    now: Timestamp,
    min_age_days: u32,
) -> (r: usize)
    requires
        cutoff_of(now, min_age_days) >= i64::MIN,
    ensures
        r == old(db).deep_view().episodes.filter(
            is_cold(space@, cutoff_of(now, min_age_days)),
        ).len(),
        final(db).deep_view() == after_compaction(
            old(db).deep_view(),
            space@,
            now,
            min_age_days,
        ),
{
    let cutoff: i64 = now.0 - (min_age_days as i64) * 86_400_000;
    update(
        &mut db.episodes,
        |e: &EpisodeRow| -> (b: bool)
            ensures
                b == is_cold(space@, cutoff as int)(e.deep_view())
            {
                str_eq(e.space.as_str(), space) && e.compacted_at.is_none() && e.ingested_at.0
                    < cutoff && !e.content.as_str().is_empty()
            },
        |e: &EpisodeRow| -> (y: EpisodeRow)
            ensures
                y.deep_view() == compacted(now)(e.deep_view())
            {
                let mut y = e.dup();
                let bytes: Vec<u8> = bytes_of_text(e.content.as_str());
                y.content_compacted = Some(bytes);
                y.compacted_at = Some(now);
                y.content = String::new();
                y
            },
        Ghost(is_cold(space@, cutoff as int)),
        Ghost(compacted(now)),
    )
}

fn bytes_of_text(s: &str) -> (r: Vec<u8>)
    ensures
        r@ == encode_utf8(s@),
{
    let mut out: Vec<u8> = Vec::new();
    crate::documents::push_bytes(&mut out, s.as_bytes());
    assert(out@ =~= encode_utf8(s@));
    out
}

/// Compacting an episode does not change what is read of it.
pub proof fn law_compaction_is_transparent(e: EpisodeRowView, now: Timestamp)
    requires
        e.content.len() > 0,
    ensures
        content_of(compacted(now)(e)) == content_of(e),
{
    vstd::utf8::encode_utf8_valid_utf8(e.content);
    vstd::utf8::encode_utf8_decode_utf8(e.content);
}

/// The tables after the cold episodes of a space were compacted.
pub open spec fn after_compaction(
    db: TablesView,
    space: Seq<char>,
    now: Timestamp,
    min_age_days: u32,
) -> TablesView {
    TablesView {
        episodes: updated(
            db.episodes,
            is_cold(space, cutoff_of(now, min_age_days)),
            compacted(now),
        ),
        ..db
    }
}

/// Compaction cannot be seen through a read: every episode reads as it did,
/// whether or not it was old enough to be compacted, and an id that is not stored
/// still finds none. Compacting again finds nothing to compact.
pub proof fn law_compaction_keeps_every_episode(
    db: TablesView,
    space: Seq<char>,
    now: Timestamp,
    min_age_days: u32,
    id: Seq<char>,
)
    ensures
        ({
            let after = after_compaction(db, space, now, min_age_days);
            &&& episode_read(after, id) == episode_read(db, id)
            &&& after.episodes.filter(is_cold(space, cutoff_of(now, min_age_days))).len() == 0
            &&& after_compaction(after, space, now, min_age_days) == after
        }),
{
    let cold = is_cold(space, cutoff_of(now, min_age_days));
    let after = after_compaction(db, space, now, min_age_days);
    let q = episode_has_id(id);
    lemma_updated_filter(db.episodes, cold, compacted(now), q);
    let found = db.episodes.filter(q);
    if found.len() > 0 {
        assert(updated(found, cold, compacted(now))[0] == if cold(found[0]) {
            compacted(now)(found[0])
        } else {
            found[0]
        });
        if cold(found[0]) {
            law_compaction_is_transparent(found[0], now);
        }
    }
    assert(after.episodes.all(|e: EpisodeRowView| !cold(e))) by {
        assert forall|i: int| 0 <= i < after.episodes.len() implies !cold(
            #[trigger] after.episodes[i],
        ) by {}
    }
    after.episodes.lemma_all_neg_filter_empty(cold);
    assert(after_compaction(after, space, now, min_age_days) =~= after) by {
        assert(updated(after.episodes, cold, compacted(now)) =~= after.episodes);
    }
}

/// Compaction does not change what a replay does.
pub proof fn law_compaction_keeps_the_replay(
    db: TablesView,
    space: Seq<char>,
    now: Timestamp,
    min_age_days: u32,
)
    ensures
        replay_steps(after_compaction(db, space, now, min_age_days)) == replay_steps(db),
{
    let cold = is_cold(space, cutoff_of(now, min_age_days));
    let g = compacted(now);
    let after = after_compaction(db, space, now, min_age_days);
    let d = is_replayed_declaration();
    lemma_updated_filter(db.episodes, cold, g, d);
    let kept = db.episodes.filter(d);
    assert forall|i: int| 0 <= i < kept.len() implies declaration_step()(
        #[trigger] updated(kept, cold, g)[i],
    ) == declaration_step()(kept[i]) by {
        if cold(kept[i]) {
            law_compaction_is_transparent(kept[i], now);
        }
    }
    assert(declaration_steps(after) =~= declaration_steps(db));
    assert forall|x: ExtractionRowView| #[trigger] is_replayed_extraction(after)(x)
        == is_replayed_extraction(db)(x) by {
        let p = is_replayed_primary(x.episode_id);
        if some_where(db.episodes, p) {
            let i = choose|i: int| 0 <= i < db.episodes.len() && p(db.episodes[i]);
            assert(p(after.episodes[i]));
        }
        if some_where(after.episodes, p) {
            let i = choose|i: int| 0 <= i < after.episodes.len() && p(after.episodes[i]);
            assert(p(db.episodes[i]));
        }
    }
    assert(is_replayed_extraction(after) =~= is_replayed_extraction(db));
    let rows = db.extractions.filter(is_replayed_extraction(db));
    assert forall|i: int| 0 <= i < rows.len() implies extraction_step()(
        #[trigger] with_source(after)(rows[i]),
    ) == extraction_step()(with_source(db)(rows[i])) by {
        db.extractions.lemma_filter_pred(is_replayed_extraction(db), i);
        let p = is_replayed_primary(rows[i].episode_id);
        lemma_updated_filter(db.episodes, cold, g, p);
        let k = choose|k: int| 0 <= k < db.episodes.len() && p(db.episodes[k]);
        db.episodes.lemma_filter_contains(p, k);
        let e = db.episodes.filter(p)[0];
        assert(updated(db.episodes.filter(p), cold, g)[0] == if cold(e) {
            g(e)
        } else {
            e
        });
        if cold(e) {
            law_compaction_is_transparent(e, now);
        }
    }
    assert(extraction_steps(after) =~= extraction_steps(db));
}

} // verus!
