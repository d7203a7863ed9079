//! What the ledger holds: spaces, episodes, sources, policies, responses and
//! failures.
use vstd::prelude::*;
use vstd::utf8::{decode_utf8, encode_utf8, valid_utf8};

use crate::error::BrainError;
use crate::extraction::{
    cached, cached_within, failed_within, failure_episode, is_backlog, is_failure,
    is_recent_failure, is_response, primary_episode, with_response,
};
use crate::ledger::{
    at_locator, by_latest_start, by_seq, by_source_name, content_of, covers, entity_in,
    episode_after, episode_has_id, episode_in, episode_read, episode_row, event_inserted,
    fully_named, has_content, hash_of, hashes_at, is_event, is_from_source, is_live_note,
    is_note_at, is_source_named, locator_state, locator_table, path_of, row_hash, seqs_fit,
    source_history, source_in, space_has_id, space_has_name, space_row, stored_space, top_seq,
    with_episode, with_space, EpisodeKind, EpisodeView, IngestAttachmentView, LocatorStateView,
    SourceRefView, SpaceRowView,
};
use crate::lifecycle::{after_compaction, decay_input, decayed};
use crate::quarantine::{by_latest_failure, failed_in, is_episode_in, top_failure_id};
use crate::redaction::episode_id_of;
use crate::rows::{
    distinct, first_where, is_order, lemma_distinct, lemma_first_is, lemma_got,
    lemma_ordered_in_order, lemma_ordered_members, lemma_selected, ordered, some_where,
};
use crate::tables::{
    EntityView, EpisodeRowView, ExtractionFailureView, ExtractionRowView, PolicyRowView,
    SourceRowView, SpaceEntryView, TablesView, TrustTier,
};
use crate::text::text_le;
use crate::time::{TIME_MAX, Timestamp};

verus! {

/// A space is made under its id, with its name and the time, unless there is one
/// of that id; all other spaces stay, and no other table changes.
pub proof fn law_space_is_created_once(
    db: TablesView,
    id: Seq<char>,
    name: Seq<char>,
    now: Timestamp,
)
    ensures
        ({
            let after = with_space(db, id, name, now);
            &&& (exists|i: int| 0 <= i < db.spaces.len() && (#[trigger] db.spaces[i]).id == id)
                ==> after == db
            &&& (forall|i: int| 0 <= i < db.spaces.len() ==> (#[trigger] db.spaces[i]).id != id)
                ==> {
                &&& after.spaces.len() == db.spaces.len() + 1
                &&& after.spaces.drop_last() == db.spaces
                &&& after.spaces.last().id == id
                &&& after.spaces.last().name == name
                &&& after.spaces.last().created_at == now.0
                &&& after.episodes == db.episodes
                &&& after.entities == db.entities
            }
        }),
{
    let after = with_space(db, id, name, now);
    if exists|i: int| 0 <= i < db.spaces.len() && (#[trigger] db.spaces[i]).id == id {
        let i = choose|i: int| 0 <= i < db.spaces.len() && (#[trigger] db.spaces[i]).id == id;
        assert(space_has_id(id)(db.spaces[i]));
    } else {
        assert(after.spaces.drop_last() =~= db.spaces);
    }
}

/// A space is looked up by its name, and its name by its id.
pub proof fn law_space_is_looked_up(db: TablesView, name: Seq<char>, id: Seq<char>)
    ensures
        match stored_space(db, name) {
            Some(found) => exists|i: int|
                0 <= i < db.spaces.len() && (#[trigger] db.spaces[i]).name == name
                    && db.spaces[i].id == found,
            None => forall|i: int|
                0 <= i < db.spaces.len() ==> (#[trigger] db.spaces[i]).name != name,
        },
        match first_where(db.spaces, space_has_id(id)) {
            Some(s) => s.id == id && db.spaces.contains(s),
            None => forall|i: int| 0 <= i < db.spaces.len() ==> (#[trigger] db.spaces[i]).id != id,
        },
{
    lemma_first_is(db.spaces, space_has_name(name));
    lemma_first_is(db.spaces, space_has_id(id));
    match first_where(db.spaces, space_has_name(name)) {
        Some(s) => {
            let i = choose|i: int| 0 <= i < db.spaces.len() && db.spaces[i] == s;
            assert(db.spaces[i].name == name);
        },
        None => {
            assert forall|i: int| 0 <= i < db.spaces.len() implies (#[trigger] db.spaces[i]).name
                != name by {
                assert(!space_has_name(name)(db.spaces[i]));
            }
        },
    }
    if first_where(db.spaces, space_has_id(id)) is None {
        assert forall|i: int| 0 <= i < db.spaces.len() implies (#[trigger] db.spaces[i]).id
            != id by {
            assert(!space_has_id(id)(db.spaces[i]));
        }
    }
}

/// A listed space has its id, name and time, and counts its own episodes and
/// entities.
pub proof fn law_listed_space_counts_its_own(db: TablesView, s: SpaceEntryView)
    ensures
        ({
            let r = space_row(db, s);
            &&& r.id == s.id
            &&& r.name == s.name
            &&& r.created_at == s.created_at
            &&& db.episodes.len() <= i64::MAX ==> r.episode_count == db.episodes.filter(
                |e: EpisodeRowView| e.space == s.id,
            ).len()
            &&& db.entities.len() <= i64::MAX ==> r.entity_count == db.entities.filter(
                |e: EntityView| e.space == s.id,
            ).len()
        }),
{
    lemma_selected(db.episodes, episode_in(s.id));
    lemma_selected(db.entities, entity_in(s.id));
    crate::parting::lemma_same_filter(
        db.episodes,
        episode_in(s.id),
        |e: EpisodeRowView| e.space == s.id,
    );
    crate::parting::lemma_same_filter(
        db.entities,
        entity_in(s.id),
        |e: EntityView| e.space == s.id,
    );
}

/// Spaces are listed by the time of their creation, and those of one time by
/// their ids.
pub proof fn law_spaces_are_listed_oldest_first(rows: Seq<SpaceRowView>)
    ensures
        ({
            let r = ordered(rows, crate::ledger::by_creation());
            forall|i: int, j: int|
                0 <= i < j < r.len() ==> (#[trigger] r[i]).created_at < (#[trigger] r[j]).created_at
                    || (r[i].created_at == r[j].created_at && text_le(r[i].id, r[j].id))
        }),
{
    crate::ledger::law_spaces_are_listed_in_order(rows);
    let leq = crate::ledger::by_creation();
    let r = ordered(rows, leq);
    assert forall|i: int, j: int| 0 <= i < j < r.len() implies (#[trigger] r[i]).created_at < (
    #[trigger] r[j]).created_at || (r[i].created_at == r[j].created_at && text_le(
        r[i].id,
        r[j].id,
    )) by {
        assert(leq(r[i], r[j]));
    }
}

/// The numbers of a space count up: the top one is in use there and none is above
/// it, and a space without episodes starts at nought.
pub proof fn law_numbers_count_up(rows: Seq<EpisodeRowView>, space: Seq<char>)
    requires
        seqs_fit(rows),
    ensures
        forall|i: int|
            0 <= i < rows.len() && (#[trigger] rows[i]).space == space ==> rows[i].seq <= top_seq(
                rows,
                space,
            ),
        (exists|i: int| 0 <= i < rows.len() && (#[trigger] rows[i]).space == space) ==> exists|
            i: int,
        |
            0 <= i < rows.len() && (#[trigger] rows[i]).space == space && rows[i].seq == top_seq(
                rows,
                space,
            ),
        (forall|i: int| 0 <= i < rows.len() ==> (#[trigger] rows[i]).space != space) ==> top_seq(
            rows,
            space,
        ) == -1,
        top_seq(rows, space) >= -1,
    decreases rows.len(),
{
    if rows.len() > 0 {
        let init = rows.drop_last();
        assert(seqs_fit(init)) by {
            assert forall|i: int| 0 <= i < init.len() implies 0 <= (#[trigger] init[i]).seq
                < i64::MAX by {
                assert(init[i] == rows[i]);
            }
        }
        law_numbers_count_up(init, space);
        let n = rows.len() - 1;
        assert(rows.last() == rows[n]);
        assert forall|i: int| 0 <= i < rows.len() && (#[trigger] rows[i]).space == space implies
            rows[i].seq <= top_seq(rows, space) by {
            if i < n {
                assert(init[i] == rows[i]);
            }
        }
        if exists|i: int| 0 <= i < rows.len() && (#[trigger] rows[i]).space == space {
            let i = choose|i: int| 0 <= i < rows.len() && (#[trigger] rows[i]).space == space;
            if rows[n].space == space && rows[n].seq > top_seq(init, space) {
                assert(rows[n].seq == top_seq(rows, space));
            } else {
                if i < n {
                    assert(init[i].space == space);
                } else {
                    assert(top_seq(init, space) >= 0);
                    if forall|k: int| 0 <= k < init.len() ==> (#[trigger] init[k]).space != space {
                        assert(false);
                    }
                }
                let k = choose|k: int|
                    0 <= k < init.len() && (#[trigger] init[k]).space == space && init[k].seq
                        == top_seq(init, space);
                assert(rows[k].space == space && rows[k].seq == top_seq(rows, space));
            }
        }
        if forall|i: int| 0 <= i < rows.len() ==> (#[trigger] rows[i]).space != space {
            assert forall|i: int| 0 <= i < init.len() implies (#[trigger] init[i]).space
                != space by {
                assert(init[i] == rows[i]);
            }
            assert(rows[n].space != space);
        }
    }
}

/// The row of an episode holds what the episode holds, and what came with it.
pub proof fn law_episode_row_holds_the_episode(
    e: EpisodeView,
    att: Option<IngestAttachmentView>,
)
    requires
        e.seq <= i64::MAX,
    ensures
        ({
            let r = episode_row(e, att);
            &&& r.id == e.id
            &&& r.space == e.space
            &&& r.seq == e.seq
            &&& r.content_hash == e.content_hash
            &&& r.content == e.content
            &&& r.occurred_at == e.occurred_at
            &&& r.ingested_at == e.ingested_at
            &&& r.redacted_at == e.redacted_at
            &&& r.source_kind == e.source.kind()
            &&& r.source_ref == e.source.reference()
            &&& e.trust == TrustTier::Trusted ==> r.trust == "trusted"@
            &&& e.trust == TrustTier::SemiTrusted ==> r.trust == "semi_trusted"@
            &&& e.trust == TrustTier::Untrusted ==> r.trust == "untrusted"@
            &&& e.kind == EpisodeKind::Primary ==> r.kind == "primary"@
            &&& e.kind == EpisodeKind::Declaration ==> r.kind == "declaration"@
            &&& e.kind == EpisodeKind::Derived ==> r.kind == "derived"@
            &&& r.content_compacted is None
            &&& r.compacted_at is None
            &&& match att {
                Some(a) => r.source_id == Some(a.source_id) && r.occurrence_id == Some(
                    a.occurrence_id,
                ) && r.accepted_at == Some(a.accepted_at) && r.principal == Some(a.principal)
                    && r.claims_json == Some(a.claims_json),
                None => r.source_id is None && r.occurrence_id is None && r.accepted_at is None
                    && r.principal is None && r.claims_json is None,
            }
        }),
{
}

/// An episode is taken in once per space and content. Where the space does not
/// hold the content, there is one more row, under the given id, with the next
/// number of the space; else nothing changes, and the episode is the one that is
/// there.
pub proof fn law_content_is_taken_in_once(
    db: TablesView,
    e: EpisodeView,
    id: Seq<char>,
    hash: Seq<u8>,
)
    requires
        seqs_fit(db.episodes),
    ensures
        ({
            let after = with_episode(db, e, id, hash);
            let f = episode_after(db, e, id, hash);
            &&& (exists|i: int|
                0 <= i < db.episodes.len() && (#[trigger] db.episodes[i]).space == e.space
                    && db.episodes[i].content_hash == hash) ==> after == db && exists|i: int|
                0 <= i < db.episodes.len() && (#[trigger] db.episodes[i]).space == e.space
                    && db.episodes[i].content_hash == hash && f.id == db.episodes[i].id && f.seq
                    == db.episodes[i].seq
            &&& (forall|i: int|
                0 <= i < db.episodes.len() && (#[trigger] db.episodes[i]).space == e.space
                    ==> db.episodes[i].content_hash != hash) ==> {
                let r = after.episodes.last();
                &&& after.episodes.len() == db.episodes.len() + 1
                &&& after.episodes.drop_last() == db.episodes
                &&& r.id == id
                &&& f.id == id
                &&& r.space == e.space
                &&& r.content == e.content
                &&& r.content_hash == hash
                &&& r.occurred_at == e.occurred_at
                &&& r.ingested_at == e.ingested_at
                &&& r.redacted_at == e.redacted_at
                &&& r.seq == top_seq(db.episodes, e.space) + 1
                &&& f.seq == r.seq
                &&& r.source_id is None
            }
            &&& f.content_hash == hash
            &&& f.space == e.space
            &&& f.content == e.content
        }),
{
    let p = has_content(e.space, hash);
    let after = with_episode(db, e, id, hash);
    lemma_first_is(db.episodes, p);
    law_numbers_count_up(db.episodes, e.space);
    if exists|i: int|
        0 <= i < db.episodes.len() && (#[trigger] db.episodes[i]).space == e.space
            && db.episodes[i].content_hash == hash {
        let i = choose|i: int|
            0 <= i < db.episodes.len() && (#[trigger] db.episodes[i]).space == e.space
                && db.episodes[i].content_hash == hash;
        assert(p(db.episodes[i]));
        let row = first_where(db.episodes, p)->Some_0;
        let k = choose|k: int| 0 <= k < db.episodes.len() && db.episodes[k] == row;
        assert(db.episodes[k].space == e.space);
    } else {
        assert(!some_where(db.episodes, p));
        assert(after.episodes.drop_last() =~= db.episodes);
        if exists|i: int| 0 <= i < db.episodes.len() && (#[trigger] db.episodes[i]).space
            == e.space {
            let i = choose|i: int|
                0 <= i < db.episodes.len() && (#[trigger] db.episodes[i]).space == e.space
                    && db.episodes[i].seq == top_seq(db.episodes, e.space);
            assert(db.episodes[i].seq < i64::MAX);
        }
    }
}

/// An occurrence of a source is the row of the space with both its ids.
pub proof fn law_occurrence_is_told_by_source(
    db: TablesView,
    space: Seq<char>,
    source_id: Seq<char>,
    occurrence_id: Seq<char>,
)
    ensures
        match first_where(db.episodes, is_event(space, source_id, occurrence_id)) {
            Some(e) => db.episodes.contains(e) && e.space == space && e.source_id == Some(source_id)
                && e.occurrence_id == Some(occurrence_id),
            None => forall|i: int|
                0 <= i < db.episodes.len() && (#[trigger] db.episodes[i]).space == space
                    && db.episodes[i].source_id == Some(source_id) ==> db.episodes[i].occurrence_id
                    != Some(occurrence_id),
        },
{
    let p = is_event(space, source_id, occurrence_id);
    lemma_first_is(db.episodes, p);
    if first_where(db.episodes, p) is None {
        assert forall|i: int|
            0 <= i < db.episodes.len() && (#[trigger] db.episodes[i]).space == space
                && db.episodes[i].source_id == Some(source_id) implies db.episodes[i].occurrence_id
            != Some(occurrence_id) by {
            assert(!p(db.episodes[i]));
        }
    }
}

/// An episode that is taken in holds its content in its space, of its source and
/// trust, made and ingested now.
pub proof fn law_ingested_episode_is_primary(
    space: Seq<char>,
    content: Seq<char>,
    source: SourceRefView,
    trust: TrustTier,
    now: Timestamp,
)
    ensures
        ({
            let e = primary_episode(space, content, source, trust, now);
            &&& e.space == space
            &&& e.content == content
            &&& e.source == source
            &&& e.trust == trust
            &&& e.kind == EpisodeKind::Primary
            &&& e.occurred_at == now
            &&& e.ingested_at == now
            &&& e.redacted_at is None
        }),
{
}

/// What an episode says: its content, or where that is empty its compacted bytes as
/// text.
pub proof fn law_content_survives_compaction(row: EpisodeRowView)
    ensures
        row.content.len() > 0 ==> content_of(row) == row.content,
        row.content.len() == 0 && row.content_compacted is None ==> content_of(row).len() == 0,
        row.content.len() == 0 && row.content_compacted is Some && valid_utf8(
            row.content_compacted->Some_0,
        ) ==> content_of(row) == decode_utf8(row.content_compacted->Some_0),
        row.content.len() == 0 && row.content_compacted is Some && !valid_utf8(
            row.content_compacted->Some_0,
        ) ==> content_of(row).len() == 0,
{
}

/// An episode is read by its id, and has what its row has.
pub proof fn law_episode_is_read_by_id(db: TablesView, id: Seq<char>)
    ensures
        match episode_read(db, id) {
            None => forall|i: int|
                0 <= i < db.episodes.len() ==> (#[trigger] db.episodes[i]).id != id,
            Some(Ok(e)) => exists|i: int|
                0 <= i < db.episodes.len() && (#[trigger] db.episodes[i]).id == id && e.id == id
                    && e.space == db.episodes[i].space && e.content == content_of(db.episodes[i])
                    && e.occurred_at == db.episodes[i].occurred_at && e.ingested_at
                    == db.episodes[i].ingested_at && e.redacted_at == db.episodes[i].redacted_at
                    && (db.episodes[i].seq >= 0 ==> e.seq == db.episodes[i].seq) && (
                db.episodes[i].content_hash.len() == 32 ==> e.content_hash
                    == db.episodes[i].content_hash),
            Some(Err(e)) => e is Corruption,
        },
{
    let p = episode_has_id(id);
    lemma_first_is(db.episodes, p);
    match first_where(db.episodes, p) {
        Some(row) => {
            let i = choose|i: int| 0 <= i < db.episodes.len() && db.episodes[i] == row;
            assert(db.episodes[i].id == id);
        },
        None => {
            assert forall|i: int| 0 <= i < db.episodes.len() implies (#[trigger] db.episodes[i]).id
                != id by {
                assert(!p(db.episodes[i]));
            }
        },
    }
}

/// The notes of a space by their paths: a path is listed once, where a live note of
/// the space has it, with the hashes of all live notes at that path and no others.
pub proof fn law_notes_are_listed_by_path(db: TablesView, space: Seq<char>)
    ensures
        ({
            let paths = distinct(db.episodes.filter(is_live_note(space)).map_values(path_of()));
            &&& paths.no_duplicates()
            &&& forall|path: Seq<char>| #[trigger]
                paths.contains(path) <==> exists|i: int|
                    0 <= i < db.episodes.len() && (#[trigger] db.episodes[i]).space == space
                        && db.episodes[i].source_kind == "note"@ && db.episodes[i].source_ref
                        == Some(path) && db.episodes[i].redacted_at is None
            &&& forall|path: Seq<char>, h: Seq<u8>| #[trigger]
                hashes_at(db, space, path).hashes.contains(h) <==> exists|i: int|
                    0 <= i < db.episodes.len() && (#[trigger] db.episodes[i]).space == space
                        && db.episodes[i].source_kind == "note"@ && db.episodes[i].source_ref
                        == Some(path) && db.episodes[i].redacted_at is None && hash_of(
                        db.episodes[i].content_hash,
                    ) == h
            &&& forall|path: Seq<char>| (#[trigger] hashes_at(db, space, path)).path == path
        }),
{
    let live = is_live_note(space);
    let listed = db.episodes.filter(live).map_values(path_of());
    let paths = distinct(listed);
    lemma_got(db.episodes, live, path_of());
    lemma_distinct(listed);
    assert forall|path: Seq<char>| #[trigger] paths.contains(path) <==> exists|i: int|
        0 <= i < db.episodes.len() && (#[trigger] db.episodes[i]).space == space
            && db.episodes[i].source_kind == "note"@ && db.episodes[i].source_ref == Some(path)
            && db.episodes[i].redacted_at is None by {
        assert(paths.contains(path) <==> listed.contains(path));
        if listed.contains(path) {
            let i = choose|i: int|
                0 <= i < db.episodes.len() && live(#[trigger] db.episodes[i]) && path_of()(
                    db.episodes[i],
                ) == path;
            assert(db.episodes[i].source_ref == Some(path));
        }
        if exists|i: int|
            0 <= i < db.episodes.len() && (#[trigger] db.episodes[i]).space == space
                && db.episodes[i].source_kind == "note"@ && db.episodes[i].source_ref == Some(path)
                && db.episodes[i].redacted_at is None {
            let i = choose|i: int|
                0 <= i < db.episodes.len() && (#[trigger] db.episodes[i]).space == space
                    && db.episodes[i].source_kind == "note"@ && db.episodes[i].source_ref == Some(
                    path,
                ) && db.episodes[i].redacted_at is None;
            assert(live(db.episodes[i]) && path_of()(db.episodes[i]) == path);
        }
    }
    assert forall|path: Seq<char>, h: Seq<u8>| #[trigger]
        hashes_at(db, space, path).hashes.contains(h) <==> exists|i: int|
        0 <= i < db.episodes.len() && (#[trigger] db.episodes[i]).space == space
            && db.episodes[i].source_kind == "note"@ && db.episodes[i].source_ref == Some(path)
            && db.episodes[i].redacted_at is None && hash_of(db.episodes[i].content_hash) == h by {
        let p = is_note_at(space, path);
        lemma_got(db.episodes, p, row_hash());
        lemma_distinct(db.episodes.filter(p).map_values(row_hash()));
        assert(db.episodes.filter(p).map_values(row_hash()).contains(h) <==> hashes_at(
            db,
            space,
            path,
        ).hashes.contains(h));
        if exists|i: int|
            0 <= i < db.episodes.len() && (#[trigger] db.episodes[i]).space == space
                && db.episodes[i].source_kind == "note"@ && db.episodes[i].source_ref == Some(path)
                && db.episodes[i].redacted_at is None && hash_of(db.episodes[i].content_hash)
                == h {
            let i = choose|i: int|
                0 <= i < db.episodes.len() && (#[trigger] db.episodes[i]).space == space
                    && db.episodes[i].source_kind == "note"@ && db.episodes[i].source_ref == Some(
                    path,
                ) && db.episodes[i].redacted_at is None && hash_of(db.episodes[i].content_hash)
                    == h;
            assert(p(db.episodes[i]) && row_hash()(db.episodes[i]) == h);
        }
    }
}

/// Whether a state is that of the last row at its locator: the occurrence and the
/// hash of a row with that locator, after which no row has it.
pub open spec fn is_last_at(rows: Seq<EpisodeRowView>, s: LocatorStateView) -> bool {
    exists|i: int|
        0 <= i < rows.len() && (#[trigger] rows[i]).source_ref == Some(s.locator)
            && rows[i].occurrence_id == Some(s.latest_occurrence_id) && hash_of(
            rows[i].content_hash,
        ) == s.latest_content_hash && is_free_after(rows, i, s.locator)
}

/// Whether no row after one has a locator.
pub open spec fn is_free_after(rows: Seq<EpisodeRowView>, i: int, locator: Seq<char>) -> bool {
    forall|j: int| i < j < rows.len() ==> (#[trigger] rows[j]).source_ref != Some(locator)
}

/// A row at another locator does not change the last state at one.
proof fn lemma_last_at_stays(rows: Seq<EpisodeRowView>, s: LocatorStateView)
    requires
        rows.len() > 0,
        is_last_at(rows.drop_last(), s),
        rows.last().source_ref != Some(s.locator),
    ensures
        is_last_at(rows, s),
{
    let init = rows.drop_last();
    let i = choose|i: int|
        0 <= i < init.len() && (#[trigger] init[i]).source_ref == Some(s.locator)
            && init[i].occurrence_id == Some(s.latest_occurrence_id) && hash_of(
            init[i].content_hash,
        ) == s.latest_content_hash && is_free_after(init, i, s.locator);
    assert(rows[i] == init[i]);
    assert forall|j: int| i < j < rows.len() implies (#[trigger] rows[j]).source_ref != Some(
        s.locator,
    ) by {
        if j < init.len() {
            assert(init[j] == rows[j]);
        }
    }
    assert(is_free_after(rows, i, s.locator));
}

/// The table of locators of a history: one row per locator that occurs in it, with
/// the occurrence and the hash of the last row at that locator.
pub proof fn law_locators_show_their_latest_state(rows: Seq<EpisodeRowView>)
    requires
        fully_named(rows),
    ensures
        ({
            let t = locator_table(rows);
            &&& forall|i: int, j: int|
                0 <= i < j < t.len() ==> (#[trigger] t[i]).locator != (#[trigger] t[j]).locator
            &&& forall|k: int| 0 <= k < t.len() ==> is_last_at(rows, #[trigger] t[k])
            &&& forall|i: int|
                0 <= i < rows.len() ==> some_where(
                    t,
                    at_locator((#[trigger] rows[i]).source_ref->Some_0),
                )
        }),
    decreases rows.len(),
{
    let t = locator_table(rows);
    if rows.len() > 0 {
        let init = rows.drop_last();
        let last = rows.last();
        let n = rows.len() - 1;
        assert(last == rows[n]);
        assert forall|i: int| 0 <= i < init.len() implies (#[trigger] init[i]).source_ref is Some
            && init[i].occurrence_id is Some by {
            assert(init[i] == rows[i]);
        }
        law_locators_show_their_latest_state(init);
        let before = locator_table(init);
        let s = locator_state(last);
        let at = at_locator(s.locator);
        assert(rows[n].source_ref == Some(s.locator));
        assert(is_free_after(rows, n, s.locator));
        assert(is_last_at(rows, s));
        assert forall|k: int| 0 <= k < t.len() implies is_last_at(rows, #[trigger] t[k]) by {
            if k < before.len() && before[k].locator != s.locator {
                assert(t[k] == before[k]);
                assert(is_last_at(init, before[k]));
                lemma_last_at_stays(rows, before[k]);
            } else {
                if k < before.len() {
                    assert(at(before[k]));
                }
                assert(t[k] == s);
            }
        }
        assert forall|i: int| 0 <= i < rows.len() implies some_where(
            t,
            at_locator((#[trigger] rows[i]).source_ref->Some_0),
        ) by {
            let here = at_locator(rows[i].source_ref->Some_0);
            if i < n {
                assert(init[i] == rows[i]);
                assert(some_where(before, at_locator(init[i].source_ref->Some_0)));
                let k = choose|k: int| 0 <= k < before.len() && here(#[trigger] before[k]);
                assert(t[k].locator == before[k].locator);
                assert(here(t[k]));
            } else if some_where(before, at) {
                let k = choose|k: int| 0 <= k < before.len() && at(#[trigger] before[k]);
                assert(t[k] == s);
                assert(here(t[k]));
            } else {
                assert(t[before.len() as int] == s);
                assert(here(t[before.len() as int]));
            }
        }
        assert forall|i: int, j: int| 0 <= i < j < t.len() implies (#[trigger] t[i]).locator != (
        #[trigger] t[j]).locator by {
            assert(t[i].locator == before[i].locator);
            if j < before.len() {
                assert(t[j].locator == before[j].locator);
            } else {
                assert(!at(before[i]));
            }
        }
    }
}

/// The history of a source in a space: its live episodes there, in the order of
/// their numbers.
pub proof fn law_history_of_a_source(db: TablesView, space: Seq<char>, source_id: Seq<char>)
    ensures
        ({
            let r = source_history(db, space, source_id);
            &&& forall|e: EpisodeRowView| #[trigger]
                r.contains(e) <==> db.episodes.contains(e) && e.space == space && e.source_id
                    == Some(source_id) && e.redacted_at is None
            &&& forall|i: int, j: int|
                0 <= i < j < r.len() ==> (#[trigger] r[i]).seq <= (#[trigger] r[j]).seq
        }),
{
    let p = is_from_source(space, source_id);
    let leq = by_seq();
    let r = source_history(db, space, source_id);
    assert(is_order(leq));
    lemma_selected(db.episodes, p);
    lemma_ordered_members(db.episodes.filter(p), leq);
    lemma_ordered_in_order(db.episodes.filter(p), leq);
    assert forall|e: EpisodeRowView| #[trigger] r.contains(e) <==> db.episodes.contains(e)
        && e.space == space && e.source_id == Some(source_id) && e.redacted_at is None by {
        assert(db.episodes.filter(p).contains(e) <==> db.episodes.contains(e) && p(e));
    }
    assert forall|i: int, j: int| 0 <= i < j < r.len() implies (#[trigger] r[i]).seq <= (
    #[trigger] r[j]).seq by {
        assert(leq(r[i], r[j]));
    }
}

/// Sources are got by their name in the space, and listed by name: those of the
/// space, and no others.
pub proof fn law_sources_of_a_space(db: TablesView, space: Seq<char>, name: Seq<char>)
    ensures
        match first_where(db.sources, is_source_named(space, name)) {
            Some(s) => db.sources.contains(s) && s.space == space && s.name == name,
            None => forall|i: int|
                0 <= i < db.sources.len() && (#[trigger] db.sources[i]).space == space
                    ==> db.sources[i].name != name,
        },
        ({
            let r = ordered(db.sources.filter(source_in(space)), by_source_name());
            &&& forall|s: SourceRowView| #[trigger]
                r.contains(s) <==> db.sources.contains(s) && s.space == space
            &&& forall|i: int, j: int|
                0 <= i < j < r.len() ==> text_le((#[trigger] r[i]).name, (#[trigger] r[j]).name)
        }),
{
    let p = is_source_named(space, name);
    lemma_first_is(db.sources, p);
    if first_where(db.sources, p) is None {
        assert forall|i: int|
            0 <= i < db.sources.len() && (#[trigger] db.sources[i]).space == space implies
            db.sources[i].name != name by {
            assert(!p(db.sources[i]));
        }
    }
    let q = source_in(space);
    let leq = by_source_name();
    let r = ordered(db.sources.filter(q), leq);
    assert(is_order(leq)) by {
        assert forall|a: SourceRowView, b: SourceRowView| #[trigger] leq(a, b) || leq(b, a) by {
            crate::text::lemma_text_total(a.name, b.name);
        }
        assert forall|a: SourceRowView, b: SourceRowView, c: SourceRowView| #[trigger]
            leq(a, b) && #[trigger] leq(b, c) implies leq(a, c) by {
            crate::text::lemma_text_transitive(a.name, b.name, c.name);
        }
    }
    lemma_selected(db.sources, q);
    lemma_ordered_members(db.sources.filter(q), leq);
    lemma_ordered_in_order(db.sources.filter(q), leq);
    assert forall|s: SourceRowView| #[trigger] r.contains(s) <==> db.sources.contains(s) && s.space
        == space by {
        assert(db.sources.filter(q).contains(s) <==> db.sources.contains(s) && q(s));
    }
    assert forall|i: int, j: int| 0 <= i < j < r.len() implies text_le(
        (#[trigger] r[i]).name,
        (#[trigger] r[j]).name,
    ) by {
        assert(leq(r[i], r[j]));
    }
}

/// The trust of a source at a time is that of a policy for it that has begun by
/// then and not ended, and none of those begins later; without one there is none.
pub proof fn law_policy_in_force_decides(
    policies: Seq<PolicyRowView>,
    source_id: Seq<char>,
    at: Timestamp,
)
    ensures
        ({
            let covering = ordered(policies.filter(covers(source_id, at)), by_latest_start());
            &&& covering.len() > 0 ==> {
                let p = covering[0];
                &&& policies.contains(p)
                &&& p.source_id == source_id
                &&& p.effective_from.0 <= at.0
                &&& p.effective_to matches Some(end) ==> at.0 < end.0
                &&& forall|i: int|
                    0 <= i < policies.len() && (#[trigger] policies[i]).source_id == source_id
                        && policies[i].effective_from.0 <= at.0 && (
                    policies[i].effective_to is Some ==> at.0 < policies[i].effective_to->Some_0.0)
                        ==> policies[i].effective_from.0 <= p.effective_from.0
            }
            &&& covering.len() == 0 ==> forall|i: int|
                0 <= i < policies.len() && (#[trigger] policies[i]).source_id == source_id
                    && policies[i].effective_from.0 <= at.0 ==> policies[i].effective_to is Some
                    && policies[i].effective_to->Some_0.0 <= at.0
        }),
{
    let q = covers(source_id, at);
    let leq = by_latest_start();
    let covering = ordered(policies.filter(q), leq);
    lemma_selected(policies, q);
    lemma_ordered_members(policies.filter(q), leq);
    if covering.len() > 0 {
        assert(covering.contains(covering[0]));
        assert(policies.filter(q).contains(covering[0]));
    }
    assert forall|i: int|
        0 <= i < policies.len() && (#[trigger] policies[i]).source_id == source_id
            && policies[i].effective_from.0 <= at.0 && (policies[i].effective_to is Some ==> at.0
            < policies[i].effective_to->Some_0.0) implies covering.len() > 0
        && policies[i].effective_from.0 <= covering[0].effective_from.0 by {
        assert(q(policies[i]));
        crate::ledger::law_latest_policy_decides(policies, source_id, at, i);
    }
}

/// Compaction puts away the texts of a space's episodes that were ingested long
/// enough ago and are not put away yet: as their bytes, as of now. Every other
/// episode stays as it is, and of those only the text and its place change.
pub proof fn law_compaction_puts_cold_texts_away(
    db: TablesView,
    space: Seq<char>,
    now: Timestamp,
    min_age_days: u32,
)
    ensures
        ({
            let after = after_compaction(db, space, now, min_age_days);
            &&& after.episodes.len() == db.episodes.len()
            &&& forall|i: int|
                #![trigger after.episodes[i]]
                0 <= i < db.episodes.len() ==> {
                    let e = db.episodes[i];
                    let f = after.episodes[i];
                    if e.space == space && e.compacted_at is None && e.content.len() > 0
                        && e.ingested_at.0 < now.0 - min_age_days * 86_400_000 {
                        &&& f.content.len() == 0
                        &&& f.content_compacted == Some(encode_utf8(e.content))
                        &&& f.compacted_at == Some(now)
                        &&& f == (EpisodeRowView {
                            content: f.content,
                            content_compacted: f.content_compacted,
                            compacted_at: f.compacted_at,
                            ..e
                        })
                    } else {
                        f == e
                    }
                }
            &&& after == (TablesView { episodes: after.episodes, ..db })
        }),
{
}

/// What decay is asked of: every entity of the space, with its last activity, or
/// now where it has none.
pub proof fn law_decay_is_asked_of_every_entity(
    db: TablesView,
    space: Seq<char>,
    now: Timestamp,
)
    ensures
        forall|x: (Seq<char>, Timestamp)| #[trigger]
            db.entities.filter(entity_in(space)).map_values(decay_input(now)).contains(x)
                <==> exists|i: int|
                0 <= i < db.entities.len() && (#[trigger] db.entities[i]).space == space
                    && db.entities[i].id == x.0 && x.1 == match db.entities[i].last_activity {
                    Some(t) => t,
                    None => now,
                },
{
    lemma_got(db.entities, entity_in(space), decay_input(now));
    assert forall|x: (Seq<char>, Timestamp)| #[trigger]
        db.entities.filter(entity_in(space)).map_values(decay_input(now)).contains(x) <==> exists|
        i: int,
    |
        0 <= i < db.entities.len() && (#[trigger] db.entities[i]).space == space
            && db.entities[i].id == x.0 && x.1 == match db.entities[i].last_activity {
            Some(t) => t,
            None => now,
        } by {
        if exists|i: int|
            0 <= i < db.entities.len() && (#[trigger] db.entities[i]).space == space
                && db.entities[i].id == x.0 && x.1 == match db.entities[i].last_activity {
                Some(t) => t,
                None => now,
            } {
            let i = choose|i: int|
                0 <= i < db.entities.len() && (#[trigger] db.entities[i]).space == space
                    && db.entities[i].id == x.0 && x.1 == match db.entities[i].last_activity {
                    Some(t) => t,
                    None => now,
                };
            assert(entity_in(space)(db.entities[i]));
            assert(decay_input(now)(db.entities[i]) == x);
        }
    }
}

/// Decay gives each entity the last value that names it, and leaves an entity that
/// no value names; nothing but the salience changes.
pub proof fn law_decay_sets_saliences(entities: Seq<EntityView>, values: Seq<(Seq<char>, u64)>)
    ensures
        ({
            let after = decayed(entities, values);
            &&& after.len() == entities.len()
            &&& forall|i: int|
                0 <= i < entities.len() ==> #[trigger] after[i] == (EntityView {
                    salience: after[i].salience,
                    ..entities[i]
                })
            &&& forall|i: int|
                0 <= i < entities.len() && (forall|k: int|
                    0 <= k < values.len() ==> (#[trigger] values[k]).0 != entities[i].id)
                    ==> #[trigger] after[i] == entities[i]
            &&& forall|i: int, k: int|
                #![trigger after[i], values[k]]
                0 <= i < entities.len() && 0 <= k < values.len() && values[k].0 == entities[i].id
                    && (forall|l: int|
                    k < l < values.len() ==> (#[trigger] values[l]).0 != entities[i].id)
                    ==> after[i].salience == values[k].1
        }),
    decreases values.len(),
{
    if values.len() > 0 {
        let init = values.drop_last();
        law_decay_sets_saliences(entities, init);
        let before = decayed(entities, init);
        let after = decayed(entities, values);
        let n = values.len() - 1;
        assert(values.last() == values[n]);
        assert forall|i: int|
            0 <= i < entities.len() && (forall|k: int|
                0 <= k < values.len() ==> (#[trigger] values[k]).0
                    != entities[i].id) implies #[trigger] after[i] == entities[i] by {
            assert(values[n].0 != entities[i].id);
            assert forall|k: int| 0 <= k < init.len() implies (#[trigger] init[k]).0
                != entities[i].id by {
                assert(init[k] == values[k]);
            }
            assert(before[i] == entities[i]);
        }
        assert forall|i: int, k: int|
            #![trigger after[i], values[k]]
            0 <= i < entities.len() && 0 <= k < values.len() && values[k].0 == entities[i].id && (
            forall|l: int|
                k < l < values.len() ==> (#[trigger] values[l]).0
                    != entities[i].id) implies after[i].salience == values[k].1 by {
            assert(before[i].id == entities[i].id);
            if k < n {
                assert(values[n].0 != entities[i].id);
                assert(init[k] == values[k]);
                assert forall|l: int| k < l < init.len() implies (#[trigger] init[l]).0
                    != entities[i].id by {
                    assert(init[l] == values[l]);
                }
                assert(before[i].salience == init[k].1);
            }
        }
    }
}

/// A cached response takes the place of any other by the extractor about the
/// episode, and the failures of the extractor with the episode are cleared; all
/// else of both tables stays.
pub proof fn law_response_replaces_and_clears(db: TablesView, row: ExtractionRowView)
    ensures
        ({
            let after = with_response(db, row);
            &&& forall|x: ExtractionRowView| #[trigger]
                after.extractions.contains(x) <==> x == row || (db.extractions.contains(x) && (
                x.episode_id != row.episode_id || x.extractor_id != row.extractor_id))
            &&& forall|f: ExtractionFailureView| #[trigger]
                after.failures.contains(f) <==> db.failures.contains(f) && (f.episode_id
                    != row.episode_id || f.extractor_id != row.extractor_id)
            &&& after == (TablesView {
                extractions: after.extractions,
                failures: after.failures,
                ..db
            })
        }),
{
    let after = with_response(db, row);
    let p = |x: ExtractionRowView| !is_response(row.episode_id, row.extractor_id)(x);
    let q = |f: ExtractionFailureView| !is_failure(row.episode_id, row.extractor_id)(f);
    lemma_selected(db.extractions, p);
    lemma_selected(db.failures, q);
    assert(after.failures == db.failures.filter(q));
    assert(after.extractions == db.extractions.filter(p).push(row));
    assert forall|x: ExtractionRowView| #[trigger] after.extractions.contains(x) <==> x == row || (
    db.extractions.contains(x) && (x.episode_id != row.episode_id || x.extractor_id
        != row.extractor_id)) by {
        let kept = db.extractions.filter(p);
        assert(kept.contains(x) <==> db.extractions.contains(x) && p(x));
        assert(after.extractions[kept.len() as int] == row);
        if kept.contains(x) {
            let i = choose|i: int| 0 <= i < kept.len() && kept[i] == x;
            assert(after.extractions[i] == x);
        }
        if after.extractions.contains(x) {
            let i = choose|i: int| 0 <= i < after.extractions.len() && after.extractions[i] == x;
            if i < kept.len() {
                assert(kept[i] == x);
            }
        }
    }
}

/// A cached response is read by its episode and its extractor.
pub proof fn law_cached_response_is_read(
    extractions: Seq<ExtractionRowView>,
    episode: Seq<char>,
    extractor: Seq<char>,
)
    ensures
        match cached(extractions, episode, extractor) {
            Some(raw) => exists|i: int|
                0 <= i < extractions.len() && (#[trigger] extractions[i]).episode_id == episode
                    && extractions[i].extractor_id == extractor && extractions[i].raw_response
                    == raw,
            None => forall|i: int|
                0 <= i < extractions.len() && (#[trigger] extractions[i]).episode_id == episode
                    ==> extractions[i].extractor_id != extractor,
        },
{
    let p = is_response(episode, extractor);
    lemma_first_is(extractions, p);
    match first_where(extractions, p) {
        Some(x) => {
            let i = choose|i: int| 0 <= i < extractions.len() && extractions[i] == x;
            assert(extractions[i].episode_id == episode);
        },
        None => {
            assert forall|i: int|
                0 <= i < extractions.len() && (#[trigger] extractions[i]).episode_id
                    == episode implies extractions[i].extractor_id != extractor by {
                assert(!p(extractions[i]));
            }
        },
    }
}

/// The backlog of an extractor in a space: live primary episodes that are neither a
/// document nor a revision of one, without a response by the extractor, and
/// without a failure of it since the cutoff, where there is one.
pub proof fn law_backlog_waits_for_the_extractor(
    db: TablesView,
    space: Seq<char>,
    extractor: Seq<char>,
    cutoff: Timestamp,
    e: EpisodeRowView,
)
    ensures
        db.episodes.filter(is_backlog(db, space, extractor, cutoff)).contains(e)
            <==> db.episodes.contains(e) && e.space == space && e.kind == "primary"@
            && e.source_kind != "document"@ && e.source_kind != "document_revision"@
            && e.redacted_at is None && (forall|i: int|
            0 <= i < db.extractions.len() && (#[trigger] db.extractions[i]).episode_id == e.id
                ==> db.extractions[i].extractor_id != extractor) && (cutoff.0 == TIME_MAX
            || forall|i: int|
            0 <= i < db.failures.len() && (#[trigger] db.failures[i]).episode_id == e.id
                && db.failures[i].extractor_id == extractor ==> db.failures[i].created_at.0
                < cutoff.0),
{
    let p = is_backlog(db, space, extractor, cutoff);
    lemma_selected(db.episodes, p);
    let done = is_response(e.id, extractor);
    let failed = is_recent_failure(e.id, extractor, cutoff);
    assert(db.episodes.filter(p).contains(e) <==> db.episodes.contains(e) && p(e));
    if some_where(db.extractions, done) {
        let i = choose|i: int| 0 <= i < db.extractions.len() && done(#[trigger] db.extractions[i]);
        assert(db.extractions[i].episode_id == e.id);
    } else {
        assert forall|i: int|
            0 <= i < db.extractions.len() && (#[trigger] db.extractions[i]).episode_id
                == e.id implies db.extractions[i].extractor_id != extractor by {
            assert(!done(db.extractions[i]));
        }
    }
    if some_where(db.failures, failed) {
        let i = choose|i: int| 0 <= i < db.failures.len() && failed(#[trigger] db.failures[i]);
        assert(db.failures[i].episode_id == e.id);
    } else if cutoff.0 != TIME_MAX {
        assert forall|i: int|
            0 <= i < db.failures.len() && (#[trigger] db.failures[i]).episode_id == e.id
                && db.failures[i].extractor_id == extractor implies db.failures[i].created_at.0
            < cutoff.0 by {
            assert(!failed(db.failures[i]));
        }
    }
}

/// The backlog is worked off in the order of the episodes' numbers.
pub proof fn law_backlog_is_in_order(
    db: TablesView,
    space: Seq<char>,
    extractor: Seq<char>,
    cutoff: Timestamp,
)
    ensures
        ({
            let rows = ordered(
                db.episodes.filter(is_backlog(db, space, extractor, cutoff)),
                by_seq(),
            );
            let r = rows.map_values(episode_id_of());
            &&& r.len() == rows.len()
            &&& forall|i: int| 0 <= i < r.len() ==> #[trigger] r[i] == rows[i].id
            &&& forall|i: int, j: int|
                0 <= i < j < rows.len() ==> (#[trigger] rows[i]).seq <= (#[trigger] rows[j]).seq
            &&& forall|e: EpisodeRowView| #[trigger]
                rows.contains(e) <==> db.episodes.filter(
                    is_backlog(db, space, extractor, cutoff),
                ).contains(e)
        }),
{
    let leq = by_seq();
    let kept = db.episodes.filter(is_backlog(db, space, extractor, cutoff));
    let rows = ordered(kept, leq);
    assert(is_order(leq));
    lemma_ordered_members(kept, leq);
    lemma_ordered_in_order(kept, leq);
    assert forall|i: int, j: int| 0 <= i < j < rows.len() implies (#[trigger] rows[i]).seq <= (
    #[trigger] rows[j]).seq by {
        assert(leq(rows[i], rows[j]));
    }
}

/// What the counts of a run count: the responses and the failures of its time, both
/// ends included, and the episodes that failed.
pub proof fn law_run_counts_its_time(db: TablesView, since: Timestamp, until: Timestamp)
    ensures
        forall|x: ExtractionRowView| #[trigger]
            db.extractions.filter(cached_within(since, until)).contains(x)
                <==> db.extractions.contains(x) && since.0 <= x.created_at.0 && x.created_at.0
                <= until.0,
        forall|f: ExtractionFailureView| #[trigger]
            db.failures.filter(failed_within(since, until)).contains(f) <==> db.failures.contains(f)
                && since.0 <= f.created_at.0 && f.created_at.0 <= until.0,
        ({
            let r = distinct(
                db.failures.filter(failed_within(since, until)).map_values(failure_episode()),
            );
            &&& r.no_duplicates()
            &&& forall|id: Seq<char>| #[trigger]
                r.contains(id) <==> exists|i: int|
                    0 <= i < db.failures.len() && (#[trigger] db.failures[i]).episode_id == id
                        && since.0 <= db.failures[i].created_at.0 && db.failures[i].created_at.0
                        <= until.0
        }),
{
    let q = failed_within(since, until);
    lemma_selected(db.extractions, cached_within(since, until));
    lemma_selected(db.failures, q);
    lemma_got(db.failures, q, failure_episode());
    let all = db.failures.filter(q).map_values(failure_episode());
    lemma_distinct(all);
    assert forall|id: Seq<char>| #[trigger] distinct(all).contains(id) <==> exists|i: int|
        0 <= i < db.failures.len() && (#[trigger] db.failures[i]).episode_id == id && since.0
            <= db.failures[i].created_at.0 && db.failures[i].created_at.0 <= until.0 by {
        assert(distinct(all).contains(id) <==> all.contains(id));
        if exists|i: int|
            0 <= i < db.failures.len() && (#[trigger] db.failures[i]).episode_id == id && since.0
                <= db.failures[i].created_at.0 && db.failures[i].created_at.0 <= until.0 {
            let i = choose|i: int|
                0 <= i < db.failures.len() && (#[trigger] db.failures[i]).episode_id == id
                    && since.0 <= db.failures[i].created_at.0 && db.failures[i].created_at.0
                    <= until.0;
            assert(q(db.failures[i]) && failure_episode()(db.failures[i]) == id);
        }
    }
}

/// A failure gets an id above all others.
pub proof fn law_failure_ids_count_up(rows: Seq<ExtractionFailureView>)
    ensures
        forall|i: int|
            0 <= i < rows.len() ==> (#[trigger] rows[i]).id <= top_failure_id(rows),
        top_failure_id(rows) >= 0,
        top_failure_id(rows) > 0 ==> exists|i: int|
            0 <= i < rows.len() && (#[trigger] rows[i]).id == top_failure_id(rows),
    decreases rows.len(),
{
    if rows.len() > 0 {
        let init = rows.drop_last();
        law_failure_ids_count_up(init);
        let n = rows.len() - 1;
        assert forall|i: int| 0 <= i < rows.len() implies (#[trigger] rows[i]).id
            <= top_failure_id(rows) by {
            if i < n {
                assert(init[i] == rows[i]);
            }
        }
        if rows[n].id > top_failure_id(init) {
            assert(rows[n].id == top_failure_id(rows));
        } else if top_failure_id(rows) > 0 {
            let i = choose|i: int|
                0 <= i < init.len() && (#[trigger] init[i]).id == top_failure_id(init);
            assert(rows[i].id == top_failure_id(rows));
        }
    }
}

/// The failures of a space are those with an episode of it.
pub proof fn law_failures_of_a_space(db: TablesView, space: Seq<char>)
    ensures
        forall|f: ExtractionFailureView| #[trigger]
            db.failures.filter(failed_in(db, space)).contains(f) <==> db.failures.contains(f)
                && exists|i: int|
                0 <= i < db.episodes.len() && (#[trigger] db.episodes[i]).id == f.episode_id
                    && db.episodes[i].space == space,
{
    let p = failed_in(db, space);
    lemma_selected(db.failures, p);
    assert forall|f: ExtractionFailureView| #[trigger] db.failures.filter(p).contains(f)
        <==> db.failures.contains(f) && exists|i: int|
        0 <= i < db.episodes.len() && (#[trigger] db.episodes[i]).id == f.episode_id
            && db.episodes[i].space == space by {
        let q = is_episode_in(f.episode_id, space);
        if exists|i: int|
            0 <= i < db.episodes.len() && (#[trigger] db.episodes[i]).id == f.episode_id
                && db.episodes[i].space == space {
            let i = choose|i: int|
                0 <= i < db.episodes.len() && (#[trigger] db.episodes[i]).id == f.episode_id
                    && db.episodes[i].space == space;
            assert(q(db.episodes[i]));
        }
    }
}

/// Failures are listed latest first, all of them.
pub proof fn law_failures_are_listed_latest_first(rows: Seq<ExtractionFailureView>)
    ensures
        ({
            let r = ordered(rows, by_latest_failure());
            &&& forall|i: int, j: int|
                0 <= i < j < r.len() ==> (#[trigger] r[i]).created_at.0 >= (
                #[trigger] r[j]).created_at.0
            &&& forall|f: ExtractionFailureView| #[trigger] r.contains(f) <==> rows.contains(f)
        }),
{
    let leq = by_latest_failure();
    let r = ordered(rows, leq);
    assert(is_order(leq));
    lemma_ordered_members(rows, leq);
    lemma_ordered_in_order(rows, leq);
    assert forall|i: int, j: int| 0 <= i < j < r.len() implies (#[trigger] r[i]).created_at.0 >= (
    #[trigger] r[j]).created_at.0 by {
        assert(leq(r[i], r[j]));
    }
}

/// An event is taken in once per occurrence of its source. Where the occurrence is
/// there nothing changes, and it succeeds just where the content is the same; else
/// there is one more row, with the occurrence, under the next number of its space.
pub proof fn law_event_is_taken_in_once(
    db: TablesView,
    db2: TablesView,
    e: EpisodeView,
    e2: EpisodeView,
    att: IngestAttachmentView,
    id: Seq<char>,
    hash: Seq<u8>,
    r: Result<(), BrainError>,
)
    requires
        event_inserted(db, db2, e, e2, att, id, hash, r),
    ensures
        (exists|i: int| 0 <= i < db.episodes.len()
            && is_occurrence(#[trigger] db.episodes[i], e, att))
            ==> db2 == db && (r is Ok <==> exists|i: int|
            0 <= i < db.episodes.len() && is_occurrence(#[trigger] db.episodes[i], e, att)
                && is_first_occurrence(db, e, att, i) && db.episodes[i].content_hash == hash),
        (forall|i: int|
            0 <= i < db.episodes.len() ==> !is_occurrence(#[trigger] db.episodes[i], e, att)) ==> {
            let row = db2.episodes.last();
            &&& r is Ok
            &&& db2.episodes == db.episodes.push(row)
            &&& row.id == id
            &&& row.space == e.space
            &&& row.content == e.content
            &&& row.content_hash == hash
            &&& row.source_id == Some(att.source_id)
            &&& row.occurrence_id == Some(att.occurrence_id)
            &&& row.accepted_at == Some(att.accepted_at)
            &&& row.principal == Some(att.principal)
            &&& row.claims_json == Some(att.claims_json)
            &&& e2.id == id
            &&& e2.content_hash == hash
        },
{
    let p = is_event(e.space, att.source_id, att.occurrence_id);
    lemma_first_is(db.episodes, p);
    match first_where(db.episodes, p) {
        Some(row) => {
            let i = choose|i: int|
                0 <= i < db.episodes.len() && #[trigger] db.episodes[i] == row && forall|j: int|
                    0 <= j < i ==> !p(#[trigger] db.episodes[j]);
            assert(is_occurrence(db.episodes[i], e, att));
            assert(is_first_occurrence(db, e, att, i)) by {
                assert forall|j: int| 0 <= j < i implies !is_occurrence(
                    #[trigger] db.episodes[j],
                    e,
                    att,
                ) by {
                    assert(!p(db.episodes[j]));
                }
            }
            assert forall|k: int|
                0 <= k < db.episodes.len() && is_occurrence(#[trigger] db.episodes[k], e, att)
                    && is_first_occurrence(db, e, att, k) implies k == i by {
                if k < i {
                    assert(!is_occurrence(db.episodes[k], e, att));
                }
                if i < k {
                    assert(!is_occurrence(db.episodes[i], e, att));
                }
            }
        },
        None => {
            assert forall|i: int| 0 <= i < db.episodes.len() implies !is_occurrence(
                #[trigger] db.episodes[i],
                e,
                att,
            ) by {
                assert(!p(db.episodes[i]));
            }
        },
    }
}

/// Whether a row is of an occurrence of a source in the space of an episode.
pub open spec fn is_occurrence(
    row: EpisodeRowView,
    e: EpisodeView,
    att: IngestAttachmentView,
) -> bool {
    row.space == e.space && row.source_id == Some(att.source_id) && row.occurrence_id == Some(
        att.occurrence_id,
    )
}

/// Whether no row before one is of the occurrence.
pub open spec fn is_first_occurrence(
    db: TablesView,
    e: EpisodeView,
    att: IngestAttachmentView,
    i: int,
) -> bool {
    forall|j: int| 0 <= j < i ==> !is_occurrence(#[trigger] db.episodes[j], e, att)
}

} // verus!
