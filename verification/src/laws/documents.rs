//! What the cache of documents keeps, drops and finds.
use vstd::bytes::{lemma_auto_spec_u64_to_from_le_bytes, spec_u64_to_le_bytes};
use vstd::prelude::*;
use vstd::utf8::{encode_utf8, encode_utf8_decode_utf8};

use crate::documents::{
    action_done, alias_of, by_alias, by_chunk_id, by_distance, by_locator, cached_file,
    cached_roots, chunk_found, chunk_has_id, chunk_id_of, chunk_ids, chunk_of_any, chunk_written,
    chunks_found, chunks_written, config_hash, debug_list, doc_chunk_in, doc_text_in, document_at,
    document_cleared, document_id_of, document_ids, document_row, document_written, fp_bytes,
    fp_field, fp_key, generation_of, is_embedded, is_pending, is_text_of, manifest_at, meta_value,
    misfit, neighbour, pending_text, root_applied, root_in, root_named, root_written, roots_cleared,
    rowid_of, signed, space_purged, squared_distance, text_of_any, text_rowids, top_rowid,
    upsert_for, vector_of, vectors_written, without_chunks, without_documents, without_root,
    CachedChunkView, CachedFileView, CachedRootView, ChunkUpsertView, DocChunkRowView,
    DocTextRowView, DocVectorRowView, DocumentCacheView, DocumentRowView, DocumentUpsertView,
    FileActionView, ManifestRowView, RootAction, RootApplyView, RootFingerprintView, RootRowView,
};
use crate::error::BrainErrorView;
use crate::rows::{
    first_n, first_where, is_order, lemma_both_contain, lemma_first_is, lemma_got,
    lemma_ordered_in_order, lemma_ordered_members, lemma_replaced, lemma_selected, lemma_top,
    ordered, some_where,
};
use crate::tables::MetaRowView;
use crate::text::text_le;

verus! {

/// Whether a chunk is of one of some documents.
pub open spec fn is_chunk_of(
    db: DocumentCacheView,
    documents: Seq<Seq<char>>,
    id: Seq<char>,
) -> bool {
    exists|i: int|
        0 <= i < db.chunks.len() && (#[trigger] db.chunks[i]).id == id && documents.contains(
            db.chunks[i].document_id,
        )
}

/// Whether a text is of a chunk of one of some documents.
pub open spec fn is_text_row_of(
    db: DocumentCacheView,
    documents: Seq<Seq<char>>,
    rowid: i64,
) -> bool {
    exists|i: int|
        0 <= i < db.texts.len() && (#[trigger] db.texts[i]).rowid == rowid && is_chunk_of(
            db,
            documents,
            db.texts[i].chunk_id,
        )
}

/// The chunks of documents, and what hangs on them, go together: with a chunk goes
/// its text, its vector and both index rows. All else stays.
pub proof fn law_chunks_go_with_what_hangs_on_them(
    db: DocumentCacheView,
    documents: Seq<Seq<char>>,
)
    ensures
        ({
            let after = without_chunks(db, documents);
            &&& forall|c: DocChunkRowView| #[trigger]
                after.chunks.contains(c) <==> db.chunks.contains(c) && !documents.contains(
                    c.document_id,
                )
            &&& forall|t: DocTextRowView| #[trigger]
                after.texts.contains(t) <==> db.texts.contains(t) && !is_chunk_of(
                    db,
                    documents,
                    t.chunk_id,
                )
            &&& forall|v: DocVectorRowView| #[trigger]
                after.vectors.contains(v) <==> db.vectors.contains(v) && !is_chunk_of(
                    db,
                    documents,
                    v.chunk_id,
                )
            &&& forall|t: DocTextRowView| #[trigger]
                after.fts_word.contains(t) <==> db.fts_word.contains(t) && !is_text_row_of(
                    db,
                    documents,
                    t.rowid,
                )
            &&& forall|t: DocTextRowView| #[trigger]
                after.fts_ngram.contains(t) <==> db.fts_ngram.contains(t) && !is_text_row_of(
                    db,
                    documents,
                    t.rowid,
                )
            &&& after.roots == db.roots
            &&& after.documents == db.documents
            &&& after.manifest == db.manifest
            &&& after.meta == db.meta
        }),
{
    let chunks = chunk_ids(db, documents);
    let rowids = text_rowids(db, chunks);
    lemma_got(db.chunks, chunk_of_any(documents), chunk_id_of());
    lemma_got(db.texts, text_of_any(chunks), rowid_of());
    assert forall|id: Seq<char>| #[trigger] chunks.contains(id) <==> is_chunk_of(
        db,
        documents,
        id,
    ) by {
        if is_chunk_of(db, documents, id) {
            let i = choose|i: int|
                0 <= i < db.chunks.len() && (#[trigger] db.chunks[i]).id == id
                    && documents.contains(db.chunks[i].document_id);
            assert(chunk_of_any(documents)(db.chunks[i]) && chunk_id_of()(db.chunks[i]) == id);
        }
    }
    assert forall|n: i64| #[trigger] rowids.contains(n) <==> is_text_row_of(db, documents, n) by {
        if rowids.contains(n) {
            let i = choose|i: int|
                0 <= i < db.texts.len() && text_of_any(chunks)(#[trigger] db.texts[i])
                    && rowid_of()(db.texts[i]) == n;
            assert(chunks.contains(db.texts[i].chunk_id));
            assert(db.texts[i].rowid == n);
        }
        if is_text_row_of(db, documents, n) {
            let i = choose|i: int|
                0 <= i < db.texts.len() && (#[trigger] db.texts[i]).rowid == n && is_chunk_of(
                    db,
                    documents,
                    db.texts[i].chunk_id,
                );
            assert(chunks.contains(db.texts[i].chunk_id));
            assert(text_of_any(chunks)(db.texts[i]) && rowid_of()(db.texts[i]) == n);
        }
    }
    let p = |v: DocVectorRowView| !chunks.contains(v.chunk_id);
    let q = |t: DocTextRowView| !rowids.contains(t.rowid);
    let o = |t: DocTextRowView| !chunks.contains(t.chunk_id);
    let s = |c: DocChunkRowView| !documents.contains(c.document_id);
    lemma_selected(db.vectors, p);
    lemma_selected(db.fts_word, q);
    lemma_selected(db.fts_ngram, q);
    lemma_selected(db.texts, o);
    lemma_selected(db.chunks, s);
}

/// Removing documents takes those of the root, all or at one locator, with their
/// files in the manifest and everything that hangs on them; the rest stays.
pub proof fn law_removed_documents_are_of_the_root(
    db: DocumentCacheView,
    alias: Seq<char>,
    locator: Option<Seq<char>>,
)
    ensures
        ({
            let after = without_documents(db, alias, locator);
            &&& forall|d: DocumentRowView| #[trigger]
                after.documents.contains(d) <==> db.documents.contains(d) && !(d.root_alias == alias
                    && (locator is None || locator == Some(d.locator)))
            &&& forall|m: ManifestRowView| #[trigger]
                after.manifest.contains(m) <==> db.manifest.contains(m) && !(m.root_alias == alias
                    && (locator is None || locator == Some(m.locator)))
            &&& forall|c: DocChunkRowView| #[trigger]
                after.chunks.contains(c) <==> db.chunks.contains(c) && !exists|i: int|
                    0 <= i < db.documents.len() && (#[trigger] db.documents[i]).id == c.document_id
                        && db.documents[i].root_alias == alias && (locator is None || locator
                        == Some(db.documents[i].locator))
            &&& after.roots == db.roots
            &&& after.meta == db.meta
        }),
{
    let ids = document_ids(db, alias, locator);
    let p = document_at(alias, locator);
    let not_p = |d: DocumentRowView| !document_at(alias, locator)(d);
    let not_m = |m: ManifestRowView| !manifest_at(alias, locator)(m);
    law_chunks_go_with_what_hangs_on_them(db, ids);
    lemma_got(db.documents, p, document_id_of());
    lemma_selected(db.documents, not_p);
    lemma_selected(db.manifest, not_m);
    let after = without_documents(db, alias, locator);
    assert forall|c: DocChunkRowView| #[trigger] after.chunks.contains(c) <==> db.chunks.contains(c)
        && !exists|i: int|
        0 <= i < db.documents.len() && (#[trigger] db.documents[i]).id == c.document_id
            && db.documents[i].root_alias == alias && (locator is None || locator == Some(
            db.documents[i].locator,
        )) by {
        assert(without_chunks(db, ids).chunks.contains(c) == after.chunks.contains(c));
        if ids.contains(c.document_id) {
            let i = choose|i: int|
                0 <= i < db.documents.len() && p(#[trigger] db.documents[i]) && document_id_of()(
                    db.documents[i],
                ) == c.document_id;
            assert(db.documents[i].id == c.document_id && db.documents[i].root_alias == alias);
        }
        if exists|i: int|
            0 <= i < db.documents.len() && (#[trigger] db.documents[i]).id == c.document_id
                && db.documents[i].root_alias == alias && (locator is None || locator == Some(
                db.documents[i].locator,
            )) {
            let i = choose|i: int|
                0 <= i < db.documents.len() && (#[trigger] db.documents[i]).id == c.document_id
                    && db.documents[i].root_alias == alias && (locator is None || locator == Some(
                    db.documents[i].locator,
                ));
            assert(p(db.documents[i]) && document_id_of()(db.documents[i]) == c.document_id);
        }
    }
}

/// A removed root is gone, with its documents, its files and its fingerprint; the
/// other roots stay.
pub proof fn law_removed_root_is_gone(db: DocumentCacheView, alias: Seq<char>)
    ensures
        ({
            let after = without_root(db, alias);
            &&& forall|r: RootRowView| #[trigger]
                after.roots.contains(r) <==> db.roots.contains(r) && r.alias != alias
            &&& forall|d: DocumentRowView| #[trigger]
                after.documents.contains(d) <==> db.documents.contains(d) && d.root_alias != alias
            &&& forall|m: ManifestRowView| #[trigger]
                after.manifest.contains(m) <==> db.manifest.contains(m) && m.root_alias != alias
            &&& forall|m: MetaRowView| #[trigger]
                after.meta.contains(m) <==> db.meta.contains(m) && m.key != "root_fp::"@ + alias
            &&& generation_of(after.roots, alias) == 0
        }),
{
    let after = without_root(db, alias);
    law_removed_documents_are_of_the_root(db, alias, None);
    let p = |m: MetaRowView| m.key != fp_key(alias);
    let q = |r: RootRowView| r.alias != alias;
    lemma_selected(db.meta, p);
    lemma_selected(db.roots, q);
    let bare = without_documents(db, alias, None);
    assert(after.documents == bare.documents && after.manifest == bare.manifest);
    lemma_first_is(after.roots, root_named(alias));
    if first_where(after.roots, root_named(alias)) is Some {
        let r = first_where(after.roots, root_named(alias))->Some_0;
        assert(after.roots.contains(r));
    }
}

/// Before a plan is applied, the roots that it does not keep are removed, and those
/// that it keeps or does not name stay.
pub proof fn law_unkept_roots_are_cleared(
    db: DocumentCacheView,
    actions: Seq<(Seq<char>, RootAction)>,
)
    ensures
        forall|r: RootRowView| #[trigger]
            roots_cleared(db, actions).roots.contains(r) <==> db.roots.contains(r) && forall|i: int|
                0 <= i < actions.len() && (#[trigger] actions[i]).0 == r.alias
                    ==> actions[i].1 is KeepRoot,
    decreases actions.len(),
{
    if actions.len() > 0 {
        let init = actions.drop_last();
        let last = actions.last();
        let n = actions.len() - 1;
        let before = roots_cleared(db, init);
        law_unkept_roots_are_cleared(db, init);
        law_removed_root_is_gone(before, last.0);
        assert(actions[n] == last);
        assert forall|r: RootRowView| #[trigger]
            roots_cleared(db, actions).roots.contains(r) <==> db.roots.contains(r) && forall|i: int|
                0 <= i < actions.len() && (#[trigger] actions[i]).0 == r.alias
                    ==> actions[i].1 is KeepRoot by {
            let kept = forall|i: int|
                0 <= i < init.len() && (#[trigger] init[i]).0 == r.alias ==> init[i].1 is KeepRoot;
            assert(before.roots.contains(r) <==> db.roots.contains(r) && kept);
            if kept && !(last.0 == r.alias && !(last.1 is KeepRoot)) {
                assert forall|i: int|
                    0 <= i < actions.len() && (#[trigger] actions[i]).0 == r.alias implies
                    actions[i].1 is KeepRoot by {
                    if i < n {
                        assert(init[i] == actions[i]);
                    }
                }
            }
            if forall|i: int|
                0 <= i < actions.len() && (#[trigger] actions[i]).0 == r.alias
                    ==> actions[i].1 is KeepRoot {
                assert forall|i: int|
                    0 <= i < init.len() && (#[trigger] init[i]).0 == r.alias implies
                    init[i].1 is KeepRoot by {
                    assert(init[i] == actions[i]);
                }
                assert(actions[n].0 == r.alias ==> actions[n].1 is KeepRoot);
            }
        }
    }
}

/// The row of a scanned root tells its space, the hash of its configuration, its
/// generation and the time of the scan; the rows of other roots stay as they were.
pub proof fn law_scanned_root_is_on_record(
    roots: Seq<RootRowView>,
    fp: RootFingerprintView,
    generation: i64,
    now: i64,
)
    ensures
        ({
            let after = root_written(roots, fp, generation, now);
            &&& exists|i: int| 0 <= i < after.len() && (#[trigger] after[i]).alias == fp.alias
            &&& forall|i: int|
                0 <= i < after.len() && (#[trigger] after[i]).alias == fp.alias ==> {
                    &&& after[i].space == fp.space
                    &&& after[i].config_hash == config_hash(fp)
                    &&& after[i].generation == generation
                    &&& after[i].scanned_at == now
                }
            &&& forall|i: int|
                0 <= i < roots.len() ==> (#[trigger] after[i]).alias == roots[i].alias && (
                roots[i].alias != fp.alias ==> after[i] == roots[i])
            &&& after.len() <= roots.len() + 1
            &&& (exists|i: int| 0 <= i < roots.len() && (#[trigger] roots[i]).alias == fp.alias)
                ==> after.len() == roots.len()
        }),
{
    let p = root_named(fp.alias);
    let after = root_written(roots, fp, generation, now);
    if exists|i: int| 0 <= i < roots.len() && (#[trigger] roots[i]).alias == fp.alias {
        let i = choose|i: int| 0 <= i < roots.len() && (#[trigger] roots[i]).alias == fp.alias;
        assert(p(roots[i]));
    }
    if some_where(roots, p) {
        let i = choose|i: int| 0 <= i < roots.len() && p(#[trigger] roots[i]);
        assert(after[i].alias == fp.alias);
    } else {
        assert(after[roots.len() as int].alias == fp.alias);
        assert forall|i: int| 0 <= i < roots.len() implies (#[trigger] after[i]).alias
            == roots[i].alias && (roots[i].alias != fp.alias ==> after[i] == roots[i])
            && roots[i].alias != fp.alias by {
            assert(!p(roots[i]));
        }
    }
}

/// The highest row number: no row is above it, and it is that of a row unless no
/// row has a positive one.
pub proof fn law_top_row_number_is_the_greatest(rows: Seq<DocTextRowView>)
    ensures
        forall|i: int| 0 <= i < rows.len() ==> (#[trigger] rows[i]).rowid <= top_rowid(rows),
        top_rowid(rows) >= 0,
        top_rowid(rows) > 0 ==> exists|i: int|
            0 <= i < rows.len() && (#[trigger] rows[i]).rowid == top_rowid(rows),
    decreases rows.len(),
{
    if rows.len() > 0 {
        let init = rows.drop_last();
        let n = rows.len() - 1;
        law_top_row_number_is_the_greatest(init);
        assert(rows[n] == rows.last());
        assert forall|i: int| 0 <= i < rows.len() implies (#[trigger] rows[i]).rowid <= top_rowid(
            rows,
        ) by {
            if i < n {
                assert(init[i] == rows[i]);
            }
        }
        if top_rowid(init) > 0 {
            let i = choose|i: int|
                0 <= i < init.len() && (#[trigger] init[i]).rowid == top_rowid(init);
            assert(rows[i].rowid == top_rowid(init));
        }
    }
}

/// A chunk is written once: its row and its text, the text under a number above all
/// others, the same in both indexes. A chunk with an id that is there is refused.
pub proof fn law_chunk_is_written_with_its_text(
    db: DocumentCacheView,
    document: Seq<char>,
    space: Seq<char>,
    c: ChunkUpsertView,
)
    ensures
        (exists|i: int| 0 <= i < db.chunks.len() && (#[trigger] db.chunks[i]).id == c.id)
            ==> chunk_written(db, document, space, c) is Err,
        chunk_written(db, document, space, c) matches Ok(v) ==> {
            let t = v.texts.last();
            let row = v.chunks.last();
            &&& v.chunks.len() == db.chunks.len() + 1
            &&& v.chunks.drop_last() =~= db.chunks
            &&& row.id == c.id
            &&& row.document_id == document
            &&& row.space == space
            &&& row.ordinal == c.ordinal
            &&& c.span_start <= i64::MAX ==> row.span_start == c.span_start
            &&& c.span_end <= i64::MAX ==> row.span_end == c.span_end
            &&& row.context == c.context
            &&& v.texts == db.texts.push(t)
            &&& v.fts_word == db.fts_word.push(t)
            &&& v.fts_ngram == db.fts_ngram.push(t)
            &&& t.body == c.text
            &&& t.space == space
            &&& t.chunk_id == c.id
            &&& forall|i: int| 0 <= i < db.texts.len() ==> (#[trigger] db.texts[i]).rowid < t.rowid
            &&& t.rowid > 0
            &&& v.documents == db.documents
            &&& v.manifest == db.manifest
            &&& v.vectors == db.vectors
            &&& v.roots == db.roots
            &&& v.meta == db.meta
        },
{
    law_top_row_number_is_the_greatest(db.texts);
    if exists|i: int| 0 <= i < db.chunks.len() && (#[trigger] db.chunks[i]).id == c.id {
        let i = choose|i: int| 0 <= i < db.chunks.len() && (#[trigger] db.chunks[i]).id == c.id;
        assert(chunk_has_id(c.id)(db.chunks[i]));
    }
}

/// Whether the row of a chunk and its text are in a cache.
pub open spec fn is_kept(
    db: DocumentCacheView,
    document: Seq<char>,
    space: Seq<char>,
    c: ChunkUpsertView,
) -> bool {
    &&& exists|k: int|
        0 <= k < db.chunks.len() && (#[trigger] db.chunks[k]).id == c.id
            && db.chunks[k].document_id == document && db.chunks[k].space == space
            && db.chunks[k].ordinal == c.ordinal && db.chunks[k].context == c.context
    &&& exists|k: int|
        0 <= k < db.texts.len() && (#[trigger] db.texts[k]).chunk_id == c.id && db.texts[k].body
            == c.text && db.texts[k].space == space
}

/// Every chunk of a document is written, and what was there stays.
pub proof fn law_every_chunk_is_written(
    db: DocumentCacheView,
    document: Seq<char>,
    space: Seq<char>,
    chunks: Seq<ChunkUpsertView>,
)
    ensures
        chunks_written(db, document, space, chunks) matches Ok(v) ==> {
            &&& v.chunks.len() == db.chunks.len() + chunks.len()
            &&& v.texts.len() == db.texts.len() + chunks.len()
            &&& forall|k: int| 0 <= k < db.chunks.len() ==> #[trigger] v.chunks[k] == db.chunks[k]
            &&& forall|k: int| 0 <= k < db.texts.len() ==> #[trigger] v.texts[k] == db.texts[k]
            &&& forall|i: int|
                0 <= i < chunks.len() ==> is_kept(v, document, space, #[trigger] chunks[i])
            &&& v.documents == db.documents
            &&& v.manifest == db.manifest
            &&& v.roots == db.roots
            &&& v.vectors == db.vectors
        },
    decreases chunks.len(),
{
    if chunks.len() > 0 {
        let init = chunks.drop_last();
        let last = chunks.last();
        let n = chunks.len() - 1;
        law_every_chunk_is_written(db, document, space, init);
        if let Ok(mid) = chunks_written(db, document, space, init) {
            law_chunk_is_written_with_its_text(mid, document, space, last);
            if let Ok(v) = chunk_written(mid, document, space, last) {
                assert(v.chunks =~= mid.chunks.push(v.chunks.last()));
                assert forall|k: int| 0 <= k < mid.chunks.len() implies #[trigger] v.chunks[k]
                    == mid.chunks[k] by {}
                assert forall|i: int| 0 <= i < chunks.len() implies is_kept(
                    v,
                    document,
                    space,
                    #[trigger] chunks[i],
                ) by {
                    if i < n {
                        assert(init[i] == chunks[i]);
                        assert(is_kept(mid, document, space, init[i]));
                        let k = choose|k: int|
                            0 <= k < mid.chunks.len() && (#[trigger] mid.chunks[k]).id
                                == chunks[i].id && mid.chunks[k].document_id == document
                                && mid.chunks[k].space == space && mid.chunks[k].ordinal
                                == chunks[i].ordinal && mid.chunks[k].context == chunks[i].context;
                        assert(v.chunks[k] == mid.chunks[k]);
                        let j = choose|j: int|
                            0 <= j < mid.texts.len() && (#[trigger] mid.texts[j]).chunk_id
                                == chunks[i].id && mid.texts[j].body == chunks[i].text
                                && mid.texts[j].space == space;
                        assert(v.texts[j] == mid.texts[j]);
                    } else {
                        assert(v.chunks[mid.chunks.len() as int].id == last.id);
                        assert(v.texts[mid.texts.len() as int].chunk_id == last.id);
                    }
                }
            }
        }
    }
}

/// Clearing a document drops its row by id, its file by locator, and its chunks.
pub proof fn law_replaced_document_is_cleared(
    db: DocumentCacheView,
    alias: Seq<char>,
    u: DocumentUpsertView,
)
    ensures
        ({
            let after = document_cleared(db, alias, u);
            &&& forall|d: DocumentRowView| #[trigger]
                after.documents.contains(d) <==> db.documents.contains(d) && d.id != u.id
            &&& forall|m: ManifestRowView| #[trigger]
                after.manifest.contains(m) <==> db.manifest.contains(m) && !(m.root_alias == alias
                    && m.locator == u.locator)
            &&& forall|c: DocChunkRowView| #[trigger]
                after.chunks.contains(c) <==> db.chunks.contains(c) && c.document_id != u.id
            &&& after.roots == db.roots
            &&& after.meta == db.meta
        }),
{
    let one = seq![u.id];
    law_chunks_go_with_what_hangs_on_them(db, one);
    let p = |d: DocumentRowView| d.id != u.id;
    let q = |m: ManifestRowView| !manifest_at(alias, Some(u.locator))(m);
    lemma_selected(db.documents, p);
    lemma_selected(db.manifest, q);
    let bare = without_chunks(db, one);
    let after = document_cleared(db, alias, u);
    assert(one[0] == u.id);
    assert forall|c: DocChunkRowView| #[trigger] after.chunks.contains(c) <==> db.chunks.contains(c)
        && c.document_id != u.id by {
        assert(bare.chunks.contains(c) == after.chunks.contains(c));
        assert(one.contains(c.document_id) <==> c.document_id == u.id);
    }
}

/// A written document is there as it was given, alone under its id, with its file
/// in the manifest and every one of its chunks; other documents stay.
pub proof fn law_document_is_written_as_given(
    db: DocumentCacheView,
    alias: Seq<char>,
    space: Seq<char>,
    u: DocumentUpsertView,
    now: i64,
)
    ensures
        document_written(db, alias, space, u, now) matches Ok(v) ==> {
            let row = v.documents.last();
            let file = v.manifest.last();
            &&& v.documents.len() > 0
            &&& row.id == u.id
            &&& row.root_alias == alias
            &&& row.space == space
            &&& row.locator == u.locator
            &&& row.revision == u.revision
            &&& row.media_type == u.media_type
            &&& u.bytes <= i64::MAX ==> row.bytes == u.bytes
            &&& row.modified_at == u.modified_at
            &&& row.indexed_at == now
            &&& forall|d: DocumentRowView| #[trigger]
                v.documents.contains(d) <==> d == row || (db.documents.contains(d) && d.id != u.id)
            &&& v.manifest.len() > 0
            &&& file.root_alias == alias
            &&& file.locator == u.locator
            &&& u.bytes <= i64::MAX ==> file.bytes == u.bytes
            &&& file.modified_ns == u.modified_ns
            &&& file.revision == u.revision
            &&& forall|m: ManifestRowView| #[trigger]
                v.manifest.contains(m) <==> m == file || (db.manifest.contains(m) && !(m.root_alias
                    == alias && m.locator == u.locator))
            &&& forall|i: int|
                0 <= i < u.chunks.len() ==> is_kept(v, u.id, space, #[trigger] u.chunks[i])
            &&& v.roots == db.roots
        },
{
    let cleared = document_cleared(db, alias, u);
    let row = document_row(alias, space, u, now);
    let with_row = DocumentCacheView { documents: cleared.documents.push(row), ..cleared };
    law_replaced_document_is_cleared(db, alias, u);
    law_every_chunk_is_written(with_row, u.id, space, u.chunks);
    if let Ok(mid) = chunks_written(with_row, u.id, space, u.chunks) {
        let v = document_written(db, alias, space, u, now)->Ok_0;
        let file = v.manifest.last();
        assert(v.manifest == cleared.manifest.push(file));
        assert forall|d: DocumentRowView| #[trigger] v.documents.contains(d) <==> d == row || (
        db.documents.contains(d) && d.id != u.id) by {
            lemma_both_contain(cleared.documents, seq![row], d);
            assert(cleared.documents + seq![row] =~= v.documents);
            assert(seq![row][0] == row);
        }
        assert forall|m: ManifestRowView| #[trigger] v.manifest.contains(m) <==> m == file || (
        db.manifest.contains(m) && !(m.root_alias == alias && m.locator == u.locator)) by {
            lemma_both_contain(cleared.manifest, seq![file], m);
            assert(cleared.manifest + seq![file] =~= v.manifest);
            assert(seq![file][0] == file);
        }
        assert forall|i: int| 0 <= i < u.chunks.len() implies is_kept(
            v,
            u.id,
            space,
            #[trigger] u.chunks[i],
        ) by {
            assert(is_kept(mid, u.id, space, u.chunks[i]));
            assert(v.chunks == mid.chunks && v.texts == mid.texts);
        }
    }
}

/// The content given for a file is the last that names its locator.
pub proof fn law_content_is_found_by_locator(
    upserts: Seq<DocumentUpsertView>,
    locator: Seq<char>,
)
    ensures
        match upsert_for(upserts, locator) {
            Some(u) => u.locator == locator && exists|i: int|
                0 <= i < upserts.len() && #[trigger] upserts[i] == u && forall|j: int|
                    i < j < upserts.len() ==> (#[trigger] upserts[j]).locator != locator,
            None => forall|i: int|
                0 <= i < upserts.len() ==> (#[trigger] upserts[i]).locator != locator,
        },
    decreases upserts.len(),
{
    if upserts.len() > 0 {
        let init = upserts.drop_last();
        let n = upserts.len() - 1;
        assert(upserts[n] == upserts.last());
        if upserts.last().locator != locator {
            law_content_is_found_by_locator(init, locator);
            assert forall|i: int| 0 <= i < n implies #[trigger] upserts[i] == init[i] by {}
            if let Some(u) = upsert_for(init, locator) {
                let i = choose|i: int|
                    0 <= i < init.len() && #[trigger] init[i] == u && forall|j: int|
                        i < j < init.len() ==> (#[trigger] init[j]).locator != locator;
                assert(upserts[i] == u);
                assert forall|j: int| i < j < upserts.len() implies (#[trigger] upserts[j]).locator
                    != locator by {
                    if j < n {
                        assert(init[j] == upserts[j]);
                    }
                }
            }
        }
    }
}

/// A file that is unchanged or skipped changes nothing; a deleted one takes its
/// document along; an added or replaced one is written as given, and refused
/// where no content is given for it.
pub proof fn law_file_actions_do_as_named(
    db: DocumentCacheView,
    alias: Seq<char>,
    space: Seq<char>,
    action: FileActionView,
    upserts: Seq<DocumentUpsertView>,
    now: i64,
)
    ensures
        ({
            let r = action_done(db, alias, space, action, upserts, now);
            match action {
                FileActionView::Unchanged => r == Ok::<DocumentCacheView, BrainErrorView>(db),
                FileActionView::Skip { locator: _, reason: _ } => r == Ok::<
                    DocumentCacheView,
                    BrainErrorView,
                >(db),
                FileActionView::Delete { locator } => r matches Ok(v) && forall|d: DocumentRowView|
                    #[trigger]
                    v.documents.contains(d) <==> db.documents.contains(d) && !(d.root_alias == alias
                        && d.locator == locator),
                FileActionView::Add { seen } => is_written_or_refused(
                    db,
                    alias,
                    space,
                    seen.locator,
                    upserts,
                    now,
                    r,
                ),
                FileActionView::Replace { seen } => is_written_or_refused(
                    db,
                    alias,
                    space,
                    seen.locator,
                    upserts,
                    now,
                    r,
                ),
            }
        }),
{
    law_content_is_found_by_locator(
        upserts,
        match action {
            FileActionView::Add { seen } => seen.locator,
            FileActionView::Replace { seen } => seen.locator,
            _ => Seq::empty(),
        },
    );
    if let FileActionView::Delete { locator } = action {
        law_removed_documents_are_of_the_root(db, alias, Some(locator));
    }
}

/// Whether the outcome of a file seen is that of writing some content given for it,
/// or a refusal where none is.
pub open spec fn is_written_or_refused(
    db: DocumentCacheView,
    alias: Seq<char>,
    space: Seq<char>,
    locator: Seq<char>,
    upserts: Seq<DocumentUpsertView>,
    now: i64,
    r: Result<DocumentCacheView, BrainErrorView>,
) -> bool {
    if exists|i: int| 0 <= i < upserts.len() && (#[trigger] upserts[i]).locator == locator {
        exists|i: int|
            0 <= i < upserts.len() && (#[trigger] upserts[i]).locator == locator && r
                == document_written(db, alias, space, upserts[i], now)
    } else {
        r is Err && r->Err_0 is Invalid
    }
}

/// The roots of a cache are told with their fingerprints; a root without one is
/// corruption.
pub proof fn law_roots_are_told_with_their_fingerprints(
    roots: Seq<RootRowView>,
    meta: Seq<MetaRowView>,
)
    ensures
        match cached_roots(roots, meta) {
            Ok(v) => {
                &&& v.len() == roots.len()
                &&& forall|i: int|
                    0 <= i < v.len() ==> (#[trigger] v[i]).alias == roots[i].alias && v[i].space
                        == roots[i].space && v[i].generation == roots[i].generation && meta_value(
                        meta,
                        "root_fp::"@ + roots[i].alias,
                    ) == Some(v[i].fingerprint_json)
            },
            Err(e) => e is Corruption && exists|i: int|
                0 <= i < roots.len() && meta_value(
                    meta,
                    "root_fp::"@ + (#[trigger] roots[i]).alias,
                ) is None,
        },
    decreases roots.len(),
{
    if roots.len() > 0 {
        let init = roots.drop_last();
        let n = roots.len() - 1;
        assert(roots[n] == roots.last());
        law_roots_are_told_with_their_fingerprints(init, meta);
        match cached_roots(init, meta) {
            Err(_) => {
                let i = choose|i: int|
                    0 <= i < init.len() && meta_value(
                        meta,
                        "root_fp::"@ + (#[trigger] init[i]).alias,
                    ) is None;
                assert(roots[i] == init[i]);
            },
            Ok(done) => {
                if let Ok(v) = cached_roots(roots, meta) {
                    assert forall|i: int| 0 <= i < v.len() implies (#[trigger] v[i]).alias
                        == roots[i].alias && v[i].space == roots[i].space && v[i].generation
                        == roots[i].generation && meta_value(
                        meta,
                        "root_fp::"@ + roots[i].alias,
                    ) == Some(v[i].fingerprint_json) by {
                        if i < n {
                            assert(v[i] == done[i] && roots[i] == init[i]);
                        }
                    }
                }
            },
        }
    }
}

/// The files of a root are those of its manifest, told by their fields, in the order
/// of their locators.
pub proof fn law_files_of_a_root(manifest: Seq<ManifestRowView>, alias: Seq<char>)
    ensures
        ({
            let r = ordered(
                manifest.filter(manifest_at(alias, None)).map_values(cached_file()),
                by_locator(),
            );
            &&& forall|f: CachedFileView| #[trigger]
                r.contains(f) <==> exists|i: int|
                    0 <= i < manifest.len() && (#[trigger] manifest[i]).root_alias == alias
                        && f.locator == manifest[i].locator && f.bytes == manifest[i].bytes as u64
                        && f.modified_ns == manifest[i].modified_ns && f.revision
                        == manifest[i].revision
            &&& forall|i: int, j: int|
                0 <= i < j < r.len() ==> text_le(
                    (#[trigger] r[i]).locator,
                    (#[trigger] r[j]).locator,
                )
        }),
{
    let p = manifest_at(alias, None);
    let all = manifest.filter(p).map_values(cached_file());
    let leq = by_locator();
    let r = ordered(all, leq);
    assert(is_order(leq)) by {
        assert forall|a: CachedFileView, b: CachedFileView| #[trigger] leq(a, b) || leq(b, a) by {
            crate::text::lemma_text_total(a.locator, b.locator);
        }
        assert forall|a: CachedFileView, b: CachedFileView, c: CachedFileView| #[trigger] leq(a, b)
            && #[trigger] leq(b, c) implies leq(a, c) by {
            crate::text::lemma_text_transitive(a.locator, b.locator, c.locator);
        }
    }
    lemma_got(manifest, p, cached_file());
    lemma_ordered_members(all, leq);
    lemma_ordered_in_order(all, leq);
    assert forall|i: int, j: int| 0 <= i < j < r.len() implies text_le(
        (#[trigger] r[i]).locator,
        (#[trigger] r[j]).locator,
    ) by {
        assert(leq(r[i], r[j]));
    }
    assert forall|f: CachedFileView| #[trigger] r.contains(f) <==> exists|i: int|
        0 <= i < manifest.len() && (#[trigger] manifest[i]).root_alias == alias && f.locator
            == manifest[i].locator && f.bytes == manifest[i].bytes as u64 && f.modified_ns
            == manifest[i].modified_ns && f.revision == manifest[i].revision by {
        assert(r.contains(f) <==> all.contains(f));
        if exists|i: int|
            0 <= i < manifest.len() && (#[trigger] manifest[i]).root_alias == alias && f.locator
                == manifest[i].locator && f.bytes == manifest[i].bytes as u64 && f.modified_ns
                == manifest[i].modified_ns && f.revision == manifest[i].revision {
            let i = choose|i: int|
                0 <= i < manifest.len() && (#[trigger] manifest[i]).root_alias == alias && f.locator
                    == manifest[i].locator && f.bytes == manifest[i].bytes as u64 && f.modified_ns
                    == manifest[i].modified_ns && f.revision == manifest[i].revision;
            assert(p(manifest[i]) && cached_file()(manifest[i]) == f);
        }
    }
}

/// The distance of two vectors of one length is that of the other way round, never
/// negative, and zero just where they are the same.
pub proof fn law_distance_tells_vectors_apart(a: Seq<u8>, b: Seq<u8>)
    requires
        a.len() == b.len(),
    ensures
        squared_distance(a, b) == squared_distance(b, a),
        squared_distance(a, b) >= 0,
        squared_distance(a, b) == 0 <==> a == b,
    decreases a.len(),
{
    if a.len() > 0 {
        let s = a.drop_first();
        let t = b.drop_first();
        law_distance_tells_vectors_apart(s, t);
        let d = signed(a[0]) - signed(b[0]);
        assert(d * d == (-d) * (-d)) by (nonlinear_arith);
        assert(d * d >= 0) by (nonlinear_arith);
        assert(d * d == 0 <==> d == 0) by (nonlinear_arith);
        assert(d == 0 <==> a[0] == b[0]);
        assert(a =~= seq![a[0]] + s);
        assert(b =~= seq![b[0]] + t);
        if a == b {
            assert(s == t);
        }
    } else {
        assert(a =~= b);
    }
}

/// One more pair of bytes adds the square of the difference of their signed values.
pub proof fn law_distance_adds_up(a: Seq<u8>, b: Seq<u8>, x: u8, y: u8)
    ensures
        ({
            let d = signed(x) - signed(y);
            squared_distance(seq![x] + a, seq![y] + b) == d * d + squared_distance(a, b)
        }),
        signed(x) == x as i8 as int,
{
    assert((seq![x] + a).drop_first() =~= a);
    assert((seq![y] + b).drop_first() =~= b);
    assert(x < 128 ==> x as i8 == x) by (bit_vector);
    assert(x >= 128 ==> x as i8 == x - 256) by (bit_vector);
}

/// The nearest chunks come first: as many as asked for, each with its distance, in
/// the order of distance, and none left out is nearer than one told.
pub proof fn law_nearest_chunks_come_first(
    vectors: Seq<DocVectorRowView>,
    query: Seq<u8>,
    limit: nat,
)
    ensures
        ({
            let r = first_n(ordered(vectors.map_values(neighbour(query)), by_distance()), limit);
            &&& r.len() == if limit < vectors.len() {
                limit
            } else {
                vectors.len()
            }
            &&& forall|i: int, j: int|
                0 <= i < j < r.len() ==> (#[trigger] r[i]).1 <= (#[trigger] r[j]).1
            &&& forall|p: (Seq<char>, u64)| #[trigger]
                r.contains(p) ==> exists|k: int|
                    0 <= k < vectors.len() && (#[trigger] vectors[k]).chunk_id == p.0
                        && squared_distance(vectors[k].embedding, query) as u64 == p.1
            &&& forall|k: int, i: int|
                #![trigger vectors[k], r[i]]
                0 <= k < vectors.len() && 0 <= i < r.len() && !r.contains(
                    neighbour(query)(vectors[k]),
                ) ==> r[i].1 <= squared_distance(vectors[k].embedding, query) as u64
        }),
{
    let all = vectors.map_values(neighbour(query));
    let leq = by_distance();
    assert(is_order(leq));
    let sorted = ordered(all, leq);
    let r = first_n(sorted, limit);
    lemma_ordered_members(all, leq);
    lemma_ordered_in_order(all, leq);
    assert forall|i: int, j: int| 0 <= i < j < r.len() implies (#[trigger] r[i]).1 <= (
    #[trigger] r[j]).1 by {
        assert(leq(sorted[i], sorted[j]));
    }
    assert forall|p: (Seq<char>, u64)| #[trigger] r.contains(p) implies exists|k: int|
        0 <= k < vectors.len() && (#[trigger] vectors[k]).chunk_id == p.0 && squared_distance(
            vectors[k].embedding,
            query,
        ) as u64 == p.1 by {
        let i = choose|i: int| 0 <= i < r.len() && r[i] == p;
        assert(sorted[i] == p);
        assert(sorted.contains(p));
        assert(all.contains(p));
        let k = choose|k: int| 0 <= k < all.len() && all[k] == p;
        assert(vectors[k].chunk_id == p.0);
    }
    assert forall|k: int, i: int|
        #![trigger vectors[k], r[i]]
        0 <= k < vectors.len() && 0 <= i < r.len() && !r.contains(
            neighbour(query)(vectors[k]),
        ) implies r[i].1 <= squared_distance(vectors[k].embedding, query) as u64 by {
        let x = neighbour(query)(vectors[k]);
        assert(all[k] == x);
        assert(all.contains(x));
        assert(sorted.contains(x));
        let j = choose|j: int| 0 <= j < sorted.len() && sorted[j] == x;
        if j < r.len() {
            assert(r[j] == x);
        }
        assert(leq(sorted[i], sorted[j]));
    }
}

/// A chunk is found by its id, with what its document tells: root, locator, revision,
/// media type and time.
pub proof fn law_chunk_is_found_with_its_document(db: DocumentCacheView, id: Seq<char>)
    ensures
        match chunk_found(db, id) {
            Some(f) => f.chunk_id == id && exists|i: int, j: int|
                #![trigger db.chunks[i], db.documents[j]]
                0 <= i < db.chunks.len() && 0 <= j < db.documents.len() && is_told_of(
                    f,
                    db.chunks[i],
                    db.documents[j],
                ),
            None => forall|i: int|
                0 <= i < db.chunks.len() && (#[trigger] db.chunks[i]).id == id && (forall|k: int|
                    0 <= k < i ==> (#[trigger] db.chunks[k]).id != id) ==> forall|j: int|
                    0 <= j < db.documents.len() ==> (#[trigger] db.documents[j]).id
                        != db.chunks[i].document_id,
        },
{
    let p = chunk_has_id(id);
    lemma_first_is(db.chunks, p);
    match first_where(db.chunks, p) {
        Some(c) => {
            let i = choose|i: int|
                0 <= i < db.chunks.len() && #[trigger] db.chunks[i] == c && forall|j: int|
                    0 <= j < i ==> !p(#[trigger] db.chunks[j]);
            let q = |d: DocumentRowView| d.id == c.document_id;
            lemma_first_is(db.documents, q);
            match first_where(db.documents, q) {
                Some(d) => {
                    let j = choose|j: int| 0 <= j < db.documents.len() && db.documents[j] == d;
                    assert(is_told_of(chunk_found(db, id)->Some_0, db.chunks[i], db.documents[j]));
                },
                None => {
                    assert forall|k: int|
                        0 <= k < db.chunks.len() && (#[trigger] db.chunks[k]).id == id && (forall|
                            m: int,
                        |
                            0 <= m < k ==> (#[trigger] db.chunks[m]).id != id) implies forall|
                        j: int,
                    |
                        0 <= j < db.documents.len() ==> (#[trigger] db.documents[j]).id
                            != db.chunks[k].document_id by {
                        assert(p(db.chunks[k]));
                        if k < i {
                            assert(!p(db.chunks[k]));
                        }
                        if i < k {
                            assert(db.chunks[i].id == id);
                        }
                        assert forall|j: int| 0 <= j < db.documents.len() implies (
                        #[trigger] db.documents[j]).id != db.chunks[k].document_id by {
                            assert(!q(db.documents[j]));
                        }
                    }
                },
            }
        },
        None => {
            assert forall|i: int|
                0 <= i < db.chunks.len() && (#[trigger] db.chunks[i]).id == id implies false by {
                assert(p(db.chunks[i]));
            }
        },
    }
}

/// Whether what is told of a chunk is of its row and of its document.
pub open spec fn is_told_of(f: CachedChunkView, c: DocChunkRowView, d: DocumentRowView) -> bool {
    &&& f.chunk_id == c.id
    &&& f.document_id == c.document_id
    &&& d.id == c.document_id
    &&& f.root_alias == d.root_alias
    &&& f.space == c.space
    &&& f.locator == d.locator
    &&& f.revision == d.revision
    &&& f.media_type == d.media_type
    &&& f.ordinal == c.ordinal as u32
    &&& f.span_start == c.span_start as usize
    &&& f.span_end == c.span_end as usize
    &&& f.modified_at == d.modified_at
}

/// Chunks asked for by id are told once each, those that are found.
pub proof fn law_chunks_asked_for_are_told(db: DocumentCacheView, ids: Seq<Seq<char>>)
    ensures
        forall|f: CachedChunkView| #[trigger]
            chunks_found(db, ids).contains(f) <==> exists|i: int|
                0 <= i < ids.len() && chunk_found(db, #[trigger] ids[i]) == Some(f),
        chunks_found(db, ids).len() <= ids.len(),
    decreases ids.len(),
{
    if ids.len() > 0 {
        let init = ids.drop_last();
        let last = ids.last();
        let n = ids.len() - 1;
        assert(ids[n] == last);
        law_chunks_asked_for_are_told(db, init);
        let before = chunks_found(db, init);
        let r = chunks_found(db, ids);
        assert forall|f: CachedChunkView| #[trigger] r.contains(f) <==> exists|i: int|
            0 <= i < ids.len() && chunk_found(db, #[trigger] ids[i]) == Some(f) by {
            if before.contains(f) {
                let k = choose|k: int| 0 <= k < before.len() && before[k] == f;
                assert(r[k] == f);
                let i = choose|i: int|
                    0 <= i < init.len() && chunk_found(db, #[trigger] init[i]) == Some(f);
                assert(ids[i] == init[i]);
            }
            if r.contains(f) && !before.contains(f) {
                let k = choose|k: int| 0 <= k < r.len() && r[k] == f;
                if k < before.len() {
                    assert(before[k] == f);
                }
                assert(chunk_found(db, ids[n]) == Some(f));
            }
            if exists|i: int| 0 <= i < ids.len() && chunk_found(db, #[trigger] ids[i]) == Some(f) {
                let i = choose|i: int|
                    0 <= i < ids.len() && chunk_found(db, #[trigger] ids[i]) == Some(f);
                if i < n {
                    assert(init[i] == ids[i]);
                    assert(before.contains(f));
                } else if init.contains(last) {
                    let j = choose|j: int| 0 <= j < init.len() && init[j] == last;
                    assert(chunk_found(db, init[j]) == Some(f));
                    assert(before.contains(f));
                } else {
                    assert(r[before.len() as int] == f);
                }
            }
        }
    }
}

/// The chunks that wait for a vector are those of the space with a text and without
/// a vector; the first of them by id are told, each with its text.
pub proof fn law_pending_chunks_wait_for_a_vector(
    db: DocumentCacheView,
    space: Seq<char>,
    limit: nat,
)
    ensures
        ({
            let rows = first_n(
                ordered(db.chunks.filter(is_pending(db, space)), by_chunk_id()),
                limit,
            );
            let r = rows.map_values(pending_text(db));
            &&& r.len() == rows.len()
            &&& r.len() <= limit
            &&& forall|i: int|
                0 <= i < rows.len() ==> {
                    &&& db.chunks.contains(#[trigger] rows[i])
                    &&& rows[i].space == space
                    &&& r[i].0 == rows[i].id
                    &&& exists|k: int|
                        0 <= k < db.texts.len() && (#[trigger] db.texts[k]).chunk_id == rows[i].id
                            && db.texts[k].body == r[i].1
                    &&& forall|k: int|
                        0 <= k < db.vectors.len() ==> (#[trigger] db.vectors[k]).chunk_id
                            != rows[i].id
                }
            &&& forall|i: int, j: int|
                0 <= i < j < rows.len()
                    ==> text_le((#[trigger] rows[i]).id, (#[trigger] rows[j]).id)
            &&& forall|c: DocChunkRowView| #[trigger]
                db.chunks.contains(c) && is_waiting(db, space, c) && rows.len() < limit
                    ==> rows.contains(c)
        }),
{
    let p = is_pending(db, space);
    let leq = by_chunk_id();
    assert(is_order(leq)) by {
        assert forall|a: DocChunkRowView, b: DocChunkRowView| #[trigger] leq(a, b) || leq(b, a) by {
            crate::text::lemma_text_total(a.id, b.id);
        }
        assert forall|a: DocChunkRowView, b: DocChunkRowView, c: DocChunkRowView| #[trigger]
            leq(a, b) && #[trigger] leq(b, c) implies leq(a, c) by {
            crate::text::lemma_text_transitive(a.id, b.id, c.id);
        }
    }
    lemma_top(db.chunks, p, leq, limit);
    let sorted = ordered(db.chunks.filter(p), leq);
    let rows = first_n(sorted, limit);
    let r = rows.map_values(pending_text(db));
    assert forall|i: int| 0 <= i < rows.len() implies {
        &&& db.chunks.contains(#[trigger] rows[i])
        &&& rows[i].space == space
        &&& r[i].0 == rows[i].id
        &&& exists|k: int|
            0 <= k < db.texts.len() && (#[trigger] db.texts[k]).chunk_id == rows[i].id
                && db.texts[k].body == r[i].1
        &&& forall|k: int|
            0 <= k < db.vectors.len() ==> (#[trigger] db.vectors[k]).chunk_id != rows[i].id
    } by {
        assert(p(rows[i]));
        let t = is_text_of(rows[i].id);
        lemma_first_is(db.texts, t);
        let m = choose|m: int| 0 <= m < db.texts.len() && t(#[trigger] db.texts[m]);
        let x = first_where(db.texts, t)->Some_0;
        let k = choose|k: int| 0 <= k < db.texts.len() && db.texts[k] == x;
        assert(db.texts[k].chunk_id == rows[i].id);
        assert forall|k: int| 0 <= k < db.vectors.len() implies (#[trigger] db.vectors[k]).chunk_id
            != rows[i].id by {
            assert(!vector_of(rows[i].id)(db.vectors[k]));
        }
    }
    assert forall|i: int, j: int| 0 <= i < j < rows.len() implies text_le(
        (#[trigger] rows[i]).id,
        (#[trigger] rows[j]).id,
    ) by {
        assert(leq(rows[i], rows[j]));
    }
    lemma_selected(db.chunks, p);
    lemma_ordered_members(db.chunks.filter(p), leq);
    assert forall|c: DocChunkRowView| #[trigger]
        db.chunks.contains(c) && is_waiting(db, space, c) && rows.len()
            < limit implies rows.contains(c) by {
        let k = choose|k: int|
            0 <= k < db.texts.len() && (#[trigger] db.texts[k]).chunk_id == c.id;
        assert(is_text_of(c.id)(db.texts[k]));
        if some_where(db.vectors, vector_of(c.id)) {
            let m = choose|m: int|
                0 <= m < db.vectors.len() && vector_of(c.id)(#[trigger] db.vectors[m]);
            assert(db.vectors[m].chunk_id == c.id);
        }
        assert(p(c));
        assert(db.chunks.filter(p).contains(c));
        assert(sorted.contains(c));
        assert(rows =~= sorted);
    }
}

/// Whether a chunk of a space has a text and no vector.
pub open spec fn is_waiting(db: DocumentCacheView, space: Seq<char>, c: DocChunkRowView) -> bool {
    &&& c.space == space
    &&& exists|k: int| 0 <= k < db.texts.len() && (#[trigger] db.texts[k]).chunk_id == c.id
    &&& forall|k: int| 0 <= k < db.vectors.len() ==> (#[trigger] db.vectors[k]).chunk_id != c.id
}

/// The embedded chunks of a space are its chunks that have a vector.
pub proof fn law_embedded_chunks_have_a_vector(db: DocumentCacheView, space: Seq<char>)
    ensures
        forall|c: DocChunkRowView| #[trigger]
            db.chunks.filter(is_embedded(db, space)).contains(c) <==> db.chunks.contains(c)
                && c.space == space && exists|k: int|
                0 <= k < db.vectors.len() && (#[trigger] db.vectors[k]).chunk_id == c.id,
        db.chunks.filter(is_embedded(db, space)).len() <= db.chunks.len(),
        forall|c: DocChunkRowView| #[trigger]
            db.chunks.filter(doc_chunk_in(space)).contains(c) <==> db.chunks.contains(c) && c.space
                == space,
{
    let p = is_embedded(db, space);
    lemma_selected(db.chunks, p);
    lemma_selected(db.chunks, doc_chunk_in(space));
    assert forall|c: DocChunkRowView| #[trigger]
        db.chunks.filter(p).contains(c) <==> db.chunks.contains(c) && c.space == space
            && exists|k: int|
            0 <= k < db.vectors.len() && (#[trigger] db.vectors[k]).chunk_id == c.id by {
        assert(db.chunks.filter(p).contains(c) <==> db.chunks.contains(c) && p(c));
        if some_where(db.vectors, vector_of(c.id)) {
            let k = choose|k: int|
                0 <= k < db.vectors.len() && vector_of(c.id)(#[trigger] db.vectors[k]);
            assert(db.vectors[k].chunk_id == c.id);
        }
        if exists|k: int| 0 <= k < db.vectors.len() && (#[trigger] db.vectors[k]).chunk_id == c.id {
            let k = choose|k: int|
                0 <= k < db.vectors.len() && (#[trigger] db.vectors[k]).chunk_id == c.id;
            assert(vector_of(c.id)(db.vectors[k]));
        }
    }
}

/// Written vectors stand in the place of those of the same chunk, the last written
/// of a chunk alone; the vectors of other chunks stay.
pub proof fn law_vectors_are_replaced(
    vectors: Seq<DocVectorRowView>,
    rows: Seq<(Seq<char>, Seq<u8>)>,
)
    ensures
        forall|v: DocVectorRowView| #[trigger]
            vectors_written(vectors, rows).contains(v) <==> is_last_written(rows, v) || (
            vectors.contains(v) && forall|i: int|
                0 <= i < rows.len() ==> (#[trigger] rows[i]).0 != v.chunk_id),
    decreases rows.len(),
{
    if rows.len() > 0 {
        let init = rows.drop_last();
        let last = rows.last();
        let n = rows.len() - 1;
        assert(rows[n] == last);
        let before = vectors_written(vectors, init);
        let x = DocVectorRowView { chunk_id: last.0, embedding: last.1 };
        law_vectors_are_replaced(vectors, init);
        lemma_replaced(before, vector_of(last.0), x);
        assert forall|v: DocVectorRowView| #[trigger]
            vectors_written(vectors, rows).contains(v) <==> is_last_written(rows, v) || (
            vectors.contains(v) && forall|i: int|
                0 <= i < rows.len() ==> (#[trigger] rows[i]).0 != v.chunk_id) by {
            assert(vectors_written(vectors, rows).contains(v) <==> v == x || (before.contains(v)
                && v.chunk_id != last.0));
            if v == x {
                assert(rows[n].0 == v.chunk_id);
                assert(is_last_written(rows, v));
            }
            if is_last_written(init, v) && v.chunk_id != last.0 {
                let i = choose|i: int|
                    0 <= i < init.len() && (#[trigger] init[i]).0 == v.chunk_id && init[i].1
                        == v.embedding && is_unrepeated(init, i);
                assert(rows[i] == init[i]);
                assert(is_unrepeated(rows, i)) by {
                    assert forall|j: int| i < j < rows.len() implies (#[trigger] rows[j]).0
                        != rows[i].0 by {
                        if j < n {
                            assert(init[j] == rows[j]);
                        }
                    }
                }
            }
            if is_last_written(rows, v) && v != x {
                let i = choose|i: int|
                    0 <= i < rows.len() && (#[trigger] rows[i]).0 == v.chunk_id && rows[i].1
                        == v.embedding && is_unrepeated(rows, i);
                assert(i < n);
                assert(rows[n].0 != rows[i].0);
                assert(init[i] == rows[i]);
                assert(is_unrepeated(init, i)) by {
                    assert forall|j: int| i < j < init.len() implies (#[trigger] init[j]).0
                        != init[i].0 by {
                        assert(init[j] == rows[j]);
                    }
                }
                assert(is_last_written(init, v));
            }
            let none = forall|i: int|
                0 <= i < init.len() ==> (#[trigger] init[i]).0 != v.chunk_id;
            if none && last.0 != v.chunk_id {
                assert forall|i: int| 0 <= i < rows.len() implies (#[trigger] rows[i]).0
                    != v.chunk_id by {
                    if i < n {
                        assert(init[i] == rows[i]);
                    }
                }
            }
            if forall|i: int| 0 <= i < rows.len() ==> (#[trigger] rows[i]).0 != v.chunk_id {
                assert forall|i: int| 0 <= i < init.len() implies (#[trigger] init[i]).0
                    != v.chunk_id by {
                    assert(init[i] == rows[i]);
                }
                assert(rows[n].0 != v.chunk_id);
            }
        }
    }
}

/// Whether no later row is of the chunk of a row.
pub open spec fn is_unrepeated(rows: Seq<(Seq<char>, Seq<u8>)>, i: int) -> bool {
    forall|j: int| i < j < rows.len() ==> (#[trigger] rows[j]).0 != rows[i].0
}

/// Whether a vector is the last that is written of its chunk.
pub open spec fn is_last_written(rows: Seq<(Seq<char>, Seq<u8>)>, v: DocVectorRowView) -> bool {
    exists|i: int|
        0 <= i < rows.len() && (#[trigger] rows[i]).0 == v.chunk_id && rows[i].1 == v.embedding
            && is_unrepeated(rows, i)
}

/// Vectors are written only where each has as many numbers as the table.
pub proof fn law_vectors_fit_the_table(rows: Seq<(Seq<char>, Seq<u8>)>)
    ensures
        misfit(rows) is None <==> forall|i: int|
            0 <= i < rows.len() ==> (#[trigger] rows[i]).1.len() == 1024,
    decreases rows.len(),
{
    if rows.len() > 0 {
        let init = rows.drop_last();
        let n = rows.len() - 1;
        assert(rows[n] == rows.last());
        law_vectors_fit_the_table(init);
        if misfit(rows) is None {
            assert forall|i: int| 0 <= i < rows.len() implies (#[trigger] rows[i]).1.len()
                == 1024 by {
                if i < n {
                    assert(init[i] == rows[i]);
                }
            }
        } else if forall|i: int| 0 <= i < rows.len() ==> (#[trigger] rows[i]).1.len() == 1024 {
            assert forall|i: int| 0 <= i < init.len() implies (#[trigger] init[i]).1.len()
                == 1024 by {
                assert(init[i] == rows[i]);
            }
            assert(rows[n].1.len() == 1024);
        }
    }
}

/// Two configurations that differ in one setting alone have different bytes to hash:
/// the alias, the path, the space or the largest size of a file; or the lists of what
/// to take and what to leave, where their texts differ.
pub proof fn law_every_setting_counts(a: RootFingerprintView, b: RootFingerprintView)
    requires
        fp_bytes(a) == fp_bytes(b),
    ensures
        a == (RootFingerprintView { alias: a.alias, ..b }) ==> a.alias == b.alias,
        a == (RootFingerprintView { canonical_path: a.canonical_path, ..b }) ==> a.canonical_path
            == b.canonical_path,
        a == (RootFingerprintView { space: a.space, ..b }) ==> a.space == b.space,
        a == (RootFingerprintView { max_file_bytes: a.max_file_bytes, ..b }) ==> a.max_file_bytes
            == b.max_file_bytes,
        a == (RootFingerprintView { included: a.included, ..b }) ==> encode_utf8(
            debug_list(a.included),
        ) == encode_utf8(debug_list(b.included)),
        a == (RootFingerprintView { excluded: a.excluded, ..b }) ==> encode_utf8(
            debug_list(a.excluded),
        ) == encode_utf8(debug_list(b.excluded)),
{
    let x0 = fp_field("alias"@, encode_utf8(a.alias));
    let y0 = fp_field("alias"@, encode_utf8(b.alias));
    let x1 = fp_field("canonical_path"@, encode_utf8(a.canonical_path));
    let y1 = fp_field("canonical_path"@, encode_utf8(b.canonical_path));
    let x2 = fp_field("space"@, encode_utf8(a.space));
    let y2 = fp_field("space"@, encode_utf8(b.space));
    let x3 = fp_field("include"@, encode_utf8(debug_list(a.included)));
    let y3 = fp_field("include"@, encode_utf8(debug_list(b.included)));
    let x4 = fp_field("exclude"@, encode_utf8(debug_list(a.excluded)));
    let y4 = fp_field("exclude"@, encode_utf8(debug_list(b.excluded)));
    let x5 = fp_field("max_file_bytes"@, spec_u64_to_le_bytes(a.max_file_bytes));
    let y5 = fp_field("max_file_bytes"@, spec_u64_to_le_bytes(b.max_file_bytes));
    assert(x0 + x1 + x2 + x3 + x4 + x5 == y0 + y1 + y2 + y3 + y4 + y5);
    lemma_one_of_six(x0, x1, x2, x3, x4, x5, y0, y1, y2, y3, y4, y5);
    if x0 == y0 {
        lemma_field(
            "alias"@,
            encode_utf8(a.alias),
            encode_utf8(b.alias),
        );
        lemma_same_text(a.alias, b.alias);
    }
    if x1 == y1 {
        lemma_field(
            "canonical_path"@,
            encode_utf8(a.canonical_path),
            encode_utf8(b.canonical_path),
        );
        lemma_same_text(a.canonical_path, b.canonical_path);
    }
    if x2 == y2 {
        lemma_field(
            "space"@,
            encode_utf8(a.space),
            encode_utf8(b.space),
        );
        lemma_same_text(a.space, b.space);
    }
    if x3 == y3 {
        lemma_field(
            "include"@,
            encode_utf8(debug_list(a.included)),
            encode_utf8(debug_list(b.included)),
        );
    }
    if x4 == y4 {
        lemma_field(
            "exclude"@,
            encode_utf8(debug_list(a.excluded)),
            encode_utf8(debug_list(b.excluded)),
        );
    }
    if x5 == y5 {
        lemma_field(
            "max_file_bytes"@,
            spec_u64_to_le_bytes(a.max_file_bytes),
            spec_u64_to_le_bytes(b.max_file_bytes),
        );
    }
    lemma_auto_spec_u64_to_from_le_bytes();
}

/// Where six parts in a row are the same bytes and five of them are the same, so is the
/// one left.
proof fn lemma_one_of_six(
    x0: Seq<u8>,
    x1: Seq<u8>,
    x2: Seq<u8>,
    x3: Seq<u8>,
    x4: Seq<u8>,
    x5: Seq<u8>,
    y0: Seq<u8>,
    y1: Seq<u8>,
    y2: Seq<u8>,
    y3: Seq<u8>,
    y4: Seq<u8>,
    y5: Seq<u8>,
)
    requires
        x0 + x1 + x2 + x3 + x4 + x5 == y0 + y1 + y2 + y3 + y4 + y5,
    ensures
        x1 == y1 && x2 == y2 && x3 == y3 && x4 == y4 && x5 == y5 ==> x0 == y0,
        x0 == y0 && x2 == y2 && x3 == y3 && x4 == y4 && x5 == y5 ==> x1 == y1,
        x0 == y0 && x1 == y1 && x3 == y3 && x4 == y4 && x5 == y5 ==> x2 == y2,
        x0 == y0 && x1 == y1 && x2 == y2 && x4 == y4 && x5 == y5 ==> x3 == y3,
        x0 == y0 && x1 == y1 && x2 == y2 && x3 == y3 && x5 == y5 ==> x4 == y4,
        x0 == y0 && x1 == y1 && x2 == y2 && x3 == y3 && x4 == y4 ==> x5 == y5,
{
    assert(x1 == y1 && x2 == y2 && x3 == y3 && x4 == y4 && x5 == y5 ==> x0 == y0) by {
        if x1 == y1 && x2 == y2 && x3 == y3 && x4 == y4 && x5 == y5 {
            let front = Seq::<u8>::empty();
            let rest = x1 + x2 + x3 + x4 + x5;
            assert(x0 + x1 + x2 + x3 + x4 + x5 =~= front + x0 + rest);
            assert(y0 + y1 + y2 + y3 + y4 + y5 =~= front + y0 + rest);
            lemma_between(front, x0, y0, rest);
        }
    }
    assert(x0 == y0 && x2 == y2 && x3 == y3 && x4 == y4 && x5 == y5 ==> x1 == y1) by {
        if x0 == y0 && x2 == y2 && x3 == y3 && x4 == y4 && x5 == y5 {
            let front = x0;
            let rest = x2 + x3 + x4 + x5;
            assert(x0 + x1 + x2 + x3 + x4 + x5 =~= front + x1 + rest);
            assert(y0 + y1 + y2 + y3 + y4 + y5 =~= front + y1 + rest);
            lemma_between(front, x1, y1, rest);
        }
    }
    assert(x0 == y0 && x1 == y1 && x3 == y3 && x4 == y4 && x5 == y5 ==> x2 == y2) by {
        if x0 == y0 && x1 == y1 && x3 == y3 && x4 == y4 && x5 == y5 {
            let front = x0 + x1;
            let rest = x3 + x4 + x5;
            assert(x0 + x1 + x2 + x3 + x4 + x5 =~= front + x2 + rest);
            assert(y0 + y1 + y2 + y3 + y4 + y5 =~= front + y2 + rest);
            lemma_between(front, x2, y2, rest);
        }
    }
    assert(x0 == y0 && x1 == y1 && x2 == y2 && x4 == y4 && x5 == y5 ==> x3 == y3) by {
        if x0 == y0 && x1 == y1 && x2 == y2 && x4 == y4 && x5 == y5 {
            let front = x0 + x1 + x2;
            let rest = x4 + x5;
            assert(x0 + x1 + x2 + x3 + x4 + x5 =~= front + x3 + rest);
            assert(y0 + y1 + y2 + y3 + y4 + y5 =~= front + y3 + rest);
            lemma_between(front, x3, y3, rest);
        }
    }
    assert(x0 == y0 && x1 == y1 && x2 == y2 && x3 == y3 && x5 == y5 ==> x4 == y4) by {
        if x0 == y0 && x1 == y1 && x2 == y2 && x3 == y3 && x5 == y5 {
            let front = x0 + x1 + x2 + x3;
            let rest = x5;
            assert(x0 + x1 + x2 + x3 + x4 + x5 =~= front + x4 + rest);
            assert(y0 + y1 + y2 + y3 + y4 + y5 =~= front + y4 + rest);
            lemma_between(front, x4, y4, rest);
        }
    }
    assert(x0 == y0 && x1 == y1 && x2 == y2 && x3 == y3 && x4 == y4 ==> x5 == y5) by {
        if x0 == y0 && x1 == y1 && x2 == y2 && x3 == y3 && x4 == y4 {
            let front = x0 + x1 + x2 + x3 + x4;
            let rest = Seq::<u8>::empty();
            assert(x0 + x1 + x2 + x3 + x4 + x5 =~= front + x5 + rest);
            assert(y0 + y1 + y2 + y3 + y4 + y5 =~= front + y5 + rest);
            lemma_between(front, x5, y5, rest);
        }
    }
}

/// What stands between the same bytes is the same.
proof fn lemma_between(front: Seq<u8>, x: Seq<u8>, y: Seq<u8>, rest: Seq<u8>)
    requires
        front + x + rest == front + y + rest,
    ensures
        x == y,
{
    let s = front + x + rest;
    let t = front + y + rest;
    assert(s.len() == front.len() + x.len() + rest.len());
    assert(t.len() == front.len() + y.len() + rest.len());
    assert(x.len() == y.len());
    assert forall|i: int| 0 <= i < x.len() implies x[i] == y[i] by {
        assert(s[front.len() + i] == x[i]);
        assert(t[front.len() + i] == y[i]);
    }
    assert(x =~= y);
}

/// Fields of one label are the same just for the same value.
proof fn lemma_field(label: Seq<char>, x: Seq<u8>, y: Seq<u8>)
    requires
        fp_field(label, x) == fp_field(label, y),
    ensures
        x == y,
{
    let l = encode_utf8(label).push(0u8);
    assert(fp_field(label, x) =~= l + x + seq![0u8]);
    assert(fp_field(label, y) =~= l + y + seq![0u8]);
    lemma_between(l, x, y, seq![0u8]);
}

/// Texts with the same bytes are the same.
proof fn lemma_same_text(a: Seq<char>, b: Seq<char>)
    requires
        encode_utf8(a) == encode_utf8(b),
    ensures
        a == b,
{
    encode_utf8_decode_utf8(a);
    encode_utf8_decode_utf8(b);
}

/// A root that is applied was at the generation expected; else it is busy, and its
/// new generation, space and configuration are on record from then on.
pub proof fn law_applied_root_was_as_expected(
    db: DocumentCacheView,
    root: RootApplyView,
    now: i64,
)
    ensures
        generation_of(db.roots, root.fingerprint.alias) != root.expected_generation
            ==> root_applied(
            db,
            root,
            now,
        ) matches Err(BrainErrorView::Busy(_)),
        root.actions.len() == 0 && generation_of(db.roots, root.fingerprint.alias)
            == root.expected_generation && root.expected_generation < i64::MAX ==> (root_applied(
            db,
            root,
            now,
        ) matches Ok(v) && v.documents == db.documents && generation_of(
            v.roots,
            root.fingerprint.alias,
        ) == root.expected_generation + 1 && meta_value(
            v.meta,
            "root_fp::"@ + root.fingerprint.alias,
        ) == Some(root.fingerprint_json)),
{
    let fp = root.fingerprint;
    let current = generation_of(db.roots, fp.alias);
    if current == root.expected_generation && current < i64::MAX {
        let after = root_written(db.roots, fp, (current + 1) as i64, now);
        law_scanned_root_is_on_record(db.roots, fp, (current + 1) as i64, now);
        lemma_first_is(after, root_named(fp.alias));
        let i = choose|i: int| 0 <= i < after.len() && (#[trigger] after[i]).alias == fp.alias;
        assert(root_named(fp.alias)(after[i]));
        let r = first_where(after, root_named(fp.alias))->Some_0;
        let k = choose|k: int| 0 <= k < after.len() && after[k] == r;
        assert(after[k].alias == fp.alias);
        crate::documents::law_meta_reads_back(db.meta, fp_key(fp.alias), root.fingerprint_json);
    }
}

/// A purged space takes along what hangs on it: the vectors of its chunks, the index
/// rows of its texts and the files of its roots; all else of these stays.
pub proof fn law_purge_takes_what_hangs_on_the_space(db: DocumentCacheView, space: Seq<char>)
    ensures
        ({
            let after = space_purged(db, space);
            &&& forall|v: DocVectorRowView| #[trigger]
                after.vectors.contains(v) <==> db.vectors.contains(v) && !exists|i: int|
                    0 <= i < db.chunks.len() && (#[trigger] db.chunks[i]).id == v.chunk_id
                        && db.chunks[i].space == space
            &&& forall|m: ManifestRowView| #[trigger]
                after.manifest.contains(m) <==> db.manifest.contains(m) && !exists|i: int|
                    0 <= i < db.roots.len() && (#[trigger] db.roots[i]).alias == m.root_alias
                        && db.roots[i].space == space
            &&& forall|t: DocTextRowView| #[trigger]
                after.fts_word.contains(t) <==> db.fts_word.contains(t) && !exists|i: int|
                    0 <= i < db.texts.len() && (#[trigger] db.texts[i]).rowid == t.rowid
                        && db.texts[i].space == space
            &&& forall|t: DocTextRowView| #[trigger]
                after.fts_ngram.contains(t) <==> db.fts_ngram.contains(t) && !exists|i: int|
                    0 <= i < db.texts.len() && (#[trigger] db.texts[i]).rowid == t.rowid
                        && db.texts[i].space == space
            &&& forall|d: DocumentRowView| #[trigger]
                after.documents.contains(d) <==> db.documents.contains(d) && d.space != space
            &&& forall|c: DocChunkRowView| #[trigger]
                after.chunks.contains(c) <==> db.chunks.contains(c) && c.space != space
            &&& forall|t: DocTextRowView| #[trigger]
                after.texts.contains(t) <==> db.texts.contains(t) && t.space != space
            &&& forall|r: RootRowView| #[trigger]
                after.roots.contains(r) <==> db.roots.contains(r) && r.space != space
            &&& after.meta == db.meta
        }),
{
    let rowids = db.texts.filter(doc_text_in(space)).map_values(rowid_of());
    let chunks = db.chunks.filter(doc_chunk_in(space)).map_values(chunk_id_of());
    let aliases = db.roots.filter(root_in(space)).map_values(alias_of());
    lemma_got(db.texts, doc_text_in(space), rowid_of());
    lemma_got(db.chunks, doc_chunk_in(space), chunk_id_of());
    lemma_got(db.roots, root_in(space), alias_of());
    assert forall|n: i64| #[trigger] rowids.contains(n) <==> exists|i: int|
        0 <= i < db.texts.len() && (#[trigger] db.texts[i]).rowid == n && db.texts[i].space
            == space by {
        if exists|i: int|
            0 <= i < db.texts.len() && (#[trigger] db.texts[i]).rowid == n && db.texts[i].space
                == space {
            let i = choose|i: int|
                0 <= i < db.texts.len() && (#[trigger] db.texts[i]).rowid == n && db.texts[i].space
                    == space;
            assert(doc_text_in(space)(db.texts[i]) && rowid_of()(db.texts[i]) == n);
        }
    }
    assert forall|id: Seq<char>| #[trigger] chunks.contains(id) <==> exists|i: int|
        0 <= i < db.chunks.len() && (#[trigger] db.chunks[i]).id == id && db.chunks[i].space
            == space by {
        if exists|i: int|
            0 <= i < db.chunks.len() && (#[trigger] db.chunks[i]).id == id && db.chunks[i].space
                == space {
            let i = choose|i: int|
                0 <= i < db.chunks.len() && (#[trigger] db.chunks[i]).id == id
                    && db.chunks[i].space == space;
            assert(doc_chunk_in(space)(db.chunks[i]) && chunk_id_of()(db.chunks[i]) == id);
        }
    }
    assert forall|a: Seq<char>| #[trigger] aliases.contains(a) <==> exists|i: int|
        0 <= i < db.roots.len() && (#[trigger] db.roots[i]).alias == a && db.roots[i].space
            == space by {
        if exists|i: int|
            0 <= i < db.roots.len() && (#[trigger] db.roots[i]).alias == a && db.roots[i].space
                == space {
            let i = choose|i: int|
                0 <= i < db.roots.len() && (#[trigger] db.roots[i]).alias == a && db.roots[i].space
                    == space;
            assert(root_in(space)(db.roots[i]) && alias_of()(db.roots[i]) == a);
        }
    }
    let p = |t: DocTextRowView| !rowids.contains(t.rowid);
    let q = |v: DocVectorRowView| !chunks.contains(v.chunk_id);
    let o = |m: ManifestRowView| !aliases.contains(m.root_alias);
    lemma_selected(db.fts_word, p);
    lemma_selected(db.fts_ngram, p);
    lemma_selected(db.vectors, q);
    lemma_selected(db.manifest, o);
    let t = |t: DocTextRowView| t.space != space;
    let c = |c: DocChunkRowView| c.space != space;
    let d = |d: DocumentRowView| d.space != space;
    let r = |r: RootRowView| r.space != space;
    lemma_selected(db.texts, t);
    lemma_selected(db.chunks, c);
    lemma_selected(db.documents, d);
    lemma_selected(db.roots, r);
}

/// The roots of a cache are listed in the order of their aliases.
pub proof fn law_roots_are_listed_by_alias(rows: Seq<CachedRootView>)
    ensures
        ({
            let r = ordered(rows, by_alias());
            &&& r.len() == rows.len()
            &&& forall|x: CachedRootView| #[trigger] r.contains(x) <==> rows.contains(x)
            &&& forall|i: int, j: int|
                0 <= i < j < r.len() ==> text_le((#[trigger] r[i]).alias, (#[trigger] r[j]).alias)
        }),
{
    let leq = by_alias();
    assert(is_order(leq)) by {
        assert forall|a: CachedRootView, b: CachedRootView| #[trigger] leq(a, b) || leq(b, a) by {
            crate::text::lemma_text_total(a.alias, b.alias);
        }
        assert forall|a: CachedRootView, b: CachedRootView, c: CachedRootView| #[trigger] leq(a, b)
            && #[trigger] leq(b, c) implies leq(a, c) by {
            crate::text::lemma_text_transitive(a.alias, b.alias, c.alias);
        }
    }
    lemma_ordered_members(rows, leq);
    lemma_ordered_in_order(rows, leq);
    let r = ordered(rows, leq);
    assert forall|i: int, j: int| 0 <= i < j < r.len() implies text_le(
        (#[trigger] r[i]).alias,
        (#[trigger] r[j]).alias,
    ) by {
        assert(leq(r[i], r[j]));
    }
}

} // verus!
