//! The document cache: verbatim chunks of files, their texts and index rows,
//! and the manifest of what was indexed.
//!
//! A root is a directory that is indexed under an alias. Applying a plan is one
//! transaction: removals cascade through vectors, index rows, texts, chunks,
//! documents and manifest to the root itself; a root that moved on since the
//! plan was made is busy; and any error leaves the cache as it was.
use vstd::bytes::{spec_u64_to_le_bytes, u64_to_le_bytes};
use vstd::prelude::*;
use vstd::utf8::encode_utf8;

use crate::digest::{blake3_stream, blake3_xof, hex_encode, hex_text};
use crate::error::{fails_with, BrainError, BrainErrorView};
use crate::migration::{first_missing, pending_versions};
use crate::rows::{
    count, delete, dup_rows, find, first_n, first_where, holds, insert_or_replace, limited,
    map_rows, or_replace, order, ordered, pick, select, some_where, update, updated, Row,
};
use crate::tables::{dup_bytes, dup_text, MetaRow, MetaRowView};
use crate::text::{cat2, cat3, cat4, cat5, int_text, show_i64, str_eq, str_le, text_le};

verus! {

/// The version of the cache's schema.
pub const DOCUMENTS_SCHEMA_VERSION: i64 = 2;

/// The number of components of an embedding.
pub const EMBEDDING_DIM: usize = 1024;

/// The name of the table of a full-text index.
pub fn doc_fts_table(table: FtsTable) -> (r: &'static str)
    ensures
        r@ == match table {
            FtsTable::Word => "doc_fts_word"@,
            FtsTable::Ngram => "doc_fts_ngram"@,
        },
{
    match table {
        FtsTable::Word => "doc_fts_word",
        FtsTable::Ngram => "doc_fts_ngram",
    }
}

/// Which full-text index a lexical search targets.
#[derive(Debug, Clone, Copy, PartialEq, Eq, Structural)]
pub enum FtsTable {
    /// Words.
    Word,
    /// Trigrams.
    Ngram,
}

/// A row of `doc_roots`.
#[derive(Debug)]
pub struct RootRow {
    pub alias: String,
    pub space: String,
    pub config_hash: String,
    pub generation: i64,
    pub head_revision: Option<String>,
    pub scanned_at: i64,
}

/// [`RootRow`] as a mathematical value.
#[verifier::ext_equal]
pub struct RootRowView {
    pub alias: Seq<char>,
    pub space: Seq<char>,
    pub config_hash: Seq<char>,
    pub generation: i64,
    pub head_revision: Option<Seq<char>>,
    pub scanned_at: i64,
}

impl DeepView for RootRow {
    type V = RootRowView;

    open spec fn deep_view(&self) -> RootRowView {
        RootRowView {
            alias: self.alias@,
            space: self.space@,
            config_hash: self.config_hash@,
            generation: self.generation,
            head_revision: self.head_revision.deep_view(),
            scanned_at: self.scanned_at,
        }
    }
}

impl Row for RootRow {
    fn dup(&self) -> (r: Self) {
        RootRow {
            alias: self.alias.clone(),
            space: self.space.clone(),
            config_hash: self.config_hash.clone(),
            generation: self.generation,
            head_revision: dup_text(&self.head_revision),
            scanned_at: self.scanned_at,
        }
    }
}

impl Clone for RootRow {
    fn clone(&self) -> (r: Self)
        ensures
            r.deep_view() == self.deep_view(),
    {
        self.dup()
    }
}

/// A row of `documents`.
#[derive(Debug)]
pub struct DocumentRow {
    pub id: String,
    pub root_alias: String,
    pub space: String,
    pub locator: String,
    pub revision: String,
    pub media_type: String,
    pub bytes: i64,
    pub modified_at: i64,
    pub indexed_at: i64,
}

/// [`DocumentRow`] as a mathematical value.
#[verifier::ext_equal]
pub struct DocumentRowView {
    pub id: Seq<char>,
    pub root_alias: Seq<char>,
    pub space: Seq<char>,
    pub locator: Seq<char>,
    pub revision: Seq<char>,
    pub media_type: Seq<char>,
    pub bytes: i64,
    pub modified_at: i64,
    pub indexed_at: i64,
}

impl DeepView for DocumentRow {
    type V = DocumentRowView;

    open spec fn deep_view(&self) -> DocumentRowView {
        DocumentRowView {
            id: self.id@,
            root_alias: self.root_alias@,
            space: self.space@,
            locator: self.locator@,
            revision: self.revision@,
            media_type: self.media_type@,
            bytes: self.bytes,
            modified_at: self.modified_at,
            indexed_at: self.indexed_at,
        }
    }
}

impl Row for DocumentRow {
    fn dup(&self) -> (r: Self) {
        DocumentRow {
            id: self.id.clone(),
            root_alias: self.root_alias.clone(),
            space: self.space.clone(),
            locator: self.locator.clone(),
            revision: self.revision.clone(),
            media_type: self.media_type.clone(),
            bytes: self.bytes,
            modified_at: self.modified_at,
            indexed_at: self.indexed_at,
        }
    }
}

impl Clone for DocumentRow {
    fn clone(&self) -> (r: Self)
        ensures
            r.deep_view() == self.deep_view(),
    {
        self.dup()
    }
}

/// A row of `doc_chunks`: a byte span of a document.
#[derive(Debug)]
pub struct DocChunkRow {
    pub id: String,
    pub document_id: String,
    pub space: String,
    pub ordinal: i64,
    pub span_start: i64,
    pub span_end: i64,
    pub context: String,
}

/// [`DocChunkRow`] as a mathematical value.
#[verifier::ext_equal]
pub struct DocChunkRowView {
    pub id: Seq<char>,
    pub document_id: Seq<char>,
    pub space: Seq<char>,
    pub ordinal: i64,
    pub span_start: i64,
    pub span_end: i64,
    pub context: Seq<char>,
}

impl DeepView for DocChunkRow {
    type V = DocChunkRowView;

    open spec fn deep_view(&self) -> DocChunkRowView {
        DocChunkRowView {
            id: self.id@,
            document_id: self.document_id@,
            space: self.space@,
            ordinal: self.ordinal,
            span_start: self.span_start,
            span_end: self.span_end,
            context: self.context@,
        }
    }
}

impl Row for DocChunkRow {
    fn dup(&self) -> (r: Self) {
        DocChunkRow {
            id: self.id.clone(),
            document_id: self.document_id.clone(),
            space: self.space.clone(),
            ordinal: self.ordinal,
            span_start: self.span_start,
            span_end: self.span_end,
            context: self.context.clone(),
        }
    }
}

impl Clone for DocChunkRow {
    fn clone(&self) -> (r: Self)
        ensures
            r.deep_view() == self.deep_view(),
    {
        self.dup()
    }
}

/// A row of `doc_texts`, or of an index over it.
#[derive(Debug)]
pub struct DocTextRow {
    pub rowid: i64,
    pub body: String,
    pub space: String,
    pub chunk_id: String,
}

/// [`DocTextRow`] as a mathematical value.
#[verifier::ext_equal]
pub struct DocTextRowView {
    pub rowid: i64,
    pub body: Seq<char>,
    pub space: Seq<char>,
    pub chunk_id: Seq<char>,
}

impl DeepView for DocTextRow {
    type V = DocTextRowView;

    open spec fn deep_view(&self) -> DocTextRowView {
        DocTextRowView {
            rowid: self.rowid,
            body: self.body@,
            space: self.space@,
            chunk_id: self.chunk_id@,
        }
    }
}

impl Row for DocTextRow {
    fn dup(&self) -> (r: Self) {
        DocTextRow {
            rowid: self.rowid,
            body: self.body.clone(),
            space: self.space.clone(),
            chunk_id: self.chunk_id.clone(),
        }
    }
}

impl Clone for DocTextRow {
    fn clone(&self) -> (r: Self)
        ensures
            r.deep_view() == self.deep_view(),
    {
        self.dup()
    }
}

/// A row of `doc_manifest`.
#[derive(Debug)]
pub struct ManifestRow {
    pub root_alias: String,
    pub locator: String,
    pub bytes: i64,
    pub modified_ns: i64,
    pub revision: String,
}

/// [`ManifestRow`] as a mathematical value.
#[verifier::ext_equal]
pub struct ManifestRowView {
    pub root_alias: Seq<char>,
    pub locator: Seq<char>,
    pub bytes: i64,
    pub modified_ns: i64,
    pub revision: Seq<char>,
}

impl DeepView for ManifestRow {
    type V = ManifestRowView;

    open spec fn deep_view(&self) -> ManifestRowView {
        ManifestRowView {
            root_alias: self.root_alias@,
            locator: self.locator@,
            bytes: self.bytes,
            modified_ns: self.modified_ns,
            revision: self.revision@,
        }
    }
}

impl Row for ManifestRow {
    fn dup(&self) -> (r: Self) {
        ManifestRow {
            root_alias: self.root_alias.clone(),
            locator: self.locator.clone(),
            bytes: self.bytes,
            modified_ns: self.modified_ns,
            revision: self.revision.clone(),
        }
    }
}

impl Clone for ManifestRow {
    fn clone(&self) -> (r: Self)
        ensures
            r.deep_view() == self.deep_view(),
    {
        self.dup()
    }
}

/// A row of `doc_vectors`.
#[derive(Debug)]
pub struct DocVectorRow {
    pub chunk_id: String,
    pub embedding: Vec<u8>,
}

/// [`DocVectorRow`] as a mathematical value.
#[verifier::ext_equal]
pub struct DocVectorRowView {
    pub chunk_id: Seq<char>,
    pub embedding: Seq<u8>,
}

impl DeepView for DocVectorRow {
    type V = DocVectorRowView;

    open spec fn deep_view(&self) -> DocVectorRowView {
        DocVectorRowView {
            chunk_id: self.chunk_id@,
            embedding: self.embedding@,
        }
    }
}

impl Row for DocVectorRow {
    fn dup(&self) -> (r: Self) {
        DocVectorRow {
            chunk_id: self.chunk_id.clone(),
            embedding: dup_bytes(&self.embedding),
        }
    }
}

impl Clone for DocVectorRow {
    fn clone(&self) -> (r: Self)
        ensures
            r.deep_view() == self.deep_view(),
    {
        self.dup()
    }
}

/// The tables of the document cache, in insertion order.
pub struct DocumentCache {
    /// Indexed roots.
    pub roots: Vec<RootRow>,
    /// Documents.
    pub documents: Vec<DocumentRow>,
    /// Chunks of documents.
    pub chunks: Vec<DocChunkRow>,
    /// The one copy of each chunk text.
    pub texts: Vec<DocTextRow>,
    /// Word index over the texts.
    pub fts_word: Vec<DocTextRow>,
    /// Trigram index over the texts.
    pub fts_ngram: Vec<DocTextRow>,
    /// Files that were indexed.
    pub manifest: Vec<ManifestRow>,
    /// Embeddings of chunks.
    pub vectors: Vec<DocVectorRow>,
    /// Key-value settings.
    pub meta: Vec<MetaRow>,
}

/// [`DocumentCache`] as mathematical tables.
#[verifier::ext_equal]
pub struct DocumentCacheView {
    pub roots: Seq<RootRowView>,
    pub documents: Seq<DocumentRowView>,
    pub chunks: Seq<DocChunkRowView>,
    pub texts: Seq<DocTextRowView>,
    pub fts_word: Seq<DocTextRowView>,
    pub fts_ngram: Seq<DocTextRowView>,
    pub manifest: Seq<ManifestRowView>,
    pub vectors: Seq<DocVectorRowView>,
    pub meta: Seq<MetaRowView>,
}

impl DeepView for DocumentCache {
    type V = DocumentCacheView;

    open spec fn deep_view(&self) -> DocumentCacheView {
        DocumentCacheView {
            roots: self.roots.deep_view(),
            documents: self.documents.deep_view(),
            chunks: self.chunks.deep_view(),
            texts: self.texts.deep_view(),
            fts_word: self.fts_word.deep_view(),
            fts_ngram: self.fts_ngram.deep_view(),
            manifest: self.manifest.deep_view(),
            vectors: self.vectors.deep_view(),
            meta: self.meta.deep_view(),
        }
    }
}

impl DocumentCache {
    /// No rows in any table.
    pub fn new() -> (r: Self)
        ensures
            r.deep_view().roots == Seq::<RootRowView>::empty(),
            r.deep_view().documents == Seq::<DocumentRowView>::empty(),
            r.deep_view().chunks == Seq::<DocChunkRowView>::empty(),
            r.deep_view().texts == Seq::<DocTextRowView>::empty(),
            r.deep_view().fts_word == Seq::<DocTextRowView>::empty(),
            r.deep_view().fts_ngram == Seq::<DocTextRowView>::empty(),
            r.deep_view().manifest == Seq::<ManifestRowView>::empty(),
            r.deep_view().vectors == Seq::<DocVectorRowView>::empty(),
            r.deep_view().meta == Seq::<MetaRowView>::empty(),
    {
        let r = DocumentCache {
            roots: Vec::new(),
            documents: Vec::new(),
            chunks: Vec::new(),
            texts: Vec::new(),
            fts_word: Vec::new(),
            fts_ngram: Vec::new(),
            manifest: Vec::new(),
            vectors: Vec::new(),
            meta: Vec::new(),
        };
        proof {
            assert(r.roots.deep_view() =~= Seq::<RootRowView>::empty());
            assert(r.documents.deep_view() =~= Seq::<DocumentRowView>::empty());
            assert(r.chunks.deep_view() =~= Seq::<DocChunkRowView>::empty());
            assert(r.texts.deep_view() =~= Seq::<DocTextRowView>::empty());
            assert(r.fts_word.deep_view() =~= Seq::<DocTextRowView>::empty());
            assert(r.fts_ngram.deep_view() =~= Seq::<DocTextRowView>::empty());
            assert(r.manifest.deep_view() =~= Seq::<ManifestRowView>::empty());
            assert(r.vectors.deep_view() =~= Seq::<DocVectorRowView>::empty());
            assert(r.meta.deep_view() =~= Seq::<MetaRowView>::empty());
        }
        r
    }
}

impl Row for DocumentCache {
    fn dup(&self) -> (r: Self) {
        DocumentCache {
            roots: dup_rows(&self.roots),
            documents: dup_rows(&self.documents),
            chunks: dup_rows(&self.chunks),
            texts: dup_rows(&self.texts),
            fts_word: dup_rows(&self.fts_word),
            fts_ngram: dup_rows(&self.fts_ngram),
            manifest: dup_rows(&self.manifest),
            vectors: dup_rows(&self.vectors),
            meta: dup_rows(&self.meta),
        }
    }
}

/// One chunk in a document's decoded text, under the id that it has in the
/// document.
/// 
/// Spans address UTF-8 bytes in the decoded text.
#[derive(Debug)]
pub struct ChunkUpsert {
    pub id: String,
    pub ordinal: u32,
    pub span_start: usize,
    pub span_end: usize,
    pub context: String,
    pub text: String,
}

/// [`ChunkUpsert`] as a mathematical value.
#[verifier::ext_equal]
pub struct ChunkUpsertView {
    pub id: Seq<char>,
    pub ordinal: u32,
    pub span_start: usize,
    pub span_end: usize,
    pub context: Seq<char>,
    pub text: Seq<char>,
}

impl DeepView for ChunkUpsert {
    type V = ChunkUpsertView;

    open spec fn deep_view(&self) -> ChunkUpsertView {
        ChunkUpsertView {
            id: self.id@,
            ordinal: self.ordinal,
            span_start: self.span_start,
            span_end: self.span_end,
            context: self.context@,
            text: self.text@,
        }
    }
}

impl Row for ChunkUpsert {
    fn dup(&self) -> (r: Self) {
        ChunkUpsert {
            id: self.id.clone(),
            ordinal: self.ordinal,
            span_start: self.span_start,
            span_end: self.span_end,
            context: self.context.clone(),
            text: self.text.clone(),
        }
    }
}

impl Clone for ChunkUpsert {
    fn clone(&self) -> (r: Self)
        ensures
            r.deep_view() == self.deep_view(),
    {
        self.dup()
    }
}

/// Manifest and chunks for one file, under the id that the document has in its
/// root.
#[derive(Debug)]
pub struct DocumentUpsert {
    pub id: String,
    pub locator: String,
    pub revision: String,
    /// `text/markdown`, `text/html` or `text/plain`.
    pub media_type: String,
    pub bytes: u64,
    pub modified_ns: i64,
    pub modified_at: i64,
    pub chunks: Vec<ChunkUpsert>,
}

/// [`DocumentUpsert`] as a mathematical value.
#[verifier::ext_equal]
pub struct DocumentUpsertView {
    pub id: Seq<char>,
    pub locator: Seq<char>,
    pub revision: Seq<char>,
    pub media_type: Seq<char>,
    pub bytes: u64,
    pub modified_ns: i64,
    pub modified_at: i64,
    pub chunks: Seq<ChunkUpsertView>,
}

impl DeepView for DocumentUpsert {
    type V = DocumentUpsertView;

    open spec fn deep_view(&self) -> DocumentUpsertView {
        DocumentUpsertView {
            id: self.id@,
            locator: self.locator@,
            revision: self.revision@,
            media_type: self.media_type@,
            bytes: self.bytes,
            modified_ns: self.modified_ns,
            modified_at: self.modified_at,
            chunks: self.chunks.deep_view(),
        }
    }
}

impl Row for DocumentUpsert {
    fn dup(&self) -> (r: Self) {
        DocumentUpsert {
            id: self.id.clone(),
            locator: self.locator.clone(),
            revision: self.revision.clone(),
            media_type: self.media_type.clone(),
            bytes: self.bytes,
            modified_ns: self.modified_ns,
            modified_at: self.modified_at,
            chunks: dup_rows(&self.chunks),
        }
    }
}

impl Clone for DocumentUpsert {
    fn clone(&self) -> (r: Self)
        ensures
            r.deep_view() == self.deep_view(),
    {
        self.dup()
    }
}

/// A file as it was seen on disk.
#[derive(Debug)]
pub struct FileObservation {
    pub locator: String,
    pub bytes: u64,
    pub modified_ns: i64,
    pub revision_hint: Option<String>,
}

/// [`FileObservation`] as a mathematical value.
#[verifier::ext_equal]
pub struct FileObservationView {
    pub locator: Seq<char>,
    pub bytes: u64,
    pub modified_ns: i64,
    pub revision_hint: Option<Seq<char>>,
}

impl DeepView for FileObservation {
    type V = FileObservationView;

    open spec fn deep_view(&self) -> FileObservationView {
        FileObservationView {
            locator: self.locator@,
            bytes: self.bytes,
            modified_ns: self.modified_ns,
            revision_hint: self.revision_hint.deep_view(),
        }
    }
}

impl Row for FileObservation {
    fn dup(&self) -> (r: Self) {
        FileObservation {
            locator: self.locator.clone(),
            bytes: self.bytes,
            modified_ns: self.modified_ns,
            revision_hint: dup_text(&self.revision_hint),
        }
    }
}

impl Clone for FileObservation {
    fn clone(&self) -> (r: Self)
        ensures
            r.deep_view() == self.deep_view(),
    {
        self.dup()
    }
}

/// What is to be done about a file.
#[derive(Debug)]
pub enum FileAction {
    Unchanged,
    Delete { locator: String },
    Add { seen: FileObservation },
    Replace { seen: FileObservation },
    Skip { locator: String, reason: String },
}

/// [`FileAction`] as a mathematical value.
#[verifier::ext_equal]
pub enum FileActionView {
    Unchanged,
    Delete { locator: Seq<char> },
    Add { seen: FileObservationView },
    Replace { seen: FileObservationView },
    Skip { locator: Seq<char>, reason: Seq<char> },
}

impl DeepView for FileAction {
    type V = FileActionView;

    open spec fn deep_view(&self) -> FileActionView {
        match self {
            FileAction::Unchanged => FileActionView::Unchanged,
            FileAction::Delete { locator } => FileActionView::Delete { locator: locator@ },
            FileAction::Add { seen } => FileActionView::Add { seen: seen.deep_view() },
            FileAction::Replace { seen } => FileActionView::Replace { seen: seen.deep_view() },
            FileAction::Skip { locator, reason } => FileActionView::Skip {
                locator: locator@,
                reason: reason@,
            },
        }
    }
}

impl Row for FileAction {
    fn dup(&self) -> (r: Self) {
        match self {
            FileAction::Unchanged => FileAction::Unchanged,
            FileAction::Delete { locator } => FileAction::Delete { locator: locator.clone() },
            FileAction::Add { seen } => FileAction::Add { seen: seen.dup() },
            FileAction::Replace { seen } => FileAction::Replace { seen: seen.dup() },
            FileAction::Skip { locator, reason } => FileAction::Skip {
                locator: locator.clone(),
                reason: reason.clone(),
            },
        }
    }
}

impl Clone for FileAction {
    fn clone(&self) -> (r: Self)
        ensures
            r.deep_view() == self.deep_view(),
    {
        self.dup()
    }
}

/// What is to be done about a root.
#[derive(Debug, Clone, Copy, PartialEq, Eq, Structural)]
pub enum RootAction {
    KeepRoot,
    ResetRoot,
    RemoveRoot,
}

impl DeepView for RootAction {
    type V = RootAction;

    open spec fn deep_view(&self) -> RootAction {
        *self
    }
}

/// What a root was configured with.
#[derive(Debug)]
pub struct RootFingerprint {
    pub alias: String,
    pub canonical_path: String,
    pub space: String,
    pub included: Vec<String>,
    pub excluded: Vec<String>,
    pub max_file_bytes: u64,
}

/// [`RootFingerprint`] as a mathematical value.
#[verifier::ext_equal]
pub struct RootFingerprintView {
    pub alias: Seq<char>,
    pub canonical_path: Seq<char>,
    pub space: Seq<char>,
    pub included: Seq<Seq<char>>,
    pub excluded: Seq<Seq<char>>,
    pub max_file_bytes: u64,
}

impl DeepView for RootFingerprint {
    type V = RootFingerprintView;

    open spec fn deep_view(&self) -> RootFingerprintView {
        RootFingerprintView {
            alias: self.alias@,
            canonical_path: self.canonical_path@,
            space: self.space@,
            included: self.included.deep_view(),
            excluded: self.excluded.deep_view(),
            max_file_bytes: self.max_file_bytes,
        }
    }
}

impl Row for RootFingerprint {
    fn dup(&self) -> (r: Self) {
        RootFingerprint {
            alias: self.alias.clone(),
            canonical_path: self.canonical_path.clone(),
            space: self.space.clone(),
            included: dup_rows(&self.included),
            excluded: dup_rows(&self.excluded),
            max_file_bytes: self.max_file_bytes,
        }
    }
}

impl Clone for RootFingerprint {
    fn clone(&self) -> (r: Self)
        ensures
            r.deep_view() == self.deep_view(),
    {
        self.dup()
    }
}

/// The work for one root, once any reset of it was done.
/// 
/// `fingerprint_json` is the JSON text of the fingerprint.
#[derive(Debug)]
pub struct RootApply {
    pub fingerprint: RootFingerprint,
    pub fingerprint_json: String,
    pub expected_generation: i64,
    pub actions: Vec<FileAction>,
    pub upserts: Vec<DocumentUpsert>,
}

/// [`RootApply`] as a mathematical value.
#[verifier::ext_equal]
pub struct RootApplyView {
    pub fingerprint: RootFingerprintView,
    pub fingerprint_json: Seq<char>,
    pub expected_generation: i64,
    pub actions: Seq<FileActionView>,
    pub upserts: Seq<DocumentUpsertView>,
}

impl DeepView for RootApply {
    type V = RootApplyView;

    open spec fn deep_view(&self) -> RootApplyView {
        RootApplyView {
            fingerprint: self.fingerprint.deep_view(),
            fingerprint_json: self.fingerprint_json@,
            expected_generation: self.expected_generation,
            actions: self.actions.deep_view(),
            upserts: self.upserts.deep_view(),
        }
    }
}

impl Row for RootApply {
    fn dup(&self) -> (r: Self) {
        RootApply {
            fingerprint: self.fingerprint.dup(),
            fingerprint_json: self.fingerprint_json.clone(),
            expected_generation: self.expected_generation,
            actions: dup_rows(&self.actions),
            upserts: dup_rows(&self.upserts),
        }
    }
}

impl Clone for RootApply {
    fn clone(&self) -> (r: Self)
        ensures
            r.deep_view() == self.deep_view(),
    {
        self.dup()
    }
}

/// Input plan for one atomic apply: what becomes of each root, then the work
/// for each root that stays.
#[derive(Debug)]
pub struct ApplyPlan {
    pub root_actions: Vec<(String, RootAction)>,
    pub roots: Vec<RootApply>,
}

/// [`ApplyPlan`] as a mathematical value.
#[verifier::ext_equal]
pub struct ApplyPlanView {
    pub root_actions: Seq<(Seq<char>, RootAction)>,
    pub roots: Seq<RootApplyView>,
}

impl DeepView for ApplyPlan {
    type V = ApplyPlanView;

    open spec fn deep_view(&self) -> ApplyPlanView {
        ApplyPlanView {
            root_actions: self.root_actions.deep_view(),
            roots: self.roots.deep_view(),
        }
    }
}

/// A chunk with what is needed to find its document.
#[derive(Debug)]
pub struct CachedChunk {
    pub chunk_id: String,
    pub document_id: String,
    pub root_alias: String,
    pub space: String,
    pub locator: String,
    pub revision: String,
    pub media_type: String,
    pub ordinal: u32,
    pub span_start: usize,
    pub span_end: usize,
    pub modified_at: i64,
}

/// [`CachedChunk`] as a mathematical value.
#[verifier::ext_equal]
pub struct CachedChunkView {
    pub chunk_id: Seq<char>,
    pub document_id: Seq<char>,
    pub root_alias: Seq<char>,
    pub space: Seq<char>,
    pub locator: Seq<char>,
    pub revision: Seq<char>,
    pub media_type: Seq<char>,
    pub ordinal: u32,
    pub span_start: usize,
    pub span_end: usize,
    pub modified_at: i64,
}

impl DeepView for CachedChunk {
    type V = CachedChunkView;

    open spec fn deep_view(&self) -> CachedChunkView {
        CachedChunkView {
            chunk_id: self.chunk_id@,
            document_id: self.document_id@,
            root_alias: self.root_alias@,
            space: self.space@,
            locator: self.locator@,
            revision: self.revision@,
            media_type: self.media_type@,
            ordinal: self.ordinal,
            span_start: self.span_start,
            span_end: self.span_end,
            modified_at: self.modified_at,
        }
    }
}

impl Row for CachedChunk {
    fn dup(&self) -> (r: Self) {
        CachedChunk {
            chunk_id: self.chunk_id.clone(),
            document_id: self.document_id.clone(),
            root_alias: self.root_alias.clone(),
            space: self.space.clone(),
            locator: self.locator.clone(),
            revision: self.revision.clone(),
            media_type: self.media_type.clone(),
            ordinal: self.ordinal,
            span_start: self.span_start,
            span_end: self.span_end,
            modified_at: self.modified_at,
        }
    }
}

impl Clone for CachedChunk {
    fn clone(&self) -> (r: Self)
        ensures
            r.deep_view() == self.deep_view(),
    {
        self.dup()
    }
}

/// A root as the cache knows it, with the JSON text of its fingerprint.
#[derive(Debug)]
pub struct CachedRoot {
    pub alias: String,
    pub space: String,
    pub fingerprint_json: String,
    pub generation: i64,
}

/// [`CachedRoot`] as a mathematical value.
#[verifier::ext_equal]
pub struct CachedRootView {
    pub alias: Seq<char>,
    pub space: Seq<char>,
    pub fingerprint_json: Seq<char>,
    pub generation: i64,
}

impl DeepView for CachedRoot {
    type V = CachedRootView;

    open spec fn deep_view(&self) -> CachedRootView {
        CachedRootView {
            alias: self.alias@,
            space: self.space@,
            fingerprint_json: self.fingerprint_json@,
            generation: self.generation,
        }
    }
}

impl Row for CachedRoot {
    fn dup(&self) -> (r: Self) {
        CachedRoot {
            alias: self.alias.clone(),
            space: self.space.clone(),
            fingerprint_json: self.fingerprint_json.clone(),
            generation: self.generation,
        }
    }
}

impl Clone for CachedRoot {
    fn clone(&self) -> (r: Self)
        ensures
            r.deep_view() == self.deep_view(),
    {
        self.dup()
    }
}

/// A file as the manifest knows it.
#[derive(Debug)]
pub struct CachedFile {
    pub locator: String,
    pub bytes: u64,
    pub modified_ns: i64,
    pub revision: String,
}

/// [`CachedFile`] as a mathematical value.
#[verifier::ext_equal]
pub struct CachedFileView {
    pub locator: Seq<char>,
    pub bytes: u64,
    pub modified_ns: i64,
    pub revision: Seq<char>,
}

impl DeepView for CachedFile {
    type V = CachedFileView;

    open spec fn deep_view(&self) -> CachedFileView {
        CachedFileView {
            locator: self.locator@,
            bytes: self.bytes,
            modified_ns: self.modified_ns,
            revision: self.revision@,
        }
    }
}

impl Row for CachedFile {
    fn dup(&self) -> (r: Self) {
        CachedFile {
            locator: self.locator.clone(),
            bytes: self.bytes,
            modified_ns: self.modified_ns,
            revision: self.revision.clone(),
        }
    }
}

impl Clone for CachedFile {
    fn clone(&self) -> (r: Self)
        ensures
            r.deep_view() == self.deep_view(),
    {
        self.dup()
    }
}

/// Selects the row of a root.
pub open spec fn root_named(alias: Seq<char>) -> spec_fn(RootRowView) -> bool {
    |r: RootRowView| r.alias == alias
}

/// The generation of a root, or zero where there is none.
pub open spec fn generation_of(roots: Seq<RootRowView>, alias: Seq<char>) -> i64 {
    match first_where(roots, root_named(alias)) {
        Some(r) => r.generation,
        None => 0,
    }
}

/// The ids of the documents of a root, of one file where a locator is given.
pub open spec fn document_ids(
    db: DocumentCacheView,
    alias: Seq<char>,
    locator: Option<Seq<char>>,
) -> Seq<Seq<char>> {
    db.documents.filter(document_at(alias, locator)).map_values(document_id_of())
}

/// Selects the documents of a root, of one file where a locator is given.
pub open spec fn document_at(
    alias: Seq<char>,
    locator: Option<Seq<char>>,
) -> spec_fn(DocumentRowView) -> bool {
    |d: DocumentRowView|
        d.root_alias == alias && match locator {
            Some(l) => d.locator == l,
            None => true,
        }
}

/// The id of a document.
pub open spec fn document_id_of() -> spec_fn(DocumentRowView) -> Seq<char> {
    |d: DocumentRowView| d.id
}

/// Selects the chunks of the listed documents.
pub open spec fn chunk_of_any(documents: Seq<Seq<char>>) -> spec_fn(DocChunkRowView) -> bool {
    |c: DocChunkRowView| documents.contains(c.document_id)
}

/// The id of a chunk.
pub open spec fn chunk_id_of() -> spec_fn(DocChunkRowView) -> Seq<char> {
    |c: DocChunkRowView| c.id
}

/// The ids of the chunks of the listed documents.
pub open spec fn chunk_ids(db: DocumentCacheView, documents: Seq<Seq<char>>) -> Seq<Seq<char>> {
    db.chunks.filter(chunk_of_any(documents)).map_values(chunk_id_of())
}

/// Selects the texts of the listed chunks.
pub open spec fn text_of_any(chunks: Seq<Seq<char>>) -> spec_fn(DocTextRowView) -> bool {
    |t: DocTextRowView| chunks.contains(t.chunk_id)
}

/// The row id of a text.
pub open spec fn rowid_of() -> spec_fn(DocTextRowView) -> i64 {
    |t: DocTextRowView| t.rowid
}

/// The row ids of the texts of the listed chunks.
pub open spec fn text_rowids(db: DocumentCacheView, chunks: Seq<Seq<char>>) -> Seq<i64> {
    db.texts.filter(text_of_any(chunks)).map_values(rowid_of())
}

/// The cache without what hangs on the chunks of the listed documents: their
/// vectors, their index rows, their texts and themselves.
pub open spec fn without_chunks(
    db: DocumentCacheView,
    documents: Seq<Seq<char>>,
) -> DocumentCacheView {
    let chunks = chunk_ids(db, documents);
    let rowids = text_rowids(db, chunks);
    DocumentCacheView {
        vectors: db.vectors.filter(|v: DocVectorRowView| !chunks.contains(v.chunk_id)),
        fts_word: db.fts_word.filter(|t: DocTextRowView| !rowids.contains(t.rowid)),
        fts_ngram: db.fts_ngram.filter(|t: DocTextRowView| !rowids.contains(t.rowid)),
        texts: db.texts.filter(|t: DocTextRowView| !chunks.contains(t.chunk_id)),
        chunks: db.chunks.filter(|c: DocChunkRowView| !documents.contains(c.document_id)),
        ..db
    }
}

fn has_rowid(ids: &Vec<i64>, id: i64) -> (r: bool)
    ensures
        r == ids@.contains(id),
{
    let mut i: usize = 0;
    while i < ids.len()
        invariant
            i <= ids.len(),
            forall|j: int| 0 <= j < i ==> #[trigger] ids@[j] != id,
        decreases ids.len() - i,
    {
        if ids[i] == id {
            assert(ids@[i as int] == id);
            return true;
        }
        i = i + 1;
    }
    false
}

fn delete_chunks(db: &mut DocumentCache, documents: &Vec<String>)
    ensures
        final(db).deep_view() == without_chunks(old(db).deep_view(), documents.deep_view()),
{
    let ghost docs = documents.deep_view();
    let chunks = pick(
        &db.chunks,
        |c: &DocChunkRow| -> (b: bool)
            ensures
                b == chunk_of_any(docs)(c.deep_view())
            { holds(documents, c.document_id.as_str()) },
        |c: &DocChunkRow| -> (s: String)
            ensures
                s.deep_view() == chunk_id_of()(c.deep_view())
            { c.id.clone() },
        Ghost(chunk_of_any(docs)),
        Ghost(chunk_id_of()),
    );
    let ghost ids = chunks.deep_view();
    let rowids = pick(
        &db.texts,
        |t: &DocTextRow| -> (b: bool)
            ensures
                b == text_of_any(ids)(t.deep_view())
            { holds(&chunks, t.chunk_id.as_str()) },
        |t: &DocTextRow| -> (i: i64)
            ensures
                i.deep_view() == rowid_of()(t.deep_view())
            { t.rowid },
        Ghost(text_of_any(ids)),
        Ghost(rowid_of()),
    );
    let ghost rows = rowids.deep_view();
    assert(rows =~= rowids@);
    delete(
        &mut db.vectors,
        |v: &DocVectorRow| -> (gone: bool)
            ensures
                gone == ids.contains(v.deep_view().chunk_id)
            { holds(&chunks, v.chunk_id.as_str()) },
        Ghost(|v: DocVectorRowView| !ids.contains(v.chunk_id)),
    );
    delete(
        &mut db.fts_word,
        |t: &DocTextRow| -> (gone: bool)
            ensures
                gone == rows.contains(t.deep_view().rowid)
            { has_rowid(&rowids, t.rowid) },
        Ghost(|t: DocTextRowView| !rows.contains(t.rowid)),
    );
    delete(
        &mut db.fts_ngram,
        |t: &DocTextRow| -> (gone: bool)
            ensures
                gone == rows.contains(t.deep_view().rowid)
            { has_rowid(&rowids, t.rowid) },
        Ghost(|t: DocTextRowView| !rows.contains(t.rowid)),
    );
    delete(
        &mut db.texts,
        |t: &DocTextRow| -> (gone: bool)
            ensures
                gone == ids.contains(t.deep_view().chunk_id)
            { holds(&chunks, t.chunk_id.as_str()) },
        Ghost(|t: DocTextRowView| !ids.contains(t.chunk_id)),
    );
    delete(
        &mut db.chunks,
        |c: &DocChunkRow| -> (gone: bool)
            ensures
                gone == docs.contains(c.deep_view().document_id)
            { holds(documents, c.document_id.as_str()) },
        Ghost(|c: DocChunkRowView| !docs.contains(c.document_id)),
    );
}

/// Selects the manifest rows of a root, of one file where a locator is given.
pub open spec fn manifest_at(
    alias: Seq<char>,
    locator: Option<Seq<char>>,
) -> spec_fn(ManifestRowView) -> bool {
    |m: ManifestRowView|
        m.root_alias == alias && match locator {
            Some(l) => m.locator == l,
            None => true,
        }
}

/// The cache without the documents of a root, or without one file of it.
pub open spec fn without_documents(
    db: DocumentCacheView,
    alias: Seq<char>,
    locator: Option<Seq<char>>,
) -> DocumentCacheView {
    let bare = without_chunks(db, document_ids(db, alias, locator));
    DocumentCacheView {
        documents: bare.documents.filter(
            |d: DocumentRowView| !document_at(alias, locator)(d),
        ),
        manifest: bare.manifest.filter(|m: ManifestRowView| !manifest_at(alias, locator)(m)),
        ..bare
    }
}

fn same_locator(locator: Option<&str>, s: &str) -> (r: bool)
    ensures
        r == match locator {
            Some(l) => s@ == l@,
            None => true,
        },
{
    match locator {
        Some(l) => str_eq(s, l),
        None => true,
    }
}

/// Removes the documents of a root, or one file of it, and everything reachable
/// from them.
fn delete_documents(db: &mut DocumentCache, alias: &str, locator: Option<&str>)
    ensures
        final(db).deep_view() == without_documents(
            old(db).deep_view(),
            alias@,
            crate::redaction::opt_view(locator),
        ),
{
    let ghost loc = crate::redaction::opt_view(locator);
    let documents = pick(
        &db.documents,
        |d: &DocumentRow| -> (b: bool)
            ensures
                b == document_at(alias@, loc)(d.deep_view())
            { str_eq(d.root_alias.as_str(), alias) && same_locator(locator, d.locator.as_str()) },
        |d: &DocumentRow| -> (s: String)
            ensures
                s.deep_view() == document_id_of()(d.deep_view())
            { d.id.clone() },
        Ghost(document_at(alias@, loc)),
        Ghost(document_id_of()),
    );
    delete_chunks(db, &documents);
    delete(
        &mut db.documents,
        |d: &DocumentRow| -> (gone: bool)
            ensures
                gone == document_at(alias@, loc)(d.deep_view())
            { str_eq(d.root_alias.as_str(), alias) && same_locator(locator, d.locator.as_str()) },
        Ghost(|d: DocumentRowView| !document_at(alias@, loc)(d)),
    );
    delete(
        &mut db.manifest,
        |m: &ManifestRow| -> (gone: bool)
            ensures
                gone == manifest_at(alias@, loc)(m.deep_view())
            { str_eq(m.root_alias.as_str(), alias) && same_locator(locator, m.locator.as_str()) },
        Ghost(|m: ManifestRowView| !manifest_at(alias@, loc)(m)),
    );
}

/// The key under which the fingerprint of a root is kept.
pub open spec fn fp_key(alias: Seq<char>) -> Seq<char> {
    "root_fp::"@ + alias
}

/// The key under which the fingerprint of a root is kept.
pub fn root_fp_key(alias: &str) -> (r: String)
    ensures
        r@ == fp_key(alias@),
{
    cat2("root_fp::", alias)
}

/// The cache without a root: without its documents, its fingerprint and its own
/// row.
pub open spec fn without_root(db: DocumentCacheView, alias: Seq<char>) -> DocumentCacheView {
    let bare = without_documents(db, alias, None);
    DocumentCacheView {
        meta: bare.meta.filter(|m: MetaRowView| m.key != fp_key(alias)),
        roots: bare.roots.filter(|r: RootRowView| r.alias != alias),
        ..bare
    }
}

fn remove_root(db: &mut DocumentCache, alias: &str)
    ensures
        final(db).deep_view() == without_root(old(db).deep_view(), alias@),
{
    delete_documents(db, alias, None);
    let key = root_fp_key(alias);
    delete(
        &mut db.meta,
        |m: &MetaRow| -> (gone: bool)
            ensures
                gone == (m.deep_view().key == fp_key(alias@))
            { str_eq(m.key.as_str(), key.as_str()) },
        Ghost(|m: MetaRowView| m.key != fp_key(alias@)),
    );
    delete(
        &mut db.roots,
        |r: &RootRow| -> (gone: bool)
            ensures
                gone == (r.deep_view().alias == alias@)
            { str_eq(r.alias.as_str(), alias) },
        Ghost(|r: RootRowView| r.alias != alias@),
    );
}

/// The cache once each root that is to be removed or reset was removed.
pub open spec fn roots_cleared(
    db: DocumentCacheView,
    actions: Seq<(Seq<char>, RootAction)>,
) -> DocumentCacheView
    decreases actions.len(),
{
    if actions.len() == 0 {
        db
    } else {
        let before = roots_cleared(db, actions.drop_last());
        match actions.last().1 {
            RootAction::KeepRoot => before,
            _ => without_root(before, actions.last().0),
        }
    }
}

/// `format!` with the debug form of a list of texts.
pub uninterp spec fn debug_list(items: Seq<Seq<char>>) -> Seq<char>;

/// `format!` of a list of strings in its debug form: a text that is a function
/// of the strings.
#[verifier::external_body]
fn show_list(items: &Vec<String>) -> (r: String)
    ensures
        r@ == debug_list(items.deep_view()),
{
    format!("{:?}", items)
}

/// A labelled field in the bytes of a fingerprint.
pub open spec fn fp_field(label: Seq<char>, value: Seq<u8>) -> Seq<u8> {
    encode_utf8(label).push(0u8) + value.push(0u8)
}

/// The bytes of a fingerprint: every field behind its label, each ended by a
/// zero byte.
pub open spec fn fp_bytes(fp: RootFingerprintView) -> Seq<u8> {
    fp_field("alias"@, encode_utf8(fp.alias)) + fp_field(
        "canonical_path"@,
        encode_utf8(fp.canonical_path),
    ) + fp_field("space"@, encode_utf8(fp.space)) + fp_field(
        "include"@,
        encode_utf8(debug_list(fp.included)),
    ) + fp_field("exclude"@, encode_utf8(debug_list(fp.excluded))) + fp_field(
        "max_file_bytes"@,
        spec_u64_to_le_bytes(fp.max_file_bytes),
    )
}

fn push_field(out: &mut Vec<u8>, label: &str, value: &[u8])
    ensures
        final(out)@ == old(out)@ + fp_field(label@, value@),
{
    let ghost before = out@;
    push_bytes(out, label.as_bytes());
    out.push(0u8);
    push_bytes(out, value);
    out.push(0u8);
    assert(out@ =~= before + fp_field(label@, value@));
}

/// Adds bytes at the end.
pub(crate) fn push_bytes(out: &mut Vec<u8>, bytes: &[u8])
    ensures
        final(out)@ == old(out)@ + bytes@,
{
    let ghost before = out@;
    let mut i: usize = 0;
    assert(out@ =~= before + bytes@.take(0));
    while i < bytes.len()
        invariant
            i <= bytes.len(),
            out@ == before + bytes@.take(i as int),
        decreases bytes.len() - i,
    {
        out.push(bytes[i]);
        i = i + 1;
        assert(bytes@.take(i as int) =~= bytes@.take(i - 1).push(bytes@[i - 1]));
        assert(out@ =~= before + bytes@.take(i as int));
    }
    assert(bytes@.take(i as int) =~= bytes@);
}

/// The hash of a fingerprint: the hexadecimal form of the BLAKE3 hash of its
/// bytes.
pub open spec fn config_hash(fp: RootFingerprintView) -> Seq<char> {
    hex_text(blake3_stream(fp_bytes(fp), 32))
}

/// Hash the fingerprint fields deterministically.
pub fn config_hash_for(fp: &RootFingerprint) -> (r: String)
    ensures
        r@ == config_hash(fp.deep_view()),
{
    let mut bytes: Vec<u8> = Vec::new();
    push_field(&mut bytes, "alias", fp.alias.as_str().as_bytes());
    push_field(&mut bytes, "canonical_path", fp.canonical_path.as_str().as_bytes());
    push_field(&mut bytes, "space", fp.space.as_str().as_bytes());
    push_field(&mut bytes, "include", show_list(&fp.included).as_str().as_bytes());
    push_field(&mut bytes, "exclude", show_list(&fp.excluded).as_str().as_bytes());
    push_field(
        &mut bytes,
        "max_file_bytes",
        u64_to_le_bytes(fp.max_file_bytes).as_slice(),
    );
    assert(bytes@ =~= fp_bytes(fp.deep_view()));
    hex_encode(blake3_xof(bytes.as_slice(), 32).as_slice())
}

/// The rows of the roots once one was written at a generation: a new row, or
/// the old one with what changed.
pub open spec fn root_written(
    roots: Seq<RootRowView>,
    fp: RootFingerprintView,
    generation: i64,
    now: i64,
) -> Seq<RootRowView> {
    if some_where(roots, root_named(fp.alias)) {
        updated(
            roots,
            root_named(fp.alias),
            |r: RootRowView|
                RootRowView {
                    space: fp.space,
                    config_hash: config_hash(fp),
                    generation,
                    scanned_at: now,
                    ..r
                },
        )
    } else {
        roots.push(
            RootRowView {
                alias: fp.alias,
                space: fp.space,
                config_hash: config_hash(fp),
                generation,
                head_revision: None,
                scanned_at: now,
            },
        )
    }
}

fn write_root(db: &mut DocumentCache, fp: &RootFingerprint, generation: i64, now: i64)
    ensures
        final(db).deep_view() == (DocumentCacheView {
            roots: root_written(old(db).deep_view().roots, fp.deep_view(), generation, now),
            ..old(db).deep_view()
        }),
{
    let ghost f = fp.deep_view();
    let hash = config_hash_for(fp);
    let found = find(
        &db.roots,
        |r: &RootRow| -> (b: bool)
            ensures
                b == root_named(f.alias)(r.deep_view())
            { str_eq(r.alias.as_str(), fp.alias.as_str()) },
        Ghost(root_named(f.alias)),
    );
    if found.is_some() {
        let _n: usize = update(
            &mut db.roots,
            |r: &RootRow| -> (b: bool)
                ensures
                    b == root_named(f.alias)(r.deep_view())
                { str_eq(r.alias.as_str(), fp.alias.as_str()) },
            |r: &RootRow| -> (y: RootRow)
                ensures
                    y.deep_view() == (RootRowView {
                        space: f.space,
                        config_hash: config_hash(f),
                        generation,
                        scanned_at: now,
                        ..r.deep_view()
                    })
                {
                    RootRow {
                        alias: r.alias.clone(),
                        space: fp.space.clone(),
                        config_hash: hash.clone(),
                        generation,
                        head_revision: dup_text(&r.head_revision),
                        scanned_at: now,
                    }
                },
            Ghost(root_named(f.alias)),
            Ghost(
                |r: RootRowView|
                    RootRowView {
                        space: f.space,
                        config_hash: config_hash(f),
                        generation,
                        scanned_at: now,
                        ..r
                    },
            ),
        );
    } else {
        let ghost before = db.roots.deep_view();
        db.roots.push(
            RootRow {
                alias: fp.alias.clone(),
                space: fp.space.clone(),
                config_hash: hash,
                generation,
                head_revision: None,
                scanned_at: now,
            },
        );
        assert(db.roots.deep_view() =~= root_written(before, f, generation, now));
    }
}

/// Selects the setting of a key.
pub open spec fn meta_at(key: Seq<char>) -> spec_fn(MetaRowView) -> bool {
    |m: MetaRowView| m.key == key
}

/// The settings once a key has a value.
pub open spec fn meta_written(
    meta: Seq<MetaRowView>,
    key: Seq<char>,
    value: Seq<char>,
) -> Seq<MetaRowView> {
    if some_where(meta, meta_at(key)) {
        updated(meta, meta_at(key), |m: MetaRowView| MetaRowView { value, ..m })
    } else {
        meta.push(MetaRowView { key, value })
    }
}

/// Gives a key a value.
pub(crate) fn write_meta(meta: &mut Vec<MetaRow>, key: &str, value: &str)
    ensures
        final(meta).deep_view() == meta_written(old(meta).deep_view(), key@, value@),
{
    let found = find(
        meta,
        |m: &MetaRow| -> (b: bool)
            ensures
                b == meta_at(key@)(m.deep_view())
            { str_eq(m.key.as_str(), key) },
        Ghost(meta_at(key@)),
    );
    if found.is_some() {
        let _n: usize = update(
            meta,
            |m: &MetaRow| -> (b: bool)
                ensures
                    b == meta_at(key@)(m.deep_view())
                { str_eq(m.key.as_str(), key) },
            |m: &MetaRow| -> (y: MetaRow)
                ensures
                    y.deep_view() == (MetaRowView { value: value@, ..m.deep_view() })
                { MetaRow { key: m.key.clone(), value: value.to_owned() } },
            Ghost(meta_at(key@)),
            Ghost(|m: MetaRowView| MetaRowView { value: value@, ..m }),
        );
    } else {
        let ghost before = meta.deep_view();
        meta.push(MetaRow { key: key.to_owned(), value: value.to_owned() });
        assert(meta.deep_view() =~= before.push(MetaRowView { key: key@, value: value@ }));
    }
}

/// The value of a key.
pub open spec fn meta_value(meta: Seq<MetaRowView>, key: Seq<char>) -> Option<Seq<char>> {
    match first_where(meta, meta_at(key)) {
        Some(m) => Some(m.value),
        None => None,
    }
}

/// The value of a key.
pub(crate) fn read_meta(meta: &Vec<MetaRow>, key: &str) -> (r: Option<String>)
    ensures
        r.deep_view() == meta_value(meta.deep_view(), key@),
{
    match find(
        meta,
        |m: &MetaRow| -> (b: bool)
            ensures
                b == meta_at(key@)(m.deep_view())
            { str_eq(m.key.as_str(), key) },
        Ghost(meta_at(key@)),
    ) {
        Some(i) => {
            assert(meta.deep_view()[i as int] == meta[i as int].deep_view());
            Some(meta[i].value.clone())
        },
        None => None,
    }
}

/// What was written under a key is what is read under it; every other key reads
/// as before.
pub proof fn law_meta_reads_back(meta: Seq<MetaRowView>, key: Seq<char>, value: Seq<char>)
    ensures
        meta_value(meta_written(meta, key, value), key) == Some(value),
        forall|other: Seq<char>|
            other != key ==> #[trigger] meta_value(meta_written(meta, key, value), other)
                == meta_value(meta, other),
{
    let after = meta_written(meta, key, value);
    assert(meta_value(after, key) == Some(value)) by {
        if some_where(meta, meta_at(key)) {
            let i = choose|i: int| 0 <= i < meta.len() && meta_at(key)(meta[i]);
            assert(meta_at(key)(after[i]));
        } else {
            assert(meta_at(key)(after[meta.len() as int]));
        }
        lemma_meta_first(after, key, value, 0);
    }
    assert forall|other: Seq<char>| other != key implies #[trigger] meta_value(after, other)
        == meta_value(meta, other) by {
        lemma_meta_other(meta, key, value, other, 0);
    }
}

proof fn lemma_meta_first(s: Seq<MetaRowView>, key: Seq<char>, value: Seq<char>, k: int)
    requires
        0 <= k <= s.len(),
        some_where(s, meta_at(key)),
        forall|i: int| 0 <= i < s.len() && (#[trigger] s[i]).key == key ==> s[i].value == value,
        forall|i: int| 0 <= i < k ==> !meta_at(key)(#[trigger] s[i]),
    ensures
        meta_value(s, key) == Some(value),
    decreases s.len() - k,
{
    if k < s.len() && !meta_at(key)(s[k]) {
        lemma_meta_first(s, key, value, k + 1);
    } else {
        crate::rows::lemma_first_where(s, meta_at(key), k);
    }
}

proof fn lemma_meta_other(
    meta: Seq<MetaRowView>,
    key: Seq<char>,
    value: Seq<char>,
    other: Seq<char>,
    k: int,
)
    requires
        other != key,
        0 <= k <= meta.len(),
        forall|i: int| 0 <= i < k ==> !meta_at(other)(#[trigger] meta[i]),
    ensures
        meta_value(meta_written(meta, key, value), other) == meta_value(meta, other),
    decreases meta.len() - k,
{
    let p = meta_at(other);
    let after = meta_written(meta, key, value);
    if k < meta.len() && !p(meta[k]) {
        lemma_meta_other(meta, key, value, other, k + 1);
    } else {
        crate::rows::lemma_first_where(meta, p, k);
        assert forall|i: int| 0 <= i < k implies !p(#[trigger] after[i]) by {
            assert(!p(meta[i]));
        }
        if k < meta.len() {
            assert(after[k] == meta[k]);
            crate::rows::lemma_first_where(after, p, k);
        } else {
            assert forall|i: int| 0 <= i < after.len() implies !p(#[trigger] after[i]) by {
                if i < meta.len() {
                    assert(!p(meta[i]));
                }
            }
            crate::rows::lemma_first_where(after, p, after.len() as int);
        }
    }
}

/// The row of a document.
pub open spec fn document_row(
    alias: Seq<char>,
    space: Seq<char>,
    u: DocumentUpsertView,
    now: i64,
) -> DocumentRowView {
    DocumentRowView {
        id: u.id,
        root_alias: alias,
        space,
        locator: u.locator,
        revision: u.revision,
        media_type: u.media_type,
        bytes: u.bytes as i64,
        modified_at: u.modified_at,
        indexed_at: now,
    }
}

/// The greatest row id among texts, or zero where there is none.
pub open spec fn top_rowid(rows: Seq<DocTextRowView>) -> int
    decreases rows.len(),
{
    if rows.len() == 0 {
        0
    } else {
        let top = top_rowid(rows.drop_last());
        if rows.last().rowid > top {
            rows.last().rowid as int
        } else {
            top
        }
    }
}

fn next_rowid(rows: &Vec<DocTextRow>) -> (r: Option<i64>)
    ensures
        r == if top_rowid(rows.deep_view()) < i64::MAX {
            Some((top_rowid(rows.deep_view()) + 1) as i64)
        } else {
            None
        },
{
    let ghost all = rows.deep_view();
    let mut top: i64 = 0;
    let mut i: usize = 0;
    while i < rows.len()
        invariant
            i <= rows.len(),
            all == rows.deep_view(),
            top == top_rowid(all.take(i as int)),
            0 <= top,
        decreases rows.len() - i,
    {
        proof {
            assert(all.take(i + 1).drop_last() =~= all.take(i as int));
            assert(all.take(i + 1).last() == all[i as int]);
        }
        if rows[i].rowid > top {
            top = rows[i].rowid;
        }
        i = i + 1;
    }
    assert(all.take(i as int) =~= all);
    if top < i64::MAX {
        Some(top + 1)
    } else {
        None
    }
}

/// Selects the chunk with the given id.
pub open spec fn chunk_has_id(id: Seq<char>) -> spec_fn(DocChunkRowView) -> bool {
    |c: DocChunkRowView| c.id == id
}

/// The cache with a chunk written: its row, its text, and the text in both
/// indexes. A chunk whose id is taken cannot be written, nor one for which no
/// row id is left.
pub open spec fn chunk_written(
    db: DocumentCacheView,
    document: Seq<char>,
    space: Seq<char>,
    c: ChunkUpsertView,
) -> Result<DocumentCacheView, BrainErrorView> {
    if some_where(db.chunks, chunk_has_id(c.id)) {
        Err(BrainErrorView::Storage("UNIQUE constraint failed: doc_chunks.id"@))
    } else if top_rowid(db.texts) >= i64::MAX {
        Err(BrainErrorView::Storage("database or disk is full"@))
    } else {
        let text = DocTextRowView {
            rowid: (top_rowid(db.texts) + 1) as i64,
            body: c.text,
            space,
            chunk_id: c.id,
        };
        Ok(
            DocumentCacheView {
                chunks: db.chunks.push(
                    DocChunkRowView {
                        id: c.id,
                        document_id: document,
                        space,
                        ordinal: c.ordinal as i64,
                        span_start: c.span_start as i64,
                        span_end: c.span_end as i64,
                        context: c.context,
                    },
                ),
                texts: db.texts.push(text),
                fts_word: db.fts_word.push(text),
                fts_ngram: db.fts_ngram.push(text),
                ..db
            },
        )
    }
}

fn write_chunk(db: &mut DocumentCache, document: &str, space: &str, c: &ChunkUpsert) -> (r: Result<
    (),
    BrainError,
>)
    requires
        c.span_start <= i64::MAX,
        c.span_end <= i64::MAX,
    ensures
        match chunk_written(old(db).deep_view(), document@, space@, c.deep_view()) {
            Ok(v) => r is Ok && final(db).deep_view() == v,
            Err(e) => fails_with(r, e),
        },
{
    let ghost first = db.deep_view();
    let taken = find(
        &db.chunks,
        |x: &DocChunkRow| -> (b: bool)
            ensures
                b == chunk_has_id(c.id@)(x.deep_view())
            { str_eq(x.id.as_str(), c.id.as_str()) },
        Ghost(chunk_has_id(c.id@)),
    );
    if taken.is_some() {
        return Err(BrainError::Storage("UNIQUE constraint failed: doc_chunks.id".to_owned()));
    }
    let rowid: i64 = match next_rowid(&db.texts) {
        Some(i) => i,
        None => {
            return Err(BrainError::Storage("database or disk is full".to_owned()));
        },
    };
    let text = DocTextRow {
        rowid,
        body: c.text.clone(),
        space: space.to_owned(),
        chunk_id: c.id.clone(),
    };
    let ghost t = text.deep_view();
    let chunk = DocChunkRow {
        id: c.id.clone(),
        document_id: document.to_owned(),
        space: space.to_owned(),
        ordinal: c.ordinal as i64,
        span_start: c.span_start as i64,
        span_end: c.span_end as i64,
        context: c.context.clone(),
    };
    let ghost k = chunk.deep_view();
    db.chunks.push(chunk);
    db.fts_word.push(text.dup());
    db.fts_ngram.push(text.dup());
    db.texts.push(text);
    assert(db.chunks.deep_view() =~= first.chunks.push(k));
    assert(db.texts.deep_view() =~= first.texts.push(t));
    assert(db.fts_word.deep_view() =~= first.fts_word.push(t));
    assert(db.fts_ngram.deep_view() =~= first.fts_ngram.push(t));
    Ok(())
}

/// The cache with chunks written one after the other.
pub open spec fn chunks_written(
    db: DocumentCacheView,
    document: Seq<char>,
    space: Seq<char>,
    chunks: Seq<ChunkUpsertView>,
) -> Result<DocumentCacheView, BrainErrorView>
    decreases chunks.len(),
{
    if chunks.len() == 0 {
        Ok(db)
    } else {
        match chunks_written(db, document, space, chunks.drop_last()) {
            Ok(v) => chunk_written(v, document, space, chunks.last()),
            Err(e) => Err(e),
        }
    }
}

/// Whether the numbers of an upsert can be stored.
pub open spec fn upsert_fits(u: DocumentUpsertView) -> bool {
    &&& u.bytes <= i64::MAX
    &&& forall|i: int|
        0 <= i < u.chunks.len() ==> (#[trigger] u.chunks[i]).span_start <= i64::MAX
            && u.chunks[i].span_end <= i64::MAX
}

/// The cache with the chunks, the row and the manifest row of a document gone.
pub open spec fn document_cleared(
    db: DocumentCacheView,
    alias: Seq<char>,
    u: DocumentUpsertView,
) -> DocumentCacheView {
    let bare = without_chunks(db, seq![u.id]);
    DocumentCacheView {
        documents: bare.documents.filter(|d: DocumentRowView| d.id != u.id),
        manifest: bare.manifest.filter(
            |m: ManifestRowView| !manifest_at(alias, Some(u.locator))(m),
        ),
        ..bare
    }
}

/// The cache with a document written in the place of what it held of it: its
/// row, its chunks with their texts and index rows, and its manifest row.
pub open spec fn document_written(
    db: DocumentCacheView,
    alias: Seq<char>,
    space: Seq<char>,
    u: DocumentUpsertView,
    now: i64,
) -> Result<DocumentCacheView, BrainErrorView> {
    let cleared = document_cleared(db, alias, u);
    let with_row = DocumentCacheView {
        documents: cleared.documents.push(document_row(alias, space, u, now)),
        ..cleared
    };
    match chunks_written(with_row, u.id, space, u.chunks) {
        Err(e) => Err(e),
        Ok(v) => Ok(
            DocumentCacheView {
                manifest: v.manifest.push(
                    ManifestRowView {
                        root_alias: alias,
                        locator: u.locator,
                        bytes: u.bytes as i64,
                        modified_ns: u.modified_ns,
                        revision: u.revision,
                    },
                ),
                ..v
            },
        ),
    }
}

/// Insert or replace one document.
fn upsert_document(
    db: &mut DocumentCache,
    alias: &str,
    space: &str,
    u: &DocumentUpsert,
    now: i64,
) -> (r: Result<(), BrainError>)
    requires
        upsert_fits(u.deep_view()),
    ensures
        match document_written(old(db).deep_view(), alias@, space@, u.deep_view(), now) {
            Ok(v) => r is Ok && final(db).deep_view() == v,
            Err(e) => fails_with(r, e),
        },
{
    let ghost first = db.deep_view();
    let ghost uv = u.deep_view();
    let mut ids: Vec<String> = Vec::new();
    ids.push(u.id.clone());
    assert(ids.deep_view() =~= seq![uv.id]);
    delete_chunks(db, &ids);
    delete(
        &mut db.documents,
        |d: &DocumentRow| -> (gone: bool)
            ensures
                gone == (d.deep_view().id == uv.id)
            { str_eq(d.id.as_str(), u.id.as_str()) },
        Ghost(|d: DocumentRowView| d.id != uv.id),
    );
    delete(
        &mut db.manifest,
        |m: &ManifestRow| -> (gone: bool)
            ensures
                gone == manifest_at(alias@, Some(uv.locator))(m.deep_view())
            {
                str_eq(m.root_alias.as_str(), alias) && str_eq(
                    m.locator.as_str(),
                    u.locator.as_str(),
                )
            },
        Ghost(|m: ManifestRowView| !manifest_at(alias@, Some(uv.locator))(m)),
    );
    assert(db.deep_view() == document_cleared(first, alias@, uv));
    let ghost docs = db.documents.deep_view();
    let row = DocumentRow {
        id: u.id.clone(),
        root_alias: alias.to_owned(),
        space: space.to_owned(),
        locator: u.locator.clone(),
        revision: u.revision.clone(),
        media_type: u.media_type.clone(),
        bytes: u.bytes as i64,
        modified_at: u.modified_at,
        indexed_at: now,
    };
    db.documents.push(row);
    assert(db.documents.deep_view() =~= docs.push(document_row(alias@, space@, uv, now)));
    let ghost with_row = db.deep_view();
    let ghost all = uv.chunks;
    let mut i: usize = 0;
    assert(all.take(0) =~= Seq::empty());
    while i < u.chunks.len()
        invariant
            i <= u.chunks.len(),
            uv == u.deep_view(),
            all == uv.chunks,
            upsert_fits(uv),
            chunks_written(with_row, uv.id, space@, all.take(i as int)) == Ok::<
                DocumentCacheView,
                BrainErrorView,
            >(db.deep_view()),
            with_row == (DocumentCacheView {
                documents: document_cleared(first, alias@, uv).documents.push(
                    document_row(alias@, space@, uv, now),
                ),
                ..document_cleared(first, alias@, uv)
            }),
            first == old(db).deep_view(),
        decreases u.chunks.len() - i,
    {
        proof {
            assert(all.take(i + 1).drop_last() =~= all.take(i as int));
            assert(all.take(i + 1).last() == all[i as int]);
            assert(all[i as int] == u.chunks[i as int].deep_view());
        }
        match write_chunk(db, u.id.as_str(), space, &u.chunks[i]) {
            Ok(()) => {},
            Err(e) => {
                proof {
                    lemma_chunk_error(with_row, uv.id, space@, all, i + 1);
                }
                return Err(e);
            },
        }
        i = i + 1;
    }
    assert(all.take(i as int) =~= all);
    let ghost man = db.manifest.deep_view();
    let entry = ManifestRow {
        root_alias: alias.to_owned(),
        locator: u.locator.clone(),
        bytes: u.bytes as i64,
        modified_ns: u.modified_ns,
        revision: u.revision.clone(),
    };
    let ghost e = entry.deep_view();
    db.manifest.push(entry);
    assert(db.manifest.deep_view() =~= man.push(e));
    Ok(())
}

/// An error among the first chunks is the error of all.
proof fn lemma_chunk_error(
    db: DocumentCacheView,
    document: Seq<char>,
    space: Seq<char>,
    chunks: Seq<ChunkUpsertView>,
    k: int,
)
    requires
        0 <= k <= chunks.len(),
        chunks_written(db, document, space, chunks.take(k)) is Err,
    ensures
        chunks_written(db, document, space, chunks) == chunks_written(
            db,
            document,
            space,
            chunks.take(k),
        ),
    decreases chunks.len() - k,
{
    if k == chunks.len() {
        assert(chunks.take(k) =~= chunks);
    } else {
        assert(chunks.take(k + 1).drop_last() =~= chunks.take(k));
        lemma_chunk_error(db, document, space, chunks, k + 1);
    }
}

/// The last upsert of a file.
pub open spec fn upsert_for(upserts: Seq<DocumentUpsertView>, locator: Seq<char>) -> Option<
    DocumentUpsertView,
>
    decreases upserts.len(),
{
    if upserts.len() == 0 {
        None
    } else if upserts.last().locator == locator {
        Some(upserts.last())
    } else {
        upsert_for(upserts.drop_last(), locator)
    }
}

fn find_upsert(upserts: &Vec<DocumentUpsert>, locator: &str) -> (r: Option<usize>)
    ensures
        match r {
            Some(i) => i < upserts.len() && upsert_for(upserts.deep_view(), locator@) == Some(
                upserts[i as int].deep_view(),
            ),
            None => upsert_for(upserts.deep_view(), locator@) is None,
        },
{
    let ghost all = upserts.deep_view();
    let mut i: usize = upserts.len();
    assert(all.take(i as int) =~= all);
    while i > 0
        invariant
            i <= upserts.len(),
            all == upserts.deep_view(),
            upsert_for(all, locator@) == upsert_for(all.take(i as int), locator@),
        decreases i,
    {
        proof {
            assert(all.take(i as int).drop_last() =~= all.take(i - 1));
            assert(all.take(i as int).last() == all[i - 1]);
            assert(all[i - 1] == upserts[i - 1].deep_view());
        }
        if str_eq(upserts[i - 1].locator.as_str(), locator) {
            return Some(i - 1);
        }
        i = i - 1;
    }
    None
}

/// The cache after one file action.
pub open spec fn action_done(
    db: DocumentCacheView,
    alias: Seq<char>,
    space: Seq<char>,
    action: FileActionView,
    upserts: Seq<DocumentUpsertView>,
    now: i64,
) -> Result<DocumentCacheView, BrainErrorView> {
    match action {
        FileActionView::Unchanged => Ok(db),
        FileActionView::Skip { locator: _, reason: _ } => Ok(db),
        FileActionView::Delete { locator } => Ok(without_documents(db, alias, Some(locator))),
        FileActionView::Add { seen } => seen_written(db, alias, space, seen, upserts, now),
        FileActionView::Replace { seen } => seen_written(db, alias, space, seen, upserts, now),
    }
}

/// The cache with a seen file written from its upsert.
pub open spec fn seen_written(
    db: DocumentCacheView,
    alias: Seq<char>,
    space: Seq<char>,
    seen: FileObservationView,
    upserts: Seq<DocumentUpsertView>,
    now: i64,
) -> Result<DocumentCacheView, BrainErrorView> {
    match upsert_for(upserts, seen.locator) {
        Some(u) => document_written(db, alias, space, u, now),
        None => Err(
            BrainErrorView::Invalid(
                "apply: Add/Replace for "@ + alias + "/"@ + seen.locator
                    + " has no matching DocumentUpsert"@,
            ),
        ),
    }
}

/// The cache after file actions, one after the other.
pub open spec fn actions_done(
    db: DocumentCacheView,
    alias: Seq<char>,
    space: Seq<char>,
    actions: Seq<FileActionView>,
    upserts: Seq<DocumentUpsertView>,
    now: i64,
) -> Result<DocumentCacheView, BrainErrorView>
    decreases actions.len(),
{
    if actions.len() == 0 {
        Ok(db)
    } else {
        match actions_done(db, alias, space, actions.drop_last(), upserts, now) {
            Ok(v) => action_done(v, alias, space, actions.last(), upserts, now),
            Err(e) => Err(e),
        }
    }
}

/// An error among the first actions is the error of all.
proof fn lemma_action_error(
    db: DocumentCacheView,
    alias: Seq<char>,
    space: Seq<char>,
    actions: Seq<FileActionView>,
    upserts: Seq<DocumentUpsertView>,
    now: i64,
    k: int,
)
    requires
        0 <= k <= actions.len(),
        actions_done(db, alias, space, actions.take(k), upserts, now) is Err,
    ensures
        actions_done(db, alias, space, actions, upserts, now) == actions_done(
            db,
            alias,
            space,
            actions.take(k),
            upserts,
            now,
        ),
    decreases actions.len() - k,
{
    if k == actions.len() {
        assert(actions.take(k) =~= actions);
    } else {
        assert(actions.take(k + 1).drop_last() =~= actions.take(k));
        lemma_action_error(db, alias, space, actions, upserts, now, k + 1);
    }
}

/// Whether the numbers of all upserts can be stored.
pub open spec fn upserts_fit(upserts: Seq<DocumentUpsertView>) -> bool {
    forall|i: int| 0 <= i < upserts.len() ==> upsert_fits(#[trigger] upserts[i])
}

fn write_seen(
    db: &mut DocumentCache,
    alias: &str,
    space: &str,
    seen: &FileObservation,
    upserts: &Vec<DocumentUpsert>,
    now: i64,
) -> (r: Result<(), BrainError>)
    requires
        upserts_fit(upserts.deep_view()),
    ensures
        match seen_written(
            old(db).deep_view(),
            alias@,
            space@,
            seen.deep_view(),
            upserts.deep_view(),
            now,
        ) {
            Ok(v) => r is Ok && final(db).deep_view() == v,
            Err(e) => fails_with(r, e),
        },
{
    match find_upsert(upserts, seen.locator.as_str()) {
        Some(i) => {
            assert(upserts.deep_view()[i as int] == upserts[i as int].deep_view());
            upsert_document(db, alias, space, &upserts[i], now)
        },
        None => Err(
            BrainError::Invalid(
                cat5(
                    "apply: Add/Replace for ",
                    alias,
                    "/",
                    seen.locator.as_str(),
                    " has no matching DocumentUpsert",
                ),
            ),
        ),
    }
}

/// Apply the per-file actions for one root.
fn apply_file_actions(
    db: &mut DocumentCache,
    alias: &str,
    space: &str,
    actions: &Vec<FileAction>,
    upserts: &Vec<DocumentUpsert>,
    now: i64,
) -> (r: Result<(), BrainError>)
    requires
        upserts_fit(upserts.deep_view()),
    ensures
        match actions_done(
            old(db).deep_view(),
            alias@,
            space@,
            actions.deep_view(),
            upserts.deep_view(),
            now,
        ) {
            Ok(v) => r is Ok && final(db).deep_view() == v,
            Err(e) => fails_with(r, e),
        },
{
    let ghost first = db.deep_view();
    let ghost all = actions.deep_view();
    let ghost ups = upserts.deep_view();
    let mut i: usize = 0;
    assert(all.take(0) =~= Seq::empty());
    while i < actions.len()
        invariant
            i <= actions.len(),
            first == old(db).deep_view(),
            all == actions.deep_view(),
            ups == upserts.deep_view(),
            upserts_fit(ups),
            actions_done(first, alias@, space@, all.take(i as int), ups, now) == Ok::<
                DocumentCacheView,
                BrainErrorView,
            >(db.deep_view()),
        decreases actions.len() - i,
    {
        proof {
            assert(all.take(i + 1).drop_last() =~= all.take(i as int));
            assert(all.take(i + 1).last() == all[i as int]);
            assert(all[i as int] == actions[i as int].deep_view());
        }
        let done = match &actions[i] {
            FileAction::Unchanged => Ok(()),
            FileAction::Skip { locator: _, reason: _ } => Ok(()),
            FileAction::Delete { locator } => {
                delete_documents(db, alias, Some(locator.as_str()));
                Ok(())
            },
            FileAction::Add { seen } => write_seen(db, alias, space, seen, upserts, now),
            FileAction::Replace { seen } => write_seen(db, alias, space, seen, upserts, now),
        };
        match done {
            Ok(()) => {},
            Err(e) => {
                proof {
                    lemma_action_error(first, alias@, space@, all, ups, now, i + 1);
                }
                return Err(e);
            },
        }
        i = i + 1;
    }
    assert(all.take(i as int) =~= all);
    Ok(())
}

/// What is said of a root that moved on.
pub open spec fn busy_text(alias: Seq<char>, current: i64, expected: i64) -> Seq<char> {
    "documents.db generation mismatch for "@ + alias + ": cached="@ + int_text(current as int)
        + ", expected="@ + int_text(expected as int)
}

/// The cache after the work for one root: the root must be at the expected
/// generation; it goes to the next one, with its fingerprint on record, and its
/// file actions are done.
pub open spec fn root_applied(
    db: DocumentCacheView,
    root: RootApplyView,
    now: i64,
) -> Result<DocumentCacheView, BrainErrorView> {
    let fp = root.fingerprint;
    let current = generation_of(db.roots, fp.alias);
    if current != root.expected_generation {
        Err(BrainErrorView::Busy(busy_text(fp.alias, current, root.expected_generation)))
    } else {
        actions_done(
            DocumentCacheView {
                roots: root_written(db.roots, fp, (current + 1) as i64, now),
                meta: meta_written(db.meta, fp_key(fp.alias), root.fingerprint_json),
                ..db
            },
            fp.alias,
            fp.space,
            root.actions,
            root.upserts,
            now,
        )
    }
}

/// The cache after the work for roots, one after the other.
pub open spec fn roots_applied(
    db: DocumentCacheView,
    roots: Seq<RootApplyView>,
    now: i64,
) -> Result<DocumentCacheView, BrainErrorView>
    decreases roots.len(),
{
    if roots.len() == 0 {
        Ok(db)
    } else {
        match roots_applied(db, roots.drop_last(), now) {
            Ok(v) => root_applied(v, roots.last(), now),
            Err(e) => Err(e),
        }
    }
}

/// The cache after a plan: roots are removed and reset first, then the work for
/// each root is done.
pub open spec fn plan_applied(db: DocumentCacheView, plan: ApplyPlanView, now: i64) -> Result<
    DocumentCacheView,
    BrainErrorView,
> {
    roots_applied(roots_cleared(db, plan.root_actions), plan.roots, now)
}

/// An error among the first roots is the error of all.
proof fn lemma_root_error(
    db: DocumentCacheView,
    roots: Seq<RootApplyView>,
    now: i64,
    k: int,
)
    requires
        0 <= k <= roots.len(),
        roots_applied(db, roots.take(k), now) is Err,
    ensures
        roots_applied(db, roots, now) == roots_applied(db, roots.take(k), now),
    decreases roots.len() - k,
{
    if k == roots.len() {
        assert(roots.take(k) =~= roots);
    } else {
        assert(roots.take(k + 1).drop_last() =~= roots.take(k));
        lemma_root_error(db, roots, now, k + 1);
    }
}

/// Whether the numbers of a plan can be stored: sizes and offsets, and the next
/// generation of each root.
pub open spec fn plan_fits(plan: ApplyPlanView) -> bool {
    forall|i: int|
        0 <= i < plan.roots.len() ==> upserts_fit((#[trigger] plan.roots[i]).upserts)
            && plan.roots[i].expected_generation < i64::MAX
}

fn apply_root(db: &mut DocumentCache, root: &RootApply, now: i64) -> (r: Result<(), BrainError>)
    requires
        upserts_fit(root.deep_view().upserts),
        root.expected_generation < i64::MAX,
    ensures
        match root_applied(old(db).deep_view(), root.deep_view(), now) {
            Ok(v) => r is Ok && final(db).deep_view() == v,
            Err(e) => fails_with(r, e),
        },
{
    let alias = root.fingerprint.alias.as_str();
    let current: i64 = db.generation(alias);
    if current != root.expected_generation {
        let mut message = cat4(
            "documents.db generation mismatch for ",
            alias,
            ": cached=",
            show_i64(current).as_str(),
        );
        message.push_str(", expected=");
        message.push_str(show_i64(root.expected_generation).as_str());
        assert(message@ =~= busy_text(alias@, current, root.expected_generation));
        return Err(BrainError::Busy(message));
    }
    write_root(db, &root.fingerprint, current + 1, now);
    let key = root_fp_key(alias);
    write_meta(&mut db.meta, key.as_str(), root.fingerprint_json.as_str());
    apply_file_actions(
        db,
        alias,
        root.fingerprint.space.as_str(),
        &root.actions,
        &root.upserts,
        now,
    )
}

impl DocumentCache {
    /// Current generation for one root; zero if the alias has no row.
    pub fn generation(&self, alias: &str) -> (r: i64)
        ensures
            r == generation_of(self.deep_view().roots, alias@),
    {
        match find(
            &self.roots,
            |r: &RootRow| -> (b: bool)
                ensures
                    b == root_named(alias@)(r.deep_view())
                { str_eq(r.alias.as_str(), alias) },
            Ghost(root_named(alias@)),
        ) {
            Some(i) => {
                assert(self.deep_view().roots[i as int] == self.roots[i as int].deep_view());
                self.roots[i].generation
            },
            None => 0,
        }
    }

    /// One atomic apply over the whole plan, at the time `now` in seconds. On
    /// any error the cache stays as it was.
    pub fn apply(&mut self, plan: &ApplyPlan, now: i64) -> (r: Result<(), BrainError>)
        requires
            plan_fits(plan.deep_view()),
        ensures
            match plan_applied(old(self).deep_view(), plan.deep_view(), now) {
                Ok(v) => r is Ok && final(self).deep_view() == v,
                Err(e) => fails_with(r, e) && final(self).deep_view() == old(self).deep_view(),
            },
    {
        let mut work = self.dup();
        let ghost first = work.deep_view();
        let ghost acts = plan.deep_view().root_actions;
        let mut i: usize = 0;
        assert(acts.take(0) =~= Seq::empty());
        while i < plan.root_actions.len()
            invariant
                i <= plan.root_actions.len(),
                acts == plan.deep_view().root_actions,
                work.deep_view() == roots_cleared(first, acts.take(i as int)),
            decreases plan.root_actions.len() - i,
        {
            proof {
                assert(acts.take(i + 1).drop_last() =~= acts.take(i as int));
                assert(acts.take(i + 1).last() == acts[i as int]);
                assert(acts[i as int] == plan.root_actions[i as int].deep_view());
            }
            match plan.root_actions[i].1 {
                RootAction::KeepRoot => {},
                RootAction::RemoveRoot => {
                    remove_root(&mut work, plan.root_actions[i].0.as_str());
                },
                RootAction::ResetRoot => {
                    remove_root(&mut work, plan.root_actions[i].0.as_str());
                },
            }
            i = i + 1;
        }
        assert(acts.take(i as int) =~= acts);
        let ghost cleared = work.deep_view();
        let ghost roots = plan.deep_view().roots;
        let mut k: usize = 0;
        assert(roots.take(0) =~= Seq::empty());
        while k < plan.roots.len()
            invariant
                k <= plan.roots.len(),
                roots == plan.deep_view().roots,
                plan_fits(plan.deep_view()),
                cleared == roots_cleared(first, plan.deep_view().root_actions),
                first == old(self).deep_view(),
                self.deep_view() == first,
                roots_applied(cleared, roots.take(k as int), now) == Ok::<
                    DocumentCacheView,
                    BrainErrorView,
                >(work.deep_view()),
            decreases plan.roots.len() - k,
        {
            proof {
                assert(roots.take(k + 1).drop_last() =~= roots.take(k as int));
                assert(roots.take(k + 1).last() == roots[k as int]);
                assert(roots[k as int] == plan.roots[k as int].deep_view());
            }
            match apply_root(&mut work, &plan.roots[k], now) {
                Ok(()) => {},
                Err(e) => {
                    proof {
                        lemma_root_error(cleared, roots, now, k + 1);
                    }
                    return Err(e);
                },
            }
            k = k + 1;
        }
        assert(roots.take(k as int) =~= roots);
        *self = work;
        Ok(())
    }
}

/// A root anywhere in a plan whose generation is not the expected one when its
/// turn comes, with no failure before it, makes the whole plan busy, whatever
/// root actions and other roots the plan holds. A plan that fails leaves the
/// cache as it was.
pub proof fn law_stale_plan_is_busy(
    db: DocumentCacheView,
    plan: ApplyPlanView,
    now: i64,
    k: int,
)
    requires
        0 <= k < plan.roots.len(),
        roots_applied(roots_cleared(db, plan.root_actions), plan.roots.take(k), now) matches Ok(v)
            && generation_of(v.roots, plan.roots[k].fingerprint.alias)
            != plan.roots[k].expected_generation,
    ensures
        ({
            let reached = roots_applied(
                roots_cleared(db, plan.root_actions),
                plan.roots.take(k),
                now,
            )->Ok_0;
            let root = plan.roots[k];
            let alias = root.fingerprint.alias;
            plan_applied(db, plan, now) == Err::<DocumentCacheView, BrainErrorView>(
                BrainErrorView::Busy(
                    busy_text(
                        alias,
                        generation_of(reached.roots, alias),
                        root.expected_generation,
                    ),
                ),
            )
        }),
{
    let start = roots_cleared(db, plan.root_actions);
    let taken = plan.roots.take(k + 1);
    assert(taken.drop_last() =~= plan.roots.take(k));
    assert(taken.last() == plan.roots[k]);
    lemma_root_error(start, plan.roots, now, k + 1);
}

/// Selects the documents of a space.
pub open spec fn document_in(space: Seq<char>) -> spec_fn(DocumentRowView) -> bool {
    |d: DocumentRowView| d.space == space
}

/// Selects the chunks of a space.
pub open spec fn doc_chunk_in(space: Seq<char>) -> spec_fn(DocChunkRowView) -> bool {
    |c: DocChunkRowView| c.space == space
}

/// Selects the texts of a space.
pub open spec fn doc_text_in(space: Seq<char>) -> spec_fn(DocTextRowView) -> bool {
    |t: DocTextRowView| t.space == space
}

/// Selects the roots of a space.
pub open spec fn root_in(space: Seq<char>) -> spec_fn(RootRowView) -> bool {
    |r: RootRowView| r.space == space
}

/// The alias of a root.
pub open spec fn alias_of() -> spec_fn(RootRowView) -> Seq<char> {
    |r: RootRowView| r.alias
}

/// Selects the vector of a chunk.
pub open spec fn vector_of(chunk: Seq<char>) -> spec_fn(DocVectorRowView) -> bool {
    |v: DocVectorRowView| v.chunk_id == chunk
}

/// The cache without a space.
pub open spec fn space_purged(db: DocumentCacheView, space: Seq<char>) -> DocumentCacheView {
    let rowids = db.texts.filter(doc_text_in(space)).map_values(rowid_of());
    let chunks = db.chunks.filter(doc_chunk_in(space)).map_values(chunk_id_of());
    let aliases = db.roots.filter(root_in(space)).map_values(alias_of());
    DocumentCacheView {
        fts_word: db.fts_word.filter(|t: DocTextRowView| !rowids.contains(t.rowid)),
        fts_ngram: db.fts_ngram.filter(|t: DocTextRowView| !rowids.contains(t.rowid)),
        texts: db.texts.filter(|t: DocTextRowView| t.space != space),
        vectors: db.vectors.filter(|v: DocVectorRowView| !chunks.contains(v.chunk_id)),
        chunks: db.chunks.filter(|c: DocChunkRowView| c.space != space),
        manifest: db.manifest.filter(|m: ManifestRowView| !aliases.contains(m.root_alias)),
        documents: db.documents.filter(|d: DocumentRowView| d.space != space),
        roots: db.roots.filter(|r: RootRowView| r.space != space),
        ..db
    }
}

/// A purged space has no document, chunk, text or root left, and those of every
/// other space are as they were.
pub proof fn law_purge_removes_only_the_space(
    db: DocumentCacheView,
    space: Seq<char>,
    other: Seq<char>,
)
    requires
        other != space,
    ensures
        ({
            let after = space_purged(db, space);
            &&& after.documents.filter(document_in(space)).len() == 0
            &&& after.chunks.filter(doc_chunk_in(space)).len() == 0
            &&& after.texts.filter(doc_text_in(space)).len() == 0
            &&& after.roots.filter(root_in(space)).len() == 0
            &&& after.documents.filter(document_in(other)) == db.documents.filter(
                document_in(other),
            )
            &&& after.chunks.filter(doc_chunk_in(other)) == db.chunks.filter(doc_chunk_in(other))
            &&& after.texts.filter(doc_text_in(other)) == db.texts.filter(doc_text_in(other))
            &&& after.roots.filter(root_in(other)) == db.roots.filter(root_in(other))
        }),
{
    let d = |d: DocumentRowView| d.space != space;
    let c = |c: DocChunkRowView| c.space != space;
    let t = |t: DocTextRowView| t.space != space;
    let r = |r: RootRowView| r.space != space;
    lemma_disjoint(db.documents, d, document_in(space));
    lemma_disjoint(db.chunks, c, doc_chunk_in(space));
    lemma_disjoint(db.texts, t, doc_text_in(space));
    lemma_disjoint(db.roots, r, root_in(space));
    crate::redaction::lemma_filter_twice(db.documents, d, document_in(other));
    crate::redaction::lemma_filter_twice(db.chunks, c, doc_chunk_in(other));
    crate::redaction::lemma_filter_twice(db.texts, t, doc_text_in(other));
    crate::redaction::lemma_filter_twice(db.roots, r, root_in(other));
}

/// Selecting what a selection dropped finds nothing.
proof fn lemma_disjoint<V>(s: Seq<V>, p: spec_fn(V) -> bool, q: spec_fn(V) -> bool)
    requires
        forall|v: V| #[trigger] q(v) ==> !p(v),
    ensures
        s.filter(p).filter(q).len() == 0,
{
    let kept = s.filter(p);
    assert forall|i: int| 0 <= i < kept.len() implies !q(#[trigger] kept[i]) by {
        s.lemma_filter_pred(p, i);
    }
    assert(kept.all(|v: V| !q(v)));
    kept.lemma_all_neg_filter_empty(q);
}

/// The roots do not change while file actions are done.
proof fn lemma_actions_keep_roots(
    db: DocumentCacheView,
    alias: Seq<char>,
    space: Seq<char>,
    actions: Seq<FileActionView>,
    upserts: Seq<DocumentUpsertView>,
    now: i64,
)
    ensures
        actions_done(db, alias, space, actions, upserts, now) matches Ok(v) ==> v.roots
            == db.roots,
    decreases actions.len(),
{
    if actions.len() > 0 {
        lemma_actions_keep_roots(db, alias, space, actions.drop_last(), upserts, now);
        match actions_done(db, alias, space, actions.drop_last(), upserts, now) {
            Ok(v) => {
                let locator = match actions.last() {
                    FileActionView::Add { seen } => seen.locator,
                    FileActionView::Replace { seen } => seen.locator,
                    _ => Seq::empty(),
                };
                match upsert_for(upserts, locator) {
                    Some(u) => {
                        let cleared = document_cleared(v, alias, u);
                        lemma_chunks_keep_roots(
                            DocumentCacheView {
                                documents: cleared.documents.push(
                                    document_row(alias, space, u, now),
                                ),
                                ..cleared
                            },
                            u.id,
                            space,
                            u.chunks,
                        );
                    },
                    None => {},
                }
            },
            Err(_) => {},
        }
    }
}

proof fn lemma_chunks_keep_roots(
    db: DocumentCacheView,
    document: Seq<char>,
    space: Seq<char>,
    chunks: Seq<ChunkUpsertView>,
)
    ensures
        chunks_written(db, document, space, chunks) matches Ok(v) ==> v.roots == db.roots,
    decreases chunks.len(),
{
    if chunks.len() > 0 {
        lemma_chunks_keep_roots(db, document, space, chunks.drop_last());
    }
}

/// Applying the work for a root moves it to the next generation, to the first one
/// where it had none, and leaves the generations of the others.
proof fn lemma_root_moves(
    db: DocumentCacheView,
    root: RootApplyView,
    now: i64,
    other: Seq<char>,
)
    requires
        root.expected_generation < i64::MAX,
        root_applied(db, root, now) is Ok,
    ensures
        ({
            let after = root_applied(db, root, now)->Ok_0;
            &&& generation_of(db.roots, root.fingerprint.alias) == root.expected_generation
            &&& generation_of(after.roots, root.fingerprint.alias) == root.expected_generation + 1
            &&& other != root.fingerprint.alias ==> generation_of(after.roots, other)
                == generation_of(db.roots, other)
        }),
{
    let fp = root.fingerprint;
    let p = root_named(fp.alias);
    let current = generation_of(db.roots, fp.alias);
    let written = root_written(db.roots, fp, (current + 1) as i64, now);
    let mid = DocumentCacheView {
        roots: written,
        meta: meta_written(db.meta, fp_key(fp.alias), root.fingerprint_json),
        ..db
    };
    lemma_actions_keep_roots(mid, fp.alias, fp.space, root.actions, root.upserts, now);
    if some_where(db.roots, p) {
        let i = choose|i: int| 0 <= i < db.roots.len() && p(db.roots[i]);
        assert(p(written[i]));
    } else {
        assert(p(written[db.roots.len() as int]));
    }
    lemma_generation(written, fp.alias, (current + 1) as i64, 0);
    if other != fp.alias {
        let q = root_named(other);
        if some_where(db.roots, p) {
            let g = |r: RootRowView|
                RootRowView {
                    space: fp.space,
                    config_hash: config_hash(fp),
                    generation: (current + 1) as i64,
                    scanned_at: now,
                    ..r
                };
            assert(written =~= updated(db.roots, p, g));
            crate::rows::lemma_updated_filter(db.roots, p, g, q);
            crate::redaction::lemma_kept(db.roots, q);
            assert(updated(db.roots.filter(q), p, g) =~= db.roots.filter(q)) by {
                assert forall|i: int| 0 <= i < db.roots.filter(q).len() implies !p(
                    #[trigger] db.roots.filter(q)[i],
                ) by {
                    assert(q(db.roots.filter(q)[i]));
                }
            }
        } else {
            db.roots.lemma_filter_push(written.last(), q);
            assert(written =~= db.roots.push(written.last()));
        }
    }
}

/// Whether no root of a list has an alias.
pub open spec fn is_unplanned(roots: Seq<RootApplyView>, alias: Seq<char>) -> bool {
    forall|j: int| 0 <= j < roots.len() ==> (#[trigger] roots[j]).fingerprint.alias != alias
}

/// Roots that are not among those worked on keep their generation.
proof fn lemma_unplanned_stay(
    db: DocumentCacheView,
    roots: Seq<RootApplyView>,
    now: i64,
    alias: Seq<char>,
)
    requires
        roots_applied(db, roots, now) is Ok,
        is_unplanned(roots, alias),
        forall|j: int|
            0 <= j < roots.len() ==> (#[trigger] roots[j]).expected_generation < i64::MAX,
    ensures
        generation_of(roots_applied(db, roots, now)->Ok_0.roots, alias) == generation_of(
            db.roots,
            alias,
        ),
    decreases roots.len(),
{
    if roots.len() > 0 {
        let init = roots.drop_last();
        assert forall|j: int| 0 <= j < init.len() implies (#[trigger] init[j]).fingerprint.alias
            != alias && init[j].expected_generation < i64::MAX by {
            assert(init[j] == roots[j]);
        }
        lemma_unplanned_stay(db, init, now, alias);
        let before = roots_applied(db, init, now)->Ok_0;
        assert(roots.last() == roots[roots.len() - 1]);
        lemma_root_moves(before, roots.last(), now, alias);
    }
}

/// The roots that are worked on before and after one of them.
proof fn lemma_planned_move(
    db: DocumentCacheView,
    roots: Seq<RootApplyView>,
    now: i64,
    i: int,
)
    requires
        0 <= i < roots.len(),
        roots_applied(db, roots, now) is Ok,
        forall|j: int|
            0 <= j < roots.len() ==> (#[trigger] roots[j]).expected_generation < i64::MAX,
        is_unplanned(roots.skip(i + 1), roots[i].fingerprint.alias),
    ensures
        generation_of(
            roots_applied(db, roots, now)->Ok_0.roots,
            roots[i].fingerprint.alias,
        ) == roots[i].expected_generation + 1,
        is_unplanned(roots.take(i), roots[i].fingerprint.alias) ==> generation_of(
            db.roots,
            roots[i].fingerprint.alias,
        ) == roots[i].expected_generation,
    decreases roots.len(),
{
    let alias = roots[i].fingerprint.alias;
    let init = roots.drop_last();
    let before = roots_applied(db, init, now)->Ok_0;
    assert(roots.last() == roots[roots.len() - 1]);
    assert forall|j: int| 0 <= j < init.len() implies (#[trigger] init[j]).expected_generation
        < i64::MAX by {
        assert(init[j] == roots[j]);
    }
    lemma_root_moves(before, roots.last(), now, alias);
    if i == roots.len() - 1 {
        assert(roots.take(i) =~= init);
        if is_unplanned(roots.take(i), alias) {
            lemma_unplanned_stay(db, init, now, alias);
        }
    } else {
        let rest = init.skip(i + 1);
        assert forall|j: int| 0 <= j < rest.len() implies (#[trigger] rest[j]).fingerprint.alias
            != alias by {
            assert(rest[j] == roots.skip(i + 1)[j]);
        }
        assert(init.take(i) =~= roots.take(i));
        lemma_planned_move(db, init, now, i);
        assert(roots.skip(i + 1)[roots.len() - 2 - i] == roots.last());
    }
}

/// Applying a plan moves every root that it works on to the next generation, to
/// the first one where it had none: each root is at the generation that the last
/// work for it expected, and one. It was at the expected one, once the root
/// actions were done, and roots that the plan does not work on stay at theirs.
pub proof fn law_apply_moves_to_next_generation(
    db: DocumentCacheView,
    plan: ApplyPlanView,
    now: i64,
    after: DocumentCacheView,
)
    requires
        plan_fits(plan),
        plan_applied(db, plan, now) == Ok::<DocumentCacheView, BrainErrorView>(after),
    ensures
        forall|i: int|
            0 <= i < plan.roots.len() && is_unplanned(
                plan.roots.skip(i + 1),
                plan.roots[i].fingerprint.alias,
            ) ==> generation_of(after.roots, (#[trigger] plan.roots[i]).fingerprint.alias)
                == plan.roots[i].expected_generation + 1,
        forall|i: int|
            0 <= i < plan.roots.len() && is_unplanned(
                plan.roots.take(i),
                plan.roots[i].fingerprint.alias,
            ) && is_unplanned(plan.roots.skip(i + 1), plan.roots[i].fingerprint.alias)
                ==> generation_of(
                roots_cleared(db, plan.root_actions).roots,
                (#[trigger] plan.roots[i]).fingerprint.alias,
            ) == plan.roots[i].expected_generation,
        forall|alias: Seq<char>|
            is_unplanned(plan.roots, alias) ==> #[trigger] generation_of(after.roots, alias)
                == generation_of(roots_cleared(db, plan.root_actions).roots, alias),
{
    let start = roots_cleared(db, plan.root_actions);
    assert forall|j: int| 0 <= j < plan.roots.len() implies (
    #[trigger] plan.roots[j]).expected_generation < i64::MAX by {}
    assert forall|i: int|
        0 <= i < plan.roots.len() && is_unplanned(
            plan.roots.skip(i + 1),
            plan.roots[i].fingerprint.alias,
        ) implies generation_of(after.roots, (#[trigger] plan.roots[i]).fingerprint.alias)
        == plan.roots[i].expected_generation + 1 && (is_unplanned(
        plan.roots.take(i),
        plan.roots[i].fingerprint.alias,
    ) ==> generation_of(start.roots, plan.roots[i].fingerprint.alias)
        == plan.roots[i].expected_generation) by {
        lemma_planned_move(start, plan.roots, now, i);
    }
    assert forall|alias: Seq<char>| is_unplanned(plan.roots, alias) implies #[trigger]
        generation_of(after.roots, alias) == generation_of(start.roots, alias) by {
        lemma_unplanned_stay(start, plan.roots, now, alias);
    }
}

proof fn lemma_generation(roots: Seq<RootRowView>, alias: Seq<char>, generation: i64, k: int)
    requires
        0 <= k <= roots.len(),
        some_where(roots, root_named(alias)),
        forall|i: int|
            0 <= i < roots.len() && (#[trigger] roots[i]).alias == alias ==> roots[i].generation
                == generation,
        forall|i: int| 0 <= i < k ==> !root_named(alias)(#[trigger] roots[i]),
    ensures
        generation_of(roots, alias) == generation,
    decreases roots.len() - k,
{
    if k < roots.len() && !root_named(alias)(roots[k]) {
        lemma_generation(roots, alias, generation, k + 1);
    } else {
        crate::rows::lemma_first_where(roots, root_named(alias), k);
    }
}

/// The order of roots: by alias.
pub open spec fn by_alias() -> spec_fn(CachedRootView, CachedRootView) -> bool {
    |a: CachedRootView, b: CachedRootView| text_le(a.alias, b.alias)
}

/// The roots with their fingerprints; a root that has none is corrupt.
pub open spec fn cached_roots(
    roots: Seq<RootRowView>,
    meta: Seq<MetaRowView>,
) -> Result<Seq<CachedRootView>, BrainErrorView>
    decreases roots.len(),
{
    if roots.len() == 0 {
        Ok(Seq::empty())
    } else {
        match cached_roots(roots.drop_last(), meta) {
            Err(e) => Err(e),
            Ok(done) => {
                let r = roots.last();
                match meta_value(meta, fp_key(r.alias)) {
                    None => Err(
                        BrainErrorView::Corruption(
                            "doc_roots row "@ + r.alias + " has no serialized fingerprint"@,
                        ),
                    ),
                    Some(json) => Ok(
                        done.push(
                            CachedRootView {
                                alias: r.alias,
                                space: r.space,
                                fingerprint_json: json,
                                generation: r.generation,
                            },
                        ),
                    ),
                }
            },
        }
    }
}

/// An error among the first roots is the error of all.
proof fn lemma_cached_root_error(roots: Seq<RootRowView>, meta: Seq<MetaRowView>, k: int)
    requires
        0 <= k <= roots.len(),
        cached_roots(roots.take(k), meta) is Err,
    ensures
        cached_roots(roots, meta) == cached_roots(roots.take(k), meta),
    decreases roots.len() - k,
{
    if k == roots.len() {
        assert(roots.take(k) =~= roots);
    } else {
        assert(roots.take(k + 1).drop_last() =~= roots.take(k));
        lemma_cached_root_error(roots, meta, k + 1);
    }
}

/// A manifest row as a cached file.
pub open spec fn cached_file() -> spec_fn(ManifestRowView) -> CachedFileView {
    |m: ManifestRowView|
        CachedFileView {
            locator: m.locator,
            bytes: m.bytes as u64,
            modified_ns: m.modified_ns,
            revision: m.revision,
        }
}

/// The order of files: by locator.
pub open spec fn by_locator() -> spec_fn(CachedFileView, CachedFileView) -> bool {
    |a: CachedFileView, b: CachedFileView| text_le(a.locator, b.locator)
}

/// A byte as a number from -128 to 127.
pub open spec fn signed(b: u8) -> int {
    if b < 128 {
        b as int
    } else {
        b as int - 256
    }
}

/// The squared distance of two quantized vectors over their common length.
pub open spec fn squared_distance(a: Seq<u8>, b: Seq<u8>) -> int
    decreases a.len(),
{
    if a.len() == 0 || b.len() == 0 {
        0
    } else {
        let d = signed(a[0]) - signed(b[0]);
        d * d + squared_distance(a.drop_first(), b.drop_first())
    }
}

fn signed_of(b: u8) -> (r: i64)
    ensures
        r == signed(b),
        -128 <= r <= 127,
{
    if b < 128 {
        b as i64
    } else {
        b as i64 - 256
    }
}

fn distance_of(a: &Vec<u8>, b: &Vec<u8>) -> (r: u64)
    requires
        b.len() == EMBEDDING_DIM,
    ensures
        r == squared_distance(a@, b@),
{
    let mut sum: u64 = 0;
    let mut i: usize = 0;
    assert(a@.skip(0) =~= a@);
    assert(b@.skip(0) =~= b@);
    while i < a.len() && i < b.len()
        invariant
            b.len() == EMBEDDING_DIM,
            i <= a.len(),
            i <= b.len(),
            sum <= 65025 * i,
            sum + squared_distance(a@.skip(i as int), b@.skip(i as int)) == squared_distance(
                a@,
                b@,
            ),
        decreases a.len() - i,
    {
        proof {
            assert(a@.skip(i as int)[0] == a@[i as int]);
            assert(b@.skip(i as int)[0] == b@[i as int]);
            assert(a@.skip(i as int).drop_first() =~= a@.skip(i + 1));
            assert(b@.skip(i as int).drop_first() =~= b@.skip(i + 1));
        }
        let d: i64 = signed_of(a[i]) - signed_of(b[i]);
        assert(0 <= d * d <= 65025) by (nonlinear_arith)
            requires
                -255 <= d <= 255,
        ;
        sum = sum + (d * d) as u64;
        i = i + 1;
    }
    sum
}

/// A chunk and its squared distance from a query.
pub open spec fn neighbour(query: Seq<u8>) -> spec_fn(DocVectorRowView) -> (Seq<char>, u64) {
    |v: DocVectorRowView| (v.chunk_id, squared_distance(v.embedding, query) as u64)
}

/// The order of neighbours: the nearest first.
pub open spec fn by_distance() -> spec_fn((Seq<char>, u64), (Seq<char>, u64)) -> bool {
    |a: (Seq<char>, u64), b: (Seq<char>, u64)| a.1 <= b.1
}

/// The chunk with an id, joined with its document.
pub open spec fn chunk_found(db: DocumentCacheView, id: Seq<char>) -> Option<CachedChunkView> {
    match first_where(db.chunks, chunk_has_id(id)) {
        None => None,
        Some(c) => match first_where(db.documents, |d: DocumentRowView| d.id == c.document_id) {
            None => None,
            Some(d) => Some(
                CachedChunkView {
                    chunk_id: c.id,
                    document_id: c.document_id,
                    root_alias: d.root_alias,
                    space: c.space,
                    locator: d.locator,
                    revision: d.revision,
                    media_type: d.media_type,
                    ordinal: c.ordinal as u32,
                    span_start: c.span_start as usize,
                    span_end: c.span_end as usize,
                    modified_at: d.modified_at,
                },
            ),
        },
    }
}

/// The chunks with the listed ids, in the order of the list; an id that is
/// unknown, or that came earlier in the list, is passed over.
pub open spec fn chunks_found(db: DocumentCacheView, ids: Seq<Seq<char>>) -> Seq<CachedChunkView>
    decreases ids.len(),
{
    if ids.len() == 0 {
        Seq::empty()
    } else {
        let before = chunks_found(db, ids.drop_last());
        match chunk_found(db, ids.last()) {
            Some(c) if !ids.drop_last().contains(ids.last()) => before.push(c),
            _ => before,
        }
    }
}

/// Selects the chunks of a space that have a vector.
pub open spec fn is_embedded(
    db: DocumentCacheView,
    space: Seq<char>,
) -> spec_fn(DocChunkRowView) -> bool {
    |c: DocChunkRowView| c.space == space && some_where(db.vectors, vector_of(c.id))
}

/// Selects the text of a chunk.
pub open spec fn is_text_of(chunk: Seq<char>) -> spec_fn(DocTextRowView) -> bool {
    |t: DocTextRowView| t.chunk_id == chunk
}

/// Selects the chunks of a space that have a text but no vector.
pub open spec fn is_pending(
    db: DocumentCacheView,
    space: Seq<char>,
) -> spec_fn(DocChunkRowView) -> bool {
    |c: DocChunkRowView|
        c.space == space && some_where(db.texts, is_text_of(c.id)) && !some_where(
            db.vectors,
            vector_of(c.id),
        )
}

/// A chunk's id and text.
pub open spec fn pending_text(db: DocumentCacheView) -> spec_fn(DocChunkRowView) -> (
    Seq<char>,
    Seq<char>,
) {
    |c: DocChunkRowView|
        (
            c.id,
            match first_where(db.texts, is_text_of(c.id)) {
                Some(t) => t.body,
                None => Seq::empty(),
            },
        )
}

/// The order of chunks: by id.
pub open spec fn by_chunk_id() -> spec_fn(DocChunkRowView, DocChunkRowView) -> bool {
    |a: DocChunkRowView, b: DocChunkRowView| text_le(a.id, b.id)
}

/// The vectors once each given one took the place of the one of its chunk.
pub open spec fn vectors_written(
    vectors: Seq<DocVectorRowView>,
    rows: Seq<(Seq<char>, Seq<u8>)>,
) -> Seq<DocVectorRowView>
    decreases rows.len(),
{
    if rows.len() == 0 {
        vectors
    } else {
        or_replace(
            vectors_written(vectors, rows.drop_last()),
            vector_of(rows.last().0),
            DocVectorRowView { chunk_id: rows.last().0, embedding: rows.last().1 },
        )
    }
}

/// The first vector that has the wrong number of components.
pub open spec fn misfit(rows: Seq<(Seq<char>, Seq<u8>)>) -> Option<BrainErrorView>
    decreases rows.len(),
{
    if rows.len() == 0 {
        None
    } else {
        match misfit(rows.drop_last()) {
            Some(e) => Some(e),
            None => if rows.last().1.len() != EMBEDDING_DIM {
                Some(
                    BrainErrorView::Invalid(
                        "doc_vectors upsert dimension mismatch for "@ + rows.last().0
                            + ": expected 1024, got "@ + int_text(rows.last().1.len() as int),
                    ),
                )
            } else {
                None
            },
        }
    }
}

proof fn lemma_misfit(rows: Seq<(Seq<char>, Seq<u8>)>, k: int)
    requires
        0 <= k <= rows.len(),
        misfit(rows.take(k)) is Some,
    ensures
        misfit(rows) == misfit(rows.take(k)),
    decreases rows.len() - k,
{
    if k == rows.len() {
        assert(rows.take(k) =~= rows);
    } else {
        assert(rows.take(k + 1).drop_last() =~= rows.take(k));
        lemma_misfit(rows, k + 1);
    }
}

/// The chunk ids and bytes of vectors.
pub open spec fn vector_rows(rows: Seq<(String, Vec<u8>)>) -> Seq<(Seq<char>, Seq<u8>)> {
    rows.map_values(|p: (String, Vec<u8>)| (p.0@, p.1@))
}

impl DocumentCache {
    /// All cached roots with the JSON text of their fingerprints, by alias.
    pub fn list_roots(&self) -> (r: Result<Vec<CachedRoot>, BrainError>)
        ensures
            match cached_roots(self.deep_view().roots, self.deep_view().meta) {
                Ok(v) => r is Ok && r->Ok_0.deep_view() == ordered(v, by_alias()),
                Err(e) => fails_with(r, e),
            },
    {
        let ghost all = self.deep_view().roots;
        let ghost meta = self.deep_view().meta;
        let mut out: Vec<CachedRoot> = Vec::new();
        let mut i: usize = 0;
        assert(all.take(0) =~= Seq::empty());
        assert(out.deep_view() =~= Seq::<CachedRootView>::empty());
        while i < self.roots.len()
            invariant
                i <= self.roots.len(),
                all == self.deep_view().roots,
                meta == self.deep_view().meta,
                cached_roots(all.take(i as int), meta) == Ok::<Seq<CachedRootView>, BrainErrorView>(
                    out.deep_view(),
                ),
            decreases self.roots.len() - i,
        {
            let ghost before = out.deep_view();
            let row = &self.roots[i];
            proof {
                assert(all.take(i + 1).drop_last() =~= all.take(i as int));
                assert(all.take(i + 1).last() == all[i as int]);
                assert(all[i as int] == row.deep_view());
            }
            let key = root_fp_key(row.alias.as_str());
            match read_meta(&self.meta, key.as_str()) {
                None => {
                    proof {
                        lemma_cached_root_error(all, meta, i + 1);
                    }
                    return Err(
                        BrainError::Corruption(
                            crate::text::cat3(
                                "doc_roots row ",
                                row.alias.as_str(),
                                " has no serialized fingerprint",
                            ),
                        ),
                    );
                },
                Some(json) => {
                    let root = CachedRoot {
                        alias: row.alias.clone(),
                        space: row.space.clone(),
                        fingerprint_json: json,
                        generation: row.generation,
                    };
                    let ghost added = root.deep_view();
                    out.push(root);
                    assert(out.deep_view() =~= before.push(added));
                },
            }
            i = i + 1;
        }
        assert(all.take(i as int) =~= all);
        Ok(
            order(
                out,
                |a: &CachedRoot, b: &CachedRoot| -> (le: bool)
                    ensures
                        le == by_alias()(a.deep_view(), b.deep_view())
                    { str_le(a.alias.as_str(), b.alias.as_str()) },
                Ghost(by_alias()),
            ),
        )
    }

    /// Cached manifest rows for one root (sorted by locator).
    pub fn root_manifest(&self, alias: &str) -> (r: Vec<CachedFile>)
        ensures
            r.deep_view() == ordered(
                self.deep_view().manifest.filter(manifest_at(alias@, None)).map_values(
                    cached_file(),
                ),
                by_locator(),
            ),
    {
        let files = pick(
            &self.manifest,
            |m: &ManifestRow| -> (b: bool)
                ensures
                    b == manifest_at(alias@, None)(m.deep_view())
                { str_eq(m.root_alias.as_str(), alias) },
            |m: &ManifestRow| -> (f: CachedFile)
                ensures
                    f.deep_view() == cached_file()(m.deep_view())
                {
                    CachedFile {
                        locator: m.locator.clone(),
                        bytes: m.bytes as u64,
                        modified_ns: m.modified_ns,
                        revision: m.revision.clone(),
                    }
                },
            Ghost(manifest_at(alias@, None)),
            Ghost(cached_file()),
        );
        order(
            files,
            |a: &CachedFile, b: &CachedFile| -> (le: bool)
                ensures
                    le == by_locator()(a.deep_view(), b.deep_view())
                { str_le(a.locator.as_str(), b.locator.as_str()) },
            Ghost(by_locator()),
        )
    }

    /// The chunks nearest to a quantized query, each with its squared distance,
    /// nearest first.
    pub fn knn(&self, query: &Vec<u8>, limit: usize) -> (r: Result<Vec<(String, u64)>, BrainError>)
        ensures
            if query@.len() == EMBEDDING_DIM {
                r is Ok && r->Ok_0.deep_view() == first_n(
                    ordered(
                        self.deep_view().vectors.map_values(neighbour(query@)),
                        by_distance(),
                    ),
                    limit as nat,
                )
            } else {
                fails_with(
                    r,
                    BrainErrorView::Invalid(
                        "doc_vectors query dimension mismatch: expected 1024, got "@ + int_text(
                            query@.len() as int,
                        ),
                    ),
                )
            },
    {
        if query.len() != EMBEDDING_DIM {
            return Err(
                BrainError::Invalid(
                    cat2(
                        "doc_vectors query dimension mismatch: expected 1024, got ",
                        crate::text::show_u64(query.len() as u64).as_str(),
                    ),
                ),
            );
        }
        let all = map_rows(
            &self.vectors,
            |v: &DocVectorRow| -> (p: (String, u64))
                ensures
                    p.deep_view() == neighbour(query@)(v.deep_view())
                { (v.chunk_id.clone(), distance_of(&v.embedding, query)) },
            Ghost(neighbour(query@)),
        );
        Ok(
            limited(
                order(
                    all,
                    |a: &(String, u64), b: &(String, u64)| -> (le: bool)
                        ensures
                            le == by_distance()(a.deep_view(), b.deep_view())
                        { a.1 <= b.1 },
                    Ghost(by_distance()),
                ),
                limit,
            ),
        )
    }

    fn chunk(&self, id: &str) -> (r: Option<CachedChunk>)
        ensures
            r.deep_view() == chunk_found(self.deep_view(), id@),
    {
        let i: usize = match find(
            &self.chunks,
            |c: &DocChunkRow| -> (b: bool)
                ensures
                    b == chunk_has_id(id@)(c.deep_view())
                { str_eq(c.id.as_str(), id) },
            Ghost(chunk_has_id(id@)),
        ) {
            Some(i) => i,
            None => {
                return None;
            },
        };
        let c = &self.chunks[i];
        assert(self.deep_view().chunks[i as int] == c.deep_view());
        let ghost doc = c.document_id@;
        let k: usize = match find(
            &self.documents,
            |d: &DocumentRow| -> (b: bool)
                ensures
                    b == (d.deep_view().id == doc)
                { str_eq(d.id.as_str(), c.document_id.as_str()) },
            Ghost(|d: DocumentRowView| d.id == doc),
        ) {
            Some(k) => k,
            None => {
                return None;
            },
        };
        let d = &self.documents[k];
        assert(self.deep_view().documents[k as int] == d.deep_view());
        Some(
            CachedChunk {
                chunk_id: c.id.clone(),
                document_id: c.document_id.clone(),
                root_alias: d.root_alias.clone(),
                space: c.space.clone(),
                locator: d.locator.clone(),
                revision: d.revision.clone(),
                media_type: d.media_type.clone(),
                ordinal: #[verifier::truncate] (c.ordinal as u32),
                span_start: #[verifier::truncate] (c.span_start as usize),
                span_end: #[verifier::truncate] (c.span_end as usize),
                modified_at: d.modified_at,
            },
        )
    }

    /// Load the cached chunk rows for a list of chunk ids, in its order.
    pub fn chunks(&self, ids: &Vec<String>) -> (r: Vec<CachedChunk>)
        ensures
            r.deep_view() == chunks_found(self.deep_view(), ids.deep_view()),
    {
        let ghost all = ids.deep_view();
        let mut out: Vec<CachedChunk> = Vec::new();
        let mut seen: Vec<String> = Vec::new();
        let mut i: usize = 0;
        assert(all.take(0) =~= Seq::empty());
        assert(out.deep_view() =~= Seq::<CachedChunkView>::empty());
        assert(seen.deep_view() =~= all.take(0));
        while i < ids.len()
            invariant
                i <= ids.len(),
                all == ids.deep_view(),
                seen.deep_view() == all.take(i as int),
                out.deep_view() == chunks_found(self.deep_view(), all.take(i as int)),
            decreases ids.len() - i,
        {
            let ghost before = out.deep_view();
            proof {
                assert(all.take(i + 1).drop_last() =~= all.take(i as int));
                assert(all.take(i + 1).last() == all[i as int]);
            }
            if !holds(&seen, ids[i].as_str()) {
                match self.chunk(ids[i].as_str()) {
                    Some(c) => {
                        let ghost added = c.deep_view();
                        out.push(c);
                        assert(out.deep_view() =~= before.push(added));
                    },
                    None => {},
                }
            }
            seen.push(ids[i].clone());
            assert(seen.deep_view() =~= all.take(i + 1));
            i = i + 1;
        }
        assert(all.take(i as int) =~= all);
        out
    }

    /// The chunks of a space that have a vector, and all of them, in numbers.
    pub fn embedded_count(&self, space: &str) -> (r: (u64, u64))
        ensures
            r.0 == self.deep_view().chunks.filter(is_embedded(self.deep_view(), space@)).len(),
            r.1 == self.deep_view().chunks.filter(doc_chunk_in(space@)).len(),
    {
        let ghost view = self.deep_view();
        let embedded: usize = count(
            &self.chunks,
            |c: &DocChunkRow| -> (b: bool)
                ensures
                    b == is_embedded(view, space@)(c.deep_view())
                { str_eq(c.space.as_str(), space) && self.has_vector(c.id.as_str()) },
            Ghost(is_embedded(view, space@)),
        );
        (embedded as u64, self.chunk_count_for_space(space))
    }

    fn has_vector(&self, chunk: &str) -> (r: bool)
        ensures
            r == some_where(self.deep_view().vectors, vector_of(chunk@)),
    {
        let found = find(
            &self.vectors,
            |v: &DocVectorRow| -> (b: bool)
                ensures
                    b == vector_of(chunk@)(v.deep_view())
                { str_eq(v.chunk_id.as_str(), chunk) },
            Ghost(vector_of(chunk@)),
        );
        found.is_some()
    }

    fn text_at(&self, chunk: &str) -> (r: Option<usize>)
        ensures
            match r {
                Some(i) => i < self.texts.len() && first_where(
                    self.deep_view().texts,
                    is_text_of(chunk@),
                ) == Some(self.texts[i as int].deep_view()),
                None => first_where(self.deep_view().texts, is_text_of(chunk@)) is None,
            },
            r is Some == some_where(self.deep_view().texts, is_text_of(chunk@)),
    {
        find(
            &self.texts,
            |t: &DocTextRow| -> (b: bool)
                ensures
                    b == is_text_of(chunk@)(t.deep_view())
                { str_eq(t.chunk_id.as_str(), chunk) },
            Ghost(is_text_of(chunk@)),
        )
    }

    /// The number of documents of a space.
    pub fn document_count_for_space(&self, space: &str) -> (r: u64)
        ensures
            r == self.deep_view().documents.filter(document_in(space@)).len(),
    {
        let n: usize = count(
            &self.documents,
            |d: &DocumentRow| -> (b: bool)
                ensures
                    b == document_in(space@)(d.deep_view())
                { str_eq(d.space.as_str(), space) },
            Ghost(document_in(space@)),
        );
        n as u64
    }

    /// The number of chunks of a space.
    pub fn chunk_count_for_space(&self, space: &str) -> (r: u64)
        ensures
            r == self.deep_view().chunks.filter(doc_chunk_in(space@)).len(),
    {
        let n: usize = count(
            &self.chunks,
            |c: &DocChunkRow| -> (b: bool)
                ensures
                    b == doc_chunk_in(space@)(c.deep_view())
                { str_eq(c.space.as_str(), space) },
            Ghost(doc_chunk_in(space@)),
        );
        n as u64
    }

    /// Delete every row this cache holds for a space.
    pub fn purge_space(&mut self, space: &str)
        ensures
            final(self).deep_view() == space_purged(old(self).deep_view(), space@),
    {
        let rowids = pick(
            &self.texts,
            |t: &DocTextRow| -> (b: bool)
                ensures
                    b == doc_text_in(space@)(t.deep_view())
                { str_eq(t.space.as_str(), space) },
            |t: &DocTextRow| -> (i: i64)
                ensures
                    i.deep_view() == rowid_of()(t.deep_view())
                { t.rowid },
            Ghost(doc_text_in(space@)),
            Ghost(rowid_of()),
        );
        let ghost rows = rowids.deep_view();
        assert(rows =~= rowids@);
        let chunks = pick(
            &self.chunks,
            |c: &DocChunkRow| -> (b: bool)
                ensures
                    b == doc_chunk_in(space@)(c.deep_view())
                { str_eq(c.space.as_str(), space) },
            |c: &DocChunkRow| -> (s: String)
                ensures
                    s.deep_view() == chunk_id_of()(c.deep_view())
                { c.id.clone() },
            Ghost(doc_chunk_in(space@)),
            Ghost(chunk_id_of()),
        );
        let ghost ids = chunks.deep_view();
        let aliases = pick(
            &self.roots,
            |r: &RootRow| -> (b: bool)
                ensures
                    b == root_in(space@)(r.deep_view())
                { str_eq(r.space.as_str(), space) },
            |r: &RootRow| -> (s: String)
                ensures
                    s.deep_view() == alias_of()(r.deep_view())
                { r.alias.clone() },
            Ghost(root_in(space@)),
            Ghost(alias_of()),
        );
        let ghost names = aliases.deep_view();
        delete(
            &mut self.fts_word,
            |t: &DocTextRow| -> (gone: bool)
                ensures
                    gone == rows.contains(t.deep_view().rowid)
                { has_rowid(&rowids, t.rowid) },
            Ghost(|t: DocTextRowView| !rows.contains(t.rowid)),
        );
        delete(
            &mut self.fts_ngram,
            |t: &DocTextRow| -> (gone: bool)
                ensures
                    gone == rows.contains(t.deep_view().rowid)
                { has_rowid(&rowids, t.rowid) },
            Ghost(|t: DocTextRowView| !rows.contains(t.rowid)),
        );
        delete(
            &mut self.texts,
            |t: &DocTextRow| -> (gone: bool)
                ensures
                    gone == (t.deep_view().space == space@)
                { str_eq(t.space.as_str(), space) },
            Ghost(|t: DocTextRowView| t.space != space@),
        );
        delete(
            &mut self.vectors,
            |v: &DocVectorRow| -> (gone: bool)
                ensures
                    gone == ids.contains(v.deep_view().chunk_id)
                { holds(&chunks, v.chunk_id.as_str()) },
            Ghost(|v: DocVectorRowView| !ids.contains(v.chunk_id)),
        );
        delete(
            &mut self.chunks,
            |c: &DocChunkRow| -> (gone: bool)
                ensures
                    gone == (c.deep_view().space == space@)
                { str_eq(c.space.as_str(), space) },
            Ghost(|c: DocChunkRowView| c.space != space@),
        );
        delete(
            &mut self.manifest,
            |m: &ManifestRow| -> (gone: bool)
                ensures
                    gone == names.contains(m.deep_view().root_alias)
                { holds(&aliases, m.root_alias.as_str()) },
            Ghost(|m: ManifestRowView| !names.contains(m.root_alias)),
        );
        delete(
            &mut self.documents,
            |d: &DocumentRow| -> (gone: bool)
                ensures
                    gone == (d.deep_view().space == space@)
                { str_eq(d.space.as_str(), space) },
            Ghost(|d: DocumentRowView| d.space != space@),
        );
        delete(
            &mut self.roots,
            |r: &RootRow| -> (gone: bool)
                ensures
                    gone == (r.deep_view().space == space@)
                { str_eq(r.space.as_str(), space) },
            Ghost(|r: RootRowView| r.space != space@),
        );
    }

    /// Chunks in a space without a vector yet, each with its text, by id.
    pub fn pending_vector_chunks(&self, space: &str, limit: usize) -> (r: Vec<(String, String)>)
        ensures
            r.deep_view() == first_n(
                ordered(
                    self.deep_view().chunks.filter(is_pending(self.deep_view(), space@)),
                    by_chunk_id(),
                ),
                limit as nat,
            ).map_values(pending_text(self.deep_view())),
    {
        let ghost view = self.deep_view();
        let found = select(
            &self.chunks,
            |c: &DocChunkRow| -> (b: bool)
                ensures
                    b == is_pending(view, space@)(c.deep_view())
                {
                    str_eq(c.space.as_str(), space) && self.text_at(c.id.as_str()).is_some()
                        && !self.has_vector(c.id.as_str())
                },
            Ghost(is_pending(view, space@)),
        );
        let first = limited(
            order(
                found,
                |a: &DocChunkRow, b: &DocChunkRow| -> (le: bool)
                    ensures
                        le == by_chunk_id()(a.deep_view(), b.deep_view())
                    { str_le(a.id.as_str(), b.id.as_str()) },
                Ghost(by_chunk_id()),
            ),
            limit,
        );
        map_rows(
            &first,
            |c: &DocChunkRow| -> (p: (String, String))
                ensures
                    p.deep_view() == pending_text(view)(c.deep_view())
                {
                    let body = match self.text_at(c.id.as_str()) {
                        Some(i) => self.texts[i].body.clone(),
                        None => String::new(),
                    };
                    (c.id.clone(), body)
                },
            Ghost(pending_text(view)),
        )
    }

    /// Upsert quantized embedding vectors for chunks. A vector of the wrong
    /// dimension is an error, and leaves the cache as it was.
    pub fn upsert_vectors(&mut self, rows: &Vec<(String, Vec<u8>)>) -> (r: Result<(), BrainError>)
        ensures
            match misfit(vector_rows(rows@)) {
                Some(e) => fails_with(r, e) && final(self).deep_view() == old(self).deep_view(),
                None => r is Ok && final(self).deep_view() == (DocumentCacheView {
                    vectors: vectors_written(
                        old(self).deep_view().vectors,
                        vector_rows(rows@),
                    ),
                    ..old(self).deep_view()
                }),
            },
    {
        let ghost all = vector_rows(rows@);
        let ghost first = self.deep_view();
        let mut i: usize = 0;
        assert(all.take(0) =~= Seq::empty());
        while i < rows.len()
            invariant
                i <= rows.len(),
                all == vector_rows(rows@),
                self.deep_view() == first,
                first == old(self).deep_view(),
                misfit(all.take(i as int)) is None,
            decreases rows.len() - i,
        {
            proof {
                assert(all.take(i + 1).drop_last() =~= all.take(i as int));
                assert(all.take(i + 1).last() == all[i as int]);
            }
            if rows[i].1.len() != EMBEDDING_DIM {
                proof {
                    lemma_misfit(all, i + 1);
                }
                return Err(
                    BrainError::Invalid(
                        cat4(
                            "doc_vectors upsert dimension mismatch for ",
                            rows[i].0.as_str(),
                            ": expected 1024, got ",
                            crate::text::show_u64(rows[i].1.len() as u64).as_str(),
                        ),
                    ),
                );
            }
            i = i + 1;
        }
        assert(all.take(i as int) =~= all);
        let mut k: usize = 0;
        assert(all.take(0) =~= Seq::empty());
        while k < rows.len()
            invariant
                k <= rows.len(),
                all == vector_rows(rows@),
                self.deep_view() == (DocumentCacheView {
                    vectors: vectors_written(first.vectors, all.take(k as int)),
                    ..first
                }),
            decreases rows.len() - k,
        {
            let ghost id = all[k as int].0;
            proof {
                assert(all.take(k + 1).drop_last() =~= all.take(k as int));
                assert(all.take(k + 1).last() == all[k as int]);
            }
            let row = DocVectorRow {
                chunk_id: rows[k].0.clone(),
                embedding: dup_bytes(&rows[k].1),
            };
            insert_or_replace(
                &mut self.vectors,
                row,
                |v: &DocVectorRow| -> (same: bool)
                    ensures
                        same == vector_of(id)(v.deep_view())
                    { str_eq(v.chunk_id.as_str(), rows[k].0.as_str()) },
                Ghost(vector_of(id)),
            );
            k = k + 1;
        }
        assert(all.take(k as int) =~= all);
        Ok(())
    }

    /// Delete every vector, as when the embedding model changes.
    pub fn clear_vectors(&mut self)
        ensures
            final(self).deep_view() == (DocumentCacheView {
                vectors: Seq::empty(),
                ..old(self).deep_view()
            }),
    {
        self.vectors = Vec::new();
        assert(self.vectors.deep_view() =~= Seq::<DocVectorRowView>::empty());
    }

    /// Read a setting.
    pub fn meta_get(&self, key: &str) -> (r: Option<String>)
        ensures
            r.deep_view() == meta_value(self.deep_view().meta, key@),
    {
        read_meta(&self.meta, key)
    }

    /// Write a setting.
    pub fn meta_set(&mut self, key: &str, value: &str)
        ensures
            final(self).deep_view() == (DocumentCacheView {
                meta: meta_written(old(self).deep_view().meta, key@, value@),
                ..old(self).deep_view()
            }),
    {
        write_meta(&mut self.meta, key, value);
    }

    /// The versions that a cache must still be taken to, in order. A cache that is
    /// newer than the schema is an error.
    pub fn migrate(current: i64) -> (r: Result<Vec<i64>, BrainError>)
        ensures
            if current > DOCUMENTS_SCHEMA_VERSION {
                fails_with(
                    r,
                    BrainErrorView::Migration {
                        found: current,
                        expected: DOCUMENTS_SCHEMA_VERSION,
                    },
                )
            } else {
                r is Ok && r->Ok_0@ == Seq::new(
                    (DOCUMENTS_SCHEMA_VERSION + 1 - first_missing(current)) as nat,
                    |i: int| (first_missing(current) + i) as i64,
                )
            },
    {
        pending_versions(current, DOCUMENTS_SCHEMA_VERSION)
    }

    /// Whether a cache can be opened for reading only: it must have been migrated
    /// before.
    pub fn check_readable(version: i64, path: &str) -> (r: Result<(), BrainError>)
        ensures
            if version < 1 {
                fails_with(
                    r,
                    BrainErrorView::NotFound(
                        "documents.db at "@ + path@ + " has not been migrated"@,
                    ),
                )
            } else {
                r is Ok
            },
    {
        if version < 1 {
            return Err(
                BrainError::NotFound(cat3("documents.db at ", path, " has not been migrated")),
            );
        }
        Ok(())
    }
}

} // verus!
