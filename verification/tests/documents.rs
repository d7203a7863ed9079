use oxibrain::documents::{
    config_hash_for, root_fp_key, ApplyPlan, ChunkUpsert, DocumentCache, DocumentUpsert,
    FileAction, FileObservation, RootAction, RootApply, RootFingerprint,
    DOCUMENTS_SCHEMA_VERSION, EMBEDDING_DIM,
};
use oxibrain::error::BrainError;

fn fp(alias: &str, space: &str) -> RootFingerprint {
    RootFingerprint {
        alias: alias.to_owned(),
        canonical_path: format!("/tmp/{alias}"),
        space: space.to_owned(),
        included: vec!["**/*.md".to_owned()],
        excluded: Vec::new(),
        max_file_bytes: 1024 * 1024,
    }
}

fn obs(locator: &str, bytes: u64, rev: &str) -> FileObservation {
    FileObservation {
        locator: locator.to_owned(),
        bytes,
        modified_ns: 1_700_000_000_000_000_000,
        revision_hint: Some(rev.to_owned()),
    }
}

fn add(locator: &str, bytes: u64, rev: &str) -> FileAction {
    FileAction::Add { seen: obs(locator, bytes, rev) }
}

fn upsert(locator: &str, revision: &str, text: &str, chunks: usize) -> DocumentUpsert {
    let mut cu = Vec::with_capacity(chunks);
    let per = text.len() / chunks.max(1);
    let id = format!("doc:{locator}");
    for i in 0..chunks {
        let s = i * per;
        let e = if i + 1 == chunks { text.len() } else { (i + 1) * per };
        cu.push(ChunkUpsert {
            id: format!("{id}:{revision}:{i}"),
            ordinal: i as u32,
            span_start: s,
            span_end: e,
            context: String::new(),
            text: text[s..e].to_owned(),
        });
    }
    DocumentUpsert {
        id,
        locator: locator.to_owned(),
        revision: revision.to_owned(),
        media_type: "text/markdown".to_owned(),
        bytes: text.len() as u64,
        modified_ns: 1_700_000_000_000_000_000,
        modified_at: 1_700_000_000,
        chunks: cu,
    }
}

fn plan(
    alias: &str,
    space: &str,
    action: RootAction,
    expected_generation: i64,
    actions: Vec<FileAction>,
    upserts: Vec<DocumentUpsert>,
) -> ApplyPlan {
    ApplyPlan {
        root_actions: vec![(alias.to_owned(), action)],
        roots: vec![RootApply {
            fingerprint: fp(alias, space),
            fingerprint_json: format!("{{\"alias\":\"{alias}\"}}"),
            expected_generation,
            actions,
            upserts,
        }],
    }
}

fn add_plan(alias: &str, space: &str, locator: &str, revision: &str) -> ApplyPlan {
    plan(
        alias,
        space,
        RootAction::KeepRoot,
        0,
        vec![add(locator, 12, revision)],
        vec![upsert(locator, revision, "hello world", 1)],
    )
}

fn counts(c: &DocumentCache) -> [usize; 6] {
    [
        c.documents.len(),
        c.chunks.len(),
        c.fts_word.len(),
        c.fts_ngram.len(),
        c.manifest.len(),
        c.vectors.len(),
    ]
}

#[test]
fn open_rw_creates_schema() {
    assert_eq!(DocumentCache::migrate(0).unwrap(), vec![1, 2]);
    assert_eq!(*DocumentCache::migrate(0).unwrap().last().unwrap(), DOCUMENTS_SCHEMA_VERSION);
    let cache = DocumentCache::new();
    assert!(cache.list_roots().unwrap().is_empty());
    assert_eq!(cache.meta_get("documents_schema_version"), None);
}

#[test]
fn migrations_of_the_cache_are_forward_only() {
    assert_eq!(DocumentCache::migrate(1).unwrap(), vec![2]);
    assert!(DocumentCache::migrate(2).unwrap().is_empty());
    assert!(matches!(
        DocumentCache::migrate(3).unwrap_err(),
        BrainError::Migration { found: 3, expected: 2 }
    ));
    assert!(DocumentCache::check_readable(1, "/x").is_ok());
    match DocumentCache::check_readable(0, "/x").unwrap_err() {
        BrainError::NotFound(m) => {
            assert_eq!(m, "documents.db at /x has not been migrated")
        }
        other => panic!("{:?}", other),
    }
}

#[test]
fn apply_add_inserts_everywhere() {
    let mut cache = DocumentCache::new();
    cache.apply(&add_plan("vault", "personal", "notes/a.md", "rev1"), 1).unwrap();
    assert_eq!(counts(&cache), [1, 1, 1, 1, 1, 0]);
    assert_eq!(cache.generation("vault"), 1);
    assert_eq!(cache.generation("other"), 0);
}

#[test]
fn apply_replace_removes_old_chunks_and_inserts_new() {
    let mut cache = DocumentCache::new();
    cache.apply(&add_plan("vault", "personal", "notes/a.md", "rev1"), 1).unwrap();
    let old_chunk_id = cache.chunks[0].id.clone();
    let p = plan(
        "vault",
        "personal",
        RootAction::KeepRoot,
        1,
        vec![FileAction::Replace { seen: obs("notes/a.md", 100, "rev2") }],
        vec![upsert("notes/a.md", "rev2", "the quick brown fox", 2)],
    );
    cache.apply(&p, 2).unwrap();
    assert!(cache.chunks.iter().all(|c| c.id != old_chunk_id));
    assert_eq!(cache.chunks.len(), 2);
    assert_eq!(cache.fts_word.len(), 2);
    assert_eq!(cache.fts_ngram.len(), 2);
    assert_eq!(cache.generation("vault"), 2);
}

#[test]
fn apply_delete_removes_everything() {
    let mut cache = DocumentCache::new();
    cache.apply(&add_plan("vault", "personal", "notes/a.md", "rev1"), 1).unwrap();
    let p = plan(
        "vault",
        "personal",
        RootAction::KeepRoot,
        1,
        vec![FileAction::Delete { locator: "notes/a.md".to_owned() }],
        vec![],
    );
    cache.apply(&p, 2).unwrap();
    assert_eq!(counts(&cache), [0, 0, 0, 0, 0, 0]);
    assert!(cache.texts.is_empty());
}

#[test]
fn remove_root_cascades_through_vectors_and_fts() {
    let mut cache = DocumentCache::new();
    cache.apply(&add_plan("vault", "personal", "notes/a.md", "rev1"), 1).unwrap();
    let chunk_id = cache.chunks[0].id.clone();
    cache.upsert_vectors(&vec![(chunk_id, vec![0u8; EMBEDDING_DIM])]).unwrap();
    assert_eq!(cache.vectors.len(), 1);
    let p = ApplyPlan {
        root_actions: vec![("vault".to_owned(), RootAction::RemoveRoot)],
        roots: Vec::new(),
    };
    cache.apply(&p, 2).unwrap();
    assert_eq!(counts(&cache), [0, 0, 0, 0, 0, 0]);
    assert!(cache.list_roots().unwrap().is_empty());
    assert_eq!(cache.meta_get(&root_fp_key("vault")), None);
}

#[test]
fn reset_root_rebuilds_at_generation_one() {
    let mut cache = DocumentCache::new();
    cache.apply(&add_plan("vault", "personal", "notes/a.md", "rev1"), 1).unwrap();
    assert_eq!(cache.generation("vault"), 1);
    let p = plan(
        "vault",
        "personal",
        RootAction::ResetRoot,
        0,
        vec![add("notes/a.md", 8, "rev9")],
        vec![upsert("notes/a.md", "rev9", "rewritten", 1)],
    );
    cache.apply(&p, 2).unwrap();
    assert_eq!(cache.documents.len(), 1);
    assert_eq!(cache.chunks.len(), 1);
    assert_eq!(cache.generation("vault"), 1);
}

#[test]
fn cas_mismatch_returns_busy_and_no_partial_state() {
    let mut cache = DocumentCache::new();
    cache.apply(&add_plan("vault", "personal", "notes/a.md", "rev1"), 1).unwrap();
    let p = plan(
        "vault",
        "personal",
        RootAction::KeepRoot,
        0,
        vec![FileAction::Replace { seen: obs("notes/a.md", 8, "rev2") }],
        vec![upsert("notes/a.md", "rev2", "rewritten", 1)],
    );
    let err = cache.apply(&p, 2).unwrap_err();
    assert!(matches!(err, BrainError::Busy(_)));
    assert_eq!(counts(&cache), [1, 1, 1, 1, 1, 0]);
    assert_eq!(cache.documents[0].revision, "rev1");
    assert_eq!(cache.generation("vault"), 1);
}

#[test]
fn rebuild_equivalence_after_drop_and_rebuild() {
    let mut cache1 = DocumentCache::new();
    cache1.apply(&add_plan("vault", "personal", "notes/a.md", "rev1"), 1).unwrap();
    let mut cache2 = DocumentCache::new();
    cache2.apply(&add_plan("vault", "personal", "notes/a.md", "rev1"), 1).unwrap();
    assert_eq!(counts(&cache1), counts(&cache2));
}

#[test]
fn embedded_count_pending_clear_vectors() {
    let mut cache = DocumentCache::new();
    let upserts = vec![
        upsert("notes/a.md", "rev1", "alpha bravo", 2),
        upsert("notes/b.md", "rev1", "charlie delta", 2),
    ];
    let texts: Vec<String> = upserts
        .iter()
        .flat_map(|u| u.chunks.iter().map(|c| c.text.clone()))
        .collect();
    let actions = upserts.iter().map(|u| add(&u.locator, u.bytes, &u.revision)).collect();
    let p = plan("vault", "personal", RootAction::KeepRoot, 0, actions, upserts);
    cache.apply(&p, 1).unwrap();

    assert_eq!(cache.embedded_count("personal"), (0, 4));
    let pending = cache.pending_vector_chunks("personal", 100);
    assert_eq!(pending.len(), 4);
    assert_eq!(cache.pending_vector_chunks("personal", 3).len(), 3);

    let (chunk_id, _text) = pending[0].clone();
    cache.upsert_vectors(&vec![(chunk_id.clone(), vec![0u8; EMBEDDING_DIM])]).unwrap();
    assert_eq!(cache.embedded_count("personal"), (1, 4));
    let pending = cache.pending_vector_chunks("personal", 100);
    assert_eq!(pending.len(), 3);
    assert!(pending.iter().all(|(id, _)| id != &chunk_id));
    assert!(pending.iter().all(|(_, t)| texts.contains(t)));

    cache.clear_vectors();
    assert_eq!(cache.embedded_count("personal"), (0, 4));
}

#[test]
fn vectors_of_another_size_are_refused() {
    let mut cache = DocumentCache::new();
    assert!(cache.upsert_vectors(&vec![("c".to_string(), vec![0u8; 3])]).is_err());
    assert!(cache.vectors.is_empty());
}

#[test]
fn meta_get_and_set_roundtrip() {
    let mut cache = DocumentCache::new();
    assert_eq!(cache.meta_get("foo"), None);
    cache.meta_set("foo", "bar");
    assert_eq!(cache.meta_get("foo").as_deref(), Some("bar"));
    cache.meta_set("foo", "baz");
    assert_eq!(cache.meta_get("foo").as_deref(), Some("baz"));
}

#[test]
fn chunks_returns_known_ids() {
    let mut cache = DocumentCache::new();
    cache.apply(&add_plan("vault", "personal", "notes/a.md", "rev1"), 1).unwrap();
    let id = cache.chunks[0].id.clone();
    let rows = cache.chunks(&vec![id.clone(), "unknown".to_string()]);
    assert_eq!(rows.len(), 1);
    assert_eq!(rows[0].chunk_id, id);
    assert_eq!(rows[0].root_alias, "vault");
    assert_eq!(rows[0].space, "personal");
    assert_eq!(rows[0].locator, "notes/a.md");
    assert_eq!(rows[0].revision, "rev1");
    assert_eq!(rows[0].media_type, "text/markdown");
}

#[test]
fn document_and_chunk_counts_are_space_scoped() {
    let mut cache = DocumentCache::new();
    cache.apply(&add_plan("alpha", "s1", "a.md", "r1"), 1).unwrap();
    cache.apply(&add_plan("beta", "s2", "b.md", "r1"), 1).unwrap();
    assert_eq!(cache.document_count_for_space("s1"), 1);
    assert!(cache.chunk_count_for_space("s1") > 0);
    assert_eq!(cache.document_count_for_space("s2"), 1);
}

#[test]
fn purge_space_removes_only_that_space() {
    let mut cache = DocumentCache::new();
    cache.apply(&add_plan("alpha", "s1", "a.md", "r1"), 1).unwrap();
    cache.apply(&add_plan("beta", "s2", "b.md", "r1"), 1).unwrap();
    cache.purge_space("s1");
    assert_eq!(cache.document_count_for_space("s1"), 0);
    assert_eq!(cache.chunk_count_for_space("s1"), 0);
    assert_eq!(cache.document_count_for_space("s2"), 1);
}

#[test]
fn roots_and_manifests_are_listed() {
    let mut cache = DocumentCache::new();
    cache.apply(&add_plan("alpha", "s1", "b.md", "r1"), 1).unwrap();
    let roots = cache.list_roots().unwrap();
    assert_eq!(roots.len(), 1);
    assert_eq!(roots[0].alias, "alpha");
    assert_eq!(roots[0].generation, 1);
    assert_eq!(roots[0].fingerprint_json, "{\"alias\":\"alpha\"}");
    let files = cache.root_manifest("alpha");
    assert_eq!(files.len(), 1);
    assert_eq!(files[0].locator, "b.md");
    assert_eq!(files[0].bytes, 11);
}

#[test]
fn configurations_have_their_own_hash() {
    let a = config_hash_for(&fp("alpha", "s1"));
    let b = config_hash_for(&fp("beta", "s1"));
    assert_ne!(a, b);
    assert_eq!(a, config_hash_for(&fp("alpha", "s1")));
    assert!(a.chars().all(|c| c.is_ascii_hexdigit()));
    let mut narrow = fp("alpha", "s1");
    narrow.included = vec!["**/*.txt".to_owned()];
    assert_ne!(a, config_hash_for(&narrow));
}

#[test]
fn nearest_vectors_come_first() {
    let mut cache = DocumentCache::new();
    cache.apply(&add_plan("vault", "personal", "notes/a.md", "rev1"), 1).unwrap();
    let mut near = vec![1u8; EMBEDDING_DIM];
    let far = vec![100u8; EMBEDDING_DIM];
    near[0] = 2;
    cache
        .upsert_vectors(&vec![("far".to_string(), far), ("near".to_string(), near)])
        .unwrap();
    let hits = cache.knn(&vec![1u8; EMBEDDING_DIM], 1).unwrap();
    assert_eq!(hits.len(), 1);
    assert_eq!(hits[0].0, "near");
    assert!(cache.knn(&vec![1u8; 3], 1).is_err());
}

#[test]
fn every_root_of_a_plan_moves_on_or_none_does() {
    let mut cache = DocumentCache::new();
    cache.apply(&add_plan("vault", "personal", "notes/a.md", "rev1"), 1).unwrap();
    let mut both = add_plan("vault", "personal", "notes/b.md", "rev1");
    both.roots[0].expected_generation = 1;
    both.roots.extend(add_plan("desk", "work", "c.md", "rev1").roots);
    cache.apply(&both, 2).unwrap();
    assert_eq!((cache.generation("vault"), cache.generation("desk")), (2, 1));
    let before = counts(&cache);
    let mut stale = add_plan("vault", "personal", "notes/d.md", "rev1");
    stale.roots[0].expected_generation = 2;
    stale.roots.extend(add_plan("desk", "work", "e.md", "rev1").roots);
    match cache.apply(&stale, 3).unwrap_err() {
        BrainError::Busy(m) => assert!(m.contains("desk")),
        other => panic!("{:?}", other),
    }
    assert_eq!(counts(&cache), before);
    assert_eq!((cache.generation("vault"), cache.generation("desk")), (2, 1));
}
