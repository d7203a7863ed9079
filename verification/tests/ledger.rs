use oxibrain::consolidation::{
    cache_summary, checkpoint_begin, checkpoint_complete, completed_clusters,
    filter_pending_clusters, find_episode_clusters, get_cached_summary, hash_community_member_set,
    hash_member_set, write_derived_episode, EpisodeCluster,
};
use oxibrain::error::BrainError;
use oxibrain::extraction::{
    cache_response, extraction_run_counts, get_cached_response, ingest_event,
    uncached_memory_episodes,
};
use oxibrain::ledger::{
    create_space, decode_source, effective_policy_trust, get_episode, get_space, insert_episode,
    insert_policy, list_spaces, lookup_space_by_name, next_seq, space_id, Episode, EpisodeKind,
    IngestAttachment, SourceRef,
};
use oxibrain::lifecycle::compact_episodes;
use oxibrain::migration;
use oxibrain::quarantine::{list_failures, record_failure};
use oxibrain::schema::LEDGER_SCHEMA_VERSION;
use oxibrain::security::{
    generate_secret, hash_secret, issue_token, list_audit, list_tokens, revoke_token, secret_of,
    verify_token, write_audit, Capability, CapabilitySet, Scope,
};
use oxibrain::tables::{PolicyRow, Tables, TrustTier};
use oxibrain::time::{Timestamp, TIME_MAX};

fn test_store() -> (Tables, String) {
    let mut db = Tables::new();
    let space = create_space(&mut db, "test_space", Timestamp::from_millis(1000));
    (db, space)
}

fn episode_with(
    db: &mut Tables,
    space: &str,
    content: &str,
    source: SourceRef,
    kind: EpisodeKind,
) -> String {
    let now = Timestamp::from_millis(2000);
    let mut ep = Episode {
        id: String::new(),
        space: space.into(),
        seq: 0,
        content_hash: [0u8; 32],
        content: content.into(),
        source,
        trust: TrustTier::Trusted,
        kind,
        occurred_at: now,
        ingested_at: now,
        redacted_at: None,
    };
    let mut hash = [0u8; 32];
    for (i, b) in content.bytes().enumerate() {
        hash[i % 32] = hash[i % 32].wrapping_mul(31).wrapping_add(b);
    }
    insert_episode(db, &mut ep, format!("ep:{content}"), hash);
    ep.id
}

fn note(db: &mut Tables, space: &str, path: &str, content: &str) -> String {
    episode_with(
        db,
        space,
        content,
        SourceRef::Note { path: path.into() },
        EpisodeKind::Primary,
    )
}

fn cache(db: &mut Tables, episode: &str, extractor: &str, at: Timestamp) {
    cache_response(db, episode, extractor, r#"{"claims":[]}"#, vec![1, 2], at);
}

#[test]
fn uncached_memory_episodes_filters_documents_and_redacted() {
    let (mut db, space) = test_store();
    let now = Timestamp::from_millis(2000);
    let plain = note(&mut db, &space, "a.md", "plain note");
    episode_with(
        &mut db,
        &space,
        "document content",
        SourceRef::Document { uri: "doc://x".into() },
        EpisodeKind::Primary,
    );
    episode_with(
        &mut db,
        &space,
        "document revision content",
        SourceRef::DocumentRevision { uri: "doc://x".into() },
        EpisodeKind::Primary,
    );
    let redacted = note(&mut db, &space, "b.md", "redacted note");
    for e in db.episodes.iter_mut() {
        if e.id == redacted {
            e.redacted_at = Some(Timestamp(1));
        }
    }
    episode_with(
        &mut db,
        &space,
        "derived summary",
        SourceRef::Note { path: "c.md".into() },
        EpisodeKind::Derived,
    );
    let cached = note(&mut db, &space, "d.md", "cached note");
    cache(&mut db, &cached, "ext1", now);
    let other_ext = note(&mut db, &space, "e.md", "other extractor note");
    cache(&mut db, &other_ext, "ext2", now);
    let space2 = create_space(&mut db, "other_space", now);
    note(&mut db, &space2, "f.md", "other space note");

    let ids = uncached_memory_episodes(&db, &space, "ext1", Timestamp(TIME_MAX));
    assert_eq!(ids, vec![plain, other_ext]);
}

#[test]
fn uncached_memory_episodes_respects_failure_cooldown() {
    let (mut db, space) = test_store();
    let failed_recent = note(&mut db, &space, "a.md", "recent failure");
    let failed_old = note(&mut db, &space, "b.md", "old failure");
    record_failure(&mut db, &failed_recent, "ext1", "{}", "[]", Timestamp::from_millis(20_000));
    record_failure(&mut db, &failed_old, "ext1", "{}", "[]", Timestamp::from_millis(5_000));

    let cutoff = Timestamp::from_millis(10_000);
    let ids = uncached_memory_episodes(&db, &space, "ext1", cutoff);
    assert_eq!(ids, vec![failed_old.clone()]);

    let ids = uncached_memory_episodes(&db, &space, "ext1", Timestamp(TIME_MAX));
    assert_eq!(ids, vec![failed_recent, failed_old]);
}

#[test]
fn cache_roundtrip() {
    let (mut db, space) = test_store();
    let ep = note(&mut db, &space, "g.md", "test content");
    cache(&mut db, &ep, "ext1", Timestamp::from_millis(2000));
    let cached = get_cached_response(&db, &ep, "ext1");
    assert_eq!(cached.as_deref(), Some(r#"{"claims":[]}"#));
    assert!(get_cached_response(&db, &ep, "ext2").is_none());
}

#[test]
fn extraction_run_counts_bucket_by_window() {
    let (mut db, space) = test_store();
    let in_window = Timestamp::from_millis(20_000);
    let before_window = Timestamp::from_millis(5_000);
    let accepted = note(&mut db, &space, "a.md", "accepted note");
    let rejected = note(&mut db, &space, "b.md", "rejected note");
    let stale = note(&mut db, &space, "c.md", "stale note");
    cache(&mut db, &accepted, "ext1", in_window);
    record_failure(&mut db, &rejected, "ext1", "{}", "[]", in_window);
    record_failure(&mut db, &rejected, "ext1", "{}", "[]", in_window);
    cache(&mut db, &stale, "ext1", before_window);
    record_failure(&mut db, &stale, "ext1", "{}", "[]", before_window);
    let counts =
        extraction_run_counts(&db, Timestamp::from_millis(10_000), Timestamp::from_millis(30_000));
    assert_eq!(counts.accepted, 1);
    assert_eq!(counts.rejected_episodes, 1);
    assert_eq!(counts.failure_rows, 2);
    assert_eq!(list_failures(&db, Some(&space)).len(), 3);
    assert!(list_failures(&db, Some("other")).is_empty());
}

#[test]
fn spaces_are_named_and_listed() {
    let mut db = Tables::new();
    let a = create_space(&mut db, "alpha", Timestamp(2));
    let b = create_space(&mut db, "beta", Timestamp(1));
    assert_eq!(a, space_id("alpha"));
    assert_ne!(a, b);
    assert_eq!(create_space(&mut db, "alpha", Timestamp(9)), a);
    assert_eq!(db.spaces.len(), 2);
    assert_eq!(get_space(&db, &a).as_deref(), Some("alpha"));
    assert_eq!(lookup_space_by_name(&db, "beta"), Some(b.clone()));
    assert_eq!(lookup_space_by_name(&db, "gamma"), None);
    note(&mut db, &a, "x", "one");
    let rows = list_spaces(&db);
    assert_eq!(rows.len(), 2);
    let row = rows.iter().find(|r| r.id == a).unwrap();
    assert_eq!((row.episode_count, row.entity_count), (1, 0));
}

#[test]
fn episodes_are_inserted_once_and_read_back() {
    let (mut db, space) = test_store();
    assert_eq!(next_seq(&db, &space), 0);
    let id = note(&mut db, &space, "a.md", "text");
    assert_eq!(next_seq(&db, &space), 1);
    let again = note(&mut db, &space, "a.md", "text");
    assert_eq!(id, again);
    assert_eq!(db.episodes.len(), 1);
    let ep = get_episode(&db, &id).unwrap().unwrap();
    assert_eq!(ep.content, "text");
    assert_eq!(ep.seq, 0);
    assert!(matches!(ep.source, SourceRef::Note { path } if path == "a.md"));
    assert!(get_episode(&db, "nope").unwrap().is_none());
}

#[test]
fn events_carry_their_occurrence() {
    let (mut db, space) = test_store();
    let a = IngestAttachment {
        source_id: "src".into(),
        occurrence_id: "occ".into(),
        accepted_at: Timestamp(5),
        principal: "me".into(),
        claims_json: "{}".into(),
    };
    let id = ingest_event(
        &mut db,
        &space,
        "body",
        SourceRef::WebClip { uri: "u".into() },
        TrustTier::SemiTrusted,
        Some(&a),
        Timestamp(7),
        "e1".into(),
        [3u8; 32],
    )
    .unwrap();
    assert_eq!(id, "e1");
    let again = ingest_event(
        &mut db,
        &space,
        "body",
        SourceRef::WebClip { uri: "u".into() },
        TrustTier::SemiTrusted,
        Some(&a),
        Timestamp(8),
        "e2".into(),
        [3u8; 32],
    )
    .unwrap();
    assert_eq!(again, "e1");
    assert_eq!(db.episodes.len(), 1);
    let other = ingest_event(
        &mut db,
        &space,
        "other body",
        SourceRef::WebClip { uri: "u".into() },
        TrustTier::SemiTrusted,
        Some(&a),
        Timestamp(9),
        "e3".into(),
        [4u8; 32],
    );
    assert!(matches!(other.unwrap_err(), BrainError::Conflict(_)));
}

#[test]
fn sources_read_back_from_their_columns() {
    for s in [
        SourceRef::Note { path: "p".into() },
        SourceRef::Conversation,
        SourceRef::CalendarEvent { uri: "c".into() },
        SourceRef::Declaration,
        SourceRef::Derived { of: "o".into() },
    ] {
        let shown = format!("{:?}", s);
        let (kind, reference) = s.db_columns();
        assert_eq!(format!("{:?}", decode_source(&kind, reference).unwrap()), shown);
    }
    assert!(decode_source("nope", None).is_err());
    assert_eq!(EpisodeKind::parse_db("derived"), Some(EpisodeKind::Derived));
    assert_eq!(EpisodeKind::parse_db("x"), None);
    assert_eq!(TrustTier::parse_db("semi_trusted"), Some(TrustTier::SemiTrusted));
}

#[test]
fn the_latest_policy_decides() {
    let mut db = Tables::new();
    let policy = |id: &str, trust: TrustTier, from: i64, to: Option<i64>| PolicyRow {
        id: id.into(),
        source_id: "src".into(),
        trust,
        effective_from: Timestamp(from),
        effective_to: to.map(Timestamp),
        declaration_ep: "d".into(),
        created_at: Timestamp(0),
    };
    insert_policy(&mut db, &policy("a", TrustTier::Trusted, 10, None));
    insert_policy(&mut db, &policy("b", TrustTier::Untrusted, 20, Some(30)));
    assert_eq!(effective_policy_trust(&db, "src", Timestamp(5)), None);
    assert_eq!(effective_policy_trust(&db, "src", Timestamp(15)), Some(TrustTier::Trusted));
    assert_eq!(effective_policy_trust(&db, "src", Timestamp(25)), Some(TrustTier::Untrusted));
    assert_eq!(effective_policy_trust(&db, "src", Timestamp(30)), Some(TrustTier::Trusted));
    assert_eq!(effective_policy_trust(&db, "other", Timestamp(25)), None);
}

#[test]
fn compacted_episodes_read_the_same() {
    let (mut db, space) = test_store();
    let id = note(&mut db, &space, "a.md", "old text");
    let day: i64 = 86_400_000;
    assert_eq!(compact_episodes(&mut db, &space, Timestamp(day), 30), 0);
    let n = compact_episodes(&mut db, &space, Timestamp(2000 + 31 * day), 30);
    assert_eq!(n, 1);
    assert_eq!(db.episodes[0].content, "");
    assert_eq!(get_episode(&db, &id).unwrap().unwrap().content, "old text");
    assert_eq!(compact_episodes(&mut db, &space, Timestamp(2000 + 31 * day), 30), 0);
}

#[test]
fn fresh_db_migrates_to_current() {
    let steps = migration::run(0).unwrap();
    assert_eq!(steps.last().unwrap().version, LEDGER_SCHEMA_VERSION);
    assert_eq!(steps.len() as i64, LEDGER_SCHEMA_VERSION);
    assert!(steps.iter().any(|s| s.work == migration::MigrationWork::SeedPredicates));
    assert!(migration::run(LEDGER_SCHEMA_VERSION).unwrap().is_empty());
    assert_eq!(migration::run(LEDGER_SCHEMA_VERSION - 1).unwrap().len(), 1);
}

#[test]
fn newer_db_is_hard_error() {
    let err = migration::run(999).unwrap_err();
    assert!(matches!(
        err,
        BrainError::Migration { found: 999, expected: LEDGER_SCHEMA_VERSION }
    ));
}

#[test]
fn summary_cache_roundtrip() {
    let mut db = Tables::new();
    let hash = hash_member_set(&vec!["e1".into(), "e2".into()]);
    let now = Timestamp::from_millis(1000);
    assert!(get_cached_summary(&db, "community", &hash, "ext1").is_none());
    cache_summary(&mut db, "community", &hash, "ext1", "summary text", now);
    let cached = get_cached_summary(&db, "community", &hash, "ext1");
    assert_eq!(cached.as_deref(), Some("summary text"));
    assert!(get_cached_summary(&db, "episode", &hash, "ext1").is_none());
}

#[test]
fn hash_is_deterministic() {
    let h1 = hash_member_set(&vec!["b".into(), "a".into()]);
    let h2 = hash_member_set(&vec!["a".into(), "b".into()]);
    assert_eq!(h1, h2);
}

#[test]
fn member_sets_have_their_own_hash() {
    let h = |ids: &[&str]| hash_member_set(&ids.iter().map(|s| s.to_string()).collect());
    assert_ne!(h(&["a", "b"]), h(&["ab"]));
    assert_ne!(h(&["a"]), h(&["b"]));
    let c = |ids: &[&str]| hash_community_member_set(&ids.iter().map(|s| s.to_string()).collect());
    assert_eq!(c(&["b", "a"]), c(&["a", "b"]));
    assert_ne!(c(&["a"]), c(&["b"]));
}

#[test]
fn hashes_are_those_of_the_hash_functions() {
    assert_eq!(
        hash_secret("obt_x"),
        hex::encode(<sha2::Sha256 as sha2::Digest>::digest(b"obt_x"))
    );
    assert_eq!(secret_of([0xabu8; 32]), format!("obt_{}", "ab".repeat(32)));
}

#[test]
fn checkpoint_lifecycle() {
    let mut db = Tables::new();
    let h1 = [1u8; 32];
    let h2 = [2u8; 32];
    let now = Timestamp::from_millis(1);
    checkpoint_begin(&mut db, &h1, "ext_a", now);
    checkpoint_begin(&mut db, &h2, "ext_a", now);
    checkpoint_complete(&mut db, &h1, now);
    let done = completed_clusters(&db, "ext_a");
    assert_eq!(done.len(), 1);
    assert!(!done.contains(&hex::encode(h2)));
    assert!(done.contains(&hex::encode(h1)));
}

fn cluster(ids: &[&str]) -> EpisodeCluster {
    EpisodeCluster {
        episode_ids: ids.iter().map(|s| s.to_string()).collect(),
        shared_entities: vec![],
    }
}

#[test]
fn filter_pending_keeps_in_progress_drops_completed() {
    let mut db = Tables::new();
    let done_ids: Vec<String> = vec!["done_a".into(), "done_b".into()];
    let in_progress_ids: Vec<String> = vec!["prog_a".into(), "prog_b".into()];
    let done_h = hash_member_set(&done_ids);
    let in_progress_h = hash_member_set(&in_progress_ids);
    let now = Timestamp::from_millis(1);
    checkpoint_begin(&mut db, &done_h, "ext_b", now);
    checkpoint_complete(&mut db, &done_h, now);
    checkpoint_begin(&mut db, &in_progress_h, "ext_b", now);
    let seeded = vec![cluster(&["prog_a", "prog_b"]), cluster(&["done_a", "done_b"])];
    let pending = filter_pending_clusters(&db, "ext_b", &seeded);
    assert_eq!(pending.len(), 1);
    assert_eq!(pending[0].episode_ids, in_progress_ids);
}

#[test]
fn filter_pending_is_input_order_preserving() {
    let mut db = Tables::new();
    let now = Timestamp::from_millis(1);
    let clusters = vec![cluster(&["c", "a"]), cluster(&["b", "d"]), cluster(&["e", "f"])];
    let pending = filter_pending_clusters(&db, "ext_z", &clusters);
    assert_eq!(pending.len(), 3);
    assert_eq!(pending[0].episode_ids, vec!["c".to_string(), "a".to_string()]);
    assert_eq!(pending[1].episode_ids, vec!["b".to_string(), "d".to_string()]);
    assert_eq!(pending[2].episode_ids, vec!["e".to_string(), "f".to_string()]);
    let mid_h = hash_member_set(&vec!["b".into(), "d".into()]);
    checkpoint_begin(&mut db, &mid_h, "ext_z", now);
    checkpoint_complete(&mut db, &mid_h, now);
    let pending = filter_pending_clusters(&db, "ext_z", &clusters);
    assert_eq!(pending.len(), 2);
    assert_eq!(pending[0].episode_ids, vec!["c".to_string(), "a".to_string()]);
    assert_eq!(pending[1].episode_ids, vec!["e".to_string(), "f".to_string()]);
}

#[test]
fn derived_episodes_link_to_their_sources() {
    let (mut db, space) = test_store();
    let a = note(&mut db, &space, "a", "one");
    let b = note(&mut db, &space, "b", "two");
    let id = write_derived_episode(
        &mut db,
        &space,
        "summary",
        &vec![a, b],
        "consolidation".into(),
        Some("{}".into()),
        Timestamp(9),
        "d1".into(),
        [9u8; 32],
    );
    assert_eq!(id, "d1");
    assert_eq!(db.links.len(), 2);
    let row = db.episodes.iter().find(|e| e.id == "d1").unwrap();
    assert_eq!(row.kind, "derived");
    assert_eq!(row.uncertainty_json.as_deref(), Some("{}"));
    assert!(find_episode_clusters(&db, &space).is_empty());
}

#[test]
fn test_generate_secret_is_cryptographically_unique() {
    let s1 = generate_secret().unwrap();
    let s2 = generate_secret().unwrap();
    assert!(s1.starts_with("obt_"));
    assert!(s2.starts_with("obt_"));
    assert_ne!(s1, s2, "two consecutive secrets must differ");
    assert_eq!(s1.len(), 68);
}

fn sample_scope(expires_at: Option<Timestamp>) -> Scope {
    let mut caps = CapabilitySet::new();
    caps.insert(Capability::Read);
    caps.insert(Capability::Write);
    Scope { spaces: vec!["personal".into()], caps, expires_at }
}

fn issue(db: &mut Tables, scope: &Scope, id: &str, now: Timestamp) -> String {
    let secret = generate_secret().unwrap();
    let info = issue_token(db, scope, "cli", Some("test".into()), now, &secret, id.into());
    assert_eq!(info.id, id);
    secret
}

#[test]
fn token_issue_verify_cycle() {
    let mut db = Tables::new();
    let now = Timestamp::from_millis(1000);
    let secret = issue(&mut db, &sample_scope(None), "t1", now);
    assert!(!secret.is_empty());
    assert!(secret.starts_with("obt_"));
    let verified = verify_token(&db, &secret, now).unwrap();
    assert!(verified.caps.contains(Capability::Read));
    assert!(!verified.caps.contains(Capability::Redact));
    assert!(verify_token(&db, "obt_wrong", now).is_none());
    assert!(db.tokens.iter().all(|t| !t.token_hash.contains(&secret)));
}

#[test]
fn token_revoke_blocks_verify() {
    let mut db = Tables::new();
    let now = Timestamp::from_millis(1000);
    let secret = issue(&mut db, &sample_scope(None), "t1", now);
    assert!(verify_token(&db, &secret, now).is_some());
    revoke_token(&mut db, "t1", now).unwrap();
    assert!(verify_token(&db, &secret, now).is_none());
    assert!(revoke_token(&mut db, "nope", now).is_err());
    assert_eq!(list_tokens(&db)[0].revoked_at, Some(now));
}

#[test]
fn token_expiry() {
    let mut db = Tables::new();
    let now = Timestamp::from_millis(1000);
    let scope = sample_scope(Some(Timestamp::from_millis(2000)));
    let secret = issue(&mut db, &scope, "t1", now);
    assert!(verify_token(&db, &secret, Timestamp::from_millis(1500)).is_some());
    assert!(verify_token(&db, &secret, Timestamp::from_millis(2000)).is_none());
}

#[test]
fn audit_write_and_list() {
    let mut db = Tables::new();
    let now = Timestamp::from_millis(1000);
    write_audit(
        &mut db,
        "cli",
        Some("personal".into()),
        "declare",
        Some("stmt1".into()),
        None,
        now,
    );
    write_audit(&mut db, "admin", None, "token_issue", None, Some("{}".into()), now);
    assert_eq!(list_audit(&db, None).len(), 2);
    assert_eq!(list_audit(&db, Some(1)).len(), 1);
}

#[test]
fn token_uniqueness() {
    let mut db = Tables::new();
    let now = Timestamp::from_millis(1000);
    let scope = sample_scope(None);
    let s1 = issue(&mut db, &scope, "t1", now);
    let s2 = issue(&mut db, &scope, "t2", now);
    assert_ne!(s1, s2);
}

#[test]
fn a_duplicate_takes_the_identity_of_the_stored_row() {
    let (mut db, space) = test_store();
    let first = note(&mut db, &space, "a.md", "same text");
    let stored = get_episode(&db, &first).unwrap().unwrap();
    let mut again = Episode {
        id: String::new(),
        space: space.clone(),
        seq: 0,
        content_hash: [0u8; 32],
        content: "same text".into(),
        source: SourceRef::Note { path: "b.md".into() },
        trust: TrustTier::Trusted,
        kind: EpisodeKind::Primary,
        occurred_at: Timestamp(9000),
        ingested_at: Timestamp(9000),
        redacted_at: None,
    };
    insert_episode(&mut db, &mut again, "another id".into(), stored.content_hash);
    assert_eq!(again.id, first);
    assert_eq!((again.seq, again.content_hash), (stored.seq, stored.content_hash));
    assert_eq!(db.episodes.len(), 1);
    assert_eq!(next_seq(&db, &space), stored.seq + 1);
}

#[test]
fn a_token_verifies_from_issue_to_its_end() {
    let mut db = Tables::new();
    let scope = sample_scope(Some(Timestamp(2000)));
    let secret = issue(&mut db, &scope, "t1", Timestamp(1000));
    let other = issue(&mut db, &sample_scope(None), "t2", Timestamp(1000));
    for (at, valid) in [(1000, true), (1999, true), (2000, false), (9000, false)] {
        assert_eq!(verify_token(&db, &secret, Timestamp(at)).is_some(), valid);
    }
    revoke_token(&mut db, "t1", Timestamp(1500)).unwrap();
    assert!(verify_token(&db, &secret, Timestamp(1500)).is_none());
    assert!(verify_token(&db, &other, Timestamp(9000)).is_some());
}
