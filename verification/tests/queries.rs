use oxibrain::communities::rebuild_communities;
use oxibrain::documents::{doc_fts_table, FtsTable};
use oxibrain::error::BrainError;
use oxibrain::extraction::{ingest_event, parse_claim_literal, project_extraction};
use oxibrain::json::Json;
use oxibrain::knowledge::{
    find_keys_exact, find_keys_for_type, get_assertions_for_statement, get_entity,
    get_statement_group, insert_assertion, insert_entity, insert_entity_key, insert_merge,
    insert_mention, insert_statement, list_merges, replace_beliefs, resolve_entity,
    set_merged_into,
};
use oxibrain::ledger::{
    create_space, get_source_by_name, insert_episode, insert_source, list_sources, locator_states,
    note_hashes_by_path, Episode, EpisodeKind, IngestAttachment, SourceRef,
};
use oxibrain::lifecycle::{apply_decay, decay_inputs};
use oxibrain::meta;
use oxibrain::migration::pending_versions;
use oxibrain::project::{
    default_polarity, parse_literal, resolve_or_create, Decision, EntityRef, Resolution, TypedValue,
    SALIENCE_DEFAULT,
};
use oxibrain::query::{
    check_embedding, fts_table, fts_target, graph_walk, hybrid_query, load_adjacency,
    retrieval_spec, searches, tfidf_corpus, traverse, value_text, vector_target, FtsIndex, Query, QueryMode,
    RankChannel, RankPreset, SearchHit, SearchResults, TargetId,
};
use oxibrain::registry::{load_all_predicates, seed_core_v1};
use oxibrain::schema::{pragmas, LEDGER_SCHEMA_VERSION, PROJECTION_VERSION};
use oxibrain::tables::{
    Assertion, Belief, Entity, EntityKey, EntityMerge, KeyOrigin, Mention, MentionRole,
    MergeDecision, Object, Polarity, PredicateRow, ResolutionMethod, SourceRow, Statement, Tables,
    TrustTier,
};
use oxibrain::text::match_query;
use oxibrain::time::{Timestamp, TIME_MAX, TIME_MIN};

fn entity(id: &str, space: &str) -> Entity {
    Entity {
        id: id.into(),
        space: space.into(),
        ty: "person".into(),
        canonical_key: None,
        created_at: Timestamp(1),
        merged_into: None,
        salience: 0.25f64.to_bits(),
        last_activity: None,
    }
}

fn key(id: &str, of: &str, normalized: &str) -> EntityKey {
    EntityKey {
        id: id.into(),
        space: "s".into(),
        entity: of.into(),
        ty: "person".into(),
        normalized: normalized.into(),
        surface: normalized.to_uppercase(),
        origin: KeyOrigin::UserDeclared,
    }
}

fn statement(id: &str, subject: &str, object: &str) -> Statement {
    Statement {
        id: id.into(),
        space: "s".into(),
        subject: subject.into(),
        predicate: "knows".into(),
        object: Object::Entity(object.into()),
    }
}

fn assertion(id: &str, of: &str, recorded: i64, retracted: Option<i64>) -> Assertion {
    Assertion {
        id: id.into(),
        statement: of.into(),
        episode: "e".into(),
        extractor: None,
        polarity: Polarity::Affirm,
        claimed_from: Timestamp(0),
        claimed_to: Timestamp(TIME_MAX),
        confidence: 1.0f32.to_bits(),
        trust: TrustTier::Trusted,
        recorded_at: Timestamp(recorded),
        retracted_at: retracted.map(Timestamp),
    }
}

fn belief(of: &str, from: i64, status: &str, confidence: f32) -> Belief {
    Belief {
        statement: of.into(),
        valid_from: Timestamp(from),
        valid_to: Timestamp(from + 10),
        status: status.into(),
        confidence: confidence.to_bits(),
        support_json: "{}".into(),
    }
}

fn id_of(t: &TargetId) -> String {
    match t {
        TargetId::Episode { id } => format!("episode:{id}"),
        TargetId::Statement { id } => format!("statement:{id}"),
        TargetId::Entity { id } => format!("entity:{id}"),
    }
}

fn hit(target: TargetId, score: f64) -> SearchHit {
    SearchHit { target, score: score.to_bits() }
}

fn on_entity(id: &str, score: f64) -> SearchHit {
    hit(TargetId::Entity { id: id.into() }, score)
}

fn query(mode: QueryMode) -> Query {
    Query {
        text: "ada".into(),
        mode,
        space: "s".into(),
        as_of: None,
        limit: 10,
        min_confidence: 0f32.to_bits(),
    }
}

fn nothing() -> SearchResults {
    SearchResults {
        word: vec![],
        ngram: vec![],
        lexical_vector: vec![],
        dense: None,
        seeds: vec![],
        reached: vec![],
    }
}

fn shown(hits: &[SearchHit]) -> Vec<(String, f64)> {
    hits.iter().map(|h| (id_of(&h.target), f64::from_bits(h.score))).collect()
}

fn small_graph() -> Tables {
    let mut db = Tables::new();
    for id in ["a", "b", "c", "d"] {
        insert_entity(&mut db, &entity(id, "s"));
    }
    insert_statement(&mut db, &statement("st", "a", "b"));
    insert_assertion(&mut db, &assertion("as1", "st", 5, Some(9)));
    insert_assertion(&mut db, &assertion("as2", "st", 7, None));
    replace_beliefs(
        &mut db,
        &vec!["st".into()],
        &vec![belief("st", 3, "active", 0.5), belief("st", 8, "contradicted", 0.75)],
    );
    rebuild_communities(&mut db, "s", &vec![("a".into(), 1), ("c".into(), 1), ("d".into(), 2)]);
    db
}

#[test]
fn hybrid_search_fills_every_channel() {
    let db = small_graph();
    let mut found = nothing();
    found.word = vec![hit(TargetId::Statement { id: "st".into() }, 2.0)];
    found.ngram = vec![hit(TargetId::Episode { id: "ep".into() }, 1.0)];
    found.lexical_vector = vec![on_entity("z", 0.9)];
    found.dense = Some(vec![on_entity("b", 0.8)]);
    found.seeds = vec![on_entity("a", 3.0), hit(TargetId::Episode { id: "ep".into() }, 1.0)];
    found.reached = vec!["a".into(), "b".into()];
    let input = hybrid_query(&db, &query(QueryMode::Hybrid), &found).unwrap();
    let kinds: Vec<RankChannel> = input.channels.iter().map(|c| c.channel).collect();
    assert_eq!(
        kinds,
        vec![
            RankChannel::LexicalWord,
            RankChannel::LexicalNgram,
            RankChannel::Vector,
            RankChannel::Vector,
            RankChannel::GraphExpand { top_k: 5, depth: 2 },
            RankChannel::CommunityExpand { top_k: 5 },
        ]
    );
    assert_eq!(
        shown(&input.channels[4].hits),
        vec![("entity:b".to_string(), 0.5), ("entity:a".to_string(), 3.0)]
    );
    assert_eq!(
        shown(&input.channels[5].hits),
        vec![("entity:c".to_string(), 0.4), ("entity:a".to_string(), 3.0)]
    );
    let targets: Vec<String> = input.facts.iter().map(|f| id_of(&f.target)).collect();
    assert_eq!(targets, vec!["statement:st", "entity:a", "entity:b", "entity:c", "episode:ep"]);
    let st = &input.facts[0];
    assert_eq!(f32::from_bits(st.confidence), 0.75);
    assert_eq!(st.valid_from, Timestamp(8));
    assert_eq!(st.valid_to, Timestamp(18));
    assert_eq!(st.recorded_at, Timestamp(7));
    assert_eq!(st.retracted_at, Some(Timestamp(9)));
    assert_eq!(st.status, "contradicted");
    assert_eq!(st.predicate, "knows");
    assert_eq!(f64::from_bits(st.salience), 0.5);
    let a = &input.facts[1];
    assert_eq!(f64::from_bits(a.salience), 0.25);
    assert_eq!(f32::from_bits(a.confidence), 1.0);
    assert_eq!(a.valid_from, Timestamp(TIME_MIN));
    assert_eq!(f64::from_bits(input.facts[4].salience), 1.0);
}

#[test]
fn modes_run_only_their_channels() {
    let db = small_graph();
    let mut found = nothing();
    found.seeds = vec![on_entity("a", 3.0)];
    found.dense = Some(vec![]);
    let channels = |mode: QueryMode| -> Vec<RankChannel> {
        let input = hybrid_query(&db, &query(mode), &found).unwrap();
        input.channels.iter().map(|c| c.channel).collect()
    };
    assert_eq!(
        channels(QueryMode::Lexical),
        vec![RankChannel::LexicalWord, RankChannel::LexicalNgram]
    );
    assert_eq!(
        channels(QueryMode::LexicalVector),
        vec![RankChannel::LexicalWord, RankChannel::LexicalNgram, RankChannel::Vector]
    );
    assert_eq!(channels(QueryMode::Dense), vec![RankChannel::Vector]);
    assert_eq!(
        channels(QueryMode::Graph),
        vec![RankChannel::GraphExpand { top_k: 5, depth: 2 }]
    );
    assert_eq!(channels(QueryMode::Community), vec![RankChannel::CommunityExpand { top_k: 5 }]);
}

#[test]
fn expansion_needs_a_seed() {
    let db = small_graph();
    let input = hybrid_query(&db, &query(QueryMode::Graph), &nothing()).unwrap();
    assert!(input.channels.is_empty());
    assert!(input.facts.is_empty());
}

#[test]
fn dense_search_needs_an_embedder() {
    let db = small_graph();
    match hybrid_query(&db, &query(QueryMode::Dense), &nothing()) {
        Err(BrainError::Config(m)) => assert!(m.starts_with("QueryMode::Dense requires")),
        _ => panic!("expected a configuration error"),
    }
    assert!(hybrid_query(&db, &query(QueryMode::Hybrid), &nothing()).is_ok());
}

#[test]
fn walks_start_from_entity_seeds() {
    let seeds = vec![
        hit(TargetId::Statement { id: "st".into() }, 1.0),
        on_entity("a", 2.0),
        on_entity("b", 1.0),
    ];
    let w = graph_walk(&seeds, 25).unwrap();
    assert_eq!(w.start, vec!["a", "b"]);
    assert_eq!((w.max_depth, w.max_nodes), (2, 50));
    assert!(graph_walk(&seeds[..1].to_vec(), 25).is_none());
    assert_eq!(graph_walk(&seeds, 0x8000_0000).unwrap().max_nodes, 0);
}

#[test]
fn retrieval_follows_the_query() {
    let mut q = query(QueryMode::LexicalVector);
    q.as_of = Some(Timestamp(4));
    let s = retrieval_spec(&q);
    assert_eq!(s.preset, RankPreset::Lexical);
    assert_eq!(s.as_of, Some(Timestamp(4)));
    assert_eq!(s.min_confidence, None);
    assert_eq!(s.limit, 10);
    q.min_confidence = 0.5f32.to_bits();
    assert_eq!(retrieval_spec(&q).min_confidence, Some(0.5f32.to_bits()));
    q.min_confidence = (-0.5f32).to_bits();
    assert_eq!(retrieval_spec(&q).min_confidence, None);
    q.min_confidence = f32::NAN.to_bits();
    assert_eq!(retrieval_spec(&q).min_confidence, None);
    q.min_confidence = f32::INFINITY.to_bits();
    assert_eq!(retrieval_spec(&q).min_confidence, Some(f32::INFINITY.to_bits()));
    let g = retrieval_spec(&query(QueryMode::Graph));
    assert_eq!(g.preset, RankPreset::Graph);
    assert_eq!(g.min_confidence, Some(0));
    assert_eq!(retrieval_spec(&query(QueryMode::Dense)).preset, RankPreset::Semantic);
}

#[test]
fn traversal_shows_salience() {
    let db = small_graph();
    let edges = load_adjacency(&db, "s");
    assert_eq!(edges.len(), 1);
    assert_eq!((edges[0].subject.as_str(), edges[0].object.as_str()), ("a", "b"));
    let nodes = traverse(&db, "s", &vec![("a".into(), 0), ("gone".into(), 1)]);
    assert_eq!(nodes[0].entity, "a");
    assert_eq!(f64::from_bits(nodes[0].salience), 0.25);
    assert_eq!(nodes[1].depth, 1);
    assert_eq!(f64::from_bits(nodes[1].salience), 1.0);
}

#[test]
fn index_rows_name_their_targets() {
    assert_eq!(fts_table(FtsIndex::Word), "fts_word");
    assert_eq!(fts_table(FtsIndex::Ngram), "fts_ngram");
    assert_eq!(doc_fts_table(FtsTable::Word), "doc_fts_word");
    assert_eq!(doc_fts_table(FtsTable::Ngram), "doc_fts_ngram");
    assert_eq!(id_of(&fts_target("entity", "x".into())), "entity:x");
    assert_eq!(id_of(&fts_target("statement", "x".into())), "statement:x");
    assert_eq!(id_of(&fts_target("other", "x".into())), "episode:x");
    assert_eq!(id_of(&vector_target("entity:a:b")), "entity:a:b");
    assert_eq!(id_of(&vector_target("plain")), "episode:plain");
    assert_eq!(match_query("a \"b c"), "\"a\" \"\"\"b\" \"c\"");
}

#[test]
fn embeddings_must_fit_the_table() {
    assert!(check_embedding(Some(1024)).is_ok());
    match check_embedding(Some(3)) {
        Err(BrainError::Config(m)) => assert_eq!(m, "embedder dim 3 != table dim 1024"),
        _ => panic!("expected a configuration error"),
    }
    match check_embedding(None) {
        Err(BrainError::Config(m)) => assert_eq!(m, "embedder returned no vectors"),
        _ => panic!("expected a configuration error"),
    }
}

#[test]
fn literals_show_their_value() {
    assert_eq!(value_text(&Json::parse("{\"type\":\"text\",\"value\":\"x\"}")), "x");
    assert_eq!(value_text(&Json::parse("{\"value\":3}")), "");
    assert_eq!(value_text(&Json::parse("no json")), "");
}

fn value_of(v: Result<TypedValue, BrainError>) -> String {
    match v {
        Ok(TypedValue::Text(s)) => format!("text {s}"),
        Ok(TypedValue::Date(s)) => format!("date {s}"),
        Ok(TypedValue::DateTime(s)) => format!("datetime {s}"),
        Ok(TypedValue::Number(n)) => format!("number {}", f64::from_bits(n)),
        Ok(TypedValue::Bool(b)) => format!("bool {b}"),
        Ok(_) => "other".into(),
        Err(e) => e.to_text(),
    }
}

#[test]
fn literal_types_are_read() {
    let none: Result<u64, String> = Err("invalid float literal".into());
    let num: Result<u64, String> = Ok(2.5f64.to_bits());
    assert_eq!(default_polarity(), "affirm");
    assert_eq!(value_of(parse_literal("text", "x", &none)), "text x");
    assert_eq!(value_of(parse_literal("date", "2020-01-01", &none)), "date 2020-01-01");
    assert_eq!(value_of(parse_literal("datetime", "t", &none)), "datetime t");
    assert_eq!(value_of(parse_literal("number", "2.5", &num)), "number 2.5");
    assert_eq!(value_of(parse_literal("bool", "true", &none)), "bool true");
    assert!(value_of(parse_literal("number", "x", &none)).ends_with("number: invalid float literal"));
    assert!(value_of(parse_literal("bool", "yes", &none))
        .ends_with("bool: provided string was not `true` or `false`"));
    assert!(value_of(parse_literal("color", "red", &none)).ends_with("unknown literal type: color"));
    assert_eq!(value_of(parse_claim_literal("color", "red", &none)), "text red");
    assert!(value_of(parse_claim_literal("number", "x", &none))
        .ends_with("number literal: invalid float literal"));
    assert_eq!(value_of(parse_claim_literal("bool", "false", &none)), "bool false");
}

#[test]
fn entities_are_inserted_once() {
    let mut db = Tables::new();
    insert_entity(&mut db, &entity("a", "s"));
    let mut other = entity("a", "s");
    other.ty = "place".into();
    insert_entity(&mut db, &other);
    assert_eq!(db.entities.len(), 1);
    assert_eq!(get_entity(&db, "a").unwrap().ty, "person");
    assert!(get_entity(&db, "b").is_none());
}

#[test]
fn keys_are_found_by_type_and_form() {
    let mut db = Tables::new();
    assert!(insert_entity_key(&mut db, &key("k1", "a", "ada")));
    assert!(insert_entity_key(&mut db, &key("k2", "b", "bob")));
    assert!(!insert_entity_key(&mut db, &key("k2", "c", "cy")));
    let found = find_keys_exact(&db, "s", "person", "bob");
    assert_eq!(found.len(), 1);
    assert_eq!(found[0].entity, "b");
    assert_eq!(find_keys_for_type(&db, "s", "person").len(), 2);
    assert!(find_keys_for_type(&db, "s", "place").is_empty());
}

#[test]
fn chains_of_merges_end_at_the_last_winner() {
    let mut db = small_graph();
    let m = EntityMerge {
        id: "m".into(),
        loser: "a".into(),
        winner: "b".into(),
        decided_by: MergeDecision::User,
        provenance: "e".into(),
        decided_at: Timestamp(2),
        undone_at: None,
    };
    insert_merge(&mut db, &m);
    insert_merge(&mut db, &m);
    set_merged_into(&mut db, "a", "b");
    set_merged_into(&mut db, "b", "c");
    assert_eq!(resolve_entity(&db, "a").unwrap(), "c");
    assert_eq!(resolve_entity(&db, "d").unwrap(), "d");
    assert_eq!(list_merges(&db, "s").len(), 1);
}

#[test]
fn groups_hold_asserted_statements() {
    let mut db = small_graph();
    insert_statement(&mut db, &statement("bare", "a", "c"));
    let group = get_statement_group(&db, "s", "a", "knows");
    assert_eq!(group.len(), 1);
    assert_eq!(group[0].statement.id, "st");
    assert_eq!(group[0].assertions.len(), 2);
    assert_eq!(get_assertions_for_statement(&db, "st")[1].id, "as2");
    let m = Mention {
        id: "m".into(),
        assertion: "as1".into(),
        role: MentionRole::Subject,
        surface: "A".into(),
        span_start: 0,
        span_end: 1,
        resolved_to: None,
        method: ResolutionMethod::New,
    };
    insert_mention(&mut db, &m);
    insert_mention(&mut db, &m);
    assert_eq!(db.mentions.len(), 1);
}

#[test]
fn candidates_become_new_entities() {
    let mut db = Tables::new();
    let eref = EntityRef { surface: "Ada".into(), ty: "person".into() };
    let mut res = Resolution {
        normalized: "ada".into(),
        decision: Decision::Candidate { existing: "old".into() },
        new_entity: "new".into(),
        key_id: "k".into(),
    };
    let (id, method) = resolve_or_create(&mut db, "s", &eref, &res, Timestamp(3));
    assert_eq!(id, "new");
    assert!(matches!(method, ResolutionMethod::New));
    assert_eq!(db.entities[0].created_at, Timestamp(3));
    assert_eq!(db.entities[0].salience, SALIENCE_DEFAULT);
    assert_eq!(f64::from_bits(SALIENCE_DEFAULT), 1.0);
    res.decision = Decision::Link {
        entity: "new".into(),
        method: ResolutionMethod::Named("exact".into()),
    };
    res.key_id = "k2".into();
    let (linked, _) = resolve_or_create(&mut db, "s", &eref, &res, Timestamp(4));
    assert_eq!(linked, "new");
    assert_eq!(db.entities.len(), 1);
    assert_eq!(db.keys.len(), 2);
}

fn episode(content: &str, source: SourceRef, trust: TrustTier) -> Episode {
    Episode {
        id: String::new(),
        space: "s".into(),
        seq: 0,
        content_hash: [0u8; 32],
        content: content.into(),
        source,
        trust,
        kind: EpisodeKind::Primary,
        occurred_at: Timestamp(1),
        ingested_at: Timestamp(1),
        redacted_at: None,
    }
}

fn note(db: &mut Tables, path: &str, content: &str, hash: u8) {
    let mut e = episode(content, SourceRef::Note { path: path.into() }, TrustTier::SemiTrusted);
    insert_episode(db, &mut e, format!("{path}:{content}"), [hash; 32]);
}

#[test]
fn note_hashes_are_grouped_by_path() {
    let mut db = Tables::new();
    note(&mut db, "a.md", "one", 1);
    note(&mut db, "b.md", "two", 2);
    note(&mut db, "a.md", "three", 3);
    let found = note_hashes_by_path(&db, "s");
    assert_eq!(found.len(), 2);
    assert_eq!(found[0].path, "a.md");
    assert_eq!(found[0].hashes.iter().map(|h| h.0[0]).collect::<Vec<u8>>(), vec![1, 3]);
    assert_eq!(found[1].hashes[0].0, [2u8; 32]);
    db.episodes[1].redacted_at = Some(Timestamp(9));
    assert_eq!(note_hashes_by_path(&db, "s").len(), 1);
    assert_eq!(tfidf_corpus(&db, "s"), vec!["one", "three"]);
}

#[test]
fn locators_keep_their_latest_state() {
    let mut db = Tables::new();
    let mut event = |locator: &str, occurrence: &str, content: &str, hash: u8| {
        let a = IngestAttachment {
            source_id: "src".into(),
            occurrence_id: occurrence.into(),
            accepted_at: Timestamp(1),
            principal: "me".into(),
            claims_json: "{}".into(),
        };
        ingest_event(
            &mut db,
            "s",
            content,
            SourceRef::WebClip { uri: locator.into() },
            TrustTier::Untrusted,
            Some(&a),
            Timestamp(1),
            format!("id:{occurrence}"),
            [hash; 32],
        )
    };
    event("u1", "o1", "x", 1).unwrap();
    event("u2", "o2", "y", 2).unwrap();
    event("u1", "o3", "z", 3).unwrap();
    assert!(event("u1", "o3", "changed", 4).is_err());
    let states = locator_states(&db, "s", "src").unwrap();
    assert_eq!(states.len(), 2);
    assert_eq!(states[0].locator, "u1");
    assert_eq!(states[0].latest_occurrence_id, "o3");
    assert_eq!(states[0].latest_content_hash.0, [3u8; 32]);
    assert_eq!(states[1].locator, "u2");
    db.episodes[0].source_ref = None;
    match locator_states(&db, "s", "src") {
        Err(BrainError::Storage(m)) => {
            assert_eq!(m, "Invalid column type Null at index: 0, name: source_ref")
        }
        _ => panic!("expected a storage error"),
    }
}

#[test]
fn runs_inherit_the_trust_of_their_episode() {
    let mut db = Tables::new();
    note(&mut db, "a.md", "one", 1);
    let id = db.episodes[0].id.clone();
    let run = project_extraction(&db, "s", &id, "x", vec![], Timestamp(2)).unwrap();
    assert_eq!(run.trust, TrustTier::SemiTrusted);
    db.episodes[0].trust = "odd".into();
    let run = project_extraction(&db, "s", &id, "x", vec![], Timestamp(2)).unwrap();
    assert_eq!(run.trust, TrustTier::Untrusted);
    assert!(project_extraction(&db, "s", "none", "x", vec![], Timestamp(2)).is_err());
}

#[test]
fn sources_are_registered_once() {
    let mut db = Tables::new();
    let row = |id: &str, name: &str| SourceRow {
        id: id.into(),
        space: "s".into(),
        name: name.into(),
        kind: "file".into(),
        mode: "push".into(),
        claims_json: "{}".into(),
        created_at: Timestamp(1),
    };
    insert_source(&mut db, &row("1", "zeta"));
    insert_source(&mut db, &row("2", "alpha"));
    insert_source(&mut db, &row("1", "again"));
    let names: Vec<String> = list_sources(&db, "s").into_iter().map(|s| s.name).collect();
    assert_eq!(names, vec!["alpha", "zeta"]);
    assert_eq!(get_source_by_name(&db, "s", "zeta").unwrap().id, "1");
    assert!(get_source_by_name(&db, "s", "again").is_none());
    assert!(list_sources(&db, "t").is_empty());
}

#[test]
fn decay_starts_from_the_last_activity() {
    let mut db = small_graph();
    db.entities[1].last_activity = Some(Timestamp(7));
    let inputs = decay_inputs(&db, "s", Timestamp(99));
    assert_eq!(inputs[0], ("a".to_string(), Timestamp(99)));
    assert_eq!(inputs[1], ("b".to_string(), Timestamp(7)));
    let n = apply_decay(&mut db, &vec![("b".into(), 0.125f64.to_bits())]);
    assert_eq!(n, 1);
    assert_eq!(f64::from_bits(db.entities[1].salience), 0.125);
    assert_eq!(f64::from_bits(db.entities[0].salience), 0.25);
}

#[test]
fn schema_versions_are_recorded_once() {
    let mut db = Tables::new();
    meta::ensure_schema_versions(&mut db);
    assert_eq!(meta::get(&db, "ledger_schema_version"), Some(LEDGER_SCHEMA_VERSION.to_string()));
    assert_eq!(meta::get(&db, "projection_version"), Some(PROJECTION_VERSION.to_string()));
    meta::set(&mut db, "projection_version", "0");
    meta::ensure_schema_versions(&mut db);
    assert_eq!(meta::get(&db, "projection_version"), Some("0".into()));
    assert_eq!(meta::get(&db, "other"), None);
    assert_eq!(pending_versions(0, 3).unwrap(), vec![1, 2, 3]);
    assert_eq!(pending_versions(2, 3).unwrap(), vec![3]);
    assert!(pending_versions(3, 3).unwrap().is_empty());
    assert!(pending_versions(4, 3).is_err());
    assert_eq!(pragmas()[0], "PRAGMA journal_mode=WAL;");
}

#[test]
fn seeding_and_space_creation_are_idempotent() {
    let mut db = Tables::new();
    let def = PredicateRow {
        name: "knows".into(),
        major_version: 1,
        minor_version: 0,
        def_json: "{}".into(),
    };
    seed_core_v1(&mut db, &vec![def.clone()]);
    seed_core_v1(&mut db, &vec![def]);
    assert_eq!(load_all_predicates(&db).len(), 1);
    let first = create_space(&mut db, "home", Timestamp(1));
    let again = create_space(&mut db, "home", Timestamp(2));
    assert_eq!(first, again);
    assert_eq!(db.spaces.len(), 1);
    assert_eq!(db.spaces[0].created_at, 1);
}

#[test]
fn modes_ask_for_their_searches() {
    let asked = |mode: QueryMode| {
        let s = searches(mode);
        (s.lexical, s.lexical_vector, s.dense, s.seeds, s.walk)
    };
    assert_eq!(asked(QueryMode::Hybrid), (true, true, true, true, true));
    assert_eq!(asked(QueryMode::Lexical), (true, false, false, false, false));
    assert_eq!(asked(QueryMode::LexicalVector), (true, true, false, false, false));
    assert_eq!(asked(QueryMode::Dense), (false, false, true, false, false));
    assert_eq!(asked(QueryMode::Graph), (false, false, false, true, true));
    assert_eq!(asked(QueryMode::Community), (false, false, false, true, false));
}
