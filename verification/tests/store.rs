use oxibrain::brief::{entity_brief, space_brief, support_counts, surface_of, topic_brief};
use oxibrain::cells::{snapshot_ranking, snapshot_section, snapshot_truth, Cell, RankingRows, TruthRows};
use oxibrain::communities::{community_members, rebuild_communities};
use oxibrain::consolidation::{
    entities_for_episodes, episodes_for_entities, find_episode_clusters, load_community_entities,
    CommunityGroup, EpisodeCluster,
};
use oxibrain::context::{assemble_context, LayerKind, RecallHints};
use oxibrain::declarations::canonical_declaration_content;
use oxibrain::error::BrainError;
use oxibrain::explain::why;
use oxibrain::export::{
    export_jsonl, export_tables, import_jsonl, json_to_value, value_to_json, TableDump,
};
use oxibrain::extraction::{cache_response, project_extraction, Claim, ClaimMention, ClaimObject};
use oxibrain::index_ops::{
    chunk_inputs, entity_embedding_texts, entity_surface, index_entities_fts, literal_repr,
    rebuild_chunks, rebuild_fts, rebuild_salience, rebuild_tfidf, render_statement, tfidf_texts,
    upsert_entity_embeddings,
};
use oxibrain::json::Json;
use oxibrain::knowledge::{get_beliefs_for_statement, list_entities, list_merges, resolve_entity};
use oxibrain::ledger::{create_space, get_episode, space_id, SourceRef};
use oxibrain::lifecycle::compact_episodes;
use oxibrain::resources::read_space;
use oxibrain::project::{
    project_declaration, DeclObject, Decision, Declaration, EntityRef, Names, OtherAnswer,
    OtherQuestion, Resolution, ResolveQuestion, TypedValue,
};
use oxibrain::prompts::{
    belief_stats_for_entities, build_community_prompt, build_consolidation_prompt, SupportFacts,
};
use oxibrain::query::{
    beliefs_as_of, beliefs_for_entity, collect_merge_group, contradictions, debug_triples,
    fts_query, load_adjacency, resolve_entity_id, space_stats, statement_ids_for_subject, TargetId,
};
use oxibrain::redaction::{
    apply_refolds, apply_replay, execute_redaction, resolve_closure, RedactTarget, Redaction, Refold,
};
use oxibrain::registry::{load_all_predicates, load_predicate, seed_core_v1};
use oxibrain::reproject::{reproject, ReplayStep};
use oxibrain::tables::{
    Belief, ChunkRow, EntityVectorRow, KeyOrigin, Object, Polarity, PredicateRow, ResolutionMethod,
    Tables, TrustTier, VectorRow,
};
use oxibrain::time::{Timestamp, TIME_MAX, TIME_MIN};
use oxibrain::timeline::{diff, timeline};
use oxibrain::tokenizer::CharTokenizer;

fn predicate(name: &str) -> PredicateRow {
    PredicateRow {
        name: name.into(),
        major_version: 1,
        minor_version: 0,
        def_json: "{}".into(),
    }
}

fn fresh_db() -> Tables {
    let mut db = Tables::new();
    seed_core_v1(&mut db, &vec![predicate("employed_by"), predicate("full_name"), predicate("age")]);
    create_space(&mut db, "personal", Timestamp::from_millis(0));
    db
}

fn resolve(q: &ResolveQuestion) -> Resolution {
    let normalized = q.eref.surface.to_lowercase();
    let known = q.candidates.iter().find(|k| k.normalized == normalized);
    Resolution {
        decision: match known {
            Some(k) => Decision::Link {
                entity: k.entity.clone(),
                method: ResolutionMethod::Named("exact".into()),
            },
            None => Decision::New { method: ResolutionMethod::New },
        },
        new_entity: format!("ent:{}:{}:{}", q.space, q.eref.ty, normalized),
        key_id: format!("key:{}:{}:{}", q.space, q.eref.ty, q.eref.surface),
        normalized,
    }
}

fn fold(r: &Refold) -> Vec<Belief> {
    r.group
        .iter()
        .filter(|e| !e.assertions.is_empty())
        .map(|e| {
            let affirm = e.assertions.iter().filter(|a| a.polarity == Polarity::Affirm).count();
            let deny = e.assertions.len() - affirm;
            let standing = e.assertions.iter().any(|a| a.retracted_at.is_none());
            let status = if !standing {
                "retracted"
            } else if affirm > 0 && deny > 0 {
                "contradicted"
            } else {
                "active"
            };
            Belief {
                statement: e.statement.id.clone(),
                valid_from: e.assertions[0].claimed_from,
                valid_to: e.assertions[0].claimed_to,
                status: status.into(),
                confidence: 7,
                support_json: format!(
                    "{{\"affirm_count\":{affirm},\"deny_count\":{deny},\"distinct_episodes\":{}}}",
                    e.assertions.len()
                ),
            }
        })
        .collect()
}

fn refold(db: &mut Tables, refolds: Vec<Refold>) {
    let folded = refolds.iter().map(fold).collect();
    apply_refolds(db, &refolds, &folded);
}

fn names_for(key: &str, first: &str, other: &str) -> Names {
    Names {
        literal_json: format!("\"{other}\""),
        statement: format!("st:{first}:{other}"),
        assertion: format!("as:{key}"),
        subject_mention: format!("ms:{key}"),
        object_mention: format!("mo:{key}"),
        merge: format!("mg:{first}:{other}"),
    }
}

fn number_in(decl: &Declaration) -> Result<u64, String> {
    let object = match decl {
        Declaration::AddStatement { object, .. } | Declaration::Retract { object, .. } => object,
        Declaration::Merge { .. } => return Ok(0),
    };
    match object {
        DeclObject::Entity { .. } => Ok(0),
        DeclObject::Literal { value, .. } => {
            value.parse::<f64>().map(|f| f.to_bits()).map_err(|e| e.to_string())
        }
    }
}

fn declare(db: &mut Tables, space: &str, decl: &Declaration, now: Timestamp) -> Result<String, BrainError> {
    let content = canonical_declaration_content(decl);
    let id = format!("ep:{space}:{content}");
    let mut hash = [0u8; 32];
    for (i, b) in content.bytes().enumerate() {
        hash[i % 32] = hash[i % 32].wrapping_mul(31).wrapping_add(b);
    }
    let run = project_declaration(db, space, decl, &content, hash, id, &number_in(decl), now)?;
    let episode = run.episode.clone();
    let q = run.ask_first(db);
    let first = run.first_resolved(db, &resolve(&q));
    let subject = first.entity.clone();
    let (answer, other) = match first.ask_other(db) {
        OtherQuestion::Entity(q) => {
            let r = resolve(&q);
            let to = match &r.decision {
                Decision::Link { entity, .. } => entity.clone(),
                _ => r.new_entity.clone(),
            };
            (OtherAnswer::Entity(r), to)
        }
        OtherQuestion::Literal { value, .. } => (
            OtherAnswer::Literal { number: number_in(decl) },
            value,
        ),
    };
    let both = first.other_resolved(db, &answer)?;
    let names = names_for(&episode, &subject, &other);
    if let Some(r) = both.named(db, &names)? {
        refold(db, vec![r]);
    }
    Ok(episode)
}

fn entity(surface: &str, ty: &str) -> EntityRef {
    EntityRef { surface: surface.into(), ty: ty.into() }
}

fn employed(subject: &str, employer: &str, polarity: &str) -> Declaration {
    Declaration::AddStatement {
        subject: entity(subject, "person"),
        predicate: "employed_by".into(),
        object: DeclObject::Entity { surface: employer.into(), ty: "organization".into() },
        polarity: polarity.into(),
        valid_from: 0,
        valid_to: TIME_MAX,
    }
}

fn declare_in(db: &mut Tables, space: &str, now: Timestamp) -> String {
    declare(db, space, &employed("Alice", "Acme", "affirm"), now).unwrap()
}

fn declare_alice_works_for_acme(db: &mut Tables, now: Timestamp) -> String {
    let sid = create_space(db, "personal", Timestamp::from_millis(0));
    declare_in(db, &sid, now)
}

fn redact(db: &mut Tables, target: &RedactTarget, reason: &str, actor: &str, now: Timestamp) -> Redaction {
    let json = format!("{:?}", target);
    let rid = format!("r:{json}:{}", now.0);
    let mut result = execute_redaction(db, target, &json, &rid, reason, actor, now).unwrap();
    let refolds = std::mem::take(&mut result.refolds);
    refold(db, refolds);
    result
}

fn parse_decl(content: &str) -> Declaration {
    let v = Json::parse(content).unwrap();
    let eref = |v: &Json| entity(v.str_of("surface").unwrap(), v.str_of("type").unwrap());
    let o = v.get("object");
    let object = |o: &Json| match o.str_of("kind") {
        Some("entity") => DeclObject::Entity {
            surface: o.str_of("surface").unwrap().into(),
            ty: o.str_of("type").unwrap().into(),
        },
        _ => DeclObject::Literal {
            literal_type: o.str_of("literal_type").unwrap().into(),
            value: o.str_of("value").unwrap().into(),
        },
    };
    match v.str_of("op").unwrap() {
        "add_statement" => Declaration::AddStatement {
            subject: eref(v.get("subject").unwrap()),
            predicate: v.str_of("predicate").unwrap().into(),
            object: object(o.unwrap()),
            polarity: v.str_of("polarity").unwrap().into(),
            valid_from: v.get("valid_from").unwrap().as_i64().unwrap(),
            valid_to: v.get("valid_to").unwrap().as_i64().unwrap(),
        },
        "merge" => Declaration::Merge {
            loser: eref(v.get("loser").unwrap()),
            winner: eref(v.get("winner").unwrap()),
        },
        _ => Declaration::Retract {
            subject: eref(v.get("subject").unwrap()),
            predicate: v.str_of("predicate").unwrap().into(),
            object: object(o.unwrap()),
            episode: v.str_of("episode").unwrap().into(),
        },
    }
}

fn replay(db: &mut Tables) {
    for step in reproject(db) {
        match step {
            ReplayStep::Declaration { space, content, at } => {
                declare(db, &space, &parse_decl(&content), at).unwrap();
            }
            ReplayStep::Extraction { .. } => {}
            ReplayStep::Redaction { .. } => {}
            ReplayStep::Rebuild { space } => {
                rebuild_fts(db, &space, &vec![]).unwrap();
                rebuild_salience(db, &space);
            }
        }
    }
}

#[test]
fn redact_episode_deletes_assertions() {
    let mut db = fresh_db();
    let now = Timestamp::from_millis(1000);
    let ep_id = declare_alice_works_for_acme(&mut db, now);
    assert_eq!(db.assertions.len(), 1);
    let target = RedactTarget::Episode { id: ep_id.clone() };
    let result = redact(&mut db, &target, "test", "tester", now);
    assert!(!result.closure.assertions.is_empty());
    assert!(!result.closure.statements.is_empty());
    let e = db.episodes.iter().find(|e| e.id == ep_id).unwrap();
    assert_eq!(e.content, "[redacted]");
    assert!(db.assertions.is_empty());
    assert!(db.statements.is_empty());
}

#[test]
fn redact_is_idempotent() {
    let mut db = fresh_db();
    let now = Timestamp::from_millis(1000);
    let ep_id = declare_alice_works_for_acme(&mut db, now);
    let target = RedactTarget::Episode { id: ep_id };
    let first = redact(&mut db, &target, "test", "tester", now);
    assert!(!first.closure.assertions.is_empty());
    let second = redact(&mut db, &target, "test", "tester", now);
    assert!(second.closure.assertions.is_empty());
}

#[test]
fn dry_run_does_not_modify() {
    let mut db = fresh_db();
    let now = Timestamp::from_millis(1000);
    let ep_id = declare_alice_works_for_acme(&mut db, now);
    let closure = resolve_closure(&db, &RedactTarget::Episode { id: ep_id });
    assert!(!closure.assertions.is_empty());
    assert_eq!(db.assertions.len(), 1);
}

#[test]
fn redaction_recorded_in_table() {
    let mut db = fresh_db();
    let now = Timestamp::from_millis(1000);
    let ep_id = declare_alice_works_for_acme(&mut db, now);
    redact(&mut db, &RedactTarget::Episode { id: ep_id }, "gdpr", "admin", now);
    assert_eq!(db.redactions.len(), 1);
}

#[test]
fn reproject_after_episode_redaction_preserves_projection() {
    let mut db = fresh_db();
    let now = Timestamp::from_millis(1000);
    let ep_id = declare_alice_works_for_acme(&mut db, now);
    assert_eq!(db.assertions.len(), 1);
    assert_eq!(db.beliefs.len(), 1);
    redact(&mut db, &RedactTarget::Episode { id: ep_id }, "test", "tester", now);
    assert_eq!(db.assertions.len(), 0);
    replay(&mut db);
    assert_eq!(db.assertions.len(), 0);
    assert_eq!(db.beliefs.len(), 0);
}

#[test]
fn redact_space_removes_everything_and_audits() {
    let mut db = fresh_db();
    let now = Timestamp::from_millis(1000);
    let sid = space_id("personal");
    declare_alice_works_for_acme(&mut db, now);
    let target = RedactTarget::Space { id: sid.clone() };
    let closure = resolve_closure(&db, &target);
    assert!(!closure.episodes.is_empty());
    assert!(!closure.assertions.is_empty());
    let result = redact(&mut db, &target, "purge", "cli", now);
    assert!(!result.closure.episodes.is_empty());
    assert!(db.episodes.iter().all(|r| r.space != sid));
    assert!(db.entities.iter().all(|r| r.space != sid));
    assert!(db.keys.iter().all(|r| r.space != sid));
    assert!(db.statements.iter().all(|r| r.space != sid));
    assert!(db.communities.iter().all(|r| r.space != sid));
    assert!(db.chunks.iter().all(|r| r.space != sid));
    assert!(db.spaces.iter().all(|r| r.id != sid));
    assert!(db.audit.iter().any(|a| a.operation == "redact"));
}

#[test]
fn redact_space_is_idempotent() {
    let mut db = fresh_db();
    let now = Timestamp::from_millis(1000);
    declare_alice_works_for_acme(&mut db, now);
    let target = RedactTarget::Space { id: space_id("personal") };
    redact(&mut db, &target, "purge", "cli", now);
    let (audits, tombstones) = (db.audit.len(), db.redactions.len());
    assert!(audits >= 1);
    assert!(tombstones >= 1);
    let second = redact(&mut db, &target, "purge", "cli", now);
    assert!(second.closure.episodes.is_empty());
    assert_eq!(db.audit.len(), audits);
    assert_eq!(db.redactions.len(), tombstones);
}

#[test]
fn reproject_after_space_redaction_stays_empty() {
    let mut db = fresh_db();
    let now = Timestamp::from_millis(1000);
    declare_alice_works_for_acme(&mut db, now);
    redact(&mut db, &RedactTarget::Space { id: space_id("personal") }, "t", "t", now);
    replay(&mut db);
    assert_eq!(db.episodes.len(), 0);
}

#[test]
fn readded_space_survives_reproject_after_purge() {
    let mut db = fresh_db();
    let dev = create_space(&mut db, "dev", Timestamp::from_millis(0));
    assert_eq!(dev, space_id("dev"));
    declare_in(&mut db, &dev, Timestamp::from_millis(1000));
    redact(
        &mut db,
        &RedactTarget::Space { id: dev.clone() },
        "purge",
        "cli",
        Timestamp::from_millis(2000),
    );
    let dev_again = create_space(&mut db, "dev", Timestamp::from_millis(3000));
    assert_eq!(dev_again, dev);
    declare_in(&mut db, &dev, Timestamp::from_millis(4000));
    let counts = |db: &Tables| {
        (
            db.episodes.iter().filter(|e| e.space == dev).count(),
            db.assertions
                .iter()
                .filter(|a| db.statements.iter().any(|s| s.id == a.statement && s.space == dev))
                .count(),
            db.statements.iter().filter(|s| s.space == dev).count(),
        )
    };
    assert_eq!(counts(&db), (1, 1, 1));
    replay(&mut db);
    apply_replay(&mut db, &RedactTarget::Space { id: dev.clone() }, Timestamp(2000)).unwrap();
    assert_eq!(counts(&db), (1, 1, 1));
}

#[test]
fn redact_space_on_empty_space_still_drops_row() {
    let mut db = fresh_db();
    let now = Timestamp::from_millis(1000);
    let empty_id = create_space(&mut db, "empty-space", now);
    assert!(db.spaces.iter().any(|s| s.id == empty_id));
    assert!(db.episodes.iter().all(|e| e.space != empty_id));
    let target = RedactTarget::Space { id: empty_id.clone() };
    let result = redact(&mut db, &target, "purge", "cli", now);
    assert!(result.closure.episodes.is_empty());
    assert!(db.spaces.iter().all(|s| s.id != empty_id));
    let (audits, tombstones) = (db.audit.len(), db.redactions.len());
    let second = redact(&mut db, &target, "purge", "cli", now);
    assert!(second.closure.episodes.is_empty());
    assert_eq!(db.audit.len(), audits);
    assert_eq!(db.redactions.len(), tombstones);
}

#[test]
fn replay_rebuilds_the_projection() {
    let mut db = fresh_db();
    let sid = space_id("personal");
    declare(&mut db, &sid, &employed("Alice", "Acme", "affirm"), Timestamp(1000)).unwrap();
    declare(&mut db, &sid, &employed("Bob", "Acme", "affirm"), Timestamp(2000)).unwrap();
    let shot = |db: &Tables| {
        let mut rows: Vec<String> = db.statements.iter().map(|s| format!("{:?}", s)).collect();
        rows.extend(db.assertions.iter().map(|a| format!("{:?}", a)));
        rows.extend(db.beliefs.iter().map(|b| format!("{:?}", b)));
        rows.extend(db.keys.iter().map(|k| format!("{:?}", k)));
        rows.sort();
        rows
    };
    let before = shot(&db);
    replay(&mut db);
    assert_eq!(shot(&db), before);
    let steps = reproject(&mut db);
    assert_eq!(steps.len(), 3);
    assert!(matches!(&steps[0], ReplayStep::Declaration { at, .. } if *at == Timestamp(1000)));
    assert!(matches!(&steps[2], ReplayStep::Rebuild { .. }));
    assert!(db.entities.is_empty() && db.beliefs.is_empty());
}

#[test]
fn entity_redaction_is_replayed() {
    let mut db = fresh_db();
    let sid = space_id("personal");
    declare_in(&mut db, &sid, Timestamp(1000));
    let alice = resolve_entity_id(&db, &sid, "person", "alice");
    let alice = alice.unwrap_or_else(|| db.statements[0].subject.clone());
    let target = RedactTarget::Entity { space: sid.clone(), entity_id: alice };
    let result = redact(&mut db, &target, "r", "a", Timestamp(2000));
    assert_eq!(result.closure.assertions.len(), 1);
    assert!(db.assertions.is_empty());
    assert_eq!(db.episodes[0].content.contains("Alice"), true);
    replay(&mut db);
    assert_eq!(db.assertions.len(), 1);
    let refolds = apply_replay(&mut db, &target, Timestamp(2000)).unwrap();
    assert!(refolds.iter().all(|r| r.at == Timestamp(2000)));
    refold(&mut db, refolds);
    assert!(db.assertions.is_empty());
    assert!(db.beliefs.is_empty());
}

#[test]
fn declarations_contradict_and_retract() {
    let mut db = fresh_db();
    let sid = space_id("personal");
    declare(&mut db, &sid, &employed("Alice", "Acme", "affirm"), Timestamp(1000)).unwrap();
    declare(&mut db, &sid, &employed("Alice", "Acme", "deny"), Timestamp(2000)).unwrap();
    assert_eq!(db.statements.len(), 1);
    assert_eq!(contradictions(&db, &sid).len(), 1);
    let statement = db.statements[0].id.clone();
    let explained = why(&db, &sid, &statement).unwrap();
    assert_eq!(explained.status, "contradicted");
    assert_eq!(explained.confidence_breakdown.support_count, 1);
    assert_eq!(explained.confidence_breakdown.contradiction_count, 1);
    assert!(why(&db, &sid, "nope").is_err());
    let brief = entity_brief(&db, &sid, &db.statements[0].subject.clone(), &vec![]).unwrap();
    assert_eq!(brief.contradictions.len(), 1);
    assert_eq!(brief.contradictions[0].affirm_episodes.len(), 1);
    assert_eq!(brief.contradictions[0].deny_episodes.len(), 1);

    let retract = Declaration::Retract {
        subject: entity("Alice", "person"),
        predicate: "employed_by".into(),
        object: DeclObject::Entity { surface: "Acme".into(), ty: "organization".into() },
        episode: "".into(),
    };
    declare(&mut db, &sid, &retract, Timestamp(3000)).unwrap();
    assert!(db.assertions.iter().all(|a| a.retracted_at == Some(Timestamp(3000))));
    assert!(contradictions(&db, &sid).is_empty());
}

#[test]
fn declarations_are_refused() {
    let mut db = fresh_db();
    let sid = space_id("personal");
    let e = declare(&mut db, &sid, &employed("Alice", "Acme", "maybe"), Timestamp(1)).unwrap_err();
    assert!(matches!(e, BrainError::Invalid(_)));
    let unknown = Declaration::AddStatement {
        subject: entity("Alice", "person"),
        predicate: "unheard_of".into(),
        object: DeclObject::Literal { literal_type: "text".into(), value: "x".into() },
        polarity: "affirm".into(),
        valid_from: 0,
        valid_to: TIME_MAX,
    };
    match declare(&mut db, &sid, &unknown, Timestamp(1)).unwrap_err() {
        BrainError::Invalid(m) => assert_eq!(m, "unknown predicate: unheard_of"),
        other => panic!("{:?}", other),
    }
    let unread = Declaration::AddStatement {
        subject: entity("Alice", "person"),
        predicate: "age".into(),
        object: DeclObject::Literal { literal_type: "number".into(), value: "old".into() },
        polarity: "affirm".into(),
        valid_from: 0,
        valid_to: TIME_MAX,
    };
    assert!(declare(&mut db, &sid, &unread, Timestamp(1)).is_err());
    assert!(db.episodes.is_empty() && db.entities.is_empty() && db.keys.is_empty());
    assert!(db.statements.is_empty() && db.assertions.is_empty());
    assert!(load_predicate(&db, "age").is_some());
    assert!(load_predicate(&db, "unheard_of").is_none());
    assert_eq!(load_all_predicates(&db).len(), 3);
}

#[test]
fn merges_lead_to_the_winner() {
    let mut db = fresh_db();
    let sid = space_id("personal");
    declare(&mut db, &sid, &employed("Alice", "Acme", "affirm"), Timestamp(1000)).unwrap();
    declare(&mut db, &sid, &employed("Alicia", "Initech", "affirm"), Timestamp(2000)).unwrap();
    let merge = Declaration::Merge {
        loser: entity("Alicia", "person"),
        winner: entity("Alice", "person"),
    };
    declare(&mut db, &sid, &merge, Timestamp(3000)).unwrap();
    let loser = format!("ent:{sid}:person:alicia");
    let winner = format!("ent:{sid}:person:alice");
    assert_eq!(resolve_entity(&db, &loser).unwrap(), winner);
    assert_eq!(resolve_entity(&db, &winner).unwrap(), winner);
    assert!(matches!(resolve_entity(&db, "nope").unwrap_err(), BrainError::NotFound(_)));
    let mut group = collect_merge_group(&db, &winner);
    group.sort();
    assert_eq!(group, vec![winner.clone(), loser.clone()]);
    assert_eq!(list_merges(&db, &sid).len(), 1);
    assert_eq!(beliefs_for_entity(&db, &sid, &winner).len(), 2);
    let a = entity_brief(&db, &sid, &loser, &vec![]).unwrap();
    let b = entity_brief(&db, &sid, &winner, &vec![]).unwrap();
    assert_eq!(format!("{:?}", a), format!("{:?}", b));
    assert_eq!(a.canonical_surface, "Alice");
    assert_eq!(list_entities(&db, &sid, 10).len(), 3);
}

#[test]
fn canonical_content_has_sorted_keys() {
    assert_eq!(
        canonical_declaration_content(&employed("Alice", "Acme", "affirm")),
        format!(
            "{{\"object\":{{\"kind\":\"entity\",\"surface\":\"Acme\",\"type\":\"organization\"}},\"op\":\"add_statement\",\"polarity\":\"affirm\",\"predicate\":\"employed_by\",\"subject\":{{\"surface\":\"Alice\",\"type\":\"person\"}},\"valid_from\":0,\"valid_to\":{TIME_MAX}}}"
        )
    );
    assert_eq!(
        canonical_declaration_content(&Declaration::Merge {
            loser: entity("a", "t"),
            winner: entity("b", "t"),
        }),
        r#"{"loser":{"surface":"a","type":"t"},"op":"merge","winner":{"surface":"b","type":"t"}}"#
    );
    assert_eq!(
        canonical_declaration_content(&Declaration::Retract {
            subject: entity("a", "t"),
            predicate: "p".into(),
            object: DeclObject::Literal { literal_type: "text".into(), value: "v".into() },
            episode: "e".into(),
        }),
        r#"{"episode":"e","object":{"kind":"literal","literal_type":"text","value":"v"},"op":"retract","predicate":"p","subject":{"surface":"a","type":"t"}}"#
    );
}

#[test]
fn timeline_resource_returns_entries_contract() {
    let mut db = fresh_db();
    let sid = space_id("personal");
    declare(&mut db, &sid, &employed("Alice", "Acme Corp", "affirm"), Timestamp(1000)).unwrap();
    let alice = db.statements[0].subject.clone();
    let entries = timeline(&db, &sid, &alice, None, None, &vec![]);
    assert_eq!(entries.len(), 1);
    assert_eq!(entries[0].object_repr, "Acme Corp");
    assert_eq!(entries[0].object_entity, Some(format!("ent:{sid}:organization:acme corp")));
    assert_eq!(entries[0].status, "active");
    assert_eq!(entries[0].recorded_at, Timestamp(1000));
    assert!(timeline(&db, &sid, &alice, None, Some(Timestamp(-1)), &vec![]).is_empty());
    let d = diff(&db, &sid, &alice, Timestamp(-5), Timestamp(5));
    assert_eq!((d.added.len(), d.removed.len(), d.changed.len()), (1, 0, 0));
    let d = diff(&db, &sid, &alice, Timestamp(5), Timestamp(-5));
    assert_eq!((d.added.len(), d.removed.len(), d.changed.len()), (0, 1, 0));
    assert!(beliefs_as_of(&db, &sid, &alice, Some(Timestamp(-1)), None).is_empty());
    assert_eq!(beliefs_as_of(&db, &sid, &alice, Some(Timestamp(1)), None).len(), 1);
}

fn declare_age(db: &mut Tables, sid: &str) {
    let age = Declaration::AddStatement {
        subject: entity("Alice", "person"),
        predicate: "age".into(),
        object: DeclObject::Literal { literal_type: "number".into(), value: "42".into() },
        polarity: "affirm".into(),
        valid_from: 0,
        valid_to: TIME_MAX,
    };
    declare(db, sid, &age, Timestamp(1500)).unwrap();
}

#[test]
fn literals_are_shown() {
    let mut db = fresh_db();
    let sid = space_id("personal");
    declare_age(&mut db, &sid);
    let literals = vec![("\"42\"".to_string(), "forty-two".to_string())];
    let s = db.statements[0].clone();
    assert_eq!(render_statement(&db, &s, &literals).unwrap(), "Alice age forty-two");
    assert_eq!(render_statement(&db, &s, &vec![]).unwrap(), "Alice age \"42\"");
    let entries = timeline(&db, &sid, &s.subject, None, None, &literals);
    assert_eq!(entries[0].object_repr, "forty-two");
    assert!(entries[0].object_entity.is_none());
    assert_eq!(literal_repr(&TypedValue::Text("t".into()), ""), "t");
    assert_eq!(literal_repr(&TypedValue::Number(1.5f64.to_bits()), "1.5"), "1.5");
    assert_eq!(
        literal_repr(&TypedValue::Quantity { value: 0, unit: "kg".into() }, "3"),
        "3 kg"
    );
    assert_eq!(literal_repr(&TypedValue::Bool(true), ""), "true");
}

#[test]
fn search_finds_declared_entity_without_rebuild() {
    let mut db = fresh_db();
    let sid = space_id("personal");
    declare_in(&mut db, &sid, Timestamp(1000));
    let alice = db.statements[0].subject.clone();
    assert!(db.fts_word.is_empty());
    index_entities_fts(&mut db, &sid, &vec![alice.clone()]);
    assert_eq!(db.fts_word.len(), 1);
    assert_eq!(db.fts_word[0].body, "Alice");
    assert_eq!(db.fts_word[0].target_id, alice);
    index_entities_fts(&mut db, &sid, &vec![alice.clone()]);
    assert_eq!(db.fts_word.len(), 1);
    assert_eq!(db.fts_ngram.len(), 1);
    assert_eq!(fts_query("alice \"x\"").as_deref(), Some("\"alice\" \"\"\"x\"\"\""));
    assert_eq!(fts_query("  "), None);
}

#[test]
fn indexes_are_rebuilt() {
    let mut db = fresh_db();
    let sid = space_id("personal");
    declare_in(&mut db, &sid, Timestamp(1000));
    rebuild_fts(&mut db, &sid, &vec![]).unwrap();
    let rows: Vec<(String, String)> = db
        .fts_word
        .iter()
        .map(|f| (f.target_kind.clone(), f.body.clone()))
        .collect();
    assert_eq!(rows.len(), 3);
    assert!(rows.contains(&("statement".into(), "Alice employed_by Acme".into())));
    assert!(rows.contains(&("entity".into(), "Acme".into())));
    rebuild_fts(&mut db, &sid, &vec![]).unwrap();
    assert_eq!(db.fts_word.len(), 3);
    assert_eq!(db.fts_ngram.len(), 3);

    let texts = tfidf_texts(&db, &sid, &vec![]).unwrap();
    assert_eq!(texts.len(), 1);
    assert_eq!(texts[0].text, "Alice employed_by Acme");
    let vectors = vec![VectorRow {
        space: sid.clone(),
        target_kind: texts[0].target_kind.clone(),
        target_id: texts[0].target_id.clone(),
        vector: vec![1, 2],
    }];
    rebuild_tfidf(&mut db, &sid, &vectors);
    rebuild_tfidf(&mut db, &sid, &vectors);
    assert_eq!(db.tfidf_vectors.len(), 1);

    rebuild_salience(&mut db, &sid);
    let alice = db.statements[0].subject.clone();
    let row = db.entities.iter().find(|e| e.id == alice).unwrap();
    assert_eq!(row.last_activity, Some(Timestamp(1000)));
    let other = db.entities.iter().find(|e| e.id != alice).unwrap();
    assert_eq!(other.last_activity, None);

    let inputs = chunk_inputs(&db, &sid);
    assert_eq!(inputs.len(), 1);
    assert_eq!(inputs[0].mentions, vec!["Acme".to_string(), "Alice".to_string()]);
    let chunk = ChunkRow {
        id: "c1".into(),
        space: sid.clone(),
        episode_id: inputs[0].episode_id.clone(),
        ordinal: 0,
        span_start: 0,
        span_end: 3,
        context: "x".into(),
    };
    rebuild_chunks(&mut db, &sid, &vec![chunk.clone(), chunk]);
    assert_eq!(db.chunks.len(), 1);

    let texts = entity_embedding_texts(&db, &sid);
    assert_eq!(texts.len(), 2);
    assert!(texts.iter().any(|(_, t)| t.contains("person: ")));
    let n = upsert_entity_embeddings(
        &mut db,
        &vec![
            EntityVectorRow { entity_id: alice.clone(), embedding: vec![1] },
            EntityVectorRow { entity_id: alice.clone(), embedding: vec![2] },
        ],
    );
    assert_eq!(n, 2);
    assert_eq!(db.entity_vectors.len(), 1);
    assert_eq!(db.entity_vectors[0].embedding, vec![2]);
}

#[test]
fn surfaces_fall_back() {
    let mut db = fresh_db();
    let sid = space_id("personal");
    declare_in(&mut db, &sid, Timestamp(1000));
    let alice = db.statements[0].subject.clone();
    assert_eq!(entity_surface(&db, &alice).unwrap(), "Alice");
    assert_eq!(surface_of(&db, &alice).unwrap(), "Alice");
    db.keys.clear();
    assert_eq!(entity_surface(&db, &alice).unwrap(), alice);
    assert!(matches!(entity_surface(&db, "nope").unwrap_err(), BrainError::Storage(_)));
}

#[test]
fn briefs_of_spaces_and_topics() {
    let mut db = fresh_db();
    let sid = space_id("personal");
    declare_in(&mut db, &sid, Timestamp(1000));
    declare_age(&mut db, &sid);
    let b = space_brief(&db, &sid, 10);
    assert_eq!(b.stats.episodes, 2);
    assert_eq!(b.stats.entities, 2);
    assert_eq!(b.stats.statements, 2);
    assert_eq!(b.stats.contradictions, 0);
    assert_eq!(b.top_entities.len(), 2);
    assert_eq!(b.top_entities[0].surface, "Alice");
    assert_eq!(b.top_entities[0].predicate_count, 2);
    assert_eq!(space_brief(&db, &sid, 1).top_entities.len(), 1);
    let t = topic_brief(&db, &sid, "ALI", 5);
    assert_eq!(t.matched_entities.len(), 1);
    assert_eq!(t.matched_entities[0].surface, "Alice");
    assert!(topic_brief(&db, &sid, "nothing", 5).matched_entities.is_empty());
    assert!(topic_brief(&db, &sid, "a", 0).matched_entities.is_empty());
    let stats = space_stats(&db, &sid);
    assert_eq!((stats.episodes, stats.entities, stats.statements), (2, 2, 2));
}

#[test]
fn briefs_of_entities() {
    let mut db = fresh_db();
    let sid = space_id("personal");
    declare_in(&mut db, &sid, Timestamp(1000));
    declare_age(&mut db, &sid);
    let alice = db.statements[0].subject.clone();
    let b = entity_brief(&db, &sid, &alice, &vec![("\"42\"".into(), "42".into())]).unwrap();
    assert_eq!(b.canonical_surface, "Alice");
    assert!(b.aliases.is_empty());
    assert_eq!(b.beliefs.len(), 2);
    assert_eq!(b.beliefs[0].predicate, "age");
    assert_eq!(b.beliefs[0].object, "42");
    assert_eq!((b.beliefs[0].affirm, b.beliefs[0].deny, b.beliefs[0].episodes), (1, 0, 1));
    assert_eq!(b.neighbours.len(), 1);
    assert_eq!(b.neighbours[0].direction, "out");
    assert_eq!(b.sources.len(), 2);
    assert_eq!(b.timeline.len(), 2);
    let acme = entity_brief(&db, &sid, &b.neighbours[0].entity, &vec![]).unwrap();
    assert_eq!(acme.neighbours[0].surface, "Alice");
    assert_eq!(acme.neighbours[0].direction, "in");
    assert!(entity_brief(&db, &sid, "nope", &vec![]).is_err());
    db.beliefs[0].support_json = "[]".into();
    assert!(matches!(
        entity_brief(&db, &sid, &alice, &vec![]).unwrap_err(),
        BrainError::Corruption(_)
    ));
    let parsed = Json::parse(r#"{"affirm_count":1,"deny_count":2,"distinct_episodes":4294967296}"#);
    assert!(support_counts(&parsed).is_none());
}

#[test]
fn graphs_follow_entity_objects() {
    let mut db = fresh_db();
    let sid = space_id("personal");
    declare_in(&mut db, &sid, Timestamp(1000));
    declare_age(&mut db, &sid);
    let edges = load_adjacency(&db, &sid);
    assert_eq!(edges.len(), 1);
    assert_eq!(edges[0].predicate, "employed_by");
    assert_eq!(statement_ids_for_subject(&db, &sid, &edges[0].subject).len(), 2);
    assert_eq!(debug_triples(&db, &sid).len(), 2);
}

#[test]
fn contexts_keep_to_their_budget() {
    let mut db = fresh_db();
    let sid = space_id("personal");
    declare_in(&mut db, &sid, Timestamp(1000));
    let statement = db.statements[0].id.clone();
    let ranking = vec![
        TargetId::Statement { id: statement.clone() },
        TargetId::Entity { id: "e".into() },
    ];
    let texts = vec![(7u32, "0.70".to_string())];
    let t = CharTokenizer;
    let all = assemble_context(&db, &sid, &ranking, &texts, 10_000, &None, &t).unwrap();
    assert_eq!(all.layers.len(), 2);
    assert_eq!(all.layers[0].kind, LayerKind::HighSalienceBeliefs);
    let acme = format!("ent:{sid}:organization:acme");
    assert_eq!(
        all.layers[0].text,
        format!("... employed_by {acme} (status=active, confidence=0.70)\n")
    );
    assert_eq!(all.layers[0].provenance, vec![statement]);
    assert_eq!(all.layers[1].kind, LayerKind::RecentEpisodes);
    assert!(!all.truncated);
    assert!(all.total_tokens <= all.max_tokens);
    let hints = Some(RecallHints { is_session_start: true, ..RecallHints::default() });
    let tight = assemble_context(&db, &sid, &vec![], &texts, 1, &hints, &t).unwrap();
    assert!(tight.truncated);
    assert!(tight.layers.is_empty());
    assert_eq!(tight.total_tokens, 0);
    let cut = assemble_context(&db, &sid, &ranking, &texts, 3, &None, &t).unwrap();
    assert!(cut.truncated);
    assert!(cut.layers.is_empty());
    assert_eq!(cut.total_tokens, 0);
    declare(&mut db, &sid, &employed("Zoe", "Umbrella", "affirm"), Timestamp(2000)).unwrap();
    let two: Vec<TargetId> =
        db.statements.iter().map(|s| TargetId::Statement { id: s.id.clone() }).collect();
    let cost = all.layers[0].estimated_tokens;
    let one = assemble_context(&db, &sid, &two, &texts, cost, &None, &t).unwrap();
    assert_eq!(one.layers[0].text, all.layers[0].text);
    assert_eq!(one.total_tokens, cost);
    assert!(one.truncated);
    let unknown = vec![TargetId::Statement { id: "nope".into() }];
    assert!(assemble_context(&db, &sid, &unknown, &texts, 9, &None, &t).is_err());
    db.beliefs.clear();
    match assemble_context(&db, &sid, &ranking, &texts, 9, &None, &t).unwrap_err() {
        BrainError::Storage(m) => {
            assert_eq!(m, "Invalid column type Null at index: 3, name: status")
        }
        other => panic!("{:?}", other),
    }
}

fn mention(surface: &str, ty: &str) -> ClaimMention {
    ClaimMention { surface: surface.into(), entity_type: ty.into(), span_start: 0, span_end: 1 }
}

fn extract(db: &mut Tables, sid: &str, content: &str, pairs: &[(&str, &str)], at: Timestamp) -> String {
    let mut hash = [7u8; 32];
    for (i, b) in content.bytes().enumerate() {
        hash[i % 32] = hash[i % 32].wrapping_mul(31).wrapping_add(b);
    }
    let id = oxibrain::extraction::ingest_episode(
        db,
        sid,
        content,
        SourceRef::Note { path: content.into() },
        TrustTier::Trusted,
        at,
        format!("note:{content}"),
        hash,
    );
    respond(db, sid, &id, pairs, at);
    id
}

fn respond(db: &mut Tables, sid: &str, id: &str, pairs: &[(&str, &str)], at: Timestamp) {
    let claims = pairs
        .iter()
        .map(|(a, b)| Claim {
            subject: mention(a, "person"),
            predicate: "employed_by".into(),
            object: ClaimObject::Entity { mention: mention(b, "organization") },
            polarity: Polarity::Affirm,
            valid_from: None,
            valid_to: None,
            confidence: 3,
        })
        .collect();
    let mut run = project_extraction(db, sid, id, "ext", claims, at).unwrap();
    let mut n = 0;
    while let Some(claim) = run.next_claim() {
        n += 1;
        let r = resolve(&claim.ask_subject(db));
        let subject = claim.subject_resolved(db, &r);
        let r = match subject.ask_object(db) {
            OtherQuestion::Entity(q) => resolve(&q),
            OtherQuestion::Literal { .. } => panic!("an entity was asked for"),
        };
        let first = subject.entity.clone();
        let other = match &r.decision {
            Decision::Link { entity, .. } => entity.clone(),
            _ => r.new_entity.clone(),
        };
        let both = subject.object_resolved(db, &OtherAnswer::Entity(r)).unwrap();
        if let Some(r) = both.named(db, &names_for(&format!("{id}:{n}"), &first, &other)) {
            refold(db, vec![r]);
        }
    }
}

#[test]
fn replay_rebuilds_extractions_and_redactions() {
    let mut db = fresh_db();
    let sid = space_id("personal");
    declare_in(&mut db, &sid, Timestamp(1000));
    let pairs = [("Bob", "Acme"), ("Alice", "Umbrella")];
    let id = extract(&mut db, &sid, "two", &pairs, Timestamp(2000));
    cache_response(&mut db, &id, "ext", "Bob>Acme;Alice>Umbrella", vec![1], Timestamp(2500));
    let bob = format!("ent:{sid}:person:bob");
    let target = RedactTarget::Entity { space: sid.clone(), entity_id: bob };
    redact(&mut db, &target, "r", "a", Timestamp(3000));
    let shot = |db: &Tables| {
        format!(
            "{:?}{:?}{:?}{:?}{:?}{:?}{:?}",
            db.entities, db.keys, db.merges, db.statements, db.assertions, db.mentions, db.beliefs
        )
    };
    let before = shot(&db);
    assert_eq!(db.assertions.len(), 2);
    for step in reproject(&mut db) {
        match step {
            ReplayStep::Declaration { space, content, at } => {
                declare(&mut db, &space, &parse_decl(&content), at).unwrap();
            }
            ReplayStep::Extraction { space, episode, extractor, raw, content, at, cached } => {
                assert_eq!((extractor.as_str(), content.as_str()), ("ext", "two"));
                assert_eq!(cached, Timestamp(2500));
                let read: Vec<(&str, &str)> =
                    raw.split(';').map(|p| p.split_once('>').unwrap()).collect();
                respond(&mut db, &space, &episode, &read, at);
            }
            ReplayStep::Redaction { target_json, at } => {
                assert_eq!(at, Timestamp(3000));
                assert_eq!(target_json, format!("{:?}", target));
                let refolds = apply_replay(&mut db, &target, at).unwrap();
                refold(&mut db, refolds);
            }
            ReplayStep::Rebuild { .. } => assert_eq!(shot(&db), before),
        }
    }
    assert_eq!(shot(&db), before);
}

#[test]
fn related_episodes_cluster() {
    let mut db = fresh_db();
    let sid = space_id("personal");
    let a = extract(&mut db, &sid, "one", &[("Alice", "Acme")], Timestamp(1000));
    let b = extract(&mut db, &sid, "two", &[("Alice", "Acme"), ("Bob", "Acme")], Timestamp(2000));
    let c = extract(&mut db, &sid, "three", &[("Zoe", "Umbrella")], Timestamp(3000));
    let clusters = find_episode_clusters(&db, &sid);
    assert_eq!(clusters.len(), 1);
    let mut ids = clusters[0].episode_ids.clone();
    ids.sort();
    let mut expected = vec![a.clone(), b.clone()];
    expected.sort();
    assert_eq!(ids, expected);
    assert!(!clusters[0].episode_ids.contains(&c));
    assert!(clusters[0].shared_entities.is_empty());
    assert_eq!(
        entities_for_episodes(&db, &sid, &vec![a.clone(), b.clone(), c.clone()]),
        vec![format!("ent:{sid}:organization:acme"), format!("ent:{sid}:person:alice")]
    );
    assert!(entities_for_episodes(&db, &sid, &vec![c.clone()]).is_empty());
    let zoe = format!("ent:{sid}:person:zoe");
    assert_eq!(episodes_for_entities(&db, &sid, &vec![zoe]), vec![c]);
    let prompt = build_consolidation_prompt(
        &db,
        &sid,
        &EpisodeCluster { episode_ids: vec![a.clone()], shared_entities: vec![] },
    )
    .unwrap();
    assert_eq!(
        prompt,
        format!(
            "Summarize the following related episodes into a concise thematic summary. Focus on key entities, relationships, and decisions.\n\n--- Episode {a} ---\none\n\n"
        )
    );
    let bad = EpisodeCluster { episode_ids: vec!["nope".into()], shared_entities: vec![] };
    assert!(build_consolidation_prompt(&db, &sid, &bad).is_err());
}

#[test]
fn communities_are_labelled() {
    let mut db = fresh_db();
    let sid = space_id("personal");
    declare_in(&mut db, &sid, Timestamp(1000));
    let alice = db.statements[0].subject.clone();
    let acme = match &db.statements[0].object {
        Object::Entity(e) => e.clone(),
        Object::Literal(_) => panic!("an entity was declared"),
    };
    rebuild_communities(&mut db, &sid, &vec![(alice.clone(), 1), (acme.clone(), 1)]);
    let mut members = community_members(&db, &sid, &alice);
    members.sort();
    let mut expected = vec![alice.clone(), acme.clone()];
    expected.sort();
    assert_eq!(members, expected);
    let groups = load_community_entities(&db, &sid);
    assert_eq!(groups.len(), 1);
    let group = CommunityGroup { label: groups[0].label, entity_ids: vec![alice.clone(), "x".into()] };
    let texts = vec![("active".to_string(), 7u32, "Active (conf 0.70)".to_string())];
    assert_eq!(
        build_community_prompt(&db, &sid, &group, &texts),
        format!(
            "Summarize the key themes and relationships among these entities:\n\n- {alice} (person): Active (conf 0.70)\n- x (Unknown): \n"
        )
    );
}

#[test]
fn beliefs_are_counted() {
    let mut db = fresh_db();
    let sid = space_id("personal");
    declare_in(&mut db, &sid, Timestamp(1000));
    let alice = db.statements[0].subject.clone();
    let support = db.beliefs[0].support_json.clone();
    let facts = vec![(support, SupportFacts { distinct_episodes: 1, untrusted: true })];
    let s = belief_stats_for_entities(&db, &sid, &vec![alice.clone()], &facts);
    assert_eq!(s.total_beliefs, 1);
    assert_eq!(s.contradicted_beliefs, 0);
    assert_eq!(s.single_source_beliefs, 1);
    assert_eq!(s.untrusted_beliefs, 1);
    assert_eq!(s.newest_episode, Some(Timestamp(1000)));
    let s = belief_stats_for_entities(&db, &sid, &vec![alice], &vec![]);
    assert_eq!((s.total_beliefs, s.single_source_beliefs, s.untrusted_beliefs), (1, 0, 0));
    let s = belief_stats_for_entities(&db, &sid, &vec![], &facts);
    assert_eq!((s.total_beliefs, s.newest_episode), (0, None));
}

fn text(s: &str) -> Cell {
    Cell::Text(s.into())
}

fn dumps() -> Vec<TableDump> {
    export_tables()
        .into_iter()
        .map(|table| TableDump {
            rows: if table == "episodes" || table == "spaces" {
                vec![
                    vec![
                        ("id".to_string(), text("x")),
                        ("blob".to_string(), Cell::Blob(vec![0, 255])),
                        ("n".to_string(), Cell::Integer(-5)),
                        ("none".to_string(), Cell::Null),
                    ],
                    vec![("id".to_string(), text("line\nbreak"))],
                ]
            } else {
                vec![]
            },
            table,
        })
        .collect()
}

#[test]
fn export_import_round_trip() {
    let d = dumps();
    let jsonl = export_jsonl(&d).unwrap();
    assert!(!jsonl.is_empty());
    let back = import_jsonl(&jsonl);
    assert!(back.error.is_none());
    for dump in &d {
        let after = back.rows.iter().filter(|r| r.table == dump.table).count();
        assert_eq!(after, dump.rows.len(), "table {}", dump.table);
    }
    let first = &back.rows[0];
    assert_eq!(first.table, "spaces");
    let names: Vec<&str> = first.cells.iter().map(|(n, _)| n.as_str()).collect();
    assert_eq!(names, vec!["blob", "id", "n", "none"]);
    assert!(matches!(&first.cells[0].1, Cell::Blob(b) if *b == vec![0, 255]));
    assert!(matches!(&first.cells[2].1, Cell::Integer(-5)));
    assert!(matches!(&first.cells[3].1, Cell::Null));
    assert!(matches!(&back.rows[1].cells[0].1, Cell::Text(t) if t == "line\nbreak"));
}

#[test]
fn export_includes_all_tables() {
    let mut d = dumps();
    for dump in d.iter_mut() {
        if dump.rows.is_empty() {
            dump.rows.push(vec![("id".to_string(), text("y"))]);
        }
    }
    let jsonl = export_jsonl(&d).unwrap();
    for table in ["spaces", "episodes", "entities", "statements", "assertions", "predicates"] {
        assert!(jsonl.contains(&format!("\"table\":\"{table}\"")), "missing {table}");
    }
    d.pop();
    assert!(matches!(
        export_jsonl(&d).unwrap_err(),
        BrainError::Storage(m) if m == "no such table: meta"
    ));
}

#[test]
fn imports_stop_at_the_first_bad_line() {
    let good = r#"{"row":{"id":"a"},"table":"spaces"}"#;
    let cases = [
        ("{", "jsonl parse: "),
        (r#"{"row":{}}"#, "missing 'table' field"),
        (r#"{"table":"t"}"#, "missing 'row' field"),
        (r#"{"table":"t","row":[]}"#, "expected JSON object for table t"),
    ];
    for (bad, message) in cases {
        let r = import_jsonl(&format!("{good}\r\n\n  \n{bad}\n{good}\n"));
        assert_eq!(r.rows.len(), 1);
        match r.error.unwrap() {
            BrainError::Storage(m) => assert!(m.starts_with(message), "{m}"),
            other => panic!("{:?}", other),
        }
    }
}

#[test]
fn values_and_json_convert() {
    for (cell, json) in [
        (Cell::Null, "null"),
        (Cell::Integer(7), "7"),
        (Cell::Integer(-7), "-7"),
        (Cell::Real("1.5".into()), "1.5"),
        (text("a"), "\"a\""),
        (Cell::Blob(vec![1, 171]), "\"hex:01ab\""),
    ] {
        assert_eq!(value_to_json(&cell).render(), json);
        assert_eq!(
            format!("{:?}", json_to_value(&Json::parse(json).unwrap())),
            format!("{:?}", cell)
        );
    }
    let read = |s: &str| format!("{:?}", json_to_value(&Json::parse(s).unwrap()));
    assert_eq!(read("true"), "Integer(1)");
    assert_eq!(read("\"hex:0\""), "Text(\"hex:0\")");
    assert_eq!(read("\"hex:AB\""), "Blob([171])");
    assert_eq!(read("\"text:hex:00\""), "Text(\"hex:00\")");
    assert_eq!(read("\"text:a\""), "Text(\"text:a\")");
    for text in ["hex:00", "text:hex:00", "hex:", "text:text:hex:zz", "text:", "text:a", "hex"] {
        let written = value_to_json(&Cell::Text(text.into())).render();
        assert_eq!(read(&written), format!("Text({text:?})"));
    }
    assert_eq!(value_to_json(&Cell::Text("hex:00".into())).render(), "\"text:hex:00\"");
    assert_eq!(value_to_json(&Cell::Text("text:a".into())).render(), "\"text:a\"");
    assert_eq!(read("[1,2]"), "Text(\"[1,2]\")");
    assert_eq!(read("18446744073709551615"), "Real(\"18446744073709551615\")");
}

#[test]
fn round_trip_preserves_beliefs_after_reproject() {
    let mut db = fresh_db();
    declare_alice_works_for_acme(&mut db, Timestamp(1000));
    let before = db.beliefs.len();
    let mut d = dumps();
    for dump in d.iter_mut() {
        dump.rows.clear();
        if dump.table == "episodes" {
            for e in &db.episodes {
                dump.rows.push(vec![
                    ("id".to_string(), text(&e.id)),
                    ("content".to_string(), text(&e.content)),
                ]);
            }
        }
    }
    let back = import_jsonl(&export_jsonl(&d).unwrap());
    assert_eq!(back.rows.len(), db.episodes.len());
    for row in &back.rows {
        assert!(db.episodes.iter().any(|e| {
            matches!(&row.cells[0].1, Cell::Text(t) if *t == e.content)
                && matches!(&row.cells[1].1, Cell::Text(t) if *t == e.id)
        }));
    }
    replay(&mut db);
    assert_eq!(db.beliefs.len(), before);
}

#[test]
fn snapshots_are_lines_of_cells() {
    let rows = vec![vec![
        text("a"),
        Cell::Null,
        Cell::Integer(-3),
        Cell::Real("0.5".into()),
        Cell::Blob(vec![1, 2, 3]),
    ]];
    assert_eq!(snapshot_section("x", &rows), "---x---\na||-3|0.5|blob(3)\n");
    assert_eq!(snapshot_section("y", &vec![]), "---y---\n");
    let truth = TruthRows {
        entities: rows,
        keys: vec![],
        merges: vec![],
        statements: vec![],
        assertions: vec![],
        mentions: vec![],
        beliefs: vec![],
        predicates: vec![vec![text("p")]],
    };
    assert_eq!(
        snapshot_truth(&truth),
        "---entities---\na||-3|0.5|blob(3)\n---keys---\n---merges---\n---statements---\n---assertions---\n---mentions---\n---beliefs---\n---predicates---\np\n"
    );
    let ranking = RankingRows {
        fts_word: vec![],
        fts_ngram: vec![],
        vectors: vec![],
        communities: vec![],
        salience: vec![],
        chunks: vec![],
    };
    assert_eq!(
        snapshot_ranking(&ranking),
        "---fts_word---\n---fts_ngram---\n---vectors---\n---communities---\n---salience---\n---chunks---\n"
    );
}

#[test]
fn replaced_beliefs_are_read_back_in_order() {
    let mut db = fresh_db();
    declare_alice_works_for_acme(&mut db, Timestamp(1000));
    let statement = db.statements[0].id.clone();
    let belief = |from: i64| Belief {
        statement: statement.clone(),
        valid_from: Timestamp(from),
        valid_to: Timestamp(from + 1),
        status: "active".into(),
        confidence: 0,
        support_json: "{}".into(),
    };
    oxibrain::knowledge::replace_beliefs(
        &mut db,
        &vec![statement.clone()],
        &vec![belief(5), belief(TIME_MIN), belief(1)],
    );
    let read: Vec<i64> =
        get_beliefs_for_statement(&db, &statement).iter().map(|b| b.valid_from.0).collect();
    assert_eq!(read, vec![TIME_MIN, 1, 5]);
    assert!(db.keys.iter().all(|k| k.origin == KeyOrigin::UserDeclared));
}

fn shown(db: &Tables) -> String {
    format!(
        "{:?}{:?}{:?}{:?}{:?}{:?}{:?}",
        db.entities, db.keys, db.merges, db.statements, db.assertions, db.mentions, db.beliefs
    )
}

fn retracted(subject: &str, employer: &str) -> Declaration {
    Declaration::Retract {
        subject: entity(subject, "person"),
        predicate: "employed_by".into(),
        object: DeclObject::Entity { surface: employer.into(), ty: "organization".into() },
        episode: "".into(),
    }
}

fn replay_all(db: &mut Tables, target: &RedactTarget) -> Vec<&'static str> {
    let mut kinds = Vec::new();
    for step in reproject(db) {
        match step {
            ReplayStep::Declaration { space, content, at } => {
                kinds.push("declaration");
                declare(db, &space, &parse_decl(&content), at).unwrap();
            }
            ReplayStep::Extraction { space, episode, raw, at, .. } => {
                kinds.push("extraction");
                let read: Vec<(&str, &str)> =
                    raw.split(';').map(|p| p.split_once('>').unwrap()).collect();
                respond(db, &space, &episode, &read, at);
            }
            ReplayStep::Redaction { at, .. } => {
                kinds.push("redaction");
                let refolds = apply_replay(db, target, at).unwrap();
                refold(db, refolds);
            }
            ReplayStep::Rebuild { .. } => kinds.push("rebuild"),
        }
    }
    kinds
}

#[test]
fn replay_keeps_the_order_of_projection() {
    let mut db = fresh_db();
    let sid = space_id("personal");
    let id = extract(&mut db, &sid, "two", &[("Bob", "Acme"), ("Zoe", "Acme")], Timestamp(1000));
    cache_response(&mut db, &id, "ext", "Bob>Acme;Zoe>Acme", vec![1], Timestamp(1000));
    declare(&mut db, &sid, &retracted("Bob", "Acme"), Timestamp(2000)).unwrap();
    let target = RedactTarget::Entity {
        space: sid.clone(),
        entity_id: format!("ent:{sid}:person:zoe"),
    };
    redact(&mut db, &target, "r", "a", Timestamp(3000));
    declare(&mut db, &sid, &employed("Zoe", "Umbrella", "affirm"), Timestamp(4000)).unwrap();
    assert_eq!(db.assertions[0].retracted_at, Some(Timestamp(2000)));
    let before = shown(&db);
    let kinds = replay_all(&mut db, &target);
    assert_eq!(kinds, ["extraction", "declaration", "redaction", "declaration", "rebuild"]);
    assert_eq!(shown(&db), before);
}

#[test]
fn projecting_a_response_again_changes_nothing() {
    let mut db = fresh_db();
    let sid = space_id("personal");
    let pairs = [("Bob", "Acme"), ("Alice", "Umbrella")];
    let id = extract(&mut db, &sid, "two", &pairs, Timestamp(1000));
    assert_eq!(db.assertions.len(), 2);
    let before = shown(&db);
    respond(&mut db, &sid, &id, &pairs, Timestamp(1000));
    assert_eq!(shown(&db), before);
}

#[test]
fn assertions_inherit_the_trust_of_their_episode() {
    let mut db = fresh_db();
    let sid = space_id("personal");
    for (n, trust) in [TrustTier::Untrusted, TrustTier::SemiTrusted].into_iter().enumerate() {
        let id = oxibrain::extraction::ingest_episode(
            &mut db,
            &sid,
            &format!("note {n}"),
            SourceRef::Note { path: "n".into() },
            trust,
            Timestamp(1000),
            format!("n{n}"),
            [n as u8; 32],
        );
        respond(&mut db, &sid, &id, &[("Bob", "Acme")], Timestamp(1000));
    }
    declare_in(&mut db, &sid, Timestamp(2000));
    let tiers: Vec<TrustTier> = db.assertions.iter().map(|a| a.trust).collect();
    assert_eq!(tiers, [TrustTier::Untrusted, TrustTier::SemiTrusted, TrustTier::Trusted]);
    db.episodes[0].trust = "unheard_of".into();
    assert_eq!(oxibrain::extraction::stored_trust(&db.episodes[0]), TrustTier::Untrusted);
    assert_eq!(oxibrain::extraction::stored_trust(&db.episodes[1]), TrustTier::SemiTrusted);
}

#[test]
fn diffs_list_each_statement_once() {
    let mut db = fresh_db();
    let sid = space_id("personal");
    declare(&mut db, &sid, &employed("Alice", "Acme", "affirm"), Timestamp(1000)).unwrap();
    declare(&mut db, &sid, &employed("Alice", "Umbrella", "affirm"), Timestamp(2000)).unwrap();
    declare(&mut db, &sid, &employed("Alice", "Initech", "affirm"), Timestamp(2500)).unwrap();
    let alice = format!("ent:{sid}:person:alice");
    for (b, from) in db.beliefs.iter_mut().zip([0, 100, 200]) {
        b.valid_from = Timestamp(from);
        b.valid_to = Timestamp(from + 150);
    }
    let d = diff(&db, &sid, &alice, Timestamp(120), Timestamp(220));
    assert_eq!((d.added.len(), d.removed.len(), d.changed.len()), (1, 1, 0));
    assert_ne!(d.added[0].statement_id, d.removed[0].statement_id);
    let same = diff(&db, &sid, &alice, Timestamp(120), Timestamp(120));
    assert!(same.added.is_empty() && same.removed.is_empty() && same.changed.is_empty());
    let back = diff(&db, &sid, &alice, Timestamp(220), Timestamp(120));
    assert_eq!(back.added[0].statement_id, d.removed[0].statement_id);
    assert_eq!(back.removed[0].statement_id, d.added[0].statement_id);
}

#[test]
fn a_compacted_episode_is_replayed_and_redacted() {
    let mut db = fresh_db();
    let sid = space_id("personal");
    let id = declare_in(&mut db, &sid, Timestamp(1000));
    let read = format!("{:?}", get_episode(&db, &id).unwrap());
    let later = Timestamp(1000 + 40 * 86_400_000);
    assert_eq!(compact_episodes(&mut db, &sid, later, 30), 1);
    assert!(db.episodes[0].content_compacted.is_some());
    assert_eq!(format!("{:?}", get_episode(&db, &id).unwrap()), read);
    assert_eq!(compact_episodes(&mut db, &sid, later, 30), 0);
    let before = shown(&db);
    let target = RedactTarget::Episode { id: id.clone() };
    assert_eq!(replay_all(&mut db, &target), ["declaration", "rebuild"]);
    assert_eq!(shown(&db), before);
    redact(&mut db, &target, "gdpr", "admin", later);
    assert!(db.episodes[0].content_compacted.is_none());
    assert_eq!(get_episode(&db, &id).unwrap().unwrap().content, "[redacted]");
    assert!(db.assertions.is_empty());
}

#[test]
fn purging_a_space_leaves_the_others_and_is_recorded() {
    let mut db = fresh_db();
    let sid = space_id("personal");
    let dev = create_space(&mut db, "dev", Timestamp(0));
    declare_in(&mut db, &sid, Timestamp(1000));
    declare_in(&mut db, &dev, Timestamp(1000));
    let target = RedactTarget::Space { id: dev.clone() };
    redact(&mut db, &target, "purge", "cli", Timestamp(2000));
    assert_eq!((db.spaces.len(), db.episodes.len(), db.statements.len()), (1, 1, 1));
    assert_eq!(db.episodes[0].space, sid);
    assert_eq!(db.assertions.len(), 1);
    assert_eq!(db.audit.len(), 1);
    assert_eq!(db.audit[0].operation, "redact");
    assert_eq!(db.redactions.len(), 1);
    assert_eq!(db.redactions[0].target_json, format!("{:?}", target));
}

#[test]
fn an_overview_counts_its_own_space() {
    let mut db = fresh_db();
    let sid = space_id("personal");
    let dev = create_space(&mut db, "dev", Timestamp(0));
    for i in 0..25i64 {
        declare(&mut db, &sid, &employed(&format!("P{i}"), "Acme", "affirm"), Timestamp(1000 + i))
            .unwrap();
    }
    declare_in(&mut db, &dev, Timestamp(5000));
    declare(&mut db, &dev, &employed("Alice", "Acme", "deny"), Timestamp(6000)).unwrap();
    let page = |space: &str, id: &str| {
        let resp = read_space(&db, &format!("space://{space}"), space, id);
        match resp.get("contents") {
            Some(Json::Arr(items)) => Json::parse(items[0].str_of("text").unwrap()).unwrap(),
            other => panic!("{:?}", other),
        }
    };
    let mine = page("personal", &sid);
    let number = |v: &Json, key: &str| v.get(key).unwrap().as_u64().unwrap();
    assert_eq!(number(&mine, "episode_count"), 25);
    assert_eq!(number(&mine, "entity_count"), 26);
    assert_eq!(number(&mine, "contradiction_count"), 0);
    let recent = match mine.get("recent_entities") {
        Some(Json::Arr(items)) => items.clone(),
        other => panic!("{:?}", other),
    };
    assert_eq!(recent.len(), 20);
    assert_eq!(recent[0].str_of("surface"), Some("P24"));
    let theirs = page("dev", &dev);
    assert_eq!(number(&theirs, "episode_count"), 2);
    assert_eq!(number(&theirs, "entity_count"), 2);
    assert_eq!(number(&theirs, "contradiction_count"), 1);
    let nothing = page("none", "none");
    assert_eq!(number(&nothing, "episode_count"), 0);
    assert_eq!(number(&nothing, "entity_count"), 0);
}

#[test]
fn replay_rebuilds_what_a_purge_leaves() {
    let mut db = fresh_db();
    let sid = space_id("personal");
    let dev = create_space(&mut db, "dev", Timestamp(0));
    declare_in(&mut db, &dev, Timestamp(1000));
    declare(&mut db, &sid, &employed("Bob", "Acme", "affirm"), Timestamp(1500)).unwrap();
    let id = extract(&mut db, &dev, "dev note", &[("Zoe", "Acme")], Timestamp(2000));
    cache_response(&mut db, &id, "ext", "Zoe>Acme", vec![1], Timestamp(2000));
    let id = extract(&mut db, &sid, "my note", &[("Ann", "Umbrella")], Timestamp(2500));
    cache_response(&mut db, &id, "ext", "Ann>Umbrella", vec![1], Timestamp(2500));
    let purge = RedactTarget::Space { id: dev.clone() };
    redact(&mut db, &purge, "purge", "cli", Timestamp(3000));
    let before = shown(&db);
    let kinds = replay_all(&mut db, &purge);
    assert_eq!(kinds, ["declaration", "extraction", "redaction", "rebuild"]);
    assert_eq!(shown(&db), before);
    create_space(&mut db, "dev", Timestamp(4000));
    declare_in(&mut db, &dev, Timestamp(5000));
    let before = shown(&db);
    assert_eq!(db.statements.iter().filter(|s| s.space == dev).count(), 1);
    let kinds = replay_all(&mut db, &purge);
    assert_eq!(kinds, ["declaration", "extraction", "redaction", "declaration", "rebuild", "rebuild"]);
    assert_eq!(shown(&db), before);
}

#[test]
fn replay_rebuilds_what_the_redaction_of_an_episode_leaves() {
    let mut db = fresh_db();
    let sid = space_id("personal");
    declare(&mut db, &sid, &employed("Alice", "Acme", "affirm"), Timestamp(1000)).unwrap();
    declare(&mut db, &sid, &employed("Bob", "Umbrella", "affirm"), Timestamp(2000)).unwrap();
    let named = Declaration::AddStatement {
        subject: entity("Alice", "person"),
        predicate: "full_name".into(),
        object: DeclObject::Literal { literal_type: "text".into(), value: "Alice A.".into() },
        polarity: "affirm".into(),
        valid_from: 0,
        valid_to: TIME_MAX,
    };
    let id = declare(&mut db, &sid, &named, Timestamp(2500)).unwrap();
    let target = RedactTarget::Episode { id };
    redact(&mut db, &target, "gdpr", "admin", Timestamp(3000));
    assert_eq!((db.statements.len(), db.beliefs.len(), db.entities.len()), (2, 2, 4));
    let before = shown(&db);
    let kinds = replay_all(&mut db, &target);
    assert_eq!(kinds, ["declaration", "declaration", "redaction", "rebuild"]);
    assert_eq!(shown(&db), before);
}

#[test]
fn groups_are_folded_as_of_the_time_of_the_change() {
    let mut db = fresh_db();
    let sid = space_id("personal");
    declare_in(&mut db, &sid, Timestamp(1000));
    let alice = format!("ent:{sid}:person:alice");
    declare_age(&mut db, &sid);
    let target = RedactTarget::PredicateScoped {
        space: sid,
        entity_id: alice,
        predicate: "age".into(),
    };
    declare(&mut db, &space_id("personal"), &employed("Alice", "Umbrella", "affirm"), Timestamp(7000))
        .unwrap();
    let episode = RedactTarget::Episode { id: db.episodes[0].id.clone() };
    let done = execute_redaction(&mut db, &episode, "{}", "r1", "r", "a", Timestamp(8000)).unwrap();
    assert_eq!(done.refolds.len(), 2);
    assert!(done.refolds.iter().all(|r| r.at == Timestamp(8000)));
    assert!(apply_replay(&mut db, &target, Timestamp(9000)).unwrap().is_empty());
}
