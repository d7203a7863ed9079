use oxibrain::daemon::PidFile;
use oxibrain::error::BrainError;
use oxibrain::http;
use oxibrain::json::Json;
use oxibrain::llm::LlmRequest;
use oxibrain::ops;
use oxibrain::parse;
use oxibrain::protocol::{
    Message, INCOMPATIBLE_PROTOCOL, INVALID_PARAMS, INVALID_REQUEST, METHOD_NOT_FOUND,
    PARSE_ERROR, UNAUTHORIZED,
};
use oxibrain::project::{DeclObject, Declaration, EntityRef};
use oxibrain::query::QueryMode;
use oxibrain::redaction::RedactTarget;
use oxibrain::requests::{self, Direction, SampleStep, ToolErr, ToolRequest, Written};
use oxibrain::resources::{self, EntityCard, ResourceKind};
use oxibrain::sampling::{self, PendingRequests, SamplingFailure};
use oxibrain::security::{Capability, CapabilitySet, Scope};
use oxibrain::server::{self, Action, ClientHello, Gate};
use oxibrain::session::{self, AuthVerdict, LineEvent};
use oxibrain::ledger::create_space;
use oxibrain::tables::Tables;
use oxibrain::time::Timestamp;
use oxibrain::tools;

fn json(text: &str) -> Json {
    Json::parse(text).unwrap()
}

fn at<'a>(v: &'a Json, path: &[&str]) -> &'a Json {
    let mut v = v;
    for key in path {
        v = v.get(key).unwrap();
    }
    v
}

fn items(v: &Json) -> &Vec<Json> {
    match v {
        Json::Arr(items) => items,
        other => panic!("no array: {:?}", other),
    }
}

fn msg(id: i64, method: &str, params: Option<&str>) -> Message {
    Message {
        id: Some(oxibrain::json::integer(id)),
        method: method.into(),
        params: params.map(json),
    }
}

fn reply(m: Message) -> Json {
    match server::dispatch(m, "9.9.9") {
        Action::Reply(v) => v,
        other => panic!("no reply: {:?}", other),
    }
}

#[test]
fn parse_request_with_params() {
    let m = Message::parse(
        r#"{"jsonrpc":"2.0","id":7,"method":"tools/call","params":{"name":"search"}}"#,
    )
    .unwrap();
    assert_eq!(m.id.as_ref().unwrap().as_i64(), Some(7));
    assert_eq!(m.method, "tools/call");
    assert_eq!(m.params.as_ref().unwrap().str_of("name"), Some("search"));
    assert!(!m.is_notification());
}

#[test]
fn parse_notification_has_no_id() {
    let m = Message::parse(r#"{"jsonrpc":"2.0","method":"notifications/initialized"}"#).unwrap();
    assert!(m.id.is_none());
    assert!(m.is_notification());
}

#[test]
fn parse_garbage_is_parse_error() {
    let err = Message::parse("not json").unwrap_err();
    assert_eq!(err.code, PARSE_ERROR);
    assert!(err.id.is_none());
    assert!(err.message.starts_with("parse error: "));
}

#[test]
fn parse_missing_method_is_invalid_request() {
    let err = Message::parse(r#"{"jsonrpc":"2.0","id":1}"#).unwrap_err();
    assert_eq!(err.code, INVALID_REQUEST);
    assert_eq!(err.id.unwrap().as_i64(), Some(1));
}

#[test]
fn json_reads_back_as_it_was_written() {
    let text = r#"{"a":[1,-2,null,true,"x\n\"y\""],"b":{"c":18446744073709551615},"d":1.5}"#;
    let v = json(text);
    assert_eq!(v.render(), text);
    assert_eq!(json(&v.render_pretty()).render(), text);
    assert!(v.render_pretty().contains('\n'));
    assert_eq!(json(r#"{"b":1,"a":2}"#).render(), r#"{"a":2,"b":1}"#);
    assert!(Json::parse("{").is_err());
}

#[test]
fn registry_has_fifteen_unique_ops_with_schemas() {
    let list = ops::tools_list();
    let tools = items(at(&list, &["tools"]));
    assert_eq!(tools.len(), 15);
    let names: Vec<&str> = tools.iter().map(|t| t.str_of("name").unwrap()).collect();
    let mut sorted = names.clone();
    sorted.sort();
    sorted.dedup();
    assert_eq!(names.len(), sorted.len(), "tool names must be unique");
    for op in ops::ops() {
        let tool = tools
            .iter()
            .find(|t| t.str_of("name") == Some(op.name))
            .unwrap_or_else(|| panic!("{} missing from tools/list", op.name));
        assert_eq!(at(tool, &["inputSchema", "type"]).as_str(), Some("object"));
        assert_eq!(tool.str_of("description"), Some(op.summary));
    }
}

#[test]
fn find_rejects_unknown_and_finds_known() {
    assert!(ops::find("search").is_some());
    assert!(ops::find("not-an-op").is_none());
}

#[test]
fn operations_name_their_capability() {
    for op in ops::ops() {
        let cap = requests::required_capability(op.name).unwrap();
        assert_eq!(op.cap.to_lowercase(), cap.as_str());
    }
    let redact = ops::find("redact").unwrap();
    assert_eq!(redact.cap, "Redact");
    assert!(redact.mutating);
    assert!(!ops::find("ingest").unwrap().mutating);
    let schema = redact.schema();
    assert_eq!(schema.get("required").unwrap().render(), r#"["target_kind","target_id"]"#);
}

#[test]
fn initialize_advertises_tools_and_negotiates_version() {
    let resp = reply(msg(1, "initialize", Some(r#"{"protocolVersion":"1999"}"#)));
    assert_eq!(
        at(&resp, &["result", "protocolVersion"]).as_str(),
        Some(server::DEFAULT_PROTOCOL_VERSION)
    );
    assert_eq!(at(&resp, &["result", "serverInfo", "name"]).as_str(), Some("oxibrain"));
    assert_eq!(at(&resp, &["result", "serverInfo", "version"]).as_str(), Some("9.9.9"));
    assert!(matches!(at(&resp, &["result", "capabilities", "tools"]), Json::Obj(_)));
    assert!(matches!(at(&resp, &["result", "capabilities", "resources"]), Json::Obj(_)));

    let resp = reply(msg(2, "initialize", Some(r#"{"protocolVersion":"2026-07-28"}"#)));
    assert_eq!(at(&resp, &["result", "protocolVersion"]).as_str(), Some("2026-07-28"));
}

#[test]
fn tools_list_advertises_full_surface() {
    let resp = reply(msg(1, "tools/list", None));
    let tools = items(at(&resp, &["result", "tools"]));
    let names: Vec<&str> = tools.iter().map(|t| t.str_of("name").unwrap()).collect();
    for expected in [
        "search",
        "recall",
        "brief",
        "navigate",
        "traverse",
        "why",
        "contradictions",
        "stats",
        "review_merges",
        "ingest",
        "remember",
        "declare",
        "retract",
        "merge_entities",
        "redact",
    ] {
        assert!(names.contains(&expected), "missing tool {expected}");
        let tool = tools.iter().find(|t| t.str_of("name") == Some(expected)).unwrap();
        assert_eq!(at(tool, &["inputSchema", "type"]).as_str(), Some("object"));
    }
    assert_eq!(names.len(), 15);
}

#[test]
fn catalogue_and_registry_list_the_same_tools() {
    let entries = tools::tool_entries();
    let ops = ops::ops();
    assert_eq!(entries.len(), ops.len());
    for (entry, op) in entries.iter().zip(ops.iter()) {
        assert_eq!(entry.name, op.name);
    }
}

#[test]
fn ping_responds_and_unknown_method_errors() {
    let resp = reply(msg(1, "ping", None));
    assert_eq!(resp.render(), r#"{"id":1,"jsonrpc":"2.0","result":{}}"#);
    let resp = reply(msg(2, "no/such/method", None));
    assert_eq!(at(&resp, &["error", "code"]).as_i64(), Some(METHOD_NOT_FOUND));
    assert_eq!(
        at(&resp, &["error", "message"]).as_str(),
        Some("unknown method: no/such/method")
    );
}

fn hello(version: u32, min: Option<u32>, max: Option<u32>, store: u32) -> ClientHello {
    ClientHello {
        protocol_version: version,
        min_compatible: min,
        max_compatible: max,
        min_store_format_version: store,
        supported_operations: vec!["mcp_tool_call".into()],
    }
}

fn shake(h: ClientHello) -> Json {
    let all = vec!["mcp_tool_call".to_string(), "list_spaces".to_string()];
    let outcome = server::handle_handshake(&Ok(h), &all, "9.9.9");
    server::answer_handshake(oxibrain::json::integer(1), outcome)
}

#[test]
fn handshake_returns_server_info_within_supported_range() {
    let resp = shake(hello(
        server::HANDSHAKE_PROTOCOL_MAX,
        None,
        None,
        server::HANDSHAKE_STORE_FORMAT_VERSION,
    ));
    let result = at(&resp, &["result"]);
    assert_eq!(
        at(result, &["min_compatible"]).as_u64().unwrap() as u32,
        server::HANDSHAKE_PROTOCOL_MIN
    );
    assert_eq!(
        at(result, &["max_compatible"]).as_u64().unwrap() as u32,
        server::HANDSHAKE_PROTOCOL_MAX
    );
    assert_eq!(
        at(result, &["store_format_version"]).as_u64().unwrap() as u32,
        server::HANDSHAKE_STORE_FORMAT_VERSION
    );
    assert_eq!(result.str_of("server_name"), Some("oxibrain"));
    assert_eq!(at(result, &["supported_operations"]).render(), r#"["mcp_tool_call"]"#);
}

#[test]
fn handshake_without_operations_gets_all() {
    let mut h = hello(1, None, None, 0);
    h.supported_operations = vec![];
    let resp = shake(h);
    assert_eq!(
        at(&resp, &["result", "supported_operations"]).render(),
        r#"["mcp_tool_call","list_spaces"]"#
    );
}

#[test]
fn handshake_with_out_of_range_version_returns_typed_error() {
    let resp = shake(hello(
        9999,
        Some(1),
        Some(9999),
        server::HANDSHAKE_STORE_FORMAT_VERSION,
    ));
    assert_eq!(at(&resp, &["error", "code"]).as_i64(), Some(INCOMPATIBLE_PROTOCOL));
    let data = at(&resp, &["error", "data"]);
    assert_eq!(data.str_of("kind"), Some("incompatible_protocol"));
    assert_eq!(at(data, &["requested"]).as_u64(), Some(9999));
    assert_eq!(
        at(data, &["min_compatible"]).as_u64().unwrap() as u32,
        server::HANDSHAKE_PROTOCOL_MIN
    );
    assert_eq!(
        at(data, &["max_compatible"]).as_u64().unwrap() as u32,
        server::HANDSHAKE_PROTOCOL_MAX
    );
    assert_eq!(
        at(&resp, &["error", "message"]).as_str(),
        Some("incompatible protocol: requested 9999,                      supported range [1, 1]")
    );
}

#[test]
fn handshake_with_too_high_min_store_format_rejects() {
    let resp = shake(hello(
        server::HANDSHAKE_PROTOCOL_MAX,
        Some(1),
        Some(1),
        server::HANDSHAKE_STORE_FORMAT_VERSION + 10,
    ));
    assert_eq!(at(&resp, &["error", "code"]).as_i64(), Some(INCOMPATIBLE_PROTOCOL));
    assert_eq!(at(&resp, &["error", "data", "kind"]).as_str(), Some("store_too_old"));
    assert_eq!(at(&resp, &["error", "data", "client_min"]).as_u64(), Some(11));
}

#[test]
fn handshake_rejects_overrange_request_with_typed_client_bounds() {
    let resp = shake(hello(
        server::HANDSHAKE_PROTOCOL_MAX,
        Some(1),
        Some(1),
        server::HANDSHAKE_STORE_FORMAT_VERSION,
    ));
    assert!(resp.get("error").is_none());
    assert_eq!(
        at(&resp, &["result", "min_compatible"]).as_u64(),
        Some(server::HANDSHAKE_PROTOCOL_MIN as u64)
    );
    let resp = shake(hello(
        99,
        Some(1),
        Some(100),
        server::HANDSHAKE_STORE_FORMAT_VERSION,
    ));
    assert_eq!(at(&resp, &["error", "code"]).as_i64(), Some(INCOMPATIBLE_PROTOCOL));
    let data = at(&resp, &["error", "data"]);
    assert_eq!(data.str_of("kind"), Some("incompatible_protocol"));
    assert_eq!(at(data, &["requested"]).as_u64(), Some(99));
    assert_eq!(at(data, &["max_compatible"]).as_u64(), Some(1));
    assert_eq!(at(data, &["min_compatible"]).as_u64(), Some(1));
}

#[test]
fn handshake_is_available_before_scope_enforcement() {
    let m = msg(1, "handshake", Some(r#"{"protocol_version":1}"#));
    assert!(matches!(
        server::dispatch(m, "9.9.9"),
        Action::Handshake { params: Some(_), .. }
    ));
    let resp = shake(hello(1, Some(1), Some(1), 1));
    assert!(resp.get("error").is_none());
    assert_eq!(at(&resp, &["result", "server_name"]).as_str(), Some("oxibrain"));
}

#[test]
fn malformed_hello_is_invalid_params() {
    let outcome = server::handle_handshake(&Err("bad".into()), &vec![], "1");
    let resp = server::answer_handshake(Json::Null, outcome);
    assert_eq!(
        resp.render(),
        r#"{"error":{"code":-32602,"data":{"kind":"malformed_hello","reason":"bad"},"message":"malformed ClientHello: bad"},"id":null,"jsonrpc":"2.0"}"#
    );
}

#[test]
fn notification_yields_no_response() {
    for method in ["notifications/initialized", "ping", "tools/call"] {
        let m = Message { id: None, method: method.into(), params: None };
        assert!(matches!(server::dispatch(m, "1"), Action::Silent));
    }
}

#[test]
fn unknown_tool_is_method_not_found() {
    let call = requests::read_call(&Some(json(r#"{"name":"frobnicate"}"#))).unwrap();
    assert_eq!(call.args.render(), "{}");
    assert!(requests::read_request(&call.name, &call.args, "s").is_none());
    let e = requests::unknown_tool(&call.name);
    assert_eq!(e.code, METHOD_NOT_FOUND);
    assert_eq!(e.message, "unknown tool: frobnicate");
}

#[test]
fn calls_need_parameters_and_a_name() {
    assert_eq!(requests::read_call(&None).unwrap_err().message, "missing 'params'");
    let e = requests::read_call(&Some(json("{}"))).unwrap_err();
    assert_eq!((e.code, e.message.as_str()), (INVALID_PARAMS, "missing tool 'name'"));
}

#[test]
fn missing_required_arg_is_invalid_params() {
    let args = json("{}");
    let err = requests::check_early("search", &args).unwrap();
    let outcome = requests::finish_tool(Err(err)).unwrap_err();
    assert_eq!(outcome.code, INVALID_PARAMS);
    assert_eq!(outcome.message, "missing required argument 'query'");
}

#[test]
fn v1_0_schema_client_search_still_works() {
    let args = json(r#"{"query":"Alice","mode":"lexical","limit":5}"#);
    match requests::read_request("search", &args, "s").unwrap().unwrap() {
        ToolRequest::Search { query, mode, limit, as_of, min_confidence } => {
            assert_eq!(query, "Alice");
            assert_eq!(mode, QueryMode::Lexical);
            assert_eq!(limit, 5);
            assert!(as_of.is_none());
            assert!(min_confidence.is_none());
        }
        other => panic!("{:?}", other),
    }
}

#[test]
fn requests_have_defaults() {
    let one = |name: &str, args: &str| requests::read_request(name, &json(args), "s").unwrap();
    match one("search", r#"{"query":"q","as_of":18446744073709551615}"#).unwrap() {
        ToolRequest::Search { mode, limit, as_of, .. } => {
            assert_eq!(mode, QueryMode::Hybrid);
            assert_eq!(limit, 20);
            assert_eq!(as_of, Some(-1));
        }
        other => panic!("{:?}", other),
    }
    assert!(matches!(
        one("recall", r#"{"query":"q"}"#).unwrap(),
        ToolRequest::Recall { budget: 3000, .. }
    ));
    match one("traverse", r#"{"start":["a",1,"b"],"depth":258,"direction":"in"}"#).unwrap() {
        ToolRequest::Traverse { start, max_depth, max_nodes, direction, .. } => {
            assert_eq!(start, vec!["a".to_string(), "b".to_string()]);
            assert_eq!(max_depth, 2);
            assert_eq!(max_nodes, 256);
            assert_eq!(direction, Direction::In);
        }
        other => panic!("{:?}", other),
    }
    match one("ingest", r#"{"content":"x"}"#).unwrap() {
        ToolRequest::Ingest { path, extract, .. } => {
            assert_eq!(path, "mcp");
            assert!(!extract);
        }
        other => panic!("{:?}", other),
    }
    assert!(matches!(
        one("remember", r#"{"content":"x"}"#).unwrap(),
        ToolRequest::Remember { path, .. } if path == "remember"
    ));
    assert!(matches!(one("brief", r#"{"target_kind":"space"}"#).unwrap(), ToolRequest::BriefSpace));
    assert!(matches!(
        one("brief", r#"{"target_kind":"x"}"#).unwrap_err(),
        ToolErr::Run(m) if m == "configuration error: brief.target_kind: 'x' (expected entity|space|topic)"
    ));
    assert!(matches!(
        one("retract", r#"{"statement_id":"s1"}"#).unwrap(),
        ToolRequest::RetractStatement { statement_id, .. } if statement_id == "s1"
    ));
    assert!(matches!(
        one("retract", r#"{"predicate":"p"}"#).unwrap(),
        ToolRequest::RetractParts { predicate: Some(p), subject: None, .. } if p == "p"
    ));
    assert_eq!(requests::space_arg(&json("{}")), "personal");
    assert_eq!(requests::space_arg(&json(r#"{"space":"t"}"#)), "t");
}

#[test]
fn redact_targets_are_read() {
    let t = requests::read_target("predicate", "e1/employed_by/x", "s").unwrap();
    assert!(matches!(
        t,
        RedactTarget::PredicateScoped { space, entity_id, predicate }
            if space == "s" && entity_id == "e1" && predicate == "employed_by/x"
    ));
    assert!(matches!(
        requests::read_target("predicate", "e1", "s").unwrap_err(),
        ToolErr::Params(m) if m == "predicate target_id must be 'entity_id/predicate'"
    ));
    assert!(matches!(
        requests::read_target("space", "e1", "s").unwrap_err(),
        ToolErr::Params(m) if m == "unknown target_kind 'space' (expected episode|entity|predicate)"
    ));
    assert!(matches!(
        requests::read_target("entity", "e1", "s").unwrap(),
        RedactTarget::Entity { space, entity_id } if space == "s" && entity_id == "e1"
    ));
}

#[test]
fn outcomes_of_tools_are_answered() {
    let ok = requests::finish_tool(Ok("done".into())).unwrap();
    assert_eq!(ok.render(), r#"{"content":[{"text":"done","type":"text"}]}"#);
    let failed = requests::finish_tool(Err(ToolErr::run("boom"))).unwrap();
    assert_eq!(
        failed.render(),
        r#"{"content":[{"text":"boom","type":"text"}],"isError":true}"#
    );
    let answered = server::answer(oxibrain::json::integer(3), Ok(Json::Null));
    assert_eq!(answered.render(), r#"{"id":3,"jsonrpc":"2.0","result":null}"#);
    let refused = server::answer(Json::Null, Err(requests::unknown_tool("x")));
    assert_eq!(
        refused.render(),
        r#"{"error":{"code":-32601,"message":"unknown tool: x"},"id":null,"jsonrpc":"2.0"}"#
    );
}

fn scope(caps: &[Capability], spaces: &[&str], expires_at: Option<Timestamp>) -> Option<Scope> {
    let mut set = CapabilitySet::new();
    for c in caps {
        set.insert(*c);
    }
    Some(Scope {
        spaces: spaces.iter().map(|s| s.to_string()).collect(),
        caps: set,
        expires_at,
    })
}

#[test]
fn scoped_read_only_denies_ingest_and_declare() {
    let s = scope(&[Capability::Read], &["id-t"], None);
    let now = Timestamp(5);
    let gate = server::enforce_scope(&s, "contradictions", &json(r#"{"space":"t"}"#), now);
    assert!(matches!(gate.unwrap(), Gate::NeedsSpace { space } if space == "t"));
    assert!(server::enforce_space(&s, "t", &Some("id-t".into())).is_ok());
    for (tool, args) in [
        ("ingest", r#"{"space":"t","content":"x"}"#),
        ("declare", r#"{"space":"t","declaration_json":"{}"}"#),
    ] {
        let e = server::enforce_scope(&s, tool, &json(args), now).unwrap_err();
        assert_eq!(e.code, UNAUTHORIZED);
    }
    let e = server::enforce_scope(&s, "ingest", &json("{}"), now).unwrap_err();
    assert_eq!(e.message, "token lacks 'ingest' (expired=false)");
}

#[test]
fn scoped_write_allows_declare() {
    let s = scope(&[Capability::Read, Capability::Write], &["id-t"], None);
    let gate = server::enforce_scope(&s, "declare", &json(r#"{"space":"t"}"#), Timestamp(5));
    assert!(matches!(gate.unwrap(), Gate::NeedsSpace { .. }));
}

#[test]
fn scoped_read_denies_redact() {
    let s = scope(&[Capability::Read], &["id-t"], None);
    let e = server::enforce_scope(&s, "redact", &json(r#"{"space":"t"}"#), Timestamp(5));
    assert_eq!(e.unwrap_err().code, UNAUTHORIZED);
}

#[test]
fn scoped_to_one_space_denies_another() {
    let s = scope(&[Capability::Read, Capability::Ingest], &["id-alpha"], None);
    let e = server::enforce_space(&s, "beta", &Some("id-beta".into())).unwrap_err();
    assert_eq!(e.code, UNAUTHORIZED);
    assert_eq!(e.message, "token not scoped to space 'beta'");
}

#[test]
fn expired_scope_denies_all() {
    let s = scope(&[Capability::Read], &["id-t"], Some(Timestamp::from_millis(1)));
    let e = server::enforce_scope(&s, "contradictions", &json("{}"), Timestamp(1)).unwrap_err();
    assert_eq!(e.code, UNAUTHORIZED);
    assert_eq!(e.message, "token lacks 'read' (expired=true)");
}

#[test]
fn spaces_that_are_not_stored_are_refused_like_foreign_ones() {
    let mut db = Tables::new();
    let alpha = create_space(&mut db, "alpha", Timestamp(0));
    let beta = create_space(&mut db, "beta", Timestamp(0));
    let s = scope(&[Capability::Read], &[&alpha, "gamma"], None);
    let now = Timestamp(5);
    let call = |db: &Tables, s: &Option<Scope>, tool: &str, space: &str| {
        server::enforce_call(db, s, tool, &json(&format!(r#"{{"space":"{space}"}}"#)), now)
    };
    assert!(call(&db, &s, "stats", "alpha").is_ok());
    for space in ["beta", "gamma", "nowhere"] {
        let e = call(&db, &s, "stats", space).unwrap_err();
        assert_eq!(e.code, UNAUTHORIZED);
        assert_eq!(e.message, format!("token not scoped to space '{space}'"));
    }
    let e = call(&db, &s, "redact", "alpha").unwrap_err();
    assert_eq!(e.message, "token lacks 'redact' (expired=false)");
    assert!(call(&db, &None, "redact", "nowhere").is_ok());
    assert_eq!(db.spaces.len(), 2);
    let both = scope(&[Capability::Read], &[&alpha, &beta], None);
    assert!(call(&db, &both, "stats", "beta").is_ok());
}

#[test]
fn unscoped_servers_and_unknown_tools_pass_the_gate() {
    assert!(matches!(
        server::enforce_scope(&None, "redact", &json("{}"), Timestamp(0)).unwrap(),
        Gate::Open
    ));
    let s = scope(&[], &[], None);
    assert!(matches!(
        server::enforce_scope(&s, "frobnicate", &json("{}"), Timestamp(0)).unwrap(),
        Gate::Open
    ));
    assert!(server::enforce_space(&None, "t", &None).is_ok());
}

#[test]
fn traverse_missing_start_is_invalid_params() {
    let r = requests::read_request("traverse", &json(r#"{"space":"t","start":[]}"#), "s");
    let e = requests::finish_tool(Err(r.unwrap().unwrap_err())).unwrap_err();
    assert_eq!(e.code, INVALID_PARAMS);
    assert_eq!(e.message, "'start' must contain at least one entity ID");
    let r = requests::read_request("traverse", &json("{}"), "s");
    assert!(matches!(
        r.unwrap().unwrap_err(),
        ToolErr::Params(m) if m == "missing required argument 'start'"
    ));
}

#[test]
fn remember_ingests_without_session() {
    match requests::sample_step(&None, false, "e1") {
        SampleStep::Skip(t) => assert_eq!(
            t,
            "Ingested as episode: e1 (extraction skipped: no sampling session)"
        ),
        SampleStep::Extract => panic!("must skip"),
    }
    assert!(matches!(requests::sample_step(&None, true, "e1"), SampleStep::Extract));
    let s = scope(&[Capability::Write], &[], None);
    assert!(matches!(
        requests::sample_step(&s, true, "e1"),
        SampleStep::Skip(t)
            if t == "Ingested as episode: e1 (extraction skipped: token lacks Sample capability)"
    ));
    let s = scope(&[Capability::Sample], &[], None);
    assert!(matches!(requests::sample_step(&s, true, "e1"), SampleStep::Extract));
    assert_eq!(
        requests::extracted_text("e1", 3, 0),
        "Ingested + extracted: e1 (3 extracted, 0 quarantined)"
    );
    assert_eq!(
        requests::extraction_failed_text("e1", "why"),
        "Ingested as episode: e1 (extraction failed: why)"
    );
}

#[test]
fn resources_list_returns_templates() {
    let resp = reply(msg(1, "resources/list", None));
    let templates = items(at(&resp, &["result", "resourceTemplates"]));
    let uris: Vec<&str> = templates.iter().map(|t| t.str_of("uriTemplate").unwrap()).collect();
    assert!(uris.contains(&"entity://{id}"));
    assert!(uris.contains(&"episode://{id}"));
    assert!(uris.contains(&"graph://{entity}?depth=n"));
    assert!(uris.contains(&"timeline://{entity}?space=name&from=ms&to=ms"));
    assert_eq!(
        items(at(&resp, &["result", "resources"]))[0].str_of("uri"),
        Some("space://personal")
    );
}

fn read(uri: &str) -> resources::ResourceRequest {
    resources::read_uri(uri).unwrap()
}

#[test]
fn resource_uris_are_read() {
    let r = read("graph:///e1?depth=7&space=t&direction=out&space=u");
    assert_eq!(r.space, "u");
    assert!(matches!(
        r.kind,
        ResourceKind::Graph { id, depth: 7, direction: Direction::Out } if id == "e1"
    ));
    assert!(matches!(
        read("graph://e1?depth=300").kind,
        ResourceKind::Graph { depth: 2, direction: Direction::Both, .. }
    ));
    let r = read("timeline://e1?from=-5&to=+7&junk");
    assert_eq!(r.space, "personal");
    assert!(matches!(
        r.kind,
        ResourceKind::Timeline { from: Some(-5), to: Some(7), .. }
    ));
    let r = read("space://work?space=ignored");
    assert_eq!(r.space, "work");
    assert!(matches!(r.kind, ResourceKind::Space));
    assert!(matches!(read("episode://x").kind, ResourceKind::Episode { id } if id == "x"));
    assert!(matches!(read("entity://").kind, ResourceKind::Entity { id } if id.is_empty()));
    let e = resources::read_uri("nope").unwrap_err();
    assert_eq!((e.code, e.message.as_str()), (INVALID_PARAMS, "invalid URI: nope"));
    let e = resources::resources_read(&Some(json("{}"))).unwrap_err();
    assert_eq!(e.message, "missing 'uri'");
    assert_eq!(resources::resources_read(&None).unwrap_err().message, "missing 'params'");
    assert_eq!(resources::episode_missing("x").message, "episode not found: x");
}

#[test]
fn resources_read_unknown_scheme_is_error() {
    let r = resources::resources_read(&Some(json(r#"{"uri":"ftp://nope"}"#))).unwrap();
    match r.kind {
        ResourceKind::Unknown { scheme } => {
            let e = resources::unknown_scheme(&scheme);
            assert_eq!(e.code, METHOD_NOT_FOUND);
            assert_eq!(e.message, "unknown resource scheme: ftp");
        }
        other => panic!("{:?}", other),
    }
}

#[test]
fn space_resource_contract_exact_keys() {
    let cards: Vec<EntityCard> = (0..25)
        .map(|i| EntityCard {
            id: format!("e{i}"),
            surface: "Alice".into(),
            ty: "person".into(),
        })
        .collect();
    let resp = resources::space_resource("space://t", "t", "id-t", &cards, 4, 1);
    let content = &items(at(&resp, &["contents"]))[0];
    assert_eq!(content.str_of("uri"), Some("space://t"));
    assert_eq!(content.str_of("mimeType"), Some("application/json"));
    let v = json(content.str_of("text").unwrap());
    let keys: Vec<&str> = match &v {
        Json::Obj(m) => m.iter().map(|(k, _)| k.as_str()).collect(),
        _ => panic!("no object"),
    };
    assert_eq!(
        keys,
        vec![
            "contradiction_count",
            "entity_count",
            "episode_count",
            "recent_entities",
            "space",
            "space_id",
        ]
    );
    assert_eq!(v.get("entity_count").unwrap().as_u64(), Some(25));
    let recent = items(v.get("recent_entities").unwrap());
    assert_eq!(recent.len(), 20);
    assert_eq!(recent[3].render(), r#"{"id":"e3","surface":"Alice","type":"person"}"#);
}

#[test]
fn why_tool_returns_dto_contract() {
    let statement = oxibrain::tables::Statement {
        id: "s1".into(),
        space: "sp".into(),
        subject: "e1".into(),
        predicate: "employed_by".into(),
        object: oxibrain::tables::Object::Entity("e2".into()),
    };
    let v = requests::why_payload(
        &statement,
        "active",
        "Acme Corp",
        Json::Null,
        json("[]"),
        json("{}"),
    );
    assert_eq!(
        v.render(),
        r#"{"assertions":[],"confidence_breakdown":{},"statement":{"id":"s1","object":{"id":"e2","kind":"entity","surface":"Acme Corp"},"predicate":"employed_by","space":"sp","subject":"e1"},"status":"active"}"#
    );
}

#[test]
fn sampling_maps_request_and_response() {
    let req = LlmRequest {
        model: "test".into(),
        system: Some("You are an extractor.".into()),
        prompt: "Alice works at Acme.".into(),
        json_schema: None,
        max_tokens: 100,
    };
    let mut pending = PendingRequests::new();
    let sent = pending.begin("sampling/createMessage", sampling::sampling_params(&req));
    assert_eq!(
        sent.render(),
        r#"{"id":1,"jsonrpc":"2.0","method":"sampling/createMessage","params":{"maxTokens":100,"messages":[{"content":{"text":"You are an extractor.\n\nAlice works at Acme.","type":"text"},"role":"user"}]}}"#
    );
    let response = json(
        r#"{"jsonrpc":"2.0","id":1,"result":{"role":"assistant","content":{"type":"text","text":"{\"claims\":[]}"},"model":"test-model"}}"#,
    );
    assert!(pending.finish(1));
    assert!(!pending.finish(1));
    let resp = sampling::sampling_response(response).unwrap();
    assert_eq!(resp.text, "{\"claims\":[]}");
    assert_eq!(at(&resp.raw, &["result", "model"]).as_str(), Some("test-model"));
}

#[test]
fn sampling_client_error_is_retryable() {
    let response = json(
        r#"{"jsonrpc":"2.0","id":1,"error":{"code":-32603,"message":"policy denied"}}"#,
    );
    let err = sampling::sampling_response(response).unwrap_err();
    assert!(err.retryable());
    assert!(err.to_text().contains("sampling refused: policy denied"));
}

#[test]
fn sampling_responses_without_text_are_errors() {
    for (text, message) in [
        (r#"{"id":1}"#, "sampling response missing 'result'"),
        (r#"{"result":{"content":5}}"#, "sampling response missing text content"),
        (r#"{"result":{}}"#, "sampling response missing text content"),
    ] {
        match sampling::sampling_response(json(text)).unwrap_err() {
            BrainError::Provider { retryable, message: m } => {
                assert!(!retryable);
                assert_eq!(m, message);
            }
            other => panic!("{:?}", other),
        }
    }
    let plain = sampling::sampling_response(json(r#"{"result":{"content":"plain"}}"#)).unwrap();
    assert_eq!(plain.text, "plain");
    for f in [
        SamplingFailure::Disconnected,
        SamplingFailure::Dropped,
        SamplingFailure::TimedOut,
    ] {
        assert!(sampling::sampling_failure(f).retryable());
    }
}

#[test]
fn lines_of_a_session_are_told_apart() {
    assert!(matches!(session::classify_line("  \t\n"), LineEvent::Blank));
    assert!(matches!(
        session::classify_line(r#"{"jsonrpc":"2.0","id":4,"result":{}}"#),
        LineEvent::Response { id: 4, .. }
    ));
    assert!(matches!(
        session::classify_line(r#"{"jsonrpc":"2.0","id":"x","result":{}}"#),
        LineEvent::Response { id: -1, .. }
    ));
    match session::classify_line(r#"{"jsonrpc":"2.0","id":1,"method":"ping"}"#) {
        LineEvent::Request(m) => assert_eq!(m.method, "ping"),
        other => panic!("{:?}", other),
    }
    match session::classify_line("not json") {
        LineEvent::Bad(v) => {
            assert_eq!(at(&v, &["error", "code"]).as_i64(), Some(PARSE_ERROR));
            assert_eq!(at(&v, &["id"]).render(), "null");
        }
        other => panic!("{:?}", other),
    }
}

#[test]
fn connections_are_authenticated() {
    let line = r#"{"jsonrpc":"2.0","id":1,"method":"auth","params":{"token":"obt_x"}}"#;
    let a = session::auth_attempt(line);
    assert_eq!(a.token.as_deref(), Some("obt_x"));
    let (v, on) = session::answer_auth(a.id, &AuthVerdict::Granted);
    assert!(on);
    assert_eq!(v.render(), r#"{"id":1,"jsonrpc":"2.0","result":{"authenticated":true}}"#);

    let a = session::auth_attempt(r#"{"jsonrpc":"2.0","id":2,"method":"ping"}"#);
    assert!(a.token.is_none());
    let (v, on) = session::answer_auth(a.id, &AuthVerdict::NoToken);
    assert!(!on);
    assert_eq!(at(&v, &["error", "code"]).as_i64(), Some(UNAUTHORIZED));
    assert_eq!(at(&v, &["id"]).as_i64(), Some(2));

    let (v, on) = session::answer_auth(Json::Null, &AuthVerdict::Refused);
    assert!(!on);
    assert_eq!(at(&v, &["error", "code"]).as_i64(), Some(UNAUTHORIZED));
    let (v, on) = session::answer_auth(Json::Null, &AuthVerdict::Failed("io".into()));
    assert!(!on);
    assert_eq!(at(&v, &["error", "code"]).as_i64(), Some(UNAUTHORIZED));
    assert_eq!(at(&v, &["error", "message"]).as_str(), Some("verify: io"));
    assert!(session::auth_attempt("garbage").token.is_none());
}

#[test]
fn http_requests_are_read() {
    assert_eq!(
        http::read_request_line("GET /a/b?x=1 HTTP/1.1\r\n"),
        ("GET".to_string(), "/a/b?x=1".to_string())
    );
    assert_eq!(http::read_request_line("\r\n"), ("".to_string(), "/".to_string()));
    assert_eq!(http::content_length("Content-Length: 42\r\n"), Some(42));
    assert_eq!(http::content_length("content-length:7"), Some(7));
    assert_eq!(http::content_length("Content-Length: x"), Some(0));
    assert_eq!(http::content_length("CONTENT-LENGTH: 5"), None);
    assert_eq!(http::route("POST"), http::Route::Message);
    assert_eq!(http::route("GET"), http::Route::File);
    assert_eq!(http::route("PUT"), http::Route::NotAllowed);
    assert_eq!(
        http::response_header(200, "OK", "text/css", 12),
        "HTTP/1.1 200 OK\r\nContent-Type: text/css\r\nContent-Length: 12\r\nConnection: close\r\n\r\n"
    );
    assert_eq!(http::empty_response().render(), r#"{"jsonrpc":"2.0","result":{}}"#);
}

#[test]
fn console_files_stay_in_their_directory() {
    assert!(http::file_for("/").is_empty());
    assert!(http::file_for("/?q=1").is_empty());
    assert!(http::file_for("//").is_empty());
    assert_eq!(http::file_for("/a/b.js?v=2"), vec!["a", "b.js"]);
    assert_eq!(http::file_for("/../../etc/passwd"), vec!["etc", "passwd"]);
    assert_eq!(http::file_for("/a//..b/c"), vec!["a", "c"]);
}

#[test]
fn content_types_follow_extensions() {
    for (path, ty) in [
        ("index.html", "text/html; charset=utf-8"),
        ("a/b.JS", "application/javascript"),
        ("x.mjs", "application/javascript"),
        ("x.css", "text/css"),
        ("x.json", "application/json"),
        ("x.svg", "image/svg+xml"),
        ("x.PnG", "image/png"),
        ("x.jpeg", "image/jpeg"),
        ("x.gif", "image/gif"),
        ("x.ico", "image/x-icon"),
        ("x.woff2", "font/woff"),
        ("x.ttf", "font/ttf"),
        ("x.wasm", "application/wasm"),
        ("x.tar.gz", "application/octet-stream"),
        (".html", "application/octet-stream"),
        ("html", "application/octet-stream"),
        ("a.css/", "text/css"),
        ("a.css/..", "application/octet-stream"),
    ] {
        assert_eq!(http::content_type(path), ty, "{path}");
        let real = std::path::Path::new(path).extension().and_then(|e| e.to_str());
        if ty == "application/octet-stream" {
            assert!(matches!(real, None | Some("gz")));
        } else {
            assert!(real.is_some());
        }
    }
}

#[test]
fn pid_files_name_their_process() {
    let f = PidFile::new("/run/x/.oxibrain.pid", 4242);
    assert_eq!(f.path(), "/run/x/.oxibrain.pid");
    assert_eq!(f.content(), "4242");
    assert!(f.names_us(&f.content()));
    assert!(f.names_us(" 4242\n"));
    assert!(f.names_us("+4242"));
    for other in ["4243", "", "-4242", "4242x", "99999999999"] {
        assert!(!f.names_us(other), "{other}");
    }
}

#[test]
fn numbers_are_read_as_std_reads_them() {
    for s in [
        "0", "7", "007", "+5", "-5", "+", "-", "", "12a", "255", "256", "-0", "++1",
        "9223372036854775807", "9223372036854775808", "-9223372036854775808",
        "-9223372036854775809", "18446744073709551615", "18446744073709551616", " 1",
    ] {
        assert_eq!(parse::parse_integer(s), s.parse::<i64>().ok(), "{s}");
        assert_eq!(parse::parse_natural(s, u64::MAX), s.parse::<u64>().ok(), "{s}");
        assert_eq!(
            parse::parse_natural(s, 255).map(|n| n as u8),
            s.parse::<u8>().ok(),
            "{s}"
        );
        assert_eq!(parse::trim(s), s.trim());
    }
    assert_eq!(parse::trim("\u{3000} a b\t\n"), "a b");
    for (s, sep) in [("a=b=c", "="), ("abc", "="), ("://x", "://"), ("", "=")] {
        let own = parse::split_once(s, sep);
        let std = s.split_once(sep).map(|(a, b)| (a.to_string(), b.to_string()));
        assert_eq!(own, std);
    }
    assert_eq!(parse::split_at("a//b/", '/'), vec!["a", "", "b", ""]);
}

#[test]
fn tools_are_known_by_their_names() {
    assert!(requests::known_tool("search").is_ok());
    let e = requests::known_tool("frobnicate").unwrap_err();
    assert_eq!((e.code, e.message.as_str()), (METHOD_NOT_FOUND, "unknown tool: frobnicate"));
}

fn some_ref(surface: &str) -> Result<EntityRef, String> {
    Ok(EntityRef { surface: surface.into(), ty: "person".into() })
}

fn some_object() -> Result<DeclObject, String> {
    Ok(DeclObject::Literal { literal_type: "text".into(), value: "x".into() })
}

fn params_error<T: std::fmt::Debug>(r: Result<T, ToolErr>) -> String {
    match r.unwrap_err() {
        ToolErr::Params(m) => m,
        other => panic!("{:?}", other),
    }
}

#[test]
fn retractions_by_parts_check_their_arguments_in_order() {
    let bad = || Err("no".to_string());
    let e = params_error(requests::retraction(bad(), None, Err("no".into()), "".into()));
    assert_eq!(e, "parse subject: no");
    let e = params_error(requests::retraction(some_ref("A"), None, Err("no".into()), "".into()));
    assert_eq!(e, "missing required argument 'predicate'");
    let e = params_error(requests::retraction(
        some_ref("A"),
        Some("p".into()),
        Err("no".into()),
        "".into(),
    ));
    assert_eq!(e, "parse object: no");
    match requests::retraction(some_ref("A"), Some("p".into()), some_object(), "e1".into()) {
        Ok(Declaration::Retract { subject, predicate, episode, .. }) => {
            assert_eq!((subject.surface.as_str(), predicate.as_str()), ("A", "p"));
            assert_eq!(episode, "e1");
        }
        _ => panic!("no retraction"),
    }
}

#[test]
fn merges_check_their_arguments_in_order() {
    let bad = || Err("no".to_string());
    assert_eq!(params_error(requests::merging(bad(), bad())), "parse loser: no");
    assert_eq!(params_error(requests::merging(some_ref("A"), bad())), "parse winner: no");
    match requests::merging(some_ref("A"), some_ref("B")) {
        Ok(Declaration::Merge { loser, winner }) => {
            assert_eq!((loser.surface.as_str(), winner.surface.as_str()), ("A", "B"));
        }
        _ => panic!("no merge"),
    }
}

#[test]
fn written_episodes_are_named() {
    for (done, text) in [
        (Written::Ingested, "Ingested as episode: e1"),
        (Written::Declared, "Declared as episode: e1"),
        (Written::Retracted, "Retracted as episode: e1"),
        (Written::Merged, "Merged as episode: e1"),
    ] {
        assert_eq!(requests::written_text(done, "e1"), text);
    }
}

#[test]
fn resources_are_answered_by_their_kind() {
    let db = Tables::new();
    let read = |uri: &str, found: Option<&str>| {
        let request = resources::read_uri(uri).unwrap();
        let what = resources::looked_up(&request.kind);
        let found = found.map(str::to_string);
        (what, resources::answer_resource(&db, &request, "id", &found))
    };
    let text = |r: Result<Json, oxibrain::requests::RpcError>| {
        let r = r.unwrap();
        items(at(&r, &["contents"]))[0].str_of("text").unwrap().to_string()
    };
    let (what, r) = read("episode://x", None);
    assert_eq!(what, Some("get_episode"));
    let e = r.unwrap_err();
    assert_eq!((e.code, e.message.as_str()), (INVALID_PARAMS, "episode not found: x"));
    assert_eq!(text(read("episode://x", Some("{}")).1), "{}");
    let (what, r) = read("ftp://x", Some("ignored"));
    assert_eq!(what, None);
    let e = r.unwrap_err();
    assert_eq!((e.code, e.message.as_str()), (METHOD_NOT_FOUND, "unknown resource scheme: ftp"));
    let (what, r) = read("entity://x", None);
    assert_eq!((what, text(r).as_str()), (Some("beliefs"), ""));
    assert_eq!(read("graph://x", None).0, Some("traverse"));
    assert_eq!(read("timeline://x", None).0, Some("timeline"));
    let (what, r) = read("space://work", None);
    assert_eq!(what, None);
    assert_eq!(json(&text(r)).str_of("space"), Some("work"));
}

#[test]
fn console_requests_end_at_the_index_page() {
    let pieces = |p: &str| http::file_for(p);
    let shown = |r: http::Response| {
        let body = match r.body {
            http::Body::Bytes(b) => String::from_utf8(b).unwrap(),
            http::Body::Text(t) => t.to_string(),
        };
        (r.status, r.reason, r.content_type, body)
    };
    let data = || Some(b"data".to_vec());
    let html = "text/html; charset=utf-8";
    let r = http::file_response(false, &pieces("/"), data(), data());
    let none = r#"{"error":"no UI directory configured"}"#;
    assert_eq!(shown(r), (404, "Not Found", "application/json", none.to_string()));
    let r = http::file_response(true, &pieces("/a/b.css"), data(), None);
    assert_eq!(shown(r), (200, "OK", "text/css", "data".to_string()));
    let r = http::file_response(true, &pieces("/"), data(), None);
    assert_eq!(shown(r), (200, "OK", html, "data".to_string()));
    let r = http::file_response(true, &pieces("/route"), None, data());
    assert_eq!(shown(r), (200, "OK", html, "data".to_string()));
    let r = http::file_response(true, &pieces("/route"), None, None);
    assert_eq!(shown(r), (404, "Not Found", "application/json", "not found".to_string()));
    let r = http::not_allowed();
    assert_eq!(shown(r), (405, "Method Not Allowed", "application/json", "{}".to_string()));
}
