use oxibrain::backup::BackupManifest;
use oxibrain::clock::{ClockPort, FakeClock};
use oxibrain::error::BrainError;
use oxibrain::json::Json;
use oxibrain::llm::{FakeLlmPort, LlmCapabilities, LlmRequest, LlmResponse};
use oxibrain::time::{Timestamp, TIME_MAX, TIME_MIN};
use oxibrain::tokenizer::{tokenizer_err, CharTokenizer, TokenizerPort};

#[test]
fn sentinels_order_correctly() {
    assert!(Timestamp(TIME_MIN) < Timestamp(0));
    assert!(Timestamp(0) < Timestamp(TIME_MAX));
    assert!(Timestamp(TIME_MIN) < Timestamp(TIME_MAX));
}

#[test]
fn sentinels_are_not_i64_extrema() {
    assert_ne!(TIME_MIN, i64::MIN);
    assert_ne!(TIME_MAX, i64::MAX);
}

#[test]
fn times_are_shown() {
    assert_eq!(Timestamp(TIME_MIN).to_text(), "-infinity");
    assert_eq!(Timestamp(TIME_MAX).to_text(), "+infinity");
    assert_eq!(Timestamp(-1200).to_text(), "-1200");
    assert_eq!(Timestamp::from_millis(7).millis(), 7);
    assert!(Timestamp(TIME_MIN).is_min() && !Timestamp(TIME_MIN).is_max());
    assert!(Timestamp(TIME_MAX).is_max() && !Timestamp(0).is_min());
}

#[test]
fn fake_clock_advances() {
    let mut clock = FakeClock::new(Timestamp(100));
    assert_eq!(clock.now(), Timestamp(100));
    clock.advance(50);
    assert_eq!(clock.now(), Timestamp(150));
    clock.advance(-200);
    assert_eq!(clock.now(), Timestamp(-50));
}

#[test]
fn char_tokenizer_count() {
    let t = CharTokenizer;
    assert_eq!(t.count(""), 1);
    assert_eq!(t.count("hello world!"), 3);
    assert_eq!(t.count("ab"), 1);
}

#[test]
fn char_tokenizer_truncate() {
    let t = CharTokenizer;
    let text = "abcdefghij";
    let trunc = t.truncate_to(text, 1);
    assert_eq!(trunc, "abcd");
}

#[test]
fn char_tokenizer_id() {
    assert_eq!(CharTokenizer.id(), "char-fallback");
}

#[test]
fn truncation_fits_its_budget() {
    let t = CharTokenizer;
    let text = "äöü and some more text behind it";
    for budget in 1..10usize {
        let cut = t.truncate_to(text, budget);
        assert!(text.starts_with(cut.as_str()));
        assert!(t.count(&cut) <= budget);
    }
    assert_eq!(t.truncate_to(text, usize::MAX), text);
    assert_eq!(t.truncate_to(text, 0), "");
}

#[test]
fn tokenizer_errors_are_configuration_errors() {
    assert!(matches!(tokenizer_err("no model"), BrainError::Config(m) if m == "no model"));
}

#[test]
fn errors_are_shown_and_retried() {
    let cases = vec![
        (BrainError::Config("c".into()), "configuration error: c", false),
        (BrainError::Storage("s".into()), "storage error: s", true),
        (
            BrainError::Migration { found: 9, expected: 3 },
            "schema version mismatch: found 9, expected 3",
            false,
        ),
        (
            BrainError::Locked { holder: "h".into() },
            "store locked by another writer: h",
            true,
        ),
        (BrainError::NotFound("n".into()), "not found: n", false),
        (BrainError::Invalid("i".into()), "invalid input: i", false),
        (BrainError::Corruption("x".into()), "corruption: x", false),
        (
            BrainError::Provider { retryable: true, message: "p".into() },
            "provider error (retryable: true): p",
            true,
        ),
        (
            BrainError::Provider { retryable: false, message: "p".into() },
            "provider error (retryable: false): p",
            false,
        ),
        (BrainError::Extraction("e".into()), "extraction error: e", false),
        (BrainError::Budget("b".into()), "budget exceeded: b", false),
        (
            BrainError::Scope { required: "r".into() },
            "insufficient scope: requires r",
            false,
        ),
        (BrainError::Unauthorized("u".into()), "unauthorized: u", false),
        (BrainError::Conflict("k".into()), "conflict: k", false),
        (BrainError::Busy("y".into()), "busy: y", true),
    ];
    for (e, shown, retryable) in cases {
        assert_eq!(e.to_text(), shown);
        assert_eq!(e.retryable(), retryable);
    }
}

#[test]
fn additive_fields_default_to_false() {
    let caps = LlmCapabilities::default();
    assert!(!caps.tool_call);
    assert!(!caps.json_schema);
    assert!(!caps.grammar);
    assert!(!caps.structured_output);
}

#[test]
fn additive_fields_round_trip_through_serde() {
    let caps = LlmCapabilities {
        grammar: true,
        structured_output: false,
        tool_call: true,
        json_schema: false,
    };
    let json = caps.to_json().render();
    let back = LlmCapabilities::from_json(&Json::parse(&json).unwrap()).unwrap();
    assert_eq!(caps, back);
}

#[test]
fn additive_fields_default_when_omitted_in_json() {
    let json = r#"{"grammar":true,"structured_output":true}"#;
    let caps = LlmCapabilities::from_json(&Json::parse(json).unwrap()).unwrap();
    assert!(caps.grammar);
    assert!(caps.structured_output);
    assert!(!caps.tool_call);
    assert!(!caps.json_schema);
}

#[test]
fn capabilities_need_their_first_fields() {
    for text in [r#"{"grammar":true}"#, r#"{"grammar":1,"structured_output":true}"#, "[]"] {
        assert!(LlmCapabilities::from_json(&Json::parse(text).unwrap()).is_none());
    }
}

fn request(prompt: &str) -> LlmRequest {
    LlmRequest {
        model: "test".into(),
        system: None,
        prompt: prompt.into(),
        json_schema: None,
        max_tokens: 100,
    }
}

fn response(text: &str) -> LlmResponse {
    LlmResponse { text: text.into(), raw: Json::Null }
}

#[test]
fn returns_matching_response() {
    let mut fake = FakeLlmPort::new();
    fake.respond_to("Alice works on", response(r#"{"claims":[]}"#));
    let resp = fake.complete(&request("Alice works on ProjectX")).unwrap();
    assert_eq!(resp.text, r#"{"claims":[]}"#);
}

#[test]
fn errors_when_no_match() {
    let mut fake = FakeLlmPort::new();
    fake.respond_to("nonexistent", response("{}"));
    let err = fake.complete(&request("totally different content")).unwrap_err();
    assert_eq!(
        err.to_text(),
        "configuration error: FakeLlmPort: no canned response matching the prompt (1 keys registered)"
    );
}

#[test]
fn first_registered_response_wins() {
    let mut fake = FakeLlmPort::default();
    fake.respond_to("a", response("first"));
    fake.respond_to("ab", response("second"));
    assert_eq!(fake.complete(&request("xabx")).unwrap().text, "first");
}

#[test]
fn grammar_mode_counts_constrained_calls() {
    let mut fake = FakeLlmPort::new();
    assert!(!fake.capabilities().grammar);
    fake.enable_grammar();
    assert!(fake.capabilities().grammar);
    fake.respond_to("content", response(r#"{"claims":[]}"#));
    let resp = fake
        .generate_constrained(&request("some content here"), "root ::= ...")
        .unwrap();
    assert_eq!(resp.text, r#"{"claims":[]}"#);
    assert_eq!(fake.constrained_calls(), 1);
}

#[test]
fn constrained_without_enable_is_provider_error() {
    let mut fake = FakeLlmPort::new();
    let err = fake.generate_constrained(&request("x"), "root ::= ...").unwrap_err();
    assert!(matches!(err, BrainError::Provider { retryable: false, .. }));
    assert_eq!(fake.constrained_calls(), 0);
    assert!(matches!(
        oxibrain::llm::constrained_unsupported(),
        BrainError::Provider { retryable: false, .. }
    ));
}

#[test]
fn additive_capability_flags_default_to_false() {
    let fake = FakeLlmPort::new();
    let caps = fake.capabilities();
    assert!(!caps.tool_call);
    assert!(!caps.json_schema);
    assert!(!caps.structured_output);
    assert!(!caps.grammar);
}

#[test]
fn manifests_compare_by_value() {
    let m = BackupManifest {
        ledger_schema_version: 1,
        projection_version: 2,
        include_projection: true,
        include_cache: false,
        created_at: 3,
    };
    assert_eq!(m, m.clone());
    assert_ne!(m, BackupManifest { include_cache: true, ..m });
}
