//! Shaping of worker chunks into audit records: the allow-list, the
//! per-kind payloads, and the byte-capped truncation.

use naia_shell::audit::{query_events, AuditFilter, AuditLog, MAX_PAYLOAD_BYTES};
use naia_shell::shape::{
    audit_outbound_message, build_payload, classify_event, compose_payload, log_worker_line,
    maybe_log_event, AuditPayload, EventKind,
};

fn test_db() -> AuditLog {
    AuditLog::new()
}

fn parse(s: &str) -> serde_json::Value {
    serde_json::from_str(s).unwrap()
}

#[test]
fn maybe_log_event_handles_tool_use() {
    let mut db = test_db();
    let chunk = parse(
        r#"{"type":"tool_use","requestId":"req-1","toolName":"read_file","toolCallId":"call-1","tier":0,"args":{"path":"/tmp"}}"#,
    );
    maybe_log_event(&mut db, &chunk);

    let events = query_events(&db, &AuditFilter::default()).unwrap();
    assert_eq!(events.len(), 1);
    assert_eq!(events[0].event_type, "tool_use");
    assert_eq!(events[0].tool_name.as_deref(), Some("read_file"));
}

#[test]
fn maybe_log_event_handles_tool_result() {
    let mut db = test_db();
    let chunk = parse(
        r#"{"type":"tool_result","requestId":"req-1","toolName":"read_file","toolCallId":"call-1","success":true,"output":"data"}"#,
    );
    maybe_log_event(&mut db, &chunk);

    let events = query_events(&db, &AuditFilter::default()).unwrap();
    assert_eq!(events.len(), 1);
    assert_eq!(events[0].event_type, "tool_result");
    assert_eq!(events[0].success, Some(true));
}

#[test]
fn maybe_log_event_handles_approval_request() {
    let mut db = test_db();
    let chunk = parse(
        r#"{"type":"approval_request","requestId":"req-1","toolName":"execute_command","toolCallId":"call-2","tier":2,"args":{"command":"rm -rf /"},"description":"dangerous"}"#,
    );
    maybe_log_event(&mut db, &chunk);

    let events = query_events(&db, &AuditFilter::default()).unwrap();
    assert_eq!(events.len(), 1);
    assert_eq!(events[0].event_type, "approval_request");
    assert_eq!(events[0].tier, Some(2));
}

#[test]
fn maybe_log_event_handles_usage() {
    let mut db = test_db();
    let chunk = parse(
        r#"{"type":"usage","requestId":"req-1","inputTokens":100,"outputTokens":50,"cost":0.001,"model":"gemini"}"#,
    );
    maybe_log_event(&mut db, &chunk);

    let events = query_events(&db, &AuditFilter::default()).unwrap();
    assert_eq!(events.len(), 1);
    assert_eq!(events[0].event_type, "usage");
}

#[test]
fn maybe_log_event_handles_error() {
    let mut db = test_db();
    let chunk = parse(r#"{"type":"error","requestId":"req-1","message":"something broke"}"#);
    maybe_log_event(&mut db, &chunk);

    let events = query_events(&db, &AuditFilter::default()).unwrap();
    assert_eq!(events.len(), 1);
    assert_eq!(events[0].event_type, "error");
}

#[test]
fn maybe_log_event_ignores_text() {
    let mut db = test_db();
    let chunk = parse(r#"{"type":"text","requestId":"req-1","text":"hello"}"#);
    maybe_log_event(&mut db, &chunk);

    let events = query_events(&db, &AuditFilter::default()).unwrap();
    assert_eq!(events.len(), 0);
}

#[test]
fn maybe_log_event_ignores_audio_and_finish() {
    let mut db = test_db();
    let audio = parse(r#"{"type":"audio","requestId":"req-1"}"#);
    let finish = parse(r#"{"type":"finish","requestId":"req-1"}"#);
    maybe_log_event(&mut db, &audio);
    maybe_log_event(&mut db, &finish);

    let events = query_events(&db, &AuditFilter::default()).unwrap();
    assert_eq!(events.len(), 0);
}

#[test]
fn large_output_truncated_in_payload() {
    let mut db = test_db();
    let big_output = "x".repeat(8000);
    let chunk_json = format!(
        r#"{{"type":"tool_result","requestId":"req-1","toolName":"read_file","toolCallId":"call-1","success":true,"output":"{}"}}"#,
        big_output
    );
    let chunk = parse(&chunk_json);
    maybe_log_event(&mut db, &chunk);

    let events = query_events(&db, &AuditFilter::default()).unwrap();
    assert_eq!(events.len(), 1);
    let payload = events[0].payload.as_ref().unwrap();
    assert!(payload.len() <= MAX_PAYLOAD_BYTES + 100); // some JSON overhead
}

#[test]
fn large_output_with_multibyte_chars_truncated_safely() {
    let mut db = test_db();
    // Korean chars are 3 bytes each in UTF-8
    let big_output = "\u{ac00}".repeat(3000); // 9000 bytes
    let chunk_json = format!(
        r#"{{"type":"tool_result","requestId":"req-1","toolName":"read_file","toolCallId":"call-1","success":true,"output":"{}"}}"#,
        big_output
    );
    let chunk = parse(&chunk_json);
    maybe_log_event(&mut db, &chunk);

    let events = query_events(&db, &AuditFilter::default()).unwrap();
    assert_eq!(events.len(), 1);
    let payload = events[0].payload.as_ref().unwrap();
    // Payload should be valid UTF-8 and not panic
    assert!(payload.len() <= MAX_PAYLOAD_BYTES + 100);
}

#[test]
fn truncation_respects_cap_and_char_boundaries() {
    // deterministic pseudo-random strings mixing 1- and 3-byte characters
    let alphabet = ['a', 'Z', '9', '\u{ac00}', '\u{d55c}', '\u{20ac}', ' '];
    let mut seed: u64 = 0x2545_f491_4f6c_dd1d;
    for case in 0..20 {
        let mut s = String::new();
        let len = 3500 + case * 150;
        for _ in 0..len {
            seed = seed.wrapping_mul(6364136223846793005).wrapping_add(1442695040888963407);
            let pick = (seed >> 33) as usize % alphabet.len();
            s.push(alphabet[pick]);
        }
        let t = naia_shell::audit::truncate_payload(&s);
        assert!(t.len() <= MAX_PAYLOAD_BYTES + "...[truncated]".len());
        if s.len() <= MAX_PAYLOAD_BYTES {
            assert_eq!(t, s);
        } else {
            let stripped = t.strip_suffix("...[truncated]").unwrap();
            assert!(s.starts_with(stripped));
            assert!(stripped.len() <= MAX_PAYLOAD_BYTES);
        }
    }
}

#[test]
fn short_payload_not_truncated() {
    let s = "hello world";
    assert_eq!(naia_shell::audit::truncate_payload(s), s);
}

#[test]
fn classify_event_covers_allow_list() {
    assert_eq!(classify_event("tool_use"), EventKind::ToolUse);
    assert_eq!(classify_event("tool_result"), EventKind::ToolResult);
    assert_eq!(classify_event("approval_request"), EventKind::ApprovalRequest);
    assert_eq!(classify_event("usage"), EventKind::Usage);
    assert_eq!(classify_event("error"), EventKind::ErrorEvent);
    assert_eq!(classify_event("text"), EventKind::Passthrough);
    assert_eq!(classify_event("finish"), EventKind::Passthrough);
    assert_eq!(classify_event(""), EventKind::Passthrough);
}

#[test]
fn compose_tool_result_payload_exactly() {
    let p = AuditPayload::ToolResult {
        output: "file contents".to_string(),
        error: None,
    };
    assert_eq!(compose_payload(&p), r#"{"output":"file contents"}"#);

    let p = AuditPayload::ToolResult {
        output: "partial".to_string(),
        error: Some("went \"wrong\"\n".to_string()),
    };
    assert_eq!(
        compose_payload(&p),
        r#"{"error":"went \"wrong\"\n","output":"partial"}"#
    );
}

#[test]
fn compose_usage_payload_exactly() {
    let p = AuditPayload::Usage {
        input_tokens: 100,
        output_tokens: 50,
        cost_json: "0.001".to_string(),
        model: "gemini".to_string(),
    };
    assert_eq!(
        compose_payload(&p),
        r#"{"cost":0.001,"inputTokens":100,"model":"gemini","outputTokens":50}"#
    );
}

#[test]
fn compose_decision_payload_exactly() {
    let p = AuditPayload::Decision {
        decision: "approve".to_string(),
    };
    assert_eq!(compose_payload(&p), r#"{"decision":"approve"}"#);
}

#[test]
fn build_payload_absent_for_passthrough() {
    let line = r#"{"type":"text","requestId":"req-1","text":"hi"}"#;
    assert!(build_payload("text", line).is_none());
    assert!(build_payload("tool_use", line).is_some());
}

#[test]
fn build_payload_lifts_the_line_members() {
    let line = r#"{"type":"tool_use","args":{"path":"/tmp"}}"#;
    assert_eq!(build_payload("tool_use", line).as_deref(), Some(r#"{"args":{"path":"/tmp"}}"#));

    let line = r#"{"type":"tool_result","output":"data","error":"oops"}"#;
    assert_eq!(
        build_payload("tool_result", line).as_deref(),
        Some(r#"{"error":"oops","output":"data"}"#)
    );

    let line = r#"{"type":"usage","inputTokens":100,"outputTokens":50,"cost":0.001,"model":"gemini"}"#;
    assert_eq!(
        build_payload("usage", line).as_deref(),
        Some(r#"{"cost":0.001,"inputTokens":100,"model":"gemini","outputTokens":50}"#)
    );

    // documented defaults where members are absent
    assert_eq!(build_payload("tool_use", "{}").as_deref(), Some(r#"{"args":null}"#));
    assert_eq!(
        build_payload("usage", "{}").as_deref(),
        Some(r#"{"cost":0.0,"inputTokens":0,"model":"","outputTokens":0}"#)
    );
    assert_eq!(build_payload("error", "{}").as_deref(), Some(r#"{"message":""}"#));
}

#[test]
fn worker_line_audited_with_lifted_fields() {
    let mut db = test_db();
    let line = r#"{"type":"tool_use","requestId":"req-1","toolName":"read_file","toolCallId":"call-1","tier":0,"args":{"path":"/tmp"}}"#;
    let relayed = log_worker_line(&mut db, line);
    assert!(relayed);

    let events = query_events(&db, &AuditFilter::default()).unwrap();
    assert_eq!(events.len(), 1);
    assert_eq!(events[0].event_type, "tool_use");
    assert_eq!(events[0].request_id, "req-1");
    assert_eq!(events[0].tool_name.as_deref(), Some("read_file"));
    assert_eq!(events[0].tool_call_id.as_deref(), Some("call-1"));
    assert_eq!(events[0].tier, Some(0));
    assert!(events[0].success.is_none());
    assert_eq!(events[0].payload.as_deref(), Some(r#"{"args":{"path":"/tmp"}}"#));
}

#[test]
fn worker_line_unaudited_or_malformed_inserts_nothing() {
    let mut db = test_db();
    assert!(log_worker_line(&mut db, r#"{"type":"text","requestId":"req-1"}"#));
    assert!(log_worker_line(&mut db, r#"{"requestId":"req-1"}"#));
    assert!(!log_worker_line(&mut db, r#"{"type":"tool_use""#));
    assert!(!log_worker_line(&mut db, "not json"));

    let events = query_events(&db, &AuditFilter::default()).unwrap();
    assert_eq!(events.len(), 0);
}

#[test]
fn outbound_approval_response_audited_as_decision() {
    let mut db = test_db();
    let message = r#"{"type":"approval_response","requestId":"req-9","toolName":"execute_command","toolCallId":"call-3","decision":"approve"}"#;
    audit_outbound_message(&mut db, message);

    let events = query_events(&db, &AuditFilter::default()).unwrap();
    assert_eq!(events.len(), 1);
    assert_eq!(events[0].event_type, "approval_decision");
    assert_eq!(events[0].request_id, "req-9");
    assert_eq!(events[0].tool_name.as_deref(), Some("execute_command"));
    assert_eq!(events[0].payload.as_deref(), Some(r#"{"decision":"approve"}"#));
}

#[test]
fn outbound_other_messages_not_audited() {
    let mut db = test_db();
    audit_outbound_message(&mut db, r#"{"type":"user_message","requestId":"req-1"}"#);
    audit_outbound_message(&mut db, "not json at all");

    let events = query_events(&db, &AuditFilter::default()).unwrap();
    assert_eq!(events.len(), 0);
}

#[test]
fn outbound_missing_members_default_to_empty() {
    let mut db = test_db();
    audit_outbound_message(&mut db, r#"{"type":"approval_response"}"#);

    let events = query_events(&db, &AuditFilter::default()).unwrap();
    assert_eq!(events.len(), 1);
    assert_eq!(events[0].request_id, "");
    assert!(events[0].tool_name.is_none());
    assert!(events[0].tool_call_id.is_none());
    assert_eq!(events[0].payload.as_deref(), Some(r#"{"decision":""}"#));
}
