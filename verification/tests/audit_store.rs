//! The audit store: insertion, filtered queries, pagination and
//! aggregation.

use naia_shell::audit::{insert_event, query_events, query_stats, AuditFilter, AuditLog};

fn test_db() -> AuditLog {
    AuditLog::new()
}

#[test]
fn insert_and_query_tool_use_event() {
    let mut db = test_db();
    insert_event(
        &mut db,
        "req-1",
        "tool_use",
        Some("read_file"),
        Some("call-1"),
        Some(0),
        None,
        Some(r#"{"args":{"path":"/tmp"}}"#),
    )
    .unwrap();

    let events = query_events(&db, &AuditFilter::default()).unwrap();
    assert_eq!(events.len(), 1);
    assert_eq!(events[0].event_type, "tool_use");
    assert_eq!(events[0].tool_name.as_deref(), Some("read_file"));
    assert_eq!(events[0].tool_call_id.as_deref(), Some("call-1"));
    assert_eq!(events[0].tier, Some(0));
    assert!(events[0].success.is_none());
}

#[test]
fn insert_and_query_tool_result_event() {
    let mut db = test_db();
    insert_event(
        &mut db,
        "req-1",
        "tool_result",
        Some("read_file"),
        Some("call-1"),
        None,
        Some(true),
        Some(r#"{"output":"file contents"}"#),
    )
    .unwrap();

    let events = query_events(&db, &AuditFilter::default()).unwrap();
    assert_eq!(events.len(), 1);
    assert_eq!(events[0].event_type, "tool_result");
    assert_eq!(events[0].success, Some(true));
}

#[test]
fn insert_and_query_usage_event() {
    let mut db = test_db();
    insert_event(
        &mut db,
        "req-1",
        "usage",
        None,
        None,
        None,
        None,
        Some(r#"{"inputTokens":100,"outputTokens":50,"cost":0.001,"model":"gemini"}"#),
    )
    .unwrap();

    let events = query_events(&db, &AuditFilter::default()).unwrap();
    assert_eq!(events.len(), 1);
    assert_eq!(events[0].event_type, "usage");
    assert!(events[0].payload.as_ref().unwrap().contains("0.001"));
}

#[test]
fn insert_and_query_error_event() {
    let mut db = test_db();
    insert_event(
        &mut db,
        "req-1",
        "error",
        None,
        None,
        None,
        None,
        Some(r#"{"message":"something failed"}"#),
    )
    .unwrap();

    let events = query_events(&db, &AuditFilter::default()).unwrap();
    assert_eq!(events.len(), 1);
    assert_eq!(events[0].event_type, "error");
}

#[test]
fn filter_by_request_id() {
    let mut db = test_db();
    insert_event(&mut db, "req-1", "tool_use", Some("a"), None, None, None, None).unwrap();
    insert_event(&mut db, "req-2", "tool_use", Some("b"), None, None, None, None).unwrap();

    let filter = AuditFilter {
        request_id: Some("req-1".into()),
        ..Default::default()
    };
    let events = query_events(&db, &filter).unwrap();
    assert_eq!(events.len(), 1);
    assert_eq!(events[0].request_id, "req-1");
}

#[test]
fn filter_by_event_type() {
    let mut db = test_db();
    insert_event(&mut db, "req-1", "tool_use", Some("a"), None, None, None, None).unwrap();
    insert_event(&mut db, "req-1", "usage", None, None, None, None, None).unwrap();

    let filter = AuditFilter {
        event_type: Some("usage".into()),
        ..Default::default()
    };
    let events = query_events(&db, &filter).unwrap();
    assert_eq!(events.len(), 1);
    assert_eq!(events[0].event_type, "usage");
}

#[test]
fn filter_by_tool_name() {
    let mut db = test_db();
    insert_event(&mut db, "req-1", "tool_use", Some("read_file"), None, None, None, None).unwrap();
    insert_event(&mut db, "req-1", "tool_use", Some("write_file"), None, None, None, None).unwrap();

    let filter = AuditFilter {
        tool_name: Some("write_file".into()),
        ..Default::default()
    };
    let events = query_events(&db, &filter).unwrap();
    assert_eq!(events.len(), 1);
    assert_eq!(events[0].tool_name.as_deref(), Some("write_file"));
}

#[test]
fn filter_by_time_range() {
    let mut db = test_db();
    // Insert events - timestamps are auto-generated
    insert_event(&mut db, "req-1", "tool_use", Some("a"), None, None, None, None).unwrap();

    // Use a wide time range that includes everything
    let filter = AuditFilter {
        from: Some("2020-01-01T00:00:00".into()),
        to: Some("2099-12-31T23:59:59".into()),
        ..Default::default()
    };
    let events = query_events(&db, &filter).unwrap();
    assert_eq!(events.len(), 1);

    // Use a time range in the past that excludes everything
    let filter_past = AuditFilter {
        from: Some("2020-01-01T00:00:00".into()),
        to: Some("2020-01-02T00:00:00".into()),
        ..Default::default()
    };
    let events = query_events(&db, &filter_past).unwrap();
    assert_eq!(events.len(), 0);
}

#[test]
fn filter_with_limit_and_offset() {
    let mut db = test_db();
    for i in 0..10 {
        insert_event(
            &mut db,
            &format!("req-{}", i),
            "tool_use",
            Some("t"),
            None,
            None,
            None,
            None,
        )
        .unwrap();
    }

    let filter = AuditFilter {
        limit: Some(3),
        offset: Some(2),
        ..Default::default()
    };
    let events = query_events(&db, &filter).unwrap();
    assert_eq!(events.len(), 3);
}

#[test]
fn query_default_limit_100() {
    let mut db = test_db();
    for i in 0..150 {
        insert_event(
            &mut db,
            &format!("req-{}", i),
            "tool_use",
            Some("t"),
            None,
            None,
            None,
            None,
        )
        .unwrap();
    }

    let events = query_events(&db, &AuditFilter::default()).unwrap();
    assert_eq!(events.len(), 100);
}

#[test]
fn query_max_limit_1000() {
    let mut db = test_db();
    // Even if user requests 5000, cap at 1000
    let filter = AuditFilter {
        limit: Some(5000),
        ..Default::default()
    };
    // With no data, result is 0, but the internal limit should be capped.
    // We test the cap by inserting 1010 rows and requesting 5000.
    for i in 0..1010 {
        insert_event(
            &mut db,
            &format!("req-{}", i),
            "tool_use",
            Some("t"),
            None,
            None,
            None,
            None,
        )
        .unwrap();
    }
    let events = query_events(&db, &filter).unwrap();
    assert_eq!(events.len(), 1000);
}

#[test]
fn query_stats_aggregates_correctly() {
    let mut db = test_db();
    insert_event(&mut db, "req-1", "tool_use", Some("read_file"), None, None, None, None).unwrap();
    insert_event(&mut db, "req-1", "tool_result", Some("read_file"), None, None, Some(true), None)
        .unwrap();
    insert_event(
        &mut db,
        "req-1",
        "usage",
        None,
        None,
        None,
        None,
        Some(r#"{"inputTokens":100,"outputTokens":50,"cost":0.005,"model":"gemini"}"#),
    )
    .unwrap();
    insert_event(
        &mut db,
        "req-2",
        "usage",
        None,
        None,
        None,
        None,
        Some(r#"{"inputTokens":200,"outputTokens":100,"cost":0.010,"model":"gemini"}"#),
    )
    .unwrap();
    insert_event(&mut db, "req-2", "error", None, None, None, None, Some(r#"{"message":"err"}"#))
        .unwrap();

    let stats = query_stats(&db).unwrap();
    assert_eq!(stats.total_events, 5);

    // by_event_type should have tool_use(1), tool_result(1), usage(2), error(1)
    let usage_count = stats
        .by_event_type
        .iter()
        .find(|(t, _)| t == "usage")
        .map(|(_, c)| *c)
        .unwrap_or(0);
    assert_eq!(usage_count, 2);

    // by_tool_name should have read_file(2)
    let rf_count = stats
        .by_tool_name
        .iter()
        .find(|(t, _)| t == "read_file")
        .map(|(_, c)| *c)
        .unwrap_or(0);
    assert_eq!(rf_count, 2);

    // total_cost = 0.005 + 0.010
    let total_cost = stats.total_cost_micros as f64 / 1_000_000.0;
    assert!((total_cost - 0.015).abs() < 0.0001);
}

#[test]
fn empty_db_returns_empty_results() {
    let db = test_db();
    let events = query_events(&db, &AuditFilter::default()).unwrap();
    assert_eq!(events.len(), 0);

    let stats = query_stats(&db).unwrap();
    assert_eq!(stats.total_events, 0);
    assert_eq!(stats.total_cost_micros, 0);
}

#[test]
fn query_returns_all_newest_first() {
    let mut db = test_db();
    for i in 0..7 {
        insert_event(&mut db, &format!("req-{}", i), "tool_use", None, None, None, None, None)
            .unwrap();
    }
    let filter = AuditFilter {
        limit: Some(10),
        ..Default::default()
    };
    let events = query_events(&db, &filter).unwrap();
    assert_eq!(events.len(), 7);
    for (k, e) in events.iter().enumerate() {
        assert_eq!(e.id, 7 - k as i64);
    }
    for w in events.windows(2) {
        assert!(w[0].id > w[1].id);
    }
}

#[test]
fn filter_by_request_id_with_interleaved_events() {
    let mut db = test_db();
    for i in 0..9 {
        let rid = if i % 3 == 0 { "req-1" } else { "req-other" };
        insert_event(&mut db, rid, "tool_use", Some("t"), None, None, None, None).unwrap();
    }
    let filter = AuditFilter {
        request_id: Some("req-1".into()),
        ..Default::default()
    };
    let events = query_events(&db, &filter).unwrap();
    assert_eq!(events.len(), 3);
    for e in &events {
        assert_eq!(e.request_id, "req-1");
    }
}

#[test]
fn stats_kind_counts_sum_to_total() {
    let mut db = test_db();
    let kinds = ["tool_use", "tool_result", "usage", "error", "tool_use", "usage", "usage"];
    for (i, k) in kinds.iter().enumerate() {
        insert_event(&mut db, &format!("req-{}", i), k, None, None, None, None, None).unwrap();
    }
    let stats = query_stats(&db).unwrap();
    assert_eq!(stats.total_events, kinds.len() as u64);
    let sum: u64 = stats.by_event_type.iter().map(|(_, c)| *c).sum();
    assert_eq!(sum, stats.total_events);
}

#[test]
fn offset_beyond_rows_returns_empty() {
    let mut db = test_db();
    insert_event(&mut db, "req-1", "tool_use", None, None, None, None, None).unwrap();
    let filter = AuditFilter {
        offset: Some(5),
        ..Default::default()
    };
    let events = query_events(&db, &filter).unwrap();
    assert_eq!(events.len(), 0);
}

#[test]
fn zero_limit_returns_no_rows() {
    let mut db = test_db();
    insert_event(&mut db, "req-1", "tool_use", None, None, None, None, None).unwrap();
    let filter = AuditFilter {
        limit: Some(0),
        ..Default::default()
    };
    let events = query_events(&db, &filter).unwrap();
    assert_eq!(events.len(), 0);
}

#[test]
fn stats_cost_reads_the_member_not_its_text() {
    // a string member that spells the cost key must not be mistaken
    // for the numeric member itself
    let mut db = test_db();
    insert_event(
        &mut db,
        "req-1",
        "usage",
        None,
        None,
        None,
        None,
        Some(r#"{"model":"\"cost\":9","cost":0.005}"#),
    )
    .unwrap();
    let stats = query_stats(&db).unwrap();
    assert_eq!(stats.total_cost_micros, 5_000);
}

#[test]
fn stats_cost_absent_or_malformed_counts_zero() {
    let mut db = test_db();
    insert_event(&mut db, "req-1", "usage", None, None, None, None, Some("not json")).unwrap();
    insert_event(&mut db, "req-2", "usage", None, None, None, None, None).unwrap();
    let stats = query_stats(&db).unwrap();
    assert_eq!(stats.total_cost_micros, 0);
}
