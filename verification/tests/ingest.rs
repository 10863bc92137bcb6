use skills_hub::analytics_ingest::{
    handle_events, ingest, ingest_rows, ingest_rows_at, route, route_request, IngestCaller, IngestCost,
    IngestEvent, IngestRequest, Reply, Route, INGEST_ADDR,
};
use skills_hub::analytics_store::AnalyticsStore;
use skills_hub::event::SkillEventRow;
use skills_hub::stats::{AnalyticsError, StorageError};

fn wire_event(skill_id: &str, timestamp: &str, success: bool) -> IngestEvent {
    IngestEvent {
        event_type: "skill_invoke".to_string(),
        skill_id: skill_id.to_string(),
        timestamp: timestamp.to_string(),
        user_id: "user-1".to_string(),
        session_id: "session-1".to_string(),
        input_hash: Some("abc".to_string()),
        success,
        duration_ms: Some(120),
        error: None,
        feedback_score: Some(1),
        cost: Some(IngestCost {
            token_input: Some(10),
            token_output: Some(20),
            api_cost_micro_usd: Some(1500),
        }),
        caller: Some(IngestCaller {
            agent_id: Some("agent".to_string()),
            workflow_id: None,
            tool_key: Some("tool".to_string()),
        }),
        metadata: Some("{\"k\":1}".to_string()),
    }
}

fn now_secs() -> i64 {
    std::time::SystemTime::now()
        .duration_since(std::time::UNIX_EPOCH)
        .unwrap()
        .as_secs() as i64
}

fn is_route(r: &Route, expected: &str) -> bool {
    format!("{:?}", r) == expected
}

#[test]
fn test_ingest_server_starts() {
    assert_eq!(INGEST_ADDR, "127.0.0.1:19823");
    let mut store = AnalyticsStore::new();
    assert_eq!(store.ensure_schema(), Ok(()));
    assert!(is_route(&route("POST", "/v1/events"), "Events"));
    assert!(is_route(&route("GET", "/v1/analytics/alerts"), "Alerts"));
    assert_eq!(store.event_count(), 0);
}

#[test]
fn test_ingest_server_receives_events() {
    let mut store = AnalyticsStore::new();
    let request = IngestRequest {
        events: vec![
            wire_event("skill-a", "2024-01-01T00:00:00Z", true),
            wire_event("skill-b", "2024-01-01T01:00:00+01:00", false),
        ],
    };
    let reply = handle_events(&mut store, Ok(request));
    assert_eq!(reply.status, 200);
    assert!(reply.json);
    assert_eq!(reply.body, "{\"accepted\": 2}");
    assert_eq!(store.event_count(), 2);
    assert_eq!(store.events()[0].timestamp, 1_704_067_200);
    assert_eq!(store.events()[1].timestamp, 1_704_067_200);
}

#[test]
fn test_database_persistence() {
    let mut store = AnalyticsStore::new();
    let report = ingest(&mut store, &vec![wire_event("skill-a", "2024-03-05T10:20:30Z", true)]).unwrap();
    assert_eq!(report.accepted, 1);
    let row = store.events()[0].clone();
    assert_eq!(row.id.len(), 36);
    assert_eq!(row.event_type, "skill_invoke");
    assert_eq!(row.skill_id, "skill-a");
    assert_eq!(row.timestamp, 1_709_634_030);
    assert_eq!(row.user_id, "user-1");
    assert_eq!(row.session_id, "session-1");
    assert_eq!(row.input_hash, Some("abc".to_string()));
    assert!(row.success);
    assert_eq!(row.duration_ms, Some(120));
    assert_eq!(row.feedback_score, Some(1));
    assert_eq!(row.token_input, Some(10));
    assert_eq!(row.token_output, Some(20));
    assert_eq!(row.api_cost_micro_usd, Some(1500));
    assert_eq!(row.caller_agent, Some("agent".to_string()));
    assert_eq!(row.caller_workflow, None);
    assert_eq!(row.caller_tool, Some("tool".to_string()));
    assert_eq!(row.metadata_json, Some("{\"k\":1}".to_string()));
    // what was stored can be put into another store, and only once
    let mut copy = AnalyticsStore::new();
    let rows: Vec<SkillEventRow> = store.events().clone();
    assert_eq!(copy.insert_events(&rows), Ok(1));
    assert_eq!(copy.insert_events(&rows), Ok(1));
    assert_eq!(copy.event_count(), 1);
    assert_eq!(copy.events()[0].id, row.id);
}

#[test]
fn test_event_validation() {
    let mut store = AnalyticsStore::new();
    let reply = handle_events(&mut store, Err("expected value at line 1 column 1".to_string()));
    assert_eq!(reply.status, 400);
    assert!(reply.json);
    assert_eq!(reply.body, "{\"error\": \"Invalid JSON: expected value at line 1 column 1\"}");
    assert_eq!(store.event_count(), 0);
    // a time stamp that states no time becomes the time of taking in
    let before = now_secs();
    let row = wire_event("skill-a", "yesterday", true).to_row();
    assert!(row.timestamp >= before && row.timestamp <= now_secs());
    assert_eq!(IngestEvent::time_of(Some(5), 9), 5);
    assert_eq!(IngestEvent::time_of(None, 9), 9);
    // an event without cost and caller has neither
    let mut bare = wire_event("skill-a", "2024-01-01T00:00:00Z", true);
    bare.cost = None;
    bare.caller = None;
    let row = bare.row_with("id-1".to_string(), 77);
    assert_eq!(row.id, "id-1");
    assert_eq!(row.timestamp, 77);
    assert_eq!(row.token_input, None);
    assert_eq!(row.api_cost_micro_usd, None);
    assert_eq!(row.caller_agent, None);
    assert_eq!(row.caller_tool, None);
}

#[test]
fn test_concurrent_requests() {
    // requests of several senders, handled one after another as the
    // store's lock orders them
    let mut store = AnalyticsStore::new();
    let mut total = 0;
    for round in 0..5 {
        for sender in 0..3 {
            let events: Vec<IngestEvent> = (0..sender + 1)
                .map(|_| wire_event(&format!("skill-{}", sender), "2024-01-01T00:00:00Z", round % 2 == 0))
                .collect();
            total += events.len();
            let reply = handle_events(&mut store, Ok(IngestRequest { events }));
            assert_eq!(reply.body, format!("{{\"accepted\": {}}}", sender + 1));
        }
    }
    assert_eq!(store.event_count(), total);
    let mut ids: Vec<String> = store.events().iter().map(|e| e.id.clone()).collect();
    ids.sort();
    ids.dedup();
    assert_eq!(ids.len(), total);
}

#[test]
fn test_error_handling() {
    assert!(is_route(&route("GET", "/v1/unknown"), "NotFound"));
    assert!(is_route(&route("GET", "/v1/analytics/nothing"), "NotFound"));
    assert!(is_route(&route("DELETE", "/v1/events"), "NotFound"));
    assert!(is_route(&route("POST", "/v1/analytics/overview"), "NotFound"));
    let not_found = Reply::failure(AnalyticsError::NotFound);
    assert_eq!((not_found.status, not_found.json, not_found.body.as_str()), (404, false, "Not Found"));
    let unreadable = Reply::failure(AnalyticsError::Parse);
    assert_eq!((unreadable.status, unreadable.json, unreadable.body.as_str()), (400, false, "Bad Request"));
    assert_eq!(AnalyticsError::Schema { found: 3, supported: 1 }.status_code(), 500);
    assert_eq!(AnalyticsError::Storage(StorageError::Full).status_code(), 500);
    // a store that cannot hold the batch answers with a failure of its own
    let mut store = AnalyticsStore::with_capacity(1, 1);
    let request = IngestRequest {
        events: vec![
            wire_event("a", "2024-01-01T00:00:00Z", true),
            wire_event("b", "2024-01-01T00:00:00Z", true),
        ],
    };
    let reply = handle_events(&mut store, Ok(request));
    assert_eq!(reply.status, 500);
    assert_eq!(reply.body, "{\"error\": \"Internal error: the store is full\"}");
    assert_eq!(store.event_count(), 0);
}

#[test]
fn routes_take_their_numbers_from_the_query() {
    assert!(is_route(&route("GET", "/v1/analytics/overview"), "Overview { days: 7 }"));
    assert!(is_route(&route("GET", "/v1/analytics/overview?days=3"), "Overview { days: 3 }"));
    assert!(is_route(
        &route("GET", "/v1/analytics/top_skills?limit=2&days=14"),
        "TopSkills { days: 14, limit: 2 }"
    ));
    assert!(is_route(&route("GET", "/v1/analytics/top_skills"), "TopSkills { days: 7, limit: 10 }"));
    assert!(is_route(&route("GET", "/v1/analytics/daily_trend"), "DailyTrend { days: 30 }"));
    assert!(is_route(&route("GET", "/v1/analytics/cost_summary?days=-1"), "CostSummary { days: -1 }"));
    assert!(is_route(&route("GET", "/v1/analytics/caller_analysis?days=x"), "CallerAnalysis { days: 30 }"));
    assert!(is_route(&route("GET", "/v1/analytics/user_retention?x=1"), "UserRetention { days: 30 }"));
    assert!(is_route(
        &route("GET", "/v1/analytics/success_rate?skill_id=my%20skill&days=2"),
        "SuccessRate { days: 2, skill_id: Some(\"my skill\") }"
    ));
    assert!(is_route(
        &route("GET", "/v1/analytics/success_rate"),
        "SuccessRate { days: 30, skill_id: None }"
    ));
    // the first pair of a key counts, whatever it states
    assert!(is_route(&route("GET", "/v1/analytics/overview?days=x&days=5"), "Overview { days: 7 }"));
    let pairs = vec![("days".to_string(), "9".to_string()), ("days".to_string(), "1".to_string())];
    assert!(is_route(&route_request("GET", "/v1/analytics/overview", &pairs), "Overview { days: 9 }"));
    assert!(is_route(&route_request("get", "/v1/analytics/overview", &pairs), "NotFound"));
}

#[test]
fn a_batch_runs_the_checks_of_its_skills() {
    let now = now_secs();
    let mut store = AnalyticsStore::new();
    let rows: Vec<SkillEventRow> = (0..25)
        .map(|i| {
            let mut row = wire_event(if i < 22 { "bad" } else { "good" }, "", i >= 22)
                .row_with(format!("row-{}", i), now - 1);
            row.duration_ms = None;
            row
        })
        .collect();
    let report = ingest_rows(&mut store, &rows).unwrap();
    assert_eq!(report.accepted, 25);
    assert_eq!(
        report.alerts,
        vec!["Skill 'bad' failure rate is 100.0% (22/22) in the last hour".to_string()]
    );
    assert!(report.failed_checks.is_empty());
    let alerts = store.get_active_alerts().unwrap();
    assert_eq!(alerts.len(), 1);
    assert_eq!(alerts[0].skill_id, "bad");
    // the same batch again adds no row and no alert
    let again = ingest_rows(&mut store, &rows).unwrap();
    assert_eq!(again.accepted, 25);
    assert_eq!(store.event_count(), 25);
    assert_eq!(store.get_active_alerts().unwrap().len(), 1);
}

#[test]
fn an_event_taken_in_is_counted_once() {
    let mut store = AnalyticsStore::new();
    let now = now_secs();
    let request = IngestRequest { events: vec![wire_event("skill-a", "not a time", true)] };
    assert_eq!(handle_events(&mut store, Ok(request)).status, 200);
    // the trailing window ends before the present second
    let stamped = now_secs();
    while now_secs() <= stamped {
        std::hint::spin_loop();
    }
    let overview = store.get_overview(1).unwrap();
    assert_eq!(overview.total_calls, 1);
    assert_eq!(overview.active_users, 1);
    let top = store.get_top_skills(1, 10).unwrap();
    assert_eq!(top.len(), 1);
    assert_eq!(top[0].skill_id, "skill-a");
    assert_eq!(top[0].call_count, 1);
    // taking the stored row in once more changes nothing
    let rows: Vec<SkillEventRow> = store.events().clone();
    assert!(rows[0].timestamp >= now);
    store.insert_events(&rows).unwrap();
    assert_eq!(store.get_overview(1).unwrap().total_calls, 1);
    assert_eq!(store.get_top_skills(1, 10).unwrap()[0].call_count, 1);
}

fn failing_rows(skill: &str, count: usize, timestamp: i64) -> Vec<SkillEventRow> {
    (0..count)
        .map(|i| {
            let mut row = wire_event(skill, "", false).row_with(format!("{}-{}", skill, i), timestamp);
            row.duration_ms = None;
            row
        })
        .collect()
}

fn pair(a: &str, b: &str) -> (String, String) {
    (a.to_string(), b.to_string())
}

#[test]
fn a_batch_is_checked_skill_by_skill_under_the_ids_given() {
    let now = 1_700_000_000;
    let mut store = AnalyticsStore::new();
    let mut rows = failing_rows("first", 22, now - 10);
    rows.extend(failing_rows("quiet", 3, now - 10));
    rows.extend(failing_rows("second", 30, now - 10));
    rows.extend(failing_rows("third", 25, now - 10));
    // the id of the second skill's failure spike is that of the first
    let ids = vec![pair("f1", "l1"), pair("f2", "l2"), pair("f1", "l3"), pair("f4", "l4")];
    let report = ingest_rows_at(&mut store, &rows, now, &ids).unwrap();
    assert_eq!(report.accepted, 80);
    assert_eq!(
        report.alerts,
        vec![
            "Skill 'first' failure rate is 100.0% (22/22) in the last hour".to_string(),
            "Skill 'third' failure rate is 100.0% (25/25) in the last hour".to_string(),
        ]
    );
    assert_eq!(report.failed_checks, vec![("second".to_string(), StorageError::DuplicateKey)]);
    let alerts = store.alerts();
    assert_eq!(alerts.len(), 2);
    assert_eq!((alerts[0].id.as_str(), alerts[0].skill_id.as_str()), ("f1", "first"));
    assert_eq!((alerts[1].id.as_str(), alerts[1].skill_id.as_str()), ("f4", "third"));
    assert_eq!(alerts[0].detected_at, now);
    assert_eq!(alerts[1].alert_type, "failure_spike");
    // rows that are stamped at `now` are stored and lie after the hour
    let mut late = AnalyticsStore::new();
    let report = ingest_rows_at(&mut late, &failing_rows("first", 22, now), now, &ids).unwrap();
    assert_eq!(report.accepted, 22);
    assert!(report.alerts.is_empty());
    assert!(report.failed_checks.is_empty());
    assert_eq!(late.event_count(), 22);
    assert_eq!(late.alerts().len(), 0);
}

#[test]
fn a_batch_that_does_not_fit_changes_nothing() {
    let now = 1_700_000_000;
    let mut store = AnalyticsStore::with_capacity(21, 1);
    let rows = failing_rows("first", 22, now - 10);
    let ids = vec![pair("f1", "l1")];
    assert_eq!(ingest_rows_at(&mut store, &rows, now, &ids).err(), Some(StorageError::Full));
    assert_eq!(store.event_count(), 0);
    assert_eq!(store.alerts().len(), 0);
    assert_eq!(ingest_rows(&mut store, &rows).err(), Some(StorageError::Full));
    let request = IngestRequest {
        events: (0..22).map(|_| wire_event("first", "2024-01-01T00:00:00Z", false)).collect(),
    };
    let reply = handle_events(&mut store, Ok(request));
    assert_eq!(reply.status, 500);
    assert_eq!(reply.body, "{\"error\": \"Internal error: the store is full\"}");
    assert_eq!(store.event_count(), 0);
    assert_eq!(store.alerts().len(), 0);
    // a batch that fits is taken in, and again
    let ids = vec![pair("f1", "l1")];
    let few = failing_rows("first", 21, now - 10);
    assert_eq!(ingest_rows_at(&mut store, &few, now, &ids).unwrap().accepted, 21);
    assert_eq!(ingest_rows_at(&mut store, &few, now, &ids).unwrap().accepted, 21);
    assert_eq!(store.event_count(), 21);
    assert_eq!(store.alerts().len(), 1);
}
