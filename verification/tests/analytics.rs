use skills_hub::analytics_store::AnalyticsStore;
use skills_hub::event::SkillEventRow;
use skills_hub::ratio::Ratio;
use skills_hub::stats::{AnalyticsError, StorageError};

fn now_secs() -> i64 {
    std::time::SystemTime::now()
        .duration_since(std::time::UNIX_EPOCH)
        .unwrap()
        .as_secs() as i64
}

/// Waits until the clock has left the second in which the events made
/// so far were stamped: the trailing window ends before the present
/// second.
fn let_the_second_pass() {
    let stamped = now_secs();
    while now_secs() <= stamped {
        std::hint::spin_loop();
    }
}

fn create_test_store() -> AnalyticsStore {
    AnalyticsStore::new()
}

fn make_event(skill_id: &str, success: bool, duration_ms: i64) -> SkillEventRow {
    SkillEventRow {
        id: uuid::Uuid::new_v4().to_string(),
        event_type: "skill_invoke".to_string(),
        skill_id: skill_id.to_string(),
        timestamp: now_secs(),
        user_id: "test_user".to_string(),
        session_id: "test_session".to_string(),
        input_hash: Some("abc123".to_string()),
        success,
        duration_ms: Some(duration_ms),
        error: if success { None } else { Some("test error".to_string()) },
        feedback_score: None,
        token_input: None,
        token_output: None,
        api_cost_micro_usd: None,
        caller_agent: None,
        caller_workflow: None,
        caller_tool: None,
        metadata_json: None,
    }
}

fn event_at(id: &str, skill_id: &str, user_id: &str, timestamp: i64, success: bool, duration_ms: Option<i64>) -> SkillEventRow {
    SkillEventRow {
        id: id.to_string(),
        event_type: "skill_invoke".to_string(),
        skill_id: skill_id.to_string(),
        timestamp,
        user_id: user_id.to_string(),
        session_id: "s".to_string(),
        input_hash: None,
        success,
        duration_ms,
        error: None,
        feedback_score: None,
        token_input: None,
        token_output: None,
        api_cost_micro_usd: None,
        caller_agent: None,
        caller_workflow: None,
        caller_tool: None,
        metadata_json: None,
    }
}

#[test]
fn test_schema_creation() {
    let mut store = create_test_store();
    store.ensure_schema().unwrap();
}

#[test]
fn test_insert_and_query_events() {
    let mut store = create_test_store();
    let events = vec![
        make_event("skill-a", true, 100),
        make_event("skill-a", true, 200),
        make_event("skill-b", false, 500),
    ];
    let count = store.insert_events(&events).unwrap();
    assert_eq!(count, 3);
    let_the_second_pass();

    let overview = store.get_overview(1).unwrap();
    assert_eq!(overview.total_calls, 3);
    assert_eq!(overview.active_users, 1);
}

#[test]
fn test_top_skills() {
    let mut store = create_test_store();
    let mut events = Vec::new();
    for _ in 0..5 {
        events.push(make_event("popular-skill", true, 100));
    }
    for _ in 0..2 {
        events.push(make_event("rare-skill", true, 200));
    }
    store.insert_events(&events).unwrap();
    let_the_second_pass();

    let top = store.get_top_skills(1, 10).unwrap();
    assert!(!top.is_empty());
    assert_eq!(top[0].skill_id, "popular-skill");
    assert_eq!(top[0].call_count, 5);
}

#[test]
fn test_active_alerts_empty() {
    let store = create_test_store();
    let alerts = store.get_active_alerts().unwrap();
    assert!(alerts.is_empty());
}

#[test]
fn test_duplicate_insert_ignored() {
    let mut store = create_test_store();
    let event = make_event("skill-a", true, 100);
    let events = vec![event.clone(), event];
    let count = store.insert_events(&events).unwrap();
    assert_eq!(count, 2);
}

#[test]
fn same_id_is_stored_once_however_often_it_is_sent() {
    let mut store = create_test_store();
    let event = event_at("e-1", "skill-a", "u", 1000, true, Some(5));
    for _ in 0..4 {
        let count = store.insert_events(&[event.clone(), event.clone()]).unwrap();
        assert_eq!(count, 2);
    }
    assert_eq!(store.event_count(), 1);
    let other = event_at("e-1", "skill-b", "v", 2000, false, None);
    store.insert_events(&[other]).unwrap();
    assert_eq!(store.event_count(), 1);
    assert_eq!(store.events()[0].skill_id, "skill-a");
}

#[test]
fn a_full_store_refuses_the_whole_batch() {
    let mut store = AnalyticsStore::with_capacity(2, 1);
    let batch = vec![
        event_at("a", "s", "u", 1, true, None),
        event_at("b", "s", "u", 2, true, None),
        event_at("c", "s", "u", 3, true, None),
    ];
    assert_eq!(store.insert_events(&batch), Err(StorageError::Full));
    assert_eq!(store.event_count(), 0);
    assert_eq!(store.insert_events(&batch[..2]), Ok(2));
    assert_eq!(store.event_count(), 2);
    // rows that are stored can be sent again, however full the store is
    assert_eq!(store.insert_events(&batch[..1]), Ok(1));
    assert_eq!(store.insert_events(&[batch[1].clone(), batch[0].clone(), batch[1].clone()]), Ok(3));
    assert_eq!(store.event_count(), 2);
    // a new row is refused, and with it the whole batch
    assert_eq!(store.insert_events(&batch[2..]), Err(StorageError::Full));
    assert_eq!(store.insert_events(&batch), Err(StorageError::Full));
    assert_eq!(store.event_count(), 2);
    assert_eq!(store.events()[1].id, "b");
    // a batch that repeats itself needs room for its new rows only
    let mut small = AnalyticsStore::with_capacity(1, 1);
    assert_eq!(small.insert_events(&[batch[0].clone(), batch[0].clone()]), Ok(2));
    assert_eq!(small.event_count(), 1);
}

#[test]
fn a_newer_schema_is_refused() {
    let mut store = AnalyticsStore::with_capacity(10, 2);
    assert_eq!(
        store.ensure_schema(),
        Err(AnalyticsError::Schema { found: 2, supported: 1 })
    );
    assert_eq!(store.schema_version(), 2);
    let mut fresh = AnalyticsStore::with_capacity(10, 0);
    assert_eq!(fresh.ensure_schema(), Ok(()));
    assert_eq!(fresh.schema_version(), 1);
    assert_eq!(fresh.ensure_schema(), Ok(()));
    assert_eq!(fresh.schema_version(), 1);
}

#[test]
fn overview_of_an_empty_window() {
    let store = create_test_store();
    let o = store.overview_at(1_000_000, 7);
    assert_eq!(o.total_calls, 0);
    assert_eq!(o.success_rate, Ratio { num: 1, den: 1 });
    assert_eq!(o.p95_latency_ms, None);
    assert_eq!(o.active_users, 0);
    assert_eq!(o.total_calls_delta_pct, None);
    assert_eq!(o.success_rate_delta, Some(Ratio { num: 0, den: 1 }));
    assert_eq!(o.p95_latency_delta_ms, None);
    assert_eq!(o.active_users_delta, Some(0));
}

#[test]
fn overview_compares_with_the_window_before() {
    let mut store = create_test_store();
    let now = 100 * 86400;
    let day = 86400;
    let mut events = Vec::new();
    // the window before: [now - 2 days, now - 1 day): 2 calls, 1 success, 2 users
    events.push(event_at("p1", "a", "u1", now - 2 * day, true, Some(50)));
    events.push(event_at("p2", "a", "u2", now - day - 1, false, Some(70)));
    // the trailing window: [now - 1 day, now): 4 calls, 3 successes, 1 user
    events.push(event_at("c1", "a", "u1", now - day, true, Some(10)));
    events.push(event_at("c2", "a", "u1", now - 10, true, Some(30)));
    events.push(event_at("c3", "b", "u1", now - 1, false, Some(20)));
    events.push(event_at("c4", "b", "u1", now - 5, true, None));
    // too late for both
    events.push(event_at("l1", "b", "u7", now, false, Some(999)));
    events.push(event_at("l2", "b", "u8", now + 5, true, Some(999)));
    // too old for both
    events.push(event_at("o1", "a", "u9", now - 2 * day - 1, true, Some(1)));
    store.insert_events(&events).unwrap();
    let o = store.overview_at(now, 1);
    assert_eq!(o.total_calls, 4);
    assert_eq!(o.success_rate, Ratio { num: 3, den: 4 });
    // three durations 10, 20, 30: offset floor(3 * 0.95) = 2
    assert_eq!(o.p95_latency_ms, Some(30));
    assert_eq!(o.active_users, 1);
    assert_eq!(o.total_calls_delta_pct, Some(Ratio { num: 200, den: 2 }));
    // 3/4 - 1/2 = (3*2 - 1*4) / 8
    assert_eq!(o.success_rate_delta, Some(Ratio { num: 2, den: 8 }));
    // two durations 50, 70: offset floor(2 * 0.95) = 1
    assert_eq!(o.p95_latency_delta_ms, Some(30 - 70));
    assert_eq!(o.active_users_delta, Some(-1));
}

#[test]
fn success_rate_is_successes_over_calls() {
    let mut store = create_test_store();
    let mut events = Vec::new();
    for i in 0..7 {
        events.push(event_at(&format!("e{}", i), "a", "u", 500, i % 3 != 0, None));
    }
    store.insert_events(&events).unwrap();
    let o = store.overview_at(600, 1);
    assert_eq!(o.total_calls, 7);
    assert_eq!(o.success_rate, Ratio { num: 4, den: 7 });
}

#[test]
fn top_skills_are_ranked_and_limited() {
    let mut store = create_test_store();
    let mut events = Vec::new();
    let mut n = 0;
    for (skill, calls) in [("b", 2), ("a", 5), ("c", 2), ("d", 1)] {
        for k in 0..calls {
            n += 1;
            events.push(event_at(&format!("e{}", n), skill, "u", 1000, k != 0, Some(10 * (k + 1))));
        }
    }
    store.insert_events(&events).unwrap();
    // the window ends before its last second
    assert_eq!(store.top_skills_at(1000, 1, 10).len(), 0);
    let top = store.top_skills_at(1001, 1, 10);
    let names: Vec<&str> = top.iter().map(|t| t.skill_id.as_str()).collect();
    assert_eq!(names, vec!["a", "b", "c", "d"]);
    let counts: Vec<i64> = top.iter().map(|t| t.call_count).collect();
    assert_eq!(counts, vec![5, 2, 2, 1]);
    assert_eq!(top[0].success_rate, Ratio { num: 4, den: 5 });
    assert_eq!(top[0].avg_latency_ms, Some(Ratio { num: 150, den: 5 }));
    assert_eq!(top[3].success_rate, Ratio { num: 0, den: 1 });
    let two = store.top_skills_at(1001, 1, 2);
    assert_eq!(two.len(), 2);
    assert_eq!(two[1].skill_id, "b");
    assert_eq!(store.top_skills_at(1001, 1, 0).len(), 0);
    assert_eq!(store.top_skills_at(1001, 1, -1).len(), 4);
    // nothing in a window that begins after the events
    assert_eq!(store.top_skills_at(1000 + 2 * 86400, 1, 10).len(), 0);
}

#[test]
fn caller_analysis_counts_combinations() {
    let mut store = create_test_store();
    let mut events = Vec::new();
    let callers = [
        (Some("agent-1"), Some("tool-x"), "a"),
        (Some("agent-2"), Some("tool-x"), "a"),
        (Some("agent-2"), Some("tool-x"), "a"),
        (None, None, "a"),
        (Some("agent-2"), Some("tool-y"), "a"),
        (Some("agent-2"), Some("tool-x"), "b"),
        (Some("agent-2"), Some("tool-x"), "a"),
    ];
    for (i, (agent, tool, skill)) in callers.iter().enumerate() {
        let mut e = event_at(&format!("e{}", i), skill, "u", 50, true, None);
        e.caller_agent = agent.map(|s| s.to_string());
        e.caller_tool = tool.map(|s| s.to_string());
        events.push(e);
    }
    store.insert_events(&events).unwrap();
    let found = store.caller_analysis_at(100, 1).unwrap();
    let got: Vec<(String, String, String, i64)> = found
        .iter()
        .map(|c| (c.caller_agent.clone(), c.caller_tool.clone(), c.skill_id.clone(), c.call_count))
        .collect();
    let expect = |a: &str, t: &str, s: &str, n: i64| (a.to_string(), t.to_string(), s.to_string(), n);
    assert_eq!(
        got,
        vec![
            expect("agent-2", "tool-x", "a", 3),
            expect("agent-1", "tool-x", "a", 1),
            expect("agent-2", "tool-y", "a", 1),
            expect("agent-2", "tool-x", "b", 1),
        ]
    );
}

#[test]
fn caller_analysis_fails_on_a_caller_without_tool() {
    let mut store = create_test_store();
    let mut e = event_at("e1", "a", "u", 50, true, None);
    e.caller_agent = Some("agent".to_string());
    store.insert_events(&[e]).unwrap();
    assert_eq!(store.caller_analysis_at(100, 1).err(), Some(StorageError::MissingValue));
    // outside the window the event does not count
    assert_eq!(store.caller_analysis_at(100 + 3 * 86400, 1).unwrap().len(), 0);
}

#[test]
fn user_retention_pairs_skills_by_shared_users() {
    let mut store = create_test_store();
    let uses = [
        ("beta", "u1"), ("alpha", "u1"), ("alpha", "u2"), ("beta", "u2"), ("alpha", "u3"),
        ("gamma", "u3"), ("alpha", "u1"), ("delta", "u9"),
    ];
    let events: Vec<SkillEventRow> = uses
        .iter()
        .enumerate()
        .map(|(i, (skill, user))| event_at(&format!("e{}", i), skill, user, 10, true, None))
        .collect();
    store.insert_events(&events).unwrap();
    let pairs = store.user_retention_at(20, 1);
    assert_eq!(pairs.len(), 2);
    assert_eq!(pairs[0].skill_a, "alpha");
    assert_eq!(pairs[0].skill_b, "beta");
    assert_eq!(pairs[0].users_both, 2);
    assert_eq!(pairs[0].users_a_only, 1);
    assert_eq!(pairs[0].retention_rate, Ratio { num: 2, den: 3 });
    assert_eq!(pairs[1].skill_a, "alpha");
    assert_eq!(pairs[1].skill_b, "gamma");
    assert_eq!(pairs[1].users_both, 1);
    assert_eq!(pairs[1].users_a_only, 2);
}

#[test]
fn user_retention_lists_twenty_pairs_at_most() {
    let mut store = create_test_store();
    let mut events = Vec::new();
    for i in 0..8 {
        events.push(event_at(&format!("e{}", i), &format!("skill-{}", i), "u", 10, true, None));
    }
    store.insert_events(&events).unwrap();
    // 8 skills of one user make 28 pairs
    assert_eq!(store.user_retention_at(20, 1).len(), 20);
}
