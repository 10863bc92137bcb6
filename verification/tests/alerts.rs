use skills_hub::analytics_alert::AlertDetector;
use skills_hub::analytics_store::AnalyticsStore;
use skills_hub::event::SkillEventRow;
use skills_hub::stats::{AnalyticsAlert, StorageError};

fn event_at(id: &str, skill_id: &str, timestamp: i64, success: bool, duration_ms: Option<i64>) -> SkillEventRow {
    SkillEventRow {
        id: id.to_string(),
        event_type: "skill_invoke".to_string(),
        skill_id: skill_id.to_string(),
        timestamp,
        user_id: "u".to_string(),
        session_id: "s".to_string(),
        input_hash: None,
        success,
        duration_ms,
        error: None,
        feedback_score: None,
        token_input: None,
        token_output: None,
        api_cost_micro_usd: None,
        caller_agent: None,
        caller_workflow: None,
        caller_tool: None,
        metadata_json: None,
    }
}

fn store_with_calls(skill: &str, now: i64, calls: usize, failures: usize) -> AnalyticsStore {
    let mut store = AnalyticsStore::new();
    let events: Vec<SkillEventRow> = (0..calls)
        .map(|i| event_at(&format!("{}-{}", skill, i), skill, now - 60, i >= failures, None))
        .collect();
    store.insert_events(&events).unwrap();
    store
}

#[test]
fn failure_spike_needs_more_than_twenty_calls() {
    let now = 1_700_000_000;
    let store = store_with_calls("s", now, 21, 3);
    assert_eq!(
        AlertDetector::failure_spike_at(&store, "s", now),
        Some("Skill 's' failure rate is 14.3% (3/21) in the last hour".to_string())
    );
    let store = store_with_calls("s", now, 20, 3);
    assert_eq!(AlertDetector::failure_spike_at(&store, "s", now), None);
    let store = store_with_calls("s", now, 20, 20);
    assert_eq!(AlertDetector::failure_spike_at(&store, "s", now), None);
}

#[test]
fn failure_spike_needs_more_than_a_tenth_to_fail() {
    let now = 1_700_000_000;
    // 3 of 30 is exactly a tenth
    let store = store_with_calls("s", now, 30, 3);
    assert_eq!(AlertDetector::failure_spike_at(&store, "s", now), None);
    let store = store_with_calls("s", now, 30, 4);
    assert_eq!(
        AlertDetector::failure_spike_at(&store, "s", now),
        Some("Skill 's' failure rate is 13.3% (4/30) in the last hour".to_string())
    );
    let store = store_with_calls("s", now, 25, 25);
    assert_eq!(
        AlertDetector::failure_spike_at(&store, "s", now),
        Some("Skill 's' failure rate is 100.0% (25/25) in the last hour".to_string())
    );
}

#[test]
fn failure_spike_looks_at_the_last_hour_of_one_skill() {
    let now = 1_700_000_000;
    let mut store = store_with_calls("s", now, 21, 21);
    assert_eq!(AlertDetector::failure_spike_at(&store, "other", now), None);
    // one hour later the calls are too old
    assert_eq!(AlertDetector::failure_spike_at(&store, "s", now + 3600), None);
    assert!(AlertDetector::failure_spike_at(&store, "s", now + 3540).is_some());
    let more: Vec<SkillEventRow> = (0..30)
        .map(|i| event_at(&format!("t-{}", i), "t", now - 1, i % 2 == 0, None))
        .collect();
    store.insert_events(&more).unwrap();
    // the hour ends before `now`: calls at `now` are not in it
    let late: Vec<SkillEventRow> = (0..30)
        .map(|i| event_at(&format!("late-{}", i), "t", now, false, None))
        .collect();
    store.insert_events(&late).unwrap();
    assert_eq!(
        AlertDetector::failure_spike_at(&store, "t", now),
        Some("Skill 't' failure rate is 50.0% (15/30) in the last hour".to_string())
    );
}

#[test]
fn latency_spike_needs_both_hours() {
    let now = 1_700_000_000;
    let mut store = AnalyticsStore::new();
    store.insert_events(&[event_at("c", "s", now - 10, true, Some(1_000_000))]).unwrap();
    assert_eq!(AlertDetector::latency_spike_at(&store, "s", now), None);
    // a call one day earlier without a duration does not count
    store.insert_events(&[event_at("p0", "s", now - 86400 - 10, true, None)]).unwrap();
    assert_eq!(AlertDetector::latency_spike_at(&store, "s", now), None);
    store.insert_events(&[event_at("p1", "s", now - 86400 - 10, true, Some(100))]).unwrap();
    assert_eq!(
        AlertDetector::latency_spike_at(&store, "s", now),
        Some("Skill 's' P95 latency spiked from 100ms to 1000000ms (999900% increase)".to_string())
    );
}

#[test]
fn latency_spike_needs_more_than_three_times() {
    let now = 1_700_000_000;
    let mut store = AnalyticsStore::new();
    store
        .insert_events(&[
            event_at("p", "s", now - 86400 - 3600, true, Some(100)),
            event_at("c", "s", now - 3600, true, Some(300)),
        ])
        .unwrap();
    assert_eq!(AlertDetector::latency_spike_at(&store, "s", now), None);
    store.insert_events(&[event_at("late", "s", now, true, Some(9000))]).unwrap();
    assert_eq!(AlertDetector::latency_spike_at(&store, "s", now), None);
    store.insert_events(&[event_at("c2", "s", now - 1, true, Some(301))]).unwrap();
    // two durations 300, 301: offset floor(2 * 0.95) = 1
    assert_eq!(
        AlertDetector::latency_spike_at(&store, "s", now),
        Some("Skill 's' P95 latency spiked from 100ms to 301ms (201% increase)".to_string())
    );
    // the hour one day earlier ends before now - 86400
    let mut late = AnalyticsStore::new();
    late.insert_events(&[
        event_at("p", "s", now - 86400, true, Some(100)),
        event_at("c", "s", now - 1, true, Some(1000)),
    ])
    .unwrap();
    assert_eq!(AlertDetector::latency_spike_at(&late, "s", now), None);
    // a duration of zero one day earlier is no base
    let mut zero = AnalyticsStore::new();
    zero.insert_events(&[
        event_at("p", "s", now - 86400 - 1, true, Some(0)),
        event_at("c", "s", now - 1, true, Some(1000)),
    ])
    .unwrap();
    assert_eq!(AlertDetector::latency_spike_at(&zero, "s", now), None);
}

#[test]
fn a_spike_detected_twice_is_recorded_once() {
    let now = 1_700_000_000;
    let mut store = store_with_calls("s", now, 21, 3);
    let first = AlertDetector::run_checks_at(&mut store, "s", now, "id-1".into(), "id-2".into()).unwrap();
    assert_eq!(first.len(), 1);
    let second = AlertDetector::run_checks_at(&mut store, "s", now + 1, "id-3".into(), "id-4".into()).unwrap();
    assert_eq!(second, first);
    let alerts = store.get_active_alerts().unwrap();
    assert_eq!(alerts.len(), 1);
    assert_eq!(alerts[0].id, "id-1");
    assert_eq!(alerts[0].skill_id, "s");
    assert_eq!(alerts[0].alert_type, "failure_spike");
    assert_eq!(alerts[0].severity, "critical");
    assert_eq!(alerts[0].message, "Skill 's' failure rate is 14.3% (3/21) in the last hour");
    assert_eq!(alerts[0].detected_at, now);
    assert_eq!(alerts[0].resolved_at, None);
    assert!(!alerts[0].acknowledged);
}

#[test]
fn run_checks_reads_the_clock() {
    let now = std::time::SystemTime::now()
        .duration_since(std::time::UNIX_EPOCH)
        .unwrap()
        .as_secs() as i64;
    let mut store = store_with_calls("s", now, 30, 30);
    let found = AlertDetector::run_checks(&mut store, "s").unwrap();
    assert_eq!(found, vec!["Skill 's' failure rate is 100.0% (30/30) in the last hour".to_string()]);
    assert_eq!(AlertDetector::run_checks(&mut store, "s").unwrap(), found);
    let alerts = store.get_active_alerts().unwrap();
    assert_eq!(alerts.len(), 1);
    assert_eq!(alerts[0].id.len(), 36);
    assert!(alerts[0].detected_at >= now);
    assert_eq!(AlertDetector::check_failure_spike(&store, "s").unwrap(), Some(found[0].clone()));
    assert_eq!(AlertDetector::check_latency_spike(&store, "s").unwrap(), None);
}

#[test]
fn both_spikes_are_recorded_side_by_side() {
    let now = 1_700_000_000;
    let mut store = AnalyticsStore::new();
    let mut events: Vec<SkillEventRow> = (0..22)
        .map(|i| event_at(&format!("c{}", i), "s", now - 5, i % 2 == 0, Some(900)))
        .collect();
    events.push(event_at("p", "s", now - 86400 - 5, true, Some(100)));
    store.insert_events(&events).unwrap();
    let found = AlertDetector::run_checks_at(&mut store, "s", now, "f".into(), "l".into()).unwrap();
    assert_eq!(
        found,
        vec![
            "Skill 's' failure rate is 50.0% (11/22) in the last hour".to_string(),
            "Skill 's' P95 latency spiked from 100ms to 900ms (800% increase)".to_string(),
        ]
    );
    let alerts = store.get_active_alerts().unwrap();
    assert_eq!(alerts.len(), 2);
    assert_eq!(alerts[0].alert_type, "failure_spike");
    assert_eq!(alerts[1].alert_type, "latency_spike");
    assert_eq!(alerts[1].severity, "warning");
}

#[test]
fn an_alert_id_that_is_taken_is_refused() {
    let now = 1_700_000_000;
    let mut store = store_with_calls("s", now, 21, 21);
    let more: Vec<SkillEventRow> = (0..21)
        .map(|i| event_at(&format!("t-{}", i), "t", now - 1, false, None))
        .collect();
    store.insert_events(&more).unwrap();
    AlertDetector::run_checks_at(&mut store, "s", now, "same".into(), "x".into()).unwrap();
    assert_eq!(
        AlertDetector::run_checks_at(&mut store, "t", now, "same".into(), "y".into()),
        Err(StorageError::DuplicateKey)
    );
    assert_eq!(store.get_active_alerts().unwrap().len(), 1);
}

#[test]
fn acknowledging_marks_one_alert() {
    let mut store = AnalyticsStore::new();
    assert_eq!(store.insert_alert("a1".into(), "s", "failure_spike", "critical", "m1", 10), Ok(true));
    assert_eq!(store.insert_alert("a2".into(), "s", "latency_spike", "warning", "m2", 30), Ok(true));
    assert_eq!(store.insert_alert("a3".into(), "t", "failure_spike", "critical", "m3", 20), Ok(true));
    assert_eq!(store.insert_alert("a4".into(), "s", "failure_spike", "critical", "m4", 40), Ok(false));
    store.acknowledge_alert("a3").unwrap();
    store.acknowledge_alert("nothing").unwrap();
    let alerts = store.get_active_alerts().unwrap();
    let ids: Vec<&str> = alerts.iter().map(|a| a.id.as_str()).collect();
    assert_eq!(ids, vec!["a2", "a3", "a1"]);
    let acknowledged: Vec<bool> = alerts.iter().map(|a| a.acknowledged).collect();
    assert_eq!(acknowledged, vec![false, true, false]);
}

#[test]
fn a_resolved_alert_makes_room_for_the_next() {
    let mut store = AnalyticsStore::new();
    let resolved = AnalyticsAlert {
        id: "old".into(),
        skill_id: "s".into(),
        alert_type: "failure_spike".into(),
        severity: "critical".into(),
        message: "m".into(),
        detected_at: 5,
        resolved_at: Some(6),
        acknowledged: true,
    };
    assert_eq!(store.restore_alert(resolved.clone()), Ok(()));
    assert_eq!(store.restore_alert(resolved), Err(StorageError::DuplicateKey));
    assert_eq!(store.get_active_alerts().unwrap().len(), 0);
    assert_eq!(store.insert_alert("new".into(), "s", "failure_spike", "critical", "m", 7), Ok(true));
    assert_eq!(store.get_active_alerts().unwrap().len(), 1);
    assert_eq!(store.alerts().len(), 2);
}

#[test]
fn an_alert_is_resolved_by_hand() {
    let mut store = AnalyticsStore::new();
    store.insert_alert("a1".into(), "s", "failure_spike", "critical", "m1", 10).unwrap();
    assert_eq!(store.insert_alert("a2".into(), "s", "failure_spike", "critical", "m2", 20), Ok(false));
    assert_eq!(store.resolve_alert("a1", 30), Ok(()));
    assert_eq!(store.resolve_alert("a1", 40), Ok(()));
    assert_eq!(store.resolve_alert("nothing", 40), Ok(()));
    assert_eq!(store.get_active_alerts().unwrap().len(), 0);
    assert_eq!(store.alerts()[0].resolved_at, Some(30));
    assert_eq!(store.insert_alert("a3".into(), "s", "failure_spike", "critical", "m3", 50), Ok(true));
    let active = store.get_active_alerts().unwrap();
    assert_eq!(active.len(), 1);
    assert_eq!(active[0].id, "a3");
}

fn store_with_both_spikes(now: i64) -> AnalyticsStore {
    let mut store = AnalyticsStore::new();
    let mut events: Vec<SkillEventRow> = (0..22)
        .map(|i| event_at(&format!("c{}", i), "s", now - 5, i % 2 == 0, Some(900)))
        .collect();
    events.push(event_at("p", "s", now - 86400 - 5, true, Some(100)));
    store.insert_events(&events).unwrap();
    store
}

#[test]
fn one_id_for_both_spikes_fails_the_second() {
    let now = 1_700_000_000;
    let mut store = store_with_both_spikes(now);
    assert_eq!(
        AlertDetector::run_checks_at(&mut store, "s", now, "one".into(), "one".into()),
        Err(StorageError::DuplicateKey)
    );
    // the failure spike was recorded before the latency spike was refused
    let alerts = store.get_active_alerts().unwrap();
    assert_eq!(alerts.len(), 1);
    assert_eq!(alerts[0].id, "one");
    assert_eq!(alerts[0].alert_type, "failure_spike");
    // the same ids again: the failure spike is open, so only the latency
    // spike is to be recorded, and its id is taken
    assert_eq!(
        AlertDetector::run_checks_at(&mut store, "s", now, "one".into(), "one".into()),
        Err(StorageError::DuplicateKey)
    );
    assert_eq!(store.alerts().len(), 1);
    // a taken id does not matter where nothing is to be recorded under it
    let found = AlertDetector::run_checks_at(&mut store, "s", now, "one".into(), "two".into()).unwrap();
    assert_eq!(found.len(), 2);
    let alerts = store.alerts();
    assert_eq!(alerts.len(), 2);
    assert_eq!(alerts[1].id, "two");
    assert_eq!(alerts[1].alert_type, "latency_spike");
    assert_eq!(alerts[1].detected_at, now);
    let again = AlertDetector::run_checks_at(&mut store, "s", now, "one".into(), "two".into()).unwrap();
    assert_eq!(again, found);
    assert_eq!(store.alerts().len(), 2);
}

#[test]
fn a_refused_failure_spike_records_nothing() {
    let now = 1_700_000_000;
    let mut store = store_with_both_spikes(now);
    assert_eq!(store.insert_alert("taken".into(), "other", "failure_spike", "critical", "m", 1), Ok(true));
    assert_eq!(
        AlertDetector::run_checks_at(&mut store, "s", now, "taken".into(), "free".into()),
        Err(StorageError::DuplicateKey)
    );
    assert_eq!(store.alerts().len(), 1);
    // without any spike nothing is recorded and nothing fails
    assert_eq!(
        AlertDetector::run_checks_at(&mut store, "quiet", now, "taken".into(), "taken".into()),
        Ok(vec![])
    );
    assert_eq!(store.alerts().len(), 1);
}
