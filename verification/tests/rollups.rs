use skills_hub::analytics_store::AnalyticsStore;
use skills_hub::event::SkillEventRow;
use skills_hub::percentile::{percentile, sort_samples};
use skills_hub::ratio::Ratio;
use skills_hub::stats::{DailyStats, StorageError};

const DAY: i64 = 86400;
// 2024-01-01T00:00:00Z
const NEW_YEAR: i64 = 1_704_067_200;

fn event(id: &str, skill: &str, user: &str, timestamp: i64, success: bool) -> SkillEventRow {
    SkillEventRow {
        id: id.to_string(),
        event_type: "skill_invoke".to_string(),
        skill_id: skill.to_string(),
        timestamp,
        user_id: user.to_string(),
        session_id: "s".to_string(),
        input_hash: None,
        success,
        duration_ms: None,
        error: None,
        feedback_score: None,
        token_input: None,
        token_output: None,
        api_cost_micro_usd: None,
        caller_agent: None,
        caller_workflow: None,
        caller_tool: None,
        metadata_json: None,
    }
}

fn rollup(skill: &str, date: &str, calls: i64, successes: i64, cost: i128) -> DailyStats {
    DailyStats {
        skill_id: skill.to_string(),
        date: date.to_string(),
        total_calls: calls,
        success_count: successes,
        fail_count: calls - successes,
        p50_ms: Some(10),
        p95_ms: Some(20),
        p99_ms: Some(30),
        avg_ms: Some(Ratio { num: 15 * calls as i128, den: calls as i128 }),
        unique_users: 1,
        total_cost_micro_usd: cost,
        thumbs_up: 1,
        thumbs_down: 0,
    }
}

fn filled_store() -> AnalyticsStore {
    let mut store = AnalyticsStore::new();
    let mut events = Vec::new();
    let mut add = |id: &str, skill: &str, user: &str, at: i64, ok: bool, ms: Option<i64>, cost: Option<i64>, score: Option<i32>| {
        let mut e = event(id, skill, user, at, ok);
        e.duration_ms = ms;
        e.api_cost_micro_usd = cost;
        e.feedback_score = score;
        events.push(e);
    };
    add("a1", "alpha", "u1", NEW_YEAR, true, Some(100), Some(1_000), Some(1));
    add("a2", "alpha", "u2", NEW_YEAR + 10, false, Some(300), None, Some(-1));
    add("a3", "alpha", "u1", NEW_YEAR + DAY - 1, true, None, Some(500), Some(1));
    add("a4", "alpha", "u1", NEW_YEAR + 20, true, Some(200), Some(-100), Some(0));
    add("b1", "beta", "u3", NEW_YEAR + 5, true, Some(7), None, None);
    add("n1", "alpha", "u9", NEW_YEAR + DAY, true, Some(1), Some(1), None);
    add("o1", "alpha", "u9", NEW_YEAR - 1, false, Some(1), Some(1), None);
    store.insert_events(&events).unwrap();
    store
}

#[test]
fn percentiles_are_nearest_rank() {
    let samples: Vec<i64> = (1..=20).rev().collect();
    assert_eq!(sort_samples(&samples), (1..=20).collect::<Vec<i64>>());
    // offset floor(20 * 0.95) = 19, floor(20 * 0.5) = 10, floor(20 * 0.99) = 19
    assert_eq!(percentile(&samples, 95), Some(20));
    assert_eq!(percentile(&samples, 50), Some(11));
    assert_eq!(percentile(&samples, 99), Some(20));
    assert_eq!(percentile(&samples, 0), Some(1));
    assert_eq!(percentile(&samples, 100), None);
    assert_eq!(percentile(&vec![], 95), None);
    assert_eq!(percentile(&vec![42], 95), Some(42));
    assert_eq!(percentile(&vec![5, -3, 5, 9, -3], 50), Some(5));
    assert_eq!(percentile(&vec![5, -3, 5, 9, -3], 20), Some(-3));
    assert_eq!(percentile(&vec![i64::MAX, i64::MIN, 0], 34), Some(0));
}

#[test]
fn a_day_is_rolled_up_by_skill() {
    let mut store = filled_store();
    assert_eq!(store.aggregate_daily_stats("2024-01-01"), Ok(()));
    let stats = store.daily_stats();
    assert_eq!(stats.len(), 2);
    let alpha = &stats[0];
    assert_eq!(alpha.skill_id, "alpha");
    assert_eq!(alpha.date, "2024-01-01");
    assert_eq!(alpha.total_calls, 4);
    assert_eq!(alpha.success_count, 3);
    assert_eq!(alpha.fail_count, 1);
    // durations 100, 200, 300: offsets 1, 2, 2
    assert_eq!(alpha.p50_ms, Some(200));
    assert_eq!(alpha.p95_ms, Some(300));
    assert_eq!(alpha.p99_ms, Some(300));
    assert_eq!(alpha.avg_ms, Some(Ratio { num: 600, den: 3 }));
    assert_eq!(alpha.unique_users, 2);
    assert_eq!(alpha.total_cost_micro_usd, 1_400);
    assert_eq!(alpha.thumbs_up, 2);
    assert_eq!(alpha.thumbs_down, 1);
    let beta = &stats[1];
    assert_eq!(beta.skill_id, "beta");
    assert_eq!(beta.total_calls, 1);
    assert_eq!(beta.avg_ms, Some(Ratio { num: 7, den: 1 }));
    assert_eq!(beta.total_cost_micro_usd, 0);
    assert_eq!(beta.thumbs_up, 0);
}

#[test]
fn rolling_up_twice_changes_nothing() {
    let mut store = filled_store();
    store.aggregate_daily_stats("2024-01-02").unwrap();
    store.aggregate_daily_stats("2024-01-01").unwrap();
    let once = format!("{:?}", store.daily_stats());
    store.aggregate_daily_stats("2024-01-01").unwrap();
    assert_eq!(format!("{:?}", store.daily_stats()), once);
    assert_eq!(store.daily_stats().len(), 3);
    // a day without events and a text that is no date add nothing
    store.aggregate_daily_stats("2023-06-01").unwrap();
    store.aggregate_daily_stats("2024-1-1").unwrap();
    assert_eq!(format!("{:?}", store.daily_stats()), once);
}

#[test]
fn a_later_rollup_takes_the_place_of_an_earlier_one() {
    let mut store = filled_store();
    store.aggregate_daily_stats("2024-01-01").unwrap();
    store.aggregate_daily_stats("2024-01-02").unwrap();
    let mut late = event("late", "beta", "u4", NEW_YEAR + 100, false);
    late.duration_ms = Some(9);
    store.insert_events(&[late]).unwrap();
    store.aggregate_daily_stats("2024-01-01").unwrap();
    let keys: Vec<(String, String, i64)> = store
        .daily_stats()
        .iter()
        .map(|s| (s.skill_id.clone(), s.date.clone(), s.total_calls))
        .collect();
    assert_eq!(
        keys,
        vec![
            ("alpha".to_string(), "2024-01-02".to_string(), 1),
            ("alpha".to_string(), "2024-01-01".to_string(), 4),
            ("beta".to_string(), "2024-01-01".to_string(), 2),
        ]
    );
}

#[test]
fn rollups_are_refused_by_a_full_table() {
    let mut store = AnalyticsStore::with_capacity(2, 1);
    store
        .insert_events(&[event("1", "a", "u", NEW_YEAR, true), event("2", "b", "u", NEW_YEAR, true)])
        .unwrap();
    assert_eq!(store.restore_rollup(rollup("x", "2023-12-31", 1, 1, 0)), Ok(()));
    assert_eq!(store.aggregate_daily_stats("2024-01-01"), Err(StorageError::Full));
    assert_eq!(store.daily_stats().len(), 1);
    assert_eq!(store.restore_rollup(rollup("y", "2023-12-31", 1, 1, 0)), Ok(()));
    assert_eq!(store.restore_rollup(rollup("z", "2023-12-31", 1, 1, 0)), Err(StorageError::Full));
}

#[test]
fn restored_rollups_are_checked() {
    let mut store = AnalyticsStore::new();
    assert_eq!(store.restore_rollup(rollup("a", "2024-01-01", 3, 2, 10)), Ok(()));
    assert_eq!(
        store.restore_rollup(rollup("a", "2024-01-01", 5, 5, 10)),
        Err(StorageError::DuplicateKey)
    );
    assert_eq!(store.restore_rollup(rollup("a", "2024-01-02", -1, 0, 10)), Err(StorageError::Corrupt));
    let mut bad = rollup("a", "2024-01-02", 1, 1, 10);
    bad.avg_ms = Some(Ratio { num: 1, den: 0 });
    assert_eq!(store.restore_rollup(bad), Err(StorageError::Corrupt));
    assert_eq!(store.daily_stats().len(), 1);
}

#[test]
fn the_daily_trend_adds_up_the_skills_of_a_day() {
    let mut store = AnalyticsStore::new();
    store.restore_rollup(rollup("a", "2024-01-03", 4, 4, 100)).unwrap();
    store.restore_rollup(rollup("b", "2024-01-01", 2, 1, 50)).unwrap();
    store.restore_rollup(rollup("a", "2024-01-01", 6, 3, 25)).unwrap();
    store.restore_rollup(rollup("a", "2023-12-25", 9, 9, 1)).unwrap();
    let mut bare = rollup("c", "2024-01-01", 1, 0, 0);
    bare.avg_ms = None;
    store.restore_rollup(bare).unwrap();
    // the window of 3 days that ends on 2024-01-03 begins on 2023-12-31
    let now = NEW_YEAR + 2 * DAY + 100;
    let trend = store.daily_trend_at(now, 3);
    assert_eq!(trend.len(), 2);
    assert_eq!(trend[0].skill_id, "all");
    assert_eq!(trend[0].date, "2024-01-01");
    assert_eq!(trend[0].total_calls, 9);
    assert_eq!(trend[0].success_count, 4);
    assert_eq!(trend[0].fail_count, 5);
    assert_eq!(trend[0].p50_ms, None);
    assert_eq!(trend[0].p95_ms, None);
    assert_eq!(trend[0].avg_ms, Some(Ratio { num: 120, den: 8 }));
    assert_eq!(trend[0].unique_users, 3);
    assert_eq!(trend[0].total_cost_micro_usd, 75);
    assert_eq!(trend[0].thumbs_up, 3);
    assert_eq!(trend[1].date, "2024-01-03");
    assert_eq!(trend[1].total_calls, 4);
    // a wider window takes the older day in, a day without rollups has no entry
    let wide = store.daily_trend_at(now, 30);
    let dates: Vec<&str> = wide.iter().map(|d| d.date.as_str()).collect();
    assert_eq!(dates, vec!["2023-12-25", "2024-01-01", "2024-01-03"]);
    assert_eq!(store.daily_trend_at(now, -30).len(), 0);
    assert_eq!(store.daily_trend_at(now, i64::MAX).len(), 0);
    assert_eq!(store.get_daily_trend(1).unwrap().len(), 0);
}

#[test]
fn the_trend_of_a_skill_keeps_its_percentiles() {
    let mut store = AnalyticsStore::new();
    store.restore_rollup(rollup("a", "2024-01-03", 4, 4, 100)).unwrap();
    store.restore_rollup(rollup("b", "2024-01-01", 2, 1, 50)).unwrap();
    store.restore_rollup(rollup("a", "2024-01-01", 6, 3, 25)).unwrap();
    let now = NEW_YEAR + 2 * DAY;
    let trend = store.success_rate_trend_at(Some("a"), now, 7);
    let got: Vec<(&str, &str, i64, Option<i64>)> = trend
        .iter()
        .map(|d| (d.skill_id.as_str(), d.date.as_str(), d.success_count, d.p95_ms))
        .collect();
    assert_eq!(got, vec![("a", "2024-01-01", 3, Some(20)), ("a", "2024-01-03", 4, Some(20))]);
    assert_eq!(store.success_rate_trend_at(Some("none"), now, 7).len(), 0);
    let all = store.success_rate_trend_at(None, now, 7);
    assert_eq!(all.len(), 2);
    assert_eq!(all[0].skill_id, "all");
    assert_eq!(all[0].total_calls, 8);
    assert_eq!(all[0].p95_ms, None);
    assert_eq!(store.get_success_rate_trend(Some("a"), 1).unwrap().len(), 0);
}

#[test]
fn costs_are_summed_by_skill() {
    let mut store = AnalyticsStore::new();
    store.restore_rollup(rollup("cheap", "2024-01-01", 4, 4, 100)).unwrap();
    store.restore_rollup(rollup("dear", "2024-01-01", 2, 1, 5_000_000)).unwrap();
    store.restore_rollup(rollup("cheap", "2024-01-02", 6, 3, 25)).unwrap();
    let mut idle = rollup("idle", "2024-01-02", 0, 0, 125);
    idle.avg_ms = None;
    store.restore_rollup(idle).unwrap();
    store.restore_rollup(rollup("old", "2023-01-01", 1, 1, 9_000_000)).unwrap();
    let now = NEW_YEAR + DAY;
    let summary = store.cost_summary_at(now, 7);
    let got: Vec<(&str, i64, Ratio, Option<Ratio>)> = summary
        .iter()
        .map(|e| (e.skill_id.as_str(), e.call_count, e.success_rate, e.avg_latency_ms))
        .collect();
    assert_eq!(
        got,
        vec![
            ("dear", 2, Ratio { num: 1, den: 2 }, Some(Ratio { num: 5_000_000, den: 1_000_000 })),
            ("cheap", 10, Ratio { num: 7, den: 10 }, Some(Ratio { num: 125, den: 1_000_000 })),
            ("idle", 0, Ratio { num: 1, den: 1 }, Some(Ratio { num: 125, den: 1_000_000 })),
        ]
    );
    assert_eq!(store.get_cost_summary(1).unwrap().len(), 0);
}
