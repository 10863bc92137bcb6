//! The event store and its queries.
//!
//! The store keeps three tables in memory: the events, the daily rollups
//! and the alerts. Every query is a function of these tables and of the
//! time at which it is asked; the methods without a time read the system
//! clock and hand over to the method that takes one.

use vstd::prelude::*;
use crate::callers::{called, caller_analysis, is_caller_analysis, lacks_tool};
use crate::clock::unix_now;
use crate::retention::{is_user_retention, user_retention};
use crate::stats::{CallerDependency, UserRetentionPair};
use crate::event::{durations, scoped, succeeded, users, user_of, Scope, SkillEventRow, Window};
use crate::distinct::{distinct, lemma_distinct, texts};
use crate::percentile::{nearest_rank, percentile};
use crate::ratio::{difference, rate_of, Ratio};
use crate::ranking::{is_ranking, rank_descending};
use crate::rollup::{
    aggregated, day_rollups, day_stats, kept, lemma_aggregated_unique, stat_wf, stats_wf,
    unique_days, written,
};
use crate::rollup::has_key;
use crate::stats::{
    daily_views, AnalyticsAlert, AnalyticsError, AnalyticsOverview, DailyStats, DailyView,
    StorageError, TopSkillEntry,
};
use crate::trend::{
    cost_summary, daily_trend, is_cost_summary, is_daily_trend, is_skill_trend, since_date,
    since_text, skill_trend, window_date, MAX_ROLLUPS,
};
use crate::top_skills::{is_top_skills, top_skills};
use crate::tally::{collect_durations, count_events, count_succeeded, distinct_users};
use crate::text::str_eq;

verus! {

/// The largest number of events that a store can be made to hold: every
/// count over the events then fits each integer type that a query reports
/// it in.
pub const MAX_EVENTS: usize = 0x7fff_ffff;

/// The schema version that this library knows.
pub const ANALYTICS_SCHEMA_VERSION: i32 = 1;

/// Whether some row has the id.
pub open spec fn has_id(rows: Seq<SkillEventRow>, id: Seq<char>) -> bool {
    exists|i: int| 0 <= i < rows.len() && (#[trigger] rows[i]).id@ == id
}

/// Whether no two rows share an id.
pub open spec fn unique_ids(rows: Seq<SkillEventRow>) -> bool {
    forall|i: int, j: int|
        0 <= i < j < rows.len() ==> (#[trigger] rows[i]).id@ != (#[trigger] rows[j]).id@
}

/// The rows after one insert: a row whose id is already stored is ignored.
pub open spec fn insert_or_ignore(rows: Seq<SkillEventRow>, e: SkillEventRow) -> Seq<
    SkillEventRow,
> {
    if has_id(rows, e.id@) {
        rows
    } else {
        rows.push(e)
    }
}

/// The rows after the events of a batch were inserted one after another.
pub open spec fn insert_all(rows: Seq<SkillEventRow>, batch: Seq<SkillEventRow>) -> Seq<
    SkillEventRow,
>
    decreases batch.len(),
{
    if batch.len() == 0 {
        rows
    } else {
        insert_or_ignore(insert_all(rows, batch.drop_last()), batch.last())
    }
}

/// Inserting a batch adds as many rows as the batch has at most, and
/// inserting more of a batch never leaves fewer rows.
pub proof fn lemma_insert_all_len(rows: Seq<SkillEventRow>, batch: Seq<SkillEventRow>, n: int)
    requires
        0 <= n <= batch.len(),
    ensures
        rows.len() <= insert_all(rows, batch.take(n)).len() <= insert_all(rows, batch).len()
            <= rows.len() + batch.len(),
    decreases batch.len(),
{
    if batch.len() == 0 {
        assert(batch.take(n) =~= batch);
    } else if n == batch.len() {
        assert(batch.take(n) =~= batch);
        lemma_insert_all_len(rows, batch.drop_last(), n - 1);
    } else {
        assert(batch.drop_last().take(n) =~= batch.take(n));
        lemma_insert_all_len(rows, batch.drop_last(), n);
    }
}

/// The number of rows with the id.
pub open spec fn rows_with_id(rows: Seq<SkillEventRow>, id: Seq<char>) -> nat {
    rows.filter(|e: SkillEventRow| e.id@ == id).len()
}

/// The overview of a table of events at the time `now`, over the trailing
/// window of `days` days and the window of equal length before it.
pub open spec fn overview_of(rows: Seq<SkillEventRow>, now: int, days: int) -> AnalyticsOverview {
    let cur = scoped(rows, Scope::trailing(now, days));
    let prev = scoped(rows, Scope::preceding(now, days));
    let rate = rate_of(cur.filter(succeeded()).len() as int, cur.len() as int);
    let prev_rate = rate_of(prev.filter(succeeded()).len() as int, prev.len() as int);
    let p95 = nearest_rank(durations(cur), 95);
    let prev_p95 = nearest_rank(durations(prev), 95);
    AnalyticsOverview {
        total_calls: cur.len() as i64,
        success_rate: rate,
        p95_latency_ms: p95,
        active_users: users(cur).len() as i64,
        total_calls_delta_pct: if prev.len() > 0 {
            Some(Ratio { num: ((cur.len() - prev.len()) * 100) as i128, den: prev.len() as i128 })
        } else {
            None
        },
        success_rate_delta: Some(difference(rate, prev_rate)),
        p95_latency_delta_ms: match (p95, prev_p95) {
            (Some(c), Some(p)) => Some((c - p) as i128),
            _ => None,
        },
        active_users_delta: Some((users(cur).len() - users(prev).len()) as i64),
    }
}

/// Whether the alert is unresolved and of the given skill and type.
pub open spec fn is_open(a: AnalyticsAlert, skill: Seq<char>, kind: Seq<char>) -> bool {
    &&& a.skill_id@ == skill
    &&& a.alert_type@ == kind
    &&& a.resolved_at is None
}

/// [`is_open`] as a predicate.
pub open spec fn open_for(skill: Seq<char>, kind: Seq<char>) -> spec_fn(AnalyticsAlert) -> bool {
    |a: AnalyticsAlert| is_open(a, skill, kind)
}

/// Whether some alert is unresolved and of the given skill and type.
pub open spec fn has_open_alert(alerts: Seq<AnalyticsAlert>, skill: Seq<char>, kind: Seq<char>) -> bool {
    exists|i: int| 0 <= i < alerts.len() && is_open(#[trigger] alerts[i], skill, kind)
}

/// Whether some alert has the id.
pub open spec fn has_alert_id(alerts: Seq<AnalyticsAlert>, id: Seq<char>) -> bool {
    exists|i: int| 0 <= i < alerts.len() && (#[trigger] alerts[i]).id@ == id
}

/// Whether no two alerts share an id, and no two unresolved alerts share
/// a skill and a type.
pub open spec fn alerts_wf(alerts: Seq<AnalyticsAlert>) -> bool {
    &&& forall|i: int, j: int|
        0 <= i < j < alerts.len() ==> (#[trigger] alerts[i]).id@ != (#[trigger] alerts[j]).id@
    &&& forall|i: int, j: int|
        0 <= i < j < alerts.len() ==> !is_open(
            #[trigger] alerts[j],
            (#[trigger] alerts[i]).skill_id@,
            alerts[i].alert_type@,
        ) || alerts[i].resolved_at is Some
}

/// Whether an alert is unresolved, as a predicate.
pub open spec fn unresolved() -> spec_fn(AnalyticsAlert) -> bool {
    |a: AnalyticsAlert| a.resolved_at is None
}

/// The time at which each alert was detected, in the same order.
pub open spec fn detection_times(alerts: Seq<AnalyticsAlert>) -> Seq<i128> {
    alerts.map_values(|a: AnalyticsAlert| a.detected_at as i128)
}

/// Whether `result` lists the unresolved alerts, the latest detected
/// first, in the given order.
pub open spec fn is_active_alerts(
    result: Seq<AnalyticsAlert>,
    alerts: Seq<AnalyticsAlert>,
    order: Seq<usize>,
) -> bool {
    let active = alerts.filter(unresolved());
    &&& is_ranking(detection_times(active), order)
    &&& result.len() == active.len()
    &&& forall|i: int| 0 <= i < result.len() ==> #[trigger] result[i] == active[order[i] as int]
}

/// The alert as it is after it was acknowledged.
pub open spec fn acknowledged(a: AnalyticsAlert) -> AnalyticsAlert {
    AnalyticsAlert {
        id: a.id,
        skill_id: a.skill_id,
        alert_type: a.alert_type,
        severity: a.severity,
        message: a.message,
        detected_at: a.detected_at,
        resolved_at: a.resolved_at,
        acknowledged: true,
    }
}

/// The alert as it is after it was resolved at a time, where it was not
/// resolved before.
pub open spec fn resolved(a: AnalyticsAlert, at: i64) -> AnalyticsAlert {
    AnalyticsAlert {
        id: a.id,
        skill_id: a.skill_id,
        alert_type: a.alert_type,
        severity: a.severity,
        message: a.message,
        detected_at: a.detected_at,
        resolved_at: match a.resolved_at {
            Some(earlier) => Some(earlier),
            None => Some(at),
        },
        acknowledged: a.acknowledged,
    }
}

/// The alerts after the one with the id, if any, was resolved.
pub open spec fn with_resolved(alerts: Seq<AnalyticsAlert>, id: Seq<char>, at: i64) -> Seq<
    AnalyticsAlert,
> {
    alerts.map_values(
        |a: AnalyticsAlert|
            if a.id@ == id {
                resolved(a, at)
            } else {
                a
            },
    )
}

/// The alerts after the one with the id, if any, was acknowledged.
pub open spec fn with_acknowledged(alerts: Seq<AnalyticsAlert>, id: Seq<char>) -> Seq<
    AnalyticsAlert,
> {
    alerts.map_values(
        |a: AnalyticsAlert|
            if a.id@ == id {
                acknowledged(a)
            } else {
                a
            },
    )
}

/// Whether a new alert is what a detection at `now` records: unresolved,
/// not acknowledged, and with the given texts.
pub open spec fn records(
    a: AnalyticsAlert,
    id: Seq<char>,
    skill: Seq<char>,
    kind: Seq<char>,
    severity: Seq<char>,
    message: Seq<char>,
    now: i64,
) -> bool {
    &&& a.id@ == id
    &&& a.skill_id@ == skill
    &&& a.alert_type@ == kind
    &&& a.severity@ == severity
    &&& a.message@ == message
    &&& a.detected_at == now
    &&& a.resolved_at is None
    &&& !a.acknowledged
}

/// Whether `result` is the trend of the success rate: that of the skill
/// where one is given, and else the trend by day over all skills.
pub open spec fn is_success_rate_trend(
    result: Seq<DailyView>,
    rollups: Seq<DailyView>,
    skill: Option<&str>,
    since: Option<Seq<char>>,
) -> bool {
    match skill {
        Some(s) => is_skill_trend(result, rollups, s@, since),
        None => is_daily_trend(result, rollups, since),
    }
}

/// The event store.
pub struct AnalyticsStore {
    events: Vec<SkillEventRow>,
    daily: Vec<DailyStats>,
    alerts: Vec<AnalyticsAlert>,
    capacity: usize,
    schema_version: i32,
}

impl AnalyticsStore {
    /// The stored events, oldest insert first.
    pub closed spec fn rows(&self) -> Seq<SkillEventRow> {
        self.events@
    }

    /// The stored daily rollups.
    pub closed spec fn rollups(&self) -> Seq<DailyStats> {
        self.daily@
    }

    /// The stored alerts, oldest insert first.
    pub closed spec fn alert_rows(&self) -> Seq<AnalyticsAlert> {
        self.alerts@
    }

    /// The number of rows that each table of the store holds at most.
    pub closed spec fn limit(&self) -> int {
        self.capacity as int
    }

    /// The schema version of the store.
    pub closed spec fn version(&self) -> int {
        self.schema_version as int
    }

    /// The invariant of the store: no two events share an id, no two
    /// alerts share an id, no two unresolved alerts share a skill and a
    /// type, no two rollups are of the same skill and date, the rollups
    /// are well formed, and neither the events nor the rollups are more
    /// than the store holds, which is [`MAX_EVENTS`] at most.
    pub open spec fn wf(&self) -> bool {
        &&& unique_ids(self.rows())
        &&& self.rows().len() <= self.limit() <= MAX_EVENTS
        &&& alerts_wf(self.alert_rows())
        &&& unique_days(daily_views(self.rollups()))
        &&& stats_wf(daily_views(self.rollups()))
        &&& self.rollups().len() <= self.limit()
    }

    /// An empty store with a current schema, which holds [`MAX_EVENTS`]
    /// rows in a table.
    pub fn new() -> (s: AnalyticsStore)
        ensures
            s.wf(),
            s.limit() == MAX_EVENTS,
            s.version() == ANALYTICS_SCHEMA_VERSION,
            s.rows() == Seq::<SkillEventRow>::empty(),
            s.rollups() == Seq::<DailyStats>::empty(),
            s.alert_rows() == Seq::<AnalyticsAlert>::empty(),
    {
        AnalyticsStore {
            events: Vec::new(),
            daily: Vec::new(),
            alerts: Vec::new(),
            capacity: MAX_EVENTS,
            schema_version: ANALYTICS_SCHEMA_VERSION,
        }
    }

    /// An empty store whose schema has the version given, and which holds
    /// `capacity` rows in a table, and no more than [`MAX_EVENTS`].
    pub fn with_capacity(capacity: usize, schema_version: i32) -> (s: AnalyticsStore)
        ensures
            s.wf(),
            s.limit() == if capacity <= MAX_EVENTS {
                capacity as int
            } else {
                MAX_EVENTS as int
            },
            s.version() == schema_version,
            s.rows() == Seq::<SkillEventRow>::empty(),
            s.rollups() == Seq::<DailyStats>::empty(),
            s.alert_rows() == Seq::<AnalyticsAlert>::empty(),
    {
        AnalyticsStore {
            events: Vec::new(),
            daily: Vec::new(),
            alerts: Vec::new(),
            capacity: if capacity <= MAX_EVENTS {
                capacity
            } else {
                MAX_EVENTS
            },
            schema_version,
        }
    }

    /// The schema version of the store.
    pub fn schema_version(&self) -> (r: i32)
        ensures
            r == self.version(),
    {
        self.schema_version
    }

    /// Brings the schema up to [`ANALYTICS_SCHEMA_VERSION`], one version
    /// at a time. The first schema brings the three tables, which a
    /// store in memory has from the start, so only the version changes.
    /// A schema that is newer than this library knows is refused, and the
    /// store left as it is.
    pub fn ensure_schema(&mut self) -> (r: Result<(), AnalyticsError>)
        requires
            old(self).wf(),
        ensures
            final(self).wf(),
            final(self).rows() == old(self).rows(),
            final(self).rollups() == old(self).rollups(),
            final(self).alert_rows() == old(self).alert_rows(),
            final(self).limit() == old(self).limit(),
            r is Err <==> old(self).version() > ANALYTICS_SCHEMA_VERSION,
            match r {
                Ok(_) => final(self).version() == ANALYTICS_SCHEMA_VERSION,
                Err(e) => e == (AnalyticsError::Schema {
                    found: old(self).version() as i32,
                    supported: ANALYTICS_SCHEMA_VERSION,
                }) && final(self).version() == old(self).version(),
            },
    {
        if self.schema_version > ANALYTICS_SCHEMA_VERSION {
            return Err(
                AnalyticsError::Schema {
                    found: self.schema_version,
                    supported: ANALYTICS_SCHEMA_VERSION,
                },
            );
        }
        if self.schema_version < 0 {
            self.schema_version = 0;
        }
        while self.schema_version < ANALYTICS_SCHEMA_VERSION
            invariant
                self.wf(),
                0 <= self.version() <= ANALYTICS_SCHEMA_VERSION,
                self.rows() == old(self).rows(),
                self.rollups() == old(self).rollups(),
                self.alert_rows() == old(self).alert_rows(),
                self.limit() == old(self).limit(),
            decreases ANALYTICS_SCHEMA_VERSION - self.schema_version,
        {
            self.schema_version = self.schema_version + 1;
        }
        Ok(())
    }

    /// The stored events.
    pub fn events(&self) -> (r: &Vec<SkillEventRow>)
        ensures
            r@ == self.rows(),
    {
        &self.events
    }

    /// The stored daily rollups.
    pub fn daily_stats(&self) -> (r: &Vec<DailyStats>)
        ensures
            r@ == self.rollups(),
    {
        &self.daily
    }

    /// The stored alerts.
    pub fn alerts(&self) -> (r: &Vec<AnalyticsAlert>)
        ensures
            r@ == self.alert_rows(),
    {
        &self.alerts
    }

    /// The number of stored events.
    pub fn event_count(&self) -> (n: usize)
        ensures
            n == self.rows().len(),
    {
        self.events.len()
    }

    /// The place of the event with the id, if one is stored.
    fn find_event(&self, id: &str) -> (r: Option<usize>)
        ensures
            r is Some <==> has_id(self.rows(), id@),
            r matches Some(i) ==> i < self.rows().len() && self.rows()[i as int].id@ == id@,
    {
        let mut i: usize = 0;
        while i < self.events.len()
            invariant
                i <= self.events.len(),
                forall|k: int| 0 <= k < i ==> (#[trigger] self.events[k]).id@ != id@,
            decreases self.events.len() - i,
        {
            if str_eq(self.events[i].id.as_str(), id) {
                return Some(i);
            }
            i = i + 1;
        }
        None
    }

    /// Inserts a batch of events, all of it or none. An event whose id is
    /// already stored, or occurs earlier in the batch, is ignored. The
    /// result counts the events handed in, ignored ones included. The
    /// batch is refused as a whole where the store could not hold the
    /// rows that it adds.
    pub fn insert_events(&mut self, events: &[SkillEventRow]) -> (r: Result<usize, StorageError>)
        requires
            old(self).wf(),
        ensures
            final(self).wf(),
            final(self).rollups() == old(self).rollups(),
            final(self).alert_rows() == old(self).alert_rows(),
            final(self).limit() == old(self).limit(),
            final(self).version() == old(self).version(),
            r is Err <==> insert_all(old(self).rows(), events@).len() > old(self).limit(),
            match r {
                Ok(n) => n == events@.len() && final(self).rows() == insert_all(
                    old(self).rows(),
                    events@,
                ),
                Err(e) => e == StorageError::Full && final(self).rows() == old(self).rows(),
            },
    {
        let start = self.events.len();
        let mut i: usize = 0;
        while i < events.len()
            invariant
                i <= events.len(),
                start == old(self).rows().len(),
                self.limit() == old(self).limit(),
                self.version() == old(self).version(),
                alerts_wf(self.alert_rows()),
                unique_days(daily_views(self.rollups())),
                stats_wf(daily_views(self.rollups())),
                self.rollups().len() <= self.limit(),
                self.rows() == insert_all(old(self).rows(), events@.take(i as int)),
                old(self).rows().is_prefix_of(self.rows()),
                self.rows().len() <= self.limit() <= MAX_EVENTS,
                unique_ids(self.rows()),
                unique_ids(old(self).rows()),
                self.rollups() == old(self).rollups(),
                self.alert_rows() == old(self).alert_rows(),
            decreases events.len() - i,
        {
            proof {
                assert(events@.take(i + 1).drop_last() =~= events@.take(i as int));
            }
            if self.find_event(events[i].id.as_str()).is_none() {
                if self.events.len() >= self.capacity {
                    proof {
                        lemma_insert_all_len(old(self).rows(), events@, i + 1);
                    }
                    self.events.truncate(start);
                    assert(self.rows() =~= old(self).rows());
                    return Err(StorageError::Full);
                }
                self.events.push(events[i].clone());
            }
            i = i + 1;
        }
        proof {
            events@.lemma_take_len();
        }
        Ok(events.len())
    }

    /// The overview over the trailing `days` days, as of the time of the
    /// system clock.
    pub fn get_overview(&self, days: i64) -> (r: Result<AnalyticsOverview, StorageError>)
        requires
            self.wf(),
        ensures
            match r {
                Ok(o) => exists|now: i64| o == overview_of(self.rows(), now as int, days as int),
                Err(e) => e == StorageError::Clock,
            },
    {
        match unix_now() {
            Some(now) => Ok(self.overview_at(now, days)),
            None => Err(StorageError::Clock),
        }
    }

    /// The overview over the trailing `days` days, as of the time `now`.
    pub fn overview_at(&self, now: i64, days: i64) -> (o: AnalyticsOverview)
        requires
            self.wf(),
        ensures
            o == overview_of(self.rows(), now as int, days as int),
    {
        let cur = Window::trailing(now, days);
        let prev = Window::preceding(now, days);
        proof {
            self.rows().lemma_filter_len(cur@.pred());
            self.rows().lemma_filter_len(prev@.pred());
            lemma_users_bound(scoped(self.rows(), cur@));
            lemma_users_bound(scoped(self.rows(), prev@));
        }
        let total = count_events(&self.events, &cur) as i64;
        let success = count_succeeded(&self.events, &cur) as i64;
        let active = distinct_users(&self.events, &cur).len() as i64;
        let p95 = percentile(&collect_durations(&self.events, &cur), 95);
        let prev_total = count_events(&self.events, &prev) as i64;
        let prev_success = count_succeeded(&self.events, &prev) as i64;
        let prev_active = distinct_users(&self.events, &prev).len() as i64;
        let prev_p95 = percentile(&collect_durations(&self.events, &prev), 95);
        let rate = Ratio::of_counts(success, total);
        let prev_rate = Ratio::of_counts(prev_success, prev_total);
        AnalyticsOverview {
            total_calls: total,
            success_rate: rate,
            p95_latency_ms: p95,
            active_users: active,
            total_calls_delta_pct: if prev_total > 0 {
                Some(
                    Ratio {
                        num: (total as i128 - prev_total as i128) * 100,
                        den: prev_total as i128,
                    },
                )
            } else {
                None
            },
            success_rate_delta: Some(rate.sub_small(prev_rate)),
            p95_latency_delta_ms: match (p95, prev_p95) {
                (Some(c), Some(p)) => Some(c as i128 - p as i128),
                _ => None,
            },
            active_users_delta: Some(active - prev_active),
        }
    }

    /// The ranking of skills over the trailing `days` days, as of the
    /// time of the system clock; see [`top_skills`].
    pub fn get_top_skills(&self, days: i64, limit: i64) -> (r: Result<
        Vec<TopSkillEntry>,
        StorageError,
    >)
        requires
            self.wf(),
        ensures
            r matches Err(e) ==> e == StorageError::Clock,
            r is Ok ==> exists|now: i64, order: Seq<usize>| #[trigger]
                is_top_skills(
                    r->Ok_0@,
                    self.rows(),
                    Scope::trailing(now as int, days as int),
                    limit as int,
                    order,
                ),
    {
        match unix_now() {
            Some(now) => {
                let top = self.top_skills_at(now, days, limit);
                proof {
                    let order = choose|order: Seq<usize>| #[trigger]
                        is_top_skills(
                            top@,
                            self.rows(),
                            Scope::trailing(now as int, days as int),
                            limit as int,
                            order,
                        );
                    assert(is_top_skills(
                        top@,
                        self.rows(),
                        Scope::trailing(now as int, days as int),
                        limit as int,
                        order,
                    ));
                }
                let r: Result<Vec<TopSkillEntry>, StorageError> = Ok(top);
                assert(r->Ok_0@ == top@);
                assert(exists|now: i64, order: Seq<usize>| #[trigger]
                    is_top_skills(
                        r->Ok_0@,
                        self.rows(),
                        Scope::trailing(now as int, days as int),
                        limit as int,
                        order,
                    ));
                r
            },
            None => Err(StorageError::Clock),
        }
    }

    /// The ranking of skills over the trailing `days` days, as of the
    /// time `now`; see [`top_skills`].
    pub fn top_skills_at(&self, now: i64, days: i64, limit: i64) -> (r: Vec<TopSkillEntry>)
        requires
            self.wf(),
        ensures
            exists|order: Seq<usize>| #[trigger]
                is_top_skills(
                    r@,
                    self.rows(),
                    Scope::trailing(now as int, days as int),
                    limit as int,
                    order,
                ),
            forall|i: int, j: int|
                0 <= i < j < r@.len() ==> (#[trigger] r@[i]).call_count >= (
                #[trigger] r@[j]).call_count,
    {
        top_skills(&self.events, now, days, limit)
    }

    fn find_open_alert(&self, skill_id: &str, alert_type: &str) -> (r: Option<usize>)
        ensures
            r is Some <==> has_open_alert(self.alert_rows(), skill_id@, alert_type@),
            r matches Some(i) ==> i < self.alert_rows().len() && is_open(
                self.alert_rows()[i as int],
                skill_id@,
                alert_type@,
            ),
    {
        let mut i: usize = 0;
        while i < self.alerts.len()
            invariant
                i <= self.alerts.len(),
                forall|k: int| 0 <= k < i ==> !is_open(#[trigger] self.alerts[k], skill_id@, alert_type@),
            decreases self.alerts.len() - i,
        {
            let a = &self.alerts[i];
            if a.resolved_at.is_none() && str_eq(a.skill_id.as_str(), skill_id) && str_eq(
                a.alert_type.as_str(),
                alert_type,
            ) {
                return Some(i);
            }
            i = i + 1;
        }
        None
    }

    fn find_alert(&self, id: &str) -> (r: Option<usize>)
        ensures
            r is Some <==> has_alert_id(self.alert_rows(), id@),
            r matches Some(i) ==> i < self.alert_rows().len() && self.alert_rows()[i as int].id@
                == id@,
    {
        let mut i: usize = 0;
        while i < self.alerts.len()
            invariant
                i <= self.alerts.len(),
                forall|k: int| 0 <= k < i ==> (#[trigger] self.alerts[k]).id@ != id@,
            decreases self.alerts.len() - i,
        {
            if str_eq(self.alerts[i].id.as_str(), id) {
                return Some(i);
            }
            i = i + 1;
        }
        None
    }

    /// Records an alert detected at `now`, unless an unresolved alert of
    /// the same skill and type is stored: then nothing changes. The
    /// result says whether the alert was recorded. An id that another
    /// alert has is refused.
    pub fn insert_alert(
        &mut self,
        id: String,
        skill_id: &str,
        alert_type: &str,
        severity: &str,
        message: &str,
        now: i64,
    ) -> (r: Result<bool, StorageError>)
        requires
            old(self).wf(),
        ensures
            final(self).wf(),
            final(self).rows() == old(self).rows(),
            final(self).rollups() == old(self).rollups(),
            final(self).limit() == old(self).limit(),
            final(self).version() == old(self).version(),
            has_open_alert(final(self).alert_rows(), skill_id@, alert_type@) || r is Err,
            if has_open_alert(old(self).alert_rows(), skill_id@, alert_type@) {
                r == Ok::<bool, StorageError>(false) && final(self).alert_rows() == old(self).alert_rows()
            } else if has_alert_id(old(self).alert_rows(), id@) {
                r == Err::<bool, StorageError>(StorageError::DuplicateKey) && final(self).alert_rows() == old(self).alert_rows()
            } else {
                &&& r == Ok::<bool, StorageError>(true)
                &&& final(self).alert_rows().len() == old(self).alert_rows().len() + 1
                &&& final(self).alert_rows().drop_last() == old(self).alert_rows()
                &&& records(
                    final(self).alert_rows().last(),
                    id@,
                    skill_id@,
                    alert_type@,
                    severity@,
                    message@,
                    now,
                )
            },
    {
        if self.find_open_alert(skill_id, alert_type).is_some() {
            return Ok(false);
        }
        if self.find_alert(id.as_str()).is_some() {
            return Err(StorageError::DuplicateKey);
        }
        let ghost before = self.alert_rows();
        let alert = AnalyticsAlert {
            id,
            skill_id: skill_id.to_string(),
            alert_type: alert_type.to_string(),
            severity: severity.to_string(),
            message: message.to_string(),
            detected_at: now,
            resolved_at: None,
            acknowledged: false,
        };
        self.alerts.push(alert);
        proof {
            let after = self.alert_rows();
            assert(after.drop_last() =~= before);
            assert(is_open(after[before.len() as int], skill_id@, alert_type@));
            assert forall|i: int, j: int| 0 <= i < j < after.len() implies !is_open(
                #[trigger] after[j],
                (#[trigger] after[i]).skill_id@,
                after[i].alert_type@,
            ) || after[i].resolved_at is Some by {
                if j == before.len() {
                    assert(!is_open(before[i], skill_id@, alert_type@));
                }
            }
        }
        Ok(true)
    }

    /// The unresolved alerts, the latest detected first; alerts detected
    /// at the same time stand oldest insert first.
    pub fn get_active_alerts(&self) -> (r: Result<Vec<AnalyticsAlert>, StorageError>)
        requires
            self.wf(),
        ensures
            r is Ok,
            exists|order: Seq<usize>| #[trigger]
                is_active_alerts(r->Ok_0@, self.alert_rows(), order),
    {
        let mut active: Vec<AnalyticsAlert> = Vec::new();
        let mut keys: Vec<i128> = Vec::new();
        let mut i: usize = 0;
        proof {
            reveal(Seq::filter);
            assert(self.alerts@.take(0).filter(unresolved()) =~= active@);
        }
        assert(keys@ =~= detection_times(active@));
        while i < self.alerts.len()
            invariant
                i <= self.alerts.len(),
                active@ == self.alerts@.take(i as int).filter(unresolved()),
                keys@ == detection_times(active@),
            decreases self.alerts.len() - i,
        {
            proof {
                self.alerts@.lemma_take_succ_push(i as int);
                self.alerts@.take(i as int).lemma_filter_push(self.alerts@[i as int], unresolved());
            }
            if self.alerts[i].resolved_at.is_none() {
                let ghost before = active@;
                active.push(self.alerts[i].clone());
                keys.push(self.alerts[i].detected_at as i128);
                assert(keys@ =~= detection_times(active@));
            }
            i = i + 1;
        }
        proof {
            self.alerts@.lemma_take_len();
        }
        let order = rank_descending(&keys);
        let mut out: Vec<AnalyticsAlert> = Vec::new();
        let mut k: usize = 0;
        while k < active.len()
            invariant
                k <= active.len(),
                is_ranking(keys@, order@),
                keys@.len() == active@.len(),
                out@.len() == k,
                forall|a: int| 0 <= a < k ==> #[trigger] out@[a] == active@[order@[a] as int],
            decreases active.len() - k,
        {
            out.push(active[order[k]].clone());
            k = k + 1;
        }
        assert(is_active_alerts(out@, self.alert_rows(), order@));
        let r: Result<Vec<AnalyticsAlert>, StorageError> = Ok(out);
        assert(r->Ok_0@ == out@);
        assert(exists|order: Seq<usize>| #[trigger]
            is_active_alerts(r->Ok_0@, self.alert_rows(), order));
        r
    }

    /// Marks the alert with the id as acknowledged. Where no alert has
    /// the id, nothing changes.
    pub fn acknowledge_alert(&mut self, alert_id: &str) -> (r: Result<(), StorageError>)
        requires
            old(self).wf(),
        ensures
            final(self).wf(),
            r is Ok,
            final(self).rows() == old(self).rows(),
            final(self).rollups() == old(self).rollups(),
            final(self).limit() == old(self).limit(),
            final(self).version() == old(self).version(),
            final(self).alert_rows() == with_acknowledged(old(self).alert_rows(), alert_id@),
    {
        let ghost before = self.alert_rows();
        match self.find_alert(alert_id) {
            Some(i) => {
                let a = &self.alerts[i];
                let marked = AnalyticsAlert {
                    id: a.id.clone(),
                    skill_id: a.skill_id.clone(),
                    alert_type: a.alert_type.clone(),
                    severity: a.severity.clone(),
                    message: a.message.clone(),
                    detected_at: a.detected_at,
                    resolved_at: a.resolved_at,
                    acknowledged: true,
                };
                self.alerts.set(i, marked);
                proof {
                    let after = self.alert_rows();
                    assert forall|k: int| 0 <= k < after.len() implies after[k]
                        == with_acknowledged(before, alert_id@)[k] by {
                        if k != i {
                            if k < i {
                                assert(before[k].id@ != before[i as int].id@);
                            } else {
                                assert(before[i as int].id@ != before[k].id@);
                            }
                        }
                    }
                    assert(after =~= with_acknowledged(before, alert_id@));
                }
            },
            None => {
                assert(before =~= with_acknowledged(before, alert_id@));
            },
        }
        Ok(())
    }

    /// Writes the rollups of one day, computed from the stored events:
    /// one for each skill with an event on that day, each in the place
    /// of the stored rollup of its skill and day. The date is written
    /// as year, month and day with hyphens. Nothing is written where the
    /// table of rollups could not hold the outcome.
    pub fn aggregate_daily_stats(&mut self, date: &str) -> (r: Result<(), StorageError>)
        requires
            old(self).wf(),
        ensures
            final(self).wf(),
            final(self).rows() == old(self).rows(),
            final(self).alert_rows() == old(self).alert_rows(),
            r is Err <==> aggregated(
                daily_views(old(self).rollups()),
                old(self).rows(),
                date@,
            ).len() > old(self).limit(),
            final(self).limit() == old(self).limit(),
            final(self).version() == old(self).version(),
            match r {
                Ok(_) => daily_views(final(self).rollups()) == aggregated(
                    daily_views(old(self).rollups()),
                    old(self).rows(),
                    date@,
                ),
                Err(e) => e == StorageError::Full && final(self).rollups() == old(self).rollups(),
            },
    {
        let stats = day_rollups(&self.events, date);
        let ghost fresh = daily_views(stats@);
        let table = written(&self.daily, stats);
        if table.len() > self.capacity {
            return Err(StorageError::Full);
        }
        proof {
            let before = daily_views(self.rollups());
            let after = daily_views(table@);
            assert(after == aggregated(before, self.rows(), date@));
            lemma_aggregated_unique(before, self.rows(), date@);
            let rest = before.filter(kept(fresh));
            assert forall|i: int| 0 <= i < after.len() implies stat_wf(#[trigger] after[i]) by {
                if i < rest.len() {
                    assert(rest.contains(rest[i]));
                    before.lemma_filter_contains_rev(kept(fresh), rest[i]);
                    let w = choose|w: int| 0 <= w < before.len() && before[w] == rest[i];
                    assert(stat_wf(before[w]));
                } else {
                    assert(after[i] == fresh[i - rest.len()]);
                }
            }
        }
        self.daily = table;
        Ok(())
    }

    /// The trend by day over all skills for the trailing `days` days, as
    /// of the time of the system clock; see
    /// [`AnalyticsStore::daily_trend_at`].
    pub fn get_daily_trend(&self, days: i64) -> (r: Result<Vec<DailyStats>, StorageError>)
        requires
            self.wf(),
        ensures
            r matches Err(e) ==> e == StorageError::Clock,
            r is Ok ==> exists|now: i64| #[trigger]
                is_daily_trend(
                    daily_views(r->Ok_0@),
                    daily_views(self.rollups()),
                    since_date(now as int, days as int),
                ),
    {
        match unix_now() {
            Some(now) => {
                let r: Result<Vec<DailyStats>, StorageError> = Ok(self.daily_trend_at(now, days));
                assert(is_daily_trend(
                    daily_views(r->Ok_0@),
                    daily_views(self.rollups()),
                    since_date(now as int, days as int),
                ));
                r
            },
            None => Err(StorageError::Clock),
        }
    }

    /// The trend by day over all skills as of the time `now`: for each
    /// date from that of `now - days * 86400` on that has a rollup, the
    /// total of the rollups of that date, the dates in ascending order.
    /// A date without a rollup has no entry.
    pub fn daily_trend_at(&self, now: i64, days: i64) -> (r: Vec<DailyStats>)
        requires
            self.wf(),
        ensures
            is_daily_trend(
                daily_views(r@),
                daily_views(self.rollups()),
                since_date(now as int, days as int),
            ),
    {
        let since = window_date(now, days);
        daily_trend(&self.daily, &since)
    }

    /// The trend of the success rate for the trailing `days` days, as of
    /// the time of the system clock; see
    /// [`AnalyticsStore::success_rate_trend_at`].
    pub fn get_success_rate_trend(&self, skill_id: Option<&str>, days: i64) -> (r: Result<
        Vec<DailyStats>,
        StorageError,
    >)
        requires
            self.wf(),
        ensures
            r matches Err(e) ==> e == StorageError::Clock,
            r is Ok ==> exists|now: i64| #[trigger]
                is_success_rate_trend(
                    daily_views(r->Ok_0@),
                    daily_views(self.rollups()),
                    skill_id,
                    since_date(now as int, days as int),
                ),
    {
        match unix_now() {
            Some(now) => {
                let r: Result<Vec<DailyStats>, StorageError> = Ok(
                    self.success_rate_trend_at(skill_id, now, days),
                );
                assert(is_success_rate_trend(
                    daily_views(r->Ok_0@),
                    daily_views(self.rollups()),
                    skill_id,
                    since_date(now as int, days as int),
                ));
                r
            },
            None => Err(StorageError::Clock),
        }
    }

    /// The trend of the success rate as of the time `now`: for a skill,
    /// its rollups from the date of `now - days * 86400` on, percentiles
    /// included, the dates in ascending order; for no skill, the trend by
    /// day over all skills, which has no percentiles.
    pub fn success_rate_trend_at(&self, skill_id: Option<&str>, now: i64, days: i64) -> (r: Vec<
        DailyStats,
    >)
        requires
            self.wf(),
        ensures
            is_success_rate_trend(
                daily_views(r@),
                daily_views(self.rollups()),
                skill_id,
                since_date(now as int, days as int),
            ),
    {
        let since = window_date(now, days);
        match skill_id {
            Some(skill) => skill_trend(&self.daily, skill, &since),
            None => daily_trend(&self.daily, &since),
        }
    }

    /// The summary of costs by skill for the trailing `days` days, as of
    /// the time of the system clock; see [`cost_summary`].
    pub fn get_cost_summary(&self, days: i64) -> (r: Result<Vec<TopSkillEntry>, StorageError>)
        requires
            self.wf(),
        ensures
            r matches Err(e) ==> e == StorageError::Clock,
            r is Ok ==> exists|now: i64, order: Seq<usize>| #[trigger]
                is_cost_summary(
                    r->Ok_0@,
                    daily_views(self.rollups()),
                    since_date(now as int, days as int),
                    order,
                ),
    {
        match unix_now() {
            Some(now) => {
                let summary = self.cost_summary_at(now, days);
                proof {
                    let order = choose|order: Seq<usize>| #[trigger]
                        is_cost_summary(
                            summary@,
                            daily_views(self.rollups()),
                            since_date(now as int, days as int),
                            order,
                        );
                    assert(is_cost_summary(
                        summary@,
                        daily_views(self.rollups()),
                        since_date(now as int, days as int),
                        order,
                    ));
                }
                let r: Result<Vec<TopSkillEntry>, StorageError> = Ok(summary);
                assert(r->Ok_0@ == summary@);
                r
            },
            None => Err(StorageError::Clock),
        }
    }

    /// The summary of costs by skill as of the time `now`, over the
    /// rollups from the date of `now - days * 86400` on; see
    /// [`cost_summary`].
    pub fn cost_summary_at(&self, now: i64, days: i64) -> (r: Vec<TopSkillEntry>)
        requires
            self.wf(),
        ensures
            exists|order: Seq<usize>| #[trigger]
                is_cost_summary(
                    r@,
                    daily_views(self.rollups()),
                    since_date(now as int, days as int),
                    order,
                ),
    {
        let since = window_date(now, days);
        cost_summary(&self.daily, &since)
    }

    /// The analysis of callers over the trailing `days` days, as of the
    /// time of the system clock; see
    /// [`AnalyticsStore::caller_analysis_at`].
    pub fn get_caller_analysis(&self, days: i64) -> (r: Result<Vec<CallerDependency>, StorageError>)
        requires
            self.wf(),
        ensures
            r matches Err(e) ==> e == StorageError::Clock || e == StorageError::MissingValue,
            r is Ok ==> exists|now: i64, order: Seq<usize>| #[trigger]
                is_caller_analysis(
                    r->Ok_0@,
                    called(self.rows(), Scope::trailing(now as int, days as int)),
                    order,
                ),
    {
        match unix_now() {
            Some(now) => {
                let r = self.caller_analysis_at(now, days);
                proof {
                    if r is Ok {
                        let rows = called(self.rows(), Scope::trailing(now as int, days as int));
                        let order = choose|order: Seq<usize>| #[trigger]
                            is_caller_analysis(r->Ok_0@, rows, order);
                        assert(is_caller_analysis(
                            r->Ok_0@,
                            called(self.rows(), Scope::trailing(now as int, days as int)),
                            order,
                        ));
                    }
                }
                r
            },
            None => Err(StorageError::Clock),
        }
    }

    /// The analysis of callers as of the time `now`: the combinations of
    /// caller, tool and skill among the events in `[now - days * 86400,
    /// now)` that name their caller, each with the number of its events,
    /// the largest number first. It fails where one of these events
    /// names no tool.
    pub fn caller_analysis_at(&self, now: i64, days: i64) -> (r: Result<
        Vec<CallerDependency>,
        StorageError,
    >)
        requires
            self.wf(),
        ensures
            r matches Err(e) ==> e == StorageError::MissingValue,
            r is Err <==> exists|i: int|
                0 <= i < called(self.rows(), Scope::trailing(now as int, days as int)).len()
                    && lacks_tool()(
                    #[trigger] called(self.rows(), Scope::trailing(now as int, days as int))[i],
                ),
            r is Ok ==> exists|order: Seq<usize>| #[trigger]
                is_caller_analysis(
                    r->Ok_0@,
                    called(self.rows(), Scope::trailing(now as int, days as int)),
                    order,
                ),
    {
        let w = Window::trailing(now, days);
        caller_analysis(&self.events, &w)
    }

    /// The analysis of shared users over the trailing `days` days, as of
    /// the time of the system clock; see [`user_retention`].
    pub fn get_user_retention(&self, days: i64) -> (r: Result<Vec<UserRetentionPair>, StorageError>)
        requires
            self.wf(),
        ensures
            r matches Err(e) ==> e == StorageError::Clock,
            r is Ok ==> exists|now: i64, order: Seq<usize>| #[trigger]
                is_user_retention(
                    r->Ok_0@,
                    self.rows(),
                    Scope::trailing(now as int, days as int),
                    order,
                ),
    {
        match unix_now() {
            Some(now) => {
                let pairs = self.user_retention_at(now, days);
                proof {
                    let order = choose|order: Seq<usize>| #[trigger]
                        is_user_retention(
                            pairs@,
                            self.rows(),
                            Scope::trailing(now as int, days as int),
                            order,
                        );
                    assert(is_user_retention(
                        pairs@,
                        self.rows(),
                        Scope::trailing(now as int, days as int),
                        order,
                    ));
                }
                let r: Result<Vec<UserRetentionPair>, StorageError> = Ok(pairs);
                assert(r->Ok_0@ == pairs@);
                r
            },
            None => Err(StorageError::Clock),
        }
    }

    /// The analysis of shared users as of the time `now`, over the
    /// events in `[now - days * 86400, now)`; see [`user_retention`].
    pub fn user_retention_at(&self, now: i64, days: i64) -> (r: Vec<UserRetentionPair>)
        requires
            self.wf(),
        ensures
            exists|order: Seq<usize>| #[trigger]
                is_user_retention(
                    r@,
                    self.rows(),
                    Scope::trailing(now as int, days as int),
                    order,
                ),
    {
        let w = Window::trailing(now, days);
        user_retention(&self.events, &w)
    }

    /// Marks the alert with the id as resolved at `now`, unless it was
    /// resolved before. Where no alert has the id, nothing changes.
    /// Alerts are resolved in no other way: an alert stays unresolved,
    /// and keeps later alerts of its skill and type from being recorded,
    /// until this is called for it.
    pub fn resolve_alert(&mut self, alert_id: &str, now: i64) -> (r: Result<(), StorageError>)
        requires
            old(self).wf(),
        ensures
            final(self).wf(),
            r is Ok,
            final(self).rows() == old(self).rows(),
            final(self).rollups() == old(self).rollups(),
            final(self).limit() == old(self).limit(),
            final(self).version() == old(self).version(),
            final(self).alert_rows() == with_resolved(old(self).alert_rows(), alert_id@, now),
    {
        let ghost before = self.alert_rows();
        match self.find_alert(alert_id) {
            Some(i) => {
                let a = &self.alerts[i];
                let marked = AnalyticsAlert {
                    id: a.id.clone(),
                    skill_id: a.skill_id.clone(),
                    alert_type: a.alert_type.clone(),
                    severity: a.severity.clone(),
                    message: a.message.clone(),
                    detected_at: a.detected_at,
                    resolved_at: match a.resolved_at {
                        Some(earlier) => Some(earlier),
                        None => Some(now),
                    },
                    acknowledged: a.acknowledged,
                };
                self.alerts.set(i, marked);
                proof {
                    let after = self.alert_rows();
                    assert forall|k: int| 0 <= k < after.len() implies after[k] == with_resolved(
                        before,
                        alert_id@,
                        now,
                    )[k] by {
                        if k != i {
                            if k < i {
                                assert(before[k].id@ != before[i as int].id@);
                            } else {
                                assert(before[i as int].id@ != before[k].id@);
                            }
                        }
                    }
                    assert(after =~= with_resolved(before, alert_id@, now));
                    assert forall|x: int, y: int| 0 <= x < y < after.len() implies (
                    #[trigger] after[x]).id@ != (#[trigger] after[y]).id@ by {
                        assert(before[x].id@ != before[y].id@);
                    }
                    assert forall|x: int, y: int| 0 <= x < y < after.len() implies !is_open(
                        #[trigger] after[y],
                        (#[trigger] after[x]).skill_id@,
                        after[x].alert_type@,
                    ) || after[x].resolved_at is Some by {
                        assert(!is_open(before[y], before[x].skill_id@, before[x].alert_type@)
                            || before[x].resolved_at is Some);
                    }
                }
            },
            None => {
                assert(before =~= with_resolved(before, alert_id@, now));
            },
        }
        Ok(())
    }

    /// Puts back an alert that was stored before, as it is. It is
    /// refused where an alert has its id, or where it is unresolved and
    /// an unresolved alert of its skill and type is stored.
    pub fn restore_alert(&mut self, alert: AnalyticsAlert) -> (r: Result<(), StorageError>)
        requires
            old(self).wf(),
        ensures
            final(self).wf(),
            final(self).rows() == old(self).rows(),
            final(self).rollups() == old(self).rollups(),
            final(self).limit() == old(self).limit(),
            final(self).version() == old(self).version(),
            r is Err <==> has_alert_id(old(self).alert_rows(), alert.id@) || (alert.resolved_at
                is None && has_open_alert(
                old(self).alert_rows(),
                alert.skill_id@,
                alert.alert_type@,
            )),
            match r {
                Ok(_) => final(self).alert_rows() == old(self).alert_rows().push(alert),
                Err(e) => e == StorageError::DuplicateKey && final(self).alert_rows() == old(self).alert_rows(),
            },
    {
        if self.find_alert(alert.id.as_str()).is_some() {
            return Err(StorageError::DuplicateKey);
        }
        if alert.resolved_at.is_none() && self.find_open_alert(
            alert.skill_id.as_str(),
            alert.alert_type.as_str(),
        ).is_some() {
            return Err(StorageError::DuplicateKey);
        }
        let ghost before = self.alert_rows();
        self.alerts.push(alert);
        proof {
            let after = self.alert_rows();
            assert forall|i: int, j: int| 0 <= i < j < after.len() implies !is_open(
                #[trigger] after[j],
                (#[trigger] after[i]).skill_id@,
                after[i].alert_type@,
            ) || after[i].resolved_at is Some by {
                if j == before.len() && alert.resolved_at is None && before[i].resolved_at is None {
                    assert(!is_open(before[i], alert.skill_id@, alert.alert_type@));
                }
            }
        }
        Ok(())
    }

    /// Puts back a rollup that was stored before, as it is. It is refused
    /// where the table of rollups is full, where its figures are such as
    /// no table of events can give, or where a rollup of its skill and
    /// date is stored.
    pub fn restore_rollup(&mut self, stat: DailyStats) -> (r: Result<(), StorageError>)
        requires
            old(self).wf(),
        ensures
            final(self).wf(),
            final(self).rows() == old(self).rows(),
            final(self).alert_rows() == old(self).alert_rows(),
            final(self).limit() == old(self).limit(),
            final(self).version() == old(self).version(),
            match r {
                Ok(_) => final(self).rollups() == old(self).rollups().push(stat),
                Err(_) => final(self).rollups() == old(self).rollups(),
            },
            r == (if old(self).rollups().len() >= old(self).limit() {
                Err::<(), StorageError>(StorageError::Full)
            } else if !stat_wf(stat@) {
                Err::<(), StorageError>(StorageError::Corrupt)
            } else if has_key(daily_views(old(self).rollups()), stat.skill_id@, stat.date@) {
                Err::<(), StorageError>(StorageError::DuplicateKey)
            } else {
                Ok::<(), StorageError>(())
            }),
    {
        if self.daily.len() >= self.capacity {
            return Err(StorageError::Full);
        }
        if !rollup_is_sound(&stat) {
            return Err(StorageError::Corrupt);
        }
        if crate::rollup::is_among(&self.daily, stat.skill_id.as_str(), stat.date.as_str()) {
            return Err(StorageError::DuplicateKey);
        }
        let ghost before = daily_views(self.rollups());
        self.daily.push(stat);
        proof {
            let after = daily_views(self.rollups());
            assert(after =~= before.push(stat@));
            assert forall|i: int, j: int| 0 <= i < j < after.len() implies !((
            #[trigger] after[i]).skill_id == (#[trigger] after[j]).skill_id && after[i].date
                == after[j].date) by {
                if j == before.len() {
                    assert(before[i].skill_id != stat@.skill_id || before[i].date != stat@.date);
                }
            }
        }
        Ok(())
    }
}

/// The users of some events are as many as the distinct user ids, and no
/// more than the events.
pub proof fn lemma_users_bound(events: Seq<SkillEventRow>)
    ensures
        users(events).len() == distinct(events.map_values(user_of())).len(),
        users(events).len() <= events.len(),
{
    lemma_distinct(events.map_values(user_of()));
}

/// Whether the figures of a rollup are such as a table of events can
/// give.
pub fn rollup_is_sound(stat: &DailyStats) -> (r: bool)
    ensures
        r == stat_wf(stat@),
{
    let counts_fit = 0 <= stat.total_calls && stat.total_calls <= 0x7fff_ffff && 0
        <= stat.success_count && stat.success_count <= 0x7fff_ffff && 0 <= stat.fail_count
        && stat.fail_count <= 0x7fff_ffff && 0 <= stat.unique_users && stat.unique_users
        <= 0x7fff_ffff && 0 <= stat.thumbs_up && stat.thumbs_up <= 0x7fff_ffff && 0
        <= stat.thumbs_down && stat.thumbs_down <= 0x7fff_ffff;
    let cost_fits = -0x3fff_ffff_8000_0000_0000_0000 <= stat.total_cost_micro_usd
        && stat.total_cost_micro_usd <= 0x3fff_ffff_7fff_ffff_8000_0001;
    let mean_fits = match stat.avg_ms {
        Some(m) => 0 < m.den && m.den <= 0x7fff_ffff && -0x3fff_ffff_8000_0000_0000_0000 <= m.num
            && m.num <= 0x3fff_ffff_7fff_ffff_8000_0001,
        None => true,
    };
    counts_fit && cost_fits && mean_fits
}

} // verus!
