//! Detection of anomalies in the recent events of a skill.
//!
//! Two checks look at the last hour of one skill. A failure spike is more
//! than twenty calls of which more than a tenth failed. A latency spike is
//! a 95th percentile of the durations that is more than three times that
//! of the same hour one day earlier. Either is recorded as an alert,
//! unless an unresolved alert of the same skill and type is stored.
//! No check resolves an alert: it stays unresolved, and keeps later
//! detections of its type from being recorded, until it is resolved by
//! hand, see [`AnalyticsStore::resolve_alert`].

use vstd::prelude::*;
use crate::analytics_store::{
    alerts_wf, has_alert_id, has_open_alert, is_open, open_for, records, AnalyticsStore,
};
use crate::clock::unix_now;
use crate::event::{durations, failed, scoped, Scope, SkillEventRow, Window};
use crate::ident::new_id;
use crate::percentile::{nearest_rank, percentile};
use crate::stats::{AnalyticsAlert, StorageError};
use crate::tally::{collect_durations, count_events, count_failed};
use crate::distinct::texts;
use crate::text::{decimal, decimal_string};

verus! {

/// The type of a failure-spike alert.
pub const FAILURE_SPIKE: &'static str = "failure_spike";

/// The type of a latency-spike alert.
pub const LATENCY_SPIKE: &'static str = "latency_spike";

/// The severity of a failure spike.
pub const CRITICAL: &'static str = "critical";

/// The severity of a latency spike.
pub const WARNING: &'static str = "warning";

/// The events of a skill in the hour that ends at `now`: those from
/// `now - 3600` on and before `now`.
pub open spec fn last_hour(skill: Seq<char>, now: int) -> Scope {
    Scope { skill: Some(skill), start: now - 3600, end: Some(now) }
}

/// The events of a skill in the hour that ends one day before `now`.
pub open spec fn hour_a_day_before(skill: Seq<char>, now: int) -> Scope {
    Scope { skill: Some(skill), start: now - 3600 - 86400, end: Some(now - 86400) }
}

/// Whether `failures` out of `total` calls are a failure spike: more than
/// twenty calls, and more than a tenth of them failed.
pub open spec fn failure_spike(total: int, failures: int) -> bool {
    total > 20 && failures * 10 > total
}

/// The share `part / whole` in tenths of a percent, rounded to the
/// nearest, a half upwards.
pub open spec fn per_mille(part: int, whole: int) -> int {
    (part * 2000 + whole) / (2 * whole)
}

/// The message of a failure spike.
pub open spec fn failure_message(skill: Seq<char>, failures: int, total: int) -> Seq<char> {
    let share = per_mille(failures, total);
    "Skill '"@ + skill + "' failure rate is "@ + decimal(share / 10) + "."@ + decimal(share % 10)
        + "% ("@ + decimal(failures) + "/"@ + decimal(total) + ") in the last hour"@
}

/// The message of the failure spike of a skill at `now`, if there is one.
pub open spec fn failure_alert(events: Seq<SkillEventRow>, skill: Seq<char>, now: int) -> Option<
    Seq<char>,
> {
    let mine = scoped(events, last_hour(skill, now));
    let total = mine.len() as int;
    let failures = mine.filter(failed()).len() as int;
    if failure_spike(total, failures) {
        Some(failure_message(skill, failures, total))
    } else {
        None
    }
}

/// Whether a latency of `current` against `previous` is a latency spike:
/// the earlier one is above zero, and the current one more than three
/// times as large.
pub open spec fn latency_spike(current: int, previous: int) -> bool {
    previous > 0 && current > 3 * previous
}

/// By how many percent `current` lies above `previous`, rounded to the
/// nearest, a half upwards.
pub open spec fn percent_increase(current: int, previous: int) -> int {
    ((current - previous) * 200 + previous) / (2 * previous)
}

/// The message of a latency spike.
pub open spec fn latency_message(skill: Seq<char>, previous: int, current: int) -> Seq<char> {
    "Skill '"@ + skill + "' P95 latency spiked from "@ + decimal(previous) + "ms to "@ + decimal(
        current,
    ) + "ms ("@ + decimal(percent_increase(current, previous)) + "% increase)"@
}

/// The message of the latency spike of a skill at `now`, if there is one.
/// There is none unless both hours have a duration.
pub open spec fn latency_alert(events: Seq<SkillEventRow>, skill: Seq<char>, now: int) -> Option<
    Seq<char>,
> {
    let current = nearest_rank(durations(scoped(events, last_hour(skill, now))), 95);
    let previous = nearest_rank(durations(scoped(events, hour_a_day_before(skill, now))), 95);
    match (current, previous) {
        (Some(c), Some(p)) => if latency_spike(c as int, p as int) {
            Some(latency_message(skill, p as int, c as int))
        } else {
            None
        },
        _ => None,
    }
}

/// What a message says, if there is one.
pub open spec fn said(message: Option<String>) -> Option<Seq<char>> {
    match message {
        Some(m) => Some(m@),
        None => None,
    }
}

/// The messages of the spikes of a skill at `now`: that of the failure
/// spike first.
pub open spec fn spike_messages(events: Seq<SkillEventRow>, skill: Seq<char>, now: int) -> Seq<
    Seq<char>,
> {
    let failure = match failure_alert(events, skill, now) {
        Some(m) => seq![m],
        None => Seq::empty(),
    };
    let latency = match latency_alert(events, skill, now) {
        Some(m) => seq![m],
        None => Seq::empty(),
    };
    failure + latency
}

/// The anomaly checks.
pub struct AlertDetector;

impl AlertDetector {
    /// The message of the failure spike of a skill, as of the time of the
    /// system clock.
    pub fn check_failure_spike(store: &AnalyticsStore, skill_id: &str) -> (r: Result<
        Option<String>,
        StorageError,
    >)
        requires
            store.wf(),
        ensures
            r matches Err(e) ==> e == StorageError::Clock,
            r is Ok ==> exists|now: i64| said(r->Ok_0) == #[trigger] failure_alert(
                store.rows(),
                skill_id@,
                now as int,
            ),
    {
        match unix_now() {
            Some(now) => {
                let r: Result<Option<String>, StorageError> = Ok(
                    Self::failure_spike_at(store, skill_id, now),
                );
                assert(said(r->Ok_0) == failure_alert(store.rows(), skill_id@, now as int));
                r
            },
            None => Err(StorageError::Clock),
        }
    }

    /// The message of the failure spike of a skill at the time `now`, if
    /// there is one.
    pub fn failure_spike_at(store: &AnalyticsStore, skill_id: &str, now: i64) -> (r: Option<String>)
        requires
            store.wf(),
        ensures
            said(r) == failure_alert(store.rows(), skill_id@, now as int),
    {
        let w = Window {
            skill: Some(skill_id.to_string()),
            start: now as i128 - 3600,
            end: Some(now as i128),
        };
        assert(w@ == last_hour(skill_id@, now as int));
        proof {
            store.rows().lemma_filter_len(w@.pred());
        }
        let total = count_events(store.events(), &w);
        let failures = count_failed(store.events(), &w);
        if total > 20 && failures as u64 * 10 > total as u64 {
            let share: u64 = (failures as u64 * 2000 + total as u64) / (2 * total as u64);
            let mut msg = "Skill '".to_string();
            msg.append(skill_id);
            msg.append("' failure rate is ");
            msg.append(decimal_string((share / 10) as i128).as_str());
            msg.append(".");
            msg.append(decimal_string((share % 10) as i128).as_str());
            msg.append("% (");
            msg.append(decimal_string(failures as i128).as_str());
            msg.append("/");
            msg.append(decimal_string(total as i128).as_str());
            msg.append(") in the last hour");
            Some(msg)
        } else {
            None
        }
    }

    /// The message of the latency spike of a skill, as of the time of the
    /// system clock.
    pub fn check_latency_spike(store: &AnalyticsStore, skill_id: &str) -> (r: Result<
        Option<String>,
        StorageError,
    >)
        requires
            store.wf(),
        ensures
            r matches Err(e) ==> e == StorageError::Clock,
            r is Ok ==> exists|now: i64| said(r->Ok_0) == #[trigger] latency_alert(
                store.rows(),
                skill_id@,
                now as int,
            ),
    {
        match unix_now() {
            Some(now) => {
                let r: Result<Option<String>, StorageError> = Ok(
                    Self::latency_spike_at(store, skill_id, now),
                );
                assert(said(r->Ok_0) == latency_alert(store.rows(), skill_id@, now as int));
                r
            },
            None => Err(StorageError::Clock),
        }
    }

    /// The message of the latency spike of a skill at the time `now`, if
    /// there is one.
    pub fn latency_spike_at(store: &AnalyticsStore, skill_id: &str, now: i64) -> (r: Option<String>)
        requires
            store.wf(),
        ensures
            said(r) == latency_alert(store.rows(), skill_id@, now as int),
    {
        let hour = Window {
            skill: Some(skill_id.to_string()),
            start: now as i128 - 3600,
            end: Some(now as i128),
        };
        let before = Window {
            skill: Some(skill_id.to_string()),
            start: now as i128 - 3600 - 86400,
            end: Some(now as i128 - 86400),
        };
        assert(hour@ == last_hour(skill_id@, now as int));
        assert(before@ == hour_a_day_before(skill_id@, now as int));
        let current = percentile(&collect_durations(store.events(), &hour), 95);
        let previous = percentile(&collect_durations(store.events(), &before), 95);
        match (current, previous) {
            (Some(c), Some(p)) => {
                if p > 0 && c as i128 > 3 * (p as i128) {
                    let increase: i128 = ((c as i128 - p as i128) * 200 + p as i128) / (2 * (
                    p as i128));
                    let mut msg = "Skill '".to_string();
                    msg.append(skill_id);
                    msg.append("' P95 latency spiked from ");
                    msg.append(decimal_string(p as i128).as_str());
                    msg.append("ms to ");
                    msg.append(decimal_string(c as i128).as_str());
                    msg.append("ms (");
                    msg.append(decimal_string(increase).as_str());
                    msg.append("% increase)");
                    Some(msg)
                } else {
                    None
                }
            },
            _ => None,
        }
    }

    /// Runs both checks on a skill as of the time of the system clock and
    /// records what they find; see [`AlertDetector::run_checks_at`]. The
    /// ids of the alerts are drawn afresh. It fails where the clock
    /// cannot be read, and then nothing is recorded, or where an id that
    /// was drawn is taken.
    pub fn run_checks(store: &mut AnalyticsStore, skill_id: &str) -> (r: Result<
        Vec<String>,
        StorageError,
    >)
        requires
            old(store).wf(),
        ensures
            final(store).wf(),
            final(store).rows() == old(store).rows(),
            final(store).rollups() == old(store).rollups(),
            final(store).limit() == old(store).limit(),
            final(store).version() == old(store).version(),
            old(store).alert_rows().is_prefix_of(final(store).alert_rows()),
            final(store).alert_rows().len() <= old(store).alert_rows().len() + 2,
            forall|k: int|
                old(store).alert_rows().len() <= k < final(store).alert_rows().len() ==> (
                #[trigger] final(store).alert_rows()[k]).skill_id@ == skill_id@,
            match r {
                Err(StorageError::Clock) => final(store).alert_rows() == old(store).alert_rows(),
                _ => exists|now: i64, failure_id: Seq<char>, latency_id: Seq<char>| #[trigger]
                    is_run(
                        old(store).rows(),
                        old(store).alert_rows(),
                        skill_id@,
                        now,
                        failure_id,
                        latency_id,
                        run_view(r),
                        final(store).alert_rows(),
                    ),
            },
    {
        match unix_now() {
            Some(now) => {
                let failure_id = new_id();
                let latency_id = new_id();
                let ghost fid = failure_id@;
                let ghost lid = latency_id@;
                let r = Self::run_checks_at(store, skill_id, now, failure_id, latency_id);
                proof {
                    assert(is_run(
                        old(store).rows(),
                        old(store).alert_rows(),
                        skill_id@,
                        now,
                        fid,
                        lid,
                        run_view(r),
                        final(store).alert_rows(),
                    ));
                }
                r
            },
            None => Err(StorageError::Clock),
        }
    }

    /// Runs both checks on a skill at the time `now` and records what
    /// they find, the failure spike first, under the ids given. A spike
    /// is recorded unless an unresolved alert of its type is stored for
    /// the skill. The result lists the messages of the spikes found,
    /// whether they were recorded or not. The run fails where a spike is
    /// to be recorded under an id that a stored alert has; what was
    /// recorded before stays.
    pub fn run_checks_at(
        store: &mut AnalyticsStore,
        skill_id: &str,
        now: i64,
        failure_id: String,
        latency_id: String,
    ) -> (r: Result<Vec<String>, StorageError>)
        requires
            old(store).wf(),
        ensures
            final(store).wf(),
            final(store).rows() == old(store).rows(),
            final(store).rollups() == old(store).rollups(),
            final(store).limit() == old(store).limit(),
            final(store).version() == old(store).version(),
            old(store).alert_rows().is_prefix_of(final(store).alert_rows()),
            final(store).alert_rows().len() <= old(store).alert_rows().len() + 2,
            forall|k: int|
                old(store).alert_rows().len() <= k < final(store).alert_rows().len() ==> (
                #[trigger] final(store).alert_rows()[k]).skill_id@ == skill_id@,
            r matches Err(e) ==> e == StorageError::DuplicateKey,
            r is Err <==> run_fails(
                old(store).rows(),
                old(store).alert_rows(),
                skill_id@,
                now,
                failure_id@,
                latency_id@,
            ),
            is_run(
                old(store).rows(),
                old(store).alert_rows(),
                skill_id@,
                now,
                failure_id@,
                latency_id@,
                run_view(r),
                final(store).alert_rows(),
            ),
    {
        let mut found: Vec<String> = Vec::new();
        let ghost events = store.rows();
        let ghost before = store.alert_rows();
        let ghost fid = failure_id@;
        let ghost lid = latency_id@;
        let ghost first = records_failure(events, before, skill_id@, now);
        proof {
            lemma_spike_types();
        }
        match Self::failure_spike_at(store, skill_id, now) {
            Some(msg) => {
                match store.insert_alert(
                    failure_id,
                    skill_id,
                    FAILURE_SPIKE,
                    CRITICAL,
                    msg.as_str(),
                    now,
                ) {
                    Ok(_) => {},
                    Err(e) => {
                        return Err(e);
                    },
                }
                found.push(msg);
            },
            None => {},
        }
        let ghost middle = store.alert_rows();
        proof {
            assert(before.is_prefix_of(middle)) by {
                if middle.len() > before.len() {
                    assert(middle.drop_last() == before);
                }
            }
            assert(middle.len() == before.len() + (if first { 1int } else { 0int }));
            if first {
                let row = middle[before.len() as int];
                assert(row == middle.last());
                assert(!is_open(row, skill_id@, LATENCY_SPIKE@));
                assert(has_open_alert(middle, skill_id@, LATENCY_SPIKE@) <==> has_open_alert(
                    before,
                    skill_id@,
                    LATENCY_SPIKE@,
                )) by {
                    if has_open_alert(middle, skill_id@, LATENCY_SPIKE@) {
                        let w = choose|w: int|
                            0 <= w < middle.len() && is_open(
                                #[trigger] middle[w],
                                skill_id@,
                                LATENCY_SPIKE@,
                            );
                        assert(is_open(before[w], skill_id@, LATENCY_SPIKE@));
                    }
                    if has_open_alert(before, skill_id@, LATENCY_SPIKE@) {
                        let w = choose|w: int|
                            0 <= w < before.len() && is_open(
                                #[trigger] before[w],
                                skill_id@,
                                LATENCY_SPIKE@,
                            );
                        assert(is_open(middle[w], skill_id@, LATENCY_SPIKE@));
                    }
                }
                assert(has_alert_id(middle, lid) <==> has_alert_id(before, lid) || lid == fid) by {
                    if has_alert_id(middle, lid) {
                        let w = choose|w: int|
                            0 <= w < middle.len() && (#[trigger] middle[w]).id@ == lid;
                        if w < before.len() {
                            assert(before[w].id@ == lid);
                        }
                    }
                    if has_alert_id(before, lid) {
                        let w = choose|w: int|
                            0 <= w < before.len() && (#[trigger] before[w]).id@ == lid;
                        assert(middle[w].id@ == lid);
                    }
                    if lid == fid {
                        assert(middle[before.len() as int].id@ == lid);
                    }
                }
            } else {
                assert(middle == before);
            }
        }
        match Self::latency_spike_at(store, skill_id, now) {
            Some(msg) => {
                match store.insert_alert(
                    latency_id,
                    skill_id,
                    LATENCY_SPIKE,
                    WARNING,
                    msg.as_str(),
                    now,
                ) {
                    Ok(_) => {},
                    Err(e) => {
                        return Err(e);
                    },
                }
                found.push(msg);
            },
            None => {},
        }
        proof {
            let after = store.alert_rows();
            assert(middle.is_prefix_of(after)) by {
                if after.len() > middle.len() {
                    assert(after.drop_last() == middle);
                }
            }
            assert(before.is_prefix_of(after));
            assert(texts(found@) =~= spike_messages(events, skill_id@, now as int));
            if after.len() > middle.len() {
                assert(after[middle.len() as int] == after.last());
            }
        }
        Ok(found)
    }
}

/// What a run of the checks came to, by what its messages say.
pub open spec fn run_view(r: Result<Vec<String>, StorageError>) -> Result<
    Seq<Seq<char>>,
    StorageError,
> {
    match r {
        Ok(messages) => Ok(texts(messages@)),
        Err(e) => Err(e),
    }
}

/// Whether a run records a failure spike: there is one, and no
/// unresolved alert of that type is stored for the skill.
pub open spec fn records_failure(
    events: Seq<SkillEventRow>,
    alerts: Seq<AnalyticsAlert>,
    skill: Seq<char>,
    now: i64,
) -> bool {
    failure_alert(events, skill, now as int) is Some && !has_open_alert(
        alerts,
        skill,
        FAILURE_SPIKE@,
    )
}

/// Whether a run records a latency spike: there is one, and no
/// unresolved alert of that type is stored for the skill.
pub open spec fn records_latency(
    events: Seq<SkillEventRow>,
    alerts: Seq<AnalyticsAlert>,
    skill: Seq<char>,
    now: i64,
) -> bool {
    latency_alert(events, skill, now as int) is Some && !has_open_alert(
        alerts,
        skill,
        LATENCY_SPIKE@,
    )
}

/// Whether the failure spike of a run is refused: it is to be recorded
/// under an id that a stored alert has.
pub open spec fn failure_refused(
    events: Seq<SkillEventRow>,
    alerts: Seq<AnalyticsAlert>,
    skill: Seq<char>,
    now: i64,
    failure_id: Seq<char>,
) -> bool {
    records_failure(events, alerts, skill, now) && has_alert_id(alerts, failure_id)
}

/// Whether the latency spike of a run is refused: it is to be recorded
/// under an id that a stored alert has, or that the failure spike of the
/// same run was recorded under.
pub open spec fn latency_refused(
    events: Seq<SkillEventRow>,
    alerts: Seq<AnalyticsAlert>,
    skill: Seq<char>,
    now: i64,
    failure_id: Seq<char>,
    latency_id: Seq<char>,
) -> bool {
    records_latency(events, alerts, skill, now) && (has_alert_id(alerts, latency_id) || (
    records_failure(events, alerts, skill, now) && latency_id == failure_id))
}

/// Whether a run of the checks fails.
pub open spec fn run_fails(
    events: Seq<SkillEventRow>,
    alerts: Seq<AnalyticsAlert>,
    skill: Seq<char>,
    now: i64,
    failure_id: Seq<char>,
    latency_id: Seq<char>,
) -> bool {
    failure_refused(events, alerts, skill, now, failure_id) || latency_refused(
        events,
        alerts,
        skill,
        now,
        failure_id,
        latency_id,
    )
}

/// Whether `outcome` and `after` are what a run of the checks on a skill
/// at `now` comes to, over the events and the alerts `before`, under the
/// two ids. A refused failure spike fails the run and records nothing.
/// Else the failure spike is recorded where it is to be, then the
/// latency spike where it is to be and is not refused, and nothing else;
/// a refused latency spike fails the run, and else the run gives the
/// messages of the spikes found.
pub open spec fn is_run(
    events: Seq<SkillEventRow>,
    before: Seq<AnalyticsAlert>,
    skill: Seq<char>,
    now: i64,
    failure_id: Seq<char>,
    latency_id: Seq<char>,
    outcome: Result<Seq<Seq<char>>, StorageError>,
    after: Seq<AnalyticsAlert>,
) -> bool {
    let first = records_failure(events, before, skill, now);
    let second = records_latency(events, before, skill, now) && !latency_refused(
        events,
        before,
        skill,
        now,
        failure_id,
        latency_id,
    );
    if failure_refused(events, before, skill, now, failure_id) {
        outcome == Err::<Seq<Seq<char>>, StorageError>(StorageError::DuplicateKey) && after
            == before
    } else {
        let one = if first {
            1int
        } else {
            0int
        };
        let two = if second {
            1int
        } else {
            0int
        };
        &&& after.len() == before.len() + one + two
        &&& before.is_prefix_of(after)
        &&& first ==> records(
            after[before.len() as int],
            failure_id,
            skill,
            FAILURE_SPIKE@,
            CRITICAL@,
            failure_alert(events, skill, now as int)->0,
            now,
        )
        &&& second ==> records(
            after[before.len() + one],
            latency_id,
            skill,
            LATENCY_SPIKE@,
            WARNING@,
            latency_alert(events, skill, now as int)->0,
            now,
        )
        &&& outcome == if latency_refused(events, before, skill, now, failure_id, latency_id) {
            Err::<Seq<Seq<char>>, StorageError>(StorageError::DuplicateKey)
        } else {
            Ok::<Seq<Seq<char>>, StorageError>(spike_messages(events, skill, now as int))
        }
    }
}

/// The two types of alerts are different texts.
pub proof fn lemma_spike_types()
    ensures
        FAILURE_SPIKE@ != LATENCY_SPIKE@,
{
    reveal_strlit("failure_spike");
    reveal_strlit("latency_spike");
    assert(FAILURE_SPIKE@[0] == 'f');
    assert(LATENCY_SPIKE@[0] == 'l');
}

/// After a run that did not fail, an unresolved alert is stored for each
/// spike that was found.
pub proof fn lemma_run_leaves_alerts(
    events: Seq<SkillEventRow>,
    before: Seq<AnalyticsAlert>,
    skill: Seq<char>,
    now: i64,
    failure_id: Seq<char>,
    latency_id: Seq<char>,
    outcome: Result<Seq<Seq<char>>, StorageError>,
    after: Seq<AnalyticsAlert>,
)
    requires
        is_run(events, before, skill, now, failure_id, latency_id, outcome, after),
        outcome is Ok,
    ensures
        failure_alert(events, skill, now as int) is Some ==> has_open_alert(
            after,
            skill,
            FAILURE_SPIKE@,
        ),
        latency_alert(events, skill, now as int) is Some ==> has_open_alert(
            after,
            skill,
            LATENCY_SPIKE@,
        ),
{
    let first = records_failure(events, before, skill, now);
    if failure_alert(events, skill, now as int) is Some {
        if first {
            assert(is_open(after[before.len() as int], skill, FAILURE_SPIKE@));
        } else {
            let w = choose|w: int|
                0 <= w < before.len() && is_open(#[trigger] before[w], skill, FAILURE_SPIKE@);
            assert(is_open(after[w], skill, FAILURE_SPIKE@));
        }
    }
    if latency_alert(events, skill, now as int) is Some {
        if records_latency(events, before, skill, now) {
            let one = if first {
                1int
            } else {
                0int
            };
            assert(is_open(after[before.len() + one], skill, LATENCY_SPIKE@));
        } else {
            let w = choose|w: int|
                0 <= w < before.len() && is_open(#[trigger] before[w], skill, LATENCY_SPIKE@);
            assert(is_open(after[w], skill, LATENCY_SPIKE@));
        }
    }
}

/// In a store that has an unresolved alert of a skill and a type, exactly
/// one alert is unresolved and of that skill and type, however often the
/// condition was detected.
pub proof fn lemma_one_open_alert(alerts: Seq<AnalyticsAlert>, skill: Seq<char>, kind: Seq<char>)
    requires
        alerts_wf(alerts),
        has_open_alert(alerts, skill, kind),
    ensures
        alerts.filter(open_for(skill, kind)).len() == 1,
    decreases alerts.len(),
{
    reveal(Seq::filter);
    let last = alerts.last();
    let rest = alerts.drop_last();
    assert(alerts_wf(rest)) by {
        assert forall|i: int, j: int| 0 <= i < j < rest.len() implies (#[trigger] rest[i]).id@ != (
        #[trigger] rest[j]).id@ by {
            assert(alerts[i].id@ != alerts[j].id@);
        }
        assert forall|i: int, j: int| 0 <= i < j < rest.len() implies !is_open(
            #[trigger] rest[j],
            (#[trigger] rest[i]).skill_id@,
            rest[i].alert_type@,
        ) || rest[i].resolved_at is Some by {
            assert(!is_open(alerts[j], alerts[i].skill_id@, alerts[i].alert_type@)
                || alerts[i].resolved_at is Some);
        }
    }
    if is_open(last, skill, kind) {
        lemma_no_open_alert(rest, skill, kind, alerts);
    } else {
        let w = choose|w: int| 0 <= w < alerts.len() && is_open(#[trigger] alerts[w], skill, kind);
        assert(is_open(rest[w], skill, kind));
        lemma_one_open_alert(rest, skill, kind);
    }
}

/// Before the last unresolved alert of a skill and a type, no alert is
/// unresolved and of that skill and type.
proof fn lemma_no_open_alert(
    rest: Seq<AnalyticsAlert>,
    skill: Seq<char>,
    kind: Seq<char>,
    alerts: Seq<AnalyticsAlert>,
)
    requires
        alerts_wf(alerts),
        alerts.len() > 0,
        rest == alerts.drop_last(),
        is_open(alerts.last(), skill, kind),
    ensures
        rest.filter(open_for(skill, kind)).len() == 0,
{
    let found = rest.filter(open_for(skill, kind));
    if found.len() > 0 {
        rest.lemma_filter_pred(open_for(skill, kind), 0);
        assert(found.contains(found[0]));
        rest.lemma_filter_contains_rev(open_for(skill, kind), found[0]);
        assert(rest.contains(found[0]));
        let w = choose|w: int| 0 <= w < rest.len() && rest[w] == found[0];
        assert(is_open(alerts[w], skill, kind));
        assert(!is_open(alerts[alerts.len() - 1], alerts[w].skill_id@, alerts[w].alert_type@)
            || alerts[w].resolved_at is Some);
    }
}

} // verus!
