//! What holds of the engine as a whole, stated over the models that the
//! contracts of its functions use.

use vstd::prelude::*;
use crate::analytics_alert::{
    failure_alert, failure_spike, hour_a_day_before, is_run, latency_alert,
    lemma_one_open_alert, lemma_run_leaves_alerts, lemma_spike_types, FAILURE_SPIKE,
};
use crate::analytics_ingest::{took_in, IngestEvent};
use crate::analytics_store::{
    alerts_wf, has_id, has_open_alert, insert_all, insert_or_ignore, is_open, open_for,
    overview_of, rows_with_id, unique_ids,
};
use crate::stats::{AnalyticsAlert, StorageError};
use crate::event::{durations, scoped, succeeded, Scope, SkillEventRow};
use crate::ranking::{is_ranking, lemma_ranking_descends};
use crate::ratio::{rate_of, Ratio};
use crate::stats::TopSkillEntry;
use crate::top_skills::{call_counts, is_top_skills};

verus! {

/// Among rows with unique ids, an id that no row has is counted zero
/// times, and an id that a row has is counted once.
pub proof fn lemma_id_count(rows: Seq<SkillEventRow>, id: Seq<char>)
    requires
        unique_ids(rows),
    ensures
        rows_with_id(rows, id) == if has_id(rows, id) {
            1nat
        } else {
            0nat
        },
    decreases rows.len(),
{
    reveal(Seq::filter);
    if rows.len() > 0 {
        let rest = rows.drop_last();
        assert(unique_ids(rest)) by {
            assert forall|i: int, j: int| 0 <= i < j < rest.len() implies (#[trigger] rest[i]).id@
                != (#[trigger] rest[j]).id@ by {
                assert(rows[i].id@ != rows[j].id@);
            }
        }
        lemma_id_count(rest, id);
        if rows.last().id@ == id {
            assert(rows[rows.len() - 1].id@ == id);
            if has_id(rest, id) {
                let w = choose|w: int| 0 <= w < rest.len() && (#[trigger] rest[w]).id@ == id;
                assert(rows[w].id@ != rows[rows.len() - 1].id@);
            }
        } else {
            if has_id(rows, id) {
                let w = choose|w: int| 0 <= w < rows.len() && (#[trigger] rows[w]).id@ == id;
                assert(rest[w].id@ == id);
            }
            if has_id(rest, id) {
                let w = choose|w: int| 0 <= w < rest.len() && (#[trigger] rest[w]).id@ == id;
                assert(rows[w].id@ == id);
            }
        }
    }
}

/// Inserting an event leaves the ids unique and the id of the event on
/// exactly one row; inserting an event of that id once more, whatever
/// else it holds, changes nothing.
pub proof fn lemma_insert_idempotent(rows: Seq<SkillEventRow>, e: SkillEventRow, again: SkillEventRow)
    requires
        unique_ids(rows),
        again.id@ == e.id@,
    ensures
        unique_ids(insert_or_ignore(rows, e)),
        rows_with_id(insert_or_ignore(rows, e), e.id@) == 1,
        insert_or_ignore(insert_or_ignore(rows, e), again) == insert_or_ignore(rows, e),
{
    let once = insert_or_ignore(rows, e);
    if has_id(rows, e.id@) {
    } else {
        assert(once[rows.len() as int].id@ == e.id@);
        assert forall|i: int, j: int| 0 <= i < j < once.len() implies (#[trigger] once[i]).id@ != (
        #[trigger] once[j]).id@ by {
            if j == rows.len() {
                assert(rows[i].id@ != e.id@);
            } else {
                assert(rows[i].id@ != rows[j].id@);
            }
        }
    }
    assert(has_id(once, e.id@)) by {
        if has_id(rows, e.id@) {
        } else {
            assert(once[rows.len() as int].id@ == e.id@);
        }
    }
    lemma_id_count(once, e.id@);
}

/// Inserting a batch leaves the ids unique, keeps every row that was
/// stored, and leaves the id of each event of the batch on exactly one
/// row, however often the batch holds it.
pub proof fn lemma_insert_all(rows: Seq<SkillEventRow>, batch: Seq<SkillEventRow>)
    requires
        unique_ids(rows),
    ensures
        unique_ids(insert_all(rows, batch)),
        rows.is_prefix_of(insert_all(rows, batch)),
        insert_all(rows, batch).len() <= rows.len() + batch.len(),
        forall|k: int|
            0 <= k < batch.len() ==> rows_with_id(
                insert_all(rows, batch),
                (#[trigger] batch[k]).id@,
            ) == 1,
    decreases batch.len(),
{
    if batch.len() > 0 {
        let rest = batch.drop_last();
        let last = batch.last();
        lemma_insert_all(rows, rest);
        let before = insert_all(rows, rest);
        let after = insert_all(rows, batch);
        lemma_insert_idempotent(before, last, last);
        assert forall|k: int| 0 <= k < batch.len() implies rows_with_id(
            after,
            (#[trigger] batch[k]).id@,
        ) == 1 by {
            if k < rest.len() {
                assert(rest[k] == batch[k]);
                lemma_id_count(before, batch[k].id@);
                assert(has_id(before, batch[k].id@));
                let w = choose|w: int|
                    0 <= w < before.len() && (#[trigger] before[w]).id@ == batch[k].id@;
                assert(after[w].id@ == batch[k].id@);
                lemma_id_count(after, batch[k].id@);
            }
        }
    }
}

/// Whether a store of the limit has room for the rows.
pub open spec fn fits(rows: Seq<SkillEventRow>, limit: int) -> bool {
    rows.len() <= limit
}

/// Inserting a batch a second time changes nothing, so a store that had
/// room for the batch has room for it again.
pub proof fn lemma_insert_all_again(rows: Seq<SkillEventRow>, batch: Seq<SkillEventRow>)
    requires
        unique_ids(rows),
    ensures
        insert_all(insert_all(rows, batch), batch) == insert_all(rows, batch),
        forall|limit: int|
            insert_all(rows, batch).len() <= limit ==> #[trigger] fits(
                insert_all(insert_all(rows, batch), batch),
                limit,
            ),
{
    let once = insert_all(rows, batch);
    lemma_insert_all(rows, batch);
    lemma_insert_known(once, batch, batch.len() as int);
    assert(batch.take(batch.len() as int) =~= batch);
}

/// Inserting events whose ids are all stored changes nothing.
proof fn lemma_insert_known(rows: Seq<SkillEventRow>, batch: Seq<SkillEventRow>, n: int)
    requires
        unique_ids(rows),
        0 <= n <= batch.len(),
        forall|k: int| 0 <= k < batch.len() ==> rows_with_id(rows, (#[trigger] batch[k]).id@) == 1,
    ensures
        insert_all(rows, batch.take(n)) == rows,
    decreases n,
{
    if n > 0 {
        lemma_insert_known(rows, batch, n - 1);
        assert(batch.take(n).drop_last() =~= batch.take(n - 1));
        assert(batch.take(n).last() == batch[n - 1]);
        lemma_id_count(rows, batch[n - 1].id@);
    }
}

/// The success rate of an overview is the number of calls of its window
/// that succeeded over the number of its calls, and one over one for a
/// window without calls.
pub proof fn lemma_overview_success_rate(rows: Seq<SkillEventRow>, now: int, days: int)
    ensures
        ({
            let calls = scoped(rows, Scope::trailing(now, days));
            let total = calls.len() as int;
            let succeeded = calls.filter(succeeded()).len() as int;
            let rate = overview_of(rows, now, days).success_rate;
            &&& total > 0 ==> rate == (Ratio { num: succeeded as i128, den: total as i128 })
            &&& total == 0 ==> rate == (Ratio { num: 1, den: 1 })
            &&& 0 <= succeeded <= total
        }),
{
    scoped(rows, Scope::trailing(now, days)).lemma_filter_len(succeeded());
}

/// A ranking of skills never rises in its number of calls from one entry
/// to the next, whatever the events are.
pub proof fn lemma_top_skills_sorted(
    result: Seq<TopSkillEntry>,
    events: Seq<SkillEventRow>,
    scope: Scope,
    limit: int,
    order: Seq<usize>,
    i: int,
    j: int,
)
    requires
        is_top_skills(result, events, scope, limit, order),
        0 <= i <= j < result.len(),
    ensures
        result[i].call_count >= result[j].call_count,
{
    let keys = call_counts(events, scope);
    lemma_ranking_descends(keys, order, i, j);
}

/// The boundary of a failure spike: three failures among twenty-one calls
/// are one, and no number of failures among twenty calls or fewer is.
pub proof fn lemma_failure_spike_boundary(total: int, failures: int)
    ensures
        failure_spike(21, 3),
        total <= 20 ==> !failure_spike(total, failures),
        total > 20 ==> (failure_spike(total, failures) <==> failures * 10 > total),
{
}

/// Without a duration in the same hour one day earlier there is no
/// latency spike, whatever the durations of the last hour are.
pub proof fn lemma_latency_needs_both(events: Seq<SkillEventRow>, skill: Seq<char>, now: int)
    requires
        durations(scoped(events, hour_a_day_before(skill, now))).len() == 0,
    ensures
        latency_alert(events, skill, now) is None,
{
}

/// An event that is taken in under an id that no row has, with a time in
/// the trailing window, is counted exactly once: the calls of the window
/// are one more, and so are the calls of its skill.
pub proof fn lemma_insert_reflected_once(
    rows: Seq<SkillEventRow>,
    e: SkillEventRow,
    now: int,
    days: int,
)
    requires
        !has_id(rows, e.id@),
        now - days * 86400 <= e.timestamp < now,
    ensures
        scoped(insert_or_ignore(rows, e), Scope::trailing(now, days)).len() == scoped(
            rows,
            Scope::trailing(now, days),
        ).len() + 1,
        scoped(
            insert_or_ignore(rows, e),
            Scope::trailing(now, days).of_skill(e.skill_id@),
        ).len() == scoped(rows, Scope::trailing(now, days).of_skill(e.skill_id@)).len() + 1,
        insert_or_ignore(insert_or_ignore(rows, e), e) == insert_or_ignore(rows, e),
{
    let window = Scope::trailing(now, days);
    rows.lemma_filter_push(e, window.pred());
    rows.lemma_filter_push(e, window.of_skill(e.skill_id@).pred());
    let once = insert_or_ignore(rows, e);
    assert(once[rows.len() as int].id@ == e.id@);
}

/// One event from the wire that is taken in under an id that no row
/// has, with a time in the trailing window, is counted exactly once: the
/// calls of the overview are one more, and so are the calls of its skill.
pub proof fn lemma_taken_in_reflected_once(
    batch: Seq<IngestEvent>,
    rows: Seq<SkillEventRow>,
    events_before: Seq<SkillEventRow>,
    alerts_before: Seq<AnalyticsAlert>,
    limit: int,
    events_after: Seq<SkillEventRow>,
    alerts_after: Seq<AnalyticsAlert>,
    messages: Seq<Seq<char>>,
    failures: Seq<(Seq<char>, StorageError)>,
    now: int,
    days: int,
)
    requires
        batch.len() == 1,
        took_in(
            batch,
            rows,
            events_before,
            alerts_before,
            limit,
            events_after,
            alerts_after,
            messages,
            failures,
        ),
        !has_id(events_before, rows[0].id@),
        now - days * 86400 <= rows[0].timestamp < now,
        limit <= crate::analytics_store::MAX_EVENTS,
    ensures
        rows[0].skill_id@ == batch[0].skill_id@,
        overview_of(events_after, now, days).total_calls == overview_of(
            events_before,
            now,
            days,
        ).total_calls + 1,
        scoped(events_after, Scope::trailing(now, days).of_skill(batch[0].skill_id@)).len()
            == scoped(events_before, Scope::trailing(now, days).of_skill(batch[0].skill_id@)).len()
            + 1,
{
    assert(rows.drop_last() =~= Seq::<SkillEventRow>::empty());
    assert(insert_all(events_before, rows.drop_last()) == events_before);
    assert(rows.last() == rows[0]);
    assert(events_after == insert_or_ignore(events_before, rows[0]));
    assert(crate::analytics_ingest::is_row_of(batch[0], rows[0]));
    lemma_insert_reflected_once(events_before, rows[0], now, days);
    events_after.lemma_filter_len(Scope::trailing(now, days).pred());
}

/// A failure spike that is found by two runs in a row is recorded once:
/// where the first run did not fail, the second records no failure
/// spike, and after it exactly one unresolved failure spike of the skill
/// is stored.
pub proof fn lemma_spike_recorded_once(
    events: Seq<SkillEventRow>,
    later_events: Seq<SkillEventRow>,
    skill: Seq<char>,
    before: Seq<AnalyticsAlert>,
    between: Seq<AnalyticsAlert>,
    after: Seq<AnalyticsAlert>,
    first: (i64, Seq<char>, Seq<char>, Result<Seq<Seq<char>>, StorageError>),
    second: (i64, Seq<char>, Seq<char>, Result<Seq<Seq<char>>, StorageError>),
)
    requires
        alerts_wf(after),
        is_run(events, before, skill, first.0, first.1, first.2, first.3, between),
        is_run(later_events, between, skill, second.0, second.1, second.2, second.3, after),
        first.3 is Ok,
        failure_alert(events, skill, first.0 as int) is Some,
        failure_alert(later_events, skill, second.0 as int) is Some,
    ensures
        after.filter(open_for(skill, FAILURE_SPIKE@)).len() == 1,
        forall|k: int|
            between.len() <= k < after.len() ==> (#[trigger] after[k]).alert_type@
                != FAILURE_SPIKE@,
{
    lemma_spike_types();
    lemma_run_leaves_alerts(events, before, skill, first.0, first.1, first.2, first.3, between);
    assert(has_open_alert(between, skill, FAILURE_SPIKE@));
    assert(between.is_prefix_of(after));
    let w = choose|w: int|
        0 <= w < between.len() && is_open(#[trigger] between[w], skill, FAILURE_SPIKE@);
    assert(is_open(after[w], skill, FAILURE_SPIKE@));
    lemma_one_open_alert(after, skill, FAILURE_SPIKE@);
}

} // verus!
