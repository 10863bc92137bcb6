//! Daily rollups: what one day of one skill's events comes to.
//!
//! A rollup is computed from the events alone, so computing it again from
//! the same events gives the same rollup, and writing it again leaves the
//! table as it was.

use vstd::prelude::*;
use crate::calendar::{utc_date, utc_date_text};
use crate::distinct::{distinct, lemma_distinct, texts};
use crate::event::{
    costs, durations, failed, scoped, scored, skill_of, succeeded, users, user_of, Scope,
    SkillEventRow, Window,
};
use crate::percentile::{nearest_rank, percentile};
use crate::stats::{daily_views, DailyStats, DailyView};
use crate::tally::{
    collect_costs, collect_durations, count_events, count_failed, count_scored, count_succeeded,
    distinct_skills, distinct_users, lemma_total_bounds, sum_values, total,
};
use crate::text::str_eq;
use crate::top_skills::{mean, mean_of, skills_in};

verus! {

/// The largest number of events that one table of events holds.
pub const MAX_ROWS: usize = 0x7fff_ffff;

/// Whether an event happened on the date, as a predicate.
pub open spec fn on_date(date: Seq<char>) -> spec_fn(SkillEventRow) -> bool {
    |e: SkillEventRow| utc_date_text(e.timestamp as int) == Some(date)
}

/// The rollup of one skill over the events of one day.
pub open spec fn day_view(day: Seq<SkillEventRow>, date: Seq<char>, skill: Seq<char>) -> DailyView {
    let mine = scoped(day, Scope::whole_time().of_skill(skill));
    DailyView {
        skill_id: skill,
        date,
        total_calls: mine.len() as int,
        success_count: mine.filter(succeeded()).len() as int,
        fail_count: mine.filter(failed()).len() as int,
        p50_ms: nearest_rank(durations(mine), 50),
        p95_ms: nearest_rank(durations(mine), 95),
        p99_ms: nearest_rank(durations(mine), 99),
        avg_ms: mean(durations(mine)),
        unique_users: users(mine).len() as int,
        total_cost_micro_usd: total(costs(mine)),
        thumbs_up: mine.filter(scored(1i32)).len() as int,
        thumbs_down: mine.filter(scored(-1i32)).len() as int,
    }
}

/// The rollups of one day: one for each skill with an event on that day,
/// in the order of their first event.
pub open spec fn day_stats(events: Seq<SkillEventRow>, date: Seq<char>) -> Seq<DailyView> {
    let day = events.filter(on_date(date));
    skills_in(day, Scope::whole_time()).map_values(|skill: Seq<char>| day_view(day, date, skill))
}

/// Whether some rollup is of the skill and the date.
pub open spec fn has_key(stats: Seq<DailyView>, skill: Seq<char>, date: Seq<char>) -> bool {
    exists|k: int| 0 <= k < stats.len() && (#[trigger] stats[k]).skill_id == skill && stats[k].date == date
}

/// Whether a rollup is of a skill and date that none of `stats` is of, as
/// a predicate.
pub open spec fn kept(stats: Seq<DailyView>) -> spec_fn(DailyView) -> bool {
    |r: DailyView| !has_key(stats, r.skill_id, r.date)
}

/// The table of rollups after the rollups of one day were written: each
/// takes the place of the stored rollup of its skill and date, and comes
/// last.
pub open spec fn aggregated(rollups: Seq<DailyView>, events: Seq<SkillEventRow>, date: Seq<char>) -> Seq<
    DailyView,
> {
    let stats = day_stats(events, date);
    rollups.filter(kept(stats)) + stats
}

/// Whether no two rollups are of the same skill and date.
pub open spec fn unique_days(rollups: Seq<DailyView>) -> bool {
    forall|i: int, j: int|
        0 <= i < j < rollups.len() ==> !((#[trigger] rollups[i]).skill_id == (
        #[trigger] rollups[j]).skill_id && rollups[i].date == rollups[j].date)
}

/// Whether the figures of a rollup are such as a table of events can
/// give: counts between zero and the size of the table, and sums of as
/// many values of 64 bits at most.
pub open spec fn stat_wf(r: DailyView) -> bool {
    &&& 0 <= r.total_calls <= MAX_ROWS
    &&& 0 <= r.success_count <= MAX_ROWS
    &&& 0 <= r.fail_count <= MAX_ROWS
    &&& 0 <= r.unique_users <= MAX_ROWS
    &&& 0 <= r.thumbs_up <= MAX_ROWS
    &&& 0 <= r.thumbs_down <= MAX_ROWS
    &&& -MAX_ROWS * 0x8000_0000_0000_0000 <= r.total_cost_micro_usd <= MAX_ROWS
        * 0x7fff_ffff_ffff_ffff
    &&& r.avg_ms matches Some(m) ==> {
        &&& 0 < m.den <= MAX_ROWS
        &&& -MAX_ROWS * 0x8000_0000_0000_0000 <= m.num <= MAX_ROWS * 0x7fff_ffff_ffff_ffff
    }
}

/// Whether every rollup of the table is well formed.
pub open spec fn stats_wf(rollups: Seq<DailyView>) -> bool {
    forall|i: int| 0 <= i < rollups.len() ==> stat_wf(#[trigger] rollups[i])
}

/// The events that happened on the date, in stored order.
pub fn events_on(events: &Vec<SkillEventRow>, date: &str) -> (day: Vec<SkillEventRow>)
    ensures
        day@ == events@.filter(on_date(date@)),
        day.len() <= events.len(),
{
    let mut day: Vec<SkillEventRow> = Vec::new();
    let mut i: usize = 0;
    proof {
        reveal(Seq::filter);
        assert(events@.take(0).filter(on_date(date@)) =~= day@);
    }
    while i < events.len()
        invariant
            i <= events.len(),
            day.len() <= i,
            day@ == events@.take(i as int).filter(on_date(date@)),
        decreases events.len() - i,
    {
        proof {
            events@.lemma_take_succ_push(i as int);
            events@.take(i as int).lemma_filter_push(events@[i as int], on_date(date@));
        }
        match utc_date(events[i].timestamp) {
            Some(d) => {
                if str_eq(d.as_str(), date) {
                    day.push(events[i].clone());
                }
            },
            None => {},
        }
        i = i + 1;
    }
    proof {
        events@.lemma_take_len();
    }
    day
}

/// The rollup of one skill over the events of one day.
pub fn day_stat(day: &Vec<SkillEventRow>, date: &str, skill: &str) -> (r: DailyStats)
    requires
        day.len() <= MAX_ROWS,
    ensures
        r@ == day_view(day@, date@, skill@),
        stat_wf(r@),
{
    let w = Window::whole_time().of_skill(skill);
    let ghost mine = scoped(day@, w@);
    proof {
        day@.lemma_filter_len(w@.pred());
        crate::analytics_store::lemma_users_bound(mine);
    }
    let total_calls = count_events(day, &w);
    let success_count = count_succeeded(day, &w);
    let fail_count = count_failed(day, &w);
    let durations = collect_durations(day, &w);
    let costs = collect_costs(day, &w);
    let unique_users = distinct_users(day, &w).len();
    let thumbs_up = count_scored(day, &w, 1);
    let thumbs_down = count_scored(day, &w, -1);
    proof {
        lemma_total_bounds(costs@);
        lemma_total_bounds(durations@);
        lemma_scale(costs@.len() as int);
        lemma_scale(durations@.len() as int);
    }
    DailyStats {
        skill_id: skill.to_string(),
        date: date.to_string(),
        total_calls: total_calls as i64,
        success_count: success_count as i64,
        fail_count: fail_count as i64,
        p50_ms: percentile(&durations, 50),
        p95_ms: percentile(&durations, 95),
        p99_ms: percentile(&durations, 99),
        avg_ms: mean_of(&durations),
        unique_users: unique_users as i64,
        total_cost_micro_usd: sum_values(&costs),
        thumbs_up: thumbs_up as i64,
        thumbs_down: thumbs_down as i64,
    }
}

/// Sums of no more values than a table holds stay within that many times
/// the range of a value.
proof fn lemma_scale(n: int)
    requires
        0 <= n <= MAX_ROWS,
    ensures
        n * 0x7fff_ffff_ffff_ffff <= MAX_ROWS * 0x7fff_ffff_ffff_ffff,
        -MAX_ROWS * 0x8000_0000_0000_0000 <= -n * 0x8000_0000_0000_0000,
{
    assert(n * 0x7fff_ffff_ffff_ffff <= MAX_ROWS * 0x7fff_ffff_ffff_ffff) by (nonlinear_arith)
        requires
            0 <= n <= MAX_ROWS,
    ;
    assert(-MAX_ROWS * 0x8000_0000_0000_0000 <= -n * 0x8000_0000_0000_0000) by (nonlinear_arith)
        requires
            0 <= n <= MAX_ROWS,
    ;
}

/// The rollups of one day: one for each skill with an event on that day.
pub fn day_rollups(events: &Vec<SkillEventRow>, date: &str) -> (r: Vec<DailyStats>)
    requires
        events.len() <= MAX_ROWS,
    ensures
        daily_views(r@) == day_stats(events@, date@),
        stats_wf(daily_views(r@)),
        r.len() <= events.len(),
{
    let day = events_on(events, date);
    let w = Window::whole_time();
    let skills = distinct_skills(&day, &w);
    let ghost names = skills_in(day@, Scope::whole_time());
    let ghost view_of = |skill: Seq<char>| day_view(day@, date@, skill);
    assert(texts(skills@) == names);
    let mut out: Vec<DailyStats> = Vec::new();
    let mut k: usize = 0;
    assert(daily_views(out@) =~= names.take(0).map_values(view_of));
    while k < skills.len()
        invariant
            k <= skills.len(),
            day.len() <= MAX_ROWS,
            texts(skills@) == names,
            view_of == |skill: Seq<char>| day_view(day@, date@, skill),
            out@.len() == k,
            daily_views(out@) == names.take(k as int).map_values(view_of),
            stats_wf(daily_views(out@)),
        decreases skills.len() - k,
    {
        let ghost before = out@;
        let stat = day_stat(&day, date, skills[k].as_str());
        out.push(stat);
        proof {
            assert(names[k as int] == skills@[k as int]@);
            assert(daily_views(out@) =~= daily_views(before).push(stat@));
            names.lemma_take_succ_push(k as int);
            names.take(k as int).lemma_push_map_commute(view_of, names[k as int]);
        }
        k = k + 1;
    }
    proof {
        names.lemma_take_len();
    }
    out
}

/// Whether one of the rollups is of the skill and the date.
pub fn is_among(stats: &Vec<DailyStats>, skill: &str, date: &str) -> (r: bool)
    ensures
        r == has_key(daily_views(stats@), skill@, date@),
{
    let mut i: usize = 0;
    while i < stats.len()
        invariant
            i <= stats.len(),
            forall|k: int|
                0 <= k < i ==> !((#[trigger] daily_views(stats@)[k]).skill_id == skill@
                    && daily_views(stats@)[k].date == date@),
        decreases stats.len() - i,
    {
        if str_eq(stats[i].skill_id.as_str(), skill) && str_eq(stats[i].date.as_str(), date) {
            assert(daily_views(stats@)[i as int].skill_id == skill@);
            return true;
        }
        i = i + 1;
    }
    false
}

/// The table of rollups after `stats` were written: the stored rollups
/// of other skills and dates, followed by `stats`.
pub fn written(rollups: &Vec<DailyStats>, stats: Vec<DailyStats>) -> (r: Vec<DailyStats>)
    ensures
        daily_views(r@) == daily_views(rollups@).filter(kept(daily_views(stats@))) + daily_views(
            stats@,
        ),
{
    let ghost old_views = daily_views(rollups@);
    let ghost new_views = daily_views(stats@);
    let mut out: Vec<DailyStats> = Vec::new();
    let mut i: usize = 0;
    proof {
        reveal(Seq::filter);
        assert(daily_views(out@) =~= old_views.take(0).filter(kept(new_views)));
    }
    while i < rollups.len()
        invariant
            i <= rollups.len(),
            old_views == daily_views(rollups@),
            new_views == daily_views(stats@),
            daily_views(out@) == old_views.take(i as int).filter(kept(new_views)),
        decreases rollups.len() - i,
    {
        proof {
            old_views.lemma_take_succ_push(i as int);
            old_views.take(i as int).lemma_filter_push(old_views[i as int], kept(new_views));
        }
        if !is_among(&stats, rollups[i].skill_id.as_str(), rollups[i].date.as_str()) {
            let ghost before = out@;
            out.push(rollups[i].clone());
            assert(daily_views(out@) =~= daily_views(before).push(rollups@[i as int]@));
        }
        i = i + 1;
    }
    proof {
        old_views.lemma_take_len();
    }
    let ghost head = out@;
    let mut stats = stats;
    out.append(&mut stats);
    assert(daily_views(out@) =~= daily_views(head) + new_views);
    out
}

/// The rollups of one day are of that day and of different skills, so no
/// two of them are of the same skill and date.
pub proof fn lemma_day_stats_keys(events: Seq<SkillEventRow>, date: Seq<char>)
    ensures
        unique_days(day_stats(events, date)),
        forall|k: int|
            0 <= k < day_stats(events, date).len() ==> (#[trigger] day_stats(events, date)[k]).date
                == date,
{
    let day = events.filter(on_date(date));
    lemma_distinct(scoped(day, Scope::whole_time()).map_values(skill_of()));
}

/// Writing the rollups of a day keeps a table of rollups free of two
/// rollups of the same skill and date.
pub proof fn lemma_aggregated_unique(
    rollups: Seq<DailyView>,
    events: Seq<SkillEventRow>,
    date: Seq<char>,
)
    requires
        unique_days(rollups),
    ensures
        unique_days(aggregated(rollups, events, date)),
{
    let stats = day_stats(events, date);
    let rest = rollups.filter(kept(stats));
    let all = aggregated(rollups, events, date);
    lemma_day_stats_keys(events, date);
    lemma_filter_unique_days(rollups, kept(stats));
    assert forall|i: int, j: int| 0 <= i < j < all.len() implies !((#[trigger] all[i]).skill_id == (
    #[trigger] all[j]).skill_id && all[i].date == all[j].date) by {
        if j < rest.len() {
            assert(!(rest[i].skill_id == rest[j].skill_id && rest[i].date == rest[j].date));
        } else if i < rest.len() {
            rollups.lemma_filter_pred(kept(stats), i);
            assert(kept(stats)(rest[i]));
            assert(all[j] == stats[j - rest.len()]);
        } else {
            assert(all[i] == stats[i - rest.len()]);
            assert(all[j] == stats[j - rest.len()]);
        }
    }
}

/// Choosing among rollups of which no two are of the same skill and date
/// leaves rollups of which no two are.
pub proof fn lemma_filter_unique_days(rollups: Seq<DailyView>, p: spec_fn(DailyView) -> bool)
    requires
        unique_days(rollups),
    ensures
        unique_days(rollups.filter(p)),
    decreases rollups.len(),
{
    reveal(Seq::filter);
    if rollups.len() > 0 {
        let rest = rollups.drop_last();
        let last = rollups.last();
        assert(unique_days(rest)) by {
            assert forall|i: int, j: int| 0 <= i < j < rest.len() implies !((
            #[trigger] rest[i]).skill_id == (#[trigger] rest[j]).skill_id && rest[i].date
                == rest[j].date) by {
                assert(!(rollups[i].skill_id == rollups[j].skill_id && rollups[i].date
                    == rollups[j].date));
            }
        }
        lemma_filter_unique_days(rest, p);
        let chosen = rest.filter(p);
        let f = rollups.filter(p);
        if p(last) {
            assert(f == chosen.push(last));
            assert forall|i: int, j: int| 0 <= i < j < f.len() implies !((#[trigger] f[i]).skill_id
                == (#[trigger] f[j]).skill_id && f[i].date == f[j].date) by {
                if j < chosen.len() {
                    assert(!(chosen[i].skill_id == chosen[j].skill_id && chosen[i].date
                        == chosen[j].date));
                } else {
                    assert(chosen.contains(chosen[i]));
                    rest.lemma_filter_contains_rev(p, chosen[i]);
                    let a = choose|a: int| 0 <= a < rest.len() && rest[a] == chosen[i];
                    assert(!(rollups[a].skill_id == rollups[rollups.len() - 1].skill_id
                        && rollups[a].date == rollups[rollups.len() - 1].date));
                }
            }
        } else {
            assert(f == chosen);
        }
    }
}

/// Writing the rollups of a day twice, from the same events, leaves the
/// table of rollups as the first writing left it.
pub proof fn lemma_aggregate_idempotent(
    rollups: Seq<DailyView>,
    events: Seq<SkillEventRow>,
    date: Seq<char>,
)
    ensures
        aggregated(aggregated(rollups, events, date), events, date) == aggregated(
            rollups,
            events,
            date,
        ),
{
    let stats = day_stats(events, date);
    let rest = rollups.filter(kept(stats));
    let once = rest + stats;
    Seq::filter_distributes_over_add(rest, stats, kept(stats));
    assert(rest.filter(kept(stats)) =~= rest) by {
        lemma_filter_all(rest, kept(stats), rollups);
    }
    assert(stats.filter(kept(stats)) =~= Seq::<DailyView>::empty()) by {
        assert forall|k: int| 0 <= k < stats.len() implies !kept(stats)(#[trigger] stats[k]) by {
            assert(has_key(stats, stats[k].skill_id, stats[k].date));
        }
        stats.lemma_all_neg_filter_empty(kept(stats));
    }
    assert(once.filter(kept(stats)) + stats =~= once);
}

/// Choosing again among the chosen entries changes nothing.
proof fn lemma_filter_all<A>(chosen: Seq<A>, p: spec_fn(A) -> bool, s: Seq<A>)
    requires
        chosen == s.filter(p),
    ensures
        chosen.filter(p) == chosen,
    decreases s.len(),
{
    reveal(Seq::filter);
    if s.len() > 0 {
        let rest = s.drop_last();
        lemma_filter_all(rest.filter(p), p, rest);
        if p(s.last()) {
            rest.filter(p).lemma_filter_push(s.last(), p);
        }
    }
}

} // verus!
