//! Queries over the daily rollups: trends by day and costs by skill.

use vstd::prelude::*;
use crate::calendar::{utc_date, utc_date_text};
use crate::distinct::{distinct, lemma_distinct, lemma_distinct_step, lemma_texts_push, position, texts};
use crate::ranking::{is_ranking, rank_descending};
use crate::ratio::{rate_of, Ratio};
use crate::rollup::{lemma_filter_unique_days, stat_wf, stats_wf, unique_days};
use crate::stats::{daily_views, DailyStats, DailyView, TopSkillEntry};
use crate::text::{str_eq, str_lt, text_lt};
use crate::text_order::{is_sorted_texts, sort_texts};

verus! {

/// The largest number of rollups that a table of rollups holds.
pub const MAX_ROLLUPS: usize = 0x7fff_ffff;

/// The date on which the trailing window of `days` days that ends at
/// `now` begins; `None` where its begin is no time that a date can be
/// given for.
pub open spec fn since_date(now: int, days: int) -> Option<Seq<char>> {
    let start = now - days * 86400;
    if i64::MIN <= start <= i64::MAX {
        utc_date_text(start)
    } else {
        None
    }
}

/// Whether a rollup is of the date `since` or of a later one, as a
/// predicate. Without a date to begin with, no rollup is.
pub open spec fn from_date(since: Option<Seq<char>>) -> spec_fn(DailyView) -> bool {
    |r: DailyView| since matches Some(d) && !text_lt(r.date, d)
}

/// Whether a rollup is of the skill and of the date `since` or a later
/// one, as a predicate.
pub open spec fn of_skill_from(skill: Seq<char>, since: Option<Seq<char>>) -> spec_fn(
    DailyView,
) -> bool {
    |r: DailyView| r.skill_id == skill && from_date(since)(r)
}

/// The date of a rollup.
pub open spec fn date_of() -> spec_fn(DailyView) -> Seq<char> {
    |r: DailyView| r.date
}

/// The skill of a rollup.
pub open spec fn skill_of_rollup() -> spec_fn(DailyView) -> Seq<char> {
    |r: DailyView| r.skill_id
}

/// Whether a rollup belongs to a group: to that of a date, or to that of
/// a skill.
pub open spec fn in_group(by_date: bool, key: Seq<char>) -> spec_fn(DailyView) -> bool {
    |r: DailyView|
        if by_date {
            r.date == key
        } else {
            r.skill_id == key
        }
}

/// The rollup of nothing, under the names given.
pub open spec fn nothing(skill: Seq<char>, date: Seq<char>) -> DailyView {
    DailyView {
        skill_id: skill,
        date,
        total_calls: 0,
        success_count: 0,
        fail_count: 0,
        p50_ms: None,
        p95_ms: None,
        p99_ms: None,
        avg_ms: None,
        unique_users: 0,
        total_cost_micro_usd: 0,
        thumbs_up: 0,
        thumbs_down: 0,
    }
}

/// The mean of two groups taken together: the sum of their sums over the
/// sum of their numbers.
pub open spec fn pooled(a: Option<Ratio>, b: Option<Ratio>) -> Option<Ratio> {
    match (a, b) {
        (Some(x), Some(y)) => Some(
            Ratio { num: (x.num + y.num) as i128, den: (x.den + y.den) as i128 },
        ),
        (Some(x), None) => Some(x),
        (None, y) => y,
    }
}

/// A total with one more rollup added: the counts and the cost summed,
/// the means pooled. Percentiles do not add up and are left out.
pub open spec fn plus(acc: DailyView, r: DailyView) -> DailyView {
    DailyView {
        skill_id: acc.skill_id,
        date: acc.date,
        total_calls: acc.total_calls + r.total_calls,
        success_count: acc.success_count + r.success_count,
        fail_count: acc.fail_count + r.fail_count,
        p50_ms: None,
        p95_ms: None,
        p99_ms: None,
        avg_ms: pooled(acc.avg_ms, r.avg_ms),
        unique_users: acc.unique_users + r.unique_users,
        total_cost_micro_usd: acc.total_cost_micro_usd + r.total_cost_micro_usd,
        thumbs_up: acc.thumbs_up + r.thumbs_up,
        thumbs_down: acc.thumbs_down + r.thumbs_down,
    }
}

/// The total of the rollups of a group, starting from `zero`.
pub open spec fn total_of(rows: Seq<DailyView>, pick: spec_fn(DailyView) -> bool, zero: DailyView) -> DailyView
    decreases rows.len(),
{
    if rows.len() == 0 {
        zero
    } else {
        let acc = total_of(rows.drop_last(), pick, zero);
        if pick(rows.last()) {
            plus(acc, rows.last())
        } else {
            acc
        }
    }
}

/// Whether the figures of a total are such as `n` well-formed rollups can
/// add up to.
pub open spec fn total_wf(t: DailyView, n: int) -> bool {
    &&& 0 <= t.total_calls <= n * 0x7fff_ffff
    &&& 0 <= t.success_count <= n * 0x7fff_ffff
    &&& 0 <= t.fail_count <= n * 0x7fff_ffff
    &&& 0 <= t.unique_users <= n * 0x7fff_ffff
    &&& 0 <= t.thumbs_up <= n * 0x7fff_ffff
    &&& 0 <= t.thumbs_down <= n * 0x7fff_ffff
    &&& -n * 0x3fff_ffff_8000_0000_0000_0000 <= t.total_cost_micro_usd <= n
        * 0x3fff_ffff_7fff_ffff_8000_0001
    &&& t.avg_ms matches Some(m) ==> {
        &&& 0 < m.den <= n * 0x7fff_ffff
        &&& -n * 0x3fff_ffff_8000_0000_0000_0000 <= m.num <= n * 0x3fff_ffff_7fff_ffff_8000_0001
    }
}

/// The rollups of the date `since` and of later ones, in stored order.
pub fn rows_from(rollups: &Vec<DailyStats>, skill: Option<&str>, since: &Option<String>) -> (r: Vec<
    DailyStats,
>)
    ensures
        r.len() <= rollups.len(),
        match skill {
            Some(s) => daily_views(r@) == daily_views(rollups@).filter(
                of_skill_from(s@, since_text(*since)),
            ),
            None => daily_views(r@) == daily_views(rollups@).filter(from_date(since_text(*since))),
        },
{
    let ghost views = daily_views(rollups@);
    let ghost pick = match skill {
        Some(s) => of_skill_from(s@, since_text(*since)),
        None => from_date(since_text(*since)),
    };
    let mut out: Vec<DailyStats> = Vec::new();
    let mut i: usize = 0;
    proof {
        reveal(Seq::filter);
        assert(daily_views(out@) =~= views.take(0).filter(pick));
    }
    while i < rollups.len()
        invariant
            i <= rollups.len(),
            out.len() <= i,
            views == daily_views(rollups@),
            pick == match skill {
                Some(s) => of_skill_from(s@, since_text(*since)),
                None => from_date(since_text(*since)),
            },
            daily_views(out@) == views.take(i as int).filter(pick),
        decreases rollups.len() - i,
    {
        proof {
            views.lemma_take_succ_push(i as int);
            views.take(i as int).lemma_filter_push(views[i as int], pick);
        }
        let in_range = match since {
            Some(d) => !str_lt(rollups[i].date.as_str(), d.as_str()),
            None => false,
        };
        let of_skill = match skill {
            Some(s) => str_eq(rollups[i].skill_id.as_str(), s),
            None => true,
        };
        if in_range && of_skill {
            let ghost before = out@;
            out.push(rollups[i].clone());
            assert(daily_views(out@) =~= daily_views(before).push(views[i as int]));
        }
        i = i + 1;
    }
    proof {
        views.lemma_take_len();
    }
    out
}

/// What a date says, if there is one.
pub open spec fn since_text(since: Option<String>) -> Option<Seq<char>> {
    match since {
        Some(d) => Some(d@),
        None => None,
    }
}

/// The date on which the trailing window of `days` days that ends at
/// `now` begins.
pub fn window_date(now: i64, days: i64) -> (r: Option<String>)
    ensures
        since_text(r) == since_date(now as int, days as int),
{
    let start: i128 = now as i128 - days as i128 * 86400;
    if start < i64::MIN as i128 || start > i64::MAX as i128 {
        None
    } else {
        utc_date(start as i64)
    }
}

/// The total of the rollups of a group: of those of the date `key`, or
/// of those of the skill `key`.
pub fn group_total(rows: &Vec<DailyStats>, by_date: bool, key: &str, skill: &str, date: &str) -> (r:
    DailyStats)
    requires
        stats_wf(daily_views(rows@)),
        rows.len() <= MAX_ROLLUPS,
    ensures
        r@ == total_of(daily_views(rows@), in_group(by_date, key@), nothing(skill@, date@)),
        r.skill_id@ == skill@,
        r.date@ == date@,
        total_wf(r@, rows.len() as int),
{
    let ghost views = daily_views(rows@);
    let ghost pick = in_group(by_date, key@);
    let ghost zero = nothing(skill@, date@);
    let mut acc = DailyStats {
        skill_id: skill.to_string(),
        date: date.to_string(),
        total_calls: 0,
        success_count: 0,
        fail_count: 0,
        p50_ms: None,
        p95_ms: None,
        p99_ms: None,
        avg_ms: None,
        unique_users: 0,
        total_cost_micro_usd: 0,
        thumbs_up: 0,
        thumbs_down: 0,
    };
    let mut i: usize = 0;
    assert(views.take(0) =~= Seq::<DailyView>::empty());
    while i < rows.len()
        invariant
            i <= rows.len() <= MAX_ROLLUPS,
            views == daily_views(rows@),
            stats_wf(views),
            pick == in_group(by_date, key@),
            zero == nothing(skill@, date@),
            acc@ == total_of(views.take(i as int), pick, zero),
            acc.skill_id@ == skill@,
            acc.date@ == date@,
            total_wf(acc@, i as int),
        decreases rows.len() - i,
    {
        let row = &rows[i];
        proof {
            assert(views.take(i + 1).drop_last() =~= views.take(i as int));
            assert(views.take(i + 1).last() == views[i as int]);
            assert(views[i as int] == row@);
            assert(stat_wf(views[i as int]));
        }
        let picked = if by_date {
            str_eq(row.date.as_str(), key)
        } else {
            str_eq(row.skill_id.as_str(), key)
        };
        if picked {
            let avg_ms = match (acc.avg_ms, row.avg_ms) {
                (Some(x), Some(y)) => Some(Ratio { num: x.num + y.num, den: x.den + y.den }),
                (Some(x), None) => Some(x),
                (None, y) => y,
            };
            acc = DailyStats {
                skill_id: acc.skill_id,
                date: acc.date,
                total_calls: acc.total_calls + row.total_calls,
                success_count: acc.success_count + row.success_count,
                fail_count: acc.fail_count + row.fail_count,
                p50_ms: None,
                p95_ms: None,
                p99_ms: None,
                avg_ms,
                unique_users: acc.unique_users + row.unique_users,
                total_cost_micro_usd: acc.total_cost_micro_usd + row.total_cost_micro_usd,
                thumbs_up: acc.thumbs_up + row.thumbs_up,
                thumbs_down: acc.thumbs_down + row.thumbs_down,
            };
        }
        i = i + 1;
    }
    proof {
        views.lemma_take_len();
    }
    acc
}

/// The dates of the rollups, each once, in the order of their first
/// rollup.
pub fn distinct_dates(rows: &Vec<DailyStats>) -> (out: Vec<String>)
    ensures
        texts(out@) == distinct(daily_views(rows@).map_values(date_of())),
{
    let ghost dates = daily_views(rows@).map_values(date_of());
    let mut out: Vec<String> = Vec::new();
    let mut i: usize = 0;
    assert(texts(out@) =~= distinct(dates.take(0)));
    while i < rows.len()
        invariant
            i <= rows.len(),
            dates == daily_views(rows@).map_values(date_of()),
            texts(out@) == distinct(dates.take(i as int)),
        decreases rows.len() - i,
    {
        proof {
            lemma_distinct_step(dates, i as int);
            assert(dates[i as int] == rows@[i as int].date@);
        }
        if position(&out, rows[i].date.as_str()).is_none() {
            proof {
                lemma_texts_push(out@, rows@[i as int].date);
            }
            out.push(rows[i].date.clone());
        }
        i = i + 1;
    }
    proof {
        dates.lemma_take_len();
    }
    out
}

/// The skills of the rollups, each once, in the order of their first
/// rollup.
pub fn distinct_rollup_skills(rows: &Vec<DailyStats>) -> (out: Vec<String>)
    ensures
        texts(out@) == distinct(daily_views(rows@).map_values(skill_of_rollup())),
{
    let ghost skills = daily_views(rows@).map_values(skill_of_rollup());
    let mut out: Vec<String> = Vec::new();
    let mut i: usize = 0;
    assert(texts(out@) =~= distinct(skills.take(0)));
    while i < rows.len()
        invariant
            i <= rows.len(),
            skills == daily_views(rows@).map_values(skill_of_rollup()),
            texts(out@) == distinct(skills.take(i as int)),
        decreases rows.len() - i,
    {
        proof {
            lemma_distinct_step(skills, i as int);
            assert(skills[i as int] == rows@[i as int].skill_id@);
        }
        if position(&out, rows[i].skill_id.as_str()).is_none() {
            proof {
                lemma_texts_push(out@, rows@[i as int].skill_id);
            }
            out.push(rows[i].skill_id.clone());
        }
        i = i + 1;
    }
    proof {
        skills.lemma_take_len();
    }
    out
}

/// Whether `result` is the trend by day over all skills: one total for
/// each date that has a rollup from `since` on, under the skill name
/// `all`, the dates in ascending order.
pub open spec fn is_daily_trend(
    result: Seq<DailyView>,
    rollups: Seq<DailyView>,
    since: Option<Seq<char>>,
) -> bool {
    let rows = rollups.filter(from_date(since));
    &&& is_sorted_texts(result.map_values(date_of()), distinct(rows.map_values(date_of())))
    &&& forall|i: int|
        0 <= i < result.len() ==> #[trigger] result[i] == total_of(
            rows,
            in_group(true, result[i].date),
            nothing("all"@, result[i].date),
        )
}

/// Whether `result` is the trend by day of one skill: its rollups from
/// `since` on, the dates in ascending order.
pub open spec fn is_skill_trend(
    result: Seq<DailyView>,
    rollups: Seq<DailyView>,
    skill: Seq<char>,
    since: Option<Seq<char>>,
) -> bool {
    let rows = rollups.filter(of_skill_from(skill, since));
    &&& is_sorted_texts(result.map_values(date_of()), rows.map_values(date_of()))
    &&& forall|i: int| 0 <= i < result.len() ==> rows.contains(#[trigger] result[i])
}

/// The trend by day over all skills, from the date `since` on.
pub fn daily_trend(rollups: &Vec<DailyStats>, since: &Option<String>) -> (r: Vec<DailyStats>)
    requires
        stats_wf(daily_views(rollups@)),
        rollups.len() <= MAX_ROLLUPS,
    ensures
        is_daily_trend(daily_views(r@), daily_views(rollups@), since_text(*since)),
{
    let rows = rows_from(rollups, None, since);
    let ghost views = daily_views(rows@);
    proof {
        assert(stats_wf(views)) by {
            assert forall|i: int| 0 <= i < views.len() implies stat_wf(#[trigger] views[i]) by {
                assert(views.contains(views[i]));
                daily_views(rollups@).lemma_filter_contains_rev(
                    from_date(since_text(*since)),
                    views[i],
                );
                let w = choose|w: int|
                    0 <= w < daily_views(rollups@).len() && daily_views(rollups@)[w] == views[i];
                assert(stat_wf(daily_views(rollups@)[w]));
            }
        }
        lemma_distinct(views.map_values(date_of()));
    }
    let dates = sort_texts(&distinct_dates(&rows));
    let ghost names = distinct(views.map_values(date_of()));
    let mut out: Vec<DailyStats> = Vec::new();
    let mut k: usize = 0;
    while k < dates.len()
        invariant
            k <= dates.len(),
            views == daily_views(rows@),
            stats_wf(views),
            rows.len() <= MAX_ROLLUPS,
            out@.len() == k,
            forall|i: int| 0 <= i < k ==> (#[trigger] daily_views(out@)[i]).date == dates@[i]@,
            forall|i: int|
                0 <= i < k ==> #[trigger] daily_views(out@)[i] == total_of(
                    views,
                    in_group(true, dates@[i]@),
                    nothing("all"@, dates@[i]@),
                ),
        decreases dates.len() - k,
    {
        let ghost before = out@;
        let t = group_total(&rows, true, dates[k].as_str(), "all", dates[k].as_str());
        out.push(t);
        proof {
            assert(daily_views(out@) =~= daily_views(before).push(t@));
        }
        k = k + 1;
    }
    proof {
        let got = daily_views(out@).map_values(date_of());
        assert(got =~= texts(dates@)) by {
            assert forall|i: int| 0 <= i < got.len() implies got[i] == texts(dates@)[i] by {
                assert(daily_views(out@)[i].date == dates@[i]@);
            }
        }
    }
    out
}

/// The trend by day of one skill, from the date `since` on.
pub fn skill_trend(rollups: &Vec<DailyStats>, skill: &str, since: &Option<String>) -> (r: Vec<
    DailyStats,
>)
    requires
        unique_days(daily_views(rollups@)),
    ensures
        is_skill_trend(daily_views(r@), daily_views(rollups@), skill@, since_text(*since)),
{
    let rows = rows_from(rollups, Some(skill), since);
    let ghost views = daily_views(rows@);
    let ghost pick = of_skill_from(skill@, since_text(*since));
    let mut dates: Vec<String> = Vec::new();
    let mut i: usize = 0;
    while i < rows.len()
        invariant
            i <= rows.len(),
            dates@.len() == i,
            forall|k: int| 0 <= k < i ==> (#[trigger] dates@[k])@ == rows@[k].date@,
        decreases rows.len() - i,
    {
        dates.push(rows[i].date.clone());
        i = i + 1;
    }
    proof {
        assert(texts(dates@) =~= views.map_values(date_of())) by {
            assert forall|k: int| 0 <= k < dates@.len() implies texts(dates@)[k] == views.map_values(
                date_of(),
            )[k] by {
                assert(views[k] == rows@[k]@);
            }
        }
        lemma_filter_unique_days(daily_views(rollups@), pick);
        assert forall|a: int, b: int| 0 <= a < b < views.len() implies views[a].date
            != views[b].date by {
            daily_views(rollups@).lemma_filter_pred(pick, a);
            daily_views(rollups@).lemma_filter_pred(pick, b);
            assert(!(views[a].skill_id == views[b].skill_id && views[a].date == views[b].date));
        }
        assert(texts(dates@).no_duplicates());
    }
    let sorted = sort_texts(&dates);
    let mut out: Vec<DailyStats> = Vec::new();
    let mut k: usize = 0;
    while k < sorted.len()
        invariant
            k <= sorted.len(),
            views == daily_views(rows@),
            texts(dates@) == views.map_values(date_of()),
            is_sorted_texts(texts(sorted@), texts(dates@)),
            out@.len() == k,
            forall|a: int| 0 <= a < k ==> (#[trigger] daily_views(out@)[a]).date == sorted@[a]@,
            forall|a: int| 0 <= a < k ==> views.contains(#[trigger] daily_views(out@)[a]),
        decreases sorted.len() - k,
    {
        let ghost before = out@;
        assert(texts(dates@).contains(texts(sorted@)[k as int]));
        match position(&dates, sorted[k].as_str()) {
            Some(at) => {
                let row = rows[at].clone();
                out.push(row);
                proof {
                    assert(daily_views(out@) =~= daily_views(before).push(row@));
                    assert(views[at as int] == row@);
                    assert(texts(dates@)[at as int] == views[at as int].date);
                }
            },
            None => {
                assert(texts(sorted@)[k as int] == sorted@[k as int]@);
                assert(false);
            },
        }
        k = k + 1;
    }
    proof {
        let got = daily_views(out@).map_values(date_of());
        assert(got =~= texts(sorted@)) by {
            assert forall|a: int| 0 <= a < got.len() implies got[a] == texts(sorted@)[a] by {
                assert(daily_views(out@)[a].date == sorted@[a]@);
            }
        }
    }
    out
}

/// Whether the entry states the totals of one skill: its calls, the share
/// of them that succeeded, and in the place of the latency its cost in
/// dollars.
pub open spec fn cost_entry(entry: TopSkillEntry, t: DailyView) -> bool {
    &&& entry.skill_id@ == t.skill_id
    &&& entry.call_count == t.total_calls
    &&& entry.success_rate == rate_of(t.success_count, t.total_calls)
    &&& entry.avg_latency_ms == Some(
        Ratio { num: t.total_cost_micro_usd as i128, den: 1_000_000 },
    )
}

/// The totals of each skill that has a rollup among `rows`, in the order
/// of their first rollup.
pub open spec fn skill_totals(rows: Seq<DailyView>) -> Seq<DailyView> {
    distinct(rows.map_values(skill_of_rollup())).map_values(
        |skill: Seq<char>| total_of(rows, in_group(false, skill), nothing(skill, Seq::empty())),
    )
}

/// The cost of each total, in the same order.
pub open spec fn cost_keys(totals: Seq<DailyView>) -> Seq<i128> {
    totals.map_values(|t: DailyView| t.total_cost_micro_usd as i128)
}

/// Whether `result` is the summary of costs by skill over the rollups
/// from `since` on, the largest cost first, in the given order of the
/// skills.
pub open spec fn is_cost_summary(
    result: Seq<TopSkillEntry>,
    rollups: Seq<DailyView>,
    since: Option<Seq<char>>,
    order: Seq<usize>,
) -> bool {
    let totals = skill_totals(rollups.filter(from_date(since)));
    &&& is_ranking(cost_keys(totals), order)
    &&& result.len() == totals.len()
    &&& forall|i: int|
        0 <= i < result.len() ==> cost_entry(#[trigger] result[i], totals[order[i] as int])
}

/// The summary of costs by skill, from the date `since` on; skills with
/// the same cost stand in the order of their first rollup.
pub fn cost_summary(rollups: &Vec<DailyStats>, since: &Option<String>) -> (r: Vec<TopSkillEntry>)
    requires
        stats_wf(daily_views(rollups@)),
        rollups.len() <= MAX_ROLLUPS,
    ensures
        exists|order: Seq<usize>| #[trigger]
            is_cost_summary(r@, daily_views(rollups@), since_text(*since), order),
{
    let rows = rows_from(rollups, None, since);
    let ghost views = daily_views(rows@);
    proof {
        assert(stats_wf(views)) by {
            assert forall|i: int| 0 <= i < views.len() implies stat_wf(#[trigger] views[i]) by {
                assert(views.contains(views[i]));
                daily_views(rollups@).lemma_filter_contains_rev(
                    from_date(since_text(*since)),
                    views[i],
                );
                let w = choose|w: int|
                    0 <= w < daily_views(rollups@).len() && daily_views(rollups@)[w] == views[i];
                assert(stat_wf(daily_views(rollups@)[w]));
            }
        }
    }
    let skills = distinct_rollup_skills(&rows);
    let ghost names = distinct(views.map_values(skill_of_rollup()));
    let ghost totals = skill_totals(views);
    let mut entries: Vec<TopSkillEntry> = Vec::new();
    let mut keys: Vec<i128> = Vec::new();
    let mut k: usize = 0;
    while k < skills.len()
        invariant
            k <= skills.len(),
            views == daily_views(rows@),
            stats_wf(views),
            rows.len() <= MAX_ROLLUPS,
            texts(skills@) == names,
            names == distinct(views.map_values(skill_of_rollup())),
            totals == skill_totals(views),
            entries@.len() == k,
            keys@.len() == k,
            forall|i: int| 0 <= i < k ==> cost_entry(#[trigger] entries@[i], totals[i]),
            forall|i: int| 0 <= i < k ==> #[trigger] keys@[i] == cost_keys(totals)[i],
        decreases skills.len() - k,
    {
        let t = group_total(&rows, false, skills[k].as_str(), skills[k].as_str(), "");
        proof {
            assert(names[k as int] == skills@[k as int]@);
            assert(""@ =~= Seq::<char>::empty()) by {
                reveal_strlit("");
            }
            assert(totals[k as int] == t@);
            assert(rows.len() * 0x7fff_ffff <= 0x7fff_ffff * 0x7fff_ffff) by (nonlinear_arith)
                requires
                    rows.len() <= 0x7fff_ffff,
            ;
        }
        keys.push(t.total_cost_micro_usd);
        entries.push(
            TopSkillEntry {
                skill_id: skills[k].clone(),
                call_count: t.total_calls,
                success_rate: Ratio::of_counts(t.success_count, t.total_calls),
                avg_latency_ms: Some(Ratio { num: t.total_cost_micro_usd, den: 1_000_000 }),
            },
        );
        k = k + 1;
    }
    assert(keys@ =~= cost_keys(totals));
    let order = rank_descending(&keys);
    let mut out: Vec<TopSkillEntry> = Vec::new();
    let mut i: usize = 0;
    while i < entries.len()
        invariant
            i <= entries.len(),
            entries@.len() == keys@.len(),
            is_ranking(keys@, order@),
            out@.len() == i,
            forall|a: int| 0 <= a < i ==> #[trigger] out@[a] == entries@[order@[a] as int],
        decreases entries.len() - i,
    {
        out.push(entries[order[i]].clone());
        i = i + 1;
    }
    assert(is_cost_summary(out@, daily_views(rollups@), since_text(*since), order@));
    out
}

} // verus!
