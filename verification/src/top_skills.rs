//! The ranking of skills by their number of calls.

use vstd::prelude::*;
use crate::distinct::{distinct, texts};
use crate::event::{durations, scoped, skill_of, succeeded, Scope, SkillEventRow, Window};
use crate::ranking::{is_ranking, rank_descending, ranks_before};
use crate::ratio::{rate_of, Ratio};
use crate::stats::TopSkillEntry;
use crate::tally::{
    collect_durations, count_events, count_succeeded, distinct_skills, lemma_total_bounds,
    sum_values, total,
};

verus! {

/// The mean of the values as their sum over their number, and none for no
/// values.
pub open spec fn mean(values: Seq<i64>) -> Option<Ratio> {
    if values.len() == 0 {
        None
    } else {
        Some(Ratio { num: total(values) as i128, den: values.len() as i128 })
    }
}

/// The skills that have an event in the selection, each at the place of
/// its first event.
pub open spec fn skills_in(events: Seq<SkillEventRow>, scope: Scope) -> Seq<Seq<char>> {
    distinct(scoped(events, scope).map_values(skill_of()))
}

/// Whether the entry states the skill and the figures of its events in
/// the selection: their number, the share of them that succeeded, and the
/// mean of their durations.
pub open spec fn describes(
    entry: TopSkillEntry,
    events: Seq<SkillEventRow>,
    scope: Scope,
    skill: Seq<char>,
) -> bool {
    let mine = scoped(events, scope.of_skill(skill));
    &&& entry.skill_id@ == skill
    &&& entry.call_count == mine.len()
    &&& entry.success_rate == rate_of(mine.filter(succeeded()).len() as int, mine.len() as int)
    &&& entry.avg_latency_ms == mean(durations(mine))
}

/// The number of events of each skill of [`skills_in`], in the same
/// order.
pub open spec fn call_counts(events: Seq<SkillEventRow>, scope: Scope) -> Seq<i128> {
    let skills = skills_in(events, scope);
    Seq::new(skills.len(), |k: int| scoped(events, scope.of_skill(skills[k])).len() as i128)
}

/// How many entries a ranking of `n` groups has under a limit: all of them
/// under a limit below zero, which is no limit.
pub open spec fn limited(n: int, limit: int) -> int {
    if limit < 0 || limit >= n {
        n
    } else {
        limit
    }
}

/// Whether `result` is the ranking of the skills of the selection by
/// their number of calls, largest first and cut at the limit, in the
/// given order of the skills.
pub open spec fn is_top_skills(
    result: Seq<TopSkillEntry>,
    events: Seq<SkillEventRow>,
    scope: Scope,
    limit: int,
    order: Seq<usize>,
) -> bool {
    let skills = skills_in(events, scope);
    &&& is_ranking(call_counts(events, scope), order)
    &&& result.len() == limited(skills.len() as int, limit)
    &&& forall|i: int|
        0 <= i < result.len() ==> describes(
            #[trigger] result[i],
            events,
            scope,
            skills[order[i] as int],
        )
}

/// The mean of the values.
pub fn mean_of(values: &Vec<i64>) -> (r: Option<Ratio>)
    requires
        values.len() <= 0x7fff_ffff,
    ensures
        r == mean(values@),
        r matches Some(m) ==> m.wf(),
{
    if values.len() == 0 {
        None
    } else {
        proof {
            lemma_total_bounds(values@);
            assert(values.len() * 0x7fff_ffff_ffff_ffff <= 0x7fff_ffff * 0x7fff_ffff_ffff_ffff)
                by (nonlinear_arith)
                requires
                    values.len() <= 0x7fff_ffff,
            ;
            assert(values.len() * 0x8000_0000_0000_0000 <= 0x7fff_ffff * 0x8000_0000_0000_0000)
                by (nonlinear_arith)
                requires
                    values.len() <= 0x7fff_ffff,
            ;
        }
        Some(Ratio { num: sum_values(values), den: values.len() as i128 })
    }
}

/// The entry of one skill: the figures of the events in the window,
/// which selects that skill.
pub fn skill_entry(events: &Vec<SkillEventRow>, w: &Window) -> (entry: TopSkillEntry)
    requires
        events.len() <= 0x7fff_ffff,
        w.skill is Some,
    ensures
        describes(entry, events@, w@, w@.skill->0),
{
    proof {
        events@.lemma_filter_len(w@.pred());
        assert(w@.of_skill(w@.skill->0) == w@);
    }
    let calls = count_events(events, w);
    let succeeded = count_succeeded(events, w);
    let durations = collect_durations(events, w);
    let skill_id = match &w.skill {
        Some(s) => s.clone(),
        None => String::new(),
    };
    TopSkillEntry {
        skill_id,
        call_count: calls as i64,
        success_rate: Ratio::of_counts(succeeded as i64, calls as i64),
        avg_latency_ms: mean_of(&durations),
    }
}

/// The skills with an event in `[now - days * 86400, now)`, ranked by their
/// number of calls, largest first; skills with as many calls stand in the
/// order of their first event. No more than `limit` skills are returned,
/// and all of them under a limit below zero.
pub fn top_skills(events: &Vec<SkillEventRow>, now: i64, days: i64, limit: i64) -> (r: Vec<
    TopSkillEntry,
>)
    requires
        events.len() <= 0x7fff_ffff,
    ensures
        exists|order: Seq<usize>| #[trigger]
            is_top_skills(r@, events@, Scope::trailing(now as int, days as int), limit as int, order),
        forall|i: int, j: int|
            0 <= i < j < r@.len() ==> (#[trigger] r@[i]).call_count >= (#[trigger] r@[j]).call_count,
{
    let w = Window::trailing(now, days);
    let ghost scope = w@;
    let skills = distinct_skills(events, &w);
    assert(texts(skills@) == skills_in(events@, scope));
    let mut entries: Vec<TopSkillEntry> = Vec::new();
    let mut keys: Vec<i128> = Vec::new();
    let mut k: usize = 0;
    while k < skills.len()
        invariant
            k <= skills.len(),
            events.len() <= 0x7fff_ffff,
            scope == w@,
            scope == Scope::trailing(now as int, days as int),
            texts(skills@) == skills_in(events@, scope),
            entries@.len() == k,
            keys@.len() == k,
            forall|i: int|
                0 <= i < k ==> describes(#[trigger] entries@[i], events@, scope, skills@[i]@),
            forall|i: int| 0 <= i < k ==> (#[trigger] keys@[i]) == entries@[i].call_count,
        decreases skills.len() - k,
    {
        let wk = Window { skill: Some(skills[k].clone()), start: w.start, end: w.end };
        assert(wk@ == scope.of_skill(skills@[k as int]@));
        let entry = skill_entry(events, &wk);
        keys.push(entry.call_count as i128);
        entries.push(entry);
        k = k + 1;
    }
    let order = rank_descending(&keys);
    proof {
        let names = skills_in(events@, scope);
        assert(names.len() == skills@.len());
        assert forall|i: int| 0 <= i < names.len() implies names[i] == skills@[i]@ by {
            assert(texts(skills@)[i] == skills@[i]@);
        }
        assert(keys@ =~= call_counts(events@, scope));
    }
    let n = entries.len();
    let take: usize = if limit < 0 || limit as u64 >= n as u64 {
        n
    } else {
        limit as usize
    };
    let mut out: Vec<TopSkillEntry> = Vec::new();
    let mut i: usize = 0;
    while i < take
        invariant
            i <= take <= n,
            n == entries@.len(),
            n == keys@.len(),
            n == skills@.len(),
            is_ranking(keys@, order@),
            out@.len() == i,
            forall|a: int| 0 <= a < i ==> (#[trigger] out@[a]) == entries@[order@[a] as int],
        decreases take - i,
    {
        out.push(entries[order[i]].clone());
        i = i + 1;
    }
    proof {
        let names = skills_in(events@, scope);
        assert forall|a: int| 0 <= a < out@.len() implies describes(
            #[trigger] out@[a],
            events@,
            scope,
            names[order@[a] as int],
        ) by {
            let g = order@[a] as int;
            assert(describes(entries@[g], events@, scope, skills@[g]@));
            assert(names[g] == skills@[g]@);
        }
        assert(is_top_skills(out@, events@, scope, limit as int, order@));
        assert forall|a: int, b: int| 0 <= a < b < out@.len() implies (#[trigger] out@[a]).call_count
            >= (#[trigger] out@[b]).call_count by {
            assert(ranks_before(keys@, order@[a] as int, order@[b] as int));
            assert(keys@[order@[a] as int] == entries@[order@[a] as int].call_count);
            assert(keys@[order@[b] as int] == entries@[order@[b] as int].call_count);
        }
    }
    out
}

} // verus!
