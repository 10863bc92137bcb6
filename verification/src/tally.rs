//! Counts and collections over the events of a window.

use vstd::prelude::*;
use crate::distinct::{distinct, lemma_distinct_step, lemma_texts_push, position, texts};
use crate::event::{
    cost_of, costs, duration_of, durations, failed, lemma_scoped_step, scoped, scored, skill_of,
    succeeded, user_of, SkillEventRow, Window,
};

verus! {

/// The sum of the values.
pub open spec fn total(values: Seq<i64>) -> int
    decreases values.len(),
{
    if values.len() == 0 {
        0
    } else {
        total(values.drop_last()) + values.last()
    }
}

/// The sum of `n` values of 64 bits lies within `n` times their range.
pub proof fn lemma_total_bounds(values: Seq<i64>)
    ensures
        -values.len() * 0x8000_0000_0000_0000 <= total(values) <= values.len()
            * 0x7fff_ffff_ffff_ffff,
    decreases values.len(),
{
    if values.len() > 0 {
        lemma_total_bounds(values.drop_last());
        let n = values.len() as int;
        assert((n - 1) * 0x7fff_ffff_ffff_ffff + 0x7fff_ffff_ffff_ffff == n
            * 0x7fff_ffff_ffff_ffff) by (nonlinear_arith);
        assert(-(n - 1) * 0x8000_0000_0000_0000 - 0x8000_0000_0000_0000 == -n
            * 0x8000_0000_0000_0000) by (nonlinear_arith);
    }
}

/// The number of events in the window.
pub fn count_events(events: &Vec<SkillEventRow>, w: &Window) -> (n: usize)
    ensures
        n == scoped(events@, w@).len(),
{
    let mut n: usize = 0;
    let mut i: usize = 0;
    while i < events.len()
        invariant
            i <= events.len(),
            n <= i,
            n == scoped(events@.take(i as int), w@).len(),
        decreases events.len() - i,
    {
        proof {
            lemma_scoped_step(events@, w@, i as int);
        }
        if w.contains(&events[i]) {
            n = n + 1;
        }
        i = i + 1;
    }
    proof {
        events@.lemma_take_len();
    }
    n
}

/// The number of events in the window that succeeded.
pub fn count_succeeded(events: &Vec<SkillEventRow>, w: &Window) -> (n: usize)
    ensures
        n == scoped(events@, w@).filter(succeeded()).len(),
        n <= scoped(events@, w@).len(),
{
    let mut n: usize = 0;
    let mut i: usize = 0;
    while i < events.len()
        invariant
            i <= events.len(),
            n <= i,
            n == scoped(events@.take(i as int), w@).filter(succeeded()).len(),
        decreases events.len() - i,
    {
        proof {
            lemma_scoped_step(events@, w@, i as int);
            scoped(events@.take(i as int), w@).lemma_filter_push(events@[i as int], succeeded());
        }
        if w.contains(&events[i]) && events[i].success {
            n = n + 1;
        }
        i = i + 1;
    }
    proof {
        events@.lemma_take_len();
        scoped(events@, w@).lemma_filter_len(succeeded());
    }
    n
}

/// The number of events in the window that failed.
pub fn count_failed(events: &Vec<SkillEventRow>, w: &Window) -> (n: usize)
    ensures
        n == scoped(events@, w@).filter(failed()).len(),
        n <= scoped(events@, w@).len(),
{
    let mut n: usize = 0;
    let mut i: usize = 0;
    while i < events.len()
        invariant
            i <= events.len(),
            n <= i,
            n == scoped(events@.take(i as int), w@).filter(failed()).len(),
        decreases events.len() - i,
    {
        proof {
            lemma_scoped_step(events@, w@, i as int);
            scoped(events@.take(i as int), w@).lemma_filter_push(events@[i as int], failed());
        }
        if w.contains(&events[i]) && !events[i].success {
            n = n + 1;
        }
        i = i + 1;
    }
    proof {
        events@.lemma_take_len();
        scoped(events@, w@).lemma_filter_len(failed());
    }
    n
}

/// The durations of the events in the window that have one, in stored
/// order.
pub fn collect_durations(events: &Vec<SkillEventRow>, w: &Window) -> (out: Vec<i64>)
    ensures
        out@ == durations(scoped(events@, w@)),
        out.len() <= events.len(),
{
    let mut out: Vec<i64> = Vec::new();
    let mut i: usize = 0;
    while i < events.len()
        invariant
            i <= events.len(),
            out.len() <= i,
            out@ == durations(scoped(events@.take(i as int), w@)),
        decreases events.len() - i,
    {
        proof {
            lemma_scoped_step(events@, w@, i as int);
            let before = scoped(events@.take(i as int), w@);
            let e = events@[i as int];
            assert(before.push(e).drop_last() =~= before);
        }
        if w.contains(&events[i]) {
            match events[i].duration_ms {
                Some(d) => {
                    out.push(d);
                },
                None => {},
            }
        }
        i = i + 1;
    }
    proof {
        events@.lemma_take_len();
    }
    out
}

/// The costs of the events in the window that have one, in stored order.
pub fn collect_costs(events: &Vec<SkillEventRow>, w: &Window) -> (out: Vec<i64>)
    ensures
        out@ == costs(scoped(events@, w@)),
        out.len() <= events.len(),
{
    let mut out: Vec<i64> = Vec::new();
    let mut i: usize = 0;
    while i < events.len()
        invariant
            i <= events.len(),
            out.len() <= i,
            out@ == costs(scoped(events@.take(i as int), w@)),
        decreases events.len() - i,
    {
        proof {
            lemma_scoped_step(events@, w@, i as int);
            let before = scoped(events@.take(i as int), w@);
            let e = events@[i as int];
            assert(before.push(e).drop_last() =~= before);
        }
        if w.contains(&events[i]) {
            match events[i].api_cost_micro_usd {
                Some(c) => {
                    out.push(c);
                },
                None => {},
            }
        }
        i = i + 1;
    }
    proof {
        events@.lemma_take_len();
    }
    out
}

/// The number of events in the window that were given the feedback
/// score.
pub fn count_scored(events: &Vec<SkillEventRow>, w: &Window, score: i32) -> (n: usize)
    ensures
        n == scoped(events@, w@).filter(scored(score)).len(),
        n <= scoped(events@, w@).len(),
{
    let mut n: usize = 0;
    let mut i: usize = 0;
    while i < events.len()
        invariant
            i <= events.len(),
            n <= i,
            n == scoped(events@.take(i as int), w@).filter(scored(score)).len(),
        decreases events.len() - i,
    {
        proof {
            lemma_scoped_step(events@, w@, i as int);
            scoped(events@.take(i as int), w@).lemma_filter_push(events@[i as int], scored(score));
        }
        if w.contains(&events[i]) {
            match events[i].feedback_score {
                Some(given) => {
                    if given == score {
                        n = n + 1;
                    }
                },
                None => {},
            }
        }
        i = i + 1;
    }
    proof {
        events@.lemma_take_len();
        scoped(events@, w@).lemma_filter_len(scored(score));
    }
    n
}

/// The sum of the values.
pub fn sum_values(values: &Vec<i64>) -> (s: i128)
    requires
        values.len() <= 0x7fff_ffff_ffff_ffff,
    ensures
        s == total(values@),
{
    let mut s: i128 = 0;
    let mut i: usize = 0;
    while i < values.len()
        invariant
            i <= values.len(),
            values.len() <= 0x7fff_ffff_ffff_ffff,
            s == total(values@.take(i as int)),
        decreases values.len() - i,
    {
        proof {
            lemma_total_bounds(values@.take(i as int));
            assert(values@.take(i + 1).drop_last() =~= values@.take(i as int));
            assert(i * 0x7fff_ffff_ffff_ffff <= 0x7fff_ffff_ffff_ffff * 0x7fff_ffff_ffff_ffff)
                by (nonlinear_arith)
                requires
                    0 <= i <= 0x7fff_ffff_ffff_ffff,
            ;
            assert(i * 0x8000_0000_0000_0000 <= 0x7fff_ffff_ffff_ffff * 0x8000_0000_0000_0000)
                by (nonlinear_arith)
                requires
                    0 <= i <= 0x7fff_ffff_ffff_ffff,
            ;
        }
        s = s + values[i] as i128;
        i = i + 1;
    }
    proof {
        values@.lemma_take_len();
    }
    s
}

/// The users of the events in the window, each once, in the order of
/// their first event.
pub fn distinct_users(events: &Vec<SkillEventRow>, w: &Window) -> (out: Vec<String>)
    ensures
        texts(out@) == distinct(scoped(events@, w@).map_values(user_of())),
        out.len() <= events.len(),
{
    let mut out: Vec<String> = Vec::new();
    let mut i: usize = 0;
    assert(texts(out@) =~= distinct(scoped(events@.take(0), w@).map_values(user_of()))) by {
        lemma_empty_selection(events@, w);
    }
    while i < events.len()
        invariant
            i <= events.len(),
            out.len() <= i,
            texts(out@) == distinct(scoped(events@.take(i as int), w@).map_values(user_of())),
        decreases events.len() - i,
    {
        let ghost before = scoped(events@.take(i as int), w@);
        proof {
            lemma_scoped_step(events@, w@, i as int);
        }
        if w.contains(&events[i]) {
            proof {
                let e = events@[i as int];
                before.lemma_push_map_commute(user_of(), e);
                let users = before.push(e).map_values(user_of());
                assert(users.drop_last() =~= before.map_values(user_of()));
                assert(users.last() == e.user_id@);
            }
            if position(&out, events[i].user_id.as_str()).is_none() {
                proof {
                    lemma_texts_push(out@, events@[i as int].user_id);
                }
                out.push(events[i].user_id.clone());
            }
        }
        i = i + 1;
    }
    proof {
        events@.lemma_take_len();
    }
    out
}

/// The skills of the events in the window, each once, in the order of
/// their first event.
pub fn distinct_skills(events: &Vec<SkillEventRow>, w: &Window) -> (out: Vec<String>)
    ensures
        texts(out@) == distinct(scoped(events@, w@).map_values(skill_of())),
        out.len() <= events.len(),
{
    let mut out: Vec<String> = Vec::new();
    let mut i: usize = 0;
    assert(texts(out@) =~= distinct(scoped(events@.take(0), w@).map_values(skill_of()))) by {
        lemma_empty_selection(events@, w);
    }
    while i < events.len()
        invariant
            i <= events.len(),
            out.len() <= i,
            texts(out@) == distinct(scoped(events@.take(i as int), w@).map_values(skill_of())),
        decreases events.len() - i,
    {
        let ghost before = scoped(events@.take(i as int), w@);
        proof {
            lemma_scoped_step(events@, w@, i as int);
        }
        if w.contains(&events[i]) {
            proof {
                let e = events@[i as int];
                before.lemma_push_map_commute(skill_of(), e);
                let skills = before.push(e).map_values(skill_of());
                assert(skills.drop_last() =~= before.map_values(skill_of()));
                assert(skills.last() == e.skill_id@);
            }
            if position(&out, events[i].skill_id.as_str()).is_none() {
                proof {
                    lemma_texts_push(out@, events@[i as int].skill_id);
                }
                out.push(events[i].skill_id.clone());
            }
        }
        i = i + 1;
    }
    proof {
        events@.lemma_take_len();
    }
    out
}

/// Nothing is selected from no events.
proof fn lemma_empty_selection(events: Seq<SkillEventRow>, w: &Window)
    ensures
        scoped(events.take(0), w@) == Seq::<SkillEventRow>::empty(),
{
    reveal(Seq::filter);
    assert(events.take(0) =~= Seq::<SkillEventRow>::empty());
}

} // verus!
