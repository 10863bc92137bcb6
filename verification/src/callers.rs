//! Which callers reach which skills.

use vstd::prelude::*;
use crate::distinct::{distinct, lemma_distinct_step};
use crate::event::{scoped, Scope, SkillEventRow, Window};
use crate::ranking::{is_ranking, rank_descending};
use crate::stats::{CallerDependency, StorageError};
use crate::text::str_eq;

verus! {

/// A caller, the tool it called through, and the skill it reached.
pub ghost struct CallerKey {
    pub agent: Seq<char>,
    pub tool: Seq<char>,
    pub skill: Seq<char>,
}

/// Whether an event names its caller, as a predicate.
pub open spec fn has_caller() -> spec_fn(SkillEventRow) -> bool {
    |e: SkillEventRow| e.caller_agent is Some
}

/// Whether an event names its caller but not the tool, as a predicate.
pub open spec fn lacks_tool() -> spec_fn(SkillEventRow) -> bool {
    |e: SkillEventRow| e.caller_agent is Some && e.caller_tool is None
}

/// The caller, tool and skill of an event that names both caller and
/// tool.
pub open spec fn caller_key() -> spec_fn(SkillEventRow) -> CallerKey {
    |e: SkillEventRow|
        CallerKey { agent: e.caller_agent->0@, tool: e.caller_tool->0@, skill: e.skill_id@ }
}

/// Whether an event is of the caller, tool and skill, as a predicate.
pub open spec fn called_by(key: CallerKey) -> spec_fn(SkillEventRow) -> bool {
    |e: SkillEventRow| caller_key()(e) == key
}

/// The events of the selection that name their caller, in stored order.
pub open spec fn called(events: Seq<SkillEventRow>, scope: Scope) -> Seq<SkillEventRow> {
    scoped(events, scope).filter(has_caller())
}

/// The callers, tools and skills of the events, each combination once, in
/// the order of their first event.
pub open spec fn caller_keys(rows: Seq<SkillEventRow>) -> Seq<CallerKey> {
    distinct(rows.map_values(caller_key()))
}

/// The number of events of each combination of [`caller_keys`], in the
/// same order.
pub open spec fn caller_counts(rows: Seq<SkillEventRow>) -> Seq<i128> {
    caller_keys(rows).map_values(|key: CallerKey| rows.filter(called_by(key)).len() as i128)
}

/// What an entry says of whom it counts.
pub open spec fn entry_key(entry: CallerDependency) -> CallerKey {
    CallerKey { agent: entry.caller_agent@, tool: entry.caller_tool@, skill: entry.skill_id@ }
}

/// Whether `result` lists the combinations of caller, tool and skill of
/// the events, each with the number of its events, the largest number
/// first, in the given order of the combinations.
pub open spec fn is_caller_analysis(
    result: Seq<CallerDependency>,
    rows: Seq<SkillEventRow>,
    order: Seq<usize>,
) -> bool {
    let keys = caller_keys(rows);
    &&& is_ranking(caller_counts(rows), order)
    &&& result.len() == keys.len()
    &&& forall|i: int|
        0 <= i < result.len() ==> entry_key(#[trigger] result[i]) == keys[order[i] as int]
            && result[i].call_count == caller_counts(rows)[order[i] as int]
}

/// The events of the window that name their caller, in stored order.
pub fn called_events(events: &Vec<SkillEventRow>, w: &Window) -> (out: Vec<SkillEventRow>)
    ensures
        out@ == called(events@, w@),
        out.len() <= events.len(),
{
    let mut out: Vec<SkillEventRow> = Vec::new();
    let mut i: usize = 0;
    proof {
        reveal(Seq::filter);
        assert(events@.take(0) =~= Seq::<SkillEventRow>::empty());
    }
    while i < events.len()
        invariant
            i <= events.len(),
            out.len() <= i,
            out@ == called(events@.take(i as int), w@),
        decreases events.len() - i,
    {
        proof {
            crate::event::lemma_scoped_step(events@, w@, i as int);
            scoped(events@.take(i as int), w@).lemma_filter_push(events@[i as int], has_caller());
        }
        if w.contains(&events[i]) && events[i].caller_agent.is_some() {
            out.push(events[i].clone());
        }
        i = i + 1;
    }
    proof {
        events@.lemma_take_len();
    }
    out
}

/// Whether one of the events names no tool.
pub fn some_lacks_tool(rows: &Vec<SkillEventRow>) -> (r: bool)
    ensures
        r == (exists|i: int| 0 <= i < rows@.len() && lacks_tool()(#[trigger] rows@[i])),
{
    let mut i: usize = 0;
    while i < rows.len()
        invariant
            i <= rows.len(),
            forall|k: int| 0 <= k < i ==> !lacks_tool()(#[trigger] rows@[k]),
        decreases rows.len() - i,
    {
        if rows[i].caller_agent.is_some() && rows[i].caller_tool.is_none() {
            return true;
        }
        i = i + 1;
    }
    false
}

fn same_text(a: &Option<String>, b: &str) -> (r: bool)
    requires
        a is Some,
    ensures
        r == (a->0@ == b@),
{
    match a {
        Some(s) => str_eq(s.as_str(), b),
        None => false,
    }
}

fn text_of(a: &Option<String>) -> (r: String)
    requires
        a is Some,
    ensures
        r@ == a->0@,
{
    match a {
        Some(s) => s.clone(),
        None => String::new(),
    }
}

fn find_key(entries: &Vec<CallerDependency>, e: &SkillEventRow) -> (r: Option<usize>)
    requires
        e.caller_agent is Some,
        e.caller_tool is Some,
    ensures
        match r {
            Some(i) => i < entries@.len() && entry_key(entries@[i as int]) == caller_key()(*e),
            None => forall|k: int|
                0 <= k < entries@.len() ==> entry_key(#[trigger] entries@[k]) != caller_key()(*e),
        },
{
    let mut i: usize = 0;
    while i < entries.len()
        invariant
            i <= entries.len(),
            e.caller_agent is Some,
            e.caller_tool is Some,
            forall|k: int| 0 <= k < i ==> entry_key(#[trigger] entries@[k]) != caller_key()(*e),
        decreases entries.len() - i,
    {
        let c = &entries[i];
        if same_text(&e.caller_agent, c.caller_agent.as_str()) && same_text(
            &e.caller_tool,
            c.caller_tool.as_str(),
        ) && str_eq(e.skill_id.as_str(), c.skill_id.as_str()) {
            return Some(i);
        }
        i = i + 1;
    }
    None
}

/// The number of the events that are of the caller, tool and skill of the
/// entry.
fn count_called(rows: &Vec<SkillEventRow>, entry: &CallerDependency) -> (n: usize)
    requires
        forall|i: int| 0 <= i < rows@.len() ==> (#[trigger] rows@[i]).caller_agent is Some,
        forall|i: int| 0 <= i < rows@.len() ==> (#[trigger] rows@[i]).caller_tool is Some,
    ensures
        n == rows@.filter(called_by(entry_key(*entry))).len(),
        n <= rows.len(),
{
    let ghost pick = called_by(entry_key(*entry));
    let mut n: usize = 0;
    let mut i: usize = 0;
    while i < rows.len()
        invariant
            i <= rows.len(),
            n <= i,
            pick == called_by(entry_key(*entry)),
            forall|i: int| 0 <= i < rows@.len() ==> (#[trigger] rows@[i]).caller_agent is Some,
            forall|i: int| 0 <= i < rows@.len() ==> (#[trigger] rows@[i]).caller_tool is Some,
            n == rows@.take(i as int).filter(pick).len(),
        decreases rows.len() - i,
    {
        proof {
            rows@.lemma_take_succ_push(i as int);
            rows@.take(i as int).lemma_filter_push(rows@[i as int], pick);
        }
        let e = &rows[i];
        if same_text(&e.caller_agent, entry.caller_agent.as_str()) && same_text(
            &e.caller_tool,
            entry.caller_tool.as_str(),
        ) && str_eq(e.skill_id.as_str(), entry.skill_id.as_str()) {
            n = n + 1;
        }
        i = i + 1;
    }
    proof {
        rows@.lemma_take_len();
    }
    n
}

/// The combinations of caller, tool and skill among the events of the
/// window that name their caller, each with the number of its events, the
/// largest number first; combinations with as many events stand in the
/// order of their first event. The analysis fails where one of these
/// events names no tool.
pub fn caller_analysis(events: &Vec<SkillEventRow>, w: &Window) -> (r: Result<
    Vec<CallerDependency>,
    StorageError,
>)
    requires
        events.len() <= 0x7fff_ffff,
    ensures
        r matches Err(e) ==> e == StorageError::MissingValue,
        r is Err <==> exists|i: int|
            0 <= i < called(events@, w@).len() && lacks_tool()(#[trigger] called(events@, w@)[i]),
        r is Ok ==> exists|order: Seq<usize>| #[trigger]
            is_caller_analysis(r->Ok_0@, called(events@, w@), order),
{
    let rows = called_events(events, w);
    if some_lacks_tool(&rows) {
        return Err(StorageError::MissingValue);
    }
    proof {
        assert forall|i: int| 0 <= i < rows@.len() implies (#[trigger] rows@[i]).caller_agent is Some by {
            scoped(events@, w@).lemma_filter_pred(has_caller(), i);
        }
        assert forall|i: int| 0 <= i < rows@.len() implies (#[trigger] rows@[i]).caller_tool is Some by {
            assert(!lacks_tool()(rows@[i]));
        }
    }
    let ghost all = rows@.map_values(caller_key());
    let mut entries: Vec<CallerDependency> = Vec::new();
    let mut i: usize = 0;
    assert(entries@.map_values(|c: CallerDependency| entry_key(c)) =~= distinct(all.take(0)));
    while i < rows.len()
        invariant
            i <= rows.len(),
            all == rows@.map_values(caller_key()),
            forall|i: int| 0 <= i < rows@.len() ==> (#[trigger] rows@[i]).caller_agent is Some,
            forall|i: int| 0 <= i < rows@.len() ==> (#[trigger] rows@[i]).caller_tool is Some,
            entries@.map_values(|c: CallerDependency| entry_key(c)) == distinct(all.take(i as int)),
        decreases rows.len() - i,
    {
        let e = &rows[i];
        let ghost before = entries@;
        let ghost keys = before.map_values(|c: CallerDependency| entry_key(c));
        proof {
            lemma_distinct_step(all, i as int);
            assert(all[i as int] == caller_key()(rows@[i as int]));
        }
        match find_key(&entries, e) {
            Some(at) => {
                assert(keys[at as int] == all[i as int]);
            },
            None => {
                assert(!keys.contains(all[i as int])) by {
                    if keys.contains(all[i as int]) {
                        let k = choose|k: int| 0 <= k < keys.len() && keys[k] == all[i as int];
                        assert(entry_key(before[k]) == all[i as int]);
                    }
                }
                let entry = CallerDependency {
                    caller_agent: text_of(&e.caller_agent),
                    caller_tool: text_of(&e.caller_tool),
                    skill_id: e.skill_id.clone(),
                    call_count: 0,
                };
                entries.push(entry);
                assert(entries@.map_values(|c: CallerDependency| entry_key(c)) =~= keys.push(
                    all[i as int],
                ));
            },
        }
        i = i + 1;
    }
    proof {
        all.lemma_take_len();
    }
    let ghost keys = caller_keys(rows@);
    let mut counted: Vec<CallerDependency> = Vec::new();
    let mut counts: Vec<i128> = Vec::new();
    let mut k: usize = 0;
    while k < entries.len()
        invariant
            k <= entries.len(),
            rows.len() <= 0x7fff_ffff,
            forall|i: int| 0 <= i < rows@.len() ==> (#[trigger] rows@[i]).caller_agent is Some,
            forall|i: int| 0 <= i < rows@.len() ==> (#[trigger] rows@[i]).caller_tool is Some,
            keys == caller_keys(rows@),
            entries@.map_values(|c: CallerDependency| entry_key(c)) == keys,
            counted@.len() == k,
            counts@.len() == k,
            forall|i: int| 0 <= i < k ==> entry_key(#[trigger] counted@[i]) == keys[i],
            forall|i: int| 0 <= i < k ==> (#[trigger] counted@[i]).call_count == caller_counts(rows@)[i],
            forall|i: int| 0 <= i < k ==> #[trigger] counts@[i] == caller_counts(rows@)[i],
        decreases entries.len() - k,
    {
        let n = count_called(&rows, &entries[k]);
        proof {
            assert(entries@.map_values(|c: CallerDependency| entry_key(c))[k as int] == entry_key(
                entries@[k as int],
            ));
        }
        counts.push(n as i128);
        counted.push(
            CallerDependency {
                caller_agent: entries[k].caller_agent.clone(),
                caller_tool: entries[k].caller_tool.clone(),
                skill_id: entries[k].skill_id.clone(),
                call_count: n as i64,
            },
        );
        k = k + 1;
    }
    assert(counts@ =~= caller_counts(rows@));
    let order = rank_descending(&counts);
    let mut out: Vec<CallerDependency> = Vec::new();
    let mut a: usize = 0;
    while a < counted.len()
        invariant
            a <= counted.len(),
            counted@.len() == counts@.len(),
            is_ranking(counts@, order@),
            out@.len() == a,
            forall|i: int| 0 <= i < a ==> #[trigger] out@[i] == counted@[order@[i] as int],
        decreases counted.len() - a,
    {
        out.push(counted[order[a]].clone());
        a = a + 1;
    }
    let r: Result<Vec<CallerDependency>, StorageError> = Ok(out);
    proof {
        assert(r->Ok_0@ == out@);
        assert(is_caller_analysis(out@, rows@, order@));
    }
    r
}

} // verus!
