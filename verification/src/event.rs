//! Usage events, and the windows over which they are counted.

use vstd::prelude::*;
use crate::text::str_eq;

verus! {

/// One record of a skill invocation. Costs are held in millionths of a
/// dollar, so that sums of them are exact.
#[derive(Debug)]
pub struct SkillEventRow {
    pub id: String,
    pub event_type: String,
    pub skill_id: String,
    pub timestamp: i64,
    pub user_id: String,
    pub session_id: String,
    pub input_hash: Option<String>,
    pub success: bool,
    pub duration_ms: Option<i64>,
    pub error: Option<String>,
    pub feedback_score: Option<i32>,
    pub token_input: Option<i64>,
    pub token_output: Option<i64>,
    pub api_cost_micro_usd: Option<i64>,
    pub caller_agent: Option<String>,
    pub caller_workflow: Option<String>,
    pub caller_tool: Option<String>,
    pub metadata_json: Option<String>,
}

impl Clone for SkillEventRow {
    fn clone(&self) -> (r: Self)
        ensures
            r == *self,
    {
        SkillEventRow {
            id: self.id.clone(),
            event_type: self.event_type.clone(),
            skill_id: self.skill_id.clone(),
            timestamp: self.timestamp,
            user_id: self.user_id.clone(),
            session_id: self.session_id.clone(),
            input_hash: self.input_hash.clone(),
            success: self.success,
            duration_ms: self.duration_ms,
            error: self.error.clone(),
            feedback_score: self.feedback_score,
            token_input: self.token_input,
            token_output: self.token_output,
            api_cost_micro_usd: self.api_cost_micro_usd,
            caller_agent: self.caller_agent.clone(),
            caller_workflow: self.caller_workflow.clone(),
            caller_tool: self.caller_tool.clone(),
            metadata_json: self.metadata_json.clone(),
        }
    }
}

/// A selection of events: those of one skill or of all, from `start` on,
/// and before `end` where there is one.
pub ghost struct Scope {
    pub skill: Option<Seq<char>>,
    pub start: int,
    pub end: Option<int>,
}

impl Scope {
    /// Whether the event belongs to the selection.
    pub open spec fn holds(self, e: SkillEventRow) -> bool {
        &&& e.timestamp >= self.start
        &&& self.end matches Some(end) ==> e.timestamp < end
        &&& self.skill matches Some(skill) ==> e.skill_id@ == skill
    }

    /// The selection as a predicate.
    pub open spec fn pred(self) -> spec_fn(SkillEventRow) -> bool {
        |e: SkillEventRow| self.holds(e)
    }

    /// Every event in `[start, end)`.
    pub open spec fn between(start: int, end: int) -> Scope {
        Scope { skill: None, start, end: Some(end) }
    }

    /// Every event of the trailing window of `days` days that ends at
    /// `now`: those from `now - days * 86400` on and before `now`.
    pub open spec fn trailing(now: int, days: int) -> Scope {
        Scope::between(now - days * 86400, now)
    }

    /// Every event of the window of `days` days just before the trailing
    /// window of `days` days that ends at `now`.
    pub open spec fn preceding(now: int, days: int) -> Scope {
        Scope::between(now - 2 * days * 86400, now - days * 86400)
    }

    /// Every event, whenever it happened.
    pub open spec fn whole_time() -> Scope {
        Scope { skill: None, start: i64::MIN as int, end: None }
    }

    /// The same selection, restricted to one skill.
    pub open spec fn of_skill(self, skill: Seq<char>) -> Scope {
        Scope { skill: Some(skill), start: self.start, end: self.end }
    }
}

/// The events of a selection, in stored order.
pub open spec fn scoped(events: Seq<SkillEventRow>, scope: Scope) -> Seq<SkillEventRow> {
    events.filter(scope.pred())
}

/// Whether an event succeeded, as a predicate.
pub open spec fn succeeded() -> spec_fn(SkillEventRow) -> bool {
    |e: SkillEventRow| e.success
}

/// Whether an event failed, as a predicate.
pub open spec fn failed() -> spec_fn(SkillEventRow) -> bool {
    |e: SkillEventRow| !e.success
}

/// The duration of an event, where it has one.
pub open spec fn duration_of() -> spec_fn(SkillEventRow) -> Option<i64> {
    |e: SkillEventRow| e.duration_ms
}

/// The user of an event.
pub open spec fn user_of() -> spec_fn(SkillEventRow) -> Seq<char> {
    |e: SkillEventRow| e.user_id@
}

/// The skill of an event.
pub open spec fn skill_of() -> spec_fn(SkillEventRow) -> Seq<char> {
    |e: SkillEventRow| e.skill_id@
}

/// The cost of an event, where it has one.
pub open spec fn cost_of() -> spec_fn(SkillEventRow) -> Option<i64> {
    |e: SkillEventRow| e.api_cost_micro_usd
}

/// Whether an event was given the feedback score, as a predicate.
pub open spec fn scored(score: i32) -> spec_fn(SkillEventRow) -> bool {
    |e: SkillEventRow| e.feedback_score == Some(score)
}

/// The costs of the events that have one, in stored order.
pub open spec fn costs(events: Seq<SkillEventRow>) -> Seq<i64> {
    events.filter_map(cost_of())
}

/// The durations of the events that have one, in stored order.
pub open spec fn durations(events: Seq<SkillEventRow>) -> Seq<i64> {
    events.filter_map(duration_of())
}

/// The users that occur in the events.
pub open spec fn users(events: Seq<SkillEventRow>) -> Set<Seq<char>> {
    events.map_values(user_of()).to_set()
}

/// A step of [`scoped`]: the selection of the first `i + 1` events is that
/// of the first `i`, with the next event added where it belongs.
pub proof fn lemma_scoped_step(events: Seq<SkillEventRow>, scope: Scope, i: int)
    requires
        0 <= i < events.len(),
    ensures
        scoped(events.take(i + 1), scope) == if scope.holds(events[i]) {
            scoped(events.take(i), scope).push(events[i])
        } else {
            scoped(events.take(i), scope)
        },
{
    events.lemma_take_succ_push(i);
    events.take(i).lemma_filter_push(events[i], scope.pred());
}

/// A selection of events as held at run time, see [`Scope`].
pub struct Window {
    pub skill: Option<String>,
    pub start: i128,
    pub end: Option<i128>,
}

impl View for Window {
    type V = Scope;

    open spec fn view(&self) -> Scope {
        Scope {
            skill: match self.skill {
                Some(s) => Some(s@),
                None => None,
            },
            start: self.start as int,
            end: match self.end {
                Some(e) => Some(e as int),
                None => None,
            },
        }
    }
}

impl Window {
    /// The trailing window of `days` days that ends at `now`: every event
    /// from `now - days * 86400` on and before `now`.
    pub fn trailing(now: i64, days: i64) -> (w: Window)
        ensures
            w@ == Scope::trailing(now as int, days as int),
    {
        Window {
            skill: None,
            start: now as i128 - days as i128 * 86400,
            end: Some(now as i128),
        }
    }

    /// The window of equal length that comes just before the trailing
    /// window of `days` days.
    pub fn preceding(now: i64, days: i64) -> (w: Window)
        ensures
            w@ == Scope::preceding(now as int, days as int),
    {
        let start: i128 = now as i128 - days as i128 * 86400;
        Window { skill: None, start: start - days as i128 * 86400, end: Some(start) }
    }

    /// The window of every event, whenever it happened.
    pub fn whole_time() -> (w: Window)
        ensures
            w@ == Scope::whole_time(),
    {
        Window { skill: None, start: i64::MIN as i128, end: None }
    }

    /// The same window, restricted to one skill.
    pub fn of_skill(&self, skill: &str) -> (w: Window)
        ensures
            w@ == self@.of_skill(skill@),
    {
        Window { skill: Some(skill.to_string()), start: self.start, end: self.end }
    }

    /// Whether the event belongs to the window.
    pub fn contains(&self, e: &SkillEventRow) -> (r: bool)
        ensures
            r == self@.holds(*e),
    {
        if (e.timestamp as i128) < self.start {
            return false;
        }
        match self.end {
            Some(end) => {
                if e.timestamp as i128 >= end {
                    return false;
                }
            },
            None => {},
        }
        match &self.skill {
            Some(skill) => str_eq(e.skill_id.as_str(), skill.as_str()),
            None => true,
        }
    }
}

} // verus!
