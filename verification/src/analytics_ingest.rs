//! The wire side of the engine: what a request asks for, what an event on
//! the wire becomes in the store, and how a batch of events is taken in.
//!
//! Nothing here listens or sends. Whoever serves the requests hands over
//! the method and the address of each, and the events that it read from
//! the body, and sends what comes back.

use vstd::prelude::*;
use crate::analytics_alert::{is_run, run_view, AlertDetector};
use crate::stats::AnalyticsAlert;
use crate::analytics_store::{insert_all, lemma_insert_all_len, AnalyticsStore};
use crate::calendar::{parse_rfc3339, rfc3339_seconds};
use crate::clock::unix_now;
use crate::distinct::{
    distinct, lemma_distinct, lemma_distinct_step, lemma_texts_push, position, texts,
};
use crate::event::SkillEventRow;
use crate::ident::new_id;
use crate::stats::{storage_message, AnalyticsError, StorageError};
use crate::text::{decimal, decimal_string, parse_i64, parsed_i64, str_eq};
use crate::web_address::{pair_texts, url_path, url_path_text, url_query, url_query_text};

verus! {

/// Where the server listens.
pub const INGEST_ADDR: &'static str = "127.0.0.1:19823";

/// The days that an overview or a ranking of skills covers where none are
/// asked for.
pub const DEFAULT_DAYS_SHORT: i64 = 7;

/// The days that the other queries cover where none are asked for.
pub const DEFAULT_DAYS_LONG: i64 = 30;

/// The number of skills in a ranking where none is asked for.
pub const DEFAULT_LIMIT: i64 = 10;

/// The cost of an event on the wire, in millionths of a dollar.
#[derive(Debug)]
pub struct IngestCost {
    pub token_input: Option<i64>,
    pub token_output: Option<i64>,
    pub api_cost_micro_usd: Option<i64>,
}

/// The caller of an event on the wire.
#[derive(Debug)]
pub struct IngestCaller {
    pub agent_id: Option<String>,
    pub workflow_id: Option<String>,
    pub tool_key: Option<String>,
}

/// An event on the wire. Its metadata is carried as the text it was sent
/// as.
#[derive(Debug)]
pub struct IngestEvent {
    pub event_type: String,
    pub skill_id: String,
    pub timestamp: String,
    pub user_id: String,
    pub session_id: String,
    pub input_hash: Option<String>,
    pub success: bool,
    pub duration_ms: Option<i64>,
    pub error: Option<String>,
    pub feedback_score: Option<i32>,
    pub cost: Option<IngestCost>,
    pub caller: Option<IngestCaller>,
    pub metadata: Option<String>,
}

/// A request to take in events.
#[derive(Debug)]
pub struct IngestRequest {
    pub events: Vec<IngestEvent>,
}

/// The time of an event: the time that its time stamp states, and the
/// time at which it is taken in where the time stamp states none.
pub open spec fn event_time(stated: Option<i64>, now: i64) -> i64 {
    match stated {
        Some(t) => t,
        None => now,
    }
}

/// The row that an event on the wire becomes under an id and a time.
pub open spec fn row_of(e: IngestEvent, id: String, timestamp: i64) -> SkillEventRow {
    SkillEventRow {
        id,
        event_type: e.event_type,
        skill_id: e.skill_id,
        timestamp,
        user_id: e.user_id,
        session_id: e.session_id,
        input_hash: e.input_hash,
        success: e.success,
        duration_ms: e.duration_ms,
        error: e.error,
        feedback_score: e.feedback_score,
        token_input: match e.cost {
            Some(c) => c.token_input,
            None => None,
        },
        token_output: match e.cost {
            Some(c) => c.token_output,
            None => None,
        },
        api_cost_micro_usd: match e.cost {
            Some(c) => c.api_cost_micro_usd,
            None => None,
        },
        caller_agent: match e.caller {
            Some(c) => c.agent_id,
            None => None,
        },
        caller_workflow: match e.caller {
            Some(c) => c.workflow_id,
            None => None,
        },
        caller_tool: match e.caller {
            Some(c) => c.tool_key,
            None => None,
        },
        metadata_json: e.metadata,
    }
}

/// Whether a row is what an event on the wire becomes under some id, at
/// the time that its time stamp states or else at some time.
pub open spec fn is_row_of(e: IngestEvent, row: SkillEventRow) -> bool {
    exists|id: String, now: i64| #[trigger]
        row_of(e, id, event_time(rfc3339_seconds(e.timestamp@), now)) == row
}

/// Whether the rows are what the events become, one by one.
pub open spec fn are_rows_of(events: Seq<IngestEvent>, rows: Seq<SkillEventRow>) -> bool {
    &&& rows.len() == events.len()
    &&& forall|i: int| 0 <= i < rows.len() ==> is_row_of(events[i], #[trigger] rows[i])
}

impl IngestEvent {
    /// The row that the event becomes under a fresh id. Its time is the
    /// one that the time stamp states in the format of RFC 3339, and the
    /// time of the system clock where it states none.
    pub fn to_row(&self) -> (r: SkillEventRow)
        ensures
            is_row_of(*self, r),
    {
        let now = match unix_now() {
            Some(t) => t,
            None => 0,
        };
        let stated = parse_rfc3339(self.timestamp.as_str());
        let id = new_id();
        let r = self.row_with(id, Self::time_of(stated, now));
        assert(row_of(*self, id, event_time(rfc3339_seconds(self.timestamp@), now)) == r);
        r
    }

    /// The time of an event, see [`event_time`].
    pub fn time_of(stated: Option<i64>, now: i64) -> (r: i64)
        ensures
            r == event_time(stated, now),
    {
        match stated {
            Some(t) => t,
            None => now,
        }
    }

    /// The row that the event becomes under the id and the time given.
    pub fn row_with(&self, id: String, timestamp: i64) -> (r: SkillEventRow)
        ensures
            r == row_of(*self, id, timestamp),
    {
        SkillEventRow {
            id,
            event_type: self.event_type.clone(),
            skill_id: self.skill_id.clone(),
            timestamp,
            user_id: self.user_id.clone(),
            session_id: self.session_id.clone(),
            input_hash: self.input_hash.clone(),
            success: self.success,
            duration_ms: self.duration_ms,
            error: self.error.clone(),
            feedback_score: self.feedback_score,
            token_input: match &self.cost {
                Some(c) => c.token_input,
                None => None,
            },
            token_output: match &self.cost {
                Some(c) => c.token_output,
                None => None,
            },
            api_cost_micro_usd: match &self.cost {
                Some(c) => c.api_cost_micro_usd,
                None => None,
            },
            caller_agent: match &self.caller {
                Some(c) => c.agent_id.clone(),
                None => None,
            },
            caller_workflow: match &self.caller {
                Some(c) => c.workflow_id.clone(),
                None => None,
            },
            caller_tool: match &self.caller {
                Some(c) => c.tool_key.clone(),
                None => None,
            },
            metadata_json: self.metadata.clone(),
        }
    }
}

/// What a request asks for.
#[derive(Debug)]
pub enum Route {
    Overview { days: i64 },
    TopSkills { days: i64, limit: i64 },
    DailyTrend { days: i64 },
    SuccessRate { days: i64, skill_id: Option<String> },
    CostSummary { days: i64 },
    CallerAnalysis { days: i64 },
    UserRetention { days: i64 },
    Alerts,
    Events,
    NotFound,
}

/// What a request asks for, by what its texts say.
pub ghost enum RouteView {
    Overview { days: i64 },
    TopSkills { days: i64, limit: i64 },
    DailyTrend { days: i64 },
    SuccessRate { days: i64, skill_id: Option<Seq<char>> },
    CostSummary { days: i64 },
    CallerAnalysis { days: i64 },
    UserRetention { days: i64 },
    Alerts,
    Events,
    NotFound,
}

impl View for Route {
    type V = RouteView;

    open spec fn view(&self) -> RouteView {
        match *self {
            Route::Overview { days } => RouteView::Overview { days },
            Route::TopSkills { days, limit } => RouteView::TopSkills { days, limit },
            Route::DailyTrend { days } => RouteView::DailyTrend { days },
            Route::SuccessRate { days, skill_id } => RouteView::SuccessRate {
                days,
                skill_id: match skill_id {
                    Some(s) => Some(s@),
                    None => None,
                },
            },
            Route::CostSummary { days } => RouteView::CostSummary { days },
            Route::CallerAnalysis { days } => RouteView::CallerAnalysis { days },
            Route::UserRetention { days } => RouteView::UserRetention { days },
            Route::Alerts => RouteView::Alerts,
            Route::Events => RouteView::Events,
            Route::NotFound => RouteView::NotFound,
        }
    }
}

/// The value of the first pair with the key, if there is one.
pub open spec fn first_value(pairs: Seq<(Seq<char>, Seq<char>)>, key: Seq<char>) -> Option<
    Seq<char>,
>
    decreases pairs.len(),
{
    if pairs.len() == 0 {
        None
    } else if pairs[0].0 == key {
        Some(pairs[0].1)
    } else {
        first_value(pairs.drop_first(), key)
    }
}

/// The number that the first pair with the key states, and `default`
/// where there is no pair with the key or it states no number.
pub open spec fn number_or(pairs: Seq<(Seq<char>, Seq<char>)>, key: Seq<char>, default: i64) -> i64 {
    match first_value(pairs, key) {
        Some(v) => match parsed_i64(v) {
            Some(n) => n,
            None => default,
        },
        None => default,
    }
}

/// What a request asks for, given its method, the path of its address and
/// the pairs of its query.
pub open spec fn route_of(
    method: Seq<char>,
    path: Seq<char>,
    pairs: Seq<(Seq<char>, Seq<char>)>,
) -> RouteView {
    if method == "GET"@ {
        if path == "/v1/analytics/overview"@ {
            RouteView::Overview { days: number_or(pairs, "days"@, DEFAULT_DAYS_SHORT) }
        } else if path == "/v1/analytics/top_skills"@ {
            RouteView::TopSkills {
                days: number_or(pairs, "days"@, DEFAULT_DAYS_SHORT),
                limit: number_or(pairs, "limit"@, DEFAULT_LIMIT),
            }
        } else if path == "/v1/analytics/daily_trend"@ {
            RouteView::DailyTrend { days: number_or(pairs, "days"@, DEFAULT_DAYS_LONG) }
        } else if path == "/v1/analytics/success_rate"@ {
            RouteView::SuccessRate {
                days: number_or(pairs, "days"@, DEFAULT_DAYS_LONG),
                skill_id: first_value(pairs, "skill_id"@),
            }
        } else if path == "/v1/analytics/cost_summary"@ {
            RouteView::CostSummary { days: number_or(pairs, "days"@, DEFAULT_DAYS_LONG) }
        } else if path == "/v1/analytics/caller_analysis"@ {
            RouteView::CallerAnalysis { days: number_or(pairs, "days"@, DEFAULT_DAYS_LONG) }
        } else if path == "/v1/analytics/user_retention"@ {
            RouteView::UserRetention { days: number_or(pairs, "days"@, DEFAULT_DAYS_LONG) }
        } else if path == "/v1/analytics/alerts"@ {
            RouteView::Alerts
        } else {
            RouteView::NotFound
        }
    } else if method == "POST"@ && path == "/v1/events"@ {
        RouteView::Events
    } else {
        RouteView::NotFound
    }
}

/// The value of the first pair with the key, if there is one.
pub fn find_value<'a>(pairs: &'a Vec<(String, String)>, key: &str) -> (r: Option<&'a String>)
    ensures
        match r {
            Some(v) => first_value(pair_texts(pairs@), key@) == Some(v@),
            None => first_value(pair_texts(pairs@), key@) is None,
        },
{
    let ghost all = pair_texts(pairs@);
    let mut i: usize = 0;
    assert(all.skip(0) =~= all);
    while i < pairs.len()
        invariant
            i <= pairs.len(),
            all == pair_texts(pairs@),
            first_value(all, key@) == first_value(all.skip(i as int), key@),
        decreases pairs.len() - i,
    {
        proof {
            assert(all.skip(i as int)[0] == all[i as int]);
            assert(all[i as int] == (pairs@[i as int].0@, pairs@[i as int].1@));
            assert(all.skip(i as int).drop_first() =~= all.skip(i + 1));
        }
        if str_eq(pairs[i].0.as_str(), key) {
            return Some(&pairs[i].1);
        }
        i = i + 1;
    }
    None
}

/// The number that the first pair with the key states, see
/// [`number_or`].
pub fn find_number(pairs: &Vec<(String, String)>, key: &str, default: i64) -> (r: i64)
    ensures
        r == number_or(pair_texts(pairs@), key@, default),
{
    match find_value(pairs, key) {
        Some(v) => match parse_i64(v.as_str()) {
            Some(n) => n,
            None => default,
        },
        None => default,
    }
}

/// What a request asks for, given its method, the path of its address and
/// the pairs of its query.
pub fn route_request(method: &str, path: &str, pairs: &Vec<(String, String)>) -> (r: Route)
    ensures
        r@ == route_of(method@, path@, pair_texts(pairs@)),
{
    if str_eq(method, "GET") {
        if str_eq(path, "/v1/analytics/overview") {
            Route::Overview { days: find_number(pairs, "days", DEFAULT_DAYS_SHORT) }
        } else if str_eq(path, "/v1/analytics/top_skills") {
            Route::TopSkills {
                days: find_number(pairs, "days", DEFAULT_DAYS_SHORT),
                limit: find_number(pairs, "limit", DEFAULT_LIMIT),
            }
        } else if str_eq(path, "/v1/analytics/daily_trend") {
            Route::DailyTrend { days: find_number(pairs, "days", DEFAULT_DAYS_LONG) }
        } else if str_eq(path, "/v1/analytics/success_rate") {
            let skill_id = match find_value(pairs, "skill_id") {
                Some(v) => Some(v.clone()),
                None => None,
            };
            Route::SuccessRate { days: find_number(pairs, "days", DEFAULT_DAYS_LONG), skill_id }
        } else if str_eq(path, "/v1/analytics/cost_summary") {
            Route::CostSummary { days: find_number(pairs, "days", DEFAULT_DAYS_LONG) }
        } else if str_eq(path, "/v1/analytics/caller_analysis") {
            Route::CallerAnalysis { days: find_number(pairs, "days", DEFAULT_DAYS_LONG) }
        } else if str_eq(path, "/v1/analytics/user_retention") {
            Route::UserRetention { days: find_number(pairs, "days", DEFAULT_DAYS_LONG) }
        } else if str_eq(path, "/v1/analytics/alerts") {
            Route::Alerts
        } else {
            Route::NotFound
        }
    } else if str_eq(method, "POST") && str_eq(path, "/v1/events") {
        Route::Events
    } else {
        Route::NotFound
    }
}

/// The absolute address of a request, given the address that it names
/// relative to the server.
pub open spec fn absolute(url: Seq<char>) -> Seq<char> {
    "http://"@ + INGEST_ADDR@ + url
}

/// What a request asks for, given its method and address; nothing where
/// the address cannot be read.
pub open spec fn route_for(method: Seq<char>, url: Seq<char>) -> RouteView {
    match (url_path_text(absolute(url)), url_query_text(absolute(url))) {
        (Some(path), Some(pairs)) => route_of(method, path, pairs),
        _ => RouteView::NotFound,
    }
}

/// What a request asks for, given its method and the address that it
/// names relative to the server, query included.
pub fn route(method: &str, url: &str) -> (r: Route)
    ensures
        r@ == route_for(method@, url@),
{
    let mut full = "http://".to_string();
    full.append(INGEST_ADDR);
    full.append(url);
    match (url_path(full.as_str()), url_query(full.as_str())) {
        (Some(path), Some(pairs)) => route_request(method, path.as_str(), &pairs),
        _ => Route::NotFound,
    }
}

/// An answer of the server.
#[derive(Debug)]
pub struct Reply {
    pub status: u16,
    pub json: bool,
    pub body: String,
}

/// What an answer says.
pub ghost struct ReplyView {
    pub status: u16,
    pub json: bool,
    pub body: Seq<char>,
}

impl View for Reply {
    type V = ReplyView;

    open spec fn view(&self) -> ReplyView {
        ReplyView { status: self.status, json: self.json, body: self.body@ }
    }
}

/// The answer to a request for something unknown.
pub open spec fn not_found() -> ReplyView {
    ReplyView { status: 404, json: false, body: "Not Found"@ }
}

/// The answer to a request whose body could not be read.
pub open spec fn unreadable() -> ReplyView {
    ReplyView { status: 400, json: false, body: "Bad Request"@ }
}

/// The answer to a request whose body is no request to take in events.
pub open spec fn invalid_json(problem: Seq<char>) -> ReplyView {
    ReplyView {
        status: 400,
        json: true,
        body: "{\"error\": \"Invalid JSON: "@ + problem + "\"}"@,
    }
}

/// The answer to a batch that was taken in.
pub open spec fn accepted(count: int) -> ReplyView {
    ReplyView { status: 200, json: true, body: "{\"accepted\": "@ + decimal(count) + "}"@ }
}

/// The answer to a request that the store refused.
pub open spec fn internal_error(e: StorageError) -> ReplyView {
    ReplyView {
        status: 500,
        json: true,
        body: "{\"error\": \"Internal error: "@ + storage_message(e) + "\"}"@,
    }
}

/// The answer to a request on a store whose schema is not supported.
pub open spec fn unsupported_schema() -> ReplyView {
    ReplyView {
        status: 500,
        json: true,
        body: "{\"error\": \"Internal error: the stored schema is not supported\"}"@,
    }
}

/// The answer that carries the result of a query.
pub open spec fn query_result(body: Seq<char>) -> ReplyView {
    ReplyView { status: 200, json: true, body }
}

impl Reply {
    /// The answer to a request for something unknown.
    pub fn not_found() -> (r: Reply)
        ensures
            r@ == not_found(),
    {
        Reply { status: 404, json: false, body: "Not Found".to_string() }
    }

    /// The answer to a request whose body could not be read.
    pub fn unreadable() -> (r: Reply)
        ensures
            r@ == unreadable(),
    {
        Reply { status: 400, json: false, body: "Bad Request".to_string() }
    }

    /// The answer to a request whose body is no request to take in
    /// events.
    pub fn invalid_json(problem: &str) -> (r: Reply)
        ensures
            r@ == invalid_json(problem@),
    {
        let mut body = "{\"error\": \"Invalid JSON: ".to_string();
        body.append(problem);
        body.append("\"}");
        Reply { status: 400, json: true, body }
    }

    /// The answer to a batch of `count` events that was taken in.
    pub fn accepted(count: usize) -> (r: Reply)
        ensures
            r@ == accepted(count as int),
    {
        let mut body = "{\"accepted\": ".to_string();
        body.append(decimal_string(count as i128).as_str());
        body.append("}");
        Reply { status: 200, json: true, body }
    }

    /// The answer to a request that the store refused.
    pub fn internal_error(e: StorageError) -> (r: Reply)
        ensures
            r@ == internal_error(e),
    {
        let mut body = "{\"error\": \"Internal error: ".to_string();
        body.append(e.message().as_str());
        body.append("\"}");
        Reply { status: 500, json: true, body }
    }

    /// The answer that carries the result of a query, which the caller
    /// has written out.
    pub fn query_result(body: String) -> (r: Reply)
        ensures
            r@ == query_result(body@),
    {
        Reply { status: 200, json: true, body }
    }

    /// The answer to a request that failed.
    pub fn failure(e: AnalyticsError) -> (r: Reply)
        ensures
            r.status == crate::stats::status_of(e),
            e == AnalyticsError::NotFound ==> r@ == not_found(),
            e == AnalyticsError::Parse ==> r@ == unreadable(),
            e matches AnalyticsError::Storage(s) ==> r@ == internal_error(s),
            e is Schema ==> r@ == unsupported_schema(),
    {
        match e {
            AnalyticsError::NotFound => Reply::not_found(),
            AnalyticsError::Parse => Reply::unreadable(),
            AnalyticsError::Storage(s) => Reply::internal_error(s),
            AnalyticsError::Schema { .. } => Reply {
                status: 500,
                json: true,
                body: "{\"error\": \"Internal error: the stored schema is not supported\"}".to_string(),
            },
        }
    }
}

/// What taking in a batch came to.
#[derive(Debug)]
pub struct IngestReport {
    /// The number of events handed in.
    pub accepted: usize,
    /// The messages of the spikes that the checks found.
    pub alerts: Vec<String>,
    /// The skills whose checks failed, each with the reason.
    pub failed_checks: Vec<(String, StorageError)>,
}

/// The skill of each row, in order.
pub open spec fn row_skills(rows: Seq<SkillEventRow>) -> Seq<Seq<char>> {
    rows.map_values(|e: SkillEventRow| e.skill_id@)
}

/// The skills of the rows, each once, in the order of their first row.
pub fn batch_skills(rows: &Vec<SkillEventRow>) -> (out: Vec<String>)
    ensures
        texts(out@) == distinct(row_skills(rows@)),
{
    let ghost skills = row_skills(rows@);
    let mut out: Vec<String> = Vec::new();
    let mut i: usize = 0;
    assert(texts(out@) =~= distinct(skills.take(0)));
    while i < rows.len()
        invariant
            i <= rows.len(),
            skills == row_skills(rows@),
            texts(out@) == distinct(skills.take(i as int)),
        decreases rows.len() - i,
    {
        proof {
            lemma_distinct_step(skills, i as int);
            assert(skills[i as int] == rows@[i as int].skill_id@);
        }
        if position(&out, rows[i].skill_id.as_str()).is_none() {
            proof {
                lemma_texts_push(out@, rows@[i as int].skill_id);
            }
            out.push(rows[i].skill_id.clone());
        }
        i = i + 1;
    }
    proof {
        skills.lemma_take_len();
    }
    out
}

/// What one run of the checks came to: its outcome, by what its messages
/// say, and the alerts that were stored after it.
pub ghost struct CheckRun {
    pub outcome: Result<Seq<Seq<char>>, StorageError>,
    pub alerts: Seq<AnalyticsAlert>,
}

/// The alerts that are stored after the first `k` runs.
pub open spec fn alerts_after(start: Seq<AnalyticsAlert>, runs: Seq<CheckRun>, k: int) -> Seq<
    AnalyticsAlert,
> {
    if k <= 0 {
        start
    } else {
        runs[k - 1].alerts
    }
}

/// The failed checks by what their skills say.
pub open spec fn failure_views(failed: Seq<(String, StorageError)>) -> Seq<
    (Seq<char>, StorageError),
> {
    failed.map_values(|p: (String, StorageError)| (p.0@, p.1))
}

/// Whether the runs are those of the checks on the first skills of
/// `names`, one after the other at the time `now`: the run on a skill
/// starts from the alerts that the run before it left, and records under
/// the pair of ids at the place of the skill.
pub open spec fn are_first_runs(
    events: Seq<SkillEventRow>,
    start: Seq<AnalyticsAlert>,
    names: Seq<Seq<char>>,
    now: i64,
    ids: Seq<(Seq<char>, Seq<char>)>,
    runs: Seq<CheckRun>,
) -> bool {
    &&& runs.len() <= names.len()
    &&& runs.len() <= ids.len()
    &&& forall|k: int|
        0 <= k < runs.len() ==> is_run(
            events,
            alerts_after(start, runs, k),
            names[k],
            now,
            ids[k].0,
            ids[k].1,
            (#[trigger] runs[k]).outcome,
            runs[k].alerts,
        )
}

/// The messages of the runs that did not fail, in the order of the runs.
pub open spec fn run_messages(runs: Seq<CheckRun>) -> Seq<Seq<char>>
    decreases runs.len(),
{
    if runs.len() == 0 {
        Seq::empty()
    } else {
        run_messages(runs.drop_last()) + match runs.last().outcome {
            Ok(messages) => messages,
            Err(_) => Seq::empty(),
        }
    }
}

/// The runs that failed, in the order of the runs: each by its skill and
/// the reason.
pub open spec fn run_failures(names: Seq<Seq<char>>, runs: Seq<CheckRun>) -> Seq<
    (Seq<char>, StorageError),
>
    decreases runs.len(),
{
    if runs.len() == 0 {
        Seq::empty()
    } else {
        let before = run_failures(names, runs.drop_last());
        match runs.last().outcome {
            Ok(_) => before,
            Err(e) => before.push((names[runs.len() - 1], e)),
        }
    }
}

/// Whether checking the skills `names` one after the other at `now`,
/// under the ids given, goes by `runs` and comes to the alerts `after`,
/// the messages and the failures.
pub open spec fn took_checks(
    events: Seq<SkillEventRow>,
    start: Seq<AnalyticsAlert>,
    names: Seq<Seq<char>>,
    now: i64,
    ids: Seq<(Seq<char>, Seq<char>)>,
    runs: Seq<CheckRun>,
    after: Seq<AnalyticsAlert>,
    messages: Seq<Seq<char>>,
    failures: Seq<(Seq<char>, StorageError)>,
) -> bool {
    &&& runs.len() == names.len()
    &&& are_first_runs(events, start, names, now, ids, runs)
    &&& after == alerts_after(start, runs, runs.len() as int)
    &&& messages == run_messages(runs)
    &&& failures == run_failures(names, runs)
}

/// Each skill with the failure of the clock.
pub open spec fn clock_failures(names: Seq<Seq<char>>) -> Seq<(Seq<char>, StorageError)> {
    names.map_values(|n: Seq<char>| (n, StorageError::Clock))
}

/// Whether the checks on the skills came to the alerts `after`, the
/// messages and the failures: either the clock could not be read, so
/// every check failed for that and nothing was recorded, or the skills
/// were checked one after the other at some time under some ids.
pub open spec fn checks_ran(
    events: Seq<SkillEventRow>,
    start: Seq<AnalyticsAlert>,
    names: Seq<Seq<char>>,
    after: Seq<AnalyticsAlert>,
    messages: Seq<Seq<char>>,
    failures: Seq<(Seq<char>, StorageError)>,
) -> bool {
    ||| (after == start && messages.len() == 0 && failures == clock_failures(names))
    ||| exists|now: i64, ids: Seq<(Seq<char>, Seq<char>)>, runs: Seq<CheckRun>| #[trigger]
        took_checks(events, start, names, now, ids, runs, after, messages, failures)
}

/// Whether every alert past the first `from` is of one of the skills.
pub open spec fn new_alerts_among(
    alerts: Seq<AnalyticsAlert>,
    from: int,
    names: Seq<Seq<char>>,
) -> bool {
    forall|j: int| from <= j < alerts.len() ==> names.contains((#[trigger] alerts[j]).skill_id@)
}

/// One more run extends the runs of the checks on the first skills.
proof fn lemma_run_added(
    events: Seq<SkillEventRow>,
    start: Seq<AnalyticsAlert>,
    names: Seq<Seq<char>>,
    now: i64,
    ids: Seq<(Seq<char>, Seq<char>)>,
    earlier: Seq<CheckRun>,
    run: CheckRun,
)
    requires
        are_first_runs(events, start, names, now, ids, earlier),
        earlier.len() < names.len(),
        earlier.len() < ids.len(),
        is_run(
            events,
            alerts_after(start, earlier, earlier.len() as int),
            names[earlier.len() as int],
            now,
            ids[earlier.len() as int].0,
            ids[earlier.len() as int].1,
            run.outcome,
            run.alerts,
        ),
    ensures
        are_first_runs(events, start, names, now, ids, earlier.push(run)),
        alerts_after(start, earlier.push(run), earlier.len() as int + 1) == run.alerts,
        run_messages(earlier.push(run)) == run_messages(earlier) + match run.outcome {
            Ok(messages) => messages,
            Err(_) => Seq::empty(),
        },
        run_failures(names, earlier.push(run)) == match run.outcome {
            Ok(_) => run_failures(names, earlier),
            Err(e) => run_failures(names, earlier).push((names[earlier.len() as int], e)),
        },
{
    let runs = earlier.push(run);
    assert(runs.drop_last() =~= earlier);
    assert forall|g: int| 0 <= g < runs.len() implies is_run(
        events,
        alerts_after(start, runs, g),
        names[g],
        now,
        ids[g].0,
        ids[g].1,
        (#[trigger] runs[g]).outcome,
        runs[g].alerts,
    ) by {
        if g < earlier.len() {
            assert(runs[g] == earlier[g]);
            assert(alerts_after(start, runs, g) == alerts_after(start, earlier, g));
        } else {
            assert(alerts_after(start, runs, g) == alerts_after(
                start,
                earlier,
                earlier.len() as int,
            ));
        }
    }
}

/// Where a run on one of the skills adds alerts of that skill only, the
/// alerts past the first are still of the skills.
proof fn lemma_new_alerts_grow(
    start: Seq<AnalyticsAlert>,
    before: Seq<AnalyticsAlert>,
    after: Seq<AnalyticsAlert>,
    names: Seq<Seq<char>>,
    k: int,
)
    requires
        0 <= k < names.len(),
        start.is_prefix_of(before),
        before.is_prefix_of(after),
        new_alerts_among(before, start.len() as int, names),
        forall|j: int| before.len() <= j < after.len() ==> (#[trigger] after[j]).skill_id@ == names[k],
    ensures
        start.is_prefix_of(after),
        new_alerts_among(after, start.len() as int, names),
{
    assert forall|j: int| start.len() <= j < after.len() implies names.contains(
        (#[trigger] after[j]).skill_id@,
    ) by {
        if j < before.len() {
            assert(after[j] == before[j]);
        } else {
            assert(after[j].skill_id@ == names[k]);
        }
    }
}

/// Runs the checks on the skills one after the other at the time `now`;
/// the run on the skill at a place records under the pair of ids at that
/// place. It gives the messages of the runs that did not fail, and the
/// skill and the reason of each run that failed.
fn check_skills_at(
    store: &mut AnalyticsStore,
    skills: &Vec<String>,
    now: i64,
    ids: &Vec<(String, String)>,
) -> (out: (Vec<String>, Vec<(String, StorageError)>))
    requires
        old(store).wf(),
        ids@.len() >= skills@.len(),
    ensures
        final(store).wf(),
        final(store).rows() == old(store).rows(),
        final(store).rollups() == old(store).rollups(),
        final(store).limit() == old(store).limit(),
        final(store).version() == old(store).version(),
        old(store).alert_rows().is_prefix_of(final(store).alert_rows()),
        new_alerts_among(
            final(store).alert_rows(),
            old(store).alert_rows().len() as int,
            texts(skills@),
        ),
        forall|i: int| 0 <= i < out.1@.len() ==> (#[trigger] out.1@[i]).1 == StorageError::DuplicateKey,
        exists|runs: Seq<CheckRun>| #[trigger]
            took_checks(
                old(store).rows(),
                old(store).alert_rows(),
                texts(skills@),
                now,
                pair_texts(ids@),
                runs,
                final(store).alert_rows(),
                texts(out.0@),
                failure_views(out.1@),
            ),
{
    let mut alerts: Vec<String> = Vec::new();
    let mut failed: Vec<(String, StorageError)> = Vec::new();
    let mut k: usize = 0;
    let ghost events = store.rows();
    let ghost start = store.alert_rows();
    let ghost names = texts(skills@);
    let ghost pairs = pair_texts(ids@);
    let ghost mut runs: Seq<CheckRun> = Seq::empty();
    assert(texts(alerts@) =~= run_messages(runs));
    assert(failure_views(failed@) =~= run_failures(names, runs));
    while k < skills.len()
        invariant
            k <= skills.len(),
            ids@.len() >= skills@.len(),
            names == texts(skills@),
            pairs == pair_texts(ids@),
            store.wf(),
            store.rows() == events,
            store.rollups() == old(store).rollups(),
            store.limit() == old(store).limit(),
            store.version() == old(store).version(),
            start.is_prefix_of(store.alert_rows()),
            new_alerts_among(store.alert_rows(), start.len() as int, names),
            forall|i: int|
                0 <= i < failed@.len() ==> (#[trigger] failed@[i]).1 == StorageError::DuplicateKey,
            runs.len() == k,
            are_first_runs(events, start, names, now, pairs, runs),
            store.alert_rows() == alerts_after(start, runs, k as int),
            texts(alerts@) == run_messages(runs),
            failure_views(failed@) == run_failures(names, runs),
        decreases skills.len() - k,
    {
        let ghost before = store.alert_rows();
        let ghost earlier = runs;
        let ghost told = alerts@;
        let ghost failed_before = failed@;
        let r = AlertDetector::run_checks_at(
            store,
            skills[k].as_str(),
            now,
            ids[k].0.clone(),
            ids[k].1.clone(),
        );
        proof {
            let run = CheckRun { outcome: run_view(r), alerts: store.alert_rows() };
            runs = earlier.push(run);
            assert(names[k as int] == skills@[k as int]@);
            assert(pairs[k as int] == (ids@[k as int].0@, ids@[k as int].1@));
            lemma_run_added(events, start, names, now, pairs, earlier, run);
            lemma_new_alerts_grow(start, before, store.alert_rows(), names, k as int);
        }
        match r {
            Ok(mut found) => {
                let ghost more = found@;
                alerts.append(&mut found);
                proof {
                    assert(texts(alerts@) =~= texts(told) + texts(more));
                }
            },
            Err(e) => {
                failed.push((skills[k].clone(), e));
                proof {
                    assert(failure_views(failed@) =~= failure_views(failed_before).push(
                        (names[k as int], e),
                    ));
                }
            },
        }
        k = k + 1;
    }
    let out = (alerts, failed);
    proof {
        assert(took_checks(
            old(store).rows(),
            old(store).alert_rows(),
            texts(skills@),
            now,
            pair_texts(ids@),
            runs,
            store.alert_rows(),
            texts(out.0@),
            failure_views(out.1@),
        ));
    }
    out
}

/// Alerts that are of the skills of a batch, each once, are of the
/// skills of its rows.
proof fn lemma_rows_hold(rows: Seq<SkillEventRow>, alerts: Seq<AnalyticsAlert>, from: int)
    requires
        new_alerts_among(alerts, from, distinct(row_skills(rows))),
    ensures
        new_alerts_among(alerts, from, row_skills(rows)),
{
    lemma_distinct(row_skills(rows));
    assert forall|j: int| from <= j < alerts.len() implies row_skills(rows).contains(
        (#[trigger] alerts[j]).skill_id@,
    ) by {
        assert(distinct(row_skills(rows)).contains(alerts[j].skill_id@));
    }
}

/// Takes in a batch of rows at the time `now`: inserts them, all or
/// none, and then runs the anomaly checks once for each skill of the
/// batch, in the order of their first row, the run on the skill at a
/// place under the pair of ids at that place. A check that fails is
/// reported and fails nothing else. The batch is refused as a whole
/// where the store could not hold the rows that it adds.
pub fn ingest_rows_at(
    store: &mut AnalyticsStore,
    rows: &Vec<SkillEventRow>,
    now: i64,
    ids: &Vec<(String, String)>,
) -> (r: Result<IngestReport, StorageError>)
    requires
        old(store).wf(),
        ids@.len() >= distinct(row_skills(rows@)).len(),
    ensures
        final(store).wf(),
        final(store).rollups() == old(store).rollups(),
        final(store).limit() == old(store).limit(),
        final(store).version() == old(store).version(),
        old(store).alert_rows().is_prefix_of(final(store).alert_rows()),
        new_alerts_among(
            final(store).alert_rows(),
            old(store).alert_rows().len() as int,
            row_skills(rows@),
        ),
        r is Err <==> insert_all(old(store).rows(), rows@).len() > old(store).limit(),
        match r {
            Ok(report) => {
                &&& report.accepted == rows@.len()
                &&& final(store).rows() == insert_all(old(store).rows(), rows@)
                &&& forall|i: int|
                    0 <= i < report.failed_checks@.len() ==> (
                    #[trigger] report.failed_checks@[i]).1 == StorageError::DuplicateKey
                &&& exists|runs: Seq<CheckRun>| #[trigger]
                    took_checks(
                        final(store).rows(),
                        old(store).alert_rows(),
                        distinct(row_skills(rows@)),
                        now,
                        pair_texts(ids@),
                        runs,
                        final(store).alert_rows(),
                        texts(report.alerts@),
                        failure_views(report.failed_checks@),
                    )
            },
            Err(e) => e == StorageError::Full && final(store).rows() == old(store).rows()
                && final(store).alert_rows() == old(store).alert_rows(),
        },
{
    let accepted = match store.insert_events(rows.as_slice()) {
        Ok(n) => n,
        Err(e) => {
            return Err(e);
        },
    };
    let skills = batch_skills(rows);
    let ghost events = store.rows();
    let ghost names = distinct(row_skills(rows@));
    let out = check_skills_at(store, &skills, now, ids);
    let report = IngestReport { accepted, alerts: out.0, failed_checks: out.1 };
    proof {
        lemma_rows_hold(rows@, store.alert_rows(), old(store).alert_rows().len() as int);
        let runs = choose|runs: Seq<CheckRun>| #[trigger]
            took_checks(
                events,
                old(store).alert_rows(),
                names,
                now,
                pair_texts(ids@),
                runs,
                store.alert_rows(),
                texts(report.alerts@),
                failure_views(report.failed_checks@),
            );
        assert(took_checks(
            store.rows(),
            old(store).alert_rows(),
            distinct(row_skills(rows@)),
            now,
            pair_texts(ids@),
            runs,
            store.alert_rows(),
            texts(report.alerts@),
            failure_views(report.failed_checks@),
        ));
    }
    Ok(report)
}

/// Takes in a batch of rows: inserts them, all or none, and then runs the
/// anomaly checks once for each skill of the batch, in the order of
/// their first row, at the time of the system clock and under ids drawn
/// afresh; see [`ingest_rows_at`]. A check that fails is reported and
/// fails nothing else: each fails where the clock cannot be read, and
/// one fails where an id that was drawn is taken. The batch is refused
/// as a whole where the store could not hold the rows that it adds.
pub fn ingest_rows(store: &mut AnalyticsStore, rows: &Vec<SkillEventRow>) -> (r: Result<
    IngestReport,
    StorageError,
>)
    requires
        old(store).wf(),
    ensures
        final(store).wf(),
        final(store).rollups() == old(store).rollups(),
        final(store).limit() == old(store).limit(),
        final(store).version() == old(store).version(),
        old(store).alert_rows().is_prefix_of(final(store).alert_rows()),
        new_alerts_among(
            final(store).alert_rows(),
            old(store).alert_rows().len() as int,
            row_skills(rows@),
        ),
        r is Err <==> insert_all(old(store).rows(), rows@).len() > old(store).limit(),
        match r {
            Ok(report) => {
                &&& report.accepted == rows@.len()
                &&& final(store).rows() == insert_all(old(store).rows(), rows@)
                &&& forall|i: int|
                    0 <= i < report.failed_checks@.len() ==> (
                    #[trigger] report.failed_checks@[i]).1 == StorageError::DuplicateKey
                        || report.failed_checks@[i].1 == StorageError::Clock
                &&& checks_ran(
                    final(store).rows(),
                    old(store).alert_rows(),
                    distinct(row_skills(rows@)),
                    final(store).alert_rows(),
                    texts(report.alerts@),
                    failure_views(report.failed_checks@),
                )
            },
            Err(e) => e == StorageError::Full && final(store).rows() == old(store).rows()
                && final(store).alert_rows() == old(store).alert_rows(),
        },
{
    let accepted = match store.insert_events(rows.as_slice()) {
        Ok(n) => n,
        Err(e) => {
            return Err(e);
        },
    };
    let skills = batch_skills(rows);
    let ghost names = distinct(row_skills(rows@));
    proof {
        lemma_rows_hold(rows@, store.alert_rows(), old(store).alert_rows().len() as int);
    }
    match unix_now() {
        Some(now) => {
            let mut ids: Vec<(String, String)> = Vec::new();
            while ids.len() < skills.len()
                invariant
                    ids@.len() <= skills@.len(),
                decreases skills@.len() - ids@.len(),
            {
                let failure_id = new_id();
                let latency_id = new_id();
                ids.push((failure_id, latency_id));
            }
            let ghost start = store.alert_rows();
            let ghost events = store.rows();
            let out = check_skills_at(store, &skills, now, &ids);
            let alerts = out.0;
            let failed_checks = out.1;
            proof {
                lemma_rows_hold(rows@, store.alert_rows(), old(store).alert_rows().len() as int);
                let runs = choose|runs: Seq<CheckRun>| #[trigger]
                    took_checks(
                        events,
                        start,
                        names,
                        now,
                        pair_texts(ids@),
                        runs,
                        store.alert_rows(),
                        texts(alerts@),
                        failure_views(failed_checks@),
                    );
                assert(took_checks(
                    events,
                    start,
                    names,
                    now,
                    pair_texts(ids@),
                    runs,
                    store.alert_rows(),
                    texts(alerts@),
                    failure_views(failed_checks@),
                ));
            }
            Ok(IngestReport { accepted, alerts, failed_checks })
        },
        None => {
            let alerts: Vec<String> = Vec::new();
            let mut failed_checks: Vec<(String, StorageError)> = Vec::new();
            let mut k: usize = 0;
            while k < skills.len()
                invariant
                    k <= skills.len(),
                    failed_checks@.len() == k,
                    forall|i: int|
                        0 <= i < k ==> (#[trigger] failed_checks@[i]).0@ == skills@[i]@
                            && failed_checks@[i].1 == StorageError::Clock,
                decreases skills.len() - k,
            {
                failed_checks.push((skills[k].clone(), StorageError::Clock));
                k = k + 1;
            }
            proof {
                assert(failure_views(failed_checks@) =~= clock_failures(names)) by {
                    assert forall|i: int| 0 <= i < names.len() implies failure_views(
                        failed_checks@,
                    )[i] == clock_failures(names)[i] by {
                        assert(names[i] == skills@[i]@);
                    }
                }
                assert(texts(alerts@).len() == 0);
            }
            Ok(IngestReport { accepted, alerts, failed_checks })
        },
    }
}

/// Whether every alert past the first `from` is of the skill of one of
/// the events.
pub open spec fn new_alerts_of(
    alerts: Seq<AnalyticsAlert>,
    from: int,
    events: Seq<IngestEvent>,
) -> bool {
    forall|j: int|
        from <= j < alerts.len() ==> exists|i: int|
            0 <= i < events.len() && (#[trigger] events[i]).skill_id@ == (
            #[trigger] alerts[j]).skill_id@
}

/// Takes in a batch of events from the wire: each becomes a row under a
/// fresh id, see [`IngestEvent::to_row`], and the rows are taken in, see
/// [`ingest_rows`]. A batch of no more events than the store has room
/// for is never refused.
pub fn ingest(store: &mut AnalyticsStore, events: &Vec<IngestEvent>) -> (r: Result<
    IngestReport,
    StorageError,
>)
    requires
        old(store).wf(),
    ensures
        final(store).wf(),
        final(store).rollups() == old(store).rollups(),
        final(store).limit() == old(store).limit(),
        final(store).version() == old(store).version(),
        old(store).alert_rows().is_prefix_of(final(store).alert_rows()),
        new_alerts_of(final(store).alert_rows(), old(store).alert_rows().len() as int, events@),
        old(store).rows().len() + events@.len() <= old(store).limit() ==> r is Ok,
        match r {
            Ok(report) => {
                &&& report.accepted == events@.len()
                &&& forall|i: int|
                    0 <= i < report.failed_checks@.len() ==> (
                    #[trigger] report.failed_checks@[i]).1 == StorageError::DuplicateKey
                        || report.failed_checks@[i].1 == StorageError::Clock
                &&& exists|rows: Seq<SkillEventRow>| #[trigger]
                    took_in(
                        events@,
                        rows,
                        old(store).rows(),
                        old(store).alert_rows(),
                        old(store).limit(),
                        final(store).rows(),
                        final(store).alert_rows(),
                        texts(report.alerts@),
                        failure_views(report.failed_checks@),
                    )
            },
            Err(e) => {
                &&& e == StorageError::Full
                &&& final(store).rows() == old(store).rows()
                &&& final(store).alert_rows() == old(store).alert_rows()
                &&& exists|rows: Seq<SkillEventRow>| #[trigger]
                    does_not_fit(events@, rows, old(store).rows(), old(store).limit())
            },
        },
{
    let mut rows: Vec<SkillEventRow> = Vec::new();
    let mut i: usize = 0;
    while i < events.len()
        invariant
            i <= events.len(),
            rows@.len() == i,
            forall|k: int| 0 <= k < i ==> is_row_of(events@[k], #[trigger] rows@[k]),
        decreases events.len() - i,
    {
        rows.push(events[i].to_row());
        i = i + 1;
    }
    assert(are_rows_of(events@, rows@));
    let r = ingest_rows(store, &rows);
    proof {
        let alerts = store.alert_rows();
        lemma_insert_all_len(old(store).rows(), rows@, 0);
        assert forall|j: int| old(store).alert_rows().len() <= j < alerts.len() implies exists|
            i: int,
        |
            0 <= i < events@.len() && (#[trigger] events@[i]).skill_id@ == (
            #[trigger] alerts[j]).skill_id@ by {
            let skill = alerts[j].skill_id@;
            assert(row_skills(rows@).contains(skill));
            let i = choose|i: int| 0 <= i < rows@.len() && row_skills(rows@)[i] == skill;
            assert(is_row_of(events@[i], rows@[i]));
            assert(events@[i].skill_id@ == skill);
        }
        if r is Ok {
            let report = r->Ok_0;
            assert(took_in(
                events@,
                rows@,
                old(store).rows(),
                old(store).alert_rows(),
                old(store).limit(),
                store.rows(),
                store.alert_rows(),
                texts(report.alerts@),
                failure_views(report.failed_checks@),
            ));
        } else {
            assert(does_not_fit(events@, rows@, old(store).rows(), old(store).limit()));
        }
    }
    r
}

/// Whether the events of a batch, as the rows given, add more rows than
/// a store of the limit has room for.
pub open spec fn does_not_fit(
    batch: Seq<IngestEvent>,
    rows: Seq<SkillEventRow>,
    events_before: Seq<SkillEventRow>,
    limit: int,
) -> bool {
    are_rows_of(batch, rows) && insert_all(events_before, rows).len() > limit
}

/// Whether taking in the events of a batch as the rows given leads from
/// the events and alerts stored before to those stored after, with the
/// messages and the failures of the checks: the rows are what the events
/// become, the store has room for those that they add, they are
/// inserted, and the skills of the batch are checked over what is stored
/// then.
pub open spec fn took_in(
    batch: Seq<IngestEvent>,
    rows: Seq<SkillEventRow>,
    events_before: Seq<SkillEventRow>,
    alerts_before: Seq<AnalyticsAlert>,
    limit: int,
    events_after: Seq<SkillEventRow>,
    alerts_after: Seq<AnalyticsAlert>,
    messages: Seq<Seq<char>>,
    failures: Seq<(Seq<char>, StorageError)>,
) -> bool {
    &&& are_rows_of(batch, rows)
    &&& insert_all(events_before, rows).len() <= limit
    &&& events_after == insert_all(events_before, rows)
    &&& checks_ran(
        events_after,
        alerts_before,
        distinct(row_skills(rows)),
        alerts_after,
        messages,
        failures,
    )
}

/// The answer to a request to take in events, given what reading its
/// body came to: the events, or the problem with the body. A body that
/// could not be read changes nothing, and neither does a batch that the
/// store has no room for; else the events are taken in, see [`ingest`].
/// A batch of no more events than the store has room for is taken in.
pub fn handle_events(store: &mut AnalyticsStore, body: Result<IngestRequest, String>) -> (r: Reply)
    requires
        old(store).wf(),
    ensures
        final(store).wf(),
        final(store).rollups() == old(store).rollups(),
        final(store).limit() == old(store).limit(),
        final(store).version() == old(store).version(),
        old(store).alert_rows().is_prefix_of(final(store).alert_rows()),
        match body {
            Err(problem) => {
                &&& r@ == invalid_json(problem@)
                &&& final(store).rows() == old(store).rows()
                &&& final(store).alert_rows() == old(store).alert_rows()
            },
            Ok(request) => {
                &&& old(store).rows().len() + request.events@.len() <= old(store).limit() ==> r@
                    == accepted(request.events@.len() as int)
                &&& new_alerts_of(
                    final(store).alert_rows(),
                    old(store).alert_rows().len() as int,
                    request.events@,
                )
                &&& if r@ == accepted(request.events@.len() as int) {
                    exists|
                        rows: Seq<SkillEventRow>,
                        messages: Seq<Seq<char>>,
                        failures: Seq<(Seq<char>, StorageError)>,
                    | #[trigger]
                        took_in(
                            request.events@,
                            rows,
                            old(store).rows(),
                            old(store).alert_rows(),
                            old(store).limit(),
                            final(store).rows(),
                            final(store).alert_rows(),
                            messages,
                            failures,
                        )
                } else {
                    &&& r@ == internal_error(StorageError::Full)
                    &&& final(store).rows() == old(store).rows()
                    &&& final(store).alert_rows() == old(store).alert_rows()
                    &&& exists|rows: Seq<SkillEventRow>| #[trigger]
                        does_not_fit(request.events@, rows, old(store).rows(), old(store).limit())
                }
            },
        },
{
    match body {
        Err(problem) => Reply::invalid_json(problem.as_str()),
        Ok(request) => match ingest(store, &request.events) {
            Ok(report) => {
                proof {
                    let rows = choose|rows: Seq<SkillEventRow>| #[trigger]
                        took_in(
                            request.events@,
                            rows,
                            old(store).rows(),
                            old(store).alert_rows(),
                            old(store).limit(),
                            store.rows(),
                            store.alert_rows(),
                            texts(report.alerts@),
                            failure_views(report.failed_checks@),
                        );
                    assert(took_in(
                        request.events@,
                        rows,
                        old(store).rows(),
                        old(store).alert_rows(),
                        old(store).limit(),
                        store.rows(),
                        store.alert_rows(),
                        texts(report.alerts@),
                        failure_views(report.failed_checks@),
                    ));
                }
                Reply::accepted(report.accepted)
            },
            Err(e) => {
                proof {
                    lemma_replies_differ(request.events@.len() as int);
                }
                Reply::internal_error(e)
            },
        },
    }
}

/// The answer to a batch that was taken in is none to a batch that was
/// refused.
proof fn lemma_replies_differ(count: int)
    ensures
        accepted(count) != internal_error(StorageError::Full),
{
    assert(accepted(count).status == 200);
    assert(internal_error(StorageError::Full).status == 500);
}

} // verus!
