//! The records that the store keeps beside the events, and the shapes of
//! what its queries return.

use vstd::prelude::*;
use crate::ratio::Ratio;

verus! {

/// Why the store refused an operation.
#[derive(Clone, Copy, Debug, PartialEq, Eq, Structural)]
pub enum StorageError {
    /// The store cannot hold as many rows as the operation would leave.
    Full,
    /// A row holds figures that no table of events can give.
    Corrupt,
    /// A row holds no value where the query needs one.
    MissingValue,
    /// A row with the same key is already stored.
    DuplicateKey,
    /// The system clock reads a time before the Unix epoch.
    Clock,
}

impl StorageError {
    /// What went wrong, in words.
    pub fn message(&self) -> (r: String)
        ensures
            r@ == storage_message(*self),
    {
        match self {
            StorageError::Full => "the store is full".to_string(),
            StorageError::Corrupt => "a stored row is corrupt".to_string(),
            StorageError::MissingValue => "a stored row lacks a value".to_string(),
            StorageError::DuplicateKey => "a row with the same key is already stored".to_string(),
            StorageError::Clock => "the system clock reads a time before 1970".to_string(),
        }
    }
}

/// What went wrong, in words.
pub open spec fn storage_message(e: StorageError) -> Seq<char> {
    match e {
        StorageError::Full => "the store is full"@,
        StorageError::Corrupt => "a stored row is corrupt"@,
        StorageError::MissingValue => "a stored row lacks a value"@,
        StorageError::DuplicateKey => "a row with the same key is already stored"@,
        StorageError::Clock => "the system clock reads a time before 1970"@,
    }
}

/// Why the engine refused a request. A parse error is the sender's to
/// mend, a storage error may pass on a later attempt, a schema error ends
/// the use of the store, and a request for something unknown is not
/// found.
#[derive(Clone, Copy, Debug, PartialEq, Eq, Structural)]
pub enum AnalyticsError {
    /// The request could not be read.
    Parse,
    /// The store refused the operation.
    Storage(StorageError),
    /// The stored schema is newer than this library knows.
    Schema { found: i32, supported: i32 },
    /// Nothing answers to the request.
    NotFound,
}

impl AnalyticsError {
    /// The status with which the server answers the error. A schema
    /// error never reaches a request and is reported as a failure of the
    /// server.
    pub fn status_code(&self) -> (r: u16)
        ensures
            r == status_of(*self),
    {
        match self {
            AnalyticsError::Parse => 400,
            AnalyticsError::Storage(_) => 500,
            AnalyticsError::Schema { .. } => 500,
            AnalyticsError::NotFound => 404,
        }
    }
}

/// The status with which the server answers an error.
pub open spec fn status_of(e: AnalyticsError) -> u16 {
    match e {
        AnalyticsError::Parse => 400,
        AnalyticsError::Storage(_) => 500,
        AnalyticsError::Schema { .. } => 500,
        AnalyticsError::NotFound => 404,
    }
}

/// The rollup of one skill on one calendar day. The mean latency is the
/// sum of the durations over their number; the cost is in millionths of a
/// dollar.
#[derive(Debug)]
pub struct DailyStats {
    pub skill_id: String,
    pub date: String,
    pub total_calls: i64,
    pub success_count: i64,
    pub fail_count: i64,
    pub p50_ms: Option<i64>,
    pub p95_ms: Option<i64>,
    pub p99_ms: Option<i64>,
    pub avg_ms: Option<Ratio>,
    pub unique_users: i64,
    pub total_cost_micro_usd: i128,
    pub thumbs_up: i64,
    pub thumbs_down: i64,
}

/// What a daily rollup says.
pub ghost struct DailyView {
    pub skill_id: Seq<char>,
    pub date: Seq<char>,
    pub total_calls: int,
    pub success_count: int,
    pub fail_count: int,
    pub p50_ms: Option<i64>,
    pub p95_ms: Option<i64>,
    pub p99_ms: Option<i64>,
    pub avg_ms: Option<Ratio>,
    pub unique_users: int,
    pub total_cost_micro_usd: int,
    pub thumbs_up: int,
    pub thumbs_down: int,
}

impl View for DailyStats {
    type V = DailyView;

    open spec fn view(&self) -> DailyView {
        DailyView {
            skill_id: self.skill_id@,
            date: self.date@,
            total_calls: self.total_calls as int,
            success_count: self.success_count as int,
            fail_count: self.fail_count as int,
            p50_ms: self.p50_ms,
            p95_ms: self.p95_ms,
            p99_ms: self.p99_ms,
            avg_ms: self.avg_ms,
            unique_users: self.unique_users as int,
            total_cost_micro_usd: self.total_cost_micro_usd as int,
            thumbs_up: self.thumbs_up as int,
            thumbs_down: self.thumbs_down as int,
        }
    }
}

/// What the rollups of a list say, in order.
pub open spec fn daily_views(rows: Seq<DailyStats>) -> Seq<DailyView> {
    rows.map_values(|r: DailyStats| r@)
}

impl Clone for DailyStats {
    fn clone(&self) -> (r: Self)
        ensures
            r == *self,
    {
        DailyStats {
            skill_id: self.skill_id.clone(),
            date: self.date.clone(),
            total_calls: self.total_calls,
            success_count: self.success_count,
            fail_count: self.fail_count,
            p50_ms: self.p50_ms,
            p95_ms: self.p95_ms,
            p99_ms: self.p99_ms,
            avg_ms: self.avg_ms,
            unique_users: self.unique_users,
            total_cost_micro_usd: self.total_cost_micro_usd,
            thumbs_up: self.thumbs_up,
            thumbs_down: self.thumbs_down,
        }
    }
}

/// A detected anomaly of one skill.
#[derive(Debug)]
pub struct AnalyticsAlert {
    pub id: String,
    pub skill_id: String,
    pub alert_type: String,
    pub severity: String,
    pub message: String,
    pub detected_at: i64,
    pub resolved_at: Option<i64>,
    pub acknowledged: bool,
}

impl Clone for AnalyticsAlert {
    fn clone(&self) -> (r: Self)
        ensures
            r == *self,
    {
        AnalyticsAlert {
            id: self.id.clone(),
            skill_id: self.skill_id.clone(),
            alert_type: self.alert_type.clone(),
            severity: self.severity.clone(),
            message: self.message.clone(),
            detected_at: self.detected_at,
            resolved_at: self.resolved_at,
            acknowledged: self.acknowledged,
        }
    }
}

/// The figures of a trailing window, and how they differ from those of
/// the window of equal length just before it.
#[derive(Clone, Copy, Debug, PartialEq, Eq, Structural)]
pub struct AnalyticsOverview {
    pub total_calls: i64,
    pub success_rate: Ratio,
    pub p95_latency_ms: Option<i64>,
    pub active_users: i64,
    pub total_calls_delta_pct: Option<Ratio>,
    pub success_rate_delta: Option<Ratio>,
    pub p95_latency_delta_ms: Option<i128>,
    pub active_users_delta: Option<i64>,
}

/// One skill in a ranking of skills.
#[derive(Debug)]
pub struct TopSkillEntry {
    pub skill_id: String,
    pub call_count: i64,
    pub success_rate: Ratio,
    pub avg_latency_ms: Option<Ratio>,
}

impl Clone for TopSkillEntry {
    fn clone(&self) -> (r: Self)
        ensures
            r == *self,
    {
        TopSkillEntry {
            skill_id: self.skill_id.clone(),
            call_count: self.call_count,
            success_rate: self.success_rate,
            avg_latency_ms: self.avg_latency_ms,
        }
    }
}

/// How often one caller reached one skill through one tool.
#[derive(Debug)]
pub struct CallerDependency {
    pub caller_agent: String,
    pub caller_tool: String,
    pub skill_id: String,
    pub call_count: i64,
}

impl Clone for CallerDependency {
    fn clone(&self) -> (r: Self)
        ensures
            r == *self,
    {
        CallerDependency {
            caller_agent: self.caller_agent.clone(),
            caller_tool: self.caller_tool.clone(),
            skill_id: self.skill_id.clone(),
            call_count: self.call_count,
        }
    }
}

/// How many users of one skill also use another.
#[derive(Debug)]
pub struct UserRetentionPair {
    pub skill_a: String,
    pub skill_b: String,
    pub users_both: i64,
    pub users_a_only: i64,
    pub retention_rate: Ratio,
}

impl Clone for UserRetentionPair {
    fn clone(&self) -> (r: Self)
        ensures
            r == *self,
    {
        UserRetentionPair {
            skill_a: self.skill_a.clone(),
            skill_b: self.skill_b.clone(),
            users_both: self.users_both,
            users_a_only: self.users_a_only,
            retention_rate: self.retention_rate,
        }
    }
}

} // verus!
