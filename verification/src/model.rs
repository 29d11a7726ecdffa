//! The data model: messages, per-session metadata, and the records the
//! catalog operations and the aggregators exchange.

use vstd::prelude::*;

verus! {

/// Timestamps are epoch seconds; the catalog accepts them up to the last
/// second of year 9999, which keeps duration arithmetic free of overflow.
pub const MAX_EPOCH_SECS: i64 = 253402300799;

/// Who authored a message.
#[derive(Clone, Copy, Debug, PartialEq, Eq, Structural)]
pub enum Role {
    User,
    Assistant,
}

/// One message of a session's ordered log.
#[derive(Debug)]
pub struct Message {
    pub role: Role,
    pub content: String,
    /// Creation time in epoch seconds.
    pub created: i64,
}

/// A message the catalog accepts: its timestamp lies in the supported range.
pub open spec fn wf_message(m: Message) -> bool {
    0 <= m.created <= MAX_EPOCH_SECS
}

impl Clone for Message {
    fn clone(&self) -> (r: Self)
        ensures
            r == *self,
    {
        Message { role: self.role, content: self.content.clone(), created: self.created }
    }
}

/// The per-session metadata record.
#[derive(Debug)]
pub struct SessionMetadata {
    pub description: String,
    pub message_count: usize,
    pub total_tokens: Option<i32>,
    pub input_tokens: Option<i32>,
    pub output_tokens: Option<i32>,
    pub accumulated_total_tokens: Option<i32>,
    pub accumulated_input_tokens: Option<i32>,
    pub accumulated_output_tokens: Option<i32>,
    pub working_dir: String,
    pub schedule_id: Option<String>,
    pub project_id: Option<String>,
    pub is_title_customized: bool,
}

/// A freshly materialized metadata record: every field at its default, with
/// the given message count.
pub open spec fn is_fresh_metadata(m: SessionMetadata, count: nat) -> bool {
    &&& m.description@ == Seq::<char>::empty()
    &&& m.message_count == count
    &&& m.total_tokens is None
    &&& m.input_tokens is None
    &&& m.output_tokens is None
    &&& m.accumulated_total_tokens is None
    &&& m.accumulated_input_tokens is None
    &&& m.accumulated_output_tokens is None
    &&& m.working_dir@ == Seq::<char>::empty()
    &&& m.schedule_id is None
    &&& m.project_id is None
    &&& !m.is_title_customized
}

/// The documented default a read yields when no metadata was ever persisted.
pub open spec fn is_default_metadata(m: SessionMetadata) -> bool {
    is_fresh_metadata(m, 0)
}

impl Default for SessionMetadata {
    fn default() -> (r: Self)
        ensures
            is_default_metadata(r),
    {
        SessionMetadata {
            description: String::new(),
            message_count: 0,
            total_tokens: None,
            input_tokens: None,
            output_tokens: None,
            accumulated_total_tokens: None,
            accumulated_input_tokens: None,
            accumulated_output_tokens: None,
            working_dir: String::new(),
            schedule_id: None,
            project_id: None,
            is_title_customized: false,
        }
    }
}

fn clone_opt_string(o: &Option<String>) -> (r: Option<String>)
    ensures
        r == *o,
{
    match o {
        Some(s) => Some(s.clone()),
        None => None,
    }
}

impl Clone for SessionMetadata {
    fn clone(&self) -> (r: Self)
        ensures
            r == *self,
    {
        SessionMetadata {
            description: self.description.clone(),
            message_count: self.message_count,
            total_tokens: self.total_tokens,
            input_tokens: self.input_tokens,
            output_tokens: self.output_tokens,
            accumulated_total_tokens: self.accumulated_total_tokens,
            accumulated_input_tokens: self.accumulated_input_tokens,
            accumulated_output_tokens: self.accumulated_output_tokens,
            working_dir: self.working_dir.clone(),
            schedule_id: clone_opt_string(&self.schedule_id),
            project_id: clone_opt_string(&self.project_id),
            is_title_customized: self.is_title_customized,
        }
    }
}

/// One row of a catalog listing.
#[derive(Debug)]
pub struct SessionInfo {
    pub id: String,
    /// The formatted modification timestamp, `YYYY-MM-DD HH:MM:SS UTC`.
    pub modified: String,
    pub metadata: SessionMetadata,
}

impl Clone for SessionInfo {
    fn clone(&self) -> (r: Self)
        ensures
            r == *self,
    {
        SessionInfo {
            id: self.id.clone(),
            modified: self.modified.clone(),
            metadata: self.metadata.clone(),
        }
    }
}

/// The order a listing is returned in: by modification timestamp, ties broken
/// by identifier ascending.
#[derive(Clone, Copy, Debug, PartialEq, Eq, Structural)]
pub enum SortOrder {
    Ascending,
    Descending,
}

/// The response of a listing call.
#[derive(Debug)]
pub struct SessionListResponse {
    pub sessions: Vec<SessionInfo>,
}

/// The response of a single-session history call.
#[derive(Debug)]
pub struct SessionHistoryResponse {
    pub session_id: String,
    pub metadata: SessionMetadata,
    pub messages: Vec<Message>,
}

/// Aggregate usage statistics over the catalog.
///
/// The average session duration in minutes is `total_duration_secs` divided
/// by `60 * total_sessions` (zero when `total_sessions` is zero); the
/// division is left to the caller so the record holds integers only.
#[derive(Debug)]
pub struct SessionInsights {
    pub total_sessions: usize,
    /// The up-to-three most used working directories with their counts.
    pub most_active_dirs: Vec<(String, usize)>,
    /// Summed `last.created - first.created` over the counted sessions.
    pub total_duration_secs: i64,
    pub total_tokens: i64,
    /// Daily session counts for the up-to-seven most recent calendar dates.
    pub recent_activity: Vec<(String, usize)>,
}

/// One bucket of the activity heatmap.
#[derive(Clone, Copy, Debug, PartialEq, Eq, Structural)]
pub struct ActivityHeatmapCell {
    /// 0-based ISO week index.
    pub week: usize,
    /// Weekday, 0 = Sunday through 6 = Saturday.
    pub day: usize,
    pub count: usize,
}

/// A request to replace a session's title (its description).
#[derive(Debug)]
pub struct UpdateSessionTitleRequest {
    pub title: String,
}

} // verus!
