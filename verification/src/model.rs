//! The registry's records: workflow state, thread rows, and patches.

use vstd::prelude::*;
use crate::text::{clone_opt_string, opt_view, str_eq};
use crate::thread_id::{ThreadId, ThreadIdError, spec_parse_thread_id};

verus! {

/// The first millisecond that has a date: -262143-01-01T00:00:00Z, the
/// first instant of chrono's earliest date.
pub open spec fn first_dated_millis() -> int {
    -8_334_601_228_800_000
}

/// The last millisecond that has a date: +262142-12-31T23:59:59.999Z, in
/// chrono's latest date.
pub open spec fn last_dated_millis() -> int {
    8_210_266_876_799_999
}

/// Whether a count of milliseconds since the Unix epoch falls within the
/// dates that chrono represents.
pub open spec fn chrono_accepts_millis(ms: i64) -> bool {
    first_dated_millis() <= ms <= last_dated_millis()
}

/// Calls `chrono::DateTime::<Utc>::from_timestamp_millis` and tells whether it
/// gave a date. Claims, as chrono's source shows (its dates run from
/// -262143-01-01 to +262142-12-31, every time of day included), that it gives
/// one exactly for the counts from `first_dated_millis` to
/// `last_dated_millis`.
#[verifier::external_body]
pub(crate) fn millis_in_datetime_range(ms: i64) -> (ok: bool)
    ensures
        ok == chrono_accepts_millis(ms),
{
    chrono::DateTime::<chrono::Utc>::from_timestamp_millis(ms).is_some()
}

/// The review workflow state of a dashboard entry.
#[derive(Clone, Copy, Debug, PartialEq, Eq, Structural)]
pub enum AgentViewState {
    ReadyForReview,
    Completed,
}

/// The text under which a workflow state is stored.
pub open spec fn state_text(s: AgentViewState) -> Seq<char> {
    match s {
        AgentViewState::ReadyForReview => "ready_for_review"@,
        AgentViewState::Completed => "completed"@,
    }
}

/// The workflow state that a stored text names, if any.
pub open spec fn parse_state_text(t: Seq<char>) -> Option<AgentViewState> {
    if t == "ready_for_review"@ {
        Some(AgentViewState::ReadyForReview)
    } else if t == "completed"@ {
        Some(AgentViewState::Completed)
    } else {
        None
    }
}

/// A stored text that names no workflow state.
#[derive(Clone, Debug)]
pub struct UnknownAgentViewState {
    pub value: String,
}

impl UnknownAgentViewState {
    /// `unknown agent view state: <value>`.
    pub fn message(&self) -> (r: String)
        ensures
            r@ == "unknown agent view state: "@ + self.value@,
    {
        let mut m = String::from_str("unknown agent view state: ");
        m.append(self.value.as_str());
        m
    }
}

impl AgentViewState {
    /// The stored text of the state.
    pub fn as_str(self) -> (r: &'static str)
        ensures
            r@ == state_text(self),
    {
        match self {
            AgentViewState::ReadyForReview => "ready_for_review",
            AgentViewState::Completed => "completed",
        }
    }

    /// Reads a stored text back into a state.
    pub fn from_str(value: &str) -> (r: Result<AgentViewState, UnknownAgentViewState>)
        ensures
            match parse_state_text(value@) {
                Some(s) => r == Ok::<AgentViewState, UnknownAgentViewState>(s),
                None => r is Err && r->Err_0.value@ == value@,
            },
    {
        if str_eq(value, "ready_for_review") {
            Ok(AgentViewState::ReadyForReview)
        } else if str_eq(value, "completed") {
            Ok(AgentViewState::Completed)
        } else {
            Err(UnknownAgentViewState { value: String::from_str(value) })
        }
    }
}

/// Law: every state's stored text reads back as that state, and the two
/// states have different texts.
pub proof fn lemma_state_text_round_trip(s: AgentViewState)
    ensures
        parse_state_text(state_text(s)) == Some(s),
        state_text(AgentViewState::ReadyForReview) != state_text(AgentViewState::Completed),
{
    reveal_strlit("ready_for_review");
    reveal_strlit("completed");
    assert(state_text(AgentViewState::ReadyForReview).len() != state_text(AgentViewState::Completed).len());
}

/// One thread of an agent view, as the registry holds it. Times are
/// milliseconds since the Unix epoch.
#[derive(Debug)]
pub struct AgentViewThread {
    pub scope_key: String,
    pub thread_id: ThreadId,
    pub initial_prompt: String,
    pub title_override: Option<String>,
    pub view_state: AgentViewState,
    pub pinned: bool,
    pub position: i64,
    pub hidden_at: Option<i64>,
    pub created_at: i64,
    pub updated_at: i64,
    pub last_opened_at: Option<i64>,
}

/// The value of an `AgentViewThread`, with its texts as character sequences.
pub struct ThreadRecord {
    pub scope_key: Seq<char>,
    pub thread_id: u128,
    pub initial_prompt: Seq<char>,
    pub title_override: Option<Seq<char>>,
    pub view_state: AgentViewState,
    pub pinned: bool,
    pub position: i64,
    pub hidden_at: Option<i64>,
    pub created_at: i64,
    pub updated_at: i64,
    pub last_opened_at: Option<i64>,
}

impl View for AgentViewThread {
    type V = ThreadRecord;

    open spec fn view(&self) -> ThreadRecord {
        ThreadRecord {
            scope_key: self.scope_key@,
            thread_id: self.thread_id.uuid,
            initial_prompt: self.initial_prompt@,
            title_override: opt_view(self.title_override),
            view_state: self.view_state,
            pinned: self.pinned,
            position: self.position,
            hidden_at: self.hidden_at,
            created_at: self.created_at,
            updated_at: self.updated_at,
            last_opened_at: self.last_opened_at,
        }
    }
}

impl Clone for AgentViewThread {
    fn clone(&self) -> (r: Self)
        ensures
            r == *self,
    {
        AgentViewThread {
            scope_key: self.scope_key.clone(),
            thread_id: self.thread_id,
            initial_prompt: self.initial_prompt.clone(),
            title_override: clone_opt_string(&self.title_override),
            view_state: self.view_state,
            pinned: self.pinned,
            position: self.position,
            hidden_at: self.hidden_at,
            created_at: self.created_at,
            updated_at: self.updated_at,
            last_opened_at: self.last_opened_at,
        }
    }
}

/// A change to some of a thread's view fields; `None` keeps the field.
/// `title_override: Some(None)` clears the title.
#[derive(Debug, Default)]
pub struct AgentViewThreadPatch {
    pub view_state: Option<AgentViewState>,
    pub pinned: Option<bool>,
    pub position: Option<i64>,
    pub title_override: Option<Option<String>>,
}

/// The value of a patch.
pub struct PatchRecord {
    pub view_state: Option<AgentViewState>,
    pub pinned: Option<bool>,
    pub position: Option<i64>,
    pub title_override: Option<Option<Seq<char>>>,
}

impl View for AgentViewThreadPatch {
    type V = PatchRecord;

    open spec fn view(&self) -> PatchRecord {
        PatchRecord {
            view_state: self.view_state,
            pinned: self.pinned,
            position: self.position,
            title_override: match self.title_override {
                Some(t) => Some(opt_view(t)),
                None => None,
            },
        }
    }
}

/// A record after a patch at time `now`: each field the patch names takes
/// the patch's value, the others keep theirs, and `updated_at` becomes `now`.
pub open spec fn apply_patch(rec: ThreadRecord, patch: PatchRecord, now: i64) -> ThreadRecord {
    ThreadRecord {
        view_state: match patch.view_state { Some(v) => v, None => rec.view_state },
        pinned: match patch.pinned { Some(v) => v, None => rec.pinned },
        position: match patch.position { Some(v) => v, None => rec.position },
        title_override: match patch.title_override { Some(v) => v, None => rec.title_override },
        updated_at: now,
        ..rec
    }
}

/// A thread after a patch at time `now`: the fields that the patch names
/// take its values, `updated_at` becomes `now`, the rest stay.
pub fn apply_agent_view_patch(existing: &AgentViewThread, patch: AgentViewThreadPatch, now: i64) -> (r: AgentViewThread)
    ensures
        r@ == apply_patch(existing@, patch@, now),
{
    let mut t = existing.clone();
    match patch.view_state {
        Some(v) => { t.view_state = v; },
        None => {},
    }
    match patch.pinned {
        Some(v) => { t.pinned = v; },
        None => {},
    }
    match patch.position {
        Some(v) => { t.position = v; },
        None => {},
    }
    match patch.title_override {
        Some(v) => { t.title_override = v; },
        None => {},
    }
    t.updated_at = now;
    t
}

/// One stored row, with the texts and integers that the database holds.
#[derive(Debug)]
pub struct AgentViewThreadRow {
    pub scope_key: String,
    pub thread_id: String,
    pub initial_prompt: String,
    pub title_override: Option<String>,
    pub view_state: String,
    pub pinned: i64,
    pub position: i64,
    pub hidden_at_ms: Option<i64>,
    pub created_at_ms: i64,
    pub updated_at_ms: i64,
    pub last_opened_at_ms: Option<i64>,
}

/// Why a stored row is not a valid thread record.
#[derive(Debug)]
pub enum AgentViewRowError {
    /// The thread id is not a UUID; `message` is the parser's.
    InvalidThreadId { thread_id: String, message: String },
    /// The workflow state text names no state.
    UnknownViewState { value: String },
    /// A time lies outside the range of dates.
    InvalidTimestamp { millis: i64 },
}

/// Whether an optional time is in range.
pub open spec fn opt_millis_ok(ms: Option<i64>) -> bool {
    match ms {
        Some(v) => chrono_accepts_millis(v),
        None => true,
    }
}

/// The first time of a row, in the order hidden, created, updated, last
/// opened, that lies outside the range of dates.
pub open spec fn first_bad_millis(row: AgentViewThreadRow) -> Option<i64> {
    if !opt_millis_ok(row.hidden_at_ms) {
        row.hidden_at_ms
    } else if !chrono_accepts_millis(row.created_at_ms) {
        Some(row.created_at_ms)
    } else if !chrono_accepts_millis(row.updated_at_ms) {
        Some(row.updated_at_ms)
    } else if !opt_millis_ok(row.last_opened_at_ms) {
        row.last_opened_at_ms
    } else {
        None
    }
}

/// The record that a valid row stands for.
pub open spec fn row_record(row: AgentViewThreadRow, id: ThreadId, state: AgentViewState) -> ThreadRecord {
    ThreadRecord {
        scope_key: row.scope_key@,
        thread_id: id.uuid,
        initial_prompt: row.initial_prompt@,
        title_override: opt_view(row.title_override),
        view_state: state,
        pinned: row.pinned != 0,
        position: row.position,
        hidden_at: row.hidden_at_ms,
        created_at: row.created_at_ms,
        updated_at: row.updated_at_ms,
        last_opened_at: row.last_opened_at_ms,
    }
}

fn check_opt_millis(ms: Option<i64>) -> (r: Result<(), AgentViewRowError>)
    ensures
        r is Ok <==> opt_millis_ok(ms),
        r matches Err(AgentViewRowError::InvalidTimestamp { millis }) && ms == Some(millis) || r is Ok,
{
    match ms {
        Some(v) => {
            if millis_in_datetime_range(v) {
                Ok(())
            } else {
                Err(AgentViewRowError::InvalidTimestamp { millis: v })
            }
        },
        None => Ok(()),
    }
}

impl AgentViewThread {
    /// Reads a stored row: the thread id must parse, the workflow state must
    /// be known, and every time must lie in the range of dates; the first
    /// failure in that order is the error. `pinned` is true for any non-zero
    /// integer.
    pub fn try_from_row(row: AgentViewThreadRow) -> (r: Result<AgentViewThread, AgentViewRowError>)
        ensures
            match spec_parse_thread_id(row.thread_id@) {
                Err(msg) => r matches Err(AgentViewRowError::InvalidThreadId { thread_id, message })
                    && thread_id@ == row.thread_id@ && message@ == msg,
                Ok(id) => match parse_state_text(row.view_state@) {
                    None => r matches Err(AgentViewRowError::UnknownViewState { value })
                        && value@ == row.view_state@,
                    Some(state) => match first_bad_millis(row) {
                        Some(ms) => r matches Err(AgentViewRowError::InvalidTimestamp { millis })
                            && millis == ms,
                        None => r matches Ok(t) && t@ == row_record(row, id, state),
                    },
                },
            },
    {
        let ghost row0 = row;
        let thread_id = match ThreadId::from_string(row.thread_id.as_str()) {
            Ok(id) => id,
            Err(ThreadIdError { message }) => {
                return Err(AgentViewRowError::InvalidThreadId { thread_id: row.thread_id, message });
            },
        };
        let view_state = match AgentViewState::from_str(row.view_state.as_str()) {
            Ok(s) => s,
            Err(e) => {
                return Err(AgentViewRowError::UnknownViewState { value: e.value });
            },
        };
        check_opt_millis(row.hidden_at_ms)?;
        if !millis_in_datetime_range(row.created_at_ms) {
            return Err(AgentViewRowError::InvalidTimestamp { millis: row.created_at_ms });
        }
        if !millis_in_datetime_range(row.updated_at_ms) {
            return Err(AgentViewRowError::InvalidTimestamp { millis: row.updated_at_ms });
        }
        check_opt_millis(row.last_opened_at_ms)?;
        Ok(AgentViewThread {
            scope_key: row.scope_key,
            thread_id,
            initial_prompt: row.initial_prompt,
            title_override: row.title_override,
            view_state,
            pinned: row.pinned != 0,
            position: row.position,
            hidden_at: row.hidden_at_ms,
            created_at: row.created_at_ms,
            updated_at: row.updated_at_ms,
            last_opened_at: row.last_opened_at_ms,
        })
    }
}

} // verus!
