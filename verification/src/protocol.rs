//! The values of the `agentView/*` requests and responses, and the part of a
//! thread that the dashboard reads.

use vstd::prelude::*;

verus! {

/// The review workflow state of an entry, as the protocol spells it.
#[derive(Clone, Copy, Debug, PartialEq, Eq, Structural)]
pub enum AgentViewWorkflowState {
    ReadyForReview,
    Completed,
}

/// `agentView/list`: the entries of the view of `cwd`.
#[derive(Clone, Debug, PartialEq, Eq)]
pub struct AgentViewListParams {
    pub cwd: String,
    pub include_hidden: bool,
}

/// A flag of an active thread.
#[derive(Clone, Copy, Debug, PartialEq, Eq, Structural)]
pub enum ThreadActiveFlag {
    WaitingOnApproval,
    WaitingOnUserInput,
}

/// The liveness of a thread.
#[derive(Clone, Debug, PartialEq, Eq)]
pub enum ThreadStatus {
    NotLoaded,
    Idle,
    SystemError,
    Active { active_flags: Vec<ThreadActiveFlag> },
}

/// What the dashboard reads of a Codex thread.
#[derive(Clone, Debug, PartialEq, Eq)]
pub struct Thread {
    pub id: String,
    pub name: Option<String>,
    pub preview: String,
    pub status: ThreadStatus,
    pub recency_at: Option<i64>,
}

/// One entry of an agent view. Times are seconds since the Unix epoch.
#[derive(Clone, Debug, PartialEq, Eq)]
pub struct AgentViewEntry {
    pub thread_id: String,
    pub initial_prompt: String,
    pub title_override: Option<String>,
    pub view_state: AgentViewWorkflowState,
    pub pinned: bool,
    pub position: i64,
    pub hidden: bool,
    pub created_at: i64,
    pub updated_at: i64,
    pub last_opened_at: Option<i64>,
    pub thread: Option<Thread>,
}

/// The entries of a view.
#[derive(Clone, Debug, PartialEq, Eq)]
pub struct AgentViewListResponse {
    pub scope_key: String,
    pub entries: Vec<AgentViewEntry>,
}

/// `agentView/attachThread`: adds a thread to the view of `cwd`.
#[derive(Clone, Debug, PartialEq, Eq)]
pub struct AgentViewAttachThreadParams {
    pub cwd: String,
    pub thread_id: String,
    pub initial_prompt: String,
}

/// The entry of an attached thread.
#[derive(Clone, Debug, PartialEq, Eq)]
pub struct AgentViewAttachThreadResponse {
    pub scope_key: String,
    pub entry: AgentViewEntry,
}

/// `agentView/updateEntry`: changes some view fields of an entry.
#[derive(Clone, Debug, PartialEq, Eq)]
pub struct AgentViewUpdateEntryParams {
    pub cwd: String,
    pub thread_id: String,
    pub view_state: Option<AgentViewWorkflowState>,
    pub pinned: Option<bool>,
    pub position: Option<i64>,
    pub title_override: Option<Option<String>>,
}

/// The entry after an update.
#[derive(Clone, Debug, PartialEq, Eq)]
pub struct AgentViewUpdateEntryResponse {
    pub scope_key: String,
    pub entry: AgentViewEntry,
}

/// `agentView/hideEntry`: hides an entry from the view of `cwd`.
#[derive(Clone, Debug, PartialEq, Eq)]
pub struct AgentViewHideEntryParams {
    pub cwd: String,
    pub thread_id: String,
}

/// The scope of a hidden entry.
#[derive(Clone, Debug, PartialEq, Eq)]
pub struct AgentViewHideEntryResponse {
    pub scope_key: String,
}

} // verus!
