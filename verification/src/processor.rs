//! The logic of the `agentView/*` app-server requests: the scope of a
//! working directory, the checks on request parameters, the registry calls,
//! and the entries that the responses carry.

use vstd::prelude::*;
use crate::model::{AgentViewState, AgentViewThread, AgentViewThreadPatch, PatchRecord, ThreadRecord};
use crate::protocol::{
    AgentViewAttachThreadParams, AgentViewEntry, AgentViewHideEntryResponse, AgentViewUpdateEntryParams, AgentViewWorkflowState, Thread,
    ThreadStatus,
};
use crate::store::{
    StateRuntime, RegistryView, ScopeRecord, attached, hidden, is_listing, patched, positions_below_max,
    thread_records, thread_key_fn, upserted_scope,
};
use crate::text::{clone_opt_string, opt_view, str_eq};
use crate::thread_id::{ThreadId, ThreadIdError, hyphenated_uuid, spec_parse_thread_id};

verus! {

/// The JSON-RPC code of invalid request parameters.
pub const INVALID_PARAMS_ERROR_CODE: i64 = -32602;

/// The JSON-RPC code of an internal error.
pub const INTERNAL_ERROR_CODE: i64 = -32603;

/// The error of a request.
#[derive(Clone, Debug, PartialEq, Eq)]
pub struct JsonRpcError {
    pub code: i64,
    pub message: String,
}

/// An error for invalid request parameters.
pub fn invalid_params(message: String) -> (r: JsonRpcError)
    ensures
        r.code == INVALID_PARAMS_ERROR_CODE,
        r.message@ == message@,
{
    JsonRpcError { code: INVALID_PARAMS_ERROR_CODE, message }
}

/// An internal error.
pub fn internal_error(message: String) -> (r: JsonRpcError)
    ensures
        r.code == INTERNAL_ERROR_CODE,
        r.message@ == message@,
{
    JsonRpcError { code: INTERNAL_ERROR_CODE, message }
}

fn concat(a: &str, b: &str) -> (r: String)
    ensures
        r@ == a@ + b@,
{
    let mut s = String::from_str(a);
    s.append(b);
    s
}

/// The scope key of a working directory under a Codex home.
pub open spec fn scope_key_text(codex_home: Seq<char>, cwd: Seq<char>) -> Seq<char> {
    "codex_home="@ + codex_home + "\ncwd="@ + cwd
}

/// `codex_home=<home>` and `cwd=<cwd>` on two lines: the scope of a
/// working directory under a Codex home.
pub fn scope_key_for_cwd(codex_home: &str, cwd: &str) -> (r: String)
    ensures
        r@ == scope_key_text(codex_home@, cwd@),
{
    let mut s = String::from_str("codex_home=");
    s.append(codex_home);
    s.append("\ncwd=");
    s.append(cwd);
    s
}

/// Law: as long as Codex homes hold no line feed, two scope keys are equal
/// only for the same Codex home and the same working directory.
pub proof fn law_scope_key_distinguishes(h1: Seq<char>, c1: Seq<char>, h2: Seq<char>, c2: Seq<char>)
    requires
        !h1.contains('\n'),
        !h2.contains('\n'),
        scope_key_text(h1, c1) == scope_key_text(h2, c2),
    ensures
        h1 == h2,
        c1 == c2,
{
    reveal_strlit("codex_home=");
    reveal_strlit("\ncwd=");
    let p = "codex_home="@;
    let q = "\ncwd="@;
    let k1 = p + h1 + q + c1;
    let k2 = p + h2 + q + c2;
    assert(k1 == k2);
    assert(p.len() == 11);
    assert(q.len() == 5);
    assert(q[0] == '\n');
    if h1.len() < h2.len() {
        assert(k1[11 + h1.len() as int] == '\n');
        assert(k2[11 + h1.len() as int] == h2[h1.len() as int]);
        assert(h2.contains(h2[h1.len() as int]));
    } else if h2.len() < h1.len() {
        assert(k2[11 + h2.len() as int] == '\n');
        assert(k1[11 + h2.len() as int] == h1[h2.len() as int]);
        assert(h1.contains(h1[h2.len() as int]));
    }
    assert(h1.len() == h2.len());
    assert forall|i: int| 0 <= i < h1.len() implies h1[i] == h2[i] by {
        assert(k1[11 + i] == h1[i]);
        assert(k2[11 + i] == h2[i]);
    }
    assert(h1 =~= h2);
    assert(c1.len() == c2.len());
    assert forall|i: int| 0 <= i < c1.len() implies c1[i] == c2[i] by {
        assert(k1[16 + h1.len() + i] == c1[i]);
        assert(k2[16 + h2.len() + i] == c2[i]);
    }
    assert(c1 =~= c2);
}

/// The message of a thread id that does not parse.
pub open spec fn invalid_thread_id_message(text: Seq<char>, err: Seq<char>) -> Seq<char> {
    "invalid thread id `"@ + text + "`: "@ + err
}

/// Parses the thread id of a request.
pub fn parse_thread_id(thread_id: &str) -> (r: Result<ThreadId, JsonRpcError>)
    ensures
        match spec_parse_thread_id(thread_id@) {
            Ok(id) => r == Ok::<ThreadId, JsonRpcError>(id),
            Err(msg) => r matches Err(e) && e.code == INVALID_PARAMS_ERROR_CODE
                && e.message@ == invalid_thread_id_message(thread_id@, msg),
        },
        forall|v: u128| thread_id@ == hyphenated_uuid(v) ==> r == Ok::<ThreadId, JsonRpcError>(ThreadId { uuid: v }),
{
    match ThreadId::from_string(thread_id) {
        Ok(id) => Ok(id),
        Err(ThreadIdError { message }) => {
            let mut m = String::from_str("invalid thread id `");
            m.append(thread_id);
            m.append("`: ");
            m.append(message.as_str());
            Err(invalid_params(m))
        },
    }
}

/// The protocol's spelling of a workflow state.
pub open spec fn state_to_api(state: AgentViewState) -> AgentViewWorkflowState {
    match state {
        AgentViewState::ReadyForReview => AgentViewWorkflowState::ReadyForReview,
        AgentViewState::Completed => AgentViewWorkflowState::Completed,
    }
}

/// The registry's spelling of a workflow state.
pub open spec fn state_from_api(state: AgentViewWorkflowState) -> AgentViewState {
    match state {
        AgentViewWorkflowState::ReadyForReview => AgentViewState::ReadyForReview,
        AgentViewWorkflowState::Completed => AgentViewState::Completed,
    }
}

/// Converts a registry workflow state to the protocol's.
pub fn agent_view_state_to_api(state: AgentViewState) -> (r: AgentViewWorkflowState)
    ensures
        r == state_to_api(state),
{
    match state {
        AgentViewState::ReadyForReview => AgentViewWorkflowState::ReadyForReview,
        AgentViewState::Completed => AgentViewWorkflowState::Completed,
    }
}

/// Converts a protocol workflow state to the registry's.
pub fn agent_view_state_from_api(state: AgentViewWorkflowState) -> (r: AgentViewState)
    ensures
        r == state_from_api(state),
{
    match state {
        AgentViewWorkflowState::ReadyForReview => AgentViewState::ReadyForReview,
        AgentViewWorkflowState::Completed => AgentViewState::Completed,
    }
}

/// Law: the two spellings of a workflow state convert into each other
/// without loss.
pub proof fn law_state_conversions_invert(s: AgentViewState, w: AgentViewWorkflowState)
    ensures
        state_from_api(state_to_api(s)) == s,
        state_to_api(state_from_api(w)) == w,
{
}

/// Whole seconds since the epoch of a time in milliseconds, rounded down,
/// as `chrono::DateTime::timestamp` gives them.
pub open spec fn millis_to_seconds(ms: i64) -> int {
    (ms as int) / 1000
}

/// Rounds milliseconds since the epoch down to whole seconds.
pub fn epoch_seconds(ms: i64) -> (r: i64)
    ensures
        r == millis_to_seconds(ms),
{
    if ms >= 0 {
        ms / 1000
    } else {
        let m: i64 = -(ms + 1);
        let q: i64 = m / 1000;
        proof {
            assert((ms as int) / 1000 == -(m as int / 1000) - 1) by (nonlinear_arith)
                requires
                    ms < 0,
                    m == -(ms + 1),
                    q == m / 1000,
            {
                let r = (m as int) % 1000;
                assert(m as int == 1000 * (m as int / 1000) + r);
                assert(ms as int == 1000 * (-(m as int / 1000) - 1) + (999 - r));
            }
        }
        -q - 1
    }
}

/// The optional seconds of an optional time in milliseconds.
pub open spec fn opt_seconds(ms: Option<i64>) -> Option<int> {
    match ms {
        Some(v) => Some(millis_to_seconds(v)),
        None => None,
    }
}

/// The protocol entry of a registry row and the thread it names.
pub fn entry_from_row(row: &AgentViewThread, thread: Option<Thread>) -> (r: AgentViewEntry)
    ensures
        r.thread_id@ == hyphenated_uuid(row.thread_id.uuid),
        r.initial_prompt@ == row.initial_prompt@,
        opt_view(r.title_override) == opt_view(row.title_override),
        r.view_state == state_to_api(row.view_state),
        r.pinned == row.pinned,
        r.position == row.position,
        r.hidden == (row.hidden_at is Some),
        r.created_at == millis_to_seconds(row.created_at),
        r.updated_at == millis_to_seconds(row.updated_at),
        match r.last_opened_at {
            Some(s) => opt_seconds(row.last_opened_at) == Some(s as int),
            None => row.last_opened_at is None,
        },
        r.thread == thread,
{
    let last_opened_at = match row.last_opened_at {
        Some(ms) => Some(epoch_seconds(ms)),
        None => None,
    };
    AgentViewEntry {
        thread_id: row.thread_id.to_string(),
        initial_prompt: row.initial_prompt.clone(),
        title_override: clone_opt_string(&row.title_override),
        view_state: agent_view_state_to_api(row.view_state),
        pinned: row.pinned,
        position: row.position,
        hidden: row.hidden_at.is_some(),
        created_at: epoch_seconds(row.created_at),
        updated_at: epoch_seconds(row.updated_at),
        last_opened_at,
        thread,
    }
}

/// The registry patch that an update request names.
pub open spec fn params_patch(params: AgentViewUpdateEntryParams) -> PatchRecord {
    PatchRecord {
        view_state: match params.view_state {
            Some(w) => Some(state_from_api(w)),
            None => None,
        },
        pinned: params.pinned,
        position: params.position,
        title_override: match params.title_override {
            Some(t) => Some(opt_view(t)),
            None => None,
        },
    }
}

/// Law: an update request sets each field it names to the value given and
/// keeps each field it leaves out: after the patch of `agentView/updateEntry`
/// the thread's pin, position, workflow state and title are those of the
/// request where it gives them (a title of `Some(None)` clears the title),
/// else those the thread had, and its update time is the request's.
pub proof fn law_update_request_sets_named_fields(
    params: AgentViewUpdateEntryParams,
    old: Map<(Seq<char>, u128), ThreadRecord>,
    new: Map<(Seq<char>, u128), ThreadRecord>,
    scope: Seq<char>,
    thread_id: u128,
    now: i64,
)
    requires
        patched(old, new, scope, thread_id, params_patch(params), now),
    ensures
        new.contains_key((scope, thread_id)),
        new[(scope, thread_id)].pinned == match params.pinned {
            Some(b) => b,
            None => old[(scope, thread_id)].pinned,
        },
        new[(scope, thread_id)].position == match params.position {
            Some(p) => p,
            None => old[(scope, thread_id)].position,
        },
        params.view_state == Some(AgentViewWorkflowState::Completed) ==> new[(scope, thread_id)].view_state
            == AgentViewState::Completed,
        params.view_state == Some(AgentViewWorkflowState::ReadyForReview) ==> new[(scope, thread_id)].view_state
            == AgentViewState::ReadyForReview,
        params.view_state is None ==> new[(scope, thread_id)].view_state == old[(scope, thread_id)].view_state,
        match params.title_override {
            Some(Some(t)) => new[(scope, thread_id)].title_override == Some(t@),
            Some(None) => new[(scope, thread_id)].title_override is None,
            None => new[(scope, thread_id)].title_override == old[(scope, thread_id)].title_override,
        },
        new[(scope, thread_id)].updated_at == now,
        new[(scope, thread_id)].initial_prompt == old[(scope, thread_id)].initial_prompt,
        new[(scope, thread_id)].hidden_at == old[(scope, thread_id)].hidden_at,
{
}

/// The registry patch of an update request.
pub fn patch_from_params(params: &AgentViewUpdateEntryParams) -> (r: AgentViewThreadPatch)
    ensures
        r@ == params_patch(*params),
{
    let view_state = match params.view_state {
        Some(w) => Some(agent_view_state_from_api(w)),
        None => None,
    };
    let title_override = match &params.title_override {
        Some(t) => Some(clone_opt_string(t)),
        None => None,
    };
    AgentViewThreadPatch {
        view_state,
        pinned: params.pinned,
        position: params.position,
        title_override,
    }
}

/// The message of an entry that is not in its view.
pub open spec fn entry_not_found_message(thread_id: Seq<char>) -> Seq<char> {
    "agent view entry not found: "@ + thread_id
}

/// The first row whose thread id, written canonically, is `thread_id`.
pub fn find_entry_row(rows: Vec<AgentViewThread>, thread_id: &str) -> (r: Result<AgentViewThread, JsonRpcError>)
    ensures
        match r {
            Ok(row) => exists|i: int| 0 <= i < rows@.len() && rows@[i] == row
                && hyphenated_uuid(row.thread_id.uuid) == thread_id@
                && forall|j: int| 0 <= j < i ==> hyphenated_uuid(rows@[j].thread_id.uuid) != thread_id@,
            Err(e) => e.code == INVALID_PARAMS_ERROR_CODE && e.message@ == entry_not_found_message(thread_id@)
                && forall|j: int| 0 <= j < rows@.len() ==> hyphenated_uuid(rows@[j].thread_id.uuid) != thread_id@,
        },
{
    let mut i: usize = 0;
    while i < rows.len()
        invariant
            i <= rows@.len(),
            forall|j: int| 0 <= j < i ==> hyphenated_uuid(rows@[j].thread_id.uuid) != thread_id@,
        decreases rows@.len() - i,
    {
        let text = rows[i].thread_id.to_string();
        if str_eq(text.as_str(), thread_id) {
            return Ok(rows[i].clone());
        }
        i = i + 1;
    }
    Err(invalid_params(concat("agent view entry not found: ", thread_id)))
}

/// Why the thread store could not read a thread.
#[derive(Clone, Debug, PartialEq, Eq)]
pub enum ThreadStoreErrorKind {
    ThreadNotFound { thread_id: ThreadId },
    InvalidRequest { message: String },
    Unsupported { operation: String },
    Other,
}

/// A thread store error and its text.
#[derive(Clone, Debug, PartialEq, Eq)]
pub struct ThreadStoreError {
    pub kind: ThreadStoreErrorKind,
    pub display: String,
}

/// The message with which the thread store reports a thread without rollout.
pub open spec fn no_rollout_message(thread_id: u128) -> Seq<char> {
    "no rollout found for thread id "@ + hyphenated_uuid(thread_id)
}

/// What a request answers for the thread of an entry, given what the thread
/// store gave and the loaded status of that thread, if any. A missing thread
/// or a thread without rollout is no thread; other store errors fail the
/// request.
pub fn read_thread_outcome(
    result: Result<Thread, ThreadStoreError>,
    thread_id: ThreadId,
    loaded_status: Option<ThreadStatus>,
) -> (r: Result<Option<Thread>, JsonRpcError>)
    ensures
        match result {
            Ok(t) => r matches Ok(Some(u)) && u.id == t.id && u.name == t.name && u.preview == t.preview
                && u.recency_at == t.recency_at && u.status == (match loaded_status {
                    Some(s) => s,
                    None => t.status,
                }),
            Err(e) => match e.kind {
                ThreadStoreErrorKind::ThreadNotFound { thread_id: missing } => if missing == thread_id {
                    r == Ok::<Option<Thread>, JsonRpcError>(None)
                } else {
                    r matches Err(x) && x.code == INTERNAL_ERROR_CODE
                        && x.message@ == "failed to read thread: "@ + e.display@
                },
                ThreadStoreErrorKind::InvalidRequest { message } => if message@ == no_rollout_message(thread_id.uuid) {
                    r == Ok::<Option<Thread>, JsonRpcError>(None)
                } else {
                    r matches Err(x) && x.code == INVALID_PARAMS_ERROR_CODE && x.message@ == message@
                },
                ThreadStoreErrorKind::Unsupported { operation } => r matches Err(x)
                    && x.code == INTERNAL_ERROR_CODE
                    && x.message@ == "thread store does not support "@ + operation@,
                ThreadStoreErrorKind::Other => r matches Err(x) && x.code == INTERNAL_ERROR_CODE
                    && x.message@ == "failed to read thread: "@ + e.display@,
            },
        },
{
    match result {
        Ok(thread) => {
            let mut thread = thread;
            match loaded_status {
                Some(status) => {
                    thread.status = status;
                },
                None => {},
            }
            Ok(Some(thread))
        },
        Err(e) => match e.kind {
            ThreadStoreErrorKind::ThreadNotFound { thread_id: missing } => {
                if missing == thread_id {
                    Ok(None)
                } else {
                    Err(internal_error(concat("failed to read thread: ", e.display.as_str())))
                }
            },
            ThreadStoreErrorKind::InvalidRequest { message } => {
                let expected = concat("no rollout found for thread id ", thread_id.to_string().as_str());
                if str_eq(message.as_str(), expected.as_str()) {
                    Ok(None)
                } else {
                    Err(invalid_params(message))
                }
            },
            ThreadStoreErrorKind::Unsupported { operation } => {
                Err(internal_error(concat("thread store does not support ", operation.as_str())))
            },
            ThreadStoreErrorKind::Other => {
                Err(internal_error(concat("failed to read thread: ", e.display.as_str())))
            },
        },
    }
}


/// The view of an optional text.
pub open spec fn opt_str_view(s: Option<&str>) -> Option<Seq<char>> {
    match s {
        Some(v) => Some(v@),
        None => None,
    }
}

/// The error code and message with which a request fails before it reaches
/// its scope: no working directory, or no registry.
pub open spec fn scope_failure(cwd: Option<Seq<char>>, has_state_db: bool) -> Option<(i64, Seq<char>)> {
    if cwd is None {
        Some((INVALID_PARAMS_ERROR_CODE, cwd_required_message()))
    } else if !has_state_db {
        Some((INTERNAL_ERROR_CODE, state_db_unavailable_message()))
    } else {
        None
    }
}

/// Whether `after` is `before` with the scope `key` upserted at time `now`.
pub open spec fn views_upserted(
    before: Map<Seq<char>, ScopeRecord>,
    after: Map<Seq<char>, ScopeRecord>,
    key: Seq<char>,
    codex_home: Seq<char>,
    cwd: Seq<char>,
    now: i64,
) -> bool {
    after == upserted_scope(before, key, codex_home, cwd, now)
}

/// The message of a registry without room for one more position.
pub open spec fn position_overflow_message() -> Seq<char> {
    "failed to attach agent view thread: agent view position overflow"@
}

/// The message of an update of a thread that is not attached.
pub open spec fn update_failed_message(thread_id: u128) -> Seq<char> {
    "failed to update agent view entry: "@ + ("agent view thread not found: "@ + hyphenated_uuid(thread_id))
}

/// The state behind the `agentView/*` requests: the Codex home of the server
/// and its registry, which may be unavailable.
pub struct AgentViewRequestProcessor {
    codex_home: String,
    state_db: Option<StateRuntime>,
}

/// The message of a missing working directory.
pub open spec fn cwd_required_message() -> Seq<char> {
    "agent view cwd is required"@
}

/// The message of an unavailable registry.
pub open spec fn state_db_unavailable_message() -> Seq<char> {
    "state db is unavailable"@
}

impl AgentViewRequestProcessor {
    /// The registry's contents, if there is a registry.
    pub closed spec fn state(&self) -> Option<RegistryView> {
        match self.state_db {
            Some(db) => Some(db@),
            None => None,
        }
    }

    /// The Codex home that scopes are keyed under.
    pub closed spec fn home(&self) -> Seq<char> {
        self.codex_home@
    }

    /// The processor's invariant: its registry is well formed.
    pub closed spec fn wf(&self) -> bool {
        match self.state_db {
            Some(db) => db.wf(),
            None => true,
        }
    }

    /// A processor over a Codex home and an optional registry.
    pub fn new(codex_home: String, state_db: Option<StateRuntime>) -> (r: Self)
        requires
            state_db matches Some(db) ==> db.wf(),
        ensures
            r.wf(),
            r.home() == codex_home@,
            r.state() == (match state_db {
                Some(db) => Some(db@),
                None => None::<RegistryView>,
            }),
    {
        AgentViewRequestProcessor { codex_home, state_db }
    }

    /// Gives the registry back.
    pub fn into_state_db(self) -> (r: Option<StateRuntime>)
        requires
            self.wf(),
        ensures
            r matches Some(db) ==> db.wf() && self.state() == Some(db@),
            r is None ==> self.state() is None,
    {
        self.state_db
    }

    /// Creates or refreshes the scope of a resolved working directory at
    /// time `now` and gives its key. `cwd` is `None` when the request named
    /// no directory.
    pub fn ensure_scope(&mut self, cwd: Option<&str>, now: i64) -> (r: Result<String, JsonRpcError>)
        requires
            old(self).wf(),
        ensures
            final(self).wf(),
            final(self).home() == old(self).home(),
            match scope_failure(opt_str_view(cwd), old(self).state() is Some) {
                Some(f) => (r matches Err(e) && e.code == f.0 && e.message@ == f.1)
                    && final(self).state() == old(self).state(),
                None => {
                    let key = scope_key_text(old(self).home(), cwd->0@);
                    &&& r matches Ok(k) && k@ == key
                    &&& final(self).state() is Some
                    &&& final(self).state()->0.threads == old(self).state()->0.threads
                    &&& views_upserted(old(self).state()->0.views, final(self).state()->0.views, key,
                        old(self).home(), cwd->0@, now)
                },
            },
    {
        let cwd = match cwd {
            Some(c) => c,
            None => {
                return Err(invalid_params(String::from_str("agent view cwd is required")));
            },
        };
        let key = scope_key_for_cwd(self.codex_home.as_str(), cwd);
        match &mut self.state_db {
            Some(db) => {
                db.upsert_agent_view(key.as_str(), self.codex_home.as_str(), cwd, now);
                Ok(key)
            },
            None => Err(internal_error(String::from_str("state db is unavailable"))),
        }
    }
}


impl AgentViewRequestProcessor {
    /// The row of `thread_id` in the view `scope_key`, hidden or not, found
    /// by the canonical text of its thread id.
    pub fn entry_for_thread(&self, scope_key: &str, thread_id: &str) -> (r: Result<AgentViewThread, JsonRpcError>)
        requires
            self.wf(),
        ensures
            self.state() is None ==> (r matches Err(e) && e.code == INTERNAL_ERROR_CODE
                && e.message@ == state_db_unavailable_message()),
            self.state() is Some ==> {
                let threads = self.state()->0.threads;
                match r {
                    Ok(row) => threads.contains_key((scope_key@, row.thread_id.uuid))
                        && threads[(scope_key@, row.thread_id.uuid)] == row@
                        && hyphenated_uuid(row.thread_id.uuid) == thread_id@,
                    Err(e) => e.code == INVALID_PARAMS_ERROR_CODE && e.message@ == entry_not_found_message(thread_id@)
                        && forall|v: u128| threads.contains_key((scope_key@, v)) ==> hyphenated_uuid(v) != thread_id@,
                }
            },
    {
        match &self.state_db {
            None => Err(internal_error(String::from_str("state db is unavailable"))),
            Some(db) => {
                let rows = db.list_agent_view_threads(scope_key, true);
                let ghost recs = thread_records(rows@);
                let ghost threads = db@.threads;
                proof {
                    crate::store::lemma_registry_consistent(db);
                }
                let r = find_entry_row(rows, thread_id);
                proof {
                    if r is Ok {
                        let row = r->Ok_0;
                        {
                            let i = choose|i: int| 0 <= i < rows@.len() && rows@[i] == row
                                && hyphenated_uuid(row.thread_id.uuid) == thread_id@
                                && forall|j: int| 0 <= j < i ==> hyphenated_uuid(rows@[j].thread_id.uuid) != thread_id@;
                            assert(recs[i] == row@);
                        }
                    } else {
                        {
                            assert forall|v: u128| threads.contains_key((scope_key@, v)) implies hyphenated_uuid(v) != thread_id@ by {
                                let k = (scope_key@, v);
                                assert(crate::store::is_listed(threads[k], scope_key@, true));
                                let i = choose|i: int| 0 <= i < recs.len() && (thread_key_fn())(recs[i]) == k;
                                assert(recs[i] == rows@[i]@);
                            }
                        }
                    }
                }
                r
            },
        }
    }

    /// `agentView/list`: upserts the scope of `cwd` at time `now` and lists its rows in
    /// listing order; the app reads each row's thread.
    pub fn list(&mut self, cwd: Option<&str>, include_hidden: bool, now: i64) -> (r: Result<(String, Vec<AgentViewThread>), JsonRpcError>)
        requires
            old(self).wf(),
        ensures
            final(self).wf(),
            final(self).home() == old(self).home(),
            match scope_failure(opt_str_view(cwd), old(self).state() is Some) {
                Some(f) => (r matches Err(e) && e.code == f.0 && e.message@ == f.1)
                    && final(self).state() == old(self).state(),
                None => {
                    let key = scope_key_text(old(self).home(), cwd->0@);
                    let after = final(self).state()->0;
                    &&& final(self).state() is Some
                    &&& after.threads == old(self).state()->0.threads
                    &&& views_upserted(old(self).state()->0.views, after.views, key, old(self).home(), cwd->0@, now)
                    &&& r matches Ok(res) && res.0@ == key
                        && is_listing(after.threads, key, include_hidden, thread_records(res.1@))
                },
            },
    {
        let key = self.ensure_scope(cwd, now)?;
        match &self.state_db {
            Some(db) => {
                let rows = db.list_agent_view_threads(key.as_str(), include_hidden);
                Ok((key, rows))
            },
            None => Err(internal_error(String::from_str("state db is unavailable"))),
        }
    }

    /// `agentView/hideEntry`: upserts the scope of `cwd` at time `now` and hides the
    /// thread from it; the thread itself is untouched.
    pub fn hide_entry(&mut self, cwd: Option<&str>, thread_id: &str, now: i64) -> (r: Result<AgentViewHideEntryResponse, JsonRpcError>)
        requires
            old(self).wf(),
        ensures
            final(self).wf(),
            final(self).home() == old(self).home(),
            match scope_failure(opt_str_view(cwd), old(self).state() is Some) {
                Some(f) => (r matches Err(e) && e.code == f.0 && e.message@ == f.1)
                    && final(self).state() == old(self).state(),
                None => {
                    let key = scope_key_text(old(self).home(), cwd->0@);
                    let before = old(self).state()->0;
                    let after = final(self).state()->0;
                    &&& final(self).state() is Some
                    &&& views_upserted(before.views, after.views, key, old(self).home(), cwd->0@, now)
                    &&& match spec_parse_thread_id(thread_id@) {
                        Err(msg) => (r matches Err(e) && e.code == INVALID_PARAMS_ERROR_CODE
                            && e.message@ == invalid_thread_id_message(thread_id@, msg))
                            && after.threads == before.threads,
                        Ok(id) => (r matches Ok(resp) && resp.scope_key@ == key)
                            && hidden(before.threads, after.threads, key, id.uuid, now),
                    }
                },
            },
    {
        let key = self.ensure_scope(cwd, now)?;
        let id = parse_thread_id(thread_id)?;
        match &mut self.state_db {
            Some(db) => {
                db.hide_agent_view_thread(key.as_str(), id, now);
                Ok(AgentViewHideEntryResponse { scope_key: key })
            },
            None => Err(internal_error(String::from_str("state db is unavailable"))),
        }
    }
}


impl AgentViewRequestProcessor {
    /// `agentView/attachThread`: upserts the scope of `cwd` at time `now`, attaches the
    /// thread with its prompt, and gives its row, which the app joins with
    /// the thread.
    pub fn attach_thread(&mut self, cwd: Option<&str>, params: &AgentViewAttachThreadParams, now: i64) -> (r: Result<(String, AgentViewThread), JsonRpcError>)
        requires
            old(self).wf(),
        ensures
            final(self).wf(),
            final(self).home() == old(self).home(),
            match scope_failure(opt_str_view(cwd), old(self).state() is Some) {
                Some(f) => (r matches Err(e) && e.code == f.0 && e.message@ == f.1)
                    && final(self).state() == old(self).state(),
                None => {
                    let key = scope_key_text(old(self).home(), cwd->0@);
                    let before = old(self).state()->0;
                    let after = final(self).state()->0;
                    &&& final(self).state() is Some
                    &&& views_upserted(before.views, after.views, key, old(self).home(), cwd->0@, now)
                    &&& match spec_parse_thread_id(params.thread_id@) {
                        Err(msg) => (r matches Err(e) && e.code == INVALID_PARAMS_ERROR_CODE
                            && e.message@ == invalid_thread_id_message(params.thread_id@, msg))
                            && after.threads == before.threads,
                        Ok(id) => if !positions_below_max(before.threads, key) {
                            (r matches Err(e) && e.code == INTERNAL_ERROR_CODE && e.message@ == position_overflow_message())
                                && after.threads == before.threads
                        } else {
                            &&& after.threads.contains_key((key, id.uuid))
                            &&& attached(before.threads, after.threads, key, id.uuid, params.initial_prompt@,
                                now)
                            &&& if params.thread_id@ == hyphenated_uuid(id.uuid) {
                                r matches Ok(res) && res.0@ == key && res.1@ == after.threads[(key, id.uuid)]
                            } else {
                                r matches Err(e) && e.code == INVALID_PARAMS_ERROR_CODE
                                    && e.message@ == entry_not_found_message(params.thread_id@)
                            }
                        },
                    }
                },
            },
    {
        let key = self.ensure_scope(cwd, now)?;
        let parsed = parse_thread_id(params.thread_id.as_str());
        let id = match parsed {
            Ok(id) => id,
            Err(e) => {
                return Err(e);
            },
        };
        match &mut self.state_db {
            Some(db) => {
                if !db.positions_have_room(key.as_str()) {
                    return Err(internal_error(String::from_str(
                        "failed to attach agent view thread: agent view position overflow",
                    )));
                }
                db.attach_agent_view_thread(key.as_str(), id, params.initial_prompt.as_str(), now);
            },
            None => {
                return Err(internal_error(String::from_str("state db is unavailable")));
            },
        }
        let ghost st = self.state()->0;
        let row = self.entry_for_thread(key.as_str(), params.thread_id.as_str());
        proof {
            if params.thread_id@ == hyphenated_uuid(id.uuid) {
                if row is Ok {
                    crate::thread_id::lemma_hyphenated_uuid_injective(row->Ok_0.thread_id.uuid, id.uuid);
                }
            } else {
                if row is Ok {
                    let w = row->Ok_0.thread_id.uuid;
                    assert(hyphenated_uuid(w) == params.thread_id@);
                    assert(parsed == Ok::<ThreadId, JsonRpcError>(ThreadId { uuid: w }));
                }
            }
        }
        match row {
            Ok(row) => Ok((key, row)),
            Err(e) => Err(e),
        }
    }
}


impl AgentViewRequestProcessor {
    /// `agentView/updateEntry`: upserts the scope of `cwd` at time `now`, applies the
    /// fields that the request names, and gives the updated row, which the
    /// app joins with the thread.
    pub fn update_entry(&mut self, cwd: Option<&str>, params: &AgentViewUpdateEntryParams, now: i64) -> (r: Result<(String, AgentViewThread), JsonRpcError>)
        requires
            old(self).wf(),
        ensures
            final(self).wf(),
            final(self).home() == old(self).home(),
            match scope_failure(opt_str_view(cwd), old(self).state() is Some) {
                Some(f) => (r matches Err(e) && e.code == f.0 && e.message@ == f.1)
                    && final(self).state() == old(self).state(),
                None => {
                    let key = scope_key_text(old(self).home(), cwd->0@);
                    let before = old(self).state()->0;
                    let after = final(self).state()->0;
                    &&& final(self).state() is Some
                    &&& views_upserted(before.views, after.views, key, old(self).home(), cwd->0@, now)
                    &&& match spec_parse_thread_id(params.thread_id@) {
                        Err(msg) => (r matches Err(e) && e.code == INVALID_PARAMS_ERROR_CODE
                            && e.message@ == invalid_thread_id_message(params.thread_id@, msg))
                            && after.threads == before.threads,
                        Ok(id) => if !before.threads.contains_key((key, id.uuid)) {
                            (r matches Err(e) && e.code == INTERNAL_ERROR_CODE
                                && e.message@ == update_failed_message(id.uuid))
                                && after.threads == before.threads
                        } else {
                            &&& after.threads.contains_key((key, id.uuid))
                            &&& patched(before.threads, after.threads, key, id.uuid, params_patch(*params),
                                now)
                            &&& if params.thread_id@ == hyphenated_uuid(id.uuid) {
                                r matches Ok(res) && res.0@ == key && res.1@ == after.threads[(key, id.uuid)]
                            } else {
                                r matches Err(e) && e.code == INVALID_PARAMS_ERROR_CODE
                                    && e.message@ == entry_not_found_message(params.thread_id@)
                            }
                        },
                    }
                },
            },
    {
        let key = self.ensure_scope(cwd, now)?;
        let parsed = parse_thread_id(params.thread_id.as_str());
        let id = match parsed {
            Ok(id) => id,
            Err(e) => {
                return Err(e);
            },
        };
        let patch = patch_from_params(params);
        match &mut self.state_db {
            Some(db) => {
                match db.update_agent_view_thread(key.as_str(), id, patch, now) {
                    Ok(()) => {},
                    Err(nf) => {
                        return Err(internal_error(concat(
                            "failed to update agent view entry: ",
                            nf.message().as_str(),
                        )));
                    },
                }
            },
            None => {
                return Err(internal_error(String::from_str("state db is unavailable")));
            },
        }
        let row = self.entry_for_thread(key.as_str(), params.thread_id.as_str());
        proof {
            if row is Ok {
                let w = row->Ok_0.thread_id.uuid;
                assert(hyphenated_uuid(w) == params.thread_id@);
                assert(parsed == Ok::<ThreadId, JsonRpcError>(ThreadId { uuid: w }));
            }
        }
        match row {
            Ok(row) => Ok((key, row)),
            Err(e) => Err(e),
        }
    }
}

} // verus!
