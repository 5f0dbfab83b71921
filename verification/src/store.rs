//! The agent view registry: the scopes of the dashboard and the threads
//! attached to each scope, with the operations of the state database.

use vstd::prelude::*;
use crate::model::{
    AgentViewState, AgentViewThread, AgentViewThreadPatch, PatchRecord, ThreadRecord, apply_agent_view_patch, apply_patch,
};
use crate::table::{keys_unique, table_of, lemma_table_dom, lemma_table_value, lemma_table_push, lemma_table_update};
use crate::text::str_eq;
use crate::thread_id::ThreadId;

verus! {

/// One agent view: a dashboard scope, keyed by `scope_key`.
#[derive(Debug)]
pub struct AgentViewScope {
    pub scope_key: String,
    pub codex_home: String,
    pub cwd: String,
    pub created_at: i64,
    pub updated_at: i64,
}

/// The value of an `AgentViewScope`.
pub struct ScopeRecord {
    pub scope_key: Seq<char>,
    pub codex_home: Seq<char>,
    pub cwd: Seq<char>,
    pub created_at: i64,
    pub updated_at: i64,
}

impl View for AgentViewScope {
    type V = ScopeRecord;

    open spec fn view(&self) -> ScopeRecord {
        ScopeRecord {
            scope_key: self.scope_key@,
            codex_home: self.codex_home@,
            cwd: self.cwd@,
            created_at: self.created_at,
            updated_at: self.updated_at,
        }
    }
}

/// The key of a thread record: its scope and its thread.
pub open spec fn thread_key_fn() -> spec_fn(ThreadRecord) -> (Seq<char>, u128) {
    |r: ThreadRecord| (r.scope_key, r.thread_id)
}

/// The key of a scope record.
pub open spec fn scope_key_fn() -> spec_fn(ScopeRecord) -> Seq<char> {
    |r: ScopeRecord| r.scope_key
}

/// The records of a sequence of threads.
pub open spec fn thread_records(ts: Seq<AgentViewThread>) -> Seq<ThreadRecord> {
    ts.map_values(|t: AgentViewThread| t@)
}

/// The records of a sequence of scopes.
pub open spec fn scope_records(vs: Seq<AgentViewScope>) -> Seq<ScopeRecord> {
    vs.map_values(|v: AgentViewScope| v@)
}

/// The registry's contents: the scopes by key, and the threads by scope and
/// thread id.
pub struct RegistryView {
    pub views: Map<Seq<char>, ScopeRecord>,
    pub threads: Map<(Seq<char>, u128), ThreadRecord>,
}

/// The registry of agent views.
pub struct StateRuntime {
    views: Vec<AgentViewScope>,
    threads: Vec<AgentViewThread>,
}

impl View for StateRuntime {
    type V = RegistryView;

    closed spec fn view(&self) -> RegistryView {
        RegistryView {
            views: table_of(scope_records(self.views@), scope_key_fn()),
            threads: table_of(thread_records(self.threads@), thread_key_fn()),
        }
    }
}

/// A scope after an upsert at time `now`: a new scope is created, a known
/// one takes the new home and cwd and keeps its creation time.
pub open spec fn upserted_scope(
    views: Map<Seq<char>, ScopeRecord>,
    key: Seq<char>,
    codex_home: Seq<char>,
    cwd: Seq<char>,
    now: i64,
) -> Map<Seq<char>, ScopeRecord> {
    if views.contains_key(key) {
        views.insert(key, ScopeRecord { codex_home, cwd, updated_at: now, ..views[key] })
    } else {
        views.insert(key, ScopeRecord { scope_key: key, codex_home, cwd, created_at: now, updated_at: now })
    }
}

/// The record of a newly attached thread.
pub open spec fn new_thread_record(
    scope: Seq<char>,
    thread_id: u128,
    initial_prompt: Seq<char>,
    position: i64,
    now: i64,
) -> ThreadRecord {
    ThreadRecord {
        scope_key: scope,
        thread_id,
        initial_prompt,
        title_override: None,
        view_state: AgentViewState::ReadyForReview,
        pinned: false,
        position,
        hidden_at: None,
        created_at: now,
        updated_at: now,
        last_opened_at: None,
    }
}

/// Whether `p` is the position for a new thread of `scope`: one past the
/// greatest position in the scope, or zero for an empty scope.
pub open spec fn is_next_position(
    threads: Map<(Seq<char>, u128), ThreadRecord>,
    scope: Seq<char>,
    p: int,
) -> bool {
    if exists|k: (Seq<char>, u128)| threads.contains_key(k) && k.0 == scope {
        &&& exists|k: (Seq<char>, u128)| threads.contains_key(k) && k.0 == scope && threads[k].position + 1 == p
        &&& forall|k: (Seq<char>, u128)| threads.contains_key(k) && k.0 == scope ==> threads[k].position < p
    } else {
        p == 0
    }
}

/// Every position in `scope` is below `i64::MAX`, so the next one fits.
pub open spec fn positions_below_max(threads: Map<(Seq<char>, u128), ThreadRecord>, scope: Seq<char>) -> bool {
    forall|k: (Seq<char>, u128)| threads.contains_key(k) && k.0 == scope ==> threads[k].position < i64::MAX
}

/// A thread record after it is hidden at time `now`.
pub open spec fn hidden_record(r: ThreadRecord, now: i64) -> ThreadRecord {
    ThreadRecord { hidden_at: Some(now), updated_at: now, ..r }
}

/// A thread record after it is attached again with a new prompt.
pub open spec fn reattached_record(r: ThreadRecord, prompt: Seq<char>, now: i64) -> ThreadRecord {
    ThreadRecord { initial_prompt: prompt, updated_at: now, ..r }
}

/// Whether a record is listed: it belongs to `scope` and is visible, or
/// hidden records are wanted.
pub open spec fn is_listed(r: ThreadRecord, scope: Seq<char>, include_hidden: bool) -> bool {
    r.scope_key == scope && (include_hidden || r.hidden_at is None)
}

/// The listing order: pinned first, then by position, then the most recently
/// updated, then by thread id (whose numeric order is the order of the ids'
/// texts, `law_id_order_is_text_order`).
pub open spec fn listed_before(a: ThreadRecord, b: ThreadRecord) -> bool {
    if a.pinned != b.pinned {
        a.pinned
    } else if a.position != b.position {
        a.position < b.position
    } else if a.updated_at != b.updated_at {
        a.updated_at > b.updated_at
    } else {
        a.thread_id < b.thread_id
    }
}

/// Whether `new` is `old` after attaching `thread_id` to `scope` with
/// `prompt` at time `now`.
pub open spec fn attached(
    old: Map<(Seq<char>, u128), ThreadRecord>,
    new: Map<(Seq<char>, u128), ThreadRecord>,
    scope: Seq<char>,
    thread_id: u128,
    prompt: Seq<char>,
    now: i64,
) -> bool {
    let k = (scope, thread_id);
    if old.contains_key(k) {
        new == old.insert(k, reattached_record(old[k], prompt, now))
    } else {
        &&& new.contains_key(k)
        &&& is_next_position(old, scope, new[k].position as int)
        &&& new == old.insert(k, new_thread_record(scope, thread_id, prompt, new[k].position, now))
    }
}

/// Whether `new` is `old` after hiding `thread_id` of `scope` at time `now`.
pub open spec fn hidden(
    old: Map<(Seq<char>, u128), ThreadRecord>,
    new: Map<(Seq<char>, u128), ThreadRecord>,
    scope: Seq<char>,
    thread_id: u128,
    now: i64,
) -> bool {
    let k = (scope, thread_id);
    new == (if old.contains_key(k) { old.insert(k, hidden_record(old[k], now)) } else { old })
}

/// Whether `new` is `old` after patching `thread_id` of `scope` at time
/// `now`, which needs the thread to be attached.
pub open spec fn patched(
    old: Map<(Seq<char>, u128), ThreadRecord>,
    new: Map<(Seq<char>, u128), ThreadRecord>,
    scope: Seq<char>,
    thread_id: u128,
    patch: PatchRecord,
    now: i64,
) -> bool {
    let k = (scope, thread_id);
    old.contains_key(k) && new == old.insert(k, apply_patch(old[k], patch, now))
}

/// Whether `rows` lists the threads of `scope` (all of them, or only the
/// visible ones), each as stored, in listing order.
pub open spec fn is_listing(
    threads: Map<(Seq<char>, u128), ThreadRecord>,
    scope: Seq<char>,
    include_hidden: bool,
    rows: Seq<ThreadRecord>,
) -> bool {
    &&& forall|i: int| 0 <= i < rows.len() ==> {
        &&& threads.contains_key((thread_key_fn())(#[trigger] rows[i]))
        &&& threads[(thread_key_fn())(rows[i])] == rows[i]
        &&& is_listed(rows[i], scope, include_hidden)
    }
    &&& forall|k: (Seq<char>, u128)| threads.contains_key(k) && is_listed(#[trigger] threads[k], scope, include_hidden)
        ==> exists|i: int| 0 <= i < rows.len() && (thread_key_fn())(rows[i]) == k
    &&& forall|i: int, j: int| 0 <= i < j < rows.len() ==> listed_before(rows[i], rows[j])
}

/// The position after the greatest position of a scope, `max`, or zero for
/// an empty scope.
pub fn position_after(max: Option<i64>) -> (p: i64)
    requires
        match max {
            Some(m) => m < i64::MAX,
            None => true,
        },
    ensures
        p == match max {
            Some(m) => m + 1,
            None => 0,
        },
{
    match max {
        Some(m) => m + 1,
        None => 0,
    }
}

/// Why an update found nothing to change.
#[derive(Debug)]
pub struct AgentViewThreadNotFound {
    pub thread_id: ThreadId,
}

impl AgentViewThreadNotFound {
    /// `agent view thread not found: <thread id>`.
    pub fn message(&self) -> (r: String)
        ensures
            r@ == "agent view thread not found: "@ + crate::thread_id::hyphenated_uuid(self.thread_id.uuid),
    {
        let mut m = String::from_str("agent view thread not found: ");
        let id = self.thread_id.to_string();
        m.append(id.as_str());
        m
    }
}

impl StateRuntime {
    /// The registry's invariant: keys are unique among scopes and threads.
    pub closed spec fn wf(&self) -> bool {
        &&& keys_unique(scope_records(self.views@), scope_key_fn())
        &&& keys_unique(thread_records(self.threads@), thread_key_fn())
    }

    /// An empty registry.
    pub fn new() -> (r: StateRuntime)
        ensures
            r.wf(),
            r@.views == Map::<Seq<char>, ScopeRecord>::empty(),
            r@.threads == Map::<(Seq<char>, u128), ThreadRecord>::empty(),
    {
        let r = StateRuntime { views: Vec::new(), threads: Vec::new() };
        assert(scope_records(r.views@) =~= Seq::<ScopeRecord>::empty());
        assert(thread_records(r.threads@) =~= Seq::<ThreadRecord>::empty());
        r
    }

    fn find_scope(&self, scope_key: &str) -> (r: Option<usize>)
        requires
            self.wf(),
        ensures
            match r {
                Some(i) => i < self.views@.len() && self.views@[i as int].scope_key@ == scope_key@,
                None => !self@.views.contains_key(scope_key@),
            },
    {
        let mut i: usize = 0;
        while i < self.views.len()
            invariant
                i <= self.views@.len(),
                forall|j: int| 0 <= j < i ==> self.views@[j].scope_key@ != scope_key@,
            decreases self.views@.len() - i,
        {
            if str_eq(self.views[i].scope_key.as_str(), scope_key) {
                return Some(i);
            }
            i = i + 1;
        }
        proof {
            let s = scope_records(self.views@);
            lemma_table_dom(s, scope_key_fn(), scope_key@);
            if exists|j: int| 0 <= j < s.len() && (scope_key_fn())(s[j]) == scope_key@ {
                let j = choose|j: int| 0 <= j < s.len() && (scope_key_fn())(s[j]) == scope_key@;
                assert(self.views@[j].scope_key@ == scope_key@);
            }
        }
        None
    }

    fn find_thread(&self, scope_key: &str, thread_id: ThreadId) -> (r: Option<usize>)
        requires
            self.wf(),
        ensures
            match r {
                Some(i) => i < self.threads@.len() && self.threads@[i as int].scope_key@ == scope_key@
                    && self.threads@[i as int].thread_id == thread_id,
                None => !self@.threads.contains_key((scope_key@, thread_id.uuid)),
            },
    {
        let mut i: usize = 0;
        while i < self.threads.len()
            invariant
                i <= self.threads@.len(),
                forall|j: int| 0 <= j < i ==> !(self.threads@[j].scope_key@ == scope_key@
                    && self.threads@[j].thread_id == thread_id),
            decreases self.threads@.len() - i,
        {
            if self.threads[i].thread_id == thread_id && str_eq(self.threads[i].scope_key.as_str(), scope_key) {
                return Some(i);
            }
            i = i + 1;
        }
        proof {
            let s = thread_records(self.threads@);
            let k = (scope_key@, thread_id.uuid);
            lemma_table_dom(s, thread_key_fn(), k);
            if exists|j: int| 0 <= j < s.len() && (thread_key_fn())(s[j]) == k {
                let j = choose|j: int| 0 <= j < s.len() && (thread_key_fn())(s[j]) == k;
                assert(self.threads@[j].scope_key@ == scope_key@);
                assert(self.threads@[j].thread_id.uuid == thread_id.uuid);
            }
        }
        None
    }
}


impl StateRuntime {
    /// Creates the scope `scope_key`, or points a known scope at a new Codex
    /// home and cwd, at time `now`.
    pub fn upsert_agent_view(&mut self, scope_key: &str, codex_home: &str, cwd: &str, now: i64)
        requires
            old(self).wf(),
        ensures
            final(self).wf(),
            final(self)@.views == upserted_scope(old(self)@.views, scope_key@, codex_home@, cwd@, now),
            final(self)@.threads == old(self)@.threads,
    {
        let ghost pre = scope_records(self.views@);
        match self.find_scope(scope_key) {
            Some(i) => {
                let v = AgentViewScope {
                    scope_key: self.views[i].scope_key.clone(),
                    codex_home: String::from_str(codex_home),
                    cwd: String::from_str(cwd),
                    created_at: self.views[i].created_at,
                    updated_at: now,
                };
                proof {
                    lemma_table_value(pre, scope_key_fn(), i as int);
                    lemma_table_update(pre, scope_key_fn(), i as int, v@);
                }
                self.views.set(i, v);
                proof {
                    assert(scope_records(self.views@) =~= pre.update(i as int, v@));
                }
            },
            None => {
                let v = AgentViewScope {
                    scope_key: String::from_str(scope_key),
                    codex_home: String::from_str(codex_home),
                    cwd: String::from_str(cwd),
                    created_at: now,
                    updated_at: now,
                };
                proof {
                    lemma_table_push(pre, scope_key_fn(), v@);
                }
                self.views.push(v);
                proof {
                    assert(scope_records(self.views@) =~= pre.push(v@));
                }
            },
        }
    }

    /// The thread `thread_id` of scope `scope_key`, if attached.
    pub fn get_agent_view_thread(&self, scope_key: &str, thread_id: ThreadId) -> (r: Option<AgentViewThread>)
        requires
            self.wf(),
        ensures
            match r {
                Some(t) => self@.threads.contains_key((scope_key@, thread_id.uuid))
                    && self@.threads[(scope_key@, thread_id.uuid)] == t@,
                None => !self@.threads.contains_key((scope_key@, thread_id.uuid)),
            },
    {
        match self.find_thread(scope_key, thread_id) {
            Some(i) => {
                proof {
                    lemma_table_value(thread_records(self.threads@), thread_key_fn(), i as int);
                }
                Some(self.threads[i].clone())
            },
            None => None,
        }
    }

    /// Hides a thread from its view at time `now`: the row stays, with
    /// `hidden_at` set. Nothing happens if the thread is not attached.
    pub fn hide_agent_view_thread(&mut self, scope_key: &str, thread_id: ThreadId, now: i64)
        requires
            old(self).wf(),
        ensures
            final(self).wf(),
            final(self)@.views == old(self)@.views,
            hidden(old(self)@.threads, final(self)@.threads, scope_key@, thread_id.uuid, now),
    {
        let ghost pre = thread_records(self.threads@);
        match self.find_thread(scope_key, thread_id) {
            Some(i) => {
                let mut t = self.threads[i].clone();
                t.hidden_at = Some(now);
                t.updated_at = now;
                proof {
                    lemma_table_value(pre, thread_key_fn(), i as int);
                    lemma_table_update(pre, thread_key_fn(), i as int, t@);
                }
                self.threads.set(i, t);
                proof {
                    assert(thread_records(self.threads@) =~= pre.update(i as int, t@));
                }
            },
            None => {},
        }
    }

    /// Applies a patch to an attached thread at time `now`; fails, changing
    /// nothing, if the thread is not attached to the scope.
    pub fn update_agent_view_thread(
        &mut self,
        scope_key: &str,
        thread_id: ThreadId,
        patch: AgentViewThreadPatch,
        now: i64,
    ) -> (r: Result<(), AgentViewThreadNotFound>)
        requires
            old(self).wf(),
        ensures
            final(self).wf(),
            final(self)@.views == old(self)@.views,
            old(self)@.threads.contains_key((scope_key@, thread_id.uuid)) ==> {
                &&& r is Ok
                &&& patched(old(self)@.threads, final(self)@.threads, scope_key@, thread_id.uuid, patch@, now)
            },
            !old(self)@.threads.contains_key((scope_key@, thread_id.uuid)) ==> {
                &&& r matches Err(e) && e.thread_id == thread_id
                &&& final(self)@.threads == old(self)@.threads
            },
    {
        let ghost pre = thread_records(self.threads@);
        let ghost pv = patch@;
        match self.find_thread(scope_key, thread_id) {
            Some(i) => {
                let t = apply_agent_view_patch(&self.threads[i], patch, now);
                proof {
                    lemma_table_value(pre, thread_key_fn(), i as int);
                    assert(t@ == apply_patch(pre[i as int], pv, now));
                    lemma_table_update(pre, thread_key_fn(), i as int, t@);
                }
                self.threads.set(i, t);
                proof {
                    assert(thread_records(self.threads@) =~= pre.update(i as int, t@));
                }
                Ok(())
            },
            None => Err(AgentViewThreadNotFound { thread_id }),
        }
    }
}


impl StateRuntime {
    /// The position for a new thread of `scope_key`: one past the greatest
    /// position in the scope, or zero when the scope has no threads.
    fn next_agent_view_thread_position(&self, scope_key: &str) -> (p: i64)
        requires
            self.wf(),
            positions_below_max(self@.threads, scope_key@),
        ensures
            is_next_position(self@.threads, scope_key@, p as int),
    {
        let ghost recs = thread_records(self.threads@);
        let ghost tbl = self@.threads;
        let mut best: Option<i64> = None;
        let mut i: usize = 0;
        while i < self.threads.len()
            invariant
                i <= self.threads@.len(),
                recs == thread_records(self.threads@),
                match best {
                    None => forall|j: int| 0 <= j < i ==> recs[j].scope_key != scope_key@,
                    Some(m) => (exists|j: int| 0 <= j < i && recs[j].scope_key == scope_key@ && recs[j].position == m)
                        && forall|j: int| 0 <= j < i && recs[j].scope_key == scope_key@ ==> recs[j].position <= m,
                },
            decreases self.threads@.len() - i,
        {
            proof {
                assert(recs[i as int] == self.threads@[i as int]@);
            }
            if str_eq(self.threads[i].scope_key.as_str(), scope_key) {
                let p = self.threads[i].position;
                match best {
                    None => { best = Some(p); },
                    Some(m) => {
                        if p > m {
                            best = Some(p);
                        }
                    },
                }
            }
            i = i + 1;
        }
        match best {
            None => {
                proof {
                    assert forall|k: (Seq<char>, u128)| !(tbl.contains_key(k) && k.0 == scope_key@) by {
                        lemma_table_dom(recs, thread_key_fn(), k);
                    }
                }
                position_after(None)
            },
            Some(m) => {
                proof {
                    let j = choose|j: int| 0 <= j < recs.len() && recs[j].scope_key == scope_key@ && recs[j].position == m;
                    lemma_table_value(recs, thread_key_fn(), j);
                    let kj = (thread_key_fn())(recs[j]);
                    assert(tbl.contains_key(kj) && kj.0 == scope_key@);
                    assert(m < i64::MAX);
                    assert(tbl[kj].position + 1 == m + 1);
                    assert forall|k: (Seq<char>, u128)| tbl.contains_key(k) && k.0 == scope_key@
                        implies tbl[k].position < m + 1 by {
                        lemma_table_dom(recs, thread_key_fn(), k);
                        let l = choose|l: int| 0 <= l < recs.len() && (thread_key_fn())(recs[l]) == k;
                        lemma_table_value(recs, thread_key_fn(), l);
                    }
                }
                position_after(Some(m))
            },
        }
    }

    /// Attaches a thread to a view at time `now`. A new thread goes after
    /// every thread of the scope and starts ready for review, unpinned and
    /// visible; a thread already attached keeps its fields but takes the new
    /// prompt.
    pub fn attach_agent_view_thread(
        &mut self,
        scope_key: &str,
        thread_id: ThreadId,
        initial_prompt: &str,
        now: i64,
    )
        requires
            old(self).wf(),
            positions_below_max(old(self)@.threads, scope_key@),
        ensures
            final(self).wf(),
            final(self)@.views == old(self)@.views,
            attached(old(self)@.threads, final(self)@.threads, scope_key@, thread_id.uuid, initial_prompt@, now),
    {
        let position = self.next_agent_view_thread_position(scope_key);
        let ghost pre = thread_records(self.threads@);
        match self.find_thread(scope_key, thread_id) {
            Some(i) => {
                let mut t = self.threads[i].clone();
                t.initial_prompt = String::from_str(initial_prompt);
                t.updated_at = now;
                proof {
                    lemma_table_value(pre, thread_key_fn(), i as int);
                    lemma_table_update(pre, thread_key_fn(), i as int, t@);
                }
                self.threads.set(i, t);
                proof {
                    assert(thread_records(self.threads@) =~= pre.update(i as int, t@));
                }
            },
            None => {
                let t = AgentViewThread {
                    scope_key: String::from_str(scope_key),
                    thread_id,
                    initial_prompt: String::from_str(initial_prompt),
                    title_override: None,
                    view_state: AgentViewState::ReadyForReview,
                    pinned: false,
                    position,
                    hidden_at: None,
                    created_at: now,
                    updated_at: now,
                    last_opened_at: None,
                };
                proof {
                    lemma_table_push(pre, thread_key_fn(), t@);
                }
                self.threads.push(t);
                proof {
                    assert(thread_records(self.threads@) =~= pre.push(t@));
                }
            },
        }
    }
}


/// `listed_before` is a strict order, total on records with different
/// thread ids.
pub proof fn lemma_listed_before_order(a: ThreadRecord, b: ThreadRecord, c: ThreadRecord)
    ensures
        !(listed_before(a, b) && listed_before(b, a)),
        a.thread_id != b.thread_id ==> listed_before(a, b) || listed_before(b, a),
        listed_before(a, b) && listed_before(b, c) ==> listed_before(a, c),
{
}

fn listed_before_exec(a: &AgentViewThread, b: &AgentViewThread) -> (r: bool)
    ensures
        r == listed_before(a@, b@),
{
    if a.pinned != b.pinned {
        a.pinned
    } else if a.position != b.position {
        a.position < b.position
    } else if a.updated_at != b.updated_at {
        a.updated_at > b.updated_at
    } else {
        a.thread_id.uuid < b.thread_id.uuid
    }
}


/// The first place in `out` whose thread `t` is listed before, or the end.
fn insertion_position(out: &Vec<AgentViewThread>, t: &AgentViewThread) -> (pos: usize)
    ensures
        pos <= out@.len(),
        forall|a: int| 0 <= a < pos ==> !listed_before(t@, out@[a]@),
        pos < out@.len() ==> listed_before(t@, out@[pos as int]@),
{
    let mut pos: usize = 0;
    while pos < out.len()
        invariant
            pos <= out@.len(),
            forall|a: int| 0 <= a < pos ==> !listed_before(t@, out@[a]@),
        decreases out@.len() - pos,
    {
        if listed_before_exec(t, &out[pos]) {
            return pos;
        }
        pos = pos + 1;
    }
    pos
}

/// Where each listed record came from (`src`) and where each listed record
/// went (`dst`) after the first `i` records of `recs` were inserted.
pub open spec fn listing_tracks(
    out: Seq<AgentViewThread>,
    recs: Seq<ThreadRecord>,
    i: int,
    scope: Seq<char>,
    include_hidden: bool,
    src: Seq<int>,
    dst: Seq<int>,
) -> bool {
    &&& src.len() == out.len()
    &&& dst.len() == i
    &&& forall|a: int| 0 <= a < out.len() ==> 0 <= #[trigger] src[a] < i && recs[src[a]] == out[a]@
        && is_listed(recs[src[a]], scope, include_hidden)
    &&& forall|j: int| 0 <= j < i && is_listed(recs[j], scope, include_hidden)
        ==> 0 <= #[trigger] dst[j] < out.len() && out[dst[j]]@ == recs[j]
}

proof fn lemma_listing_insert(
    out: Seq<AgentViewThread>,
    recs: Seq<ThreadRecord>,
    i: int,
    scope: Seq<char>,
    include_hidden: bool,
    src: Seq<int>,
    dst: Seq<int>,
    pos: int,
    x: AgentViewThread,
) -> (r: (Seq<int>, Seq<int>))
    requires
        0 <= i < recs.len(),
        0 <= pos <= out.len(),
        recs[i] == x@,
        is_listed(recs[i], scope, include_hidden),
        keys_unique(recs, thread_key_fn()),
        listing_tracks(out, recs, i, scope, include_hidden, src, dst),
        forall|a: int, b: int| 0 <= a < b < out.len() ==> listed_before(out[a]@, out[b]@),
        forall|a: int| 0 <= a < pos ==> !listed_before(x@, out[a]@),
        pos < out.len() ==> listed_before(x@, out[pos]@),
    ensures
        listing_tracks(out.insert(pos, x), recs, i + 1, scope, include_hidden, r.0, r.1),
        forall|a: int, b: int| 0 <= a < b < out.insert(pos, x).len()
            ==> listed_before(out.insert(pos, x)[a]@, out.insert(pos, x)[b]@),
{
    assert forall|a: int| 0 <= a < out.len() implies out[a]@.thread_id != x@.thread_id by {
        let j = src[a];
        assert((thread_key_fn())(recs[j]) != (thread_key_fn())(recs[i]));
    }
    let n = out.insert(pos, x);
    assert forall|a: int, b: int| 0 <= a < b < n.len() implies listed_before(n[a]@, n[b]@) by {
        if b < pos {
            assert(n[a] == out[a] && n[b] == out[b]);
        } else if b == pos {
            assert(n[a] == out[a]);
            lemma_listed_before_order(out[a]@, x@, x@);
        } else if a == pos {
            assert(n[b] == out[b - 1]);
            if b - 1 > pos {
                lemma_listed_before_order(x@, out[pos]@, out[b - 1]@);
            }
        } else if a < pos {
            assert(n[a] == out[a] && n[b] == out[b - 1]);
        } else {
            assert(n[a] == out[a - 1] && n[b] == out[b - 1]);
        }
    }
    let src2 = Seq::new(n.len(), |a: int| if a < pos { src[a] } else if a == pos { i } else { src[a - 1] });
    let dst2 = Seq::new((i + 1) as nat, |j: int| if j == i { pos } else if dst[j] < pos { dst[j] } else { dst[j] + 1 });
    assert forall|a: int| 0 <= a < n.len() implies 0 <= #[trigger] src2[a] < i + 1 && recs[src2[a]] == n[a]@
        && is_listed(recs[src2[a]], scope, include_hidden) by {
        if a < pos {
            assert(n[a] == out[a]);
        } else if a > pos {
            assert(n[a] == out[a - 1]);
        }
    }
    assert forall|j: int| 0 <= j < i + 1 && is_listed(recs[j], scope, include_hidden)
        implies 0 <= #[trigger] dst2[j] < n.len() && n[dst2[j]]@ == recs[j] by {
        if j < i {
            let d = dst[j];
            if d < pos {
                assert(n[d] == out[d]);
            } else {
                assert(n[d + 1] == out[d]);
            }
        }
    }
    (src2, dst2)
}

impl StateRuntime {
    /// The threads of a view in listing order: pinned first, then by
    /// position, then the most recently updated, then by thread id. Hidden
    /// threads are listed only when asked for.
    pub fn list_agent_view_threads(&self, scope_key: &str, include_hidden: bool) -> (r: Vec<AgentViewThread>)
        requires
            self.wf(),
        ensures
            is_listing(self@.threads, scope_key@, include_hidden, thread_records(r@)),
    {
        let ghost recs = thread_records(self.threads@);
        let ghost mut src: Seq<int> = Seq::empty();
        let ghost mut dst: Seq<int> = Seq::empty();
        let mut out: Vec<AgentViewThread> = Vec::new();
        let mut i: usize = 0;
        while i < self.threads.len()
            invariant
                i <= self.threads@.len(),
                recs == thread_records(self.threads@),
                keys_unique(recs, thread_key_fn()),
                listing_tracks(out@, recs, i as int, scope_key@, include_hidden, src, dst),
                forall|a: int, b: int| 0 <= a < b < out@.len() ==> listed_before(out@[a]@, out@[b]@),
            decreases self.threads@.len() - i,
        {
            proof {
                assert(recs[i as int] == self.threads@[i as int]@);
            }
            let t = &self.threads[i];
            if str_eq(t.scope_key.as_str(), scope_key) && (include_hidden || t.hidden_at.is_none()) {
                let pos = insertion_position(&out, t);
                let x = t.clone();
                proof {
                    let r = lemma_listing_insert(out@, recs, i as int, scope_key@, include_hidden, src, dst, pos as int, x);
                    src = r.0;
                    dst = r.1;
                }
                out.insert(pos, x);
            } else {
                proof {
                    assert(!is_listed(recs[i as int], scope_key@, include_hidden));
                    dst = dst.push(0);
                    assert forall|j: int| 0 <= j < i + 1 && is_listed(recs[j], scope_key@, include_hidden)
                        implies 0 <= #[trigger] dst[j] < out@.len() && out@[dst[j]]@ == recs[j] by {
                        assert(j < i);
                    }
                }
            }
            i = i + 1;
        }
        proof {
            let tbl = self@.threads;
            let rs = thread_records(out@);
            assert forall|a: int| 0 <= a < rs.len() implies {
                &&& tbl.contains_key((thread_key_fn())(#[trigger] rs[a]))
                &&& tbl[(thread_key_fn())(rs[a])] == rs[a]
                &&& is_listed(rs[a], scope_key@, include_hidden)
            } by {
                assert(rs[a] == out@[a]@);
                lemma_table_value(recs, thread_key_fn(), src[a]);
            }
            assert forall|k: (Seq<char>, u128)| tbl.contains_key(k) && is_listed(#[trigger] tbl[k], scope_key@, include_hidden)
                implies exists|a: int| 0 <= a < rs.len() && (thread_key_fn())(rs[a]) == k by {
                lemma_table_dom(recs, thread_key_fn(), k);
                let j = choose|j: int| 0 <= j < recs.len() && (thread_key_fn())(recs[j]) == k;
                lemma_table_value(recs, thread_key_fn(), j);
                assert(is_listed(recs[j], scope_key@, include_hidden));
                let a = dst[j];
                assert(rs[a] == out@[a]@);
                assert((thread_key_fn())(rs[a]) == k);
            }
            assert forall|a: int, b: int| 0 <= a < b < rs.len() implies listed_before(rs[a], rs[b]) by {
                assert(rs[a] == out@[a]@ && rs[b] == out@[b]@);
            }
        }
        out
    }
}


impl StateRuntime {
    /// Whether every position of `scope_key` is below `i64::MAX`, so that a
    /// new thread can be placed after them.
    pub fn positions_have_room(&self, scope_key: &str) -> (r: bool)
        requires
            self.wf(),
        ensures
            r == positions_below_max(self@.threads, scope_key@),
    {
        let ghost recs = thread_records(self.threads@);
        let ghost tbl = self@.threads;
        let mut i: usize = 0;
        while i < self.threads.len()
            invariant
                i <= self.threads@.len(),
                recs == thread_records(self.threads@),
                keys_unique(recs, thread_key_fn()),
                tbl == table_of(recs, thread_key_fn()),
                forall|j: int| 0 <= j < i && recs[j].scope_key == scope_key@ ==> recs[j].position < i64::MAX,
            decreases self.threads@.len() - i,
        {
            proof {
                assert(recs[i as int] == self.threads@[i as int]@);
            }
            if self.threads[i].position == i64::MAX && str_eq(self.threads[i].scope_key.as_str(), scope_key) {
                proof {
                    lemma_table_value(recs, thread_key_fn(), i as int);
                    let k = (thread_key_fn())(recs[i as int]);
                    assert(tbl.contains_key(k) && k.0 == scope_key@);
                }
                return false;
            }
            i = i + 1;
        }
        proof {
            assert forall|k: (Seq<char>, u128)| tbl.contains_key(k) && k.0 == scope_key@ implies tbl[k].position < i64::MAX by {
                lemma_table_dom(recs, thread_key_fn(), k);
                let j = choose|j: int| 0 <= j < recs.len() && (thread_key_fn())(recs[j]) == k;
                lemma_table_value(recs, thread_key_fn(), j);
            }
        }
        true
    }
}

impl StateRuntime {
    /// The scope `scope_key`, if it was ever upserted.
    pub fn get_agent_view(&self, scope_key: &str) -> (r: Option<AgentViewScope>)
        requires
            self.wf(),
        ensures
            match r {
                Some(v) => self@.views.contains_key(scope_key@) && self@.views[scope_key@] == v@,
                None => !self@.views.contains_key(scope_key@),
            },
    {
        match self.find_scope(scope_key) {
            Some(i) => {
                proof {
                    lemma_table_value(scope_records(self.views@), scope_key_fn(), i as int);
                }
                let v = &self.views[i];
                Some(AgentViewScope {
                    scope_key: v.scope_key.clone(),
                    codex_home: v.codex_home.clone(),
                    cwd: v.cwd.clone(),
                    created_at: v.created_at,
                    updated_at: v.updated_at,
                })
            },
            None => None,
        }
    }
}

/// The threads of one scope.
pub open spec fn scope_threads(
    threads: Map<(Seq<char>, u128), ThreadRecord>,
    scope: Seq<char>,
) -> Map<(Seq<char>, u128), ThreadRecord> {
    threads.restrict(Set::new(|k: (Seq<char>, u128)| k.0 == scope))
}

/// Every record is stored under its own scope and thread id.
pub open spec fn table_consistent(threads: Map<(Seq<char>, u128), ThreadRecord>) -> bool {
    forall|k: (Seq<char>, u128)| #[trigger] threads.contains_key(k) ==> threads[k].scope_key == k.0
        && threads[k].thread_id == k.1
}

/// A well-formed registry stores every record under its own key.
pub proof fn lemma_registry_consistent(rt: &StateRuntime)
    requires
        rt.wf(),
    ensures
        table_consistent(rt@.threads),
{
    let recs = thread_records(rt.threads@);
    assert forall|k: (Seq<char>, u128)| #[trigger] rt@.threads.contains_key(k) implies rt@.threads[k].scope_key == k.0
        && rt@.threads[k].thread_id == k.1 by {
        lemma_table_dom(recs, thread_key_fn(), k);
        let j = choose|j: int| 0 <= j < recs.len() && (thread_key_fn())(recs[j]) == k;
        lemma_table_value(recs, thread_key_fn(), j);
    }
}

/// Law: a listing puts pinned rows before unpinned ones; of two rows with
/// the same pin, the lower position comes first; at the same position, the
/// more recently updated; at the same update time, the lower thread id.
pub proof fn law_listing_order(
    threads: Map<(Seq<char>, u128), ThreadRecord>,
    scope: Seq<char>,
    include_hidden: bool,
    rows: Seq<ThreadRecord>,
)
    requires
        is_listing(threads, scope, include_hidden, rows),
    ensures
        forall|i: int, j: int| #![trigger rows[i], rows[j]] 0 <= i < j < rows.len() ==> {
            ||| rows[i].pinned && !rows[j].pinned
            ||| rows[i].pinned == rows[j].pinned && rows[i].position < rows[j].position
            ||| rows[i].pinned == rows[j].pinned && rows[i].position == rows[j].position
                && rows[i].updated_at > rows[j].updated_at
            ||| rows[i].pinned == rows[j].pinned && rows[i].position == rows[j].position
                && rows[i].updated_at == rows[j].updated_at && rows[i].thread_id < rows[j].thread_id
        },
{
    assert forall|i: int, j: int| #![trigger rows[i], rows[j]] 0 <= i < j < rows.len() implies {
        ||| rows[i].pinned && !rows[j].pinned
        ||| rows[i].pinned == rows[j].pinned && rows[i].position < rows[j].position
        ||| rows[i].pinned == rows[j].pinned && rows[i].position == rows[j].position
            && rows[i].updated_at > rows[j].updated_at
        ||| rows[i].pinned == rows[j].pinned && rows[i].position == rows[j].position
            && rows[i].updated_at == rows[j].updated_at && rows[i].thread_id < rows[j].thread_id
    } by {
        assert(listed_before(rows[i], rows[j]));
    }
}

/// The rows of a listing after its first, as a listing of the table
/// without the first row's key.
proof fn lemma_listing_drop_first(
    threads: Map<(Seq<char>, u128), ThreadRecord>,
    scope: Seq<char>,
    include_hidden: bool,
    rows: Seq<ThreadRecord>,
)
    requires
        rows.len() > 0,
        is_listing(threads, scope, include_hidden, rows),
    ensures
        is_listing(threads.remove((thread_key_fn())(rows[0])), scope, include_hidden, rows.drop_first()),
{
    let k0 = (thread_key_fn())(rows[0]);
    let t = threads.remove(k0);
    let rest = rows.drop_first();
    assert forall|i: int| 0 <= i < rest.len() implies {
        &&& t.contains_key((thread_key_fn())(#[trigger] rest[i]))
        &&& t[(thread_key_fn())(rest[i])] == rest[i]
        &&& is_listed(rest[i], scope, include_hidden)
    } by {
        assert(rest[i] == rows[i + 1]);
        assert(listed_before(rows[0], rows[i + 1]));
        if (thread_key_fn())(rows[i + 1]) == k0 {
            assert(rows[i + 1] == threads[k0]);
            assert(rows[0] == threads[k0]);
        }
    }
    assert forall|k: (Seq<char>, u128)| t.contains_key(k) && is_listed(#[trigger] t[k], scope, include_hidden)
        implies exists|i: int| 0 <= i < rest.len() && (thread_key_fn())(rest[i]) == k by {
        assert(threads.contains_key(k) && is_listed(threads[k], scope, include_hidden));
        let i = choose|i: int| 0 <= i < rows.len() && (thread_key_fn())(rows[i]) == k;
        assert(i != 0);
        assert(rest[i - 1] == rows[i]);
    }
    assert forall|i: int, j: int| 0 <= i < j < rest.len() implies listed_before(rest[i], rest[j]) by {
        assert(rest[i] == rows[i + 1]);
        assert(rest[j] == rows[j + 1]);
    }
}

/// Law: a table has one listing of a scope: two rows sequences that both
/// list it are equal.
pub proof fn lemma_listing_unique(
    threads: Map<(Seq<char>, u128), ThreadRecord>,
    scope: Seq<char>,
    include_hidden: bool,
    r1: Seq<ThreadRecord>,
    r2: Seq<ThreadRecord>,
)
    requires
        is_listing(threads, scope, include_hidden, r1),
        is_listing(threads, scope, include_hidden, r2),
    ensures
        r1 == r2,
    decreases r1.len() + r2.len(),
{
    if r1.len() == 0 && r2.len() > 0 {
        let k = (thread_key_fn())(r2[0]);
        assert(threads.contains_key(k) && is_listed(threads[k], scope, include_hidden));
    } else if r2.len() == 0 && r1.len() > 0 {
        let k = (thread_key_fn())(r1[0]);
        assert(threads.contains_key(k) && is_listed(threads[k], scope, include_hidden));
    } else if r1.len() > 0 {
        let k1 = (thread_key_fn())(r1[0]);
        let k2 = (thread_key_fn())(r2[0]);
        assert(threads.contains_key(k1) && is_listed(threads[k1], scope, include_hidden));
        assert(threads.contains_key(k2) && is_listed(threads[k2], scope, include_hidden));
        let j = choose|j: int| 0 <= j < r2.len() && (thread_key_fn())(r2[j]) == k1;
        let i = choose|i: int| 0 <= i < r1.len() && (thread_key_fn())(r1[i]) == k2;
        assert(r2[j] == r1[0]);
        assert(r1[i] == r2[0]);
        if i > 0 && j > 0 {
            assert(listed_before(r1[0], r1[i]));
            assert(listed_before(r2[0], r2[j]));
            lemma_listed_before_order(r1[0], r2[0], r1[0]);
        }
        assert(r1[0] == r2[0]);
        lemma_listing_drop_first(threads, scope, include_hidden, r1);
        lemma_listing_drop_first(threads, scope, include_hidden, r2);
        lemma_listing_unique(threads.remove(k1), scope, include_hidden, r1.drop_first(), r2.drop_first());
        assert(r1 =~= seq![r1[0]] + r1.drop_first());
        assert(r2 =~= seq![r2[0]] + r2.drop_first());
    } else {
        assert(r1 =~= r2);
    }
}

/// Law: attaching, patching or hiding a thread of one scope leaves the
/// listing of every other scope as it was: what lists the other scope
/// before the change lists it after, and nothing else does.
pub proof fn law_other_listings_unchanged(
    old: Map<(Seq<char>, u128), ThreadRecord>,
    new: Map<(Seq<char>, u128), ThreadRecord>,
    scope: Seq<char>,
    thread_id: u128,
    prompt: Seq<char>,
    patch: PatchRecord,
    now: i64,
    other: Seq<char>,
    include_hidden: bool,
    before: Seq<ThreadRecord>,
    after: Seq<ThreadRecord>,
)
    requires
        table_consistent(old),
        other != scope,
        attached(old, new, scope, thread_id, prompt, now) || patched(old, new, scope, thread_id, patch, now)
            || hidden(old, new, scope, thread_id, now),
        is_listing(old, other, include_hidden, before),
        is_listing(new, other, include_hidden, after),
    ensures
        before == after,
{
    let k0 = (scope, thread_id);
    assert(new.contains_key(k0) ==> new[k0].scope_key == scope);
    assert forall|k: (Seq<char>, u128)| k != k0 implies (new.contains_key(k) == old.contains_key(k)
        && (old.contains_key(k) ==> new[k] == old[k])) by {}
    assert forall|i: int| 0 <= i < before.len() implies {
        &&& new.contains_key((thread_key_fn())(#[trigger] before[i]))
        &&& new[(thread_key_fn())(before[i])] == before[i]
        &&& is_listed(before[i], other, include_hidden)
    } by {
        assert((thread_key_fn())(before[i]) != k0);
    }
    assert forall|k: (Seq<char>, u128)| new.contains_key(k) && is_listed(#[trigger] new[k], other, include_hidden)
        implies exists|i: int| 0 <= i < before.len() && (thread_key_fn())(before[i]) == k by {
        assert(k != k0);
        assert(old.contains_key(k) && is_listed(old[k], other, include_hidden));
    }
    lemma_listing_unique(new, other, include_hidden, before, after);
}

/// Law: attaching, patching or hiding a thread of one scope leaves every
/// other scope's threads as they were.
pub proof fn law_views_are_scoped(
    old: Map<(Seq<char>, u128), ThreadRecord>,
    new: Map<(Seq<char>, u128), ThreadRecord>,
    scope: Seq<char>,
    thread_id: u128,
    prompt: Seq<char>,
    patch: PatchRecord,
    now: i64,
    other: Seq<char>,
)
    requires
        other != scope,
        attached(old, new, scope, thread_id, prompt, now) || patched(old, new, scope, thread_id, patch, now)
            || hidden(old, new, scope, thread_id, now),
    ensures
        scope_threads(new, other) == scope_threads(old, other),
{
    assert(scope_threads(new, other) =~= scope_threads(old, other));
}

/// Law: an attached thread is in its scope with the prompt given, and a new
/// one is placed after every thread the scope held, ready for review,
/// unpinned and visible; attaching again changes only the prompt and the
/// update time.
pub proof fn law_attach(
    old: Map<(Seq<char>, u128), ThreadRecord>,
    new: Map<(Seq<char>, u128), ThreadRecord>,
    scope: Seq<char>,
    thread_id: u128,
    prompt: Seq<char>,
    now: i64,
)
    requires
        table_consistent(old),
        attached(old, new, scope, thread_id, prompt, now),
    ensures
        new.contains_key((scope, thread_id)),
        new[(scope, thread_id)].initial_prompt == prompt,
        is_listed(new[(scope, thread_id)], scope, true),
        old.contains_key((scope, thread_id)) ==> new[(scope, thread_id)] == reattached_record(
            old[(scope, thread_id)],
            prompt,
            now,
        ),
        !old.contains_key((scope, thread_id)) ==> {
            &&& new[(scope, thread_id)].view_state == AgentViewState::ReadyForReview
            &&& !new[(scope, thread_id)].pinned
            &&& new[(scope, thread_id)].hidden_at is None
            &&& forall|k: (Seq<char>, u128)| old.contains_key(k) && k.0 == scope
                ==> old[k].position < new[(scope, thread_id)].position
        },
{
}

/// Law: a hidden thread keeps its row, now marked hidden; it is listed only
/// when hidden threads are asked for; its other view fields are unchanged.
pub proof fn law_hide_keeps_row(
    old: Map<(Seq<char>, u128), ThreadRecord>,
    new: Map<(Seq<char>, u128), ThreadRecord>,
    scope: Seq<char>,
    thread_id: u128,
    now: i64,
)
    requires
        table_consistent(old),
        hidden(old, new, scope, thread_id, now),
        old.contains_key((scope, thread_id)),
    ensures
        new.dom() == old.dom(),
        new[(scope, thread_id)].hidden_at is Some,
        is_listed(new[(scope, thread_id)], scope, true),
        !is_listed(new[(scope, thread_id)], scope, false),
        new[(scope, thread_id)] == hidden_record(old[(scope, thread_id)], now),
{
    assert(new.dom() =~= old.dom());
}

/// Law: a patch sets the fields it names and keeps the others; a title of
/// `Some(None)` clears the title.
pub proof fn law_patch_keeps_unnamed_fields(rec: ThreadRecord, patch: PatchRecord, now: i64)
    ensures
        patch.view_state is None ==> apply_patch(rec, patch, now).view_state == rec.view_state,
        patch.pinned is None ==> apply_patch(rec, patch, now).pinned == rec.pinned,
        patch.position is None ==> apply_patch(rec, patch, now).position == rec.position,
        patch.title_override is None ==> apply_patch(rec, patch, now).title_override == rec.title_override,
        patch.title_override == Some(None::<Seq<char>>) ==> (apply_patch(rec, patch, now).title_override is None),
        patch.view_state is Some ==> apply_patch(rec, patch, now).view_state == patch.view_state->0,
        patch.pinned is Some ==> apply_patch(rec, patch, now).pinned == patch.pinned->0,
        patch.position is Some ==> apply_patch(rec, patch, now).position == patch.position->0,
        apply_patch(rec, patch, now).initial_prompt == rec.initial_prompt,
        apply_patch(rec, patch, now).hidden_at == rec.hidden_at,
        apply_patch(rec, patch, now).created_at == rec.created_at,
{
}

} // verus!
