use agent_views::model::AgentViewState;
use agent_views::processor::{
    AgentViewRequestProcessor, INTERNAL_ERROR_CODE, INVALID_PARAMS_ERROR_CODE, ThreadStoreError, ThreadStoreErrorKind,
    agent_view_state_from_api, agent_view_state_to_api, entry_from_row, epoch_seconds, parse_thread_id,
    read_thread_outcome, scope_key_for_cwd,
};
use agent_views::protocol::{
    AgentViewAttachThreadParams, AgentViewUpdateEntryParams, AgentViewWorkflowState, Thread, ThreadActiveFlag,
    ThreadStatus,
};
use agent_views::store::StateRuntime;
use agent_views::thread_id::ThreadId;

/// A fixed time, 2024-01-01T00:00:00Z in milliseconds.
const NOW: i64 = 1_704_067_200_000;

const THREAD: &str = "01900000-0000-7000-8000-00000000abcd";

fn no_rollout(thread_id: &str) -> ThreadStoreError {
    let message = format!("no rollout found for thread id {thread_id}");
    ThreadStoreError { kind: ThreadStoreErrorKind::InvalidRequest { message: message.clone() }, display: message }
}

#[test]
fn agent_view_lists_only_attached_threads_and_hides_without_deleting() {
    let mut processor = AgentViewRequestProcessor::new("/tmp/codex-home".to_string(), Some(StateRuntime::new()));
    let cwd = "/tmp/codex-home/workspace".to_string();

    let (empty_scope_key, empty_rows) = processor.list(Some(&cwd), false, NOW).expect("list");
    assert!(empty_rows.is_empty());
    assert!(!empty_scope_key.is_empty());

    // A plain session started elsewhere is not in the view until attached.
    let (_, after_plain_thread) = processor.list(Some(&cwd), false, NOW).expect("list");
    assert!(
        after_plain_thread.is_empty(),
        "plain codex sessions must not appear until this view attaches them"
    );

    let (scope_key, row) = processor
        .attach_thread(
            Some(&cwd),
            &AgentViewAttachThreadParams {
                cwd: cwd.clone(),
                thread_id: THREAD.to_string(),
                initial_prompt: "audit browser sandbox".to_string(),
            },
            NOW,
        )
        .expect("attach");
    let thread = read_thread_outcome(Err(no_rollout(THREAD)), row.thread_id, None).expect("no rollout is no thread");
    let attached = entry_from_row(&row, thread);
    assert_eq!(scope_key, empty_scope_key);
    assert_eq!(attached.thread_id, THREAD);
    assert_eq!(attached.initial_prompt, "audit browser sandbox");
    assert_eq!(attached.view_state, AgentViewWorkflowState::ReadyForReview);
    assert!(
        attached.thread.is_none(),
        "fresh threads can be attached before their first rollout item is written"
    );

    let (_, row) = processor
        .update_entry(
            Some(&cwd),
            &AgentViewUpdateEntryParams {
                cwd: cwd.clone(),
                thread_id: THREAD.to_string(),
                view_state: Some(AgentViewWorkflowState::Completed),
                pinned: Some(true),
                position: Some(4),
                title_override: Some(Some("browser sandbox mechanism audit".to_string())),
            },
            NOW,
        )
        .expect("update");
    let updated = entry_from_row(&row, None);
    assert!(updated.pinned);
    assert_eq!(updated.position, 4);
    assert_eq!(updated.view_state, AgentViewWorkflowState::Completed);
    assert_eq!(updated.title_override.as_deref(), Some("browser sandbox mechanism audit"));

    let hidden = processor.hide_entry(Some(&cwd), THREAD, NOW).expect("hide");
    assert_eq!(hidden.scope_key, scope_key);

    let (_, visible_after_hide) = processor.list(Some(&cwd), false, NOW).expect("list");
    assert!(visible_after_hide.is_empty());

    let (_, hidden_rows) = processor.list(Some(&cwd), true, NOW).expect("list");
    let hidden_entries: Vec<_> = hidden_rows.iter().map(|row| entry_from_row(row, None)).collect();
    assert_eq!(hidden_entries.len(), 1);
    assert!(hidden_entries[0].hidden);
}

#[test]
fn scope_keys_name_home_and_cwd() {
    assert_eq!(scope_key_for_cwd("/home/u/.codex", "/work/repo"), "codex_home=/home/u/.codex\ncwd=/work/repo");
    let mut processor = AgentViewRequestProcessor::new("/h".to_string(), Some(StateRuntime::new()));
    let key = processor.ensure_scope(Some("/w"), NOW).expect("scope");
    assert_eq!(key, "codex_home=/h\ncwd=/w");
}

#[test]
fn requests_fail_without_cwd_or_registry() {
    let mut processor = AgentViewRequestProcessor::new("/h".to_string(), Some(StateRuntime::new()));
    let err = processor.list(None, false, NOW).expect_err("no cwd");
    assert_eq!(err.code, INVALID_PARAMS_ERROR_CODE);
    assert_eq!(err.message, "agent view cwd is required");

    let mut without_db = AgentViewRequestProcessor::new("/h".to_string(), None);
    let err = without_db.hide_entry(Some("/w"), THREAD, NOW).expect_err("no registry");
    assert_eq!(err.code, INTERNAL_ERROR_CODE);
    assert_eq!(err.message, "state db is unavailable");
    let err = without_db.entry_for_thread("k", THREAD).expect_err("no registry");
    assert_eq!(err.code, INTERNAL_ERROR_CODE);
}

#[test]
fn invalid_and_missing_threads_are_reported() {
    let mut processor = AgentViewRequestProcessor::new("/h".to_string(), Some(StateRuntime::new()));
    let err = processor
        .attach_thread(
            Some("/w"),
            &AgentViewAttachThreadParams {
                cwd: "/w".to_string(),
                thread_id: "nope".to_string(),
                initial_prompt: String::new(),
            },
            NOW,
        )
        .expect_err("invalid id");
    assert_eq!(err.code, INVALID_PARAMS_ERROR_CODE);
    assert!(err.message.starts_with("invalid thread id `nope`: "));

    let err = processor
        .update_entry(
            Some("/w"),
            &AgentViewUpdateEntryParams {
                cwd: "/w".to_string(),
                thread_id: THREAD.to_string(),
                view_state: None,
                pinned: Some(true),
                position: None,
                title_override: None,
            },
            NOW,
        )
        .expect_err("not attached");
    assert_eq!(err.code, INTERNAL_ERROR_CODE);
    assert_eq!(
        err.message,
        format!("failed to update agent view entry: agent view thread not found: {THREAD}")
    );
}

#[test]
fn non_canonical_thread_ids_attach_but_are_not_found_by_text() {
    let mut processor = AgentViewRequestProcessor::new("/h".to_string(), Some(StateRuntime::new()));
    let upper = THREAD.to_uppercase();
    let err = processor
        .attach_thread(
            Some("/w"),
            &AgentViewAttachThreadParams { cwd: "/w".to_string(), thread_id: upper.clone(), initial_prompt: "x".into() },
            NOW,
        )
        .expect_err("the entry is looked up by its canonical text");
    assert_eq!(err.code, INVALID_PARAMS_ERROR_CODE);
    assert_eq!(err.message, format!("agent view entry not found: {upper}"));
    let (_, rows) = processor.list(Some("/w"), true, NOW).expect("list");
    assert_eq!(rows.len(), 1);
    assert_eq!(rows[0].thread_id.to_string(), THREAD);
}

#[test]
fn thread_store_outcomes() {
    let id = parse_thread_id(THREAD).expect("valid");
    let thread = Thread {
        id: THREAD.to_string(),
        name: None,
        preview: "p".to_string(),
        status: ThreadStatus::NotLoaded,
        recency_at: None,
    };
    let loaded = ThreadStatus::Active { active_flags: vec![ThreadActiveFlag::WaitingOnApproval] };
    let with_status = read_thread_outcome(Ok(thread.clone()), id, Some(loaded.clone())).expect("ok").expect("thread");
    assert_eq!(with_status.status, loaded);
    let unchanged = read_thread_outcome(Ok(thread.clone()), id, None).expect("ok").expect("thread");
    assert_eq!(unchanged, thread);

    let missing = ThreadStoreError {
        kind: ThreadStoreErrorKind::ThreadNotFound { thread_id: id },
        display: "thread not found".to_string(),
    };
    assert_eq!(read_thread_outcome(Err(missing), id, None), Ok(None));

    let other_id = parse_thread_id("01900000-0000-7000-8000-000000000001").expect("valid");
    let other_missing = ThreadStoreError {
        kind: ThreadStoreErrorKind::ThreadNotFound { thread_id: other_id },
        display: "thread not found".to_string(),
    };
    let err = read_thread_outcome(Err(other_missing), id, None).expect_err("another thread");
    assert_eq!(err.code, INTERNAL_ERROR_CODE);
    assert_eq!(err.message, "failed to read thread: thread not found");

    let invalid = ThreadStoreError {
        kind: ThreadStoreErrorKind::InvalidRequest { message: "bad".to_string() },
        display: "bad".to_string(),
    };
    let err = read_thread_outcome(Err(invalid), id, None).expect_err("invalid");
    assert_eq!((err.code, err.message.as_str()), (INVALID_PARAMS_ERROR_CODE, "bad"));

    let unsupported = ThreadStoreError {
        kind: ThreadStoreErrorKind::Unsupported { operation: "read".to_string() },
        display: "unsupported".to_string(),
    };
    let err = read_thread_outcome(Err(unsupported), id, None).expect_err("unsupported");
    assert_eq!((err.code, err.message.as_str()), (INTERNAL_ERROR_CODE, "thread store does not support read"));

    let other = ThreadStoreError { kind: ThreadStoreErrorKind::Other, display: "disk".to_string() };
    let err = read_thread_outcome(Err(other), id, None).expect_err("other");
    assert_eq!(err.message, "failed to read thread: disk");
}

#[test]
fn entries_report_seconds_and_api_states() {
    let mut runtime = StateRuntime::new();
    let id = ThreadId::from_string(THREAD).expect("valid");
    runtime.attach_agent_view_thread("s", id, "p", 1_999);
    runtime.hide_agent_view_thread("s", id, -1);
    let row = runtime.get_agent_view_thread("s", id).expect("row");
    let entry = entry_from_row(&row, None);
    assert_eq!(entry.created_at, 1);
    assert_eq!(entry.updated_at, -1);
    assert!(entry.hidden);
    assert_eq!(epoch_seconds(-1_000), -1);
    assert_eq!(epoch_seconds(-1_001), -2);
    assert_eq!(epoch_seconds(i64::MIN), -9_223_372_036_854_776);
    assert_eq!(agent_view_state_to_api(AgentViewState::Completed), AgentViewWorkflowState::Completed);
    assert_eq!(
        agent_view_state_from_api(agent_view_state_to_api(AgentViewState::ReadyForReview)),
        AgentViewState::ReadyForReview
    );
}
