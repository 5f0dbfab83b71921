use agent_views::model::{AgentViewState, AgentViewThreadPatch};
use agent_views::store::StateRuntime;
use agent_views::thread_id::ThreadId;

/// A fixed time, 2024-01-01T00:00:00Z in milliseconds.
const NOW: i64 = 1_704_067_200_000;

fn thread_id(suffix: u32) -> ThreadId {
    ThreadId::from_string(&format!("00000000-0000-0000-0000-{suffix:012}")).expect("valid thread id")
}

#[test]
fn agent_view_threads_are_scoped_by_view() {
    let codex_home = "/tmp/codex-home";
    let cwd_a = "/tmp/codex-home/repo-a";
    let cwd_b = "/tmp/codex-home/repo-b";
    let mut runtime = StateRuntime::new();

    runtime.upsert_agent_view("scope-a", codex_home, cwd_a, NOW);
    runtime.upsert_agent_view("scope-b", codex_home, cwd_b, NOW);
    runtime.attach_agent_view_thread("scope-a", thread_id(1), "audit browser sandbox", NOW);
    runtime.attach_agent_view_thread("scope-b", thread_id(2), "refactor event pagination", NOW);

    let scope_a_rows = runtime.list_agent_view_threads("scope-a", /*include_hidden*/ false);
    let scope_b_rows = runtime.list_agent_view_threads("scope-b", /*include_hidden*/ false);

    assert_eq!(scope_a_rows.len(), 1);
    assert_eq!(scope_a_rows[0].thread_id, thread_id(1));
    assert_eq!(scope_a_rows[0].initial_prompt, "audit browser sandbox");
    assert_eq!(scope_b_rows.len(), 1);
    assert_eq!(scope_b_rows[0].thread_id, thread_id(2));
    assert_eq!(scope_b_rows[0].initial_prompt, "refactor event pagination");

    runtime.attach_agent_view_thread("scope-a", thread_id(9), "same thread in one scope", NOW);
    let scope_b_rows = runtime.list_agent_view_threads("scope-b", /*include_hidden*/ false);
    assert!(!scope_b_rows.iter().any(|row| row.thread_id == thread_id(9)));
}

#[test]
fn agent_view_updates_pin_state_and_workflow_state() {
    let mut runtime = StateRuntime::new();
    let thread_id = thread_id(3);

    runtime.upsert_agent_view("scope", "/tmp/home", "/tmp/home/repo", NOW);
    runtime.attach_agent_view_thread("scope", thread_id, "implement payment integration", NOW);
    runtime
        .update_agent_view_thread(
            "scope",
            thread_id,
            AgentViewThreadPatch {
                view_state: Some(AgentViewState::Completed),
                pinned: Some(true),
                position: Some(7),
                title_override: Some(Some("stripe payment integration".to_string())),
            },
            NOW,
        )
        .expect("thread is attached");

    let rows = runtime.list_agent_view_threads("scope", /*include_hidden*/ false);

    assert_eq!(rows.len(), 1);
    let row = &rows[0];
    assert_eq!(row.thread_id, thread_id);
    assert_eq!(row.view_state, AgentViewState::Completed);
    assert!(row.pinned);
    assert_eq!(row.position, 7);
    assert_eq!(row.title_override.as_deref(), Some("stripe payment integration"));
}

#[test]
fn agent_view_patch_preserves_unspecified_fields_and_clears_title() {
    let mut runtime = StateRuntime::new();
    let thread_id = thread_id(5);

    runtime.upsert_agent_view("scope", "/tmp/home", "/tmp/home/repo", NOW);
    runtime.attach_agent_view_thread("scope", thread_id, "make session registry", NOW);
    runtime
        .update_agent_view_thread(
            "scope",
            thread_id,
            AgentViewThreadPatch {
                view_state: Some(AgentViewState::Completed),
                pinned: Some(true),
                position: Some(11),
                title_override: Some(Some("session registry".to_string())),
            },
            NOW,
        )
        .expect("thread is attached");
    runtime
        .update_agent_view_thread(
            "scope",
            thread_id,
            AgentViewThreadPatch {
                pinned: Some(false),
                title_override: Some(None),
                ..Default::default()
            },
            NOW,
        )
        .expect("thread is attached");

    let rows = runtime.list_agent_view_threads("scope", /*include_hidden*/ false);

    assert_eq!(rows.len(), 1);
    let row = &rows[0];
    assert_eq!(row.view_state, AgentViewState::Completed);
    assert!(!row.pinned);
    assert_eq!(row.position, 11);
    assert_eq!(row.title_override, None);
}

#[test]
fn hiding_agent_view_thread_does_not_remove_the_registry_row() {
    let mut runtime = StateRuntime::new();
    let thread_id = thread_id(4);

    runtime.upsert_agent_view("scope", "/tmp/home", "/tmp/home/repo", NOW);
    runtime.attach_agent_view_thread("scope", thread_id, "oauth flow design", NOW);
    runtime.hide_agent_view_thread("scope", thread_id, NOW);

    let visible_rows = runtime.list_agent_view_threads("scope", /*include_hidden*/ false);
    let all_rows = runtime.list_agent_view_threads("scope", /*include_hidden*/ true);

    assert!(visible_rows.is_empty());
    assert_eq!(all_rows.len(), 1);
    assert_eq!(all_rows[0].thread_id, thread_id);
    assert!(all_rows[0].hidden_at.is_some());
}

#[test]
fn new_threads_go_after_existing_positions() {
    let mut runtime = StateRuntime::new();
    runtime.attach_agent_view_thread("scope", thread_id(1), "first", 1_000);
    runtime.attach_agent_view_thread("scope", thread_id(2), "second", 2_000);
    runtime
        .update_agent_view_thread(
            "scope",
            thread_id(2),
            AgentViewThreadPatch { position: Some(40), ..Default::default() },
            3_000,
        )
        .expect("attached");
    runtime.attach_agent_view_thread("scope", thread_id(3), "third", 4_000);
    runtime.attach_agent_view_thread("other", thread_id(4), "elsewhere", 5_000);

    let rows = runtime.list_agent_view_threads("scope", true);
    let positions: Vec<i64> = rows.iter().map(|r| r.position).collect();
    assert_eq!(positions, vec![0, 40, 41]);
    let other = runtime.list_agent_view_threads("other", true);
    assert_eq!(other.len(), 1);
    assert_eq!(other[0].position, 0);
}

#[test]
fn reattaching_keeps_view_fields_and_takes_new_prompt() {
    let mut runtime = StateRuntime::new();
    runtime.attach_agent_view_thread("scope", thread_id(1), "old prompt", 1_000);
    runtime
        .update_agent_view_thread(
            "scope",
            thread_id(1),
            AgentViewThreadPatch { pinned: Some(true), position: Some(5), ..Default::default() },
            2_000,
        )
        .expect("attached");
    runtime.attach_agent_view_thread("scope", thread_id(1), "new prompt", 3_000);
    let rows = runtime.list_agent_view_threads("scope", true);
    assert_eq!(rows.len(), 1);
    assert_eq!(rows[0].initial_prompt, "new prompt");
    assert!(rows[0].pinned);
    assert_eq!(rows[0].position, 5);
    assert_eq!(rows[0].created_at, 1_000);
    assert_eq!(rows[0].updated_at, 3_000);
}

#[test]
fn listing_orders_pinned_then_position_then_recent_then_id() {
    let mut runtime = StateRuntime::new();
    for n in 1..=4 {
        runtime.attach_agent_view_thread("scope", thread_id(n), "task", 1_000 * n as i64);
    }
    // thread 4: pinned, position 9
    runtime
        .update_agent_view_thread(
            "scope",
            thread_id(4),
            AgentViewThreadPatch { pinned: Some(true), position: Some(9), ..Default::default() },
            10_000,
        )
        .expect("attached");
    // threads 1 and 2 share position 1; 2 is more recent
    for (n, at) in [(1u32, 20_000i64), (2, 30_000)] {
        runtime
            .update_agent_view_thread(
                "scope",
                thread_id(n),
                AgentViewThreadPatch { position: Some(1), ..Default::default() },
                at,
            )
            .expect("attached");
    }
    // thread 3 at position 1 with the same update time as thread 2
    runtime
        .update_agent_view_thread(
            "scope",
            thread_id(3),
            AgentViewThreadPatch { position: Some(1), ..Default::default() },
            30_000,
        )
        .expect("attached");

    let rows = runtime.list_agent_view_threads("scope", false);
    let ids: Vec<ThreadId> = rows.iter().map(|r| r.thread_id).collect();
    assert_eq!(ids, vec![thread_id(4), thread_id(2), thread_id(3), thread_id(1)]);
}

#[test]
fn updating_a_missing_thread_fails_and_changes_nothing() {
    let mut runtime = StateRuntime::new();
    runtime.attach_agent_view_thread("scope", thread_id(1), "task", 1_000);
    let err = runtime
        .update_agent_view_thread(
            "other-scope",
            thread_id(1),
            AgentViewThreadPatch { pinned: Some(true), ..Default::default() },
            2_000,
        )
        .expect_err("thread is not attached to that scope");
    assert_eq!(
        err.message(),
        "agent view thread not found: 00000000-0000-0000-0000-000000000001"
    );
    let rows = runtime.list_agent_view_threads("scope", true);
    assert!(!rows[0].pinned);
    assert_eq!(rows[0].updated_at, 1_000);
}

#[test]
fn hiding_a_missing_thread_is_a_no_op() {
    let mut runtime = StateRuntime::new();
    runtime.attach_agent_view_thread("scope", thread_id(1), "task", 1_000);
    runtime.hide_agent_view_thread("scope", thread_id(2), 2_000);
    let rows = runtime.list_agent_view_threads("scope", false);
    assert_eq!(rows.len(), 1);
    assert_eq!(rows[0].hidden_at, None);
}

#[test]
fn hide_sets_hidden_and_update_times() {
    let mut runtime = StateRuntime::new();
    runtime.attach_agent_view_thread("scope", thread_id(1), "task", 1_000);
    runtime.hide_agent_view_thread("scope", thread_id(1), 2_500);
    let row = runtime.get_agent_view_thread("scope", thread_id(1)).expect("row kept");
    assert_eq!(row.hidden_at, Some(2_500));
    assert_eq!(row.updated_at, 2_500);
    assert_eq!(row.created_at, 1_000);
}

#[test]
fn attach_uses_the_given_time() {
    let mut runtime = StateRuntime::new();
    runtime.attach_agent_view_thread("scope", thread_id(1), "task", NOW);
    let row = runtime.get_agent_view_thread("scope", thread_id(1)).expect("attached");
    assert_eq!(row.created_at, NOW);
    assert_eq!(row.updated_at, NOW);
    assert_eq!(row.view_state, AgentViewState::ReadyForReview);
}

#[test]
fn upsert_keeps_creation_time_and_takes_new_paths() {
    let mut runtime = StateRuntime::new();
    runtime.upsert_agent_view("scope", "/home-a", "/cwd-a", 1_000);
    runtime.upsert_agent_view("scope", "/home-b", "/cwd-b", 2_000);
    let view = runtime.get_agent_view("scope").expect("scope upserted");
    assert_eq!(view.codex_home, "/home-b");
    assert_eq!(view.cwd, "/cwd-b");
    assert_eq!(view.created_at, 1_000);
    assert_eq!(view.updated_at, 2_000);
    assert!(runtime.get_agent_view("missing").is_none());
}
