use agent_views::model::{AgentViewRowError, AgentViewState, AgentViewThread, AgentViewThreadRow};
use agent_views::thread_id::{ThreadId, thread_id_text_round_trip};

fn row() -> AgentViewThreadRow {
    AgentViewThreadRow {
        scope_key: "scope".to_string(),
        thread_id: "00000000-0000-0000-0000-000000000007".to_string(),
        initial_prompt: "prompt".to_string(),
        title_override: None,
        view_state: "completed".to_string(),
        pinned: 2,
        position: 3,
        hidden_at_ms: None,
        created_at_ms: 10,
        updated_at_ms: 20,
        last_opened_at_ms: Some(30),
    }
}

#[test]
fn workflow_states_round_trip_through_text() {
    assert_eq!(AgentViewState::ReadyForReview.as_str(), "ready_for_review");
    assert_eq!(AgentViewState::Completed.as_str(), "completed");
    for state in [AgentViewState::ReadyForReview, AgentViewState::Completed] {
        assert_eq!(AgentViewState::from_str(state.as_str()).expect("known"), state);
    }
    let err = AgentViewState::from_str("done").expect_err("unknown");
    assert_eq!(err.message(), "unknown agent view state: done");
}

#[test]
fn rows_convert_to_threads() {
    let thread = AgentViewThread::try_from_row(row()).expect("valid row");
    assert_eq!(thread.thread_id.to_string(), "00000000-0000-0000-0000-000000000007");
    assert_eq!(thread.view_state, AgentViewState::Completed);
    assert!(thread.pinned);
    assert_eq!(thread.position, 3);
    assert_eq!(thread.last_opened_at, Some(30));
}

#[test]
fn invalid_rows_report_the_first_problem() {
    let mut bad_id = row();
    bad_id.thread_id = "xyz".to_string();
    bad_id.view_state = "nope".to_string();
    match AgentViewThread::try_from_row(bad_id) {
        Err(AgentViewRowError::InvalidThreadId { thread_id, .. }) => assert_eq!(thread_id, "xyz"),
        other => panic!("unexpected {other:?}"),
    }
    let mut bad_state = row();
    bad_state.view_state = "nope".to_string();
    match AgentViewThread::try_from_row(bad_state) {
        Err(AgentViewRowError::UnknownViewState { value }) => assert_eq!(value, "nope"),
        other => panic!("unexpected {other:?}"),
    }
    let mut bad_time = row();
    bad_time.updated_at_ms = i64::MAX;
    bad_time.last_opened_at_ms = Some(i64::MIN);
    match AgentViewThread::try_from_row(bad_time) {
        Err(AgentViewRowError::InvalidTimestamp { millis }) => assert_eq!(millis, i64::MAX),
        other => panic!("unexpected {other:?}"),
    }
}

#[test]
fn thread_ids_print_canonically_and_parse_back() {
    let id = ThreadId::from_string("550E8400-E29B-41D4-A716-446655440000").expect("upper case parses");
    assert_eq!(id.to_string(), "550e8400-e29b-41d4-a716-446655440000");
    assert_eq!(id.uuid, 0x550e8400_e29b_41d4_a716_446655440000);
    let simple = ThreadId::from_string("550e8400e29b41d4a716446655440000").expect("simple form parses");
    assert_eq!(simple, id);
    assert_eq!(thread_id_text_round_trip(id).expect("round trip"), id);
    assert_eq!(ThreadId { uuid: 0 }.to_string(), "00000000-0000-0000-0000-000000000000");
    assert_eq!(ThreadId { uuid: u128::MAX }.to_string(), "ffffffff-ffff-ffff-ffff-ffffffffffff");
    assert!(ThreadId::from_string("not a uuid").is_err());
}

#[test]
fn thread_id_texts_sort_as_their_values() {
    let ids = [
        0u128,
        9,
        0xa,
        0x0900_0000_0000_0000_0000_0000_0000_0000,
        0x0a00_0000_0000_0000_0000_0000_0000_0000,
        0x550e8400_e29b_41d4_a716_446655440000,
        u128::MAX,
    ];
    for a in ids {
        for b in ids {
            let ta = ThreadId { uuid: a }.to_string();
            let tb = ThreadId { uuid: b }.to_string();
            assert_eq!(a < b, ta < tb, "{ta} vs {tb}");
        }
    }
}

#[test]
fn stored_times_must_fall_within_the_dates() {
    for ms in [-8_334_601_228_800_000i64, 0, 8_210_266_876_799_999] {
        let stored = AgentViewThreadRow { created_at_ms: ms, ..row() };
        assert_eq!(AgentViewThread::try_from_row(stored).expect("dated").created_at, ms);
    }
    for ms in [-8_334_601_228_800_001i64, 8_210_266_876_800_000] {
        let stored = AgentViewThreadRow { created_at_ms: ms, ..row() };
        match AgentViewThread::try_from_row(stored) {
            Err(AgentViewRowError::InvalidTimestamp { millis }) => assert_eq!(millis, ms),
            other => panic!("unexpected {other:?}"),
        }
    }
}
