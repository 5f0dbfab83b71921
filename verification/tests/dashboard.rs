use agent_views::dashboard::{
    AgentsDashboardGroup, AgentsDashboardScreen, AgentsDashboardState, DashboardColor, DashboardKey,
    DashboardKeyAction, DashboardKeyCode, DashboardKeyKind, DashboardMouseAction, DashboardMouseKind,
    DashboardRenderRow, EntryRowLayout, RowHitbox, agents_dashboard_refresh_due, agents_dashboard_showing_list,
    agents_dashboard_showing_thread, apply_agents_dashboard_footer_hint, count_group, dashboard_key_action,
    dashboard_mouse_action, entry_age, entry_marker, entry_preview, entry_row_layout, entry_status_label,
    entry_title, group_for_entry, header_counts_text, initial_prompt_for_user_message, marker_color, status_color,
};
use agent_views::protocol::{AgentViewEntry, AgentViewWorkflowState, Thread, ThreadActiveFlag, ThreadStatus};
use agent_views::text::first_line;

fn entry(thread_id: &str, pinned: bool, status: Option<ThreadStatus>) -> AgentViewEntry {
    AgentViewEntry {
        thread_id: thread_id.to_string(),
        initial_prompt: format!("task {thread_id}"),
        title_override: None,
        view_state: AgentViewWorkflowState::ReadyForReview,
        pinned,
        position: 0,
        hidden: false,
        created_at: 1,
        updated_at: 1,
        last_opened_at: None,
        thread: status.map(|status| Thread {
            id: thread_id.to_string(),
            name: None,
            preview: String::new(),
            status,
            recency_at: Some(1),
        }),
    }
}

#[test]
fn groups_pinned_before_runtime_state() {
    let entry = entry(
        "01900000-0000-7000-8000-000000000001",
        true,
        Some(ThreadStatus::Active {
            active_flags: vec![ThreadActiveFlag::WaitingOnUserInput],
        }),
    );

    assert_eq!(group_for_entry(&entry), AgentsDashboardGroup::Pinned);
}

#[test]
fn active_waiting_thread_is_needs_input() {
    let entry = entry(
        "01900000-0000-7000-8000-000000000002",
        false,
        Some(ThreadStatus::Active {
            active_flags: vec![ThreadActiveFlag::WaitingOnApproval],
        }),
    );

    assert_eq!(group_for_entry(&entry), AgentsDashboardGroup::NeedsInput);
}

#[test]
fn status_label_reflects_runtime_thread_state() {
    let working = entry(
        "01900000-0000-7000-8000-000000000006",
        false,
        Some(ThreadStatus::Active { active_flags: vec![] }),
    );
    let waiting = entry(
        "01900000-0000-7000-8000-000000000007",
        false,
        Some(ThreadStatus::Active {
            active_flags: vec![ThreadActiveFlag::WaitingOnUserInput],
        }),
    );
    let failed = entry("01900000-0000-7000-8000-000000000008", false, Some(ThreadStatus::SystemError));

    assert_eq!(entry_status_label(&working), "working");
    assert_eq!(entry_status_label(&waiting), "needs input");
    assert_eq!(entry_status_label(&failed), "error");
}

#[test]
fn render_rows_keep_group_order_without_duplicate_entries() {
    let mut dashboard = AgentsDashboardState::new("/tmp".to_string());
    dashboard.set_entries(
        vec![
            entry("01900000-0000-7000-8000-000000000003", false, Some(ThreadStatus::SystemError)),
            entry(
                "01900000-0000-7000-8000-000000000004",
                true,
                Some(ThreadStatus::Active { active_flags: vec![] }),
            ),
            entry(
                "01900000-0000-7000-8000-000000000005",
                false,
                Some(ThreadStatus::Active {
                    active_flags: vec![ThreadActiveFlag::WaitingOnUserInput],
                }),
            ),
        ],
        0,
    );

    let rows = dashboard.render_rows();
    let groups: Vec<AgentsDashboardGroup> = rows
        .iter()
        .filter_map(|row| match row {
            DashboardRenderRow::Group(group) => Some(*group),
            _ => None,
        })
        .collect();
    let entry_indices: Vec<usize> = rows
        .iter()
        .filter_map(|row| match row {
            DashboardRenderRow::Entry { entry_index, .. } => Some(*entry_index),
            _ => None,
        })
        .collect();

    assert_eq!(
        groups,
        vec![
            AgentsDashboardGroup::Pinned,
            AgentsDashboardGroup::NeedsInput,
            AgentsDashboardGroup::Completed,
        ]
    );
    assert_eq!(entry_indices, vec![1, 2, 0]);
}

#[test]
fn selected_render_row_scrolls_into_view() {
    let mut dashboard = AgentsDashboardState::new("/tmp".to_string());
    dashboard.set_entries(
        (0..12)
            .map(|idx| {
                entry(
                    &format!("01900000-0000-7000-8000-{idx:012}"),
                    false,
                    Some(ThreadStatus::SystemError),
                )
            })
            .collect(),
        0,
    );
    dashboard.selected = 11;
    let rows = dashboard.render_rows();
    dashboard.ensure_selected_row_visible(&rows, 5);
    let selected_row = rows
        .iter()
        .position(|row| matches!(row, DashboardRenderRow::Entry { visible_index: 11, .. }))
        .expect("selected row");

    assert!(selected_row >= dashboard.scroll_offset);
    assert!(selected_row < dashboard.scroll_offset + 5);
}

#[test]
fn render_rows_have_spacers_only_between_groups() {
    let mut dashboard = AgentsDashboardState::new("/tmp".to_string());
    dashboard.set_entries(
        vec![
            entry("a", false, None),
            entry("b", true, None),
        ],
        0,
    );
    let rows = dashboard.render_rows();
    assert_eq!(
        rows,
        vec![
            DashboardRenderRow::Group(AgentsDashboardGroup::Pinned),
            DashboardRenderRow::Entry { visible_index: 0, entry_index: 1 },
            DashboardRenderRow::Spacer,
            DashboardRenderRow::Group(AgentsDashboardGroup::ReadyForReview),
            DashboardRenderRow::Entry { visible_index: 1, entry_index: 0 },
        ]
    );
    let empty = AgentsDashboardState::new("/tmp".to_string());
    assert!(empty.render_rows().is_empty());
    assert!(empty.ordered_entry_indices().is_empty());
}

#[test]
fn ordered_entry_indices_list_every_entry_once() {
    let mut dashboard = AgentsDashboardState::new("/tmp".to_string());
    let mut completed = entry("c", false, None);
    completed.view_state = AgentViewWorkflowState::Completed;
    dashboard.set_entries(
        vec![
            completed,
            entry("w", false, Some(ThreadStatus::Active { active_flags: vec![] })),
            entry("r", false, Some(ThreadStatus::Idle)),
            entry("p", true, Some(ThreadStatus::SystemError)),
        ],
        0,
    );
    assert_eq!(dashboard.ordered_entry_indices(), vec![3, 1, 2, 0]);
    assert_eq!(count_group(&dashboard.entries, AgentsDashboardGroup::Completed), 1);
    assert_eq!(header_counts_text(&dashboard.entries), "0 awaiting input · 1 working · 1 ready for review · 1 completed");
}

#[test]
fn selection_moves_and_clamps() {
    let mut dashboard = AgentsDashboardState::new("/tmp".to_string());
    dashboard.move_selection(1);
    assert_eq!(dashboard.selected, 0);
    dashboard.set_entries(vec![entry("a", false, None), entry("b", false, None), entry("c", false, None)], 0);
    dashboard.move_selection(1);
    dashboard.move_selection(1);
    dashboard.move_selection(1);
    assert_eq!(dashboard.selected, 2);
    dashboard.move_selection(-5);
    assert_eq!(dashboard.selected, 0);
    dashboard.move_selection(isize::MAX - 1);
    assert_eq!(dashboard.selected, 2);
    dashboard.move_selection(isize::MAX);
    assert_eq!(dashboard.selected, 2);
    dashboard.move_selection(isize::MIN);
    assert_eq!(dashboard.selected, 0);
    dashboard.selected = 7;
    dashboard.clamp_selection();
    assert_eq!(dashboard.selected, 2);
    dashboard.remove_entry(2);
    assert_eq!(dashboard.selected, 1);
    dashboard.remove_entry(0);
    dashboard.remove_entry(0);
    assert_eq!(dashboard.selected, 0);
    assert_eq!(dashboard.scroll_offset, 0);
    assert_eq!(dashboard.selected_entry_index(), None);
}

#[test]
fn select_entry_index_selects_its_visible_row() {
    let mut dashboard = AgentsDashboardState::new("/tmp".to_string());
    dashboard.set_entries(vec![entry("a", false, None), entry("b", true, None)], 0);
    dashboard.select_entry_index(0);
    assert_eq!(dashboard.selected, 1);
    assert_eq!(dashboard.selected_entry_index(), Some(0));
    dashboard.select_entry_index(9);
    assert_eq!(dashboard.selected, 1);
    assert_eq!(dashboard.selected_pin_toggle(), Some(true));
}

#[test]
fn selection_requests_name_the_selected_thread() {
    let mut dashboard = AgentsDashboardState::new("/repo".to_string());
    dashboard.set_entries(
        vec![entry("01900000-0000-7000-8000-000000000001", false, None), entry("not-a-uuid", true, None)],
        0,
    );
    let params = dashboard
        .selected_update_params(Some(AgentViewWorkflowState::Completed), None)
        .expect("a row is selected");
    assert_eq!(params.cwd, "/repo");
    assert_eq!(params.thread_id, "not-a-uuid");
    assert_eq!(params.view_state, Some(AgentViewWorkflowState::Completed));
    assert_eq!(params.position, None);
    assert!(dashboard.selected_thread_id().is_none());
    match dashboard.selected_hide_request() {
        Some(Err(message)) => assert!(message.starts_with("invalid dashboard thread id: ")),
        other => panic!("unexpected {other:?}"),
    }
    dashboard.move_selection(1);
    match dashboard.selected_hide_request() {
        Some(Ok((index, id))) => {
            assert_eq!(index, 0);
            assert_eq!(id.to_string(), "01900000-0000-7000-8000-000000000001");
        }
        other => panic!("unexpected {other:?}"),
    }
}

#[test]
fn replace_entry_updates_the_matching_thread() {
    let mut dashboard = AgentsDashboardState::new("/tmp".to_string());
    dashboard.set_entries(vec![entry("a", false, None), entry("b", false, None)], 0);
    let mut updated = entry("b", true, None);
    updated.position = 3;
    dashboard.replace_entry(updated.clone());
    assert_eq!(dashboard.entries[1], updated);
    let before = dashboard.entries.clone();
    dashboard.replace_entry(entry("zzz", true, None));
    assert_eq!(dashboard.entries, before);
}

#[test]
fn refresh_waits_two_seconds_on_the_list() {
    let mut dashboard = AgentsDashboardState::new("/tmp".to_string());
    assert!(dashboard.refresh_due(10));
    assert_eq!(dashboard.last_refreshed_at, Some(10));
    assert!(!dashboard.refresh_due(1_999_999_999));
    assert!(dashboard.refresh_due(2_000_000_010));
    dashboard.screen = AgentsDashboardScreen::Thread;
    assert!(!dashboard.should_refresh(u64::MAX));
    let mut none: Option<AgentsDashboardState> = None;
    assert!(!agents_dashboard_refresh_due(&mut none, 5));
    assert!(!agents_dashboard_showing_list(None));
    assert!(agents_dashboard_showing_thread(Some(&dashboard)));
    assert!(!agents_dashboard_showing_list(Some(&dashboard)));
}

#[test]
fn titles_previews_and_first_lines() {
    let mut e = entry("a", false, None);
    e.initial_prompt = "  \r\n second".to_string();
    assert_eq!(entry_title(&e), "untitled agent");
    e.initial_prompt = "  fix the bug \r\nthen test".to_string();
    assert_eq!(entry_title(&e), "fix the bug");
    assert_eq!(entry_preview(&e), "fix the bug");
    e.thread = Some(Thread {
        id: "a".to_string(),
        name: Some("named".to_string()),
        preview: "  ".to_string(),
        status: ThreadStatus::Idle,
        recency_at: None,
    });
    assert_eq!(entry_title(&e), "named");
    assert_eq!(entry_preview(&e), "fix the bug");
    e.title_override = Some("override".to_string());
    assert_eq!(entry_title(&e), "override");
    assert_eq!(first_line(""), "untitled agent");
    assert_eq!(first_line("\u{3000}héllo\u{00a0}"), "héllo");
}

#[test]
fn initial_prompt_prefers_text_then_images() {
    assert_eq!(initial_prompt_for_user_message("  do it  ", true), "do it");
    assert_eq!(initial_prompt_for_user_message(" \n ", true), "Image task");
    assert_eq!(initial_prompt_for_user_message("", false), "");
}

#[test]
fn ages_count_days_hours_minutes() {
    let mut e = entry("a", false, None);
    e.created_at = 100;
    e.updated_at = 50;
    assert_eq!(entry_age(&e, 130), "now");
    assert_eq!(entry_age(&e, 100 + 60), "1m");
    assert_eq!(entry_age(&e, 100 + 7_200), "2h");
    assert_eq!(entry_age(&e, 100 + 3 * 86_400 + 5), "3d");
    assert_eq!(entry_age(&e, 10), "now");
    e.thread = Some(Thread {
        id: "a".to_string(),
        name: None,
        preview: String::new(),
        status: ThreadStatus::Idle,
        recency_at: Some(i64::MIN),
    });
    assert_eq!(entry_age(&e, 0), "106751991167300d");
}

#[test]
fn row_layout_and_colors() {
    assert_eq!(entry_row_layout(27), EntryRowLayout::Narrow);
    assert_eq!(entry_row_layout(28), EntryRowLayout::Wide { title_width: 16, meta_width: 10 });
    assert_eq!(entry_row_layout(90), EntryRowLayout::Wide { title_width: 38, meta_width: 22 });
    assert_eq!(entry_row_layout(45), EntryRowLayout::Wide { title_width: 28, meta_width: 15 });
    assert_eq!(marker_color(AgentsDashboardGroup::Pinned), DashboardColor::Blue);
    assert_eq!(status_color(AgentsDashboardGroup::Pinned), DashboardColor::DarkGray);
    assert_eq!(status_color(AgentsDashboardGroup::Working), DashboardColor::Green);
    assert_eq!(entry_marker(&entry("a", true, None)), "✻");
    assert_eq!(entry_marker(&entry("a", false, None)), "•");
    assert_eq!(AgentsDashboardGroup::ReadyForReview.title(), "Ready for review");
    let hint = apply_agents_dashboard_footer_hint();
    assert_eq!(hint[3], ("ctrl+x".to_string(), "to hide".to_string()));
}

fn key(code: DashboardKeyCode) -> DashboardKey {
    DashboardKey { code, kind: DashboardKeyKind::Press, control: false, no_modifiers: true }
}

#[test]
fn keys_map_to_dashboard_actions() {
    assert_eq!(
        dashboard_key_action(true, false, key(DashboardKeyCode::Left), true, true),
        DashboardKeyAction::ReturnToList
    );
    assert_eq!(
        dashboard_key_action(true, false, key(DashboardKeyCode::Left), false, true),
        DashboardKeyAction::NotHandled
    );
    assert_eq!(
        dashboard_key_action(true, false, key(DashboardKeyCode::Esc), true, true),
        DashboardKeyAction::ReturnToList
    );
    assert_eq!(
        dashboard_key_action(true, false, key(DashboardKeyCode::Esc), true, false),
        DashboardKeyAction::NotHandled
    );
    assert_eq!(
        dashboard_key_action(true, false, key(DashboardKeyCode::Left), true, false),
        DashboardKeyAction::NotHandled
    );
    assert_eq!(
        dashboard_key_action(false, true, key(DashboardKeyCode::Esc), true, true),
        DashboardKeyAction::ToComposer
    );
    assert_eq!(dashboard_key_action(false, true, key(DashboardKeyCode::Up), true, true), DashboardKeyAction::MoveUp);
    let repeat = DashboardKey { kind: DashboardKeyKind::Repeat, ..key(DashboardKeyCode::Down) };
    assert_eq!(dashboard_key_action(false, true, repeat, true, true), DashboardKeyAction::MoveDown);
    assert_eq!(
        dashboard_key_action(false, true, key(DashboardKeyCode::Enter), true, false),
        DashboardKeyAction::ToComposer
    );
    assert_eq!(
        dashboard_key_action(false, true, key(DashboardKeyCode::Enter), true, true),
        DashboardKeyAction::OpenSelected
    );
    let ctrl_x = DashboardKey { control: true, no_modifiers: false, ..key(DashboardKeyCode::Char('x')) };
    assert_eq!(dashboard_key_action(false, true, ctrl_x, true, false), DashboardKeyAction::HideSelected);
    assert_eq!(
        dashboard_key_action(false, true, key(DashboardKeyCode::Char('p')), true, true),
        DashboardKeyAction::TogglePin
    );
    assert_eq!(
        dashboard_key_action(false, true, key(DashboardKeyCode::Char('c')), true, true),
        DashboardKeyAction::MarkCompleted
    );
    assert_eq!(
        dashboard_key_action(false, true, key(DashboardKeyCode::Char('r')), true, true),
        DashboardKeyAction::MarkReady
    );
    assert_eq!(
        dashboard_key_action(false, true, key(DashboardKeyCode::Char('r')), false, true),
        DashboardKeyAction::ToComposer
    );
    assert_eq!(
        dashboard_key_action(false, false, key(DashboardKeyCode::Up), true, true),
        DashboardKeyAction::NotHandled
    );
}

#[test]
fn mouse_clicks_open_the_row_under_the_pointer() {
    let hitboxes = vec![RowHitbox { y: 4, entry_index: 2 }, RowHitbox { y: 5, entry_index: 0 }];
    assert_eq!(
        dashboard_mouse_action(true, DashboardMouseKind::LeftDown, 5, &hitboxes),
        DashboardMouseAction::Open { entry_index: 0 }
    );
    assert_eq!(
        dashboard_mouse_action(true, DashboardMouseKind::LeftDown, 9, &hitboxes),
        DashboardMouseAction::NotHandled
    );
    assert_eq!(dashboard_mouse_action(true, DashboardMouseKind::ScrollUp, 0, &hitboxes), DashboardMouseAction::MoveUp);
    assert_eq!(
        dashboard_mouse_action(false, DashboardMouseKind::ScrollDown, 0, &hitboxes),
        DashboardMouseAction::NotHandled
    );
}

#[test]
fn placed_rows_fill_the_lines_and_record_hit_areas() {
    let mut dashboard = AgentsDashboardState::new("/tmp".to_string());
    dashboard.set_entries((0..6).map(|i| entry(&format!("e{i}"), false, None)).collect(), 0);
    dashboard.selected = 5;
    let rows = dashboard.render_rows();
    let placed = dashboard.place_list_rows(&rows, 3, 6);
    assert_eq!(placed.len(), 3);
    assert_eq!(placed[0].y, 3);
    assert_eq!(dashboard.scroll_offset, 4);
    assert_eq!(
        dashboard.row_hitboxes,
        vec![
            RowHitbox { y: 3, entry_index: 3 },
            RowHitbox { y: 4, entry_index: 4 },
            RowHitbox { y: 5, entry_index: 5 },
        ]
    );
}

#[test]
fn screens_switch_between_list_and_thread() {
    let mut dashboard = AgentsDashboardState::new("/tmp".to_string());
    dashboard.set_entries(vec![entry("a", false, None)], 5);
    dashboard.show_thread();
    assert_eq!(dashboard.screen, AgentsDashboardScreen::Thread);
    assert!(agents_dashboard_showing_thread(Some(&dashboard)));
    assert!(!agents_dashboard_showing_list(Some(&dashboard)));
    assert_eq!(dashboard.entries.len(), 1);
    assert_eq!(dashboard.last_refreshed_at, Some(5));
    dashboard.show_list();
    assert_eq!(dashboard.screen, AgentsDashboardScreen::List);
    assert!(agents_dashboard_showing_list(Some(&dashboard)));
}

#[test]
fn placing_rows_scrolls_only_as_far_as_the_selection_needs() {
    let mut dashboard = AgentsDashboardState::new("/tmp".to_string());
    let entries: Vec<AgentViewEntry> = (0..10).map(|n| entry(&format!("e{n}"), false, None)).collect();
    dashboard.set_entries(entries, 0);
    let rows = dashboard.render_rows();
    // One heading, then entries 0..10 on rows 1..11.
    assert_eq!(rows.len(), 11);
    dashboard.selected = 9;
    let placed = dashboard.place_list_rows(&rows, 2, 6);
    assert_eq!(dashboard.scroll_offset, 7);
    assert_eq!(placed.len(), 4);
    assert_eq!(placed[3].row, DashboardRenderRow::Entry { visible_index: 9, entry_index: 9 });
    // The selected row is already in view: the offset stays.
    dashboard.selected = 7;
    dashboard.place_list_rows(&rows, 2, 6);
    assert_eq!(dashboard.scroll_offset, 7);
    // Above the window: the offset moves back to it.
    dashboard.selected = 2;
    dashboard.place_list_rows(&rows, 2, 6);
    assert_eq!(dashboard.scroll_offset, 3);
}
