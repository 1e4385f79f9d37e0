use codex_tools_core::backtrack::{
    BacktrackState, Key, KeyPhase, Overlay, PendingBacktrackRollback, Screen, ScreenEvent,
    UiAction, NO_PREVIOUS_MESSAGE_TO_EDIT, ROLLBACK_IN_PROGRESS,
};
use codex_tools_core::picker::{
    backtrack_picker_lines, single_line_message, truncate_picker_message,
    visible_user_message_range, LineStyle, StyledLine,
};
use codex_tools_core::transcript::{
    agent_group_count, has_backtrack_target, nth_user_position,
    trim_transcript_cells_drop_last_n_user_turns, trim_transcript_cells_to_nth_user, user_count,
    user_messages, CellKind, TranscriptCell,
};
use codex_tools_core::width::{fitting_count, take_prefix_by_width};

type Cell = TranscriptCell<&'static str>;

fn user(message: &str) -> Cell {
    TranscriptCell {
        kind: CellKind::User {
            has_text_elements: false,
            has_local_images: false,
            has_remote_images: false,
        },
        message: message.to_string(),
        cell: "",
    }
}

fn agent(text: &'static str, continuation: bool) -> Cell {
    TranscriptCell {
        kind: CellKind::Agent { continuation },
        message: String::new(),
        cell: text,
    }
}

fn other() -> Cell {
    TranscriptCell { kind: CellKind::Other, message: String::new(), cell: "Context compacted" }
}

fn session_start() -> Cell {
    TranscriptCell { kind: CellKind::SessionStart, message: String::new(), cell: "" }
}

fn screen() -> Screen {
    Screen {
        backtrack: BacktrackState::default(),
        overlay: Overlay::Closed,
        thread_id: Some(7),
        composer_empty: true,
        has_deferred_lines: false,
        render_pending: false,
    }
}

fn press(key: Key) -> ScreenEvent {
    ScreenEvent::Key { key, phase: KeyPhase::Press }
}

fn texts(lines: &[StyledLine]) -> Vec<String> {
    lines.iter().map(|line| line.text.clone()).collect()
}

#[test]
fn picker_keeps_selected_message_surrounded_when_possible() {
    assert_eq!(visible_user_message_range(8, 0, 5), 0..5);
    assert_eq!(visible_user_message_range(8, 3, 5), 2..7);
    assert_eq!(visible_user_message_range(8, 7, 5), 3..8);
}

#[test]
fn picker_range_with_few_messages_shows_all() {
    assert_eq!(visible_user_message_range(3, 1, 5), 0..3);
    assert_eq!(visible_user_message_range(3, 1, 0), 0..1);
    assert_eq!(visible_user_message_range(0, usize::MAX, 5), 0..0);
}

#[test]
fn picker_lines_show_only_user_messages_with_hint() {
    let messages = vec![
        "hello".to_string(),
        "please inspect this project and explain the architecture".to_string(),
        "is this correct?".to_string(),
        "one more".to_string(),
        "fifth".to_string(),
        "sixth stays hidden".to_string(),
    ];

    let lines = backtrack_picker_lines(&messages, 1, 32);

    assert_eq!(
        texts(&lines),
        vec![
            "────────────────────────────────",
            "",
            "  Select a previous message t...",
            "",
            "  hello",
            "> please inspect this project...",
            "  is this correct?",
            "  one more",
            "  fifth",
            "",
            "  Enter to roll back, esc to cancel.",
            "",
        ]
    );
    assert_eq!(lines[0].style, LineStyle::Dim);
    assert_eq!(lines[2].style, LineStyle::Bold);
    assert_eq!(lines[4].style, LineStyle::Plain);
    assert_eq!(lines[5].style, LineStyle::Cyan);
    assert_eq!(lines[10].style, LineStyle::Dim);
}

#[test]
fn picker_without_selection_has_no_lines() {
    assert_eq!(backtrack_picker_lines(&[], 0, 32), Vec::new());
    assert_eq!(backtrack_picker_lines(&["a".to_string()], 1, 32), Vec::new());
}

#[test]
fn messages_are_put_on_one_line() {
    assert_eq!(single_line_message("  a\n\tb   c "), "a b c");
    assert_eq!(single_line_message(" \n"), "(empty message)");
}

#[test]
fn long_messages_are_cut() {
    assert_eq!(truncate_picker_message("> ", "abcdef", 0), "");
    assert_eq!(truncate_picker_message("> ", "abcdef", 1), ">");
    assert_eq!(truncate_picker_message("> ", "abcdef", 5), "> abc");
    assert_eq!(truncate_picker_message("> ", "abcdef", 7), "> ab...");
    assert_eq!(truncate_picker_message("> ", "abcdef", 8), "> abcdef");
    assert_eq!(truncate_picker_message("> ", "ab cdef", 8), "> ab...");
}

#[test]
fn prefixes_are_cut_by_columns() {
    let (start, rest) = take_prefix_by_width("日本語", 5);
    assert_eq!((start.as_str(), rest.as_str()), ("日本", "語"));
    let (start, rest) = take_prefix_by_width("abc", 0);
    assert_eq!((start.as_str(), rest.as_str()), ("", "abc"));
    assert_eq!(fitting_count(&[2, 2, 2], 5), 2);
    assert_eq!(fitting_count(&[2, 2, 2], 4), 2);
    assert_eq!(fitting_count(&[1, 0, 1], 9), 3);
}

#[test]
fn trim_transcript_for_first_user_drops_user_and_newer_cells() {
    let mut cells = vec![user("first user"), agent("assistant", false)];
    trim_transcript_cells_to_nth_user(&mut cells, 0);

    assert!(cells.is_empty());
}

#[test]
fn trim_transcript_preserves_cells_before_selected_user() {
    let mut cells = vec![agent("intro", false), user("first"), agent("after", true)];
    trim_transcript_cells_to_nth_user(&mut cells, 0);

    assert_eq!(cells, vec![agent("intro", false)]);
}

#[test]
fn trim_transcript_for_later_user_keeps_prior_history() {
    let mut cells = vec![
        agent("intro", false),
        user("first"),
        agent("between", true),
        user("second"),
        agent("tail", true),
    ];
    trim_transcript_cells_to_nth_user(&mut cells, 1);

    assert_eq!(
        cells,
        vec![agent("intro", false), user("first"), agent("between", true)]
    );
}

#[test]
fn trim_without_selection_changes_nothing() {
    let mut cells = vec![user("first")];
    assert!(!trim_transcript_cells_to_nth_user(&mut cells, usize::MAX));
    assert!(!trim_transcript_cells_to_nth_user(&mut cells, 1));
    assert!(!trim_transcript_cells_drop_last_n_user_turns(&mut cells, 0));
    assert_eq!(cells.len(), 1);
    let mut none = vec![agent("intro", false)];
    assert!(!trim_transcript_cells_drop_last_n_user_turns(&mut none, 3));
    assert_eq!(none.len(), 1);
}

#[test]
fn trim_drop_last_n_user_turns_applies_rollback_semantics() {
    let mut cells = vec![
        user("first"),
        agent("after first", true),
        user("second"),
        agent("after second", true),
    ];

    let changed = trim_transcript_cells_drop_last_n_user_turns(&mut cells, 1);

    assert!(changed);
    assert_eq!(cells.len(), 2);
    assert_eq!(cells[0].message, "first");
}

#[test]
fn trim_drop_last_n_user_turns_allows_overflow() {
    let mut cells = vec![agent("intro", false), user("first"), agent("after", true)];

    let changed = trim_transcript_cells_drop_last_n_user_turns(&mut cells, u32::MAX);

    assert!(changed);
    assert_eq!(cells, vec![agent("intro", false)]);
}

#[test]
fn agent_group_count_ignores_context_compacted_marker() {
    let cells = vec![agent("first", false), other(), agent("second", false)];

    assert_eq!(agent_group_count(&cells), 2);
}

#[test]
fn agent_groups_leave_out_continuations() {
    let cells = vec![
        agent("old", false),
        session_start(),
        agent("first", false),
        agent("more", true),
    ];
    assert_eq!(agent_group_count(&cells), 1);
}

#[test]
fn backtrack_target_requires_user_message() {
    let mut cells = vec![agent("assistant", false), other()];

    assert!(!has_backtrack_target(&cells));

    cells.push(user("hello"));

    assert!(has_backtrack_target(&cells));
}

#[test]
fn messages_count_from_the_last_session_start() {
    let cells = vec![user("old"), session_start(), user("a"), other(), user("b")];
    assert_eq!(user_count(&cells), 2);
    assert_eq!(nth_user_position(&cells, 0), Some(2));
    assert_eq!(nth_user_position(&cells, 1), Some(4));
    assert_eq!(nth_user_position(&cells, 2), None);
    assert_eq!(user_messages(&cells), vec!["a", "b"]);
}

#[test]
fn going_back_keeps_the_messages_before() {
    let mut cells = vec![user("a"), agent("x", false), user("b"), user("c")];
    assert!(trim_transcript_cells_to_nth_user(&mut cells, 2));
    assert_eq!(user_messages(&cells), vec!["a", "b"]);
}

#[test]
fn backtrack_unavailable_info_message_snapshot() {
    assert_eq!(NO_PREVIOUS_MESSAGE_TO_EDIT, "No previous message to edit.");
    assert_eq!(ROLLBACK_IN_PROGRESS, "Backtrack rollback already in progress.");
    let mut view = screen();
    view.backtrack.primed = true;
    let cells: Vec<Cell> = vec![agent("assistant", false)];
    assert_eq!(
        view.handle_backtrack_esc_key(&cells),
        vec![UiAction::ClearEscHint, UiAction::NoPreviousMessage, UiAction::ScheduleFrame]
    );
    assert!(!view.backtrack.primed);
}

#[test]
fn esc_twice_opens_the_picker_and_enter_rolls_back_one_turn() {
    let mut cells = vec![user("a"), agent("x", false), user("b"), agent("y", false)];
    let mut view = screen();
    assert_eq!(view.handle_backtrack_esc_key(&cells), vec![UiAction::ShowEscHint]);
    assert_eq!(
        view.handle_backtrack_esc_key(&cells),
        vec![UiAction::ClearEscHint, UiAction::ScheduleFrame]
    );
    assert!(view.backtrack_picker_active());
    assert_eq!(view.backtrack.nth_user_message, 1);
    assert_eq!(view.backtrack_picker_desired_height(&cells, 40), 9);
    let lines = view.backtrack_picker_lines(&cells, 40).unwrap();
    assert_eq!(texts(&lines)[4..6], ["  a".to_string(), "> b".to_string()]);

    let (selection, actions) = view.confirm_backtrack_from_main(&cells);
    assert_eq!(actions, vec![UiAction::ClearEscHint]);
    let selection = selection.unwrap();
    assert_eq!(selection.cell, Some(2));
    assert!(selection.fills_composer);
    assert_eq!(
        view.apply_backtrack_selection(&cells, selection),
        vec![
            UiAction::SubmitRollback { num_turns: 1 },
            UiAction::SetRemoteImages,
            UiAction::SetComposer,
            UiAction::ScheduleFrame,
        ]
    );
    assert_eq!(
        view.apply_backtrack_rollback(&cells, selection),
        vec![UiAction::RollbackInProgress]
    );
    assert_eq!(
        view.handle_backtrack_rollback_succeeded(&mut cells, 1),
        vec![
            UiAction::TruncateCopyHistory { user_turns: 1 },
            UiAction::ClearDeferredLines,
        ]
    );
    assert_eq!(cells.len(), 2);
    assert!(view.render_pending);
    assert_eq!(view.backtrack.pending_rollback, None);
}

#[test]
fn picker_moves_within_the_messages() {
    let cells = vec![user("a"), user("b"), user("c")];
    let mut view = screen();
    view.handle_backtrack_esc_key(&cells);
    view.handle_backtrack_esc_key(&cells);
    assert_eq!(view.backtrack.nth_user_message, 2);
    view.move_backtrack_picker_selection(&cells, 1);
    assert_eq!(view.backtrack.nth_user_message, 2);
    view.move_backtrack_picker_selection(&cells, -1);
    view.move_backtrack_picker_selection(&cells, -1);
    view.move_backtrack_picker_selection(&cells, -1);
    assert_eq!(view.backtrack.nth_user_message, 0);
    assert_eq!(view.move_backtrack_picker_selection(&cells, 0), vec![]);
    view.move_backtrack_picker_selection(&cells, 1);
    assert_eq!(view.backtrack.nth_user_message, 1);
}

#[test]
fn esc_does_nothing_while_the_composer_is_in_use() {
    let cells = vec![user("a")];
    let mut view = screen();
    view.composer_empty = false;
    assert_eq!(view.handle_backtrack_esc_key(&cells), vec![]);
    assert!(!view.backtrack.primed);
}

#[test]
fn overlay_preview_steps_and_confirms() {
    let cells = vec![user("a"), agent("x", false), user("b")];
    let mut view = screen();
    assert_eq!(
        view.open_transcript_overlay(),
        vec![UiAction::EnterAltScreen, UiAction::OpenTranscript, UiAction::ScheduleFrame]
    );
    view.has_deferred_lines = true;
    assert_eq!(
        view.handle_backtrack_overlay_event(&cells, press(Key::Left)),
        (None, vec![UiAction::ForwardEvent])
    );
    assert_eq!(
        view.handle_backtrack_overlay_event(&cells, ScreenEvent::Draw),
        (None, vec![UiAction::DrawTranscript])
    );
    assert_eq!(
        view.handle_backtrack_overlay_event(&cells, press(Key::Esc)).1,
        vec![UiAction::Highlight { cell: Some(2) }, UiAction::ScheduleFrame]
    );
    assert_eq!(
        view.handle_backtrack_overlay_event(&cells, press(Key::Left)).1,
        vec![UiAction::Highlight { cell: Some(0) }, UiAction::ScheduleFrame]
    );
    assert_eq!(
        view.handle_backtrack_overlay_event(&cells, press(Key::Right)).1,
        vec![UiAction::Highlight { cell: Some(2) }, UiAction::ScheduleFrame]
    );
    let release = ScreenEvent::Key { key: Key::Enter, phase: KeyPhase::Release };
    assert_eq!(
        view.handle_backtrack_overlay_event(&cells, release),
        (None, vec![UiAction::ForwardEvent])
    );
    let (selection, actions) = view.handle_backtrack_overlay_event(&cells, press(Key::Enter));
    assert_eq!(selection.unwrap().nth_user_message, 1);
    assert_eq!(
        actions,
        vec![
            UiAction::LeaveAltScreen,
            UiAction::FlushDeferredLines,
            UiAction::ClearEscHint,
            UiAction::SubmitRollback { num_turns: 1 },
            UiAction::SetRemoteImages,
            UiAction::SetComposer,
            UiAction::ScheduleFrame,
        ]
    );
    assert_eq!(view.overlay, Overlay::Closed);
}

#[test]
fn overlay_closes_when_it_is_done() {
    let mut view = screen();
    view.overlay = Overlay::Transcript;
    assert_eq!(
        view.overlay_handled_event(false, true),
        vec![UiAction::ScheduleFrameIn { millis: 50 }]
    );
    assert_eq!(view.overlay_handled_event(false, false), vec![]);
    assert_eq!(
        view.overlay_handled_event(true, true),
        vec![UiAction::LeaveAltScreen, UiAction::ScheduleFrame]
    );
}

#[test]
fn overlay_without_messages_closes_on_esc() {
    let cells: Vec<Cell> = vec![agent("x", false)];
    let mut view = screen();
    view.overlay = Overlay::Transcript;
    assert_eq!(
        view.handle_backtrack_overlay_event(&cells, press(Key::Esc)).1,
        vec![UiAction::LeaveAltScreen, UiAction::NoPreviousMessage, UiAction::ScheduleFrame]
    );
}

#[test]
fn rollback_of_another_thread_is_ignored() {
    let mut cells = vec![user("a"), user("b")];
    let mut view = screen();
    view.backtrack.pending_rollback =
        Some(PendingBacktrackRollback { nth_user_message: 1, thread_id: Some(1) });
    assert_eq!(view.handle_backtrack_rollback_succeeded(&mut cells, 1), vec![]);
    assert_eq!(cells.len(), 2);
    assert_eq!(view.backtrack.pending_rollback, None);
}

#[test]
fn selection_belongs_to_its_thread() {
    let cells = vec![user("a")];
    let mut view = screen();
    view.handle_backtrack_esc_key(&cells);
    view.handle_backtrack_esc_key(&cells);
    view.thread_id = Some(8);
    assert_eq!(view.confirm_backtrack_from_main(&cells).0, None);
}

#[test]
fn failed_rollback_allows_another_one() {
    let mut view = screen();
    view.backtrack.pending_rollback =
        Some(PendingBacktrackRollback { nth_user_message: 0, thread_id: Some(7) });
    view.handle_backtrack_rollback_failed();
    assert_eq!(view.backtrack.pending_rollback, None);
}

#[test]
fn rollback_from_elsewhere_cuts_and_realigns() {
    let mut cells = vec![user("a"), user("b"), user("c")];
    let mut view = screen();
    view.overlay = Overlay::Transcript;
    view.handle_backtrack_overlay_event(&cells, press(Key::Esc));
    assert_eq!(
        view.handle_backtrack_rollback_succeeded(&mut cells, 2),
        vec![UiAction::SendApplyRollback { num_turns: 2 }]
    );
    let (changed, actions) = view.apply_non_pending_thread_rollback(&mut cells, 2);
    assert!(changed);
    assert_eq!(cells, vec![user("a")]);
    assert_eq!(
        actions,
        vec![
            UiAction::TruncateCopyHistory { user_turns: 1 },
            UiAction::ReplaceCells,
            UiAction::Highlight { cell: Some(0) },
            UiAction::ClearDeferredLines,
        ]
    );
    assert_eq!(
        view.apply_non_pending_thread_rollback(&mut cells, 0),
        (false, vec![])
    );
}
