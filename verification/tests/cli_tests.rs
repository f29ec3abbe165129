use delve::cli::{
    build_label, build_local_thread_id, detect_completion_signal, looks_like_amp_thread_id,
    resolve_auto_resume_state, resolve_created_thread_id, session_thread_id_requires_refresh,
    AppError, AutoAction, AutoRun, InterruptController, IoFailureKind, ProviderCli,
    ResumeCheckpoint, StableExitCode,
};
use delve::domain::{NodeId, SessionId, SessionTree};
use delve::keys::{
    dialog_key, picker_key_action, route_key, session_key_action, submitted_text, DialogAction,
    KeyRoute, PickerAction, SessionKeyAction, UiKey,
};
use delve::providers::{ProviderError, ProviderKind};
use delve::review::build_review_keywords;
use delve::tui::{
    begin_output_section, render_selected_node_view, render_tree_entries,
    resolve_content_scroll_offset, resolve_output_scroll_offset, resolve_tree_window_start,
    spinner_frame_at, tree_selection_down, tree_selection_up, InteractivePaneFocus,
};

#[test]
fn interrupt_controller_tracks_first_and_second_interrupt() {
    let mut controller = InterruptController::default();
    assert!(!controller.should_gracefully_stop());

    assert!(!controller.simulate_interrupt());
    assert!(controller.should_gracefully_stop());
    assert!(controller.simulate_interrupt());
}

#[test]
fn amp_thread_id_shape_validation_matches_expected_format() {
    assert!(looks_like_amp_thread_id("T-12345678-1234-1234-1234-1234567890ab"));
    assert!(!looks_like_amp_thread_id("thread-amp-legacy"));
    assert!(!looks_like_amp_thread_id("T-not-a-uuid"));
}

#[test]
fn amp_provider_refreshes_missing_or_legacy_thread_ids() {
    assert!(session_thread_id_requires_refresh(ProviderCli::Amp, ""));
    assert!(session_thread_id_requires_refresh(ProviderCli::Amp, "thread-amp-legacy"));
    assert!(!session_thread_id_requires_refresh(
        ProviderCli::Amp,
        "T-12345678-1234-1234-1234-1234567890ab"
    ));
    assert!(!session_thread_id_requires_refresh(ProviderCli::Echo, "thread-echo-123"));
}

#[test]
fn output_scroll_defaults_to_live_tail() {
    let output = "line-1\nline-2\nline-3\nline-4\nline-5\nline-6\n";
    let panel_height = 4; // 2 visible content rows after borders.

    let scroll = resolve_output_scroll_offset(output, panel_height, 0);
    assert_eq!(scroll, 4);
}

#[test]
fn output_scroll_from_bottom_moves_up_history() {
    let output = "line-1\nline-2\nline-3\nline-4\nline-5\nline-6\n";
    let panel_height = 4; // 2 visible content rows after borders.

    let scroll = resolve_output_scroll_offset(output, panel_height, 2);
    assert_eq!(scroll, 2);
}

#[test]
fn scrolling_is_clamped_to_the_content() {
    let output = "a\nb\nc";
    assert_eq!(resolve_output_scroll_offset(output, 4, 99), 0);
    assert_eq!(resolve_output_scroll_offset("", 0, 0), 0);
    assert_eq!(resolve_content_scroll_offset(output, 3, 5), 2);
    assert_eq!(resolve_content_scroll_offset(output, 10, 5), 0);
    assert_eq!(resolve_tree_window_start(0, 5, 10), 0);
    assert_eq!(resolve_tree_window_start(7, 20, 6), 4);
    assert_eq!(resolve_tree_window_start(19, 20, 6), 14);
    assert_eq!(tree_selection_up(0, 1, 4), 3);
    assert_eq!(tree_selection_up(2, 9, 4), 1);
    assert_eq!(tree_selection_down(3, 1, 4), 0);
    assert_eq!(tree_selection_down(3, 1, 0), 3);
}

#[test]
fn pane_focus_cycles_both_ways() {
    let f = InteractivePaneFocus::Tree;
    assert_eq!(f.next(), InteractivePaneFocus::Viewer);
    assert_eq!(f.next().next().next(), f);
    assert_eq!(f.previous(), InteractivePaneFocus::Output);
    assert_eq!(f.next().previous(), f);
    assert_eq!(InteractivePaneFocus::Output.label(), "Current Session Output");
}

#[test]
fn exit_codes_follow_errors() {
    assert_eq!(StableExitCode::Success.code(), 0);
    assert_eq!(StableExitCode::Interrupted.code(), 130);
    assert_eq!(AppError::NotFound(String::from("x")).exit_code(), StableExitCode::NotFound);
    assert_eq!(
        AppError::Provider(ProviderError::MissingThreadId { provider: ProviderKind::Amp }).exit_code(),
        StableExitCode::ProviderFailure
    );
    assert_eq!(AppError::Internal(String::from("x")).exit_code(), StableExitCode::Failure);
    let e = AppError::from_io_parts("load session", IoFailureKind::AlreadyExists, "exists");
    assert!(matches!(&e, AppError::Conflict(m) if m == "load session: exists"));
    assert_eq!(e.exit_code(), StableExitCode::Conflict);
    let e = AppError::from_io("read", std::io::Error::new(std::io::ErrorKind::NotFound, "gone"));
    assert!(matches!(&e, AppError::NotFound(m) if m == "read: gone"));
    let e = AppError::from_io("read", std::io::Error::new(std::io::ErrorKind::InvalidInput, "bad"));
    assert_eq!(e.exit_code(), StableExitCode::InvalidState);
    assert_eq!(
        AppError::Provider(ProviderError::MissingThreadId { provider: ProviderKind::Amp }).message(),
        "provider Amp requires a thread id"
    );
}

#[test]
fn completion_signals_are_found_in_any_ascii_case() {
    assert!(detect_completion_signal("All good. [COMPLETE]"));
    assert!(detect_completion_signal("Intent Complete now"));
    assert!(detect_completion_signal("status\nDone: TRUE"));
    assert!(!detect_completion_signal("done: false"));
    assert!(!detect_completion_signal(""));
}

#[test]
fn created_thread_ids_fall_back_for_local_providers() {
    assert_eq!(
        resolve_created_thread_id(ProviderCli::Echo, None, String::from("thread-echo-1")).unwrap(),
        "thread-echo-1"
    );
    assert_eq!(
        resolve_created_thread_id(ProviderCli::Amp, Some(String::from("T-1")), String::new())
            .unwrap(),
        "T-1"
    );
    let err = resolve_created_thread_id(ProviderCli::Amp, None, String::new()).unwrap_err();
    assert!(matches!(&err, AppError::InvalidState(m)
        if m == "amp provider did not return a thread id from create_thread"));
    assert_eq!(build_local_thread_id(ProviderCli::Anthropic, "42"), "thread-anthropic-42");
    assert!(session_thread_id_requires_refresh(ProviderCli::Echo, "  thread-unset "));
    assert!(session_thread_id_requires_refresh(ProviderCli::Anthropic, " \t "));
}

#[test]
fn node_labels_use_the_first_four_words_and_a_padded_token() {
    assert_eq!(
        build_label("prompt", "Refine the Architecture: now, please!", 123),
        "prompt-refine-the-architecture-now-00000123"
    );
    assert_eq!(build_label("artifact", "!!!", 1_234_567_891), "artifact-item-34567891");
}

#[test]
fn review_keywords_are_the_first_three_long_words_sorted() {
    assert_eq!(
        build_review_keywords("Refine the (architecture) and Tests; tests again"),
        vec![String::from("architecture"), String::from("refine"), String::from("tests")]
    );
    assert_eq!(
        build_review_keywords("tests tests tests zebra"),
        vec![String::from("tests")]
    );
    assert!(build_review_keywords("a bc def").is_empty());
}

#[test]
fn auto_resume_prefers_explicit_prompt_over_checkpoint_prompt() {
    let mut session = SessionTree::new(String::from("Intent"));
    session.session_id = SessionId::from("session-1");
    let checkpoint = ResumeCheckpoint {
        session_id: SessionId::from("session-1"),
        current_node_id: NodeId::from("prompt-3"),
        step: 4,
        pending_prompt: Some(String::from("checkpoint prompt")),
    };

    let state = resolve_auto_resume_state(
        &session,
        true,
        Some(String::from("explicit prompt")),
        Some(checkpoint),
    )
    .expect("resume state should load");

    assert!(state.resumed);
    assert_eq!(state.step, 4);
    assert_eq!(state.current_node_id, NodeId::from("prompt-3"));
    assert_eq!(state.pending_prompt, Some(String::from("explicit prompt")));
}

#[test]
fn resume_refuses_foreign_checkpoints_and_starts_fresh_without_one() {
    let session = SessionTree::new(String::from("Intent"));
    let foreign = ResumeCheckpoint {
        session_id: SessionId::from("other"),
        current_node_id: NodeId::from("p"),
        step: 1,
        pending_prompt: None,
    };
    let err = resolve_auto_resume_state(&session, true, None, Some(foreign)).unwrap_err();
    assert!(matches!(&err, AppError::InvalidState(m)
        if m == &format!("checkpoint belongs to 'other' but session is '{}'", session.session_id.as_str())));
    let fresh = resolve_auto_resume_state(&session, false, None, None).unwrap();
    assert!(!fresh.resumed);
    assert_eq!(fresh.step, 0);
    assert_eq!(fresh.current_node_id, session.current_node_id);
}

#[test]
fn auto_run_stops_at_limit_interrupt_and_completion() {
    let session = SessionTree::new(String::from("Intent"));
    let start = resolve_auto_resume_state(&session, false, Some(String::from("first")), None).unwrap();
    let mut run = AutoRun::new(start, 2);
    assert_eq!(run.next_action(false), AutoAction::Generate(String::from("first")));
    assert!(!run.record_output("partial"));
    run.advance(String::from("second"));
    assert_eq!(run.next_action(false), AutoAction::Generate(String::from("second")));
    assert!(run.record_output("[complete]"));
    assert!(run.completion_detected);
    assert_eq!(run.next_action(false), AutoAction::Finish);

    let start = resolve_auto_resume_state(&session, false, None, None).unwrap();
    let mut run = AutoRun::new(start, 3);
    assert_eq!(run.next_action(false), AutoAction::SuggestPrompt);
    run.advance(String::from("next"));
    assert_eq!(run.next_action(true), AutoAction::Finish);
    assert!(run.interrupted);
    assert_eq!(run.step, 1);
}

#[test]
fn tree_listing_and_viewer_text() {
    let session = SessionTree::new(String::from("Ship"));
    let rows = render_tree_entries(&session);
    assert_eq!(rows.len(), 1);
    assert_eq!(rows[0].0, session.intent_node_id);
    assert_eq!(rows[0].1, format!("{} [Intent/Accepted] Ship", session.intent_node_id.as_str()));

    let text = render_selected_node_view(&session, &session.intent_node_id, |rel: &str| {
        (format!("/s/{rel}"), String::from("body"))
    });
    assert_eq!(
        text,
        format!(
            "Node: {}\nKind: Intent\nStatus: Accepted\nLabel: Ship\n\nPayload path: /s/intent.md\n---\nbody",
            session.intent_node_id.as_str()
        )
    );
    let missing = render_selected_node_view(&session, &NodeId::from("nope"), |_rel: &str| {
        (String::new(), String::new())
    });
    assert_eq!(missing, "Selected node was not found in session tree");
}

#[test]
fn output_sections_and_spinner() {
    let mut out = String::new();
    begin_output_section(&mut out, "first");
    assert_eq!(out, "first\n");
    out.push_str("chunk");
    begin_output_section(&mut out, "second");
    assert_eq!(out, "first\nchunk\n---\nsecond\n");
    assert_eq!(spinner_frame_at(0), '|');
    assert_eq!(spinner_frame_at(130), '/');
    assert_eq!(spinner_frame_at(375), '\\');
    assert_eq!(spinner_frame_at(500), '|');
}

#[test]
fn keys_route_and_act_per_screen() {
    assert_eq!(route_key(UiKey::ControlChar('c'), true, true), KeyRoute::Quit);
    assert_eq!(route_key(UiKey::Enter, true, false), KeyRoute::ClosePreview);
    assert_eq!(route_key(UiKey::Char('x'), true, false), KeyRoute::Ignore);
    assert_eq!(route_key(UiKey::Char('x'), false, true), KeyRoute::Dialog);
    assert_eq!(route_key(UiKey::Char('x'), false, false), KeyRoute::Screen);

    assert_eq!(session_key_action(UiKey::PageUp, InteractivePaneFocus::Tree), SessionKeyAction::ScrollUp(8));
    assert_eq!(session_key_action(UiKey::End, InteractivePaneFocus::Tree), SessionKeyAction::Nothing);
    assert_eq!(
        session_key_action(UiKey::End, InteractivePaneFocus::Output),
        SessionKeyAction::FollowLiveOutput
    );
    assert_eq!(session_key_action(UiKey::Char('a'), InteractivePaneFocus::Tree), SessionKeyAction::AcceptSelected);

    assert_eq!(picker_key_action(UiKey::Up, 0, 2), PickerAction::Select(2));
    assert_eq!(picker_key_action(UiKey::Down, 2, 2), PickerAction::Select(0));
    assert_eq!(picker_key_action(UiKey::Enter, 2, 2), PickerAction::NewIntent);
    assert_eq!(picker_key_action(UiKey::Enter, 1, 2), PickerAction::OpenSession(1));
    assert_eq!(picker_key_action(UiKey::Esc, 1, 2), PickerAction::Quit);
    assert_eq!(picker_key_action(UiKey::Enter, 5, 2), PickerAction::Nothing);
    assert_eq!(picker_key_action(UiKey::Up, 5, 2), PickerAction::Select(4));

    let mut text: Vec<char> = Vec::new();
    assert_eq!(dialog_key(&mut text, UiKey::Char('h')), DialogAction::Edited);
    assert_eq!(dialog_key(&mut text, UiKey::Char('i')), DialogAction::Edited);
    assert_eq!(dialog_key(&mut text, UiKey::Enter), DialogAction::Edited);
    assert_eq!(dialog_key(&mut text, UiKey::Backspace), DialogAction::Edited);
    assert_eq!(dialog_key(&mut text, UiKey::ControlChar('x')), DialogAction::Edited);
    assert_eq!(text, vec!['h', 'i']);
    assert_eq!(dialog_key(&mut text, UiKey::ControlChar('s')), DialogAction::Submit);
    assert_eq!(submitted_text(&text), Ok(String::from("hi")));
    assert_eq!(submitted_text(&vec![' ', '\n']), Err(String::from("Input cannot be empty")));
}

#[test]
fn auto_run_outcome_reports_interrupt() {
    let session = SessionTree::new(String::from("Intent"));
    let start = resolve_auto_resume_state(&session, false, None, None).unwrap();
    let run = AutoRun::new(start, 1);
    assert_eq!(run.outcome(false), Ok(()));
    let err = run.outcome(true).unwrap_err();
    assert_eq!(
        err,
        AppError::Interrupted(String::from("received interrupt and stopped with checkpoint"))
    );
    assert_eq!(err.exit_code(), StableExitCode::Interrupted);
}

#[test]
fn simulated_interrupts_count_up() {
    let mut controller = InterruptController::new();
    assert!(!controller.simulate_interrupt());
    assert!(controller.simulate_interrupt());
    assert!(controller.simulate_interrupt());
    assert!(controller.should_gracefully_stop());
}
