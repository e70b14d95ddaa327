use codex_kit::session::notes::{
    first_notes_step, notes_after_full_read, notes_from_turns, HistoryItem, NoteToSelf, NotesPaging,
    NotesStep, RequestFailure,
};
use codex_kit::session::prompt_edit::{
    deliver_after_revert, events_to_deliver_after_revert, fork_plan, merge_buffered_events, prompt_edit_choices, prompt_edit_guard, replace_target,
    BufferedEvent, EditGuard, ForkPlan, ItemKind, PromptEditMode, TurnItem, TurnRecord, TurnStatus,
};
use codex_kit::session::prompt_rewrite::{
    can_start_fresh_prompt_rewrite, finish_prompt_rewrite, prompt_rewrite_developer_instructions,
    prompt_rewrite_fork_settings, prompt_rewrite_start, rewrite_applied_message, RewriteFinish,
    RewriteStart,
};
use codex_kit::session::reconnect::{
    is_loopback, is_loopback_host, plan_disconnect, reconnected_notice, server_reports_missing_rollout, DisconnectPlan,
    ReconnectAction, ReconnectEvent, Reconnector, ServerEndpoint,
};
use codex_kit::session::scrollback::{
    scrollback_index_for_transcript_cell_index, transcript_cells_for_current_scrollback,
};
use codex_kit::session::server_mode::{
    resolve_app_server_mode, resolve_requested_app_server_mode, AppServerTarget, FooterState,
    RequestedMode,
};
use codex_kit::session::side_summary::{
    agent_message_text, side_summary_injection_text, side_summary_role, side_summary_text,
    side_summary_turn_completed, start_side_summary, PendingSideSummary, SummaryEvent, SummaryItem,
    SummaryOutcome,
};
use codex_kit::proxy::upstream::UrlHost;
use codex_kit::session::signals::{signal_exit_status, ShutdownAction, ShutdownListener};

fn websocket(url: &str, auth_token: Option<&str>) -> ServerEndpoint {
    ServerEndpoint::WebSocket { url: url.to_string(), auth_token: auth_token.map(str::to_string) }
}

#[test]
fn resolve_requested_app_server_mode_uses_configured_local_shared() {
    let mode = resolve_requested_app_server_mode(None, None, Some(Ok(websocket("ws://127.0.0.1:4500/", None))))
        .expect("configured local shared app-server should parse");
    assert_eq!(mode, RequestedMode::LocalShared(websocket("ws://127.0.0.1:4500/", None)));
}

#[test]
fn resolve_requested_app_server_mode_prefers_cli_remote_over_local_shared() {
    let mode = resolve_requested_app_server_mode(
        None,
        Some(websocket("ws://127.0.0.1:4100/", Some("token"))),
        Some(Ok(websocket("ws://127.0.0.1:4500/", None))),
    )
    .expect("cli remote should win");
    assert_eq!(mode, RequestedMode::Remote(websocket("ws://127.0.0.1:4100/", Some("token"))));
}

#[test]
fn resolve_requested_app_server_mode_accepts_cli_local_unix_socket() {
    let socket = ServerEndpoint::UnixSocket { path: "/tmp/codex.sock".to_string() };
    let mode = resolve_requested_app_server_mode(Some(socket.clone()), None, None)
        .expect("cli local unix socket should parse");
    assert_eq!(mode, RequestedMode::LocalShared(socket));
}

#[test]
fn unreachable_servers_fall_back_only_when_local() {
    let socket = ServerEndpoint::UnixSocket { path: "/tmp/missing.sock".to_string() };
    let local = resolve_app_server_mode(RequestedMode::LocalShared(socket.clone()), false, "refused".to_string())
        .expect("falls back");
    assert_eq!(local.target, AppServerTarget::Embedded);
    assert_eq!(local.footer_state, Some(FooterState::LocalFallback));
    assert!(!local.keeps_connection);
    assert_eq!(
        resolve_app_server_mode(RequestedMode::Remote(socket.clone()), false, "refused".to_string()).err(),
        Some("refused".to_string())
    );
    let remote = resolve_app_server_mode(RequestedMode::Remote(socket.clone()), true, String::new()).expect("connected");
    assert_eq!(remote.target, AppServerTarget::Remote(socket));
    assert_eq!(resolve_requested_app_server_mode(None, None, None), Ok(RequestedMode::Embedded));
}

#[test]
fn side_summary_injection_item_is_headed_assistant_note() {
    assert_eq!(side_summary_role(), "assistant");
    assert_eq!(
        side_summary_injection_text("  Findings from side chat.  "),
        "Side conversation summary\n\nFindings from side chat."
    );
}

#[test]
fn side_summary_agent_text_uses_trimmed_agent_messages_only() {
    assert_eq!(
        agent_message_text(&SummaryItem::AgentMessage { text: "  final summary  ".to_string() }),
        Some("final summary".to_string())
    );
    assert_eq!(agent_message_text(&SummaryItem::AgentMessage { text: "   ".to_string() }), None);
    assert_eq!(agent_message_text(&SummaryItem::Other), None);
}

#[test]
fn side_summary_lifecycle() {
    let mut pending = None;
    assert!(start_side_summary(&mut pending, "side".to_string(), "parent".to_string(), false, "gpt").is_ok());
    assert_eq!(
        start_side_summary(&mut pending, "side".to_string(), "parent".to_string(), false, "gpt"),
        Err("A side conversation summary is already in progress.".to_string())
    );
    codex_kit::session::side_summary::note_side_summary_turn_started(&mut pending, "side", "turn-1".to_string());
    assert!(matches!(
        side_summary_turn_completed(&mut pending, "side", "turn-2", TurnStatus::Completed, None),
        SummaryOutcome::Ignore
    ));
    let outcome = side_summary_turn_completed(
        &mut pending,
        "side",
        "turn-1",
        TurnStatus::Completed,
        Some("summary".to_string()),
    );
    assert_eq!(
        outcome,
        SummaryOutcome::Save {
            side_thread: "side".to_string(),
            parent_thread: "parent".to_string(),
            summary: "summary".to_string()
        }
    );
    assert_eq!(pending, None::<PendingSideSummary>);
    let mut blank = None;
    assert!(start_side_summary(&mut blank, "s".to_string(), "p".to_string(), false, "  ").is_err());
    assert!(blank.is_none());
    let text = side_summary_text(
        &vec![SummaryItem::Other],
        Some(&vec![
            SummaryEvent::ItemCompleted {
                turn_id: "t".to_string(),
                item: SummaryItem::AgentMessage { text: " buffered ".to_string() },
            },
            SummaryEvent::TurnCompleted { turn_id: "other".to_string(), items: Vec::new() },
        ]),
        "t",
    );
    assert_eq!(text, Some("buffered".to_string()));
}

#[test]
fn notes_load_paged_history_and_legacy_turns() {
    assert!(matches!(first_notes_step(true, true), NotesStep::Done(Ok(v)) if v.is_empty()));
    assert!(matches!(first_notes_step(false, false), NotesStep::ReadAllTurns));
    let mut paging = NotesPaging::new();
    let step = paging.on_page(Ok((
        vec![
            HistoryItem::Note { id: "note-0".to_string(), note: "first".to_string() },
            HistoryItem::Other,
        ],
        Some("c1".to_string()),
    )));
    assert_eq!(step, NotesStep::FetchPage { cursor: Some("c1".to_string()) });
    let step = paging.on_page(Ok((
        vec![HistoryItem::Note { id: "note-1".to_string(), note: "second".to_string() }],
        None,
    )));
    assert_eq!(
        step,
        NotesStep::Done(Ok(vec![
            NoteToSelf { id: "note-0".to_string(), text: "first".to_string() },
            NoteToSelf { id: "note-1".to_string(), text: "second".to_string() },
        ]))
    );
    let mut fresh = NotesPaging::new();
    let step = fresh.on_page(Err(RequestFailure {
        server: Some((-32601, "no index".to_string())),
        error: "method not found".to_string(),
    }));
    assert_eq!(step, NotesStep::ProbeTurns);
    assert_eq!(fresh.on_probe(Ok((true, true))), NotesStep::Done(Ok(Vec::new())));
    assert_eq!(fresh.on_probe(Ok((false, true))), NotesStep::Done(Err("method not found".to_string())));
    let notes = notes_from_turns(&vec![
        vec![
            HistoryItem::Note { id: "a".to_string(), note: "1".to_string() },
            HistoryItem::Note { id: "b".to_string(), note: "2".to_string() },
        ],
        vec![HistoryItem::Note { id: "c".to_string(), note: "3".to_string() }],
    ]);
    let ids: Vec<&str> = notes.iter().map(|n| n.id.as_str()).collect();
    assert_eq!(ids, vec!["c", "b", "a"]);
    assert_eq!(
        notes_after_full_read(Err(RequestFailure {
            server: Some((-32600, "thread x: includeTurns is unavailable before first user message".to_string())),
            error: "e".to_string(),
        })),
        Ok(Vec::new())
    );
}

fn turn(id: &str, items: Vec<TurnItem>) -> TurnRecord {
    TurnRecord {
        id: id.to_string(),
        status: TurnStatus::InProgress,
        error: None,
        started_at: None,
        completed_at: None,
        duration_ms: None,
        items,
    }
}

fn item(id: &str, kind: ItemKind) -> TurnItem {
    TurnItem { id: id.to_string(), kind }
}

#[test]
fn prompt_edit_sees_live_turns_buffered_after_loaded_history() {
    let mut turns = vec![turn("t1", vec![item("u1", ItemKind::UserMessage)])];
    let mut completed = turn("t2", Vec::new());
    completed.status = TurnStatus::Completed;
    completed.duration_ms = Some(5);
    merge_buffered_events(
        &mut turns,
        &vec![
            BufferedEvent::TurnStarted(turn("t1", Vec::new())),
            BufferedEvent::TurnStarted(turn("t2", Vec::new())),
            BufferedEvent::ItemCompleted { turn_id: "t2".to_string(), item: item("u2", ItemKind::UserMessage) },
            BufferedEvent::ItemCompleted { turn_id: "t2".to_string(), item: item("u2", ItemKind::UserMessage) },
            BufferedEvent::ItemCompleted { turn_id: "t2".to_string(), item: item("x", ItemKind::Other) },
            BufferedEvent::TurnCompleted(completed),
            BufferedEvent::Other,
        ],
    );
    assert_eq!(turns.len(), 2);
    assert_eq!(turns[0].items.len(), 1);
    assert_eq!(turns[1].items, vec![item("u2", ItemKind::UserMessage)]);
    assert_eq!(turns[1].status, TurnStatus::Completed);
    assert_eq!(turns[1].duration_ms, Some(5));
}

#[test]
fn prompt_edit_choices_and_plans() {
    let choices = prompt_edit_choices();
    assert_eq!(choices[0].mode, PromptEditMode::Replace);
    assert_eq!(choices[0].name, "Edit this conversation");
    assert_eq!(choices[1].mode, PromptEditMode::Fork);
    assert!(matches!(prompt_edit_guard(Some("a"), "b", false), EditGuard::Ignore));
    assert!(matches!(prompt_edit_guard(Some("a"), "a", true), EditGuard::Blocked(_)));
    assert!(matches!(prompt_edit_guard(Some("a"), "a", false), EditGuard::Proceed));
    assert_eq!(replace_target(true, Ok(None), Some("t1".to_string())), Ok("t1".to_string()));
    assert_eq!(
        replace_target(true, Ok(None), None),
        Err("the selected prompt was not found".to_string())
    );
    assert_eq!(
        replace_target(false, Ok(Some("t".to_string())), None),
        Err("the selected thread is no longer available for prompt editing".to_string())
    );
    assert!(matches!(fork_plan(true, Ok(None), false, Some("t1".to_string())), ForkPlan::StartNew));
    assert!(matches!(
        fork_plan(true, Ok(None), true, Some("t1".to_string())),
        ForkPlan::ForkBefore(Some(t)) if t == "t1"
    ));
}

#[test]
fn fork_config_is_ephemeral_medium_and_appends_helper_policy() {
    let settings = prompt_rewrite_fork_settings(
        Some("configured".to_string()),
        "gpt-5.4",
        Some("priority".to_string()),
        None,
    );
    assert_eq!(settings.service_tier.as_deref(), Some("priority"));
    assert!(settings.ephemeral);
    assert!(settings.medium_reasoning);
    assert_eq!(settings.model.as_deref(), Some("gpt-5.4"));
    assert!(settings.developer_instructions.contains("Your only task is to rewrite"));
    assert!(settings.developer_instructions.contains("Do not call tools"));
    let appended = prompt_rewrite_developer_instructions(Some("Existing developer policy."));
    assert!(appended.starts_with("Existing developer policy.\n\n"));
    assert!(appended.contains("Your only task is to rewrite"));
    assert_eq!(
        prompt_rewrite_developer_instructions(Some("   ")),
        prompt_rewrite_developer_instructions(None)
    );
}

#[test]
fn prompt_rewrite_start_and_finish() {
    assert!(matches!(prompt_rewrite_start(true, true, true, "m"), RewriteStart::Refuse(_)));
    assert!(matches!(prompt_rewrite_start(false, true, false, "m"), RewriteStart::Unavailable));
    assert!(matches!(prompt_rewrite_start(false, true, true, " m "), RewriteStart::Start { model } if model == "m"));
    let mut pending = Some("child".to_string());
    let mut requests = vec!["other".to_string(), "child".to_string()];
    let output = r#"{"rewritten_prompt":"Clear draft."}"#.to_string();
    assert!(matches!(
        finish_prompt_rewrite(&mut pending, &mut requests, "other", Some("p"), "p", Ok(output.clone())),
        RewriteFinish::Ignore
    ));
    assert_eq!(pending.as_deref(), Some("child"));
    assert_eq!(requests, vec!["other".to_string(), "child".to_string()]);
    assert_eq!(
        finish_prompt_rewrite(&mut pending, &mut requests, "child", Some("p"), "p", Ok(output.clone())),
        RewriteFinish::Apply(output.clone())
    );
    assert!(pending.is_none());
    assert_eq!(requests, vec!["other".to_string()]);
    let mut pending = Some("child".to_string());
    let mut requests = vec!["child".to_string()];
    assert_eq!(
        finish_prompt_rewrite(&mut pending, &mut requests, "child", Some("q"), "p", Ok(output.clone())),
        RewriteFinish::Discard("Rewrite discarded because the active conversation changed.".to_string())
    );
    assert!(requests.is_empty());
    let mut pending = Some("child".to_string());
    assert_eq!(
        finish_prompt_rewrite(&mut pending, &mut requests, "child", Some("p"), "p", Err("timed out".to_string())),
        RewriteFinish::Discard("Prompt rewrite failed; the draft was not changed.".to_string())
    );
    assert!(!rewrite_applied_message(Some(true)).1);
    assert!(rewrite_applied_message(None).0.contains("protected content"));
    assert!(can_start_fresh_prompt_rewrite(
        Some("p"),
        "p",
        &vec!["outer".to_string(), "no rollout found for thread id p".to_string()]
    ));
    assert!(!can_start_fresh_prompt_rewrite(Some("q"), "p", &vec!["no rollout found for thread id p".to_string()]));
}

#[test]
fn reconnect_plans_and_loop() {
    let local = websocket("ws://LocalHost:4500/", None);
    assert!(is_loopback(&local));
    assert!(is_loopback(&websocket("ws://127.0.0.9:1/", None)));
    assert!(is_loopback(&websocket("ws://[::1]:1/", None)));
    assert!(!is_loopback(&websocket("ws://example.com/", None)));
    assert!(is_loopback(&ServerEndpoint::UnixSocket { path: "/tmp/s".to_string() }));
    assert!(matches!(plan_disconnect(true, None, None, None, false), DisconnectPlan::Ignore));
    assert!(matches!(
        plan_disconnect(false, None, Some("t"), None, false),
        DisconnectPlan::Fatal(m) if m == "connected mode is missing its app-server endpoint"
    ));
    assert!(matches!(
        plan_disconnect(false, Some(&local), Some("t"), Some(Some("/r.jsonl")), false),
        DisconnectPlan::Reconnect { start_fresh: true }
    ));
    assert!(matches!(
        plan_disconnect(false, Some(&websocket("ws://example.com/", None)), Some("t"), Some(Some("/r.jsonl")), false),
        DisconnectPlan::Reconnect { start_fresh: false }
    ));
    let mut r = Reconnector::new(false);
    assert_eq!(r.step(ReconnectEvent::ConnectFailed), ReconnectAction::RetryLater { shut_down_client: false });
    assert_eq!(r.step(ReconnectEvent::Connected), ReconnectAction::Resume);
    assert_eq!(r.step(ReconnectEvent::StartFailed { missing_rollout: true }), ReconnectAction::StartFresh);
    assert_eq!(
        r.step(ReconnectEvent::StartFailed { missing_rollout: false }),
        ReconnectAction::RetryLater { shut_down_client: true }
    );
    assert_eq!(r.step(ReconnectEvent::Connected), ReconnectAction::Resume);
    assert_eq!(r.step(ReconnectEvent::Started), ReconnectAction::Reconnected);
    assert!(server_reports_missing_rollout("t", &vec!["thread t is not materialized yet".to_string()]));
    assert!(!server_reports_missing_rollout("t", &vec!["other".to_string()]));
    assert_eq!(reconnected_notice(Some("a"), "a"), (true, "Reconnected to app-server.".to_string()));
    assert!(!reconnected_notice(Some("a"), "b").0);
}

#[test]
fn clean_scrollback_hides_cells_that_are_not_ordinary() {
    let cells = vec![true, false, true];
    assert_eq!(transcript_cells_for_current_scrollback(&cells, true), vec![0, 2]);
    assert_eq!(transcript_cells_for_current_scrollback(&cells, false), vec![0, 1, 2]);
    assert_eq!(scrollback_index_for_transcript_cell_index(&cells, true, 2), Some(1));
    assert_eq!(scrollback_index_for_transcript_cell_index(&cells, true, 1), None);
    assert_eq!(scrollback_index_for_transcript_cell_index(&cells, false, 1), Some(1));
    assert_eq!(scrollback_index_for_transcript_cell_index(&cells, false, 3), None);
}

#[test]
fn first_sigterm_requests_shutdown_first_exit() {
    let mut listener = ShutdownListener::new();
    assert_eq!(listener.on_signal(true), ShutdownAction::RequestShutdown);
    assert_eq!(listener.on_signal(false), ShutdownAction::Stop);
}

#[test]
fn second_sigterm_forces_immediate_exit() {
    let mut listener = ShutdownListener::new();
    assert_eq!(listener.on_signal(true), ShutdownAction::RequestShutdown);
    assert_eq!(listener.on_signal(true), ShutdownAction::ForceExit);
    assert_eq!(signal_exit_status(15), 143);
}

#[test]
fn loopback_hosts_are_localhost_127_slash_8_and_ipv6_one() {
    assert!(is_loopback_host(&UrlHost::Domain("LocalHost".to_string())));
    assert!(!is_loopback_host(&UrlHost::Domain("localhost.example".to_string())));
    assert!(is_loopback_host(&UrlHost::Ipv4(0x7f00_0001)));
    assert!(is_loopback_host(&UrlHost::Ipv4(0x7fff_ffff)));
    assert!(!is_loopback_host(&UrlHost::Ipv4(0x8000_0001)));
    assert!(is_loopback_host(&UrlHost::Ipv6(1)));
    assert!(!is_loopback_host(&UrlHost::Ipv6(2)));
    assert!(!is_loopback_host(&UrlHost::Absent));
}

#[test]
fn unreachable_local_shared_falls_back_only_at_startup() {
    let endpoint = ServerEndpoint::UnixSocket { path: "/tmp/home/missing.sock".to_string() };
    let requested =
        resolve_requested_app_server_mode(Some(endpoint), None, None).expect("requested mode");
    let mode = resolve_app_server_mode(requested, false, "connection refused".to_string())
        .expect("local fallback");
    assert_eq!(
        (mode.target.clone(), mode.footer_state),
        (AppServerTarget::Embedded, Some(FooterState::LocalFallback))
    );
    assert!(!mode.keeps_connection);
}

#[test]
fn unreachable_remote_never_falls_back() {
    let endpoint = ServerEndpoint::UnixSocket { path: "/tmp/home/missing.sock".to_string() };
    let requested =
        resolve_requested_app_server_mode(None, Some(endpoint), None).expect("requested mode");
    assert!(resolve_app_server_mode(requested, false, "connection refused".to_string()).is_err());
}

#[test]
fn scrollback_index_points_at_the_same_cell() {
    let cells = vec![false, true, true, false, true];
    let shown = transcript_cells_for_current_scrollback(&cells, true);
    for index in 0..cells.len() {
        match scrollback_index_for_transcript_cell_index(&cells, true, index) {
            Some(j) => assert_eq!(shown[j], index),
            None => assert!(!cells[index]),
        }
        assert_eq!(scrollback_index_for_transcript_cell_index(&cells, false, index), Some(index));
    }
}

#[test]
fn events_of_the_reverted_thread_are_dropped_after_a_revert() {
    assert!(!deliver_after_revert(Some("t1"), "t1"));
    assert!(deliver_after_revert(Some("t2"), "t1"));
    assert!(deliver_after_revert(None, "t1"));
    let threads = vec![Some("t1".to_string()), None, Some("t2".to_string()), Some("t1".to_string())];
    assert_eq!(events_to_deliver_after_revert(&threads, "t1"), vec![1, 2]);
}
