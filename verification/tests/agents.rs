use codex_kit::agents::focus::{
    check_directory, check_message, focus_decision, focus_sockets, has_sock_extension, kitty_command,
    kitty_result, matches_focus_session, registry_directory, reply_after_focus, socket_file_name,
    Action, DirectoryEntry, Endpoint, ErrorText, FocusDecision, FocusSearch, KittyRun, Reply,
    RequestOutcome, SearchStep,
};
use codex_kit::agents::model::{AgentsModel, AgentsRefresh, Notification};
use codex_kit::agents::output::{
    after_failure, next_backoff_ms, retryable, AfterFailure, Emitter, FailureKind, IoKind, RunFailure,
};
use codex_kit::agents::refresh::{
    failed_read_record, parent_to_read, read_failure, read_record, recent_seed, ListPaging, Listing,
    PageResult, PageStep, ReadFailure, ServerError, TurnsRead,
};
use codex_kit::agents::snapshot::snapshot;
use codex_kit::agents::table::Slot;
use codex_kit::agents::thread::{display_title, preview_text, AgentsOverviewGroup, Thread, ThreadStatus};
use std::collections::BTreeMap;

const ROOT: &str = "0196a5b2-0000-7000-8000-000000000001";
const CHILD: &str = "0196a5b2-0000-7000-8000-000000000002";
const GRANDCHILD: &str = "0196a5b2-0000-7000-8000-000000000003";

fn thread(id: &str, status: ThreadStatus) -> Thread {
    Thread {
        id: id.to_string(),
        name: None,
        preview: " Original prompt\nmore".to_string(),
        ephemeral: false,
        status,
        cwd: "/project".to_string(),
        model_provider: "openai".to_string(),
        parent_thread_id: None,
        spawn_parent_id: None,
        created_at: 1,
        updated_at: 2,
        recency_at: None,
        git_info_json: None,
    }
}

fn child_of(id: &str, parent: &str, status: ThreadStatus) -> Thread {
    let mut t = thread(id, status);
    t.parent_thread_id = Some(parent.to_string());
    t
}

fn table(model: &AgentsModel) -> BTreeMap<String, Option<Thread>> {
    model.threads.iter().map(|slot| (slot.id.clone(), slot.value.clone())).collect()
}

fn finish(model: &mut AgentsModel, threads: Vec<Slot<Option<Thread>>>) {
    let request = model.begin_refresh().expect("a read starts");
    model
        .finish_refresh(
            &request.id,
            Ok(AgentsRefresh {
                threads,
                last_messages: Vec::new(),
                recent_seed_complete: true,
                removed: Vec::new(),
                error: None,
            }),
        )
        .expect("the read succeeds");
}

#[test]
fn refreshing_a_descendant_cannot_restore_an_archived_root_until_unarchived() {
    let root = thread(ROOT, ThreadStatus::Idle);
    let child = child_of(CHILD, ROOT, ThreadStatus::Idle);
    let mut model = AgentsModel::new();
    for t in [root.clone(), child.clone()] {
        assert!(model.observe(&Notification::ThreadStarted { thread: t }));
    }
    finish(&mut model, Vec::new());
    model.observe(&Notification::ThreadArchived { thread_id: ROOT.to_string() });
    model.observe(&Notification::ThreadStatusChanged {
        thread_id: CHILD.to_string(),
        status: ThreadStatus::Idle,
    });
    let records = vec![
        Slot { id: ROOT.to_string(), value: Some(root.clone()) },
        Slot { id: CHILD.to_string(), value: Some(child.clone()) },
    ];
    // An ancestor read or a stale discovery page may still contain archived metadata.
    finish(&mut model, records.clone());
    assert_eq!(table(&model), BTreeMap::from([(CHILD.to_string(), Some(child.clone()))]));

    model.observe(&Notification::ThreadUnarchived { thread_id: ROOT.to_string() });
    finish(&mut model, records);
    assert_eq!(
        table(&model),
        BTreeMap::from([(ROOT.to_string(), Some(root)), (CHILD.to_string(), Some(child))])
    );
}

#[test]
fn notifications_that_arrive_during_a_read_win_over_it() {
    let mut model = AgentsModel::new();
    model.observe(&Notification::ThreadStarted { thread: thread(ROOT, ThreadStatus::Idle) });
    let request = model.begin_refresh().expect("a read starts");
    assert!(model.observe(&Notification::ThreadNameUpdated {
        thread_id: ROOT.to_string(),
        thread_name: Some("Renamed during the read".to_string()),
    }));
    assert!(model.refresh_pending);
    model
        .finish_refresh(
            &request.id,
            Ok(AgentsRefresh {
                threads: vec![Slot { id: ROOT.to_string(), value: Some(thread(ROOT, ThreadStatus::Idle)) }],
                last_messages: Vec::new(),
                recent_seed_complete: true,
                removed: Vec::new(),
                error: None,
            }),
        )
        .expect("the read succeeds");
    let t = table(&model)[ROOT].clone().expect("metadata");
    assert_eq!(t.name.as_deref(), Some("Renamed during the read"));
    assert!(model.refresh_pending);
}

#[test]
fn stale_reads_and_foreign_ids_change_nothing() {
    let mut model = AgentsModel::new();
    assert!(!model.observe(&Notification::ThreadClosed { thread_id: "not-a-uuid".to_string() }));
    assert!(!model.observe(&Notification::Other));
    let mut ephemeral = thread(ROOT, ThreadStatus::Idle);
    ephemeral.ephemeral = true;
    assert!(!model.observe(&Notification::ThreadStarted { thread: ephemeral }));
    assert!(model.threads.is_empty());
    let request = model.begin_refresh().expect("discovery starts");
    assert!(request.discover);
    assert!(model.begin_refresh().is_none());
    assert!(model.refresh_pending);
    assert_eq!(model.finish_refresh("some-other-read", Err("boom".to_string())), Ok(()));
    assert_eq!(model.finish_refresh(&request.id, Err("boom".to_string())), Err("boom".to_string()));
    assert!(model.request_id.is_none());
}

#[test]
fn reset_connection_forgets_what_must_be_read_again() {
    let mut model = AgentsModel::new();
    model.observe(&Notification::ThreadStarted { thread: thread(ROOT, ThreadStatus::Idle) });
    model.reset_connection();
    assert!(model.reconcile_archives);
    assert!(!model.initialized);
    assert_eq!(model.threads.len(), 1);
}

#[test]
fn snapshot_groups_families_under_their_roots() {
    let threads = vec![
        Slot { id: CHILD.to_string(), value: Some(child_of(CHILD, ROOT, ThreadStatus::Active { waiting_on_approval: false, waiting_on_user_input: false })) },
        Slot {
            id: GRANDCHILD.to_string(),
            value: Some(child_of(GRANDCHILD, CHILD, ThreadStatus::Active { waiting_on_approval: true, waiting_on_user_input: true })),
        },
        Slot { id: ROOT.to_string(), value: Some(thread(ROOT, ThreadStatus::NotLoaded)) },
        Slot { id: "0196a5b2-0000-7000-8000-00000000000f".to_string(), value: None },
    ];
    let snap = snapshot(&threads, false, &Vec::new()).expect("no cycle");
    assert_eq!(snap.total, 1);
    assert_eq!(snap.working, 1);
    assert_eq!(snap.needs_attention, 1);
    let session = &snap.sessions[0];
    assert_eq!(session.id, ROOT);
    assert_eq!(session.title, "Original prompt");
    assert_eq!(session.status, AgentsOverviewGroup::NeedsYou);
    assert_eq!(session.root_status, ThreadStatus::NotLoaded);
    assert!(session.loaded);
    assert!(session.working);
    assert_eq!(session.attention, vec!["approval".to_string(), "userInput".to_string()]);
    assert_eq!(session.project.key_dir, "/project");
    assert_eq!(session.project.key_relative, "");
    assert_eq!(session.project.heading, "/project");
}

#[test]
fn snapshot_rejects_cyclic_ancestry_and_skips_orphans() {
    let cyclic = vec![
        Slot { id: ROOT.to_string(), value: Some(child_of(ROOT, CHILD, ThreadStatus::Idle)) },
        Slot { id: CHILD.to_string(), value: Some(child_of(CHILD, ROOT, ThreadStatus::Idle)) },
    ];
    assert_eq!(snapshot(&cyclic, false, &Vec::new()).err(), Some("cyclic agents ancestry".to_string()));
    let orphan = vec![Slot { id: CHILD.to_string(), value: Some(child_of(CHILD, ROOT, ThreadStatus::Idle)) }];
    let snap = snapshot(&orphan, false, &Vec::new()).expect("no cycle");
    assert_eq!(snap.total, 0);
    assert!(snap.sessions.is_empty());
}

#[test]
fn snapshot_of_finished_and_errored_threads() {
    let threads = vec![
        Slot { id: ROOT.to_string(), value: Some(thread(ROOT, ThreadStatus::SystemError)) },
        Slot { id: CHILD.to_string(), value: Some(thread(CHILD, ThreadStatus::NotLoaded)) },
    ];
    let snap = snapshot(&threads, false, &Vec::new()).expect("no cycle");
    assert_eq!(snap.total, 2);
    assert_eq!(snap.sessions[0].id, ROOT);
    assert_eq!(snap.sessions[0].attention, vec!["error".to_string()]);
    assert_eq!(snap.sessions[1].status, AgentsOverviewGroup::Finished);
    assert!(!snap.sessions[1].loaded);
    assert_eq!(snap.needs_attention, 1);
}

#[test]
fn thread_titles_and_previews() {
    let mut t = thread(ROOT, ThreadStatus::Idle);
    assert_eq!(display_title(&t), "Original prompt");
    t.name = Some("   ".to_string());
    assert_eq!(display_title(&t), "Untitled task");
    assert_eq!(preview_text("a\tb\u{7}c"), "a bc");
    assert_eq!(preview_text(&"x".repeat(600)).len(), 512);
    assert_eq!(AgentsOverviewGroup::for_status(&ThreadStatus::Idle).label(), "Ready");
}

#[test]
fn kitty_target_comes_from_tui_environment_and_rejects_unsupported_contexts() {
    for id in ["1", "42"] {
        let command = kitty_command(false, false, Some(id)).expect("a command");
        assert_eq!(
            (command.program.clone(), command.args.clone()),
            (
                "kitten".to_string(),
                vec![
                    "@".to_string(),
                    "--use-password".to_string(),
                    "never".to_string(),
                    "focus-window".to_string(),
                    "--match".to_string(),
                    format!("id:{id}"),
                ]
            )
        );
    }
    for id in [None, Some("0"), Some("invalid")] {
        assert!(kitty_command(false, false, id).is_err());
    }
    for (tmux, screen) in [(true, false), (false, true)] {
        assert!(kitty_command(tmux, screen, Some("42")).err().expect("refused").contains("inner pane"));
    }
}

#[test]
fn kitty_outcomes_and_focus_replies() {
    let failed = kitty_result(&KittyRun::Exited {
        success: false,
        status: "exit status: 1".to_string(),
        stderr: "remote control disabled\n".to_string(),
        stdout: String::new(),
    })
    .err()
    .expect("failure");
    assert_eq!(failed.message, "Kitty focus failed (exit status: 1): remote control disabled");
    let timed_out = kitty_result(&KittyRun::TimedOut { cause: "deadline has elapsed".to_string() })
        .err()
        .expect("timeout");
    assert!(timed_out.message.contains("timed out"));
    assert_eq!(
        timed_out.chain(),
        "Kitty focus timed out; check that remote control is enabled: deadline has elapsed"
    );
    let missing = kitty_result(&KittyRun::NotStarted { cause: "No such file".to_string() }).err().expect("missing");
    assert!(missing.chain().contains("Could not run kitten"));
    assert!(kitty_result(&KittyRun::Exited {
        success: true,
        status: String::new(),
        stderr: String::new(),
        stdout: String::new()
    })
    .is_ok());
    assert_eq!(
        reply_after_focus(Err(ErrorText { message: "a".to_string(), cause: Some("b".to_string()) })),
        Reply::Unavailable("a: b".to_string())
    );
    assert_eq!(reply_after_focus(Ok(())), Reply::Focused);
    assert!(matches!(
        focus_decision(false, Err("x".to_string()), Action::Probe),
        FocusDecision::Answer(Reply::NoMatch)
    ));
    assert!(matches!(
        focus_decision(true, Err("x".to_string()), Action::Probe),
        FocusDecision::Answer(Reply::Unavailable(m)) if m == "x"
    ));
    let command = kitty_command(false, false, Some("7")).expect("a command");
    assert!(matches!(focus_decision(true, Ok(command.clone()), Action::Probe), FocusDecision::Answer(Reply::Ready)));
    assert!(matches!(focus_decision(true, Ok(command), Action::Focus), FocusDecision::Run(_)));
}

#[test]
fn search_rechecks_after_probe_and_never_retries_a_failed_focus() {
    let mut search = FocusSearch::new();
    assert_eq!(search.step("/tmp/a.sock", RequestOutcome::Gone), SearchStep::Next);
    assert_eq!(
        search.step("/tmp/b.sock", RequestOutcome::Failed("broken pipe".to_string())),
        SearchStep::Next
    );
    assert_eq!(search.step("/tmp/c.sock", RequestOutcome::Replied(Reply::Ready)), SearchStep::AskAgain);
    assert_eq!(search.action, Action::Focus);
    assert_eq!(search.step("/tmp/c.sock", RequestOutcome::Replied(Reply::NoMatch)), SearchStep::Next);
    assert_eq!(search.action, Action::Probe);
    assert_eq!(search.end("s-1"), "TUI focus unavailable: TUI /tmp/b.sock: broken pipe");
    assert_eq!(search.step("/tmp/d.sock", RequestOutcome::Replied(Reply::Ready)), SearchStep::AskAgain);
    assert_eq!(
        search.step("/tmp/d.sock", RequestOutcome::Gone),
        SearchStep::Done(Err("TUI became unavailable before focus could be confirmed".to_string()))
    );
    let mut fresh = FocusSearch::new();
    assert_eq!(fresh.step("/tmp/a.sock", RequestOutcome::Replied(Reply::Ready)), SearchStep::AskAgain);
    assert_eq!(fresh.step("/tmp/a.sock", RequestOutcome::Replied(Reply::Focused)), SearchStep::Done(Ok(())));
    let none = FocusSearch::new();
    assert_eq!(
        none.end("s-1"),
        "No running local TUI is attached to session s-1 on the selected server (TUIs must support --focus)"
    );
}

#[test]
fn registry_names_and_messages() {
    assert_eq!(registry_directory(1000), "/tmp/codex-tui-1000");
    assert_eq!(
        socket_file_name(42, "67e55044-10b1-426f-9247-bb680e5fe0c8"),
        "0000000042-67e55044-10b1-426f-9247-bb680e5fe0c8.sock"
    );
    assert!(has_sock_extension("a.sock"));
    assert!(!has_sock_extension(".sock"));
    assert!(!has_sock_extension("a.socket"));
    let sockets = focus_sockets(&vec![
        DirectoryEntry { name: "0000000042-b.sock".to_string(), is_socket: true },
        DirectoryEntry { name: "0000000007-a.sock".to_string(), is_socket: true },
        DirectoryEntry { name: "0000000001-c.sock".to_string(), is_socket: false },
        DirectoryEntry { name: "notes.txt".to_string(), is_socket: true },
    ]);
    assert_eq!(sockets, vec!["0000000007-a.sock".to_string(), "0000000042-b.sock".to_string()]);
    assert!(check_directory(true, 5, 5, 0o700, "/tmp/x").is_ok());
    assert_eq!(
        check_directory(true, 5, 5, 0o755, "/tmp/x"),
        Err("TUI focus directory must be a private directory owned by this user: /tmp/x".to_string())
    );
    assert!(check_message(&b"{}\n".to_vec()).is_ok());
    assert!(check_message(&b"{}".to_vec()).is_err());
}

#[test]
fn focus_matches_the_primary_session_and_its_ancestors() {
    let endpoint = Endpoint::WebSocket("ws://localhost:5000/".to_string());
    let threads = vec![Slot { id: CHILD.to_string(), value: Some(child_of(CHILD, ROOT, ThreadStatus::Idle)) }];
    assert!(matches_focus_session(Some(&endpoint), &endpoint, Some(CHILD), &threads, CHILD));
    assert!(matches_focus_session(Some(&endpoint), &endpoint, Some(CHILD), &threads, ROOT));
    assert!(!matches_focus_session(Some(&endpoint), &endpoint, Some(ROOT), &threads, CHILD));
    let other = Endpoint::WebSocket("ws://localhost:5001/".to_string());
    assert!(!matches_focus_session(Some(&endpoint), &other, Some(CHILD), &threads, CHILD));
    assert!(!matches_focus_session(None, &endpoint, Some(CHILD), &threads, CHILD));
}

#[test]
fn output_deduplicates_and_classifies_failures() {
    let mut emitter = Emitter::new();
    assert!(emitter.needs_write("{\"a\":1}\n"));
    emitter.written("{\"a\":1}\n".to_string());
    assert!(!emitter.needs_write("{\"a\":1}\n"));
    assert!(retryable(FailureKind::Server { code: -32603 }));
    assert!(!retryable(FailureKind::Server { code: -32600 }));
    assert!(!retryable(FailureKind::Io(IoKind::PermissionDenied)));
    assert!(retryable(FailureKind::Transport(IoKind::Other)));
    assert_eq!(after_failure(true, RunFailure::Output(IoKind::BrokenPipe)), AfterFailure::Stop);
    assert_eq!(after_failure(false, RunFailure::Connection(FailureKind::Io(IoKind::Other))), AfterFailure::Fail);
    assert_eq!(after_failure(true, RunFailure::Connection(FailureKind::Io(IoKind::Other))), AfterFailure::Retry);
    assert_eq!(next_backoff_ms(500), 1000);
    assert_eq!(next_backoff_ms(20_000), 30_000);
}

#[test]
fn read_failures_and_records() {
    let not_loaded = ServerError { code: -32600, message: format!("thread not loaded: {ROOT}") };
    assert_eq!(read_failure(ROOT, Some(&not_loaded)), ReadFailure::NotLoaded);
    let gone = ServerError { code: -32600, message: format!("thread not found: {ROOT}") };
    assert_eq!(read_failure(ROOT, Some(&gone)), ReadFailure::Removed);
    assert_eq!(read_failure(ROOT, None), ReadFailure::Other);
    let record = failed_read_record(ROOT, Some(thread(ROOT, ThreadStatus::Idle)), Some(&not_loaded), "e".to_string());
    assert_eq!(record.thread.expect("kept").status, ThreadStatus::NotLoaded);
    let record = read_record(
        ROOT,
        thread(ROOT, ThreadStatus::Idle),
        None,
        TurnsRead::Latest {
            user_preview: Some("Latest prompt\nSecond line".to_string()),
            last_agent_text: Some("All\tdone".to_string()),
        },
    );
    assert_eq!(record.thread.expect("read").preview, "Latest prompt\nSecond line");
    assert_eq!(record.last_message.as_deref(), Some("All done"));
}

#[test]
fn recent_seed_orders_by_recency_then_id() {
    let mut a = thread(ROOT, ThreadStatus::Idle);
    a.recency_at = Some(10);
    let mut b = thread(CHILD, ThreadStatus::Idle);
    b.updated_at = 10;
    let mut c = thread(GRANDCHILD, ThreadStatus::Idle);
    c.recency_at = Some(30);
    let seeded = recent_seed(vec![a, b, c]);
    let ids: Vec<&str> = seeded.iter().map(|t| t.id.as_str()).collect();
    assert_eq!(ids, vec![GRANDCHILD, CHILD, ROOT]);
    let many: Vec<Thread> = (0..25).map(|i| {
        let mut t = thread(&format!("t{i:02}"), ThreadStatus::Idle);
        t.updated_at = i;
        t
    }).collect();
    assert_eq!(recent_seed(many).len(), 20);
}

#[test]
fn listing_falls_back_to_update_order_and_detects_repeated_cursors() {
    let mut paging = ListPaging::new(Listing::Recent);
    let step = paging.on_page(PageResult::Failed {
        server: Some(ServerError { code: -32602, message: "unknown field recency_at".to_string() }),
        error: "rejected".to_string(),
    });
    assert_eq!(step, PageStep::Fetch { cursor: None });
    let mut sub = child_of(CHILD, ROOT, ThreadStatus::Idle);
    sub.ephemeral = false;
    let step = paging.on_page(PageResult::Page {
        threads: vec![thread(ROOT, ThreadStatus::Idle), sub],
        next_cursor: Some("1".to_string()),
    });
    assert_eq!(step, PageStep::Fetch { cursor: Some("1".to_string()) });
    let step = paging.on_page(PageResult::Page { threads: Vec::new(), next_cursor: Some("1".to_string()) });
    assert_eq!(step, PageStep::Done(Err("server repeated a thread-list cursor".to_string())));
    let mut seen = Vec::new();
    let parent = parent_to_read(Some(&child_of(CHILD, ROOT, ThreadStatus::Idle)), &Vec::new(), &Vec::new(), &mut seen);
    assert_eq!(parent, Ok(Some(ROOT.to_string())));
    let again = parent_to_read(Some(&child_of(CHILD, ROOT, ThreadStatus::Idle)), &Vec::new(), &Vec::new(), &mut seen);
    assert_eq!(again, Ok(None));
}

#[test]
fn focus_search_stops_on_a_cyclic_ancestry() {
    let endpoint = Endpoint::Unix("/tmp/app.sock".to_string());
    let threads = vec![
        Slot { id: CHILD.to_string(), value: Some(child_of(CHILD, ROOT, ThreadStatus::Idle)) },
        Slot { id: ROOT.to_string(), value: Some(child_of(ROOT, CHILD, ThreadStatus::Idle)) },
    ];
    assert!(matches_focus_session(Some(&endpoint), &endpoint, Some(CHILD), &threads, ROOT));
    assert!(!matches_focus_session(Some(&endpoint), &endpoint, Some(CHILD), &threads, GRANDCHILD));
    let chain = vec![
        Slot { id: GRANDCHILD.to_string(), value: Some(child_of(GRANDCHILD, CHILD, ThreadStatus::Idle)) },
        Slot { id: CHILD.to_string(), value: Some(child_of(CHILD, ROOT, ThreadStatus::Idle)) },
    ];
    assert!(matches_focus_session(Some(&endpoint), &endpoint, Some(GRANDCHILD), &chain, ROOT));
}
