use codex_kit::rollout::pricing::TokenUsage;
use codex_kit::rollout::usage::{
    boundary_of, build_usage_report, duration_parts, copied_prefix_end, format_time, parse_time_boundary,
    thread_id_from_file_name, time_text, TimeBoundary, Timestamp, copied_prefix_end_by_fork_timestamp, parse_duration,
    parse_rollout_timestamp, usage_delta, usage_for_rollout, ForkParent, PromptContent,
    RolloutEntry, SessionMeta, ThreadName, UsageLine, UsageReport, UsageReportPeriod,
};

fn ts(raw: &str) -> codex_kit::rollout::usage::Timestamp {
    parse_rollout_timestamp(raw).expect("timestamp")
}

fn line(timestamp: &str, entry: RolloutEntry, item_json: &str) -> UsageLine {
    UsageLine {
        timestamp: Some(ts(timestamp)),
        entry,
        item_json: item_json.to_string(),
    }
}

fn session_meta_line(timestamp: &str, thread_id: &str, forked_from_id: Option<&str>) -> UsageLine {
    line(
        timestamp,
        RolloutEntry::SessionMeta(SessionMeta {
            thread_id: thread_id.to_string(),
            forked_from_id: forked_from_id.map(str::to_string),
            model_provider: Some("openai".to_string()),
            cwd: "/tmp/project".to_string(),
        }),
        &format!("{{\"type\":\"session_meta\",\"id\":\"{thread_id}\",\"timestamp\":\"{timestamp}\"}}"),
    )
}

fn turn_context_line(timestamp: &str, model: &str) -> UsageLine {
    line(
        timestamp,
        RolloutEntry::TurnContext {
            model: model.to_string(),
            cwd: "/tmp/project".to_string(),
        },
        &format!("{{\"type\":\"turn_context\",\"model\":\"{model}\"}}"),
    )
}

fn token_count_line(
    timestamp: &str,
    total_tokens: i64,
    input_tokens: i64,
    cached_input_tokens: i64,
    output_tokens: i64,
    reasoning_output_tokens: i64,
) -> UsageLine {
    line(
        timestamp,
        RolloutEntry::TokenCount(Some(TokenUsage {
            input_tokens,
            cached_input_tokens,
            output_tokens,
            reasoning_output_tokens,
            total_tokens,
        })),
        &format!("{{\"type\":\"token_count\",\"total\":{total_tokens}}}"),
    )
}

fn user_prompt_line(timestamp: &str, text: &str) -> UsageLine {
    line(
        timestamp,
        RolloutEntry::Message {
            role: "user".to_string(),
            content: vec![PromptContent::InputText(text.to_string())],
        },
        &format!("{{\"type\":\"message\",\"text\":\"{text}\"}}"),
    )
}

fn report_for(
    rollouts: Vec<(&str, Vec<UsageLine>, ForkParent)>,
    names: Vec<ThreadName>,
    since: &str,
    until: &str,
) -> UsageReport {
    let period = UsageReportPeriod {
        since: ts(since),
        until: ts(until),
    };
    let mut missing_pricing = Vec::new();
    let mut warnings = Vec::new();
    let mut threads = Vec::new();
    let count = rollouts.len();
    for (path, lines, parent) in rollouts {
        if let Some(thread) = usage_for_rollout(
            path,
            &lines,
            &parent,
            period.since.unix_nanos,
            period.until.unix_nanos,
            &mut missing_pricing,
            &mut warnings,
        ) {
            threads.push(thread);
        }
    }
    build_usage_report(period, ts(until), threads, &names, count, count, 0, warnings)
}

#[test]
fn usage_reports_activity_from_old_thread_modified_recently() {
    let thread_id = "00000000-0000-0000-0000-000000000001";
    let lines = vec![
        session_meta_line("2000-01-01T00:00:00Z", thread_id, None),
        turn_context_line("2000-04-01T00:00:00Z", "gpt-5.4"),
        token_count_line("2000-04-01T00:00:00Z", 100, 40, 0, 10, 0),
        token_count_line("2000-05-01T12:00:00Z", 150, 60, 5, 20, 1),
    ];
    let report = report_for(
        vec![("sessions/2000/01/01/rollout.jsonl", lines, ForkParent::NotForked)],
        vec![ThreadName {
            thread_id: thread_id.to_string(),
            name: "Renamed usage thread".to_string(),
        }],
        "2000-05-01T00:00:00Z",
        "2000-05-02T00:00:00Z",
    );

    assert_eq!(report.totals.total_tokens, 50);
    assert_eq!(report.totals.input_tokens, 20);
    assert_eq!(report.totals.cached_input_tokens, 5);
    assert_eq!(report.totals.uncached_input_tokens, 15);
    assert_eq!(report.totals.output_tokens, 10);
    assert_eq!(report.totals.reasoning_output_tokens, 1);
    assert_eq!(report.threads.len(), 1);
    assert_eq!(report.threads[0].usage_events, 1);
    assert_eq!(report.threads[0].thread_name.as_deref(), Some("Renamed usage thread"));
    assert_eq!(report.threads[0].display_name, "Renamed usage thread");
    // 0.00018875 USD and 0.000015 USD.
    assert_eq!(report.costs.total_nano_usd, 188_750);
    assert_eq!(report.threads[0].costs.total_nano_usd, 188_750);
    assert_eq!(report.threads[0].costs.reasoning_output_nano_usd, 15_000);
}

#[test]
fn usage_skips_copied_parent_token_counts_in_forked_rollout() {
    let parent_id = "00000000-0000-0000-0000-000000000010";
    let child_id = "00000000-0000-0000-0000-000000000020";
    let parent_lines = vec![
        session_meta_line("2000-04-01T00:00:00Z", parent_id, None),
        turn_context_line("2000-04-01T00:00:30Z", "gpt-5.4"),
        token_count_line("2000-04-01T00:01:00Z", 100, 70, 10, 30, 5),
        token_count_line("2000-04-01T00:02:00Z", 200, 130, 20, 70, 15),
    ];
    let parent_items: Vec<String> = parent_lines.iter().map(|l| l.item_json.clone()).collect();
    let mut child_lines = vec![session_meta_line("2000-05-01T00:00:00Z", child_id, Some(parent_id))];
    for copied in &parent_lines {
        child_lines.push(UsageLine {
            timestamp: Some(ts("2000-05-01T00:00:00Z")),
            entry: copied.entry.clone(),
            item_json: copied.item_json.clone(),
        });
    }
    child_lines.push(user_prompt_line("2000-05-01T00:02:30Z", "Fork follow-up prompt"));
    child_lines.push(token_count_line("2000-05-01T00:03:00Z", 260, 170, 40, 90, 20));

    let report = report_for(
        vec![
            ("sessions/2000/04/01/parent.jsonl", parent_lines, ForkParent::NotForked),
            ("sessions/2000/05/01/child.jsonl", child_lines, ForkParent::Items(parent_items)),
        ],
        Vec::new(),
        "2000-05-01T00:00:00Z",
        "2000-05-02T00:00:00Z",
    );

    assert_eq!(report.warnings, Vec::<String>::new());
    assert_eq!(report.totals.total_tokens, 60);
    assert_eq!(report.totals.input_tokens, 40);
    assert_eq!(report.totals.cached_input_tokens, 20);
    assert_eq!(report.totals.uncached_input_tokens, 20);
    assert_eq!(report.totals.output_tokens, 20);
    assert_eq!(report.totals.reasoning_output_tokens, 5);
    assert_eq!(report.threads.len(), 1);
    assert_eq!(report.threads[0].thread_id.as_deref(), Some(child_id));
    assert_eq!(report.threads[0].forked_from_id.as_deref(), Some(parent_id));
    assert_eq!(report.threads[0].first_prompt.as_deref(), Some("Fork follow-up prompt"));
    assert_eq!(report.threads[0].display_name, "Fork follow-up prompt");
}

#[test]
fn usage_skips_fork_time_token_counts_when_parent_is_missing() {
    let parent_id = "00000000-0000-0000-0000-000000000030";
    let child_id = "00000000-0000-0000-0000-000000000040";
    let prompt = "This is the first prompt text that should be used when no title exists.";
    let lines = vec![
        session_meta_line("2000-05-01T00:00:00Z", child_id, Some(parent_id)),
        turn_context_line("2000-05-01T00:00:00Z", "gpt-5.4"),
        token_count_line("2000-05-01T00:00:00Z", 200, 130, 20, 70, 15),
        user_prompt_line("2000-05-01T00:02:30Z", prompt),
        token_count_line("2000-05-01T00:03:00Z", 260, 170, 40, 90, 20),
    ];
    let report = report_for(
        vec![(
            "sessions/2000/05/01/child.jsonl",
            lines,
            ForkParent::Unresolved {
                parent_id: parent_id.to_string(),
            },
        )],
        Vec::new(),
        "2000-05-01T00:00:00Z",
        "2000-05-02T00:00:00Z",
    );

    assert_eq!(report.warnings.len(), 1);
    assert_eq!(report.totals.total_tokens, 60);
    assert_eq!(report.totals.input_tokens, 40);
    assert_eq!(report.totals.cached_input_tokens, 20);
    assert_eq!(report.totals.uncached_input_tokens, 20);
    assert_eq!(report.totals.output_tokens, 20);
    assert_eq!(report.totals.reasoning_output_tokens, 5);
    assert_eq!(report.threads[0].display_name, prompt);
}

#[test]
fn unresolved_parent_warning_names_the_parent_and_the_skipped_lines() {
    let lines = vec![
        session_meta_line("2000-05-01T00:00:00Z", "child", Some("parent")),
        turn_context_line("2000-05-01T00:00:00Z", "gpt-5.4"),
        token_count_line("2000-05-01T00:00:00Z", 200, 130, 20, 70, 15),
        user_prompt_line("2000-05-01T00:02:30Z", "later"),
    ];
    assert_eq!(copied_prefix_end_by_fork_timestamp(&lines), 3);
    let (end, warning) = copied_prefix_end(
        "child.jsonl",
        &lines,
        &ForkParent::Unresolved {
            parent_id: "parent".to_string(),
        },
    );
    assert_eq!(end, 3);
    assert_eq!(
        warning.as_deref(),
        Some(
            "unable to resolve fork parent parent for child.jsonl; skipped 2 fork-time copied lines by timestamp only"
        )
    );
    assert_eq!(copied_prefix_end("x", &lines, &ForkParent::NotForked), (0, None));
}

#[test]
fn usage_delta_counts_only_growth_of_the_running_total() {
    let first = TokenUsage {
        input_tokens: 40,
        cached_input_tokens: 0,
        output_tokens: 10,
        reasoning_output_tokens: 0,
        total_tokens: 100,
    };
    let second = TokenUsage {
        input_tokens: 60,
        cached_input_tokens: 5,
        output_tokens: 20,
        reasoning_output_tokens: 1,
        total_tokens: 150,
    };
    let delta = usage_delta(Some(&first), &second);
    assert_eq!(delta.total_tokens, 50);
    assert_eq!(delta.input_tokens, 20);
    assert_eq!(delta.cached_input_tokens, 5);
    assert_eq!(delta.output_tokens, 10);
    assert_eq!(delta.reasoning_output_tokens, 1);
    assert_eq!(usage_delta(None, &first).total_tokens, 100);
}

#[test]
fn durations_take_a_unit_suffix() {
    assert_eq!(parse_duration("7d"), Ok(604_800));
    assert_eq!(parse_duration("2h"), Ok(7_200));
    assert_eq!(parse_duration("1w"), Ok(604_800));
    assert_eq!(parse_duration(""), Err("duration cannot be empty".to_string()));
    assert_eq!(parse_duration("0d"), Err("duration must be positive".to_string()));
    assert_eq!(
        parse_duration("12x"),
        Err("invalid duration `12x`; use h, d, or w".to_string())
    );
}

#[test]
fn window_boundaries_accept_rfc3339_or_a_day() {
    assert_eq!(
        parse_time_boundary("2000-05-01", TimeBoundary::Since),
        Ok(ts("2000-05-01T00:00:00Z"))
    );
    assert_eq!(
        parse_time_boundary("2000-05-01", TimeBoundary::Until),
        Ok(ts("2000-05-02T00:00:00Z"))
    );
    let with_offset = parse_time_boundary("2000-05-01T10:00:00+02:00", TimeBoundary::Until)
        .expect("timestamp");
    assert_eq!(with_offset.unix_nanos, ts("2000-05-01T08:00:00Z").unix_nanos);
    assert_eq!(with_offset.offset_seconds, 7200);
    assert_eq!(
        parse_time_boundary("yesterday", TimeBoundary::Since),
        Err("invalid timestamp `yesterday`; use RFC3339 or YYYY-MM-DD".to_string())
    );
    let day = 11_078; // 2000-05-01
    assert_eq!(
        boundary_of("x", None, Some(day), TimeBoundary::Until),
        Ok(Timestamp { unix_nanos: (day as i128 + 1) * 86_400_000_000_000, offset_seconds: 0 })
    );
    assert_eq!(
        boundary_of("x", None, Some(2_932_896), TimeBoundary::Until),
        Err("date is out of range".to_string())
    );
    let t = Timestamp { unix_nanos: 5, offset_seconds: 0 };
    assert_eq!(boundary_of("x", Some(t), Some(day), TimeBoundary::Since), Ok(t));
}

#[test]
fn report_times_are_rfc3339_in_their_own_offset() {
    assert_eq!(format_time(ts("2000-05-01T00:00:00Z")), "2000-05-01T00:00:00Z");
    assert_eq!(format_time(ts("2000-05-01T10:30:00+02:00")), "2000-05-01T10:30:00+02:00");
    let t = Timestamp { unix_nanos: -1_500_000_000, offset_seconds: 0 };
    assert_eq!(time_text(t, None), "-2");
    assert_eq!(time_text(t, Some("text".to_string())), "text");
}

#[test]
fn rollout_file_names_end_with_the_thread_id() {
    assert_eq!(
        thread_id_from_file_name(Some(
            "rollout-2000-01-01T00-00-00-0000000A-0000-0000-0000-000000000001.jsonl"
        )),
        Some("0000000a-0000-0000-0000-000000000001".to_string())
    );
    assert_eq!(thread_id_from_file_name(Some("rollout-2000-01-01T00-00-00.jsonl")), None);
    assert_eq!(thread_id_from_file_name(Some("notes.txt")), None);
    assert_eq!(thread_id_from_file_name(None), None);
}

#[test]
fn report_window_defaults_and_rejections() {
    let now = ts("2000-05-02T00:00:00Z");
    let week = UsageReportPeriod::from_args_checked(None, None, None, now).expect("no panic").expect("window");
    assert_eq!(week.until, now);
    assert_eq!(week.since, ts("2000-04-25T00:00:00Z"));
    let last = UsageReportPeriod::from_args_checked(Some("2d"), None, Some("2000-05-01"), now)
        .expect("no panic")
        .expect("window");
    assert_eq!(last.until, ts("2000-05-02T00:00:00Z"));
    assert_eq!(last.since, ts("2000-04-30T00:00:00Z"));
    assert_eq!(
        UsageReportPeriod::from_args_checked(Some("1d"), Some("2000-01-01"), None, now),
        Some(Err("--last cannot be combined with --since".to_string()))
    );
    assert_eq!(
        UsageReportPeriod::from_args_checked(None, Some("2000-05-03"), None, now),
        Some(Err("usage report start must be before end".to_string()))
    );
    assert_eq!(
        UsageReportPeriod::from_args_checked(Some("x"), None, None, now),
        Some(Err("invalid duration `x`".to_string()))
    );
    // A duration past what the time crate holds.
    assert_eq!(UsageReportPeriod::from_args_checked(Some("9000000000000000000w"), None, None, now), None);
    // A start before the first day the time crate holds.
    let first_day = Timestamp { unix_nanos: -4_371_587 * 86_400_000_000_000, offset_seconds: 0 };
    assert_eq!(UsageReportPeriod::from_args_checked(None, None, None, first_day), None);
    assert_eq!(duration_parts("3w"), Ok((3, 604_800)));
    assert_eq!(duration_parts("-3w"), Err("duration must be positive".to_string()));
}
