use codex_tools_core::agent_summary::{
    collab_agent_tool_summary, collab_agent_tool_summary_from_history, diff_line_counts,
    field_text, field_value, first_summary_argument, format_tool_name,
    function_call_summary_line, increment_tool_count, short_tool_label, title_from,
    truncate_summary_value,
    CollabAgentToolSummary, HistoryItem, ToolCount,
};
use codex_tools_core::agents::{
    apply_effort_override, apply_model_override, apply_spawn_agent_overrides, begin_model_override,
    build_agent_resume_config, build_agent_spawn_config, build_wait_agent_statuses,
    collab_agent_error, collab_spawn_error, collab_tool_call_mode, find_spawn_agent_model_name,
    function_arguments, invalid_setting, parse_collab_input, reject_full_fork_spawn_overrides,
    reports_completion, serialize_failure, summary_changed, thread_spawn_source,
    validate_spawn_agent_reasoning_effort, wait_for_blocking_spawn_step,
    wait_for_final_status_step, wait_timeout_ms, AgentConfig, AgentFailure, AgentFailureKind,
    AgentToolMode, CollabAgentRef, CollabAgentToolCallMode, CollabInput, OverrideStep, ThreadSpawn,
    TurnChoices, WatchAction, WatchEvent,
};
use codex_tools_core::error::FunctionCallError;
use codex_tools_core::outside::JsonField;

fn respond(message: &str) -> FunctionCallError {
    FunctionCallError::RespondToModel(message.to_string())
}

fn call(name: &str, arguments: &str, call_id: &str) -> HistoryItem {
    HistoryItem::FunctionCall {
        name: name.to_string(),
        arguments: arguments.to_string(),
        call_id: call_id.to_string(),
    }
}

fn count(name: &str, count: usize) -> ToolCount {
    ToolCount { name: name.to_string(), count }
}

#[test]
fn collab_agent_tool_summary_lists_only_tools_used() {
    let history = vec![
        call("read_file", r#"{"path":"codex-rs/tui/src/multi_agents.rs"}"#, "read-call"),
        call("list_dir", r#"{"dir_path":"codex-rs/tui"}"#, "list-call"),
        call("execute", r#"{"cmd":"cargo test -p codex-tui"}"#, "execute-call"),
        call("fetch_ticket", r#"{"query":"COD-123"}"#, "ticket-call"),
        HistoryItem::CustomToolCall {
            name: "index_symbols".to_string(),
            input: "crate:codex-tui".to_string(),
        },
    ];

    let summary = collab_agent_tool_summary_from_history(&history);

    assert_eq!(
        summary,
        CollabAgentToolSummary {
            tools: vec![
                count("read_file", 1),
                count("list_dir", 1),
                count("execute", 1),
                count("fetch_ticket", 1),
                count("index_symbols", 1),
            ],
            output: vec![
                "Read codex-rs/tui/src/multi_agents.rs".to_string(),
                "List codex-rs/tui".to_string(),
                "Execute cargo test -p codex-tui".to_string(),
                "Fetch Ticket COD-123".to_string(),
                "Index Symbols crate:codex-tui".to_string(),
            ],
        }
    );
}

#[test]
fn uses_of_one_tool_are_counted_together() {
    let history = vec![
        call("read_file", r#"{"path":"a"}"#, "1"),
        HistoryItem::WebSearchCall,
        call("read_file", r#"{"path":"b"}"#, "2"),
        HistoryItem::Other,
    ];
    let summary = collab_agent_tool_summary_from_history(&history);
    assert_eq!(summary.tools[0], count("read_file", 2));
    assert_eq!(summary.tools.iter().map(|tool| tool.count).sum::<usize>(), 3);
    assert_eq!(summary.output.len(), 3);
    assert_eq!(collab_agent_tool_summary(None), None);

    let mut tools = vec![count("a", 1)];
    increment_tool_count(&mut tools, "a");
    increment_tool_count(&mut tools, "b");
    assert_eq!(tools, vec![count("a", 2), count("b", 1)]);
}

#[test]
fn edits_are_summed_up_by_their_diff() {
    let diff = "--- a\n+++ a\n-x\n+y\n+z\n";
    assert_eq!(diff_line_counts(diff), (2, 1));
    let line = function_call_summary_line("edit", r#"{"path":"a.txt"}"#, Some(diff));
    assert!(line.starts_with("Edit a.txt"));
    assert!(line.contains("+2"));
    assert!(line.contains("-1"));
}

#[test]
fn names_are_made_titles() {
    assert_eq!(format_tool_name("fetch_ticket"), "Fetch Ticket");
    assert_eq!(format_tool_name("_x__éa"), "X Éa");
    assert_eq!(format_tool_name(""), "");
    assert_eq!(short_tool_label("read_file"), "Read");
    let long = "x".repeat(81);
    assert_eq!(truncate_summary_value(&long), format!("{}...", "x".repeat(80)));
    assert_eq!(truncate_summary_value("short"), "short");
    assert_eq!(first_summary_argument("no json"), None);
    assert_eq!(first_summary_argument(r#"{"query":"q"}"#), Some("q".to_string()));
}

#[test]
fn waits_stay_within_their_limits() {
    assert_eq!(wait_timeout_ms(1), 10_000);
    assert_eq!(wait_timeout_ms(20_000), 20_000);
    assert_eq!(wait_timeout_ms(i64::MAX), 3_600_000);
}

#[test]
fn a_wait_ends_with_a_final_status() {
    assert_eq!(
        wait_for_blocking_spawn_step(WatchEvent::Begun { is_final: true }),
        WatchAction::ReportAndReturn
    );
    assert_eq!(
        wait_for_blocking_spawn_step(WatchEvent::Tick { summary_changed: true }),
        WatchAction::Report
    );
    assert_eq!(
        wait_for_blocking_spawn_step(WatchEvent::Changed { is_final: false }),
        WatchAction::Wait
    );
    assert_eq!(
        wait_for_blocking_spawn_step(WatchEvent::Closed { latest_is_final: false }),
        WatchAction::GiveUp
    );
    assert_eq!(
        wait_for_final_status_step(WatchEvent::Begun { is_final: false }),
        WatchAction::Wait
    );
    assert_eq!(
        wait_for_final_status_step(WatchEvent::Closed { latest_is_final: true }),
        WatchAction::Return
    );
}

#[test]
fn a_summary_is_sent_when_it_changed() {
    let summary = |n: usize| {
        Some(CollabAgentToolSummary {
            tools: vec![count("a", n)],
            output: vec!["A".to_string()],
        })
    };
    assert!(!summary_changed(&summary(1), &summary(1)));
    assert!(summary_changed(&summary(1), &summary(2)));
    assert!(summary_changed(&summary(1), &None));
    assert!(!summary_changed(&None, &None));
}

#[test]
fn agents_take_a_message_or_items() {
    let none: Option<Vec<u8>> = None;
    assert_eq!(
        parse_collab_input(Some("hi".to_string()), none),
        Ok(CollabInput::Message("hi".to_string()))
    );
    assert_eq!(parse_collab_input(None, Some(vec![1u8])), Ok(CollabInput::Items(vec![1u8])));
    assert_eq!(
        parse_collab_input(Some("hi".to_string()), Some(vec![1u8])),
        Err(respond("Provide either message or items, but not both"))
    );
    assert_eq!(
        parse_collab_input::<u8>(None, None),
        Err(respond("Provide one of: message or items"))
    );
    assert_eq!(
        parse_collab_input::<u8>(Some(" \n".to_string()), None),
        Err(respond("Empty message can't be sent to an agent"))
    );
    assert_eq!(
        parse_collab_input::<u8>(None, Some(Vec::new())),
        Err(respond("Items can't be empty"))
    );
}

fn failure(kind: AgentFailureKind) -> AgentFailure {
    AgentFailure { kind, shown: "boom".to_string() }
}

#[test]
fn agent_failures_are_told() {
    let unsupported = |message: &str| {
        failure(AgentFailureKind::UnsupportedOperation { message: message.to_string() })
    };
    assert_eq!(
        collab_spawn_error(unsupported("thread manager dropped")),
        respond("collab manager unavailable")
    );
    assert_eq!(collab_spawn_error(unsupported("no")), respond("no"));
    assert_eq!(
        collab_spawn_error(failure(AgentFailureKind::Other)),
        respond("collab spawn failed: boom")
    );
    assert_eq!(
        collab_agent_error("7", failure(AgentFailureKind::ThreadNotFound { id: "8".to_string() })),
        respond("agent with id 8 not found")
    );
    assert_eq!(
        collab_agent_error("7", failure(AgentFailureKind::InternalAgentDied)),
        respond("agent with id 7 is closed")
    );
    assert_eq!(collab_agent_error("7", unsupported("x")), respond("collab manager unavailable"));
    assert_eq!(
        collab_agent_error("7", failure(AgentFailureKind::Other)),
        respond("collab tool failed: boom")
    );
    assert_eq!(
        function_arguments(None),
        Err(respond("collab handler received unsupported payload"))
    );
    assert_eq!(serialize_failure("wait", "e"), "failed to serialize wait result: e");
    assert_eq!(invalid_setting("model", "e"), respond("model is invalid: e"));
    assert_eq!(
        collab_tool_call_mode(AgentToolMode::default()),
        CollabAgentToolCallMode::Background
    );
}

#[test]
fn statuses_come_in_the_order_of_the_call() {
    let receiver = CollabAgentRef {
        thread_id: "b".to_string(),
        agent_nickname: Some("Bee".to_string()),
        agent_role: None,
    };
    let ids = vec!["c".to_string(), "b".to_string(), "a".to_string()];
    let entries = build_wait_agent_statuses(&ids, &[receiver]);
    let listed: Vec<(&str, usize)> =
        entries.iter().map(|entry| (entry.thread_id.as_str(), entry.status)).collect();
    assert_eq!(listed, vec![("b", 1), ("a", 2), ("c", 0)]);
    assert_eq!(entries[0].agent_nickname, Some("Bee".to_string()));
    assert_eq!(entries[1].agent_nickname, None);
}

fn config() -> AgentConfig<u8> {
    AgentConfig {
        model: None,
        model_reasoning_effort: None,
        base_instructions: Some("old".to_string()),
        developer_instructions: None,
        compact_prompt: None,
        spawn_csv_enabled: true,
        collab_enabled: true,
        handed_on: 9,
    }
}

fn turn() -> TurnChoices {
    TurnChoices {
        model_slug: "m".to_string(),
        reasoning_effort: None,
        default_reasoning_level: Some("low".to_string()),
        developer_instructions: Some("dev".to_string()),
        compact_prompt: None,
    }
}

#[test]
fn new_agents_take_over_the_turn() {
    let spawned = build_agent_spawn_config("base".to_string(), config(), turn());
    assert_eq!(spawned.model, Some("m".to_string()));
    assert_eq!(spawned.model_reasoning_effort, Some("low".to_string()));
    assert_eq!(spawned.base_instructions, Some("base".to_string()));
    assert_eq!(spawned.handed_on, 9);
    let resumed = build_agent_resume_config(config(), turn(), 2, 2, false);
    assert_eq!(resumed.base_instructions, None);
    assert!(!resumed.collab_enabled);
    assert!(!apply_spawn_agent_overrides(config(), 3, 2, false).spawn_csv_enabled);
    assert!(apply_spawn_agent_overrides(config(), 3, 2, true).spawn_csv_enabled);
    assert!(apply_spawn_agent_overrides(config(), 1, 2, false).collab_enabled);
}

#[test]
fn models_and_efforts_are_checked() {
    let models = vec!["a".to_string(), "b".to_string()];
    assert_eq!(find_spawn_agent_model_name(&models, "b"), Ok("b".to_string()));
    assert_eq!(
        find_spawn_agent_model_name(&models, "c"),
        Err(respond("Unknown model `c` for spawn_agent. Available models: a, b"))
    );
    assert_eq!(validate_spawn_agent_reasoning_effort("m", &models, "a"), Ok(()));
    let refusal = respond(
        "Reasoning effort `x` is not supported for model `m`. Supported reasoning efforts: a, b",
    );
    assert_eq!(
        apply_model_override(config(), "m".to_string(), &models, None, Some("x".to_string())),
        Err(refusal)
    );
    let chosen = apply_model_override(
        config(),
        "m".to_string(),
        &models,
        Some("b".to_string()),
        None,
    )
    .unwrap();
    assert_eq!(chosen.model_reasoning_effort, Some("b".to_string()));
    let effort = apply_effort_override(config(), "m", &models, "a".to_string()).unwrap();
    assert_eq!(effort.model, None);
    assert_eq!(effort.model_reasoning_effort, Some("a".to_string()));
    assert_eq!(begin_model_override(true, true), OverrideStep::ListModels);
    assert_eq!(begin_model_override(false, true), OverrideStep::CheckEffort);
    assert_eq!(begin_model_override(false, false), OverrideStep::Keep);
}

#[test]
fn forks_inherit_type_model_and_effort() {
    assert_eq!(reject_full_fork_spawn_overrides(None, None, None), Ok(()));
    assert!(reject_full_fork_spawn_overrides(Some("worker"), None, None).is_err());
    assert!(reject_full_fork_spawn_overrides(None, Some("m"), None).is_err());
    assert!(reject_full_fork_spawn_overrides(None, None, Some("low")).is_err());
}

#[test]
fn spawned_agents_name_their_parent() {
    assert_eq!(
        thread_spawn_source(7u64, 2, Some("worker"), Some(Ok("/root/task"))),
        Ok(ThreadSpawn {
            parent_thread_id: 7,
            depth: 2,
            agent_path: Some("/root/task"),
            agent_nickname: None,
            agent_role: Some("worker".to_string()),
        })
    );
    let unnamed = thread_spawn_source::<u64, &str>(7, 1, None, None).expect("a source");
    assert_eq!(unnamed.agent_path, None);
    assert_eq!(unnamed.agent_role, None);
    assert_eq!(
        thread_spawn_source::<u64, &str>(7, 1, None, Some(Err("bad name".to_string()))),
        Err(FunctionCallError::RespondToModel("bad name".to_string()))
    );
    assert!(reports_completion(Some(true)));
    assert!(!reports_completion(Some(false)));
    assert!(!reports_completion(None));
}

#[test]
fn titles_and_fields_are_put_together() {
    let parts: Vec<Vec<char>> = ["fetch", "", "ticket"].map(|part| part.chars().collect()).into();
    let initials = ["F", "", "SS"].map(str::to_string);
    assert_eq!(title_from(&initials, &parts), "Fetch SSicket");
    assert_eq!(format_tool_name("fetch__ticket"), "Fetch Ticket");
    assert_eq!(format_tool_name("\u{df}a"), "SSa");
    assert_eq!(field_text(Some(JsonField::Text("a".to_string()))), Some("a".to_string()));
    assert_eq!(field_text(Some(JsonField::Scalar("1".to_string()))), None);
    assert_eq!(field_value(Some(JsonField::Scalar("1".to_string()))), Some("1".to_string()));
    assert_eq!(field_value(Some(JsonField::Other)), None);
    assert_eq!(field_value(None), None);
}
