use codex_tools_core::background_shell_notification::{
    frame_lines, BackgroundShellNotification, END_MARKER, ROLE, START_MARKER,
};
use codex_tools_core::exec_cell::{
    CommandOutput, ExecCall, ExecCell, ExecCommandSource, ExploredToolsDisplay, ShownCommand,
};
use codex_tools_core::footer::ExecCommandRunMode;
use codex_tools_core::models_endpoint::{
    fetch_result, uses_codex_backend, FetchError, ModelProviderAuthInfo, ModelProviderInfo,
    OpenAiModelsEndpoint,
};

fn list_files() -> Vec<ShownCommand> {
    vec![ShownCommand::ListFiles { cmd: "ls".to_string(), path: None }]
}

fn unknown() -> Vec<ShownCommand> {
    vec![ShownCommand::Unknown { cmd: "cargo test".to_string() }]
}

fn call(id: &str, parsed: Vec<ShownCommand>, source: ExecCommandSource) -> ExecCall {
    ExecCall {
        call_id: id.to_string(),
        command: vec!["sh".to_string()],
        parsed,
        output: None,
        auto_review_approved: false,
        source,
        run_mode: None,
        start_time: Some(10),
        duration: None,
        interaction_input: None,
    }
}

fn output(exit_code: i32, text: &str) -> CommandOutput {
    CommandOutput {
        exit_code,
        aggregated_output: text.to_string(),
        formatted_output: String::new(),
    }
}

fn added(cell: &ExecCell, id: &str, parsed: Vec<ShownCommand>) -> Option<ExecCell> {
    cell.with_added_call(
        id.to_string(),
        vec!["ls".to_string()],
        parsed,
        ExecCommandSource::Agent,
        None,
        None,
        20,
    )
}

#[test]
fn calls_that_look_around_are_grouped() {
    let cell = ExecCell::new(call("a", list_files(), ExecCommandSource::Agent), true);
    assert!(cell.is_exploring_cell());
    let grouped = added(&cell, "b", list_files()).expect("the call should join");
    assert_eq!(grouped.iter_calls().len(), 2);
    assert_eq!(grouped.calls[0], cell.calls[0]);
    assert_eq!(grouped.calls[1].start_time, Some(20));
    assert!(grouped.animations_enabled());
    assert_eq!(added(&cell, "c", unknown()), None);
    assert_eq!(added(&cell, "d", Vec::new()), None);

    let command = ExecCell::new(call("e", unknown(), ExecCommandSource::Agent), false);
    assert_eq!(added(&command, "f", list_files()), None);
    let typed = ExecCell::new(call("g", list_files(), ExecCommandSource::UserShell), false);
    assert!(!typed.is_exploring_cell());
    assert!(typed.calls[0].is_user_shell_command());
}

#[test]
fn an_end_reaches_the_last_call_with_its_id() {
    let first = ExecCell::new(call("a", list_files(), ExecCommandSource::Agent), true);
    let mut cell = added(&first, "a", list_files()).unwrap();
    assert!(!cell.complete_call("other", output(0, "x"), 5, None));
    assert!(cell.complete_call("a", output(0, "x"), 5, Some(ExecCommandRunMode::Blocking)));
    assert_eq!(cell.calls[0], call("a", list_files(), ExecCommandSource::Agent));
    assert_eq!(cell.calls[1].output, Some(output(0, "x")));
    assert_eq!(cell.calls[1].duration, Some(5));
    assert_eq!(cell.calls[1].start_time, None);
    assert_eq!(cell.calls[1].run_mode, Some(ExecCommandRunMode::Blocking));
    assert!(cell.is_active());
    assert_eq!(cell.active_start_time(), Some(10));
    assert!(!cell.should_flush());
    assert!(cell.mark_auto_review_approved("a"));
    assert!(cell.calls[1].auto_review_approved);
    assert!(!cell.calls[0].auto_review_approved);
    assert!(!cell.mark_auto_review_approved("other"));
}

#[test]
fn a_command_is_complete_when_it_has_ended() {
    let mut cell = ExecCell::new(call("a", unknown(), ExecCommandSource::Agent), true);
    assert!(!cell.should_flush());
    assert!(cell.complete_call("a", output(0, ""), 1, None));
    assert!(cell.should_flush());
    assert!(!cell.is_active());
}

#[test]
fn output_is_appended() {
    let mut cell = ExecCell::new(call("a", unknown(), ExecCommandSource::Agent), true);
    assert!(!cell.append_output("a", ""));
    assert!(!cell.append_output("b", "x"));
    assert!(cell.append_output("a", "one"));
    assert!(cell.append_output("a", " two"));
    assert_eq!(cell.calls[0].output, Some(output(0, "one two")));

    let mut startup = call("s", unknown(), ExecCommandSource::UnifiedExecStartup);
    startup.run_mode = Some(ExecCommandRunMode::Background);
    assert!(startup.is_unified_exec_startup());
    assert!(startup.is_background_unified_exec_startup());
    assert!(!startup.is_unified_exec_interaction());
    let mut background = ExecCell::new(startup, true);
    assert!(!background.append_output("s", "x"));
    assert_eq!(background.calls[0].output, None);
}

#[test]
fn calls_without_output_fail() {
    let first = ExecCell::new(call("a", list_files(), ExecCommandSource::Agent), true);
    let mut cell = added(&first, "b", list_files()).unwrap();
    cell.complete_call("b", output(0, "x"), 5, None);
    cell.mark_failed(25);
    assert_eq!(cell.calls[0].output, Some(output(1, "")));
    assert_eq!(cell.calls[0].duration, Some(15));
    assert_eq!(cell.calls[1].output, Some(output(0, "x")));
    assert!(!cell.is_active());
}

#[test]
fn explored_tools_are_shown_compact_by_default() {
    let cell = ExecCell::new(call("a", list_files(), ExecCommandSource::Agent), true);
    assert_eq!(cell.explored_tools_display(), ExploredToolsDisplay::default());
    let detailed = ExploredToolsDisplay::from_compact_explored_tools(false);
    assert_eq!(detailed, ExploredToolsDisplay::Detailed);
    let cell = cell.with_explored_tools_display(detailed);
    assert_eq!(cell.explored_tools_display(), ExploredToolsDisplay::Detailed);
}

#[test]
fn the_end_of_a_shell_is_told_as_json() {
    let note = BackgroundShellNotification::new(7, "say \"hi\"".to_string(), -1);
    assert_eq!(
        note.body(),
        "\n{\"command\":\"say \\\"hi\\\"\",\"exit_code\":-1,\"hint\":\"Use read_shell_output with shell_id 7 if you need the final output.\",\"shell_id\":7}\n"
    );
    assert_eq!(note.entries().len(), 4);
    assert_eq!(frame_lines("x"), "\nx\n");
    assert_eq!(ROLE, "user");
    assert_eq!(START_MARKER, "<background_shell_notification>");
    assert_eq!(END_MARKER, "</background_shell_notification>");
}

fn provider(auth: Option<ModelProviderAuthInfo>) -> ModelProviderInfo {
    ModelProviderInfo { auth, requires_openai_auth: false }
}

#[test]
fn command_auth_provider_reports_command_auth_without_cached_auth() {
    let endpoint = OpenAiModelsEndpoint::new(provider(Some(ModelProviderAuthInfo {
        command: "print-token".to_string(),
        args: Vec::new(),
        timeout_ms: 5_000,
        refresh_interval_ms: 300_000,
    })));

    assert!(endpoint.has_command_auth());
}

#[test]
fn provider_without_command_auth_reports_no_command_auth() {
    let endpoint = OpenAiModelsEndpoint::new(provider(None));

    assert!(!endpoint.has_command_auth());
}

#[test]
fn the_catalog_url_names_the_client_version() {
    let endpoint = OpenAiModelsEndpoint::new(provider(None));
    assert_eq!(
        endpoint.models_url_for_client("1.2.3"),
        "https://raw.githubusercontent.com/Trirrin/codex/main/model.json?client_version=1.2.3"
    );
    let other =
        OpenAiModelsEndpoint::with_models_url(provider(None), "http://h/m?x=1".to_string());
    assert_eq!(other.models_url_for_client("2"), "http://h/m?x=1&client_version=2");
}

#[test]
fn a_fetch_times_out_or_fails() {
    assert_eq!(fetch_result::<u8, u8>(None), Err(FetchError::Timeout));
    assert_eq!(fetch_result::<u8, u8>(Some(Err(4))), Err(FetchError::Api(4)));
    assert_eq!(fetch_result::<u8, u8>(Some(Ok(5))), Ok(5));
    assert!(uses_codex_backend(Some(true)));
    assert!(!uses_codex_backend(Some(false)));
    assert!(!uses_codex_backend(None));
}
