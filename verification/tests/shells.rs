use codex_tools_core::error::FunctionCallError;
use codex_tools_core::exec_flow::{
    additional_permissions_allowed, exec_step, get_command, join_outputs, start_execute,
    wait_for_process_exit, CommandChoice, ExecAction, ExecCommandArgs, ExecEvent, ExecState,
    ExecuteMode, Permissions, Ran, ShellMode,
};
use codex_tools_core::file_handler::ToolKind;
use codex_tools_core::shell_flow::{
    begin_shell_call, end_shell_call, ShellCall, ShellReply, ShellReport, ShellRequest,
};
use codex_tools_core::shell_tools::{
    default_exec_yield_time_ms, default_write_stdin_yield_time_ms, effective_max_output_tokens,
    exec_output_from_response, format_duration, parse_i32, parse_shell_id, shell_failure_message,
    shell_list_response, shell_list_text, shell_management_tool_command,
    shell_output_tool_command, shell_stop_response, shell_stop_text, write_stdin_error,
    ActiveShell, ExecCommandToolOutput, PostToolUse, ShellTool, UnifiedExecHandler,
};

fn respond(message: &str) -> FunctionCallError {
    FunctionCallError::RespondToModel(message.to_string())
}

fn output(text: &[u8], process_id: Option<i32>, exit_code: Option<i32>) -> ExecCommandToolOutput {
    ExecCommandToolOutput {
        event_call_id: "call".to_string(),
        chunk_id: "chunk".to_string(),
        wall_time_nanos: 5,
        raw_output: text.to_vec(),
        max_output_tokens: Some(100),
        shell_id: process_id.map(|id| id.to_string()),
        process_id,
        exit_code,
        original_token_count: Some(2),
        hook_command: Some("cmd".to_string()),
    }
}

fn args(cmd: &str) -> ExecCommandArgs {
    ExecCommandArgs {
        cmd: cmd.to_string(),
        mode: None,
        workdir: Some(String::new()),
        shell: None,
        login: None,
        tty: false,
        yield_time_ms: default_write_stdin_yield_time_ms(),
        justification: None,
        prefix_rule: None,
    }
}

fn permissions(requests: bool, preapproved: bool, on_request: bool) -> Permissions {
    Permissions {
        requests_sandbox_override: requests,
        preapproved,
        approval_on_request: on_request,
        approval_policy: "Never".to_string(),
    }
}

/// Brings a command up to its start.
fn running(legacy: bool) -> ExecState {
    let (state, action) = start_execute(args("ls"), legacy, &ShellMode::Direct, true, 100);
    assert_eq!(action, ExecAction::Derive { shell: None, cmd: "ls".to_string(), login: true });
    let (state, action) = exec_step(state, ExecEvent::Derived(vec!["bash".to_string()]));
    assert_eq!(action, ExecAction::CheckPermissions);
    let (state, action) =
        exec_step(state, ExecEvent::Permissions(permissions(false, false, false)));
    assert_eq!(action, ExecAction::Normalize { workdir: None });
    let (state, action) = exec_step(state, ExecEvent::Normalized(Ok(())));
    assert_eq!(action, ExecAction::Intercept);
    let (state, action) = exec_step(
        state,
        ExecEvent::Intercepted { shown: "bash".to_string(), result: Ok(None) },
    );
    let ExecAction::Run(request) = action else {
        panic!("the command should run");
    };
    assert_eq!(request.command, vec!["bash"]);
    assert_eq!(request.hook_command, "ls");
    assert_eq!(request.workdir, None);
    assert_eq!(
        request.run_mode,
        if legacy { ExecuteMode::Background } else { ExecuteMode::Blocking }
    );
    state
}

#[test]
fn a_blocking_command_is_waited_for() {
    let started = Ran::Started(output(b"one ", Some(3), None));
    let (state, action) = exec_step(running(false), ExecEvent::Ran(started));
    assert_eq!(
        action,
        ExecAction::Poll { process_id: 3, yield_time_ms: 10_000, max_output_tokens: 100 }
    );
    let more = ExecEvent::Polled(Ok(output(b"two ", Some(3), None)));
    let (state, action) = exec_step(state, more);
    assert!(matches!(action, ExecAction::Poll { process_id: 3, .. }));
    let last = ExecEvent::Polled(Ok(output(b"three", None, Some(0))));
    let (state, action) = exec_step(state, last);
    assert_eq!(state, ExecState::Over);
    let ExecAction::Finish { release: false, result: Ok(answer) } = action else {
        panic!("the command should be answered");
    };
    assert_eq!(answer.raw_output, b"one two three");
    assert_eq!(answer.exit_code, Some(0));
    assert_eq!(answer.wall_time_nanos, 15);
    assert_eq!(answer.original_token_count, Some(6));
}

#[test]
fn a_background_command_is_answered_at_once() {
    let started = output(b"one", Some(3), None);
    let (_, action) = exec_step(running(true), ExecEvent::Ran(Ran::Started(started)));
    assert!(matches!(action, ExecAction::Finish { release: false, result: Ok(_) }));
}

#[test]
fn a_command_can_fail_or_be_denied() {
    let failed = ExecEvent::Ran(Ran::Failed("no".to_string()));
    assert_eq!(
        exec_step(running(false), failed).1,
        ExecAction::Finish {
            release: false,
            result: Err(respond("execute failed for `bash`: no")),
        }
    );
    let denied = ExecEvent::Ran(Ran::Denied {
        call_id: "c".to_string(),
        chunk_id: "k".to_string(),
        wall_time_nanos: 9,
        text: "denied".to_string(),
        exit_code: 1,
        token_count: 2,
    });
    let (_, action) = exec_step(running(false), denied);
    let ExecAction::Finish { result: Ok(answer), .. } = action else {
        panic!("a denial is an answer");
    };
    assert_eq!(answer.raw_output, b"denied");
    assert_eq!(answer.process_id, None);
    assert_eq!(answer.hook_command, Some("ls".to_string()));
    let (_, action) =
        wait_for_process_exit(10, output(b"", Some(3), None), Err("gone".to_string()));
    assert_eq!(
        action,
        ExecAction::Finish {
            release: false,
            result: Err(respond("execute blocking wait failed: gone")),
        }
    );
}

#[test]
fn a_patch_is_answered_without_a_process() {
    let (state, _) = start_execute(args("p"), false, &ShellMode::Direct, true, 7);
    let (state, _) = exec_step(state, ExecEvent::Derived(vec!["bash".to_string()]));
    let (state, _) = exec_step(state, ExecEvent::Permissions(permissions(true, true, false)));
    let (state, _) = exec_step(state, ExecEvent::Normalized(Ok(())));
    let patched = ExecEvent::Intercepted {
        shown: String::new(),
        result: Ok(Some("done".to_string())),
    };
    let (_, action) = exec_step(state, patched);
    let ExecAction::Finish { release: true, result: Ok(answer) } = action else {
        panic!("a patch is an answer");
    };
    assert_eq!(answer.raw_output, b"done");
    assert_eq!(answer.exit_code, None);
}

#[test]
fn a_command_that_oversteps_is_rejected() {
    let (state, _) = start_execute(args("p"), false, &ShellMode::Direct, true, 7);
    let (state, _) = exec_step(state, ExecEvent::Derived(vec!["bash".to_string()]));
    let (_, action) = exec_step(state, ExecEvent::Permissions(permissions(true, false, false)));
    assert_eq!(
        action,
        ExecAction::Finish {
            release: true,
            result: Err(respond(
                "approval policy is Never; reject command — you cannot ask for escalated permissions if the approval policy is Never"
            )),
        }
    );
    assert!(additional_permissions_allowed(true, false, false));
    assert!(additional_permissions_allowed(false, true, true));
    assert!(!additional_permissions_allowed(false, true, false));
}

#[test]
fn login_shells_can_be_disabled() {
    let mut login = args("ls");
    login.login = Some(true);
    assert_eq!(
        get_command(&login, &ShellMode::Direct, false),
        Err("login shell is disabled by config; omit `login` or set it to false.".to_string())
    );
    let zsh = ShellMode::ZshFork { zsh_path: "/bin/zsh".to_string() };
    let line = |flag: &str| {
        Ok(CommandChoice::Command(vec![
            "/bin/zsh".to_string(),
            flag.to_string(),
            "ls".to_string(),
        ]))
    };
    assert_eq!(get_command(&args("ls"), &zsh, false), line("-c"));
    assert_eq!(get_command(&args("ls"), &zsh, true), line("-lc"));
    let (state, action) = start_execute(login, false, &ShellMode::Direct, false, 7);
    assert_eq!(state, ExecState::Over);
    assert!(matches!(action, ExecAction::Finish { release: false, result: Err(_) }));
}

#[test]
fn outputs_are_joined() {
    let joined = join_outputs(output(b"a", Some(1), None), output(b"b", None, Some(4)));
    assert_eq!(joined.raw_output, b"ab");
    assert_eq!(joined.process_id, None);
    assert_eq!(joined.exit_code, Some(4));
    assert_eq!(joined.original_token_count, Some(4));
}

#[test]
fn shell_ids_are_numbers() {
    assert_eq!(parse_shell_id("12"), Ok(12));
    assert_eq!(parse_shell_id("-3"), Ok(-3));
    assert_eq!(parse_i32("+7"), Some(7));
    assert_eq!(parse_i32("2147483647"), Some(i32::MAX));
    assert_eq!(parse_i32("-2147483648"), Some(i32::MIN));
    assert_eq!(parse_i32("2147483648"), None);
    assert_eq!(parse_i32(""), None);
    assert_eq!(parse_i32("-"), None);
    assert_eq!(
        parse_shell_id("x"),
        Err(respond(
            "invalid shell_id `x`: expected the id returned by execute mode=\"background\""
        ))
    );
}

#[test]
fn shell_tools_are_known_by_name() {
    let handler = UnifiedExecHandler;
    assert_eq!(handler.kind(), ToolKind::Function);
    assert!(handler.matches_kind(true));
    assert_eq!(handler.tool("execute", true, true), Ok(ShellTool::Execute { legacy: false }));
    assert_eq!(
        handler.tool("exec_command", true, true),
        Ok(ShellTool::Execute { legacy: true })
    );
    assert_eq!(
        handler.tool("execute", false, true),
        Err(respond("unified_exec handler received unsupported payload"))
    );
    assert_eq!(
        handler.tool("execute", true, false),
        Err(respond("unified exec is unavailable in this session"))
    );
    assert_eq!(
        handler.tool("nope", true, true),
        Err(respond("unsupported unified exec function nope"))
    );
}

#[test]
fn looking_at_shells_changes_nothing() {
    let handler = UnifiedExecHandler;
    assert!(!handler.is_mutating(true, "list_shells", None));
    assert!(handler.is_mutating(true, "stop_shell", Some(true)));
    assert!(!handler.is_mutating(true, "execute", Some(true)));
    assert!(handler.is_mutating(true, "execute", Some(false)));
    assert!(handler.is_mutating(true, "execute", None));
    assert!(handler.is_mutating(false, "list_shells", None));
}

#[test]
fn hooks_see_commands() {
    let handler = UnifiedExecHandler;
    assert_eq!(
        handler.pre_tool_use_payload("execute", false, true, Some("ls")),
        Some("ls".to_string())
    );
    assert_eq!(handler.pre_tool_use_payload("execute", true, true, Some("ls")), None);
    assert_eq!(handler.pre_tool_use_payload("list_shells", false, true, Some("ls")), None);
    assert_eq!(
        handler.post_tool_use_payload("execute", true, "call", "", Some("ls")),
        Some(PostToolUse { tool_use_id: "call".to_string(), command: "ls".to_string() })
    );
    assert_eq!(
        handler
            .post_tool_use_payload("execute", true, "call", "event", Some("ls"))
            .unwrap()
            .tool_use_id,
        "event"
    );
    assert_eq!(handler.post_tool_use_payload("stop_shell", true, "c", "", Some("ls")), None);
    assert_eq!(handler.post_tool_use_payload("execute", true, "c", "", None), None);
}

fn shell(id: &str, runtime_secs: u64) -> ActiveShell {
    ActiveShell { shell_id: id.to_string(), runtime_secs, command: "npm run dev".to_string() }
}

#[test]
fn shells_are_listed_and_stopped() {
    assert_eq!(shell_list_text(&[]), "No active shells.");
    assert_eq!(
        shell_list_text(&[shell("1", 59), shell("2", 125)]),
        "2 active shell(s):\n- shell_id: 1, runtime: 59s, command: npm run dev\n- shell_id: 2, runtime: 2m 5s, command: npm run dev"
    );
    assert_eq!(shell_stop_text(&shell("2", 60)), "Stopped shell 2 after 1m 0s: npm run dev");
    assert_eq!(format_duration(3_725), "62m 5s");
    let listed = shell_list_response(&[], 4, "k".to_string());
    assert_eq!(listed.raw_output, b"No active shells.");
    assert_eq!(listed.exit_code, Some(0));
    let stopped = shell_stop_response(&shell("2", 60), 4, "k".to_string());
    assert_eq!(stopped.shell_id, Some("2".to_string()));
}

#[test]
fn bytes_that_are_no_text_are_shown_all_the_same() {
    let shown = exec_output_from_response(&output(b"a\xffb", None, None));
    assert_eq!(shown.aggregated_output, "a\u{fffd}b");
    assert_eq!(shown.exit_code, 0);
    assert_eq!(shown.duration_nanos, 5);
    assert_eq!(exec_output_from_response(&output(b"", None, Some(3))).exit_code, 3);
}

#[test]
fn shell_calls_are_shown_as_commands() {
    assert_eq!(
        shell_output_tool_command("read_shell_output", "4"),
        vec!["bash", "-lc", "read_shell_output 4"]
    );
    assert_eq!(
        shell_management_tool_command("list_shells", None),
        vec!["bash", "-lc", "list_shells"]
    );
    assert_eq!(
        shell_failure_message("stop_shell", "4", "gone"),
        "stop_shell failed for shell 4: gone"
    );
    assert_eq!(
        write_stdin_error(-4, "gone"),
        respond("write_stdin failed for process -4: gone")
    );
    assert_eq!(effective_max_output_tokens(10, 5), 5);
    assert_eq!(effective_max_output_tokens(4, 5), 4);
    assert_eq!(default_exec_yield_time_ms(), 10_000);
    assert_eq!(default_write_stdin_yield_time_ms(), 250);
}

#[test]
fn shell_calls_ask_the_manager() {
    let wait = ShellCall::Wait {
        shell_id: "4".to_string(),
        yield_time_ms: Some(9),
        max_output_tokens: 7,
    };
    let begin = begin_shell_call(&wait).unwrap();
    assert_eq!(
        begin.request,
        ShellRequest::Wait { process_id: 4, yield_time_ms: Some(9), max_output_tokens: 7 }
    );
    assert_eq!(
        begin.announced,
        Some(vec!["bash".to_string(), "-lc".to_string(), "wait_shell_output 4".to_string()])
    );
    let end = end_shell_call(wait, ShellReply::Response(output(b"x", Some(4), None)));
    let ShellReport::Success(told) = end.report else {
        panic!("success should be reported");
    };
    assert_eq!(told.stdout, "x");
    assert_eq!(end.result, Ok(output(b"x", Some(4), None)));

    let read = ShellCall::Read { shell_id: "4".to_string(), max_output_tokens: 7 };
    assert_eq!(
        begin_shell_call(&read).unwrap().request,
        ShellRequest::Read { process_id: 4, max_output_tokens: 7 }
    );
    let end = end_shell_call(read, ShellReply::Failed("gone".to_string()));
    let message = "read_shell_output failed for shell 4: gone";
    assert_eq!(end.report, ShellReport::Failure(message.to_string()));
    assert_eq!(end.result, Err(respond(message)));

    assert!(begin_shell_call(&ShellCall::Stop { shell_id: "x".to_string() }).is_err());
    let stop = ShellCall::Stop { shell_id: "5".to_string() };
    assert_eq!(
        begin_shell_call(&stop).unwrap().request,
        ShellRequest::Terminate { process_id: 5 }
    );
    let stopped =
        ShellReply::Stopped { shell: shell("5", 1), token_count: 3, chunk_id: "k".to_string() };
    let end = end_shell_call(stop, stopped);
    assert_eq!(end.result.unwrap().raw_output, b"Stopped shell 5 after 1s: npm run dev");

    assert_eq!(begin_shell_call(&ShellCall::List).unwrap().request, ShellRequest::List);
    let shells =
        ShellReply::Shells { shells: Vec::new(), token_count: 3, chunk_id: "k".to_string() };
    let end = end_shell_call(ShellCall::List, shells);
    assert_eq!(end.result.unwrap().raw_output, b"No active shells.");
}

#[test]
fn typing_into_a_process_is_reported_as_such() {
    let write = || ShellCall::Write {
        process_id: 6,
        chars: "y\n".to_string(),
        yield_time_ms: 10,
        max_output_tokens: 7,
    };
    let begin = begin_shell_call(&write()).unwrap();
    assert_eq!(begin.announced, None);
    assert_eq!(
        begin.request,
        ShellRequest::Write {
            process_id: 6,
            input: "y\n".to_string(),
            yield_time_ms: 10,
            max_output_tokens: 7,
        }
    );
    let end = end_shell_call(write(), ShellReply::Response(output(b"", Some(6), None)));
    assert_eq!(
        end.report,
        ShellReport::Interaction {
            call_id: "call".to_string(),
            process_id: "6".to_string(),
            stdin: "y\n".to_string(),
        }
    );
    let end = end_shell_call(write(), ShellReply::Failed("gone".to_string()));
    assert_eq!(end.report, ShellReport::Silent);
    assert_eq!(end.result, Err(respond("write_stdin failed for process 6: gone")));
}

#[test]
fn written_shell_ids_are_read_back() {
    for id in [0, 7, 1000, -1, i32::MAX, i32::MIN] {
        assert_eq!(parse_shell_id(&id.to_string()), Ok(id));
    }
}
