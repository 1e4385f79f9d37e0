use codex_tools_core::local_tool::{
    create_approval_parameters, create_execute_tool, create_list_shells_tool,
    create_read_shell_output_tool, create_request_permissions_tool, create_shell_command_tool,
    create_shell_tool, create_stop_shell_tool, create_wait_shell_output_tool, execute_tool,
    permission_profile_schema, request_permissions_tool_description, shell_command_tool,
    shell_tool, unified_exec_output_schema, CommandToolOptions, ShellToolOptions,
    WINDOWS_SHELL_GUIDANCE,
};
use codex_tools_core::schema::{JsonSchema, ResponsesApiTool, SchemaMap, ToolSpec};

fn on_windows() -> bool {
    std::path::MAIN_SEPARATOR == '\\'
}

fn windows_shell_guidance_description() -> String {
    format!("\n\n{}", WINDOWS_SHELL_GUIDANCE)
}

fn function(
    name: &str,
    description: String,
    properties: SchemaMap,
    required: Vec<String>,
    output_schema: Option<JsonSchema>,
) -> ToolSpec {
    ToolSpec::Function(ResponsesApiTool {
        name: name.to_string(),
        description,
        strict: false,
        defer_loading: None,
        parameters: JsonSchema::object(properties, Some(required), Some(false)),
        output_schema,
    })
}

fn of(tool: ToolSpec) -> ResponsesApiTool {
    let ToolSpec::Function(function) = tool;
    function
}

fn shell_description(windows: bool) -> String {
    if windows {
        r#"Runs a Powershell command (Windows) and returns its output. Arguments to `shell` will be passed to CreateProcessW(). Most commands should be prefixed with ["powershell.exe", "-Command"].

Examples of valid command strings:

- ls -a (show hidden): ["powershell.exe", "-Command", "Get-ChildItem -Force"]
- recursive find by name: ["powershell.exe", "-Command", "Get-ChildItem -Recurse -Filter *.py"]
- recursive grep: ["powershell.exe", "-Command", "Get-ChildItem -Path C:\\myrepo -Recurse | Select-String -Pattern 'TODO' -CaseSensitive"]
- ps aux | grep python: ["powershell.exe", "-Command", "Get-Process | Where-Object { $_.ProcessName -like '*python*' }"]
- setting an env var: ["powershell.exe", "-Command", "$env:FOO='bar'; echo $env:FOO"]
- running an inline Python script: ["powershell.exe", "-Command", "@'\\nprint('Hello, world!')\\n'@ | python -"]"#
            .to_string()
            + &windows_shell_guidance_description()
    } else {
        r#"Runs a shell command and returns its output.
- The arguments to `shell` will be passed to execvp(). Most terminal commands should be prefixed with ["bash", "-lc"].
- Always set the `workdir` param when using the shell function. Do not use `cd` unless absolutely necessary."#
            .to_string()
    }
}

#[test]
fn shell_tool_matches_expected_spec() {
    let properties = SchemaMap::from_entries(vec![
        (
            "command".to_string(),
            JsonSchema::array(JsonSchema::string(/*description*/ None), Some("The command to execute".to_string())),
        ),
        (
            "workdir".to_string(),
            JsonSchema::string(Some("The working directory to execute the command in".to_string())),
        ),
        (
            "timeout_ms".to_string(),
            JsonSchema::number(Some("The timeout for the command in milliseconds".to_string())),
        ),
        (
            "sandbox_permissions".to_string(),
            JsonSchema::string(Some(
                    "Sandbox permissions for the command. Set to \"require_escalated\" to request running without sandbox restrictions; defaults to \"use_default\"."
                        .to_string(),
                )),
        ),
        (
            "justification".to_string(),
            JsonSchema::string(Some(
                    r#"Only set if sandbox_permissions is \"require_escalated\".
                    Request approval from the user to run this command outside the sandbox.
                    Phrased as a simple question that summarizes the purpose of the
                    command as it relates to the task at hand - e.g. 'Do you want to
                    fetch and pull the latest version of this git branch?'"#
                        .to_string(),
                )),
        ),
        (
            "prefix_rule".to_string(),
            JsonSchema::array(JsonSchema::string(/*description*/ None), Some(
                    r#"Only specify when sandbox_permissions is `require_escalated`.
                        Suggest a prefix command pattern that will allow you to fulfill similar requests from the user in the future.
                        Should be a short but reasonable prefix, e.g. [\"git\", \"pull\"] or [\"uv\", \"run\"] or [\"pytest\"]."#
                        .to_string(),
                )),
        ),
    ]);
    let tool = create_shell_tool(ShellToolOptions { exec_permission_approvals_enabled: false });
    assert_eq!(
        tool,
        function(
            "shell",
            shell_description(on_windows()),
            properties,
            vec!["command".to_string()],
            None,
        )
    );
}

#[test]
fn shell_tool_on_windows_adds_safety_rules() {
    let options = ShellToolOptions { exec_permission_approvals_enabled: false };
    assert_eq!(of(shell_tool(options, true)).description, shell_description(true));
    assert_eq!(of(shell_tool(options, false)).description, shell_description(false));
}

fn execute_description(windows: bool) -> String {
    let plain = "Runs a command in a PTY. Defaults to mode=\"blocking\"; use mode=\"background\" to keep it running. Plain rg/grep/cat file inspection must use the existing file tools instead.";
    if windows {
        format!("{plain}{}", windows_shell_guidance_description())
    } else {
        plain.to_string()
    }
}

#[test]
fn execute_tool_matches_expected_spec() {
    let mut properties = SchemaMap::from_entries(vec![
        (
            "cmd".to_string(),
            JsonSchema::string(Some("Shell command to execute.".to_string())),
        ),
        (
            "workdir".to_string(),
            JsonSchema::string(Some(
                    "Optional working directory to run the command in; defaults to the turn cwd."
                        .to_string(),
                )),
        ),
        (
            "shell".to_string(),
            JsonSchema::string(Some(
                    "Shell binary to launch. Defaults to the user's default shell.".to_string(),
                )),
        ),
        (
            "tty".to_string(),
            JsonSchema::boolean(Some(
                    "Whether to allocate a TTY for the command. Defaults to false (plain pipes); set to true to open a PTY and access TTY process."
                        .to_string(),
                )),
        ),
        (
            "mode".to_string(),
            JsonSchema::string(Some(
                "Execution mode: \"blocking\" waits for completion; \"background\" returns after startup with a shell id. Defaults to \"blocking\"."
                    .to_string(),
            )),
        ),
        (
            "yield_time_ms".to_string(),
            JsonSchema::number(Some(
                    "How long to wait (in milliseconds) for output before yielding.".to_string(),
                )),
        ),
        (
            "max_output_tokens".to_string(),
            JsonSchema::number(Some(
                    "Maximum number of tokens to return. Excess output will be truncated."
                        .to_string(),
                )),
        ),
        (
            "login".to_string(),
            JsonSchema::boolean(Some(
                    "Whether to run the shell with -l/-i semantics. Defaults to true.".to_string(),
                )),
        ),
    ]);
    create_approval_parameters(&mut properties, false);
    let tool = create_execute_tool(CommandToolOptions {
        allow_login_shell: true,
        exec_permission_approvals_enabled: false,
    });
    assert_eq!(
        tool,
        function(
            "execute",
            execute_description(on_windows()),
            properties,
            vec!["cmd".to_string()],
            Some(unified_exec_output_schema()),
        )
    );
}

#[test]
fn execute_tool_without_login_shell_has_no_login_parameter() {
    let options = CommandToolOptions {
        allow_login_shell: false,
        exec_permission_approvals_enabled: false,
    };
    let tool = of(execute_tool(options, true));
    assert_eq!(tool.description, execute_description(true));
    let JsonSchema::Object { properties, .. } = tool.parameters else {
        panic!("parameters are an object");
    };
    let names: Vec<String> =
        (0..properties.len()).map(|i| properties.entry(i).0.to_string()).collect();
    assert_eq!(
        names,
        vec![
            "cmd",
            "justification",
            "max_output_tokens",
            "mode",
            "prefix_rule",
            "sandbox_permissions",
            "shell",
            "tty",
            "workdir",
            "yield_time_ms",
        ]
    );
}

#[test]
fn shell_management_tools_match_expected_specs() {
    assert_eq!(
        create_list_shells_tool(),
        function(
            "list_shells",
            "Lists all active background shells that are still running in this Codex process."
                .to_string(),
            SchemaMap::new(),
            Vec::new(),
            Some(unified_exec_output_schema()),
        )
    );
    assert_eq!(
        create_stop_shell_tool(),
        function(
            "stop_shell",
            "Stops an active background shell by shell id.".to_string(),
            SchemaMap::from_entries(vec![(
                "shell_id".to_string(),
                JsonSchema::string(Some(
                    "Shell id returned by execute mode=\"background\".".to_string(),
                )),
            )]),
            vec!["shell_id".to_string()],
            Some(unified_exec_output_schema()),
        )
    );
}

#[test]
fn shell_output_tools_name_their_parameters() {
    let read = of(create_read_shell_output_tool());
    let wait = of(create_wait_shell_output_tool());
    assert_eq!(read.name, "read_shell_output");
    assert_eq!(wait.name, "wait_shell_output");
    assert_eq!(read.output_schema, Some(unified_exec_output_schema()));
    assert_eq!(wait.output_schema, Some(unified_exec_output_schema()));
}

#[test]
fn shell_tool_with_request_permission_includes_additional_permissions() {
    let mut properties = SchemaMap::from_entries(vec![
        (
            "command".to_string(),
            JsonSchema::array(
                JsonSchema::string(/*description*/ None),
                Some("The command to execute".to_string()),
            ),
        ),
        (
            "workdir".to_string(),
            JsonSchema::string(Some(
                "The working directory to execute the command in".to_string(),
            )),
        ),
        (
            "timeout_ms".to_string(),
            JsonSchema::number(Some(
                "The timeout for the command in milliseconds".to_string(),
            )),
        ),
    ]);
    create_approval_parameters(&mut properties, true);
    let tool = create_shell_tool(ShellToolOptions { exec_permission_approvals_enabled: true });
    assert_eq!(
        tool,
        function(
            "shell",
            shell_description(on_windows()),
            properties,
            vec!["command".to_string()],
            None,
        )
    );
}

#[test]
fn request_permissions_tool_includes_full_permission_schema() {
    let properties = SchemaMap::from_entries(vec![
        (
            "reason".to_string(),
            JsonSchema::string(Some(
                "Optional short explanation for why additional permissions are needed.".to_string(),
            )),
        ),
        ("permissions".to_string(), permission_profile_schema()),
    ]);
    assert_eq!(
        create_request_permissions_tool("Request extra permissions for this turn.".to_string()),
        function(
            "request_permissions",
            "Request extra permissions for this turn.".to_string(),
            properties,
            vec!["permissions".to_string()],
            None,
        )
    );
    assert!(request_permissions_tool_description().starts_with("Request additional filesystem"));
}

fn shell_command_description(windows: bool) -> String {
    if windows {
        r#"Runs a Powershell command (Windows) and returns its output.

Examples of valid command strings:

- ls -a (show hidden): "Get-ChildItem -Force"
- recursive find by name: "Get-ChildItem -Recurse -Filter *.py"
- recursive grep: "Get-ChildItem -Path C:\\myrepo -Recurse | Select-String -Pattern 'TODO' -CaseSensitive"
- ps aux | grep python: "Get-Process | Where-Object { $_.ProcessName -like '*python*' }"
- setting an env var: "$env:FOO='bar'; echo $env:FOO"
- running an inline Python script: "@'\\nprint('Hello, world!')\\n'@ | python -""#
            .to_string()
            + &windows_shell_guidance_description()
    } else {
        r#"Runs a shell command and returns its output.
- Always set the `workdir` param when using the shell_command function. Do not use `cd` unless absolutely necessary."#
            .to_string()
    }
}

#[test]
fn shell_command_tool_matches_expected_spec() {
    let mut properties = SchemaMap::from_entries(vec![
        (
            "command".to_string(),
            JsonSchema::string(Some(
                "The shell script to execute in the user's default shell".to_string(),
            )),
        ),
        (
            "workdir".to_string(),
            JsonSchema::string(Some(
                "The working directory to execute the command in".to_string(),
            )),
        ),
        (
            "timeout_ms".to_string(),
            JsonSchema::number(Some(
                "The timeout for the command in milliseconds".to_string(),
            )),
        ),
        (
            "login".to_string(),
            JsonSchema::boolean(Some(
                "Whether to run the shell with login shell semantics. Defaults to true."
                    .to_string(),
            )),
        ),
    ]);
    create_approval_parameters(&mut properties, false);
    let options = CommandToolOptions {
        allow_login_shell: true,
        exec_permission_approvals_enabled: false,
    };
    assert_eq!(
        create_shell_command_tool(options),
        function(
            "shell_command",
            shell_command_description(on_windows()),
            properties,
            vec!["command".to_string()],
            None,
        )
    );
    assert_eq!(
        of(shell_command_tool(options, true)).description,
        shell_command_description(true)
    );
}
