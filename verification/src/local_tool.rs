//! The tools that run commands, as the model sees them.
use vstd::prelude::*;
use vstd::string::*;

use crate::schema::{JsonSchema, Schema, SchemaMap, ToolSpec};
use crate::tool_parts::{
    a_flag, a_number, a_record, a_text, flag_schema, function_tool, is_function, number_schema,
    some_texts, text_schema, texts_schema,
};
use crate::text::{owned, texts};

verus! {

/// What a tool that runs commands may offer.
#[derive(Clone, Copy, Debug, PartialEq, Eq, Structural)]
pub struct CommandToolOptions {
    pub allow_login_shell: bool,
    pub exec_permission_approvals_enabled: bool,
}

/// What a tool that runs programs may offer.
#[derive(Clone, Copy, Debug, PartialEq, Eq, Structural)]
pub struct ShellToolOptions {
    pub exec_permission_approvals_enabled: bool,
}

/// How to use a shell safely on Windows.
pub const WINDOWS_SHELL_GUIDANCE: &'static str = "Windows safety rules:\n- Do not compose destructive filesystem commands across shells. Do not enumerate paths in PowerShell and then pass them to `cmd /c`, batch builtins, or another shell for deletion or moving. Use one shell end-to-end, prefer native PowerShell cmdlets such as `Remove-Item` / `Move-Item` with `-LiteralPath`, and avoid string-built shell commands for file operations.\n- Before any recursive delete or move on Windows, verify the resolved absolute target paths stay within the intended workspace or explicitly named target directory. Never issue a recursive delete or move against a computed path if the final target has not been checked.\n- When using `Start-Process` to launch a background helper or service, pass `-WindowStyle Hidden` unless the user explicitly asked for a visible interactive window. Use visible windows only for interactive tools the user needs to see or control.";

/// What the tool that runs a command is for.
pub const EXECUTE_DESCRIPTION: &'static str = "Runs a command in a PTY. Defaults to mode=\"blocking\"; use mode=\"background\" to keep it running. Plain rg/grep/cat file inspection must use the existing file tools instead.";

/// What the tool that runs a program is for.
pub const SHELL_DESCRIPTION: &'static str = "Runs a shell command and returns its output.\n- The arguments to `shell` will be passed to execvp(). Most terminal commands should be prefixed with [\"bash\", \"-lc\"].\n- Always set the `workdir` param when using the shell function. Do not use `cd` unless absolutely necessary.";

/// What the tool that runs a program is for on Windows.
pub const SHELL_WINDOWS_DESCRIPTION: &'static str = "Runs a Powershell command (Windows) and returns its output. Arguments to `shell` will be passed to CreateProcessW(). Most commands should be prefixed with [\"powershell.exe\", \"-Command\"].\n\nExamples of valid command strings:\n\n- ls -a (show hidden): [\"powershell.exe\", \"-Command\", \"Get-ChildItem -Force\"]\n- recursive find by name: [\"powershell.exe\", \"-Command\", \"Get-ChildItem -Recurse -Filter *.py\"]\n- recursive grep: [\"powershell.exe\", \"-Command\", \"Get-ChildItem -Path C:\\\\myrepo -Recurse | Select-String -Pattern 'TODO' -CaseSensitive\"]\n- ps aux | grep python: [\"powershell.exe\", \"-Command\", \"Get-Process | Where-Object { $_.ProcessName -like '*python*' }\"]\n- setting an env var: [\"powershell.exe\", \"-Command\", \"$env:FOO='bar'; echo $env:FOO\"]\n- running an inline Python script: [\"powershell.exe\", \"-Command\", \"@'\\\\nprint('Hello, world!')\\\\n'@ | python -\"]\n\n";

/// What the tool that runs a script is for.
pub const SHELL_COMMAND_DESCRIPTION: &'static str = "Runs a shell command and returns its output.\n- Always set the `workdir` param when using the shell_command function. Do not use `cd` unless absolutely necessary.";

/// What the tool that runs a script is for on Windows.
pub const SHELL_COMMAND_WINDOWS_DESCRIPTION: &'static str = "Runs a Powershell command (Windows) and returns its output.\n\nExamples of valid command strings:\n\n- ls -a (show hidden): \"Get-ChildItem -Force\"\n- recursive find by name: \"Get-ChildItem -Recurse -Filter *.py\"\n- recursive grep: \"Get-ChildItem -Path C:\\\\myrepo -Recurse | Select-String -Pattern 'TODO' -CaseSensitive\"\n- ps aux | grep python: \"Get-Process | Where-Object { $_.ProcessName -like '*python*' }\"\n- setting an env var: \"$env:FOO='bar'; echo $env:FOO\"\n- running an inline Python script: \"@'\\\\nprint('Hello, world!')\\\\n'@ | python -\"\n\n";

/// How to leave the sandbox, or to ask for rights inside it.
pub const SANDBOX_WITH_ADDITIONS: &'static str = "Sandbox permissions for the command. Use \"with_additional_permissions\" to request additional sandboxed filesystem or network permissions (preferred), or \"require_escalated\" to request running without sandbox restrictions; defaults to \"use_default\".";

/// How to leave the sandbox.
pub const SANDBOX_ONLY: &'static str = "Sandbox permissions for the command. Set to \"require_escalated\" to request running without sandbox restrictions; defaults to \"use_default\".";

/// How to ask the user.
pub const JUSTIFICATION: &'static str = "Only set if sandbox_permissions is \\\"require_escalated\\\".\n                    Request approval from the user to run this command outside the sandbox.\n                    Phrased as a simple question that summarizes the purpose of the\n                    command as it relates to the task at hand - e.g. 'Do you want to\n                    fetch and pull the latest version of this git branch?'";

/// How to ask for more than one command.
pub const PREFIX_RULE: &'static str = "Only specify when sandbox_permissions is `require_escalated`.\n                        Suggest a prefix command pattern that will allow you to fulfill similar requests from the user in the future.\n                        Should be a short but reasonable prefix, e.g. [\\\"git\\\", \\\"pull\\\"] or [\\\"uv\\\", \\\"run\\\"] or [\\\"pytest\\\"].";

/// What the tool that asks for rights is for.
pub const REQUEST_PERMISSIONS_DESCRIPTION: &'static str = "Request additional filesystem or network permissions from the user and wait for the client to grant a subset of the requested permission profile. Granted permissions apply automatically to later shell-like commands in the current turn, or for the rest of the session if the client approves them at session scope.";

/// The parts of the following.
pub open spec fn unified_exec_output_properties() -> Map<Seq<char>, Schema> {
    map![
        "chunk_id"@ => a_text("Chunk identifier included when the response reports one."),
        "wall_time_seconds"@ => a_number("Elapsed wall time spent waiting for output in seconds."),
        "exit_code"@ => a_number("Process exit code when the command finished during this call."),
        "process_id"@ => a_number("Process identifier returned when a background command is still running."),
        "shell_id"@ => a_text("Stable shell identifier for background output tools in the current session."),
        "original_token_count"@ => a_number("Approximate token count before output truncation."),
        "output"@ => a_text("Command output text, possibly truncated."),
    ]
}

fn unified_exec_output_map() -> (r: SchemaMap)
    ensures
        r@ == unified_exec_output_properties(),
{
    let mut properties = SchemaMap::new();
    properties.insert("chunk_id", text_schema("Chunk identifier included when the response reports one."));
    properties.insert("wall_time_seconds", number_schema("Elapsed wall time spent waiting for output in seconds."));
    properties.insert("exit_code", number_schema("Process exit code when the command finished during this call."));
    properties.insert("process_id", number_schema("Process identifier returned when a background command is still running."));
    properties.insert("shell_id", text_schema("Stable shell identifier for background output tools in the current session."));
    properties.insert("original_token_count", number_schema("Approximate token count before output truncation."));
    properties.insert("output", text_schema("Command output text, possibly truncated."));
    properties
}

/// What the shell tools give back.
pub open spec fn unified_exec_output() -> Schema {
    a_record(unified_exec_output_properties(), Some(seq!["wall_time_seconds"@, "output"@]))
}

/// What the shell tools give back.
pub fn unified_exec_output_schema() -> (r: JsonSchema)
    ensures
        r.model() == unified_exec_output(),
{
    let mut required: Vec<String> = Vec::new();
    required.push(owned("wall_time_seconds"));
    required.push(owned("output"));
    assert(texts(required@) =~= seq!["wall_time_seconds"@, "output"@]);
    JsonSchema::object(unified_exec_output_map(), Some(required), Some(false))
}

/// The parts of the following.
pub open spec fn network_permissions_properties() -> Map<Seq<char>, Schema> {
    map![
        "enabled"@ => a_flag("Set to true to request network access."),
    ]
}

fn network_permissions_map() -> (r: SchemaMap)
    ensures
        r@ == network_permissions_properties(),
{
    let mut properties = SchemaMap::new();
    properties.insert("enabled", flag_schema("Set to true to request network access."));
    properties
}

/// Access to the network.
pub open spec fn network_permissions() -> Schema {
    a_record(network_permissions_properties(), None)
}

/// Access to the network.
pub fn network_permissions_schema() -> (r: JsonSchema)
    ensures
        r.model() == network_permissions(),
{
    JsonSchema::object(network_permissions_map(), None, Some(false))
}

/// The parts of the following.
pub open spec fn file_system_permissions_properties() -> Map<Seq<char>, Schema> {
    map![
        "read"@ => some_texts("Absolute paths to grant read access to."),
        "write"@ => some_texts("Absolute paths to grant write access to."),
    ]
}

fn file_system_permissions_map() -> (r: SchemaMap)
    ensures
        r@ == file_system_permissions_properties(),
{
    let mut properties = SchemaMap::new();
    properties.insert("read", texts_schema("Absolute paths to grant read access to."));
    properties.insert("write", texts_schema("Absolute paths to grant write access to."));
    properties
}

/// Access to files.
pub open spec fn file_system_permissions() -> Schema {
    a_record(file_system_permissions_properties(), None)
}

/// Access to files.
pub fn file_system_permissions_schema() -> (r: JsonSchema)
    ensures
        r.model() == file_system_permissions(),
{
    JsonSchema::object(file_system_permissions_map(), None, Some(false))
}

/// The parts of the following.
pub open spec fn permission_profile_properties() -> Map<Seq<char>, Schema> {
    map![
        "network"@ => network_permissions(),
        "file_system"@ => file_system_permissions(),
    ]
}

fn permission_profile_map() -> (r: SchemaMap)
    ensures
        r@ == permission_profile_properties(),
{
    let mut properties = SchemaMap::new();
    properties.insert("network", network_permissions_schema());
    properties.insert("file_system", file_system_permissions_schema());
    properties
}

/// Rights beyond those of the session.
pub open spec fn permission_profile() -> Schema {
    a_record(permission_profile_properties(), None)
}

/// Rights beyond those of the session.
pub fn permission_profile_schema() -> (r: JsonSchema)
    ensures
        r.model() == permission_profile(),
{
    JsonSchema::object(permission_profile_map(), None, Some(false))
}

/// What a command takes in any case.
pub open spec fn execute_properties() -> Map<Seq<char>, Schema> {
    map![
        "cmd"@ => a_text("Shell command to execute."),
        "workdir"@ => a_text("Optional working directory to run the command in; defaults to the turn cwd."),
        "shell"@ => a_text("Shell binary to launch. Defaults to the user's default shell."),
        "tty"@ => a_flag("Whether to allocate a TTY for the command. Defaults to false (plain pipes); set to true to open a PTY and access TTY process."),
        "mode"@ => a_text("Execution mode: \"blocking\" waits for completion; \"background\" returns after startup with a shell id. Defaults to \"blocking\"."),
        "yield_time_ms"@ => a_number("How long to wait (in milliseconds) for output before yielding."),
        "max_output_tokens"@ => a_number("Maximum number of tokens to return. Excess output will be truncated."),
    ]
}

fn execute_map() -> (r: SchemaMap)
    ensures
        r@ == execute_properties(),
{
    let mut properties = SchemaMap::new();
    properties.insert("cmd", text_schema("Shell command to execute."));
    properties.insert("workdir", text_schema("Optional working directory to run the command in; defaults to the turn cwd."));
    properties.insert("shell", text_schema("Shell binary to launch. Defaults to the user's default shell."));
    properties.insert("tty", flag_schema("Whether to allocate a TTY for the command. Defaults to false (plain pipes); set to true to open a PTY and access TTY process."));
    properties.insert("mode", text_schema("Execution mode: \"blocking\" waits for completion; \"background\" returns after startup with a shell id. Defaults to \"blocking\"."));
    properties.insert("yield_time_ms", number_schema("How long to wait (in milliseconds) for output before yielding."));
    properties.insert("max_output_tokens", number_schema("Maximum number of tokens to return. Excess output will be truncated."));
    properties
}

/// What the tool takes.
pub open spec fn read_shell_output_properties() -> Map<Seq<char>, Schema> {
    map![
        "shell_id"@ => a_text("Shell id returned by execute mode=\"background\"."),
        "max_output_tokens"@ => a_number("Maximum number of tokens to return. Excess output will be truncated."),
    ]
}

fn read_shell_output_map() -> (r: SchemaMap)
    ensures
        r@ == read_shell_output_properties(),
{
    let mut properties = SchemaMap::new();
    properties.insert("shell_id", text_schema("Shell id returned by execute mode=\"background\"."));
    properties.insert("max_output_tokens", number_schema("Maximum number of tokens to return. Excess output will be truncated."));
    properties
}

/// Reads what a background shell has put out.
pub fn create_read_shell_output_tool() -> (r: ToolSpec)
    ensures
        is_function(
            r,
            "read_shell_output",
            "Reads the retained output for a background shell in the current session."@,
            read_shell_output_properties(),
            Some(seq!["shell_id"@]),
            Some(unified_exec_output()),
        ),
{
    let mut required: Vec<String> = Vec::new();
    required.push(owned("shell_id"));
    assert(texts(required@) =~= seq!["shell_id"@]);
    function_tool(
        "read_shell_output",
        "Reads the retained output for a background shell in the current session.",
        read_shell_output_map(),
        Some(required),
        Some(unified_exec_output_schema()),
    )
}

/// What the tool takes.
pub open spec fn wait_shell_output_properties() -> Map<Seq<char>, Schema> {
    map![
        "shell_id"@ => a_text("Shell id returned by execute mode=\"background\"."),
        "yield_time_ms"@ => a_number("Maximum time in milliseconds to block while waiting for the next output."),
        "max_output_tokens"@ => a_number("Maximum number of tokens to return. Excess output will be truncated."),
    ]
}

fn wait_shell_output_map() -> (r: SchemaMap)
    ensures
        r@ == wait_shell_output_properties(),
{
    let mut properties = SchemaMap::new();
    properties.insert("shell_id", text_schema("Shell id returned by execute mode=\"background\"."));
    properties.insert("yield_time_ms", number_schema("Maximum time in milliseconds to block while waiting for the next output."));
    properties.insert("max_output_tokens", number_schema("Maximum number of tokens to return. Excess output will be truncated."));
    properties
}

/// Waits for the output of a background shell.
pub fn create_wait_shell_output_tool() -> (r: ToolSpec)
    ensures
        is_function(
            r,
            "wait_shell_output",
            "Blocks until the background shell emits output after this call starts, or until the wait timeout expires."@,
            wait_shell_output_properties(),
            Some(seq!["shell_id"@]),
            Some(unified_exec_output()),
        ),
{
    let mut required: Vec<String> = Vec::new();
    required.push(owned("shell_id"));
    assert(texts(required@) =~= seq!["shell_id"@]);
    function_tool(
        "wait_shell_output",
        "Blocks until the background shell emits output after this call starts, or until the wait timeout expires.",
        wait_shell_output_map(),
        Some(required),
        Some(unified_exec_output_schema()),
    )
}

/// What the tool takes.
pub open spec fn list_shells_properties() -> Map<Seq<char>, Schema> {
    Map::empty()
}

fn list_shells_map() -> (r: SchemaMap)
    ensures
        r@ == list_shells_properties(),
{
    let properties = SchemaMap::new();
    properties
}

/// Lists the background shells.
pub fn create_list_shells_tool() -> (r: ToolSpec)
    ensures
        is_function(
            r,
            "list_shells",
            "Lists all active background shells that are still running in this Codex process."@,
            list_shells_properties(),
            Some(Seq::empty()),
            Some(unified_exec_output()),
        ),
{
    let mut required: Vec<String> = Vec::new();
    assert(texts(required@) =~= Seq::<Seq<char>>::empty());
    function_tool(
        "list_shells",
        "Lists all active background shells that are still running in this Codex process.",
        list_shells_map(),
        Some(required),
        Some(unified_exec_output_schema()),
    )
}

/// What the tool takes.
pub open spec fn stop_shell_properties() -> Map<Seq<char>, Schema> {
    map![
        "shell_id"@ => a_text("Shell id returned by execute mode=\"background\"."),
    ]
}

fn stop_shell_map() -> (r: SchemaMap)
    ensures
        r@ == stop_shell_properties(),
{
    let mut properties = SchemaMap::new();
    properties.insert("shell_id", text_schema("Shell id returned by execute mode=\"background\"."));
    properties
}

/// Stops a background shell.
pub fn create_stop_shell_tool() -> (r: ToolSpec)
    ensures
        is_function(
            r,
            "stop_shell",
            "Stops an active background shell by shell id."@,
            stop_shell_properties(),
            Some(seq!["shell_id"@]),
            Some(unified_exec_output()),
        ),
{
    let mut required: Vec<String> = Vec::new();
    required.push(owned("shell_id"));
    assert(texts(required@) =~= seq!["shell_id"@]);
    function_tool(
        "stop_shell",
        "Stops an active background shell by shell id.",
        stop_shell_map(),
        Some(required),
        Some(unified_exec_output_schema()),
    )
}

/// What a program call takes in any case.
pub open spec fn shell_properties() -> Map<Seq<char>, Schema> {
    map![
        "command"@ => some_texts("The command to execute"),
        "workdir"@ => a_text("The working directory to execute the command in"),
        "timeout_ms"@ => a_number("The timeout for the command in milliseconds"),
    ]
}

fn shell_map() -> (r: SchemaMap)
    ensures
        r@ == shell_properties(),
{
    let mut properties = SchemaMap::new();
    properties.insert("command", texts_schema("The command to execute"));
    properties.insert("workdir", text_schema("The working directory to execute the command in"));
    properties.insert("timeout_ms", number_schema("The timeout for the command in milliseconds"));
    properties
}

/// What a script takes in any case.
pub open spec fn shell_command_properties() -> Map<Seq<char>, Schema> {
    map![
        "command"@ => a_text("The shell script to execute in the user's default shell"),
        "workdir"@ => a_text("The working directory to execute the command in"),
        "timeout_ms"@ => a_number("The timeout for the command in milliseconds"),
    ]
}

fn shell_command_map() -> (r: SchemaMap)
    ensures
        r@ == shell_command_properties(),
{
    let mut properties = SchemaMap::new();
    properties.insert("command", text_schema("The shell script to execute in the user's default shell"));
    properties.insert("workdir", text_schema("The working directory to execute the command in"));
    properties.insert("timeout_ms", number_schema("The timeout for the command in milliseconds"));
    properties
}

/// What a request for rights takes.
pub open spec fn request_permissions_properties() -> Map<Seq<char>, Schema> {
    map![
        "reason"@ => a_text("Optional short explanation for why additional permissions are needed."),
        "permissions"@ => permission_profile(),
    ]
}

fn request_permissions_map() -> (r: SchemaMap)
    ensures
        r@ == request_permissions_properties(),
{
    let mut properties = SchemaMap::new();
    properties.insert("reason", text_schema("Optional short explanation for why additional permissions are needed."));
    properties.insert("permissions", permission_profile_schema());
    properties
}

/// The character that separates the parts of a path: `std::path::MAIN_SEPARATOR`. Which one it is
/// depends on the platform, so nothing is claimed of the result.
#[verifier::external_body]
fn main_separator() -> (r: char) {
    std::path::MAIN_SEPARATOR
}

/// Whether the program runs on Windows, the platform whose paths are separated by a backslash.
fn on_windows() -> bool {
    main_separator() == '\\'
}

/// The parameters for leaving the sandbox, on top of others.
pub open spec fn with_approvals(
    properties: Map<Seq<char>, Schema>,
    exec_permission_approvals_enabled: bool,
) -> Map<Seq<char>, Schema> {
    let asked = properties.insert(
        "sandbox_permissions"@,
        a_text(
            if exec_permission_approvals_enabled {
                SANDBOX_WITH_ADDITIONS
            } else {
                SANDBOX_ONLY
            },
        ),
    ).insert("justification"@, a_text(JUSTIFICATION)).insert(
        "prefix_rule"@,
        some_texts(PREFIX_RULE),
    );
    if exec_permission_approvals_enabled {
        asked.insert("additional_permissions"@, permission_profile())
    } else {
        asked
    }
}

/// Adds the parameters for leaving the sandbox.
pub fn create_approval_parameters(
    properties: &mut SchemaMap,
    exec_permission_approvals_enabled: bool,
)
    ensures
        final(properties)@ == with_approvals(old(properties)@, exec_permission_approvals_enabled),
{
    properties.insert(
        "sandbox_permissions",
        text_schema(
            if exec_permission_approvals_enabled {
                SANDBOX_WITH_ADDITIONS
            } else {
                SANDBOX_ONLY
            },
        ),
    );
    properties.insert("justification", text_schema(JUSTIFICATION));
    properties.insert("prefix_rule", texts_schema(PREFIX_RULE));
    if exec_permission_approvals_enabled {
        properties.insert("additional_permissions", permission_profile_schema());
    }
}

/// The parameter for a login shell, on top of others.
pub open spec fn with_login(
    properties: Map<Seq<char>, Schema>,
    allow_login_shell: bool,
    description: &str,
) -> Map<Seq<char>, Schema> {
    if allow_login_shell {
        properties.insert("login"@, a_flag(description))
    } else {
        properties
    }
}

/// What the tool that runs a command is for.
pub open spec fn execute_description(windows: bool) -> Seq<char> {
    if windows {
        EXECUTE_DESCRIPTION@ + "\n\n"@ + WINDOWS_SHELL_GUIDANCE@
    } else {
        EXECUTE_DESCRIPTION@
    }
}

/// Whether `tool` runs a command, as offered on the platform.
pub open spec fn is_execute_tool(
    tool: ToolSpec,
    options: CommandToolOptions,
    windows: bool,
) -> bool {
    is_function(
        tool,
        "execute",
        execute_description(windows),
        with_approvals(
            with_login(
                execute_properties(),
                options.allow_login_shell,
                "Whether to run the shell with -l/-i semantics. Defaults to true.",
            ),
            options.exec_permission_approvals_enabled,
        ),
        Some(seq!["cmd"@]),
        Some(unified_exec_output()),
    )
}

/// Runs a command, as offered on the given platform.
pub fn execute_tool(options: CommandToolOptions, windows: bool) -> (r: ToolSpec)
    ensures
        is_execute_tool(r, options, windows),
{
    let mut properties = execute_map();
    if options.allow_login_shell {
        properties.insert(
            "login",
            flag_schema("Whether to run the shell with -l/-i semantics. Defaults to true."),
        );
    }
    create_approval_parameters(&mut properties, options.exec_permission_approvals_enabled);
    let mut description = owned(EXECUTE_DESCRIPTION);
    if windows {
        description.append("\n\n");
        description.append(WINDOWS_SHELL_GUIDANCE);
    }
    let mut required: Vec<String> = Vec::new();
    required.push(owned("cmd"));
    assert(texts(required@) =~= seq!["cmd"@]);
    function_tool(
        "execute",
        description.as_str(),
        properties,
        Some(required),
        Some(unified_exec_output_schema()),
    )
}

/// Runs a command.
pub fn create_execute_tool(options: CommandToolOptions) -> (r: ToolSpec)
    ensures
        exists|windows: bool| is_execute_tool(r, options, windows),
{
    let windows = on_windows();
    execute_tool(options, windows)
}

/// Whether `tool` runs a program, as offered on the platform.
pub open spec fn is_shell_tool(tool: ToolSpec, options: ShellToolOptions, windows: bool) -> bool {
    is_function(
        tool,
        "shell",
        if windows {
            SHELL_WINDOWS_DESCRIPTION@ + WINDOWS_SHELL_GUIDANCE@
        } else {
            SHELL_DESCRIPTION@
        },
        with_approvals(shell_properties(), options.exec_permission_approvals_enabled),
        Some(seq!["command"@]),
        None,
    )
}

/// Runs a program, as offered on the given platform.
pub fn shell_tool(options: ShellToolOptions, windows: bool) -> (r: ToolSpec)
    ensures
        is_shell_tool(r, options, windows),
{
    let mut properties = shell_map();
    create_approval_parameters(&mut properties, options.exec_permission_approvals_enabled);
    let description = if windows {
        let mut text = owned(SHELL_WINDOWS_DESCRIPTION);
        text.append(WINDOWS_SHELL_GUIDANCE);
        text
    } else {
        owned(SHELL_DESCRIPTION)
    };
    let mut required: Vec<String> = Vec::new();
    required.push(owned("command"));
    assert(texts(required@) =~= seq!["command"@]);
    function_tool("shell", description.as_str(), properties, Some(required), None)
}

/// Runs a program.
pub fn create_shell_tool(options: ShellToolOptions) -> (r: ToolSpec)
    ensures
        exists|windows: bool| is_shell_tool(r, options, windows),
{
    let windows = on_windows();
    shell_tool(options, windows)
}

/// Whether `tool` runs a script, as offered on the platform.
pub open spec fn is_shell_command_tool(
    tool: ToolSpec,
    options: CommandToolOptions,
    windows: bool,
) -> bool {
    is_function(
        tool,
        "shell_command",
        if windows {
            SHELL_COMMAND_WINDOWS_DESCRIPTION@ + WINDOWS_SHELL_GUIDANCE@
        } else {
            SHELL_COMMAND_DESCRIPTION@
        },
        with_approvals(
            with_login(
                shell_command_properties(),
                options.allow_login_shell,
                "Whether to run the shell with login shell semantics. Defaults to true.",
            ),
            options.exec_permission_approvals_enabled,
        ),
        Some(seq!["command"@]),
        None,
    )
}

/// Runs a script, as offered on the given platform.
pub fn shell_command_tool(options: CommandToolOptions, windows: bool) -> (r: ToolSpec)
    ensures
        is_shell_command_tool(r, options, windows),
{
    let mut properties = shell_command_map();
    if options.allow_login_shell {
        properties.insert(
            "login",
            flag_schema("Whether to run the shell with login shell semantics. Defaults to true."),
        );
    }
    create_approval_parameters(&mut properties, options.exec_permission_approvals_enabled);
    let description = if windows {
        let mut text = owned(SHELL_COMMAND_WINDOWS_DESCRIPTION);
        text.append(WINDOWS_SHELL_GUIDANCE);
        text
    } else {
        owned(SHELL_COMMAND_DESCRIPTION)
    };
    let mut required: Vec<String> = Vec::new();
    required.push(owned("command"));
    assert(texts(required@) =~= seq!["command"@]);
    function_tool("shell_command", description.as_str(), properties, Some(required), None)
}

/// Runs a script.
pub fn create_shell_command_tool(options: CommandToolOptions) -> (r: ToolSpec)
    ensures
        exists|windows: bool| is_shell_command_tool(r, options, windows),
{
    let windows = on_windows();
    shell_command_tool(options, windows)
}

/// Asks the user for rights.
pub fn create_request_permissions_tool(description: String) -> (r: ToolSpec)
    ensures
        is_function(
            r,
            "request_permissions",
            description@,
            request_permissions_properties(),
            Some(seq!["permissions"@]),
            None,
        ),
{
    let mut required: Vec<String> = Vec::new();
    required.push(owned("permissions"));
    assert(texts(required@) =~= seq!["permissions"@]);
    function_tool(
        "request_permissions",
        description.as_str(),
        request_permissions_map(),
        Some(required),
        None,
    )
}

/// What the tool that asks for rights is for.
pub fn request_permissions_tool_description() -> (r: String)
    ensures
        r@ == REQUEST_PERMISSIONS_DESCRIPTION@,
{
    owned(REQUEST_PERMISSIONS_DESCRIPTION)
}

/// Whether each value that a record must have is described.
pub open spec fn describes_required(schema: Schema) -> bool {
    schema matches Schema::Record { properties, required, .. } && (required matches Some(names)
        ==> forall|i: int| 0 <= i < names.len() ==> properties.dom().contains(#[trigger] names[i]))
}

/// Whatever the options, a command tool describes each parameter that it requires.
pub proof fn law_required_parameters_are_described(
    tool: ToolSpec,
    options: CommandToolOptions,
    shell_options: ShellToolOptions,
    windows: bool,
)
    requires
        is_execute_tool(tool, options, windows) || is_shell_tool(tool, shell_options, windows)
            || is_shell_command_tool(tool, options, windows),
    ensures
        tool matches ToolSpec::Function(function) && describes_required(
            function.parameters.model(),
        ),
{
}

/// A login shell can be asked for just where it is allowed, and rights inside the sandbox just where
/// they can be approved.
pub proof fn law_options_decide_what_can_be_asked_for(options: CommandToolOptions)
    ensures
        ({
            let offered = with_approvals(
                with_login(
                    execute_properties(),
                    options.allow_login_shell,
                    "Whether to run the shell with -l/-i semantics. Defaults to true.",
                ),
                options.exec_permission_approvals_enabled,
            );
            &&& offered.dom().contains("login"@) == options.allow_login_shell
            &&& offered.dom().contains("additional_permissions"@)
                == options.exec_permission_approvals_enabled
        }),
{
    reveal_strlit("login");
    reveal_strlit("additional_permissions");
    reveal_strlit("cmd");
    reveal_strlit("workdir");
    reveal_strlit("shell");
    reveal_strlit("tty");
    reveal_strlit("mode");
    reveal_strlit("yield_time_ms");
    reveal_strlit("max_output_tokens");
    reveal_strlit("sandbox_permissions");
    reveal_strlit("justification");
    reveal_strlit("prefix_rule");
    assert("login"@[0] != "shell"@[0]);
    let base = execute_properties();
    assert(!base.dom().contains("login"@));
    let extra = "additional_permissions"@;
    assert(extra.len() == 22);
    assert(extra != "cmd"@ && extra != "workdir"@ && extra != "shell"@ && extra != "tty"@);
    assert(extra != "mode"@ && extra != "yield_time_ms"@ && extra != "max_output_tokens"@);
    assert(!base.dom().contains(extra));
}

} // verus!
