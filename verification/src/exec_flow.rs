//! The course of a command: which shell runs it, what is asked before it runs, and how its output is
//! gathered.
use vstd::prelude::*;
use vstd::slice::slice_to_vec;
use vstd::string::*;
use vstd::utf8::encode_utf8;

use crate::error::FunctionCallError;
use crate::shell_tools::{default_exec_yield_time_ms, ExecCommandToolOutput};
use crate::text::{copy_text, owned, text_of, texts};

verus! {

/// Whether a command is waited for.
#[derive(Clone, Copy, Debug, PartialEq, Eq, Structural)]
pub enum ExecuteMode {
    Blocking,
    Background,
}

impl Default for ExecuteMode {
    fn default() -> (r: ExecuteMode)
        ensures
            r == ExecuteMode::Blocking,
    {
        ExecuteMode::Blocking
    }
}

/// The arguments of a command.
#[derive(Debug, PartialEq, Eq)]
pub struct ExecCommandArgs {
    pub cmd: String,
    pub mode: Option<ExecuteMode>,
    pub workdir: Option<String>,
    pub shell: Option<String>,
    pub login: Option<bool>,
    pub tty: bool,
    pub yield_time_ms: u64,
    pub justification: Option<String>,
    pub prefix_rule: Option<Vec<String>>,
}

/// How commands are run in this session.
#[derive(Debug, PartialEq, Eq)]
pub enum ShellMode {
    /// By a shell: the one that the call names, or that of the session.
    Direct,
    /// By this zsh.
    ZshFork { zsh_path: String },
}

/// Whether a login shell is used, or the message that none may be.
pub open spec fn login_choice(login: Option<bool>, allow_login_shell: bool) -> Result<
    bool,
    Seq<char>,
> {
    match login {
        Some(true) => if allow_login_shell {
            Ok(true)
        } else {
            Err("login shell is disabled by config; omit `login` or set it to false."@)
        },
        Some(false) => Ok(false),
        None => Ok(allow_login_shell),
    }
}

/// What runs a command.
#[derive(Debug, PartialEq, Eq)]
pub enum CommandChoice {
    /// A shell runs it: the named one, or that of the session.
    Derive { shell: Option<String>, login: bool },
    /// This is run.
    Command(Vec<String>),
}

/// The call of a zsh.
pub open spec fn zsh_command(zsh_path: Seq<char>, login: bool, cmd: Seq<char>) -> Seq<Seq<char>> {
    seq![
        zsh_path,
        if login {
            "-lc"@
        } else {
            "-c"@
        },
        cmd,
    ]
}

/// Whether `choice` is what runs a command.
pub open spec fn chooses(
    args: ExecCommandArgs,
    mode: ShellMode,
    login: bool,
    choice: CommandChoice,
) -> bool {
    match mode {
        ShellMode::Direct => choice matches CommandChoice::Derive { shell, login: used } && text_of(
            shell,
        ) == text_of(args.shell) && used == login,
        ShellMode::ZshFork { zsh_path } => choice matches CommandChoice::Command(command) && texts(
            command@,
        ) == zsh_command(zsh_path@, login, args.cmd@),
    }
}

/// Decides what runs a command.
pub fn get_command(args: &ExecCommandArgs, mode: &ShellMode, allow_login_shell: bool) -> (r: Result<
    CommandChoice,
    String,
>)
    ensures
        match login_choice(args.login, allow_login_shell) {
            Ok(login) => r matches Ok(choice) && chooses(*args, *mode, login, choice),
            Err(message) => r matches Err(text) && text@ == message,
        },
{
    let login = match args.login {
        Some(true) => {
            if !allow_login_shell {
                return Err(
                    owned("login shell is disabled by config; omit `login` or set it to false."),
                );
            }
            true
        },
        Some(false) => false,
        None => allow_login_shell,
    };
    match mode {
        ShellMode::Direct => Ok(CommandChoice::Derive { shell: copy_text(&args.shell), login }),
        ShellMode::ZshFork { zsh_path } => {
            let mut command: Vec<String> = Vec::new();
            command.push(owned(zsh_path.as_str()));
            command.push(
                if login {
                    owned("-lc")
                } else {
                    owned("-c")
                },
            );
            command.push(owned(args.cmd.as_str()));
            assert(texts(command@) =~= zsh_command(zsh_path@, login, args.cmd@));
            Ok(CommandChoice::Command(command))
        },
    }
}

/// Whether a command may ask for more rights than the session has: always where such requests are
/// approved one by one, else where they were granted for the turn.
pub fn additional_permissions_allowed(
    exec_permission_approvals: bool,
    request_permissions_tool: bool,
    preapproved: bool,
) -> (r: bool)
    ensures
        r == (exec_permission_approvals || (request_permissions_tool && preapproved)),
{
    exec_permission_approvals || (request_permissions_tool && preapproved)
}

/// What is known of the rights that a command asks for.
#[derive(Debug, PartialEq, Eq)]
pub struct Permissions {
    /// Whether it asks to leave the sandbox.
    pub requests_sandbox_override: bool,
    /// Whether that was granted for the turn.
    pub preapproved: bool,
    /// Whether the user can be asked.
    pub approval_on_request: bool,
    /// The approval policy in words.
    pub approval_policy: String,
}

/// Whether a command asks for what nobody can grant.
pub open spec fn oversteps(permissions: Permissions) -> bool {
    permissions.requests_sandbox_override && !permissions.preapproved
        && !permissions.approval_on_request
}

/// What is said of a command that asks for what nobody can grant.
pub open spec fn overstep_message(policy: Seq<char>) -> Seq<char> {
    "approval policy is "@ + policy
        + "; reject command — you cannot ask for escalated permissions if the approval policy is "@
        + policy
}

/// What became of a command.
#[derive(Debug, PartialEq, Eq)]
pub enum Ran {
    /// It gave this output so far.
    Started(ExecCommandToolOutput),
    /// The sandbox stopped it.
    Denied {
        call_id: String,
        chunk_id: String,
        wall_time_nanos: u128,
        text: String,
        exit_code: i32,
        token_count: usize,
    },
    /// It could not be run, for this reason.
    Failed(String),
}

/// What the course of a command was told.
#[derive(Debug, PartialEq, Eq)]
pub enum ExecEvent {
    /// What the shell runs.
    Derived(Vec<String>),
    /// The rights that it asks for.
    Permissions(Permissions),
    /// Whether these rights are in order.
    Normalized(Result<(), String>),
    /// The command as it is shown, and the answer where it was a patch that has been applied.
    Intercepted { shown: String, result: Result<Option<String>, FunctionCallError> },
    /// What became of it.
    Ran(Ran),
    /// More output, or why there is none.
    Polled(Result<ExecCommandToolOutput, String>),
}

/// What to run.
#[derive(Debug, PartialEq, Eq)]
pub struct ExecRequest {
    pub command: Vec<String>,
    pub hook_command: String,
    pub run_mode: ExecuteMode,
    pub yield_time_ms: u64,
    pub max_output_tokens: usize,
    pub workdir: Option<String>,
    pub tty: bool,
    pub justification: Option<String>,
    pub prefix_rule: Option<Vec<String>>,
}

/// What the course of a command asks for.
#[derive(Debug, PartialEq, Eq)]
pub enum ExecAction {
    /// What the shell runs for this command.
    Derive { shell: Option<String>, cmd: String, login: bool },
    /// The rights that it asks for.
    CheckPermissions,
    /// Whether these rights are in order, in this directory.
    Normalize { workdir: Option<String> },
    /// Whether it is a patch.
    Intercept,
    /// To run it.
    Run(ExecRequest),
    /// To wait for more output.
    Poll { process_id: i32, yield_time_ms: u64, max_output_tokens: usize },
    /// Nothing more; the process id is given back first where it was not used.
    Finish { release: bool, result: Result<ExecCommandToolOutput, FunctionCallError> },
}

/// Where a command stands.
#[derive(Debug, PartialEq, Eq)]
pub enum ExecState {
    /// Waits for what the shell runs.
    Deriving { args: ExecCommandArgs, run_mode: ExecuteMode, max_output_tokens: usize },
    /// Waits for the rights that it asks for.
    Permitting {
        args: ExecCommandArgs,
        run_mode: ExecuteMode,
        max_output_tokens: usize,
        command: Vec<String>,
    },
    /// Waits for the word on these rights.
    Normalizing {
        args: ExecCommandArgs,
        run_mode: ExecuteMode,
        max_output_tokens: usize,
        command: Vec<String>,
    },
    /// Waits for the word whether it is a patch.
    Intercepting {
        args: ExecCommandArgs,
        run_mode: ExecuteMode,
        max_output_tokens: usize,
        command: Vec<String>,
    },
    /// Waits for its start.
    Running { run_mode: ExecuteMode, max_output_tokens: usize, hook_command: String, shown: String },
    /// Waits for its end.
    Waiting { max_output_tokens: usize, response: ExecCommandToolOutput },
    /// Answered.
    Over,
}

/// The mode of a command: the one that it names; else, under the older name, the background.
pub open spec fn mode_of(mode: Option<ExecuteMode>, legacy: bool) -> ExecuteMode {
    match mode {
        Some(named) => named,
        None => if legacy {
            ExecuteMode::Background
        } else {
            ExecuteMode::Blocking
        },
    }
}

impl ExecAction {
    /// Whether this ends the course with an error that tells the model `message`.
    pub open spec fn refuses(self, gives_back: bool, message: Seq<char>) -> bool {
        self matches ExecAction::Finish { release, result: Err(error) } && release == gives_back
            && error.says(message)
    }
}

fn refuse(release: bool, message: String) -> (r: ExecAction)
    ensures
        r.refuses(release, message@),
{
    ExecAction::Finish { release, result: Err(FunctionCallError::RespondToModel(message)) }
}

/// The first thing that the course of a command asks for.
pub fn start_execute(
    args: ExecCommandArgs,
    legacy: bool,
    mode: &ShellMode,
    allow_login_shell: bool,
    max_output_tokens: usize,
) -> (r: (ExecState, ExecAction))
    ensures
        r.0 matches ExecState::Deriving { run_mode, .. } ==> match args.mode {
            Some(named) => run_mode == named,
            None => (run_mode == ExecuteMode::Background) == legacy,
        },
        r.0 matches ExecState::Permitting { run_mode, .. } ==> match args.mode {
            Some(named) => run_mode == named,
            None => (run_mode == ExecuteMode::Background) == legacy,
        },
        r.0 is Over <==> args.login == Some(true) && !allow_login_shell,
        r.1 matches ExecAction::Derive { login, .. } ==> match args.login {
            Some(named) => login == named,
            None => login == allow_login_shell,
        },
        r.0 matches ExecState::Permitting { command, .. } ==> {
            &&& command@.len() == 3
            &&& *mode matches ShellMode::ZshFork { zsh_path }
            &&& command@[0]@ == zsh_path@
            &&& command@[1]@ == if args.login == Some(false) || (args.login is None
                && !allow_login_shell) {
                "-c"@
            } else {
                "-lc"@
            }
            &&& command@[2]@ == args.cmd@
        },
        match login_choice(args.login, allow_login_shell) {
            Err(message) => r.0 is Over && r.1.refuses(false, message),
            Ok(login) => match *mode {
                ShellMode::Direct => {
                    &&& r.0 matches ExecState::Deriving {
                        args: held,
                        run_mode,
                        max_output_tokens: tokens,
                    }
                    &&& held == args
                    &&& run_mode == mode_of(args.mode, legacy)
                    &&& tokens == max_output_tokens
                    &&& r.1 matches ExecAction::Derive { shell, cmd, login: used }
                    &&& text_of(shell) == text_of(args.shell)
                    &&& cmd@ == args.cmd@
                    &&& used == login
                },
                ShellMode::ZshFork { zsh_path } => {
                    &&& r.0 matches ExecState::Permitting {
                        args: held,
                        run_mode,
                        max_output_tokens: tokens,
                        command,
                    }
                    &&& held == args
                    &&& run_mode == mode_of(args.mode, legacy)
                    &&& tokens == max_output_tokens
                    &&& texts(command@) == zsh_command(zsh_path@, login, args.cmd@)
                    &&& r.1 is CheckPermissions
                },
            },
        },
{
    let run_mode = match args.mode {
        Some(named) => named,
        None => if legacy {
            ExecuteMode::Background
        } else {
            ExecuteMode::Blocking
        },
    };
    match get_command(&args, mode, allow_login_shell) {
        Ok(CommandChoice::Derive { shell, login }) => {
            let action = ExecAction::Derive { shell, cmd: owned(args.cmd.as_str()), login };
            (ExecState::Deriving { args, run_mode, max_output_tokens }, action)
        },
        Ok(CommandChoice::Command(command)) => {
            proof {
                let shown = texts(command@);
                assert(shown.len() == 3);
                assert(shown[0] == command@[0]@ && shown[1] == command@[1]@ && shown[2]
                    == command@[2]@);
            }
            (
                ExecState::Permitting { args, run_mode, max_output_tokens, command },
                ExecAction::CheckPermissions,
            )
        },
        Err(message) => (ExecState::Over, refuse(false, message)),
    }
}

/// The directory of a command, if it names one.
pub open spec fn named_dir(workdir: Option<String>) -> Option<Seq<char>> {
    match workdir {
        Some(dir) => if dir@.len() == 0 {
            None
        } else {
            Some(dir@)
        },
        None => None,
    }
}

fn copy_dir(workdir: &Option<String>) -> (r: Option<String>)
    ensures
        text_of(r) == named_dir(*workdir),
{
    match workdir {
        Some(dir) => if dir.as_str().is_empty() {
            None
        } else {
            Some(owned(dir.as_str()))
        },
        None => None,
    }
}

/// The longest time that a clock measures, in nanoseconds.
pub const MAX_WALL_TIME_NANOS: u128 = 18_446_744_073_709_551_615_999_999_999;

/// The sizes of two outputs together; one alone where the other is not known.
pub open spec fn summed(left: Option<usize>, right: Option<usize>) -> Option<usize> {
    match (left, right) {
        (Some(a), Some(b)) => Some((a + b) as usize),
        (Some(a), None) => Some(a),
        (None, right) => right,
    }
}

/// Whether two outputs can be put together.
pub open spec fn can_join(response: ExecCommandToolOutput, next: ExecCommandToolOutput) -> bool {
    &&& response.wall_time_nanos + next.wall_time_nanos <= MAX_WALL_TIME_NANOS
    &&& (response.original_token_count matches Some(a) && next.original_token_count matches Some(b))
        ==> response.original_token_count->0 + next.original_token_count->0 <= usize::MAX
}

/// Whether `r` is `response` with more output behind it.
pub open spec fn joins(
    response: ExecCommandToolOutput,
    next: ExecCommandToolOutput,
    r: ExecCommandToolOutput,
) -> bool {
    &&& r.event_call_id == response.event_call_id
    &&& r.chunk_id == response.chunk_id
    &&& r.wall_time_nanos == response.wall_time_nanos + next.wall_time_nanos
    &&& r.raw_output@ == response.raw_output@ + next.raw_output@
    &&& r.max_output_tokens == response.max_output_tokens
    &&& r.shell_id == next.shell_id
    &&& r.process_id == next.process_id
    &&& r.exit_code == next.exit_code
    &&& r.original_token_count == summed(response.original_token_count, next.original_token_count)
    &&& r.hook_command == response.hook_command
}

/// Puts more output behind an output. The process and its end are as the later one says.
pub fn join_outputs(response: ExecCommandToolOutput, next: ExecCommandToolOutput) -> (r:
    ExecCommandToolOutput)
    requires
        can_join(response, next),
    ensures
        joins(response, next, r),
{
    let mut raw_output = response.raw_output;
    let mut more = next.raw_output;
    raw_output.append(&mut more);
    let original_token_count = match (response.original_token_count, next.original_token_count) {
        (Some(left), Some(right)) => Some(left + right),
        (Some(left), None) => Some(left),
        (None, right) => right,
    };
    ExecCommandToolOutput {
        event_call_id: response.event_call_id,
        chunk_id: response.chunk_id,
        wall_time_nanos: response.wall_time_nanos + next.wall_time_nanos,
        raw_output,
        max_output_tokens: response.max_output_tokens,
        shell_id: next.shell_id,
        process_id: next.process_id,
        exit_code: next.exit_code,
        original_token_count,
        hook_command: response.hook_command,
    }
}

/// Whether a command that stands there waits for such an event.
pub open spec fn exec_expects(state: ExecState, event: ExecEvent) -> bool {
    match state {
        ExecState::Deriving { .. } => event is Derived,
        ExecState::Permitting { .. } => event is Permissions,
        ExecState::Normalizing { .. } => event is Normalized,
        ExecState::Intercepting { .. } => event is Intercepted,
        ExecState::Running { .. } => event is Ran,
        ExecState::Waiting { response, .. } => {
            &&& event matches ExecEvent::Polled(polled)
            &&& polled matches Ok(next) ==> can_join(response, next)
        },
        ExecState::Over => false,
    }
}

/// The answer for a command that was a patch.
pub open spec fn patch_answer(
    output: ExecCommandToolOutput,
    text: Seq<char>,
    max_output_tokens: usize,
) -> bool {
    &&& output.event_call_id@ == ""@
    &&& output.chunk_id@ == ""@
    &&& output.wall_time_nanos == 0
    &&& output.raw_output@ == encode_utf8(text)
    &&& output.max_output_tokens == Some(max_output_tokens)
    &&& output.shell_id is None
    &&& output.process_id is None
    &&& output.exit_code is None
    &&& output.original_token_count is None
    &&& output.hook_command is None
}

/// What follows an output: the wait for more where the command is waited for and still runs, else
/// the answer.
pub open spec fn follows(
    run_mode: ExecuteMode,
    max_output_tokens: usize,
    response: ExecCommandToolOutput,
    next: ExecState,
    action: ExecAction,
) -> bool {
    if run_mode == ExecuteMode::Blocking && response.process_id is Some {
        &&& next == (ExecState::Waiting { max_output_tokens, response })
        &&& action matches ExecAction::Poll { process_id, yield_time_ms, max_output_tokens: tokens }
        &&& Some(process_id) == response.process_id
        &&& yield_time_ms == 10_000
        &&& tokens == max_output_tokens
    } else {
        &&& next is Over
        &&& action == (ExecAction::Finish { release: false, result: Ok(response) })
    }
}

/// Whether `request` is what a command runs.
pub open spec fn requests(
    args: ExecCommandArgs,
    run_mode: ExecuteMode,
    max_output_tokens: usize,
    command: Vec<String>,
    request: ExecRequest,
) -> bool {
    &&& request.command == command
    &&& request.hook_command@ == args.cmd@
    &&& request.run_mode == run_mode
    &&& request.yield_time_ms == args.yield_time_ms
    &&& request.max_output_tokens == max_output_tokens
    &&& text_of(request.workdir) == named_dir(args.workdir)
    &&& request.tty == args.tty
    &&& request.justification == args.justification
    &&& request.prefix_rule == args.prefix_rule
}

/// What a command does after the word whether it is a patch.
pub open spec fn exec_intercepted(
    args: ExecCommandArgs,
    run_mode: ExecuteMode,
    max_output_tokens: usize,
    command: Vec<String>,
    shown: String,
    result: Result<Option<String>, FunctionCallError>,
    next: ExecState,
    action: ExecAction,
) -> bool {
    match result {
        Err(error) => next is Over && action == (ExecAction::Finish {
            release: false,
            result: Err(error),
        }),
        Ok(Some(text)) => {
            &&& next is Over
            &&& action matches ExecAction::Finish { release, result: Ok(output) }
            &&& release
            &&& patch_answer(output, text@, max_output_tokens)
        },
        Ok(None) => {
            &&& action matches ExecAction::Run(request)
            &&& requests(args, run_mode, max_output_tokens, command, request)
            &&& next matches ExecState::Running {
                run_mode: mode,
                max_output_tokens: tokens,
                hook_command,
                shown: held,
            }
            &&& mode == run_mode
            &&& tokens == max_output_tokens
            &&& hook_command == args.cmd
            &&& held == shown
        },
    }
}

/// What a command does after its start.
pub open spec fn exec_ran(
    run_mode: ExecuteMode,
    max_output_tokens: usize,
    hook_command: String,
    shown: String,
    ran: Ran,
    next: ExecState,
    action: ExecAction,
) -> bool {
    match ran {
        Ran::Started(response) => follows(run_mode, max_output_tokens, response, next, action),
        Ran::Denied { call_id, chunk_id, wall_time_nanos, text, exit_code, token_count } => {
            &&& next is Over
            &&& action matches ExecAction::Finish { release, result: Ok(output) }
            &&& !release
            &&& output.event_call_id == call_id
            &&& output.chunk_id == chunk_id
            &&& output.wall_time_nanos == wall_time_nanos
            &&& output.raw_output@ == encode_utf8(text@)
            &&& output.max_output_tokens == Some(max_output_tokens)
            &&& output.shell_id is None
            &&& output.process_id is None
            &&& output.exit_code == Some(exit_code)
            &&& output.original_token_count == Some(token_count)
            &&& output.hook_command == Some(hook_command)
        },
        Ran::Failed(error) => next is Over && action.refuses(
            false,
            "execute failed for `"@ + shown@ + "`: "@ + error@,
        ),
    }
}

/// What a command does after an event.
pub open spec fn exec_goes_on(
    state: ExecState,
    event: ExecEvent,
    next: ExecState,
    action: ExecAction,
) -> bool {
    match (state, event) {
        (
            ExecState::Deriving { args, run_mode, max_output_tokens },
            ExecEvent::Derived(command),
        ) => {
            &&& next == (ExecState::Permitting { args, run_mode, max_output_tokens, command })
            &&& action is CheckPermissions
        },
        (
            ExecState::Permitting { args, run_mode, max_output_tokens, command },
            ExecEvent::Permissions(permissions),
        ) => {
            if oversteps(permissions) {
                &&& next is Over
                &&& action.refuses(true, overstep_message(permissions.approval_policy@))
            } else {
                &&& next == (ExecState::Normalizing { args, run_mode, max_output_tokens, command })
                &&& action matches ExecAction::Normalize { workdir }
                &&& text_of(workdir) == named_dir(args.workdir)
            }
        },
        (
            ExecState::Normalizing { args, run_mode, max_output_tokens, command },
            ExecEvent::Normalized(normalized),
        ) => match normalized {
            Err(message) => next is Over && action.refuses(true, message@),
            Ok(_) => next == (ExecState::Intercepting { args, run_mode, max_output_tokens, command })
                && action is Intercept,
        },
        (
            ExecState::Intercepting { args, run_mode, max_output_tokens, command },
            ExecEvent::Intercepted { shown, result },
        ) => exec_intercepted(
            args,
            run_mode,
            max_output_tokens,
            command,
            shown,
            result,
            next,
            action,
        ),
        (
            ExecState::Running { run_mode, max_output_tokens, hook_command, shown },
            ExecEvent::Ran(ran),
        ) => exec_ran(run_mode, max_output_tokens, hook_command, shown, ran, next, action),
        (ExecState::Waiting { max_output_tokens, response }, ExecEvent::Polled(polled)) => match polled {
            Err(message) => next is Over && action.refuses(
                false,
                "execute blocking wait failed: "@ + message@,
            ),
            Ok(more) => exists|joined: ExecCommandToolOutput|
                #![trigger joins(response, more, joined)]
                joins(response, more, joined) && follows(
                    ExecuteMode::Blocking,
                    max_output_tokens,
                    joined,
                    next,
                    action,
                ),
        },
        _ => true,
    }
}

fn respond_or_wait(
    run_mode: ExecuteMode,
    max_output_tokens: usize,
    response: ExecCommandToolOutput,
) -> (r: (ExecState, ExecAction))
    ensures
        follows(run_mode, max_output_tokens, response, r.0, r.1),
{
    match (run_mode, response.process_id) {
        (ExecuteMode::Blocking, Some(process_id)) => (
            ExecState::Waiting { max_output_tokens, response },
            ExecAction::Poll {
                process_id,
                yield_time_ms: default_exec_yield_time_ms(),
                max_output_tokens,
            },
        ),
        _ => (ExecState::Over, ExecAction::Finish { release: false, result: Ok(response) }),
    }
}

/// What a command does after its output grew while it is waited for.
pub fn wait_for_process_exit(
    max_output_tokens: usize,
    response: ExecCommandToolOutput,
    polled: Result<ExecCommandToolOutput, String>,
) -> (r: (ExecState, ExecAction))
    requires
        polled matches Ok(next) ==> can_join(response, next),
    ensures
        exec_goes_on(
            (ExecState::Waiting { max_output_tokens, response }),
            ExecEvent::Polled(polled),
            r.0,
            r.1,
        ),
{
    match polled {
        Err(error) => {
            let mut message = owned("execute blocking wait failed: ");
            message.append(error.as_str());
            (ExecState::Over, refuse(false, message))
        },
        Ok(next) => {
            let joined = join_outputs(response, next);
            assert(joins(response, next, joined));
            respond_or_wait(ExecuteMode::Blocking, max_output_tokens, joined)
        },
    }
}

/// What a command does after an event.
pub fn exec_step(state: ExecState, event: ExecEvent) -> (r: (ExecState, ExecAction))
    requires
        exec_expects(state, event),
    ensures
        exec_goes_on(state, event, r.0, r.1),
{
    match (state, event) {
        (
            ExecState::Deriving { args, run_mode, max_output_tokens },
            ExecEvent::Derived(command),
        ) => (
            ExecState::Permitting { args, run_mode, max_output_tokens, command },
            ExecAction::CheckPermissions,
        ),
        (
            ExecState::Permitting { args, run_mode, max_output_tokens, command },
            ExecEvent::Permissions(permissions),
        ) => {
            if permissions.requests_sandbox_override && !permissions.preapproved
                && !permissions.approval_on_request {
                let mut message = owned("approval policy is ");
                message.append(permissions.approval_policy.as_str());
                message.append(
                    "; reject command — you cannot ask for escalated permissions if the approval policy is ",
                );
                message.append(permissions.approval_policy.as_str());
                return (ExecState::Over, refuse(true, message));
            }
            let action = ExecAction::Normalize { workdir: copy_dir(&args.workdir) };
            (ExecState::Normalizing { args, run_mode, max_output_tokens, command }, action)
        },
        (
            ExecState::Normalizing { args, run_mode, max_output_tokens, command },
            ExecEvent::Normalized(normalized),
        ) => match normalized {
            Err(message) => (ExecState::Over, refuse(true, message)),
            Ok(_) => (
                ExecState::Intercepting { args, run_mode, max_output_tokens, command },
                ExecAction::Intercept,
            ),
        },
        (
            ExecState::Intercepting { args, run_mode, max_output_tokens, command },
            ExecEvent::Intercepted { shown, result },
        ) => match result {
            Err(error) => (
                ExecState::Over,
                ExecAction::Finish { release: false, result: Err(error) },
            ),
            Ok(Some(text)) => {
                let output = ExecCommandToolOutput {
                    event_call_id: owned(""),
                    chunk_id: owned(""),
                    wall_time_nanos: 0,
                    raw_output: slice_to_vec(text.as_str().as_bytes()),
                    max_output_tokens: Some(max_output_tokens),
                    shell_id: None,
                    process_id: None,
                    exit_code: None,
                    original_token_count: None,
                    hook_command: None,
                };
                (ExecState::Over, ExecAction::Finish { release: true, result: Ok(output) })
            },
            Ok(None) => {
                let request = ExecRequest {
                    command,
                    hook_command: owned(args.cmd.as_str()),
                    run_mode,
                    yield_time_ms: args.yield_time_ms,
                    max_output_tokens,
                    workdir: copy_dir(&args.workdir),
                    tty: args.tty,
                    justification: args.justification,
                    prefix_rule: args.prefix_rule,
                };
                (
                    ExecState::Running {
                        run_mode,
                        max_output_tokens,
                        hook_command: args.cmd,
                        shown,
                    },
                    ExecAction::Run(request),
                )
            },
        },
        (
            ExecState::Running { run_mode, max_output_tokens, hook_command, shown },
            ExecEvent::Ran(ran),
        ) => match ran {
            Ran::Started(response) => respond_or_wait(run_mode, max_output_tokens, response),
            Ran::Denied { call_id, chunk_id, wall_time_nanos, text, exit_code, token_count } => {
                let output = ExecCommandToolOutput {
                    event_call_id: call_id,
                    chunk_id,
                    wall_time_nanos,
                    raw_output: slice_to_vec(text.as_str().as_bytes()),
                    max_output_tokens: Some(max_output_tokens),
                    shell_id: None,
                    process_id: None,
                    exit_code: Some(exit_code),
                    original_token_count: Some(token_count),
                    hook_command: Some(hook_command),
                };
                (ExecState::Over, ExecAction::Finish { release: false, result: Ok(output) })
            },
            Ran::Failed(error) => {
                let mut message = owned("execute failed for `");
                message.append(shown.as_str());
                message.append("`: ");
                message.append(error.as_str());
                (ExecState::Over, refuse(false, message))
            },
        },
        (
            ExecState::Waiting { max_output_tokens, response },
            ExecEvent::Polled(polled),
        ) => wait_for_process_exit(max_output_tokens, response, polled),
        _ => (ExecState::Over, ExecAction::CheckPermissions),
    }
}

/// All outputs of a command, one behind the other.
pub open spec fn all_output(responses: Seq<ExecCommandToolOutput>) -> Seq<u8>
    decreases responses.len(),
{
    if responses.len() == 0 {
        Seq::empty()
    } else {
        all_output(responses.drop_last()) + responses.last().raw_output@
    }
}

/// Whether each of `joined` is the one before it with the next response behind it.
pub open spec fn joined_up(
    responses: Seq<ExecCommandToolOutput>,
    joined: Seq<ExecCommandToolOutput>,
) -> bool {
    &&& responses.len() > 0
    &&& joined.len() == responses.len()
    &&& joined[0] == responses[0]
    &&& forall|i: int|
        0 < i < responses.len() ==> joins(joined[i - 1], responses[i], #[trigger] joined[i])
}

/// Waiting for a command loses none of its output: what is answered holds the bytes of all polls in
/// order, and the end is the one that the last poll saw.
pub proof fn law_waiting_keeps_all_output(
    responses: Seq<ExecCommandToolOutput>,
    joined: Seq<ExecCommandToolOutput>,
)
    requires
        joined_up(responses, joined),
    ensures
        joined.last().raw_output@ == all_output(responses),
        responses.len() > 1 ==> joined.last().exit_code == responses.last().exit_code,
    decreases responses.len(),
{
    let last = responses.len() - 1;
    if last > 0 {
        let fewer = responses.drop_last();
        let before = joined.drop_last();
        assert(joined_up(fewer, before)) by {
            assert forall|i: int| 0 < i < fewer.len() implies joins(
                before[i - 1],
                fewer[i],
                #[trigger] before[i],
            ) by {
                assert(joins(joined[i - 1], responses[i], joined[i]));
            }
        }
        law_waiting_keeps_all_output(fewer, before);
        assert(joins(joined[last - 1], responses[last], joined[last]));
    } else {
        reveal_with_fuel(all_output, 2);
        assert(responses.drop_last() =~= Seq::<ExecCommandToolOutput>::empty());
        assert(all_output(responses) =~= responses[0].raw_output@);
    }
}

/// Whether these are the states, events and actions of a command from its start on.
pub open spec fn exec_course(
    states: Seq<ExecState>,
    events: Seq<ExecEvent>,
    actions: Seq<ExecAction>,
) -> bool {
    &&& states.len() == events.len() + 1
    &&& actions.len() == events.len()
    &&& states[0] is Deriving || states[0] is Permitting
    &&& forall|i: int|
        0 <= i < events.len() ==> exec_expects(states[i], #[trigger] events[i]) && exec_goes_on(
            states[i],
            events[i],
            states[i + 1],
            actions[i],
        )
}

/// A command runs only after its rights were found to be in order, and after it was found to be no
/// patch.
pub proof fn law_command_runs_only_with_leave(
    states: Seq<ExecState>,
    events: Seq<ExecEvent>,
    actions: Seq<ExecAction>,
    step: int,
)
    requires
        exec_course(states, events, actions),
        0 <= step < events.len(),
        actions[step] is Run,
    ensures
        step >= 2,
        events[step] matches ExecEvent::Intercepted { result, .. } && result == Ok::<
            Option<String>,
            FunctionCallError,
        >(None),
        events[step - 1] matches ExecEvent::Normalized(normalized) && normalized is Ok,
        events[step - 2] matches ExecEvent::Permissions(permissions) && !oversteps(permissions),
{
    assert(exec_expects(states[step], events[step]));
    assert(states[step] is Intercepting);
    let before = step - 1;
    assert(before >= 0);
    assert(exec_expects(states[before], events[before]));
    assert(states[before] is Normalizing);
    let first = step - 2;
    assert(first >= 0);
    assert(exec_expects(states[first], events[first]));
}

} // verus!
