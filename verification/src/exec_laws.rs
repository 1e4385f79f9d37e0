//! What becomes of a command from its arguments to its answer.
use vstd::prelude::*;
use vstd::utf8::encode_utf8;

use crate::error::FunctionCallError;
use crate::exec_flow::{
    chooses, exec_course, exec_expects, exec_goes_on, joins, login_choice, mode_of, CommandChoice,
    ExecAction, ExecCommandArgs, ExecEvent, ExecRequest, ExecState, ExecuteMode, Permissions, Ran,
    ShellMode,
};
use crate::shell_tools::ExecCommandToolOutput;
use crate::text::texts;

verus! {

/// The mode of a command is the one that it names. One that names none is waited for, but for one under
/// the older name.
pub proof fn law_named_mode_is_taken(mode: ExecuteMode, legacy: bool)
    ensures
        mode_of(Some(mode), legacy) == mode,
        mode_of(None, true) == ExecuteMode::Background,
        mode_of(None, false) == ExecuteMode::Blocking,
{
}

/// A login shell is used where the command asks for one, and by default where one may be used; it is
/// refused where the command asks for one and none may be used.
pub proof fn law_login_shell_is_used_where_allowed(login: bool, allow_login_shell: bool)
    ensures
        allow_login_shell ==> login_choice(Some(login), allow_login_shell) == Ok::<bool, Seq<char>>(
            login,
        ),
        login_choice(Some(false), allow_login_shell) == Ok::<bool, Seq<char>>(false),
        login_choice(Some(true), false) is Err,
        login_choice(None, allow_login_shell) == Ok::<bool, Seq<char>>(allow_login_shell),
{
}

/// Whether a command that stands there was begun with these arguments, in this mode and with this limit.
pub open spec fn holds(
    state: ExecState,
    args: ExecCommandArgs,
    mode: ExecuteMode,
    tokens: usize,
) -> bool {
    match state {
        ExecState::Deriving { args: held, run_mode, max_output_tokens } => held == args && run_mode
            == mode && max_output_tokens == tokens,
        ExecState::Permitting { args: held, run_mode, max_output_tokens, .. } => held == args
            && run_mode == mode && max_output_tokens == tokens,
        ExecState::Normalizing { args: held, run_mode, max_output_tokens, .. } => held == args
            && run_mode == mode && max_output_tokens == tokens,
        ExecState::Intercepting { args: held, run_mode, max_output_tokens, .. } => held == args
            && run_mode == mode && max_output_tokens == tokens,
        ExecState::Running { run_mode, max_output_tokens, hook_command, .. } => run_mode == mode
            && max_output_tokens == tokens && hook_command == args.cmd,
        ExecState::Waiting { max_output_tokens, .. } => mode == ExecuteMode::Blocking
            && max_output_tokens == tokens,
        ExecState::Over => true,
    }
}

/// Whether this is what was asked to be run.
pub open spec fn is_asked(args: ExecCommandArgs, mode: ExecuteMode, tokens: usize, r: ExecRequest) -> bool {
    &&& r.hook_command@ == args.cmd@
    &&& r.run_mode == mode
    &&& r.yield_time_ms == args.yield_time_ms
    &&& r.max_output_tokens == tokens
    &&& r.tty == args.tty
    &&& r.justification == args.justification
    &&& r.prefix_rule == args.prefix_rule
    &&& args.workdir is None ==> r.workdir is None
    &&& args.workdir matches Some(dir) ==> if dir@.len() == 0 {
        r.workdir is None
    } else {
        r.workdir matches Some(used) && used@ == dir@
    }
}

proof fn lemma_holds(
    states: Seq<ExecState>,
    events: Seq<ExecEvent>,
    actions: Seq<ExecAction>,
    args: ExecCommandArgs,
    mode: ExecuteMode,
    tokens: usize,
    step: int,
)
    requires
        exec_course(states, events, actions),
        holds(states[0], args, mode, tokens),
        0 <= step <= events.len(),
    ensures
        holds(states[step], args, mode, tokens),
    decreases step,
{
    if step > 0 {
        lemma_holds(states, events, actions, args, mode, tokens, step - 1);
        assert(exec_expects(states[step - 1], events[step - 1]));
    }
}

/// What is run is what was asked for: the command, in the mode, the directory and with the limits of the
/// arguments.
pub proof fn law_what_is_run_was_asked_for(
    states: Seq<ExecState>,
    events: Seq<ExecEvent>,
    actions: Seq<ExecAction>,
    args: ExecCommandArgs,
    mode: ExecuteMode,
    tokens: usize,
    step: int,
)
    requires
        exec_course(states, events, actions),
        holds(states[0], args, mode, tokens),
        0 <= step < events.len(),
        actions[step] is Run,
    ensures
        is_asked(args, mode, tokens, actions[step]->Run_0),
        states[0] matches ExecState::Permitting { command, .. } ==> step == 2
            && actions[step]->Run_0.command == command,
        states[0] is Deriving ==> step == 3 && (events[0] matches ExecEvent::Derived(command)
            && actions[step]->Run_0.command == command),
{
    lemma_holds(states, events, actions, args, mode, tokens, step);
    assert(exec_expects(states[step], events[step]));
    assert(states[step] is Intercepting);
    assert(exec_expects(states[step - 1], events[step - 1]));
    assert(exec_expects(states[step - 2], events[step - 2]));
    if step > 2 {
        assert(exec_expects(states[step - 3], events[step - 3]));
        if step > 3 {
            assert(exec_expects(states[step - 4], events[step - 4]));
        }
    }
}

/// A command in the background is never waited for: its course asks for no poll, and its first output is
/// the answer.
pub proof fn law_background_is_not_waited_for(
    states: Seq<ExecState>,
    events: Seq<ExecEvent>,
    actions: Seq<ExecAction>,
    args: ExecCommandArgs,
    tokens: usize,
    step: int,
)
    requires
        exec_course(states, events, actions),
        holds(states[0], args, ExecuteMode::Background, tokens),
        0 <= step < events.len(),
    ensures
        !(actions[step] is Poll),
        !(events[step] is Polled),
        events[step] matches ExecEvent::Ran(Ran::Started(response)) ==> actions[step] == (
        ExecAction::Finish { release: false, result: Ok(response) }),
{
    lemma_holds(states, events, actions, args, ExecuteMode::Background, tokens, step);
    lemma_holds(states, events, actions, args, ExecuteMode::Background, tokens, step + 1);
    assert(exec_expects(states[step], events[step]));
}

/// A command that is waited for is polled as long as it runs, and answered once it has ended.
pub proof fn law_blocking_waits_for_the_end(
    states: Seq<ExecState>,
    events: Seq<ExecEvent>,
    actions: Seq<ExecAction>,
    args: ExecCommandArgs,
    tokens: usize,
    step: int,
)
    requires
        exec_course(states, events, actions),
        holds(states[0], args, ExecuteMode::Blocking, tokens),
        0 <= step < events.len(),
    ensures
        events[step] matches ExecEvent::Ran(Ran::Started(response)) ==> match response.process_id {
            Some(process_id) => actions[step] == (ExecAction::Poll {
                process_id,
                yield_time_ms: 10_000,
                max_output_tokens: tokens,
            }),
            None => actions[step] == (ExecAction::Finish { release: false, result: Ok(response) }),
        },
        events[step] matches ExecEvent::Polled(Ok(response)) ==> match response.process_id {
            Some(process_id) => actions[step] == (ExecAction::Poll {
                process_id,
                yield_time_ms: 10_000,
                max_output_tokens: tokens,
            }),
            None => actions[step] matches ExecAction::Finish { release, result: Ok(output) }
                && !release && output.process_id is None && output.exit_code == response.exit_code,
        },
        actions[step] is Poll ==> states[step + 1] is Waiting,
        actions[step] is Finish ==> states[step + 1] is Over,
{
    lemma_holds(states, events, actions, args, ExecuteMode::Blocking, tokens, step);
    assert(exec_expects(states[step], events[step]));
}

/// The bytes that a command gave in these events, one behind the other.
pub open spec fn given(events: Seq<ExecEvent>) -> Seq<u8>
    decreases events.len(),
{
    if events.len() == 0 {
        Seq::empty()
    } else {
        given(events.drop_last()) + match events.last() {
            ExecEvent::Ran(Ran::Started(response)) => response.raw_output@,
            ExecEvent::Polled(Ok(response)) => response.raw_output@,
            _ => Seq::empty(),
        }
    }
}

proof fn lemma_given(
    states: Seq<ExecState>,
    events: Seq<ExecEvent>,
    actions: Seq<ExecAction>,
    step: int,
)
    requires
        exec_course(states, events, actions),
        0 <= step <= events.len(),
    ensures
        !(states[step] is Waiting || states[step] is Over) ==> given(events.take(step)) == Seq::<
            u8,
        >::empty(),
        states[step] matches ExecState::Waiting { response, .. } ==> response.raw_output@ == given(
            events.take(step),
        ),
    decreases step,
{
    if step > 0 {
        let last = step - 1;
        lemma_given(states, events, actions, last);
        assert(exec_expects(states[last], events[last]));
        assert(events.take(step).drop_last() =~= events.take(last));
        assert(events.take(step).last() == events[last]);
        let before = given(events.take(last));
        assert(before + Seq::<u8>::empty() =~= before);
        if let ExecEvent::Ran(Ran::Started(response)) = events[last] {
            assert(Seq::<u8>::empty() + response.raw_output@ =~= response.raw_output@);
        }
    }
}

/// The answer of a command that ran holds all bytes that it gave, from the first to the last.
pub proof fn law_answer_holds_all_output(
    states: Seq<ExecState>,
    events: Seq<ExecEvent>,
    actions: Seq<ExecAction>,
    step: int,
)
    requires
        exec_course(states, events, actions),
        0 <= step < events.len(),
    ensures
        actions[step] matches ExecAction::Finish { result: Ok(output), .. } ==> (events[step]
            matches ExecEvent::Ran(Ran::Started(_)) ==> output.raw_output@ == given(
            events.take(step + 1),
        )) && (events[step] is Polled ==> output.raw_output@ == given(events.take(step + 1))),
{
    lemma_given(states, events, actions, step);
    assert(exec_expects(states[step], events[step]));
    assert(events.take(step + 1).drop_last() =~= events.take(step));
    assert(events.take(step + 1).last() == events[step]);
    if let ExecEvent::Ran(Ran::Started(response)) = events[step] {
        assert(Seq::<u8>::empty() + response.raw_output@ =~= response.raw_output@);
    }
}

/// Output that comes later is put behind the output that is there. Times and sizes are added up, the call
/// is that of the first output, and the process and its end are those of the later one.
pub proof fn law_later_output_is_added(
    first: ExecCommandToolOutput,
    later: ExecCommandToolOutput,
    both: ExecCommandToolOutput,
)
    requires
        joins(first, later, both),
    ensures
        both.raw_output@ == first.raw_output@ + later.raw_output@,
        both.wall_time_nanos == first.wall_time_nanos + later.wall_time_nanos,
        both.event_call_id == first.event_call_id,
        both.chunk_id == first.chunk_id,
        both.hook_command == first.hook_command,
        both.max_output_tokens == first.max_output_tokens,
        both.process_id == later.process_id,
        both.shell_id == later.shell_id,
        both.exit_code == later.exit_code,
        first.original_token_count is None ==> both.original_token_count
            == later.original_token_count,
        later.original_token_count is None ==> both.original_token_count
            == first.original_token_count,
        first.original_token_count is Some && later.original_token_count is Some
            && first.original_token_count->0 + later.original_token_count->0 <= usize::MAX ==> (
        both.original_token_count matches Some(count) && count == first.original_token_count->0
            + later.original_token_count->0),
{
}

/// A command is refused, and its process id given back, where it asks to leave the sandbox, that was not
/// granted for the turn and nobody can be asked. Else its rights are looked at in its directory.
pub proof fn law_leave_is_asked_for(
    args: ExecCommandArgs,
    mode: ExecuteMode,
    tokens: usize,
    command: Vec<String>,
    permissions: Permissions,
    next: ExecState,
    action: ExecAction,
)
    requires
        exec_goes_on(
            (ExecState::Permitting { args, run_mode: mode, max_output_tokens: tokens, command }),
            ExecEvent::Permissions(permissions),
            next,
            action,
        ),
    ensures
        action is Finish <==> permissions.requests_sandbox_override && !permissions.preapproved
            && !permissions.approval_on_request,
        action matches ExecAction::Finish { release, result } ==> {
            let policy = permissions.approval_policy@;
            &&& next is Over && release
            &&& result matches Err(FunctionCallError::RespondToModel(message))
            &&& message@ == "approval policy is "@ + policy
                + "; reject command — you cannot ask for escalated permissions if the approval policy is "@
                + policy
        },
        !(action is Finish) ==> {
            &&& next is Normalizing && holds(next, args, mode, tokens)
            &&& action matches ExecAction::Normalize { workdir }
            &&& args.workdir is None ==> workdir is None
            &&& args.workdir matches Some(dir) ==> if dir@.len() == 0 {
                workdir is None
            } else {
                workdir matches Some(used) && used@ == dir@
            }
        },
{
}

/// A command whose rights are not in order is refused with the reason, and its process id is given back.
pub proof fn law_rights_out_of_order_are_refused(
    args: ExecCommandArgs,
    mode: ExecuteMode,
    tokens: usize,
    command: Vec<String>,
    normalized: Result<(), String>,
    next: ExecState,
    action: ExecAction,
)
    requires
        exec_goes_on(
            (ExecState::Normalizing { args, run_mode: mode, max_output_tokens: tokens, command }),
            ExecEvent::Normalized(normalized),
            next,
            action,
        ),
    ensures
        normalized is Ok ==> action is Intercept && next is Intercepting && holds(
            next,
            args,
            mode,
            tokens,
        ),
        normalized matches Err(reason) ==> {
            &&& next is Over
            &&& action matches ExecAction::Finish { release, result: Err(error) }
            &&& release
            &&& error matches FunctionCallError::RespondToModel(message)
            &&& message@ == reason@
        },
{
}

/// A command that is a patch is not run: its answer is what the patch answered, and its process id is
/// given back.
pub proof fn law_patch_is_not_run(
    args: ExecCommandArgs,
    mode: ExecuteMode,
    tokens: usize,
    command: Vec<String>,
    shown: String,
    result: Result<Option<String>, FunctionCallError>,
    next: ExecState,
    action: ExecAction,
)
    requires
        exec_goes_on(
            (ExecState::Intercepting { args, run_mode: mode, max_output_tokens: tokens, command }),
            (ExecEvent::Intercepted { shown, result }),
            next,
            action,
        ),
    ensures
        action is Run <==> result == Ok::<Option<String>, FunctionCallError>(None),
        result matches Ok(Some(text)) ==> {
            &&& next is Over
            &&& action matches ExecAction::Finish { release, result: Ok(output) }
            &&& release
            &&& output.raw_output@ == encode_utf8(text@)
            &&& output.exit_code is None && output.process_id is None && output.shell_id is None
            &&& output.max_output_tokens == Some(tokens)
            &&& output.wall_time_nanos == 0 && output.original_token_count is None
            &&& output.event_call_id@ == ""@ && output.chunk_id@ == ""@
            &&& output.hook_command is None
        },
        result matches Err(error) ==> next is Over && action == (ExecAction::Finish {
            release: false,
            result: Err(error),
        }),
{
}

/// A command that could not be run, or that the sandbox stopped, is answered with what was said of it.
pub proof fn law_failure_is_told(
    mode: ExecuteMode,
    tokens: usize,
    hook_command: String,
    shown: String,
    ran: Ran,
    next: ExecState,
    action: ExecAction,
)
    requires
        exec_goes_on(
            (ExecState::Running {
                run_mode: mode,
                max_output_tokens: tokens,
                hook_command,
                shown,
            }),
            ExecEvent::Ran(ran),
            next,
            action,
        ),
    ensures
        ran matches Ran::Failed(reason) ==> {
            &&& next is Over
            &&& action matches ExecAction::Finish { release, result: Err(error) }
            &&& !release
            &&& error matches FunctionCallError::RespondToModel(message)
            &&& message@ == "execute failed for `"@ + shown@ + "`: "@ + reason@
        },
        ran matches Ran::Denied {
            call_id,
            chunk_id,
            wall_time_nanos,
            text,
            exit_code,
            token_count,
        } ==> {
            &&& next is Over
            &&& action matches ExecAction::Finish { release, result: Ok(output) }
            &&& !release
            &&& output.event_call_id == call_id
            &&& output.chunk_id == chunk_id
            &&& output.wall_time_nanos == wall_time_nanos
            &&& output.raw_output@ == encode_utf8(text@)
            &&& output.exit_code == Some(exit_code)
            &&& output.original_token_count == Some(token_count)
            &&& output.max_output_tokens == Some(tokens)
            &&& output.hook_command == Some(hook_command)
            &&& output.process_id is None && output.shell_id is None
        },
{
}

/// What runs a command: the shell that it names, or else that of the session, or the zsh of the session with
/// the command behind its option.
pub proof fn law_shell_is_chosen(args: ExecCommandArgs, mode: ShellMode, login: bool, choice: CommandChoice)
    requires
        chooses(args, mode, login, choice),
    ensures
        mode is Direct ==> (choice matches CommandChoice::Derive { shell, login: used } && used
            == login && (args.shell matches Some(named) ==> (shell matches Some(held) && held@
            == named@)) && (args.shell is None ==> shell is None)),
        mode matches ShellMode::ZshFork { zsh_path } ==> (choice matches CommandChoice::Command(
            command,
        ) && command@.len() == 3 && command@[0]@ == zsh_path@ && command@[1]@ == (if login {
            "-lc"@
        } else {
            "-c"@
        }) && command@[2]@ == args.cmd@),
{
    if let CommandChoice::Command(command) = choice {
        let shown = texts(command@);
        assert(shown.len() == command@.len());
        if mode is ZshFork {
            assert(shown[0] == command@[0]@ && shown[1] == command@[1]@ && shown[2]
                == command@[2]@);
        }
    }
}

} // verus!
