//! What calls that look after running shells ask for and answer.
use vstd::prelude::*;
use vstd::utf8::encode_utf8;

use crate::error::FunctionCallError;
use crate::outside::utf8_lossy;
use crate::shell_flow::{
    announces, asks, ends, ShellCall, ShellEnd, ShellReply, ShellReport, ShellRequest,
};
use crate::shell_tools::{
    digits_of, digits_value, is_digit, manages_shells, shell_call_mutates, shell_id_choice,
    shell_tool_named, shown_duration, shown_shell, shown_shells, ActiveShell, ExecCommandToolOutput,
    ShellTool,
};
use crate::text::{decimal, joined, signed_decimal, text_of};
use crate::text_laws::{law_parts_are_joined, value};

verus! {

proof fn lemma_value(digits: Seq<char>)
    requires
        forall|i: int| 0 <= i < digits.len() ==> '0' <= #[trigger] digits[i] <= '9',
    ensures
        digits_value(digits) == value(digits),
        value(digits) >= 0,
    decreases digits.len(),
{
    if digits.len() > 0 {
        let front = digits.drop_last();
        assert forall|i: int| 0 <= i < front.len() implies '0' <= #[trigger] front[i] <= '9' by {
            assert(front[i] == digits[i]);
        }
        lemma_value(front);
        assert('0' <= digits[digits.len() - 1] <= '9');
    }
}

/// A shell id is read as the number that its digits stand for, with a sign in front or without. One that does
/// not fit, that is empty or that holds anything else is refused.
pub proof fn law_shell_id_is_its_number(digits: Seq<char>)
    requires
        digits.len() > 0,
        forall|i: int| 0 <= i < digits.len() ==> '0' <= #[trigger] digits[i] <= '9',
    ensures
        value(digits) <= i32::MAX ==> (shell_id_choice(digits) matches Ok(id) && id == value(digits)),
        value(digits) > i32::MAX ==> shell_id_choice(digits) is Err,
        value(digits) <= i32::MAX ==> (shell_id_choice(seq!['+'] + digits) matches Ok(id) && id
            == value(digits)),
        value(digits) <= 0x8000_0000 ==> (shell_id_choice(seq!['-'] + digits) matches Ok(id) && id
            == -value(digits)),
        value(digits) > 0x8000_0000 ==> shell_id_choice(seq!['-'] + digits) is Err,
        shell_id_choice(Seq::empty()) is Err,
        shell_id_choice(seq!['-']) is Err,
{
    lemma_value(digits);
    assert('0' <= digits[0] <= '9');
    assert(forall|i: int| 0 <= i < digits.len() ==> is_digit(#[trigger] digits[i]));
    assert((seq!['+'] + digits).skip(1) =~= digits);
    assert((seq!['-'] + digits).skip(1) =~= digits);
    assert(digits_of(digits) == digits);
}

/// A shell id with a character that is no digit behind its sign is refused.
pub proof fn law_other_shell_ids_are_refused(text: Seq<char>, at: int)
    requires
        0 <= at < text.len(),
        !('0' <= text[at] <= '9'),
        at > 0 || (text[at] != '+' && text[at] != '-'),
    ensures
        shell_id_choice(text) is Err,
{
    let digits = digits_of(text);
    if text[0] == '+' || text[0] == '-' {
        assert(digits[at - 1] == text[at]);
        assert(!is_digit(digits[at - 1]));
    } else {
        assert(!is_digit(digits[at]));
    }
}

/// A call asks for what it is named after, of the shell that it names and with its own limits.
pub proof fn law_call_asks_for_its_shell(call: ShellCall, id: i32, request: ShellRequest)
    requires
        asks(call, id, request),
    ensures
        match call {
            ShellCall::Read { max_output_tokens, .. } => {
                &&& request matches ShellRequest::Read { process_id, max_output_tokens: tokens }
                &&& process_id == id && tokens == max_output_tokens
            },
            ShellCall::Wait { yield_time_ms, max_output_tokens, .. } => {
                &&& request matches ShellRequest::Wait {
                    process_id,
                    yield_time_ms: time,
                    max_output_tokens: tokens,
                }
                &&& process_id == id && time == yield_time_ms && tokens == max_output_tokens
            },
            ShellCall::List => request is List,
            ShellCall::Stop { .. } => {
                &&& request matches ShellRequest::Terminate { process_id }
                &&& process_id == id
            },
            ShellCall::Write { process_id: own, chars, yield_time_ms, max_output_tokens } => {
                &&& request matches ShellRequest::Write {
                    process_id,
                    input,
                    yield_time_ms: time,
                    max_output_tokens: tokens,
                }
                &&& process_id == own && input@ == chars@
                &&& time == yield_time_ms && tokens == max_output_tokens
            },
        },
{
}

/// A call is announced as a command line with its name and the shell that it names; what is typed into a
/// process is not announced.
pub proof fn law_call_is_announced(shell_id: String, tokens: usize, time: Option<u64>, call: ShellCall)
    ensures
        announces(ShellCall::Read { shell_id, max_output_tokens: tokens }) == Some(
            seq!["bash"@, "-lc"@, "read_shell_output"@ + " "@ + shell_id@],
        ),
        announces(
            (ShellCall::Wait { shell_id, yield_time_ms: time, max_output_tokens: tokens }),
        ) == Some(seq!["bash"@, "-lc"@, "wait_shell_output"@ + " "@ + shell_id@]),
        announces(ShellCall::Stop { shell_id }) == Some(
            seq!["bash"@, "-lc"@, "stop_shell"@ + " "@ + shell_id@],
        ),
        announces(ShellCall::List) == Some(seq!["bash"@, "-lc"@, "list_shells"@]),
        call is Write ==> announces(call) is None,
{
}

/// Whether a report tells that a call succeeded with this output.
pub open spec fn tells_success(report: ShellReport, response: ExecCommandToolOutput) -> bool {
    &&& report matches ShellReport::Success(output)
    &&& response.exit_code matches Some(code) ==> output.exit_code == code
    &&& response.exit_code is None ==> output.exit_code == 0
    &&& output.aggregated_output@ == utf8_lossy(response.raw_output@)
    &&& output.stdout@ == utf8_lossy(response.raw_output@)
    &&& output.duration_nanos == response.wall_time_nanos
    &&& !output.timed_out
}

/// A response is handed on as it is, and reported with its text; what was typed into a process is reported as
/// such.
pub proof fn law_response_is_handed_on(
    call: ShellCall,
    response: ExecCommandToolOutput,
    end: ShellEnd,
)
    requires
        ends(call, ShellReply::Response(response), end),
    ensures
        end.result == Ok::<ExecCommandToolOutput, FunctionCallError>(response),
        call matches ShellCall::Write { process_id, chars, .. } ==> (
        end.report matches ShellReport::Interaction { call_id, process_id: shown, stdin } && call_id@
            == response.event_call_id@ && shown@ == signed_decimal(process_id as int) && stdin@
            == chars@),
        !(call is Write) ==> tells_success(end.report, response),
{
}

/// Running shells are answered as a list, and a stopped shell by its id, its time and its command.
pub proof fn law_shells_are_answered(
    call: ShellCall,
    shells: Vec<ActiveShell>,
    shell: ActiveShell,
    token_count: usize,
    chunk_id: String,
    listed: ShellEnd,
    stopped: ShellEnd,
)
    requires
        ends(call, (ShellReply::Shells { shells, token_count, chunk_id }), listed),
        ends(call, (ShellReply::Stopped { shell, token_count, chunk_id }), stopped),
    ensures
        listed.result matches Ok(response) && response.raw_output@ == encode_utf8(
            shown_shells(shells@),
        ) && response.exit_code == Some(0i32) && response.original_token_count == Some(token_count)
            && response.chunk_id == chunk_id && response.shell_id is None
            && response.process_id is None && tells_success(listed.report, response),
        stopped.result matches Ok(response) && response.raw_output@ == encode_utf8(
            "Stopped shell "@ + shell.shell_id@ + " after "@ + shown_duration(
                shell.runtime_secs as nat,
            ) + ": "@ + shell.command@,
        ) && response.exit_code == Some(0i32) && text_of(response.shell_id) == Some(
            shell.shell_id@,
        ) && response.process_id is None && response.original_token_count == Some(token_count)
            && tells_success(stopped.report, response),
{
}

/// A call that failed is told with its name, its shell and the reason, to the user and to the model; one that
/// typed into a process is told to the model only, with the process.
pub proof fn law_failed_call_is_told(call: ShellCall, reason: String, end: ShellEnd)
    requires
        ends(call, ShellReply::Failed(reason), end),
    ensures
        call matches ShellCall::Write { process_id, .. } ==> end.report is Silent && (
        end.result matches Err(FunctionCallError::RespondToModel(message)) && message@
            == "write_stdin failed for process "@ + signed_decimal(process_id as int) + ": "@
            + reason@),
        call matches ShellCall::Read { shell_id, .. } ==> tells_failure(
            end,
            "read_shell_output"@ + " failed for shell "@ + shell_id@ + ": "@ + reason@,
        ),
        call matches ShellCall::Wait { shell_id, .. } ==> tells_failure(
            end,
            "wait_shell_output"@ + " failed for shell "@ + shell_id@ + ": "@ + reason@,
        ),
        call matches ShellCall::Stop { shell_id } ==> tells_failure(
            end,
            "stop_shell"@ + " failed for shell "@ + shell_id@ + ": "@ + reason@,
        ),
{
}

/// Whether a failure is told to the user and to the model.
pub open spec fn tells_failure(end: ShellEnd, message: Seq<char>) -> bool {
    &&& end.report matches ShellReport::Failure(told)
    &&& told@ == message
    &&& end.result matches Err(FunctionCallError::RespondToModel(text))
    &&& text@ == message
}

/// The time of a shell is shown in minutes and seconds, or in seconds alone below a minute.
pub proof fn law_shell_times_are_shown(minutes: nat, seconds: nat)
    requires
        seconds < 60,
    ensures
        shown_duration(seconds) == decimal(seconds) + "s"@,
        minutes > 0 ==> shown_duration(minutes * 60 + seconds) == decimal(minutes) + "m "@ + decimal(
            seconds,
        ) + "s"@,
{
}

/// The list of shells has a line for each, below a line with their number.
pub proof fn law_shells_are_listed(shells: Seq<ActiveShell>, shell: ActiveShell)
    ensures
        shown_shells(Seq::empty()) == "No active shells."@,
        shown_shells(seq![shell]) == decimal(1) + " active shell(s):"@ + "\n"@ + shown_shell(shell),
        shells.len() > 0 ==> shown_shells(shells) == joined(
            seq![decimal(shells.len()) + " active shell(s):"@] + shells.map_values(
                |s: ActiveShell| shown_shell(s),
            ),
            "\n"@,
        ),
        shown_shell(shell) == "- shell_id: "@ + shell.shell_id@ + ", runtime: "@ + shown_duration(
            shell.runtime_secs as nat,
        ) + ", command: "@ + shell.command@,
{
    let head = seq![decimal(1) + " active shell(s):"@];
    let row = seq![shown_shell(shell)];
    let single = seq![shell];
    law_parts_are_joined(head, row, head[0], "\n"@);
    law_parts_are_joined(row, row, row[0], "\n"@);
    assert(Seq::new(single.len(), |i: int| shown_shell(single[i])) =~= row);
    assert(Seq::new(shells.len(), |i: int| shown_shell(shells[i])) =~= shells.map_values(
        |s: ActiveShell| shown_shell(s),
    ));
}

/// Reading, waiting and listing change nothing, stopping does; any other call does unless its command is known
/// to be safe.
pub proof fn law_what_shell_calls_change(name: Seq<char>, known_safe: Option<bool>)
    ensures
        shell_call_mutates(false, name, known_safe),
        name == "read_shell_output"@ || name == "wait_shell_output"@ || name == "list_shells"@
            ==> !shell_call_mutates(true, name, known_safe) && manages_shells(name),
        name == "stop_shell"@ ==> shell_call_mutates(true, name, known_safe) && manages_shells(name),
        !manages_shells(name) ==> shell_call_mutates(true, name, known_safe) == (known_safe != Some(
            true,
        )),
{
    reveal_strlit("read_shell_output");
    reveal_strlit("wait_shell_output");
    reveal_strlit("list_shells");
    reveal_strlit("stop_shell");
    assert("stop_shell"@.len() == 10);
    assert("list_shells"@.len() == 11);
    assert("read_shell_output"@.len() == 17);
    assert("wait_shell_output"@.len() == 17);
}

/// Each tool for shells has its name; the older name of the one that runs commands is still known.
pub proof fn law_shell_tools_are_named()
    ensures
        shell_tool_named("execute"@) == Some(ShellTool::Execute { legacy: false }),
        shell_tool_named("exec_command"@) == Some(ShellTool::Execute { legacy: true }),
        shell_tool_named("read_shell_output"@) == Some(ShellTool::ReadShellOutput),
        shell_tool_named("wait_shell_output"@) == Some(ShellTool::WaitShellOutput),
        shell_tool_named("list_shells"@) == Some(ShellTool::ListShells),
        shell_tool_named("stop_shell"@) == Some(ShellTool::StopShell),
        shell_tool_named("write_stdin"@) == Some(ShellTool::WriteStdin),
{
    reveal_strlit("execute");
    reveal_strlit("exec_command");
    reveal_strlit("read_shell_output");
    reveal_strlit("wait_shell_output");
    reveal_strlit("list_shells");
    reveal_strlit("stop_shell");
    reveal_strlit("write_stdin");
    assert("execute"@.len() == 7 && "exec_command"@.len() == 12 && "stop_shell"@.len() == 10);
    assert("read_shell_output"@.len() == 17 && "read_shell_output"@[0] == 'r');
    assert("wait_shell_output"@.len() == 17 && "wait_shell_output"@[0] == 'w');
    assert("list_shells"@.len() == 11 && "list_shells"@[0] == 'l');
    assert("write_stdin"@.len() == 11 && "write_stdin"@[0] == 'w');
}

} // verus!
