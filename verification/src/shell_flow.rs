//! The course of the tools that look after shells in the background.
use vstd::prelude::*;
use vstd::string::*;
use vstd::utf8::encode_utf8;

use crate::error::FunctionCallError;
use crate::outside::utf8_lossy;
use crate::shell_tools::{
    bash_command, exec_output_from_response, parse_shell_id, shell_failure, shell_failure_message,
    shell_id_choice, shell_list_response, shell_management_tool_command,
    shell_output_tool_command, shell_stop_response, shown_duration, shown_shells,
    write_stdin_error, ActiveShell, ExecCommandToolOutput, ExecToolCallOutput,
};
use crate::text::{decimal_i32, opt_texts, owned, signed_decimal, text_of};

verus! {

/// A call of a tool that looks after shells.
#[derive(Debug, PartialEq, Eq)]
pub enum ShellCall {
    Read { shell_id: String, max_output_tokens: usize },
    Wait { shell_id: String, yield_time_ms: Option<u64>, max_output_tokens: usize },
    List,
    Stop { shell_id: String },
    Write { process_id: i32, chars: String, yield_time_ms: u64, max_output_tokens: usize },
}

/// What the manager of the shells is asked for.
#[derive(Debug, PartialEq, Eq)]
pub enum ShellRequest {
    Read { process_id: i32, max_output_tokens: usize },
    Wait { process_id: i32, yield_time_ms: Option<u64>, max_output_tokens: usize },
    List,
    Terminate { process_id: i32 },
    Write { process_id: i32, input: String, yield_time_ms: u64, max_output_tokens: usize },
}

/// How a call begins: the command that is announced, if one is, and what the manager is asked for.
#[derive(Debug, PartialEq, Eq)]
pub struct ShellBegin {
    pub announced: Option<Vec<String>>,
    pub request: ShellRequest,
}

/// What the manager of the shells answers. The sizes and the names of answers that are texts are
/// given with them.
#[derive(Debug, PartialEq, Eq)]
pub enum ShellReply {
    Response(ExecCommandToolOutput),
    Shells { shells: Vec<ActiveShell>, token_count: usize, chunk_id: String },
    Stopped { shell: ActiveShell, token_count: usize, chunk_id: String },
    Failed(String),
}

/// What is reported at the end of a call.
#[derive(Debug, PartialEq, Eq)]
pub enum ShellReport {
    Success(ExecToolCallOutput),
    Failure(String),
    /// Something was typed into a process.
    Interaction { call_id: String, process_id: String, stdin: String },
    Silent,
}

/// How a call ends.
#[derive(Debug, PartialEq, Eq)]
pub struct ShellEnd {
    pub report: ShellReport,
    pub result: Result<ExecCommandToolOutput, FunctionCallError>,
}

/// The name of the tool that is called.
pub open spec fn call_name(call: ShellCall) -> Seq<char> {
    match call {
        ShellCall::Read { .. } => "read_shell_output"@,
        ShellCall::Wait { .. } => "wait_shell_output"@,
        ShellCall::List => "list_shells"@,
        ShellCall::Stop { .. } => "stop_shell"@,
        ShellCall::Write { .. } => "write_stdin"@,
    }
}

/// The id of the shell that a call names.
pub open spec fn call_shell(call: ShellCall) -> Option<Seq<char>> {
    match call {
        ShellCall::Read { shell_id, .. } => Some(shell_id@),
        ShellCall::Wait { shell_id, .. } => Some(shell_id@),
        ShellCall::Stop { shell_id } => Some(shell_id@),
        _ => None,
    }
}

/// Whether `request` is what a call asks the manager for, of the process with the given id.
pub open spec fn asks(call: ShellCall, id: i32, request: ShellRequest) -> bool {
    match call {
        ShellCall::Read { max_output_tokens, .. } => request == (ShellRequest::Read {
            process_id: id,
            max_output_tokens,
        }),
        ShellCall::Wait { yield_time_ms, max_output_tokens, .. } => request == (
        ShellRequest::Wait { process_id: id, yield_time_ms, max_output_tokens }),
        ShellCall::List => request is List,
        ShellCall::Stop { .. } => request == (ShellRequest::Terminate { process_id: id }),
        ShellCall::Write { process_id, chars, yield_time_ms, max_output_tokens } => {
            &&& request matches ShellRequest::Write {
                process_id: held,
                input,
                yield_time_ms: time,
                max_output_tokens: tokens,
            }
            &&& held == process_id
            &&& input@ == chars@
            &&& time == yield_time_ms
            &&& tokens == max_output_tokens
        },
    }
}

/// The command that a call is announced as: none for what is typed into a process.
pub open spec fn announces(call: ShellCall) -> Option<Seq<Seq<char>>> {
    match (call, call_shell(call)) {
        (ShellCall::Write { .. }, _) => None,
        (_, Some(id)) => Some(bash_command(call_name(call) + " "@ + id)),
        (_, None) => Some(bash_command(call_name(call))),
    }
}

/// Begins a call. A shell id that is no number is refused before anything is announced.
pub fn begin_shell_call(call: &ShellCall) -> (r: Result<ShellBegin, FunctionCallError>)
    ensures
        match call_shell(*call) {
            Some(id) => match shell_id_choice(id) {
                Ok(number) => {
                    &&& r matches Ok(begin)
                    &&& opt_texts(begin.announced) == announces(*call)
                    &&& asks(*call, number, begin.request)
                },
                Err(message) => r matches Err(error) && error.says(message),
            },
            None => {
                &&& r matches Ok(begin)
                &&& opt_texts(begin.announced) == announces(*call)
                &&& asks(*call, 0, begin.request)
            },
        },
{
    match call {
        ShellCall::Read { shell_id, max_output_tokens } => {
            let process_id = match parse_shell_id(shell_id.as_str()) {
                Ok(id) => id,
                Err(error) => return Err(error),
            };
            Ok(
                ShellBegin {
                    announced: Some(
                        shell_output_tool_command("read_shell_output", shell_id.as_str()),
                    ),
                    request: ShellRequest::Read {
                        process_id,
                        max_output_tokens: *max_output_tokens,
                    },
                },
            )
        },
        ShellCall::Wait { shell_id, yield_time_ms, max_output_tokens } => {
            let process_id = match parse_shell_id(shell_id.as_str()) {
                Ok(id) => id,
                Err(error) => return Err(error),
            };
            Ok(
                ShellBegin {
                    announced: Some(
                        shell_output_tool_command("wait_shell_output", shell_id.as_str()),
                    ),
                    request: ShellRequest::Wait {
                        process_id,
                        yield_time_ms: *yield_time_ms,
                        max_output_tokens: *max_output_tokens,
                    },
                },
            )
        },
        ShellCall::List => Ok(
            ShellBegin {
                announced: Some(shell_management_tool_command("list_shells", None)),
                request: ShellRequest::List,
            },
        ),
        ShellCall::Stop { shell_id } => {
            let process_id = match parse_shell_id(shell_id.as_str()) {
                Ok(id) => id,
                Err(error) => return Err(error),
            };
            Ok(
                ShellBegin {
                    announced: Some(
                        shell_management_tool_command("stop_shell", Some(shell_id.as_str())),
                    ),
                    request: ShellRequest::Terminate { process_id },
                },
            )
        },
        ShellCall::Write { process_id, chars, yield_time_ms, max_output_tokens } => Ok(
            ShellBegin {
                announced: None,
                request: ShellRequest::Write {
                    process_id: *process_id,
                    input: owned(chars.as_str()),
                    yield_time_ms: *yield_time_ms,
                    max_output_tokens: *max_output_tokens,
                },
            },
        ),
    }
}

/// Whether a reply answers what a call asks for.
pub open spec fn answers(call: ShellCall, reply: ShellReply) -> bool {
    match call {
        ShellCall::List => reply is Shells,
        ShellCall::Stop { .. } => reply is Stopped || reply is Failed,
        _ => reply is Response || reply is Failed,
    }
}

/// Whether a report tells of success with the given bytes.
pub open spec fn reports(report: ShellReport, response: ExecCommandToolOutput) -> bool {
    &&& report matches ShellReport::Success(output)
    &&& output.exit_code == match response.exit_code {
        Some(code) => code,
        None => 0i32,
    }
    &&& output.aggregated_output@ == utf8_lossy(response.raw_output@)
    &&& output.stdout@ == utf8_lossy(response.raw_output@)
    &&& output.stderr@ == ""@
    &&& output.duration_nanos == response.wall_time_nanos
    &&& !output.timed_out
}

/// Whether an answer is a text.
pub open spec fn is_text_answer(
    response: ExecCommandToolOutput,
    text: Seq<char>,
    shell_id: Option<Seq<char>>,
    token_count: usize,
    chunk_id: String,
) -> bool {
    &&& response.raw_output@ == encode_utf8(text)
    &&& response.event_call_id@ == ""@
    &&& response.chunk_id == chunk_id
    &&& response.wall_time_nanos == 0
    &&& response.max_output_tokens is None
    &&& text_of(response.shell_id) == shell_id
    &&& response.process_id is None
    &&& response.exit_code == Some(0i32)
    &&& response.original_token_count == Some(token_count)
    &&& response.hook_command is None
}

/// Whether `end` is how a call ends after a reply.
pub open spec fn ends(call: ShellCall, reply: ShellReply, end: ShellEnd) -> bool {
    match reply {
        ShellReply::Failed(error) => match call {
            ShellCall::Write { process_id, .. } => {
                &&& end.report is Silent
                &&& end.result matches Err(refusal)
                &&& refusal.says(
                    "write_stdin failed for process "@ + signed_decimal(process_id as int) + ": "@
                        + error@,
                )
            },
            _ => {
                let message = shell_failure(call_name(call), call_shell(call)->0, error@);
                &&& end.report matches ShellReport::Failure(told)
                &&& told@ == message
                &&& end.result matches Err(refusal)
                &&& refusal.says(message)
            },
        },
        ShellReply::Response(response) => {
            &&& end.result == Ok::<ExecCommandToolOutput, FunctionCallError>(response)
            &&& match call {
                ShellCall::Write { process_id, chars, .. } => {
                    &&& end.report matches ShellReport::Interaction {
                        call_id,
                        process_id: shown,
                        stdin,
                    }
                    &&& call_id@ == response.event_call_id@
                    &&& shown@ == signed_decimal(process_id as int)
                    &&& stdin@ == chars@
                },
                _ => reports(end.report, response),
            }
        },
        ShellReply::Shells { shells, token_count, chunk_id } => {
            &&& end.result matches Ok(response)
            &&& is_text_answer(response, shown_shells(shells@), None, token_count, chunk_id)
            &&& reports(end.report, response)
        },
        ShellReply::Stopped { shell, token_count, chunk_id } => {
            &&& end.result matches Ok(response)
            &&& is_text_answer(
                response,
                "Stopped shell "@ + shell.shell_id@ + " after "@ + shown_duration(
                    shell.runtime_secs as nat,
                ) + ": "@ + shell.command@,
                Some(shell.shell_id@),
                token_count,
                chunk_id,
            )
            &&& reports(end.report, response)
        },
    }
}

fn fail_shell_call(tool_name: &str, shell_id: &str, error: &str) -> (r: ShellEnd)
    ensures
        r.report matches ShellReport::Failure(told) && told@ == shell_failure(
            tool_name@,
            shell_id@,
            error@,
        ),
        r.result matches Err(refusal) && refusal.says(
            shell_failure(tool_name@, shell_id@, error@),
        ),
{
    let message = shell_failure_message(tool_name, shell_id, error);
    ShellEnd {
        report: ShellReport::Failure(owned(message.as_str())),
        result: Err(FunctionCallError::RespondToModel(message)),
    }
}

fn succeed(response: ExecCommandToolOutput) -> (r: ShellEnd)
    ensures
        r.result == Ok::<ExecCommandToolOutput, FunctionCallError>(response),
        reports(r.report, response),
{
    let output = exec_output_from_response(&response);
    ShellEnd { report: ShellReport::Success(output), result: Ok(response) }
}

/// Ends a call after the manager's reply.
pub fn end_shell_call(call: ShellCall, reply: ShellReply) -> (r: ShellEnd)
    requires
        answers(call, reply),
    ensures
        ends(call, reply, r),
{
    match reply {
        ShellReply::Failed(error) => match call {
            ShellCall::Read { shell_id, .. } => fail_shell_call(
                "read_shell_output",
                shell_id.as_str(),
                error.as_str(),
            ),
            ShellCall::Wait { shell_id, .. } => fail_shell_call(
                "wait_shell_output",
                shell_id.as_str(),
                error.as_str(),
            ),
            ShellCall::Stop { shell_id } => fail_shell_call(
                "stop_shell",
                shell_id.as_str(),
                error.as_str(),
            ),
            ShellCall::Write { process_id, .. } => ShellEnd {
                report: ShellReport::Silent,
                result: Err(write_stdin_error(process_id, error.as_str())),
            },
            ShellCall::List => ShellEnd {
                report: ShellReport::Silent,
                result: Err(FunctionCallError::RespondToModel(error)),
            },
        },
        ShellReply::Response(response) => match call {
            ShellCall::Write { process_id, chars, .. } => ShellEnd {
                report: ShellReport::Interaction {
                    call_id: owned(response.event_call_id.as_str()),
                    process_id: decimal_i32(process_id),
                    stdin: chars,
                },
                result: Ok(response),
            },
            _ => succeed(response),
        },
        ShellReply::Shells { shells, token_count, chunk_id } => succeed(
            shell_list_response(shells.as_slice(), token_count, chunk_id),
        ),
        ShellReply::Stopped { shell, token_count, chunk_id } => succeed(
            shell_stop_response(&shell, token_count, chunk_id),
        ),
    }
}

} // verus!
