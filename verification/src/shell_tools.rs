//! The tools that run commands in shells: names, arguments, and answers.
use vstd::prelude::*;
use vstd::slice::slice_to_vec;
use vstd::string::*;
use vstd::utf8::{decode_utf8, encode_utf8, valid_utf8};

use crate::error::{agrees, respond, FunctionCallError};
use crate::file_handler::ToolKind;
use crate::outside::{decode_lossy, utf8_lossy};
use crate::text::{
    decimal, decimal_i32, decimal_u64, decimal_usize, join, joined, owned, signed_decimal, slice_of,
    text_eq, text_of, texts, to_chars,
};

verus! {

/// Handles the shell tools.
#[derive(Clone, Copy, Debug, PartialEq, Eq, Structural)]
pub struct UnifiedExecHandler;

/// The shell tools.
#[derive(Clone, Copy, Debug, PartialEq, Eq, Structural)]
pub enum ShellTool {
    /// Runs a command; under its older name, in the background unless it says otherwise.
    Execute { legacy: bool },
    ReadShellOutput,
    WaitShellOutput,
    ListShells,
    StopShell,
    WriteStdin,
}

/// The tool that a name stands for.
pub open spec fn shell_tool_named(name: Seq<char>) -> Option<ShellTool> {
    if name == "execute"@ {
        Some(ShellTool::Execute { legacy: false })
    } else if name == "exec_command"@ {
        Some(ShellTool::Execute { legacy: true })
    } else if name == "read_shell_output"@ {
        Some(ShellTool::ReadShellOutput)
    } else if name == "wait_shell_output"@ {
        Some(ShellTool::WaitShellOutput)
    } else if name == "list_shells"@ {
        Some(ShellTool::ListShells)
    } else if name == "stop_shell"@ {
        Some(ShellTool::StopShell)
    } else if name == "write_stdin"@ {
        Some(ShellTool::WriteStdin)
    } else {
        None
    }
}

/// Whether a call may change something. `known_safe` says whether its command is one that is known
/// to change nothing, if it has a command.
pub open spec fn shell_call_mutates(
    is_function_call: bool,
    name: Seq<char>,
    known_safe: Option<bool>,
) -> bool {
    if !is_function_call {
        true
    } else if name == "read_shell_output"@ || name == "wait_shell_output"@ || name
        == "list_shells"@ {
        false
    } else if name == "stop_shell"@ {
        true
    } else {
        known_safe != Some(true)
    }
}

/// The id and the command that are reported after a call.
#[derive(Debug, PartialEq, Eq)]
pub struct PostToolUse {
    pub tool_use_id: String,
    pub command: String,
}

/// Whether a tool only looks after shells that run already.
pub open spec fn manages_shells(name: Seq<char>) -> bool {
    name == "read_shell_output"@ || name == "wait_shell_output"@ || name == "list_shells"@ || name
        == "stop_shell"@
}

impl UnifiedExecHandler {
    pub fn kind(&self) -> (r: ToolKind)
        ensures
            r == ToolKind::Function,
    {
        ToolKind::Function
    }

    /// Whether the handler takes such a payload.
    pub fn matches_kind(&self, is_function_call: bool) -> (r: bool)
        ensures
            r == is_function_call,
    {
        is_function_call
    }

    /// Whether a call may change something.
    pub fn is_mutating(
        &self,
        is_function_call: bool,
        tool_name: &str,
        known_safe: Option<bool>,
    ) -> (r: bool)
        ensures
            r == shell_call_mutates(is_function_call, tool_name@, known_safe),
    {
        if !is_function_call {
            return true;
        }
        if text_eq(tool_name, "read_shell_output") || text_eq(tool_name, "wait_shell_output")
            || text_eq(tool_name, "list_shells") {
            return false;
        }
        if text_eq(tool_name, "stop_shell") {
            return true;
        }
        match known_safe {
            Some(safe) => !safe,
            None => true,
        }
    }

    /// The command that is reported before a call, if the call runs one. `cmd` is the command of
    /// the arguments, if they can be read.
    pub fn pre_tool_use_payload(
        &self,
        tool_name: &str,
        has_namespace: bool,
        is_function_call: bool,
        cmd: Option<&str>,
    ) -> (r: Option<String>)
        ensures
            text_of(r) == if !has_namespace && (tool_name@ == "execute"@ || tool_name@
                == "exec_command"@) && is_function_call {
                slice_of(cmd)
            } else {
                None
            },
    {
        if has_namespace || !(text_eq(tool_name, "execute") || text_eq(tool_name, "exec_command")) {
            return None;
        }
        if !is_function_call {
            return None;
        }
        match cmd {
            Some(command) => Some(owned(command)),
            None => None,
        }
    }

    /// The id and the command that are reported after a call, if the call ran one.
    pub fn post_tool_use_payload(
        &self,
        tool_name: &str,
        is_function_call: bool,
        call_id: &str,
        event_call_id: &str,
        hook_command: Option<&str>,
    ) -> (r: Option<PostToolUse>)
        ensures
            if is_function_call && !manages_shells(tool_name@) && hook_command is Some {
                &&& r matches Some(payload)
                &&& payload.tool_use_id@ == if event_call_id@.len() == 0 {
                    call_id@
                } else {
                    event_call_id@
                }
                &&& payload.command@ == hook_command->0@
            } else {
                r is None
            },
    {
        if !is_function_call {
            return None;
        }
        if text_eq(tool_name, "read_shell_output") || text_eq(tool_name, "wait_shell_output")
            || text_eq(tool_name, "list_shells") || text_eq(tool_name, "stop_shell") {
            return None;
        }
        let command = match hook_command {
            Some(command) => owned(command),
            None => return None,
        };
        let tool_use_id = if event_call_id.is_empty() {
            owned(call_id)
        } else {
            owned(event_call_id)
        };
        Some(PostToolUse { tool_use_id, command })
    }

    /// The tool that is called, or the refusal of a payload, of a session without shells, or of a
    /// name.
    pub fn tool(&self, tool_name: &str, is_function_call: bool, has_environment: bool) -> (r: Result<
        ShellTool,
        FunctionCallError,
    >)
        ensures
            agrees(
                r,
                if !is_function_call {
                    Err("unified_exec handler received unsupported payload"@)
                } else if !has_environment {
                    Err("unified exec is unavailable in this session"@)
                } else {
                    match shell_tool_named(tool_name@) {
                        Some(tool) => Ok(tool),
                        None => Err("unsupported unified exec function "@ + tool_name@),
                    }
                },
            ),
    {
        if !is_function_call {
            return Err(respond("unified_exec handler received unsupported payload"));
        }
        if !has_environment {
            return Err(respond("unified exec is unavailable in this session"));
        }
        if text_eq(tool_name, "execute") {
            Ok(ShellTool::Execute { legacy: false })
        } else if text_eq(tool_name, "exec_command") {
            Ok(ShellTool::Execute { legacy: true })
        } else if text_eq(tool_name, "read_shell_output") {
            Ok(ShellTool::ReadShellOutput)
        } else if text_eq(tool_name, "wait_shell_output") {
            Ok(ShellTool::WaitShellOutput)
        } else if text_eq(tool_name, "list_shells") {
            Ok(ShellTool::ListShells)
        } else if text_eq(tool_name, "stop_shell") {
            Ok(ShellTool::StopShell)
        } else if text_eq(tool_name, "write_stdin") {
            Ok(ShellTool::WriteStdin)
        } else {
            let mut message = owned("unsupported unified exec function ");
            message.append(tool_name);
            Err(FunctionCallError::RespondToModel(message))
        }
    }
}

/// How long a write to a shell waits for output unless the call says otherwise.
pub fn default_exec_yield_time_ms() -> (r: u64)
    ensures
        r == 10_000,
{
    10_000
}

/// How long a command waits for output unless the call says otherwise.
pub fn default_write_stdin_yield_time_ms() -> (r: u64)
    ensures
        r == 250,
{
    250
}

/// How much output is kept: what the call asks for, within the budget.
pub fn effective_max_output_tokens(requested: usize, budget: usize) -> (r: usize)
    ensures
        r == if requested <= budget {
            requested
        } else {
            budget
        },
{
    if requested <= budget {
        requested
    } else {
        budget
    }
}

/// Whether a character is a decimal digit.
pub open spec fn is_digit(c: char) -> bool {
    '0' <= c <= '9'
}

/// The number that digits spell.
pub open spec fn digits_value(digits: Seq<char>) -> nat
    decreases digits.len(),
{
    if digits.len() == 0 {
        0
    } else {
        digits_value(digits.drop_last()) * 10 + (digits.last() as nat - '0' as nat) as nat
    }
}

/// The digits of a number behind its sign, if it has one.
pub open spec fn digits_of(text: Seq<char>) -> Seq<char> {
    if text.len() > 0 && (text[0] == '+' || text[0] == '-') {
        text.skip(1)
    } else {
        text
    }
}

/// The number that a text spells, with an optional sign, if it fits into 32 bits.
pub open spec fn number_in(text: Seq<char>) -> Option<i32> {
    let digits = digits_of(text);
    let value = digits_value(digits);
    if digits.len() == 0 || exists|i: int|
        0 <= i < digits.len() && !is_digit(#[trigger] digits[i]) {
        None
    } else if text[0] == '-' {
        if value <= 0x8000_0000 {
            Some((-(value as int)) as i32)
        } else {
            None
        }
    } else if value <= 0x7fff_ffff {
        Some(value as i32)
    } else {
        None
    }
}

proof fn lemma_digits_grow(digits: Seq<char>, i: int)
    requires
        0 <= i <= digits.len(),
    ensures
        digits_value(digits.take(i)) <= digits_value(digits),
    decreases digits.len() - i,
{
    if i == digits.len() {
        assert(digits.take(i) =~= digits);
    } else {
        lemma_digits_grow(digits, i + 1);
        assert(digits.take(i + 1).drop_last() =~= digits.take(i));
    }
}

/// The number that a text spells: an optional sign and decimal digits.
pub fn parse_i32(text: &str) -> (r: Option<i32>)
    ensures
        r == number_in(text@),
{
    let chars = to_chars(text);
    let total: usize = chars.len();
    let start: usize = if total > 0 && (chars[0] == '+' || chars[0] == '-') {
        1
    } else {
        0
    };
    let ghost digits = digits_of(text@);
    assert(digits =~= chars@.skip(start as int));
    if start == total {
        return None;
    }
    let mut i: usize = start;
    let mut value: i64 = 0;
    assert(digits.take(0) =~= Seq::<char>::empty());
    while i < total
        invariant
            start <= i <= total == chars@.len(),
            digits == chars@.skip(start as int),
            digits.len() == total - start,
            0 <= value <= 0x8000_0000,
            value == digits_value(digits.take(i - start)),
            forall|j: int| 0 <= j < i - start ==> is_digit(#[trigger] digits[j]),
            digits == digits_of(text@),
            start < total,
        decreases total - i,
    {
        let c = chars[i];
        assert(digits[i - start] == c);
        if c < '0' || c > '9' {
            assert(!is_digit(digits[i - start]));
            return None;
        }
        proof {
            assert(digits.take(i - start + 1).drop_last() =~= digits.take(i - start));
            assert(digits.take(i - start + 1).last() == c);
        }
        let digit: i64 = (c as u32 - '0' as u32) as i64;
        let next: i64 = value * 10 + digit;
        if next > 0x8000_0000 {
            proof {
                lemma_digits_grow(digits, i - start + 1);
            }
            return None;
        }
        value = next;
        i += 1;
    }
    assert(digits.take(digits.len() as int) =~= digits);
    if chars[0] == '-' {
        Some((-value) as i32)
    } else if value <= 0x7fff_ffff {
        Some(value as i32)
    } else {
        None
    }
}

/// What is said of a shell id that is no number.
pub open spec fn invalid_shell_id(shell_id: Seq<char>) -> Seq<char> {
    "invalid shell_id `"@ + shell_id
        + "`: expected the id returned by execute mode=\"background\""@
}

/// The number that a shell id stands for, or the message that it is none.
pub open spec fn shell_id_choice(shell_id: Seq<char>) -> Result<i32, Seq<char>> {
    match number_in(shell_id) {
        Some(id) => Ok(id),
        None => Err(invalid_shell_id(shell_id)),
    }
}

/// Reads a shell id.
pub fn parse_shell_id(shell_id: &str) -> (r: Result<i32, FunctionCallError>)
    ensures
        agrees(r, shell_id_choice(shell_id@)),
{
    match parse_i32(shell_id) {
        Some(id) => Ok(id),
        None => {
            let mut message = owned("invalid shell_id `");
            message.append(shell_id);
            message.append("`: expected the id returned by execute mode=\"background\"");
            Err(FunctionCallError::RespondToModel(message))
        },
    }
}

proof fn lemma_decimal_digits(n: nat)
    ensures
        decimal(n).len() > 0,
        forall|i: int| 0 <= i < decimal(n).len() ==> is_digit(#[trigger] decimal(n)[i]),
        digits_value(decimal(n)) == n,
    decreases n,
{
    if n < 10 {
        assert(decimal(n).drop_last() =~= Seq::<char>::empty());
        assert(digits_value(decimal(n)) == digits_value(decimal(n).drop_last()) * 10 + n);
    } else {
        lemma_decimal_digits(n / 10);
        assert(decimal(n).drop_last() =~= decimal(n / 10));
        assert forall|i: int| 0 <= i < decimal(n).len() implies is_digit(
            #[trigger] decimal(n)[i],
        ) by {
            if i < decimal(n / 10).len() {
                assert(decimal(n)[i] == decimal(n / 10)[i]);
            }
        }
    }
}

/// A shell id that is written out, as the note on its end does, is read as the same shell.
pub proof fn law_written_shell_ids_are_read_back(shell_id: i32)
    ensures
        shell_id_choice(signed_decimal(shell_id as int)) == Ok::<i32, Seq<char>>(shell_id),
{
    let text = signed_decimal(shell_id as int);
    let size = if shell_id < 0 {
        (-shell_id) as nat
    } else {
        shell_id as nat
    };
    lemma_decimal_digits(size);
    assert(is_digit(decimal(size)[0]));
    if shell_id < 0 {
        assert(text.skip(1) =~= decimal(size));
    }
    assert(digits_of(text) == decimal(size));
}

/// A command line as a shell gets it.
pub open spec fn bash_command(line: Seq<char>) -> Seq<Seq<char>> {
    seq!["bash"@, "-lc"@, line]
}

fn bash_line(line: String) -> (r: Vec<String>)
    ensures
        texts(r@) == bash_command(line@),
{
    let mut out: Vec<String> = Vec::new();
    out.push(owned("bash"));
    out.push(owned("-lc"));
    out.push(line);
    assert(texts(out@) =~= bash_command(line@));
    out
}

/// The command that reading from a shell is shown as.
pub fn shell_output_tool_command(tool_name: &str, shell_id: &str) -> (r: Vec<String>)
    ensures
        texts(r@) == bash_command(tool_name@ + " "@ + shell_id@),
{
    let mut line = owned(tool_name);
    line.append(" ");
    line.append(shell_id);
    bash_line(line)
}

/// The command that listing or stopping shells is shown as.
pub fn shell_management_tool_command(tool_name: &str, shell_id: Option<&str>) -> (r: Vec<String>)
    ensures
        texts(r@) == bash_command(
            match shell_id {
                Some(id) => tool_name@ + " "@ + id@,
                None => tool_name@,
            },
        ),
{
    match shell_id {
        Some(id) => shell_output_tool_command(tool_name, id),
        None => bash_line(owned(tool_name)),
    }
}

/// What is said of a shell call that failed.
pub open spec fn shell_failure(
    tool_name: Seq<char>,
    shell_id: Seq<char>,
    error: Seq<char>,
) -> Seq<char> {
    tool_name + " failed for shell "@ + shell_id + ": "@ + error
}

/// The message of a shell call that failed.
pub fn shell_failure_message(tool_name: &str, shell_id: &str, error: &str) -> (r: String)
    ensures
        r@ == shell_failure(tool_name@, shell_id@, error@),
{
    let mut message = owned(tool_name);
    message.append(" failed for shell ");
    message.append(shell_id);
    message.append(": ");
    message.append(error);
    message
}

/// The error of a write to a shell that failed.
pub fn write_stdin_error(process_id: i32, error: &str) -> (r: FunctionCallError)
    ensures
        r.says(
            "write_stdin failed for process "@ + signed_decimal(process_id as int) + ": "@ + error@,
        ),
{
    let mut message = owned("write_stdin failed for process ");
    message.append(decimal_i32(process_id).as_str());
    message.append(": ");
    message.append(error);
    FunctionCallError::RespondToModel(message)
}

/// A running shell.
#[derive(Debug, PartialEq, Eq)]
pub struct ActiveShell {
    pub shell_id: String,
    pub runtime_secs: u64,
    pub command: String,
}

/// A duration in minutes and seconds.
pub open spec fn shown_duration(total_seconds: nat) -> Seq<char> {
    if total_seconds < 60 {
        decimal(total_seconds) + "s"@
    } else {
        decimal(total_seconds / 60) + "m "@ + decimal(total_seconds % 60) + "s"@
    }
}

/// Shows a duration in minutes and seconds.
pub fn format_duration(total_seconds: u64) -> (r: String)
    ensures
        r@ == shown_duration(total_seconds as nat),
{
    let minutes: u64 = total_seconds / 60;
    let seconds: u64 = total_seconds % 60;
    if minutes == 0 {
        let mut out = decimal_u64(seconds);
        out.append("s");
        out
    } else {
        let mut out = decimal_u64(minutes);
        out.append("m ");
        out.append(decimal_u64(seconds).as_str());
        out.append("s");
        out
    }
}

/// A running shell as it is listed.
pub open spec fn shown_shell(shell: ActiveShell) -> Seq<char> {
    "- shell_id: "@ + shell.shell_id@ + ", runtime: "@ + shown_duration(shell.runtime_secs as nat)
        + ", command: "@ + shell.command@
}

/// The list of running shells.
pub open spec fn shown_shells(shells: Seq<ActiveShell>) -> Seq<char> {
    if shells.len() == 0 {
        "No active shells."@
    } else {
        joined(
            seq![decimal(shells.len()) + " active shell(s):"@] + Seq::new(
                shells.len(),
                |i: int| shown_shell(shells[i]),
            ),
            "\n"@,
        )
    }
}

/// Lists the running shells.
pub fn shell_list_text(shells: &[ActiveShell]) -> (r: String)
    ensures
        r@ == shown_shells(shells@),
{
    if shells.len() == 0 {
        return owned("No active shells.");
    }
    let mut head = decimal_usize(shells.len());
    head.append(" active shell(s):");
    let mut lines: Vec<String> = Vec::new();
    let ghost first = head@;
    lines.push(head);
    let mut i: usize = 0;
    while i < shells.len()
        invariant
            i <= shells@.len(),
            lines@.len() == i + 1,
            lines@[0]@ == first,
            forall|j: int| 0 <= j < i ==> (#[trigger] lines@[j + 1])@ == shown_shell(shells@[j]),
        decreases shells@.len() - i,
    {
        let shell = &shells[i];
        let mut line = owned("- shell_id: ");
        line.append(shell.shell_id.as_str());
        line.append(", runtime: ");
        line.append(format_duration(shell.runtime_secs).as_str());
        line.append(", command: ");
        line.append(shell.command.as_str());
        lines.push(line);
        i += 1;
    }
    proof {
        let wanted = seq![first] + Seq::new(shells@.len(), |j: int| shown_shell(shells@[j]));
        assert forall|k: int| 0 <= k < wanted.len() implies texts(lines@)[k] == wanted[k] by {
            if k > 0 {
                assert(lines@[(k - 1) + 1]@ == shown_shell(shells@[k - 1]));
            }
        }
        assert(texts(lines@) =~= wanted);
    }
    join(lines.as_slice(), "\n")
}

/// What is said of a stopped shell.
pub fn shell_stop_text(shell: &ActiveShell) -> (r: String)
    ensures
        r@ == "Stopped shell "@ + shell.shell_id@ + " after "@ + shown_duration(
            shell.runtime_secs as nat,
        ) + ": "@ + shell.command@,
{
    let mut out = owned("Stopped shell ");
    out.append(shell.shell_id.as_str());
    out.append(" after ");
    out.append(format_duration(shell.runtime_secs).as_str());
    out.append(": ");
    out.append(shell.command.as_str());
    out
}

/// What a shell tool answers. The time is in nanoseconds.
#[derive(Debug, PartialEq, Eq)]
pub struct ExecCommandToolOutput {
    pub event_call_id: String,
    pub chunk_id: String,
    pub wall_time_nanos: u128,
    pub raw_output: Vec<u8>,
    pub max_output_tokens: Option<usize>,
    pub shell_id: Option<String>,
    pub process_id: Option<i32>,
    pub exit_code: Option<i32>,
    pub original_token_count: Option<usize>,
    pub hook_command: Option<String>,
}

/// An answer that is a text. `token_count` is the size of the text, `chunk_id` a fresh name.
pub fn text_tool_output(
    output: &str,
    shell_id: Option<String>,
    process_id: Option<i32>,
    token_count: usize,
    chunk_id: String,
) -> (r: ExecCommandToolOutput)
    ensures
        r.event_call_id@ == ""@,
        r.chunk_id == chunk_id,
        r.wall_time_nanos == 0,
        r.raw_output@ == encode_utf8(output@),
        r.max_output_tokens is None,
        r.shell_id == shell_id,
        r.process_id == process_id,
        r.exit_code == Some(0i32),
        r.original_token_count == Some(token_count),
        r.hook_command is None,
{
    ExecCommandToolOutput {
        event_call_id: owned(""),
        chunk_id,
        wall_time_nanos: 0,
        raw_output: slice_to_vec(output.as_bytes()),
        max_output_tokens: None,
        shell_id,
        process_id,
        exit_code: Some(0),
        original_token_count: Some(token_count),
        hook_command: None,
    }
}

/// The answer to the listing of shells.
pub fn shell_list_response(
    shells: &[ActiveShell],
    token_count: usize,
    chunk_id: String,
) -> (r: ExecCommandToolOutput)
    ensures
        r.raw_output@ == encode_utf8(shown_shells(shells@)),
        r.event_call_id@ == ""@,
        r.chunk_id == chunk_id,
        r.wall_time_nanos == 0,
        r.max_output_tokens is None,
        r.shell_id is None,
        r.process_id is None,
        r.exit_code == Some(0i32),
        r.original_token_count == Some(token_count),
        r.hook_command is None,
{
    let text = shell_list_text(shells);
    text_tool_output(text.as_str(), None, None, token_count, chunk_id)
}

/// The answer to the stopping of a shell.
pub fn shell_stop_response(
    shell: &ActiveShell,
    token_count: usize,
    chunk_id: String,
) -> (r: ExecCommandToolOutput)
    ensures
        r.raw_output@ == encode_utf8(
            "Stopped shell "@ + shell.shell_id@ + " after "@ + shown_duration(
                shell.runtime_secs as nat,
            ) + ": "@ + shell.command@,
        ),
        r.event_call_id@ == ""@,
        r.chunk_id == chunk_id,
        r.wall_time_nanos == 0,
        r.max_output_tokens is None,
        text_of(r.shell_id) == Some(shell.shell_id@),
        r.process_id is None,
        r.exit_code == Some(0i32),
        r.original_token_count == Some(token_count),
        r.hook_command is None,
{
    let text = shell_stop_text(shell);
    text_tool_output(
        text.as_str(),
        Some(owned(shell.shell_id.as_str())),
        None,
        token_count,
        chunk_id,
    )
}

/// How an answer is reported.
#[derive(Debug, PartialEq, Eq)]
pub struct ExecToolCallOutput {
    pub exit_code: i32,
    pub stdout: String,
    pub stderr: String,
    pub aggregated_output: String,
    pub duration_nanos: u128,
    pub timed_out: bool,
}

/// Reports an answer: its bytes as text, and success unless it says otherwise.
pub fn exec_output_from_response(response: &ExecCommandToolOutput) -> (r: ExecToolCallOutput)
    ensures
        r.exit_code == match response.exit_code {
            Some(code) => code,
            None => 0i32,
        },
        r.stdout@ == utf8_lossy(response.raw_output@),
        r.stderr@ == ""@,
        r.aggregated_output@ == utf8_lossy(response.raw_output@),
        valid_utf8(response.raw_output@) ==> r.stdout@ == decode_utf8(response.raw_output@),
        r.duration_nanos == response.wall_time_nanos,
        !r.timed_out,
{
    let output = decode_lossy(response.raw_output.as_slice());
    let exit_code = match response.exit_code {
        Some(code) => code,
        None => 0i32,
    };
    ExecToolCallOutput {
        exit_code,
        stdout: owned(output.as_str()),
        stderr: owned(""),
        aggregated_output: output,
        duration_nanos: response.wall_time_nanos,
        timed_out: false,
    }
}

} // verus!
