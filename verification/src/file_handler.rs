//! The file tools: what each call does with what the file system says, stage by stage. The caller
//! does the reading and writing in between.
use vstd::prelude::*;
use vstd::string::*;

use crate::change::{
    changed_line_ranges, changed_lines, content_hash, edit_output, edit_report,
    ensure_expected_hash, hash_choice, hash_of, unified_update_diff,
};
use crate::edit::{
    edit_request, reuse_warning, searches_again, sequential_edit_warning, EditApplyMode, EditArgs,
    EditOperation, EditRequest,
};
use crate::error::{agrees, respond, FunctionCallError};
use crate::line_range::{format_line_ranges, merged_ranges, shown_ranges, LineRange};
use crate::outside::{line_diff, unified_diff};
use crate::plan::{edit_observation_plan, request_plan, EditObservationPlan, Origins};
use crate::read::{
    command_parts, format_read_lines, numbered, numbered_line_ranges, page_choice,
    read_file_display_command, read_lines, shown_lines, ReadFileArgs,
};
use crate::request::{apply_edit_operations, request_applied};
use crate::text::{joined, owned, pieces, slice_of, text_eq, text_of};

verus! {

/// What kind of call a handler takes.
#[derive(Clone, Copy, Debug, PartialEq, Eq, Structural)]
pub enum ToolKind {
    Function,
}

/// Handles the file tools.
#[derive(Clone, Copy, Debug, PartialEq, Eq, Structural)]
pub struct FileHandler;

/// The file tools.
#[derive(Clone, Copy, Debug, PartialEq, Eq, Structural)]
pub enum FileTool {
    ReadFile,
    SearchFile,
    GrepFile,
    GlobFile,
    Edit,
    Write,
    Delete,
}

/// The tool that a name stands for.
pub open spec fn tool_named(name: Seq<char>) -> Option<FileTool> {
    if name == "read_file"@ {
        Some(FileTool::ReadFile)
    } else if name == "search_file"@ {
        Some(FileTool::SearchFile)
    } else if name == "grep_file"@ {
        Some(FileTool::GrepFile)
    } else if name == "glob_file"@ {
        Some(FileTool::GlobFile)
    } else if name == "edit"@ {
        Some(FileTool::Edit)
    } else if name == "write"@ {
        Some(FileTool::Write)
    } else if name == "delete"@ {
        Some(FileTool::Delete)
    } else {
        None
    }
}

/// Whether a tool changes files.
pub open spec fn mutates(name: Seq<char>) -> bool {
    name == "edit"@ || name == "write"@ || name == "delete"@
}

impl FileHandler {
    pub fn kind(&self) -> (r: ToolKind)
        ensures
            r == ToolKind::Function,
    {
        ToolKind::Function
    }

    /// Whether the named tool changes files.
    pub fn is_mutating(&self, tool_name: &str) -> (r: bool)
        ensures
            r == mutates(tool_name@),
    {
        text_eq(tool_name, "edit") || text_eq(tool_name, "write") || text_eq(tool_name, "delete")
    }

    /// The tool that is called, or the refusal of a name or of a payload that is no function call.
    pub fn tool(&self, tool_name: &str, is_function_call: bool) -> (r: Result<
        FileTool,
        FunctionCallError,
    >)
        ensures
            agrees(
                r,
                if !is_function_call {
                    Err("file handler received unsupported payload"@)
                } else {
                    match tool_named(tool_name@) {
                        Some(tool) => Ok(tool),
                        None => Err("unsupported file function "@ + tool_name@),
                    }
                },
            ),
    {
        if !is_function_call {
            return Err(respond("file handler received unsupported payload"));
        }
        if text_eq(tool_name, "read_file") {
            Ok(FileTool::ReadFile)
        } else if text_eq(tool_name, "search_file") {
            Ok(FileTool::SearchFile)
        } else if text_eq(tool_name, "grep_file") {
            Ok(FileTool::GrepFile)
        } else if text_eq(tool_name, "glob_file") {
            Ok(FileTool::GlobFile)
        } else if text_eq(tool_name, "edit") {
            Ok(FileTool::Edit)
        } else if text_eq(tool_name, "write") {
            Ok(FileTool::Write)
        } else if text_eq(tool_name, "delete") {
            Ok(FileTool::Delete)
        } else {
            let mut message = owned("unsupported file function ");
            message.append(tool_name);
            Err(FunctionCallError::RespondToModel(message))
        }
    }
}

/// A mutating tool is one of the file tools.
pub proof fn law_mutating_tools_are_known(name: Seq<char>)
    ensures
        mutates(name) <==> (tool_named(name) matches Some(tool) && (tool == FileTool::Edit || tool
            == FileTool::Write || tool == FileTool::Delete)),
{
    reveal_strlit("read_file");
    reveal_strlit("search_file");
    reveal_strlit("grep_file");
    reveal_strlit("glob_file");
    reveal_strlit("edit");
    reveal_strlit("write");
    reveal_strlit("delete");
    if name == "edit"@ {
        assert(name.len() == 4);
        assert(name.len() != "read_file"@.len() && name.len() != "search_file"@.len()
            && name.len() != "grep_file"@.len() && name.len() != "glob_file"@.len());
    }
    if name == "write"@ {
        assert(name.len() == 5);
    }
    if name == "delete"@ {
        assert(name.len() == 6);
    }
}

/// How a call is shown while it runs.
#[derive(Debug, PartialEq, Eq)]
pub enum ParsedCommand<P> {
    Read { cmd: String, name: String, path: P },
    Search { cmd: String, query: Option<String>, root: Option<String> },
}

/// How a read is shown.
pub fn parsed_read<P>(args: &ReadFileArgs, path: P) -> (r: ParsedCommand<P>)
    ensures
        r matches ParsedCommand::Read { cmd, name, path: shown } && cmd@ == joined(
            command_parts(*args),
            " "@,
        ) && name@ == args.path@ && shown == path,
{
    ParsedCommand::Read {
        cmd: read_file_display_command(args),
        name: owned(args.path.as_str()),
        path,
    }
}

/// How a search is shown: the tool, what it looks for, and the first root.
pub fn parsed_search<P>(tool: &str, query: &str, roots: &[String]) -> (r: ParsedCommand<P>)
    ensures
        r matches ParsedCommand::Search { cmd, query: shown, root } && cmd@ == tool@ && text_of(
            shown,
        ) == Some(query@) && text_of(root) == if roots@.len() == 0 {
            None
        } else {
            Some(roots@[0]@)
        },
{
    let root = if roots.len() == 0 {
        None
    } else {
        Some(owned(roots[0].as_str()))
    };
    ParsedCommand::Search { cmd: owned(tool), query: Some(owned(query)), root }
}

/// How a finished call is reported.
#[derive(Debug, PartialEq, Eq)]
pub struct ToolEnd {
    pub completed: bool,
    pub exit_code: i32,
    pub stdout: String,
    pub stderr: String,
    pub aggregated_output: String,
    pub formatted_output: String,
}

/// The text of an error, or nothing.
pub open spec fn error_text(error: Option<&str>) -> Seq<char> {
    match error {
        Some(text) => text@,
        None => ""@,
    }
}

/// Reports a finished call: an error goes to the error output and to the whole output.
pub fn tool_end(error: Option<&str>) -> (r: ToolEnd)
    ensures
        r.completed == (error is None),
        r.exit_code == if error is None {
            0i32
        } else {
            1i32
        },
        r.stdout@ == ""@,
        r.stderr@ == error_text(error),
        r.aggregated_output@ == error_text(error),
        r.formatted_output@ == error_text(error),
{
    let (completed, exit_code, output) = match error {
        Some(text) => (false, 1i32, owned(text)),
        None => (true, 0i32, owned("")),
    };
    ToolEnd {
        completed,
        exit_code,
        stdout: owned(""),
        stderr: owned(output.as_str()),
        aggregated_output: owned(output.as_str()),
        formatted_output: output,
    }
}

/// How a finished change is reported.
#[derive(Debug, PartialEq, Eq)]
pub struct PatchEnd {
    pub success: bool,
    pub stdout: String,
    pub stderr: String,
}

/// Reports a finished change: what was done, or the error.
pub fn patch_end(error: Option<&str>, stdout: &str) -> (r: PatchEnd)
    ensures
        r.success == (error is None),
        r.stdout@ == if error is None {
            stdout@
        } else {
            ""@
        },
        r.stderr@ == error_text(error),
{
    match error {
        Some(text) => PatchEnd { success: false, stdout: owned(""), stderr: owned(text) },
        None => PatchEnd { success: true, stdout: owned(stdout), stderr: owned("") },
    }
}

/// What happens to a file.
#[derive(Debug, PartialEq, Eq)]
pub enum FileChange {
    Add { content: String },
    Update { unified_diff: String },
    Delete { content: String },
}

/// The change from one content to another.
pub fn single_update_change(path: &str, old: &str, new: &str) -> (r: FileChange)
    ensures
        r matches FileChange::Update { unified_diff: diff } && diff@ == unified_diff(
            path@,
            old@,
            new@,
        ),
{
    FileChange::Update { unified_diff: unified_update_diff(path, old, new) }
}

/// The change that a write makes: an update where there was a text, else a new file.
pub fn single_write_change(path: &str, previous: Option<&str>, content: &str) -> (r: FileChange)
    ensures
        match previous {
            Some(old) => r matches FileChange::Update { unified_diff: diff } && diff@
                == unified_diff(path@, old@, content@),
            None => r matches FileChange::Add { content: added } && added@ == content@,
        },
{
    match previous {
        Some(old) => single_update_change(path, old, content),
        None => FileChange::Add { content: owned(content) },
    }
}

/// The change that a delete makes.
pub fn single_delete_change(content: String) -> (r: FileChange)
    ensures
        r matches FileChange::Delete { content: deleted } && deleted == content,
{
    FileChange::Delete { content }
}

/// The message that a path must not be written.
pub open spec fn write_denied(path: Seq<char>) -> Seq<char> {
    "access denied: writing `"@ + path + "` is blocked by filesystem policy"@
}

/// The message that the target of a path must not be written.
pub open spec fn target_denied(path: Seq<char>, target: Seq<char>) -> Seq<char> {
    "access denied: writing `"@ + path + "` resolves to `"@ + target
        + "` which is blocked by filesystem policy"@
}

/// The error for a path that must not be written, or whose target must not be.
fn denied(path: &str, target: Option<&str>) -> (r: FunctionCallError)
    ensures
        r.says(
            match target {
                Some(place) => target_denied(path@, place@),
                None => write_denied(path@),
            },
        ),
{
    let mut message = owned("access denied: writing `");
    message.append(path);
    match target {
        Some(place) => {
            message.append("` resolves to `");
            message.append(place);
            message.append("` which is blocked by filesystem policy");
        },
        None => {
            message.append("` is blocked by filesystem policy");
        },
    }
    FunctionCallError::RespondToModel(message)
}

/// Gives leave to write a path, if the path and its target may be written: `target` is where the path
/// leads and whether that may be written, nothing where nothing on the way there exists, or why it
/// could not be found out.
pub fn ensure_write_allowed(
    path: &str,
    can_write: bool,
    target: Result<Option<(String, bool)>, FunctionCallError>,
) -> (r: Result<(), FunctionCallError>)
    ensures
        if !can_write {
            r matches Err(error) && error.says(write_denied(path@))
        } else {
            match target {
                Err(failure) => r == Err::<(), FunctionCallError>(failure),
                Ok(None) => r is Ok,
                Ok(Some((place, writable))) => if writable {
                    r is Ok
                } else {
                    r matches Err(error) && error.says(target_denied(path@, place@))
                },
            }
        },
{
    if !can_write {
        return Err(denied(path, None));
    }
    match target {
        Err(failure) => Err(failure),
        Ok(Some((place, false))) => Err(denied(path, Some(place.as_str()))),
        Ok(_) => Ok(()),
    }
}

/// Where to look for the target of a path: at the path itself, or at the nearest ancestor that
/// exists, so many levels up.
#[derive(Clone, Copy, Debug, PartialEq, Eq, Structural)]
pub enum TargetStep {
    /// Resolve the ancestor this many levels up, and append the missing parts to it.
    Resolve { levels: usize },
    /// Look at the ancestor this many levels up.
    Look { levels: usize },
    /// Nothing on the way up exists.
    Unknown,
}

/// The step after the ancestor `levels` up was looked at.
pub open spec fn target_step(levels: usize, found: bool, has_parent: bool) -> TargetStep {
    if found {
        TargetStep::Resolve { levels }
    } else if has_parent {
        TargetStep::Look { levels: (levels + 1) as usize }
    } else {
        TargetStep::Unknown
    }
}

/// The next step after the ancestor `levels` up was looked at. `has_parent` says whether the path
/// goes on further up.
pub fn resolve_existing_write_target(levels: usize, found: bool, has_parent: bool) -> (r: TargetStep)
    requires
        levels < usize::MAX,
    ensures
        r == target_step(levels, found, has_parent),
{
    if found {
        TargetStep::Resolve { levels }
    } else if has_parent {
        TargetStep::Look { levels: levels + 1 }
    } else {
        TargetStep::Unknown
    }
}

/// What a read shows, before it is cut to size, and what it observed.
#[derive(Debug, PartialEq, Eq)]
pub struct ReadResult {
    pub output: String,
    pub content_hash: String,
    pub observed_ranges: Vec<LineRange>,
}

/// Reads a page of a file whose content is `text`.
pub fn read_file(text: &str, args: &ReadFileArgs) -> (r: Result<ReadResult, FunctionCallError>)
    requires
        args.start_line is None && args.end_line is None ==> args.offset < usize::MAX,
    ensures
        match page_choice(text@, *args) {
            Ok(lines) => {
                &&& r matches Ok(result)
                &&& result.output@ == shown_lines(lines, args.include_line_numbers)
                &&& result.content_hash@ == hash_of(text@)
                &&& result.observed_ranges@ == Seq::new(
                    lines.len(),
                    |i: int| (lines[i].0, lines[i].0),
                )
            },
            Err(message) => r matches Err(error) && error.says(message),
        },
{
    let lines = match read_lines(text, args) {
        Ok(lines) => lines,
        Err(error) => return Err(error),
    };
    let observed_ranges = numbered_line_ranges(lines.as_slice());
    assert(observed_ranges@ =~= Seq::new(
        numbered(lines@).len(),
        |i: int| (numbered(lines@)[i].0, numbered(lines@)[i].0),
    ));
    Ok(
        ReadResult {
            output: format_read_lines(lines.as_slice(), args.include_line_numbers),
            content_hash: content_hash(text),
            observed_ranges,
        },
    )
}

/// Why an edit is not based on what was read.
#[derive(Debug, PartialEq, Eq)]
pub enum FileObservationError {
    NotObserved,
    Stale { observed_hash: String, current_hash: String },
    MissingLines { ranges: Vec<LineRange> },
}

/// What is said of an edit that is not based on what was read.
pub open spec fn observation_message(path: Seq<char>, err: FileObservationError) -> Seq<char> {
    match err {
        FileObservationError::NotObserved => "refusing to edit `"@ + path
            + "` because the target lines have not been read or searched this turn"@,
        FileObservationError::Stale { observed_hash, current_hash } => "refusing to edit `"@ + path
            + "` because it changed since it was read or searched: observed "@ + observed_hash@
            + ", actual "@ + current_hash@,
        FileObservationError::MissingLines { ranges } => "refusing to edit `"@ + path
            + "` because lines "@ + shown_ranges(ranges@)
            + " have not been read or searched this turn"@,
    }
}

/// The error for an edit that is not based on what was read.
pub fn observation_error(path: &str, err: FileObservationError) -> (r: FunctionCallError)
    ensures
        r.says(observation_message(path@, err)),
{
    let mut message = owned("refusing to edit `");
    message.append(path);
    match err {
        FileObservationError::NotObserved => {
            message.append("` because the target lines have not been read or searched this turn");
        },
        FileObservationError::Stale { observed_hash, current_hash } => {
            message.append("` because it changed since it was read or searched: observed ");
            message.append(observed_hash.as_str());
            message.append(", actual ");
            message.append(current_hash.as_str());
        },
        FileObservationError::MissingLines { ranges } => {
            message.append("` because lines ");
            message.append(format_line_ranges(ranges.as_slice()).as_str());
            message.append(" have not been read or searched this turn");
        },
    }
    FunctionCallError::RespondToModel(message)
}

/// An edit that may begin: what to apply, and what to warn about.
#[derive(Debug, PartialEq, Eq)]
pub struct EditReady {
    pub request: EditRequest,
    pub warning: Option<String>,
}

/// Whether `warning` is the one that the operations call for.
pub open spec fn warns(
    warning: Option<String>,
    operations: Seq<EditOperation>,
    mode: EditApplyMode,
) -> bool {
    match warning {
        Some(text) => {
            &&& mode == EditApplyMode::Sequential
            &&& exists|i: int|
                #![trigger searches_again(operations, i)]
                searches_again(operations, i) && (forall|k: int|
                    k < i ==> !searches_again(operations, k)) && text@ == reuse_warning(i)
        },
        None => mode == EditApplyMode::Snapshot || forall|i: int| !searches_again(operations, i),
    }
}

/// Whether `r` is the request that the arguments of an edit make, with its warning.
pub open spec fn begins(args: EditArgs, r: Result<EditReady, FunctionCallError>) -> bool {
    if args.ops@.len() > 0 {
        if args.old_text is Some || args.new_text is Some || args.occurrence is Some {
            r matches Err(error) && error.says(
                "use either ops or legacy old_text/new_text fields, not both"@,
            )
        } else {
            &&& r matches Ok(ready)
            &&& ready.request.apply_mode == args.apply_mode
            &&& ready.request.operations@ == args.ops@
            &&& warns(ready.warning, args.ops@, args.apply_mode)
        }
    } else if args.old_text is None {
        r matches Err(error) && error.says("old_text is required when ops is omitted"@)
    } else if args.new_text is None {
        r matches Err(error) && error.says("new_text is required when ops is omitted"@)
    } else {
        &&& r matches Ok(ready)
        &&& ready.request.apply_mode == args.apply_mode
        &&& ready.request.operations@ == seq![
            EditOperation::Replace {
                old_text: args.old_text->0,
                new_text: args.new_text->0,
                occurrence: args.occurrence,
            },
        ]
        &&& ready.warning is None
    }
}

/// Reads the request off the arguments of an edit, once its path may be written.
pub fn begin_edit(args: EditArgs) -> (r: Result<EditReady, FunctionCallError>)
    ensures
        begins(args, r),
{
    let ghost single = args.ops@.len() == 0;
    let request = match edit_request(args) {
        Ok(request) => request,
        Err(error) => return Err(error),
    };
    let warning = sequential_edit_warning(request.operations.as_slice(), request.apply_mode);
    proof {
        if single {
            assert forall|i: int| !searches_again(request.operations@, i) by {}
        }
    }
    Ok(EditReady { request, warning })
}

/// What an edit relies on.
#[derive(Debug, PartialEq, Eq)]
pub struct EditPlanned {
    pub previous_hash: String,
    pub plan: EditObservationPlan,
}

/// Whether `r` is the plan of an edit of `text`.
pub open spec fn plans(
    ready: EditReady,
    text: Seq<char>,
    r: Result<EditPlanned, FunctionCallError>,
) -> bool {
    match request_plan(text, ready.request.operations@, ready.request.apply_mode) {
        Ok(plan) => {
            &&& r matches Ok(planned)
            &&& planned.previous_hash@ == hash_of(text)
            &&& planned.plan.required_ranges@ == plan.required
            &&& planned.plan.final_line_origins@ == plan.origins
        },
        Err(message) => r matches Err(error) && error.says(message),
    }
}

/// Plans an edit of a file whose content is `text`.
pub fn plan_edit(ready: &EditReady, text: &str) -> (r: Result<EditPlanned, FunctionCallError>)
    ensures
        plans(*ready, text@, r),
{
    match edit_observation_plan(text, &ready.request) {
        Ok(plan) => Ok(EditPlanned { previous_hash: content_hash(text), plan }),
        Err(error) => Err(error),
    }
}

/// What to note of a finished edit.
#[derive(Debug, PartialEq, Eq)]
pub struct EditRecord {
    pub previous_hash: String,
    pub content_hash: String,
    pub line_origins: Origins,
    pub changed_ranges: Vec<LineRange>,
}

/// An edit that is ready to be written.
#[derive(Debug, PartialEq, Eq)]
pub struct EditPrepared {
    pub edited: String,
    pub change: FileChange,
    pub output: String,
    pub record: EditRecord,
}

/// Whether `r` is the edit of `text`, or the refusal of an edit that is not based on what was read.
pub open spec fn prepares(
    path: Seq<char>,
    text: Seq<char>,
    ready: EditReady,
    planned: EditPlanned,
    observed: Result<(), FileObservationError>,
    r: Result<EditPrepared, FunctionCallError>,
) -> bool {
    match observed {
        Err(err) => r matches Err(error) && error.says(observation_message(path, err)),
        Ok(_) => match request_applied(text, ready.request.operations@, ready.request.apply_mode) {
            Ok(applied) => {
                &&& r matches Ok(prepared)
                &&& prepared.edited@ == applied.text
                &&& prepared.change matches FileChange::Update { unified_diff: diff }
                &&& diff@ == unified_diff(path, text, applied.text)
                &&& prepared.output@ == edit_report(
                    unified_diff(path, text, applied.text),
                    text_of(ready.warning),
                    applied.hits,
                )
                &&& prepared.record.previous_hash == planned.previous_hash
                &&& prepared.record.content_hash@ == hash_of(applied.text)
                &&& prepared.record.line_origins == planned.plan.final_line_origins
                &&& prepared.record.changed_ranges@ == merged_ranges(
                    changed_lines(line_diff(text, applied.text), pieces(applied.text).len()),
                )
            },
            Err(message) => r matches Err(error) && error.says(message),
        },
    }
}

/// Applies an edit to the content of its file, once the lines that it relies on are known to have
/// been read.
pub fn prepare_edit(
    path: &str,
    text: &str,
    ready: EditReady,
    planned: EditPlanned,
    observed: Result<(), FileObservationError>,
) -> (r: Result<EditPrepared, FunctionCallError>)
    ensures
        prepares(path@, text@, ready, planned, observed, r),
{
    match observed {
        Err(err) => return Err(observation_error(path, err)),
        Ok(_) => {},
    }
    let applied = match apply_edit_operations(text, &ready.request) {
        Ok(applied) => applied,
        Err(error) => return Err(error),
    };
    let edited = applied.text;
    let output = edit_output(path, text, edited.as_str(), ready.warning, applied.hits.as_slice());
    let changed_ranges = changed_line_ranges(text, edited.as_str());
    let change = single_update_change(path, text, edited.as_str());
    let record = EditRecord {
        previous_hash: planned.previous_hash,
        content_hash: content_hash(edited.as_str()),
        line_origins: planned.plan.final_line_origins,
        changed_ranges,
    };
    Ok(EditPrepared { edited, change, output, record })
}

/// What a write may do with the file that is there.
#[derive(Clone, Copy, Debug, PartialEq, Eq, Structural)]
pub enum WriteMode {
    Overwrite,
    CreateNew,
    UpdateExisting,
}

impl Default for WriteMode {
    fn default() -> (r: WriteMode)
        ensures
            r == WriteMode::Overwrite,
    {
        WriteMode::Overwrite
    }
}

/// The arguments of a write.
#[derive(Debug, PartialEq, Eq)]
pub struct WriteArgs {
    pub path: String,
    pub content: String,
    pub create_parent_dirs: bool,
    pub mode: WriteMode,
    pub expected_hash: Option<String>,
}

/// Whether the mode of a write allows it, or the message why not.
pub open spec fn mode_choice(path: Seq<char>, mode: WriteMode, present: bool) -> Result<(), Seq<char>> {
    if mode == WriteMode::CreateNew && present {
        Err("refusing to overwrite existing file `"@ + path + "` with mode=create_new"@)
    } else if mode == WriteMode::UpdateExisting && !present {
        Err("refusing to create missing file `"@ + path + "` with mode=update_existing"@)
    } else {
        Ok(())
    }
}

/// Decides whether the mode of a write allows it.
pub fn check_write_mode(path: &str, mode: WriteMode, present: bool) -> (r: Result<
    (),
    FunctionCallError,
>)
    ensures
        agrees(r, mode_choice(path@, mode, present)),
{
    match mode {
        WriteMode::CreateNew => if present {
            let mut message = owned("refusing to overwrite existing file `");
            message.append(path);
            message.append("` with mode=create_new");
            Err(FunctionCallError::RespondToModel(message))
        } else {
            Ok(())
        },
        WriteMode::UpdateExisting => if !present {
            let mut message = owned("refusing to create missing file `");
            message.append(path);
            message.append("` with mode=update_existing");
            Err(FunctionCallError::RespondToModel(message))
        } else {
            Ok(())
        },
        WriteMode::Overwrite => Ok(()),
    }
}

/// Whether the expected hash of a write is that of the text that is there, or the message why not.
pub open spec fn previous_choice(
    previous: Option<Seq<char>>,
    expected_hash: Option<Seq<char>>,
) -> Result<(), Seq<char>> {
    match expected_hash {
        Some(expected) => match previous {
            Some(text) => hash_choice(hash_of(text), expected),
            None => Err("expected_hash requires an existing readable text file"@),
        },
        None => Ok(()),
    }
}

/// Whether `r` is the change that a write makes, or the refusal of an unexpected text.
pub open spec fn writes(
    path: Seq<char>,
    previous: Option<Seq<char>>,
    args: WriteArgs,
    r: Result<FileChange, FunctionCallError>,
) -> bool {
    match previous_choice(previous, text_of(args.expected_hash)) {
        Ok(_) => match previous {
            Some(old) => r matches Ok(FileChange::Update { unified_diff: diff }) && diff@
                == unified_diff(path, old, args.content@),
            None => r matches Ok(FileChange::Add { content }) && content@ == args.content@,
        },
        Err(message) => r matches Err(error) && error.says(message),
    }
}

/// Prepares a write: checks the expected hash against the text that is there, if any, and names the
/// change.
pub fn prepare_write(path: &str, previous: Option<&str>, args: &WriteArgs) -> (r: Result<
    FileChange,
    FunctionCallError,
>)
    ensures
        writes(path@, slice_of(previous), *args, r),
{
    if let Some(expected_hash) = &args.expected_hash {
        match previous {
            Some(text) => match ensure_expected_hash(text, expected_hash.as_str()) {
                Ok(_) => {},
                Err(error) => return Err(error),
            },
            None => return Err(
                respond("expected_hash requires an existing readable text file"),
            ),
        }
    }
    Ok(single_write_change(path, previous, args.content.as_str()))
}

/// The lines of a text, all of them.
pub open spec fn all_lines(text: Seq<char>) -> Seq<LineRange> {
    if text.len() == 0 {
        Seq::empty()
    } else {
        seq![(1usize, pieces(text).len() as usize)]
    }
}

/// What a write answers.
pub fn write_answer(path: &str) -> (r: String)
    ensures
        r@ == "wrote "@ + path@,
{
    let mut output = owned("wrote ");
    output.append(path);
    output
}

/// What a delete expects to find.
#[derive(Clone, Copy, Debug, PartialEq, Eq, Structural)]
pub enum DeleteExpectedType {
    File,
    Dir,
}

/// The arguments of a delete.
#[derive(Debug, PartialEq, Eq)]
pub struct DeleteArgs {
    pub path: String,
    pub recursive: bool,
    pub expected_type: Option<DeleteExpectedType>,
    pub dry_run: bool,
}

/// What a delete does first.
#[derive(Debug, PartialEq, Eq)]
pub enum DeleteStep {
    /// Answer without deleting anything.
    Answer(String),
    /// Announce the removal of a directory.
    RemoveDir,
    /// Read the file, for the record, and announce its removal.
    RemoveFile,
}

/// Whether `r` is what a delete does first with what is at the path.
pub open spec fn deletes(
    path: Seq<char>,
    is_dir: bool,
    args: DeleteArgs,
    r: Result<DeleteStep, FunctionCallError>,
) -> bool {
    let other = if is_dir {
        DeleteExpectedType::File
    } else {
        DeleteExpectedType::Dir
    };
    if args.expected_type == Some(other) {
        r matches Err(error) && error.says(
            "refusing to delete `"@ + path + "` because expected_type does not match"@,
        )
    } else if args.dry_run {
        r matches Ok(DeleteStep::Answer(output)) && output@ == "would delete "@ + path
    } else if is_dir {
        r matches Ok(DeleteStep::RemoveDir)
    } else {
        r matches Ok(DeleteStep::RemoveFile)
    }
}

/// Decides what a delete does with what is at the path.
pub fn begin_delete(path: &str, is_dir: bool, args: &DeleteArgs) -> (r: Result<
    DeleteStep,
    FunctionCallError,
>)
    ensures
        deletes(path@, is_dir, *args, r),
{
    let refused = match args.expected_type {
        Some(DeleteExpectedType::File) => is_dir,
        Some(DeleteExpectedType::Dir) => !is_dir,
        None => false,
    };
    if refused {
        let mut message = owned("refusing to delete `");
        message.append(path);
        message.append("` because expected_type does not match");
        return Err(FunctionCallError::RespondToModel(message));
    }
    if args.dry_run {
        let mut output = owned("would delete ");
        output.append(path);
        return Ok(DeleteStep::Answer(output));
    }
    if is_dir {
        Ok(DeleteStep::RemoveDir)
    } else {
        Ok(DeleteStep::RemoveFile)
    }
}

/// Refuses to remove a directory without leave, once the change is announced.
pub fn check_removal(is_dir: bool, recursive: bool) -> (r: Result<(), FunctionCallError>)
    ensures
        agrees(
            r,
            if is_dir && !recursive {
                Err("refusing to delete directory without recursive=true"@)
            } else {
                Ok(())
            },
        ),
{
    if is_dir && !recursive {
        return Err(respond("refusing to delete directory without recursive=true"));
    }
    Ok(())
}

/// What a delete answers.
pub fn delete_answer(path: &str) -> (r: String)
    ensures
        r@ == "deleted "@ + path@,
{
    let mut output = owned("deleted ");
    output.append(path);
    output
}

} // verus!
