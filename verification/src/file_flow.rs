//! The course of the tools that change files: what to do next, given what the last step came to.
use vstd::prelude::*;
use vstd::string::*;

use crate::change::{content_hash, hash_of};
use crate::edit::EditArgs;
use crate::error::FunctionCallError;
use crate::file_handler::{
    all_lines, begin_delete, begin_edit, begins, check_removal, check_write_mode, delete_answer,
    mode_choice, plan_edit, plans, prepare_edit, prepare_write, prepares, single_delete_change,
    write_answer, writes, DeleteArgs, DeleteExpectedType, DeleteStep, EditPlanned, EditPrepared,
    EditReady, EditRecord, FileChange, FileObservationError, WriteArgs, WriteMode,
};
use crate::line_range::{whole_file_range, LineRange};
use crate::request::request_applied;
use crate::text::{owned, text_of};

verus! {

/// What the last step came to.
#[derive(Debug, PartialEq, Eq)]
pub enum FileEvent {
    /// Whether the path may be written.
    Access(Result<(), FunctionCallError>),
    /// The content of the file, or why it cannot be read.
    Text(Result<String, String>),
    /// Whether the lines that an edit relies on were read.
    Observed(Result<(), FileObservationError>),
    /// Whether there is a file at the path.
    Present(Result<bool, String>),
    /// Whether there is a directory at the path.
    IsDir(Result<bool, String>),
    /// What became of a change to the file system.
    Done(Result<(), String>),
}

/// What is noted of the file at the end.
#[derive(Debug, PartialEq, Eq)]
pub enum FileRecord {
    Nothing,
    /// All these lines are known, in a text of this hash.
    Observation { content_hash: String, ranges: Vec<LineRange> },
    Edit(EditRecord),
}

/// The end of a call: its answer, what is noted, a change that was announced only to be refused, and
/// the word that reports an announced change.
#[derive(Debug, PartialEq, Eq)]
pub struct FileFinish {
    pub result: Result<String, FunctionCallError>,
    pub record: FileRecord,
    pub refused: Option<FileChange>,
    pub verb: Option<String>,
}

/// What to do next.
#[derive(Debug, PartialEq, Eq)]
pub enum FileAction {
    /// Find out whether the path may be written.
    CheckWrite,
    /// Create the directories above the path.
    CreateParents,
    /// Find out whether there is a file at the path.
    LookForFile,
    /// Find out whether there is a directory at the path.
    LookAtKind,
    /// Read the file.
    ReadText,
    /// Find out whether these lines were read, in a text of this hash.
    CheckObserved { content_hash: String, ranges: Vec<LineRange> },
    /// Announce the change and write the content.
    Write { change: FileChange, content: String },
    /// Announce the change and remove what is at the path.
    Remove { change: FileChange, is_dir: bool },
    /// Answer.
    Finish(FileFinish),
}

impl FileAction {
    /// Whether this ends the call with an error before anything was announced.
    pub open spec fn refuses(self, error: FunctionCallError) -> bool {
        &&& self matches FileAction::Finish(finish)
        &&& finish.result == Err::<String, FunctionCallError>(error)
        &&& finish.record is Nothing
        &&& finish.refused is None
        &&& finish.verb is None
    }

    /// Whether this ends the call with an error that tells the model `message`, before anything was
    /// announced.
    pub open spec fn refuses_with(self, message: Seq<char>) -> bool {
        &&& self matches FileAction::Finish(finish)
        &&& finish.result matches Err(error)
        &&& error.says(message)
        &&& finish.record is Nothing
        &&& finish.refused is None
        &&& finish.verb is None
    }

    /// Whether this ends an announced change with an error that tells the model `message`.
    pub open spec fn fails_with(self, message: Seq<char>, done: Seq<char>) -> bool {
        &&& self matches FileAction::Finish(finish)
        &&& finish.result matches Err(error)
        &&& error.says(message)
        &&& finish.record is Nothing
        &&& finish.refused is None
        &&& text_of(finish.verb) == Some(done)
    }
}

fn refuse(error: FunctionCallError) -> (r: FileAction)
    ensures
        r.refuses(error),
{
    FileAction::Finish(
        FileFinish { result: Err(error), record: FileRecord::Nothing, refused: None, verb: None },
    )
}

fn refuse_with(message: String) -> (r: FileAction)
    ensures
        r.refuses_with(message@),
{
    refuse(FunctionCallError::RespondToModel(message))
}

fn fail_with(message: String, done: &str) -> (r: FileAction)
    ensures
        r.fails_with(message@, done@),
{
    FileAction::Finish(
        FileFinish {
            result: Err(FunctionCallError::RespondToModel(message)),
            record: FileRecord::Nothing,
            refused: None,
            verb: Some(owned(done)),
        },
    )
}

/// Where an edit stands.
#[derive(Debug, PartialEq, Eq)]
pub enum EditState {
    /// Waits for leave to write.
    Access { args: EditArgs },
    /// Waits for the content of the file.
    Reading { ready: EditReady },
    /// Waits for the word that the lines were read.
    Observing { ready: EditReady, text: String, planned: EditPlanned },
    /// Waits for the edited text to be written.
    Writing { output: String, record: EditRecord },
    /// Answered.
    Over,
}

/// Whether an edit that stands there waits for such an event.
pub open spec fn edit_expects(state: EditState, event: FileEvent) -> bool {
    match state {
        EditState::Access { .. } => event is Access,
        EditState::Reading { .. } => event is Text,
        EditState::Observing { .. } => event is Observed,
        EditState::Writing { .. } => event is Done,
        EditState::Over => false,
    }
}

/// What an edit does after the content of the file came in.
pub open spec fn edit_read(
    ready: EditReady,
    text: String,
    next: EditState,
    action: FileAction,
) -> bool {
    match next {
        EditState::Observing { ready: kept, text: held, planned } => {
            &&& kept == ready
            &&& held == text
            &&& plans(ready, text@, Ok(planned))
            &&& action matches FileAction::CheckObserved { content_hash, ranges }
            &&& content_hash@ == planned.previous_hash@
            &&& ranges@ == planned.plan.required_ranges@
        },
        EditState::Over => {
            &&& action matches FileAction::Finish(finish)
            &&& finish.result matches Err(error)
            &&& plans(ready, text@, Err(error))
            &&& action.refuses(error)
        },
        _ => false,
    }
}

/// What an edit does after the word on the lines that it relies on came in.
pub open spec fn edit_observed(
    path: Seq<char>,
    ready: EditReady,
    text: String,
    planned: EditPlanned,
    observed: Result<(), FileObservationError>,
    next: EditState,
    action: FileAction,
) -> bool {
    match next {
        EditState::Writing { output, record } => {
            &&& action matches FileAction::Write { change, content }
            &&& prepares(
                path,
                text@,
                ready,
                planned,
                observed,
                Ok(EditPrepared { edited: content, change, output, record }),
            )
        },
        EditState::Over => {
            &&& action matches FileAction::Finish(finish)
            &&& finish.result matches Err(error)
            &&& prepares(path, text@, ready, planned, observed, Err(error))
            &&& action.refuses(error)
        },
        _ => false,
    }
}

/// What an edit does after an event.
pub open spec fn edit_goes_on(
    path: Seq<char>,
    state: EditState,
    event: FileEvent,
    next: EditState,
    action: FileAction,
) -> bool {
    match (state, event) {
        (EditState::Access { args }, FileEvent::Access(Ok(_))) => match next {
            EditState::Reading { ready } => begins(args, Ok(ready)) && action is ReadText,
            EditState::Over => {
                &&& action matches FileAction::Finish(finish)
                &&& finish.result matches Err(error)
                &&& begins(args, Err(error))
                &&& action.refuses(error)
            },
            _ => false,
        },
        (EditState::Access { args }, FileEvent::Access(Err(error))) => next is Over
            && action.refuses(error),
        (EditState::Reading { ready }, FileEvent::Text(Ok(text))) => edit_read(
            ready,
            text,
            next,
            action,
        ),
        (EditState::Reading { ready }, FileEvent::Text(Err(message))) => next is Over
            && action.refuses_with(message@),
        (
            EditState::Observing { ready, text, planned },
            FileEvent::Observed(observed),
        ) => edit_observed(path, ready, text, planned, observed, next, action),
        (EditState::Writing { output, record }, FileEvent::Done(Ok(_))) => {
            &&& next is Over
            &&& action matches FileAction::Finish(finish)
            &&& finish.result == Ok::<String, FunctionCallError>(output)
            &&& finish.record == FileRecord::Edit(record)
            &&& finish.refused is None
            &&& text_of(finish.verb) == Some("edited"@)
        },
        (EditState::Writing { output, record }, FileEvent::Done(Err(message))) => next is Over
            && action.fails_with(message@, "edited"@),
        _ => true,
    }
}

fn copy_ranges(ranges: &[LineRange]) -> (r: Vec<LineRange>)
    ensures
        r@ == ranges@,
{
    let mut out: Vec<LineRange> = Vec::new();
    let mut i: usize = 0;
    while i < ranges.len()
        invariant
            i <= ranges@.len(),
            out@ == ranges@.take(i as int),
        decreases ranges@.len() - i,
    {
        out.push(ranges[i]);
        assert(ranges@.take(i + 1) =~= ranges@.take(i as int).push(ranges@[i as int]));
        i += 1;
    }
    assert(ranges@.take(ranges@.len() as int) =~= ranges@);
    out
}

/// The first thing that an edit does.
pub fn start_edit(args: EditArgs) -> (r: (EditState, FileAction))
    ensures
        r.0 matches EditState::Access { args: held } && held == args,
        r.1 is CheckWrite,
{
    (EditState::Access { args }, FileAction::CheckWrite)
}

/// What an edit of the file shown as `path` does after an event. Nothing is announced or written
/// unless all operations apply and the lines that they rely on were read.
pub fn edit_step(path: &str, state: EditState, event: FileEvent) -> (r: (EditState, FileAction))
    requires
        edit_expects(state, event),
    ensures
        edit_goes_on(path@, state, event, r.0, r.1),
{
    match (state, event) {
        (EditState::Access { args }, FileEvent::Access(access)) => match access {
            Ok(_) => match begin_edit(args) {
                Ok(ready) => (EditState::Reading { ready }, FileAction::ReadText),
                Err(error) => (EditState::Over, refuse(error)),
            },
            Err(error) => (EditState::Over, refuse(error)),
        },
        (EditState::Reading { ready }, FileEvent::Text(read)) => match read {
            Ok(text) => match plan_edit(&ready, text.as_str()) {
                Ok(planned) => {
                    let action = FileAction::CheckObserved {
                        content_hash: owned(planned.previous_hash.as_str()),
                        ranges: copy_ranges(planned.plan.required_ranges.as_slice()),
                    };
                    (EditState::Observing { ready, text, planned }, action)
                },
                Err(error) => (EditState::Over, refuse(error)),
            },
            Err(message) => (EditState::Over, refuse_with(message)),
        },
        (EditState::Observing { ready, text, planned }, FileEvent::Observed(observed)) => {
            match prepare_edit(path, text.as_str(), ready, planned, observed) {
                Ok(prepared) => (
                    EditState::Writing { output: prepared.output, record: prepared.record },
                    FileAction::Write { change: prepared.change, content: prepared.edited },
                ),
                Err(error) => (EditState::Over, refuse(error)),
            }
        },
        (EditState::Writing { output, record }, FileEvent::Done(done)) => match done {
            Ok(_) => (
                EditState::Over,
                FileAction::Finish(
                    FileFinish {
                        result: Ok(output),
                        record: FileRecord::Edit(record),
                        refused: None,
                        verb: Some(owned("edited")),
                    },
                ),
            ),
            Err(message) => (EditState::Over, fail_with(message, "edited")),
        },
        _ => vstd::pervasive::unreached(),
    }
}

/// An edit writes nothing but the text that its operations make of the text that was read, and only
/// after the lines that it relies on are known to have been read.
pub proof fn law_edit_writes_the_edited_text(
    path: Seq<char>,
    state: EditState,
    event: FileEvent,
    next: EditState,
    action: FileAction,
)
    requires
        edit_expects(state, event),
        edit_goes_on(path, state, event, next, action),
        action is Write,
    ensures
        event matches FileEvent::Observed(Ok(_)),
        state matches EditState::Observing { ready, text, .. } && action matches FileAction::Write {
            content,
            ..
        } && request_applied(
            text@,
            ready.request.operations@,
            ready.request.apply_mode,
        ) matches Ok(applied) && content@ == applied.text,
{
}

/// An edit that does not apply, or that is not based on what was read, ends without announcing a
/// change.
pub proof fn law_refused_edit_changes_nothing(
    path: Seq<char>,
    ready: EditReady,
    text: String,
    planned: EditPlanned,
    observed: Result<(), FileObservationError>,
    next: EditState,
    action: FileAction,
)
    requires
        edit_goes_on(
            path,
            EditState::Observing { ready, text, planned },
            FileEvent::Observed(observed),
            next,
            action,
        ),
        observed is Err || request_applied(
            text@,
            ready.request.operations@,
            ready.request.apply_mode,
        ) is Err,
    ensures
        next is Over,
        action matches FileAction::Finish(finish) && finish.result is Err
            && finish.record is Nothing && finish.refused is None && finish.verb is None,
{
}

/// Where a write stands.
#[derive(Debug, PartialEq, Eq)]
pub enum WriteState {
    /// Waits for leave to write.
    Access { args: WriteArgs },
    /// Waits for the directories above the path.
    Parents { args: WriteArgs },
    /// Waits for leave to write, now that the directories are there.
    AccessAgain { args: WriteArgs },
    /// Waits for the word whether there is a file.
    Looking { args: WriteArgs },
    /// Waits for the content that is there.
    Reading { args: WriteArgs },
    /// Waits for the content to be written.
    Writing { content_hash: String, ranges: Vec<LineRange> },
    /// Answered.
    Over,
}

/// Whether a write that stands there waits for such an event.
pub open spec fn write_expects(state: WriteState, event: FileEvent) -> bool {
    match state {
        WriteState::Access { .. } => event is Access,
        WriteState::Parents { .. } => event is Done,
        WriteState::AccessAgain { .. } => event is Access,
        WriteState::Looking { .. } => event is Present,
        WriteState::Reading { .. } => event is Text,
        WriteState::Writing { .. } => event is Done,
        WriteState::Over => false,
    }
}

/// The text that was read, if it could be.
pub open spec fn text_read(read: Result<String, String>) -> Option<Seq<char>> {
    match read {
        Ok(text) => Some(text@),
        Err(_) => None,
    }
}

/// What a write does after the content that is there came in.
pub open spec fn write_read(
    path: Seq<char>,
    args: WriteArgs,
    read: Result<String, String>,
    next: WriteState,
    action: FileAction,
) -> bool {
    match next {
        WriteState::Writing { content_hash, ranges } => {
            &&& action matches FileAction::Write { change, content }
            &&& writes(path, text_read(read), args, Ok(change))
            &&& content == args.content
            &&& content_hash@ == hash_of(args.content@)
            &&& ranges@ == all_lines(args.content@)
        },
        WriteState::Over => {
            &&& action matches FileAction::Finish(finish)
            &&& finish.result matches Err(error)
            &&& writes(path, text_read(read), args, Err(error))
            &&& action.refuses(error)
        },
        _ => false,
    }
}

/// What a write does after an event. `has_parent` says whether there can be directories above the
/// path.
pub open spec fn write_goes_on(
    path: Seq<char>,
    has_parent: bool,
    state: WriteState,
    event: FileEvent,
    next: WriteState,
    action: FileAction,
) -> bool {
    match (state, event) {
        (WriteState::Access { args }, FileEvent::Access(Ok(_))) => {
            if args.create_parent_dirs && has_parent {
                next == (WriteState::Parents { args }) && action is CreateParents
            } else {
                next == (WriteState::Looking { args }) && action is LookForFile
            }
        },
        (WriteState::Access { args }, FileEvent::Access(Err(error))) => next is Over
            && action.refuses(error),
        (WriteState::Parents { args }, FileEvent::Done(Ok(_))) => next == (
        WriteState::AccessAgain { args }) && action is CheckWrite,
        (WriteState::Parents { args }, FileEvent::Done(Err(message))) => next is Over
            && action.refuses_with(message@),
        (WriteState::AccessAgain { args }, FileEvent::Access(Ok(_))) => next == (
        WriteState::Looking { args }) && action is LookForFile,
        (WriteState::AccessAgain { args }, FileEvent::Access(Err(error))) => next is Over
            && action.refuses(error),
        (WriteState::Looking { args }, FileEvent::Present(Ok(present))) => match mode_choice(
            path,
            args.mode,
            present,
        ) {
            Ok(_) => next == (WriteState::Reading { args }) && action is ReadText,
            Err(message) => next is Over && action.refuses_with(message),
        },
        (WriteState::Looking { args }, FileEvent::Present(Err(message))) => next is Over
            && action.refuses_with(message@),
        (WriteState::Reading { args }, FileEvent::Text(read)) => write_read(
            path,
            args,
            read,
            next,
            action,
        ),
        (WriteState::Writing { content_hash, ranges }, FileEvent::Done(Ok(_))) => {
            &&& next is Over
            &&& action matches FileAction::Finish(finish)
            &&& finish.result matches Ok(output)
            &&& output@ == "wrote "@ + path
            &&& finish.record == (FileRecord::Observation { content_hash, ranges })
            &&& finish.refused is None
            &&& text_of(finish.verb) == Some("wrote"@)
        },
        (WriteState::Writing { content_hash, ranges }, FileEvent::Done(Err(message))) => next is Over
            && action.fails_with(message@, "wrote"@),
        _ => true,
    }
}

/// The first thing that a write does.
pub fn start_write(args: WriteArgs) -> (r: (WriteState, FileAction))
    ensures
        r.0 matches WriteState::Access { args: held } && held == args,
        r.1 is CheckWrite,
{
    (WriteState::Access { args }, FileAction::CheckWrite)
}

/// What a write of the file shown as `path` does after an event.
pub fn write_step(path: &str, has_parent: bool, state: WriteState, event: FileEvent) -> (r: (
    WriteState,
    FileAction,
))
    requires
        write_expects(state, event),
    ensures
        write_goes_on(path@, has_parent, state, event, r.0, r.1),
{
    match (state, event) {
        (WriteState::Access { args }, FileEvent::Access(access)) => match access {
            Ok(_) => if args.create_parent_dirs && has_parent {
                (WriteState::Parents { args }, FileAction::CreateParents)
            } else {
                (WriteState::Looking { args }, FileAction::LookForFile)
            },
            Err(error) => (WriteState::Over, refuse(error)),
        },
        (WriteState::Parents { args }, FileEvent::Done(done)) => match done {
            Ok(_) => (WriteState::AccessAgain { args }, FileAction::CheckWrite),
            Err(message) => (WriteState::Over, refuse_with(message)),
        },
        (WriteState::AccessAgain { args }, FileEvent::Access(access)) => match access {
            Ok(_) => (WriteState::Looking { args }, FileAction::LookForFile),
            Err(error) => (WriteState::Over, refuse(error)),
        },
        (WriteState::Looking { args }, FileEvent::Present(looked)) => match looked {
            Ok(present) => match check_write_mode(path, args.mode, present) {
                Ok(_) => (WriteState::Reading { args }, FileAction::ReadText),
                Err(error) => (WriteState::Over, refuse(error)),
            },
            Err(message) => (WriteState::Over, refuse_with(message)),
        },
        (WriteState::Reading { args }, FileEvent::Text(read)) => {
            let prepared = match &read {
                Ok(text) => prepare_write(path, Some(text.as_str()), &args),
                Err(_) => prepare_write(path, None, &args),
            };
            match prepared {
                Ok(change) => {
                    let next = WriteState::Writing {
                        content_hash: content_hash(args.content.as_str()),
                        ranges: whole_file_range(args.content.as_str()),
                    };
                    (next, FileAction::Write { change, content: args.content })
                },
                Err(error) => (WriteState::Over, refuse(error)),
            }
        },
        (WriteState::Writing { content_hash, ranges }, FileEvent::Done(done)) => match done {
            Ok(_) => (
                WriteState::Over,
                FileAction::Finish(
                    FileFinish {
                        result: Ok(write_answer(path)),
                        record: FileRecord::Observation { content_hash, ranges },
                        refused: None,
                        verb: Some(owned("wrote")),
                    },
                ),
            ),
            Err(message) => (WriteState::Over, fail_with(message, "wrote")),
        },
        _ => vstd::pervasive::unreached(),
    }
}

/// Where a delete stands.
#[derive(Debug, PartialEq, Eq)]
pub enum DeleteState {
    /// Waits for leave to write.
    Access { args: DeleteArgs },
    /// Waits for the word what is there.
    Looking { args: DeleteArgs },
    /// Waits for the content of the file.
    Reading,
    /// Waits for the removal.
    Removing,
    /// Answered.
    Over,
}

/// Whether a delete that stands there waits for such an event.
pub open spec fn delete_expects(state: DeleteState, event: FileEvent) -> bool {
    match state {
        DeleteState::Access { .. } => event is Access,
        DeleteState::Looking { .. } => event is IsDir,
        DeleteState::Reading => event is Text,
        DeleteState::Removing => event is Done,
        DeleteState::Over => false,
    }
}

/// Whether a change is the removal of this content.
pub open spec fn removes(change: FileChange, content: Seq<char>) -> bool {
    change matches FileChange::Delete { content: held } && held@ == content
}

/// What a delete does after the word what is there came in. A directory that may not be removed is
/// announced all the same.
pub open spec fn delete_looked(
    path: Seq<char>,
    args: DeleteArgs,
    is_dir: bool,
    next: DeleteState,
    action: FileAction,
) -> bool {
    let other = if is_dir {
        DeleteExpectedType::File
    } else {
        DeleteExpectedType::Dir
    };
    if args.expected_type == Some(other) {
        next is Over && action.refuses_with(
            "refusing to delete `"@ + path + "` because expected_type does not match"@,
        )
    } else if args.dry_run {
        &&& next is Over
        &&& action matches FileAction::Finish(finish)
        &&& finish.result matches Ok(output)
        &&& output@ == "would delete "@ + path
        &&& finish.record is Nothing
        &&& finish.refused is None
        &&& finish.verb is None
    } else if !is_dir {
        next is Reading && action is ReadText
    } else if args.recursive {
        &&& next is Removing
        &&& action matches FileAction::Remove { change, is_dir: dir }
        &&& dir
        &&& removes(change, ""@)
    } else {
        &&& next is Over
        &&& action matches FileAction::Finish(finish)
        &&& finish.result matches Err(error)
        &&& error.says("refusing to delete directory without recursive=true"@)
        &&& finish.record is Nothing
        &&& finish.refused matches Some(change)
        &&& removes(change, ""@)
        &&& text_of(finish.verb) == Some("deleted"@)
    }
}

/// What a delete does after an event.
pub open spec fn delete_goes_on(
    path: Seq<char>,
    state: DeleteState,
    event: FileEvent,
    next: DeleteState,
    action: FileAction,
) -> bool {
    match (state, event) {
        (DeleteState::Access { args }, FileEvent::Access(Ok(_))) => next == (
        DeleteState::Looking { args }) && action is LookAtKind,
        (DeleteState::Access { args }, FileEvent::Access(Err(error))) => next is Over
            && action.refuses(error),
        (DeleteState::Looking { args }, FileEvent::IsDir(Ok(is_dir))) => delete_looked(
            path,
            args,
            is_dir,
            next,
            action,
        ),
        (DeleteState::Looking { args }, FileEvent::IsDir(Err(message))) => next is Over
            && action.refuses_with(message@),
        (DeleteState::Reading, FileEvent::Text(read)) => {
            &&& next is Removing
            &&& action matches FileAction::Remove { change, is_dir }
            &&& !is_dir
            &&& removes(
                change,
                match read {
                    Ok(text) => text@,
                    Err(_) => ""@,
                },
            )
        },
        (DeleteState::Removing, FileEvent::Done(Ok(_))) => {
            &&& next is Over
            &&& action matches FileAction::Finish(finish)
            &&& finish.result matches Ok(output)
            &&& output@ == "deleted "@ + path
            &&& finish.record is Nothing
            &&& finish.refused is None
            &&& text_of(finish.verb) == Some("deleted"@)
        },
        (DeleteState::Removing, FileEvent::Done(Err(message))) => next is Over && action.fails_with(
            message@,
            "deleted"@,
        ),
        _ => true,
    }
}

/// The first thing that a delete does.
pub fn start_delete(args: DeleteArgs) -> (r: (DeleteState, FileAction))
    ensures
        r.0 matches DeleteState::Access { args: held } && held == args,
        r.1 is CheckWrite,
{
    (DeleteState::Access { args }, FileAction::CheckWrite)
}

/// What a delete of what is shown as `path` does after an event.
pub fn delete_step(path: &str, state: DeleteState, event: FileEvent) -> (r: (
    DeleteState,
    FileAction,
))
    requires
        delete_expects(state, event),
    ensures
        delete_goes_on(path@, state, event, r.0, r.1),
{
    match (state, event) {
        (DeleteState::Access { args }, FileEvent::Access(access)) => match access {
            Ok(_) => (DeleteState::Looking { args }, FileAction::LookAtKind),
            Err(error) => (DeleteState::Over, refuse(error)),
        },
        (DeleteState::Looking { args }, FileEvent::IsDir(looked)) => {
            let is_dir = match looked {
                Ok(is_dir) => is_dir,
                Err(message) => return (DeleteState::Over, refuse_with(message)),
            };
            match begin_delete(path, is_dir, &args) {
                Ok(DeleteStep::Answer(output)) => (
                    DeleteState::Over,
                    FileAction::Finish(
                        FileFinish {
                            result: Ok(output),
                            record: FileRecord::Nothing,
                            refused: None,
                            verb: None,
                        },
                    ),
                ),
                Ok(DeleteStep::RemoveFile) => (DeleteState::Reading, FileAction::ReadText),
                Ok(DeleteStep::RemoveDir) => {
                    let change = single_delete_change(owned(""));
                    match check_removal(is_dir, args.recursive) {
                        Ok(_) => (DeleteState::Removing, FileAction::Remove { change, is_dir }),
                        Err(error) => (
                            DeleteState::Over,
                            FileAction::Finish(
                                FileFinish {
                                    result: Err(error),
                                    record: FileRecord::Nothing,
                                    refused: Some(change),
                                    verb: Some(owned("deleted")),
                                },
                            ),
                        ),
                    }
                },
                Err(error) => (DeleteState::Over, refuse(error)),
            }
        },
        (DeleteState::Reading, FileEvent::Text(read)) => {
            let content = match read {
                Ok(text) => text,
                Err(_) => owned(""),
            };
            (
                DeleteState::Removing,
                FileAction::Remove { change: single_delete_change(content), is_dir: false },
            )
        },
        (DeleteState::Removing, FileEvent::Done(done)) => match done {
            Ok(_) => (
                DeleteState::Over,
                FileAction::Finish(
                    FileFinish {
                        result: Ok(delete_answer(path)),
                        record: FileRecord::Nothing,
                        refused: None,
                        verb: Some(owned("deleted")),
                    },
                ),
            ),
            Err(message) => (DeleteState::Over, fail_with(message, "deleted")),
        },
        _ => vstd::pervasive::unreached(),
    }
}

/// A write touches the file only where its mode allows that, and where the text that is there is the
/// one that was expected; it then writes just the given content.
pub proof fn law_write_honours_its_options(
    path: Seq<char>,
    has_parent: bool,
    args: WriteArgs,
    present: bool,
    read: Result<String, String>,
    looked: (WriteState, FileAction),
    ended: (WriteState, FileAction),
)
    requires
        write_goes_on(
            path,
            has_parent,
            WriteState::Looking { args },
            FileEvent::Present(Ok(present)),
            looked.0,
            looked.1,
        ),
        write_expects(looked.0, FileEvent::Text(read)),
        write_goes_on(path, has_parent, looked.0, FileEvent::Text(read), ended.0, ended.1),
        ended.1 is Write,
    ensures
        args.mode == WriteMode::CreateNew ==> !present,
        args.mode == WriteMode::UpdateExisting ==> present,
        args.expected_hash matches Some(expected) ==> (read matches Ok(text) && hash_of(text@)
            == expected@),
        ended.1 matches FileAction::Write { content, .. } && content == args.content,
{
}

/// A file that must not be written is neither read, nor written, nor removed: the call ends with the
/// refusal.
pub proof fn law_nothing_is_touched_without_leave(
    path: Seq<char>,
    has_parent: bool,
    error: FunctionCallError,
    edit: EditArgs,
    write: WriteArgs,
    delete: DeleteArgs,
    edit_end: (EditState, FileAction),
    write_end: (WriteState, FileAction),
    write_again_end: (WriteState, FileAction),
    delete_end: (DeleteState, FileAction),
)
    requires
        edit_goes_on(
            path,
            EditState::Access { args: edit },
            FileEvent::Access(Err(error)),
            edit_end.0,
            edit_end.1,
        ),
        write_goes_on(
            path,
            has_parent,
            WriteState::Access { args: write },
            FileEvent::Access(Err(error)),
            write_end.0,
            write_end.1,
        ),
        write_goes_on(
            path,
            has_parent,
            WriteState::AccessAgain { args: write },
            FileEvent::Access(Err(error)),
            write_again_end.0,
            write_again_end.1,
        ),
        delete_goes_on(
            path,
            DeleteState::Access { args: delete },
            FileEvent::Access(Err(error)),
            delete_end.0,
            delete_end.1,
        ),
    ensures
        edit_end.0 is Over && edit_end.1.refuses(error),
        write_end.0 is Over && write_end.1.refuses(error),
        write_again_end.0 is Over && write_again_end.1.refuses(error),
        delete_end.0 is Over && delete_end.1.refuses(error),
{
}

/// A delete goes on to remove what is there only where it is no dry run, where it finds what it
/// expects, and, for a directory, where it was told to remove all that is inside.
pub proof fn law_delete_honours_its_options(
    path: Seq<char>,
    args: DeleteArgs,
    is_dir: bool,
    next: DeleteState,
    action: FileAction,
)
    requires
        delete_goes_on(
            path,
            DeleteState::Looking { args },
            FileEvent::IsDir(Ok(is_dir)),
            next,
            action,
        ),
        !(next is Over),
    ensures
        !args.dry_run,
        args.expected_type matches Some(expected) ==> (expected == DeleteExpectedType::Dir)
            == is_dir,
        is_dir ==> args.recursive,
        action matches FileAction::Remove { is_dir: whole, .. } ==> whole == is_dir,
{
}

} // verus!
