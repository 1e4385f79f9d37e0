//! What calls that read, write, edit and delete files do and answer.
use vstd::prelude::*;
use vstd::utf8::encode_utf8;

use crate::change::{
    changed_lines, edit_report, hash_choice, hash_of, hit_lines, new_lines_in, warned,
};
use crate::edit::{
    reuse_warning, searched, searches_again, EditApplyMode, EditArgs, EditHit, EditOperation,
};
use crate::edit_laws::{are_lines, law_lines_are_read_back};
use crate::error::FunctionCallError;
use crate::file_flow::{
    delete_goes_on, edit_goes_on, write_goes_on, DeleteState, EditState, FileAction, FileEvent,
    FileRecord, WriteState,
};
use crate::file_handler::{
    all_lines, begins, deletes, mode_choice, mutates, observation_message, plans, prepares,
    target_denied, target_step, tool_named, warns, write_denied, DeleteArgs, DeleteExpectedType,
    DeleteStep, EditPlanned, EditPrepared, EditReady, FileChange, FileObservationError, FileTool,
    TargetStep, WriteArgs, WriteMode,
};
use crate::line_range::{covers, law_merge_keeps_lines, shown_ranges, well_formed, LineRange};
use crate::outside::{line_diff, sha1_hex, unified_diff, LineChange};
use crate::plan::request_plan;
use crate::read::{command_parts, page_choice, page_of, shown_line, shown_lines, ReadFileArgs};
use crate::request::request_applied;
use crate::text::{decimal, lines_of, pieces};
use crate::text_laws::law_parts_are_joined;

verus! {

/// A page holds the lines of the file from the first wanted one on, with their numbers, as many as there are
/// and no more than the limit.
pub proof fn law_page_holds_the_wanted_lines(text: Seq<char>, start_line: int, limit: int)
    requires
        start_line >= 1,
        limit >= 0,
        lines_of(text).len() < usize::MAX,
    ensures
        ({
            let page = page_of(text, start_line, limit);
            let all = lines_of(text);
            &&& page.len() <= limit
            &&& forall|k: int|
                0 <= k < page.len() ==> (#[trigger] page[k]).0 == start_line + k && page[k].0
                    <= all.len() && page[k].1 == all[start_line + k - 1]
            &&& page.len() < limit ==> start_line + page.len() > all.len()
        }),
{
}

/// A read gives the lines from its start line on, or those behind its offset; up to its end line, or as many
/// as its limit.
pub proof fn law_read_gives_the_asked_lines(text: Seq<char>, args: ReadFileArgs)
    ensures
        args.end_line is Some && args.start_line is None ==> page_choice(text, args) is Err,
        args.start_line == Some(0usize) ==> page_choice(text, args) is Err,
        args.start_line matches Some(first) && args.end_line matches Some(last) && last < first
            ==> page_choice(text, args) is Err,
        args.start_line matches Some(first) ==> (args.end_line matches Some(last) ==> (1 <= first
            <= last ==> page_choice(text, args) == Ok::<Seq<(usize, Seq<char>)>, Seq<char>>(
            page_of(text, first as int, last - first + 1),
        ))),
        args.start_line matches Some(first) ==> (args.end_line is None && 1 <= first ==> page_choice(
            text,
            args,
        ) == Ok::<Seq<(usize, Seq<char>)>, Seq<char>>(
            page_of(text, first as int, args.limit as int),
        )),
        args.start_line is None && args.end_line is None ==> page_choice(text, args) == Ok::<
            Seq<(usize, Seq<char>)>,
            Seq<char>,
        >(page_of(text, args.offset + 1, args.limit as int)),
{
}

/// A line is shown as it is, or behind its number and a colon. Lines are shown one per line.
pub proof fn law_read_lines_are_shown(line: (usize, Seq<char>), more: Seq<(usize, Seq<char>)>, numbers: bool)
    requires
        more.len() > 0,
    ensures
        shown_line(line, false) == line.1,
        shown_line(line, true) == decimal(line.0 as nat) + ":"@ + line.1,
        shown_lines(Seq::empty(), numbers) == Seq::<char>::empty(),
        shown_lines(seq![line], numbers) == shown_line(line, numbers),
        shown_lines(seq![line] + more, numbers) == shown_line(line, numbers) + "\n"@ + shown_lines(
            more,
            numbers,
        ),
{
    let one = seq![shown_line(line, numbers)];
    let rest = Seq::new(more.len(), |i: int| shown_line(more[i], numbers));
    law_parts_are_joined(one, rest, shown_line(line, numbers), "\n"@);
    let single = seq![line];
    assert(Seq::new(single.len(), |i: int| shown_line(single[i], numbers)) =~= one);
    let all = single + more;
    assert(Seq::new(all.len(), |i: int| shown_line(all[i], numbers)) =~= one + rest);
    let none = Seq::<(usize, Seq<char>)>::empty();
    assert(Seq::new(none.len(), |i: int| shown_line(none[i], numbers)) =~= Seq::<
        Seq<char>,
    >::empty());
}

/// A read is shown with the options that differ from reading the start of a file.
pub proof fn law_read_is_shown_with_its_options(args: ReadFileArgs)
    ensures
        command_parts(args)[0] == "read_file"@,
        args.start_line matches Some(first) ==> command_parts(args)[1] == "--start-line="@ + decimal(
            first as nat,
        ),
        args.start_line is None && args.offset != 0 ==> command_parts(args)[1] == "--offset="@
            + decimal(args.offset as nat),
        args.end_line matches Some(last) ==> command_parts(args).last() == "--end-line="@ + decimal(
            last as nat,
        ),
        args.end_line is None && (args.start_line is Some || args.offset != 0 || args.limit != 100)
            ==> command_parts(args).last() == "--limit="@ + decimal(args.limit as nat),
        command_parts(args).len() == 1 + (if args.start_line is Some || args.offset != 0 {
            1int
        } else {
            0
        }) + (if args.end_line is Some || args.start_line is Some || args.offset != 0 || args.limit
            != 100 {
            1int
        } else {
            0
        }),
{
}

proof fn lemma_new_lines(changes: Seq<LineChange>)
    ensures
        new_lines_in(changes) == changes.filter(|c: LineChange| c != LineChange::Delete).len(),
    decreases changes.len(),
{
    reveal(Seq::filter);
    if changes.len() > 0 {
        lemma_new_lines(changes.drop_last());
    }
}

/// How many lines of the new text stand before a change: all changes before it but the deleted lines.
pub open spec fn new_lines_before(changes: Seq<LineChange>, at: int) -> int {
    changes.take(at).filter(|c: LineChange| c != LineChange::Delete).len() as int
}

/// The line of the new text that a change is named by: the inserted line itself; for a deleted line the
/// one that took its place, or the last one.
pub open spec fn named_line(changes: Seq<LineChange>, at: int, new_line_count: nat) -> Option<int> {
    match changes[at] {
        LineChange::Equal => None,
        LineChange::Insert => Some(new_lines_before(changes, at) + 1),
        LineChange::Delete => if new_line_count == 0 {
            None
        } else if new_lines_before(changes, at) < new_line_count {
            Some(new_lines_before(changes, at) + 1)
        } else {
            Some(new_line_count as int)
        },
    }
}

/// The changed lines are those by which some inserted or deleted line is named, and no others.
pub proof fn law_changed_lines_are_named(
    changes: Seq<LineChange>,
    new_line_count: nat,
    line: int,
)
    requires
        changes.len() < usize::MAX,
        new_line_count <= usize::MAX,
    ensures
        covers(changed_lines(changes, new_line_count), line) <==> exists|at: int|
            0 <= at < changes.len() && #[trigger] named_line(changes, at, new_line_count) == Some(
                line,
            ),
    decreases changes.len(),
{
    let all = changed_lines(changes, new_line_count);
    if changes.len() > 0 {
        let last = changes.len() - 1;
        let front = changes.drop_last();
        law_changed_lines_are_named(front, new_line_count, line);
        assert(front =~= changes.take(last));
        lemma_new_lines(front);
        lemma_few_new_lines(front);
        let before = changed_lines(front, new_line_count);
        assert forall|at: int| 0 <= at < last implies #[trigger] named_line(
            changes,
            at,
            new_line_count,
        ) == named_line(front, at, new_line_count) by {
            assert(front.take(at) =~= changes.take(at));
        }
        let own = named_line(changes, last, new_line_count);
        if covers(all, line) {
            let i = choose|i: int| 0 <= i < all.len() && (#[trigger] all[i]).0 <= line <= all[i].1;
            if i < before.len() {
                assert(before[i] == all[i]);
                assert(covers(before, line));
                let at = choose|at: int|
                    0 <= at < front.len() && #[trigger] named_line(front, at, new_line_count)
                        == Some(line);
                assert(named_line(changes, at, new_line_count) == Some(line));
            } else {
                assert(own == Some(line));
            }
        }
        if exists|at: int|
            0 <= at < changes.len() && #[trigger] named_line(changes, at, new_line_count) == Some(
                line,
            ) {
            let at = choose|at: int|
                0 <= at < changes.len() && #[trigger] named_line(changes, at, new_line_count)
                    == Some(line);
            if at < last {
                assert(named_line(front, at, new_line_count) == Some(line));
                let i = choose|i: int|
                    0 <= i < before.len() && (#[trigger] before[i]).0 <= line <= before[i].1;
                assert(all[i] == before[i]);
            } else {
                assert(all[all.len() - 1].0 == line && all[all.len() - 1].1 == line);
            }
        }
    } else {
        assert(all.len() == 0);
    }
}

proof fn lemma_few_new_lines(changes: Seq<LineChange>)
    ensures
        new_lines_in(changes) <= changes.len(),
    decreases changes.len(),
{
    if changes.len() > 0 {
        lemma_few_new_lines(changes.drop_last());
    }
}

/// The hash of a text names its kind and holds the digest of the bytes of the text; an expected hash is met
/// by the same hash only.
pub proof fn law_hash_is_of_the_bytes(text: Seq<char>, expected: Seq<char>)
    ensures
        hash_of(text) == "sha1:"@ + sha1_hex(encode_utf8(text)),
        hash_choice(hash_of(text), expected) is Ok <==> expected == hash_of(text),
{
}

/// A warning stands on a line of its own in front of an output, or alone where there is none.
pub proof fn law_warning_stands_in_front(warning: Seq<char>, output: Seq<char>)
    ensures
        warned(None, output) == output,
        output.len() > 0 ==> warned(Some(warning), output) == warning + "\n"@ + output,
        output.len() == 0 ==> warned(Some(warning), output) == warning,
{
}

/// An edit reports its diff, and each matched range with the number of its operation, counted from 1.
pub proof fn law_edit_reports_each_hit(
    diff: Seq<char>,
    warning: Option<Seq<char>>,
    hits: Seq<EditHit>,
    hit: EditHit,
)
    ensures
        edit_report(diff, warning, Seq::empty()) == warned(warning, diff),
        edit_report(diff, None, hits.push(hit)) == (if hits.len() == 0 {
            diff + "\nMatched ranges:"@
        } else {
            edit_report(diff, None, hits)
        }) + "\nop "@ + decimal((hit.op_index + 1) as nat) + ": bytes "@ + decimal(
            hit.range.start as nat,
        ) + ".."@ + decimal(hit.range.end as nat),
        hits.len() > 0 ==> edit_report(diff, warning, hits) == warned(
            warning,
            edit_report(diff, None, hits),
        ),
{
    assert(hits.push(hit).drop_last() =~= hits);
    let more = "\nop "@ + decimal((hit.op_index + 1) as nat) + ": bytes "@ + decimal(
        hit.range.start as nat,
    ) + ".."@ + decimal(hit.range.end as nat);
    assert(hit_lines(hits.push(hit)) =~= hit_lines(hits) + more);
    if hits.len() == 0 {
        assert(hit_lines(hits) =~= Seq::<char>::empty());
    }
    assert(edit_report(diff, None, hits.push(hit)) =~= (if hits.len() == 0 {
        diff + "\nMatched ranges:"@
    } else {
        edit_report(diff, None, hits)
    }) + "\nop "@ + decimal((hit.op_index + 1) as nat) + ": bytes "@ + decimal(
        hit.range.start as nat,
    ) + ".."@ + decimal(hit.range.end as nat));
}

/// The text that an operation takes away or searches for in order to replace it.
pub open spec fn taken_away(operation: EditOperation) -> Option<String> {
    match operation {
        EditOperation::Replace { old_text, .. } => Some(old_text),
        EditOperation::DeleteText { old_text, .. } => Some(old_text),
        EditOperation::ReplaceOccurrences { old_text, .. } => Some(old_text),
        _ => None,
    }
}

/// The warning about a request is that of the first operation that takes away a text which an earlier one
/// took away; there is none where the operations all see the same text.
pub proof fn law_first_repeated_search_is_warned_about(
    warning: Option<String>,
    operations: Seq<EditOperation>,
    earlier: int,
    later: int,
)
    requires
        warns(warning, operations, EditApplyMode::Sequential),
        0 <= earlier < later < operations.len(),
        taken_away(operations[earlier]) is Some,
        taken_away(operations[later]) is Some,
        taken_away(operations[earlier])->0@ == taken_away(operations[later])->0@,
    ensures
        exists|first: int|
            first <= later && (warning matches Some(text) && text@ == #[trigger] reuse_warning(
                first,
            )),
        forall|first: int|
            #[trigger] reuse_warning(first) == "warning: op "@ + decimal((first + 1) as nat)
                + " occurrence resolved against modified buffer in sequential mode. Use apply_mode=\"snapshot\" for simultaneous replacement."@,
{
    assert(searched(operations[earlier]) == searched(operations[later]));
    assert(searches_again(operations, later));
    let first = choose|i: int|
        #![trigger searches_again(operations, i)]
        searches_again(operations, i) && (forall|k: int| k < i ==> !searches_again(operations, k))
            && warning->0@ == reuse_warning(i);
    assert(warning->0@ == reuse_warning(first));
    if later < first {
        assert(!searches_again(operations, later));
    }
}

/// A request without a repeated search, or whose operations all see the same text, has no warning.
pub proof fn law_no_warning_without_repeated_search(
    warning: Option<String>,
    operations: Seq<EditOperation>,
    mode: EditApplyMode,
)
    requires
        warns(warning, operations, mode),
        mode == EditApplyMode::Snapshot || forall|i: int, j: int|
            0 <= i < j < operations.len() ==> {
                ||| taken_away(#[trigger] operations[i]) is None
                ||| taken_away(#[trigger] operations[j]) is None
                ||| taken_away(operations[i])->0@ != taken_away(operations[j])->0@
            },
    ensures
        warning is None,
{
    if warning is Some {
        let i = choose|i: int| #![trigger searches_again(operations, i)] searches_again(operations, i);
        let j = choose|j: int|
            0 <= j < i && searched(#[trigger] operations[j]) == searched(operations[i]);
        assert(taken_away(operations[j])->0@ == taken_away(operations[i])->0@);
    }
}

/// An edit takes its list of operations, or makes one replacement of its old text by its new text; it is
/// refused where it has both or lacks one of the texts.
pub proof fn law_edit_takes_its_operations(
    args: EditArgs,
    r: Result<EditReady, FunctionCallError>,
)
    requires
        begins(args, r),
    ensures
        r is Ok <==> if args.ops@.len() > 0 {
            args.old_text is None && args.new_text is None && args.occurrence is None
        } else {
            args.old_text is Some && args.new_text is Some
        },
        r matches Ok(ready) ==> ready.request.apply_mode == args.apply_mode,
        r matches Ok(ready) && args.ops@.len() > 0 ==> r->Ok_0.request.operations@ == args.ops@,
        r matches Ok(ready) && args.ops@.len() == 0 ==> {
            let operations = r->Ok_0.request.operations@;
            &&& operations.len() == 1
            &&& operations[0] matches EditOperation::Replace { old_text, new_text, occurrence }
            &&& Some(old_text) == args.old_text
            &&& Some(new_text) == args.new_text
            &&& occurrence == args.occurrence
        },
{
}

/// The mode of a write allows a new file where it may create one, and a file that is there where it may
/// change one.
pub proof fn law_write_modes(path: Seq<char>, present: bool)
    ensures
        mode_choice(path, WriteMode::Overwrite, present) is Ok,
        mode_choice(path, WriteMode::CreateNew, present) is Ok <==> !present,
        mode_choice(path, WriteMode::UpdateExisting, present) is Ok <==> present,
{
}

/// Whether a call ends here without a change.
pub open spec fn ends_unchanged(action: FileAction) -> bool {
    action matches FileAction::Finish(finish) && finish.result is Err && finish.record is Nothing
        && finish.refused is None && finish.verb is None
}

/// A write goes through where its mode allows it and the file has the expected hash, if one is expected: it
/// announces a new file, or the change of the text that is there, and writes the given content. Else it
/// ends without a change.
pub proof fn law_write_goes_through(
    path: Seq<char>,
    has_parent: bool,
    args: WriteArgs,
    read: Result<String, String>,
    next: WriteState,
    action: FileAction,
)
    requires
        write_goes_on(
            path,
            has_parent,
            WriteState::Reading { args },
            FileEvent::Text(read),
            next,
            action,
        ),
    ensures
        ({
            let expected = match args.expected_hash {
                Some(hash) => read matches Ok(text) && "sha1:"@ + sha1_hex(encode_utf8(text@))
                    == hash@,
                None => true,
            };
            if expected {
                &&& action matches FileAction::Write { change, content }
                &&& content == args.content
                &&& match read {
                    Ok(text) => change matches FileChange::Update { unified_diff: diff } && diff@
                        == unified_diff(path, text@, args.content@),
                    Err(_) => change matches FileChange::Add { content: added } && added@
                        == args.content@,
                }
                &&& next matches WriteState::Writing { content_hash, ranges }
                &&& content_hash@ == "sha1:"@ + sha1_hex(encode_utf8(args.content@))
                &&& args.content@.len() == 0 ==> ranges@.len() == 0
                &&& args.content@.len() > 0 ==> ranges@ == seq![
                    (1usize, pieces(args.content@).len() as usize),
                ]
            } else {
                next is Over && ends_unchanged(action)
            }
        }),
{
}

/// A write looks for its file after it got leave, and creates the directories above it before that where it
/// was told to; it then asks for leave once more.
pub proof fn law_write_creates_directories_first(
    path: Seq<char>,
    has_parent: bool,
    args: WriteArgs,
    first: (WriteState, FileAction),
    second: (WriteState, FileAction),
    third: (WriteState, FileAction),
    present: bool,
    fourth: (WriteState, FileAction),
)
    requires
        write_goes_on(
            path,
            has_parent,
            WriteState::Access { args },
            FileEvent::Access(Ok(())),
            first.0,
            first.1,
        ),
        write_goes_on(
            path,
            has_parent,
            WriteState::Parents { args },
            FileEvent::Done(Ok(())),
            second.0,
            second.1,
        ),
        write_goes_on(
            path,
            has_parent,
            WriteState::AccessAgain { args },
            FileEvent::Access(Ok(())),
            third.0,
            third.1,
        ),
        write_goes_on(
            path,
            has_parent,
            WriteState::Looking { args },
            FileEvent::Present(Ok(present)),
            fourth.0,
            fourth.1,
        ),
    ensures
        first.1 is CreateParents <==> args.create_parent_dirs && has_parent,
        first.1 is LookForFile <==> !(args.create_parent_dirs && has_parent),
        first.1 is CreateParents ==> first.0 == (WriteState::Parents { args }),
        first.1 is LookForFile ==> first.0 == (WriteState::Looking { args }),
        second.1 is CheckWrite && second.0 == (WriteState::AccessAgain { args }),
        third.1 is LookForFile && third.0 == (WriteState::Looking { args }),
        fourth.1 is ReadText <==> args.mode == WriteMode::Overwrite || (args.mode
            == WriteMode::CreateNew) == !present,
        fourth.1 is ReadText ==> fourth.0 == (WriteState::Reading { args }),
        !(fourth.1 is ReadText) ==> fourth.0 is Over && ends_unchanged(fourth.1),
{
}

/// A finished write answers with the path and notes that all lines that it wrote are known.
pub proof fn law_finished_write_is_noted(
    path: Seq<char>,
    has_parent: bool,
    hash: String,
    ranges: Vec<LineRange>,
    next: WriteState,
    action: FileAction,
)
    requires
        write_goes_on(
            path,
            has_parent,
            (WriteState::Writing { content_hash: hash, ranges }),
            FileEvent::Done(Ok(())),
            next,
            action,
        ),
    ensures
        next is Over,
        action matches FileAction::Finish(finish) && (finish.result matches Ok(answer) && answer@
            == "wrote "@ + path) && finish.record == (FileRecord::Observation {
            content_hash: hash,
            ranges,
        }) && (finish.verb matches Some(verb) && verb@ == "wrote"@) && finish.refused is None,
{
}

/// All lines of a text are from the first to the last one.
pub proof fn law_all_lines_of_a_text(lines: Seq<Seq<char>>)
    requires
        are_lines(lines),
        lines.len() <= usize::MAX,
        lines.len() > 0,
    ensures
        all_lines(lines.flatten()) == seq![(1usize, lines.len() as usize)],
        all_lines(Seq::empty()) == Seq::<LineRange>::empty(),
{
    law_lines_are_read_back(lines);
    if lines.flatten().len() == 0 {
        assert(pieces(lines.flatten()).len() == 0);
    }
}

/// What a delete does with what is there: it refuses what it did not expect, answers a dry run without
/// removing anything, reads a file before it removes it, and removes a directory only where it was told to
/// remove all that is inside.
pub proof fn law_delete_removes_what_it_may(
    path: Seq<char>,
    args: DeleteArgs,
    is_dir: bool,
    next: DeleteState,
    action: FileAction,
)
    requires
        delete_goes_on(
            path,
            DeleteState::Looking { args },
            FileEvent::IsDir(Ok(is_dir)),
            next,
            action,
        ),
    ensures
        ({
            let unexpected = args.expected_type matches Some(kind) && (kind
                == DeleteExpectedType::Dir) != is_dir;
            &&& unexpected ==> next is Over && ends_unchanged(action)
            &&& !unexpected && args.dry_run ==> next is Over && (action matches FileAction::Finish(
                finish,
            ) && (finish.result matches Ok(answer) && answer@ == "would delete "@ + path)
                && finish.record is Nothing && finish.refused is None && finish.verb is None)
            &&& !unexpected && !args.dry_run && !is_dir ==> next is Reading && action is ReadText
            &&& !unexpected && !args.dry_run && is_dir && args.recursive ==> next is Removing && (
            action matches FileAction::Remove { change, is_dir: whole } && whole && (
            change matches FileChange::Delete { content } && content@ == ""@))
            &&& !unexpected && !args.dry_run && is_dir && !args.recursive ==> next is Over && (
            action matches FileAction::Finish(finish) && finish.result is Err)
        }),
{
}

/// A file is removed with its content noted, and the answer of a finished delete names the path.
pub proof fn law_deleted_file_is_noted(
    path: Seq<char>,
    read: Result<String, String>,
    removing: (DeleteState, FileAction),
    ended: (DeleteState, FileAction),
)
    requires
        delete_goes_on(
            path,
            DeleteState::Reading,
            FileEvent::Text(read),
            removing.0,
            removing.1,
        ),
        delete_goes_on(path, DeleteState::Removing, FileEvent::Done(Ok(())), ended.0, ended.1),
    ensures
        removing.0 is Removing,
        removing.1 matches FileAction::Remove { change, is_dir } && !is_dir && (
        change matches FileChange::Delete { content } && (read matches Ok(text) ==> content@
            == text@) && (read is Err ==> content@ == ""@)),
        ended.0 is Over,
        ended.1 matches FileAction::Finish(finish) && (finish.result matches Ok(answer) && answer@
            == "deleted "@ + path) && (finish.verb matches Some(verb) && verb@ == "deleted"@),
{
}

/// A change that was announced and failed is answered with the reason, and nothing is noted of the file.
pub proof fn law_failed_change_is_told(
    path: Seq<char>,
    has_parent: bool,
    reason: String,
    edit: EditState,
    write: WriteState,
    edited: (EditState, FileAction),
    written: (WriteState, FileAction),
    deleted: (DeleteState, FileAction),
)
    requires
        edit is Writing,
        write is Writing,
        edit_goes_on(path, edit, FileEvent::Done(Err(reason)), edited.0, edited.1),
        write_goes_on(
            path,
            has_parent,
            write,
            FileEvent::Done(Err(reason)),
            written.0,
            written.1,
        ),
        delete_goes_on(
            path,
            DeleteState::Removing,
            FileEvent::Done(Err(reason)),
            deleted.0,
            deleted.1,
        ),
    ensures
        edited.0 is Over && tells(edited.1, reason@, "edited"@),
        written.0 is Over && tells(written.1, reason@, "wrote"@),
        deleted.0 is Over && tells(deleted.1, reason@, "deleted"@),
{
}

/// Whether a call ends with this reason for an announced change that failed.
pub open spec fn tells(action: FileAction, reason: Seq<char>, verb: Seq<char>) -> bool {
    &&& action matches FileAction::Finish(finish)
    &&& finish.result matches Err(FunctionCallError::RespondToModel(message))
    &&& message@ == reason
    &&& finish.record is Nothing
    &&& finish.verb matches Some(held)
    &&& held@ == verb
}

/// A finished edit answers with its report and notes what it did.
pub proof fn law_finished_edit_is_noted(
    path: Seq<char>,
    state: EditState,
    next: EditState,
    action: FileAction,
)
    requires
        state is Writing,
        edit_goes_on(path, state, FileEvent::Done(Ok(())), next, action),
    ensures
        next is Over,
        state matches EditState::Writing { output, record } && (action matches FileAction::Finish(
            finish,
        ) && finish.result == Ok::<String, FunctionCallError>(output) && finish.record
            == FileRecord::Edit(record) && finish.refused is None && (finish.verb matches Some(verb)
            && verb@ == "edited"@)),
{
}

/// What is said of an edit that is not based on what was read names the path and what is missing.
pub proof fn law_missing_observation_is_named(
    path: Seq<char>,
    ranges: Vec<LineRange>,
    observed_hash: String,
    current_hash: String,
)
    ensures
        observation_message(path, FileObservationError::NotObserved) == "refusing to edit `"@ + path
            + "` because the target lines have not been read or searched this turn"@,
        observation_message(path, (FileObservationError::MissingLines { ranges }))
            == "refusing to edit `"@ + path + "` because lines "@ + shown_ranges(ranges@)
            + " have not been read or searched this turn"@,
        observation_message(path, (FileObservationError::Stale { observed_hash, current_hash }))
            == "refusing to edit `"@ + path
            + "` because it changed since it was read or searched: observed "@ + observed_hash@
            + ", actual "@ + current_hash@,
{
}

/// Each file tool has its name, and those that change files are the edit, the write and the delete.
pub proof fn law_file_tools_are_named()
    ensures
        tool_named("read_file"@) == Some(FileTool::ReadFile),
        tool_named("search_file"@) == Some(FileTool::SearchFile),
        tool_named("grep_file"@) == Some(FileTool::GrepFile),
        tool_named("glob_file"@) == Some(FileTool::GlobFile),
        tool_named("edit"@) == Some(FileTool::Edit),
        tool_named("write"@) == Some(FileTool::Write),
        tool_named("delete"@) == Some(FileTool::Delete),
        mutates("edit"@) && mutates("write"@) && mutates("delete"@),
        !mutates("read_file"@) && !mutates("search_file"@) && !mutates("grep_file"@) && !mutates(
            "glob_file"@,
        ),
{
    reveal_strlit("read_file");
    reveal_strlit("search_file");
    reveal_strlit("grep_file");
    reveal_strlit("glob_file");
    reveal_strlit("edit");
    reveal_strlit("write");
    reveal_strlit("delete");
    assert("edit"@.len() == 4 && "write"@.len() == 5 && "delete"@.len() == 6);
    assert("read_file"@.len() == 9 && "grep_file"@.len() == 9 && "glob_file"@.len() == 9);
    assert("search_file"@.len() == 11);
    assert("read_file"@[0] == 'r');
    assert("grep_file"@[1] == 'r');
    assert("glob_file"@[1] == 'l');
    assert("grep_file"@[0] == 'g');
    assert("glob_file"@[0] == 'g');
}

/// What a delete does first with what is at its path.
pub proof fn law_delete_begins(
    path: Seq<char>,
    is_dir: bool,
    args: DeleteArgs,
    r: Result<DeleteStep, FunctionCallError>,
)
    requires
        deletes(path, is_dir, args, r),
    ensures
        ({
            let unexpected = args.expected_type matches Some(kind) && (kind
                == DeleteExpectedType::Dir) != is_dir;
            &&& r is Err <==> unexpected
            &&& !unexpected && args.dry_run ==> (r matches Ok(DeleteStep::Answer(answer)) && answer@
                == "would delete "@ + path)
            &&& !unexpected && !args.dry_run ==> (r matches Ok(DeleteStep::RemoveDir)) == is_dir
            &&& !unexpected && !args.dry_run ==> (r matches Ok(DeleteStep::RemoveFile)) == !is_dir
        }),
{
}

/// The target of a path is looked for at the path and then at one ancestor after the other, until one exists
/// or there is none further up.
pub proof fn law_target_is_looked_for(levels: usize, has_parent: bool)
    requires
        levels < usize::MAX,
    ensures
        target_step(levels, true, has_parent) == (TargetStep::Resolve { levels }),
        target_step(levels, false, true) == (TargetStep::Look { levels: (levels + 1) as usize }),
        target_step(levels, false, false) == TargetStep::Unknown,
{
}

/// What is said of a path that must not be written, and of one whose target must not be.
pub proof fn law_denied_writes_are_told(path: Seq<char>, target: Seq<char>)
    ensures
        write_denied(path) == "access denied: writing `"@ + path
            + "` is blocked by filesystem policy"@,
        target_denied(path, target) == "access denied: writing `"@ + path + "` resolves to `"@
            + target + "` which is blocked by filesystem policy"@,
{
}

/// An edit relies on the lines that its plan requires, in the text that was read; one without a plan is
/// refused.
pub proof fn law_edit_is_planned(
    ready: EditReady,
    text: Seq<char>,
    r: Result<EditPlanned, FunctionCallError>,
)
    requires
        plans(ready, text, r),
    ensures
        r is Ok <==> request_plan(text, ready.request.operations@, ready.request.apply_mode) is Ok,
        r matches Ok(planned) ==> {
            let plan = request_plan(text, ready.request.operations@, ready.request.apply_mode)->Ok_0;
            &&& planned.previous_hash@ == "sha1:"@ + sha1_hex(encode_utf8(text))
            &&& planned.plan.required_ranges@ == plan.required
            &&& planned.plan.final_line_origins@ == plan.origins
        },
{
}

/// What an edit writes and notes: the edited text, its diff against the text that was read, both hashes, and
/// the lines that changed.
pub proof fn law_edit_is_prepared(
    path: Seq<char>,
    text: Seq<char>,
    ready: EditReady,
    planned: EditPlanned,
    r: Result<EditPrepared, FunctionCallError>,
    line: int,
)
    requires
        prepares(path, text, ready, planned, Ok(()), r),
        request_applied(text, ready.request.operations@, ready.request.apply_mode) is Ok,
        line_diff(
            text,
            request_applied(
                text,
                ready.request.operations@,
                ready.request.apply_mode,
            )->Ok_0.text,
        ).len() < usize::MAX,
        pieces(
            request_applied(
                text,
                ready.request.operations@,
                ready.request.apply_mode,
            )->Ok_0.text,
        ).len() <= usize::MAX,
    ensures
        ({
            let edited = request_applied(
                text,
                ready.request.operations@,
                ready.request.apply_mode,
            )->Ok_0.text;
            let changes = line_diff(text, edited);
            let count = pieces(edited).len();
            &&& r matches Ok(prepared)
            &&& prepared.edited@ == edited
            &&& prepared.change matches FileChange::Update { unified_diff: diff }
            &&& diff@ == unified_diff(path, text, edited)
            &&& prepared.record.previous_hash == planned.previous_hash
            &&& prepared.record.content_hash@ == "sha1:"@ + sha1_hex(encode_utf8(edited))
            &&& prepared.record.line_origins == planned.plan.final_line_origins
            &&& covers(prepared.record.changed_ranges@, line) <==> exists|at: int|
                0 <= at < changes.len() && #[trigger] named_line(changes, at, count) == Some(line)
        }),
{
    let edited = request_applied(
        text,
        ready.request.operations@,
        ready.request.apply_mode,
    )->Ok_0.text;
    let changes = line_diff(text, edited);
    let count = pieces(edited).len();
    law_changed_lines_are_named(changes, count, line);
    lemma_changed_well_formed(changes, count);
    law_merge_keeps_lines(changed_lines(changes, count), line);
}

proof fn lemma_changed_well_formed(changes: Seq<LineChange>, count: nat)
    ensures
        well_formed(changed_lines(changes, count)),
    decreases changes.len(),
{
    if changes.len() > 0 {
        lemma_changed_well_formed(changes.drop_last(), count);
        let before = changed_lines(changes.drop_last(), count);
        let all = changed_lines(changes, count);
        assert forall|i: int| 0 <= i < all.len() implies (#[trigger] all[i]).0 <= all[i].1 by {
            if i < before.len() {
                assert(all[i] == before[i]);
            }
        }
    }
}

} // verus!
