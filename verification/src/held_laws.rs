//! What stands in the values that the library takes and gives: texts, results and their messages, edits, found
//! things, lines and commands, said field by field.
use vstd::prelude::*;
use vstd::utf8::encode_utf8;

use crate::agent_summary::{
    counts, cut_short, detail_line, generic_line, main_argument, tool_label, ToolCount,
};
use crate::agents::{status_models, CollabAgentStatusEntry};
use crate::edit::{models, resolved_hits, resolves_to, Edit, ResolvedEdit};
use crate::edit_laws::{found_at, law_places_are_found};
use crate::error::{agrees, FunctionCallError};
use crate::exec_cell::{call_model, call_models, output_model, CommandOutput, ExecCall};
use crate::file_handler::{error_text, writes, FileChange, WriteArgs};
use crate::footer::{subagent_model, BackgroundSubagentActivity};
use crate::grep::{context_model, match_models, GrepContextLine, GrepMatch};
use crate::line_range::LineRange;
use crate::live_table::{piece_models, PreviewPiece};
use crate::occurrence::{occurrence_at, occurrence_choice, occurrence_count, occurrence_span};
use crate::outside::{sha1_hex, unified_diff};
use crate::picker::{line_models, StyledLine};
use crate::plan::{plan_agrees, ranges_agree, EditObservationPlan, Plan};
use crate::read::{numbered, NumberedLine};
use crate::request::{applies_to, Applied, AppliedEdit};
use crate::shell_tools::{bash_command, shell_failure};
use crate::streaming::StreamCore;
use crate::text::{nested, opt_texts, slice_of, text_of, texts};
use crate::walk::{glob_hits, hit_paths, hits, read_denied, GlobMatch, Hit, SearchMatch};
use crate::width::nats;

verus! {

/// A list of texts holds each of them in its place, and an optional one is there where it is given.
pub proof fn law_texts_are_held(list: Vec<String>, one: String, parts: Seq<Vec<char>>, i: int)
    ensures
        texts(list@).len() == list@.len(),
        0 <= i < list@.len() ==> texts(list@)[i] == list@[i]@,
        text_of(Some(one)) == Some(one@),
        text_of(None) is None,
        slice_of(None) is None,
        opt_texts(Some(list)) == Some(texts(list@)),
        opt_texts(None) is None,
        nested(parts).len() == parts.len(),
        0 <= i < parts.len() ==> nested(parts)[i] == parts[i]@,
{
}

/// Numbers keep their places and values.
pub proof fn law_numbers_are_held(list: Seq<usize>, i: int)
    ensures
        nats(list).len() == list.len(),
        0 <= i < list.len() ==> nats(list)[i] == list[i],
{
}

/// A result that agrees with another holds its value, or an error for the model with its very message.
pub proof fn law_results_agree<T>(
    r: Result<T, FunctionCallError>,
    value: T,
    message: Seq<char>,
    told: String,
)
    ensures
        agrees(r, Ok::<T, Seq<char>>(value)) <==> r == Ok::<T, FunctionCallError>(value),
        agrees(r, Err::<T, Seq<char>>(told@)) ==> (r matches Err(
            FunctionCallError::RespondToModel(text),
        ) && text@ == told@),
        r == Err::<T, FunctionCallError>(FunctionCallError::RespondToModel(told)) ==> (agrees(
            r,
            Err::<T, Seq<char>>(message),
        ) <==> told@ == message),
        FunctionCallError::RespondToModel(told).says(message) <==> told@ == message,
{
}

/// An edit that was made holds the text and the hits that it should, and one that was refused its message.
pub proof fn law_edit_results_are_held(
    r: Result<AppliedEdit, FunctionCallError>,
    applied: Applied,
    message: Seq<char>,
)
    ensures
        applies_to(r, Ok::<Applied, Seq<char>>(applied)) ==> (r matches Ok(got) && got.text@
            == applied.text && got.hits@ == applied.hits),
        applies_to(r, Err::<Applied, Seq<char>>(message)) ==> (r matches Err(
            FunctionCallError::RespondToModel(text),
        ) && text@ == message),
{
}

/// The replacements of an operation are those that it should make, each with the bytes of its characters.
pub proof fn law_replacements_are_held(
    text: Seq<char>,
    r: Result<Vec<ResolvedEdit>, FunctionCallError>,
    edits: Seq<Edit>,
    message: Seq<char>,
    i: int,
)
    ensures
        resolves_to(text, r, Ok::<Seq<Edit>, Seq<char>>(edits)) ==> {
            &&& r matches Ok(got)
            &&& got@.len() == edits.len()
            &&& 0 <= i < edits.len() ==> {
                &&& got@[i].op_index == edits[i].op
                &&& got@[i].chars.start == edits[i].start
                &&& got@[i].chars.end == edits[i].end
                &&& got@[i].replacement@ == edits[i].text
                &&& 0 <= edits[i].start <= edits[i].end <= text.len()
                &&& got@[i].range.start == encode_utf8(text.take(edits[i].start)).len()
                &&& got@[i].range.end == encode_utf8(text.take(edits[i].end)).len()
                &&& resolved_hits(got@)[i].op_index == got@[i].op_index
                &&& resolved_hits(got@)[i].range == got@[i].range
            }
            &&& resolved_hits(got@).len() == edits.len()
        },
        resolves_to(text, r, Err::<Seq<Edit>, Seq<char>>(message)) ==> (r matches Err(
            FunctionCallError::RespondToModel(told),
        ) && told@ == message),
{
    if resolves_to(text, r, Ok::<Seq<Edit>, Seq<char>>(edits)) {
        let got = r->Ok_0;
        assert(models(got@).len() == got@.len());
        if 0 <= i < edits.len() {
            assert(models(got@)[i] == got@[i].model());
            assert(got@[i].fits(text));
        }
    }
}

/// A plan holds the lines and the origins that it should, and a refusal its message.
pub proof fn law_plans_are_held(
    r: Result<EditObservationPlan, FunctionCallError>,
    plan: Plan,
    ranges: Result<Vec<LineRange>, FunctionCallError>,
    wanted: Seq<LineRange>,
    message: Seq<char>,
)
    ensures
        plan_agrees(r, Ok::<Plan, Seq<char>>(plan)) ==> (r matches Ok(got) && got.required_ranges@
            == plan.required && got.final_line_origins@ == plan.origins),
        plan_agrees(r, Err::<Plan, Seq<char>>(message)) ==> (r matches Err(
            FunctionCallError::RespondToModel(text),
        ) && text@ == message),
        ranges_agree(ranges, Ok::<Seq<LineRange>, Seq<char>>(wanted)) ==> (ranges matches Ok(got)
            && got@ == wanted),
        ranges_agree(ranges, Err::<Seq<LineRange>, Seq<char>>(message)) ==> (ranges matches Err(
            FunctionCallError::RespondToModel(text),
        ) && text@ == message),
{
}

/// The occurrence that is meant is the named one, or the only one; it is counted among the places where the
/// text stands, and begins at its place.
pub proof fn law_meant_occurrence(
    text: Seq<char>,
    needle: Seq<char>,
    starts: Seq<int>,
    nth: usize,
    field_name: Seq<char>,
)
    requires
        needle.len() > 0,
        found_at(text, needle, starts),
    ensures
        occurrence_count(text, needle) == starts.len(),
        1 <= nth <= starts.len() ==> occurrence_at(text, needle, nth as nat) == starts[nth - 1],
        1 <= nth <= starts.len() <==> occurrence_choice(text, needle, Some(nth), field_name)
            == Ok::<usize, Seq<char>>(nth),
        occurrence_choice(text, needle, Some(nth), field_name) is Ok ==> 1 <= nth <= starts.len(),
        starts.len() == 1 ==> occurrence_choice(text, needle, None, field_name) == Ok::<
            usize,
            Seq<char>,
        >(1),
        occurrence_choice(text, needle, None, field_name) is Ok <==> starts.len() == 1,
        1 <= nth <= starts.len() ==> occurrence_span(text, needle, Some(nth), field_name) == Ok::<
            (int, int),
            Seq<char>,
        >((starts[nth - 1], starts[nth - 1] + needle.len())),
{
    law_places_are_found(text, needle, starts);
}

/// The empty text stands before each character and at the end, and is found at the start.
pub proof fn law_empty_text_is_counted(text: Seq<char>, nth: nat)
    ensures
        occurrence_count(text, ""@) == text.len() + 1,
        occurrence_at(text, ""@, nth) == 0,
{
    reveal_strlit("");
}

/// Found paths and entries hold their path, the path below the root where it is known, and their score or
/// kind.
pub proof fn law_found_paths_are_held(
    found: Seq<SearchMatch>,
    entries: Seq<GlobMatch>,
    ranked: Seq<Hit>,
    i: int,
)
    ensures
        hits(found).len() == found.len(),
        0 <= i < found.len() ==> hits(found)[i].path == found[i].path@ && hits(found)[i].score
            == found[i].score && hits(found)[i].relative_path == text_of(found[i].relative_path),
        glob_hits(entries).len() == entries.len(),
        0 <= i < entries.len() ==> glob_hits(entries)[i].path == entries[i].path@ && glob_hits(
            entries,
        )[i].entry_type == entries[i].entry_type && glob_hits(entries)[i].relative_path == text_of(
            entries[i].relative_path,
        ),
        hit_paths(ranked).len() == ranked.len(),
        0 <= i < ranked.len() ==> hit_paths(ranked)[i] == ranked[i].path,
{
}

/// Matches hold their path, line and text, and the lines before and behind.
pub proof fn law_matches_are_held(
    matches: Seq<GrepMatch>,
    lines: Seq<GrepContextLine>,
    i: int,
)
    ensures
        match_models(matches).len() == matches.len(),
        0 <= i < matches.len() ==> {
            let shown = match_models(matches)[i];
            &&& shown.path == matches[i].path@
            &&& shown.line == matches[i].line
            &&& shown.text == matches[i].text@
            &&& shown.before == context_model(matches[i].context_before@)
            &&& shown.after == context_model(matches[i].context_after@)
        },
        context_model(lines).len() == lines.len(),
        0 <= i < lines.len() ==> context_model(lines)[i] == (lines[i].line, lines[i].text@),
{
}

/// Shown lines hold their style and text, and read ones their number and text.
pub proof fn law_lines_are_held(lines: Seq<StyledLine>, read: Seq<NumberedLine>, i: int)
    ensures
        line_models(lines).len() == lines.len(),
        0 <= i < lines.len() ==> line_models(lines)[i].style == lines[i].style && line_models(
            lines,
        )[i].text == lines[i].text@,
        numbered(read).len() == read.len(),
        0 <= i < read.len() ==> numbered(read)[i] == (read[i].0, read[i].1@),
{
}

/// A command holds what it was made of, and its output both texts and the exit code.
pub proof fn law_calls_are_held(calls: Seq<ExecCall>, output: CommandOutput, i: int)
    ensures
        call_models(calls).len() == calls.len(),
        0 <= i < calls.len() ==> call_models(calls)[i] == call_model(calls[i]),
        0 <= i < calls.len() ==> {
            let shown = call_model(calls[i]);
            &&& shown.call_id == calls[i].call_id@
            &&& shown.command == texts(calls[i].command@)
            &&& shown.parsed.len() == calls[i].parsed@.len()
            &&& shown.output is None <==> calls[i].output is None
            &&& calls[i].output matches Some(held) ==> shown.output == Some(output_model(held))
            &&& shown.auto_review_approved == calls[i].auto_review_approved
            &&& shown.source == calls[i].source
            &&& shown.run_mode == calls[i].run_mode
            &&& shown.start_time == calls[i].start_time
            &&& shown.duration == calls[i].duration
            &&& shown.interaction_input == text_of(calls[i].interaction_input)
        },
        output_model(output).exit_code == output.exit_code,
        output_model(output).aggregated_output == output.aggregated_output@,
        output_model(output).formatted_output == output.formatted_output@,
{
}

/// Uses of tools and statuses of agents hold what they name.
pub proof fn law_agents_are_held(
    entries: Seq<ToolCount>,
    statuses: Seq<CollabAgentStatusEntry>,
    agent: BackgroundSubagentActivity,
    i: int,
)
    ensures
        counts(entries).len() == entries.len(),
        0 <= i < entries.len() ==> counts(entries)[i] == (
            entries[i].name@,
            entries[i].count as nat,
        ),
        status_models(statuses).len() == statuses.len(),
        0 <= i < statuses.len() ==> {
            let shown = status_models(statuses)[i];
            &&& shown.thread_id == statuses[i].thread_id@
            &&& shown.agent_nickname == text_of(statuses[i].agent_nickname)
            &&& shown.agent_role == text_of(statuses[i].agent_role)
            &&& shown.status == statuses[i].status
        },
        subagent_model(agent).name == agent.label@,
        subagent_model(agent).id == agent.thread_id@,
        subagent_model(agent).status == agent.status@,
        subagent_model(agent).started_at == agent.started_at,
        subagent_model(agent).output == texts(agent.recent_output@),
{
}

/// A stream holds its text, its queue and what it has shown.
pub proof fn law_streams_are_held<L>(core: StreamCore<L>, pieces: Seq<PreviewPiece>, i: int)
    ensures
        core.model().buffer == core.buffer@,
        core.model().has_seen_delta == core.has_seen_delta,
        core.model().queue == core.queue@,
        core.model().width == core.width,
        core.model().source == core.raw_source@,
        core.model().rendered == core.rendered_lines@,
        core.model().enqueued == core.enqueued_len,
        core.model().emitted == core.emitted_len,
        core.model().table is None <==> core.live_table is None,
        core.model().candidate == text_of(core.live_table_candidate_header),
        piece_models(pieces).len() == pieces.len(),
        0 <= i < pieces.len() ==> piece_models(pieces)[i] == pieces[i].model(),
{
}

/// What a write changes: a file that was there differs from the text that was in it, and one that was not is
/// added. A text that is expected has to be there.
pub proof fn law_write_is_a_change(
    path: Seq<char>,
    previous: Option<Seq<char>>,
    args: WriteArgs,
    r: Result<FileChange, FunctionCallError>,
)
    requires
        writes(path, previous, args, r),
    ensures
        ({
            let expected = text_of(args.expected_hash);
            &&& r is Ok <==> (expected is None || (previous is Some && expected->0 == "sha1:"@
                + sha1_hex(encode_utf8(previous->0))))
            &&& r is Ok && previous is None ==> (r matches Ok(FileChange::Add { content })
                && content@ == args.content@)
            &&& r is Ok && previous is Some ==> (r matches Ok(
                FileChange::Update { unified_diff: diff },
            ) && diff@ == unified_diff(path, previous->0, args.content@))
            &&& r is Err && previous is None ==> (r matches Err(
                FunctionCallError::RespondToModel(text),
            ) && text@ == "expected_hash requires an existing readable text file"@)
            &&& r is Err && previous is Some ==> (r matches Err(
                FunctionCallError::RespondToModel(text),
            ) && text@ == "expected_hash mismatch: expected "@ + expected->0 + ", actual sha1:"@
                + sha1_hex(encode_utf8(previous->0)))
        }),
{
    reveal_strlit(", actual sha1:");
    reveal_strlit(", actual ");
    reveal_strlit("sha1:");
    assert(", actual sha1:"@ =~= ", actual "@ + "sha1:"@);
    if r is Err && previous is Some {
        let expected = text_of(args.expected_hash)->0;
        let hash = sha1_hex(encode_utf8(previous->0));
        assert("expected_hash mismatch: expected "@ + expected + ", actual "@ + ("sha1:"@ + hash)
            =~= "expected_hash mismatch: expected "@ + expected + ", actual sha1:"@ + hash);
    }
}

/// What is said of a path that must not be read, and of a call of a shell that failed; and how a shell gets a
/// command line.
pub proof fn law_messages_name_their_subject(
    path: Seq<char>,
    tool_name: Seq<char>,
    shell_id: Seq<char>,
    reason: Seq<char>,
    line: Seq<char>,
)
    ensures
        read_denied(path) == "access denied: reading `"@ + path
            + "` is blocked by filesystem deny_read policy"@,
        shell_failure(tool_name, shell_id, reason) == tool_name + " failed for shell "@ + shell_id
            + ": "@ + reason,
        bash_command(line).len() == 3,
        bash_command(line)[0] == "bash"@ && bash_command(line)[1] == "-lc"@ && bash_command(line)[2]
            == line,
        error_text(None) == ""@,
{
}

/// A tool without a line of its own is shown by its name and the argument that says most, or the text that it
/// was given.
pub proof fn law_other_tools_are_shown(name: Seq<char>, arguments: Seq<char>, detail: Seq<char>)
    ensures
        main_argument(arguments) is None ==> generic_line(name, arguments) == tool_label(name),
        main_argument(arguments) matches Some(text) ==> text.len() > 0 ==> generic_line(
            name,
            arguments,
        ) == tool_label(name) + " "@ + text,
        detail_line(name, None) == tool_label(name),
        0 < detail.len() <= 80 ==> detail_line(name, Some(detail)) == tool_label(name) + " "@
            + detail,
        detail.len() > 80 ==> detail_line(name, Some(detail)) == tool_label(name) + " "@
            + detail.take(80) + "..."@,
        detail.len() == 0 ==> detail_line(name, Some(detail)) == tool_label(name),
{
    if detail.len() > 80 {
        assert(cut_short(detail) == detail.take(80) + "..."@);
        assert(tool_label(name) + " "@ + (detail.take(80) + "..."@) =~= tool_label(name) + " "@
            + detail.take(80) + "..."@);
    }
}

} // verus!
