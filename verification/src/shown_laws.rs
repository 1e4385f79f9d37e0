//! What is shown of running commands and agents, of finished calls, and of the messages to choose from.
use vstd::prelude::*;

use crate::exec_cell::{
    background_startup, changed_last, ended, exploring, first_start, given_up, last_with,
    with_output, CallModel, ExecCommandSource, OutputModel,
};
use crate::footer::{
    activities, activity_details, activity_row, all_lists, command_model, commands_in,
    duration_text, elapsed_seconds, footer_line, footer_lines, indented, output_block, running,
    running_row, same_command, same_commands, stacked, subagent_models, summary, titled,
    ActivityModel, BackgroundSubagentActivity, CommandActivity, ExecCommandRunMode,
    UnifiedExecFooter,
};
use crate::picker::{
    cut_message, message_line, message_lines, not_empty, on_one_line, picker_lines, shown_range,
    spaced_parts, words, LineStyle, BACKTRACK_PICKER_HINT, BACKTRACK_PICKER_TITLE,
};
use crate::split::{stripped_end, Strip};
use crate::text::{decimal, joined, texts, white_space};
use crate::width::{fitting, prefix_of, widths};

verus! {

/// An event reaches the last call of its id: no later call has that id, and no other call changes.
pub proof fn law_event_reaches_the_last_call(
    calls: Seq<CallModel>,
    call_id: Seq<char>,
    at: int,
    change: spec_fn(CallModel) -> CallModel,
)
    requires
        0 <= at < calls.len(),
        calls[at].call_id == call_id,
        forall|i: int| at < i < calls.len() ==> (#[trigger] calls[i]).call_id != call_id,
    ensures
        last_with(calls, call_id) == Some(at),
        changed_last(calls, call_id, change) == calls.update(at, change(calls[at])),
    decreases calls.len(),
{
    if at < calls.len() - 1 {
        assert(calls[calls.len() - 1].call_id != call_id);
        law_event_reaches_the_last_call(calls.drop_last(), call_id, at, change);
    }
}

/// A call that ends has its output and the time that it took, and does not run any more; all else stays, but
/// for a run mode that is told with the end.
pub proof fn law_ended_call_has_its_output(
    call: CallModel,
    output: OutputModel,
    duration: u128,
    run_mode: Option<ExecCommandRunMode>,
)
    ensures
        ({
            let after = ended(call, output, duration, run_mode);
            &&& after.output == Some(output)
            &&& after.duration == Some(duration)
            &&& after.start_time is None
            &&& run_mode is Some ==> after.run_mode == run_mode
            &&& run_mode is None ==> after.run_mode == call.run_mode
            &&& after.call_id == call.call_id
            &&& after.command == call.command
            &&& after.parsed == call.parsed
            &&& after.source == call.source
            &&& after.auto_review_approved == call.auto_review_approved
            &&& after.interaction_input == call.interaction_input
        }),
{
}

/// Output is put behind the output that is there. The exit code and the formatted output stay; a call
/// without output begins with exit code 0 and nothing formatted.
pub proof fn law_output_is_appended(call: CallModel, chunk: Seq<char>)
    ensures
        ({
            let after = with_output(call, chunk);
            &&& call.output matches Some(before) ==> after.output == Some(
                OutputModel {
                    exit_code: before.exit_code,
                    aggregated_output: before.aggregated_output + chunk,
                    formatted_output: before.formatted_output,
                },
            )
            &&& call.output is None ==> after.output == Some(
                OutputModel {
                    exit_code: 0,
                    aggregated_output: chunk,
                    formatted_output: Seq::empty(),
                },
            )
            &&& after == (CallModel { output: after.output, ..call })
        }),
{
    assert(Seq::<char>::empty() + chunk =~= chunk);
}

/// A call that is given up without output fails at once, with the time that it ran; one with output stays.
pub proof fn law_call_is_given_up(call: CallModel, now: u128)
    ensures
        ({
            let after = given_up(call, now);
            &&& call.output is Some ==> after == call
            &&& call.output is None ==> {
                &&& after.start_time is None
                &&& after.output == Some(
                    OutputModel {
                        exit_code: 1,
                        aggregated_output: Seq::empty(),
                        formatted_output: Seq::empty(),
                    },
                )
                &&& call.start_time matches Some(start) ==> (start <= now ==> after.duration
                    == Some((now - start) as u128)) && (now < start ==> after.duration == Some(
                    0u128,
                ))
                &&& call.start_time is None ==> after.duration == Some(0u128)
                &&& after == (CallModel {
                    start_time: after.start_time,
                    output: after.output,
                    duration: after.duration,
                    ..call
                })
            }
        }),
{
}

/// A cell runs since its first call that still runs began.
pub proof fn law_cell_runs_since_its_first_running_call(calls: Seq<CallModel>, at: int)
    ensures
        0 <= at < calls.len() && calls[at].start_time is Some && (forall|i: int|
            0 <= i < at ==> (#[trigger] calls[i]).start_time is None) ==> first_start(calls)
            == calls[at].start_time,
        (forall|i: int| 0 <= i < calls.len() ==> (#[trigger] calls[i]).start_time is None)
            ==> first_start(calls) is None,
    decreases calls.len(),
{
    if calls.len() > 0 {
        let front = calls.drop_last();
        if forall|i: int| 0 <= i < calls.len() ==> (#[trigger] calls[i]).start_time is None {
            assert forall|i: int| 0 <= i < front.len() implies (
            #[trigger] front[i]).start_time is None by {
                assert(front[i] == calls[i]);
            }
            law_cell_runs_since_its_first_running_call(front, at);
            assert(calls[calls.len() - 1].start_time is None);
        }
        if 0 <= at < calls.len() && calls[at].start_time is Some && (forall|i: int|
            0 <= i < at ==> (#[trigger] calls[i]).start_time is None) {
            assert forall|i: int| 0 <= i < at implies (#[trigger] front[i]).start_time is None by {
                assert(front[i] == calls[i]);
            }
            if at < front.len() {
                assert(front[at] == calls[at]);
            }
            law_cell_runs_since_its_first_running_call(front, at);
        }
    }
}

/// A call only looks around where the user did not type it, it starts no shell, and each of its parts is
/// known to look around.
pub proof fn law_exploring_calls(call: CallModel)
    ensures
        call.source == ExecCommandSource::UserShell ==> !exploring(call),
        call.source == ExecCommandSource::UnifiedExecStartup ==> !exploring(call),
        call.parsed.len() == 0 ==> !exploring(call),
        (exists|i: int| 0 <= i < call.parsed.len() && (#[trigger] call.parsed[i]) is Unknown)
            ==> !exploring(call),
        (call.source == ExecCommandSource::Agent || call.source
            == ExecCommandSource::UnifiedExecInteraction) && call.parsed.len() > 0 && (forall|i: int|
            0 <= i < call.parsed.len() ==> !((#[trigger] call.parsed[i]) is Unknown)) ==> exploring(
            call,
        ),
        background_startup(call) <==> call.source == ExecCommandSource::UnifiedExecStartup
            && call.run_mode == Some(ExecCommandRunMode::Background),
{
    if exists|i: int| 0 <= i < call.parsed.len() && (#[trigger] call.parsed[i]) is Unknown {
        let i = choose|i: int| 0 <= i < call.parsed.len() && (#[trigger] call.parsed[i]) is Unknown;
        assert(call.parsed[i] is Unknown);
    }
}

/// The commands of one kind are those that run in the background, or those that do not, in their order.
pub proof fn law_commands_are_parted(processes: Seq<CommandActivity>, background: bool)
    ensures
        commands_in(processes, background) == processes.filter(
            |a: CommandActivity|
                (a.run_mode == Some(ExecCommandRunMode::Background)) == background,
        ).map_values(|a: CommandActivity| command_model(a)),
    decreases processes.len(),
{
    reveal(Seq::filter);
    let pred = |a: CommandActivity|
        (a.run_mode == Some(ExecCommandRunMode::Background)) == background;
    let model = |a: CommandActivity| command_model(a);
    if processes.len() > 0 {
        law_commands_are_parted(processes.drop_last(), background);
        let front = processes.drop_last().filter(pred);
        assert(front.push(processes.last()).map_values(model) =~= front.map_values(model).push(
            command_model(processes.last()),
        ));
    } else {
        assert(commands_in(processes, background) =~= processes.filter(pred).map_values(model));
    }
}

/// What an activity is called and known by.
pub proof fn law_activities_are_named(command: CommandActivity, agents: Seq<BackgroundSubagentActivity>, i: int)
    requires
        0 <= i < agents.len(),
    ensures
        ({
            let shown = command_model(command);
            &&& shown.name == command.command@
            &&& shown.id == command.shell_id@
            &&& shown.id_label == "shell id"@
            &&& shown.status == command.status@
            &&& shown.started_at == command.started_at
            &&& shown.output == texts(command.recent_output@)
        }),
        ({
            let shown = subagent_models(agents)[i];
            &&& subagent_models(agents).len() == agents.len()
            &&& shown.name == agents[i].label@
            &&& shown.id == agents[i].thread_id@
            &&& shown.id_label == "thread id"@
            &&& shown.status == agents[i].status@
            &&& shown.started_at == agents[i].started_at
            &&& shown.output == texts(agents[i].recent_output@)
        }),
{
}

proof fn lemma_titled(
    title: Seq<char>,
    rows: Seq<ActivityModel>,
    first: nat,
    selected: nat,
    i: int,
)
    requires
        0 <= i < rows.len(),
    ensures
        titled(title, rows, first, selected).len() == rows.len() + 1,
        titled(title, rows, first, selected)[0] == title,
        titled(title, rows, first, selected)[i + 1] == activity_row(rows[i], first + i == selected),
{
}

proof fn lemma_stacked(above: Seq<Seq<char>>, below: Seq<Seq<char>>, row: Seq<char>)
    ensures
        above.contains(row) ==> stacked(above, below).contains(row),
        below.contains(row) ==> stacked(above, below).contains(row),
{
    let all = stacked(above, below);
    if above.contains(row) {
        let i = choose|i: int| 0 <= i < above.len() && above[i] == row;
        assert(all[i] == row);
    }
    if below.contains(row) {
        let i = choose|i: int| 0 <= i < below.len() && below[i] == row;
        if above.len() == 0 {
            assert(all[i] == row);
        } else {
            assert(all[above.len() + 1 + i] == row);
        }
    }
}

/// A list has its title above its rows, one for each activity and in order; two lists have an empty line
/// between them, and a list without rows is left out.
pub proof fn law_lists_are_titled(
    title: Seq<char>,
    rows: Seq<ActivityModel>,
    first: nat,
    selected: nat,
    i: int,
    above: Seq<Seq<char>>,
    below: Seq<Seq<char>>,
)
    requires
        0 <= i < rows.len(),
    ensures
        titled(title, rows, first, selected).len() == rows.len() + 1,
        titled(title, rows, first, selected)[0] == title,
        titled(title, rows, first, selected)[i + 1] == activity_row(rows[i], first + i == selected),
        titled(title, Seq::empty(), first, selected).len() == 0,
        stacked(above, Seq::empty()) == above,
        stacked(Seq::empty(), below) == below,
        above.len() > 0 && below.len() > 0 ==> stacked(above, below) == above + seq![""@] + below,
        activity_row(rows[i], true) == "  > "@ + rows[i].name + " ["@ + rows[i].id + "]("@
            + rows[i].status + ") · Enter details · k kill"@,
        activity_row(rows[i], false) == "    "@ + rows[i].name + " ["@ + rows[i].id + "]("@
            + rows[i].status + ") · Enter details · k kill"@,
{
    lemma_titled(title, rows, first, selected, i);
    if above.len() > 0 && below.len() > 0 {
        assert(stacked(above, below) =~= above + seq![""@] + below);
    }
    assert(stacked(Seq::empty(), below) =~= below);
}

/// Everything that runs is listed, and the marked row is that of the selected activity.
pub proof fn law_selected_activity_is_marked(footer: UnifiedExecFooter, selected: nat, at: int)
    requires
        0 <= at < activities(footer).len(),
    ensures
        all_lists(footer, selected).contains(
            activity_row(activities(footer)[at], at == selected),
        ),
{
    let blocking = commands_in(footer.processes@, false);
    let background = commands_in(footer.processes@, true);
    let agents = subagent_models(footer.subagents@);
    let a = titled("Commands"@, blocking, 0, selected);
    let b = titled("Background commands"@, background, blocking.len(), selected);
    let c = titled("Subagents"@, agents, blocking.len() + background.len(), selected);
    let row = activity_row(activities(footer)[at], at == selected);
    if at < blocking.len() {
        lemma_titled("Commands"@, blocking, 0, selected, at);
        assert(a[at + 1] == row);
        assert(a.contains(row));
    } else if at < blocking.len() + background.len() {
        let i = at - blocking.len();
        lemma_titled("Background commands"@, background, blocking.len(), selected, i);
        assert(b[i + 1] == row);
        assert(b.contains(row));
    } else {
        let i = at - blocking.len() - background.len();
        lemma_titled("Subagents"@, agents, blocking.len() + background.len(), selected, i);
        assert(c[i + 1] == row);
        assert(c.contains(row));
    }
    lemma_stacked(a, b, row);
    lemma_stacked(stacked(a, b), c, row);
}

/// A time is shown in hours, minutes and seconds, from the first of these that is not zero on.
pub proof fn law_durations_are_shown(hours: nat, minutes: nat, seconds: nat)
    requires
        minutes < 60,
        seconds < 60,
    ensures
        duration_text(seconds) == decimal(seconds) + "s"@,
        minutes > 0 ==> duration_text(minutes * 60 + seconds) == decimal(minutes) + "m "@ + decimal(
            seconds,
        ) + "s"@,
        hours > 0 ==> duration_text(hours * 3600 + minutes * 60 + seconds) == decimal(hours) + "h "@
            + decimal(minutes) + "m "@ + decimal(seconds) + "s"@,
{
    let total = hours * 3600 + minutes * 60 + seconds;
    assert(total / 60 == hours * 60 + minutes);
    assert(total % 60 == seconds);
    assert((hours * 60 + minutes) / 60 == hours);
    assert((hours * 60 + minutes) % 60 == minutes as int);
}

/// The time that something has run, in whole seconds.
pub proof fn law_whole_seconds_have_passed(started_at: u128, now: u128, seconds: nat)
    ensures
        now < started_at ==> elapsed_seconds(started_at, now) == 0,
        started_at + seconds * 1_000_000_000 <= now < started_at + (seconds + 1) * 1_000_000_000
            ==> elapsed_seconds(started_at, now) == seconds,
{
}

/// Up to seven lines of output are shown; of more the first two and the last five, with the number of those
/// that are left out between them.
pub proof fn law_long_output_is_cut(output: Seq<Seq<char>>, i: int)
    ensures
        output.len() <= 7 ==> output_block(output).len() == output.len(),
        output.len() <= 7 && 0 <= i < output.len() ==> output_block(output)[i] == "      "@
            + output[i],
        output.len() > 7 ==> {
            let block = output_block(output);
            &&& block.len() == 8
            &&& block[0] == "      "@ + output[0]
            &&& block[1] == "      "@ + output[1]
            &&& block[2] == "      ... +"@ + decimal((output.len() - 7) as nat) + " lines"@
            &&& 0 <= i < 5 ==> block[3 + i] == "      "@ + output[output.len() - 5 + i]
        },
{
    if output.len() > 7 && 0 <= i < 5 {
        let tail = output.skip(output.len() - 5);
        assert(indented(tail)[i] == "      "@ + tail[i]);
        assert(tail[i] == output[output.len() - 5 + i]);
    }
}

/// The details of an activity are its name, its id, its status and the time that it has run, and its output
/// where it has any.
pub proof fn law_details_of_an_activity(activity: ActivityModel, now: u128)
    ensures
        ({
            let lines = activity_details(activity, now);
            &&& lines[0] == activity.name
            &&& lines[1] == "  "@ + activity.id_label + ": "@ + activity.id
            &&& lines[2] == "  status: "@ + activity.status
            &&& lines[3] == "  runtime: "@ + duration_text(elapsed_seconds(activity.started_at, now))
            &&& activity.output.len() == 0 ==> lines.len() == 4
            &&& activity.output.len() > 0 ==> lines[4] == "  output:"@ && lines.skip(5)
                == output_block(activity.output)
        }),
{
    let lines = activity_details(activity, now);
    if activity.output.len() > 0 {
        assert(lines.skip(5) =~= output_block(activity.output));
    }
}

/// The footer says how many commands, background commands and subagents run, each where there are any, and
/// in the singular for one.
pub proof fn law_footer_counts_what_runs(footer: UnifiedExecFooter, noun: Seq<char>, count: nat)
    ensures
        running(1, noun) == decimal(1) + " "@ + noun + ""@ + " running"@,
        count != 1 ==> running(count, noun) == decimal(count) + " "@ + noun + "s"@ + " running"@,
        running_row(0, noun).len() == 0,
        count > 0 ==> running_row(count, noun) == seq![running(count, noun)],
        summary(footer) == running_row(commands_in(footer.processes@, false).len(), "command"@)
            + running_row(commands_in(footer.processes@, true).len(), "background command"@)
            + running_row(footer.subagents@.len(), "subagent"@),
{
}

/// The footer has a line for each of its rows, marked where it is focused and cut to the width; none where it
/// is very narrow.
pub proof fn law_footer_lines_are_cut(footer: UnifiedExecFooter, width: nat, i: int)
    ensures
        width < 4 ==> footer_lines(footer, width).len() == 0,
        width >= 4 ==> footer_lines(footer, width).len() == summary(footer).len(),
        width >= 4 && 0 <= i < summary(footer).len() ==> {
            let line = footer_lines(footer, width)[i];
            let row = (if footer.focused {
                "> "@
            } else {
                "  "@
            }) + summary(footer)[i] + " · Enter details · k kill"@;
            &&& line.text.is_prefix_of(row)
            &&& line.text == row.take(fitting(widths(row), width) as int)
            &&& line.style == if footer.focused {
                LineStyle::Cyan
            } else {
                LineStyle::Dim
            }
        },
{
    if width >= 4 && 0 <= i < summary(footer).len() {
        let row = (if footer.focused {
            "> "@
        } else {
            "  "@
        }) + summary(footer)[i] + " · Enter details · k kill"@;
        crate::width::law_fitting_prefix_fits(widths(row), width);
        let line = footer_lines(footer, width)[i];
        assert(line == footer_line(summary(footer)[i], footer.focused, width));
        assert(line.text =~= row.subrange(0, line.text.len() as int));
    }
}

/// A text of words with white space between and around them.
pub open spec fn spaced(gaps: Seq<Seq<char>>, list: Seq<Seq<char>>) -> Seq<char>
    decreases list.len(),
{
    if list.len() == 0 {
        gaps[0]
    } else {
        spaced(gaps.drop_last(), list.drop_last()) + list.last() + gaps.last()
    }
}

/// Whether a text is nothing but white space.
pub open spec fn all_white(s: Seq<char>) -> bool {
    forall|i: int| 0 <= i < s.len() ==> white_space(#[trigger] s[i])
}

/// Whether a text holds no white space.
pub open spec fn none_white(s: Seq<char>) -> bool {
    forall|i: int| 0 <= i < s.len() ==> !white_space(#[trigger] s[i])
}

proof fn lemma_gap(s: Seq<char>, gap: Seq<char>)
    requires
        all_white(gap),
    ensures
        words(s + gap) == words(s),
    decreases gap.len(),
{
    if gap.len() == 0 {
        assert(s + gap =~= s);
    } else {
        let all = s + gap;
        assert(all.last() == gap[gap.len() - 1]);
        assert(all.drop_last() =~= s + gap.drop_last());
        lemma_gap(s, gap.drop_last());
        let before = spaced_parts(all.drop_last());
        let after = before.push(Seq::<char>::empty());
        assert(spaced_parts(all) == after);
        assert(after.drop_last() =~= before);
        assert(not_empty(after) == not_empty(before));
    }
}

proof fn lemma_word(s: Seq<char>, word: Seq<char>)
    requires
        none_white(word),
        s.len() == 0 || white_space(s.last()),
    ensures
        spaced_parts(s).len() > 0,
        spaced_parts(s).last().len() == 0,
        spaced_parts(s + word) == spaced_parts(s).drop_last().push(word),
    decreases word.len(),
{
    if s.len() > 0 {
        assert(spaced_parts(s).last() =~= Seq::<char>::empty());
    }
    if word.len() == 0 {
        assert(s + word =~= s);
        assert(word =~= Seq::<char>::empty());
        assert(spaced_parts(s).last() =~= word);
        assert(spaced_parts(s) =~= spaced_parts(s).drop_last().push(word));
    } else {
        let front = word.drop_last();
        lemma_word(s, front);
        let all = s + word;
        assert(all.last() == word[word.len() - 1]);
        assert(all.drop_last() =~= s + front);
        let before = spaced_parts(s + front);
        assert(before.last() == front);
        assert(before.drop_last() =~= spaced_parts(s).drop_last());
        assert(front.push(word.last()) =~= word);
    }
}

proof fn lemma_new_word(s: Seq<char>, word: Seq<char>)
    requires
        none_white(word),
        word.len() > 0,
        s.len() == 0 || white_space(s.last()),
    ensures
        words(s + word) == words(s).push(word),
{
    lemma_word(s, word);
    let before = spaced_parts(s);
    let after = before.drop_last().push(word);
    assert(after.drop_last() =~= before.drop_last());
    assert(not_empty(after) == not_empty(before.drop_last()).push(word));
    assert(not_empty(before) == not_empty(before.drop_last()));
}

/// The words of a text are what stands between its white space.
pub proof fn law_words_are_read(gaps: Seq<Seq<char>>, list: Seq<Seq<char>>)
    requires
        gaps.len() == list.len() + 1,
        forall|i: int| 0 <= i < gaps.len() ==> all_white(#[trigger] gaps[i]),
        forall|i: int| 0 < i < list.len() ==> (#[trigger] gaps[i]).len() > 0,
        forall|i: int|
            0 <= i < list.len() ==> none_white(#[trigger] list[i]) && list[i].len() > 0,
    ensures
        words(spaced(gaps, list)) == list,
        on_one_line(spaced(gaps, list)) == if list.len() == 0 {
            "(empty message)"@
        } else {
            joined(list, " "@)
        },
    decreases list.len(),
{
    reveal_strlit(" ");
    if list.len() == 0 {
        let empty = Seq::<char>::empty();
        lemma_gap(empty, gaps[0]);
        assert(empty + gaps[0] =~= gaps[0]);
        assert(spaced_parts(empty).drop_last() =~= Seq::<Seq<char>>::empty());
        reveal_with_fuel(not_empty, 2);
        assert(words(empty) =~= Seq::<Seq<char>>::empty());
        assert(list =~= Seq::<Seq<char>>::empty());
    } else {
        let last = list.len() - 1;
        let front = list.drop_last();
        let fewer = gaps.drop_last();
        assert forall|i: int| 0 <= i < fewer.len() implies all_white(#[trigger] fewer[i]) by {
            assert(fewer[i] == gaps[i]);
        }
        assert forall|i: int| 0 < i < front.len() implies (#[trigger] fewer[i]).len() > 0 by {
            assert(fewer[i] == gaps[i]);
        }
        assert forall|i: int| 0 <= i < front.len() implies none_white(#[trigger] front[i])
            && front[i].len() > 0 by {
            assert(front[i] == list[i]);
        }
        law_words_are_read(fewer, front);
        let before = spaced(fewer, front);
        assert(all_white(gaps[last]));
        if front.len() > 0 {
            assert(gaps[last].len() > 0);
            assert(fewer.last() == gaps[last]);
            assert(before.last() == gaps[last][gaps[last].len() - 1]);
        } else if before.len() > 0 {
            assert(before == gaps[0]);
            assert(before.last() == gaps[0][gaps[0].len() - 1]);
        }
        assert(none_white(list[last]));
        lemma_new_word(before, list[last]);
        assert(all_white(gaps[list.len() as int]));
        lemma_gap(before + list[last], gaps.last());
        assert(front.push(list[last]) =~= list);
        let one = seq![list[last]];
        assert(list =~= front + one);
        if front.len() > 0 {
            crate::text_laws::law_parts_are_joined(front, one, list[last], " "@);
        } else {
            crate::text_laws::law_parts_are_joined(one, one, list[last], " "@);
            assert(list =~= one);
        }
        assert(joined(list, " "@).len() > 0);
    }
}

/// A message that fits stands behind its prefix as it is. Of one that does not, the start that fits before an
/// ellipsis is shown, without white space at its end.
pub proof fn law_long_message_is_cut(prefix: Seq<char>, message: Seq<char>, width: nat)
    requires
        width > prefix.len(),
    ensures
        ({
            let room = (width - prefix.len()) as nat;
            let all = fitting(widths(message), room) == message.len();
            let short = message.take(fitting(widths(message), (room - 3) as nat) as int);
            let shown = cut_message(prefix, message, width);
            &&& all ==> shown == prefix + message
            &&& !all && room <= 3 ==> shown == prefix + message.take(
                fitting(widths(message), room) as int,
            )
            &&& !all && room > 3 ==> shown == prefix + stripped_end(short, Strip::White) + "..."@
        }),
        cut_message(prefix, message, 0).len() == 0,
{
    let room = (width - prefix.len()) as nat;
    crate::width::law_fitting_prefix_fits(widths(message), room);
    if fitting(widths(message), room) == message.len() {
        assert(prefix_of(message, room) =~= message);
    }
}

/// How many messages are shown and from which one on: as many as there are room for, from the one before the
/// selected one; from the first where that one is selected, and up to the last where there would be a gap.
pub proof fn law_shown_messages(total: nat, selected: nat, most: nat)
    requires
        selected < total,
        most > 0,
    ensures
        total <= most ==> shown_range(total, selected, most) == (0nat, total),
        total > most ==> shown_range(total, selected, most).1 - shown_range(total, selected, most).0
            == most,
        total > most && selected == 0 ==> shown_range(total, selected, most).0 == 0,
        total > most && selected == total - 1 ==> shown_range(total, selected, most).1 == total,
        total > most && 0 < selected < total - 1 && selected - 1 <= total - most ==> shown_range(
            total,
            selected,
            most,
        ).0 == selected - 1,
        total > most && 0 < selected < total - 1 && selected - 1 > total - most ==> shown_range(
            total,
            selected,
            most,
        ).1 == total,
        shown_range(total, selected, 0) == shown_range(total, selected, 1),
{
}

/// The picker shows each message of its range on a line of its own, the selected one marked, between a rule
/// with the title above and the hint below.
pub proof fn law_picker_shows_its_messages(
    messages: Seq<Seq<char>>,
    selected: nat,
    width: nat,
    at: int,
)
    requires
        selected < messages.len(),
    ensures
        ({
            let lines = picker_lines(messages, selected, width);
            let (from, to) = shown_range(messages.len(), selected, 5);
            &&& lines.len() == 7 + (to - from)
            &&& from <= at < to ==> {
                let line = lines[4 + (at - from)];
                &&& line.style == if at == selected {
                    LineStyle::Cyan
                } else {
                    LineStyle::Plain
                }
                &&& line.text == cut_message(
                    if at == selected {
                        "> "@
                    } else {
                        "  "@
                    },
                    on_one_line(messages[at]),
                    width,
                )
            }
        }),
{
    let (from, to) = shown_range(messages.len(), selected, 5);
    if from <= at < to {
        assert(message_lines(messages, from, to, selected as int, width)[at - from] == message_line(
            messages,
            at,
            selected as int,
            width,
        ));
    }
}

/// Commands are the same where nothing differs that is shown or decides where they are listed.
pub proof fn law_same_commands(a: Seq<CommandActivity>, b: Seq<CommandActivity>, i: int)
    ensures
        same_commands(a, a),
        a.len() != b.len() ==> !same_commands(a, b),
        same_commands(a, b) && 0 <= i < a.len() ==> a[i].command@ == b[i].command@ && a[i].shell_id@
            == b[i].shell_id@ && a[i].status@ == b[i].status@ && a[i].started_at == b[i].started_at
            && a[i].run_mode == b[i].run_mode && texts(a[i].recent_output@) == texts(
            b[i].recent_output@,
        ),
{
    if same_commands(a, b) && 0 <= i < a.len() {
        assert(same_command(a[i], b[i]));
    }
}

/// The picker begins with a rule over its whole width and its title, and ends with its hint; there are empty
/// lines between them and the messages.
pub proof fn law_picker_is_framed(messages: Seq<Seq<char>>, selected: nat, width: nat)
    requires
        selected < messages.len(),
    ensures
        ({
            let lines = picker_lines(messages, selected, width);
            let last = lines.len() - 1;
            &&& lines[0].style == LineStyle::Dim
            &&& lines[0].text.len() == width
            &&& forall|i: int| 0 <= i < width ==> #[trigger] lines[0].text[i] == '─'
            &&& lines[1].text == ""@ && lines[3].text == ""@
            &&& lines[2].style == LineStyle::Bold
            &&& lines[2].text == cut_message("  "@, BACKTRACK_PICKER_TITLE@, width)
            &&& lines[last].text == ""@ && lines[last - 2].text == ""@
            &&& lines[last - 1].style == LineStyle::Dim
            &&& lines[last - 1].text == "  "@ + BACKTRACK_PICKER_HINT@
        }),
        picker_lines(messages, messages.len(), width).len() == 0,
{
}

} // verus!
