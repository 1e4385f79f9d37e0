//! The list of running commands and subagents below the composer.
use vstd::prelude::*;
use vstd::string::*;

use crate::picker::{line_model, line_models, LineModel, LineStyle, StyledLine};
use crate::text::{decimal, decimal_u128, decimal_usize, owned, text_eq, texts};
use crate::width::{prefix_of, take_prefix_by_width};

verus! {

/// Whether a command runs while the agent waits for it.
#[derive(Clone, Copy, Debug, PartialEq, Eq, Structural)]
pub enum ExecCommandRunMode {
    Blocking,
    Background,
}

/// A running command. Times are nanoseconds of one clock.
#[derive(Debug, PartialEq, Eq)]
pub struct CommandActivity {
    pub command: String,
    pub shell_id: String,
    pub run_mode: Option<ExecCommandRunMode>,
    pub started_at: u128,
    pub status: String,
    pub recent_output: Vec<String>,
}

/// A running subagent. Times are nanoseconds of one clock.
#[derive(Debug, PartialEq, Eq)]
pub struct BackgroundSubagentActivity {
    pub label: String,
    pub thread_id: String,
    pub status: String,
    pub started_at: u128,
    pub recent_output: Vec<String>,
}

/// Something that runs.
#[verifier::ext_equal]
pub struct ActivityModel {
    pub name: Seq<char>,
    /// What its id is called.
    pub id_label: Seq<char>,
    pub id: Seq<char>,
    pub status: Seq<char>,
    pub started_at: u128,
    pub output: Seq<Seq<char>>,
}

/// A command as a plain value.
pub open spec fn command_model(activity: CommandActivity) -> ActivityModel {
    ActivityModel {
        name: activity.command@,
        id_label: "shell id"@,
        id: activity.shell_id@,
        status: activity.status@,
        started_at: activity.started_at,
        output: texts(activity.recent_output@),
    }
}

/// A subagent as a plain value.
pub open spec fn subagent_model(activity: BackgroundSubagentActivity) -> ActivityModel {
    ActivityModel {
        name: activity.label@,
        id_label: "thread id"@,
        id: activity.thread_id@,
        status: activity.status@,
        started_at: activity.started_at,
        output: texts(activity.recent_output@),
    }
}

/// Whether a command runs in the background.
pub open spec fn backgrounded(activity: CommandActivity) -> bool {
    activity.run_mode == Some(ExecCommandRunMode::Background)
}

/// The commands that do, or do not, run in the background, in their order.
pub open spec fn commands_in(processes: Seq<CommandActivity>, background: bool) -> Seq<
    ActivityModel,
>
    decreases processes.len(),
{
    if processes.len() == 0 {
        Seq::empty()
    } else {
        let before = commands_in(processes.drop_last(), background);
        if backgrounded(processes.last()) == background {
            before.push(command_model(processes.last()))
        } else {
            before
        }
    }
}

/// The subagents.
pub open spec fn subagent_models(subagents: Seq<BackgroundSubagentActivity>) -> Seq<ActivityModel> {
    Seq::new(subagents.len(), |i: int| subagent_model(subagents[i]))
}

/// Every command is listed once: with those in the background, or with the others.
pub proof fn law_each_command_is_listed_once(processes: Seq<CommandActivity>)
    ensures
        commands_in(processes, false).len() + commands_in(processes, true).len()
            == processes.len(),
    decreases processes.len(),
{
    if processes.len() > 0 {
        law_each_command_is_listed_once(processes.drop_last());
    }
}

/// The running commands and subagents.
#[derive(Debug, PartialEq, Eq)]
pub struct UnifiedExecFooter {
    pub processes: Vec<CommandActivity>,
    pub subagents: Vec<BackgroundSubagentActivity>,
    pub focused: bool,
}

/// Everything that runs, in the order in which it is listed.
pub open spec fn activities(footer: UnifiedExecFooter) -> Seq<ActivityModel> {
    commands_in(footer.processes@, false) + commands_in(footer.processes@, true)
        + subagent_models(footer.subagents@)
}

/// The row of an activity in a list.
pub open spec fn activity_row(activity: ActivityModel, selected: bool) -> Seq<char> {
    (if selected {
        "  > "@
    } else {
        "    "@
    }) + activity.name + " ["@ + activity.id + "]("@ + activity.status
        + ") · Enter details · k kill"@
}

/// A list with its title, where it has rows. The first row has number `first`.
pub open spec fn titled(
    title: Seq<char>,
    rows: Seq<ActivityModel>,
    first: nat,
    selected: nat,
) -> Seq<Seq<char>> {
    if rows.len() == 0 {
        Seq::empty()
    } else {
        seq![title] + Seq::new(
            rows.len(),
            |i: int| activity_row(rows[i], first + i == selected),
        )
    }
}

/// Two lists, with an empty line between them where both have lines.
pub open spec fn stacked(above: Seq<Seq<char>>, below: Seq<Seq<char>>) -> Seq<Seq<char>> {
    if below.len() == 0 {
        above
    } else if above.len() == 0 {
        below
    } else {
        above.push(""@) + below
    }
}

/// The lists of everything that runs.
pub open spec fn all_lists(footer: UnifiedExecFooter, selected: nat) -> Seq<Seq<char>> {
    let blocking = commands_in(footer.processes@, false);
    let background = commands_in(footer.processes@, true);
    let subagents = subagent_models(footer.subagents@);
    stacked(
        stacked(
            titled("Commands"@, blocking, 0, selected),
            titled("Background commands"@, background, blocking.len(), selected),
        ),
        titled("Subagents"@, subagents, blocking.len() + background.len(), selected),
    )
}

/// A time that something ran.
pub open spec fn duration_text(total_seconds: nat) -> Seq<char> {
    let minutes = total_seconds / 60;
    let seconds = total_seconds % 60;
    if total_seconds < 60 {
        decimal(total_seconds) + "s"@
    } else if minutes < 60 {
        decimal(minutes) + "m "@ + decimal(seconds) + "s"@
    } else {
        decimal(minutes / 60) + "h "@ + decimal(minutes % 60) + "m "@ + decimal(seconds) + "s"@
    }
}

/// The seconds between two times; none where the clock went back.
pub open spec fn elapsed_seconds(started_at: u128, now: u128) -> nat {
    if now < started_at {
        0
    } else {
        ((now - started_at) / 1_000_000_000) as nat
    }
}

/// How many lines of output are shown from its start where lines are left out.
pub const HEAD_LINES: usize = 2;

/// How many lines of output are shown from its end where lines are left out.
pub const TAIL_LINES: usize = 5;

/// Lines of output behind an indent.
pub open spec fn indented(lines: Seq<Seq<char>>) -> Seq<Seq<char>> {
    Seq::new(lines.len(), |i: int| "      "@ + lines[i])
}

/// Lines of output: all of them, or those at the start and at the end with the number of those
/// between.
pub open spec fn output_block(output: Seq<Seq<char>>) -> Seq<Seq<char>> {
    if output.len() <= HEAD_LINES + TAIL_LINES {
        indented(output)
    } else {
        indented(output.take(HEAD_LINES as int)).push(
            "      ... +"@ + decimal((output.len() - HEAD_LINES - TAIL_LINES) as nat) + " lines"@,
        ) + indented(output.skip(output.len() - TAIL_LINES))
    }
}

/// The details of an activity.
pub open spec fn activity_details(activity: ActivityModel, now: u128) -> Seq<Seq<char>> {
    let lines = seq![
        activity.name,
        "  "@ + activity.id_label + ": "@ + activity.id,
        "  status: "@ + activity.status,
        "  runtime: "@ + duration_text(elapsed_seconds(activity.started_at, now)),
    ];
    if activity.output.len() == 0 {
        lines
    } else {
        lines.push("  output:"@) + output_block(activity.output)
    }
}

/// How many of something run.
pub open spec fn running(count: nat, noun: Seq<char>) -> Seq<char> {
    decimal(count) + " "@ + noun + (if count == 1 {
        ""@
    } else {
        "s"@
    }) + " running"@
}

/// The row for something that runs, where any of it does.
pub open spec fn running_row(count: nat, noun: Seq<char>) -> Seq<Seq<char>> {
    if count == 0 {
        Seq::empty()
    } else {
        seq![running(count, noun)]
    }
}

/// The rows that say how much runs.
pub open spec fn summary(footer: UnifiedExecFooter) -> Seq<Seq<char>> {
    running_row(commands_in(footer.processes@, false).len(), "command"@) + running_row(
        commands_in(footer.processes@, true).len(),
        "background command"@,
    ) + running_row(footer.subagents@.len(), "subagent"@)
}

/// A row of the footer, cut to a width.
pub open spec fn footer_line(row: Seq<char>, focused: bool, width: nat) -> LineModel {
    let prefix = if focused {
        "> "@
    } else {
        "  "@
    };
    line_model(
        if focused {
            LineStyle::Cyan
        } else {
            LineStyle::Dim
        },
        prefix_of(prefix + row + " · Enter details · k kill"@, width),
    )
}

/// The lines of the footer; none where it is very narrow.
pub open spec fn footer_lines(footer: UnifiedExecFooter, width: nat) -> Seq<LineModel> {
    if width < 4 {
        Seq::empty()
    } else {
        Seq::new(
            summary(footer).len(),
            |i: int| footer_line(summary(footer)[i], footer.focused, width),
        )
    }
}

/// Says how long something ran.
pub fn format_duration(total_seconds: u128) -> (r: String)
    ensures
        r@ == duration_text(total_seconds as nat),
{
    if total_seconds < 60 {
        let mut out = decimal_u128(total_seconds);
        out.append("s");
        return out;
    }
    let minutes: u128 = total_seconds / 60;
    let seconds: u128 = total_seconds % 60;
    let mut out = owned("");
    proof {
        reveal_strlit("");
    }
    if minutes < 60 {
        out = decimal_u128(minutes);
    } else {
        out = decimal_u128(minutes / 60);
        out.append("h ");
        let rest = decimal_u128(minutes % 60);
        out.append(rest.as_str());
    }
    out.append("m ");
    let last = decimal_u128(seconds);
    out.append(last.as_str());
    out.append("s");
    out
}

fn push_indented(out: &mut Vec<String>, output: &[String], from: usize, to: usize)
    requires
        from <= to <= output@.len(),
    ensures
        texts(final(out)@) == texts(old(out)@) + indented(
            texts(output@).subrange(from as int, to as int),
        ),
{
    let ghost start = texts(out@);
    let ghost all = texts(output@);
    let mut i: usize = from;
    assert(texts(out@) =~= start + indented(all.subrange(from as int, from as int)));
    while i < to
        invariant
            from <= i <= to <= output@.len(),
            all == texts(output@),
            texts(out@) == start + indented(all.subrange(from as int, i as int)),
        decreases to - i,
    {
        let ghost before = out@;
        let mut line = owned("      ");
        line.append(output[i].as_str());
        let ghost text = line@;
        out.push(line);
        proof {
            assert(all[i as int] == output@[i as int]@);
            assert(texts(out@) =~= texts(before).push(text));
            assert(indented(all.subrange(from as int, i + 1)) =~= indented(
                all.subrange(from as int, i as int),
            ).push(text));
            assert(texts(out@) =~= start + indented(all.subrange(from as int, i + 1)));
        }
        i += 1;
    }
}

/// Puts lines of output behind an indent, and leaves out those in the middle where there are many.
pub fn format_output_lines(output: &[String]) -> (r: Vec<String>)
    ensures
        texts(r@) == output_block(texts(output@)),
{
    let ghost all = texts(output@);
    let mut out: Vec<String> = Vec::new();
    assert(texts(out@) =~= Seq::<Seq<char>>::empty());
    if output.len() <= HEAD_LINES + TAIL_LINES {
        push_indented(&mut out, output, 0, output.len());
        assert(all.subrange(0, all.len() as int) =~= all);
        assert(texts(out@) =~= indented(all));
        return out;
    }
    push_indented(&mut out, output, 0, HEAD_LINES);
    assert(all.subrange(0, HEAD_LINES as int) =~= all.take(HEAD_LINES as int));
    assert(texts(out@) =~= indented(all.take(HEAD_LINES as int)));
    let mut line = owned("      ... +");
    let omitted = decimal_usize(output.len() - HEAD_LINES - TAIL_LINES);
    line.append(omitted.as_str());
    line.append(" lines");
    let ghost before = out@;
    let ghost text = line@;
    out.push(line);
    assert(texts(out@) =~= texts(before).push(text));
    push_indented(&mut out, output, output.len() - TAIL_LINES, output.len());
    assert(all.subrange(all.len() - TAIL_LINES, all.len() as int) =~= all.skip(
        all.len() - TAIL_LINES,
    ));
    out
}

fn details(
    name: &str,
    id_label: &str,
    id: &str,
    status: &str,
    runtime: u128,
    output: &[String],
) -> (r: Vec<String>)
    ensures
        texts(r@) == ({
            let lines = seq![
                name@,
                "  "@ + id_label@ + ": "@ + id@,
                "  status: "@ + status@,
                "  runtime: "@ + duration_text(runtime as nat),
            ];
            if output@.len() == 0 {
                lines
            } else {
                lines.push("  output:"@) + output_block(texts(output@))
            }
        }),
{
    let mut id_line = owned("  ");
    id_line.append(id_label);
    id_line.append(": ");
    id_line.append(id);
    let mut status_line = owned("  status: ");
    status_line.append(status);
    let mut runtime_line = owned("  runtime: ");
    let duration = format_duration(runtime);
    runtime_line.append(duration.as_str());
    let mut out: Vec<String> = Vec::new();
    let ghost lines = seq![name@, id_line@, status_line@, runtime_line@];
    out.push(owned(name));
    out.push(id_line);
    out.push(status_line);
    out.push(runtime_line);
    assert(texts(out@) =~= lines);
    if output.len() > 0 {
        let ghost before = out@;
        out.push(owned("  output:"));
        assert(texts(out@) =~= lines.push("  output:"@));
        let ghost head = out@;
        let mut more = format_output_lines(output);
        let ghost rest = more@;
        out.append(&mut more);
        assert(texts(out@) =~= texts(head) + texts(rest));
    }
    out
}

fn seconds_since(started_at: u128, now: u128) -> (r: u128)
    ensures
        r == elapsed_seconds(started_at, now),
{
    if now < started_at {
        0
    } else {
        (now - started_at) / 1_000_000_000
    }
}

/// The details of a command.
pub fn process_detail_lines(process: &CommandActivity, now: u128) -> (r: Vec<String>)
    ensures
        texts(r@) == activity_details(command_model(*process), now),
{
    details(
        process.command.as_str(),
        "shell id",
        process.shell_id.as_str(),
        process.status.as_str(),
        seconds_since(process.started_at, now),
        process.recent_output.as_slice(),
    )
}

/// The details of a subagent.
pub fn subagent_detail_lines(subagent: &BackgroundSubagentActivity, now: u128) -> (r: Vec<String>)
    ensures
        texts(r@) == activity_details(subagent_model(*subagent), now),
{
    details(
        subagent.label.as_str(),
        "thread id",
        subagent.thread_id.as_str(),
        subagent.status.as_str(),
        seconds_since(subagent.started_at, now),
        subagent.recent_output.as_slice(),
    )
}

fn format_row(name: &str, id: &str, status: &str, selected: bool) -> (r: String)
    ensures
        r@ == (if selected {
            "  > "@
        } else {
            "    "@
        }) + name@ + " ["@ + id@ + "]("@ + status@ + ") · Enter details · k kill"@,
{
    let mut out = if selected {
        owned("  > ")
    } else {
        owned("    ")
    };
    out.append(name);
    out.append(" [");
    out.append(id);
    out.append("](");
    out.append(status);
    out.append(") · Enter details · k kill");
    out
}

fn is_background(process: &CommandActivity) -> (r: bool)
    ensures
        r == backgrounded(*process),
{
    match process.run_mode {
        Some(ExecCommandRunMode::Background) => true,
        _ => false,
    }
}

fn same_texts(a: &[String], b: &[String]) -> (r: bool)
    ensures
        r == (texts(a@) == texts(b@)),
{
    if a.len() != b.len() {
        assert(texts(a@).len() != texts(b@).len());
        return false;
    }
    let mut i: usize = 0;
    while i < a.len()
        invariant
            i <= a@.len() == b@.len(),
            forall|j: int| 0 <= j < i ==> a@[j]@ == b@[j]@,
        decreases a@.len() - i,
    {
        if !text_eq(a[i].as_str(), b[i].as_str()) {
            assert(texts(a@)[i as int] != texts(b@)[i as int]);
            return false;
        }
        i += 1;
    }
    assert(texts(a@) =~= texts(b@));
    true
}

/// Whether two commands are equal.
pub open spec fn same_command(a: CommandActivity, b: CommandActivity) -> bool {
    command_model(a) == command_model(b) && a.run_mode == b.run_mode
}

/// Whether two lists of commands are equal.
pub open spec fn same_commands(a: Seq<CommandActivity>, b: Seq<CommandActivity>) -> bool {
    a.len() == b.len() && forall|i: int| 0 <= i < a.len() ==> same_command(a[i], #[trigger] b[i])
}

fn equal_mode(a: Option<ExecCommandRunMode>, b: Option<ExecCommandRunMode>) -> (r: bool)
    ensures
        r == (a == b),
{
    match (a, b) {
        (None, None) => true,
        (Some(x), Some(y)) => x == y,
        _ => false,
    }
}

fn equal_command(a: &CommandActivity, b: &CommandActivity) -> (r: bool)
    ensures
        r == same_command(*a, *b),
{
    text_eq(a.command.as_str(), b.command.as_str()) && text_eq(
        a.shell_id.as_str(),
        b.shell_id.as_str(),
    ) && equal_mode(a.run_mode, b.run_mode) && a.started_at == b.started_at && text_eq(
        a.status.as_str(),
        b.status.as_str(),
    ) && same_texts(a.recent_output.as_slice(), b.recent_output.as_slice())
}

fn equal_subagent(a: &BackgroundSubagentActivity, b: &BackgroundSubagentActivity) -> (r: bool)
    ensures
        r == (subagent_model(*a) == subagent_model(*b)),
{
    text_eq(a.label.as_str(), b.label.as_str()) && text_eq(
        a.thread_id.as_str(),
        b.thread_id.as_str(),
    ) && text_eq(a.status.as_str(), b.status.as_str()) && a.started_at == b.started_at
        && same_texts(a.recent_output.as_slice(), b.recent_output.as_slice())
}

fn count_text(count: usize, noun: &str) -> (r: String)
    ensures
        r@ == running(count as nat, noun@),
{
    let mut out = decimal_usize(count);
    out.append(" ");
    out.append(noun);
    if count == 1 {
        out.append("");
    } else {
        out.append("s");
    }
    out.append(" running");
    out
}

fn push_count(rows: &mut Vec<String>, count: usize, noun: &str)
    ensures
        texts(final(rows)@) == texts(old(rows)@) + running_row(count as nat, noun@),
{
    let ghost before = rows@;
    if count > 0 {
        rows.push(count_text(count, noun));
    }
    assert(texts(rows@) =~= texts(before) + running_row(count as nat, noun@));
}

impl UnifiedExecFooter {
    /// A footer with nothing running.
    pub fn new() -> (r: UnifiedExecFooter)
        ensures
            r.processes@.len() == 0,
            r.subagents@.len() == 0,
            !r.focused,
    {
        UnifiedExecFooter { processes: Vec::new(), subagents: Vec::new(), focused: false }
    }

    /// Sets the running commands. Returns whether that changes anything.
    pub fn set_processes(&mut self, processes: Vec<CommandActivity>) -> (r: bool)
        ensures
            r == !same_commands(old(self).processes@, processes@),
            *final(self) == if r {
                (UnifiedExecFooter { processes, ..*old(self) })
            } else {
                *old(self)
            },
    {
        if self.processes.len() != processes.len() {
            self.processes = processes;
            return true;
        }
        let mut i: usize = 0;
        while i < processes.len()
            invariant
                *self == *old(self),
                i <= processes@.len() == self.processes@.len(),
                forall|j: int|
                    0 <= j < i ==> same_command(self.processes@[j], #[trigger] processes@[j]),
            decreases processes@.len() - i,
        {
            if !equal_command(&self.processes[i], &processes[i]) {
                assert(!same_command(self.processes@[i as int], processes@[i as int]));
                self.processes = processes;
                return true;
            }
            i += 1;
        }
        false
    }

    /// Whether nothing runs.
    pub fn is_empty(&self) -> (r: bool)
        ensures
            r == (activities(*self).len() == 0),
    {
        proof {
            law_each_command_is_listed_once(self.processes@);
        }
        self.processes.len() == 0 && self.subagents.len() == 0
    }

    /// Sets the running subagents. Returns whether that changes anything.
    pub fn set_subagents(&mut self, subagents: Vec<BackgroundSubagentActivity>) -> (r: bool)
        ensures
            r == (subagent_models(old(self).subagents@) != subagent_models(subagents@)),
            *final(self) == if r {
                (UnifiedExecFooter { subagents, ..*old(self) })
            } else {
                *old(self)
            },
    {
        if self.subagents.len() != subagents.len() {
            assert(subagent_models(self.subagents@).len() != subagent_models(subagents@).len());
            self.subagents = subagents;
            return true;
        }
        let mut i: usize = 0;
        while i < subagents.len()
            invariant
                *self == *old(self),
                i <= subagents@.len() == self.subagents@.len(),
                forall|j: int|
                    0 <= j < i ==> subagent_model(self.subagents@[j]) == subagent_model(
                        #[trigger] subagents@[j],
                    ),
            decreases subagents@.len() - i,
        {
            if !equal_subagent(&self.subagents[i], &subagents[i]) {
                assert(subagent_models(self.subagents@)[i as int] != subagent_models(
                    subagents@,
                )[i as int]);
                self.subagents = subagents;
                return true;
            }
            i += 1;
        }
        assert(subagent_models(self.subagents@) =~= subagent_models(subagents@));
        false
    }

    /// Sets whether the footer has the focus. Returns whether that changes anything.
    pub fn set_focused(&mut self, focused: bool) -> (r: bool)
        ensures
            r == (old(self).focused != focused),
            *final(self) == (UnifiedExecFooter { focused, ..*old(self) }),
    {
        if self.focused == focused {
            return false;
        }
        self.focused = focused;
        true
    }

    /// How much runs.
    pub fn activity_count(&self) -> (r: usize)
        requires
            self.processes@.len() + self.subagents@.len() <= usize::MAX,
        ensures
            r == activities(*self).len(),
    {
        proof {
            law_each_command_is_listed_once(self.processes@);
        }
        self.processes.len() + self.subagents.len()
    }

    fn places_in(&self, background: bool) -> (r: Vec<usize>)
        ensures
            r@.len() == commands_in(self.processes@, background).len(),
            r@.len() <= self.processes@.len(),
            forall|k: int|
                0 <= k < r@.len() ==> (#[trigger] r@[k]) < self.processes@.len() && command_model(
                    self.processes@[r@[k] as int],
                ) == commands_in(self.processes@, background)[k],
    {
        let ghost all = self.processes@;
        let mut out: Vec<usize> = Vec::new();
        let mut i: usize = 0;
        assert(all.take(0) =~= Seq::<CommandActivity>::empty());
        while i < self.processes.len()
            invariant
                i <= all.len(),
                all == self.processes@,
                out@.len() <= i,
                out@.len() == commands_in(all.take(i as int), background).len(),
                forall|k: int|
                    0 <= k < out@.len() ==> (#[trigger] out@[k]) < i && command_model(
                        all[out@[k] as int],
                    ) == commands_in(all.take(i as int), background)[k],
            decreases all.len() - i,
        {
            assert(all.take(i + 1).drop_last() =~= all.take(i as int));
            assert(all.take(i + 1).last() == all[i as int]);
            if is_background(&self.processes[i]) == background {
                out.push(i);
            }
            i += 1;
        }
        assert(all.take(i as int) =~= all);
        out
    }

    fn append_process_list(
        &self,
        lines: &mut Vec<String>,
        title: &str,
        places: &[usize],
        background: bool,
        first: u128,
        selected: usize,
    )
        requires
            first + places@.len() <= u128::MAX,
            places@.len() == commands_in(self.processes@, background).len(),
            forall|k: int|
                0 <= k < places@.len() ==> (#[trigger] places@[k]) < self.processes@.len()
                    && command_model(self.processes@[places@[k] as int]) == commands_in(
                    self.processes@,
                    background,
                )[k],
        ensures
            texts(final(lines)@) == stacked(
                texts(old(lines)@),
                titled(
                    title@,
                    commands_in(self.processes@, background),
                    first as nat,
                    selected as nat,
                ),
            ),
    {
        let ghost rows = commands_in(self.processes@, background);
        let ghost start = texts(lines@);
        let ghost wanted = titled(title@, rows, first as nat, selected as nat);
        if places.len() == 0 {
            return;
        }
        if lines.len() > 0 {
            lines.push(owned(""));
            assert(texts(lines@) =~= start.push(""@));
        }
        let ghost head = texts(lines@);
        lines.push(owned(title));
        assert(texts(lines@) =~= head + wanted.take(1));
        let mut i: usize = 0;
        while i < places.len()
            invariant
                i <= places@.len() == rows.len(),
                first + places@.len() <= u128::MAX,
                rows == commands_in(self.processes@, background),
                wanted == titled(title@, rows, first as nat, selected as nat),
                forall|k: int|
                    0 <= k < places@.len() ==> (#[trigger] places@[k]) < self.processes@.len()
                        && command_model(self.processes@[places@[k] as int]) == rows[k],
                texts(lines@) == head + wanted.take(i + 1),
            decreases places@.len() - i,
        {
            let ghost before = lines@;
            let process = &self.processes[places[i]];
            let row = format_row(
                process.command.as_str(),
                process.shell_id.as_str(),
                process.status.as_str(),
                first + i as u128 == selected as u128,
            );
            let ghost text = row@;
            lines.push(row);
            proof {
                assert(command_model(*process) == rows[i as int]);
                assert(text == activity_row(rows[i as int], first + i == selected));
                assert(wanted[i + 1] == text);
                assert(texts(lines@) =~= texts(before).push(text));
                assert(wanted.take(i + 2) =~= wanted.take(i + 1).push(text));
                assert(texts(lines@) =~= head + wanted.take(i + 2));
            }
            i += 1;
        }
        assert(wanted.take(i + 1) =~= wanted);
        assert(texts(lines@) =~= stacked(start, wanted));
    }

    fn append_subagent_list(&self, lines: &mut Vec<String>, first: u128, selected: usize)
        requires
            first + self.subagents@.len() <= u128::MAX,
        ensures
            texts(final(lines)@) == stacked(
                texts(old(lines)@),
                titled(
                    "Subagents"@,
                    subagent_models(self.subagents@),
                    first as nat,
                    selected as nat,
                ),
            ),
    {
        let ghost rows = subagent_models(self.subagents@);
        let ghost start = texts(lines@);
        let ghost wanted = titled("Subagents"@, rows, first as nat, selected as nat);
        if self.subagents.len() == 0 {
            return;
        }
        if lines.len() > 0 {
            lines.push(owned(""));
            assert(texts(lines@) =~= start.push(""@));
        }
        let ghost head = texts(lines@);
        lines.push(owned("Subagents"));
        assert(texts(lines@) =~= head + wanted.take(1));
        let mut i: usize = 0;
        while i < self.subagents.len()
            invariant
                i <= self.subagents@.len() == rows.len(),
                first + self.subagents@.len() <= u128::MAX,
                rows == subagent_models(self.subagents@),
                wanted == titled("Subagents"@, rows, first as nat, selected as nat),
                texts(lines@) == head + wanted.take(i + 1),
            decreases self.subagents@.len() - i,
        {
            let ghost before = lines@;
            let subagent = &self.subagents[i];
            let row = format_row(
                subagent.label.as_str(),
                subagent.thread_id.as_str(),
                subagent.status.as_str(),
                first + i as u128 == selected as u128,
            );
            let ghost text = row@;
            lines.push(row);
            proof {
                assert(text == activity_row(rows[i as int], first + i == selected));
                assert(wanted[i + 1] == text);
                assert(texts(lines@) =~= texts(before).push(text));
                assert(wanted.take(i + 2) =~= wanted.take(i + 1).push(text));
                assert(texts(lines@) =~= head + wanted.take(i + 2));
            }
            i += 1;
        }
        assert(wanted.take(i + 1) =~= wanted);
        assert(texts(lines@) =~= stacked(start, wanted));
    }

    /// The lists of everything that runs, with row `selected` marked.
    pub fn list_lines(&self, selected: usize) -> (r: Vec<String>)
        ensures
            texts(r@) == all_lists(*self, selected as nat),
    {
        let blocking = self.places_in(false);
        let background = self.places_in(true);
        let blocking_count: u128 = blocking.len() as u128;
        let background_count: u128 = background.len() as u128;
        let subagent_count: u128 = self.subagents.len() as u128;
        assert(blocking_count + background_count + subagent_count <= u128::MAX);
        let mut lines: Vec<String> = Vec::new();
        assert(texts(lines@) =~= Seq::<Seq<char>>::empty());
        self.append_process_list(&mut lines, "Commands", blocking.as_slice(), false, 0, selected);
        let ghost first = titled(
            "Commands"@,
            commands_in(self.processes@, false),
            0,
            selected as nat,
        );
        assert(stacked(Seq::empty(), first) =~= first);
        self.append_process_list(
            &mut lines,
            "Background commands",
            background.as_slice(),
            true,
            blocking_count,
            selected,
        );
        self.append_subagent_list(&mut lines, blocking_count + background_count, selected);
        lines
    }

    /// The details of row `selected`; none where there is no such row.
    pub fn detail_lines(&self, selected: usize, now: u128) -> (r: Vec<String>)
        ensures
            texts(r@) == if selected < activities(*self).len() {
                activity_details(activities(*self)[selected as int], now)
            } else {
                Seq::empty()
            },
    {
        let blocking = self.places_in(false);
        if selected < blocking.len() {
            return process_detail_lines(&self.processes[blocking[selected]], now);
        }
        let rest: usize = selected - blocking.len();
        let background = self.places_in(true);
        if rest < background.len() {
            return process_detail_lines(&self.processes[background[rest]], now);
        }
        let last: usize = rest - background.len();
        if last < self.subagents.len() {
            return subagent_detail_lines(&self.subagents[last], now);
        }
        let none: Vec<String> = Vec::new();
        assert(texts(none@) =~= Seq::<Seq<char>>::empty());
        none
    }

    /// The rows that say how much runs.
    pub fn summary_rows(&self) -> (r: Vec<String>)
        ensures
            texts(r@) == summary(*self),
    {
        let mut rows: Vec<String> = Vec::new();
        assert(texts(rows@) =~= Seq::<Seq<char>>::empty());
        push_count(&mut rows, self.places_in(false).len(), "command");
        push_count(&mut rows, self.places_in(true).len(), "background command");
        push_count(&mut rows, self.subagents.len(), "subagent");
        assert(texts(rows@) =~= summary(*self));
        rows
    }

    /// The lines of the footer.
    pub fn render_lines(&self, width: u16) -> (r: Vec<StyledLine>)
        ensures
            line_models(r@) == footer_lines(*self, width as nat),
    {
        let mut out: Vec<StyledLine> = Vec::new();
        assert(line_models(out@) =~= Seq::<LineModel>::empty());
        if width < 4 {
            return out;
        }
        let rows = self.summary_rows();
        let ghost wanted = footer_lines(*self, width as nat);
        let mut i: usize = 0;
        assert(line_models(out@) =~= wanted.take(0));
        while i < rows.len()
            invariant
                i <= rows@.len() == wanted.len(),
                width >= 4,
                texts(rows@) == summary(*self),
                wanted == footer_lines(*self, width as nat),
                line_models(out@) == wanted.take(i as int),
            decreases rows@.len() - i,
        {
            let ghost before = out@;
            let mut message = if self.focused {
                owned("> ")
            } else {
                owned("  ")
            };
            message.append(rows[i].as_str());
            message.append(" · Enter details · k kill");
            let (text, _) = take_prefix_by_width(message.as_str(), width as usize);
            let style = if self.focused {
                LineStyle::Cyan
            } else {
                LineStyle::Dim
            };
            let ghost model = line_model(style, text@);
            out.push(StyledLine { style, text });
            proof {
                assert(texts(rows@)[i as int] == rows@[i as int]@);
                assert(model == wanted[i as int]);
                assert(line_models(out@) =~= line_models(before).push(model));
                assert(wanted.take(i + 1) =~= wanted.take(i as int).push(model));
            }
            i += 1;
        }
        assert(wanted.take(i as int) =~= wanted);
        out
    }

    /// How many lines the footer takes.
    pub fn desired_height(&self, width: u16) -> (r: u16)
        ensures
            r == footer_lines(*self, width as nat).len(),
    {
        let lines = self.render_lines(width);
        assert(line_models(lines@).len() == lines@.len());
        lines.len() as u16
    }
}

} // verus!
