//! A cell of the transcript that shows commands: one command, or a group of calls that look around.
use vstd::prelude::*;
use vstd::string::*;

use crate::footer::ExecCommandRunMode;
use crate::text::{copy_text, owned, text_eq, text_of, texts};

verus! {

/// What a command printed and how it ended.
#[derive(Debug, PartialEq, Eq)]
pub struct CommandOutput {
    pub exit_code: i32,
    /// Both outputs of the command, as they came.
    pub aggregated_output: String,
    /// The output as the model sees it.
    pub formatted_output: String,
}

/// A part of a command, as far as it is understood.
#[derive(Debug, PartialEq, Eq)]
pub enum ShownCommand {
    Read { cmd: String, name: String, file: String },
    ListFiles { cmd: String, path: Option<String> },
    Search { cmd: String, query: Option<String>, path: Option<String> },
    Unknown { cmd: String },
}

/// Who asked for a command.
#[derive(Clone, Copy, Debug, PartialEq, Eq, Structural)]
pub enum ExecCommandSource {
    Agent,
    UserShell,
    UnifiedExecStartup,
    UnifiedExecInteraction,
}

/// A command. Times are nanoseconds of one clock.
#[derive(Debug, PartialEq, Eq)]
pub struct ExecCall {
    pub call_id: String,
    pub command: Vec<String>,
    pub parsed: Vec<ShownCommand>,
    pub output: Option<CommandOutput>,
    pub auto_review_approved: bool,
    pub source: ExecCommandSource,
    pub run_mode: Option<ExecCommandRunMode>,
    /// When the command began, while it runs.
    pub start_time: Option<u128>,
    pub duration: Option<u128>,
    pub interaction_input: Option<String>,
}

/// How calls that look around are shown.
#[derive(Clone, Copy, Debug, PartialEq, Eq, Structural)]
pub enum ExploredToolsDisplay {
    Compact,
    Detailed,
}

impl Default for ExploredToolsDisplay {
    fn default() -> (r: ExploredToolsDisplay)
        ensures
            r == ExploredToolsDisplay::Compact,
    {
        ExploredToolsDisplay::Compact
    }
}

impl ExploredToolsDisplay {
    /// The display for a setting.
    pub fn from_compact_explored_tools(compact_explored_tools: bool) -> (r: ExploredToolsDisplay)
        ensures
            r == if compact_explored_tools {
                ExploredToolsDisplay::Compact
            } else {
                ExploredToolsDisplay::Detailed
            },
    {
        if compact_explored_tools {
            ExploredToolsDisplay::Compact
        } else {
            ExploredToolsDisplay::Detailed
        }
    }
}

/// How a cell is shown.
#[derive(Clone, Copy, Debug, PartialEq, Eq, Structural)]
pub struct ExecCellDisplayOptions {
    pub animations_enabled: bool,
    pub explored_tools_display: ExploredToolsDisplay,
}

/// A cell with its commands.
#[derive(Debug, PartialEq, Eq)]
pub struct ExecCell {
    pub calls: Vec<ExecCall>,
    pub animations_enabled: bool,
    pub explored_tools_display: ExploredToolsDisplay,
}

/// The output of a command.
#[verifier::ext_equal]
pub struct OutputModel {
    pub exit_code: i32,
    pub aggregated_output: Seq<char>,
    pub formatted_output: Seq<char>,
}

/// A part of a command.
#[verifier::ext_equal]
pub enum ShownModel {
    Read { cmd: Seq<char>, name: Seq<char>, file: Seq<char> },
    ListFiles { listed: Seq<char>, under: Option<Seq<char>> },
    Search { searched: Seq<char>, query: Option<Seq<char>>, below: Option<Seq<char>> },
    Unknown { unknown: Seq<char> },
}

/// A command.
#[verifier::ext_equal]
pub struct CallModel {
    pub call_id: Seq<char>,
    pub command: Seq<Seq<char>>,
    pub parsed: Seq<ShownModel>,
    pub output: Option<OutputModel>,
    pub auto_review_approved: bool,
    pub source: ExecCommandSource,
    pub run_mode: Option<ExecCommandRunMode>,
    pub start_time: Option<u128>,
    pub duration: Option<u128>,
    pub interaction_input: Option<Seq<char>>,
}

/// An output as a plain value.
pub open spec fn output_model(output: CommandOutput) -> OutputModel {
    OutputModel {
        exit_code: output.exit_code,
        aggregated_output: output.aggregated_output@,
        formatted_output: output.formatted_output@,
    }
}

/// A part of a command as a plain value.
pub open spec fn shown_model(shown: ShownCommand) -> ShownModel {
    match shown {
        ShownCommand::Read { cmd, name, file } => ShownModel::Read {
            cmd: cmd@,
            name: name@,
            file: file@,
        },
        ShownCommand::ListFiles { cmd, path } => ShownModel::ListFiles {
            listed: cmd@,
            under: text_of(path),
        },
        ShownCommand::Search { cmd, query, path } => ShownModel::Search {
            searched: cmd@,
            query: text_of(query),
            below: text_of(path),
        },
        ShownCommand::Unknown { cmd } => ShownModel::Unknown { unknown: cmd@ },
    }
}

/// A command as a plain value.
pub open spec fn call_model(call: ExecCall) -> CallModel {
    CallModel {
        call_id: call.call_id@,
        command: texts(call.command@),
        parsed: Seq::new(call.parsed@.len(), |i: int| shown_model(call.parsed@[i])),
        output: match call.output {
            Some(output) => Some(output_model(output)),
            None => None,
        },
        auto_review_approved: call.auto_review_approved,
        source: call.source,
        run_mode: call.run_mode,
        start_time: call.start_time,
        duration: call.duration,
        interaction_input: text_of(call.interaction_input),
    }
}

/// Commands as plain values.
pub open spec fn call_models(calls: Seq<ExecCall>) -> Seq<CallModel> {
    Seq::new(calls.len(), |i: int| call_model(calls[i]))
}

/// Whether a part of a command only looks around.
pub open spec fn looks_around(shown: ShownModel) -> bool {
    !(shown is Unknown)
}

/// Whether a call only looks around: an agent's, all of whose parts do.
pub open spec fn exploring(call: CallModel) -> bool {
    &&& call.source != ExecCommandSource::UserShell
    &&& call.source != ExecCommandSource::UnifiedExecStartup
    &&& call.parsed.len() > 0
    &&& forall|i: int| 0 <= i < call.parsed.len() ==> looks_around(#[trigger] call.parsed[i])
}

/// Whether all calls of a cell only look around.
pub open spec fn all_exploring(calls: Seq<CallModel>) -> bool {
    forall|i: int| 0 <= i < calls.len() ==> exploring(#[trigger] calls[i])
}

/// The last call with an id.
pub open spec fn last_with(calls: Seq<CallModel>, call_id: Seq<char>) -> Option<int>
    decreases calls.len(),
{
    if calls.len() == 0 {
        None
    } else if calls.last().call_id == call_id {
        Some(calls.len() - 1)
    } else {
        last_with(calls.drop_last(), call_id)
    }
}

/// The calls with a change to the last one that has an id; as they are where none has.
pub open spec fn changed_last(
    calls: Seq<CallModel>,
    call_id: Seq<char>,
    change: spec_fn(CallModel) -> CallModel,
) -> Seq<CallModel> {
    match last_with(calls, call_id) {
        Some(at) => calls.update(at, change(calls[at])),
        None => calls,
    }
}

/// A call that has ended. A run mode that is given replaces the one it had.
pub open spec fn ended(
    call: CallModel,
    output: OutputModel,
    duration: u128,
    run_mode: Option<ExecCommandRunMode>,
) -> CallModel {
    CallModel {
        output: Some(output),
        duration: Some(duration),
        start_time: None,
        run_mode: if run_mode is Some {
            run_mode
        } else {
            call.run_mode
        },
        ..call
    }
}

/// Whether a call started a shell in the background.
pub open spec fn background_startup(call: CallModel) -> bool {
    call.source == ExecCommandSource::UnifiedExecStartup && call.run_mode == Some(
        ExecCommandRunMode::Background,
    )
}

/// A call with more output; that of one without output starts empty, with exit code 0.
pub open spec fn with_output(call: CallModel, chunk: Seq<char>) -> CallModel {
    let before = match call.output {
        Some(output) => output,
        None => OutputModel {
            exit_code: 0,
            aggregated_output: Seq::empty(),
            formatted_output: Seq::empty(),
        },
    };
    CallModel {
        output: Some(
            OutputModel { aggregated_output: before.aggregated_output + chunk, ..before },
        ),
        ..call
    }
}

/// A call that is given up at a time: one without output fails with none.
pub open spec fn given_up(call: CallModel, now: u128) -> CallModel {
    if call.output is Some {
        call
    } else {
        CallModel {
            start_time: None,
            duration: match call.start_time {
                Some(start) => Some(
                    if now < start {
                        0
                    } else {
                        (now - start) as u128
                    },
                ),
                None => Some(0),
            },
            output: Some(
                OutputModel {
                    exit_code: 1,
                    aggregated_output: Seq::empty(),
                    formatted_output: Seq::empty(),
                },
            ),
            ..call
        }
    }
}

/// The first time in a list of calls at which one began that still runs.
pub open spec fn first_start(calls: Seq<CallModel>) -> Option<u128>
    decreases calls.len(),
{
    if calls.len() == 0 {
        None
    } else {
        match first_start(calls.drop_last()) {
            Some(start) => Some(start),
            None => calls.last().start_time,
        }
    }
}

proof fn lemma_last_with(calls: Seq<CallModel>, call_id: Seq<char>)
    ensures
        last_with(calls, call_id) matches Some(at) ==> 0 <= at < calls.len()
            && calls[at].call_id == call_id,
        last_with(calls, call_id) is None ==> forall|i: int|
            0 <= i < calls.len() ==> (#[trigger] calls[i]).call_id != call_id,
    decreases calls.len(),
{
    if calls.len() > 0 {
        let before = calls.drop_last();
        lemma_last_with(before, call_id);
        if last_with(calls, call_id) is None {
            assert forall|i: int| 0 <= i < calls.len() implies (#[trigger] calls[i]).call_id
                != call_id by {
                if i < before.len() {
                    assert(before[i] == calls[i]);
                }
            }
        }
    }
}

proof fn lemma_first_start(calls: Seq<CallModel>)
    ensures
        first_start(calls) is None <==> forall|i: int|
            0 <= i < calls.len() ==> (#[trigger] calls[i]).start_time is None,
    decreases calls.len(),
{
    if calls.len() > 0 {
        let before = calls.drop_last();
        lemma_first_start(before);
        assert(calls[calls.len() - 1] == calls.last());
        assert forall|i: int| 0 <= i < before.len() implies before[i] == calls[i] by {}
        if first_start(calls) is None {
            assert forall|i: int| 0 <= i < calls.len() implies (#[trigger] calls[i]).start_time
                is None by {
                if i < before.len() {
                    assert(before[i] == calls[i]);
                }
            }
        } else if first_start(before) is Some {
            let i = choose|i: int|
                0 <= i < before.len() && !((#[trigger] before[i]).start_time is None);
            assert(calls[i] == before[i]);
        }
    }
}

fn copy_texts(list: &[String]) -> (r: Vec<String>)
    ensures
        texts(r@) == texts(list@),
{
    let mut out: Vec<String> = Vec::new();
    let mut i: usize = 0;
    while i < list.len()
        invariant
            i <= list@.len(),
            out@.len() == i,
            forall|j: int| 0 <= j < i ==> (#[trigger] out@[j])@ == list@[j]@,
        decreases list@.len() - i,
    {
        out.push(owned(list[i].as_str()));
        i += 1;
    }
    assert(texts(out@) =~= texts(list@));
    out
}

fn copy_shown(shown: &ShownCommand) -> (r: ShownCommand)
    ensures
        shown_model(r) == shown_model(*shown),
{
    match shown {
        ShownCommand::Read { cmd, name, file } => ShownCommand::Read {
            cmd: owned(cmd.as_str()),
            name: owned(name.as_str()),
            file: owned(file.as_str()),
        },
        ShownCommand::ListFiles { cmd, path } => ShownCommand::ListFiles {
            cmd: owned(cmd.as_str()),
            path: copy_text(path),
        },
        ShownCommand::Search { cmd, query, path } => ShownCommand::Search {
            cmd: owned(cmd.as_str()),
            query: copy_text(query),
            path: copy_text(path),
        },
        ShownCommand::Unknown { cmd } => ShownCommand::Unknown { cmd: owned(cmd.as_str()) },
    }
}

fn copy_call(call: &ExecCall) -> (r: ExecCall)
    ensures
        call_model(r) == call_model(*call),
{
    let mut parsed: Vec<ShownCommand> = Vec::new();
    let mut i: usize = 0;
    while i < call.parsed.len()
        invariant
            i <= call.parsed@.len(),
            parsed@.len() == i,
            forall|j: int|
                0 <= j < i ==> shown_model(#[trigger] parsed@[j]) == shown_model(call.parsed@[j]),
        decreases call.parsed@.len() - i,
    {
        parsed.push(copy_shown(&call.parsed[i]));
        i += 1;
    }
    let output = match &call.output {
        Some(output) => Some(
            CommandOutput {
                exit_code: output.exit_code,
                aggregated_output: owned(output.aggregated_output.as_str()),
                formatted_output: owned(output.formatted_output.as_str()),
            },
        ),
        None => None,
    };
    let copy = ExecCall {
        call_id: owned(call.call_id.as_str()),
        command: copy_texts(call.command.as_slice()),
        parsed,
        output,
        auto_review_approved: call.auto_review_approved,
        source: call.source,
        run_mode: call.run_mode,
        start_time: call.start_time,
        duration: call.duration,
        interaction_input: copy_text(&call.interaction_input),
    };
    assert(call_model(copy) =~= call_model(*call));
    copy
}

impl ExecCall {
    /// Whether the user typed the command.
    pub fn is_user_shell_command(&self) -> (r: bool)
        ensures
            r == (self.source == ExecCommandSource::UserShell),
    {
        self.source == ExecCommandSource::UserShell
    }

    /// Whether the call writes to a running shell.
    pub fn is_unified_exec_interaction(&self) -> (r: bool)
        ensures
            r == (self.source == ExecCommandSource::UnifiedExecInteraction),
    {
        self.source == ExecCommandSource::UnifiedExecInteraction
    }

    /// Whether the call starts a shell.
    pub fn is_unified_exec_startup(&self) -> (r: bool)
        ensures
            r == (self.source == ExecCommandSource::UnifiedExecStartup),
    {
        self.source == ExecCommandSource::UnifiedExecStartup
    }

    /// Whether the call starts a shell in the background.
    pub fn is_background_unified_exec_startup(&self) -> (r: bool)
        ensures
            r == background_startup(call_model(*self)),
    {
        self.is_unified_exec_startup() && match self.run_mode {
            Some(ExecCommandRunMode::Background) => true,
            _ => false,
        }
    }
}

impl ExecCell {
    /// A cell with one call.
    pub fn new(call: ExecCall, animations_enabled: bool) -> (r: ExecCell)
        ensures
            r.calls@ == seq![call],
            r.animations_enabled == animations_enabled,
            r.explored_tools_display == ExploredToolsDisplay::Compact,
    {
        ExecCell {
            calls: vec![call],
            animations_enabled,
            explored_tools_display: ExploredToolsDisplay::Compact,
        }
    }

    /// Whether a call only looks around.
    pub fn is_exploring_call(call: &ExecCall) -> (r: bool)
        ensures
            r == exploring(call_model(*call)),
    {
        let ghost model = call_model(*call);
        if call.source == ExecCommandSource::UserShell || call.source
            == ExecCommandSource::UnifiedExecStartup || call.parsed.len() == 0 {
            return false;
        }
        let mut i: usize = 0;
        while i < call.parsed.len()
            invariant
                i <= call.parsed@.len() == model.parsed.len(),
                model == call_model(*call),
                forall|j: int| 0 <= j < i ==> looks_around(#[trigger] model.parsed[j]),
            decreases call.parsed@.len() - i,
        {
            assert(model.parsed[i as int] == shown_model(call.parsed@[i as int]));
            if let ShownCommand::Unknown { .. } = &call.parsed[i] {
                assert(!looks_around(model.parsed[i as int]));
                return false;
            }
            i += 1;
        }
        true
    }

    /// Whether all calls only look around.
    pub fn is_exploring_cell(&self) -> (r: bool)
        ensures
            r == all_exploring(call_models(self.calls@)),
    {
        let mut i: usize = 0;
        while i < self.calls.len()
            invariant
                i <= self.calls@.len(),
                forall|j: int|
                    0 <= j < i ==> exploring(#[trigger] call_models(self.calls@)[j]),
            decreases self.calls@.len() - i,
        {
            assert(call_models(self.calls@)[i as int] == call_model(self.calls@[i as int]));
            if !Self::is_exploring_call(&self.calls[i]) {
                return false;
            }
            i += 1;
        }
        true
    }

    /// The cell with another call that begins now, where both the cell and the call only look
    /// around.
    pub fn with_added_call(
        &self,
        call_id: String,
        command: Vec<String>,
        parsed: Vec<ShownCommand>,
        source: ExecCommandSource,
        run_mode: Option<ExecCommandRunMode>,
        interaction_input: Option<String>,
        now: u128,
    ) -> (r: Option<ExecCell>)
        ensures
            ({
                let call = call_model(
                    ExecCall {
                        call_id,
                        command,
                        parsed,
                        output: None,
                        auto_review_approved: false,
                        source,
                        run_mode,
                        start_time: Some(now),
                        duration: None,
                        interaction_input,
                    },
                );
                &&& r is Some <==> all_exploring(call_models(self.calls@)) && exploring(call)
                &&& r matches Some(cell) ==> call_models(cell.calls@) == call_models(
                    self.calls@,
                ).push(call) && cell.animations_enabled == self.animations_enabled
                    && cell.explored_tools_display == self.explored_tools_display
            }),
    {
        let call = ExecCall {
            call_id,
            command,
            parsed,
            output: None,
            auto_review_approved: false,
            source,
            run_mode,
            start_time: Some(now),
            duration: None,
            interaction_input,
        };
        if !self.is_exploring_cell() || !Self::is_exploring_call(&call) {
            return None;
        }
        let mut calls: Vec<ExecCall> = Vec::new();
        let mut i: usize = 0;
        while i < self.calls.len()
            invariant
                i <= self.calls@.len(),
                calls@.len() == i,
                forall|j: int|
                    0 <= j < i ==> call_model(#[trigger] calls@[j]) == call_model(self.calls@[j]),
            decreases self.calls@.len() - i,
        {
            calls.push(copy_call(&self.calls[i]));
            i += 1;
        }
        let ghost model = call_model(call);
        calls.push(call);
        assert(call_models(calls@) =~= call_models(self.calls@).push(model));
        Some(
            ExecCell {
                calls,
                animations_enabled: self.animations_enabled,
                explored_tools_display: self.explored_tools_display,
            },
        )
    }

    fn find_last(&self, call_id: &str) -> (r: Option<usize>)
        ensures
            match last_with(call_models(self.calls@), call_id@) {
                Some(at) => r matches Some(got) && got == at && at < self.calls@.len(),
                None => r is None,
            },
    {
        let ghost all = call_models(self.calls@);
        let mut left: usize = self.calls.len();
        assert(all.take(left as int) =~= all);
        while left > 0
            invariant
                left <= self.calls@.len(),
                all == call_models(self.calls@),
                last_with(all, call_id@) == last_with(all.take(left as int), call_id@),
            decreases left,
        {
            assert(all.take(left as int).last() == call_model(self.calls@[left - 1]));
            assert(all.take(left as int).drop_last() =~= all.take(left - 1));
            if text_eq(self.calls[left - 1].call_id.as_str(), call_id) {
                return Some(left - 1);
            }
            left -= 1;
        }
        None
    }

    /// Ends the last call with the given id. Returns whether there is one.
    pub fn complete_call(
        &mut self,
        call_id: &str,
        output: CommandOutput,
        duration: u128,
        run_mode: Option<ExecCommandRunMode>,
    ) -> (r: bool)
        ensures
            r == (last_with(call_models(old(self).calls@), call_id@) is Some),
            call_models(final(self).calls@) == changed_last(
                call_models(old(self).calls@),
                call_id@,
                |call: CallModel| ended(call, output_model(output), duration, run_mode),
            ),
            final(self).animations_enabled == old(self).animations_enabled,
            final(self).explored_tools_display == old(self).explored_tools_display,
    {
        let at = match self.find_last(call_id) {
            Some(at) => at,
            None => return false,
        };
        let ghost before = call_models(self.calls@);
        let ghost model = output_model(output);
        if run_mode.is_some() {
            self.calls[at].run_mode = run_mode;
        }
        self.calls[at].output = Some(output);
        self.calls[at].duration = Some(duration);
        self.calls[at].start_time = None;
        proof {
            let after = call_model(self.calls@[at as int]);
            assert(after =~= ended(before[at as int], model, duration, run_mode));
            assert(call_models(self.calls@) =~= before.update(at as int, after));
        }
        true
    }

    /// Whether the cell is complete: a command that has ended.
    pub fn should_flush(&self) -> (r: bool)
        ensures
            r == (!all_exploring(call_models(self.calls@)) && first_start(call_models(self.calls@))
                is None),
    {
        !self.is_exploring_cell() && self.active_start_time().is_none()
    }

    /// Gives up the calls that have no output.
    pub fn mark_failed(&mut self, now: u128)
        ensures
            call_models(final(self).calls@) == call_models(old(self).calls@).map_values(
                |call: CallModel| given_up(call, now),
            ),
            final(self).animations_enabled == old(self).animations_enabled,
            final(self).explored_tools_display == old(self).explored_tools_display,
    {
        proof {
            reveal_strlit("");
        }
        let ghost before = call_models(self.calls@);
        let total: usize = self.calls.len();
        let mut i: usize = 0;
        while i < total
            invariant
                i <= total == self.calls@.len() == before.len(),
                self.animations_enabled == old(self).animations_enabled,
                self.explored_tools_display == old(self).explored_tools_display,
                forall|j: int|
                    0 <= j < i ==> call_model(#[trigger] self.calls@[j]) == given_up(
                        before[j],
                        now,
                    ),
                forall|j: int|
                    i <= j < total ==> call_model(#[trigger] self.calls@[j]) == before[j],
            decreases total - i,
        {
            let ghost call = call_model(self.calls@[i as int]);
            if self.calls[i].output.is_none() {
                let elapsed: u128 = match self.calls[i].start_time {
                    Some(start) => if now < start {
                        0
                    } else {
                        now - start
                    },
                    None => 0,
                };
                self.calls[i].start_time = None;
                self.calls[i].duration = Some(elapsed);
                self.calls[i].output = Some(
                    CommandOutput {
                        exit_code: 1,
                        aggregated_output: owned(""),
                        formatted_output: owned(""),
                    },
                );
                proof {
                    reveal_strlit("");
                    assert(call_model(self.calls@[i as int]) =~= given_up(call, now));
                }
            }
            i += 1;
        }
        assert(call_models(self.calls@) =~= before.map_values(
            |call: CallModel| given_up(call, now),
        ));
    }

    /// Whether a call runs.
    pub fn is_active(&self) -> (r: bool)
        ensures
            r == (first_start(call_models(self.calls@)) is Some),
    {
        self.active_start_time().is_some()
    }

    /// When the first call began that runs.
    pub fn active_start_time(&self) -> (r: Option<u128>)
        ensures
            r == first_start(call_models(self.calls@)),
    {
        let ghost all = call_models(self.calls@);
        let mut i: usize = 0;
        let mut found: Option<u128> = None;
        assert(all.take(0) =~= Seq::<CallModel>::empty());
        while i < self.calls.len()
            invariant
                i <= self.calls@.len(),
                all == call_models(self.calls@),
                found == first_start(all.take(i as int)),
            decreases self.calls@.len() - i,
        {
            assert(all.take(i + 1).drop_last() =~= all.take(i as int));
            assert(all.take(i + 1).last() == call_model(self.calls@[i as int]));
            if found.is_none() {
                found = self.calls[i].start_time;
            }
            i += 1;
        }
        assert(all.take(i as int) =~= all);
        found
    }

    /// Whether the cell moves while a call runs.
    pub fn animations_enabled(&self) -> (r: bool)
        ensures
            r == self.animations_enabled,
    {
        self.animations_enabled
    }

    /// How calls that look around are shown.
    pub fn explored_tools_display(&self) -> (r: ExploredToolsDisplay)
        ensures
            r == self.explored_tools_display,
    {
        self.explored_tools_display
    }

    /// The cell with another display.
    pub fn with_explored_tools_display(self, display: ExploredToolsDisplay) -> (r: ExecCell)
        ensures
            r.calls == self.calls,
            r.animations_enabled == self.animations_enabled,
            r.explored_tools_display == display,
    {
        ExecCell {
            calls: self.calls,
            animations_enabled: self.animations_enabled,
            explored_tools_display: display,
        }
    }

    /// The calls.
    pub fn iter_calls(&self) -> (r: &[ExecCall])
        ensures
            r@ == self.calls@,
    {
        self.calls.as_slice()
    }

    /// Adds output to the last call with the given id. Returns whether it did: an empty chunk and
    /// the output of a shell in the background are left out.
    pub fn append_output(&mut self, call_id: &str, chunk: &str) -> (r: bool)
        ensures
            r == (chunk@.len() > 0 && (last_with(call_models(old(self).calls@), call_id@) matches
                Some(at) && !background_startup(call_models(old(self).calls@)[at]))),
            call_models(final(self).calls@) == if r {
                changed_last(
                    call_models(old(self).calls@),
                    call_id@,
                    |call: CallModel| with_output(call, chunk@),
                )
            } else {
                call_models(old(self).calls@)
            },
            final(self).animations_enabled == old(self).animations_enabled,
            final(self).explored_tools_display == old(self).explored_tools_display,
    {
        if chunk.is_empty() {
            return false;
        }
        let at = match self.find_last(call_id) {
            Some(at) => at,
            None => return false,
        };
        let ghost before = call_models(self.calls@);
        assert(before[at as int] == call_model(self.calls@[at as int]));
        if self.calls[at].is_background_unified_exec_startup() {
            return false;
        }
        proof {
            reveal_strlit("");
        }
        let (exit_code, mut aggregated_output, formatted_output) =
            match &self.calls[at].output {
            Some(output) => (
                output.exit_code,
                owned(output.aggregated_output.as_str()),
                owned(output.formatted_output.as_str()),
            ),
            None => (0i32, owned(""), owned("")),
        };
        aggregated_output.append(chunk);
        let output = CommandOutput { exit_code, aggregated_output, formatted_output };
        self.calls[at].output = Some(output);
        proof {
            let after = call_model(self.calls@[at as int]);
            assert(after =~~= with_output(before[at as int], chunk@));
            assert(call_models(self.calls@) =~= before.update(at as int, after));
        }
        true
    }

    /// Notes that the last call with the given id was approved. Returns whether there is one.
    pub fn mark_auto_review_approved(&mut self, call_id: &str) -> (r: bool)
        ensures
            r == (last_with(call_models(old(self).calls@), call_id@) is Some),
            call_models(final(self).calls@) == changed_last(
                call_models(old(self).calls@),
                call_id@,
                |call: CallModel| CallModel { auto_review_approved: true, ..call },
            ),
            final(self).animations_enabled == old(self).animations_enabled,
            final(self).explored_tools_display == old(self).explored_tools_display,
    {
        let at = match self.find_last(call_id) {
            Some(at) => at,
            None => return false,
        };
        let ghost before = call_models(self.calls@);
        self.calls[at].auto_review_approved = true;
        proof {
            let after = call_model(self.calls@[at as int]);
            assert(after =~= (CallModel { auto_review_approved: true, ..before[at as int] }));
            assert(call_models(self.calls@) =~= before.update(at as int, after));
        }
        true
    }
}

/// A change by id reaches one call with that id, and no other call. Without such a call nothing
/// changes.
pub proof fn law_events_reach_their_call_only(
    calls: Seq<CallModel>,
    call_id: Seq<char>,
    change: spec_fn(CallModel) -> CallModel,
)
    ensures
        changed_last(calls, call_id, change).len() == calls.len(),
        forall|i: int|
            0 <= i < calls.len() && (#[trigger] calls[i]).call_id != call_id ==> changed_last(
                calls,
                call_id,
                change,
            )[i] == calls[i],
        (forall|i: int| 0 <= i < calls.len() ==> (#[trigger] calls[i]).call_id != call_id)
            ==> changed_last(calls, call_id, change) == calls,
{
    lemma_last_with(calls, call_id);
}

/// A cell with one command that does not only look around is complete as soon as the command has
/// ended.
pub proof fn law_ended_command_is_complete(
    call: CallModel,
    output: OutputModel,
    duration: u128,
    run_mode: Option<ExecCommandRunMode>,
)
    requires
        !exploring(call),
    ensures
        ({
            let after = changed_last(
                seq![call],
                call.call_id,
                |c: CallModel| ended(c, output, duration, run_mode),
            );
            !all_exploring(after) && first_start(after) is None
        }),
{
    let after = changed_last(
        seq![call],
        call.call_id,
        |c: CallModel| ended(c, output, duration, run_mode),
    );
    assert(after[0] == ended(call, output, duration, run_mode));
    lemma_first_start(after);
    if exploring(after[0]) {
        assert(call.parsed == after[0].parsed);
        assert(exploring(call));
    }
}

/// Calls without output that are given up do not run any more.
pub proof fn law_given_up_calls_have_ended(calls: Seq<CallModel>, now: u128)
    requires
        forall|i: int|
            0 <= i < calls.len() ==> ((#[trigger] calls[i]).output is Some ==> calls[i].start_time
                is None),
    ensures
        first_start(calls.map_values(|call: CallModel| given_up(call, now))) is None,
{
    let after = calls.map_values(|call: CallModel| given_up(call, now));
    assert forall|i: int| 0 <= i < after.len() implies (#[trigger] after[i]).start_time is None by {
        assert(after[i] == given_up(calls[i], now));
    }
    lemma_first_start(after);
}

} // verus!
