//! Working with other agents: inputs, waiting, models, and errors.
use vstd::prelude::*;
use vstd::string::*;

use crate::agent_summary::{counts, CollabAgentToolSummary};
use crate::error::{agrees, respond, FunctionCallError};
use crate::schema::{lemma_text_less, order_texts, text_less, TextOrder};
use crate::text::{
    copy_text, join, joined, owned, slice_of, text_eq, text_of, texts, to_chars, white_space,
};

verus! {

/// The shortest time that is waited for an agent.
pub const MIN_WAIT_TIMEOUT_MS: i64 = 10_000;

/// The time that is waited for an agent unless the call says otherwise.
pub const DEFAULT_WAIT_TIMEOUT_MS: i64 = 30_000;

/// The longest time that is waited for an agent.
pub const MAX_WAIT_TIMEOUT_MS: i64 = 3_600_000;

/// The time that a blocking call waits for an agent unless it says otherwise.
pub const DEFAULT_BLOCKING_AGENT_TIMEOUT_MS: i64 = MAX_WAIT_TIMEOUT_MS;

/// The time between two reports on an agent that is waited for.
pub const BLOCKING_AGENT_PROGRESS_UPDATE_INTERVAL_MS: u64 = 250;

/// Whether a call waits for the agent.
#[derive(Clone, Copy, Debug, PartialEq, Eq, Structural)]
pub enum AgentToolMode {
    Blocking,
    Background,
}

impl Default for AgentToolMode {
    fn default() -> (r: AgentToolMode)
        ensures
            r == AgentToolMode::Background,
    {
        AgentToolMode::Background
    }
}

/// How a call is reported.
#[derive(Clone, Copy, Debug, PartialEq, Eq, Structural)]
pub enum CollabAgentToolCallMode {
    Blocking,
    Background,
}

/// How a call in the given mode is reported.
pub fn collab_tool_call_mode(mode: AgentToolMode) -> (r: CollabAgentToolCallMode)
    ensures
        r == match mode {
            AgentToolMode::Blocking => CollabAgentToolCallMode::Blocking,
            AgentToolMode::Background => CollabAgentToolCallMode::Background,
        },
{
    match mode {
        AgentToolMode::Blocking => CollabAgentToolCallMode::Blocking,
        AgentToolMode::Background => CollabAgentToolCallMode::Background,
    }
}

/// The arguments of a call, or the refusal of a payload that is no function call.
pub fn function_arguments(arguments: Option<String>) -> (r: Result<String, FunctionCallError>)
    ensures
        match arguments {
            Some(text) => r == Ok::<String, FunctionCallError>(text),
            None => r matches Err(error) && error.says(
                "collab handler received unsupported payload"@,
            ),
        },
{
    match arguments {
        Some(text) => Ok(text),
        None => Err(respond("collab handler received unsupported payload")),
    }
}

/// What stands in for a result that cannot be shown as JSON.
pub fn serialize_failure(tool_name: &str, error: &str) -> (r: String)
    ensures
        r@ == "failed to serialize "@ + tool_name@ + " result: "@ + error@,
{
    let mut out = owned("failed to serialize ");
    out.append(tool_name);
    out.append(" result: ");
    out.append(error);
    out
}

/// An agent that a call is about.
#[derive(Debug, PartialEq, Eq)]
pub struct CollabAgentRef {
    pub thread_id: String,
    pub agent_nickname: Option<String>,
    pub agent_role: Option<String>,
}

/// The status of an agent: `status` is its place among the given statuses.
#[derive(Debug, PartialEq, Eq)]
pub struct CollabAgentStatusEntry {
    pub thread_id: String,
    pub agent_nickname: Option<String>,
    pub agent_role: Option<String>,
    pub status: usize,
}

/// The status of an agent.
pub struct StatusModel {
    pub thread_id: Seq<char>,
    pub agent_nickname: Option<Seq<char>>,
    pub agent_role: Option<Seq<char>>,
    pub status: usize,
}

/// Statuses as plain values.
pub open spec fn status_models(entries: Seq<CollabAgentStatusEntry>) -> Seq<StatusModel> {
    Seq::new(
        entries.len(),
        |i: int|
            StatusModel {
                thread_id: entries[i].thread_id@,
                agent_nickname: text_of(entries[i].agent_nickname),
                agent_role: text_of(entries[i].agent_role),
                status: entries[i].status,
            },
    )
}

/// The place of an id.
pub open spec fn id_place(ids: Seq<Seq<char>>, id: Seq<char>) -> Option<int>
    decreases ids.len(),
{
    if ids.len() == 0 {
        None
    } else {
        match id_place(ids.drop_last(), id) {
            Some(at) => Some(at),
            None => if ids.last() == id {
                Some(ids.len() - 1)
            } else {
                None
            },
        }
    }
}

/// The statuses of the agents that a call is about, as far as they are known.
pub open spec fn receiver_statuses(
    ids: Seq<Seq<char>>,
    receivers: Seq<CollabAgentRef>,
) -> Seq<StatusModel>
    decreases receivers.len(),
{
    if receivers.len() == 0 {
        Seq::empty()
    } else {
        let before = receiver_statuses(ids, receivers.drop_last());
        let receiver = receivers.last();
        match id_place(ids, receiver.thread_id@) {
            Some(at) => before.push(
                StatusModel {
                    thread_id: receiver.thread_id@,
                    agent_nickname: text_of(receiver.agent_nickname),
                    agent_role: text_of(receiver.agent_role),
                    status: at as usize,
                },
            ),
            None => before,
        }
    }
}

/// Whether a call is about the agent of this id.
pub open spec fn is_receiver(receivers: Seq<CollabAgentRef>, id: Seq<char>) -> bool {
    exists|i: int| 0 <= i < receivers.len() && (#[trigger] receivers[i]).thread_id@ == id
}

/// A status without a name, put in front of those with greater ids at the end.
pub open spec fn with_extra(sorted: Seq<StatusModel>, extra: StatusModel) -> Seq<StatusModel>
    decreases sorted.len(),
{
    if sorted.len() == 0 || !text_less(extra.thread_id, sorted.last().thread_id) {
        sorted.push(extra)
    } else {
        with_extra(sorted.drop_last(), extra).push(sorted.last())
    }
}

/// The statuses of the other agents among the first `count`, in the order of their ids.
pub open spec fn other_statuses(
    ids: Seq<Seq<char>>,
    receivers: Seq<CollabAgentRef>,
    count: nat,
) -> Seq<StatusModel>
    decreases count,
{
    if count == 0 {
        Seq::empty()
    } else {
        let before = other_statuses(ids, receivers, (count - 1) as nat);
        let id = ids[count - 1];
        if is_receiver(receivers, id) {
            before
        } else {
            with_extra(
                before,
                StatusModel {
                    thread_id: id,
                    agent_nickname: None,
                    agent_role: None,
                    status: (count - 1) as usize,
                },
            )
        }
    }
}

fn find_id(ids: &[String], id: &str) -> (r: Option<usize>)
    ensures
        match id_place(texts(ids@), id@) {
            Some(at) => r matches Some(got) && got == at && at < ids@.len(),
            None => r is None,
        },
{
    let ghost all = texts(ids@);
    let mut i: usize = 0;
    assert(all.take(0) =~= Seq::<Seq<char>>::empty());
    while i < ids.len()
        invariant
            i <= ids@.len(),
            all == texts(ids@),
            id_place(all.take(i as int), id@) is None,
        decreases ids@.len() - i,
    {
        assert(all.take(i + 1).drop_last() =~= all.take(i as int));
        assert(all.take(i + 1).last() == ids@[i as int]@);
        if text_eq(ids[i].as_str(), id) {
            proof {
                lemma_id_place_prefix(all, id@, i + 1);
            }
            return Some(i);
        }
        i += 1;
    }
    assert(all.take(all.len() as int) =~= all);
    None
}

proof fn lemma_id_place_prefix(ids: Seq<Seq<char>>, id: Seq<char>, count: int)
    requires
        0 <= count <= ids.len(),
        id_place(ids.take(count), id) is Some,
    ensures
        id_place(ids, id) == id_place(ids.take(count), id),
    decreases ids.len(),
{
    if count == ids.len() {
        assert(ids.take(count) =~= ids);
    } else {
        assert(ids.drop_last().take(count) =~= ids.take(count));
        lemma_id_place_prefix(ids.drop_last(), id, count);
    }
}

fn receives(receivers: &[CollabAgentRef], id: &str) -> (r: bool)
    ensures
        r == is_receiver(receivers@, id@),
{
    let mut i: usize = 0;
    while i < receivers.len()
        invariant
            i <= receivers@.len(),
            forall|j: int| 0 <= j < i ==> (#[trigger] receivers@[j]).thread_id@ != id@,
        decreases receivers@.len() - i,
    {
        if text_eq(receivers[i].thread_id.as_str(), id) {
            return true;
        }
        i += 1;
    }
    false
}

fn insert_extra(sorted: &mut Vec<CollabAgentStatusEntry>, extra: CollabAgentStatusEntry)
    ensures
        status_models(final(sorted)@) == with_extra(
            status_models(old(sorted)@),
            StatusModel {
                thread_id: extra.thread_id@,
                agent_nickname: text_of(extra.agent_nickname),
                agent_role: text_of(extra.agent_role),
                status: extra.status,
            },
        ),
{
    let ghost model = StatusModel {
        thread_id: extra.thread_id@,
        agent_nickname: text_of(extra.agent_nickname),
        agent_role: text_of(extra.agent_role),
        status: extra.status,
    };
    let ghost all = status_models(sorted@);
    let mut at: usize = sorted.len();
    assert(all.take(at as int) =~= all);
    assert(all.skip(at as int) =~= Seq::<StatusModel>::empty());
    assert(with_extra(all, model) =~= with_extra(all.take(at as int), model) + all.skip(at as int));
    while at > 0
        invariant_except_break
            at <= sorted@.len(),
            sorted@ == old(sorted)@,
            all == status_models(sorted@),
            model.thread_id == extra.thread_id@,
            with_extra(all, model) == with_extra(all.take(at as int), model) + all.skip(at as int),
        ensures
            at <= sorted@.len(),
            sorted@ == old(sorted)@,
            with_extra(all, model) == all.take(at as int).push(model) + all.skip(at as int),
        decreases at,
    {
        let ghost front = all.take(at as int);
        proof {
            assert(front.drop_last() =~= all.take(at - 1));
            assert(front.last() == all[at - 1]);
        }
        match order_texts(extra.thread_id.as_str(), sorted[at - 1].thread_id.as_str()) {
            TextOrder::Before => {},
            TextOrder::Same => {
                proof {
                    lemma_text_less(model.thread_id, model.thread_id, model.thread_id);
                }
                break ;
            },
            TextOrder::After => {
                proof {
                    lemma_text_less(
                        front.last().thread_id,
                        model.thread_id,
                        front.last().thread_id,
                    );
                }
                break ;
            },
        }
        proof {
            let longer = all.skip(at - 1);
            assert(with_extra(front, model) == with_extra(front.drop_last(), model).push(
                front.last(),
            ));
            assert(with_extra(front, model) + all.skip(at as int) =~= with_extra(
                front.drop_last(),
                model,
            ) + longer);
        }
        at -= 1;
        proof {
            if at == 0 {
                assert(with_extra(all.take(0), model) =~= all.take(0).push(model));
            }
        }
    }
    let ghost before = sorted@;
    sorted.insert(at, extra);
    assert(status_models(sorted@) =~= all.take(at as int).push(model) + all.skip(at as int));
}

/// Lists the statuses of agents: first those that the call is about, in its order and with their
/// names, then the others in the order of their ids. `ids` are the ids of the agents whose status is
/// known.
pub fn build_wait_agent_statuses(ids: &[String], receivers: &[CollabAgentRef]) -> (r: Vec<
    CollabAgentStatusEntry,
>)
    ensures
        status_models(r@) == receiver_statuses(texts(ids@), receivers@) + other_statuses(
            texts(ids@),
            receivers@,
            ids@.len(),
        ),
{
    let ghost all = texts(ids@);
    let mut entries: Vec<CollabAgentStatusEntry> = Vec::new();
    let mut i: usize = 0;
    assert(receivers@.take(0) =~= Seq::<CollabAgentRef>::empty());
    assert(status_models(entries@) =~= Seq::<StatusModel>::empty());
    while i < receivers.len()
        invariant
            i <= receivers@.len(),
            all == texts(ids@),
            status_models(entries@) == receiver_statuses(all, receivers@.take(i as int)),
        decreases receivers@.len() - i,
    {
        assert(receivers@.take(i + 1).drop_last() =~= receivers@.take(i as int));
        assert(receivers@.take(i + 1).last() == receivers@[i as int]);
        let receiver = &receivers[i];
        if let Some(at) = find_id(ids, receiver.thread_id.as_str()) {
            let ghost before = entries@;
            let entry = CollabAgentStatusEntry {
                thread_id: owned(receiver.thread_id.as_str()),
                agent_nickname: copy_text(&receiver.agent_nickname),
                agent_role: copy_text(&receiver.agent_role),
                status: at,
            };
            entries.push(entry);
            assert(status_models(entries@) =~= status_models(before).push(
                StatusModel {
                    thread_id: entry.thread_id@,
                    agent_nickname: text_of(entry.agent_nickname),
                    agent_role: text_of(entry.agent_role),
                    status: at,
                },
            ));
        }
        i += 1;
    }
    assert(receivers@.take(receivers@.len() as int) =~= receivers@);
    let mut extras: Vec<CollabAgentStatusEntry> = Vec::new();
    let mut k: usize = 0;
    assert(status_models(extras@) =~= Seq::<StatusModel>::empty());
    while k < ids.len()
        invariant
            k <= ids@.len(),
            all == texts(ids@),
            status_models(extras@) == other_statuses(all, receivers@, k as nat),
        decreases ids@.len() - k,
    {
        assert(all[k as int] == ids@[k as int]@);
        if !receives(receivers, ids[k].as_str()) {
            insert_extra(
                &mut extras,
                CollabAgentStatusEntry {
                    thread_id: owned(ids[k].as_str()),
                    agent_nickname: None,
                    agent_role: None,
                    status: k,
                },
            );
        }
        k += 1;
    }
    let ghost first = entries@;
    let ghost second = extras@;
    entries.append(&mut extras);
    assert(status_models(entries@) =~= status_models(first) + status_models(second));
    entries
}

/// What went wrong with an agent.
#[derive(Debug, PartialEq, Eq)]
pub enum AgentFailureKind {
    ThreadNotFound { id: String },
    InternalAgentDied,
    UnsupportedOperation { message: String },
    Other,
}

/// What went wrong with an agent, and how that is put in words.
#[derive(Debug, PartialEq, Eq)]
pub struct AgentFailure {
    pub kind: AgentFailureKind,
    pub shown: String,
}

/// What is said of an agent that could not be started.
pub open spec fn spawn_failure(err: AgentFailure) -> Seq<char> {
    match err.kind {
        AgentFailureKind::UnsupportedOperation { message } => if message@
            == "thread manager dropped"@ {
            "collab manager unavailable"@
        } else {
            message@
        },
        _ => "collab spawn failed: "@ + err.shown@,
    }
}

/// The error for an agent that could not be started.
pub fn collab_spawn_error(err: AgentFailure) -> (r: FunctionCallError)
    ensures
        r.says(spawn_failure(err)),
{
    match err.kind {
        AgentFailureKind::UnsupportedOperation { message } => if text_eq(
            message.as_str(),
            "thread manager dropped",
        ) {
            respond("collab manager unavailable")
        } else {
            FunctionCallError::RespondToModel(message)
        },
        _ => {
            let mut text = owned("collab spawn failed: ");
            text.append(err.shown.as_str());
            FunctionCallError::RespondToModel(text)
        },
    }
}

/// What is said of an agent that could not be reached.
pub open spec fn agent_failure(agent_id: Seq<char>, err: AgentFailure) -> Seq<char> {
    match err.kind {
        AgentFailureKind::ThreadNotFound { id } => "agent with id "@ + id@ + " not found"@,
        AgentFailureKind::InternalAgentDied => "agent with id "@ + agent_id + " is closed"@,
        AgentFailureKind::UnsupportedOperation { .. } => "collab manager unavailable"@,
        AgentFailureKind::Other => "collab tool failed: "@ + err.shown@,
    }
}

/// The error for an agent that could not be reached.
pub fn collab_agent_error(agent_id: &str, err: AgentFailure) -> (r: FunctionCallError)
    ensures
        r.says(agent_failure(agent_id@, err)),
{
    match err.kind {
        AgentFailureKind::ThreadNotFound { id } => {
            let mut text = owned("agent with id ");
            text.append(id.as_str());
            text.append(" not found");
            FunctionCallError::RespondToModel(text)
        },
        AgentFailureKind::InternalAgentDied => {
            let mut text = owned("agent with id ");
            text.append(agent_id);
            text.append(" is closed");
            FunctionCallError::RespondToModel(text)
        },
        AgentFailureKind::UnsupportedOperation { .. } => respond("collab manager unavailable"),
        AgentFailureKind::Other => {
            let mut text = owned("collab tool failed: ");
            text.append(err.shown.as_str());
            FunctionCallError::RespondToModel(text)
        },
    }
}

/// The time that is waited, within the limits.
pub fn wait_timeout_ms(timeout_ms: i64) -> (r: u64)
    ensures
        r == if timeout_ms < MIN_WAIT_TIMEOUT_MS {
            MIN_WAIT_TIMEOUT_MS as int
        } else if timeout_ms > MAX_WAIT_TIMEOUT_MS {
            MAX_WAIT_TIMEOUT_MS as int
        } else {
            timeout_ms as int
        },
{
    let clamped: i64 = if timeout_ms < MIN_WAIT_TIMEOUT_MS {
        MIN_WAIT_TIMEOUT_MS
    } else if timeout_ms > MAX_WAIT_TIMEOUT_MS {
        MAX_WAIT_TIMEOUT_MS
    } else {
        timeout_ms
    };
    clamped as u64
}

/// What is seen of an agent that is waited for.
#[derive(Clone, Copy, Debug, PartialEq, Eq, Structural)]
pub enum WatchEvent {
    /// Its status when the wait begins.
    Begun { is_final: bool },
    /// A new status.
    Changed { is_final: bool },
    /// Nobody reports on it any more; this is its latest status.
    Closed { latest_is_final: bool },
    /// It is time for a report, for which there is something new or not.
    Tick { summary_changed: bool },
}

/// What follows.
#[derive(Clone, Copy, Debug, PartialEq, Eq, Structural)]
pub enum WatchAction {
    /// The wait goes on.
    Wait,
    /// A report is sent, and the wait goes on.
    Report,
    /// A report is sent, and the wait ends with this status.
    ReportAndReturn,
    /// The wait ends with this status.
    Return,
    /// The wait ends without a status.
    GiveUp,
}

/// What follows for an agent whose progress is reported.
pub open spec fn watched_with_reports(event: WatchEvent) -> WatchAction {
    match event {
        WatchEvent::Begun { is_final } => if is_final {
            WatchAction::ReportAndReturn
        } else {
            WatchAction::Report
        },
        WatchEvent::Changed { is_final } => if is_final {
            WatchAction::Return
        } else {
            WatchAction::Wait
        },
        WatchEvent::Closed { latest_is_final } => if latest_is_final {
            WatchAction::Return
        } else {
            WatchAction::GiveUp
        },
        WatchEvent::Tick { summary_changed } => if summary_changed {
            WatchAction::Report
        } else {
            WatchAction::Wait
        },
    }
}

/// What follows for an agent that is only waited for.
pub open spec fn watched(event: WatchEvent) -> WatchAction {
    match event {
        WatchEvent::Begun { is_final } => if is_final {
            WatchAction::Return
        } else {
            WatchAction::Wait
        },
        WatchEvent::Tick { .. } => WatchAction::Wait,
        other => watched_with_reports(other),
    }
}

/// What follows for an agent that a blocking call has started: its progress is reported.
pub fn wait_for_blocking_spawn_step(event: WatchEvent) -> (r: WatchAction)
    ensures
        r == watched_with_reports(event),
{
    match event {
        WatchEvent::Begun { is_final } => if is_final {
            WatchAction::ReportAndReturn
        } else {
            WatchAction::Report
        },
        WatchEvent::Changed { is_final } => if is_final {
            WatchAction::Return
        } else {
            WatchAction::Wait
        },
        WatchEvent::Closed { latest_is_final } => if latest_is_final {
            WatchAction::Return
        } else {
            WatchAction::GiveUp
        },
        WatchEvent::Tick { summary_changed } => if summary_changed {
            WatchAction::Report
        } else {
            WatchAction::Wait
        },
    }
}

/// What follows for an agent that is only waited for.
pub fn wait_for_final_status_step(event: WatchEvent) -> (r: WatchAction)
    ensures
        r == watched(event),
{
    match event {
        WatchEvent::Begun { is_final } => if is_final {
            WatchAction::Return
        } else {
            WatchAction::Wait
        },
        WatchEvent::Tick { .. } => WatchAction::Wait,
        other => wait_for_blocking_spawn_step(other),
    }
}

/// A wait returns no status but a final one.
pub proof fn law_waits_end_with_a_final_status(event: WatchEvent)
    requires
        ({
            let action = watched_with_reports(event);
            let plain = watched(event);
            action == WatchAction::Return || action == WatchAction::ReportAndReturn || plain
                == WatchAction::Return
        }),
    ensures
        event == (WatchEvent::Begun { is_final: true }) || event == (WatchEvent::Changed {
            is_final: true,
        }) || event == (WatchEvent::Closed { latest_is_final: true }),
{
}

/// Whether the end of an agent that runs beside the turn is reported: where a status came of the
/// wait, and it is a final one.
pub fn reports_completion(is_final: Option<bool>) -> (r: bool)
    ensures
        r == (is_final == Some(true)),
{
    match is_final {
        Some(ended) => ended,
        None => false,
    }
}

/// Whether two summaries say the same.
pub open spec fn same_summary(
    a: Option<CollabAgentToolSummary>,
    b: Option<CollabAgentToolSummary>,
) -> bool {
    match (a, b) {
        (Some(x), Some(y)) => counts(x.tools@) == counts(y.tools@) && texts(x.output@) == texts(
            y.output@,
        ),
        (None, None) => true,
        _ => false,
    }
}

/// Whether a summary says something new.
pub fn summary_changed(
    summary: &Option<CollabAgentToolSummary>,
    last_summary: &Option<CollabAgentToolSummary>,
) -> (r: bool)
    ensures
        r == !same_summary(*summary, *last_summary),
{
    let (x, y) = match (summary, last_summary) {
        (Some(x), Some(y)) => (x, y),
        (None, None) => return false,
        _ => return true,
    };
    if x.tools.len() != y.tools.len() || x.output.len() != y.output.len() {
        proof {
            assert(counts(x.tools@).len() == x.tools@.len());
            assert(counts(y.tools@).len() == y.tools@.len());
            assert(texts(x.output@).len() == x.output@.len());
            assert(texts(y.output@).len() == y.output@.len());
        }
        return true;
    }
    let mut i: usize = 0;
    while i < x.tools.len()
        invariant
            i <= x.tools@.len() == y.tools@.len(),
            *summary == Some(*x),
            *last_summary == Some(*y),
            forall|j: int| 0 <= j < i ==> #[trigger] counts(x.tools@)[j] == counts(y.tools@)[j],
        decreases x.tools@.len() - i,
    {
        if x.tools[i].count != y.tools[i].count || !text_eq(
            x.tools[i].name.as_str(),
            y.tools[i].name.as_str(),
        ) {
            assert(counts(x.tools@)[i as int] != counts(y.tools@)[i as int]);
            return true;
        }
        i += 1;
    }
    assert(counts(x.tools@) =~= counts(y.tools@));
    let mut k: usize = 0;
    while k < x.output.len()
        invariant
            k <= x.output@.len() == y.output@.len(),
            *summary == Some(*x),
            *last_summary == Some(*y),
            forall|j: int| 0 <= j < k ==> #[trigger] texts(x.output@)[j] == texts(y.output@)[j],
        decreases x.output@.len() - k,
    {
        if !text_eq(x.output[k].as_str(), y.output[k].as_str()) {
            assert(texts(x.output@)[k as int] != texts(y.output@)[k as int]);
            return true;
        }
        k += 1;
    }
    assert(texts(x.output@) =~= texts(y.output@));
    false
}

/// What is sent to an agent.
#[derive(Debug, PartialEq, Eq)]
pub enum CollabInput<I> {
    Message(String),
    Items(Vec<I>),
}

/// Whether a text has nothing but white space.
pub open spec fn is_blank(text: Seq<char>) -> bool {
    forall|i: int| 0 <= i < text.len() ==> white_space(#[trigger] text[i])
}

/// Whether a text has nothing but white space.
pub fn blank(text: &str) -> (r: bool)
    ensures
        r == is_blank(text@),
{
    let chars = to_chars(text);
    let mut i: usize = 0;
    while i < chars.len()
        invariant
            i <= chars@.len(),
            chars@ == text@,
            forall|j: int| 0 <= j < i ==> white_space(#[trigger] chars@[j]),
        decreases chars@.len() - i,
    {
        if !chars[i].is_whitespace() {
            assert(!white_space(text@[i as int]));
            return false;
        }
        i += 1;
    }
    true
}

/// Reads what is sent to an agent: a message that says something, or items, but not both.
pub fn parse_collab_input<I>(message: Option<String>, items: Option<Vec<I>>) -> (r: Result<
    CollabInput<I>,
    FunctionCallError,
>)
    ensures
        match (message, items) {
            (Some(_), Some(_)) => r matches Err(error) && error.says(
                "Provide either message or items, but not both"@,
            ),
            (None, None) => r matches Err(error) && error.says(
                "Provide one of: message or items"@,
            ),
            (Some(text), None) => if is_blank(text@) {
                r matches Err(error) && error.says("Empty message can't be sent to an agent"@)
            } else {
                r == Ok::<CollabInput<I>, FunctionCallError>(CollabInput::Message(text))
            },
            (None, Some(list)) => if list@.len() == 0 {
                r matches Err(error) && error.says("Items can't be empty"@)
            } else {
                r == Ok::<CollabInput<I>, FunctionCallError>(CollabInput::Items(list))
            },
        },
{
    match (message, items) {
        (Some(_), Some(_)) => Err(respond("Provide either message or items, but not both")),
        (None, None) => Err(respond("Provide one of: message or items")),
        (Some(text), None) => {
            if blank(text.as_str()) {
                return Err(respond("Empty message can't be sent to an agent"));
            }
            Ok(CollabInput::Message(text))
        },
        (None, Some(list)) => {
            if list.len() == 0 {
                return Err(respond("Items can't be empty"));
            }
            Ok(CollabInput::Items(list))
        },
    }
}

/// Where an agent comes from that another one starts: `T` names the starting thread, and `A` is the
/// place of the new agent among the others.
#[derive(Debug, PartialEq, Eq)]
pub struct ThreadSpawn<T, A> {
    pub parent_thread_id: T,
    pub depth: i32,
    pub agent_path: Option<A>,
    pub agent_nickname: Option<String>,
    pub agent_role: Option<String>,
}

/// Names where a new agent comes from. `named` is its place below the starting agent where its task
/// has a name; a name that cannot stand there is refused.
pub fn thread_spawn_source<T, A>(
    parent_thread_id: T,
    depth: i32,
    agent_role: Option<&str>,
    named: Option<Result<A, String>>,
) -> (r: Result<ThreadSpawn<T, A>, FunctionCallError>)
    ensures
        match named {
            Some(Err(message)) => r matches Err(error) && error.says(message@),
            _ => {
                &&& r matches Ok(source)
                &&& source.parent_thread_id == parent_thread_id
                &&& source.depth == depth
                &&& source.agent_path == (match named {
                    Some(Ok(path)) => Some(path),
                    _ => None,
                })
                &&& source.agent_nickname is None
                &&& text_of(source.agent_role) == slice_of(agent_role)
            },
        },
{
    let agent_path = match named {
        Some(Ok(path)) => Some(path),
        Some(Err(message)) => return Err(FunctionCallError::RespondToModel(message)),
        None => None,
    };
    let agent_role = match agent_role {
        Some(role) => Some(owned(role)),
        None => None,
    };
    Ok(ThreadSpawn { parent_thread_id, depth, agent_path, agent_nickname: None, agent_role })
}

/// Refuses to give an agent that continues a whole history another type, model or effort.
pub fn reject_full_fork_spawn_overrides(
    agent_type: Option<&str>,
    model: Option<&str>,
    reasoning_effort: Option<&str>,
) -> (r: Result<(), FunctionCallError>)
    ensures
        agrees(
            r,
            if agent_type is Some || model is Some || reasoning_effort is Some {
                Err(
                    "Full-history forked agents inherit the parent agent type, model, and reasoning effort; omit agent_type, model, and reasoning_effort, or spawn without a full-history fork."@,
                )
            } else {
                Ok(())
            },
        ),
{
    if agent_type.is_some() || model.is_some() || reasoning_effort.is_some() {
        return Err(
            respond(
                "Full-history forked agents inherit the parent agent type, model, and reasoning effort; omit agent_type, model, and reasoning_effort, or spawn without a full-history fork.",
            ),
        );
    }
    Ok(())
}

/// What an agent starts with, as far as this is decided here. `T` is the rest of what the turn hands
/// on.
#[derive(Debug, PartialEq, Eq)]
pub struct AgentConfig<T> {
    pub model: Option<String>,
    pub model_reasoning_effort: Option<String>,
    pub base_instructions: Option<String>,
    pub developer_instructions: Option<String>,
    pub compact_prompt: Option<String>,
    pub spawn_csv_enabled: bool,
    pub collab_enabled: bool,
    pub handed_on: T,
}

/// What a turn has chosen.
#[derive(Debug, PartialEq, Eq)]
pub struct TurnChoices {
    pub model_slug: String,
    pub reasoning_effort: Option<String>,
    pub default_reasoning_level: Option<String>,
    pub developer_instructions: Option<String>,
    pub compact_prompt: Option<String>,
}

/// Whether `after` is `before` with what the turn has chosen.
pub open spec fn takes_over<T>(
    before: AgentConfig<T>,
    turn: TurnChoices,
    after: AgentConfig<T>,
) -> bool {
    &&& after.model == Some(turn.model_slug)
    &&& after.model_reasoning_effort == if turn.reasoning_effort is Some {
        turn.reasoning_effort
    } else {
        turn.default_reasoning_level
    }
    &&& after.developer_instructions == turn.developer_instructions
    &&& after.compact_prompt == turn.compact_prompt
    &&& after.handed_on == before.handed_on
}

fn build_agent_shared_config<T>(config: AgentConfig<T>, turn: TurnChoices) -> (r: AgentConfig<T>)
    ensures
        takes_over(config, turn, r),
        r.base_instructions == config.base_instructions,
        r.spawn_csv_enabled == config.spawn_csv_enabled,
        r.collab_enabled == config.collab_enabled,
{
    AgentConfig {
        model: Some(turn.model_slug),
        model_reasoning_effort: match turn.reasoning_effort {
            Some(effort) => Some(effort),
            None => turn.default_reasoning_level,
        },
        base_instructions: config.base_instructions,
        developer_instructions: turn.developer_instructions,
        compact_prompt: turn.compact_prompt,
        spawn_csv_enabled: config.spawn_csv_enabled,
        collab_enabled: config.collab_enabled,
        handed_on: config.handed_on,
    }
}

/// What a new agent starts with: what the turn has chosen, and the given instructions.
pub fn build_agent_spawn_config<T>(
    base_instructions: String,
    config: AgentConfig<T>,
    turn: TurnChoices,
) -> (r: AgentConfig<T>)
    ensures
        takes_over(config, turn, r),
        r.base_instructions == Some(base_instructions),
        r.spawn_csv_enabled == config.spawn_csv_enabled,
        r.collab_enabled == config.collab_enabled,
{
    let mut out = build_agent_shared_config(config, turn);
    out.base_instructions = Some(base_instructions);
    out
}

/// Whether an agent at this depth may start others.
pub open spec fn may_spawn(child_depth: i32, max_depth: i32, multi_agent_v2: bool) -> bool {
    child_depth < max_depth || multi_agent_v2
}

/// Keeps an agent that is too deep from starting others.
pub fn apply_spawn_agent_overrides<T>(
    config: AgentConfig<T>,
    child_depth: i32,
    max_depth: i32,
    multi_agent_v2: bool,
) -> (r: AgentConfig<T>)
    ensures
        r.model == config.model,
        r.model_reasoning_effort == config.model_reasoning_effort,
        r.base_instructions == config.base_instructions,
        r.developer_instructions == config.developer_instructions,
        r.compact_prompt == config.compact_prompt,
        r.handed_on == config.handed_on,
        r.spawn_csv_enabled == (config.spawn_csv_enabled && may_spawn(
            child_depth,
            max_depth,
            multi_agent_v2,
        )),
        r.collab_enabled == (config.collab_enabled && may_spawn(
            child_depth,
            max_depth,
            multi_agent_v2,
        )),
{
    let mut out = config;
    if child_depth >= max_depth && !multi_agent_v2 {
        out.spawn_csv_enabled = false;
        out.collab_enabled = false;
    }
    out
}

/// What a resumed agent starts with: what the turn has chosen, and the instructions that it had.
pub fn build_agent_resume_config<T>(
    config: AgentConfig<T>,
    turn: TurnChoices,
    child_depth: i32,
    max_depth: i32,
    multi_agent_v2: bool,
) -> (r: AgentConfig<T>)
    ensures
        takes_over(config, turn, r),
        r.base_instructions is None,
        r.spawn_csv_enabled == (config.spawn_csv_enabled && may_spawn(
            child_depth,
            max_depth,
            multi_agent_v2,
        )),
        r.collab_enabled == (config.collab_enabled && may_spawn(
            child_depth,
            max_depth,
            multi_agent_v2,
        )),
{
    let shared = build_agent_shared_config(config, turn);
    let mut out = apply_spawn_agent_overrides(shared, child_depth, max_depth, multi_agent_v2);
    out.base_instructions = None;
    out
}

/// The error for a setting that a config does not take.
pub fn invalid_setting(name: &str, error: &str) -> (r: FunctionCallError)
    ensures
        r.says(name@ + " is invalid: "@ + error@),
{
    let mut text = owned(name);
    text.append(" is invalid: ");
    text.append(error);
    FunctionCallError::RespondToModel(text)
}

/// Whether a text is in a list.
pub open spec fn listed(list: Seq<String>, text: Seq<char>) -> bool {
    exists|i: int| 0 <= i < list.len() && (#[trigger] list[i])@ == text
}

fn is_listed(list: &[String], text: &str) -> (r: bool)
    ensures
        r == listed(list@, text@),
{
    let mut i: usize = 0;
    while i < list.len()
        invariant
            i <= list@.len(),
            forall|j: int| 0 <= j < i ==> (#[trigger] list@[j])@ != text@,
        decreases list@.len() - i,
    {
        if text_eq(list[i].as_str(), text) {
            return true;
        }
        i += 1;
    }
    false
}

/// The requested model, if it is available, or the message that names those that are.
pub open spec fn model_choice(available: Seq<String>, requested: Seq<char>) -> Result<
    Seq<char>,
    Seq<char>,
> {
    if listed(available, requested) {
        Ok(requested)
    } else {
        Err(
            "Unknown model `"@ + requested + "` for spawn_agent. Available models: "@ + joined(
                texts(available),
                ", "@,
            ),
        )
    }
}

/// Finds the requested model among those that are available.
pub fn find_spawn_agent_model_name(available: &[String], requested: &str) -> (r: Result<
    String,
    FunctionCallError,
>)
    ensures
        match model_choice(available@, requested@) {
            Ok(name) => r matches Ok(got) && got@ == name,
            Err(message) => r matches Err(error) && error.says(message),
        },
{
    if is_listed(available, requested) {
        return Ok(owned(requested));
    }
    let mut text = owned("Unknown model `");
    text.append(requested);
    text.append("` for spawn_agent. Available models: ");
    text.append(join(available, ", ").as_str());
    Err(FunctionCallError::RespondToModel(text))
}

/// Whether a model supports an effort, or the message that names those that it does.
pub open spec fn effort_choice(
    model: Seq<char>,
    supported: Seq<String>,
    requested: Seq<char>,
) -> Result<(), Seq<char>> {
    if listed(supported, requested) {
        Ok(())
    } else {
        Err(
            "Reasoning effort `"@ + requested + "` is not supported for model `"@ + model
                + "`. Supported reasoning efforts: "@ + joined(texts(supported), ", "@),
        )
    }
}

/// Refuses an effort that the model does not support.
pub fn validate_spawn_agent_reasoning_effort(
    model: &str,
    supported: &[String],
    requested: &str,
) -> (r: Result<(), FunctionCallError>)
    ensures
        agrees(r, effort_choice(model@, supported@, requested@)),
{
    if is_listed(supported, requested) {
        return Ok(());
    }
    let mut text = owned("Reasoning effort `");
    text.append(requested);
    text.append("` is not supported for model `");
    text.append(model);
    text.append("`. Supported reasoning efforts: ");
    text.append(join(supported, ", ").as_str());
    Err(FunctionCallError::RespondToModel(text))
}

/// What a request for another model or effort needs first.
#[derive(Clone, Copy, Debug, PartialEq, Eq, Structural)]
pub enum OverrideStep {
    /// Nothing: there is no such request.
    Keep,
    /// The models that are available.
    ListModels,
    /// What the turn's own model supports.
    CheckEffort,
}

/// Decides what a request for another model or effort needs first.
pub fn begin_model_override(has_model: bool, has_effort: bool) -> (r: OverrideStep)
    ensures
        r == if has_model {
            OverrideStep::ListModels
        } else if has_effort {
            OverrideStep::CheckEffort
        } else {
            OverrideStep::Keep
        },
{
    if has_model {
        OverrideStep::ListModels
    } else if has_effort {
        OverrideStep::CheckEffort
    } else {
        OverrideStep::Keep
    }
}

/// Gives an agent the chosen model, with the requested effort or the one that the model starts with.
pub fn apply_model_override<T>(
    config: AgentConfig<T>,
    model: String,
    supported: &[String],
    default_effort: Option<String>,
    requested_effort: Option<String>,
) -> (r: Result<AgentConfig<T>, FunctionCallError>)
    ensures
        match requested_effort {
            Some(effort) => match effort_choice(model@, supported@, effort@) {
                Ok(_) => {
                    &&& r matches Ok(after)
                    &&& after == (AgentConfig {
                        model: Some(model),
                        model_reasoning_effort: Some(effort),
                        ..config
                    })
                },
                Err(message) => r matches Err(error) && error.says(message),
            },
            None => {
                &&& r matches Ok(after)
                &&& after == (AgentConfig {
                    model: Some(model),
                    model_reasoning_effort: default_effort,
                    ..config
                })
            },
        },
{
    let mut out = config;
    match requested_effort {
        Some(effort) => {
            match validate_spawn_agent_reasoning_effort(
                model.as_str(),
                supported,
                effort.as_str(),
            ) {
                Ok(_) => {},
                Err(error) => return Err(error),
            }
            out.model = Some(model);
            out.model_reasoning_effort = Some(effort);
        },
        None => {
            out.model = Some(model);
            out.model_reasoning_effort = default_effort;
        },
    }
    Ok(out)
}

/// Gives an agent the requested effort with the turn's own model.
pub fn apply_effort_override<T>(
    config: AgentConfig<T>,
    model_slug: &str,
    supported: &[String],
    effort: String,
) -> (r: Result<AgentConfig<T>, FunctionCallError>)
    ensures
        match effort_choice(model_slug@, supported@, effort@) {
            Ok(_) => {
                &&& r matches Ok(after)
                &&& after == (AgentConfig { model_reasoning_effort: Some(effort), ..config })
            },
            Err(message) => r matches Err(error) && error.says(message),
        },
{
    match validate_spawn_agent_reasoning_effort(model_slug, supported, effort.as_str()) {
        Ok(_) => {},
        Err(error) => return Err(error),
    }
    let mut out = config;
    out.model_reasoning_effort = Some(effort);
    Ok(out)
}

} // verus!
