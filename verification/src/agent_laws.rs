//! How agents are listed, watched and summed up.
use vstd::prelude::*;

use crate::agent_summary::{
    argument_shown, argument_text, begins_with, call_line, change_line, counted, counts, cut_short,
    initials_of, item_line, labelled, labelled_unless_empty, lines_added, lines_for, lines_removed,
    main_argument, output_of, place_of, shown_field, title, tool_label, tool_of, words_with,
    CollabAgentToolSummary, HistoryItem,
};
use crate::agents::{
    agent_failure, effort_choice, id_place, is_blank, is_receiver, may_spawn, model_choice,
    other_statuses, receiver_statuses, same_summary, spawn_failure, takes_over, watched,
    watched_with_reports, with_extra, AgentConfig, AgentFailure, AgentFailureKind, CollabAgentRef,
    StatusModel, TurnChoices, WatchAction, WatchEvent,
};
use crate::outside::{json_member, uppercase, Field};
use crate::schema::{lemma_text_less, text_less};
use crate::text::{decimal, joined, lines_of, text_of, texts, white_space};
use crate::text_laws::law_split_parts_are_read_back;

verus! {

/// Texts are ordered by the first characters in which they differ; one that goes on where the other ends comes
/// behind it.
pub proof fn law_texts_are_ordered(common: Seq<char>, a: Seq<char>, b: Seq<char>)
    ensures
        a.len() == 0 && b.len() > 0 ==> text_less(common + a, common + b),
        b.len() == 0 ==> !text_less(common + a, common + b),
        a.len() > 0 && b.len() > 0 && a[0] != b[0] ==> text_less(common + a, common + b) == (a[0]
            < b[0]),
    decreases common.len(),
{
    if common.len() == 0 {
        assert(common + a =~= a);
        assert(common + b =~= b);
    } else {
        law_texts_are_ordered(common.skip(1), a, b);
        assert((common + a).skip(1) =~= common.skip(1) + a);
        assert((common + b).skip(1) =~= common.skip(1) + b);
    }
}

proof fn lemma_id_place(ids: Seq<Seq<char>>, id: Seq<char>)
    ensures
        match id_place(ids, id) {
            Some(at) => 0 <= at < ids.len() && ids[at] == id && forall|i: int|
                0 <= i < at ==> #[trigger] ids[i] != id,
            None => !ids.contains(id),
        },
    decreases ids.len(),
{
    if ids.len() > 0 {
        let front = ids.drop_last();
        lemma_id_place(front, id);
        if ids.contains(id) {
            let i = choose|i: int| 0 <= i < ids.len() && ids[i] == id;
            if i < front.len() {
                assert(front[i] == id);
            }
        }
        if let Some(at) = id_place(ids, id) {
            assert forall|i: int| 0 <= i < at implies #[trigger] ids[i] != id by {
                if i < front.len() {
                    assert(front[i] == ids[i]);
                    assert(id_place(front, id) is None ==> front.contains(front[i]));
                }
            }
        }
    }
}

/// The status of an agent that a call is about: its id and names, and the place of its status among the known
/// ones.
pub open spec fn named_status(ids: Seq<Seq<char>>, receiver: CollabAgentRef) -> StatusModel {
    StatusModel {
        thread_id: receiver.thread_id@,
        agent_nickname: text_of(receiver.agent_nickname),
        agent_role: text_of(receiver.agent_role),
        status: id_place(ids, receiver.thread_id@)->0 as usize,
    }
}

/// The agents that a call is about are listed in its order, each whose status is known, with its names and
/// that status.
pub proof fn law_receivers_are_listed(ids: Seq<Seq<char>>, receivers: Seq<CollabAgentRef>)
    ensures
        receiver_statuses(ids, receivers) == receivers.filter(
            |r: CollabAgentRef| ids.contains(r.thread_id@),
        ).map_values(|r: CollabAgentRef| named_status(ids, r)),
        forall|r: CollabAgentRef|
            ids.contains(r.thread_id@) && ids.len() <= usize::MAX ==> (#[trigger] named_status(
                ids,
                r,
            )).status < ids.len() && ids[named_status(ids, r).status as int] == r.thread_id@,
    decreases receivers.len(),
{
    reveal(Seq::filter);
    let pred = |r: CollabAgentRef| ids.contains(r.thread_id@);
    let entry = |r: CollabAgentRef| named_status(ids, r);
    assert forall|r: CollabAgentRef|
        ids.contains(r.thread_id@) && ids.len() <= usize::MAX implies (#[trigger] named_status(
        ids,
        r,
    )).status < ids.len() && ids[named_status(ids, r).status as int] == r.thread_id@ by {
        lemma_id_place(ids, r.thread_id@);
    }
    if receivers.len() > 0 {
        law_receivers_are_listed(ids, receivers.drop_last());
        lemma_id_place(ids, receivers.last().thread_id@);
        let front = receivers.drop_last().filter(pred);
        assert(front.push(receivers.last()).map_values(entry) =~= front.map_values(entry).push(
            named_status(ids, receivers.last()),
        ));
        if let Some(at) = id_place(ids, receivers.last().thread_id@) {
            assert(ids.contains(ids[at]));
        }
    } else {
        assert(receiver_statuses(ids, receivers) =~= receivers.filter(pred).map_values(entry));
    }
}

/// Whether statuses are in the order of their ids.
pub open spec fn ids_ascend(list: Seq<StatusModel>) -> bool {
    forall|i: int, j: int|
        0 <= i < j < list.len() ==> !text_less((#[trigger] list[j]).thread_id, (
        #[trigger] list[i]).thread_id)
}

proof fn lemma_with_extra(sorted: Seq<StatusModel>, extra: StatusModel)
    requires
        ids_ascend(sorted),
    ensures
        ids_ascend(with_extra(sorted, extra)),
        with_extra(sorted, extra).len() == sorted.len() + 1,
        with_extra(sorted, extra).to_multiset() == sorted.to_multiset().insert(extra),
        forall|i: int|
            0 <= i < with_extra(sorted, extra).len() ==> (#[trigger] with_extra(sorted, extra)[i])
                == extra || sorted.contains(with_extra(sorted, extra)[i]),
        with_extra(sorted, extra).contains(extra),
        forall|i: int|
            0 <= i < sorted.len() ==> with_extra(sorted, extra).contains(#[trigger] sorted[i]),
    decreases sorted.len(),
{
    broadcast use vstd::seq_lib::group_to_multiset_ensures;

    let all = with_extra(sorted, extra);
    if sorted.len() == 0 || !text_less(extra.thread_id, sorted.last().thread_id) {
        assert(all[sorted.len() as int] == extra);
        assert forall|i: int| 0 <= i < sorted.len() implies all.contains(#[trigger] sorted[i]) by {
            assert(all[i] == sorted[i]);
        }
        assert forall|i: int, j: int| 0 <= i < j < all.len() implies !text_less(
            (#[trigger] all[j]).thread_id,
            (#[trigger] all[i]).thread_id,
        ) by {
            if j == sorted.len() {
                let last = sorted[sorted.len() - 1].thread_id;
                if i < sorted.len() - 1 {
                    assert(!text_less(last, sorted[i].thread_id));
                }
                lemma_text_less(extra.thread_id, sorted[i].thread_id, last);
                lemma_text_less(sorted[i].thread_id, last, extra.thread_id);
            } else {
                assert(all[i] == sorted[i] && all[j] == sorted[j]);
            }
        }
    } else {
        let front = sorted.drop_last();
        let last = sorted.last();
        assert(ids_ascend(front)) by {
            assert forall|i: int, j: int| 0 <= i < j < front.len() implies !text_less(
                (#[trigger] front[j]).thread_id,
                (#[trigger] front[i]).thread_id,
            ) by {
                assert(front[i] == sorted[i] && front[j] == sorted[j]);
            }
        }
        lemma_with_extra(front, extra);
        let inner = with_extra(front, extra);
        assert(front.push(last) =~= sorted);
        assert(all.to_multiset() =~= sorted.to_multiset().insert(extra));
        assert forall|i: int| 0 <= i < inner.len() implies !text_less(
            last.thread_id,
            (#[trigger] inner[i]).thread_id,
        ) && (inner[i] == extra || sorted.contains(inner[i])) by {
            if inner[i] == extra {
                lemma_text_less(extra.thread_id, last.thread_id, extra.thread_id);
            } else {
                let k = choose|k: int| 0 <= k < front.len() && front[k] == inner[i];
                assert(sorted[k] == inner[i]);
                assert(!text_less(sorted[sorted.len() - 1].thread_id, sorted[k].thread_id));
            }
        }
        assert forall|i: int, j: int| 0 <= i < j < all.len() implies !text_less(
            (#[trigger] all[j]).thread_id,
            (#[trigger] all[i]).thread_id,
        ) by {
            assert(all[i] == inner[i]);
            if j < inner.len() {
                assert(all[j] == inner[j]);
            }
        }
        assert forall|i: int| 0 <= i < all.len() implies (#[trigger] all[i]) == extra
            || sorted.contains(all[i]) by {
            if i < inner.len() {
                assert(all[i] == inner[i]);
            } else {
                assert(all[i] == sorted[sorted.len() - 1]);
            }
        }
        let k = choose|k: int| 0 <= k < inner.len() && inner[k] == extra;
        assert(all[k] == extra);
        assert forall|i: int| 0 <= i < sorted.len() implies all.contains(#[trigger] sorted[i]) by {
            if i < front.len() {
                assert(front[i] == sorted[i]);
                assert(inner.contains(front[i]));
                let m = choose|m: int| 0 <= m < inner.len() && inner[m] == front[i];
                assert(all[m] == sorted[i]);
            } else {
                assert(all[inner.len() as int] == sorted[i]);
            }
        }
    }
}

/// The status of an agent that a call is not about.
pub open spec fn unnamed_status(ids: Seq<Seq<char>>, at: int) -> StatusModel {
    StatusModel {
        thread_id: ids[at],
        agent_nickname: None,
        agent_role: None,
        status: at as usize,
    }
}

/// The other agents whose status is known are listed in the order of their ids, all of them, each once and
/// without names.
pub proof fn law_other_agents_are_listed(
    ids: Seq<Seq<char>>,
    receivers: Seq<CollabAgentRef>,
    count: nat,
)
    requires
        count <= ids.len(),
    ensures
        ({
            let list = other_statuses(ids, receivers, count);
            &&& ids_ascend(list)
            &&& forall|at: int|
                0 <= at < count && !is_receiver(receivers, #[trigger] ids[at]) ==> list.contains(
                    unnamed_status(ids, at),
                )
            &&& forall|i: int|
                0 <= i < list.len() ==> exists|at: int|
                    {
                        &&& 0 <= at < count
                        &&& !is_receiver(receivers, #[trigger] ids[at])
                        &&& #[trigger] list[i] == unnamed_status(ids, at)
                    }
            &&& list.len() == ids.take(count as int).filter(
                |id: Seq<char>| !is_receiver(receivers, id),
            ).len()
        }),
    decreases count,
{
    reveal(Seq::filter);
    let list = other_statuses(ids, receivers, count);
    let pred = |id: Seq<char>| !is_receiver(receivers, id);
    if count > 0 {
        let last = (count - 1) as nat;
        law_other_agents_are_listed(ids, receivers, last);
        let before = other_statuses(ids, receivers, last);
        assert(ids.take(count as int).drop_last() =~= ids.take(last as int));
        assert(ids.take(count as int).last() == ids[last as int]);
        if !is_receiver(receivers, ids[last as int]) {
            let extra = unnamed_status(ids, last as int);
            lemma_with_extra(before, extra);
            assert(list == with_extra(before, extra));
            assert forall|at: int|
                0 <= at < count && !is_receiver(receivers, #[trigger] ids[at]) implies list.contains(
                unnamed_status(ids, at),
            ) by {
                if at < last {
                    assert(before.contains(unnamed_status(ids, at)));
                    let k = choose|k: int| 0 <= k < before.len() && before[k] == unnamed_status(ids, at);
                    assert(list.contains(before[k]));
                }
            }
            assert forall|i: int| 0 <= i < list.len() implies exists|at: int|
                {
                    &&& 0 <= at < count
                    &&& !is_receiver(receivers, #[trigger] ids[at])
                    &&& #[trigger] list[i] == unnamed_status(ids, at)
                } by {
                if list[i] == extra {
                    assert(!is_receiver(receivers, ids[last as int]));
                } else {
                    let k = choose|k: int| 0 <= k < before.len() && before[k] == list[i];
                    assert(before[k] == list[i]);
                    let at = choose|at: int|
                        {
                            &&& 0 <= at < last
                            &&& !is_receiver(receivers, #[trigger] ids[at])
                            &&& before[k] == unnamed_status(ids, at)
                        };
                    assert(!is_receiver(receivers, ids[at]));
                }
            }
        } else {
            assert forall|i: int| 0 <= i < list.len() implies exists|at: int|
                {
                    &&& 0 <= at < count
                    &&& !is_receiver(receivers, #[trigger] ids[at])
                    &&& #[trigger] list[i] == unnamed_status(ids, at)
                } by {
                let at = choose|at: int|
                    {
                        &&& 0 <= at < last
                        &&& !is_receiver(receivers, #[trigger] ids[at])
                        &&& before[i] == unnamed_status(ids, at)
                    };
                assert(!is_receiver(receivers, ids[at]));
            }
        }
    }
}

/// A wait ends with a status that is final, gives up where nobody reports any more and the latest status is
/// not, and goes on else.
pub proof fn law_wait_goes_on_until_the_end(is_final: bool, changed: bool)
    ensures
        watched(WatchEvent::Begun { is_final }) == if is_final {
            WatchAction::Return
        } else {
            WatchAction::Wait
        },
        watched(WatchEvent::Changed { is_final }) == if is_final {
            WatchAction::Return
        } else {
            WatchAction::Wait
        },
        watched(WatchEvent::Closed { latest_is_final: is_final }) == if is_final {
            WatchAction::Return
        } else {
            WatchAction::GiveUp
        },
        watched(WatchEvent::Tick { summary_changed: changed }) == WatchAction::Wait,
{
}

/// An agent whose progress is reported is reported on at the start and whenever there is something new; it is
/// waited for as any other.
pub proof fn law_progress_is_reported(is_final: bool, changed: bool)
    ensures
        watched_with_reports(WatchEvent::Begun { is_final }) == if is_final {
            WatchAction::ReportAndReturn
        } else {
            WatchAction::Report
        },
        watched_with_reports(WatchEvent::Changed { is_final }) == watched(
            WatchEvent::Changed { is_final },
        ),
        watched_with_reports(WatchEvent::Closed { latest_is_final: is_final }) == watched(
            WatchEvent::Closed { latest_is_final: is_final },
        ),
        watched_with_reports(WatchEvent::Tick { summary_changed: changed }) == if changed {
            WatchAction::Report
        } else {
            WatchAction::Wait
        },
{
}

/// What is said of an agent that could not be started or reached.
pub proof fn law_agent_failures_are_told(agent: Seq<char>, id: String, message: String, shown: String)
    ensures
        agent_failure(
            agent,
            (AgentFailure { kind: AgentFailureKind::ThreadNotFound { id }, shown }),
        ) == "agent with id "@ + id@ + " not found"@,
        agent_failure(agent, (AgentFailure { kind: AgentFailureKind::InternalAgentDied, shown }))
            == "agent with id "@ + agent + " is closed"@,
        agent_failure(
            agent,
            (AgentFailure { kind: AgentFailureKind::UnsupportedOperation { message }, shown }),
        ) == "collab manager unavailable"@,
        agent_failure(agent, (AgentFailure { kind: AgentFailureKind::Other, shown }))
            == "collab tool failed: "@ + shown@,
        spawn_failure(
            (AgentFailure { kind: AgentFailureKind::UnsupportedOperation { message }, shown }),
        ) == if message@ == "thread manager dropped"@ {
            "collab manager unavailable"@
        } else {
            message@
        },
        spawn_failure((AgentFailure { kind: AgentFailureKind::Other, shown }))
            == "collab spawn failed: "@ + shown@,
        spawn_failure((AgentFailure { kind: AgentFailureKind::InternalAgentDied, shown }))
            == "collab spawn failed: "@ + shown@,
        spawn_failure((AgentFailure { kind: AgentFailureKind::ThreadNotFound { id }, shown }))
            == "collab spawn failed: "@ + shown@,
{
}

/// A model or an effort can be asked for where it is offered, and only there.
pub proof fn law_only_offered_settings_are_taken(model: Seq<char>, offered: Seq<String>, asked: Seq<char>)
    ensures
        model_choice(offered, asked) is Ok <==> texts(offered).contains(asked),
        model_choice(offered, asked) matches Ok(name) ==> name == asked,
        effort_choice(model, offered, asked) is Ok <==> texts(offered).contains(asked),
{
    if texts(offered).contains(asked) {
        let i = choose|i: int| 0 <= i < texts(offered).len() && texts(offered)[i] == asked;
        assert(offered[i]@ == asked);
    }
    if model_choice(offered, asked) is Ok || effort_choice(model, offered, asked) is Ok {
        let i = choose|i: int| 0 <= i < offered.len() && (#[trigger] offered[i])@ == asked;
        assert(texts(offered)[i] == asked);
    }
}

/// An agent takes over what the turn has chosen; the turn's own effort goes before that of the model.
pub proof fn law_agent_takes_over_the_turn<T>(
    before: AgentConfig<T>,
    turn: TurnChoices,
    after: AgentConfig<T>,
)
    requires
        takes_over(before, turn, after),
    ensures
        after.model == Some(turn.model_slug),
        turn.reasoning_effort is Some ==> after.model_reasoning_effort == turn.reasoning_effort,
        turn.reasoning_effort is None ==> after.model_reasoning_effort
            == turn.default_reasoning_level,
        after.developer_instructions == turn.developer_instructions,
        after.compact_prompt == turn.compact_prompt,
        after.handed_on == before.handed_on,
{
}

/// An agent may start others below the greatest depth, and at any depth in the newer way.
pub proof fn law_depth_limits_spawning(child_depth: i32, max_depth: i32)
    ensures
        may_spawn(child_depth, max_depth, true),
        may_spawn(child_depth, max_depth, false) <==> child_depth < max_depth,
{
}

/// A value of up to eighty characters is shown as it is, a longer one by its first eighty and an ellipsis.
pub proof fn law_long_value_is_cut(value: Seq<char>)
    ensures
        value.len() <= 80 ==> cut_short(value) == value,
        value.len() > 80 ==> cut_short(value) == value.take(80) + "..."@,
{
}

/// A label stands alone, or before a detail with a space between; an empty detail is left out where that is
/// wanted.
pub proof fn law_labels(label: Seq<char>, detail: Seq<char>)
    ensures
        labelled(label, None) == label,
        labelled(label, Some(detail)) == label + " "@ + detail,
        labelled_unless_empty(label, None) == label,
        labelled_unless_empty(label, Some(detail)) == if detail.len() == 0 {
            label
        } else {
            label + " "@ + detail
        },
{
}

/// A word with its first character in uppercase.
pub open spec fn capitalized(word: Seq<char>) -> Seq<char> {
    uppercase(word[0]) + word.skip(1)
}

proof fn lemma_words(all: Seq<Seq<char>>, parts: Seq<Seq<char>>)
    requires
        parts == all.take(parts.len() as int),
        parts.len() <= all.len(),
    ensures
        words_with(initials_of(all), parts) == parts.filter(
            |p: Seq<char>| p.len() > 0,
        ).map_values(|p: Seq<char>| capitalized(p)),
    decreases parts.len(),
{
    reveal(Seq::filter);
    let pred = |p: Seq<char>| p.len() > 0;
    let shown = |p: Seq<char>| capitalized(p);
    if parts.len() > 0 {
        let front = parts.drop_last();
        assert(front =~= all.take(front.len() as int));
        lemma_words(all, front);
        assert(parts.last() == all[parts.len() - 1]);
        assert(initials_of(all)[parts.len() - 1] == if parts.last().len() == 0 {
            Seq::empty()
        } else {
            uppercase(parts.last()[0])
        });
        let kept = front.filter(pred);
        assert(kept.push(parts.last()).map_values(shown) =~= kept.map_values(shown).push(
            capitalized(parts.last()),
        ));
    } else {
        assert(words_with(initials_of(all), parts) =~= parts.filter(pred).map_values(shown));
    }
}

/// The title of a tool is made of the parts of its name between underscores, each with its first character in
/// uppercase, with a space between them.
pub proof fn law_title_is_made_of_words(parts: Seq<Seq<char>>)
    requires
        parts.len() > 0,
        forall|i: int| 0 <= i < parts.len() ==> !(#[trigger] parts[i]).contains('_'),
    ensures
        title(joined(parts, seq!['_'])) == joined(
            parts.filter(|p: Seq<char>| p.len() > 0).map_values(|p: Seq<char>| capitalized(p)),
            " "@,
        ),
{
    law_split_parts_are_read_back(parts, '_');
    assert(parts =~= parts.take(parts.len() as int));
    lemma_words(parts, parts);
}

/// The arguments that can sum up a call, from the one that says most.
pub open spec fn telling_keys() -> Seq<Seq<char>> {
    seq![
        "path"@,
        "dir_path"@,
        "cmd"@,
        "pattern"@,
        "query"@,
        "command"@,
        "message"@,
        "task_name"@,
    ]
}

/// A call is summed up by the first of its telling arguments that can be shown: a text, cut where it is long,
/// or a number or truth value.
pub proof fn law_first_telling_argument_is_shown(arguments: Seq<char>, at: int)
    ensures
        0 <= at < telling_keys().len() && argument_shown(arguments, telling_keys()[at]) is Some && (
        forall|i: int|
            0 <= i < at ==> argument_shown(arguments, #[trigger] telling_keys()[i]) is None)
            ==> main_argument(arguments) == argument_shown(arguments, telling_keys()[at]),
        (forall|i: int|
            0 <= i < telling_keys().len() ==> argument_shown(
                arguments,
                #[trigger] telling_keys()[i],
            ) is None) ==> main_argument(arguments) is None,
{
    let keys = telling_keys();
    assert(keys[0] == "path"@ && keys[1] == "dir_path"@ && keys[2] == "cmd"@ && keys[3]
        == "pattern"@ && keys[4] == "query"@ && keys[5] == "command"@ && keys[6] == "message"@
        && keys[7] == "task_name"@);
    assert(keys.len() == 8);
}

/// What is shown of an argument.
pub proof fn law_arguments_are_shown(arguments: Seq<char>, key: Seq<char>, text: Seq<char>)
    ensures
        shown_field(Some(Field::Text(text))) == Some(cut_short(text)),
        shown_field(Some(Field::Scalar(text))) == Some(text),
        shown_field(None) is None,
        argument_shown(arguments, key) == shown_field(json_member(arguments, key)),
        json_member(arguments, key) == Some(Field::Text(text)) ==> argument_text(arguments, key)
            == Some(text),
        !(json_member(arguments, key) matches Some(Field::Text(_))) ==> argument_text(
            arguments,
            key,
        ) is None,
{
}

/// Whether a line of a diff adds a line, and does not name a file.
pub open spec fn is_change(line: Seq<char>, mark: char) -> bool {
    line.len() > 0 && line[0] == mark && !(line.len() >= 3 && line[1] == mark && line[2] == mark)
}

/// A diff adds the lines behind a plus and removes those behind a minus, but for the lines that name files.
pub proof fn law_changed_lines_are_counted(diff: Seq<Seq<char>>)
    ensures
        lines_added(diff) == diff.filter(|l: Seq<char>| is_change(l, '+')).len(),
        lines_removed(diff) == diff.filter(|l: Seq<char>| is_change(l, '-')).len(),
    decreases diff.len(),
{
    reveal(Seq::filter);
    if diff.len() > 0 {
        law_changed_lines_are_counted(diff.drop_last());
        lemma_change(diff.last(), '+');
        lemma_change(diff.last(), '-');
    }
}

proof fn lemma_change(line: Seq<char>, mark: char)
    ensures
        is_change(line, mark) == (begins_with(line, mark, 1) && !begins_with(line, mark, 3)),
{
    if line.len() >= 3 && line[0] == mark && line[1] == mark && line[2] == mark {
        assert(begins_with(line, mark, 3));
    }
    if begins_with(line, mark, 3) {
        assert(line[0] == mark && line[1] == mark && line[2] == mark);
    }
    if line.len() > 0 && line[0] == mark {
        assert(begins_with(line, mark, 1));
    }
    if begins_with(line, mark, 1) {
        assert(line[0] == mark);
    }
}

/// A change of a file is shown with its path and the numbers of added and removed lines.
pub proof fn law_file_changes_are_shown(label: Seq<char>, path: Seq<char>, added: nat, removed: nat)
    ensures
        change_line(label, Some(path), added, removed) == label + " "@ + path + "(+"@ + decimal(
            added,
        ) + " -"@ + decimal(removed) + ")"@,
        change_line(label, None, added, removed) == label + " "@ + "file"@ + "(+"@ + decimal(added)
            + " -"@ + decimal(removed) + ")"@,
{
}

/// The output of a call is the last one under its id that can be shown.
pub proof fn law_last_output_is_taken(history: Seq<HistoryItem>, id: Seq<char>, at: int, text: String)
    ensures
        0 <= at < history.len() && (history[at] matches HistoryItem::ToolOutput {
            call_id,
            text: shown,
        } && call_id@ == id && shown == Some(text)) && (forall|i: int|
            at < i < history.len() ==> !(#[trigger] history[i] matches HistoryItem::ToolOutput {
                call_id,
                text: shown,
            } && call_id@ == id && shown is Some)) ==> output_of(history, id) == Some(text@),
        (forall|i: int|
            0 <= i < history.len() ==> !(#[trigger] history[i] matches HistoryItem::ToolOutput {
                call_id,
                text: shown,
            } && call_id@ == id && shown is Some)) ==> output_of(history, id) is None,
    decreases history.len(),
{
    if history.len() > 0 {
        let front = history.drop_last();
        law_last_output_is_taken(front, id, at, text);
        let last = history.len() - 1;
        assert(history[last] == history.last());
        assert forall|i: int| 0 <= i < front.len() implies front[i] == history[i] by {}
    }
}

/// Each item that uses a tool has a line, in the order of the history.
pub proof fn law_each_use_has_a_line(history: Seq<HistoryItem>, count: nat)
    requires
        count <= history.len(),
    ensures
        lines_for(history, count) == history.take(count as int).filter(
            |item: HistoryItem| tool_of(item) is Some,
        ).map_values(|item: HistoryItem| item_line(history, item)),
    decreases count,
{
    reveal(Seq::filter);
    let pred = |item: HistoryItem| tool_of(item) is Some;
    let line = |item: HistoryItem| item_line(history, item);
    let part = history.take(count as int);
    if count > 0 {
        let last = (count - 1) as nat;
        law_each_use_has_a_line(history, last);
        assert(part.drop_last() =~= history.take(last as int));
        assert(part.last() == history[last as int]);
        let front = part.drop_last().filter(pred);
        assert(front.push(part.last()).map_values(line) =~= front.map_values(line).push(
            item_line(history, part.last()),
        ));
    } else {
        assert(lines_for(history, count) =~= part.filter(pred).map_values(line));
    }
}

/// The tools are listed in the order of their first use: a later use adds to the number of a listed tool, or
/// a new tool at the end.
pub proof fn law_tools_are_listed_by_first_use(list: Seq<(Seq<char>, nat)>, name: Seq<char>, at: int)
    requires
        forall|i: int, j: int|
            0 <= i < j < list.len() ==> (#[trigger] list[i]).0 != (#[trigger] list[j]).0,
    ensures
        0 <= at < list.len() && list[at].0 == name ==> counted(list, name) == list.update(
            at,
            (name, list[at].1 + 1),
        ),
        (forall|i: int| 0 <= i < list.len() ==> (#[trigger] list[i]).0 != name) ==> counted(
            list,
            name,
        ) == list.push((name, 1nat)),
{
    lemma_first_place(list, name);
    if 0 <= at < list.len() && list[at].0 == name {
        let found = place_of(list, name)->0;
        if found < at {
            assert(list[found].0 != list[at].0);
        } else if at < found {
            assert(list[at].0 != list[found].0);
        }
    }
}

proof fn lemma_first_place(list: Seq<(Seq<char>, nat)>, name: Seq<char>)
    ensures
        match place_of(list, name) {
            Some(at) => 0 <= at < list.len() && list[at].0 == name,
            None => forall|i: int| 0 <= i < list.len() ==> (#[trigger] list[i]).0 != name,
        },
    decreases list.len(),
{
    if list.len() > 0 {
        let front = list.drop_last();
        lemma_first_place(front, name);
        assert forall|i: int| 0 <= i < front.len() implies front[i] == list[i] by {}
    }
}

/// Which tool an item uses, and which line it has.
pub proof fn law_items_name_their_tools(
    history: Seq<HistoryItem>,
    name: String,
    arguments: String,
    call_id: String,
    command: Vec<String>,
    text: Option<String>,
)
    ensures
        tool_of((HistoryItem::FunctionCall { name, arguments, call_id })) == Some(name@),
        tool_of((HistoryItem::CustomToolCall { name, input: arguments })) == Some(name@),
        tool_of((HistoryItem::ToolSearchCall { execution: name, arguments })) == Some(name@),
        tool_of((HistoryItem::LocalShellCall { command })) == Some("shell"@),
        tool_of(HistoryItem::WebSearchCall) == Some("web_search"@),
        tool_of(HistoryItem::ImageGenerationCall) == Some("image_generation"@),
        tool_of((HistoryItem::ToolOutput { call_id, text })) is None,
        tool_of(HistoryItem::Other) is None,
        item_line(history, (HistoryItem::FunctionCall { name, arguments, call_id })) == call_line(
            name@,
            arguments@,
            output_of(history, call_id@),
        ),
        item_line(history, (HistoryItem::CustomToolCall { name, input: arguments }))
            == labelled_unless_empty(tool_label(name@), Some(cut_short(arguments@))),
        item_line(history, (HistoryItem::ToolSearchCall { execution: name, arguments }))
            == labelled_unless_empty(tool_label(name@), main_argument(arguments@)),
        item_line(history, (HistoryItem::LocalShellCall { command })) == labelled_unless_empty(
            tool_label("shell"@),
            Some(cut_short(joined(texts(command@), " "@))),
        ),
        item_line(history, HistoryItem::WebSearchCall) == "Web Search"@,
        item_line(history, HistoryItem::ImageGenerationCall) == "Image Generation"@,
{
}

proof fn lemma_tool_names()
    ensures
        "read_file"@.len() == 9 && "read_file"@[0] == 'r',
        "grep_file"@.len() == 9 && "grep_file"@[0] == 'g' && "grep_file"@[1] == 'r',
        "glob_file"@.len() == 9 && "glob_file"@[0] == 'g' && "glob_file"@[1] == 'l',
        "search_file"@.len() == 11 && "search_file"@[0] == 's' && "search_file"@[1] == 'e',
        "write"@.len() == 5 && "write"@[0] == 'w',
        "shell"@.len() == 5 && "shell"@[0] == 's',
        "edit"@.len() == 4,
        "delete"@.len() == 6,
        "list_dir"@.len() == 8,
        "execute"@.len() == 7,
{
    reveal_strlit("read_file");
    reveal_strlit("grep_file");
    reveal_strlit("glob_file");
    reveal_strlit("search_file");
    reveal_strlit("write");
    reveal_strlit("shell");
    reveal_strlit("edit");
    reveal_strlit("delete");
    reveal_strlit("list_dir");
    reveal_strlit("execute");
}

/// The line of a call: reads, searches, deletes, listings and commands are shown with what they are about, and
/// edits and writes with the lines that they change.
pub proof fn law_calls_are_shown(arguments: Seq<char>, output: Option<Seq<char>>, name: Seq<char>)
    ensures
        call_line("read_file"@, arguments, output) == labelled(
            "Read"@,
            argument_text(arguments, "path"@),
        ),
        call_line("delete"@, arguments, output) == labelled(
            "Delete"@,
            argument_text(arguments, "path"@),
        ),
        call_line("list_dir"@, arguments, output) == labelled(
            "List"@,
            argument_text(arguments, "dir_path"@),
        ),
        call_line("execute"@, arguments, output) == labelled(
            "Execute"@,
            argument_text(arguments, "cmd"@),
        ),
        call_line("glob_file"@, arguments, output) == labelled(
            "Glob"@,
            argument_text(arguments, "pattern"@),
        ),
        name == "search_file"@ || name == "grep_file"@ ==> call_line(name, arguments, output)
            == labelled(
            "Search"@,
            match argument_text(arguments, "query"@) {
                Some(query) => Some(query),
                None => argument_text(arguments, "pattern"@),
            },
        ),
        output matches Some(diff) ==> call_line("edit"@, arguments, output) == change_line(
            "Edit"@,
            argument_text(arguments, "path"@),
            lines_added(lines_of(diff)),
            lines_removed(lines_of(diff)),
        ),
        output is None ==> call_line("edit"@, arguments, output) == change_line(
            "Edit"@,
            argument_text(arguments, "path"@),
            0,
            0,
        ),
        argument_text(arguments, "content"@) matches Some(content) ==> call_line(
            "write"@,
            arguments,
            output,
        ) == change_line("Write"@, argument_text(arguments, "path"@), lines_of(content).len(), 0),
        argument_text(arguments, "content"@) is None ==> call_line("write"@, arguments, output)
            == change_line("Write"@, argument_text(arguments, "path"@), 0, 0),
{
    lemma_tool_names();
}

/// The short names of the tools that have one.
pub proof fn law_tools_have_short_names()
    ensures
        tool_label("read_file"@) == "Read"@,
        tool_label("write"@) == "Write"@,
        tool_label("edit"@) == "Edit"@,
        tool_label("delete"@) == "Delete"@,
        tool_label("list_dir"@) == "List"@,
        tool_label("search_file"@) == "Search"@,
        tool_label("grep_file"@) == "Search"@,
        tool_label("glob_file"@) == "Glob"@,
        tool_label("execute"@) == "Execute"@,
        tool_label("shell"@) == "Execute"@,
{
    lemma_tool_names();
}

/// A message says nothing where all of it is white space.
pub proof fn law_blank_messages(text: Seq<char>, at: int)
    ensures
        0 <= at < text.len() && !white_space(text[at]) ==> !is_blank(text),
        (forall|i: int| 0 <= i < text.len() ==> white_space(#[trigger] text[i])) ==> is_blank(text),
{
}

/// A summary says something new where a tool, a number or a line differs, or where there was none.
pub proof fn law_new_summaries(a: CollabAgentToolSummary, b: CollabAgentToolSummary)
    ensures
        same_summary(None, None),
        !same_summary(Some(a), None) && !same_summary(None, Some(b)),
        same_summary(Some(a), Some(b)) ==> {
            &&& a.tools@.len() == b.tools@.len()
            &&& a.output@.len() == b.output@.len()
            &&& forall|i: int|
                0 <= i < a.tools@.len() ==> (#[trigger] a.tools@[i]).name@ == b.tools@[i].name@
                    && a.tools@[i].count == b.tools@[i].count
            &&& forall|i: int| 0 <= i < a.output@.len() ==> (#[trigger] a.output@[i])@ == b.output@[i]@
        },
        same_summary(Some(a), Some(a)),
{
    if same_summary(Some(a), Some(b)) {
        let x = counts(a.tools@);
        let y = counts(b.tools@);
        assert(x.len() == a.tools@.len() && y.len() == b.tools@.len());
        assert forall|i: int| 0 <= i < a.tools@.len() implies (#[trigger] a.tools@[i]).name@
            == b.tools@[i].name@ && a.tools@[i].count == b.tools@[i].count by {
            assert(x[i] == y[i]);
        }
        let v = texts(a.output@);
        let w = texts(b.output@);
        assert(v.len() == a.output@.len() && w.len() == b.output@.len());
        assert forall|i: int| 0 <= i < a.output@.len() implies (#[trigger] a.output@[i])@
            == b.output@[i]@ by {
            assert(v[i] == w[i]);
        }
    }
}

} // verus!
