//! What going back to an earlier message does: which message each key selects, what is asked for, and
//! what is left of the transcript.
use vstd::prelude::*;

use crate::backtrack::{
    after_cut, asking, chosen, closing, escaping, finished, left_by_pending, left_by_rollback,
    messages_of, opening, overlaid, passed_on, previewing, priming, realigning, selecting,
    stepping_back, stepping_forward, targets, BacktrackSelection, BacktrackState, Key, KeyPhase,
    Overlay, PendingBacktrackRollback, Screen, ScreenEvent, UiAction,
};
use crate::transcript::{
    agent_groups, cut_before, cut_last_turns, kinds, lemma_session_start, lemma_users_between,
    session_start, user_places, users_between, CellKind, TranscriptCell,
};

verus! {

/// Whether a cell is a message of the user in the current session: no session starts behind it.
pub open spec fn is_message(cells: Seq<CellKind>, at: int) -> bool {
    &&& 0 <= at < cells.len()
    &&& cells[at] is User
    &&& forall|j: int| at <= j < cells.len() ==> cells[j] != CellKind::SessionStart
}

/// Whether `places` are the messages of the user in the current session, in order.
pub open spec fn are_messages(cells: Seq<CellKind>, places: Seq<int>) -> bool {
    &&& forall|k: int| 0 <= k < places.len() ==> is_message(cells, #[trigger] places[k])
    &&& forall|k: int, l: int|
        0 <= k < l < places.len() ==> #[trigger] places[k] < #[trigger] places[l]
    &&& forall|at: int| #[trigger] is_message(cells, at) ==> places.contains(at)
}

proof fn lemma_users_are_listed(cells: Seq<CellKind>, from: int, to: int, at: int)
    requires
        0 <= from <= at < to <= cells.len(),
        cells[at] is User,
    ensures
        users_between(cells, from, to).contains(at),
    decreases to - from,
{
    let all = users_between(cells, from, to);
    if at == to - 1 {
        assert(all[all.len() - 1] == at);
    } else {
        lemma_users_are_listed(cells, from, to - 1, at);
        let before = users_between(cells, from, to - 1);
        let k = choose|k: int| 0 <= k < before.len() && before[k] == at;
        assert(all[k] == at);
    }
}

proof fn lemma_same_places(a: Seq<int>, b: Seq<int>, count: int)
    requires
        0 <= count <= a.len(),
        forall|k: int, l: int| 0 <= k < l < a.len() ==> #[trigger] a[k] < #[trigger] a[l],
        forall|k: int, l: int| 0 <= k < l < b.len() ==> #[trigger] b[k] < #[trigger] b[l],
        forall|x: int| #[trigger] a.contains(x) <==> b.contains(x),
    ensures
        count <= b.len(),
        a.take(count) == b.take(count),
    decreases count,
{
    if count > 0 {
        let at = count - 1;
        lemma_same_places(a, b, at);
        assert forall|i: int| 0 <= i < at implies a[i] == b[i] by {
            assert(a.take(at)[i] == b.take(at)[i]);
        }
        assert(a.contains(a[at]));
        let j = choose|j: int| 0 <= j < b.len() && b[j] == a[at];
        if j < at {
            assert(a[j] < a[at]);
        }
        assert(b.contains(b[at]));
        assert(a.contains(b[at]));
        let i = choose|i: int| 0 <= i < a.len() && a[i] == b[at];
        if i < at {
            assert(b[i] < b[at]);
        } else if i > at && j > at {
            assert(a[at] < a[i]);
            assert(b[at] < b[j]);
        }
        assert(a.take(count) =~= a.take(at).push(a[at]));
        assert(b.take(count) =~= b.take(at).push(b[at]));
    } else {
        assert(a.take(count) =~= b.take(count));
    }
}

/// The messages that can be gone back to are those of the user in the current session, all of them and
/// in order.
pub proof fn law_messages_are_those_of_the_session(cells: Seq<CellKind>, places: Seq<int>)
    ensures
        are_messages(cells, places) <==> places == user_places(cells),
        targets(cells) == user_places(cells).len(),
        targets(cells) <= cells.len(),
{
    let all = user_places(cells);
    let start = session_start(cells);
    lemma_session_start(cells);
    lemma_users_between(cells, start, cells.len() as int);
    assert forall|k: int| 0 <= k < all.len() implies is_message(cells, #[trigger] all[k]) by {
        assert(start <= all[k] < cells.len());
    }
    assert forall|at: int| #[trigger] is_message(cells, at) implies all.contains(at) by {
        if at < start {
            assert(cells[start - 1] == CellKind::SessionStart);
        }
        lemma_users_are_listed(cells, start, cells.len() as int, at);
    }
    assert(are_messages(cells, all));
    if are_messages(cells, places) {
        assert forall|x: int| #[trigger] places.contains(x) <==> all.contains(x) by {
            if places.contains(x) {
                let k = choose|k: int| 0 <= k < places.len() && places[k] == x;
                assert(is_message(cells, places[k]));
            }
            if all.contains(x) {
                let k = choose|k: int| 0 <= k < all.len() && all[k] == x;
                assert(is_message(cells, all[k]));
            }
        }
        lemma_same_places(places, all, places.len() as int);
        lemma_same_places(all, places, all.len() as int);
        assert(places.take(places.len() as int) =~= places);
        assert(all.take(all.len() as int) =~= all);
    }
}

/// The screen with this message selected and nothing else changed.
pub open spec fn with_selected(screen: Screen, nth: usize) -> Screen {
    Screen {
        backtrack: BacktrackState { nth_user_message: nth, ..screen.backtrack },
        ..screen
    }
}

/// Whether the actions show the selection of a message: it is highlighted where the transcript lies
/// open, and a frame is drawn.
pub open spec fn shows_selected(screen: Screen, at: int, actions: Seq<UiAction>) -> bool {
    if screen.overlay == Overlay::Transcript {
        actions == seq![
            UiAction::Highlight { cell: Some(at as usize) },
            UiAction::ScheduleFrame,
        ]
    } else {
        actions == seq![UiAction::ScheduleFrame]
    }
}

/// A step back selects the message right before the selected one, and a step forward the one right
/// behind it. The first stays selected at the one end and the last at the other. Where none is selected
/// a step selects the last, and so it does where the selected one is gone. A step changes nothing else,
/// and does nothing where there is no message.
pub proof fn law_steps_go_from_message_to_message(
    screen: Screen,
    cells: Seq<CellKind>,
    places: Seq<int>,
)
    requires
        are_messages(cells, places),
        cells.len() <= usize::MAX,
    ensures
        ({
            let nth = screen.backtrack.nth_user_message;
            let (back, back_actions) = stepping_back(screen, cells);
            let (forward, forward_actions) = stepping_forward(screen, cells);
            let last = places.len() - 1;
            if places.len() == 0 {
                &&& back == screen && back_actions.len() == 0
                &&& forward == screen && forward_actions.len() == 0
            } else {
                &&& back == with_selected(screen, back.backtrack.nth_user_message)
                &&& forward == with_selected(screen, forward.backtrack.nth_user_message)
                &&& shows_selected(
                    screen,
                    places[back.backtrack.nth_user_message as int],
                    back_actions,
                )
                &&& shows_selected(
                    screen,
                    places[forward.backtrack.nth_user_message as int],
                    forward_actions,
                )
                &&& 0 < nth < places.len() ==> back.backtrack.nth_user_message == nth - 1
                &&& nth == 0 ==> back.backtrack.nth_user_message == 0
                &&& nth >= places.len() ==> back.backtrack.nth_user_message == last
                &&& nth < last ==> forward.backtrack.nth_user_message == nth + 1
                &&& nth >= last ==> forward.backtrack.nth_user_message == last
            }
        }),
{
    law_messages_are_those_of_the_session(cells, places);
    let nth = screen.backtrack.nth_user_message;
    if places.len() > 0 {
        let back = stepping_back(screen, cells);
        let forward = stepping_forward(screen, cells);
        assert forall|k: int| 0 <= k < places.len() implies 0 <= #[trigger] places[k]
            < cells.len() by {
            assert(is_message(cells, places[k]));
        }
        assert(back.0 == with_selected(screen, back.0.backtrack.nth_user_message));
        assert(forward.0 == with_selected(screen, forward.0.backtrack.nth_user_message));
        let b = back.0.backtrack.nth_user_message as int;
        let f = forward.0.backtrack.nth_user_message as int;
        assert(0 <= b < places.len() && 0 <= f < places.len());
        assert(0 <= places[b] < cells.len() && 0 <= places[f] < cells.len());
        if screen.overlay == Overlay::Transcript {
            assert(back.1 =~= seq![
                UiAction::Highlight { cell: Some(places[b] as usize) },
                UiAction::ScheduleFrame,
            ]);
            assert(forward.1 =~= seq![
                UiAction::Highlight { cell: Some(places[f] as usize) },
                UiAction::ScheduleFrame,
            ]);
        } else {
            assert(back.1 =~= seq![UiAction::ScheduleFrame]);
            assert(forward.1 =~= seq![UiAction::ScheduleFrame]);
        }
    }
}

/// A step forward takes a step back back, and the other way round.
pub proof fn law_steps_undo_each_other(screen: Screen, cells: Seq<CellKind>, places: Seq<int>)
    requires
        are_messages(cells, places),
        cells.len() <= usize::MAX,
        screen.backtrack.nth_user_message < places.len(),
    ensures
        screen.backtrack.nth_user_message > 0 ==> stepping_forward(
            stepping_back(screen, cells).0,
            cells,
        ).0 == screen,
        screen.backtrack.nth_user_message + 1 < places.len() ==> stepping_back(
            stepping_forward(screen, cells).0,
            cells,
        ).0 == screen,
{
    law_steps_go_from_message_to_message(screen, cells, places);
    law_steps_go_from_message_to_message(stepping_back(screen, cells).0, cells, places);
    law_steps_go_from_message_to_message(stepping_forward(screen, cells).0, cells, places);
}

/// The screen after so many steps back.
pub open spec fn steps_back(screen: Screen, cells: Seq<CellKind>, steps: nat) -> Screen
    decreases steps,
{
    if steps == 0 {
        screen
    } else {
        stepping_back(steps_back(screen, cells, (steps - 1) as nat), cells).0
    }
}

/// Every message can be reached: so many steps back from a message select the one so many before it.
pub proof fn law_every_message_can_be_reached(
    screen: Screen,
    cells: Seq<CellKind>,
    places: Seq<int>,
    steps: nat,
)
    requires
        are_messages(cells, places),
        cells.len() <= usize::MAX,
        steps <= screen.backtrack.nth_user_message < places.len(),
    ensures
        steps_back(screen, cells, steps) == with_selected(
            screen,
            (screen.backtrack.nth_user_message - steps) as usize,
        ),
    decreases steps,
{
    if steps > 0 {
        law_every_message_can_be_reached(screen, cells, places, (steps - 1) as nat);
        law_steps_go_from_message_to_message(
            steps_back(screen, cells, (steps - 1) as nat),
            cells,
            places,
        );
    }
}

/// Esc does nothing while the composer holds something. On a screen with nothing open the first Esc
/// begins in the current thread, with nothing selected; the second opens the picker at the last message,
/// or says that there is none and ends. Esc in the picker ends it.
pub proof fn law_esc_leads_to_the_picker(screen: Screen, cells: Seq<CellKind>, places: Seq<int>)
    requires
        are_messages(cells, places),
        cells.len() <= usize::MAX,
    ensures
        ({
            let state = screen.backtrack;
            let (after, actions) = escaping(screen, cells);
            if !screen.composer_empty {
                after == screen && actions.len() == 0
            } else if state.picker_active {
                &&& !after.backtrack.picker_active && !after.backtrack.primed
                &&& after.backtrack.base_id is None
                &&& after.backtrack.nth_user_message == usize::MAX
                &&& after.backtrack.pending_rollback == state.pending_rollback
                &&& actions == seq![UiAction::ClearEscHint, UiAction::ScheduleFrame]
            } else if !state.primed {
                &&& after.backtrack.primed
                &&& after.backtrack.base_id == screen.thread_id
                &&& after.backtrack.nth_user_message == usize::MAX
                &&& !after.backtrack.picker_active
                &&& (actions.len() > 0 <==> places.len() > 0)
                &&& places.len() > 0 ==> actions == seq![UiAction::ShowEscHint]
            } else if screen.overlay == Overlay::Closed {
                if places.len() > 0 {
                    &&& after.backtrack.picker_active
                    &&& after.backtrack.nth_user_message == places.len() - 1
                    &&& after.backtrack.base_id == state.base_id
                    &&& actions == seq![UiAction::ClearEscHint, UiAction::ScheduleFrame]
                } else {
                    &&& !after.backtrack.picker_active && !after.backtrack.primed
                    &&& actions.contains(UiAction::NoPreviousMessage)
                }
            } else if state.overlay_preview_active {
                (after, actions) == stepping_back(screen, cells)
            } else {
                after == screen && actions.len() == 0
            }
        }),
{
    law_messages_are_those_of_the_session(cells, places);
    let state = screen.backtrack;
    if screen.composer_empty && !state.picker_active && state.primed && screen.overlay
        == Overlay::Closed {
        let (after, actions) = escaping(screen, cells);
        if places.len() > 0 {
            assert(is_message(cells, places[places.len() - 1]));
            assert(actions =~= seq![UiAction::ClearEscHint, UiAction::ScheduleFrame]);
        } else {
            assert(actions[1] == UiAction::NoPreviousMessage);
        }
    }
}

/// What a key does in the preview of the transcript: Esc and Left select the message before, Right the one
/// behind, and Enter closes the overlay and asks for the rollback to the selected message. A key that is
/// let go changes nothing.
pub proof fn law_keys_of_the_preview<C>(
    screen: Screen,
    cells: Seq<TranscriptCell<C>>,
    places: Seq<int>,
    key: Key,
    phase: KeyPhase,
)
    requires
        are_messages(kinds(cells), places),
        cells.len() <= usize::MAX,
        screen.backtrack.overlay_preview_active,
        screen.backtrack.base_id is Some,
        screen.overlay == Overlay::Transcript,
        screen.backtrack.nth_user_message < places.len(),
    ensures
        ({
            let nth = screen.backtrack.nth_user_message;
            let (after, actions) = overlaid(screen, cells, ScreenEvent::Key { key, phase });
            if phase == KeyPhase::Release {
                after == screen && actions == seq![UiAction::ForwardEvent]
            } else if key == Key::Esc || key == Key::Left {
                after == with_selected(
                    screen,
                    if nth == 0 {
                        0
                    } else {
                        (nth - 1) as usize
                    },
                )
            } else if key == Key::Right {
                after == with_selected(
                    screen,
                    if nth + 1 < places.len() {
                        (nth + 1) as usize
                    } else {
                        nth
                    },
                )
            } else if key == Key::Enter && phase == KeyPhase::Press {
                &&& after.overlay == Overlay::Closed
                &&& !after.backtrack.overlay_preview_active
                &&& screen.thread_id == screen.backtrack.base_id
                    && screen.backtrack.pending_rollback is None ==> {
                    &&& after.backtrack.pending_rollback == Some(
                        PendingBacktrackRollback {
                            nth_user_message: nth,
                            thread_id: screen.thread_id,
                        },
                    )
                    &&& places.len() - nth <= u32::MAX ==> actions.contains(
                        UiAction::SubmitRollback { num_turns: (places.len() - nth) as u32 },
                    )
                }
                &&& screen.thread_id != screen.backtrack.base_id
                    ==> after.backtrack.pending_rollback == screen.backtrack.pending_rollback
            } else {
                after == screen && actions == seq![UiAction::ForwardEvent]
            }
        }),
{
    let all = kinds(cells);
    law_steps_go_from_message_to_message(screen, all, places);
    law_messages_are_those_of_the_session(all, places);
    let nth = screen.backtrack.nth_user_message;
    if key == Key::Enter && phase == KeyPhase::Press && screen.thread_id
        == screen.backtrack.base_id && screen.backtrack.pending_rollback is None {
        let (after, actions) = closing(screen);
        let selection = chosen(screen, cells, nth)->0;
        let (last, more) = asking(after, all, selection);
        assert(more[0] is SubmitRollback);
        let whole = actions + more.push(UiAction::ScheduleFrame);
        assert(whole[actions.len() as int] == more[0]);
    }
}

/// A selection names its message: the cell in which it stands, and whether that cell has anything for the
/// composer. There is none in another thread than the one where going back began.
pub proof fn law_selection_names_its_message<C>(
    screen: Screen,
    cells: Seq<TranscriptCell<C>>,
    places: Seq<int>,
    nth: usize,
)
    requires
        are_messages(kinds(cells), places),
        cells.len() <= usize::MAX,
        nth < places.len(),
    ensures
        screen.thread_id is Some && screen.backtrack.base_id == screen.thread_id ==> {
            let at = places[nth as int];
            &&& chosen(screen, cells, nth) matches Some(selection)
            &&& selection.nth_user_message == nth
            &&& selection.cell == Some(at as usize)
            &&& cells[at].message@.len() > 0 ==> selection.fills_composer
            &&& cells[at].kind == (CellKind::User {
                has_text_elements: false,
                has_local_images: false,
                has_remote_images: false,
            }) && cells[at].message@.len() == 0 ==> !selection.fills_composer
            &&& cells[at].kind != (CellKind::User {
                has_text_elements: false,
                has_local_images: false,
                has_remote_images: false,
            }) ==> selection.fills_composer
        },
        screen.backtrack.base_id is None || screen.thread_id != screen.backtrack.base_id ==> chosen(
            screen,
            cells,
            nth,
        ) is None,
{
    law_messages_are_those_of_the_session(kinds(cells), places);
    assert(is_message(kinds(cells), places[nth as int]));
    assert(kinds(cells)[places[nth as int]] == cells[places[nth as int]].kind);
}

/// A rollback is asked for with the number of turns from the selected message to the last, and is
/// remembered with that message and the thread. The composer gets the message where there is one.
pub proof fn law_rollback_is_asked_for(
    screen: Screen,
    cells: Seq<CellKind>,
    places: Seq<int>,
    selection: BacktrackSelection,
)
    requires
        are_messages(cells, places),
        places.len() <= u32::MAX,
    ensures
        ({
            let nth = selection.nth_user_message;
            let (after, actions) = asking(screen, cells, selection);
            if places.len() > 0 && screen.backtrack.pending_rollback is Some {
                after == screen && actions == seq![UiAction::RollbackInProgress]
            } else if nth < places.len() {
                &&& after == (Screen {
                    backtrack: BacktrackState {
                        pending_rollback: Some(
                            PendingBacktrackRollback {
                                nth_user_message: nth,
                                thread_id: screen.thread_id,
                            },
                        ),
                        ..screen.backtrack
                    },
                    ..screen
                })
                &&& actions[0] == (UiAction::SubmitRollback {
                    num_turns: (places.len() - nth) as u32,
                })
                &&& (actions.contains(UiAction::SetComposer) <==> selection.fills_composer)
            } else {
                after == screen && actions.len() == 0
            }
        }),
{
    law_messages_are_those_of_the_session(cells, places);
    let (after, actions) = asking(screen, cells, selection);
    if selection.nth_user_message < places.len() && screen.backtrack.pending_rollback is None {
        if selection.fills_composer {
            assert(actions[2] == UiAction::SetComposer);
        }
    }
}

/// What a rollback leaves of the transcript: all cells before the message that was gone back to, where it
/// was asked for here and in this thread; all cells before the last turns, or before the first of them
/// where there are fewer, where it was not.
pub proof fn law_rollback_leaves_what_was_before(
    screen: Screen,
    cells: Seq<CellKind>,
    places: Seq<int>,
    nth: usize,
    num_turns: u32,
)
    requires
        are_messages(cells, places),
        nth != usize::MAX,
    ensures
        screen.backtrack.pending_rollback == Some(
            PendingBacktrackRollback { nth_user_message: nth, thread_id: screen.thread_id },
        ) ==> left_by_pending(screen, cells) == if nth < places.len() {
            places[nth as int]
        } else {
            cells.len() as int
        },
        screen.backtrack.pending_rollback matches Some(pending) && pending.thread_id
            != screen.thread_id ==> left_by_pending(screen, cells) == cells.len(),
        screen.backtrack.pending_rollback is None ==> left_by_pending(screen, cells) == cells.len(),
        left_by_rollback(cells, num_turns) == if num_turns == 0 || places.len() == 0 {
            cells.len() as int
        } else if num_turns < places.len() {
            places[places.len() - num_turns]
        } else {
            places[0]
        },
{
    law_messages_are_those_of_the_session(cells, places);
}

/// What follows a cut: the scrollback is drawn anew, the copy history keeps as many turns as are left,
/// waiting lines are dropped, and a preview stays at a message that is left, the same one if it is.
pub proof fn law_screen_follows_a_cut(screen: Screen, cells: Seq<CellKind>, places: Seq<int>)
    requires
        are_messages(cells, places),
        cells.len() <= usize::MAX,
    ensures
        ({
            let nth = screen.backtrack.nth_user_message;
            let (after, actions) = after_cut(screen, cells);
            &&& after.render_pending && !after.has_deferred_lines
            &&& after.overlay == screen.overlay
            &&& actions[0] == (UiAction::TruncateCopyHistory { user_turns: places.len() as usize })
            &&& actions.last() == UiAction::ClearDeferredLines
            &&& screen.overlay == Overlay::Transcript ==> actions[1] == UiAction::ReplaceCells
            &&& !screen.backtrack.overlay_preview_active ==> after.backtrack == screen.backtrack
            &&& screen.backtrack.overlay_preview_active ==> after.backtrack.nth_user_message
                == if places.len() == 0 {
                usize::MAX
            } else if nth < places.len() {
                nth
            } else {
                (places.len() - 1) as usize
            }
        }),
{
    law_messages_are_those_of_the_session(cells, places);
    if places.len() > 0 {
        assert(is_message(cells, places[places.len() - 1]));
    }
}

proof fn lemma_start_of_session(front: Seq<CellKind>, tail: Seq<CellKind>)
    requires
        front.len() == 0 || front.last() == CellKind::SessionStart,
        forall|i: int| 0 <= i < tail.len() ==> #[trigger] tail[i] != CellKind::SessionStart,
    ensures
        session_start(front + tail) == front.len(),
    decreases tail.len(),
{
    let cells = front + tail;
    if tail.len() > 0 {
        assert(cells.last() == tail[tail.len() - 1]);
        assert(cells.drop_last() =~= front + tail.drop_last());
        assert forall|i: int| 0 <= i < tail.drop_last().len() implies #[trigger] tail.drop_last()[i]
            != CellKind::SessionStart by {
            assert(tail.drop_last()[i] == tail[i]);
        }
        lemma_start_of_session(front, tail.drop_last());
    } else {
        assert(cells =~= front);
    }
}

proof fn lemma_agent_groups(cells: Seq<CellKind>, from: int, to: int)
    requires
        0 <= from <= to <= cells.len(),
    ensures
        agent_groups(cells, from, to) == cells.subrange(from, to).filter(
            |c: CellKind| c == (CellKind::Agent { continuation: false }),
        ).len(),
    decreases to - from,
{
    reveal(Seq::filter);
    if from < to {
        lemma_agent_groups(cells, from, to - 1);
        assert(cells.subrange(from, to).drop_last() =~= cells.subrange(from, to - 1));
        assert(cells.subrange(from, to).last() == cells[to - 1]);
    }
}

/// A session begins behind the last cell that starts one. The messages of the agent in it are counted
/// without their continuations.
pub proof fn law_agent_messages_are_counted(front: Seq<CellKind>, tail: Seq<CellKind>)
    requires
        front.len() == 0 || front.last() == CellKind::SessionStart,
        forall|i: int| 0 <= i < tail.len() ==> #[trigger] tail[i] != CellKind::SessionStart,
    ensures
        ({
            let cells = front + tail;
            &&& session_start(cells) == front.len()
            &&& agent_groups(cells, session_start(cells), cells.len() as int) == tail.filter(
                |c: CellKind| c == (CellKind::Agent { continuation: false }),
            ).len()
        }),
{
    let cells = front + tail;
    lemma_start_of_session(front, tail);
    lemma_agent_groups(cells, front.len() as int, cells.len() as int);
    assert(cells.subrange(front.len() as int, cells.len() as int) =~= tail);
}

/// Where the transcript is cut: before the message of the given number, and before the last turns of the given
/// number.
pub proof fn law_cuts_stand_before_messages(cells: Seq<CellKind>, places: Seq<int>, nth: usize, turns: u32)
    requires
        are_messages(cells, places),
        nth < usize::MAX,
    ensures
        cut_before(cells, nth) == if nth < places.len() {
            places[nth as int]
        } else {
            cells.len() as int
        },
        cut_before(cells, usize::MAX) == cells.len(),
        cut_last_turns(cells, turns) == if turns == 0 || places.len() == 0 {
            cells.len() as int
        } else if turns < places.len() {
            places[places.len() - turns]
        } else {
            places[0]
        },
{
    law_messages_are_those_of_the_session(cells, places);
}

/// A message is selected by its number, counted from 0; a number without a message selects none. Where the
/// transcript lies open the selected message is highlighted. Nothing else changes.
pub proof fn law_message_is_selected(
    screen: Screen,
    cells: Seq<CellKind>,
    places: Seq<int>,
    nth: usize,
)
    requires
        are_messages(cells, places),
        cells.len() <= usize::MAX,
    ensures
        ({
            let (after, actions) = selecting(screen, cells, nth);
            &&& nth < places.len() ==> after == with_selected(screen, nth)
            &&& nth >= places.len() ==> after == with_selected(screen, usize::MAX)
            &&& screen.overlay == Overlay::Transcript && nth < places.len() ==> actions == seq![
                UiAction::Highlight { cell: Some(places[nth as int] as usize) },
            ]
            &&& screen.overlay == Overlay::Transcript && nth >= places.len() ==> actions == seq![
                UiAction::Highlight { cell: None },
            ]
            &&& screen.overlay != Overlay::Transcript ==> actions.len() == 0
        }),
{
    law_messages_are_those_of_the_session(cells, places);
}

/// Going back begins in the current thread with nothing selected. The picker opens at the last message, and
/// so does the preview, which begins in the current thread.
pub proof fn law_going_back_begins(screen: Screen, cells: Seq<CellKind>, places: Seq<int>)
    requires
        are_messages(cells, places),
        cells.len() <= usize::MAX,
        places.len() > 0,
    ensures
        priming(screen, cells).0 == (Screen {
            backtrack: BacktrackState {
                primed: true,
                nth_user_message: usize::MAX,
                base_id: screen.thread_id,
                ..screen.backtrack
            },
            ..screen
        }),
        opening(screen, cells).0 == (Screen {
            backtrack: BacktrackState {
                picker_active: true,
                nth_user_message: (places.len() - 1) as usize,
                ..screen.backtrack
            },
            ..screen
        }),
        previewing(screen, cells).0 == (Screen {
            backtrack: BacktrackState {
                primed: true,
                base_id: screen.thread_id,
                overlay_preview_active: true,
                nth_user_message: (places.len() - 1) as usize,
                ..screen.backtrack
            },
            ..screen
        }),
        shows_selected(screen, places[places.len() - 1], previewing(screen, cells).1),
{
    law_messages_are_those_of_the_session(cells, places);
    assert(is_message(cells, places[places.len() - 1]));
    let actions = previewing(screen, cells).1;
    if screen.overlay == Overlay::Transcript {
        assert(actions =~= seq![
            UiAction::Highlight { cell: Some(places[places.len() - 1] as usize) },
            UiAction::ScheduleFrame,
        ]);
    } else {
        assert(actions =~= seq![UiAction::ScheduleFrame]);
    }
}

/// Without a message there is nothing to go back to: the picker does not open, the preview closes the
/// overlay, and both say so.
pub proof fn law_nothing_to_go_back_to(screen: Screen, cells: Seq<CellKind>)
    requires
        are_messages(cells, Seq::empty()),
    ensures
        !opening(screen, cells).0.backtrack.picker_active,
        !opening(screen, cells).0.backtrack.primed,
        opening(screen, cells).0.backtrack.nth_user_message == usize::MAX,
        opening(screen, cells).0.backtrack.pending_rollback == screen.backtrack.pending_rollback,
        opening(screen, cells).1 == seq![
            UiAction::ClearEscHint,
            UiAction::NoPreviousMessage,
            UiAction::ScheduleFrame,
        ],
        previewing(screen, cells).0 == closing(screen).0,
        previewing(screen, cells).0.overlay == Overlay::Closed,
        previewing(screen, cells).1 == closing(screen).1 + seq![
            UiAction::NoPreviousMessage,
            UiAction::ScheduleFrame,
        ],
        priming(screen, cells).1.len() == 0,
{
    law_messages_are_those_of_the_session(cells, Seq::empty());
}

/// When an overlay closes, the lines that waited for that are shown, and a preview ends with nothing
/// selected. A rollback that is under way stays.
pub proof fn law_overlay_closes(screen: Screen)
    ensures
        ({
            let (after, actions) = closing(screen);
            let before = screen.backtrack;
            &&& after.overlay == Overlay::Closed
            &&& !after.has_deferred_lines
            &&& after.thread_id == screen.thread_id
            &&& after.composer_empty == screen.composer_empty
            &&& after.render_pending == screen.render_pending
            &&& actions[0] == UiAction::LeaveAltScreen
            &&& actions.contains(UiAction::FlushDeferredLines) <==> screen.has_deferred_lines
            &&& actions.contains(UiAction::ClearEscHint) <==> before.overlay_preview_active
            &&& !before.overlay_preview_active ==> after.backtrack == before
            &&& before.overlay_preview_active ==> after.backtrack == (BacktrackState {
                primed: false,
                base_id: None,
                nth_user_message: usize::MAX,
                picker_active: false,
                overlay_preview_active: false,
                pending_rollback: before.pending_rollback,
            })
        }),
{
    let (after, actions) = closing(screen);
    if screen.has_deferred_lines {
        assert(actions[1] == UiAction::FlushDeferredLines);
    }
    if screen.backtrack.overlay_preview_active {
        assert(actions.last() == UiAction::ClearEscHint);
    }
}

/// Before a preview has begun, Esc begins it and any other event is passed on to the overlay: drawing and
/// resizing to the transcript, where that is open.
pub proof fn law_events_of_an_overlay<C>(
    screen: Screen,
    cells: Seq<TranscriptCell<C>>,
    event: ScreenEvent,
)
    requires
        !screen.backtrack.overlay_preview_active,
    ensures
        event == (ScreenEvent::Key { key: Key::Esc, phase: KeyPhase::Press }) || event == (
        ScreenEvent::Key { key: Key::Esc, phase: KeyPhase::Repeat }) ==> overlaid(
            screen,
            cells,
            event,
        ) == previewing(screen, kinds(cells)),
        !(event matches ScreenEvent::Key { key: Key::Esc, .. }) ==> overlaid(screen, cells, event)
            == (screen, passed_on(screen, event)),
        event == (ScreenEvent::Key { key: Key::Esc, phase: KeyPhase::Release }) ==> overlaid(
            screen,
            cells,
            event,
        ).0 == screen,
        screen.overlay == Overlay::Closed ==> passed_on(screen, event).len() == 0,
        screen.overlay == Overlay::Transcript && (event == ScreenEvent::Draw || event
            == ScreenEvent::Resize) ==> passed_on(screen, event) == seq![UiAction::DrawTranscript],
        screen.overlay != Overlay::Closed && event is Key ==> passed_on(screen, event) == seq![
            UiAction::ForwardEvent,
        ],
{
}

/// The messages to choose from are the texts of the user's messages, in order.
pub proof fn law_messages_to_choose_from<C>(cells: Seq<TranscriptCell<C>>, places: Seq<int>, i: int)
    requires
        are_messages(kinds(cells), places),
        0 <= i < places.len(),
    ensures
        messages_of(cells).len() == places.len(),
        messages_of(cells)[i] == cells[places[i]].message@,
{
    law_messages_are_those_of_the_session(kinds(cells), places);
}

/// When a rollback has succeeded none is under way any more. Where cells were cut off, the screen follows the
/// cut; else nothing is done.
pub proof fn law_rollback_is_over<C>(
    screen: Screen,
    before: Seq<TranscriptCell<C>>,
    after: Seq<TranscriptCell<C>>,
)
    ensures
        ({
            let done = Screen {
                backtrack: BacktrackState { pending_rollback: None, ..screen.backtrack },
                ..screen
            };
            &&& after.len() < before.len() ==> finished(screen, before, after) == after_cut(
                done,
                kinds(after),
            )
            &&& after.len() >= before.len() ==> finished(screen, before, after).0 == done
                && finished(screen, before, after).1.len() == 0
            &&& finished(screen, before, after).0.backtrack.pending_rollback is None
        }),
{
}

/// The overlay follows a cut as the screen does, but for drawing the scrollback anew.
pub proof fn law_overlay_follows_a_cut(screen: Screen, cells: Seq<CellKind>)
    ensures
        ({
            let (after, actions) = realigning(screen, cells);
            &&& after_cut(screen, cells).0 == (Screen { render_pending: true, ..after })
            &&& after.render_pending == screen.render_pending
            &&& after_cut(screen, cells).1.skip(1) == actions
        }),
{
    let (after, actions) = realigning(screen, cells);
    assert(after_cut(screen, cells).1.skip(1) =~= actions);
}

} // verus!
