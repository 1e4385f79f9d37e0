//! Going back to an earlier message of the user.
//!
//! The first Esc primes the screen, a second one opens the picker or, in the transcript overlay,
//! the preview. Enter asks for a rollback. The transcript is cut only once the rollback has
//! happened, and only in the thread that it was asked for.
//!
//! Each function changes the [`Screen`] and returns, in order, what is to be done outside.
use vstd::prelude::*;

use crate::picker::{backtrack_picker_lines, line_models, picker_lines, StyledLine};
use crate::text::texts;
use crate::transcript::{
    cut_before, cut_last_turns, has_backtrack_target, kinds, lemma_user_places, nth_user, nth_user_position,
    trim_transcript_cells_drop_last_n_user_turns, trim_transcript_cells_to_nth_user, user_count,
    user_messages, user_places, CellKind, TranscriptCell,
};

verus! {

/// Shown where there is no message to go back to.
pub const NO_PREVIOUS_MESSAGE_TO_EDIT: &'static str = "No previous message to edit.";

/// Shown where a rollback is asked for while another one is under way.
pub const ROLLBACK_IN_PROGRESS: &'static str = "Backtrack rollback already in progress.";

/// A rollback that was asked for and has not been answered.
#[derive(Clone, Copy, Debug, PartialEq, Eq)]
pub struct PendingBacktrackRollback {
    pub nth_user_message: usize,
    pub thread_id: Option<u128>,
}

/// The state of going back. `usize::MAX` stands for no selected message.
#[derive(Clone, Copy, Debug, PartialEq, Eq)]
pub struct BacktrackState {
    pub primed: bool,
    /// The thread that the selection belongs to.
    pub base_id: Option<u128>,
    /// The selected message, counted from the start of the session.
    pub nth_user_message: usize,
    pub picker_active: bool,
    pub overlay_preview_active: bool,
    pub pending_rollback: Option<PendingBacktrackRollback>,
}

impl Default for BacktrackState {
    fn default() -> (r: BacktrackState)
        ensures
            !r.primed,
            r.base_id is None,
            r.nth_user_message == 0,
            !r.picker_active,
            !r.overlay_preview_active,
            r.pending_rollback is None,
    {
        BacktrackState {
            primed: false,
            base_id: None,
            nth_user_message: 0,
            picker_active: false,
            overlay_preview_active: false,
            pending_rollback: None,
        }
    }
}

/// A message that can be gone back to: which it is, in which cell its content stands, and whether
/// that content fills the composer.
#[derive(Clone, Copy, Debug, PartialEq, Eq)]
pub struct BacktrackSelection {
    pub nth_user_message: usize,
    pub cell: Option<usize>,
    pub fills_composer: bool,
}

/// What lies over the main view.
#[derive(Clone, Copy, Debug, PartialEq, Eq, Structural)]
pub enum Overlay {
    Closed,
    Transcript,
    Other,
}

/// What the decisions read and change.
#[derive(Clone, Copy, Debug, PartialEq, Eq)]
pub struct Screen {
    pub backtrack: BacktrackState,
    pub overlay: Overlay,
    /// The current thread.
    pub thread_id: Option<u128>,
    pub composer_empty: bool,
    /// Whether lines wait for the overlay to close.
    pub has_deferred_lines: bool,
    /// Whether the scrollback has to be drawn anew.
    pub render_pending: bool,
}

/// Something to be done outside.
#[derive(Clone, Copy, Debug, PartialEq, Eq)]
pub enum UiAction {
    ScheduleFrame,
    ScheduleFrameIn { millis: u64 },
    EnterAltScreen,
    LeaveAltScreen,
    /// Open the overlay on the transcript's cells.
    OpenTranscript,
    /// Insert the lines that waited for the overlay to close.
    FlushDeferredLines,
    ShowEscHint,
    ClearEscHint,
    NoPreviousMessage,
    RollbackInProgress,
    SubmitRollback { num_turns: u32 },
    /// Put the selection's remote images, or none, into the composer.
    SetRemoteImages,
    /// Put the selection's text and its local images into the composer.
    SetComposer,
    Highlight { cell: Option<usize> },
    ForwardEvent,
    DrawTranscript,
    /// Give the overlay the transcript's cells.
    ReplaceCells,
    ClearDeferredLines,
    TruncateCopyHistory { user_turns: usize },
    SendApplyRollback { num_turns: u32 },
}

/// The keys that matter.
#[derive(Clone, Copy, Debug, PartialEq, Eq, Structural)]
pub enum Key {
    Esc,
    Left,
    Right,
    Enter,
    Other,
}

/// What is done with a key.
#[derive(Clone, Copy, Debug, PartialEq, Eq, Structural)]
pub enum KeyPhase {
    Press,
    Repeat,
    Release,
}

/// Something that happens on the screen.
#[derive(Clone, Copy, Debug, PartialEq, Eq, Structural)]
pub enum ScreenEvent {
    Key { key: Key, phase: KeyPhase },
    Draw,
    Resize,
    Other,
}

/// The screen afterwards, and what is to be done.
pub type Outcome = (Screen, Seq<UiAction>);

/// How many messages there are to go back to.
pub open spec fn targets(cells: Seq<CellKind>) -> nat {
    user_places(cells).len()
}

/// A state without anything selected or open. A rollback that is under way stays.
pub open spec fn reset(state: BacktrackState) -> BacktrackState {
    BacktrackState {
        primed: false,
        base_id: None,
        nth_user_message: usize::MAX,
        picker_active: false,
        overlay_preview_active: false,
        pending_rollback: state.pending_rollback,
    }
}

/// The screen with another state of going back.
pub open spec fn with_state(screen: Screen, state: BacktrackState) -> Screen {
    Screen { backtrack: state, ..screen }
}

/// Where message `nth` of the user stands.
pub open spec fn place(cells: Seq<CellKind>, nth: usize) -> Option<usize> {
    match nth_user(cells, nth as int) {
        Some(at) => Some(at as usize),
        None => None,
    }
}

/// Message `nth` is selected, if there is such a message, and highlighted in the transcript.
pub open spec fn selecting(screen: Screen, cells: Seq<CellKind>, nth: usize) -> Outcome {
    let at = place(cells, nth);
    let state = BacktrackState {
        nth_user_message: if at is Some {
            nth
        } else {
            usize::MAX
        },
        ..screen.backtrack
    };
    let actions = if screen.overlay == Overlay::Transcript {
        seq![UiAction::Highlight { cell: at }]
    } else {
        Seq::empty()
    };
    (with_state(screen, state), actions)
}

/// The message before the selected one, or the last where none is selected.
pub open spec fn older(nth: usize, count: nat) -> usize {
    if nth == usize::MAX {
        (count - 1) as usize
    } else if nth == 0 {
        0
    } else if nth - 1 < count - 1 {
        (nth - 1) as usize
    } else {
        (count - 1) as usize
    }
}

/// The message behind the selected one, or the last where there is none or none is selected.
pub open spec fn newer(nth: usize, count: nat) -> usize {
    if nth != usize::MAX && nth + 1 < count - 1 {
        (nth + 1) as usize
    } else {
        (count - 1) as usize
    }
}

/// Another message is selected, if there is any.
pub open spec fn stepping(screen: Screen, cells: Seq<CellKind>, next: usize) -> Outcome {
    if targets(cells) == 0 {
        (screen, Seq::empty())
    } else {
        let (after, actions) = selecting(screen, cells, next);
        (after, actions.push(UiAction::ScheduleFrame))
    }
}

/// The next older message is selected.
pub open spec fn stepping_back(screen: Screen, cells: Seq<CellKind>) -> Outcome {
    stepping(screen, cells, older(screen.backtrack.nth_user_message, targets(cells)))
}

/// The next newer message is selected.
pub open spec fn stepping_forward(screen: Screen, cells: Seq<CellKind>) -> Outcome {
    stepping(screen, cells, newer(screen.backtrack.nth_user_message, targets(cells)))
}

/// Going back is primed in the current thread, with a hint where there is a message to go back to.
pub open spec fn priming(screen: Screen, cells: Seq<CellKind>) -> Outcome {
    let state = BacktrackState {
        primed: true,
        nth_user_message: usize::MAX,
        base_id: screen.thread_id,
        ..screen.backtrack
    };
    let actions = if targets(cells) > 0 {
        seq![UiAction::ShowEscHint]
    } else {
        Seq::empty()
    };
    (with_state(screen, state), actions)
}

/// The picker opens at the latest message; without one the state is reset and that is said.
pub open spec fn opening(screen: Screen, cells: Seq<CellKind>) -> Outcome {
    if targets(cells) == 0 {
        (
            with_state(screen, reset(screen.backtrack)),
            seq![UiAction::ClearEscHint, UiAction::NoPreviousMessage, UiAction::ScheduleFrame],
        )
    } else {
        let state = BacktrackState { picker_active: true, ..screen.backtrack };
        let (after, actions) = selecting(
            with_state(screen, state),
            cells,
            (targets(cells) - 1) as usize,
        );
        (after, seq![UiAction::ClearEscHint] + actions.push(UiAction::ScheduleFrame))
    }
}

/// The overlay closes. What waited for that is shown, and a preview ends.
pub open spec fn closing(screen: Screen) -> Outcome {
    let previewed = screen.backtrack.overlay_preview_active;
    let after = Screen {
        backtrack: if previewed {
            reset(screen.backtrack)
        } else {
            screen.backtrack
        },
        overlay: Overlay::Closed,
        has_deferred_lines: false,
        ..screen
    };
    let flushed = if screen.has_deferred_lines {
        seq![UiAction::LeaveAltScreen, UiAction::FlushDeferredLines]
    } else {
        seq![UiAction::LeaveAltScreen]
    };
    let actions = if previewed {
        flushed.push(UiAction::ClearEscHint)
    } else {
        flushed
    };
    (after, actions)
}

/// The preview begins at the latest message; without one the overlay closes and that is said.
pub open spec fn previewing(screen: Screen, cells: Seq<CellKind>) -> Outcome {
    if targets(cells) == 0 {
        let (after, actions) = closing(screen);
        (after, actions + seq![UiAction::NoPreviousMessage, UiAction::ScheduleFrame])
    } else {
        let state = BacktrackState {
            primed: true,
            base_id: screen.thread_id,
            overlay_preview_active: true,
            ..screen.backtrack
        };
        let (after, actions) = selecting(
            with_state(screen, state),
            cells,
            (targets(cells) - 1) as usize,
        );
        (after, actions.push(UiAction::ScheduleFrame))
    }
}

/// What Esc does in the main view. It does nothing while the composer holds something.
pub open spec fn escaping(screen: Screen, cells: Seq<CellKind>) -> Outcome {
    let state = screen.backtrack;
    if !screen.composer_empty {
        (screen, Seq::empty())
    } else if state.picker_active {
        (with_state(screen, reset(state)), seq![UiAction::ClearEscHint, UiAction::ScheduleFrame])
    } else if !state.primed {
        priming(screen, cells)
    } else if screen.overlay == Overlay::Closed {
        opening(screen, cells)
    } else if state.overlay_preview_active {
        stepping_back(screen, cells)
    } else {
        (screen, Seq::empty())
    }
}

/// Who handles an event that is passed on to the overlay.
pub open spec fn passed_on(screen: Screen, event: ScreenEvent) -> Seq<UiAction> {
    if screen.overlay == Overlay::Closed {
        Seq::empty()
    } else if (event == ScreenEvent::Draw || event == ScreenEvent::Resize) && screen.overlay
        == Overlay::Transcript {
        seq![UiAction::DrawTranscript]
    } else {
        seq![UiAction::ForwardEvent]
    }
}

/// Whether a key goes down, or stays down.
pub open spec fn pressed(event: ScreenEvent, wanted: Key) -> bool {
    event matches ScreenEvent::Key { key, phase } && key == wanted && phase != KeyPhase::Release
}

/// What the content of a selection does: it asks for the rollback of the turns from the selected
/// message on, and fills the composer. It does so once: not while a rollback is under way.
pub open spec fn asking(
    screen: Screen,
    cells: Seq<CellKind>,
    selection: BacktrackSelection,
) -> Outcome {
    if targets(cells) == 0 {
        (screen, Seq::empty())
    } else if screen.backtrack.pending_rollback is Some {
        (screen, seq![UiAction::RollbackInProgress])
    } else if selection.nth_user_message >= targets(cells) {
        (screen, Seq::empty())
    } else {
        let turns = targets(cells) - selection.nth_user_message;
        let num_turns = if turns > u32::MAX {
            u32::MAX
        } else {
            turns as u32
        };
        let state = BacktrackState {
            pending_rollback: Some(
                PendingBacktrackRollback {
                    nth_user_message: selection.nth_user_message,
                    thread_id: screen.thread_id,
                },
            ),
            ..screen.backtrack
        };
        let actions = seq![UiAction::SubmitRollback { num_turns }, UiAction::SetRemoteImages];
        (
            with_state(screen, state),
            if selection.fills_composer {
                actions.push(UiAction::SetComposer)
            } else {
                actions
            },
        )
    }
}

/// Whether a cell holds something for the composer.
pub open spec fn fills<C>(cell: TranscriptCell<C>) -> bool {
    cell.message@.len() > 0 || match cell.kind {
        CellKind::User { has_text_elements, has_local_images, has_remote_images } =>
        has_text_elements || has_local_images || has_remote_images,
        _ => false,
    }
}

/// Message `nth` as a selection. There is one only in the thread where going back began.
pub open spec fn chosen<C>(
    screen: Screen,
    cells: Seq<TranscriptCell<C>>,
    nth: usize,
) -> Option<BacktrackSelection> {
    if screen.backtrack.base_id is Some && screen.thread_id == screen.backtrack.base_id {
        let at = place(kinds(cells), nth);
        Some(
            BacktrackSelection {
                nth_user_message: nth,
                cell: at,
                fills_composer: match at {
                    Some(i) => fills(cells[i as int]),
                    None => false,
                },
            },
        )
    } else {
        None
    }
}

/// Enter in the preview: the overlay closes, and the selected message is gone back to.
pub open spec fn confirming<C>(screen: Screen, cells: Seq<TranscriptCell<C>>) -> Outcome {
    let (after, actions) = closing(screen);
    match chosen(screen, cells, screen.backtrack.nth_user_message) {
        Some(selection) => {
            let (last, more) = asking(after, kinds(cells), selection);
            (last, actions + more.push(UiAction::ScheduleFrame))
        },
        None => (after, actions),
    }
}

/// What an event does while an overlay is open.
pub open spec fn overlaid<C>(
    screen: Screen,
    cells: Seq<TranscriptCell<C>>,
    event: ScreenEvent,
) -> Outcome {
    let armed = screen.backtrack.base_id is Some;
    if !screen.backtrack.overlay_preview_active {
        if pressed(event, Key::Esc) {
            previewing(screen, kinds(cells))
        } else {
            (screen, passed_on(screen, event))
        }
    } else if armed && (pressed(event, Key::Esc) || pressed(event, Key::Left)) {
        stepping_back(screen, kinds(cells))
    } else if armed && pressed(event, Key::Right) {
        stepping_forward(screen, kinds(cells))
    } else if event == (ScreenEvent::Key { key: Key::Enter, phase: KeyPhase::Press }) {
        confirming(screen, cells)
    } else {
        (screen, passed_on(screen, event))
    }
}

/// What follows a cut: the overlay gets the cells that are left, a preview stays within them, and
/// lines that waited are dropped.
pub open spec fn realigning(screen: Screen, cells: Seq<CellKind>) -> Outcome {
    let replaced = if screen.overlay == Overlay::Transcript {
        seq![UiAction::ReplaceCells]
    } else {
        Seq::empty()
    };
    let nth = screen.backtrack.nth_user_message;
    let next: usize = if targets(cells) == 0 {
        usize::MAX
    } else if nth < targets(cells) - 1 {
        nth
    } else {
        (targets(cells) - 1) as usize
    };
    let (after, actions) = if screen.backtrack.overlay_preview_active {
        selecting(screen, cells, next)
    } else {
        (screen, Seq::empty())
    };
    (
        Screen { has_deferred_lines: false, ..after },
        replaced + actions.push(UiAction::ClearDeferredLines),
    )
}

/// What follows a cut of the transcript.
pub open spec fn after_cut(screen: Screen, cells: Seq<CellKind>) -> Outcome {
    let (after, actions) = realigning(screen, cells);
    (
        Screen { render_pending: true, ..after },
        seq![UiAction::TruncateCopyHistory { user_turns: targets(cells) as usize }] + actions,
    )
}

/// What a rollback of `num_turns` turns that was not asked for here leaves of the transcript.
pub open spec fn left_by_rollback(cells: Seq<CellKind>, num_turns: u32) -> int {
    cut_last_turns(cells, num_turns)
}

/// What the rollback that was asked for leaves of the transcript: everything where the thread is
/// another one by now.
pub open spec fn left_by_pending(screen: Screen, cells: Seq<CellKind>) -> int {
    match screen.backtrack.pending_rollback {
        Some(pending) => if pending.thread_id == screen.thread_id {
            cut_before(cells, pending.nth_user_message)
        } else {
            cells.len() as int
        },
        None => cells.len() as int,
    }
}

fn find_place<C>(cells: &[TranscriptCell<C>], nth: usize) -> (r: Option<usize>)
    ensures
        r == place(kinds(cells@), nth),
        r matches Some(at) ==> at < cells@.len(),
{
    nth_user_position(cells, nth)
}

impl Screen {
    /// Ends going back; a rollback that is under way stays.
    pub fn reset_backtrack_state(&mut self) -> (r: Vec<UiAction>)
        ensures
            *final(self) == with_state(*old(self), reset(old(self).backtrack)),
            r@ == seq![UiAction::ClearEscHint],
    {
        self.backtrack.primed = false;
        self.backtrack.base_id = None;
        self.backtrack.nth_user_message = usize::MAX;
        self.backtrack.picker_active = false;
        self.backtrack.overlay_preview_active = false;
        vec![UiAction::ClearEscHint]
    }

    /// Selects message `nth`.
    pub fn apply_backtrack_selection_internal<C>(
        &mut self,
        cells: &[TranscriptCell<C>],
        nth_user_message: usize,
    ) -> (r: Vec<UiAction>)
        ensures
            (*final(self), r@) == selecting(*old(self), kinds(cells@), nth_user_message),
    {
        let at = find_place(cells, nth_user_message);
        let mut actions: Vec<UiAction> = Vec::new();
        if at.is_some() {
            self.backtrack.nth_user_message = nth_user_message;
        } else {
            self.backtrack.nth_user_message = usize::MAX;
        }
        if self.overlay == Overlay::Transcript {
            actions.push(UiAction::Highlight { cell: at });
        }
        assert(actions@ =~= selecting(*old(self), kinds(cells@), nth_user_message).1);
        actions
    }

    /// Selects the next older message.
    pub fn step_backtrack_and_highlight<C>(&mut self, cells: &[TranscriptCell<C>]) -> (r: Vec<
        UiAction,
    >)
        ensures
            (*final(self), r@) == stepping_back(*old(self), kinds(cells@)),
    {
        let count = user_count(cells);
        if count == 0 {
            return Vec::new();
        }
        let last: usize = count - 1;
        let nth: usize = self.backtrack.nth_user_message;
        let next: usize = if nth == usize::MAX {
            last
        } else if nth == 0 {
            0
        } else if nth - 1 < last {
            nth - 1
        } else {
            last
        };
        let mut actions = self.apply_backtrack_selection_internal(cells, next);
        actions.push(UiAction::ScheduleFrame);
        actions
    }

    /// Selects the next newer message.
    pub fn step_forward_backtrack_and_highlight<C>(&mut self, cells: &[TranscriptCell<C>]) -> (r:
        Vec<UiAction>)
        ensures
            (*final(self), r@) == stepping_forward(*old(self), kinds(cells@)),
    {
        let count = user_count(cells);
        if count == 0 {
            return Vec::new();
        }
        let last: usize = count - 1;
        let nth: usize = self.backtrack.nth_user_message;
        let next: usize = if nth < last && nth + 1 < last {
            nth + 1
        } else {
            last
        };
        let mut actions = self.apply_backtrack_selection_internal(cells, next);
        actions.push(UiAction::ScheduleFrame);
        actions
    }

    /// Primes going back.
    pub fn prime_backtrack<C>(&mut self, cells: &[TranscriptCell<C>]) -> (r: Vec<UiAction>)
        ensures
            (*final(self), r@) == priming(*old(self), kinds(cells@)),
    {
        self.backtrack.primed = true;
        self.backtrack.nth_user_message = usize::MAX;
        self.backtrack.base_id = self.thread_id;
        let mut actions: Vec<UiAction> = Vec::new();
        if has_backtrack_target(cells) {
            actions.push(UiAction::ShowEscHint);
        }
        assert(actions@ =~= priming(*old(self), kinds(cells@)).1);
        actions
    }

    /// Opens the picker.
    pub fn open_backtrack_preview<C>(&mut self, cells: &[TranscriptCell<C>]) -> (r: Vec<UiAction>)
        ensures
            (*final(self), r@) == opening(*old(self), kinds(cells@)),
    {
        let count = user_count(cells);
        if count == 0 {
            let mut actions = self.reset_backtrack_state();
            actions.push(UiAction::NoPreviousMessage);
            actions.push(UiAction::ScheduleFrame);
            assert(actions@ =~= opening(*old(self), kinds(cells@)).1);
            return actions;
        }
        self.backtrack.picker_active = true;
        let mut actions: Vec<UiAction> = vec![UiAction::ClearEscHint];
        let mut more = self.apply_backtrack_selection_internal(cells, count - 1);
        actions.append(&mut more);
        actions.push(UiAction::ScheduleFrame);
        assert(actions@ =~= opening(*old(self), kinds(cells@)).1);
        actions
    }

    /// Opens the overlay that shows the transcript.
    pub fn open_transcript_overlay(&mut self) -> (r: Vec<UiAction>)
        ensures
            *final(self) == (Screen { overlay: Overlay::Transcript, ..*old(self) }),
            r@ == seq![UiAction::EnterAltScreen, UiAction::OpenTranscript, UiAction::ScheduleFrame],
    {
        self.overlay = Overlay::Transcript;
        vec![UiAction::EnterAltScreen, UiAction::OpenTranscript, UiAction::ScheduleFrame]
    }

    /// Closes the overlay.
    pub fn close_transcript_overlay(&mut self) -> (r: Vec<UiAction>)
        ensures
            (*final(self), r@) == closing(*old(self)),
    {
        let previewed = self.backtrack.overlay_preview_active;
        let mut actions: Vec<UiAction> = vec![UiAction::LeaveAltScreen];
        if self.has_deferred_lines {
            self.has_deferred_lines = false;
            actions.push(UiAction::FlushDeferredLines);
        }
        self.overlay = Overlay::Closed;
        self.backtrack.overlay_preview_active = false;
        if previewed {
            let mut more = self.reset_backtrack_state();
            actions.append(&mut more);
        }
        assert(actions@ =~= closing(*old(self)).1);
        actions
    }

    /// Begins the preview in the open overlay.
    pub fn begin_overlay_backtrack_preview<C>(&mut self, cells: &[TranscriptCell<C>]) -> (r: Vec<
        UiAction,
    >)
        ensures
            (*final(self), r@) == previewing(*old(self), kinds(cells@)),
    {
        let count = user_count(cells);
        if count == 0 {
            let mut actions = self.close_transcript_overlay();
            actions.push(UiAction::NoPreviousMessage);
            actions.push(UiAction::ScheduleFrame);
            assert(actions@ =~= previewing(*old(self), kinds(cells@)).1);
            return actions;
        }
        self.backtrack.primed = true;
        self.backtrack.base_id = self.thread_id;
        self.backtrack.overlay_preview_active = true;
        let mut actions = self.apply_backtrack_selection_internal(cells, count - 1);
        actions.push(UiAction::ScheduleFrame);
        actions
    }

    /// Esc in the main view.
    pub fn handle_backtrack_esc_key<C>(&mut self, cells: &[TranscriptCell<C>]) -> (r: Vec<UiAction>)
        ensures
            (*final(self), r@) == escaping(*old(self), kinds(cells@)),
    {
        if !self.composer_empty {
            return Vec::new();
        }
        if self.backtrack.picker_active {
            let mut actions = self.reset_backtrack_state();
            actions.push(UiAction::ScheduleFrame);
            assert(actions@ =~= escaping(*old(self), kinds(cells@)).1);
            actions
        } else if !self.backtrack.primed {
            self.prime_backtrack(cells)
        } else if self.overlay == Overlay::Closed {
            self.open_backtrack_preview(cells)
        } else if self.backtrack.overlay_preview_active {
            self.step_backtrack_and_highlight(cells)
        } else {
            Vec::new()
        }
    }

    /// Moves the selection of the picker: back for a negative `delta`, forward for a positive one.
    pub fn move_backtrack_picker_selection<C>(
        &mut self,
        cells: &[TranscriptCell<C>],
        delta: isize,
    ) -> (r: Vec<UiAction>)
        ensures
            (*final(self), r@) == if !old(self).backtrack.picker_active || delta == 0 {
                (*old(self), Seq::empty())
            } else if delta < 0 {
                stepping_back(*old(self), kinds(cells@))
            } else {
                stepping_forward(*old(self), kinds(cells@))
            },
    {
        if !self.backtrack.picker_active || delta == 0 {
            Vec::new()
        } else if delta < 0 {
            self.step_backtrack_and_highlight(cells)
        } else {
            self.step_forward_backtrack_and_highlight(cells)
        }
    }

    /// Whether the picker is open.
    pub fn backtrack_picker_active(&self) -> (r: bool)
        ensures
            r == self.backtrack.picker_active,
    {
        self.backtrack.picker_active
    }

    /// The lines of the picker, where it is open with a selection.
    pub fn backtrack_picker_lines<C>(&self, cells: &[TranscriptCell<C>], width: u16) -> (r: Option<
        Vec<StyledLine>,
    >)
        ensures
            r is Some <==> self.backtrack.picker_active && self.backtrack.nth_user_message
                != usize::MAX,
            r matches Some(lines) ==> line_models(lines@) == picker_lines(
                messages_of(cells@),
                self.backtrack.nth_user_message as nat,
                width as nat,
            ),
    {
        if !self.backtrack.picker_active || self.backtrack.nth_user_message == usize::MAX {
            return None;
        }
        let messages = user_messages(cells);
        assert(texts(messages@) =~= messages_of(cells@));
        Some(
            backtrack_picker_lines(messages.as_slice(), self.backtrack.nth_user_message, width),
        )
    }

    /// How many lines the picker takes.
    pub fn backtrack_picker_desired_height<C>(&self, cells: &[TranscriptCell<C>], width: u16) -> (r:
        u16)
        ensures
            r == if self.backtrack.picker_active && self.backtrack.nth_user_message != usize::MAX {
                picker_lines(
                    messages_of(cells@),
                    self.backtrack.nth_user_message as nat,
                    width as nat,
                ).len()
            } else {
                0
            },
    {
        match self.backtrack_picker_lines(cells, width) {
            Some(lines) => {
                assert(line_models(lines@).len() == lines@.len());
                proof {
                    let all = messages_of(cells@);
                    let nth = self.backtrack.nth_user_message as nat;
                    if nth < all.len() {
                        crate::picker::law_selected_message_is_surrounded(
                            all.len(),
                            nth,
                            crate::picker::BACKTRACK_PICKER_MAX_MESSAGES as nat,
                        );
                    }
                }
                lines.len() as u16
            },
            None => 0,
        }
    }

    /// Passes an event on to the overlay.
    pub fn overlay_forward_event(&self, event: ScreenEvent) -> (r: Vec<UiAction>)
        ensures
            r@ == passed_on(*self, event),
    {
        let mut actions: Vec<UiAction> = Vec::new();
        if self.overlay == Overlay::Transcript && (event == ScreenEvent::Draw || event
            == ScreenEvent::Resize) {
            actions.push(UiAction::DrawTranscript);
        } else if self.overlay != Overlay::Closed {
            actions.push(UiAction::ForwardEvent);
        }
        assert(actions@ =~= passed_on(*self, event));
        actions
    }

    /// What follows an event that the overlay has handled. `done` says that the overlay wants to
    /// close, `animated` that the transcript was drawn with something moving in its last lines,
    /// which are in view.
    pub fn overlay_handled_event(&mut self, done: bool, animated: bool) -> (r: Vec<UiAction>)
        ensures
            (*final(self), r@) == if done {
                (closing(*old(self)).0, closing(*old(self)).1.push(UiAction::ScheduleFrame))
            } else if animated {
                (*old(self), seq![UiAction::ScheduleFrameIn { millis: 50 }])
            } else {
                (*old(self), Seq::empty())
            },
    {
        if done {
            let mut actions = self.close_transcript_overlay();
            actions.push(UiAction::ScheduleFrame);
            actions
        } else if animated {
            vec![UiAction::ScheduleFrameIn { millis: 50 }]
        } else {
            Vec::new()
        }
    }

    /// Message `nth` as a selection.
    pub fn backtrack_selection<C>(&self, cells: &[TranscriptCell<C>], nth_user_message: usize) -> (r:
        Option<BacktrackSelection>)
        ensures
            r == chosen(*self, cells@, nth_user_message),
    {
        if self.backtrack.base_id.is_none() || self.thread_id != self.backtrack.base_id {
            return None;
        }
        let at = find_place(cells, nth_user_message);
        let fills_composer = match at {
            Some(i) => !cells[i].message.as_str().is_empty() || match cells[i].kind {
                CellKind::User { has_text_elements, has_local_images, has_remote_images } =>
                has_text_elements || has_local_images || has_remote_images,
                _ => false,
            },
            None => false,
        };
        Some(BacktrackSelection { nth_user_message, cell: at, fills_composer })
    }

    /// Asks for the rollback of the turns from the selected message on.
    pub fn apply_backtrack_rollback<C>(
        &mut self,
        cells: &[TranscriptCell<C>],
        selection: BacktrackSelection,
    ) -> (r: Vec<UiAction>)
        ensures
            (*final(self), r@) == asking(*old(self), kinds(cells@), selection),
    {
        let total = user_count(cells);
        if total == 0 {
            return Vec::new();
        }
        if self.backtrack.pending_rollback.is_some() {
            return vec![UiAction::RollbackInProgress];
        }
        if selection.nth_user_message >= total {
            return Vec::new();
        }
        let turns: u64 = (total - selection.nth_user_message) as u64;
        let num_turns: u32 = if turns > u32::MAX as u64 {
            u32::MAX
        } else {
            turns as u32
        };
        self.backtrack.pending_rollback = Some(
            PendingBacktrackRollback {
                nth_user_message: selection.nth_user_message,
                thread_id: self.thread_id,
            },
        );
        let mut actions: Vec<UiAction> = vec![
            UiAction::SubmitRollback { num_turns },
            UiAction::SetRemoteImages,
        ];
        if selection.fills_composer {
            actions.push(UiAction::SetComposer);
        }
        assert(actions@ =~= asking(*old(self), kinds(cells@), selection).1);
        actions
    }

    /// Asks for the rollback of a selection from the main view.
    pub fn apply_backtrack_selection<C>(
        &mut self,
        cells: &[TranscriptCell<C>],
        selection: BacktrackSelection,
    ) -> (r: Vec<UiAction>)
        ensures
            *final(self) == asking(*old(self), kinds(cells@), selection).0,
            r@ == asking(*old(self), kinds(cells@), selection).1.push(UiAction::ScheduleFrame),
    {
        let mut actions = self.apply_backtrack_rollback(cells, selection);
        actions.push(UiAction::ScheduleFrame);
        actions
    }

    /// Takes the selection of the main view and ends going back.
    pub fn confirm_backtrack_from_main<C>(&mut self, cells: &[TranscriptCell<C>]) -> (r: (
        Option<BacktrackSelection>,
        Vec<UiAction>,
    ))
        ensures
            *final(self) == with_state(*old(self), reset(old(self).backtrack)),
            r.0 == chosen(*old(self), cells@, old(self).backtrack.nth_user_message),
            r.1@ == seq![UiAction::ClearEscHint],
    {
        let selection = self.backtrack_selection(cells, self.backtrack.nth_user_message);
        let actions = self.reset_backtrack_state();
        (selection, actions)
    }

    /// Enter in the preview. Also returns the selection, whose content the composer may need.
    pub fn overlay_confirm_backtrack<C>(&mut self, cells: &[TranscriptCell<C>]) -> (r: (
        Option<BacktrackSelection>,
        Vec<UiAction>,
    ))
        ensures
            (*final(self), r.1@) == confirming(*old(self), cells@),
            r.0 == chosen(*old(self), cells@, old(self).backtrack.nth_user_message),
    {
        let selection = self.backtrack_selection(cells, self.backtrack.nth_user_message);
        let mut actions = self.close_transcript_overlay();
        if let Some(picked) = selection {
            let mut more = self.apply_backtrack_rollback(cells, picked);
            actions.append(&mut more);
            actions.push(UiAction::ScheduleFrame);
        }
        assert(actions@ =~= confirming(*old(self), cells@).1);
        (selection, actions)
    }

    /// Esc or Left in the preview.
    fn overlay_step_backtrack<C>(&mut self, cells: &[TranscriptCell<C>], event: ScreenEvent) -> (r:
        Vec<UiAction>)
        ensures
            (*final(self), r@) == if old(self).backtrack.base_id is Some {
                stepping_back(*old(self), kinds(cells@))
            } else {
                (*old(self), passed_on(*old(self), event))
            },
    {
        if self.backtrack.base_id.is_some() {
            self.step_backtrack_and_highlight(cells)
        } else {
            self.overlay_forward_event(event)
        }
    }

    /// Right in the preview.
    fn overlay_step_backtrack_forward<C>(
        &mut self,
        cells: &[TranscriptCell<C>],
        event: ScreenEvent,
    ) -> (r: Vec<UiAction>)
        ensures
            (*final(self), r@) == if old(self).backtrack.base_id is Some {
                stepping_forward(*old(self), kinds(cells@))
            } else {
                (*old(self), passed_on(*old(self), event))
            },
    {
        if self.backtrack.base_id.is_some() {
            self.step_forward_backtrack_and_highlight(cells)
        } else {
            self.overlay_forward_event(event)
        }
    }

    /// An event while an overlay is open. Also returns the selection that Enter confirms.
    pub fn handle_backtrack_overlay_event<C>(
        &mut self,
        cells: &[TranscriptCell<C>],
        event: ScreenEvent,
    ) -> (r: (Option<BacktrackSelection>, Vec<UiAction>))
        ensures
            (*final(self), r.1@) == overlaid(*old(self), cells@, event),
            r.0 == if old(self).backtrack.overlay_preview_active && event == (ScreenEvent::Key {
                key: Key::Enter,
                phase: KeyPhase::Press,
            }) {
                chosen(*old(self), cells@, old(self).backtrack.nth_user_message)
            } else {
                None
            },
    {
        let held = match event {
            ScreenEvent::Key { key, phase } => if phase == KeyPhase::Release {
                None
            } else {
                Some(key)
            },
            _ => None,
        };
        if self.backtrack.overlay_preview_active {
            match held {
                Some(Key::Esc) => (None, self.overlay_step_backtrack(cells, event)),
                Some(Key::Left) => (None, self.overlay_step_backtrack(cells, event)),
                Some(Key::Right) => (None, self.overlay_step_backtrack_forward(cells, event)),
                Some(Key::Enter) => if event == (ScreenEvent::Key {
                    key: Key::Enter,
                    phase: KeyPhase::Press,
                }) {
                    self.overlay_confirm_backtrack(cells)
                } else {
                    (None, self.overlay_forward_event(event))
                },
                _ => (None, self.overlay_forward_event(event)),
            }
        } else {
            match held {
                Some(Key::Esc) => (None, self.begin_overlay_backtrack_preview(cells)),
                _ => (None, self.overlay_forward_event(event)),
            }
        }
    }

    /// Brings the overlay in line with a transcript that was cut.
    pub fn sync_overlay_after_transcript_trim<C>(&mut self, cells: &[TranscriptCell<C>]) -> (r: Vec<
        UiAction,
    >)
        ensures
            (*final(self), r@) == realigning(*old(self), kinds(cells@)),
    {
        let mut actions: Vec<UiAction> = Vec::new();
        if self.overlay == Overlay::Transcript {
            actions.push(UiAction::ReplaceCells);
        }
        if self.backtrack.overlay_preview_active {
            let total = user_count(cells);
            let nth: usize = self.backtrack.nth_user_message;
            let next: usize = if total == 0 {
                usize::MAX
            } else if nth < total - 1 {
                nth
            } else {
                total - 1
            };
            let mut more = self.apply_backtrack_selection_internal(cells, next);
            actions.append(&mut more);
        }
        self.has_deferred_lines = false;
        actions.push(UiAction::ClearDeferredLines);
        assert(actions@ =~= realigning(*old(self), kinds(cells@)).1);
        actions
    }

    fn follow_cut<C>(&mut self, cells: &[TranscriptCell<C>]) -> (r: Vec<UiAction>)
        ensures
            (*final(self), r@) == after_cut(*old(self), kinds(cells@)),
    {
        let mut actions: Vec<UiAction> = vec![
            UiAction::TruncateCopyHistory { user_turns: user_count(cells) },
        ];
        let mut more = self.sync_overlay_after_transcript_trim(cells);
        actions.append(&mut more);
        self.render_pending = true;
        assert(actions@ =~= after_cut(*old(self), kinds(cells@)).1);
        actions
    }

    /// Applies a rollback that was not asked for here. Returns whether the transcript was cut.
    pub fn apply_non_pending_thread_rollback<C>(
        &mut self,
        cells: &mut Vec<TranscriptCell<C>>,
        num_turns: u32,
    ) -> (r: (bool, Vec<UiAction>))
        ensures
            final(cells)@ == old(cells)@.take(left_by_rollback(kinds(old(cells)@), num_turns)),
            r.0 == (left_by_rollback(kinds(old(cells)@), num_turns) < old(cells)@.len()),
            (*final(self), r.1@) == if r.0 {
                after_cut(*old(self), kinds(final(cells)@))
            } else {
                (*old(self), Seq::empty())
            },
    {
        if !trim_transcript_cells_drop_last_n_user_turns(cells, num_turns) {
            return (false, Vec::new());
        }
        let actions = self.follow_cut(cells.as_slice());
        (true, actions)
    }

    /// Cuts the transcript as the rollback that was asked for wants it.
    pub fn finish_pending_backtrack<C>(&mut self, cells: &mut Vec<TranscriptCell<C>>) -> (r: Vec<
        UiAction,
    >)
        ensures
            final(cells)@ == old(cells)@.take(left_by_pending(*old(self), kinds(old(cells)@))),
            (*final(self), r@) == finished(*old(self), old(cells)@, final(cells)@),
    {
        let ghost whole = cells@;
        assert(whole.take(whole.len() as int) =~= whole);
        match self.backtrack.pending_rollback {
            Some(pending) => {
                self.backtrack.pending_rollback = None;
                if pending.thread_id == self.thread_id && trim_transcript_cells_to_nth_user(
                    cells,
                    pending.nth_user_message,
                ) {
                    self.follow_cut(cells.as_slice())
                } else {
                    Vec::new()
                }
            },
            None => Vec::new(),
        }
    }

    /// A rollback has happened.
    pub fn handle_backtrack_rollback_succeeded<C>(
        &mut self,
        cells: &mut Vec<TranscriptCell<C>>,
        num_turns: u32,
    ) -> (r: Vec<UiAction>)
        ensures
            final(cells)@ == old(cells)@.take(left_by_pending(*old(self), kinds(old(cells)@))),
            (*final(self), r@) == if old(self).backtrack.pending_rollback is Some {
                finished(*old(self), old(cells)@, final(cells)@)
            } else {
                (*old(self), seq![UiAction::SendApplyRollback { num_turns }])
            },
    {
        let ghost whole = cells@;
        assert(whole.take(whole.len() as int) =~= whole);
        if self.backtrack.pending_rollback.is_some() {
            self.finish_pending_backtrack(cells)
        } else {
            vec![UiAction::SendApplyRollback { num_turns }]
        }
    }

    /// A rollback has failed: another one may be asked for.
    pub fn handle_backtrack_rollback_failed(&mut self)
        ensures
            *final(self) == with_state(
                *old(self),
                (BacktrackState { pending_rollback: None, ..old(self).backtrack }),
            ),
    {
        self.backtrack.pending_rollback = None;
    }
}

/// The texts of the user's messages in the current session.
pub open spec fn messages_of<C>(cells: Seq<TranscriptCell<C>>) -> Seq<Seq<char>> {
    Seq::new(
        user_places(kinds(cells)).len(),
        |k: int| cells[user_places(kinds(cells))[k]].message@,
    )
}

/// The screen after the rollback that was asked for: no rollback is under way, and where the
/// transcript was cut the overlay follows.
pub open spec fn finished<C>(
    screen: Screen,
    before: Seq<TranscriptCell<C>>,
    after: Seq<TranscriptCell<C>>,
) -> Outcome {
    let done = with_state(
        screen,
        BacktrackState { pending_rollback: None, ..screen.backtrack },
    );
    if after.len() < before.len() {
        after_cut(done, kinds(after))
    } else {
        (done, Seq::empty())
    }
}

/// Whether a screen has nothing selected, or one of the messages.
pub open spec fn in_range(screen: Screen, cells: Seq<CellKind>) -> bool {
    screen.backtrack.nth_user_message == usize::MAX || screen.backtrack.nth_user_message < targets(
        cells,
    )
}

/// Whatever was selected before, a step or a cut leaves a message selected that there is, or none
/// where there is no message.
pub proof fn law_selection_stays_in_range(screen: Screen, cells: Seq<CellKind>)
    requires
        cells.len() <= usize::MAX,
    ensures
        targets(cells) > 0 ==> stepping_back(screen, cells).0.backtrack.nth_user_message < targets(
            cells,
        ),
        targets(cells) > 0 ==> stepping_forward(screen, cells).0.backtrack.nth_user_message
            < targets(cells),
        screen.backtrack.overlay_preview_active ==> in_range(after_cut(screen, cells).0, cells),
{
    lemma_user_places(cells);
}

/// Esc twice on a screen with nothing open selects the latest message in the picker. Enter there
/// asks for the rollback of one turn, and another Esc ends it all.
pub proof fn law_second_esc_selects_latest<C>(screen: Screen, cells: Seq<TranscriptCell<C>>)
    requires
        0 < targets(kinds(cells)),
        cells.len() <= usize::MAX,
        screen.composer_empty,
        screen.overlay == Overlay::Closed,
        !screen.backtrack.primed,
        !screen.backtrack.picker_active,
        screen.backtrack.pending_rollback is None,
        screen.thread_id is Some,
    ensures
        ({
            let all = kinds(cells);
            let once = escaping(screen, all).0;
            let twice = escaping(once, all).0;
            let confirmed = with_state(twice, reset(twice.backtrack));
            &&& escaping(screen, all).1 == seq![UiAction::ShowEscHint]
            &&& twice.backtrack.picker_active
            &&& twice.backtrack.nth_user_message == targets(all) - 1
            &&& chosen(twice, cells, twice.backtrack.nth_user_message) matches Some(selection)
                && asking(confirmed, all, selection).1[0] == (UiAction::SubmitRollback {
                num_turns: 1,
            })
            &&& escaping(twice, all).0.backtrack == reset(screen.backtrack)
        }),
{
    let all = kinds(cells);
    lemma_user_places(all);
    let once = escaping(screen, all).0;
    assert(once.backtrack.primed);
    let twice = escaping(once, all).0;
    assert(place(all, (targets(all) - 1) as usize) is Some);
}

/// While a rollback is under way no other one is asked for, and nothing changes.
pub proof fn law_one_rollback_at_a_time(
    screen: Screen,
    cells: Seq<CellKind>,
    selection: BacktrackSelection,
)
    requires
        screen.backtrack.pending_rollback is Some,
    ensures
        asking(screen, cells, selection).0 == screen,
        forall|i: int|
            0 <= i < asking(screen, cells, selection).1.len() ==> !(#[trigger] asking(
                screen,
                cells,
                selection,
            ).1[i] is SubmitRollback),
{
}

/// A rollback that was asked for cuts exactly the turns that the request named, if the thread is
/// still the same one, and nothing otherwise.
pub proof fn law_rollback_cuts_what_was_asked(
    screen: Screen,
    cells: Seq<CellKind>,
    selection: BacktrackSelection,
    later: Option<u128>,
)
    requires
        screen.backtrack.pending_rollback is None,
        selection.nth_user_message < targets(cells) <= u32::MAX,
        selection.nth_user_message != usize::MAX,
    ensures
        ({
            let (asked, actions) = asking(screen, cells, selection);
            let then = Screen { thread_id: later, ..asked };
            &&& actions[0] is SubmitRollback
            &&& later == screen.thread_id ==> left_by_pending(then, cells) == cut_last_turns(
                cells,
                actions[0]->SubmitRollback_num_turns,
            )
            &&& later != screen.thread_id ==> left_by_pending(then, cells) == cells.len()
        }),
{
    let turns = (targets(cells) - selection.nth_user_message) as u32;
    crate::transcript::law_both_cuts_agree(cells, selection.nth_user_message, turns);
}

} // verus!
