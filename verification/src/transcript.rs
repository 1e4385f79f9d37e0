//! The transcript of a session: which cells are messages of the user, and how it is cut back.
use vstd::prelude::*;

use crate::text::owned;

verus! {

/// What a cell of the transcript is.
#[derive(Clone, Copy, Debug, PartialEq, Eq, Structural)]
pub enum CellKind {
    /// The start of a session.
    SessionStart,
    /// A message of the user, with or without these parts.
    User { has_text_elements: bool, has_local_images: bool, has_remote_images: bool },
    /// A message of the agent, or the continuation of one.
    Agent { continuation: bool },
    Other,
}

/// A cell of the transcript: what it is, the text of a user's message, and what is shown.
#[derive(Debug, PartialEq, Eq)]
pub struct TranscriptCell<C> {
    pub kind: CellKind,
    pub message: String,
    pub cell: C,
}

/// What the cells are.
pub open spec fn kinds<C>(cells: Seq<TranscriptCell<C>>) -> Seq<CellKind> {
    Seq::new(cells.len(), |i: int| cells[i].kind)
}

/// Where the current session starts: behind the last start of a session.
pub open spec fn session_start(cells: Seq<CellKind>) -> int
    decreases cells.len(),
{
    if cells.len() == 0 {
        0
    } else if cells.last() == CellKind::SessionStart {
        cells.len() as int
    } else {
        session_start(cells.drop_last())
    }
}

/// The messages of the user from `from` on among the first `to` cells.
pub open spec fn users_between(cells: Seq<CellKind>, from: int, to: int) -> Seq<int>
    decreases to - from,
{
    if to <= from || to > cells.len() {
        Seq::empty()
    } else {
        let before = users_between(cells, from, to - 1);
        if cells[to - 1] is User {
            before.push(to - 1)
        } else {
            before
        }
    }
}

/// The messages of the user in the current session.
pub open spec fn user_places(cells: Seq<CellKind>) -> Seq<int> {
    users_between(cells, session_start(cells), cells.len() as int)
}

/// Message `nth` of the user in the current session.
pub open spec fn nth_user(cells: Seq<CellKind>, nth: int) -> Option<int> {
    if 0 <= nth < user_places(cells).len() {
        Some(user_places(cells)[nth])
    } else {
        None
    }
}

/// The messages of the user are in order, in the session, and messages of the user.
pub proof fn lemma_users_between(cells: Seq<CellKind>, from: int, to: int)
    requires
        0 <= from,
        to <= cells.len(),
    ensures
        forall|k: int|
            0 <= k < users_between(cells, from, to).len() ==> from <= (#[trigger] users_between(
                cells,
                from,
                to,
            )[k]) < to && cells[users_between(cells, from, to)[k]] is User,
        forall|k: int, l: int|
            0 <= k < l < users_between(cells, from, to).len() ==> (#[trigger] users_between(
                cells,
                from,
                to,
            )[k]) < (#[trigger] users_between(cells, from, to)[l]),
        users_between(cells, from, to).len() <= if from < to {
            to - from
        } else {
            0
        },
    decreases to - from,
{
    if from < to {
        lemma_users_between(cells, from, to - 1);
    }
}

pub proof fn lemma_session_start(cells: Seq<CellKind>)
    ensures
        0 <= session_start(cells) <= cells.len(),
        forall|i: int| session_start(cells) <= i < cells.len() ==> cells[i]
            != CellKind::SessionStart,
        session_start(cells) > 0 ==> cells[session_start(cells) - 1] == CellKind::SessionStart,
    decreases cells.len(),
{
    if cells.len() > 0 && cells.last() != CellKind::SessionStart {
        let before = cells.drop_last();
        lemma_session_start(before);
        assert forall|i: int| session_start(cells) <= i < cells.len() implies cells[i]
            != CellKind::SessionStart by {
            if i < before.len() {
                assert(before[i] == cells[i]);
            }
        }
    }
}

/// There are no more messages of the user than cells.
pub proof fn lemma_user_places(cells: Seq<CellKind>)
    ensures
        user_places(cells).len() <= cells.len(),
{
    lemma_session_start(cells);
    lemma_users_between(cells, session_start(cells), cells.len() as int);
}

fn find_session_start<C>(cells: &[TranscriptCell<C>]) -> (r: usize)
    ensures
        r == session_start(kinds(cells@)),
        r <= cells@.len(),
{
    let ghost all = kinds(cells@);
    let mut left: usize = cells.len();
    assert(all.take(left as int) =~= all);
    while left > 0
        invariant
            left <= cells@.len(),
            all == kinds(cells@),
            session_start(all) == session_start(all.take(left as int)),
        decreases left,
    {
        assert(all.take(left as int).drop_last() =~= all.take(left - 1));
        assert(all.take(left as int).last() == cells@[left - 1].kind);
        if cells[left - 1].kind == CellKind::SessionStart {
            return left;
        }
        left -= 1;
    }
    0
}

/// The messages of the user in the current session.
pub fn user_positions<C>(cells: &[TranscriptCell<C>]) -> (r: Vec<usize>)
    ensures
        r@.len() == user_places(kinds(cells@)).len(),
        forall|k: int| 0 <= k < r@.len() ==> #[trigger] r@[k] == user_places(kinds(cells@))[k],
{
    let ghost all = kinds(cells@);
    let start = find_session_start(cells);
    let mut out: Vec<usize> = Vec::new();
    let mut i: usize = start;
    while i < cells.len()
        invariant
            start <= i <= cells@.len(),
            all == kinds(cells@),
            out@.len() == users_between(all, start as int, i as int).len(),
            forall|k: int|
                0 <= k < out@.len() ==> #[trigger] out@[k] == users_between(
                    all,
                    start as int,
                    i as int,
                )[k],
        decreases cells@.len() - i,
    {
        assert(all[i as int] == cells@[i as int].kind);
        if let CellKind::User { .. } = cells[i].kind {
            out.push(i);
        }
        i += 1;
    }
    out
}

/// How many messages the user has sent in the current session.
pub fn user_count<C>(cells: &[TranscriptCell<C>]) -> (r: usize)
    ensures
        r == user_places(kinds(cells@)).len(),
{
    user_positions(cells).len()
}

/// Whether there is a message to go back to.
pub fn has_backtrack_target<C>(cells: &[TranscriptCell<C>]) -> (r: bool)
    ensures
        r == (user_places(kinds(cells@)).len() > 0),
{
    user_count(cells) > 0
}

/// Where message `nth` of the user is.
pub fn nth_user_position<C>(cells: &[TranscriptCell<C>], nth: usize) -> (r: Option<usize>)
    ensures
        match nth_user(kinds(cells@), nth as int) {
            Some(at) => r matches Some(got) && got == at && at < cells@.len(),
            None => r is None,
        },
{
    let places = user_positions(cells);
    proof {
        lemma_session_start(kinds(cells@));
        lemma_users_between(
            kinds(cells@),
            session_start(kinds(cells@)),
            kinds(cells@).len() as int,
        );
    }
    if nth < places.len() {
        assert(places@[nth as int] == user_places(kinds(cells@))[nth as int]);
        Some(places[nth])
    } else {
        None
    }
}

/// The texts of the user's messages in the current session.
pub fn user_messages<C>(cells: &[TranscriptCell<C>]) -> (r: Vec<String>)
    ensures
        r@.len() == user_places(kinds(cells@)).len(),
        forall|k: int|
            0 <= k < r@.len() ==> (#[trigger] r@[k])@ == cells@[user_places(
                kinds(cells@),
            )[k]].message@,
{
    let places = user_positions(cells);
    let ghost all = user_places(kinds(cells@));
    proof {
        lemma_session_start(kinds(cells@));
        lemma_users_between(
            kinds(cells@),
            session_start(kinds(cells@)),
            kinds(cells@).len() as int,
        );
    }
    let mut out: Vec<String> = Vec::new();
    let mut k: usize = 0;
    while k < places.len()
        invariant
            k <= places@.len() == all.len(),
            out@.len() == k,
            forall|j: int| 0 <= j < places@.len() ==> #[trigger] places@[j] == all[j],
            forall|j: int| 0 <= j < all.len() ==> 0 <= #[trigger] all[j] < cells@.len(),
            forall|j: int| 0 <= j < k ==> (#[trigger] out@[j])@ == cells@[all[j]].message@,
        decreases places@.len() - k,
    {
        assert(places@[k as int] == all[k as int]);
        out.push(owned(cells[places[k]].message.as_str()));
        k += 1;
    }
    out
}

/// The messages of the agent from `from` on among the first `to` cells, not counting continuations.
pub open spec fn agent_groups(cells: Seq<CellKind>, from: int, to: int) -> nat
    decreases to - from,
{
    if to <= from || to > cells.len() {
        0
    } else {
        agent_groups(cells, from, to - 1) + if cells[to - 1] == (CellKind::Agent {
            continuation: false,
        }) {
            1nat
        } else {
            0
        }
    }
}

/// How many messages of the agent the current session has, not counting continuations.
pub fn agent_group_count<C>(cells: &[TranscriptCell<C>]) -> (r: usize)
    ensures
        r == agent_groups(
            kinds(cells@),
            session_start(kinds(cells@)),
            cells@.len() as int,
        ),
{
    let ghost all = kinds(cells@);
    let start = find_session_start(cells);
    let mut count: usize = 0;
    let mut i: usize = start;
    while i < cells.len()
        invariant
            start <= i <= cells@.len(),
            all == kinds(cells@),
            count <= i,
            count == agent_groups(all, start as int, i as int),
        decreases cells@.len() - i,
    {
        assert(all[i as int] == cells@[i as int].kind);
        if cells[i].kind == (CellKind::Agent { continuation: false }) {
            count += 1;
        }
        i += 1;
    }
    count
}

/// Where the transcript is cut to go back before message `nth` of the user.
pub open spec fn cut_before(cells: Seq<CellKind>, nth: usize) -> int {
    if nth == usize::MAX {
        cells.len() as int
    } else {
        match nth_user(cells, nth as int) {
            Some(at) => at,
            None => cells.len() as int,
        }
    }
}

/// Goes back before message `nth` of the user; `usize::MAX` stands for no message. Returns whether
/// anything was cut off.
pub fn trim_transcript_cells_to_nth_user<C>(
    cells: &mut Vec<TranscriptCell<C>>,
    nth_user_message: usize,
) -> (r: bool)
    ensures
        final(cells)@ == old(cells)@.take(cut_before(kinds(old(cells)@), nth_user_message)),
        r == (cut_before(kinds(old(cells)@), nth_user_message) < old(cells)@.len()),
        r == (final(cells)@.len() < old(cells)@.len()),
{
    if nth_user_message == usize::MAX {
        assert(cells@.take(cells@.len() as int) =~= cells@);
        return false;
    }
    match nth_user_position(cells.as_slice(), nth_user_message) {
        Some(at) => {
            cells.truncate(at);
            true
        },
        None => {
            assert(cells@.take(cells@.len() as int) =~= cells@);
            false
        },
    }
}

/// Where the transcript is cut to drop the last turns of the user; never before the first of them.
pub open spec fn cut_last_turns(cells: Seq<CellKind>, num_turns: u32) -> int {
    let places = user_places(cells);
    if num_turns == 0 || places.len() == 0 {
        cells.len() as int
    } else if num_turns >= places.len() {
        places[0]
    } else {
        places[places.len() - num_turns]
    }
}

/// Drops the last turns of the user, or all of them where there are fewer. Returns whether anything
/// was cut off.
pub fn trim_transcript_cells_drop_last_n_user_turns<C>(
    cells: &mut Vec<TranscriptCell<C>>,
    num_turns: u32,
) -> (r: bool)
    ensures
        final(cells)@ == old(cells)@.take(cut_last_turns(kinds(old(cells)@), num_turns)),
        r == (cut_last_turns(kinds(old(cells)@), num_turns) < old(cells)@.len()),
        r == (final(cells)@.len() < old(cells)@.len()),
{
    let places = user_positions(cells.as_slice());
    proof {
        lemma_session_start(kinds(cells@));
        lemma_users_between(
            kinds(cells@),
            session_start(kinds(cells@)),
            kinds(cells@).len() as int,
        );
    }
    if num_turns == 0 || places.len() == 0 {
        assert(cells@.take(cells@.len() as int) =~= cells@);
        return false;
    }
    let turns: u64 = num_turns as u64;
    let at: usize = if turns >= places.len() as u64 {
        places[0]
    } else {
        places[places.len() - num_turns as usize]
    };
    cells.truncate(at);
    true
}

/// Asking for the turns from message `nth` on and dropping them from the end cuts at the same place.
pub proof fn law_both_cuts_agree(cells: Seq<CellKind>, nth: usize, num_turns: u32)
    requires
        nth < user_places(cells).len(),
        nth != usize::MAX,
        num_turns == user_places(cells).len() - nth,
    ensures
        cut_before(cells, nth) == cut_last_turns(cells, num_turns),
{
}

proof fn lemma_session_start_prefix(cells: Seq<CellKind>, count: int)
    requires
        session_start(cells) <= count <= cells.len(),
    ensures
        session_start(cells.take(count)) == session_start(cells),
    decreases cells.len(),
{
    lemma_session_start(cells);
    if count == cells.len() {
        assert(cells.take(count) =~= cells);
    } else {
        assert(cells.drop_last().take(count) =~= cells.take(count));
        assert(cells.last() != CellKind::SessionStart);
        lemma_session_start_prefix(cells.drop_last(), count);
    }
}

proof fn lemma_users_prefix(cells: Seq<CellKind>, from: int, to: int, count: int)
    requires
        0 <= from,
        to <= count <= cells.len(),
    ensures
        users_between(cells.take(count), from, to) == users_between(cells, from, to),
    decreases to - from,
{
    if from < to {
        lemma_users_prefix(cells, from, to - 1, count);
        assert(cells.take(count)[to - 1] == cells[to - 1]);
    }
}

proof fn lemma_users_up_to(cells: Seq<CellKind>, from: int, to: int, k: int)
    requires
        0 <= from,
        to <= cells.len(),
        0 <= k < users_between(cells, from, to).len(),
    ensures
        users_between(cells, from, users_between(cells, from, to)[k]) == users_between(
            cells,
            from,
            to,
        ).take(k),
    decreases to - from,
{
    lemma_users_between(cells, from, to);
    let all = users_between(cells, from, to);
    let before = users_between(cells, from, to - 1);
    if k < before.len() {
        lemma_users_up_to(cells, from, to - 1, k);
        assert(all[k] == before[k]);
        assert(all.take(k) =~= before.take(k));
    } else {
        assert(all.take(k) =~= before);
    }
}

/// Going back before message `nth` leaves exactly the `nth` messages before it.
pub proof fn law_going_back_keeps_earlier_messages(cells: Seq<CellKind>, nth: usize)
    requires
        nth < user_places(cells).len(),
        nth != usize::MAX,
    ensures
        user_places(cells.take(cut_before(cells, nth))) == user_places(cells).take(nth as int),
{
    let start = session_start(cells);
    let at = cut_before(cells, nth);
    lemma_session_start(cells);
    lemma_users_between(cells, start, cells.len() as int);
    assert(user_places(cells)[nth as int] == at);
    lemma_session_start_prefix(cells, at);
    lemma_users_prefix(cells, start, at, at);
    lemma_users_up_to(cells, start, cells.len() as int, nth as int);
}

} // verus!
