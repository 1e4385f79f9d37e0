//! Streaming of markdown: what is complete is shown at once, and the source is kept so that it can be
//! shown again at another width.
//!
//! `rendered_lines` is how the source is shown. `enqueued_len` says how much of it has been offered to
//! the queue, and `emitted_len` how much of it has left the queue. With the two apart, the queue can
//! be built anew after a change of width without showing a line twice.
//!
//! Rendering happens outside: a step says what is to be rendered, and the lines are handed back. A
//! line is a handle that can be copied and compared. Times are nanoseconds of one clock.
use vstd::prelude::*;
use vstd::std_specs::cmp::PartialEqSpec;
use vstd::string::*;

use crate::live_table::{
    piece_models, process_live_table_preview_source, scanned, table_model, Edge, LivePipeTable, PieceModel, PreviewPiece,
    TableModel,
};
use crate::text::{contains_char, owned, slice_text, text_of, to_chars};

verus! {

/// A line that waits to be shown, and since when.
#[derive(Debug, PartialEq, Eq)]
pub struct QueuedLine<L> {
    pub line: L,
    pub enqueued_at: u128,
}

/// A stream of markdown.
#[derive(Debug, PartialEq, Eq)]
pub struct StreamCore<L> {
    /// What has come since the last line feed.
    pub buffer: String,
    pub has_seen_delta: bool,
    pub queue: Vec<QueuedLine<L>>,
    pub width: Option<usize>,
    /// What has come up to the last line feed.
    pub raw_source: String,
    pub rendered_lines: Vec<L>,
    pub enqueued_len: usize,
    pub emitted_len: usize,
    pub live_table: Option<LivePipeTable>,
    pub live_table_candidate_header: Option<String>,
}

/// A stream of markdown.
#[verifier::ext_equal]
pub struct CoreModel<L> {
    pub buffer: Seq<char>,
    pub has_seen_delta: bool,
    pub queue: Seq<QueuedLine<L>>,
    pub width: Option<usize>,
    pub source: Seq<char>,
    pub rendered: Seq<L>,
    pub enqueued: int,
    pub emitted: int,
    pub table: Option<TableModel>,
    pub candidate: Option<Seq<char>>,
}

impl<L> StreamCore<L> {
    pub open spec fn model(self) -> CoreModel<L> {
        CoreModel {
            buffer: self.buffer@,
            has_seen_delta: self.has_seen_delta,
            queue: self.queue@,
            width: self.width,
            source: self.raw_source@,
            rendered: self.rendered_lines@,
            enqueued: self.enqueued_len as int,
            emitted: self.emitted_len as int,
            table: table_model(self.live_table),
            candidate: text_of(self.live_table_candidate_header),
        }
    }
}

/// What is to be rendered after some text has come.
#[derive(Debug, PartialEq, Eq)]
pub enum PushStep {
    /// Nothing.
    Waiting,
    /// These pieces; their lines are added.
    Preview { pieces: Vec<PreviewPiece> },
    /// The whole source, at the stream's width.
    Render,
}

/// What is to be rendered after some text has come.
#[verifier::ext_equal]
pub enum PushModel {
    Waiting,
    Preview { pieces: Seq<PieceModel> },
    Render,
}

impl PushStep {
    pub open spec fn model(self) -> PushModel {
        match self {
            PushStep::Waiting => PushModel::Waiting,
            PushStep::Preview { pieces } => PushModel::Preview { pieces: piece_models(pieces@) },
            PushStep::Render => PushModel::Render,
        }
    }
}

/// What is to be rendered at the end.
#[derive(Debug, PartialEq, Eq)]
pub enum FinalStep {
    /// These pieces; their lines are added.
    Append { pieces: Vec<PreviewPiece> },
    /// The whole source, at the stream's width.
    Whole,
}

/// What is to be rendered at the end.
#[verifier::ext_equal]
pub enum FinalModel {
    Append { pieces: Seq<PieceModel> },
    Whole,
}

impl FinalStep {
    pub open spec fn model(self) -> FinalModel {
        match self {
            FinalStep::Append { pieces } => FinalModel::Append { pieces: piece_models(pieces@) },
            FinalStep::Whole => FinalModel::Whole,
        }
    }
}

/// How much of a text ends with its last line feed.
pub open spec fn complete_len(text: Seq<char>) -> int
    decreases text.len(),
{
    if text.len() == 0 {
        0
    } else if text.last() == '\n' {
        text.len() as int
    } else {
        complete_len(text.drop_last())
    }
}

proof fn lemma_complete_len(text: Seq<char>)
    ensures
        0 <= complete_len(text) <= text.len(),
        complete_len(text) > 0 <==> text.contains('\n'),
    decreases text.len(),
{
    if text.len() > 0 {
        lemma_complete_len(text.drop_last());
        assert(text.contains('\n') <==> text.last() == '\n' || text.drop_last().contains('\n')) by {
            if text.contains('\n') {
                let i = choose|i: int| 0 <= i < text.len() && text[i] == '\n';
                if i < text.len() - 1 {
                    assert(text.drop_last()[i] == '\n');
                }
            }
            if text.drop_last().contains('\n') {
                let i = choose|i: int|
                    0 <= i < text.drop_last().len() && text.drop_last()[i] == '\n';
                assert(text[i] == '\n');
            }
            if text.last() == '\n' {
                assert(text[text.len() - 1] == '\n');
            }
        }
    }
}

/// A source is read: tables in it are followed.
pub open spec fn reading<L>(core: CoreModel<L>, committed: Seq<char>) -> (
    CoreModel<L>,
    bool,
    Seq<PieceModel>,
) {
    let end = scanned(core.table, core.candidate, committed, core.width);
    (
        CoreModel {
            source: core.source + committed,
            table: end.table,
            candidate: end.candidate,
            ..core
        },
        end.handled,
        end.shown,
    )
}

/// Some text comes. It is read up to its last line feed.
pub open spec fn pushing<L>(core: CoreModel<L>, delta: Seq<char>) -> (CoreModel<L>, PushModel) {
    let buffer = core.buffer + delta;
    let seen = core.has_seen_delta || delta.len() > 0;
    if !delta.contains('\n') {
        (CoreModel { buffer, has_seen_delta: seen, ..core }, PushModel::Waiting)
    } else {
        let cut = complete_len(buffer);
        let (after, handled, shown) = reading(
            CoreModel { buffer: buffer.skip(cut), has_seen_delta: seen, ..core },
            buffer.take(cut),
        );
        (
            after,
            if handled {
                PushModel::Preview { pieces: shown }
            } else {
                PushModel::Render
            },
        )
    }
}

/// Lines that wait since a time.
pub open spec fn queued_at<L>(lines: Seq<L>, now: u128) -> Seq<QueuedLine<L>> {
    Seq::new(lines.len(), |i: int| QueuedLine { line: lines[i], enqueued_at: now })
}

/// The lines of a queue.
pub open spec fn waiting_lines<L>(queue: Seq<QueuedLine<L>>) -> Seq<L> {
    Seq::new(queue.len(), |i: int| queue[i].line)
}

/// Lines of a preview are added and queued.
pub open spec fn previewing<L>(core: CoreModel<L>, lines: Seq<L>, now: u128) -> CoreModel<L> {
    CoreModel {
        rendered: core.rendered + lines,
        queue: core.queue + queued_at(lines, now),
        enqueued: (core.rendered.len() + lines.len()) as int,
        ..core
    }
}

/// The larger of two numbers.
pub open spec fn larger(a: int, b: int) -> int {
    if a < b {
        b
    } else {
        a
    }
}

/// Whether lines for the whole source reach from what has been queued, or left, on.
pub open spec fn reaches<L>(core: CoreModel<L>, lines: nat) -> bool {
    core.emitted <= lines || core.emitted <= core.enqueued
}

/// The queue is built anew from the lines that have not left it.
pub open spec fn requeued<L>(core: CoreModel<L>, now: u128) -> CoreModel<L> {
    let fresh = if core.emitted < core.rendered.len() {
        queued_at(core.rendered.skip(core.emitted), now)
    } else {
        Seq::empty()
    };
    CoreModel {
        queue: fresh,
        enqueued: larger(core.rendered.len() as int, core.emitted),
        ..core
    }
}

/// Whether there are fewer lines for the whole source than have been queued.
pub open spec fn shrinks<L>(core: CoreModel<L>, lines: Seq<L>) -> bool {
    larger(lines.len() as int, core.emitted) < core.enqueued
}

/// The lines of the whole source that are queued when it is rendered: those that were never queued.
/// Where there are fewer than have been queued, all that have not left the queue are queued anew.
pub open spec fn newly_queued<L>(core: CoreModel<L>, lines: Seq<L>) -> Seq<L> {
    let from = if shrinks(core, lines) {
        core.emitted
    } else {
        core.enqueued
    };
    if from < lines.len() {
        lines.skip(from)
    } else {
        Seq::empty()
    }
}

/// Whether a line waits that did not wait before.
pub open spec fn waits_anew<L>(before: CoreModel<L>, after: CoreModel<L>) -> bool {
    !waiting_lines(after.queue).is_prefix_of(waiting_lines(before.queue))
}

/// Whether `==` on lines says whether they are the same.
pub open spec fn lines_compare<L: PartialEq>() -> bool {
    &&& L::obeys_eq_spec()
    &&& forall|a: L, b: L| #[trigger] a.eq_spec(&b) <==> a == b
}

/// The whole source is rendered: lines that are new are queued. Where there are fewer lines than have
/// been queued, they take the place of those that wait.
pub open spec fn rerendering<L>(core: CoreModel<L>, lines: Seq<L>, now: u128) -> CoreModel<L> {
    let fresh = queued_at(newly_queued(core, lines), now);
    CoreModel {
        rendered: lines,
        queue: if shrinks(core, lines) {
            fresh
        } else {
            core.queue + fresh
        },
        enqueued: larger(lines.len() as int, core.emitted),
        ..core
    }
}

/// How many lines leave the queue: `count` of them or all there are.
pub open spec fn leaving_count<L>(core: CoreModel<L>, count: nat) -> nat {
    if count < core.queue.len() {
        count
    } else {
        core.queue.len()
    }
}

/// Lines leave the queue, `count` of them or all there are.
pub open spec fn leaving<L>(core: CoreModel<L>, count: nat) -> (CoreModel<L>, Seq<L>) {
    let n = leaving_count(core, count);
    (
        CoreModel { queue: core.queue.skip(n as int), emitted: core.emitted + n, ..core },
        waiting_lines(core.queue.take(n as int)),
    )
}

/// The width changes and the whole source is rendered: lines that have left the queue do not come
/// again. Where lines waited and all lines would have left, the last one waits again.
pub open spec fn resizing<L>(core: CoreModel<L>, lines: Seq<L>, now: u128) -> CoreModel<L> {
    let waited = core.queue.len() > 0;
    let kept = if core.emitted < lines.len() {
        core.emitted
    } else {
        lines.len() as int
    };
    let emitted = if waited && kept == lines.len() && kept > 0 {
        kept - 1
    } else {
        kept
    };
    let fresh = CoreModel { rendered: lines, emitted, queue: Seq::empty(), ..core };
    if emitted > 0 && !waited {
        CoreModel { enqueued: lines.len() as int, ..fresh }
    } else {
        requeued(fresh, now)
    }
}

/// How long the first line in the queue has waited.
pub open spec fn waited<L>(core: CoreModel<L>, now: u128) -> Option<u128> {
    if core.queue.len() == 0 {
        None
    } else if now < core.queue[0].enqueued_at {
        Some(0)
    } else {
        Some((now - core.queue[0].enqueued_at) as u128)
    }
}

/// The border that closes a table.
pub open spec fn closing_border(table: Option<TableModel>) -> Seq<PieceModel> {
    match table {
        Some(open) => seq![PieceModel::Border { edge: Edge::Bottom, shape: open.shape }],
        None => Seq::empty(),
    }
}

/// The stream ends: what has come since the last line feed is read, and an open table is closed.
pub open spec fn ending<L>(core: CoreModel<L>) -> (CoreModel<L>, FinalModel) {
    let drained = CoreModel { buffer: Seq::empty(), ..core };
    let (after, handled, shown) = if core.buffer.len() == 0 {
        (drained, false, Seq::empty())
    } else {
        reading(drained, core.buffer)
    };
    if handled {
        (
            CoreModel { table: None, ..after },
            FinalModel::Append { pieces: shown + closing_border(after.table) },
        )
    } else if after.table is Some {
        (
            CoreModel { table: None, ..after },
            FinalModel::Append { pieces: closing_border(after.table) },
        )
    } else if after.candidate is Some {
        (
            CoreModel { candidate: None, ..after },
            FinalModel::Append {
                pieces: seq![PieceModel::Markdown { text: after.candidate->0 }],
            },
        )
    } else {
        (after, FinalModel::Whole)
    }
}

/// The source that is handed out at the end. There is none where nothing came.
pub open spec fn final_source<L>(core: CoreModel<L>) -> Option<Seq<char>> {
    if core.source.len() == 0 {
        None
    } else {
        Some(core.source)
    }
}

/// The lines that are left to show at the end.
pub open spec fn remaining<L>(core: CoreModel<L>, whole: bool, lines: Seq<L>) -> Seq<L> {
    let all = if whole {
        lines
    } else {
        core.rendered + lines
    };
    if core.emitted < all.len() {
        all.skip(core.emitted)
    } else {
        Seq::empty()
    }
}

/// A stream to which nothing has come.
pub open spec fn empty_core<L>(width: Option<usize>) -> CoreModel<L> {
    CoreModel {
        buffer: Seq::empty(),
        has_seen_delta: false,
        queue: Seq::empty(),
        width,
        source: Seq::empty(),
        rendered: Seq::empty(),
        enqueued: 0,
        emitted: 0,
        table: None,
        candidate: None,
    }
}

fn enqueue<L: Copy>(
    queue: &mut Vec<QueuedLine<L>>,
    lines: &[L],
    from: usize,
    to: usize,
    now: u128,
)
    requires
        from <= to <= lines@.len(),
    ensures
        final(queue)@ == old(queue)@ + queued_at(lines@.subrange(from as int, to as int), now),
{
    let ghost start = queue@;
    let mut i: usize = from;
    assert(queue@ =~= start + queued_at(lines@.subrange(from as int, from as int), now));
    while i < to
        invariant
            from <= i <= to <= lines@.len(),
            queue@ == start + queued_at(lines@.subrange(from as int, i as int), now),
        decreases to - i,
    {
        queue.push(QueuedLine { line: lines[i], enqueued_at: now });
        assert(queue@ =~= start + queued_at(lines@.subrange(from as int, i + 1), now));
        i += 1;
    }
}

impl<L: Copy + PartialEq> StreamCore<L> {
    /// A stream to which nothing has come.
    pub fn new(width: Option<usize>) -> (r: StreamCore<L>)
        ensures
            r.model() == empty_core::<L>(width),
    {
        proof {
            reveal_strlit("");
        }
        let core = StreamCore {
            buffer: owned(""),
            has_seen_delta: false,
            queue: Vec::new(),
            width,
            raw_source: owned(""),
            rendered_lines: Vec::new(),
            enqueued_len: 0,
            emitted_len: 0,
            live_table: None,
            live_table_candidate_header: None,
        };
        assert(core.model() =~= empty_core::<L>(width));
        core
    }

    fn read(&mut self, committed: &str) -> (r: (bool, Vec<PreviewPiece>))
        ensures
            (final(self).model(), r.0, piece_models(r.1@)) == reading(
                old(self).model(),
                committed@,
            ),
    {
        self.raw_source.append(committed);
        process_live_table_preview_source(
            &mut self.live_table,
            &mut self.live_table_candidate_header,
            committed,
            self.width,
        )
    }

    /// Takes some text.
    pub fn push_delta(&mut self, delta: &str) -> (r: PushStep)
        ensures
            (final(self).model(), r.model()) == pushing(old(self).model(), delta@),
    {
        let ghost start = self.model();
        if !delta.is_empty() {
            self.has_seen_delta = true;
        }
        self.buffer.append(delta);
        if !contains_char(delta, '\n') {
            return PushStep::Waiting;
        }
        let chars = to_chars(self.buffer.as_str());
        let ghost buffer = chars@;
        let mut cut: usize = chars.len();
        assert(buffer.take(cut as int) =~= buffer);
        while cut > 0 && chars[cut - 1] != '\n'
            invariant
                cut <= chars@.len(),
                buffer == chars@,
                complete_len(buffer) == complete_len(buffer.take(cut as int)),
            decreases cut,
        {
            assert(buffer.take(cut as int).last() == chars@[cut - 1]);
            assert(buffer.take(cut as int).drop_last() =~= buffer.take(cut - 1));
            cut -= 1;
        }
        proof {
            if cut > 0 {
                assert(buffer.take(cut as int).last() == chars@[cut - 1]);
            }
            assert(complete_len(buffer) == cut);
        }
        let committed = slice_text(chars.as_slice(), 0, cut);
        self.buffer = slice_text(chars.as_slice(), cut, chars.len());
        assert(committed@ =~= buffer.take(cut as int));
        assert(self.buffer@ =~= buffer.skip(cut as int));
        let (handled, pieces) = self.read(committed.as_str());
        if handled {
            PushStep::Preview { pieces }
        } else {
            PushStep::Render
        }
    }

    /// Takes the lines of a preview. Returns whether lines were queued.
    pub fn preview_rendered(&mut self, lines: &[L], now: u128) -> (r: bool)
        requires
            old(self).rendered_lines@.len() + lines@.len() <= usize::MAX,
        ensures
            final(self).model() == previewing(old(self).model(), lines@, now),
            r == (lines@.len() > 0),
    {
        let ghost start = self.model();
        let mut i: usize = 0;
        assert(self.rendered_lines@ =~= start.rendered + lines@.take(0));
        while i < lines.len()
            invariant
                i <= lines@.len(),
                self.rendered_lines@ == start.rendered + lines@.take(i as int),
                self.model() == (CoreModel { rendered: self.rendered_lines@, ..start }),
            decreases lines@.len() - i,
        {
            let ghost before = self.rendered_lines@;
            self.rendered_lines.push(lines[i]);
            assert(self.rendered_lines@ =~= start.rendered + lines@.take(i + 1));
            i += 1;
        }
        assert(lines@.take(i as int) =~= lines@);
        enqueue(&mut self.queue, lines, 0, lines.len(), now);
        assert(lines@.subrange(0, lines@.len() as int) =~= lines@);
        self.enqueued_len = self.rendered_lines.len();
        assert(self.model() =~= previewing(start, lines@, now));
        lines.len() > 0
    }

    fn rebuild_queue_from_render(&mut self, now: u128)
        ensures
            final(self).model() == requeued(old(self).model(), now),
    {
        let ghost start = self.model();
        self.queue = Vec::new();
        let total: usize = self.rendered_lines.len();
        if self.emitted_len < total {
            enqueue(&mut self.queue, self.rendered_lines.as_slice(), self.emitted_len, total, now);
            assert(self.rendered_lines@.subrange(self.emitted_len as int, total as int)
                =~= self.rendered_lines@.skip(self.emitted_len as int));
            self.enqueued_len = total;
        } else {
            self.enqueued_len = self.emitted_len;
        }
        assert(self.model() =~= requeued(start, now));
    }

    /// Whether lines for the whole source can be taken.
    pub fn can_take(&self, lines: usize) -> (r: bool)
        ensures
            r == reaches(self.model(), lines as nat),
    {
        self.emitted_len <= lines || self.emitted_len <= self.enqueued_len
    }

    /// Whether the lines from the first that has not left on are those that wait, or the first of
    /// them.
    fn still_waiting(&self) -> (r: bool)
        requires
            lines_compare::<L>(),
        ensures
            r == if self.emitted_len < self.rendered_lines@.len() {
                self.rendered_lines@.skip(self.emitted_len as int).is_prefix_of(
                    waiting_lines(self.queue@),
                )
            } else {
                true
            },
    {
        let total: usize = self.rendered_lines.len();
        if self.emitted_len >= total {
            return true;
        }
        let count: usize = total - self.emitted_len;
        let ghost fresh = self.rendered_lines@.skip(self.emitted_len as int);
        let ghost waiting = waiting_lines(self.queue@);
        if count > self.queue.len() {
            return false;
        }
        let mut i: usize = 0;
        while i < count
            invariant
                lines_compare::<L>(),
                i <= count <= self.queue@.len(),
                total == self.rendered_lines@.len(),
                count == total - self.emitted_len,
                fresh == self.rendered_lines@.skip(self.emitted_len as int),
                waiting == waiting_lines(self.queue@),
                forall|k: int| 0 <= k < i ==> fresh[k] == waiting[k],
            decreases count - i,
        {
            if self.rendered_lines[self.emitted_len + i] != self.queue[i].line {
                assert(fresh[i as int] != waiting[i as int]);
                assert(waiting.subrange(0, fresh.len() as int)[i as int] == waiting[i as int]);
                return false;
            }
            assert(fresh[i as int] == waiting[i as int]);
            i += 1;
        }
        assert(fresh =~= waiting.subrange(0, fresh.len() as int));
        true
    }

    /// Takes the lines of the whole source. Returns whether a line waits that did not wait before.
    pub fn source_rendered(&mut self, lines: Vec<L>, now: u128) -> (r: bool)
        requires
            reaches(old(self).model(), lines@.len()),
            lines_compare::<L>(),
        ensures
            final(self).model() == rerendering(old(self).model(), lines@, now),
            r == waits_anew(old(self).model(), final(self).model()),
    {
        let ghost start = self.model();
        self.rendered_lines = lines;
        let total: usize = self.rendered_lines.len();
        let target: usize = if total < self.emitted_len {
            self.emitted_len
        } else {
            total
        };
        if target < self.enqueued_len {
            let still_waiting = self.still_waiting();
            self.rebuild_queue_from_render(now);
            assert(self.model() =~= rerendering(start, lines@, now));
            assert(waiting_lines(self.queue@) =~= newly_queued(start, lines@));
            return !still_waiting;
        }
        if target == self.enqueued_len {
            assert(self.model() =~= rerendering(start, lines@, now));
            return false;
        }
        enqueue(
            &mut self.queue,
            self.rendered_lines.as_slice(),
            self.enqueued_len,
            target,
            now,
        );
        assert(self.rendered_lines@.subrange(start.enqueued, target as int)
            =~= self.rendered_lines@.skip(start.enqueued));
        self.enqueued_len = target;
        assert(self.model() =~= rerendering(start, lines@, now));
        true
    }

    fn drain(&mut self, count: usize) -> (r: Vec<L>)
        requires
            old(self).emitted_len + leaving_count(old(self).model(), count as nat) <= usize::MAX,
        ensures
            (final(self).model(), r@) == leaving(old(self).model(), count as nat),
    {
        let ghost start = self.model();
        let n: usize = if count < self.queue.len() {
            count
        } else {
            self.queue.len()
        };
        let mut out: Vec<L> = Vec::new();
        let mut i: usize = 0;
        while i < n
            invariant
                i <= n <= self.queue@.len(),
                out@.len() == i,
                forall|j: int| 0 <= j < i ==> #[trigger] out@[j] == self.queue@[j].line,
            decreases n - i,
        {
            out.push(self.queue[i].line);
            i += 1;
        }
        let mut rest: Vec<QueuedLine<L>> = Vec::new();
        while i < self.queue.len()
            invariant
                n <= i <= self.queue@.len(),
                rest@ == self.queue@.subrange(n as int, i as int),
            decreases self.queue@.len() - i,
        {
            let held = &self.queue[i];
            rest.push(QueuedLine { line: held.line, enqueued_at: held.enqueued_at });
            assert(rest@ =~= self.queue@.subrange(n as int, i + 1));
            i += 1;
        }
        assert(rest@ =~= self.queue@.skip(n as int));
        self.queue = rest;
        self.emitted_len += n;
        assert(out@ =~= waiting_lines(start.queue.take(n as int)));
        assert(self.model() =~= leaving(start, count as nat).0);
        out
    }

    /// Lets the first line leave the queue.
    pub fn tick(&mut self) -> (r: Vec<L>)
        requires
            old(self).emitted_len + leaving_count(old(self).model(), 1) <= usize::MAX,
        ensures
            (final(self).model(), r@) == leaving(old(self).model(), 1),
    {
        self.drain(1)
    }

    /// Lets the first lines leave the queue, `max_lines` at most.
    pub fn tick_batch(&mut self, max_lines: usize) -> (r: Vec<L>)
        requires
            old(self).emitted_len + leaving_count(old(self).model(), max_lines as nat)
                <= usize::MAX,
        ensures
            (final(self).model(), r@) == leaving(old(self).model(), max_lines as nat),
    {
        self.drain(max_lines)
    }

    /// How many lines wait.
    pub fn queued_lines(&self) -> (r: usize)
        ensures
            r == self.model().queue.len(),
    {
        self.queue.len()
    }

    /// How long the first line has waited.
    pub fn oldest_queued_age(&self, now: u128) -> (r: Option<u128>)
        ensures
            r == waited(self.model(), now),
    {
        if self.queue.len() == 0 {
            None
        } else if now < self.queue[0].enqueued_at {
            Some(0)
        } else {
            Some(now - self.queue[0].enqueued_at)
        }
    }

    /// Whether no line waits.
    pub fn is_idle(&self) -> (r: bool)
        ensures
            r == (self.model().queue.len() == 0),
    {
        self.queue.len() == 0
    }

    /// Changes the width. Returns whether the source has to be rendered for it.
    pub fn set_width(&mut self, width: Option<usize>) -> (r: bool)
        ensures
            r == (old(self).width != width && old(self).model().source.len() > 0),
            final(self).model() == (CoreModel { width, ..old(self).model() }),
    {
        if self.width == width {
            return false;
        }
        self.width = width;
        !self.raw_source.as_str().is_empty()
    }

    /// Takes the lines of the whole source after a change of width.
    pub fn width_rendered(&mut self, lines: Vec<L>, now: u128)
        ensures
            final(self).model() == resizing(old(self).model(), lines@, now),
    {
        let ghost start = self.model();
        let waited = self.queue.len() > 0;
        self.rendered_lines = lines;
        let total: usize = self.rendered_lines.len();
        if self.emitted_len > total {
            self.emitted_len = total;
        }
        if waited && self.emitted_len == total && self.emitted_len > 0 {
            self.emitted_len -= 1;
        }
        self.queue = Vec::new();
        assert(self.queue@ =~= Seq::<QueuedLine<L>>::empty());
        if self.emitted_len > 0 && !waited {
            self.enqueued_len = total;
            return;
        }
        self.rebuild_queue_from_render(now);
    }

    /// Drops the lines that wait.
    pub fn clear_queue(&mut self)
        ensures
            final(self).model() == (CoreModel {
                queue: Seq::empty(),
                enqueued: old(self).model().emitted,
                ..old(self).model()
            }),
    {
        self.queue = Vec::new();
        self.enqueued_len = self.emitted_len;
        assert(self.queue@ =~= Seq::<QueuedLine<L>>::empty());
    }

    /// Starts anew.
    pub fn reset(&mut self)
        ensures
            final(self).model() == empty_core::<L>(old(self).width),
    {
        *self = Self::new(self.width);
    }

    /// Ends the stream. Returns what is to be rendered.
    pub fn begin_finalize(&mut self) -> (r: FinalStep)
        ensures
            (final(self).model(), r.model()) == ending(old(self).model()),
    {
        let ghost start = self.model();
        proof {
            reveal_strlit("");
        }
        let mut remainder = owned("");
        std::mem::swap(&mut remainder, &mut self.buffer);
        assert(self.buffer@ =~= Seq::<char>::empty());
        let mut pieces: Vec<PreviewPiece> = Vec::new();
        let mut handled = false;
        assert(piece_models(pieces@) =~= Seq::<PieceModel>::empty());
        if !remainder.as_str().is_empty() {
            let read = self.read(remainder.as_str());
            handled = read.0;
            pieces = read.1;
        }
        let ghost after = self.model();
        if handled || self.live_table.is_some() {
            let ghost shown = if handled {
                piece_models(pieces@)
            } else {
                Seq::<PieceModel>::empty()
            };
            let mut all: Vec<PreviewPiece> = if handled {
                pieces
            } else {
                Vec::new()
            };
            assert(piece_models(all@) =~= shown);
            let ghost before = all@;
            match self.live_table.take() {
                Some(table) => {
                    let border = PreviewPiece::Border { edge: Edge::Bottom, shape: table.shape };
                    all.push(border);
                    assert(piece_models(all@) =~= piece_models(before).push(border.model()));
                },
                None => {},
            }
            assert(piece_models(all@) =~= shown + closing_border(after.table));
            assert(!handled ==> shown + closing_border(after.table) =~= closing_border(
                after.table,
            ));
            return FinalStep::Append { pieces: all };
        }
        match self.live_table_candidate_header.take() {
            Some(header) => {
                let piece = PreviewPiece::Markdown { text: header };
                let all: Vec<PreviewPiece> = vec![piece];
                assert(piece_models(all@) =~= seq![piece.model()]);
                FinalStep::Append { pieces: all }
            },
            None => FinalStep::Whole,
        }
    }

    /// The lines that are left to show, once the last ones are rendered: `whole` says that they are
    /// those of the whole source.
    pub fn finalize_remaining(&self, whole: bool, lines: &[L]) -> (r: Vec<L>)
        requires
            whole || self.emitted_len <= self.rendered_lines@.len() + lines@.len(),
        ensures
            r@ == remaining(self.model(), whole, lines@),
    {
        let ghost core = self.model();
        let ghost all = if whole {
            lines@
        } else {
            core.rendered + lines@
        };
        let mut out: Vec<L> = Vec::new();
        let held: usize = if whole {
            0
        } else {
            self.rendered_lines.len()
        };
        let from: usize = if self.emitted_len < held {
            self.emitted_len
        } else {
            held
        };
        let mut i: usize = from;
        while i < held
            invariant
                from <= i <= held <= self.rendered_lines@.len(),
                out@ == self.rendered_lines@.subrange(from as int, i as int),
            decreases held - i,
        {
            out.push(self.rendered_lines[i]);
            assert(out@ =~= self.rendered_lines@.subrange(from as int, i + 1));
            i += 1;
        }
        let ghost head = out@;
        let rest: usize = self.emitted_len - from;
        let skipped: usize = if rest < lines.len() {
            rest
        } else {
            lines.len()
        };
        let mut k: usize = skipped;
        assert(out@ =~= head + lines@.subrange(skipped as int, skipped as int));
        while k < lines.len()
            invariant
                skipped <= k <= lines@.len(),
                out@ == head + lines@.subrange(skipped as int, k as int),
            decreases lines@.len() - k,
        {
            out.push(lines[k]);
            assert(out@ =~= head + lines@.subrange(skipped as int, k + 1));
            k += 1;
        }
        assert(out@ =~= remaining(core, whole, lines@));
        out
    }
}

/// A message that is shown while it streams: its lines, and whether it is the first part.
#[derive(Debug, PartialEq, Eq)]
pub struct StreamedCell<L> {
    pub lines: Vec<L>,
    pub is_first: bool,
}

/// Controls the streaming of a message.
#[derive(Debug, PartialEq, Eq)]
pub struct StreamController<L> {
    pub core: StreamCore<L>,
    pub header_emitted: bool,
}

/// Whether a cell holds these lines: there is none without lines.
pub open spec fn shows<L>(cell: Option<StreamedCell<L>>, lines: Seq<L>, first: bool) -> bool {
    match cell {
        Some(shown) => lines.len() > 0 && shown.lines@ == lines && shown.is_first == first,
        None => lines.len() == 0,
    }
}

impl<L: Copy + PartialEq> StreamController<L> {
    /// A controller to which nothing has come.
    pub fn new(width: Option<usize>) -> (r: StreamController<L>)
        ensures
            r.core.model() == empty_core::<L>(width),
            !r.header_emitted,
    {
        StreamController { core: StreamCore::new(width), header_emitted: false }
    }

    /// Takes some text.
    pub fn push(&mut self, delta: &str) -> (r: PushStep)
        ensures
            (final(self).core.model(), r.model()) == pushing(old(self).core.model(), delta@),
            final(self).header_emitted == old(self).header_emitted,
    {
        self.core.push_delta(delta)
    }

    fn emit(&mut self, lines: Vec<L>) -> (r: Option<StreamedCell<L>>)
        ensures
            shows(r, lines@, !old(self).header_emitted),
            final(self).core == old(self).core,
            final(self).header_emitted == (old(self).header_emitted || lines@.len() > 0),
    {
        if lines.len() == 0 {
            return None;
        }
        let is_first = !self.header_emitted;
        self.header_emitted = true;
        Some(StreamedCell { lines, is_first })
    }

    /// Ends the stream. Returns what is to be rendered.
    pub fn begin_finalize(&mut self) -> (r: FinalStep)
        ensures
            (final(self).core.model(), r.model()) == ending(old(self).core.model()),
            final(self).header_emitted == old(self).header_emitted,
    {
        self.core.begin_finalize()
    }

    /// The last lines, once they are rendered, and the source. There is none where nothing came.
    pub fn finalize(&mut self, whole: bool, lines: &[L]) -> (r: (
        Option<StreamedCell<L>>,
        Option<String>,
    ))
        requires
            whole || old(self).core.emitted_len <= old(self).core.rendered_lines@.len()
                + lines@.len(),
        ensures
            final(self).core.model() == empty_core::<L>(old(self).core.width),
            ({
                let core = old(self).core.model();
                &&& text_of(r.1) == final_source(core)
                &&& if core.source.len() == 0 {
                    r.0 is None && final(self).header_emitted == old(self).header_emitted
                } else {
                    &&& shows(r.0, remaining(core, whole, lines@), !old(self).header_emitted)
                    &&& final(self).header_emitted == (old(self).header_emitted || remaining(
                        core,
                        whole,
                        lines@,
                    ).len() > 0)
                }
            }),
    {
        let last = self.core.finalize_remaining(whole, lines);
        if self.core.raw_source.as_str().is_empty() {
            self.core.reset();
            return (None, None);
        }
        let source = owned(self.core.raw_source.as_str());
        let cell = self.emit(last);
        self.core.reset();
        (cell, Some(source))
    }

    /// Shows the first line that waits. Also says whether no line waits then.
    pub fn on_commit_tick(&mut self) -> (r: (Option<StreamedCell<L>>, bool))
        requires
            old(self).core.emitted_len + leaving_count(old(self).core.model(), 1)
                <= usize::MAX,
        ensures
            ({
                let (after, lines) = leaving(old(self).core.model(), 1);
                &&& final(self).core.model() == after
                &&& shows(r.0, lines, !old(self).header_emitted)
                &&& r.1 == (after.queue.len() == 0)
                &&& final(self).header_emitted == (old(self).header_emitted || lines.len() > 0)
            }),
    {
        let step = self.core.tick();
        let cell = self.emit(step);
        (cell, self.core.is_idle())
    }

    /// Shows the first lines that wait, `max_lines` at most. Also says whether no line waits then.
    pub fn on_commit_tick_batch(&mut self, max_lines: usize) -> (r: (
        Option<StreamedCell<L>>,
        bool,
    ))
        requires
            old(self).core.emitted_len + leaving_count(old(self).core.model(), max_lines as nat)
                <= usize::MAX,
        ensures
            ({
                let (after, lines) = leaving(old(self).core.model(), max_lines as nat);
                &&& final(self).core.model() == after
                &&& shows(r.0, lines, !old(self).header_emitted)
                &&& r.1 == (after.queue.len() == 0)
                &&& final(self).header_emitted == (old(self).header_emitted || lines.len() > 0)
            }),
    {
        let step = self.core.tick_batch(max_lines);
        let cell = self.emit(step);
        (cell, self.core.is_idle())
    }

    /// How many lines wait.
    pub fn queued_lines(&self) -> (r: usize)
        ensures
            r == self.core.model().queue.len(),
    {
        self.core.queued_lines()
    }

    /// Takes the lines of a preview. Returns whether lines were queued.
    pub fn preview_rendered(&mut self, lines: &[L], now: u128) -> (r: bool)
        requires
            old(self).core.rendered_lines@.len() + lines@.len() <= usize::MAX,
        ensures
            final(self).core.model() == previewing(old(self).core.model(), lines@, now),
            r == (lines@.len() > 0),
            final(self).header_emitted == old(self).header_emitted,
    {
        self.core.preview_rendered(lines, now)
    }

    /// Takes the lines of the whole source. Returns whether a line waits that did not wait before.
    pub fn source_rendered(&mut self, lines: Vec<L>, now: u128) -> (r: bool)
        requires
            reaches(old(self).core.model(), lines@.len()),
            lines_compare::<L>(),
        ensures
            final(self).core.model() == rerendering(old(self).core.model(), lines@, now),
            r == waits_anew(old(self).core.model(), final(self).core.model()),
            final(self).header_emitted == old(self).header_emitted,
    {
        self.core.source_rendered(lines, now)
    }

    /// Changes the width. Returns whether the source has to be rendered for it.
    pub fn set_width(&mut self, width: Option<usize>) -> (r: bool)
        ensures
            r == (old(self).core.width != width && old(self).core.model().source.len() > 0),
            final(self).core.model() == (CoreModel { width, ..old(self).core.model() }),
            final(self).header_emitted == old(self).header_emitted,
    {
        self.core.set_width(width)
    }

    /// Takes the lines of the whole source after a change of width.
    pub fn width_rendered(&mut self, lines: Vec<L>, now: u128)
        ensures
            final(self).core.model() == resizing(old(self).core.model(), lines@, now),
            final(self).header_emitted == old(self).header_emitted,
    {
        self.core.width_rendered(lines, now)
    }

    /// Drops the lines that wait.
    pub fn clear_queue(&mut self)
        ensures
            final(self).core.model() == (CoreModel {
                queue: Seq::empty(),
                enqueued: old(self).core.model().emitted,
                ..old(self).core.model()
            }),
            final(self).header_emitted == old(self).header_emitted,
    {
        self.core.clear_queue()
    }

    /// How long the first line has waited.
    pub fn oldest_queued_age(&self, now: u128) -> (r: Option<u128>)
        ensures
            r == waited(self.core.model(), now),
    {
        self.core.oldest_queued_age(now)
    }
}

/// A line of a plan.
#[derive(Debug, PartialEq, Eq)]
pub enum PlanLine<L> {
    /// The title.
    Title,
    /// The empty line below the title.
    Blank,
    /// An empty line of the plan's body.
    Padding,
    /// A line of the plan's body.
    Body { line: L },
}

/// A plan that is shown while it streams: its lines, and whether it continues one that is shown.
#[derive(Debug, PartialEq, Eq)]
pub struct PlanCell<L> {
    pub lines: Vec<PlanLine<L>>,
    pub is_stream_continuation: bool,
}

/// Controls the streaming of a plan.
#[derive(Debug, PartialEq, Eq)]
pub struct PlanStreamController<L> {
    pub core: StreamCore<L>,
    pub header_emitted: bool,
    pub top_padding_emitted: bool,
}

/// The lines of a plan's body.
pub open spec fn body_lines<L>(lines: Seq<L>) -> Seq<PlanLine<L>> {
    Seq::new(lines.len(), |i: int| PlanLine::Body { line: lines[i] })
}

/// The lines of a part of a plan: the title and the padding above the body come once, the padding
/// below it at the end.
pub open spec fn plan_lines<L>(lines: Seq<L>, titled: bool, padded: bool, last: bool) -> Seq<
    PlanLine<L>,
> {
    (if titled {
        Seq::empty()
    } else {
        seq![PlanLine::Title, PlanLine::Blank]
    }) + (if padded {
        Seq::empty()
    } else {
        seq![PlanLine::Padding]
    }) + body_lines(lines) + (if last {
        seq![PlanLine::Padding]
    } else {
        Seq::empty()
    })
}

/// Whether a cell is the part of a plan with these lines: there is none without lines, but at the
/// end.
pub open spec fn shows_plan<L>(
    cell: Option<PlanCell<L>>,
    lines: Seq<L>,
    titled: bool,
    padded: bool,
    last: bool,
) -> bool {
    match cell {
        Some(shown) => (lines.len() > 0 || last) && shown.lines@ == plan_lines(
            lines,
            titled,
            padded,
            last,
        ) && shown.is_stream_continuation == titled,
        None => lines.len() == 0 && !last,
    }
}

impl<L: Copy + PartialEq> PlanStreamController<L> {
    /// A controller to which nothing has come.
    pub fn new(width: Option<usize>) -> (r: PlanStreamController<L>)
        ensures
            r.core.model() == empty_core::<L>(width),
            !r.header_emitted,
            !r.top_padding_emitted,
    {
        PlanStreamController {
            core: StreamCore::new(width),
            header_emitted: false,
            top_padding_emitted: false,
        }
    }

    /// Takes some text.
    pub fn push(&mut self, delta: &str) -> (r: PushStep)
        ensures
            (final(self).core.model(), r.model()) == pushing(old(self).core.model(), delta@),
            final(self).header_emitted == old(self).header_emitted,
            final(self).top_padding_emitted == old(self).top_padding_emitted,
    {
        self.core.push_delta(delta)
    }

    fn emit(&mut self, lines: Vec<L>, include_bottom_padding: bool) -> (r: Option<PlanCell<L>>)
        ensures
            shows_plan(
                r,
                lines@,
                old(self).header_emitted,
                old(self).top_padding_emitted,
                include_bottom_padding,
            ),
            final(self).core == old(self).core,
            final(self).header_emitted == (old(self).header_emitted || r is Some),
            final(self).top_padding_emitted == (old(self).top_padding_emitted || r is Some),
    {
        if lines.len() == 0 && !include_bottom_padding {
            return None;
        }
        let is_stream_continuation = self.header_emitted;
        let mut out: Vec<PlanLine<L>> = Vec::new();
        if !self.header_emitted {
            out.push(PlanLine::Title);
            out.push(PlanLine::Blank);
            self.header_emitted = true;
        }
        if !self.top_padding_emitted {
            out.push(PlanLine::Padding);
            self.top_padding_emitted = true;
        }
        let ghost head = out@;
        let mut i: usize = 0;
        assert(out@ =~= head + body_lines(lines@.take(0)));
        while i < lines.len()
            invariant
                i <= lines@.len(),
                out@ == head + body_lines(lines@.take(i as int)),
            decreases lines@.len() - i,
        {
            out.push(PlanLine::Body { line: lines[i] });
            assert(out@ =~= head + body_lines(lines@.take(i + 1)));
            i += 1;
        }
        assert(lines@.take(i as int) =~= lines@);
        if include_bottom_padding {
            out.push(PlanLine::Padding);
        }
        assert(out@ =~= plan_lines(
            lines@,
            old(self).header_emitted,
            old(self).top_padding_emitted,
            include_bottom_padding,
        ));
        Some(PlanCell { lines: out, is_stream_continuation })
    }

    /// Ends the stream. Returns what is to be rendered.
    pub fn begin_finalize(&mut self) -> (r: FinalStep)
        ensures
            (final(self).core.model(), r.model()) == ending(old(self).core.model()),
            final(self).header_emitted == old(self).header_emitted,
            final(self).top_padding_emitted == old(self).top_padding_emitted,
    {
        self.core.begin_finalize()
    }

    /// The last part, once its lines are rendered, and the source. There is none where nothing came.
    pub fn finalize(&mut self, whole: bool, lines: &[L]) -> (r: (
        Option<PlanCell<L>>,
        Option<String>,
    ))
        requires
            whole || old(self).core.emitted_len <= old(self).core.rendered_lines@.len()
                + lines@.len(),
        ensures
            final(self).core.model() == empty_core::<L>(old(self).core.width),
            ({
                let core = old(self).core.model();
                &&& text_of(r.1) == final_source(core)
                &&& if core.source.len() == 0 {
                    r.0 is None && final(self).header_emitted == old(
                        self,
                    ).header_emitted && final(self).top_padding_emitted == old(
                        self,
                    ).top_padding_emitted
                } else {
                    &&& shows_plan(
                        r.0,
                        remaining(core, whole, lines@),
                        old(self).header_emitted,
                        old(self).top_padding_emitted,
                        true,
                    )
                    &&& final(self).header_emitted
                    &&& final(self).top_padding_emitted
                }
            }),
    {
        let last = self.core.finalize_remaining(whole, lines);
        if self.core.raw_source.as_str().is_empty() {
            self.core.reset();
            return (None, None);
        }
        let source = owned(self.core.raw_source.as_str());
        let cell = self.emit(last, true);
        self.core.reset();
        (cell, Some(source))
    }

    /// Shows the first line that waits. Also says whether no line waits then.
    pub fn on_commit_tick(&mut self) -> (r: (Option<PlanCell<L>>, bool))
        requires
            old(self).core.emitted_len + leaving_count(old(self).core.model(), 1)
                <= usize::MAX,
        ensures
            ({
                let (after, lines) = leaving(old(self).core.model(), 1);
                &&& final(self).core.model() == after
                &&& shows_plan(
                    r.0,
                    lines,
                    old(self).header_emitted,
                    old(self).top_padding_emitted,
                    false,
                )
                &&& r.1 == (after.queue.len() == 0)
                &&& final(self).header_emitted == (old(self).header_emitted || lines.len() > 0)
                &&& final(self).top_padding_emitted == (old(self).top_padding_emitted
                    || lines.len() > 0)
            }),
    {
        let step = self.core.tick();
        let cell = self.emit(step, false);
        (cell, self.core.is_idle())
    }

    /// Shows the first lines that wait, `max_lines` at most. Also says whether no line waits then.
    pub fn on_commit_tick_batch(&mut self, max_lines: usize) -> (r: (Option<PlanCell<L>>, bool))
        requires
            old(self).core.emitted_len + leaving_count(old(self).core.model(), max_lines as nat)
                <= usize::MAX,
        ensures
            ({
                let (after, lines) = leaving(old(self).core.model(), max_lines as nat);
                &&& final(self).core.model() == after
                &&& shows_plan(
                    r.0,
                    lines,
                    old(self).header_emitted,
                    old(self).top_padding_emitted,
                    false,
                )
                &&& r.1 == (after.queue.len() == 0)
                &&& final(self).header_emitted == (old(self).header_emitted || lines.len() > 0)
                &&& final(self).top_padding_emitted == (old(self).top_padding_emitted
                    || lines.len() > 0)
            }),
    {
        let step = self.core.tick_batch(max_lines);
        let cell = self.emit(step, false);
        (cell, self.core.is_idle())
    }

    /// How many lines wait.
    pub fn queued_lines(&self) -> (r: usize)
        ensures
            r == self.core.model().queue.len(),
    {
        self.core.queued_lines()
    }

    /// Takes the lines of a preview. Returns whether lines were queued.
    pub fn preview_rendered(&mut self, lines: &[L], now: u128) -> (r: bool)
        requires
            old(self).core.rendered_lines@.len() + lines@.len() <= usize::MAX,
        ensures
            final(self).core.model() == previewing(old(self).core.model(), lines@, now),
            r == (lines@.len() > 0),
            final(self).header_emitted == old(self).header_emitted,
            final(self).top_padding_emitted == old(self).top_padding_emitted,
    {
        self.core.preview_rendered(lines, now)
    }

    /// Takes the lines of the whole source. Returns whether a line waits that did not wait before.
    pub fn source_rendered(&mut self, lines: Vec<L>, now: u128) -> (r: bool)
        requires
            reaches(old(self).core.model(), lines@.len()),
            lines_compare::<L>(),
        ensures
            final(self).core.model() == rerendering(old(self).core.model(), lines@, now),
            r == waits_anew(old(self).core.model(), final(self).core.model()),
            final(self).header_emitted == old(self).header_emitted,
            final(self).top_padding_emitted == old(self).top_padding_emitted,
    {
        self.core.source_rendered(lines, now)
    }

    /// Changes the width. Returns whether the source has to be rendered for it.
    pub fn set_width(&mut self, width: Option<usize>) -> (r: bool)
        ensures
            r == (old(self).core.width != width && old(self).core.model().source.len() > 0),
            final(self).core.model() == (CoreModel { width, ..old(self).core.model() }),
            final(self).header_emitted == old(self).header_emitted,
            final(self).top_padding_emitted == old(self).top_padding_emitted,
    {
        self.core.set_width(width)
    }

    /// Takes the lines of the whole source after a change of width.
    pub fn width_rendered(&mut self, lines: Vec<L>, now: u128)
        ensures
            final(self).core.model() == resizing(old(self).core.model(), lines@, now),
            final(self).header_emitted == old(self).header_emitted,
            final(self).top_padding_emitted == old(self).top_padding_emitted,
    {
        self.core.width_rendered(lines, now)
    }

    /// Drops the lines that wait.
    pub fn clear_queue(&mut self)
        ensures
            final(self).core.model() == (CoreModel {
                queue: Seq::empty(),
                enqueued: old(self).core.model().emitted,
                ..old(self).core.model()
            }),
            final(self).header_emitted == old(self).header_emitted,
            final(self).top_padding_emitted == old(self).top_padding_emitted,
    {
        self.core.clear_queue()
    }

    /// How long the first line has waited.
    pub fn oldest_queued_age(&self, now: u128) -> (r: Option<u128>)
        ensures
            r == waited(self.core.model(), now),
    {
        self.core.oldest_queued_age(now)
    }
}

/// What has come to a stream is its source and what has come since the last line feed. Taking text
/// loses nothing, and at the end all of it is in the source.
pub proof fn law_source_is_kept<L>(core: CoreModel<L>, delta: Seq<char>)
    ensures
        ({
            let after = pushing(core, delta).0;
            after.source + after.buffer == core.source + core.buffer + delta
        }),
        ending(core).0.source == core.source + core.buffer,
        ending(core).0.buffer.len() == 0,
{
    lemma_push_keeps_source(core, delta);
    lemma_end_keeps_source(core);
}

proof fn lemma_push_keeps_source<L>(core: CoreModel<L>, delta: Seq<char>)
    ensures
        ({
            let after = pushing(core, delta).0;
            after.source + after.buffer == core.source + core.buffer + delta
        }),
{
    let buffer = core.buffer + delta;
    let after = pushing(core, delta).0;
    if delta.contains('\n') {
        let cut = complete_len(buffer);
        lemma_complete_len(buffer);
        assert(after.source == core.source + buffer.take(cut));
        assert(after.buffer == buffer.skip(cut));
    }
    assert(after.source + after.buffer =~= core.source + core.buffer + delta);
}

proof fn lemma_end_keeps_source<L>(core: CoreModel<L>)
    ensures
        ending(core).0.source == core.source + core.buffer,
        ending(core).0.buffer.len() == 0,
{
    if core.buffer.len() == 0 {
        assert(core.source + core.buffer =~= core.source);
    } else {
        let drained = CoreModel { buffer: Seq::empty(), ..core };
        let after = reading(drained, core.buffer).0;
        assert(after.source == core.source + core.buffer);
        assert(after.buffer == drained.buffer);
    }
}

/// What happens to a stream before it ends.
pub enum Turn<L> {
    /// Some text comes.
    Push { delta: Seq<char> },
    /// The lines of a preview come.
    Preview { lines: Seq<L>, now: u128 },
    /// The lines of the whole source come.
    Render { lines: Seq<L>, now: u128 },
    /// Lines leave the queue.
    Leave { count: nat },
    /// The width changes.
    Width { width: Option<usize> },
    /// The lines of the whole source come after a change of width.
    Resize { lines: Seq<L>, now: u128 },
    /// The lines that wait are dropped.
    Clear,
}

/// The stream after one turn.
pub open spec fn turned<L>(core: CoreModel<L>, turn: Turn<L>) -> CoreModel<L> {
    match turn {
        Turn::Push { delta } => pushing(core, delta).0,
        Turn::Preview { lines, now } => previewing(core, lines, now),
        Turn::Render { lines, now } => rerendering(core, lines, now),
        Turn::Leave { count } => leaving(core, count).0,
        Turn::Width { width } => CoreModel { width, ..core },
        Turn::Resize { lines, now } => resizing(core, lines, now),
        Turn::Clear => CoreModel { queue: Seq::empty(), enqueued: core.emitted, ..core },
    }
}

/// The stream after all turns.
pub open spec fn ran<L>(core: CoreModel<L>, turns: Seq<Turn<L>>) -> CoreModel<L>
    decreases turns.len(),
{
    if turns.len() == 0 {
        core
    } else {
        turned(ran(core, turns.drop_last()), turns.last())
    }
}

/// All text that comes in the turns, in order.
pub open spec fn told<L>(turns: Seq<Turn<L>>) -> Seq<char>
    decreases turns.len(),
{
    if turns.len() == 0 {
        Seq::empty()
    } else {
        match turns.last() {
            Turn::Push { delta } => told(turns.drop_last()) + delta,
            _ => told(turns.drop_last()),
        }
    }
}

proof fn lemma_run_keeps_source<L>(width: Option<usize>, turns: Seq<Turn<L>>)
    ensures
        ({
            let core = ran(empty_core::<L>(width), turns);
            core.source + core.buffer == told(turns)
        }),
    decreases turns.len(),
{
    if turns.len() == 0 {
        assert(Seq::<char>::empty() + Seq::<char>::empty() =~= Seq::<char>::empty());
    } else {
        lemma_run_keeps_source::<L>(width, turns.drop_last());
        if let Turn::Push { delta } = turns.last() {
            law_source_is_kept(ran(empty_core::<L>(width), turns.drop_last()), delta);
        }
    }
}

/// A stream hands out at its end all text that came, in order, whatever was shown, dropped or rendered
/// in between and at whatever width. It hands out nothing where no text came, nor a second time.
pub proof fn law_the_end_gives_all_text<L>(width: Option<usize>, turns: Seq<Turn<L>>)
    ensures
        ({
            let core = ran(empty_core::<L>(width), turns);
            &&& final_source(ending(core).0) == if told(turns).len() == 0 {
                None
            } else {
                Some(told(turns))
            }
            &&& final_source(ending(empty_core::<L>(core.width)).0) is None
        }),
{
    let core = ran(empty_core::<L>(width), turns);
    lemma_run_keeps_source(width, turns);
    law_source_is_kept(core, Seq::empty());
    law_source_is_kept(empty_core::<L>(core.width), Seq::empty());
}

/// New lines are told of as they come: a preview makes a line wait that did not wait before just where
/// it has lines, and so does a rendering that leaves the waiting lines in place just where it goes on
/// behind the last line that was queued.
pub proof fn law_new_lines_are_told<L>(core: CoreModel<L>, lines: Seq<L>, now: u128)
    requires
        0 <= core.emitted,
        0 <= core.enqueued,
    ensures
        waits_anew(core, previewing(core, lines, now)) <==> lines.len() > 0,
        !shrinks(core, lines) ==> (waits_anew(core, rerendering(core, lines, now)) <==> lines.len()
            > core.enqueued),
{
    let waiting = waiting_lines(core.queue);
    let shown = previewing(core, lines, now);
    assert(waiting_lines(shown.queue).len() == waiting.len() + lines.len());
    if lines.len() == 0 {
        assert(waiting_lines(shown.queue) =~= waiting);
    }
    let next = rerendering(core, lines, now);
    if !shrinks(core, lines) {
        assert(waiting_lines(next.queue).len() == waiting.len() + newly_queued(core, lines).len());
        if lines.len() <= core.enqueued {
            assert(waiting_lines(next.queue) =~= waiting);
        }
    }
}

/// Text without a line feed is not shown: it waits. What is read ends with a line feed.
pub proof fn law_text_waits_for_a_line_feed<L>(core: CoreModel<L>, delta: Seq<char>)
    ensures
        !delta.contains('\n') ==> pushing(core, delta).1 is Waiting && pushing(core, delta).0.source
            == core.source,
        delta.contains('\n') ==> !(pushing(core, delta).1 is Waiting) && pushing(
            core,
            delta,
        ).0.source.len() > 0 && pushing(core, delta).0.source.last() == '\n',
{
    if delta.contains('\n') {
        let buffer = core.buffer + delta;
        let i = choose|i: int| 0 <= i < delta.len() && delta[i] == '\n';
        assert(buffer[core.buffer.len() + i] == '\n');
        lemma_complete_len(buffer);
        lemma_complete_end(buffer);
    }
}

proof fn lemma_complete_end(text: Seq<char>)
    requires
        complete_len(text) > 0,
    ensures
        0 < complete_len(text) <= text.len(),
        text[complete_len(text) - 1] == '\n',
    decreases text.len(),
{
    if text.len() > 0 && text.last() != '\n' {
        lemma_complete_end(text.drop_last());
    }
}

/// Whether the queue holds exactly the lines that have not left it.
pub open spec fn steady<L>(core: CoreModel<L>) -> bool {
    &&& 0 <= core.emitted <= core.rendered.len()
    &&& core.enqueued == core.rendered.len()
    &&& waiting_lines(core.queue) == core.rendered.skip(core.emitted)
}

/// Lines are shown once and in order: those that leave the queue are the next ones, and those that
/// are left wait. That stays so when lines are added, by a preview or because the source goes on.
pub proof fn law_lines_are_shown_once<L>(
    core: CoreModel<L>,
    lines: Seq<L>,
    count: nat,
    now: u128,
)
    requires
        steady(core),
    ensures
        ({
            let (after, out) = leaving(core, count);
            &&& steady(after)
            &&& out == core.rendered.subrange(core.emitted, after.emitted)
        }),
        steady(previewing(core, lines, now)),
        core.rendered.is_prefix_of(lines) ==> steady(rerendering(core, lines, now)),
{
    let (after, out) = leaving(core, count);
    let n = after.emitted - core.emitted;
    let waiting = waiting_lines(core.queue);
    assert(waiting.len() == core.queue.len());
    assert(out =~= waiting.take(n));
    assert(out =~= core.rendered.subrange(core.emitted, after.emitted));
    assert(waiting_lines(after.queue) =~= waiting.skip(n));
    assert(waiting_lines(after.queue) =~= after.rendered.skip(after.emitted));
    let shown = previewing(core, lines, now);
    assert(waiting_lines(shown.queue) =~= waiting + lines);
    assert(waiting_lines(shown.queue) =~= shown.rendered.skip(shown.emitted));
    if core.rendered.is_prefix_of(lines) {
        let next = rerendering(core, lines, now);
        assert forall|i: int| 0 <= i < core.rendered.len() implies core.rendered[i] == lines[i] by {
            assert(core.rendered =~= lines.subrange(0, core.rendered.len() as int));
        }
        assert(waiting_lines(next.queue) =~= waiting + lines.skip(core.enqueued));
        assert(waiting_lines(next.queue) =~= next.rendered.skip(next.emitted));
    }
}

/// After a change of width, lines that had left the queue do not come again, but for the last one
/// where lines still waited and would be lost. Where none waited and some had left, none waits.
pub proof fn law_resizing_repeats_nothing<L>(core: CoreModel<L>, lines: Seq<L>, now: u128)
    requires
        0 <= core.emitted,
    ensures
        ({
            let after = resizing(core, lines, now);
            &&& after.emitted <= core.emitted
            &&& after.queue.len() == 0 || waiting_lines(after.queue) == lines.skip(after.emitted)
            &&& core.queue.len() == 0 && core.emitted > 0 ==> after.queue.len() == 0
            &&& core.queue.len() > 0 && lines.len() > 0 ==> after.queue.len() > 0
            &&& core.queue.len() > 0 && core.emitted < lines.len() ==> after.emitted
                == core.emitted
        }),
{
    let after = resizing(core, lines, now);
    if after.queue.len() > 0 {
        assert(waiting_lines(after.queue) =~= lines.skip(after.emitted));
    }
}

/// Once lines have left and none waits, none comes again at whatever width.
pub proof fn law_shown_lines_stay_shown<L>(
    core: CoreModel<L>,
    count: nat,
    width: Option<usize>,
    lines: Seq<L>,
    now: u128,
)
    requires
        0 <= core.emitted,
        leaving(core, count).1.len() > 0,
        leaving(core, count).0.queue.len() == 0,
    ensures
        resizing(
            CoreModel { width, ..leaving(core, count).0 },
            lines,
            now,
        ).queue.len() == 0,
{
    law_resizing_repeats_nothing(CoreModel { width, ..leaving(core, count).0 }, lines, now);
}

} // verus!
