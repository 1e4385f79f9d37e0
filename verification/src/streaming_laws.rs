//! What comes to a stream, waits in it and leaves it, line by line.
use vstd::prelude::*;

use crate::live_table::{Edge, PieceModel};
use crate::streaming::{
    body_lines, complete_len, ending, leaving, newly_queued, plan_lines, previewing, pushing,
    queued_at, remaining, rerendering, resizing, shows, shows_plan, shrinks, steady, waited,
    waiting_lines, CoreModel, FinalModel, PlanCell, PlanLine, QueuedLine, StreamedCell,
};

verus! {

proof fn lemma_complete(front: Seq<char>, rest: Seq<char>)
    requires
        front.len() > 0 && front.last() == '\n',
        !rest.contains('\n'),
    ensures
        complete_len(front + rest) == front.len(),
    decreases rest.len(),
{
    let all = front + rest;
    if rest.len() == 0 {
        assert(all =~= front);
    } else {
        assert(all.last() == rest[rest.len() - 1]);
        assert(rest.contains(rest[rest.len() - 1]));
        assert(all.drop_last() =~= front + rest.drop_last());
        assert(!rest.drop_last().contains('\n')) by {
            if rest.drop_last().contains('\n') {
                let i = choose|i: int|
                    0 <= i < rest.drop_last().len() && rest.drop_last()[i] == '\n';
                assert(rest[i] == '\n');
            }
        }
        lemma_complete(front, rest.drop_last());
    }
}

/// Text is read up to its last line feed, together with what waited for one; what stands behind that line
/// feed waits. Nothing of what is shown or waits to be shown is touched.
pub proof fn law_text_is_read_by_lines<L>(
    core: CoreModel<L>,
    delta: Seq<char>,
    front: Seq<char>,
    rest: Seq<char>,
)
    requires
        core.buffer + delta == front + rest,
        !rest.contains('\n'),
        delta.contains('\n') ==> front.len() > 0 && front.last() == '\n',
        !delta.contains('\n') ==> front.len() == 0,
    ensures
        ({
            let (after, step) = pushing(core, delta);
            &&& after.source == core.source + front
            &&& after.buffer == rest
            &&& step is Waiting <==> !delta.contains('\n')
            &&& after.has_seen_delta == (core.has_seen_delta || delta.len() > 0)
            &&& after.queue == core.queue
            &&& after.rendered == core.rendered
            &&& after.enqueued == core.enqueued
            &&& after.emitted == core.emitted
            &&& after.width == core.width
        }),
{
    let buffer = core.buffer + delta;
    if delta.contains('\n') {
        lemma_complete(front, rest);
        assert(buffer.take(front.len() as int) =~= front);
        assert(buffer.skip(front.len() as int) =~= rest);
    } else {
        assert(front + rest =~= rest);
        assert(core.source + front =~= core.source);
    }
}

/// As many lines leave the queue as are asked for, or all there are: the first ones, in order. The others
/// wait on, since when they waited.
pub proof fn law_first_lines_leave<L>(core: CoreModel<L>, count: nat)
    ensures
        ({
            let (after, out) = leaving(core, count);
            let n = if count < core.queue.len() {
                count
            } else {
                core.queue.len()
            };
            &&& out.len() == n
            &&& forall|i: int| 0 <= i < n ==> #[trigger] out[i] == core.queue[i].line
            &&& after.queue.len() == core.queue.len() - n
            &&& forall|i: int|
                0 <= i < after.queue.len() ==> #[trigger] after.queue[i] == core.queue[n + i]
            &&& after.emitted == core.emitted + n
            &&& after.rendered == core.rendered
            &&& after.enqueued == core.enqueued
            &&& after.source == core.source && after.buffer == core.buffer
        }),
{
}

/// The age of a queue is the time that its first line has waited; a clock that went back makes it none.
pub proof fn law_age_is_that_of_the_first_line<L>(core: CoreModel<L>, now: u128)
    ensures
        waited(core, now) is None <==> core.queue.len() == 0,
        core.queue.len() > 0 && now >= core.queue[0].enqueued_at ==> waited(core, now) == Some(
            (now - core.queue[0].enqueued_at) as u128,
        ),
        core.queue.len() > 0 && now <= core.queue[0].enqueued_at ==> waited(core, now) == Some(0u128),
{
}

/// Whether these lines wait behind those that waited before, from now on.
pub open spec fn joins_queue<L>(
    before: Seq<QueuedLine<L>>,
    after: Seq<QueuedLine<L>>,
    lines: Seq<L>,
    now: u128,
) -> bool {
    &&& after.len() == before.len() + lines.len()
    &&& after.take(before.len() as int) == before
    &&& forall|i: int|
        0 <= i < lines.len() ==> (#[trigger] after[before.len() + i]).line == lines[i]
            && after[before.len() + i].enqueued_at == now
}

/// The lines of a preview wait behind those that wait, and are behind those that have been rendered.
pub proof fn law_preview_waits_at_the_end<L>(core: CoreModel<L>, lines: Seq<L>, now: u128)
    ensures
        ({
            let after = previewing(core, lines, now);
            &&& joins_queue(core.queue, after.queue, lines, now)
            &&& after.rendered == core.rendered + lines
            &&& after.enqueued == core.rendered.len() + lines.len()
            &&& after.emitted == core.emitted
            &&& after.source == core.source && after.buffer == core.buffer
        }),
{
    let after = previewing(core, lines, now);
    assert(after.queue.take(core.queue.len() as int) =~= core.queue);
    assert forall|i: int| 0 <= i < lines.len() implies (
    #[trigger] after.queue[core.queue.len() + i]).line == lines[i] && after.queue[core.queue.len()
        + i].enqueued_at == now by {
        assert(after.queue[core.queue.len() + i] == queued_at(lines, now)[i]);
    }
}

/// When the whole source is rendered, the lines that were never queued wait behind those that wait. Where it
/// has fewer lines than have been queued, the lines that have not left wait anew.
pub proof fn law_rendered_source_waits<L>(core: CoreModel<L>, lines: Seq<L>, now: u128)
    requires
        0 <= core.emitted,
        0 <= core.enqueued,
    ensures
        ({
            let after = rerendering(core, lines, now);
            &&& after.rendered == lines
            &&& after.emitted == core.emitted
            &&& after.enqueued == if core.emitted < lines.len() {
                lines.len() as int
            } else {
                core.emitted
            }
            &&& lines.len() >= core.enqueued ==> joins_queue(
                core.queue,
                after.queue,
                lines.skip(core.enqueued),
                now,
            )
            &&& core.emitted <= lines.len() < core.enqueued ==> joins_queue(
                Seq::empty(),
                after.queue,
                lines.skip(core.emitted),
                now,
            )
            &&& lines.len() < core.emitted < core.enqueued ==> after.queue.len() == 0
            &&& after.source == core.source && after.buffer == core.buffer
        }),
{
    let after = rerendering(core, lines, now);
    let fresh = newly_queued(core, lines);
    if lines.len() >= core.enqueued {
        if lines.len() == core.enqueued {
            assert(lines.skip(core.enqueued) =~= Seq::<L>::empty());
            assert(fresh =~= Seq::<L>::empty());
            assert(after.queue =~= core.queue);
        }
        if !shrinks(core, lines) {
            assert(after.queue.take(core.queue.len() as int) =~= core.queue);
            assert forall|i: int| 0 <= i < fresh.len() implies (
            #[trigger] after.queue[core.queue.len() + i]).line == fresh[i]
                && after.queue[core.queue.len() + i].enqueued_at == now by {
                assert(after.queue[core.queue.len() + i] == queued_at(fresh, now)[i]);
            }
        }
    } else if core.emitted <= lines.len() {
        assert(after.queue.take(0) =~= Seq::<QueuedLine<L>>::empty());
        if lines.len() == core.emitted {
            assert(lines.skip(core.emitted) =~= Seq::<L>::empty());
        }
        assert forall|i: int| 0 <= i < fresh.len() implies (#[trigger] after.queue[0 + i]).line
            == fresh[i] && after.queue[0 + i].enqueued_at == now by {
            assert(after.queue[i] == queued_at(fresh, now)[i]);
        }
    }
}

/// What a change of width leaves: as many lines count as shown as before, or all of the new ones where there
/// are fewer. Where lines waited, the others wait, and at least one does. Where none waited and some were
/// shown, none waits; where none was shown either, all wait.
pub proof fn law_width_changes<L>(core: CoreModel<L>, lines: Seq<L>, now: u128)
    requires
        0 <= core.emitted,
    ensures
        ({
            let after = resizing(core, lines, now);
            let waits = core.queue.len() > 0;
            &&& after.rendered == lines
            &&& core.emitted < lines.len() ==> after.emitted == core.emitted
            &&& core.emitted >= lines.len() && !waits ==> after.emitted == lines.len()
            &&& core.emitted >= lines.len() && waits && lines.len() > 0 ==> after.emitted
                == lines.len() - 1
            &&& lines.len() == 0 ==> after.emitted == 0
            &&& after.enqueued == lines.len()
            &&& waits || after.emitted == 0 ==> waiting_lines(after.queue) == lines.skip(
                after.emitted,
            )
            &&& !waits && after.emitted > 0 ==> after.queue.len() == 0
            &&& forall|i: int|
                0 <= i < after.queue.len() ==> (#[trigger] after.queue[i]).enqueued_at == now
            &&& after.source == core.source && after.buffer == core.buffer && after.width
                == core.width
        }),
{
    let after = resizing(core, lines, now);
    if core.queue.len() > 0 || after.emitted == 0 {
        assert(waiting_lines(after.queue) =~= lines.skip(after.emitted));
    }
}

/// At the end the lines that have not been shown are left to show: those of the whole source behind the
/// shown ones, or those that wait and the last ones behind them.
pub proof fn law_the_end_shows_the_rest<L>(core: CoreModel<L>, lines: Seq<L>)
    requires
        0 <= core.emitted,
    ensures
        core.emitted <= lines.len() ==> lines.take(core.emitted) + remaining(core, true, lines)
            == lines,
        core.emitted > lines.len() ==> remaining(core, true, lines).len() == 0,
        steady(core) ==> remaining(core, false, lines) == waiting_lines(core.queue) + lines,
        core.emitted <= core.rendered.len() + lines.len() ==> (core.rendered + lines).take(
            core.emitted,
        ) + remaining(core, false, lines) == core.rendered + lines,
{
    if core.emitted <= lines.len() {
        assert(lines.take(core.emitted) + remaining(core, true, lines) =~= lines);
    }
    let all = core.rendered + lines;
    if core.emitted <= all.len() {
        assert(all.take(core.emitted) + remaining(core, false, lines) =~= all);
    }
    if steady(core) {
        assert(remaining(core, false, lines) =~= core.rendered.skip(core.emitted) + lines);
    }
}

/// A stream that ends with an open table gives the border below it last; a line that could have become the
/// header of a table is shown as text; else all is rendered once more.
pub proof fn law_open_table_is_closed_at_the_end<L>(core: CoreModel<L>)
    requires
        core.buffer.len() == 0,
    ensures
        ({
            let (after, step) = ending(core);
            &&& after.table is None
            &&& core.table matches Some(table) ==> step == (FinalModel::Append {
                pieces: seq![PieceModel::Border { edge: Edge::Bottom, shape: table.shape }],
            })
            &&& core.table is None && core.candidate is Some ==> after.candidate is None && step
                == (FinalModel::Append {
                pieces: seq![PieceModel::Markdown { text: core.candidate->0 }],
            })
            &&& core.table is None && core.candidate is None ==> step is Whole
            &&& after.queue == core.queue && after.emitted == core.emitted && after.rendered
                == core.rendered
        }),
{
}

/// A part of a message is shown where it has lines, with just these lines, and says whether it is the first.
pub proof fn law_part_shows_its_lines<L>(cell: Option<StreamedCell<L>>, lines: Seq<L>, first: bool)
    requires
        shows(cell, lines, first),
    ensures
        cell is Some <==> lines.len() > 0,
        cell matches Some(shown) ==> shown.lines@ == lines && shown.is_first == first,
{
}

/// A part of a plan holds its title and the space above it once, the lines of its body in order, and at the
/// end the space below it.
pub proof fn law_plan_shows_its_lines<L>(
    cell: Option<PlanCell<L>>,
    lines: Seq<L>,
    titled: bool,
    padded: bool,
    last: bool,
)
    requires
        shows_plan(cell, lines, titled, padded, last),
    ensures
        cell is Some <==> lines.len() > 0 || last,
        cell matches Some(shown) ==> {
            let top: int = (if titled {
                0int
            } else {
                2
            }) + (if padded {
                0int
            } else {
                1
            });
            let held = shown.lines@;
            &&& shown.is_stream_continuation == titled
            &&& held.len() == top + lines.len() + (if last {
                1int
            } else {
                0
            })
            &&& !titled ==> held[0] is Title && held[1] is Blank
            &&& !padded ==> held[top - 1] is Padding
            &&& forall|i: int|
                0 <= i < lines.len() ==> (#[trigger] held[top + i]) == (PlanLine::Body {
                    line: lines[i],
                })
            &&& last ==> held[held.len() - 1] is Padding
        },
{
    if let Some(shown) = cell {
        let held = shown.lines@;
        let top: int = (if titled {
            0int
        } else {
            2
        }) + (if padded {
            0int
        } else {
            1
        });
        assert(held == plan_lines(lines, titled, padded, last));
        assert forall|i: int| 0 <= i < lines.len() implies (#[trigger] held[top + i]) == (
        PlanLine::Body { line: lines[i] }) by {
            assert(body_lines(lines)[i] == (PlanLine::Body { line: lines[i] }));
        }
    }
}

} // verus!
