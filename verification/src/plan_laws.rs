//! Which lines of a file an edit relies on, and where the lines of the edited text come from.
use vstd::prelude::*;

use crate::apply::{edited, in_order};
use crate::edit::{Edit, EditOperation};
use crate::edit_laws::{are_lines, found_at, law_lines_are_read_back, lemma_meant, meant};
use crate::line_range::{covers, law_merge_keeps_lines, span_lines, well_formed, LineRange};
use crate::plan::{
    edits_lines, known_origins, lines_replaced, lines_touched, names_lines, observed_ranges,
    occurrences_lines, origin_of, origin_ranges, origins_after, own_origins, place_in, plan_after,
    plan_step, ranges_origins, sequential_plan, snapshot_plan, spliced, text_replaced,
    texts_replaced, PlanState,
};
use crate::request::{operation_applied, snapshot_choice};
use crate::text::{newlines, pieces};

verus! {

/// Whether one of these lines comes from line `line` of the file.
pub open spec fn comes_from(origins: Seq<Option<usize>>, from: int, to: int, line: int) -> bool {
    exists|i: int|
        from <= i < to && 0 <= i < origins.len() && (#[trigger] origins[i] matches Some(origin)
            && origin == line)
}

proof fn lemma_known_origins(origins: Seq<Option<usize>>, line: int)
    ensures
        well_formed(known_origins(origins)),
        covers(known_origins(origins), line) <==> comes_from(
            origins,
            0,
            origins.len() as int,
            line,
        ),
    decreases origins.len(),
{
    let all = known_origins(origins);
    if origins.len() > 0 {
        let front = origins.drop_last();
        let before = known_origins(front);
        let last = origins.len() - 1;
        lemma_known_origins(front, line);
        if covers(all, line) {
            let i = choose|i: int| 0 <= i < all.len() && (#[trigger] all[i]).0 <= line <= all[i].1;
            if i < before.len() {
                assert(before[i] == all[i]);
                let j = choose|j: int|
                    0 <= j < front.len() && (#[trigger] front[j] matches Some(origin) && origin
                        == line);
                assert(origins[j] == front[j]);
            } else {
                assert(origins[last] == Some(all[i].0));
            }
        }
        if comes_from(origins, 0, origins.len() as int, line) {
            let j = choose|j: int|
                0 <= j < origins.len() && (#[trigger] origins[j] matches Some(origin) && origin
                    == line);
            if j < last {
                assert(front[j] == origins[j]);
                let i = choose|i: int|
                    0 <= i < before.len() && (#[trigger] before[i]).0 <= line <= before[i].1;
                assert(all[i] == before[i]);
            } else {
                assert(all[all.len() - 1] == (origins[last]->0, origins[last]->0));
            }
        }
        assert forall|i: int| 0 <= i < all.len() implies (#[trigger] all[i]).0 <= all[i].1 by {
            if i < before.len() {
                assert(before[i] == all[i]);
            }
        }
    }
}

/// The lines of the file that some lines rely on are those that these lines come from, all of them and no
/// others.
pub proof fn law_lines_rely_on_their_origins(
    origins: Seq<Option<usize>>,
    start_line: usize,
    end_line: usize,
    line: int,
)
    requires
        names_lines((start_line, end_line)),
    ensures
        covers(origin_ranges(origins, start_line, end_line), line) <==> comes_from(
            origins,
            start_line - 1,
            end_line as int,
            line,
        ),
        well_formed(origin_ranges(origins, start_line, end_line)),
{
    let from = place_in(origins, start_line - 1);
    let to = place_in(origins, end_line as int);
    let part = origins.subrange(from, to);
    lemma_known_origins(part, line);
    law_merge_keeps_lines(known_origins(part), line);
    if comes_from(part, 0, part.len() as int, line) {
        let i = choose|i: int|
            0 <= i < part.len() && (#[trigger] part[i] matches Some(origin) && origin == line);
        assert(origins[from + i] == part[i]);
    }
    if comes_from(origins, start_line - 1, end_line as int, line) {
        let i = choose|i: int|
            start_line - 1 <= i < end_line && 0 <= i < origins.len() && (
            #[trigger] origins[i] matches Some(origin) && origin == line);
        assert(part[i - from] == origins[i]);
    }
}

/// Whether a line of one of these ranges comes from line `line` of the file.
pub open spec fn some_come_from(
    origins: Seq<Option<usize>>,
    ranges: Seq<LineRange>,
    line: int,
) -> bool {
    exists|k: int|
        0 <= k < ranges.len() && comes_from(
            origins,
            (#[trigger] ranges[k]).0 - 1,
            ranges[k].1 as int,
            line,
        )
}

proof fn lemma_covers_both(a: Seq<LineRange>, b: Seq<LineRange>, line: int)
    ensures
        covers(a + b, line) <==> covers(a, line) || covers(b, line),
        well_formed(a) && well_formed(b) ==> well_formed(a + b),
{
    let all = a + b;
    if covers(all, line) {
        let i = choose|i: int| 0 <= i < all.len() && (#[trigger] all[i]).0 <= line <= all[i].1;
        if i < a.len() {
            assert(a[i] == all[i]);
        } else {
            assert(b[i - a.len()] == all[i]);
        }
    }
    if covers(a, line) {
        let i = choose|i: int| 0 <= i < a.len() && (#[trigger] a[i]).0 <= line <= a[i].1;
        assert(all[i] == a[i]);
    }
    if covers(b, line) {
        let i = choose|i: int| 0 <= i < b.len() && (#[trigger] b[i]).0 <= line <= b[i].1;
        assert(all[a.len() + i] == b[i]);
    }
    if well_formed(a) && well_formed(b) {
        assert forall|i: int| 0 <= i < all.len() implies (#[trigger] all[i]).0 <= all[i].1 by {
            if i < a.len() {
                assert(all[i] == a[i]);
            } else {
                assert(all[i] == b[i - a.len()]);
            }
        }
    }
}

proof fn lemma_ranges_origins(origins: Seq<Option<usize>>, ranges: Seq<LineRange>, line: int)
    requires
        forall|i: int| 0 <= i < ranges.len() ==> names_lines(#[trigger] ranges[i]),
    ensures
        well_formed(ranges_origins(origins, ranges)),
        covers(ranges_origins(origins, ranges), line) <==> some_come_from(origins, ranges, line),
    decreases ranges.len(),
{
    if ranges.len() > 0 {
        let front = ranges.drop_last();
        let last = ranges.len() - 1;
        assert(names_lines(ranges[last]));
        assert forall|i: int| 0 <= i < front.len() implies names_lines(#[trigger] front[i]) by {
            assert(front[i] == ranges[i]);
        }
        lemma_ranges_origins(origins, front, line);
        law_lines_rely_on_their_origins(origins, ranges[last].0, ranges[last].1, line);
        lemma_covers_both(
            ranges_origins(origins, front),
            origin_ranges(origins, ranges[last].0, ranges[last].1),
            line,
        );
        if some_come_from(origins, front, line) {
            let k = choose|k: int|
                0 <= k < front.len() && comes_from(
                    origins,
                    (#[trigger] front[k]).0 - 1,
                    front[k].1 as int,
                    line,
                );
            assert(ranges[k] == front[k]);
        }
        if some_come_from(origins, ranges, line) {
            let k = choose|k: int|
                0 <= k < ranges.len() && comes_from(
                    origins,
                    (#[trigger] ranges[k]).0 - 1,
                    ranges[k].1 as int,
                    line,
                );
            if k < last {
                assert(front[k] == ranges[k]);
            }
        }
    }
}

/// Each operation adds to the lines that an edit relies on: those lines of the file that the lines it looks
/// at come from.
pub proof fn law_each_operation_relies_on_what_it_looks_at(
    required: Seq<LineRange>,
    origins: Seq<Option<usize>>,
    text: Seq<char>,
    operation: EditOperation,
    index: nat,
    operation_count: nat,
    line: int,
)
    requires
        observed_ranges(text, operation) matches Ok(ranges) ==> forall|i: int|
            0 <= i < ranges.len() ==> names_lines(#[trigger] ranges[i]),
        plan_step(required, origins, text, operation, index, operation_count) is Ready,
    ensures
        ({
            let step = plan_step(required, origins, text, operation, index, operation_count);
            let ranges = observed_ranges(text, operation)->Ok_0;
            &&& covers(step->required, line) <==> covers(required, line) || some_come_from(
                origins,
                ranges,
                line,
            )
            &&& operation_applied(text, operation, index as usize) matches Ok(applied)
            &&& step matches PlanState::Ready { text: after, .. }
            &&& after == applied.text
        }),
{
    let ranges = observed_ranges(text, operation)->Ok_0;
    lemma_ranges_origins(origins, ranges, line);
    lemma_covers_both(required, ranges_origins(origins, ranges), line);
}

/// Before any operation each line of the file comes from itself.
pub proof fn law_lines_come_from_themselves(lines: Seq<Seq<char>>, operations: Seq<EditOperation>)
    requires
        are_lines(lines),
        lines.len() <= usize::MAX,
    ensures
        plan_after(lines.flatten(), operations, 0) matches PlanState::Ready {
            required,
            origins,
            text,
        } && required.len() == 0 && text == lines.flatten() && origins.len() == lines.len() && (
        forall|i: int|
            0 <= i < lines.len() ==> (#[trigger] origins[i] matches Some(line) && line == i + 1)),
{
    law_lines_are_read_back(lines);
    let origins = own_origins(lines.len());
    assert forall|i: int| 0 <= i < lines.len() implies (#[trigger] origins[i] matches Some(line)
        && line == i + 1) by {}
}

/// So many lines that all come from the same place, or from nowhere.
pub open spec fn alike(origin: Option<usize>, count: nat) -> Seq<Option<usize>> {
    Seq::new(count, |i: int| origin)
}

proof fn lemma_spliced(
    before: Seq<Option<usize>>,
    middle: Seq<Option<usize>>,
    after: Seq<Option<usize>>,
    origin: Option<usize>,
    count: nat,
)
    ensures
        spliced(
            before + middle + after,
            before.len() as int,
            (before.len() + middle.len()) as int,
            origin,
            count,
        ) == before + alike(origin, count) + after,
{
    let all = before + middle + after;
    let to = (before.len() + middle.len()) as int;
    assert(all.take(place_in(all, before.len() as int)) =~= before);
    assert(all.skip(place_in(all, to)) =~= after);
    assert(Seq::new(count, |i: int| origin) =~= alike(origin, count));
}

/// Lines that are replaced by other ones leave the lines before and behind them where they came from; the new
/// lines come from where the first replaced line came from, and deleted lines are gone.
pub proof fn law_replaced_lines_keep_their_origin(
    before: Seq<Option<usize>>,
    range: Seq<Option<usize>>,
    after: Seq<Option<usize>>,
    new_text: String,
    new_lines: Seq<Seq<char>>,
    start_line: usize,
    end_line: usize,
)
    requires
        are_lines(new_lines),
        new_text@ == new_lines.flatten(),
        range.len() > 0,
        start_line == before.len() + 1,
        end_line == before.len() + range.len(),
    ensures
        ({
            let origins = before + range + after;
            let ranges = seq![(start_line, end_line)];
            &&& origins_after(
                origins,
                (EditOperation::ReplaceRange { start_line, end_line, new_text }),
                ranges,
            ) == before + alike(range[0], new_lines.len()) + after
            &&& origins_after(
                origins,
                (EditOperation::DeleteRange { start_line, end_line }),
                ranges,
            ) == before + after
        }),
{
    let origins = before + range + after;
    law_lines_are_read_back(new_lines);
    lemma_spliced(before, range, after, range[0], new_lines.len());
    lemma_spliced(before, range, after, None, 0);
    assert(origins[before.len() as int] == range[0]);
    assert(before + alike(None, 0) + after =~= before + after);
}

/// A text that is replaced inside one line leaves all lines where they came from. One that spans lines, or
/// that is replaced by several lines, gives the new lines the origin of the first line that it touched.
pub proof fn law_replaced_text_keeps_its_origin(
    before: Seq<Option<usize>>,
    range: Seq<Option<usize>>,
    after: Seq<Option<usize>>,
    old_text: String,
    new_text: String,
    new_lines: Seq<Seq<char>>,
    occurrence: Option<usize>,
    start_line: usize,
    end_line: usize,
)
    requires
        are_lines(new_lines),
        new_text@ == new_lines.flatten(),
        range.len() > 0,
        start_line == before.len() + 1,
        end_line == before.len() + range.len(),
    ensures
        ({
            let origins = before + range + after;
            let ranges = seq![(start_line, end_line)];
            let now = origins_after(
                origins,
                (EditOperation::Replace { old_text, new_text, occurrence }),
                ranges,
            );
            let gone = origins_after(
                origins,
                (EditOperation::DeleteText { old_text, occurrence }),
                ranges,
            );
            if range.len() == 1 && !old_text@.contains('\n') {
                &&& gone == origins
                &&& !new_text@.contains('\n') ==> now == origins
                &&& new_text@.contains('\n') ==> now == before + alike(range[0], new_lines.len())
                    + after
            } else {
                &&& gone == before + after
                &&& now == before + alike(range[0], new_lines.len()) + after
            }
        }),
{
    reveal_strlit("");
    let origins = before + range + after;
    law_lines_are_read_back(new_lines);
    lemma_spliced(before, range, after, range[0], new_lines.len());
    lemma_spliced(before, range, after, range[0], 0);
    assert(origins[before.len() as int] == range[0]);
    assert(before + alike(range[0], 0) + after =~= before + after);
    assert(pieces(""@).len() == 0);
}

/// Inserted lines come from nowhere: as many as the inserted text has line feeds stand before the first line
/// of the anchor, or behind its last.
pub proof fn law_inserted_lines_come_from_nowhere(
    before: Seq<Option<usize>>,
    range: Seq<Option<usize>>,
    after: Seq<Option<usize>>,
    anchor: String,
    text: String,
    occurrence: Option<usize>,
    start_line: usize,
    end_line: usize,
)
    requires
        start_line == before.len() + 1,
        end_line == before.len() + range.len(),
    ensures
        ({
            let origins = before + range + after;
            let ranges = seq![(start_line, end_line)];
            let none = alike(None, newlines(text@));
            &&& origins_after(
                origins,
                (EditOperation::InsertBefore { anchor, text, occurrence }),
                ranges,
            ) == before + none + range + after
            &&& origins_after(
                origins,
                (EditOperation::InsertAfter { anchor, text, occurrence }),
                ranges,
            ) == before + range + none + after
        }),
{
    let origins = before + range + after;
    let empty = Seq::<Option<usize>>::empty();
    let none = alike(None, newlines(text@));
    lemma_spliced(before, empty, range + after, None, newlines(text@));
    assert(before + empty + (range + after) =~= origins);
    assert(before + none + (range + after) =~= before + none + range + after);
    lemma_spliced(before + range, empty, after, None, newlines(text@));
    assert(before + range + empty + after =~= origins);
}

/// Occurrences that are replaced inside their lines leave all lines where they came from.
pub proof fn law_occurrences_inside_lines_keep_origins(
    origins: Seq<Option<usize>>,
    ranges: Seq<LineRange>,
    old_text: Seq<char>,
    new_text: Seq<char>,
)
    requires
        forall|i: int| 0 <= i < ranges.len() ==> (#[trigger] ranges[i]).0 == ranges[i].1,
        !old_text.contains('\n'),
        !new_text.contains('\n'),
    ensures
        texts_replaced(origins, ranges, old_text, new_text) == origins,
    decreases ranges.len(),
{
    if ranges.len() > 0 {
        assert(ranges[ranges.len() - 1].0 == ranges[ranges.len() - 1].1);
        law_occurrences_inside_lines_keep_origins(
            origins,
            ranges.drop_last(),
            old_text,
            new_text,
        );
    }
}

/// Whether every line comes from one of the first `count` lines of the file, or from nowhere.
pub open spec fn come_from_the_file(origins: Seq<Option<usize>>, count: nat) -> bool {
    forall|i: int|
        0 <= i < origins.len() ==> (#[trigger] origins[i] matches Some(line) ==> 1 <= line <= count)
}

proof fn lemma_spliced_from_file(
    origins: Seq<Option<usize>>,
    from: int,
    to: int,
    origin: Option<usize>,
    added: nat,
    count: nat,
)
    requires
        come_from_the_file(origins, count),
        origin matches Some(line) ==> 1 <= line <= count,
        0 <= from,
        0 <= to,
    ensures
        come_from_the_file(spliced(origins, from, to, origin, added), count),
{
    let now = spliced(origins, from, to, origin, added);
    let a = place_in(origins, from);
    let b = place_in(origins, to);
    assert forall|i: int| 0 <= i < now.len() implies (#[trigger] now[i] matches Some(line) ==> 1
        <= line <= count) by {
        if i < a {
            assert(now[i] == origins[i]);
        } else if i < a + added {
            assert(now[i] == origin);
        } else {
            assert(now[i] == origins[b + (i - a - added)]);
        }
    }
}

proof fn lemma_text_from_file(
    origins: Seq<Option<usize>>,
    range: LineRange,
    old_text: Seq<char>,
    new_text: Seq<char>,
    count: nat,
)
    requires
        come_from_the_file(origins, count),
        range.0 >= 1,
    ensures
        come_from_the_file(text_replaced(origins, range, old_text, new_text), count),
        come_from_the_file(lines_replaced(origins, range, new_text), count),
{
    lemma_spliced_from_file(
        origins,
        range.0 - 1,
        range.1 as int,
        origin_of(origins, range.0),
        pieces(new_text).len(),
        count,
    );
}

proof fn lemma_texts_from_file(
    origins: Seq<Option<usize>>,
    ranges: Seq<LineRange>,
    old_text: Seq<char>,
    new_text: Seq<char>,
    count: nat,
)
    requires
        come_from_the_file(origins, count),
        forall|i: int| 0 <= i < ranges.len() ==> (#[trigger] ranges[i]).0 >= 1,
    ensures
        come_from_the_file(texts_replaced(origins, ranges, old_text, new_text), count),
    decreases ranges.len(),
{
    if ranges.len() > 0 {
        assert(ranges[ranges.len() - 1].0 >= 1);
        lemma_text_from_file(origins, ranges.last(), old_text, new_text, count);
        lemma_texts_from_file(
            text_replaced(origins, ranges.last(), old_text, new_text),
            ranges.drop_last(),
            old_text,
            new_text,
            count,
        );
    }
}

/// An operation makes up no origins: each line comes from where some line came from before, or from nowhere.
pub proof fn law_origins_are_lines_of_the_file(
    origins: Seq<Option<usize>>,
    operation: EditOperation,
    ranges: Seq<LineRange>,
    count: nat,
)
    requires
        come_from_the_file(origins, count),
        forall|i: int| 0 <= i < ranges.len() ==> (#[trigger] ranges[i]).0 >= 1,
    ensures
        come_from_the_file(origins_after(origins, operation, ranges), count),
{
    if ranges.len() > 0 {
        assert(ranges[0].0 >= 1);
        match operation {
            EditOperation::Replace { old_text, new_text, .. } => {
                lemma_text_from_file(origins, ranges[0], old_text@, new_text@, count);
            },
            EditOperation::DeleteText { old_text, .. } => {
                lemma_text_from_file(origins, ranges[0], old_text@, ""@, count);
            },
            EditOperation::ReplaceOccurrences { old_text, new_text, .. } => {
                lemma_texts_from_file(origins, ranges, old_text@, new_text@, count);
            },
            EditOperation::DeleteRange { .. } => {
                lemma_spliced_from_file(
                    origins,
                    ranges[0].0 - 1,
                    ranges[0].1 as int,
                    None,
                    0,
                    count,
                );
            },
            EditOperation::ReplaceRange { new_text, .. } => {
                lemma_text_from_file(origins, ranges[0], ""@, new_text@, count);
            },
            EditOperation::InsertBefore { text, .. } => {
                lemma_spliced_from_file(
                    origins,
                    ranges[0].0 - 1,
                    ranges[0].0 - 1,
                    None,
                    newlines(text@),
                    count,
                );
            },
            EditOperation::InsertAfter { text, .. } => {
                lemma_spliced_from_file(
                    origins,
                    ranges[0].1 as int,
                    ranges[0].1 as int,
                    None,
                    newlines(text@),
                    count,
                );
            },
        }
    }
}

/// An operation on an occurrence looks at the lines that the meant occurrence touches; one whose occurrence
/// is not there or not clear looks at none and is refused.
pub proof fn law_operation_looks_at_its_occurrence(
    text: Seq<char>,
    needle: String,
    new_text: String,
    occurrence: Option<usize>,
    starts: Seq<int>,
)
    requires
        needle@.len() > 0,
        found_at(text, needle@, starts),
    ensures
        ({
            let replace = observed_ranges(
                text,
                (EditOperation::Replace { old_text: needle, new_text, occurrence }),
            );
            let delete = observed_ranges(
                text,
                (EditOperation::DeleteText { old_text: needle, occurrence }),
            );
            let before = observed_ranges(
                text,
                (EditOperation::InsertBefore { anchor: needle, text: new_text, occurrence }),
            );
            let after = observed_ranges(
                text,
                (EditOperation::InsertAfter { anchor: needle, text: new_text, occurrence }),
            );
            match meant(starts, occurrence) {
                Some(at) => {
                    let (first, last) = span_lines(text, at, at + needle@.len());
                    let lines = seq![(first as usize, last as usize)];
                    &&& replace == Ok::<Seq<LineRange>, Seq<char>>(lines)
                    &&& delete == Ok::<Seq<LineRange>, Seq<char>>(lines)
                    &&& before == Ok::<Seq<LineRange>, Seq<char>>(lines)
                    &&& after == Ok::<Seq<LineRange>, Seq<char>>(lines)
                },
                None => replace is Err && delete is Err && before is Err && after is Err,
            }
        }),
{
    lemma_meant(text, needle@, starts, occurrence, "old_text"@);
    lemma_meant(text, needle@, starts, occurrence, "anchor"@);
}

/// A replacement of several occurrences looks at the lines of each of them, in the order in which they are
/// named.
pub proof fn law_replacement_looks_at_each_occurrence(
    text: Seq<char>,
    needle: Seq<char>,
    occurrences: Seq<usize>,
    starts: Seq<int>,
)
    requires
        needle.len() > 0,
        found_at(text, needle, starts),
    ensures
        (exists|i: int|
            0 <= i < occurrences.len() && !(1 <= #[trigger] occurrences[i] <= starts.len()))
            ==> occurrences_lines(text, needle, occurrences) is Err,
        (forall|i: int|
            0 <= i < occurrences.len() ==> 1 <= #[trigger] occurrences[i] <= starts.len())
            ==> occurrences_lines(text, needle, occurrences) == Ok::<Seq<LineRange>, Seq<char>>(
            Seq::new(
                occurrences.len(),
                |i: int|
                    {
                        let at = starts[occurrences[i] - 1];
                        let (first, last) = span_lines(text, at, at + needle.len());
                        (first as usize, last as usize)
                    },
            ),
        ),
    decreases occurrences.len(),
{
    if occurrences.len() > 0 {
        let front = occurrences.drop_last();
        law_replacement_looks_at_each_occurrence(text, needle, front, starts);
        lemma_meant(text, needle, starts, Some(occurrences.last()), "old_text"@);
        let last_one = occurrences[occurrences.len() - 1];
        if (exists|i: int|
            0 <= i < occurrences.len() && !(1 <= #[trigger] occurrences[i] <= starts.len())) {
            let i = choose|i: int|
                0 <= i < occurrences.len() && !(1 <= #[trigger] occurrences[i] <= starts.len());
            if i < front.len() {
                assert(front[i] == occurrences[i]);
            }
        } else {
            assert forall|i: int| 0 <= i < front.len() implies 1 <= #[trigger] front[i]
                <= starts.len() by {
                assert(front[i] == occurrences[i]);
            }
            assert(1 <= last_one <= starts.len());
            let wanted = Seq::new(
                occurrences.len(),
                |i: int|
                    {
                        let at = starts[occurrences[i] - 1];
                        let (first, last) = span_lines(text, at, at + needle.len());
                        (first as usize, last as usize)
                    },
            );
            assert(occurrences_lines(text, needle, occurrences)->Ok_0 =~= wanted);
        }
    } else {
        let wanted = Seq::new(
            occurrences.len(),
            |i: int|
                {
                    let at = starts[occurrences[i] - 1];
                    let (first, last) = span_lines(text, at, at + needle.len());
                    (first as usize, last as usize)
                },
        );
        assert(wanted =~= Seq::<LineRange>::empty());
    }
}

/// A request whose operations all see the same text relies on the lines that its edits touch, and no line of
/// the edited text has an origin.
pub proof fn law_snapshot_relies_on_touched_lines(
    text: Seq<char>,
    operations: Seq<EditOperation>,
    edits: Seq<Edit>,
    line: int,
)
    requires
        snapshot_choice(text, operations) == Ok::<Seq<Edit>, Seq<char>>(edits),
        forall|i: int|
            0 <= i < edits.len() ==> lines_touched(text, (#[trigger] edits[i]).start, edits[i].end).0
                <= lines_touched(text, edits[i].start, edits[i].end).1,
    ensures
        snapshot_plan(text, operations) matches Ok(plan) && (covers(plan.required, line)
            <==> exists|i: int|
            0 <= i < edits.len() && lines_touched(text, (#[trigger] edits[i]).start, edits[i].end).0
                <= line <= lines_touched(text, edits[i].start, edits[i].end).1) && plan.origins
            == alike(None, pieces(edited(text, in_order(text, edits))).len()),
{
    let ranges = edits_lines(text, edits);
    assert(well_formed(ranges));
    law_merge_keeps_lines(ranges, line);
    if covers(ranges, line) {
        let i = choose|i: int| 0 <= i < ranges.len() && (#[trigger] ranges[i]).0 <= line <= ranges[i].1;
        assert(lines_touched(text, edits[i].start, edits[i].end) == ranges[i]);
    }
    if exists|i: int|
        0 <= i < edits.len() && lines_touched(text, (#[trigger] edits[i]).start, edits[i].end).0
            <= line <= lines_touched(text, edits[i].start, edits[i].end).1 {
        let i = choose|i: int|
            0 <= i < edits.len() && lines_touched(text, (#[trigger] edits[i]).start, edits[i].end).0
                <= line <= lines_touched(text, edits[i].start, edits[i].end).1;
        assert(ranges[i] == lines_touched(text, edits[i].start, edits[i].end));
    }
    assert(snapshot_plan(text, operations)->Ok_0.origins =~= alike(
        None,
        pieces(edited(text, in_order(text, edits))).len(),
    ));
}

/// A request whose operations follow each other relies on the lines that its operations rely on, and its
/// lines come from where they come from after the last of them.
pub proof fn law_sequence_relies_on_its_operations(
    text: Seq<char>,
    operations: Seq<EditOperation>,
    required: Seq<LineRange>,
    origins: Seq<Option<usize>>,
    reached: Seq<char>,
    line: int,
)
    requires
        plan_after(text, operations, operations.len()) == (PlanState::Ready {
            required,
            origins,
            text: reached,
        }),
        well_formed(required),
    ensures
        sequential_plan(text, operations) matches Ok(plan) && (covers(plan.required, line)
            <==> covers(required, line)) && plan.origins == origins,
{
    law_merge_keeps_lines(required, line);
}

} // verus!
