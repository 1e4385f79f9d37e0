//! How tables are read from lines between pipes, and how they are drawn.
use vstd::prelude::*;

use crate::live_table::{
    cell_alignment, occurrences, pipe_cells, pipe_row, row_alignments, scan_line, scan_lines,
    scanned, ColumnAlignment, Edge, PieceModel, ScanModel, TableModel,
};
use crate::edit_laws::{are_lines, law_lines_are_read_back};
use crate::outside::text_columns;
use crate::picker::rule_line;
use crate::split::{stripped, stripped_both, stripped_end, stripped_start, Strip};
use crate::table_layout::{
    at_least_one, border_columns, border_text, cell_line, column_count, column_widths, columns_of,
    corners, left_padding, padded, room, row_column, row_columns, row_height, row_line, spaces,
    tallest, widest, wrapped_lines, RowPart,
};
use crate::text::joined;
use crate::text_laws::{
    all_stripped, law_ends_are_stripped, law_parts_are_joined, law_split_parts_are_read_back,
};
use crate::width::taken;

verus! {

proof fn lemma_occurrences_split(a: Seq<char>, b: Seq<char>, c: char)
    ensures
        occurrences(a + b, c) == occurrences(a, c) + occurrences(b, c),
    decreases b.len(),
{
    if b.len() == 0 {
        assert(a + b =~= a);
    } else {
        lemma_occurrences_split(a, b.drop_last(), c);
        assert((a + b).drop_last() =~= a + b.drop_last());
        assert((a + b).last() == b.last());
    }
}

proof fn lemma_one_occurrence(c: char)
    ensures
        occurrences(seq![c], c) == 1,
{
    reveal_with_fuel(occurrences, 2);
    assert(seq![c].drop_last() =~= Seq::<char>::empty());
}

proof fn lemma_joined_occurrences(parts: Seq<Seq<char>>, c: char)
    requires
        parts.len() > 0,
    ensures
        occurrences(joined(parts, seq![c]), c) >= parts.len() - 1,
    decreases parts.len(),
{
    if parts.len() > 1 {
        let front = parts.drop_last();
        let last = seq![parts.last()];
        assert(parts =~= front + last);
        law_parts_are_joined(front, last, parts.last(), seq![c]);
        lemma_joined_occurrences(front, c);
        lemma_one_occurrence(c);
        lemma_occurrences_split(joined(front, seq![c]), seq![c], c);
        lemma_occurrences_split(joined(front, seq![c]) + seq![c], joined(last, seq![c]), c);
    }
}

/// Whether a text is a cell with nothing but white space around it.
pub open spec fn is_padded(part: Seq<char>, left: Seq<char>, cell: Seq<char>, right: Seq<char>) -> bool {
    &&& part == left + cell + right
    &&& all_stripped(left, Strip::White)
    &&& all_stripped(right, Strip::White)
    &&& cell.len() > 0 ==> !stripped(Strip::White, cell[0]) && !stripped(Strip::White, cell.last())
    &&& !part.contains('|')
}

proof fn lemma_ends_of_joined(parts: Seq<Seq<char>>)
    requires
        parts.len() > 0,
        parts[0].len() > 0,
        parts.last().len() > 0,
    ensures
        joined(parts, seq!['|']).len() > 0,
        joined(parts, seq!['|'])[0] == parts[0][0],
        joined(parts, seq!['|']).last() == parts.last().last(),
{
    let sep = seq!['|'];
    let one = seq![parts[0]];
    if parts.len() == 1 {
        assert(parts =~= one);
        law_parts_are_joined(one, one, parts[0], sep);
    } else {
        let rest = parts.skip(1);
        assert(parts =~= one + rest);
        law_parts_are_joined(one, rest, parts[0], sep);
        let front = parts.drop_last();
        let last = seq![parts.last()];
        assert(parts =~= front + last);
        law_parts_are_joined(front, last, parts.last(), sep);
    }
}

/// A line of cells with pipes between and around them is a row of just these cells, with the white space
/// around each taken off.
pub proof fn law_row_is_read(
    front: Seq<char>,
    parts: Seq<Seq<char>>,
    lefts: Seq<Seq<char>>,
    cells: Seq<Seq<char>>,
    rights: Seq<Seq<char>>,
    back: Seq<char>,
)
    requires
        all_stripped(front, Strip::White),
        all_stripped(back, Strip::White),
        parts.len() == lefts.len() == cells.len() == rights.len(),
        parts.len() >= 2,
        parts[0].len() > 0,
        parts.last().len() > 0,
        forall|i: int|
            0 <= i < parts.len() ==> is_padded(
                #[trigger] parts[i],
                lefts[i],
                cells[i],
                rights[i],
            ),
    ensures
        ({
            let line = front + (seq!['|'] + joined(parts, seq!['|']) + seq!['|']) + back;
            pipe_row(line) && pipe_cells(line) == cells
        }),
{
    let bar = seq!['|'];
    let inner = joined(parts, bar);
    let core = bar + inner + bar;
    let line = front + core + back;
    assert(core[0] == '|' && core.last() == '|');
    law_ends_are_stripped(front, core, back, Strip::White);
    assert(stripped_both(line, Strip::White) == core);
    lemma_joined_occurrences(parts, '|');
    lemma_one_occurrence('|');
    lemma_occurrences_split(bar, inner, '|');
    lemma_occurrences_split(bar + inner, bar, '|');
    assert(pipe_row(line));
    lemma_ends_of_joined(parts);
    assert(is_padded(parts[0], lefts[0], cells[0], rights[0]));
    let end = parts.len() - 1;
    assert(is_padded(parts[end], lefts[end], cells[end], rights[end]));
    assert(parts[0].contains(parts[0][0]));
    assert(parts.last().contains(parts.last().last()));
    law_ends_are_stripped(bar, inner, bar, Strip::Only('|'));
    assert(stripped_both(core, Strip::Only('|')) == inner);
    assert forall|i: int| 0 <= i < parts.len() implies !(#[trigger] parts[i]).contains('|') by {
        assert(is_padded(parts[i], lefts[i], cells[i], rights[i]));
    }
    law_split_parts_are_read_back(parts, '|');
    assert forall|i: int| 0 <= i < parts.len() implies stripped_both(
        #[trigger] parts[i],
        Strip::White,
    ) == cells[i] by {
        assert(is_padded(parts[i], lefts[i], cells[i], rights[i]));
        law_ends_are_stripped(lefts[i], cells[i], rights[i], Strip::White);
    }
    assert(pipe_cells(line) =~= cells);
}

/// A line that does not both begin and end with a pipe, white space apart, is no row.
pub proof fn law_rows_stand_between_pipes(front: Seq<char>, core: Seq<char>, back: Seq<char>)
    requires
        all_stripped(front, Strip::White),
        all_stripped(back, Strip::White),
        core.len() > 0,
        !stripped(Strip::White, core[0]),
        !stripped(Strip::White, core.last()),
        core[0] != '|' || core.last() != '|',
    ensures
        !pipe_row(front + core + back),
{
    law_ends_are_stripped(front, core, back, Strip::White);
}

/// A cell of a delimiter row is made of dashes; colons around them say how the column is aligned.
pub proof fn law_alignment_is_read(
    front: Seq<char>,
    left: Seq<char>,
    dashes: Seq<char>,
    right: Seq<char>,
    back: Seq<char>,
)
    requires
        all_stripped(front, Strip::White),
        all_stripped(back, Strip::White),
        all_stripped(left, Strip::Only(':')),
        all_stripped(right, Strip::Only(':')),
        dashes.len() > 0,
        forall|i: int| 0 <= i < dashes.len() ==> dashes[i] == '-',
    ensures
        cell_alignment(front + (left + dashes + right) + back) == Some(
            if left.len() > 0 && right.len() > 0 {
                ColumnAlignment::Center
            } else if left.len() > 0 {
                ColumnAlignment::Left
            } else if right.len() > 0 {
                ColumnAlignment::Right
            } else {
                ColumnAlignment::Unset
            },
        ),
{
    let mark = left + dashes + right;
    if left.len() > 0 {
        assert(mark[0] == left[0]);
    } else {
        assert(mark[0] == dashes[0]);
    }
    if right.len() > 0 {
        assert(mark.last() == right[right.len() - 1]);
    } else {
        assert(mark.last() == dashes[dashes.len() - 1]);
    }
    law_ends_are_stripped(front, mark, back, Strip::White);
    law_ends_are_stripped(left, dashes, right, Strip::Only(':'));
}

proof fn lemma_kept_at_end(s: Seq<char>, strip: Strip, c: char)
    requires
        s.contains(c),
        !stripped(strip, c),
    ensures
        stripped_end(s, strip).contains(c),
    decreases s.len(),
{
    if s.len() > 0 && stripped(strip, s.last()) {
        let i = choose|i: int| 0 <= i < s.len() && s[i] == c;
        assert(s.drop_last()[i] == c);
        lemma_kept_at_end(s.drop_last(), strip, c);
    }
}

proof fn lemma_kept_at_start(s: Seq<char>, strip: Strip, c: char)
    requires
        s.contains(c),
        !stripped(strip, c),
    ensures
        stripped_start(s, strip).contains(c),
    decreases s.len(),
{
    if s.len() > 0 && stripped(strip, s[0]) {
        let i = choose|i: int| 0 <= i < s.len() && s[i] == c;
        assert(s.skip(1)[i - 1] == c);
        lemma_kept_at_start(s.skip(1), strip, c);
    }
}

/// A cell that holds anything but dashes, colons and white space says nothing of an alignment.
pub proof fn law_other_cells_align_nothing(cell: Seq<char>, c: char)
    requires
        cell.contains(c),
        c != '-',
        c != ':',
        !stripped(Strip::White, c),
    ensures
        cell_alignment(cell) is None,
{
    lemma_kept_at_end(cell, Strip::White, c);
    lemma_kept_at_start(stripped_end(cell, Strip::White), Strip::White, c);
    let mark = stripped_both(cell, Strip::White);
    lemma_kept_at_end(mark, Strip::Only(':'), c);
    lemma_kept_at_start(stripped_end(mark, Strip::Only(':')), Strip::Only(':'), c);
    let dashes = stripped_both(mark, Strip::Only(':'));
    let i = choose|i: int| 0 <= i < dashes.len() && dashes[i] == c;
    assert(dashes[i] != '-');
}

/// A delimiter row has an alignment for each of its cells, in order; a row with another cell is none.
pub proof fn law_delimiter_row_aligns_each_column(line: Seq<char>, i: int)
    requires
        0 <= i < pipe_cells(line).len(),
    ensures
        row_alignments(line) matches Some(list) ==> list.len() == pipe_cells(line).len()
            && cell_alignment(pipe_cells(line)[i]) == Some(list[i]),
        cell_alignment(pipe_cells(line)[i]) is None ==> row_alignments(line) is None,
        (forall|k: int|
            0 <= k < pipe_cells(line).len() ==> cell_alignment(#[trigger] pipe_cells(line)[k])
                is Some) ==> row_alignments(line) is Some,
{
}

/// A row of an open table is shown with its cells, below a rule where rows came before it; a delimiter row
/// shows nothing; any other line closes the table with its lower border and is text.
pub proof fn law_line_in_a_table(state: ScanModel, line: Seq<char>, width: Option<usize>)
    requires
        state.table is Some,
    ensures
        ({
            let table = state.table->0;
            let body = stripped_end(line, Strip::LineEnds);
            let next = scan_line(state, line, width);
            let before = state.shown.len() as int;
            &&& next.handled
            &&& next.candidate == state.candidate
            &&& next.shown.len() >= before && next.shown.take(before) == state.shown
            &&& if !pipe_row(body) {
                &&& next.table is None
                &&& next.pending == state.pending + line
                &&& next.shown.len() == before + 1
                &&& next.shown[before] == (PieceModel::Border {
                    edge: Edge::Bottom,
                    shape: table.shape,
                })
            } else if row_alignments(body) is Some {
                &&& next.table == state.table
                &&& next.pending == state.pending
                &&& next.shown.len() == before
            } else {
                &&& next.table matches Some(open) && open.shape == table.shape && open.has_rows
                &&& next.pending == state.pending
                &&& next.shown.len() == before + if table.has_rows {
                    2int
                } else {
                    1
                }
                &&& next.shown.last() == (PieceModel::Row {
                    shape: table.shape,
                    cells: pipe_cells(body),
                    is_header: false,
                })
                &&& table.has_rows ==> next.shown[before] == (PieceModel::Border {
                    edge: Edge::Middle,
                    shape: table.shape,
                })
            }
        }),
{
    let next = scan_line(state, line, width);
    assert(next.shown.take(state.shown.len() as int) =~= state.shown);
}

/// Outside of tables a row waits for the line behind it. A delimiter row with as many cells makes it the
/// header of a table, shown below the upper border and behind the text before it; any other line makes it
/// text.
pub proof fn law_line_outside_of_tables(state: ScanModel, line: Seq<char>, width: Option<usize>)
    requires
        state.table is None,
    ensures
        ({
            let body = stripped_end(line, Strip::LineEnds);
            let next = scan_line(state, line, width);
            let before = state.shown.len() as int;
            let opens = state.candidate matches Some(header) && row_alignments(body) matches Some(
                list,
            ) && list.len() == pipe_cells(stripped_end(header, Strip::LineEnds)).len();
            let text = match state.candidate {
                Some(header) => state.pending + header,
                None => state.pending,
            };
            &&& next.shown.len() >= before && next.shown.take(before) == state.shown
            &&& opens ==> {
                let cells = pipe_cells(stripped_end(state.candidate->0, Strip::LineEnds));
                let shape = next.table->0.shape;
                &&& next.table is Some && next.table->0.has_rows
                &&& next.candidate is None && next.handled && next.pending.len() == 0
                &&& shape.header == cells
                &&& shape.width == width
                &&& Some(shape.alignments) == row_alignments(body)
                &&& next.shown.len() == before + 2 + if state.pending.len() > 0 {
                    1int
                } else {
                    0
                }
                &&& next.shown[next.shown.len() - 1] == (PieceModel::Row {
                    shape,
                    cells,
                    is_header: true,
                })
                &&& next.shown[next.shown.len() - 2] == (PieceModel::Border {
                    edge: Edge::Top,
                    shape,
                })
                &&& state.pending.len() > 0 ==> next.shown[before] == (PieceModel::Markdown {
                    text: state.pending,
                })
            }
            &&& !opens ==> {
                &&& next.table is None
                &&& next.shown == state.shown
                &&& if pipe_row(body) && row_alignments(body) is None {
                    next.candidate == Some(line) && next.pending == text && next.handled
                } else {
                    next.candidate is None && next.pending == text + line && next.handled
                        == state.handled
                }
            }
        }),
{
    let next = scan_line(state, line, width);
    assert(next.shown.take(state.shown.len() as int) =~= state.shown);
}

/// The widest line is one of the lines, or the least width, and no line is wider.
pub proof fn law_widest_is_the_widest(lines: Seq<nat>, least: nat)
    ensures
        forall|i: int| 0 <= i < lines.len() ==> #[trigger] lines[i] <= widest(lines, least),
        least <= widest(lines, least),
        widest(lines, least) == least || lines.contains(widest(lines, least)),
    decreases lines.len(),
{
    if lines.len() > 0 {
        let front = lines.drop_last();
        law_widest_is_the_widest(front, least);
        assert forall|i: int| 0 <= i < lines.len() implies #[trigger] lines[i] <= widest(
            lines,
            least,
        ) by {
            if i < front.len() {
                assert(front[i] == lines[i]);
            }
        }
        assert(lines[lines.len() - 1] == lines.last());
        if front.contains(widest(front, least)) {
            let i = choose|i: int| 0 <= i < front.len() && front[i] == widest(front, least);
            assert(lines[i] == widest(front, least));
        }
    }
}

/// Texts side by side take the columns of each of them.
pub proof fn law_columns_add_up(a: Seq<Seq<char>>, b: Seq<Seq<char>>, text: Seq<char>)
    ensures
        columns_of(Seq::empty()) == 0,
        columns_of(seq![text]) == text_columns(text),
        columns_of(a + b) == columns_of(a) + columns_of(b),
    decreases b.len(),
{
    reveal_with_fuel(columns_of, 2);
    assert(seq![text].drop_last() =~= Seq::<Seq<char>>::empty());
    if b.len() == 0 {
        assert(a + b =~= a);
    } else {
        law_columns_add_up(a, b.drop_last(), text);
        assert((a + b).drop_last() =~= a + b.drop_last());
        assert((a + b).last() == b.last());
    }
}

/// Columns of a given width are as even as can be, the first ones one wider than the others; where there is
/// no room each has one. Without a width each is as wide as its header, and at least three.
pub proof fn law_columns_are_even(width: usize, cells: Seq<nat>, i: int, j: int)
    requires
        0 <= i < j < column_count(cells.len()),
    ensures
        ({
            let given = column_widths(Some(width), cells);
            let own = column_widths(None, cells);
            &&& given.len() == column_count(cells.len())
            &&& given[j] <= given[i] <= given[j] + 1
            &&& given[j] >= 1
            &&& width < column_count(cells.len()) * 4 + 1 ==> given[i] == 1 && given[j] == 1
            &&& own.len() == cells.len()
            &&& own[i] == if cells[i] < 3 {
                3
            } else {
                cells[i]
            }
        }),
{
    let count = column_count(cells.len());
    let all = room(width as nat, count);
    assert(all >= count);
    assert(all / count >= 1) by (nonlinear_arith)
        requires
            all >= count,
            count > 0,
    ;
    if width < count * 4 + 1 {
        assert(all == count);
        assert(all / count == 1 && all % count == 0) by (nonlinear_arith)
            requires
                all == count,
                count > 0,
        ;
    }
}

/// Where the bar before a column stands, or behind the last one.
pub open spec fn bar_at(widths: Seq<nat>, column: nat) -> int {
    (taken(widths, column) + 3 * column) as int
}

proof fn lemma_border_columns(widths: Seq<nat>, count: nat, middle: char, right: char)
    requires
        count <= widths.len(),
    ensures
        ({
            let text = border_columns(widths, count, middle, right);
            &&& text.len() == bar_at(widths, count)
            &&& forall|k: nat|
                1 <= k <= count ==> 1 <= #[trigger] bar_at(widths, k) <= text.len() && text[bar_at(
                    widths,
                    k,
                ) - 1] == if k < widths.len() {
                    middle
                } else {
                    right
                }
            &&& forall|i: int|
                0 <= i < text.len() ==> #[trigger] text[i] == '─' || exists|k: nat|
                    1 <= k <= count && i == #[trigger] bar_at(widths, k) - 1
        }),
    decreases count,
{
    if count > 0 {
        let fewer = (count - 1) as nat;
        lemma_border_columns(widths, fewer, middle, right);
        let before = border_columns(widths, fewer, middle, right);
        let text = border_columns(widths, count, middle, right);
        let line = rule_line(widths[count - 1] + 2);
        assert(bar_at(widths, count) == bar_at(widths, fewer) + widths[count - 1] + 3);
        assert forall|k: nat| 1 <= k <= count implies 1 <= #[trigger] bar_at(widths, k) <= text.len()
            && text[bar_at(widths, k) - 1] == if k < widths.len() {
            middle
        } else {
            right
        } by {
            if k < count {
                assert(text[bar_at(widths, k) - 1] == before[bar_at(widths, k) - 1]);
            }
        }
        assert forall|i: int| 0 <= i < text.len() implies #[trigger] text[i] == '─' || exists|
            k: nat,
        |
            1 <= k <= count && i == #[trigger] bar_at(widths, k) - 1 by {
            if i < before.len() {
                assert(text[i] == before[i]);
            } else if i < before.len() + line.len() {
                assert(text[i] == line[i - before.len()]);
            } else {
                assert(i == bar_at(widths, count) - 1);
            }
        }
    }
}

/// A border has a corner at its start and at its end, a joint over each bar between two columns, and a rule
/// everywhere else; each column has a space on each side.
pub proof fn law_border_fits_the_columns(widths: Seq<nat>, edge: Edge)
    requires
        widths.len() > 0,
    ensures
        ({
            let text = border_text(widths, edge);
            let ends = match edge {
                Edge::Top => ('┌', '┬', '┐'),
                Edge::Middle => ('├', '┼', '┤'),
                Edge::Bottom => ('└', '┴', '┘'),
            };
            &&& text.len() == taken(widths, widths.len()) + 3 * widths.len() + 1
            &&& text[0] == ends.0
            &&& text.last() == ends.2
            &&& forall|k: nat|
                1 <= k < widths.len() ==> 0 < #[trigger] bar_at(widths, k) < text.len()
                    && text[bar_at(widths, k)] == ends.1
            &&& forall|i: int|
                0 < i < text.len() ==> #[trigger] text[i] == '─' || exists|k: nat|
                    1 <= k <= widths.len() && i == #[trigger] bar_at(widths, k)
        }),
{
    let (left, middle, right) = corners(edge);
    let columns = border_columns(widths, widths.len(), middle, right);
    lemma_border_columns(widths, widths.len(), middle, right);
    let text = border_text(widths, edge);
    assert(bar_at(widths, widths.len()) == text.len() - 1);
    assert(text.last() == columns[bar_at(widths, widths.len()) - 1]);
    assert forall|k: nat| 1 <= k < widths.len() implies 0 < #[trigger] bar_at(widths, k) < text.len()
        && text[bar_at(widths, k)] == middle by {
        assert(text[bar_at(widths, k)] == columns[bar_at(widths, k) - 1]);
    }
    assert forall|i: int| 0 < i < text.len() implies #[trigger] text[i] == '─' || exists|k: nat|
        1 <= k <= widths.len() && i == #[trigger] bar_at(widths, k) by {
        assert(text[i] == columns[i - 1]);
        if columns[i - 1] != '─' {
            let k = choose|k: nat|
                1 <= k <= widths.len() && i - 1 == #[trigger] bar_at(widths, k) - 1;
            assert(i == bar_at(widths, k));
        }
    }
}

/// The columns that parts of a row take, where the content of each is `content` columns wide.
pub open spec fn part_columns(parts: Seq<RowPart>, content: nat) -> nat
    decreases parts.len(),
{
    if parts.len() == 0 {
        0
    } else {
        part_columns(parts.drop_last(), content) + match parts.last() {
            RowPart::Bar => 1,
            RowPart::Spaces { count } => count as nat,
            RowPart::Content { .. } => content,
        }
    }
}

proof fn lemma_part_columns(a: Seq<RowPart>, b: Seq<RowPart>, content: nat)
    ensures
        part_columns(a + b, content) == part_columns(a, content) + part_columns(b, content),
    decreases b.len(),
{
    if b.len() == 0 {
        assert(a + b =~= a);
    } else {
        lemma_part_columns(a, b.drop_last(), content);
        assert((a + b).drop_last() =~= a + b.drop_last());
        assert((a + b).last() == b.last());
    }
}

proof fn lemma_spaces(count: nat, content: nat)
    requires
        count <= usize::MAX,
    ensures
        part_columns(spaces(count), content) == count,
{
    reveal_with_fuel(part_columns, 2);
    if count > 0 {
        assert(spaces(count).drop_last() =~= Seq::<RowPart>::empty());
    }
}

/// A line of a cell is padded to the width of its column and has a space on each side. The padding stands
/// behind the content, before it where the column is aligned to the right, and on both sides where it is
/// centered, with no more than one column of difference.
pub proof fn law_padding_fills_the_column(
    content: RowPart,
    content_width: usize,
    width: usize,
    alignment: ColumnAlignment,
)
    requires
        content is Content,
        content_width <= width,
    ensures
        ({
            let parts = padded(seq![content], content_width as nat, width as nat, alignment);
            let left = left_padding((width - content_width) as nat, alignment);
            let right = width - content_width - left;
            &&& part_columns(parts, content_width as nat) == width + 2
            &&& parts == spaces(1) + spaces(left) + seq![content] + spaces(right as nat) + spaces(1)
            &&& left + content_width + right == width
            &&& alignment == ColumnAlignment::Unset || alignment == ColumnAlignment::Left ==> left
                == 0
            &&& alignment == ColumnAlignment::Right ==> right == 0
            &&& alignment == ColumnAlignment::Center ==> left <= right <= left + 1
            &&& part_columns(
                padded(Seq::empty(), 0, width as nat, alignment),
                content_width as nat,
            ) == width + 2
        }),
{
    let padding = (width - content_width) as nat;
    let left = left_padding(padding, alignment);
    let right = (padding - left) as nat;
    let c = content_width as nat;
    let parts = padded(seq![content], c, width as nat, alignment);
    lemma_spaces(1, c);
    lemma_spaces(left, c);
    lemma_spaces(right, c);
    reveal_with_fuel(part_columns, 2);
    assert(seq![content].drop_last() =~= Seq::<RowPart>::empty());
    lemma_part_columns(spaces(1), spaces(left), c);
    lemma_part_columns(spaces(1) + spaces(left), seq![content], c);
    lemma_part_columns(spaces(1) + spaces(left) + seq![content], spaces(right), c);
    lemma_part_columns(
        spaces(1) + spaces(left) + seq![content] + spaces(right),
        spaces(1),
        c,
    );
    let none = Seq::<RowPart>::empty();
    let all_left = left_padding(width as nat, alignment);
    let all_right = (width - all_left) as nat;
    lemma_spaces(all_left, c);
    lemma_spaces(all_right, c);
    lemma_part_columns(spaces(1), spaces(all_left), c);
    lemma_part_columns(spaces(1) + spaces(all_left), none, c);
    lemma_part_columns(spaces(1) + spaces(all_left) + none, spaces(all_right), c);
    lemma_part_columns(spaces(1) + spaces(all_left) + none + spaces(all_right), spaces(1), c);
}

/// A row is as tall as its tallest cell.
pub proof fn law_row_is_as_tall_as_its_tallest_cell(cells: Seq<Vec<usize>>)
    ensures
        cells.len() == 0 ==> row_height(cells) == 1,
        forall|i: int|
            0 <= i < cells.len() ==> (#[trigger] cells[i])@.len() <= row_height(cells),
        cells.len() > 0 ==> exists|i: int|
            0 <= i < cells.len() && (#[trigger] cells[i])@.len() == row_height(cells),
{
    lemma_tallest(cells);
}

proof fn lemma_tallest(cells: Seq<Vec<usize>>)
    ensures
        forall|i: int| 0 <= i < cells.len() ==> (#[trigger] cells[i])@.len() <= tallest(cells),
        cells.len() > 0 ==> exists|i: int|
            0 <= i < cells.len() && (#[trigger] cells[i])@.len() == tallest(cells),
    decreases cells.len(),
{
    if cells.len() > 0 {
        let front = cells.drop_last();
        let last = cells.len() - 1;
        lemma_tallest(front);
        assert forall|i: int| 0 <= i < cells.len() implies (#[trigger] cells[i])@.len() <= tallest(
            cells,
        ) by {
            if i < last {
                assert(front[i] == cells[i]);
            }
        }
        if tallest(cells) == cells[last]@.len() {
            assert(cells[last]@.len() == tallest(cells));
        } else {
            let i = choose|i: int| 0 <= i < front.len() && (#[trigger] front[i])@.len() == tallest(front);
            assert(cells[i]@.len() == tallest(cells));
        }
    }
}

/// The lines of a cell stand one below the other in the middle of its row: as much room is left above them as
/// below, or one line less.
pub proof fn law_cells_are_centered(lines: nat, height: nat, line: int)
    requires
        lines <= height,
        0 <= line < lines,
    ensures
        exists|top: int|
            {
                &&& 0 <= top <= height - lines - top <= top + 1
                &&& #[trigger] cell_line(lines, height, top + line) == Some(line)
            },
{
    let top = (height - lines) / 2;
    assert(cell_line(lines, height, top + line) == Some(line));
}

/// A line of a row is a bar and then each column with a bar behind it; a column holds the line of its cell
/// that stands there, or only spaces.
pub proof fn law_row_line_holds_each_column(
    cells: Seq<Vec<usize>>,
    widths: Seq<usize>,
    alignments: Seq<ColumnAlignment>,
    index: int,
)
    ensures
        row_line(cells, widths, alignments, index) == seq![RowPart::Bar] + Seq::new(
            cells.len(),
            |c: int| row_column(cells, widths, alignments, index, c).push(RowPart::Bar),
        ).flatten(),
        forall|c: int|
            0 <= c < cells.len() ==> #[trigger] row_column(cells, widths, alignments, index, c)
                == match cell_line(cells[c]@.len(), row_height(cells), index) {
                Some(line) => padded(
                    seq![RowPart::Content { column: c as usize, line: line as usize }],
                    cells[c]@[line] as nat,
                    widths[c] as nat,
                    if c < alignments.len() {
                        alignments[c]
                    } else {
                        ColumnAlignment::Unset
                    },
                ),
                None => padded(
                    Seq::empty(),
                    0,
                    widths[c] as nat,
                    if c < alignments.len() {
                        alignments[c]
                    } else {
                        ColumnAlignment::Unset
                    },
                ),
            },
{
    lemma_row_columns(cells, widths, alignments, index, cells.len());
}

proof fn lemma_row_columns(
    cells: Seq<Vec<usize>>,
    widths: Seq<usize>,
    alignments: Seq<ColumnAlignment>,
    index: int,
    count: nat,
)
    ensures
        row_columns(cells, widths, alignments, index, count) == Seq::new(
            count,
            |c: int| row_column(cells, widths, alignments, index, c).push(RowPart::Bar),
        ).flatten(),
    decreases count,
{
    let all = Seq::new(
        count,
        |c: int| row_column(cells, widths, alignments, index, c).push(RowPart::Bar),
    );
    all.lemma_flatten_and_flatten_alt_are_equivalent();
    if count > 0 {
        let fewer = (count - 1) as nat;
        lemma_row_columns(cells, widths, alignments, index, fewer);
        let front = Seq::new(
            fewer,
            |c: int| row_column(cells, widths, alignments, index, c).push(RowPart::Bar),
        );
        front.lemma_flatten_and_flatten_alt_are_equivalent();
        assert(all.drop_last() =~= front);
        assert(all.last() == row_column(cells, widths, alignments, index, count - 1).push(
            RowPart::Bar,
        ));
        assert(row_columns(cells, widths, alignments, index, count) =~= all.flatten());
    } else {
        assert(row_columns(cells, widths, alignments, index, count) =~= all.flatten());
    }
}

/// The lines that a line of a cell is wrapped into; an empty line stays one line.
pub open spec fn wrapped_line<S>(line: Vec<Vec<S>>) -> Seq<Seq<S>> {
    if line@.len() == 0 {
        seq![Seq::empty()]
    } else {
        Seq::new(line@.len(), |i: int| line@[i]@)
    }
}

/// A wrapped cell holds what its lines are wrapped into, in order, and always has a line.
pub proof fn law_wrapped_cell_holds_all_lines<S>(lines: Seq<Vec<Vec<S>>>)
    ensures
        wrapped_lines(lines) == Seq::new(lines.len(), |i: int| wrapped_line(lines[i])).flatten(),
        lines.len() == 0 ==> at_least_one(wrapped_lines(lines)) == seq![Seq::<S>::empty()],
        at_least_one(wrapped_lines(lines)).len() > 0,
        wrapped_lines(lines).len() > 0 ==> at_least_one(wrapped_lines(lines)) == wrapped_lines(
            lines,
        ),
    decreases lines.len(),
{
    let all = Seq::new(lines.len(), |i: int| wrapped_line(lines[i]));
    all.lemma_flatten_and_flatten_alt_are_equivalent();
    if lines.len() > 0 {
        let front = lines.drop_last();
        law_wrapped_cell_holds_all_lines(front);
        let before = Seq::new(front.len(), |i: int| wrapped_line(front[i]));
        before.lemma_flatten_and_flatten_alt_are_equivalent();
        assert(all.drop_last() =~= before);
        assert(all.last() == wrapped_line(lines.last()));
        assert(wrapped_lines(lines) =~= all.flatten());
    } else {
        assert(wrapped_lines(lines) =~= all.flatten());
    }
}

/// Lines are read one after the other: what is known after some lines is what the next ones begin with.
pub proof fn law_lines_are_read_in_order(
    state: ScanModel,
    a: Seq<Seq<char>>,
    b: Seq<Seq<char>>,
    line: Seq<char>,
    width: Option<usize>,
)
    ensures
        scan_lines(state, Seq::empty(), width) == state,
        scan_lines(state, seq![line], width) == scan_line(state, line, width),
        scan_lines(state, a + b, width) == scan_lines(scan_lines(state, a, width), b, width),
    decreases b.len(),
{
    reveal_with_fuel(scan_lines, 2);
    assert(seq![line].drop_last() =~= Seq::<Seq<char>>::empty());
    if b.len() == 0 {
        assert(a + b =~= a);
    } else {
        law_lines_are_read_in_order(state, a, b.drop_last(), line, width);
        assert((a + b).drop_last() =~= a + b.drop_last());
        assert((a + b).last() == b.last());
    }
}

/// A source is read by its lines, from what was known before; text that is left at its end is shown as text.
pub proof fn law_source_is_read_by_lines(
    table: Option<TableModel>,
    candidate: Option<Seq<char>>,
    lines: Seq<Seq<char>>,
    width: Option<usize>,
)
    requires
        are_lines(lines),
    ensures
        ({
            let start = ScanModel {
                table,
                candidate,
                handled: false,
                pending: Seq::empty(),
                shown: Seq::empty(),
            };
            let end = scan_lines(start, lines, width);
            let r = scanned(table, candidate, lines.flatten(), width);
            &&& r.table == end.table && r.candidate == end.candidate && r.handled == end.handled
            &&& end.pending.len() == 0 ==> r.shown == end.shown
            &&& end.pending.len() > 0 ==> r.shown == end.shown.push(
                PieceModel::Markdown { text: end.pending },
            )
        }),
{
    law_lines_are_read_back(lines);
    let start = ScanModel {
        table,
        candidate,
        handled: false,
        pending: Seq::empty(),
        shown: Seq::empty(),
    };
    let end = scan_lines(start, lines, width);
    let r = scanned(table, candidate, lines.flatten(), width);
    if end.pending.len() == 0 {
        assert(r.shown =~= end.shown);
    } else {
        assert(r.shown =~= end.shown.push(PieceModel::Markdown { text: end.pending }));
    }
}

/// A table has a column for each cell of its header, and one where that has none.
pub proof fn law_every_table_has_a_column(cells: nat)
    ensures
        column_count(0) == 1,
        cells > 0 ==> column_count(cells) == cells,
{
}

} // verus!
