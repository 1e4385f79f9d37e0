//! How the rows of a table are laid out: the widths of its columns, its borders, and where the lines
//! of its cells stand.
use vstd::arithmetic::div_mod::lemma_fundamental_div_mod;
use vstd::prelude::*;
use vstd::string::*;

use crate::live_table::{ColumnAlignment, Edge};
use crate::outside::{text_columns, text_width};
use crate::picker::rule_line;
use crate::text::{owned, texts};
use crate::width::{nats, taken};

verus! {

/// The columns that some texts take side by side.
pub open spec fn columns_of(spans: Seq<Seq<char>>) -> nat
    decreases spans.len(),
{
    if spans.len() == 0 {
        0
    } else {
        columns_of(spans.drop_last()) + text_columns(spans.last()) as nat
    }
}

proof fn lemma_columns_grow(spans: Seq<Seq<char>>, count: int)
    requires
        0 <= count <= spans.len(),
    ensures
        columns_of(spans.take(count)) <= columns_of(spans),
    decreases spans.len(),
{
    if count == spans.len() {
        assert(spans.take(count) =~= spans);
    } else {
        assert(spans.drop_last().take(count) =~= spans.take(count));
        lemma_columns_grow(spans.drop_last(), count);
    }
}

/// How many columns some texts take side by side; `None` where that number is too large.
pub fn spans_display_width(spans: &[String]) -> (r: Option<usize>)
    ensures
        match r {
            Some(width) => width == columns_of(texts(spans@)),
            None => columns_of(texts(spans@)) > usize::MAX,
        },
{
    let ghost all = texts(spans@);
    let mut total: usize = 0;
    let mut i: usize = 0;
    assert(all.take(0) =~= Seq::<Seq<char>>::empty());
    while i < spans.len()
        invariant
            i <= spans@.len(),
            all == texts(spans@),
            total == columns_of(all.take(i as int)),
        decreases spans@.len() - i,
    {
        let width = text_width(spans[i].as_str());
        proof {
            assert(all.take(i + 1).drop_last() =~= all.take(i as int));
            assert(all.take(i + 1).last() == spans@[i as int]@);
            lemma_columns_grow(all, i + 1);
        }
        if width > usize::MAX - total {
            return None;
        }
        total += width;
        i += 1;
    }
    assert(all.take(i as int) =~= all);
    Some(total)
}

/// The widest of some lines, at least `least`.
pub open spec fn widest(lines: Seq<nat>, least: nat) -> nat
    decreases lines.len(),
{
    if lines.len() == 0 {
        least
    } else {
        let before = widest(lines.drop_last(), least);
        if lines.last() > before {
            lines.last()
        } else {
            before
        }
    }
}

/// The widest of some lines; 0 where there is none.
pub fn live_table_cell_width(line_widths: &[usize]) -> (r: usize)
    ensures
        r == widest(nats(line_widths@), 0),
{
    let ghost all = nats(line_widths@);
    let mut most: usize = 0;
    let mut i: usize = 0;
    assert(all.take(0) =~= Seq::<nat>::empty());
    while i < line_widths.len()
        invariant
            i <= line_widths@.len(),
            all == nats(line_widths@),
            most == widest(all.take(i as int), 0),
        decreases line_widths@.len() - i,
    {
        assert(all.take(i + 1).drop_last() =~= all.take(i as int));
        assert(all.take(i + 1).last() == line_widths@[i as int]);
        if line_widths[i] > most {
            most = line_widths[i];
        }
        i += 1;
    }
    assert(all.take(i as int) =~= all);
    most
}

/// How many columns a table has; there is always one.
pub open spec fn column_count(cells: nat) -> nat {
    if cells == 0 {
        1
    } else {
        cells
    }
}

/// What a width leaves for the cells: what the bars and the spaces beside them do not take, and at
/// least one for each column.
pub open spec fn room(width: nat, columns: nat) -> nat {
    if width >= columns * 3 + 1 + columns {
        (width - (columns * 3 + 1)) as nat
    } else {
        columns
    }
}

/// The widths of the columns: what the header's cells take and at least three, where the width is
/// free, else even shares of what there is, the first ones with what is left over.
pub open spec fn column_widths(width: Option<usize>, cells: Seq<nat>) -> Seq<nat> {
    let count = column_count(cells.len());
    match width {
        None => Seq::new(
            cells.len(),
            |i: int|
                if cells[i] < 3 {
                    3
                } else {
                    cells[i]
                },
        ),
        Some(columns) => {
            let all = room(columns as nat, count);
            Seq::new(
                count,
                |i: int|
                    all / count + if i < all % count {
                        1nat
                    } else {
                        0
                    },
            )
        },
    }
}

/// The widths of a table's columns.
pub fn live_table_widths(width: Option<usize>, cells: &[usize]) -> (r: Vec<usize>)
    requires
        width is Some ==> cells@.len() * 3 + 1 <= usize::MAX,
    ensures
        nats(r@) == column_widths(width, nats(cells@)),
{
    let mut out: Vec<usize> = Vec::new();
    match width {
        None => {
            let mut i: usize = 0;
            while i < cells.len()
                invariant
                    i <= cells@.len(),
                    out@.len() == i,
                    forall|j: int|
                        0 <= j < i ==> #[trigger] out@[j] == if cells@[j] < 3 {
                            3
                        } else {
                            cells@[j]
                        },
                decreases cells@.len() - i,
            {
                if cells[i] < 3 {
                    out.push(3);
                } else {
                    out.push(cells[i]);
                }
                i += 1;
            }
            assert(nats(out@) =~= column_widths(width, nats(cells@)));
        },
        Some(columns) => {
            let count: usize = if cells.len() == 0 {
                1
            } else {
                cells.len()
            };
            let fixed: usize = count * 3 + 1;
            let available: usize = if columns >= fixed && columns - fixed >= count {
                columns - fixed
            } else {
                count
            };
            let base: usize = available / count;
            let rest: usize = available % count;
            proof {
                lemma_fundamental_div_mod(available as int, count as int);
                assert(rest > 0 && base >= available ==> count * base >= available)
                    by (nonlinear_arith)
                    requires
                        count >= 1,
                        available >= 0,
                ;
            }
            let mut i: usize = 0;
            while i < count
                invariant
                    i <= count,
                    out@.len() == i,
                    rest > 0 ==> base < usize::MAX,
                    forall|j: int|
                        0 <= j < i ==> #[trigger] out@[j] == base + if j < rest {
                            1int
                        } else {
                            0
                        },
                decreases count - i,
            {
                if i < rest {
                    out.push(base + 1);
                } else {
                    out.push(base);
                }
                i += 1;
            }
            assert(nats(out@) =~= column_widths(width, nats(cells@)));
        },
    }
    out
}

proof fn lemma_shares(all: nat, count: nat, k: nat)
    requires
        count > 0,
        k <= count,
    ensures
        taken(
            Seq::new(
                count,
                |i: int|
                    all / count + if i < all % count {
                        1nat
                    } else {
                        0
                    },
            ),
            k,
        ) == (all / count) * k + if k < all % count {
            k
        } else {
            all % count
        },
    decreases k,
{
    let base = all / count;
    if k > 0 {
        lemma_shares(all, count, (k - 1) as nat);
        assert(base * k == base * (k - 1) + base) by (nonlinear_arith)
            requires
                k > 0,
        ;
    } else {
        assert(base * k == 0) by (nonlinear_arith)
            requires
                k == 0,
        ;
    }
}

/// Where each column can have a place, the columns with their bars and spaces fill the width.
pub proof fn law_columns_fill_the_width(width: usize, cells: Seq<nat>)
    requires
        width >= column_count(cells.len()) * 4 + 1,
    ensures
        column_widths(Some(width), cells).len() == column_count(cells.len()),
        taken(column_widths(Some(width), cells), column_count(cells.len())) + column_count(
            cells.len(),
        ) * 3 + 1 == width,
{
    let count = column_count(cells.len());
    let all = room(width as nat, count);
    lemma_shares(all, count, count);
    lemma_fundamental_div_mod(all as int, count as int);
    assert((all / count) * count == count * (all / count)) by (nonlinear_arith);
}

/// The first `count` columns of a border.
pub open spec fn border_columns(widths: Seq<nat>, count: nat, middle: char, right: char) -> Seq<char>
    decreases count,
{
    if count == 0 {
        Seq::empty()
    } else {
        (border_columns(widths, (count - 1) as nat, middle, right) + rule_line(
            widths[count - 1] + 2,
        )).push(
            if count < widths.len() {
                middle
            } else {
                right
            },
        )
    }
}

/// The corners of a border: left, between two columns, right.
pub open spec fn corners(edge: Edge) -> (char, char, char) {
    match edge {
        Edge::Top => ('┌', '┬', '┐'),
        Edge::Middle => ('├', '┼', '┤'),
        Edge::Bottom => ('└', '┴', '┘'),
    }
}

/// A border.
pub open spec fn border_text(widths: Seq<nat>, edge: Edge) -> Seq<char> {
    let (left, middle, right) = corners(edge);
    seq![left] + border_columns(widths, widths.len(), middle, right)
}

/// Draws a border of a table.
pub fn live_table_border(widths: &[usize], edge: Edge) -> (r: String)
    requires
        forall|i: int| 0 <= i < widths@.len() ==> #[trigger] widths@[i] <= usize::MAX - 2,
    ensures
        r@ == border_text(nats(widths@), edge),
{
    let (left, middle, right) = match edge {
        Edge::Top => ('┌', '┬', '┐'),
        Edge::Middle => ('├', '┼', '┤'),
        Edge::Bottom => ('└', '┴', '┘'),
    };
    let ghost all = nats(widths@);
    proof {
        reveal_strlit("");
    }
    let mut out = owned("");
    out.push(left);
    assert(out@ =~= seq![left] + border_columns(all, 0, middle, right));
    let mut i: usize = 0;
    while i < widths.len()
        invariant
            i <= widths@.len(),
            all == nats(widths@),
            forall|j: int| 0 <= j < widths@.len() ==> #[trigger] widths@[j] <= usize::MAX - 2,
            out@ == seq![left] + border_columns(all, i as nat, middle, right),
        decreases widths@.len() - i,
    {
        let ghost before = out@;
        let total: usize = widths[i] + 2;
        let mut k: usize = 0;
        assert(before + rule_line(0) =~= before);
        while k < total
            invariant
                k <= total,
                out@ == before + rule_line(k as nat),
            decreases total - k,
        {
            out.push('─');
            assert(out@ =~= before + rule_line((k + 1) as nat));
            k += 1;
        }
        let corner = if i + 1 < widths.len() {
            middle
        } else {
            right
        };
        out.push(corner);
        assert(all[i as int] == widths@[i as int]);
        assert(out@ =~= seq![left] + border_columns(all, (i + 1) as nat, middle, right));
        i += 1;
    }
    out
}

/// A part of a line of a row.
#[derive(Clone, Copy, Debug, PartialEq, Eq)]
pub enum RowPart {
    /// The bar between two columns.
    Bar,
    Spaces { count: usize },
    /// A line of the cell in a column.
    Content { column: usize, line: usize },
}

/// Some spaces; nothing for none.
pub open spec fn spaces(count: nat) -> Seq<RowPart> {
    if count == 0 {
        Seq::empty()
    } else {
        seq![RowPart::Spaces { count: count as usize }]
    }
}

/// How much of a padding stands on the left.
pub open spec fn left_padding(padding: nat, alignment: ColumnAlignment) -> nat {
    match alignment {
        ColumnAlignment::Unset => 0,
        ColumnAlignment::Left => 0,
        ColumnAlignment::Center => padding / 2,
        ColumnAlignment::Right => padding,
    }
}

/// A line of a cell, padded to the width of its column, with a space on each side.
pub open spec fn padded(
    content: Seq<RowPart>,
    content_width: nat,
    width: nat,
    alignment: ColumnAlignment,
) -> Seq<RowPart> {
    let padding = if content_width < width {
        (width - content_width) as nat
    } else {
        0
    };
    let left = left_padding(padding, alignment);
    spaces(1) + spaces(left) + content + spaces((padding - left) as nat) + spaces(1)
}

/// How many lines a row takes: as many as its tallest cell.
pub open spec fn tallest(cells: Seq<Vec<usize>>) -> nat
    decreases cells.len(),
{
    if cells.len() == 0 {
        0
    } else {
        let before = tallest(cells.drop_last());
        if cells.last()@.len() > before {
            cells.last()@.len()
        } else {
            before
        }
    }
}

/// The height of a row; one without columns has one line.
pub open spec fn row_height(cells: Seq<Vec<usize>>) -> nat {
    if cells.len() == 0 {
        1
    } else {
        tallest(cells)
    }
}

/// Which line of a cell stands in line `index` of a row of the given height: cells are centered.
pub open spec fn cell_line(lines: nat, height: nat, index: int) -> Option<int> {
    let top = (height - lines) / 2;
    if top <= index < top + lines {
        Some(index - top)
    } else {
        None
    }
}

/// The alignment of a column.
pub open spec fn alignment_of(alignments: Seq<ColumnAlignment>, column: int) -> ColumnAlignment {
    if column < alignments.len() {
        alignments[column]
    } else {
        ColumnAlignment::Unset
    }
}

/// A column of a line of a row. `cells` gives the width of each line of each cell.
pub open spec fn row_column(
    cells: Seq<Vec<usize>>,
    widths: Seq<usize>,
    alignments: Seq<ColumnAlignment>,
    index: int,
    column: int,
) -> Seq<RowPart> {
    let lines = cells[column]@;
    match cell_line(lines.len(), row_height(cells), index) {
        Some(line) => padded(
            seq![RowPart::Content { column: column as usize, line: line as usize }],
            lines[line] as nat,
            widths[column] as nat,
            alignment_of(alignments, column),
        ),
        None => padded(
            Seq::empty(),
            0,
            widths[column] as nat,
            alignment_of(alignments, column),
        ),
    }
}

/// The first `count` columns of a line of a row, each with the bar behind it.
pub open spec fn row_columns(
    cells: Seq<Vec<usize>>,
    widths: Seq<usize>,
    alignments: Seq<ColumnAlignment>,
    index: int,
    count: nat,
) -> Seq<RowPart>
    decreases count,
{
    if count == 0 {
        Seq::empty()
    } else {
        (row_columns(cells, widths, alignments, index, (count - 1) as nat) + row_column(
            cells,
            widths,
            alignments,
            index,
            count - 1,
        )).push(RowPart::Bar)
    }
}

/// A line of a row.
pub open spec fn row_line(
    cells: Seq<Vec<usize>>,
    widths: Seq<usize>,
    alignments: Seq<ColumnAlignment>,
    index: int,
) -> Seq<RowPart> {
    seq![RowPart::Bar] + row_columns(cells, widths, alignments, index, cells.len())
}

fn push_spaces(out: &mut Vec<RowPart>, count: usize)
    ensures
        final(out)@ == old(out)@ + spaces(count as nat),
{
    if count > 0 {
        out.push(RowPart::Spaces { count });
    }
    assert(out@ =~= old(out)@ + spaces(count as nat));
}

/// Pads a line of a cell to the width of its column.
pub fn pad_live_table_cell_line(
    content: Option<RowPart>,
    content_width: usize,
    width: usize,
    alignment: ColumnAlignment,
) -> (r: Vec<RowPart>)
    ensures
        r@ == padded(
            match content {
                Some(part) => seq![part],
                None => Seq::empty(),
            },
            content_width as nat,
            width as nat,
            alignment,
        ),
{
    let padding: usize = if content_width < width {
        width - content_width
    } else {
        0
    };
    let left: usize = match alignment {
        ColumnAlignment::Unset => 0,
        ColumnAlignment::Left => 0,
        ColumnAlignment::Center => padding / 2,
        ColumnAlignment::Right => padding,
    };
    let mut out: Vec<RowPart> = Vec::new();
    push_spaces(&mut out, 1);
    push_spaces(&mut out, left);
    let ghost before = out@;
    if let Some(part) = content {
        out.push(part);
        assert(out@ =~= before + seq![part]);
    } else {
        assert(out@ =~= before + Seq::<RowPart>::empty());
    }
    push_spaces(&mut out, padding - left);
    push_spaces(&mut out, 1);
    assert(out@ =~= padded(
        match content {
            Some(part) => seq![part],
            None => Seq::empty(),
        },
        content_width as nat,
        width as nat,
        alignment,
    ));
    out
}

proof fn lemma_tallest(cells: Seq<Vec<usize>>, column: int)
    requires
        0 <= column < cells.len(),
    ensures
        cells[column]@.len() <= tallest(cells),
    decreases cells.len(),
{
    if column < cells.len() - 1 {
        lemma_tallest(cells.drop_last(), column);
    }
}

fn height_of(cells: &[Vec<usize>]) -> (r: usize)
    ensures
        r == row_height(cells@),
{
    if cells.len() == 0 {
        return 1;
    }
    let mut most: usize = 0;
    let mut i: usize = 0;
    assert(cells@.take(0) =~= Seq::<Vec<usize>>::empty());
    while i < cells.len()
        invariant
            i <= cells@.len(),
            most == tallest(cells@.take(i as int)),
        decreases cells@.len() - i,
    {
        assert(cells@.take(i + 1).drop_last() =~= cells@.take(i as int));
        assert(cells@.take(i + 1).last() == cells@[i as int]);
        if cells[i].len() > most {
            most = cells[i].len();
        }
        i += 1;
    }
    assert(cells@.take(i as int) =~= cells@);
    most
}

fn lay_out_line(
    cells: &[Vec<usize>],
    widths: &[usize],
    alignments: &[ColumnAlignment],
    height: usize,
    index: usize,
) -> (r: Vec<RowPart>)
    requires
        cells@.len() == widths@.len(),
        height == row_height(cells@),
    ensures
        r@ == row_line(cells@, widths@, alignments@, index as int),
{
    let mut out: Vec<RowPart> = vec![RowPart::Bar];
    let mut column: usize = 0;
    assert(out@ =~= seq![RowPart::Bar] + row_columns(
        cells@,
        widths@,
        alignments@,
        index as int,
        0,
    ));
    while column < cells.len()
        invariant
            column <= cells@.len() == widths@.len(),
            height == row_height(cells@),
            out@ == seq![RowPart::Bar] + row_columns(
                cells@,
                widths@,
                alignments@,
                index as int,
                column as nat,
            ),
        decreases cells@.len() - column,
    {
        let ghost before = out@;
        proof {
            lemma_tallest(cells@, column as int);
        }
        let lines: usize = cells[column].len();
        let top: usize = (height - lines) / 2;
        let alignment = if column < alignments.len() {
            alignments[column]
        } else {
            ColumnAlignment::Unset
        };
        let mut parts = if index >= top && index - top < lines {
            let line: usize = index - top;
            pad_live_table_cell_line(
                Some(RowPart::Content { column, line }),
                cells[column][line],
                widths[column],
                alignment,
            )
        } else {
            pad_live_table_cell_line(None, 0, widths[column], alignment)
        };
        let ghost middle = parts@;
        assert(middle == row_column(cells@, widths@, alignments@, index as int, column as int));
        out.append(&mut parts);
        out.push(RowPart::Bar);
        assert(out@ =~= (before + middle).push(RowPart::Bar));
        assert(out@ =~= seq![RowPart::Bar] + row_columns(
            cells@,
            widths@,
            alignments@,
            index as int,
            (column + 1) as nat,
        ));
        column += 1;
    }
    out
}

/// The lines of a row. `cells` gives the width of each line of each cell.
pub fn live_table_row(
    cells: &[Vec<usize>],
    widths: &[usize],
    alignments: &[ColumnAlignment],
) -> (r: Vec<Vec<RowPart>>)
    requires
        cells@.len() == widths@.len(),
    ensures
        r@.len() == row_height(cells@),
        forall|i: int|
            0 <= i < r@.len() ==> (#[trigger] r@[i])@ == row_line(
                cells@,
                widths@,
                alignments@,
                i,
            ),
{
    let height = height_of(cells);
    let mut out: Vec<Vec<RowPart>> = Vec::new();
    let mut i: usize = 0;
    while i < height
        invariant
            i <= height,
            height == row_height(cells@),
            cells@.len() == widths@.len(),
            out@.len() == i,
            forall|j: int|
                0 <= j < i ==> (#[trigger] out@[j])@ == row_line(
                    cells@,
                    widths@,
                    alignments@,
                    j,
                ),
        decreases height - i,
    {
        out.push(lay_out_line(cells, widths, alignments, height, i));
        i += 1;
    }
    out
}

/// Each line of a cell stands in exactly one line of its row.
pub proof fn law_each_cell_line_is_shown_once(lines: nat, height: nat, line: int)
    requires
        lines <= height,
        0 <= line < lines,
    ensures
        exists|index: int|
            0 <= index < height && #[trigger] cell_line(lines, height, index) == Some(line),
        forall|i: int, j: int|
            #[trigger] cell_line(lines, height, i) == Some(line) && #[trigger] cell_line(
                lines,
                height,
                j,
            ) == Some(line) ==> i == j,
{
    let index = (height - lines) / 2 + line;
    assert(cell_line(lines, height, index) == Some(line));
}

/// The lines that a cell is wrapped into: those of each of its lines, or an empty one where there are
/// none.
pub open spec fn wrapped_lines<S>(lines: Seq<Vec<Vec<S>>>) -> Seq<Seq<S>>
    decreases lines.len(),
{
    if lines.len() == 0 {
        Seq::empty()
    } else {
        let last = lines.last()@;
        wrapped_lines(lines.drop_last()) + if last.len() == 0 {
            seq![Seq::empty()]
        } else {
            Seq::new(last.len(), |i: int| last[i]@)
        }
    }
}

/// Some lines, or an empty one for none.
pub open spec fn at_least_one<S>(lines: Seq<Seq<S>>) -> Seq<Seq<S>> {
    if lines.len() == 0 {
        seq![Seq::empty()]
    } else {
        lines
    }
}

/// Lines as plain values.
pub open spec fn span_lines<S>(lines: Seq<Vec<S>>) -> Seq<Seq<S>> {
    Seq::new(lines.len(), |i: int| lines[i]@)
}

/// Puts together the lines that a cell is wrapped into.
pub fn wrap_live_table_cell<S>(lines: Vec<Vec<Vec<S>>>) -> (r: Vec<Vec<S>>)
    ensures
        span_lines(r@) == at_least_one(wrapped_lines(lines@)),
{
    let ghost all = lines@;
    let mut lines = lines;
    let mut back: Vec<Vec<Vec<S>>> = Vec::new();
    let mut out: Vec<Vec<S>> = Vec::new();
    let total: usize = lines.len();
    while lines.len() > 0
        invariant
            lines@.len() + back@.len() == total == all.len(),
            lines@ == all.take(lines@.len() as int),
            forall|k: int|
                0 <= k < back@.len() ==> #[trigger] back@[k] == all[total - 1 - k],
        decreases lines@.len(),
    {
        let ghost before = lines@;
        match lines.pop() {
            Some(last) => back.push(last),
            None => {},
        }
        assert(lines@ =~= all.take(lines@.len() as int));
    }
    assert(all.take(0) =~= Seq::<Vec<Vec<S>>>::empty());
    assert(span_lines(out@) =~= wrapped_lines(all.take(0)));
    while back.len() > 0
        invariant
            back@.len() <= total == all.len(),
            forall|k: int|
                0 <= k < back@.len() ==> #[trigger] back@[k] == all[total - 1 - k],
            span_lines(out@) == wrapped_lines(all.take(total - back@.len())),
        decreases back@.len(),
    {
        let ghost held = back@;
        let ghost before = out@;
        let ghost at = total - back@.len();
        match back.pop() {
            Some(part) => {
                let mut part = part;
                let ghost lines_of_part = part@;
                proof {
                    assert(lines_of_part == all[at]@);
                    assert(all.take(at + 1).drop_last() =~= all.take(at));
                    assert(all.take(at + 1).last() == all[at]);
                }
                if part.len() == 0 {
                    out.push(Vec::new());
                    assert(span_lines(out@) =~= span_lines(before) + seq![Seq::<S>::empty()]);
                } else {
                    out.append(&mut part);
                    assert(span_lines(out@) =~= span_lines(before) + Seq::new(
                        lines_of_part.len(),
                        |i: int| lines_of_part[i]@,
                    ));
                }
                assert(total - back@.len() == at + 1);
            },
            None => {},
        }
    }
    assert(all.take(all.len() as int) =~= all);
    if out.len() == 0 {
        assert(wrapped_lines(all).len() == 0);
        out.push(Vec::new());
        assert(span_lines(out@) =~= seq![Seq::<S>::empty()]);
    }
    out
}

} // verus!
