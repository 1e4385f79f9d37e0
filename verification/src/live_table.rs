//! Tables of markdown that are shown while their rows still arrive.
//!
//! A row between pipes may be the header of a table. The row behind it decides: if it is a delimiter
//! row with as many columns, the table is open and each row is shown as it comes.
use vstd::prelude::*;
use vstd::string::*;

use crate::split::{
    parts_at, split_at_char, strip_both, strip_end, stripped_both, stripped_end, Strip,
};
use crate::text::{from_chars, nested, owned, pieces, split_pieces, text_of, texts, to_chars};

verus! {

/// How the cells of a column are aligned.
#[derive(Clone, Copy, Debug, PartialEq, Eq, Structural)]
pub enum ColumnAlignment {
    Unset,
    Left,
    Center,
    Right,
}

/// What the columns of a table follow from: its header, the width there was when it opened, and the
/// alignments.
#[derive(Debug, PartialEq, Eq)]
pub struct TableShape {
    pub header: Vec<String>,
    pub width: Option<usize>,
    pub alignments: Vec<ColumnAlignment>,
}

/// What the columns of a table follow from.
#[verifier::ext_equal]
pub struct ShapeModel {
    pub header: Seq<Seq<char>>,
    pub width: Option<usize>,
    pub alignments: Seq<ColumnAlignment>,
}

/// An open table.
#[derive(Debug, PartialEq, Eq)]
pub struct LivePipeTable {
    pub shape: TableShape,
    pub has_rows: bool,
}

/// An open table.
#[verifier::ext_equal]
pub struct TableModel {
    pub shape: ShapeModel,
    pub has_rows: bool,
}

/// A border of a table.
#[derive(Clone, Copy, Debug, PartialEq, Eq, Structural)]
pub enum Edge {
    Top,
    Middle,
    Bottom,
}

/// Something that is to be shown.
#[derive(Debug, PartialEq, Eq)]
pub enum PreviewPiece {
    Markdown { text: String },
    Border { edge: Edge, shape: TableShape },
    Row { shape: TableShape, cells: Vec<String>, is_header: bool },
}

/// Something that is to be shown.
#[verifier::ext_equal]
pub enum PieceModel {
    Markdown { text: Seq<char> },
    Border { edge: Edge, shape: ShapeModel },
    Row { shape: ShapeModel, cells: Seq<Seq<char>>, is_header: bool },
}

impl TableShape {
    pub open spec fn model(self) -> ShapeModel {
        ShapeModel {
            header: texts(self.header@),
            width: self.width,
            alignments: self.alignments@,
        }
    }
}

impl LivePipeTable {
    pub open spec fn model(self) -> TableModel {
        TableModel { shape: self.shape.model(), has_rows: self.has_rows }
    }
}

impl PreviewPiece {
    pub open spec fn model(self) -> PieceModel {
        match self {
            PreviewPiece::Markdown { text } => PieceModel::Markdown { text: text@ },
            PreviewPiece::Border { edge, shape } => PieceModel::Border {
                edge,
                shape: shape.model(),
            },
            PreviewPiece::Row { shape, cells, is_header } => PieceModel::Row {
                shape: shape.model(),
                cells: texts(cells@),
                is_header,
            },
        }
    }
}

/// Pieces as plain values.
pub open spec fn piece_models(list: Seq<PreviewPiece>) -> Seq<PieceModel> {
    Seq::new(list.len(), |i: int| list[i].model())
}

/// An open table as a plain value.
pub open spec fn table_model(table: Option<LivePipeTable>) -> Option<TableModel> {
    match table {
        Some(open) => Some(open.model()),
        None => None,
    }
}

/// How often a character occurs.
pub open spec fn occurrences(s: Seq<char>, c: char) -> nat
    decreases s.len(),
{
    if s.len() == 0 {
        0
    } else {
        occurrences(s.drop_last(), c) + if s.last() == c {
            1nat
        } else {
            0
        }
    }
}

/// Whether a line is a row of two cells or more between pipes.
pub open spec fn pipe_row(line: Seq<char>) -> bool {
    let inner = stripped_both(line, Strip::White);
    inner.len() > 0 && inner[0] == '|' && inner.last() == '|' && occurrences(inner, '|') >= 3
}

/// The cells of a row.
pub open spec fn pipe_cells(line: Seq<char>) -> Seq<Seq<char>> {
    let inner = stripped_both(stripped_both(line, Strip::White), Strip::Only('|'));
    let parts = parts_at(inner, '|');
    Seq::new(parts.len(), |i: int| stripped_both(parts[i], Strip::White))
}

/// The alignment that a cell of a delimiter row stands for: dashes, with or without colons around.
pub open spec fn cell_alignment(cell: Seq<char>) -> Option<ColumnAlignment> {
    let mark = stripped_both(cell, Strip::White);
    let dashes = stripped_both(mark, Strip::Only(':'));
    let left = mark.len() > 0 && mark[0] == ':';
    let right = mark.len() > 0 && mark.last() == ':';
    if dashes.len() == 0 || !(forall|i: int| 0 <= i < dashes.len() ==> dashes[i] == '-') {
        None
    } else if left && right {
        Some(ColumnAlignment::Center)
    } else if left {
        Some(ColumnAlignment::Left)
    } else if right {
        Some(ColumnAlignment::Right)
    } else {
        Some(ColumnAlignment::Unset)
    }
}

/// Whether all cells stand for alignments.
pub open spec fn all_aligned(cells: Seq<Seq<char>>) -> bool {
    forall|i: int| 0 <= i < cells.len() ==> cell_alignment(#[trigger] cells[i]) is Some
}

/// The alignments of a delimiter row.
pub open spec fn row_alignments(line: Seq<char>) -> Option<Seq<ColumnAlignment>> {
    let cells = pipe_cells(line);
    if all_aligned(cells) {
        Some(Seq::new(cells.len(), |i: int| cell_alignment(cells[i])->0))
    } else {
        None
    }
}

/// Whether a line is a row between pipes.
pub fn is_live_pipe_table_row(line: &str) -> (r: bool)
    ensures
        r == pipe_row(line@),
{
    let inner = strip_both(line, Strip::White);
    let chars = to_chars(inner.as_str());
    if chars.len() == 0 || chars[0] != '|' || chars[chars.len() - 1] != '|' {
        return false;
    }
    let mut count: usize = 0;
    let mut i: usize = 0;
    assert(chars@.take(0) =~= Seq::<char>::empty());
    while i < chars.len()
        invariant
            i <= chars@.len(),
            count <= i,
            count == occurrences(chars@.take(i as int), '|'),
        decreases chars@.len() - i,
    {
        assert(chars@.take(i + 1).drop_last() =~= chars@.take(i as int));
        assert(chars@.take(i + 1).last() == chars@[i as int]);
        if chars[i] == '|' {
            count += 1;
        }
        i += 1;
    }
    assert(chars@.take(i as int) =~= chars@);
    count >= 3
}

/// The cells of a row.
pub fn parse_live_pipe_table_cells(line: &str) -> (r: Vec<String>)
    ensures
        texts(r@) == pipe_cells(line@),
        r@.len() > 0,
{
    let outer = strip_both(line, Strip::White);
    let inner = strip_both(outer.as_str(), Strip::Only('|'));
    let parts = split_at_char(inner.as_str(), '|');
    let ghost all = parts_at(inner@, '|');
    let mut out: Vec<String> = Vec::new();
    let mut i: usize = 0;
    while i < parts.len()
        invariant
            i <= parts@.len(),
            all == nested(parts@),
            out@.len() == i,
            forall|j: int|
                0 <= j < i ==> (#[trigger] out@[j])@ == stripped_both(all[j], Strip::White),
        decreases parts@.len() - i,
    {
        let part = from_chars(parts[i].as_slice());
        assert(all[i as int] == parts@[i as int]@);
        out.push(strip_both(part.as_str(), Strip::White));
        i += 1;
    }
    assert(texts(out@) =~= pipe_cells(line@));
    out
}

/// The alignment that a cell of a delimiter row stands for.
pub fn live_pipe_table_alignment(cell: &str) -> (r: Option<ColumnAlignment>)
    ensures
        r == cell_alignment(cell@),
{
    let mark = strip_both(cell, Strip::White);
    let marks = to_chars(mark.as_str());
    let left = marks.len() > 0 && marks[0] == ':';
    let right = marks.len() > 0 && marks[marks.len() - 1] == ':';
    let inner = strip_both(mark.as_str(), Strip::Only(':'));
    let dashes = to_chars(inner.as_str());
    if dashes.len() == 0 {
        return None;
    }
    let mut i: usize = 0;
    while i < dashes.len()
        invariant
            i <= dashes@.len(),
            dashes@ == stripped_both(stripped_both(cell@, Strip::White), Strip::Only(':')),
            forall|j: int| 0 <= j < i ==> dashes@[j] == '-',
        decreases dashes@.len() - i,
    {
        if dashes[i] != '-' {
            assert(dashes@[i as int] != '-');
            return None;
        }
        i += 1;
    }
    if left && right {
        Some(ColumnAlignment::Center)
    } else if left {
        Some(ColumnAlignment::Left)
    } else if right {
        Some(ColumnAlignment::Right)
    } else {
        Some(ColumnAlignment::Unset)
    }
}

/// An option of a list as a plain value.
pub open spec fn listed(list: Option<Vec<ColumnAlignment>>) -> Option<Seq<ColumnAlignment>> {
    match list {
        Some(items) => Some(items@),
        None => None,
    }
}

/// The alignments of a delimiter row.
pub fn live_pipe_table_alignments(line: &str) -> (r: Option<Vec<ColumnAlignment>>)
    ensures
        listed(r) == row_alignments(line@),
{
    let cells = parse_live_pipe_table_cells(line);
    let ghost all = pipe_cells(line@);
    let mut out: Vec<ColumnAlignment> = Vec::new();
    let mut i: usize = 0;
    while i < cells.len()
        invariant
            i <= cells@.len(),
            all == texts(cells@),
            all == pipe_cells(line@),
            out@.len() == i,
            forall|j: int|
                0 <= j < i ==> cell_alignment(#[trigger] all[j]) == Some(out@[j]),
        decreases cells@.len() - i,
    {
        assert(all[i as int] == cells@[i as int]@);
        match live_pipe_table_alignment(cells[i].as_str()) {
            Some(alignment) => out.push(alignment),
            None => {
                assert(!all_aligned(all));
                return None;
            },
        }
        i += 1;
    }
    proof {
        assert(all_aligned(all));
        let wanted = Seq::new(all.len(), |j: int| cell_alignment(all[j])->0);
        assert forall|j: int| 0 <= j < out@.len() implies out@[j] == wanted[j] by {
            assert(cell_alignment(all[j]) == Some(out@[j]));
        }
        assert(out@ =~= wanted);
    }
    Some(out)
}

/// What is known while a source is read: the open table, a row that may be a header, whether the
/// source holds any of these, text that is no table, and what is to be shown.
#[verifier::ext_equal]
pub struct ScanModel {
    pub table: Option<TableModel>,
    pub candidate: Option<Seq<char>>,
    pub handled: bool,
    pub pending: Seq<char>,
    pub shown: Seq<PieceModel>,
}

/// What is to be shown of a text that is no table.
pub open spec fn as_markdown(pending: Seq<char>) -> Seq<PieceModel> {
    if pending.len() == 0 {
        Seq::empty()
    } else {
        seq![PieceModel::Markdown { text: pending }]
    }
}

/// A line while a table is open.
pub open spec fn scan_in_table(state: ScanModel, table: TableModel, line: Seq<char>) -> ScanModel {
    let body = stripped_end(line, Strip::LineEnds);
    let shape = table.shape;
    if !pipe_row(body) {
        ScanModel {
            table: None,
            handled: true,
            pending: state.pending + line,
            shown: state.shown.push(PieceModel::Border { edge: Edge::Bottom, shape }),
            ..state
        }
    } else if row_alignments(body) is Some {
        ScanModel { handled: true, ..state }
    } else {
        let ruled = if table.has_rows {
            state.shown.push(PieceModel::Border { edge: Edge::Middle, shape })
        } else {
            state.shown
        };
        ScanModel {
            table: Some(TableModel { shape, has_rows: true }),
            handled: true,
            shown: ruled.push(
                PieceModel::Row { shape, cells: pipe_cells(body), is_header: false },
            ),
            ..state
        }
    }
}

/// The cells of a row that may be a header.
pub open spec fn candidate_cells(candidate: Seq<char>) -> Seq<Seq<char>> {
    pipe_cells(stripped_end(candidate, Strip::LineEnds))
}

/// Whether a line makes the row before it the header of a table.
pub open spec fn opens_table(candidate: Option<Seq<char>>, line: Seq<char>) -> bool {
    match (candidate, row_alignments(stripped_end(line, Strip::LineEnds))) {
        (Some(header), Some(alignments)) => alignments.len() == candidate_cells(header).len(),
        _ => false,
    }
}

/// A line while no table is open.
pub open spec fn scan_outside(state: ScanModel, line: Seq<char>, width: Option<usize>) -> ScanModel {
    let body = stripped_end(line, Strip::LineEnds);
    if opens_table(state.candidate, line) {
        let cells = candidate_cells(state.candidate->0);
        let shape = ShapeModel { header: cells, width, alignments: row_alignments(body)->0 };
        ScanModel {
            table: Some(TableModel { shape, has_rows: true }),
            candidate: None,
            handled: true,
            pending: Seq::empty(),
            shown: (state.shown + as_markdown(state.pending)).push(
                PieceModel::Border { edge: Edge::Top, shape },
            ).push(PieceModel::Row { shape, cells, is_header: true }),
        }
    } else {
        let pending = match state.candidate {
            Some(header) => state.pending + header,
            None => state.pending,
        };
        if pipe_row(body) && row_alignments(body) is None {
            ScanModel { candidate: Some(line), handled: true, pending, ..state }
        } else {
            ScanModel { candidate: None, pending: pending + line, ..state }
        }
    }
}

/// A line.
pub open spec fn scan_line(state: ScanModel, line: Seq<char>, width: Option<usize>) -> ScanModel {
    match state.table {
        Some(table) => scan_in_table(state, table, line),
        None => scan_outside(state, line, width),
    }
}

/// Lines, one after the other.
pub open spec fn scan_lines(
    state: ScanModel,
    lines: Seq<Seq<char>>,
    width: Option<usize>,
) -> ScanModel
    decreases lines.len(),
{
    if lines.len() == 0 {
        state
    } else {
        scan_line(scan_lines(state, lines.drop_last(), width), lines.last(), width)
    }
}

/// The start of reading a source.
pub open spec fn scan_start(table: Option<TableModel>, candidate: Option<Seq<char>>) -> ScanModel {
    ScanModel {
        table,
        candidate,
        handled: false,
        pending: Seq::empty(),
        shown: Seq::empty(),
    }
}

/// The end of reading a source: text that is left is shown as markdown.
pub open spec fn scanned(
    table: Option<TableModel>,
    candidate: Option<Seq<char>>,
    source: Seq<char>,
    width: Option<usize>,
) -> ScanModel {
    let end = scan_lines(scan_start(table, candidate), pieces(source), width);
    ScanModel { shown: end.shown + as_markdown(end.pending), ..end }
}

struct Scan {
    table: Option<LivePipeTable>,
    candidate: Option<String>,
    handled: bool,
    pending: String,
    shown: Vec<PreviewPiece>,
}

impl Scan {
    spec fn model(self) -> ScanModel {
        ScanModel {
            table: table_model(self.table),
            candidate: text_of(self.candidate),
            handled: self.handled,
            pending: self.pending@,
            shown: piece_models(self.shown@),
        }
    }
}

fn copy_shape(shape: &TableShape) -> (r: TableShape)
    ensures
        r.model() == shape.model(),
{
    let mut header: Vec<String> = Vec::new();
    let mut i: usize = 0;
    while i < shape.header.len()
        invariant
            i <= shape.header@.len(),
            header@.len() == i,
            forall|j: int| 0 <= j < i ==> (#[trigger] header@[j])@ == shape.header@[j]@,
        decreases shape.header@.len() - i,
    {
        header.push(owned(shape.header[i].as_str()));
        i += 1;
    }
    let mut alignments: Vec<ColumnAlignment> = Vec::new();
    let mut k: usize = 0;
    while k < shape.alignments.len()
        invariant
            k <= shape.alignments@.len(),
            alignments@ == shape.alignments@.take(k as int),
        decreases shape.alignments@.len() - k,
    {
        alignments.push(shape.alignments[k]);
        assert(alignments@ =~= shape.alignments@.take(k + 1));
        k += 1;
    }
    let copy = TableShape { header, width: shape.width, alignments };
    assert(texts(copy.header@) =~= texts(shape.header@));
    assert(copy.alignments@ =~= shape.alignments@);
    copy
}

fn show(shown: &mut Vec<PreviewPiece>, piece: PreviewPiece)
    ensures
        piece_models(final(shown)@) == piece_models(old(shown)@).push(piece.model()),
{
    let ghost before = shown@;
    shown.push(piece);
    assert(piece_models(shown@) =~= piece_models(before).push(piece.model()));
}

fn show_markdown(shown: &mut Vec<PreviewPiece>, pending: &String)
    ensures
        piece_models(final(shown)@) == piece_models(old(shown)@) + as_markdown(pending@),
{
    let ghost before = piece_models(shown@);
    if !pending.as_str().is_empty() {
        show(shown, PreviewPiece::Markdown { text: owned(pending.as_str()) });
        assert(piece_models(shown@) =~= before + as_markdown(pending@));
    } else {
        assert(piece_models(shown@) =~= before + as_markdown(pending@));
    }
}

fn read_in_table(scan: Scan, table: LivePipeTable, line: &str) -> (r: Scan)
    requires
        scan.table is None,
    ensures
        r.model() == scan_in_table(
            (ScanModel { table: Some(table.model()), ..scan.model() }),
            table.model(),
            line@,
        ),
{
    let mut scan = scan;
    let ghost start = scan.model();
    let body = strip_end(line, Strip::LineEnds);
    scan.handled = true;
    if !is_live_pipe_table_row(body.as_str()) {
        show(
            &mut scan.shown,
            PreviewPiece::Border { edge: Edge::Bottom, shape: table.shape },
        );
        scan.pending.append(line);
        return scan;
    }
    if live_pipe_table_alignments(body.as_str()).is_some() {
        scan.table = Some(table);
        return scan;
    }
    let cells = parse_live_pipe_table_cells(body.as_str());
    if table.has_rows {
        show(
            &mut scan.shown,
            PreviewPiece::Border { edge: Edge::Middle, shape: copy_shape(&table.shape) },
        );
    }
    show(
        &mut scan.shown,
        PreviewPiece::Row { shape: copy_shape(&table.shape), cells, is_header: false },
    );
    scan.table = Some(LivePipeTable { shape: table.shape, has_rows: true });
    scan
}

fn read_outside(scan: Scan, line: &str, width: Option<usize>) -> (r: Scan)
    requires
        scan.table is None,
    ensures
        r.model() == scan_outside(scan.model(), line@, width),
{
    let mut scan = scan;
    let ghost start = scan.model();
    let body = strip_end(line, Strip::LineEnds);
    let delimiters = live_pipe_table_alignments(body.as_str());
    let is_delimiter = delimiters.is_some();
    if let Some(header) = scan.candidate {
        scan.candidate = None;
        let row = strip_end(header.as_str(), Strip::LineEnds);
        let header_cells = parse_live_pipe_table_cells(row.as_str());
        if let Some(alignments) = delimiters {
            assert(texts(header_cells@).len() == header_cells@.len());
            if alignments.len() == header_cells.len() {
                assert(opens_table(start.candidate, line@));
                show_markdown(&mut scan.shown, &scan.pending);
                scan.pending = owned("");
                proof {
                    reveal_strlit("");
                    assert(scan.pending@ =~= Seq::<char>::empty());
                }
                let ghost cells = texts(header_cells@);
                let shape = TableShape { header: header_cells, width, alignments };
                show(
                    &mut scan.shown,
                    PreviewPiece::Border { edge: Edge::Top, shape: copy_shape(&shape) },
                );
                let first = copy_shape(&shape);
                let cell_copy = copy_shape(&shape).header;
                show(
                    &mut scan.shown,
                    PreviewPiece::Row { shape: first, cells: cell_copy, is_header: true },
                );
                scan.table = Some(LivePipeTable { shape, has_rows: true });
                scan.handled = true;
                return scan;
            }
        }
        scan.pending.append(header.as_str());
    }
    if is_live_pipe_table_row(body.as_str()) && !is_delimiter {
        scan.candidate = Some(owned(line));
        scan.handled = true;
    } else {
        scan.pending.append(line);
    }
    scan
}

/// Reads a source behind the table that is open and the row that may be a header. Returns whether
/// the source holds any of these, and what is to be shown then.
pub fn process_live_table_preview_source(
    table: &mut Option<LivePipeTable>,
    candidate: &mut Option<String>,
    source: &str,
    width: Option<usize>,
) -> (r: (bool, Vec<PreviewPiece>))
    ensures
        ({
            let end = scanned(table_model(*old(table)), text_of(*old(candidate)), source@, width);
            &&& r.0 == end.handled
            &&& piece_models(r.1@) == end.shown
            &&& table_model(*final(table)) == end.table
            &&& text_of(*final(candidate)) == end.candidate
        }),
{
    let ghost start = scan_start(table_model(*table), text_of(*candidate));
    let chars = to_chars(source);
    let lines = split_pieces(chars.as_slice());
    let ghost all = pieces(source@);
    proof {
        reveal_strlit("");
    }
    let mut scan = Scan {
        table: table.take(),
        candidate: candidate.take(),
        handled: false,
        pending: owned(""),
        shown: Vec::new(),
    };
    proof {
        assert(scan.pending@ =~= Seq::<char>::empty());
        assert(piece_models(scan.shown@) =~= Seq::<PieceModel>::empty());
        assert(all.take(0) =~= Seq::<Seq<char>>::empty());
    }
    let mut i: usize = 0;
    while i < lines.len()
        invariant
            i <= lines@.len(),
            all == nested(lines@),
            scan.model() == scan_lines(start, all.take(i as int), width),
        decreases lines@.len() - i,
    {
        let line = from_chars(lines[i].as_slice());
        proof {
            assert(all.take(i + 1).drop_last() =~= all.take(i as int));
            assert(all.take(i + 1).last() == lines@[i as int]@);
        }
        let ghost before = scan.model();
        let open = scan.table;
        scan.table = None;
        scan = match open {
            Some(live) => read_in_table(scan, live, line.as_str()),
            None => read_outside(scan, line.as_str(), width),
        };
        i += 1;
    }
    assert(all.take(i as int) =~= all);
    let mut shown = scan.shown;
    show_markdown(&mut shown, &scan.pending);
    *table = scan.table;
    *candidate = scan.candidate;
    (scan.handled, shown)
}

/// Whether a line is a row between pipes that is no delimiter row.
pub open spec fn may_be_header(line: Seq<char>) -> bool {
    let body = stripped_end(line, Strip::LineEnds);
    pipe_row(body) && row_alignments(body) is None
}

proof fn lemma_plain_lines(lines: Seq<Seq<char>>, width: Option<usize>)
    requires
        forall|i: int| 0 <= i < lines.len() ==> !may_be_header(#[trigger] lines[i]),
    ensures
        ({
            let end = scan_lines(scan_start(None, None), lines, width);
            &&& end.table is None
            &&& end.candidate is None
            &&& !end.handled
            &&& end.shown == Seq::<PieceModel>::empty()
            &&& end.pending == crate::text::flat(lines)
        }),
    decreases lines.len(),
{
    if lines.len() > 0 {
        let before = lines.drop_last();
        assert forall|i: int| 0 <= i < before.len() implies !may_be_header(#[trigger] before[i]) by {
            assert(before[i] == lines[i]);
        }
        lemma_plain_lines(before, width);
        assert(!may_be_header(lines[lines.len() - 1]));
    }
}

/// A source none of whose lines may be the header of a table is left alone, and all of it is text.
pub proof fn law_plain_source_is_left_alone(source: Seq<char>, width: Option<usize>)
    requires
        forall|i: int| 0 <= i < pieces(source).len() ==> !may_be_header(#[trigger] pieces(source)[i]),
    ensures
        !scanned(None, None, source, width).handled,
        scanned(None, None, source, width).table is None,
        scanned(None, None, source, width).candidate is None,
        scanned(None, None, source, width).shown == as_markdown(source),
{
    lemma_plain_lines(pieces(source), width);
    crate::text::lemma_pieces(source);
    let end = scan_lines(scan_start(None, None), pieces(source), width);
    assert(end.shown + as_markdown(end.pending) =~= as_markdown(source));
}

/// A row that may be a header opens a table only if a delimiter row with as many columns follows.
pub proof fn law_tables_need_a_delimiter_row(
    header: Seq<char>,
    line: Seq<char>,
    width: Option<usize>,
)
    ensures
        ({
            let state = ScanModel { candidate: Some(header), ..scan_start(None, None) };
            let next = scan_line(state, line, width);
            &&& next.table is Some <==> opens_table(Some(header), line)
            &&& next.table is None ==> next.pending == (if next.candidate is Some {
                header
            } else {
                header + line
            })
        }),
{
    assert(Seq::<char>::empty() + header =~= header);
}

} // verus!
