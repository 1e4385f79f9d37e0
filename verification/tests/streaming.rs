use codex_tools_core::live_table::{
    is_live_pipe_table_row, live_pipe_table_alignment, live_pipe_table_alignments,
    parse_live_pipe_table_cells, process_live_table_preview_source, ColumnAlignment, Edge,
    PreviewPiece, TableShape,
};
use codex_tools_core::streaming::{
    FinalStep, PlanLine, PlanStreamController, PushStep, StreamController, StreamCore,
};
use codex_tools_core::table_layout::{
    live_table_border, live_table_cell_width, live_table_row, live_table_widths,
    spans_display_width, wrap_live_table_cell, RowPart,
};

type Line = &'static str;

fn keep(text: String) -> Line {
    Box::leak(text.into_boxed_str())
}

/// Wraps a text at spaces.
fn wrap(text: &str, width: usize) -> Vec<String> {
    let mut lines: Vec<String> = Vec::new();
    for word in text.split(' ') {
        match lines.last_mut() {
            Some(line) if line.chars().count() + 1 + word.chars().count() <= width => {
                line.push(' ');
                line.push_str(word);
            }
            _ => lines.push(word.to_string()),
        }
    }
    lines
}

/// Shows emphasis without its marks.
fn inline(text: &str) -> String {
    text.replace("**", "")
}

fn markdown(source: &str, width: Option<usize>) -> Vec<Line> {
    source
        .lines()
        .flat_map(|line| wrap(&inline(line), width.unwrap_or(usize::MAX / 2)))
        .map(keep)
        .collect()
}

fn widths_of(shape: &TableShape) -> Vec<usize> {
    let natural: Vec<usize> = shape
        .header
        .iter()
        .map(|cell| {
            let columns = spans_display_width(&[inline(cell)]).expect("a header is narrow");
            live_table_cell_width(&[columns])
        })
        .collect();
    live_table_widths(shape.width, &natural)
}

fn render_piece(piece: &PreviewPiece, width: Option<usize>) -> Vec<Line> {
    match piece {
        PreviewPiece::Markdown { text } => markdown(text, width),
        PreviewPiece::Border { edge, shape } => {
            vec![keep(live_table_border(&widths_of(shape), *edge))]
        }
        PreviewPiece::Row { shape, cells, .. } => {
            let widths = widths_of(shape);
            let wrapped: Vec<Vec<Vec<String>>> = widths
                .iter()
                .enumerate()
                .map(|(index, width)| {
                    let cell = inline(cells.get(index).map_or("", String::as_str));
                    let lines = wrap(&cell, *width).into_iter().map(|line| vec![line]).collect();
                    wrap_live_table_cell(vec![lines])
                })
                .collect();
            let line_widths: Vec<Vec<usize>> = wrapped
                .iter()
                .map(|cell| {
                    cell.iter().map(|line| spans_display_width(line).unwrap()).collect()
                })
                .collect();
            live_table_row(&line_widths, &widths, &shape.alignments)
                .into_iter()
                .map(|parts| {
                    keep(
                        parts
                            .into_iter()
                            .map(|part| match part {
                                RowPart::Bar => "│".to_string(),
                                RowPart::Spaces { count } => " ".repeat(count),
                                RowPart::Content { column, line } => wrapped[column][line].concat(),
                            })
                            .collect(),
                    )
                })
                .collect()
        }
    }
}

fn render_pieces(pieces: &[PreviewPiece], width: Option<usize>) -> Vec<Line> {
    pieces.iter().flat_map(|piece| render_piece(piece, width)).collect()
}

fn advance(core: &mut StreamCore<Line>, step: PushStep) -> bool {
    match step {
        PushStep::Waiting => false,
        PushStep::Preview { pieces } => {
            let lines = render_pieces(&pieces, core.width);
            core.preview_rendered(&lines, 0)
        }
        PushStep::Render => {
            let lines = markdown(&core.raw_source, core.width);
            assert!(core.can_take(lines.len()));
            core.source_rendered(lines, 0)
        }
    }
}

fn last_lines(core: &StreamCore<Line>, step: FinalStep) -> (bool, Vec<Line>) {
    match step {
        FinalStep::Append { pieces } => (false, render_pieces(&pieces, core.width)),
        FinalStep::Whole => (true, markdown(&core.raw_source, core.width)),
    }
}

fn push(ctrl: &mut StreamController<Line>, delta: &str) -> bool {
    let step = ctrl.push(delta);
    advance(&mut ctrl.core, step)
}

fn finalize(ctrl: &mut StreamController<Line>) -> (Vec<Line>, Option<String>) {
    let step = ctrl.begin_finalize();
    let (whole, lines) = last_lines(&ctrl.core, step);
    let (cell, source) = ctrl.finalize(whole, &lines);
    (cell.map_or_else(Vec::new, |cell| cell.lines), source)
}

fn resize(ctrl: &mut StreamController<Line>, width: usize) {
    if ctrl.set_width(Some(width)) {
        let lines = markdown(&ctrl.core.raw_source, ctrl.core.width);
        ctrl.width_rendered(lines, 0);
    }
}

fn push_plan(ctrl: &mut PlanStreamController<Line>, delta: &str) -> bool {
    let step = ctrl.push(delta);
    advance(&mut ctrl.core, step)
}

fn finalize_plan(ctrl: &mut PlanStreamController<Line>) -> (Vec<PlanLine<Line>>, Option<String>) {
    let step = ctrl.begin_finalize();
    let (whole, lines) = last_lines(&ctrl.core, step);
    let (cell, source) = ctrl.finalize(whole, &lines);
    (cell.map_or_else(Vec::new, |cell| cell.lines), source)
}

fn collect_streamed_lines(deltas: &[&str], width: Option<usize>) -> Vec<Line> {
    let mut ctrl: StreamController<Line> = StreamController::new(width);
    let mut lines = Vec::new();
    for delta in deltas {
        push(&mut ctrl, delta);
        while let (Some(cell), idle) = ctrl.on_commit_tick() {
            lines.extend(cell.lines);
            if idle {
                break;
            }
        }
    }
    lines.extend(finalize(&mut ctrl).0);
    lines
}

#[test]
fn controller_set_width_rebuilds_queued_lines() {
    let mut ctrl = StreamController::new(Some(120));
    let delta = "This is a long line that should wrap into multiple rows when resized.\n";
    assert!(push(&mut ctrl, delta));
    assert_eq!(ctrl.queued_lines(), 1);

    resize(&mut ctrl, 24);
    let (cell, idle) = ctrl.on_commit_tick_batch(usize::MAX);

    assert!(idle);
    assert!(cell.expect("expected resized queued lines").lines.len() > 1);
}

#[test]
fn controller_set_width_no_duplicate_after_emit() {
    let mut ctrl = StreamController::new(Some(120));
    let line =
        "This is a long line that definitely wraps when the terminal shrinks to 24 columns.\n";
    push(&mut ctrl, line);
    let (cell, _) = ctrl.on_commit_tick_batch(usize::MAX);
    assert!(cell.is_some(), "expected emitted cell");
    assert_eq!(ctrl.queued_lines(), 0);

    resize(&mut ctrl, 24);

    assert_eq!(
        ctrl.queued_lines(),
        0,
        "already-emitted content must not be re-queued after resize",
    );
}

#[test]
fn controller_tick_batch_zero_is_noop() {
    let mut ctrl = StreamController::new(Some(80));
    assert!(push(&mut ctrl, "line one\n"));
    assert_eq!(ctrl.queued_lines(), 1);

    let (cell, idle) = ctrl.on_commit_tick_batch(0);
    assert!(cell.is_none(), "batch size 0 should not emit lines");
    assert!(!idle, "batch size 0 should not drain queued lines");
    assert_eq!(ctrl.queued_lines(), 1, "queue depth should remain unchanged");
}

#[test]
fn controller_finalize_returns_raw_source_for_consolidation() {
    let mut ctrl = StreamController::new(Some(80));
    assert!(push(&mut ctrl, "hello\n"));
    let (_lines, source) = finalize(&mut ctrl);
    assert_eq!(source, Some("hello\n".to_string()));
}

#[test]
fn plan_controller_finalize_returns_raw_source_for_consolidation() {
    let mut ctrl = PlanStreamController::new(Some(80));
    assert!(push_plan(&mut ctrl, "- step\n"));
    let (_lines, source) = finalize_plan(&mut ctrl);
    assert_eq!(source, Some("- step\n".to_string()));
}

#[test]
fn simple_lines_stream_in_order() {
    let actual = collect_streamed_lines(&["hello\n", "world\n"], Some(80));
    assert_eq!(actual, vec!["hello", "world"]);
}

#[test]
fn pipe_table_rows_stream_as_live_preview() {
    let mut ctrl = StreamController::new(Some(20));

    assert!(!push(&mut ctrl, "| A | B |\n"));
    assert_eq!(ctrl.queued_lines(), 0);

    assert!(push(&mut ctrl, "| --- | --- |\n"));
    assert_eq!(ctrl.queued_lines(), 2);
    let (cell, idle) = ctrl.on_commit_tick_batch(usize::MAX);
    assert!(idle);
    assert_eq!(
        cell.expect("expected header preview").lines,
        vec!["┌─────────┬────────┐", "│ A       │ B      │"]
    );

    assert!(push(&mut ctrl, "| C | D |\n"));
    assert_eq!(ctrl.queued_lines(), 2);
    let (cell, idle) = ctrl.on_commit_tick_batch(usize::MAX);
    assert!(idle);
    assert_eq!(
        cell.expect("expected body row preview").lines,
        vec!["├─────────┼────────┤", "│ C       │ D      │"]
    );

    let (lines, source) = finalize(&mut ctrl);
    assert_eq!(source, Some("| A | B |\n| --- | --- |\n| C | D |\n".to_string()));
    assert_eq!(lines, vec!["└─────────┴────────┘"]);
}

#[test]
fn pipe_table_live_preview_renders_inline_markdown() {
    let mut ctrl = StreamController::new(Some(60));

    assert!(!push(&mut ctrl, "| Type | Effect |\n"));
    assert!(push(&mut ctrl, "| --- | --- |\n"));
    let (cell, idle) = ctrl.on_commit_tick_batch(usize::MAX);
    assert!(idle);
    assert!(cell.is_some(), "expected header preview");

    assert!(push(&mut ctrl, "| bold | **bold** |\n"));
    let (cell, idle) = ctrl.on_commit_tick_batch(usize::MAX);
    assert!(idle);
    let lines = cell.expect("expected body row preview").lines;
    assert!(lines.iter().all(|line| !line.contains("**")));
}

#[test]
fn short_alignment_delimiters_stream_as_live_table() {
    let mut ctrl = StreamController::new(Some(30));

    assert!(!push(&mut ctrl, "| L | C | R |\n"));
    assert_eq!(ctrl.queued_lines(), 0);

    assert!(push(&mut ctrl, "| :-- | :-: | --: |\n"));
    let (cell, idle) = ctrl.on_commit_tick_batch(usize::MAX);
    assert!(idle);
    assert_eq!(
        cell.expect("expected header preview").lines,
        vec!["┌─────────┬─────────┬────────┐", "│ L       │    C    │      R │"]
    );

    assert!(push(&mut ctrl, "| a | b | 123 |\n"));
    let (cell, idle) = ctrl.on_commit_tick_batch(usize::MAX);
    assert!(idle);
    assert_eq!(
        cell.expect("expected body row preview").lines,
        vec!["├─────────┼─────────┼────────┤", "│ a       │    b    │    123 │"]
    );
}

#[test]
fn pipe_rows_without_delimiter_do_not_stream_as_live_table() {
    let mut ctrl = StreamController::new(Some(80));

    assert!(!push(&mut ctrl, "| A | B |\n"));
    assert_eq!(ctrl.queued_lines(), 0);

    assert!(push(&mut ctrl, "| C | D |\n"));
    assert_eq!(ctrl.queued_lines(), 1);
    let (cell, idle) = ctrl.on_commit_tick_batch(usize::MAX);
    assert!(idle);
    assert_eq!(
        cell.expect("expected first non-table pipe row as text").lines,
        vec!["| A | B |"]
    );

    let (lines, source) = finalize(&mut ctrl);
    assert_eq!(source, Some("| A | B |\n| C | D |\n".to_string()));
    assert_eq!(lines, vec!["| C | D |"]);
}

#[test]
fn plan_lines_stream_in_order() {
    let mut ctrl = PlanStreamController::new(Some(80));
    let mut lines = Vec::new();
    for delta in ["- one\n", "- two\n"] {
        push_plan(&mut ctrl, delta);
        while let (Some(cell), idle) = ctrl.on_commit_tick() {
            lines.extend(cell.lines);
            if idle {
                break;
            }
        }
    }
    lines.extend(finalize_plan(&mut ctrl).0);
    assert_eq!(
        lines,
        vec![
            PlanLine::Title,
            PlanLine::Blank,
            PlanLine::Padding,
            PlanLine::Body { line: "- one" },
            PlanLine::Body { line: "- two" },
            PlanLine::Padding,
        ]
    );
}

#[test]
fn text_waits_for_its_line_feed() {
    let mut ctrl: StreamController<Line> = StreamController::new(Some(80));
    assert_eq!(ctrl.push("hel"), PushStep::Waiting);
    assert_eq!(ctrl.core.raw_source, "");
    assert!(push(&mut ctrl, "lo\nwor"));
    assert_eq!(ctrl.core.raw_source, "hello\n");
    let (cell, idle) = ctrl.on_commit_tick();
    let cell = cell.expect("expected a line");
    assert!(cell.is_first);
    assert!(idle);
    let (lines, source) = finalize(&mut ctrl);
    assert_eq!(lines, vec!["wor"]);
    assert_eq!(source, Some("hello\nwor".to_string()));
}

#[test]
fn nothing_comes_out_of_an_empty_stream() {
    let mut ctrl = StreamController::new(Some(80));
    assert_eq!(finalize(&mut ctrl), (Vec::new(), None));
}

#[test]
fn lines_wait_in_the_queue_since_they_came() {
    let mut ctrl: StreamController<Line> = StreamController::new(Some(80));
    assert_eq!(ctrl.oldest_queued_age(9), None);
    assert_eq!(ctrl.push("a\nb\n"), PushStep::Render);
    assert!(ctrl.source_rendered(vec!["a", "b"], 5));
    assert_eq!(ctrl.oldest_queued_age(9), Some(4));
    ctrl.clear_queue();
    assert_eq!(ctrl.queued_lines(), 0);
    assert_eq!(ctrl.core.enqueued_len, 0);
}

#[test]
fn a_push_tells_of_its_own_lines_only() {
    let mut ctrl = StreamController::new(Some(80));
    assert!(push(&mut ctrl, "hello\n"));
    assert!(!push(&mut ctrl, "| A | B |\n"));
    assert_eq!(ctrl.queued_lines(), 1);
    assert!(push(&mut ctrl, "| --- | --- |\n"));
    let mut plan = PlanStreamController::new(Some(80));
    assert!(push_plan(&mut plan, "hello\n"));
    assert!(!push_plan(&mut plan, "| A | B |\n"));
    assert_eq!(plan.queued_lines(), 1);
}

#[test]
fn lines_that_waited_are_not_new() {
    let mut core: StreamCore<Line> = StreamCore::new(None);
    core.push_delta("a\nb\nc\n");
    assert!(core.source_rendered(vec!["a", "b", "c"], 0));
    assert!(!core.source_rendered(vec!["a", "b"], 1));
    assert_eq!(core.queued_lines(), 2);
    assert!(core.source_rendered(vec!["a", "b", "c"], 2));
    assert!(core.source_rendered(vec!["a", "x"], 3));
    assert_eq!(core.tick_batch(9), vec!["a", "x"]);
}

#[test]
fn the_end_gives_all_text_once() {
    let deltas = ["one\n| A | B |\n", "| --- | --- |\n| 1 ", "| 2 |\n", "after\nlast\n"];
    let mut ctrl = StreamController::new(Some(40));
    for (index, delta) in deltas.iter().enumerate() {
        push(&mut ctrl, delta);
        ctrl.on_commit_tick_batch(index);
        resize(&mut ctrl, 60 - index);
    }
    let (_, source) = finalize(&mut ctrl);
    assert_eq!(source, Some(deltas.concat()));
    assert_eq!(finalize(&mut ctrl), (Vec::new(), None));
}

#[test]
fn fewer_lines_rebuild_the_queue() {
    let mut core: StreamCore<Line> = StreamCore::new(None);
    core.push_delta("a\nb\nc\n");
    assert!(core.source_rendered(vec!["a", "b", "c"], 0));
    assert_eq!(core.tick(), vec!["a"]);
    core.push_delta("d\n");
    assert!(core.source_rendered(vec!["a", "bcd"], 0));
    assert_eq!(core.tick_batch(9), vec!["bcd"]);
    core.push_delta("e\n");
    assert!(!core.source_rendered(vec!["abcde"], 0));
    assert!(core.is_idle());
}

#[test]
fn a_resize_with_waiting_lines_keeps_one_to_show() {
    let mut core: StreamCore<Line> = StreamCore::new(Some(4));
    core.push_delta("a b c\n");
    assert!(core.source_rendered(vec!["a", "b", "c"], 0));
    core.tick_batch(2);
    assert!(core.set_width(Some(80)));
    assert!(!core.set_width(Some(80)));
    core.width_rendered(vec!["a b c"], 0);
    assert_eq!(core.tick_batch(9), vec!["a b c"]);
}

#[test]
fn text_ends_a_table() {
    let mut table = None;
    let mut candidate = None;
    let source = "before\n| A | B |\n|--|--|\n| c | d |\nafter\n";
    let (handled, pieces) =
        process_live_table_preview_source(&mut table, &mut candidate, source, Some(20));
    assert!(handled);
    let lines = render_pieces(&pieces, Some(20));
    assert_eq!(
        lines,
        vec![
            "before",
            "┌─────────┬────────┐",
            "│ A       │ B      │",
            "├─────────┼────────┤",
            "│ c       │ d      │",
            "└─────────┴────────┘",
            "after",
        ]
    );
    assert_eq!(table, None);
    assert_eq!(candidate, None);
}

#[test]
fn plain_text_is_not_handled_as_a_table() {
    let mut table = None;
    let mut candidate = None;
    let (handled, pieces) =
        process_live_table_preview_source(&mut table, &mut candidate, "a\nb\n", None);
    assert!(!handled);
    assert_eq!(pieces, vec![PreviewPiece::Markdown { text: "a\nb\n".to_string() }]);
}

#[test]
fn rows_and_delimiters_are_told_apart() {
    assert!(is_live_pipe_table_row("  | a | b |  "));
    assert!(!is_live_pipe_table_row("| a |"));
    assert!(!is_live_pipe_table_row("a | b | c |"));
    assert!(!is_live_pipe_table_row(""));
    assert_eq!(parse_live_pipe_table_cells("| a |  b c|"), vec!["a", "b c"]);
    assert_eq!(live_pipe_table_alignment(" :-: "), Some(ColumnAlignment::Center));
    assert_eq!(live_pipe_table_alignment(":-"), Some(ColumnAlignment::Left));
    assert_eq!(live_pipe_table_alignment("-:"), Some(ColumnAlignment::Right));
    assert_eq!(live_pipe_table_alignment("-"), Some(ColumnAlignment::Unset));
    assert_eq!(live_pipe_table_alignment("::"), None);
    assert_eq!(live_pipe_table_alignment("-x-"), None);
    assert_eq!(live_pipe_table_alignments("| --- | x |"), None);
    assert_eq!(
        live_pipe_table_alignments("| --- | --: |"),
        Some(vec![ColumnAlignment::Unset, ColumnAlignment::Right])
    );
}

#[test]
fn columns_share_the_width() {
    assert_eq!(live_table_widths(None, &[1, 9]), vec![3, 9]);
    assert_eq!(live_table_widths(Some(20), &[1, 1]), vec![7, 6]);
    assert_eq!(live_table_widths(Some(3), &[5, 5, 5]), vec![1, 1, 1]);
    assert_eq!(live_table_widths(Some(10), &[]), vec![6]);
    assert_eq!(live_table_border(&[1, 2], Edge::Middle), "├───┼────┤");
    assert_eq!(live_table_border(&[], Edge::Top), "┌");
}

#[test]
fn short_cells_stand_in_the_middle_of_their_row() {
    let rows = live_table_row(&[vec![1], vec![1, 1, 1]], &[3, 1], &[ColumnAlignment::Right]);
    assert_eq!(rows.len(), 3);
    assert_eq!(
        rows[1],
        vec![
            RowPart::Bar,
            RowPart::Spaces { count: 1 },
            RowPart::Spaces { count: 2 },
            RowPart::Content { column: 0, line: 0 },
            RowPart::Spaces { count: 1 },
            RowPart::Bar,
            RowPart::Spaces { count: 1 },
            RowPart::Content { column: 1, line: 1 },
            RowPart::Spaces { count: 1 },
            RowPart::Bar,
        ]
    );
    assert!(!rows[0].contains(&RowPart::Content { column: 0, line: 0 }));
}

#[test]
fn widths_count_columns_of_the_terminal() {
    let spans = vec!["日本".to_string(), "ab".to_string()];
    assert_eq!(spans_display_width(&spans), Some(6));
    assert_eq!(spans_display_width(&[]), Some(0));
    assert_eq!(live_table_cell_width(&[2, 5, 3]), 5);
    assert_eq!(live_table_cell_width(&[]), 0);
}

#[test]
fn a_cell_has_at_least_one_line() {
    assert_eq!(wrap_live_table_cell::<u8>(Vec::new()), vec![Vec::<u8>::new()]);
    assert_eq!(
        wrap_live_table_cell(vec![vec![vec![1], vec![2]], vec![], vec![vec![3]]]),
        vec![vec![1], vec![2], vec![], vec![3]]
    );
}
