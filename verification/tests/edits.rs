use codex_tools_core::apply::{
    apply_resolved_edits, edit_hits, ensure_non_overlapping, ranges_overlap,
};
use codex_tools_core::change::{
    changed_line_ranges, changed_ranges, content_hash, ensure_expected_hash,
    text_output_with_warnings, unified_update_diff,
};
use codex_tools_core::edit::{
    edit_request, resolve_operation_edits, sequential_edit_warning, EditApplyMode, EditArgs,
    EditOperation, EditRequest, ResolvedEdit,
};
use codex_tools_core::error::FunctionCallError;
use codex_tools_core::line_range::{
    byte_range_to_line_range, file_line_count, format_line_ranges, inserted_line_count,
    line_byte_range, line_number_at_byte, merge_line_ranges, validate_line_range,
    whole_file_range,
};
use codex_tools_core::occurrence::{count_occurrences, occurrence_start, resolve_occurrence};
use codex_tools_core::outside::LineChange;
use codex_tools_core::plan::{
    edit_observation_plan, edit_operation_observed_ranges, edit_sequential_observation_plan,
    edit_snapshot_observation_plan, original_line_origins, original_ranges_for_current_lines,
    replace_line_origins,
    text_occurrence_line_range, update_line_origins, update_text_replacement_origins,
};
use codex_tools_core::request::{
    apply_edit_operation, apply_edit_operations, resolve_snapshot_edits,
};

fn respond(message: &str) -> FunctionCallError {
    FunctionCallError::RespondToModel(message.to_string())
}

fn replace(old: &str, new: &str, occurrence: Option<usize>) -> EditOperation {
    EditOperation::Replace {
        old_text: old.to_string(),
        new_text: new.to_string(),
        occurrence,
    }
}

fn insert_before(anchor: &str, text: &str) -> EditOperation {
    EditOperation::InsertBefore {
        anchor: anchor.to_string(),
        text: text.to_string(),
        occurrence: None,
    }
}

fn replace_range(start_line: usize, end_line: usize, new: &str) -> EditOperation {
    EditOperation::ReplaceRange { start_line, end_line, new_text: new.to_string() }
}

fn request(apply_mode: EditApplyMode, operations: Vec<EditOperation>) -> EditRequest {
    EditRequest { apply_mode, operations }
}

fn edited(text: &str, operation: EditOperation) -> Result<String, FunctionCallError> {
    apply_edit_operation(text, &operation, 0).map(|applied| applied.text)
}

#[test]
fn each_operation_changes_its_place() {
    assert_eq!(edited("a b a", replace("a", "c", Some(2))), Ok("a b c".to_string()));
    assert_eq!(edited("ab", insert_before("b", "-")), Ok("a-b".to_string()));
    let after = EditOperation::InsertAfter {
        anchor: "a".to_string(),
        text: "-".to_string(),
        occurrence: None,
    };
    assert_eq!(edited("ab", after), Ok("a-b".to_string()));
    assert_eq!(edited("1\n2\n3\n", replace_range(2, 3, "x\n")), Ok("1\nx\n".to_string()));
    let delete = EditOperation::DeleteRange { start_line: 1, end_line: 1 };
    assert_eq!(edited("1\n2\n", delete), Ok("2\n".to_string()));
    let delete = EditOperation::DeleteText { old_text: "b".to_string(), occurrence: None };
    assert_eq!(edited("abc", delete), Ok("ac".to_string()));
    let some = EditOperation::ReplaceOccurrences {
        old_text: "a".to_string(),
        new_text: "bb".to_string(),
        occurrences: vec![3, 1],
    };
    assert_eq!(edited("aXaYa", some), Ok("bbXaYbb".to_string()));
    assert_eq!(edited("日本", replace("本", "x", None)), Ok("日x".to_string()));
}

#[test]
fn operations_that_name_nothing_are_refused() {
    assert_eq!(edited("a", replace("b", "c", None)), Err(respond("old_text was not found")));
    assert_eq!(
        edited("a a", replace("a", "c", None)),
        Err(respond("old_text occurs 2 times; specify occurrence"))
    );
    assert_eq!(
        edited("a", replace("a", "c", Some(0))),
        Err(respond("occurrence must be one-based"))
    );
    let none = EditOperation::ReplaceOccurrences {
        old_text: "a".to_string(),
        new_text: "b".to_string(),
        occurrences: Vec::new(),
    };
    assert_eq!(edited("a", none), Err(respond("occurrences must not be empty")));
    assert_eq!(edited("a", replace_range(0, 1, "")), Err(respond("line ranges must be one-based")));
    assert!(edited("a", replace_range(2, 1, "")).is_err());
    assert!(edited("a", replace_range(1, 2, "")).is_err());
    assert!(resolve_occurrence("a", "a", Some(2), "anchor").is_err());
    assert_eq!(resolve_occurrence("aa", "a", Some(2), "anchor"), Ok(2));
    assert_eq!(count_occurrences("aaa", "aa"), 1);
    assert_eq!(count_occurrences("ab", ""), 3);
}

#[test]
fn edits_are_read_off_the_arguments() {
    let args = || EditArgs {
        path: "p".to_string(),
        apply_mode: EditApplyMode::default(),
        old_text: None,
        new_text: None,
        occurrence: None,
        ops: Vec::new(),
    };
    assert_eq!(
        edit_request(args()),
        Err(respond("old_text is required when ops is omitted"))
    );
    let mut old = args();
    old.old_text = Some("a".to_string());
    assert_eq!(edit_request(old), Err(respond("new_text is required when ops is omitted")));
    let mut both = args();
    both.ops = vec![replace("a", "b", None)];
    both.occurrence = Some(1);
    assert_eq!(
        edit_request(both),
        Err(respond("use either ops or legacy old_text/new_text fields, not both"))
    );
}

#[test]
fn snapshot_edits_apply_at_once() {
    let swap = vec![replace("a", "b", None), replace("b", "a", None)];
    let applied =
        apply_edit_operations("a b", &request(EditApplyMode::Snapshot, swap)).unwrap();
    assert_eq!(applied.text, "b a");
    let hits: Vec<(usize, std::ops::Range<usize>)> =
        applied.hits.into_iter().map(|hit| (hit.op_index, hit.range)).collect();
    assert_eq!(hits, vec![(0, 0..1), (1, 2..3)]);
}

#[test]
fn an_insertion_stays_before_what_is_replaced() {
    let operations = vec![replace("a", "A", None), replace("", "-", Some(1))];
    let applied =
        apply_edit_operations("abc", &request(EditApplyMode::Snapshot, operations)).unwrap();
    assert_eq!(applied.text, "-Abc");
}

#[test]
fn one_operation_is_the_same_in_both_modes() {
    for mode in [EditApplyMode::Sequential, EditApplyMode::Snapshot] {
        let operations = vec![replace("b", "xyz", None)];
        assert_eq!(
            apply_edit_operations("abc", &request(mode, operations)).unwrap().text,
            "axyzc"
        );
    }
}

#[test]
fn overlaps_are_found() {
    assert!(ranges_overlap(&(0..3), &(2..4)));
    assert!(!ranges_overlap(&(0..2), &(2..4)));
    assert!(ranges_overlap(&(2..2), &(2..2)));
    let operations = vec![replace("abc", "x", None), replace("cd", "y", None)];
    assert!(resolve_snapshot_edits("abcd", &operations).is_err());
    let edits = resolve_operation_edits("abcd", &replace("bc", "-", None), 4).unwrap();
    assert_eq!(ensure_non_overlapping(&edits), Ok(()));
    assert_eq!(apply_resolved_edits("abcd", &edits), "a-d");
    assert_eq!(edit_hits(&edits)[0].op_index, 4);
}

#[test]
fn edits_apply_in_any_order() {
    let text = "aé-bc-d";
    let resolve = || -> Vec<ResolvedEdit> {
        let operations =
            [replace("é", "ee", None), replace("bc", "", None), replace("d", "δδ", None)];
        operations
            .iter()
            .enumerate()
            .flat_map(|(index, op)| resolve_operation_edits(text, op, index).unwrap())
            .collect()
    };
    let mut backwards = resolve();
    backwards.reverse();
    let mut rotated = resolve();
    rotated.rotate_left(1);
    for edits in [resolve(), backwards, rotated] {
        assert_eq!(ensure_non_overlapping(&edits), Ok(()));
        let edited = apply_resolved_edits(text, &edits);
        assert_eq!(edited, "aee--δδ");
        let replaced: usize = edits.iter().map(|edit| edit.range.len()).sum();
        let put: usize = edits.iter().map(|edit| edit.replacement.len()).sum();
        assert_eq!(edited.len(), text.len() - replaced + put);
    }
}

#[test]
fn sequential_edits_warn_only_where_a_text_is_searched_again() {
    let operations = [replace("a", "b", Some(1)), replace("c", "d", Some(1))];
    assert_eq!(sequential_edit_warning(&operations, EditApplyMode::Sequential), None);
    let operations = [replace("a", "b", Some(1)), replace("a", "d", Some(1))];
    assert!(sequential_edit_warning(&operations, EditApplyMode::Sequential).is_some());
    assert_eq!(sequential_edit_warning(&operations, EditApplyMode::Snapshot), None);
}

#[test]
fn lines_are_counted_from_one() {
    assert_eq!(line_number_at_byte("a\nb", 0), 1);
    assert_eq!(line_number_at_byte("a\nb", 2), 2);
    assert_eq!(line_number_at_byte("a\nb", 99), 2);
    assert_eq!(byte_range_to_line_range("a\nb\nc", 0, 3), (1, 2));
    assert_eq!(byte_range_to_line_range("a\nb", 2, 2), (2, 2));
    assert_eq!(file_line_count(""), 0);
    assert_eq!(file_line_count("a\nb"), 2);
    assert_eq!(file_line_count("a\nb\n"), 2);
    assert_eq!(inserted_line_count("a\nb\n"), 2);
    assert_eq!(whole_file_range(""), Vec::new());
    assert_eq!(whole_file_range("a\nb"), vec![(1, 2)]);
    assert_eq!(line_byte_range("é\nb\n", 2, 2), Ok(3..5));
    assert_eq!(validate_line_range("a\n", 1, 1), Ok((1, 1)));
}

#[test]
fn ranges_are_merged_and_shown() {
    let mut ranges = vec![(5, 6), (1, 2), (3, 3), (9, 9)];
    merge_line_ranges(&mut ranges);
    assert_eq!(ranges, vec![(1, 3), (5, 6), (9, 9)]);
    assert_eq!(format_line_ranges(&ranges), "1-3, 5-6, 9");
    assert_eq!(format_line_ranges(&[]), "");
}

#[test]
fn changes_name_the_lines_of_the_new_text() {
    assert_eq!(changed_line_ranges("a\nb\nc\n", "a\nx\nc\n"), vec![(2, 2)]);
    assert_eq!(changed_line_ranges("a\nb\n", "a\n"), vec![(1, 1)]);
    assert_eq!(changed_line_ranges("a\n", ""), Vec::new());
    assert_eq!(
        changed_ranges(&[LineChange::Equal, LineChange::Insert, LineChange::Insert], 3),
        vec![(2, 3)]
    );
    let diff = unified_update_diff("p", "a\n", "b\n");
    assert!(diff.contains("--- p\n+++ p\n"));
    assert!(diff.contains("-a\n+b\n"));
}

#[test]
fn hashes_name_the_content() {
    assert_eq!(content_hash("abc"), "sha1:a9993e364706816aba3e25717850c26c9cd0d89d");
    assert_eq!(ensure_expected_hash("abc", &content_hash("abc")), Ok(()));
    assert_eq!(
        ensure_expected_hash("abc", "sha1:0"),
        Err(respond(&format!(
            "expected_hash mismatch: expected sha1:0, actual {}",
            content_hash("abc")
        )))
    );
    assert_eq!(text_output_with_warnings(None, "x".to_string()), "x");
}

#[test]
fn an_edit_relies_on_the_lines_that_it_touches() {
    let text = "a\nb\nc\n";
    assert_eq!(text_occurrence_line_range(text, "b", None, "old_text"), Ok((2, 2)));
    assert_eq!(
        edit_operation_observed_ranges(text, &replace("b\nc", "x", None)),
        Ok(vec![(2, 3)])
    );
    assert_eq!(original_line_origins(text), vec![Some(1), Some(2), Some(3)]);
    let plan = edit_sequential_observation_plan(
        text,
        &[replace_range(1, 1, "x\ny\n"), replace_range(3, 3, "z\n")],
    )
    .unwrap();
    assert_eq!(plan.required_ranges, vec![(1, 2)]);
    assert_eq!(plan.final_line_origins, vec![Some(1), Some(1), Some(2), Some(3)]);
    let plan = edit_snapshot_observation_plan(text, &[replace("b", "x", None)]).unwrap();
    assert_eq!(plan.required_ranges, vec![(2, 2)]);
    let wrong = request(EditApplyMode::Sequential, vec![replace("q", "x", None)]);
    assert_eq!(edit_observation_plan(text, &wrong), Err(respond("old_text was not found")));
}

#[test]
fn occurrences_start_behind_each_other() {
    assert_eq!(occurrence_start("aäaa", "a", 1), Some(0));
    assert_eq!(occurrence_start("aäaa", "a", 2), Some(3));
    assert_eq!(occurrence_start("aäaa", "aa", 1), Some(3));
    assert_eq!(occurrence_start("aäaa", "aa", 2), None);
    assert_eq!(occurrence_start("abc", "", 3), Some(0));
}

#[test]
fn origins_follow_an_edit() {
    let mut origins = original_line_origins("a\nb\nc\n");
    assert_eq!(origins, [Some(1), Some(2), Some(3)]);
    replace_line_origins(&mut origins, 2, 2, "x\ny\n");
    assert_eq!(origins, [Some(1), Some(2), Some(2), Some(3)]);
    update_text_replacement_origins(&mut origins, 1, 1, "a", "b");
    assert_eq!(origins, [Some(1), Some(2), Some(2), Some(3)]);
    let insertion = EditOperation::InsertAfter {
        anchor: "a\n".to_string(),
        text: "n\n".to_string(),
        occurrence: None,
    };
    update_line_origins(&mut origins, &insertion, &[(1, 1)]);
    assert_eq!(origins, [Some(1), None, Some(2), Some(2), Some(3)]);
}

#[test]
fn a_line_behind_the_last_origin_has_none() {
    let text = "axb\nc\n";
    let operations = || vec![replace("x", "p\n", None), replace("c", "d", None)];
    let plan = edit_sequential_observation_plan(text, &operations()).expect("the edit applies");
    assert_eq!(plan.required_ranges, [(1, 1)]);
    assert_eq!(plan.final_line_origins, [Some(1), Some(2)]);
    let applied = apply_edit_operations(text, &request(EditApplyMode::Sequential, operations()));
    assert_eq!(applied.unwrap().text, "ap\nb\nd\n");
    let mut origins = vec![Some(1)];
    replace_line_origins(&mut origins, 3, 3, "x\ny\n");
    assert_eq!(origins, [Some(1), None, None]);
    let deletion = EditOperation::DeleteRange { start_line: 2, end_line: 9 };
    update_line_origins(&mut origins, &deletion, &[(2, 9)]);
    assert_eq!(origins, [Some(1)]);
    assert_eq!(original_ranges_for_current_lines(&origins, 1, 4), [(1, 1)]);
    assert_eq!(original_ranges_for_current_lines(&origins, 4, 5), []);
}

#[test]
fn plans_of_both_modes_are_those_of_the_request() {
    let text = "a\nb\nc\n";
    let operations = || vec![replace("a\n", "x\n", None), replace_range(3, 3, "z\n")];
    let plan = edit_sequential_observation_plan(text, &operations()).expect("the edit applies");
    assert_eq!(plan.required_ranges, [(1, 1), (3, 3)]);
    let sequential = request(EditApplyMode::Sequential, operations());
    assert_eq!(edit_observation_plan(text, &sequential), Ok(plan));
    let snapshot = request(EditApplyMode::Snapshot, operations());
    let plan = edit_observation_plan(text, &snapshot).expect("the edit applies");
    assert_eq!(plan.required_ranges, [(1, 1), (3, 3)]);
}
