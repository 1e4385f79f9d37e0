//! Applying whole edit requests.
use vstd::prelude::*;
use vstd::string::*;

use crate::apply::{
    apply_resolved_edits, edit_hits, edited, edited_front, ensure_non_overlapping, first_clash,
    hit_keys, in_order, inside, overlap_choice, replaced, sorted_hits,
};
use crate::edit::{
    all_fit, hits_of, lemma_hits, models, operation_edits, resolve_operation_edits, resolved_hits,
    resolves_to, Edit, EditApplyMode, EditHit, EditOperation, EditRequest, ResolvedEdit,
};
use crate::error::FunctionCallError;
use crate::line_range::{lemma_chars_of_lines, line_span};
use crate::occurrence::{lemma_occurrence_span, occurrence_span};
use crate::order::{sorted_keys, Key};
use crate::text::{decimal, decimal_u128, owned};

verus! {

/// An edited text and the bytes that the operations matched.
#[derive(Debug, PartialEq, Eq)]
pub struct AppliedEdit {
    pub text: String,
    pub hits: Vec<EditHit>,
}

/// An edited text and the bytes that the operations matched.
pub struct Applied {
    pub text: Seq<char>,
    pub hits: Seq<EditHit>,
}

/// Whether `r` is what `model` says.
pub open spec fn applies_to(
    r: Result<AppliedEdit, FunctionCallError>,
    model: Result<Applied, Seq<char>>,
) -> bool {
    match model {
        Ok(applied) => r matches Ok(got) && got.text@ == applied.text && got.hits@
            == applied.hits,
        Err(message) => r matches Err(error) && error.says(message),
    }
}

/// A message with the number of its operation in front, where there are several.
pub open spec fn prefixed(message: Seq<char>, index: int, operation_count: int) -> Seq<char> {
    if operation_count > 1 {
        "op "@ + decimal((index + 1) as nat) + ": "@ + message
    } else {
        message
    }
}

/// Puts the number of the operation in front of a message to the model, where there are several.
pub fn prefix_edit_operation_error(
    err: FunctionCallError,
    index: usize,
    operation_count: usize,
) -> (r: FunctionCallError)
    ensures
        match err {
            FunctionCallError::RespondToModel(message) => r.says(
                prefixed(message@, index as int, operation_count as int),
            ),
            FunctionCallError::Fatal(_) => r == err,
        },
{
    match err {
        FunctionCallError::RespondToModel(message) => if operation_count > 1 {
            let mut text = owned("op ");
            text.append(decimal_u128(index as u128 + 1).as_str());
            text.append(": ");
            text.append(message.as_str());
            FunctionCallError::RespondToModel(text)
        } else {
            FunctionCallError::RespondToModel(message)
        },
        FunctionCallError::Fatal(message) => FunctionCallError::Fatal(message),
    }
}

/// The edits made, unless two of them overlap.
pub open spec fn edits_applied(text: Seq<char>, edits: Seq<Edit>) -> Result<Applied, Seq<char>> {
    match overlap_choice(hits_of(text, edits)) {
        Ok(_) => Ok(
            Applied { text: edited(text, in_order(text, edits)), hits: hits_of(text, edits) },
        ),
        Err(message) => Err(message),
    }
}

/// One operation applied.
pub open spec fn operation_applied(text: Seq<char>, operation: EditOperation, op: usize) -> Result<
    Applied,
    Seq<char>,
> {
    match operation_edits(text, operation, op) {
        Ok(edits) => edits_applied(text, edits),
        Err(message) => Err(message),
    }
}

/// The first `count` operations applied one after the other, each to what the one before it left.
pub open spec fn sequence_applied(
    text: Seq<char>,
    operations: Seq<EditOperation>,
    count: nat,
) -> Result<Applied, Seq<char>>
    decreases count,
{
    if count == 0 {
        Ok(Applied { text, hits: Seq::empty() })
    } else {
        let last = (count - 1) as nat;
        match sequence_applied(text, operations, last) {
            Ok(before) => match operation_applied(
                before.text,
                operations[last as int],
                last as usize,
            ) {
                Ok(applied) => Ok(
                    Applied { text: applied.text, hits: before.hits + applied.hits },
                ),
                Err(message) => Err(prefixed(message, last as int, operations.len() as int)),
            },
            Err(message) => Err(message),
        }
    }
}

/// What the first `count` operations replace, all of them in the same text.
pub open spec fn snapshot_edits(text: Seq<char>, operations: Seq<EditOperation>, count: nat) -> Result<
    Seq<Edit>,
    Seq<char>,
>
    decreases count,
{
    if count == 0 {
        Ok(Seq::empty())
    } else {
        let last = (count - 1) as nat;
        match snapshot_edits(text, operations, last) {
            Ok(before) => match operation_edits(text, operations[last as int], last as usize) {
                Ok(edits) => Ok(before + edits),
                Err(message) => Err(prefixed(message, last as int, operations.len() as int)),
            },
            Err(message) => Err(message),
        }
    }
}

/// What all operations replace in the same text, unless two of them overlap.
pub open spec fn snapshot_choice(text: Seq<char>, operations: Seq<EditOperation>) -> Result<
    Seq<Edit>,
    Seq<char>,
> {
    match snapshot_edits(text, operations, operations.len()) {
        Ok(edits) => match overlap_choice(hits_of(text, edits)) {
            Ok(_) => Ok(edits),
            Err(message) => Err(message),
        },
        Err(message) => Err(message),
    }
}

/// All operations applied at once.
pub open spec fn snapshot_applied(text: Seq<char>, operations: Seq<EditOperation>) -> Result<
    Applied,
    Seq<char>,
> {
    match snapshot_edits(text, operations, operations.len()) {
        Ok(edits) => edits_applied(text, edits),
        Err(message) => Err(message),
    }
}

/// All operations applied in the given mode.
pub open spec fn request_applied(
    text: Seq<char>,
    operations: Seq<EditOperation>,
    mode: EditApplyMode,
) -> Result<Applied, Seq<char>> {
    match mode {
        EditApplyMode::Sequential => sequence_applied(text, operations, operations.len()),
        EditApplyMode::Snapshot => snapshot_applied(text, operations),
    }
}

/// Applies resolved edits to the text in which they were found.
fn apply_edits(text: &str, resolved: &[ResolvedEdit]) -> (r: Result<AppliedEdit, FunctionCallError>)
    requires
        all_fit(text@, resolved@),
    ensures
        applies_to(r, edits_applied(text@, models(resolved@))),
{
    proof {
        lemma_hits(text@, resolved@);
    }
    match ensure_non_overlapping(resolved) {
        Ok(_) => Ok(
            AppliedEdit {
                text: apply_resolved_edits(text, resolved),
                hits: edit_hits(resolved),
            },
        ),
        Err(error) => Err(error),
    }
}

/// Applies one operation.
pub fn apply_edit_operation(text: &str, operation: &EditOperation, op_index: usize) -> (r: Result<
    AppliedEdit,
    FunctionCallError,
>)
    ensures
        applies_to(r, operation_applied(text@, *operation, op_index)),
{
    match resolve_operation_edits(text, operation, op_index) {
        Ok(resolved) => apply_edits(text, resolved.as_slice()),
        Err(error) => Err(error),
    }
}

proof fn lemma_sequence_error(text: Seq<char>, operations: Seq<EditOperation>, count: nat, all: nat)
    requires
        count <= all,
        sequence_applied(text, operations, count) is Err,
    ensures
        sequence_applied(text, operations, all) == sequence_applied(text, operations, count),
    decreases all,
{
    if count < all {
        lemma_sequence_error(text, operations, count, (all - 1) as nat);
    }
}

proof fn lemma_snapshot_error(text: Seq<char>, operations: Seq<EditOperation>, count: nat, all: nat)
    requires
        count <= all,
        snapshot_edits(text, operations, count) is Err,
    ensures
        snapshot_edits(text, operations, all) == snapshot_edits(text, operations, count),
    decreases all,
{
    if count < all {
        lemma_snapshot_error(text, operations, count, (all - 1) as nat);
    }
}

/// Applies the operations one after the other.
pub fn apply_sequential_edit_operations(text: &str, operations: &[EditOperation]) -> (r: Result<
    AppliedEdit,
    FunctionCallError,
>)
    ensures
        applies_to(r, sequence_applied(text@, operations@, operations@.len())),
{
    let total: usize = operations.len();
    let mut edited = owned(text);
    let mut hits: Vec<EditHit> = Vec::new();
    let mut index: usize = 0;
    assert(hits@ =~= Seq::<EditHit>::empty());
    while index < total
        invariant
            index <= operations@.len() == total,
            sequence_applied(text@, operations@, index as nat) == Ok::<Applied, Seq<char>>(
                Applied { text: edited@, hits: hits@ },
            ),
        decreases total - index,
    {
        match apply_edit_operation(edited.as_str(), &operations[index], index) {
            Ok(applied) => {
                let mut found = applied.hits;
                hits.append(&mut found);
                edited = applied.text;
            },
            Err(error) => {
                proof {
                    lemma_sequence_error(
                        text@,
                        operations@,
                        (index + 1) as nat,
                        operations@.len(),
                    );
                }
                return Err(prefix_edit_operation_error(error, index, total));
            },
        }
        index += 1;
    }
    Ok(AppliedEdit { text: edited, hits })
}

/// Finds what all operations replace in the same text, and refuses edits that overlap.
pub fn resolve_snapshot_edits(text: &str, operations: &[EditOperation]) -> (r: Result<
    Vec<ResolvedEdit>,
    FunctionCallError,
>)
    ensures
        resolves_to(text@, r, snapshot_choice(text@, operations@)),
        r matches Ok(edits) ==> resolved_hits(edits@) == hits_of(text@, models(edits@)),
{
    let total: usize = operations.len();
    let mut edits: Vec<ResolvedEdit> = Vec::new();
    let mut index: usize = 0;
    assert(models(edits@) =~= Seq::<Edit>::empty());
    while index < total
        invariant
            index <= operations@.len() == total,
            all_fit(text@, edits@),
            snapshot_edits(text@, operations@, index as nat) == Ok::<Seq<Edit>, Seq<char>>(
                models(edits@),
            ),
        decreases total - index,
    {
        match resolve_operation_edits(text, &operations[index], index) {
            Ok(resolved) => {
                let ghost before = edits@;
                let ghost found = resolved@;
                let mut resolved = resolved;
                edits.append(&mut resolved);
                assert(models(edits@) =~= models(before) + models(found));
                assert(all_fit(text@, edits@)) by {
                    assert forall|i: int| 0 <= i < edits@.len() implies (#[trigger] edits@[i]).fits(
                        text@,
                    ) by {
                        if i < before.len() {
                            assert(edits@[i] == before[i]);
                        } else {
                            assert(edits@[i] == found[i - before.len()]);
                        }
                    }
                }
            },
            Err(error) => {
                proof {
                    lemma_snapshot_error(
                        text@,
                        operations@,
                        (index + 1) as nat,
                        operations@.len(),
                    );
                }
                return Err(prefix_edit_operation_error(error, index, total));
            },
        }
        index += 1;
    }
    proof {
        lemma_hits(text@, edits@);
    }
    match ensure_non_overlapping(edits.as_slice()) {
        Ok(_) => Ok(edits),
        Err(error) => Err(error),
    }
}

/// Applies the operations of a request.
pub fn apply_edit_operations(text: &str, request: &EditRequest) -> (r: Result<
    AppliedEdit,
    FunctionCallError,
>)
    ensures
        applies_to(r, request_applied(text@, request.operations@, request.apply_mode)),
{
    match request.apply_mode {
        EditApplyMode::Sequential => apply_sequential_edit_operations(
            text,
            request.operations.as_slice(),
        ),
        EditApplyMode::Snapshot => {
            let resolved = match resolve_snapshot_edits(text, request.operations.as_slice()) {
                Ok(resolved) => resolved,
                Err(error) => return Err(error),
            };
            Ok(
                AppliedEdit {
                    text: apply_resolved_edits(text, resolved.as_slice()),
                    hits: edit_hits(resolved.as_slice()),
                },
            )
        },
    }
}

/// Whether each edit begins at a character or at the very start.
pub open spec fn anchored(text: Seq<char>, edits: Seq<Edit>) -> bool {
    forall|i: int|
        0 <= i < edits.len() ==> (#[trigger] edits[i]).start == 0 || edits[i].start < text.len()
}

/// What an operation replaces lies inside the text.
pub proof fn lemma_operation_edits_inside(text: Seq<char>, operation: EditOperation, op: usize)
    ensures
        operation_edits(text, operation, op) matches Ok(edits) ==> inside(text, edits) && anchored(
            text,
            edits,
        ),
{
    match operation {
        EditOperation::Replace { old_text, occurrence, .. } => {
            lemma_occurrence_span(text, old_text@, occurrence, "old_text"@);
        },
        EditOperation::InsertBefore { anchor, occurrence, .. } => {
            lemma_occurrence_span(text, anchor@, occurrence, "anchor"@);
        },
        EditOperation::InsertAfter { anchor, occurrence, .. } => {
            lemma_occurrence_span(text, anchor@, occurrence, "anchor"@);
        },
        EditOperation::ReplaceRange { start_line, end_line, .. } => {
            lemma_line_span_inside(text, start_line, end_line);
        },
        EditOperation::DeleteRange { start_line, end_line } => {
            lemma_line_span_inside(text, start_line, end_line);
        },
        EditOperation::DeleteText { old_text, occurrence } => {
            lemma_occurrence_span(text, old_text@, occurrence, "old_text"@);
        },
        EditOperation::ReplaceOccurrences { old_text, new_text, occurrences } => {
            lemma_occurrence_edits_inside(text, old_text@, new_text@, occurrences@, op);
        },
    }
}

proof fn lemma_line_span_inside(text: Seq<char>, start_line: usize, end_line: usize)
    ensures
        line_span(text, start_line, end_line) matches Ok((start, end)) ==> 0 <= start < end
            <= text.len(),
{
    if line_span(text, start_line, end_line) is Ok {
        lemma_chars_of_lines(text, start_line - 1, end_line as int);
    }
}

proof fn lemma_occurrence_edits_inside(
    text: Seq<char>,
    old_text: Seq<char>,
    new_text: Seq<char>,
    occurrences: Seq<usize>,
    op: usize,
)
    ensures
        crate::edit::occurrence_edits(text, old_text, new_text, occurrences, op) matches Ok(edits)
            ==> inside(text, edits) && anchored(text, edits),
    decreases occurrences.len(),
{
    if occurrences.len() > 0 {
        lemma_occurrence_edits_inside(text, old_text, new_text, occurrences.drop_last(), op);
        lemma_occurrence_span(text, old_text, Some(occurrences.last()), "old_text"@);
    }
}

/// A single edit clashes with none, and is made in its place.
pub proof fn lemma_single_edit(text: Seq<char>, edit: Edit)
    requires
        inside(text, seq![edit]),
    ensures
        edits_applied(text, seq![edit]) == Ok::<Applied, Seq<char>>(
            Applied { text: replaced(text, edit), hits: hits_of(text, seq![edit]) },
        ),
{
    let edits = seq![edit];
    let hits = hits_of(text, edits);
    let keys = hit_keys(hits);
    assert(edits[0] == edit);
    assert(keys.drop_last() =~= Seq::<Key>::empty());
    reveal_with_fuel(sorted_keys, 2);
    assert(sorted_hits(hits) =~= keys);
    assert(first_clash(sorted_hits(hits), 0) is None);
    assert(in_order(text, edits) =~= edits);
    assert(edits.drop_last() =~= Seq::<Edit>::empty());
    reveal_with_fuel(edited_front, 2);
    assert(text.subrange(0, edit.start) =~= text.take(edit.start));
    assert(edited(text, edits) =~= replaced(text, edit));
}

/// Replacing a text changes its span and nothing else: what stood in front of the found occurrence
/// and behind it is kept.
pub proof fn law_replace_changes_its_span_only(
    text: Seq<char>,
    old_text: String,
    new_text: String,
    occurrence: Option<usize>,
    op: usize,
)
    ensures
        match occurrence_span(text, old_text@, occurrence, "old_text"@) {
            Ok((start, end)) => {
                &&& text.subrange(start, end) == old_text@
                &&& operation_applied(
                    text,
                    EditOperation::Replace { old_text, new_text, occurrence },
                    op,
                ) matches Ok(applied)
                &&& applied.text == text.take(start) + new_text@ + text.skip(end)
            },
            Err(message) => operation_applied(
                text,
                EditOperation::Replace { old_text, new_text, occurrence },
                op,
            ) == Err::<Applied, Seq<char>>(message),
        },
{
    let operation = EditOperation::Replace { old_text, new_text, occurrence };
    lemma_occurrence_span(text, old_text@, occurrence, "old_text"@);
    lemma_operation_edits_inside(text, operation, op);
    match occurrence_span(text, old_text@, occurrence, "old_text"@) {
        Ok((start, end)) => {
            lemma_single_edit(text, Edit { op, start, end, text: new_text@ });
        },
        Err(_) => {},
    }
}

/// With a single operation both modes do the same.
pub proof fn law_modes_agree_on_one_operation(text: Seq<char>, operation: EditOperation)
    ensures
        request_applied(text, seq![operation], EditApplyMode::Sequential) == request_applied(
            text,
            seq![operation],
            EditApplyMode::Snapshot,
        ),
{
    let operations = seq![operation];
    assert(operations[0] == operation);
    reveal_with_fuel(sequence_applied, 2);
    reveal_with_fuel(snapshot_edits, 2);
    match operation_edits(text, operation, 0) {
        Ok(edits) => {
            assert(Seq::<Edit>::empty() + edits =~= edits);
            match edits_applied(text, edits) {
                Ok(applied) => {
                    assert(Seq::<EditHit>::empty() + applied.hits =~= applied.hits);
                },
                Err(_) => {},
            }
        },
        Err(_) => {},
    }
}

} // verus!
