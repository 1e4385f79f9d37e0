//! Edit requests: what their operations mean on a text, and their application.
use core::ops::Range;

use vstd::prelude::*;
use vstd::string::*;

use crate::error::{respond, FunctionCallError};
use crate::line_range::{line_chars, line_span};
use crate::occurrence::{occurrence_span, text_occurrence_chars};
use crate::text::{byte_offset, decimal, decimal_usize, owned, text_eq, to_chars, utf8_len};

verus! {

/// Whether each operation sees the text as the one before it left it, or all see the same text.
#[derive(Clone, Copy, Debug, PartialEq, Eq, Structural)]
pub enum EditApplyMode {
    Sequential,
    Snapshot,
}

impl Default for EditApplyMode {
    fn default() -> (r: EditApplyMode)
        ensures
            r == EditApplyMode::Sequential,
    {
        EditApplyMode::Sequential
    }
}

/// One change to a text. Occurrences and lines are counted from 1.
#[derive(Debug, PartialEq, Eq)]
pub enum EditOperation {
    Replace { old_text: String, new_text: String, occurrence: Option<usize> },
    InsertBefore { anchor: String, text: String, occurrence: Option<usize> },
    InsertAfter { anchor: String, text: String, occurrence: Option<usize> },
    ReplaceRange { start_line: usize, end_line: usize, new_text: String },
    DeleteRange { start_line: usize, end_line: usize },
    DeleteText { old_text: String, occurrence: Option<usize> },
    ReplaceOccurrences { old_text: String, new_text: String, occurrences: Vec<usize> },
}

/// The arguments of an edit call: either a list of operations or a single replacement.
#[derive(Debug, PartialEq, Eq)]
pub struct EditArgs {
    pub path: String,
    pub apply_mode: EditApplyMode,
    pub old_text: Option<String>,
    pub new_text: Option<String>,
    pub occurrence: Option<usize>,
    pub ops: Vec<EditOperation>,
}

/// The operations to apply, and how.
#[derive(Debug, PartialEq, Eq)]
pub struct EditRequest {
    pub apply_mode: EditApplyMode,
    pub operations: Vec<EditOperation>,
}

/// Reads the operations off the arguments.
pub fn edit_request(args: EditArgs) -> (r: Result<EditRequest, FunctionCallError>)
    ensures
        if args.ops@.len() > 0 {
            if args.old_text is Some || args.new_text is Some || args.occurrence is Some {
                r matches Err(error) && error.says(
                    "use either ops or legacy old_text/new_text fields, not both"@,
                )
            } else {
                &&& r matches Ok(request)
                &&& request.apply_mode == args.apply_mode
                &&& request.operations@ == args.ops@
            }
        } else if args.old_text is None {
            r matches Err(error) && error.says("old_text is required when ops is omitted"@)
        } else if args.new_text is None {
            r matches Err(error) && error.says("new_text is required when ops is omitted"@)
        } else {
            &&& r matches Ok(request)
            &&& request.apply_mode == args.apply_mode
            &&& request.operations@ == seq![
                EditOperation::Replace {
                    old_text: args.old_text->0,
                    new_text: args.new_text->0,
                    occurrence: args.occurrence,
                },
            ]
        },
{
    if args.ops.len() > 0 {
        if args.old_text.is_some() || args.new_text.is_some() || args.occurrence.is_some() {
            return Err(respond("use either ops or legacy old_text/new_text fields, not both"));
        }
        return Ok(EditRequest { apply_mode: args.apply_mode, operations: args.ops });
    }
    let old_text = match args.old_text {
        Some(text) => text,
        None => return Err(respond("old_text is required when ops is omitted")),
    };
    let new_text = match args.new_text {
        Some(text) => text,
        None => return Err(respond("new_text is required when ops is omitted")),
    };
    let mut operations: Vec<EditOperation> = Vec::new();
    operations.push(EditOperation::Replace { old_text, new_text, occurrence: args.occurrence });
    Ok(EditRequest { apply_mode: args.apply_mode, operations })
}

/// The text that an operation searches for in order to take it away.
pub open spec fn searched(operation: EditOperation) -> Option<Seq<char>> {
    match operation {
        EditOperation::Replace { old_text, .. } => Some(old_text@),
        EditOperation::DeleteText { old_text, .. } => Some(old_text@),
        EditOperation::ReplaceOccurrences { old_text, .. } => Some(old_text@),
        _ => None,
    }
}

/// Whether operation `i` searches for what an earlier one searched for.
pub open spec fn searches_again(operations: Seq<EditOperation>, i: int) -> bool {
    &&& 0 <= i < operations.len()
    &&& searched(operations[i]) is Some
    &&& exists|j: int|
        0 <= j < i && searched(#[trigger] operations[j]) == searched(operations[i])
}

/// The warning about operation `i`.
pub open spec fn reuse_warning(i: int) -> Seq<char> {
    "warning: op "@ + decimal((i + 1) as nat)
        + " occurrence resolved against modified buffer in sequential mode. Use apply_mode=\"snapshot\" for simultaneous replacement."@
}

fn searched_text(operation: &EditOperation) -> (r: Option<&str>)
    ensures
        match searched(*operation) {
            Some(text) => r matches Some(got) && got@ == text,
            None => r is None,
        },
{
    match operation {
        EditOperation::Replace { old_text, .. } => Some(old_text.as_str()),
        EditOperation::DeleteText { old_text, .. } => Some(old_text.as_str()),
        EditOperation::ReplaceOccurrences { old_text, .. } => Some(old_text.as_str()),
        _ => None,
    }
}

fn searched_before(operations: &[EditOperation], i: usize) -> (r: bool)
    requires
        i < operations@.len(),
    ensures
        r == searches_again(operations@, i as int),
{
    let wanted = match searched_text(&operations[i]) {
        Some(text) => text,
        None => return false,
    };
    let mut j: usize = 0;
    while j < i
        invariant
            j <= i < operations@.len(),
            searched(operations@[i as int]) == Some(wanted@),
            forall|k: int|
                0 <= k < j ==> searched(#[trigger] operations@[k]) != searched(
                    operations@[i as int],
                ),
        decreases i - j,
    {
        if let Some(text) = searched_text(&operations[j]) {
            if text_eq(text, wanted) {
                return true;
            }
        }
        j += 1;
    }
    false
}

/// Warns about the first operation whose search text an earlier one already searched for, where the
/// later one sees the text changed.
pub fn sequential_edit_warning(
    operations: &[EditOperation],
    apply_mode: EditApplyMode,
) -> (r: Option<String>)
    ensures
        match r {
            Some(warning) => {
                &&& apply_mode == EditApplyMode::Sequential
                &&& exists|i: int|
                    #![trigger searches_again(operations@, i)]
                    searches_again(operations@, i) && (forall|k: int|
                        k < i ==> !searches_again(operations@, k)) && warning@ == reuse_warning(i)
            },
            None => apply_mode == EditApplyMode::Snapshot || forall|i: int|
                !searches_again(operations@, i),
        },
{
    if apply_mode != EditApplyMode::Sequential {
        return None;
    }
    let total: usize = operations.len();
    let mut i: usize = 0;
    while i < total
        invariant
            i <= operations@.len() == total,
            apply_mode == EditApplyMode::Sequential,
            forall|k: int| k < i ==> !searches_again(operations@, k),
        decreases operations@.len() - i,
    {
        if searched_before(operations, i) {
            let mut warning = owned("warning: op ");
            warning.append(decimal_usize(i + 1).as_str());
            warning.append(
                " occurrence resolved against modified buffer in sequential mode. Use apply_mode=\"snapshot\" for simultaneous replacement.",
            );
            assert(searches_again(operations@, i as int));
            return Some(warning);
        }
        i += 1;
    }
    None
}

/// The replacement of a span of characters by a text, made by operation `op`.
pub struct Edit {
    pub op: usize,
    pub start: int,
    pub end: int,
    pub text: Seq<char>,
}

/// The bytes that an operation matched.
#[derive(Debug, PartialEq, Eq)]
pub struct EditHit {
    pub op_index: usize,
    pub range: Range<usize>,
}

/// A replacement to be made: its span in bytes and in characters, and the new text.
#[derive(Debug, PartialEq, Eq)]
pub struct ResolvedEdit {
    pub op_index: usize,
    pub range: Range<usize>,
    pub chars: Range<usize>,
    pub replacement: String,
}

impl ResolvedEdit {
    /// Whether the span lies in `text`, and its byte offsets are those of its characters.
    pub open spec fn fits(self, text: Seq<char>) -> bool {
        &&& self.chars.start <= self.chars.end <= text.len()
        &&& self.range.start == utf8_len(text.take(self.chars.start as int))
        &&& self.range.end == utf8_len(text.take(self.chars.end as int))
    }

    pub open spec fn model(self) -> Edit {
        Edit {
            op: self.op_index,
            start: self.chars.start as int,
            end: self.chars.end as int,
            text: self.replacement@,
        }
    }

    pub open spec fn hit(self) -> EditHit {
        EditHit { op_index: self.op_index, range: self.range }
    }
}

/// The replacements as plain values.
pub open spec fn models(edits: Seq<ResolvedEdit>) -> Seq<Edit> {
    Seq::new(edits.len(), |i: int| edits[i].model())
}

/// Whether each replacement fits the text.
pub open spec fn all_fit(text: Seq<char>, edits: Seq<ResolvedEdit>) -> bool {
    forall|i: int| 0 <= i < edits.len() ==> (#[trigger] edits[i]).fits(text)
}

/// The matched bytes of each replacement.
pub open spec fn resolved_hits(edits: Seq<ResolvedEdit>) -> Seq<EditHit> {
    Seq::new(edits.len(), |i: int| edits[i].hit())
}

/// The matched bytes of a replacement.
pub open spec fn hit_of(text: Seq<char>, edit: Edit) -> EditHit {
    EditHit {
        op_index: edit.op,
        range: Range {
            start: utf8_len(text.take(edit.start)) as usize,
            end: utf8_len(text.take(edit.end)) as usize,
        },
    }
}

/// The matched bytes of each replacement.
pub open spec fn hits_of(text: Seq<char>, edits: Seq<Edit>) -> Seq<EditHit> {
    Seq::new(edits.len(), |i: int| hit_of(text, edits[i]))
}

pub proof fn lemma_hits(text: Seq<char>, edits: Seq<ResolvedEdit>)
    requires
        all_fit(text, edits),
    ensures
        resolved_hits(edits) == hits_of(text, models(edits)),
{
    assert forall|i: int| 0 <= i < edits.len() implies resolved_hits(edits)[i] == hits_of(
        text,
        models(edits),
    )[i] by {
        assert(edits[i].fits(text));
    }
    assert(resolved_hits(edits) =~= hits_of(text, models(edits)));
}

/// Replacing one span, or why the span is not clear.
pub open spec fn span_edit(
    op: usize,
    span: Result<(int, int), Seq<char>>,
    text: Seq<char>,
) -> Result<Seq<Edit>, Seq<char>> {
    match span {
        Ok((start, end)) => Ok(seq![Edit { op, start, end, text }]),
        Err(message) => Err(message),
    }
}

/// Replacing each of the named occurrences; the first that is not clear decides.
pub open spec fn occurrence_edits(
    text: Seq<char>,
    old_text: Seq<char>,
    new_text: Seq<char>,
    occurrences: Seq<usize>,
    op: usize,
) -> Result<Seq<Edit>, Seq<char>>
    decreases occurrences.len(),
{
    if occurrences.len() == 0 {
        Ok(Seq::empty())
    } else {
        match occurrence_edits(text, old_text, new_text, occurrences.drop_last(), op) {
            Ok(before) => match occurrence_span(
                text,
                old_text,
                Some(occurrences.last()),
                "old_text"@,
            ) {
                Ok((start, end)) => Ok(before.push(Edit { op, start, end, text: new_text })),
                Err(message) => Err(message),
            },
            Err(message) => Err(message),
        }
    }
}

/// What an operation replaces in a text, and by what.
pub open spec fn operation_edits(text: Seq<char>, operation: EditOperation, op: usize) -> Result<
    Seq<Edit>,
    Seq<char>,
> {
    match operation {
        EditOperation::Replace { old_text, new_text, occurrence } => span_edit(
            op,
            occurrence_span(text, old_text@, occurrence, "old_text"@),
            new_text@,
        ),
        EditOperation::InsertBefore { anchor, text: inserted, occurrence } => span_edit(
            op,
            occurrence_span(text, anchor@, occurrence, "anchor"@),
            inserted@ + anchor@,
        ),
        EditOperation::InsertAfter { anchor, text: inserted, occurrence } => span_edit(
            op,
            occurrence_span(text, anchor@, occurrence, "anchor"@),
            anchor@ + inserted@,
        ),
        EditOperation::ReplaceRange { start_line, end_line, new_text } => span_edit(
            op,
            line_span(text, start_line, end_line),
            new_text@,
        ),
        EditOperation::DeleteRange { start_line, end_line } => span_edit(
            op,
            line_span(text, start_line, end_line),
            Seq::empty(),
        ),
        EditOperation::DeleteText { old_text, occurrence } => span_edit(
            op,
            occurrence_span(text, old_text@, occurrence, "old_text"@),
            Seq::empty(),
        ),
        EditOperation::ReplaceOccurrences { old_text, new_text, occurrences } => {
            if occurrences@.len() == 0 {
                Err("occurrences must not be empty"@)
            } else {
                occurrence_edits(text, old_text@, new_text@, occurrences@, op)
            }
        },
    }
}

/// An occurrence that is not clear decides, whatever follows it.
proof fn lemma_occurrence_error(
    text: Seq<char>,
    old_text: Seq<char>,
    new_text: Seq<char>,
    occurrences: Seq<usize>,
    op: usize,
    count: int,
)
    requires
        0 <= count <= occurrences.len(),
        occurrence_edits(text, old_text, new_text, occurrences.take(count), op) is Err,
    ensures
        occurrence_edits(text, old_text, new_text, occurrences, op) == occurrence_edits(
            text,
            old_text,
            new_text,
            occurrences.take(count),
            op,
        ),
    decreases occurrences.len(),
{
    if count == occurrences.len() {
        assert(occurrences.take(count) =~= occurrences);
    } else {
        assert(occurrences.drop_last().take(count) =~= occurrences.take(count));
        lemma_occurrence_error(text, old_text, new_text, occurrences.drop_last(), op, count);
    }
}

fn resolve_span(text: &str, op_index: usize, span: (usize, usize), replacement: String) -> (r:
    ResolvedEdit)
    requires
        span.0 <= span.1 <= text@.len(),
    ensures
        r.fits(text@),
        r.model() == (Edit {
            op: op_index,
            start: span.0 as int,
            end: span.1 as int,
            text: replacement@,
        }),
{
    let chars = to_chars(text);
    ResolvedEdit {
        op_index,
        range: Range {
            start: byte_offset(text, chars.as_slice(), span.0),
            end: byte_offset(text, chars.as_slice(), span.1),
        },
        chars: Range { start: span.0, end: span.1 },
        replacement,
    }
}

/// Whether `r` holds the replacements that `model` names, or its message.
pub open spec fn resolves_to(
    text: Seq<char>,
    r: Result<Vec<ResolvedEdit>, FunctionCallError>,
    model: Result<Seq<Edit>, Seq<char>>,
) -> bool {
    match model {
        Ok(edits) => r matches Ok(got) && models(got@) == edits && all_fit(text, got@),
        Err(message) => r matches Err(error) && error.says(message),
    }
}

fn resolve_one(
    text: &str,
    op_index: usize,
    span: Result<(usize, usize), FunctionCallError>,
    replacement: String,
    model: Ghost<Result<(int, int), Seq<char>>>,
) -> (r: Result<Vec<ResolvedEdit>, FunctionCallError>)
    requires
        match model@ {
            Ok((start, end)) => {
                &&& span matches Ok(got)
                &&& got.0 == start
                &&& got.1 == end
                &&& start <= end <= text@.len()
            },
            Err(message) => span matches Err(error) && error.says(message),
        },
    ensures
        resolves_to(text@, r, span_edit(op_index, model@, replacement@)),
{
    match span {
        Ok(span) => {
            let ghost new_text = replacement@;
            let edit = resolve_span(text, op_index, span, replacement);
            let mut out: Vec<ResolvedEdit> = Vec::new();
            out.push(edit);
            assert(models(out@) =~= seq![
                Edit { op: op_index, start: span.0 as int, end: span.1 as int, text: new_text },
            ]);
            Ok(out)
        },
        Err(error) => Err(error),
    }
}

fn resolve_occurrences(
    text: &str,
    old_text: &str,
    new_text: &str,
    occurrences: &[usize],
    op_index: usize,
) -> (r: Result<Vec<ResolvedEdit>, FunctionCallError>)
    ensures
        resolves_to(
            text@,
            r,
            occurrence_edits(text@, old_text@, new_text@, occurrences@, op_index),
        ),
{
    let mut out: Vec<ResolvedEdit> = Vec::new();
    let mut i: usize = 0;
    assert(occurrences@.take(0) =~= Seq::<usize>::empty());
    assert(models(out@) =~= Seq::<Edit>::empty());
    while i < occurrences.len()
        invariant
            i <= occurrences@.len(),
            all_fit(text@, out@),
            occurrence_edits(text@, old_text@, new_text@, occurrences@.take(i as int), op_index)
                == Ok::<Seq<Edit>, Seq<char>>(models(out@)),
        decreases occurrences@.len() - i,
    {
        assert(occurrences@.take(i + 1).drop_last() =~= occurrences@.take(i as int));
        assert(occurrences@.take(i + 1).last() == occurrences@[i as int]);
        match text_occurrence_chars(text, old_text, Some(occurrences[i]), "old_text") {
            Ok(span) => {
                let ghost before = out@;
                let edit = resolve_span(text, op_index, span, owned(new_text));
                out.push(edit);
                assert(models(out@) =~= models(before).push(edit.model()));
            },
            Err(error) => {
                proof {
                    lemma_occurrence_error(
                        text@,
                        old_text@,
                        new_text@,
                        occurrences@,
                        op_index,
                        i + 1,
                    );
                }
                return Err(error);
            },
        }
        i += 1;
    }
    assert(occurrences@.take(occurrences@.len() as int) =~= occurrences@);
    Ok(out)
}

/// Finds what an operation replaces in `text`, and by what.
pub fn resolve_operation_edits(text: &str, operation: &EditOperation, op_index: usize) -> (r:
    Result<Vec<ResolvedEdit>, FunctionCallError>)
    ensures
        resolves_to(text@, r, operation_edits(text@, *operation, op_index)),
{
    match operation {
        EditOperation::Replace { old_text, new_text, occurrence } => resolve_one(
            text,
            op_index,
            text_occurrence_chars(text, old_text.as_str(), *occurrence, "old_text"),
            owned(new_text.as_str()),
            Ghost(occurrence_span(text@, old_text@, *occurrence, "old_text"@)),
        ),
        EditOperation::InsertBefore { anchor, text: inserted, occurrence } => {
            let mut replacement = owned(inserted.as_str());
            replacement.append(anchor.as_str());
            resolve_one(
                text,
                op_index,
                text_occurrence_chars(text, anchor.as_str(), *occurrence, "anchor"),
                replacement,
                Ghost(occurrence_span(text@, anchor@, *occurrence, "anchor"@)),
            )
        },
        EditOperation::InsertAfter { anchor, text: inserted, occurrence } => {
            let mut replacement = owned(anchor.as_str());
            replacement.append(inserted.as_str());
            resolve_one(
                text,
                op_index,
                text_occurrence_chars(text, anchor.as_str(), *occurrence, "anchor"),
                replacement,
                Ghost(occurrence_span(text@, anchor@, *occurrence, "anchor"@)),
            )
        },
        EditOperation::ReplaceRange { start_line, end_line, new_text } => resolve_one(
            text,
            op_index,
            line_chars(text, *start_line, *end_line),
            owned(new_text.as_str()),
            Ghost(line_span(text@, *start_line, *end_line)),
        ),
        EditOperation::DeleteRange { start_line, end_line } => {
            let nothing = String::new();
            assert(nothing@ =~= Seq::empty());
            resolve_one(
                text,
                op_index,
                line_chars(text, *start_line, *end_line),
                nothing,
                Ghost(line_span(text@, *start_line, *end_line)),
            )
        },
        EditOperation::DeleteText { old_text, occurrence } => {
            let nothing = String::new();
            assert(nothing@ =~= Seq::empty());
            resolve_one(
                text,
                op_index,
                text_occurrence_chars(text, old_text.as_str(), *occurrence, "old_text"),
                nothing,
                Ghost(occurrence_span(text@, old_text@, *occurrence, "old_text"@)),
            )
        },
        EditOperation::ReplaceOccurrences { old_text, new_text, occurrences } => {
            if occurrences.len() == 0 {
                Err(respond("occurrences must not be empty"))
            } else {
                resolve_occurrences(
                    text,
                    old_text.as_str(),
                    new_text.as_str(),
                    occurrences.as_slice(),
                    op_index,
                )
            }
        },
    }
}

} // verus!
