//! Which lines of a file an edit relies on, and which lines of the result still are lines of the
//! file.
use vstd::prelude::*;
use vstd::string::*;
use vstd::utf8::encode_utf8;

use crate::apply::{apply_resolved_edits, edited, in_order};
use crate::edit::{models, operation_edits, Edit, EditApplyMode, EditOperation, EditRequest};
use crate::error::FunctionCallError;
use crate::line_range::{
    byte_range_to_line_range, file_line_count, inserted_line_count, lemma_span_lines, line_choice,
    line_count_for_fragment, merge_line_ranges, merged_ranges, span_lines, validate_line_range,
    LineRange,
};
use crate::occurrence::{lemma_occurrence_span, occurrence_span, text_occurrence_chars};
use crate::request::{
    anchored, apply_edit_operation, lemma_operation_edits_inside, operation_applied,
    prefix_edit_operation_error, prefixed, request_applied, resolve_snapshot_edits,
    sequence_applied, snapshot_choice, snapshot_edits,
};
use crate::text::{
    byte_len, byte_offset, contains_char, lemma_utf8_len_prefix, newlines, owned, pieces, to_chars,
};

verus! {

/// Where each line of an edited text comes from: the line of the file that it was, if it was one.
pub type Origins = Vec<Option<usize>>;

/// The lines that a span of characters touches.
pub open spec fn lines_touched(text: Seq<char>, start: int, end: int) -> LineRange {
    (span_lines(text, start, end).0 as usize, span_lines(text, start, end).1 as usize)
}

/// The lines that the meant occurrence touches.
pub open spec fn occurrence_lines(
    text: Seq<char>,
    needle: Seq<char>,
    occurrence: Option<usize>,
    field_name: Seq<char>,
) -> Result<LineRange, Seq<char>> {
    match occurrence_span(text, needle, occurrence, field_name) {
        Ok((start, end)) => Ok(lines_touched(text, start, end)),
        Err(message) => Err(message),
    }
}

/// The lines that each of the named occurrences touches; the first that is not clear decides.
pub open spec fn occurrences_lines(
    text: Seq<char>,
    needle: Seq<char>,
    occurrences: Seq<usize>,
) -> Result<Seq<LineRange>, Seq<char>>
    decreases occurrences.len(),
{
    if occurrences.len() == 0 {
        Ok(Seq::empty())
    } else {
        match occurrences_lines(text, needle, occurrences.drop_last()) {
            Ok(before) => match occurrence_lines(
                text,
                needle,
                Some(occurrences.last()),
                "old_text"@,
            ) {
                Ok(range) => Ok(before.push(range)),
                Err(message) => Err(message),
            },
            Err(message) => Err(message),
        }
    }
}

/// A single range, or the message why there is none.
pub open spec fn one_range(range: Result<LineRange, Seq<char>>) -> Result<
    Seq<LineRange>,
    Seq<char>,
> {
    match range {
        Ok(lines) => Ok(seq![lines]),
        Err(message) => Err(message),
    }
}

/// The lines that an operation relies on.
pub open spec fn observed_ranges(text: Seq<char>, operation: EditOperation) -> Result<
    Seq<LineRange>,
    Seq<char>,
> {
    match operation {
        EditOperation::Replace { old_text, occurrence, .. } => one_range(
            occurrence_lines(text, old_text@, occurrence, "old_text"@),
        ),
        EditOperation::DeleteText { old_text, occurrence } => one_range(
            occurrence_lines(text, old_text@, occurrence, "old_text"@),
        ),
        EditOperation::ReplaceOccurrences { old_text, occurrences, .. } => occurrences_lines(
            text,
            old_text@,
            occurrences@,
        ),
        EditOperation::InsertBefore { anchor, occurrence, .. } => one_range(
            occurrence_lines(text, anchor@, occurrence, "anchor"@),
        ),
        EditOperation::InsertAfter { anchor, occurrence, .. } => one_range(
            occurrence_lines(text, anchor@, occurrence, "anchor"@),
        ),
        EditOperation::ReplaceRange { start_line, end_line, .. } => one_range(
            line_choice(text, start_line, end_line),
        ),
        EditOperation::DeleteRange { start_line, end_line } => one_range(
            line_choice(text, start_line, end_line),
        ),
    }
}

proof fn lemma_newlines_grow(text: Seq<char>, i: int, j: int)
    requires
        0 <= i <= j <= text.len(),
    ensures
        newlines(text.take(i)) <= newlines(text.take(j)),
    decreases j - i,
{
    if i < j {
        lemma_newlines_grow(text, i, j - 1);
        assert(text.take(j).drop_last() =~= text.take(j - 1));
    }
}

/// The lines that a span touches, from its byte offsets.
fn touched_lines(text: &str, start: usize, end: usize) -> (r: LineRange)
    requires
        start <= end <= text@.len(),
        start == 0 || start < text@.len(),
    ensures
        r == lines_touched(text@, start as int, end as int),
        names_lines(r),
{
    let chars = to_chars(text);
    let size: usize = byte_len(text);
    let first = byte_offset(text, chars.as_slice(), start);
    let last = byte_offset(text, chars.as_slice(), end);
    proof {
        lemma_span_lines(text@, start as int, end as int);
        assert(text@.take(text@.len() as int) =~= text@);
        lemma_utf8_len_prefix(text@, start as int, text@.len() as int);
        assert(text@.take(0) =~= Seq::<char>::empty());
        assert(encode_utf8(Seq::<char>::empty()).len() == 0);
        lemma_newlines_grow(
            text@,
            start as int,
            if end > start {
                end - 1
            } else {
                start as int
            },
        );
    }
    byte_range_to_line_range(text, first, last)
}

/// The lines that the meant occurrence of `needle` touches.
pub fn text_occurrence_line_range(
    text: &str,
    needle: &str,
    occurrence: Option<usize>,
    field_name: &str,
) -> (r: Result<LineRange, FunctionCallError>)
    ensures
        crate::error::agrees(r, occurrence_lines(text@, needle@, occurrence, field_name@)),
        r matches Ok(range) ==> names_lines(range),
{
    match text_occurrence_chars(text, needle, occurrence, field_name) {
        Ok((start, end)) => {
            proof {
                lemma_occurrence_span(text@, needle@, occurrence, field_name@);
            }
            Ok(touched_lines(text, start, end))
        },
        Err(error) => Err(error),
    }
}

/// Whether `r` holds the ranges of `model`, or its message.
pub open spec fn ranges_agree(
    r: Result<Vec<LineRange>, FunctionCallError>,
    model: Result<Seq<LineRange>, Seq<char>>,
) -> bool {
    match model {
        Ok(ranges) => r matches Ok(got) && got@ == ranges,
        Err(message) => r matches Err(error) && error.says(message),
    }
}

fn single_range(
    range: Result<LineRange, FunctionCallError>,
    model: Ghost<Result<LineRange, Seq<char>>>,
) -> (r: Result<Vec<LineRange>, FunctionCallError>)
    requires
        crate::error::agrees(range, model@),
        range matches Ok(lines) ==> names_lines(lines),
    ensures
        ranges_agree(r, one_range(model@)),
        r matches Ok(ranges) ==> all_name_lines(ranges@),
{
    match range {
        Ok(lines) => {
            let mut out: Vec<LineRange> = Vec::new();
            out.push(lines);
            assert(out@ =~= seq![lines]);
            Ok(out)
        },
        Err(error) => Err(error),
    }
}

proof fn lemma_occurrences_lines_error(
    text: Seq<char>,
    needle: Seq<char>,
    occurrences: Seq<usize>,
    count: int,
)
    requires
        0 <= count <= occurrences.len(),
        occurrences_lines(text, needle, occurrences.take(count)) is Err,
    ensures
        occurrences_lines(text, needle, occurrences) == occurrences_lines(
            text,
            needle,
            occurrences.take(count),
        ),
    decreases occurrences.len(),
{
    if count == occurrences.len() {
        assert(occurrences.take(count) =~= occurrences);
    } else {
        assert(occurrences.drop_last().take(count) =~= occurrences.take(count));
        lemma_occurrences_lines_error(text, needle, occurrences.drop_last(), count);
    }
}

fn occurrences_line_ranges(text: &str, needle: &str, occurrences: &[usize]) -> (r: Result<
    Vec<LineRange>,
    FunctionCallError,
>)
    ensures
        ranges_agree(r, occurrences_lines(text@, needle@, occurrences@)),
        r matches Ok(ranges) ==> all_name_lines(ranges@),
{
    let mut out: Vec<LineRange> = Vec::new();
    let mut i: usize = 0;
    assert(occurrences@.take(0) =~= Seq::<usize>::empty());
    assert(out@ =~= Seq::<LineRange>::empty());
    while i < occurrences.len()
        invariant
            i <= occurrences@.len(),
            occurrences_lines(text@, needle@, occurrences@.take(i as int)) == Ok::<
                Seq<LineRange>,
                Seq<char>,
            >(out@),
            all_name_lines(out@),
        decreases occurrences@.len() - i,
    {
        assert(occurrences@.take(i + 1).drop_last() =~= occurrences@.take(i as int));
        assert(occurrences@.take(i + 1).last() == occurrences@[i as int]);
        match text_occurrence_line_range(text, needle, Some(occurrences[i]), "old_text") {
            Ok(range) => out.push(range),
            Err(error) => {
                proof {
                    lemma_occurrences_lines_error(text@, needle@, occurrences@, i + 1);
                }
                return Err(error);
            },
        }
        i += 1;
    }
    assert(occurrences@.take(occurrences@.len() as int) =~= occurrences@);
    Ok(out)
}

/// The lines that an operation relies on.
pub fn edit_operation_observed_ranges(text: &str, operation: &EditOperation) -> (r: Result<
    Vec<LineRange>,
    FunctionCallError,
>)
    ensures
        ranges_agree(r, observed_ranges(text@, *operation)),
        r matches Ok(ranges) ==> all_name_lines(ranges@),
{
    match operation {
        EditOperation::Replace { old_text, occurrence, .. } => single_range(
            text_occurrence_line_range(text, old_text.as_str(), *occurrence, "old_text"),
            Ghost(occurrence_lines(text@, old_text@, *occurrence, "old_text"@)),
        ),
        EditOperation::DeleteText { old_text, occurrence } => single_range(
            text_occurrence_line_range(text, old_text.as_str(), *occurrence, "old_text"),
            Ghost(occurrence_lines(text@, old_text@, *occurrence, "old_text"@)),
        ),
        EditOperation::ReplaceOccurrences { old_text, occurrences, .. } => occurrences_line_ranges(
            text,
            old_text.as_str(),
            occurrences.as_slice(),
        ),
        EditOperation::InsertBefore { anchor, occurrence, .. } => single_range(
            text_occurrence_line_range(text, anchor.as_str(), *occurrence, "anchor"),
            Ghost(occurrence_lines(text@, anchor@, *occurrence, "anchor"@)),
        ),
        EditOperation::InsertAfter { anchor, occurrence, .. } => single_range(
            text_occurrence_line_range(text, anchor.as_str(), *occurrence, "anchor"),
            Ghost(occurrence_lines(text@, anchor@, *occurrence, "anchor"@)),
        ),
        EditOperation::ReplaceRange { start_line, end_line, .. } => single_range(
            validate_line_range(text, *start_line, *end_line),
            Ghost(line_choice(text@, *start_line, *end_line)),
        ),
        EditOperation::DeleteRange { start_line, end_line } => single_range(
            validate_line_range(text, *start_line, *end_line),
            Ghost(line_choice(text@, *start_line, *end_line)),
        ),
    }
}

/// Each line is its own origin.
pub open spec fn own_origins(count: nat) -> Seq<Option<usize>> {
    Seq::new(count, |i: int| Some((i + 1) as usize))
}

/// The origins of an unedited text: each line is its own.
pub fn original_line_origins(text: &str) -> (r: Origins)
    ensures
        r@ == own_origins(pieces(text@).len()),
{
    let count = file_line_count(text);
    let mut out: Origins = Vec::new();
    let mut line: usize = 0;
    while line < count
        invariant
            line <= count == pieces(text@).len(),
            out@ == own_origins(count as nat).take(line as int),
        decreases count - line,
    {
        out.push(Some(line + 1));
        assert(own_origins(count as nat).take(line + 1) =~= own_origins(count as nat).take(
            line as int,
        ).push(Some((line + 1) as usize)));
        line += 1;
    }
    assert(own_origins(count as nat).take(count as int) =~= own_origins(count as nat));
    out
}

/// The known origins as one-line ranges.
pub open spec fn known_origins(origins: Seq<Option<usize>>) -> Seq<LineRange>
    decreases origins.len(),
{
    if origins.len() == 0 {
        Seq::empty()
    } else {
        let before = known_origins(origins.drop_last());
        match origins.last() {
            Some(line) => before.push((line, line)),
            None => before,
        }
    }
}

/// Whether a range names lines, or the empty place before a line.
pub open spec fn names_lines(range: LineRange) -> bool {
    1 <= range.0 && range.0 - 1 <= range.1
}

/// Whether all ranges name lines.
pub open spec fn all_name_lines(ranges: Seq<LineRange>) -> bool {
    forall|i: int| 0 <= i < ranges.len() ==> names_lines(#[trigger] ranges[i])
}

/// A place among the origins: `place`, or the end where there are fewer.
pub open spec fn place_in(origins: Seq<Option<usize>>, place: int) -> int {
    if place < origins.len() {
        place
    } else {
        origins.len() as int
    }
}

/// The origin of a line; a line behind the last origin has none.
pub open spec fn origin_of(origins: Seq<Option<usize>>, line: usize) -> Option<usize> {
    if 1 <= line <= origins.len() {
        origins[line - 1]
    } else {
        None
    }
}

/// The lines of the file that lines `start_line` to `end_line` come from.
pub open spec fn origin_ranges(
    origins: Seq<Option<usize>>,
    start_line: usize,
    end_line: usize,
) -> Seq<LineRange> {
    merged_ranges(
        known_origins(
            origins.subrange(
                place_in(origins, start_line - 1),
                place_in(origins, end_line as int),
            ),
        ),
    )
}

/// The lines of the file that the current lines `start_line` to `end_line` come from.
pub fn original_ranges_for_current_lines(
    line_origins: &[Option<usize>],
    start_line: usize,
    end_line: usize,
) -> (r: Vec<LineRange>)
    requires
        names_lines((start_line, end_line)),
    ensures
        r@ == origin_ranges(line_origins@, start_line, end_line),
{
    let from: usize = bounded(start_line - 1, line_origins.len());
    let to: usize = bounded(end_line, line_origins.len());
    let ghost part = line_origins@.subrange(from as int, to as int);
    let mut ranges: Vec<LineRange> = Vec::new();
    let mut i: usize = from;
    assert(part.take(0) =~= Seq::<Option<usize>>::empty());
    while i < to
        invariant
            from <= i <= to <= line_origins@.len(),
            part == line_origins@.subrange(from as int, to as int),
            ranges@ == known_origins(part.take(i - from)),
        decreases to - i,
    {
        proof {
            let k = i - from;
            assert(part.take(k + 1).drop_last() =~= part.take(k));
            assert(part.take(k + 1).last() == line_origins@[i as int]);
        }
        if let Some(line) = line_origins[i] {
            ranges.push((line, line));
        }
        i += 1;
    }
    assert(part.take(part.len() as int) =~= part);
    merge_line_ranges(&mut ranges);
    ranges
}

fn bounded(value: usize, bound: usize) -> (r: usize)
    ensures
        r == if value < bound {
            value
        } else {
            bound
        },
{
    if value < bound {
        value
    } else {
        bound
    }
}

/// The origins with those from `from` up to `to` replaced.
pub open spec fn spliced(
    origins: Seq<Option<usize>>,
    from: int,
    to: int,
    origin: Option<usize>,
    count: nat,
) -> Seq<Option<usize>> {
    origins.take(place_in(origins, from)) + Seq::new(count, |i: int| origin) + origins.skip(
        place_in(origins, to),
    )
}

fn splice_origins(
    origins: &mut Origins,
    from: usize,
    to: usize,
    origin: Option<usize>,
    count: usize,
)
    requires
        from <= to,
    ensures
        final(origins)@ == spliced(old(origins)@, from as int, to as int, origin, count as nat),
{
    let ghost before = origins@;
    let total: usize = origins.len();
    let from: usize = bounded(from, total);
    let to: usize = bounded(to, total);
    let ghost filled = Seq::new(count as nat, |i: int| origin);
    let mut out: Origins = Vec::new();
    let mut i: usize = 0;
    while i < from
        invariant
            origins@ == before,
            i <= from <= before.len(),
            out@ == before.take(i as int),
        decreases from - i,
    {
        out.push(origins[i]);
        assert(before.take(i + 1) =~= before.take(i as int).push(before[i as int]));
        i += 1;
    }
    let mut k: usize = 0;
    assert(out@ =~= before.take(from as int) + filled.take(0));
    while k < count
        invariant
            k <= count,
            filled == Seq::new(count as nat, |i: int| origin),
            out@ == before.take(from as int) + filled.take(k as int),
        decreases count - k,
    {
        out.push(origin);
        assert(filled.take(k + 1) =~= filled.take(k as int).push(origin));
        assert(out@ =~= before.take(from as int) + filled.take(k + 1));
        k += 1;
    }
    assert(filled.take(count as int) =~= filled);
    let mut j: usize = to;
    let ghost front = out@;
    assert(out@ =~= front + before.subrange(to as int, to as int));
    while j < total
        invariant
            origins@ == before,
            total == before.len(),
            to <= j <= total,
            out@ == front + before.subrange(to as int, j as int),
        decreases total - j,
    {
        out.push(origins[j]);
        assert(before.subrange(to as int, j + 1) =~= before.subrange(to as int, j as int).push(
            before[j as int],
        ));
        assert(out@ =~= front + before.subrange(to as int, j + 1));
        j += 1;
    }
    assert(before.subrange(to as int, total as int) =~= before.skip(to as int));
    *origins = out;
}

/// The origins after lines were replaced: the new lines all come from the first of the old ones.
pub open spec fn lines_replaced(
    origins: Seq<Option<usize>>,
    range: LineRange,
    new_text: Seq<char>,
) -> Seq<Option<usize>> {
    spliced(
        origins,
        range.0 - 1,
        range.1 as int,
        origin_of(origins, range.0),
        pieces(new_text).len(),
    )
}

/// The origins after a text was replaced; a change inside one line leaves them as they are.
pub open spec fn text_replaced(
    origins: Seq<Option<usize>>,
    range: LineRange,
    old_text: Seq<char>,
    new_text: Seq<char>,
) -> Seq<Option<usize>> {
    if range.0 == range.1 && !old_text.contains('\n') && !new_text.contains('\n') {
        origins
    } else {
        lines_replaced(origins, range, new_text)
    }
}

/// The origins after a text was replaced in several places, from the last place to the first.
pub open spec fn texts_replaced(
    origins: Seq<Option<usize>>,
    ranges: Seq<LineRange>,
    old_text: Seq<char>,
    new_text: Seq<char>,
) -> Seq<Option<usize>>
    decreases ranges.len(),
{
    if ranges.len() == 0 {
        origins
    } else {
        texts_replaced(
            text_replaced(origins, ranges.last(), old_text, new_text),
            ranges.drop_last(),
            old_text,
            new_text,
        )
    }
}

/// The origins after an operation that relied on `ranges`.
pub open spec fn origins_after(
    origins: Seq<Option<usize>>,
    operation: EditOperation,
    ranges: Seq<LineRange>,
) -> Seq<Option<usize>> {
    if ranges.len() == 0 {
        origins
    } else {
        match operation {
            EditOperation::Replace { old_text, new_text, .. } => text_replaced(
                origins,
                ranges[0],
                old_text@,
                new_text@,
            ),
            EditOperation::DeleteText { old_text, .. } => text_replaced(
                origins,
                ranges[0],
                old_text@,
                ""@,
            ),
            EditOperation::ReplaceOccurrences { old_text, new_text, .. } => texts_replaced(
                origins,
                ranges,
                old_text@,
                new_text@,
            ),
            EditOperation::DeleteRange { .. } => spliced(
                origins,
                ranges[0].0 - 1,
                ranges[0].1 as int,
                None,
                0,
            ),
            EditOperation::ReplaceRange { new_text, .. } => lines_replaced(
                origins,
                ranges[0],
                new_text@,
            ),
            EditOperation::InsertBefore { text, .. } => spliced(
                origins,
                ranges[0].0 - 1,
                ranges[0].0 - 1,
                None,
                newlines(text@),
            ),
            EditOperation::InsertAfter { text, .. } => spliced(
                origins,
                ranges[0].1 as int,
                ranges[0].1 as int,
                None,
                newlines(text@),
            ),
        }
    }
}

/// Whether the replacement of a text in these lines can be followed: it stays inside one line, or the
/// range names lines.
pub open spec fn can_replace(range: LineRange, old_text: Seq<char>, new_text: Seq<char>) -> bool {
    ||| range.0 == range.1 && !old_text.contains('\n') && !new_text.contains('\n')
    ||| names_lines(range)
}

/// Whether an operation that relied on `ranges` can be followed.
pub open spec fn can_follow(operation: EditOperation, ranges: Seq<LineRange>) -> bool {
    ranges.len() > 0 ==> match operation {
        EditOperation::Replace { old_text, new_text, .. } => can_replace(
            ranges[0],
            old_text@,
            new_text@,
        ),
        EditOperation::DeleteText { old_text, .. } => can_replace(ranges[0], old_text@, ""@),
        EditOperation::ReplaceOccurrences { old_text, new_text, .. } => forall|i: int|
            0 <= i < ranges.len() ==> can_replace(#[trigger] ranges[i], old_text@, new_text@),
        EditOperation::DeleteRange { .. } => names_lines(ranges[0]),
        EditOperation::ReplaceRange { .. } => names_lines(ranges[0]),
        EditOperation::InsertBefore { .. } => ranges[0].0 >= 1,
        EditOperation::InsertAfter { .. } => true,
    }
}

/// Gives the lines that replace lines `start_line` to `end_line` the origin of the first of them.
pub fn replace_line_origins(
    line_origins: &mut Origins,
    start_line: usize,
    end_line: usize,
    new_text: &str,
)
    requires
        names_lines((start_line, end_line)),
    ensures
        final(line_origins)@ == lines_replaced(
            old(line_origins)@,
            (start_line, end_line),
            new_text@,
        ),
{
    let origin = if start_line <= line_origins.len() {
        line_origins[start_line - 1]
    } else {
        None
    };
    splice_origins(
        line_origins,
        start_line - 1,
        end_line,
        origin,
        line_count_for_fragment(new_text),
    );
}

/// Follows the replacement of a text; a change inside one line changes no origin.
pub fn update_text_replacement_origins(
    line_origins: &mut Origins,
    start_line: usize,
    end_line: usize,
    old_text: &str,
    new_text: &str,
)
    requires
        can_replace((start_line, end_line), old_text@, new_text@),
    ensures
        final(line_origins)@ == text_replaced(
            old(line_origins)@,
            (start_line, end_line),
            old_text@,
            new_text@,
        ),
{
    if start_line == end_line && !contains_char(old_text, '\n') && !contains_char(new_text, '\n') {
        return ;
    }
    replace_line_origins(line_origins, start_line, end_line, new_text);
}

fn update_texts_origins(
    line_origins: &mut Origins,
    ranges: &[LineRange],
    old_text: &str,
    new_text: &str,
)
    requires
        forall|i: int|
            0 <= i < ranges@.len() ==> can_replace(#[trigger] ranges@[i], old_text@, new_text@),
    ensures
        final(line_origins)@ == texts_replaced(
            old(line_origins)@,
            ranges@,
            old_text@,
            new_text@,
        ),
{
    let ghost before = line_origins@;
    let mut left: usize = ranges.len();
    assert(ranges@.take(left as int) =~= ranges@);
    while left > 0
        invariant
            left <= ranges@.len(),
            forall|i: int|
                0 <= i < ranges@.len() ==> can_replace(#[trigger] ranges@[i], old_text@, new_text@),
            texts_replaced(before, ranges@, old_text@, new_text@) == texts_replaced(
                line_origins@,
                ranges@.take(left as int),
                old_text@,
                new_text@,
            ),
        decreases left,
    {
        assert(ranges@.take(left as int).drop_last() =~= ranges@.take(left - 1));
        assert(ranges@.take(left as int).last() == ranges@[left - 1]);
        let (start_line, end_line) = ranges[left - 1];
        update_text_replacement_origins(line_origins, start_line, end_line, old_text, new_text);
        left -= 1;
    }
}

/// Follows an operation that relied on `observed_ranges`.
pub fn update_line_origins(
    line_origins: &mut Origins,
    operation: &EditOperation,
    observed_ranges: &[LineRange],
)
    requires
        can_follow(*operation, observed_ranges@),
    ensures
        final(line_origins)@ == origins_after(
            old(line_origins)@,
            *operation,
            observed_ranges@,
        ),
{
    if observed_ranges.len() == 0 {
        return ;
    }
    let (start_line, end_line) = observed_ranges[0];
    match operation {
        EditOperation::Replace { old_text, new_text, .. } => {
            update_text_replacement_origins(
                line_origins,
                start_line,
                end_line,
                old_text.as_str(),
                new_text.as_str(),
            );
        },
        EditOperation::DeleteText { old_text, .. } => {
            update_text_replacement_origins(
                line_origins,
                start_line,
                end_line,
                old_text.as_str(),
                "",
            );
        },
        EditOperation::ReplaceOccurrences { old_text, new_text, .. } => {
            update_texts_origins(
                line_origins,
                observed_ranges,
                old_text.as_str(),
                new_text.as_str(),
            );
        },
        EditOperation::DeleteRange { .. } => {
            splice_origins(line_origins, start_line - 1, end_line, None, 0);
        },
        EditOperation::ReplaceRange { new_text, .. } => {
            replace_line_origins(line_origins, start_line, end_line, new_text.as_str());
        },
        EditOperation::InsertBefore { text, .. } => {
            let count = inserted_line_count(text.as_str());
            splice_origins(line_origins, start_line - 1, start_line - 1, None, count);
        },
        EditOperation::InsertAfter { text, .. } => {
            let count = inserted_line_count(text.as_str());
            splice_origins(line_origins, end_line, end_line, None, count);
        },
    }
}

/// The lines of the file that an edit relies on, and the origins of the lines of the result. A line
/// behind the last origin has none.
#[derive(Debug, PartialEq, Eq)]
pub struct EditObservationPlan {
    pub required_ranges: Vec<LineRange>,
    pub final_line_origins: Origins,
}

/// The lines of the file that an edit relies on, and the origins of the lines of the result.
pub struct Plan {
    pub required: Seq<LineRange>,
    pub origins: Seq<Option<usize>>,
}

/// What is known after some operations.
pub enum PlanState {
    /// An operation does not apply.
    Refused(Seq<char>),
    /// The lines relied on so far, the origins, and the text.
    Ready { required: Seq<LineRange>, origins: Seq<Option<usize>>, text: Seq<char> },
}

/// The lines of the file that all the ranges come from.
pub open spec fn ranges_origins(origins: Seq<Option<usize>>, ranges: Seq<LineRange>) -> Seq<
    LineRange,
>
    decreases ranges.len(),
{
    if ranges.len() == 0 {
        Seq::empty()
    } else {
        ranges_origins(origins, ranges.drop_last()) + origin_ranges(
            origins,
            ranges.last().0,
            ranges.last().1,
        )
    }
}

/// What is known after one more operation.
pub open spec fn plan_step(
    required: Seq<LineRange>,
    origins: Seq<Option<usize>>,
    text: Seq<char>,
    operation: EditOperation,
    index: nat,
    operation_count: nat,
) -> PlanState {
    match observed_ranges(text, operation) {
        Ok(ranges) => match operation_applied(text, operation, index as usize) {
            Ok(applied) => PlanState::Ready {
                required: required + ranges_origins(origins, ranges),
                origins: origins_after(origins, operation, ranges),
                text: applied.text,
            },
            Err(message) => PlanState::Refused(
                prefixed(message, index as int, operation_count as int),
            ),
        },
        Err(message) => PlanState::Refused(prefixed(message, index as int, operation_count as int)),
    }
}

/// What is known after the first `count` operations, applied one after the other.
pub open spec fn plan_after(text: Seq<char>, operations: Seq<EditOperation>, count: nat) -> PlanState
    decreases count,
{
    if count == 0 {
        PlanState::Ready { required: Seq::empty(), origins: own_origins(pieces(text).len()), text }
    } else {
        let last = (count - 1) as nat;
        match plan_after(text, operations, last) {
            PlanState::Ready { required, origins, text: current } => plan_step(
                required,
                origins,
                current,
                operations[last as int],
                last,
                operations.len(),
            ),
            other => other,
        }
    }
}

/// The plan for operations that are applied one after the other.
pub open spec fn sequential_plan(text: Seq<char>, operations: Seq<EditOperation>) -> Result<
    Plan,
    Seq<char>,
> {
    match plan_after(text, operations, operations.len()) {
        PlanState::Refused(message) => Err(message),
        PlanState::Ready { required, origins, .. } => Ok(
            Plan { required: merged_ranges(required), origins },
        ),
    }
}

/// The lines that each edit touches.
pub open spec fn edits_lines(text: Seq<char>, edits: Seq<Edit>) -> Seq<LineRange> {
    Seq::new(edits.len(), |i: int| lines_touched(text, edits[i].start, edits[i].end))
}

/// The plan for operations that all see the same text: no line of the result has an origin.
pub open spec fn snapshot_plan(text: Seq<char>, operations: Seq<EditOperation>) -> Result<
    Plan,
    Seq<char>,
> {
    match snapshot_choice(text, operations) {
        Ok(edits) => Ok(
            Plan {
                required: merged_ranges(edits_lines(text, edits)),
                origins: Seq::new(
                    pieces(edited(text, in_order(text, edits))).len(),
                    |i: int| None::<usize>,
                ),
            },
        ),
        Err(message) => Err(message),
    }
}

/// The plan for a request.
pub open spec fn request_plan(
    text: Seq<char>,
    operations: Seq<EditOperation>,
    mode: EditApplyMode,
) -> Result<Plan, Seq<char>> {
    match mode {
        EditApplyMode::Sequential => sequential_plan(text, operations),
        EditApplyMode::Snapshot => snapshot_plan(text, operations),
    }
}

/// Whether `r` is the plan that `model` says, or its message.
pub open spec fn plan_agrees(
    r: Result<EditObservationPlan, FunctionCallError>,
    model: Result<Plan, Seq<char>>,
) -> bool {
    match model {
        Ok(plan) => r matches Ok(got) && got.required_ranges@ == plan.required
            && got.final_line_origins@ == plan.origins,
        Err(message) => r matches Err(error) && error.says(message),
    }
}

fn required_origins(line_origins: &[Option<usize>], ranges: &[LineRange]) -> (r: Vec<LineRange>)
    requires
        all_name_lines(ranges@),
    ensures
        r@ == ranges_origins(line_origins@, ranges@),
{
    let mut out: Vec<LineRange> = Vec::new();
    let mut i: usize = 0;
    assert(ranges@.take(0) =~= Seq::<LineRange>::empty());
    assert(out@ =~= Seq::<LineRange>::empty());
    while i < ranges.len()
        invariant
            i <= ranges@.len(),
            all_name_lines(ranges@),
            out@ == ranges_origins(line_origins@, ranges@.take(i as int)),
        decreases ranges@.len() - i,
    {
        assert(ranges@.take(i + 1).drop_last() =~= ranges@.take(i as int));
        assert(ranges@.take(i + 1).last() == ranges@[i as int]);
        let (start_line, end_line) = ranges[i];
        let mut more = original_ranges_for_current_lines(line_origins, start_line, end_line);
        out.append(&mut more);
        i += 1;
    }
    assert(ranges@.take(ranges@.len() as int) =~= ranges@);
    out
}

proof fn lemma_plan_stays(text: Seq<char>, operations: Seq<EditOperation>, count: nat, all: nat)
    requires
        count <= all,
        !(plan_after(text, operations, count) is Ready),
    ensures
        plan_after(text, operations, all) == plan_after(text, operations, count),
    decreases all,
{
    if count < all {
        lemma_plan_stays(text, operations, count, (all - 1) as nat);
    }
}

/// The plan for operations that are applied one after the other.
pub fn edit_sequential_observation_plan(text: &str, operations: &[EditOperation]) -> (r: Result<
    EditObservationPlan,
    FunctionCallError,
>)
    ensures
        plan_agrees(r, sequential_plan(text@, operations@)),
{
    let total: usize = operations.len();
    let mut required_ranges: Vec<LineRange> = Vec::new();
    let mut current_text = owned(text);
    let mut line_origins = original_line_origins(text);
    let mut index: usize = 0;
    assert(required_ranges@ =~= Seq::<LineRange>::empty());
    while index < total
        invariant
            index <= operations@.len() == total,
            plan_after(text@, operations@, index as nat) == (PlanState::Ready {
                required: required_ranges@,
                origins: line_origins@,
                text: current_text@,
            }),
        decreases total - index,
    {
        let ghost next = (index + 1) as nat;
        proof {
            if !(plan_after(text@, operations@, next) is Ready) {
                lemma_plan_stays(text@, operations@, next, operations@.len());
            }
        }
        let operation = &operations[index];
        let observed = match edit_operation_observed_ranges(current_text.as_str(), operation) {
            Ok(observed) => observed,
            Err(error) => return Err(prefix_edit_operation_error(error, index, total)),
        };
        let mut more = required_origins(line_origins.as_slice(), observed.as_slice());
        let applied = match apply_edit_operation(current_text.as_str(), operation, index) {
            Ok(applied) => applied,
            Err(error) => return Err(prefix_edit_operation_error(error, index, total)),
        };
        required_ranges.append(&mut more);
        proof {
            if observed@.len() > 0 {
                assert(names_lines(observed@[0]));
            }
        }
        update_line_origins(&mut line_origins, operation, observed.as_slice());
        current_text = applied.text;
        index += 1;
    }
    merge_line_ranges(&mut required_ranges);
    Ok(EditObservationPlan { required_ranges, final_line_origins: line_origins })
}

proof fn lemma_snapshot_anchored(text: Seq<char>, operations: Seq<EditOperation>, count: nat)
    ensures
        snapshot_edits(text, operations, count) matches Ok(edits) ==> anchored(text, edits),
    decreases count,
{
    if count > 0 {
        let last = (count - 1) as nat;
        lemma_snapshot_anchored(text, operations, last);
        lemma_operation_edits_inside(text, operations[last as int], last as usize);
        if let Ok(edits) = snapshot_edits(text, operations, count) {
            let before = snapshot_edits(text, operations, last)->Ok_0;
            let more = operation_edits(text, operations[last as int], last as usize)->Ok_0;
            assert forall|i: int| 0 <= i < edits.len() implies (#[trigger] edits[i]).start == 0
                || edits[i].start < text.len() by {
                if i < before.len() {
                    assert(edits[i] == before[i]);
                } else {
                    assert(edits[i] == more[i - before.len()]);
                }
            }
        }
    }
}

/// The plan for operations that all see the same text.
pub fn edit_snapshot_observation_plan(text: &str, operations: &[EditOperation]) -> (r: Result<
    EditObservationPlan,
    FunctionCallError,
>)
    ensures
        plan_agrees(r, snapshot_plan(text@, operations@)),
{
    let resolved = match resolve_snapshot_edits(text, operations) {
        Ok(resolved) => resolved,
        Err(error) => return Err(error),
    };
    let ghost edits = models(resolved@);
    proof {
        lemma_snapshot_anchored(text@, operations@, operations@.len());
    }
    let mut required_ranges: Vec<LineRange> = Vec::new();
    let mut i: usize = 0;
    while i < resolved.len()
        invariant
            i <= resolved@.len(),
            edits == models(resolved@),
            crate::edit::all_fit(text@, resolved@),
            anchored(text@, edits),
            required_ranges@ == edits_lines(text@, edits).take(i as int),
        decreases resolved@.len() - i,
    {
        proof {
            assert(resolved@[i as int].fits(text@));
            assert(edits[i as int].start == 0 || edits[i as int].start < text@.len());
        }
        let range = touched_lines(text, resolved[i].chars.start, resolved[i].chars.end);
        required_ranges.push(range);
        assert(edits_lines(text@, edits).take(i + 1) =~= edits_lines(text@, edits).take(
            i as int,
        ).push(range));
        i += 1;
    }
    assert(edits_lines(text@, edits).take(edits.len() as int) =~= edits_lines(text@, edits));
    merge_line_ranges(&mut required_ranges);
    let edited_text = apply_resolved_edits(text, resolved.as_slice());
    let count = file_line_count(edited_text.as_str());
    let ghost unknown = Seq::new(count as nat, |i: int| None::<usize>);
    let mut final_line_origins: Origins = Vec::new();
    let mut k: usize = 0;
    while k < count
        invariant
            k <= count,
            unknown == Seq::new(count as nat, |i: int| None::<usize>),
            final_line_origins@ == unknown.take(k as int),
        decreases count - k,
    {
        final_line_origins.push(None);
        assert(unknown.take(k + 1) =~= unknown.take(k as int).push(None));
        k += 1;
    }
    assert(unknown.take(count as int) =~= unknown);
    Ok(EditObservationPlan { required_ranges, final_line_origins })
}

/// The plan for a request.
pub fn edit_observation_plan(text: &str, request: &EditRequest) -> (r: Result<
    EditObservationPlan,
    FunctionCallError,
>)
    ensures
        plan_agrees(r, request_plan(text@, request.operations@, request.apply_mode)),
{
    match request.apply_mode {
        EditApplyMode::Sequential => edit_sequential_observation_plan(
            text,
            request.operations.as_slice(),
        ),
        EditApplyMode::Snapshot => edit_snapshot_observation_plan(
            text,
            request.operations.as_slice(),
        ),
    }
}

/// An operation whose lines are not clear does not apply, for the same reason.
proof fn lemma_observed_error(text: Seq<char>, operation: EditOperation, op: usize)
    requires
        observed_ranges(text, operation) is Err,
    ensures
        operation_edits(text, operation, op) == Err::<Seq<Edit>, Seq<char>>(
            observed_ranges(text, operation)->Err_0,
        ),
{
    match operation {
        EditOperation::ReplaceOccurrences { old_text, new_text, occurrences } => {
            lemma_occurrences_error(text, old_text@, new_text@, occurrences@, op);
        },
        _ => {},
    }
}

proof fn lemma_occurrences_error(
    text: Seq<char>,
    old_text: Seq<char>,
    new_text: Seq<char>,
    occurrences: Seq<usize>,
    op: usize,
)
    ensures
        match occurrences_lines(text, old_text, occurrences) {
            Ok(_) => crate::edit::occurrence_edits(
                text,
                old_text,
                new_text,
                occurrences,
                op,
            ) is Ok,
            Err(message) => crate::edit::occurrence_edits(
                text,
                old_text,
                new_text,
                occurrences,
                op,
            ) == Err::<Seq<Edit>, Seq<char>>(message),
        },
    decreases occurrences.len(),
{
    if occurrences.len() > 0 {
        lemma_occurrences_error(text, old_text, new_text, occurrences.drop_last(), op);
    }
}

/// The plan follows the edit: it is refused exactly where the edit is, with the same message, and
/// reaches the same text. No edit that applies is without a plan.
pub proof fn law_plan_follows_edit(text: Seq<char>, operations: Seq<EditOperation>, count: nat)
    ensures
        match sequence_applied(text, operations, count) {
            Ok(applied) => plan_after(text, operations, count) matches PlanState::Ready {
                text: reached,
                ..
            } && reached == applied.text,
            Err(message) => plan_after(text, operations, count) == PlanState::Refused(message),
        },
    decreases count,
{
    if count > 0 {
        let last = (count - 1) as nat;
        law_plan_follows_edit(text, operations, last);
        if let PlanState::Ready { text: current, .. } = plan_after(text, operations, last) {
            if observed_ranges(current, operations[last as int]) is Err {
                lemma_observed_error(current, operations[last as int], last as usize);
            }
        }
    }
}

/// A request has a plan exactly where it applies; else both are refused with the same message.
pub proof fn law_every_applicable_request_has_a_plan(
    text: Seq<char>,
    operations: Seq<EditOperation>,
    mode: EditApplyMode,
)
    ensures
        match request_applied(text, operations, mode) {
            Ok(_) => request_plan(text, operations, mode) is Ok,
            Err(message) => request_plan(text, operations, mode) == Err::<Plan, Seq<char>>(message),
        },
{
    law_plan_follows_edit(text, operations, operations.len());
}

} // verus!
