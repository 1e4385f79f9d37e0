//! What the operations of an edit do to a text, said of its lines and of the places where a text
//! stands in it.
use vstd::prelude::*;

use crate::apply::{
    edited, edited_front, first_clash, hit_keys, in_order, inside, last_end,
    law_check_finds_every_overlap, lemma_first_clash, lemma_laid_out, lemma_sorted_hits,
    overlap_choice, overlaps, replaced, sorted_hits,
};
use crate::edit::{
    hit_of, hits_of, occurrence_edits, operation_edits, Edit, EditApplyMode, EditHit, EditOperation,
};
use crate::line_range::{chars_of_lines, line_span};
use crate::occurrence::{
    lemma_match_starts, lemma_next_match, match_starts, next_match, occurrence_span, occurs_at,
};
use crate::order::key_le;
use crate::plan::observed_ranges;
use crate::request::{
    edits_applied, lemma_operation_edits_inside, lemma_single_edit, operation_applied, prefixed,
    request_applied, sequence_applied, snapshot_edits, Applied,
};
use crate::text::{decimal, flat, lemma_utf8_len_prefix, pieces, utf8_len};

verus! {

/// Whether these are the lines of a text: each but the last ends with its only line feed, and the
/// last may lack it. No line is empty.
pub open spec fn are_lines(lines: Seq<Seq<char>>) -> bool {
    &&& forall|i: int| 0 <= i < lines.len() ==> (#[trigger] lines[i]).len() > 0
    &&& forall|i: int| 0 <= i < lines.len() - 1 ==> (#[trigger] lines[i]).last() == '\n'
    &&& forall|i: int, j: int|
        0 <= i < lines.len() && 0 <= j < lines[i].len() - 1 ==> (#[trigger] lines[i][j]) != '\n'
}

pub proof fn lemma_flat_is_flatten(parts: Seq<Seq<char>>)
    ensures
        flat(parts) == parts.flatten(),
    decreases parts.len(),
{
    parts.lemma_flatten_and_flatten_alt_are_equivalent();
    if parts.len() > 0 {
        lemma_flat_is_flatten(parts.drop_last());
        parts.drop_last().lemma_flatten_and_flatten_alt_are_equivalent();
    }
}

/// Lines put one behind the other make a text that has just these lines.
pub proof fn law_lines_are_read_back(lines: Seq<Seq<char>>)
    requires
        are_lines(lines),
    ensures
        pieces(lines.flatten()) == lines,
    decreases lines.flatten().len(),
{
    let text = lines.flatten();
    lemma_flat_is_flatten(lines);
    if lines.len() == 0 {
        assert(text.len() == 0);
        assert(pieces(text) =~= lines);
    } else {
        let last = lines.last();
        let front = lines.drop_last();
        assert(lines[lines.len() - 1] == last);
        assert(text == flat(front) + last);
        assert(text.last() == last.last());
        if last.len() == 1 {
            assert(text.drop_last() =~= flat(front));
            lemma_flat_is_flatten(front);
            assert(are_lines(front));
            law_lines_are_read_back(front);
            assert(last =~= seq![text.last()]);
            if front.len() > 0 {
                assert(front.last() == lines[front.len() - 1]);
            }
            assert(pieces(text) =~= lines);
        } else {
            let shorter = front.push(last.drop_last());
            assert(shorter.drop_last() =~= front);
            assert(text.drop_last() =~= flat(shorter));
            lemma_flat_is_flatten(shorter);
            assert(are_lines(shorter)) by {
                assert forall|i: int| 0 <= i < shorter.len() - 1 implies (
                #[trigger] shorter[i]).last() == '\n' by {
                    assert(shorter[i] == lines[i]);
                }
                assert forall|i: int| 0 <= i < shorter.len() implies (
                #[trigger] shorter[i]).len() > 0 by {
                    if i < front.len() {
                        assert(shorter[i] == lines[i]);
                    }
                }
                assert forall|i: int, j: int|
                    0 <= i < shorter.len() && 0 <= j < shorter[i].len() - 1 implies (
                #[trigger] shorter[i][j]) != '\n' by {
                    assert(shorter[i][j] == lines[i][j]);
                }
            }
            law_lines_are_read_back(shorter);
            assert(shorter.last().last() == last[last.len() - 2]);
            assert(lines[lines.len() - 1][last.len() - 2] != '\n');
            assert(last.drop_last().push(last.last()) =~= last);
            assert(front.push(last) =~= lines);
            assert(pieces(text) =~= lines);
        }
    }
}

proof fn lemma_chars_of_front(lines: Seq<Seq<char>>, count: int)
    requires
        are_lines(lines),
        0 <= count <= lines.len(),
    ensures
        chars_of_lines(lines.flatten(), count) == lines.take(count).flatten().len(),
        lines.flatten().take(lines.take(count).flatten().len() as int) == lines.take(
            count,
        ).flatten(),
        lines.flatten().skip(lines.take(count).flatten().len() as int) == lines.skip(
            count,
        ).flatten(),
{
    law_lines_are_read_back(lines);
    lemma_flat_is_flatten(lines.take(count));
    lemma_flatten_split(lines, count);
    let front = lines.take(count).flatten();
    let rest = lines.skip(count).flatten();
    assert((front + rest).take(front.len() as int) =~= front);
    assert((front + rest).skip(front.len() as int) =~= rest);
}

pub proof fn lemma_flatten_split(lines: Seq<Seq<char>>, count: int)
    requires
        0 <= count <= lines.len(),
    ensures
        lines.flatten() == lines.take(count).flatten() + lines.skip(count).flatten(),
    decreases count,
{
    if count == 0 {
        assert(lines.skip(0) =~= lines);
        assert(lines.take(0).flatten() =~= Seq::<char>::empty());
        assert(lines.flatten() =~= lines.take(count).flatten() + lines.skip(count).flatten());
    } else {
        let rest = lines.drop_first();
        lemma_flatten_split(rest, count - 1);
        assert(rest.take(count - 1) =~= lines.take(count).drop_first());
        assert(rest.skip(count - 1) =~= lines.skip(count));
        assert(lines.take(count).first() == lines.first());
        assert(lines.flatten() =~= lines.take(count).flatten() + lines.skip(count).flatten());
    }
}

/// Replacing a range of lines puts the new text in the place of just these lines, and deleting a range
/// takes just them away. All lines before and behind them stay as they are. The operation names the
/// bytes of these lines, and relies on these lines.
pub proof fn law_line_range_is_replaced(
    before: Seq<Seq<char>>,
    range: Seq<Seq<char>>,
    after: Seq<Seq<char>>,
    new_text: String,
    op: usize,
)
    requires
        are_lines(before + range + after),
        range.len() > 0,
        before.len() + range.len() <= usize::MAX,
        utf8_len((before + range + after).flatten()) <= usize::MAX,
    ensures
        ({
            let text = (before + range + after).flatten();
            let start_line = (before.len() + 1) as usize;
            let end_line = (before.len() + range.len()) as usize;
            let replacement = EditOperation::ReplaceRange { start_line, end_line, new_text };
            let deletion = EditOperation::DeleteRange { start_line, end_line };
            let front = utf8_len(before.flatten());
            let taken = utf8_len(range.flatten());
            &&& operation_applied(text, replacement, op) matches Ok(applied) && applied.text
                == before.flatten() + new_text@ + after.flatten()
            &&& operation_applied(text, deletion, op) matches Ok(applied) && applied.text
                == before.flatten() + after.flatten()
            &&& operation_applied(text, deletion, op)->Ok_0.hits.len() == 1
            &&& operation_applied(text, deletion, op)->Ok_0.hits[0].op_index == op
            &&& operation_applied(text, deletion, op)->Ok_0.hits[0].range.start == front
            &&& operation_applied(text, deletion, op)->Ok_0.hits[0].range.end == front + taken
            &&& observed_ranges(text, replacement) matches Ok(lines) && lines == seq![
                (start_line, end_line),
            ]
            &&& observed_ranges(text, deletion) matches Ok(lines) && lines == seq![
                (start_line, end_line),
            ]
        }),
{
    let lines = before + range + after;
    let text = lines.flatten();
    let start_line = (before.len() + 1) as usize;
    let end_line = (before.len() + range.len()) as usize;
    let first = before.len() as int;
    let last = (before.len() + range.len()) as int;
    law_lines_are_read_back(lines);
    lemma_chars_of_front(lines, first);
    lemma_chars_of_front(lines, last);
    assert(lines.take(first) =~= before);
    assert(lines.skip(last) =~= after);
    assert(lines.take(last) =~= before + range);
    lemma_flatten_split(before + range, first);
    assert((before + range).take(first) =~= before);
    assert((before + range).skip(first) =~= range);
    let start = before.flatten().len() as int;
    let end = (before + range).flatten().len() as int;
    lemma_flatten_split(lines, last);
    assert(line_span(text, start_line, end_line) == Ok::<(int, int), Seq<char>>((start, end)));
    let put = Edit { op, start, end, text: new_text@ };
    let gone = Edit { op, start, end, text: Seq::empty() };
    lemma_single_edit(text, put);
    lemma_single_edit(text, gone);
    assert(replaced(text, gone) =~= before.flatten() + after.flatten());
    assert(text.take(text.len() as int) =~= text);
    lemma_utf8_len_prefix(text, start, end);
    lemma_utf8_len_prefix(text, end, text.len() as int);
    assert(text.subrange(start, end) =~= range.flatten());
    let hits = hits_of(text, seq![gone]);
    assert(hits[0] == hit_of(text, gone));
}

/// A range of lines that does not lie in the text, or that is turned around, is refused.
pub proof fn law_line_range_outside_is_refused(
    lines: Seq<Seq<char>>,
    start_line: usize,
    end_line: usize,
    new_text: String,
    op: usize,
)
    requires
        are_lines(lines),
        start_line == 0 || end_line < start_line || end_line > lines.len(),
    ensures
        operation_applied(
            lines.flatten(),
            EditOperation::ReplaceRange { start_line, end_line, new_text },
            op,
        ) is Err,
        operation_applied(
            lines.flatten(),
            EditOperation::DeleteRange { start_line, end_line },
            op,
        ) is Err,
{
    law_lines_are_read_back(lines);
}

/// Whether a text stands in another one at this place.
pub open spec fn is_there(text: Seq<char>, needle: Seq<char>, at: int) -> bool {
    0 <= at && at + needle.len() <= text.len() && text.subrange(at, at + needle.len()) == needle
}

/// Whether a place lies inside one of the places that begin at `starts` and are so long.
#[verifier::opaque]
pub open spec fn covered(starts: Seq<int>, len: nat, at: int) -> bool {
    exists|k: int| 0 <= k < starts.len() && #[trigger] starts[k] <= at < starts[k] + len
}

proof fn lemma_covered(starts: Seq<int>, len: nat, at: int) -> (k: int)
    requires
        covered(starts, len, at),
    ensures
        0 <= k < starts.len(),
        starts[k] <= at < starts[k] + len,
{
    reveal(covered);
    choose|k: int| 0 <= k < starts.len() && #[trigger] starts[k] <= at < starts[k] + len
}

/// Whether `starts` are the places where a text is found: it stands at each of them, each begins behind
/// the end of the one before it, and it stands nowhere else but inside one of these places.
pub open spec fn found_at(text: Seq<char>, needle: Seq<char>, starts: Seq<int>) -> bool {
    &&& forall|k: int| 0 <= k < starts.len() ==> is_there(text, needle, #[trigger] starts[k])
    &&& forall|k: int, l: int|
        0 <= k < l < starts.len() ==> #[trigger] starts[k] + needle.len() <= #[trigger] starts[l]
    &&& forall|at: int| #[trigger]
        is_there(text, needle, at) ==> covered(starts, needle.len(), at)
}

proof fn lemma_found_from(text: Seq<char>, needle: Seq<char>, starts: Seq<int>, k: int)
    requires
        needle.len() > 0,
        found_at(text, needle, starts),
        0 <= k <= starts.len(),
    ensures
        match_starts(
            text,
            needle,
            if k == 0 {
                0
            } else {
                starts[k - 1] + needle.len()
            },
        ) == starts.skip(k),
    decreases starts.len() - k,
{
    let from = if k == 0 {
        0
    } else {
        starts[k - 1] + needle.len()
    };
    lemma_next_match(text, needle, from);
    if k == starts.len() {
        if let Some(at) = next_match(text, needle, from) {
            assert(is_there(text, needle, at));
            let l = lemma_covered(starts, needle.len(), at);
            if l < k - 1 {
                assert(starts[l] + needle.len() <= starts[k - 1]);
            }
        }
        assert(match_starts(text, needle, from) =~= starts.skip(k));
    } else {
        let place = starts[k];
        if k > 0 {
            assert(starts[k - 1] + needle.len() <= starts[k]);
        }
        assert(is_there(text, needle, place));
        assert(occurs_at(text, needle, place));
        let at = next_match(text, needle, from)->0;
        assert(is_there(text, needle, at));
        let l = lemma_covered(starts, needle.len(), at);
        if l < k {
            if l < k - 1 {
                assert(starts[l] + needle.len() <= starts[k - 1]);
            }
        } else if l > k {
            assert(starts[k] + needle.len() <= starts[l]);
        }
        assert(at == place);
        lemma_found_from(text, needle, starts, k + 1);
        assert(match_starts(text, needle, from) =~= starts.skip(k));
    }
}

/// Every text has just one list of places where another one is found.
pub proof fn law_places_are_found(text: Seq<char>, needle: Seq<char>, starts: Seq<int>)
    requires
        needle.len() > 0,
    ensures
        found_at(text, needle, starts) <==> starts == match_starts(text, needle, 0),
{
    if found_at(text, needle, starts) {
        lemma_found_from(text, needle, starts, 0);
        assert(starts.skip(0) =~= starts);
    }
    lemma_match_starts(text, needle, 0);
    let all = match_starts(text, needle, 0);
    assert forall|at: int| #[trigger] is_there(text, needle, at) implies covered(
        all,
        needle.len(),
        at,
    ) by {
        lemma_every_match_is_covered(text, needle, 0, at);
        reveal(covered);
    }
    assert forall|k: int| 0 <= k < all.len() implies is_there(
        text,
        needle,
        #[trigger] all[k],
    ) by {
        assert(occurs_at(text, needle, all[k]));
    }
    assert(found_at(text, needle, all));
}

proof fn lemma_every_match_is_covered(text: Seq<char>, needle: Seq<char>, from: int, at: int)
    requires
        needle.len() > 0,
        0 <= from <= at,
        occurs_at(text, needle, at),
    ensures
        exists|k: int|
            0 <= k < match_starts(text, needle, from).len() && #[trigger] match_starts(
                text,
                needle,
                from,
            )[k] <= at < match_starts(text, needle, from)[k] + needle.len(),
    decreases text.len() + 1 - from,
{
    lemma_next_match(text, needle, from);
    let first = next_match(text, needle, from)->0;
    let all = match_starts(text, needle, from);
    assert(all[0] == first);
    if at >= first + needle.len() {
        lemma_every_match_is_covered(text, needle, first + needle.len(), at);
        let rest = match_starts(text, needle, first + needle.len());
        let k = choose|k: int| 0 <= k < rest.len() && #[trigger] rest[k] <= at < rest[k] + needle.len();
        assert(all[k + 1] == rest[k]);
    }
}

/// Which place an occurrence means: the one of its number, or the only one where none is named.
pub open spec fn meant(starts: Seq<int>, occurrence: Option<usize>) -> Option<int> {
    match occurrence {
        Some(nth) => if 1 <= nth <= starts.len() {
            Some(starts[nth - 1])
        } else {
            None
        },
        None => if starts.len() == 1 {
            Some(starts[0])
        } else {
            None
        },
    }
}

pub proof fn lemma_meant(
    text: Seq<char>,
    needle: Seq<char>,
    starts: Seq<int>,
    occurrence: Option<usize>,
    field_name: Seq<char>,
)
    requires
        needle.len() > 0,
        found_at(text, needle, starts),
    ensures
        match meant(starts, occurrence) {
            Some(at) => occurrence_span(text, needle, occurrence, field_name) == Ok::<
                (int, int),
                Seq<char>,
            >((at, at + needle.len())) && is_there(text, needle, at),
            None => occurrence_span(text, needle, occurrence, field_name) is Err,
        },
{
    law_places_are_found(text, needle, starts);
    if let Some(at) = meant(starts, occurrence) {
        let k = match occurrence {
            Some(nth) => nth - 1,
            None => 0,
        };
        assert(is_there(text, needle, starts[k]));
    }
}

/// Replacing, deleting and inserting at an occurrence of a text: what stands before the occurrence and
/// behind it is kept. An insertion keeps the anchor and puts the new text right before it or right
/// behind it. An occurrence that there is not, or that is not clear, is refused.
pub proof fn law_occurrence_is_edited(
    text: Seq<char>,
    needle: String,
    new_text: String,
    occurrence: Option<usize>,
    starts: Seq<int>,
    op: usize,
)
    requires
        needle@.len() > 0,
        found_at(text, needle@, starts),
    ensures
        ({
            let replace = operation_applied(
                text,
                EditOperation::Replace { old_text: needle, new_text, occurrence },
                op,
            );
            let delete = operation_applied(
                text,
                EditOperation::DeleteText { old_text: needle, occurrence },
                op,
            );
            let insert_before = operation_applied(
                text,
                EditOperation::InsertBefore { anchor: needle, text: new_text, occurrence },
                op,
            );
            let insert_after = operation_applied(
                text,
                EditOperation::InsertAfter { anchor: needle, text: new_text, occurrence },
                op,
            );
            match meant(starts, occurrence) {
                Some(at) => {
                    let front = text.take(at);
                    let rest = text.skip(at + needle@.len());
                    &&& replace matches Ok(applied) && applied.text == front + new_text@ + rest
                    &&& delete matches Ok(applied) && applied.text == front + rest
                    &&& insert_before matches Ok(applied) && applied.text == front + new_text@
                        + text.skip(at)
                    &&& insert_after matches Ok(applied) && applied.text == text.take(
                        at + needle@.len(),
                    ) + new_text@ + rest
                },
                None => replace is Err && delete is Err && insert_before is Err && insert_after is Err,
            }
        }),
{
    lemma_meant(text, needle@, starts, occurrence, "old_text"@);
    lemma_meant(text, needle@, starts, occurrence, "anchor"@);
    if let Some(at) = meant(starts, occurrence) {
        let end = at + needle@.len();
        lemma_span_replaced(text, Edit { op, start: at, end, text: new_text@ });
        lemma_span_replaced(text, Edit { op, start: at, end, text: Seq::empty() });
        lemma_span_replaced(text, Edit { op, start: at, end, text: new_text@ + needle@ });
        lemma_span_replaced(text, Edit { op, start: at, end, text: needle@ + new_text@ });
        lemma_anchor_kept(text, needle@, new_text@, at);
    }
}

/// An operation on an occurrence reports the bytes of the occurrence as what it matched, under its own
/// number.
pub proof fn law_occurrence_is_reported(
    text: Seq<char>,
    needle: String,
    new_text: String,
    occurrence: Option<usize>,
    starts: Seq<int>,
    at: int,
    op: usize,
)
    requires
        needle@.len() > 0,
        found_at(text, needle@, starts),
        meant(starts, occurrence) == Some(at),
        utf8_len(text) <= usize::MAX,
    ensures
        ({
            let hit = seq![
                EditHit {
                    op_index: op,
                    range: std::ops::Range {
                        start: utf8_len(text.take(at)) as usize,
                        end: utf8_len(text.take(at + needle@.len())) as usize,
                    },
                },
            ];
            &&& operation_applied(
                text,
                (EditOperation::Replace { old_text: needle, new_text, occurrence }),
                op,
            ) matches Ok(applied) && applied.hits == hit
            &&& operation_applied(
                text,
                (EditOperation::DeleteText { old_text: needle, occurrence }),
                op,
            ) matches Ok(applied) && applied.hits == hit
            &&& operation_applied(
                text,
                (EditOperation::InsertBefore { anchor: needle, text: new_text, occurrence }),
                op,
            ) matches Ok(applied) && applied.hits == hit
            &&& operation_applied(
                text,
                (EditOperation::InsertAfter { anchor: needle, text: new_text, occurrence }),
                op,
            ) matches Ok(applied) && applied.hits == hit
        }),
{
    lemma_meant(text, needle@, starts, occurrence, "old_text"@);
    lemma_meant(text, needle@, starts, occurrence, "anchor"@);
    let end = at + needle@.len();
    lemma_reported(text, Edit { op, start: at, end, text: new_text@ });
    lemma_reported(text, Edit { op, start: at, end, text: Seq::empty() });
    lemma_reported(text, Edit { op, start: at, end, text: new_text@ + needle@ });
    lemma_reported(text, Edit { op, start: at, end, text: needle@ + new_text@ });
}

proof fn lemma_reported(text: Seq<char>, edit: Edit)
    requires
        0 <= edit.start <= edit.end <= text.len(),
    ensures
        edits_applied(text, seq![edit]) matches Ok(applied) && applied.hits == seq![
            EditHit {
                op_index: edit.op,
                range: std::ops::Range {
                    start: utf8_len(text.take(edit.start)) as usize,
                    end: utf8_len(text.take(edit.end)) as usize,
                },
            },
        ],
{
    lemma_single_edit(text, edit);
    let hits = hits_of(text, seq![edit]);
    assert(hits =~= seq![hit_of(text, edit)]);
}

proof fn lemma_span_replaced(text: Seq<char>, edit: Edit)
    requires
        0 <= edit.start <= edit.end <= text.len(),
    ensures
        edits_applied(text, seq![edit]) matches Ok(applied) && applied.text == text.take(edit.start)
            + edit.text + text.skip(edit.end),
        edit.text.len() == 0 ==> text.take(edit.start) + edit.text + text.skip(edit.end)
            == text.take(edit.start) + text.skip(edit.end),
{
    lemma_single_edit(text, edit);
    if edit.text.len() == 0 {
        assert(text.take(edit.start) + edit.text + text.skip(edit.end) =~= text.take(edit.start)
            + text.skip(edit.end));
    }
}

proof fn lemma_anchor_kept(text: Seq<char>, anchor: Seq<char>, new_text: Seq<char>, at: int)
    requires
        is_there(text, anchor, at),
    ensures
        ({
            let end = at + anchor.len();
            &&& text.take(at) + (new_text + anchor) + text.skip(end) == text.take(at) + new_text
                + text.skip(at)
            &&& text.take(at) + (anchor + new_text) + text.skip(end) == text.take(end) + new_text
                + text.skip(end)
        }),
{
    let end = at + anchor.len();
    assert(text.skip(at) =~= anchor + text.skip(end)) by {
        assert(text.skip(at).take(anchor.len() as int) =~= text.subrange(at, end));
    }
    assert(text.take(end) =~= text.take(at) + anchor) by {
        assert(text.take(end).skip(at) =~= text.subrange(at, end));
    }
    assert(text.take(at) + (new_text + anchor) + text.skip(end) =~= text.take(at) + new_text
        + text.skip(at));
    assert(text.take(at) + (anchor + new_text) + text.skip(end) =~= text.take(end) + new_text
        + text.skip(end));
}

/// The empty text is found in front of the whole text only: a replacement of it is put there.
pub proof fn law_empty_text_stands_at_the_start(
    text: Seq<char>,
    nothing: String,
    new_text: String,
    occurrence: Option<usize>,
    op: usize,
)
    requires
        nothing@.len() == 0,
    ensures
        ({
            let replace = operation_applied(
                text,
                EditOperation::Replace { old_text: nothing, new_text, occurrence },
                op,
            );
            if match occurrence {
                Some(nth) => 1 <= nth <= text.len() + 1,
                None => text.len() == 0,
            } {
                replace matches Ok(applied) && applied.text == new_text@ + text
            } else {
                replace is Err
            }
        }),
{
    let put = Edit { op, start: 0, end: 0, text: new_text@ };
    if occurrence_span(text, nothing@, occurrence, "old_text"@) is Ok {
        lemma_single_edit(text, put);
        assert(replaced(text, put) =~= new_text@ + text);
    }
}

/// The text with each of these places replaced, the last first.
pub open spec fn replaced_at(text: Seq<char>, places: Seq<int>, len: nat, new_text: Seq<char>) -> Seq<
    char,
>
    decreases places.len(),
{
    if places.len() == 0 {
        text
    } else {
        replaced_at(
            text.take(places.last()) + new_text + text.skip(places.last() + len),
            places.drop_last(),
            len,
            new_text,
        )
    }
}

/// Whether these numbers name places, counted from 1.
pub open spec fn all_in_range(occurrences: Seq<usize>, starts: Seq<int>) -> bool {
    forall|i: int| 0 <= i < occurrences.len() ==> 1 <= #[trigger] occurrences[i] <= starts.len()
}

/// The places of these numbers.
pub open spec fn places_of(occurrences: Seq<usize>, starts: Seq<int>) -> Seq<int> {
    Seq::new(occurrences.len(), |i: int| starts[occurrences[i] - 1])
}

/// The replacement of these places.
spec fn edits_at(places: Seq<int>, len: nat, new_text: Seq<char>, op: usize) -> Seq<Edit> {
    Seq::new(
        places.len(),
        |i: int| Edit { op, start: places[i], end: places[i] + len, text: new_text },
    )
}

proof fn lemma_occurrence_edits(
    text: Seq<char>,
    needle: Seq<char>,
    new_text: Seq<char>,
    occurrences: Seq<usize>,
    starts: Seq<int>,
    op: usize,
)
    requires
        needle.len() > 0,
        found_at(text, needle, starts),
    ensures
        if all_in_range(occurrences, starts) {
            occurrence_edits(text, needle, new_text, occurrences, op) == Ok::<Seq<Edit>, Seq<char>>(
                edits_at(places_of(occurrences, starts), needle.len(), new_text, op),
            )
        } else {
            occurrence_edits(text, needle, new_text, occurrences, op) is Err
        },
    decreases occurrences.len(),
{
    if occurrences.len() == 0 {
        assert(edits_at(places_of(occurrences, starts), needle.len(), new_text, op) =~= Seq::<
            Edit,
        >::empty());
    } else {
        let front = occurrences.drop_last();
        lemma_occurrence_edits(text, needle, new_text, front, starts, op);
        lemma_meant(text, needle, starts, Some(occurrences.last()), "old_text"@);
        if all_in_range(occurrences, starts) {
            assert(occurrences[occurrences.len() - 1] == occurrences.last());
            assert forall|i: int| 0 <= i < front.len() implies 1 <= #[trigger] front[i]
                <= starts.len() by {
                assert(front[i] == occurrences[i]);
            }
            assert(edits_at(places_of(occurrences, starts), needle.len(), new_text, op)
                =~= edits_at(places_of(front, starts), needle.len(), new_text, op).push(
                Edit {
                    op,
                    start: starts[occurrences.last() - 1],
                    end: starts[occurrences.last() - 1] + needle.len(),
                    text: new_text,
                },
            ));
        } else if all_in_range(front, starts) {
            let i = choose|i: int|
                0 <= i < occurrences.len() && !(1 <= #[trigger] occurrences[i] <= starts.len());
            if i < front.len() {
                assert(front[i] == occurrences[i]);
            }
        }
    }
}

proof fn lemma_edits_at_are_inside(
    text: Seq<char>,
    needle: Seq<char>,
    new_text: Seq<char>,
    occurrences: Seq<usize>,
    starts: Seq<int>,
    op: usize,
)
    requires
        needle.len() > 0,
        found_at(text, needle, starts),
        all_in_range(occurrences, starts),
        utf8_len(text) <= usize::MAX,
        occurrences.len() <= usize::MAX,
    ensures
        ({
            let edits = edits_at(places_of(occurrences, starts), needle.len(), new_text, op);
            &&& inside(text, edits)
            &&& overlap_choice(hits_of(text, edits)) is Ok <==> occurrences.no_duplicates()
        }),
{
    let edits = edits_at(places_of(occurrences, starts), needle.len(), new_text, op);
    let hits = hits_of(text, edits);
    assert forall|i: int| 0 <= i < edits.len() implies 0 <= (#[trigger] edits[i]).start
        <= edits[i].end <= text.len() by {
        assert(1 <= occurrences[i] <= starts.len());
        assert(is_there(text, needle, starts[occurrences[i] - 1]));
    }
    crate::apply::lemma_hits_forward(text, edits);
    law_check_finds_every_overlap(hits);
    assert(text.take(text.len() as int) =~= text);
    assert forall|i: int, j: int|
        0 <= i < hits.len() && 0 <= j < hits.len() && i != j implies (overlaps(
        (#[trigger] hits[i]).range,
        (#[trigger] hits[j]).range,
    ) <==> occurrences[i] == occurrences[j]) by {
        let a = edits[i];
        let b = edits[j];
        assert(1 <= occurrences[i] <= starts.len() && 1 <= occurrences[j] <= starts.len());
        let k = occurrences[i] - 1;
        let l = occurrences[j] - 1;
        assert(a.start == starts[k] && b.start == starts[l]);
        lemma_utf8_len_prefix(text, a.start, a.end);
        lemma_utf8_len_prefix(text, b.start, b.end);
        lemma_utf8_len_prefix(text, a.end, text.len() as int);
        lemma_utf8_len_prefix(text, b.end, text.len() as int);
        if k < l {
            assert(starts[k] + needle.len() <= starts[l]);
            lemma_utf8_len_prefix(text, a.end, b.start);
        } else if l < k {
            assert(starts[l] + needle.len() <= starts[k]);
            lemma_utf8_len_prefix(text, b.end, a.start);
        }
    }
    if occurrences.no_duplicates() {
        assert(overlap_choice(hits) is Ok);
    } else {
        let (i, j) = choose|i: int, j: int|
            0 <= i < occurrences.len() && 0 <= j < occurrences.len() && i != j && occurrences[i]
                == occurrences[j];
        assert(overlaps(hits[i].range, hits[j].range));
    }
}

proof fn lemma_replaced_at(
    text: Seq<char>,
    places: Seq<int>,
    len: nat,
    new_text: Seq<char>,
    op: usize,
)
    ensures
        crate::apply::replaced_backwards(text, edits_at(places, len, new_text, op)) == replaced_at(
            text,
            places,
            len,
            new_text,
        ),
    decreases places.len(),
{
    let edits = edits_at(places, len, new_text, op);
    if places.len() > 0 {
        assert(edits.drop_last() =~= edits_at(places.drop_last(), len, new_text, op));
        lemma_replaced_at(
            text.take(places.last()) + new_text + text.skip(places.last() + len),
            places.drop_last(),
            len,
            new_text,
            op,
        );
    }
}

/// Replacing several occurrences replaces each of them, where it stands in the given text, and nothing
/// else. It is refused where none is named, where one of them does not exist, and where one is named
/// twice.
pub proof fn law_named_occurrences_are_replaced(
    text: Seq<char>,
    old_text: String,
    new_text: String,
    occurrences: Vec<usize>,
    starts: Seq<int>,
    op: usize,
)
    requires
        old_text@.len() > 0,
        found_at(text, old_text@, starts),
        utf8_len(text) <= usize::MAX,
        forall|i: int, j: int|
            0 <= i < j < occurrences@.len() ==> #[trigger] occurrences@[i]
                <= #[trigger] occurrences@[j],
    ensures
        ({
            let applied = operation_applied(
                text,
                EditOperation::ReplaceOccurrences { old_text, new_text, occurrences },
                op,
            );
            if occurrences@.len() > 0 && all_in_range(occurrences@, starts)
                && occurrences@.no_duplicates() {
                applied matches Ok(done) && done.text == replaced_at(
                    text,
                    places_of(occurrences@, starts),
                    old_text@.len(),
                    new_text@,
                )
            } else {
                applied is Err
            }
        }),
{
    let all = occurrences@;
    let len = old_text@.len();
    assert(all.len() == occurrences.len());
    lemma_occurrence_edits(text, old_text@, new_text@, all, starts, op);
    if all.len() > 0 && all_in_range(all, starts) {
        let places = places_of(all, starts);
        let edits = edits_at(places, len, new_text@, op);
        lemma_edits_at_are_inside(text, old_text@, new_text@, all, starts, op);
        if all.no_duplicates() {
            crate::apply::lemma_in_order(text, edits);
            let sorted = in_order(text, edits);
            assert forall|i: int, j: int| 0 <= i < j < edits.len() implies
                crate::apply::stands_before(#[trigger] edits[i], #[trigger] edits[j]) by {
                assert(all[i] <= all[j] && all[i] != all[j]);
                assert(1 <= all[i] <= starts.len() && 1 <= all[j] <= starts.len());
                assert(starts[all[i] - 1] + len <= starts[all[j] - 1]);
            }
            crate::apply::lemma_one_order(sorted, edits, sorted.len() as int);
            assert(sorted.take(sorted.len() as int) =~= sorted);
            assert(edits.take(edits.len() as int) =~= edits);
            lemma_laid_out(text, edits);
            crate::apply::lemma_replaced_backwards(text, edits);
            lemma_replaced_at(text, places, len, new_text@, op);
        }
    }
}

/// In which order occurrences are named does not matter.
pub proof fn law_occurrences_are_named_in_any_order(
    text: Seq<char>,
    old_text: String,
    new_text: String,
    occurrences: Vec<usize>,
    shuffled: Vec<usize>,
    starts: Seq<int>,
    op: usize,
)
    requires
        old_text@.len() > 0,
        found_at(text, old_text@, starts),
        utf8_len(text) <= usize::MAX,
        shuffled@.to_multiset() == occurrences@.to_multiset(),
    ensures
        ({
            let first = operation_applied(
                text,
                EditOperation::ReplaceOccurrences { old_text, new_text, occurrences },
                op,
            );
            let second = operation_applied(
                text,
                EditOperation::ReplaceOccurrences { old_text, new_text, occurrences: shuffled },
                op,
            );
            match first {
                Ok(applied) => second matches Ok(other) && other.text == applied.text,
                Err(_) => second is Err,
            }
        }),
{
    broadcast use vstd::seq_lib::group_to_multiset_ensures;

    let a = occurrences@;
    let b = shuffled@;
    let len = old_text@.len();
    assert(a.len() == occurrences.len() && b.len() == shuffled.len());
    assert(a.to_multiset().len() == a.len() && b.to_multiset().len() == b.len());
    lemma_occurrence_edits(text, old_text@, new_text@, a, starts, op);
    lemma_occurrence_edits(text, old_text@, new_text@, b, starts, op);
    assert forall|x: usize| #[trigger] a.contains(x) <==> b.contains(x) by {
        assert(a.contains(x) <==> a.to_multiset().count(x) > 0);
        assert(b.contains(x) <==> b.to_multiset().count(x) > 0);
    }
    if all_in_range(a, starts) {
        assert forall|i: int| 0 <= i < b.len() implies 1 <= #[trigger] b[i] <= starts.len() by {
            assert(b.contains(b[i]));
            assert(a.contains(b[i]));
        }
    }
    if all_in_range(b, starts) {
        assert forall|i: int| 0 <= i < a.len() implies 1 <= #[trigger] a[i] <= starts.len() by {
            assert(a.contains(a[i]));
            assert(b.contains(a[i]));
        }
    }
    if a.len() > 0 && all_in_range(a, starts) {
        lemma_edits_at_are_inside(text, old_text@, new_text@, a, starts, op);
        lemma_edits_at_are_inside(text, old_text@, new_text@, b, starts, op);
        if a.no_duplicates() {
            a.lemma_multiset_has_no_duplicates();
            b.lemma_multiset_has_no_duplicates_conv();
        }
        if b.no_duplicates() {
            b.lemma_multiset_has_no_duplicates();
            a.lemma_multiset_has_no_duplicates_conv();
        }
        if a.no_duplicates() {
            let x = edits_at(places_of(a, starts), len, new_text@, op);
            let y = edits_at(places_of(b, starts), len, new_text@, op);
            crate::apply::lemma_in_order(text, x);
            crate::apply::lemma_in_order(text, y);
            assert forall|edit: Edit| #[trigger] x.contains(edit) <==> y.contains(edit) by {
                if x.contains(edit) {
                    let i = choose|i: int| 0 <= i < x.len() && x[i] == edit;
                    assert(a.contains(a[i]));
                    assert(b.contains(a[i]));
                    let j = choose|j: int| 0 <= j < b.len() && b[j] == a[i];
                    assert(y[j] == edit);
                }
                if y.contains(edit) {
                    let i = choose|i: int| 0 <= i < y.len() && y[i] == edit;
                    assert(b.contains(b[i]));
                    assert(a.contains(b[i]));
                    let j = choose|j: int| 0 <= j < a.len() && a[j] == b[i];
                    assert(x[j] == edit);
                }
            }
            let p = in_order(text, x);
            let q = in_order(text, y);
            assert forall|edit: Edit| #[trigger] p.contains(edit) <==> q.contains(edit) by {
                assert(x.contains(edit) <==> y.contains(edit));
            }
            crate::apply::lemma_one_order(p, q, p.len() as int);
            assert(p.take(p.len() as int) =~= p);
            assert(q.take(q.len() as int) =~= q);
        }
    }
}

/// Whether two lists of edits replace the same spans by the same texts.
spec fn same_edits(a: Seq<Edit>, b: Seq<Edit>) -> bool {
    &&& a.len() == b.len()
    &&& forall|i: int|
        0 <= i < a.len() ==> (#[trigger] a[i]).start == b[i].start && a[i].end == b[i].end
            && a[i].text == b[i].text
}

proof fn lemma_same_edited_front(text: Seq<char>, a: Seq<Edit>, b: Seq<Edit>)
    requires
        same_edits(a, b),
    ensures
        edited_front(text, a) == edited_front(text, b),
        last_end(a) == last_end(b),
    decreases a.len(),
{
    if a.len() > 0 {
        assert(a[a.len() - 1] == a.last());
        assert(same_edits(a.drop_last(), b.drop_last())) by {
            assert forall|i: int| 0 <= i < a.len() - 1 implies (#[trigger] a.drop_last()[i]).start
                == b.drop_last()[i].start && a.drop_last()[i].end == b.drop_last()[i].end
                && a.drop_last()[i].text == b.drop_last()[i].text by {
                assert(a[i].start == b[i].start);
            }
        }
        lemma_same_edited_front(text, a.drop_last(), b.drop_last());
    }
}

proof fn lemma_same_edits_applied(text: Seq<char>, a: Seq<Edit>, b: Seq<Edit>)
    requires
        same_edits(a, b),
        a.len() <= usize::MAX,
    ensures
        match edits_applied(text, a) {
            Ok(applied) => edits_applied(text, b) matches Ok(other) && other.text == applied.text,
            Err(_) => edits_applied(text, b) is Err,
        },
{
    let x = hits_of(text, a);
    let y = hits_of(text, b);
    assert(hit_keys(x) =~= hit_keys(y)) by {
        assert forall|i: int| 0 <= i < a.len() implies hit_keys(x)[i] == hit_keys(y)[i] by {
            assert(a[i].start == b[i].start && a[i].end == b[i].end);
        }
    }
    assert(sorted_hits(x) == sorted_hits(y));
    crate::apply::lemma_sorted_hits(x);
    let p = in_order(text, a);
    let q = in_order(text, b);
    assert(same_edits(p, q)) by {
        assert forall|k: int| 0 <= k < p.len() implies (#[trigger] p[k]).start == q[k].start
            && p[k].end == q[k].end && p[k].text == q[k].text by {
            let at = sorted_hits(x)[k].2 as int;
            assert(0 <= at < a.len());
            assert(a[at].start == b[at].start);
        }
    }
    lemma_same_edited_front(text, p, q);
}

proof fn lemma_occurrence_edits_same(
    text: Seq<char>,
    old_text: Seq<char>,
    new_text: Seq<char>,
    occurrences: Seq<usize>,
    op: usize,
    other: usize,
)
    ensures
        match occurrence_edits(text, old_text, new_text, occurrences, op) {
            Ok(a) => occurrence_edits(text, old_text, new_text, occurrences, other) matches Ok(b)
                && same_edits(a, b) && a.len() == occurrences.len(),
            Err(_) => occurrence_edits(text, old_text, new_text, occurrences, other) is Err,
        },
    decreases occurrences.len(),
{
    if occurrences.len() > 0 {
        lemma_occurrence_edits_same(text, old_text, new_text, occurrences.drop_last(), op, other);
        if let Ok(a) = occurrence_edits(text, old_text, new_text, occurrences, op) {
            let b = occurrence_edits(text, old_text, new_text, occurrences, other)->Ok_0;
            let x = occurrence_edits(
                text,
                old_text,
                new_text,
                occurrences.drop_last(),
                op,
            )->Ok_0;
            assert forall|i: int| 0 <= i < a.len() implies (#[trigger] a[i]).start == b[i].start
                && a[i].end == b[i].end && a[i].text == b[i].text by {
                if i < x.len() {
                    assert(a[i] == x[i]);
                }
            }
        }
    }
}

/// The number of an operation is a label: it does not change what the operation does.
pub proof fn law_number_is_a_label(text: Seq<char>, operation: EditOperation, op: usize, other: usize)
    ensures
        match operation_applied(text, operation, op) {
            Ok(applied) => operation_applied(text, operation, other) matches Ok(same) && same.text
                == applied.text,
            Err(_) => operation_applied(text, operation, other) is Err,
        },
{
    if let EditOperation::ReplaceOccurrences { old_text, new_text, occurrences } = operation {
        assert(occurrences@.len() == occurrences.len());
        lemma_occurrence_edits_same(text, old_text@, new_text@, occurrences@, op, other);
    }
    if let Ok(a) = operation_edits(text, operation, op) {
        let b = operation_edits(text, operation, other)->Ok_0;
        assert(same_edits(a, b));
        lemma_same_edits_applied(text, a, b);
    }
}

proof fn lemma_front_of_sequence(
    text: Seq<char>,
    first: Seq<EditOperation>,
    second: Seq<EditOperation>,
    count: nat,
)
    requires
        count <= first.len(),
    ensures
        match sequence_applied(text, first, count) {
            Ok(applied) => sequence_applied(text, first + second, count) matches Ok(same)
                && same.text == applied.text,
            Err(_) => sequence_applied(text, first + second, count) is Err,
        },
    decreases count,
{
    if count > 0 {
        lemma_front_of_sequence(text, first, second, (count - 1) as nat);
        assert((first + second)[count - 1] == first[count - 1]);
    }
}

proof fn lemma_rest_of_sequence(
    text: Seq<char>,
    first: Seq<EditOperation>,
    second: Seq<EditOperation>,
    count: nat,
)
    requires
        count <= second.len(),
    ensures
        match sequence_applied(text, first, first.len()) {
            Ok(middle) => match sequence_applied(middle.text, second, count) {
                Ok(applied) => sequence_applied(text, first + second, first.len() + count) matches Ok(
                    same,
                ) && same.text == applied.text,
                Err(_) => sequence_applied(text, first + second, first.len() + count) is Err,
            },
            Err(_) => sequence_applied(text, first + second, first.len() + count) is Err,
        },
    decreases count,
{
    if count == 0 {
        lemma_front_of_sequence(text, first, second, first.len());
    } else {
        let last = (count - 1) as nat;
        lemma_rest_of_sequence(text, first, second, last);
        assert((first + second)[(first.len() + last) as int] == second[last as int]);
        if let Ok(middle) = sequence_applied(text, first, first.len()) {
            if let Ok(before) = sequence_applied(middle.text, second, last) {
                law_number_is_a_label(
                    before.text,
                    second[last as int],
                    last as usize,
                    (first.len() + last) as usize,
                );
            }
        }
    }
}

/// Operations follow each other: those of a longer request see the text as the earlier ones left it.
/// One that does not apply refuses the whole request.
pub proof fn law_operations_follow_each_other(
    text: Seq<char>,
    first: Seq<EditOperation>,
    second: Seq<EditOperation>,
)
    ensures
        ({
            let mode = EditApplyMode::Sequential;
            match request_applied(text, first, mode) {
                Ok(middle) => match request_applied(middle.text, second, mode) {
                    Ok(applied) => request_applied(text, first + second, mode) matches Ok(whole)
                        && whole.text == applied.text,
                    Err(_) => request_applied(text, first + second, mode) is Err,
                },
                Err(_) => request_applied(text, first + second, mode) is Err,
            }
        }),
{
    lemma_rest_of_sequence(text, first, second, second.len());
}

/// One operation alone is that operation, in either mode; no operation changes nothing.
pub proof fn law_single_operation_is_made(
    text: Seq<char>,
    operation: EditOperation,
    mode: EditApplyMode,
)
    ensures
        match operation_applied(text, operation, 0) {
            Ok(applied) => request_applied(text, seq![operation], mode) matches Ok(whole)
                && whole.text == applied.text && whole.hits == applied.hits,
            Err(message) => request_applied(text, seq![operation], mode) == Err::<
                Applied,
                Seq<char>,
            >(message),
        },
        request_applied(text, Seq::empty(), EditApplyMode::Sequential) matches Ok(whole)
            && whole.text == text,
{
    let operations = seq![operation];
    crate::request::law_modes_agree_on_one_operation(text, operation);
    assert(operations[0] == operation);
    reveal_with_fuel(sequence_applied, 2);
    if let Ok(applied) = operation_applied(text, operation, 0) {
        assert(Seq::<EditHit>::empty() + applied.hits =~= applied.hits);
    }
}

/// Whether an operation alone replaces one span by a text: that is what it does to the text, and the
/// bytes of that span are what it matched.
pub open spec fn replaces(
    text: Seq<char>,
    operation: EditOperation,
    start: int,
    end: int,
    new_text: Seq<char>,
) -> bool {
    &&& 0 <= start <= end <= text.len()
    &&& operation_applied(text, operation, 0) matches Ok(applied)
    &&& applied.text == text.take(start) + new_text + text.skip(end)
    &&& applied.hits.len() == 1
    &&& applied.hits[0].range.start == utf8_len(text.take(start))
    &&& applied.hits[0].range.end == utf8_len(text.take(end))
}

proof fn lemma_same_place(text: Seq<char>, i: int, j: int)
    requires
        0 <= i <= text.len(),
        0 <= j <= text.len(),
        utf8_len(text.take(i)) == utf8_len(text.take(j)),
    ensures
        i == j,
{
    if i < j {
        lemma_utf8_len_prefix(text, i, j);
    } else {
        lemma_utf8_len_prefix(text, j, i);
    }
}

proof fn lemma_single_hit(
    text: Seq<char>,
    operation: EditOperation,
    start: int,
    end: int,
    new_text: Seq<char>,
    op: usize,
)
    requires
        utf8_len(text) <= usize::MAX,
        replaces(text, operation, start, end, new_text),
    ensures
        operation_edits(text, operation, op) == Ok::<Seq<Edit>, Seq<char>>(
            seq![Edit { op, start, end, text: new_text }],
        ),
{
    let edits = operation_edits(text, operation, 0)->Ok_0;
    let applied = operation_applied(text, operation, 0)->Ok_0;
    lemma_operation_edits_inside(text, operation, 0);
    assert(applied.hits == hits_of(text, edits));
    let edit = edits[0];
    assert(edits =~= seq![edit]);
    assert(applied.hits[0] == hit_of(text, edit));
    assert(text.take(text.len() as int) =~= text);
    lemma_utf8_len_prefix(text, edit.start, text.len() as int);
    lemma_utf8_len_prefix(text, edit.end, text.len() as int);
    lemma_same_place(text, edit.start, start);
    lemma_same_place(text, edit.end, end);
    lemma_single_edit(text, edit);
    let made = text.take(start) + edit.text + text.skip(end);
    let wanted = text.take(start) + new_text + text.skip(end);
    assert(made == wanted);
    assert(edit.text.len() == new_text.len());
    assert(edit.text =~= made.subrange(start, start + edit.text.len()));
    assert(new_text =~= wanted.subrange(start, start + new_text.len()));
    if let EditOperation::ReplaceOccurrences { old_text, new_text: put, occurrences } = operation {
        lemma_occurrence_edits_same(text, old_text@, put@, occurrences@, 0, op);
        lemma_labels(text, old_text@, put@, occurrences@, 0);
        lemma_labels(text, old_text@, put@, occurrences@, op);
    }
    let others = operation_edits(text, operation, op)->Ok_0;
    assert(others.len() == 1);
    assert(others =~= seq![Edit { op, start, end, text: new_text }]) by {
        assert(others[0].start == edits[0].start);
    }
}

proof fn lemma_labels(
    text: Seq<char>,
    old_text: Seq<char>,
    new_text: Seq<char>,
    occurrences: Seq<usize>,
    op: usize,
)
    ensures
        occurrence_edits(text, old_text, new_text, occurrences, op) matches Ok(edits) ==> forall|
            i: int,
        |
            0 <= i < edits.len() ==> (#[trigger] edits[i]).op == op,
    decreases occurrences.len(),
{
    if occurrences.len() > 0 {
        lemma_labels(text, old_text, new_text, occurrences.drop_last(), op);
    }
}

/// Two operations of a snapshot both see the given text: each replaces the span that it replaces alone,
/// in whichever order they are listed, and the text between the spans is kept. Where their spans
/// overlap both are refused.
pub proof fn law_snapshot_sees_the_given_text(
    text: Seq<char>,
    a: EditOperation,
    b: EditOperation,
    first: (int, int, Seq<char>),
    second: (int, int, Seq<char>),
)
    requires
        utf8_len(text) <= usize::MAX,
        replaces(text, a, first.0, first.1, first.2),
        replaces(text, b, second.0, second.1, second.2),
        first.0 <= second.0,
        first.0 < second.1,
    ensures
        ({
            let one = request_applied(text, seq![a, b], EditApplyMode::Snapshot);
            let two = request_applied(text, seq![b, a], EditApplyMode::Snapshot);
            if first.1 <= second.0 {
                let wanted = text.take(first.0) + first.2 + text.subrange(first.1, second.0)
                    + second.2 + text.skip(second.1);
                &&& one matches Ok(applied) && applied.text == wanted
                &&& two matches Ok(applied) && applied.text == wanted
            } else {
                one is Err && two is Err
            }
        }),
{
    lemma_single_hit(text, a, first.0, first.1, first.2, 0);
    lemma_single_hit(text, b, second.0, second.1, second.2, 1);
    lemma_single_hit(text, a, first.0, first.1, first.2, 1);
    lemma_single_hit(text, b, second.0, second.1, second.2, 0);
    lemma_pair(text, a, b, first, second, true);
    lemma_pair(text, a, b, first, second, false);
}

#[verifier::spinoff_prover]
#[verifier::rlimit(60)]
proof fn lemma_pair(
    text: Seq<char>,
    a: EditOperation,
    b: EditOperation,
    first: (int, int, Seq<char>),
    second: (int, int, Seq<char>),
    straight: bool,
)
    requires
        utf8_len(text) <= usize::MAX,
        0 <= first.0 <= first.1 <= text.len(),
        0 <= second.0 <= second.1 <= text.len(),
        first.0 <= second.0,
        first.0 < second.1,
        ({
            let x = Edit { op: 0, start: first.0, end: first.1, text: first.2 };
            let y = Edit { op: 1, start: second.0, end: second.1, text: second.2 };
            &&& operation_edits(text, a, 0) == Ok::<Seq<Edit>, Seq<char>>(seq![x])
            &&& operation_edits(text, b, 1) == Ok::<Seq<Edit>, Seq<char>>(seq![y])
            &&& operation_edits(text, a, 1) == Ok::<Seq<Edit>, Seq<char>>(
                seq![Edit { op: 1, ..x }],
            )
            &&& operation_edits(text, b, 0) == Ok::<Seq<Edit>, Seq<char>>(
                seq![Edit { op: 0, ..y }],
            )
        }),
    ensures
        ({
            let operations = if straight {
                seq![a, b]
            } else {
                seq![b, a]
            };
            let whole = request_applied(text, operations, EditApplyMode::Snapshot);
            if first.1 <= second.0 {
                whole matches Ok(applied) && applied.text == text.take(first.0) + first.2
                    + text.subrange(first.1, second.0) + second.2 + text.skip(second.1)
            } else {
                whole is Err
            }
        }),
{
    let operations = if straight {
        seq![a, b]
    } else {
        seq![b, a]
    };
    let x = Edit {
        op: if straight {
            0
        } else {
            1
        },
        start: first.0,
        end: first.1,
        text: first.2,
    };
    let y = Edit {
        op: if straight {
            1
        } else {
            0
        },
        start: second.0,
        end: second.1,
        text: second.2,
    };
    let edits = if straight {
        seq![x, y]
    } else {
        seq![y, x]
    };
    lemma_pair_edits(text, operations, edits);
    lemma_two_edits(text, x, y, straight);
}

proof fn lemma_pair_edits(text: Seq<char>, operations: Seq<EditOperation>, edits: Seq<Edit>)
    requires
        operations.len() == 2,
        edits.len() == 2,
        operation_edits(text, operations[0], 0) == Ok::<Seq<Edit>, Seq<char>>(seq![edits[0]]),
        operation_edits(text, operations[1], 1) == Ok::<Seq<Edit>, Seq<char>>(seq![edits[1]]),
    ensures
        request_applied(text, operations, EditApplyMode::Snapshot) == edits_applied(text, edits),
{
    reveal_with_fuel(snapshot_edits, 3);
    assert(Seq::<Edit>::empty() + seq![edits[0]] =~= seq![edits[0]]);
    assert(seq![edits[0]] + seq![edits[1]] =~= edits);
}

proof fn lemma_two_edits(text: Seq<char>, x: Edit, y: Edit, straight: bool)
    requires
        utf8_len(text) <= usize::MAX,
        0 <= x.start <= x.end <= text.len(),
        0 <= y.start <= y.end <= text.len(),
        x.start <= y.start,
        x.start < y.end,
    ensures
        ({
            let edits = if straight {
                seq![x, y]
            } else {
                seq![y, x]
            };
            if x.end <= y.start {
                edits_applied(text, edits) matches Ok(applied) && applied.text == text.take(x.start)
                    + x.text + text.subrange(x.end, y.start) + y.text + text.skip(y.end)
            } else {
                edits_applied(text, edits) is Err
            }
        }),
{
    let edits = if straight {
        seq![x, y]
    } else {
        seq![y, x]
    };
    assert(inside(text, edits));
    let hits = hits_of(text, edits);
    lemma_two_hits(text, x, y);
    crate::apply::lemma_hits_forward(text, edits);
    law_check_finds_every_overlap(hits);
    let i = if straight {
        0int
    } else {
        1int
    };
    assert(hits[i] == hit_of(text, x));
    assert(hits[1 - i] == hit_of(text, y));
    if x.end <= y.start {
        assert(overlap_choice(hits) is Ok);
        crate::apply::lemma_in_order(text, edits);
        let sorted = in_order(text, edits);
        let pair = seq![x, y];
        assert forall|edit: Edit| #[trigger] sorted.contains(edit) <==> pair.contains(edit) by {
            assert(edits[i] == x && edits[1 - i] == y);
            if pair.contains(edit) {
                assert(edits.contains(edits[i]) && edits.contains(edits[1 - i]));
            }
            if edits.contains(edit) {
                assert(pair[0] == x && pair[1] == y);
                assert(pair.contains(pair[0]) && pair.contains(pair[1]));
            }
        }
        crate::apply::lemma_one_order(sorted, pair, sorted.len() as int);
        assert(sorted.take(2) =~= sorted);
        assert(pair.take(2) =~= pair);
        lemma_pair_edited(text, x, y);
    }
}

proof fn lemma_two_hits(text: Seq<char>, x: Edit, y: Edit)
    requires
        utf8_len(text) <= usize::MAX,
        0 <= x.start <= x.end <= text.len(),
        0 <= y.start <= y.end <= text.len(),
        x.start <= y.start,
        x.start < y.end,
    ensures
        overlaps(hit_of(text, x).range, hit_of(text, y).range) <==> y.start < x.end,
        overlaps(hit_of(text, y).range, hit_of(text, x).range) <==> y.start < x.end,
{
    assert(text.take(text.len() as int) =~= text);
    lemma_utf8_len_prefix(text, x.start, x.end);
    lemma_utf8_len_prefix(text, y.start, y.end);
    lemma_utf8_len_prefix(text, x.end, text.len() as int);
    lemma_utf8_len_prefix(text, y.end, text.len() as int);
    lemma_utf8_len_prefix(text, x.start, y.start);
    lemma_utf8_len_prefix(text, x.start, y.end);
    if x.end <= y.start {
        lemma_utf8_len_prefix(text, x.end, y.start);
    } else {
        lemma_utf8_len_prefix(text, y.start, x.end);
    }
}

proof fn lemma_pair_edited(text: Seq<char>, x: Edit, y: Edit)
    requires
        0 <= x.start <= x.end <= y.start <= y.end <= text.len(),
    ensures
        edited(text, seq![x, y]) == text.take(x.start) + x.text + text.subrange(x.end, y.start)
            + y.text + text.skip(y.end),
{
    let pair = seq![x, y];
    reveal_with_fuel(edited_front, 3);
    assert(pair.drop_last() =~= seq![x]);
    assert(seq![x].drop_last() =~= Seq::<Edit>::empty());
    assert(text.subrange(0, x.start) =~= text.take(x.start));
    assert(edited(text, pair) =~= text.take(x.start) + x.text + text.subrange(x.end, y.start)
        + y.text + text.skip(y.end));
}

/// Two ranges overlap where they share a byte, where an empty one lies inside the other, and where both are
/// empty at the same place. They do not where one ends at or before the start of the other.
pub proof fn law_overlap_is_shared_ground(a: EditHit, b: EditHit, byte: int)
    requires
        a.range.start <= a.range.end,
        b.range.start <= b.range.end,
    ensures
        overlaps(a.range, b.range) == overlaps(b.range, a.range),
        a.range.start <= byte < a.range.end && b.range.start <= byte < b.range.end ==> overlaps(
            a.range,
            b.range,
        ),
        a.range.start == a.range.end && b.range.start < a.range.start < b.range.end ==> overlaps(
            a.range,
            b.range,
        ),
        a.range.start == a.range.end == b.range.start == b.range.end ==> overlaps(a.range, b.range),
        a.range.end <= b.range.start && (a.range.start < b.range.start || b.range.start
            < b.range.end) ==> !overlaps(a.range, b.range),
{
}

/// Why an occurrence is refused: it is not counted from 1, there are not so many, there is none, or there are
/// several and none is named.
pub proof fn law_unclear_occurrence_is_explained(
    text: Seq<char>,
    needle: Seq<char>,
    starts: Seq<int>,
    nth: usize,
    field_name: Seq<char>,
)
    requires
        needle.len() > 0,
        found_at(text, needle, starts),
    ensures
        occurrence_span(text, needle, Some(0), field_name) == Err::<(int, int), Seq<char>>(
            "occurrence must be one-based"@,
        ),
        nth > starts.len() ==> occurrence_span(text, needle, Some(nth), field_name) == Err::<
            (int, int),
            Seq<char>,
        >(
            field_name + " occurs "@ + decimal(starts.len()) + " times; occurrence "@ + decimal(
                nth as nat,
            ) + " is out of range"@,
        ),
        starts.len() == 0 ==> occurrence_span(text, needle, None, field_name) == Err::<
            (int, int),
            Seq<char>,
        >(field_name + " was not found"@),
        starts.len() > 1 ==> occurrence_span(text, needle, None, field_name) == Err::<
            (int, int),
            Seq<char>,
        >(field_name + " occurs "@ + decimal(starts.len()) + " times; specify occurrence"@),
{
    law_places_are_found(text, needle, starts);
}

/// A refusal names the operation by its number, counted from 1, where there are several.
pub proof fn law_refusal_names_its_operation(message: Seq<char>, index: nat, count: nat)
    ensures
        count > 1 ==> prefixed(message, index as int, count as int) == "op "@ + decimal(index + 1)
            + ": "@ + message,
        count <= 1 ==> prefixed(message, index as int, count as int) == message,
{
}

/// What is said of edits that overlap names two of them that do, the one that comes later in the text first,
/// with the bytes of both.
pub proof fn law_overlap_is_explained(hits: Seq<EditHit>)
    requires
        hits.len() <= usize::MAX,
        overlap_choice(hits) is Err,
    ensures
        exists|i: int, j: int|
            {
                &&& 0 <= i < hits.len() && 0 <= j < hits.len()
                &&& #[trigger] overlaps(hits[i].range, hits[j].range)
                &&& hits[i].range.start <= hits[j].range.start
                &&& overlap_choice(hits) == Err::<(), Seq<char>>(
                    "op "@ + decimal((hits[j].op_index + 1) as nat) + " overlaps op "@ + decimal(
                        (hits[i].op_index + 1) as nat,
                    ) + "; no changes written.\nop "@ + decimal((hits[i].op_index + 1) as nat)
                        + ": bytes "@ + decimal(hits[i].range.start as nat) + ".."@ + decimal(
                        hits[i].range.end as nat,
                    ) + "\nop "@ + decimal((hits[j].op_index + 1) as nat) + ": bytes "@ + decimal(
                        hits[j].range.start as nat,
                    ) + ".."@ + decimal(hits[j].range.end as nat),
                )
            },
{
    let order = sorted_hits(hits);
    lemma_sorted_hits(hits);
    lemma_first_clash(order, 0);
    let at = first_clash(order, 0)->0;
    let i = order[at].2 as int;
    let j = order[at + 1].2 as int;
    assert(key_le(order[at], order[at + 1]));
    assert(hits[i].range == (std::ops::Range { start: order[at].0, end: order[at].1 }));
    assert(hits[j].range == (std::ops::Range { start: order[at + 1].0, end: order[at + 1].1 }));
    assert(overlaps(hits[i].range, hits[j].range));
}

} // verus!
