//! What an edit changed: hashes, diffs, and the lines that differ.
use vstd::prelude::*;
use vstd::string::*;
use vstd::utf8::encode_utf8;

use crate::edit::EditHit;
use crate::error::{agrees, FunctionCallError};
use crate::line_range::{file_line_count, merge_line_ranges, merged_ranges, LineRange};
use crate::outside::{
    diff_lines, line_diff, sha1_digest, sha1_hex, show_unified_diff, unified_diff, LineChange,
};
use crate::text::{decimal, decimal_u128, decimal_usize, owned, pieces, text_eq, text_of};

verus! {

/// The hash of a file's content.
pub open spec fn hash_of(text: Seq<char>) -> Seq<char> {
    "sha1:"@ + sha1_hex(encode_utf8(text))
}

/// The hash of a file's content.
pub fn content_hash(text: &str) -> (r: String)
    ensures
        r@ == hash_of(text@),
{
    let mut out = owned("sha1:");
    out.append(sha1_digest(text.as_bytes()).as_str());
    out
}

/// Whether an expected hash is the actual one, or the message that it is not.
pub open spec fn hash_choice(actual_hash: Seq<char>, expected_hash: Seq<char>) -> Result<
    (),
    Seq<char>,
> {
    if expected_hash == actual_hash {
        Ok(())
    } else {
        Err(
            "expected_hash mismatch: expected "@ + expected_hash + ", actual "@ + actual_hash,
        )
    }
}

/// Compares an expected hash with the actual one.
pub fn check_expected_hash(actual_hash: &str, expected_hash: &str) -> (r: Result<
    (),
    FunctionCallError,
>)
    ensures
        agrees(r, hash_choice(actual_hash@, expected_hash@)),
{
    if !text_eq(expected_hash, actual_hash) {
        let mut message = owned("expected_hash mismatch: expected ");
        message.append(expected_hash);
        message.append(", actual ");
        message.append(actual_hash);
        return Err(FunctionCallError::RespondToModel(message));
    }
    Ok(())
}

/// Refuses a text whose hash is not the expected one.
pub fn ensure_expected_hash(text: &str, expected_hash: &str) -> (r: Result<(), FunctionCallError>)
    ensures
        agrees(r, hash_choice(hash_of(text@), expected_hash@)),
{
    check_expected_hash(content_hash(text).as_str(), expected_hash)
}

/// How many of the changed lines stand in the new text.
pub open spec fn new_lines_in(changes: Seq<LineChange>) -> nat
    decreases changes.len(),
{
    if changes.len() == 0 {
        0
    } else {
        new_lines_in(changes.drop_last()) + if changes.last() == LineChange::Delete {
            0nat
        } else {
            1
        }
    }
}

/// The lines of the new text that a diff names: each inserted line, and for each deleted line the
/// line that took its place, or the last line.
pub open spec fn changed_lines(changes: Seq<LineChange>, new_line_count: nat) -> Seq<LineRange>
    decreases changes.len(),
{
    if changes.len() == 0 {
        Seq::empty()
    } else {
        let front = changes.drop_last();
        let before = changed_lines(front, new_line_count);
        let new_line = new_lines_in(front) + 1;
        match changes.last() {
            LineChange::Equal => before,
            LineChange::Insert => before.push((new_line as usize, new_line as usize)),
            LineChange::Delete => if new_line_count == 0 {
                before
            } else {
                let line = if new_line < new_line_count {
                    new_line
                } else {
                    new_line_count
                };
                before.push((line as usize, line as usize))
            },
        }
    }
}

/// The lines that a diff names, for a new text of `new_line_count` lines.
pub fn changed_ranges(changes: &[LineChange], new_line_count: usize) -> (r: Vec<LineRange>)
    ensures
        r@ == merged_ranges(changed_lines(changes@, new_line_count as nat)),
{
    let total: usize = changes.len();
    let mut seen: usize = 0;
    let mut ranges: Vec<LineRange> = Vec::new();
    let mut i: usize = 0;
    assert(changes@.take(0) =~= Seq::<LineChange>::empty());
    while i < total
        invariant
            i <= changes@.len() == total,
            seen <= i,
            seen == new_lines_in(changes@.take(i as int)),
            ranges@ == changed_lines(changes@.take(i as int), new_line_count as nat),
        decreases total - i,
    {
        assert(changes@.take(i + 1).drop_last() =~= changes@.take(i as int));
        assert(changes@.take(i + 1).last() == changes@[i as int]);
        let new_line: usize = seen + 1;
        match changes[i] {
            LineChange::Equal => {
                seen = new_line;
            },
            LineChange::Insert => {
                ranges.push((new_line, new_line));
                seen = new_line;
            },
            LineChange::Delete => {
                if new_line_count != 0 {
                    let line: usize = if new_line < new_line_count {
                        new_line
                    } else {
                        new_line_count
                    };
                    ranges.push((line, line));
                }
            },
        }
        i += 1;
    }
    assert(changes@.take(changes@.len() as int) =~= changes@);
    merge_line_ranges(&mut ranges);
    ranges
}

/// The lines of the new text that differ from the old one.
pub fn changed_line_ranges(old: &str, new: &str) -> (r: Vec<LineRange>)
    ensures
        r@ == merged_ranges(changed_lines(line_diff(old@, new@), pieces(new@).len())),
{
    let changes = diff_lines(old, new);
    changed_ranges(changes.as_slice(), file_line_count(new))
}

/// The unified diff of a file.
pub fn unified_update_diff(path: &str, old: &str, new: &str) -> (r: String)
    ensures
        r@ == unified_diff(path@, old@, new@),
{
    show_unified_diff(path, old, new)
}

/// A warning in front of an output.
pub open spec fn warned(warning: Option<Seq<char>>, output: Seq<char>) -> Seq<char> {
    match warning {
        Some(text) => if output.len() == 0 {
            text
        } else {
            text + "\n"@ + output
        },
        None => output,
    }
}

/// Puts a warning in front of an output.
pub fn text_output_with_warnings(warning: Option<String>, output: String) -> (r: String)
    ensures
        r@ == warned(text_of(warning), output@),
{
    match warning {
        Some(text) => if output.as_str().is_empty() {
            text
        } else {
            let mut out = text;
            out.append("\n");
            out.append(output.as_str());
            out
        },
        None => output,
    }
}

/// The lines that name the matched bytes.
pub open spec fn hit_lines(hits: Seq<EditHit>) -> Seq<char>
    decreases hits.len(),
{
    if hits.len() == 0 {
        Seq::empty()
    } else {
        let hit = hits.last();
        hit_lines(hits.drop_last()) + "\nop "@ + decimal((hit.op_index + 1) as nat) + ": bytes "@
            + decimal(hit.range.start as nat) + ".."@ + decimal(hit.range.end as nat)
    }
}

/// What an edit says it did.
pub open spec fn edit_report(
    diff: Seq<char>,
    warning: Option<Seq<char>>,
    hits: Seq<EditHit>,
) -> Seq<char> {
    warned(
        warning,
        if hits.len() == 0 {
            diff
        } else {
            diff + ("\nMatched ranges:"@ + hit_lines(hits))
        },
    )
}

/// Puts together what an edit says it did.
pub fn report_edit(diff: String, warning: Option<String>, hits: &[EditHit]) -> (r: String)
    ensures
        r@ == edit_report(diff@, text_of(warning), hits@),
{
    let mut output = diff;
    if hits.len() > 0 {
        let mut listed = String::new();
        let mut i: usize = 0;
        assert(hits@.take(0) =~= Seq::<EditHit>::empty());
        assert(listed@ =~= Seq::<char>::empty());
        while i < hits.len()
            invariant
                i <= hits@.len(),
                listed@ == hit_lines(hits@.take(i as int)),
            decreases hits@.len() - i,
        {
            assert(hits@.take(i + 1).drop_last() =~= hits@.take(i as int));
            assert(hits@.take(i + 1).last() == hits@[i as int]);
            listed.append("\nop ");
            listed.append(decimal_u128(hits[i].op_index as u128 + 1).as_str());
            listed.append(": bytes ");
            listed.append(decimal_usize(hits[i].range.start).as_str());
            listed.append("..");
            listed.append(decimal_usize(hits[i].range.end).as_str());
            i += 1;
        }
        assert(hits@.take(hits@.len() as int) =~= hits@);
        let mut section = owned("\nMatched ranges:");
        section.append(listed.as_str());
        output.append(section.as_str());
    }
    text_output_with_warnings(warning, output)
}

/// What an edit says it did: the diff and the matched bytes, behind a warning if there is one.
pub fn edit_output(
    path: &str,
    old: &str,
    new: &str,
    warning: Option<String>,
    hits: &[EditHit],
) -> (r: String)
    ensures
        r@ == edit_report(unified_diff(path@, old@, new@), text_of(warning), hits@),
{
    report_edit(unified_update_diff(path, old, new), warning, hits)
}

} // verus!
