//! Applying resolved edits to a text.
use core::ops::Range;

use vstd::prelude::*;
use vstd::string::*;

use crate::edit::{all_fit, hit_of, hits_of, models, resolved_hits, Edit, EditHit, ResolvedEdit};
use crate::error::{agrees, FunctionCallError};
use crate::order::{ascending, key_le, lemma_sorted_keys, sort_keys, sorted_keys, Key};
use crate::text::{
    byte_len, decimal, decimal_u128, decimal_usize, lemma_encode_concat, lemma_utf8_len_prefix,
    owned, push_chars, to_chars, utf8_len,
};

verus! {

/// Whether two byte ranges share a byte, or one lies strictly inside the other, or both are empty at
/// the same place.
pub open spec fn overlaps(a: Range<usize>, b: Range<usize>) -> bool {
    (a.start < b.end && b.start < a.end) || (a.start == a.end && b.start == b.end && a.start
        == b.start)
}

/// Whether two byte ranges overlap.
pub fn ranges_overlap(a: &Range<usize>, b: &Range<usize>) -> (r: bool)
    ensures
        r == overlaps(*a, *b),
{
    (a.start < b.end && b.start < a.end) || (a.start == a.end && b.start == b.end && a.start
        == b.start)
}

/// The sort keys of the hits: start, end, and number.
pub open spec fn hit_keys(hits: Seq<EditHit>) -> Seq<Key> {
    Seq::new(hits.len(), |i: int| (hits[i].range.start, hits[i].range.end, i as usize))
}

/// The keys of the hits in the order of their places in the text.
pub open spec fn sorted_hits(hits: Seq<EditHit>) -> Seq<Key> {
    sorted_keys(hit_keys(hits))
}

/// Whether the hit at place `at` in the order and the one after it overlap.
pub open spec fn clash_at(order: Seq<Key>, at: int) -> bool {
    &&& 0 <= at < order.len() - 1
    &&& overlaps(
        Range { start: order[at].0, end: order[at].1 },
        Range { start: order[at + 1].0, end: order[at + 1].1 },
    )
}

/// The first clash from place `from` on.
pub open spec fn first_clash(order: Seq<Key>, from: int) -> Option<int>
    decreases order.len() - from,
{
    if from < 0 || from >= order.len() - 1 {
        None
    } else if clash_at(order, from) {
        Some(from)
    } else {
        first_clash(order, from + 1)
    }
}

/// What is said of two hits that overlap.
pub open spec fn clash_message(previous: EditHit, current: EditHit) -> Seq<char> {
    "op "@ + decimal((current.op_index + 1) as nat) + " overlaps op "@ + decimal(
        (previous.op_index + 1) as nat,
    ) + "; no changes written.\nop "@ + decimal((previous.op_index + 1) as nat) + ": bytes "@
        + decimal(previous.range.start as nat) + ".."@ + decimal(previous.range.end as nat)
        + "\nop "@ + decimal((current.op_index + 1) as nat) + ": bytes "@ + decimal(
        current.range.start as nat,
    ) + ".."@ + decimal(current.range.end as nat)
}

/// Whether the hits leave each other alone, or the message about the first two that do not.
pub open spec fn overlap_choice(hits: Seq<EditHit>) -> Result<(), Seq<char>> {
    let order = sorted_hits(hits);
    match first_clash(order, 0) {
        Some(at) => Err(
            clash_message(hits[order[at].2 as int], hits[order[at + 1].2 as int]),
        ),
        None => Ok(()),
    }
}

pub proof fn lemma_first_clash(order: Seq<Key>, from: int)
    requires
        0 <= from,
    ensures
        match first_clash(order, from) {
            Some(at) => from <= at && clash_at(order, at),
            None => forall|i: int| from <= i ==> !clash_at(order, i),
        },
    decreases order.len() - from,
{
    if from < order.len() - 1 && !clash_at(order, from) {
        lemma_first_clash(order, from + 1);
    }
}

/// Each place in the order names its hit.
pub proof fn lemma_sorted_hits(hits: Seq<EditHit>)
    requires
        hits.len() <= usize::MAX,
    ensures
        sorted_hits(hits).len() == hits.len(),
        ascending(sorted_hits(hits)),
        forall|k: int|
            #![trigger sorted_hits(hits)[k]]
            0 <= k < hits.len() ==> {
                let key = sorted_hits(hits)[k];
                &&& key.2 < hits.len()
                &&& hits[key.2 as int].range.start == key.0
                &&& hits[key.2 as int].range.end == key.1
            },
{
    let keys = hit_keys(hits);
    let order = sorted_hits(hits);
    lemma_sorted_keys(keys);
    assert forall|k: int| 0 <= k < hits.len() implies ({
        let key = #[trigger] order[k];
        &&& key.2 < hits.len()
        &&& hits[key.2 as int].range.start == key.0
        &&& hits[key.2 as int].range.end == key.1
    }) by {
        assert(order.contains(order[k]));
        assert(keys.contains(order[k]));
        let i = choose|i: int| 0 <= i < keys.len() && keys[i] == order[k];
        assert(keys[i].2 == i);
    }
}

/// Whether no range is turned around.
pub open spec fn hits_forward(hits: Seq<EditHit>) -> bool {
    forall|i: int| 0 <= i < hits.len() ==> (#[trigger] hits[i]).range.start <= hits[i].range.end
}

/// Without a clash between neighbours each hit ends before the next begins.
proof fn lemma_disjoint(hits: Seq<EditHit>)
    requires
        hits.len() <= usize::MAX,
        hits_forward(hits),
        first_clash(sorted_hits(hits), 0) is None,
    ensures
        forall|i: int, j: int|
            0 <= i < j < hits.len() ==> (#[trigger] sorted_hits(hits)[i]).1 <= (
            #[trigger] sorted_hits(hits)[j]).0,
        forall|i: int, j: int|
            0 <= i < j < hits.len() ==> (#[trigger] sorted_hits(hits)[i]).0 != (
            #[trigger] sorted_hits(hits)[j]).1,
{
    let order = sorted_hits(hits);
    lemma_sorted_hits(hits);
    lemma_first_clash(order, 0);
    assert forall|i: int, j: int| 0 <= i < j < order.len() implies (#[trigger] order[i]).1 <= (
    #[trigger] order[j]).0 && order[i].0 != order[j].1 by {
        lemma_disjoint_pair(order, i, j);
    }
}

proof fn lemma_disjoint_pair(order: Seq<Key>, i: int, j: int)
    requires
        ascending(order),
        forall|k: int| 0 <= k < order.len() ==> (#[trigger] order[k]).0 <= order[k].1,
        forall|k: int| 0 <= k ==> !clash_at(order, k),
        0 <= i < j < order.len(),
    ensures
        order[i].1 <= order[j].0,
        order[i].0 != order[j].1,
    decreases j - i,
{
    assert(!clash_at(order, j - 1));
    assert(key_le(order[j - 1], order[j]));
    assert(order[j].0 <= order[j].1);
    if i < j - 1 {
        lemma_disjoint_pair(order, i, j - 1);
        assert(order[j - 1].0 <= order[j - 1].1);
        assert(order[i].0 <= order[i].1);
    }
}

/// The check on neighbours in the order finds every overlap: it passes exactly where no two hits
/// overlap.
pub proof fn law_check_finds_every_overlap(hits: Seq<EditHit>)
    requires
        hits.len() <= usize::MAX,
        hits_forward(hits),
    ensures
        overlap_choice(hits) is Ok <==> forall|i: int, j: int|
            0 <= i < hits.len() && 0 <= j < hits.len() && i != j ==> !overlaps(
                (#[trigger] hits[i]).range,
                (#[trigger] hits[j]).range,
            ),
{
    let order = sorted_hits(hits);
    lemma_sorted_hits(hits);
    lemma_sorted_keys(hit_keys(hits));
    lemma_first_clash(order, 0);
    match first_clash(order, 0) {
        Some(at) => {
            lemma_distinct_places(hits, at, at + 1);
            let i = order[at].2 as int;
            let j = order[at + 1].2 as int;
            assert(overlaps(hits[i].range, hits[j].range));
        },
        None => {
            lemma_disjoint(hits);
            assert forall|i: int, j: int|
                0 <= i < hits.len() && 0 <= j < hits.len() && i != j implies !overlaps(
                (#[trigger] hits[i]).range,
                (#[trigger] hits[j]).range,
            ) by {
                let keys = hit_keys(hits);
                assert(keys.contains(keys[i]) && keys.contains(keys[j]));
                assert(order.contains(keys[i]) && order.contains(keys[j]));
                let k = choose|k: int| 0 <= k < order.len() && order[k] == keys[i];
                let l = choose|l: int| 0 <= l < order.len() && order[l] == keys[j];
                assert(keys[i].2 == i && keys[j].2 == j);
                assert(k != l);
                assert(hits[i].range.start <= hits[i].range.end);
                assert(hits[j].range.start <= hits[j].range.end);
                if k < l {
                    assert(order[k].1 <= order[l].0);
                } else {
                    assert(order[l].1 <= order[k].0);
                }
            }
        },
    }
}

/// Different places in the order name different hits.
proof fn lemma_distinct_places(hits: Seq<EditHit>, a: int, b: int)
    requires
        hits.len() <= usize::MAX,
        0 <= a < b < hits.len(),
    ensures
        sorted_hits(hits)[a].2 != sorted_hits(hits)[b].2,
{
    broadcast use vstd::seq_lib::group_to_multiset_ensures;

    let keys = hit_keys(hits);
    let order = sorted_hits(hits);
    lemma_sorted_keys(keys);
    lemma_sorted_hits(hits);
    assert(keys.no_duplicates()) by {
        assert forall|i: int, j: int| 0 <= i < keys.len() && 0 <= j < keys.len() && i != j implies
            keys[i] != keys[j] by {
            assert(keys[i].2 == i && keys[j].2 == j);
        }
    }
    keys.lemma_multiset_has_no_duplicates();
    assert forall|x: Key| order.to_multiset().contains(x) implies order.to_multiset().count(x)
        == 1 by {
        assert(keys.to_multiset().contains(x));
    }
    order.lemma_multiset_has_no_duplicates_conv();
    if order[a].2 == order[b].2 {
        assert(order[a] == order[b]);
    }
}

fn next_number(index: usize) -> (r: String)
    ensures
        r@ == decimal((index + 1) as nat),
{
    decimal_u128(index as u128 + 1)
}

fn overlap_error(previous: &ResolvedEdit, current: &ResolvedEdit) -> (r: FunctionCallError)
    ensures
        r.says(clash_message(previous.hit(), current.hit())),
{
    let mut message = owned("op ");
    message.append(next_number(current.op_index).as_str());
    message.append(" overlaps op ");
    message.append(next_number(previous.op_index).as_str());
    message.append("; no changes written.\nop ");
    message.append(next_number(previous.op_index).as_str());
    message.append(": bytes ");
    message.append(decimal_usize(previous.range.start).as_str());
    message.append("..");
    message.append(decimal_usize(previous.range.end).as_str());
    message.append("\nop ");
    message.append(next_number(current.op_index).as_str());
    message.append(": bytes ");
    message.append(decimal_usize(current.range.start).as_str());
    message.append("..");
    message.append(decimal_usize(current.range.end).as_str());
    FunctionCallError::RespondToModel(message)
}

/// The places of the edits in the text, in ascending order.
fn sort_edits(edits: &[ResolvedEdit]) -> (r: Vec<Key>)
    ensures
        r@ == sorted_hits(resolved_hits(edits@)),
        edits@.len() <= usize::MAX,
{
    let total: usize = edits.len();
    let mut keys: Vec<Key> = Vec::new();
    let mut i: usize = 0;
    while i < total
        invariant
            i <= edits@.len() == total,
            keys@.len() == i,
            forall|j: int|
                0 <= j < i ==> #[trigger] keys@[j] == hit_keys(resolved_hits(edits@))[j],
        decreases edits@.len() - i,
    {
        keys.push((edits[i].range.start, edits[i].range.end, i));
        i += 1;
    }
    assert(keys@ =~= hit_keys(resolved_hits(edits@)));
    sort_keys(keys.as_slice())
}

/// Refuses edits that overlap.
pub fn ensure_non_overlapping(edits: &[ResolvedEdit]) -> (r: Result<(), FunctionCallError>)
    ensures
        agrees(r, overlap_choice(resolved_hits(edits@))),
{
    let order = sort_edits(edits);
    let ghost hits = resolved_hits(edits@);
    proof {
        lemma_sorted_hits(hits);
    }
    let total: usize = order.len();
    let mut at: usize = 0;
    while total > 0 && at < total - 1
        invariant
            hits == resolved_hits(edits@),
            order@ == sorted_hits(hits),
            total == order@.len() == edits@.len(),
            at <= total,
            hits.len() <= usize::MAX,
            first_clash(order@, 0) == first_clash(order@, at as int),
            forall|k: int|
                #![trigger sorted_hits(hits)[k]]
                0 <= k < hits.len() ==> sorted_hits(hits)[k].2 < hits.len(),
        decreases total - at,
    {
        proof {
            lemma_sorted_hits(hits);
            assert(sorted_hits(hits)[at as int].2 < hits.len());
            assert(sorted_hits(hits)[at + 1].2 < hits.len());
        }
        let previous = &edits[order[at].2];
        let current = &edits[order[at + 1].2];
        assert(hits[order@[at as int].2 as int] == previous.hit());
        assert(hits[order@[at + 1].2 as int] == current.hit());
        if ranges_overlap(&previous.range, &current.range) {
            assert(clash_at(order@, at as int));
            return Err(overlap_error(previous, current));
        }
        at += 1;
    }
    Ok(())
}

/// The edits in the order of their places in the text.
pub open spec fn in_order(text: Seq<char>, edits: Seq<Edit>) -> Seq<Edit> {
    let order = sorted_hits(hits_of(text, edits));
    Seq::new(order.len(), |k: int| edits[order[k].2 as int])
}

/// Where the last of the edits ends.
pub open spec fn last_end(edits: Seq<Edit>) -> int {
    if edits.len() == 0 {
        0
    } else {
        edits.last().end
    }
}

/// The text up to the end of the last edit, with the edits made.
pub open spec fn edited_front(text: Seq<char>, edits: Seq<Edit>) -> Seq<char>
    decreases edits.len(),
{
    if edits.len() == 0 {
        Seq::empty()
    } else {
        let before = edits.drop_last();
        edited_front(text, before) + text.subrange(last_end(before), edits.last().start)
            + edits.last().text
    }
}

/// The text with all spans replaced at once; the edits are in the order of their places.
pub open spec fn edited(text: Seq<char>, edits: Seq<Edit>) -> Seq<char> {
    edited_front(text, edits) + text.skip(last_end(edits))
}

/// Whether each edit lies in the text and ends before the next begins.
pub open spec fn laid_out(text: Seq<char>, edits: Seq<Edit>) -> bool {
    &&& forall|i: int|
        0 <= i < edits.len() ==> 0 <= (#[trigger] edits[i]).start <= edits[i].end <= text.len()
    &&& forall|i: int, j: int|
        0 <= i < j < edits.len() ==> (#[trigger] edits[i]).end <= (#[trigger] edits[j]).start
}

/// Whether each edit lies in the text.
pub open spec fn inside(text: Seq<char>, edits: Seq<Edit>) -> bool {
    forall|i: int|
        0 <= i < edits.len() ==> 0 <= (#[trigger] edits[i]).start <= edits[i].end <= text.len()
}

pub proof fn lemma_hits_forward(text: Seq<char>, edits: Seq<Edit>)
    requires
        inside(text, edits),
        utf8_len(text) <= usize::MAX,
    ensures
        hits_forward(hits_of(text, edits)),
{
    let hits = hits_of(text, edits);
    assert forall|i: int| 0 <= i < hits.len() implies (#[trigger] hits[i]).range.start
        <= hits[i].range.end by {
        lemma_utf8_len_prefix(text, edits[i].start, edits[i].end);
        lemma_utf8_len_prefix(text, edits[i].end, text.len() as int);
        assert(text.take(text.len() as int) =~= text);
    }
}

/// Edits without overlap lie one behind the other.
pub proof fn lemma_laid_out(text: Seq<char>, edits: Seq<Edit>)
    requires
        inside(text, edits),
        edits.len() <= usize::MAX,
        utf8_len(text) <= usize::MAX,
        overlap_choice(hits_of(text, edits)) is Ok,
    ensures
        laid_out(text, in_order(text, edits)),
        in_order(text, edits).len() == edits.len(),
{
    let hits = hits_of(text, edits);
    let order = sorted_hits(hits);
    let sorted = in_order(text, edits);
    lemma_hits_forward(text, edits);
    lemma_sorted_hits(hits);
    lemma_disjoint(hits);
    assert(text.take(text.len() as int) =~= text);
    assert forall|i: int| 0 <= i < sorted.len() implies 0 <= (#[trigger] sorted[i]).start
        <= sorted[i].end <= text.len() by {
        assert(order[i].2 < hits.len());
    }
    assert forall|i: int, j: int| 0 <= i < j < sorted.len() implies (#[trigger] sorted[i]).end <= (
    #[trigger] sorted[j]).start by {
        assert(order[i].1 <= order[j].0);
        let a = sorted[i];
        let b = sorted[j];
        assert(hits[order[i].2 as int] == hit_of(text, a));
        assert(hits[order[j].2 as int] == hit_of(text, b));
        lemma_utf8_len_prefix(text, a.end, text.len() as int);
        lemma_utf8_len_prefix(text, b.start, text.len() as int);
        if b.start < a.end {
            lemma_utf8_len_prefix(text, b.start, a.end);
        }
    }
}

/// The order of the edits lays their spans out one behind the other.
proof fn lemma_edit_order(text: Seq<char>, edits: Seq<ResolvedEdit>)
    requires
        all_fit(text, edits),
        edits.len() <= usize::MAX,
        utf8_len(text) <= usize::MAX,
        overlap_choice(resolved_hits(edits)) is Ok,
    ensures
        ({
            let order = sorted_hits(resolved_hits(edits));
            let sorted = in_order(text, models(edits));
            &&& order.len() == sorted.len() == edits.len()
            &&& laid_out(text, sorted)
            &&& forall|i: int| 0 <= i < order.len() ==> (#[trigger] order[i]).2 < edits.len()
            &&& forall|i: int|
                0 <= i < order.len() ==> #[trigger] sorted[i] == edits[order[i].2 as int].model()
        }),
{
    crate::edit::lemma_hits(text, edits);
    assert forall|i: int| 0 <= i < models(edits).len() implies 0 <= (
    #[trigger] models(edits)[i]).start <= models(edits)[i].end <= text.len() by {
        assert(edits[i].fits(text));
    }
    lemma_laid_out(text, models(edits));
    lemma_sorted_hits(resolved_hits(edits));
}

/// Makes all replacements at once. Where an insertion stands at the start of a replaced span, the
/// inserted text comes first.
pub fn apply_resolved_edits(text: &str, edits: &[ResolvedEdit]) -> (r: String)
    requires
        all_fit(text@, edits@),
        overlap_choice(resolved_hits(edits@)) is Ok,
    ensures
        r@ == edited(text@, in_order(text@, models(edits@))),
{
    let order = sort_edits(edits);
    let chars = to_chars(text);
    let total: usize = chars.len();
    let size: usize = byte_len(text);
    let ghost hits = resolved_hits(edits@);
    let ghost sorted = in_order(text@, models(edits@));
    proof {
        lemma_edit_order(text@, edits@);
        assert(sorted.take(0) =~= Seq::<Edit>::empty());
    }
    let mut out = String::new();
    let mut end: usize = 0;
    let mut k: usize = 0;
    assert(out@ =~= edited_front(text@, sorted.take(0)));
    while k < order.len()
        invariant
            k <= order@.len() == sorted.len(),
            chars@ == text@,
            total == chars@.len(),
            end == last_end(sorted.take(k as int)),
            end <= total,
            out@ == edited_front(text@, sorted.take(k as int)),
            laid_out(text@, sorted),
            order@ == sorted_hits(hits),
            hits.len() == edits@.len(),
            edits@.len() <= usize::MAX,
            forall|i: int| 0 <= i < order@.len() ==> (#[trigger] order@[i]).2 < edits@.len(),
            forall|i: int|
                0 <= i < order@.len() ==> #[trigger] sorted[i] == edits@[order@[i].2 as int].model(),
        decreases order@.len() - k,
    {
        assert(order@[k as int].2 < edits@.len());
        let edit = &edits[order[k].2];
        proof {
            assert(sorted[k as int] == edit.model());
            assert(sorted.take(k + 1).drop_last() =~= sorted.take(k as int));
            assert(sorted.take(k + 1).last() == sorted[k as int]);
            if k > 0 {
                assert(sorted.take(k as int).last() == sorted[k - 1]);
            }
        }
        push_chars(&mut out, chars.as_slice(), end, edit.chars.start);
        out.append(edit.replacement.as_str());
        end = edit.chars.end;
        k += 1;
    }
    assert(sorted.take(sorted.len() as int) =~= sorted);
    push_chars(&mut out, chars.as_slice(), end, total);
    assert(text@.skip(end as int) =~= text@.subrange(end as int, total as int));
    out
}

/// The text with one span replaced.
pub open spec fn replaced(text: Seq<char>, edit: Edit) -> Seq<char> {
    text.take(edit.start) + edit.text + text.skip(edit.end)
}

/// The text with the spans replaced one after the other, the last first.
pub open spec fn replaced_backwards(text: Seq<char>, edits: Seq<Edit>) -> Seq<char>
    decreases edits.len(),
{
    if edits.len() == 0 {
        text
    } else {
        replaced_backwards(replaced(text, edits.last()), edits.drop_last())
    }
}

proof fn lemma_edited_front_local(a: Seq<char>, b: Seq<char>, edits: Seq<Edit>, limit: int)
    requires
        laid_out(a, edits),
        last_end(edits) <= limit <= a.len(),
        limit <= b.len(),
        a.take(limit) == b.take(limit),
    ensures
        edited_front(a, edits) == edited_front(b, edits),
    decreases edits.len(),
{
    if edits.len() > 0 {
        let before = edits.drop_last();
        assert(before.len() > 0 ==> before.last() == edits[before.len() - 1]);
        lemma_edited_front_local(a, b, before, limit);
        let from = last_end(before);
        let to = edits.last().start;
        assert(a.subrange(from, to) =~= a.take(limit).subrange(from, to));
        assert(b.subrange(from, to) =~= b.take(limit).subrange(from, to));
    }
}

pub proof fn lemma_replaced_backwards(text: Seq<char>, edits: Seq<Edit>)
    requires
        laid_out(text, edits),
    ensures
        edited(text, edits) == replaced_backwards(text, edits),
    decreases edits.len(),
{
    if edits.len() == 0 {
        assert(edited(text, edits) =~= text);
    } else {
        let before = edits.drop_last();
        let last = edits.last();
        let next = replaced(text, last);
        assert(edits[edits.len() - 1] == last);
        assert(before.len() > 0 ==> before.last() == edits[before.len() - 1]);
        assert(laid_out(next, before)) by {
            assert forall|i: int| 0 <= i < before.len() implies 0 <= (#[trigger] before[i]).start
                <= before[i].end <= next.len() by {
                assert(before[i] == edits[i]);
                assert(edits[i].end <= edits[edits.len() - 1].start);
            }
            assert forall|i: int, j: int| 0 <= i < j < before.len() implies (
            #[trigger] before[i]).end <= (#[trigger] before[j]).start by {
                assert(edits[i].end <= edits[j].start);
            }
        }
        lemma_replaced_backwards(next, before);
        assert(text.take(last.start) =~= next.take(last.start));
        assert(laid_out(text, before));
        lemma_edited_front_local(text, next, before, last.start);
        let from = last_end(before);
        assert(next.skip(from) =~= text.subrange(from, last.start) + last.text + text.skip(last.end));
        assert(edited(text, edits) =~= edited_front(text, before) + next.skip(from));
    }
}

/// Making all replacements at once is making them one at a time from the back, each at the place
/// that it had in the given text.
pub proof fn law_edits_apply_from_the_back(text: Seq<char>, edits: Seq<Edit>)
    requires
        inside(text, edits),
        edits.len() <= usize::MAX,
        utf8_len(text) <= usize::MAX,
        overlap_choice(hits_of(text, edits)) is Ok,
    ensures
        edited(text, in_order(text, edits)) == replaced_backwards(text, in_order(text, edits)),
{
    lemma_laid_out(text, edits);
    lemma_replaced_backwards(text, in_order(text, edits));
}

/// Whether an edit stands before another one in the text.
pub open spec fn stands_before(a: Edit, b: Edit) -> bool {
    a.start <= b.start && a.end <= b.end && (a.start < b.start || a.end < b.end)
}

/// The order of the edits holds each edit once, and each stands before the next.
pub proof fn lemma_in_order(text: Seq<char>, edits: Seq<Edit>)
    requires
        inside(text, edits),
        edits.len() <= usize::MAX,
        utf8_len(text) <= usize::MAX,
        overlap_choice(hits_of(text, edits)) is Ok,
    ensures
        in_order(text, edits).len() == edits.len(),
        forall|i: int, j: int|
            0 <= i < j < edits.len() ==> stands_before(
                #[trigger] in_order(text, edits)[i],
                #[trigger] in_order(text, edits)[j],
            ),
        forall|edit: Edit| #[trigger]
            in_order(text, edits).contains(edit) <==> edits.contains(edit),
{
    let hits = hits_of(text, edits);
    let keys = hit_keys(hits);
    let order = sorted_hits(hits);
    let sorted = in_order(text, edits);
    lemma_laid_out(text, edits);
    lemma_hits_forward(text, edits);
    lemma_sorted_keys(keys);
    lemma_sorted_hits(hits);
    lemma_disjoint(hits);
    assert(text.take(text.len() as int) =~= text);
    assert forall|i: int, j: int| 0 <= i < j < edits.len() implies stands_before(
        #[trigger] sorted[i],
        #[trigger] sorted[j],
    ) by {
        let a = sorted[i];
        let b = sorted[j];
        assert(order[i].1 <= order[j].0 && order[i].0 != order[j].1);
        assert(hits[order[i].2 as int] == hit_of(text, a));
        assert(hits[order[j].2 as int] == hit_of(text, b));
        lemma_utf8_len_prefix(text, a.start, text.len() as int);
        lemma_utf8_len_prefix(text, b.end, text.len() as int);
        if a.start == b.start && a.end == b.end {
            assert(order[i].0 == order[j].1);
        }
    }
    assert forall|edit: Edit| #[trigger] sorted.contains(edit) <==> edits.contains(edit) by {
        if sorted.contains(edit) {
            let k = choose|k: int| 0 <= k < sorted.len() && sorted[k] == edit;
            assert(order[k].2 < hits.len());
            assert(edits[order[k].2 as int] == edit);
        }
        if edits.contains(edit) {
            let i = choose|i: int| 0 <= i < edits.len() && edits[i] == edit;
            assert(keys.contains(keys[i]));
            assert(order.contains(keys[i]));
            let k = choose|k: int| 0 <= k < order.len() && order[k] == keys[i];
            assert(sorted[k] == edit);
        }
    }
}

/// There is one order in which each edit stands before the next.
pub proof fn lemma_one_order(a: Seq<Edit>, b: Seq<Edit>, count: int)
    requires
        0 <= count <= a.len(),
        forall|i: int, j: int|
            0 <= i < j < a.len() ==> stands_before(#[trigger] a[i], #[trigger] a[j]),
        forall|i: int, j: int|
            0 <= i < j < b.len() ==> stands_before(#[trigger] b[i], #[trigger] b[j]),
        forall|edit: Edit| #[trigger] a.contains(edit) <==> b.contains(edit),
    ensures
        count <= b.len(),
        a.take(count) == b.take(count),
    decreases count,
{
    if count > 0 {
        let at = count - 1;
        lemma_one_order(a, b, at);
        assert forall|i: int| 0 <= i < at implies a[i] == b[i] by {
            assert(a.take(at)[i] == b.take(at)[i]);
        }
        assert(a.contains(a[at]));
        let j = choose|j: int| 0 <= j < b.len() && b[j] == a[at];
        if j < at {
            assert(stands_before(a[j], a[at]));
        }
        assert(b.contains(b[at]));
        assert(a.contains(b[at]));
        let i = choose|i: int| 0 <= i < a.len() && a[i] == b[at];
        if i < at {
            assert(stands_before(b[i], b[at]));
        } else if i > at && j > at {
            assert(stands_before(a[at], a[i]));
            assert(stands_before(b[at], b[j]));
        }
        assert(a.take(count) =~= a.take(at).push(a[at]));
        assert(b.take(count) =~= b.take(at).push(b[at]));
    } else {
        assert(a.take(count) =~= b.take(count));
    }
}

/// Edits without overlap are all different.
proof fn lemma_edits_differ(text: Seq<char>, edits: Seq<Edit>)
    requires
        inside(text, edits),
        edits.len() <= usize::MAX,
        utf8_len(text) <= usize::MAX,
        overlap_choice(hits_of(text, edits)) is Ok,
    ensures
        edits.no_duplicates(),
{
    let hits = hits_of(text, edits);
    lemma_hits_forward(text, edits);
    law_check_finds_every_overlap(hits);
    assert forall|i: int, j: int| 0 <= i < edits.len() && 0 <= j < edits.len() && i != j implies
        edits[i] != edits[j] by {
        assert(hits[i].range.start <= hits[i].range.end);
        assert(!overlaps(hits[i].range, hits[j].range));
    }
}

/// The order in which edits are listed does not matter: where they leave each other alone, so do the
/// same edits in another order, and they make the same text.
pub proof fn law_edits_apply_in_any_order(text: Seq<char>, edits: Seq<Edit>, shuffled: Seq<Edit>)
    requires
        inside(text, edits),
        edits.len() <= usize::MAX,
        utf8_len(text) <= usize::MAX,
        overlap_choice(hits_of(text, edits)) is Ok,
        shuffled.to_multiset() == edits.to_multiset(),
    ensures
        overlap_choice(hits_of(text, shuffled)) is Ok,
        in_order(text, shuffled) == in_order(text, edits),
        edited(text, in_order(text, shuffled)) == edited(text, in_order(text, edits)),
{
    broadcast use vstd::seq_lib::group_to_multiset_ensures;

    let hits = hits_of(text, edits);
    let moved = hits_of(text, shuffled);
    lemma_edits_differ(text, edits);
    edits.lemma_multiset_has_no_duplicates();
    shuffled.lemma_multiset_has_no_duplicates_conv();
    assert(shuffled.to_multiset().len() == shuffled.len());
    assert(edits.to_multiset().len() == edits.len());
    assert forall|edit: Edit| #[trigger] shuffled.contains(edit) <==> edits.contains(edit) by {
        assert(shuffled.contains(edit) <==> shuffled.to_multiset().count(edit) > 0);
        assert(edits.contains(edit) <==> edits.to_multiset().count(edit) > 0);
    }
    assert forall|i: int| 0 <= i < shuffled.len() implies 0 <= (#[trigger] shuffled[i]).start
        <= shuffled[i].end <= text.len() by {
        assert(shuffled.contains(shuffled[i]));
    }
    lemma_hits_forward(text, edits);
    lemma_hits_forward(text, shuffled);
    law_check_finds_every_overlap(hits);
    assert forall|i: int, j: int|
        0 <= i < moved.len() && 0 <= j < moved.len() && i != j implies !overlaps(
        (#[trigger] moved[i]).range,
        (#[trigger] moved[j]).range,
    ) by {
        assert(shuffled.contains(shuffled[i]) && shuffled.contains(shuffled[j]));
        let k = choose|k: int| 0 <= k < edits.len() && edits[k] == shuffled[i];
        let l = choose|l: int| 0 <= l < edits.len() && edits[l] == shuffled[j];
        assert(k != l);
        assert(!overlaps(hits[k].range, hits[l].range));
    }
    law_check_finds_every_overlap(moved);
    lemma_in_order(text, edits);
    lemma_in_order(text, shuffled);
    let a = in_order(text, edits);
    let b = in_order(text, shuffled);
    assert forall|edit: Edit| #[trigger] a.contains(edit) <==> b.contains(edit) by {
        assert(shuffled.contains(edit) <==> edits.contains(edit));
    }
    lemma_one_order(a, b, a.len() as int);
    assert(a.take(a.len() as int) =~= a);
    assert(b.take(b.len() as int) =~= b);
}

/// How many bytes an edit adds; below zero, how many it takes away.
pub open spec fn bytes_added(text: Seq<char>, edit: Edit) -> int {
    utf8_len(edit.text) - (utf8_len(text.take(edit.end)) - utf8_len(text.take(edit.start)))
}

/// How many bytes edits add together.
pub open spec fn all_bytes_added(text: Seq<char>, edits: Seq<Edit>) -> int {
    edits.fold_left(0int, |sum: int, edit: Edit| sum + bytes_added(text, edit))
}

proof fn lemma_front_length(text: Seq<char>, edits: Seq<Edit>)
    requires
        laid_out(text, edits),
    ensures
        utf8_len(edited_front(text, edits)) == utf8_len(text.take(last_end(edits)))
            + all_bytes_added(text, edits),
    decreases edits.len(),
{
    if edits.len() == 0 {
        assert(text.take(0) =~= Seq::<char>::empty());
    } else {
        let before = edits.drop_last();
        let last = edits.last();
        assert(edits[edits.len() - 1] == last);
        assert(before.len() > 0 ==> before.last() == edits[before.len() - 1]);
        assert(laid_out(text, before)) by {
            assert forall|i: int| 0 <= i < before.len() implies 0 <= (#[trigger] before[i]).start
                <= before[i].end <= text.len() by {
                assert(before[i] == edits[i]);
            }
            assert forall|i: int, j: int| 0 <= i < j < before.len() implies (
            #[trigger] before[i]).end <= (#[trigger] before[j]).start by {
                assert(edits[i].end <= edits[j].start);
            }
        }
        lemma_front_length(text, before);
        let from = last_end(before);
        let front = edited_front(text, before);
        let kept = text.subrange(from, last.start);
        lemma_encode_concat(front, kept);
        lemma_encode_concat(front + kept, last.text);
        lemma_utf8_len_prefix(text, from, last.start);
        assert(all_bytes_added(text, edits) == all_bytes_added(text, before) + bytes_added(
            text,
            last,
        ));
    }
}

/// The edited text is as long as the given one, less what the edits replace and more what they put
/// there, counted in bytes.
pub proof fn law_edits_change_the_length(text: Seq<char>, edits: Seq<Edit>)
    requires
        inside(text, edits),
        edits.len() <= usize::MAX,
        utf8_len(text) <= usize::MAX,
        overlap_choice(hits_of(text, edits)) is Ok,
    ensures
        utf8_len(edited(text, in_order(text, edits))) == utf8_len(text) + all_bytes_added(
            text,
            edits,
        ),
{
    let sorted = in_order(text, edits);
    let end = last_end(sorted);
    lemma_laid_out(text, edits);
    lemma_front_length(text, sorted);
    assert(sorted.len() > 0 ==> sorted.last() == sorted[sorted.len() - 1]);
    lemma_encode_concat(edited_front(text, sorted), text.skip(end));
    lemma_utf8_len_prefix(text, end, text.len() as int);
    assert(text.skip(end) =~= text.subrange(end, text.len() as int));
    assert(text.take(text.len() as int) =~= text);
    lemma_same_edits(text, edits);
    let sum = |sum: int, edit: Edit| sum + bytes_added(text, edit);
    assert(vstd::seq_lib::commutative_foldl(sum));
    vstd::seq_lib::lemma_fold_left_permutation(sorted, edits, sum, 0int);
}

/// The order of the edits rearranges them.
proof fn lemma_same_edits(text: Seq<char>, edits: Seq<Edit>)
    requires
        inside(text, edits),
        edits.len() <= usize::MAX,
        utf8_len(text) <= usize::MAX,
        overlap_choice(hits_of(text, edits)) is Ok,
    ensures
        in_order(text, edits).to_multiset() == edits.to_multiset(),
{
    broadcast use vstd::seq_lib::group_to_multiset_ensures;

    let sorted = in_order(text, edits);
    lemma_in_order(text, edits);
    lemma_edits_differ(text, edits);
    assert(sorted.no_duplicates()) by {
        assert forall|i: int, j: int|
            0 <= i < sorted.len() && 0 <= j < sorted.len() && i != j implies sorted[i]
            != sorted[j] by {
            if i < j {
                assert(stands_before(sorted[i], sorted[j]));
            } else {
                assert(stands_before(sorted[j], sorted[i]));
            }
        }
    }
    sorted.lemma_multiset_has_no_duplicates();
    edits.lemma_multiset_has_no_duplicates();
    assert forall|edit: Edit| #[trigger]
        sorted.to_multiset().count(edit) == edits.to_multiset().count(edit) by {
        assert(sorted.contains(edit) <==> edits.contains(edit));
        assert(sorted.contains(edit) <==> sorted.to_multiset().count(edit) > 0);
        assert(edits.contains(edit) <==> edits.to_multiset().count(edit) > 0);
    }
    assert(sorted.to_multiset() =~= edits.to_multiset());
}

/// The bytes that each edit matched.
pub fn edit_hits(edits: &[ResolvedEdit]) -> (r: Vec<EditHit>)
    ensures
        r@ == resolved_hits(edits@),
{
    let mut out: Vec<EditHit> = Vec::new();
    let mut i: usize = 0;
    while i < edits.len()
        invariant
            i <= edits@.len(),
            out@ == resolved_hits(edits@).take(i as int),
        decreases edits@.len() - i,
    {
        let edit = &edits[i];
        out.push(
            EditHit {
                op_index: edit.op_index,
                range: Range { start: edit.range.start, end: edit.range.end },
            },
        );
        assert(resolved_hits(edits@).take(i + 1) =~= resolved_hits(edits@).take(i as int).push(
            edit.hit(),
        ));
        i += 1;
    }
    assert(resolved_hits(edits@).take(edits@.len() as int) =~= resolved_hits(edits@));
    out
}

} // verus!
