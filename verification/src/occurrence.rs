//! Finding the occurrences of a text inside another.
use vstd::prelude::*;
use vstd::string::*;

use crate::error::{agrees, respond, FunctionCallError};
use crate::text::{byte_offset, decimal, decimal_u128, owned, to_chars, utf8_len};

verus! {

/// Whether `needle` stands in `text` at character `at`.
pub open spec fn occurs_at(text: Seq<char>, needle: Seq<char>, at: int) -> bool {
    0 <= at && at + needle.len() <= text.len() && text.subrange(at, at + needle.len()) == needle
}

/// Whether `needle` stands anywhere in `text`.
pub open spec fn occurs(text: Seq<char>, needle: Seq<char>) -> bool {
    exists|at: int| occurs_at(text, needle, at)
}

/// The first position from `from` on at which `needle` stands.
pub open spec fn next_match(text: Seq<char>, needle: Seq<char>, from: int) -> Option<int>
    decreases text.len() + 1 - from,
{
    if from < 0 || from + needle.len() > text.len() {
        None
    } else if occurs_at(text, needle, from) {
        Some(from)
    } else {
        next_match(text, needle, from + 1)
    }
}

/// The positions of the matches from `from` on: each the first after the end of the one before it.
pub open spec fn match_starts(text: Seq<char>, needle: Seq<char>, from: int) -> Seq<int>
    decreases text.len() + 1 - from,
{
    match next_match(text, needle, from) {
        Some(at) => if needle.len() > 0 && from <= at && at + needle.len() <= text.len() {
            seq![at] + match_starts(text, needle, at + needle.len())
        } else {
            Seq::empty()
        },
        None => Seq::empty(),
    }
}

/// How often `needle` occurs. The empty text occurs in front of each character and at the end.
pub open spec fn occurrence_count(text: Seq<char>, needle: Seq<char>) -> nat {
    if needle.len() == 0 {
        text.len() + 1
    } else {
        match_starts(text, needle, 0).len()
    }
}

/// Where occurrence `nth`, counted from 1, begins. The empty text is always found at the start.
pub open spec fn occurrence_at(text: Seq<char>, needle: Seq<char>, nth: nat) -> int {
    if needle.len() == 0 {
        0
    } else {
        match_starts(text, needle, 0)[nth - 1]
    }
}

/// Which occurrence is meant, counted from 1, or why that is not clear.
pub open spec fn occurrence_choice(
    text: Seq<char>,
    needle: Seq<char>,
    occurrence: Option<usize>,
    field_name: Seq<char>,
) -> Result<usize, Seq<char>> {
    let count = occurrence_count(text, needle);
    match occurrence {
        Some(nth) => if nth == 0 {
            Err("occurrence must be one-based"@)
        } else if nth > count {
            Err(
                field_name + " occurs "@ + decimal(count) + " times; occurrence "@ + decimal(
                    nth as nat,
                ) + " is out of range"@,
            )
        } else {
            Ok(nth)
        },
        None => if count == 1 {
            Ok(1)
        } else if count == 0 {
            Err(field_name + " was not found"@)
        } else {
            Err(field_name + " occurs "@ + decimal(count) + " times; specify occurrence"@)
        },
    }
}

/// The characters that the meant occurrence takes up: its first, and the one after its last.
pub open spec fn occurrence_span(
    text: Seq<char>,
    needle: Seq<char>,
    occurrence: Option<usize>,
    field_name: Seq<char>,
) -> Result<(int, int), Seq<char>> {
    match occurrence_choice(text, needle, occurrence, field_name) {
        Ok(nth) => {
            let start = occurrence_at(text, needle, nth as nat);
            Ok((start, start + needle.len()))
        },
        Err(message) => Err(message),
    }
}

/// The first match from `from` on is a match, and there is none before it.
pub proof fn lemma_next_match(text: Seq<char>, needle: Seq<char>, from: int)
    requires
        0 <= from,
    ensures
        match next_match(text, needle, from) {
            Some(at) => from <= at && occurs_at(text, needle, at) && forall|i: int|
                from <= i < at ==> !occurs_at(text, needle, i),
            None => forall|i: int| from <= i ==> !occurs_at(text, needle, i),
        },
    decreases text.len() + 1 - from,
{
    if from + needle.len() <= text.len() && !occurs_at(text, needle, from) {
        lemma_next_match(text, needle, from + 1);
    }
}

/// Every listed position is a match, and matches do not overlap.
pub proof fn lemma_match_starts(text: Seq<char>, needle: Seq<char>, from: int)
    requires
        0 <= from,
        needle.len() > 0,
    ensures
        forall|k: int|
            0 <= k < match_starts(text, needle, from).len() ==> {
                let at = #[trigger] match_starts(text, needle, from)[k];
                from + k <= at && occurs_at(text, needle, at)
            },
        forall|k: int, l: int|
            0 <= k < l < match_starts(text, needle, from).len() ==> #[trigger] match_starts(
                text,
                needle,
                from,
            )[k] + needle.len() <= #[trigger] match_starts(text, needle, from)[l],
    decreases text.len() + 1 - from,
{
    lemma_next_match(text, needle, from);
    match next_match(text, needle, from) {
        Some(at) => {
            let next = at + needle.len();
            lemma_match_starts(text, needle, next);
            let rest = match_starts(text, needle, next);
            let all = match_starts(text, needle, from);
            assert(all =~= seq![at] + rest);
            assert forall|k: int| 0 <= k < all.len() implies ({
                let p = #[trigger] all[k];
                from + k <= p && occurs_at(text, needle, p)
            }) by {
                if k > 0 {
                    assert(all[k] == rest[k - 1]);
                }
            }
            assert forall|k: int, l: int| 0 <= k < l < all.len() implies #[trigger] all[k]
                + needle.len() <= #[trigger] all[l] by {
                assert(all[l] == rest[l - 1]);
                if k > 0 {
                    assert(all[k] == rest[k - 1]);
                }
            }
        },
        None => {},
    }
}

/// A found span lies inside the text and holds the needle.
pub proof fn lemma_occurrence_span(
    text: Seq<char>,
    needle: Seq<char>,
    occurrence: Option<usize>,
    field_name: Seq<char>,
)
    ensures
        occurrence_span(text, needle, occurrence, field_name) matches Ok((start, end)) ==> {
            &&& 0 <= start <= end <= text.len()
            &&& end == start + needle.len()
            &&& text.subrange(start, end) == needle
        },
{
    if needle.len() > 0 {
        lemma_match_starts(text, needle, 0);
    } else {
        assert(text.subrange(0, 0) =~= needle);
    }
}

/// Whether `needle` stands in `text` at character `at`.
pub fn stands_at(text: &[char], needle: &[char], at: usize) -> (r: bool)
    requires
        at + needle@.len() <= text@.len(),
    ensures
        r == occurs_at(text@, needle@, at as int),
{
    let total: usize = text.len();
    let mut i: usize = 0;
    while i < needle.len()
        invariant
            i <= needle@.len(),
            at + needle@.len() <= text@.len() == total,
            forall|j: int| 0 <= j < i ==> text@[at + j] == needle@[j],
        decreases needle@.len() - i,
    {
        if text[at + i] != needle[i] {
            proof {
                let part = text@.subrange(at as int, at + needle@.len());
                assert(part[i as int] == text@[at + i]);
            }
            return false;
        }
        i += 1;
    }
    assert(text@.subrange(at as int, at + needle@.len()) =~= needle@);
    true
}

/// The first position from `from` on at which `needle` stands.
pub fn find_from(text: &[char], needle: &[char], from: usize) -> (r: Option<usize>)
    ensures
        match next_match(text@, needle@, from as int) {
            Some(at) => r matches Some(got) && got == at && at + needle@.len() <= text@.len()
                && from <= at,
            None => r is None,
        },
{
    if needle.len() > text.len() {
        return None;
    }
    let last: usize = text.len() - needle.len();
    let mut at: usize = from;
    while at <= last
        invariant
            from <= at,
            last + needle@.len() == text@.len(),
            next_match(text@, needle@, from as int) == next_match(text@, needle@, at as int),
        decreases last + 1 - at,
    {
        if stands_at(text, needle, at) {
            return Some(at);
        }
        if at == last {
            assert(next_match(text@, needle@, at as int) == next_match(text@, needle@, at + 1));
            assert(next_match(text@, needle@, at + 1) is None);
            return None;
        }
        at += 1;
    }
    None
}

/// Whether `needle` stands anywhere in `text`.
pub fn contains_text(text: &str, needle: &str) -> (r: bool)
    ensures
        r == occurs(text@, needle@),
{
    let chars = to_chars(text);
    let wanted = to_chars(needle);
    proof {
        lemma_next_match(text@, needle@, 0);
    }
    find_from(chars.as_slice(), wanted.as_slice(), 0).is_some()
}

/// The positions of the matches of a nonempty needle.
fn find_all(text: &[char], needle: &[char]) -> (r: Vec<usize>)
    requires
        needle@.len() > 0,
    ensures
        r@.len() == match_starts(text@, needle@, 0).len(),
        forall|k: int|
            0 <= k < r@.len() ==> #[trigger] r@[k] == match_starts(text@, needle@, 0)[k],
{
    let mut out: Vec<usize> = Vec::new();
    let total: usize = text.len();
    let mut from: usize = 0;
    let ghost found = Seq::<int>::empty();
    assert(found + match_starts(text@, needle@, 0) =~= match_starts(text@, needle@, 0));
    loop
        invariant
            needle@.len() > 0,
            from <= text@.len() == total,
            found + match_starts(text@, needle@, from as int) == match_starts(text@, needle@, 0),
            out@.len() == found.len(),
            forall|k: int| 0 <= k < out@.len() ==> #[trigger] out@[k] == found[k],
        decreases text@.len() - from,
    {
        match find_from(text, needle, from) {
            Some(at) => {
                out.push(at);
                proof {
                    let next = found.push(at as int);
                    assert(found + match_starts(text@, needle@, from as int) =~= next
                        + match_starts(text@, needle@, at + needle@.len()));
                    found = next;
                }
                from = at + needle.len();
            },
            None => {
                assert(found =~= match_starts(text@, needle@, 0));
                return out;
            },
        }
    }
}

/// How often `needle` occurs in `text`.
pub fn count_occurrences(text: &str, needle: &str) -> (r: u128)
    ensures
        r == occurrence_count(text@, needle@),
{
    let chars = to_chars(text);
    let wanted = to_chars(needle);
    if wanted.len() == 0 {
        chars.len() as u128 + 1
    } else {
        find_all(chars.as_slice(), wanted.as_slice()).len() as u128
    }
}

/// Decides which occurrence of `needle` is meant: the requested one, or the only one.
pub fn resolve_occurrence(
    text: &str,
    needle: &str,
    occurrence: Option<usize>,
    field_name: &str,
) -> (r: Result<usize, FunctionCallError>)
    ensures
        agrees(r, occurrence_choice(text@, needle@, occurrence, field_name@)),
{
    let count = count_occurrences(text, needle);
    match occurrence {
        Some(nth) => if nth == 0 {
            Err(respond("occurrence must be one-based"))
        } else if nth as u128 > count {
            let mut message = owned(field_name);
            message.append(" occurs ");
            message.append(decimal_u128(count).as_str());
            message.append(" times; occurrence ");
            message.append(decimal_u128(nth as u128).as_str());
            message.append(" is out of range");
            Err(FunctionCallError::RespondToModel(message))
        } else {
            Ok(nth)
        },
        None => if count == 1 {
            Ok(1)
        } else if count == 0 {
            let mut message = owned(field_name);
            message.append(" was not found");
            Err(FunctionCallError::RespondToModel(message))
        } else {
            let mut message = owned(field_name);
            message.append(" occurs ");
            message.append(decimal_u128(count).as_str());
            message.append(" times; specify occurrence");
            Err(FunctionCallError::RespondToModel(message))
        },
    }
}

/// Where occurrence `occurrence` of `needle` begins, as a byte offset. An occurrence of 0 is taken
/// for the first.
pub fn occurrence_start(text: &str, needle: &str, occurrence: usize) -> (r: Option<usize>)
    ensures
        ({
            let nth = if occurrence == 0 {
                1nat
            } else {
                occurrence as nat
            };
            if needle@.len() > 0 && nth > occurrence_count(text@, needle@) {
                r is None
            } else {
                r matches Some(start) && start == utf8_len(
                    text@.take(occurrence_at(text@, needle@, nth)),
                )
            }
        }),
{
    let chars = to_chars(text);
    let wanted = to_chars(needle);
    if wanted.len() == 0 {
        return Some(byte_offset(text, chars.as_slice(), 0));
    }
    let starts = find_all(chars.as_slice(), wanted.as_slice());
    let index: usize = if occurrence == 0 {
        0
    } else {
        occurrence - 1
    };
    if index < starts.len() {
        proof {
            crate::occurrence::lemma_match_starts(text@, needle@, 0);
            assert(starts@[index as int] == match_starts(text@, needle@, 0)[index as int]);
        }
        Some(byte_offset(text, chars.as_slice(), starts[index]))
    } else {
        None
    }
}

/// The characters that the meant occurrence of `needle` takes up.
pub fn text_occurrence_chars(
    text: &str,
    needle: &str,
    occurrence: Option<usize>,
    field_name: &str,
) -> (r: Result<(usize, usize), FunctionCallError>)
    ensures
        match occurrence_span(text@, needle@, occurrence, field_name@) {
            Ok((start, end)) => {
                &&& r matches Ok(span)
                &&& span.0 == start
                &&& span.1 == end
                &&& start <= end <= text@.len()
            },
            Err(message) => r matches Err(error) && error.says(message),
        },
{
    let nth = match resolve_occurrence(text, needle, occurrence, field_name) {
        Ok(nth) => nth,
        Err(error) => return Err(error),
    };
    proof {
        lemma_occurrence_span(text@, needle@, occurrence, field_name@);
    }
    let chars = to_chars(text);
    let wanted = to_chars(needle);
    if wanted.len() == 0 {
        return Ok((0, 0));
    }
    let starts = find_all(chars.as_slice(), wanted.as_slice());
    let start: usize = starts[nth - 1];
    let total: usize = chars.len();
    assert(start + wanted@.len() <= total);
    Ok((start, start + wanted.len()))
}

} // verus!
