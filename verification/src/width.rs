//! Cutting texts to the width of a terminal.
use vstd::prelude::*;
use vstd::string::*;

use crate::outside::{char_columns, char_width};
use crate::text::{slice_text, to_chars};

verus! {

/// How many columns a character takes; none where that is not known.
pub open spec fn columns(c: char) -> nat {
    match char_columns(c) {
        Some(n) => n as nat,
        None => 0,
    }
}

/// The columns of each character.
pub open spec fn widths(text: Seq<char>) -> Seq<nat> {
    Seq::new(text.len(), |i: int| columns(text[i]))
}

/// How many items from `at` on fit, where `used` columns of `limit` are taken already. It ends as
/// soon as all columns are taken.
pub open spec fn fitting_from(list: Seq<nat>, at: nat, used: nat, limit: nat) -> nat
    decreases list.len() - at,
{
    if at >= list.len() {
        at
    } else if used + list[at as int] > limit {
        at
    } else if used + list[at as int] == limit {
        at + 1
    } else {
        fitting_from(list, at + 1, used + list[at as int], limit)
    }
}

/// How many items fit into `limit` columns.
pub open spec fn fitting(list: Seq<nat>, limit: nat) -> nat {
    if limit == 0 {
        0
    } else {
        fitting_from(list, 0, 0, limit)
    }
}

/// The sum of the first `count` widths.
pub open spec fn taken(list: Seq<nat>, count: nat) -> nat
    decreases count,
{
    if count == 0 {
        0
    } else {
        taken(list, (count - 1) as nat) + list[count - 1]
    }
}

/// Numbers as plain values.
pub open spec fn nats(list: Seq<usize>) -> Seq<nat> {
    Seq::new(list.len(), |i: int| list[i] as nat)
}

/// How many items of the given widths fit into `limit` columns.
pub fn fitting_count(list: &[usize], limit: usize) -> (r: usize)
    ensures
        r == fitting(nats(list@), limit as nat),
        r <= list@.len(),
{
    if limit == 0 {
        return 0;
    }
    let ghost all = nats(list@);
    let total: usize = list.len();
    let mut at: usize = 0;
    let mut used: usize = 0;
    while at < total
        invariant
            at <= total == list@.len(),
            all == nats(list@),
            used < limit,
            fitting(all, limit as nat) == fitting_from(all, at as nat, used as nat, limit as nat),
        decreases total - at,
    {
        let width: usize = list[at];
        assert(all[at as int] == width);
        if width > limit - used {
            return at;
        }
        if width == limit - used {
            return at + 1;
        }
        used += width;
        at += 1;
    }
    at
}

proof fn lemma_fitting_from(list: Seq<nat>, at: nat, used: nat, limit: nat)
    requires
        at <= list.len(),
        used == taken(list, at),
        used <= limit,
    ensures
        at <= fitting_from(list, at, used, limit) <= list.len(),
        taken(list, fitting_from(list, at, used, limit)) <= limit,
    decreases list.len() - at,
{
    if at < list.len() && used + list[at as int] <= limit {
        assert(taken(list, at + 1) == used + list[at as int]);
        if used + list[at as int] < limit {
            lemma_fitting_from(list, at + 1, used + list[at as int], limit);
        }
    }
}

/// What fits takes no more columns than there are.
pub proof fn law_fitting_prefix_fits(list: Seq<nat>, limit: nat)
    ensures
        fitting(list, limit) <= list.len(),
        taken(list, fitting(list, limit)) <= limit,
{
    if limit > 0 {
        lemma_fitting_from(list, 0, 0, limit);
    }
}

fn widths_of(chars: &[char]) -> (r: Vec<usize>)
    ensures
        nats(r@) == widths(chars@),
{
    let mut out: Vec<usize> = Vec::new();
    let mut i: usize = 0;
    while i < chars.len()
        invariant
            i <= chars@.len(),
            out@.len() == i,
            forall|j: int| 0 <= j < i ==> #[trigger] out@[j] == columns(chars@[j]),
        decreases chars@.len() - i,
    {
        let width: usize = match char_width(chars[i]) {
            Some(n) => n,
            None => 0,
        };
        out.push(width);
        i += 1;
    }
    assert(nats(out@) =~= widths(chars@));
    out
}

/// The start of a text that fits into `limit` columns.
pub open spec fn prefix_of(text: Seq<char>, limit: nat) -> Seq<char> {
    text.take(fitting(widths(text), limit) as int)
}

/// Splits a text where `limit` columns are taken: the start that fits, and the rest.
pub fn take_prefix_by_width(text: &str, limit: usize) -> (r: (String, String))
    ensures
        r.0@ == prefix_of(text@, limit as nat),
        r.0@ + r.1@ == text@,
        r.1@ == text@.skip(fitting(widths(text@), limit as nat) as int),
{
    let chars = to_chars(text);
    let list = widths_of(chars.as_slice());
    let count = fitting_count(list.as_slice(), limit);
    assert(nats(list@).len() == list@.len());
    let prefix = slice_text(chars.as_slice(), 0, count);
    let rest = slice_text(chars.as_slice(), count, chars.len());
    assert(prefix@ =~= text@.take(count as int));
    assert(rest@ =~= text@.skip(count as int));
    assert(prefix@ + rest@ =~= text@);
    (prefix, rest)
}

} // verus!
