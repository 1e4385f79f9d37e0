//! Ranges of lines, counted from 1 and inclusive at both ends.
use vstd::prelude::*;
use vstd::string::*;
use vstd::utf8::{encode_scalar, encode_utf8};

use crate::error::{agrees, respond, FunctionCallError};
use crate::order::{key_le, lemma_sorted_keys, sort_keys, sorted_keys, Key};
use crate::text::{
    byte_offset, count_pieces, decimal, decimal_usize, flat, join, joined, lemma_encode_concat,
    lemma_piece_count, lemma_pieces, lemma_utf8_len_prefix, nested, newlines, owned, pieces,
    split_pieces, texts, to_chars, utf8_len,
};

verus! {

/// A first and a last line.
pub type LineRange = (usize, usize);

/// How many line feeds a UTF-8 text holds.
pub open spec fn byte_newlines(bytes: Seq<u8>) -> nat
    decreases bytes.len(),
{
    if bytes.len() == 0 {
        0
    } else {
        byte_newlines(bytes.drop_last()) + if bytes.last() == 10 {
            1nat
        } else {
            0
        }
    }
}

/// The line that holds byte `index`; past the end, the line that holds the end.
pub open spec fn line_of_byte(bytes: Seq<u8>, index: int) -> nat {
    1 + byte_newlines(
        bytes.take(
            if index < bytes.len() {
                index
            } else {
                bytes.len() as int
            },
        ),
    )
}

/// The line that holds character `index`.
pub open spec fn line_of_char(text: Seq<char>, index: int) -> nat {
    1 + newlines(text.take(index))
}

/// The lines that the characters from `start` up to `end` touch; an empty span touches the line that
/// it stands in.
pub open spec fn span_lines(text: Seq<char>, start: int, end: int) -> (nat, nat) {
    (
        line_of_char(text, start),
        line_of_char(
            text,
            if end > start {
                end - 1
            } else {
                start
            },
        ),
    )
}

proof fn lemma_byte_newlines_concat(a: Seq<u8>, b: Seq<u8>)
    ensures
        byte_newlines(a + b) == byte_newlines(a) + byte_newlines(b),
    decreases b.len(),
{
    if b.len() == 0 {
        assert(a + b =~= a);
    } else {
        lemma_byte_newlines_concat(a, b.drop_last());
        assert((a + b).drop_last() =~= a + b.drop_last());
    }
}

proof fn lemma_no_newline_bytes(bytes: Seq<u8>)
    requires
        forall|i: int| 0 <= i < bytes.len() ==> bytes[i] != 10,
    ensures
        byte_newlines(bytes) == 0,
    decreases bytes.len(),
{
    if bytes.len() > 0 {
        lemma_no_newline_bytes(bytes.drop_last());
    }
}

/// The bytes of one character: a line feed for a line feed, and no line feed otherwise.
proof fn lemma_char_bytes(c: char)
    ensures
        byte_newlines(encode_scalar(c as u32)) == if c == '\n' {
            1nat
        } else {
            0
        },
        encode_scalar(c as u32).len() > 0,
        byte_newlines(encode_scalar(c as u32).drop_last()) == 0,
{
    let n = c as u32;
    let bytes = encode_scalar(n);
    vstd::utf8::char_is_scalar(c);
    if n < 0x80 {
        assert((n & 0x7f) as u8 == n) by (bit_vector)
            requires
                n < 0x80,
        ;
        assert(bytes =~= seq![n as u8]);
        assert(bytes.drop_last() =~= Seq::<u8>::empty());
        assert(byte_newlines(Seq::<u8>::empty()) == 0);
        reveal_with_fuel(byte_newlines, 2);
    } else {
        assert(forall|m: u32, shift: u32|
            #![trigger (m >> shift)]
            (0x80u8 | ((m >> shift) & 0x3f) as u8) != 10u8) by (bit_vector);
        assert(0x80u8 | (n & 0x3f) as u8 != 10u8) by (bit_vector);
        assert(0xc0u8 | ((n >> 6) & 0x1f) as u8 != 10u8) by (bit_vector);
        assert(0xe0u8 | ((n >> 12) & 0x0f) as u8 != 10u8) by (bit_vector);
        assert(0xf0u8 | ((n >> 18) & 0x07) as u8 != 10u8) by (bit_vector);
        assert(forall|i: int| 0 <= i < bytes.len() ==> bytes[i] != 10);
        lemma_no_newline_bytes(bytes);
        lemma_no_newline_bytes(bytes.drop_last());
    }
}

/// Counting line feeds in the bytes or in the characters of a text comes to the same.
pub proof fn lemma_byte_newlines(text: Seq<char>)
    ensures
        byte_newlines(encode_utf8(text)) == newlines(text),
    decreases text.len(),
{
    if text.len() > 0 {
        let front = text.drop_last();
        lemma_byte_newlines(front);
        lemma_encode_concat(front, seq![text.last()]);
        assert(front + seq![text.last()] =~= text);
        lemma_one_char(text.last());
        lemma_byte_newlines_concat(encode_utf8(front), encode_scalar(text.last() as u32));
        lemma_char_bytes(text.last());
    }
}

proof fn lemma_one_char(c: char)
    ensures
        encode_utf8(seq![c]) == encode_scalar(c as u32),
{
    let one = seq![c];
    assert(one.drop_first() =~= Seq::<char>::empty());
    assert(encode_utf8(one.drop_first()) =~= Seq::<u8>::empty());
    assert(encode_utf8(one) =~= encode_scalar(c as u32));
}

/// A byte span that begins and ends between characters touches the lines that its characters touch.
pub proof fn lemma_span_lines(text: Seq<char>, start: int, end: int)
    requires
        0 <= start <= end <= text.len(),
    ensures
        ({
            let bytes = encode_utf8(text);
            let first = utf8_len(text.take(start)) as int;
            let last = utf8_len(text.take(end)) as int;
            &&& first <= last <= bytes.len()
            &&& line_of_byte(bytes, first) == span_lines(text, start, end).0
            &&& line_of_byte(
                bytes,
                if last - 1 > first {
                    last - 1
                } else {
                    first
                },
            ) == span_lines(text, start, end).1
        }),
{
    let bytes = encode_utf8(text);
    let first = utf8_len(text.take(start)) as int;
    let last = utf8_len(text.take(end)) as int;
    assert(text.take(text.len() as int) =~= text);
    lemma_utf8_len_prefix(text, start, end);
    lemma_utf8_len_prefix(text, end, text.len() as int);
    lemma_prefix_bytes(text, start);
    lemma_byte_newlines(text.take(start));
    if start < end {
        lemma_prefix_bytes(text, end - 1);
        lemma_prefix_bytes(text, end);
        lemma_byte_newlines(text.take(end - 1));
        lemma_utf8_len_prefix(text, start, end - 1);
        let c = text[end - 1];
        lemma_encode_concat(text.take(end - 1), seq![c]);
        assert(text.take(end - 1) + seq![c] =~= text.take(end));
        lemma_one_char(c);
        lemma_char_bytes(c);
        let head = encode_utf8(text.take(end - 1));
        let partial = encode_scalar(c as u32).drop_last();
        assert(bytes.take(last - 1) =~= head + partial) by {
            assert(bytes.take(last) == head + encode_scalar(c as u32));
            assert(bytes.take(last).drop_last() =~= bytes.take(last - 1));
        }
        lemma_byte_newlines_concat(head, partial);
        lemma_utf8_len_prefix(text, start, end - 1);
        assert(last - 1 >= first);
    }
}

proof fn lemma_prefix_bytes(text: Seq<char>, index: int)
    requires
        0 <= index <= text.len(),
    ensures
        encode_utf8(text).take(utf8_len(text.take(index)) as int) == encode_utf8(text.take(index)),
{
    lemma_encode_concat(text.take(index), text.skip(index));
    assert(text.take(index) + text.skip(index) =~= text);
    assert(encode_utf8(text).take(utf8_len(text.take(index)) as int) =~= encode_utf8(
        text.take(index),
    ));
}

/// The line that holds byte `byte_index` of `text`.
pub fn line_number_at_byte(text: &str, byte_index: usize) -> (r: usize)
    requires
        byte_index < usize::MAX || utf8_len(text@) < usize::MAX,
    ensures
        r == line_of_byte(encode_utf8(text@), byte_index as int),
{
    let bytes = text.as_bytes();
    let end: usize = if byte_index < bytes.len() {
        byte_index
    } else {
        bytes.len()
    };
    let mut count: usize = 0;
    let mut i: usize = 0;
    assert(bytes@.take(0) =~= Seq::<u8>::empty());
    while i < end
        invariant
            i <= end <= bytes@.len(),
            end < usize::MAX,
            count <= i,
            count == byte_newlines(bytes@.take(i as int)),
        decreases end - i,
    {
        assert(bytes@.take(i + 1).drop_last() =~= bytes@.take(i as int));
        if bytes[i] == 10 {
            count += 1;
        }
        i += 1;
    }
    count + 1
}

/// The lines that the bytes from `start` up to `end` touch.
pub fn byte_range_to_line_range(text: &str, start: usize, end: usize) -> (r: LineRange)
    requires
        start < usize::MAX || utf8_len(text@) < usize::MAX,
    ensures
        ({
            let bytes = encode_utf8(text@);
            &&& r.0 == line_of_byte(bytes, start as int)
            &&& r.1 == line_of_byte(
                bytes,
                if end - 1 > start {
                    end - 1
                } else {
                    start as int
                },
            )
        }),
{
    let start_line = line_number_at_byte(text, start);
    let last: usize = if end > 0 && end - 1 > start {
        end - 1
    } else {
        start
    };
    (start_line, line_number_at_byte(text, last))
}

/// How many lines the file has; a text that does not end in a line feed has one more line than
/// line feeds.
pub fn file_line_count(text: &str) -> (r: usize)
    ensures
        r == pieces(text@).len(),
        r == newlines(text@) + if text@.len() > 0 && text@.last() != '\n' {
            1nat
        } else {
            0
        },
{
    let chars = to_chars(text);
    proof {
        lemma_piece_count(text@);
    }
    count_pieces(chars.as_slice())
}

/// How many lines a fragment of text has.
pub fn line_count_for_fragment(text: &str) -> (r: usize)
    ensures
        r == pieces(text@).len(),
{
    file_line_count(text)
}

/// How many line feeds the text holds.
pub fn inserted_line_count(text: &str) -> (r: usize)
    ensures
        r == newlines(text@),
{
    let chars = to_chars(text);
    let mut count: usize = 0;
    let mut i: usize = 0;
    assert(chars@.take(0) =~= Seq::<char>::empty());
    while i < chars.len()
        invariant
            i <= chars@.len(),
            count <= i,
            count == newlines(chars@.take(i as int)),
        decreases chars@.len() - i,
    {
        assert(chars@.take(i + 1).drop_last() =~= chars@.take(i as int));
        if chars[i] == '\n' {
            count += 1;
        }
        i += 1;
    }
    assert(chars@.take(chars@.len() as int) =~= chars@);
    count
}

/// The range of all lines, if there is any.
pub fn whole_file_range(text: &str) -> (r: Vec<LineRange>)
    ensures
        r@ == if text@.len() == 0 {
            Seq::<LineRange>::empty()
        } else {
            seq![(1usize, pieces(text@).len() as usize)]
        },
{
    proof {
        lemma_pieces(text@);
    }
    let count = file_line_count(text);
    let mut out: Vec<LineRange> = Vec::new();
    if count != 0 {
        out.push((1, count));
    }
    assert(out@ =~= if text@.len() == 0 {
        Seq::<LineRange>::empty()
    } else {
        seq![(1usize, pieces(text@).len() as usize)]
    });
    out
}

/// Whether the lines of a range exist, or the message that says why not.
pub open spec fn line_choice(
    text: Seq<char>,
    start_line: usize,
    end_line: usize,
) -> Result<LineRange, Seq<char>> {
    if start_line == 0 || end_line == 0 {
        Err("line ranges must be one-based"@)
    } else if start_line > end_line {
        Err(
            "start_line "@ + decimal(start_line as nat) + " must be less than or equal to end_line "@
                + decimal(end_line as nat),
        )
    } else if end_line > pieces(text).len() {
        Err(
            "line range "@ + decimal(start_line as nat) + "-"@ + decimal(end_line as nat)
                + " is out of range; file has "@ + decimal(pieces(text).len()) + " lines"@,
        )
    } else {
        Ok((start_line, end_line))
    }
}

/// Checks that the lines of a range exist.
pub fn validate_line_range(text: &str, start_line: usize, end_line: usize) -> (r: Result<
    LineRange,
    FunctionCallError,
>)
    ensures
        agrees(r, line_choice(text@, start_line, end_line)),
{
    if start_line == 0 || end_line == 0 {
        return Err(respond("line ranges must be one-based"));
    }
    if start_line > end_line {
        let mut message = owned("start_line ");
        message.append(decimal_usize(start_line).as_str());
        message.append(" must be less than or equal to end_line ");
        message.append(decimal_usize(end_line).as_str());
        return Err(FunctionCallError::RespondToModel(message));
    }
    let line_count = file_line_count(text);
    if end_line > line_count {
        let mut message = owned("line range ");
        message.append(decimal_usize(start_line).as_str());
        message.append("-");
        message.append(decimal_usize(end_line).as_str());
        message.append(" is out of range; file has ");
        message.append(decimal_usize(line_count).as_str());
        message.append(" lines");
        return Err(FunctionCallError::RespondToModel(message));
    }
    Ok((start_line, end_line))
}

/// How many characters the first `count` lines take up.
pub open spec fn chars_of_lines(text: Seq<char>, count: int) -> int {
    flat(pieces(text).take(count)).len() as int
}

/// The characters of a range of lines: the first, and the one after the last.
pub open spec fn line_span(text: Seq<char>, start_line: usize, end_line: usize) -> Result<
    (int, int),
    Seq<char>,
> {
    match line_choice(text, start_line, end_line) {
        Ok(_) => Ok((chars_of_lines(text, start_line - 1), chars_of_lines(text, end_line as int))),
        Err(message) => Err(message),
    }
}

/// Fewer lines take up no more characters.
pub proof fn lemma_chars_of_lines(text: Seq<char>, a: int, b: int)
    requires
        0 <= a <= b <= pieces(text).len(),
    ensures
        0 <= chars_of_lines(text, a) <= chars_of_lines(text, b) <= text.len(),
        a < b ==> chars_of_lines(text, a) < chars_of_lines(text, b),
        b == pieces(text).len() ==> chars_of_lines(text, b) == text.len(),
    decreases pieces(text).len() - a,
{
    lemma_pieces(text);
    assert(pieces(text).take(pieces(text).len() as int) =~= pieces(text));
    if a < pieces(text).len() {
        lemma_chars_of_lines(
            text,
            a + 1,
            if b > a {
                b
            } else {
                a + 1
            },
        );
        assert(pieces(text).take(a + 1).drop_last() =~= pieces(text).take(a));
    }
}

/// The characters of a range of lines.
pub fn line_chars(text: &str, start_line: usize, end_line: usize) -> (r: Result<
    (usize, usize),
    FunctionCallError,
>)
    ensures
        match line_span(text@, start_line, end_line) {
            Ok((start, end)) => {
                &&& r matches Ok(span)
                &&& span.0 == start
                &&& span.1 == end
                &&& start <= end <= text@.len()
            },
            Err(message) => r matches Err(error) && error.says(message),
        },
{
    match validate_line_range(text, start_line, end_line) {
        Ok(_) => {},
        Err(error) => return Err(error),
    }
    let chars = to_chars(text);
    let total: usize = chars.len();
    let parts = split_pieces(chars.as_slice());
    let ghost all = pieces(text@);
    assert(nested(parts@).len() == parts@.len());
    let mut start: usize = 0;
    let mut end: usize = 0;
    let mut i: usize = 0;
    assert(all.take(0) =~= Seq::<Seq<char>>::empty());
    while i < end_line
        invariant
            i <= end_line <= all.len(),
            1 <= start_line <= end_line,
            all == pieces(text@),
            nested(parts@) == all,
            parts@.len() == all.len(),
            total == text@.len(),
            end == chars_of_lines(text@, i as int),
            i >= start_line ==> start == chars_of_lines(text@, start_line - 1),
        decreases end_line - i,
    {
        if i == start_line - 1 {
            start = end;
        }
        proof {
            lemma_chars_of_lines(text@, i + 1, all.len() as int);
            assert(all.take(i + 1).drop_last() =~= all.take(i as int));
            assert(all.take(i + 1).last() == nested(parts@)[i as int]);
        }
        end += parts[i].len();
        i += 1;
    }
    proof {
        lemma_chars_of_lines(text@, start_line - 1, end_line as int);
    }
    Ok((start, end))
}

/// The bytes of a range of lines.
pub fn line_byte_range(text: &str, start_line: usize, end_line: usize) -> (r: Result<
    core::ops::Range<usize>,
    FunctionCallError,
>)
    ensures
        match line_span(text@, start_line, end_line) {
            Ok((start, end)) => {
                &&& r matches Ok(range)
                &&& range.start == utf8_len(text@.take(start))
                &&& range.end == utf8_len(text@.take(end))
            },
            Err(message) => r matches Err(error) && error.says(message),
        },
{
    match line_chars(text, start_line, end_line) {
        Ok((start, end)) => {
            let chars = to_chars(text);
            Ok(
                core::ops::Range {
                    start: byte_offset(text, chars.as_slice(), start),
                    end: byte_offset(text, chars.as_slice(), end),
                },
            )
        },
        Err(error) => Err(error),
    }
}

/// A range as a sort key.
pub open spec fn range_key(range: LineRange) -> Key {
    (range.0, range.1, 0)
}

/// The ranges in ascending order of their first and then of their last line.
pub open spec fn sorted_ranges(ranges: Seq<LineRange>) -> Seq<LineRange> {
    let keys = sorted_keys(Seq::new(ranges.len(), |i: int| range_key(ranges[i])));
    Seq::new(keys.len(), |i: int| (keys[i].0, keys[i].1))
}

/// Sorted ranges with neighbours that overlap or touch made into one.
pub open spec fn joined_ranges(sorted: Seq<LineRange>) -> Seq<LineRange>
    decreases sorted.len(),
{
    if sorted.len() == 0 {
        Seq::empty()
    } else {
        let before = joined_ranges(sorted.drop_last());
        let next = sorted.last();
        if before.len() > 0 && next.0 <= before.last().1 + 1 {
            before.drop_last().push(
                (
                    before.last().0,
                    if before.last().1 < next.1 {
                        next.1
                    } else {
                        before.last().1
                    },
                ),
            )
        } else {
            before.push(next)
        }
    }
}

/// The ranges sorted, with those that overlap or touch made into one.
pub open spec fn merged_ranges(ranges: Seq<LineRange>) -> Seq<LineRange> {
    joined_ranges(sorted_ranges(ranges))
}

/// Sorts the ranges and makes those that overlap or touch into one.
pub fn merge_line_ranges(ranges: &mut Vec<LineRange>)
    ensures
        final(ranges)@ == merged_ranges(old(ranges)@),
{
    let mut keys: Vec<Key> = Vec::new();
    let mut i: usize = 0;
    while i < ranges.len()
        invariant
            i <= ranges@.len(),
            ranges@ == old(ranges)@,
            keys@.len() == i,
            forall|j: int| 0 <= j < i ==> keys@[j] == range_key(#[trigger] ranges@[j]),
        decreases ranges@.len() - i,
    {
        keys.push((ranges[i].0, ranges[i].1, 0));
        i += 1;
    }
    assert(keys@ =~= Seq::new(ranges@.len(), |j: int| range_key(ranges@[j])));
    let sorted = sort_keys(keys.as_slice());
    let ghost order = sorted_ranges(old(ranges)@);
    let mut merged: Vec<LineRange> = Vec::new();
    let mut k: usize = 0;
    assert(order.take(0) =~= Seq::<LineRange>::empty());
    while k < sorted.len()
        invariant
            k <= sorted@.len() == order.len(),
            forall|j: int|
                0 <= j < sorted@.len() ==> #[trigger] order[j] == (sorted@[j].0, sorted@[j].1),
            merged@ == joined_ranges(order.take(k as int)),
        decreases sorted@.len() - k,
    {
        let (start, end, _) = sorted[k];
        proof {
            assert(order.take(k + 1).drop_last() =~= order.take(k as int));
            assert(order.take(k + 1).last() == (start, end));
        }
        if merged.len() == 0 {
            merged.push((start, end));
        } else {
            let last: usize = merged.len() - 1;
            let (first_line, last_line) = merged[last];
            if last_line == usize::MAX || start <= last_line + 1 {
                let ghost before = merged@;
                merged.pop();
                merged.push(
                    (
                        first_line,
                        if last_line < end {
                            end
                        } else {
                            last_line
                        },
                    ),
                );
                assert(merged@ =~= joined_ranges(order.take(k + 1)));
            } else {
                merged.push((start, end));
            }
        }
        k += 1;
    }
    assert(order.take(order.len() as int) =~= order);
    *ranges = merged;
}

/// Whether some range holds line `line`.
pub open spec fn covers(ranges: Seq<LineRange>, line: int) -> bool {
    exists|i: int| 0 <= i < ranges.len() && (#[trigger] ranges[i]).0 <= line <= ranges[i].1
}

/// Whether no range ends before it begins.
pub open spec fn well_formed(ranges: Seq<LineRange>) -> bool {
    forall|i: int| 0 <= i < ranges.len() ==> (#[trigger] ranges[i]).0 <= ranges[i].1
}

/// Whether the ranges ascend with at least one line between each two neighbours.
pub open spec fn separated(ranges: Seq<LineRange>) -> bool {
    forall|i: int, j: int|
        0 <= i < j < ranges.len() ==> (#[trigger] ranges[i]).1 + 1 < (#[trigger] ranges[j]).0
}

proof fn lemma_joined_ranges(sorted: Seq<LineRange>, line: int)
    requires
        well_formed(sorted),
        forall|i: int, j: int|
            0 <= i < j < sorted.len() ==> (#[trigger] sorted[i]).0 <= (#[trigger] sorted[j]).0,
    ensures
        well_formed(joined_ranges(sorted)),
        separated(joined_ranges(sorted)),
        covers(joined_ranges(sorted), line) <==> covers(sorted, line),
        sorted.len() > 0 ==> joined_ranges(sorted).len() > 0 && joined_ranges(sorted).last().0
            <= sorted.last().0,
    decreases sorted.len(),
{
    if sorted.len() > 0 {
        let front = sorted.drop_last();
        lemma_joined_ranges(front, line);
        let before = joined_ranges(front);
        let next = sorted.last();
        let all = joined_ranges(sorted);
        assert forall|i: int| 0 <= i < front.len() implies front[i] == sorted[i] by {}
        assert(covers(sorted, line) <==> covers(front, line) || next.0 <= line <= next.1) by {
            if covers(sorted, line) {
                let i = choose|i: int|
                    0 <= i < sorted.len() && (#[trigger] sorted[i]).0 <= line <= sorted[i].1;
                if i < front.len() {
                    assert(front[i] == sorted[i]);
                }
            }
            if covers(front, line) {
                let i = choose|i: int|
                    0 <= i < front.len() && (#[trigger] front[i]).0 <= line <= front[i].1;
                assert(sorted[i] == front[i]);
            }
            assert(sorted[sorted.len() - 1] == next);
        }
        if before.len() > 0 && next.0 <= before.last().1 + 1 {
            let last = all.last();
            assert(all.drop_last() =~= before.drop_last());
            assert(front.len() > 0);
            assert(front.last().0 <= next.0) by {
                assert(sorted[front.len() - 1] == front.last());
            }
            assert(covers(all, line) <==> covers(before, line) || next.0 <= line <= next.1) by {
                if covers(all, line) {
                    let i = choose|i: int|
                        0 <= i < all.len() && (#[trigger] all[i]).0 <= line <= all[i].1;
                    if i < all.len() - 1 {
                        assert(before[i] == all[i]);
                    } else {
                        assert(before[before.len() - 1] == before.last());
                    }
                }
                if covers(before, line) {
                    let i = choose|i: int|
                        0 <= i < before.len() && (#[trigger] before[i]).0 <= line <= before[i].1;
                    if i < before.len() - 1 {
                        assert(all[i] == before[i]);
                    } else {
                        assert(all[all.len() - 1] == last);
                    }
                }
                assert(all[all.len() - 1] == last);
            }
        } else {
            assert(all.drop_last() =~= before);
            assert(covers(all, line) <==> covers(before, line) || next.0 <= line <= next.1) by {
                if covers(all, line) {
                    let i = choose|i: int|
                        0 <= i < all.len() && (#[trigger] all[i]).0 <= line <= all[i].1;
                    if i < before.len() {
                        assert(before[i] == all[i]);
                    }
                }
                if covers(before, line) {
                    let i = choose|i: int|
                        0 <= i < before.len() && (#[trigger] before[i]).0 <= line <= before[i].1;
                    assert(all[i] == before[i]);
                }
                assert(all[all.len() - 1] == next);
            }
            if before.len() > 0 {
                assert forall|i: int, j: int| 0 <= i < j < all.len() implies (
                #[trigger] all[i]).1 + 1 < (#[trigger] all[j]).0 by {
                    if j == all.len() - 1 {
                        assert(before[i] == all[i]);
                        if i < before.len() - 1 {
                            assert(before[i].1 + 1 < before[before.len() - 1].0);
                            assert(before[before.len() - 1].0 <= before[before.len() - 1].1);
                        }
                    } else {
                        assert(before[i] == all[i]);
                        assert(before[j] == all[j]);
                    }
                }
            }
        }
    }
}

proof fn lemma_sorted_ranges_hold(ranges: Seq<LineRange>, range: LineRange)
    ensures
        sorted_ranges(ranges).contains(range) <==> ranges.contains(range),
{
    let keys = Seq::new(ranges.len(), |i: int| range_key(ranges[i]));
    let order = sorted_keys(keys);
    let sorted = sorted_ranges(ranges);
    lemma_sorted_keys(keys);
    if sorted.contains(range) {
        let i = choose|i: int| 0 <= i < sorted.len() && sorted[i] == range;
        assert(order.contains(order[i]));
        assert(keys.contains(order[i]));
        let k = choose|k: int| 0 <= k < keys.len() && keys[k] == order[i];
        assert(ranges[k] == range);
    }
    if ranges.contains(range) {
        let k = choose|k: int| 0 <= k < ranges.len() && ranges[k] == range;
        assert(keys[k] == range_key(range));
        assert(keys.contains(range_key(range)));
        assert(order.contains(range_key(range)));
        let i = choose|i: int| 0 <= i < order.len() && order[i] == range_key(range);
        assert(sorted[i] == range);
    }
}

proof fn lemma_sorted_ranges_ascend(ranges: Seq<LineRange>)
    ensures
        forall|i: int, j: int|
            0 <= i < j < sorted_ranges(ranges).len() ==> (#[trigger] sorted_ranges(ranges)[i]).0 <= (
            #[trigger] sorted_ranges(ranges)[j]).0,
{
    let keys = Seq::new(ranges.len(), |i: int| range_key(ranges[i]));
    let order = sorted_keys(keys);
    let sorted = sorted_ranges(ranges);
    lemma_sorted_keys(keys);
    assert forall|i: int, j: int| 0 <= i < j < sorted.len() implies (#[trigger] sorted[i]).0 <= (
    #[trigger] sorted[j]).0 by {
        assert(key_le(order[i], order[j]));
    }
}

proof fn lemma_sorted_ranges_cover(ranges: Seq<LineRange>, line: int)
    ensures
        covers(sorted_ranges(ranges), line) <==> covers(ranges, line),
{
    let sorted = sorted_ranges(ranges);
    if covers(sorted, line) {
        let i = choose|i: int|
            0 <= i < sorted.len() && (#[trigger] sorted[i]).0 <= line <= sorted[i].1;
        lemma_sorted_ranges_hold(ranges, sorted[i]);
        assert(sorted.contains(sorted[i]));
    }
    if covers(ranges, line) {
        let k = choose|k: int|
            0 <= k < ranges.len() && (#[trigger] ranges[k]).0 <= line <= ranges[k].1;
        lemma_sorted_ranges_hold(ranges, ranges[k]);
        assert(ranges.contains(ranges[k]));
    }
}

/// Merging keeps exactly the lines that the ranges held, in ascending ranges with a gap of at least
/// one line between each two.
pub proof fn law_merge_keeps_lines(ranges: Seq<LineRange>, line: int)
    requires
        well_formed(ranges),
    ensures
        covers(merged_ranges(ranges), line) <==> covers(ranges, line),
        well_formed(merged_ranges(ranges)),
        separated(merged_ranges(ranges)),
{
    let sorted = sorted_ranges(ranges);
    assert forall|i: int| 0 <= i < sorted.len() implies (#[trigger] sorted[i]).0 <= sorted[i].1 by {
        lemma_sorted_ranges_hold(ranges, sorted[i]);
        assert(sorted.contains(sorted[i]));
    }
    lemma_sorted_ranges_ascend(ranges);
    lemma_sorted_ranges_cover(ranges, line);
    lemma_joined_ranges(sorted, line);
}

/// A range as it is shown: one number for a single line, else the first and the last.
pub open spec fn shown_range(range: LineRange) -> Seq<char> {
    if range.0 == range.1 {
        decimal(range.0 as nat)
    } else {
        decimal(range.0 as nat) + "-"@ + decimal(range.1 as nat)
    }
}

/// The ranges as they are shown, separated by commas.
pub open spec fn shown_ranges(ranges: Seq<LineRange>) -> Seq<char> {
    joined(Seq::new(ranges.len(), |i: int| shown_range(ranges[i])), ", "@)
}

/// The ranges as text, separated by commas.
pub fn format_line_ranges(ranges: &[LineRange]) -> (r: String)
    ensures
        r@ == shown_ranges(ranges@),
{
    let mut parts: Vec<String> = Vec::new();
    let mut i: usize = 0;
    while i < ranges.len()
        invariant
            i <= ranges@.len(),
            parts@.len() == i,
            forall|j: int| 0 <= j < i ==> (#[trigger] parts@[j])@ == shown_range(ranges@[j]),
        decreases ranges@.len() - i,
    {
        let (start, end) = ranges[i];
        let mut part = decimal_usize(start);
        if start != end {
            part.append("-");
            part.append(decimal_usize(end).as_str());
        }
        parts.push(part);
        i += 1;
    }
    assert(texts(parts@) =~= Seq::new(ranges@.len(), |j: int| shown_range(ranges@[j])));
    join(parts.as_slice(), ", ")
}

} // verus!
