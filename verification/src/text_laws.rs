//! What the operations on plain texts and numbers do, said of the parts that a text is put together of.
use vstd::prelude::*;

use crate::edit_laws::{
    are_lines, law_lines_are_read_back, lemma_flat_is_flatten, lemma_flatten_split,
};
use crate::line_range::{
    byte_newlines, line_choice, line_of_byte, line_of_char, shown_range, shown_ranges, span_lines,
    LineRange,
};
use crate::order::{key_le, lemma_sorted_keys, sorted_keys, Key};
use crate::outside::char_columns;
use crate::split::{parts_at, stripped, stripped_both, stripped_end, stripped_start, Strip};
use crate::text::{
    decimal, digit, each_after, flat, joined, lines_of, newlines, pieces, signed_decimal,
    without_ending,
};
use crate::width::{fitting, fitting_from, prefix_of, taken, widths};

verus! {

/// The number that decimal digits stand for.
pub open spec fn value(digits: Seq<char>) -> int
    decreases digits.len(),
{
    if digits.len() == 0 {
        0
    } else {
        10 * value(digits.drop_last()) + (digits.last() as int - '0' as int)
    }
}

/// A number in decimal is made of digits, is read back as the number, and has no leading zero.
pub proof fn law_decimal_is_read_back(n: nat)
    ensures
        value(decimal(n)) == n,
        decimal(n).len() > 0,
        forall|i: int| 0 <= i < decimal(n).len() ==> '0' <= #[trigger] decimal(n)[i] <= '9',
        decimal(n)[0] == '0' ==> n == 0 && decimal(n).len() == 1,
    decreases n,
{
    if n < 10 {
        reveal_with_fuel(value, 2);
        assert(decimal(n).drop_last() =~= Seq::<char>::empty());
        assert(decimal(n)[0] == digit(n as int));
    } else {
        law_decimal_is_read_back(n / 10);
        let front = decimal(n / 10);
        assert(decimal(n).drop_last() =~= front);
        assert(decimal(n).last() == digit((n % 10) as int));
        assert(decimal(n)[0] == front[0]);
        assert forall|i: int| 0 <= i < decimal(n).len() implies '0' <= #[trigger] decimal(n)[i]
            <= '9' by {
            if i < front.len() {
                assert(decimal(n)[i] == front[i]);
            }
        }
    }
}

/// A negative number is its magnitude behind a minus sign.
pub proof fn law_minus_stands_in_front(n: nat)
    ensures
        signed_decimal(n as int) == decimal(n),
        n > 0 ==> signed_decimal(-(n as int)) == seq!['-'] + decimal(n),
{
}

proof fn lemma_each_after_split(a: Seq<Seq<char>>, b: Seq<Seq<char>>, sep: Seq<char>)
    ensures
        each_after(a + b, sep) == each_after(a, sep) + each_after(b, sep),
    decreases b.len(),
{
    if b.len() == 0 {
        assert(a + b =~= a);
        assert(each_after(a, sep) + each_after(b, sep) =~= each_after(a, sep));
    } else {
        lemma_each_after_split(a, b.drop_last(), sep);
        assert((a + b).drop_last() =~= a + b.drop_last());
        assert((a + b).last() == b.last());
        assert(each_after(a + b, sep) =~= each_after(a, sep) + each_after(b, sep));
    }
}

/// Parts are joined with the separator between them and nowhere else: no parts make an empty text, one part
/// is itself, and the parts of two lists have one separator between the lists.
pub proof fn law_parts_are_joined(
    a: Seq<Seq<char>>,
    b: Seq<Seq<char>>,
    part: Seq<char>,
    sep: Seq<char>,
)
    requires
        a.len() > 0,
        b.len() > 0,
    ensures
        joined(Seq::empty(), sep) == Seq::<char>::empty(),
        joined(seq![part], sep) == part,
        joined(a + b, sep) == joined(a, sep) + sep + joined(b, sep),
{
    assert(seq![part].skip(1) =~= Seq::<Seq<char>>::empty());
    assert(part + Seq::<char>::empty() =~= part);
    let rest = a.skip(1);
    assert((a + b).skip(1) =~= rest + b);
    lemma_each_after_split(rest, b, sep);
    let first = seq![b[0]];
    assert(b =~= first + b.skip(1));
    lemma_each_after_split(first, b.skip(1), sep);
    reveal_with_fuel(each_after, 2);
    assert(first.drop_last() =~= Seq::<Seq<char>>::empty());
    assert(each_after(first, sep) =~= sep + b[0]);
    assert(joined(a + b, sep) =~= joined(a, sep) + sep + joined(b, sep));
}

/// Whether a text is made of these lines: each body is followed by a line feed, or by a carriage return and
/// a line feed, and the last one may be followed by nothing unless it is empty.
pub open spec fn has_lines(bodies: Seq<Seq<char>>, endings: Seq<Seq<char>>) -> bool {
    &&& bodies.len() == endings.len()
    &&& forall|i: int|
        0 <= i < bodies.len() ==> {
            let body = #[trigger] bodies[i];
            &&& !body.contains('\n')
            &&& {
                ||| endings[i] == seq!['\r', '\n']
                ||| endings[i] == seq!['\n'] && (body.len() > 0 ==> body.last() != '\r')
                ||| endings[i].len() == 0 && i == bodies.len() - 1 && body.len() > 0
            }
        }
}

/// Bodies with their endings.
pub open spec fn ended_lines(bodies: Seq<Seq<char>>, endings: Seq<Seq<char>>) -> Seq<Seq<char>> {
    Seq::new(bodies.len(), |i: int| bodies[i] + endings[i])
}

/// The lines of a text are what stands before its line endings.
pub proof fn law_lines_lack_their_endings(bodies: Seq<Seq<char>>, endings: Seq<Seq<char>>)
    requires
        has_lines(bodies, endings),
    ensures
        lines_of(ended_lines(bodies, endings).flatten()) == bodies,
        pieces(ended_lines(bodies, endings).flatten()).len() == bodies.len(),
{
    let lines = ended_lines(bodies, endings);
    assert forall|i: int| 0 <= i < lines.len() implies (#[trigger] lines[i]).len() > 0 && (i
        < lines.len() - 1 ==> lines[i].last() == '\n') && (forall|j: int|
        0 <= j < lines[i].len() - 1 ==> (#[trigger] lines[i][j]) != '\n') && without_ending(lines[i])
        == bodies[i] by {
        let body = bodies[i];
        assert(lines[i] == body + endings[i]);
        assert forall|j: int| 0 <= j < lines[i].len() - 1 implies (#[trigger] lines[i][j])
            != '\n' by {
            if j < body.len() {
                assert(lines[i][j] == body[j]);
                assert(body.contains(body[j]));
            }
        }
        if endings[i].len() == 0 {
            assert(lines[i] =~= body);
            assert(body.contains(body.last()));
        } else if endings[i].len() == 1 {
            assert(lines[i].drop_last() =~= body);
        } else {
            assert(lines[i].drop_last().drop_last() =~= body);
        }
    }
    assert(are_lines(lines)) by {
        assert forall|i: int, j: int|
            0 <= i < lines.len() && 0 <= j < lines[i].len() - 1 implies (#[trigger] lines[i][j])
            != '\n' by {
            assert(lines[i].len() > 0);
        }
    }
    law_lines_are_read_back(lines);
    assert(lines_of(lines.flatten()) =~= bodies);
}

proof fn lemma_newlines_split(a: Seq<char>, b: Seq<char>)
    ensures
        newlines(a + b) == newlines(a) + newlines(b),
    decreases b.len(),
{
    if b.len() == 0 {
        assert(a + b =~= a);
    } else {
        lemma_newlines_split(a, b.drop_last());
        assert((a + b).drop_last() =~= a + b.drop_last());
        assert((a + b).last() == b.last());
    }
}

proof fn lemma_no_newlines(s: Seq<char>)
    requires
        forall|j: int| 0 <= j < s.len() ==> #[trigger] s[j] != '\n',
    ensures
        newlines(s) == 0,
    decreases s.len(),
{
    if s.len() > 0 {
        assert(s.last() == s[s.len() - 1]);
        lemma_no_newlines(s.drop_last());
    }
}

proof fn lemma_newlines_of_lines(lines: Seq<Seq<char>>, count: int)
    requires
        are_lines(lines),
        0 <= count < lines.len(),
    ensures
        newlines(lines.take(count).flatten()) == count,
    decreases count,
{
    let front = lines.take(count);
    lemma_flat_is_flatten(front);
    if count > 0 {
        lemma_newlines_of_lines(lines, count - 1);
        lemma_flat_is_flatten(lines.take(count - 1));
        assert(front.drop_last() =~= lines.take(count - 1));
        let last = lines[count - 1];
        assert(front.last() == last);
        lemma_newlines_split(flat(lines.take(count - 1)), last);
        assert(last.len() > 0 && last.last() == '\n');
        assert forall|j: int| 0 <= j < last.drop_last().len() implies #[trigger] last.drop_last()[j]
            != '\n' by {
            assert(lines[count - 1][j] != '\n');
        }
        lemma_no_newlines(last.drop_last());
    }
}

/// A character stands in the line that holds it: behind the characters of the lines before that line.
pub proof fn law_character_stands_in_its_line(lines: Seq<Seq<char>>, line: int, column: int)
    requires
        are_lines(lines),
        0 <= line < lines.len(),
        0 <= column < lines[line].len(),
    ensures
        line_of_char(lines.flatten(), lines.take(line).flatten().len() + column) == line + 1,
{
    let text = lines.flatten();
    let front = lines.take(line).flatten();
    lemma_flatten_split(lines, line);
    lemma_newlines_of_lines(lines, line);
    let rest = lines.skip(line);
    assert(rest.first() == lines[line]);
    let start = lines[line].take(column);
    assert(rest.flatten() == lines[line] + rest.drop_first().flatten());
    assert(text.take(front.len() + column) =~= front + start);
    lemma_newlines_split(front, start);
    assert forall|j: int| 0 <= j < start.len() implies #[trigger] start[j] != '\n' by {
        assert(start[j] == lines[line][j]);
    }
    lemma_no_newlines(start);
}

/// A span touches the lines from that of its first character to that of its last; an empty one only the
/// line that it stands in.
pub proof fn law_span_touches_its_lines(
    lines: Seq<Seq<char>>,
    first: int,
    first_column: int,
    last: int,
    last_column: int,
)
    requires
        are_lines(lines),
        0 <= first < lines.len(),
        0 <= first_column < lines[first].len(),
        0 <= last < lines.len(),
        0 <= last_column < lines[last].len(),
        first < last || (first == last && first_column <= last_column),
    ensures
        ({
            let start = lines.take(first).flatten().len() + first_column;
            let end = lines.take(last).flatten().len() + last_column;
            &&& span_lines(lines.flatten(), start, end + 1) == ((first + 1) as nat, (last + 1) as nat)
            &&& span_lines(lines.flatten(), start, start) == (
                (first + 1) as nat,
                (first + 1) as nat,
            )
        }),
{
    law_character_stands_in_its_line(lines, first, first_column);
    law_character_stands_in_its_line(lines, last, last_column);
    let start = lines.take(first).flatten().len() + first_column;
    let end = lines.take(last).flatten().len() + last_column;
    if first < last {
        lemma_flatten_split(lines.take(last), first);
        assert(lines.take(last).take(first) =~= lines.take(first));
        let between = lines.take(last).skip(first);
        assert(between.first() == lines[first]);
        assert(between.flatten() == between.first() + between.drop_first().flatten());
        assert(start <= end);
    }
}

/// What is stripped: white space, the characters of a line ending, or one character.
pub proof fn law_stripped_characters(c: char, other: char)
    ensures
        stripped(Strip::LineEnds, c) <==> c == '\n' || c == '\r',
        stripped(Strip::Only(other), c) <==> c == other,
        stripped(Strip::White, ' ') && stripped(Strip::White, '\t') && stripped(Strip::White, '\n'),
        !stripped(Strip::White, 'a') && !stripped(Strip::White, '-') && !stripped(
            Strip::White,
            '0',
        ),
{
}

/// Whether all characters of a text are stripped.
pub open spec fn all_stripped(s: Seq<char>, strip: Strip) -> bool {
    forall|i: int| 0 <= i < s.len() ==> stripped(strip, #[trigger] s[i])
}

/// Stripping takes off what is stripped at the ends, and all of it: a core that begins and ends with other
/// characters is what is left, whatever stands inside it.
pub proof fn law_ends_are_stripped(
    front: Seq<char>,
    core: Seq<char>,
    back: Seq<char>,
    strip: Strip,
)
    requires
        all_stripped(front, strip),
        all_stripped(back, strip),
        core.len() > 0 ==> !stripped(strip, core[0]) && !stripped(strip, core.last()),
    ensures
        stripped_end(front + core + back, strip) == if core.len() > 0 {
            front + core
        } else {
            Seq::empty()
        },
        stripped_start(front + core, strip) == core,
        stripped_both(front + core + back, strip) == core,
    decreases back.len() + front.len(),
{
    lemma_start_stripped(front, core, strip);
    if core.len() > 0 {
        lemma_end_stripped(front + core, back, strip);
    } else {
        let all = front + core + back;
        assert forall|i: int| 0 <= i < all.len() implies stripped(strip, #[trigger] all[i]) by {
            if i < front.len() {
                assert(all[i] == front[i]);
            } else {
                assert(all[i] == back[i - front.len()]);
            }
        }
        lemma_end_stripped(Seq::empty(), all, strip);
        assert(Seq::<char>::empty() + all =~= all);
        assert(core =~= Seq::<char>::empty());
        lemma_start_stripped(Seq::empty(), core, strip);
        assert(Seq::<char>::empty() + core =~= core);
    }
}

proof fn lemma_end_stripped(kept: Seq<char>, back: Seq<char>, strip: Strip)
    requires
        all_stripped(back, strip),
        kept.len() > 0 ==> !stripped(strip, kept.last()),
    ensures
        stripped_end(kept + back, strip) == kept,
    decreases back.len(),
{
    if back.len() == 0 {
        assert(kept + back =~= kept);
    } else {
        assert((kept + back).last() == back[back.len() - 1]);
        assert((kept + back).drop_last() =~= kept + back.drop_last());
        lemma_end_stripped(kept, back.drop_last(), strip);
    }
}

proof fn lemma_start_stripped(front: Seq<char>, core: Seq<char>, strip: Strip)
    requires
        all_stripped(front, strip),
        core.len() > 0 ==> !stripped(strip, core[0]),
    ensures
        stripped_start(front + core, strip) == core,
    decreases front.len(),
{
    if front.len() == 0 {
        assert(front + core =~= core);
    } else {
        assert((front + core)[0] == front[0]);
        assert((front + core).skip(1) =~= front.skip(1) + core);
        lemma_start_stripped(front.skip(1), core, strip);
    }
}

/// Splitting takes apart what joining put together.
pub proof fn law_split_parts_are_read_back(parts: Seq<Seq<char>>, at: char)
    requires
        parts.len() > 0,
        forall|i: int| 0 <= i < parts.len() ==> !(#[trigger] parts[i]).contains(at),
    ensures
        parts_at(joined(parts, seq![at]), at) == parts,
    decreases joined(parts, seq![at]).len(),
{
    let sep = seq![at];
    let text = joined(parts, sep);
    let last = parts.last();
    let front = parts.drop_last();
    assert(parts =~= front + seq![last]);
    assert(parts[parts.len() - 1] == last);
    if front.len() > 0 {
        law_parts_are_joined(front, seq![last], last, sep);
        assert(text == joined(front, sep) + sep + last);
    } else {
        law_parts_are_joined(seq![last], seq![last], last, sep);
        assert(parts =~= seq![last]);
        assert(text == last);
    }
    if last.len() > 0 {
        let shorter = front.push(last.drop_last());
        assert(shorter =~= front + seq![last.drop_last()]);
        if front.len() > 0 {
            law_parts_are_joined(front, seq![last.drop_last()], last.drop_last(), sep);
        } else {
            law_parts_are_joined(seq![last], seq![last], last.drop_last(), sep);
            assert(shorter =~= seq![last.drop_last()]);
        }
        assert(text.drop_last() =~= joined(shorter, sep));
        assert forall|i: int| 0 <= i < shorter.len() implies !(#[trigger] shorter[i]).contains(
            at,
        ) by {
            if i < front.len() {
                assert(shorter[i] == parts[i]);
            } else if shorter[i].contains(at) {
                let j = choose|j: int| 0 <= j < shorter[i].len() && shorter[i][j] == at;
                assert(last[j] == at);
            }
        }
        law_split_parts_are_read_back(shorter, at);
        assert(text.last() == last.last());
        assert(last.contains(last.last()));
        assert(last.drop_last().push(last.last()) =~= last);
        assert(shorter.drop_last() =~= front);
        assert(parts_at(text, at) =~= parts);
    } else if front.len() > 0 {
        assert(text.drop_last() =~= joined(front, sep));
        assert forall|i: int| 0 <= i < front.len() implies !(#[trigger] front[i]).contains(
            at,
        ) by {
            assert(front[i] == parts[i]);
        }
        law_split_parts_are_read_back(front, at);
        assert(text.last() == at);
        assert(last =~= Seq::<char>::empty());
        assert(parts_at(text, at) =~= parts);
    } else {
        assert(last =~= Seq::<char>::empty());
        assert(parts_at(text, at) =~= parts);
    }
}

proof fn lemma_fitting_is_most(list: Seq<nat>, at: nat, used: nat, limit: nat)
    requires
        at <= list.len(),
        used == taken(list, at),
        used < limit,
    ensures
        ({
            let count = fitting_from(list, at, used, limit);
            &&& at <= count <= list.len()
            &&& taken(list, count) <= limit
            &&& count < list.len() ==> taken(list, count) == limit || taken(list, count + 1) > limit
            &&& forall|k: nat| at <= k < count ==> #[trigger] taken(list, k) < limit
        }),
    decreases list.len() - at,
{
    if at < list.len() {
        assert(taken(list, at + 1) == used + list[at as int]);
        if used + list[at as int] < limit {
            lemma_fitting_is_most(list, at + 1, used + list[at as int], limit);
        }
    }
}

/// What fits is as much as possible: the next item would need more columns than there are, unless all
/// columns are taken, and none is added once all are taken.
pub proof fn law_as_much_as_possible_fits(list: Seq<nat>, limit: nat)
    ensures
        ({
            let count = fitting(list, limit);
            &&& count <= list.len()
            &&& taken(list, count) <= limit
            &&& count < list.len() ==> taken(list, count) == limit || taken(list, count + 1) > limit
            &&& forall|k: nat| k < count ==> #[trigger] taken(list, k) < limit
        }),
{
    if limit > 0 {
        lemma_fitting_is_most(list, 0, 0, limit);
    }
}

/// Keys are sorted by their first number, among equals by the second, and then by the third; no key is lost
/// and none is added.
pub proof fn law_keys_are_sorted(keys: Seq<Key>)
    ensures
        sorted_keys(keys).to_multiset() == keys.to_multiset(),
        forall|i: int, j: int|
            0 <= i < j < sorted_keys(keys).len() ==> {
                let a = #[trigger] sorted_keys(keys)[i];
                let b = #[trigger] sorted_keys(keys)[j];
                &&& a.0 <= b.0
                &&& a.0 == b.0 ==> a.1 <= b.1
                &&& a.0 == b.0 && a.1 == b.1 ==> a.2 <= b.2
            },
{
    lemma_sorted_keys(keys);
    let sorted = sorted_keys(keys);
    assert forall|i: int, j: int| 0 <= i < j < sorted.len() implies {
        let a = #[trigger] sorted[i];
        let b = #[trigger] sorted[j];
        &&& a.0 <= b.0
        &&& a.0 == b.0 ==> a.1 <= b.1
        &&& a.0 == b.0 && a.1 == b.1 ==> a.2 <= b.2
    } by {
        assert(key_le(sorted[i], sorted[j]));
    }
}

/// A range is shown as its only line, or as its first and last line with a dash between them; ranges are
/// shown with commas between them.
pub proof fn law_ranges_are_shown(line: usize, last: usize, more: Seq<LineRange>)
    requires
        line < last,
        more.len() > 0,
    ensures
        shown_range((line, line)) == decimal(line as nat),
        shown_range((line, last)) == decimal(line as nat) + "-"@ + decimal(last as nat),
        shown_ranges(seq![(line, last)]) == shown_range((line, last)),
        shown_ranges(Seq::empty()) == Seq::<char>::empty(),
        shown_ranges(seq![(line, last)] + more) == shown_range((line, last)) + ", "@ + shown_ranges(
            more,
        ),
{
    let one = seq![shown_range((line, last))];
    let rest = Seq::new(more.len(), |i: int| shown_range(more[i]));
    law_parts_are_joined(one, rest, shown_range((line, last)), ", "@);
    let single = seq![(line, last)];
    assert(Seq::new(single.len(), |i: int| shown_range(single[i])) =~= one);
    let all = single + more;
    assert(Seq::new(all.len(), |i: int| shown_range(all[i])) =~= one + rest);
    let none = Seq::<LineRange>::empty();
    assert(Seq::new(none.len(), |i: int| shown_range(none[i])) =~= Seq::<Seq<char>>::empty());
}

proof fn lemma_byte_newlines_filter(bytes: Seq<u8>)
    ensures
        byte_newlines(bytes) == bytes.filter(|b: u8| b == 10).len(),
    decreases bytes.len(),
{
    reveal(Seq::filter);
    if bytes.len() > 0 {
        lemma_byte_newlines_filter(bytes.drop_last());
    }
}

/// A byte stands in the line behind all line feeds before it; what lies behind the end stands in the last
/// line.
pub proof fn law_byte_stands_in_its_line(bytes: Seq<u8>, index: int)
    requires
        0 <= index,
    ensures
        index <= bytes.len() ==> line_of_byte(bytes, index) == 1 + bytes.take(index).filter(
            |b: u8| b == 10,
        ).len(),
        index > bytes.len() ==> line_of_byte(bytes, index) == 1 + bytes.filter(
            |b: u8| b == 10,
        ).len(),
{
    lemma_byte_newlines_filter(bytes);
    if index <= bytes.len() {
        lemma_byte_newlines_filter(bytes.take(index));
    }
    assert(bytes.take(bytes.len() as int) =~= bytes);
}

/// How many line feeds a text holds.
pub proof fn law_line_feeds_are_counted(text: Seq<char>)
    ensures
        newlines(text) == text.filter(|c: char| c == '\n').len(),
    decreases text.len(),
{
    reveal(Seq::filter);
    if text.len() > 0 {
        law_line_feeds_are_counted(text.drop_last());
    }
}

/// A range of lines is taken where its lines exist, and else refused with what is wrong with it.
pub proof fn law_line_ranges_exist(lines: Seq<Seq<char>>, start_line: usize, end_line: usize)
    requires
        are_lines(lines),
    ensures
        ({
            let r = line_choice(lines.flatten(), start_line, end_line);
            &&& 1 <= start_line <= end_line <= lines.len() ==> r == Ok::<LineRange, Seq<char>>(
                (start_line, end_line),
            )
            &&& start_line == 0 || end_line == 0 ==> r == Err::<LineRange, Seq<char>>(
                "line ranges must be one-based"@,
            )
            &&& 0 < end_line < start_line ==> r == Err::<LineRange, Seq<char>>(
                "start_line "@ + decimal(start_line as nat)
                    + " must be less than or equal to end_line "@ + decimal(end_line as nat),
            )
            &&& 0 < start_line <= end_line && end_line > lines.len() ==> r == Err::<
                LineRange,
                Seq<char>,
            >(
                "line range "@ + decimal(start_line as nat) + "-"@ + decimal(end_line as nat)
                    + " is out of range; file has "@ + decimal(lines.len()) + " lines"@,
            )
        }),
{
    law_lines_are_read_back(lines);
}

/// The start of a text that fits into some columns is as long as it can be: it takes no more columns than
/// there are, and the next character would take more, unless all are taken.
pub proof fn law_longest_start_fits(text: Seq<char>, limit: nat)
    ensures
        ({
            let start = prefix_of(text, limit);
            let list = widths(text);
            &&& start == text.take(start.len() as int)
            &&& taken(list, start.len()) <= limit
            &&& start.len() < text.len() ==> taken(list, start.len()) == limit || taken(
                list,
                start.len() + 1,
            ) > limit
        }),
        forall|i: int|
            0 <= i < text.len() ==> #[trigger] widths(text)[i] == match char_columns(text[i]) {
                Some(n) => n as nat,
                None => 0,
            },
{
    law_as_much_as_possible_fits(widths(text), limit);
    let start = prefix_of(text, limit);
    assert(start =~= text.take(start.len() as int));
}

} // verus!
