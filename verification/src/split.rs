//! Taking texts apart: stripping their ends and splitting them at a character.
use vstd::prelude::*;
use vstd::string::*;

use crate::text::{nested, slice_text, to_chars, white_space};

verus! {

/// The characters that are stripped.
#[derive(Clone, Copy, Debug, PartialEq, Eq, Structural)]
pub enum Strip {
    /// White space.
    White,
    /// Line feeds and carriage returns.
    LineEnds,
    /// One character.
    Only(char),
}

/// Whether a character is stripped.
pub open spec fn stripped(strip: Strip, c: char) -> bool {
    match strip {
        Strip::White => white_space(c),
        Strip::LineEnds => c == '\r' || c == '\n',
        Strip::Only(only) => c == only,
    }
}

/// A text without the characters at its end that are stripped.
pub open spec fn stripped_end(s: Seq<char>, strip: Strip) -> Seq<char>
    decreases s.len(),
{
    if s.len() > 0 && stripped(strip, s.last()) {
        stripped_end(s.drop_last(), strip)
    } else {
        s
    }
}

/// A text without the characters at its start that are stripped.
pub open spec fn stripped_start(s: Seq<char>, strip: Strip) -> Seq<char>
    decreases s.len(),
{
    if s.len() > 0 && stripped(strip, s[0]) {
        stripped_start(s.skip(1), strip)
    } else {
        s
    }
}

/// A text without the characters at both ends that are stripped.
pub open spec fn stripped_both(s: Seq<char>, strip: Strip) -> Seq<char> {
    stripped_start(stripped_end(s, strip), strip)
}

fn strips(strip: Strip, c: char) -> (r: bool)
    ensures
        r == stripped(strip, c),
{
    match strip {
        Strip::White => c.is_whitespace(),
        Strip::LineEnds => c == '\r' || c == '\n',
        Strip::Only(only) => c == only,
    }
}

fn end_of(chars: &[char], strip: Strip) -> (r: usize)
    ensures
        r <= chars@.len(),
        chars@.take(r as int) == stripped_end(chars@, strip),
{
    let mut count: usize = chars.len();
    assert(chars@.take(count as int) =~= chars@);
    while count > 0 && strips(strip, chars[count - 1])
        invariant
            count <= chars@.len(),
            stripped_end(chars@, strip) == stripped_end(chars@.take(count as int), strip),
        decreases count,
    {
        assert(chars@.take(count as int).last() == chars@[count - 1]);
        assert(chars@.take(count as int).drop_last() =~= chars@.take(count - 1));
        count -= 1;
    }
    proof {
        if count > 0 {
            assert(chars@.take(count as int).last() == chars@[count - 1]);
        }
    }
    count
}

/// Strips the end of a text.
pub fn strip_end(text: &str, strip: Strip) -> (r: String)
    ensures
        r@ == stripped_end(text@, strip),
{
    let chars = to_chars(text);
    let count = end_of(chars.as_slice(), strip);
    let out = slice_text(chars.as_slice(), 0, count);
    assert(out@ =~= chars@.take(count as int));
    out
}

/// Strips both ends of a text.
pub fn strip_both(text: &str, strip: Strip) -> (r: String)
    ensures
        r@ == stripped_both(text@, strip),
{
    let chars = to_chars(text);
    let count = end_of(chars.as_slice(), strip);
    let ghost kept = chars@.take(count as int);
    let mut from: usize = 0;
    assert(kept.skip(0) =~= kept);
    while from < count && strips(strip, chars[from])
        invariant
            from <= count <= chars@.len(),
            kept == chars@.take(count as int),
            stripped_start(kept, strip) == stripped_start(kept.skip(from as int), strip),
        decreases count - from,
    {
        assert(kept.skip(from as int)[0] == chars@[from as int]);
        assert(kept.skip(from as int).skip(1) =~= kept.skip(from + 1));
        from += 1;
    }
    proof {
        if from < count {
            assert(kept.skip(from as int)[0] == chars@[from as int]);
        }
    }
    let out = slice_text(chars.as_slice(), from, count);
    assert(out@ =~= kept.skip(from as int));
    out
}

/// The parts between the places where a character stands.
pub open spec fn parts_at(s: Seq<char>, at: char) -> Seq<Seq<char>>
    decreases s.len(),
{
    if s.len() == 0 {
        seq![Seq::empty()]
    } else {
        let before = parts_at(s.drop_last(), at);
        if s.last() == at {
            before.push(Seq::empty())
        } else {
            before.drop_last().push(before.last().push(s.last()))
        }
    }
}

/// Splits a text at a character.
pub fn split_at_char(text: &str, at: char) -> (r: Vec<Vec<char>>)
    ensures
        nested(r@) == parts_at(text@, at),
        r@.len() > 0,
{
    let chars = to_chars(text);
    let mut out: Vec<Vec<char>> = Vec::new();
    let mut current: Vec<char> = Vec::new();
    let mut i: usize = 0;
    assert(chars@.take(0) =~= Seq::<char>::empty());
    assert(current@ =~= Seq::<char>::empty());
    assert(nested(out@).push(current@) =~= seq![Seq::<char>::empty()]);
    while i < chars.len()
        invariant
            i <= chars@.len(),
            nested(out@).push(current@) == parts_at(chars@.take(i as int), at),
        decreases chars@.len() - i,
    {
        let ghost before = parts_at(chars@.take(i as int), at);
        proof {
            assert(chars@.take(i + 1).drop_last() =~= chars@.take(i as int));
            assert(chars@.take(i + 1).last() == chars@[i as int]);
            assert(before.drop_last() =~= nested(out@));
            assert(before.last() == current@);
        }
        if chars[i] == at {
            let ghost held = out@;
            let ghost done = current@;
            out.push(current);
            current = Vec::new();
            assert(nested(out@) =~= nested(held).push(done));
            assert(current@ =~= Seq::<char>::empty());
        } else {
            current.push(chars[i]);
        }
        i += 1;
    }
    assert(chars@.take(chars@.len() as int) =~= chars@);
    let ghost held = out@;
    let ghost done = current@;
    out.push(current);
    assert(nested(out@) =~= nested(held).push(done));
    out
}

} // verus!
