//! Reading a page of a file.
use vstd::prelude::*;
use vstd::string::*;

use crate::error::{respond, FunctionCallError};
use crate::line_range::LineRange;
use crate::text::{decimal, decimal_usize, join, joined, lines, lines_of, owned, texts};

verus! {

/// How many lines are read unless the call says otherwise.
pub const DEFAULT_LIMIT: usize = 100;

/// How many matches a search returns unless the call says otherwise.
pub const DEFAULT_SEARCH_LIMIT: usize = 50;

/// How many lines are read unless the call says otherwise.
pub fn default_limit() -> (r: usize)
    ensures
        r == DEFAULT_LIMIT,
{
    DEFAULT_LIMIT
}

/// How many matches a search returns unless the call says otherwise.
pub fn default_search_limit() -> (r: usize)
    ensures
        r == DEFAULT_SEARCH_LIMIT,
{
    DEFAULT_SEARCH_LIMIT
}

/// The arguments of a read: an offset and a limit, or a first line, which is used instead of the
/// offset, and a limit or a last line.
#[derive(Debug, PartialEq, Eq)]
pub struct ReadFileArgs {
    pub path: String,
    pub offset: usize,
    pub limit: usize,
    pub start_line: Option<usize>,
    pub end_line: Option<usize>,
    pub include_line_numbers: bool,
    pub max_output_tokens: Option<usize>,
}

/// The words of the shown command.
pub open spec fn command_parts(args: ReadFileArgs) -> Seq<Seq<char>> {
    let first = seq!["read_file"@];
    let second = match args.start_line {
        Some(line) => first.push("--start-line="@ + decimal(line as nat)),
        None => if args.offset != 0 {
            first.push("--offset="@ + decimal(args.offset as nat))
        } else {
            first
        },
    };
    match args.end_line {
        Some(line) => second.push("--end-line="@ + decimal(line as nat)),
        None => if args.start_line is Some || args.offset != 0 || args.limit != DEFAULT_LIMIT {
            second.push("--limit="@ + decimal(args.limit as nat))
        } else {
            second
        },
    }
}

fn flag(name: &str, value: usize) -> (r: String)
    ensures
        r@ == name@ + decimal(value as nat),
{
    let mut out = owned(name);
    out.append(decimal_usize(value).as_str());
    out
}

/// The command that a read is shown as: the part of the file that it asks for.
pub fn read_file_display_command(args: &ReadFileArgs) -> (r: String)
    ensures
        r@ == joined(command_parts(*args), " "@),
{
    let mut parts: Vec<String> = Vec::new();
    parts.push(owned("read_file"));
    assert(texts(parts@) =~= seq!["read_file"@]);
    if let Some(line) = args.start_line {
        let ghost before = texts(parts@);
        let part = flag("--start-line=", line);
        parts.push(part);
        assert(texts(parts@) =~= before.push(part@));
    } else if args.offset != 0 {
        let ghost before = texts(parts@);
        let part = flag("--offset=", args.offset);
        parts.push(part);
        assert(texts(parts@) =~= before.push(part@));
    }
    if let Some(line) = args.end_line {
        let ghost before = texts(parts@);
        let part = flag("--end-line=", line);
        parts.push(part);
        assert(texts(parts@) =~= before.push(part@));
    } else if args.start_line.is_some() || args.offset != 0 || args.limit != DEFAULT_LIMIT {
        let ghost before = texts(parts@);
        let part = flag("--limit=", args.limit);
        parts.push(part);
        assert(texts(parts@) =~= before.push(part@));
    }
    join(parts.as_slice(), " ")
}

/// A line with its number.
pub type NumberedLine = (usize, String);

/// The lines from `start_line` on, at most `limit` of them, with their numbers.
pub open spec fn page_of(text: Seq<char>, start_line: int, limit: int) -> Seq<(usize, Seq<char>)> {
    let all = lines_of(text);
    let from = if start_line - 1 < all.len() {
        start_line - 1
    } else {
        all.len() as int
    };
    let to = if from + limit < all.len() {
        from + limit
    } else {
        all.len() as int
    };
    Seq::new((to - from) as nat, |i: int| ((from + i + 1) as usize, all[from + i]))
}

/// The lines that a read asks for, or why it asks for none. A start line that is set is used instead
/// of the offset.
pub open spec fn page_choice(text: Seq<char>, args: ReadFileArgs) -> Result<
    Seq<(usize, Seq<char>)>,
    Seq<char>,
> {
    if args.end_line is Some && args.start_line is None {
        Err("end_line requires start_line"@)
    } else {
        let start_line = match args.start_line {
            Some(line) => line as int,
            None => args.offset + 1,
        };
        if start_line == 0 {
            Err("start_line must be one-based"@)
        } else {
            match args.end_line {
                Some(end_line) => if end_line < start_line {
                    Err(
                        "end_line "@ + decimal(end_line as nat)
                            + " must be greater than or equal to start_line "@ + decimal(
                            start_line as nat,
                        ),
                    )
                } else {
                    Ok(page_of(text, start_line, end_line - start_line + 1))
                },
                None => Ok(page_of(text, start_line, args.limit as int)),
            }
        }
    }
}

/// Lines with their numbers as plain values.
pub open spec fn numbered(lines: Seq<NumberedLine>) -> Seq<(usize, Seq<char>)> {
    Seq::new(lines.len(), |i: int| (lines[i].0, lines[i].1@))
}

fn page(text: &str, start_line: usize, last: usize, limit: Option<usize>) -> (r: Vec<NumberedLine>)
    requires
        start_line >= 1,
        limit is None ==> last >= start_line,
    ensures
        numbered(r@) == page_of(
            text@,
            start_line as int,
            match limit {
                Some(count) => count as int,
                None => last - start_line + 1,
            },
        ),
{
    let all = lines(text);
    let total: usize = all.len();
    assert(texts(all@).len() == all@.len());
    let from: usize = if start_line - 1 < total {
        start_line - 1
    } else {
        total
    };
    let to: usize = match limit {
        Some(count) => if count < total - from {
            from + count
        } else {
            total
        },
        None => if last < total {
            last
        } else {
            total
        },
    };
    let ghost wanted = page_of(
        text@,
        start_line as int,
        match limit {
            Some(count) => count as int,
            None => last - start_line + 1,
        },
    );
    let mut out: Vec<NumberedLine> = Vec::new();
    let mut i: usize = from;
    assert(numbered(out@) =~= wanted.take(0));
    assert(wanted.len() == to - from);
    while i < to
        invariant
            from <= i <= to <= total == all@.len(),
            texts(all@) == lines_of(text@),
            wanted.len() == to - from,
            forall|k: int|
                0 <= k < wanted.len() ==> #[trigger] wanted[k] == (
                    (from + k + 1) as usize,
                    lines_of(text@)[from + k],
                ),
            numbered(out@) == wanted.take(i - from),
        decreases to - i,
    {
        let ghost before = numbered(out@);
        let line = owned(all[i].as_str());
        assert(texts(all@)[i as int] == all@[i as int]@);
        assert(wanted[i - from] == ((i + 1) as usize, line@));
        out.push((i + 1, line));
        assert(numbered(out@) =~= before.push(((i + 1) as usize, line@)));
        assert(wanted.take(i - from + 1) =~= wanted.take(i - from).push(wanted[i - from]));
        i += 1;
    }
    assert(wanted.take(wanted.len() as int) =~= wanted);
    out
}

/// The lines that a read asks for.
pub fn read_lines(text: &str, args: &ReadFileArgs) -> (r: Result<
    Vec<NumberedLine>,
    FunctionCallError,
>)
    requires
        args.start_line is None && args.end_line is None ==> args.offset < usize::MAX,
    ensures
        match page_choice(text@, *args) {
            Ok(lines) => r matches Ok(got) && numbered(got@) == lines,
            Err(message) => r matches Err(error) && error.says(message),
        },
{
    if args.end_line.is_some() && args.start_line.is_none() {
        return Err(respond("end_line requires start_line"));
    }
    let start_line: usize = match args.start_line {
        Some(line) => line,
        None => args.offset + 1,
    };
    if start_line == 0 {
        return Err(respond("start_line must be one-based"));
    }
    match args.end_line {
        Some(end_line) => {
            if end_line < start_line {
                let mut message = owned("end_line ");
                message.append(decimal_usize(end_line).as_str());
                message.append(" must be greater than or equal to start_line ");
                message.append(decimal_usize(start_line).as_str());
                return Err(FunctionCallError::RespondToModel(message));
            }
            Ok(page(text, start_line, end_line, None))
        },
        None => Ok(page(text, start_line, 0, Some(args.limit))),
    }
}

/// A line as it is shown, with its number in front where wanted.
pub open spec fn shown_line(line: (usize, Seq<char>), include_line_numbers: bool) -> Seq<char> {
    if include_line_numbers {
        decimal(line.0 as nat) + ":"@ + line.1
    } else {
        line.1
    }
}

/// The lines as they are shown.
pub open spec fn shown_lines(lines: Seq<(usize, Seq<char>)>, include_line_numbers: bool) -> Seq<
    char,
> {
    joined(
        Seq::new(lines.len(), |i: int| shown_line(lines[i], include_line_numbers)),
        "\n"@,
    )
}

/// Shows lines, with their numbers where wanted.
pub fn format_read_lines(lines: &[NumberedLine], include_line_numbers: bool) -> (r: String)
    ensures
        r@ == shown_lines(numbered(lines@), include_line_numbers),
{
    let mut parts: Vec<String> = Vec::new();
    let mut i: usize = 0;
    while i < lines.len()
        invariant
            i <= lines@.len(),
            parts@.len() == i,
            forall|j: int|
                0 <= j < i ==> (#[trigger] parts@[j])@ == shown_line(
                    numbered(lines@)[j],
                    include_line_numbers,
                ),
        decreases lines@.len() - i,
    {
        let line = lines[i].1.as_str();
        if include_line_numbers {
            let mut part = decimal_usize(lines[i].0);
            part.append(":");
            part.append(line);
            parts.push(part);
        } else {
            parts.push(owned(line));
        }
        i += 1;
    }
    assert(texts(parts@) =~= Seq::new(
        numbered(lines@).len(),
        |j: int| shown_line(numbered(lines@)[j], include_line_numbers),
    ));
    join(parts.as_slice(), "\n")
}

/// Each line as a range of its own.
pub fn numbered_line_ranges(lines: &[NumberedLine]) -> (r: Vec<LineRange>)
    ensures
        r@ == Seq::new(lines@.len(), |i: int| (lines@[i].0, lines@[i].0)),
{
    let ghost wanted = Seq::new(lines@.len(), |i: int| (lines@[i].0, lines@[i].0));
    let mut out: Vec<LineRange> = Vec::new();
    let mut i: usize = 0;
    while i < lines.len()
        invariant
            i <= lines@.len(),
            wanted == Seq::new(lines@.len(), |i: int| (lines@[i].0, lines@[i].0)),
            out@ == wanted.take(i as int),
        decreases lines@.len() - i,
    {
        out.push((lines[i].0, lines[i].0));
        assert(wanted.take(i + 1) =~= wanted.take(i as int).push(wanted[i as int]));
        i += 1;
    }
    assert(wanted.take(lines@.len() as int) =~= wanted);
    out
}

/// Reading from line `offset + 1` or skipping `offset` lines is the same, whatever offset stands
/// beside the line.
pub proof fn law_offset_is_start_line(text: Seq<char>, by_offset: ReadFileArgs, by_line: ReadFileArgs)
    requires
        by_offset.start_line is None,
        by_offset.end_line is None,
        by_line.start_line == Some((by_offset.offset + 1) as usize),
        by_line.end_line is None,
        by_line.limit == by_offset.limit,
        by_offset.offset < usize::MAX,
    ensures
        page_choice(text, by_offset) == page_choice(text, by_line),
{
}

/// Two pages that follow each other show the lines of one page of their joint length.
pub proof fn law_pages_join(text: Seq<char>, start_line: int, first: int, second: int)
    requires
        start_line >= 1,
        first >= 0,
        second >= 0,
    ensures
        page_of(text, start_line, first) + page_of(text, start_line + first, second) == page_of(
            text,
            start_line,
            first + second,
        ),
{
    assert(page_of(text, start_line, first) + page_of(text, start_line + first, second) =~= page_of(
        text,
        start_line,
        first + second,
    ));
}

} // verus!
