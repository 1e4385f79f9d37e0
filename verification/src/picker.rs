//! The lines of the picker for a message to go back to.
use std::ops::Range;

use vstd::prelude::*;
use vstd::string::*;

use crate::split::{strip_end, stripped_end, Strip};
use crate::text::{owned, texts, to_chars, white_space};
use crate::width::{prefix_of, take_prefix_by_width};

verus! {

/// How many messages the picker shows.
pub const BACKTRACK_PICKER_MAX_MESSAGES: usize = 5;

/// The title of the picker.
pub const BACKTRACK_PICKER_TITLE: &'static str = "Select a previous message to roll back";

/// The hint below the messages.
pub const BACKTRACK_PICKER_HINT: &'static str = "Enter to roll back, esc to cancel.";

/// How a line is shown.
#[derive(Clone, Copy, Debug, PartialEq, Eq, Structural)]
pub enum LineStyle {
    Plain,
    Dim,
    Bold,
    Cyan,
}

/// A line with one style.
#[derive(Debug, PartialEq, Eq)]
pub struct StyledLine {
    pub style: LineStyle,
    pub text: String,
}

/// A line with one style.
pub struct LineModel {
    pub style: LineStyle,
    pub text: Seq<char>,
}

/// A line in words.
pub open spec fn line_model(style: LineStyle, text: Seq<char>) -> LineModel {
    LineModel { style, text }
}

/// Lines as plain values.
pub open spec fn line_models(lines: Seq<StyledLine>) -> Seq<LineModel> {
    Seq::new(lines.len(), |i: int| line_model(lines[i].style, lines[i].text@))
}

/// The parts between white space, with an empty part wherever two of it meet.
pub open spec fn spaced_parts(s: Seq<char>) -> Seq<Seq<char>>
    decreases s.len(),
{
    if s.len() == 0 {
        seq![Seq::empty()]
    } else {
        let before = spaced_parts(s.drop_last());
        if white_space(s.last()) {
            before.push(Seq::empty())
        } else {
            before.drop_last().push(before.last().push(s.last()))
        }
    }
}

/// The parts that are not empty.
pub open spec fn not_empty(parts: Seq<Seq<char>>) -> Seq<Seq<char>>
    decreases parts.len(),
{
    if parts.len() == 0 {
        Seq::empty()
    } else {
        let before = not_empty(parts.drop_last());
        if parts.last().len() == 0 {
            before
        } else {
            before.push(parts.last())
        }
    }
}

/// The words of a text.
pub open spec fn words(s: Seq<char>) -> Seq<Seq<char>> {
    not_empty(spaced_parts(s))
}

fn split_words(text: &str) -> (r: Vec<String>)
    ensures
        texts(r@) == words(text@),
{
    let chars = to_chars(text);
    let mut out: Vec<String> = Vec::new();
    let mut current = owned("");
    let mut i: usize = 0;
    proof {
        reveal_strlit("");
        assert(chars@.take(0) =~= Seq::<char>::empty());
        assert(current@ =~= Seq::<char>::empty());
        assert(spaced_parts(chars@.take(0)).drop_last() =~= Seq::<Seq<char>>::empty());
        assert(texts(out@) =~= Seq::<Seq<char>>::empty());
    }
    while i < chars.len()
        invariant
            i <= chars@.len(),
            spaced_parts(chars@.take(i as int)).len() > 0,
            spaced_parts(chars@.take(i as int)).last() == current@,
            texts(out@) == not_empty(spaced_parts(chars@.take(i as int)).drop_last()),
        decreases chars@.len() - i,
    {
        let ghost before = spaced_parts(chars@.take(i as int));
        let ghost held = out@;
        let ghost part = current@;
        let c = chars[i];
        proof {
            reveal_strlit("");
            assert(chars@.take(i + 1).drop_last() =~= chars@.take(i as int));
            assert(chars@.take(i + 1).last() == c);
        }
        if c.is_whitespace() {
            if !current.as_str().is_empty() {
                out.push(current);
                assert(texts(out@) =~= texts(held).push(part));
            }
            current = owned("");
            assert(current@ =~= Seq::<char>::empty());
            assert(before.push(Seq::<char>::empty()).drop_last() =~= before);
        } else {
            current.push(c);
            assert(before.drop_last().push(part.push(c)).drop_last() =~= before.drop_last());
        }
        i += 1;
    }
    assert(chars@.take(i as int) =~= text@);
    let ghost held = out@;
    let ghost part = current@;
    if !current.as_str().is_empty() {
        out.push(current);
        assert(texts(out@) =~= texts(held).push(part));
    }
    out
}

/// A message on one line: its words, one space apart.
pub open spec fn on_one_line(message: Seq<char>) -> Seq<char> {
    let line = crate::text::joined(words(message), " "@);
    if line.len() == 0 {
        "(empty message)"@
    } else {
        line
    }
}

/// Puts a message on one line.
pub fn single_line_message(message: &str) -> (r: String)
    ensures
        r@ == on_one_line(message@),
{
    let parts = split_words(message);
    let line = crate::text::join(parts.as_slice(), " ");
    if line.as_str().is_empty() {
        owned("(empty message)")
    } else {
        line
    }
}

/// A message behind a prefix, cut to a width.
pub open spec fn cut_message(prefix: Seq<char>, message: Seq<char>, width: nat) -> Seq<char> {
    if width == 0 {
        Seq::empty()
    } else if width <= prefix.len() {
        prefix_of(prefix, width)
    } else {
        let room = (width - prefix.len()) as nat;
        if prefix_of(message, room) == message {
            prefix + message
        } else if room <= 3 {
            prefix + prefix_of(message, room)
        } else {
            prefix + stripped_end(prefix_of(message, (room - 3) as nat), Strip::White) + "..."@
        }
    }
}

/// Puts a message behind a prefix and cuts it to a width.
pub fn truncate_picker_message(prefix: &str, message: &str, width: usize) -> (r: String)
    ensures
        r@ == cut_message(prefix@, message@, width as nat),
{
    if width == 0 {
        proof {
            reveal_strlit("");
        }
        let out = owned("");
        assert(out@ =~= Seq::<char>::empty());
        return out;
    }
    let prefix_width = to_chars(prefix).len();
    if width <= prefix_width {
        return take_prefix_by_width(prefix, width).0;
    }
    let room: usize = width - prefix_width;
    let (start, rest) = take_prefix_by_width(message, room);
    let mut out = owned(prefix);
    if rest.as_str().is_empty() {
        assert(start@ + rest@ =~= start@);
        out.append(message);
        return out;
    }
    assert(start@ != message@);
    if room <= 3 {
        out.append(start.as_str());
        return out;
    }
    let (short, _) = take_prefix_by_width(message, room - 3);
    let kept = strip_end(short.as_str(), Strip::White);
    out.append(kept.as_str());
    out.append("...");
    out
}

/// The messages that are shown: the selected one, from the one before it on where that leaves no
/// gap at the end.
pub open spec fn shown_range(total: nat, selected: nat, max_messages: nat) -> (nat, nat) {
    let most = if max_messages == 0 {
        1
    } else {
        max_messages
    };
    let start = if selected == 0 {
        0
    } else if selected + 1 == total {
        (total - most) as nat
    } else if selected - 1 < total - most {
        (selected - 1) as nat
    } else {
        (total - most) as nat
    };
    if total <= most {
        (0, total)
    } else {
        (start, start + most)
    }
}

/// Which messages are shown.
pub fn visible_user_message_range(total: usize, selected: usize, max_messages: usize) -> (r: Range<
    usize,
>)
    requires
        selected < usize::MAX || total <= max_messages || total <= 1,
    ensures
        r.start == shown_range(total as nat, selected as nat, max_messages as nat).0,
        r.end == shown_range(total as nat, selected as nat, max_messages as nat).1,
        r.start <= r.end <= total,
{
    let most: usize = if max_messages == 0 {
        1
    } else {
        max_messages
    };
    if total <= most {
        return 0..total;
    }
    let latest: usize = total - most;
    let start: usize = if selected == 0 {
        0
    } else if selected + 1 == total {
        latest
    } else if selected - 1 < latest {
        selected - 1
    } else {
        latest
    };
    start..start + most
}

/// Where two messages or more are shown, the selected one is among them. Where three or more are
/// shown and it is neither the first message nor the last, it is shown with one on each side.
pub proof fn law_selected_message_is_surrounded(total: nat, selected: nat, max_messages: nat)
    requires
        selected < total,
        2 <= max_messages,
    ensures
        shown_range(total, selected, max_messages).0 <= selected < shown_range(
            total,
            selected,
            max_messages,
        ).1,
        shown_range(total, selected, max_messages).1 <= total,
        0 < selected < total - 1 && 3 <= max_messages ==> shown_range(
            total,
            selected,
            max_messages,
        ).0 < selected < shown_range(total, selected, max_messages).1 - 1,
{
}

/// A line across the screen.
pub open spec fn rule_line(width: nat) -> Seq<char> {
    Seq::new(width, |i: int| '─')
}

/// The line of a message.
pub open spec fn message_line(
    messages: Seq<Seq<char>>,
    index: int,
    selected: int,
    width: nat,
) -> LineModel {
    if index == selected {
        line_model(LineStyle::Cyan, cut_message("> "@, on_one_line(messages[index]), width))
    } else {
        line_model(LineStyle::Plain, cut_message("  "@, on_one_line(messages[index]), width))
    }
}

/// The lines of some messages.
pub open spec fn message_lines(
    messages: Seq<Seq<char>>,
    from: nat,
    to: nat,
    selected: int,
    width: nat,
) -> Seq<LineModel> {
    Seq::new((to - from) as nat, |i: int| message_line(messages, from + i, selected, width))
}

/// The lines of the picker; none without a selected message.
pub open spec fn picker_lines(
    messages: Seq<Seq<char>>,
    selected: nat,
    width: nat,
) -> Seq<LineModel> {
    if selected >= messages.len() {
        Seq::empty()
    } else {
        let blank = line_model(LineStyle::Plain, ""@);
        let (from, to) = shown_range(
            messages.len(),
            selected,
            BACKTRACK_PICKER_MAX_MESSAGES as nat,
        );
        seq![
            line_model(LineStyle::Dim, rule_line(width)),
            blank,
            line_model(LineStyle::Bold, cut_message("  "@, BACKTRACK_PICKER_TITLE@, width)),
            blank,
        ] + message_lines(messages, from, to, selected as int, width) + seq![
            blank,
            line_model(LineStyle::Dim, "  "@ + BACKTRACK_PICKER_HINT@),
            blank,
        ]
    }
}

fn draw_rule(width: u16) -> (r: String)
    ensures
        r@ == rule_line(width as nat),
{
    proof {
        reveal_strlit("");
    }
    let mut out = owned("");
    let mut i: u16 = 0;
    while i < width
        invariant
            i <= width,
            out@ == rule_line(i as nat),
        decreases width - i,
    {
        out.push('─');
        assert(out@ =~= rule_line((i + 1) as nat));
        i += 1;
    }
    out
}

fn plain(style: LineStyle, text: String) -> (r: StyledLine)
    ensures
        line_model(r.style, r.text@) == line_model(style, text@),
{
    StyledLine { style, text }
}

/// The lines of the picker.
pub fn backtrack_picker_lines(messages: &[String], selected: usize, width: u16) -> (r: Vec<
    StyledLine,
>)
    ensures
        line_models(r@) == picker_lines(texts(messages@), selected as nat, width as nat),
{
    let ghost all = texts(messages@);
    let mut out: Vec<StyledLine> = Vec::new();
    if selected >= messages.len() {
        assert(line_models(out@) =~= Seq::<LineModel>::empty());
        return out;
    }
    let columns: usize = width as usize;
    let title = truncate_picker_message("  ", BACKTRACK_PICKER_TITLE, columns);
    out.push(plain(LineStyle::Dim, draw_rule(width)));
    out.push(plain(LineStyle::Plain, owned("")));
    out.push(plain(LineStyle::Bold, title));
    out.push(plain(LineStyle::Plain, owned("")));
    let ghost blank = line_model(LineStyle::Plain, ""@);
    let ghost head = seq![
        line_model(LineStyle::Dim, rule_line(width as nat)),
        blank,
        line_model(
            LineStyle::Bold,
            cut_message("  "@, BACKTRACK_PICKER_TITLE@, width as nat),
        ),
        blank,
    ];
    assert(line_models(out@) =~= head);
    let range = visible_user_message_range(
        messages.len(),
        selected,
        BACKTRACK_PICKER_MAX_MESSAGES,
    );
    let from: usize = range.start;
    let to: usize = range.end;
    let mut index: usize = from;
    assert(line_models(out@) =~= head + message_lines(
        all,
        from as nat,
        from as nat,
        selected as int,
        width as nat,
    ));
    while index < to
        invariant
            from <= index <= to <= messages@.len(),
            columns == width,
            all == texts(messages@),
            line_models(out@) == head + message_lines(
                all,
                from as nat,
                index as nat,
                selected as int,
                width as nat,
            ),
        decreases to - index,
    {
        let ghost before = out@;
        let text = single_line_message(messages[index].as_str());
        assert(all[index as int] == messages@[index as int]@);
        if index == selected {
            let line = truncate_picker_message("> ", text.as_str(), columns);
            out.push(plain(LineStyle::Cyan, line));
        } else {
            let line = truncate_picker_message("  ", text.as_str(), columns);
            out.push(plain(LineStyle::Plain, line));
        }
        proof {
            let line = message_line(all, index as int, selected as int, width as nat);
            assert(line_models(out@) =~= line_models(before).push(line));
            assert(message_lines(
                all,
                from as nat,
                (index + 1) as nat,
                selected as int,
                width as nat,
            ) =~= message_lines(
                all,
                from as nat,
                index as nat,
                selected as int,
                width as nat,
            ).push(line));
            assert(line_models(out@) =~= head + message_lines(
                all,
                from as nat,
                (index + 1) as nat,
                selected as int,
                width as nat,
            ));
        }
        index += 1;
    }
    let ghost before = out@;
    let mut hint = owned("  ");
    hint.append(BACKTRACK_PICKER_HINT);
    out.push(plain(LineStyle::Plain, owned("")));
    out.push(plain(LineStyle::Dim, hint));
    out.push(plain(LineStyle::Plain, owned("")));
    assert(line_models(out@) =~= line_models(before) + seq![
        blank,
        line_model(LineStyle::Dim, "  "@ + BACKTRACK_PICKER_HINT@),
        blank,
    ]);
    out
}

} // verus!
